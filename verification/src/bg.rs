//! Process registry and background-output lifecycle for the bash tool.
//!
//! Every bash command registers itself on spawn so the display-only `/ps`
//! command can list it and `/stop` can kill its process group. A command
//! that outlives its foreground deadline is handed to a detached supervisor
//! (at most a fixed number at once) that streams its output to a temp file;
//! completed output files are retained for one hour and among the eight
//! newest, then reclaimed. This module holds that state and every decision
//! over it; signals, file writes and deletions are performed by the caller
//! on the entries and paths returned here.

use vstd::prelude::*;
use crate::idmap::IdMap;
use crate::text::{push_decimal, push_str, str_eq, decimal};

verus! {

broadcast use vstd::seq::group_seq_axioms;

pub const STREAM_OUTPUT_LIMIT_BYTES: usize = 8388608;

/// A node supervises at most this many timed-out bash commands at once.
pub const MAX_ACTIVE_HANDOFFS: usize = 32;

/// Completed output files kept at most.
pub const MAX_RETAINED_OUTPUTS: usize = 8;

/// Completed output is kept for one hour (in milliseconds).
pub const COMPLETED_OUTPUT_TTL_MS: u64 = 3600000;

/// Shared capture state for a command's stdout/stderr: bounded buffers and
/// the overflow error, once one stream exceeds the limit.
#[derive(Debug)]
pub struct BgState {
    pub stdout_buf: Vec<u8>,
    pub stderr_buf: Vec<u8>,
    output_limit_error: Option<String>,
}

/// Which pipe a chunk came from.
#[derive(Clone, Copy, Debug, PartialEq, Eq)]
pub enum OutputStream {
    Stdout,
    Stderr,
}

pub open spec fn limit_message(stdout: bool) -> Seq<char> {
    "output_limit_exceeded: "@ + (if stdout {
        "bash stdout"@
    } else {
        "bash stderr"@
    }) + " exceeds "@ + decimal(STREAM_OUTPUT_LIMIT_BYTES as nat) + " bytes"@
}

pub open spec fn min_nat(a: int, b: int) -> int {
    if a <= b {
        a
    } else {
        b
    }
}

impl BgState {
    /// Both buffers fit within the limit.
    pub closed spec fn wf(&self) -> bool {
        self.stdout_buf@.len() <= STREAM_OUTPUT_LIMIT_BYTES && self.stderr_buf@.len()
            <= STREAM_OUTPUT_LIMIT_BYTES
    }

    /// The captured stdout bytes.
    pub closed spec fn out(&self) -> Seq<u8> {
        self.stdout_buf@
    }

    /// The captured stderr bytes.
    pub closed spec fn err(&self) -> Seq<u8> {
        self.stderr_buf@
    }

    pub closed spec fn limit_error(&self) -> Option<Seq<char>> {
        match self.output_limit_error {
            Some(e) => Some(e@),
            None => None,
        }
    }

    pub fn new() -> (s: Self)
        ensures
            s.wf(),
            s.out() == Seq::<u8>::empty(),
            s.err() == Seq::<u8>::empty(),
            s.limit_error() is None,
    {
        BgState { stdout_buf: Vec::new(), stderr_buf: Vec::new(), output_limit_error: None }
    }

    /// Append a chunk of stdout; `false` once the stream overflowed.
    pub fn push_stdout(&mut self, data: &[u8]) -> (ok: bool)
        requires
            old(self).wf(),
        ensures
            final(self).wf(),
            final(self).err() == old(self).err(),
            old(self).limit_error() is Some ==> !ok && *final(self) == *old(self),
            old(self).limit_error() is None ==> {
                let accepted = min_nat(
                    data@.len() as int,
                    STREAM_OUTPUT_LIMIT_BYTES - old(self).out().len(),
                );
                &&& final(self).out() == old(self).out() + data@.subrange(0, accepted)
                &&& ok == (accepted == data@.len())
                &&& final(self).limit_error() == if ok {
                    None
                } else {
                    Some(limit_message(true))
                }
            },
    {
        self.push(data, OutputStream::Stdout)
    }

    /// Append a chunk of stderr; `false` once the stream overflowed.
    pub fn push_stderr(&mut self, data: &[u8]) -> (ok: bool)
        requires
            old(self).wf(),
        ensures
            final(self).wf(),
            final(self).out() == old(self).out(),
            old(self).limit_error() is Some ==> !ok && *final(self) == *old(self),
            old(self).limit_error() is None ==> {
                let accepted = min_nat(
                    data@.len() as int,
                    STREAM_OUTPUT_LIMIT_BYTES - old(self).err().len(),
                );
                &&& final(self).err() == old(self).err() + data@.subrange(0, accepted)
                &&& ok == (accepted == data@.len())
                &&& final(self).limit_error() == if ok {
                    None
                } else {
                    Some(limit_message(false))
                }
            },
    {
        self.push(data, OutputStream::Stderr)
    }

    fn push(&mut self, data: &[u8], stream: OutputStream) -> (ok: bool)
        requires
            old(self).wf(),
        ensures
            final(self).wf(),
            stream == OutputStream::Stdout ==> final(self).err() == old(self).err(),
            stream == OutputStream::Stderr ==> final(self).out() == old(self).out(),
            old(self).limit_error() is Some ==> !ok && *final(self) == *old(self),
            old(self).limit_error() is None ==> {
                let before = if stream == OutputStream::Stdout {
                    old(self).stdout_buf@
                } else {
                    old(self).stderr_buf@
                };
                let after = if stream == OutputStream::Stdout {
                    final(self).stdout_buf@
                } else {
                    final(self).stderr_buf@
                };
                let accepted = min_nat(data@.len() as int, STREAM_OUTPUT_LIMIT_BYTES - before.len());
                &&& after == before + data@.subrange(0, accepted)
                &&& ok == (accepted == data@.len())
                &&& final(self).limit_error() == if ok {
                    None
                } else {
                    Some(limit_message(stream == OutputStream::Stdout))
                }
            },
    {
        if self.output_limit_error.is_some() {
            return false;
        }
        let is_stdout = match stream {
            OutputStream::Stdout => true,
            OutputStream::Stderr => false,
        };
        let len = if is_stdout { self.stdout_buf.len() } else { self.stderr_buf.len() };
        let room = STREAM_OUTPUT_LIMIT_BYTES - len;
        let accepted = if data.len() < room { data.len() } else { room };
        let mut i: usize = 0;
        let ghost before_out = self.stdout_buf@;
        let ghost before_err = self.stderr_buf@;
        while i < accepted
            invariant
                i <= accepted <= data@.len(),
                accepted <= room,
                room == STREAM_OUTPUT_LIMIT_BYTES - len,
                is_stdout == (stream == OutputStream::Stdout),
                len == if is_stdout { before_out.len() } else { before_err.len() },
                is_stdout ==> self.stdout_buf@ == before_out + data@.subrange(0, i as int)
                    && self.stderr_buf@ == before_err,
                !is_stdout ==> self.stderr_buf@ == before_err + data@.subrange(0, i as int)
                    && self.stdout_buf@ == before_out,
                self.output_limit_error.is_none(),
            decreases accepted - i,
        {
            if is_stdout {
                self.stdout_buf.push(data[i]);
            } else {
                self.stderr_buf.push(data[i]);
            }
            assert(data@.subrange(0, i + 1) =~= data@.subrange(0, i as int).push(data@[i as int]));
            i += 1;
        }
        if accepted == data.len() {
            return true;
        }
        let mut error = String::new();
        push_str(&mut error, "output_limit_exceeded: ");
        if is_stdout {
            push_str(&mut error, "bash stdout");
        } else {
            push_str(&mut error, "bash stderr");
        }
        push_str(&mut error, " exceeds ");
        push_decimal(&mut error, STREAM_OUTPUT_LIMIT_BYTES as u64);
        push_str(&mut error, " bytes");
        self.output_limit_error = Some(error);
        false
    }

    /// The overflow error, once a stream exceeded the limit.
    pub fn output_limit_error(&self) -> (r: Option<&str>)
        ensures
            match r {
                Some(e) => self.limit_error() == Some(e@),
                None => self.limit_error() is None,
            },
    {
        match &self.output_limit_error {
            Some(e) => Some(e.as_str()),
            None => None,
        }
    }
}

impl Default for BgState {
    fn default() -> (s: Self)
        ensures
            s.wf(),
            s.out() == Seq::<u8>::empty(),
            s.err() == Seq::<u8>::empty(),
            s.limit_error() is None,
    {
        BgState::new()
    }
}

pub open spec fn output_path_spec(pid: u32) -> Seq<char> {
    "/tmp/opencoder_bg_"@ + decimal(pid as nat) + ".output"@
}

/// Path of the background output file for a given pid.
pub fn output_path(pid: u32) -> (p: String)
    ensures
        p@ == output_path_spec(pid),
{
    let mut s = String::new();
    push_str(&mut s, "/tmp/opencoder_bg_");
    push_decimal(&mut s, pid as u64);
    push_str(&mut s, ".output");
    s
}

// ---------------------------------------------------------------------------
// Live process registry
// ---------------------------------------------------------------------------

/// One registered bash command.
#[derive(Debug)]
pub struct BgEntry {
    /// Process group to signal (the command's own pid).
    pub pgid: i32,
    /// The command runs under an external supervisor that the caller
    /// signals instead of the process group.
    pub supervised: bool,
    pub session_id: String,
    pub output_path: String,
}

/// Public snapshot of one registered process.
#[derive(Clone, Debug)]
pub struct BgInfo {
    pub pid: u32,
    pub output_path: String,
}

/// A retained output file of a completed background command.
#[derive(Debug)]
pub struct CompletedOutput {
    pub path: String,
    pub completed_at_ms: u64,
}

/// The whole background lifecycle state of one process.
#[derive(Debug)]
pub struct BgLifecycle {
    registry: IdMap<BgEntry>,
    supervisors: IdMap<String>,
    next_supervisor: u64,
    cleaning: bool,
    completed: Vec<CompletedOutput>,
}

pub open spec fn completed_view(c: Seq<CompletedOutput>) -> Seq<(Seq<char>, u64)> {
    c.map_values(|e: CompletedOutput| (e.path@, e.completed_at_ms))
}

impl BgLifecycle {
    pub closed spec fn wf(&self) -> bool {
        &&& self.registry.wf()
        &&& self.supervisors.wf()
        &&& forall|k: u64| #[trigger] self.registry.map().contains_key(k) ==> k <= u32::MAX
    }

    /// Registered pids and their entries.
    pub closed spec fn live(&self) -> Map<u64, BgEntry> {
        self.registry.map()
    }

    /// Registered entries in registration order.
    pub closed spec fn live_items(&self) -> Seq<(u64, BgEntry)> {
        self.registry.items()
    }

    /// Active supervisor ids and their output paths.
    pub closed spec fn supervisor_items(&self) -> Seq<(u64, String)> {
        self.supervisors.items()
    }

    pub closed spec fn supervisor_map(&self) -> Map<u64, String> {
        self.supervisors.map()
    }

    /// Retained completed outputs, oldest first.
    pub closed spec fn retained(&self) -> Seq<(Seq<char>, u64)> {
        completed_view(self.completed@)
    }

    /// Shutdown has run: newly completed outputs are deleted at once.
    pub closed spec fn is_cleaning(&self) -> bool {
        self.cleaning
    }

    pub closed spec fn next_id(&self) -> u64 {
        self.next_supervisor
    }

    /// What `list` reports and the pid map agree: every listed entry is
    /// registered under its pid, and every registered pid is listed.
    pub proof fn lemma_live_is_listed(&self)
        requires
            self.wf(),
        ensures
            forall|i: int|
                0 <= i < self.live_items().len() ==> #[trigger] self.live().contains_key(
                    self.live_items()[i].0,
                ) && self.live()[self.live_items()[i].0] == self.live_items()[i].1,
            forall|k: u64|
                #[trigger] self.live().contains_key(k) ==> exists|i: int|
                    0 <= i < self.live_items().len() && self.live_items()[i].0 == k,
    {
        self.registry.lemma_items_map();
        assert forall|k: u64| #[trigger] self.live().contains_key(k) implies exists|i: int|
            0 <= i < self.live_items().len() && self.live_items()[i].0 == k by {
            assert(self.registry.map().contains_key(k));
            let i = choose|i: int| 0 <= i < self.registry.items().len() && self.registry.items()[i].0 == k;
            assert(self.live_items()[i].0 == k);
        }
    }

    pub fn new() -> (s: Self)
        ensures
            s.wf(),
            s.live() == Map::<u64, BgEntry>::empty(),
            s.live_items().len() == 0,
            s.supervisor_items().len() == 0,
            s.retained().len() == 0,
            !s.is_cleaning(),
            s.next_id() == 1,
    {
        BgLifecycle {
            registry: IdMap::new(),
            supervisors: IdMap::new(),
            next_supervisor: 1,
            cleaning: false,
            completed: Vec::new(),
        }
    }

    /// Number of retained completed outputs.
    pub fn retained_len(&self) -> (n: usize)
        ensures
            n == self.retained().len(),
    {
        self.completed.len()
    }

    /// Number of active supervisors.
    pub fn supervisor_count(&self) -> (n: usize)
        ensures
            n == self.supervisor_items().len(),
    {
        self.supervisors.len()
    }
}

/// Snapshot every registered process, in registration order.
pub fn list(state: &BgLifecycle) -> (r: Vec<BgInfo>)
    requires
        state.wf(),
    ensures
        r@.len() == state.live_items().len(),
        forall|i: int|
            0 <= i < r@.len() ==> (#[trigger] r@[i]).pid as u64 == state.live_items()[i].0
                && r@[i].output_path@ == state.live_items()[i].1.output_path@,
{
    let mut out: Vec<BgInfo> = Vec::new();
    let n = state.registry.len();
    proof {
        state.registry.lemma_items_map();
        assert forall|k: int| 0 <= k < n implies state.live_items()[k].0 <= u32::MAX by {
            assert(state.registry.map().contains_key(state.registry.items()[k].0));
        }
    }
    let mut i: usize = 0;
    while i < n
        invariant
            i <= n == state.live_items().len(),
            out@.len() == i,
            forall|k: int|
                0 <= k < i ==> (#[trigger] out@[k]).pid as u64 == state.live_items()[k].0
                    && out@[k].output_path@ == state.live_items()[k].1.output_path@,
            forall|k: int| 0 <= k < n ==> state.live_items()[k].0 <= u32::MAX,
        decreases n - i,
    {
        let (pid, entry) = state.registry.entry(i);
        let path = crate::text::string_from_chars(&crate::text::chars_of(entry.output_path.as_str()));
        out.push(BgInfo { pid: pid as u32, output_path: path });
        i += 1;
    }
    out
}

/// Register a freshly spawned command under its pid; `/stop` signals its
/// process group `pgid`.
pub fn register(state: &mut BgLifecycle, pid: u32, pgid: i32, session_id: String)
    requires
        old(state).wf(),
    ensures
        final(state).wf(),
        final(state).live().contains_key(pid as u64),
        final(state).live()[pid as u64].pgid == pgid,
        !final(state).live()[pid as u64].supervised,
        final(state).live()[pid as u64].output_path@ == output_path_spec(pid),
        final(state).live().remove(pid as u64) == old(state).live().remove(pid as u64),
{
    let entry = BgEntry { pgid, supervised: false, session_id, output_path: output_path(pid) };
    state.registry.insert(pid as u64, entry);
    assert(state.registry.map().remove(pid as u64) =~= old(state).registry.map().remove(pid as u64));
}

/// Register a command that runs under an external supervisor: stopping it
/// signals the supervisor, and its process group is its pid.
pub fn register_supervised(state: &mut BgLifecycle, pid: u32, session_id: String)
    requires
        old(state).wf(),
        pid <= i32::MAX,
    ensures
        final(state).wf(),
        final(state).live().contains_key(pid as u64),
        final(state).live()[pid as u64].pgid == pid as i32,
        final(state).live()[pid as u64].supervised,
        final(state).live()[pid as u64].output_path@ == output_path_spec(pid),
        final(state).live().remove(pid as u64) == old(state).live().remove(pid as u64),
{
    let entry = BgEntry {
        pgid: pid as i32,
        supervised: true,
        session_id,
        output_path: output_path(pid),
    };
    state.registry.insert(pid as u64, entry);
    assert(state.registry.map().remove(pid as u64) =~= old(state).registry.map().remove(pid as u64));
}

/// Remove the entry of a command that completed. A no-op when `pid` was
/// already removed.
pub fn unregister(state: &mut BgLifecycle, pid: u32)
    requires
        old(state).wf(),
    ensures
        final(state).wf(),
        final(state).live() == old(state).live().remove(pid as u64),
{
    let _ = state.registry.remove(pid as u64);
}

/// Remove the entry for `pid` only when it still belongs to process group
/// `pgid`.
pub fn unregister_group(state: &mut BgLifecycle, pid: u32, pgid: i32)
    requires
        old(state).wf(),
    ensures
        final(state).wf(),
        final(state).live() == if old(state).live().contains_key(pid as u64) && old(
            state,
        ).live()[pid as u64].pgid == pgid {
            old(state).live().remove(pid as u64)
        } else {
            old(state).live()
        },
{
    let matches = match state.registry.get(pid as u64) {
        Some(e) => e.pgid == pgid,
        None => false,
    };
    if matches {
        let _ = state.registry.remove(pid as u64);
    }
}

/// Remove the entry of `pid` and hand it back so the caller signals its
/// process group (or supervisor); `None` when `pid` is not registered.
pub fn stop(state: &mut BgLifecycle, pid: u32) -> (r: Option<BgEntry>)
    requires
        old(state).wf(),
    ensures
        final(state).wf(),
        final(state).live() == old(state).live().remove(pid as u64),
        r is Some == old(state).live().contains_key(pid as u64),
        r matches Some(e) ==> e == old(state).live()[pid as u64],
{
    state.registry.remove(pid as u64)
}

/// Remove every registered entry and hand them back, in registration order,
/// for the caller to signal; the count is the number of groups killed.
pub fn kill_all(state: &mut BgLifecycle) -> (r: Vec<(u64, BgEntry)>)
    requires
        old(state).wf(),
    ensures
        final(state).wf(),
        r@ == old(state).live_items(),
        final(state).live() == Map::<u64, BgEntry>::empty(),
        final(state).live_items().len() == 0,
        final(state).supervisor_items() == old(state).supervisor_items(),
        final(state).retained() == old(state).retained(),
{
    state.registry.drain()
}

// ---------------------------------------------------------------------------
// Supervisor slots and completed outputs
// ---------------------------------------------------------------------------

/// Whether another supervisor id can still be handed out.
pub fn supervisor_ids_left(state: &BgLifecycle) -> (b: bool)
    ensures
        b == (state.next_id() < u64::MAX),
{
    state.next_supervisor < u64::MAX
}

/// The next supervisor id (ids start at 1 and never repeat).
pub fn next_supervisor_id(state: &mut BgLifecycle) -> (id: u64)
    requires
        old(state).wf(),
        old(state).next_id() < u64::MAX,
    ensures
        final(state).wf(),
        id == old(state).next_id(),
        final(state).next_id() == old(state).next_id() + 1,
        final(state).live_items() == old(state).live_items(),
        final(state).live() == old(state).live(),
        final(state).supervisor_items() == old(state).supervisor_items(),
        final(state).supervisor_map() == old(state).supervisor_map(),
        final(state).retained() == old(state).retained(),
        final(state).is_cleaning() == old(state).is_cleaning(),
{
    let id = state.next_supervisor;
    state.next_supervisor = state.next_supervisor + 1;
    id
}

pub open spec fn limit_exceeded_message(limit: usize) -> Seq<char> {
    "background_process_limit_exceeded: at most "@ + decimal(limit as nat)
        + " handed-off bash commands may run"@
}

/// Reserve a supervisor slot for a hand-off writing to `output_path`:
/// `Ok(id)` while fewer than `active_limit` supervisors are active, else
/// the limit error.
pub fn reserve_supervisor(state: &mut BgLifecycle, output_path: String, active_limit: usize) -> (r:
    Result<u64, String>)
    requires
        old(state).wf(),
        old(state).next_id() < u64::MAX,
    ensures
        final(state).wf(),
        final(state).next_id() == old(state).next_id() + 1,
        final(state).live_items() == old(state).live_items(),
        final(state).retained() == old(state).retained(),
        final(state).is_cleaning() == old(state).is_cleaning(),
        old(state).supervisor_items().len() >= active_limit ==> (r matches Err(m) && m@
            == limit_exceeded_message(active_limit)) && final(state).supervisor_map() == old(
            state,
        ).supervisor_map(),
        old(state).supervisor_items().len() < active_limit ==> r == Ok::<u64, String>(
            old(state).next_id(),
        ) && final(state).supervisor_map() == old(state).supervisor_map().insert(
            old(state).next_id(),
            output_path,
        ),
{
    let id = next_supervisor_id(state);
    if state.supervisors.len() >= active_limit {
        let mut m = String::new();
        push_str(&mut m, "background_process_limit_exceeded: at most ");
        push_decimal(&mut m, active_limit as u64);
        push_str(&mut m, " handed-off bash commands may run");
        return Err(m);
    }
    state.supervisors.insert(id, output_path);
    Ok(id)
}

/// Release the slot of a finished (or rejected) supervisor.
pub fn release_supervisor(state: &mut BgLifecycle, id: u64)
    requires
        old(state).wf(),
    ensures
        final(state).wf(),
        final(state).supervisor_map() == old(state).supervisor_map().remove(id),
        final(state).live_items() == old(state).live_items(),
        final(state).retained() == old(state).retained(),
        final(state).is_cleaning() == old(state).is_cleaning(),
        final(state).next_id() == old(state).next_id(),
{
    let _ = state.supervisors.remove(id);
}

/// A new accepted hand-off starts a fresh lifecycle after a shutdown.
pub fn begin_background_lifecycle(state: &mut BgLifecycle)
    ensures
        !final(state).is_cleaning(),
        final(state).wf() == old(state).wf(),
        final(state).live_items() == old(state).live_items(),
        final(state).live() == old(state).live(),
        final(state).supervisor_items() == old(state).supervisor_items(),
        final(state).retained() == old(state).retained(),
        final(state).next_id() == old(state).next_id(),
{
    state.cleaning = false;
}

/// The entry completed at `at` has been retained for the whole TTL by `now`.
pub open spec fn expired(at: u64, now: u64) -> bool {
    now >= at && now - at >= COMPLETED_OUTPUT_TTL_MS
}

/// Number of leading expired entries.
pub open spec fn expired_prefix(es: Seq<(Seq<char>, u64)>, now: u64) -> int
    decreases es.len(),
{
    if es.len() > 0 && expired(es[0].1, now) {
        1 + expired_prefix(es.drop_first(), now)
    } else {
        0
    }
}

/// How many entries pruning removes from the front: the expired prefix,
/// then the oldest beyond the retention count.
pub open spec fn prune_count(es: Seq<(Seq<char>, u64)>, now: u64) -> int {
    let k = expired_prefix(es, now);
    if es.len() - k > MAX_RETAINED_OUTPUTS {
        es.len() - MAX_RETAINED_OUTPUTS
    } else {
        k
    }
}

proof fn lemma_expired_prefix(es: Seq<(Seq<char>, u64)>, now: u64)
    ensures
        0 <= expired_prefix(es, now) <= es.len(),
        forall|i: int| 0 <= i < expired_prefix(es, now) ==> expired(#[trigger] es[i].1, now),
        expired_prefix(es, now) < es.len() ==> !expired(es[expired_prefix(es, now)].1, now),
    decreases es.len(),
{
    if es.len() > 0 && expired(es[0].1, now) {
        lemma_expired_prefix(es.drop_first(), now);
        assert forall|i: int| 0 <= i < expired_prefix(es, now) implies expired(#[trigger] es[i].1, now) by {
            if i > 0 {
                assert(es[i] == es.drop_first()[i - 1]);
            }
        }
    }
}

/// Select expired and over-capacity entries, oldest first, removing them
/// from `entries`; their paths are returned for deletion.
pub fn prunable_completed_outputs(entries: &mut Vec<CompletedOutput>, now_ms: u64) -> (r: Vec<
    String,
>)
    ensures
        ({
            let es = completed_view(old(entries)@);
            let k = prune_count(es, now_ms);
            &&& 0 <= k <= es.len()
            &&& completed_view(final(entries)@) == es.subrange(k, es.len() as int)
            &&& r@.map_values(|p: String| p@) == es.subrange(0, k).map_values(
                |e: (Seq<char>, u64)| e.0,
            )
        }),
{
    let ghost es = completed_view(entries@);
    proof {
        lemma_expired_prefix(es, now_ms);
    }
    let mut k: usize = 0;
    assert(es.subrange(0, es.len() as int) =~= es);
    while k < entries.len() && now_ms >= entries[k].completed_at_ms && now_ms
        - entries[k].completed_at_ms >= COMPLETED_OUTPUT_TTL_MS
        invariant
            k <= entries@.len(),
            entries@ == old(entries)@,
            es == completed_view(entries@),
            expired_prefix(es, now_ms) == k + expired_prefix(es.subrange(k as int, es.len() as int), now_ms),
        decreases entries.len() - k,
    {
        assert(es.subrange(k as int, es.len() as int).drop_first() =~= es.subrange(k + 1, es.len() as int));
        k += 1;
    }
    proof {
        if k < es.len() {
            assert(es.subrange(k as int, es.len() as int)[0] == es[k as int]);
        }
        assert(expired_prefix(es.subrange(k as int, es.len() as int), now_ms) == 0);
    }
    let n = entries.len();
    let total = if n - k > MAX_RETAINED_OUTPUTS { n - MAX_RETAINED_OUTPUTS } else { k };
    let mut removed: Vec<String> = Vec::new();
    let mut rest: Vec<CompletedOutput> = Vec::new();
    let mut old_entries: Vec<CompletedOutput> = Vec::new();
    std::mem::swap(&mut old_entries, entries);
    let mut i: usize = 0;
    for e in it: old_entries
        invariant
            n == es.len(),
            total <= n,
            it.seq().len() == n,
            i == it.index(),
            completed_view(it.seq()) == es,
            it.index() <= total ==> removed@.map_values(|p: String| p@) == es.subrange(
                0,
                it.index() as int,
            ).map_values(|e: (Seq<char>, u64)| e.0) && rest@.len() == 0,
            it.index() > total ==> removed@.map_values(|p: String| p@) == es.subrange(
                0,
                total as int,
            ).map_values(|e: (Seq<char>, u64)| e.0) && completed_view(rest@) == es.subrange(
                total as int,
                it.index() as int,
            ),
    {
        let ghost idx = it.index();
        assert(completed_view(it.seq())[idx as int] == (e.path@, e.completed_at_ms));
        if i < total {
            let ghost before = removed@;
            removed.push(e.path);
            assert(es.subrange(0, idx + 1).map_values(|e: (Seq<char>, u64)| e.0) =~= es.subrange(
                0,
                idx as int,
            ).map_values(|e: (Seq<char>, u64)| e.0).push(es[idx as int].0));
            assert(removed@.map_values(|p: String| p@) =~= before.map_values(|p: String| p@).push(
                es[idx as int].0,
            ));
        } else {
            let ghost before = rest@;
            rest.push(e);
            assert(completed_view(rest@) =~= completed_view(before).push(es[idx as int]));
            assert(es.subrange(total as int, idx + 1) =~= es.subrange(total as int, idx as int).push(
                es[idx as int],
            ));
            proof {
                if idx == total as int {
                    assert(es.subrange(total as int, idx as int) =~= Seq::<(Seq<char>, u64)>::empty());
                    assert(completed_view(before) =~= Seq::<(Seq<char>, u64)>::empty());
                }
            }
        }
        i += 1;
    }
    *entries = rest;
    proof {
        if total == n {
            assert(completed_view(entries@) =~= es.subrange(n as int, n as int));
        }
    }
    removed
}

/// Prune the retained outputs at `now_ms`; the returned paths are to be
/// deleted.
pub fn prune_completed_outputs(state: &mut BgLifecycle, now_ms: u64) -> (r: Vec<String>)
    requires
        old(state).wf(),
    ensures
        final(state).wf(),
        ({
            let es = old(state).retained();
            let k = prune_count(es, now_ms);
            &&& final(state).retained() == es.subrange(k, es.len() as int)
            &&& r@.map_values(|p: String| p@) == es.subrange(0, k).map_values(
                |e: (Seq<char>, u64)| e.0,
            )
        }),
        final(state).live_items() == old(state).live_items(),
        final(state).live() == old(state).live(),
        final(state).supervisor_items() == old(state).supervisor_items(),
        final(state).is_cleaning() == old(state).is_cleaning(),
        final(state).next_id() == old(state).next_id(),
{
    prunable_completed_outputs(&mut state.completed, now_ms)
}

/// The retained outputs without any entry for `path`.
pub open spec fn without_path(es: Seq<(Seq<char>, u64)>, path: Seq<char>) -> Seq<(Seq<char>, u64)> {
    es.filter(|e: (Seq<char>, u64)| e.0 != path)
}

/// Retain the output of a command completed at `now_ms` (replacing an older
/// entry for the same path), then prune. During shutdown the path is
/// deleted at once instead. The returned paths are to be deleted.
pub fn retain_completed_output(state: &mut BgLifecycle, path: String, now_ms: u64) -> (r: Vec<
    String,
>)
    requires
        old(state).wf(),
    ensures
        final(state).wf(),
        old(state).is_cleaning() ==> r@.len() == 1 && r@[0]@ == path@ && final(state).retained()
            == old(state).retained(),
        !old(state).is_cleaning() ==> {
            let es = without_path(old(state).retained(), path@).push((path@, now_ms));
            let k = prune_count(es, now_ms);
            &&& final(state).retained() == es.subrange(k, es.len() as int)
            &&& r@.map_values(|p: String| p@) == es.subrange(0, k).map_values(
                |e: (Seq<char>, u64)| e.0,
            )
        },
        final(state).live_items() == old(state).live_items(),
        final(state).live() == old(state).live(),
        final(state).supervisor_items() == old(state).supervisor_items(),
        final(state).is_cleaning() == old(state).is_cleaning(),
        final(state).next_id() == old(state).next_id(),
{
    if state.cleaning {
        let mut r: Vec<String> = Vec::new();
        r.push(path);
        return r;
    }
    let ghost es0 = completed_view(state.completed@);
    let mut kept: Vec<CompletedOutput> = Vec::new();
    let mut old_entries: Vec<CompletedOutput> = Vec::new();
    std::mem::swap(&mut old_entries, &mut state.completed);
    let ghost pred = |e: (Seq<char>, u64)| e.0 != path@;
    for e in it: old_entries
        invariant
            completed_view(it.seq()) == es0,
            completed_view(kept@) == es0.subrange(0, it.index() as int).filter(pred),
            pred == (|e: (Seq<char>, u64)| e.0 != path@),
    {
        let ghost idx = it.index();
        assert(completed_view(it.seq())[idx as int] == (e.path@, e.completed_at_ms));
        assert(es0.subrange(0, idx + 1).drop_last() =~= es0.subrange(0, idx as int));
        let ghost before = kept@;
        if !str_eq(e.path.as_str(), path.as_str()) {
            kept.push(e);
            assert(completed_view(kept@) =~= completed_view(before).push(es0[idx as int]));
        }
        proof {
            reveal(Seq::filter);
        }
    }
    assert(es0.subrange(0, es0.len() as int) =~= es0);
    let ghost base = completed_view(kept@);
    kept.push(CompletedOutput { path, completed_at_ms: now_ms });
    assert(completed_view(kept@) =~= base.push((path@, now_ms)));
    state.completed = kept;
    prunable_completed_outputs(&mut state.completed, now_ms)
}

/// What shutdown must do: signal these entries, abort these supervisors,
/// and delete these paths (each once).
#[derive(Debug)]
pub struct CleanupPlan {
    pub terminate: Vec<(u64, BgEntry)>,
    pub abort: Vec<u64>,
    pub remove: Vec<String>,
}

/// Distinct elements, first occurrence first.
pub open spec fn distinct_paths(ps: Seq<Seq<char>>) -> Seq<Seq<char>>
    decreases ps.len(),
{
    if ps.len() == 0 {
        Seq::empty()
    } else {
        let d = distinct_paths(ps.drop_last());
        if d.contains(ps.last()) {
            d
        } else {
            d.push(ps.last())
        }
    }
}

fn push_distinct(out: &mut Vec<String>, p: String)
    ensures
        final(out)@.map_values(|s: String| s@) == if old(out)@.map_values(|s: String| s@).contains(p@) {
            old(out)@.map_values(|s: String| s@)
        } else {
            old(out)@.map_values(|s: String| s@).push(p@)
        },
{
    let ghost ps = out@.map_values(|s: String| s@);
    let mut i: usize = 0;
    while i < out.len()
        invariant
            i <= out@.len(),
            ps == out@.map_values(|s: String| s@),
            out@ == old(out)@,
            forall|k: int| 0 <= k < i ==> ps[k] != p@,
        decreases out.len() - i,
    {
        if str_eq(out[i].as_str(), p.as_str()) {
            assert(ps[i as int] == p@);
            return;
        }
        i += 1;
    }
    let ghost before = out@;
    out.push(p);
    assert(out@.map_values(|s: String| s@) =~= before.map_values(|s: String| s@).push(p@));
}

/// Kill tracked process groups, abort supervisors, and delete only the
/// temporary output paths this process created and tracks. Afterwards newly
/// completed outputs are deleted at once.
pub fn cleanup_all(state: &mut BgLifecycle) -> (plan: CleanupPlan)
    requires
        old(state).wf(),
    ensures
        final(state).wf(),
        final(state).live() == Map::<u64, BgEntry>::empty(),
        final(state).live_items().len() == 0,
        final(state).supervisor_items().len() == 0,
        final(state).retained().len() == 0,
        final(state).is_cleaning(),
        plan.terminate@ == old(state).live_items(),
        plan.abort@ == old(state).supervisor_items().map_values(|t: (u64, String)| t.0),
        plan.remove@.map_values(|s: String| s@) == distinct_paths(
            old(state).supervisor_items().map_values(|t: (u64, String)| t.1@) + old(
                state,
            ).retained().map_values(|e: (Seq<char>, u64)| e.0),
        ),
{
    let terminate = state.registry.drain();
    let tasks = state.supervisors.drain();
    state.cleaning = true;
    let mut completed: Vec<CompletedOutput> = Vec::new();
    std::mem::swap(&mut completed, &mut state.completed);
    let ghost all = tasks@.map_values(|t: (u64, String)| t.1@) + completed_view(completed@).map_values(
        |e: (Seq<char>, u64)| e.0,
    );
    let mut abort: Vec<u64> = Vec::new();
    let mut remove: Vec<String> = Vec::new();
    let ghost nt = tasks@.len();
    for t in it: tasks
        invariant
            it.seq() == old(state).supervisor_items(),
            nt == it.seq().len(),
            all == it.seq().map_values(|t: (u64, String)| t.1@) + completed_view(completed@).map_values(
                |e: (Seq<char>, u64)| e.0,
            ),
            abort@ == it.seq().subrange(0, it.index() as int).map_values(|t: (u64, String)| t.0),
            remove@.map_values(|s: String| s@) == distinct_paths(all.subrange(0, it.index() as int)),
    {
        let ghost idx = it.index();
        let ghost before = abort@;
        abort.push(t.0);
        assert(it.seq().subrange(0, idx + 1).map_values(|t: (u64, String)| t.0) =~= before.push(t.0));
        assert(all[idx as int] == t.1@);
        assert(all.subrange(0, idx + 1).drop_last() =~= all.subrange(0, idx as int));
        push_distinct(&mut remove, t.1);
    }
    assert(abort@ =~= old(state).supervisor_items().map_values(|t: (u64, String)| t.0)) by {
        assert(old(state).supervisor_items().subrange(0, nt as int) =~= old(state).supervisor_items());
    }
    for c in it2: completed
        invariant
            completed_view(it2.seq()) == old(state).retained(),
            all == old(state).supervisor_items().map_values(|t: (u64, String)| t.1@) + completed_view(
                it2.seq(),
            ).map_values(|e: (Seq<char>, u64)| e.0),
            nt == old(state).supervisor_items().len(),
            remove@.map_values(|s: String| s@) == distinct_paths(all.subrange(0, nt + it2.index())),
    {
        let ghost idx = it2.index();
        assert(completed_view(it2.seq())[idx as int] == (c.path@, c.completed_at_ms));
        assert(all[nt + idx] == c.path@);
        assert(all.subrange(0, nt + idx + 1).drop_last() =~= all.subrange(0, nt + idx));
        push_distinct(&mut remove, c.path);
    }
    assert(all.subrange(0, all.len() as int) =~= all);
    assert(completed_view(state.completed@) =~= Seq::<(Seq<char>, u64)>::empty());
    CleanupPlan { terminate, abort, remove }
}

/// Law: after pruning, at most the retention count of entries remain, and
/// none is older than the TTL when the entries were recorded in completion
/// order (the oldest remaining one is not expired).
pub proof fn pruning_bounds_the_retained_outputs(es: Seq<(Seq<char>, u64)>, now: u64)
    ensures
        0 <= prune_count(es, now) <= es.len(),
        es.len() - prune_count(es, now) <= MAX_RETAINED_OUTPUTS,
        prune_count(es, now) < es.len() ==> !expired(es[prune_count(es, now)].1, now) || es.len()
            - expired_prefix(es, now) > MAX_RETAINED_OUTPUTS,
        forall|i: int|
            0 <= i < prune_count(es, now) ==> expired(#[trigger] es[i].1, now) || es.len()
                - expired_prefix(es, now) > MAX_RETAINED_OUTPUTS,
{
    lemma_expired_prefix(es, now);
}

/// Law: entries recorded in completion order (non-decreasing times) keep no
/// expired entry after pruning.
pub proof fn pruning_drops_every_expired_entry(es: Seq<(Seq<char>, u64)>, now: u64)
    requires
        forall|i: int, j: int| 0 <= i < j < es.len() ==> es[i].1 <= es[j].1,
    ensures
        forall|i: int| prune_count(es, now) <= i < es.len() ==> !expired(#[trigger] es[i].1, now),
{
    lemma_expired_prefix(es, now);
    let k = expired_prefix(es, now);
    assert forall|i: int| prune_count(es, now) <= i < es.len() implies !expired(#[trigger] es[i].1, now) by {
        assert(k <= prune_count(es, now));
        assert(!expired(es[k].1, now));
        assert(es[k].1 <= es[i].1);
    }
}

} // verus!
