//! The `bash` tool's text decisions: the script actually run, how captured
//! output is framed, and the answers for a completed or backgrounded
//! command. Spawning, waiting and the process group stay with the caller.

use vstd::prelude::*;
use crate::bg::{output_path, output_path_spec};
use crate::text::{chars_of, contains_seq, decimal, push_char, push_str, trim};

verus! {

/// Default enforced foreground deadline of a command, in seconds.
pub const BASH_TIMEOUT_SECS: u64 = 130;

/// Default deadline shown to the model, in seconds: deliberately below the
/// enforced one, so the model treats a command as backgrounded a little
/// before the cutoff fires.
pub const BASH_TIMEOUT_DISPLAY_SECS: u64 = 120;

/// Marker that opens the answer for a command moved to the background.
pub const BASH_TIMEOUT_MARKER: &'static str = "[bash-timeout:";

/// The deadline shown to the model stays strictly below the enforced one.
pub proof fn display_deadline_is_below_real_deadline()
    ensures
        BASH_TIMEOUT_DISPLAY_SECS < BASH_TIMEOUT_SECS,
{
}

/// The script bash runs: the agent tools' directories exported on `PATH`
/// first, unless the joined directories are empty or hold `"` or `$`
/// (which would break out of the quoted assignment); then the command.
pub open spec fn script_text(command: Seq<char>, tools_path: Option<Seq<char>>) -> Seq<char> {
    match tools_path {
        Some(j) => if j.len() > 0 && !j.contains('"') && !j.contains('$') {
            "export PATH=\""@ + j + "\":$PATH\n"@ + command
        } else {
            command
        },
        None => command,
    }
}

fn has_char(v: &Vec<char>, c: char) -> (b: bool)
    ensures
        b == v@.contains(c),
{
    let mut i: usize = 0;
    while i < v.len()
        invariant
            i <= v@.len(),
            forall|k: int| 0 <= k < i ==> v@[k] != c,
        decreases v.len() - i,
    {
        if v[i] == c {
            return true;
        }
        i += 1;
    }
    false
}

/// Prepend the agent-tools `PATH` export to the command.
pub fn script_with_tools_path(command: &str, tools_path: Option<&str>) -> (r: String)
    ensures
        r@ == script_text(command@, match tools_path {
            Some(j) => Some(j@),
            None => None,
        }),
{
    match tools_path {
        Some(joined) => {
            let v = chars_of(joined);
            if !joined.is_empty() && !has_char(&v, '"') && !has_char(&v, '$') {
                let mut out = String::new();
                push_str(&mut out, "export PATH=\"");
                push_str(&mut out, joined);
                push_str(&mut out, "\":$PATH\n");
                push_str(&mut out, command);
                out
            } else {
                command.to_string()
            }
        },
        None => command.to_string(),
    }
}

/// Stdout, then stderr behind a `[stderr]` line (separated by a newline
/// when both are present); empty streams add nothing.
pub open spec fn merged_streams(stdout: Seq<char>, stderr: Seq<char>) -> Seq<char> {
    if stderr.len() == 0 {
        stdout
    } else if stdout.len() == 0 {
        "[stderr]\n"@ + stderr
    } else {
        stdout + "\n"@ + "[stderr]\n"@ + stderr
    }
}

/// Merge captured stdout and stderr into one text.
pub fn merge_streams(stdout: &str, stderr: &str) -> (r: String)
    ensures
        r@ == merged_streams(stdout@, stderr@),
{
    let mut combined = String::new();
    proof {
        reveal_strlit("\n");
    }
    if !stdout.is_empty() {
        push_str(&mut combined, stdout);
    }
    if !stderr.is_empty() {
        if !stdout.is_empty() {
            push_char(&mut combined, '\n');
        }
        push_str(&mut combined, "[stderr]\n");
        push_str(&mut combined, stderr);
    }
    assert(combined@ =~= merged_streams(stdout@, stderr@));
    combined
}

/// The text of a byte buffer, invalid UTF-8 replaced by U+FFFD.
pub uninterp spec fn utf8_lossy(bytes: Seq<u8>) -> Seq<char>;

/// Calls `String::from_utf8_lossy`; claims only that the text is a
/// function of the bytes (named `utf8_lossy`).
#[verifier::external_body]
pub(crate) fn lossy_text(bytes: &[u8]) -> (s: String)
    ensures
        s@ == utf8_lossy(bytes@),
{
    String::from_utf8_lossy(bytes).to_string()
}

/// The captured output of both pipes as text.
pub fn captured_output(stdout_buf: &[u8], stderr_buf: &[u8]) -> (r: String)
    ensures
        r@ == merged_streams(utf8_lossy(stdout_buf@), utf8_lossy(stderr_buf@)),
{
    let out = lossy_text(stdout_buf);
    let err = lossy_text(stderr_buf);
    merge_streams(out.as_str(), err.as_str())
}

/// The decimal text of a signed integer.
pub open spec fn signed_decimal(n: int) -> Seq<char> {
    if n < 0 {
        seq!['-'] + decimal((-n) as nat)
    } else {
        decimal(n as nat)
    }
}

fn push_i32(out: &mut String, n: i32)
    ensures
        final(out)@ == old(out)@ + signed_decimal(n as int),
{
    if n < 0 {
        push_char(out, '-');
        let m: u64 = (0i64 - (n as i64)) as u64;
        crate::text::push_decimal(out, m);
    } else {
        crate::text::push_decimal(out, n as u64);
    }
}

/// The answer of a command that exited with `code` (`-1` when killed by a
/// signal): its output, `(no output)` when there is none, and
/// `[exit code: N]` after it on failure. The flag marks failure.
pub open spec fn completion_text(code: int, streams: Seq<char>) -> (Seq<char>, bool) {
    let body = if streams.len() == 0 { "(no output)"@ } else { streams };
    if code == 0 {
        (body, false)
    } else {
        (body + "\n[exit code: "@ + signed_decimal(code) + "]"@, true)
    }
}

pub fn completion(code: i32, streams: String) -> (r: (String, bool))
    ensures
        (r.0@, r.1) == completion_text(code as int, streams@),
{
    let mut body = if streams.as_str().is_empty() {
        "(no output)".to_string()
    } else {
        streams
    };
    if code == 0 {
        (body, false)
    } else {
        push_str(&mut body, "\n[exit code: ");
        push_i32(&mut body, code);
        push_str(&mut body, "]");
        (body, true)
    }
}

/// The answer for a command moved to the background after `display_secs`:
/// the marker, its pid and output file, then what it printed so far.
pub open spec fn backgrounded_text(display_secs: u64, pid: u32, captured: Seq<char>) -> Seq<char> {
    "[bash-timeout:"@ + " command timed out after "@ + decimal(display_secs as nat)
        + "s \u{2014} moved to background]\npid: "@ + decimal(pid as nat) + "\noutput: "@
        + output_path_spec(pid) + "\n\n"@ + captured
}

pub fn backgrounded_message(display_secs: u64, pid: u32, captured: &str) -> (r: String)
    ensures
        r@ == backgrounded_text(display_secs, pid, captured@),
{
    let mut out = String::new();
    push_str(&mut out, BASH_TIMEOUT_MARKER);
    proof {
        reveal_strlit("[bash-timeout:");
    }
    push_str(&mut out, " command timed out after ");
    crate::text::push_decimal(&mut out, display_secs);
    push_str(&mut out, "s \u{2014} moved to background]\npid: ");
    crate::text::push_decimal(&mut out, pid as u64);
    push_str(&mut out, "\noutput: ");
    let p = output_path(pid);
    push_str(&mut out, p.as_str());
    push_str(&mut out, "\n\n");
    push_str(&mut out, captured);
    out
}

/// The `bash` tool's identity.
pub struct BashTool {}

impl BashTool {
    pub fn name(&self) -> (r: &'static str)
        ensures
            r@ == "bash"@,
    {
        "bash"
    }

    pub fn description(&self) -> (r: &'static str)
        ensures
            r@ == "Executes a bash command in the session working directory and returns stdout+stderr. Use for git, builds, tests, running scripts. Commands run non-interactively."@,
    {
        "Executes a bash command in the session working directory and returns stdout+stderr. Use for git, builds, tests, running scripts. Commands run non-interactively."
    }

    /// A command that is empty after trimming is refused.
    pub fn is_blank(command: &str) -> (b: bool)
        ensures
            b == (trim(command@).len() == 0),
    {
        let v = chars_of(command);
        assert(v@.subrange(0, v@.len() as int) =~= v@);
        let (a, b) = crate::text::trim_range(&v, 0, v.len());
        a == b
    }
}


/// Law: merging keeps both streams whole: the output starts with stdout,
/// ends with stderr, and puts a `[stderr]` line right before stderr
/// whenever there is any; with no stderr it is stdout alone.
pub proof fn merging_keeps_both_streams(out: Seq<char>, err: Seq<char>)
    ensures
        merged_streams(out, err).len() >= out.len() + err.len(),
        merged_streams(out, err).subrange(0, out.len() as int) == out,
        merged_streams(out, err).subrange(merged_streams(out, err).len() - err.len(), merged_streams(out, err).len() as int)
            == err,
        err.len() == 0 ==> merged_streams(out, err) == out,
        err.len() > 0 ==> merged_streams(out, err).subrange(
            merged_streams(out, err).len() - err.len() - 9,
            merged_streams(out, err).len() - err.len(),
        ) == "[stderr]\n"@,
{
    reveal_strlit("[stderr]\n");
    reveal_strlit("\n");
    let m = merged_streams(out, err);
    if err.len() == 0 {
        assert(m.subrange(0, out.len() as int) =~= out);
        assert(m.subrange(m.len() - err.len(), m.len() as int) =~= err);
    } else if out.len() == 0 {
        assert(m.subrange(0, 0) =~= out);
        assert(m.subrange(m.len() - err.len(), m.len() as int) =~= err);
        assert(m.subrange(m.len() - err.len() - 9, m.len() - err.len()) =~= "[stderr]\n"@);
    } else {
        assert(m.subrange(0, out.len() as int) =~= out);
        assert(m.subrange(m.len() - err.len(), m.len() as int) =~= err);
        assert(m.subrange(m.len() - err.len() - 9, m.len() - err.len()) =~= "[stderr]\n"@);
    }
}

} // verus!
