//! Tool-failure threshold guard with exponential backoff.
//!
//! Tracks consecutive failures per tool name across turns within one run.
//! When a tool name reaches the configured threshold the turn is aborted;
//! between failures an exponential backoff delay applies.

use vstd::prelude::*;
use crate::strmap::StrMap;

verus! {

/// Guard settings: threshold (0 disables the guard) and backoff bounds.
#[derive(Clone, Copy, Debug, PartialEq, Eq)]
pub struct ToolGuardConfig {
    pub max_consecutive_failures: u32,
    pub backoff_base_ms: u64,
    pub backoff_max_ms: u64,
}

/// Consecutive failure count per tool name.
pub type FailureMap = StrMap<u32>;

/// `2^e`.
pub open spec fn pow2(e: nat) -> nat
    decreases e,
{
    if e == 0 {
        1
    } else {
        2 * pow2((e - 1) as nat)
    }
}

/// Backoff for failure number `count` (1-based): `base * 2^(count-1)`
/// (exponent capped at 20), saturating, then capped at `max`; zero for a
/// zero count.
pub open spec fn backoff_spec(count: u32, cfg: ToolGuardConfig) -> u64 {
    if count == 0 {
        0
    } else {
        let e = if count - 1 < 20 {
            (count - 1) as nat
        } else {
            20nat
        };
        let raw = cfg.backoff_base_ms * pow2(e);
        let sat = if raw > u64::MAX {
            u64::MAX as int
        } else {
            raw
        };
        if sat < cfg.backoff_max_ms {
            sat as u64
        } else {
            cfg.backoff_max_ms
        }
    }
}

fn shift_pow(e: u32) -> (p: u64)
    requires
        e <= 20,
    ensures
        p == pow2(e as nat),
{
    let mut p: u64 = 1;
    let mut i: u32 = 0;
    while i < e
        invariant
            i <= e <= 20,
            p == pow2(i as nat),
            p <= 1048576,
        decreases e - i,
    {
        assert(pow2((i + 1) as nat) == 2 * pow2(i as nat));
        proof {
            lemma_pow2_bound((i + 1) as nat);
        }
        p = p * 2;
        i += 1;
    }
    p
}

proof fn lemma_pow2_bound(e: nat)
    requires
        e <= 20,
    ensures
        pow2(e) <= pow2(20),
        pow2(20) == 1048576,
{
    reveal_with_fuel(pow2, 21);
    assert(pow2(20) == 1048576);
    lemma_pow2_mono(e, 20);
}

proof fn lemma_pow2_mono(a: nat, b: nat)
    requires
        a <= b,
    ensures
        pow2(a) <= pow2(b),
    decreases b,
{
    if a < b {
        lemma_pow2_mono(a, (b - 1) as nat);
        assert(pow2(b) == 2 * pow2((b - 1) as nat));
    }
}

/// Exponential backoff in milliseconds for failure number `count`.
pub fn backoff(count: u32, cfg: &ToolGuardConfig) -> (ms: u64)
    ensures
        ms == backoff_spec(count, *cfg),
{
    if count == 0 {
        return 0;
    }
    let exp: u32 = if count - 1 < 20 { count - 1 } else { 20 };
    let factor = shift_pow(exp);
    proof {
        let b = cfg.backoff_base_ms as int;
        let f = factor as int;
        let m = u64::MAX as int;
        assert(f >= 1) by {
            lemma_pow2_pos(exp as nat);
        }
        assert(b > m / f <==> b * f > m) by (nonlinear_arith)
            requires
                f >= 1,
                b >= 0,
                m >= 0,
        ;
    }
    let raw: u64 = if cfg.backoff_base_ms > u64::MAX / factor {
        u64::MAX
    } else {
        cfg.backoff_base_ms * factor
    };
    if raw < cfg.backoff_max_ms {
        raw
    } else {
        cfg.backoff_max_ms
    }
}

proof fn lemma_pow2_pos(e: nat)
    ensures
        pow2(e) >= 1,
    decreases e,
{
    if e > 0 {
        lemma_pow2_pos((e - 1) as nat);
    }
}

/// Record one tool result. A success forgets `name`; a failure increments
/// its count. Returns whether the threshold was reached and the backoff in
/// milliseconds to apply. A zero threshold disables the guard.
pub fn record(map: &mut FailureMap, name: &str, is_error: bool, cfg: &ToolGuardConfig) -> (r: (
    bool,
    u64,
))
    requires
        old(map).wf(),
        old(map).map().contains_key(name@) ==> old(map).map()[name@] < u32::MAX,
    ensures
        final(map).wf(),
        cfg.max_consecutive_failures == 0 ==> *final(map) == *old(map) && r == (false, 0u64),
        cfg.max_consecutive_failures != 0 && !is_error ==> final(map).map() == old(map).map().remove(name@)
            && r == (false, 0u64),
        cfg.max_consecutive_failures != 0 && is_error ==> {
            let count = if old(map).map().contains_key(name@) {
                (old(map).map()[name@] + 1) as u32
            } else {
                1u32
            };
            &&& final(map).map() == old(map).map().insert(name@, count)
            &&& r == (count >= cfg.max_consecutive_failures, backoff_spec(count, *cfg))
        },
{
    if cfg.max_consecutive_failures == 0 {
        return (false, 0);
    }
    if !is_error {
        let _ = map.remove(name);
        return (false, 0);
    }
    let count: u32 = match map.get(name) {
        Some(c) => *c + 1,
        None => 1,
    };
    map.insert(name.to_string(), count);
    let tripped = count >= cfg.max_consecutive_failures;
    (tripped, backoff(count, cfg))
}

/// A (name, count) pair with the highest count, for diagnostic messages;
/// `None` for an empty map.
pub fn worst(map: &FailureMap) -> (r: Option<(&str, u32)>)
    requires
        map.wf(),
    ensures
        r is None <==> map.map().len() == 0,
        r matches Some((n, c)) ==> map.map().contains_key(n@) && map.map()[n@] == c && forall|k: Seq<char>|
            #[trigger] map.map().contains_key(k) ==> map.map()[k] <= c,
{
    proof {
        map.lemma_len();
        map.lemma_items_map();
    }
    let n = map.len();
    if n == 0 {
        return None;
    }
    let mut best: usize = 0;
    let mut i: usize = 1;
    while i < n
        invariant
            n == map.items().len(),
            1 <= i <= n,
            best < i,
            forall|k: int| 0 <= k < i ==> map.items()[k].1 <= map.items()[best as int].1,
        decreases n - i,
    {
        let (_, c) = map.entry(i);
        let (_, cb) = map.entry(best);
        if *c >= *cb {
            best = i;
        }
        i += 1;
    }
    let (name, c) = map.entry(best);
    proof {
        assert(map.map().contains_key(map.items()[best as int].0@));
        assert forall|k: Seq<char>| #[trigger] map.map().contains_key(k) implies map.map()[k] <= *c by {
            let j = choose|j: int| 0 <= j < map.items().len() && map.items()[j].0@ == k;
            assert(map.map()[map.items()[j].0@] == map.items()[j].1);
        }
    }
    Some((name, *c))
}

/// Law: the backoff never exceeds the configured maximum and never
/// decreases as failures accumulate.
pub proof fn backoff_is_capped_and_monotone(a: u32, b: u32, cfg: ToolGuardConfig)
    requires
        a <= b,
    ensures
        backoff_spec(b, cfg) <= cfg.backoff_max_ms,
        backoff_spec(a, cfg) <= backoff_spec(b, cfg),
{
    if a > 0 {
        let ea: nat = if a - 1 < 20 { (a - 1) as nat } else { 20nat };
        let eb: nat = if b - 1 < 20 { (b - 1) as nat } else { 20nat };
        lemma_pow2_mono(ea, eb);
        let base = cfg.backoff_base_ms as int;
        assert(base * pow2(ea) <= base * pow2(eb)) by (nonlinear_arith)
            requires
                pow2(ea) <= pow2(eb),
                base >= 0,
        ;
    }
}

} // verus!
