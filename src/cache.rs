//! Points in time, the freshness window, and the record that the guard keeps
//! of its last successful run.
use vstd::prelude::*;
use vstd::arithmetic::div_mod::lemma_fundamental_div_mod_converse;
use crate::config::opt_view;

verus! {

/// Nanoseconds in a second.
pub const NANOS_PER_SEC: u32 = 1_000_000_000;

/// How long after a successful run later runs may skip all work: 12 hours.
pub const DEFAULT_WINDOW_SECS: u64 = 12 * 3600;

/// A point in time: whole seconds since the Unix epoch and the nanoseconds
/// past that second.
#[derive(Clone, Copy, Debug, PartialEq, Eq, Structural)]
pub struct Timestamp {
    pub secs: u64,
    pub nanos: u32,
}

impl Timestamp {
    /// The nanosecond part is below one second.
    pub open spec fn wf(&self) -> bool {
        self.nanos < NANOS_PER_SEC
    }

    /// Nanoseconds since the epoch.
    pub open spec fn total_nanos(&self) -> int {
        self.secs * NANOS_PER_SEC + self.nanos
    }
}

/// Whole seconds from `since` to `now`; zero when `now` comes first.
pub open spec fn elapsed_secs(since: Timestamp, now: Timestamp) -> int {
    if now.total_nanos() >= since.total_nanos() {
        (now.total_nanos() - since.total_nanos()) / (NANOS_PER_SEC as int)
    } else {
        0
    }
}

/// Whether a last success is recorded and lies less than `window_secs` whole
/// seconds before `now`.
pub open spec fn is_recent(last_ok: Option<Timestamp>, now: Timestamp, window_secs: u64) -> bool {
    match last_ok {
        Some(t) => elapsed_secs(t, now) < window_secs,
        None => false,
    }
}

/// Whole seconds from `since` to `now`, zero when `now` comes first.
pub fn elapsed_whole_secs(since: Timestamp, now: Timestamp) -> (r: u64)
    requires
        since.wf(),
        now.wf(),
    ensures
        r == elapsed_secs(since, now),
{
    let later = now.secs > since.secs || (now.secs == since.secs && now.nanos >= since.nanos);
    if !later {
        assert(now.total_nanos() < since.total_nanos()) by (nonlinear_arith)
            requires
                !(now.secs > since.secs || (now.secs == since.secs && now.nanos
                    >= since.nanos)),
                since.nanos < NANOS_PER_SEC,
                now.nanos < NANOS_PER_SEC,
        ;
        return 0;
    }
    let ghost n = NANOS_PER_SEC as int;
    let ghost x = now.total_nanos() - since.total_nanos();
    if now.nanos >= since.nanos {
        let r = now.secs - since.secs;
        proof {
            assert(x == (r as int) * n + (now.nanos - since.nanos)) by (nonlinear_arith)
                requires
                    x == now.total_nanos() - since.total_nanos(),
                    r == now.secs - since.secs,
                    n == NANOS_PER_SEC,
            ;
            lemma_fundamental_div_mod_converse(x, n, r as int, now.nanos - since.nanos);
        }
        r
    } else {
        let r = now.secs - since.secs - 1;
        proof {
            assert(x == (r as int) * n + (n + now.nanos - since.nanos)) by (nonlinear_arith)
                requires
                    x == now.total_nanos() - since.total_nanos(),
                    r == now.secs - since.secs - 1,
                    n == NANOS_PER_SEC,
            ;
            lemma_fundamental_div_mod_converse(x, n, r as int, n + now.nanos - since.nanos);
        }
        r
    }
}

/// What the guard remembers of its last successful run.
pub struct Cache {
    pub last_ok: Option<Timestamp>,
    pub spotify_ver: Option<String>,
    pub backup_ver: Option<String>,
}

impl Cache {
    /// Every recorded point in time is well formed.
    pub open spec fn wf(&self) -> bool {
        match self.last_ok {
            Some(t) => t.wf(),
            None => true,
        }
    }

    /// Whether the last success lies within `window_secs` of `now`.
    pub fn is_recently_ok(&self, now: Timestamp, window_secs: u64) -> (r: bool)
        requires
            self.wf(),
            now.wf(),
        ensures
            r == is_recent(self.last_ok, now, window_secs),
    {
        match self.last_ok {
            Some(t) => elapsed_whole_secs(t, now) < window_secs,
            None => false,
        }
    }

    /// Records a successful run at `now` with the versions seen in it. All
    /// three fields are written together.
    pub fn record_success(&mut self, now: Timestamp, current: Option<String>, target: Option<String>)
        ensures
            final(self).last_ok == Some(now),
            opt_view(final(self).spotify_ver) == opt_view(current),
            opt_view(final(self).backup_ver) == opt_view(target),
    {
        self.last_ok = Some(now);
        self.spotify_ver = current;
        self.backup_ver = target;
    }
}

impl Default for Cache {
    /// The record of a guard that has never succeeded.
    fn default() -> (r: Cache)
        ensures
            r.last_ok is None,
            r.spotify_ver is None,
            r.backup_ver is None,
    {
        Cache { last_ok: None, spotify_ver: None, backup_ver: None }
    }
}

} // verus!
