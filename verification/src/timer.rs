//! Timing work against an item. One session runs at a time; a session left
//! running implausibly long is quarantined rather than counted.
use vstd::prelude::*;
use crate::store::{fresh_id, parse_ts, prefixed, stamp_or_epoch};
use crate::text::opt_str;
use crate::zone::{Stamp, UTC_MAX_SECS, UTC_MIN_SECS, utc_ok};

verus! {

#[derive(Clone, Debug, PartialEq)]
pub struct Session {
    pub id: String,
    /// Never null: the durable link. A session outlives the block it was started from.
    pub item_id: String,
    /// Best-effort provenance. A dangling value is expected, not corruption.
    pub placement_id: Option<String>,
    pub started_at: Stamp,
    pub ended_at: Option<Stamp>,
    pub discarded: bool,
}

/// Starting a timer may stop one already running; the caller is told.
#[derive(Clone, Debug, PartialEq)]
pub struct Started {
    pub started: Session,
    pub stopped: Option<Session>,
}

/// A session open longer than this cannot be real work; it is a crash or a
/// forgotten stop.
pub const STALE_AFTER_HOURS: i64 = 12;

/// Sessions started before this instant and still open are stale.
pub fn stale_cutoff(now: Stamp) -> (r: Stamp)
    requires
        UTC_MIN_SECS + 12 * 3600 <= now.secs,
    ensures
        r == (Stamp { secs: (now.secs - STALE_AFTER_HOURS * 3600) as i64, nanos: now.nanos, offset: 0 }),
{
    Stamp { secs: now.secs - STALE_AFTER_HOURS * 3600, nanos: now.nanos, offset: 0 }
}

/// A session read from its stored row: instants that cannot be read are taken as the epoch.
pub fn session_of(
    id: String,
    item_id: String,
    placement_id: Option<String>,
    started: &str,
    ended: Option<&str>,
    discarded: i64,
) -> (r: Session)
    ensures
        r.id == id,
        r.item_id == item_id,
        r.placement_id == placement_id,
        r.started_at == stamp_or_epoch(started@),
        r.ended_at == match ended {
            Some(e) => Some(stamp_or_epoch(e@)),
            None => None,
        },
        r.discarded == (discarded != 0),
{
    Session {
        id,
        item_id,
        placement_id,
        started_at: parse_ts(started),
        ended_at: match ended {
            Some(e) => Some(parse_ts(e)),
            None => None,
        },
        discarded: discarded != 0,
    }
}

/// Still running: not ended and not quarantined.
pub open spec fn running(s: Session) -> bool {
    s.ended_at is None && !s.discarded
}

/// The same instant, kept in UTC as the store keeps it.
pub open spec fn utc_of(t: Stamp) -> Stamp {
    Stamp { secs: t.secs, nanos: t.nanos, offset: 0 }
}

/// At most one session running, as starting a timer keeps it.
pub open spec fn at_most_one_running(ss: Seq<Session>) -> bool {
    forall|i: int, j: int|
        #![trigger ss[i], ss[j]]
        0 <= i < ss.len() && 0 <= j < ss.len() && running(ss[i]) && running(ss[j]) ==> i == j
}

fn copy_session(s: &Session) -> (r: Session)
    ensures
        r == *s,
{
    Session {
        id: s.id.clone(),
        item_id: s.item_id.clone(),
        placement_id: match &s.placement_id {
            Some(p) => Some(p.clone()),
            None => None,
        },
        started_at: s.started_at,
        ended_at: s.ended_at,
        discarded: s.discarded,
    }
}

/// The running session started last, if any.
pub fn active_session(sessions: &Vec<Session>) -> (r: Option<Session>)
    ensures
        match r {
            None => forall|k: int| 0 <= k < sessions.len() ==> !running(#[trigger] sessions@[k]),
            Some(s) => {
                &&& running(s)
                &&& exists|k: int| 0 <= k < sessions.len() && #[trigger] sessions@[k] == s
                &&& forall|k: int|
                    0 <= k < sessions.len() && running(#[trigger] sessions@[k]) ==> !s.started_at.earlier(
                        sessions@[k].started_at,
                    )
            },
        },
{
    let mut best: Option<usize> = None;
    let mut k: usize = 0;
    while k < sessions.len()
        invariant
            k <= sessions.len(),
            match best {
                None => forall|j: int| 0 <= j < k ==> !running(#[trigger] sessions@[j]),
                Some(b) => b < k && running(sessions@[b as int]) && forall|j: int|
                    0 <= j < k && running(#[trigger] sessions@[j]) ==> !sessions@[b as int].started_at.earlier(
                        sessions@[j].started_at,
                    ),
            },
        decreases sessions.len() - k,
    {
        let s = &sessions[k];
        if s.ended_at.is_none() && !s.discarded {
            match best {
                None => {
                    best = Some(k);
                },
                Some(b) => {
                    let t = sessions[b].started_at;
                    if t.secs < s.started_at.secs || (t.secs == s.started_at.secs && t.nanos
                        < s.started_at.nanos) {
                        best = Some(k);
                    }
                },
            }
        }
        k = k + 1;
    }
    match best {
        None => None,
        Some(b) => Some(copy_session(&sessions[b])),
    }
}

/// A session after `timer_stop(id, now)`: ended at `now` if it is that session
/// and had not ended.
pub open spec fn stop_one(s: Session, id: Seq<char>, now: Stamp) -> Session {
    if s.id@ == id && s.ended_at is None {
        Session { ended_at: Some(utc_of(now)), ..s }
    } else {
        s
    }
}

/// The sessions after `timer_stop(id, now)`.
pub open spec fn stopped(ss: Seq<Session>, id: Seq<char>, now: Stamp) -> Seq<Session> {
    Seq::new(ss.len(), |k: int| stop_one(ss[k], id, now))
}

/// The session `id` is stored and has not ended.
pub open spec fn open_with(ss: Seq<Session>, id: Seq<char>) -> bool {
    exists|k: int| 0 <= k < ss.len() && (#[trigger] ss[k]).id@ == id && ss[k].ended_at is None
}

/// The first stored session with this id, or -1.
pub open spec fn first_with(ss: Seq<Session>, id: Seq<char>, k: int) -> int
    decreases ss.len() - k,
{
    if k < 0 || k >= ss.len() {
        -1
    } else if ss[k].id@ == id {
        k
    } else {
        first_with(ss, id, k + 1)
    }
}

/// What `timer_stop` reports: the session as stopped, or nothing when it was
/// not running.
pub open spec fn stop_report(ss: Seq<Session>, id: Seq<char>, now: Stamp) -> Option<Session> {
    if open_with(ss, id) {
        Some(stopped(ss, id, now)[first_with(stopped(ss, id, now), id, 0)])
    } else {
        None
    }
}

/// Stop a running session at `now`. Stopping one that does not exist or has
/// already ended changes nothing and reports nothing, so stopping twice is
/// harmless.
pub fn timer_stop(sessions: &mut Vec<Session>, session_id: &str, now: Stamp) -> (r: Option<Session>)
    ensures
        final(sessions)@ == stopped(old(sessions)@, session_id@, now),
        r == stop_report(old(sessions)@, session_id@, now),
        at_most_one_running(old(sessions)@) ==> at_most_one_running(final(sessions)@),
{
    let want = session_id.to_owned();
    let ghost all = old(sessions)@;
    let mut changed = false;
    let mut k: usize = 0;
    while k < sessions.len()
        invariant
            k <= sessions.len(),
            sessions.len() == all.len(),
            want@ == session_id@,
            forall|j: int| 0 <= j < k ==> #[trigger] sessions@[j] == stop_one(all[j], want@, now),
            forall|j: int| k <= j < sessions.len() ==> #[trigger] sessions@[j] == all[j],
            changed == exists|j: int| 0 <= j < k && (#[trigger] all[j]).id@ == want@ && all[j].ended_at is None,
        decreases sessions.len() - k,
    {
        if sessions[k].id == want && sessions[k].ended_at.is_none() {
            let ghost before = sessions@;
            let mut s = sessions.remove(k);
            s.ended_at = Some(Stamp { secs: now.secs, nanos: now.nanos, offset: 0 });
            sessions.insert(k, s);
            assert(sessions@ =~= before.update(k as int, stop_one(all[k as int], want@, now)));
            changed = true;
        }
        k = k + 1;
    }
    assert(sessions@ =~= stopped(all, session_id@, now));
    if !changed {
        return None;
    }
    let mut f: usize = 0;
    while f < sessions.len()
        invariant
            f <= sessions.len(),
            all == old(sessions)@,
            sessions@ == stopped(all, session_id@, now),
            want@ == session_id@,
            open_with(all, session_id@),
            first_with(sessions@, want@, 0) == first_with(sessions@, want@, f as int),
        decreases sessions.len() - f,
    {
        if sessions[f].id == want {
            return Some(copy_session(&sessions[f]));
        }
        f = f + 1;
    }
    proof {
        let j = choose|j: int| 0 <= j < all.len() && (#[trigger] all[j]).id@ == want@ && all[j].ended_at is None;
        lemma_first_with(sessions@, want@, 0);
        assert(sessions@[j].id@ == want@);
    }
    None
}

proof fn lemma_first_with(ss: Seq<Session>, id: Seq<char>, k: int)
    requires
        0 <= k,
    ensures
        first_with(ss, id, k) == -1 ==> forall|j: int| k <= j < ss.len() ==> (#[trigger] ss[j]).id@ != id,
        first_with(ss, id, k) != -1 ==> k <= first_with(ss, id, k) < ss.len() && ss[first_with(ss, id, k)].id@ == id,
    decreases ss.len() - k,
{
    if k < ss.len() && ss[k].id@ != id {
        lemma_first_with(ss, id, k + 1);
    }
}

/// The prefix of a session's id.
pub open spec fn session_prefix() -> Seq<char> {
    seq!['s', 'e', 's', '_']
}

/// The refusal when a fresh session id is already taken.
pub open spec fn session_taken() -> Seq<char> {
    "UNIQUE constraint failed: sessions.id"@
}

/// Start timing an item at `now` under the session id `id`. Only one session
/// runs at a time: the one running (the last started) is stopped first and
/// reported. Should `id` be taken already, nothing is started (the stop
/// stands) and the start is refused.
pub fn start_with_id(sessions: &mut Vec<Session>, id: String, item_id: &str, placement_id: Option<&str>, now: Stamp) -> (r: Result<Started, String>)
    ensures
        match r {
            Ok(st) => {
                &&& final(sessions)@.len() == old(sessions)@.len() + 1
                &&& match st.stopped {
                    None => {
                        &&& forall|k: int| 0 <= k < old(sessions)@.len() ==> !running(#[trigger] old(sessions)@[k])
                        &&& final(sessions)@.take(old(sessions)@.len() as int) == old(sessions)@
                    },
                    Some(x) => {
                        &&& exists|k: int|
                            0 <= k < old(sessions)@.len() && (#[trigger] old(sessions)@[k]).id@ == x.id@ && running(
                                old(sessions)@[k],
                            ) && forall|j: int|
                                0 <= j < old(sessions)@.len() && running(#[trigger] old(sessions)@[j])
                                    ==> !old(sessions)@[k].started_at.earlier(old(sessions)@[j].started_at)
                        &&& stop_report(old(sessions)@, x.id@, now) == Some(x)
                        &&& final(sessions)@.take(old(sessions)@.len() as int) == stopped(old(sessions)@, x.id@, now)
                    },
                }
                &&& final(sessions)@[old(sessions)@.len() as int] == st.started
                &&& st.started.id@ == id@
                &&& forall|k: int| 0 <= k < old(sessions)@.len() ==> (#[trigger] old(sessions)@[k]).id@ != st.started.id@
                &&& st.started.item_id@ == item_id@
                &&& opt_str(st.started.placement_id) == match placement_id {
                    Some(p) => Some(p@),
                    None => None,
                }
                &&& st.started.started_at == utc_of(now)
                &&& st.started.ended_at is None
                &&& !st.started.discarded
                &&& at_most_one_running(old(sessions)@) ==> forall|k: int|
                    0 <= k < old(sessions)@.len() ==> !running(#[trigger] final(sessions)@[k])
            },
            Err(m) => {
                &&& m@ == session_taken()
                &&& exists|k: int| 0 <= k < old(sessions)@.len() && (#[trigger] old(sessions)@[k]).id@ == id@
                &&& final(sessions)@ == old(sessions)@ || exists|k: int|
                    0 <= k < old(sessions)@.len() && running(#[trigger] old(sessions)@[k])
                        && final(sessions)@ == stopped(old(sessions)@, old(sessions)@[k].id@, now)
            },
        },
        (forall|k: int| 0 <= k < old(sessions)@.len() ==> (#[trigger] old(sessions)@[k]).id@ != id@) ==> r is Ok,
{
    let ghost before = sessions@;
    let active = active_session(sessions);
    let stopped_now = match &active {
        Some(running_now) => timer_stop(sessions, running_now.id.as_str(), now),
        None => None,
    };
    let ghost mid = sessions@;
    proof {
        match active {
            Some(a) => {
                let k0 = choose|k: int| 0 <= k < before.len() && #[trigger] before[k] == a;
                assert(before[k0].id@ == a.id@);
                assert(open_with(before, a.id@));
                lemma_first_with(mid, a.id@, 0);
                assert(mid[k0].id@ == a.id@);
                assert(stopped_now == stop_report(before, a.id@, now));
                assert(stopped_now.unwrap().id@ == a.id@);
                assert(before[k0].id@ == stopped_now.unwrap().id@);
                assert(running(before[k0]) && mid == stopped(before, before[k0].id@, now));
                if at_most_one_running(before) {
                    assert forall|k: int| 0 <= k < before.len() implies !running(#[trigger] mid[k]) by {
                        if running(mid[k]) {
                            assert(running(before[k]));
                            assert(k == k0);
                        }
                    }
                }
            },
            None => {},
        }
        assert(mid.len() == before.len());
    }
    let mut k: usize = 0;
    while k < sessions.len()
        invariant
            k <= sessions.len(),
            sessions@ == mid,
            mid.len() == old(sessions)@.len(),
            before == old(sessions)@,
            mid == before || exists|j: int|
                0 <= j < before.len() && running(#[trigger] before[j]) && mid == stopped(before, before[j].id@, now),
            forall|j: int| 0 <= j < k ==> (#[trigger] sessions@[j]).id@ != id@,
        decreases sessions.len() - k,
    {
        if sessions[k].id == id {
            return Err(String::from_str("UNIQUE constraint failed: sessions.id"));
        }
        k = k + 1;
    }
    let started = Session {
        id,
        item_id: item_id.to_owned(),
        placement_id: match placement_id {
            Some(p) => Some(p.to_owned()),
            None => None,
        },
        started_at: Stamp { secs: now.secs, nanos: now.nanos, offset: 0 },
        ended_at: None,
        discarded: false,
    };
    sessions.push(copy_session(&started));
    proof {
        assert(sessions@.take(before.len() as int) =~= mid);
        assert forall|k: int| 0 <= k < before.len() implies (#[trigger] before[k]).id@ != started.id@ by {
            assert(mid[k].id@ == before[k].id@);
        }
    }
    Ok(Started { started, stopped: stopped_now })
}

/// Start timing an item at `now`. Only one session runs at a time: the one
/// running (the last started) is stopped first and reported. The new session
/// takes a fresh random id; should that id be taken already, nothing is
/// started (the stop stands) and the start is refused. It always starts when
/// no stored session has an id of that shape (an empty store, say).
pub fn timer_start(sessions: &mut Vec<Session>, item_id: &str, placement_id: Option<&str>, now: Stamp) -> (r: Result<Started, String>)
    ensures
        match r {
            Ok(st) => {
                &&& final(sessions)@.len() == old(sessions)@.len() + 1
                &&& match st.stopped {
                    None => {
                        &&& forall|k: int| 0 <= k < old(sessions)@.len() ==> !running(#[trigger] old(sessions)@[k])
                        &&& final(sessions)@.take(old(sessions)@.len() as int) == old(sessions)@
                    },
                    Some(x) => {
                        &&& exists|k: int|
                            0 <= k < old(sessions)@.len() && (#[trigger] old(sessions)@[k]).id@ == x.id@ && running(
                                old(sessions)@[k],
                            ) && forall|j: int|
                                0 <= j < old(sessions)@.len() && running(#[trigger] old(sessions)@[j])
                                    ==> !old(sessions)@[k].started_at.earlier(old(sessions)@[j].started_at)
                        &&& stop_report(old(sessions)@, x.id@, now) == Some(x)
                        &&& final(sessions)@.take(old(sessions)@.len() as int) == stopped(old(sessions)@, x.id@, now)
                    },
                }
                &&& final(sessions)@[old(sessions)@.len() as int] == st.started
                &&& fresh_id(session_prefix(), st.started.id@)
                &&& forall|k: int| 0 <= k < old(sessions)@.len() ==> (#[trigger] old(sessions)@[k]).id@ != st.started.id@
                &&& st.started.item_id@ == item_id@
                &&& opt_str(st.started.placement_id) == match placement_id {
                    Some(p) => Some(p@),
                    None => None,
                }
                &&& st.started.started_at == utc_of(now)
                &&& st.started.ended_at is None
                &&& !st.started.discarded
                &&& at_most_one_running(old(sessions)@) ==> forall|k: int|
                    0 <= k < old(sessions)@.len() ==> !running(#[trigger] final(sessions)@[k])
            },
            Err(m) => {
                &&& m@ == session_taken()
                &&& final(sessions)@ == old(sessions)@ || exists|k: int|
                    0 <= k < old(sessions)@.len() && running(#[trigger] old(sessions)@[k])
                        && final(sessions)@ == stopped(old(sessions)@, old(sessions)@[k].id@, now)
            },
        },
        (forall|k: int| 0 <= k < old(sessions)@.len() ==> !fresh_id(session_prefix(), (#[trigger] old(sessions)@[k]).id@)) ==> r is Ok,
{
    let id = prefixed(&['s', 'e', 's', '_']);
    assert(['s', 'e', 's', '_']@ =~= session_prefix());
    start_with_id(sessions, id, item_id, placement_id, now)
}

/// Stopping twice is harmless: the second stop changes nothing and reports
/// nothing, whenever it comes.
pub proof fn law_stop_twice_is_harmless(ss: Seq<Session>, id: Seq<char>, first: Stamp, second: Stamp)
    ensures
        stopped(stopped(ss, id, first), id, second) == stopped(ss, id, first),
        stop_report(stopped(ss, id, first), id, second) is None,
{
    let once = stopped(ss, id, first);
    assert(stopped(once, id, second) =~= once);
    assert(!open_with(once, id));
}

/// Left running too long: not ended, not quarantined, and started before the
/// cutoff.
pub open spec fn is_stale(s: Session, cutoff: Stamp) -> bool {
    running(s) && s.started_at.earlier(cutoff)
}

/// A session after the sweep: quarantined if it was stale.
pub open spec fn swept(s: Session, cutoff: Stamp) -> Session {
    if is_stale(s, cutoff) {
        Session { discarded: true, ..s }
    } else {
        s
    }
}

/// The stale sessions among the first `n`, in order, as quarantined.
pub open spec fn stale_of(ss: Seq<Session>, cutoff: Stamp, n: nat) -> Seq<Session>
    decreases n,
{
    if n == 0 {
        Seq::empty()
    } else {
        let rest = stale_of(ss, cutoff, (n - 1) as nat);
        if is_stale(ss[n - 1], cutoff) {
            rest.push(Session { discarded: true, ..ss[n - 1] })
        } else {
            rest
        }
    }
}

/// Quarantine the sessions left running more than `STALE_AFTER_HOURS` before
/// `now`. They are marked discarded rather than deleted: their elapsed time is
/// wrong, so it must never reach the statistics, but the user decides whether
/// to correct or drop them. Every other session is left alone. Gives back what
/// was quarantined, in stored order, so the caller can surface it.
pub fn sweep_stale_sessions(sessions: &mut Vec<Session>, now: Stamp) -> (r: Vec<Session>)
    requires
        UTC_MIN_SECS + 12 * 3600 <= now.secs,
    ensures
        ({
            let cutoff = Stamp { secs: (now.secs - STALE_AFTER_HOURS * 3600) as i64, nanos: now.nanos, offset: 0 };
            &&& final(sessions)@.len() == old(sessions)@.len()
            &&& forall|k: int|
                0 <= k < old(sessions)@.len() ==> #[trigger] final(sessions)@[k] == swept(old(sessions)@[k], cutoff)
            &&& r@ == stale_of(old(sessions)@, cutoff, old(sessions)@.len() as nat)
            &&& at_most_one_running(old(sessions)@) ==> at_most_one_running(final(sessions)@)
        }),
{
    let cutoff = stale_cutoff(now);
    let ghost all = sessions@;
    let mut out: Vec<Session> = Vec::new();
    let mut k: usize = 0;
    while k < sessions.len()
        invariant
            k <= sessions.len(),
            sessions.len() == all.len(),
            forall|j: int| 0 <= j < k ==> #[trigger] sessions@[j] == swept(all[j], cutoff),
            forall|j: int| k <= j < sessions.len() ==> #[trigger] sessions@[j] == all[j],
            out@ == stale_of(all, cutoff, k as nat),
        decreases sessions.len() - k,
    {
        let s = &sessions[k];
        let stale = s.ended_at.is_none() && !s.discarded && (s.started_at.secs < cutoff.secs || (
        s.started_at.secs == cutoff.secs && s.started_at.nanos < cutoff.nanos));
        if stale {
            let ghost before = sessions@;
            let mut x = sessions.remove(k);
            x.discarded = true;
            out.push(copy_session(&x));
            sessions.insert(k, x);
            assert(sessions@ =~= before.update(k as int, swept(all[k as int], cutoff)));
        }
        k = k + 1;
    }
    proof {
        if at_most_one_running(all) {
            assert forall|i: int, j: int|
                #![trigger sessions@[i], sessions@[j]]
                0 <= i < sessions.len() && 0 <= j < sessions.len() && running(sessions@[i]) && running(sessions@[j])
                    implies i == j by {
                assert(running(all[i]) && running(all[j]));
            }
        }
    }
    out
}

/// A session that counts as work on an item: finished and not quarantined.
pub open spec fn counts_for(s: Session, id: Seq<char>) -> bool {
    s.item_id@ == id && s.ended_at is Some && !s.discarded
}

/// Whole seconds worked on an item over the first `n` sessions.
pub open spec fn spent_of(ss: Seq<Session>, id: Seq<char>, n: nat) -> int
    decreases n,
{
    if n == 0 {
        0
    } else {
        spent_of(ss, id, (n - 1) as nat) + if counts_for(ss[n - 1], id) {
            ss[n - 1].ended_at.unwrap().secs - ss[n - 1].started_at.secs
        } else {
            0
        }
    }
}

/// Sessions whose instants chrono can represent.
pub open spec fn sessions_ok(ss: Seq<Session>) -> bool {
    forall|k: int|
        0 <= k < ss.len() ==> utc_ok((#[trigger] ss[k]).started_at.secs as int) && (ss[k].ended_at matches Some(
            e,
        ) ==> utc_ok(e.secs as int))
}

proof fn lemma_spent_bound(ss: Seq<Session>, id: Seq<char>, n: nat)
    requires
        sessions_ok(ss),
        n <= ss.len(),
    ensures
        -(n * 0x40_0000_0000_0000) <= spent_of(ss, id, n) <= n * 0x40_0000_0000_0000,
    decreases n,
{
    if n > 0 {
        lemma_spent_bound(ss, id, (n - 1) as nat);
        let s = ss[n - 1];
        assert(utc_ok(s.started_at.secs as int));
    }
}

/// An integer held to what an `i64` can say.
pub open spec fn clamp_i64(x: int) -> int {
    if x > i64::MAX {
        i64::MAX as int
    } else if x < i64::MIN {
        i64::MIN as int
    } else {
        x
    }
}

/// Banked whole seconds of finished, non-quarantined sessions on an item,
/// held to what an `i64` can say.
pub fn spent_secs(sessions: &Vec<Session>, id: &str) -> (r: i64)
    requires
        sessions_ok(sessions@),
    ensures
        r == clamp_i64(spent_of(sessions@, id@, sessions.len() as nat)),
{
    let want = id.to_owned();
    let mut total: i128 = 0;
    let mut k: usize = 0;
    while k < sessions.len()
        invariant
            k <= sessions.len(),
            want@ == id@,
            sessions_ok(sessions@),
            total == spent_of(sessions@, id@, k as nat),
        decreases sessions.len() - k,
    {
        proof {
            lemma_spent_bound(sessions@, id@, k as nat);
            lemma_spent_bound(sessions@, id@, (k + 1) as nat);
            assert(k * 0x40_0000_0000_0000 <= 0x40_0000_0000_0000 * 0x1_0000_0000_0000_0000) by (nonlinear_arith)
                requires k < 0x1_0000_0000_0000_0000;
        }
        let s = &sessions[k];
        if s.item_id == want && !s.discarded {
            match s.ended_at {
                Some(e) => {
                    assert(utc_ok(sessions@[k as int].started_at.secs as int));
                    total = total + (e.secs as i128 - s.started_at.secs as i128);
                },
                None => {},
            }
        }
        k = k + 1;
    }
    if total > i64::MAX as i128 {
        i64::MAX
    } else if total < i64::MIN as i128 {
        i64::MIN
    } else {
        total as i64
    }
}


} // verus!
