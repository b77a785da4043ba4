//! Per-segment send times and the smoothed round-trip estimator.
//!
//! Each transmitted segment records its starting sequence number and the
//! clock reading at which it left. Acknowledged entries are purged, each one
//! contributing a round-trip sample to `srtt`, an exponentially weighted
//! moving average with weight 4/5 on the old value. Times are in
//! microseconds.

use vstd::prelude::*;

use crate::seqnum::{seq_between, seq_dec};

verus! {

/// Initial smoothed round-trip estimate: one minute.
pub const SRTT_INITIAL_MICROS: u64 = 60_000_000;

/// Upper bound on clock readings the engine accepts, far beyond any real
/// uptime; it keeps the estimator's arithmetic inside `u64`.
pub const TIME_MAX_MICROS: u64 = 0x1000_0000_0000_0000;

/// `a - b`, floored at zero.
pub open spec fn sat_sub(a: u64, b: u64) -> u64 {
    if a >= b {
        (a - b) as u64
    } else {
        0
    }
}

/// One estimator step: four parts old value, one part new sample, rounded
/// down.
pub open spec fn ewma(srtt: u64, rtt: u64) -> u64 {
    ((4 * srtt + rtt) / 5) as u64
}

/// A send-time entry with key `k` is settled by an acknowledgment that moves
/// the left edge from `una` to `ack` exactly when `una <= k < ack` in ring
/// order.
pub open spec fn acked_by(k: u32, una: u32, ack: u32) -> bool {
    seq_between(seq_dec(una), k, ack)
}

/// Entries sorted strictly by key in plain `u32` order, hence unique.
pub open spec fn keys_sorted(s: Seq<(u32, u64)>) -> bool {
    forall|i: int, j: int| 0 <= i < j < s.len() ==> #[trigger] s[i].0 < #[trigger] s[j].0
}

/// All recorded times at or below `bound`.
pub open spec fn times_bounded(s: Seq<(u32, u64)>, bound: u64) -> bool {
    forall|i: int| 0 <= i < s.len() ==> #[trigger] s[i].1 <= bound
}

/// Index at which `key` sits, or would be inserted, in `s`.
pub open spec fn insert_pos(s: Seq<(u32, u64)>, key: u32) -> int
    decreases s.len(),
{
    if s.len() == 0 {
        0
    } else if s[0].0 < key {
        1 + insert_pos(s.skip(1), key)
    } else {
        0
    }
}

/// The entry list after recording `(key, at)`: an existing entry for `key`
/// is overwritten, otherwise the pair goes in at its sorted position.
pub open spec fn spec_record(s: Seq<(u32, u64)>, key: u32, at: u64) -> Seq<(u32, u64)> {
    let i = insert_pos(s, key);
    if i < s.len() && s[i].0 == key {
        s.update(i, (key, at))
    } else {
        s.take(i) + seq![(key, at)] + s.skip(i)
    }
}

/// The earliest entry, in plain key order, whose key is at least `una`.
pub open spec fn first_at_or_after(s: Seq<(u32, u64)>, una: u32) -> Option<(u32, u64)>
    decreases s.len(),
{
    if s.len() == 0 {
        None
    } else if s[0].0 >= una {
        Some(s[0])
    } else {
        first_at_or_after(s.skip(1), una)
    }
}

/// The entries that survive an acknowledgment advance from `una` to `ack`,
/// in their original order.
pub open spec fn purged(s: Seq<(u32, u64)>, una: u32, ack: u32) -> Seq<(u32, u64)>
    decreases s.len(),
{
    if s.len() == 0 {
        s
    } else {
        let rest = purged(s.skip(1), una, ack);
        if acked_by(s[0].0, una, ack) {
            rest
        } else {
            seq![s[0]] + rest
        }
    }
}

/// The estimator after sampling, in key order, every entry of `s` that the
/// advance from `una` to `ack` settles.
pub open spec fn srtt_after(srtt: u64, s: Seq<(u32, u64)>, una: u32, ack: u32, now: u64) -> u64
    decreases s.len(),
{
    if s.len() == 0 {
        srtt
    } else {
        let next = if acked_by(s[0].0, una, ack) {
            ewma(srtt, sat_sub(now, s[0].1))
        } else {
            srtt
        };
        srtt_after(next, s.skip(1), una, ack, now)
    }
}

/// `insert_pos` is the first index whose key is at least `key`.
pub proof fn lemma_insert_pos(s: Seq<(u32, u64)>, key: u32)
    ensures
        0 <= insert_pos(s, key) <= s.len(),
        forall|m: int| 0 <= m < insert_pos(s, key) ==> #[trigger] s[m].0 < key,
        insert_pos(s, key) < s.len() ==> s[insert_pos(s, key)].0 >= key,
    decreases s.len(),
{
    if s.len() > 0 && s[0].0 < key {
        lemma_insert_pos(s.skip(1), key);
        assert forall|m: int| 0 <= m < insert_pos(s, key) implies #[trigger] s[m].0 < key by {
            if m > 0 {
                assert(s.skip(1)[m - 1] == s[m]);
            }
        }
        if insert_pos(s, key) < s.len() {
            assert(s.skip(1)[insert_pos(s, key) - 1] == s[insert_pos(s, key)]);
        }
    }
}

/// Every surviving entry comes from the original list, and survival keeps
/// the sorted key order and the time bound.
pub proof fn lemma_purged_props(s: Seq<(u32, u64)>, una: u32, ack: u32)
    ensures
        forall|j: int|
            0 <= j < purged(s, una, ack).len() ==> s.contains(#[trigger] purged(s, una, ack)[j]),
        keys_sorted(s) ==> keys_sorted(purged(s, una, ack)),
        forall|b: u64| times_bounded(s, b) ==> times_bounded(purged(s, una, ack), b),
    decreases s.len(),
{
    if s.len() > 0 {
        let t = s.skip(1);
        lemma_purged_props(t, una, ack);
        let p = purged(s, una, ack);
        let q = purged(t, una, ack);
        assert forall|j: int| 0 <= j < q.len() implies s.contains(q[j]) by {
            assert(t.contains(q[j]));
            let k = choose|k: int| 0 <= k < t.len() && t[k] == q[j];
            assert(s[k + 1] == q[j]);
        }
        if !acked_by(s[0].0, una, ack) {
            assert(p == seq![s[0]] + q);
            assert forall|j: int| 0 <= j < p.len() implies s.contains(p[j]) by {
                if j == 0 {
                    assert(s[0] == p[0]);
                } else {
                    assert(p[j] == q[j - 1]);
                }
            }
            if keys_sorted(s) {
                assert forall|i: int, j: int| 0 <= i < j < p.len() implies #[trigger] p[i].0
                    < #[trigger] p[j].0 by {
                    if i == 0 {
                        assert(t.contains(q[j - 1]));
                        let k = choose|k: int| 0 <= k < t.len() && t[k] == q[j - 1];
                        assert(s[k + 1] == q[j - 1]);
                        assert(s[0].0 < s[k + 1].0);
                    }
                }
            }
        }
    }
}

/// Send-time map plus round-trip estimator.
#[derive(Debug)]
pub struct Timers {
    /// `(starting sequence number, send time)` per transmitted segment,
    /// sorted by sequence number.
    pub send_times: Vec<(u32, u64)>,
    /// Smoothed round-trip time in microseconds.
    pub srtt: u64,
}

impl Timers {
    pub open spec fn wf(self) -> bool {
        &&& keys_sorted(self.send_times@)
        &&& self.srtt <= TIME_MAX_MICROS
        &&& times_bounded(self.send_times@, TIME_MAX_MICROS)
    }

    /// A fresh estimator: no sends recorded, `srtt` at its initial minute.
    pub fn new() -> (t: Timers)
        ensures
            t.wf(),
            t.send_times@.len() == 0,
            t.srtt == SRTT_INITIAL_MICROS,
    {
        Timers { send_times: Vec::new(), srtt: SRTT_INITIAL_MICROS }
    }

    /// Record that a segment starting at `key` left at time `at`,
    /// overwriting any earlier record for the same starting number.
    pub fn record_send(&mut self, key: u32, at: u64)
        requires
            old(self).wf(),
            at <= TIME_MAX_MICROS,
        ensures
            final(self).wf(),
            final(self).send_times@ == spec_record(old(self).send_times@, key, at),
            final(self).srtt == old(self).srtt,
    {
        proof {
            lemma_insert_pos(self.send_times@, key);
        }
        let ghost s0 = self.send_times@;
        let mut i: usize = 0;
        while i < self.send_times.len() && self.send_times[i].0 < key
            invariant
                0 <= i <= self.send_times.len(),
                self.send_times@ == s0,
                forall|m: int| 0 <= m < i ==> #[trigger] s0[m].0 < key,
            decreases self.send_times.len() - i,
        {
            i = i + 1;
        }
        proof {
            // i and insert_pos agree: both are the first index with key at
            // least `key`.
            let p = insert_pos(s0, key);
            if p < i {
                assert(s0[p].0 < key);
            }
            if (i as int) < p {
                assert(s0[i as int].0 < key);
            }
            assert(i as int == p);
        }
        let ghost p = insert_pos(s0, key);
        if i < self.send_times.len() && self.send_times[i].0 == key {
            self.send_times.remove(i);
            self.send_times.insert(i, (key, at));
            proof {
                assert(self.send_times@ =~= s0.update(i as int, (key, at)));
                assert(self.send_times@ == spec_record(s0, key, at));
            }
        } else {
            self.send_times.insert(i, (key, at));
            proof {
                assert(self.send_times@ =~= s0.take(i as int) + seq![(key, at)] + s0.skip(i as int));
                assert(self.send_times@ == spec_record(s0, key, at));
            }
        }
        proof {
            let s1 = self.send_times@;
            assert forall|a: int, b: int| 0 <= a < b < s1.len() implies #[trigger] s1[a].0
                < #[trigger] s1[b].0 by {
                lemma_insert_pos(s0, key);
            }
            assert(times_bounded(s1, TIME_MAX_MICROS));
        }
    }

    /// The send time of the oldest recorded segment not yet acknowledged,
    /// that is of the first entry at or after `una` in plain key order.
    pub fn first_unacked_send(&self, una: u32) -> (r: Option<u64>)
        ensures
            r == match first_at_or_after(self.send_times@, una) {
                Some(e) => Some(e.1),
                None => None::<u64>,
            },
    {
        let ghost s0 = self.send_times@;
        proof {
            assert(s0.skip(0) =~= s0);
        }
        let mut i: usize = 0;
        while i < self.send_times.len() && self.send_times[i].0 < una
            invariant
                0 <= i <= self.send_times.len(),
                self.send_times@ == s0,
                first_at_or_after(s0, una) == first_at_or_after(s0.skip(i as int), una),
            decreases self.send_times.len() - i,
        {
            proof {
                assert(s0.skip(i as int)[0] == s0[i as int]);
                assert(s0.skip(i as int).skip(1) =~= s0.skip(i + 1));
            }
            i = i + 1;
        }
        proof {
            assert(s0.skip(i as int).len() == s0.len() - i);
            if i < s0.len() {
                assert(s0.skip(i as int)[0] == s0[i as int]);
            }
        }
        if i < self.send_times.len() {
            Some(self.send_times[i].1)
        } else {
            None
        }
    }

    /// Drop every entry settled by the advance of the left edge from `una`
    /// to `ack`, sampling each one's round trip into the estimator in key
    /// order.
    pub fn purge_acked(&mut self, una: u32, ack: u32, now: u64)
        requires
            old(self).wf(),
            now <= TIME_MAX_MICROS,
        ensures
            final(self).wf(),
            final(self).send_times@ == purged(old(self).send_times@, una, ack),
            final(self).srtt == srtt_after(old(self).srtt, old(self).send_times@, una, ack, now),
    {
        let ghost s0 = self.send_times@;
        proof {
            assert(s0.skip(0) =~= s0);
            assert(Seq::<(u32, u64)>::empty() + purged(s0, una, ack) =~= purged(s0, una, ack));
        }
        let mut kept: Vec<(u32, u64)> = Vec::new();
        let mut srtt = self.srtt;
        let mut i: usize = 0;
        while i < self.send_times.len()
            invariant
                0 <= i <= self.send_times.len(),
                self.send_times@ == s0,
                self.wf(),
                now <= TIME_MAX_MICROS,
                srtt <= TIME_MAX_MICROS,
                purged(s0, una, ack) == kept@ + purged(s0.skip(i as int), una, ack),
                srtt_after(old(self).srtt, s0, una, ack, now) == srtt_after(
                    srtt,
                    s0.skip(i as int),
                    una,
                    ack,
                    now,
                ),
            decreases self.send_times.len() - i,
        {
            let e = self.send_times[i];
            proof {
                assert(s0.skip(i as int)[0] == s0[i as int]);
                assert(s0.skip(i as int).skip(1) =~= s0.skip(i + 1));
            }
            if is_acked_by(e.0, una, ack) {
                let rtt = now.saturating_sub(e.1);
                srtt = (4 * srtt + rtt) / 5;
            } else {
                kept.push(e);
                proof {
                    assert(kept@ =~= kept@.drop_last() + seq![e]);
                    assert(kept@.drop_last() + (seq![e] + purged(s0.skip(i + 1), una, ack)) =~= (
                    kept@.drop_last() + seq![e]) + purged(s0.skip(i + 1), una, ack));
                }
            }
            i = i + 1;
        }
        proof {
            assert(s0.skip(i as int).len() == 0);
            assert(purged(s0.skip(i as int), una, ack) =~= Seq::<(u32, u64)>::empty());
            assert(kept@ + Seq::<(u32, u64)>::empty() =~= kept@);
            assert(kept@ == purged(s0, una, ack));
            lemma_purged_props(s0, una, ack);
        }
        self.send_times = kept;
        self.srtt = srtt;
    }
}

/// Executable form of [`acked_by`].
pub fn is_acked_by(k: u32, una: u32, ack: u32) -> (r: bool)
    ensures
        r == acked_by(k, una, ack),
{
    crate::seqnum::is_between_wrapped(una.wrapping_sub(1), k, ack)
}

} // verus!
