//! The traffic counter: keeps every peer's latest traffic report and folds
//! them into one grand total.

use crate::messages::TrafficReport;
use crate::peer_id::PeerId;
use vstd::prelude::*;

verus! {

/// A peer's cumulative traffic in bytes.
#[derive(Copy, Clone, Debug)]
pub struct TrafficData {
    pub bytes_received: u64,
    pub bytes_sent: u64,
}

impl TrafficData {
    /// The bytes that the peer sent and received, together.
    pub open spec fn bytes(self) -> nat {
        (self.bytes_sent + self.bytes_received) as nat
    }
}

impl Default for TrafficData {
    fn default() -> (data: TrafficData)
        ensures
            data.bytes_received == 0,
            data.bytes_sent == 0,
    {
        TrafficData { bytes_received: 0, bytes_sent: 0 }
    }
}

/// The reports that a list of entries stands for: a later entry for a peer
/// replaces an earlier one.
pub open spec fn reports_of(entries: Seq<(PeerId, TrafficData)>) -> Map<PeerId, TrafficData>
    decreases entries.len(),
{
    if entries.len() == 0 {
        Map::empty()
    } else {
        reports_of(entries.drop_last()).insert(entries.last().0, entries.last().1)
    }
}

/// The bytes of all entries, added up.
pub open spec fn bytes_of(entries: Seq<(PeerId, TrafficData)>) -> nat
    decreases entries.len(),
{
    if entries.len() == 0 {
        0
    } else {
        bytes_of(entries.drop_last()) + entries.last().1.bytes()
    }
}

/// No peer has two entries.
pub open spec fn one_entry_each(entries: Seq<(PeerId, TrafficData)>) -> bool {
    forall|i: int, j: int|
        0 <= i < entries.len() && 0 <= j < entries.len() && i != j ==> entries[i].0 != entries[j].0
}

/// A peer has a report exactly where it has an entry, and the report is
/// what the entry holds.
proof fn lemma_reports_of_entries(entries: Seq<(PeerId, TrafficData)>)
    requires
        one_entry_each(entries),
    ensures
        reports_of(entries).dom().finite(),
        forall|i: int|
            0 <= i < entries.len() ==> reports_of(entries).contains_key((#[trigger] entries[i]).0)
                && reports_of(entries)[entries[i].0] == entries[i].1,
        forall|id: PeerId|
            reports_of(entries).contains_key(id) ==> exists|i: int|
                0 <= i < entries.len() && (#[trigger] entries[i]).0 == id,
    decreases entries.len(),
{
    if entries.len() > 0 {
        let front = entries.drop_last();
        lemma_reports_of_entries(front);
        assert forall|i: int| 0 <= i < entries.len() implies reports_of(entries).contains_key(
            (#[trigger] entries[i]).0,
        ) && reports_of(entries)[entries[i].0] == entries[i].1 by {
            if i < front.len() {
                assert(front[i] == entries[i]);
                assert(entries[i].0 != entries.last().0);
            }
        }
        assert forall|id: PeerId| reports_of(entries).contains_key(id) implies exists|i: int|
            0 <= i < entries.len() && (#[trigger] entries[i]).0 == id by {
            if id == entries.last().0 {
                assert(entries[entries.len() - 1].0 == id);
            } else {
                let i = choose|i: int| 0 <= i < front.len() && (#[trigger] front[i]).0 == id;
                assert(entries[i].0 == id);
            }
        }
    }
}

/// Replacing a peer's entry replaces its report and its share of the total.
proof fn lemma_replace_entry(entries: Seq<(PeerId, TrafficData)>, i: int, data: TrafficData)
    requires
        one_entry_each(entries),
        0 <= i < entries.len(),
    ensures
        one_entry_each(entries.update(i, (entries[i].0, data))),
        reports_of(entries.update(i, (entries[i].0, data))) == reports_of(entries).insert(
            entries[i].0,
            data,
        ),
        bytes_of(entries.update(i, (entries[i].0, data))) + entries[i].1.bytes() == bytes_of(
            entries,
        ) + data.bytes(),
    decreases entries.len(),
{
    let id = entries[i].0;
    let updated = entries.update(i, (id, data));
    let front = entries.drop_last();
    if i == entries.len() - 1 {
        assert(updated.drop_last() =~= front);
        assert(reports_of(updated) =~= reports_of(entries).insert(id, data));
    } else {
        lemma_replace_entry(front, i, data);
        assert(front[i] == entries[i]);
        assert(updated.drop_last() =~= front.update(i, (id, data)));
        assert(updated.last() == entries.last());
        assert(entries.last().0 != id);
        assert(reports_of(updated) =~= reports_of(entries).insert(id, data));
    }
}

/// Accumulates the traffic that peers report.
pub struct TrafficCounter {
    deadline_sec: u64,
    traffic: Vec<(PeerId, TrafficData)>,
}

impl View for TrafficCounter {
    type V = Map<PeerId, TrafficData>;

    /// The latest report of each peer that has reported.
    closed spec fn view(&self) -> Map<PeerId, TrafficData> {
        reports_of(self.traffic@)
    }
}

impl TrafficCounter {
    /// Every peer has at most one entry.
    pub closed spec fn wf(&self) -> bool {
        one_entry_each(self.traffic@)
    }

    /// The bytes of all latest reports, sent and received, added up.
    pub closed spec fn total(&self) -> nat {
        bytes_of(self.traffic@)
    }

    /// Seconds after the start at which the counter gives its total.
    pub closed spec fn deadline(&self) -> u64 {
        self.deadline_sec
    }

    /// Creates a counter without reports that ends the run `deadline_sec`
    /// seconds after its start.
    pub fn new(deadline_sec: u64) -> (counter: Self)
        ensures
            counter.wf(),
            counter@ == Map::<PeerId, TrafficData>::empty(),
            counter.total() == 0,
            counter.deadline() == deadline_sec,
    {
        TrafficCounter { deadline_sec, traffic: Vec::new() }
    }

    /// The delay in seconds of the timer that a starting counter sets.
    pub fn started(&self) -> (after_sec: u64)
        ensures
            after_sec == self.deadline(),
    {
        self.deadline_sec
    }

    /// Handles a `TrafficReport`: the report replaces what the peer reported
    /// before.
    pub fn handle(&mut self, msg: TrafficReport)
        requires
            old(self).wf(),
        ensures
            final(self).wf(),
            final(self).deadline() == old(self).deadline(),
            final(self)@ == old(self)@.insert(
                msg.from_id,
                TrafficData { bytes_received: msg.bytes_received, bytes_sent: msg.bytes_sent },
            ),
            final(self).total() + (if old(self)@.contains_key(msg.from_id) {
                old(self)@[msg.from_id].bytes()
            } else {
                0
            }) == old(self).total() + msg.bytes_sent + msg.bytes_received,
    {
        let data = TrafficData { bytes_received: msg.bytes_received, bytes_sent: msg.bytes_sent };
        let mut i: usize = 0;
        while i < self.traffic.len()
            invariant
                i <= self.traffic.len(),
                self.traffic@ == old(self).traffic@,
                one_entry_each(self.traffic@),
                data == (TrafficData {
                    bytes_received: msg.bytes_received,
                    bytes_sent: msg.bytes_sent,
                }),
                self.deadline_sec == old(self).deadline_sec,
                forall|k: int| 0 <= k < i ==> (#[trigger] self.traffic@[k]).0 != msg.from_id,
            decreases self.traffic.len() - i,
        {
            if self.traffic[i].0 == msg.from_id {
                proof {
                    lemma_reports_of_entries(self.traffic@);
                    lemma_replace_entry(self.traffic@, i as int, data);
                    assert(self.traffic@[i as int].0 == msg.from_id);
                }
                self.traffic.set(i, (msg.from_id, data));
                return ;
            }
            i += 1;
        }
        self.traffic.push((msg.from_id, data));
        proof {
            let before = old(self).traffic@;
            lemma_reports_of_entries(before);
            assert(self.traffic@.drop_last() =~= before);
            assert(!reports_of(before).contains_key(msg.from_id));
        }
    }

    /// The deadline's grand total: the bytes of all latest reports, or
    /// `None` where the sum does not fit in `u64`.
    pub fn grand_total(&self) -> (total: Option<u64>)
        ensures
            total == if self.total() <= u64::MAX {
                Some(self.total() as u64)
            } else {
                None
            },
    {
        let mut sum: u64 = 0;
        let mut i: usize = 0;
        while i < self.traffic.len()
            invariant
                i <= self.traffic.len(),
                sum == bytes_of(self.traffic@.take(i as int)),
            decreases self.traffic.len() - i,
        {
            let entry = self.traffic[i].1;
            proof {
                assert(self.traffic@.take(i + 1).drop_last() =~= self.traffic@.take(i as int));
                lemma_bytes_of_grows(self.traffic@, i + 1);
            }
            let both = match entry.bytes_sent.checked_add(entry.bytes_received) {
                Some(both) => both,
                None => {
                    return None;
                },
            };
            sum = match sum.checked_add(both) {
                Some(next) => next,
                None => {
                    return None;
                },
            };
            i += 1;
        }
        assert(self.traffic@.take(i as int) =~= self.traffic@);
        Some(sum)
    }
}

/// The bytes of the first entries never exceed the bytes of all.
proof fn lemma_bytes_of_grows(entries: Seq<(PeerId, TrafficData)>, n: int)
    requires
        0 <= n <= entries.len(),
    ensures
        bytes_of(entries.take(n)) <= bytes_of(entries),
    decreases entries.len(),
{
    if n == entries.len() {
        assert(entries.take(n) =~= entries);
    } else {
        lemma_bytes_of_grows(entries.drop_last(), n);
        assert(entries.drop_last().take(n) =~= entries.take(n));
    }
}

} // verus!
