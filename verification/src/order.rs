use vstd::prelude::*;

use crate::peer_info::PeerInfo;

verus! {

/// The orders that peers are ranked by. A missing time comes before every time.
#[derive(Clone, Copy, Debug, PartialEq, Eq, Structural)]
pub enum PeerOrder {
    /// Latest sign of life first, then earliest failure first.
    LatestAlive,
    /// Latest failure first, then earliest sign of life first.
    LatestFailure,
    /// Earliest failure first, then latest sign of life first.
    EarliestFailure,
}

/// The place of an optional time among all of them: no time at all comes first.
pub open spec fn time_rank(time: Option<u64>) -> int {
    match time {
        Some(t) => t as int,
        None => -1,
    }
}

/// `time_rank` as a number.
fn rank_of_time(time: Option<u64>) -> (r: i128)
    ensures
        r == time_rank(time),
{
    match time {
        Some(t) => t as i128,
        None => -1,
    }
}

impl PeerOrder {
    /// The pair of numbers that peers are ranked by in this order, lexicographically.
    pub open spec fn key(self, peer: PeerInfo) -> (int, int) {
        let alive = time_rank(peer.last_alive_millis);
        let failure = time_rank(peer.last_failure_millis);
        match self {
            PeerOrder::LatestAlive => (-alive, failure),
            PeerOrder::LatestFailure => (-failure, alive),
            PeerOrder::EarliestFailure => (failure, -alive),
        }
    }

    /// Whether `a` ranks strictly before `b`.
    pub open spec fn lt(self, a: PeerInfo, b: PeerInfo) -> bool {
        let (ka, kb) = (self.key(a), self.key(b));
        ka.0 < kb.0 || (ka.0 == kb.0 && ka.1 < kb.1)
    }

    /// Whether `a` does not rank after `b`.
    pub open spec fn le(self, a: PeerInfo, b: PeerInfo) -> bool {
        !self.lt(b, a)
    }

    /// Whether `a` ranks strictly before `b`.
    pub fn precedes(&self, a: &PeerInfo, b: &PeerInfo) -> (r: bool)
        ensures
            r == self.lt(*a, *b),
    {
        let alive_a: i128 = rank_of_time(a.last_alive_millis);
        let alive_b: i128 = rank_of_time(b.last_alive_millis);
        let failure_a: i128 = rank_of_time(a.last_failure_millis);
        let failure_b: i128 = rank_of_time(b.last_failure_millis);
        match self {
            PeerOrder::LatestAlive => alive_a > alive_b || (alive_a == alive_b && failure_a
                < failure_b),
            PeerOrder::LatestFailure => failure_a > failure_b || (failure_a == failure_b && alive_a
                < alive_b),
            PeerOrder::EarliestFailure => failure_a < failure_b || (failure_a == failure_b
                && alive_a > alive_b),
        }
    }
}

/// Whether `output` is `input` sorted by `order`, peers of equal rank staying in the order of
/// `input`. Meant for sequences in which no peer occurs twice.
pub open spec fn is_stable_sort(
    order: PeerOrder,
    input: Seq<PeerInfo>,
    output: Seq<PeerInfo>,
) -> bool {
    &&& output.len() == input.len()
    &&& output.no_duplicates()
    &&& forall|p: PeerInfo| output.contains(p) <==> input.contains(p)
    &&& forall|i: int, j: int| 0 <= i < j < output.len() ==> order.le(output[i], output[j])
    &&& forall|i: int, j: int, k: int, l: int|
        0 <= i < j < output.len() && 0 <= k < input.len() && 0 <= l < input.len()
            && #[trigger] output[i] == #[trigger] input[k] && #[trigger] output[j]
            == #[trigger] input[l] && order.key(output[i]) == order.key(output[j]) ==> k < l
}

/// Sorts peers by `order`, keeping peers of equal rank in the order in which they come.
pub fn sort_peers(peers: &Vec<PeerInfo>, order: PeerOrder) -> (sorted: Vec<PeerInfo>)
    requires
        peers@.no_duplicates(),
    ensures
        is_stable_sort(order, peers@, sorted@),
{
    let mut sorted: Vec<PeerInfo> = Vec::new();
    for n in 0..peers.len()
        invariant
            peers@.no_duplicates(),
            is_stable_sort(order, peers@.take(n as int), sorted@),
    {
        let peer = peers[n];
        // the number of peers that do not rank after this one
        let mut low: usize = 0;
        let mut high: usize = sorted.len();
        while low < high
            invariant
                low <= high <= sorted.len(),
                forall|i: int, j: int|
                    0 <= i < j < sorted.len() ==> order.le(sorted@[i], sorted@[j]),
                forall|i: int| 0 <= i < low ==> order.le(sorted@[i], peer),
                forall|i: int| high <= i < sorted.len() ==> order.lt(peer, sorted@[i]),
            decreases high - low,
        {
            let middle: usize = low + (high - low) / 2;
            assert(forall|i: int|
                0 <= i < middle ==> order.le(#[trigger] sorted@[i], sorted@[middle as int]));
            assert(forall|i: int|
                middle < i < sorted.len() ==> order.le(
                    sorted@[middle as int],
                    #[trigger] sorted@[i],
                ));
            if order.precedes(&peer, &sorted[middle]) {
                high = middle;
            } else {
                low = middle + 1;
            }
        }
        let ghost before = sorted@;
        sorted.insert(low, peer);
        proof {
            lemma_insertion(order, peers@, n as int, before, low as int);
        }
    }
    proof {
        assert(peers@.take(peers@.len() as int) =~= peers@);
    }
    sorted
}

/// Putting the next peer behind all those that do not rank after it keeps a stable sort.
proof fn lemma_insertion(
    order: PeerOrder,
    input: Seq<PeerInfo>,
    n: int,
    before: Seq<PeerInfo>,
    at: int,
)
    requires
        input.no_duplicates(),
        0 <= n < input.len(),
        is_stable_sort(order, input.take(n), before),
        0 <= at <= before.len(),
        forall|i: int| 0 <= i < at ==> order.le(before[i], input[n]),
        forall|i: int| at <= i < before.len() ==> order.lt(input[n], before[i]),
    ensures
        is_stable_sort(order, input.take(n + 1), before.insert(at, input[n])),
{
    let peer = input[n];
    let old_input = input.take(n);
    let new_input = input.take(n + 1);
    let after = before.insert(at, peer);
    assert(new_input =~= old_input.push(peer));
    assert forall|i: int| 0 <= i < before.len() implies before[i] != peer by {
        assert(before.contains(before[i]));
        assert(old_input.contains(before[i]));
        let k = choose|k: int| 0 <= k < old_input.len() && old_input[k] == before[i];
        assert(input[k] == before[i]);
    }
    assert forall|p: PeerInfo| after.contains(p) <==> new_input.contains(p) by {
        if after.contains(p) {
            let i = choose|i: int| 0 <= i < after.len() && after[i] == p;
            if i < at {
                assert(before.contains(before[i]));
                let k = choose|k: int| 0 <= k < old_input.len() && old_input[k] == p;
                assert(new_input[k] == p);
            } else if i == at {
                assert(new_input[n] == p);
            } else {
                assert(before.contains(before[i - 1]));
                let k = choose|k: int| 0 <= k < old_input.len() && old_input[k] == p;
                assert(new_input[k] == p);
            }
        }
        if new_input.contains(p) {
            let k = choose|k: int| 0 <= k < new_input.len() && new_input[k] == p;
            if k == n {
                assert(after[at] == p);
            } else {
                assert(old_input[k] == p);
                assert(old_input.contains(p));
                let i = choose|i: int| 0 <= i < before.len() && before[i] == p;
                if i < at {
                    assert(after[i] == p);
                } else {
                    assert(after[i + 1] == p);
                }
            }
        }
    }
    assert forall|i: int, j: int, k: int, l: int|
        0 <= i < j < after.len() && 0 <= k < new_input.len() && 0 <= l < new_input.len()
            && #[trigger] after[i] == #[trigger] new_input[k] && #[trigger] after[j]
            == #[trigger] new_input[l] && order.key(after[i]) == order.key(after[j]) implies k
        < l by {
        let bi = if i < at { i } else { i - 1 };
        let bj = if j < at { j } else { j - 1 };
        if i == at {
            assert(order.lt(peer, before[bj]));
        } else if j == at {
            assert(after[i] == before[bi]);
            assert(new_input[l] == input[n]);
            assert(input[l] == input[n]);
            assert(k != n);
        } else {
            assert(after[i] == before[bi] && after[j] == before[bj]);
            assert(k != n && l != n);
            assert(old_input[k] == before[bi] && old_input[l] == before[bj]);
        }
    }
}

} // verus!
