use std::time::SystemTime;
use vstd::prelude::*;

use crate::announcement::{announced, first_occurrences, lemma_first_occurrences};
use crate::clock::{
    is_clock_reading, since_epoch, spec_low_bits, spec_timestamp, timestamp_at, whole_millis,
};
use crate::config::NetworkConfig;
use crate::error::CommunicationError;
use crate::ip::IpAddr;
use crate::order::{is_stable_sort, PeerOrder};
use crate::peer_info::PeerInfo;
use crate::peer_table::{by_ip, lemma_by_ip, lemma_by_ip_distinct, lists};
use crate::selection::{enumerates, members, PeerFilter};

verus! {

/// Only addresses of an announcement are taken in, each of them once, and no more of them than
/// the configuration allows. None is left out as long as there is room for more.
pub proof fn law_announced_are_taken_in(cfg: NetworkConfig, ips: Seq<IpAddr>)
    ensures
        announced(cfg, None) == Seq::<IpAddr>::empty(),
        announced(cfg, Some(ips)).len() <= cfg.max_advertise_length,
        forall|i: int, j: int|
            0 <= i < j < announced(cfg, Some(ips)).len() ==> #[trigger] announced(
                cfg,
                Some(ips),
            )[i] != #[trigger] announced(cfg, Some(ips))[j],
        forall|ip: IpAddr| #[trigger]
            announced(cfg, Some(ips)).contains(ip) ==> exists|k: int|
                0 <= k < ips.len() && ips[k] == ip,
        forall|k: int|
            0 <= k < ips.len() ==> announced(cfg, Some(ips)).contains(#[trigger] ips[k])
                || announced(cfg, Some(ips)).len() == cfg.max_advertise_length,
{
    let unique = first_occurrences(ips);
    let taken = announced(cfg, Some(ips));
    lemma_first_occurrences(ips);
    assert forall|ip: IpAddr| #[trigger] taken.contains(ip) implies exists|k: int|
        0 <= k < ips.len() && ips[k] == ip by {
        let i = choose|i: int| 0 <= i < taken.len() && taken[i] == ip;
        assert(unique[i] == ip);
        assert(unique.contains(ip));
    }
    assert forall|k: int| 0 <= k < ips.len() implies taken.contains(#[trigger] ips[k])
        || taken.len() == cfg.max_advertise_length by {
        assert(ips.contains(ips[k]));
        assert(unique.contains(ips[k]));
        if taken.len() < cfg.max_advertise_length {
            assert(taken =~= unique);
        }
    }
}

/// Addresses are taken in in the order in which they are first announced, and one that is left out
/// is announced only behind all those that are taken in.
pub proof fn law_first_announced_first(
    cfg: NetworkConfig,
    ips: Seq<IpAddr>,
    taken: Seq<IpAddr>,
    i: int,
    l: int,
)
    requires
        taken == announced(cfg, Some(ips)),
        0 <= i < taken.len(),
        0 <= l < ips.len(),
        !taken.take(i + 1).contains(ips[l]),
    ensures
        exists|k: int| 0 <= k < l && #[trigger] ips[k] == taken[i],
{
    let unique = first_occurrences(ips);
    lemma_first_occurrences(ips);
    assert(ips.contains(ips[l]));
    assert(unique.contains(ips[l]));
    let j = choose|j: int| 0 <= j < unique.len() && unique[j] == ips[l];
    if j <= i {
        assert(taken.take(i + 1)[j] == ips[l]);
    }
    lemma_occurs_before(ips, i, j, l);
}

/// What stands before another element without repetitions occurs before it.
proof fn lemma_occurs_before(s: Seq<IpAddr>, i: int, j: int, l: int)
    requires
        0 <= i < j < first_occurrences(s).len(),
        0 <= l < s.len(),
        s[l] == first_occurrences(s)[j],
    ensures
        exists|k: int| 0 <= k < l && #[trigger] s[k] == first_occurrences(s)[i],
    decreases s.len(),
{
    let init = s.drop_last();
    let shorter = first_occurrences(init);
    lemma_first_occurrences(init);
    if j < shorter.len() {
        if l < init.len() {
            lemma_occurs_before(init, i, j, l);
            let k = choose|k: int| 0 <= k < l && #[trigger] init[k] == shorter[i];
            assert(s[k] == shorter[i]);
        } else {
            assert(shorter.contains(shorter[j]));
            let m = choose|m: int| 0 <= m < init.len() && init[m] == shorter[j];
            lemma_occurs_before(init, i, j, m);
            let k = choose|k: int| 0 <= k < m && #[trigger] init[k] == shorter[i];
            assert(s[k] == shorter[i]);
        }
    } else {
        // the last element, which occurs for the first time
        assert(!init.contains(s.last()));
        if l < init.len() {
            assert(init[l] == s.last());
        }
        assert(shorter.contains(shorter[i]));
        let k = choose|k: int| 0 <= k < init.len() && init[k] == shorter[i];
        assert(s[k] == shorter[i]);
    }
}

/// A table made of records has the last record for every address that occurs, and no other.
pub proof fn law_last_record_counts(records: Seq<PeerInfo>, i: int)
    requires
        0 <= i < records.len(),
        forall|j: int| i < j < records.len() ==> (#[trigger] records[j]).ip != records[i].ip,
    ensures
        by_ip(records).contains_key(records[i].ip),
        by_ip(records)[records[i].ip] == records[i],
    decreases records.len(),
{
    if i < records.len() - 1 {
        let init = records.drop_last();
        assert forall|j: int| i < j < init.len() implies (#[trigger] init[j]).ip != init[i].ip by {
            assert(records[j].ip != records[i].ip);
        }
        law_last_record_counts(init, i);
        assert(records[records.len() - 1].ip != records[i].ip);
    }
}

/// Every address of a table made of records is that of a last record.
pub proof fn law_table_holds_last_records(records: Seq<PeerInfo>, ip: IpAddr) -> (i: int)
    requires
        by_ip(records).contains_key(ip),
    ensures
        0 <= i < records.len(),
        records[i].ip == ip,
        by_ip(records)[ip] == records[i],
        forall|j: int| i < j < records.len() ==> (#[trigger] records[j]).ip != ip,
    decreases records.len(),
{
    if records.last().ip == ip {
        records.len() - 1
    } else {
        let init = records.drop_last();
        let i = law_table_holds_last_records(init, ip);
        assert forall|j: int| i < j < records.len() implies (#[trigger] records[j]).ip != ip by {
            if j < init.len() {
                assert(init[j].ip != ip);
            }
        }
        i
    }
}

/// Records that list the peers are these peers, each of them once.
pub proof fn law_listed_peers(records: Seq<PeerInfo>, peers: Map<IpAddr, PeerInfo>)
    requires
        lists(records, peers),
    ensures
        forall|i: int|
            0 <= i < records.len() ==> peers.contains_key((#[trigger] records[i]).ip)
                && peers[records[i].ip] == records[i],
        forall|ip: IpAddr| #[trigger]
            peers.contains_key(ip) ==> exists|i: int|
                0 <= i < records.len() && records[i].ip == ip && #[trigger] records[i] == peers[ip],
        forall|i: int, j: int|
            0 <= i < j < records.len() ==> (#[trigger] records[i]).ip != (
            #[trigger] records[j]).ip,
{
    lemma_by_ip(records);
    lemma_by_ip_distinct(records);
    assert forall|ip: IpAddr| #[trigger] peers.contains_key(ip) implies exists|i: int|
        0 <= i < records.len() && records[i].ip == ip && #[trigger] records[i] == peers[ip] by {
        let i = choose|i: int| 0 <= i < records.len() && records[i] == peers[ip];
        assert(records[i].ip == ip);
    }
}

/// The records that are saved are those of the banned, the advertised and the bootstrap peers,
/// whatever else they are, each of them once and as it is.
pub proof fn law_saved_records(records: Seq<PeerInfo>, peers: Map<IpAddr, PeerInfo>)
    requires
        enumerates(records, peers, PeerFilter::Saved),
    ensures
        forall|i: int|
            0 <= i < records.len() ==> peers.contains_key((#[trigger] records[i]).ip)
                && peers[records[i].ip] == records[i] && (records[i].banned
                || records[i].advertised || records[i].bootstrap),
        forall|ip: IpAddr| #[trigger]
            peers.contains_key(ip) && (peers[ip].banned || peers[ip].advertised
                || peers[ip].bootstrap) ==> exists|i: int|
                0 <= i < records.len() && records[i].ip == ip && #[trigger] records[i] == peers[ip],
        forall|i: int, j: int|
            0 <= i < j < records.len() ==> (#[trigger] records[i]).ip != (
            #[trigger] records[j]).ip,
{
    assert forall|i: int| 0 <= i < records.len() implies peers.contains_key(
        (#[trigger] records[i]).ip,
    ) && peers[records[i].ip] == records[i] && (records[i].banned || records[i].advertised
        || records[i].bootstrap) by {
        assert(members(peers, PeerFilter::Saved).contains(records[i].ip));
    }
    assert forall|ip: IpAddr| #[trigger]
        peers.contains_key(ip) && (peers[ip].banned || peers[ip].advertised
            || peers[ip].bootstrap) implies exists|i: int|
        0 <= i < records.len() && records[i].ip == ip && #[trigger] records[i] == peers[ip] by {
        assert(members(peers, PeerFilter::Saved).contains(ip));
        let i = choose|i: int| 0 <= i < records.len() && records[i] == peers[ip];
        assert(records[i].ip == ip);
    }
}

/// Sorting loses no peer and makes none up.
pub proof fn law_sorting_rearranges(
    order: PeerOrder,
    input: Seq<PeerInfo>,
    output: Seq<PeerInfo>,
    peer: PeerInfo,
)
    requires
        is_stable_sort(order, input, output),
    ensures
        output.len() == input.len(),
        (exists|i: int| 0 <= i < input.len() && input[i] == peer) <==> (exists|i: int|
            0 <= i < output.len() && output[i] == peer),
        output.no_duplicates(),
{
    assert(output.contains(peer) <==> input.contains(peer));
}

/// Sorted by the latest sign of life, no peer stands before one that was seen alive later, nor
/// before one that was seen alive at the same time and failed earlier. Never counts as earlier
/// than any time. Of peers with the same times, the one that came first comes first.
pub proof fn law_sorted_by_latest_alive(
    input: Seq<PeerInfo>,
    output: Seq<PeerInfo>,
    i: int,
    j: int,
)
    requires
        is_stable_sort(PeerOrder::LatestAlive, input, output),
        0 <= i < j < output.len(),
    ensures
        output[j].last_alive_millis is Some ==> output[i].last_alive_millis is Some
            && output[j].last_alive_millis->0 <= output[i].last_alive_millis->0,
        output[i].last_alive_millis == output[j].last_alive_millis
            && output[i].last_failure_millis is Some ==> output[j].last_failure_millis is Some
            && output[i].last_failure_millis->0 <= output[j].last_failure_millis->0,
        output[i].last_alive_millis == output[j].last_alive_millis
            && output[i].last_failure_millis == output[j].last_failure_millis ==> (forall|
            k: int,
            l: int,
        |
            0 <= k < input.len() && 0 <= l < input.len() && #[trigger] input[k] == output[i]
                && #[trigger] input[l] == output[j] ==> k < l),
{
    assert(PeerOrder::LatestAlive.le(output[i], output[j]));
}

/// Sorted by the latest failure, no peer stands before one that failed later, nor before one that
/// failed at the same time and was seen alive earlier. Never counts as earlier than any time. Of
/// peers with the same times, the one that came first comes first.
pub proof fn law_sorted_by_latest_failure(
    input: Seq<PeerInfo>,
    output: Seq<PeerInfo>,
    i: int,
    j: int,
)
    requires
        is_stable_sort(PeerOrder::LatestFailure, input, output),
        0 <= i < j < output.len(),
    ensures
        output[j].last_failure_millis is Some ==> output[i].last_failure_millis is Some
            && output[j].last_failure_millis->0 <= output[i].last_failure_millis->0,
        output[i].last_failure_millis == output[j].last_failure_millis
            && output[i].last_alive_millis is Some ==> output[j].last_alive_millis is Some
            && output[i].last_alive_millis->0 <= output[j].last_alive_millis->0,
        output[i].last_alive_millis == output[j].last_alive_millis
            && output[i].last_failure_millis == output[j].last_failure_millis ==> (forall|
            k: int,
            l: int,
        |
            0 <= k < input.len() && 0 <= l < input.len() && #[trigger] input[k] == output[i]
                && #[trigger] input[l] == output[j] ==> k < l),
{
    assert(PeerOrder::LatestFailure.le(output[i], output[j]));
}

/// Sorted by the earliest failure, no peer stands before one that failed earlier, nor before one
/// that failed at the same time and was seen alive later. Never counts as earlier than any time.
/// Of peers with the same times, the one that came first comes first.
pub proof fn law_sorted_by_earliest_failure(
    input: Seq<PeerInfo>,
    output: Seq<PeerInfo>,
    i: int,
    j: int,
)
    requires
        is_stable_sort(PeerOrder::EarliestFailure, input, output),
        0 <= i < j < output.len(),
    ensures
        output[i].last_failure_millis is Some ==> output[j].last_failure_millis is Some
            && output[i].last_failure_millis->0 <= output[j].last_failure_millis->0,
        output[i].last_failure_millis == output[j].last_failure_millis
            && output[j].last_alive_millis is Some ==> output[i].last_alive_millis is Some
            && output[j].last_alive_millis->0 <= output[i].last_alive_millis->0,
        output[i].last_alive_millis == output[j].last_alive_millis
            && output[i].last_failure_millis == output[j].last_failure_millis ==> (forall|
            k: int,
            l: int,
        |
            0 <= k < input.len() && 0 <= l < input.len() && #[trigger] input[k] == output[i]
                && #[trigger] input[l] == output[j] ==> k < l),
{
    assert(PeerOrder::EarliestFailure.le(output[i], output[j]));
}

/// A number of milliseconds that fits is its own timestamp, and timestamps start over at zero when
/// they are used up. Only a clock before the epoch has none.
pub proof fn law_timestamps(millis: u128, rounds: u64, rest: u64)
    requires
        millis == rounds * 0x1_0000_0000_0000_0000 + rest,
    ensures
        spec_timestamp(Some(millis)) == Ok::<u64, CommunicationError>(rest),
        spec_low_bits(millis) == rest,
        spec_timestamp(None) == Err::<u64, CommunicationError>(CommunicationError::TimeError),
{
    assert(millis % 0x1_0000_0000_0000_0000 == rest) by (nonlinear_arith)
        requires
            millis == rounds * 0x1_0000_0000_0000_0000 + rest,
            rest < 0x1_0000_0000_0000_0000,
    ;
}

/// What the clock is said to show is the number of milliseconds since the epoch of one of its
/// readings, as far as it fits, or the error for a reading before the epoch.
pub proof fn law_clock_readings(now: Result<u64, CommunicationError>) -> (time: SystemTime)
    requires
        is_clock_reading(now),
    ensures
        now == timestamp_at(time),
        match since_epoch(time) {
            Some(elapsed) => now is Ok && (whole_millis(elapsed) <= u64::MAX ==> now->Ok_0
                == whole_millis(elapsed)) && (whole_millis(elapsed) - now->Ok_0)
                % 0x1_0000_0000_0000_0000 == 0,
            None => now == Err::<u64, CommunicationError>(CommunicationError::TimeError),
        },
{
    let time = choose|time: SystemTime| now == #[trigger] timestamp_at(time);
    if let Some(elapsed) = since_epoch(time) {
        let millis = whole_millis(elapsed);
        assert((millis - millis % 0x1_0000_0000_0000_0000) % 0x1_0000_0000_0000_0000 == 0);
    }
    time
}

} // verus!
