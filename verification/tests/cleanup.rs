use std::time::Duration;

use peer_database::cleanup::cleanup_peers;
use peer_database::config::NetworkConfig;
use peer_database::ip::{Address, IpAddr};
use peer_database::peer_info::{PeerClass, PeerInfo};
use peer_database::peer_table::PeerTable;

fn global(bits: u32) -> IpAddr {
    IpAddr {
        address: Address::V4(bits),
        global: true,
    }
}

fn local(bits: u32) -> IpAddr {
    IpAddr {
        address: Address::V4(bits),
        global: false,
    }
}

fn config() -> NetworkConfig {
    NetworkConfig {
        routable_ip: Some(global(100)),
        wakeup_interval: Duration::from_millis(10_000),
        target_out_connections: 10,
        max_in_connections: 5,
        max_in_connections_per_ip: 2,
        max_out_connnection_attempts: 15,
        max_idle_peers: 3,
        max_banned_peers: 3,
        max_advertise_length: 5,
    }
}

fn idle(bits: u32, alive: Option<u64>, failure: Option<u64>) -> PeerInfo {
    PeerInfo {
        last_alive_millis: alive,
        last_failure_millis: failure,
        ..PeerInfo::unknown(global(bits), true)
    }
}

fn banned(bits: u32, alive: Option<u64>, failure: Option<u64>) -> PeerInfo {
    PeerInfo {
        banned: true,
        ..idle(bits, alive, failure)
    }
}

/// The records after a cleanup, by address.
fn clean(
    cfg: &NetworkConfig,
    records: &Vec<PeerInfo>,
    new_peers: Option<&Vec<IpAddr>>,
) -> Vec<PeerInfo> {
    let mut table = PeerTable::from_records(records);
    cleanup_peers(cfg, &mut table, new_peers);
    let mut after = table.records();
    after.sort_by_key(|p| match p.ip.address {
        Address::V4(bits) => bits as u128,
        Address::V6(bits) => bits,
    });
    after
}

fn addresses(records: &[PeerInfo]) -> Vec<IpAddr> {
    records.iter().map(|p| p.ip).collect()
}

#[test]
fn peers_are_classified() {
    let known = PeerInfo::unknown(global(1), false);
    assert_eq!(known.class(), PeerClass::Dropped);
    assert_eq!(idle(1, None, None).class(), PeerClass::Idle);
    assert_eq!(banned(1, None, None).class(), PeerClass::Banned);
    assert_eq!(PeerInfo { bootstrap: true, ..banned(1, None, None) }.class(), PeerClass::Kept);
    assert_eq!(PeerInfo { active_in_connections: 1, ..known }.class(), PeerClass::Kept);
}

#[test]
fn peers_that_are_not_admitted_go() {
    let boot = PeerInfo { bootstrap: true, ..idle(1, None, None) };
    let records = vec![
        boot,
        PeerInfo { ip: local(2), ..boot },
        PeerInfo { ip: global(100), ..boot },
    ];
    assert_eq!(clean(&config(), &records, None), vec![boot]);
    let without_own = NetworkConfig { routable_ip: None, ..config() };
    assert_eq!(addresses(&clean(&without_own, &records, None)), vec![global(1), global(100)]);
}

#[test]
fn only_limited_classes_are_clipped() {
    let cfg = NetworkConfig { max_idle_peers: 0, max_banned_peers: 0, ..config() };
    let boot = PeerInfo { bootstrap: true, ..idle(1, None, None) };
    let active = PeerInfo { active_in_connections: 1, ..banned(2, None, None) };
    let records = vec![boot, active, idle(3, Some(5), None), banned(4, None, Some(5))];
    assert_eq!(clean(&cfg, &records, None), vec![boot, active]);
}

#[test]
fn peers_that_are_not_advertised_go() {
    let quiet = PeerInfo::unknown(global(1), false);
    assert_eq!(clean(&config(), &vec![quiet, idle(2, None, None)], None), vec![idle(2, None, None)]);
}

#[test]
fn idle_peers_seen_alive_last_stay() {
    let records = vec![
        idle(1, None, None),
        idle(2, Some(10), Some(3)),
        idle(3, Some(10), Some(1)),
        idle(4, Some(30), Some(40)),
        idle(5, Some(10), None),
    ];
    let after = clean(&config(), &records, None);
    assert_eq!(after, vec![records[2], records[3], records[4]]);
}

#[test]
fn banned_peers_that_failed_last_stay() {
    let records = vec![
        banned(1, None, None),
        banned(2, Some(7), Some(20)),
        banned(3, None, Some(20)),
        banned(4, Some(1), Some(50)),
        banned(5, Some(6), Some(20)),
    ];
    let after = clean(&config(), &records, None);
    assert_eq!(after, vec![records[2], records[3], records[4]]);
}

#[test]
fn announced_peers_are_added_once() {
    let new_peers = vec![global(7), global(8), global(7), global(8), global(7)];
    let after = clean(&config(), &vec![], Some(&new_peers));
    assert_eq!(after, vec![idle(7, None, None), idle(8, None, None)]);
}

#[test]
fn repetitions_do_not_count_against_the_length() {
    let cfg = NetworkConfig { max_advertise_length: 2, ..config() };
    let new_peers = vec![global(7), global(7), global(7), global(8), global(9)];
    let after = clean(&cfg, &vec![], Some(&new_peers));
    assert_eq!(addresses(&after), vec![global(7), global(8)]);
}

#[test]
fn addresses_that_are_not_admitted_count_against_the_length() {
    let cfg = NetworkConfig { max_advertise_length: 3, ..config() };
    let new_peers = vec![local(7), global(100), global(8), global(9)];
    let after = clean(&cfg, &vec![], Some(&new_peers));
    assert_eq!(addresses(&after), vec![global(8)]);
}

#[test]
fn announced_peers_stay_in_order_behind_known_ones() {
    // all rank equally: the known one stays, and those announced first
    let new_peers = vec![global(9), global(3), global(7), global(5)];
    let after = clean(&config(), &vec![idle(20, None, None)], Some(&new_peers));
    assert_eq!(addresses(&after), vec![global(3), global(9), global(20)]);
    // a known peer that failed ranks behind new ones
    let failed = idle(20, None, Some(1));
    let after = clean(&config(), &vec![failed], Some(&new_peers));
    assert_eq!(addresses(&after), vec![global(3), global(7), global(9)]);
    // one that was seen alive ranks before them
    let alive = idle(20, Some(1), Some(1));
    let after = clean(&config(), &vec![alive], Some(&new_peers));
    assert_eq!(addresses(&after), vec![global(3), global(9), global(20)]);
}

#[test]
fn known_peers_become_advertised_when_announced() {
    let quiet = PeerInfo {
        active_in_connections: 1,
        ..PeerInfo::unknown(global(1), false)
    };
    let after = clean(&config(), &vec![quiet], Some(&vec![global(1)]));
    assert_eq!(after, vec![PeerInfo { advertised: true, ..quiet }]);
    // beyond the length nothing is taken in
    let cfg = NetworkConfig { max_advertise_length: 0, ..config() };
    let after = clean(&cfg, &vec![quiet], Some(&vec![global(1), global(2)]));
    assert_eq!(after, vec![quiet]);
}

#[test]
fn addresses_of_both_families_are_told_apart() {
    let v6 = IpAddr {
        address: Address::V6(7),
        global: true,
    };
    let new_peers = vec![global(7), v6, global(7), v6];
    let after = clean(&config(), &vec![], Some(&new_peers));
    assert_eq!(after.len(), 2);
    assert!(addresses(&after).contains(&v6));
    assert!(addresses(&after).contains(&global(7)));
}

#[test]
fn a_second_cleanup_changes_nothing() {
    let records = vec![
        idle(1, None, None),
        idle(2, Some(10), Some(3)),
        idle(3, Some(10), Some(1)),
        idle(4, Some(30), Some(40)),
        banned(5, None, None),
        PeerInfo { bootstrap: true, ..banned(6, None, None) },
        PeerInfo::unknown(global(7), false),
    ];
    let once = clean(&config(), &records, None);
    assert_eq!(addresses(&once), vec![global(2), global(3), global(4), global(5), global(6)]);
    assert_eq!(clean(&config(), &once, None), once);
}
