use std::time::Duration;

use peer_database::config::NetworkConfig;
use peer_database::error::CommunicationError;
use peer_database::ip::{Address, IpAddr};
use peer_database::order::{sort_peers, PeerOrder};
use peer_database::peer_info::PeerInfo;
use peer_database::peer_info_database::PeerInfoDatabase;

fn global(bits: u32) -> IpAddr {
    IpAddr {
        address: Address::V4(bits),
        global: true,
    }
}

fn config() -> NetworkConfig {
    NetworkConfig {
        routable_ip: None,
        wakeup_interval: Duration::from_millis(10_000),
        target_out_connections: 10,
        max_in_connections: 5,
        max_in_connections_per_ip: 2,
        max_out_connnection_attempts: 15,
        max_idle_peers: 20,
        max_banned_peers: 20,
        max_advertise_length: 20,
    }
}

fn idle(bits: u32, alive: Option<u64>, failure: Option<u64>) -> PeerInfo {
    PeerInfo {
        last_alive_millis: alive,
        last_failure_millis: failure,
        ..PeerInfo::unknown(global(bits), true)
    }
}

#[test]
fn orders_rank_peers() {
    let peers = vec![
        idle(1, None, None),
        idle(2, Some(5), Some(7)),
        idle(3, Some(5), None),
        idle(4, Some(9), Some(7)),
        idle(5, None, Some(2)),
    ];
    let order = |order: PeerOrder| -> Vec<PeerInfo> { sort_peers(&peers, order) };
    assert_eq!(
        order(PeerOrder::LatestAlive),
        vec![peers[3], peers[2], peers[1], peers[0], peers[4]]
    );
    assert_eq!(
        order(PeerOrder::LatestFailure),
        vec![peers[1], peers[3], peers[4], peers[0], peers[2]]
    );
    assert_eq!(
        order(PeerOrder::EarliestFailure),
        vec![peers[2], peers[0], peers[4], peers[3], peers[1]]
    );
}

#[test]
fn sorting_is_stable() {
    let peers: Vec<PeerInfo> = vec![5, 3, 9, 1, 7].into_iter().map(|b| idle(b, None, None)).collect();
    assert_eq!(sort_peers(&peers, PeerOrder::LatestAlive), peers);
}

#[test]
fn available_attempts() {
    let saved = vec![idle(1, None, None), idle(2, None, None), idle(3, None, None)];
    let cfg = NetworkConfig {
        target_out_connections: 4,
        max_out_connnection_attempts: 2,
        ..config()
    };
    let mut db = PeerInfoDatabase::new(&cfg, &saved);
    assert_eq!(db.get_available_out_connection_attempts(), 2);
    db.new_out_connection_attempt(&global(1)).unwrap();
    assert_eq!(db.get_available_out_connection_attempts(), 1);
    db.new_out_connection_attempt(&global(2)).unwrap();
    assert_eq!(db.get_available_out_connection_attempts(), 0);
    assert_eq!(
        db.new_out_connection_attempt(&global(3)),
        Err(CommunicationError::ToManyConnectionAttempt(global(3)))
    );
    assert_eq!(db.try_out_connection_attempt_success(&global(1)), Ok(true));
    assert_eq!(db.get_available_out_connection_attempts(), 1);
    assert_eq!(db.try_out_connection_attempt_success(&global(2)), Ok(true));
    assert_eq!(db.get_available_out_connection_attempts(), 2);
    db.new_out_connection_attempt(&global(3)).unwrap();
    db.new_out_connection_attempt(&global(3)).unwrap();
    assert_eq!(db.get_available_out_connection_attempts(), 0);
    assert_eq!(db.out_connection_closed(&global(1)), Ok(()));
    assert_eq!(db.get_available_out_connection_attempts(), 0);
    assert_eq!(db.out_connection_attempt_failed_at(&global(3), Ok(1)), Ok(()));
    assert_eq!(db.get_available_out_connection_attempts(), 1);
}

#[test]
fn candidates_by_failure_and_then_by_life() {
    let saved = vec![
        idle(1, Some(1), Some(50)),
        idle(2, Some(5), None),
        idle(3, Some(9), None),
        idle(4, None, None),
        idle(5, Some(60), Some(50)),
    ];
    let db = PeerInfoDatabase::new(&config(), &saved);
    assert_eq!(
        db.get_out_connection_candidate_ips_at(Ok(1_000_000)),
        Ok(vec![global(3), global(2), global(4), global(5), global(1)])
    );
    // no more than there are slots
    let cfg = NetworkConfig { target_out_connections: 2, ..config() };
    let db = PeerInfoDatabase::new(&cfg, &saved);
    assert_eq!(
        db.get_out_connection_candidate_ips_at(Ok(1_000_000)),
        Ok(vec![global(3), global(2)])
    );
    // without slots the clock does not matter
    let cfg = NetworkConfig { target_out_connections: 0, ..config() };
    let db = PeerInfoDatabase::new(&cfg, &saved);
    assert_eq!(
        db.get_out_connection_candidate_ips_at(Err(CommunicationError::TimeError)),
        Ok(vec![])
    );
}

#[test]
fn candidates_need_the_clock() {
    let db = PeerInfoDatabase::new(&config(), &vec![idle(1, None, None)]);
    assert_eq!(
        db.get_out_connection_candidate_ips_at(Err(CommunicationError::TimeError)),
        Err(CommunicationError::TimeError)
    );
    assert_eq!(db.get_out_connection_candidate_ips(), Ok(vec![global(1)]));
}

#[test]
fn failed_peers_are_left_alone_for_the_wakeup_interval() {
    let saved = vec![
        idle(1, None, Some(1_000)),
        idle(2, Some(1_000), Some(1_000)),
        idle(3, Some(1_001), Some(1_000)),
    ];
    let db = PeerInfoDatabase::new(&config(), &saved);
    assert_eq!(
        db.get_out_connection_candidate_ips_at(Ok(11_000)),
        Ok(vec![global(3)])
    );
    assert_eq!(
        db.get_out_connection_candidate_ips_at(Ok(11_001)),
        Ok(vec![global(3), global(2), global(1)])
    );
}

#[test]
fn the_wakeup_interval_is_in_whole_milliseconds() {
    let saved = vec![idle(1, None, Some(1_000))];
    let cfg = NetworkConfig {
        wakeup_interval: Duration::from_micros(2_999),
        ..config()
    };
    let db = PeerInfoDatabase::new(&cfg, &saved);
    assert_eq!(db.get_out_connection_candidate_ips_at(Ok(1_002)), Ok(vec![]));
    assert_eq!(db.get_out_connection_candidate_ips_at(Ok(1_003)), Ok(vec![global(1)]));
    // only its low bits count
    let db = PeerInfoDatabase::with_wakeup_millis(&cfg, (1u128 << 64) + 7, &saved);
    assert_eq!(db.get_out_connection_candidate_ips_at(Ok(1_007)), Ok(vec![]));
    assert_eq!(db.get_out_connection_candidate_ips_at(Ok(1_008)), Ok(vec![global(1)]));
}

#[test]
fn a_wakeup_beyond_all_times_never_comes() {
    let saved = vec![idle(1, None, Some(u64::MAX - 5))];
    let db = PeerInfoDatabase::new(&config(), &saved);
    assert_eq!(db.get_out_connection_candidate_ips_at(Ok(u64::MAX)), Ok(vec![]));
}

#[test]
fn active_banned_and_quiet_peers_are_no_candidates() {
    let saved = vec![
        idle(1, None, None),
        PeerInfo { banned: true, ..idle(2, None, None) },
        PeerInfo { bootstrap: true, advertised: false, ..idle(3, None, None) },
        idle(4, None, None),
    ];
    let mut db = PeerInfoDatabase::new(&config(), &saved);
    db.new_out_connection_attempt(&global(1)).unwrap();
    assert_eq!(db.get_out_connection_candidate_ips_at(Ok(0)), Ok(vec![global(4)]));
}

#[test]
fn all_candidates_can_be_tried() {
    let saved = vec![idle(1, None, None), idle(2, None, None), idle(3, None, None)];
    let cfg = NetworkConfig { target_out_connections: 2, ..config() };
    let mut db = PeerInfoDatabase::new(&cfg, &saved);
    let candidates = db.get_out_connection_candidate_ips_at(Ok(0)).unwrap();
    assert_eq!(candidates.len(), 2);
    for ip in &candidates {
        assert_eq!(db.new_out_connection_attempt(ip), Ok(()));
    }
    assert_eq!(db.get_available_out_connection_attempts(), 0);
}

#[test]
fn told_addresses_by_failure_and_then_by_life() {
    let saved = vec![
        idle(1, Some(1), Some(50)),
        idle(2, Some(5), None),
        idle(3, Some(9), None),
        PeerInfo { banned: true, ..idle(4, None, None) },
        PeerInfo { bootstrap: true, advertised: false, ..idle(5, None, None) },
    ];
    let mut db = PeerInfoDatabase::new(&config(), &saved);
    assert_eq!(db.get_advertisable_peer_ips(), vec![global(3), global(2), global(1)]);
    // active peers are told as well
    db.new_out_connection_attempt(&global(2)).unwrap();
    assert_eq!(db.get_advertisable_peer_ips(), vec![global(3), global(2), global(1)]);
    let cfg = NetworkConfig { max_advertise_length: 2, ..config() };
    let db = PeerInfoDatabase::new(&cfg, &saved);
    assert_eq!(db.get_advertisable_peer_ips(), vec![global(3), global(2)]);
}

#[test]
fn our_own_address_is_told_first() {
    let saved = vec![idle(1, Some(1), None), idle(2, Some(5), None)];
    let own = IpAddr {
        address: Address::V4(0x7f00_0001),
        global: false,
    };
    let cfg = NetworkConfig { routable_ip: Some(own), ..config() };
    let db = PeerInfoDatabase::new(&cfg, &saved);
    assert_eq!(db.get_advertisable_peer_ips(), vec![own, global(2), global(1)]);
    let cfg = NetworkConfig { max_advertise_length: 2, ..cfg };
    let db = PeerInfoDatabase::new(&cfg, &saved);
    assert_eq!(db.get_advertisable_peer_ips(), vec![own, global(2)]);
    let cfg = NetworkConfig { max_advertise_length: 0, ..cfg };
    let db = PeerInfoDatabase::new(&cfg, &saved);
    assert_eq!(db.get_advertisable_peer_ips(), vec![]);
}
