use std::time::Duration;

use peer_database::config::NetworkConfig;
use peer_database::error::CommunicationError;
use peer_database::ip::{Address, IpAddr};
use peer_database::peer_info::PeerInfo;
use peer_database::peer_info_database::PeerInfoDatabase;

fn global(bits: u32) -> IpAddr {
    IpAddr {
        address: Address::V4(bits),
        global: true,
    }
}

fn local(bits: u32) -> IpAddr {
    IpAddr {
        address: Address::V4(bits),
        global: false,
    }
}

fn config() -> NetworkConfig {
    NetworkConfig {
        routable_ip: Some(global(100)),
        wakeup_interval: Duration::from_millis(10_000),
        target_out_connections: 10,
        max_in_connections: 5,
        max_in_connections_per_ip: 2,
        max_out_connnection_attempts: 15,
        max_idle_peers: 3,
        max_banned_peers: 3,
        max_advertise_length: 5,
    }
}

fn idle(bits: u32) -> PeerInfo {
    PeerInfo::unknown(global(bits), true)
}

fn peer(db: &PeerInfoDatabase, ip: &IpAddr) -> Option<PeerInfo> {
    db.peers().into_iter().find(|p| p.ip == *ip)
}

const NO_TIME: Result<u64, CommunicationError> = Err(CommunicationError::TimeError);

#[test]
fn attempts_are_refused() {
    let mut db = PeerInfoDatabase::new(&config(), &vec![idle(1)]);
    assert_eq!(
        db.new_out_connection_attempt(&local(1)),
        Err(CommunicationError::TargetIpIsNotGLobal(local(1)))
    );
    assert_eq!(
        db.new_out_connection_attempt(&global(2)),
        Err(CommunicationError::PeerInfoNotFoundError(global(2)))
    );
    let cfg = NetworkConfig { max_out_connnection_attempts: 0, ..config() };
    let mut full = PeerInfoDatabase::new(&cfg, &vec![idle(1)]);
    assert_eq!(
        full.new_out_connection_attempt(&global(2)),
        Err(CommunicationError::ToManyConnectionAttempt(global(2)))
    );
    assert_eq!(db.peers(), vec![idle(1)]);
    assert_eq!(db.take_dump_request(), None);
}

#[test]
fn an_attempt_that_fails() {
    let mut db = PeerInfoDatabase::new(&config(), &vec![idle(1), idle(2)]);
    assert_eq!(
        db.out_connection_attempt_failed_at(&global(1), Ok(5)),
        Err(CommunicationError::ToManyConnectionFailure(global(1)))
    );
    assert_eq!(db.new_out_connection_attempt(&global(1)), Ok(()));
    assert_eq!(db.take_dump_request(), None);
    assert_eq!(
        db.out_connection_attempt_failed_at(&global(2), Ok(5)),
        Err(CommunicationError::ToManyConnectionFailure(global(2)))
    );
    assert_eq!(
        db.out_connection_attempt_failed_at(&global(3), Ok(5)),
        Err(CommunicationError::PeerInfoNotFoundError(global(3)))
    );
    assert_eq!(db.out_connection_attempt_failed_at(&global(1), Ok(5)), Ok(()));
    let failed = PeerInfo { last_failure_millis: Some(5), ..idle(1) };
    assert_eq!(peer(&db, &global(1)), Some(failed));
    assert_eq!(db.get_available_out_connection_attempts(), 10);
    assert!(db.take_dump_request().is_some());
}

#[test]
fn an_attempt_that_fails_while_the_clock_does() {
    let mut db = PeerInfoDatabase::new(&config(), &vec![idle(1)]);
    db.new_out_connection_attempt(&global(1)).unwrap();
    assert_eq!(
        db.out_connection_attempt_failed_at(&global(1), NO_TIME),
        Err(CommunicationError::TimeError)
    );
    // the attempt is over
    assert_eq!(peer(&db, &global(1)), Some(idle(1)));
    assert_eq!(db.get_available_out_connection_attempts(), 10);
    assert_eq!(db.take_dump_request(), None);
}

#[test]
fn a_peer_that_fails_can_be_dropped() {
    // nothing but the attempt keeps the peer
    let cfg = NetworkConfig { max_idle_peers: 1, ..config() };
    let mut db = PeerInfoDatabase::new(&cfg, &vec![idle(1)]);
    db.new_out_connection_attempt(&global(1)).unwrap();
    db.merge_candidate_peers(&vec![global(2)]).unwrap();
    assert_eq!(db.peers().len(), 2);
    db.out_connection_attempt_failed_at(&global(1), Ok(5)).unwrap();
    assert_eq!(db.peers(), vec![idle(2)]);
}

#[test]
fn an_attempt_that_succeeds_and_closes() {
    let quiet = PeerInfo { advertised: false, bootstrap: true, ..idle(1) };
    let mut db = PeerInfoDatabase::new(&config(), &vec![quiet, idle(2)]);
    assert_eq!(
        db.try_out_connection_attempt_success(&global(1)),
        Err(CommunicationError::ToManyConnectionAttempt(global(1)))
    );
    assert_eq!(
        db.out_connection_closed(&global(1)),
        Err(CommunicationError::ToManyActiveConnectionClosed(global(1)))
    );
    db.new_out_connection_attempt(&global(1)).unwrap();
    assert_eq!(
        db.try_out_connection_attempt_success(&global(2)),
        Err(CommunicationError::ToManyConnectionAttempt(global(2)))
    );
    assert_eq!(
        db.try_out_connection_attempt_success(&global(3)),
        Err(CommunicationError::PeerInfoNotFoundError(global(3)))
    );
    // the clock does not matter for a peer that is not banned
    assert_eq!(db.try_out_connection_attempt_success_at(&global(1), NO_TIME), Ok(true));
    assert!(db.take_dump_request().is_some());
    let connected = PeerInfo { advertised: true, active_out_connections: 1, ..quiet };
    assert_eq!(peer(&db, &global(1)), Some(connected));
    assert_eq!(db.get_available_out_connection_attempts(), 9);
    assert_eq!(
        db.out_connection_closed(&global(2)),
        Err(CommunicationError::ToManyActiveConnectionClosed(global(2)))
    );
    assert_eq!(
        db.out_connection_closed(&global(3)),
        Err(CommunicationError::PeerInfoNotFoundError(global(3)))
    );
    assert_eq!(db.out_connection_closed(&global(1)), Ok(()));
    assert_eq!(peer(&db, &global(1)), Some(PeerInfo { advertised: true, ..quiet }));
    assert_eq!(db.get_available_out_connection_attempts(), 10);
    // a bootstrap peer causes neither a cleanup nor a dump
    assert_eq!(db.take_dump_request(), None);
}

#[test]
fn closing_the_last_connection_cleans_up() {
    let mut db = PeerInfoDatabase::new(&config(), &vec![idle(1)]);
    db.new_out_connection_attempt(&global(1)).unwrap();
    db.try_out_connection_attempt_success(&global(1)).unwrap();
    db.take_dump_request();
    assert_eq!(db.out_connection_closed(&global(1)), Ok(()));
    assert_eq!(db.take_dump_request(), Some(vec![idle(1)]));
}

#[test]
fn a_success_with_a_peer_banned_in_the_meantime() {
    let mut db = PeerInfoDatabase::new(&config(), &vec![idle(1)]);
    db.new_out_connection_attempt(&global(1)).unwrap();
    assert_eq!(db.peer_banned_at(&global(1), Ok(4)), Ok(()));
    db.take_dump_request();
    assert_eq!(db.try_out_connection_attempt_success_at(&global(1), Ok(6)), Ok(false));
    let refused = PeerInfo { banned: true, last_failure_millis: Some(6), ..idle(1) };
    assert_eq!(db.take_dump_request(), Some(vec![refused]));
    assert_eq!(db.get_available_out_connection_attempts(), 10);
    // and while the clock fails
    db.new_out_connection_attempt(&global(1)).unwrap();
    assert_eq!(
        db.try_out_connection_attempt_success_at(&global(1), NO_TIME),
        Err(CommunicationError::TimeError)
    );
    assert_eq!(db.peers(), vec![refused]);
    assert_eq!(db.get_available_out_connection_attempts(), 10);
    assert_eq!(db.take_dump_request(), None);
}

#[test]
fn incoming_connections() {
    let mut db = PeerInfoDatabase::new(&config(), &vec![idle(1)]);
    assert_eq!(
        db.in_connection_closed(&global(1)),
        Err(CommunicationError::ToManyActiveConnectionClosed(global(1)))
    );
    assert_eq!(db.try_new_in_connection(&local(2)), Ok(false));
    assert_eq!(db.try_new_in_connection(&global(100)), Ok(false));
    assert_eq!(db.take_dump_request(), None);
    // an unknown peer is created, not advertised
    assert_eq!(db.try_new_in_connection_at(&global(2), NO_TIME), Ok(true));
    assert!(db.take_dump_request().is_some());
    let created = PeerInfo {
        active_in_connections: 1,
        ..PeerInfo::unknown(global(2), false)
    };
    assert_eq!(peer(&db, &global(2)), Some(created));
    assert_eq!(db.try_new_in_connection(&global(2)), Ok(true));
    // no more from one address
    assert_eq!(db.try_new_in_connection(&global(2)), Ok(false));
    assert!(db.take_dump_request().is_some());
    assert_eq!(db.try_new_in_connection(&global(1)), Ok(true));
    assert_eq!(db.try_new_in_connection(&global(1)), Ok(true));
    assert_eq!(db.try_new_in_connection(&global(3)), Ok(true));
    // no more in all
    db.take_dump_request();
    assert_eq!(db.try_new_in_connection(&global(4)), Ok(false));
    assert_eq!(db.take_dump_request(), None);
    assert_eq!(peer(&db, &global(4)), None);
    // closing
    assert_eq!(
        db.in_connection_closed(&global(4)),
        Err(CommunicationError::PeerInfoNotFoundError(global(4)))
    );
    assert_eq!(db.in_connection_closed(&global(2)), Ok(()));
    assert_eq!(db.take_dump_request(), None);
    assert_eq!(db.in_connection_closed(&global(2)), Ok(()));
    assert!(db.take_dump_request().is_some());
    // it was not advertised, so it is gone
    assert_eq!(peer(&db, &global(2)), None);
    assert_eq!(db.in_connection_closed(&global(1)), Ok(()));
    assert_eq!(db.in_connection_closed(&global(1)), Ok(()));
    assert_eq!(peer(&db, &global(1)), Some(idle(1)));
    assert_eq!(
        db.in_connection_closed(&global(1)),
        Err(CommunicationError::ToManyActiveConnectionClosed(global(1)))
    );
    assert_eq!(db.in_connection_closed(&global(3)), Ok(()));
    assert_eq!(db.peers(), vec![idle(1)]);
}

#[test]
fn no_incoming_connection_per_address() {
    let cfg = NetworkConfig { max_in_connections_per_ip: 0, ..config() };
    let mut db = PeerInfoDatabase::new(&cfg, &vec![]);
    assert_eq!(db.try_new_in_connection(&global(1)), Ok(false));
    assert_eq!(db.peers(), vec![]);
}

#[test]
fn banned_peers_cannot_connect() {
    let banned = PeerInfo { banned: true, ..idle(1) };
    let mut db = PeerInfoDatabase::new(&config(), &vec![banned]);
    assert_eq!(
        db.try_new_in_connection_at(&global(1), NO_TIME),
        Err(CommunicationError::TimeError)
    );
    assert_eq!(db.peers(), vec![banned]);
    assert_eq!(db.take_dump_request(), None);
    assert_eq!(db.try_new_in_connection_at(&global(1), Ok(8)), Ok(false));
    let refused = PeerInfo { last_failure_millis: Some(8), ..banned };
    assert_eq!(db.take_dump_request(), Some(vec![refused]));
}

#[test]
fn signs_of_life_and_failures() {
    let mut db = PeerInfoDatabase::new(&config(), &vec![idle(1)]);
    assert_eq!(
        db.peer_alive(&global(2)),
        Err(CommunicationError::PeerInfoNotFoundError(global(2)))
    );
    assert_eq!(
        db.peer_failed(&global(2)),
        Err(CommunicationError::PeerInfoNotFoundError(global(2)))
    );
    // the clock is read first
    assert_eq!(db.peer_alive_at(&global(2), NO_TIME), Err(CommunicationError::TimeError));
    assert_eq!(db.peer_failed_at(&global(2), NO_TIME), Err(CommunicationError::TimeError));
    assert_eq!(db.take_dump_request(), None);
    assert_eq!(db.peer_alive_at(&global(1), Ok(3)), Ok(()));
    let alive = PeerInfo { last_alive_millis: Some(3), ..idle(1) };
    assert_eq!(db.take_dump_request(), Some(vec![alive]));
    assert_eq!(db.peer_failed_at(&global(1), Ok(4)), Ok(()));
    let failed = PeerInfo { last_failure_millis: Some(4), ..alive };
    assert_eq!(db.take_dump_request(), Some(vec![failed]));
    assert_eq!(db.peer_alive(&global(1)), Ok(()));
    assert!(db.peers()[0].last_alive_millis.unwrap() > 1_577_836_800_000);
}

#[test]
fn banning() {
    let mut db = PeerInfoDatabase::new(&config(), &vec![idle(1)]);
    assert_eq!(
        db.peer_banned_at(&global(2), NO_TIME),
        Err(CommunicationError::PeerInfoNotFoundError(global(2)))
    );
    assert_eq!(db.peer_banned_at(&global(1), NO_TIME), Err(CommunicationError::TimeError));
    assert_eq!(db.peers(), vec![idle(1)]);
    assert_eq!(db.take_dump_request(), None);
    assert_eq!(db.peer_banned_at(&global(1), Ok(5)), Ok(()));
    let banned = PeerInfo { banned: true, last_failure_millis: Some(5), ..idle(1) };
    assert_eq!(db.take_dump_request(), Some(vec![banned]));
    assert_eq!(db.get_out_connection_candidate_ips_at(Ok(1_000_000)), Ok(vec![]));
    assert_eq!(db.get_advertisable_peer_ips(), vec![global(100)]);
    // once more
    assert_eq!(db.peer_banned_at(&global(1), Ok(6)), Ok(()));
    let again = PeerInfo { last_failure_millis: Some(6), ..banned };
    assert_eq!(db.take_dump_request(), Some(vec![again]));
}

#[test]
fn banning_cleans_up_unless_the_peer_is_active() {
    let cfg = NetworkConfig { max_banned_peers: 0, ..config() };
    let mut db = PeerInfoDatabase::new(&cfg, &vec![idle(1), idle(2)]);
    db.new_out_connection_attempt(&global(2)).unwrap();
    db.peer_banned_at(&global(1), Ok(5)).unwrap();
    assert_eq!(peer(&db, &global(1)), None);
    db.peer_banned_at(&global(2), Ok(5)).unwrap();
    assert!(peer(&db, &global(2)).unwrap().banned);
    db.out_connection_attempt_failed_at(&global(2), Ok(6)).unwrap();
    assert_eq!(db.peers(), vec![]);
}

#[test]
fn banning_cleans_up_what_a_failing_clock_left_behind() {
    // a peer that only the attempt kept stays when the clock fails
    let cfg = NetworkConfig { max_idle_peers: 1, ..config() };
    let boot = PeerInfo { bootstrap: true, ..idle(3) };
    let mut db = PeerInfoDatabase::new(&cfg, &vec![idle(1), boot]);
    db.new_out_connection_attempt(&global(1)).unwrap();
    db.merge_candidate_peers(&vec![global(2)]).unwrap();
    assert_eq!(
        db.out_connection_attempt_failed_at(&global(1), NO_TIME),
        Err(CommunicationError::TimeError)
    );
    assert_eq!(db.peers().len(), 3);
    db.peer_banned_at(&global(3), Ok(9)).unwrap();
    assert_eq!(db.peers().len(), 2);
}

#[test]
fn merging_announced_peers() {
    let mut db = PeerInfoDatabase::new(&config(), &vec![idle(1)]);
    assert_eq!(db.merge_candidate_peers(&vec![]), Ok(()));
    assert_eq!(db.take_dump_request(), None);
    let announced = vec![global(2), global(2), local(3), global(100), global(1), global(4)];
    assert_eq!(db.merge_candidate_peers(&announced), Ok(()));
    let mut dumped = db.take_dump_request().unwrap();
    dumped.sort_by_key(|p| p.ip.address == Address::V4(2));
    assert_eq!(dumped[2], idle(2));
    assert_eq!(dumped.len(), 3);
    assert_eq!(peer(&db, &global(4)), Some(idle(4)));
    assert_eq!(peer(&db, &global(100)), None);
    assert_eq!(peer(&db, &local(3)), None);
    assert_eq!(db.take_dump_request(), None);
}
