use std::time::Duration;

use peer_database::config::NetworkConfig;
use peer_database::ip::{Address, IpAddr};
use peer_database::peer_info::PeerInfo;
use peer_database::peer_info_database::PeerInfoDatabase;
use peer_database::saver::{PeerSaver, SaverAction, SaverEvent};

fn global(bits: u32) -> IpAddr {
    IpAddr {
        address: Address::V4(bits),
        global: true,
    }
}

fn config() -> NetworkConfig {
    NetworkConfig {
        routable_ip: None,
        wakeup_interval: Duration::from_millis(10_000),
        target_out_connections: 10,
        max_in_connections: 5,
        max_in_connections_per_ip: 2,
        max_out_connnection_attempts: 15,
        max_idle_peers: 3,
        max_banned_peers: 3,
        max_advertise_length: 5,
    }
}

fn idle(bits: u32) -> PeerInfo {
    PeerInfo::unknown(global(bits), true)
}

fn by_address(mut records: Vec<PeerInfo>) -> Vec<PeerInfo> {
    records.sort_by_key(|p| match p.ip.address {
        Address::V4(bits) => bits as u128,
        Address::V6(bits) => bits,
    });
    records
}

#[test]
fn loading_forgets_connections_and_cleans_up() {
    let connected = PeerInfo {
        active_out_connection_attempts: 1,
        active_out_connections: 2,
        active_in_connections: 3,
        ..idle(1)
    };
    let quiet = PeerInfo { advertised: false, active_in_connections: 1, ..idle(2) };
    let db = PeerInfoDatabase::new(&config(), &vec![connected, quiet]);
    assert_eq!(db.peers(), vec![idle(1)]);
    assert_eq!(db.get_available_out_connection_attempts(), 10);
}

#[test]
fn the_last_record_of_a_file_counts() {
    let banned = PeerInfo { banned: true, ..idle(1) };
    let db = PeerInfoDatabase::new(&config(), &vec![idle(1), banned]);
    assert_eq!(db.peers(), vec![banned]);
}

#[test]
fn stopping_returns_what_is_saved() {
    let banned = PeerInfo { banned: true, advertised: false, ..idle(1) };
    let boot = PeerInfo { bootstrap: true, advertised: false, ..idle(2) };
    let mut db = PeerInfoDatabase::new(&config(), &vec![banned, boot, idle(3)]);
    assert_eq!(db.try_new_in_connection(&global(4)), Ok(true));
    assert_eq!(db.peers().len(), 4);
    assert_eq!(by_address(db.stop()), vec![banned, boot, idle(3)]);
}

#[test]
fn what_is_saved_comes_back() {
    let saved = vec![
        PeerInfo { banned: true, last_failure_millis: Some(3), ..idle(1) },
        PeerInfo { bootstrap: true, ..idle(2) },
        PeerInfo { last_alive_millis: Some(7), ..idle(3) },
    ];
    let db = PeerInfoDatabase::new(&config(), &saved);
    let again = PeerInfoDatabase::new(&config(), &db.stop());
    assert_eq!(by_address(again.peers()), saved);
}

#[test]
fn changes_are_dumped() {
    let mut db = PeerInfoDatabase::new(&config(), &vec![idle(1)]);
    assert_eq!(db.take_dump_request(), None);
    db.peer_alive_at(&global(1), Ok(5)).unwrap();
    let alive = PeerInfo { last_alive_millis: Some(5), ..idle(1) };
    assert_eq!(db.take_dump_request(), Some(vec![alive]));
    assert_eq!(db.take_dump_request(), None);
}

#[test]
fn a_change_is_written_at_once_if_the_delay_is_over() {
    let quiet = PeerInfo { advertised: false, active_in_connections: 1, ..idle(2) };
    let mut saver = PeerSaver::new();
    let event = SaverEvent::Changed {
        peers: vec![idle(1), quiet],
        delay_elapsed: true,
    };
    match saver.step(event) {
        SaverAction::Dump(records) => assert_eq!(records, vec![idle(1)]),
        other => panic!("{:?}", other),
    }
    assert!(matches!(
        saver.step(SaverEvent::Dumped { succeeded: true }),
        SaverAction::RestartDelay
    ));
    // nothing is left to write
    assert!(matches!(saver.step(SaverEvent::DelayElapsed), SaverAction::Wait));
    assert!(matches!(saver.step(SaverEvent::Closed), SaverAction::Stop));
}

#[test]
fn a_change_waits_for_the_delay() {
    let mut saver = PeerSaver::new();
    for bits in 1..4 {
        let event = SaverEvent::Changed {
            peers: vec![idle(bits)],
            delay_elapsed: false,
        };
        assert!(matches!(saver.step(event), SaverAction::Wait));
    }
    // only the latest change is written
    match saver.step(SaverEvent::DelayElapsed) {
        SaverAction::Dump(records) => assert_eq!(records, vec![idle(3)]),
        other => panic!("{:?}", other),
    }
    assert!(matches!(
        saver.step(SaverEvent::Dumped { succeeded: true }),
        SaverAction::Wait
    ));
    assert!(matches!(saver.step(SaverEvent::DelayElapsed), SaverAction::Wait));
}

#[test]
fn what_could_not_be_written_is_kept() {
    let mut saver = PeerSaver::new();
    let event = SaverEvent::Changed {
        peers: vec![idle(1)],
        delay_elapsed: true,
    };
    assert!(matches!(saver.step(event), SaverAction::Dump(_)));
    assert!(matches!(
        saver.step(SaverEvent::Dumped { succeeded: false }),
        SaverAction::RestartDelay
    ));
    for _ in 0..2 {
        match saver.step(SaverEvent::DelayElapsed) {
            SaverAction::Dump(records) => assert_eq!(records, vec![idle(1)]),
            other => panic!("{:?}", other),
        }
        assert!(matches!(
            saver.step(SaverEvent::Dumped { succeeded: false }),
            SaverAction::Wait
        ));
    }
}
