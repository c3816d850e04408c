use std::time::Duration;

use peer_database::config::NetworkConfig;
use peer_database::ip::{Address, IpAddr};
use peer_database::peer_info::{PeerClass, PeerInfo};
use peer_database::peer_info_database::PeerInfoDatabase;

fn global(bits: u32) -> IpAddr {
    IpAddr {
        address: Address::V4(bits),
        global: true,
    }
}

fn config() -> NetworkConfig {
    NetworkConfig {
        routable_ip: Some(global(0)),
        wakeup_interval: Duration::from_millis(3),
        target_out_connections: 3,
        max_in_connections: 3,
        max_in_connections_per_ip: 2,
        max_out_connnection_attempts: 2,
        max_idle_peers: 3,
        max_banned_peers: 2,
        max_advertise_length: 4,
    }
}

fn count(peers: &[PeerInfo], class: PeerClass) -> usize {
    peers.iter().filter(|p| p.class() == class).count()
}

/// Long sequences of operations keep to the limits, and leave nothing to clean up.
#[test]
fn long_histories_keep_to_the_limits() {
    let cfg = config();
    let boot = PeerInfo { bootstrap: true, ..PeerInfo::unknown(global(1), true) };
    for seed in 1u64..40 {
        let mut db = PeerInfoDatabase::new(&cfg, &vec![boot]);
        let mut random: u64 = seed;
        for now in 0u64..300 {
            random = random
                .wrapping_mul(6_364_136_223_846_793_005)
                .wrapping_add(1_442_695_040_888_963_407);
            let ip = global((random >> 40) as u32 % 8);
            let before = db.peers();
            let refused = match (random >> 33) % 11 {
                0 => db.new_out_connection_attempt(&ip).is_err(),
                1 => db.merge_candidate_peers(&vec![ip, global(5), ip]).is_err(),
                2 => db.peer_alive_at(&ip, Ok(now)).is_err(),
                3 => db.peer_failed_at(&ip, Ok(now)).is_err(),
                4 => db.peer_banned_at(&ip, Ok(now)).is_err(),
                5 => db.out_connection_closed(&ip).is_err(),
                6 => db.in_connection_closed(&ip).is_err(),
                7 => db.try_out_connection_attempt_success_at(&ip, Ok(now)).is_err(),
                8 => db.out_connection_attempt_failed_at(&ip, Ok(now)).is_err(),
                9 => db.try_new_in_connection_at(&ip, Ok(now)).is_err(),
                _ => {
                    for candidate in db.get_out_connection_candidate_ips_at(Ok(now)).unwrap() {
                        assert_eq!(db.new_out_connection_attempt(&candidate), Ok(()));
                    }
                    false
                }
            };
            let peers = db.peers();
            if refused {
                assert_eq!(peers, before);
            }
            let attempts: usize = peers.iter().map(|p| p.active_out_connection_attempts).sum();
            let outgoing: usize = peers.iter().map(|p| p.active_out_connections).sum();
            let incoming: usize = peers.iter().map(|p| p.active_in_connections).sum();
            assert!(attempts + outgoing <= cfg.target_out_connections);
            assert!(attempts <= cfg.max_out_connnection_attempts);
            assert!(incoming <= cfg.max_in_connections);
            assert!(peers
                .iter()
                .all(|p| p.active_in_connections <= cfg.max_in_connections_per_ip));
            assert_eq!(
                db.get_available_out_connection_attempts(),
                std::cmp::min(
                    cfg.target_out_connections - attempts - outgoing,
                    cfg.max_out_connnection_attempts - attempts
                )
            );
            assert!(count(&peers, PeerClass::Idle) <= cfg.max_idle_peers);
            assert!(count(&peers, PeerClass::Banned) <= cfg.max_banned_peers);
            assert_eq!(count(&peers, PeerClass::Dropped), 0);
            assert!(peers.iter().any(|p| p.ip == boot.ip));
            assert!(peers.iter().all(|p| p.ip != global(0)));
            // whoever was banned and is still known is banned
            for old in before.iter().filter(|p| p.banned) {
                if let Some(new) = peers.iter().find(|p| p.ip == old.ip) {
                    assert!(new.banned);
                }
            }
            // what is told to others
            let told = db.get_advertisable_peer_ips();
            assert_eq!(told[0], global(0));
            assert!(told.len() <= cfg.max_advertise_length);
            for (i, ip) in told.iter().enumerate() {
                assert!(!told[..i].contains(ip));
                assert!(peers.iter().all(|p| p.ip != *ip || (p.advertised && !p.banned)));
            }
            // what has changed is dumped
            let lasting = |peers: &[PeerInfo]| -> Vec<PeerInfo> {
                let mut saved: Vec<PeerInfo> = peers
                    .iter()
                    .filter(|p| p.banned || p.advertised || p.bootstrap)
                    .map(|p| p.restored())
                    .collect();
                saved.sort_by_key(|p| match p.ip.address {
                    Address::V4(bits) => bits as u128,
                    Address::V6(bits) => bits,
                });
                saved
            };
            let dumped = db.take_dump_request();
            if lasting(&before) != lasting(&peers) {
                assert!(dumped.is_some());
            }
        }
    }
}
