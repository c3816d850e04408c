use peer_database::clock::now_as_millis;
use peer_database::ip::{Address, IpAddr};
use peer_database::peer_info::PeerInfo;
use peer_database::peer_table::PeerTable;
use rand::Rng;

fn peer_database_example(peers_number: u32) -> PeerTable {
    let mut rng = rand::thread_rng();

    let mut peers = PeerTable::new();
    for i in 0..peers_number {
        let ip: [u8; 4] = [rng.gen(), rng.gen(), rng.gen(), rng.gen()];
        let peer = PeerInfo {
            ip: IpAddr {
                address: Address::V4(u32::from_be_bytes(ip)),
                global: true,
            },
            banned: (ip[0] % 5) == 0,
            bootstrap: (ip[1] % 2) == 0,
            last_alive_millis: match i % 4 {
                0 => None,
                _ => Some(now_as_millis().unwrap() - rng.gen_range(0, 1000000)),
            },
            last_failure_millis: match i % 5 {
                0 => None,
                _ => Some(now_as_millis().unwrap() - rng.gen_range(0, 10000)),
            },
            advertised: (ip[2] % 2) == 0,
            active_out_connection_attempts: 0,
            active_out_connections: 0,
            active_in_connections: 0,
        };
        peers.insert(peer);
    }
    peers
}

#[test]
fn test() {
    let peers = peer_database_example(5);
    let p = peers.records()[0];
    assert_eq!(p.is_active(), false);
}

#[test]
fn any_connection_makes_a_peer_active() {
    let ip = IpAddr {
        address: Address::V4(1),
        global: true,
    };
    let idle = PeerInfo::unknown(ip, true);
    assert!(!idle.is_active());
    assert!(PeerInfo { active_out_connection_attempts: 1, ..idle }.is_active());
    assert!(PeerInfo { active_out_connections: 1, ..idle }.is_active());
    assert!(PeerInfo { active_in_connections: 1, ..idle }.is_active());
}

#[test]
fn the_last_record_for_an_address_counts() {
    let ip = IpAddr {
        address: Address::V4(1),
        global: true,
    };
    let first = PeerInfo::unknown(ip, true);
    let last = PeerInfo { last_alive_millis: Some(9), ..first };
    let table = PeerTable::from_records(&vec![first, last]);
    assert_eq!(table.records(), vec![last]);
    assert_eq!(table.get(&ip), Some(last));
    let other = IpAddr {
        address: Address::V6(1),
        global: true,
    };
    assert_eq!(table.get(&other), None);
}
