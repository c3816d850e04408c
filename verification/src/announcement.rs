use itertools::Itertools;
use vstd::prelude::*;

use crate::config::NetworkConfig;
use crate::ip::{Address, IpAddr};
use crate::selection::min;

verus! {

/// The elements of `s` without those that occurred before.
pub open spec fn first_occurrences<T>(s: Seq<T>) -> Seq<T>
    decreases s.len(),
{
    if s.len() == 0 {
        s
    } else if s.drop_last().contains(s.last()) {
        first_occurrences(s.drop_last())
    } else {
        first_occurrences(s.drop_last()).push(s.last())
    }
}

/// `Itertools::unique`, on pairs of numbers: the first of equal pairs stays, and what stays
/// keeps its order.
#[verifier::external_body]
fn unique_keys(keys: Vec<(u128, u8)>) -> (r: Vec<(u128, u8)>)
    ensures
        r@ == first_occurrences(keys@),
{
    keys.into_iter().unique().collect()
}

/// An address as a pair of numbers: its bits, and a number for its family and classification.
spec fn key_of(ip: IpAddr) -> (u128, u8) {
    match ip.address {
        Address::V4(bits) => (bits as u128, if ip.global { 2u8 } else { 0u8 }),
        Address::V6(bits) => (bits, if ip.global { 3u8 } else { 1u8 }),
    }
}

/// The pair of numbers for an address.
fn to_key(ip: &IpAddr) -> (r: (u128, u8))
    ensures
        r == key_of(*ip),
{
    match ip.address {
        Address::V4(bits) => (bits as u128, if ip.global { 2 } else { 0 }),
        Address::V6(bits) => (bits, if ip.global { 3 } else { 1 }),
    }
}

/// The address for a pair of numbers.
fn from_key(key: &(u128, u8)) -> (r: IpAddr)
    requires
        exists|ip: IpAddr| #[trigger] key_of(ip) == *key,
    ensures
        key_of(r) == *key,
{
    let global = key.1 >= 2;
    if key.1 == 0 || key.1 == 2 {
        IpAddr { address: Address::V4(key.0 as u32), global }
    } else {
        IpAddr { address: Address::V6(key.0), global }
    }
}

/// Different addresses have different pairs of numbers.
proof fn lemma_key_injective(a: IpAddr, b: IpAddr)
    requires
        key_of(a) == key_of(b),
    ensures
        a == b,
{
}

/// Leaving out repetitions commutes with turning addresses into pairs of numbers.
proof fn lemma_first_occurrences_of_keys(ips: Seq<IpAddr>)
    ensures
        first_occurrences(ips.map_values(|ip: IpAddr| key_of(ip))) == first_occurrences(
            ips,
        ).map_values(|ip: IpAddr| key_of(ip)),
    decreases ips.len(),
{
    let f = |ip: IpAddr| key_of(ip);
    if ips.len() == 0 {
        assert(ips.map_values(f) =~= first_occurrences(ips).map_values(f));
    } else {
        let init = ips.drop_last();
        lemma_first_occurrences_of_keys(init);
        assert(ips.map_values(f).drop_last() =~= init.map_values(f));
        assert(init.map_values(f).contains(f(ips.last())) <==> init.contains(ips.last())) by {
            if init.map_values(f).contains(f(ips.last())) {
                let i = choose|i: int|
                    0 <= i < init.len() && init.map_values(f)[i] == f(ips.last());
                lemma_key_injective(init[i], ips.last());
                assert(init[i] == ips.last());
            }
            if init.contains(ips.last()) {
                let i = choose|i: int| 0 <= i < init.len() && init[i] == ips.last();
                assert(init.map_values(f)[i] == f(ips.last()));
            }
        }
        assert(first_occurrences(init).push(ips.last()).map_values(f) =~= first_occurrences(
            init,
        ).map_values(f).push(f(ips.last())));
    }
}

/// What is left without repetitions has none, and holds what was there.
pub proof fn lemma_first_occurrences<T>(s: Seq<T>)
    ensures
        first_occurrences(s).no_duplicates(),
        forall|x: T| #[trigger] first_occurrences(s).contains(x) <==> s.contains(x),
    decreases s.len(),
{
    if s.len() > 0 {
        let init = s.drop_last();
        let shorter = first_occurrences(init);
        let list = first_occurrences(s);
        lemma_first_occurrences(init);
        assert forall|x: T| #[trigger] list.contains(x) <==> s.contains(x) by {
            if list.contains(x) {
                let i = choose|i: int| 0 <= i < list.len() && list[i] == x;
                if i < shorter.len() {
                    assert(shorter[i] == x);
                    assert(shorter.contains(x));
                    let k = choose|k: int| 0 <= k < init.len() && init[k] == x;
                    assert(s[k] == x);
                } else {
                    assert(s[s.len() - 1] == x);
                }
            }
            if s.contains(x) {
                let k = choose|k: int| 0 <= k < s.len() && s[k] == x;
                if k < init.len() {
                    assert(init[k] == x);
                    assert(shorter.contains(x));
                    let i = choose|i: int| 0 <= i < shorter.len() && shorter[i] == x;
                    assert(list[i] == x);
                } else if init.contains(x) {
                    assert(shorter.contains(x));
                } else {
                    assert(list[shorter.len() as int] == x);
                }
            }
        }
        assert(list.no_duplicates()) by {
            if !init.contains(s.last()) {
                assert(!shorter.contains(s.last()));
                assert forall|i: int, j: int|
                    0 <= i < list.len() && 0 <= j < list.len() && i != j implies list[i]
                    != list[j] by {
                    if i < shorter.len() {
                        assert(shorter.contains(shorter[i]));
                    }
                    if j < shorter.len() {
                        assert(shorter.contains(shorter[j]));
                    }
                }
            }
        }
    }
}

/// The addresses without those that occurred before.
pub fn unique_ips(ips: &Vec<IpAddr>) -> (r: Vec<IpAddr>)
    ensures
        r@ == first_occurrences(ips@),
{
    let ghost f = |ip: IpAddr| key_of(ip);
    let mut keys: Vec<(u128, u8)> = Vec::new();
    for i in 0..ips.len()
        invariant
            keys@.len() == i,
            forall|k: int| 0 <= k < i ==> #[trigger] keys@[k] == key_of(ips@[k]),
    {
        keys.push(to_key(&ips[i]));
    }
    proof {
        assert(keys@ =~= ips@.map_values(f));
        lemma_first_occurrences_of_keys(ips@);
    }
    let unique = unique_keys(keys);
    let ghost expected = first_occurrences(ips@);
    let mut result: Vec<IpAddr> = Vec::new();
    for i in 0..unique.len()
        invariant
            unique@.len() == expected.len(),
            forall|k: int|
                0 <= k < expected.len() ==> #[trigger] unique@[k] == key_of(expected[k]),
            result@.len() == i,
            forall|k: int| 0 <= k < i ==> #[trigger] result@[k] == expected[k],
    {
        assert(unique@[i as int] == key_of(expected[i as int]));
        let ip = from_key(&unique[i]);
        proof {
            lemma_key_injective(ip, expected[i as int]);
        }
        result.push(ip);
    }
    assert(result@ =~= expected);
    result
}

/// The addresses of an announcement that are taken in: no repetitions, and no more of them than
/// the configuration allows.
pub open spec fn announced(cfg: NetworkConfig, new_peers: Option<Seq<IpAddr>>) -> Seq<IpAddr> {
    match new_peers {
        Some(ips) => {
            let unique = first_occurrences(ips);
            unique.take(min(cfg.max_advertise_length as nat, unique.len()) as int)
        },
        None => Seq::empty(),
    }
}

/// The list of an optional announcement.
pub open spec fn announcement(new_peers: Option<&Vec<IpAddr>>) -> Option<Seq<IpAddr>> {
    match new_peers {
        Some(ips) => Some(ips@),
        None => None,
    }
}

/// The addresses of an announcement that are taken in.
pub fn announced_ips(cfg: &NetworkConfig, new_peers: Option<&Vec<IpAddr>>) -> (r: Vec<IpAddr>)
    ensures
        r@ == announced(*cfg, announcement(new_peers)),
{
    match new_peers {
        Some(ips) => {
            let mut unique = unique_ips(ips);
            unique.truncate(cfg.max_advertise_length);
            assert(unique@ =~= announced(*cfg, announcement(new_peers)));
            unique
        },
        None => Vec::new(),
    }
}

/// No address is taken in twice.
pub proof fn lemma_announced(cfg: NetworkConfig, new_peers: Option<Seq<IpAddr>>)
    ensures
        announced(cfg, new_peers).no_duplicates(),
{
    if let Some(ips) = new_peers {
        lemma_first_occurrences(ips);
    }
}

} // verus!
