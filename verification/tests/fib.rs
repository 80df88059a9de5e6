//! The forwarding table: learning, lookup, bulk eviction.

use blair_switch::fib::Fib;
use blair_switch::network::frame::Mac;

fn mac(last: u8) -> Mac {
    Mac::new(0, 1, 2, 3, 4, last)
}

#[test]
fn learn_then_lookup_returns_the_port() {
    let mut fib = Fib::new();
    fib.learn(10, &mac(1), 3);
    assert_eq!(fib.lookup(10, &mac(1)), Some(3));
}

#[test]
fn lookup_misses_unlearned_keys() {
    let mut fib = Fib::new();
    fib.learn(10, &mac(1), 3);
    assert_eq!(fib.lookup(10, &mac(2)), None);
    assert_eq!(fib.lookup(11, &mac(1)), None);
    assert_eq!(fib.lookup(0, &mac(1)), None);
}

#[test]
fn second_learn_overwrites_last_wins() {
    let mut fib = Fib::new();
    fib.learn(10, &mac(1), 3);
    fib.learn(10, &mac(1), 7);
    assert_eq!(fib.lookup(10, &mac(1)), Some(7));
}

#[test]
fn relearning_same_port_is_idempotent() {
    let mut fib = Fib::new();
    fib.learn(10, &mac(1), 3);
    fib.learn(10, &mac(1), 3);
    assert_eq!(fib.lookup(10, &mac(1)), Some(3));
}

#[test]
fn remove_port_entries_clears_only_that_port() {
    let mut fib = Fib::new();
    fib.learn(10, &mac(1), 3);
    fib.learn(20, &mac(2), 3);
    fib.learn(10, &mac(3), 5);
    fib.remove_port_entries(3);
    assert_eq!(fib.lookup(10, &mac(1)), None);
    assert_eq!(fib.lookup(20, &mac(2)), None);
    assert_eq!(fib.lookup(10, &mac(3)), Some(5));
}

#[test]
fn learn_during_removal_of_other_port_is_kept() {
    let mut fib = Fib::new();
    fib.learn(10, &mac(1), 3);
    fib.remove_port_entries(3);
    fib.learn(10, &mac(2), 4);
    assert_eq!(fib.lookup(10, &mac(2)), Some(4));
    assert_eq!(fib.lookup(10, &mac(1)), None);
}

#[test]
fn remove_port_vlan_entries_is_vlan_exact() {
    let mut fib = Fib::new();
    fib.learn(10, &mac(1), 3);
    fib.learn(20, &mac(2), 3);
    fib.learn(10, &mac(4), 6);
    fib.remove_port_vlan_entries(3, 10);
    assert_eq!(fib.lookup(10, &mac(1)), None);
    assert_eq!(fib.lookup(20, &mac(2)), Some(3));
    assert_eq!(fib.lookup(10, &mac(4)), Some(6));
}

#[test]
fn same_mac_on_two_vlans_is_two_entries() {
    let mut fib = Fib::new();
    fib.learn(10, &mac(1), 3);
    fib.learn(20, &mac(1), 4);
    assert_eq!(fib.lookup(10, &mac(1)), Some(3));
    assert_eq!(fib.lookup(20, &mac(1)), Some(4));
}

#[test]
fn moved_binding_survives_old_owner_purge() {
    let mut fib = Fib::new();
    fib.learn(10, &mac(1), 3);
    fib.learn(10, &mac(1), 4); // the station moved from port 3 to 4
    fib.remove_port_entries(3);
    assert_eq!(fib.lookup(10, &mac(1)), Some(4));
}
