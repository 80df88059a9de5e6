//! The switch fabric: configuration commands and the forwarding
//! pipeline.

use blair_switch::network::frame::{Frame, Mac, Tag};
use blair_switch::network::interface::IntfCmd;
use blair_switch::{Switch, SwitchError};

fn mac(last: u8) -> Mac {
    Mac::new(0x02, 0, 0, 0, 0, last)
}

fn broadcast() -> Mac {
    Mac::new(0xFF, 0xFF, 0xFF, 0xFF, 0xFF, 0xFF)
}

fn untagged(src: Mac, dst: Mac) -> Frame {
    Frame { dst_mac: dst, src_mac: src, tag: None, ether_type: 0x0800, data: vec![1, 2, 3] }
}

fn tagged(src: Mac, dst: Mac, vlan: u16) -> Frame {
    Frame {
        dst_mac: dst,
        src_mac: src,
        tag: Some(Tag { tpid: 0x8100, tci: vlan }),
        ether_type: 0x0800,
        data: vec![1, 2, 3],
    }
}

fn names(list: &[&str]) -> Vec<String> {
    list.iter().map(|s| s.to_string()).collect()
}

/// Three access ports, the first two on one VLAN: a broadcast from the
/// first reaches exactly the second, untagged; the reply is unicast
/// back and reaches only the first.
#[test]
fn access_broadcast_then_learned_unicast() {
    let ns = names(&["A", "B", "C"]);
    let mut sw = Switch::build(&ns);
    sw.apply_command(0, &IntfCmd::PortAccessVlan(10)).unwrap();
    sw.apply_command(1, &IntfCmd::PortAccessVlan(10)).unwrap();
    sw.apply_command(2, &IntfCmd::PortAccessVlan(20)).unwrap();
    for p in 0..3 {
        sw.apply_no_shutdown(p, true);
    }

    let m1 = mac(1);
    let m2 = mac(2);
    let frame = untagged(m1, broadcast());
    let out = sw.forward_frame(0, &frame);
    assert_eq!(out.len(), 1);
    assert_eq!(out[0].0, 1); // only B receives
    assert_eq!(out[0].1.to_bytes(), frame.to_bytes()); // tag stripped back off

    // B replies to m1: learned, so unicast to A only.
    let reply = untagged(m2, m1);
    let out = sw.forward_frame(1, &reply);
    assert_eq!(out.len(), 1);
    assert_eq!(out[0].0, 0);
    assert_eq!(out[0].1.to_bytes(), reply.to_bytes());

    // The table now binds (10, m1) to A.
    assert_eq!(sw.lookup(10, &m1), Some(0));
}

/// A broadcast is flooded even when the broadcast address was
/// (wrongly) learned as a unicast destination.
#[test]
fn broadcast_is_never_unicast() {
    let ns = names(&["A", "B", "C"]);
    let mut sw = Switch::build(&ns);
    for p in 0..3 {
        sw.apply_command(p, &IntfCmd::PortAccessVlan(10)).unwrap();
        sw.apply_no_shutdown(p, true);
    }
    // A frame whose source is the broadcast address plants a table
    // entry for it on port 2.
    let odd = untagged(broadcast(), mac(9));
    sw.forward_frame(2, &odd);
    assert_eq!(sw.lookup(10, &broadcast()), Some(2));

    let frame = untagged(mac(1), broadcast());
    let out = sw.forward_frame(0, &frame);
    let dests: Vec<usize> = out.iter().map(|p| p.0).collect();
    assert_eq!(dests, vec![1, 2]); // flooded to both others, not unicast
}

/// A tagged frame arriving on an access port is dropped.
#[test]
fn access_port_drops_tagged_ingress() {
    let ns = names(&["A", "B"]);
    let mut sw = Switch::build(&ns);
    sw.apply_command(0, &IntfCmd::PortAccessVlan(10)).unwrap();
    sw.apply_command(1, &IntfCmd::PortAccessVlan(10)).unwrap();
    sw.apply_no_shutdown(0, true);
    sw.apply_no_shutdown(1, true);
    let out = sw.forward_frame(0, &tagged(mac(1), broadcast(), 10));
    assert_eq!(out.len(), 0);
    assert_eq!(sw.lookup(10, &mac(1)), None); // dropped before learning
}

/// A trunk port drops a VLAN off its allow-set and accepts the very
/// same frame once the VLAN is added.
#[test]
fn trunk_allow_set_filters_then_admits() {
    let ns = names(&["A", "B"]);
    let mut sw = Switch::build(&ns);
    sw.apply_command(0, &IntfCmd::PortModeTrunk).unwrap();
    sw.apply_command(0, &IntfCmd::PortTrunkAddVlans(vec![20])).unwrap();
    sw.apply_command(1, &IntfCmd::PortAccessVlan(10)).unwrap();
    sw.apply_no_shutdown(0, true);
    sw.apply_no_shutdown(1, true);

    let frame = tagged(mac(1), broadcast(), 10);
    let out = sw.forward_frame(0, &frame);
    assert_eq!(out.len(), 0); // vlan 10 not allowed on the trunk

    sw.apply_command(0, &IntfCmd::PortTrunkAddVlans(vec![10])).unwrap();
    let out = sw.forward_frame(0, &frame);
    assert_eq!(out.len(), 1); // accepted now: flooded to B, untagged
    assert_eq!(out[0].0, 1);
    assert_eq!(out[0].1.to_bytes(), untagged(mac(1), broadcast()).to_bytes());
}

/// An untagged frame is dropped at trunk ingress.
#[test]
fn trunk_port_drops_untagged_ingress() {
    let ns = names(&["A", "B"]);
    let mut sw = Switch::build(&ns);
    sw.apply_command(0, &IntfCmd::PortModeTrunk).unwrap();
    sw.apply_command(0, &IntfCmd::PortTrunkAddVlans(vec![10])).unwrap();
    sw.apply_no_shutdown(0, true);
    let out = sw.forward_frame(0, &untagged(mac(1), broadcast()));
    assert_eq!(out.len(), 0);
}

/// A monitoring port receives a copy of whatever its target actually
/// transmits, whatever the monitor's own VLAN configuration was.
#[test]
fn monitor_receives_copies_of_target_egress() {
    let ns = names(&["A", "B", "D"]);
    let mut sw = Switch::build(&ns);
    sw.apply_command(0, &IntfCmd::PortAccessVlan(10)).unwrap();
    sw.apply_command(1, &IntfCmd::PortAccessVlan(10)).unwrap();
    sw.apply_command(2, &IntfCmd::PortAccessVlan(20)).unwrap();
    sw.apply_command(2, &IntfCmd::PortModeMonitoring("A".to_string())).unwrap();
    for p in 0..3 {
        sw.apply_no_shutdown(p, true);
    }

    // B floods towards A; the copy sent out of A is mirrored to D.
    let frame = untagged(mac(2), broadcast());
    let out = sw.forward_frame(1, &frame);
    assert_eq!(out.len(), 2);
    assert_eq!(out[0].0, 0); // the real transmission out of A
    assert_eq!(out[1].0, 2); // the mirror copy to D
    assert_eq!(out[1].1.to_bytes(), out[0].1.to_bytes()); // identical frame
}

/// A monitoring port neither sources traffic nor counts as a flood
/// target.
#[test]
fn monitor_is_excluded_from_forwarding() {
    let ns = names(&["A", "B", "D"]);
    let mut sw = Switch::build(&ns);
    sw.apply_command(0, &IntfCmd::PortAccessVlan(10)).unwrap();
    sw.apply_command(1, &IntfCmd::PortAccessVlan(10)).unwrap();
    sw.apply_command(2, &IntfCmd::PortModeMonitoring("B".to_string())).unwrap();
    for p in 0..3 {
        sw.apply_no_shutdown(p, true);
    }
    // D injects nothing.
    let out = sw.forward_frame(2, &untagged(mac(3), broadcast()));
    assert_eq!(out.len(), 0);
    // A's flood goes to B (mirrored to D), never to D as a plain target.
    let out = sw.forward_frame(0, &untagged(mac(1), broadcast()));
    assert_eq!(out.len(), 2);
    assert_eq!(out[0].0, 1);
    assert_eq!(out[1].0, 2);
}

/// Removing a VLAN from a trunk purges exactly that VLAN's entries of
/// the port.
#[test]
fn trunk_vlan_removal_purges_exactly_that_vlan() {
    let ns = names(&["A", "B"]);
    let mut sw = Switch::build(&ns);
    sw.apply_command(0, &IntfCmd::PortModeTrunk).unwrap();
    sw.apply_command(0, &IntfCmd::PortTrunkAddVlans(vec![10, 20])).unwrap();
    sw.apply_no_shutdown(0, true);

    let m1 = mac(1);
    let m2 = mac(2);
    sw.forward_frame(0, &tagged(m1, broadcast(), 10));
    sw.forward_frame(0, &tagged(m2, broadcast(), 20));
    assert_eq!(sw.lookup(10, &m1), Some(0));
    assert_eq!(sw.lookup(20, &m2), Some(0));

    sw.apply_command(0, &IntfCmd::PortTrunkRemoveVlans(vec![10])).unwrap();
    assert_eq!(sw.lookup(10, &m1), None);
    assert_eq!(sw.lookup(20, &m2), Some(0));

    // And the trunk no longer admits vlan 10.
    let out = sw.forward_frame(0, &tagged(m1, broadcast(), 10));
    assert_eq!(out.len(), 0);
}

/// Shutting a port down purges everything it had learned.
#[test]
fn shutdown_purges_learned_entries() {
    let ns = names(&["A", "B"]);
    let mut sw = Switch::build(&ns);
    sw.apply_command(0, &IntfCmd::PortAccessVlan(10)).unwrap();
    sw.apply_command(1, &IntfCmd::PortAccessVlan(10)).unwrap();
    sw.apply_no_shutdown(0, true);
    sw.apply_no_shutdown(1, true);
    sw.forward_frame(0, &untagged(mac(1), broadcast()));
    assert_eq!(sw.lookup(10, &mac(1)), Some(0));
    sw.apply_command(0, &IntfCmd::Shutdown).unwrap();
    assert_eq!(sw.lookup(10, &mac(1)), None);
    // A down port is no flood target.
    let out = sw.forward_frame(1, &untagged(mac(2), broadcast()));
    assert_eq!(out.len(), 0);
}

/// Changing the access VLAN purges entries keyed by the old VLAN.
#[test]
fn access_vlan_change_purges_entries() {
    let ns = names(&["A", "B"]);
    let mut sw = Switch::build(&ns);
    sw.apply_command(0, &IntfCmd::PortAccessVlan(10)).unwrap();
    sw.apply_no_shutdown(0, true);
    sw.forward_frame(0, &untagged(mac(1), broadcast()));
    assert_eq!(sw.lookup(10, &mac(1)), Some(0));
    sw.apply_command(0, &IntfCmd::PortAccessVlan(30)).unwrap();
    assert_eq!(sw.lookup(10, &mac(1)), None);
}

#[test]
fn invalid_vlan_is_rejected_unchanged() {
    let ns = names(&["A"]);
    let mut sw = Switch::build(&ns);
    assert_eq!(sw.apply_command(0, &IntfCmd::PortAccessVlan(0)), Err(SwitchError::InvalidVlan));
    assert_eq!(sw.apply_command(0, &IntfCmd::PortAccessVlan(4096)), Err(SwitchError::InvalidVlan));
    sw.apply_command(0, &IntfCmd::PortModeTrunk).unwrap();
    assert_eq!(
        sw.apply_command(0, &IntfCmd::PortTrunkAddVlans(vec![10, 0])),
        Err(SwitchError::InvalidVlan)
    );
}

#[test]
fn trunk_commands_rejected_off_trunk_mode() {
    let ns = names(&["A"]);
    let mut sw = Switch::build(&ns);
    assert_eq!(
        sw.apply_command(0, &IntfCmd::PortTrunkAddVlans(vec![10])),
        Err(SwitchError::NotTrunk)
    );
    assert_eq!(
        sw.apply_command(0, &IntfCmd::PortTrunkRemoveVlans(vec![10])),
        Err(SwitchError::NotTrunk)
    );
}

#[test]
fn monitoring_unknown_target_is_rejected() {
    let ns = names(&["A"]);
    let mut sw = Switch::build(&ns);
    assert_eq!(
        sw.apply_command(0, &IntfCmd::PortModeMonitoring("Z".to_string())),
        Err(SwitchError::NoSuchPort)
    );
}

#[test]
fn failed_reopen_leaves_port_down() {
    let ns = names(&["A", "B"]);
    let mut sw = Switch::build(&ns);
    sw.apply_command(0, &IntfCmd::PortAccessVlan(10)).unwrap();
    sw.apply_command(1, &IntfCmd::PortAccessVlan(10)).unwrap();
    sw.apply_no_shutdown(0, true);
    sw.apply_no_shutdown(1, false); // reopen failed: B stays down
    let out = sw.forward_frame(0, &untagged(mac(1), broadcast()));
    assert_eq!(out.len(), 0);
}

#[test]
fn find_port_resolves_names() {
    let ns = names(&["eth0", "eth1"]);
    let sw = Switch::build(&ns);
    assert_eq!(sw.find_port(&"eth0".to_string()), Some(0));
    assert_eq!(sw.find_port(&"eth1".to_string()), Some(1));
    assert_eq!(sw.find_port(&"eth2".to_string()), None);
}

/// Leaving monitoring mode tears the session down: the old target's
/// traffic is no longer mirrored.
#[test]
fn leaving_monitoring_stops_mirroring() {
    let ns = names(&["A", "B", "D"]);
    let mut sw = Switch::build(&ns);
    sw.apply_command(0, &IntfCmd::PortAccessVlan(10)).unwrap();
    sw.apply_command(1, &IntfCmd::PortAccessVlan(10)).unwrap();
    sw.apply_command(2, &IntfCmd::PortModeMonitoring("A".to_string())).unwrap();
    sw.apply_command(2, &IntfCmd::PortModeAccess).unwrap();
    sw.apply_command(2, &IntfCmd::PortAccessVlan(20)).unwrap();
    for p in 0..3 {
        sw.apply_no_shutdown(p, true);
    }
    let out = sw.forward_frame(1, &untagged(mac(2), broadcast()));
    assert_eq!(out.len(), 1);
    assert_eq!(out[0].0, 0); // only the real egress, no mirror copy
}

/// Retargeting a monitor tears the old session down and mirrors the
/// new target instead.
#[test]
fn monitor_retarget_moves_the_session() {
    let ns = names(&["A", "B", "D"]);
    let mut sw = Switch::build(&ns);
    sw.apply_command(0, &IntfCmd::PortAccessVlan(10)).unwrap();
    sw.apply_command(1, &IntfCmd::PortAccessVlan(10)).unwrap();
    sw.apply_command(2, &IntfCmd::PortModeMonitoring("A".to_string())).unwrap();
    sw.apply_command(2, &IntfCmd::PortModeMonitoring("B".to_string())).unwrap();
    for p in 0..3 {
        sw.apply_no_shutdown(p, true);
    }
    // Egress out of A is no longer mirrored; egress out of B is.
    let out = sw.forward_frame(1, &untagged(mac(2), broadcast())); // to A
    assert_eq!(out.iter().map(|p| p.0).collect::<Vec<_>>(), vec![0]);
    let out = sw.forward_frame(0, &untagged(mac(1), broadcast())); // to B
    assert_eq!(out.iter().map(|p| p.0).collect::<Vec<_>>(), vec![1, 2]);
}

/// Between two trunk ports the tag crosses unchanged.
#[test]
fn trunk_to_trunk_keeps_the_tag() {
    let ns = names(&["A", "B"]);
    let mut sw = Switch::build(&ns);
    for p in 0..2 {
        sw.apply_command(p, &IntfCmd::PortModeTrunk).unwrap();
        sw.apply_command(p, &IntfCmd::PortTrunkAddVlans(vec![10])).unwrap();
        sw.apply_no_shutdown(p, true);
    }
    let frame = tagged(mac(1), broadcast(), 10);
    let out = sw.forward_frame(0, &frame);
    assert_eq!(out.len(), 1);
    assert_eq!(out[0].0, 1);
    assert_eq!(out[0].1.to_bytes(), frame.to_bytes()); // tag kept as-is
}
