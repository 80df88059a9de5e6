//! The shell's textual renderings.

use blair_switch::network::frame::{Frame, Mac};
use blair_switch::network::interface::IntfCmd;
use blair_switch::render::{mac_to_string, u64_to_string};
use blair_switch::Switch;

#[test]
fn decimal_rendering() {
    assert_eq!(u64_to_string(0), "0".to_string());
    assert_eq!(u64_to_string(7), "7".to_string());
    assert_eq!(u64_to_string(10), "10".to_string());
    assert_eq!(u64_to_string(40950), "40950".to_string());
    assert_eq!(u64_to_string(u64::MAX), "18446744073709551615".to_string());
}

#[test]
fn mac_rendering() {
    let m = Mac::new(0x01, 0x23, 0xAB, 0x00, 0xFF, 0x5C);
    assert_eq!(mac_to_string(&m), "01:23:AB:00:FF:5C".to_string());
}

#[test]
fn port_status_rendering() {
    let ns = vec!["eth0".to_string(), "eth1".to_string()];
    let mut sw = Switch::build(&ns);
    sw.apply_command(0, &IntfCmd::PortAccessVlan(10)).unwrap();
    sw.apply_no_shutdown(0, true);
    let text = sw.port_status_string(0, 3, 4, 300, 400, false);
    assert_eq!(
        text,
        "eth0\n----------\nStatus: running\nMode: access vlan 10\nIn Pkts: 3 Out Pkts: 4\nIn bytes: 300, Out bytes: 400\nDebug Mode: false".to_string()
    );

    sw.apply_command(1, &IntfCmd::PortModeTrunk).unwrap();
    sw.apply_command(1, &IntfCmd::PortTrunkAddVlans(vec![10, 20])).unwrap();
    let text = sw.port_status_string(1, 0, 0, 0, 0, true);
    assert_eq!(
        text,
        "eth1\n----------\nStatus: shutdown\nMode: trunk vlans 10 20\nIn Pkts: 0 Out Pkts: 0\nIn bytes: 0, Out bytes: 0\nDebug Mode: true".to_string()
    );

    sw.apply_command(1, &IntfCmd::PortModeMonitoring("eth0".to_string())).unwrap();
    let text = sw.port_status_string(1, 0, 0, 0, 0, false);
    assert!(text.contains("Mode: monitoring eth0"));
}

#[test]
fn fib_rendering_lists_entries() {
    let ns = vec!["eth0".to_string(), "eth1".to_string()];
    let mut sw = Switch::build(&ns);
    sw.apply_command(0, &IntfCmd::PortAccessVlan(10)).unwrap();
    sw.apply_no_shutdown(0, true);
    assert_eq!(sw.fib_string(), "".to_string());

    let frame = Frame {
        dst_mac: Mac::new(0xFF, 0xFF, 0xFF, 0xFF, 0xFF, 0xFF),
        src_mac: Mac::new(0x02, 0x00, 0x00, 0x00, 0x00, 0x2A),
        tag: None,
        ether_type: 0x0800,
        data: vec![],
    };
    sw.forward_frame(0, &frame);
    assert_eq!(sw.fib_string(), "(10, 02:00:00:00:00:2A) eth0\n".to_string());
}
