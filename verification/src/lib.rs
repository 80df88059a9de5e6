//! A software Ethernet switch core: frame codec, per-port VLAN state
//! machine, learning/forwarding table and mirror registry, with the
//! forwarding pipeline proved against L2 switching semantics.
//!
//! The fabric owns every port's published state, the forwarding table
//! and the mirror registry; workers call into it with received frames
//! and drained control commands, and send the (port, frame) pairs the
//! forwarding decision hands back.

use vstd::prelude::*;
use dashmap::DashMap;

pub mod network;
pub mod fib;
pub mod cli;
pub mod render;

use crate::network::frame::{Frame, FrameModel};
use crate::network::interface::{IntfCmd, PortMode, PortState, DEFAULT_VLAN};
use crate::network::interface::{allows_vlan_spec, egr_spec, ing_spec};
use crate::network::interface::contains_u16;
use crate::network::frame::{mac_of_val, mac_from_val, Mac};
use crate::render::{dec_digits, mac_chars, push_u64, mac_to_string};
use vstd::string::StringExecFns;
use crate::fib::{Fib, bucket_map, buckets_get, buckets_insert, buckets_remove, buckets_clear};
use crate::fib::{key_mac_val, key_vlan, learn_spec, lookup_spec, without_port, without_port_vlan};
use crate::fib::lemma_push_no_duplicates;

verus! {

/// Why the switch rejected a control command.
#[derive(Clone, Copy, PartialEq, Eq, Structural, Debug)]
pub enum SwitchError {
    /// A VLAN id outside `1..=4095`.
    InvalidVlan,
    /// A trunk allow-set command on a port not in trunk mode.
    NotTrunk,
    /// A monitoring target that names no port of the switch.
    NoSuchPort,
}

/// Whether `ports[p]` is an eligible egress for VLAN `vlan`: a valid,
/// up, non-monitoring port whose mode carries the VLAN.
pub open spec fn port_eligible(ports: Seq<PortState>, p: int, vlan: u16) -> bool {
    &&& 0 <= p < ports.len()
    &&& ports[p].up
    &&& !ports[p].mode.is_monitoring_spec()
    &&& allows_vlan_spec(ports[p].mode, vlan)
}

/// Whether a forwarding-table entry `k -> p` is consistent with the
/// ports: the owner exists, is up, is no monitoring port, and carries
/// the entry's VLAN.  The switch never lets a stale entry survive a
/// reconfiguration that would break this.
pub open spec fn fib_entry_ok(ports: Seq<PortState>, k: u64, p: usize) -> bool {
    &&& p < ports.len()
    &&& ports[p as int].up
    &&& !ports[p as int].mode.is_monitoring_spec()
    &&& allows_vlan_spec(ports[p as int].mode, key_vlan(k) as u16)
}

/// The bucket of a mirror registry for target `t`, or the empty
/// bucket when none is recorded.
pub open spec fn bucket_of(mirrors: Map<u64, Seq<u64>>, t: u64) -> Seq<u64> {
    if mirrors.dom().contains(t) {
        mirrors[t]
    } else {
        Seq::<u64>::empty()
    }
}

/// The mathematical reading of a transmission list: each pair as
/// (destination port, frame model).
pub open spec fn sends_view(s: Seq<(usize, Frame)>) -> Seq<(usize, FrameModel)> {
    s.map_values(|p: (usize, Frame)| (p.0, p.1@))
}

/// Whether the registry records `m` as a monitor of target `t`.
pub open spec fn registry_has(mirrors: Map<u64, Seq<u64>>, t: u64, m: u64) -> bool {
    mirrors.dom().contains(t) && mirrors[t].contains(m)
}

/// No two ports share a name.
pub open spec fn names_unique(names: Seq<String>) -> bool {
    forall|i: int, j: int| 0 <= i < j < names.len() ==> names[i]@ != names[j]@
}

/// The fabric invariant over the switch's views: lengths agree and
/// fit, modes are valid with in-range references, every forwarding
/// entry points at an eligible owner, and the registry buckets exist
/// exactly for the switch's ports and list exactly the monitoring
/// ports, each once, under its target.
pub open spec fn fabric_inv(
    ports: Seq<PortState>,
    names: Seq<String>,
    fib: Map<u64, usize>,
    mirrors: Map<u64, Seq<u64>>,
) -> bool {
    &&& ports.len() <= usize::MAX
    &&& names.len() == ports.len()
    &&& names_unique(names)
    &&& forall|i: int| 0 <= i < ports.len() ==> (#[trigger] ports[i].mode).mode_wf()
    &&& forall|i: int| 0 <= i < ports.len() ==> ((#[trigger] ports[i].mode).is_monitoring_spec()
        ==> ports[i].mode.monitoring_target() < ports.len())
    &&& forall|k: u64| #[trigger] fib.dom().contains(k) ==> fib_entry_ok(ports, k, fib[k])
    &&& forall|t: u64| #[trigger] mirrors.dom().contains(t) <==> t < ports.len()
    &&& forall|t: u64| #[trigger] mirrors.dom().contains(t) ==> mirrors[t].no_duplicates()
    &&& forall|t: u64, m: u64| #[trigger] registry_has(mirrors, t, m) ==> m < ports.len()
        && ports[m as int].mode == (PortMode::Monitoring { target: t as usize })
    &&& forall|i: int| 0 <= i < ports.len() ==> ((#[trigger] ports[i].mode).is_monitoring_spec()
        ==> registry_has(mirrors, ports[i].mode.monitoring_target() as u64, i as u64))
}

/// The fabric invariant with one port mid-reconfiguration: that port
/// sits in no bucket, and its own mode is not yet accounted for.
pub open spec fn fabric_inv_except(
    ports: Seq<PortState>,
    names: Seq<String>,
    fib: Map<u64, usize>,
    mirrors: Map<u64, Seq<u64>>,
    port: usize,
) -> bool {
    &&& ports.len() <= usize::MAX
    &&& names.len() == ports.len()
    &&& names_unique(names)
    &&& forall|i: int| 0 <= i < ports.len() ==> (#[trigger] ports[i].mode).mode_wf()
    &&& forall|i: int| 0 <= i < ports.len() ==> ((#[trigger] ports[i].mode).is_monitoring_spec()
        ==> ports[i].mode.monitoring_target() < ports.len())
    &&& forall|k: u64| #[trigger] fib.dom().contains(k) ==> fib_entry_ok(ports, k, fib[k])
    &&& forall|t: u64| #[trigger] mirrors.dom().contains(t) <==> t < ports.len()
    &&& forall|t: u64| #[trigger] mirrors.dom().contains(t) ==> mirrors[t].no_duplicates()
    &&& forall|t: u64, m: u64| #[trigger] registry_has(mirrors, t, m) ==> m < ports.len() && m
        != port as u64 && ports[m as int].mode == (PortMode::Monitoring { target: t as usize })
    &&& forall|i: int| 0 <= i < ports.len() && i != port as int ==> ((
    #[trigger] ports[i].mode).is_monitoring_spec() ==> registry_has(
        mirrors,
        ports[i].mode.monitoring_target() as u64,
        i as u64,
    ))
}


/// Every VLAN id of the list is in the valid range.
pub open spec fn vlan_list_valid(l: Seq<u16>) -> bool {
    forall|i: int| 0 <= i < l.len() ==> 1 <= #[trigger] l[i] <= 4095
}

/// The registry after a teardown: `port` left every bucket, nothing
/// else moved.
pub open spec fn mirrors_teardown(
    before: Map<u64, Seq<u64>>,
    after: Map<u64, Seq<u64>>,
    port: usize,
) -> bool {
    forall|t: u64, m: u64| #[trigger] registry_has(after, t, m) <==> (registry_has(before, t, m)
        && m != port as u64)
}

/// What evicting a port's entries for a list of VLANs does to the
/// forwarding table.
pub open spec fn without_port_vlans(m: Map<u64, usize>, port: usize, vs: Seq<u16>) -> Map<
    u64,
    usize,
> {
    Map::new(
        |k: u64| m.dom().contains(k) && !(m[k] == port && vs.contains(key_vlan(k) as u16)),
        |k: u64| m[k],
    )
}


/// The copies delivered to the monitors listed in a bucket: each gets
/// the already egress-processed frame, whatever its own mode.
pub open spec fn mirror_copies(bucket: Seq<u64>, g: FrameModel) -> Seq<(usize, FrameModel)> {
    bucket.map(|j: int, m: u64| (m as usize, g))
}

/// Everything transmitted for one forwarding destination: the
/// egress-processed frame to the port itself, then the same frame to
/// each port monitoring it, in registration order.
pub open spec fn egr_bundle(
    ports: Seq<PortState>,
    mirrors: Map<u64, Seq<u64>>,
    p: int,
    f: FrameModel,
) -> Seq<(usize, FrameModel)> {
    seq![(p as usize, egr_spec(ports[p].mode, f))] + mirror_copies(
        bucket_of(mirrors, p as u64),
        egr_spec(ports[p].mode, f),
    )
}

/// Everything a flood of `f` transmits, over ports `0..n`: a bundle
/// for every eligible port but the ingress, in port order.
pub open spec fn flood_out(
    ports: Seq<PortState>,
    mirrors: Map<u64, Seq<u64>>,
    ingress: int,
    f: FrameModel,
    n: int,
) -> Seq<(usize, FrameModel)>
    decreases n,
{
    if n <= 0 {
        Seq::<(usize, FrameModel)>::empty()
    } else {
        flood_out(ports, mirrors, ingress, f, n - 1) + (if n - 1 != ingress && port_eligible(
            ports,
            n - 1,
            f.vlan(),
        ) {
            egr_bundle(ports, mirrors, n - 1, f)
        } else {
            Seq::<(usize, FrameModel)>::empty()
        })
    }
}

/// The whole forwarding decision for an ingress-processed frame:
/// unicast to a learned, eligible owner of the destination, else
/// flood.  A broadcast frame is never unicast.
pub open spec fn forward_out(
    ports: Seq<PortState>,
    mirrors: Map<u64, Seq<u64>>,
    fib: Map<u64, usize>,
    ingress: int,
    f: FrameModel,
) -> Seq<(usize, FrameModel)> {
    match lookup_spec(fib, f.vlan(), f.dst_mac) {
        Some(q) => if !f.is_broadcast() && port_eligible(ports, q as int, f.vlan()) {
            egr_bundle(ports, mirrors, q as int, f)
        } else {
            flood_out(ports, mirrors, ingress, f, ports.len() as int)
        },
        None => flood_out(ports, mirrors, ingress, f, ports.len() as int),
    }
}


/// A trunk allow-set rendered as " v1 v2 ..." in list order.
pub open spec fn vlan_list_chars(vs: Seq<u16>) -> Seq<char>
    decreases vs.len(),
{
    if vs.len() == 0 {
        Seq::<char>::empty()
    } else {
        vlan_list_chars(vs.drop_last()) + " "@ + dec_digits(vs.last() as int)
    }
}

/// A port mode rendered for the shell: its kind and its VLAN, its
/// allow-set, or the name of the port it monitors.
pub open spec fn mode_chars(mode: PortMode, names: Seq<String>) -> Seq<char> {
    match mode {
        PortMode::Access { vlan } => "access vlan "@ + dec_digits(vlan as int),
        PortMode::Trunk { vlans } => "trunk vlans"@ + vlan_list_chars(vlans@),
        PortMode::Monitoring { target } => "monitoring "@ + names[target as int]@,
    }
}

/// One line of the table listing: the key's VLAN and MAC, then the
/// owning port's name.
pub open spec fn fib_line_chars(k: u64, name: Seq<char>) -> Seq<char> {
    "("@ + dec_digits(key_vlan(k) as int) + ", "@ + mac_chars(mac_of_val(key_mac_val(k) as int))
        + ") "@ + name + "\n"@
}

/// The table listing for the given entries, one line each, in their
/// order.
pub open spec fn fib_lines_chars(es: Seq<(u64, usize)>, names: Seq<String>) -> Seq<char>
    decreases es.len(),
{
    if es.len() == 0 {
        Seq::<char>::empty()
    } else {
        fib_lines_chars(es.drop_last(), names) + fib_line_chars(
            es.last().0,
            names[es.last().1 as int]@,
        )
    }
}

/// Whether `es` lists exactly the entries of `m`, each key once.
pub open spec fn fib_listing(m: Map<u64, usize>, es: Seq<(u64, usize)>) -> bool {
    &&& forall|i: int| 0 <= i < es.len() ==> m.contains_pair(#[trigger] es[i].0, es[i].1)
    &&& forall|i: int, j: int| 0 <= i < j < es.len() ==> es[i].0 != es[j].0
    &&& forall|k: u64| #[trigger] m.dom().contains(k) ==> exists|i: int|
        0 <= i < es.len() && es[i].0 == k
}

/// A port's shell rendering: name, status, mode, counters and debug
/// flag, one item a line.
pub open spec fn port_status_chars(
    name: Seq<char>,
    st: PortState,
    names: Seq<String>,
    in_pkts: u64,
    out_pkts: u64,
    in_bytes: u64,
    out_bytes: u64,
    debug: bool,
) -> Seq<char> {
    name + "\n----------\nStatus: "@ + (if st.up {
        "running"@
    } else {
        "shutdown"@
    }) + "\nMode: "@ + mode_chars(st.mode, names) + "\nIn Pkts: "@ + dec_digits(in_pkts as int)
        + " Out Pkts: "@ + dec_digits(out_pkts as int) + "\nIn bytes: "@ + dec_digits(
        in_bytes as int,
    ) + ", Out bytes: "@ + dec_digits(out_bytes as int) + "\nDebug Mode: "@ + (if debug {
        "true"@
    } else {
        "false"@
    })
}

/// The switch fabric: every port's published state and name, the
/// forwarding table, and the mirror registry from a target port to
/// the ports monitoring it.
pub struct Switch {
    ports: Vec<PortState>,
    names: Vec<String>,
    fib: Fib,
    mirrors: DashMap<u64, Vec<u64>>,
}

impl Switch {
    /// The published state of each port, by port index.
    pub closed spec fn ports_view(self) -> Seq<PortState> {
        self.ports@
    }

    /// The forwarding table: packed (VLAN, MAC) key to owning port.
    pub closed spec fn fib_view(self) -> Map<u64, usize> {
        self.fib.entries()
    }

    /// The mirror registry: target port to its monitors, in
    /// registration order.
    pub closed spec fn mirrors_view(self) -> Map<u64, Seq<u64>> {
        bucket_map(self.mirrors)
    }

    /// The name of port `i`.
    pub closed spec fn name_at(self, i: int) -> Seq<char> {
        self.names@[i]@
    }

    /// The port names, by port index.
    pub closed spec fn names_view(self) -> Seq<String> {
        self.names@
    }

    pub open spec fn num_ports(self) -> nat {
        self.ports_view().len()
    }

    /// The registry records `m` as a monitor of target `t`.
    pub open spec fn mirror_has(self, t: u64, m: u64) -> bool {
        registry_has(self.mirrors_view(), t, m)
    }

    /// The whole fabric is consistent: modes are valid and their
    /// references in range, names are unique, every forwarding entry
    /// points at a port still eligible for it, and the mirror registry
    /// lists exactly the monitoring ports, each under its target.
    pub open spec fn wf(self) -> bool {
        &&& self.fib_wf()
        &&& fabric_inv(self.ports_view(), self.names_view(), self.fib_view(), self.mirrors_view())
    }

    /// Everything `wf` asks, except that port `port` may be halfway
    /// through a reconfiguration: it sits in no registry bucket, and
    /// its own mode is not yet accounted for.  Holds between tearing
    /// the port's session down and rewriting its mode.
    pub open spec fn wf_except(self, port: usize) -> bool {
        &&& self.fib_wf()
        &&& fabric_inv_except(
            self.ports_view(),
            self.names_view(),
            self.fib_view(),
            self.mirrors_view(),
            port,
        )
    }

    /// The forwarding table's own two indexes mirror each other; a
    /// piece of `wf` that fabric operations preserve one by one.
    pub closed spec fn fib_wf(self) -> bool {
        self.fib.wf()
    }

    /// Builds a fabric over the named interfaces: every port starts
    /// down in access mode on the default VLAN, nothing learned,
    /// nothing mirrored.
    pub fn build(interfaces_name: &[String]) -> (s: Switch)
        requires
            forall|i: int, j: int| 0 <= i < j < interfaces_name@.len()
                ==> interfaces_name@[i]@ != interfaces_name@[j]@,
        ensures
            s.wf(),
            s.num_ports() == interfaces_name@.len(),
            forall|i: int| 0 <= i < interfaces_name@.len() ==> s.name_at(i)
                == interfaces_name@[i]@,
            forall|i: int| 0 <= i < s.num_ports() ==> !(#[trigger] s.ports_view()[i]).up
                && s.ports_view()[i].mode == (PortMode::Access { vlan: DEFAULT_VLAN }),
            s.fib_view() == Map::<u64, usize>::empty(),
            forall|t: u64| bucket_of(s.mirrors_view(), t).len() == 0,
    {
        let n = interfaces_name.len();
        let mut ports: Vec<PortState> = Vec::new();
        let mut names: Vec<String> = Vec::new();
        let mut mirrors: DashMap<u64, Vec<u64>> = buckets_empty();
        let mut i: usize = 0;
        while i < n
            invariant
                i <= n,
                n == interfaces_name@.len(),
                ports@.len() == i,
                names@.len() == i,
                forall|j: int| 0 <= j < i ==> !(#[trigger] ports@[j]).up && ports@[j].mode == (
                PortMode::Access { vlan: DEFAULT_VLAN }),
                forall|j: int| 0 <= j < i ==> #[trigger] names@[j]@ == interfaces_name@[j]@,
                forall|t: u64| #[trigger] bucket_map(mirrors).dom().contains(t) <==> t < i,
                forall|t: u64| #[trigger] bucket_map(mirrors).dom().contains(t) ==> bucket_map(
                    mirrors,
                )[t].len() == 0,
            decreases n - i,
        {
            ports.push(PortState { up: false, mode: PortMode::Access { vlan: DEFAULT_VLAN } });
            names.push(interfaces_name[i].clone());
            buckets_insert(&mut mirrors, i as u64, Vec::new());
            i = i + 1;
        }
        let s = Switch { ports, names, fib: Fib::new(), mirrors };
        proof {
            assert forall|t: u64, m: u64| #[trigger] s.mirror_has(t, m) implies false by {}
        }
        s
    }


    /// Tears down this port's monitoring session, if it has one: the
    /// port leaves every registry bucket.  The port's mode is not
    /// touched, so the caller rewrites it before the fabric is used
    /// again.
    pub fn remove_monitoring_session(&mut self, port: usize)
        requires
            old(self).wf(),
            port < old(self).num_ports(),
        ensures
            final(self).wf_except(port),
            final(self).ports_view() == old(self).ports_view(),
            final(self).names_view() == old(self).names_view(),
            final(self).fib_view() == old(self).fib_view(),
            final(self).mirrors_view().dom() == old(self).mirrors_view().dom(),
            forall|t: u64, m: u64| #[trigger] final(self).mirror_has(t, m)
                <==> (old(self).mirror_has(t, m) && m != port as u64),
    {
        let target_opt: Option<usize> = match &self.ports[port].mode {
            PortMode::Monitoring { target } => Some(*target),
            _ => None,
        };
        match target_opt {
            None => {
                proof {
                    assert forall|t: u64, m: u64| #[trigger] self.mirror_has(t, m) implies m
                        != port as u64 by {
                        if m == port as u64 {
                            assert(self.ports@[port as int].mode == (PortMode::Monitoring {
                                target: t as usize,
                            }));
                        }
                    }
                }
            },
            Some(t) => {
                proof {
                    assert(old(self).mirror_has(t as u64, port as u64));
                }
                let mut b: Vec<u64> = match buckets_remove(&mut self.mirrors, t as u64) {
                    Some(b) => b,
                    None => Vec::new(),
                };
                let ghost ob = b@;
                let mut i: usize = 0;
                let n = b.len();
                while i < n && b[i] != port as u64
                    invariant
                        n == b@.len(),
                        i <= n,
                        b@ == ob,
                        ob.contains(port as u64),
                        forall|j: int| 0 <= j < i ==> ob[j] != port as u64,
                    decreases n - i,
                {
                    i = i + 1;
                }
                proof {
                    assert(i < n && ob[i as int] == port as u64) by {
                        if i == n {
                            let widx = choose|j: int| 0 <= j < ob.len() && ob[j] == port as u64;
                            assert(ob[widx] != port as u64);
                        }
                    }
                }
                b.remove(i);
                buckets_insert(&mut self.mirrors, t as u64, b);
                proof {
                    let nb = ob.remove(i as int);
                    let tu = t as u64;
                    let pu = port as u64;
                    assert(self.mirrors_view() =~= old(self).mirrors_view().insert(tu, nb));
                    assert(self.mirrors_view().dom() =~= old(self).mirrors_view().dom());
                    assert(ob.no_duplicates());
                    assert forall|x: u64| #[trigger] nb.contains(x) implies ob.contains(x) && x
                        != pu by {
                        let j = choose|j: int| 0 <= j < nb.len() && nb[j] == x;
                        if j < i {
                            assert(ob[j] == x);
                        } else {
                            assert(ob[j + 1] == x);
                        }
                        if x == pu {
                            if j < i {
                                assert(ob[j] == pu && ob[i as int] == pu);
                                assert(!ob.no_duplicates());
                            } else {
                                assert(ob[j + 1] == pu && ob[i as int] == pu);
                                assert(!ob.no_duplicates());
                            }
                        }
                    }
                    assert forall|x: u64| ob.contains(x) && x != pu implies #[trigger] nb.contains(
                        x,
                    ) by {
                        let j = choose|j: int| 0 <= j < ob.len() && ob[j] == x;
                        if j < i {
                            assert(nb[j] == x);
                        } else {
                            assert(j != i);
                            assert(nb[j - 1] == x);
                        }
                    }
                    assert(nb.no_duplicates()) by {
                        assert forall|u: int, v: int|
                            0 <= u < nb.len() && 0 <= v < nb.len() && u != v implies nb[u]
                            != nb[v] by {
                            let ou = if u < i { u } else { u + 1 };
                            let ov = if v < i { v } else { v + 1 };
                            assert(nb[u] == ob[ou] && nb[v] == ob[ov]);
                        }
                    }
                    assert forall|t2: u64, m: u64| #[trigger] self.mirror_has(t2, m) implies (old(
                        self,
                    ).mirror_has(t2, m) && m != pu) by {
                        if t2 == tu {
                            assert(self.mirrors_view()[tu] == nb);
                            assert(nb.contains(m));
                            assert(ob.contains(m) && m != pu);
                            assert(old(self).mirror_has(tu, m));
                        } else {
                            assert(self.mirrors_view()[t2] == old(self).mirrors_view()[t2]);
                            assert(old(self).mirror_has(t2, m));
                            if m == pu {
                                assert(old(self).ports_view()[port as int].mode == (
                                PortMode::Monitoring { target: t2 as usize }));
                                assert(old(self).mirrors_view().dom().contains(t2));
                                assert(t2 < old(self).ports_view().len());
                                assert(t2 as usize == t);
                                assert(t2 == tu);
                            }
                        }
                    }
                    assert forall|t2: u64, m: u64|
                        old(self).mirror_has(t2, m) && m != pu implies #[trigger] self.mirror_has(
                        t2,
                        m,
                    ) by {
                        if t2 == tu {
                            assert(ob.contains(m));
                            assert(nb.contains(m));
                        } else {
                            assert(self.mirrors_view()[t2] == old(self).mirrors_view()[t2]);
                        }
                    }
                }
            },
        }
        proof {
            self.lemma_wf_except_after_teardown(*old(self), port);
        }
    }

    /// A port that left every bucket while nothing else moved leaves
    /// the fabric consistent but for that port's own registration.
    proof fn lemma_wf_except_after_teardown(self, s0: Switch, port: usize)
        requires
            s0.wf(),
            port < s0.num_ports(),
            self.ports_view() == s0.ports_view(),
            self.names_view() == s0.names_view(),
            self.fib_view() == s0.fib_view(),
            self.fib_wf(),
            self.mirrors_view().dom() == s0.mirrors_view().dom(),
            forall|t: u64| #[trigger] self.mirrors_view().dom().contains(t)
                ==> self.mirrors_view()[t].no_duplicates(),
            forall|t: u64, m: u64| #[trigger] self.mirror_has(t, m) <==> (s0.mirror_has(t, m) && m
                != port as u64),
        ensures
            self.wf_except(port),
    {
        assert forall|t: u64, m: u64| #[trigger] registry_has(self.mirrors_view(), t, m) implies m
            < self.ports_view().len() && m != port as u64 && self.ports_view()[m as int].mode == (
        PortMode::Monitoring { target: t as usize }) by {
            assert(self.mirror_has(t, m));
            assert(s0.mirror_has(t, m) && m != port as u64);
            assert(registry_has(s0.mirrors_view(), t, m));
        }
        assert forall|i: int| 0 <= i < self.ports_view().len() && i != port as int implies ((
        #[trigger] self.ports_view()[i].mode).is_monitoring_spec() ==> registry_has(
            self.mirrors_view(),
            self.ports_view()[i].mode.monitoring_target() as u64,
            i as u64,
        )) by {
            if self.ports_view()[i].mode.is_monitoring_spec() {
                let tg = s0.ports_view()[i].mode.monitoring_target();
                assert(s0.ports_view()[i].mode.is_monitoring_spec());
                assert(registry_has(s0.mirrors_view(), tg as u64, i as u64));
                assert(s0.mirror_has(tg as u64, i as u64));
                assert(i as u64 != port as u64);
                assert(self.mirror_has(tg as u64, i as u64));
                assert(registry_has(self.mirrors_view(), tg as u64, i as u64));
            }
        }
    }

    /// Registers this port as a monitor: sets its mode to monitoring
    /// the target and records it in the target's bucket.  The port
    /// must be mid-reconfiguration: out of every bucket and owning no
    /// forwarding entries.
    pub fn add_monitoring_session(&mut self, port: usize, target: usize)
        requires
            old(self).wf_except(port),
            port < old(self).num_ports(),
            target < old(self).num_ports(),
            forall|k: u64| #[trigger] old(self).fib_view().dom().contains(k) ==> old(
                self,
            ).fib_view()[k] != port,
        ensures
            final(self).wf(),
            final(self).ports_view() == old(self).ports_view().update(
                port as int,
                (PortState {
                    up: old(self).ports_view()[port as int].up,
                    mode: PortMode::Monitoring { target },
                }),
            ),
            final(self).names_view() == old(self).names_view(),
            final(self).fib_view() == old(self).fib_view(),
            forall|t: u64, m: u64| #[trigger] final(self).mirror_has(t, m)
                <==> (old(self).mirror_has(t, m) || (t == target as u64 && m == port as u64)),
    {
        let up_now = self.ports[port].up;
        self.ports[port] = PortState { up: up_now, mode: PortMode::Monitoring { target } };
        let mut b: Vec<u64> = match buckets_remove(&mut self.mirrors, target as u64) {
            Some(b) => b,
            None => Vec::new(),
        };
        let ghost ob = b@;
        b.push(port as u64);
        buckets_insert(&mut self.mirrors, target as u64, b);
        proof {
            let tu = target as u64;
            let pu = port as u64;
            let s0 = *old(self);
            assert(s0.mirrors_view().dom().contains(tu));
            assert(ob == s0.mirrors_view()[tu]);
            assert(self.mirrors_view() =~= s0.mirrors_view().insert(tu, ob.push(pu)));
            assert(self.mirrors_view().dom() =~= s0.mirrors_view().dom());
            assert(!ob.contains(pu)) by {
                if ob.contains(pu) {
                    assert(s0.mirror_has(tu, pu));
                }
            }
            lemma_push_no_duplicates(ob, pu);
            assert forall|t2: u64, m: u64| #[trigger] self.mirror_has(t2, m) implies (
            s0.mirror_has(t2, m) || (t2 == tu && m == pu)) by {
                if t2 == tu {
                    vstd::seq_lib::lemma_seq_contains_after_push(ob, pu, m);
                } else {
                    assert(self.mirrors_view()[t2] == s0.mirrors_view()[t2]);
                }
            }
            assert forall|t2: u64, m: u64|
                s0.mirror_has(t2, m) || (t2 == tu && m == pu) implies #[trigger] self.mirror_has(
                t2,
                m,
            ) by {
                if t2 == tu {
                    vstd::seq_lib::lemma_seq_contains_after_push(ob, pu, m);
                } else {
                    assert(self.mirrors_view()[t2] == s0.mirrors_view()[t2]);
                }
            }
            // Well-formedness of the whole fabric.
            assert forall|i: int| 0 <= i < self.ports@.len() implies (
            #[trigger] self.ports@[i].mode).mode_wf() by {
                if i != port as int {
                    assert(self.ports@[i] == s0.ports_view()[i]);
                }
            }
            assert forall|k: u64| #[trigger] self.fib_view().dom().contains(k) implies fib_entry_ok(
                self.ports@,
                k,
                self.fib_view()[k],
            ) by {
                assert(fib_entry_ok(s0.ports_view(), k, s0.fib_view()[k]));
                assert(self.fib_view()[k] != port);
            }
            assert forall|t2: u64, m: u64| #[trigger] registry_has(self.mirrors_view(), t2, m)
                implies m < self.ports@.len() && self.ports@[m as int].mode == (
            PortMode::Monitoring { target: t2 as usize }) by {
                assert(self.mirror_has(t2, m));
                if m == pu {
                    assert(t2 == tu) by {
                        if t2 != tu {
                            assert(s0.mirror_has(t2, m));
                        }
                    }
                } else {
                    assert(s0.mirror_has(t2, m));
                    assert(s0.ports_view()[m as int].mode == (PortMode::Monitoring {
                        target: t2 as usize,
                    }));
                }
            }
            assert(self.mirror_has(tu, pu)) by {
                vstd::seq_lib::lemma_seq_contains_after_push(ob, pu, pu);
            }
            assert forall|i: int| 0 <= i < self.ports@.len() implies ((
            #[trigger] self.ports@[i].mode).is_monitoring_spec() ==> registry_has(
                self.mirrors_view(),
                self.ports@[i].mode.monitoring_target() as u64,
                i as u64,
            )) by {
                if i == port as int {
                    assert(registry_has(self.mirrors_view(), tu, pu));
                } else if self.ports@[i].mode.is_monitoring_spec() {
                    assert(s0.ports_view()[i] == self.ports@[i]);
                    let tg = s0.ports_view()[i].mode.monitoring_target();
                    assert(s0.ports_view()[i].mode.is_monitoring_spec());
                    assert(registry_has(s0.mirrors_view(), tg as u64, i as u64));
                    assert(s0.mirror_has(tg as u64, i as u64));
                    assert(self.mirror_has(tg as u64, i as u64));
                    assert(registry_has(self.mirrors_view(), tg as u64, i as u64));
                }
            }
        }
    }


    /// Applies the outcome of a reopen attempt: a port that opened is
    /// Up; one that failed to open keeps its previous liveness, so a
    /// down port stays down.
    pub fn apply_no_shutdown(&mut self, port: usize, opened: bool)
        requires
            old(self).wf(),
            port < old(self).num_ports(),
        ensures
            final(self).wf(),
            final(self).ports_view() == old(self).ports_view().update(
                port as int,
                (PortState {
                    up: opened || old(self).ports_view()[port as int].up,
                    mode: old(self).ports_view()[port as int].mode,
                }),
            ),
            final(self).names_view() == old(self).names_view(),
            final(self).fib_view() == old(self).fib_view(),
            final(self).mirrors_view() == old(self).mirrors_view(),
    {
        let up_now = self.ports[port].up;
        self.ports[port].up = opened || up_now;
        proof {
            let s0 = *old(self);
            let ports1 = self.ports_view();
            assert(ports1 =~= s0.ports_view().update(
                port as int,
                (PortState {
                    up: opened || s0.ports_view()[port as int].up,
                    mode: s0.ports_view()[port as int].mode,
                }),
            ));
            assert forall|i: int| 0 <= i < ports1.len() implies (
            #[trigger] ports1[i].mode).mode_wf() by {
                assert(ports1[i].mode == s0.ports_view()[i].mode);
            }
            assert forall|k: u64| #[trigger] self.fib_view().dom().contains(k) implies fib_entry_ok(
                ports1,
                k,
                self.fib_view()[k],
            ) by {
                assert(fib_entry_ok(s0.ports_view(), k, s0.fib_view()[k]));
                let p = self.fib_view()[k];
                assert(ports1[p as int].mode == s0.ports_view()[p as int].mode);
                assert(ports1[p as int].up);
            }
            assert forall|t: u64, m: u64| #[trigger] registry_has(self.mirrors_view(), t, m)
                implies m < ports1.len() && ports1[m as int].mode == (PortMode::Monitoring {
                target: t as usize,
            }) by {
                assert(registry_has(s0.mirrors_view(), t, m));
                assert(ports1[m as int].mode == s0.ports_view()[m as int].mode);
            }
            assert forall|i: int| 0 <= i < ports1.len() implies ((
            #[trigger] ports1[i].mode).is_monitoring_spec() ==> registry_has(
                self.mirrors_view(),
                ports1[i].mode.monitoring_target() as u64,
                i as u64,
            )) by {
                if ports1[i].mode.is_monitoring_spec() {
                    assert(ports1[i].mode == s0.ports_view()[i].mode);
                    assert(s0.ports_view()[i].mode.is_monitoring_spec());
                    assert(registry_has(
                        s0.mirrors_view(),
                        s0.ports_view()[i].mode.monitoring_target() as u64,
                        i as u64,
                    ));
                }
            }
        }
    }

    /// Rewrites the port's mode to a non-monitoring one while it is
    /// mid-reconfiguration: out of every bucket, owning no entries.
    fn set_port_mode(&mut self, port: usize, mode: PortMode)
        requires
            old(self).wf_except(port),
            port < old(self).num_ports(),
            mode.mode_wf(),
            !mode.is_monitoring_spec(),
            forall|k: u64| #[trigger] old(self).fib_view().dom().contains(k) ==> old(
                self,
            ).fib_view()[k] != port,
        ensures
            final(self).wf(),
            final(self).ports_view() == old(self).ports_view().update(
                port as int,
                (PortState { up: old(self).ports_view()[port as int].up, mode }),
            ),
            final(self).names_view() == old(self).names_view(),
            final(self).fib_view() == old(self).fib_view(),
            final(self).mirrors_view() == old(self).mirrors_view(),
    {
        let up_now = self.ports[port].up;
        self.ports[port] = PortState { up: up_now, mode };
        proof {
            let s0 = *old(self);
            let ports1 = self.ports_view();
            assert forall|i: int| 0 <= i < ports1.len() implies (
            #[trigger] ports1[i].mode).mode_wf() by {
                if i != port as int {
                    assert(ports1[i].mode == s0.ports_view()[i].mode);
                }
            }
            assert forall|k: u64| #[trigger] self.fib_view().dom().contains(k) implies fib_entry_ok(
                ports1,
                k,
                self.fib_view()[k],
            ) by {
                assert(fib_entry_ok(s0.ports_view(), k, s0.fib_view()[k]));
                let p = self.fib_view()[k];
                assert(p != port);
                assert(ports1[p as int] == s0.ports_view()[p as int]);
            }
            assert forall|t: u64, m: u64| #[trigger] registry_has(self.mirrors_view(), t, m)
                implies m < ports1.len() && ports1[m as int].mode == (PortMode::Monitoring {
                target: t as usize,
            }) by {
                assert(registry_has(s0.mirrors_view(), t, m));
                assert(m != port as u64);
                assert(ports1[m as int] == s0.ports_view()[m as int]);
            }
            assert forall|i: int| 0 <= i < ports1.len() implies ((
            #[trigger] ports1[i].mode).is_monitoring_spec() ==> registry_has(
                self.mirrors_view(),
                ports1[i].mode.monitoring_target() as u64,
                i as u64,
            )) by {
                if i != port as int && ports1[i].mode.is_monitoring_spec() {
                    assert(ports1[i] == s0.ports_view()[i]);
                    assert(s0.ports_view()[i].mode.is_monitoring_spec());
                    assert(registry_has(
                        s0.mirrors_view(),
                        s0.ports_view()[i].mode.monitoring_target() as u64,
                        i as u64,
                    ));
                }
            }
        }
    }


    /// Evicts every forwarding entry the port owns, leaving the rest
    /// of the fabric as it stands.
    fn purge_port(&mut self, port: usize)
        requires
            old(self).wf(),
            port < old(self).num_ports(),
        ensures
            final(self).wf(),
            final(self).ports_view() == old(self).ports_view(),
            final(self).names_view() == old(self).names_view(),
            final(self).mirrors_view() == old(self).mirrors_view(),
            final(self).fib_view() == without_port(old(self).fib_view(), port),
            forall|k: u64| #[trigger] final(self).fib_view().dom().contains(k)
                ==> final(self).fib_view()[k] != port,
    {
        self.fib.remove_port_entries(port);
        proof {
            let s0 = *old(self);
            assert forall|k: u64| #[trigger] self.fib_view().dom().contains(k) implies fib_entry_ok(
                self.ports_view(),
                k,
                self.fib_view()[k],
            ) && self.fib_view()[k] != port by {
                assert(s0.fib_view().dom().contains(k));
                assert(fib_entry_ok(s0.ports_view(), k, s0.fib_view()[k]));
            }
        }
    }

    /// Evicts the port's forwarding entries of one VLAN, leaving the
    /// rest of the fabric as it stands.
    fn purge_port_vlan(&mut self, port: usize, vlan: u16)
        requires
            old(self).wf(),
            port < old(self).num_ports(),
        ensures
            final(self).wf(),
            final(self).ports_view() == old(self).ports_view(),
            final(self).names_view() == old(self).names_view(),
            final(self).mirrors_view() == old(self).mirrors_view(),
            final(self).fib_view() == without_port_vlan(old(self).fib_view(), port, vlan),
    {
        self.fib.remove_port_vlan_entries(port, vlan);
        proof {
            let s0 = *old(self);
            assert forall|k: u64| #[trigger] self.fib_view().dom().contains(k) implies fib_entry_ok(
                self.ports_view(),
                k,
                self.fib_view()[k],
            ) by {
                assert(s0.fib_view().dom().contains(k));
                assert(fib_entry_ok(s0.ports_view(), k, s0.fib_view()[k]));
            }
        }
    }

    /// Takes the port down; its mode is kept.  The port must own no
    /// forwarding entries any more.
    fn set_port_down(&mut self, port: usize)
        requires
            old(self).wf(),
            port < old(self).num_ports(),
            forall|k: u64| #[trigger] old(self).fib_view().dom().contains(k) ==> old(
                self,
            ).fib_view()[k] != port,
        ensures
            final(self).wf(),
            final(self).ports_view() == old(self).ports_view().update(
                port as int,
                (PortState { up: false, mode: old(self).ports_view()[port as int].mode }),
            ),
            final(self).names_view() == old(self).names_view(),
            final(self).fib_view() == old(self).fib_view(),
            final(self).mirrors_view() == old(self).mirrors_view(),
    {
        self.ports[port].up = false;
        proof {
            let s0 = *old(self);
            let ports1 = self.ports_view();
            assert(ports1 =~= s0.ports_view().update(
                port as int,
                (PortState { up: false, mode: s0.ports_view()[port as int].mode }),
            ));
            assert forall|i: int| 0 <= i < ports1.len() implies (
            #[trigger] ports1[i].mode).mode_wf() by {
                assert(ports1[i].mode == s0.ports_view()[i].mode);
            }
            assert forall|k: u64| #[trigger] self.fib_view().dom().contains(k) implies fib_entry_ok(
                ports1,
                k,
                self.fib_view()[k],
            ) by {
                assert(fib_entry_ok(s0.ports_view(), k, s0.fib_view()[k]));
                let p = self.fib_view()[k];
                assert(p != port);
                assert(ports1[p as int] == s0.ports_view()[p as int]);
            }
            assert forall|t: u64, m: u64| #[trigger] registry_has(self.mirrors_view(), t, m)
                implies m < ports1.len() && ports1[m as int].mode == (PortMode::Monitoring {
                target: t as usize,
            }) by {
                assert(registry_has(s0.mirrors_view(), t, m));
                assert(ports1[m as int].mode == s0.ports_view()[m as int].mode);
            }
            assert forall|i: int| 0 <= i < ports1.len() implies ((
            #[trigger] ports1[i].mode).is_monitoring_spec() ==> registry_has(
                self.mirrors_view(),
                ports1[i].mode.monitoring_target() as u64,
                i as u64,
            )) by {
                if ports1[i].mode.is_monitoring_spec() {
                    assert(ports1[i].mode == s0.ports_view()[i].mode);
                    assert(s0.ports_view()[i].mode.is_monitoring_spec());
                    assert(registry_has(
                        s0.mirrors_view(),
                        s0.ports_view()[i].mode.monitoring_target() as u64,
                        i as u64,
                    ));
                }
            }
        }
    }

    /// Rewrites a trunk port's allow-set.  Every forwarding entry the
    /// port still owns must be of a VLAN the new allow-set carries.
    fn set_trunk_vlans(&mut self, port: usize, vlans: Vec<u16>)
        requires
            old(self).wf(),
            port < old(self).num_ports(),
            old(self).ports_view()[port as int].mode matches PortMode::Trunk { .. },
            (PortMode::Trunk { vlans }).mode_wf(),
            forall|k: u64|
                #[trigger] old(self).fib_view().dom().contains(k) && old(self).fib_view()[k]
                    == port ==> vlans@.contains(key_vlan(k) as u16),
        ensures
            final(self).wf(),
            final(self).ports_view().len() == old(self).ports_view().len(),
            forall|i: int| 0 <= i < old(self).num_ports() && i != port as int
                ==> final(self).ports_view()[i] == old(self).ports_view()[i],
            final(self).ports_view()[port as int].up == old(self).ports_view()[port as int].up,
            final(self).ports_view()[port as int].mode.trunk_vlans() == vlans@,
            final(self).ports_view()[port as int].mode matches PortMode::Trunk { .. },
            final(self).names_view() == old(self).names_view(),
            final(self).fib_view() == old(self).fib_view(),
            final(self).mirrors_view() == old(self).mirrors_view(),
    {
        let up_now = self.ports[port].up;
        self.ports[port] = PortState { up: up_now, mode: PortMode::Trunk { vlans } };
        proof {
            let s0 = *old(self);
            let ports1 = self.ports_view();
            assert forall|i: int| 0 <= i < ports1.len() implies (
            #[trigger] ports1[i].mode).mode_wf() by {
                if i != port as int {
                    assert(ports1[i].mode == s0.ports_view()[i].mode);
                }
            }
            assert forall|k: u64| #[trigger] self.fib_view().dom().contains(k) implies fib_entry_ok(
                ports1,
                k,
                self.fib_view()[k],
            ) by {
                assert(s0.fib_view().dom().contains(k));
                assert(fib_entry_ok(s0.ports_view(), k, s0.fib_view()[k]));
                let p = self.fib_view()[k];
                if p != port {
                    assert(ports1[p as int] == s0.ports_view()[p as int]);
                } else {
                    assert(vlans@.contains(key_vlan(k) as u16));
                }
            }
            assert forall|t: u64, m: u64| #[trigger] registry_has(self.mirrors_view(), t, m)
                implies m < ports1.len() && ports1[m as int].mode == (PortMode::Monitoring {
                target: t as usize,
            }) by {
                assert(registry_has(s0.mirrors_view(), t, m));
                assert(m != port as u64);
                assert(ports1[m as int] == s0.ports_view()[m as int]);
            }
            assert forall|i: int| 0 <= i < ports1.len() implies ((
            #[trigger] ports1[i].mode).is_monitoring_spec() ==> registry_has(
                self.mirrors_view(),
                ports1[i].mode.monitoring_target() as u64,
                i as u64,
            )) by {
                if i != port as int && ports1[i].mode.is_monitoring_spec() {
                    assert(ports1[i] == s0.ports_view()[i]);
                    assert(s0.ports_view()[i].mode.is_monitoring_spec());
                    assert(registry_has(
                        s0.mirrors_view(),
                        s0.ports_view()[i].mode.monitoring_target() as u64,
                        i as u64,
                    ));
                }
            }
        }
    }


    /// Applies one control command to the port, as the owning worker
    /// does at the top of its loop.  `NoShutdown` goes through
    /// `apply_no_shutdown` instead, with the outcome of the reopen
    /// attempt.  An invalid command is rejected with nothing changed;
    /// an accepted one reconfigures the port, evicts the forwarding
    /// entries its new configuration can no longer carry, and keeps
    /// the mirror registry in step with the modes.  A port that shuts
    /// down forgets its entries then and there; bringing it back up
    /// alone changes nothing.
    pub fn apply_command(&mut self, port: usize, cmd: &IntfCmd) -> (r: Result<(), SwitchError>)
        requires
            old(self).wf(),
            port < old(self).num_ports(),
            !(cmd matches IntfCmd::NoShutdown),
        ensures
            final(self).wf(),
            final(self).num_ports() == old(self).num_ports(),
            final(self).names_view() == old(self).names_view(),
            match cmd {
                IntfCmd::Shutdown => r is Ok && final(self).ports_view() == old(
                    self,
                ).ports_view().update(
                    port as int,
                    (PortState { up: false, mode: old(self).ports_view()[port as int].mode }),
                ) && final(self).fib_view() == without_port(old(self).fib_view(), port) && final(self).mirrors_view() == old(self).mirrors_view(),
                IntfCmd::NoShutdown => true,
                IntfCmd::PortModeAccess => r is Ok && final(self).ports_view() == old(
                    self,
                ).ports_view().update(
                    port as int,
                    (PortState {
                        up: old(self).ports_view()[port as int].up,
                        mode: PortMode::Access { vlan: DEFAULT_VLAN },
                    }),
                ) && final(self).fib_view() == without_port(old(self).fib_view(), port)
                    && mirrors_teardown(old(self).mirrors_view(), final(self).mirrors_view(), port),
                IntfCmd::PortAccessVlan(v) => if 1 <= *v <= 4095 {
                    r is Ok && final(self).ports_view() == old(self).ports_view().update(
                        port as int,
                        (PortState {
                            up: old(self).ports_view()[port as int].up,
                            mode: PortMode::Access { vlan: *v },
                        }),
                    ) && final(self).fib_view() == without_port(old(self).fib_view(), port)
                        && mirrors_teardown(
                        old(self).mirrors_view(),
                        final(self).mirrors_view(),
                        port,
                    )
                } else {
                    r == Err::<(), SwitchError>(SwitchError::InvalidVlan) && state_unchanged(
                        *old(self),
                        *final(self),
                    )
                },
                IntfCmd::PortModeTrunk => r is Ok && final(self).ports_view().len() == old(
                    self,
                ).ports_view().len() && (forall|i: int|
                    0 <= i < old(self).num_ports() && i != port as int ==> final(self).ports_view()[i] == old(self).ports_view()[i]) && final(self).ports_view()[port as int].up == old(self).ports_view()[port as int].up && (final(self).ports_view()[port as int].mode matches PortMode::Trunk { .. }) && final(self).ports_view()[port as int].mode.trunk_vlans().len() == 0 && final(self).fib_view()
                    == without_port(old(self).fib_view(), port) && mirrors_teardown(
                    old(self).mirrors_view(),
                    final(self).mirrors_view(),
                    port,
                ),
                IntfCmd::PortTrunkAddVlans(list) => if !(old(
                    self,
                ).ports_view()[port as int].mode matches PortMode::Trunk { .. }) {
                    r == Err::<(), SwitchError>(SwitchError::NotTrunk) && state_unchanged(
                        *old(self),
                        *final(self),
                    )
                } else if !vlan_list_valid(list@) {
                    r == Err::<(), SwitchError>(SwitchError::InvalidVlan) && state_unchanged(
                        *old(self),
                        *final(self),
                    )
                } else {
                    r is Ok && final(self).fib_view() == old(self).fib_view() && final(self).mirrors_view() == old(self).mirrors_view() && final(self).ports_view().len()
                        == old(self).ports_view().len() && (forall|i: int|
                        0 <= i < old(self).num_ports() && i != port as int ==> final(self).ports_view()[i] == old(self).ports_view()[i]) && final(self).ports_view()[port as int].up == old(self).ports_view()[port as int].up
                        && (final(self).ports_view()[port as int].mode matches PortMode::Trunk {
                        ..
                    }) && (forall|v: u16|
                        final(self).ports_view()[port as int].mode.trunk_vlans().contains(v)
                            <==> (old(self).ports_view()[port as int].mode.trunk_vlans().contains(
                            v,
                        ) || list@.contains(v)))
                },
                IntfCmd::PortTrunkRemoveVlans(list) => if !(old(
                    self,
                ).ports_view()[port as int].mode matches PortMode::Trunk { .. }) {
                    r == Err::<(), SwitchError>(SwitchError::NotTrunk) && state_unchanged(
                        *old(self),
                        *final(self),
                    )
                } else if !vlan_list_valid(list@) {
                    r == Err::<(), SwitchError>(SwitchError::InvalidVlan) && state_unchanged(
                        *old(self),
                        *final(self),
                    )
                } else {
                    r is Ok && final(self).fib_view() == without_port_vlans(
                        old(self).fib_view(),
                        port,
                        list@,
                    ) && final(self).mirrors_view() == old(self).mirrors_view() && final(self).ports_view().len() == old(self).ports_view().len() && (forall|i: int|
                        0 <= i < old(self).num_ports() && i != port as int ==> final(self).ports_view()[i] == old(self).ports_view()[i]) && final(self).ports_view()[port as int].up == old(self).ports_view()[port as int].up
                        && (final(self).ports_view()[port as int].mode matches PortMode::Trunk {
                        ..
                    }) && (forall|v: u16|
                        final(self).ports_view()[port as int].mode.trunk_vlans().contains(v)
                            <==> (old(self).ports_view()[port as int].mode.trunk_vlans().contains(
                            v,
                        ) && !list@.contains(v)))
                },
                IntfCmd::PortModeMonitoring(name) => if exists|ti: int|
                    0 <= ti < old(self).num_ports() && old(self).name_at(ti) == name@ {
                    r is Ok && final(self).fib_view() == without_port(old(self).fib_view(), port)
                        && (forall|ti: int|
                        0 <= ti < old(self).num_ports() && old(self).name_at(ti) == name@ ==> (
                        final(self).ports_view() == old(self).ports_view().update(
                            port as int,
                            (PortState {
                                up: old(self).ports_view()[port as int].up,
                                mode: PortMode::Monitoring { target: ti as usize },
                            }),
                        ) && forall|t: u64, m: u64|
                            #[trigger] registry_has(final(self).mirrors_view(), t, m) <==> ((
                            registry_has(old(self).mirrors_view(), t, m) && m != port as u64) || (t
                                == ti as u64 && m == port as u64))))
                } else {
                    r == Err::<(), SwitchError>(SwitchError::NoSuchPort) && state_unchanged(
                        *old(self),
                        *final(self),
                    )
                },
            },
    {
        match cmd {
            IntfCmd::Shutdown => {
                self.purge_port(port);
                self.set_port_down(port);
                Ok(())
            },
            IntfCmd::NoShutdown => Ok(()),
            IntfCmd::PortModeAccess => {
                self.purge_port(port);
                self.remove_monitoring_session(port);
                self.set_port_mode(port, PortMode::Access { vlan: DEFAULT_VLAN });
                Ok(())
            },
            IntfCmd::PortAccessVlan(v) => {
                let vlan = *v;
                if vlan < 1 || vlan > 4095 {
                    return Err(SwitchError::InvalidVlan);
                }
                self.purge_port(port);
                self.remove_monitoring_session(port);
                self.set_port_mode(port, PortMode::Access { vlan });
                Ok(())
            },
            IntfCmd::PortModeTrunk => {
                self.purge_port(port);
                self.remove_monitoring_session(port);
                self.set_port_mode(port, PortMode::Trunk { vlans: Vec::new() });
                Ok(())
            },
            IntfCmd::PortTrunkAddVlans(list) => {
                let cur: Vec<u16> = match &self.ports[port].mode {
                    PortMode::Trunk { vlans } => copy_vlans(vlans),
                    _ => {
                        return Err(SwitchError::NotTrunk);
                    },
                };
                if !vlans_all_valid(list) {
                    return Err(SwitchError::InvalidVlan);
                }
                let ghost old_set = old(self).ports_view()[port as int].mode.trunk_vlans();
                proof {
                    assert(cur@ == old_set);
                }
                let mut merged = cur;
                let n = list.len();
                let mut j: usize = 0;
                while j < n
                    invariant
                        self == old(self),
                        n == list@.len(),
                        j <= n,
                        vlan_list_valid(list@),
                        vlan_list_valid(old_set),
                        old_set.no_duplicates(),
                        vlan_list_valid(merged@),
                        merged@.no_duplicates(),
                        forall|v: u16| #[trigger] merged@.contains(v) <==> (old_set.contains(v)
                            || list@.take(j as int).contains(v)),
                    decreases n - j,
                {
                    let v = list[j];
                    let ghost m0 = merged@;
                    if !contains_u16(&merged, v) {
                        proof {
                            lemma_push_no_duplicates_u16(merged@, v);
                        }
                        merged.push(v);
                    }
                    j = j + 1;
                    proof {
                        assert(list@.take(j as int) =~= list@.take(j - 1).push(list@[j - 1]));
                        assert forall|x: u16| #[trigger] merged@.contains(x) implies (
                        old_set.contains(x) || list@.take(j as int).contains(x)) by {
                            lemma_contains_after_push_u16(m0, v, x);
                            lemma_contains_after_push_u16(list@.take(j - 1), list@[j - 1], x);
                        }
                        assert forall|x: u16|
                            old_set.contains(x) || list@.take(j as int).contains(x) implies #[trigger] merged@.contains(
                            x,
                        ) by {
                            lemma_contains_after_push_u16(m0, v, x);
                            lemma_contains_after_push_u16(list@.take(j - 1), list@[j - 1], x);
                        }
                    }
                }
                proof {
                    assert(list@.take(n as int) =~= list@);
                    assert forall|k: u64|
                        #[trigger] self.fib_view().dom().contains(k) && self.fib_view()[k]
                            == port implies merged@.contains(key_vlan(k) as u16) by {
                        assert(fib_entry_ok(self.ports_view(), k, self.fib_view()[k]));
                        assert(old_set.contains(key_vlan(k) as u16));
                    }
                }
                self.set_trunk_vlans(port, merged);
                Ok(())
            },
            IntfCmd::PortTrunkRemoveVlans(list) => {
                let cur: Vec<u16> = match &self.ports[port].mode {
                    PortMode::Trunk { vlans } => copy_vlans(vlans),
                    _ => {
                        return Err(SwitchError::NotTrunk);
                    },
                };
                if !vlans_all_valid(list) {
                    return Err(SwitchError::InvalidVlan);
                }
                let ghost s0 = *old(self);
                let ghost old_set = s0.ports_view()[port as int].mode.trunk_vlans();
                proof {
                    assert(cur@ == old_set);
                }
                let n = list.len();
                let mut j: usize = 0;
                while j < n
                    invariant
                        self.wf(),
                        port < self.num_ports(),
                        n == list@.len(),
                        j <= n,
                        self.ports_view() == s0.ports_view(),
                        self.names_view() == s0.names_view(),
                        self.mirrors_view() == s0.mirrors_view(),
                        self.fib_view() == without_port_vlans(
                            s0.fib_view(),
                            port,
                            list@.take(j as int),
                        ),
                    decreases n - j,
                {
                    let ghost fib_before = self.fib_view();
                    self.purge_port_vlan(port, list[j]);
                    j = j + 1;
                    proof {
                        assert(list@.take(j as int) =~= list@.take(j - 1).push(list@[j - 1]));
                        assert forall|x: u16| #[trigger] list@.take(j as int).contains(x) implies (
                        list@.take(j - 1).contains(x) || x == list@[j - 1]) by {
                            lemma_contains_after_push_u16(list@.take(j - 1), list@[j - 1], x);
                        }
                        assert forall|x: u16|
                            list@.take(j - 1).contains(x) || x == list@[j - 1] implies #[trigger] list@.take(
                            j as int,
                        ).contains(x) by {
                            lemma_contains_after_push_u16(list@.take(j - 1), list@[j - 1], x);
                        }
                        assert(self.fib_view() =~= without_port_vlans(
                            s0.fib_view(),
                            port,
                            list@.take(j as int),
                        ));
                    }
                }
                proof {
                    assert(list@.take(n as int) =~= list@);
                }
                let mut kept: Vec<u16> = Vec::new();
                let cn = cur.len();
                let mut ci: usize = 0;
                while ci < cn
                    invariant
                        cn == cur@.len(),
                        ci <= cn,
                        cur@ == old_set,
                        old_set.no_duplicates(),
                        vlan_list_valid(old_set),
                        vlan_list_valid(kept@),
                        kept@.no_duplicates(),
                        forall|v: u16| #[trigger] kept@.contains(v) <==> (old_set.take(
                            ci as int,
                        ).contains(v) && !list@.contains(v)),
                    decreases cn - ci,
                {
                    let v = cur[ci];
                    let ghost k0 = kept@;
                    if !contains_u16(list, v) {
                        proof {
                            if kept@.contains(v) {
                                let widx = choose|widx: int|
                                    0 <= widx < ci && old_set.take(ci as int)[widx] == v;
                                assert(old_set[widx] == old_set[ci as int]);
                            }
                            lemma_push_no_duplicates_u16(kept@, v);
                        }
                        kept.push(v);
                    }
                    ci = ci + 1;
                    proof {
                        assert(old_set.take(ci as int) =~= old_set.take(ci - 1).push(
                            old_set[ci - 1],
                        ));
                        assert forall|x: u16| #[trigger] kept@.contains(x) implies (old_set.take(
                            ci as int,
                        ).contains(x) && !list@.contains(x)) by {
                            lemma_contains_after_push_u16(k0, v, x);
                            lemma_contains_after_push_u16(old_set.take(ci - 1), old_set[ci - 1], x);
                        }
                        assert forall|x: u16|
                            old_set.take(ci as int).contains(x) && !list@.contains(x)
                            implies #[trigger] kept@.contains(x) by {
                            lemma_contains_after_push_u16(k0, v, x);
                            lemma_contains_after_push_u16(old_set.take(ci - 1), old_set[ci - 1], x);
                        }
                    }
                }
                proof {
                    assert(old_set.take(cn as int) =~= old_set);
                    assert forall|k: u64|
                        #[trigger] self.fib_view().dom().contains(k) && self.fib_view()[k]
                            == port implies kept@.contains(key_vlan(k) as u16) by {
                        assert(s0.fib_view().dom().contains(k) && s0.fib_view()[k] == port);
                        assert(!list@.contains(key_vlan(k) as u16));
                        assert(fib_entry_ok(s0.ports_view(), k, s0.fib_view()[k]));
                        assert(old_set.contains(key_vlan(k) as u16));
                    }
                }
                self.set_trunk_vlans(port, kept);
                Ok(())
            },
            IntfCmd::PortModeMonitoring(name) => {
                let target = match self.find_port(name) {
                    Some(t) => t,
                    None => {
                        return Err(SwitchError::NoSuchPort);
                    },
                };
                self.purge_port(port);
                self.remove_monitoring_session(port);
                self.add_monitoring_session(port, target);
                proof {
                    assert forall|ti: int|
                        0 <= ti < old(self).num_ports() && old(self).name_at(ti)
                            == name@ implies ti == target as int by {
                        if ti < target as int {
                            assert(old(self).name_at(ti) != old(self).name_at(target as int));
                        } else if ti > target as int {
                            assert(old(self).name_at(target as int) != old(self).name_at(ti));
                        }
                    }
                }
                Ok(())
            },
        }
    }


    /// The mirrored transmissions for a frame just sent out of `src`:
    /// one copy of it, unmodified, to each port monitoring `src`.
    pub fn mirror_frame(&self, src: usize, frame: &Frame) -> (r: Vec<(usize, Frame)>)
        requires
            self.wf(),
            src < self.num_ports(),
        ensures
            sends_view(r@) == mirror_copies(bucket_of(self.mirrors_view(), src as u64), frame@),
    {
        let mut out: Vec<(usize, Frame)> = Vec::new();
        match buckets_get(&self.mirrors, src as u64) {
            Some(targets) => {
                let ghost bucket = targets@;
                proof {
                    assert(bucket == bucket_of(self.mirrors_view(), src as u64));
                }
                let n = targets.len();
                let mut i: usize = 0;
                while i < n
                    invariant
                        self.wf(),
                        n == targets@.len(),
                        i <= n,
                        targets@ == bucket,
                        bucket == bucket_of(self.mirrors_view(), src as u64),
                        self.mirrors_view().dom().contains(src as u64),
                        sends_view(out@) == mirror_copies(bucket.take(i as int), frame@),
                    decreases n - i,
                {
                    let m = targets[i];
                    proof {
                        assert(registry_has(self.mirrors_view(), src as u64, m)) by {
                            assert(bucket[i as int] == m);
                        }
                        assert(m < self.ports_view().len());
                    }
                    let fcopy = frame.clone();
                    let ghost fview = fcopy@;
                    let ghost prev = out@;
                    out.push((m as usize, fcopy));
                    i = i + 1;
                    proof {
                        let cur = mirror_copies(bucket.take(i as int), frame@);
                        assert(sends_view(prev).len() == prev.len());
                        assert(prev.len() == i - 1);
                        assert(out@.len() == i);
                        assert(cur.len() == i);
                        assert forall|j: int| 0 <= j < out@.len() implies sends_view(out@)[j]
                            == cur[j] by {
                            assert(sends_view(out@)[j] == (out@[j].0, out@[j].1@));
                            assert(cur[j] == (bucket.take(i as int)[j] as usize, frame@));
                            if j < prev.len() {
                                assert(out@[j] == prev[j]);
                                assert(sends_view(prev)[j] == (prev[j].0, prev[j].1@));
                                assert(sends_view(prev)[j] == mirror_copies(
                                    bucket.take(i - 1),
                                    frame@,
                                )[j]);
                                assert(mirror_copies(bucket.take(i - 1), frame@)[j] == (bucket.take(
                                    i - 1,
                                )[j] as usize, frame@));
                            } else {
                                assert(j == i - 1);
                                assert(out@[j].1@ == fview);
                                assert(fview == frame@);
                                assert(bucket.take(i as int)[j] == m);
                            }
                        }
                        assert(sends_view(out@) =~= cur);
                    }
                }
                proof {
                    assert(bucket.take(n as int) =~= bucket);
                }
            },
            None => {
                proof {
                    assert(sends_view(out@) =~= mirror_copies(
                        bucket_of(self.mirrors_view(), src as u64),
                        frame@,
                    ));
                }
            },
        }
        out
    }

    /// Egress-processes the frame for one destination port, yielding
    /// the transmission to that port followed by the mirrored copies
    /// for its monitors.
    pub fn egr_process_and_send(&self, egr_port: usize, frame: &Frame) -> (r: Vec<(usize, Frame)>)
        requires
            self.wf(),
            egr_port < self.num_ports(),
            !self.ports_view()[egr_port as int].mode.is_monitoring_spec(),
        ensures
            sends_view(r@) == egr_bundle(
                self.ports_view(),
                self.mirrors_view(),
                egr_port as int,
                frame@,
            ),
    {
        let g = self.ports[egr_port].mode.egr_process_frame(frame.clone());
        let mut out: Vec<(usize, Frame)> = Vec::new();
        out.push((egr_port, g.clone()));
        let mut copies = self.mirror_frame(egr_port, &g);
        let ghost copies0 = copies@;
        out.append(&mut copies);
        proof {
            assert(sends_view(out@) =~= sends_view(seq![(egr_port, g)]) + sends_view(copies0));
            assert(sends_view(seq![(egr_port, g)]) =~= seq![
                (egr_port, egr_spec(self.ports_view()[egr_port as int].mode, frame@)),
            ]);
            assert(sends_view(out@) =~= egr_bundle(
                self.ports_view(),
                self.mirrors_view(),
                egr_port as int,
                frame@,
            ));
        }
        out
    }

    /// Floods the frame: a transmission bundle for every eligible port
    /// except the ingress port, in port order.
    pub fn flood(&self, ingress: usize, frame: &Frame) -> (r: Vec<(usize, Frame)>)
        requires
            self.wf(),
        ensures
            sends_view(r@) == flood_out(
                self.ports_view(),
                self.mirrors_view(),
                ingress as int,
                frame@,
                self.ports_view().len() as int,
            ),
    {
        let mut out: Vec<(usize, Frame)> = Vec::new();
        let vlan = frame.get_vlan();
        let n = self.ports.len();
        let mut p: usize = 0;
        while p < n
            invariant
                self.wf(),
                n == self.ports_view().len(),
                p <= n,
                vlan == frame@.vlan(),
                sends_view(out@) == flood_out(
                    self.ports_view(),
                    self.mirrors_view(),
                    ingress as int,
                    frame@,
                    p as int,
                ),
            decreases n - p,
        {
            let ghost out0 = sends_view(out@);
            if p != ingress {
                let eligible = {
                    let st = &self.ports[p];
                    st.up && !st.mode.is_monitoring() && st.mode.allows_vlan(vlan)
                };
                if eligible {
                    let mut bundle = self.egr_process_and_send(p, frame);
                    let ghost bundle0 = bundle@;
                    out.append(&mut bundle);
                    proof {
                        assert(sends_view(out@) =~= out0 + sends_view(bundle0));
                    }
                }
            }
            p = p + 1;
            proof {
                assert(sends_view(out@) =~= flood_out(
                    self.ports_view(),
                    self.mirrors_view(),
                    ingress as int,
                    frame@,
                    p as int,
                ));
            }
        }
        out
    }

    /// The full data-plane path for one received frame: ingress
    /// processing, source learning, then unicast to the learned owner
    /// of the destination or flood, with mirrored copies for every
    /// real transmission.  Returns exactly what the worker must send.
    pub fn forward_frame(&mut self, ingress: usize, frame: &Frame) -> (r: Vec<(usize, Frame)>)
        requires
            old(self).wf(),
            ingress < old(self).num_ports(),
            old(self).ports_view()[ingress as int].up,
            !old(self).ports_view()[ingress as int].mode.is_monitoring_spec(),
        ensures
            final(self).wf(),
            final(self).ports_view() == old(self).ports_view(),
            final(self).names_view() == old(self).names_view(),
            final(self).mirrors_view() == old(self).mirrors_view(),
            match ing_spec(old(self).ports_view()[ingress as int].mode, frame@) {
                None => final(self).fib_view() == old(self).fib_view() && r@.len() == 0,
                Some(f2) => final(self).fib_view() == learn_spec(
                    old(self).fib_view(),
                    f2.vlan(),
                    f2.src_mac,
                    ingress,
                ) && sends_view(r@) == forward_out(
                    old(self).ports_view(),
                    old(self).mirrors_view(),
                    final(self).fib_view(),
                    ingress as int,
                    f2,
                ),
            },
    {
        let ing_result = self.ports[ingress].mode.ing_process_frame(frame.clone());
        match ing_result {
            None => Vec::new(),
            Some(f2) => {
                let vlan = f2.get_vlan();
                self.fib.learn(vlan, &f2.src_mac, ingress);
                proof {
                    let s0 = *old(self);
                    let key = crate::fib::key_of(vlan, f2@.src_mac);
                    crate::fib::lemma_key_parts(vlan, f2@.src_mac);
                    crate::network::interface::lemma_ing_spec_allows(
                        s0.ports_view()[ingress as int].mode,
                        frame@,
                    );
                    assert forall|k: u64| #[trigger] self.fib_view().dom().contains(
                        k,
                    ) implies fib_entry_ok(self.ports_view(), k, self.fib_view()[k]) by {
                        if k != key {
                            assert(s0.fib_view().dom().contains(k));
                            assert(fib_entry_ok(s0.ports_view(), k, s0.fib_view()[k]));
                        } else {
                            assert(self.fib_view()[k] == ingress);
                            assert(allows_vlan_spec(
                                self.ports_view()[ingress as int].mode,
                                f2@.vlan(),
                            ));
                        }
                    }
                }
                if !f2.is_broadcast() {
                    match self.fib.lookup(vlan, &f2.dst_mac) {
                        Some(q) => {
                            proof {
                                assert(self.fib_view().dom().contains(
                                    crate::fib::key_of(vlan, f2@.dst_mac),
                                ));
                                assert(fib_entry_ok(self.ports_view(), crate::fib::key_of(
                                    vlan,
                                    f2@.dst_mac,
                                ), q));
                                crate::fib::lemma_key_parts(vlan, f2@.dst_mac);
                            }
                            let st_up = self.ports[q].up;
                            let st_mon = self.ports[q].mode.is_monitoring();
                            let st_allows = self.ports[q].mode.allows_vlan(vlan);
                            if st_up && !st_mon && st_allows {
                                self.egr_process_and_send(q, &f2)
                            } else {
                                self.flood(ingress, &f2)
                            }
                        },
                        None => self.flood(ingress, &f2),
                    }
                } else {
                    self.flood(ingress, &f2)
                }
            },
        }
    }


    /// Point lookup in the forwarding table: the port that owns
    /// (VLAN, MAC), if one was learned.
    pub fn lookup(&self, vlan: u16, mac: &Mac) -> (r: Option<usize>)
        ensures
            r == lookup_spec(self.fib_view(), vlan, *mac),
    {
        self.fib.lookup(vlan, mac)
    }



    /// How many ports the fabric owns.
    pub fn port_count(&self) -> (r: usize)
        ensures
            r == self.num_ports(),
    {
        self.ports.len()
    }

    /// Whether the port's transport is currently up.
    pub fn port_up(&self, port: usize) -> (r: bool)
        requires
            port < self.num_ports(),
        ensures
            r == self.ports_view()[port as int].up,
    {
        self.ports[port].up
    }

    /// Whether the port stands in monitoring mode.
    pub fn port_is_monitoring(&self, port: usize) -> (r: bool)
        requires
            port < self.num_ports(),
        ensures
            r == self.ports_view()[port as int].mode.is_monitoring_spec(),
    {
        self.ports[port].mode.is_monitoring()
    }


    /// The table listing the shell shows: one line per learned entry,
    /// `(vlan, mac) port-name`, listing every entry exactly once in an
    /// order the underlying map chooses.
    pub fn fib_string(&self) -> (r: String)
        requires
            self.wf(),
        ensures
            exists|es: Seq<(u64, usize)>|
                #[trigger] fib_listing(self.fib_view(), es) && r@ == fib_lines_chars(
                    es,
                    self.names_view(),
                ),
    {
        let entries = self.fib.entries_vec();
        let ghost es = entries@;
        let mut out = String::new();
        let n = entries.len();
        let mut i: usize = 0;
        while i < n
            invariant
                self.wf(),
                i <= n,
                n == entries@.len(),
                entries@ == es,
                fib_listing(self.fib_view(), es),
                out@ == fib_lines_chars(es.take(i as int), self.names_view()),
            decreases n - i,
        {
            let (k, p) = entries[i];
            proof {
                assert(self.fib_view().contains_pair(es[i as int].0, es[i as int].1));
                assert(fib_entry_ok(self.ports_view(), k, p));
                assert(key_vlan(k) == k / crate::fib::VLAN_KEY_BASE);
            }
            out.append("(");
            push_u64(k / crate::fib::VLAN_KEY_BASE, &mut out);
            out.append(", ");
            let mac = mac_from_val(k % crate::fib::VLAN_KEY_BASE);
            let mac_str = mac_to_string(&mac);
            out.append(mac_str.as_str());
            out.append(") ");
            out.append(self.names[p].as_str());
            out.append("\n");
            i = i + 1;
            proof {
                assert(es.take(i as int).drop_last() =~= es.take(i - 1));
                assert(es.take(i as int).last() == es[i - 1]);
                assert(out@ =~= fib_lines_chars(es.take(i as int), self.names_view()));
            }
        }
        proof {
            assert(es.take(n as int) =~= es);
        }
        out
    }

    /// The port rendering the shell shows for `show`: name, status,
    /// mode, the four counters and the debug flag.  The counters and
    /// the flag live with the port's worker and are passed in.
    pub fn port_status_string(
        &self,
        port: usize,
        in_pkts: u64,
        out_pkts: u64,
        in_bytes: u64,
        out_bytes: u64,
        debug: bool,
    ) -> (r: String)
        requires
            self.wf(),
            port < self.num_ports(),
        ensures
            r@ == port_status_chars(
                self.name_at(port as int),
                self.ports_view()[port as int],
                self.names_view(),
                in_pkts,
                out_pkts,
                in_bytes,
                out_bytes,
                debug,
            ),
    {
        let mut out = String::new();
        out.append(self.names[port].as_str());
        out.append("\n----------\nStatus: ");
        if self.ports[port].up {
            out.append("running");
        } else {
            out.append("shutdown");
        }
        out.append("\nMode: ");
        match &self.ports[port].mode {
            PortMode::Access { vlan } => {
                out.append("access vlan ");
                push_u64(*vlan as u64, &mut out);
            },
            PortMode::Trunk { vlans } => {
                out.append("trunk vlans");
                let ghost vs = vlans@;
                let ghost out_base = out@;
                let vn = vlans.len();
                let mut j: usize = 0;
                while j < vn
                    invariant
                        j <= vn,
                        vn == vs.len(),
                        vlans@ == vs,
                        out@ == out_base + vlan_list_chars(vs.take(j as int)),
                    decreases vn - j,
                {
                    out.append(" ");
                    push_u64(vlans[j] as u64, &mut out);
                    j = j + 1;
                    proof {
                        assert(vs.take(j as int).drop_last() =~= vs.take(j - 1));
                        assert(vs.take(j as int).last() == vs[j - 1]);
                        assert(out@ =~= out_base + vlan_list_chars(vs.take(j as int)));
                    }
                }
                proof {
                    assert(vs.take(vn as int) =~= vs);
                    assert(out@ =~= out_base + vlan_list_chars(vs));
                }
            },
            PortMode::Monitoring { target } => {
                proof {
                    assert(self.ports_view()[port as int].mode.monitoring_target()
                        < self.ports_view().len());
                }
                out.append("monitoring ");
                out.append(self.names[*target].as_str());
            },
        }
        out.append("\nIn Pkts: ");
        push_u64(in_pkts, &mut out);
        out.append(" Out Pkts: ");
        push_u64(out_pkts, &mut out);
        out.append("\nIn bytes: ");
        push_u64(in_bytes, &mut out);
        out.append(", Out bytes: ");
        push_u64(out_bytes, &mut out);
        out.append("\nDebug Mode: ");
        if debug {
            out.append("true");
        } else {
            out.append("false");
        }
        proof {
            assert(out@ =~= port_status_chars(
                self.name_at(port as int),
                self.ports_view()[port as int],
                self.names_view(),
                in_pkts,
                out_pkts,
                in_bytes,
                out_bytes,
                debug,
            ));
        }
        out
    }

    /// The index of the port with this name, if the switch has one.
    pub fn find_port(&self, name: &String) -> (r: Option<usize>)
        requires
            self.wf(),
        ensures
            match r {
                Some(i) => i < self.num_ports() && self.name_at(i as int) == name@,
                None => forall|i: int| 0 <= i < self.num_ports() ==> self.name_at(i) != name@,
            },
    {
        let n = self.names.len();
        let mut i: usize = 0;
        while i < n
            invariant
                self.wf(),
                i <= n,
                n == self.names@.len(),
                forall|j: int| 0 <= j < i ==> self.name_at(j) != name@,
            decreases n - i,
        {
            if self.names[i] == *name {
                return Some(i);
            }
            i = i + 1;
        }
        None
    }
}


/// Copies an allow-set.
fn copy_vlans(v: &Vec<u16>) -> (r: Vec<u16>)
    ensures
        r@ == v@,
{
    let mut r: Vec<u16> = Vec::new();
    let mut i: usize = 0;
    let n = v.len();
    while i < n
        invariant
            i <= n,
            n == v@.len(),
            r@ == v@.take(i as int),
        decreases n - i,
    {
        r.push(v[i]);
        i = i + 1;
        proof {
            assert(r@ =~= v@.take(i as int));
        }
    }
    proof {
        assert(v@.take(n as int) =~= v@);
    }
    r
}

/// Whether every VLAN id of the list is in the valid range.
fn vlans_all_valid(v: &Vec<u16>) -> (r: bool)
    ensures
        r == vlan_list_valid(v@),
{
    let mut i: usize = 0;
    let n = v.len();
    while i < n
        invariant
            i <= n,
            n == v@.len(),
            forall|j: int| 0 <= j < i ==> 1 <= #[trigger] v@[j] <= 4095,
        decreases n - i,
    {
        let x = v[i];
        if x < 1 || x > 4095 {
            return false;
        }
        i = i + 1;
    }
    true
}

/// Appending a VLAN an allow-set does not hold keeps it free of
/// duplicates.
proof fn lemma_push_no_duplicates_u16(s: Seq<u16>, v: u16)
    requires
        s.no_duplicates(),
        !s.contains(v),
    ensures
        s.push(v).no_duplicates(),
{
    let t = s.push(v);
    assert forall|i: int, j: int| 0 <= i < t.len() && 0 <= j < t.len() && i != j implies t[i]
        != t[j] by {
        if i < s.len() && j < s.len() {
        } else if i < s.len() {
            assert(s[i] == t[i]);
        } else {
            assert(j < s.len() && s[j] == t[j]);
        }
    }
}

/// Membership in an allow-set after an append.
proof fn lemma_contains_after_push_u16(s: Seq<u16>, v: u16, x: u16)
    ensures
        s.push(v).contains(x) <==> (s.contains(x) || x == v),
{
    vstd::seq_lib::lemma_seq_contains_after_push(s, v, x);
}

/// The fabric's views are the same on both sides.
pub open spec fn state_unchanged(before: Switch, after: Switch) -> bool {
    &&& after.ports_view() == before.ports_view()
    &&& after.fib_view() == before.fib_view()
    &&& after.mirrors_view() == before.mirrors_view()
}


/// Law: a broadcast frame is always flooded, never unicast, whatever
/// the forwarding table holds for its destination address.
pub proof fn lemma_broadcast_always_floods(
    ports: Seq<PortState>,
    mirrors: Map<u64, Seq<u64>>,
    fib: Map<u64, usize>,
    ingress: int,
    f: FrameModel,
)
    requires
        f.is_broadcast(),
    ensures
        forward_out(ports, mirrors, fib, ingress, f) == flood_out(
            ports,
            mirrors,
            ingress,
            f,
            ports.len() as int,
        ),
{
}

/// Law: whatever a forwarding decision actually transmits out of a
/// port is also delivered, unmodified, to every port monitoring it,
/// whatever the monitors' own configuration.
pub proof fn lemma_mirrors_get_copies(
    ports: Seq<PortState>,
    mirrors: Map<u64, Seq<u64>>,
    p: int,
    f: FrameModel,
)
    requires
        0 <= p < ports.len(),
    ensures
        egr_bundle(ports, mirrors, p, f).len() == 1 + bucket_of(mirrors, p as u64).len(),
        egr_bundle(ports, mirrors, p, f)[0] == ((p as usize, egr_spec(ports[p].mode, f))),
        forall|j: int| 0 <= j < bucket_of(mirrors, p as u64).len() ==> #[trigger] egr_bundle(
            ports,
            mirrors,
            p,
            f,
        )[j + 1] == ((bucket_of(mirrors, p as u64)[j] as usize, egr_spec(ports[p].mode, f))),
{
}

/// Law: the forwarding table never holds a stale entry: every entry's
/// owner exists, is up, is no monitoring port, and carries the
/// entry's VLAN.
pub proof fn lemma_no_stale_entries(s: Switch, k: u64)
    requires
        s.wf(),
        s.fib_view().dom().contains(k),
    ensures
        fib_entry_ok(s.ports_view(), k, s.fib_view()[k]),
{
}


/// What one transmitted pair may be during a flood: a real egress to
/// an eligible port other than the ingress, carrying that port's
/// egress-processed frame; or a mirror copy of such an egress,
/// delivered to a registered monitor of the egress port.
pub open spec fn flood_send_ok(
    ports: Seq<PortState>,
    mirrors: Map<u64, Seq<u64>>,
    ingress: int,
    f: FrameModel,
    p: (usize, FrameModel),
) -> bool {
    ||| (port_eligible(ports, p.0 as int, f.vlan()) && p.0 != ingress && p.1 == egr_spec(
        ports[p.0 as int].mode,
        f,
    ))
    ||| (exists|x: int|
        0 <= x < ports.len() && port_eligible(ports, x, f.vlan()) && x != ingress
            && #[trigger] registry_has(mirrors, x as u64, p.0 as u64) && p.1 == egr_spec(
            ports[x].mode,
            f,
        ))
}

/// Law: a flood transmits only to eligible ports other than the
/// ingress port, plus mirror copies to their registered monitors — in
/// particular, a monitoring port is never a normal flood target.
pub proof fn lemma_flood_sends_ok(
    ports: Seq<PortState>,
    mirrors: Map<u64, Seq<u64>>,
    ingress: int,
    f: FrameModel,
    n: int,
)
    requires
        n <= ports.len() <= usize::MAX,
        forall|t: u64, m: u64| #[trigger] registry_has(mirrors, t, m) ==> m < ports.len(),
    ensures
        forall|j: int| 0 <= j < flood_out(ports, mirrors, ingress, f, n).len()
            ==> flood_send_ok(
            ports,
            mirrors,
            ingress,
            f,
            #[trigger] flood_out(ports, mirrors, ingress, f, n)[j],
        ),
    decreases n,
{
    if n > 0 {
        lemma_flood_sends_ok(ports, mirrors, ingress, f, n - 1);
        let prefix = flood_out(ports, mirrors, ingress, f, n - 1);
        let whole = flood_out(ports, mirrors, ingress, f, n);
        assert forall|j: int| 0 <= j < whole.len() implies flood_send_ok(
            ports,
            mirrors,
            ingress,
            f,
            whole[j],
        ) by {
            if j < prefix.len() {
                assert(whole[j] == prefix[j]);
            } else {
                let p = n - 1;
                if p != ingress && port_eligible(ports, p, f.vlan()) {
                    let bundle = egr_bundle(ports, mirrors, p, f);
                    assert(whole[j] == bundle[j - prefix.len()]);
                    let g = egr_spec(ports[p].mode, f);
                    if j - prefix.len() == 0 {
                        assert(bundle[0] == ((p as usize, g)));
                    } else {
                        let bk = bucket_of(mirrors, p as u64);
                        assert(bundle[j - prefix.len()] == mirror_copies(bk, g)[j - prefix.len()
                            - 1]);
                        let m = bk[j - prefix.len() - 1];
                        assert(mirror_copies(bk, g)[j - prefix.len() - 1] == ((m as usize, g)));
                        assert(mirrors.dom().contains(p as u64));
                        assert(registry_has(mirrors, p as u64, m));
                        assert(m < ports.len());
                        assert((m as usize) as u64 == m);
                    }
                } else {
                    assert(whole.len() == prefix.len());
                }
            }
        }
    }
}

/// Law: a flood serves every eligible port but the ingress port: its
/// egress-processed frame stands in the flood's output.
pub proof fn lemma_flood_serves_every_eligible_port(
    ports: Seq<PortState>,
    mirrors: Map<u64, Seq<u64>>,
    ingress: int,
    f: FrameModel,
    n: int,
    p: int,
)
    requires
        0 <= p < n <= ports.len(),
        p != ingress,
        port_eligible(ports, p, f.vlan()),
    ensures
        exists|j: int|
            0 <= j < flood_out(ports, mirrors, ingress, f, n).len()
                && #[trigger] flood_out(ports, mirrors, ingress, f, n)[j] == ((
            p as usize,
            egr_spec(ports[p].mode, f),
        )),
    decreases n,
{
    let prefix = flood_out(ports, mirrors, ingress, f, n - 1);
    let whole = flood_out(ports, mirrors, ingress, f, n);
    if p == n - 1 {
        let bundle = egr_bundle(ports, mirrors, p, f);
        assert(bundle[0] == ((p as usize, egr_spec(ports[p].mode, f))));
        assert(whole[prefix.len() as int] == bundle[0]);
    } else {
        lemma_flood_serves_every_eligible_port(ports, mirrors, ingress, f, n - 1, p);
        let j = choose|j: int|
            0 <= j < prefix.len() && #[trigger] prefix[j] == ((
            p as usize,
            egr_spec(ports[p].mode, f),
        ));
        assert(whole[j] == prefix[j]);
    }
}

/// Relies on dashmap::DashMap::new to build the registry; what it
/// holds is pinned down by `buckets_clear` right after.
#[verifier::external_body]
fn buckets_new_raw() -> (m: DashMap<u64, Vec<u64>>) {
    DashMap::new()
}

/// An empty mirror registry.
fn buckets_empty() -> (m: DashMap<u64, Vec<u64>>)
    ensures
        bucket_map(m) == Map::<u64, Seq<u64>>::empty(),
{
    let mut m = buckets_new_raw();
    buckets_clear(&mut m);
    m
}

} // verus!
