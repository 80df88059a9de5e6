//! Per-port state: the switching mode, the liveness flag, the control
//! commands a worker applies, and the ingress/egress VLAN processing
//! those modes prescribe.

use vstd::prelude::*;
use crate::network::frame::{Frame, FrameModel, Tag, TPID_8021Q};

verus! {

/// The VLAN an access port carries right after creation or a plain
/// switch to access mode.
pub const DEFAULT_VLAN: u16 = 1;

/// A control command for one port, enqueued by the shell and consumed
/// by the port's owning worker.
#[derive(Debug)]
pub enum IntfCmd {
    Shutdown,
    NoShutdown,
    PortModeAccess,
    PortAccessVlan(u16),
    PortModeTrunk,
    PortTrunkAddVlans(Vec<u16>),
    PortTrunkRemoveVlans(Vec<u16>),
    PortModeMonitoring(String),
}

/// A port's switching mode.
#[derive(Debug)]
pub enum PortMode {
    /// Carries exactly one untagged VLAN: tags on ingress, untags on
    /// egress.
    Access { vlan: u16 },
    /// Carries the tagged VLANs of an explicit allow-set; never
    /// rewrites tags.
    Trunk { vlans: Vec<u16> },
    /// Receives only traffic mirrored from the target port; neither
    /// sources nor receives normal traffic.
    Monitoring { target: usize },
}

/// One port's published state: the liveness axis and the mode axis.
#[derive(Debug)]
pub struct PortState {
    /// Whether the port's transport is open.
    pub up: bool,
    pub mode: PortMode,
}

/// Whether a port in this mode accepts VLAN `vlan` as an egress
/// target: an access port carries exactly its configured VLAN, a trunk
/// port the VLANs of its allow-set, a monitoring port none.
pub open spec fn allows_vlan_spec(mode: PortMode, vlan: u16) -> bool {
    match mode {
        PortMode::Access { vlan: v } => vlan == v,
        PortMode::Trunk { vlans } => vlans@.contains(vlan),
        PortMode::Monitoring { .. } => false,
    }
}

/// Ingress processing: what a port in this mode makes of a received
/// frame.  An access port drops tagged frames and tags the rest with
/// its VLAN; a trunk port drops untagged frames and frames of VLANs
/// off its allow-set, passing the rest unchanged; a monitoring port
/// drops everything.
pub open spec fn ing_spec(mode: PortMode, f: FrameModel) -> Option<FrameModel> {
    match mode {
        PortMode::Access { vlan } => if f.tag is Some {
            None
        } else {
            Some(f.with_tag(Some(Tag { tpid: TPID_8021Q, tci: vlan })))
        },
        PortMode::Trunk { vlans } => if f.tag is None {
            None
        } else if !vlans@.contains(f.vlan()) {
            None
        } else {
            Some(f)
        },
        PortMode::Monitoring { .. } => None,
    }
}

/// Egress processing: what a port in this mode sends for a frame the
/// forwarding decision routed to it.  An access port strips the tag; a
/// trunk port sends the frame as-is.
pub open spec fn egr_spec(mode: PortMode, f: FrameModel) -> FrameModel {
    match mode {
        PortMode::Access { .. } => f.with_tag(None),
        _ => f,
    }
}

impl PortMode {
    /// The mode's VLAN references stay in the valid range, and a
    /// trunk's allow-set lists no VLAN twice.
    pub open spec fn mode_wf(self) -> bool {
        match self {
            PortMode::Access { vlan } => 1 <= vlan <= 4095,
            PortMode::Trunk { vlans } => (forall|i: int|
                0 <= i < vlans@.len() ==> 1 <= #[trigger] vlans@[i] <= 4095)
                && vlans@.no_duplicates(),
            PortMode::Monitoring { .. } => true,
        }
    }

    pub open spec fn is_monitoring_spec(self) -> bool {
        self is Monitoring
    }

    /// The allow-set of a trunk mode, empty for the other modes.
    pub open spec fn trunk_vlans(self) -> Seq<u16> {
        match self {
            PortMode::Trunk { vlans } => vlans@,
            _ => Seq::<u16>::empty(),
        }
    }

    /// The monitored target of a monitoring mode, 0 for the other
    /// modes.
    pub open spec fn monitoring_target(self) -> usize {
        match self {
            PortMode::Monitoring { target } => target,
            _ => 0,
        }
    }

    /// The configured VLAN of an access mode, 0 for the other modes.
    pub open spec fn access_vlan(self) -> u16 {
        match self {
            PortMode::Access { vlan } => vlan,
            _ => 0,
        }
    }

    pub fn is_monitoring(&self) -> (r: bool)
        ensures
            r == self.is_monitoring_spec(),
    {
        match self {
            PortMode::Monitoring { .. } => true,
            _ => false,
        }
    }

    pub fn allows_vlan(&self, vlan: u16) -> (r: bool)
        ensures
            r == allows_vlan_spec(*self, vlan),
    {
        match self {
            PortMode::Access { vlan: v } => vlan == *v,
            PortMode::Trunk { vlans } => contains_u16(vlans, vlan),
            PortMode::Monitoring { .. } => false,
        }
    }

    /// Applies this mode's ingress policy to a received frame; `None`
    /// means the frame is dropped.
    pub fn ing_process_frame(&self, frame: Frame) -> (r: Option<Frame>)
        requires
            self.mode_wf(),
        ensures
            match r {
                Some(g) => ing_spec(*self, frame@) == Some(g@),
                None => ing_spec(*self, frame@) is None,
            },
    {
        match self {
            PortMode::Access { vlan } => {
                if frame.tag.is_some() {
                    None
                } else {
                    let mut g = frame;
                    g.tag(*vlan);
                    Some(g)
                }
            },
            PortMode::Trunk { vlans } => {
                if frame.tag.is_none() {
                    None
                } else if !contains_u16(vlans, frame.get_vlan()) {
                    None
                } else {
                    Some(frame)
                }
            },
            PortMode::Monitoring { .. } => None,
        }
    }

    /// Applies this mode's egress policy to a frame about to be sent.
    /// A monitoring port is never a forwarding destination, so this is
    /// not defined for it.
    pub fn egr_process_frame(&self, frame: Frame) -> (r: Frame)
        requires
            !self.is_monitoring_spec(),
        ensures
            r@ == egr_spec(*self, frame@),
    {
        match self {
            PortMode::Access { .. } => {
                let mut g = frame;
                g.untag();
                g
            },
            _ => frame,
        }
    }
}

/// Whether the allow-set holds the VLAN.
pub(crate) fn contains_u16(v: &Vec<u16>, x: u16) -> (r: bool)
    ensures
        r == v@.contains(x),
{
    let mut i: usize = 0;
    let n = v.len();
    while i < n
        invariant
            i <= n,
            n == v@.len(),
            forall|j: int| 0 <= j < i ==> v@[j] != x,
        decreases n - i,
    {
        if v[i] == x {
            return true;
        }
        i = i + 1;
    }
    false
}


/// A frame that ingress processing accepts carries a VLAN the mode
/// itself allows as egress — the fact that keeps learned entries
/// consistent with their port's configuration.
pub proof fn lemma_ing_spec_allows(mode: PortMode, f: FrameModel)
    requires
        mode.mode_wf(),
    ensures
        ing_spec(mode, f) matches Some(g) ==> allows_vlan_spec(mode, g.vlan()),
{
    match mode {
        PortMode::Access { vlan } => {
            if f.tag is None {
                assert(vlan & 0x1FFFu16 == vlan) by (bit_vector)
                    requires
                        1 <= vlan <= 4095u16,
                ;
            }
        },
        _ => {},
    }
}

/// Law: on an access port a frame that already carries a tag is
/// dropped at ingress; an untagged frame gains the port's VLAN, and
/// egress processing on a port of that same VLAN strips the tag back
/// to the original frame — the same wire bytes exactly.
pub proof fn lemma_access_round_trip(mode: PortMode, f: FrameModel)
    requires
        mode matches PortMode::Access { .. },
        mode.mode_wf(),
    ensures
        f.tag is Some ==> ing_spec(mode, f) is None,
        f.tag is None ==> (ing_spec(mode, f) matches Some(g) && egr_spec(mode, g) == f
            && egr_spec(mode, g).wire_bytes() == f.wire_bytes() && g.vlan()
            == mode.access_vlan()),
{
    let vlan = mode.access_vlan();
    if f.tag is None {
        let g = f.with_tag(Some(Tag { tpid: TPID_8021Q, tci: vlan }));
        assert(vlan & 0x1FFFu16 == vlan) by (bit_vector)
            requires
                1 <= vlan <= 4095u16,
        ;
        assert(egr_spec(mode, g) == f);
    }
}

/// Law: a trunk port drops a tagged frame whose VLAN is off its
/// allow-set, and passes the identical frame unchanged once the VLAN
/// is in the allow-set.
pub proof fn lemma_trunk_allow_set(before: PortMode, after: PortMode, f: FrameModel)
    requires
        before matches PortMode::Trunk { .. },
        after matches PortMode::Trunk { .. },
        f.tag is Some,
        !before.trunk_vlans().contains(f.vlan()),
        after.trunk_vlans().contains(f.vlan()),
    ensures
        ing_spec(before, f) is None,
        ing_spec(after, f) == Some(f),
{
}

} // verus!
