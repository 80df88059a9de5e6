//! Ethernet frame codec: parsing wire bytes into a frame with an
//! optional 802.1Q tag, and serializing a frame back to wire bytes.

use vstd::prelude::*;

verus! {

/// EtherType value that announces an 802.1Q tag on the wire.
pub const TPID_8021Q: u16 = 0x8100;

/// Mask selecting the 13 low bits of a tag control word, the VLAN id
/// as this switch reads it.
pub const VLAN_MASK: u16 = 0x1FFF;

/// A 48-bit MAC address, held as its six wire-order bytes.
#[derive(Clone, Copy, PartialEq, Eq, Structural, Debug, Hash)]
pub struct Mac {
    pub b0: u8,
    pub b1: u8,
    pub b2: u8,
    pub b3: u8,
    pub b4: u8,
    pub b5: u8,
}

impl View for Mac {
    type V = Seq<u8>;

    open spec fn view(&self) -> Seq<u8> {
        seq![self.b0, self.b1, self.b2, self.b3, self.b4, self.b5]
    }
}

impl Mac {
    pub fn new(b0: u8, b1: u8, b2: u8, b3: u8, b4: u8, b5: u8) -> (m: Mac)
        ensures
            m == (Mac { b0, b1, b2, b3, b4, b5 }),
    {
        Mac { b0, b1, b2, b3, b4, b5 }
    }

    /// The all-ones Ethernet broadcast address.
    pub open spec fn spec_is_broadcast(self) -> bool {
        self == (Mac { b0: 0xFF, b1: 0xFF, b2: 0xFF, b3: 0xFF, b4: 0xFF, b5: 0xFF })
    }

    pub fn is_broadcast(&self) -> (r: bool)
        ensures
            r == self.spec_is_broadcast(),
    {
        self.b0 == 0xFF && self.b1 == 0xFF && self.b2 == 0xFF && self.b3 == 0xFF
            && self.b4 == 0xFF && self.b5 == 0xFF
    }

    /// The address read as a big-endian 48-bit number; injective, so it
    /// can stand for the address in a table key.
    pub open spec fn spec_val(self) -> int {
        ((((self.b0 * 256 + self.b1) * 256 + self.b2) * 256 + self.b3) * 256 + self.b4) * 256
            + self.b5
    }

    pub fn val(&self) -> (v: u64)
        ensures
            v == self.spec_val(),
            v < 0x1000000000000,
    {
        ((((self.b0 as u64 * 256 + self.b1 as u64) * 256 + self.b2 as u64) * 256
            + self.b3 as u64) * 256 + self.b4 as u64) * 256 + self.b5 as u64
    }

    /// The 48-bit value fits below 2^48.
    pub proof fn lemma_val_bound(m: Mac)
        ensures
            0 <= m.spec_val() < 0x1000000000000,
    {
        assert(0 <= m.spec_val() < 0x1000000000000) by (nonlinear_arith)
            requires
                m.b0 < 256 && m.b1 < 256 && m.b2 < 256 && m.b3 < 256 && m.b4 < 256 && m.b5 < 256,
        ;
    }

    /// Two addresses with the same 48-bit value are the same address.
    pub proof fn lemma_val_injective(a: Mac, b: Mac)
        ensures
            a.spec_val() == b.spec_val() ==> a == b,
    {
        if a.spec_val() == b.spec_val() {
            assert(a.b5 == b.b5 && a.b4 == b.b4 && a.b3 == b.b3 && a.b2 == b.b2 && a.b1 == b.b1
                && a.b0 == b.b0) by (nonlinear_arith)
                requires
                    a.spec_val() == b.spec_val(),
                    a.b0 < 256 && a.b1 < 256 && a.b2 < 256 && a.b3 < 256 && a.b4 < 256 && a.b5
                        < 256,
                    b.b0 < 256 && b.b1 < 256 && b.b2 < 256 && b.b3 < 256 && b.b4 < 256 && b.b5
                        < 256,
            ;
        }
    }
}


/// The address whose 48-bit big-endian value is `v`.
pub open spec fn mac_of_val(v: int) -> Mac {
    Mac {
        b0: ((v / 0x10000000000) % 256) as u8,
        b1: ((v / 0x100000000) % 256) as u8,
        b2: ((v / 0x1000000) % 256) as u8,
        b3: ((v / 0x10000) % 256) as u8,
        b4: ((v / 0x100) % 256) as u8,
        b5: (v % 256) as u8,
    }
}

/// Unpacks a 48-bit value back into an address.
pub fn mac_from_val(v: u64) -> (m: Mac)
    requires
        v < 0x1000000000000,
    ensures
        m == mac_of_val(v as int),
{
    Mac {
        b0: ((v / 0x10000000000) % 256) as u8,
        b1: ((v / 0x100000000) % 256) as u8,
        b2: ((v / 0x1000000) % 256) as u8,
        b3: ((v / 0x10000) % 256) as u8,
        b4: ((v / 0x100) % 256) as u8,
        b5: (v % 256) as u8,
    }
}

/// The big-endian 16-bit number held by two wire bytes.
pub open spec fn be16(hi: u8, lo: u8) -> u16 {
    (hi * 256 + lo) as u16
}

/// High byte of a 16-bit number written big-endian.
pub open spec fn be_hi(w: u16) -> u8 {
    (w / 256) as u8
}

/// Low byte of a 16-bit number written big-endian.
pub open spec fn be_lo(w: u16) -> u8 {
    (w % 256) as u8
}

pub proof fn lemma_be16_roundtrip(w: u16)
    ensures
        be16(be_hi(w), be_lo(w)) == w,
{
}

/// An 802.1Q tag as carried on the wire: the tag protocol id and the
/// tag control word (priority, drop-eligible bit, VLAN id).
#[derive(Clone, Copy, PartialEq, Eq, Structural, Debug)]
pub struct Tag {
    pub tpid: u16,
    pub tci: u16,
}

impl Tag {
    /// The VLAN id this switch reads from the control word: its 13 low
    /// bits (the drop-eligible bit is kept in the reading).
    pub open spec fn spec_vlan(self) -> u16 {
        self.tci & VLAN_MASK
    }

    /// Reads a tag from the four bytes that follow the source address.
    pub fn parse(bytes: &[u8]) -> (t: Tag)
        requires
            bytes@.len() == 4,
        ensures
            t == (Tag { tpid: be16(bytes@[0], bytes@[1]), tci: be16(bytes@[2], bytes@[3]) }),
    {
        let tpid: u16 = bytes[0] as u16 * 256 + bytes[1] as u16;
        let tci: u16 = bytes[2] as u16 * 256 + bytes[3] as u16;
        Tag { tpid, tci }
    }

    /// Builds a tag from its three fields; the VLAN id must fit the
    /// 12-bit field, so the drop-eligible bit stays readable.
    pub fn build(pcp: u8, dei: bool, vlan: u16) -> (t: Tag)
        requires
            vlan < 4096,
        ensures
            t.tpid == TPID_8021Q,
            t.tci == (((pcp as u16) << 13) | (if dei { 0x1000u16 } else { 0u16 }) | vlan),
            t.spec_vlan() == vlan + (if dei { 0x1000int } else { 0int }),
    {
        let base: u16 = (pcp as u16) << 13u16;
        let with_dei: u16 = if dei {
            base | 0x1000
        } else {
            base
        };
        let tci: u16 = with_dei | vlan;
        proof {
            let p = pcp as u16;
            if dei {
                assert((p << 13u16) | 0x1000u16 == (p << 13u16) | 0x1000u16 | 0u16) by (bit_vector);
                assert((((p << 13u16) | 0x1000u16) | vlan) & 0x1FFFu16 == (0x1000u16 | vlan)
                    && (0x1000u16 | vlan) == 0x1000 + vlan) by (bit_vector)
                    requires
                        vlan < 4096u16,
                ;
            } else {
                assert((p << 13u16) == (p << 13u16) | 0u16) by (bit_vector);
                assert(((p << 13u16) | vlan) & 0x1FFFu16 == vlan) by (bit_vector)
                    requires
                        vlan < 4096u16,
                ;
            }
        }
        Tag { tpid: TPID_8021Q, tci }
    }

    /// Builds a tag from the two raw 16-bit words, as a transport hands
    /// them over when the hardware stripped the tag from the bytes.
    pub fn build_from_u16(tpid: u16, tci: u16) -> (t: Tag)
        ensures
            t == (Tag { tpid, tci }),
    {
        Tag { tpid, tci }
    }
}

/// Why a byte buffer was rejected by the frame parser.
#[derive(Clone, Copy, PartialEq, Eq, Structural, Debug)]
pub enum FrameError {
    /// Too few bytes for the addresses and EtherType, or for the tag
    /// the EtherType announces.
    TooShort,
}

/// The mathematical reading of a frame: what the contracts speak of.
pub struct FrameModel {
    pub dst_mac: Mac,
    pub src_mac: Mac,
    pub tag: Option<Tag>,
    pub ether_type: u16,
    pub data: Seq<u8>,
}

impl FrameModel {
    /// The frame's logical VLAN: the tag's VLAN id, or 0 when untagged.
    pub open spec fn vlan(self) -> u16 {
        match self.tag {
            Some(t) => t.spec_vlan(),
            None => 0,
        }
    }

    pub open spec fn is_broadcast(self) -> bool {
        self.dst_mac.spec_is_broadcast()
    }

    /// The same frame carrying the given tag.
    pub open spec fn with_tag(self, tag: Option<Tag>) -> FrameModel {
        FrameModel {
            dst_mac: self.dst_mac,
            src_mac: self.src_mac,
            tag,
            ether_type: self.ether_type,
            data: self.data,
        }
    }

    /// The frame's wire bytes: addresses, the tag if one is carried,
    /// the EtherType, then the payload.
    pub open spec fn wire_bytes(self) -> Seq<u8> {
        self.dst_mac@ + self.src_mac@ + (match self.tag {
            Some(t) => seq![be_hi(t.tpid), be_lo(t.tpid), be_hi(t.tci), be_lo(t.tci)],
            None => Seq::<u8>::empty(),
        }) + seq![be_hi(self.ether_type), be_lo(self.ether_type)] + self.data
    }
}

/// What parsing a received buffer of `size` bytes yields: the frame, or
/// the reason the buffer is rejected.  An inline tag is read from the
/// bytes; otherwise a tag reported out-of-band by the transport, if
/// any, is attached.
pub open spec fn spec_parse(bytes: Seq<u8>, size: int, aux_tag: Option<Tag>) -> Result<
    FrameModel,
    FrameError,
> {
    if size < 14 {
        Err(FrameError::TooShort)
    } else if be16(bytes[12], bytes[13]) == TPID_8021Q {
        if size < 18 {
            Err(FrameError::TooShort)
        } else {
            Ok(FrameModel {
                dst_mac: mac_at(bytes, 0),
                src_mac: mac_at(bytes, 6),
                tag: Some(Tag { tpid: be16(bytes[12], bytes[13]), tci: be16(bytes[14], bytes[15]) }),
                ether_type: be16(bytes[16], bytes[17]),
                data: bytes.subrange(18, size),
            })
        }
    } else {
        Ok(FrameModel {
            dst_mac: mac_at(bytes, 0),
            src_mac: mac_at(bytes, 6),
            tag: aux_tag,
            ether_type: be16(bytes[12], bytes[13]),
            data: bytes.subrange(14, size),
        })
    }
}

/// The address held by six bytes starting at `i`.
pub open spec fn mac_at(bytes: Seq<u8>, i: int) -> Mac {
    Mac {
        b0: bytes[i],
        b1: bytes[i + 1],
        b2: bytes[i + 2],
        b3: bytes[i + 3],
        b4: bytes[i + 4],
        b5: bytes[i + 5],
    }
}

/// An Ethernet frame: immutable after parsing but for its tag, which
/// ingress and egress processing rewrite.
#[derive(Debug)]
pub struct Frame {
    pub dst_mac: Mac,
    pub src_mac: Mac,
    pub tag: Option<Tag>,
    pub ether_type: u16,
    pub data: Vec<u8>,
}

impl View for Frame {
    type V = FrameModel;

    open spec fn view(&self) -> FrameModel {
        FrameModel {
            dst_mac: self.dst_mac,
            src_mac: self.src_mac,
            tag: self.tag,
            ether_type: self.ether_type,
            data: self.data@,
        }
    }
}

impl Clone for Frame {
    fn clone(&self) -> (r: Self)
        ensures
            r@ == self@,
    {
        Frame {
            dst_mac: self.dst_mac,
            src_mac: self.src_mac,
            tag: self.tag,
            ether_type: self.ether_type,
            data: self.data.clone(),
        }
    }
}

impl Frame {
    /// Parses the first `size` bytes of a received buffer.  Rejects a
    /// buffer too short for the fixed header, or for the tag its
    /// EtherType announces; a short buffer is an error, not a panic, so
    /// a malformed frame costs only itself.
    pub fn parse(bytes: &[u8], size: usize, aux_tag: Option<Tag>) -> (r: Result<Frame, FrameError>)
        requires
            size <= bytes@.len(),
        ensures
            match r {
                Ok(f) => spec_parse(bytes@, size as int, aux_tag) == Ok::<FrameModel, FrameError>(
                    f@,
                ),
                Err(e) => spec_parse(bytes@, size as int, aux_tag) == Err::<FrameModel, FrameError>(
                    e,
                ),
            },
    {
        if size < 14 {
            return Err(FrameError::TooShort);
        }
        let dst_mac = Mac::new(bytes[0], bytes[1], bytes[2], bytes[3], bytes[4], bytes[5]);
        let src_mac = Mac::new(bytes[6], bytes[7], bytes[8], bytes[9], bytes[10], bytes[11]);
        let ether_type: u16 = bytes[12] as u16 * 256 + bytes[13] as u16;
        if ether_type == TPID_8021Q {
            // The tag sits inline: read it, then the real EtherType.
            if size < 18 {
                return Err(FrameError::TooShort);
            }
            let tag = Tag { tpid: ether_type, tci: bytes[14] as u16 * 256 + bytes[15] as u16 };
            let real_ether_type: u16 = bytes[16] as u16 * 256 + bytes[17] as u16;
            let data = copy_range(bytes, 18, size);
            Ok(Frame { dst_mac, src_mac, tag: Some(tag), ether_type: real_ether_type, data })
        } else {
            let data = copy_range(bytes, 14, size);
            Ok(Frame { dst_mac, src_mac, tag: aux_tag, ether_type, data })
        }
    }

    /// Serializes the frame back to wire bytes; the tag bytes are
    /// emitted exactly when a tag is carried.
    pub fn to_bytes(&self) -> (r: Vec<u8>)
        ensures
            r@ == self@.wire_bytes(),
    {
        let mut bytes: Vec<u8> = Vec::new();
        bytes.push(self.dst_mac.b0);
        bytes.push(self.dst_mac.b1);
        bytes.push(self.dst_mac.b2);
        bytes.push(self.dst_mac.b3);
        bytes.push(self.dst_mac.b4);
        bytes.push(self.dst_mac.b5);
        bytes.push(self.src_mac.b0);
        bytes.push(self.src_mac.b1);
        bytes.push(self.src_mac.b2);
        bytes.push(self.src_mac.b3);
        bytes.push(self.src_mac.b4);
        bytes.push(self.src_mac.b5);
        if let Some(tag) = &self.tag {
            bytes.push((tag.tpid / 256) as u8);
            bytes.push((tag.tpid % 256) as u8);
            bytes.push((tag.tci / 256) as u8);
            bytes.push((tag.tci % 256) as u8);
        }
        bytes.push((self.ether_type / 256) as u8);
        bytes.push((self.ether_type % 256) as u8);
        let mut i: usize = 0;
        while i < self.data.len()
            invariant
                i <= self.data.len(),
                bytes@ == self@.wire_bytes().take(self@.wire_bytes().len() - self.data.len() + i),
            decreases self.data.len() - i,
        {
            bytes.push(self.data[i]);
            i = i + 1;
        }
        proof {
            assert(bytes@ =~= self@.wire_bytes());
        }
        bytes
    }

    /// A human-readable name for well-known EtherType values.
    pub fn get_eth_type(&self) -> (r: &'static str)
        ensures
            self.ether_type == 0x0800 ==> r@ == "IPv4"@,
            self.ether_type == 0x0806 ==> r@ == "ARP"@,
            self.ether_type == 0x86dd ==> r@ == "IPv6"@,
            !(self.ether_type == 0x0800 || self.ether_type == 0x0806 || self.ether_type == 0x86dd)
                ==> r@ == "UNKNOWN"@,
    {
        match self.ether_type {
            0x0800 => "IPv4",
            0x0806 => "ARP",
            0x86dd => "IPv6",
            _ => "UNKNOWN",
        }
    }

    pub fn is_broadcast(&self) -> (r: bool)
        ensures
            r == self@.is_broadcast(),
    {
        self.dst_mac.is_broadcast()
    }

    /// Tags the frame in place with the given VLAN id, priority 0 and
    /// the drop-eligible bit clear.
    pub fn tag(&mut self, vlan: u16)
        requires
            vlan < 4096,
        ensures
            final(self)@ == old(self)@.with_tag(Some(Tag { tpid: TPID_8021Q, tci: vlan })),
            final(self)@.vlan() == vlan,
    {
        let t = Tag::build(0, false, vlan);
        proof {
            assert(((0u16 << 13) | 0u16) | vlan == vlan) by (bit_vector);
        }
        self.tag = Some(t);
    }

    /// Strips the tag, if any, in place.
    pub fn untag(&mut self)
        ensures
            final(self)@ == old(self)@.with_tag(None),
    {
        self.tag = None;
    }

    /// The frame's logical VLAN: the tag's 13-bit VLAN id, or 0 for an
    /// untagged frame.
    pub fn get_vlan(&self) -> (v: u16)
        ensures
            v == self@.vlan(),
    {
        if let Some(t) = &self.tag {
            t.tci & VLAN_MASK
        } else {
            0
        }
    }
}

/// Copies `bytes[from..to]` into a fresh vector.
fn copy_range(bytes: &[u8], from: usize, to: usize) -> (r: Vec<u8>)
    requires
        from <= to <= bytes@.len(),
    ensures
        r@ == bytes@.subrange(from as int, to as int),
{
    let mut r: Vec<u8> = Vec::new();
    let mut i: usize = from;
    while i < to
        invariant
            from <= i <= to <= bytes@.len(),
            r@ == bytes@.subrange(from as int, i as int),
        decreases to - i,
    {
        r.push(bytes[i]);
        i = i + 1;
        proof {
            assert(r@ =~= bytes@.subrange(from as int, i as int));
        }
    }
    r
}

/// Tagging an untagged frame and untagging it again restores the frame,
/// and so its wire bytes, exactly.
pub proof fn lemma_tag_untag_roundtrip(m: FrameModel, vlan: u16)
    requires
        m.tag is None,
    ensures
        m.with_tag(Some(Tag { tpid: TPID_8021Q, tci: vlan })).with_tag(None) == m,
        m.with_tag(Some(Tag { tpid: TPID_8021Q, tci: vlan })).with_tag(None).wire_bytes()
            == m.wire_bytes(),
{
}

} // verus!
