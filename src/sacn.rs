//! E1.31 (sACN) data packets: the root, framing and DMP layers that carry one
//! universe, laid out as bytes.
use vstd::prelude::*;
use vstd::string::StringSliceAdditionalSpecFns;
use byteorder::{ByteOrder, NetworkEndian};
use crate::universe::Universe;

verus! {

pub const MAX_PACKET_LENGTH: usize = 638;

pub const ACN_SDT_MULTICAST_PORT: u16 = 5568;

/// Root layer preamble size.
pub const ROOT_LAYER_PREAMBLE_SIZE: u16 = 0x0010;

/// Root layer post-amble size.
pub const ROOT_LAYER_POSTAMBLE_SIZE: u16 = 0x0000;

/// Root layer flags, above the 12-bit length.
pub const ROOT_LAYER_FLAGS: u16 = 0x7000;

/// Root layer vector of a packet that carries E1.31 data.
pub const VECTOR_ROOT_E131_DATA: u32 = 0x0000_0004;

/// Framing layer flags, above the 12-bit length.
pub const DATA_FRAMING_FLAGS: u16 = 0x7000;

/// Framing layer vector of a data packet.
pub const VECTOR_E131_DATA_PACKET: u32 = 0x0000_0002;

/// Option bit: the data is for preview only.
pub const OPT_PREVIEW_DATA: u8 = 0b1000_0000;

/// Option bit: the stream ends with this packet.
pub const OPT_STREAM_TERMINATED: u8 = 0b0100_0000;

/// Option bit: force synchronisation.
pub const OPT_FORCE_SYNC: u8 = 0b0010_0000;

/// DMP layer flags, above the 12-bit length.
pub const DMP_LAYER_FLAGS: u16 = 0x7000;

/// DMP layer vector: set property.
pub const VECTOR_DMP_SET_PROPERTY: u8 = 0x02;

/// DMP layer address and data type.
pub const DMP_ADDRESS_DATA_TYPE: u8 = 0xa1;

pub const FIRST_PROPERTY_ADDRESS: u16 = 0x0000;

pub const ADDRESS_INCREMENT: u16 = 0x0001;

/// The DMX start code that opens the property values.
pub const DMX_START_CODE: u8 = 0x00;

/// Bytes of the source name field, its closing NUL included.
pub const SOURCE_NAME_LENGTH: usize = 64;

/// How far a network output has got towards sending.
#[derive(Clone, Copy, Debug, PartialEq, Eq, Structural)]
pub enum NetworkState {
    Uninitialized,
    Bound,
    Connected,
}

/// `n` in network (big-endian) byte order.
pub open spec fn be16(n: u16) -> Seq<u8> {
    seq![(n / 256) as u8, (n % 256) as u8]
}

/// `n` in network (big-endian) byte order.
pub open spec fn be32(n: u32) -> Seq<u8> {
    seq![(n / 0x100_0000) as u8, ((n / 0x1_0000) % 256) as u8, ((n / 256) % 256) as u8, (n % 256) as u8]
}

/// Relies on byteorder's `NetworkEndian::write_u16`: `n` written big-endian
/// into a two-byte buffer.
#[verifier::external_body]
fn network_u16(n: u16) -> (r: [u8; 2])
    ensures
        r@ == be16(n),
{
    let mut buf = [0u8; 2];
    NetworkEndian::write_u16(&mut buf, n);
    buf
}

/// Relies on byteorder's `NetworkEndian::write_u32`: `n` written big-endian
/// into a four-byte buffer.
#[verifier::external_body]
fn network_u32(n: u32) -> (r: [u8; 4])
    ensures
        r@ == be32(n),
{
    let mut buf = [0u8; 4];
    NetworkEndian::write_u32(&mut buf, n);
    buf
}

/// The ACN packet identifier.
pub open spec fn acn_packet_identifier() -> Seq<u8> {
    seq![0x41u8, 0x53, 0x43, 0x2d, 0x45, 0x31, 0x2e, 0x31, 0x37, 0x00, 0x00, 0x00]
}

/// The source name field: the name's first 63 bytes, padded with spaces to
/// 63, then a closing NUL.
pub open spec fn source_name_field(name: Seq<u8>) -> Seq<u8> {
    Seq::new(
        SOURCE_NAME_LENGTH as nat,
        |i: int|
            if i == 63 {
                0u8
            } else if i < name.len() {
                name[i]
            } else {
                0x20u8
            },
    )
}

pub struct RootLayer {
    pub preamble_size: u16,
    pub postamble_size: u16,
    pub acn_packet_identifier: [u8; 12],
    pub flags_and_length: u16,
    pub vector: u32,
    pub cid: [u8; 16],
}

impl RootLayer {
    pub open spec fn spec_bytes(self) -> Seq<u8> {
        be16(self.preamble_size) + be16(self.postamble_size) + self.acn_packet_identifier@ + be16(
            self.flags_and_length,
        ) + be32(self.vector) + self.cid@
    }

    /// A root layer in front of `length` bytes of framing layer.
    pub fn new(length: u16, vector: u32, cid: &[u8; 16]) -> (r: RootLayer)
        requires
            length + 22 <= u16::MAX,
        ensures
            r.preamble_size == ROOT_LAYER_PREAMBLE_SIZE,
            r.postamble_size == ROOT_LAYER_POSTAMBLE_SIZE,
            r.acn_packet_identifier@ == acn_packet_identifier(),
            r.flags_and_length == (ROOT_LAYER_FLAGS | ((length + 22) as u16 & 0x0fff)),
            r.vector == vector,
            r.cid@ == cid@,
    {
        let length = length + 22;
        let id = [0x41u8, 0x53, 0x43, 0x2d, 0x45, 0x31, 0x2e, 0x31, 0x37, 0x00, 0x00, 0x00];
        assert(id@ =~= acn_packet_identifier());
        RootLayer {
            preamble_size: ROOT_LAYER_PREAMBLE_SIZE,
            postamble_size: ROOT_LAYER_POSTAMBLE_SIZE,
            acn_packet_identifier: id,
            flags_and_length: ROOT_LAYER_FLAGS | (length & 0x0fff),
            vector,
            cid: *cid,
        }
    }
}

pub struct DataPacketFramingLayer {
    pub flags_and_length: u16,
    pub vector: u32,
    pub source_name: [u8; 64],
    pub priority: u8,
    pub sync_address: u16,
    pub seq_number: u8,
    pub options: u8,
    pub universe: u16,
}

impl DataPacketFramingLayer {
    pub open spec fn spec_bytes(self) -> Seq<u8> {
        be16(self.flags_and_length) + be32(self.vector) + self.source_name@ + seq![self.priority]
            + be16(self.sync_address) + seq![self.seq_number, self.options] + be16(self.universe)
    }

    /// A framing layer in front of `length` bytes of DMP layer. A missing
    /// priority is 100, and none above 200 is sent; the universe is held to
    /// 1..=63999.
    pub fn new(
        length: u16,
        source_name: &str,
        priority: Option<u8>,
        sync_address: u16,
        seq_number: u8,
        options: u8,
        universe: u16,
    ) -> (r: DataPacketFramingLayer)
        requires
            length + 77 <= u16::MAX,
        ensures
            r.flags_and_length == (DATA_FRAMING_FLAGS | ((length + 77) as u16 & 0x0fff)),
            r.vector == VECTOR_E131_DATA_PACKET,
            r.source_name@ == source_name_field(source_name.spec_bytes()),
            r.priority == match priority {
                Some(p) => if p > 200 {
                    200
                } else {
                    p
                },
                None => 100,
            },
            r.sync_address == sync_address,
            r.seq_number == seq_number,
            r.options == options,
            r.universe == if universe < 1 {
                1
            } else if universe > 63999 {
                63999
            } else {
                universe
            },
    {
        let length = length + 77;
        let name = source_name.as_bytes();
        let mut field = [0x20u8; 64];
        let mut i: usize = 0;
        while i < 63
            invariant
                i <= 63,
                name@ == source_name.spec_bytes(),
                forall|j: int| 0 <= j < 64 ==> field@[j] == if j < i && j < name@.len() {
                    name@[j]
                } else {
                    0x20u8
                },
            decreases 63 - i,
        {
            if i < name.len() {
                field[i] = name[i];
            }
            i = i + 1;
        }
        field[63] = 0;
        assert(field@ =~= source_name_field(source_name.spec_bytes()));
        let priority = match priority {
            Some(p) => if p > 200 {
                200
            } else {
                p
            },
            None => 100,
        };
        let universe = if universe < 1 {
            1
        } else if universe > 63999 {
            63999
        } else {
            universe
        };
        DataPacketFramingLayer {
            flags_and_length: DATA_FRAMING_FLAGS | (length & 0x0fff),
            vector: VECTOR_E131_DATA_PACKET,
            source_name: field,
            priority,
            sync_address,
            seq_number,
            options,
            universe,
        }
    }

    /// The length the layer announces: its flags-and-length field's low 12 bits.
    pub fn len(&self) -> (r: usize)
        ensures
            r == (self.flags_and_length & 0x0fff),
    {
        (self.flags_and_length & 0x0fff) as usize
    }
}

pub struct DMPLayer {
    pub flags_and_length: u16,
    pub vector: u8,
    pub address_and_data_type: u8,
    pub first_property_address: u16,
    pub address_increment: u16,
    pub property_value_count: u16,
    pub property_values: [u8; 512],
}

impl DMPLayer {
    pub open spec fn spec_bytes(self) -> Seq<u8> {
        be16(self.flags_and_length) + seq![self.vector, self.address_and_data_type] + be16(
            self.first_property_address,
        ) + be16(self.address_increment) + be16(self.property_value_count) + seq![DMX_START_CODE]
            + self.property_values@
    }

    /// A DMP layer carrying the 512 slot values.
    pub fn new(property_values: [u8; 512]) -> (r: DMPLayer)
        ensures
            r.flags_and_length == (DMP_LAYER_FLAGS | 523u16),
            r.vector == VECTOR_DMP_SET_PROPERTY,
            r.address_and_data_type == DMP_ADDRESS_DATA_TYPE,
            r.first_property_address == FIRST_PROPERTY_ADDRESS,
            r.address_increment == ADDRESS_INCREMENT,
            r.property_value_count == 513,
            r.property_values == property_values,
    {
        let length: u16 = 11 + 512;
        assert((523u16 & 0x0fff) == 523u16) by (bit_vector);
        DMPLayer {
            flags_and_length: DMP_LAYER_FLAGS | (length & 0x0fff),
            vector: VECTOR_DMP_SET_PROPERTY,
            address_and_data_type: DMP_ADDRESS_DATA_TYPE,
            first_property_address: FIRST_PROPERTY_ADDRESS,
            address_increment: ADDRESS_INCREMENT,
            property_value_count: 513,
            property_values,
        }
    }

    /// The bytes the layer spans.
    pub fn len(&self) -> (r: usize)
        ensures
            r == 523,
    {
        11 + 512
    }
}

/// One universe of DMX data as an E1.31 packet.
pub struct DataPacket {
    pub root_layer: RootLayer,
    pub framing_layer: DataPacketFramingLayer,
    pub dmp_layer: DMPLayer,
}

/// Appends `bytes` to `out`.
fn append(out: &mut Vec<u8>, bytes: &[u8])
    ensures
        final(out)@ == old(out)@ + bytes@,
{
    let mut i: usize = 0;
    while i < bytes.len()
        invariant
            i <= bytes@.len(),
            out@ == old(out)@ + bytes@.subrange(0, i as int),
        decreases bytes@.len() - i,
    {
        out.push(bytes[i]);
        i = i + 1;
        assert(out@ =~= old(out)@ + bytes@.subrange(0, i as int));
    }
    assert(bytes@.subrange(0, bytes@.len() as int) =~= bytes@);
}

impl DataPacket {
    /// The packet's bytes: root, framing and DMP layers in turn.
    pub open spec fn spec_bytes(self) -> Seq<u8> {
        self.root_layer.spec_bytes() + self.framing_layer.spec_bytes() + self.dmp_layer.spec_bytes()
    }

    /// The packet carrying `universe`, numbered as people count universes.
    pub fn new(
        universe: &Universe,
        source_name: &str,
        priority: Option<u8>,
        sync_address: u16,
        seq_number: u8,
        options: u8,
        cid: &[u8; 16],
    ) -> (r: DataPacket)
        requires
            universe.index < usize::MAX,
        ensures
            r.dmp_layer.property_values@ == Seq::new(512, |i: int| universe.values@[i].0),
            r.dmp_layer.flags_and_length == (DMP_LAYER_FLAGS | 523u16),
            r.framing_layer.flags_and_length == (DATA_FRAMING_FLAGS | 600u16),
            r.framing_layer.universe == if ((universe.index + 1) as u16) < 1 {
                1
            } else if ((universe.index + 1) as u16) > 63999 {
                63999
            } else {
                (universe.index + 1) as u16
            },
            r.framing_layer.seq_number == seq_number,
            r.framing_layer.source_name@ == source_name_field(source_name.spec_bytes()),
            r.root_layer.flags_and_length == (ROOT_LAYER_FLAGS | 622u16),
            r.root_layer.vector == VECTOR_ROOT_E131_DATA,
            r.root_layer.cid@ == cid@,
    {
        let values = universe.bytes();
        assert(values@ =~= Seq::new(512, |i: int| universe.values@[i].0));
        let dmp_layer = DMPLayer::new(values);
        let framing_layer = DataPacketFramingLayer::new(
            dmp_layer.len() as u16,
            source_name,
            priority,
            sync_address,
            seq_number,
            options,
            #[verifier::truncate] (universe.universe_number() as u16),
        );
        assert((600u16 & 0x0fff) == 600u16) by (bit_vector);
        assert(((0x7000u16 | 600u16) & 0x0fff) == 600u16) by (bit_vector);
        assert((framing_layer.flags_and_length & 0x0fff) == 600);
        let root_layer = RootLayer::new(framing_layer.len() as u16, VECTOR_ROOT_E131_DATA, cid);
        assert((622u16 & 0x0fff) == 622u16) by (bit_vector);
        assert((523u16 & 0x0fff) == 523u16) by (bit_vector);
        DataPacket { root_layer, framing_layer, dmp_layer }
    }

    /// The packet laid out as bytes.
    pub fn to_bytes(&self) -> (r: Vec<u8>)
        ensures
            r@ == self.spec_bytes(),
    {
        let mut out: Vec<u8> = Vec::new();
        let root = &self.root_layer;
        append(&mut out, &network_u16(root.preamble_size));
        append(&mut out, &network_u16(root.postamble_size));
        append(&mut out, &root.acn_packet_identifier);
        append(&mut out, &network_u16(root.flags_and_length));
        append(&mut out, &network_u32(root.vector));
        append(&mut out, &root.cid);
        assert(out@ =~= root.spec_bytes());
        let ghost after_root = out@;
        let framing = &self.framing_layer;
        append(&mut out, &network_u16(framing.flags_and_length));
        append(&mut out, &network_u32(framing.vector));
        append(&mut out, &framing.source_name);
        out.push(framing.priority);
        append(&mut out, &network_u16(framing.sync_address));
        out.push(framing.seq_number);
        out.push(framing.options);
        append(&mut out, &network_u16(framing.universe));
        assert(out@ =~= after_root + framing.spec_bytes());
        let ghost after_framing = out@;
        let dmp = &self.dmp_layer;
        append(&mut out, &network_u16(dmp.flags_and_length));
        out.push(dmp.vector);
        out.push(dmp.address_and_data_type);
        append(&mut out, &network_u16(dmp.first_property_address));
        append(&mut out, &network_u16(dmp.address_increment));
        append(&mut out, &network_u16(dmp.property_value_count));
        out.push(DMX_START_CODE);
        append(&mut out, &dmp.property_values);
        assert(out@ =~= after_framing + dmp.spec_bytes());
        out
    }

    /// Writes the packet into the start of `buf`, leaving the rest as it was.
    pub fn pack(&self, buf: &mut Vec<u8>)
        requires
            old(buf)@.len() >= self.spec_bytes().len(),
        ensures
            final(buf)@ == self.spec_bytes() + old(buf)@.subrange(
                self.spec_bytes().len() as int,
                old(buf)@.len() as int,
            ),
    {
        let bytes = self.to_bytes();
        let mut i: usize = 0;
        while i < bytes.len()
            invariant
                bytes@ == self.spec_bytes(),
                i <= bytes@.len(),
                buf@.len() == old(buf)@.len(),
                old(buf)@.len() >= bytes@.len(),
                forall|j: int|
                    0 <= j < buf@.len() ==> buf@[j] == if j < i {
                        bytes@[j]
                    } else {
                        old(buf)@[j]
                    },
            decreases bytes@.len() - i,
        {
            buf.set(i, bytes[i]);
            i = i + 1;
        }
        assert(buf@ =~= self.spec_bytes() + old(buf)@.subrange(
            self.spec_bytes().len() as int,
            old(buf)@.len() as int,
        ));
    }
}

} // verus!
