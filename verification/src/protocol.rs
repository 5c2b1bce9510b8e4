//! The USB/IP handshake messages: device records, the four frames of device
//! listing and import, and their byte encoding.
use vstd::prelude::*;
use vstd::utf8::*;

use crate::error::{DecodeError, EncodeError, ParseError};
use crate::text::{text_equals, trim, trimmed};
use crate::wire::{
    be16_bytes, be16_value, be32_bytes, be32_value, fits_field, fixed_length_buffer_from_str, get_u16,
    get_u32, lemma_be16_roundtrip, lemma_be32_roundtrip, lemma_str_field_roundtrip, parse_str_field,
    put_u16, put_u32, str_field, string_from_fixed_length_buffer,
    unexpected_eof,
};

verus! {

broadcast use vstd::utf8::group_utf8_lib;

/// Opcode of a device-list request.
pub const OP_REQ_DEVLIST: u16 = 0x8005;
/// Opcode of a device-list reply.
pub const OP_REP_DEVLIST: u16 = 0x0005;
/// Opcode of an import request.
pub const OP_REQ_IMPORT: u16 = 0x8003;
/// Opcode of an import reply.
pub const OP_REP_IMPORT: u16 = 0x0003;

/// Width of the device path field.
pub const PATH_FIELD_WIDTH: usize = 256;
/// Width of the bus id field.
pub const BUS_ID_FIELD_WIDTH: usize = 32;
/// Size of a device record before its interfaces.
pub const DEVICE_HEADER_SIZE: usize = 312;
/// Size of one interface record.
pub const INTERFACE_SIZE: usize = 4;

/// Speed of a USB device as the protocol numbers it.
#[derive(Copy, Clone, Debug, PartialEq, Eq, Structural)]
pub enum DeviceSpeed {
    Unknown,
    Low,
    Full,
    High,
    Wireless,
    Super,
    SuperPlus,
}

/// The protocol number of a speed.
pub open spec fn speed_code(s: DeviceSpeed) -> u32 {
    match s {
        DeviceSpeed::Unknown => 0,
        DeviceSpeed::Low => 1,
        DeviceSpeed::Full => 2,
        DeviceSpeed::High => 3,
        DeviceSpeed::Wireless => 4,
        DeviceSpeed::Super => 5,
        DeviceSpeed::SuperPlus => 6,
    }
}

/// The speed a protocol number stands for, if any.
pub open spec fn speed_of_code(v: u32) -> Option<DeviceSpeed> {
    if v == 0 {
        Some(DeviceSpeed::Unknown)
    } else if v == 1 {
        Some(DeviceSpeed::Low)
    } else if v == 2 {
        Some(DeviceSpeed::Full)
    } else if v == 3 {
        Some(DeviceSpeed::High)
    } else if v == 4 {
        Some(DeviceSpeed::Wireless)
    } else if v == 5 {
        Some(DeviceSpeed::Super)
    } else if v == 6 {
        Some(DeviceSpeed::SuperPlus)
    } else {
        None
    }
}

impl Default for DeviceSpeed {
    fn default() -> (s: Self)
        ensures
            s == DeviceSpeed::Unknown,
    {
        DeviceSpeed::Unknown
    }
}

impl DeviceSpeed {
    /// The speed a protocol number stands for; the number itself when it stands
    /// for none.
    pub fn try_from_primitive(value: u32) -> (r: Result<DeviceSpeed, u32>)
        ensures
            match speed_of_code(value) {
                Some(s) => r == Ok::<DeviceSpeed, u32>(s),
                None => r == Err::<DeviceSpeed, u32>(value),
            },
    {
        match value {
            0 => Ok(DeviceSpeed::Unknown),
            1 => Ok(DeviceSpeed::Low),
            2 => Ok(DeviceSpeed::Full),
            3 => Ok(DeviceSpeed::High),
            4 => Ok(DeviceSpeed::Wireless),
            5 => Ok(DeviceSpeed::Super),
            6 => Ok(DeviceSpeed::SuperPlus),
            _ => Err(value),
        }
    }

    /// The protocol number of this speed.
    pub fn into_primitive(self) -> (v: u32)
        ensures
            v == speed_code(self),
    {
        match self {
            DeviceSpeed::Unknown => 0,
            DeviceSpeed::Low => 1,
            DeviceSpeed::Full => 2,
            DeviceSpeed::High => 3,
            DeviceSpeed::Wireless => 4,
            DeviceSpeed::Super => 5,
            DeviceSpeed::SuperPlus => 6,
        }
    }
}

/// Every speed reads back from its protocol number; hence no two speeds share
/// a number.
pub proof fn lemma_speed_code_roundtrip(s: DeviceSpeed)
    ensures
        speed_of_code(speed_code(s)) == Some(s),
{
}

/// One interface of a device.
#[derive(Copy, Clone, Debug, PartialEq, Eq, Structural)]
pub struct USBDeviceInterface {
    pub class: u8,
    pub subclass: u8,
    pub protocol: u8,
}

impl Default for USBDeviceInterface {
    fn default() -> (i: Self)
        ensures
            i == (USBDeviceInterface { class: 0, subclass: 0, protocol: 0 }),
    {
        USBDeviceInterface { class: 0, subclass: 0, protocol: 0 }
    }
}

/// A device as the protocol describes it.
#[derive(Clone, Debug)]
pub struct USBDevice {
    pub path: String,
    pub bus_id: String,
    pub bus_num: u32,
    pub device_num: u32,
    pub speed: DeviceSpeed,
    pub vendor_id: u16,
    pub product_id: u16,
    /// Called "bcdDevice" in the protocol.
    pub revision_num: u16,
    pub class: u8,
    pub subclass: u8,
    pub protocol: u8,
    pub configuration_value: u8,
    pub num_configurations: u8,
    pub interfaces: Vec<USBDeviceInterface>,
}

/// The value of a device record, with its texts as character sequences.
pub struct USBDeviceView {
    pub path: Seq<char>,
    pub bus_id: Seq<char>,
    pub bus_num: u32,
    pub device_num: u32,
    pub speed: DeviceSpeed,
    pub vendor_id: u16,
    pub product_id: u16,
    pub revision_num: u16,
    pub class: u8,
    pub subclass: u8,
    pub protocol: u8,
    pub configuration_value: u8,
    pub num_configurations: u8,
    pub interfaces: Seq<USBDeviceInterface>,
}

impl View for USBDevice {
    type V = USBDeviceView;

    open spec fn view(&self) -> USBDeviceView {
        USBDeviceView {
            path: self.path@,
            bus_id: self.bus_id@,
            bus_num: self.bus_num,
            device_num: self.device_num,
            speed: self.speed,
            vendor_id: self.vendor_id,
            product_id: self.product_id,
            revision_num: self.revision_num,
            class: self.class,
            subclass: self.subclass,
            protocol: self.protocol,
            configuration_value: self.configuration_value,
            num_configurations: self.num_configurations,
            interfaces: self.interfaces@,
        }
    }
}

/// The identifier of a device: its bus number in the upper half, its device
/// number below.
pub open spec fn device_id_of(bus_num: u32, device_num: u32) -> u32 {
    (bus_num << 16u32) | device_num
}

impl USBDevice {
    /// The device identifier that the kernel expects on attach.
    pub fn device_id(&self) -> (id: u32)
        ensures
            id == device_id_of(self.bus_num, self.device_num),
    {
        (self.bus_num << 16u32) | self.device_num
    }

    /// A copy of this record.
    pub fn duplicate(&self) -> (d: USBDevice)
        ensures
            d@ == self@,
    {
        let mut interfaces: Vec<USBDeviceInterface> = Vec::new();
        let mut i: usize = 0;
        while i < self.interfaces.len()
            invariant
                i <= self.interfaces@.len(),
                interfaces@ == self.interfaces@.take(i as int),
            decreases self.interfaces@.len() - i,
        {
            interfaces.push(self.interfaces[i]);
            i = i + 1;
            assert(interfaces@ =~= self.interfaces@.take(i as int));
        }
        assert(interfaces@ =~= self.interfaces@);
        USBDevice {
            path: self.path.clone(),
            bus_id: self.bus_id.clone(),
            bus_num: self.bus_num,
            device_num: self.device_num,
            speed: self.speed,
            vendor_id: self.vendor_id,
            product_id: self.product_id,
            revision_num: self.revision_num,
            class: self.class,
            subclass: self.subclass,
            protocol: self.protocol,
            configuration_value: self.configuration_value,
            num_configurations: self.num_configurations,
            interfaces,
        }
    }
}

/// When bus and device numbers both fit in 16 bits, the identifier keeps both:
/// the bus number is its upper half and the device number its lower half.
pub proof fn lemma_device_id_splits(bus_num: u32, device_num: u32)
    requires
        bus_num < 0x1_0000,
        device_num < 0x1_0000,
    ensures
        device_id_of(bus_num, device_num) / 0x1_0000 == bus_num,
        device_id_of(bus_num, device_num) % 0x1_0000 == device_num,
{
    assert(((bus_num << 16u32) | device_num) / 0x1_0000 == bus_num
        && ((bus_num << 16u32) | device_num) % 0x1_0000 == device_num) by (bit_vector)
        requires
            bus_num < 0x1_0000,
            device_num < 0x1_0000,
    ;
}

impl Default for USBDevice {
    fn default() -> (d: Self)
        ensures
            d@.path.len() == 0,
            d@.bus_id.len() == 0,
            d.bus_num == 0,
            d.device_num == 0,
            d.speed == DeviceSpeed::Unknown,
            d.vendor_id == 0,
            d.product_id == 0,
            d.revision_num == 0,
            d.class == 0,
            d.subclass == 0,
            d.protocol == 0,
            d.configuration_value == 0,
            d.num_configurations == 0,
            d@.interfaces.len() == 0,
    {
        USBDevice {
            path: String::new(),
            bus_id: String::new(),
            bus_num: 0,
            device_num: 0,
            speed: DeviceSpeed::Unknown,
            vendor_id: 0,
            product_id: 0,
            revision_num: 0,
            class: 0,
            subclass: 0,
            protocol: 0,
            configuration_value: 0,
            num_configurations: 0,
            interfaces: Vec::new(),
        }
    }
}


/// Why a frame cannot be written: a text that does not fit its field, and the
/// bytes already written when that text was reached.
pub struct EncodeFailure {
    pub text: Seq<char>,
    pub width: nat,
    pub written: Seq<u8>,
}

/// A failure reached after `prefix` was written.
pub open spec fn failure_after(prefix: Seq<u8>, e: EncodeFailure) -> EncodeFailure {
    EncodeFailure { text: e.text, width: e.width, written: prefix + e.written }
}

/// Why bytes do not read as a frame.
pub enum DecodeFailure {
    /// The bytes end before the frame does.
    Truncated,
    UnsupportedOpcode(u16),
    InvalidUtf8,
    InvalidSpeed(u32),
}

/// The class of a decoding error.
pub open spec fn failure_of(e: DecodeError) -> DecodeFailure {
    match e {
        DecodeError::UnsupportedOpcode(op) => DecodeFailure::UnsupportedOpcode(op),
        DecodeError::Io(_) => DecodeFailure::Truncated,
        DecodeError::InvalidUtf8(_) => DecodeFailure::InvalidUtf8,
        DecodeError::InvalidSpeed(v) => DecodeFailure::InvalidSpeed(v),
    }
}

/// A decoding result agrees with what the format says of the same bytes: the
/// same value and length read, or an error of the same class.
pub open spec fn decoded_as<T: View>(
    r: Result<(T, usize), DecodeError>,
    s: Result<(T::V, int), DecodeFailure>,
) -> bool {
    match r {
        Ok((v, n)) => s == Ok::<(T::V, int), DecodeFailure>((v@, n as int)),
        Err(e) => s == Err::<(T::V, int), DecodeFailure>(failure_of(e)),
    }
}

/// An encoding result agrees with what the format says: on success `after` is
/// `before` followed by the encoding; on failure the same text and width are
/// reported, and `after` is `before` followed by what was written before the
/// failure.
pub open spec fn encoded_as(
    r: Result<(), EncodeError>,
    s: Result<Seq<u8>, EncodeFailure>,
    before: Seq<u8>,
    after: Seq<u8>,
) -> bool {
    match r {
        Ok(()) => match s {
            Ok(b) => after == before + b,
            Err(_) => false,
        },
        Err(EncodeError::StringExceedsFieldWidth(t, w)) => s matches Err(f) && f.text == t@
            && f.width == w as nat && after == before + f.written,
        Err(EncodeError::Io(_)) => false,
    }
}

/// Writing a message into a byte buffer.
pub trait Encode: View {
    /// The bytes that stand for a message, or the text that does not fit.
    spec fn spec_encode(v: Self::V) -> Result<Seq<u8>, EncodeFailure>;

    /// Appends the encoding of `self` to `out`; on failure `out` keeps what was
    /// appended before the text that does not fit.
    fn encode(&self, out: &mut Vec<u8>) -> (r: Result<(), EncodeError>)
        ensures
            encoded_as(r, Self::spec_encode(self@), old(out)@, final(out)@),
    ;
}

/// Reading a message from the start of a byte buffer.
pub trait Decode: Sized + View {
    /// The message at the start of `b` and its length, or why there is none.
    spec fn spec_decode(b: Seq<u8>) -> Result<(Self::V, int), DecodeFailure>;

    /// Reads the message at the start of `bytes`; returns it with the number of
    /// bytes it took.
    fn decode(bytes: &[u8]) -> (r: Result<(Self, usize), DecodeError>)
        ensures
            decoded_as(r, Self::spec_decode(bytes@)),
    ;
}

/// The four bytes of an interface record; the last is padding.
pub open spec fn interface_bytes(i: USBDeviceInterface) -> Seq<u8> {
    seq![i.class, i.subclass, i.protocol, 0u8]
}

/// The interface records one after the other.
pub open spec fn interfaces_bytes(is: Seq<USBDeviceInterface>) -> Seq<u8>
    decreases is.len(),
{
    if is.len() == 0 {
        Seq::empty()
    } else {
        interfaces_bytes(is.drop_last()) + interface_bytes(is.last())
    }
}

/// The interface record at `pos`.
pub open spec fn interface_at(b: Seq<u8>, pos: int) -> USBDeviceInterface {
    USBDeviceInterface { class: b[pos], subclass: b[pos + 1], protocol: b[pos + 2] }
}

/// The `n` interface records at the start of `b`.
pub open spec fn interfaces_at(b: Seq<u8>, n: nat) -> Seq<USBDeviceInterface> {
    Seq::new(n, |i: int| interface_at(b, 4 * i))
}

/// The bytes of a device record: texts, numbers, interface count, interfaces.
#[verifier::opaque]
pub open spec fn device_bytes(d: USBDeviceView) -> Seq<u8> {
    str_field(d.path, 256) + str_field(d.bus_id, 32) + be32_bytes(d.bus_num) + be32_bytes(
        d.device_num,
    ) + be32_bytes(speed_code(d.speed)) + be16_bytes(d.vendor_id) + be16_bytes(d.product_id)
        + be16_bytes(d.revision_num) + seq![
        d.class,
        d.subclass,
        d.protocol,
        d.configuration_value,
        d.num_configurations,
        d.interfaces.len() as u8,
    ] + interfaces_bytes(d.interfaces)
}

/// A device record is written unless its path, then its bus id, is too long;
/// a bus id that is too long is found after the path field was written.
pub open spec fn encode_device(d: USBDeviceView) -> Result<Seq<u8>, EncodeFailure> {
    if !fits_field(d.path, 256) {
        Err(EncodeFailure { text: d.path, width: 256, written: Seq::empty() })
    } else if !fits_field(d.bus_id, 32) {
        Err(EncodeFailure { text: d.bus_id, width: 32, written: str_field(d.path, 256) })
    } else {
        Ok(device_bytes(d))
    }
}

/// How a device record reads from the start of `b`, field by field.
#[verifier::opaque]
pub open spec fn parse_device(b: Seq<u8>) -> Result<(USBDeviceView, int), DecodeFailure> {
    match parse_str_field(b, 256) {
        None => Err(DecodeFailure::Truncated),
        Some(Err(_)) => Err(DecodeFailure::InvalidUtf8),
        Some(Ok(path)) => match parse_str_field(b.skip(256), 32) {
            None => Err(DecodeFailure::Truncated),
            Some(Err(_)) => Err(DecodeFailure::InvalidUtf8),
            Some(Ok(bus_id)) => {
                if b.len() < 300 {
                    Err(DecodeFailure::Truncated)
                } else {
                    let raw_speed = be32_value(b.subrange(296, 300));
                    match speed_of_code(raw_speed) {
                        None => Err(DecodeFailure::InvalidSpeed(raw_speed)),
                        Some(speed) => {
                            if b.len() < 312 || b.len() < 312 + 4 * b[311] {
                                Err(DecodeFailure::Truncated)
                            } else {
                                Ok(
                                    (
                                        USBDeviceView {
                                            path,
                                            bus_id,
                                            bus_num: be32_value(b.subrange(288, 292)),
                                            device_num: be32_value(b.subrange(292, 296)),
                                            speed,
                                            vendor_id: be16_value(b.subrange(300, 302)),
                                            product_id: be16_value(b.subrange(302, 304)),
                                            revision_num: be16_value(b.subrange(304, 306)),
                                            class: b[306],
                                            subclass: b[307],
                                            protocol: b[308],
                                            configuration_value: b[309],
                                            num_configurations: b[310],
                                            interfaces: interfaces_at(b.skip(312), b[311] as nat),
                                        },
                                        312 + 4 * b[311],
                                    ),
                                )
                            }
                        },
                    }
                }
            },
        },
    }
}

/// The device records one after the other; the first record that cannot be
/// written decides the failure, after the records before it.
pub open spec fn encode_devices(ds: Seq<USBDeviceView>) -> Result<Seq<u8>, EncodeFailure>
    decreases ds.len(),
{
    if ds.len() == 0 {
        Ok(Seq::empty())
    } else {
        match encode_devices(ds.drop_last()) {
            Err(e) => Err(e),
            Ok(b) => match encode_device(ds.last()) {
                Err(e) => Err(failure_after(b, e)),
                Ok(x) => Ok(b + x),
            },
        }
    }
}

/// How `n` device records read one after the other from the start of `b`.
pub open spec fn parse_devices(b: Seq<u8>, n: nat) -> Result<(Seq<USBDeviceView>, int), DecodeFailure>
    decreases n,
{
    if n == 0 {
        Ok((Seq::empty(), 0))
    } else {
        match parse_devices(b, (n - 1) as nat) {
            Err(e) => Err(e),
            Ok((ds, k)) => match parse_device(b.skip(k)) {
                Err(e) => Err(e),
                Ok((d, m)) => Ok((ds.push(d), k + m)),
            },
        }
    }
}

/// The start of every frame: protocol version (written as zero) and opcode.
pub open spec fn frame_header(op: u16) -> Seq<u8> {
    be16_bytes(0) + be16_bytes(op)
}


impl View for USBDeviceInterface {
    type V = USBDeviceInterface;

    open spec fn view(&self) -> USBDeviceInterface {
        *self
    }
}

impl Encode for USBDeviceInterface {
    open spec fn spec_encode(v: USBDeviceInterface) -> Result<Seq<u8>, EncodeFailure> {
        Ok(interface_bytes(v))
    }

    fn encode(&self, out: &mut Vec<u8>) -> (r: Result<(), EncodeError>) {
        out.push(self.class);
        out.push(self.subclass);
        out.push(self.protocol);
        out.push(0);
        assert(final(out)@ =~= old(out)@ + interface_bytes(*self));
        Ok(())
    }
}

impl Decode for USBDeviceInterface {
    open spec fn spec_decode(b: Seq<u8>) -> Result<(USBDeviceInterface, int), DecodeFailure> {
        if b.len() < 4 {
            Err(DecodeFailure::Truncated)
        } else {
            Ok((interface_at(b, 0), 4))
        }
    }

    fn decode(bytes: &[u8]) -> (r: Result<(USBDeviceInterface, usize), DecodeError>) {
        if bytes.len() < INTERFACE_SIZE {
            return Err(DecodeError::Io(unexpected_eof()));
        }
        Ok((USBDeviceInterface { class: bytes[0], subclass: bytes[1], protocol: bytes[2] }, 4))
    }
}

impl Encode for USBDevice {
    open spec fn spec_encode(v: USBDeviceView) -> Result<Seq<u8>, EncodeFailure> {
        encode_device(v)
    }

    fn encode(&self, out: &mut Vec<u8>) -> (r: Result<(), EncodeError>) {
        reveal(device_bytes);
        let ghost start = out@;
        let mut path = fixed_length_buffer_from_str(self.path.as_str(), PATH_FIELD_WIDTH)?;
        out.append(&mut path);
        let mut bus_id = match fixed_length_buffer_from_str(self.bus_id.as_str(), BUS_ID_FIELD_WIDTH) {
            Ok(b) => b,
            Err(e) => {
                assert(out@ == start + str_field(self@.path, 256));
                return Err(e);
            },
        };
        out.append(&mut bus_id);
        put_u32(out, self.bus_num);
        put_u32(out, self.device_num);
        put_u32(out, self.speed.into_primitive());
        put_u16(out, self.vendor_id);
        put_u16(out, self.product_id);
        put_u16(out, self.revision_num);
        out.push(self.class);
        out.push(self.subclass);
        out.push(self.protocol);
        out.push(self.configuration_value);
        out.push(self.num_configurations);
        out.push(self.interfaces.len() as u8);
        let ghost head = out@;
        assert(head =~= start + (device_bytes(self@).take(312)));
        let mut i: usize = 0;
        while i < self.interfaces.len()
            invariant
                i <= self.interfaces@.len(),
                out@ == head + interfaces_bytes(self.interfaces@.take(i as int)),
            decreases self.interfaces@.len() - i,
        {
            let _ = self.interfaces[i].encode(out);
            assert(self.interfaces@.take(i + 1).drop_last() =~= self.interfaces@.take(i as int));
            i = i + 1;
            assert(out@ =~= head + interfaces_bytes(self.interfaces@.take(i as int)));
        }
        assert(self.interfaces@.take(i as int) =~= self.interfaces@);
        assert(out@ =~= start + device_bytes(self@));
        Ok(())
    }
}

impl Decode for USBDevice {
    open spec fn spec_decode(b: Seq<u8>) -> Result<(USBDeviceView, int), DecodeFailure> {
        parse_device(b)
    }

    fn decode(bytes: &[u8]) -> (r: Result<(USBDevice, usize), DecodeError>) {
        reveal(parse_device);
        let len = bytes.len();
        if len < PATH_FIELD_WIDTH {
            return Err(DecodeError::Io(unexpected_eof()));
        }
        assert(bytes@.subrange(0, 256) =~= bytes@.take(256));
        let path = string_from_fixed_length_buffer(&bytes[0..256])?;
        if len < 288 {
            return Err(DecodeError::Io(unexpected_eof()));
        }
        assert(bytes@.subrange(256, 288) =~= bytes@.skip(256).take(32));
        let bus_id = string_from_fixed_length_buffer(&bytes[256..288])?;
        if len < 300 {
            return Err(DecodeError::Io(unexpected_eof()));
        }
        let bus_num = get_u32(bytes, 288);
        let device_num = get_u32(bytes, 292);
        let raw_speed = get_u32(bytes, 296);
        let speed = match DeviceSpeed::try_from_primitive(raw_speed) {
            Ok(speed) => speed,
            Err(v) => return Err(DecodeError::InvalidSpeed(v)),
        };
        if len < DEVICE_HEADER_SIZE {
            return Err(DecodeError::Io(unexpected_eof()));
        }
        let vendor_id = get_u16(bytes, 300);
        let product_id = get_u16(bytes, 302);
        let revision_num = get_u16(bytes, 304);
        let num_interfaces = bytes[311];
        if len < DEVICE_HEADER_SIZE + INTERFACE_SIZE * (num_interfaces as usize) {
            return Err(DecodeError::Io(unexpected_eof()));
        }
        let mut interfaces: Vec<USBDeviceInterface> = Vec::new();
        let mut i: usize = 0;
        let mut pos: usize = DEVICE_HEADER_SIZE;
        while i < num_interfaces as usize
            invariant
                i <= num_interfaces,
                pos == 312 + 4 * i,
                len == bytes@.len(),
                len >= 312 + 4 * num_interfaces,
                interfaces@ == interfaces_at(bytes@.skip(312), i as nat),
            decreases num_interfaces - i,
        {
            interfaces.push(
                USBDeviceInterface {
                    class: bytes[pos],
                    subclass: bytes[pos + 1],
                    protocol: bytes[pos + 2],
                },
            );
            i = i + 1;
            pos = pos + INTERFACE_SIZE;
            assert(interfaces@ =~= interfaces_at(bytes@.skip(312), i as nat));
        }
        let d = USBDevice {
            path,
            bus_id,
            bus_num,
            device_num,
            speed,
            vendor_id,
            product_id,
            revision_num,
            class: bytes[306],
            subclass: bytes[307],
            protocol: bytes[308],
            configuration_value: bytes[309],
            num_configurations: bytes[310],
            interfaces,
        };
        Ok((d, pos))
    }
}


/// The message kinds of the handshake.
#[derive(Debug)]
enum Opcode {
    ReqDevlist,
    RepDevlist,
    ReqImport,
    RepImport,
}

/// The opcode of a message kind.
spec fn opcode_value(op: Opcode) -> u16 {
    match op {
        Opcode::ReqDevlist => OP_REQ_DEVLIST,
        Opcode::RepDevlist => OP_REP_DEVLIST,
        Opcode::ReqImport => OP_REQ_IMPORT,
        Opcode::RepImport => OP_REP_IMPORT,
    }
}

impl Opcode {
    fn code(self) -> (c: u16)
        ensures
            c == opcode_value(self),
    {
        match self {
            Opcode::ReqDevlist => OP_REQ_DEVLIST,
            Opcode::RepDevlist => OP_REP_DEVLIST,
            Opcode::ReqImport => OP_REQ_IMPORT,
            Opcode::RepImport => OP_REP_IMPORT,
        }
    }

    /// The message kind of an opcode; the handshake uses no other.
    fn try_from_code(value: u16) -> (r: Result<Opcode, DecodeError>)
        ensures
            match r {
                Ok(op) => opcode_value(op) == value,
                Err(e) => e == DecodeError::UnsupportedOpcode(value) && value != OP_REQ_DEVLIST
                    && value != OP_REP_DEVLIST && value != OP_REQ_IMPORT && value != OP_REP_IMPORT,
            },
    {
        if value == OP_REQ_DEVLIST {
            Ok(Opcode::ReqDevlist)
        } else if value == OP_REP_DEVLIST {
            Ok(Opcode::RepDevlist)
        } else if value == OP_REQ_IMPORT {
            Ok(Opcode::ReqImport)
        } else if value == OP_REP_IMPORT {
            Ok(Opcode::RepImport)
        } else {
            Err(DecodeError::UnsupportedOpcode(value))
        }
    }
}

/// The value of each device record in `v`.
pub open spec fn devices_view(v: Seq<USBDevice>) -> Seq<USBDeviceView> {
    v.map_values(|d: USBDevice| d@)
}

/// Request for the list of exported devices. The protocol's version and
/// status fields carry nothing for this request.
#[derive(Debug)]
pub struct PayloadRequestDeviceList;

/// Reply with the exported devices.
#[derive(Debug)]
pub struct PayloadReplyDeviceList {
    pub status: u32,
    pub devices: Vec<USBDevice>,
}

/// Request to import the device on bus `bus_id`.
#[derive(Debug)]
pub struct PayloadRequestDeviceImport {
    pub bus_id: String,
}

/// Reply to an import request: status zero and the device when it is exported.
#[derive(Debug)]
pub struct PayloadReplyDeviceImport {
    pub status: u32,
    pub device: Option<USBDevice>,
}

/// The value of a device-list reply.
pub struct ReplyDeviceListView {
    pub status: u32,
    pub devices: Seq<USBDeviceView>,
}

/// The value of an import reply.
pub struct ReplyDeviceImportView {
    pub status: u32,
    pub device: Option<USBDeviceView>,
}

impl View for PayloadRequestDeviceList {
    type V = ();

    open spec fn view(&self) -> () {
        ()
    }
}

impl View for PayloadReplyDeviceList {
    type V = ReplyDeviceListView;

    open spec fn view(&self) -> ReplyDeviceListView {
        ReplyDeviceListView { status: self.status, devices: devices_view(self.devices@) }
    }
}

impl View for PayloadRequestDeviceImport {
    type V = Seq<char>;

    open spec fn view(&self) -> Seq<char> {
        self.bus_id@
    }
}

/// The value of an optional device record.
pub open spec fn device_option_view(d: Option<USBDevice>) -> Option<USBDeviceView> {
    match d {
        Some(d) => Some(d@),
        None => None,
    }
}

impl View for PayloadReplyDeviceImport {
    type V = ReplyDeviceImportView;

    open spec fn view(&self) -> ReplyDeviceImportView {
        ReplyDeviceImportView { status: self.status, device: device_option_view(self.device) }
    }
}

/// The encoding of a device-list request.
pub open spec fn encode_request_device_list() -> Seq<u8> {
    frame_header(OP_REQ_DEVLIST) + be32_bytes(0)
}

/// The start of a device-list reply: header, status, count.
pub open spec fn reply_device_list_head(v: ReplyDeviceListView) -> Seq<u8> {
    frame_header(OP_REP_DEVLIST) + be32_bytes(v.status) + be32_bytes(v.devices.len() as u32)
}

/// The encoding of a device-list reply: header, status, count, records.
pub open spec fn encode_reply_device_list(v: ReplyDeviceListView) -> Result<Seq<u8>, EncodeFailure> {
    match encode_devices(v.devices) {
        Ok(b) => Ok(reply_device_list_head(v) + b),
        Err(e) => Err(failure_after(reply_device_list_head(v), e)),
    }
}

/// The encoding of an import request: header, zero status, bus id field; a bus
/// id that is too long is found after the header and status were written.
pub open spec fn encode_request_device_import(bus_id: Seq<char>) -> Result<Seq<u8>, EncodeFailure> {
    let head = frame_header(OP_REQ_IMPORT) + be32_bytes(0);
    if fits_field(bus_id, 32) {
        Ok(head + str_field(bus_id, 32))
    } else {
        Err(EncodeFailure { text: bus_id, width: 32, written: head })
    }
}

/// The encoding of an import reply: header and status, then the device record
/// when there is one and the status is zero.
pub open spec fn encode_reply_device_import(v: ReplyDeviceImportView) -> Result<Seq<u8>, EncodeFailure> {
    let head = frame_header(OP_REP_IMPORT) + be32_bytes(v.status);
    match v.device {
        Some(d) => if v.status == 0 {
            match encode_device(d) {
                Ok(x) => Ok(head + x),
                Err(e) => Err(failure_after(head, e)),
            }
        } else {
            Ok(head)
        },
        None => Ok(head),
    }
}

/// How the body of a device-list request reads (its unused status field).
pub open spec fn parse_request_device_list(b: Seq<u8>) -> Result<((), int), DecodeFailure> {
    if b.len() < 4 {
        Err(DecodeFailure::Truncated)
    } else {
        Ok(((), 4))
    }
}

/// How the body of a device-list reply reads: status, count, then that many
/// device records.
pub open spec fn parse_reply_device_list(b: Seq<u8>) -> Result<(ReplyDeviceListView, int), DecodeFailure> {
    if b.len() < 8 {
        Err(DecodeFailure::Truncated)
    } else {
        match parse_devices(b.skip(8), be32_value(b.subrange(4, 8)) as nat) {
            Ok((ds, k)) => Ok(
                (ReplyDeviceListView { status: be32_value(b.subrange(0, 4)), devices: ds }, 8 + k),
            ),
            Err(e) => Err(e),
        }
    }
}

/// How the body of an import request reads: status, then the bus id field.
pub open spec fn parse_request_device_import(b: Seq<u8>) -> Result<(Seq<char>, int), DecodeFailure> {
    if b.len() < 4 {
        Err(DecodeFailure::Truncated)
    } else {
        match parse_str_field(b.skip(4), 32) {
            None => Err(DecodeFailure::Truncated),
            Some(Err(_)) => Err(DecodeFailure::InvalidUtf8),
            Some(Ok(bus_id)) => Ok((bus_id, 36)),
        }
    }
}

/// How the body of an import reply reads: status, then a device record exactly
/// when the status is zero.
pub open spec fn parse_reply_device_import(b: Seq<u8>) -> Result<(ReplyDeviceImportView, int), DecodeFailure> {
    if b.len() < 4 {
        Err(DecodeFailure::Truncated)
    } else {
        let status = be32_value(b.subrange(0, 4));
        if status == 0 {
            match parse_device(b.skip(4)) {
                Ok((d, k)) => Ok((ReplyDeviceImportView { status, device: Some(d) }, 4 + k)),
                Err(e) => Err(e),
            }
        } else {
            Ok((ReplyDeviceImportView { status, device: None }, 4))
        }
    }
}

impl Encode for PayloadRequestDeviceList {
    open spec fn spec_encode(v: ()) -> Result<Seq<u8>, EncodeFailure> {
        Ok(encode_request_device_list())
    }

    fn encode(&self, out: &mut Vec<u8>) -> (r: Result<(), EncodeError>) {
        put_u16(out, 0);
        put_u16(out, Opcode::ReqDevlist.code());
        put_u32(out, 0);
        assert(final(out)@ =~= old(out)@ + encode_request_device_list());
        Ok(())
    }
}

impl Decode for PayloadRequestDeviceList {
    open spec fn spec_decode(b: Seq<u8>) -> Result<((), int), DecodeFailure> {
        parse_request_device_list(b)
    }

    fn decode(bytes: &[u8]) -> (r: Result<(PayloadRequestDeviceList, usize), DecodeError>) {
        if bytes.len() < 4 {
            return Err(DecodeError::Io(unexpected_eof()));
        }
        Ok((PayloadRequestDeviceList, 4))
    }
}

/// A failure among the first records stays the failure of any longer list.
pub proof fn lemma_encode_devices_failure_persists(ds: Seq<USBDeviceView>, i: int)
    requires
        0 <= i <= ds.len(),
        encode_devices(ds.take(i)) is Err,
    ensures
        encode_devices(ds) == encode_devices(ds.take(i)),
    decreases ds.len() - i,
{
    if i < ds.len() {
        assert(ds.take(i + 1).drop_last() =~= ds.take(i));
        lemma_encode_devices_failure_persists(ds, i + 1);
    } else {
        assert(ds.take(i) =~= ds);
    }
}

/// A failure reading the first records stays the failure of reading more.
pub proof fn lemma_parse_devices_failure_persists(b: Seq<u8>, i: nat, n: nat)
    requires
        i <= n,
        parse_devices(b, i) is Err,
    ensures
        parse_devices(b, n) == parse_devices(b, i),
    decreases n - i,
{
    if i < n {
        lemma_parse_devices_failure_persists(b, i, (n - 1) as nat);
    }
}

/// A device record never reads past the end of its input.
pub proof fn lemma_parse_device_within(b: Seq<u8>)
    ensures
        parse_device(b) matches Ok((d, k)) ==> 312 <= k <= b.len(),
{
    reveal(parse_device);
}

/// Device records never read past the end of their input.
pub proof fn lemma_parse_devices_within(b: Seq<u8>, n: nat)
    ensures
        parse_devices(b, n) matches Ok((ds, k)) ==> 0 <= k <= b.len() && ds.len() == n,
    decreases n,
{
    if n > 0 {
        lemma_parse_devices_within(b, (n - 1) as nat);
        if let Ok((ds, k)) = parse_devices(b, (n - 1) as nat) {
            lemma_parse_device_within(b.skip(k));
        }
    }
}

impl Encode for PayloadReplyDeviceList {
    open spec fn spec_encode(v: ReplyDeviceListView) -> Result<Seq<u8>, EncodeFailure> {
        encode_reply_device_list(v)
    }

    fn encode(&self, out: &mut Vec<u8>) -> (r: Result<(), EncodeError>) {
        let ghost ds = devices_view(self.devices@);
        let ghost start = out@;
        put_u16(out, 0);
        put_u16(out, Opcode::RepDevlist.code());
        put_u32(out, self.status);
        put_u32(out, self.devices.len() as u32);
        let ghost head = out@;
        assert(head =~= start + reply_device_list_head(self@));
        let mut i: usize = 0;
        while i < self.devices.len()
            invariant
                i <= self.devices@.len(),
                ds == devices_view(self.devices@),
                start == old(out)@,
                head == start + reply_device_list_head(self@),
                encode_devices(ds.take(i as int)) is Ok,
                out@ == head + encode_devices(ds.take(i as int))->Ok_0,
            decreases self.devices@.len() - i,
        {
            assert(ds.take(i + 1).drop_last() =~= ds.take(i as int));
            assert(ds.take(i + 1).last() == self.devices@[i as int]@);
            let ghost before = out@;
            match self.devices[i].encode(out) {
                Ok(()) => {
                    assert(out@ =~= head + encode_devices(ds.take(i + 1))->Ok_0);
                },
                Err(e) => {
                    proof {
                        let prev = encode_devices(ds.take(i as int))->Ok_0;
                        let f = encode_device(ds[i as int])->Err_0;
                        assert(encode_device(ds[i as int]) is Err);
                        assert(encode_devices(ds.take(i + 1)) == Err::<Seq<u8>, EncodeFailure>(
                            failure_after(prev, f),
                        ));
                        lemma_encode_devices_failure_persists(ds, i + 1);
                        assert(self@.devices == ds);
                        assert(out@ =~= start + encode_reply_device_list(self@)->Err_0.written);
                    }
                    return Err(e);
                },
            }
            i = i + 1;
        }
        assert(ds.take(i as int) =~= ds);
        assert(final(out)@ =~= old(out)@ + encode_reply_device_list(self@)->Ok_0);
        Ok(())
    }
}

impl Decode for PayloadReplyDeviceList {
    open spec fn spec_decode(b: Seq<u8>) -> Result<(ReplyDeviceListView, int), DecodeFailure> {
        parse_reply_device_list(b)
    }

    fn decode(bytes: &[u8]) -> (r: Result<(PayloadReplyDeviceList, usize), DecodeError>) {
        let len = bytes.len();
        if len < 8 {
            return Err(DecodeError::Io(unexpected_eof()));
        }
        let status = get_u32(bytes, 0);
        let count = get_u32(bytes, 4);
        let body = &bytes[8..len];
        let ghost b = body@;
        assert(b =~= bytes@.skip(8));
        let mut devices: Vec<USBDevice> = Vec::new();
        let mut pos: usize = 0;
        let mut i: u32 = 0;
        assert(devices_view(devices@) =~= Seq::<USBDeviceView>::empty());
        while i < count
            invariant
                i <= count,
                b == body@,
                b == bytes@.skip(8),
                len == bytes@.len(),
                count == be32_value(bytes@.subrange(4, 8)),
                status == be32_value(bytes@.subrange(0, 4)),
                pos <= b.len(),
                b.len() == len - 8,
                parse_devices(b, i as nat) == Ok::<(Seq<USBDeviceView>, int), DecodeFailure>(
                    (devices_view(devices@), pos as int),
                ),
            decreases count - i,
        {
            let rest = &body[pos..body.len()];
            assert(rest@ =~= b.skip(pos as int));
            match USBDevice::decode(rest) {
                Ok((d, k)) => {
                    proof {
                        lemma_parse_device_within(rest@);
                    }
                    let ghost prev = devices@;
                    devices.push(d);
                    pos = pos + k;
                    i = i + 1;
                    assert(devices_view(devices@) =~= devices_view(prev).push(d@));
                },
                Err(e) => {
                    proof {
                        assert(parse_devices(b, (i + 1) as nat) == Err::<(Seq<USBDeviceView>, int), DecodeFailure>(failure_of(e)));
                        lemma_parse_devices_failure_persists(b, (i + 1) as nat, count as nat);
                    }
                    return Err(e);
                },
            }
        }
        Ok((PayloadReplyDeviceList { status, devices }, pos + 8))
    }
}


impl Encode for PayloadRequestDeviceImport {
    open spec fn spec_encode(v: Seq<char>) -> Result<Seq<u8>, EncodeFailure> {
        encode_request_device_import(v)
    }

    fn encode(&self, out: &mut Vec<u8>) -> (r: Result<(), EncodeError>) {
        put_u16(out, 0);
        put_u16(out, Opcode::ReqImport.code());
        put_u32(out, 0);
        assert(out@ =~= old(out)@ + (frame_header(OP_REQ_IMPORT) + be32_bytes(0)));
        let mut field = fixed_length_buffer_from_str(self.bus_id.as_str(), BUS_ID_FIELD_WIDTH)?;
        out.append(&mut field);
        assert(final(out)@ =~= old(out)@ + encode_request_device_import(self@)->Ok_0);
        Ok(())
    }
}

impl Decode for PayloadRequestDeviceImport {
    open spec fn spec_decode(b: Seq<u8>) -> Result<(Seq<char>, int), DecodeFailure> {
        parse_request_device_import(b)
    }

    fn decode(bytes: &[u8]) -> (r: Result<(PayloadRequestDeviceImport, usize), DecodeError>) {
        let len = bytes.len();
        if len < 4 + BUS_ID_FIELD_WIDTH {
            return Err(DecodeError::Io(unexpected_eof()));
        }
        assert(bytes@.subrange(4, 36) =~= bytes@.skip(4).take(32));
        let bus_id = string_from_fixed_length_buffer(&bytes[4..36])?;
        Ok((PayloadRequestDeviceImport { bus_id }, 36))
    }
}

impl Encode for PayloadReplyDeviceImport {
    open spec fn spec_encode(v: ReplyDeviceImportView) -> Result<Seq<u8>, EncodeFailure> {
        encode_reply_device_import(v)
    }

    fn encode(&self, out: &mut Vec<u8>) -> (r: Result<(), EncodeError>) {
        put_u16(out, 0);
        put_u16(out, Opcode::RepImport.code());
        put_u32(out, self.status);
        assert(out@ =~= old(out)@ + (frame_header(OP_REP_IMPORT) + be32_bytes(self.status)));
        if let Some(device) = &self.device {
            if self.status == 0 {
                let ghost head = out@;
                match device.encode(out) {
                    Ok(()) => {},
                    Err(e) => {
                        assert(out@ =~= old(out)@ + encode_reply_device_import(self@)->Err_0.written);
                        return Err(e);
                    },
                }
            }
        }
        assert(final(out)@ =~= old(out)@ + encode_reply_device_import(self@)->Ok_0);
        Ok(())
    }
}

impl Decode for PayloadReplyDeviceImport {
    open spec fn spec_decode(b: Seq<u8>) -> Result<(ReplyDeviceImportView, int), DecodeFailure> {
        parse_reply_device_import(b)
    }

    fn decode(bytes: &[u8]) -> (r: Result<(PayloadReplyDeviceImport, usize), DecodeError>) {
        let len = bytes.len();
        if len < 4 {
            return Err(DecodeError::Io(unexpected_eof()));
        }
        let status = get_u32(bytes, 0);
        if status == 0 {
            let rest = &bytes[4..len];
            assert(rest@ =~= bytes@.skip(4));
            let (device, k) = USBDevice::decode(rest)?;
            proof {
                lemma_parse_device_within(rest@);
            }
            Ok((PayloadReplyDeviceImport { status, device: Some(device) }, 4 + k))
        } else {
            Ok((PayloadReplyDeviceImport { status, device: None }, 4))
        }
    }
}

/// A handshake message.
#[derive(Debug)]
pub enum Frame {
    RequestDeviceList(PayloadRequestDeviceList),
    ReplyDeviceList(PayloadReplyDeviceList),
    RequestDeviceImport(PayloadRequestDeviceImport),
    ReplyDeviceImport(PayloadReplyDeviceImport),
}

/// The value of a handshake message.
pub enum FrameView {
    RequestDeviceList,
    ReplyDeviceList { status: u32, devices: Seq<USBDeviceView> },
    RequestDeviceImport { bus_id: Seq<char> },
    ReplyDeviceImport { status: u32, device: Option<USBDeviceView> },
}

impl View for Frame {
    type V = FrameView;

    open spec fn view(&self) -> FrameView {
        match self {
            Frame::RequestDeviceList(_) => FrameView::RequestDeviceList,
            Frame::ReplyDeviceList(p) => FrameView::ReplyDeviceList {
                status: p.status,
                devices: devices_view(p.devices@),
            },
            Frame::RequestDeviceImport(p) => FrameView::RequestDeviceImport { bus_id: p.bus_id@ },
            Frame::ReplyDeviceImport(p) => FrameView::ReplyDeviceImport {
                status: p.status,
                device: device_option_view(p.device),
            },
        }
    }
}

/// The encoding of a message.
pub open spec fn encode_frame(f: FrameView) -> Result<Seq<u8>, EncodeFailure> {
    match f {
        FrameView::RequestDeviceList => Ok(encode_request_device_list()),
        FrameView::ReplyDeviceList { status, devices } => encode_reply_device_list(
            ReplyDeviceListView { status, devices },
        ),
        FrameView::RequestDeviceImport { bus_id } => encode_request_device_import(bus_id),
        FrameView::ReplyDeviceImport { status, device } => encode_reply_device_import(
            ReplyDeviceImportView { status, device },
        ),
    }
}

/// How a message reads from the start of `b`: version, opcode, then the body
/// that the opcode names.
pub open spec fn parse_frame(b: Seq<u8>) -> Result<(FrameView, int), DecodeFailure> {
    if b.len() < 4 {
        Err(DecodeFailure::Truncated)
    } else {
        let op = be16_value(b.subrange(2, 4));
        let body = b.skip(4);
        if op == OP_REQ_DEVLIST {
            match parse_request_device_list(body) {
                Ok((_, k)) => Ok((FrameView::RequestDeviceList, 4 + k)),
                Err(e) => Err(e),
            }
        } else if op == OP_REP_DEVLIST {
            match parse_reply_device_list(body) {
                Ok((v, k)) => Ok(
                    (FrameView::ReplyDeviceList { status: v.status, devices: v.devices }, 4 + k),
                ),
                Err(e) => Err(e),
            }
        } else if op == OP_REQ_IMPORT {
            match parse_request_device_import(body) {
                Ok((bus_id, k)) => Ok((FrameView::RequestDeviceImport { bus_id }, 4 + k)),
                Err(e) => Err(e),
            }
        } else if op == OP_REP_IMPORT {
            match parse_reply_device_import(body) {
                Ok((v, k)) => Ok(
                    (FrameView::ReplyDeviceImport { status: v.status, device: v.device }, 4 + k),
                ),
                Err(e) => Err(e),
            }
        } else {
            Err(DecodeFailure::UnsupportedOpcode(op))
        }
    }
}

impl Encode for Frame {
    open spec fn spec_encode(v: FrameView) -> Result<Seq<u8>, EncodeFailure> {
        encode_frame(v)
    }

    fn encode(&self, out: &mut Vec<u8>) -> (r: Result<(), EncodeError>) {
        match self {
            Frame::RequestDeviceList(data) => data.encode(out),
            Frame::ReplyDeviceList(data) => data.encode(out),
            Frame::RequestDeviceImport(data) => data.encode(out),
            Frame::ReplyDeviceImport(data) => data.encode(out),
        }
    }
}

impl Decode for Frame {
    open spec fn spec_decode(b: Seq<u8>) -> Result<(FrameView, int), DecodeFailure> {
        parse_frame(b)
    }

    fn decode(bytes: &[u8]) -> (r: Result<(Frame, usize), DecodeError>) {
        let len = bytes.len();
        if len < 4 {
            return Err(DecodeError::Io(unexpected_eof()));
        }
        let opcode = Opcode::try_from_code(get_u16(bytes, 2))?;
        let body = &bytes[4..len];
        assert(body@ =~= bytes@.skip(4));
        match opcode {
            Opcode::ReqDevlist => {
                let (p, k) = PayloadRequestDeviceList::decode(body)?;
                Ok((Frame::RequestDeviceList(p), 4 + k))
            },
            Opcode::RepDevlist => {
                let (p, k) = PayloadReplyDeviceList::decode(body)?;
                proof {
                    if body@.len() >= 8 {
                        lemma_parse_devices_within(
                            body@.skip(8),
                            be32_value(body@.subrange(4, 8)) as nat,
                        );
                    }
                }
                Ok((Frame::ReplyDeviceList(p), 4 + k))
            },
            Opcode::ReqImport => {
                let (p, k) = PayloadRequestDeviceImport::decode(body)?;
                Ok((Frame::RequestDeviceImport(p), 4 + k))
            },
            Opcode::RepImport => {
                let (p, k) = PayloadReplyDeviceImport::decode(body)?;
                proof {
                    lemma_parse_device_within(body@.skip(4));
                }
                Ok((Frame::ReplyDeviceImport(p), 4 + k))
            },
        }
    }
}

impl Frame {
    /// The protocol's name of the message kind.
    pub fn name(&self) -> (s: &'static str)
        ensures
            s@ == match self@ {
                FrameView::RequestDeviceList => "OP_REQ_DEVLIST"@,
                FrameView::ReplyDeviceList { .. } => "OP_REP_DEVLIST"@,
                FrameView::RequestDeviceImport { .. } => "OP_REQ_IMPORT"@,
                FrameView::ReplyDeviceImport { .. } => "OP_REP_IMPORT"@,
            },
    {
        match self {
            Frame::RequestDeviceList(_) => "OP_REQ_DEVLIST",
            Frame::ReplyDeviceList(_) => "OP_REP_DEVLIST",
            Frame::RequestDeviceImport(_) => "OP_REQ_IMPORT",
            Frame::ReplyDeviceImport(_) => "OP_REP_IMPORT",
        }
    }
}


/// Text that a field of `width` bytes carries unchanged: it fits with room for
/// the terminating NUL and holds no NUL of its own.
pub open spec fn text_well_formed(s: Seq<char>, width: nat) -> bool {
    fits_field(s, width) && !s.contains('\0')
}

/// A device record that the encoding carries unchanged: its texts are well
/// formed and its interface count fits the one-byte count field.
pub open spec fn device_well_formed(d: USBDeviceView) -> bool {
    &&& text_well_formed(d.path, 256)
    &&& text_well_formed(d.bus_id, 32)
    &&& d.interfaces.len() <= 255
}

/// A message that the encoding carries unchanged: its records are well formed,
/// a device list's count fits its four-byte field, and an import reply carries
/// a device exactly when its status is zero.
pub open spec fn frame_well_formed(f: FrameView) -> bool {
    match f {
        FrameView::RequestDeviceList => true,
        FrameView::ReplyDeviceList { status, devices } => devices.len() <= u32::MAX && forall|i: int|
            0 <= i < devices.len() ==> device_well_formed(#[trigger] devices[i]),
        FrameView::RequestDeviceImport { bus_id } => text_well_formed(bus_id, 32),
        FrameView::ReplyDeviceImport { status, device } => match device {
            Some(d) => status == 0 && device_well_formed(d),
            None => status != 0,
        },
    }
}

proof fn lemma_interfaces_bytes(is: Seq<USBDeviceInterface>)
    ensures
        interfaces_bytes(is).len() == 4 * is.len(),
        forall|k: int|
            #![trigger is[k]]
            0 <= k < is.len() ==> interfaces_bytes(is)[4 * k] == is[k].class
                && interfaces_bytes(is)[4 * k + 1] == is[k].subclass && interfaces_bytes(is)[4
                * k + 2] == is[k].protocol,
    decreases is.len(),
{
    if is.len() > 0 {
        let init = is.drop_last();
        lemma_interfaces_bytes(init);
        assert forall|k: int| #![trigger is[k]] 0 <= k < is.len() implies interfaces_bytes(is)[4
            * k] == is[k].class && interfaces_bytes(is)[4 * k + 1] == is[k].subclass
            && interfaces_bytes(is)[4 * k + 2] == is[k].protocol by {
            if k < init.len() {
                assert(init[k] == is[k]);
            }
        }
    }
}

proof fn lemma_be_bytes(a: u32, c: u16)
    ensures
        be32_bytes(a)[0] == a / 0x100_0000,
        be32_bytes(a)[1] == (a / 0x1_0000) % 256,
        be32_bytes(a)[2] == (a / 256) % 256,
        be32_bytes(a)[3] == a % 256,
        be16_bytes(c)[0] == c / 256,
        be16_bytes(c)[1] == c % 256,
{
    assert(a / 0x100_0000 < 256);
    assert(c / 256 < 256);
}

/// How a device record is read off its bytes: the numbers from the same
/// offsets the encoding writes them to (big-endian bus number at 288, device
/// number at 292, vendor id at 300, product id at 302, revision at 304), class
/// from byte 306, subclass from 307, protocol from 308, configuration value
/// from 309, number of configurations from 310, as many interfaces as byte 311
/// says, four bytes each from 312 on; the record takes exactly those bytes.
pub proof fn lemma_device_record_reading(b: Seq<u8>)
    ensures
        parse_device(b) matches Ok((d, n)) ==> {
            &&& b.len() >= 312 + 4 * b[311]
            &&& n == 312 + 4 * b[311]
            &&& d.bus_num == b[288] * 0x100_0000 + b[289] * 0x1_0000 + b[290] * 256 + b[291]
            &&& d.device_num == b[292] * 0x100_0000 + b[293] * 0x1_0000 + b[294] * 256 + b[295]
            &&& speed_code(d.speed) == b[296] * 0x100_0000 + b[297] * 0x1_0000 + b[298] * 256 + b[299]
            &&& d.vendor_id == b[300] * 256 + b[301]
            &&& d.product_id == b[302] * 256 + b[303]
            &&& d.revision_num == b[304] * 256 + b[305]
            &&& d.class == b[306]
            &&& d.subclass == b[307]
            &&& d.protocol == b[308]
            &&& d.configuration_value == b[309]
            &&& d.num_configurations == b[310]
            &&& d.interfaces.len() == b[311]
            &&& forall|k: int|
                #![trigger d.interfaces[k]]
                0 <= k < d.interfaces.len() ==> d.interfaces[k].class == b[312 + 4 * k]
                    && d.interfaces[k].subclass == b[312 + 4 * k + 1] && d.interfaces[k].protocol
                    == b[312 + 4 * k + 2]
        },
{
    reveal(parse_device);
    if let Ok((d, n)) = parse_device(b) {
        let v = b.subrange(296, 300);
        assert(speed_of_code(be32_value(v)) == Some(d.speed));
        assert(speed_code(d.speed) == be32_value(v));
        assert(b[288] * 0x100_0000 + b[289] * 0x1_0000 + b[290] * 256 + b[291] < 0x1_0000_0000) by (nonlinear_arith)
            requires
                b[288] < 256,
                b[289] < 256,
                b[290] < 256,
                b[291] < 256,
        ;
        assert(b[292] * 0x100_0000 + b[293] * 0x1_0000 + b[294] * 256 + b[295] < 0x1_0000_0000) by (nonlinear_arith)
            requires
                b[292] < 256,
                b[293] < 256,
                b[294] < 256,
                b[295] < 256,
        ;
        assert(b[296] * 0x100_0000 + b[297] * 0x1_0000 + b[298] * 256 + b[299] < 0x1_0000_0000) by (nonlinear_arith)
            requires
                b[296] < 256,
                b[297] < 256,
                b[298] < 256,
                b[299] < 256,
        ;
        assert(b[300] * 256 + b[301] < 0x1_0000) by (nonlinear_arith)
            requires
                b[300] < 256,
                b[301] < 256,
        ;
        assert(b[302] * 256 + b[303] < 0x1_0000) by (nonlinear_arith)
            requires
                b[302] < 256,
                b[303] < 256,
        ;
        assert(b[304] * 256 + b[305] < 0x1_0000) by (nonlinear_arith)
            requires
                b[304] < 256,
                b[305] < 256,
        ;
        assert forall|k: int|
            #![trigger d.interfaces[k]]
            0 <= k < d.interfaces.len() implies d.interfaces[k].class == b[312 + 4 * k]
            && d.interfaces[k].subclass == b[312 + 4 * k + 1] && d.interfaces[k].protocol == b[312
            + 4 * k + 2] by {
            assert(d.interfaces[k] == interface_at(b.skip(312), 4 * k));
        }
    }
}

/// Each interface's four bytes stand at four times its index.
proof fn lemma_interfaces_padding(is: Seq<USBDeviceInterface>)
    ensures
        interfaces_bytes(is).len() == 4 * is.len(),
        forall|k: int|
            0 <= k < is.len() ==> interfaces_bytes(is).subrange(4 * k, 4 * k + 4) == interface_bytes(
                #[trigger] is[k],
            ),
    decreases is.len(),
{
    if is.len() > 0 {
        let init = is.drop_last();
        lemma_interfaces_padding(init);
        let whole = interfaces_bytes(is);
        assert(whole == interfaces_bytes(init) + interface_bytes(is.last()));
        assert forall|k: int| 0 <= k < is.len() implies whole.subrange(4 * k, 4 * k + 4)
            == interface_bytes(#[trigger] is[k]) by {
            if k < init.len() {
                assert(init[k] == is[k]);
                assert(whole.subrange(4 * k, 4 * k + 4) =~= interfaces_bytes(init).subrange(
                    4 * k,
                    4 * k + 4,
                ));
            } else {
                assert(whole.subrange(4 * k, 4 * k + 4) =~= interface_bytes(is.last()));
            }
        }
    }
}

/// The byte layout of a device record whose texts fit: the path field fills
/// bytes 0..256 and the bus id field bytes 256..288; then, big-endian, the bus
/// number at 288, the device number at 292, the speed's number at 296, the
/// vendor id at 300, the product id at 302 and the revision at 304; then one
/// byte each: class at 306, subclass at 307, protocol at 308, configuration
/// value at 309, number of configurations at 310 and interface count at 311;
/// then four bytes per interface from 312 on: its class, subclass, protocol
/// and a zero byte.
pub proof fn lemma_device_record_layout(d: USBDeviceView)
    requires
        fits_field(d.path, 256),
        fits_field(d.bus_id, 32),
        d.interfaces.len() <= 255,
    ensures
        encode_device(d) is Ok,
        ({
            let b = encode_device(d)->Ok_0;
            &&& b.len() == 312 + 4 * d.interfaces.len()
            &&& b.subrange(0, 256) == str_field(d.path, 256)
            &&& b.subrange(256, 288) == str_field(d.bus_id, 32)
            &&& b[288] == d.bus_num / 0x100_0000 && b[289] == (d.bus_num / 0x1_0000) % 256
            &&& b[290] == (d.bus_num / 256) % 256 && b[291] == d.bus_num % 256
            &&& b[292] == d.device_num / 0x100_0000 && b[293] == (d.device_num / 0x1_0000) % 256
            &&& b[294] == (d.device_num / 256) % 256 && b[295] == d.device_num % 256
            &&& b[296] == 0 && b[297] == 0 && b[298] == 0 && b[299] == speed_code(d.speed)
            &&& b[300] == d.vendor_id / 256 && b[301] == d.vendor_id % 256
            &&& b[302] == d.product_id / 256 && b[303] == d.product_id % 256
            &&& b[304] == d.revision_num / 256 && b[305] == d.revision_num % 256
            &&& b[306] == d.class
            &&& b[307] == d.subclass
            &&& b[308] == d.protocol
            &&& b[309] == d.configuration_value
            &&& b[310] == d.num_configurations
            &&& b[311] == d.interfaces.len()
            &&& forall|k: int|
                #![trigger d.interfaces[k]]
                0 <= k < d.interfaces.len() ==> b[312 + 4 * k] == d.interfaces[k].class && b[312 + 4
                    * k + 1] == d.interfaces[k].subclass && b[312 + 4 * k + 2]
                    == d.interfaces[k].protocol && b[312 + 4 * k + 3] == 0
        }),
{
    reveal(device_bytes);
    lemma_interfaces_bytes(d.interfaces);
    lemma_interfaces_padding(d.interfaces);
    let b = device_bytes(d);
    let head = str_field(d.path, 256) + str_field(d.bus_id, 32) + be32_bytes(d.bus_num) + be32_bytes(
        d.device_num,
    ) + be32_bytes(speed_code(d.speed)) + be16_bytes(d.vendor_id) + be16_bytes(d.product_id)
        + be16_bytes(d.revision_num) + seq![
        d.class,
        d.subclass,
        d.protocol,
        d.configuration_value,
        d.num_configurations,
        d.interfaces.len() as u8,
    ];
    assert(head.len() == 312);
    assert(b == head + interfaces_bytes(d.interfaces));
    assert(b.subrange(0, 256) =~= str_field(d.path, 256));
    assert(b.subrange(256, 288) =~= str_field(d.bus_id, 32));
    assert(speed_code(d.speed) < 256);
    lemma_be_bytes(d.bus_num, d.vendor_id);
    lemma_be_bytes(d.device_num, d.product_id);
    lemma_be_bytes(speed_code(d.speed), d.revision_num);
    assert(b[288] == be32_bytes(d.bus_num)[0] && b[289] == be32_bytes(d.bus_num)[1]
        && b[290] == be32_bytes(d.bus_num)[2] && b[291] == be32_bytes(d.bus_num)[3]);
    assert(b[292] == be32_bytes(d.device_num)[0] && b[293] == be32_bytes(d.device_num)[1]
        && b[294] == be32_bytes(d.device_num)[2] && b[295] == be32_bytes(d.device_num)[3]);
    assert(b[296] == be32_bytes(speed_code(d.speed))[0] && b[297] == be32_bytes(
        speed_code(d.speed),
    )[1] && b[298] == be32_bytes(speed_code(d.speed))[2] && b[299] == be32_bytes(
        speed_code(d.speed),
    )[3]);
    assert(b[300] == be16_bytes(d.vendor_id)[0] && b[301] == be16_bytes(d.vendor_id)[1]);
    assert(b[302] == be16_bytes(d.product_id)[0] && b[303] == be16_bytes(d.product_id)[1]);
    assert(b[304] == be16_bytes(d.revision_num)[0] && b[305] == be16_bytes(d.revision_num)[1]);
    assert(b[306] == d.class && b[307] == d.subclass && b[308] == d.protocol);
    assert(b[309] == d.configuration_value && b[310] == d.num_configurations);
    assert(b[311] == d.interfaces.len() as u8);
    assert forall|k: int|
        #![trigger d.interfaces[k]]
        0 <= k < d.interfaces.len() implies b[312 + 4 * k] == d.interfaces[k].class && b[312 + 4 * k
        + 1] == d.interfaces[k].subclass && b[312 + 4 * k + 2] == d.interfaces[k].protocol && b[312
        + 4 * k + 3] == 0 by {
        assert(b[312 + 4 * k] == interfaces_bytes(d.interfaces)[4 * k]);
        assert(b[312 + 4 * k + 1] == interfaces_bytes(d.interfaces)[4 * k + 1]);
        assert(b[312 + 4 * k + 2] == interfaces_bytes(d.interfaces)[4 * k + 2]);
        assert(b[312 + 4 * k + 3] == interfaces_bytes(d.interfaces)[4 * k + 3]);
        assert(interfaces_bytes(d.interfaces).subrange(4 * k, 4 * k + 4)[3] == interface_bytes(
            d.interfaces[k],
        )[3]);
    }
}

/// Interface records read back as written, whatever follows them.
proof fn lemma_interfaces_roundtrip(is: Seq<USBDeviceInterface>, rest: Seq<u8>)
    ensures
        interfaces_at(interfaces_bytes(is) + rest, is.len()) == is,
{
    lemma_interfaces_bytes(is);
    let b = interfaces_bytes(is) + rest;
    assert forall|k: int| 0 <= k < is.len() implies #[trigger] interfaces_at(b, is.len())[k]
        == is[k] by {
        assert(is[k] == is[k]);
    }
    assert(interfaces_at(b, is.len()) =~= is);
}

/// A well-formed device record reads back as written, taking exactly its own
/// bytes, whatever follows it.
pub proof fn lemma_device_roundtrip(d: USBDeviceView, rest: Seq<u8>)
    requires
        device_well_formed(d),
    ensures
        encode_device(d) == Ok::<Seq<u8>, EncodeFailure>(device_bytes(d)),
        device_bytes(d).len() == 312 + 4 * d.interfaces.len(),
        parse_device(device_bytes(d) + rest) == Ok::<(USBDeviceView, int), DecodeFailure>(
            (d, device_bytes(d).len() as int),
        ),
{
    assert(encode_device(d) == Ok::<Seq<u8>, EncodeFailure>(device_bytes(d)));
    lemma_device_bytes_roundtrip(d, rest);
}

/// The bytes of a well-formed device record read back as the record.
#[verifier::rlimit(100)]
proof fn lemma_device_bytes_roundtrip(d: USBDeviceView, rest: Seq<u8>)
    requires
        device_well_formed(d),
    ensures
        device_bytes(d).len() == 312 + 4 * d.interfaces.len(),
        parse_device(device_bytes(d) + rest) == Ok::<(USBDeviceView, int), DecodeFailure>(
            (d, device_bytes(d).len() as int),
        ),
{
    reveal(device_bytes);
    reveal(parse_device);
    let p = str_field(d.path, 256);
    let q = str_field(d.bus_id, 32);
    let x = device_bytes(d);
    let b = x + rest;
    let n = d.interfaces.len();
    lemma_interfaces_bytes(d.interfaces);
    lemma_str_field_roundtrip(d.path, 256, b.skip(256));
    lemma_str_field_roundtrip(d.bus_id, 32, b.skip(288));
    lemma_be32_roundtrip(d.bus_num);
    lemma_be32_roundtrip(d.device_num);
    lemma_be32_roundtrip(speed_code(d.speed));
    lemma_be16_roundtrip(d.vendor_id);
    lemma_be16_roundtrip(d.product_id);
    lemma_be16_roundtrip(d.revision_num);
    lemma_speed_code_roundtrip(d.speed);
    assert(x.len() == 312 + 4 * n);
    assert(b =~= p + b.skip(256));
    assert(b.skip(256) =~= q + b.skip(288));
    assert(b.subrange(288, 292) =~= be32_bytes(d.bus_num));
    assert(b.subrange(292, 296) =~= be32_bytes(d.device_num));
    assert(b.subrange(296, 300) =~= be32_bytes(speed_code(d.speed)));
    assert(b.subrange(300, 302) =~= be16_bytes(d.vendor_id));
    assert(b.subrange(302, 304) =~= be16_bytes(d.product_id));
    assert(b.subrange(304, 306) =~= be16_bytes(d.revision_num));
    assert(b[311] == n as u8);
    assert(b[311] == n);
    assert(b.skip(312) =~= interfaces_bytes(d.interfaces) + rest);
    lemma_interfaces_roundtrip(d.interfaces, rest);
}

/// Well-formed device records read back as written, taking exactly their own
/// bytes, whatever follows them.
pub proof fn lemma_devices_roundtrip(ds: Seq<USBDeviceView>, rest: Seq<u8>)
    requires
        forall|i: int| 0 <= i < ds.len() ==> device_well_formed(#[trigger] ds[i]),
    ensures
        encode_devices(ds) is Ok,
        parse_devices(encode_devices(ds)->Ok_0 + rest, ds.len()) == Ok::<
            (Seq<USBDeviceView>, int),
            DecodeFailure,
        >((ds, encode_devices(ds)->Ok_0.len() as int)),
    decreases ds.len(),
{
    if ds.len() == 0 {
        assert(ds =~= Seq::<USBDeviceView>::empty());
    } else {
        let init = ds.drop_last();
        let last = ds.last();
        assert(device_well_formed(ds[ds.len() - 1]));
        assert forall|i: int| 0 <= i < init.len() implies device_well_formed(#[trigger] init[i]) by {
            assert(init[i] == ds[i]);
        }
        let x = device_bytes(last);
        lemma_device_roundtrip(last, rest);
        lemma_devices_roundtrip(init, x + rest);
        let bi = encode_devices(init)->Ok_0;
        let b = bi + x;
        assert(encode_devices(ds) == Ok::<Seq<u8>, EncodeFailure>(b));
        assert(b + rest =~= bi + (x + rest));
        assert((b + rest).skip(bi.len() as int) =~= x + rest);
        assert(init.len() == (ds.len() - 1) as nat);
        assert(parse_devices(b + rest, init.len()) == Ok::<(Seq<USBDeviceView>, int), DecodeFailure>((init, bi.len() as int)));
        assert(parse_device((b + rest).skip(bi.len() as int)) == Ok::<(USBDeviceView, int), DecodeFailure>((last, x.len() as int)));
        assert(init.push(last) =~= ds);
    }
}

#[verifier::rlimit(50)]
proof fn lemma_reply_device_list_roundtrip(status: u32, devices: Seq<USBDeviceView>, rest: Seq<u8>)
    requires
        frame_well_formed(FrameView::ReplyDeviceList { status, devices }),
    ensures
        encode_frame(FrameView::ReplyDeviceList { status, devices }) is Ok,
        parse_frame(encode_frame(FrameView::ReplyDeviceList { status, devices })->Ok_0 + rest)
            == Ok::<(FrameView, int), DecodeFailure>(
            (
                FrameView::ReplyDeviceList { status, devices },
                encode_frame(FrameView::ReplyDeviceList { status, devices })->Ok_0.len() as int,
            ),
        ),
{
    let f = FrameView::ReplyDeviceList { status, devices };
    let v = ReplyDeviceListView { status, devices };
    lemma_devices_roundtrip(devices, rest);
    let recs = encode_devices(devices)->Ok_0;
    let e = reply_device_list_head(v) + recs;
    assert(encode_frame(f) == Ok::<Seq<u8>, EncodeFailure>(e));
    let b = e + rest;
    assert(be16_value(b.subrange(2, 4)) == OP_REP_DEVLIST) by {
        lemma_be16_roundtrip(OP_REP_DEVLIST);
        assert(b.subrange(2, 4) =~= be16_bytes(OP_REP_DEVLIST));
    }
    let body = b.skip(4);
    assert(parse_reply_device_list(body) == Ok::<(ReplyDeviceListView, int), DecodeFailure>(
        (v, 8 + recs.len() as int),
    )) by {
        lemma_be32_roundtrip(status);
        lemma_be32_roundtrip(devices.len() as u32);
        assert(body.subrange(0, 4) =~= be32_bytes(status));
        assert(body.subrange(4, 8) =~= be32_bytes(devices.len() as u32));
        assert(body.skip(8) =~= recs + rest);
    }
}

proof fn lemma_request_device_import_roundtrip(bus_id: Seq<char>, rest: Seq<u8>)
    requires
        frame_well_formed(FrameView::RequestDeviceImport { bus_id }),
    ensures
        encode_frame(FrameView::RequestDeviceImport { bus_id }) is Ok,
        parse_frame(encode_frame(FrameView::RequestDeviceImport { bus_id })->Ok_0 + rest) == Ok::<
            (FrameView, int),
            DecodeFailure,
        >(
            (
                FrameView::RequestDeviceImport { bus_id },
                encode_frame(FrameView::RequestDeviceImport { bus_id })->Ok_0.len() as int,
            ),
        ),
{
    let f = FrameView::RequestDeviceImport { bus_id };
    lemma_be16_roundtrip(0);
    lemma_be32_roundtrip(0);
    lemma_be16_roundtrip(OP_REQ_IMPORT);
    let e = encode_frame(f)->Ok_0;
    let b = e + rest;
    assert(b.subrange(2, 4) =~= be16_bytes(OP_REQ_IMPORT));
    let body = b.skip(4);
    lemma_str_field_roundtrip(bus_id, 32, rest);
    assert(body.skip(4) =~= str_field(bus_id, 32) + rest);
}

proof fn lemma_reply_device_import_roundtrip(
    status: u32,
    device: Option<USBDeviceView>,
    rest: Seq<u8>,
)
    requires
        frame_well_formed(FrameView::ReplyDeviceImport { status, device }),
    ensures
        encode_frame(FrameView::ReplyDeviceImport { status, device }) is Ok,
        parse_frame(encode_frame(FrameView::ReplyDeviceImport { status, device })->Ok_0 + rest)
            == Ok::<(FrameView, int), DecodeFailure>(
            (
                FrameView::ReplyDeviceImport { status, device },
                encode_frame(FrameView::ReplyDeviceImport { status, device })->Ok_0.len() as int,
            ),
        ),
{
    let f = FrameView::ReplyDeviceImport { status, device };
    lemma_be16_roundtrip(0);
    lemma_be16_roundtrip(OP_REP_IMPORT);
    lemma_be32_roundtrip(status);
    if let Some(d) = device {
        lemma_device_roundtrip(d, rest);
    }
    let e = encode_frame(f)->Ok_0;
    let b = e + rest;
    assert(b.subrange(2, 4) =~= be16_bytes(OP_REP_IMPORT));
    let body = b.skip(4);
    assert(body.subrange(0, 4) =~= be32_bytes(status));
    if let Some(d) = device {
        assert(body.skip(4) =~= device_bytes(d) + rest);
    }
}

/// What an encoding of a well-formed message reads back as: the same message,
/// taking exactly the encoded bytes, whatever follows them.
pub proof fn lemma_frame_roundtrip(f: FrameView, rest: Seq<u8>)
    requires
        frame_well_formed(f),
    ensures
        encode_frame(f) is Ok,
        parse_frame(encode_frame(f)->Ok_0 + rest) == Ok::<(FrameView, int), DecodeFailure>(
            (f, encode_frame(f)->Ok_0.len() as int),
        ),
{
    match f {
        FrameView::RequestDeviceList => {
            lemma_be16_roundtrip(0);
            lemma_be32_roundtrip(0);
            let b = encode_request_device_list() + rest;
            lemma_be16_roundtrip(OP_REQ_DEVLIST);
            assert(b.subrange(2, 4) =~= be16_bytes(OP_REQ_DEVLIST));
        },
        FrameView::ReplyDeviceList { status, devices } => {
            lemma_reply_device_list_roundtrip(status, devices, rest);
        },
        FrameView::RequestDeviceImport { bus_id } => {
            lemma_request_device_import_roundtrip(bus_id, rest);
        },
        FrameView::ReplyDeviceImport { status, device } => {
            lemma_reply_device_import_roundtrip(status, device, rest);
        },
    }
}

/// The speed that sysfs reports as `t` (in Mbit/s).
pub open spec fn speed_of_sysfs(t: Seq<char>) -> Option<DeviceSpeed> {
    if t == "1.5"@ {
        Some(DeviceSpeed::Low)
    } else if t == "12"@ {
        Some(DeviceSpeed::Full)
    } else if t == "480"@ {
        Some(DeviceSpeed::High)
    } else if t == "5000"@ {
        Some(DeviceSpeed::Super)
    } else if t == "10000"@ || t == "20000"@ {
        Some(DeviceSpeed::SuperPlus)
    } else {
        None
    }
}

impl vstd::std_specs::convert::TryFromSpecImpl<String> for DeviceSpeed {
    open spec fn obeys_try_from_spec() -> bool {
        true
    }

    open spec fn try_from_spec(v: String) -> Result<DeviceSpeed, ParseError> {
        match speed_of_sysfs(trimmed(v@)) {
            Some(s) => Ok(s),
            None => Err(ParseError::InvalidSpeedClass),
        }
    }
}

impl TryFrom<String> for DeviceSpeed {
    type Error = ParseError;

    /// Reads the contents of a sysfs `speed` file, surrounding whitespace aside.
    fn try_from(value: String) -> (r: Result<DeviceSpeed, ParseError>) {
        let t = trim(value.as_str());
        let t = t.as_str();
        if text_equals(t, "1.5") {
            Ok(DeviceSpeed::Low)
        } else if text_equals(t, "12") {
            Ok(DeviceSpeed::Full)
        } else if text_equals(t, "480") {
            Ok(DeviceSpeed::High)
        } else if text_equals(t, "5000") {
            Ok(DeviceSpeed::Super)
        } else if text_equals(t, "10000") || text_equals(t, "20000") {
            Ok(DeviceSpeed::SuperPlus)
        } else {
            Err(ParseError::InvalidSpeedClass)
        }
    }
}

/// An attribute file of a device interface in sysfs.
#[derive(Debug)]
pub enum USBDeviceInterfaceField {
    Class,
    Subclass,
    Protocol,
}

/// The file name of an interface attribute. The subclass is mapped to the
/// class file, `bInterfaceClass`, so it reads the same file as the class.
pub open spec fn interface_field_name(f: USBDeviceInterfaceField) -> Seq<char> {
    match f {
        USBDeviceInterfaceField::Class => "bInterfaceClass"@,
        USBDeviceInterfaceField::Subclass => "bInterfaceClass"@,
        USBDeviceInterfaceField::Protocol => "bInterfaceProtocol"@,
    }
}

impl USBDeviceInterfaceField {
    pub fn as_str(&self) -> (s: &str)
        ensures
            s@ == interface_field_name(*self),
    {
        match self {
            USBDeviceInterfaceField::Class => "bInterfaceClass",
            USBDeviceInterfaceField::Subclass => "bInterfaceClass",
            USBDeviceInterfaceField::Protocol => "bInterfaceProtocol",
        }
    }
}

/// An attribute file of a device in sysfs.
#[derive(Debug)]
pub enum USBDeviceField {
    BusNum,
    DevNum,
    Speed,
    VendorId,
    ProductId,
    RevisionNum,
    Class,
    Subclass,
    Protocol,
    ConfigurationValue,
    NumConfigurations,
}

/// The file name of a device attribute.
pub open spec fn device_field_name(f: USBDeviceField) -> Seq<char> {
    match f {
        USBDeviceField::BusNum => "busnum"@,
        USBDeviceField::DevNum => "devnum"@,
        USBDeviceField::Speed => "speed"@,
        USBDeviceField::VendorId => "idVendor"@,
        USBDeviceField::ProductId => "idProduct"@,
        USBDeviceField::RevisionNum => "bcdDevice"@,
        USBDeviceField::Class => "bDeviceClass"@,
        USBDeviceField::Subclass => "bDeviceSubClass"@,
        USBDeviceField::Protocol => "bDeviceProtocol"@,
        USBDeviceField::ConfigurationValue => "bConfigurationValue"@,
        USBDeviceField::NumConfigurations => "bNumConfigurations"@,
    }
}

impl USBDeviceField {
    pub fn as_str(&self) -> (s: &str)
        ensures
            s@ == device_field_name(*self),
    {
        match self {
            USBDeviceField::BusNum => "busnum",
            USBDeviceField::DevNum => "devnum",
            USBDeviceField::Speed => "speed",
            USBDeviceField::VendorId => "idVendor",
            USBDeviceField::ProductId => "idProduct",
            USBDeviceField::RevisionNum => "bcdDevice",
            USBDeviceField::Class => "bDeviceClass",
            USBDeviceField::Subclass => "bDeviceSubClass",
            USBDeviceField::Protocol => "bDeviceProtocol",
            USBDeviceField::ConfigurationValue => "bConfigurationValue",
            USBDeviceField::NumConfigurations => "bNumConfigurations",
        }
    }
}


/// A decoding outcome that more input cannot change: a value, or a failure other
/// than running out of input.
pub open spec fn settled<T>(r: Result<(T, int), DecodeFailure>) -> bool {
    !(r == Err::<(T, int), DecodeFailure>(DecodeFailure::Truncated))
}

proof fn lemma_parse_str_field_extension(b: Seq<u8>, more: Seq<u8>, width: nat)
    requires
        b.len() >= width,
    ensures
        parse_str_field(b + more, width) == parse_str_field(b, width),
{
    assert((b + more).take(width as int) =~= b.take(width as int));
}

/// Once a device record reads (or fails for a reason other than running out of
/// input), more input after it changes nothing.
pub proof fn lemma_parse_device_extension(b: Seq<u8>, more: Seq<u8>)
    requires
        settled(parse_device(b)),
    ensures
        parse_device(b + more) == parse_device(b),
{
    reveal(parse_device);
    let c = b + more;
    if b.len() >= 256 {
        lemma_parse_str_field_extension(b, more, 256);
    }
    if b.len() >= 288 {
        assert(c.skip(256) =~= b.skip(256) + more);
        lemma_parse_str_field_extension(b.skip(256), more, 32);
    }
    if b.len() >= 300 {
        assert(c.subrange(288, 292) =~= b.subrange(288, 292));
        assert(c.subrange(292, 296) =~= b.subrange(292, 296));
        assert(c.subrange(296, 300) =~= b.subrange(296, 300));
    }
    if b.len() >= 312 {
        assert(c.subrange(300, 302) =~= b.subrange(300, 302));
        assert(c.subrange(302, 304) =~= b.subrange(302, 304));
        assert(c.subrange(304, 306) =~= b.subrange(304, 306));
        assert(c[311] == b[311]);
        let n = b[311] as nat;
        if b.len() >= 312 + 4 * n {
            assert(interfaces_at(c.skip(312), n) =~= interfaces_at(b.skip(312), n));
        }
    }
}

/// Once `n` device records read (or fail for a reason other than running out of
/// input), more input after them changes nothing.
pub proof fn lemma_parse_devices_extension(b: Seq<u8>, more: Seq<u8>, n: nat)
    requires
        settled(parse_devices(b, n)),
    ensures
        parse_devices(b + more, n) == parse_devices(b, n),
    decreases n,
{
    if n > 0 {
        let prev = parse_devices(b, (n - 1) as nat);
        if settled(prev) {
            lemma_parse_devices_extension(b, more, (n - 1) as nat);
            if let Ok((ds, k)) = prev {
                lemma_parse_devices_within(b, (n - 1) as nat);
                assert((b + more).skip(k) =~= b.skip(k) + more);
                lemma_parse_device_extension(b.skip(k), more);
            }
        } else {
            assert(parse_devices(b, n) == prev);
        }
    }
}

/// Once a message reads (or fails for a reason other than running out of input),
/// more input after it changes nothing: a reader may take bytes as they come
/// and decode again until the outcome is settled.
pub proof fn lemma_parse_frame_extension(b: Seq<u8>, more: Seq<u8>)
    requires
        settled(parse_frame(b)),
    ensures
        parse_frame(b + more) == parse_frame(b),
{
    let c = b + more;
    assert(c.subrange(2, 4) =~= b.subrange(2, 4));
    let body = b.skip(4);
    assert(c.skip(4) =~= body + more);
    let op = be16_value(b.subrange(2, 4));
    if op == OP_REP_DEVLIST {
        if body.len() >= 8 {
            assert((body + more).subrange(0, 4) =~= body.subrange(0, 4));
            assert((body + more).subrange(4, 8) =~= body.subrange(4, 8));
            assert((body + more).skip(8) =~= body.skip(8) + more);
            lemma_parse_devices_extension(
                body.skip(8),
                more,
                be32_value(body.subrange(4, 8)) as nat,
            );
        }
    } else if op == OP_REQ_IMPORT {
        if body.len() >= 4 {
            assert((body + more).skip(4) =~= body.skip(4) + more);
            if body.skip(4).len() >= 32 {
                lemma_parse_str_field_extension(body.skip(4), more, 32);
            }
        }
    } else if op == OP_REP_IMPORT {
        if body.len() >= 4 {
            assert((body + more).subrange(0, 4) =~= body.subrange(0, 4));
            assert((body + more).skip(4) =~= body.skip(4) + more);
            if be32_value(body.subrange(0, 4)) == 0 {
                lemma_parse_device_extension(body.skip(4), more);
            }
        }
    }
}

/// Every text of a message fits its field.
pub open spec fn frame_texts_fit(f: FrameView) -> bool {
    match f {
        FrameView::RequestDeviceList => true,
        FrameView::ReplyDeviceList { status, devices } => forall|i: int|
            0 <= i < devices.len() ==> fits_field(#[trigger] devices[i].path, 256) && fits_field(
                devices[i].bus_id,
                32,
            ),
        FrameView::RequestDeviceImport { bus_id } => fits_field(bus_id, 32),
        FrameView::ReplyDeviceImport { status, device } => (status == 0 && device is Some)
            ==> fits_field(device->0.path, 256) && fits_field(device->0.bus_id, 32),
    }
}

proof fn lemma_encode_devices_failure(ds: Seq<USBDeviceView>)
    ensures
        encode_devices(ds) is Ok <==> forall|i: int|
            0 <= i < ds.len() ==> fits_field(#[trigger] ds[i].path, 256) && fits_field(
                ds[i].bus_id,
                32,
            ),
        encode_devices(ds) matches Err(e) ==> !fits_field(e.text, e.width),
    decreases ds.len(),
{
    if ds.len() > 0 {
        let init = ds.drop_last();
        lemma_encode_devices_failure(init);
        if encode_devices(init) is Ok {
            assert forall|i: int| 0 <= i < init.len() implies fits_field(
                #[trigger] init[i].path,
                256,
            ) && fits_field(init[i].bus_id, 32) by {
                assert(init[i] == ds[i]);
            }
        } else {
            let i = choose|i: int|
                0 <= i < init.len() && !(fits_field(#[trigger] init[i].path, 256) && fits_field(
                    init[i].bus_id,
                    32,
                ));
            assert(init[i] == ds[i]);
        }
        if encode_devices(ds) is Ok {
            assert forall|i: int| 0 <= i < ds.len() implies fits_field(#[trigger] ds[i].path, 256)
                && fits_field(ds[i].bus_id, 32) by {
                if i < init.len() {
                    assert(init[i] == ds[i]);
                }
            }
        }
    }
}

/// A message encodes exactly when every text in it fits its field, and a
/// failure names a text that does not fit.
pub proof fn lemma_encode_frame_failure(f: FrameView)
    ensures
        encode_frame(f) is Ok <==> frame_texts_fit(f),
        encode_frame(f) matches Err(e) ==> !fits_field(e.text, e.width),
{
    if let FrameView::ReplyDeviceList { status, devices } = f {
        lemma_encode_devices_failure(devices);
    }
}

} // verus!
