//! The frame codec: the opcode vocabulary, the frame structure, and the
//! serialization to and from the wire byte format.

use vstd::prelude::*;
use vstd::string::StringExecFns;

use crate::mask::xor_cyclic;
use crate::Error;

verus! {

/// The character of a decimal digit.
pub open spec fn digit_char(d: u8) -> char
    recommends
        d < 10,
{
    if d == 0 {
        '0'
    } else if d == 1 {
        '1'
    } else if d == 2 {
        '2'
    } else if d == 3 {
        '3'
    } else if d == 4 {
        '4'
    } else if d == 5 {
        '5'
    } else if d == 6 {
        '6'
    } else if d == 7 {
        '7'
    } else if d == 8 {
        '8'
    } else {
        '9'
    }
}

/// The decimal digits of a byte value, most significant first, without
/// leading zeros.
pub open spec fn spec_decimal(v: u8) -> Seq<char> {
    if v < 10 {
        seq![digit_char(v)]
    } else if v < 100 {
        seq![digit_char(v / 10), digit_char(v % 10)]
    } else {
        seq![digit_char(v / 100), digit_char((v % 100) / 10), digit_char(v % 10)]
    }
}

fn digit_str(d: u8) -> (r: &'static str)
    requires
        d < 10,
    ensures
        r@.len() == 1,
        r@[0] == digit_char(d),
{
    proof {
        reveal_strlit("0");
        reveal_strlit("1");
        reveal_strlit("2");
        reveal_strlit("3");
        reveal_strlit("4");
        reveal_strlit("5");
        reveal_strlit("6");
        reveal_strlit("7");
        reveal_strlit("8");
        reveal_strlit("9");
    }
    match d {
        0 => "0",
        1 => "1",
        2 => "2",
        3 => "3",
        4 => "4",
        5 => "5",
        6 => "6",
        7 => "7",
        8 => "8",
        _ => "9",
    }
}

/// The protocol error rejecting an opcode wire value, whose message names
/// the value in decimal.
fn invalid_opcode_error(value: u8) -> (r: Error)
    ensures
        r matches Error::Protocol(m) && m@ == "Invalid OpCode: "@ + spec_decimal(value),
{
    let mut m = "Invalid OpCode: ".to_owned();
    if value >= 100 {
        m.append(digit_str(value / 100));
        m.append(digit_str((value % 100) / 10));
        m.append(digit_str(value % 10));
    } else if value >= 10 {
        m.append(digit_str(value / 10));
        m.append(digit_str(value % 10));
    } else {
        m.append(digit_str(value));
    }
    proof {
        assert(m@ =~= "Invalid OpCode: "@ + spec_decimal(value));
    }
    Error::Protocol(m)
}

/// The opcode of a frame, a closed vocabulary of 4-bit wire values:
/// 0 continuation, 1 text, 2 binary, 8 close, 9 ping, 10 pong.
#[derive(Debug, Clone, Copy, PartialEq, Eq, Structural)]
pub enum OpCode {
    /// Indicates a continuation frame.
    Continuation,
    /// Indicates a text frame.
    Text,
    /// Indicates a binary frame.
    Binary,
    /// Indicates a close frame.
    Close,
    /// Indicates a ping frame.
    Ping,
    /// Indicates a pong frame.
    Pong,
}

impl OpCode {
    /// The fixed 4-bit wire value of this opcode.
    pub open spec fn wire_value(self) -> u8 {
        match self {
            OpCode::Continuation => 0,
            OpCode::Text => 1,
            OpCode::Binary => 2,
            OpCode::Close => 8,
            OpCode::Ping => 9,
            OpCode::Pong => 10,
        }
    }

    /// Whether a 4-bit wire value names an opcode of the vocabulary.
    pub open spec fn valid_wire(value: u8) -> bool {
        value == 0 || value == 1 || value == 2 || value == 8 || value == 9 || value == 10
    }

    /// The opcode named by a valid wire value.
    pub open spec fn from_wire(value: u8) -> OpCode
        recommends
            OpCode::valid_wire(value),
    {
        if value == 0 {
            OpCode::Continuation
        } else if value == 1 {
            OpCode::Text
        } else if value == 2 {
            OpCode::Binary
        } else if value == 8 {
            OpCode::Close
        } else if value == 9 {
            OpCode::Ping
        } else {
            OpCode::Pong
        }
    }

    /// Validated conversion from a wire value; any value outside the
    /// vocabulary is a protocol error.
    pub fn try_from(value: u8) -> (r: Result<OpCode, Error>)
        ensures
            r is Ok <==> OpCode::valid_wire(value),
            OpCode::valid_wire(value) ==> r == Ok::<OpCode, Error>(OpCode::from_wire(value)),
            !OpCode::valid_wire(value) ==> (r matches Err(Error::Protocol(m)) && m@
                == "Invalid OpCode: "@ + spec_decimal(value)),
    {
        match value {
            0 => Ok(OpCode::Continuation),
            1 => Ok(OpCode::Text),
            2 => Ok(OpCode::Binary),
            8 => Ok(OpCode::Close),
            9 => Ok(OpCode::Ping),
            10 => Ok(OpCode::Pong),
            _ => Err(invalid_opcode_error(value)),
        }
    }

    /// The wire value of this opcode, executable counterpart of
    /// `wire_value`.
    pub fn to_wire(self) -> (r: u8)
        ensures
            r == self.wire_value(),
    {
        match self {
            OpCode::Continuation => 0,
            OpCode::Text => 1,
            OpCode::Binary => 2,
            OpCode::Close => 8,
            OpCode::Ping => 9,
            OpCode::Pong => 10,
        }
    }
}

/// The mathematical model of a frame: the header flags, the opcode, the
/// optional 4-byte mask, and the payload byte sequence.
#[verifier::ext_equal]
pub struct FrameView {
    pub fin: bool,
    pub rsv1: bool,
    pub rsv2: bool,
    pub rsv3: bool,
    pub opcode: OpCode,
    pub mask: Option<Seq<u8>>,
    pub payload: Seq<u8>,
}

impl FrameView {
    /// A well-formed frame model: a mask, when present, is exactly 4 bytes,
    /// and the payload length is representable in the 64-bit length tier.
    pub open spec fn wf(self) -> bool {
        &&& (self.mask matches Some(m) ==> m.len() == 4)
        &&& self.payload.len() <= u64::MAX
    }
}

/// The given bit when the flag is set, zero otherwise.
pub open spec fn flag_bit(flag: bool, bit: u8) -> u8 {
    if flag {
        bit
    } else {
        0
    }
}

/// The first header byte: bit 7 fin, bit 6 rsv1, bit 5 rsv2, bit 4 rsv3, and
/// the opcode's wire value in the low 4 bits.
pub open spec fn spec_first_byte(f: FrameView) -> u8 {
    flag_bit(f.fin, 0x80) | flag_bit(f.rsv1, 0x40) | flag_bit(f.rsv2, 0x20) | flag_bit(
        f.rsv3,
        0x10,
    ) | f.opcode.wire_value()
}

/// The 7-bit length code: the length itself below 126, else 126 for the
/// 16-bit tier, else 127 for the 64-bit tier.
pub open spec fn spec_len_code(len: nat) -> u8 {
    if len < 126 {
        len as u8
    } else if len < 65536 {
        126
    } else {
        127
    }
}

/// The second header byte: the mask-present flag in bit 7 and the length
/// code in the low 7 bits.
pub open spec fn spec_second_byte(f: FrameView) -> u8 {
    flag_bit(f.mask is Some, 0x80) | spec_len_code(f.payload.len())
}

/// A 16-bit value as 2 big-endian bytes.
pub open spec fn spec_be16(n: u16) -> Seq<u8> {
    seq![(n / 0x100) as u8, (n % 0x100) as u8]
}

/// A 64-bit value as 8 big-endian bytes.
pub open spec fn spec_be64(n: u64) -> Seq<u8> {
    seq![
        (n / 0x100000000000000) as u8,
        ((n / 0x1000000000000) % 0x100) as u8,
        ((n / 0x10000000000) % 0x100) as u8,
        ((n / 0x100000000) % 0x100) as u8,
        ((n / 0x1000000) % 0x100) as u8,
        ((n / 0x10000) % 0x100) as u8,
        ((n / 0x100) % 0x100) as u8,
        (n % 0x100) as u8,
    ]
}

/// The extended-length bytes that follow the second header byte: none below
/// 126, a 2-byte big-endian length in the 16-bit tier, an 8-byte big-endian
/// length in the 64-bit tier.
pub open spec fn spec_ext_bytes(len: nat) -> Seq<u8>
    recommends
        len <= u64::MAX,
{
    if len < 126 {
        Seq::empty()
    } else if len < 65536 {
        spec_be16(len as u16)
    } else {
        spec_be64(len as u64)
    }
}

/// The mask bytes of a frame on the wire: the 4-byte key when present,
/// nothing otherwise.
pub open spec fn spec_mask_bytes(f: FrameView) -> Seq<u8> {
    match f.mask {
        Some(m) => m,
        None => Seq::empty(),
    }
}

/// The exact wire byte sequence of a frame: the two header bytes, the
/// extended-length bytes, the mask bytes, then the payload bytes as given.
pub open spec fn spec_encode(f: FrameView) -> Seq<u8>
    recommends
        f.wf(),
{
    seq![spec_first_byte(f), spec_second_byte(f)] + spec_ext_bytes(f.payload.len())
        + spec_mask_bytes(f) + f.payload
}

/// The number of extended-length bytes announced by a 7-bit length code:
/// 2 for code 126, 8 for code 127, none otherwise.
pub open spec fn spec_ext_count(code: u8) -> int {
    if code == 126 {
        2
    } else if code == 127 {
        8
    } else {
        0
    }
}

/// The value of 2 big-endian bytes.
pub open spec fn spec_val16(b0: u8, b1: u8) -> int {
    0x100 * b0 + b1
}

/// The value of 8 big-endian bytes.
pub open spec fn spec_val64(b: Seq<u8>) -> int
    recommends
        b.len() == 8,
{
    ((((((b[0] * 0x100 + b[1]) * 0x100 + b[2]) * 0x100 + b[3]) * 0x100 + b[4]) * 0x100 + b[5])
        * 0x100 + b[6]) * 0x100 + b[7]
}

/// The 7-bit length code carried by the second header byte.
pub open spec fn spec_wire_len_code(b: Seq<u8>) -> u8
    recommends
        b.len() >= 2,
{
    b[1] & 0x7F
}

/// Whether the second header byte announces a mask.
pub open spec fn spec_wire_masked(b: Seq<u8>) -> bool
    recommends
        b.len() >= 2,
{
    b[1] & 0x80 != 0
}

/// The length of the two header bytes plus the extended-length bytes.
pub open spec fn spec_header_len(b: Seq<u8>) -> int
    recommends
        b.len() >= 2,
{
    2 + spec_ext_count(spec_wire_len_code(b))
}

/// The payload length announced by the header: the length code itself, or
/// the big-endian value of the extended-length bytes.
pub open spec fn spec_payload_len(b: Seq<u8>) -> int
    recommends
        b.len() >= spec_header_len(b),
{
    let code = spec_wire_len_code(b);
    if code == 126 {
        spec_val16(b[2], b[3])
    } else if code == 127 {
        spec_val64(b.subrange(2, 10))
    } else {
        code as int
    }
}

/// The number of mask bytes announced by the header.
pub open spec fn spec_mask_count(b: Seq<u8>) -> int
    recommends
        b.len() >= 2,
{
    if spec_wire_masked(b) {
        4
    } else {
        0
    }
}

/// The total number of wire bytes of the frame that starts the sequence.
pub open spec fn spec_frame_len(b: Seq<u8>) -> int
    recommends
        b.len() >= spec_header_len(b),
{
    spec_header_len(b) + spec_mask_count(b) + spec_payload_len(b)
}

/// Whether the byte sequence starts with one complete, structurally valid
/// frame: both header bytes present, a recognized opcode, and enough bytes
/// for the announced extension, mask and payload.
pub open spec fn spec_frame_ok(b: Seq<u8>) -> bool {
    &&& b.len() >= 2
    &&& OpCode::valid_wire(b[0] & 0x0F)
    &&& b.len() >= spec_header_len(b)
    &&& b.len() >= spec_frame_len(b)
}

/// The frame described by a structurally valid wire prefix, with a masked
/// payload unmasked and the mask value kept for inspection.
pub open spec fn spec_decoded(b: Seq<u8>) -> FrameView
    recommends
        spec_frame_ok(b),
{
    let moff = spec_header_len(b);
    let poff = moff + spec_mask_count(b);
    let raw = b.subrange(poff, poff + spec_payload_len(b));
    let key = b.subrange(moff, moff + 4);
    FrameView {
        fin: b[0] & 0x80 != 0,
        rsv1: b[0] & 0x40 != 0,
        rsv2: b[0] & 0x20 != 0,
        rsv3: b[0] & 0x10 != 0,
        opcode: OpCode::from_wire(b[0] & 0x0F),
        mask: if spec_wire_masked(b) {
            Some(key)
        } else {
            None
        },
        payload: if spec_wire_masked(b) {
            xor_cyclic(raw, key)
        } else {
            raw
        },
    }
}

/// One protocol unit of the wire format.
#[derive(Debug, PartialEq, Eq)]
pub struct Frame {
    /// Indicates if this is the final fragment in a message.
    pub fin: bool,
    /// First reserved bit.
    pub rsv1: bool,
    /// Second reserved bit.
    pub rsv2: bool,
    /// Third reserved bit.
    pub rsv3: bool,
    /// The opcode for this frame.
    pub opcode: OpCode,
    /// The masking key, if any.
    pub mask: Option<[u8; 4]>,
    /// The payload data.
    pub payload: Vec<u8>,
}

impl View for Frame {
    type V = FrameView;

    open spec fn view(&self) -> FrameView {
        FrameView {
            fin: self.fin,
            rsv1: self.rsv1,
            rsv2: self.rsv2,
            rsv3: self.rsv3,
            opcode: self.opcode,
            mask: match self.mask {
                Some(m) => Some(m@),
                None => None,
            },
            payload: self.payload@,
        }
    }
}

impl Frame {
    /// Creates a new final, unmasked frame with the given opcode and payload
    /// and all reserved bits clear.
    pub fn new(opcode: OpCode, payload: Vec<u8>) -> (r: Frame)
        ensures
            r@ == (FrameView {
                fin: true,
                rsv1: false,
                rsv2: false,
                rsv3: false,
                opcode,
                mask: None,
                payload: payload@,
            }),
    {
        Frame { fin: true, rsv1: false, rsv2: false, rsv3: false, opcode, mask: None, payload }
    }

    /// Creates a close frame whose payload is the 2-byte big-endian status
    /// code, or empty when no status code is given.
    pub fn close(status_code: Option<u16>) -> (r: Frame)
        ensures
            r@.opcode == OpCode::Close,
            r@.fin && !r@.rsv1 && !r@.rsv2 && !r@.rsv3,
            r@.mask is None,
            r@.payload == (match status_code {
                Some(code) => seq![(code / 256) as u8, (code % 256) as u8],
                None => Seq::<u8>::empty(),
            }),
    {
        let payload: Vec<u8> = match status_code {
            Some(code) => {
                let mut p: Vec<u8> = Vec::new();
                p.push((code / 256) as u8);
                p.push((code % 256) as u8);
                p
            },
            None => Vec::new(),
        };
        proof {
            assert(payload@ =~= (match status_code {
                Some(code) => seq![(code / 256) as u8, (code % 256) as u8],
                None => Seq::<u8>::empty(),
            }));
        }
        Frame::new(OpCode::Close, payload)
    }

    /// Serializes the frame to its exact wire byte sequence, choosing the
    /// smallest length tier that can represent the payload length.
    #[verifier::rlimit(50)]
    pub fn to_bytes(&self) -> (r: Vec<u8>)
        ensures
            r@ == spec_encode(self@),
    {
        let mut bytes: Vec<u8> = Vec::new();

        let b_fin: u8 = if self.fin {
            0x80
        } else {
            0
        };
        let b_rsv1: u8 = if self.rsv1 {
            0x40
        } else {
            0
        };
        let b_rsv2: u8 = if self.rsv2 {
            0x20
        } else {
            0
        };
        let b_rsv3: u8 = if self.rsv3 {
            0x10
        } else {
            0
        };
        let first_byte: u8 = b_fin | b_rsv1 | b_rsv2 | b_rsv3 | self.opcode.to_wire();
        bytes.push(first_byte);

        let b_mask: u8 = if self.mask.is_some() {
            0x80
        } else {
            0
        };
        let payload_len = self.payload.len();
        let second_byte: u8 = if payload_len < 126 {
            b_mask | (payload_len as u8)
        } else if payload_len < 65536 {
            b_mask | 126
        } else {
            b_mask | 127
        };
        bytes.push(second_byte);

        if payload_len >= 126 && payload_len < 65536 {
            let n = payload_len as u16;
            bytes.push((n / 0x100) as u8);
            bytes.push((n % 0x100) as u8);
        } else if payload_len >= 65536 {
            let n = payload_len as u64;
            bytes.push((n / 0x100000000000000) as u8);
            bytes.push(((n / 0x1000000000000) % 0x100) as u8);
            bytes.push(((n / 0x10000000000) % 0x100) as u8);
            bytes.push(((n / 0x100000000) % 0x100) as u8);
            bytes.push(((n / 0x1000000) % 0x100) as u8);
            bytes.push(((n / 0x10000) % 0x100) as u8);
            bytes.push(((n / 0x100) % 0x100) as u8);
            bytes.push((n % 0x100) as u8);
        }
        proof {
            assert(bytes@ =~= seq![spec_first_byte(self@), spec_second_byte(self@)]
                + spec_ext_bytes(self@.payload.len()));
        }

        if let Some(m) = self.mask {
            bytes.push(m[0]);
            bytes.push(m[1]);
            bytes.push(m[2]);
            bytes.push(m[3]);
            proof {
                assert(m@ =~= seq![m@[0], m@[1], m@[2], m@[3]]);
            }
        }
        proof {
            assert(bytes@ =~= seq![spec_first_byte(self@), spec_second_byte(self@)]
                + spec_ext_bytes(self@.payload.len()) + spec_mask_bytes(self@));
        }

        bytes.extend_from_slice(self.payload.as_slice());
        proof {
            assert(bytes@ =~= spec_encode(self@));
        }
        bytes
    }

    /// The sizes the second header byte announces: how many extended-length
    /// bytes follow the two header bytes, and whether 4 mask bytes follow
    /// those.
    pub fn header_sizes(second_byte: u8) -> (r: (usize, bool))
        ensures
            r.0 == spec_ext_count(second_byte & 0x7F),
            r.1 == (second_byte & 0x80 != 0),
    {
        let code = second_byte & 0x7F;
        let ext: usize = if code == 126 {
            2
        } else if code == 127 {
            8
        } else {
            0
        };
        (ext, second_byte & 0x80 != 0)
    }

    /// The payload length announced by the second header byte and its
    /// extended-length bytes: the 7-bit code itself below 126, else the
    /// big-endian value of the extension.
    pub fn payload_length(second_byte: u8, ext: &[u8]) -> (r: u64)
        requires
            ext@.len() == spec_ext_count(second_byte & 0x7F),
        ensures
            (second_byte & 0x7F) < 126 ==> r == (second_byte & 0x7F) as u64,
            (second_byte & 0x7F) == 126 ==> r == spec_val16(ext@[0], ext@[1]),
            (second_byte & 0x7F) == 127 ==> r == spec_val64(ext@),
    {
        let code = second_byte & 0x7F;
        if code == 126 {
            0x100u64 * (ext[0] as u64) + (ext[1] as u64)
        } else if code == 127 {
            let mut v: u64 = ext[0] as u64;
            v = v * 0x100 + (ext[1] as u64);
            v = v * 0x100 + (ext[2] as u64);
            v = v * 0x100 + (ext[3] as u64);
            v = v * 0x100 + (ext[4] as u64);
            v = v * 0x100 + (ext[5] as u64);
            v = v * 0x100 + (ext[6] as u64);
            v = v * 0x100 + (ext[7] as u64);
            v
        } else {
            code as u64
        }
    }

    /// Deserializes one frame from the start of the given bytes, returning
    /// the frame and the number of bytes it occupied. Any length tier is
    /// accepted regardless of whether a smaller one would have sufficed. A
    /// masked payload is unmasked, with the mask kept in the frame for
    /// inspection. An unrecognized opcode is a protocol error; a truncated
    /// prefix is an I/O error, as a short stream end would be.
    #[verifier::rlimit(50)]
    pub fn from_bytes(bytes: &[u8]) -> (r: Result<(Frame, usize), Error>)
        ensures
            r is Ok <==> spec_frame_ok(bytes@),
            r matches Ok(p) ==> p.0@ == spec_decoded(bytes@) && p.1 == spec_frame_len(bytes@),
            bytes@.len() >= 2 && !OpCode::valid_wire(bytes@[0] & 0x0F) ==> (r matches Err(
                Error::Protocol(m),
            ) && m@ == "Invalid OpCode: "@ + spec_decimal(bytes@[0] & 0x0F)),
            !spec_frame_ok(bytes@) && (bytes@.len() < 2 || OpCode::valid_wire(bytes@[0] & 0x0F))
                ==> (r matches Err(Error::Io(m)) && m@ == "unexpected end of stream"@),
    {
        if bytes.len() < 2 {
            return Err(Error::Io("unexpected end of stream".to_owned()));
        }
        let first_byte = bytes[0];
        let second_byte = bytes[1];

        let fin = first_byte & 0x80 != 0;
        let rsv1 = first_byte & 0x40 != 0;
        let rsv2 = first_byte & 0x20 != 0;
        let rsv3 = first_byte & 0x10 != 0;
        let opcode = match OpCode::try_from(first_byte & 0x0F) {
            Ok(op) => op,
            Err(e) => {
                return Err(e);
            },
        };

        let code = second_byte & 0x7F;
        let (ext, masked) = Frame::header_sizes(second_byte);
        if bytes.len() < 2 + ext {
            return Err(Error::Io("unexpected end of stream".to_owned()));
        }

        let payload_len: u64 = Frame::payload_length(second_byte, &bytes[2..2 + ext]);
        proof {
            assert(second_byte & 0x7F < 128) by (bit_vector);
            if code == 127 {
                assert(bytes@.subrange(2, 2 + ext as int) =~= bytes@.subrange(2, 10));
            }
            assert(payload_len == spec_payload_len(bytes@));
        }

        let mask_off = 2 + ext;
        let mask_count: usize = if masked {
            4
        } else {
            0
        };
        if bytes.len() < mask_off + mask_count {
            return Err(Error::Io("unexpected end of stream".to_owned()));
        }
        let mask: Option<[u8; 4]> = if masked {
            Some(
                [
                    bytes[mask_off],
                    bytes[mask_off + 1],
                    bytes[mask_off + 2],
                    bytes[mask_off + 3],
                ],
            )
        } else {
            None
        };

        let payload_off = mask_off + mask_count;
        let remaining = bytes.len() - payload_off;
        if payload_len > remaining as u64 {
            return Err(Error::Io("unexpected end of stream".to_owned()));
        }
        let plen = payload_len as usize;

        let payload_slice = &bytes[payload_off..payload_off + plen];
        let mut payload = vstd::slice::slice_to_vec(payload_slice);
        if let Some(key) = &mask {
            crate::mask::apply_mask(&mut payload, key);
        }

        let consumed = payload_off + plen;
        let frame = Frame { fin, rsv1, rsv2, rsv3, opcode, mask, payload };
        proof {
            if spec_wire_masked(bytes@) {
                assert(bytes@.subrange(mask_off as int, mask_off + 4) =~= seq![
                    bytes@[mask_off as int],
                    bytes@[mask_off + 1],
                    bytes@[mask_off + 2],
                    bytes@[mask_off + 3],
                ]);
            }
            assert(frame@ =~= spec_decoded(bytes@));
        }
        Ok((frame, consumed))
    }

    /// Checks if this frame is a close frame.
    pub fn is_close(&self) -> (r: bool)
        ensures
            r == (self@.opcode == OpCode::Close),
    {
        self.opcode == OpCode::Close
    }

    /// Checks if this frame is masked.
    pub fn is_masked(&self) -> (r: bool)
        ensures
            r == (self@.mask is Some),
    {
        self.mask.is_some()
    }
}

/// The value of 2 big-endian bytes written from a 16-bit value is that
/// value.
proof fn lemma_be16_val(n: u16)
    ensures
        spec_val16((n / 0x100) as u8, (n % 0x100) as u8) == n,
{
}

/// The value of 8 big-endian bytes written from a 64-bit value is that
/// value.
#[verifier::rlimit(100)]
proof fn lemma_be64_val(n: u64)
    ensures
        spec_val64(spec_be64(n)) == n,
{
    let s = spec_be64(n);
    let e0: u64 = n / 0x100000000000000;
    let e1: u64 = (n / 0x1000000000000) % 0x100;
    let e2: u64 = (n / 0x10000000000) % 0x100;
    let e3: u64 = (n / 0x100000000) % 0x100;
    let e4: u64 = (n / 0x1000000) % 0x100;
    let e5: u64 = (n / 0x10000) % 0x100;
    let e6: u64 = (n / 0x100) % 0x100;
    let e7: u64 = n % 0x100;
    assert(e0 < 0x100);
    assert(s[0] == e0 as u8 && s[1] == e1 as u8 && s[2] == e2 as u8 && s[3] == e3 as u8 && s[4]
        == e4 as u8 && s[5] == e5 as u8 && s[6] == e6 as u8 && s[7] == e7 as u8);
    assert(spec_val64(s) == ((((((e0 * 0x100 + e1) * 0x100 + e2) * 0x100 + e3) * 0x100 + e4)
        * 0x100 + e5) * 0x100 + e6) * 0x100 + e7);
    assert(((((((e0 * 0x100 + e1) * 0x100 + e2) * 0x100 + e3) * 0x100 + e4) * 0x100 + e5) * 0x100
        + e6) * 0x100 + e7 == n) by (bit_vector)
        requires
            e0 == n / 0x100000000000000,
            e1 == (n / 0x1000000000000) % 0x100,
            e2 == (n / 0x10000000000) % 0x100,
            e3 == (n / 0x100000000) % 0x100,
            e4 == (n / 0x1000000) % 0x100,
            e5 == (n / 0x10000) % 0x100,
            e6 == (n / 0x100) % 0x100,
            e7 == n % 0x100,
    ;
}

/// Decoding an encoded frame recovers every header field and the mask
/// exactly; the payload comes back XOR-ed with the mask when one is present
/// (the encoder writes payload bytes as given, the decoder unmasks), and
/// unchanged otherwise.
pub proof fn lemma_decode_encode(f: FrameView)
    requires
        f.wf(),
    ensures
        spec_frame_ok(spec_encode(f)),
        spec_frame_len(spec_encode(f)) == spec_encode(f).len(),
        spec_decoded(spec_encode(f)) == (FrameView {
            payload: match f.mask {
                Some(m) => xor_cyclic(f.payload, m),
                None => f.payload,
            },
            ..f
        }),
{
    let w = spec_encode(f);
    let len = f.payload.len();
    let ext = spec_ext_bytes(len);
    let maskb = spec_mask_bytes(f);
    let b0 = spec_first_byte(f);
    let b1 = spec_second_byte(f);
    assert(w[0] == b0 && w[1] == b1);

    let bf = flag_bit(f.fin, 0x80);
    let br1 = flag_bit(f.rsv1, 0x40);
    let br2 = flag_bit(f.rsv2, 0x20);
    let br3 = flag_bit(f.rsv3, 0x10);
    let op = f.opcode.wire_value();
    assert(op < 16);
    assert((((bf | br1 | br2 | br3 | op) & 0x80 != 0) == (bf == 0x80)) && (((bf | br1 | br2 | br3
        | op) & 0x40 != 0) == (br1 == 0x40)) && (((bf | br1 | br2 | br3 | op) & 0x20 != 0) == (br2
        == 0x20)) && (((bf | br1 | br2 | br3 | op) & 0x10 != 0) == (br3 == 0x10)) && ((bf | br1
        | br2 | br3 | op) & 0x0F == op)) by (bit_vector)
        requires
            bf == 0 || bf == 0x80,
            br1 == 0 || br1 == 0x40,
            br2 == 0 || br2 == 0x20,
            br3 == 0 || br3 == 0x10,
            op < 16,
    ;
    assert(OpCode::from_wire(f.opcode.wire_value()) == f.opcode);

    let bm = flag_bit(f.mask is Some, 0x80);
    let code = spec_len_code(len);
    assert(code < 128);
    assert((((bm | code) & 0x80 != 0) == (bm == 0x80)) && ((bm | code) & 0x7F == code))
        by (bit_vector)
        requires
            bm == 0 || bm == 0x80,
            code < 128,
    ;
    assert(spec_wire_masked(w) == (f.mask is Some));
    assert(spec_wire_len_code(w) == code);

    assert(ext.len() == spec_ext_count(code));
    assert(spec_header_len(w) == 2 + ext.len());
    let moff = spec_header_len(w);
    assert(maskb.len() == spec_mask_count(w));
    let poff = moff + spec_mask_count(w);
    assert(w.len() == 2 + ext.len() + maskb.len() + len);

    if code == 126 {
        assert(w[2] == ext[0] && w[3] == ext[1]);
        lemma_be16_val(len as u16);
        assert(spec_payload_len(w) == len);
    } else if code == 127 {
        assert(w.subrange(2, 10) =~= ext);
        lemma_be64_val(len as u64);
        assert(spec_payload_len(w) == len);
    } else {
        assert(spec_payload_len(w) == len);
    }
    assert(spec_frame_len(w) == w.len());
    assert(spec_frame_ok(w));

    let raw = w.subrange(poff, poff + spec_payload_len(w));
    assert(raw =~= f.payload);
    let d = spec_decoded(w);
    match f.mask {
        Some(m) => {
            assert(w.subrange(moff, moff + 4) =~= m);
            assert(d.mask == Some(m));
            assert(d.payload == xor_cyclic(f.payload, m));
        },
        None => {
            assert(d.mask is None);
            assert(d.payload == f.payload);
        },
    }
    assert(d =~= (FrameView {
        payload: match f.mask {
            Some(m) => xor_cyclic(f.payload, m),
            None => f.payload,
        },
        ..f
    }));
}

/// Round-trip: decoding an encoded frame reproduces it exactly — fin, the
/// reserved bits, the opcode, the mask presence and value, and the payload —
/// for every frame whose payload the mask (when present) leaves unchanged
/// under the masking transform; in particular for every unmasked frame.
pub proof fn lemma_round_trip(f: FrameView)
    requires
        f.wf(),
        f.mask matches Some(m) ==> xor_cyclic(f.payload, m) == f.payload,
    ensures
        spec_frame_ok(spec_encode(f)),
        spec_frame_len(spec_encode(f)) == spec_encode(f).len(),
        spec_decoded(spec_encode(f)) == f,
{
    lemma_decode_encode(f);
    assert(spec_decoded(spec_encode(f)) =~= f);
}

/// Minimal-length-tier: the encoder selects the smallest of the three length
/// tiers able to represent the payload length — the literal 7-bit code below
/// 126, the 2-byte extension below 65536, the 8-byte extension otherwise.
pub proof fn lemma_minimal_tier(f: FrameView)
    requires
        f.wf(),
    ensures
        f.payload.len() < 126 ==> spec_len_code(f.payload.len()) == f.payload.len()
            && spec_ext_bytes(f.payload.len()).len() == 0,
        126 <= f.payload.len() < 65536 ==> spec_len_code(f.payload.len()) == 126 && spec_ext_bytes(
            f.payload.len(),
        ).len() == 2,
        f.payload.len() >= 65536 ==> spec_len_code(f.payload.len()) == 127 && spec_ext_bytes(
            f.payload.len(),
        ).len() == 8,
        spec_encode(f).len() == 2 + spec_ext_bytes(f.payload.len()).len() + spec_mask_bytes(
            f,
        ).len() + f.payload.len(),
{
}



} // verus!
