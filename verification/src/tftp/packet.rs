//! The TFTP wire codec: packets are a two-byte big-endian opcode followed by
//! a body, with strings carried null-terminated.

use vstd::prelude::*;
use vstd::slice::slice_subrange;
use vstd::string::StringSliceAdditionalSpecFns;
use vstd::utf8::{decode_utf8, encode_utf8, valid_utf8};
use crate::text::{first_index_of, lossy_decode, lossy_string};
use crate::wire::{append_bytes, be_of_u16, u16_of_be, write_u16};

verus! {

/// A TFTP error code, as carried in ERROR packets. Codes above 7 are kept
/// verbatim.
#[derive(Debug, PartialEq, Eq, Structural, Clone, Copy)]
pub enum Error {
    Undefined,
    FileNotFound,
    AccessViolation,
    DiskFull,
    IllegalOperation,
    UnknownTransferID,
    FileAlreadyExists,
    NoSuchUser,
    Unknown { code: u16 },
}

/// The wire value of an error code.
pub open spec fn spec_error_code(e: Error) -> u16 {
    match e {
        Error::Undefined => 0,
        Error::FileNotFound => 1,
        Error::AccessViolation => 2,
        Error::DiskFull => 3,
        Error::IllegalOperation => 4,
        Error::UnknownTransferID => 5,
        Error::FileAlreadyExists => 6,
        Error::NoSuchUser => 7,
        Error::Unknown { code } => code,
    }
}

/// The error code a wire value stands for.
pub open spec fn spec_error_of_code(code: u16) -> Error {
    if code == 0 {
        Error::Undefined
    } else if code == 1 {
        Error::FileNotFound
    } else if code == 2 {
        Error::AccessViolation
    } else if code == 3 {
        Error::DiskFull
    } else if code == 4 {
        Error::IllegalOperation
    } else if code == 5 {
        Error::UnknownTransferID
    } else if code == 6 {
        Error::FileAlreadyExists
    } else if code == 7 {
        Error::NoSuchUser
    } else {
        Error::Unknown { code }
    }
}

impl Error {
    /// The error code a wire value stands for.
    pub fn from_code(code: u16) -> (r: Error)
        ensures
            r == spec_error_of_code(code),
    {
        match code {
            0 => Error::Undefined,
            1 => Error::FileNotFound,
            2 => Error::AccessViolation,
            3 => Error::DiskFull,
            4 => Error::IllegalOperation,
            5 => Error::UnknownTransferID,
            6 => Error::FileAlreadyExists,
            7 => Error::NoSuchUser,
            _ => Error::Unknown { code },
        }
    }

    /// The wire value of this error code.
    pub fn code(&self) -> (r: u16)
        ensures
            r == spec_error_code(*self),
    {
        match self {
            Error::Undefined => 0,
            Error::FileNotFound => 1,
            Error::AccessViolation => 2,
            Error::DiskFull => 3,
            Error::IllegalOperation => 4,
            Error::UnknownTransferID => 5,
            Error::FileAlreadyExists => 6,
            Error::NoSuchUser => 7,
            Error::Unknown { code } => *code,
        }
    }
}

/// A TFTP packet.
#[derive(Debug)]
pub enum Packet {
    Rrq { filename: String, mode: String },
    Wrq { filename: String, mode: String },
    Data { block: u16, data: Vec<u8> },
    Ack { block: u16 },
    Error { code: Error, message: String },
}

/// The mathematical shape of a TFTP packet: strings as character sequences,
/// payloads as byte sequences.
pub enum PacketModel {
    Rrq { filename: Seq<char>, mode: Seq<char> },
    Wrq { filename: Seq<char>, mode: Seq<char> },
    Data { block: u16, data: Seq<u8> },
    Ack { block: u16 },
    Error { code: Error, message: Seq<char> },
}

impl View for Packet {
    type V = PacketModel;

    open spec fn view(&self) -> PacketModel {
        match self {
            Packet::Rrq { filename, mode } => PacketModel::Rrq {
                filename: filename@,
                mode: mode@,
            },
            Packet::Wrq { filename, mode } => PacketModel::Wrq {
                filename: filename@,
                mode: mode@,
            },
            Packet::Data { block, data } => PacketModel::Data { block: *block, data: data@ },
            Packet::Ack { block } => PacketModel::Ack { block: *block },
            Packet::Error { code, message } => PacketModel::Error {
                code: *code,
                message: message@,
            },
        }
    }
}

/// The characters a byte string stands for: exact UTF-8 decoding where the
/// bytes are valid, lossy decoding otherwise.
pub open spec fn decoded(bytes: Seq<u8>) -> Seq<char> {
    if valid_utf8(bytes) {
        decode_utf8(bytes)
    } else {
        lossy_decode(bytes)
    }
}

/// Splits a byte string at its first null byte into the part before and the
/// part after; fails when no null byte occurs.
pub open spec fn split_string_z(b: Seq<u8>) -> Option<(Seq<u8>, Seq<u8>)> {
    if b.contains(0u8) {
        Some((b.take(first_index_of(b, 0)), b.skip(first_index_of(b, 0) + 1)))
    } else {
        None
    }
}

/// A null-terminated string on the wire.
pub open spec fn string_z(s: Seq<char>) -> Seq<u8> {
    encode_utf8(s) + seq![0u8]
}

/// The bytes a packet serializes to.
pub open spec fn spec_packet_bytes(p: PacketModel) -> Seq<u8> {
    match p {
        PacketModel::Rrq { filename, mode } => be_of_u16(1) + string_z(filename) + string_z(mode),
        PacketModel::Wrq { filename, mode } => be_of_u16(2) + string_z(filename) + string_z(mode),
        PacketModel::Data { block, data } => be_of_u16(3) + be_of_u16(block) + data,
        PacketModel::Ack { block } => be_of_u16(4) + be_of_u16(block),
        PacketModel::Error { code, message } => be_of_u16(5) + be_of_u16(spec_error_code(code))
            + string_z(message),
    }
}

/// The packet a byte buffer parses to, or nothing when the buffer is
/// malformed. Trailing bytes after a complete RRQ, WRQ, ACK or ERROR are
/// ignored.
pub open spec fn spec_parse_packet(b: Seq<u8>) -> Option<PacketModel> {
    if b.len() < 2 {
        None
    } else {
        let op = u16_of_be(b[0], b[1]);
        let body = b.skip(2);
        if op == 1 {
            match spec_parse_two_strings(body) {
                Some((filename, mode)) => Some(PacketModel::Rrq { filename, mode }),
                None => None,
            }
        } else if op == 2 {
            match spec_parse_two_strings(body) {
                Some((filename, mode)) => Some(PacketModel::Wrq { filename, mode }),
                None => None,
            }
        } else if op == 3 {
            if body.len() < 2 {
                None
            } else {
                Some(
                    PacketModel::Data {
                        block: u16_of_be(body[0], body[1]),
                        data: body.skip(2),
                    },
                )
            }
        } else if op == 4 {
            if body.len() < 2 {
                None
            } else {
                Some(PacketModel::Ack { block: u16_of_be(body[0], body[1]) })
            }
        } else if op == 5 {
            if body.len() < 2 {
                None
            } else {
                match split_string_z(body.skip(2)) {
                    Some((pre, _)) => Some(
                        PacketModel::Error {
                            code: spec_error_of_code(u16_of_be(body[0], body[1])),
                            message: decoded(pre),
                        },
                    ),
                    None => None,
                }
            }
        } else {
            None
        }
    }
}

/// Two null-terminated strings read in order.
pub open spec fn spec_parse_two_strings(b: Seq<u8>) -> Option<(Seq<char>, Seq<char>)> {
    match split_string_z(b) {
        Some((first, after)) => match split_string_z(after) {
            Some((second, _)) => Some((decoded(first), decoded(second))),
            None => None,
        },
        None => None,
    }
}

/// A packet whose serialized form parses back to itself: its strings encode
/// without null bytes, and an error code above 7 is kept in `Unknown`.
pub open spec fn wf_packet(p: PacketModel) -> bool {
    match p {
        PacketModel::Rrq { filename, mode } => !encode_utf8(filename).contains(0u8)
            && !encode_utf8(mode).contains(0u8),
        PacketModel::Wrq { filename, mode } => !encode_utf8(filename).contains(0u8)
            && !encode_utf8(mode).contains(0u8),
        PacketModel::Data { .. } => true,
        PacketModel::Ack { .. } => true,
        PacketModel::Error { code, message } => !encode_utf8(message).contains(0u8) && (code
            matches Error::Unknown { code: c } ==> c > 7),
    }
}

/// Reads a big-endian 16-bit integer off the front of a buffer, returning it
/// with the remainder.
pub fn read_u16(data: &[u8]) -> (r: Result<(u16, &[u8]), String>)
    ensures
        match r {
            Ok((v, rest)) => data@.len() >= 2 && v == u16_of_be(data@[0], data@[1]) && rest@
                == data@.skip(2),
            Err(_) => data@.len() < 2,
        },
{
    if data.len() < 2 {
        return Err(String::from_str("packet not long enough for reading u16"));
    }
    let v = crate::wire::read_u16(data, 0);
    let rest = slice_subrange(data, 2, data.len());
    proof {
        assert(rest@ =~= data@.skip(2));
    }
    Ok((v, rest))
}

/// Reads a null-terminated string off the front of a buffer, returning it
/// with the remainder after the terminator.
pub fn read_string(data: &[u8]) -> (r: Result<(String, &[u8]), String>)
    ensures
        match r {
            Ok((s, rest)) => {
                &&& split_string_z(data@) matches Some((pre, post))
                &&& s@ == decoded(pre)
                &&& rest@ == post
            },
            Err(_) => split_string_z(data@) is None,
        },
{
    proof {
        assert(data@.skip(0) =~= data@);
    }
    let n = data.len();
    match crate::text::find_byte(data, 0, 0) {
        Some(i) => {
            let pre = slice_subrange(data, 0, i);
            let rest = slice_subrange(data, i + 1, n);
            let s = lossy_string(pre);
            proof {
                assert(pre@ =~= data@.take(i as int));
                assert(rest@ =~= data@.skip(i + 1));
            }
            Ok((s, rest))
        },
        None => Err(String::from_str("packet missing null terminator reading string")),
    }
}

/// Appends a null-terminated string to a buffer.
pub fn write_string(out: &mut Vec<u8>, s: &str)
    ensures
        final(out)@ == old(out)@ + string_z(s@),
{
    append_bytes(out, s.as_bytes());
    out.push(0);
    proof {
        assert(out@ =~= old(out)@ + string_z(s@));
    }
}

impl Packet {
    /// Parses a datagram into a packet; malformed datagrams are rejected
    /// with a description of the fault.
    pub fn parse(data: &[u8]) -> (r: Result<Packet, String>)
        ensures
            match r {
                Ok(p) => spec_parse_packet(data@) == Some(p@),
                Err(_) => spec_parse_packet(data@) is None,
            },
    {
        let (opcode, body) = match read_u16(data) {
            Ok(v) => v,
            Err(e) => {
                return Err(e);
            },
        };
        match opcode {
            1 => {
                let (filename, rest) = match read_string(body) {
                    Ok(v) => v,
                    Err(e) => {
                        return Err(e);
                    },
                };
                let (mode, _rest) = match read_string(rest) {
                    Ok(v) => v,
                    Err(e) => {
                        return Err(e);
                    },
                };
                Ok(Packet::Rrq { filename, mode })
            },
            2 => {
                let (filename, rest) = match read_string(body) {
                    Ok(v) => v,
                    Err(e) => {
                        return Err(e);
                    },
                };
                let (mode, _rest) = match read_string(rest) {
                    Ok(v) => v,
                    Err(e) => {
                        return Err(e);
                    },
                };
                Ok(Packet::Wrq { filename, mode })
            },
            3 => {
                let (block, payload) = match read_u16(body) {
                    Ok(v) => v,
                    Err(e) => {
                        return Err(e);
                    },
                };
                let data = vstd::slice::slice_to_vec(payload);
                Ok(Packet::Data { block, data })
            },
            4 => {
                let (block, _rest) = match read_u16(body) {
                    Ok(v) => v,
                    Err(e) => {
                        return Err(e);
                    },
                };
                Ok(Packet::Ack { block })
            },
            5 => {
                let (code, rest) = match read_u16(body) {
                    Ok(v) => v,
                    Err(e) => {
                        return Err(e);
                    },
                };
                let (message, _rest) = match read_string(rest) {
                    Ok(v) => v,
                    Err(e) => {
                        return Err(e);
                    },
                };
                Ok(Packet::Error { code: Error::from_code(code), message })
            },
            _ => Err(String::from_str("unknown opcode")),
        }
    }

    /// Serializes the packet to its wire form.
    pub fn to_bytes(&self) -> (r: Vec<u8>)
        ensures
            r@ == spec_packet_bytes(self@),
    {
        let mut bytes: Vec<u8> = Vec::new();
        match self {
            Packet::Rrq { filename, mode } => {
                write_u16(&mut bytes, 1);
                write_string(&mut bytes, filename.as_str());
                write_string(&mut bytes, mode.as_str());
            },
            Packet::Wrq { filename, mode } => {
                write_u16(&mut bytes, 2);
                write_string(&mut bytes, filename.as_str());
                write_string(&mut bytes, mode.as_str());
            },
            Packet::Data { block, data } => {
                write_u16(&mut bytes, 3);
                write_u16(&mut bytes, *block);
                append_bytes(&mut bytes, data.as_slice());
            },
            Packet::Ack { block } => {
                write_u16(&mut bytes, 4);
                write_u16(&mut bytes, *block);
            },
            Packet::Error { code, message } => {
                write_u16(&mut bytes, 5);
                let c = code.code();
                write_u16(&mut bytes, c);
                write_string(&mut bytes, message.as_str());
            },
        };
        proof {
            assert(bytes@ =~= spec_packet_bytes(self@));
        }
        bytes
    }

    /// Whether this packet may open a session: true exactly for RRQ and WRQ.
    pub fn can_initiate(&self) -> (r: bool)
        ensures
            r == (self@ is Rrq || self@ is Wrq),
    {
        match self {
            Packet::Rrq { .. } => true,
            Packet::Wrq { .. } => true,
            Packet::Data { .. } => false,
            Packet::Ack { .. } => false,
            Packet::Error { .. } => false,
        }
    }
}

impl PartialEq for Packet {
    /// Structural equality: same variant, same fields.
    fn eq(&self, other: &Packet) -> (r: bool) {
        match (self, other) {
            (
                Packet::Rrq { filename: f1, mode: m1 },
                Packet::Rrq { filename: f2, mode: m2 },
            ) => crate::text::str_eq(f1.as_str(), f2.as_str()) && crate::text::str_eq(
                m1.as_str(),
                m2.as_str(),
            ),
            (
                Packet::Wrq { filename: f1, mode: m1 },
                Packet::Wrq { filename: f2, mode: m2 },
            ) => crate::text::str_eq(f1.as_str(), f2.as_str()) && crate::text::str_eq(
                m1.as_str(),
                m2.as_str(),
            ),
            (
                Packet::Data { block: b1, data: d1 },
                Packet::Data { block: b2, data: d2 },
            ) => b1 == b2 && crate::text::bytes_eq(d1.as_slice(), d2.as_slice()),
            (Packet::Ack { block: b1 }, Packet::Ack { block: b2 }) => b1 == b2,
            (
                Packet::Error { code: c1, message: m1 },
                Packet::Error { code: c2, message: m2 },
            ) => c1 == c2 && crate::text::str_eq(m1.as_str(), m2.as_str()),
            _ => false,
        }
    }
}

impl vstd::std_specs::cmp::PartialEqSpecImpl for Packet {
    open spec fn obeys_eq_spec() -> bool {
        true
    }

    open spec fn eq_spec(&self, other: &Packet) -> bool {
        self@ == other@
    }
}

proof fn lemma_split_after(a: Seq<u8>, t: Seq<u8>)
    requires
        !a.contains(0u8),
        t.len() > 0,
        t[0] == 0u8,
    ensures
        (a + t).contains(0u8),
        first_index_of(a + t, 0u8) == a.len(),
    decreases a.len(),
{
    let b = a + t;
    assert(b[a.len() as int] == 0u8);
    assert(b.contains(0u8));
    if a.len() == 0 {
        assert(b[0] == 0u8);
    } else {
        assert(a[0] != 0u8) by {
            assert(a.contains(0u8) <== a[0] == 0u8);
        }
        assert(b[0] == a[0]);
        assert(!a.skip(1).contains(0u8)) by {
            if a.skip(1).contains(0u8) {
                let w = choose|w: int| 0 <= w < a.skip(1).len() && a.skip(1)[w] == 0u8;
                assert(a[w + 1] == 0u8);
            }
        }
        lemma_split_after(a.skip(1), t);
        assert(b.skip(1) =~= a.skip(1) + t);
    }
}

/// The null-terminated encoding of a string whose bytes hold no null reads
/// back as exactly that string, with the remainder intact.
proof fn lemma_split_string_z_of_encoded(s: Seq<char>, rest: Seq<u8>)
    requires
        !encode_utf8(s).contains(0u8),
    ensures
        split_string_z(string_z(s) + rest) == Some((encode_utf8(s), rest)),
        decoded(encode_utf8(s)) == s,
{
    let a = encode_utf8(s);
    let t = seq![0u8] + rest;
    assert(string_z(s) + rest =~= a + t);
    lemma_split_after(a, t);
    let b = a + t;
    assert(b.take(a.len() as int) =~= a);
    assert(b.skip(a.len() as int + 1) =~= rest);
    vstd::utf8::encode_utf8_valid_utf8(s);
    vstd::utf8::encode_utf8_decode_utf8(s);
}

/// Every packet the codec can produce parses back from its own serialized
/// form: the codec loses nothing on the way to the wire.
pub proof fn lemma_parse_of_packet_bytes(p: PacketModel)
    requires
        wf_packet(p),
    ensures
        spec_parse_packet(spec_packet_bytes(p)) == Some(p),
{
    let b = spec_packet_bytes(p);
    match p {
        PacketModel::Rrq { filename, mode } => {
            assert(b.skip(2) =~= string_z(filename) + string_z(mode));
            lemma_split_string_z_of_encoded(filename, string_z(mode));
            assert(string_z(mode) =~= string_z(mode) + Seq::<u8>::empty());
            lemma_split_string_z_of_encoded(mode, Seq::<u8>::empty());
        },
        PacketModel::Wrq { filename, mode } => {
            assert(b.skip(2) =~= string_z(filename) + string_z(mode));
            lemma_split_string_z_of_encoded(filename, string_z(mode));
            assert(string_z(mode) =~= string_z(mode) + Seq::<u8>::empty());
            lemma_split_string_z_of_encoded(mode, Seq::<u8>::empty());
        },
        PacketModel::Data { block, data } => {
            let body = b.skip(2);
            assert(body =~= be_of_u16(block) + data);
            assert(body.skip(2) =~= data);
        },
        PacketModel::Ack { block } => {
            let body = b.skip(2);
            assert(body =~= be_of_u16(block));
        },
        PacketModel::Error { code, message } => {
            let body = b.skip(2);
            assert(body =~= be_of_u16(spec_error_code(code)) + string_z(message));
            assert(body.skip(2) =~= string_z(message) + Seq::<u8>::empty());
            lemma_split_string_z_of_encoded(message, Seq::<u8>::empty());
        },
    }
}

/// Serializing what a well-formed buffer parsed to yields a buffer that
/// parses back to the same packet.
pub proof fn lemma_reparse_of_parsed(b: Seq<u8>, p: PacketModel)
    requires
        spec_parse_packet(b) == Some(p),
        wf_packet(p),
    ensures
        spec_parse_packet(spec_packet_bytes(p)) == Some(p),
{
    lemma_parse_of_packet_bytes(p);
}

} // verus!
