//! The DHCP wire codec (RFC 2131/2132): a fixed 236-byte header, the magic
//! cookie, and a code/length/data option list ended by 0xFF.

use vstd::prelude::*;
use vstd::pervasive::arbitrary;
use vstd::slice::slice_subrange;
use vstd::string::{StringExecFns, StringSliceAdditionalSpecFns};
use vstd::utf8::encode_utf8;
use crate::mac::MacAddress;
use crate::net::Ipv4;
use crate::text::lossy_string;
use crate::tftp::packet::decoded;
use crate::wire::{append_bytes, be_of_u16, be_of_u32, u16_of_be, u32_of_be, write_u16, write_u32};

verus! {

/// A DHCP message type, option 53.
#[derive(Debug, Clone, Copy, PartialEq, Eq, Structural)]
pub enum DhcpMessageType {
    Discover,
    Offer,
    Request,
    Decline,
    Ack,
    Nak,
    Release,
    Inform,
}

/// The wire value of a message type, 1 through 8.
pub open spec fn spec_message_type_code(t: DhcpMessageType) -> u8 {
    match t {
        DhcpMessageType::Discover => 1,
        DhcpMessageType::Offer => 2,
        DhcpMessageType::Request => 3,
        DhcpMessageType::Decline => 4,
        DhcpMessageType::Ack => 5,
        DhcpMessageType::Nak => 6,
        DhcpMessageType::Release => 7,
        DhcpMessageType::Inform => 8,
    }
}

/// The message type a wire value stands for; values outside 1 through 8
/// stand for none.
pub open spec fn spec_message_type_of(code: u8) -> Option<DhcpMessageType> {
    if code == 1 {
        Some(DhcpMessageType::Discover)
    } else if code == 2 {
        Some(DhcpMessageType::Offer)
    } else if code == 3 {
        Some(DhcpMessageType::Request)
    } else if code == 4 {
        Some(DhcpMessageType::Decline)
    } else if code == 5 {
        Some(DhcpMessageType::Ack)
    } else if code == 6 {
        Some(DhcpMessageType::Nak)
    } else if code == 7 {
        Some(DhcpMessageType::Release)
    } else if code == 8 {
        Some(DhcpMessageType::Inform)
    } else {
        None
    }
}

impl DhcpMessageType {
    /// The message type a wire value stands for.
    pub fn from_code(code: u8) -> (r: Option<DhcpMessageType>)
        ensures
            r == spec_message_type_of(code),
    {
        match code {
            1 => Some(DhcpMessageType::Discover),
            2 => Some(DhcpMessageType::Offer),
            3 => Some(DhcpMessageType::Request),
            4 => Some(DhcpMessageType::Decline),
            5 => Some(DhcpMessageType::Ack),
            6 => Some(DhcpMessageType::Nak),
            7 => Some(DhcpMessageType::Release),
            8 => Some(DhcpMessageType::Inform),
            _ => None,
        }
    }

    /// The wire value of this message type.
    pub fn code(&self) -> (r: u8)
        ensures
            r == spec_message_type_code(*self),
    {
        match self {
            DhcpMessageType::Discover => 1,
            DhcpMessageType::Offer => 2,
            DhcpMessageType::Request => 3,
            DhcpMessageType::Decline => 4,
            DhcpMessageType::Ack => 5,
            DhcpMessageType::Nak => 6,
            DhcpMessageType::Release => 7,
            DhcpMessageType::Inform => 8,
        }
    }
}

/// Relay-agent information, option 82: the circuit and remote identifiers.
#[derive(Debug, Clone)]
pub struct Option82Data {
    pub circuit_id: Option<Vec<u8>>,
    pub remote_id: Option<Vec<u8>>,
}

/// The mathematical shape of relay-agent information.
#[verifier::ext_equal]
pub struct Option82Model {
    pub circuit_id: Option<Seq<u8>>,
    pub remote_id: Option<Seq<u8>>,
}

impl View for Option82Data {
    type V = Option82Model;

    open spec fn view(&self) -> Option82Model {
        Option82Model {
            circuit_id: match self.circuit_id {
                Some(ref c) => Some(c@),
                None => None,
            },
            remote_id: match self.remote_id {
                Some(ref r) => Some(r@),
                None => None,
            },
        }
    }
}

/// A DHCP option. The recognized options carry their decoded values; every
/// other option is kept verbatim as `Other`.
#[derive(Debug, Clone)]
pub enum DhcpOption {
    SubnetMask(Ipv4),
    Router(Vec<Ipv4>),
    DnsServers(Vec<Ipv4>),
    DomainName(String),
    LeaseTime(u32),
    MessageType(DhcpMessageType),
    ServerIdentifier(Ipv4),
    RequestedIpAddress(Ipv4),
    ClientIdentifier(Vec<u8>),
    Option82(Option82Data),
    Other(u8, Vec<u8>),
}

/// The mathematical shape of a DHCP option.
pub enum OptionModel {
    SubnetMask(u32),
    Router(Seq<u32>),
    DnsServers(Seq<u32>),
    DomainName(Seq<char>),
    LeaseTime(u32),
    MessageType(DhcpMessageType),
    ServerIdentifier(u32),
    RequestedIpAddress(u32),
    ClientIdentifier(Seq<u8>),
    Option82(Option82Model),
    Other(u8, Seq<u8>),
}

impl View for DhcpOption {
    type V = OptionModel;

    open spec fn view(&self) -> OptionModel {
        match self {
            DhcpOption::SubnetMask(a) => OptionModel::SubnetMask(a.0),
            DhcpOption::Router(l) => OptionModel::Router(l@.map_values(|a: Ipv4| a.0)),
            DhcpOption::DnsServers(l) => OptionModel::DnsServers(l@.map_values(|a: Ipv4| a.0)),
            DhcpOption::DomainName(s) => OptionModel::DomainName(s@),
            DhcpOption::LeaseTime(t) => OptionModel::LeaseTime(*t),
            DhcpOption::MessageType(t) => OptionModel::MessageType(*t),
            DhcpOption::ServerIdentifier(a) => OptionModel::ServerIdentifier(a.0),
            DhcpOption::RequestedIpAddress(a) => OptionModel::RequestedIpAddress(a.0),
            DhcpOption::ClientIdentifier(d) => OptionModel::ClientIdentifier(d@),
            DhcpOption::Option82(o) => OptionModel::Option82(o@),
            DhcpOption::Other(c, d) => OptionModel::Other(*c, d@),
        }
    }
}

/// The option list of a packet: code/option pairs in wire order, each code
/// at most once.
#[derive(Debug, Clone)]
pub struct OptionMap {
    entries: Vec<(u8, DhcpOption)>,
}

impl View for OptionMap {
    type V = Seq<(u8, OptionModel)>;

    closed spec fn view(&self) -> Seq<(u8, OptionModel)> {
        self.entries@.map_values(|e: (u8, DhcpOption)| (e.0, e.1@))
    }
}

/// Whether the option list holds an entry with this code.
pub open spec fn contains_code(s: Seq<(u8, OptionModel)>, code: u8) -> bool
    decreases s.len(),
{
    s.len() > 0 && (s[0].0 == code || contains_code(s.skip(1), code))
}

/// The option stored under a code, reading the first entry that carries it.
pub open spec fn value_of_code(s: Seq<(u8, OptionModel)>, code: u8) -> OptionModel
    recommends
        contains_code(s, code),
    decreases s.len(),
{
    if s.len() == 0 {
        arbitrary()
    } else if s[0].0 == code {
        s[0].1
    } else {
        value_of_code(s.skip(1), code)
    }
}

/// The option list with the first entry of a code removed.
pub open spec fn remove_code(s: Seq<(u8, OptionModel)>, code: u8) -> Seq<(u8, OptionModel)>
    decreases s.len(),
{
    if s.len() == 0 {
        s
    } else if s[0].0 == code {
        s.skip(1)
    } else {
        seq![s[0]] + remove_code(s.skip(1), code)
    }
}

/// Storing an option: the first entry of the same code is replaced in
/// place, or the entry is appended.
pub open spec fn spec_insert(
    s: Seq<(u8, OptionModel)>,
    code: u8,
    opt: OptionModel,
) -> Seq<(u8, OptionModel)>
    decreases s.len(),
{
    if s.len() == 0 {
        seq![(code, opt)]
    } else if s[0].0 == code {
        seq![(code, opt)] + s.skip(1)
    } else {
        seq![s[0]] + spec_insert(s.skip(1), code, opt)
    }
}

impl OptionMap {
    /// An empty option list.
    pub fn new() -> (r: OptionMap)
        ensures
            r@ == Seq::<(u8, OptionModel)>::empty(),
    {
        let r = OptionMap { entries: Vec::new() };
        proof {
            assert(r@ =~= Seq::<(u8, OptionModel)>::empty());
        }
        r
    }

    /// How many options are stored.
    pub fn len(&self) -> (r: usize)
        ensures
            r == self@.len(),
    {
        self.entries.len()
    }

    /// The entry at a position, by code and option.
    pub fn entry_at(&self, i: usize) -> (r: &(u8, DhcpOption))
        requires
            i < self@.len(),
        ensures
            (r.0, r.1@) == self@[i as int],
    {
        &self.entries[i]
    }

    /// Reads the option stored under a code.
    pub fn get(&self, code: u8) -> (r: Option<&DhcpOption>)
        ensures
            match r {
                Some(opt) => contains_code(self@, code) && opt@ == value_of_code(self@, code),
                None => !contains_code(self@, code),
            },
    {
        let n = self.entries.len();
        let mut i: usize = 0;
        proof {
            assert(self@.skip(0) =~= self@);
        }
        while i < n
            invariant
                n == self.entries@.len(),
                i <= n,
                forall|j: int| 0 <= j < i ==> self@[j].0 != code,
                contains_code(self@, code) ==> contains_code(self@.skip(i as int), code)
                    && value_of_code(self@, code) == value_of_code(self@.skip(i as int), code),
            decreases n - i,
        {
            proof {
                assert(self@.skip(i as int).len() > 0);
                assert(self@.skip(i as int)[0] == self@[i as int]);
                assert(self@.skip(i as int).skip(1) =~= self@.skip(i + 1));
            }
            if self.entries[i].0 == code {
                proof {
                    assert(contains_code(self@.skip(i as int), code));
                    lemma_contains_from_skip(self@, code, i as int);
                }
                return Some(&self.entries[i].1);
            }
            i += 1;
        }
        proof {
            lemma_take_not_contains(self@, code, n as int);
            assert(self@.take(n as int) =~= self@);
        }
        None
    }

    /// Stores an option under a code: replaces the first entry of that code
    /// in place, or appends a new entry.
    pub fn insert(&mut self, code: u8, opt: DhcpOption)
        ensures
            final(self)@ == spec_insert(old(self)@, code, opt@),
    {
        let ghost orig = self@;
        let n = self.entries.len();
        let mut i: usize = 0;
        while i < n
            invariant
                n == self.entries@.len(),
                self@ == orig,
                orig == old(self)@,
                i <= n,
                forall|j: int| 0 <= j < i ==> orig[j].0 != code,
            decreases n - i,
        {
            if self.entries[i].0 == code {
                self.entries.set(i, (code, opt));
                proof {
                    lemma_insert_at(orig, code, opt@, i as int);
                    assert(self@ =~= orig.update(i as int, (code, opt@)));
                }
                return ;
            }
            i += 1;
        }
        self.entries.push((code, opt));
        proof {
            lemma_insert_append(orig, code, opt@);
            assert(self@ =~= orig.push((code, opt@)));
        }
    }
}

/// Replacing a code that first occurs at `i` updates exactly that position.
proof fn lemma_insert_at(s: Seq<(u8, OptionModel)>, code: u8, opt: OptionModel, i: int)
    requires
        0 <= i < s.len(),
        s[i].0 == code,
        forall|j: int| 0 <= j < i ==> s[j].0 != code,
    ensures
        spec_insert(s, code, opt) == s.update(i, (code, opt)),
    decreases i,
{
    if i == 0 {
        assert(spec_insert(s, code, opt) =~= s.update(0, (code, opt)));
    } else {
        lemma_insert_at(s.skip(1), code, opt, i - 1);
        assert(spec_insert(s, code, opt) =~= s.update(i, (code, opt)));
    }
}

/// Inserting a code that never occurs appends the entry.
proof fn lemma_insert_append(s: Seq<(u8, OptionModel)>, code: u8, opt: OptionModel)
    requires
        forall|j: int| 0 <= j < s.len() ==> s[j].0 != code,
    ensures
        spec_insert(s, code, opt) == s.push((code, opt)),
    decreases s.len(),
{
    if s.len() == 0 {
        assert(spec_insert(s, code, opt) =~= s.push((code, opt)));
    } else {
        lemma_insert_append(s.skip(1), code, opt);
        assert(spec_insert(s, code, opt) =~= s.push((code, opt)));
    }
}

/// A code found at position `i` is found from the front, with the same
/// value, when the front never carries it earlier.
proof fn lemma_contains_from_skip(s: Seq<(u8, OptionModel)>, code: u8, i: int)
    requires
        0 <= i < s.len(),
        s[i].0 == code,
    ensures
        contains_code(s, code),
    decreases i,
{
    if i > 0 {
        assert(s.skip(1)[i - 1] == s[i]);
        lemma_contains_from_skip(s.skip(1), code, i - 1);
    }
}

/// A prefix free of a code does not contain it.
proof fn lemma_take_not_contains(s: Seq<(u8, OptionModel)>, code: u8, i: int)
    requires
        0 <= i <= s.len(),
        forall|j: int| 0 <= j < i ==> s[j].0 != code,
    ensures
        !contains_code(s.take(i), code),
    decreases i,
{
    if i > 0 {
        assert(s.take(i).skip(1) =~= s.skip(1).take(i - 1));
        assert(forall|j: int| 0 <= j < i - 1 ==> s.skip(1)[j].0 != code);
        lemma_take_not_contains(s.skip(1), code, i - 1);
    }
}

/// A DHCP packet: the fixed header fields and the option list.
#[derive(Debug, Clone)]
pub struct DhcpPacket {
    pub op: u8,
    pub htype: u8,
    pub hlen: u8,
    pub hops: u8,
    pub xid: u32,
    pub secs: u16,
    pub flags: u16,
    pub ciaddr: Ipv4,
    pub yiaddr: Ipv4,
    pub siaddr: Ipv4,
    pub giaddr: Ipv4,
    pub chaddr: MacAddress,
    pub sname: [u8; 64],
    pub file: [u8; 128],
    pub options: OptionMap,
}

/// The mathematical shape of a DHCP packet.
#[verifier::ext_equal]
pub struct DhcpPacketModel {
    pub op: u8,
    pub htype: u8,
    pub hlen: u8,
    pub hops: u8,
    pub xid: u32,
    pub secs: u16,
    pub flags: u16,
    pub ciaddr: u32,
    pub yiaddr: u32,
    pub siaddr: u32,
    pub giaddr: u32,
    pub chaddr: Seq<u8>,
    pub sname: Seq<u8>,
    pub file: Seq<u8>,
    pub options: Seq<(u8, OptionModel)>,
}

impl View for DhcpPacket {
    type V = DhcpPacketModel;

    open spec fn view(&self) -> DhcpPacketModel {
        DhcpPacketModel {
            op: self.op,
            htype: self.htype,
            hlen: self.hlen,
            hops: self.hops,
            xid: self.xid,
            secs: self.secs,
            flags: self.flags,
            ciaddr: self.ciaddr.0,
            yiaddr: self.yiaddr.0,
            siaddr: self.siaddr.0,
            giaddr: self.giaddr.0,
            chaddr: self.chaddr@,
            sname: self.sname@,
            file: self.file@,
            options: self.options@,
        }
    }
}

/// The four magic-cookie bytes that open the option section.
pub open spec fn spec_cookie() -> Seq<u8> {
    seq![0x63u8, 0x82u8, 0x53u8, 0x63u8]
}

/// The wire bytes of a list of IPv4 addresses, four bytes each.
pub open spec fn ipv4_list_bytes(l: Seq<u32>) -> Seq<u8>
    decreases l.len(),
{
    if l.len() == 0 {
        Seq::<u8>::empty()
    } else {
        be_of_u32(l[0]) + ipv4_list_bytes(l.skip(1))
    }
}

/// The wire payload of relay-agent information: sub-option 1 with the
/// circuit identifier, then sub-option 2 with the remote identifier, each
/// only when present.
pub open spec fn opt82_payload(o: Option82Model) -> Seq<u8> {
    (match o.circuit_id {
        Some(c) => seq![1u8, (c.len() % 256) as u8] + c,
        None => Seq::<u8>::empty(),
    }) + (match o.remote_id {
        Some(r) => seq![2u8, (r.len() % 256) as u8] + r,
        None => Seq::<u8>::empty(),
    })
}

/// The wire payload of an option, without its code and length bytes.
pub open spec fn option_payload(o: OptionModel) -> Seq<u8> {
    match o {
        OptionModel::SubnetMask(a) => be_of_u32(a),
        OptionModel::Router(l) => ipv4_list_bytes(l),
        OptionModel::DnsServers(l) => ipv4_list_bytes(l),
        OptionModel::DomainName(s) => encode_utf8(s),
        OptionModel::LeaseTime(t) => be_of_u32(t),
        OptionModel::MessageType(t) => seq![spec_message_type_code(t)],
        OptionModel::ServerIdentifier(a) => be_of_u32(a),
        OptionModel::RequestedIpAddress(a) => be_of_u32(a),
        OptionModel::ClientIdentifier(d) => d,
        OptionModel::Option82(o82) => opt82_payload(o82),
        OptionModel::Other(_, d) => d,
    }
}

/// The wire bytes of one option entry: code, length and payload. The length
/// byte is the payload length reduced modulo 256, as a byte must hold it.
pub open spec fn entry_bytes(e: (u8, OptionModel)) -> Seq<u8> {
    seq![e.0, (option_payload(e.1).len() % 256) as u8] + option_payload(e.1)
}

/// The wire bytes of an option list, in order.
pub open spec fn opts_bytes(s: Seq<(u8, OptionModel)>) -> Seq<u8>
    decreases s.len(),
{
    if s.len() == 0 {
        Seq::<u8>::empty()
    } else {
        entry_bytes(s[0]) + opts_bytes(s.skip(1))
    }
}

/// The 236 header bytes of a packet: the fixed fields, with the hardware
/// address padded to sixteen bytes.
pub open spec fn header_bytes(p: DhcpPacketModel) -> Seq<u8> {
    seq![p.op, p.htype, p.hlen, p.hops] + be_of_u32(p.xid) + be_of_u16(p.secs) + be_of_u16(p.flags)
        + be_of_u32(p.ciaddr) + be_of_u32(p.yiaddr) + be_of_u32(p.siaddr) + be_of_u32(p.giaddr)
        + p.chaddr + seq![0u8, 0u8, 0u8, 0u8, 0u8, 0u8, 0u8, 0u8, 0u8, 0u8] + p.sname + p.file
}

/// The bytes a packet serializes to: header, cookie, options, end marker.
pub open spec fn spec_packet_bytes(p: DhcpPacketModel) -> Seq<u8> {
    header_bytes(p) + spec_cookie() + opts_bytes(p.options) + seq![255u8]
}

/// The IPv4 addresses read from a payload in four-byte steps; a short tail
/// is dropped.
pub open spec fn spec_ipv4_list(b: Seq<u8>) -> Seq<u32>
    decreases b.len(),
{
    if b.len() < 4 {
        Seq::<u32>::empty()
    } else {
        seq![u32_of_be(b[0], b[1], b[2], b[3])] + spec_ipv4_list(b.skip(4))
    }
}

/// The relay-agent information read from an option-82 payload: sub-options
/// are scanned in order, the last occurrence of each identifier wins, and a
/// truncated tail ends the scan.
pub open spec fn spec_opt82(b: Seq<u8>) -> Option82Model
    decreases b.len(),
{
    if b.len() < 2 {
        Option82Model { circuit_id: None, remote_id: None }
    } else if 2 + b[1] as int > b.len() {
        Option82Model { circuit_id: None, remote_id: None }
    } else {
        let payload = b.subrange(2, 2 + b[1] as int);
        let rest = spec_opt82(b.skip(2 + b[1] as int));
        Option82Model {
            circuit_id: if rest.circuit_id is Some {
                rest.circuit_id
            } else if b[0] == 1 {
                Some(payload)
            } else {
                None
            },
            remote_id: if rest.remote_id is Some {
                rest.remote_id
            } else if b[0] == 2 {
                Some(payload)
            } else {
                None
            },
        }
    }
}

/// The option a code and payload decode to. A recognized code whose payload
/// has the wrong shape falls back to `Other`.
pub open spec fn spec_decode_option(code: u8, payload: Seq<u8>) -> OptionModel {
    if code == 1 {
        if payload.len() == 4 {
            OptionModel::SubnetMask(u32_of_be(payload[0], payload[1], payload[2], payload[3]))
        } else {
            OptionModel::Other(code, payload)
        }
    } else if code == 3 {
        OptionModel::Router(spec_ipv4_list(payload))
    } else if code == 6 {
        OptionModel::DnsServers(spec_ipv4_list(payload))
    } else if code == 15 {
        OptionModel::DomainName(decoded(payload))
    } else if code == 50 {
        if payload.len() == 4 {
            OptionModel::RequestedIpAddress(
                u32_of_be(payload[0], payload[1], payload[2], payload[3]),
            )
        } else {
            OptionModel::Other(code, payload)
        }
    } else if code == 51 {
        if payload.len() == 4 {
            OptionModel::LeaseTime(u32_of_be(payload[0], payload[1], payload[2], payload[3]))
        } else {
            OptionModel::Other(code, payload)
        }
    } else if code == 53 {
        if payload.len() == 1 && spec_message_type_of(payload[0]) is Some {
            OptionModel::MessageType(spec_message_type_of(payload[0]).unwrap())
        } else {
            OptionModel::Other(code, payload)
        }
    } else if code == 54 {
        if payload.len() == 4 {
            OptionModel::ServerIdentifier(
                u32_of_be(payload[0], payload[1], payload[2], payload[3]),
            )
        } else {
            OptionModel::Other(code, payload)
        }
    } else if code == 61 {
        OptionModel::ClientIdentifier(payload)
    } else if code == 82 {
        OptionModel::Option82(spec_opt82(payload))
    } else {
        OptionModel::Other(code, payload)
    }
}

/// Adding a freshly parsed entry to the entries parsed after it: a repeated
/// code keeps this entry's position but the later value.
pub open spec fn spec_combine(
    code: u8,
    opt: OptionModel,
    rest: Seq<(u8, OptionModel)>,
) -> Seq<(u8, OptionModel)> {
    if contains_code(rest, code) {
        seq![(code, value_of_code(rest, code))] + remove_code(rest, code)
    } else {
        seq![(code, opt)] + rest
    }
}

/// The option list read from the option section: pad bytes are skipped, the
/// end marker or the end of the buffer stops the scan, and an option whose
/// claimed length overruns the buffer is an error, as is a message-type
/// option not one byte long or an address option not four bytes long.
pub open spec fn spec_parse_opts(b: Seq<u8>) -> Option<Seq<(u8, OptionModel)>>
    decreases b.len(),
{
    if b.len() == 0 {
        Some(Seq::<(u8, OptionModel)>::empty())
    } else if b[0] == 255 {
        Some(Seq::<(u8, OptionModel)>::empty())
    } else if b[0] == 0 {
        spec_parse_opts(b.skip(1))
    } else if b.len() < 2 {
        None
    } else if 2 + b[1] as int > b.len() {
        None
    } else if b[0] == 53 && b[1] != 1 {
        None
    } else if (b[0] == 1 || b[0] == 50 || b[0] == 54) && b[1] != 4 {
        None
    } else {
        match spec_parse_opts(b.skip(2 + b[1] as int)) {
            Some(rest) => Some(
                spec_combine(
                    b[0],
                    spec_decode_option(b[0], b.subrange(2, 2 + b[1] as int)),
                    rest,
                ),
            ),
            None => None,
        }
    }
}

/// The header fields read from a buffer of at least 236 bytes, with a given
/// option list.
pub open spec fn spec_header_of(b: Seq<u8>, options: Seq<(u8, OptionModel)>) -> DhcpPacketModel {
    DhcpPacketModel {
        op: b[0],
        htype: b[1],
        hlen: b[2],
        hops: b[3],
        xid: u32_of_be(b[4], b[5], b[6], b[7]),
        secs: u16_of_be(b[8], b[9]),
        flags: u16_of_be(b[10], b[11]),
        ciaddr: u32_of_be(b[12], b[13], b[14], b[15]),
        yiaddr: u32_of_be(b[16], b[17], b[18], b[19]),
        siaddr: u32_of_be(b[20], b[21], b[22], b[23]),
        giaddr: u32_of_be(b[24], b[25], b[26], b[27]),
        chaddr: b.subrange(28, 34),
        sname: b.subrange(44, 108),
        file: b.subrange(108, 236),
        options: options,
    }
}

/// The packet a buffer parses to: the header needs 236 bytes; options are
/// read only behind an intact magic cookie, and a missing or broken cookie
/// leaves the option list empty.
pub open spec fn spec_parse_dhcp(b: Seq<u8>) -> Option<DhcpPacketModel> {
    if b.len() < 236 {
        None
    } else if b.len() >= 240 && b.subrange(236, 240) == spec_cookie() {
        match spec_parse_opts(b.skip(240)) {
            Some(opts) => Some(spec_header_of(b, opts)),
            None => None,
        }
    } else {
        Some(spec_header_of(b, Seq::<(u8, OptionModel)>::empty()))
    }
}

/// Copies a byte vector.
fn clone_payload(v: &Vec<u8>) -> (r: Vec<u8>)
    ensures
        r@ == v@,
{
    let mut r: Vec<u8> = Vec::new();
    append_bytes(&mut r, v.as_slice());
    proof {
        assert(r@ =~= v@);
    }
    r
}

/// Appends a fixed-size byte array to a buffer.
fn append_array<const N: usize>(out: &mut Vec<u8>, a: &[u8; N])
    ensures
        final(out)@ == old(out)@ + a@,
{
    let mut i: usize = 0;
    while i < N
        invariant
            i <= N,
            a@.len() == N,
            out@ == old(out)@ + a@.take(i as int),
        decreases N - i,
    {
        out.push(a[i]);
        proof {
            assert(old(out)@ + a@.take(i + 1) =~= (old(out)@ + a@.take(i as int)).push(
                a@[i as int],
            ));
        }
        i += 1;
    }
    proof {
        assert(a@.take(N as int) =~= a@);
    }
}

proof fn lemma_ipv4_bytes_snoc(l: Seq<u32>, i: int)
    requires
        0 <= i < l.len(),
    ensures
        ipv4_list_bytes(l.take(i + 1)) == ipv4_list_bytes(l.take(i)) + be_of_u32(l[i]),
    decreases i,
{
    if i == 0 {
        assert(l.take(1)[0] == l[0]);
        assert(l.take(1).skip(1) =~= Seq::<u32>::empty());
        assert(l.take(0) =~= Seq::<u32>::empty());
        assert(ipv4_list_bytes(l.take(1)) =~= ipv4_list_bytes(l.take(0)) + be_of_u32(l[0]));
    } else {
        lemma_ipv4_bytes_snoc(l.skip(1), i - 1);
        assert(l.take(i + 1).skip(1) =~= l.skip(1).take(i));
        assert(l.take(i).skip(1) =~= l.skip(1).take(i - 1));
        assert(l.take(i + 1)[0] == l[0]);
        assert(l.take(i)[0] == l[0]);
        assert(l.skip(1)[i - 1] == l[i]);
        assert(ipv4_list_bytes(l.take(i + 1)) =~= ipv4_list_bytes(l.take(i)) + be_of_u32(l[i]));
    }
}

/// Serializes a list of IPv4 addresses, four bytes each.
fn ipv4_list_to_bytes(l: &Vec<Ipv4>) -> (r: Vec<u8>)
    ensures
        r@ == ipv4_list_bytes(l@.map_values(|a: Ipv4| a.0)),
{
    let ghost m = l@.map_values(|a: Ipv4| a.0);
    let mut out: Vec<u8> = Vec::new();
    let mut i: usize = 0;
    proof {
        assert(m.take(0) =~= Seq::<u32>::empty());
    }
    while i < l.len()
        invariant
            i <= l@.len(),
            m == l@.map_values(|a: Ipv4| a.0),
            out@ == ipv4_list_bytes(m.take(i as int)),
        decreases l@.len() - i,
    {
        write_u32(&mut out, l[i].0);
        proof {
            lemma_ipv4_bytes_snoc(m, i as int);
        }
        i += 1;
    }
    proof {
        assert(m.take(l@.len() as int) =~= m);
    }
    out
}

/// Serializes relay-agent information into its sub-option payload.
fn opt82_to_bytes(o: &Option82Data) -> (r: Vec<u8>)
    ensures
        r@ == opt82_payload(o@),
{
    let mut out: Vec<u8> = Vec::new();
    match &o.circuit_id {
        Some(c) => {
            out.push(1);
            out.push((c.len() % 256) as u8);
            append_bytes(&mut out, c.as_slice());
        },
        None => {},
    }
    let ghost first = out@;
    match &o.remote_id {
        Some(r) => {
            out.push(2);
            out.push((r.len() % 256) as u8);
            append_bytes(&mut out, r.as_slice());
        },
        None => {},
    }
    proof {
        assert(out@ =~= opt82_payload(o@));
    }
    out
}

/// Serializes one option's payload, without its code and length bytes.
fn option_payload_bytes(opt: &DhcpOption) -> (r: Vec<u8>)
    ensures
        r@ == option_payload(opt@),
{
    match opt {
        DhcpOption::SubnetMask(a) => {
            let mut out: Vec<u8> = Vec::new();
            write_u32(&mut out, a.0);
            proof {
                assert(out@ =~= option_payload(opt@));
            }
            out
        },
        DhcpOption::Router(l) => ipv4_list_to_bytes(l),
        DhcpOption::DnsServers(l) => ipv4_list_to_bytes(l),
        DhcpOption::DomainName(s) => {
            let mut out: Vec<u8> = Vec::new();
            append_bytes(&mut out, s.as_str().as_bytes());
            proof {
                assert(out@ =~= option_payload(opt@));
            }
            out
        },
        DhcpOption::LeaseTime(t) => {
            let mut out: Vec<u8> = Vec::new();
            write_u32(&mut out, *t);
            proof {
                assert(out@ =~= option_payload(opt@));
            }
            out
        },
        DhcpOption::MessageType(t) => {
            let mut out: Vec<u8> = Vec::new();
            out.push(t.code());
            proof {
                assert(out@ =~= option_payload(opt@));
            }
            out
        },
        DhcpOption::ServerIdentifier(a) => {
            let mut out: Vec<u8> = Vec::new();
            write_u32(&mut out, a.0);
            proof {
                assert(out@ =~= option_payload(opt@));
            }
            out
        },
        DhcpOption::RequestedIpAddress(a) => {
            let mut out: Vec<u8> = Vec::new();
            write_u32(&mut out, a.0);
            proof {
                assert(out@ =~= option_payload(opt@));
            }
            out
        },
        DhcpOption::ClientIdentifier(d) => clone_payload(d),
        DhcpOption::Option82(o) => opt82_to_bytes(o),
        DhcpOption::Other(_, d) => clone_payload(d),
    }
}

proof fn lemma_opts_bytes_snoc(s: Seq<(u8, OptionModel)>, i: int)
    requires
        0 <= i < s.len(),
    ensures
        opts_bytes(s.take(i + 1)) == opts_bytes(s.take(i)) + entry_bytes(s[i]),
    decreases i,
{
    if i == 0 {
        assert(s.take(1)[0] == s[0]);
        assert(s.take(1).skip(1) =~= Seq::<(u8, OptionModel)>::empty());
        assert(s.take(0) =~= Seq::<(u8, OptionModel)>::empty());
        assert(opts_bytes(s.take(1)) =~= opts_bytes(s.take(0)) + entry_bytes(s[0]));
    } else {
        lemma_opts_bytes_snoc(s.skip(1), i - 1);
        assert(s.take(i + 1).skip(1) =~= s.skip(1).take(i));
        assert(s.take(i).skip(1) =~= s.skip(1).take(i - 1));
        assert(s.take(i + 1)[0] == s[0]);
        assert(s.take(i)[0] == s[0]);
        assert(s.skip(1)[i - 1] == s[i]);
        assert(opts_bytes(s.take(i + 1)) =~= opts_bytes(s.take(i)) + entry_bytes(s[i]));
    }
}

impl DhcpPacket {
    /// A zeroed BOOTP packet over Ethernet: hardware type 1, six-byte
    /// hardware addresses, no options.
    pub fn new() -> (r: DhcpPacket)
        ensures
            r@ == (DhcpPacketModel {
                op: 0,
                htype: 1,
                hlen: 6,
                hops: 0,
                xid: 0,
                secs: 0,
                flags: 0,
                ciaddr: 0,
                yiaddr: 0,
                siaddr: 0,
                giaddr: 0,
                chaddr: seq![0u8, 0u8, 0u8, 0u8, 0u8, 0u8],
                sname: Seq::new(64, |i: int| 0u8),
                file: Seq::new(128, |i: int| 0u8),
                options: Seq::<(u8, OptionModel)>::empty(),
            }),
    {
        let r = DhcpPacket {
            op: 0,
            htype: 1,
            hlen: 6,
            hops: 0,
            xid: 0,
            secs: 0,
            flags: 0,
            ciaddr: Ipv4(0),
            yiaddr: Ipv4(0),
            siaddr: Ipv4(0),
            giaddr: Ipv4(0),
            chaddr: MacAddress::new([0u8; 6]),
            sname: [0u8; 64],
            file: [0u8; 128],
            options: OptionMap::new(),
        };
        proof {
            assert(r@.chaddr =~= seq![0u8, 0u8, 0u8, 0u8, 0u8, 0u8]);
            assert(r@.sname =~= Seq::new(64, |i: int| 0u8));
            assert(r@.file =~= Seq::new(128, |i: int| 0u8));
        }
        r
    }

    /// The message type carried in option 53, when one is present.
    pub fn get_message_type(&self) -> (r: Option<DhcpMessageType>)
        ensures
            r == spec_get_message_type(self@.options),
    {
        match self.options.get(53) {
            Some(DhcpOption::MessageType(t)) => Some(*t),
            _ => None,
        }
    }

    /// Stores the message type as option 53.
    pub fn set_message_type(&mut self, msg_type: DhcpMessageType)
        ensures
            final(self)@.options == spec_insert(
                old(self)@.options,
                53,
                OptionModel::MessageType(msg_type),
            ),
            final(self)@.op == old(self)@.op,
            final(self)@.htype == old(self)@.htype,
            final(self)@.hlen == old(self)@.hlen,
            final(self)@.hops == old(self)@.hops,
            final(self)@.xid == old(self)@.xid,
            final(self)@.secs == old(self)@.secs,
            final(self)@.flags == old(self)@.flags,
            final(self)@.chaddr == old(self)@.chaddr,
            final(self)@.ciaddr == old(self)@.ciaddr,
            final(self)@.yiaddr == old(self)@.yiaddr,
            final(self)@.siaddr == old(self)@.siaddr,
            final(self)@.giaddr == old(self)@.giaddr,
            final(self)@.sname == old(self)@.sname,
            final(self)@.file == old(self)@.file,
    {
        self.options.insert(53, DhcpOption::MessageType(msg_type));
    }

    /// Serializes the packet to its wire form: the 236-byte header, the
    /// magic cookie, each option in order, and the end marker.
    pub fn serialize(&self) -> (r: Vec<u8>)
        ensures
            r@ == spec_packet_bytes(self@),
    {
        let mut out: Vec<u8> = Vec::new();
        out.push(self.op);
        out.push(self.htype);
        out.push(self.hlen);
        out.push(self.hops);
        write_u32(&mut out, self.xid);
        write_u16(&mut out, self.secs);
        write_u16(&mut out, self.flags);
        write_u32(&mut out, self.ciaddr.0);
        write_u32(&mut out, self.yiaddr.0);
        write_u32(&mut out, self.siaddr.0);
        write_u32(&mut out, self.giaddr.0);
        append_array(&mut out, self.chaddr.bytes());
        let mut pad: usize = 0;
        while pad < 10
            invariant
                pad <= 10,
                out@ == header_bytes(self@).take(34 + pad as int),
            decreases 10 - pad,
        {
            out.push(0);
            proof {
                assert(header_bytes(self@).take(34 + pad + 1) =~= header_bytes(self@).take(
                    34 + pad as int,
                ).push(0u8));
            }
            pad += 1;
        }
        append_array(&mut out, &self.sname);
        append_array(&mut out, &self.file);
        proof {
            assert(out@ =~= header_bytes(self@));
        }
        out.push(0x63);
        out.push(0x82);
        out.push(0x53);
        out.push(0x63);
        let ghost before_opts = out@;
        proof {
            assert(before_opts =~= header_bytes(self@) + spec_cookie());
        }
        let n = self.options.len();
        let mut i: usize = 0;
        proof {
            assert(self@.options.take(0) =~= Seq::<(u8, OptionModel)>::empty());
        }
        while i < n
            invariant
                n == self@.options.len(),
                i <= n,
                before_opts == header_bytes(self@) + spec_cookie(),
                out@ == before_opts + opts_bytes(self@.options.take(i as int)),
            decreases n - i,
        {
            let e = self.options.entry_at(i);
            let payload = option_payload_bytes(&e.1);
            out.push(e.0);
            out.push((payload.len() % 256) as u8);
            append_bytes(&mut out, payload.as_slice());
            proof {
                lemma_opts_bytes_snoc(self@.options, i as int);
                assert(entry_bytes(self@.options[i as int]) =~= seq![
                    self@.options[i as int].0,
                    (option_payload(self@.options[i as int].1).len() % 256) as u8,
                ] + option_payload(self@.options[i as int].1));
                assert(out@ =~= before_opts + opts_bytes(self@.options.take(i + 1)));
            }
            i += 1;
        }
        out.push(255);
        proof {
            assert(self@.options.take(n as int) =~= self@.options);
            assert(out@ =~= spec_packet_bytes(self@));
        }
        out
    }
}

/// The message type stored under option 53 of an option list.
pub open spec fn spec_get_message_type(opts: Seq<(u8, OptionModel)>) -> Option<DhcpMessageType> {
    if contains_code(opts, 53) {
        match value_of_code(opts, 53) {
            OptionModel::MessageType(t) => Some(t),
            _ => None,
        }
    } else {
        None
    }
}

/// After storing an option, it is found under its code.
pub proof fn lemma_spec_insert_found(s: Seq<(u8, OptionModel)>, code: u8, o: OptionModel)
    ensures
        contains_code(spec_insert(s, code, o), code),
        value_of_code(spec_insert(s, code, o), code) == o,
    decreases s.len(),
{
    if s.len() == 0 {
        assert(spec_insert(s, code, o)[0] == (code, o));
    } else if s[0].0 == code {
        assert(spec_insert(s, code, o)[0] == (code, o));
    } else {
        lemma_spec_insert_found(s.skip(1), code, o);
        assert(spec_insert(s, code, o)[0] == s[0]);
        assert(spec_insert(s, code, o).skip(1) =~= spec_insert(s.skip(1), code, o));
    }
}

/// Storing one option leaves every other code's presence and value alone.
pub proof fn lemma_spec_insert_other(s: Seq<(u8, OptionModel)>, code: u8, o: OptionModel, other: u8)
    requires
        other != code,
    ensures
        contains_code(spec_insert(s, code, o), other) == contains_code(s, other),
        contains_code(s, other) ==> value_of_code(spec_insert(s, code, o), other)
            == value_of_code(s, other),
    decreases s.len(),
{
    if s.len() == 0 {
        assert(spec_insert(s, code, o)[0] == (code, o));
        assert(spec_insert(s, code, o).skip(1) =~= Seq::<(u8, OptionModel)>::empty());
        assert(!contains_code(Seq::<(u8, OptionModel)>::empty(), other));
    } else if s[0].0 == code {
        assert(spec_insert(s, code, o)[0] == (code, o));
        assert(spec_insert(s, code, o).skip(1) =~= s.skip(1));
    } else {
        lemma_spec_insert_other(s.skip(1), code, o, other);
        assert(spec_insert(s, code, o)[0] == s[0]);
        assert(spec_insert(s, code, o).skip(1) =~= spec_insert(s.skip(1), code, o));
    }
}

/// The first entry carrying a code holds its value.
proof fn lemma_value_at_first(s: Seq<(u8, OptionModel)>, code: u8, i: int)
    requires
        0 <= i < s.len(),
        s[i].0 == code,
        forall|j: int| 0 <= j < i ==> s[j].0 != code,
    ensures
        value_of_code(s, code) == s[i].1,
    decreases i,
{
    if i > 0 {
        assert(s.skip(1)[i - 1] == s[i]);
        assert(forall|j: int| 0 <= j < i - 1 ==> s.skip(1)[j].0 != code);
        lemma_value_at_first(s.skip(1), code, i - 1);
    }
}

/// Removing a code that first occurs at `i` removes exactly that entry.
proof fn lemma_remove_at_first(s: Seq<(u8, OptionModel)>, code: u8, i: int)
    requires
        0 <= i < s.len(),
        s[i].0 == code,
        forall|j: int| 0 <= j < i ==> s[j].0 != code,
    ensures
        remove_code(s, code) == s.remove(i),
    decreases i,
{
    if i == 0 {
        assert(remove_code(s, code) =~= s.remove(0));
    } else {
        assert(s.skip(1)[i - 1] == s[i]);
        assert(forall|j: int| 0 <= j < i - 1 ==> s.skip(1)[j].0 != code);
        lemma_remove_at_first(s.skip(1), code, i - 1);
        assert(remove_code(s, code) =~= s.remove(i));
    }
}

/// Files a freshly parsed entry in front of the entries parsed after it,
/// with a repeated code keeping the later value.
#[verifier::loop_isolation(false)]
fn combine_entry(code: u8, opt: DhcpOption, rest: Vec<(u8, DhcpOption)>) -> (r: Vec<
    (u8, DhcpOption),
>)
    ensures
        r@.map_values(|e: (u8, DhcpOption)| (e.0, e.1@)) == spec_combine(
            code,
            opt@,
            rest@.map_values(|e: (u8, DhcpOption)| (e.0, e.1@)),
        ),
{
    let ghost restm = rest@.map_values(|e: (u8, DhcpOption)| (e.0, e.1@));
    let mut rest = rest;
    let n = rest.len();
    let mut i: usize = 0;
    while i < n
        invariant
            n == rest@.len(),
            restm == rest@.map_values(|e: (u8, DhcpOption)| (e.0, e.1@)),
            i <= n,
            forall|j: int| 0 <= j < i ==> restm[j].0 != code,
        decreases n - i,
    {
        if rest[i].0 == code {
            proof {
                lemma_contains_from_skip(restm, code, i as int);
                lemma_value_at_first(restm, code, i as int);
                lemma_remove_at_first(restm, code, i as int);
            }
            let ghost before = rest@;
            let e = rest.remove(i);
            proof {
                assert(rest@.map_values(|e: (u8, DhcpOption)| (e.0, e.1@)) =~= restm.remove(
                    i as int,
                ));
            }
            rest.insert(0, e);
            proof {
                assert(rest@.map_values(|e: (u8, DhcpOption)| (e.0, e.1@)) =~= seq![
                    (code, value_of_code(restm, code)),
                ] + remove_code(restm, code));
            }
            return rest;
        }
        i += 1;
    }
    proof {
        lemma_take_not_contains(restm, code, n as int);
        assert(restm.take(n as int) =~= restm);
    }
    rest.insert(0, (code, opt));
    proof {
        assert(rest@.map_values(|e: (u8, DhcpOption)| (e.0, e.1@)) =~= seq![(code, opt@)] + restm);
    }
    rest
}

/// Reads IPv4 addresses in four-byte steps from `b` starting at `i`.
fn read_ipv4_list(b: &[u8], i: usize) -> (r: Vec<Ipv4>)
    requires
        i <= b@.len(),
    ensures
        r@.map_values(|a: Ipv4| a.0) == spec_ipv4_list(b@.skip(i as int)),
    decreases b@.len() - i,
{
    let n = b.len();
    if n - i < 4 {
        let r: Vec<Ipv4> = Vec::new();
        proof {
            assert(r@.map_values(|a: Ipv4| a.0) =~= spec_ipv4_list(b@.skip(i as int)));
        }
        r
    } else {
        let v = crate::wire::read_u32(b, i);
        let mut rest = read_ipv4_list(b, i + 4);
        proof {
            assert(b@.skip(i as int).skip(4) =~= b@.skip(i + 4));
            assert(b@.skip(i as int)[0] == b@[i as int]);
            assert(b@.skip(i as int)[1] == b@[i + 1]);
            assert(b@.skip(i as int)[2] == b@[i + 2]);
            assert(b@.skip(i as int)[3] == b@[i + 3]);
        }
        rest.insert(0, Ipv4(v));
        proof {
            assert(rest@.map_values(|a: Ipv4| a.0) =~= spec_ipv4_list(b@.skip(i as int)));
        }
        rest
    }
}

/// Reads relay-agent sub-options from `b` starting at `i`; the last
/// occurrence of each identifier wins.
fn read_opt82(b: &[u8], i: usize) -> (r: Option82Data)
    requires
        i <= b@.len(),
    ensures
        r@ == spec_opt82(b@.skip(i as int)),
    decreases b@.len() - i,
{
    let n = b.len();
    if n - i < 2 {
        return Option82Data { circuit_id: None, remote_id: None };
    }
    let l = b[i + 1] as usize;
    proof {
        assert(b@.skip(i as int)[1] == b@[i + 1]);
        assert(b@.skip(i as int)[0] == b@[i as int]);
    }
    if l > n - i - 2 {
        return Option82Data { circuit_id: None, remote_id: None };
    }
    let rest = read_opt82(b, i + 2 + l);
    proof {
        assert(b@.skip(i as int).skip(2 + l as int) =~= b@.skip(i + 2 + l));
        assert(b@.skip(i as int).subrange(2, 2 + l as int) =~= b@.subrange(
            i + 2,
            i + 2 + l,
        ));
    }
    let sub = b[i];
    let circuit_id = if rest.circuit_id.is_some() {
        rest.circuit_id
    } else if sub == 1 {
        Some(vstd::slice::slice_to_vec(slice_subrange(b, i + 2, i + 2 + l)))
    } else {
        None
    };
    let remote_id = if rest.remote_id.is_some() {
        rest.remote_id
    } else if sub == 2 {
        Some(vstd::slice::slice_to_vec(slice_subrange(b, i + 2, i + 2 + l)))
    } else {
        None
    };
    Option82Data { circuit_id, remote_id }
}

/// Decodes one option from its code and payload.
fn decode_option_bytes(code: u8, payload: &[u8]) -> (r: DhcpOption)
    ensures
        r@ == spec_decode_option(code, payload@),
{
    proof {
        assert(payload@.skip(0) =~= payload@);
    }
    match code {
        1 => {
            if payload.len() == 4 {
                DhcpOption::SubnetMask(Ipv4(crate::wire::read_u32(payload, 0)))
            } else {
                DhcpOption::Other(code, vstd::slice::slice_to_vec(payload))
            }
        },
        3 => DhcpOption::Router(read_ipv4_list(payload, 0)),
        6 => DhcpOption::DnsServers(read_ipv4_list(payload, 0)),
        15 => DhcpOption::DomainName(lossy_string(payload)),
        50 => {
            if payload.len() == 4 {
                DhcpOption::RequestedIpAddress(Ipv4(crate::wire::read_u32(payload, 0)))
            } else {
                DhcpOption::Other(code, vstd::slice::slice_to_vec(payload))
            }
        },
        51 => {
            if payload.len() == 4 {
                DhcpOption::LeaseTime(crate::wire::read_u32(payload, 0))
            } else {
                DhcpOption::Other(code, vstd::slice::slice_to_vec(payload))
            }
        },
        53 => {
            if payload.len() == 1 {
                match DhcpMessageType::from_code(payload[0]) {
                    Some(t) => DhcpOption::MessageType(t),
                    None => DhcpOption::Other(code, vstd::slice::slice_to_vec(payload)),
                }
            } else {
                DhcpOption::Other(code, vstd::slice::slice_to_vec(payload))
            }
        },
        54 => {
            if payload.len() == 4 {
                DhcpOption::ServerIdentifier(Ipv4(crate::wire::read_u32(payload, 0)))
            } else {
                DhcpOption::Other(code, vstd::slice::slice_to_vec(payload))
            }
        },
        61 => DhcpOption::ClientIdentifier(vstd::slice::slice_to_vec(payload)),
        82 => DhcpOption::Option82(read_opt82(payload, 0)),
        _ => DhcpOption::Other(code, vstd::slice::slice_to_vec(payload)),
    }
}

/// Reads the option section of a datagram from position `i` on.
fn parse_options_from(data: &[u8], i: usize) -> (r: Result<Vec<(u8, DhcpOption)>, String>)
    requires
        i <= data@.len(),
    ensures
        match r {
            Ok(v) => spec_parse_opts(data@.skip(i as int)) == Some(
                v@.map_values(|e: (u8, DhcpOption)| (e.0, e.1@)),
            ),
            Err(_) => spec_parse_opts(data@.skip(i as int)) is None,
        },
    decreases data@.len() - i,
{
    let n = data.len();
    if i >= n {
        let v: Vec<(u8, DhcpOption)> = Vec::new();
        proof {
            assert(v@.map_values(|e: (u8, DhcpOption)| (e.0, e.1@)) =~= Seq::<(
                u8,
                OptionModel,
            )>::empty());
        }
        return Ok(v);
    }
    let c = data[i];
    proof {
        assert(data@.skip(i as int)[0] == data@[i as int]);
    }
    if c == 255 {
        let v: Vec<(u8, DhcpOption)> = Vec::new();
        proof {
            assert(v@.map_values(|e: (u8, DhcpOption)| (e.0, e.1@)) =~= Seq::<(
                u8,
                OptionModel,
            )>::empty());
        }
        return Ok(v);
    }
    if c == 0 {
        proof {
            assert(data@.skip(i as int).skip(1) =~= data@.skip(i + 1));
        }
        return parse_options_from(data, i + 1);
    }
    if i + 1 >= n {
        return Err(String::from_str("Invalid option format"));
    }
    let l = data[i + 1] as usize;
    proof {
        assert(data@.skip(i as int)[1] == data@[i + 1]);
    }
    if l > n - i - 2 {
        return Err(String::from_str("Option length exceeds packet size"));
    }
    if c == 53 && l != 1 {
        return Err(String::from_str("Invalid message type option length"));
    }
    if (c == 1 || c == 50 || c == 54) && l != 4 {
        return Err(String::from_str("Invalid address option length"));
    }
    let payload = slice_subrange(data, i + 2, i + 2 + l);
    proof {
        assert(payload@ =~= data@.skip(i as int).subrange(2, 2 + l as int));
    }
    let opt = decode_option_bytes(c, payload);
    let rest = match parse_options_from(data, i + 2 + l) {
        Ok(v) => v,
        Err(e) => {
            proof {
                assert(data@.skip(i as int).skip(2 + l as int) =~= data@.skip(i + 2 + l));
            }
            return Err(e);
        },
    };
    proof {
        assert(data@.skip(i as int).skip(2 + l as int) =~= data@.skip(i + 2 + l));
    }
    Ok(combine_entry(c, opt, rest))
}

impl DhcpPacket {
    /// Parses a datagram: at least the 236 header bytes must be present;
    /// options are read only behind an intact magic cookie, and a missing or
    /// broken cookie leaves the option list empty.
    pub fn parse(data: &[u8]) -> (r: Result<DhcpPacket, String>)
        ensures
            match r {
                Ok(p) => spec_parse_dhcp(data@) == Some(p@),
                Err(_) => spec_parse_dhcp(data@) is None,
            },
    {
        let n = data.len();
        if n < 236 {
            return Err(String::from_str("DHCP packet too short"));
        }
        let op = data[0];
        let htype = data[1];
        let hlen = data[2];
        let hops = data[3];
        let xid = crate::wire::read_u32(data, 4);
        let secs = crate::wire::read_u16(data, 8);
        let flags = crate::wire::read_u16(data, 10);
        let ciaddr = Ipv4(crate::wire::read_u32(data, 12));
        let yiaddr = Ipv4(crate::wire::read_u32(data, 16));
        let siaddr = Ipv4(crate::wire::read_u32(data, 20));
        let giaddr = Ipv4(crate::wire::read_u32(data, 24));
        let chaddr = MacAddress::new(
            [data[28], data[29], data[30], data[31], data[32], data[33]],
        );
        proof {
            assert(chaddr@ =~= data@.subrange(28, 34));
        }
        let mut sname = [0u8; 64];
        let mut k: usize = 0;
        while k < 64
            invariant
                k <= 64,
                n == data@.len(),
                n >= 236,
                sname@.len() == 64,
                forall|j: int| 0 <= j < k ==> sname@[j] == data@[44 + j],
            decreases 64 - k,
        {
            sname[k] = data[44 + k];
            k += 1;
        }
        proof {
            assert(sname@ =~= data@.subrange(44, 108));
        }
        let mut file = [0u8; 128];
        let mut k2: usize = 0;
        while k2 < 128
            invariant
                k2 <= 128,
                n == data@.len(),
                n >= 236,
                file@.len() == 128,
                forall|j: int| 0 <= j < k2 ==> file@[j] == data@[108 + j],
            decreases 128 - k2,
        {
            file[k2] = data[108 + k2];
            k2 += 1;
        }
        proof {
            assert(file@ =~= data@.subrange(108, 236));
        }
        let has_cookie = n >= 240 && data[236] == 0x63 && data[237] == 0x82 && data[238] == 0x53
            && data[239] == 0x63;
        proof {
            if n >= 240 {
                assert(data@.subrange(236, 240)[0] == data@[236]);
                assert(data@.subrange(236, 240)[1] == data@[237]);
                assert(data@.subrange(236, 240)[2] == data@[238]);
                assert(data@.subrange(236, 240)[3] == data@[239]);
                if has_cookie {
                    assert(data@.subrange(236, 240) =~= spec_cookie());
                }
            }
        }
        let entries: Vec<(u8, DhcpOption)> = if has_cookie {
            match parse_options_from(data, 240) {
                Ok(v) => v,
                Err(e) => {
                    return Err(e);
                },
            }
        } else {
            Vec::new()
        };
        let packet = DhcpPacket {
            op,
            htype,
            hlen,
            hops,
            xid,
            secs,
            flags,
            ciaddr,
            yiaddr,
            siaddr,
            giaddr,
            chaddr,
            sname,
            file,
            options: OptionMap { entries },
        };
        proof {
            if !has_cookie {
                assert(packet@.options =~= Seq::<(u8, OptionModel)>::empty());
            }
        }
        Ok(packet)
    }
}

/// No two entries carry the same option code.
pub open spec fn unique_codes(s: Seq<(u8, OptionModel)>) -> bool {
    forall|i: int, j: int| 0 <= i < j < s.len() ==> s[i].0 != s[j].0
}

/// Relay-agent information whose serialized payload fits its length bytes.
pub open spec fn wf_opt82(o: Option82Model) -> bool {
    &&& (o.circuit_id matches Some(c) ==> c.len() <= 255)
    &&& (o.remote_id matches Some(r) ==> r.len() <= 255)
    &&& opt82_payload(o).len() <= 255
}

/// An option that parses back from its own wire form under this code: the
/// code is the variant's own, lengths fit their length bytes, and a
/// verbatim `Other` does not collide with the shape of a recognized option.
pub open spec fn wf_option(code: u8, o: OptionModel) -> bool {
    match o {
        OptionModel::SubnetMask(_) => code == 1,
        OptionModel::Router(l) => code == 3 && l.len() <= 63,
        OptionModel::DnsServers(l) => code == 6 && l.len() <= 63,
        OptionModel::DomainName(s) => code == 15 && encode_utf8(s).len() <= 255,
        OptionModel::LeaseTime(_) => code == 51,
        OptionModel::MessageType(_) => code == 53,
        OptionModel::ServerIdentifier(_) => code == 54,
        OptionModel::RequestedIpAddress(_) => code == 50,
        OptionModel::ClientIdentifier(d) => code == 61 && d.len() <= 255,
        OptionModel::Option82(o82) => code == 82 && wf_opt82(o82),
        OptionModel::Other(c, d) => code == c && d.len() <= 255 && c != 0 && c != 255 && c != 1
            && c != 3 && c != 6 && c != 15 && c != 50 && c != 54 && c != 61 && c != 82 && (c == 51
            ==> d.len() != 4) && (c == 53 ==> d.len() == 1 && spec_message_type_of(d[0]) is None),
    }
}

/// An option list that parses back from its own wire form.
pub open spec fn wf_options(s: Seq<(u8, OptionModel)>) -> bool {
    unique_codes(s) && forall|i: int| 0 <= i < s.len() ==> wf_option(#[trigger] s[i].0, s[i].1)
}

/// A packet the codec can produce: field widths as on the wire, and a
/// well-formed option list.
pub open spec fn wf_dhcp_packet(p: DhcpPacketModel) -> bool {
    p.chaddr.len() == 6 && p.sname.len() == 64 && p.file.len() == 128 && wf_options(p.options)
}

proof fn lemma_ipv4_list_bytes_len(l: Seq<u32>)
    ensures
        ipv4_list_bytes(l).len() == 4 * l.len(),
    decreases l.len(),
{
    if l.len() > 0 {
        lemma_ipv4_list_bytes_len(l.skip(1));
    }
}

proof fn lemma_ipv4_list_round(l: Seq<u32>)
    ensures
        spec_ipv4_list(ipv4_list_bytes(l)) == l,
    decreases l.len(),
{
    let b = ipv4_list_bytes(l);
    lemma_ipv4_list_bytes_len(l);
    if l.len() == 0 {
        assert(spec_ipv4_list(b) =~= l);
    } else {
        let tail = ipv4_list_bytes(l.skip(1));
        assert(b == be_of_u32(l[0]) + tail);
        assert(b[0] == be_of_u32(l[0])[0]);
        assert(b[1] == be_of_u32(l[0])[1]);
        assert(b[2] == be_of_u32(l[0])[2]);
        assert(b[3] == be_of_u32(l[0])[3]);
        crate::wire::lemma_u32_be_round_trip(l[0]);
        assert(b.skip(4) =~= tail);
        lemma_ipv4_list_round(l.skip(1));
        assert(spec_ipv4_list(b) =~= l);
    }
}

proof fn lemma_opt82_round(o: Option82Model)
    requires
        wf_opt82(o),
    ensures
        spec_opt82(opt82_payload(o)) == o,
{
    let b = opt82_payload(o);
    reveal_with_fuel(spec_opt82, 4);
    assert(spec_opt82(Seq::<u8>::empty()) =~= (Option82Model {
        circuit_id: None,
        remote_id: None,
    }));
    match o.circuit_id {
        Some(c) => {
            let chead = seq![1u8, (c.len() % 256) as u8] + c;
            match o.remote_id {
                Some(r) => {
                    let rhead = seq![2u8, (r.len() % 256) as u8] + r;
                    assert(b == chead + rhead);
                    assert(b[0] == 1u8 && b[1] == c.len() as u8);
                    assert(b.subrange(2, 2 + c.len() as int) =~= c);
                    assert(b.skip(2 + c.len() as int) =~= rhead);
                    assert(rhead[0] == 2u8 && rhead[1] == r.len() as u8);
                    assert(rhead.subrange(2, 2 + r.len() as int) =~= r);
                    assert(rhead.skip(2 + r.len() as int) =~= Seq::<u8>::empty());
                    assert(spec_opt82(b) =~= o);
                },
                None => {
                    assert(b =~= chead);
                    assert(b[0] == 1u8 && b[1] == c.len() as u8);
                    assert(b.subrange(2, 2 + c.len() as int) =~= c);
                    assert(b.skip(2 + c.len() as int) =~= Seq::<u8>::empty());
                    assert(spec_opt82(b) =~= o);
                },
            }
        },
        None => {
            match o.remote_id {
                Some(r) => {
                    let rhead = seq![2u8, (r.len() % 256) as u8] + r;
                    assert(b =~= rhead);
                    assert(b[0] == 2u8 && b[1] == r.len() as u8);
                    assert(b.subrange(2, 2 + r.len() as int) =~= r);
                    assert(b.skip(2 + r.len() as int) =~= Seq::<u8>::empty());
                    assert(spec_opt82(b) =~= o);
                },
                None => {
                    assert(b =~= Seq::<u8>::empty());
                    assert(spec_opt82(b) =~= o);
                },
            }
        },
    }
}

/// A well-formed option decodes back from its own payload, the payload fits
/// one length byte, and its code is neither the pad nor the end marker.
proof fn lemma_option_round(code: u8, o: OptionModel)
    requires
        wf_option(code, o),
    ensures
        option_payload(o).len() <= 255,
        spec_decode_option(code, option_payload(o)) == o,
        code != 0,
        code != 255,
{
    let b = option_payload(o);
    match o {
        OptionModel::SubnetMask(a) => {
            crate::wire::lemma_u32_be_round_trip(a);
        },
        OptionModel::Router(l) => {
            lemma_ipv4_list_bytes_len(l);
            lemma_ipv4_list_round(l);
        },
        OptionModel::DnsServers(l) => {
            lemma_ipv4_list_bytes_len(l);
            lemma_ipv4_list_round(l);
        },
        OptionModel::DomainName(s) => {
            vstd::utf8::encode_utf8_valid_utf8(s);
            vstd::utf8::encode_utf8_decode_utf8(s);
        },
        OptionModel::LeaseTime(t) => {
            crate::wire::lemma_u32_be_round_trip(t);
        },
        OptionModel::MessageType(_) => {},
        OptionModel::ServerIdentifier(a) => {
            crate::wire::lemma_u32_be_round_trip(a);
        },
        OptionModel::RequestedIpAddress(a) => {
            crate::wire::lemma_u32_be_round_trip(a);
        },
        OptionModel::ClientIdentifier(_) => {},
        OptionModel::Option82(o82) => {
            lemma_opt82_round(o82);
        },
        OptionModel::Other(_, _) => {},
    }
}

proof fn lemma_contains_iff(s: Seq<(u8, OptionModel)>, code: u8)
    ensures
        contains_code(s, code) <==> exists|i: int| 0 <= i < s.len() && s[i].0 == code,
    decreases s.len(),
{
    if s.len() > 0 {
        lemma_contains_iff(s.skip(1), code);
        if exists|i: int| 0 <= i < s.skip(1).len() && s.skip(1)[i].0 == code {
            let w = choose|i: int| 0 <= i < s.skip(1).len() && s.skip(1)[i].0 == code;
            assert(s[w + 1].0 == code);
        }
        if exists|i: int| 0 <= i < s.len() && s[i].0 == code {
            let w = choose|i: int| 0 <= i < s.len() && s[i].0 == code;
            if w > 0 {
                assert(s.skip(1)[w - 1].0 == code);
            }
        }
    }
}

/// A well-formed option list parses back from its own wire form followed by
/// the end marker.
proof fn lemma_opts_round(s: Seq<(u8, OptionModel)>)
    requires
        wf_options(s),
    ensures
        spec_parse_opts(opts_bytes(s) + seq![255u8]) == Some(s),
    decreases s.len(),
{
    let b = opts_bytes(s) + seq![255u8];
    if s.len() == 0 {
        assert(b[0] == 255u8);
        assert(spec_parse_opts(b) == Some(Seq::<(u8, OptionModel)>::empty()));
    } else {
        let e = s[0];
        let payload = option_payload(e.1);
        lemma_option_round(e.0, e.1);
        let tail = opts_bytes(s.skip(1)) + seq![255u8];
        assert(b =~= entry_bytes(e) + tail);
        assert(b[0] == e.0);
        assert(b[1] == payload.len() as u8);
        assert(b.len() >= 2 + payload.len());
        assert(b.subrange(2, 2 + payload.len() as int) =~= payload);
        assert(b.skip(2 + payload.len() as int) =~= tail);
        assert(wf_options(s.skip(1))) by {
            assert(forall|i: int|
                0 <= i < s.skip(1).len() ==> wf_option(
                    #[trigger] s.skip(1)[i].0,
                    s.skip(1)[i].1,
                )) by {
                assert(forall|i: int|
                    0 <= i < s.skip(1).len() ==> s.skip(1)[i] == s[i + 1]);
            }
        }
        lemma_opts_round(s.skip(1));
        assert(!contains_code(s.skip(1), e.0)) by {
            lemma_contains_iff(s.skip(1), e.0);
            if exists|i: int| 0 <= i < s.skip(1).len() && s.skip(1)[i].0 == e.0 {
                let w = choose|i: int| 0 <= i < s.skip(1).len() && s.skip(1)[i].0 == e.0;
                assert(s[w + 1].0 == s[0].0);
            }
        }
        assert(spec_combine(e.0, e.1, s.skip(1)) =~= s);
        assert(spec_parse_opts(b) == Some(s));
    }
}

/// Every packet the codec can produce parses back from its own serialized
/// form, field for field and option for option.
pub proof fn lemma_parse_of_dhcp_bytes(p: DhcpPacketModel)
    requires
        wf_dhcp_packet(p),
    ensures
        spec_parse_dhcp(spec_packet_bytes(p)) == Some(p),
{
    let h = header_bytes(p);
    let b = spec_packet_bytes(p);
    assert(h.len() == 236);
    assert(b =~= h + spec_cookie() + opts_bytes(p.options) + seq![255u8]);
    assert(b.len() >= 240);
    assert(b.subrange(236, 240) =~= spec_cookie());
    assert(b.skip(240) =~= opts_bytes(p.options) + seq![255u8]);
    lemma_opts_round(p.options);
    let q = spec_header_of(b, p.options);
    assert(b.subrange(0, 236) =~= h);
    assert(q.op == p.op && q.htype == p.htype && q.hlen == p.hlen && q.hops == p.hops);
    assert(q.xid == p.xid) by {
        assert(b[4] == be_of_u32(p.xid)[0] && b[5] == be_of_u32(p.xid)[1] && b[6] == be_of_u32(
            p.xid,
        )[2] && b[7] == be_of_u32(p.xid)[3]);
        crate::wire::lemma_u32_be_round_trip(p.xid);
    }
    assert(q.secs == p.secs) by {
        assert(b[8] == be_of_u16(p.secs)[0] && b[9] == be_of_u16(p.secs)[1]);
        crate::wire::lemma_u16_be_round_trip(p.secs);
    }
    assert(q.flags == p.flags) by {
        assert(b[10] == be_of_u16(p.flags)[0] && b[11] == be_of_u16(p.flags)[1]);
        crate::wire::lemma_u16_be_round_trip(p.flags);
    }
    assert(q.ciaddr == p.ciaddr) by {
        assert(b[12] == be_of_u32(p.ciaddr)[0] && b[13] == be_of_u32(p.ciaddr)[1] && b[14]
            == be_of_u32(p.ciaddr)[2] && b[15] == be_of_u32(p.ciaddr)[3]);
        crate::wire::lemma_u32_be_round_trip(p.ciaddr);
    }
    assert(q.yiaddr == p.yiaddr) by {
        assert(b[16] == be_of_u32(p.yiaddr)[0] && b[17] == be_of_u32(p.yiaddr)[1] && b[18]
            == be_of_u32(p.yiaddr)[2] && b[19] == be_of_u32(p.yiaddr)[3]);
        crate::wire::lemma_u32_be_round_trip(p.yiaddr);
    }
    assert(q.siaddr == p.siaddr) by {
        assert(b[20] == be_of_u32(p.siaddr)[0] && b[21] == be_of_u32(p.siaddr)[1] && b[22]
            == be_of_u32(p.siaddr)[2] && b[23] == be_of_u32(p.siaddr)[3]);
        crate::wire::lemma_u32_be_round_trip(p.siaddr);
    }
    assert(q.giaddr == p.giaddr) by {
        assert(b[24] == be_of_u32(p.giaddr)[0] && b[25] == be_of_u32(p.giaddr)[1] && b[26]
            == be_of_u32(p.giaddr)[2] && b[27] == be_of_u32(p.giaddr)[3]);
        crate::wire::lemma_u32_be_round_trip(p.giaddr);
    }
    assert(q.chaddr =~= p.chaddr);
    assert(q.sname =~= p.sname);
    assert(q.file =~= p.file);
    assert(q =~= p);
}

/// Serializing what a well-formed buffer parsed to yields a buffer that
/// parses back to the same structural packet.
pub proof fn lemma_reparse_of_parsed_dhcp(b: Seq<u8>, p: DhcpPacketModel)
    requires
        spec_parse_dhcp(b) == Some(p),
        wf_dhcp_packet(p),
    ensures
        spec_parse_dhcp(spec_packet_bytes(p)) == Some(p),
{
    lemma_parse_of_dhcp_bytes(p);
}

} // verus!
