//! Reading physical-port provenance out of DHCP relay-agent information:
//! rack and switch identifiers carried in colon-separated circuit and
//! remote identifiers.

use vstd::prelude::*;
use crate::dhcp::packet::Option82Data;
use crate::text::{lossy_string, split_bytes, split_on};
use crate::tftp::packet::decoded;

verus! {

/// Reads rack and switch information out of relay-agent data.
pub struct Option82Parser;

/// Physical-port provenance as a switch reports it.
#[derive(Debug, Clone)]
pub struct SwitchInfo {
    pub switch_identifier: String,
    pub port_identifier: String,
    pub vlan_id: Option<u16>,
}

/// The rack identifier and port a circuit and remote identifier stand for:
/// the first two colon-separated pieces of the circuit identifier, or,
/// when it has no colon, of the remote identifier.
pub open spec fn rack_info_bytes(c: Seq<u8>, r: Seq<u8>) -> Option<(Seq<u8>, Seq<u8>)> {
    if split_on(c, 58).len() >= 2 {
        Some((split_on(c, 58)[0], split_on(c, 58)[1]))
    } else if r.contains(58) && split_on(r, 58).len() >= 2 {
        Some((split_on(r, 58)[0], split_on(r, 58)[1]))
    } else {
        None
    }
}

/// Whether a byte is an ASCII decimal digit.
pub open spec fn is_dec_digit(b: u8) -> bool {
    48 <= b <= 57
}

/// The value of a big-endian string of decimal digits.
pub open spec fn dec_value(digits: Seq<u8>) -> nat
    decreases digits.len(),
{
    if digits.len() == 0 {
        0
    } else {
        (dec_value(digits.drop_last()) * 10 + (digits.last() - 48)) as nat
    }
}

/// The 16-bit value a decimal part stands for: an optional leading `+`,
/// then at least one decimal digit, with a value that fits.
pub open spec fn parsed_dec_digits(digits: Seq<u8>) -> Option<u16> {
    if digits.len() == 0 {
        None
    } else if exists|j: int| 0 <= j < digits.len() && !is_dec_digit(digits[j]) {
        None
    } else if dec_value(digits) > 65535 {
        None
    } else {
        Some(dec_value(digits) as u16)
    }
}

/// The 16-bit value a part stands for under `str::parse::<u16>`.
pub open spec fn parsed_dec_part(part: Seq<u8>) -> Option<u16> {
    parsed_dec_digits(
        if part.len() > 0 && part[0] == 43 {
            part.skip(1)
        } else {
            part
        },
    )
}

proof fn lemma_dec_value_monotone(digits: Seq<u8>, i: int)
    requires
        0 <= i <= digits.len(),
        forall|j: int| 0 <= j < digits.len() ==> is_dec_digit(#[trigger] digits[j]),
    ensures
        dec_value(digits.take(i)) <= dec_value(digits),
    decreases digits.len() - i,
{
    if i < digits.len() {
        assert(digits.take(i + 1).drop_last() =~= digits.take(i));
        assert(dec_value(digits.take(i)) <= dec_value(digits.take(i + 1)));
        lemma_dec_value_monotone(digits, i + 1);
    } else {
        assert(digits.take(i) =~= digits);
    }
}

/// Parses one decimal part as a 16-bit value.
fn parse_dec_part(p: &[u8]) -> (r: Option<u16>)
    ensures
        r == parsed_dec_part(p@),
{
    let start: usize = if p.len() > 0 && p[0] == 43 {
        1
    } else {
        0
    };
    let ghost digits = if p@.len() > 0 && p@[0] == 43 {
        p@.skip(1)
    } else {
        p@
    };
    proof {
        assert(digits =~= p@.skip(start as int));
        assert(parsed_dec_part(p@) == parsed_dec_digits(digits));
    }
    if p.len() == start {
        return None;
    }
    let mut v: u32 = 0;
    let mut i = start;
    while i < p.len()
        invariant
            start <= i <= p@.len(),
            start <= 1,
            digits == p@.skip(start as int),
            parsed_dec_part(p@) == parsed_dec_digits(digits),
            forall|j: int| 0 <= j < i - start ==> is_dec_digit(digits[j]),
            v == dec_value(digits.take(i - start)),
            v <= 65535,
        decreases p@.len() - i,
    {
        let c = p[i];
        if !(48 <= c && c <= 57) {
            proof {
                assert(!is_dec_digit(digits[i - start]));
            }
            return None;
        }
        let d: u8 = c - 48;
        v = v * 10 + d as u32;
        proof {
            assert(digits.take(i - start + 1).drop_last() =~= digits.take(i - start));
            assert(digits.take(i - start + 1).last() == p@[i as int]);
        }
        if v > 65535 {
            proof {
                if forall|j: int| 0 <= j < digits.len() ==> is_dec_digit(#[trigger] digits[j]) {
                    lemma_dec_value_monotone(digits, i - start + 1);
                    assert(dec_value(digits) >= v);
                }
                assert(parsed_dec_digits(digits) is None);
            }
            return None;
        }
        i += 1;
    }
    proof {
        assert(digits.take(p@.len() - start) =~= digits);
    }
    Some(v as u16)
}

impl Option82Parser {
    /// The rack identifier and port carried in relay-agent information:
    /// both identifiers must be present; the circuit identifier's first two
    /// colon-separated pieces win, with the remote identifier's as the
    /// fallback.
    pub fn parse_rack_info(option82: &Option82Data) -> (r: Option<(String, String)>)
        ensures
            match (&option82.circuit_id, &option82.remote_id) {
                (Some(c), Some(rem)) => match rack_info_bytes(c@, rem@) {
                    Some((a, b)) => {
                        &&& r matches Some((s1, s2))
                        &&& s1@ == decoded(a)
                        &&& s2@ == decoded(b)
                    },
                    None => r is None,
                },
                _ => r is None,
            },
    {
        let c = match &option82.circuit_id {
            Some(c) => c,
            None => {
                return None;
            },
        };
        let rem = match &option82.remote_id {
            Some(rem) => rem,
            None => {
                return None;
            },
        };
        let cparts = split_bytes(c.as_slice(), 58);
        proof {
            assert(cparts@.map_values(|p: &[u8]| p@)[0] == cparts@[0]@);
        }
        if cparts.len() >= 2 {
            proof {
                assert(cparts@.map_values(|p: &[u8]| p@)[1] == cparts@[1]@);
            }
            let rack = lossy_string(cparts[0]);
            let port = lossy_string(cparts[1]);
            return Some((rack, port));
        }
        let rparts = split_bytes(rem.as_slice(), 58);
        proof {
            if !rem@.contains(58) {
                assert(split_on(rem@, 58).len() == 1);
            }
        }
        if rparts.len() >= 2 {
            proof {
                assert(rem@.contains(58)) by {
                    if !rem@.contains(58) {
                        assert(split_on(rem@, 58).len() == 1);
                    }
                }
                assert(rparts@.map_values(|p: &[u8]| p@)[0] == rparts@[0]@);
                assert(rparts@.map_values(|p: &[u8]| p@)[1] == rparts@[1]@);
            }
            let rack = lossy_string(rparts[0]);
            let port = lossy_string(rparts[1]);
            return Some((rack, port));
        }
        None
    }

    /// The switch and port a circuit identifier names, when it is exactly
    /// two colon-separated pieces.
    pub fn extract_switch_info(option82: &Option82Data) -> (r: Option<SwitchInfo>)
        ensures
            match &option82.circuit_id {
                Some(c) => {
                    if split_on(c@, 58).len() == 2 {
                        &&& r matches Some(info)
                        &&& info.switch_identifier@ == decoded(split_on(c@, 58)[0])
                        &&& info.port_identifier@ == decoded(split_on(c@, 58)[1])
                        &&& info.vlan_id is None
                    } else {
                        r is None
                    }
                },
                None => r is None,
            },
    {
        let c = match &option82.circuit_id {
            Some(c) => c,
            None => {
                return None;
            },
        };
        match Self::parse_hostname_port_bytes(c.as_slice()) {
            Some((switch, port)) => Some(
                SwitchInfo { switch_identifier: switch, port_identifier: port, vlan_id: None },
            ),
            None => None,
        }
    }

    /// Splits a circuit identifier of the form `host:port` into its two
    /// pieces.
    pub fn parse_hostname_port(circuit_str: &str) -> (r: Option<(String, String)>)
        ensures
            match r {
                Some((a, b)) => split_on(vstd::utf8::encode_utf8(circuit_str@), 58).len() == 2
                    && a@ == decoded(split_on(vstd::utf8::encode_utf8(circuit_str@), 58)[0]) && b@
                    == decoded(split_on(vstd::utf8::encode_utf8(circuit_str@), 58)[1]),
                None => split_on(vstd::utf8::encode_utf8(circuit_str@), 58).len() != 2,
            },
    {
        Self::parse_hostname_port_bytes(circuit_str.as_bytes())
    }

    /// Splits a circuit identifier of the form `vlan:port`, where the first
    /// piece is a decimal VLAN number.
    pub fn parse_vlan_port(circuit_str: &str) -> (r: Option<(u16, String)>)
        ensures
            match r {
                Some((v, b)) => {
                    let parts = split_on(vstd::utf8::encode_utf8(circuit_str@), 58);
                    parts.len() == 2 && parsed_dec_part(parts[0]) == Some(v) && b@ == decoded(
                        parts[1],
                    )
                },
                None => {
                    let parts = split_on(vstd::utf8::encode_utf8(circuit_str@), 58);
                    parts.len() != 2 || parsed_dec_part(parts[0]) is None
                },
            },
    {
        let parts = split_bytes(circuit_str.as_bytes(), 58);
        if parts.len() != 2 {
            return None;
        }
        proof {
            assert(parts@.map_values(|p: &[u8]| p@)[0] == parts@[0]@);
            assert(parts@.map_values(|p: &[u8]| p@)[1] == parts@[1]@);
        }
        match parse_dec_part(parts[0]) {
            Some(v) => Some((v, lossy_string(parts[1]))),
            None => None,
        }
    }

    /// Splits a byte circuit identifier of the form `host:port`.
    fn parse_hostname_port_bytes(c: &[u8]) -> (r: Option<(String, String)>)
        ensures
            match r {
                Some((a, b)) => split_on(c@, 58).len() == 2 && a@ == decoded(
                    split_on(c@, 58)[0],
                ) && b@ == decoded(split_on(c@, 58)[1]),
                None => split_on(c@, 58).len() != 2,
            },
    {
        let parts = split_bytes(c, 58);
        if parts.len() == 2 {
            proof {
                assert(parts@.map_values(|p: &[u8]| p@)[0] == parts@[0]@);
                assert(parts@.map_values(|p: &[u8]| p@)[1] == parts@[1]@);
            }
            let a = lossy_string(parts[0]);
            let b = lossy_string(parts[1]);
            Some((a, b))
        } else {
            None
        }
    }
}

} // verus!
