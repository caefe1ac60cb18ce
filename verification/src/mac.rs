//! Ethernet MAC addresses: six bytes, read from and written to the usual
//! colon-separated hexadecimal form.

use vstd::prelude::*;
use vstd::slice::slice_subrange;
use vstd::string::{StringExecFns, StringSliceAdditionalSpecFns};
use crate::text::{
    hex_char, hex_digit_value, hex_value, is_hex_digit, lemma_hex_value_monotone, push_hex_char,
    split_bytes, split_on,
};

verus! {

/// A six-byte Ethernet hardware address.
#[derive(Debug, Clone)]
pub struct MacAddress(pub [u8; 6]);

impl View for MacAddress {
    type V = Seq<u8>;

    open spec fn view(&self) -> Seq<u8> {
        self.0@
    }
}

/// The value a string of hexadecimal digits stands for, when there is at
/// least one digit and the value is below 256.
pub open spec fn parsed_hex_digits(digits: Seq<u8>) -> Option<u8> {
    if digits.len() == 0 {
        None
    } else if exists|j: int| 0 <= j < digits.len() && !is_hex_digit(digits[j]) {
        None
    } else if hex_value(digits) > 255 {
        None
    } else {
        Some(hex_value(digits) as u8)
    }
}

/// The value a colon-separated hexadecimal part stands for: an optional
/// leading `+`, then at least one hexadecimal digit, with a value below 256.
pub open spec fn parsed_hex_part(part: Seq<u8>) -> Option<u8> {
    parsed_hex_digits(
        if part.len() > 0 && part[0] == 43 {
            part.skip(1)
        } else {
            part
        },
    )
}

/// The six bytes a textual MAC address stands for: exactly six parts
/// separated by colons, each a hexadecimal byte.
pub open spec fn parsed_mac(b: Seq<u8>) -> Option<Seq<u8>> {
    let parts = split_on(b, 58);
    if parts.len() != 6 {
        None
    } else if exists|k: int| 0 <= k < 6 && parsed_hex_part(parts[k]) is None {
        None
    } else {
        Some(Seq::new(6, |k: int| parsed_hex_part(parts[k]).unwrap()))
    }
}

/// The canonical lowercase text form of a six-byte MAC address.
pub open spec fn mac_chars(b: Seq<u8>) -> Seq<char>
    recommends
        b.len() == 6,
{
    seq![
        hex_char((b[0] / 16) as u8),
        hex_char((b[0] % 16) as u8),
        ':',
        hex_char((b[1] / 16) as u8),
        hex_char((b[1] % 16) as u8),
        ':',
        hex_char((b[2] / 16) as u8),
        hex_char((b[2] % 16) as u8),
        ':',
        hex_char((b[3] / 16) as u8),
        hex_char((b[3] % 16) as u8),
        ':',
        hex_char((b[4] / 16) as u8),
        hex_char((b[4] % 16) as u8),
        ':',
        hex_char((b[5] / 16) as u8),
        hex_char((b[5] % 16) as u8),
    ]
}

/// Parses one hexadecimal part of a MAC address.
fn parse_hex_part(p: &[u8]) -> (r: Option<u8>)
    ensures
        r == parsed_hex_part(p@),
{
    let start: usize = if p.len() > 0 && p[0] == 43 {
        1
    } else {
        0
    };
    let ghost digits = if p@.len() > 0 && p@[0] == 43 {
        p@.skip(1)
    } else {
        p@
    };
    proof {
        assert(digits =~= p@.skip(start as int));
        assert(parsed_hex_part(p@) == parsed_hex_digits(digits));
    }
    if p.len() == start {
        return None;
    }
    let mut v: u32 = 0;
    let mut i = start;
    while i < p.len()
        invariant
            start <= i <= p@.len(),
            start <= 1,
            digits == p@.skip(start as int),
            parsed_hex_part(p@) == parsed_hex_digits(digits),
            forall|j: int| start <= j < i ==> is_hex_digit(p@[j]),
            forall|j: int| 0 <= j < i - start ==> is_hex_digit(digits[j]),
            v == hex_value(digits.take(i - start)),
            v <= 255,
        decreases p@.len() - i,
    {
        let c = p[i];
        let d: u8 = if 48 <= c && c <= 57 {
            c - 48
        } else if 97 <= c && c <= 102 {
            c - 87
        } else if 65 <= c && c <= 70 {
            c - 55
        } else {
            proof {
                assert(0 <= i - start < digits.len());
                assert(!is_hex_digit(digits[i - start]));
                assert(exists|j: int| 0 <= j < digits.len() && !is_hex_digit(digits[j]));
                assert(parsed_hex_digits(digits) is None);
            }
            return None;
        };
        v = v * 16 + d as u32;
        proof {
            assert(digits.take(i - start + 1).drop_last() =~= digits.take(i - start));
            assert(digits.take(i - start + 1).last() == p@[i as int]);
        }
        if v > 255 {
            proof {
                lemma_hex_value_monotone(digits, i - start + 1);
                assert(hex_value(digits.take(i - start + 1)) == v);
                assert(hex_value(digits) >= v);
                assert(parsed_hex_digits(digits) is None);
            }
            return None;
        }
        i += 1;
    }
    proof {
        assert(digits.take(p@.len() - start) =~= digits);
    }
    Some(v as u8)
}

impl MacAddress {
    /// Wraps six raw bytes as a MAC address.
    pub fn new(bytes: [u8; 6]) -> (r: MacAddress)
        ensures
            r@ == bytes@,
    {
        MacAddress(bytes)
    }

    /// Parses the colon-separated hexadecimal form, as in
    /// `aa:bb:cc:dd:ee:ff`.
    pub fn from_string(s: &str) -> (r: Result<MacAddress, String>)
        ensures
            match r {
                Ok(m) => parsed_mac(s.spec_bytes()) == Some(m@),
                Err(_) => parsed_mac(s.spec_bytes()) is None,
            },
    {
        let b = s.as_bytes();
        let parts = split_bytes(b, 58);
        let ghost spec_parts = split_on(b@, 58);
        if parts.len() != 6 {
            return Err(String::from_str("Invalid MAC address format"));
        }
        let mut out: [u8; 6] = [0u8; 6];
        let mut k: usize = 0;
        while k < 6
            invariant
                k <= 6,
                parts@.map_values(|p: &[u8]| p@) == spec_parts,
                spec_parts == split_on(s.spec_bytes(), 58),
                parts@.len() == 6,
                spec_parts.len() == 6,
                forall|j: int|
                    0 <= j < k ==> parsed_hex_part(spec_parts[j]) == Some(out@[j]),
            decreases 6 - k,
        {
            let r = parse_hex_part(parts[k]);
            proof {
                assert(parts@.map_values(|p: &[u8]| p@)[k as int] == parts@[k as int]@);
                assert(r == parsed_hex_part(spec_parts[k as int]));
            }
            match r {
                Some(v) => {
                    out[k] = v;
                },
                None => {
                    proof {
                        assert(parsed_hex_part(spec_parts[k as int]) is None);
                    }
                    return Err(String::from_str("Invalid hex digit in MAC address"));
                },
            }
            k += 1;
        }
        proof {
            assert(parsed_mac(s.spec_bytes()) == Some(Seq::new(6, |j: int| parsed_hex_part(
                spec_parts[j],
            ).unwrap())));
            assert(Seq::new(6, |j: int| parsed_hex_part(spec_parts[j]).unwrap()) =~= out@);
        }
        Ok(MacAddress(out))
    }

    /// The canonical lowercase text form, as in `aa:bb:cc:dd:ee:ff`.
    pub fn to_string(&self) -> (r: String)
        ensures
            r@ == mac_chars(self@),
    {
        let mut s = String::new();
        proof {
            reveal_strlit(":");
        }
        push_hex_char(&mut s, self.0[0] / 16);
        push_hex_char(&mut s, self.0[0] % 16);
        s.append(":");
        push_hex_char(&mut s, self.0[1] / 16);
        push_hex_char(&mut s, self.0[1] % 16);
        s.append(":");
        push_hex_char(&mut s, self.0[2] / 16);
        push_hex_char(&mut s, self.0[2] % 16);
        s.append(":");
        push_hex_char(&mut s, self.0[3] / 16);
        push_hex_char(&mut s, self.0[3] % 16);
        s.append(":");
        push_hex_char(&mut s, self.0[4] / 16);
        push_hex_char(&mut s, self.0[4] % 16);
        s.append(":");
        push_hex_char(&mut s, self.0[5] / 16);
        push_hex_char(&mut s, self.0[5] % 16);
        proof {
            assert(s@ =~= mac_chars(self@));
        }
        s
    }

    /// The raw six bytes.
    pub fn bytes(&self) -> (r: &[u8; 6])
        ensures
            r@ == self@,
    {
        &self.0
    }

    /// Whether two addresses hold the same six bytes.
    pub fn same_as(&self, other: &MacAddress) -> (r: bool)
        ensures
            r == (self@ == other@),
    {
        let r = self.0[0] == other.0[0] && self.0[1] == other.0[1] && self.0[2] == other.0[2]
            && self.0[3] == other.0[3] && self.0[4] == other.0[4] && self.0[5] == other.0[5];
        proof {
            if r {
                assert(self@ =~= other@);
            }
        }
        r
    }
}

} // verus!
