//! Account addresses: 32 bytes, written as 64 hex digits with an optional
//! `0x` prefix.

use vstd::prelude::*;

verus! {

/// Number of bytes in an address.
pub const ADDRESS_LEN: usize = 32;

/// An account address.
#[derive(Clone, Debug, PartialEq, Eq)]
pub struct Address {
    pub bytes: Vec<u8>,
}

impl Address {
    pub open spec fn wf(&self) -> bool {
        self.bytes@.len() == ADDRESS_LEN
    }
}

pub open spec fn is_hex_digit(c: char) -> bool {
    ('0' <= c && c <= '9') || ('a' <= c && c <= 'f') || ('A' <= c && c <= 'F')
}

pub open spec fn hex_value(c: char) -> nat {
    if '0' <= c && c <= '9' {
        (c as int - '0' as int) as nat
    } else if 'a' <= c && c <= 'f' {
        (c as int - 'a' as int + 10) as nat
    } else {
        (c as int - 'A' as int + 10) as nat
    }
}

/// The text of an address without its `0x` prefix, if it has one.
pub open spec fn address_body(s: Seq<char>) -> Seq<char> {
    if s.len() >= 2 && s[0] == '0' && s[1] == 'x' {
        s.skip(2)
    } else {
        s
    }
}

pub open spec fn is_address_text(s: Seq<char>) -> bool {
    let b = address_body(s);
    b.len() == 2 * ADDRESS_LEN && forall|i: int| 0 <= i < b.len() ==> is_hex_digit(#[trigger] b[i])
}

/// The bytes that an address text denotes, two hex digits each, high digit first.
pub open spec fn address_bytes(s: Seq<char>) -> Seq<u8> {
    let b = address_body(s);
    Seq::new(ADDRESS_LEN as nat, |i: int| (hex_value(b[2 * i]) * 16 + hex_value(b[2 * i + 1])) as u8)
}

fn hex_digit_value(c: char) -> (r: Option<u8>)
    ensures
        r is Some <==> is_hex_digit(c),
        r matches Some(v) ==> v as nat == hex_value(c) && v < 16,
{
    if '0' <= c && c <= '9' {
        Some((c as u32 - '0' as u32) as u8)
    } else if 'a' <= c && c <= 'f' {
        Some((c as u32 - 'a' as u32 + 10) as u8)
    } else if 'A' <= c && c <= 'F' {
        Some((c as u32 - 'A' as u32 + 10) as u8)
    } else {
        None
    }
}

/// Parses an address: 64 hex digits of either case, optionally prefixed by `0x`.
pub fn parse_address(s: &str) -> (r: Option<Address>)
    ensures
        r is Some <==> is_address_text(s@),
        r matches Some(a) ==> a.wf() && a.bytes@ == address_bytes(s@),
{
    let n: usize = s.unicode_len();
    let start: usize = if n >= 2 && s.get_char(0) == '0' && s.get_char(1) == 'x' {
        2
    } else {
        0
    };
    let ghost b = address_body(s@);
    proof {
        assert(b.len() == n - start);
        assert(forall|i: int| 0 <= i < b.len() ==> b[i] == s@[start + i]);
    }
    if n - start != 2 * ADDRESS_LEN {
        return None;
    }
    let mut bytes: Vec<u8> = Vec::new();
    let mut j: usize = 0;
    while j < ADDRESS_LEN
        invariant
            n == s@.len(),
            b == address_body(s@),
            b.len() == 2 * ADDRESS_LEN,
            n - start == 2 * ADDRESS_LEN,
            forall|i: int| 0 <= i < b.len() ==> b[i] == s@[start + i],
            j <= ADDRESS_LEN,
            bytes@.len() == j,
            forall|i: int| 0 <= i < 2 * j ==> is_hex_digit(#[trigger] b[i]),
            forall|i: int|
                0 <= i < j ==> bytes@[i] == (hex_value(b[2 * i]) * 16 + hex_value(b[2 * i + 1])) as u8,
        decreases ADDRESS_LEN - j,
    {
        let hi = hex_digit_value(s.get_char(start + 2 * j));
        let lo = hex_digit_value(s.get_char(start + 2 * j + 1));
        match (hi, lo) {
            (Some(h), Some(l)) => {
                bytes.push(h * 16 + l);
            },
            _ => {
                proof {
                    assert(!is_hex_digit(b[2 * j as int]) || !is_hex_digit(b[2 * j + 1]));
                }
                return None;
            },
        }
        j = j + 1;
    }
    proof {
        assert(bytes@ =~= address_bytes(s@));
    }
    Some(Address { bytes })
}

} // verus!
