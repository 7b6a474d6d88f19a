//! Resolved endpoint addresses.
//!
//! An address is held as its numeric value (a 32-bit word for IPv4, a 128-bit
//! word for IPv6, both in network order when read as bytes), so that packet
//! parsing and target bookkeeping can reason about it as a plain integer.

use vstd::prelude::*;
use vstd::string::StringExecFns;

verus! {

/// The character for one digit value below 16, lower case.
pub open spec fn digit_char(d: u8) -> char {
    match d {
        0 => '0',
        1 => '1',
        2 => '2',
        3 => '3',
        4 => '4',
        5 => '5',
        6 => '6',
        7 => '7',
        8 => '8',
        9 => '9',
        10 => 'a',
        11 => 'b',
        12 => 'c',
        13 => 'd',
        14 => 'e',
        15 => 'f',
        _ => '?',
    }
}

/// The decimal digits of a byte, without leading zeros.
pub open spec fn dec_chars(x: u8) -> Seq<char> {
    if x < 10 {
        seq![digit_char(x)]
    } else if x < 100 {
        seq![digit_char(x / 10), digit_char(x % 10)]
    } else {
        seq![digit_char(x / 100), digit_char((x / 10) % 10), digit_char(x % 10)]
    }
}

/// The four hexadecimal digits of a 16-bit group, zero-padded.
pub open spec fn hex_chars(g: u16) -> Seq<char> {
    seq![
        digit_char((g / 4096) as u8),
        digit_char(((g / 256) % 16) as u8),
        digit_char(((g / 16) % 16) as u8),
        digit_char((g % 16) as u8),
    ]
}

/// The address family of a target.
#[derive(Clone, Copy, Debug, PartialEq, Eq, Structural)]
pub enum AddrFamily {
    V4,
    V6,
}

/// Returns the one-character text of a digit value below 16.
fn digit_str(d: u8) -> (s: &'static str)
    requires
        d < 16,
    ensures
        s@ =~= seq![digit_char(d)],
{
    proof {
        reveal_strlit("0");
        reveal_strlit("1");
        reveal_strlit("2");
        reveal_strlit("3");
        reveal_strlit("4");
        reveal_strlit("5");
        reveal_strlit("6");
        reveal_strlit("7");
        reveal_strlit("8");
        reveal_strlit("9");
        reveal_strlit("a");
        reveal_strlit("b");
        reveal_strlit("c");
        reveal_strlit("d");
        reveal_strlit("e");
        reveal_strlit("f");
    }
    match d {
        0 => "0",
        1 => "1",
        2 => "2",
        3 => "3",
        4 => "4",
        5 => "5",
        6 => "6",
        7 => "7",
        8 => "8",
        9 => "9",
        10 => "a",
        11 => "b",
        12 => "c",
        13 => "d",
        14 => "e",
        _ => "f",
    }
}

/// Appends one digit character.
fn push_digit(s: &mut String, d: u8)
    requires
        d < 16,
    ensures
        final(s)@ == old(s)@ + seq![digit_char(d)],
{
    s.append(digit_str(d));
}

/// Appends a separator: a colon for IPv6 groups, a dot for IPv4 octets.
fn push_sep(s: &mut String, colon: bool)
    ensures
        final(s)@ == old(s)@ + seq![if colon { ':' } else { '.' }],
{
    proof {
        reveal_strlit(":");
        reveal_strlit(".");
    }
    if colon {
        s.append(":");
    } else {
        s.append(".");
    }
    proof {
        assert(s@ =~= old(s)@ + seq![if colon { ':' } else { '.' }]);
    }
}

/// Appends the decimal digits of a byte, without leading zeros.
fn push_dec(s: &mut String, x: u8)
    ensures
        final(s)@ == old(s)@ + dec_chars(x),
{
    if x < 10 {
        push_digit(s, x);
    } else if x < 100 {
        push_digit(s, x / 10);
        push_digit(s, x % 10);
    } else {
        push_digit(s, x / 100);
        push_digit(s, (x / 10) % 10);
        push_digit(s, x % 10);
    }
    proof {
        assert(s@ =~= old(s)@ + dec_chars(x));
    }
}

/// Appends the four zero-padded hexadecimal digits of a 16-bit group.
fn push_hex(s: &mut String, g: u16)
    ensures
        final(s)@ == old(s)@ + hex_chars(g),
{
    push_digit(s, (g / 4096) as u8);
    push_digit(s, ((g / 256) % 16) as u8);
    push_digit(s, ((g / 16) % 16) as u8);
    push_digit(s, (g % 16) as u8);
    proof {
        assert(s@ =~= old(s)@ + hex_chars(g));
    }
}

/// A resolved IP address, stored as its numeric value.
///
/// For IPv4 the octets `a.b.c.d` form the value
/// `a * 2^24 + b * 2^16 + c * 2^8 + d`; IPv6 analogously over 16 octets.
#[derive(Clone, Copy, Debug, PartialEq, Eq, Structural)]
pub enum IpAddress {
    V4(u32),
    V6(u128),
}

impl IpAddress {
    /// The family an address belongs to.
    pub open spec fn spec_family(self) -> AddrFamily {
        match self {
            IpAddress::V4(_) => AddrFamily::V4,
            IpAddress::V6(_) => AddrFamily::V6,
        }
    }

    /// Returns the family this address belongs to.
    pub fn family(&self) -> (f: AddrFamily)
        ensures
            f == self.spec_family(),
    {
        match self {
            IpAddress::V4(_) => AddrFamily::V4,
            IpAddress::V6(_) => AddrFamily::V6,
        }
    }

    /// The `i`-th octet of an IPv4 address value, leftmost first.
    pub open spec fn v4_octet(a: u32, i: int) -> u8 {
        if i == 0 {
            (a / 0x1000000) as u8
        } else if i == 1 {
            ((a / 0x10000) % 256) as u8
        } else if i == 2 {
            ((a / 0x100) % 256) as u8
        } else {
            (a % 256) as u8
        }
    }

    /// The `k`-th 16-bit group of an IPv6 address value, leftmost first.
    pub open spec fn v6_group(a: u128, k: int) -> u16 {
        if k == 0 {
            ((a / 0x1_0000_0000_0000_0000_0000_0000_0000) % 0x10000) as u16
        } else if k == 1 {
            ((a / 0x1_0000_0000_0000_0000_0000_0000) % 0x10000) as u16
        } else if k == 2 {
            ((a / 0x1_0000_0000_0000_0000_0000) % 0x10000) as u16
        } else if k == 3 {
            ((a / 0x1_0000_0000_0000_0000) % 0x10000) as u16
        } else if k == 4 {
            ((a / 0x1_0000_0000_0000) % 0x10000) as u16
        } else if k == 5 {
            ((a / 0x1_0000_0000) % 0x10000) as u16
        } else if k == 6 {
            ((a / 0x1_0000) % 0x10000) as u16
        } else {
            (a % 0x10000) as u16
        }
    }

    /// The textual form of an address: dotted decimal for IPv4, eight
    /// colon-separated zero-padded hexadecimal groups for IPv6.
    pub open spec fn addr_chars(self) -> Seq<char> {
        match self {
            IpAddress::V4(a) => dec_chars(Self::v4_octet(a, 0)) + seq!['.'] + dec_chars(
                Self::v4_octet(a, 1),
            ) + seq!['.'] + dec_chars(Self::v4_octet(a, 2)) + seq!['.'] + dec_chars(
                Self::v4_octet(a, 3),
            ),
            IpAddress::V6(a) => hex_chars(Self::v6_group(a, 0)) + seq![':'] + hex_chars(
                Self::v6_group(a, 1),
            ) + seq![':'] + hex_chars(Self::v6_group(a, 2)) + seq![':'] + hex_chars(
                Self::v6_group(a, 3),
            ) + seq![':'] + hex_chars(Self::v6_group(a, 4)) + seq![':'] + hex_chars(
                Self::v6_group(a, 5),
            ) + seq![':'] + hex_chars(Self::v6_group(a, 6)) + seq![':'] + hex_chars(
                Self::v6_group(a, 7),
            ),
        }
    }

    /// Formats the address as text, dotted decimal for IPv4 and eight
    /// zero-padded hexadecimal groups for IPv6.
    pub fn to_text(&self) -> (r: String)
        ensures
            r@ == self.addr_chars(),
    {
        let mut s = String::new();
        match self {
            IpAddress::V4(a) => {
                push_dec(&mut s, (*a / 0x1000000) as u8);
                push_sep(&mut s, false);
                push_dec(&mut s, ((*a / 0x10000) % 256) as u8);
                push_sep(&mut s, false);
                push_dec(&mut s, ((*a / 0x100) % 256) as u8);
                push_sep(&mut s, false);
                push_dec(&mut s, (*a % 256) as u8);
            },
            IpAddress::V6(a) => {
                push_hex(&mut s, ((*a / 0x1_0000_0000_0000_0000_0000_0000_0000) % 0x10000) as u16);
                push_sep(&mut s, true);
                push_hex(&mut s, ((*a / 0x1_0000_0000_0000_0000_0000_0000) % 0x10000) as u16);
                push_sep(&mut s, true);
                push_hex(&mut s, ((*a / 0x1_0000_0000_0000_0000_0000) % 0x10000) as u16);
                push_sep(&mut s, true);
                push_hex(&mut s, ((*a / 0x1_0000_0000_0000_0000) % 0x10000) as u16);
                push_sep(&mut s, true);
                push_hex(&mut s, ((*a / 0x1_0000_0000_0000) % 0x10000) as u16);
                push_sep(&mut s, true);
                push_hex(&mut s, ((*a / 0x1_0000_0000) % 0x10000) as u16);
                push_sep(&mut s, true);
                push_hex(&mut s, ((*a / 0x1_0000) % 0x10000) as u16);
                push_sep(&mut s, true);
                push_hex(&mut s, (*a % 0x10000) as u16);
            },
        }
        proof {
            assert(s@ =~= self.addr_chars());
        }
        s
    }

    /// The numeric value of the IPv4 address with dotted-quad octets `a.b.c.d`.
    pub open spec fn v4_value(a: u8, b: u8, c: u8, d: u8) -> u32 {
        (a * 0x1000000 + b * 0x10000 + c * 0x100 + d) as u32
    }

    /// Builds an IPv4 address from its four dotted-quad octets.
    pub fn from_octets_v4(a: u8, b: u8, c: u8, d: u8) -> (r: IpAddress)
        ensures
            r == IpAddress::V4(IpAddress::v4_value(a, b, c, d)),
    {
        IpAddress::V4(
            (a as u32) * 0x1000000 + (b as u32) * 0x10000 + (c as u32) * 0x100 + (d as u32),
        )
    }
}

} // verus!
