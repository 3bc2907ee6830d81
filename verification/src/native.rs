//! Numbers as the bytes of the machine.
//!
//! The structures of the kernel hold numbers in the byte order of the machine.
//! Each function here takes that order as an argument; [`is_little`] asks the
//! machine for it.

use vstd::prelude::*;

verus! {

/// `u16::from_ne_bytes`: the number of two bytes, in one of the two orders; which
/// one depends on the machine. It is public so that the contract of [`is_little`] can
/// speak of it.
#[verifier::external_body]
pub fn native_pair(a: u8, b: u8) -> (r: u16)
    ensures
        r == a + 256 * b || r == 256 * a + b,
{
    u16::from_ne_bytes([a, b])
}

/// Whether the machine puts the low byte first.
pub fn is_little() -> (r: bool)
    ensures
        exists|n: u16| #[trigger] call_ensures(native_pair, (1u8, 0u8), n) && r == (n == 1),
{
    native_pair(1, 0) == 1
}

/// The bytes of a number of sixteen bits.
pub open spec fn bytes16(n: u16, little: bool) -> Seq<u8> {
    if little {
        seq![(n % 256) as u8, (n / 256) as u8]
    } else {
        seq![(n / 256) as u8, (n % 256) as u8]
    }
}

/// The number of two bytes.
pub open spec fn number16(b: Seq<u8>, little: bool) -> u16 {
    if little {
        (b[0] + 256 * b[1]) as u16
    } else {
        (b[1] + 256 * b[0]) as u16
    }
}

/// A signed number as the unsigned one with the same bits.
pub open spec fn unsigned(v: i32) -> u32 {
    if v < 0 {
        (v + 0x1_0000_0000) as u32
    } else {
        v as u32
    }
}

/// An unsigned number as the signed one with the same bits.
pub open spec fn signed(u: u32) -> i32 {
    if u < 0x8000_0000 {
        u as i32
    } else {
        (u - 0x1_0000_0000) as i32
    }
}

/// The bytes of a number of thirty-two bits.
pub open spec fn bytes32(u: u32, little: bool) -> Seq<u8> {
    if little {
        seq![
            (u % 256) as u8,
            (u / 256 % 256) as u8,
            (u / 65536 % 256) as u8,
            (u / 16777216) as u8,
        ]
    } else {
        seq![
            (u / 16777216) as u8,
            (u / 65536 % 256) as u8,
            (u / 256 % 256) as u8,
            (u % 256) as u8,
        ]
    }
}

/// The number of four bytes.
pub open spec fn number32(b: Seq<u8>, little: bool) -> u32 {
    if little {
        (b[0] + 256 * b[1] + 65536 * b[2] + 16777216 * b[3]) as u32
    } else {
        (b[3] + 256 * b[2] + 65536 * b[1] + 16777216 * b[0]) as u32
    }
}

/// The bytes of a signed number.
pub open spec fn bytes_signed(v: i32, little: bool) -> Seq<u8> {
    bytes32(unsigned(v), little)
}

/// The signed number of four bytes.
pub open spec fn number_signed(b: Seq<u8>, little: bool) -> i32 {
    signed(number32(b, little))
}

/// The bytes of a number are read back as that number, in either order.
pub proof fn law_bytes_round_trip(n: u16, u: u32, v: i32, little: bool)
    ensures
        number16(bytes16(n, little), little) == n,
        number32(bytes32(u, little), little) == u,
        number_signed(bytes_signed(v, little), little) == v,
{
    lemma_word(u);
    lemma_word(unsigned(v));
}

proof fn lemma_word(u: u32)
    ensures
        u % 256 + 256 * (u / 256 % 256) + 65536 * (u / 65536 % 256) + 16777216 * (u / 16777216)
            == u,
{
}

/// The bytes of a number of sixteen bits.
pub fn put16(n: u16, little: bool) -> (r: [u8; 2])
    ensures
        r@ == bytes16(n, little),
{
    let lo: u8 = (n % 256) as u8;
    let hi: u8 = (n / 256) as u8;
    if little {
        let r: [u8; 2] = [lo, hi];
        assert(r@ == bytes16(n, little));
        r
    } else {
        let r: [u8; 2] = [hi, lo];
        assert(r@ == bytes16(n, little));
        r
    }
}

/// The number of two bytes.
pub fn get16(a: u8, b: u8, little: bool) -> (r: u16)
    ensures
        r == number16(seq![a, b], little),
{
    if little {
        a as u16 + 256 * b as u16
    } else {
        b as u16 + 256 * a as u16
    }
}

/// The bytes of a signed number.
pub fn put_signed(v: i32, little: bool) -> (r: [u8; 4])
    ensures
        r@ == bytes_signed(v, little),
{
    let u: u32 = if v < 0 {
        (v as i64 + 0x1_0000_0000) as u32
    } else {
        v as u32
    };
    let a: u8 = (u % 256) as u8;
    let b: u8 = (u / 256 % 256) as u8;
    let c: u8 = (u / 65536 % 256) as u8;
    let d: u8 = (u / 16777216) as u8;
    if little {
        let r: [u8; 4] = [a, b, c, d];
        assert(r@ == bytes_signed(v, little));
        r
    } else {
        let r: [u8; 4] = [d, c, b, a];
        assert(r@ == bytes_signed(v, little));
        r
    }
}

/// The signed number of four bytes.
pub fn get_signed(a: u8, b: u8, c: u8, d: u8, little: bool) -> (r: i32)
    ensures
        r == number_signed(seq![a, b, c, d], little),
{
    let u: u32 = if little {
        a as u32 + 256 * b as u32 + 65536 * c as u32 + 16777216 * d as u32
    } else {
        d as u32 + 256 * c as u32 + 65536 * b as u32 + 16777216 * a as u32
    };
    if u < 0x8000_0000 {
        u as i32
    } else {
        (u as i64 - 0x1_0000_0000) as i32
    }
}

/// The order of the bytes is what it is called: the low byte stands first, or last.
pub proof fn law_byte_order(n: u16, u: u32)
    ensures
        bytes16(n, true).len() == 2 && bytes16(n, true)[0] + 256 * bytes16(n, true)[1] == n,
        bytes16(n, false).len() == 2 && 256 * bytes16(n, false)[0] + bytes16(n, false)[1] == n,
        bytes32(u, true).len() == 4 && bytes32(u, true)[0] + 256 * bytes32(u, true)[1] + 65536
            * bytes32(u, true)[2] + 16777216 * bytes32(u, true)[3] == u,
        bytes32(u, false).len() == 4 && bytes32(u, false)[3] + 256 * bytes32(u, false)[2] + 65536
            * bytes32(u, false)[1] + 16777216 * bytes32(u, false)[0] == u,
{
    lemma_word(u);
}

/// A negative number is the one that lacks as much to the whole range.
pub proof fn law_signs(v: i32)
    ensures
        v >= 0 ==> unsigned(v) == v,
        v < 0 ==> unsigned(v) - v == 0x1_0000_0000,
        signed(unsigned(v)) == v,
{
}

} // verus!
