//! Reading field elements and byte strings from text: decimal integers,
//! `0x`-prefixed big-endian hex, and fixed-length hex values.

use crate::field::{
    amount_fr, be_nat, fr_from_be_bytes_mod_order, fr_modulus, is_fe, lemma_be_nat_injective,
    right_align, Bytes32,
};
use crate::groth16::{hex0x_chars, hex_lower, nibble_char};
use vstd::prelude::*;
use vstd::std_specs::iter::IteratorSpec;

verus! {

/// Why a text value was refused.
#[derive(Clone, Copy, Debug, PartialEq, Eq)]
pub enum ParseError {
    /// Not an even number of hex digits.
    BadHex,
    /// A hex field element longer than 32 bytes.
    TooLong,
    /// Neither `0x`-hex nor a decimal integer below `2^128`.
    BadDecimal,
    /// A hex value of the wrong number of bytes.
    BadLength,
}

/// `c` has the Unicode `White_Space` property (what `str::trim` removes).
pub open spec fn is_white_space(c: char) -> bool {
    let u = c as u32;
    ||| 9 <= u <= 13
    ||| u == 32
    ||| u == 0x85
    ||| u == 0xA0
    ||| u == 0x1680
    ||| 0x2000 <= u <= 0x200A
    ||| u == 0x2028
    ||| u == 0x2029
    ||| u == 0x202F
    ||| u == 0x205F
    ||| u == 0x3000
}

/// `s` without its leading white space.
pub open spec fn trim_start(s: Seq<char>) -> Seq<char>
    decreases s.len(),
{
    if s.len() > 0 && is_white_space(s[0]) {
        trim_start(s.drop_first())
    } else {
        s
    }
}

/// `s` without its trailing white space.
pub open spec fn trim_end(s: Seq<char>) -> Seq<char>
    decreases s.len(),
{
    if s.len() > 0 && is_white_space(s.last()) {
        trim_end(s.drop_last())
    } else {
        s
    }
}

/// `s` without leading and trailing white space.
pub open spec fn trimmed(s: Seq<char>) -> Seq<char> {
    trim_end(trim_start(s))
}

/// The value of a hex digit (either case), or -1.
pub open spec fn hex_value(c: char) -> int {
    let u = c as u32;
    if 48 <= u <= 57 {
        u - 48
    } else if 97 <= u <= 102 {
        u - 87
    } else if 65 <= u <= 70 {
        u - 55
    } else {
        -1
    }
}

/// An even number of hex digits.
pub open spec fn hex_ok(cs: Seq<char>) -> bool {
    cs.len() % 2 == 0 && forall|i: int| 0 <= i < cs.len() ==> #[trigger] hex_value(cs[i]) >= 0
}

/// The bytes an even run of hex digits spells, two digits a byte, high first.
pub open spec fn hex_bytes(cs: Seq<char>) -> Seq<u8> {
    Seq::new(cs.len() / 2, |i: int| (hex_value(cs[2 * i]) * 16 + hex_value(cs[2 * i + 1])) as u8)
}

/// `s` starts with `0x`.
pub open spec fn has_hex_prefix(s: Seq<char>) -> bool {
    s.len() >= 2 && s[0] == '0' && s[1] == 'x'
}

/// The decimal value of a run of ASCII digits.
pub open spec fn decimal_value(ds: Seq<char>) -> nat
    decreases ds.len(),
{
    if ds.len() == 0 {
        0
    } else {
        decimal_value(ds.drop_last()) * 10 + ((ds.last() as u32) - 48) as nat
    }
}

/// A run of ASCII digits.
pub open spec fn all_digits(ds: Seq<char>) -> bool {
    forall|i: int| 0 <= i < ds.len() ==> 48 <= (#[trigger] ds[i] as u32) <= 57
}

/// The digits of an unsigned decimal: an optional `+`, then the rest.
pub open spec fn unsigned_digits(s: Seq<char>) -> Seq<char> {
    if s.len() > 0 && s[0] == '+' {
        s.drop_first()
    } else {
        s
    }
}

/// What `str::parse::<u128>` accepts: an optional `+` and at least one ASCII
/// digit, nothing else, of value below `2^128`.
pub open spec fn decimal_ok(s: Seq<char>) -> bool {
    let ds = unsigned_digits(s);
    ds.len() > 0 && all_digits(ds) && decimal_value(ds) <= u128::MAX
}

/// The value `parse_fr` reads from `s`, or why it refuses it.
pub open spec fn parse_fr_value(s: Seq<char>) -> Result<nat, ParseError> {
    let t = trimmed(s);
    if has_hex_prefix(t) {
        let h = t.subrange(2, t.len() as int);
        let h2 = if h.len() % 2 == 1 {
            seq!['0'] + h
        } else {
            h
        };
        if !hex_ok(h2) {
            Err(ParseError::BadHex)
        } else if hex_bytes(h2).len() > 32 {
            Err(ParseError::TooLong)
        } else {
            Ok(be_nat(hex_bytes(h2)) % fr_modulus())
        }
    } else if decimal_ok(t) {
        Ok(decimal_value(unsigned_digits(t)))
    } else {
        Err(ParseError::BadDecimal)
    }
}

/// The hex digits of a value written with an optional `0x`, surrounding white
/// space ignored.
pub open spec fn hex_digits(s: Seq<char>) -> Seq<char> {
    let t = trimmed(s);
    if has_hex_prefix(t) {
        t.subrange(2, t.len() as int)
    } else {
        t
    }
}

/// Calls `str::trim`. Claimed, as its documentation says: leading and
/// trailing `White_Space` characters removed.
#[verifier::external_body]
fn trim_str(s: &str) -> (r: &str)
    ensures
        r@ == trimmed(s@),
{
    s.trim()
}

/// Calls `hex::decode` on the digits (collected into a string). Claimed, as
/// the crate documents: success exactly on an even number of hex digits of
/// either case, giving two digits a byte.
#[verifier::external_body]
fn hex_decode(digits: &[char]) -> (r: Option<Vec<u8>>)
    ensures
        (r is Some) == hex_ok(digits@),
        r is Some ==> r->0@ == hex_bytes(digits@),
{
    let s: String = digits.iter().collect();
    hex::decode(s).ok()
}

/// Calls `str::parse::<u128>` on the characters (collected into a string).
/// Claimed, as `u128::from_str` documents: an optional `+` then decimal
/// digits only, and no overflow.
#[verifier::external_body]
fn parse_u128(cs: &[char]) -> (r: Option<u128>)
    ensures
        (r is Some) == decimal_ok(cs@),
        r is Some ==> r->0 == decimal_value(unsigned_digits(cs@)),
{
    let s: String = cs.iter().collect();
    s.parse::<u128>().ok()
}

/// The characters of a string.
fn chars_of(s: &str) -> (r: Vec<char>)
    ensures
        r@ == s@,
{
    broadcast use vstd::string::group_string_axioms;

    let mut out: Vec<char> = Vec::new();
    let mut it = s.chars();
    loop
        invariant
            it.obeys_prophetic_iter_laws(),
            it.decrease() is Some,
            out@ + it.remaining() == s@,
        decreases it.decrease()->0,
    {
        let ghost before = it;
        match it.next() {
            Some(c) => {
                proof {
                    assert(out@.push(c) + it.remaining() =~= out@ + before.remaining());
                }
                out.push(c);
            },
            None => {
                assert(out@ =~= s@);
                return out;
            },
        }
    }
}

/// The characters from position `from` on.
fn tail_from(cs: &Vec<char>, from: usize) -> (r: Vec<char>)
    requires
        from <= cs@.len(),
    ensures
        r@ == cs@.subrange(from as int, cs@.len() as int),
{
    let mut out: Vec<char> = Vec::new();
    let mut i = from;
    while i < cs.len()
        invariant
            from <= i <= cs@.len(),
            out@ == cs@.subrange(from as int, i as int),
        decreases cs@.len() - i,
    {
        out.push(cs[i]);
        i = i + 1;
        assert(out@ =~= cs@.subrange(from as int, i as int));
    }
    out
}

/// The hex digits of `s`: trimmed, without a `0x` prefix.
fn digits_of(s: &str) -> (r: Vec<char>)
    ensures
        r@ == hex_digits(s@),
{
    let t = trim_str(s);
    let cs = chars_of(t);
    if cs.len() >= 2 && cs[0] == '0' && cs[1] == 'x' {
        tail_from(&cs, 2)
    } else {
        cs
    }
}

/// Parse a field element from a `0x`-prefixed big-endian hex string (up to
/// 32 bytes; an odd digit count gets a leading `0`) reduced modulo `r`, or
/// from a decimal integer below `2^128`. Surrounding white space is ignored.
pub fn parse_fr(s: &str) -> (r: Result<Bytes32, ParseError>)
    ensures
        parse_fr_value(s@) matches Err(e) ==> r == Err::<Bytes32, ParseError>(e),
        parse_fr_value(s@) matches Ok(v) ==> (r matches Ok(b) && be_nat(b@) == v && is_fe(b@)),
{
    let t = trim_str(s);
    let cs = chars_of(t);
    if cs.len() >= 2 && cs[0] == '0' && cs[1] == 'x' {
        let h = tail_from(&cs, 2);
        let h2 = if h.len() % 2 == 1 {
            let mut p: Vec<char> = Vec::new();
            p.push('0');
            let mut i: usize = 0;
            while i < h.len()
                invariant
                    i <= h@.len(),
                    p@ == seq!['0'] + h@.subrange(0, i as int),
                decreases h@.len() - i,
            {
                p.push(h[i]);
                i = i + 1;
                assert(p@ =~= seq!['0'] + h@.subrange(0, i as int));
            }
            assert(h@.subrange(0, h@.len() as int) =~= h@);
            p
        } else {
            h
        };
        let bytes = match hex_decode(h2.as_slice()) {
            Some(b) => b,
            None => {
                return Err(ParseError::BadHex);
            },
        };
        if bytes.len() > 32 {
            return Err(ParseError::TooLong);
        }
        let buf = right_align(&bytes);
        Ok(fr_from_be_bytes_mod_order(buf.as_slice()))
    } else {
        match parse_u128(cs.as_slice()) {
            Some(v) => Ok(amount_fr(v)),
            None => Err(ParseError::BadDecimal),
        }
    }
}

/// The bytes of a hex value written with an optional `0x` (surrounding white
/// space ignored).
pub fn parse_hex(s: &str) -> (r: Result<Vec<u8>, ParseError>)
    ensures
        !hex_ok(hex_digits(s@)) ==> r == Err::<Vec<u8>, ParseError>(ParseError::BadHex),
        hex_ok(hex_digits(s@)) ==> (r matches Ok(b) && b@ == hex_bytes(hex_digits(s@))),
{
    let ds = digits_of(s);
    match hex_decode(ds.as_slice()) {
        Some(b) => Ok(b),
        None => Err(ParseError::BadHex),
    }
}

/// Parse a fixed 32-byte value from a hex string with an optional `0x`.
pub fn parse_bytes32(s: &str) -> (r: Result<Bytes32, ParseError>)
    ensures
        !hex_ok(hex_digits(s@)) ==> r == Err::<Bytes32, ParseError>(ParseError::BadHex),
        hex_ok(hex_digits(s@)) && hex_bytes(hex_digits(s@)).len() != 32 ==> r == Err::<Bytes32, ParseError>(
            ParseError::BadLength,
        ),
        hex_ok(hex_digits(s@)) && hex_bytes(hex_digits(s@)).len() == 32 ==> (r matches Ok(b) && b@
            == hex_bytes(hex_digits(s@))),
{
    let bytes = match parse_hex(s) {
        Ok(b) => b,
        Err(e) => {
            return Err(e);
        },
    };
    if bytes.len() != 32 {
        return Err(ParseError::BadLength);
    }
    let buf = right_align(&bytes);
    proof {
        assert(buf@ =~= bytes@);
    }
    Ok(buf)
}

/// Check that a hex value (optional `0x`) decodes to exactly `want_bytes`
/// bytes.
pub fn check_hex_len(hex_str: &str, want_bytes: usize) -> (r: Result<(), ParseError>)
    ensures
        !hex_ok(hex_digits(hex_str@)) ==> r == Err::<(), ParseError>(ParseError::BadHex),
        hex_ok(hex_digits(hex_str@)) ==> (r is Ok <==> hex_bytes(hex_digits(hex_str@)).len() == want_bytes),
        r is Err ==> r == Err::<(), ParseError>(ParseError::BadHex) || r == Err::<(), ParseError>(
            ParseError::BadLength,
        ),
{
    let bytes = match parse_hex(hex_str) {
        Ok(b) => b,
        Err(e) => {
            return Err(e);
        },
    };
    if bytes.len() != want_bytes {
        return Err(ParseError::BadLength);
    }
    Ok(())
}

/// Parse a decimal amount below `2^128` (surrounding white space ignored).
pub fn parse_amount(s: &str) -> (r: Result<u128, ParseError>)
    ensures
        decimal_ok(trimmed(s@)) ==> r == Ok::<u128, ParseError>(decimal_value(unsigned_digits(trimmed(s@))) as u128),
        !decimal_ok(trimmed(s@)) ==> r == Err::<u128, ParseError>(ParseError::BadDecimal),
{
    let t = trim_str(s);
    let cs = chars_of(t);
    match parse_u128(cs.as_slice()) {
        Some(v) => Ok(v),
        None => Err(ParseError::BadDecimal),
    }
}

/// A lowercase hex digit reads back as the nibble it was written from.
proof fn lemma_nibble_roundtrip(x: int)
    requires
        0 <= x < 16,
    ensures
        hex_value(nibble_char(x)) == x,
        !is_white_space(nibble_char(x)),
{
}

/// The digits of lowercase hex read back as the bytes they were written from.
proof fn lemma_hex_lower_roundtrip(b: Seq<u8>)
    ensures
        hex_ok(hex_lower(b)),
        hex_bytes(hex_lower(b)) == b,
{
    let h = hex_lower(b);
    assert forall|i: int| 0 <= i < h.len() implies #[trigger] hex_value(h[i]) >= 0 by {
        lemma_nibble_roundtrip(b[i / 2] as int / 16);
        lemma_nibble_roundtrip(b[i / 2] as int % 16);
    }
    assert forall|i: int| 0 <= i < b.len() implies #[trigger] hex_bytes(h)[i] == b[i] by {
        assert((2 * i) / 2 == i);
        assert((2 * i + 1) / 2 == i);
        assert((2 * i) % 2 == 0);
        assert((2 * i + 1) % 2 == 1);
        lemma_nibble_roundtrip(b[i] as int / 16);
        lemma_nibble_roundtrip(b[i] as int % 16);
    }
    assert(hex_bytes(h) =~= b);
}

/// Reading back what hex encoding wrote: `0x` and the lowercase hex of up to
/// 32 bytes parse as their big-endian value reduced modulo `r`, so a
/// canonical field element comes back as itself. Its 32 bytes are the only
/// ones of that value, so `parse_fr` returns exactly those bytes.
pub proof fn law_parse_fr_reads_hex0x(b: Seq<u8>)
    requires
        b.len() <= 32,
    ensures
        parse_fr_value(hex0x_chars(b)) == Ok::<nat, ParseError>(be_nat(b) % fr_modulus()),
        is_fe(b) ==> parse_fr_value(hex0x_chars(b)) == Ok::<nat, ParseError>(be_nat(b)),
        is_fe(b) ==> forall|c: Seq<u8>| c.len() == 32 && #[trigger] be_nat(c) == be_nat(b) ==> c == b,
{
    let s = hex0x_chars(b);
    let h = hex_lower(b);
    assert(s[0] == '0');
    assert(!is_white_space(s[0]));
    assert(trim_start(s) == s);
    if b.len() > 0 {
        assert(s.last() == h[h.len() - 1]);
        lemma_nibble_roundtrip(b[b.len() - 1] as int % 16);
    } else {
        assert(s.last() == 'x');
    }
    assert(!is_white_space(s.last()));
    assert(trim_end(s) == s);
    assert(trimmed(s) == s);
    assert(s.subrange(2, s.len() as int) =~= h);
    lemma_hex_lower_roundtrip(b);
    if is_fe(b) {
        vstd::arithmetic::div_mod::lemma_small_mod(be_nat(b), fr_modulus());
        assert forall|c: Seq<u8>| c.len() == 32 && #[trigger] be_nat(c) == be_nat(b) implies c == b by {
            lemma_be_nat_injective(c, b);
        }
    }
}

} // verus!
