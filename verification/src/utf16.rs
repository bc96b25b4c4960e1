//! UTF-16 little-endian encoding and decoding of character sequences.
//!
//! String values of the store are held as UTF-16-LE code units serialized
//! to bytes. This module defines the encoding at the specification level
//! ([`units_of`], [`bytes_of_units`]), the matching decoders, executable
//! conversions, and the round-trip laws that the value codec relies on.

use vstd::prelude::*;

verus! {

use vstd::string::StrSliceExecFns;

/// A code unit in `0xD800..=0xDBFF`: the first half of a surrogate pair.
pub open spec fn is_high_surrogate(u: u16) -> bool {
    0xD800 <= u <= 0xDBFF
}

/// A code unit in `0xDC00..=0xDFFF`: the second half of a surrogate pair.
pub open spec fn is_low_surrogate(u: u16) -> bool {
    0xDC00 <= u <= 0xDFFF
}

/// The scalar value encoded by a surrogate pair.
pub open spec fn combined_scalar(hi: u16, lo: u16) -> u32 {
    (0x10000 + 0x400 * (hi - 0xD800) + (lo - 0xDC00)) as u32
}

/// The UTF-16 code units of one character: one unit for a scalar below
/// `0x10000`, a surrogate pair otherwise.
pub open spec fn char_units(c: char) -> Seq<u16> {
    if (c as u32) < 0x10000 {
        seq![c as u16]
    } else {
        seq![
            (0xD800 + ((c as u32) - 0x10000) / 0x400) as u16,
            (0xDC00 + ((c as u32) - 0x10000) % 0x400) as u16,
        ]
    }
}

/// The UTF-16 code units of a character sequence, in order.
pub open spec fn units_of(s: Seq<char>) -> Seq<u16>
    decreases s.len(),
{
    if s.len() == 0 {
        Seq::empty()
    } else {
        char_units(s[0]) + units_of(s.skip(1))
    }
}

/// The characters encoded by a sequence of UTF-16 code units; `None` when
/// the sequence is not valid UTF-16 (a lone or misordered surrogate).
pub open spec fn decode_units(u: Seq<u16>) -> Option<Seq<char>>
    decreases u.len(),
{
    if u.len() == 0 {
        Some(Seq::empty())
    } else if is_high_surrogate(u[0]) {
        if u.len() >= 2 && is_low_surrogate(u[1]) {
            match decode_units(u.skip(2)) {
                Some(rest) => Some(seq![combined_scalar(u[0], u[1]) as char] + rest),
                None => None,
            }
        } else {
            None
        }
    } else if is_low_surrogate(u[0]) {
        None
    } else {
        match decode_units(u.skip(1)) {
            Some(rest) => Some(seq![((u[0] as u32) as char)] + rest),
            None => None,
        }
    }
}

/// The little-endian bytes of a sequence of code units.
pub open spec fn bytes_of_units(u: Seq<u16>) -> Seq<u8> {
    Seq::new(
        2 * u.len(),
        |i: int| if i % 2 == 0 { (u[i / 2] % 256) as u8 } else { (u[i / 2] / 256) as u8 },
    )
}

/// The code units read from little-endian bytes, two bytes each; a
/// trailing odd byte is ignored.
pub open spec fn units_of_bytes(b: Seq<u8>) -> Seq<u16> {
    Seq::new(b.len() / 2, |i: int| (b[2 * i] + 256 * b[2 * i + 1]) as u16)
}

/// Reading back the little-endian bytes of any unit sequence yields the
/// unit sequence itself.
pub proof fn lemma_units_bytes_roundtrip(u: Seq<u16>)
    ensures
        units_of_bytes(bytes_of_units(u)) == u,
{
    let b = bytes_of_units(u);
    assert forall|i: int| 0 <= i < u.len() implies units_of_bytes(b)[i] == u[i] by {
        assert(b[2 * i] == (u[i] % 256) as u8);
        assert(b[2 * i + 1] == (u[i] / 256) as u8);
        assert(u[i] % 256 + 256 * (u[i] / 256) == u[i]);
    }
    assert(units_of_bytes(b) =~= u);
}

/// Round trip at the unit level: decoding the code units of any character
/// sequence yields the sequence itself.
pub proof fn lemma_decode_of_units(s: Seq<char>)
    ensures
        decode_units(units_of(s)) == Some(s),
    decreases s.len(),
{
    if s.len() == 0 {
    } else {
        let c = s[0];
        let v = c as u32;
        vstd::utf8::char_is_scalar(c);
        vstd::utf8::char_u32_cast(c, v);
        lemma_decode_of_units(s.skip(1));
        let u = units_of(s);
        let rest = units_of(s.skip(1));
        assert(u == char_units(c) + rest);
        if v < 0x10000 {
            assert(char_units(c) == seq![c as u16]);
            assert(u[0] == (c as u16));
            assert((u[0] as u32) == v);
            assert(u.skip(1) =~= rest);
            assert(!is_high_surrogate(u[0]) && !is_low_surrogate(u[0]));
            assert(decode_units(u) == Some(seq![((u[0] as u32) as char)] + s.skip(1)));
            assert(((u[0] as u32) as char) == c);
            assert(seq![c] + s.skip(1) =~= s);
        } else {
            let d = (v - 0x10000) as u32;
            assert(d / 0x400 <= 0x3FF);
            let hi = (0xD800 + d / 0x400) as u16;
            let lo = (0xDC00 + d % 0x400) as u16;
            assert(char_units(c) == seq![hi, lo]);
            assert(u[0] == hi && u[1] == lo);
            assert(is_high_surrogate(hi));
            assert(is_low_surrogate(lo));
            assert(u.skip(2) =~= rest);
            assert(0x400 * (d / 0x400) + d % 0x400 == d);
            assert(combined_scalar(hi, lo) == v);
            assert(decode_units(u) == Some(seq![(combined_scalar(u[0], u[1]) as char)] + s.skip(1)));
            assert((combined_scalar(hi, lo) as char) == c);
            assert(seq![c] + s.skip(1) =~= s);
        }
    }
}

/// Relies on char::from_u32: `Some` of the character with the given
/// numeric value exactly on Unicode scalar values, `None` otherwise.
#[verifier::external_body]
fn char_from_u32(v: u32) -> (r: Option<char>)
    ensures
        r == (if v <= 0x10FFFF && !(0xD800 <= v <= 0xDFFF) {
            Some(v as char)
        } else {
            None::<char>
        }),
{
    char::from_u32(v)
}

/// Relies on String::push: appends one character to the string.
#[verifier::external_body]
pub(crate) fn push_char(s: &mut String, c: char)
    ensures
        final(s)@ == old(s)@.push(c),
{
    s.push(c);
}

/// The UTF-16 code units of a string, in character order.
pub fn encode_utf16_str(s: &str) -> (r: Vec<u16>)
    ensures
        r@ == units_of(s@),
{
    let n = s.unicode_len();
    let mut r: Vec<u16> = Vec::new();
    let mut i: usize = 0;
    proof {
        assert(s@.skip(0) =~= s@);
        assert(r@ + units_of(s@) =~= units_of(s@));
    }
    while i < n
        invariant
            i <= n,
            n == s@.len(),
            units_of(s@) == r@ + units_of(s@.skip(i as int)),
        decreases n - i,
    {
        let c = s.get_char(i);
        let ghost prevr = r@;
        proof {
            vstd::utf8::char_is_scalar(c);
            assert(s@.skip(i as int)[0] == c);
            assert(s@.skip(i as int).skip(1) =~= s@.skip(i as int + 1));
            assert(units_of(s@.skip(i as int)) == char_units(c) + units_of(s@.skip(i as int + 1)));
        }
        let v = c as u32;
        if v < 0x10000 {
            r.push(c as u16);
        } else {
            let d = v - 0x10000;
            r.push(0xD800 + (d / 0x400) as u16);
            r.push(0xDC00 + (d % 0x400) as u16);
        }
        proof {
            assert(r@ =~= prevr + char_units(c));
            assert(r@ + units_of(s@.skip(i as int + 1)) =~= prevr + units_of(s@.skip(i as int)));
        }
        i = i + 1;
    }
    proof {
        assert(s@.skip(n as int) =~= Seq::<char>::empty());
        assert(r@ =~= units_of(s@));
    }
    r
}

/// The characters of a sequence of UTF-16 code units, as a string; `None`
/// when the units are not valid UTF-16.
pub fn utf16_to_string(u: &Vec<u16>) -> (r: Option<String>)
    ensures
        match r {
            Some(s) => decode_units(u@) == Some(s@),
            None => decode_units(u@) is None,
        },
{
    let mut out = String::new();
    let mut i: usize = 0;
    proof {
        assert(u@.skip(0) =~= u@);
        if decode_units(u@) is Some {
            assert(out@ + decode_units(u@).unwrap() =~= decode_units(u@).unwrap());
        }
    }
    while i < u.len()
        invariant
            i <= u@.len(),
            (decode_units(u@) is Some) == (decode_units(u@.skip(i as int)) is Some),
            decode_units(u@) is Some ==> decode_units(u@) == Some(
                out@ + decode_units(u@.skip(i as int)).unwrap(),
            ),
        decreases u@.len() - i,
    {
        let x = u[i];
        let ghost prev = out@;
        proof {
            assert(u@.skip(i as int)[0] == u@[i as int]);
        }
        if 0xD800 <= x && x <= 0xDBFF {
            if i + 1 >= u.len() {
                proof {
                    assert(decode_units(u@.skip(i as int)) is None);
                }
                return None;
            }
            let y = u[i + 1];
            proof {
                assert(u@.skip(i as int)[1] == u@[i as int + 1]);
            }
            if !(0xDC00 <= y && y <= 0xDFFF) {
                proof {
                    assert(decode_units(u@.skip(i as int)) is None);
                }
                return None;
            }
            let v: u32 = 0x10000 + 0x400 * ((x - 0xD800) as u32) + ((y - 0xDC00) as u32);
            proof {
                assert(v == combined_scalar(x, y));
                assert(u@.skip(i as int).skip(2) =~= u@.skip(i as int + 2));
            }
            match char_from_u32(v) {
                Some(c) => {
                    push_char(&mut out, c);
                    proof {
                        if decode_units(u@) is Some {
                            let rest = decode_units(u@.skip(i as int + 2)).unwrap();
                            assert(prev + (seq![c] + rest) =~= out@ + rest);
                        }
                    }
                    i = i + 2;
                },
                None => {
                    proof {
                        assert(false);
                    }
                },
            }
        } else if 0xDC00 <= x && x <= 0xDFFF {
            proof {
                assert(decode_units(u@.skip(i as int)) is None);
            }
            return None;
        } else {
            proof {
                assert(u@.skip(i as int).skip(1) =~= u@.skip(i as int + 1));
            }
            match char_from_u32(x as u32) {
                Some(c) => {
                    push_char(&mut out, c);
                    proof {
                        if decode_units(u@) is Some {
                            let rest = decode_units(u@.skip(i as int + 1)).unwrap();
                            assert(prev + (seq![c] + rest) =~= out@ + rest);
                        }
                    }
                    i = i + 1;
                },
                None => {
                    proof {
                        assert(false);
                    }
                },
            }
        }
    }
    proof {
        assert(u@.skip(u@.len() as int) =~= Seq::<u16>::empty());
        if decode_units(u@) is Some {
            assert(out@ + Seq::<char>::empty() =~= out@);
        }
    }
    Some(out)
}

/// The little-endian bytes of a sequence of code units.
pub fn units_to_bytes(u: &Vec<u16>) -> (r: Vec<u8>)
    ensures
        r@ == bytes_of_units(u@),
{
    let mut r: Vec<u8> = Vec::new();
    let mut i: usize = 0;
    while i < u.len()
        invariant
            i <= u@.len(),
            r@.len() == 2 * i,
            forall|j: int| 0 <= j < 2 * i ==> r@[j] == bytes_of_units(u@)[j],
        decreases u@.len() - i,
    {
        let x = u[i];
        r.push((x % 256) as u8);
        r.push((x / 256) as u8);
        proof {
            assert(r@[2 * i as int] == (u@[i as int] % 256) as u8);
            assert(r@[2 * i as int + 1] == (u@[i as int] / 256) as u8);
        }
        i = i + 1;
    }
    proof {
        assert(r@ =~= bytes_of_units(u@));
    }
    r
}

/// The code units read from little-endian bytes; a trailing odd byte is
/// ignored.
pub fn bytes_to_units(b: &Vec<u8>) -> (r: Vec<u16>)
    ensures
        r@ == units_of_bytes(b@),
{
    let n = b.len() / 2;
    let mut r: Vec<u16> = Vec::new();
    let mut i: usize = 0;
    while i < n
        invariant
            i <= n,
            n == b@.len() / 2,
            r@.len() == i,
            forall|j: int| 0 <= j < i ==> r@[j] == units_of_bytes(b@)[j],
        decreases n - i,
    {
        proof {
            assert(b@.len() == b.len());
            assert(2 * (i as int) + 1 < b@.len());
        }
        let lo = b[2 * i];
        let hi = b[2 * i + 1];
        let x: u16 = (lo as u16) + 256 * (hi as u16);
        r.push(x);
        i = i + 1;
    }
    proof {
        assert(r@ =~= units_of_bytes(b@));
    }
    r
}

} // verus!
