//! The value codec: the bidirectional mapping between native typed values
//! and the store's untyped byte-plus-type-tag representation.
//!
//! Each supported native type implements [`ToRegValue`] and
//! [`FromRegValue`]; the encoding of each is pinned down by a spec
//! function, and the round-trip laws at the end of the module state that
//! decoding an encoded value yields the value back.

use vstd::prelude::*;

verus! {

use crate::enums::RegType;
use crate::utf16::bytes_of_units;
use crate::utf16::char_units;
use crate::utf16::bytes_to_units;
use crate::utf16::decode_units;
use crate::utf16::encode_utf16_str;
use crate::utf16::lemma_decode_of_units;
use crate::utf16::lemma_units_bytes_roundtrip;
use crate::utf16::units_of;
use crate::utf16::units_of_bytes;
use crate::utf16::units_to_bytes;
use crate::utf16::utf16_to_string;
use crate::RegError;
use crate::RegResult;
use crate::RegValue;
use crate::RegValueM;
use crate::ERROR_BAD_FILE_TYPE;
use crate::ERROR_INVALID_BLOCK;

// ---------------------------------------------------------------------
// Strings (tag "sz")
// ---------------------------------------------------------------------

/// The bytes of a string value: its UTF-16-LE code units followed by one
/// NUL code unit.
pub open spec fn sz_bytes(s: Seq<char>) -> Seq<u8> {
    bytes_of_units(units_of(s).push(0))
}

/// The raw value a string encodes to.
pub open spec fn sz_value(s: Seq<char>) -> RegValueM {
    RegValueM { bytes: sz_bytes(s), vtype: RegType::REG_SZ }
}

/// The given units without their trailing NUL, if one is present.
pub open spec fn strip_one_nul(u: Seq<u16>) -> Seq<u16> {
    if u.len() > 0 && u.last() == 0 {
        u.drop_last()
    } else {
        u
    }
}

/// What decoding a raw value as a string yields: the characters, or the
/// error code. Accepts the string, expandable-string and link tags;
/// strips exactly one trailing NUL code unit if present; a trailing odd
/// byte is ignored.
pub open spec fn decode_sz(v: RegValueM) -> Result<Seq<char>, u32> {
    if v.vtype == RegType::REG_SZ || v.vtype == RegType::REG_EXPAND_SZ || v.vtype
        == RegType::REG_LINK {
        match decode_units(strip_one_nul(units_of_bytes(v.bytes))) {
            Some(s) => Ok(s),
            None => Err(ERROR_INVALID_BLOCK),
        }
    } else {
        Err(ERROR_BAD_FILE_TYPE)
    }
}

// ---------------------------------------------------------------------
// Integers (tags "dword" and "qword")
// ---------------------------------------------------------------------

/// The 4 little-endian bytes of a 32-bit integer.
pub open spec fn dword_bytes(x: u32) -> Seq<u8> {
    seq![
        (x % 256) as u8,
        ((x / 256) % 256) as u8,
        ((x / 65536) % 256) as u8,
        ((x / 16777216) % 256) as u8,
    ]
}

/// The raw value a 32-bit integer encodes to.
pub open spec fn dword_value(x: u32) -> RegValueM {
    RegValueM { bytes: dword_bytes(x), vtype: RegType::REG_DWORD }
}

/// What decoding a raw value as a 32-bit integer yields. The tag must be
/// "dword" and the blob exactly 4 bytes long.
pub open spec fn decode_dword(v: RegValueM) -> Result<u32, u32> {
    if v.vtype != RegType::REG_DWORD {
        Err(ERROR_BAD_FILE_TYPE)
    } else if v.bytes.len() != 4 {
        Err(ERROR_INVALID_BLOCK)
    } else {
        Ok(
            (v.bytes[0] + 256 * v.bytes[1] + 65536 * v.bytes[2] + 16777216 * v.bytes[3]) as u32,
        )
    }
}

/// The 8 little-endian bytes of a 64-bit integer.
pub open spec fn qword_bytes(x: u64) -> Seq<u8> {
    seq![
        (x % 256) as u8,
        ((x / 0x100) % 256) as u8,
        ((x / 0x10000) % 256) as u8,
        ((x / 0x1000000) % 256) as u8,
        ((x / 0x100000000) % 256) as u8,
        ((x / 0x10000000000) % 256) as u8,
        ((x / 0x1000000000000) % 256) as u8,
        ((x / 0x100000000000000) % 256) as u8,
    ]
}

/// The raw value a 64-bit integer encodes to.
pub open spec fn qword_value(x: u64) -> RegValueM {
    RegValueM { bytes: qword_bytes(x), vtype: RegType::REG_QWORD }
}

/// What decoding a raw value as a 64-bit integer yields. The tag must be
/// "qword" and the blob exactly 8 bytes long.
pub open spec fn decode_qword(v: RegValueM) -> Result<u64, u32> {
    if v.vtype != RegType::REG_QWORD {
        Err(ERROR_BAD_FILE_TYPE)
    } else if v.bytes.len() != 8 {
        Err(ERROR_INVALID_BLOCK)
    } else {
        Ok(
            (v.bytes[0] + 0x100 * v.bytes[1] + 0x10000 * v.bytes[2] + 0x1000000 * v.bytes[3]
                + 0x100000000 * v.bytes[4] + 0x10000000000 * v.bytes[5] + 0x1000000000000
                * v.bytes[6] + 0x100000000000000 * v.bytes[7]) as u64,
        )
    }
}

// ---------------------------------------------------------------------
// String sequences (tag "multi-sz")
// ---------------------------------------------------------------------

/// The code units of a string sequence: each element NUL-terminated, in
/// order, followed by one additional terminating NUL. An empty sequence
/// encodes to a single NUL.
pub open spec fn multi_units(v: Seq<Seq<char>>) -> Seq<u16>
    decreases v.len(),
{
    if v.len() == 0 {
        seq![0u16]
    } else {
        units_of(v[0]).push(0) + multi_units(v.skip(1))
    }
}

/// The raw value a string sequence encodes to.
pub open spec fn multi_value(v: Seq<Seq<char>>) -> RegValueM {
    RegValueM { bytes: bytes_of_units(multi_units(v)), vtype: RegType::REG_MULTI_SZ }
}

/// Index of the first NUL code unit, or the length if there is none.
pub open spec fn first_nul(u: Seq<u16>) -> int
    decreases u.len(),
{
    if u.len() == 0 {
        0
    } else if u[0] == 0 {
        0
    } else {
        1 + first_nul(u.skip(1))
    }
}

/// The first NUL lies within the sequence.
pub proof fn lemma_first_nul_bounds(u: Seq<u16>)
    ensures
        0 <= first_nul(u) <= u.len(),
    decreases u.len(),
{
    if u.len() == 0 {
    } else if u[0] == 0 {
    } else {
        lemma_first_nul_bounds(u.skip(1));
    }
}

/// The string sequence encoded by the given code units: segments split on
/// NUL boundaries, the final empty segment produced by the terminator
/// dropped, order preserved. A missing final terminator is tolerated by
/// treating end-of-buffer as an implicit terminator. `None` when a
/// segment is not valid UTF-16.
pub open spec fn parse_multi(u: Seq<u16>) -> Option<Seq<Seq<char>>>
    decreases u.len(),
    via parse_multi_decreases
{
    if u.len() == 0 {
        Some(seq![])
    } else if u.len() == 1 && u[0] == 0 {
        Some(seq![])
    } else if u[0] == 0 {
        match parse_multi(u.skip(1)) {
            Some(r) => Some(seq![Seq::<char>::empty()] + r),
            None => None,
        }
    } else {
        let i = first_nul(u);
        let rest = if i < u.len() {
            parse_multi(u.skip(i + 1))
        } else {
            Some(seq![])
        };
        match (decode_units(u.subrange(0, i)), rest) {
            (Some(s), Some(r)) => Some(seq![s] + r),
            _ => None,
        }
    }
}

#[via_fn]
proof fn parse_multi_decreases(u: Seq<u16>) {
    lemma_first_nul_bounds(u);
}

/// What decoding a raw value as a string sequence yields. The tag must be
/// "multi-sz"; a trailing odd byte is ignored.
pub open spec fn decode_multi(v: RegValueM) -> Result<Seq<Seq<char>>, u32> {
    if v.vtype != RegType::REG_MULTI_SZ {
        Err(ERROR_BAD_FILE_TYPE)
    } else {
        match parse_multi(units_of_bytes(v.bytes)) {
            Some(r) => Ok(r),
            None => Err(ERROR_INVALID_BLOCK),
        }
    }
}

// ---------------------------------------------------------------------
// Codec traits
// ---------------------------------------------------------------------

/// A native type that encodes to a raw value. The encoding is pinned down
/// by `to_spec`.
pub trait ToRegValue {
    /// The raw content this value encodes to.
    spec fn to_spec(&self) -> RegValueM;

    /// Encode this value.
    fn to_reg_value(&self) -> (r: RegValue)
        ensures
            r@ == self.to_spec(),
    ;
}

/// A native type that raw values decode to. The decoding is pinned down
/// by `from_spec`, stated over the type's mathematical model.
pub trait FromRegValue: Sized {
    /// Mathematical model of a decoded value.
    type M;

    /// The model of this value.
    spec fn m(&self) -> Self::M;

    /// What decoding the given raw content yields: the model of the
    /// result, or the numeric error code.
    spec fn from_spec(v: RegValueM) -> Result<Self::M, u32>;

    /// Decode a raw value.
    fn from_reg_value(val: &RegValue) -> (r: RegResult<Self>)
        ensures
            match r {
                Ok(t) => Self::from_spec(val@) == Ok::<Self::M, u32>(t.m()),
                Err(e) => Self::from_spec(val@) == Err::<Self::M, u32>(e.err),
            },
    ;
}

/// The string value holding the given characters.
fn sz_value_of(s: &str) -> (r: RegValue)
    ensures
        r@ == sz_value(s@),
{
    let mut units = encode_utf16_str(s);
    units.push(0);
    let bytes = units_to_bytes(&units);
    RegValue { bytes, vtype: RegType::REG_SZ }
}

impl ToRegValue for String {
    open spec fn to_spec(&self) -> RegValueM {
        sz_value(self@)
    }

    fn to_reg_value(&self) -> (r: RegValue) {
        sz_value_of(self.as_str())
    }
}

impl ToRegValue for &str {
    open spec fn to_spec(&self) -> RegValueM {
        sz_value((*self)@)
    }

    fn to_reg_value(&self) -> (r: RegValue) {
        sz_value_of(*self)
    }
}

impl FromRegValue for String {
    type M = Seq<char>;

    open spec fn m(&self) -> Seq<char> {
        self@
    }

    open spec fn from_spec(v: RegValueM) -> Result<Seq<char>, u32> {
        decode_sz(v)
    }

    fn from_reg_value(val: &RegValue) -> (r: RegResult<Self>) {
        match val.vtype {
            RegType::REG_SZ | RegType::REG_EXPAND_SZ | RegType::REG_LINK => {
                let mut units = bytes_to_units(&val.bytes);
                let ghost orig = units@;
                if units.len() > 0 && units[units.len() - 1] == 0 {
                    units.pop();
                }
                proof {
                    assert(units@ =~= strip_one_nul(orig));
                }
                match utf16_to_string(&units) {
                    Some(s) => Ok(s),
                    None => Err(RegError { err: ERROR_INVALID_BLOCK }),
                }
            },
            _ => Err(RegError { err: ERROR_BAD_FILE_TYPE }),
        }
    }
}

impl ToRegValue for u32 {
    open spec fn to_spec(&self) -> RegValueM {
        dword_value(*self)
    }

    fn to_reg_value(&self) -> (r: RegValue) {
        let x = *self;
        let mut bytes: Vec<u8> = Vec::new();
        bytes.push((x % 256) as u8);
        bytes.push(((x / 256) % 256) as u8);
        bytes.push(((x / 65536) % 256) as u8);
        bytes.push(((x / 16777216) % 256) as u8);
        proof {
            assert(bytes@ =~= dword_bytes(x));
        }
        RegValue { bytes, vtype: RegType::REG_DWORD }
    }
}

impl FromRegValue for u32 {
    type M = u32;

    open spec fn m(&self) -> u32 {
        *self
    }

    open spec fn from_spec(v: RegValueM) -> Result<u32, u32> {
        decode_dword(v)
    }

    fn from_reg_value(val: &RegValue) -> (r: RegResult<Self>) {
        if !(val.vtype == RegType::REG_DWORD) {
            Err(RegError { err: ERROR_BAD_FILE_TYPE })
        } else if val.bytes.len() != 4 {
            Err(RegError { err: ERROR_INVALID_BLOCK })
        } else {
            let b = &val.bytes;
            let x: u32 = (b[0] as u32) + 256 * (b[1] as u32) + 65536 * (b[2] as u32) + 16777216
                * (b[3] as u32);
            Ok(x)
        }
    }
}

impl ToRegValue for u64 {
    open spec fn to_spec(&self) -> RegValueM {
        qword_value(*self)
    }

    fn to_reg_value(&self) -> (r: RegValue) {
        let x = *self;
        let mut bytes: Vec<u8> = Vec::new();
        bytes.push((x % 256) as u8);
        bytes.push(((x / 0x100) % 256) as u8);
        bytes.push(((x / 0x10000) % 256) as u8);
        bytes.push(((x / 0x1000000) % 256) as u8);
        bytes.push(((x / 0x100000000) % 256) as u8);
        bytes.push(((x / 0x10000000000) % 256) as u8);
        bytes.push(((x / 0x1000000000000) % 256) as u8);
        bytes.push(((x / 0x100000000000000) % 256) as u8);
        proof {
            assert(bytes@ =~= qword_bytes(x));
        }
        RegValue { bytes, vtype: RegType::REG_QWORD }
    }
}

impl FromRegValue for u64 {
    type M = u64;

    open spec fn m(&self) -> u64 {
        *self
    }

    open spec fn from_spec(v: RegValueM) -> Result<u64, u32> {
        decode_qword(v)
    }

    fn from_reg_value(val: &RegValue) -> (r: RegResult<Self>) {
        if !(val.vtype == RegType::REG_QWORD) {
            Err(RegError { err: ERROR_BAD_FILE_TYPE })
        } else if val.bytes.len() != 8 {
            Err(RegError { err: ERROR_INVALID_BLOCK })
        } else {
            let b = &val.bytes;
            let x: u64 = (b[0] as u64) + 0x100 * (b[1] as u64) + 0x10000 * (b[2] as u64)
                + 0x1000000 * (b[3] as u64) + 0x100000000 * (b[4] as u64) + 0x10000000000 * (
            b[5] as u64) + 0x1000000000000 * (b[6] as u64) + 0x100000000000000 * (b[7] as u64);
            Ok(x)
        }
    }
}

impl ToRegValue for Vec<String> {
    open spec fn to_spec(&self) -> RegValueM {
        multi_value(self.deep_view())
    }

    fn to_reg_value(&self) -> (r: RegValue) {
        let ghost dv = self.deep_view();
        let mut units: Vec<u16> = Vec::new();
        let mut i: usize = 0;
        proof {
            assert(dv.skip(0) =~= dv);
            assert(units@ + multi_units(dv) =~= multi_units(dv));
        }
        while i < self.len()
            invariant
                i <= self@.len(),
                dv == self.deep_view(),
                dv.len() == self@.len(),
                multi_units(dv) == units@ + multi_units(dv.skip(i as int)),
            decreases self@.len() - i,
        {
            let ghost prev = units@;
            let mut one = encode_utf16_str(self[i].as_str());
            units.append(&mut one);
            units.push(0);
            proof {
                assert(dv.skip(i as int)[0] == dv[i as int]);
                assert(dv[i as int] == self@[i as int]@);
                assert(dv.skip(i as int).skip(1) =~= dv.skip(i as int + 1));
                assert(multi_units(dv.skip(i as int)) == units_of(dv[i as int]).push(0)
                    + multi_units(dv.skip(i as int + 1)));
                assert(units@ =~= prev + units_of(dv[i as int]).push(0));
                assert(units@ + multi_units(dv.skip(i as int + 1)) =~= prev + multi_units(
                    dv.skip(i as int),
                ));
            }
            i = i + 1;
        }
        units.push(0);
        proof {
            assert(dv.skip(self@.len() as int) =~= Seq::<Seq<char>>::empty());
            assert(units@ =~= multi_units(dv));
        }
        let bytes = units_to_bytes(&units);
        RegValue { bytes, vtype: RegType::REG_MULTI_SZ }
    }
}

/// `first_nul` is the scan's stopping point: if nothing before `m` is NUL
/// and `m` is the end or a NUL, the first NUL is at `m`.
proof fn lemma_first_nul_at(u: Seq<u16>, m: int)
    requires
        0 <= m <= u.len(),
        forall|k: int| 0 <= k < m ==> u[k] != 0,
        m == u.len() || u[m] == 0,
    ensures
        first_nul(u) == m,
    decreases m,
{
    if m == 0 {
    } else {
        lemma_first_nul_at(u.skip(1), m - 1);
    }
}

impl FromRegValue for Vec<String> {
    type M = Seq<Seq<char>>;

    open spec fn m(&self) -> Seq<Seq<char>> {
        self.deep_view()
    }

    open spec fn from_spec(v: RegValueM) -> Result<Seq<Seq<char>>, u32> {
        decode_multi(v)
    }

    fn from_reg_value(val: &RegValue) -> (r: RegResult<Self>) {
        if !(val.vtype == RegType::REG_MULTI_SZ) {
            return Err(RegError { err: ERROR_BAD_FILE_TYPE });
        }
        let units = bytes_to_units(&val.bytes);
        let ghost all = units@;
        let mut out: Vec<String> = Vec::new();
        let mut i: usize = 0;
        proof {
            assert(all.skip(0) =~= all);
            if parse_multi(all) is Some {
                assert(out.deep_view() + parse_multi(all).unwrap() =~= parse_multi(all).unwrap());
            }
        }
        while i < units.len()
            invariant
                i <= all.len(),
                all == units@,
                all == units_of_bytes(val@.bytes),
                val@.vtype == RegType::REG_MULTI_SZ,
                (parse_multi(all) is Some) == (parse_multi(all.skip(i as int)) is Some),
                parse_multi(all) is Some ==> parse_multi(all) == Some(
                    out.deep_view() + parse_multi(all.skip(i as int)).unwrap(),
                ),
            decreases all.len() - i,
        {
            let ghost prev = out.deep_view();
            proof {
                assert(all.skip(i as int)[0] == all[i as int]);
            }
            if units[i] == 0 {
                if i + 1 == units.len() {
                    // the final terminator
                    proof {
                        assert(parse_multi(all.skip(i as int)) == Some(Seq::<Seq<char>>::empty()));
                        assert(all.skip(i as int + 1) =~= Seq::<u16>::empty());
                        if parse_multi(all) is Some {
                            assert(prev + Seq::<Seq<char>>::empty() =~= prev);
                        }
                    }
                    i = i + 1;
                } else {
                    // an empty segment
                    out.push(String::new());
                    proof {
                        assert(all.skip(i as int).skip(1) =~= all.skip(i as int + 1));
                        assert(out.deep_view() =~= prev.push(Seq::<char>::empty()));
                        if parse_multi(all) is Some {
                            let rest = parse_multi(all.skip(i as int + 1)).unwrap();
                            assert(prev + (seq![Seq::<char>::empty()] + rest) =~= out.deep_view()
                                + rest);
                        }
                    }
                    i = i + 1;
                }
            } else {
                // scan to the next NUL or the end
                let mut j: usize = i;
                while j < units.len() && units[j] != 0
                    invariant
                        i <= j <= all.len(),
                        all == units@,
                        forall|k: int| i <= k < j ==> all[k] != 0,
                    decreases all.len() - j,
                {
                    j = j + 1;
                }
                proof {
                    assert forall|k: int| 0 <= k < j - i implies all.skip(i as int)[k] != 0 by {
                        assert(all.skip(i as int)[k] == all[i + k]);
                    }
                    lemma_first_nul_at(all.skip(i as int), j - i);
                }
                let mut seg: Vec<u16> = Vec::new();
                let mut k: usize = i;
                while k < j
                    invariant
                        i <= k <= j <= all.len(),
                        all == units@,
                        seg@ == all.subrange(i as int, k as int),
                    decreases j - k,
                {
                    seg.push(units[k]);
                    proof {
                        assert(seg@ =~= all.subrange(i as int, k as int + 1));
                    }
                    k = k + 1;
                }
                proof {
                    assert(seg@ =~= all.skip(i as int).subrange(0, j - i));
                }
                match utf16_to_string(&seg) {
                    Some(s) => {
                        out.push(s);
                        proof {
                            assert(out.deep_view() =~= prev.push(s@));
                        }
                        if j < units.len() {
                            proof {
                                assert(all.skip(i as int).skip(j - i + 1) =~= all.skip(
                                    j as int + 1,
                                ));
                                if parse_multi(all) is Some {
                                    let rest = parse_multi(all.skip(j as int + 1)).unwrap();
                                    assert(prev + (seq![s@] + rest) =~= out.deep_view() + rest);
                                }
                            }
                            i = j + 1;
                        } else {
                            proof {
                                assert(all.skip(j as int) =~= Seq::<u16>::empty());
                                if parse_multi(all) is Some {
                                    assert(prev + (seq![s@] + Seq::<Seq<char>>::empty())
                                        =~= out.deep_view() + Seq::<Seq<char>>::empty());
                                }
                            }
                            i = j;
                        }
                    },
                    None => {
                        proof {
                            assert(parse_multi(all.skip(i as int)) is None);
                            assert(parse_multi(all) is None);
                            assert(val@.vtype == RegType::REG_MULTI_SZ);
                            assert(units_of_bytes(val@.bytes) == all);
                            assert(decode_multi(val@) == Err::<Seq<Seq<char>>, u32>(
                                ERROR_INVALID_BLOCK,
                            ));
                        }
                        return Err(RegError { err: ERROR_INVALID_BLOCK });
                    },
                }
            }
        }
        proof {
            assert(all.skip(all.len() as int) =~= Seq::<u16>::empty());
            if parse_multi(all) is Some {
                assert(out.deep_view() + Seq::<Seq<char>>::empty() =~= out.deep_view());
            }
        }
        Ok(out)
    }
}

// ---------------------------------------------------------------------
// Round-trip laws
// ---------------------------------------------------------------------

/// Round trip for strings: decoding the encoding of any character
/// sequence yields the sequence back, interior NULs included.
pub proof fn lemma_sz_round_trip(s: Seq<char>)
    ensures
        decode_sz(sz_value(s)) == Ok::<Seq<char>, u32>(s),
{
    lemma_units_bytes_roundtrip(units_of(s).push(0));
    assert(strip_one_nul(units_of(s).push(0)) =~= units_of(s));
    lemma_decode_of_units(s);
}

/// Round trip for 32-bit integers.
pub proof fn lemma_dword_round_trip(x: u32)
    ensures
        decode_dword(dword_value(x)) == Ok::<u32, u32>(x),
{
    assert(x % 256 + 256 * ((x / 256) % 256) + 65536 * ((x / 65536) % 256) + 16777216 * ((x
        / 16777216) % 256) == x) by {
        assert(x == 256 * (x / 256) + x % 256);
        assert(x / 256 == 256 * (x / 65536) + (x / 256) % 256);
        assert(x / 65536 == 256 * (x / 16777216) + (x / 65536) % 256);
        assert(x / 16777216 < 256);
    }
}

/// Round trip for 64-bit integers.
#[verifier::rlimit(100)]
pub proof fn lemma_qword_round_trip(x: u64)
    ensures
        decode_qword(qword_value(x)) == Ok::<u64, u32>(x),
{
    assert(x % 0x100 + 0x100 * ((x / 0x100) % 0x100) + 0x10000 * ((x / 0x10000) % 0x100)
        + 0x1000000 * ((x / 0x1000000) % 0x100) + 0x100000000 * ((x / 0x100000000) % 0x100)
        + 0x10000000000 * ((x / 0x10000000000) % 0x100) + 0x1000000000000 * ((x
        / 0x1000000000000) % 0x100) + 0x100000000000000 * ((x / 0x100000000000000) % 0x100)
        == x) by {
        assert(x == 0x100 * (x / 0x100) + x % 0x100);
        assert(x / 0x100 == 0x100 * (x / 0x10000) + (x / 0x100) % 0x100);
        assert(x / 0x10000 == 0x100 * (x / 0x1000000) + (x / 0x10000) % 0x100);
        assert(x / 0x1000000 == 0x100 * (x / 0x100000000) + (x / 0x1000000) % 0x100);
        assert(x / 0x100000000 == 0x100 * (x / 0x10000000000) + (x / 0x100000000) % 0x100);
        assert(x / 0x10000000000 == 0x100 * (x / 0x1000000000000) + (x / 0x10000000000) % 0x100);
        assert(x / 0x1000000000000 == 0x100 * (x / 0x100000000000000) + (x / 0x1000000000000)
            % 0x100);
        assert(x / 0x100000000000000 < 0x100);
    }
}

/// A character other than NUL has a nonzero numeric value.
proof fn lemma_char_nonzero(c: char)
    requires
        c != '\0',
    ensures
        c as u32 != 0,
{
    if c as u32 == 0 {
        vstd::utf8::char_u32_cast(c, 0);
        vstd::utf8::char_u32_cast('\0', 0);
    }
}

/// No unit of a NUL-free character sequence is the NUL unit, and a
/// nonempty sequence has at least one unit.
proof fn lemma_units_no_nul(s: Seq<char>)
    requires
        forall|j: int| 0 <= j < s.len() ==> s[j] != '\0',
    ensures
        forall|k: int| 0 <= k < units_of(s).len() ==> units_of(s)[k] != 0,
        s.len() > 0 ==> units_of(s).len() > 0,
    decreases s.len(),
{
    if s.len() == 0 {
    } else {
        let c = s[0];
        vstd::utf8::char_is_scalar(c);
        vstd::utf8::char_u32_cast(c, c as u32);
        lemma_char_nonzero(c);
        assert(forall|j: int| 0 <= j < s.skip(1).len() ==> s.skip(1)[j] != '\0');
        lemma_units_no_nul(s.skip(1));
        let cu = char_units(c);
        assert forall|k: int| 0 <= k < units_of(s).len() implies units_of(s)[k] != 0 by {
            if k < cu.len() {
                assert(units_of(s)[k] == cu[k]);
                if (c as u32) < 0x10000 {
                    assert(cu[k] == (c as u16));
                    assert((cu[k] as u32) == c as u32);
                } else {
                    assert(cu[0] >= 0xD800 && cu[1] >= 0xDC00);
                }
            } else {
                assert(units_of(s)[k] == units_of(s.skip(1))[k - cu.len()]);
            }
        }
    }
}

/// Parsing the code units of a NUL-free string sequence yields the
/// sequence back.
proof fn lemma_parse_multi_units(v: Seq<Seq<char>>)
    requires
        forall|i: int, j: int| 0 <= i < v.len() && 0 <= j < v[i].len() ==> v[i][j] != '\0',
    ensures
        parse_multi(multi_units(v)) == Some(v),
    decreases v.len(),
{
    if v.len() == 0 {
        assert(v =~= Seq::<Seq<char>>::empty());
    } else {
        let e = v[0];
        let u = multi_units(v);
        let tail = multi_units(v.skip(1));
        assert(u == units_of(e).push(0) + tail);
        assert(tail.len() >= 1) by {
            if v.skip(1).len() == 0 {
            } else {
            }
        }
        assert(forall|i: int, j: int|
            0 <= i < v.skip(1).len() && 0 <= j < v.skip(1)[i].len() ==> v.skip(1)[i][j] != '\0');
        lemma_parse_multi_units(v.skip(1));
        assert(forall|j: int| 0 <= j < e.len() ==> e[j] != '\0');
        lemma_units_no_nul(e);
        let m = units_of(e).len() as int;
        if e.len() == 0 {
            assert(m == 0);
            assert(u[0] == 0);
            assert(u.len() == 1 + tail.len());
            assert(u.skip(1) =~= tail);
            assert(e =~= Seq::<char>::empty());
            assert(seq![e] + v.skip(1) =~= v);
        } else {
            assert(units_of(e).len() > 0);
            assert forall|k: int| 0 <= k < m implies u[k] != 0 by {
                assert(u[k] == units_of(e)[k]);
            }
            assert(u[m] == 0);
            lemma_first_nul_at(u, m);
            assert(u.len() == m + 1 + tail.len());
            assert(u[0] != 0);
            assert(u.subrange(0, m) =~= units_of(e));
            lemma_decode_of_units(e);
            assert(u.skip(m + 1) =~= tail);
            assert(seq![e] + v.skip(1) =~= v);
        }
    }
}

/// Round trip for string sequences whose elements are NUL-free: decoding
/// the encoding yields the sequence back.
pub proof fn lemma_multi_sz_round_trip(v: Seq<Seq<char>>)
    requires
        forall|i: int, j: int| 0 <= i < v.len() && 0 <= j < v[i].len() ==> v[i][j] != '\0',
    ensures
        decode_multi(multi_value(v)) == Ok::<Seq<Seq<char>>, u32>(v),
{
    lemma_units_bytes_roundtrip(multi_units(v));
    lemma_parse_multi_units(v);
}

} // verus!
