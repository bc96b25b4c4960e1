//! The flat key table behind a [`crate::Registry`]: every existing key as
//! an absolute path with its named values, in creation order.
//!
//! All structural and value operations of the engine are implemented here
//! over one such table; the registry holds two of them (the durable one
//! and the active transaction's staged one) and each handle operation is
//! dispatched to the table its transaction state selects.

use vstd::prelude::*;

verus! {

use vstd::slice::slice_to_vec;
use crate::enums::RegType;
use crate::RegError;
use crate::RegResult;
use crate::RegValue;
use crate::RegValueM;
use crate::ERROR_FILE_NOT_FOUND;
use crate::ERROR_FILE_TOO_LARGE;

/// One key of the store: its absolute path and its named values, in the
/// order they were set.
pub struct KeyEntry {
    pub path: Vec<String>,
    pub values: Vec<(String, RegValue)>,
}

/// Abstract content of one key.
#[verifier::ext_equal]
pub struct KeyEntryM {
    pub path: Seq<Seq<char>>,
    pub values: Seq<(Seq<char>, RegValueM)>,
}

impl View for KeyEntry {
    type V = KeyEntryM;

    open spec fn view(&self) -> KeyEntryM {
        KeyEntryM {
            path: self.path.deep_view(),
            values: self.values@.map_values(|p: (String, RegValue)| (p.0@, p.1@)),
        }
    }
}

/// The abstract content of a key table.
pub open spec fn entries_m(es: Seq<KeyEntry>) -> Seq<KeyEntryM> {
    es.map_values(|e: KeyEntry| e@)
}

// ---------------------------------------------------------------------
// Lookup
// ---------------------------------------------------------------------

/// Index of the key with the given path, or `-1` if there is none.
pub open spec fn key_index(es: Seq<KeyEntryM>, path: Seq<Seq<char>>) -> int
    decreases es.len(),
{
    if es.len() == 0 {
        -1
    } else if es[0].path == path {
        0
    } else {
        let r = key_index(es.skip(1), path);
        if r < 0 {
            -1
        } else {
            1 + r
        }
    }
}

/// Whether a key with the given path exists.
pub open spec fn has_key(es: Seq<KeyEntryM>, path: Seq<Seq<char>>) -> bool {
    key_index(es, path) >= 0
}

/// Index of the value with the given name, or `-1` if there is none.
pub open spec fn value_index(vs: Seq<(Seq<char>, RegValueM)>, name: Seq<char>) -> int
    decreases vs.len(),
{
    if vs.len() == 0 {
        -1
    } else if vs[0].0 == name {
        0
    } else {
        let r = value_index(vs.skip(1), name);
        if r < 0 {
            -1
        } else {
            1 + r
        }
    }
}

/// The raw content of the named value of the key at the given path.
pub open spec fn lookup_value(
    es: Seq<KeyEntryM>,
    path: Seq<Seq<char>>,
    name: Seq<char>,
) -> Option<RegValueM> {
    let ki = key_index(es, path);
    if ki < 0 {
        None
    } else {
        let vi = value_index(es[ki].values, name);
        if vi < 0 {
            None
        } else {
            Some(es[ki].values[vi].1)
        }
    }
}

/// The value list with the named value set: updated in place if the name
/// is present, appended otherwise.
pub open spec fn set_assoc(
    vs: Seq<(Seq<char>, RegValueM)>,
    name: Seq<char>,
    rv: RegValueM,
) -> Seq<(Seq<char>, RegValueM)> {
    let vi = value_index(vs, name);
    if vi < 0 {
        vs.push((name, rv))
    } else {
        vs.update(vi, (name, rv))
    }
}

/// The table with the named value of the key at `path` set. Meaningful
/// only when the key exists.
pub open spec fn store_value(
    es: Seq<KeyEntryM>,
    path: Seq<Seq<char>>,
    name: Seq<char>,
    rv: RegValueM,
) -> Seq<KeyEntryM> {
    let ki = key_index(es, path);
    es.update(ki, KeyEntryM { path: es[ki].path, values: set_assoc(es[ki].values, name, rv) })
}

/// The table with the named value of the key at `path` removed.
/// Meaningful only when the key and the value exist.
pub open spec fn drop_value(
    es: Seq<KeyEntryM>,
    path: Seq<Seq<char>>,
    name: Seq<char>,
) -> Seq<KeyEntryM> {
    let ki = key_index(es, path);
    let vi = value_index(es[ki].values, name);
    es.update(ki, KeyEntryM { path: es[ki].path, values: es[ki].values.remove(vi) })
}

// ---------------------------------------------------------------------
// Paths
// ---------------------------------------------------------------------

/// Whether `p` lies at or below `base`.
pub open spec fn extends(p: Seq<Seq<char>>, base: Seq<Seq<char>>) -> bool {
    p.len() >= base.len() && p.subrange(0, base.len() as int) == base
}

/// Whether `p` is a direct child of `parent`.
pub open spec fn is_child_of(p: Seq<Seq<char>>, parent: Seq<Seq<char>>) -> bool {
    p.len() == parent.len() + 1 && extends(p, parent)
}

/// The names of the direct children of the key at `parent`, in table
/// order: the store-defined enumeration order.
pub open spec fn child_names(es: Seq<KeyEntryM>, parent: Seq<Seq<char>>) -> Seq<Seq<char>> {
    es.filter(|e: KeyEntryM| is_child_of(e.path, parent)).map_values(
        (|e: KeyEntryM| e.path.last()),
    )
}

// ---------------------------------------------------------------------
// Well-formedness
// ---------------------------------------------------------------------

/// Value names within one key are distinct.
pub open spec fn wf_values(vs: Seq<(Seq<char>, RegValueM)>) -> bool {
    forall|a: int, b: int| 0 <= a < b < vs.len() ==> (#[trigger] vs[a]).0 != (#[trigger] vs[b]).0
}

/// Key paths are distinct and every key's value names are distinct.
pub open spec fn wf_entries(es: Seq<KeyEntryM>) -> bool {
    &&& forall|a: int, b: int|
        0 <= a < b < es.len() ==> (#[trigger] es[a]).path != (#[trigger] es[b]).path
    &&& forall|i: int| 0 <= i < es.len() ==> wf_values((#[trigger] es[i]).values)
}

// ---------------------------------------------------------------------
// Index characterizations
// ---------------------------------------------------------------------

/// What `key_index` returns: a valid index of an entry with the path, or
/// `-1` when no entry has it.
pub proof fn lemma_key_index_props(es: Seq<KeyEntryM>, path: Seq<Seq<char>>)
    ensures
        key_index(es, path) == -1 || (0 <= key_index(es, path) < es.len()),
        key_index(es, path) == -1 ==> forall|k: int|
            0 <= k < es.len() ==> (#[trigger] es[k]).path != path,
        key_index(es, path) >= 0 ==> es[key_index(es, path)].path == path,
    decreases es.len(),
{
    if es.len() == 0 {
    } else if es[0].path == path {
    } else {
        lemma_key_index_props(es.skip(1), path);
        if key_index(es, path) == -1 {
            assert forall|k: int| 0 <= k < es.len() implies (#[trigger] es[k]).path != path by {
                if k >= 1 {
                    assert(es.skip(1)[k - 1] == es[k]);
                }
            }
        }
    }
}

/// `key_index` finds the first match: if nothing before `i` matches and
/// `i` is the end or a match, it returns `i` (or `-1` at the end).
pub proof fn lemma_key_index_first(es: Seq<KeyEntryM>, path: Seq<Seq<char>>, i: int)
    requires
        0 <= i <= es.len(),
        forall|k: int| 0 <= k < i ==> (#[trigger] es[k]).path != path,
        i == es.len() || es[i].path == path,
    ensures
        key_index(es, path) == if i == es.len() {
            -1int
        } else {
            i
        },
    decreases es.len(),
{
    if es.len() == 0 {
    } else if i == 0 {
        if es[0].path != path {
            lemma_key_index_first(es.skip(1), path, 0);
        }
    } else {
        assert(es[0].path != path);
        assert(forall|k: int| 0 <= k < i - 1 ==> (#[trigger] es.skip(1)[k]).path != path);
        assert(i - 1 == es.skip(1).len() || es.skip(1)[i - 1].path == path);
        lemma_key_index_first(es.skip(1), path, i - 1);
    }
}

/// What `value_index` returns, in the same shape.
pub proof fn lemma_value_index_props(vs: Seq<(Seq<char>, RegValueM)>, name: Seq<char>)
    ensures
        value_index(vs, name) == -1 || (0 <= value_index(vs, name) < vs.len()),
        value_index(vs, name) == -1 ==> forall|k: int|
            0 <= k < vs.len() ==> (#[trigger] vs[k]).0 != name,
        value_index(vs, name) >= 0 ==> vs[value_index(vs, name)].0 == name,
    decreases vs.len(),
{
    if vs.len() == 0 {
    } else if vs[0].0 == name {
    } else {
        lemma_value_index_props(vs.skip(1), name);
        if value_index(vs, name) == -1 {
            assert forall|k: int| 0 <= k < vs.len() implies (#[trigger] vs[k]).0 != name by {
                if k >= 1 {
                    assert(vs.skip(1)[k - 1] == vs[k]);
                }
            }
        }
    }
}

/// `value_index` finds the first match.
pub proof fn lemma_value_index_first(vs: Seq<(Seq<char>, RegValueM)>, name: Seq<char>, i: int)
    requires
        0 <= i <= vs.len(),
        forall|k: int| 0 <= k < i ==> (#[trigger] vs[k]).0 != name,
        i == vs.len() || vs[i].0 == name,
    ensures
        value_index(vs, name) == if i == vs.len() {
            -1int
        } else {
            i
        },
    decreases vs.len(),
{
    if vs.len() == 0 {
    } else if i == 0 {
        if vs[0].0 != name {
            lemma_value_index_first(vs.skip(1), name, 0);
        }
    } else {
        assert(vs[0].0 != name);
        assert(forall|k: int| 0 <= k < i - 1 ==> (#[trigger] vs.skip(1)[k]).0 != name);
        assert(i - 1 == vs.skip(1).len() || vs.skip(1)[i - 1].0 == name);
        lemma_value_index_first(vs.skip(1), name, i - 1);
    }
}

/// Setting a value preserves well-formedness.
pub proof fn lemma_wf_store_value(
    es: Seq<KeyEntryM>,
    path: Seq<Seq<char>>,
    name: Seq<char>,
    rv: RegValueM,
)
    requires
        wf_entries(es),
        has_key(es, path),
    ensures
        wf_entries(store_value(es, path, name, rv)),
{
    lemma_key_index_props(es, path);
    let ki = key_index(es, path);
    lemma_value_index_props(es[ki].values, name);
}

/// Removing a value preserves well-formedness.
pub proof fn lemma_wf_drop_value(es: Seq<KeyEntryM>, path: Seq<Seq<char>>, name: Seq<char>)
    requires
        wf_entries(es),
        has_key(es, path),
        lookup_value(es, path, name) is Some,
    ensures
        wf_entries(drop_value(es, path, name)),
{
    lemma_key_index_props(es, path);
    let ki = key_index(es, path);
    let vs = es[ki].values;
    lemma_value_index_props(vs, name);
    let vi = value_index(vs, name);
    let es2 = drop_value(es, path, name);
    if vi >= 0 {
        let vs2 = vs.remove(vi);
        assert forall|a: int, b: int| 0 <= a < b < vs2.len() implies (#[trigger] vs2[a]).0 != (
        #[trigger] vs2[b]).0 by {
            assert(vs2[a] == (if a < vi {
                vs[a]
            } else {
                vs[a + 1]
            }));
            assert(vs2[b] == (if b < vi {
                vs[b]
            } else {
                vs[b + 1]
            }));
        }
        assert(forall|i: int| 0 <= i < es2.len() && i != ki ==> es2[i] == es[i]);
        assert(wf_values(es2[ki].values));
    }
}

// ---------------------------------------------------------------------
// Executable helpers
// ---------------------------------------------------------------------

/// Whether the two strings hold the same characters.
pub fn string_eq(a: &String, b: &String) -> (r: bool)
    ensures
        r == (a@ == b@),
{
    a.eq(b)
}

/// Whether the two paths hold the same components.
pub fn path_eq(a: &Vec<String>, b: &Vec<String>) -> (r: bool)
    ensures
        r == (a.deep_view() == b.deep_view()),
{
    proof {
        assert(a.deep_view().len() == a@.len());
        assert(b.deep_view().len() == b@.len());
    }
    if a.len() != b.len() {
        return false;
    }
    let mut i: usize = 0;
    while i < a.len()
        invariant
            i <= a@.len(),
            a@.len() == b@.len(),
            forall|k: int| 0 <= k < i ==> a.deep_view()[k] == b.deep_view()[k],
        decreases a@.len() - i,
    {
        if !string_eq(&a[i], &b[i]) {
            proof {
                assert(a.deep_view()[i as int] == a@[i as int]@);
                assert(b.deep_view()[i as int] == b@[i as int]@);
            }
            return false;
        }
        i = i + 1;
    }
    proof {
        assert(a.deep_view() =~= b.deep_view());
    }
    true
}

/// Whether `p` lies at or below `base`.
pub fn path_extends(p: &Vec<String>, base: &Vec<String>) -> (r: bool)
    ensures
        r == extends(p.deep_view(), base.deep_view()),
{
    if p.len() < base.len() {
        return false;
    }
    let mut i: usize = 0;
    while i < base.len()
        invariant
            i <= base@.len(),
            base@.len() <= p@.len(),
            forall|k: int| 0 <= k < i ==> p.deep_view()[k] == base.deep_view()[k],
        decreases base@.len() - i,
    {
        if !string_eq(&p[i], &base[i]) {
            proof {
                assert(p.deep_view().subrange(0, base.deep_view().len() as int)[i as int]
                    != base.deep_view()[i as int]);
            }
            return false;
        }
        i = i + 1;
    }
    proof {
        assert(p.deep_view().subrange(0, base.deep_view().len() as int) =~= base.deep_view());
    }
    true
}

/// A fresh copy of a raw value.
pub fn dup_value(v: &RegValue) -> (r: RegValue)
    ensures
        r@ == v@,
{
    RegValue { bytes: slice_to_vec(v.bytes.as_slice()), vtype: v.vtype }
}

/// Index of the key with the given path in the table.
pub fn find_key(list: &Vec<KeyEntry>, path: &Vec<String>) -> (r: Option<usize>)
    ensures
        match r {
            Some(i) => key_index(entries_m(list@), path.deep_view()) == i && i < list@.len(),
            None => key_index(entries_m(list@), path.deep_view()) == -1,
        },
{
    let ghost m = entries_m(list@);
    let mut i: usize = 0;
    while i < list.len()
        invariant
            i <= list@.len(),
            m == entries_m(list@),
            forall|k: int| 0 <= k < i ==> (#[trigger] m[k]).path != path.deep_view(),
        decreases list@.len() - i,
    {
        if path_eq(&list[i].path, path) {
            proof {
                assert(m[i as int].path == path.deep_view());
                lemma_key_index_first(m, path.deep_view(), i as int);
            }
            return Some(i);
        }
        proof {
            assert(m[i as int].path == list@[i as int]@.path);
        }
        i = i + 1;
    }
    proof {
        lemma_key_index_first(m, path.deep_view(), m.len() as int);
    }
    None
}

/// Index of the named value in a key's value list.
pub fn find_value(vs: &Vec<(String, RegValue)>, name: &String) -> (r: Option<usize>)
    ensures
        match r {
            Some(i) => value_index(
                vs@.map_values(|p: (String, RegValue)| (p.0@, p.1@)),
                name@,
            ) == i && i < vs@.len(),
            None => value_index(vs@.map_values(|p: (String, RegValue)| (p.0@, p.1@)), name@)
                == -1,
        },
{
    let ghost m = vs@.map_values(|p: (String, RegValue)| (p.0@, p.1@));
    let mut i: usize = 0;
    while i < vs.len()
        invariant
            i <= vs@.len(),
            m == vs@.map_values(|p: (String, RegValue)| (p.0@, p.1@)),
            forall|k: int| 0 <= k < i ==> (#[trigger] m[k]).0 != name@,
        decreases vs@.len() - i,
    {
        if string_eq(&vs[i].0, name) {
            proof {
                lemma_value_index_first(m, name@, i as int);
            }
            return Some(i);
        }
        i = i + 1;
    }
    proof {
        lemma_value_index_first(m, name@, m.len() as int);
    }
    None
}

// ---------------------------------------------------------------------
// Value operations, with the buffer-growth query protocol
// ---------------------------------------------------------------------

/// Starting buffer size of the growth protocol, in bytes.
pub const INITIAL_BUF_SIZE: u32 = 2048;

/// One growth decision of the buffer protocol: the next buffer size
/// after the store reported the offered one too small — doubled, and
/// clamped to the ceiling.
pub fn next_buf_size(cap: u32, ceiling: u32) -> (r: u32)
    ensures
        r <= ceiling,
        cap < ceiling ==> cap < r,
        cap >= ceiling ==> r == ceiling,
{
    if cap >= ceiling / 2 {
        ceiling
    } else if cap == 0 {
        1
    } else {
        2 * cap
    }
}

/// Outcome of one sized query against the table: the data fit in the
/// offered buffer, or the needed size, or the value is absent.
enum QueryStep {
    Hit(RegValue),
    More(usize),
    Missing,
}

/// One sized query: the store hands the value back only if it fits in a
/// buffer of `cap` bytes, else it reports the needed size.
fn query_value_step(
    list: &Vec<KeyEntry>,
    path: &Vec<String>,
    name: &String,
    cap: u32,
) -> (r: QueryStep)
    ensures
        match lookup_value(entries_m(list@), path.deep_view(), name@) {
            Option::None => r is Missing,
            Option::Some(v) => {
                if v.bytes.len() <= cap {
                    r matches QueryStep::Hit(out) && out@ == v
                } else {
                    r matches QueryStep::More(n) && n == v.bytes.len()
                }
            },
        },
{
    let ki = match find_key(list, path) {
        Some(i) => i,
        None => {
            return QueryStep::Missing;
        },
    };
    proof {
        assert(entries_m(list@)[ki as int] == list@[ki as int]@);
    }
    let vi = match find_value(&list[ki].values, name) {
        Some(j) => j,
        None => {
            return QueryStep::Missing;
        },
    };
    let v = &list[ki].values[vi].1;
    proof {
        assert(entries_m(list@)[ki as int].values[vi as int].1 == v@);
    }
    if v.bytes.len() <= cap as usize {
        QueryStep::Hit(dup_value(v))
    } else {
        QueryStep::More(v.bytes.len())
    }
}

/// Read the named value through the buffer-growth protocol: query with a
/// starting buffer size, double it while the store reports it too small,
/// stop at the ceiling with a data-too-large error, and hand the bytes
/// back exactly as stored.
pub fn read_value_in(
    list: &Vec<KeyEntry>,
    path: &Vec<String>,
    name: &String,
    ceiling: u32,
) -> (r: RegResult<RegValue>)
    ensures
        match lookup_value(entries_m(list@), path.deep_view(), name@) {
            Option::None => r matches Err(e) && e.err == ERROR_FILE_NOT_FOUND,
            Option::Some(v) => {
                if v.bytes.len() <= ceiling {
                    r matches Ok(out) && out@ == v
                } else {
                    r matches Err(e) && e.err == ERROR_FILE_TOO_LARGE
                }
            },
        },
{
    let ghost target = lookup_value(entries_m(list@), path.deep_view(), name@);
    let ghost bound: int = match target {
        Option::Some(v) => v.bytes.len() as int,
        Option::None => 0,
    };
    let mut cap: u32 = if INITIAL_BUF_SIZE <= ceiling {
        INITIAL_BUF_SIZE
    } else {
        ceiling
    };
    loop
        invariant
            target == lookup_value(entries_m(list@), path.deep_view(), name@),
            bound == (match target {
                Option::Some(v) => v.bytes.len() as int,
                Option::None => 0,
            }),
            cap <= ceiling,
            ceiling > 0 ==> cap > 0,
        decreases ceiling - cap,
    {
        match query_value_step(list, path, name, cap) {
            QueryStep::Hit(v) => {
                return Ok(v);
            },
            QueryStep::More(needed) => {
                if needed > ceiling as usize {
                    return Err(RegError { err: ERROR_FILE_TOO_LARGE });
                }
                cap = next_buf_size(cap, ceiling);
            },
            QueryStep::Missing => {
                return Err(RegError { err: ERROR_FILE_NOT_FOUND });
            },
        }
    }
}

/// Set the named value of the key at `path`, creating or replacing it.
/// Fails not-found when the key does not exist.
pub fn set_value_in(
    list: &mut Vec<KeyEntry>,
    path: &Vec<String>,
    name: &String,
    value: &RegValue,
) -> (r: RegResult<()>)
    requires
        wf_entries(entries_m(old(list)@)),
    ensures
        wf_entries(entries_m(final(list)@)),
        match r {
            Ok(()) => has_key(entries_m(old(list)@), path.deep_view()) && entries_m(final(list)@)
                == store_value(entries_m(old(list)@), path.deep_view(), name@, value@),
            Err(e) => e.err == ERROR_FILE_NOT_FOUND && !has_key(
                entries_m(old(list)@),
                path.deep_view(),
            ) && final(list)@ == old(list)@,
        },
{
    let ghost m0 = entries_m(list@);
    let ki = match find_key(list, path) {
        Some(i) => i,
        None => {
            return Err(RegError { err: ERROR_FILE_NOT_FOUND });
        },
    };
    proof {
        assert(entries_m(list@)[ki as int] == list@[ki as int]@);
    }
    let vi = find_value(&list[ki].values, name);
    let pair = (name.clone(), dup_value(value));
    match vi {
        Some(j) => {
            list[ki].values[j] = pair;
        },
        None => {
            list[ki].values.push(pair);
        },
    }
    proof {
        assert(entries_m(list@) =~~= store_value(m0, path.deep_view(), name@, value@));
        lemma_wf_store_value(m0, path.deep_view(), name@, value@);
    }
    Ok(())
}

/// Remove the named value of the key at `path`. Fails not-found when the
/// key or the value does not exist.
pub fn delete_value_in(list: &mut Vec<KeyEntry>, path: &Vec<String>, name: &String) -> (r:
    RegResult<()>)
    requires
        wf_entries(entries_m(old(list)@)),
    ensures
        wf_entries(entries_m(final(list)@)),
        match r {
            Ok(()) => lookup_value(entries_m(old(list)@), path.deep_view(), name@) is Some
                && entries_m(final(list)@) == drop_value(
                entries_m(old(list)@),
                path.deep_view(),
                name@,
            ),
            Err(e) => e.err == ERROR_FILE_NOT_FOUND && lookup_value(
                entries_m(old(list)@),
                path.deep_view(),
                name@,
            ) is None && final(list)@ == old(list)@,
        },
{
    let ghost m0 = entries_m(list@);
    let ki = match find_key(list, path) {
        Some(i) => i,
        None => {
            return Err(RegError { err: ERROR_FILE_NOT_FOUND });
        },
    };
    proof {
        assert(entries_m(list@)[ki as int] == list@[ki as int]@);
    }
    let vi = match find_value(&list[ki].values, name) {
        Some(j) => j,
        None => {
            return Err(RegError { err: ERROR_FILE_NOT_FOUND });
        },
    };
    list[ki].values.remove(vi);
    proof {
        assert(entries_m(list@) =~~= drop_value(m0, path.deep_view(), name@));
        lemma_wf_drop_value(m0, path.deep_view(), name@);
    }
    Ok(())
}

// ---------------------------------------------------------------------
// Structural operations
// ---------------------------------------------------------------------

/// A key exists exactly when some entry carries its path.
pub proof fn lemma_has_key_exists(es: Seq<KeyEntryM>, path: Seq<Seq<char>>)
    ensures
        has_key(es, path) <==> exists|i: int| 0 <= i < es.len() && (#[trigger] es[i]).path == path,
{
    lemma_key_index_props(es, path);
    if key_index(es, path) >= 0 {
        assert(es[key_index(es, path)].path == path);
    }
}

/// The table with the key at `p` present: unchanged if it exists, with an
/// empty key appended otherwise.
pub open spec fn ensure_key(es: Seq<KeyEntryM>, p: Seq<Seq<char>>) -> Seq<KeyEntryM> {
    if has_key(es, p) {
        es
    } else {
        es.push(KeyEntryM { path: p, values: Seq::empty() })
    }
}

/// The table after creating the first `n` components of `path` as keys,
/// shortest prefix first, each only where missing.
pub open spec fn create_along(es: Seq<KeyEntryM>, path: Seq<Seq<char>>, n: int) -> Seq<KeyEntryM>
    decreases n,
{
    if n <= 0 {
        es
    } else {
        ensure_key(create_along(es, path, n - 1), path.subrange(0, n))
    }
}

/// Creating keys never removes one: an existing key survives.
pub proof fn lemma_create_along_preserves(
    es: Seq<KeyEntryM>,
    path: Seq<Seq<char>>,
    n: int,
    q: Seq<Seq<char>>,
)
    requires
        has_key(es, q),
    ensures
        has_key(create_along(es, path, n), q),
    decreases n,
{
    if n <= 0 {
    } else {
        lemma_create_along_preserves(es, path, n - 1, q);
        let es1 = create_along(es, path, n - 1);
        if !has_key(es1, path.subrange(0, n)) {
            lemma_has_key_exists(es1, q);
            let k0 = choose|k: int| 0 <= k < es1.len() && (#[trigger] es1[k]).path == q;
            let es2 = es1.push(KeyEntryM { path: path.subrange(0, n), values: Seq::empty() });
            assert(es2[k0].path == q);
            lemma_has_key_exists(es2, q);
        }
    }
}

/// A fresh copy of a path.
pub fn clone_path(p: &Vec<String>) -> (r: Vec<String>)
    ensures
        r.deep_view() == p.deep_view(),
{
    let mut r: Vec<String> = Vec::new();
    let mut i: usize = 0;
    while i < p.len()
        invariant
            i <= p@.len(),
            r@.len() == i,
            forall|k: int| 0 <= k < i ==> r.deep_view()[k] == p.deep_view()[k],
        decreases p@.len() - i,
    {
        r.push(p[i].clone());
        i = i + 1;
    }
    proof {
        assert(r.deep_view() =~= p.deep_view());
    }
    r
}

/// Appending an entry with a fresh path keeps the table well-formed.
proof fn lemma_wf_push(es: Seq<KeyEntryM>, e: KeyEntryM)
    requires
        wf_entries(es),
        wf_values(e.values),
        forall|i: int| 0 <= i < es.len() ==> (#[trigger] es[i]).path != e.path,
    ensures
        wf_entries(es.push(e)),
{
    let es2 = es.push(e);
    assert(forall|i: int| 0 <= i < es.len() ==> es2[i] == es[i]);
    assert(es2[es.len() as int] == e);
}

/// Create the key at `path` and any missing keys along the way. Reports
/// whether the leaf was created new or opened as already existing.
pub fn create_key_in(list: &mut Vec<KeyEntry>, path: &Vec<String>) -> (r: crate::enums::RegDisposition)
    requires
        wf_entries(entries_m(old(list)@)),
    ensures
        wf_entries(entries_m(final(list)@)),
        entries_m(final(list)@) == create_along(
            entries_m(old(list)@),
            path.deep_view(),
            path.deep_view().len() as int,
        ),
        path@.len() > 0 ==> has_key(entries_m(final(list)@), path.deep_view()),
        r == crate::enums::RegDisposition::REG_CREATED_NEW_KEY <==> !has_key(
            entries_m(old(list)@),
            path.deep_view(),
        ),
{
    let ghost m0 = entries_m(list@);
    let ghost pd = path.deep_view();
    let existed = match find_key(list, path) {
        Some(_) => true,
        None => false,
    };
    let mut cur: Vec<String> = Vec::new();
    let mut i: usize = 0;
    proof {
        assert(cur.deep_view() =~= pd.subrange(0, 0));
    }
    while i < path.len()
        invariant
            i <= path@.len(),
            pd == path.deep_view(),
            pd.len() == path@.len(),
            cur@.len() == i,
            cur.deep_view() == pd.subrange(0, i as int),
            entries_m(list@) == create_along(m0, pd, i as int),
            wf_entries(entries_m(list@)),
            i < pd.len() ==> (has_key(entries_m(list@), pd) <==> has_key(m0, pd)),
            i == pd.len() && pd.len() > 0 ==> has_key(entries_m(list@), pd),
        decreases path@.len() - i,
    {
        let ghost mprev = entries_m(list@);
        cur.push(path[i].clone());
        proof {
            assert(cur@.len() == i + 1);
            assert(cur@[i as int] == path@[i as int]);
            assert(cur.deep_view() =~= pd.subrange(0, i as int + 1));
        }
        match find_key(list, &cur) {
            Some(_) => {
                proof {
                    assert(ensure_key(mprev, pd.subrange(0, i as int + 1)) == mprev);
                    assert(has_key(entries_m(list@), cur.deep_view()));
                }
            },
            None => {
                proof {
                    lemma_key_index_props(mprev, cur.deep_view());
                }
                let e = KeyEntry { path: clone_path(&cur), values: Vec::new() };
                proof {
                    assert(e@.path == cur.deep_view());
                    assert(e@.values =~= Seq::<(Seq<char>, RegValueM)>::empty());
                    lemma_wf_push(mprev, e@);
                }
                list.push(e);
                proof {
                    assert(entries_m(list@) =~~= ensure_key(mprev, pd.subrange(0, i as int + 1)));
                    let mnow = entries_m(list@);
                    assert(mnow[mprev.len() as int].path == cur.deep_view());
                    lemma_has_key_exists(mnow, cur.deep_view());
                    assert(has_key(mnow, cur.deep_view()));
                }
            },
        }
        proof {
            let mnow = entries_m(list@);
            if i as int + 1 == pd.len() {
                assert(pd.subrange(0, i as int + 1) =~= pd);
                assert(has_key(mnow, pd));
            } else {
                lemma_has_key_exists(mprev, pd);
                lemma_has_key_exists(mnow, pd);
                if has_key(mnow, pd) {
                    let k0 = choose|k: int|
                        0 <= k < mnow.len() && (#[trigger] mnow[k]).path == pd;
                    if k0 < mprev.len() {
                        assert(mprev[k0] == mnow[k0]);
                        assert(has_key(mprev, pd));
                    } else {
                        assert(mnow[k0].path.len() == i + 1);
                        assert(false);
                    }
                }
                if has_key(mprev, pd) {
                    let k1 = choose|k: int|
                        0 <= k < mprev.len() && (#[trigger] mprev[k]).path == pd;
                    assert(mnow[k1] == mprev[k1]);
                    assert(has_key(mnow, pd));
                }
            }
        }
        i = i + 1;
    }
    if existed {
        crate::enums::RegDisposition::REG_OPENED_EXISTING_KEY
    } else {
        crate::enums::RegDisposition::REG_CREATED_NEW_KEY
    }
}

/// Whether any key lies strictly below `path`.
pub fn has_descendant(list: &Vec<KeyEntry>, path: &Vec<String>) -> (r: bool)
    ensures
        r == exists|i: int|
            0 <= i < entries_m(list@).len() && extends(
                (#[trigger] entries_m(list@)[i]).path,
                path.deep_view(),
            ) && entries_m(list@)[i].path.len() > path.deep_view().len(),
{
    let ghost m = entries_m(list@);
    let ghost pd = path.deep_view();
    let mut i: usize = 0;
    while i < list.len()
        invariant
            i <= m.len(),
            m == entries_m(list@),
            pd == path.deep_view(),
            forall|k: int|
                0 <= k < i ==> !(extends((#[trigger] m[k]).path, pd) && m[k].path.len() > pd.len()),
        decreases m.len() - i,
    {
        if path_extends(&list[i].path, path) && list[i].path.len() > path.len() {
            proof {
                assert(m[i as int].path == list@[i as int]@.path);
                assert(extends(m[i as int].path, pd) && m[i as int].path.len() > pd.len());
            }
            return true;
        }
        proof {
            assert(m[i as int].path == list@[i as int]@.path);
        }
        i = i + 1;
    }
    false
}

/// Delete the key at `path`: fails not-found when it does not exist and
/// has-children when a key lies strictly below it; on success exactly
/// that one entry is removed.
pub fn delete_key_in(list: &mut Vec<KeyEntry>, path: &Vec<String>) -> (r: RegResult<()>)
    requires
        wf_entries(entries_m(old(list)@)),
    ensures
        wf_entries(entries_m(final(list)@)),
        match r {
            Ok(()) => has_key(entries_m(old(list)@), path.deep_view()) && !(exists|i: int|
                0 <= i < entries_m(old(list)@).len() && extends(
                    (#[trigger] entries_m(old(list)@)[i]).path,
                    path.deep_view(),
                ) && entries_m(old(list)@)[i].path.len() > path.deep_view().len())
                && entries_m(final(list)@) == entries_m(old(list)@).remove(
                key_index(entries_m(old(list)@), path.deep_view()),
            ) && !has_key(entries_m(final(list)@), path.deep_view()),
            Err(e) => final(list)@ == old(list)@ && ((e.err == ERROR_FILE_NOT_FOUND && !has_key(
                entries_m(old(list)@),
                path.deep_view(),
            )) || (e.err == crate::ERROR_DIR_NOT_EMPTY && has_key(
                entries_m(old(list)@),
                path.deep_view(),
            ) && (exists|i: int|
                0 <= i < entries_m(old(list)@).len() && extends(
                    (#[trigger] entries_m(old(list)@)[i]).path,
                    path.deep_view(),
                ) && entries_m(old(list)@)[i].path.len() > path.deep_view().len()))),
        },
{
    let ghost m0 = entries_m(list@);
    let ghost pd = path.deep_view();
    let ki = match find_key(list, path) {
        Some(i) => i,
        None => {
            return Err(RegError { err: ERROR_FILE_NOT_FOUND });
        },
    };
    if has_descendant(list, path) {
        return Err(RegError { err: crate::ERROR_DIR_NOT_EMPTY });
    }
    list.remove(ki);
    proof {
        assert(entries_m(list@) =~~= m0.remove(ki as int));
        let m2 = entries_m(list@);
        assert forall|a: int, b: int| 0 <= a < b < m2.len() implies (#[trigger] m2[a]).path != (
        #[trigger] m2[b]).path by {
            assert(m2[a] == (if a < ki {
                m0[a]
            } else {
                m0[a + 1]
            }));
            assert(m2[b] == (if b < ki {
                m0[b]
            } else {
                m0[b + 1]
            }));
        }
        assert forall|i: int| 0 <= i < m2.len() implies wf_values((#[trigger] m2[i]).values) by {
            assert(m2[i] == (if i < ki {
                m0[i]
            } else {
                m0[i + 1]
            }));
        }
        lemma_has_key_exists(m2, pd);
        lemma_key_index_props(m0, pd);
        assert forall|i: int| 0 <= i < m2.len() implies (#[trigger] m2[i]).path != pd by {
            assert(m2[i] == (if i < ki {
                m0[i]
            } else {
                m0[i + 1]
            }));
        }
    }
    Ok(())
}

/// The table with the subtree at `root` removed: every key at or below
/// `root`, or strictly below it when `keep_root` is set.
pub open spec fn remove_subtree(
    es: Seq<KeyEntryM>,
    root: Seq<Seq<char>>,
    keep_root: bool,
) -> Seq<KeyEntryM> {
    es.filter(
        (|e: KeyEntryM| !(extends(e.path, root) && (!keep_root || e.path.len() > root.len()))),
    )
}

/// Remove every key at or below `root` (strictly below it when
/// `keep_root` is set), as one logical operation.
pub fn delete_tree_in(list: &mut Vec<KeyEntry>, root: &Vec<String>, keep_root: bool)
    requires
        wf_entries(entries_m(old(list)@)),
    ensures
        wf_entries(entries_m(final(list)@)),
        entries_m(final(list)@) == remove_subtree(entries_m(old(list)@), root.deep_view(), keep_root),
        forall|p: Seq<Seq<char>>|
            extends(p, root.deep_view()) && (!keep_root || p.len() > root.deep_view().len())
                ==> !has_key(entries_m(final(list)@), p),
{
    let ghost m0 = entries_m(list@);
    let ghost rd = root.deep_view();
    let ghost pred = (|e: KeyEntryM| !(extends(e.path, rd) && (!keep_root || e.path.len()
        > rd.len())));
    let mut i: usize = 0;
    let ghost mut k: int = 0;
    proof {
        assert(m0.take(0) =~= Seq::<KeyEntryM>::empty());
        reveal(Seq::filter);
        assert(entries_m(list@) =~= m0.take(0).filter(pred) + m0.skip(0));
    }
    while i < list.len()
        invariant
            0 <= k <= m0.len(),
            i == m0.take(k).filter(pred).len(),
            i <= list@.len(),
            rd == root.deep_view(),
            pred == (|e: KeyEntryM| !(extends(e.path, rd) && (!keep_root || e.path.len()
                > rd.len()))),
            entries_m(list@) == m0.take(k).filter(pred) + m0.skip(k),
            wf_entries(entries_m(list@)),
        decreases m0.len() - k,
    {
        let ghost mprev = entries_m(list@);
        proof {
            assert(mprev[i as int] == m0.skip(k)[0]);
            assert(m0.skip(k)[0] == m0[k]);
            assert(m0.take(k + 1).drop_last() =~= m0.take(k));
            assert(m0.take(k + 1).last() == m0[k]);
            reveal(Seq::filter);
        }
        let matched = path_extends(&list[i].path, root) && (!keep_root || list[i].path.len()
            > root.len());
        proof {
            assert(entries_m(list@)[i as int].path == list@[i as int]@.path);
            assert(matched == !pred(m0[k]));
        }
        if matched {
            list.remove(i);
            proof {
                assert(entries_m(list@) =~~= mprev.remove(i as int));
                assert(entries_m(list@) =~= m0.take(k + 1).filter(pred) + m0.skip(k + 1));
                let m2 = entries_m(list@);
                assert forall|a: int, b: int| 0 <= a < b < m2.len() implies (#[trigger] m2[a]).path
                    != (#[trigger] m2[b]).path by {
                    assert(m2[a] == (if a < i {
                        mprev[a]
                    } else {
                        mprev[a + 1]
                    }));
                    assert(m2[b] == (if b < i {
                        mprev[b]
                    } else {
                        mprev[b + 1]
                    }));
                }
                assert forall|j: int| 0 <= j < m2.len() implies wf_values(
                    (#[trigger] m2[j]).values,
                ) by {
                    assert(m2[j] == (if j < i {
                        mprev[j]
                    } else {
                        mprev[j + 1]
                    }));
                }
            }
        } else {
            proof {
                assert(m0.take(k + 1).filter(pred) =~= m0.take(k).filter(pred).push(m0[k]));
                assert(entries_m(list@) =~= m0.take(k + 1).filter(pred) + m0.skip(k + 1));
            }
            i = i + 1;
        }
        proof {
            k = k + 1;
        }
    }
    proof {
        assert(m0.take(k) =~= m0);
        assert(m0.skip(k) =~= Seq::<KeyEntryM>::empty());
        assert(entries_m(list@) =~= remove_subtree(m0, rd, keep_root));
        let mf = entries_m(list@);
        broadcast use vstd::seq_lib::group_filter_ensures;
        assert forall|p: Seq<Seq<char>>|
            extends(p, rd) && (!keep_root || p.len() > rd.len()) implies !has_key(mf, p) by {
            lemma_has_key_exists(mf, p);
            assert forall|j: int| 0 <= j < mf.len() implies (#[trigger] mf[j]).path != p by {
                assert(pred(mf[j]));
            }
        }
    }
}

// ---------------------------------------------------------------------
// Rename
// ---------------------------------------------------------------------

/// The path with its `src` prefix replaced by `dst`.
pub open spec fn rebase(p: Seq<Seq<char>>, src: Seq<Seq<char>>, dst: Seq<Seq<char>>) -> Seq<
    Seq<char>,
> {
    dst + p.skip(src.len() as int)
}

/// The table with the subtree at `src` moved to `dst`: the paths of the
/// keys at or below `src` are rebased in place, everything else is
/// untouched.
pub open spec fn rename_subtree(
    es: Seq<KeyEntryM>,
    src: Seq<Seq<char>>,
    dst: Seq<Seq<char>>,
) -> Seq<KeyEntryM> {
    es.map_values(
        (|e: KeyEntryM|
            if extends(e.path, src) {
                KeyEntryM { path: rebase(e.path, src, dst), values: e.values }
            } else {
                e
            }),
    )
}

/// Move the subtree at `src` to `dst`. The caller has checked that no
/// key lies at or below `dst`.
pub fn rename_in(list: &mut Vec<KeyEntry>, src: &Vec<String>, dst: &Vec<String>)
    requires
        wf_entries(entries_m(old(list)@)),
        forall|i: int|
            0 <= i < entries_m(old(list)@).len() ==> !extends(
                (#[trigger] entries_m(old(list)@)[i]).path,
                dst.deep_view(),
            ),
    ensures
        wf_entries(entries_m(final(list)@)),
        entries_m(final(list)@) == rename_subtree(
            entries_m(old(list)@),
            src.deep_view(),
            dst.deep_view(),
        ),
        has_key(entries_m(old(list)@), src.deep_view()) ==> has_key(
            entries_m(final(list)@),
            dst.deep_view(),
        ),
{
    let ghost m0 = entries_m(list@);
    let ghost srcd = src.deep_view();
    let ghost dstd = dst.deep_view();
    let ghost f = (|e: KeyEntryM|
        if extends(e.path, srcd) {
            KeyEntryM { path: rebase(e.path, srcd, dstd), values: e.values }
        } else {
            e
        });
    let mut i: usize = 0;
    while i < list.len()
        invariant
            i <= m0.len(),
            srcd == src.deep_view(),
            dstd == dst.deep_view(),
            f == (|e: KeyEntryM|
                if extends(e.path, srcd) {
                    KeyEntryM { path: rebase(e.path, srcd, dstd), values: e.values }
                } else {
                    e
                }),
            entries_m(list@).len() == m0.len(),
            forall|k: int| 0 <= k < i ==> entries_m(list@)[k] == f(#[trigger] m0[k]),
            forall|k: int| i <= k < m0.len() ==> entries_m(list@)[k] == #[trigger] m0[k],
        decreases m0.len() - i,
    {
        proof {
            assert(entries_m(list@)[i as int] == list@[i as int]@);
        }
        if path_extends(&list[i].path, src) {
            let mut np = clone_path(dst);
            let mut j: usize = src.len();
            proof {
                assert(np.deep_view() =~= dstd + m0[i as int].path.skip(srcd.len() as int).take(
                    0,
                ));
            }
            while j < list[i].path.len()
                invariant
                    i < m0.len(),
                    entries_m(list@).len() == m0.len(),
                    entries_m(list@)[i as int] == m0[i as int],
                    entries_m(list@)[i as int] == list@[i as int]@,
                    srcd == src.deep_view(),
                    dstd == dst.deep_view(),
                    srcd.len() <= j <= m0[i as int].path.len(),
                    m0[i as int].path == list@[i as int].path.deep_view(),
                    np@.len() == dstd.len() + j - srcd.len(),
                    np.deep_view() == dstd + m0[i as int].path.skip(srcd.len() as int).take(
                        j - srcd.len(),
                    ),
                decreases list@[i as int].path@.len() - j,
            {
                let ghost prev = np.deep_view();
                np.push(list[i].path[j].clone());
                proof {
                    let lg = srcd.len() as int;
                    let sg = m0[i as int].path.skip(lg);
                    assert(list@[i as int].path@[j as int]@ == m0[i as int].path[j as int]);
                    assert(np@[np@.len() - 1]@ == sg[j - lg]);
                    assert forall|q: int| 0 <= q < np@.len() implies np.deep_view()[q] == (dstd
                        + sg.take(j + 1 - lg))[q] by {
                        if q < np@.len() - 1 {
                            assert(np.deep_view()[q] == np@[q]@);
                            assert(prev[q] == np@[q]@);
                        }
                    }
                    assert(np.deep_view() =~= dstd + sg.take(j + 1 - lg));
                }
                j = j + 1;
            }
            proof {
                assert(m0[i as int].path.skip(srcd.len() as int).take(
                    m0[i as int].path.len() - srcd.len(),
                ) =~= m0[i as int].path.skip(srcd.len() as int));
            }
            list[i].path = np;
            proof {
                assert(entries_m(list@)[i as int] =~~= f(m0[i as int]));
                assert forall|k: int| 0 <= k < i + 1 implies entries_m(list@)[k] == f(
                    #[trigger] m0[k],
                ) by {}
            }
        }
        i = i + 1;
    }
    proof {
        let mf = entries_m(list@);
        assert(mf =~~= rename_subtree(m0, srcd, dstd));
        let l = srcd.len() as int;
        assert forall|a: int, b: int| 0 <= a < b < mf.len() implies (#[trigger] mf[a]).path != (
        #[trigger] mf[b]).path by {
            let qa = m0[a].path;
            let qb = m0[b].path;
            if extends(qa, srcd) && extends(qb, srcd) {
                if mf[a].path == mf[b].path {
                    assert((dstd + qa.skip(l)).skip(dstd.len() as int) =~= qa.skip(l));
                    assert((dstd + qb.skip(l)).skip(dstd.len() as int) =~= qb.skip(l));
                    assert(qa.skip(l) == qb.skip(l));
                    assert(qa =~= qa.subrange(0, l) + qa.skip(l));
                    assert(qb =~= qb.subrange(0, l) + qb.skip(l));
                    assert(qa == qb);
                    assert(false);
                }
            } else if extends(qa, srcd) {
                assert((dstd + qa.skip(l)).subrange(0, dstd.len() as int) =~= dstd);
                assert(extends(mf[a].path, dstd));
                assert(!extends(mf[b].path, dstd));
            } else if extends(qb, srcd) {
                assert((dstd + qb.skip(l)).subrange(0, dstd.len() as int) =~= dstd);
                assert(extends(mf[b].path, dstd));
                assert(!extends(mf[a].path, dstd));
            }
        }
        assert forall|k: int| 0 <= k < mf.len() implies wf_values((#[trigger] mf[k]).values) by {
            assert(mf[k] == f(m0[k]));
        }
        if has_key(m0, srcd) {
            lemma_has_key_exists(m0, srcd);
            let k0 = choose|k: int| 0 <= k < m0.len() && (#[trigger] m0[k]).path == srcd;
            assert(srcd.subrange(0, srcd.len() as int) =~= srcd);
            assert(extends(m0[k0].path, srcd));
            assert(mf[k0].path =~= dstd);
            lemma_has_key_exists(mf, dstd);
        }
    }
}

// ---------------------------------------------------------------------
// Copy
// ---------------------------------------------------------------------

/// The value list with every pair of the first `n` of `vs` set, in order.
pub open spec fn set_assoc_all(
    base: Seq<(Seq<char>, RegValueM)>,
    vs: Seq<(Seq<char>, RegValueM)>,
    n: int,
) -> Seq<(Seq<char>, RegValueM)>
    decreases n,
{
    if n <= 0 {
        base
    } else {
        set_assoc(set_assoc_all(base, vs, n - 1), vs[n - 1].0, vs[n - 1].1)
    }
}

/// The table with one key copied onto `p`: the key is created if absent
/// and the given values are merged over its own, in order.
pub open spec fn copy_entry(
    es: Seq<KeyEntryM>,
    p: Seq<Seq<char>>,
    vs: Seq<(Seq<char>, RegValueM)>,
) -> Seq<KeyEntryM> {
    let es1 = ensure_key(es, p);
    let ki = key_index(es1, p);
    es1.update(ki, KeyEntryM { path: p, values: set_assoc_all(es1[ki].values, vs, vs.len() as int) })
}

/// The table with the first `n` of `srcs` copied onto their rebased
/// paths, in order.
pub open spec fn copy_entries(
    es: Seq<KeyEntryM>,
    srcs: Seq<KeyEntryM>,
    src: Seq<Seq<char>>,
    dst: Seq<Seq<char>>,
    n: int,
) -> Seq<KeyEntryM>
    decreases n,
{
    if n <= 0 {
        es
    } else {
        copy_entry(
            copy_entries(es, srcs, src, dst, n - 1),
            rebase(srcs[n - 1].path, src, dst),
            srcs[n - 1].values,
        )
    }
}

/// Copy one key's values onto the key at `p`, creating it if absent.
fn copy_entry_in(list: &mut Vec<KeyEntry>, p: &Vec<String>, vs: &Vec<(String, RegValue)>)
    requires
        wf_entries(entries_m(old(list)@)),
    ensures
        wf_entries(entries_m(final(list)@)),
        entries_m(final(list)@) == copy_entry(
            entries_m(old(list)@),
            p.deep_view(),
            vs@.map_values(|q: (String, RegValue)| (q.0@, q.1@)),
        ),
{
    let ghost m0 = entries_m(list@);
    let ghost pd = p.deep_view();
    let ghost vsm = vs@.map_values(|q: (String, RegValue)| (q.0@, q.1@));
    match find_key(list, p) {
        Some(_) => {
            proof {
                assert(ensure_key(m0, pd) == m0);
            }
        },
        None => {
            proof {
                lemma_key_index_props(m0, pd);
            }
            let e = KeyEntry { path: clone_path(p), values: Vec::new() };
            proof {
                assert(e@.values =~= Seq::<(Seq<char>, RegValueM)>::empty());
                lemma_wf_push(m0, e@);
            }
            list.push(e);
            proof {
                assert(entries_m(list@) =~~= ensure_key(m0, pd));
                let mnow = entries_m(list@);
                assert(mnow[m0.len() as int].path == pd);
                lemma_has_key_exists(mnow, pd);
            }
        },
    }
    let ghost m1 = entries_m(list@);
    let mut k: usize = 0;
    proof {
        lemma_has_key_exists(m1, pd);
        assert(has_key(m1, pd));
        lemma_key_index_props(m1, pd);
        assert(set_assoc_all(m1[key_index(m1, pd)].values, vsm, 0) == m1[key_index(
            m1,
            pd,
        )].values);
        assert(entries_m(list@) =~~= m1.update(
            key_index(m1, pd),
            KeyEntryM {
                path: pd,
                values: set_assoc_all(m1[key_index(m1, pd)].values, vsm, 0),
            },
        ));
    }
    while k < vs.len()
        invariant
            k <= vs@.len(),
            pd == p.deep_view(),
            vsm == vs@.map_values(|q: (String, RegValue)| (q.0@, q.1@)),
            vsm.len() == vs@.len(),
            wf_entries(m1),
            has_key(m1, pd),
            wf_entries(entries_m(list@)),
            entries_m(list@) == m1.update(
                key_index(m1, pd),
                KeyEntryM {
                    path: pd,
                    values: set_assoc_all(m1[key_index(m1, pd)].values, vsm, k as int),
                },
            ),
        decreases vs@.len() - k,
    {
        let ghost mprev = entries_m(list@);
        proof {
            lemma_key_index_props(m1, pd);
            lemma_has_key_exists(m1, pd);
            lemma_has_key_exists(mprev, pd);
            let ki1 = key_index(m1, pd);
            assert(mprev[ki1].path == pd);
            assert forall|j: int| 0 <= j < mprev.len() && j != ki1 implies (
            #[trigger] mprev[j]).path != pd by {
                assert(mprev[j] == m1[j]);
                assert(m1[ki1].path == pd);
            }
            lemma_key_index_first_of_unique(mprev, pd, ki1);
        }
        match set_value_in(list, p, &vs[k].0, &vs[k].1) {
            Ok(()) => {},
            Err(_) => {
                proof {
                    assert(false);
                }
            },
        }
        proof {
            assert(entries_m(list@) =~~= m1.update(
                key_index(m1, pd),
                KeyEntryM {
                    path: pd,
                    values: set_assoc_all(m1[key_index(m1, pd)].values, vsm, k as int + 1),
                },
            ));
        }
        k = k + 1;
    }
    proof {
        assert(entries_m(list@) =~~= copy_entry(m0, pd, vsm));
    }
}

/// In a well-formed table the entry with a path determines `key_index`.
proof fn lemma_key_index_first_of_unique(es: Seq<KeyEntryM>, path: Seq<Seq<char>>, i: int)
    requires
        0 <= i < es.len(),
        es[i].path == path,
        forall|j: int| 0 <= j < es.len() && j != i ==> (#[trigger] es[j]).path != path,
    ensures
        key_index(es, path) == i,
{
    lemma_key_index_first(es, path, i);
}

/// Copy the subtree at `src` onto `dst`: each key at or below `src` is
/// copied, in table order, onto its rebased path; existing keys are kept
/// and their values merged.
pub fn copy_tree_in(list: &mut Vec<KeyEntry>, src: &Vec<String>, dst: &Vec<String>)
    requires
        wf_entries(entries_m(old(list)@)),
    ensures
        wf_entries(entries_m(final(list)@)),
        entries_m(final(list)@) == copy_entries(
            entries_m(old(list)@),
            entries_m(old(list)@).filter(
                (|e: KeyEntryM| extends(e.path, src.deep_view())),
            ),
            src.deep_view(),
            dst.deep_view(),
            entries_m(old(list)@).filter(
                (|e: KeyEntryM| extends(e.path, src.deep_view())),
            ).len() as int,
        ),
{
    let ghost m0 = entries_m(list@);
    let ghost srcd = src.deep_view();
    let ghost dstd = dst.deep_view();
    let ghost pred = (|e: KeyEntryM| extends(e.path, srcd));
    // snapshot the source subtree
    let mut snap: Vec<KeyEntry> = Vec::new();
    let mut i: usize = 0;
    proof {
        reveal(Seq::filter);
        assert(m0.take(0) =~= Seq::<KeyEntryM>::empty());
        assert(entries_m(snap@) =~= m0.take(0).filter(pred));
    }
    while i < list.len()
        invariant
            i <= m0.len(),
            m0 == entries_m(list@),
            srcd == src.deep_view(),
            pred == (|e: KeyEntryM| extends(e.path, srcd)),
            entries_m(snap@) == m0.take(i as int).filter(pred),
        decreases m0.len() - i,
    {
        proof {
            assert(entries_m(list@)[i as int] == list@[i as int]@);
            assert(m0.take(i as int + 1).drop_last() =~= m0.take(i as int));
            reveal(Seq::filter);
        }
        if path_extends(&list[i].path, src) {
            let e = KeyEntry {
                path: clone_path(&list[i].path),
                values: clone_values(&list[i].values),
            };
            proof {
                assert(e@ =~~= m0[i as int]);
            }
            snap.push(e);
            proof {
                assert(entries_m(snap@) =~= m0.take(i as int + 1).filter(pred));
            }
        } else {
            proof {
                assert(entries_m(snap@) =~= m0.take(i as int + 1).filter(pred));
            }
        }
        i = i + 1;
    }
    proof {
        assert(m0.take(m0.len() as int) =~= m0);
    }
    let ghost snapm = entries_m(snap@);
    // copy each snapshot entry onto its rebased path
    let mut j: usize = 0;
    while j < snap.len()
        invariant
            j <= snapm.len(),
            snapm == entries_m(snap@),
            snapm == m0.filter(pred),
            srcd == src.deep_view(),
            dstd == dst.deep_view(),
            pred == (|e: KeyEntryM| extends(e.path, srcd)),
            wf_entries(entries_m(list@)),
            entries_m(list@) == copy_entries(m0, snapm, srcd, dstd, j as int),
        decreases snapm.len() - j,
    {
        proof {
            broadcast use vstd::seq_lib::group_filter_ensures;

            assert(pred(snapm[j as int]));
            assert(extends(snapm[j as int].path, srcd));
            assert(entries_m(snap@)[j as int] == snap@[j as int]@);
        }
        let mut np = clone_path(dst);
        let mut t: usize = src.len();
        proof {
            assert(np.deep_view() =~= dstd + snapm[j as int].path.skip(srcd.len() as int).take(0));
        }
        while t < snap[j].path.len()
            invariant
                j < snapm.len(),
                snapm == entries_m(snap@),
                snapm[j as int] == snap@[j as int]@,
                srcd == src.deep_view(),
                dstd == dst.deep_view(),
                srcd.len() <= t <= snapm[j as int].path.len(),
                snapm[j as int].path == snap@[j as int].path.deep_view(),
                np@.len() == dstd.len() + t - srcd.len(),
                np.deep_view() == dstd + snapm[j as int].path.skip(srcd.len() as int).take(
                    t - srcd.len(),
                ),
            decreases snap@[j as int].path@.len() - t,
        {
            let ghost prev = np.deep_view();
            np.push(snap[j].path[t].clone());
            proof {
                let lg = srcd.len() as int;
                let sg = snapm[j as int].path.skip(lg);
                assert(snap@[j as int].path@[t as int]@ == snapm[j as int].path[t as int]);
                assert(np@[np@.len() - 1]@ == sg[t - lg]);
                assert forall|q: int| 0 <= q < np@.len() implies np.deep_view()[q] == (dstd
                    + sg.take(t + 1 - lg))[q] by {
                    if q < np@.len() - 1 {
                        assert(np.deep_view()[q] == np@[q]@);
                        assert(prev[q] == np@[q]@);
                    }
                }
                assert(np.deep_view() =~= dstd + sg.take(t + 1 - lg));
            }
            t = t + 1;
        }
        proof {
            assert(snapm[j as int].path.skip(srcd.len() as int).take(
                snapm[j as int].path.len() - srcd.len(),
            ) =~= snapm[j as int].path.skip(srcd.len() as int));
            assert(np.deep_view() == rebase(snapm[j as int].path, srcd, dstd));
        }
        copy_entry_in(list, &np, &snap[j].values);
        j = j + 1;
    }
}

/// Whether any key lies at or below `path`.
pub fn any_at_or_below(list: &Vec<KeyEntry>, path: &Vec<String>) -> (r: bool)
    ensures
        r == exists|i: int|
            0 <= i < entries_m(list@).len() && extends(
                (#[trigger] entries_m(list@)[i]).path,
                path.deep_view(),
            ),
{
    let ghost m = entries_m(list@);
    let ghost pd = path.deep_view();
    let mut i: usize = 0;
    while i < list.len()
        invariant
            i <= m.len(),
            m == entries_m(list@),
            pd == path.deep_view(),
            forall|k: int| 0 <= k < i ==> !extends((#[trigger] m[k]).path, pd),
        decreases m.len() - i,
    {
        if path_extends(&list[i].path, path) {
            proof {
                assert(extends(m[i as int].path, pd));
            }
            return true;
        }
        proof {
            assert(m[i as int].path == list@[i as int]@.path);
        }
        i = i + 1;
    }
    false
}

/// A fresh copy of a whole table.
pub fn clone_entries(src: &Vec<KeyEntry>) -> (r: Vec<KeyEntry>)
    ensures
        entries_m(r@) == entries_m(src@),
{
    let mut r: Vec<KeyEntry> = Vec::new();
    let mut i: usize = 0;
    while i < src.len()
        invariant
            i <= src@.len(),
            r@.len() == i,
            forall|k: int| 0 <= k < i ==> entries_m(r@)[k] == entries_m(src@)[k],
        decreases src@.len() - i,
    {
        let e = KeyEntry { path: clone_path(&src[i].path), values: clone_values(&src[i].values) };
        proof {
            assert(e@ =~~= src@[i as int]@);
        }
        r.push(e);
        i = i + 1;
    }
    proof {
        assert(entries_m(r@) =~= entries_m(src@));
    }
    r
}

/// Reading back a value that was just set yields exactly the raw content
/// that was stored, whatever was there before.
pub proof fn lemma_store_then_lookup(
    es: Seq<KeyEntryM>,
    path: Seq<Seq<char>>,
    name: Seq<char>,
    rv: RegValueM,
)
    requires
        wf_entries(es),
        has_key(es, path),
    ensures
        lookup_value(store_value(es, path, name, rv), path, name) == Some(rv),
{
    lemma_key_index_props(es, path);
    let ki = key_index(es, path);
    let vs = es[ki].values;
    lemma_value_index_props(vs, name);
    let vi = value_index(vs, name);
    let es2 = store_value(es, path, name, rv);
    assert forall|j: int| 0 <= j < es2.len() && j != ki implies (#[trigger] es2[j]).path
        != path by {
        assert(es2[j] == es[j]);
        assert(es[ki].path == path);
    }
    lemma_key_index_first_of_unique(es2, path, ki);
    let vs2 = es2[ki].values;
    if vi < 0 {
        assert(vs2 == vs.push((name, rv)));
        assert(forall|k: int| 0 <= k < vs.len() ==> (#[trigger] vs2[k]) == vs[k]);
        lemma_value_index_first(vs2, name, vs.len() as int);
        assert(vs2[vs.len() as int] == (name, rv));
    } else {
        assert(vs2 == vs.update(vi, (name, rv)));
        assert forall|k: int| 0 <= k < vi implies (#[trigger] vs2[k]).0 != name by {
            assert(vs2[k] == vs[k]);
            assert(vs[vi].0 == name);
        }
        lemma_value_index_first(vs2, name, vi);
        assert(vs2[vi] == (name, rv));
    }
}

// ---------------------------------------------------------------------
// Enumeration and metadata
// ---------------------------------------------------------------------

/// Length of the longest UTF-16 encoding among the given names; 0 when
/// there are none.
pub open spec fn max_units_len(names: Seq<Seq<char>>) -> nat
    decreases names.len(),
{
    if names.len() == 0 {
        0
    } else {
        let rest = max_units_len(names.drop_last());
        let h = crate::utf16::units_of(names.last()).len();
        if h > rest {
            h
        } else {
            rest
        }
    }
}

/// Length of the longest UTF-16 encoding among the value names; 0 when
/// there are none.
pub open spec fn max_name_units(vs: Seq<(Seq<char>, RegValueM)>) -> nat
    decreases vs.len(),
{
    if vs.len() == 0 {
        0
    } else {
        let rest = max_name_units(vs.drop_last());
        let h = crate::utf16::units_of(vs.last().0).len();
        if h > rest {
            h
        } else {
            rest
        }
    }
}

/// Length in bytes of the longest value; 0 when there are none.
pub open spec fn max_data_len(vs: Seq<(Seq<char>, RegValueM)>) -> nat
    decreases vs.len(),
{
    if vs.len() == 0 {
        0
    } else {
        let rest = max_data_len(vs.drop_last());
        let h = vs.last().1.bytes.len();
        if h > rest {
            h
        } else {
            rest
        }
    }
}

/// The name of the `idx`-th direct child of the key at `parent`, in
/// store enumeration order, or `None` past the end.
pub fn child_name_at(list: &Vec<KeyEntry>, parent: &Vec<String>, idx: usize) -> (r: Option<String>)
    ensures
        match r {
            Some(n) => idx < child_names(entries_m(list@), parent.deep_view()).len() && n@
                == child_names(entries_m(list@), parent.deep_view())[idx as int] && idx
                < usize::MAX,
            None => idx >= child_names(entries_m(list@), parent.deep_view()).len(),
        },
{
    let ghost m = entries_m(list@);
    let ghost pd = parent.deep_view();
    let ghost cpred = (|e: KeyEntryM| is_child_of(e.path, pd));
    let mut cnt: usize = 0;
    let mut i: usize = 0;
    proof {
        reveal(Seq::filter);
        assert(m.take(0) =~= Seq::<KeyEntryM>::empty());
        assert(child_names(m.take(0), pd) =~= Seq::<Seq<char>>::empty());
    }
    while i < list.len()
        invariant
            i <= m.len(),
            m == entries_m(list@),
            pd == parent.deep_view(),
            cpred == (|e: KeyEntryM| is_child_of(e.path, pd)),
            cnt == child_names(m.take(i as int), pd).len(),
            cnt <= i,
            cnt <= idx,
        decreases m.len() - i,
    {
        proof {
            assert(m[i as int] == list@[i as int]@);
            assert(m.take(i as int + 1).drop_last() =~= m.take(i as int));
            reveal(Seq::filter);
        }
        let matched = path_extends(&list[i].path, parent) && list[i].path.len() - parent.len()
            == 1;
        proof {
            assert(matched == is_child_of(m[i as int].path, pd));
        }
        if matched {
            proof {
                assert(child_names(m.take(i as int + 1), pd) =~= child_names(
                    m.take(i as int),
                    pd,
                ).push(m[i as int].path.last()));
            }
            if cnt == idx {
                let name = list[i].path[list[i].path.len() - 1].clone();
                proof {
                    assert(name@ == m[i as int].path.last());
                    assert(m =~= m.take(i as int + 1) + m.skip(i as int + 1));
                    Seq::filter_distributes_over_add(
                        m.take(i as int + 1),
                        m.skip(i as int + 1),
                        cpred,
                    );
                    assert(child_names(m, pd) =~= child_names(m.take(i as int + 1), pd)
                        + child_names(m.skip(i as int + 1), pd));
                    assert(child_names(m, pd)[idx as int] == name@);
                }
                return Some(name);
            }
            cnt = cnt + 1;
        } else {
            proof {
                assert(child_names(m.take(i as int + 1), pd) =~= child_names(m.take(i as int), pd));
            }
        }
        i = i + 1;
    }
    proof {
        assert(m.take(m.len() as int) =~= m);
    }
    None
}

/// Outcome of one sized query for the value at an index: the pair fit in
/// the offered buffer, or the needed size, or there is no such value.
enum EnumStep {
    Hit(String, RegValue),
    More(usize),
    NoMore,
    NoKey,
}

/// One sized query for the value at `idx` of the key at `path`.
fn enum_value_step(
    list: &Vec<KeyEntry>,
    path: &Vec<String>,
    idx: usize,
    cap: u32,
) -> (r: EnumStep)
    ensures
        ({
            let m = entries_m(list@);
            let ki = key_index(m, path.deep_view());
            if ki < 0 {
                r is NoKey
            } else if idx >= m[ki].values.len() {
                r is NoMore
            } else {
                let pair = m[ki].values[idx as int];
                if pair.1.bytes.len() <= cap {
                    r matches EnumStep::Hit(n, v) && n@ == pair.0 && v@ == pair.1 && idx
                        < usize::MAX
                } else {
                    r matches EnumStep::More(need) && need == pair.1.bytes.len() && idx
                        < usize::MAX
                }
            }
        }),
{
    let ki = match find_key(list, path) {
        Some(i) => i,
        None => {
            return EnumStep::NoKey;
        },
    };
    proof {
        assert(entries_m(list@)[ki as int] == list@[ki as int]@);
    }
    if idx >= list[ki].values.len() {
        return EnumStep::NoMore;
    }
    let pair = &list[ki].values[idx];
    proof {
        assert(entries_m(list@)[ki as int].values[idx as int] == (pair.0@, pair.1@));
    }
    if pair.1.bytes.len() <= cap as usize {
        EnumStep::Hit(pair.0.clone(), dup_value(&pair.1))
    } else {
        EnumStep::More(pair.1.bytes.len())
    }
}

/// Read the value at `idx` of the key at `path` through the
/// buffer-growth protocol: `Ok(None)` past the last value, the exact
/// name and bytes otherwise, data-too-large past the ceiling.
pub fn read_value_at_in(
    list: &Vec<KeyEntry>,
    path: &Vec<String>,
    idx: usize,
    ceiling: u32,
) -> (r: RegResult<Option<(String, RegValue)>>)
    ensures
        ({
            let m = entries_m(list@);
            let ki = key_index(m, path.deep_view());
            if ki < 0 {
                r matches Err(e) && e.err == ERROR_FILE_NOT_FOUND
            } else if idx >= m[ki].values.len() {
                r matches Ok(o) && o is None
            } else {
                let pair = m[ki].values[idx as int];
                if pair.1.bytes.len() <= ceiling {
                    r matches Ok(o) && (o matches Some(p) && p.0@ == pair.0 && p.1@ == pair.1)
                        && idx < usize::MAX
                } else {
                    r matches Err(e) && e.err == ERROR_FILE_TOO_LARGE && idx < usize::MAX
                }
            }
        }),
{
    let mut cap: u32 = if INITIAL_BUF_SIZE <= ceiling {
        INITIAL_BUF_SIZE
    } else {
        ceiling
    };
    loop
        invariant
            cap <= ceiling,
            ceiling > 0 ==> cap > 0,
        decreases ceiling - cap,
    {
        match enum_value_step(list, path, idx, cap) {
            EnumStep::Hit(n, v) => {
                return Ok(Some((n, v)));
            },
            EnumStep::More(needed) => {
                if needed > ceiling as usize {
                    return Err(RegError { err: ERROR_FILE_TOO_LARGE });
                }
                cap = next_buf_size(cap, ceiling);
            },
            EnumStep::NoMore => {
                return Ok(None);
            },
            EnumStep::NoKey => {
                return Err(RegError { err: ERROR_FILE_NOT_FOUND });
            },
        }
    }
}

/// The counts and maximum lengths of the key at `path`: child count,
/// longest child name in UTF-16 units, value count, longest value name
/// in UTF-16 units, longest value data in bytes.
pub fn key_info_in(list: &Vec<KeyEntry>, path: &Vec<String>) -> (r: RegResult<
    (usize, usize, usize, usize, usize),
>)
    ensures
        ({
            let m = entries_m(list@);
            let pd = path.deep_view();
            match r {
                Ok(info) => has_key(m, pd) && {
                    let ki = key_index(m, pd);
                    &&& info.0 == child_names(m, pd).len()
                    &&& info.1 == max_units_len(child_names(m, pd))
                    &&& info.2 == m[ki].values.len()
                    &&& info.3 == max_name_units(m[ki].values)
                    &&& info.4 == max_data_len(m[ki].values)
                },
                Err(e) => e.err == ERROR_FILE_NOT_FOUND && !has_key(m, pd),
            }
        }),
{
    let ghost m = entries_m(list@);
    let ghost pd = path.deep_view();
    let ki = match find_key(list, path) {
        Some(i) => i,
        None => {
            return Err(RegError { err: ERROR_FILE_NOT_FOUND });
        },
    };
    proof {
        assert(m[ki as int] == list@[ki as int]@);
    }
    // children: count and longest name
    let mut cnt: usize = 0;
    let mut maxname: usize = 0;
    let mut i: usize = 0;
    proof {
        reveal(Seq::filter);
        assert(m.take(0) =~= Seq::<KeyEntryM>::empty());
        assert(child_names(m.take(0), pd) =~= Seq::<Seq<char>>::empty());
    }
    while i < list.len()
        invariant
            i <= m.len(),
            m == entries_m(list@),
            pd == path.deep_view(),
            cnt == child_names(m.take(i as int), pd).len(),
            cnt <= i,
            maxname == max_units_len(child_names(m.take(i as int), pd)),
        decreases m.len() - i,
    {
        proof {
            assert(m[i as int] == list@[i as int]@);
            assert(m.take(i as int + 1).drop_last() =~= m.take(i as int));
            reveal(Seq::filter);
        }
        let matched = path_extends(&list[i].path, path) && list[i].path.len() - path.len() == 1;
        proof {
            assert(matched == is_child_of(m[i as int].path, pd));
        }
        if matched {
            proof {
                assert(child_names(m.take(i as int + 1), pd) =~= child_names(
                    m.take(i as int),
                    pd,
                ).push(m[i as int].path.last()));
                assert(child_names(m.take(i as int + 1), pd).drop_last() =~= child_names(
                    m.take(i as int),
                    pd,
                ));
            }
            let u = crate::utf16::encode_utf16_str(list[i].path[list[i].path.len() - 1].as_str());
            proof {
                assert(u@.len() == crate::utf16::units_of(m[i as int].path.last()).len());
            }
            if u.len() > maxname {
                maxname = u.len();
            }
            cnt = cnt + 1;
        } else {
            proof {
                assert(child_names(m.take(i as int + 1), pd) =~= child_names(m.take(i as int), pd));
            }
        }
        i = i + 1;
    }
    proof {
        assert(m.take(m.len() as int) =~= m);
    }
    // values: count and longest name and data
    let vs = &list[ki].values;
    let ghost vsm = m[ki as int].values;
    let mut maxvname: usize = 0;
    let mut maxvdata: usize = 0;
    let mut k: usize = 0;
    proof {
        assert(vsm.take(0) =~= Seq::<(Seq<char>, RegValueM)>::empty());
    }
    while k < vs.len()
        invariant
            k <= vsm.len(),
            m == entries_m(list@),
            (ki as int) < m.len(),
            vsm == m[ki as int].values,
            vsm == vs@.map_values(|q: (String, RegValue)| (q.0@, q.1@)),
            vsm.len() == vs@.len(),
            maxvname == max_name_units(vsm.take(k as int)),
            maxvdata == max_data_len(vsm.take(k as int)),
        decreases vsm.len() - k,
    {
        proof {
            assert(vsm.take(k as int + 1).drop_last() =~= vsm.take(k as int));
            assert(vsm.take(k as int + 1).last() == vsm[k as int]);
        }
        let u = crate::utf16::encode_utf16_str(vs[k].0.as_str());
        proof {
            assert(u@.len() == crate::utf16::units_of(vsm[k as int].0).len());
        }
        if u.len() > maxvname {
            maxvname = u.len();
        }
        if vs[k].1.bytes.len() > maxvdata {
            maxvdata = vs[k].1.bytes.len();
        }
        proof {
            assert(vs@[k as int].1.bytes@.len() == vsm[k as int].1.bytes.len());
        }
        k = k + 1;
    }
    proof {
        assert(vsm.take(vsm.len() as int) =~= vsm);
    }
    Ok((cnt, maxname, vs.len(), maxvname, maxvdata))
}

/// A fresh copy of a value list.
pub fn clone_values(vs: &Vec<(String, RegValue)>) -> (r: Vec<(String, RegValue)>)
    ensures
        r@.map_values(|q: (String, RegValue)| (q.0@, q.1@)) == vs@.map_values(
            |q: (String, RegValue)| (q.0@, q.1@),
        ),
{
    let mut r: Vec<(String, RegValue)> = Vec::new();
    let mut i: usize = 0;
    while i < vs.len()
        invariant
            i <= vs@.len(),
            r@.len() == i,
            forall|k: int|
                0 <= k < i ==> (#[trigger] r@[k]).0@ == vs@[k].0@ && r@[k].1@ == vs@[k].1@,
        decreases vs@.len() - i,
    {
        r.push((vs[i].0.clone(), dup_value(&vs[i].1)));
        i = i + 1;
    }
    proof {
        assert(r@.map_values(|q: (String, RegValue)| (q.0@, q.1@)) =~= vs@.map_values(
            |q: (String, RegValue)| (q.0@, q.1@),
        ));
    }
    r
}

} // verus!
