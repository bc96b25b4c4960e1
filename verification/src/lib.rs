//! Typed, verified access to a hierarchical key/value store.
//!
//! Keys form a tree; each key holds named values of a few fixed primitive
//! types (strings, string lists, 32-bit and 64-bit integers, raw byte
//! blobs). The store itself is an explicit [`Registry`] value; a [`RegKey`]
//! is a handle into it, opened or created by path, through which values are
//! read, written and enumerated, children are listed, and subtrees are
//! deleted, renamed or copied. Mutations can be grouped into an atomic
//! [`transaction::Transaction`].

use vstd::prelude::*;

pub mod enums;
pub mod store;
pub mod transaction;
pub mod types;
pub mod utf16;

verus! {

use vstd::string::StringExecFns;
use vstd::string::StrSliceExecFns;
use crate::enums::RegType;

// Native numeric error codes of the store.
pub const ERROR_FILE_NOT_FOUND: u32 = 2;
pub const ERROR_ACCESS_DENIED: u32 = 5;
pub const ERROR_INVALID_HANDLE: u32 = 6;
pub const ERROR_INVALID_BLOCK: u32 = 9;
pub const ERROR_SHARING_VIOLATION: u32 = 32;
pub const ERROR_INVALID_PARAMETER: u32 = 87;
pub const ERROR_DIR_NOT_EMPTY: u32 = 145;
pub const ERROR_ALREADY_EXISTS: u32 = 183;
pub const ERROR_BAD_FILE_TYPE: u32 = 222;
pub const ERROR_FILE_TOO_LARGE: u32 = 223;
pub const ERROR_MORE_DATA: u32 = 234;
pub const ERROR_NO_MORE_ITEMS: u32 = 259;
pub const ERROR_TRANSACTION_NOT_ACTIVE: u32 = 6700;

/// The failure classes a caller can act on. Every numeric code the library
/// produces maps to exactly one of these; codes it does not produce itself
/// fall under `Store`.
#[derive(Clone, Copy, PartialEq, Eq, Structural, Debug)]
pub enum RegErrorKind {
    /// A path component or a value name that does not exist.
    NotFound,
    /// The handle's access mask does not permit the operation.
    AccessDenied,
    /// A sibling with the target name already exists.
    AlreadyExists,
    /// A non-recursive delete of a key that still has children.
    HasChildren,
    /// A value longer than the configured growth ceiling.
    DataTooLarge,
    /// An unsupported or mismatched type tag during decode.
    BadType,
    /// Malformed value bytes: invalid UTF-16 content or a wrong length.
    InvalidEncoding,
    /// Commit or rollback of a transaction that is no longer active.
    TransactionTerminal,
    /// The store refused to share a resource.
    SharingViolation,
    /// Any other native code.
    Store,
}

/// The failure class of a native numeric code.
pub open spec fn spec_kind_of_code(c: u32) -> RegErrorKind {
    if c == ERROR_FILE_NOT_FOUND {
        RegErrorKind::NotFound
    } else if c == ERROR_ACCESS_DENIED {
        RegErrorKind::AccessDenied
    } else if c == ERROR_ALREADY_EXISTS {
        RegErrorKind::AlreadyExists
    } else if c == ERROR_DIR_NOT_EMPTY {
        RegErrorKind::HasChildren
    } else if c == ERROR_FILE_TOO_LARGE {
        RegErrorKind::DataTooLarge
    } else if c == ERROR_BAD_FILE_TYPE {
        RegErrorKind::BadType
    } else if c == ERROR_INVALID_BLOCK {
        RegErrorKind::InvalidEncoding
    } else if c == ERROR_TRANSACTION_NOT_ACTIVE {
        RegErrorKind::TransactionTerminal
    } else if c == ERROR_SHARING_VIOLATION {
        RegErrorKind::SharingViolation
    } else {
        RegErrorKind::Store
    }
}

/// An operation's failure: the native numeric code of the store.
#[derive(Debug)]
pub struct RegError {
    pub err: u32,
}

impl RegError {
    /// The failure class of this error.
    pub fn kind(&self) -> (k: RegErrorKind)
        ensures
            k == spec_kind_of_code(self.err),
    {
        if self.err == ERROR_FILE_NOT_FOUND {
            RegErrorKind::NotFound
        } else if self.err == ERROR_ACCESS_DENIED {
            RegErrorKind::AccessDenied
        } else if self.err == ERROR_ALREADY_EXISTS {
            RegErrorKind::AlreadyExists
        } else if self.err == ERROR_DIR_NOT_EMPTY {
            RegErrorKind::HasChildren
        } else if self.err == ERROR_FILE_TOO_LARGE {
            RegErrorKind::DataTooLarge
        } else if self.err == ERROR_BAD_FILE_TYPE {
            RegErrorKind::BadType
        } else if self.err == ERROR_INVALID_BLOCK {
            RegErrorKind::InvalidEncoding
        } else if self.err == ERROR_TRANSACTION_NOT_ACTIVE {
            RegErrorKind::TransactionTerminal
        } else if self.err == ERROR_SHARING_VIOLATION {
            RegErrorKind::SharingViolation
        } else {
            RegErrorKind::Store
        }
    }
}

/// The human-readable text of a native numeric code.
pub open spec fn spec_error_message(c: u32) -> Seq<char> {
    if c == ERROR_FILE_NOT_FOUND {
        "The system cannot find the file specified."@
    } else if c == ERROR_ACCESS_DENIED {
        "Access is denied."@
    } else if c == ERROR_INVALID_HANDLE {
        "The handle is invalid."@
    } else if c == ERROR_INVALID_BLOCK {
        "The storage control block address is invalid."@
    } else if c == ERROR_SHARING_VIOLATION {
        "The process cannot access the file because it is being used by another process."@
    } else if c == ERROR_INVALID_PARAMETER {
        "The parameter is incorrect."@
    } else if c == ERROR_DIR_NOT_EMPTY {
        "The directory is not empty."@
    } else if c == ERROR_ALREADY_EXISTS {
        "Cannot create a file when that file already exists."@
    } else if c == ERROR_BAD_FILE_TYPE {
        "The file type being saved or retrieved has been blocked."@
    } else if c == ERROR_FILE_TOO_LARGE {
        "The file size exceeds the limit allowed and cannot be saved."@
    } else if c == ERROR_MORE_DATA {
        "More data is available."@
    } else if c == ERROR_NO_MORE_ITEMS {
        "No more data is available."@
    } else if c == ERROR_TRANSACTION_NOT_ACTIVE {
        "The transaction handle associated with this operation is not valid."@
    } else {
        "unrecognized store error"@
    }
}

impl RegError {
    /// A human-readable description of this error's native code.
    pub fn message(&self) -> (r: String)
        ensures
            r@ == spec_error_message(self.err),
    {
        if self.err == ERROR_FILE_NOT_FOUND {
            String::from_str("The system cannot find the file specified.")
        } else if self.err == ERROR_ACCESS_DENIED {
            String::from_str("Access is denied.")
        } else if self.err == ERROR_INVALID_HANDLE {
            String::from_str("The handle is invalid.")
        } else if self.err == ERROR_INVALID_BLOCK {
            String::from_str("The storage control block address is invalid.")
        } else if self.err == ERROR_SHARING_VIOLATION {
            String::from_str(
                "The process cannot access the file because it is being used by another process.",
            )
        } else if self.err == ERROR_INVALID_PARAMETER {
            String::from_str("The parameter is incorrect.")
        } else if self.err == ERROR_DIR_NOT_EMPTY {
            String::from_str("The directory is not empty.")
        } else if self.err == ERROR_ALREADY_EXISTS {
            String::from_str("Cannot create a file when that file already exists.")
        } else if self.err == ERROR_BAD_FILE_TYPE {
            String::from_str("The file type being saved or retrieved has been blocked.")
        } else if self.err == ERROR_FILE_TOO_LARGE {
            String::from_str("The file size exceeds the limit allowed and cannot be saved.")
        } else if self.err == ERROR_MORE_DATA {
            String::from_str("More data is available.")
        } else if self.err == ERROR_NO_MORE_ITEMS {
            String::from_str("No more data is available.")
        } else if self.err == ERROR_TRANSACTION_NOT_ACTIVE {
            String::from_str(
                "The transaction handle associated with this operation is not valid.",
            )
        } else {
            String::from_str("unrecognized store error")
        }
    }
}

/// Result of every fallible operation of the library.
pub type RegResult<T> = Result<T, RegError>;

/// Abstract content of a raw value: its bytes and its type tag.
pub struct RegValueM {
    pub bytes: Seq<u8>,
    pub vtype: RegType,
}

/// Raw value of a key: a byte blob together with the type tag that states
/// how the bytes are encoded.
#[derive(Debug, PartialEq)]
pub struct RegValue {
    pub bytes: Vec<u8>,
    pub vtype: RegType,
}

impl View for RegValue {
    type V = RegValueM;

    open spec fn view(&self) -> RegValueM {
        RegValueM { bytes: self.bytes@, vtype: self.vtype }
    }
}

// ---------------------------------------------------------------------
// Paths
// ---------------------------------------------------------------------

/// Index of the first path separator, or the length if there is none.
pub open spec fn first_sep(s: Seq<char>) -> int
    decreases s.len(),
{
    if s.len() == 0 {
        0
    } else if s[0] == '\\' {
        0
    } else {
        1 + first_sep(s.skip(1))
    }
}

/// The first separator lies within the sequence.
pub proof fn lemma_first_sep_bounds(s: Seq<char>)
    ensures
        0 <= first_sep(s) <= s.len(),
    decreases s.len(),
{
    if s.len() == 0 {
    } else if s[0] == '\\' {
    } else {
        lemma_first_sep_bounds(s.skip(1));
    }
}

/// `first_sep` is the scan's stopping point.
pub proof fn lemma_first_sep_at(s: Seq<char>, m: int)
    requires
        0 <= m <= s.len(),
        forall|k: int| 0 <= k < m ==> s[k] != '\\',
        m == s.len() || s[m] == '\\',
    ensures
        first_sep(s) == m,
    decreases m,
{
    if m == 0 {
    } else {
        lemma_first_sep_at(s.skip(1), m - 1);
    }
}

/// The components of a path string: the runs of characters between
/// separators, empty components dropped. The empty path has no
/// components and addresses the key itself.
pub open spec fn split_path(s: Seq<char>) -> Seq<Seq<char>>
    decreases s.len(),
    via split_path_decreases
{
    if s.len() == 0 {
        seq![]
    } else {
        let i = first_sep(s);
        let head = s.subrange(0, i);
        let rest = if i < s.len() {
            split_path(s.skip(i + 1))
        } else {
            seq![]
        };
        if head.len() == 0 {
            rest
        } else {
            seq![head] + rest
        }
    }
}

#[via_fn]
proof fn split_path_decreases(s: Seq<char>) {
    lemma_first_sep_bounds(s);
}

/// The components of a path string.
pub fn parse_path(s: &str) -> (r: Vec<String>)
    ensures
        r.deep_view() == split_path(s@),
{
    let n = s.unicode_len();
    let mut out: Vec<String> = Vec::new();
    let mut i: usize = 0;
    proof {
        assert(s@.skip(0) =~= s@);
        assert(out.deep_view() =~= Seq::<Seq<char>>::empty());
        assert(out.deep_view() + split_path(s@) =~= split_path(s@));
    }
    while i < n
        invariant
            i <= n,
            n == s@.len(),
            split_path(s@) == out.deep_view() + split_path(s@.skip(i as int)),
        decreases n - i,
    {
        let ghost prev = out.deep_view();
        let c = s.get_char(i);
        if c == '\\' {
            proof {
                assert(s@.skip(i as int)[0] == s@[i as int]);
                assert(first_sep(s@.skip(i as int)) == 0);
                assert(s@.skip(i as int).subrange(0, 0).len() == 0);
                assert(s@.skip(i as int).skip(1) =~= s@.skip(i as int + 1));
            }
            i = i + 1;
        } else {
            let mut j: usize = i;
            let mut stop = false;
            while j < n && !stop
                invariant
                    i <= j <= n,
                    n == s@.len(),
                    forall|k: int| i <= k < j ==> s@[k] != '\\',
                    stop ==> j < n && s@[j as int] == '\\',
                decreases n - j, 1int - (if stop {
                    1int
                } else {
                    0int
                }),
            {
                if s.get_char(j) == '\\' {
                    stop = true;
                } else {
                    j = j + 1;
                }
            }
            let mut comp = String::new();
            let mut q: usize = i;
            proof {
                assert(comp@ =~= s@.subrange(i as int, i as int));
            }
            while q < j
                invariant
                    i <= q <= j <= n,
                    n == s@.len(),
                    comp@ == s@.subrange(i as int, q as int),
                decreases j - q,
            {
                let ch = s.get_char(q);
                crate::utf16::push_char(&mut comp, ch);
                proof {
                    assert(comp@ =~= s@.subrange(i as int, q as int + 1));
                }
                q = q + 1;
            }
            proof {
                assert(s@[i as int] != '\\');
                assert(i < j);
                assert forall|k: int| 0 <= k < j - i implies s@.skip(i as int)[k] != '\\' by {
                    assert(s@.skip(i as int)[k] == s@[i + k]);
                }
                lemma_first_sep_at(s@.skip(i as int), j - i);
                assert(s@.skip(i as int).subrange(0, j - i) =~= s@.subrange(i as int, j as int));
                assert(comp@.len() > 0);
            }
            out.push(comp);
            proof {
                assert(out.deep_view() =~= prev.push(s@.subrange(i as int, j as int)));
            }
            if j < n {
                proof {
                    assert(s@.skip(i as int).skip(j - i + 1) =~= s@.skip(j as int + 1));
                    let rest = split_path(s@.skip(j as int + 1));
                    assert(prev + (seq![s@.subrange(i as int, j as int)] + rest)
                        =~= out.deep_view() + rest);
                }
                i = j + 1;
            } else {
                proof {
                    let rest = Seq::<Seq<char>>::empty();
                    assert(split_path(s@.skip(i as int)) == seq![
                        s@.subrange(i as int, j as int),
                    ] + rest);
                    assert(prev + (seq![s@.subrange(i as int, j as int)] + rest)
                        =~= out.deep_view() + rest);
                    assert(out.deep_view() + rest =~= out.deep_view());
                    assert(s@.skip(j as int) =~= Seq::<char>::empty());
                }
                i = j;
            }
        }
    }
    proof {
        assert(s@.skip(n as int) =~= Seq::<char>::empty());
        assert(out.deep_view() + Seq::<Seq<char>>::empty() =~= out.deep_view());
    }
    out
}

// ---------------------------------------------------------------------
// The registry store
// ---------------------------------------------------------------------

use crate::store::entries_m;
use crate::store::wf_entries;
use crate::store::KeyEntry;
use crate::store::KeyEntryM;

/// Default ceiling of the buffer-growth protocol, in bytes.
pub const DEFAULT_DATA_CEILING: u32 = 0x0200_0000;

/// Abstract state of a registry store: the durable key table, the active
/// transaction's staged table, the transaction bookkeeping and the
/// growth ceiling.
#[verifier::ext_equal]
pub struct RegistryM {
    pub entries: Seq<KeyEntryM>,
    pub tx_entries: Seq<KeyEntryM>,
    pub active_tx: Option<u64>,
    pub next_tx: u64,
    pub data_ceiling: u32,
}

/// The key table an operation works on: the staged one under a
/// transaction, the durable one otherwise.
pub open spec fn eff(m: RegistryM, transacted: bool) -> Seq<KeyEntryM> {
    if transacted {
        m.tx_entries
    } else {
        m.entries
    }
}

/// The registry with the chosen key table replaced and everything else
/// untouched.
pub open spec fn with_eff(m: RegistryM, transacted: bool, es: Seq<KeyEntryM>) -> RegistryM {
    if transacted {
        RegistryM { tx_entries: es, ..m }
    } else {
        RegistryM { entries: es, ..m }
    }
}

/// An in-memory hierarchical key/value store. Handles ([`RegKey`]) are
/// opened against it and every operation takes it explicitly.
pub struct Registry {
    entries: Vec<KeyEntry>,
    tx_entries: Vec<KeyEntry>,
    active_tx: Option<u64>,
    next_tx: u64,
    data_ceiling: u32,
}

impl View for Registry {
    type V = RegistryM;

    closed spec fn view(&self) -> RegistryM {
        RegistryM {
            entries: entries_m(self.entries@),
            tx_entries: entries_m(self.tx_entries@),
            active_tx: self.active_tx,
            next_tx: self.next_tx,
            data_ceiling: self.data_ceiling,
        }
    }
}

/// The name of the well-known root with the given identifier; empty for
/// an identifier that is not a well-known root.
pub open spec fn spec_hive_name(h: u64) -> Seq<char> {
    if h == crate::enums::HKEY_CLASSES_ROOT {
        "HKEY_CLASSES_ROOT"@
    } else if h == crate::enums::HKEY_CURRENT_USER {
        "HKEY_CURRENT_USER"@
    } else if h == crate::enums::HKEY_LOCAL_MACHINE {
        "HKEY_LOCAL_MACHINE"@
    } else if h == crate::enums::HKEY_USERS {
        "HKEY_USERS"@
    } else if h == crate::enums::HKEY_PERFORMANCE_DATA {
        "HKEY_PERFORMANCE_DATA"@
    } else if h == crate::enums::HKEY_CURRENT_CONFIG {
        "HKEY_CURRENT_CONFIG"@
    } else if h == crate::enums::HKEY_DYN_DATA {
        "HKEY_DYN_DATA"@
    } else if h == crate::enums::HKEY_CURRENT_USER_LOCAL_SETTINGS {
        "HKEY_CURRENT_USER_LOCAL_SETTINGS"@
    } else if h == crate::enums::HKEY_PERFORMANCE_TEXT {
        "HKEY_PERFORMANCE_TEXT"@
    } else if h == crate::enums::HKEY_PERFORMANCE_NLSTEXT {
        "HKEY_PERFORMANCE_NLSTEXT"@
    } else {
        Seq::empty()
    }
}

/// The name of the well-known root with the given identifier.
fn hive_name(h: u64) -> (r: String)
    ensures
        r@ == spec_hive_name(h),
{
    if h == crate::enums::HKEY_CLASSES_ROOT {
        String::from_str("HKEY_CLASSES_ROOT")
    } else if h == crate::enums::HKEY_CURRENT_USER {
        String::from_str("HKEY_CURRENT_USER")
    } else if h == crate::enums::HKEY_LOCAL_MACHINE {
        String::from_str("HKEY_LOCAL_MACHINE")
    } else if h == crate::enums::HKEY_USERS {
        String::from_str("HKEY_USERS")
    } else if h == crate::enums::HKEY_PERFORMANCE_DATA {
        String::from_str("HKEY_PERFORMANCE_DATA")
    } else if h == crate::enums::HKEY_CURRENT_CONFIG {
        String::from_str("HKEY_CURRENT_CONFIG")
    } else if h == crate::enums::HKEY_DYN_DATA {
        String::from_str("HKEY_DYN_DATA")
    } else if h == crate::enums::HKEY_CURRENT_USER_LOCAL_SETTINGS {
        String::from_str("HKEY_CURRENT_USER_LOCAL_SETTINGS")
    } else if h == crate::enums::HKEY_PERFORMANCE_TEXT {
        String::from_str("HKEY_PERFORMANCE_TEXT")
    } else if h == crate::enums::HKEY_PERFORMANCE_NLSTEXT {
        String::from_str("HKEY_PERFORMANCE_NLSTEXT")
    } else {
        String::new()
    }
}

/// The one-component path of the well-known root with the given
/// identifier.
fn root_path(h: u64) -> (r: Vec<String>)
    ensures
        r.deep_view() == seq![spec_hive_name(h)],
{
    let mut v: Vec<String> = Vec::new();
    v.push(hive_name(h));
    proof {
        assert(v.deep_view() =~= seq![spec_hive_name(h)]);
    }
    v
}

impl Registry {
    /// Both key tables are well-formed.
    pub open spec fn wf(&self) -> bool {
        wf_entries(self@.entries) && wf_entries(self@.tx_entries)
    }

    /// A fresh store holding the well-known roots and nothing else, with
    /// no active transaction and the default growth ceiling.
    pub fn new() -> (r: Registry)
        ensures
            r.wf(),
            r@.active_tx is None,
            r@.data_ceiling == DEFAULT_DATA_CEILING,
            r@.next_tx == 1,
            crate::store::has_key(r@.entries, seq![spec_hive_name(crate::enums::HKEY_CLASSES_ROOT)]),
            crate::store::has_key(r@.entries, seq![spec_hive_name(crate::enums::HKEY_CURRENT_USER)]),
            crate::store::has_key(
                r@.entries,
                seq![spec_hive_name(crate::enums::HKEY_LOCAL_MACHINE)],
            ),
            crate::store::has_key(r@.entries, seq![spec_hive_name(crate::enums::HKEY_USERS)]),
            crate::store::has_key(
                r@.entries,
                seq![spec_hive_name(crate::enums::HKEY_CURRENT_CONFIG)],
            ),
    {
        let mut entries: Vec<KeyEntry> = Vec::new();
        proof {
            assert(entries_m(entries@) =~= Seq::<KeyEntryM>::empty());
        }
        let roots: [u64; 10] = [
            crate::enums::HKEY_CLASSES_ROOT,
            crate::enums::HKEY_CURRENT_USER,
            crate::enums::HKEY_LOCAL_MACHINE,
            crate::enums::HKEY_USERS,
            crate::enums::HKEY_PERFORMANCE_DATA,
            crate::enums::HKEY_CURRENT_CONFIG,
            crate::enums::HKEY_DYN_DATA,
            crate::enums::HKEY_CURRENT_USER_LOCAL_SETTINGS,
            crate::enums::HKEY_PERFORMANCE_TEXT,
            crate::enums::HKEY_PERFORMANCE_NLSTEXT,
        ];
        let mut i: usize = 0;
        while i < 10
            invariant
                wf_entries(entries_m(entries@)),
                forall|k: int|
                    0 <= k < i ==> crate::store::has_key(
                        entries_m(entries@),
                        seq![spec_hive_name(roots@[k])],
                    ),
                roots@.len() == 10,
                i <= 10,
            decreases 10 - i,
        {
            let p = root_path(roots[i]);
            let ghost before = entries_m(entries@);
            let _ = crate::store::create_key_in(&mut entries, &p);
            proof {
                assert forall|k: int|
                    0 <= k < i + 1 implies crate::store::has_key(
                    entries_m(entries@),
                    seq![spec_hive_name(roots@[k])],
                ) by {
                    if k < i {
                        crate::store::lemma_create_along_preserves(
                            before,
                            p.deep_view(),
                            p.deep_view().len() as int,
                            seq![spec_hive_name(roots@[k])],
                        );
                    } else {
                        assert(p.deep_view() =~= seq![spec_hive_name(roots@[k])]);
                    }
                }
            }
            i = i + 1;
        }
        Registry {
            entries,
            tx_entries: Vec::new(),
            active_tx: None,
            next_tx: 1,
            data_ceiling: DEFAULT_DATA_CEILING,
        }
    }

    /// Set the growth ceiling: the largest value the buffer-growth
    /// protocol will hand back.
    pub fn set_data_ceiling(&mut self, n: u32)
        ensures
            final(self)@ == (RegistryM { data_ceiling: n, ..old(self)@ }),
            old(self).wf() ==> final(self).wf(),
    {
        self.data_ceiling = n;
    }

    /// The key table the given transaction state selects.
    fn eff_list(&self, transacted: bool) -> (r: &Vec<KeyEntry>)
        ensures
            entries_m(r@) == eff(self@, transacted),
    {
        if transacted {
            &self.tx_entries
        } else {
            &self.entries
        }
    }

    /// Mutable access to the key table the given transaction state
    /// selects.
    fn eff_list_mut(&mut self, transacted: bool) -> (r: &mut Vec<KeyEntry>)
        ensures
            entries_m((*r)@) == eff(old(self)@, transacted),
            final(self)@ == with_eff(old(self)@, transacted, entries_m((*final(r))@)),
    {
        if transacted {
            &mut self.tx_entries
        } else {
            &mut self.entries
        }
    }
}

// ---------------------------------------------------------------------
// Key handles
// ---------------------------------------------------------------------

/// Abstract state of a handle: the absolute path it addresses, its
/// access mask, the transaction it was opened under, and its lifecycle
/// state.
#[verifier::ext_equal]
pub struct RegKeyM {
    pub path: Seq<Seq<char>>,
    pub access: u32,
    pub tx: Option<u64>,
    pub open: bool,
    pub predef: bool,
}

/// Handle of an opened registry key: a path into a [`Registry`] together
/// with the access mask and transaction it was opened with.
#[derive(Debug)]
pub struct RegKey {
    path: Vec<String>,
    access: u32,
    tx: Option<u64>,
    open: bool,
    predef: bool,
}

impl View for RegKey {
    type V = RegKeyM;

    closed spec fn view(&self) -> RegKeyM {
        RegKeyM {
            path: self.path.deep_view(),
            access: self.access,
            tx: self.tx,
            open: self.open,
            predef: self.predef,
        }
    }
}

/// Why an operation through a handle is refused before it reaches the
/// store: the handle is closed, its transaction is no longer the active
/// one, or its access mask lacks the needed rights.
pub open spec fn guard_err(k: RegKeyM, m: RegistryM, need: u32) -> Option<u32> {
    if !k.open {
        Some(ERROR_INVALID_HANDLE)
    } else if k.tx is Some && m.active_tx != k.tx {
        Some(ERROR_TRANSACTION_NOT_ACTIVE)
    } else if k.access & need != need {
        Some(ERROR_ACCESS_DENIED)
    } else {
        None
    }
}

impl RegKey {
    /// Handle of one of the predefined root keys
    /// (`HKEY_CLASSES_ROOT`, `HKEY_CURRENT_USER`, ...). Such a handle is
    /// open, carries full access, and is never closed.
    pub fn predef(hkey: u64) -> (r: RegKey)
        ensures
            r@ == (RegKeyM {
                path: seq![spec_hive_name(hkey)],
                access: crate::enums::KEY_ALL_ACCESS,
                tx: None,
                open: true,
                predef: true,
            }),
    {
        let r = RegKey {
            path: root_path(hkey),
            access: crate::enums::KEY_ALL_ACCESS,
            tx: None,
            open: true,
            predef: true,
        };
        proof {
            assert(r@ =~~= (RegKeyM {
                path: seq![spec_hive_name(hkey)],
                access: crate::enums::KEY_ALL_ACCESS,
                tx: None,
                open: true,
                predef: true,
            }));
        }
        r
    }

    /// The pre-store checks every operation makes.
    fn guard(&self, reg: &Registry, need: u32) -> (r: Option<RegError>)
        ensures
            match r {
                Some(e) => guard_err(self@, reg@, need) == Some(e.err),
                None => guard_err(self@, reg@, need) is None,
            },
    {
        if !self.open {
            return Some(RegError { err: ERROR_INVALID_HANDLE });
        }
        match self.tx {
            Some(id) => {
                let ok = match reg.active_tx {
                    Some(a) => a == id,
                    None => false,
                };
                if !ok {
                    return Some(RegError { err: ERROR_TRANSACTION_NOT_ACTIVE });
                }
            },
            None => {},
        }
        if self.access & need != need {
            return Some(RegError { err: ERROR_ACCESS_DENIED });
        }
        None
    }

    /// The absolute path the given relative path addresses from this
    /// handle.
    fn full_path(&self, comps: Vec<String>) -> (r: Vec<String>)
        ensures
            r.deep_view() == self@.path + comps.deep_view(),
    {
        let mut r = crate::store::clone_path(&self.path);
        let mut rest = comps;
        let ghost cd = rest.deep_view();
        r.append(&mut rest);
        proof {
            assert(r.deep_view() =~= self@.path + cd);
        }
        r
    }

    /// Close this handle: idempotent, and a no-op on a predefined root,
    /// which stays open.
    pub fn close(&mut self) -> (r: RegResult<()>)
        ensures
            r is Ok,
            final(self)@ == (RegKeyM { open: old(self)@.predef && old(self)@.open, ..old(self)@ }),
    {
        if !self.predef {
            self.open = false;
        }
        proof {
            assert(self@ =~~= (RegKeyM {
                open: old(self)@.predef && old(self)@.open,
                ..old(self)@
            }));
        }
        Ok(())
    }

    /// Open an existing descendant key with the given access mask; an
    /// empty path opens a fresh, independently closeable handle to this
    /// key itself. Fails not-found when a component is missing.
    pub fn open_subkey_with_flags(&self, reg: &Registry, path: &str, perms: u32) -> (r: RegResult<
        RegKey,
    >)
        ensures
            match guard_err(self@, reg@, 0) {
                Some(c) => r matches Err(e) && e.err == c,
                None => {
                    let full = self@.path + split_path(path@);
                    if crate::store::has_key(eff(reg@, self@.tx is Some), full) {
                        r matches Ok(k) && k@ == (RegKeyM {
                            path: full,
                            access: perms,
                            tx: self@.tx,
                            open: true,
                            predef: false,
                        })
                    } else {
                        r matches Err(e) && e.err == ERROR_FILE_NOT_FOUND
                    }
                },
            },
    {
        match self.guard(reg, 0) {
            Some(e) => {
                return Err(e);
            },
            None => {},
        }
        let full = self.full_path(parse_path(path));
        let list = reg.eff_list(self.tx.is_some());
        match crate::store::find_key(list, &full) {
            Some(_) => {
                let k = RegKey {
                    path: full,
                    access: perms,
                    tx: self.tx,
                    open: true,
                    predef: false,
                };
                proof {
                    assert(k@ =~~= (RegKeyM {
                        path: self@.path + split_path(path@),
                        access: perms,
                        tx: self@.tx,
                        open: true,
                        predef: false,
                    }));
                }
                Ok(k)
            },
            None => Err(RegError { err: ERROR_FILE_NOT_FOUND }),
        }
    }

    /// Open an existing descendant key with full access; an empty path
    /// opens a fresh handle to this key itself.
    pub fn open_subkey(&self, reg: &Registry, path: &str) -> (r: RegResult<RegKey>)
        ensures
            match guard_err(self@, reg@, 0) {
                Some(c) => r matches Err(e) && e.err == c,
                None => {
                    let full = self@.path + split_path(path@);
                    if crate::store::has_key(eff(reg@, self@.tx is Some), full) {
                        r matches Ok(k) && k@ == (RegKeyM {
                            path: full,
                            access: crate::enums::KEY_ALL_ACCESS,
                            tx: self@.tx,
                            open: true,
                            predef: false,
                        })
                    } else {
                        r matches Err(e) && e.err == ERROR_FILE_NOT_FOUND
                    }
                },
            },
    {
        self.open_subkey_with_flags(reg, path, crate::enums::KEY_ALL_ACCESS)
    }

    /// Create the key at the given path, creating missing intermediate
    /// keys as needed, and open it with the given access mask. Reports
    /// whether the leaf was created new or opened as already existing.
    pub fn create_subkey_with_flags(
        &self,
        reg: &mut Registry,
        path: &str,
        perms: u32,
    ) -> (r: RegResult<(RegKey, crate::enums::RegDisposition)>)
        requires
            old(reg).wf(),
        ensures
            final(reg).wf(),
            match guard_err(self@, old(reg)@, crate::enums::KEY_CREATE_SUB_KEY) {
                Some(c) => (r matches Err(e) && e.err == c) && final(reg)@ == old(reg)@,
                None => {
                    let full = self@.path + split_path(path@);
                    let es = eff(old(reg)@, self@.tx is Some);
                    r matches Ok(kd) && kd.0@ == (RegKeyM {
                        path: full,
                        access: perms,
                        tx: self@.tx,
                        open: true,
                        predef: false,
                    }) && (kd.1 == crate::enums::RegDisposition::REG_CREATED_NEW_KEY
                        <==> !crate::store::has_key(es, full)) && final(reg)@ == with_eff(
                        old(reg)@,
                        self@.tx is Some,
                        crate::store::create_along(es, full, full.len() as int),
                    ) && (full.len() > 0 ==> crate::store::has_key(
                        eff(final(reg)@, self@.tx is Some),
                        full,
                    ))
                },
            },
    {
        match self.guard(reg, crate::enums::KEY_CREATE_SUB_KEY) {
            Some(e) => {
                return Err(e);
            },
            None => {},
        }
        let full = self.full_path(parse_path(path));
        let transacted = self.tx.is_some();
        let list = reg.eff_list_mut(transacted);
        let disp = crate::store::create_key_in(list, &full);
        let k = RegKey { path: full, access: perms, tx: self.tx, open: true, predef: false };
        proof {
            assert(k@.path =~= self@.path + split_path(path@));
        }
        Ok((k, disp))
    }

    /// Create the key at the given path with full access, creating
    /// missing intermediate keys as needed.
    pub fn create_subkey(&self, reg: &mut Registry, path: &str) -> (r: RegResult<
        (RegKey, crate::enums::RegDisposition),
    >)
        requires
            old(reg).wf(),
        ensures
            final(reg).wf(),
            match guard_err(self@, old(reg)@, crate::enums::KEY_CREATE_SUB_KEY) {
                Some(c) => (r matches Err(e) && e.err == c) && final(reg)@ == old(reg)@,
                None => {
                    let full = self@.path + split_path(path@);
                    let es = eff(old(reg)@, self@.tx is Some);
                    r matches Ok(kd) && kd.0@ == (RegKeyM {
                        path: full,
                        access: crate::enums::KEY_ALL_ACCESS,
                        tx: self@.tx,
                        open: true,
                        predef: false,
                    }) && (kd.1 == crate::enums::RegDisposition::REG_CREATED_NEW_KEY
                        <==> !crate::store::has_key(es, full)) && final(reg)@ == with_eff(
                        old(reg)@,
                        self@.tx is Some,
                        crate::store::create_along(es, full, full.len() as int),
                    ) && (full.len() > 0 ==> crate::store::has_key(
                        eff(final(reg)@, self@.tx is Some),
                        full,
                    ))
                },
            },
    {
        self.create_subkey_with_flags(reg, path, crate::enums::KEY_ALL_ACCESS)
    }
}

/// Why an operation through a handle opened under an explicit
/// transaction is refused: the handle is closed, the transaction is not
/// the active one, or the access mask lacks the needed rights.
pub open spec fn guard_tx_err(k: RegKeyM, m: RegistryM, txid: u64, need: u32) -> Option<u32> {
    if !k.open {
        Some(ERROR_INVALID_HANDLE)
    } else if m.active_tx != Some(txid) {
        Some(ERROR_TRANSACTION_NOT_ACTIVE)
    } else if k.access & need != need {
        Some(ERROR_ACCESS_DENIED)
    } else {
        None
    }
}

/// Point-in-time counts and maximum lengths of a key: child-key count,
/// longest child name and class name in UTF-16 units, value count,
/// longest value name in UTF-16 units, longest value data in bytes. No
/// consistency is guaranteed across repeated calls if the store is
/// mutated in between.
#[derive(Debug, Default)]
pub struct RegKeyMetadata {
    pub sub_keys: usize,
    pub max_sub_key_len: usize,
    pub max_class_len: usize,
    pub values: usize,
    pub max_value_name_len: usize,
    pub max_value_len: usize,
}

impl RegKey {
    /// Create the key at the given path under the given transaction: the
    /// creation is staged and becomes durable only when the transaction
    /// commits. The returned handle stays bound to the transaction.
    pub fn create_subkey_transacted(
        &self,
        reg: &mut Registry,
        path: &str,
        t: &crate::transaction::Transaction,
    ) -> (r: RegResult<(RegKey, crate::enums::RegDisposition)>)
        requires
            old(reg).wf(),
        ensures
            final(reg).wf(),
            match guard_tx_err(self@, old(reg)@, t.tx_id(), crate::enums::KEY_CREATE_SUB_KEY) {
                Some(c) => (r matches Err(e) && e.err == c) && final(reg)@ == old(reg)@,
                None => {
                    let full = self@.path + split_path(path@);
                    let es = old(reg)@.tx_entries;
                    r matches Ok(kd) && kd.0@ == (RegKeyM {
                        path: full,
                        access: crate::enums::KEY_ALL_ACCESS,
                        tx: Some(t.tx_id()),
                        open: true,
                        predef: false,
                    }) && (kd.1 == crate::enums::RegDisposition::REG_CREATED_NEW_KEY
                        <==> !crate::store::has_key(es, full)) && final(reg)@ == with_eff(
                        old(reg)@,
                        true,
                        crate::store::create_along(es, full, full.len() as int),
                    )
                },
            },
    {
        if !self.open {
            return Err(RegError { err: ERROR_INVALID_HANDLE });
        }
        let id = t.raw_id();
        let ok = match reg.active_tx {
            Some(a) => a == id,
            None => false,
        };
        if !ok {
            return Err(RegError { err: ERROR_TRANSACTION_NOT_ACTIVE });
        }
        if self.access & crate::enums::KEY_CREATE_SUB_KEY != crate::enums::KEY_CREATE_SUB_KEY {
            return Err(RegError { err: ERROR_ACCESS_DENIED });
        }
        let full = self.full_path(parse_path(path));
        let list = reg.eff_list_mut(true);
        let disp = crate::store::create_key_in(list, &full);
        let k = RegKey {
            path: full,
            access: crate::enums::KEY_ALL_ACCESS,
            tx: Some(id),
            open: true,
            predef: false,
        };
        proof {
            assert(k@.path =~= self@.path + split_path(path@));
        }
        Ok((k, disp))
    }

    /// Read the named raw value of this key through the buffer-growth
    /// protocol; the empty name addresses the key's default value.
    pub fn get_raw_value(&self, reg: &Registry, name: &str) -> (r: RegResult<RegValue>)
        ensures
            match guard_err(self@, reg@, crate::enums::KEY_QUERY_VALUE) {
                Some(c) => r matches Err(e) && e.err == c,
                None => {
                    match crate::store::lookup_value(
                        eff(reg@, self@.tx is Some),
                        self@.path,
                        name@,
                    ) {
                        Option::None => r matches Err(e) && e.err == ERROR_FILE_NOT_FOUND,
                        Option::Some(v) => {
                            if v.bytes.len() <= reg@.data_ceiling {
                                r matches Ok(out) && out@ == v
                            } else {
                                r matches Err(e) && e.err == ERROR_FILE_TOO_LARGE
                            }
                        },
                    }
                },
            },
    {
        match self.guard(reg, crate::enums::KEY_QUERY_VALUE) {
            Some(e) => {
                return Err(e);
            },
            None => {},
        }
        let n = name.to_owned();
        let list = reg.eff_list(self.tx.is_some());
        crate::store::read_value_in(list, &self.path, &n, reg.data_ceiling)
    }

    /// Read and decode the named value of this key; the empty name
    /// addresses the key's default value. Fails with the codec's error
    /// when the stored tag or bytes do not fit `T`.
    pub fn get_value<T: crate::types::FromRegValue>(&self, reg: &Registry, name: &str) -> (r:
        RegResult<T>)
        ensures
            match guard_err(self@, reg@, crate::enums::KEY_QUERY_VALUE) {
                Some(c) => r matches Err(e) && e.err == c,
                None => {
                    match crate::store::lookup_value(
                        eff(reg@, self@.tx is Some),
                        self@.path,
                        name@,
                    ) {
                        Option::None => r matches Err(e) && e.err == ERROR_FILE_NOT_FOUND,
                        Option::Some(v) => {
                            if v.bytes.len() <= reg@.data_ceiling {
                                match T::from_spec(v) {
                                    Ok(m) => r matches Ok(t) && t.m() == m,
                                    Err(c) => r matches Err(e) && e.err == c,
                                }
                            } else {
                                r matches Err(e) && e.err == ERROR_FILE_TOO_LARGE
                            }
                        },
                    }
                },
            },
    {
        match self.get_raw_value(reg, name) {
            Ok(v) => T::from_reg_value(&v),
            Err(e) => Err(e),
        }
    }

    /// Write the named raw value of this key, bytes and tag verbatim;
    /// the empty name addresses the key's default value.
    pub fn set_raw_value(&self, reg: &mut Registry, name: &str, value: &RegValue) -> (r:
        RegResult<()>)
        requires
            old(reg).wf(),
        ensures
            final(reg).wf(),
            match guard_err(self@, old(reg)@, crate::enums::KEY_SET_VALUE) {
                Some(c) => (r matches Err(e) && e.err == c) && final(reg)@ == old(reg)@,
                None => {
                    let es = eff(old(reg)@, self@.tx is Some);
                    match r {
                        Ok(()) => crate::store::has_key(es, self@.path) && final(reg)@ == with_eff(
                            old(reg)@,
                            self@.tx is Some,
                            crate::store::store_value(es, self@.path, name@, value@),
                        ),
                        Err(e) => e.err == ERROR_FILE_NOT_FOUND && !crate::store::has_key(
                            es,
                            self@.path,
                        ) && final(reg)@ == old(reg)@,
                    }
                },
            },
    {
        match self.guard(reg, crate::enums::KEY_SET_VALUE) {
            Some(e) => {
                return Err(e);
            },
            None => {},
        }
        let n = name.to_owned();
        let transacted = self.tx.is_some();
        let list = reg.eff_list_mut(transacted);
        let rr = crate::store::set_value_in(list, &self.path, &n, value);
        proof {
            if rr is Err {
                assert(reg@ =~~= old(reg)@);
            }
        }
        rr
    }

    /// Encode and write the named value of this key; the empty name
    /// addresses the key's default value.
    pub fn set_value<T: crate::types::ToRegValue>(
        &self,
        reg: &mut Registry,
        name: &str,
        value: &T,
    ) -> (r: RegResult<()>)
        requires
            old(reg).wf(),
        ensures
            final(reg).wf(),
            match guard_err(self@, old(reg)@, crate::enums::KEY_SET_VALUE) {
                Some(c) => (r matches Err(e) && e.err == c) && final(reg)@ == old(reg)@,
                None => {
                    let es = eff(old(reg)@, self@.tx is Some);
                    match r {
                        Ok(()) => crate::store::has_key(es, self@.path) && final(reg)@ == with_eff(
                            old(reg)@,
                            self@.tx is Some,
                            crate::store::store_value(es, self@.path, name@, value.to_spec()),
                        ),
                        Err(e) => e.err == ERROR_FILE_NOT_FOUND && !crate::store::has_key(
                            es,
                            self@.path,
                        ) && final(reg)@ == old(reg)@,
                    }
                },
            },
    {
        self.set_raw_value(reg, name, &value.to_reg_value())
    }

    /// Remove the named value of this key; the empty name addresses the
    /// key's default value.
    pub fn delete_value(&self, reg: &mut Registry, name: &str) -> (r: RegResult<()>)
        requires
            old(reg).wf(),
        ensures
            final(reg).wf(),
            match guard_err(self@, old(reg)@, crate::enums::KEY_SET_VALUE) {
                Some(c) => (r matches Err(e) && e.err == c) && final(reg)@ == old(reg)@,
                None => {
                    let es = eff(old(reg)@, self@.tx is Some);
                    match r {
                        Ok(()) => crate::store::lookup_value(es, self@.path, name@) is Some
                            && final(reg)@ == with_eff(
                            old(reg)@,
                            self@.tx is Some,
                            crate::store::drop_value(es, self@.path, name@),
                        ),
                        Err(e) => e.err == ERROR_FILE_NOT_FOUND && crate::store::lookup_value(
                            es,
                            self@.path,
                            name@,
                        ) is None && final(reg)@ == old(reg)@,
                    }
                },
            },
    {
        match self.guard(reg, crate::enums::KEY_SET_VALUE) {
            Some(e) => {
                return Err(e);
            },
            None => {},
        }
        let n = name.to_owned();
        let transacted = self.tx.is_some();
        let list = reg.eff_list_mut(transacted);
        let rr = crate::store::delete_value_in(list, &self.path, &n);
        proof {
            if rr is Err {
                assert(reg@ =~~= old(reg)@);
            }
        }
        rr
    }

    /// Delete the key at the given non-empty path. Fails not-found when
    /// it does not exist, has-children when a key lies below it, and
    /// invalid-parameter on an empty path: a key cannot delete itself
    /// by this call.
    pub fn delete_subkey(&self, reg: &mut Registry, path: &str) -> (r: RegResult<()>)
        requires
            old(reg).wf(),
        ensures
            final(reg).wf(),
            match guard_err(self@, old(reg)@, 0) {
                Some(c) => (r matches Err(e) && e.err == c) && final(reg)@ == old(reg)@,
                None => {
                    let comps = split_path(path@);
                    let full = self@.path + comps;
                    let es = eff(old(reg)@, self@.tx is Some);
                    if comps.len() == 0 {
                        (r matches Err(e) && e.err == ERROR_INVALID_PARAMETER) && final(reg)@
                            == old(reg)@
                    } else {
                        match r {
                            Ok(()) => crate::store::has_key(es, full) && !(exists|i: int|
                                0 <= i < es.len() && crate::store::extends(
                                    (#[trigger] es[i]).path,
                                    full,
                                ) && es[i].path.len() > full.len()) && final(reg)@ == with_eff(
                                old(reg)@,
                                self@.tx is Some,
                                es.remove(crate::store::key_index(es, full)),
                            ) && !crate::store::has_key(
                                eff(final(reg)@, self@.tx is Some),
                                full,
                            ),
                            Err(e) => final(reg)@ == old(reg)@ && ((e.err == ERROR_FILE_NOT_FOUND
                                && !crate::store::has_key(es, full)) || (e.err
                                == ERROR_DIR_NOT_EMPTY && crate::store::has_key(es, full) && (
                            exists|i: int|
                                0 <= i < es.len() && crate::store::extends(
                                    (#[trigger] es[i]).path,
                                    full,
                                ) && es[i].path.len() > full.len()))),
                        }
                    }
                },
            },
    {
        match self.guard(reg, 0) {
            Some(e) => {
                return Err(e);
            },
            None => {},
        }
        let comps = parse_path(path);
        if comps.len() == 0 {
            return Err(RegError { err: ERROR_INVALID_PARAMETER });
        }
        let full = self.full_path(comps);
        let transacted = self.tx.is_some();
        let list = reg.eff_list_mut(transacted);
        let rr = crate::store::delete_key_in(list, &full);
        proof {
            if rr is Err {
                assert(reg@ =~~= old(reg)@);
            }
        }
        rr
    }

    /// Delete the key at the given path and everything beneath it, as
    /// one logical operation; the empty path deletes all children of
    /// this key but not the key itself.
    pub fn delete_subkey_all(&self, reg: &mut Registry, path: &str) -> (r: RegResult<()>)
        requires
            old(reg).wf(),
        ensures
            final(reg).wf(),
            match guard_err(self@, old(reg)@, 0) {
                Some(c) => (r matches Err(e) && e.err == c) && final(reg)@ == old(reg)@,
                None => {
                    let comps = split_path(path@);
                    let full = self@.path + comps;
                    let keep_root = comps.len() == 0;
                    let es = eff(old(reg)@, self@.tx is Some);
                    if !crate::store::has_key(es, full) {
                        (r matches Err(e) && e.err == ERROR_FILE_NOT_FOUND) && final(reg)@
                            == old(reg)@
                    } else {
                        r is Ok && final(reg)@ == with_eff(
                            old(reg)@,
                            self@.tx is Some,
                            crate::store::remove_subtree(es, full, keep_root),
                        ) && (!keep_root ==> !crate::store::has_key(
                            eff(final(reg)@, self@.tx is Some),
                            full,
                        ))
                    }
                },
            },
    {
        match self.guard(reg, 0) {
            Some(e) => {
                return Err(e);
            },
            None => {},
        }
        let comps = parse_path(path);
        let keep_root = comps.len() == 0;
        let full = self.full_path(comps);
        let transacted = self.tx.is_some();
        let exists = {
            let list = reg.eff_list(transacted);
            match crate::store::find_key(list, &full) {
                Some(_) => true,
                None => false,
            }
        };
        if !exists {
            return Err(RegError { err: ERROR_FILE_NOT_FOUND });
        }
        let list = reg.eff_list_mut(transacted);
        crate::store::delete_tree_in(list, &full, keep_root);
        proof {
            if keep_root {
            } else {
                assert(crate::store::extends(full.deep_view(), full.deep_view())) by {
                    assert(full.deep_view().subrange(0, full.deep_view().len() as int)
                        =~= full.deep_view());
                }
            }
        }
        Ok(())
    }

    /// Rename a direct child of this key in place; both names must be
    /// single path components. Fails already-exists rather than
    /// overwriting when a key already lies at or below the new name.
    pub fn rename_subkey(&self, reg: &mut Registry, old_name: &str, new_name: &str) -> (r:
        RegResult<()>)
        requires
            old(reg).wf(),
        ensures
            final(reg).wf(),
            match guard_err(self@, old(reg)@, 0) {
                Some(c) => (r matches Err(e) && e.err == c) && final(reg)@ == old(reg)@,
                None => {
                    let co = split_path(old_name@);
                    let cn = split_path(new_name@);
                    let es = eff(old(reg)@, self@.tx is Some);
                    if co.len() != 1 || cn.len() != 1 {
                        (r matches Err(e) && e.err == ERROR_INVALID_PARAMETER) && final(reg)@
                            == old(reg)@
                    } else {
                        let full_old = self@.path + co;
                        let full_new = self@.path + cn;
                        if !crate::store::has_key(es, full_old) {
                            (r matches Err(e) && e.err == ERROR_FILE_NOT_FOUND) && final(reg)@
                                == old(reg)@
                        } else if exists|i: int|
                            0 <= i < es.len() && crate::store::extends(
                                (#[trigger] es[i]).path,
                                full_new,
                            ) {
                            (r matches Err(e) && e.err == ERROR_ALREADY_EXISTS) && final(reg)@
                                == old(reg)@
                        } else {
                            r is Ok && final(reg)@ == with_eff(
                                old(reg)@,
                                self@.tx is Some,
                                crate::store::rename_subtree(es, full_old, full_new),
                            ) && crate::store::has_key(
                                eff(final(reg)@, self@.tx is Some),
                                full_new,
                            )
                        }
                    }
                },
            },
    {
        match self.guard(reg, 0) {
            Some(e) => {
                return Err(e);
            },
            None => {},
        }
        let co = parse_path(old_name);
        let cn = parse_path(new_name);
        if co.len() != 1 || cn.len() != 1 {
            return Err(RegError { err: ERROR_INVALID_PARAMETER });
        }
        let full_old = self.full_path(co);
        let full_new = self.full_path(cn);
        let transacted = self.tx.is_some();
        let (src_exists, dst_clear) = {
            let list = reg.eff_list(transacted);
            let se = match crate::store::find_key(list, &full_old) {
                Some(_) => true,
                None => false,
            };
            let dc = !crate::store::any_at_or_below(list, &full_new);
            (se, dc)
        };
        if !src_exists {
            return Err(RegError { err: ERROR_FILE_NOT_FOUND });
        }
        if !dst_clear {
            return Err(RegError { err: ERROR_ALREADY_EXISTS });
        }
        let list = reg.eff_list_mut(transacted);
        crate::store::rename_in(list, &full_old, &full_new);
        Ok(())
    }

    /// Deep-copy the subtree at the given path onto the destination
    /// handle: every key at or below the source is copied, in store
    /// order, onto its corresponding path under the destination;
    /// existing keys are kept and their values merged. Both handles
    /// must address the same key table: either both inside the active
    /// transaction or both outside it. A failure partway leaves the
    /// keys already copied in place.
    pub fn copy_tree(&self, reg: &mut Registry, path: &str, dest: &RegKey) -> (r: RegResult<()>)
        requires
            old(reg).wf(),
        ensures
            final(reg).wf(),
            match guard_err(self@, old(reg)@, crate::enums::KEY_QUERY_VALUE) {
                Some(c) => (r matches Err(e) && e.err == c) && final(reg)@ == old(reg)@,
                None => {
                    let es = eff(old(reg)@, self@.tx is Some);
                    let full = self@.path + split_path(path@);
                    if !dest@.open || dest@.tx != self@.tx {
                        (r matches Err(e) && e.err == ERROR_INVALID_PARAMETER) && final(reg)@
                            == old(reg)@
                    } else if !crate::store::has_key(es, full) {
                        (r matches Err(e) && e.err == ERROR_FILE_NOT_FOUND) && final(reg)@
                            == old(reg)@
                    } else {
                        r is Ok && final(reg)@ == with_eff(
                            old(reg)@,
                            self@.tx is Some,
                            crate::store::copy_entries(
                                es,
                                es.filter((|e: KeyEntryM| crate::store::extends(e.path, full))),
                                full,
                                dest@.path,
                                es.filter(
                                    (|e: KeyEntryM| crate::store::extends(e.path, full)),
                                ).len() as int,
                            ),
                        )
                    }
                },
            },
    {
        match self.guard(reg, crate::enums::KEY_QUERY_VALUE) {
            Some(e) => {
                return Err(e);
            },
            None => {},
        }
        let tx_match = match (self.tx, dest.tx) {
            (Some(a), Some(b)) => a == b,
            (None, None) => true,
            _ => false,
        };
        if !dest.open || !tx_match {
            return Err(RegError { err: ERROR_INVALID_PARAMETER });
        }
        let full = self.full_path(parse_path(path));
        let transacted = self.tx.is_some();
        let exists = {
            let list = reg.eff_list(transacted);
            match crate::store::find_key(list, &full) {
                Some(_) => true,
                None => false,
            }
        };
        if !exists {
            return Err(RegError { err: ERROR_FILE_NOT_FOUND });
        }
        let list = reg.eff_list_mut(transacted);
        crate::store::copy_tree_in(list, &full, &dest.path);
        Ok(())
    }

    /// A snapshot of this key's child and value counts and maximum name
    /// and data lengths.
    pub fn query_info(&self, reg: &Registry) -> (r: RegResult<RegKeyMetadata>)
        ensures
            match guard_err(self@, reg@, crate::enums::KEY_QUERY_VALUE) {
                Some(c) => r matches Err(e) && e.err == c,
                None => {
                    let es = eff(reg@, self@.tx is Some);
                    match r {
                        Ok(md) => crate::store::has_key(es, self@.path) && {
                            let ki = crate::store::key_index(es, self@.path);
                            &&& md.sub_keys == crate::store::child_names(es, self@.path).len()
                            &&& md.max_sub_key_len == crate::store::max_units_len(
                                crate::store::child_names(es, self@.path),
                            )
                            &&& md.max_class_len == 0
                            &&& md.values == es[ki].values.len()
                            &&& md.max_value_name_len == crate::store::max_name_units(
                                es[ki].values,
                            )
                            &&& md.max_value_len == crate::store::max_data_len(es[ki].values)
                        },
                        Err(e) => e.err == ERROR_FILE_NOT_FOUND && !crate::store::has_key(
                            es,
                            self@.path,
                        ),
                    }
                },
            },
    {
        match self.guard(reg, crate::enums::KEY_QUERY_VALUE) {
            Some(e) => {
                return Err(e);
            },
            None => {},
        }
        let list = reg.eff_list(self.tx.is_some());
        match crate::store::key_info_in(list, &self.path) {
            Ok(info) => Ok(
                RegKeyMetadata {
                    sub_keys: info.0,
                    max_sub_key_len: info.1,
                    max_class_len: 0,
                    values: info.2,
                    max_value_name_len: info.3,
                    max_value_len: info.4,
                },
            ),
            Err(e) => Err(e),
        }
    }

    /// An iterator over the names of this key's children, in store
    /// enumeration order.
    pub fn enum_keys<'a>(&'a self) -> (r: EnumKeys<'a>)
        ensures
            r@ == (EnumKeysM { key: self@, index: 0, done: false }),
    {
        EnumKeys { key: self, index: 0, done: false }
    }

    /// An iterator over this key's values: each step yields the name and
    /// the raw value, read through the buffer-growth protocol.
    pub fn enum_values<'a>(&'a self) -> (r: EnumValues<'a>)
        ensures
            r@ == (EnumValuesM { key: self@, index: 0, done: false }),
    {
        EnumValues { key: self, index: 0, done: false }
    }
}

// ---------------------------------------------------------------------
// Iterators
// ---------------------------------------------------------------------

/// Abstract state of a child-name iterator.
#[verifier::ext_equal]
pub struct EnumKeysM {
    pub key: RegKeyM,
    pub index: usize,
    pub done: bool,
}

/// Iterator over the names of a key's children. Forward-only and not
/// restartable: a fresh iterator re-enumerates from the start. A store
/// failure surfaces once and then the sequence is exhausted.
pub struct EnumKeys<'key> {
    key: &'key RegKey,
    index: usize,
    done: bool,
}

impl<'key> View for EnumKeys<'key> {
    type V = EnumKeysM;

    closed spec fn view(&self) -> EnumKeysM {
        EnumKeysM { key: self.key@, index: self.index, done: self.done }
    }
}

impl<'key> EnumKeys<'key> {
    /// The next child name: the name at this iterator's position in the
    /// store's enumeration order, `None` past the end.
    pub fn next(&mut self, reg: &Registry) -> (r: Option<RegResult<String>>)
        ensures
            old(self)@.done ==> r is None && final(self)@ == old(self)@,
            !old(self)@.done ==> match guard_err(
                old(self)@.key,
                reg@,
                crate::enums::KEY_ENUMERATE_SUB_KEYS,
            ) {
                Some(c) => (r matches Some(x) && (x matches Err(e) && e.err == c)) && final(self)@
                    == (EnumKeysM { done: true, ..old(self)@ }),
                None => {
                    let names = crate::store::child_names(
                        eff(reg@, old(self)@.key.tx is Some),
                        old(self)@.key.path,
                    );
                    if old(self)@.index < names.len() {
                        (r matches Some(x) && (x matches Ok(s) && s@ == names[
                            old(self)@.index as int
                        ])) && final(self)@ == (EnumKeysM {
                            index: (old(self)@.index + 1) as usize,
                            ..old(self)@
                        })
                    } else {
                        r is None && final(self)@ == (EnumKeysM { done: true, ..old(self)@ })
                    }
                },
            },
    {
        if self.done {
            return None;
        }
        match self.key.guard(reg, crate::enums::KEY_ENUMERATE_SUB_KEYS) {
            Some(e) => {
                self.done = true;
                proof {
                    assert(self@ =~~= (EnumKeysM { done: true, ..old(self)@ }));
                }
                return Some(Err(e));
            },
            None => {},
        }
        let list = reg.eff_list(self.key.tx.is_some());
        match crate::store::child_name_at(list, &self.key.path, self.index) {
            Some(n) => {
                self.index = self.index + 1;
                proof {
                    assert(self@ =~~= (EnumKeysM {
                        index: (old(self)@.index + 1) as usize,
                        ..old(self)@
                    }));
                }
                Some(Ok(n))
            },
            None => {
                self.done = true;
                proof {
                    assert(self@ =~~= (EnumKeysM { done: true, ..old(self)@ }));
                }
                None
            },
        }
    }
}

/// Abstract state of a value iterator.
#[verifier::ext_equal]
pub struct EnumValuesM {
    pub key: RegKeyM,
    pub index: usize,
    pub done: bool,
}

/// Iterator over a key's values: names and raw contents, in stored
/// order. A per-step data-too-large failure is reported for that step
/// only; the caller may continue with the next step. A store failure
/// surfaces once and then the sequence is exhausted.
pub struct EnumValues<'key> {
    key: &'key RegKey,
    index: usize,
    done: bool,
}

impl<'key> View for EnumValues<'key> {
    type V = EnumValuesM;

    closed spec fn view(&self) -> EnumValuesM {
        EnumValuesM { key: self.key@, index: self.index, done: self.done }
    }
}

impl<'key> EnumValues<'key> {
    /// The next value: the (name, raw value) pair at this iterator's
    /// position, read through the buffer-growth protocol; `None` past
    /// the end.
    pub fn next(&mut self, reg: &Registry) -> (r: Option<RegResult<(String, RegValue)>>)
        ensures
            old(self)@.done ==> r is None && final(self)@ == old(self)@,
            !old(self)@.done ==> match guard_err(
                old(self)@.key,
                reg@,
                crate::enums::KEY_QUERY_VALUE,
            ) {
                Some(c) => (r matches Some(x) && (x matches Err(e) && e.err == c)) && final(self)@
                    == (EnumValuesM { done: true, ..old(self)@ }),
                None => {
                    let es = eff(reg@, old(self)@.key.tx is Some);
                    let ki = crate::store::key_index(es, old(self)@.key.path);
                    if ki < 0 {
                        (r matches Some(x) && (x matches Err(e) && e.err == ERROR_FILE_NOT_FOUND))
                            && final(self)@ == (EnumValuesM { done: true, ..old(self)@ })
                    } else {
                        let vs = es[ki].values;
                        if old(self)@.index >= vs.len() {
                            r is None && final(self)@ == (EnumValuesM {
                                done: true,
                                ..old(self)@
                            })
                        } else {
                            let pair = vs[old(self)@.index as int];
                            if pair.1.bytes.len() <= reg@.data_ceiling {
                                (r matches Some(x) && (x matches Ok(p) && p.0@ == pair.0 && p.1@
                                    == pair.1)) && final(self)@ == (EnumValuesM {
                                    index: (old(self)@.index + 1) as usize,
                                    ..old(self)@
                                })
                            } else {
                                (r matches Some(x) && (x matches Err(e) && e.err
                                    == ERROR_FILE_TOO_LARGE)) && final(self)@ == (EnumValuesM {
                                    index: (old(self)@.index + 1) as usize,
                                    ..old(self)@
                                })
                            }
                        }
                    }
                },
            },
    {
        if self.done {
            return None;
        }
        match self.key.guard(reg, crate::enums::KEY_QUERY_VALUE) {
            Some(e) => {
                self.done = true;
                proof {
                    assert(self@ =~~= (EnumValuesM { done: true, ..old(self)@ }));
                }
                return Some(Err(e));
            },
            None => {},
        }
        let list = reg.eff_list(self.key.tx.is_some());
        match crate::store::read_value_at_in(list, &self.key.path, self.index, reg.data_ceiling) {
            Ok(Some(p)) => {
                self.index = self.index + 1;
                proof {
                    assert(self@ =~~= (EnumValuesM {
                        index: (old(self)@.index + 1) as usize,
                        ..old(self)@
                    }));
                }
                Some(Ok(p))
            },
            Ok(None) => {
                self.done = true;
                proof {
                    assert(self@ =~~= (EnumValuesM { done: true, ..old(self)@ }));
                }
                None
            },
            Err(e) => {
                if e.err == ERROR_FILE_TOO_LARGE {
                    self.index = self.index + 1;
                    proof {
                        assert(self@ =~~= (EnumValuesM {
                            index: (old(self)@.index + 1) as usize,
                            ..old(self)@
                        }));
                    }
                } else {
                    self.done = true;
                    proof {
                        assert(self@ =~~= (EnumValuesM { done: true, ..old(self)@ }));
                    }
                }
                Some(Err(e))
            },
        }
    }
}

// ---------------------------------------------------------------------
// Create-then-get laws
// ---------------------------------------------------------------------

/// Create-then-get for strings: after the encoding of `s` is stored
/// under `name` on an existing key, looking the value up yields exactly
/// that raw content, and decoding it yields `s` back, bit for bit.
pub proof fn lemma_set_then_get_string(
    es: Seq<KeyEntryM>,
    path: Seq<Seq<char>>,
    name: Seq<char>,
    s: Seq<char>,
)
    requires
        wf_entries(es),
        crate::store::has_key(es, path),
    ensures
        crate::store::lookup_value(
            crate::store::store_value(es, path, name, crate::types::sz_value(s)),
            path,
            name,
        ) == Some(crate::types::sz_value(s)),
        crate::types::decode_sz(crate::types::sz_value(s)) == Ok::<Seq<char>, u32>(s),
        crate::types::sz_value(s).bytes.len() == 2 * crate::utf16::units_of(s).len() + 2,
{
    crate::store::lemma_store_then_lookup(es, path, name, crate::types::sz_value(s));
    crate::types::lemma_sz_round_trip(s);
}

/// Create-then-get for 32-bit integers.
pub proof fn lemma_set_then_get_u32(
    es: Seq<KeyEntryM>,
    path: Seq<Seq<char>>,
    name: Seq<char>,
    x: u32,
)
    requires
        wf_entries(es),
        crate::store::has_key(es, path),
    ensures
        crate::store::lookup_value(
            crate::store::store_value(es, path, name, crate::types::dword_value(x)),
            path,
            name,
        ) == Some(crate::types::dword_value(x)),
        crate::types::decode_dword(crate::types::dword_value(x)) == Ok::<u32, u32>(x),
        crate::types::dword_value(x).bytes.len() == 4,
{
    crate::store::lemma_store_then_lookup(es, path, name, crate::types::dword_value(x));
    crate::types::lemma_dword_round_trip(x);
}

/// Create-then-get for 64-bit integers.
pub proof fn lemma_set_then_get_u64(
    es: Seq<KeyEntryM>,
    path: Seq<Seq<char>>,
    name: Seq<char>,
    x: u64,
)
    requires
        wf_entries(es),
        crate::store::has_key(es, path),
    ensures
        crate::store::lookup_value(
            crate::store::store_value(es, path, name, crate::types::qword_value(x)),
            path,
            name,
        ) == Some(crate::types::qword_value(x)),
        crate::types::decode_qword(crate::types::qword_value(x)) == Ok::<u64, u32>(x),
        crate::types::qword_value(x).bytes.len() == 8,
{
    crate::store::lemma_store_then_lookup(es, path, name, crate::types::qword_value(x));
    crate::types::lemma_qword_round_trip(x);
}

/// Create-then-get for string sequences whose elements are NUL-free.
pub proof fn lemma_set_then_get_multi(
    es: Seq<KeyEntryM>,
    path: Seq<Seq<char>>,
    name: Seq<char>,
    v: Seq<Seq<char>>,
)
    requires
        wf_entries(es),
        crate::store::has_key(es, path),
        forall|i: int, j: int| 0 <= i < v.len() && 0 <= j < v[i].len() ==> v[i][j] != '\0',
    ensures
        crate::store::lookup_value(
            crate::store::store_value(es, path, name, crate::types::multi_value(v)),
            path,
            name,
        ) == Some(crate::types::multi_value(v)),
        crate::types::decode_multi(crate::types::multi_value(v)) == Ok::<Seq<Seq<char>>, u32>(v),
        crate::types::multi_value(v).bytes.len() == 2 * crate::types::multi_units(v).len(),
{
    crate::store::lemma_store_then_lookup(es, path, name, crate::types::multi_value(v));
    crate::types::lemma_multi_sz_round_trip(v);
}

// ---------------------------------------------------------------------
// Transaction support of the store
// ---------------------------------------------------------------------

impl Registry {
    /// Begin a transaction: stage a copy of the durable table. Fails
    /// sharing-violation while another transaction is active.
    pub(crate) fn begin_tx(&mut self) -> (r: RegResult<u64>)
        ensures
            old(self).wf() ==> final(self).wf(),
            match r {
                Ok(id) => old(self)@.active_tx is None && old(self)@.next_tx < u64::MAX && id
                    == old(self)@.next_tx && final(self)@ == (RegistryM {
                    active_tx: Some(id),
                    next_tx: (id + 1) as u64,
                    tx_entries: old(self)@.entries,
                    ..old(self)@
                }),
                Err(e) => e.err == ERROR_SHARING_VIOLATION && !(old(self)@.active_tx is None && old(
                    self,
                )@.next_tx < u64::MAX) && final(self)@ == old(self)@,
            },
    {
        match self.active_tx {
            Some(_) => {
                return Err(RegError { err: ERROR_SHARING_VIOLATION });
            },
            None => {},
        }
        if self.next_tx == u64::MAX {
            return Err(RegError { err: ERROR_SHARING_VIOLATION });
        }
        let id = self.next_tx;
        self.next_tx = self.next_tx + 1;
        self.active_tx = Some(id);
        self.tx_entries = crate::store::clone_entries(&self.entries);
        proof {
            assert(self@ =~~= (RegistryM {
                active_tx: Some(id),
                next_tx: (id + 1) as u64,
                tx_entries: old(self)@.entries,
                ..old(self)@
            }));
        }
        Ok(id)
    }

    /// Commit the transaction with the given identifier: its staged
    /// table becomes the durable one, atomically.
    pub(crate) fn commit_tx(&mut self, id: u64) -> (r: RegResult<()>)
        ensures
            old(self).wf() ==> final(self).wf(),
            match r {
                Ok(()) => old(self)@.active_tx == Some(id) && final(self)@ == (RegistryM {
                    entries: old(self)@.tx_entries,
                    tx_entries: old(self)@.entries,
                    active_tx: None,
                    ..old(self)@
                }),
                Err(e) => e.err == ERROR_TRANSACTION_NOT_ACTIVE && old(self)@.active_tx != Some(id)
                    && final(self)@ == old(self)@,
            },
    {
        let ok = match self.active_tx {
            Some(a) => a == id,
            None => false,
        };
        if !ok {
            return Err(RegError { err: ERROR_TRANSACTION_NOT_ACTIVE });
        }
        core::mem::swap(&mut self.entries, &mut self.tx_entries);
        self.active_tx = None;
        proof {
            assert(self@ =~~= (RegistryM {
                entries: old(self)@.tx_entries,
                tx_entries: old(self)@.entries,
                active_tx: None,
                ..old(self)@
            }));
        }
        Ok(())
    }

    /// Roll back the transaction with the given identifier: its staged
    /// table is discarded and the durable one is untouched.
    pub(crate) fn rollback_tx(&mut self, id: u64) -> (r: RegResult<()>)
        ensures
            old(self).wf() ==> final(self).wf(),
            match r {
                Ok(()) => old(self)@.active_tx == Some(id) && final(self)@ == (RegistryM {
                    tx_entries: Seq::empty(),
                    active_tx: None,
                    ..old(self)@
                }),
                Err(e) => e.err == ERROR_TRANSACTION_NOT_ACTIVE && old(self)@.active_tx != Some(id)
                    && final(self)@ == old(self)@,
            },
    {
        let ok = match self.active_tx {
            Some(a) => a == id,
            None => false,
        };
        if !ok {
            return Err(RegError { err: ERROR_TRANSACTION_NOT_ACTIVE });
        }
        self.tx_entries = Vec::new();
        self.active_tx = None;
        proof {
            assert(entries_m(self.tx_entries@) =~= Seq::<KeyEntryM>::empty());
            assert(self@ =~~= (RegistryM {
                tx_entries: Seq::empty(),
                active_tx: None,
                ..old(self)@
            }));
        }
        Ok(())
    }
}

} // verus!
