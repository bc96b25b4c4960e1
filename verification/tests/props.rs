use winreg2::enums::{
    HKEY_CURRENT_USER, KEY_READ, REG_BINARY, REG_SZ, RegType,
};
use winreg2::transaction::Transaction;
use winreg2::types::{FromRegValue, ToRegValue};
use winreg2::{RegErrorKind, RegKey, RegValue, Registry};

fn round_trip_string(s: &str) {
    let encoded = s.to_string().to_reg_value();
    let back = String::from_reg_value(&encoded).unwrap();
    assert_eq!(s, back);
}

#[test]
fn test_round_trip_strings() {
    round_trip_string("");
    round_trip_string("plain ascii");
    round_trip_string("Test123 \n$%^&|+-*/\\()");
    round_trip_string("йцукен");
    round_trip_string("\u{1F600}\u{10348} beyond the basic plane \u{1D11E}");
}

#[test]
fn test_round_trip_integers() {
    for v in [0u32, 1, 0x8000_0000, u32::MAX] {
        let back = u32::from_reg_value(&v.to_reg_value()).unwrap();
        assert_eq!(v, back);
    }
    for v in [0u64, 1, 0x8000_0000_0000_0000, u64::MAX] {
        let back = u64::from_reg_value(&v.to_reg_value()).unwrap();
        assert_eq!(v, back);
    }
}

#[test]
fn test_round_trip_string_list() {
    let empty: Vec<String> = vec![];
    assert_eq!(
        empty,
        Vec::<String>::from_reg_value(&empty.to_reg_value()).unwrap()
    );
    let vals = vec![
        "lorem ipsum".to_string(),
        "dolor".to_string(),
        "\u{1F600} non-bmp \u{10348}".to_string(),
    ];
    assert_eq!(
        vals,
        Vec::<String>::from_reg_value(&vals.to_reg_value()).unwrap()
    );
}

#[test]
fn test_string_encoding_bytes() {
    // "A" as UTF-16-LE with one trailing NUL code unit, tagged sz
    let v = "A".to_string().to_reg_value();
    assert_eq!(v.vtype, REG_SZ);
    assert_eq!(v.bytes, vec![0x41u8, 0x00, 0x00, 0x00]);
    // a 32-bit integer is exactly 4 little-endian bytes
    let d = 0x01020304u32.to_reg_value();
    assert_eq!(d.bytes, vec![0x04u8, 0x03, 0x02, 0x01]);
    // a 64-bit integer is exactly 8 little-endian bytes
    let q = 0x0102030405060708u64.to_reg_value();
    assert_eq!(q.bytes, vec![0x08u8, 0x07, 0x06, 0x05, 0x04, 0x03, 0x02, 0x01]);
    // an empty string list is a single NUL code unit
    let m: Vec<String> = vec![];
    assert_eq!(m.to_reg_value().bytes, vec![0x00u8, 0x00]);
}

#[test]
fn test_decode_errors() {
    // wrong tag for a typed read
    let v = "text".to_string().to_reg_value();
    let r = u32::from_reg_value(&v);
    assert_eq!(r.unwrap_err().kind(), RegErrorKind::BadType);
    // unsupported tag surfaces as a typed failure, never silent data
    let raw = RegValue {
        vtype: RegType::REG_RESOURCE_LIST,
        bytes: vec![1, 2, 3],
    };
    assert_eq!(
        String::from_reg_value(&raw).unwrap_err().kind(),
        RegErrorKind::BadType
    );
    // wrong blob length for an integer
    let bad = RegValue { vtype: RegType::REG_DWORD, bytes: vec![1, 2, 3] };
    assert_eq!(
        u32::from_reg_value(&bad).unwrap_err().kind(),
        RegErrorKind::InvalidEncoding
    );
    // a lone high surrogate is invalid UTF-16
    let lone = RegValue { vtype: RegType::REG_SZ, bytes: vec![0x00, 0xD8] };
    assert_eq!(
        String::from_reg_value(&lone).unwrap_err().kind(),
        RegErrorKind::InvalidEncoding
    );
}

#[test]
fn test_deletion_errors() {
    let mut reg = Registry::new();
    let hkcu = RegKey::predef(HKEY_CURRENT_USER);
    let (key, _d) = hkcu
        .create_subkey(&mut reg, "Software\\PropsDeletion")
        .unwrap();
    key.create_subkey(&mut reg, "Child\\Grand").unwrap();
    // a key with children cannot be deleted non-recursively
    let err = key.delete_subkey(&mut reg, "Child").unwrap_err();
    assert_eq!(err.kind(), RegErrorKind::HasChildren);
    // a key with no children can
    assert!(key.delete_subkey(&mut reg, "Child\\Grand").is_ok());
    assert!(key.delete_subkey(&mut reg, "Child").is_ok());
    // the empty path is rejected: a key must not delete itself this way
    assert!(key.delete_subkey(&mut reg, "").is_err());
    // recursive delete removes the subtree, and opening it then fails
    key.create_subkey(&mut reg, "Child\\Grand").unwrap();
    assert!(key.delete_subkey_all(&mut reg, "Child").is_ok());
    let err = key.open_subkey(&reg, "Child").unwrap_err();
    assert_eq!(err.kind(), RegErrorKind::NotFound);
}

#[test]
fn test_access_denied() {
    let mut reg = Registry::new();
    let hkcu = RegKey::predef(HKEY_CURRENT_USER);
    hkcu.create_subkey(&mut reg, "Software\\PropsAccess").unwrap();
    let ro = hkcu
        .open_subkey_with_flags(&reg, "Software\\PropsAccess", KEY_READ)
        .unwrap();
    let err = ro.set_value(&mut reg, "x", &1u32).unwrap_err();
    assert_eq!(err.kind(), RegErrorKind::AccessDenied);
}

#[test]
fn test_rename_over_existing_fails() {
    let mut reg = Registry::new();
    let hkcu = RegKey::predef(HKEY_CURRENT_USER);
    let (key, _d) = hkcu
        .create_subkey(&mut reg, "Software\\PropsRename")
        .unwrap();
    key.create_subkey(&mut reg, "A").unwrap();
    key.create_subkey(&mut reg, "B").unwrap();
    let err = key.rename_subkey(&mut reg, "A", "B").unwrap_err();
    assert_eq!(err.kind(), RegErrorKind::AlreadyExists);
    // the old key is still there, unrenamed
    assert!(key.open_subkey(&reg, "A").is_ok());
    let err = key.rename_subkey(&mut reg, "Missing", "C").unwrap_err();
    assert_eq!(err.kind(), RegErrorKind::NotFound);
}

#[test]
fn test_data_too_large() {
    let mut reg = Registry::new();
    let hkcu = RegKey::predef(HKEY_CURRENT_USER);
    let (key, _d) = hkcu
        .create_subkey(&mut reg, "Software\\PropsCeiling")
        .unwrap();
    let val = RegValue { vtype: REG_BINARY, bytes: vec![7u8; 5000] };
    key.set_raw_value(&mut reg, "big", &val).unwrap();
    // lowering the growth ceiling makes the read refuse the value
    reg.set_data_ceiling(4096);
    let err = key.get_raw_value(&reg, "big").unwrap_err();
    assert_eq!(err.kind(), RegErrorKind::DataTooLarge);
    reg.set_data_ceiling(32 * 1024 * 1024);
    assert_eq!(key.get_raw_value(&reg, "big").unwrap().bytes, val.bytes);
}

#[test]
fn test_transaction_atomicity() {
    let mut reg = Registry::new();
    let hkcu = RegKey::predef(HKEY_CURRENT_USER);
    hkcu.create_subkey(&mut reg, "Software").unwrap();
    let t = Transaction::new(&mut reg).unwrap();
    let (key, _d) = hkcu
        .create_subkey_transacted(&mut reg, "Software\\PropsTx", &t)
        .unwrap();
    key.set_value(&mut reg, "TestQWORD", &1_234_567_891_011_121_314u64)
        .unwrap();
    key.set_value(&mut reg, "TestDWORD", &1_234_567_890u32).unwrap();
    // staged writes are invisible through a handle outside the transaction
    assert!(hkcu.open_subkey(&reg, "Software\\PropsTx").is_err());
    // after commit they are durable and visible
    t.commit(&mut reg).unwrap();
    let outside = hkcu.open_subkey(&reg, "Software\\PropsTx").unwrap();
    let v: u32 = outside.get_value(&reg, "TestDWORD").unwrap();
    assert_eq!(v, 1_234_567_890u32);
    // a committed transaction is terminal
    let err = t.commit(&mut reg).unwrap_err();
    assert_eq!(err.kind(), RegErrorKind::TransactionTerminal);
}

#[test]
fn test_transaction_rollback() {
    let mut reg = Registry::new();
    let hkcu = RegKey::predef(HKEY_CURRENT_USER);
    hkcu.create_subkey(&mut reg, "Software").unwrap();
    let t = Transaction::new(&mut reg).unwrap();
    // only one transaction can be active at a time in this store
    let err = Transaction::new(&mut reg).unwrap_err();
    assert_eq!(err.kind(), RegErrorKind::SharingViolation);
    hkcu.create_subkey_transacted(&mut reg, "Software\\PropsRolledBack", &t)
        .unwrap();
    t.rollback(&mut reg).unwrap();
    // rolled-back writes are gone
    assert!(hkcu.open_subkey(&reg, "Software\\PropsRolledBack").is_err());
    // a rolled-back transaction is terminal
    let err = t.rollback(&mut reg).unwrap_err();
    assert_eq!(err.kind(), RegErrorKind::TransactionTerminal);
}

#[test]
fn test_value_growth_over_initial_buffer() {
    // a value longer than the protocol's starting buffer size comes back
    // bit for bit: the growth path, not just the codec
    let mut reg = Registry::new();
    let hkcu = RegKey::predef(HKEY_CURRENT_USER);
    let (key, _d) = hkcu
        .create_subkey(&mut reg, "Software\\PropsGrowth")
        .unwrap();
    let mut s = String::new();
    for i in 0..7000usize {
        s.push(char::from(b'a' + (i % 26) as u8));
    }
    key.set_value(&mut reg, "long", &s).unwrap();
    let back: String = key.get_value(&reg, "long").unwrap();
    assert_eq!(s, back);
}

#[test]
fn test_enumeration_completeness() {
    let mut reg = Registry::new();
    let hkcu = RegKey::predef(HKEY_CURRENT_USER);
    let (key, _d) = hkcu.create_subkey(&mut reg, "Software\\PropsEnum").unwrap();
    let names = ["delta", "alpha", "charlie", "bravo"];
    for n in &names {
        key.create_subkey(&mut reg, n).unwrap();
        key.set_value(&mut reg, n, n).unwrap();
    }
    let mut got_keys: Vec<String> = Vec::new();
    let mut it = key.enum_keys();
    while let Some(x) = it.next(&reg) {
        got_keys.push(x.unwrap());
    }
    let mut got_vals: Vec<String> = Vec::new();
    let mut vit = key.enum_values();
    while let Some(x) = vit.next(&reg) {
        let (n, v) = x.unwrap();
        assert_eq!(n, String::from_reg_value(&v).unwrap());
        got_vals.push(n);
    }
    let mut want: Vec<String> = names.iter().map(|s| s.to_string()).collect();
    want.sort();
    got_keys.sort();
    got_vals.sort();
    assert_eq!(want, got_keys);
    assert_eq!(want, got_vals);
}

#[test]
fn test_default_value_and_close() {
    let mut reg = Registry::new();
    let hkcu = RegKey::predef(HKEY_CURRENT_USER);
    let (key, _d) = hkcu
        .create_subkey(&mut reg, "Software\\PropsDefault")
        .unwrap();
    // the empty name addresses the key's unnamed default value
    key.set_value(&mut reg, "", &"default content").unwrap();
    let v: String = key.get_value(&reg, "").unwrap();
    assert_eq!(v, "default content");
    // closing is idempotent; a closed handle refuses operations
    let (mut k2, _d) = hkcu
        .create_subkey(&mut reg, "Software\\PropsDefault")
        .unwrap();
    k2.close().unwrap();
    k2.close().unwrap();
    assert!(k2.get_value::<String>(&reg, "").is_err());
    // a predefined root is never closed
    let mut root = RegKey::predef(HKEY_CURRENT_USER);
    root.close().unwrap();
    assert!(root.open_subkey(&reg, "Software").is_ok());
}

#[test]
fn test_error_message_text() {
    let mut reg = Registry::new();
    let hkcu = RegKey::predef(HKEY_CURRENT_USER);
    let err = hkcu.open_subkey(&reg, "no\\such\\key").unwrap_err();
    assert_eq!(err.err, 2);
    assert_eq!(err.message(), "The system cannot find the file specified.");
    assert_eq!(err.kind(), RegErrorKind::NotFound);
    let _ = &mut reg;
}

#[test]
fn test_query_info_counts() {
    let mut reg = Registry::new();
    let hkcu = RegKey::predef(HKEY_CURRENT_USER);
    let (key, _d) = hkcu.create_subkey(&mut reg, "Software\\PropsInfo").unwrap();
    key.create_subkey(&mut reg, "One").unwrap();
    key.create_subkey(&mut reg, "LongerName").unwrap();
    key.set_value(&mut reg, "v1", &1u32).unwrap();
    key.set_value(&mut reg, "value2", &"abc").unwrap();
    let info = key.query_info(&reg).unwrap();
    assert_eq!(info.sub_keys, 2);
    assert_eq!(info.max_sub_key_len, 10);
    assert_eq!(info.values, 2);
    assert_eq!(info.max_value_name_len, 6);
    assert_eq!(info.max_value_len, 8); // "abc" as UTF-16 plus the NUL
}
