use sabi::error::DbError;
use sabi::timestamp::Timestamp;
use sabi::tx::TxId;
use std::collections::HashSet;

#[test]
fn test_txid_creation() {
    let tx = TxId::new();
    assert!(!tx.is_nil());
}

#[test]
fn test_txid_nil() {
    let tx = TxId::nil();
    assert!(tx.is_nil());
}

#[test]
fn test_txid_from_timestamp() {
    let tx1 = TxId::from_timestamp(1000, 0);
    let tx2 = TxId::from_timestamp(2000, 0);

    assert!(tx2 > tx1);
}

#[test]
fn test_txid_equality() {
    let tx = TxId::new();
    let tx_clone = tx;

    assert_eq!(tx, tx_clone);
}

#[test]
fn test_txid_timestamp() {
    let tx = TxId::new();
    let ts = tx.timestamp();

    assert!(ts.is_some());
}

#[test]
fn test_txid_display() {
    let tx = TxId::new();
    let display = tx.to_string();

    assert_eq!(display.len(), 36);
}

#[test]
fn test_txid_from_str() {
    let tx = TxId::new();
    let s = tx.to_string();
    let parsed: TxId = s.parse().expect("Should parse valid UUID");

    assert_eq!(tx, parsed);
}

#[test]
fn test_txid_hash() {
    let tx1 = TxId::new();
    let tx2 = TxId::new();

    let mut set = HashSet::new();
    set.insert(tx1);
    set.insert(tx2);

    assert_eq!(set.len(), 2);
}

#[test]
fn txid_from_timestamp_carries_its_time() {
    let tx = TxId::from_timestamp(1_700_000_000, 123_000_000);
    assert_eq!(tx.extract_timestamp(), (1_700_000_000, 123_000_000));
    let later = TxId::from_timestamp(1_700_000_000, 124_000_000);
    assert!(tx < later);
    assert!(tx <= later);
    assert!(!(later < tx));
}

#[test]
fn txid_nil_sorts_first_and_displays_as_zeros() {
    let nil = TxId::nil();
    assert_eq!(nil.to_string(), "00000000-0000-0000-0000-000000000000");
    assert_eq!(nil.extract_timestamp(), (0, 0));
    assert!(nil < TxId::from_timestamp(1, 0));
}

#[test]
fn txid_rejects_bad_text() {
    let parsed: Result<TxId, _> = "not-a-uuid".parse();
    assert!(parsed.is_err());
}

#[test]
fn test_timestamp_now() {
    let ts = Timestamp::now();
    assert!(ts.0 > 0);
}

#[test]
fn test_timestamp_display() {
    let ts = Timestamp::now();
    let display = ts.to_string();

    assert!(!display.is_empty());
    assert!(display.parse::<u64>().is_ok());
}

#[test]
fn test_timestamp_equality() {
    let ts = Timestamp(12345);
    let ts2 = Timestamp(12345);

    assert_eq!(ts, ts2);
}

#[test]
fn timestamp_displays_in_decimal() {
    assert_eq!(Timestamp(0).to_string(), "0");
    assert_eq!(Timestamp(1234567890123).to_string(), "1234567890123");
    assert!(Timestamp(5) < Timestamp(6));
}

#[test]
fn test_syntax_error_display() {
    let err = DbError::SyntaxError("invalid query".to_string());
    let display = err.to_string();

    assert!(display.contains("Syntax Error"));
    assert!(display.contains("invalid query"));
}

#[test]
fn test_serialization_failure_display() {
    let err = DbError::SerializationFailure("conflict".to_string());
    let display = err.to_string();

    assert!(display.contains("Serialization Failure"));
}

#[test]
fn test_internal_error_display() {
    let err = DbError::Internal("internal issue".to_string());
    let display = err.to_string();

    assert!(display.contains("Internal Error"));
}

#[test]
fn test_corruption_error_display() {
    let err = DbError::Corruption("data corrupted".to_string());
    let display = err.to_string();

    assert!(display.contains("Corruption"));
}

#[test]
fn test_not_found_error_display() {
    let err = DbError::NotFound("key not found".to_string());
    let display = err.to_string();

    assert!(display.contains("Not Found"));
}

#[test]
fn test_invalid_transaction_display() {
    let err = DbError::InvalidTransaction("tx aborted".to_string());
    let display = err.to_string();

    assert!(display.contains("Invalid Transaction"));
}

#[test]
fn test_io_error_conversion() {
    let io_err = std::io::Error::new(std::io::ErrorKind::NotFound, "file not found");
    let db_err: DbError = io_err.into();

    match db_err {
        DbError::Io(_) => {}
        _ => panic!("Expected Io variant"),
    }
}

#[test]
fn test_error_is_error_trait() {
    let err = DbError::Internal("test".to_string());

    let text: String = err.to_string();
    assert_eq!(text, "Internal Error: test");
}

#[test]
fn db_error_texts_are_exact() {
    assert_eq!(DbError::SyntaxError("x".to_string()).to_string(), "Syntax Error: x");
    assert_eq!(DbError::NotFound("k".to_string()).to_string(), "Not Found: k");
    let io_err = std::io::Error::new(std::io::ErrorKind::Other, "disk gone");
    assert_eq!(DbError::Io(io_err).to_string(), "IO Error: disk gone");
}

#[test]
fn txid_text_is_lowercase_hex_in_hyphenated_groups() {
    let id = TxId([
        0x01, 0x23, 0x45, 0x67, 0x89, 0xab, 0xcd, 0xef, 0xfe, 0xdc, 0xba, 0x98, 0x76, 0x54, 0x32, 0x10,
    ]);
    assert_eq!(id.to_string(), "01234567-89ab-cdef-fedc-ba9876543210");
}
