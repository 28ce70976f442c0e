//! The two program loaders: the grammar each accepts, the exact words
//! each builds, and the load error every malformed input provokes.

use ssem_simulator::store::{LoadError, Store};

fn lines(v: &[&str]) -> Vec<String> {
    v.iter().map(|s| s.to_string()).collect()
}

#[test]
fn assembly_basic_program() {
    let src = lines(&[
        "00 JMP 0  ;",
        "01 LDN 24 ; -24 to C",
        "02 STO 26 ; C to 26",
        "",
        "; a comment-only line is skipped without counting",
        "03 STP",
    ]);
    let store = Store::load_assembly(&src).unwrap();
    assert_eq!(store.get(0), 0); // JMP has code 0, operand 0
    assert_eq!(store.get(1), (2 << 13) | 24); // LDN
    assert_eq!(store.get(2), (3 << 13) | 26); // STO
    assert_eq!(store.get(3), 7 << 13); // STP, operand defaults to 0
    assert_eq!(store.get(4), 0); // untouched words stay zero
}

#[test]
fn assembly_num_stores_operand_verbatim() {
    let src = lines(&["0 NUM -7", "1 NUM", "2 NUM 2147483647", "3 NUM -2147483648"]);
    let store = Store::load_assembly(&src).unwrap();
    assert_eq!(store.get(0), -7);
    assert_eq!(store.get(1), 0); // operand defaults to 0
    assert_eq!(store.get(2), i32::MAX);
    assert_eq!(store.get(3), i32::MIN);
}

#[test]
fn assembly_operand_is_masked_to_five_bits() {
    // An instruction word holds only the low 5 bits of its operand.
    let src = lines(&["0 JMP 33"]);
    let store = Store::load_assembly(&src).unwrap();
    assert_eq!(store.get(0), 33 & 31);
}

#[test]
fn assembly_gap_in_indices_is_fatal() {
    // A line with index 5 immediately following index 3 must fail,
    // naming the expected index (4) and the offending line.
    let src = lines(&["0 NUM 1", "1 NUM 1", "2 NUM 1", "3 NUM 1", "5 NUM 1"]);
    let err = Store::load_assembly(&src).unwrap_err();
    assert_eq!(err, LoadError::NonContiguous { line: 4, expected: 4 });
}

#[test]
fn assembly_duplicate_index_is_fatal() {
    let src = lines(&["0 NUM 1", "1 NUM 1", "1 NUM 2"]);
    let err = Store::load_assembly(&src).unwrap_err();
    assert_eq!(err, LoadError::NonContiguous { line: 2, expected: 2 });
}

#[test]
fn assembly_index_out_of_range_is_fatal() {
    let too_big = lines(&["32 NUM 1"]);
    // Index 32 escapes the contiguity rule only as the first line would;
    // here it trips it first, so use a contiguous run up to it.
    assert!(Store::load_assembly(&too_big).is_err());
    let mut all: Vec<String> = (0..32).map(|i| format!("{} NUM 1", i)).collect();
    all.push("32 NUM 1".to_string());
    let err = Store::load_assembly(&all).unwrap_err();
    assert_eq!(err, LoadError::IndexOutOfRange { line: 32, index: 32 });
    let negative = lines(&["-1 NUM 1"]);
    let err = Store::load_assembly(&negative).unwrap_err();
    assert_eq!(err, LoadError::IndexOutOfRange { line: 0, index: -1 });
}

#[test]
fn assembly_bad_tokens_are_fatal() {
    let one_token = lines(&["0"]);
    assert_eq!(Store::load_assembly(&one_token).unwrap_err(), LoadError::MissingTokens {
        line: 0,
    });
    let bad_index = lines(&["x JMP 0"]);
    assert_eq!(Store::load_assembly(&bad_index).unwrap_err(), LoadError::BadInteger { line: 0 });
    let bad_operand = lines(&["0 JMP y"]);
    assert_eq!(Store::load_assembly(&bad_operand).unwrap_err(), LoadError::BadInteger { line: 0 });
    let overflow = lines(&["0 NUM 2147483648"]);
    assert_eq!(Store::load_assembly(&overflow).unwrap_err(), LoadError::BadInteger { line: 0 });
    let unknown = lines(&["0 FOO 1"]);
    assert_eq!(Store::load_assembly(&unknown).unwrap_err(), LoadError::UnknownMnemonic {
        line: 0,
    });
}

#[test]
fn snapshot_basic_program() {
    let src = lines(&[
        "0000: 10000000000000000000000000000000",
        "0001: 01010000000000100000000000000000 ; Some comment",
        "",
        "; skipped",
        "0002: 00000000000000010000000000000000",
    ]);
    let store = Store::load_snapshot(&src).unwrap();
    // Least significant bit first: the leading '1' of line 0 is bit 0.
    assert_eq!(store.get(0), 1);
    assert_eq!(store.get(1), (2 << 13) | 10);
    assert_eq!(store.get(2), 1 << 15);
    assert_eq!(store.get(3), 0);
}

#[test]
fn snapshot_malformed_lines_are_fatal() {
    let no_colon = lines(&["0000 10000000000000000000000000000000"]);
    assert_eq!(Store::load_snapshot(&no_colon).unwrap_err(), LoadError::MissingColon { line: 0 });
    let short_word = lines(&["0: 1000000000000000000000000000000"]);
    assert_eq!(
        Store::load_snapshot(&short_word).unwrap_err(),
        LoadError::WrongWordLength { line: 0, expected_len: 32, actual_len: 31 }
    );
    let bad_digit = lines(&["0: 10000000000000000000000000000002"]);
    assert_eq!(Store::load_snapshot(&bad_digit).unwrap_err(), LoadError::BadWord { line: 0 });
    let bad_index = lines(&["zero: 10000000000000000000000000000000"]);
    assert_eq!(Store::load_snapshot(&bad_index).unwrap_err(), LoadError::BadInteger { line: 0 });
    let gap = lines(&[
        "0: 00000000000000000000000000000000",
        "2: 00000000000000000000000000000000",
    ]);
    assert_eq!(Store::load_snapshot(&gap).unwrap_err(), LoadError::NonContiguous {
        line: 1,
        expected: 1,
    });
    let out_of_range: Vec<String> = (0..33)
        .map(|i| format!("{}: 00000000000000000000000000000000", i))
        .collect();
    assert_eq!(Store::load_snapshot(&out_of_range).unwrap_err(), LoadError::IndexOutOfRange {
        line: 32,
        index: 32,
    });
}

#[test]
fn loading_aborts_entirely_on_error() {
    // No partially-loaded store: an error late in the file leaves the
    // caller with nothing at all.
    let src = lines(&["0 NUM 11", "1 NUM 22", "2 BAD 33"]);
    assert!(Store::load_assembly(&src).is_err());
}
