//! Tests of the stateless parsers: preamble, header records, rows, the
//! variable-string slot rule, and blob resolution.

use detaser::rowconsumer::{inline_varstr_parser, resolve_row, row_blob_size, single_row_parser};
use detaser::taserconsumer::{preamble_parser, single_header_parser};
use detaser::types::{TaserError, TaserHeader, TaserRow, TaserType, TaserValue, VarStr};

fn le32(x: u32) -> [u8; 4] {
    x.to_le_bytes()
}

fn header(name: &str, ttype: TaserType) -> TaserHeader {
    TaserHeader {
        name: name.to_string(),
        ttype,
    }
}

fn varstr_slot(bytes: &[u8]) -> [u8; 16] {
    let mut slot = [0u8; 16];
    slot[..bytes.len()].copy_from_slice(bytes);
    slot
}

#[test]
fn preamble_ok() {
    let mut b = b"TASR0100".to_vec();
    b.extend_from_slice(&le32(3));
    let (version, count) = preamble_parser(&b).unwrap();
    assert_eq!(version.major, 1);
    assert_eq!(version.minor, 0);
    assert_eq!(count, 3);
}

#[test]
fn preamble_two_digit_version() {
    let mut b = b"TASR9942".to_vec();
    b.extend_from_slice(&le32(0));
    let (version, _) = preamble_parser(&b).unwrap();
    assert_eq!(version.major, 99);
    assert_eq!(version.minor, 42);
}

#[test]
fn preamble_bad_magic() {
    let mut b = b"TASX0100".to_vec();
    b.extend_from_slice(&le32(1));
    assert_eq!(preamble_parser(&b).unwrap_err(), TaserError::BadMagic);
}

#[test]
fn preamble_bad_version() {
    let mut b = b"TASR0a00".to_vec();
    b.extend_from_slice(&le32(1));
    assert_eq!(preamble_parser(&b).unwrap_err(), TaserError::BadVersion);
}

fn header_record(name_bytes: &[u8], tag: &[u8; 4], param: u32) -> Vec<u8> {
    let mut rec = vec![0u8; 16];
    rec[..name_bytes.len()].copy_from_slice(name_bytes);
    rec.extend_from_slice(&[0u8; 4]);
    rec.extend_from_slice(tag);
    rec.extend_from_slice(&le32(param));
    rec
}

#[test]
fn header_uint() {
    let rec = header_record(b"id", b"UINT", 4);
    let h = single_header_parser(&rec).unwrap();
    assert_eq!(h.name, "id");
    assert_eq!(h.ttype, TaserType::UInt(4));
}

#[test]
fn header_strn_zero_is_varstr() {
    let rec = header_record(b"note", b"STRN", 0);
    let h = single_header_parser(&rec).unwrap();
    assert_eq!(h.name, "note");
    assert_eq!(h.ttype, TaserType::VarStr);
}

#[test]
fn header_strn_nonzero_is_fixed() {
    let rec = header_record(b"code", b"STRN", 8);
    let h = single_header_parser(&rec).unwrap();
    assert_eq!(h.ttype, TaserType::FixedStr(8));
}

#[test]
fn header_iint() {
    let rec = header_record(b"delta", b"IINT", 8);
    let h = single_header_parser(&rec).unwrap();
    assert_eq!(h.ttype, TaserType::Int(8));
}

#[test]
fn header_unknown_tag() {
    let rec = header_record(b"x", b"ZZZZ", 4);
    assert_eq!(
        single_header_parser(&rec).unwrap_err(),
        TaserError::UnknownFieldType
    );
}

#[test]
fn header_bad_integer_width() {
    let rec = header_record(b"x", b"UINT", 3);
    assert_eq!(
        single_header_parser(&rec).unwrap_err(),
        TaserError::UnknownFieldType
    );
}

#[test]
fn header_bad_name() {
    let rec = header_record(&[0xff, 0xfe], b"UINT", 4);
    assert_eq!(
        single_header_parser(&rec).unwrap_err(),
        TaserError::BadHeaderName
    );
}

#[test]
fn header_name_nul_trimmed() {
    let rec = header_record(b"ab\0cd", b"UINT", 1);
    let h = single_header_parser(&rec).unwrap();
    assert_eq!(h.name, "ab\0cd");
    let rec = header_record(b"ab", b"UINT", 1);
    let h = single_header_parser(&rec).unwrap();
    assert_eq!(h.name, "ab");
}

#[test]
fn inline_varstr_hello() {
    let slot = varstr_slot(&[0x85, b'h', b'e', b'l', b'l', b'o', 9, 9, 9, 9]);
    let v = inline_varstr_parser(&slot).unwrap();
    assert_eq!(v, VarStr::Collected("hello".to_string()));
}

#[test]
fn inline_varstr_length_sixteen_overflows() {
    let slot = varstr_slot(&[0x80 | 16]);
    assert_eq!(
        inline_varstr_parser(&slot).unwrap_err(),
        TaserError::InlineLengthOverflow
    );
}

#[test]
fn inline_varstr_multibyte_utf8() {
    // "é" is two bytes in UTF-8 but one character.
    let slot = varstr_slot(&[0x82, 0xc3, 0xa9]);
    match inline_varstr_parser(&slot).unwrap() {
        VarStr::Collected(s) => {
            assert_eq!(s, "é");
            assert_eq!(s.chars().count(), 1);
        }
        other => panic!("expected inline payload, got {:?}", other),
    }
}

#[test]
fn inline_varstr_invalid_utf8() {
    let slot = varstr_slot(&[0x82, 0xff, 0xff]);
    assert_eq!(
        inline_varstr_parser(&slot).unwrap_err(),
        TaserError::InvalidUtf8
    );
}

#[test]
fn reference_varstr_offsets() {
    let mut slot = [0u8; 16];
    slot[..8].copy_from_slice(&7u64.to_le_bytes());
    slot[8..].copy_from_slice(&3u64.to_le_bytes());
    let v = inline_varstr_parser(&slot).unwrap();
    assert_eq!(
        v,
        VarStr::Position {
            offset: 7,
            length: 3
        }
    );
}

#[test]
fn row_fixed_string_trims_padding() {
    let headers = vec![header("code", TaserType::FixedStr(6))];
    let row = single_row_parser(b"ab\0\0\0\0", &headers, 6).unwrap();
    assert_eq!(row.fields, vec![TaserValue::FixedStr("ab".to_string())]);
}

#[test]
fn row_fixed_string_invalid_utf8() {
    let headers = vec![header("code", TaserType::FixedStr(2))];
    assert_eq!(
        single_row_parser(&[0xff, 0xff], &headers, 2).unwrap_err(),
        TaserError::InvalidUtf8
    );
}

#[test]
fn row_uint_widths() {
    let headers = vec![
        header("a", TaserType::UInt(1)),
        header("b", TaserType::UInt(2)),
        header("c", TaserType::UInt(4)),
        header("d", TaserType::UInt(8)),
    ];
    let mut bytes = vec![0x2a];
    bytes.extend_from_slice(&0x1234u16.to_le_bytes());
    bytes.extend_from_slice(&0xdead_beefu32.to_le_bytes());
    bytes.extend_from_slice(&u64::MAX.to_le_bytes());
    let row = single_row_parser(&bytes, &headers, 15).unwrap();
    assert_eq!(
        row.fields,
        vec![
            TaserValue::UInt {
                width: 1,
                value: 0x2a
            },
            TaserValue::UInt {
                width: 2,
                value: 0x1234
            },
            TaserValue::UInt {
                width: 4,
                value: 0xdead_beef
            },
            TaserValue::UInt {
                width: 8,
                value: u64::MAX
            },
        ]
    );
}

#[test]
fn row_signed_ints() {
    let headers = vec![
        header("a", TaserType::Int(1)),
        header("b", TaserType::Int(2)),
        header("c", TaserType::Int(8)),
    ];
    let mut bytes = vec![0x80];
    bytes.extend_from_slice(&[0xff, 0xff]);
    bytes.extend_from_slice(&[0, 0, 0, 0, 0, 0, 0, 0x80]);
    let row = single_row_parser(&bytes, &headers, 11).unwrap();
    assert_eq!(
        row.fields,
        vec![
            TaserValue::Int {
                width: 1,
                value: -128
            },
            TaserValue::Int {
                width: 2,
                value: -1
            },
            TaserValue::Int {
                width: 8,
                value: i64::MIN
            },
        ]
    );
}

#[test]
fn row_positive_signed_int() {
    let headers = vec![header("a", TaserType::Int(4))];
    let row = single_row_parser(&123i32.to_le_bytes(), &headers, 4).unwrap();
    assert_eq!(
        row.fields,
        vec![TaserValue::Int {
            width: 4,
            value: 123
        }]
    );
}

#[test]
fn resolve_reference_into_blob() {
    let row = TaserRow {
        fields: vec![TaserValue::VarStr(VarStr::Position {
            offset: 0,
            length: 3,
        })],
    };
    let resolved = resolve_row(row, b"abcxyz").unwrap();
    assert_eq!(
        resolved.fields,
        vec![TaserValue::VarStr(VarStr::Collected("abc".to_string()))]
    );
}

#[test]
fn resolve_out_of_bounds() {
    let row = TaserRow {
        fields: vec![TaserValue::VarStr(VarStr::Position {
            offset: 4,
            length: 10,
        })],
    };
    assert_eq!(
        resolve_row(row, b"abcxyz").unwrap_err(),
        TaserError::BlobBoundsError
    );
}

#[test]
fn resolve_invalid_utf8_in_blob() {
    let row = TaserRow {
        fields: vec![TaserValue::VarStr(VarStr::Position {
            offset: 0,
            length: 2,
        })],
    };
    assert_eq!(
        resolve_row(row, &[0xff, 0xff]).unwrap_err(),
        TaserError::InvalidUtf8
    );
}

#[test]
fn resolve_keeps_inline_values_whatever_the_blob() {
    let row = TaserRow {
        fields: vec![TaserValue::VarStr(VarStr::Collected("hello".to_string()))],
    };
    let resolved = resolve_row(row, &[0xff, 0x00, 0x12]).unwrap();
    assert_eq!(
        resolved.fields,
        vec![TaserValue::VarStr(VarStr::Collected("hello".to_string()))]
    );
}

#[test]
fn blob_size_is_maximum_extent() {
    let row = TaserRow {
        fields: vec![
            TaserValue::VarStr(VarStr::Position {
                offset: 2,
                length: 4,
            }),
            TaserValue::UInt { width: 1, value: 0 },
            TaserValue::VarStr(VarStr::Position {
                offset: 0,
                length: 3,
            }),
        ],
    };
    assert_eq!(row_blob_size(&row), Some(6));
}

#[test]
fn blob_size_zero_without_references() {
    let row = TaserRow {
        fields: vec![
            TaserValue::UInt { width: 4, value: 9 },
            TaserValue::VarStr(VarStr::Collected("x".to_string())),
        ],
    };
    assert_eq!(row_blob_size(&row), Some(0));
}

#[test]
fn blob_size_overflow_is_rejected() {
    let row = TaserRow {
        fields: vec![TaserValue::VarStr(VarStr::Position {
            offset: u64::MAX,
            length: 2,
        })],
    };
    assert_eq!(row_blob_size(&row), None);
}

#[test]
fn fixed_string_reencode_round_trip() {
    // Decoding trims the NUL padding; re-encoding the trimmed string with
    // fresh padding and decoding again yields the same value.
    let headers = vec![header("code", TaserType::FixedStr(5))];
    let row = single_row_parser(b"ab\0\0\0", &headers, 5).unwrap();
    let value = match &row.fields[0] {
        TaserValue::FixedStr(s) => s.clone(),
        other => panic!("expected a fixed string, got {:?}", other),
    };
    assert_eq!(value, "ab");
    let mut reencoded = value.as_bytes().to_vec();
    reencoded.resize(5, 0);
    let again = single_row_parser(&reencoded, &headers, 5).unwrap();
    assert_eq!(again.fields, row.fields);
}
