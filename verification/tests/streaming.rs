//! Tests of the incremental driver: whole streams fed in one chunk, byte by
//! byte, and through the manual consumer interface.

use detaser::session::DecodeSession;
use detaser::taserconsumer::{ConsumerState, DecodeState, TaserConsumer};
use detaser::types::{TaserError, TaserRow, TaserValue, VarStr};
use detaser::window::ByteWindow;

fn stream(header_records: &[(&[u8], &[u8; 4], u32)], body: &[u8]) -> Vec<u8> {
    let mut b = b"TASR0100".to_vec();
    b.extend_from_slice(&(header_records.len() as u32).to_le_bytes());
    for (name, tag, param) in header_records {
        let mut rec = vec![0u8; 16];
        rec[..name.len()].copy_from_slice(name);
        rec.extend_from_slice(&[0u8; 4]);
        rec.extend_from_slice(*tag);
        rec.extend_from_slice(&param.to_le_bytes());
        b.extend_from_slice(&rec);
    }
    b.extend_from_slice(body);
    b
}

fn decode_whole(bytes: &[u8]) -> (Vec<TaserRow>, Result<(), TaserError>) {
    let mut session = DecodeSession::new();
    let (rows, err) = session.push_chunk(bytes);
    let outcome = match err {
        Some(e) => Err(e),
        None => session.finish(),
    };
    (rows, outcome)
}

fn decode_byte_by_byte(bytes: &[u8]) -> (Vec<TaserRow>, Result<(), TaserError>) {
    let mut session = DecodeSession::new();
    let mut rows = Vec::new();
    for byte in bytes {
        let (mut new_rows, err) = session.push_chunk(&[*byte]);
        rows.append(&mut new_rows);
        if let Some(e) = err {
            return (rows, Err(e));
        }
    }
    (rows, session.finish())
}

#[test]
fn single_uint_row_scenario() {
    // Magic TASR, version 01/00, one header {name: "id", type UINT width 4},
    // one row [0x2a, 0, 0, 0], no blob region.
    let bytes = stream(&[(b"id", b"UINT", 4)], &[0x2a, 0, 0, 0]);
    let (rows, outcome) = decode_whole(&bytes);
    assert_eq!(outcome, Ok(()));
    assert_eq!(rows.len(), 1);
    assert_eq!(
        rows[0].fields,
        vec![TaserValue::UInt {
            width: 4,
            value: 42
        }]
    );
}

#[test]
fn single_uint_row_reaches_end_state() {
    let bytes = stream(&[(b"id", b"UINT", 4)], &[0x2a, 0, 0, 0]);
    let mut session = DecodeSession::new();
    let (rows, err) = session.push_chunk(&bytes);
    assert_eq!(err, None);
    assert_eq!(rows.len(), 1);
    assert_eq!(session.finish(), Ok(()));
    assert!(session.is_finished());
    assert_eq!(session.driver_state(), DecodeState::End);
}

#[test]
fn truncated_after_magic_and_version() {
    let (rows, outcome) = decode_whole(b"TASR01");
    assert!(rows.is_empty());
    assert_eq!(outcome, Err(TaserError::IncompleteStream));
}

#[test]
fn empty_stream_is_incomplete() {
    let (rows, outcome) = decode_whole(b"");
    assert!(rows.is_empty());
    assert_eq!(outcome, Err(TaserError::IncompleteStream));
}

#[test]
fn truncated_mid_row_is_incomplete() {
    let bytes = stream(&[(b"id", b"UINT", 4)], &[0x2a, 0]);
    let (rows, outcome) = decode_whole(&bytes);
    assert!(rows.is_empty());
    assert_eq!(outcome, Err(TaserError::IncompleteStream));
}

#[test]
fn truncated_mid_blob_is_incomplete() {
    let mut slot = [0u8; 16];
    slot[..8].copy_from_slice(&0u64.to_le_bytes());
    slot[8..].copy_from_slice(&4u64.to_le_bytes());
    let mut body = slot.to_vec();
    body.extend_from_slice(b"ab");
    let bytes = stream(&[(b"s", b"STRN", 0)], &body);
    let (rows, outcome) = decode_whole(&bytes);
    assert!(rows.is_empty());
    assert_eq!(outcome, Err(TaserError::IncompleteStream));
}

#[test]
fn bad_magic_stops_the_session() {
    let (rows, outcome) = decode_whole(b"XXXX0100\0\0\0\0");
    assert!(rows.is_empty());
    assert_eq!(outcome, Err(TaserError::BadMagic));
}

#[test]
fn schema_overrun_on_zero_declared_headers() {
    // A header count of zero followed by a header record's worth of bytes:
    // more headers arrive than declared, which is fatal.
    let mut bytes = stream(&[], &[]);
    let mut rec = vec![0u8; 16];
    rec[..2].copy_from_slice(b"id");
    rec.extend_from_slice(&[0u8; 4]);
    rec.extend_from_slice(b"UINT");
    rec.extend_from_slice(&4u32.to_le_bytes());
    bytes.extend_from_slice(&rec);
    let (rows, outcome) = decode_whole(&bytes);
    assert!(rows.is_empty());
    assert_eq!(outcome, Err(TaserError::SchemaOverrun));
}

#[test]
fn rows_keep_coming_until_the_stream_ends() {
    let mut body = Vec::new();
    for value in [1u16, 2, 3, 4, 5] {
        body.extend_from_slice(&value.to_le_bytes());
    }
    let bytes = stream(&[(b"n", b"UINT", 2)], &body);
    let (rows, outcome) = decode_whole(&bytes);
    assert_eq!(outcome, Ok(()));
    assert_eq!(rows.len(), 5);
    for (i, row) in rows.iter().enumerate() {
        assert_eq!(
            row.fields,
            vec![TaserValue::UInt {
                width: 2,
                value: i as u64 + 1
            }]
        );
    }
}

#[test]
fn every_row_has_one_field_per_header() {
    let mut body = Vec::new();
    for (a, b) in [(1u8, 10u16), (2, 20), (3, 30)] {
        body.push(a);
        body.extend_from_slice(&b.to_le_bytes());
    }
    let bytes = stream(&[(b"a", b"UINT", 1), (b"b", b"UINT", 2)], &body);
    let (rows, outcome) = decode_whole(&bytes);
    assert_eq!(outcome, Ok(()));
    assert_eq!(rows.len(), 3);
    for row in &rows {
        assert_eq!(row.fields.len(), 2);
    }
}

#[test]
fn blob_region_resolves_references() {
    // Two reference-encoded variable strings; the blob region is as long as
    // the farthest reference reaches (the maximum, not the last).
    let mut body = Vec::new();
    let mut slot = [0u8; 16];
    slot[..8].copy_from_slice(&2u64.to_le_bytes());
    slot[8..].copy_from_slice(&4u64.to_le_bytes());
    body.extend_from_slice(&slot);
    slot[..8].copy_from_slice(&0u64.to_le_bytes());
    slot[8..].copy_from_slice(&3u64.to_le_bytes());
    body.extend_from_slice(&slot);
    body.extend_from_slice(b"abcdef");
    let bytes = stream(&[(b"x", b"STRN", 0), (b"y", b"STRN", 0)], &body);
    let (rows, outcome) = decode_whole(&bytes);
    assert_eq!(outcome, Ok(()));
    assert_eq!(rows.len(), 1);
    assert_eq!(
        rows[0].fields,
        vec![
            TaserValue::VarStr(VarStr::Collected("cdef".to_string())),
            TaserValue::VarStr(VarStr::Collected("abc".to_string())),
        ]
    );
}

#[test]
fn inline_varstr_needs_no_blob_bytes() {
    let mut slot = [0u8; 16];
    slot[0] = 0x85;
    slot[1..6].copy_from_slice(b"hello");
    let bytes = stream(&[(b"s", b"STRN", 0)], &slot);
    let (rows, outcome) = decode_whole(&bytes);
    assert_eq!(outcome, Ok(()));
    assert_eq!(
        rows[0].fields,
        vec![TaserValue::VarStr(VarStr::Collected("hello".to_string()))]
    );
}

#[test]
fn inline_length_overflow_stops_the_session() {
    let mut slot = [0u8; 16];
    slot[0] = 0x80 | 16;
    let bytes = stream(&[(b"s", b"STRN", 0)], &slot);
    let (rows, outcome) = decode_whole(&bytes);
    assert!(rows.is_empty());
    assert_eq!(outcome, Err(TaserError::InlineLengthOverflow));
}

#[test]
fn reference_past_any_possible_region_stops_the_session() {
    // offset + length exceeds u64::MAX, so no blob region could ever hold it.
    let mut slot = [0u8; 16];
    slot[..8].copy_from_slice(&16u64.to_le_bytes());
    slot[8..].copy_from_slice(&u64::MAX.to_le_bytes());
    let bytes = stream(&[(b"s", b"STRN", 0)], &slot);
    let (rows, outcome) = decode_whole(&bytes);
    assert!(rows.is_empty());
    assert_eq!(outcome, Err(TaserError::BlobBoundsError));
}

#[test]
fn chunking_does_not_change_the_rows() {
    let mut body = Vec::new();
    let mut slot = [0u8; 16];
    slot[..8].copy_from_slice(&0u64.to_le_bytes());
    slot[8..].copy_from_slice(&5u64.to_le_bytes());
    body.extend_from_slice(&slot);
    body.extend_from_slice(&7u32.to_le_bytes());
    body.extend_from_slice(b"world");
    body.extend_from_slice(&slot);
    body.extend_from_slice(&8u32.to_le_bytes());
    body.extend_from_slice(b"again");
    let bytes = stream(&[(b"s", b"STRN", 0), (b"n", b"UINT", 4)], &body);

    let (rows_whole, outcome_whole) = decode_whole(&bytes);
    let (rows_single, outcome_single) = decode_byte_by_byte(&bytes);
    assert_eq!(outcome_whole, Ok(()));
    assert_eq!(outcome_whole, outcome_single);
    assert_eq!(rows_whole, rows_single);
    assert_eq!(rows_whole.len(), 2);
    assert_eq!(
        rows_whole[0].fields,
        vec![
            TaserValue::VarStr(VarStr::Collected("world".to_string())),
            TaserValue::UInt { width: 4, value: 7 },
        ]
    );
}

#[test]
fn chunking_does_not_change_the_error() {
    let bytes = stream(&[(b"code", b"STRN", 2)], &[0xff, 0xff]);
    let (rows_whole, outcome_whole) = decode_whole(&bytes);
    let (rows_single, outcome_single) = decode_byte_by_byte(&bytes);
    assert_eq!(outcome_whole, Err(TaserError::InvalidUtf8));
    assert_eq!(outcome_whole, outcome_single);
    assert_eq!(rows_whole, rows_single);
}

#[test]
fn consumer_reports_version_and_header_count() {
    let bytes = stream(&[(b"id", b"UINT", 4)], &[0x2a, 0, 0, 0]);
    let mut window = ByteWindow::new();
    let mut consumer = TaserConsumer::new();
    window.append(&bytes);
    let mut rows: Vec<TaserRow> = Vec::new();
    loop {
        let step = consumer.consume(window.bytes());
        match step {
            ConsumerState::Await { consumed, needed } => {
                window.consume(consumed);
                if (window.available() as u64) < needed {
                    break;
                }
            }
            ConsumerState::RowReady {
                consumed,
                needed,
                row,
            } => {
                window.consume(consumed);
                rows.push(row);
                if (window.available() as u64) < needed {
                    break;
                }
            }
            ConsumerState::ConsumerError(e) => panic!("unexpected error {:?}", e),
            ConsumerState::ConsumerDone => break,
        }
    }
    assert_eq!(consumer.version().major, 1);
    assert_eq!(consumer.version().minor, 0);
    assert_eq!(consumer.header_count(), 1);
    assert_eq!(rows.len(), 1);
    assert_eq!(consumer.end(window.available()), Ok(()));
    assert_eq!(consumer.state(), DecodeState::End);
}

#[test]
fn consumer_end_mid_schema_is_incomplete() {
    let mut consumer = TaserConsumer::new();
    let step = consumer.consume(b"TASR0100\x02\0\0\0");
    assert_eq!(
        step,
        ConsumerState::Await {
            consumed: 12,
            needed: 28
        }
    );
    assert_eq!(consumer.end(0), Err(TaserError::IncompleteStream));
    assert_eq!(
        consumer.state(),
        DecodeState::Failed(TaserError::IncompleteStream)
    );
}

#[test]
fn pushing_after_an_error_reports_it_again() {
    let mut session = DecodeSession::new();
    let (rows, err) = session.push_chunk(b"XXXX0100\0\0\0\0");
    assert!(rows.is_empty());
    assert_eq!(err, Some(TaserError::BadMagic));
    let (rows, err) = session.push_chunk(b"more bytes");
    assert!(rows.is_empty());
    assert_eq!(err, Some(TaserError::BadMagic));
}

#[test]
fn window_buffers_and_discards() {
    let mut window = ByteWindow::new();
    assert_eq!(window.available(), 0);
    window.append(b"abc");
    window.append(b"def");
    assert_eq!(window.available(), 6);
    assert_eq!(window.bytes(), &b"abcdef"[..]);
    window.consume(4);
    assert_eq!(window.available(), 2);
    assert_eq!(window.bytes(), &b"ef"[..]);
}
