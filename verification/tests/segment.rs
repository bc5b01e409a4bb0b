use gnosis_era::error::{ImportError, SegmentKind};
use gnosis_era::segment::{ReceiptWriter, SegmentWriter};

#[test]
fn append_in_order_advances() {
    let mut w = SegmentWriter::new(SegmentKind::Headers, 5);
    assert_eq!(w.append(5), Ok(()));
    assert_eq!(w.append(6), Ok(()));
    assert_eq!(w.next_key, 7);
}

#[test]
fn append_below_cursor_fails_without_moving_it() {
    // a key below the next expected key is an ordering error and the
    // writer state must not change
    let mut w = SegmentWriter::new(SegmentKind::Headers, 5);
    assert_eq!(
        w.append(3),
        Err(ImportError::SegmentOrdering { segment: SegmentKind::Headers, expected: 5, got: 3 })
    );
    assert_eq!(w.next_key, 5);
    // the untouched writer still accepts the right key
    assert_eq!(w.append(5), Ok(()));
}

#[test]
fn append_above_cursor_fails_too() {
    let mut w = SegmentWriter::new(SegmentKind::Bodies, 5);
    assert_eq!(
        w.append(6),
        Err(ImportError::SegmentOrdering { segment: SegmentKind::Bodies, expected: 5, got: 6 })
    );
    assert_eq!(w.next_key, 5);
}

#[test]
fn append_at_top_of_key_space_is_refused() {
    let mut w = SegmentWriter::new(SegmentKind::Headers, u64::MAX);
    assert_eq!(
        w.append(u64::MAX),
        Err(ImportError::CursorOverflow { segment: SegmentKind::Headers })
    );
    assert_eq!(w.next_key, u64::MAX);
}

#[test]
fn receipt_writer_tracks_tx_numbers() {
    let mut w = ReceiptWriter::new(10, 3);
    assert_eq!(w.append_receipt(10), Ok(()));
    assert_eq!(w.append_receipt(11), Ok(()));
    assert_eq!(
        w.append_receipt(13),
        Err(ImportError::SegmentOrdering { segment: SegmentKind::Receipts, expected: 12, got: 13 })
    );
    assert_eq!(w.txs.next_key, 12);
}

#[test]
fn increment_block_requires_block_order() {
    let mut w = ReceiptWriter::new(0, 3);
    assert_eq!(
        w.increment_block(4),
        Err(ImportError::ReceiptBlockOrdering { expected: 3, got: 4 })
    );
    assert_eq!(w.increment_block(3), Ok(()));
    assert_eq!(w.next_block, 4);
}
