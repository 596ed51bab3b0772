use hl_capture::node_files::{
    check_resume_boundary, directory_epoch, expected_height, file_epoch, is_date_name, is_decimal_name,
    probe_heights, snapshot_directory_epoch, CursorError, CursorProtocol, FileIdentity, LineRead, LineScanner,
    NodeReadError, SourceCursor, GAP_PROBE_HEIGHTS,
};

fn scan(offset: u64, max: usize, chunks: &[&[u8]]) -> Result<LineRead, NodeReadError> {
    let mut scanner = LineScanner::new(offset, max);
    for chunk in chunks {
        if let Some(read) = scanner.feed(chunk)? {
            return Ok(read);
        }
    }
    Ok(scanner.feed(&[])?.expect("end of file decides"))
}

#[test]
fn a_record_is_read_up_to_its_newline() {
    assert_eq!(
        scan(10, 64, &[b"abc\ndef"]),
        Ok(LineRead::Complete { payload: b"abc".to_vec(), end_offset: 14 })
    );
}

#[test]
fn a_record_read_in_pieces_is_the_same_record() {
    assert_eq!(
        scan(10, 64, &[b"a", b"bc", b"\nzz"]),
        Ok(LineRead::Complete { payload: b"abc".to_vec(), end_offset: 14 })
    );
}

#[test]
fn end_of_file_and_partial_records() {
    assert_eq!(scan(0, 64, &[]), Ok(LineRead::EndOfFile));
    assert_eq!(scan(0, 64, &[b"abc"]), Ok(LineRead::Partial));
}

#[test]
fn oversized_records_and_offset_overflow_are_refused() {
    assert_eq!(scan(0, 2, &[b"abc\n"]), Err(NodeReadError::RecordTooLarge));
    assert_eq!(scan(0, 2, &[b"ab", b"c"]), Err(NodeReadError::RecordTooLarge));
    assert_eq!(scan(u64::MAX - 1, 64, &[b"ab\n"]), Err(NodeReadError::OffsetOverflow));
}

#[test]
fn resuming_needs_a_record_boundary() {
    assert_eq!(check_resume_boundary(0, 0, None), Ok(()));
    assert_eq!(check_resume_boundary(4, 10, Some(b'\n')), Ok(()));
    assert_eq!(check_resume_boundary(4, 10, Some(b'x')), Err(NodeReadError::CursorRegression));
    assert_eq!(check_resume_boundary(11, 10, Some(b'\n')), Err(NodeReadError::CursorRegression));
}

#[test]
fn epochs_name_the_file_identity() {
    let id = FileIdentity { device: 1, inode: 2 };
    let other = FileIdentity { device: 1, inode: 3 };
    let epoch = file_epoch("fills", id, b"first record");
    assert!(epoch.starts_with("node-file-v1:"));
    assert_eq!(epoch.len(), "node-file-v1:".len() + 64);
    assert_ne!(epoch, file_epoch("fills", other, b"first record"));
    assert_ne!(epoch, file_epoch("fills", id, b"another record"));
    let mut pre = b"alpha-desk-node-block-directory-epoch-v1\0".to_vec();
    pre.extend_from_slice(b"blocks");
    pre.push(0);
    pre.extend_from_slice(&1u64.to_le_bytes());
    pre.extend_from_slice(&2u64.to_le_bytes());
    assert_eq!(directory_epoch("blocks", id), format!("node-block-dir-v1:{}", blake3::hash(&pre).to_hex()));
    assert!(snapshot_directory_epoch("blocks", id).starts_with("node-snapshot-dir-v1:"));
}

#[test]
fn directory_names() {
    assert!(is_decimal_name("0123"));
    assert!(!is_decimal_name(""));
    assert!(!is_decimal_name("12a"));
    assert!(is_date_name("20240101"));
    assert!(!is_date_name("2024011"));
}

#[test]
fn heights_advance_by_the_stride() {
    assert_eq!(expected_height(None, 100, 10), Ok(100));
    assert_eq!(expected_height(Some(100), 100, 10), Ok(110));
    assert_eq!(expected_height(Some(u64::MAX - 5), 0, 10), Err(NodeReadError::CursorRegression));
    let probes = probe_heights(100, 10);
    assert_eq!(probes.len() as u64, GAP_PROBE_HEIGHTS);
    assert_eq!(probes[0], 110);
    assert_eq!(probes[63], 100 + 64 * 10);
    assert_eq!(probe_heights(u64::MAX - 25, 10), vec![u64::MAX - 15, u64::MAX - 5]);
}

#[test]
fn one_cursor_is_outstanding_until_acknowledged() {
    let cursor = |offset| SourceCursor { epoch: "e".to_string(), offset };
    let mut protocol = CursorProtocol::new(None);
    assert!(protocol.committed_cursor().is_none());
    protocol.emit(cursor(4)).expect("emit");
    assert!(protocol.has_pending());
    assert_eq!(protocol.emit(cursor(8)), Err(CursorError::BackpressureTimeout));
    assert_eq!(protocol.acknowledge(&cursor(8)), Err(CursorError::CursorRegression));
    protocol.acknowledge(&cursor(4)).expect("ack");
    assert!(!protocol.has_pending());
    assert_eq!(protocol.committed_cursor().map(|c| c.offset), Some(4));
    protocol.emit(cursor(8)).expect("emit again");
}
