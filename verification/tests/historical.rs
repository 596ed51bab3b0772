use hl_capture::historical_backfill::{
    archive_epoch, content_hash, coverage_fields, object_etag, select_keys, sorted_distinct, BackfillRequest,
    BackfillRun, FsObjectStore, ObjectBody, RequestPayer,
};
use hl_capture::historical_manifest::{DatasetFormat, DatasetKind, HistoricalError};
use hl_capture::historical_progress::{
    BackfillCursor, GapRecord, HistoricalProgressStore, ObjectPlan, ProgressError, ProgressRecordDisposition,
    CHECKPOINT_SCHEMA,
};

fn plan(key: &str, hash: u8, etag: &str) -> ObjectPlan {
    ObjectPlan {
        dataset_id: "l2-snapshots".to_string(),
        bucket: "hyperliquid-archive".to_string(),
        key: key.to_string(),
        etag: etag.to_string(),
        content_hash: [hash; 32],
        archive_ref: format!("ref-{key}"),
        byte_count: 10,
        parser_build: "hl-capture-historical-s3-v1".to_string(),
        archived_at: 5,
    }
}

fn cursor(last: &str, version: u64) -> BackfillCursor {
    BackfillCursor {
        dataset_id: "l2-snapshots".to_string(),
        last_key: last.to_string(),
        parser_build: "hl-capture-historical-s3-v1".to_string(),
        coverage_start_key: "a".to_string(),
        coverage_end_key: last.to_string(),
        cursor_version: version,
        updated_at: 9,
    }
}

#[test]
fn objects_are_recorded_once_and_conflicts_refused() {
    let mut store = HistoricalProgressStore::memory();
    assert_eq!(store.record_object(plan("k1", 1, "e1")), Ok(ProgressRecordDisposition::New));
    assert_eq!(store.record_object(plan("k1", 1, "e1")), Ok(ProgressRecordDisposition::IdenticalDuplicate));
    assert_eq!(store.record_object(plan("k1", 2, "e1")), Err(ProgressError::ConflictingObject));
    assert_eq!(store.record_object(plan("k1", 1, "e2")), Err(ProgressError::ConflictingObject));
    let loaded = store.load_object("l2-snapshots", "k1").expect("object");
    assert_eq!(loaded.content_hash, [1; 32]);
    assert!(store.load_object("l2-snapshots", "k2").is_none());
}

#[test]
fn gaps_and_cursors_are_kept_per_dataset() {
    let mut store = HistoricalProgressStore::memory();
    let gap = GapRecord {
        dataset_id: "l2-snapshots".to_string(),
        bucket: "hyperliquid-archive".to_string(),
        key: "k9".to_string(),
        recorded_at: 3,
    };
    assert_eq!(store.record_gap(gap.copy()), ProgressRecordDisposition::New);
    assert_eq!(store.record_gap(gap), ProgressRecordDisposition::IdenticalDuplicate);
    assert_eq!(store.load_gaps("l2-snapshots").len(), 1);
    assert!(store.load_gaps("asset-contexts").is_empty());
    assert_eq!(store.persist_cursor(cursor("k2", 1)), ProgressRecordDisposition::New);
    assert_eq!(store.persist_cursor(cursor("k2", 1)), ProgressRecordDisposition::IdenticalDuplicate);
    assert_eq!(store.persist_cursor(cursor("k3", 2)), ProgressRecordDisposition::New);
    assert_eq!(store.load_cursor("l2-snapshots").expect("cursor").last_key, "k3");
    assert!(store.load_cursor("asset-contexts").is_none());
}

#[test]
fn checkpoints_round_trip() {
    let mut store = HistoricalProgressStore::memory();
    store.record_object(plan("k1", 1, "e1")).expect("object");
    store.persist_cursor(cursor("k1", 4));
    let file = store.encode_checkpoint();
    assert_eq!(file.schema_version, CHECKPOINT_SCHEMA);
    assert_eq!(file.datasets.len(), 1);
    assert_eq!(file.datasets[0].1.objects[0].content_hash, "01".repeat(32));
    let reopened = HistoricalProgressStore::open("/tmp/progress.json".to_string(), Some(&file)).expect("open");
    assert_eq!(reopened.path(), Some("/tmp/progress.json"));
    assert_eq!(reopened.load_object("l2-snapshots", "k1").expect("object").etag, "e1");
    assert_eq!(reopened.load_cursor("l2-snapshots").expect("cursor").cursor_version, 4);
}

#[test]
fn checkpoints_of_another_schema_are_refused() {
    let store = HistoricalProgressStore::memory();
    let mut file = store.encode_checkpoint();
    file.schema_version = "other".to_string();
    assert!(matches!(
        HistoricalProgressStore::open("/tmp/p.json".to_string(), Some(&file)),
        Err(HistoricalError::Checkpoint)
    ));
}

#[test]
fn object_identities_are_digests() {
    assert_eq!(object_etag(b"body"), blake3::hash(b"body").to_hex().to_string());
    assert_eq!(content_hash(b"body"), *blake3::hash(b"body").as_bytes());
    assert_eq!(archive_epoch("bucket", "key"), blake3::hash(b"bucket\0key").to_hex().to_string());
    assert_ne!(archive_epoch("bucket", "key"), archive_epoch("bucke", "tkey"));
    assert_eq!(RequestPayer::parse("requester"), Ok(RequestPayer::Requester));
    assert_eq!(RequestPayer::parse("owner"), Err(HistoricalError::RequesterPaysRequired));
}

#[test]
fn object_paths_stay_below_the_root() {
    let store = FsObjectStore::new("/data".to_string());
    assert_eq!(store.root(), "/data");
    assert_eq!(
        store.object_path("bucket", "a/b/c.lz4").expect("path"),
        vec!["bucket".to_string(), "a".to_string(), "b".to_string(), "c.lz4".to_string()]
    );
    assert_eq!(store.object_path("bucket", "../x"), Err(HistoricalError::InvalidRange));
    assert_eq!(store.object_path("bu/cket", "x"), Err(HistoricalError::InvalidRange));
    assert_eq!(store.object_path("bucket", "/x"), Err(HistoricalError::InvalidRange));
}

#[test]
fn listings_are_filtered_ordered_and_distinct() {
    let keys: Vec<String> = ["p/c", "p/a", "q/b", "p/b", "p/a"].iter().map(|s| s.to_string()).collect();
    assert_eq!(select_keys(&keys, "p/", "p/a", "p/b").expect("keys"), vec!["p/a".to_string(), "p/b".to_string()]);
    assert_eq!(select_keys(&keys, "p/", "p/c", "p/a"), Err(HistoricalError::InvalidRange));
    assert_eq!(sorted_distinct(&keys), vec!["p/a", "p/b", "p/c", "q/b"]);
}

#[test]
fn coverage_comes_from_the_key() {
    let day = 1_704_067_200_000_000i64;
    assert_eq!(
        coverage_fields(DatasetKind::L2Snapshots, "market_data/20240101/2/l2Book/BTC.lz4"),
        Ok((None, None, Some(day + 7_200_000_000), Some(day + 7_200_000_000)))
    );
    assert_eq!(coverage_fields(DatasetKind::AssetContexts, "asset_ctxs/20240101.csv.lz4"), Ok((None, None, Some(day), Some(day))));
    assert_eq!(
        coverage_fields(DatasetKind::L2Snapshots, "market_data/20240101/x/l2Book/BTC.lz4"),
        Err(HistoricalError::InvalidRange)
    );
}

#[test]
fn a_backfill_run_archives_present_objects_and_records_gaps() {
    let mut progress = HistoricalProgressStore::memory();
    let request = BackfillRequest {
        dataset: DatasetKind::L2Snapshots,
        format: DatasetFormat::Current,
        bucket: "hyperliquid-archive".to_string(),
        keys: vec![
            "market_data/20240101/1/l2Book/BTC.lz4".to_string(),
            "market_data/20240101/0/l2Book/BTC.lz4".to_string(),
        ],
        request_payer: RequestPayer::Requester,
        imported_at: 77,
    };
    let mut run = BackfillRun::start(&request, &progress).expect("start");
    assert_eq!(run.current_key(), Some("market_data/20240101/0/l2Book/BTC.lz4"));
    assert_eq!(run.bucket(), "hyperliquid-archive");
    let object = ObjectBody {
        key: "market_data/20240101/0/l2Book/BTC.lz4".to_string(),
        etag: object_etag(b"snapshot"),
        bytes: b"snapshot".to_vec(),
    };
    let bad = ObjectBody { etag: "00".to_string(), ..object.clone() };
    assert_eq!(run.check_object(&progress, &bad), Err(HistoricalError::HashMismatch));
    assert_eq!(run.check_object(&progress, &object), Ok(*blake3::hash(b"snapshot").as_bytes()));
    run.record_archived(&mut progress, &object, "ref-0".to_string()).expect("archived");
    assert_eq!(run.current_key(), Some("market_data/20240101/1/l2Book/BTC.lz4"));
    run.record_missing(&mut progress).expect("gap");
    assert_eq!(run.current_key(), None);
    let report = run.finish();
    assert_eq!((report.imported, report.duplicates, report.gaps), (1, 0, 1));
    assert_eq!(report.last_key.as_deref(), Some("market_data/20240101/1/l2Book/BTC.lz4"));
    assert_eq!(report.manifests.len(), 2);
    assert_eq!(progress.load_gaps("l2-snapshots").len(), 1);
    assert_eq!(
        progress.load_cursor("l2-snapshots").expect("cursor").last_key,
        "market_data/20240101/1/l2Book/BTC.lz4"
    );
}

#[test]
fn backfill_requests_are_checked_before_reading() {
    let progress = HistoricalProgressStore::memory();
    let mut request = BackfillRequest {
        dataset: DatasetKind::L2Snapshots,
        format: DatasetFormat::Legacy,
        bucket: "hyperliquid-archive".to_string(),
        keys: vec!["market_data/20240101/0/l2Book/BTC.lz4".to_string()],
        request_payer: RequestPayer::Requester,
        imported_at: 1,
    };
    assert!(matches!(BackfillRun::start(&request, &progress), Err(HistoricalError::FormatMismatch)));
    request.format = DatasetFormat::Current;
    request.bucket = "other".to_string();
    assert!(matches!(BackfillRun::start(&request, &progress), Err(HistoricalError::UnknownBucket)));
    request.bucket = "hyperliquid-archive".to_string();
    request.keys.clear();
    assert!(matches!(BackfillRun::start(&request, &progress), Err(HistoricalError::InvalidRange)));
}
