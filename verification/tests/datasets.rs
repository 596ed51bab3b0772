use hl_capture::aux_checkpoint::decode_hash;
use hl_capture::historical_backfill::{content_hash, object_etag};
use hl_capture::publication::{BlockBinding, PublicationMessage};
use hl_capture::subjects::Subject;
use hl_capture::historical_manifest::{
    asset_ctx_key, coverage_block, coverage_event_time, enumerate_keys, keys_in_range, l2_object_key,
    node_object_key, select_fills_dataset, select_trades_dataset, DatasetFormat, DatasetKind, EnumerationSpec,
    HistoricalError,
};
use hl_capture::snapshot_store::{parse_snapshot_hash_file, SnapshotHashStore, SnapshotStoreError};
use sha2::Digest;

#[test]
fn digests_match_their_libraries() {
    assert_eq!(content_hash(b"hello"), *blake3::hash(b"hello").as_bytes());
    let expected: Vec<u8> = sha2::Sha256::digest(b"hello").to_vec();
    let binding = BlockBinding {
        chain_id: "mainnet".to_string(),
        block_height: 1,
        canonical_block_hash: [1; 32],
        archive_receipt_id: "receipt".to_string(),
        archive_manifest_sha256: [2; 32],
    };
    let message =
        PublicationMessage::try_new(Subject::BlockCommitted, "m1", "v1", binding, b"hello".to_vec()).expect("message");
    assert_eq!(message.publication_sha256().to_vec(), expected);
    assert_ne!(message.publication_sha256(), content_hash(b"hello"));
}

#[test]
fn hex_round_trips() {
    assert_eq!(object_etag(b"hello"), blake3::hash(b"hello").to_hex().to_string());
    let text = "00ab".repeat(16);
    let mut bytes = [0u8; 32];
    for pair in bytes.chunks_mut(2) {
        pair[1] = 0xab;
    }
    assert_eq!(decode_hash(&text), Ok(bytes));
    assert_eq!(decode_hash(&"00AB".repeat(16)), Ok(bytes));
    assert!(decode_hash("abc").is_err());
    assert!(decode_hash(&"zz".repeat(32)).is_err());
}

#[test]
fn snapshot_hashes_render_and_parse_back() {
    let mut store = SnapshotHashStore::open("/tmp/hashes", None).expect("open");
    store.upsert("btc", [0x11; 32]).expect("btc");
    store.upsert("eth", [0x22; 32]).expect("eth");
    store.upsert("btc", [0x33; 32]).expect("btc again");
    assert_eq!(store.upsert("has space", [0; 32]), Err(SnapshotStoreError::InvalidKey));
    assert_eq!(store.upsert("", [0; 32]), Err(SnapshotStoreError::InvalidKey));
    let body = store.render();
    assert_eq!(body, format!("btc {}\neth {}\n", "33".repeat(32), "22".repeat(32)));
    let reopened = SnapshotHashStore::open("/tmp/hashes", Some(&body)).expect("reopen");
    assert_eq!(reopened.get("btc"), Some([0x33; 32]));
    assert_eq!(reopened.get("eth"), Some([0x22; 32]));
    assert_eq!(reopened.get("sol"), None);
    assert_eq!(reopened.path(), "/tmp/hashes");
}

#[test]
fn malformed_snapshot_files_are_refused() {
    assert_eq!(parse_snapshot_hash_file("btc").err(), Some(SnapshotStoreError::MissingSplit));
    assert_eq!(parse_snapshot_hash_file("btc zz").err(), Some(SnapshotStoreError::InvalidHex));
    assert_eq!(parse_snapshot_hash_file("btc abcd").err(), Some(SnapshotStoreError::WrongLength));
    assert_eq!(SnapshotStoreError::WrongLength.message(), "snapshot hash must be 32 bytes");
    assert!(parse_snapshot_hash_file("").expect("empty").len() == 0);
}

#[test]
fn dataset_names_round_trip() {
    for kind in [
        DatasetKind::L2Snapshots,
        DatasetKind::AssetContexts,
        DatasetKind::NodeFillsByBlock,
        DatasetKind::NodeFillsLegacy,
        DatasetKind::NodeTradesLegacy,
        DatasetKind::ExplorerBlocks,
        DatasetKind::ReplicaCmds,
    ] {
        assert_eq!(DatasetKind::parse(kind.identifier()), Ok(kind));
    }
    assert_eq!(DatasetKind::parse("hyperevm-blocks"), Err(HistoricalError::HyperEvmDeferred));
    assert_eq!(DatasetKind::parse("nope"), Err(HistoricalError::UnknownDataset));
    assert_eq!(DatasetFormat::parse("legacy"), Ok(DatasetFormat::Legacy));
    assert_eq!(DatasetFormat::parse("Legacy"), Err(HistoricalError::UnknownFormat));
    assert_eq!(select_fills_dataset(DatasetFormat::Current), DatasetKind::NodeFillsByBlock);
    assert_eq!(select_trades_dataset(DatasetFormat::Current), Err(HistoricalError::FormatMismatch));
}

#[test]
fn object_keys_follow_the_bucket_layout() {
    assert_eq!(l2_object_key("20240101", 7, "BTC"), "market_data/20240101/7/l2Book/BTC.lz4");
    assert_eq!(asset_ctx_key("20240101"), "asset_ctxs/20240101.csv.lz4");
    assert_eq!(node_object_key(DatasetKind::NodeFillsLegacy, "20240101", "9"), "node_fills/20240101/9");
    let keys = enumerate_keys(&EnumerationSpec::L2Book {
        date: "20240101".to_string(),
        hour: 0,
        coins: vec!["BTC".to_string(), "ETH".to_string()],
    })
    .expect("keys");
    assert_eq!(keys, vec!["market_data/20240101/0/l2Book/BTC.lz4", "market_data/20240101/0/l2Book/ETH.lz4"]);
    assert_eq!(
        enumerate_keys(&EnumerationSpec::AssetCtxs { dates: vec!["2024-01-01".to_string()] }),
        Err(HistoricalError::InvalidRange)
    );
    assert_eq!(
        enumerate_keys(&EnumerationSpec::NodeObjects {
            kind: DatasetKind::L2Snapshots,
            date: "20240101".to_string(),
            names: vec!["1".to_string()],
        }),
        Err(HistoricalError::UnknownDataset)
    );
}

#[test]
fn key_ranges_include_both_ends() {
    let keys: Vec<String> = ["a", "b", "c", "d"].iter().map(|s| s.to_string()).collect();
    assert_eq!(keys_in_range(&keys, "b", "c").expect("range"), vec!["b", "c"]);
    assert_eq!(keys_in_range(&keys, "c", "b"), Err(HistoricalError::InvalidRange));
}

#[test]
fn coverage_times_are_hour_starts() {
    assert_eq!(coverage_event_time("19700101", None), Ok(0));
    assert_eq!(coverage_event_time("19700102", Some(1)), Ok((86_400 + 3_600) * 1_000_000));
    assert_eq!(coverage_event_time("20240229", None), Ok(1_709_164_800_000_000));
    assert_eq!(coverage_event_time("2024022", None), Err(HistoricalError::InvalidRange));
    assert_eq!(coverage_event_time("20240101", Some(24)), Err(HistoricalError::InvalidRange));
    assert_eq!(coverage_block("123"), Some(123));
    assert_eq!(coverage_block("12a"), None);
}
