//! Official historical S3 dataset layout, format selection, and limitations.

use vstd::prelude::*;

use crate::text::{
    all_digits, chars_of, decimal_text, lemma_map_values_push, lemma_seq_lt_asymmetric, lemma_seq_lt_total, owned,
    push_decimal, push_str, same_text, seq_all_digits, seq_less, seq_lt,
};

verus! {

/// Why a historical import step was refused.
#[derive(Debug, Clone, Copy, PartialEq, Eq, Structural)]
pub enum HistoricalError {
    RequesterPaysRequired,
    UnknownDataset,
    UnknownFormat,
    FormatMismatch,
    UnknownBucket,
    HyperEvmDeferred,
    InvalidRange,
    HashMismatch,
    Conflict,
    Archive,
    Progress,
    Checkpoint,
    Store,
    InjectedFault(HistoricalFaultPoint),
}

/// Where a test may inject a historical import fault.
#[derive(Debug, Clone, Copy, PartialEq, Eq, Structural)]
pub enum HistoricalFaultPoint {
    AfterArchive,
}

/// The stable reason code of each historical error.
pub open spec fn historical_reason(e: HistoricalError) -> Seq<char> {
    match e {
        HistoricalError::RequesterPaysRequired => "historical_s3.requester_pays_required"@,
        HistoricalError::UnknownDataset => "historical_s3.unknown_dataset"@,
        HistoricalError::UnknownFormat => "historical_s3.unknown_format"@,
        HistoricalError::FormatMismatch => "historical_s3.format_mismatch"@,
        HistoricalError::UnknownBucket => "historical_s3.unknown_bucket"@,
        HistoricalError::HyperEvmDeferred => "historical_s3.hyperevm_deferred"@,
        HistoricalError::InvalidRange => "historical_s3.invalid_range"@,
        HistoricalError::HashMismatch => "historical_s3.hash_mismatch"@,
        HistoricalError::Conflict => "historical_s3.conflict"@,
        HistoricalError::Archive => "historical_s3.archive"@,
        HistoricalError::Progress => "historical_s3.progress"@,
        HistoricalError::Checkpoint => "historical_s3.checkpoint"@,
        HistoricalError::Store => "historical_s3.store"@,
        HistoricalError::InjectedFault(_) => "historical_s3.injected_fault"@,
    }
}

impl HistoricalError {
    pub fn reason_code(self) -> (r: &'static str)
        ensures
            r@ == historical_reason(self),
    {
        match self {
            HistoricalError::RequesterPaysRequired => "historical_s3.requester_pays_required",
            HistoricalError::UnknownDataset => "historical_s3.unknown_dataset",
            HistoricalError::UnknownFormat => "historical_s3.unknown_format",
            HistoricalError::FormatMismatch => "historical_s3.format_mismatch",
            HistoricalError::UnknownBucket => "historical_s3.unknown_bucket",
            HistoricalError::HyperEvmDeferred => "historical_s3.hyperevm_deferred",
            HistoricalError::InvalidRange => "historical_s3.invalid_range",
            HistoricalError::HashMismatch => "historical_s3.hash_mismatch",
            HistoricalError::Conflict => "historical_s3.conflict",
            HistoricalError::Archive => "historical_s3.archive",
            HistoricalError::Progress => "historical_s3.progress",
            HistoricalError::Checkpoint => "historical_s3.checkpoint",
            HistoricalError::Store => "historical_s3.store",
            HistoricalError::InjectedFault(_) => "historical_s3.injected_fault",
        }
    }
}

pub const PARSER_BUILD: &'static str = "hl-capture-historical-s3-v1";

pub const DATASET_VERSION: &'static str = "official-s3-v1";

pub const MARKET_BUCKET: &'static str = "hyperliquid-archive";

pub const NODE_MAINNET_BUCKET: &'static str = "hl-mainnet-node-data";

pub const NODE_TESTNET_BUCKET: &'static str = "hl-testnet-node-data";

pub const MARKET_LIMITATIONS: &'static str = "Official hyperliquid-archive uploads approximately once a month. There is no guarantee of timely updates and data may be missing. Only L2 book snapshots and asset contexts are published. Candles and spot asset data are not on S3.";

pub const NODE_LIMITATIONS: &'static str = "Official hl-mainnet-node-data prefixes are requester-pays. Older fills and trades live under node_fills and node_trades. Current fills are node_fills_by_block.";

pub const HYPEREVM_LIMITATIONS: &'static str = "HyperEVM buckets reuse this object-manifest infrastructure in T25, not T16.";

/// Which layout generation a dataset uses.
#[derive(Debug, Clone, Copy, PartialEq, Eq, Structural)]
pub enum DatasetFormat {
    Current,
    Legacy,
}

/// The official historical datasets.
#[derive(Debug, Clone, Copy, PartialEq, Eq, Structural)]
pub enum DatasetKind {
    L2Snapshots,
    AssetContexts,
    NodeFillsByBlock,
    NodeFillsLegacy,
    NodeTradesLegacy,
    ExplorerBlocks,
    ReplicaCmds,
}

pub open spec fn format_name(f: DatasetFormat) -> Seq<char> {
    match f {
        DatasetFormat::Current => "current"@,
        DatasetFormat::Legacy => "legacy"@,
    }
}

/// The format named `v`.
pub open spec fn format_named(v: Seq<char>) -> Result<DatasetFormat, HistoricalError> {
    if v == "current"@ {
        Ok(DatasetFormat::Current)
    } else if v == "legacy"@ {
        Ok(DatasetFormat::Legacy)
    } else {
        Err(HistoricalError::UnknownFormat)
    }
}

impl DatasetFormat {
    pub fn parse(value: &str) -> (r: Result<Self, HistoricalError>)
        ensures
            r == format_named(value@),
    {
        if same_text(value, "current") {
            Ok(DatasetFormat::Current)
        } else if same_text(value, "legacy") {
            Ok(DatasetFormat::Legacy)
        } else {
            Err(HistoricalError::UnknownFormat)
        }
    }

    pub fn as_str(self) -> (r: &'static str)
        ensures
            r@ == format_name(self),
    {
        match self {
            DatasetFormat::Current => "current",
            DatasetFormat::Legacy => "legacy",
        }
    }
}

pub open spec fn kind_identifier(k: DatasetKind) -> Seq<char> {
    match k {
        DatasetKind::L2Snapshots => "l2-snapshots"@,
        DatasetKind::AssetContexts => "asset-contexts"@,
        DatasetKind::NodeFillsByBlock => "node_fills_by_block"@,
        DatasetKind::NodeFillsLegacy => "node-fills-legacy"@,
        DatasetKind::NodeTradesLegacy => "node-trades-legacy"@,
        DatasetKind::ExplorerBlocks => "explorer-blocks"@,
        DatasetKind::ReplicaCmds => "replica_cmds"@,
    }
}

/// The dataset named `id`; the HyperEVM datasets are known but not served here.
pub open spec fn kind_named(id: Seq<char>) -> Result<DatasetKind, HistoricalError> {
    if id == "l2-snapshots"@ {
        Ok(DatasetKind::L2Snapshots)
    } else if id == "asset-contexts"@ {
        Ok(DatasetKind::AssetContexts)
    } else if id == "node_fills_by_block"@ {
        Ok(DatasetKind::NodeFillsByBlock)
    } else if id == "node-fills-legacy"@ {
        Ok(DatasetKind::NodeFillsLegacy)
    } else if id == "node-trades-legacy"@ {
        Ok(DatasetKind::NodeTradesLegacy)
    } else if id == "explorer-blocks"@ {
        Ok(DatasetKind::ExplorerBlocks)
    } else if id == "replica_cmds"@ {
        Ok(DatasetKind::ReplicaCmds)
    } else if id == "hyperevm-blocks"@ || id == "hyperevm-receipts"@ {
        Err(HistoricalError::HyperEvmDeferred)
    } else {
        Err(HistoricalError::UnknownDataset)
    }
}

/// The market datasets live in the market bucket; the rest are node data.
pub open spec fn is_market(k: DatasetKind) -> bool {
    k == DatasetKind::L2Snapshots || k == DatasetKind::AssetContexts
}

pub open spec fn kind_format(k: DatasetKind) -> DatasetFormat {
    if k == DatasetKind::NodeFillsLegacy || k == DatasetKind::NodeTradesLegacy {
        DatasetFormat::Legacy
    } else {
        DatasetFormat::Current
    }
}

pub open spec fn kind_prefix(k: DatasetKind) -> Seq<char> {
    match k {
        DatasetKind::L2Snapshots => "market_data/"@,
        DatasetKind::AssetContexts => "asset_ctxs/"@,
        DatasetKind::NodeFillsByBlock => "node_fills_by_block/"@,
        DatasetKind::NodeFillsLegacy => "node_fills/"@,
        DatasetKind::NodeTradesLegacy => "node_trades/"@,
        DatasetKind::ExplorerBlocks => "explorer_blocks/"@,
        DatasetKind::ReplicaCmds => "replica_cmds/"@,
    }
}

/// The buckets a dataset may be read from.
pub open spec fn bucket_accepted(k: DatasetKind, bucket: Seq<char>) -> bool {
    if is_market(k) {
        bucket == MARKET_BUCKET@
    } else {
        bucket == NODE_MAINNET_BUCKET@ || bucket == NODE_TESTNET_BUCKET@
    }
}

impl DatasetKind {
    pub fn parse(identifier: &str) -> (r: Result<Self, HistoricalError>)
        ensures
            r == kind_named(identifier@),
    {
        if same_text(identifier, "l2-snapshots") {
            Ok(DatasetKind::L2Snapshots)
        } else if same_text(identifier, "asset-contexts") {
            Ok(DatasetKind::AssetContexts)
        } else if same_text(identifier, "node_fills_by_block") {
            Ok(DatasetKind::NodeFillsByBlock)
        } else if same_text(identifier, "node-fills-legacy") {
            Ok(DatasetKind::NodeFillsLegacy)
        } else if same_text(identifier, "node-trades-legacy") {
            Ok(DatasetKind::NodeTradesLegacy)
        } else if same_text(identifier, "explorer-blocks") {
            Ok(DatasetKind::ExplorerBlocks)
        } else if same_text(identifier, "replica_cmds") {
            Ok(DatasetKind::ReplicaCmds)
        } else if same_text(identifier, "hyperevm-blocks") || same_text(
            identifier,
            "hyperevm-receipts",
        ) {
            Err(HistoricalError::HyperEvmDeferred)
        } else {
            Err(HistoricalError::UnknownDataset)
        }
    }

    pub fn identifier(self) -> (r: &'static str)
        ensures
            r@ == kind_identifier(self),
    {
        match self {
            DatasetKind::L2Snapshots => "l2-snapshots",
            DatasetKind::AssetContexts => "asset-contexts",
            DatasetKind::NodeFillsByBlock => "node_fills_by_block",
            DatasetKind::NodeFillsLegacy => "node-fills-legacy",
            DatasetKind::NodeTradesLegacy => "node-trades-legacy",
            DatasetKind::ExplorerBlocks => "explorer-blocks",
            DatasetKind::ReplicaCmds => "replica_cmds",
        }
    }

    pub fn required_format(self) -> (r: DatasetFormat)
        ensures
            r == kind_format(self),
    {
        match self {
            DatasetKind::NodeFillsLegacy | DatasetKind::NodeTradesLegacy => DatasetFormat::Legacy,
            DatasetKind::L2Snapshots
            | DatasetKind::AssetContexts
            | DatasetKind::NodeFillsByBlock
            | DatasetKind::ExplorerBlocks
            | DatasetKind::ReplicaCmds => DatasetFormat::Current,
        }
    }

    pub fn validate_format(self, format: DatasetFormat) -> (r: Result<(), HistoricalError>)
        ensures
            kind_format(self) == format ==> r is Ok,
            kind_format(self) != format ==> r == Err::<(), HistoricalError>(
                HistoricalError::FormatMismatch,
            ),
    {
        let required = self.required_format();
        let same = match (required, format) {
            (DatasetFormat::Current, DatasetFormat::Current) => true,
            (DatasetFormat::Legacy, DatasetFormat::Legacy) => true,
            _ => false,
        };
        if same {
            Ok(())
        } else {
            Err(HistoricalError::FormatMismatch)
        }
    }

    pub fn bucket_mainnet(self) -> (r: &'static str)
        ensures
            is_market(self) ==> r@ == MARKET_BUCKET@,
            !is_market(self) ==> r@ == NODE_MAINNET_BUCKET@,
    {
        match self {
            DatasetKind::L2Snapshots | DatasetKind::AssetContexts => MARKET_BUCKET,
            DatasetKind::NodeFillsByBlock
            | DatasetKind::NodeFillsLegacy
            | DatasetKind::NodeTradesLegacy
            | DatasetKind::ExplorerBlocks
            | DatasetKind::ReplicaCmds => NODE_MAINNET_BUCKET,
        }
    }

    pub fn accept_bucket(self, bucket: &str) -> (r: Result<(), HistoricalError>)
        ensures
            bucket_accepted(self, bucket@) ==> r is Ok,
            !bucket_accepted(self, bucket@) ==> r == Err::<(), HistoricalError>(
                HistoricalError::UnknownBucket,
            ),
    {
        let ok = match self {
            DatasetKind::L2Snapshots | DatasetKind::AssetContexts => same_text(bucket, MARKET_BUCKET),
            DatasetKind::NodeFillsByBlock
            | DatasetKind::NodeFillsLegacy
            | DatasetKind::NodeTradesLegacy
            | DatasetKind::ExplorerBlocks
            | DatasetKind::ReplicaCmds => same_text(bucket, NODE_MAINNET_BUCKET) || same_text(
                bucket,
                NODE_TESTNET_BUCKET,
            ),
        };
        if ok {
            Ok(())
        } else {
            Err(HistoricalError::UnknownBucket)
        }
    }

    pub fn key_prefix(self) -> (r: &'static str)
        ensures
            r@ == kind_prefix(self),
    {
        match self {
            DatasetKind::L2Snapshots => "market_data/",
            DatasetKind::AssetContexts => "asset_ctxs/",
            DatasetKind::NodeFillsByBlock => "node_fills_by_block/",
            DatasetKind::NodeFillsLegacy => "node_fills/",
            DatasetKind::NodeTradesLegacy => "node_trades/",
            DatasetKind::ExplorerBlocks => "explorer_blocks/",
            DatasetKind::ReplicaCmds => "replica_cmds/",
        }
    }

    pub fn official_limitations(self) -> (r: &'static str)
        ensures
            is_market(self) ==> r@ == MARKET_LIMITATIONS@,
            !is_market(self) ==> r@ == NODE_LIMITATIONS@,
    {
        match self {
            DatasetKind::L2Snapshots | DatasetKind::AssetContexts => MARKET_LIMITATIONS,
            DatasetKind::NodeFillsByBlock
            | DatasetKind::NodeFillsLegacy
            | DatasetKind::NodeTradesLegacy
            | DatasetKind::ExplorerBlocks
            | DatasetKind::ReplicaCmds => NODE_LIMITATIONS,
        }
    }
}

pub fn hyperevm_limitations() -> (r: &'static str)
    ensures
        r@ == HYPEREVM_LIMITATIONS@,
{
    HYPEREVM_LIMITATIONS
}

/// The fills dataset of a layout.
pub open spec fn fills_dataset(format: DatasetFormat) -> DatasetKind {
    match format {
        DatasetFormat::Current => DatasetKind::NodeFillsByBlock,
        DatasetFormat::Legacy => DatasetKind::NodeFillsLegacy,
    }
}

/// The trades dataset of a layout: only the legacy layout has one.
pub open spec fn trades_dataset(format: DatasetFormat) -> Result<DatasetKind, HistoricalError> {
    match format {
        DatasetFormat::Legacy => Ok(DatasetKind::NodeTradesLegacy),
        DatasetFormat::Current => Err(HistoricalError::FormatMismatch),
    }
}

/// Fills come by block in the current layout and from the old prefix in the legacy one.
pub fn select_fills_dataset(format: DatasetFormat) -> (r: DatasetKind)
    ensures
        r == fills_dataset(format),
{
    match format {
        DatasetFormat::Current => DatasetKind::NodeFillsByBlock,
        DatasetFormat::Legacy => DatasetKind::NodeFillsLegacy,
    }
}

/// Trades exist only in the legacy layout.
pub fn select_trades_dataset(format: DatasetFormat) -> (r: Result<DatasetKind, HistoricalError>)
    ensures
        r == trades_dataset(format),
{
    match format {
        DatasetFormat::Legacy => Ok(DatasetKind::NodeTradesLegacy),
        DatasetFormat::Current => Err(HistoricalError::FormatMismatch),
    }
}

/// A date of the form `YYYYMMDD`: eight ASCII digits.
pub open spec fn valid_date(date: Seq<char>) -> bool {
    date.len() == 8 && all_digits(date)
}

fn validate_date(date: &str) -> (r: Result<(), HistoricalError>)
    ensures
        valid_date(date@) ==> r is Ok,
        !valid_date(date@) ==> r == Err::<(), HistoricalError>(HistoricalError::InvalidRange),
{
    let c = chars_of(date);
    if c.len() == 8 && seq_all_digits(&c) {
        Ok(())
    } else {
        Err(HistoricalError::InvalidRange)
    }
}

pub open spec fn l2_key(date: Seq<char>, hour: u8, coin: Seq<char>) -> Seq<char> {
    "market_data/"@ + date + "/"@ + decimal_text(hour as nat) + "/l2Book/"@ + coin + ".lz4"@
}

pub open spec fn asset_key(date: Seq<char>) -> Seq<char> {
    "asset_ctxs/"@ + date + ".csv.lz4"@
}

pub open spec fn node_key(kind: DatasetKind, date: Seq<char>, name: Seq<char>) -> Seq<char> {
    kind_prefix(kind) + date + "/"@ + name
}

/// `market_data/{date}/{hour}/l2Book/{coin}.lz4`
pub fn l2_object_key(date: &str, hour: u8, coin: &str) -> (r: String)
    ensures
        r@ == l2_key(date@, hour, coin@),
{
    let mut out = owned("market_data/");
    push_str(&mut out, date);
    push_str(&mut out, "/");
    push_decimal(&mut out, hour as u64);
    push_str(&mut out, "/l2Book/");
    push_str(&mut out, coin);
    push_str(&mut out, ".lz4");
    assert(out@ =~= l2_key(date@, hour, coin@));
    out
}

/// `asset_ctxs/{date}.csv.lz4`
pub fn asset_ctx_key(date: &str) -> (r: String)
    ensures
        r@ == asset_key(date@),
{
    let mut out = owned("asset_ctxs/");
    push_str(&mut out, date);
    push_str(&mut out, ".csv.lz4");
    assert(out@ =~= asset_key(date@));
    out
}

/// `{prefix}{date}/{name}`
pub fn node_object_key(kind: DatasetKind, date: &str, name: &str) -> (r: String)
    ensures
        r@ == node_key(kind, date@, name@),
{
    let mut out = owned(kind.key_prefix());
    push_str(&mut out, date);
    push_str(&mut out, "/");
    push_str(&mut out, name);
    assert(out@ =~= node_key(kind, date@, name@));
    out
}

/// Which objects to list.
#[derive(Debug, Clone, PartialEq, Eq)]
pub enum EnumerationSpec {
    L2Book { date: String, hour: u8, coins: Vec<String> },
    AssetCtxs { dates: Vec<String> },
    NodeObjects { kind: DatasetKind, date: String, names: Vec<String> },
}

pub open spec fn views(v: Seq<String>) -> Seq<Seq<char>> {
    v.map_values(|s: String| s@)
}

/// The object keys a listing names, in the order given.
pub open spec fn enumerated(spec: EnumerationSpec) -> Result<Seq<Seq<char>>, HistoricalError> {
    match spec {
        EnumerationSpec::L2Book { date, hour, coins } => if !valid_date(date@) || coins@.len()
            == 0 {
            Err(HistoricalError::InvalidRange)
        } else {
            Ok(views(coins@).map_values(|c: Seq<char>| l2_key(date@, hour, c)))
        },
        EnumerationSpec::AssetCtxs { dates } => if dates@.len() == 0 || exists|i: int|
            0 <= i < dates@.len() && !valid_date(#[trigger] dates@[i]@) {
            Err(HistoricalError::InvalidRange)
        } else {
            Ok(views(dates@).map_values(|d: Seq<char>| asset_key(d)))
        },
        EnumerationSpec::NodeObjects { kind, date, names } => if is_market(kind) {
            Err(HistoricalError::UnknownDataset)
        } else if !valid_date(date@) || names@.len() == 0 {
            Err(HistoricalError::InvalidRange)
        } else {
            Ok(views(names@).map_values(|n: Seq<char>| node_key(kind, date@, n)))
        },
    }
}

pub fn enumerate_keys(spec: &EnumerationSpec) -> (r: Result<Vec<String>, HistoricalError>)
    ensures
        match enumerated(*spec) {
            Ok(keys) => r matches Ok(v) && views(v@) == keys,
            Err(e) => r == Err::<Vec<String>, HistoricalError>(e),
        },
{
    match spec {
        EnumerationSpec::L2Book { date, hour, coins } => {
            validate_date(date.as_str())?;
            if coins.len() == 0 {
                return Err(HistoricalError::InvalidRange);
            }
            let mut out: Vec<String> = Vec::new();
            let mut i: usize = 0;
            while i < coins.len()
                invariant
                    i <= coins@.len(),
                    views(out@) == views(coins@).take(i as int).map_values(
                        |c: Seq<char>| l2_key(date@, *hour, c),
                    ),
                decreases coins@.len() - i,
            {
                let key = l2_object_key(date.as_str(), *hour, coins[i].as_str());
                let ghost before = out@;
                out.push(key);
                proof {
                    let f = |c: Seq<char>| l2_key(date@, *hour, c);
                    lemma_map_values_push(before, key, |s: String| s@);
                    assert(views(coins@).take(i + 1) =~= views(coins@).take(i as int).push(
                        coins@[i as int]@,
                    ));
                    lemma_map_values_push(views(coins@).take(i as int), coins@[i as int]@, f);
                }
                i = i + 1;
            }
            assert(views(coins@).take(coins@.len() as int) =~= views(coins@));
            Ok(out)
        },
        EnumerationSpec::AssetCtxs { dates } => {
            if dates.len() == 0 {
                return Err(HistoricalError::InvalidRange);
            }
            let mut out: Vec<String> = Vec::new();
            let mut i: usize = 0;
            while i < dates.len()
                invariant
                    *spec == (EnumerationSpec::AssetCtxs { dates: *dates }),
                    0 < dates@.len(),
                    i <= dates@.len(),
                    forall|j: int| 0 <= j < i ==> valid_date(#[trigger] dates@[j]@),
                    views(out@) == views(dates@).take(i as int).map_values(
                        |d: Seq<char>| asset_key(d),
                    ),
                decreases dates@.len() - i,
            {
                if validate_date(dates[i].as_str()).is_err() {
                    assert(!valid_date(dates@[i as int]@));
                    assert(enumerated(*spec) == Err::<Seq<Seq<char>>, HistoricalError>(
                        HistoricalError::InvalidRange,
                    ));
                    return Err(HistoricalError::InvalidRange);
                }
                let key = asset_ctx_key(dates[i].as_str());
                let ghost before = out@;
                out.push(key);
                proof {
                    let f = |d: Seq<char>| asset_key(d);
                    lemma_map_values_push(before, key, |s: String| s@);
                    assert(views(dates@).take(i + 1) =~= views(dates@).take(i as int).push(
                        dates@[i as int]@,
                    ));
                    lemma_map_values_push(views(dates@).take(i as int), dates@[i as int]@, f);
                }
                i = i + 1;
            }
            assert(views(dates@).take(dates@.len() as int) =~= views(dates@));
            Ok(out)
        },
        EnumerationSpec::NodeObjects { kind, date, names } => {
            match kind {
                DatasetKind::L2Snapshots | DatasetKind::AssetContexts => {
                    return Err(HistoricalError::UnknownDataset);
                },
                _ => {},
            }
            validate_date(date.as_str())?;
            if names.len() == 0 {
                return Err(HistoricalError::InvalidRange);
            }
            let mut out: Vec<String> = Vec::new();
            let mut i: usize = 0;
            while i < names.len()
                invariant
                    i <= names@.len(),
                    views(out@) == views(names@).take(i as int).map_values(
                        |n: Seq<char>| node_key(*kind, date@, n),
                    ),
                decreases names@.len() - i,
            {
                let key = node_object_key(*kind, date.as_str(), names[i].as_str());
                let ghost before = out@;
                out.push(key);
                proof {
                    let f = |n: Seq<char>| node_key(*kind, date@, n);
                    lemma_map_values_push(before, key, |s: String| s@);
                    assert(views(names@).take(i + 1) =~= views(names@).take(i as int).push(
                        names@[i as int]@,
                    ));
                    lemma_map_values_push(views(names@).take(i as int), names@[i as int]@, f);
                }
                i = i + 1;
            }
            assert(views(names@).take(names@.len() as int) =~= views(names@));
            Ok(out)
        },
    }
}

/// `key` lies between `start` and `end`, both included, in `str` order.
pub open spec fn in_key_range(key: Seq<char>, start: Seq<char>, end: Seq<char>) -> bool {
    !seq_lt(key, start) && !seq_lt(end, key)
}

/// The keys of `keys` that lie in the range, in order.
pub open spec fn keys_between(keys: Seq<Seq<char>>, start: Seq<char>, end: Seq<char>) -> Seq<
    Seq<char>,
>
    decreases keys.len(),
{
    if keys.len() == 0 {
        seq![]
    } else {
        let sub = keys_between(keys.drop_last(), start, end);
        if in_key_range(keys.last(), start, end) {
            sub.push(keys.last())
        } else {
            sub
        }
    }
}

/// The keys between `start_key` and `end_key`, both included; a range whose start lies
/// after its end is refused.
pub fn keys_in_range<'a>(keys: &'a [String], start_key: &str, end_key: &str) -> (r: Result<
    Vec<&'a str>,
    HistoricalError,
>)
    ensures
        seq_lt(end_key@, start_key@) ==> r == Err::<Vec<&'a str>, HistoricalError>(
            HistoricalError::InvalidRange,
        ),
        !seq_lt(end_key@, start_key@) ==> (r matches Ok(v) && v@.map_values(|k: &str| k@)
            == keys_between(views(keys@), start_key@, end_key@)),
{
    let start = chars_of(start_key);
    let end = chars_of(end_key);
    if seq_less(&end, &start) {
        return Err(HistoricalError::InvalidRange);
    }
    let ghost ks = views(keys@);
    let mut out: Vec<&'a str> = Vec::new();
    let mut i: usize = 0;
    while i < keys.len()
        invariant
            i <= keys@.len(),
            ks == views(keys@),
            start@ == start_key@,
            end@ == end_key@,
            out@.map_values(|k: &str| k@) == keys_between(ks.take(i as int), start_key@, end_key@),
        decreases keys@.len() - i,
    {
        let key = keys[i].as_str();
        let c = chars_of(key);
        assert(ks.take(i + 1).drop_last() =~= ks.take(i as int));
        assert(ks.take(i + 1).last() == key@);
        if !seq_less(&c, &start) && !seq_less(&end, &c) {
            let ghost before = out@;
            out.push(key);
            proof {
                let lhs = out@.map_values(|k: &str| k@);
                let rhs = keys_between(ks.take(i as int), start_key@, end_key@).push(key@);
                assert forall|j: int| 0 <= j < lhs.len() implies lhs[j] == rhs[j] by {
                    if j < before.len() {
                        assert(out@[j] == before[j]);
                        assert(before.map_values(|k: &str| k@)[j] == keys_between(
                            ks.take(i as int),
                            start_key@,
                            end_key@,
                        )[j]);
                    }
                }
                assert(lhs =~= rhs);
            }
        }
        i = i + 1;
    }
    assert(ks.take(keys@.len() as int) =~= ks);
    Ok(out)
}

/// Days from 1970-01-01 to the given civil date (proleptic Gregorian, days counted past
/// the month's end roll over).
pub open spec fn civil_days(year: int, month: int, day: int) -> int {
    let y = if month <= 2 {
        year - 1
    } else {
        year
    };
    let era = y / 400;
    let yoe = y % 400;
    let mp = if month > 2 {
        month - 3
    } else {
        month + 9
    };
    let doy = (153 * mp + 2) / 5 + day - 1;
    let doe = yoe * 365 + yoe / 4 - yoe / 100 + doy;
    era * 146097 + doe - 719468
}

/// Microseconds since the Unix epoch at the start of the given hour, where the month is
/// 1 to 12, the day 1 to 31 and the result fits in an `i64`.
pub open spec fn civil_micros(year: int, month: int, day: int, hour: int) -> Option<int> {
    if !(1 <= month <= 12) || day == 0 || day > 31 {
        None
    } else {
        let m = (civil_days(year, month, day) * 86400 + hour * 3600) * 1_000_000;
        if i64::MIN <= m <= i64::MAX {
            Some(m)
        } else {
            None
        }
    }
}

fn civil_unix_micros(year: i32, month: u32, day: u32, hour: u32) -> (r: Option<i64>)
    ensures
        r == match civil_micros(year as int, month as int, day as int, hour as int) {
            Some(m) => Some(m as i64),
            None => None::<i64>,
        },
{
    if month < 1 || month > 12 || day == 0 || day > 31 {
        return None;
    }
    let y: i64 = if month <= 2 {
        year as i64 - 1
    } else {
        year as i64
    };
    let shifted: u64 = (y + 2_147_484_000) as u64;
    let q: u64 = shifted / 400;
    let yoe: u64 = shifted % 400;
    let era: i64 = q as i64 - 5_368_710;
    proof {
        vstd::arithmetic::div_mod::lemma_fundamental_div_mod(shifted as int, 400);
        vstd::arithmetic::div_mod::lemma_fundamental_div_mod_converse(
            y as int,
            400,
            era as int,
            yoe as int,
        );
    }
    let mp: u64 = if month > 2 {
        (month - 3) as u64
    } else {
        (month + 9) as u64
    };
    let doy: u64 = (153 * mp + 2) / 5 + day as u64 - 1;
    let doe: u64 = yoe * 365 + yoe / 4 - yoe / 100 + doy;
    let days: i64 = era * 146_097 + doe as i64 - 719_468;
    assert(days == civil_days(year as int, month as int, day as int));
    let secs: i64 = days * 86_400 + (hour as i64) * 3_600;
    secs.checked_mul(1_000_000)
}

/// The value of the two or four digits of `date` from `i` to `j`.
pub open spec fn date_field(date: Seq<char>, i: int, j: int) -> nat {
    crate::text::decimal(date.subrange(i, j))
}

/// Start of the hour (default midnight) of a `YYYYMMDD` date, in microseconds since the
/// Unix epoch; refused for a malformed date, an hour past 23 or a time out of range.
pub open spec fn event_time_of(date: Seq<char>, hour: Option<u8>) -> Result<i64, HistoricalError> {
    let h: int = match hour {
        Some(h) => h as int,
        None => 0,
    };
    if !valid_date(date) || h > 23 {
        Err(HistoricalError::InvalidRange)
    } else {
        match civil_micros(
            date_field(date, 0, 4) as int,
            date_field(date, 4, 6) as int,
            date_field(date, 6, 8) as int,
            h,
        ) {
            Some(m) => Ok(m as i64),
            None => Err(HistoricalError::InvalidRange),
        }
    }
}

/// The block height an object name spells, if it is a `u64` numeral.
pub open spec fn block_named(name: Seq<char>) -> Option<u64> {
    match crate::text::unsigned_numeral(name) {
        Some(n) => if n <= u64::MAX {
            Some(n as u64)
        } else {
            None
        },
        None => None,
    }
}

/// Start of the hour (default midnight) of a `YYYYMMDD` date, in microseconds since the
/// Unix epoch.
pub fn coverage_event_time(date: &str, hour: Option<u8>) -> (r: Result<i64, HistoricalError>)
    ensures
        r == event_time_of(date@, hour),
{
    if validate_date(date).is_err() {
        return Err(HistoricalError::InvalidRange);
    }
    let c = chars_of(date);
    assert(crate::text::is_digit(c@[0]) && crate::text::is_digit(c@[1]) && crate::text::is_digit(
        c@[2],
    ) && crate::text::is_digit(c@[3]) && crate::text::is_digit(c@[4]) && crate::text::is_digit(
        c@[5],
    ) && crate::text::is_digit(c@[6]) && crate::text::is_digit(c@[7]));
    let d0 = (c[0] as u32 - '0' as u32);
    let d1 = (c[1] as u32 - '0' as u32);
    let d2 = (c[2] as u32 - '0' as u32);
    let d3 = (c[3] as u32 - '0' as u32);
    let d4 = (c[4] as u32 - '0' as u32);
    let d5 = (c[5] as u32 - '0' as u32);
    let d6 = (c[6] as u32 - '0' as u32);
    let d7 = (c[7] as u32 - '0' as u32);
    let year: i32 = (d0 * 1000 + d1 * 100 + d2 * 10 + d3) as i32;
    let month: u32 = d4 * 10 + d5;
    let day: u32 = d6 * 10 + d7;
    proof {
        reveal_with_fuel(crate::text::decimal, 5);
        assert(date@.subrange(0, 4).drop_last().drop_last().drop_last().drop_last().len() == 0);
        assert(date_field(date@, 0, 4) == year);
        assert(date@.subrange(4, 6).drop_last().drop_last().len() == 0);
        assert(date_field(date@, 4, 6) == month);
        assert(date@.subrange(6, 8).drop_last().drop_last().len() == 0);
        assert(date_field(date@, 6, 8) == day);
    }
    let h: u32 = match hour {
        Some(h) => h as u32,
        None => 0,
    };
    if h > 23 {
        return Err(HistoricalError::InvalidRange);
    }
    match civil_unix_micros(year, month, day, h) {
        Some(m) => Ok(m),
        None => Err(HistoricalError::InvalidRange),
    }
}

/// The block height a node object is named after, if its name is a `u64` numeral.
pub fn coverage_block(name: &str) -> (r: Option<u64>)
    ensures
        r == block_named(name@),
{
    let c = chars_of(name);
    crate::text::parse_unsigned(&c)
}

/// Every dataset and every format parses back from the name it is written as.
pub proof fn law_names_round_trip(kind: DatasetKind, format: DatasetFormat)
    ensures
        kind_named(kind_identifier(kind)) == Ok::<DatasetKind, HistoricalError>(kind),
        format_named(format_name(format)) == Ok::<DatasetFormat, HistoricalError>(format),
{
    reveal_strlit("l2-snapshots");
    reveal_strlit("asset-contexts");
    reveal_strlit("node_fills_by_block");
    reveal_strlit("node-fills-legacy");
    reveal_strlit("node-trades-legacy");
    reveal_strlit("explorer-blocks");
    reveal_strlit("replica_cmds");
    reveal_strlit("current");
    reveal_strlit("legacy");
    let id = kind_identifier(kind);
    if kind != DatasetKind::L2Snapshots {
        assert(id != "l2-snapshots"@) by {
            if id == "l2-snapshots"@ {
                assert(id[0] == 'l' && id[1] == '2');
            }
        }
    }
    if kind != DatasetKind::AssetContexts {
        assert(id != "asset-contexts"@) by {
            if id == "asset-contexts"@ {
                assert(id[0] == 'a');
            }
        }
    }
    if kind != DatasetKind::NodeFillsByBlock {
        assert(id != "node_fills_by_block"@) by {
            if id == "node_fills_by_block"@ {
                assert(id.len() == 19 && id[4] == '_');
            }
        }
    }
    if kind != DatasetKind::NodeFillsLegacy {
        assert(id != "node-fills-legacy"@) by {
            if id == "node-fills-legacy"@ {
                assert(id.len() == 17 && id[5] == 'f');
            }
        }
    }
    if kind != DatasetKind::NodeTradesLegacy {
        assert(id != "node-trades-legacy"@) by {
            if id == "node-trades-legacy"@ {
                assert(id.len() == 18 && id[5] == 't');
            }
        }
    }
    if kind != DatasetKind::ExplorerBlocks {
        assert(id != "explorer-blocks"@) by {
            if id == "explorer-blocks"@ {
                assert(id[0] == 'e');
            }
        }
    }
    if format != DatasetFormat::Current {
        assert(format_name(format) != "current"@) by {
            if format_name(format) == "current"@ {
                assert(format_name(format)[0] == 'c');
            }
        }
    }
}

/// The dataset chosen for a layout is written in that layout.
pub proof fn law_selection_matches_format(format: DatasetFormat)
    ensures
        kind_format(fills_dataset(format)) == format,
        trades_dataset(format) matches Ok(k) ==> kind_format(k) == format,
        trades_dataset(format) is Err ==> format == DatasetFormat::Current,
{
}

/// Every key a listing names lies under its dataset's key prefix.
pub proof fn law_enumerated_keys_under_prefix(spec: EnumerationSpec)
    requires
        enumerated(spec) is Ok,
    ensures
        forall|i: int|
            0 <= i < enumerated(spec)->Ok_0.len() ==> crate::text::starts_with(
                #[trigger] enumerated(spec)->Ok_0[i],
                match spec {
                    EnumerationSpec::L2Book { .. } => kind_prefix(DatasetKind::L2Snapshots),
                    EnumerationSpec::AssetCtxs { .. } => kind_prefix(DatasetKind::AssetContexts),
                    EnumerationSpec::NodeObjects { kind, .. } => kind_prefix(kind),
                },
            ),
{
    let keys = enumerated(spec)->Ok_0;
    assert forall|i: int| 0 <= i < keys.len() implies crate::text::starts_with(
        #[trigger] keys[i],
        match spec {
            EnumerationSpec::L2Book { .. } => kind_prefix(DatasetKind::L2Snapshots),
            EnumerationSpec::AssetCtxs { .. } => kind_prefix(DatasetKind::AssetContexts),
            EnumerationSpec::NodeObjects { kind, .. } => kind_prefix(kind),
        },
    ) by {
        match spec {
            EnumerationSpec::L2Book { date, hour, coins } => {
                let k = l2_key(date@, hour, views(coins@)[i]);
                reveal_strlit("market_data/");
                assert(keys[i] == k);
                assert(k.subrange(0, 12) =~= "market_data/"@);
            },
            EnumerationSpec::AssetCtxs { dates } => {
                let k = asset_key(views(dates@)[i]);
                reveal_strlit("asset_ctxs/");
                assert(keys[i] == k);
                assert(k.subrange(0, 11) =~= "asset_ctxs/"@);
            },
            EnumerationSpec::NodeObjects { kind, date, names } => {
                let k = node_key(kind, date@, views(names@)[i]);
                assert(keys[i] == k);
                assert(k.subrange(0, kind_prefix(kind).len() as int) =~= kind_prefix(kind));
            },
        }
    }
}

/// A range listing keeps exactly the keys in the range, in their order.
pub proof fn law_keys_between_exact(keys: Seq<Seq<char>>, start: Seq<char>, end: Seq<char>)
    ensures
        forall|k: Seq<char>|
            #[trigger] keys_between(keys, start, end).contains(k) <==> (keys.contains(k)
                && in_key_range(k, start, end)),
        keys_between(keys, start, end).len() <= keys.len(),
    decreases keys.len(),
{
    if keys.len() > 0 {
        let d = keys.drop_last();
        law_keys_between_exact(d, start, end);
        let sub = keys_between(d, start, end);
        assert forall|k: Seq<char>|
            #[trigger] keys_between(keys, start, end).contains(k) <==> (keys.contains(k)
                && in_key_range(k, start, end)) by {
            if keys.contains(k) && in_key_range(k, start, end) {
                let j = choose|j: int| 0 <= j < keys.len() && keys[j] == k;
                if j < keys.len() - 1 {
                    assert(d[j] == k);
                    assert(d.contains(k));
                    assert(keys_between(d, start, end).contains(k));
                    if in_key_range(keys.last(), start, end) {
                        assert(sub.push(keys.last()).contains(k)) by {
                            let m = choose|m: int| 0 <= m < sub.len() && sub[m] == k;
                            assert(sub.push(keys.last())[m] == k);
                        }
                    }
                } else {
                    assert(sub.push(keys.last())[sub.len() as int] == k);
                }
            }
            if keys_between(keys, start, end).contains(k) {
                if sub.contains(k) {
                    let m = choose|m: int| 0 <= m < d.len() && d[m] == k;
                    assert(keys[m] == k);
                } else {
                    let m = choose|m: int|
                        0 <= m < keys_between(keys, start, end).len() && keys_between(
                            keys,
                            start,
                            end,
                        )[m] == k;
                    if m < sub.len() {
                        assert(sub.push(keys.last())[m] == sub[m]);
                    }
                    assert(keys[keys.len() - 1] == k);
                }
            }
        }
    }
}

} // verus!
