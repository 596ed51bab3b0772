//! Official historical S3 backfill: object selection, object identity, the progress
//! store, its checkpoint file, and the import run that archives exact object bytes
//! before its cursor advances.

use vstd::prelude::*;

use crate::digest::{blake3_digest, blake3_hash, hex_decode, hex_decoded, hex_encode, hex_lower, same_hash};
use crate::historical_manifest::{
    block_named, bucket_accepted, coverage_block, coverage_event_time, event_time_of, kind_format,
    kind_identifier, views,
    DatasetFormat, DatasetKind, HistoricalError, HistoricalFaultPoint, DATASET_VERSION,
    PARSER_BUILD,
};
use crate::historical_progress::{
    BackfillCursor, CursorModel, GapModel, GapRecord, HistoricalProgressStore, ObjectPlan,
    ObjectPlanModel,
    ProgressError, ProgressRecordDisposition,
};
use crate::strmap::{has_key, keys_sorted, lookup, StrMap};
use crate::text::{
    chars_of, contains, ends_with, lemma_seq_lt_irreflexive, owned, pieces, seq_lt, split_chars,
    starts_with, str_contains, str_starts_with,
};

verus! {

/// Who pays for requester-pays objects.
#[derive(Debug, Clone, Copy, PartialEq, Eq, Structural)]
pub enum RequestPayer {
    Requester,
}

impl RequestPayer {
    /// Only `requester` is accepted.
    pub fn parse(value: &str) -> (r: Result<Self, HistoricalError>)
        ensures
            value@ == "requester"@ ==> r == Ok::<RequestPayer, HistoricalError>(
                RequestPayer::Requester,
            ),
            value@ != "requester"@ ==> r == Err::<RequestPayer, HistoricalError>(
                HistoricalError::RequesterPaysRequired,
            ),
    {
        if crate::text::same_text(value, "requester") {
            Ok(RequestPayer::Requester)
        } else {
            Err(HistoricalError::RequesterPaysRequired)
        }
    }
}

/// A place where a test can make a historical import step fail.
pub trait HistoricalFaultInjector {
    fn check(&self, point: HistoricalFaultPoint) -> Result<(), HistoricalError>;
}

/// Injects nothing.
#[derive(Debug, Clone, Copy, Default)]
pub struct NoHistoricalFaults;

impl HistoricalFaultInjector for NoHistoricalFaults {
    fn check(&self, point: HistoricalFaultPoint) -> (r: Result<(), HistoricalError>)
        ensures
            r is Ok,
    {
        Ok(())
    }
}

/// One object of a bucket listing.
#[derive(Debug, Clone, PartialEq, Eq)]
pub struct ListedObject {
    pub key: String,
    pub etag: String,
    pub size: u64,
}

/// The bytes of one object, with its key and entity tag.
#[derive(Debug, Clone, PartialEq, Eq)]
pub struct ObjectBody {
    pub key: String,
    pub etag: String,
    pub bytes: Vec<u8>,
}

/// The entity tag of object bytes: lower-case hex of their BLAKE3 digest.
pub open spec fn etag_of(bytes: Seq<u8>) -> Seq<char> {
    hex_lower(blake3_digest(bytes))
}

/// Entity tag of `bytes`.
pub fn object_etag(bytes: &[u8]) -> (r: String)
    ensures
        r@ == etag_of(bytes@),
{
    let h = blake3_hash(bytes);
    hex_encode(&h)
}

/// Content hash of `bytes`: their BLAKE3 digest.
pub fn content_hash(bytes: &[u8]) -> (r: [u8; 32])
    ensures
        r@ == blake3_digest(bytes@),
{
    blake3_hash(bytes)
}

/// The bytes hashed to name an archived object: bucket, a zero byte, then key.
pub open spec fn epoch_preimage(bucket: Seq<char>, key: Seq<char>) -> Seq<u8> {
    vstd::utf8::encode_utf8(bucket) + seq![0u8] + vstd::utf8::encode_utf8(key)
}

/// The archive reference of an object: hex of the BLAKE3 digest of its bucket and key.
pub fn archive_epoch(bucket: &str, key: &str) -> (r: String)
    ensures
        r@ == hex_lower(blake3_digest(epoch_preimage(bucket@, key@))),
{
    let mut pre: Vec<u8> = Vec::new();
    crate::digest::append_bytes(&mut pre, bucket.as_bytes());
    pre.push(0u8);
    crate::digest::append_bytes(&mut pre, key.as_bytes());
    assert(pre@ =~= epoch_preimage(bucket@, key@));
    let h = blake3_hash(pre.as_slice());
    hex_encode(&h)
}

/// The listing entry of an object read whole.
pub fn listed_object(key: String, bytes: &[u8]) -> (r: ListedObject)
    ensures
        r.key == key,
        r.etag@ == etag_of(bytes@),
        r.size == bytes@.len(),
{
    ListedObject { etag: object_etag(bytes), size: bytes.len() as u64, key }
}

/// Whether an object key names a path below its bucket: not empty, no `..`, not
/// absolute, and no empty or `.` component.
pub open spec fn object_key_ok(bucket: Seq<char>, key: Seq<char>) -> bool {
    &&& bucket.len() > 0
    &&& key.len() > 0
    &&& !crate::text::has_char(bucket, '/')
    &&& !contains(key, ".."@)
    &&& key[0] != '/'
    &&& forall|i: int| 0 <= i < pieces(key, '/').len() ==> {
        let c = #[trigger] pieces(key, '/')[i];
        c.len() > 0 && c != "."@ && c != ".."@
    }
}

/// A store of objects under a local root directory, one directory per bucket.
#[derive(Debug, Clone)]
pub struct FsObjectStore {
    root: String,
}

impl FsObjectStore {
    pub fn new(root: String) -> (r: Self)
        ensures
            r.spec_root() == root@,
    {
        FsObjectStore { root }
    }

    pub closed spec fn spec_root(&self) -> Seq<char> {
        self.root@
    }

    pub fn root(&self) -> (r: &str)
        ensures
            r@ == self.spec_root(),
    {
        self.root.as_str()
    }

    /// The path components, below the root, of an object: its bucket, then each `/`
    /// separated component of its key.
    pub fn object_path(&self, bucket: &str, key: &str) -> (r: Result<Vec<String>, HistoricalError>)
        ensures
            object_key_ok(bucket@, key@) ==> (r matches Ok(v) && views(v@) == seq![bucket@]
                + pieces(key@, '/')),
            !object_key_ok(bucket@, key@) ==> r == Err::<Vec<String>, HistoricalError>(
                HistoricalError::InvalidRange,
            ),
    {
        proof {
            reveal_strlit("..");
            reveal_strlit(".");
        }
        let bc = chars_of(bucket);
        let kc = chars_of(key);
        if bc.len() == 0 || kc.len() == 0 || crate::text::str_has_char(bucket, '/')
            || str_contains(key, "..") {
            return Err(HistoricalError::InvalidRange);
        }
        if kc[0] == '/' {
            return Err(HistoricalError::InvalidRange);
        }
        let parts = split_chars(&kc, '/');
        let mut out: Vec<String> = Vec::new();
        out.push(owned(bucket));
        let mut i: usize = 0;
        while i < parts.len()
            invariant
                i <= parts@.len(),
                parts.deep_view() == pieces(key@, '/'),
                views(out@) == seq![bucket@] + pieces(key@, '/').take(i as int),
                forall|j: int| 0 <= j < i ==> {
                    let c = #[trigger] pieces(key@, '/')[j];
                    c.len() > 0 && c != "."@ && c != ".."@
                },
            decreases parts@.len() - i,
        {
            let part = &parts[i];
            assert(part@ == pieces(key@, '/')[i as int]);
            if part.len() == 0 || (part.len() == 1 && part[0] == '.') || (part.len() == 2
                && part[0] == '.' && part[1] == '.') {
                proof {
                    reveal_strlit(".");
                    reveal_strlit("..");
                    if part.len() == 1 {
                        assert(part@ =~= "."@);
                    }
                    if part.len() == 2 {
                        assert(part@ =~= ".."@);
                    }
                }
                return Err(HistoricalError::InvalidRange);
            }
            proof {
                reveal_strlit(".");
                reveal_strlit("..");
                if part@ == "."@ {
                    assert(part@.len() == 1 && part@[0] == '.');
                }
                if part@ == ".."@ {
                    assert(part@.len() == 2);
                }
            }
            let ghost before = out@;
            out.push(crate::public_ws::string_from(part));
            assert(views(out@) =~= views(before).push(part@));
            assert(pieces(key@, '/').take(i + 1) =~= pieces(key@, '/').take(i as int).push(
                part@,
            ));
            i = i + 1;
        }
        assert(pieces(key@, '/').take(parts@.len() as int) =~= pieces(key@, '/'));
        Ok(out)
    }
}

/// Whether a key is selected by a listing: under `prefix`, and between `start` and `end`
/// both included.
pub open spec fn key_selected(key: Seq<char>, prefix: Seq<char>, start: Seq<char>, end: Seq<char>) -> bool {
    starts_with(key, prefix) && !seq_lt(key, start) && !seq_lt(end, key)
}

/// Strictly increasing in `str` order.
pub open spec fn strictly_ordered(s: Seq<Seq<char>>) -> bool {
    forall|i: int, j: int| 0 <= i < j < s.len() ==> seq_lt(#[trigger] s[i], #[trigger] s[j])
}

/// The listed keys a listing returns: those under `prefix` and in the range, each once,
/// in `str` order; a range whose start lies after its end is refused.
pub fn select_keys(keys: &Vec<String>, prefix: &str, start_key: &str, end_key: &str) -> (r: Result<
    Vec<String>,
    HistoricalError,
>)
    ensures
        seq_lt(end_key@, start_key@) ==> r == Err::<Vec<String>, HistoricalError>(
            HistoricalError::InvalidRange,
        ),
        !seq_lt(end_key@, start_key@) ==> (r matches Ok(v) && strictly_ordered(views(v@))
            && forall|k: Seq<char>| #[trigger]
                views(v@).contains(k) <==> (views(keys@).contains(k) && key_selected(
                    k,
                    prefix@,
                    start_key@,
                    end_key@,
                ))),
{
    let start = chars_of(start_key);
    let end = chars_of(end_key);
    if crate::text::seq_less(&end, &start) {
        return Err(HistoricalError::InvalidRange);
    }
    let mut chosen: Vec<String> = Vec::new();
    let mut i: usize = 0;
    while i < keys.len()
        invariant
            i <= keys@.len(),
            start@ == start_key@,
            end@ == end_key@,
            forall|k: Seq<char>| #[trigger]
                views(chosen@).contains(k) <==> (views(keys@).take(i as int).contains(k)
                    && key_selected(k, prefix@, start_key@, end_key@)),
        decreases keys@.len() - i,
    {
        let key = keys[i].as_str();
        let c = chars_of(key);
        let keep = str_starts_with(key, prefix) && !crate::text::seq_less(&c, &start)
            && !crate::text::seq_less(&end, &c);
        let ghost before = chosen@;
        if keep {
            chosen.push(owned(key));
        }
        proof {
            let t = views(keys@).take(i + 1);
            assert(views(keys@)[i as int] == key@);
            assert(keep == key_selected(key@, prefix@, start_key@, end_key@));
            assert(t =~= views(keys@).take(i as int).push(key@));
            if keep {
                assert(views(chosen@) =~= views(before).push(key@));
            } else {
                assert(views(chosen@) =~= views(before));
            }
            lemma_filtered_push(
                views(before),
                views(chosen@),
                views(keys@).take(i as int),
                key@,
                keep,
                |k: Seq<char>| key_selected(k, prefix@, start_key@, end_key@),
            );
            assert forall|k: Seq<char>| #[trigger]
                views(chosen@).contains(k) implies (t.contains(k) && key_selected(
                    k,
                    prefix@,
                    start_key@,
                    end_key@,
                )) by {}
            assert forall|k: Seq<char>|
                (t.contains(k) && key_selected(k, prefix@, start_key@, end_key@)) implies #[trigger] views(chosen@).contains(k) by {}
        }
        i = i + 1;
    }
    assert(views(keys@).take(keys@.len() as int) =~= views(keys@));
    let r = sorted_distinct(&chosen);
    Ok(r)
}

proof fn lemma_filtered_push(
    chosen0: Seq<Seq<char>>,
    chosen1: Seq<Seq<char>>,
    taken0: Seq<Seq<char>>,
    x: Seq<char>,
    keep: bool,
    sel: spec_fn(Seq<char>) -> bool,
)
    requires
        forall|k: Seq<char>| #[trigger] chosen0.contains(k) <==> (taken0.contains(k) && sel(k)),
        keep == sel(x),
        chosen1 == (if keep {
            chosen0.push(x)
        } else {
            chosen0
        }),
    ensures
        forall|k: Seq<char>| #[trigger]
            chosen1.contains(k) <==> (taken0.push(x).contains(k) && sel(k)),
{
    let t = taken0.push(x);
    assert forall|k: Seq<char>| #[trigger] chosen1.contains(k) <==> (t.contains(k) && sel(k)) by {
        if chosen1.contains(k) {
            let j = choose|j: int| 0 <= j < chosen1.len() && chosen1[j] == k;
            if j < chosen0.len() {
                assert(chosen0[j] == k);
                assert(chosen0.contains(k));
                let m = choose|m: int| 0 <= m < taken0.len() && taken0[m] == k;
                assert(t[m] == k);
            } else {
                assert(k == x);
                assert(t[taken0.len() as int] == x);
            }
        }
        if t.contains(k) && sel(k) {
            let j = choose|j: int| 0 <= j < t.len() && t[j] == k;
            if j < taken0.len() {
                assert(taken0[j] == k);
                assert(taken0.contains(k));
                assert(chosen0.contains(k));
                let m = choose|m: int| 0 <= m < chosen0.len() && chosen0[m] == k;
                assert(chosen1[m] == k);
            } else {
                assert(k == x);
                assert(chosen1[chosen1.len() - 1] == x);
            }
        }
    }
}

/// The distinct strings of `keys`, in `str` order.
pub fn sorted_distinct(keys: &Vec<String>) -> (r: Vec<String>)
    ensures
        strictly_ordered(views(r@)),
        forall|k: Seq<char>| #[trigger] views(r@).contains(k) <==> views(keys@).contains(k),
{
    let mut set: StrMap<()> = StrMap::new();
    let mut i: usize = 0;
    while i < keys.len()
        invariant
            i <= keys@.len(),
            forall|k: Seq<char>| #[trigger]
                has_key(set@, k) <==> views(keys@).take(i as int).contains(k),
        decreases keys@.len() - i,
    {
        let key = owned(keys[i].as_str());
        let ghost kv = key@;
        let ghost before = set@;
        set.insert(key, ());
        proof {
            let t = views(keys@).take(i + 1);
            assert(t =~= views(keys@).take(i as int).push(kv));
            assert forall|k: Seq<char>| #[trigger] has_key(set@, k) <==> t.contains(k) by {
                assert(lookup(set@, k) == if k == kv {
                    Some(())
                } else {
                    lookup(before, k)
                });
                if t.contains(k) && k != kv {
                    let j = choose|j: int| 0 <= j < t.len() && t[j] == k;
                    assert(views(keys@).take(i as int)[j] == k);
                }
                if views(keys@).take(i as int).contains(k) {
                    let j = choose|j: int| 0 <= j < i && views(keys@).take(i as int)[j] == k;
                    assert(t[j] == k);
                }
                if k == kv {
                    assert(t[i as int] == k);
                }
            }
        }
        i = i + 1;
    }
    assert(views(keys@).take(keys@.len() as int) =~= views(keys@));
    let n = set.len();
    let mut out: Vec<String> = Vec::new();
    let mut j: usize = 0;
    while j < n
        invariant
            j <= n,
            n == set@.len(),
            keys_sorted(set@),
            views(out@) == set@.take(j as int).map_values(|e: (Seq<char>, ())| e.0),
        decreases n - j,
    {
        let ghost before = out@;
        out.push(owned(set.key_at(j)));
        assert(views(out@) =~= views(before).push(set@[j as int].0));
        assert(set@.take(j + 1).map_values(|e: (Seq<char>, ())| e.0) =~= set@.take(
            j as int,
        ).map_values(|e: (Seq<char>, ())| e.0).push(set@[j as int].0));
        j = j + 1;
    }
    assert(set@.take(n as int) =~= set@);
    proof {
        let o = views(out@);
        assert forall|a: int, b: int| 0 <= a < b < o.len() implies seq_lt(
            #[trigger] o[a],
            #[trigger] o[b],
        ) by {
            assert(o[a] == set@[a].0);
            assert(o[b] == set@[b].0);
        }
        assert forall|k: Seq<char>| #[trigger] o.contains(k) <==> has_key(set@, k) by {
            if o.contains(k) {
                let a = choose|a: int| 0 <= a < o.len() && o[a] == k;
                assert(set@[a].0 == k);
            }
            if has_key(set@, k) {
                let a = choose|a: int| 0 <= a < set@.len() && (#[trigger] set@[a]).0 == k;
                assert(o[a] == k);
            }
        }
    }
    out
}

/// First and last block, first and last event time an object covers.
pub type ObjectCoverage = (Option<u64>, Option<u64>, Option<i64>, Option<i64>);

/// A `u8` numeral, as `str::parse::<u8>` reads it.
pub open spec fn u8_named(s: Seq<char>) -> Option<u8> {
    match crate::text::unsigned_numeral(s) {
        Some(n) => if n <= 255 {
            Some(n as u8)
        } else {
            None
        },
        None => None,
    }
}

/// What an object key says of the blocks and times the object covers: the date (and
/// hour) of its path for market data, the date and block-height name for node data.
pub open spec fn coverage_of(dataset: DatasetKind, key: Seq<char>) -> Result<ObjectCoverage, HistoricalError> {
    let parts = pieces(key, '/');
    match dataset {
        DatasetKind::L2Snapshots => if parts.len() < 3 {
            Err(HistoricalError::InvalidRange)
        } else {
            match u8_named(parts[2]) {
                None => Err(HistoricalError::InvalidRange),
                Some(h) => match event_time_of(parts[1], Some(h)) {
                    Ok(t) => Ok((None, None, Some(t), Some(t))),
                    Err(e) => Err(e),
                },
            }
        },
        DatasetKind::AssetContexts => {
            let file = parts.last();
            if !ends_with(file, ".csv.lz4"@) {
                Err(HistoricalError::InvalidRange)
            } else {
                match event_time_of(file.subrange(0, file.len() - 8), None) {
                    Ok(t) => Ok((None, None, Some(t), Some(t))),
                    Err(e) => Err(e),
                }
            }
        },
        _ => if parts.len() < 3 {
            Err(HistoricalError::InvalidRange)
        } else {
            match event_time_of(parts[1], None) {
                Ok(t) => Ok((block_named(parts[2]), block_named(parts[2]), Some(t), Some(t))),
                Err(e) => Err(e),
            }
        },
    }
}

/// The coverage an object key names.
pub fn coverage_fields(dataset: DatasetKind, key: &str) -> (r: Result<ObjectCoverage, HistoricalError>)
    ensures
        r == coverage_of(dataset, key@),
{
    let kc = chars_of(key);
    let parts = split_chars(&kc, '/');
    assert(parts.deep_view() == pieces(key@, '/'));
    match dataset {
        DatasetKind::L2Snapshots => {
            if parts.len() < 3 {
                return Err(HistoricalError::InvalidRange);
            }
            let date = crate::public_ws::string_from(&parts[1]);
            assert(parts[1]@ == pieces(key@, '/')[1]);
            assert(parts[2]@ == pieces(key@, '/')[2]);
            let hour = match crate::text::parse_unsigned(&parts[2]) {
                Some(n) => {
                    if n > 255 {
                        return Err(HistoricalError::InvalidRange);
                    }
                    n as u8
                },
                None => {
                    return Err(HistoricalError::InvalidRange);
                },
            };
            let t = coverage_event_time(date.as_str(), Some(hour))?;
            Ok((None, None, Some(t), Some(t)))
        },
        DatasetKind::AssetContexts => {
            let last = &parts[parts.len() - 1];
            assert(last@ == pieces(key@, '/').last());
            let file = crate::public_ws::string_from(last);
            if !crate::text::str_ends_with(file.as_str(), ".csv.lz4") {
                return Err(HistoricalError::InvalidRange);
            }
            proof {
                reveal_strlit(".csv.lz4");
            }
            let mut stem: Vec<char> = Vec::new();
            let n = last.len() - 8;
            let mut i: usize = 0;
            while i < n
                invariant
                    i <= n,
                    n + 8 == last@.len(),
                    stem@ == last@.subrange(0, i as int),
                decreases n - i,
            {
                stem.push(last[i]);
                i = i + 1;
            }
            let date = crate::public_ws::string_from(&stem);
            let t = coverage_event_time(date.as_str(), None)?;
            Ok((None, None, Some(t), Some(t)))
        },
        _ => {
            if parts.len() < 3 {
                return Err(HistoricalError::InvalidRange);
            }
            assert(parts[1]@ == pieces(key@, '/')[1]);
            assert(parts[2]@ == pieces(key@, '/')[2]);
            let date = crate::public_ws::string_from(&parts[1]);
            let name = crate::public_ws::string_from(&parts[2]);
            let t = coverage_event_time(date.as_str(), None)?;
            let block = coverage_block(name.as_str());
            Ok((block, block, Some(t), Some(t)))
        },
    }
}

/// Whether a manifest describes an object that was there or one that was missing.
#[derive(Debug, Clone, Copy, PartialEq, Eq, Structural)]
pub enum HistoricalGapStatus {
    Present,
    MissingObject,
}

/// What an import recorded of one requested object.
#[derive(Debug)]
pub struct ObjectManifest {
    pub bucket: String,
    pub key: String,
    pub etag: Option<String>,
    pub content_hash: Option<[u8; 32]>,
    pub dataset_id: String,
    pub dataset_version: String,
    pub byte_count: u64,
    pub first_block: Option<u64>,
    pub last_block: Option<u64>,
    pub first_event: Option<i64>,
    pub last_event: Option<i64>,
    pub parser_build: String,
    pub imported_at: i64,
    pub status: HistoricalGapStatus,
    /// Bytes billed to the requester, for an object that was there.
    pub requester_pays_bytes: Option<u64>,
}

pub struct ManifestModel {
    pub bucket: Seq<char>,
    pub key: Seq<char>,
    pub etag: Option<Seq<char>>,
    pub content_hash: Option<Seq<u8>>,
    pub dataset_id: Seq<char>,
    pub dataset_version: Seq<char>,
    pub byte_count: u64,
    pub coverage: ObjectCoverage,
    pub parser_build: Seq<char>,
    pub imported_at: i64,
    pub status: HistoricalGapStatus,
    pub requester_pays_bytes: Option<u64>,
}

impl View for ObjectManifest {
    type V = ManifestModel;

    open spec fn view(&self) -> ManifestModel {
        ManifestModel {
            bucket: self.bucket@,
            key: self.key@,
            etag: match self.etag {
                Some(e) => Some(e@),
                None => None,
            },
            content_hash: match self.content_hash {
                Some(h) => Some(h@),
                None => None,
            },
            dataset_id: self.dataset_id@,
            dataset_version: self.dataset_version@,
            byte_count: self.byte_count,
            coverage: (self.first_block, self.last_block, self.first_event, self.last_event),
            parser_build: self.parser_build@,
            imported_at: self.imported_at,
            status: self.status,
            requester_pays_bytes: self.requester_pays_bytes,
        }
    }
}

/// The manifest of a requested object that the bucket did not hold.
pub open spec fn gap_manifest_of(
    dataset: DatasetKind,
    bucket: Seq<char>,
    key: Seq<char>,
    imported_at: i64,
    coverage: ObjectCoverage,
) -> ManifestModel {
    ManifestModel {
        bucket,
        key,
        etag: None,
        content_hash: None,
        dataset_id: kind_identifier(dataset),
        dataset_version: DATASET_VERSION@,
        byte_count: 0,
        coverage,
        parser_build: PARSER_BUILD@,
        imported_at,
        status: HistoricalGapStatus::MissingObject,
        requester_pays_bytes: None,
    }
}

/// The manifest of an archived object.
pub open spec fn present_manifest_of(
    dataset: DatasetKind,
    bucket: Seq<char>,
    key: Seq<char>,
    imported_at: i64,
    etag: Seq<char>,
    hash: Seq<u8>,
    byte_count: u64,
    coverage: ObjectCoverage,
) -> ManifestModel {
    ManifestModel {
        bucket,
        key,
        etag: Some(etag),
        content_hash: Some(hash),
        dataset_id: kind_identifier(dataset),
        dataset_version: DATASET_VERSION@,
        byte_count,
        coverage,
        parser_build: PARSER_BUILD@,
        imported_at,
        status: HistoricalGapStatus::Present,
        requester_pays_bytes: Some(byte_count),
    }
}

fn manifest(
    dataset: DatasetKind,
    bucket: &str,
    key: &str,
    imported_at: i64,
    present: Option<(&str, [u8; 32], u64)>,
) -> (r: Result<ObjectManifest, HistoricalError>)
    ensures
        match coverage_fields_model(dataset, key@) {
            Err(e) => r == Err::<ObjectManifest, HistoricalError>(e),
            Ok(c) => r matches Ok(m) && m@ == match present {
                None => gap_manifest_of(dataset, bucket@, key@, imported_at, c),
                Some((etag, hash, n)) => present_manifest_of(
                    dataset,
                    bucket@,
                    key@,
                    imported_at,
                    etag@,
                    hash@,
                    n,
                    c,
                ),
            },
        },
{
    let (first_block, last_block, first_event, last_event) = coverage_fields(dataset, key)?;
    let (etag, content_hash, byte_count, status, pays) = match present {
        None => (None, None, 0u64, HistoricalGapStatus::MissingObject, None),
        Some((e, h, n)) => (Some(owned(e)), Some(h), n, HistoricalGapStatus::Present, Some(n)),
    };
    Ok(ObjectManifest {
        bucket: owned(bucket),
        key: owned(key),
        etag,
        content_hash,
        dataset_id: owned(dataset.identifier()),
        dataset_version: owned(DATASET_VERSION),
        byte_count,
        first_block,
        last_block,
        first_event,
        last_event,
        parser_build: owned(PARSER_BUILD),
        imported_at,
        status,
        requester_pays_bytes: pays,
    })
}

pub open spec fn coverage_fields_model(dataset: DatasetKind, key: Seq<char>) -> Result<ObjectCoverage, HistoricalError> {
    coverage_of(dataset, key)
}

/// A request to import named objects of one dataset.
#[derive(Debug)]
pub struct BackfillRequest {
    pub dataset: DatasetKind,
    pub format: DatasetFormat,
    pub bucket: String,
    pub keys: Vec<String>,
    pub request_payer: RequestPayer,
    pub imported_at: i64,
}

/// What an import did.
#[derive(Debug)]
pub struct BackfillReport {
    pub imported: usize,
    pub duplicates: usize,
    pub gaps: usize,
    pub last_key: Option<String>,
    pub parser_build: String,
    pub coverage_start_key: Option<String>,
    pub coverage_end_key: Option<String>,
    pub manifests: Vec<ObjectManifest>,
}

pub open spec fn sat_inc(n: u64) -> u64 {
    if n == u64::MAX {
        n
    } else {
        (n + 1) as u64
    }
}

pub open spec fn sat_inc_usize(n: usize) -> usize {
    if n == usize::MAX {
        n
    } else {
        (n + 1) as usize
    }
}

/// Why an import request is refused before any object is read.
pub open spec fn request_error(r: &BackfillRequest) -> Option<HistoricalError> {
    if kind_format(r.dataset) != r.format {
        Some(HistoricalError::FormatMismatch)
    } else if !bucket_accepted(r.dataset, r.bucket@) {
        Some(HistoricalError::UnknownBucket)
    } else if r.keys@.len() == 0 {
        Some(HistoricalError::InvalidRange)
    } else {
        None
    }
}

/// The cursor an import stores after handling `key`.
pub open spec fn run_cursor(
    dataset: DatasetKind,
    key: Seq<char>,
    start: Seq<char>,
    end: Seq<char>,
    version: u64,
    imported_at: i64,
) -> CursorModel {
    CursorModel {
        dataset_id: kind_identifier(dataset),
        last_key: key,
        parser_build: PARSER_BUILD@,
        coverage_start_key: start,
        coverage_end_key: end,
        cursor_version: if version == 0 {
            1
        } else {
            version
        },
        updated_at: imported_at,
    }
}

/// An import in progress: the requested keys in order, and what has been done with those
/// before `next`.
///
/// For each key the caller reads the object from the bucket, then either records it as
/// missing, or checks it, archives its exact bytes, and records it as archived; the cursor
/// in the progress store advances only in those last steps.
#[derive(Debug)]
pub struct BackfillRun {
    dataset: DatasetKind,
    bucket: String,
    payer: RequestPayer,
    imported_at: i64,
    ordered: Vec<String>,
    start_key: String,
    end_key: String,
    cursor_version: u64,
    next: usize,
    imported: usize,
    duplicates: usize,
    gaps: usize,
    last_key: Option<String>,
    manifests: Vec<ObjectManifest>,
}

impl BackfillRun {
    #[verifier::type_invariant]
    closed spec fn inv(self) -> bool {
        &&& self.ordered@.len() >= 1
        &&& self.next <= self.ordered@.len()
        &&& strictly_ordered(views(self.ordered@))
        &&& self.start_key@ == self.ordered@[0]@
        &&& self.end_key@ == self.ordered@[self.ordered@.len() - 1]@
    }

    pub closed spec fn spec_dataset(&self) -> DatasetKind {
        self.dataset
    }

    pub closed spec fn spec_bucket(&self) -> Seq<char> {
        self.bucket@
    }

    pub closed spec fn spec_imported_at(&self) -> i64 {
        self.imported_at
    }

    pub closed spec fn spec_payer(&self) -> RequestPayer {
        self.payer
    }

    /// The requested keys, each once, in `str` order.
    pub closed spec fn spec_ordered(&self) -> Seq<Seq<char>> {
        views(self.ordered@)
    }

    /// How many of them have been handled.
    pub closed spec fn spec_next(&self) -> nat {
        self.next as nat
    }

    pub closed spec fn spec_version(&self) -> u64 {
        self.cursor_version
    }

    pub closed spec fn spec_counts(&self) -> (usize, usize, usize) {
        (self.imported, self.duplicates, self.gaps)
    }

    pub closed spec fn spec_last_key(&self) -> Option<Seq<char>> {
        match self.last_key {
            Some(k) => Some(k@),
            None => None,
        }
    }

    pub closed spec fn spec_manifests(&self) -> Seq<ManifestModel> {
        self.manifests@.map_values(|m: ObjectManifest| m@)
    }

    /// The key to be handled next.
    pub open spec fn spec_current(&self) -> Seq<char> {
        self.spec_ordered()[self.spec_next() as int]
    }

    pub open spec fn spec_start(&self) -> Seq<char> {
        self.spec_ordered()[0]
    }

    pub open spec fn spec_end(&self) -> Seq<char> {
        self.spec_ordered().last()
    }

    /// Everything but the version, the counts, the last key and the manifests is as in
    /// `other`, and one more key has been handled.
    pub open spec fn advanced_from(&self, other: &Self) -> bool {
        &&& self.spec_dataset() == other.spec_dataset()
        &&& self.spec_bucket() == other.spec_bucket()
        &&& self.spec_imported_at() == other.spec_imported_at()
        &&& self.spec_ordered() == other.spec_ordered()
        &&& self.spec_next() == other.spec_next() + 1
        &&& self.spec_version() == sat_inc(other.spec_version())
        &&& self.spec_last_key() == Some(other.spec_current())
    }

    /// Starts an import: the request must name a dataset in its own format, a bucket of
    /// that dataset and at least one key; the cursor version goes on from the stored one.
    pub fn start(request: &BackfillRequest, progress: &HistoricalProgressStore) -> (r: Result<
        BackfillRun,
        HistoricalError,
    >)
        ensures
            match request_error(request) {
                Some(e) => r == Err::<BackfillRun, HistoricalError>(e),
                None => r matches Ok(run) && {
                    &&& run.spec_dataset() == request.dataset
                    &&& run.spec_bucket() == request.bucket@
                    &&& run.spec_imported_at() == request.imported_at
                    &&& run.spec_payer() == request.request_payer
                    &&& strictly_ordered(run.spec_ordered())
                    &&& (forall|k: Seq<char>| #[trigger] run.spec_ordered().contains(k)
                        <==> views(request.keys@).contains(k))
                    &&& run.spec_next() == 0
                    &&& run.spec_version() == match progress.cursor_of(
                        kind_identifier(request.dataset),
                    ) {
                        Some(c) => c.cursor_version,
                        None => 0,
                    }
                    &&& run.spec_counts() == (0usize, 0usize, 0usize)
                    &&& run.spec_last_key() is None
                    &&& run.spec_manifests() == Seq::<ManifestModel>::empty()
                },
            },
    {
        request.dataset.validate_format(request.format)?;
        request.dataset.accept_bucket(request.bucket.as_str())?;
        if request.keys.len() == 0 {
            return Err(HistoricalError::InvalidRange);
        }
        let ordered = sorted_distinct(&request.keys);
        assert(views(request.keys@).contains(request.keys@[0]@)) by {
            assert(views(request.keys@)[0] == request.keys@[0]@);
        }
        assert(ordered@.len() >= 1) by {
            if ordered@.len() == 0 {
                assert(!views(ordered@).contains(request.keys@[0]@));
            }
        }
        let start_key = owned(ordered[0].as_str());
        let end_key = owned(ordered[ordered.len() - 1].as_str());
        let version = match progress.load_cursor(request.dataset.identifier()) {
            Some(c) => c.cursor_version,
            None => 0,
        };
        let run = BackfillRun {
            dataset: request.dataset,
            bucket: owned(request.bucket.as_str()),
            payer: request.request_payer,
            imported_at: request.imported_at,
            ordered,
            start_key,
            end_key,
            cursor_version: version,
            next: 0,
            imported: 0,
            duplicates: 0,
            gaps: 0,
            last_key: None,
            manifests: Vec::new(),
        };
        assert(run.spec_manifests() =~= Seq::<ManifestModel>::empty());
        Ok(run)
    }

    /// The key to read next, or none when every key has been handled.
    pub fn current_key(&self) -> (r: Option<&str>)
        ensures
            match r {
                Some(k) => self.spec_next() < self.spec_ordered().len() && k@ == self.spec_current(),
                None => self.spec_next() >= self.spec_ordered().len(),
            },
    {
        proof {
            use_type_invariant(self);
        }
        if self.next < self.ordered.len() {
            Some(self.ordered[self.next].as_str())
        } else {
            None
        }
    }

    pub fn bucket(&self) -> (r: &str)
        ensures
            r@ == self.spec_bucket(),
    {
        self.bucket.as_str()
    }

    pub fn request_payer(&self) -> (r: RequestPayer)
        ensures
            r == self.spec_payer(),
    {
        self.payer
    }

    pub fn imported_at(&self) -> (r: i64)
        ensures
            r == self.spec_imported_at(),
    {
        self.imported_at
    }

    /// Stores the cursor after `key` at version `version` (at least one).
    fn store_cursor(&self, progress: &mut HistoricalProgressStore, key: &str, version: u64)
        ensures
            final(progress).cursor_of(kind_identifier(self.spec_dataset())) == Some(
                run_cursor(
                    self.spec_dataset(),
                    key@,
                    self.spec_start(),
                    self.spec_end(),
                    version,
                    self.spec_imported_at(),
                ),
            ),
            forall|i: Seq<char>| i != kind_identifier(self.spec_dataset())
                ==> #[trigger] final(progress).cursor_of(i) == old(progress).cursor_of(i),
            forall|i: Seq<char>, k: Seq<char>| #[trigger]
                final(progress).object_of(i, k) == old(progress).object_of(i, k),
            forall|i: Seq<char>, k: Seq<char>| #[trigger]
                final(progress).gap_of(i, k) == old(progress).gap_of(i, k),
    {
        proof {
            use_type_invariant(self);
        }
        let cursor = BackfillCursor {
            dataset_id: owned(self.dataset.identifier()),
            last_key: owned(key),
            parser_build: owned(PARSER_BUILD),
            coverage_start_key: owned(self.start_key.as_str()),
            coverage_end_key: owned(self.end_key.as_str()),
            cursor_version: if version == 0 {
                1
            } else {
                version
            },
            updated_at: self.imported_at,
        };
        progress.persist_cursor(cursor);
    }
}

/// The plan recorded for an archived object of the current key.
pub open spec fn archived_plan(run: &BackfillRun, object: &ObjectBody, archive_ref: Seq<char>) -> ObjectPlanModel {
    ObjectPlanModel {
        dataset_id: kind_identifier(run.spec_dataset()),
        bucket: run.spec_bucket(),
        key: run.spec_current(),
        etag: object.etag@,
        content_hash: blake3_digest(object.bytes@),
        archive_ref,
        byte_count: object.bytes@.len() as u64,
        parser_build: PARSER_BUILD@,
        archived_at: run.spec_imported_at(),
    }
}

/// The object under `key` of dataset `id` is recorded (a plan recorded before stays),
/// and no other object or gap changes.
pub open spec fn object_recorded(
    old_progress: &HistoricalProgressStore,
    progress: &HistoricalProgressStore,
    id: Seq<char>,
    key: Seq<char>,
    plan: ObjectPlanModel,
) -> bool {
    &&& progress.object_of(id, key) == match old_progress.object_of(id, key) {
        Some(e) => Some(e),
        None => Some(plan),
    }
    &&& forall|i: Seq<char>, k: Seq<char>|
        !(i == id && k == key) ==> #[trigger] progress.object_of(i, k) == old_progress.object_of(i, k)
    &&& forall|i: Seq<char>, k: Seq<char>| #[trigger]
        progress.gap_of(i, k) == old_progress.gap_of(i, k)
}

impl BackfillRun {
    /// The effects on the progress store of recording a gap for the current key.
    pub open spec fn gap_recorded(&self, old_progress: &HistoricalProgressStore, progress: &HistoricalProgressStore) -> bool {
        let id = kind_identifier(self.spec_dataset());
        let key = self.spec_current();
        &&& progress.gap_of(id, key) == match old_progress.gap_of(id, key) {
            Some(g) => Some(g),
            None => Some(
                GapModel {
                    dataset_id: id,
                    bucket: self.spec_bucket(),
                    key,
                    recorded_at: self.spec_imported_at(),
                },
            ),
        }
        &&& forall|i: Seq<char>, k: Seq<char>|
            !(i == id && k == key) ==> #[trigger] progress.gap_of(i, k) == old_progress.gap_of(i, k)
        &&& forall|i: Seq<char>, k: Seq<char>| #[trigger]
            progress.object_of(i, k) == old_progress.object_of(i, k)
    }

    /// Records that the bucket does not hold the current key: a gap in the progress store,
    /// a missing-object manifest, and the cursor moved past the key.
    pub fn record_missing(&mut self, progress: &mut HistoricalProgressStore) -> (r: Result<(), HistoricalError>)
        requires
            old(self).spec_next() < old(self).spec_ordered().len(),
        ensures
            old(self).gap_recorded(&*old(progress), &*final(progress)),
            match coverage_of(old(self).spec_dataset(), old(self).spec_current()) {
                Err(e) => r == Err::<(), HistoricalError>(e) && final(progress).cursor_of(
                    kind_identifier(old(self).spec_dataset()),
                ) == old(progress).cursor_of(kind_identifier(old(self).spec_dataset())),
                Ok(c) => {
                    &&& r is Ok
                    &&& final(self).advanced_from(&*old(self))
                    &&& final(self).spec_manifests() == old(self).spec_manifests().push(
                        gap_manifest_of(
                            old(self).spec_dataset(),
                            old(self).spec_bucket(),
                            old(self).spec_current(),
                            old(self).spec_imported_at(),
                            c,
                        ),
                    )
                    &&& final(self).spec_counts() == (
                        old(self).spec_counts().0,
                        old(self).spec_counts().1,
                        if old(progress).gap_of(
                            kind_identifier(old(self).spec_dataset()),
                            old(self).spec_current(),
                        ) is None {
                            sat_inc_usize(old(self).spec_counts().2)
                        } else {
                            old(self).spec_counts().2
                        },
                    )
                    &&& final(progress).cursor_of(kind_identifier(old(self).spec_dataset()))
                        == Some(
                        run_cursor(
                            old(self).spec_dataset(),
                            old(self).spec_current(),
                            old(self).spec_start(),
                            old(self).spec_end(),
                            sat_inc(old(self).spec_version()),
                            old(self).spec_imported_at(),
                        ),
                    )
                },
            },
    {
        proof {
            use_type_invariant(&*self);
        }
        let n = self.next;
        assert(views(self.ordered@).len() == self.ordered@.len());
        let len = self.ordered.len();
        assert(n < len);
        let key = owned(self.ordered[n].as_str());
        let gap = GapRecord {
            dataset_id: owned(self.dataset.identifier()),
            bucket: owned(self.bucket.as_str()),
            key: owned(key.as_str()),
            recorded_at: self.imported_at,
        };
        let disposition = progress.record_gap(gap);
        let m = manifest(self.dataset, self.bucket.as_str(), key.as_str(), self.imported_at, None)?;
        match disposition {
            ProgressRecordDisposition::New => {
                self.gaps = self.gaps.saturating_add(1);
            },
            ProgressRecordDisposition::IdenticalDuplicate => {},
        }
        let mut ms: Vec<ObjectManifest> = Vec::new();
        std::mem::swap(&mut ms, &mut self.manifests);
        let ghost before = ms@;
        ms.push(m);
        assert(ms@.map_values(|m: ObjectManifest| m@) =~= before.map_values(|m: ObjectManifest| m@).push(m@));
        self.manifests = ms;
        self.cursor_version = self.cursor_version.saturating_add(1);
        self.store_cursor(progress, key.as_str(), self.cursor_version);
        self.last_key = Some(key);
        self.next = n + 1;
        Ok(())
    }

    /// Checks an object read for the current key before it is archived: its entity tag
    /// must be that of its bytes, and an object recorded before under the key must have
    /// the same content hash and entity tag. Gives the content hash.
    pub fn check_object(&self, progress: &HistoricalProgressStore, object: &ObjectBody) -> (r: Result<[u8; 32], HistoricalError>)
        requires
            self.spec_next() < self.spec_ordered().len(),
        ensures
            object.etag@ != etag_of(object.bytes@) ==> r == Err::<[u8; 32], HistoricalError>(
                HistoricalError::HashMismatch,
            ),
            object.etag@ == etag_of(object.bytes@) ==> match progress.object_of(
                kind_identifier(self.spec_dataset()),
                self.spec_current(),
            ) {
                Some(e) => if e.content_hash != blake3_digest(object.bytes@) || e.etag
                    != object.etag@ {
                    r == Err::<[u8; 32], HistoricalError>(HistoricalError::Conflict)
                } else {
                    r matches Ok(h) && h@ == blake3_digest(object.bytes@)
                },
                None => r matches Ok(h) && h@ == blake3_digest(object.bytes@),
            },
    {
        proof {
            use_type_invariant(self);
        }
        let hash = content_hash(object.bytes.as_slice());
        let expected = object_etag(object.bytes.as_slice());
        if !crate::text::same_text(object.etag.as_str(), expected.as_str()) {
            return Err(HistoricalError::HashMismatch);
        }
        match progress.load_object(self.dataset.identifier(), self.ordered[self.next].as_str()) {
            Some(existing) => {
                if !same_hash(&existing.content_hash, &hash) || !crate::text::same_text(
                    existing.etag.as_str(),
                    object.etag.as_str(),
                ) {
                    proof {
                        if existing@.content_hash == hash@ {
                            assert(existing.content_hash =~= hash);
                        }
                    }
                    return Err(HistoricalError::Conflict);
                }
                assert(existing.content_hash@ == hash@);
            },
            None => {},
        }
        Ok(hash)
    }

    /// Records that the current key's object was archived under `archive_ref`: the
    /// object in the progress store, a present-object manifest, and the cursor moved past
    /// the key.
    pub fn record_archived(
        &mut self,
        progress: &mut HistoricalProgressStore,
        object: &ObjectBody,
        archive_ref: String,
    ) -> (r: Result<(), HistoricalError>)
        requires
            old(self).spec_next() < old(self).spec_ordered().len(),
        ensures
            ({
                let id = kind_identifier(old(self).spec_dataset());
                let key = old(self).spec_current();
                let plan = archived_plan(&*old(self), object, archive_ref@);
                let conflict = match old(progress).object_of(id, key) {
                    Some(e) => e.content_hash != plan.content_hash || e.etag != plan.etag,
                    None => false,
                };
                if conflict {
                    r == Err::<(), HistoricalError>(HistoricalError::Conflict)
                        && final(progress).entries() == old(progress).entries()
                } else {
                    &&& object_recorded(&*old(progress), &*final(progress), id, key, plan)
                    &&& match coverage_of(old(self).spec_dataset(), key) {
                        Err(e) => r == Err::<(), HistoricalError>(e) && final(progress).cursor_of(id)
                            == old(progress).cursor_of(id),
                        Ok(c) => {
                            &&& r is Ok
                            &&& final(self).advanced_from(&*old(self))
                            &&& final(self).spec_manifests() == old(self).spec_manifests().push(
                                present_manifest_of(
                                    old(self).spec_dataset(),
                                    old(self).spec_bucket(),
                                    key,
                                    old(self).spec_imported_at(),
                                    object.etag@,
                                    plan.content_hash,
                                    plan.byte_count,
                                    c,
                                ),
                            )
                            &&& final(self).spec_counts() == if old(progress).object_of(id, key) is None {
                                (
                                    sat_inc_usize(old(self).spec_counts().0),
                                    old(self).spec_counts().1,
                                    old(self).spec_counts().2,
                                )
                            } else {
                                (
                                    old(self).spec_counts().0,
                                    sat_inc_usize(old(self).spec_counts().1),
                                    old(self).spec_counts().2,
                                )
                            }
                            &&& final(progress).cursor_of(id) == Some(
                                run_cursor(
                                    old(self).spec_dataset(),
                                    key,
                                    old(self).spec_start(),
                                    old(self).spec_end(),
                                    sat_inc(old(self).spec_version()),
                                    old(self).spec_imported_at(),
                                ),
                            )
                        },
                    }
                }
            }),
    {
        proof {
            use_type_invariant(&*self);
        }
        let n = self.next;
        assert(views(self.ordered@).len() == self.ordered@.len());
        let len = self.ordered.len();
        assert(n < len);
        let key = owned(self.ordered[n].as_str());
        let hash = content_hash(object.bytes.as_slice());
        let byte_count = object.bytes.len() as u64;
        let plan = ObjectPlan {
            dataset_id: owned(self.dataset.identifier()),
            bucket: owned(self.bucket.as_str()),
            key: owned(key.as_str()),
            etag: owned(object.etag.as_str()),
            content_hash: hash,
            archive_ref,
            byte_count,
            parser_build: owned(PARSER_BUILD),
            archived_at: self.imported_at,
        };
        let disposition = match progress.record_object(plan) {
            Ok(d) => d,
            Err(ProgressError::ConflictingObject) => {
                return Err(HistoricalError::Conflict);
            },
        };
        let m = manifest(
            self.dataset,
            self.bucket.as_str(),
            key.as_str(),
            self.imported_at,
            Some((object.etag.as_str(), hash, byte_count)),
        )?;
        match disposition {
            ProgressRecordDisposition::New => {
                self.imported = self.imported.saturating_add(1);
            },
            ProgressRecordDisposition::IdenticalDuplicate => {
                self.duplicates = self.duplicates.saturating_add(1);
            },
        }
        let mut ms: Vec<ObjectManifest> = Vec::new();
        std::mem::swap(&mut ms, &mut self.manifests);
        let ghost before = ms@;
        ms.push(m);
        assert(ms@.map_values(|m: ObjectManifest| m@) =~= before.map_values(|m: ObjectManifest| m@).push(m@));
        self.manifests = ms;
        self.cursor_version = self.cursor_version.saturating_add(1);
        self.store_cursor(progress, key.as_str(), self.cursor_version);
        self.last_key = Some(key);
        self.next = n + 1;
        Ok(())
    }
}

impl BackfillRun {
    /// The report of the import: its counts, the last key handled, the range of keys it
    /// covers and a manifest for each key handled.
    pub fn finish(self) -> (r: BackfillReport)
        ensures
            (r.imported, r.duplicates, r.gaps) == self.spec_counts(),
            match r.last_key {
                Some(k) => self.spec_last_key() == Some(k@),
                None => self.spec_last_key() is None,
            },
            r.parser_build@ == PARSER_BUILD@,
            r.coverage_start_key matches Some(k) && k@ == self.spec_start(),
            r.coverage_end_key matches Some(k) && k@ == self.spec_end(),
            r.manifests@.map_values(|m: ObjectManifest| m@) == self.spec_manifests(),
    {
        proof {
            use_type_invariant(&self);
        }
        BackfillReport {
            imported: self.imported,
            duplicates: self.duplicates,
            gaps: self.gaps,
            last_key: self.last_key,
            parser_build: owned(PARSER_BUILD),
            coverage_start_key: Some(self.start_key),
            coverage_end_key: Some(self.end_key),
            manifests: self.manifests,
        }
    }
}

} // verus!
