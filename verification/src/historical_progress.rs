//! Progress of historical backfills: per dataset, the archived objects, the recorded
//! gaps and the cursor, kept in memory and written to a checkpoint file.

use vstd::prelude::*;

use crate::digest::{digest_from_vec, hex_decode, hex_decoded, hex_encode, hex_lower};
use crate::historical_manifest::HistoricalError;
use crate::strmap::{has_key, keys_of, keys_sorted, last_value, lookup, StrMap};
use crate::text::{owned, same_text};

verus! {

/// An archived object, as the progress store records it.
#[derive(Debug)]
pub struct ObjectPlan {
    pub dataset_id: String,
    pub bucket: String,
    pub key: String,
    pub etag: String,
    pub content_hash: [u8; 32],
    pub archive_ref: String,
    pub byte_count: u64,
    pub parser_build: String,
    pub archived_at: i64,
}

pub struct ObjectPlanModel {
    pub dataset_id: Seq<char>,
    pub bucket: Seq<char>,
    pub key: Seq<char>,
    pub etag: Seq<char>,
    pub content_hash: Seq<u8>,
    pub archive_ref: Seq<char>,
    pub byte_count: u64,
    pub parser_build: Seq<char>,
    pub archived_at: i64,
}

impl View for ObjectPlan {
    type V = ObjectPlanModel;

    open spec fn view(&self) -> ObjectPlanModel {
        ObjectPlanModel {
            dataset_id: self.dataset_id@,
            bucket: self.bucket@,
            key: self.key@,
            etag: self.etag@,
            content_hash: self.content_hash@,
            archive_ref: self.archive_ref@,
            byte_count: self.byte_count,
            parser_build: self.parser_build@,
            archived_at: self.archived_at,
        }
    }
}

/// A requested object that the bucket did not hold.
#[derive(Debug)]
pub struct GapRecord {
    pub dataset_id: String,
    pub bucket: String,
    pub key: String,
    pub recorded_at: i64,
}

pub struct GapModel {
    pub dataset_id: Seq<char>,
    pub bucket: Seq<char>,
    pub key: Seq<char>,
    pub recorded_at: i64,
}

impl View for GapRecord {
    type V = GapModel;

    open spec fn view(&self) -> GapModel {
        GapModel {
            dataset_id: self.dataset_id@,
            bucket: self.bucket@,
            key: self.key@,
            recorded_at: self.recorded_at,
        }
    }
}

impl GapRecord {
    pub fn copy(&self) -> (r: GapRecord)
        ensures
            r@ == self@,
    {
        GapRecord {
            dataset_id: owned(self.dataset_id.as_str()),
            bucket: owned(self.bucket.as_str()),
            key: owned(self.key.as_str()),
            recorded_at: self.recorded_at,
        }
    }
}

/// How far a dataset's backfill has come.
#[derive(Debug)]
pub struct BackfillCursor {
    pub dataset_id: String,
    pub last_key: String,
    pub parser_build: String,
    pub coverage_start_key: String,
    pub coverage_end_key: String,
    pub cursor_version: u64,
    pub updated_at: i64,
}

pub struct CursorModel {
    pub dataset_id: Seq<char>,
    pub last_key: Seq<char>,
    pub parser_build: Seq<char>,
    pub coverage_start_key: Seq<char>,
    pub coverage_end_key: Seq<char>,
    pub cursor_version: u64,
    pub updated_at: i64,
}

impl View for BackfillCursor {
    type V = CursorModel;

    open spec fn view(&self) -> CursorModel {
        CursorModel {
            dataset_id: self.dataset_id@,
            last_key: self.last_key@,
            parser_build: self.parser_build@,
            coverage_start_key: self.coverage_start_key@,
            coverage_end_key: self.coverage_end_key@,
            cursor_version: self.cursor_version,
            updated_at: self.updated_at,
        }
    }
}

impl BackfillCursor {
    /// Whether two cursors hold the same values.
    pub fn same_as(&self, other: &BackfillCursor) -> (r: bool)
        ensures
            r == (self@ == other@),
    {
        same_text(self.dataset_id.as_str(), other.dataset_id.as_str()) && same_text(
            self.last_key.as_str(),
            other.last_key.as_str(),
        ) && same_text(self.parser_build.as_str(), other.parser_build.as_str()) && same_text(
            self.coverage_start_key.as_str(),
            other.coverage_start_key.as_str(),
        ) && same_text(self.coverage_end_key.as_str(), other.coverage_end_key.as_str())
            && self.cursor_version == other.cursor_version && self.updated_at == other.updated_at
    }
}

/// What recording a fact did.
#[derive(Debug, Clone, Copy, PartialEq, Eq, Structural)]
pub enum ProgressRecordDisposition {
    New,
    IdenticalDuplicate,
}

/// Why the progress store refused a record.
#[derive(Debug, Clone, Copy, PartialEq, Eq, Structural)]
pub enum ProgressError {
    /// The object was recorded before with another content hash or entity tag.
    ConflictingObject,
}

/// The progress of one dataset.
#[derive(Debug)]
pub struct DatasetProgress {
    pub cursor: Option<BackfillCursor>,
    pub objects: StrMap<ObjectPlan>,
    pub gaps: StrMap<GapRecord>,
}

impl DatasetProgress {
    pub fn new() -> (r: Self)
        ensures
            r.cursor is None,
            r.objects@ == Seq::<(Seq<char>, ObjectPlan)>::empty(),
            r.gaps@ == Seq::<(Seq<char>, GapRecord)>::empty(),
    {
        DatasetProgress { cursor: None, objects: StrMap::new(), gaps: StrMap::new() }
    }
}

pub open spec fn cursor_model(c: Option<BackfillCursor>) -> Option<CursorModel> {
    match c {
        Some(c) => Some(c@),
        None => None,
    }
}

pub open spec fn plan_model(p: Option<ObjectPlan>) -> Option<ObjectPlanModel> {
    match p {
        Some(p) => Some(p@),
        None => None,
    }
}

pub open spec fn gap_model(g: Option<GapRecord>) -> Option<GapModel> {
    match g {
        Some(g) => Some(g@),
        None => None,
    }
}

/// The gap records of a map, in key order.
pub open spec fn gap_models(s: Seq<(Seq<char>, GapRecord)>) -> Seq<GapModel> {
    s.map_values(|e: (Seq<char>, GapRecord)| e.1@)
}

/// The cursor of dataset `id` in a map of dataset progress.
pub open spec fn st_cursor(s: Seq<(Seq<char>, DatasetProgress)>, id: Seq<char>) -> Option<CursorModel> {
    match lookup(s, id) {
        Some(d) => cursor_model(d.cursor),
        None => None,
    }
}

/// The object of dataset `id` under `key` in a map of dataset progress.
pub open spec fn st_object(s: Seq<(Seq<char>, DatasetProgress)>, id: Seq<char>, key: Seq<char>) -> Option<ObjectPlanModel> {
    match lookup(s, id) {
        Some(d) => plan_model(lookup(d.objects@, key)),
        None => None,
    }
}

/// The gap of dataset `id` under `key` in a map of dataset progress.
pub open spec fn st_gap(s: Seq<(Seq<char>, DatasetProgress)>, id: Seq<char>, key: Seq<char>) -> Option<GapModel> {
    match lookup(s, id) {
        Some(d) => gap_model(lookup(d.gaps@, key)),
        None => None,
    }
}

/// The progress of every dataset, by dataset identifier, with the checkpoint file it is
/// written to (none for a store kept in memory only).
#[derive(Debug)]
pub struct HistoricalProgressStore {
    path: Option<String>,
    datasets: StrMap<DatasetProgress>,
}

impl HistoricalProgressStore {
    #[verifier::type_invariant]
    closed spec fn inv(self) -> bool {
        progress_keyed(self.datasets@)
    }

    pub closed spec fn entries(&self) -> Seq<(Seq<char>, DatasetProgress)> {
        self.datasets@
    }

    pub closed spec fn spec_path(&self) -> Option<Seq<char>> {
        match self.path {
            Some(p) => Some(p@),
            None => None,
        }
    }

    /// The datasets that have progress.
    pub open spec fn dataset_ids(&self) -> Seq<Seq<char>> {
        keys_of(self.entries())
    }

    pub open spec fn has_dataset(&self, id: Seq<char>) -> bool {
        has_key(self.entries(), id)
    }

    /// The cursor of a dataset.
    pub open spec fn cursor_of(&self, id: Seq<char>) -> Option<CursorModel> {
        st_cursor(self.entries(), id)
    }

    /// The archived object of a dataset under `key`.
    pub open spec fn object_of(&self, id: Seq<char>, key: Seq<char>) -> Option<ObjectPlanModel> {
        st_object(self.entries(), id, key)
    }

    /// The gap of a dataset under `key`.
    pub open spec fn gap_of(&self, id: Seq<char>, key: Seq<char>) -> Option<GapModel> {
        st_gap(self.entries(), id, key)
    }

    /// The gaps of a dataset, in key order.
    pub open spec fn gaps_in(&self, id: Seq<char>) -> Seq<GapModel> {
        match lookup(self.entries(), id) {
            Some(d) => gap_models(d.gaps@),
            None => seq![],
        }
    }

    /// Everything but the objects of dataset `id` under `key` is as in `other`.
    pub open spec fn same_but_object(&self, other: &Self, id: Seq<char>, key: Seq<char>) -> bool {
        &&& forall|i: Seq<char>, k: Seq<char>|
            !(i == id && k == key) ==> #[trigger] self.object_of(i, k) == other.object_of(i, k)
        &&& forall|i: Seq<char>, k: Seq<char>| #[trigger]
            self.gap_of(i, k) == other.gap_of(i, k)
        &&& forall|i: Seq<char>| #[trigger] self.gaps_in(i) == other.gaps_in(i)
        &&& forall|i: Seq<char>| #[trigger] self.cursor_of(i) == other.cursor_of(i)
        &&& forall|i: Seq<char>| #[trigger]
            self.has_dataset(i) == (other.has_dataset(i) || i == id)
        &&& self.spec_path() == other.spec_path()
    }

    /// A store kept in memory only.
    pub fn memory() -> (r: Self)
        ensures
            r.entries() == Seq::<(Seq<char>, DatasetProgress)>::empty(),
            r.spec_path() is None,
    {
        HistoricalProgressStore { path: None, datasets: StrMap::new() }
    }

    /// A store written to `path`, starting from the progress read back from it.
    pub fn with_progress(path: String, datasets: StrMap<DatasetProgress>) -> (r: Self)
        requires
            progress_keyed(datasets@),
        ensures
            r.entries() == datasets@,
            r.spec_path() == Some(path@),
    {
        HistoricalProgressStore { path: Some(path), datasets }
    }

    /// The store written to `path`, starting from its checkpoint file when there is one.
    pub fn open(path: String, file: Option<&CheckpointFile>) -> (r: Result<Self, HistoricalError>)
        ensures
            match file {
                None => r matches Ok(st) && st.entries() == Seq::<(Seq<char>, DatasetProgress)>::empty()
                    && st.spec_path() == Some(path@),
                Some(f) => {
                    &&& file_ok(f@) ==> (r matches Ok(st) && holds_file(st.entries(), f@)
                        && st.spec_path() == Some(path@))
                    &&& !file_ok(f@) ==> r == Err::<Self, HistoricalError>(HistoricalError::Checkpoint)
                },
            },
    {
        match file {
            None => Ok(HistoricalProgressStore::with_progress(path, StrMap::new())),
            Some(f) => {
                let m = decode_checkpoint(f)?;
                Ok(HistoricalProgressStore::with_progress(path, m))
            },
        }
    }

    pub fn path(&self) -> (r: Option<&str>)
        ensures
            match r {
                Some(p) => self.spec_path() == Some(p@),
                None => self.spec_path() is None,
            },
    {
        match &self.path {
            Some(p) => Some(p.as_str()),
            None => None,
        }
    }

    /// The progress of every dataset.
    pub fn datasets(&self) -> (r: &StrMap<DatasetProgress>)
        ensures
            r@ == self.entries(),
            progress_keyed(self.entries()),
    {
        proof {
            use_type_invariant(self);
        }
        &self.datasets
    }

    /// The progress of dataset `id`, taken out of the store (empty if it had none).
    fn take_dataset(&mut self, id: &str) -> (r: DatasetProgress)
        ensures
            r.cursor == match lookup(old(self).entries(), id@) {
                Some(d) => d.cursor,
                None => None::<BackfillCursor>,
            },
            forall|k: Seq<char>| #[trigger]
                lookup(r.objects@, k) == match lookup(old(self).entries(), id@) {
                    Some(d) => lookup(d.objects@, k),
                    None => None::<ObjectPlan>,
                },
            forall|k: Seq<char>| #[trigger]
                lookup(r.gaps@, k) == match lookup(old(self).entries(), id@) {
                    Some(d) => lookup(d.gaps@, k),
                    None => None::<GapRecord>,
                },
            gap_models(r.gaps@) == old(self).gaps_in(id@),
            dataset_keyed(id@, r),
            forall|k: Seq<char>| #[trigger]
                lookup(final(self).entries(), k) == if k == id@ {
                    None
                } else {
                    lookup(old(self).entries(), k)
                },
            final(self).spec_path() == old(self).spec_path(),
    {
        proof {
            use_type_invariant(&*self);
        }
        let ghost pre = self.datasets@;
        let mut m: StrMap<DatasetProgress> = StrMap::new();
        std::mem::swap(&mut m, &mut self.datasets);
        let r = match m.remove(id) {
            Some(d) => d,
            None => DatasetProgress::new(),
        };
        proof {
            if has_key(pre, id@) {
                let p = crate::strmap::key_pos(pre, id@);
                assert(dataset_keyed(pre[p].0, pre[p].1));
                assert(m@ == pre.remove(p));
                assert forall|i: int| 0 <= i < m@.len() implies dataset_keyed(
                    m@[i].0,
                    #[trigger] m@[i].1,
                ) by {
                    if i < p {
                        assert(m@[i] == pre[i]);
                    } else {
                        assert(m@[i] == pre[i + 1]);
                    }
                }
            }
        }
        self.datasets = m;
        r
    }

    /// Stores the progress of dataset `id`.
    fn put_dataset(&mut self, id: String, d: DatasetProgress)
        requires
            dataset_keyed(id@, d),
        ensures
            forall|k: Seq<char>| #[trigger]
                lookup(final(self).entries(), k) == if k == id@ {
                    Some(d)
                } else {
                    lookup(old(self).entries(), k)
                },
            final(self).spec_path() == old(self).spec_path(),
    {
        proof {
            use_type_invariant(&*self);
        }
        let ghost pre = self.datasets@;
        let ghost idv = id@;
        let mut m: StrMap<DatasetProgress> = StrMap::new();
        std::mem::swap(&mut m, &mut self.datasets);
        m.insert(id, d);
        proof {
            assert forall|i: int| 0 <= i < m@.len() implies dataset_keyed(
                m@[i].0,
                #[trigger] m@[i].1,
            ) by {
                crate::strmap::lemma_lookup_at(m@, i);
                if m@[i].0 != idv {
                    assert(lookup(pre, m@[i].0) == Some(m@[i].1));
                    let p = crate::strmap::key_pos(pre, m@[i].0);
                    assert(dataset_keyed(pre[p].0, pre[p].1));
                }
            }
        }
        self.datasets = m;
    }

    /// Records an archived object: new, the same as before, or a conflict with what was
    /// recorded before (then nothing changes).
    pub fn record_object(&mut self, plan: ObjectPlan) -> (r: Result<ProgressRecordDisposition, ProgressError>)
        ensures
            match old(self).object_of(plan@.dataset_id, plan@.key) {
                Some(e) => {
                    &&& r == if e.content_hash == plan@.content_hash && e.etag == plan@.etag {
                        Ok::<ProgressRecordDisposition, ProgressError>(
                            ProgressRecordDisposition::IdenticalDuplicate,
                        )
                    } else {
                        Err::<ProgressRecordDisposition, ProgressError>(
                            ProgressError::ConflictingObject,
                        )
                    }
                    &&& final(self).entries() == old(self).entries()
                    &&& final(self).spec_path() == old(self).spec_path()
                },
                None => {
                    &&& r == Ok::<ProgressRecordDisposition, ProgressError>(
                        ProgressRecordDisposition::New,
                    )
                    &&& final(self).object_of(plan@.dataset_id, plan@.key) == Some(plan@)
                    &&& final(self).same_but_object(&*old(self), plan@.dataset_id, plan@.key)
                },
            },
    {
        match self.datasets.get(plan.dataset_id.as_str()) {
            Some(d) => match d.objects.get(plan.key.as_str()) {
                Some(e) => {
                    if crate::digest::same_hash(&e.content_hash, &plan.content_hash) && same_text(
                        e.etag.as_str(),
                        plan.etag.as_str(),
                    ) {
                        assert(e.content_hash@ == plan.content_hash@);
                        return Ok(ProgressRecordDisposition::IdenticalDuplicate);
                    }
                    proof {
                        if e@.content_hash == plan@.content_hash {
                            assert(e.content_hash =~= plan.content_hash);
                        }
                    }
                    return Err(ProgressError::ConflictingObject);
                },
                None => {},
            },
            None => {},
        }
        let ghost pre = *self;
        let id = owned(plan.dataset_id.as_str());
        let key = owned(plan.key.as_str());
        let ghost pv = plan@;
        let mut d = self.take_dataset(id.as_str());
        let ghost old_objects = d.objects@;
        d.objects.insert(key, plan);
        proof {
            assert forall|j: int| 0 <= j < d.objects@.len() implies (#[trigger] d.objects@[j]).1.dataset_id@
                == pv.dataset_id && d.objects@[j].1.key@ == d.objects@[j].0 by {
                crate::strmap::lemma_lookup_at(d.objects@, j);
                if d.objects@[j].0 != pv.key {
                    let p = crate::strmap::key_pos(old_objects, d.objects@[j].0);
                    assert(old_objects[p].1 == d.objects@[j].1);
                }
            }
        }
        let ghost dd = d;
        self.put_dataset(id, d);
        proof {
            assert(lookup(self.entries(), pv.dataset_id) == Some(dd));
            assert forall|i: Seq<char>| #[trigger]
                self.gaps_in(i) == pre.gaps_in(i) by {
                if i == pv.dataset_id {
                    assert(gap_models(dd.gaps@) == pre.gaps_in(i));
                }
            }
            assert forall|i: Seq<char>| #[trigger]
                self.has_dataset(i) == (pre.has_dataset(i) || i == pv.dataset_id) by {
                assert((lookup(self.entries(), i) is Some) == self.has_dataset(i));
                assert((lookup(pre.entries(), i) is Some) == pre.has_dataset(i));
            }
            assert forall|i: Seq<char>, k: Seq<char>|
                !(i == pv.dataset_id && k == pv.key) implies #[trigger] self.object_of(i, k)
                == pre.object_of(i, k) by {
                if i == pv.dataset_id {
                    assert(lookup(dd.objects@, k) == match lookup(pre.entries(), i) {
                        Some(d) => lookup(d.objects@, k),
                        None => None::<ObjectPlan>,
                    });
                }
            }
            assert forall|i: Seq<char>, k: Seq<char>| #[trigger]
                self.gap_of(i, k) == pre.gap_of(i, k) by {
                if i == pv.dataset_id {
                    assert(lookup(dd.gaps@, k) == match lookup(pre.entries(), i) {
                        Some(d) => lookup(d.gaps@, k),
                        None => None::<GapRecord>,
                    });
                }
            }
            assert forall|i: Seq<char>| #[trigger] self.cursor_of(i) == pre.cursor_of(i) by {}
            assert(self.object_of(pv.dataset_id, pv.key) == Some(pv));
        }
        Ok(ProgressRecordDisposition::New)
    }

    /// Records a gap, unless one is recorded under its key already.
    pub fn record_gap(&mut self, record: GapRecord) -> (r: ProgressRecordDisposition)
        ensures
            old(self).gap_of(record@.dataset_id, record@.key) is Some ==> {
                &&& r == ProgressRecordDisposition::IdenticalDuplicate
                &&& final(self).entries() == old(self).entries()
                &&& final(self).spec_path() == old(self).spec_path()
            },
            old(self).gap_of(record@.dataset_id, record@.key) is None ==> {
                &&& r == ProgressRecordDisposition::New
                &&& final(self).gap_of(record@.dataset_id, record@.key) == Some(record@)
                &&& forall|i: Seq<char>, k: Seq<char>|
                    !(i == record@.dataset_id && k == record@.key)
                        ==> #[trigger] final(self).gap_of(i, k) == old(self).gap_of(i, k)
                &&& forall|i: Seq<char>, k: Seq<char>| #[trigger]
                    final(self).object_of(i, k) == old(self).object_of(i, k)
                &&& forall|i: Seq<char>| #[trigger]
                    final(self).cursor_of(i) == old(self).cursor_of(i)
                &&& forall|i: Seq<char>| #[trigger]
                    final(self).has_dataset(i) == (old(self).has_dataset(i) || i
                        == record@.dataset_id)
                &&& final(self).spec_path() == old(self).spec_path()
            },
    {
        match self.datasets.get(record.dataset_id.as_str()) {
            Some(d) => match d.gaps.get(record.key.as_str()) {
                Some(_) => {
                    return ProgressRecordDisposition::IdenticalDuplicate;
                },
                None => {},
            },
            None => {},
        }
        let ghost pre = *self;
        let id = owned(record.dataset_id.as_str());
        let key = owned(record.key.as_str());
        let ghost rv = record@;
        let mut d = self.take_dataset(id.as_str());
        let ghost old_gaps = d.gaps@;
        d.gaps.insert(key, record);
        proof {
            assert forall|j: int| 0 <= j < d.gaps@.len() implies (#[trigger] d.gaps@[j]).1.dataset_id@
                == rv.dataset_id && d.gaps@[j].1.key@ == d.gaps@[j].0 by {
                crate::strmap::lemma_lookup_at(d.gaps@, j);
                if d.gaps@[j].0 != rv.key {
                    let p = crate::strmap::key_pos(old_gaps, d.gaps@[j].0);
                    assert(old_gaps[p].1 == d.gaps@[j].1);
                }
            }
        }
        let ghost dd = d;
        self.put_dataset(id, d);
        proof {
            assert(lookup(self.entries(), rv.dataset_id) == Some(dd));
            assert forall|i: Seq<char>| #[trigger]
                self.has_dataset(i) == (pre.has_dataset(i) || i == rv.dataset_id) by {
                assert((lookup(self.entries(), i) is Some) == self.has_dataset(i));
                assert((lookup(pre.entries(), i) is Some) == pre.has_dataset(i));
            }
            assert forall|i: Seq<char>, k: Seq<char>|
                !(i == rv.dataset_id && k == rv.key) implies #[trigger] self.gap_of(i, k)
                == pre.gap_of(i, k) by {
                if i == rv.dataset_id {
                    assert(lookup(dd.gaps@, k) == match lookup(pre.entries(), i) {
                        Some(d) => lookup(d.gaps@, k),
                        None => None::<GapRecord>,
                    });
                }
            }
            assert forall|i: Seq<char>, k: Seq<char>| #[trigger]
                self.object_of(i, k) == pre.object_of(i, k) by {
                if i == rv.dataset_id {
                    assert(lookup(dd.objects@, k) == match lookup(pre.entries(), i) {
                        Some(d) => lookup(d.objects@, k),
                        None => None::<ObjectPlan>,
                    });
                }
            }
            assert forall|i: Seq<char>| #[trigger] self.cursor_of(i) == pre.cursor_of(i) by {}
            assert(self.gap_of(rv.dataset_id, rv.key) == Some(rv));
        }
        ProgressRecordDisposition::New
    }

    /// Stores the cursor of its dataset; it is a duplicate when the same cursor was
    /// stored before.
    pub fn persist_cursor(&mut self, cursor: BackfillCursor) -> (r: ProgressRecordDisposition)
        ensures
            r == if old(self).cursor_of(cursor@.dataset_id) == Some(cursor@) {
                ProgressRecordDisposition::IdenticalDuplicate
            } else {
                ProgressRecordDisposition::New
            },
            final(self).cursor_of(cursor@.dataset_id) == Some(cursor@),
            forall|i: Seq<char>| i != cursor@.dataset_id ==> #[trigger] final(self).cursor_of(i)
                == old(self).cursor_of(i),
            forall|i: Seq<char>, k: Seq<char>| #[trigger]
                final(self).object_of(i, k) == old(self).object_of(i, k),
            forall|i: Seq<char>, k: Seq<char>| #[trigger]
                final(self).gap_of(i, k) == old(self).gap_of(i, k),
            forall|i: Seq<char>| #[trigger] final(self).gaps_in(i) == old(self).gaps_in(i),
            forall|i: Seq<char>| #[trigger]
                final(self).has_dataset(i) == (old(self).has_dataset(i) || i
                    == cursor@.dataset_id),
            final(self).spec_path() == old(self).spec_path(),
    {
        let ghost pre = *self;
        let id = owned(cursor.dataset_id.as_str());
        let ghost cv = cursor@;
        let mut d = self.take_dataset(id.as_str());
        let duplicate = match &d.cursor {
            Some(c) => c.same_as(&cursor),
            None => false,
        };
        d.cursor = Some(cursor);
        let ghost dd = d;
        self.put_dataset(id, d);
        proof {
            assert(lookup(self.entries(), cv.dataset_id) == Some(dd));
            assert forall|i: Seq<char>| #[trigger]
                self.gaps_in(i) == pre.gaps_in(i) by {
                if i == cv.dataset_id {
                    assert(gap_models(dd.gaps@) == pre.gaps_in(i));
                }
            }
            assert forall|i: Seq<char>| #[trigger]
                self.has_dataset(i) == (pre.has_dataset(i) || i == cv.dataset_id) by {
                assert((lookup(self.entries(), i) is Some) == self.has_dataset(i));
                assert((lookup(pre.entries(), i) is Some) == pre.has_dataset(i));
            }
            assert forall|i: Seq<char>, k: Seq<char>| #[trigger]
                self.object_of(i, k) == pre.object_of(i, k) by {
                if i == cv.dataset_id {
                    assert(lookup(dd.objects@, k) == match lookup(pre.entries(), i) {
                        Some(d) => lookup(d.objects@, k),
                        None => None::<ObjectPlan>,
                    });
                }
            }
            assert forall|i: Seq<char>, k: Seq<char>| #[trigger]
                self.gap_of(i, k) == pre.gap_of(i, k) by {
                if i == cv.dataset_id {
                    assert(lookup(dd.gaps@, k) == match lookup(pre.entries(), i) {
                        Some(d) => lookup(d.gaps@, k),
                        None => None::<GapRecord>,
                    });
                }
            }
        }
        if duplicate {
            ProgressRecordDisposition::IdenticalDuplicate
        } else {
            ProgressRecordDisposition::New
        }
    }

    /// The cursor of a dataset.
    pub fn load_cursor(&self, dataset_id: &str) -> (r: Option<&BackfillCursor>)
        ensures
            match r {
                Some(c) => self.cursor_of(dataset_id@) == Some(c@),
                None => self.cursor_of(dataset_id@) is None,
            },
    {
        match self.datasets.get(dataset_id) {
            Some(d) => match &d.cursor {
                Some(c) => Some(c),
                None => None,
            },
            None => None,
        }
    }

    /// The archived object of a dataset under `key`.
    pub fn load_object(&self, dataset_id: &str, key: &str) -> (r: Option<&ObjectPlan>)
        ensures
            match r {
                Some(p) => self.object_of(dataset_id@, key@) == Some(p@),
                None => self.object_of(dataset_id@, key@) is None,
            },
    {
        match self.datasets.get(dataset_id) {
            Some(d) => d.objects.get(key),
            None => None,
        }
    }

    /// The gaps of a dataset, in key order.
    pub fn load_gaps(&self, dataset_id: &str) -> (r: Vec<GapRecord>)
        ensures
            r@.map_values(|g: GapRecord| g@) == self.gaps_in(dataset_id@),
    {
        let mut out: Vec<GapRecord> = Vec::new();
        match self.datasets.get(dataset_id) {
            Some(d) => {
                let n = d.gaps.len();
                let mut i: usize = 0;
                while i < n
                    invariant
                        i <= n,
                        n == d.gaps@.len(),
                        out@.map_values(|g: GapRecord| g@) == gap_models(d.gaps@).take(i as int),
                    decreases n - i,
                {
                    let g = d.gaps.value_at(i).copy();
                    let ghost before = out@;
                    out.push(g);
                    assert(out@.map_values(|g: GapRecord| g@) =~= before.map_values(
                        |g: GapRecord| g@,
                    ).push(g@));
                    assert(gap_models(d.gaps@).take(i + 1) =~= gap_models(d.gaps@).take(
                        i as int,
                    ).push(d.gaps@[i as int].1@));
                    i = i + 1;
                }
                assert(gap_models(d.gaps@).take(n as int) =~= gap_models(d.gaps@));
            },
            None => {
                assert(out@.map_values(|g: GapRecord| g@) =~= Seq::<GapModel>::empty());
            },
        }
        out
    }
}

/// The schema of the backfill checkpoint file.
pub const CHECKPOINT_SCHEMA: &'static str = "hl.historical-backfill-checkpoint.v1";

/// A cursor as the checkpoint file holds it.
#[derive(Debug)]
pub struct CheckpointCursor {
    pub last_key: String,
    pub parser_build: String,
    pub coverage_start_key: String,
    pub coverage_end_key: String,
    pub cursor_version: u64,
    pub updated_at: i64,
}

/// An archived object as the checkpoint file holds it, its content hash in hex.
#[derive(Debug)]
pub struct CheckpointObject {
    pub bucket: String,
    pub key: String,
    pub etag: String,
    pub content_hash: String,
    pub archive_ref: String,
    pub byte_count: u64,
    pub parser_build: String,
    pub archived_at: i64,
}

/// A gap as the checkpoint file holds it.
#[derive(Debug)]
pub struct CheckpointGap {
    pub bucket: String,
    pub key: String,
    pub recorded_at: i64,
}

/// The progress of one dataset as the checkpoint file holds it.
#[derive(Debug)]
pub struct CheckpointDataset {
    pub cursor: Option<CheckpointCursor>,
    pub objects: Vec<CheckpointObject>,
    pub gaps: Vec<CheckpointGap>,
}

/// The checkpoint file: its schema and each dataset's progress, by dataset identifier.
#[derive(Debug)]
pub struct CheckpointFile {
    pub schema_version: String,
    pub datasets: Vec<(String, CheckpointDataset)>,
}

pub struct CursorFileModel {
    pub last_key: Seq<char>,
    pub parser_build: Seq<char>,
    pub coverage_start_key: Seq<char>,
    pub coverage_end_key: Seq<char>,
    pub cursor_version: u64,
    pub updated_at: i64,
}

pub struct ObjectFileModel {
    pub bucket: Seq<char>,
    pub key: Seq<char>,
    pub etag: Seq<char>,
    pub content_hash: Seq<char>,
    pub archive_ref: Seq<char>,
    pub byte_count: u64,
    pub parser_build: Seq<char>,
    pub archived_at: i64,
}

pub struct GapFileModel {
    pub bucket: Seq<char>,
    pub key: Seq<char>,
    pub recorded_at: i64,
}

pub struct DatasetFileModel {
    pub cursor: Option<CursorFileModel>,
    pub objects: Seq<ObjectFileModel>,
    pub gaps: Seq<GapFileModel>,
}

pub struct FileModel {
    pub schema_version: Seq<char>,
    pub datasets: Seq<(Seq<char>, DatasetFileModel)>,
}

impl View for CheckpointCursor {
    type V = CursorFileModel;

    open spec fn view(&self) -> CursorFileModel {
        CursorFileModel {
            last_key: self.last_key@,
            parser_build: self.parser_build@,
            coverage_start_key: self.coverage_start_key@,
            coverage_end_key: self.coverage_end_key@,
            cursor_version: self.cursor_version,
            updated_at: self.updated_at,
        }
    }
}

impl View for CheckpointObject {
    type V = ObjectFileModel;

    open spec fn view(&self) -> ObjectFileModel {
        ObjectFileModel {
            bucket: self.bucket@,
            key: self.key@,
            etag: self.etag@,
            content_hash: self.content_hash@,
            archive_ref: self.archive_ref@,
            byte_count: self.byte_count,
            parser_build: self.parser_build@,
            archived_at: self.archived_at,
        }
    }
}

impl View for CheckpointGap {
    type V = GapFileModel;

    open spec fn view(&self) -> GapFileModel {
        GapFileModel { bucket: self.bucket@, key: self.key@, recorded_at: self.recorded_at }
    }
}

impl View for CheckpointDataset {
    type V = DatasetFileModel;

    open spec fn view(&self) -> DatasetFileModel {
        DatasetFileModel {
            cursor: match self.cursor {
                Some(c) => Some(c@),
                None => None,
            },
            objects: self.objects@.map_values(|o: CheckpointObject| o@),
            gaps: self.gaps@.map_values(|g: CheckpointGap| g@),
        }
    }
}

impl View for CheckpointFile {
    type V = FileModel;

    open spec fn view(&self) -> FileModel {
        FileModel {
            schema_version: self.schema_version@,
            datasets: self.datasets@.map_values(|e: (String, CheckpointDataset)| (e.0@, e.1@)),
        }
    }
}

/// A content hash written as 64 hex digits.
pub open spec fn hash_text_ok(h: Seq<char>) -> bool {
    hex_decoded(h) matches Some(b) && b.len() == 32
}

/// A checkpoint file that reads back: the right schema, and every content hash readable.
pub open spec fn file_ok(f: FileModel) -> bool {
    &&& f.schema_version == CHECKPOINT_SCHEMA@
    &&& forall|i: int, j: int|
        0 <= i < f.datasets.len() && 0 <= j < f.datasets[i].1.objects.len() ==> hash_text_ok(
            #[trigger] f.datasets[i].1.objects[j].content_hash,
        )
}

pub open spec fn decoded_cursor(id: Seq<char>, c: CursorFileModel) -> CursorModel {
    CursorModel {
        dataset_id: id,
        last_key: c.last_key,
        parser_build: c.parser_build,
        coverage_start_key: c.coverage_start_key,
        coverage_end_key: c.coverage_end_key,
        cursor_version: c.cursor_version,
        updated_at: c.updated_at,
    }
}

pub open spec fn decoded_object(id: Seq<char>, o: ObjectFileModel) -> ObjectPlanModel {
    ObjectPlanModel {
        dataset_id: id,
        bucket: o.bucket,
        key: o.key,
        etag: o.etag,
        content_hash: hex_decoded(o.content_hash)->Some_0,
        archive_ref: o.archive_ref,
        byte_count: o.byte_count,
        parser_build: o.parser_build,
        archived_at: o.archived_at,
    }
}

pub open spec fn decoded_gap(id: Seq<char>, g: GapFileModel) -> GapModel {
    GapModel { dataset_id: id, bucket: g.bucket, key: g.key, recorded_at: g.recorded_at }
}

pub open spec fn object_pairs(id: Seq<char>, objs: Seq<ObjectFileModel>) -> Seq<(Seq<char>, ObjectPlanModel)> {
    objs.map_values(|o: ObjectFileModel| (o.key, decoded_object(id, o)))
}

pub open spec fn gap_pairs(id: Seq<char>, gaps: Seq<GapFileModel>) -> Seq<(Seq<char>, GapModel)> {
    gaps.map_values(|g: GapFileModel| (g.key, decoded_gap(id, g)))
}

/// The cursor a checkpoint file gives dataset `id` (a later entry of a dataset or an
/// object overrides an earlier one).
pub open spec fn file_cursor(f: FileModel, id: Seq<char>) -> Option<CursorModel> {
    match last_value(f.datasets, id) {
        Some(d) => match d.cursor {
            Some(c) => Some(decoded_cursor(id, c)),
            None => None,
        },
        None => None,
    }
}

/// The object a checkpoint file gives dataset `id` under `key`.
pub open spec fn file_object(f: FileModel, id: Seq<char>, key: Seq<char>) -> Option<ObjectPlanModel> {
    match last_value(f.datasets, id) {
        Some(d) => last_value(object_pairs(id, d.objects), key),
        None => None,
    }
}

/// The gap a checkpoint file gives dataset `id` under `key`.
pub open spec fn file_gap(f: FileModel, id: Seq<char>, key: Seq<char>) -> Option<GapModel> {
    match last_value(f.datasets, id) {
        Some(d) => last_value(gap_pairs(id, d.gaps), key),
        None => None,
    }
}

/// Whether a map of dataset progress holds what a checkpoint file gives.
pub open spec fn holds_file(s: Seq<(Seq<char>, DatasetProgress)>, f: FileModel) -> bool {
    &&& forall|id: Seq<char>| #[trigger] has_key(s, id) == (last_value(f.datasets, id) is Some)
    &&& forall|id: Seq<char>| #[trigger] st_cursor(s, id) == file_cursor(f, id)
    &&& forall|id: Seq<char>, key: Seq<char>| #[trigger] st_object(s, id, key) == file_object(f, id, key)
    &&& forall|id: Seq<char>, key: Seq<char>| #[trigger] st_gap(s, id, key) == file_gap(f, id, key)
}

/// The progress of one dataset that a checkpoint file holds, or the reason it is refused.
fn decode_dataset(id: &str, ds: &CheckpointDataset) -> (r: Result<DatasetProgress, HistoricalError>)
    ensures
        (forall|j: int| 0 <= j < ds@.objects.len() ==> hash_text_ok(#[trigger] ds@.objects[j].content_hash))
            ==> (r matches Ok(d) && cursor_model(d.cursor) == match ds@.cursor {
                Some(c) => Some(decoded_cursor(id@, c)),
                None => None::<CursorModel>,
            } && (forall|k: Seq<char>| #[trigger] plan_model(lookup(d.objects@, k)) == last_value(
                object_pairs(id@, ds@.objects),
                k,
            )) && (forall|k: Seq<char>| #[trigger] gap_model(lookup(d.gaps@, k)) == last_value(
                gap_pairs(id@, ds@.gaps),
                k,
            ))),
        r matches Ok(d) ==> dataset_keyed(id@, d),
        !(forall|j: int| 0 <= j < ds@.objects.len() ==> hash_text_ok(#[trigger] ds@.objects[j].content_hash))
            ==> r == Err::<DatasetProgress, HistoricalError>(HistoricalError::Checkpoint),
{
    let mut d = DatasetProgress::new();
    d.cursor = match &ds.cursor {
        Some(c) => Some(BackfillCursor {
            dataset_id: owned(id),
            last_key: owned(c.last_key.as_str()),
            parser_build: owned(c.parser_build.as_str()),
            coverage_start_key: owned(c.coverage_start_key.as_str()),
            coverage_end_key: owned(c.coverage_end_key.as_str()),
            cursor_version: c.cursor_version,
            updated_at: c.updated_at,
        }),
        None => None,
    };
    let ghost objs = ds@.objects;
    let mut j: usize = 0;
    while j < ds.objects.len()
        invariant
            j <= ds.objects@.len(),
            objs == ds@.objects,
            objs.len() == ds.objects@.len(),
            forall|m: int| 0 <= m < j ==> hash_text_ok(#[trigger] objs[m].content_hash),
            forall|k: Seq<char>| #[trigger] plan_model(lookup(d.objects@, k)) == last_value(
                object_pairs(id@, objs).take(j as int),
                k,
            ),
            cursor_model(d.cursor) == match ds@.cursor {
                Some(c) => Some(decoded_cursor(id@, c)),
                None => None::<CursorModel>,
            },
            d.gaps@ == Seq::<(Seq<char>, GapRecord)>::empty(),
            dataset_keyed(id@, d),
        decreases ds.objects@.len() - j,
    {
        let o = &ds.objects[j];
        assert(objs[j as int] == o@);
        let bytes = match hex_decode(o.content_hash.as_str()) {
            Some(b) => b,
            None => {
                assert(!hash_text_ok(objs[j as int].content_hash));
                return Err(HistoricalError::Checkpoint);
            },
        };
        if bytes.len() != 32 {
            assert(!hash_text_ok(objs[j as int].content_hash));
            return Err(HistoricalError::Checkpoint);
        }
        let hash = digest_from_vec(&bytes);
        let plan = ObjectPlan {
            dataset_id: owned(id),
            bucket: owned(o.bucket.as_str()),
            key: owned(o.key.as_str()),
            etag: owned(o.etag.as_str()),
            content_hash: hash,
            archive_ref: owned(o.archive_ref.as_str()),
            byte_count: o.byte_count,
            parser_build: owned(o.parser_build.as_str()),
            archived_at: o.archived_at,
        };
        assert(plan@ == decoded_object(id@, o@));
        let ghost before = d.objects@;
        let ghost pv = plan@;
        d.objects.insert(owned(o.key.as_str()), plan);
        proof {
            assert forall|x: int| 0 <= x < d.objects@.len() implies (#[trigger] d.objects@[x]).1.dataset_id@
                == id@ && d.objects@[x].1.key@ == d.objects@[x].0 by {
                crate::strmap::lemma_lookup_at(d.objects@, x);
                if d.objects@[x].0 != pv.key {
                    let p = crate::strmap::key_pos(before, d.objects@[x].0);
                    assert(before[p].1 == d.objects@[x].1);
                }
            }
            let t = object_pairs(id@, objs).take(j + 1);
            assert(t.drop_last() =~= object_pairs(id@, objs).take(j as int));
            assert(t.last() == (o@.key, decoded_object(id@, o@)));
        }
        j = j + 1;
    }
    assert(object_pairs(id@, objs).take(objs.len() as int) =~= object_pairs(id@, objs));
    let ghost gs = ds@.gaps;
    let mut g: usize = 0;
    while g < ds.gaps.len()
        invariant
            g <= ds.gaps@.len(),
            gs == ds@.gaps,
            gs.len() == ds.gaps@.len(),
            forall|k: Seq<char>| #[trigger] gap_model(lookup(d.gaps@, k)) == last_value(
                gap_pairs(id@, gs).take(g as int),
                k,
            ),
            forall|k: Seq<char>| #[trigger] plan_model(lookup(d.objects@, k)) == last_value(
                object_pairs(id@, objs),
                k,
            ),
            cursor_model(d.cursor) == match ds@.cursor {
                Some(c) => Some(decoded_cursor(id@, c)),
                None => None::<CursorModel>,
            },
            dataset_keyed(id@, d),
        decreases ds.gaps@.len() - g,
    {
        let x = &ds.gaps[g];
        assert(gs[g as int] == x@);
        let rec = GapRecord {
            dataset_id: owned(id),
            bucket: owned(x.bucket.as_str()),
            key: owned(x.key.as_str()),
            recorded_at: x.recorded_at,
        };
        let ghost before = d.gaps@;
        let ghost rv = rec@;
        d.gaps.insert(owned(x.key.as_str()), rec);
        proof {
            assert forall|y: int| 0 <= y < d.gaps@.len() implies (#[trigger] d.gaps@[y]).1.dataset_id@
                == id@ && d.gaps@[y].1.key@ == d.gaps@[y].0 by {
                crate::strmap::lemma_lookup_at(d.gaps@, y);
                if d.gaps@[y].0 != rv.key {
                    let p = crate::strmap::key_pos(before, d.gaps@[y].0);
                    assert(before[p].1 == d.gaps@[y].1);
                }
            }
            let t = gap_pairs(id@, gs).take(g + 1);
            assert(t.drop_last() =~= gap_pairs(id@, gs).take(g as int));
            assert(t.last() == (x@.key, decoded_gap(id@, x@)));
        }
        g = g + 1;
    }
    assert(gap_pairs(id@, gs).take(gs.len() as int) =~= gap_pairs(id@, gs));
    Ok(d)
}

/// The progress a checkpoint file holds, or `Checkpoint` when its schema is not this
/// one or a content hash is not 64 hex digits.
pub fn decode_checkpoint(file: &CheckpointFile) -> (r: Result<StrMap<DatasetProgress>, HistoricalError>)
    ensures
        file_ok(file@) ==> (r matches Ok(m) && holds_file(m@, file@) && progress_keyed(m@)),
        !file_ok(file@) ==> r is Err && r == Err::<StrMap<DatasetProgress>, HistoricalError>(
            HistoricalError::Checkpoint,
        ),
{
    if !same_text(file.schema_version.as_str(), CHECKPOINT_SCHEMA) {
        return Err(HistoricalError::Checkpoint);
    }
    let ghost f = file@;
    let mut m: StrMap<DatasetProgress> = StrMap::new();
    let mut i: usize = 0;
    while i < file.datasets.len()
        invariant
            i <= file.datasets@.len(),
            f == file@,
            f.datasets.len() == file.datasets@.len(),
            f.schema_version == CHECKPOINT_SCHEMA@,
            forall|a: int, b: int|
                0 <= a < i && 0 <= b < f.datasets[a].1.objects.len() ==> hash_text_ok(
                    #[trigger] f.datasets[a].1.objects[b].content_hash,
                ),
            holds_file(m@, FileModel { schema_version: f.schema_version, datasets: f.datasets.take(i as int) }),
            progress_keyed(m@),
        decreases file.datasets@.len() - i,
    {
        let id = file.datasets[i].0.as_str();
        let ds = &file.datasets[i].1;
        assert(f.datasets[i as int] == (id@, ds@));
        let d = match decode_dataset(id, ds) {
            Ok(d) => d,
            Err(e) => {
                proof {
                    let j = choose|j: int| 0 <= j < ds@.objects.len() && !hash_text_ok(#[trigger] ds@.objects[j].content_hash);
                    assert(f.datasets[i as int].1.objects[j] == ds@.objects[j]);
                    assert(!hash_text_ok(f.datasets[i as int].1.objects[j].content_hash));
                }
                return Err(e);
            },
        };
        let ghost before = m@;
        let ghost dd = d;
        m.insert(owned(id), d);
        proof {
            assert forall|a: int| 0 <= a < m@.len() implies dataset_keyed(
                m@[a].0,
                #[trigger] m@[a].1,
            ) by {
                crate::strmap::lemma_lookup_at(m@, a);
                if m@[a].0 != id@ {
                    assert(lookup(before, m@[a].0) == Some(m@[a].1));
                    let p = crate::strmap::key_pos(before, m@[a].0);
                    assert(dataset_keyed(before[p].0, before[p].1));
                }
            }
            let pre = FileModel { schema_version: f.schema_version, datasets: f.datasets.take(i as int) };
            let post = FileModel { schema_version: f.schema_version, datasets: f.datasets.take(i + 1) };
            assert(post.datasets.drop_last() =~= pre.datasets);
            assert(post.datasets.last() == (id@, ds@));
            assert forall|x: Seq<char>| #[trigger] has_key(m@, x) == (last_value(post.datasets, x) is Some) by {
                assert((lookup(m@, x) is Some) == has_key(m@, x));
                assert((lookup(before, x) is Some) == has_key(before, x));
            }
            assert forall|x: Seq<char>| #[trigger] st_cursor(m@, x) == file_cursor(post, x) by {
                if x != id@ {
                    assert(st_cursor(before, x) == file_cursor(pre, x));
                }
            }
            assert forall|x: Seq<char>, key: Seq<char>| #[trigger] st_object(m@, x, key) == file_object(post, x, key) by {
                if x != id@ {
                    assert(st_object(before, x, key) == file_object(pre, x, key));
                }
                if x == id@ {
                    assert(plan_model(lookup(dd.objects@, key)) == last_value(object_pairs(id@, ds@.objects), key));
                }
            }
            assert forall|x: Seq<char>, key: Seq<char>| #[trigger] st_gap(m@, x, key) == file_gap(post, x, key) by {
                if x != id@ {
                    assert(st_gap(before, x, key) == file_gap(pre, x, key));
                }
                if x == id@ {
                    assert(gap_model(lookup(dd.gaps@, key)) == last_value(gap_pairs(id@, ds@.gaps), key));
                }
            }
        }
        i = i + 1;
    }
    assert(f.datasets.take(f.datasets.len() as int) =~= f.datasets);
    Ok(m)
}

pub open spec fn encoded_cursor(c: CursorModel) -> CursorFileModel {
    CursorFileModel {
        last_key: c.last_key,
        parser_build: c.parser_build,
        coverage_start_key: c.coverage_start_key,
        coverage_end_key: c.coverage_end_key,
        cursor_version: c.cursor_version,
        updated_at: c.updated_at,
    }
}

pub open spec fn encoded_object(p: ObjectPlanModel) -> ObjectFileModel {
    ObjectFileModel {
        bucket: p.bucket,
        key: p.key,
        etag: p.etag,
        content_hash: hex_lower(p.content_hash),
        archive_ref: p.archive_ref,
        byte_count: p.byte_count,
        parser_build: p.parser_build,
        archived_at: p.archived_at,
    }
}

pub open spec fn encoded_gap(g: GapModel) -> GapFileModel {
    GapFileModel { bucket: g.bucket, key: g.key, recorded_at: g.recorded_at }
}

pub open spec fn encoded_dataset(d: DatasetProgress) -> DatasetFileModel {
    DatasetFileModel {
        cursor: match cursor_model(d.cursor) {
            Some(c) => Some(encoded_cursor(c)),
            None => None,
        },
        objects: d.objects@.map_values(|e: (Seq<char>, ObjectPlan)| encoded_object(e.1@)),
        gaps: d.gaps@.map_values(|e: (Seq<char>, GapRecord)| encoded_gap(e.1@)),
    }
}

/// The checkpoint file written for a map of dataset progress: this schema, then each
/// dataset in key order with its cursor, objects and gaps in key order.
pub open spec fn encoded_file(s: Seq<(Seq<char>, DatasetProgress)>) -> FileModel {
    FileModel {
        schema_version: CHECKPOINT_SCHEMA@,
        datasets: s.map_values(|e: (Seq<char>, DatasetProgress)| (e.0, encoded_dataset(e.1))),
    }
}

/// Keys in order at both levels of a map of dataset progress.
pub open spec fn progress_sorted(s: Seq<(Seq<char>, DatasetProgress)>) -> bool {
    &&& keys_sorted(s)
    &&& forall|i: int| 0 <= i < s.len() ==> keys_sorted((#[trigger] s[i]).1.objects@) && keys_sorted(s[i].1.gaps@)
}

/// Every record is filed under its own dataset and key.
pub open spec fn progress_keyed(s: Seq<(Seq<char>, DatasetProgress)>) -> bool {
    forall|i: int| 0 <= i < s.len() ==> dataset_keyed(s[i].0, #[trigger] s[i].1)
}

pub open spec fn dataset_keyed(id: Seq<char>, d: DatasetProgress) -> bool {
    &&& (d.cursor matches Some(c) ==> c.dataset_id@ == id)
    &&& forall|j: int| 0 <= j < d.objects@.len() ==> (#[trigger] d.objects@[j]).1.dataset_id@ == id
        && d.objects@[j].1.key@ == d.objects@[j].0
    &&& forall|j: int| 0 <= j < d.gaps@.len() ==> (#[trigger] d.gaps@[j]).1.dataset_id@ == id
        && d.gaps@[j].1.key@ == d.gaps@[j].0
}

fn encode_dataset(d: &DatasetProgress) -> (r: CheckpointDataset)
    ensures
        r@ == encoded_dataset(*d),
        keys_sorted(d.objects@),
        keys_sorted(d.gaps@),
{
    let cursor = match &d.cursor {
        Some(c) => Some(CheckpointCursor {
            last_key: owned(c.last_key.as_str()),
            parser_build: owned(c.parser_build.as_str()),
            coverage_start_key: owned(c.coverage_start_key.as_str()),
            coverage_end_key: owned(c.coverage_end_key.as_str()),
            cursor_version: c.cursor_version,
            updated_at: c.updated_at,
        }),
        None => None,
    };
    let mut objects: Vec<CheckpointObject> = Vec::new();
    let n = d.objects.len();
    let mut j: usize = 0;
    while j < n
        invariant
            j <= n,
            n == d.objects@.len(),
            objects@.map_values(|o: CheckpointObject| o@) == d.objects@.take(j as int).map_values(
                |e: (Seq<char>, ObjectPlan)| encoded_object(e.1@),
            ),
        decreases n - j,
    {
        let p = d.objects.value_at(j);
        let o = CheckpointObject {
            bucket: owned(p.bucket.as_str()),
            key: owned(p.key.as_str()),
            etag: owned(p.etag.as_str()),
            content_hash: hex_encode(&p.content_hash),
            archive_ref: owned(p.archive_ref.as_str()),
            byte_count: p.byte_count,
            parser_build: owned(p.parser_build.as_str()),
            archived_at: p.archived_at,
        };
        let ghost before = objects@;
        objects.push(o);
        assert(objects@.map_values(|o: CheckpointObject| o@) =~= before.map_values(
            |o: CheckpointObject| o@,
        ).push(o@));
        assert(d.objects@.take(j + 1).map_values(|e: (Seq<char>, ObjectPlan)| encoded_object(e.1@))
            =~= d.objects@.take(j as int).map_values(
            |e: (Seq<char>, ObjectPlan)| encoded_object(e.1@),
        ).push(encoded_object(p@)));
        j = j + 1;
    }
    assert(d.objects@.take(n as int) =~= d.objects@);
    let mut gaps: Vec<CheckpointGap> = Vec::new();
    let m = d.gaps.len();
    let mut g: usize = 0;
    while g < m
        invariant
            g <= m,
            m == d.gaps@.len(),
            gaps@.map_values(|x: CheckpointGap| x@) == d.gaps@.take(g as int).map_values(
                |e: (Seq<char>, GapRecord)| encoded_gap(e.1@),
            ),
        decreases m - g,
    {
        let x = d.gaps.value_at(g);
        let y = CheckpointGap {
            bucket: owned(x.bucket.as_str()),
            key: owned(x.key.as_str()),
            recorded_at: x.recorded_at,
        };
        let ghost before = gaps@;
        gaps.push(y);
        assert(gaps@.map_values(|x: CheckpointGap| x@) =~= before.map_values(
            |x: CheckpointGap| x@,
        ).push(y@));
        assert(d.gaps@.take(g + 1).map_values(|e: (Seq<char>, GapRecord)| encoded_gap(e.1@))
            =~= d.gaps@.take(g as int).map_values(
            |e: (Seq<char>, GapRecord)| encoded_gap(e.1@),
        ).push(encoded_gap(x@)));
        g = g + 1;
    }
    assert(d.gaps@.take(m as int) =~= d.gaps@);
    let r = CheckpointDataset { cursor, objects, gaps };
    assert(r@.objects =~= encoded_dataset(*d).objects);
    assert(r@.gaps =~= encoded_dataset(*d).gaps);
    r
}

impl HistoricalProgressStore {
    /// The checkpoint file that holds this progress.
    pub fn encode_checkpoint(&self) -> (r: CheckpointFile)
        ensures
            r@ == encoded_file(self.entries()),
            progress_sorted(self.entries()),
            progress_keyed(self.entries()),
    {
        proof {
            use_type_invariant(self);
        }
        let n = self.datasets.len();
        let mut out: Vec<(String, CheckpointDataset)> = Vec::new();
        let mut i: usize = 0;
        while i < n
            invariant
                i <= n,
                n == self.entries().len(),
                keys_sorted(self.entries()),
                forall|a: int| 0 <= a < i ==> keys_sorted((#[trigger] self.entries()[a]).1.objects@)
                    && keys_sorted(self.entries()[a].1.gaps@),
                out@.map_values(|e: (String, CheckpointDataset)| (e.0@, e.1@)) == self.entries().take(
                    i as int,
                ).map_values(|e: (Seq<char>, DatasetProgress)| (e.0, encoded_dataset(e.1))),
            decreases n - i,
        {
            let id = owned(self.datasets.key_at(i));
            let d = self.datasets.value_at(i);
            let ds = encode_dataset(d);
            let ghost before = out@;
            let ghost entry = (id@, ds@);
            out.push((id, ds));
            assert(out@.map_values(|e: (String, CheckpointDataset)| (e.0@, e.1@)) =~= before.map_values(
                |e: (String, CheckpointDataset)| (e.0@, e.1@),
            ).push(entry));
            assert(self.entries().take(i + 1).map_values(
                |e: (Seq<char>, DatasetProgress)| (e.0, encoded_dataset(e.1)),
            ) =~= self.entries().take(i as int).map_values(
                |e: (Seq<char>, DatasetProgress)| (e.0, encoded_dataset(e.1)),
            ).push(entry));
            i = i + 1;
        }
        assert(self.entries().take(n as int) =~= self.entries());
        let r = CheckpointFile { schema_version: owned(CHECKPOINT_SCHEMA), datasets: out };
        assert(r@.datasets =~= encoded_file(self.entries()).datasets);
        r
    }
}

/// In a map with sorted keys, the last entry under `k` of the map with each value
/// transformed by `f` is the transformed value under `k`.
pub proof fn lemma_last_value_mapped<V, W>(s: Seq<(Seq<char>, V)>, f: spec_fn(V) -> W, k: Seq<char>)
    requires
        keys_sorted(s),
    ensures
        last_value(s.map_values(|e: (Seq<char>, V)| (e.0, f(e.1))), k) == match lookup(s, k) {
            Some(v) => Some(f(v)),
            None => None::<W>,
        },
    decreases s.len(),
{
    let t = s.map_values(|e: (Seq<char>, V)| (e.0, f(e.1)));
    if s.len() > 0 {
        assert(t.last() == (s.last().0, f(s.last().1)));
        if s.last().0 == k {
            crate::strmap::lemma_lookup_at(s, s.len() - 1);
        } else {
            crate::strmap::lemma_sorted_drop_last(s, k);
            assert(t.drop_last() =~= s.drop_last().map_values(|e: (Seq<char>, V)| (e.0, f(e.1))));
            lemma_last_value_mapped(s.drop_last(), f, k);
        }
    }
}

/// A checkpoint file written for the progress store reads back as the same progress:
/// every dataset, cursor, archived object and gap, and nothing else.
pub proof fn law_checkpoint_round_trip(s: Seq<(Seq<char>, DatasetProgress)>)
    requires
        progress_sorted(s),
        progress_keyed(s),
    ensures
        file_ok(encoded_file(s)),
        holds_file(s, encoded_file(s)),
{
    let f = encoded_file(s);
    assert forall|i: int, j: int|
        0 <= i < f.datasets.len() && 0 <= j < f.datasets[i].1.objects.len() implies hash_text_ok(
            #[trigger] f.datasets[i].1.objects[j].content_hash,
        ) by {
        let h = s[i].1.objects@[j].1.content_hash@;
        crate::snapshot_store::lemma_hex_roundtrip(h);
    }
    let enc = |d: DatasetProgress| encoded_dataset(d);
    assert(f.datasets =~= s.map_values(|e: (Seq<char>, DatasetProgress)| (e.0, enc(e.1))));
    assert forall|id: Seq<char>| #[trigger] has_key(s, id) == (last_value(f.datasets, id) is Some) by {
        lemma_last_value_mapped(s, enc, id);
    }
    assert forall|id: Seq<char>| #[trigger] st_cursor(s, id) == file_cursor(f, id) by {
        lemma_last_value_mapped(s, enc, id);
        if has_key(s, id) {
            let p = crate::strmap::key_pos(s, id);
            crate::strmap::lemma_lookup_at(s, p);
            assert(dataset_keyed(s[p].0, s[p].1));
        }
    }
    assert forall|id: Seq<char>, key: Seq<char>| #[trigger] st_object(s, id, key) == file_object(f, id, key) by {
        lemma_last_value_mapped(s, enc, id);
        if has_key(s, id) {
            let p = crate::strmap::key_pos(s, id);
            crate::strmap::lemma_lookup_at(s, p);
            let d = s[p].1;
            assert(dataset_keyed(id, d));
            assert(keys_sorted(d.objects@));
            let pm = |x: ObjectPlan| x@;
            let pairs = object_pairs(id, encoded_dataset(d).objects);
            assert forall|j: int| 0 <= j < pairs.len() implies pairs[j] == d.objects@.map_values(
                |e: (Seq<char>, ObjectPlan)| (e.0, pm(e.1)),
            )[j] by {
                crate::snapshot_store::lemma_hex_roundtrip(d.objects@[j].1.content_hash@);
                assert(d.objects@[j].1.content_hash@.len() == 32);
            }
            assert(pairs =~= d.objects@.map_values(|e: (Seq<char>, ObjectPlan)| (e.0, pm(e.1))));
            lemma_last_value_mapped(d.objects@, pm, key);
        }
    }
    assert forall|id: Seq<char>, key: Seq<char>| #[trigger] st_gap(s, id, key) == file_gap(f, id, key) by {
        lemma_last_value_mapped(s, enc, id);
        if has_key(s, id) {
            let p = crate::strmap::key_pos(s, id);
            crate::strmap::lemma_lookup_at(s, p);
            let d = s[p].1;
            assert(dataset_keyed(id, d));
            let gm = |x: GapRecord| x@;
            let pairs = gap_pairs(id, encoded_dataset(d).gaps);
            assert(pairs =~= d.gaps@.map_values(|e: (Seq<char>, GapRecord)| (e.0, gm(e.1))));
            lemma_last_value_mapped(d.gaps@, gm, key);
        }
    }
}

} // verus!
