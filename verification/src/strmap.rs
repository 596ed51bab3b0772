//! A map from string keys to values, kept in key order (the order of `str` comparison).

use vstd::prelude::*;

use crate::text::{
    chars_of, lemma_seq_lt_asymmetric, lemma_seq_lt_irreflexive, lemma_seq_lt_total,
    lemma_seq_lt_transitive, seq_eq, seq_less, seq_lt,
};

verus! {

/// Keys strictly increasing.
pub open spec fn keys_sorted<V>(s: Seq<(Seq<char>, V)>) -> bool {
    forall|i: int, j: int| 0 <= i < j < s.len() ==> seq_lt((#[trigger] s[i]).0, (#[trigger] s[j]).0)
}

/// `k` is a key of `s`.
pub open spec fn has_key<V>(s: Seq<(Seq<char>, V)>, k: Seq<char>) -> bool {
    exists|i: int| 0 <= i < s.len() && (#[trigger] s[i]).0 == k
}

/// Position of key `k` in `s` (meaningful when `has_key`).
pub open spec fn key_pos<V>(s: Seq<(Seq<char>, V)>, k: Seq<char>) -> int {
    choose|i: int| 0 <= i < s.len() && (#[trigger] s[i]).0 == k
}

/// The value stored under `k`.
pub open spec fn lookup<V>(s: Seq<(Seq<char>, V)>, k: Seq<char>) -> Option<V> {
    if has_key(s, k) {
        Some(s[key_pos(s, k)].1)
    } else {
        None
    }
}

/// The keys of `s`, in order.
pub open spec fn keys_of<V>(s: Seq<(Seq<char>, V)>) -> Seq<Seq<char>> {
    s.map_values(|e: (Seq<char>, V)| e.0)
}

pub proof fn lemma_sorted_unique<V>(s: Seq<(Seq<char>, V)>, i: int, j: int)
    requires
        keys_sorted(s),
        0 <= i < s.len(),
        0 <= j < s.len(),
        s[i].0 == s[j].0,
    ensures
        i == j,
{
    if i < j {
        lemma_seq_lt_irreflexive(s[i].0);
    } else if j < i {
        lemma_seq_lt_irreflexive(s[i].0);
    }
}

pub proof fn lemma_lookup_at<V>(s: Seq<(Seq<char>, V)>, i: int)
    requires
        keys_sorted(s),
        0 <= i < s.len(),
    ensures
        lookup(s, s[i].0) == Some(s[i].1),
{
    assert(has_key(s, s[i].0));
    let p = key_pos(s, s[i].0);
    lemma_sorted_unique(s, p, i);
}

/// The value of the last entry under `k` (later entries override earlier ones).
pub open spec fn last_value<V>(s: Seq<(Seq<char>, V)>, k: Seq<char>) -> Option<V>
    decreases s.len(),
{
    if s.len() == 0 {
        None
    } else if s.last().0 == k {
        Some(s.last().1)
    } else {
        last_value(s.drop_last(), k)
    }
}

/// `post` is `pre` with `entries` stored one after another.
pub open spec fn overlaid<V>(
    pre: Seq<(Seq<char>, V)>,
    entries: Seq<(Seq<char>, V)>,
    post: Seq<(Seq<char>, V)>,
) -> bool {
    forall|k: Seq<char>| #[trigger]
        lookup(post, k) == match last_value(entries, k) {
            Some(v) => Some(v),
            None => lookup(pre, k),
        }
}

pub proof fn lemma_sorted_drop_last<V>(s: Seq<(Seq<char>, V)>, k: Seq<char>)
    requires
        keys_sorted(s),
        s.len() > 0,
        s.last().0 != k,
    ensures
        keys_sorted(s.drop_last()),
        lookup(s, k) == lookup(s.drop_last(), k),
{
    let d = s.drop_last();
    assert forall|i: int, j: int| 0 <= i < j < d.len() implies seq_lt(
        (#[trigger] d[i]).0,
        (#[trigger] d[j]).0,
    ) by {
        assert(d[i] == s[i] && d[j] == s[j]);
    }
    if has_key(s, k) {
        let p = key_pos(s, k);
        assert(p != s.len() - 1);
        assert(d[p].0 == k);
        lemma_lookup_at(s, p);
        lemma_lookup_at(d, p);
    } else if has_key(d, k) {
        let p = key_pos(d, k);
        assert(s[p].0 == k);
    }
}

/// In a map with sorted keys the last entry under `k` is its only one.
pub proof fn lemma_last_value_sorted<V>(s: Seq<(Seq<char>, V)>, k: Seq<char>)
    requires
        keys_sorted(s),
    ensures
        last_value(s, k) == lookup(s, k),
    decreases s.len(),
{
    if s.len() > 0 {
        if s.last().0 == k {
            lemma_lookup_at(s, s.len() - 1);
        } else {
            lemma_sorted_drop_last(s, k);
            lemma_last_value_sorted(s.drop_last(), k);
        }
    }
}

proof fn lemma_drop_first_lookup<V>(s: Seq<(Seq<char>, V)>, k: Seq<char>)
    requires
        keys_sorted(s),
        s.len() > 0,
    ensures
        keys_sorted(s.drop_first()),
        lookup(s.drop_first(), k) == if k == s[0].0 {
            None
        } else {
            lookup(s, k)
        },
{
    let d = s.drop_first();
    assert forall|i: int, j: int| 0 <= i < j < d.len() implies seq_lt((#[trigger] d[i]).0, (#[trigger] d[j]).0) by {
        assert(d[i] == s[i + 1] && d[j] == s[j + 1]);
    }
    if has_key(d, k) {
        let p = key_pos(d, k);
        assert(s[p + 1].0 == k);
        lemma_lookup_at(d, p);
        lemma_lookup_at(s, p + 1);
        if k == s[0].0 {
            lemma_sorted_unique(s, 0, p + 1);
        }
    } else if k != s[0].0 && has_key(s, k) {
        let p = key_pos(s, k);
        assert(p != 0);
        assert(d[p - 1].0 == k);
    }
}

/// Two entry sequences with sorted keys that store the same value under every key are
/// the same sequence.
pub proof fn lemma_sorted_lookup_unique<V>(a: Seq<(Seq<char>, V)>, b: Seq<(Seq<char>, V)>)
    requires
        keys_sorted(a),
        keys_sorted(b),
        forall|k: Seq<char>| #[trigger] lookup(a, k) == lookup(b, k),
    ensures
        a == b,
    decreases a.len(),
{
    if a.len() == 0 {
        if b.len() > 0 {
            lemma_lookup_at(b, 0);
            assert(lookup(a, b[0].0) is Some);
        }
        assert(a =~= b);
    } else {
        lemma_lookup_at(a, 0);
        let k0 = a[0].0;
        assert(lookup(b, k0) is Some);
        assert(b.len() > 0);
        lemma_lookup_at(b, 0);
        let k1 = b[0].0;
        assert(lookup(a, k1) is Some);
        if k0 != k1 {
            let i = key_pos(a, k1);
            let j = key_pos(b, k0);
            assert(i != 0 && j != 0);
            assert(seq_lt(a[0].0, a[i].0));
            assert(seq_lt(b[0].0, b[j].0));
            lemma_seq_lt_asymmetric(k0, k1);
        }
        assert(a[0] == b[0]);
        let a1 = a.drop_first();
        let b1 = b.drop_first();
        assert forall|k: Seq<char>| #[trigger] lookup(a1, k) == lookup(b1, k) by {
            lemma_drop_first_lookup(a, k);
            lemma_drop_first_lookup(b, k);
        }
        lemma_drop_first_lookup(a, k0);
        lemma_drop_first_lookup(b, k0);
        lemma_sorted_lookup_unique(a1, b1);
        assert forall|i: int| 0 <= i < a.len() implies a[i] == b[i] by {
            if i > 0 {
                assert(a[i] == a1[i - 1]);
                assert(b[i] == b1[i - 1]);
            }
        }
        assert(a =~= b);
    }
}

/// The entries of `a` with those of `b` stored over them, in key order.
pub open spec fn overlay<V>(a: Seq<(Seq<char>, V)>, b: Seq<(Seq<char>, V)>) -> Seq<(Seq<char>, V)> {
    choose|t: Seq<(Seq<char>, V)>|
        keys_sorted(t) && forall|k: Seq<char>| #[trigger]
            lookup(t, k) == if has_key(b, k) {
                lookup(b, k)
            } else {
                lookup(a, k)
            }
}

/// Entries in key order.
#[derive(Debug)]
pub struct StrMap<V> {
    entries: Vec<(String, V)>,
}

impl<V> View for StrMap<V> {
    type V = Seq<(Seq<char>, V)>;

    closed spec fn view(&self) -> Seq<(Seq<char>, V)> {
        self.entries@.map_values(|e: (String, V)| (e.0@, e.1))
    }
}

impl<V> StrMap<V> {
    #[verifier::type_invariant]
    closed spec fn inv(self) -> bool {
        keys_sorted(self@)
    }

    pub fn new() -> (r: Self)
        ensures
            r@ == Seq::<(Seq<char>, V)>::empty(),
    {
        let r = StrMap { entries: Vec::new() };
        assert(r@ =~= Seq::<(Seq<char>, V)>::empty());
        r
    }

    pub fn len(&self) -> (r: usize)
        ensures
            r == self@.len(),
            keys_sorted(self@),
    {
        proof {
            use_type_invariant(self);
        }
        self.entries.len()
    }

    /// Key of the `i`-th entry.
    pub fn key_at(&self, i: usize) -> (r: &str)
        requires
            i < self@.len(),
        ensures
            r@ == self@[i as int].0,
    {
        self.entries[i].0.as_str()
    }

    /// Value of the `i`-th entry.
    pub fn value_at(&self, i: usize) -> (r: &V)
        requires
            i < self@.len(),
        ensures
            *r == self@[i as int].1,
    {
        &self.entries[i].1
    }

    fn key_before(&self, i: usize, k: &Vec<char>) -> (r: bool)
        requires
            i < self@.len(),
        ensures
            r == seq_lt(self@[i as int].0, k@),
    {
        let c = chars_of(self.entries[i].0.as_str());
        seq_less(&c, k)
    }

    /// Position of `key`, if present.
    pub fn find(&self, key: &str) -> (r: Option<usize>)
        ensures
            keys_sorted(self@),
            match r {
                Some(i) => i < self@.len() && self@[i as int].0 == key@ && lookup(self@, key@)
                    == Some(self@[i as int].1),
                None => !has_key(self@, key@) && lookup(self@, key@) is None,
            },
    {
        proof {
            use_type_invariant(self);
        }
        let k = chars_of(key);
        let n = self.entries.len();
        let mut i: usize = 0;
        while i < n
            invariant
                n == self@.len(),
                k@ == key@,
                i <= n,
                keys_sorted(self@),
                forall|j: int| 0 <= j < i ==> (#[trigger] self@[j]).0 != key@,
            decreases n - i,
        {
            let c = chars_of(self.entries[i].0.as_str());
            assert(self@[i as int].0 == self.entries@[i as int].0@);
            if seq_eq(&c, &k) {
                proof {
                    lemma_lookup_at(self@, i as int);
                }
                return Some(i);
            }
            i = i + 1;
        }
        None
    }

    /// Value stored under `key`.
    pub fn get(&self, key: &str) -> (r: Option<&V>)
        ensures
            match r {
                Some(v) => lookup(self@, key@) == Some(*v),
                None => lookup(self@, key@) is None,
            },
    {
        match self.find(key) {
            Some(i) => Some(&self.entries[i].1),
            None => None,
        }
    }

    /// Stores `value` under `key`, giving back the value it replaces.
    pub fn insert(&mut self, key: String, value: V) -> (r: Option<V>)
        ensures
            r == lookup(old(self)@, key@),
            forall|k: Seq<char>| #[trigger]
                lookup(final(self)@, k) == if k == key@ {
                    Some(value)
                } else {
                    lookup(old(self)@, k)
                },
            keys_sorted(final(self)@),
            has_key(old(self)@, key@) ==> final(self)@.len() == old(self)@.len() && keys_of(
                final(self)@,
            ) == keys_of(old(self)@),
            !has_key(old(self)@, key@) ==> final(self)@.len() == old(self)@.len() + 1,
    {
        proof {
            use_type_invariant(&*self);
        }
        let ghost s = self@;
        let ghost kv = key@;
        let ghost vv = value;
        match self.find(key.as_str()) {
            Some(i) => {
                let mut entries: Vec<(String, V)> = Vec::new();
                std::mem::swap(&mut entries, &mut self.entries);
                let (_old_key, old_value) = entries.remove(i);
                entries.insert(i, (key, value));
                let ghost t = entries@.map_values(|e: (String, V)| (e.0@, e.1));
                proof {
                    assert(t =~= s.update(i as int, (kv, vv)));
                    assert(keys_sorted(t)) by {
                        assert forall|a: int, b: int| 0 <= a < b < t.len() implies seq_lt(
                            (#[trigger] t[a]).0,
                            (#[trigger] t[b]).0,
                        ) by {
                            assert(t[a].0 == s[a].0);
                            assert(t[b].0 == s[b].0);
                        }
                    }
                    assert forall|k: Seq<char>| #[trigger]
                        lookup(t, k) == if k == kv {
                            Some(vv)
                        } else {
                            lookup(s, k)
                        } by {
                        if k == kv {
                            lemma_lookup_at(t, i as int);
                        } else {
                            if has_key(t, k) {
                                let p = key_pos(t, k);
                                assert(s[p].0 == k);
                                lemma_lookup_at(s, p);
                                lemma_lookup_at(t, p);
                            }
                            if has_key(s, k) {
                                let p = key_pos(s, k);
                                assert(t[p].0 == k);
                            }
                        }
                    }
                    assert(keys_of(t) =~= keys_of(s));
                }
                self.entries = entries;
                Some(old_value)
            },
            None => {
                let kc = chars_of(key.as_str());
                let n = self.entries.len();
                let mut pos: usize = 0;
                while pos < n && self.key_before(pos, &kc)
                    invariant
                        n == self@.len(),
                        s == self@,
                        kc@ == kv,
                        pos <= n,
                        forall|j: int| 0 <= j < pos ==> seq_lt((#[trigger] s[j]).0, kv),
                    decreases n - pos,
                {
                    pos = pos + 1;
                }
                proof {
                    if pos < n {
                        assert(s[pos as int].0 == self.entries@[pos as int].0@);
                        assert(!seq_lt(s[pos as int].0, kv));
                        assert(s[pos as int].0 != kv);
                        lemma_seq_lt_total(s[pos as int].0, kv);
                        assert forall|j: int| pos <= j < n implies seq_lt(kv, (#[trigger] s[j]).0) by {
                            if j > pos {
                                lemma_seq_lt_transitive(kv, s[pos as int].0, s[j].0);
                            }
                        }
                    }
                }
                let mut entries: Vec<(String, V)> = Vec::new();
                std::mem::swap(&mut entries, &mut self.entries);
                entries.insert(pos, (key, value));
                let ghost t = entries@.map_values(|e: (String, V)| (e.0@, e.1));
                proof {
                    assert(t =~= s.insert(pos as int, (kv, vv)));
                    assert forall|a: int, b: int| 0 <= a < b < t.len() implies seq_lt(
                        (#[trigger] t[a]).0,
                        (#[trigger] t[b]).0,
                    ) by {
                        if a > pos {
                            assert(t[a] == s[a - 1]);
                        }
                        if b > pos {
                            assert(t[b] == s[b - 1]);
                        }
                    }
                    assert forall|k: Seq<char>| #[trigger]
                        lookup(t, k) == if k == kv {
                            Some(vv)
                        } else {
                            lookup(s, k)
                        } by {
                        if k == kv {
                            lemma_lookup_at(t, pos as int);
                        } else {
                            if has_key(t, k) {
                                let p = key_pos(t, k);
                                if p < pos {
                                    assert(s[p].0 == k);
                                    lemma_lookup_at(s, p);
                                } else {
                                    assert(p != pos);
                                    assert(s[p - 1].0 == k);
                                    lemma_lookup_at(s, p - 1);
                                }
                                lemma_lookup_at(t, p);
                            }
                            if has_key(s, k) {
                                let p = key_pos(s, k);
                                if p < pos {
                                    assert(t[p].0 == k);
                                } else {
                                    assert(t[p + 1].0 == k);
                                }
                            }
                        }
                    }
                }
                self.entries = entries;
                None
            },
        }
    }

    /// Removes `key`, giving back its value.
    pub fn remove(&mut self, key: &str) -> (r: Option<V>)
        ensures
            r == lookup(old(self)@, key@),
            forall|k: Seq<char>| #[trigger]
                lookup(final(self)@, k) == if k == key@ {
                    None
                } else {
                    lookup(old(self)@, k)
                },
            keys_sorted(final(self)@),
            has_key(old(self)@, key@) ==> final(self)@ == old(self)@.remove(
                key_pos(old(self)@, key@),
            ),
            !has_key(old(self)@, key@) ==> final(self)@ == old(self)@,
    {
        proof {
            use_type_invariant(&*self);
        }
        let ghost s = self@;
        match self.find(key) {
            None => None,
            Some(i) => {
                let mut entries: Vec<(String, V)> = Vec::new();
                std::mem::swap(&mut entries, &mut self.entries);
                let (_k, v) = entries.remove(i);
                let ghost t = entries@.map_values(|e: (String, V)| (e.0@, e.1));
                proof {
                    assert(has_key(s, key@));
                    lemma_sorted_unique(s, key_pos(s, key@), i as int);
                    assert(t =~= s.remove(i as int));
                    assert forall|a: int, b: int| 0 <= a < b < t.len() implies seq_lt(
                        (#[trigger] t[a]).0,
                        (#[trigger] t[b]).0,
                    ) by {
                        if a >= i {
                            assert(t[a] == s[a + 1]);
                        }
                        if b >= i {
                            assert(t[b] == s[b + 1]);
                        }
                    }
                    assert forall|k: Seq<char>| #[trigger]
                        lookup(t, k) == if k == key@ {
                            None
                        } else {
                            lookup(s, k)
                        } by {
                        if has_key(t, k) {
                            let p = key_pos(t, k);
                            if p < i {
                                assert(s[p].0 == k);
                                if k == key@ {
                                    lemma_sorted_unique(s, p, i as int);
                                }
                                lemma_lookup_at(s, p);
                            } else {
                                assert(s[p + 1].0 == k);
                                if k == key@ {
                                    lemma_sorted_unique(s, p + 1, i as int);
                                }
                                lemma_lookup_at(s, p + 1);
                            }
                            lemma_lookup_at(t, p);
                        }
                        if k != key@ && has_key(s, k) {
                            let p = key_pos(s, k);
                            if p < i {
                                assert(t[p].0 == k);
                            } else {
                                assert(p != i);
                                assert(t[p - 1].0 == k);
                            }
                        }
                    }
                }
                self.entries = entries;
                Some(v)
            },
        }
    }

    /// The entries, in key order.
    pub fn to_vec(&self) -> (r: Vec<(String, V)>)
        where
            V: Copy,
        ensures
            r@.map_values(|e: (String, V)| (e.0@, e.1)) == self@,
            keys_sorted(self@),
    {
        proof {
            use_type_invariant(self);
        }
        let mut r: Vec<(String, V)> = Vec::new();
        let mut i: usize = 0;
        while i < self.entries.len()
            invariant
                i <= self.entries@.len(),
                r@.map_values(|e: (String, V)| (e.0@, e.1)) == self@.take(i as int),
            decreases self.entries@.len() - i,
        {
            let k = crate::text::owned(self.entries[i].0.as_str());
            let v = self.entries[i].1;
            assert(self@[i as int] == (self.entries@[i as int].0@, self.entries@[i as int].1));
            let ghost before = r@;
            assert(before.len() == i) by {
                assert(before.map_values(|e: (String, V)| (e.0@, e.1)).len() == before.len());
            }
            r.push((k, v));
            proof {
                assert(r@ == before.push((k, v)));
                let lhs = r@.map_values(|e: (String, V)| (e.0@, e.1));
                let rhs = self@.take(i + 1);
                assert forall|j: int| 0 <= j < lhs.len() implies lhs[j] == rhs[j] by {
                    if j < i {
                        assert(r@[j] == before[j]);
                        assert(before.map_values(|e: (String, V)| (e.0@, e.1))[j] == self@.take(
                            i as int,
                        )[j]);
                    }
                }
                assert(lhs =~= rhs);
            }
            i = i + 1;
        }
        assert(self@.take(self@.len() as int) =~= self@);
        r
    }

    /// Stores `entries` one after another, later entries overriding earlier ones.
    pub fn put_all(&mut self, entries: &Vec<(String, V)>)
        where
            V: Copy,
        ensures
            overlaid(old(self)@, entries@.map_values(|e: (String, V)| (e.0@, e.1)), final(self)@),
    {
        let ghost es = entries@.map_values(|e: (String, V)| (e.0@, e.1));
        let ghost pre = self@;
        let mut i: usize = 0;
        while i < entries.len()
            invariant
                i <= entries@.len(),
                es == entries@.map_values(|e: (String, V)| (e.0@, e.1)),
                overlaid(pre, es.take(i as int), self@),
            decreases entries@.len() - i,
        {
            let k = crate::text::owned(entries[i].0.as_str());
            let v = entries[i].1;
            let ghost before = self@;
            self.insert(k, v);
            assert(es.take(i + 1).drop_last() =~= es.take(i as int));
            i = i + 1;
        }
        assert(es.take(es.len() as int) =~= es);
    }

    /// A copy of the map.
    pub fn copied(&self) -> (r: Self)
        where
            V: Copy,
        ensures
            r@ == self@,
    {
        let r = StrMap { entries: Vec::new() };
        let mut r = r;
        r.put_all(&self.to_vec());
        proof {
            use_type_invariant(self);
            use_type_invariant(&r);
            assert forall|k: Seq<char>| #[trigger] lookup(r@, k) == lookup(self@, k) by {
                lemma_last_value_sorted(self@, k);
            }
            lemma_sorted_lookup_unique(r@, self@);
        }
        r
    }

    /// This map with the entries of `other` stored over it.
    pub fn overlaid_with(&self, other: &StrMap<V>) -> (r: Self)
        where
            V: Copy,
        ensures
            r@ == overlay(self@, other@),
            keys_sorted(r@),
    {
        let mut r = self.copied();
        r.put_all(&other.to_vec());
        proof {
            use_type_invariant(other);
            use_type_invariant(&r);
            assert forall|k: Seq<char>| #[trigger] lookup(r@, k) == if has_key(other@, k) {
                lookup(other@, k)
            } else {
                lookup(self@, k)
            } by {
                lemma_last_value_sorted(other@, k);
            }
            let t = overlay(self@, other@);
            assert(keys_sorted(t) && forall|k: Seq<char>| #[trigger] lookup(t, k) == if has_key(other@, k) {
                lookup(other@, k)
            } else {
                lookup(self@, k)
            });
            assert forall|k: Seq<char>| #[trigger] lookup(r@, k) == lookup(t, k) by {}
            lemma_sorted_lookup_unique(r@, t);
        }
        r
    }

    /// Empties the map.
    pub fn clear(&mut self)
        ensures
            final(self)@ == Seq::<(Seq<char>, V)>::empty(),
    {
        self.entries = Vec::new();
        assert(self@ =~= Seq::<(Seq<char>, V)>::empty());
    }
}

} // verus!
