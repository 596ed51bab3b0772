//! Snapshot hashes that outlive the process.
//!
//! The store keeps one `key hex` line per snapshot slot, keys in order. A restarted lane
//! reads them back and can then tell a repeated snapshot from a replacement.

use vstd::prelude::*;

use crate::digest::{hex_decode, hex_decoded, hex_encode, hex_lower};
use crate::strmap::{StrMap, keys_sorted, last_value, lookup, overlaid};
use crate::text::{chars_of, has_char, owned, push_str};

verus! {

/// Why the store refused a key or a file.
#[derive(Debug, Clone, Copy, PartialEq, Eq, Structural)]
pub enum SnapshotStoreError {
    InvalidKey,
    MissingSplit,
    InvalidHex,
    WrongLength,
}

impl SnapshotStoreError {
    /// What went wrong, in words.
    pub fn message(self) -> (r: &'static str)
        ensures
            self == SnapshotStoreError::InvalidKey ==> r@
                == "snapshot hash key is empty or contains whitespace"@,
            self == SnapshotStoreError::MissingSplit ==> r@
                == "snapshot hash line is missing a key/hash split"@,
            self == SnapshotStoreError::InvalidHex ==> r@ == "snapshot hash is not valid hex"@,
            self == SnapshotStoreError::WrongLength ==> r@ == "snapshot hash must be 32 bytes"@,
    {
        match self {
            SnapshotStoreError::InvalidKey => "snapshot hash key is empty or contains whitespace",
            SnapshotStoreError::MissingSplit => "snapshot hash line is missing a key/hash split",
            SnapshotStoreError::InvalidHex => "snapshot hash is not valid hex",
            SnapshotStoreError::WrongLength => "snapshot hash must be 32 bytes",
        }
    }
}

/// A key the store accepts: nonempty, without space, newline or tab.
pub open spec fn store_key_ok(k: Seq<char>) -> bool {
    k.len() > 0 && !has_char(k, ' ') && !has_char(k, '\n') && !has_char(k, '\t')
}

/// A key that survives a round trip through the file: no space, no newline.
pub open spec fn key_renders(k: Seq<char>) -> bool {
    !has_char(k, ' ') && !has_char(k, '\n')
}

/// Index of the first `c` at or after `i`, or the length of `s`.
pub open spec fn scan_to(s: Seq<char>, c: char, i: nat) -> nat
    decreases s.len() - i,
{
    if i < s.len() && s[i as int] != c {
        scan_to(s, c, i + 1)
    } else {
        i
    }
}

pub proof fn lemma_scan_to(s: Seq<char>, c: char, i: nat)
    requires
        i <= s.len(),
    ensures
        i <= scan_to(s, c, i) <= s.len(),
        forall|j: int| i <= j < scan_to(s, c, i) ==> s[j] != c,
        scan_to(s, c, i) < s.len() ==> s[scan_to(s, c, i) as int] == c,
    decreases s.len() - i,
{
    if i < s.len() && s[i as int] != c {
        lemma_scan_to(s, c, i + 1);
    }
}

/// The line from `i` to the newline at `e`, less a carriage return just before that
/// newline.
pub open spec fn line_text(s: Seq<char>, i: nat, e: nat) -> Seq<char> {
    if e < s.len() && e > i && s[e - 1] == '\r' {
        s.subrange(i as int, e - 1)
    } else {
        s.subrange(i as int, e as int)
    }
}

/// The lines of `s` from position `i` on, as `str::lines` yields them.
pub open spec fn lines_from(s: Seq<char>, i: nat) -> Seq<Seq<char>>
    decreases s.len() + 1 - i,
{
    if i >= s.len() {
        seq![]
    } else {
        let e = scan_to(s, '\n', i);
        proof {
            lemma_scan_to(s, '\n', i);
        }
        seq![line_text(s, i, e)] + lines_from(s, e + 1)
    }
}

/// The digest whose bytes are `b`.
pub open spec fn to_hash(b: Seq<u8>) -> [u8; 32] {
    choose|a: [u8; 32]| a@ == b
}

/// One line of the file: the key, a space, the hash in hex.
pub open spec fn parse_line(l: Seq<char>) -> Result<(Seq<char>, [u8; 32]), SnapshotStoreError> {
    let p = scan_to(l, ' ', 0);
    if p >= l.len() {
        Err(SnapshotStoreError::MissingSplit)
    } else {
        match hex_decoded(l.subrange(p + 1int, l.len() as int)) {
            None => Err(SnapshotStoreError::InvalidHex),
            Some(b) => if b.len() != 32 {
                Err(SnapshotStoreError::WrongLength)
            } else {
                Ok((l.subrange(0, p as int), to_hash(b)))
            },
        }
    }
}

/// The entries of the lines, in order, empty lines skipped; the first bad line fails.
pub open spec fn parse_entries(lines: Seq<Seq<char>>) -> Result<
    Seq<(Seq<char>, [u8; 32])>,
    SnapshotStoreError,
>
    decreases lines.len(),
{
    if lines.len() == 0 {
        Ok(seq![])
    } else if lines[0].len() == 0 {
        parse_entries(lines.drop_first())
    } else {
        match parse_line(lines[0]) {
            Err(e) => Err(e),
            Ok(entry) => match parse_entries(lines.drop_first()) {
                Err(e) => Err(e),
                Ok(rest) => Ok(seq![entry] + rest),
            },
        }
    }
}

/// The line that stores `hash` under `key`.
pub open spec fn entry_line(key: Seq<char>, hash: [u8; 32]) -> Seq<char> {
    key + seq![' '] + hex_lower(hash@) + seq!['\n']
}

/// The file body for `s`: one line per entry, in order.
pub open spec fn render_entries(s: Seq<(Seq<char>, [u8; 32])>) -> Seq<char>
    decreases s.len(),
{
    if s.len() == 0 {
        seq![]
    } else {
        render_entries(s.drop_last()) + entry_line(s.last().0, s.last().1)
    }
}

/// The result of parsing the rest of the file, after the entries `acc` of the lines read so
/// far.
pub open spec fn after_entries(
    acc: Seq<(Seq<char>, [u8; 32])>,
    r: Result<Seq<(Seq<char>, [u8; 32])>, SnapshotStoreError>,
) -> Result<Seq<(Seq<char>, [u8; 32])>, SnapshotStoreError> {
    match r {
        Ok(es) => Ok(acc + es),
        Err(e) => Err(e),
    }
}

/// Every key stored in `m` survives a round trip through the file.
pub open spec fn keys_render(m: Seq<(Seq<char>, [u8; 32])>) -> bool {
    forall|k: Seq<char>| #[trigger] lookup(m, k) is Some ==> key_renders(k)
}

/// Reads the file body: each nonempty line is a key, one space and 64 hex digits; later
/// lines override earlier ones under the same key.
pub fn parse_snapshot_hash_file(body: &str) -> (r: Result<StrMap<[u8; 32]>, SnapshotStoreError>)
    ensures
        match parse_entries(lines_from(body@, 0)) {
            Ok(es) => r matches Ok(m) && overlaid(Seq::empty(), es, m@) && keys_render(m@),
            Err(e) => r == Err::<StrMap<[u8; 32]>, SnapshotStoreError>(e),
        },
{
    let cs = chars_of(body);
    let n = cs.len();
    let ghost s = body@;
    let mut map: StrMap<[u8; 32]> = StrMap::new();
    let ghost mut acc: Seq<(Seq<char>, [u8; 32])> = seq![];
    let mut i: usize = 0;
    while i < n
        invariant
            n == s.len(),
            cs@ == s,
            s == body@,
            i <= n,
            parse_entries(lines_from(s, 0)) == after_entries(
                acc,
                parse_entries(lines_from(s, i as nat)),
            ),
            overlaid(Seq::empty(), acc, map@),
            keys_render(map@),
        decreases n + 1 - i,
    {
        let mut e = i;
        while e < n && cs[e] != '\n'
            invariant
                i <= e <= n,
                n == s.len(),
                cs@ == s,
                scan_to(s, '\n', e as nat) == scan_to(s, '\n', i as nat),
                forall|j: int| i <= j < e ==> s[j] != '\n',
            decreases n - e,
        {
            e = e + 1;
        }
        proof {
            lemma_scan_to(s, '\n', i as nat);
        }
        let ghost rest = lines_from(s, (e + 1) as nat);
        let ghost line = line_text(s, i as nat, e as nat);
        assert(lines_from(s, i as nat) == seq![line] + rest);
        assert((seq![line] + rest).drop_first() =~= rest);
        assert((seq![line] + rest)[0] == line);
        let le = if e < n && e > i && cs[e - 1] == '\r' {
            e - 1
        } else {
            e
        };
        assert(line =~= s.subrange(i as int, le as int));
        let next = if e < n {
            e + 1
        } else {
            n
        };
        assert(lines_from(s, next as nat) == rest);
        if le == i {
            i = next;
            continue ;
        }
        let mut p = i;
        while p < le && cs[p] != ' '
            invariant
                i <= p <= le <= n,
                n == s.len(),
                cs@ == s,
                line == s.subrange(i as int, le as int),
                scan_to(line, ' ', (p - i) as nat) == scan_to(line, ' ', 0),
                forall|j: int| i <= j < p ==> s[j] != ' ',
            decreases le - p,
        {
            assert(line[p - i] == s[p as int]);
            p = p + 1;
        }
        assert(p < le ==> line[p - i] == s[p as int]);
        assert(scan_to(line, ' ', (p - i) as nat) == (p - i) as nat);
        if p >= le {
            return Err(SnapshotStoreError::MissingSplit);
        }
        let hex = body.substring_char(p + 1, le);
        assert(hex@ =~= line.subrange((p - i) + 1int, line.len() as int));
        let decoded = match hex_decode(hex) {
            None => {
                return Err(SnapshotStoreError::InvalidHex);
            },
            Some(v) => v,
        };
        if decoded.len() != 32 {
            return Err(SnapshotStoreError::WrongLength);
        }
        let hash = crate::digest::digest_from_vec(&decoded);
        let key = owned(body.substring_char(i, p));
        assert(key@ =~= line.subrange(0, (p - i) as int));
        assert(to_hash(decoded@) == hash) by {
            broadcast use vstd::array::group_array_axioms;

            let a = to_hash(decoded@);
            assert(a@ == decoded@);
            assert(a =~= hash);
        }
        let ghost entry = (key@, hash);
        assert(parse_line(line) == Ok::<(Seq<char>, [u8; 32]), SnapshotStoreError>(entry));
        proof {
            assert(!has_char(key@, ' ')) by {
                if has_char(key@, ' ') {
                    let j = choose|j: int| 0 <= j < key@.len() && key@[j] == ' ';
                    assert(s[i + j] == ' ');
                }
            }
            assert(!has_char(key@, '\n')) by {
                if has_char(key@, '\n') {
                    let j = choose|j: int| 0 <= j < key@.len() && key@[j] == '\n';
                    assert(s[i + j] == '\n');
                }
            }
            match parse_entries(rest) {
                Ok(es) => {
                    assert(acc + (seq![entry] + es) =~= acc.push(entry) + es);
                },
                Err(_) => {},
            }
        }
        let ghost before = map@;
        map.insert(key, hash);
        proof {
            let old_acc = acc;
            acc = acc.push(entry);
            assert(acc.drop_last() =~= old_acc);
        }
        i = next;
    }
    assert(lines_from(s, i as nat) =~= Seq::<Seq<char>>::empty());
    assert(acc + Seq::<(Seq<char>, [u8; 32])>::empty() =~= acc);
    Ok(map)
}

/// Plain values of a [`SnapshotHashStore`].
pub struct StoreModel {
    pub path: Seq<char>,
    pub hashes: Seq<(Seq<char>, [u8; 32])>,
}

/// The stored snapshot hash of each slot, with the path of the file that keeps them.
///
/// Reading and writing the file is the caller's part: [`SnapshotHashStore::open`] takes
/// the body read from `path`, and [`SnapshotHashStore::render`] gives the body to write.
#[derive(Debug)]
pub struct SnapshotHashStore {
    path: String,
    hashes: StrMap<[u8; 32]>,
}

impl View for SnapshotHashStore {
    type V = StoreModel;

    closed spec fn view(&self) -> StoreModel {
        StoreModel { path: self.path@, hashes: self.hashes@ }
    }
}

/// The entries `entries` all have keys the store accepts.
pub open spec fn all_keys_ok(entries: Seq<(Seq<char>, [u8; 32])>) -> bool {
    forall|i: int| 0 <= i < entries.len() ==> store_key_ok(#[trigger] entries[i].0)
}

impl SnapshotHashStore {
    #[verifier::type_invariant]
    closed spec fn inv(self) -> bool {
        keys_render(self.hashes@)
    }

    /// The store kept at `path`, given the file's body, or `None` where there is no file.
    pub fn open(path: &str, existing: Option<&str>) -> (r: Result<Self, SnapshotStoreError>)
        ensures
            match existing {
                None => r matches Ok(st) && st@.path == path@ && st@.hashes.len() == 0,
                Some(body) => match parse_entries(lines_from(body@, 0)) {
                    Ok(es) => r matches Ok(st) && st@.path == path@ && overlaid(
                        Seq::empty(),
                        es,
                        st@.hashes,
                    ),
                    Err(e) => r == Err::<Self, SnapshotStoreError>(e),
                },
            },
    {
        match existing {
            None => Ok(SnapshotHashStore { path: owned(path), hashes: StrMap::new() }),
            Some(body) => match parse_snapshot_hash_file(body) {
                Ok(hashes) => Ok(SnapshotHashStore { path: owned(path), hashes }),
                Err(e) => Err(e),
            },
        }
    }

    pub fn path(&self) -> (r: &str)
        ensures
            r@ == self@.path,
    {
        self.path.as_str()
    }

    /// The stored hash of `key`.
    pub fn get(&self, key: &str) -> (r: Option<[u8; 32]>)
        ensures
            r == lookup(self@.hashes, key@),
    {
        match self.hashes.get(key) {
            Some(h) => Some(*h),
            None => None,
        }
    }

    /// All stored hashes, keys in order.
    pub fn hashes(&self) -> (r: &StrMap<[u8; 32]>)
        ensures
            r@ == self@.hashes,
            keys_sorted(r@),
            keys_render(r@),
    {
        proof {
            use_type_invariant(self);
        }
        let _ = self.hashes.len();
        &self.hashes
    }

    /// Stores `hash` under `key`, if the store accepts the key.
    pub fn upsert(&mut self, key: &str, hash: [u8; 32]) -> (r: Result<(), SnapshotStoreError>)
        ensures
            store_key_ok(key@) ==> r is Ok && final(self)@.path == old(self)@.path && forall|
                k: Seq<char>,
            | #[trigger]
                lookup(final(self)@.hashes, k) == if k == key@ {
                    Some(hash)
                } else {
                    lookup(old(self)@.hashes, k)
                },
            !store_key_ok(key@) ==> r == Err::<(), SnapshotStoreError>(
                SnapshotStoreError::InvalidKey,
            ) && final(self)@.path == old(self)@.path && forall|k: Seq<char>| #[trigger]
                lookup(final(self)@.hashes, k) == lookup(old(self)@.hashes, k),
    {
        let mut entries: Vec<(String, [u8; 32])> = Vec::new();
        entries.push((owned(key), hash));
        let ghost es = entries@.map_values(|e: (String, [u8; 32])| (e.0@, e.1));
        assert(es =~= seq![(key@, hash)]);
        assert(es.take(0) =~= Seq::<(Seq<char>, [u8; 32])>::empty());
        assert(es.take(1) =~= es);
        let r = self.extend(&entries);
        proof {
            assert(es.last() == (key@, hash));
            assert forall|k: Seq<char>| #[trigger] last_value(es, k) == if k == key@ {
                Some(hash)
            } else {
                None::<[u8; 32]>
            } by {
                reveal_with_fuel(last_value, 2);
                assert(es.drop_last().len() == 0);
            }
            if !store_key_ok(key@) {
                assert(!store_key_ok(es[0].0));
                assert forall|k: Seq<char>| #[trigger] last_value(es.take(0), k) is None by {
                    assert(es.take(0).len() == 0);
                }
            }
        }
        r
    }

    /// Stores the entries one after another up to the first key the store refuses.
    pub fn extend(&mut self, entries: &Vec<(String, [u8; 32])>) -> (r: Result<
        (),
        SnapshotStoreError,
    >)
        ensures
            ({
                let es = entries@.map_values(|e: (String, [u8; 32])| (e.0@, e.1));
                &&& final(self)@.path == old(self)@.path
                &&& all_keys_ok(es) ==> r is Ok && overlaid(
                    old(self)@.hashes,
                    es,
                    final(self)@.hashes,
                )
                &&& !all_keys_ok(es) ==> r == Err::<(), SnapshotStoreError>(
                    SnapshotStoreError::InvalidKey,
                ) && exists|n: int|
                    0 <= n < es.len() && !store_key_ok(#[trigger] es[n].0) && all_keys_ok(
                        es.take(n),
                    ) && overlaid(old(self)@.hashes, es.take(n), final(self)@.hashes)
            }),
    {
        proof {
            use_type_invariant(&*self);
        }
        let ghost es = entries@.map_values(|e: (String, [u8; 32])| (e.0@, e.1));
        let ghost pre = self@.hashes;
        let mut hashes: StrMap<[u8; 32]> = StrMap::new();
        std::mem::swap(&mut hashes, &mut self.hashes);
        let mut i: usize = 0;
        while i < entries.len()
            invariant
                i <= entries@.len(),
                es == entries@.map_values(|e: (String, [u8; 32])| (e.0@, e.1)),
                all_keys_ok(es.take(i as int)),
                overlaid(pre, es.take(i as int), hashes@),
                keys_render(pre),
                keys_render(hashes@),
                self@.path == old(self)@.path,
                pre == old(self)@.hashes,
            decreases entries@.len() - i,
        {
            let key = entries[i].0.as_str();
            assert(es[i as int].0 == key@);
            let c = chars_of(key);
            if c.len() == 0 || crate::text::seq_has_char(&c, ' ') || crate::text::seq_has_char(
                &c,
                '\n',
            ) || crate::text::seq_has_char(&c, '\t') {
                self.hashes = hashes;
                proof {
                    assert(!store_key_ok(es[i as int].0));
                    assert(!all_keys_ok(es));
                    assert(0 <= i < es.len() && all_keys_ok(es.take(i as int)) && overlaid(
                        old(self)@.hashes,
                        es.take(i as int),
                        self@.hashes,
                    ));
                    assert(self@.path == old(self)@.path);
                }
                return Err(SnapshotStoreError::InvalidKey);
            }
            hashes.insert(owned(key), entries[i].1);
            proof {
                assert(es.take(i + 1).drop_last() =~= es.take(i as int));
                assert(es.take(i + 1).last() == es[i as int]);
                assert(all_keys_ok(es.take(i + 1))) by {
                    assert forall|j: int| 0 <= j < i + 1 implies store_key_ok(
                        #[trigger] es.take(i + 1)[j].0,
                    ) by {
                        if j < i {
                            assert(es.take(i + 1)[j] == es.take(i as int)[j]);
                        }
                    }
                }
            }
            i = i + 1;
        }
        assert(es.take(es.len() as int) =~= es);
        self.hashes = hashes;
        Ok(())
    }

    /// The file body: one `key hex` line per stored hash, keys in order.
    pub fn render(&self) -> (r: String)
        ensures
            r@ == render_entries(self@.hashes),
    {
        let n = self.hashes.len();
        let mut body = String::new();
        let mut i: usize = 0;
        while i < n
            invariant
                i <= n,
                n == self@.hashes.len(),
                body@ == render_entries(self@.hashes.take(i as int)),
            decreases n - i,
        {
            let key = self.hashes.key_at(i);
            let hash = *self.hashes.value_at(i);
            push_str(&mut body, key);
            push_str(&mut body, " ");
            let hex = hex_encode(hash.as_slice());
            push_str(&mut body, hex.as_str());
            push_str(&mut body, "\n");
            proof {
                reveal_strlit(" ");
                reveal_strlit("\n");
                let t = self@.hashes.take(i + 1);
                assert(t.drop_last() =~= self@.hashes.take(i as int));
                assert(t.last() == self@.hashes[i as int]);
                assert(body@ =~= render_entries(t));
            }
            i = i + 1;
        }
        assert(self@.hashes.take(n as int) =~= self@.hashes);
        body
    }
}

proof fn lemma_scan_to_at(s: Seq<char>, c: char, i: nat, m: nat)
    requires
        i <= m <= s.len(),
        forall|j: int| i <= j < m ==> s[j] != c,
        m < s.len() ==> s[m as int] == c,
    ensures
        scan_to(s, c, i) == m,
    decreases m - i,
{
    if i < m {
        lemma_scan_to_at(s, c, i + 1, m);
    }
}

proof fn lemma_scan_to_shift(x: Seq<char>, b: Seq<char>, c: char, i: nat)
    requires
        i <= b.len(),
    ensures
        scan_to(x + b, c, x.len() + i) == x.len() + scan_to(b, c, i),
    decreases b.len() - i,
{
    let s = x + b;
    if i < b.len() {
        assert(s[(x.len() + i) as int] == b[i as int]);
        if b[i as int] != c {
            lemma_scan_to_shift(x, b, c, i + 1);
            assert(x.len() + (i + 1) == (x.len() + i) + 1);
        }
    }
}

proof fn lemma_lines_from_shift(x: Seq<char>, b: Seq<char>, i: nat)
    requires
        i <= b.len() + 1,
    ensures
        lines_from(x + b, x.len() + i) == lines_from(b, i),
    decreases b.len() + 1 - i,
{
    let s = x + b;
    if i < b.len() {
        let e = scan_to(b, '\n', i);
        lemma_scan_to(b, '\n', i);
        lemma_scan_to_shift(x, b, '\n', i);
        lemma_lines_from_shift(x, b, e + 1);
        assert(x.len() + (e + 1) == (x.len() + e) + 1);
        let es = (x.len() + e) as nat;
        if e < b.len() && e > i && b[e - 1] == '\r' {
            assert(s[es - 1] == b[e - 1]);
            assert(s.subrange((x.len() + i) as int, es - 1) =~= b.subrange(i as int, e - 1));
        } else {
            if es < s.len() && es > x.len() + i {
                assert(s[es - 1] == b[e - 1]);
            }
            assert(s.subrange((x.len() + i) as int, es as int) =~= b.subrange(i as int, e as int));
        }
        assert(line_text(s, x.len() + i, es) == line_text(b, i, e));
    }
}

/// The digits of a hex string land two per byte.
proof fn lemma_hex_lower_at(d: Seq<u8>)
    ensures
        hex_lower(d).len() == 2 * d.len(),
        forall|i: int|
            0 <= i < d.len() ==> hex_lower(d)[2 * i] == crate::digest::hex_digit(#[trigger] d[i] / 16)
                && hex_lower(d)[2 * i + 1] == crate::digest::hex_digit(d[i] % 16),
    decreases d.len(),
{
    if d.len() > 0 {
        lemma_hex_lower_at(d.drop_first());
        let t = d.drop_first();
        assert forall|i: int| 0 <= i < d.len() implies hex_lower(d)[2 * i]
            == crate::digest::hex_digit(#[trigger] d[i] / 16) && hex_lower(d)[2 * i + 1]
            == crate::digest::hex_digit(d[i] % 16) by {
            if i > 0 {
                assert(d[i] == t[i - 1]);
                assert(2 * i == 2 + 2 * (i - 1));
            }
        }
    }
}

proof fn lemma_hex_digit_value(n: u8)
    requires
        n < 16,
    ensures
        crate::digest::hex_value(crate::digest::hex_digit(n)) == Some(n),
{
}

/// Decoding an encoding gives the bytes back.
pub proof fn lemma_hex_roundtrip(d: Seq<u8>)
    ensures
        hex_decoded(hex_lower(d)) == Some(d),
{
    let s = hex_lower(d);
    lemma_hex_lower_at(d);
    assert forall|i: int| 0 <= i < s.len() implies crate::digest::hex_value(#[trigger] s[i]) is Some by {
        let b = i / 2;
        if i % 2 == 0 {
            assert(i == 2 * b);
            lemma_hex_digit_value(d[b] / 16);
        } else {
            assert(i == 2 * b + 1);
            lemma_hex_digit_value(d[b] % 16);
        }
    }
    let decoded = Seq::new(
        s.len() / 2,
        |i: int|
            (crate::digest::hex_value(s[2 * i])->Some_0 * 16 + crate::digest::hex_value(
                s[2 * i + 1],
            )->Some_0) as u8,
    );
    assert forall|i: int| 0 <= i < d.len() implies decoded[i] == d[i] by {
        lemma_hex_digit_value(d[i] / 16);
        lemma_hex_digit_value(d[i] % 16);
        assert((d[i] / 16) * 16 + d[i] % 16 == d[i]);
    }
    assert(decoded =~= d);
}

proof fn lemma_render_front(s: Seq<(Seq<char>, [u8; 32])>)
    requires
        s.len() > 0,
    ensures
        render_entries(s) == entry_line(s[0].0, s[0].1) + render_entries(s.drop_first()),
    decreases s.len(),
{
    let first = entry_line(s[0].0, s[0].1);
    if s.len() > 1 {
        lemma_render_front(s.drop_last());
        assert(s.drop_last().drop_first() =~= s.drop_first().drop_last());
        assert(s.drop_first().last() == s.last());
        assert(s.drop_last()[0] == s[0]);
        let mid = render_entries(s.drop_last().drop_first());
        let last = entry_line(s.last().0, s.last().1);
        assert(render_entries(s.drop_first()) == mid + last);
        assert((first + mid) + last =~= first + (mid + last));
    } else {
        assert(s.drop_first().len() == 0);
        assert(s.drop_last().len() == 0);
        assert(render_entries(s.drop_last()) =~= Seq::<char>::empty());
        assert(render_entries(s.drop_first()) =~= Seq::<char>::empty());
        assert(Seq::<char>::empty() + first =~= first + Seq::<char>::empty());
    }
}

/// The text of a rendered line, without its newline.
pub open spec fn entry_text(key: Seq<char>, hash: [u8; 32]) -> Seq<char> {
    key + seq![' '] + hex_lower(hash@)
}

proof fn lemma_entry_line_parses(key: Seq<char>, hash: [u8; 32])
    requires
        key_renders(key),
    ensures
        entry_text(key, hash).len() > 0,
        !has_char(entry_text(key, hash), '\n'),
        entry_text(key, hash).last() != '\r',
        parse_line(entry_text(key, hash)) == Ok::<(Seq<char>, [u8; 32]), SnapshotStoreError>(
            (key, hash),
        ),
{
    let l = entry_text(key, hash);
    let hx = hex_lower(hash@);
    lemma_hex_lower_at(hash@);
    lemma_hex_roundtrip(hash@);
    assert(hash@.len() == 32);
    assert forall|j: int| 0 <= j < hx.len() implies crate::digest::hex_value(#[trigger] hx[j]) is Some by {
        let b = j / 2;
        if j % 2 == 0 {
            assert(j == 2 * b);
            lemma_hex_digit_value(hash@[b] / 16);
        } else {
            assert(j == 2 * b + 1);
            lemma_hex_digit_value(hash@[b] % 16);
        }
    }
    assert(!has_char(l, '\n')) by {
        if has_char(l, '\n') {
            let j = choose|j: int| 0 <= j < l.len() && l[j] == '\n';
            if j < key.len() {
                assert(key[j] == l[j]);
            } else if j > key.len() {
                assert(hx[j - key.len() - 1] == l[j]);
            }
        }
    }
    assert(l.last() == hx[63]);
    assert forall|j: int| 0 <= j < key.len() implies l[j] != ' ' by {
        assert(l[j] == key[j]);
        if key[j] == ' ' {
            assert(has_char(key, ' '));
        }
    }
    lemma_scan_to_at(l, ' ', 0, key.len());
    assert(l.subrange(key.len() + 1int, l.len() as int) =~= hx);
    assert(l.subrange(0, key.len() as int) =~= key);
    assert(to_hash(hash@) == hash) by {
        broadcast use vstd::array::group_array_axioms;

        let a = to_hash(hash@);
        assert(a@ == hash@);
        assert(a =~= hash);
    }
}

proof fn lemma_first_line(key: Seq<char>, hash: [u8; 32], b: Seq<char>)
    requires
        key_renders(key),
    ensures
        lines_from(entry_line(key, hash) + b, 0) == seq![entry_text(key, hash)] + lines_from(b, 0),
{
    let t = entry_text(key, hash);
    let x = entry_line(key, hash);
    let s = x + b;
    lemma_entry_line_parses(key, hash);
    assert(x =~= t + seq!['\n']);
    assert forall|j: int| 0 <= j < t.len() implies s[j] != '\n' by {
        assert(s[j] == t[j]);
        if t[j] == '\n' {
            assert(has_char(t, '\n'));
        }
    }
    assert(s[t.len() as int] == '\n');
    lemma_scan_to_at(s, '\n', 0, t.len());
    assert(s[t.len() - 1] == t.last());
    assert(s.subrange(0, t.len() as int) =~= t);
    assert(line_text(s, 0, t.len()) == t);
    lemma_lines_from_shift(x, b, 0);
    assert(x.len() == t.len() + 1);
}

/// The lines a rendered body reads back as.
pub open spec fn entry_texts(s: Seq<(Seq<char>, [u8; 32])>) -> Seq<Seq<char>> {
    s.map_values(|e: (Seq<char>, [u8; 32])| entry_text(e.0, e.1))
}

proof fn lemma_render_lines(s: Seq<(Seq<char>, [u8; 32])>)
    requires
        forall|i: int| 0 <= i < s.len() ==> key_renders(#[trigger] s[i].0),
    ensures
        lines_from(render_entries(s), 0) == entry_texts(s),
        parse_entries(entry_texts(s)) == Ok::<Seq<(Seq<char>, [u8; 32])>, SnapshotStoreError>(s),
    decreases s.len(),
{
    if s.len() == 0 {
        assert(entry_texts(s) =~= Seq::<Seq<char>>::empty());
        assert(s =~= Seq::<(Seq<char>, [u8; 32])>::empty());
    } else {
        let d = s.drop_first();
        assert forall|i: int| 0 <= i < d.len() implies key_renders(#[trigger] d[i].0) by {
            assert(d[i] == s[i + 1int]);
        }
        lemma_render_lines(d);
        lemma_render_front(s);
        assert(key_renders(s[0].0));
        lemma_first_line(s[0].0, s[0].1, render_entries(d));
        lemma_entry_line_parses(s[0].0, s[0].1);
        assert(entry_texts(s) =~= seq![entry_text(s[0].0, s[0].1)] + entry_texts(d));
        assert(entry_texts(s).drop_first() =~= entry_texts(d));
        assert(entry_texts(s)[0] == entry_text(s[0].0, s[0].1));
        assert(entry_texts(s)[0].len() > 0);
        assert(seq![(s[0].0, s[0].1)] + d =~= s);
    }
}

/// A body rendered from sorted keys that survive the file reads back as the same entries.
pub proof fn law_render_then_parse(s: Seq<(Seq<char>, [u8; 32])>)
    requires
        keys_sorted(s),
        forall|i: int| 0 <= i < s.len() ==> key_renders(#[trigger] s[i].0),
    ensures
        parse_entries(lines_from(render_entries(s), 0)) == Ok::<
            Seq<(Seq<char>, [u8; 32])>,
            SnapshotStoreError,
        >(s),
        forall|m: Seq<(Seq<char>, [u8; 32])>, k: Seq<char>|
            overlaid(Seq::empty(), s, m) ==> #[trigger] lookup(m, k) == lookup(s, k),
{
    lemma_render_lines(s);
    assert forall|m: Seq<(Seq<char>, [u8; 32])>, k: Seq<char>|
        overlaid(Seq::empty(), s, m) implies #[trigger] lookup(m, k) == lookup(s, k) by {
        crate::strmap::lemma_last_value_sorted(s, k);
        assert(lookup(m, k) == match last_value(s, k) {
            Some(v) => Some(v),
            None => lookup(Seq::<(Seq<char>, [u8; 32])>::empty(), k),
        });
    }
}

} // verus!
