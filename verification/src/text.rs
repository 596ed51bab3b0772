//! Character-level helpers over `str` used by the validators.

use vstd::prelude::*;
use vstd::string::*;
use vstd::utf8::encode_utf8;

verus! {

/// Unicode `White_Space`, the set that `char::is_whitespace` and `str::trim` use.
pub open spec fn is_ws(c: char) -> bool {
    let v = c as u32;
    ||| 0x09 <= v <= 0x0D
    ||| v == 0x20
    ||| v == 0x85
    ||| v == 0xA0
    ||| v == 0x1680
    ||| 0x2000 <= v <= 0x200A
    ||| v == 0x2028
    ||| v == 0x2029
    ||| v == 0x202F
    ||| v == 0x205F
    ||| v == 0x3000
}

/// Unicode general category `Cc`, the set that `char::is_control` uses.
pub open spec fn is_ctl(c: char) -> bool {
    let v = c as u32;
    v <= 0x1F || (0x7F <= v <= 0x9F)
}

/// `s.trim() == s`: neither end is whitespace.
pub open spec fn trimmed(s: Seq<char>) -> bool {
    s.len() == 0 || (!is_ws(s[0]) && !is_ws(s[s.len() - 1]))
}

/// Some character of `s` is a control character.
pub open spec fn has_control(s: Seq<char>) -> bool {
    exists|i: int| 0 <= i < s.len() && is_ctl(#[trigger] s[i])
}

/// Some character of `s` equals `c`.
pub open spec fn has_char(s: Seq<char>, c: char) -> bool {
    exists|i: int| 0 <= i < s.len() && #[trigger] s[i] == c
}

/// `p` is a prefix of `s`.
pub open spec fn starts_with(s: Seq<char>, p: Seq<char>) -> bool {
    p.len() <= s.len() && s.subrange(0, p.len() as int) == p
}

/// `p` is a suffix of `s`.
pub open spec fn ends_with(s: Seq<char>, p: Seq<char>) -> bool {
    p.len() <= s.len() && s.subrange(s.len() - p.len(), s.len() as int) == p
}

/// `p` occurs in `s` at position `i`.
pub open spec fn occurs_at(s: Seq<char>, p: Seq<char>, i: int) -> bool {
    0 <= i && i + p.len() <= s.len() && s.subrange(i, i + p.len()) == p
}

/// `p` occurs somewhere in `s`.
pub open spec fn contains(s: Seq<char>, p: Seq<char>) -> bool {
    exists|i: int| occurs_at(s, p, i)
}

/// Number of UTF-8 bytes that encode `s`, as `str::len` reports it.
pub open spec fn byte_len(s: Seq<char>) -> usize {
    encode_utf8(s).len() as usize
}

/// A nonempty, unpadded, control-free identity of at most `max` bytes.
pub open spec fn identity_ok(s: Seq<char>, max: nat) -> bool {
    &&& s.len() > 0
    &&& trimmed(s)
    &&& byte_len(s) <= max
    &&& !has_control(s)
}

pub open spec fn is_digit(c: char) -> bool {
    '0' <= c <= '9'
}

/// Every character is an ASCII digit.
pub open spec fn all_digits(s: Seq<char>) -> bool {
    forall|i: int| 0 <= i < s.len() ==> is_digit(#[trigger] s[i])
}

/// Collects the characters of `s` in order.
pub fn chars_of(s: &str) -> (out: Vec<char>)
    ensures
        out@ == s@,
{
    let mut out: Vec<char> = Vec::new();
    for c in it: s.chars()
        invariant
            out@ == it.seq().take(it.index() as int),
            it.seq() == s@,
    {
        out.push(c);
    }
    out
}

pub fn char_is_ws(c: char) -> (r: bool)
    ensures
        r == is_ws(c),
{
    let v = c as u32;
    (0x09 <= v && v <= 0x0D) || v == 0x20 || v == 0x85 || v == 0xA0 || v == 0x1680 || (0x2000
        <= v && v <= 0x200A) || v == 0x2028 || v == 0x2029 || v == 0x202F || v == 0x205F || v
        == 0x3000
}

pub fn char_is_ctl(c: char) -> (r: bool)
    ensures
        r == is_ctl(c),
{
    let v = c as u32;
    v <= 0x1F || (0x7F <= v && v <= 0x9F)
}

pub fn char_is_digit(c: char) -> (r: bool)
    ensures
        r == is_digit(c),
{
    '0' <= c && c <= '9'
}

/// Whether `s` equals `s.trim()`.
pub fn is_trimmed(s: &str) -> (r: bool)
    ensures
        r == trimmed(s@),
{
    let v = chars_of(s);
    let n = v.len();
    n == 0 || (!char_is_ws(v[0]) && !char_is_ws(v[n - 1]))
}

pub fn seq_has_control(v: &Vec<char>) -> (r: bool)
    ensures
        r == has_control(v@),
{
    let mut i: usize = 0;
    while i < v.len()
        invariant
            i <= v.len(),
            forall|j: int| 0 <= j < i ==> !is_ctl(#[trigger] v@[j]),
        decreases v.len() - i,
    {
        if char_is_ctl(v[i]) {
            return true;
        }
        i = i + 1;
    }
    false
}

/// Whether some character of `s` is a control character.
pub fn any_control(s: &str) -> (r: bool)
    ensures
        r == has_control(s@),
{
    let v = chars_of(s);
    seq_has_control(&v)
}

pub fn seq_all_digits(v: &Vec<char>) -> (r: bool)
    ensures
        r == all_digits(v@),
{
    let mut i: usize = 0;
    while i < v.len()
        invariant
            i <= v.len(),
            forall|j: int| 0 <= j < i ==> is_digit(#[trigger] v@[j]),
        decreases v.len() - i,
    {
        if !char_is_digit(v[i]) {
            return false;
        }
        i = i + 1;
    }
    true
}

pub fn seq_has_char(v: &Vec<char>, c: char) -> (r: bool)
    ensures
        r == has_char(v@, c),
{
    let mut i: usize = 0;
    while i < v.len()
        invariant
            i <= v.len(),
            forall|j: int| 0 <= j < i ==> #[trigger] v@[j] != c,
        decreases v.len() - i,
    {
        if v[i] == c {
            return true;
        }
        i = i + 1;
    }
    false
}

/// Whether some character of `s` is `c`.
pub fn str_has_char(s: &str, c: char) -> (r: bool)
    ensures
        r == has_char(s@, c),
{
    let v = chars_of(s);
    seq_has_char(&v, c)
}

/// Whether `p` occurs in `v` at position `i`.
pub fn seq_occurs_at(v: &Vec<char>, p: &Vec<char>, i: usize) -> (r: bool)
    ensures
        r == occurs_at(v@, p@, i as int),
{
    if i > v.len() || p.len() > v.len() - i {
        return false;
    }
    let mut k: usize = 0;
    while k < p.len()
        invariant
            k <= p.len(),
            i + p.len() <= v.len(),
            forall|j: int| 0 <= j < k ==> v@[i + j] == p@[j],
        decreases p.len() - k,
    {
        if v[i + k] != p[k] {
            assert(v@.subrange(i as int, i + p.len())[k as int] != p@[k as int]);
            return false;
        }
        k = k + 1;
    }
    assert(v@.subrange(i as int, i + p.len()) =~= p@);
    true
}

pub fn seq_starts_with(v: &Vec<char>, p: &Vec<char>) -> (r: bool)
    ensures
        r == starts_with(v@, p@),
{
    seq_occurs_at(v, p, 0)
}

pub fn seq_ends_with(v: &Vec<char>, p: &Vec<char>) -> (r: bool)
    ensures
        r == ends_with(v@, p@),
{
    if p.len() > v.len() {
        return false;
    }
    seq_occurs_at(v, p, v.len() - p.len())
}

pub fn seq_contains(v: &Vec<char>, p: &Vec<char>) -> (r: bool)
    ensures
        r == contains(v@, p@),
{
    if p.len() > v.len() {
        assert forall|i: int| !occurs_at(v@, p@, i) by {}
        return false;
    }
    let last = v.len() - p.len();
    let mut i: usize = 0;
    loop
        invariant
            last == v.len() - p.len(),
            p.len() <= v.len(),
            i <= last,
            forall|j: int| 0 <= j < i ==> !occurs_at(v@, p@, j),
        decreases last - i,
    {
        if seq_occurs_at(v, p, i) {
            return true;
        }
        if i == last {
            assert forall|j: int| !occurs_at(v@, p@, j) by {
                if 0 <= j && j + p@.len() <= v@.len() {
                    assert(j <= last);
                }
            }
            return false;
        }
        i = i + 1;
    }
}

/// Whether `p` is a prefix of `s`.
pub fn str_starts_with(s: &str, p: &str) -> (r: bool)
    ensures
        r == starts_with(s@, p@),
{
    let v = chars_of(s);
    let w = chars_of(p);
    seq_starts_with(&v, &w)
}

/// Whether `p` is a suffix of `s`.
pub fn str_ends_with(s: &str, p: &str) -> (r: bool)
    ensures
        r == ends_with(s@, p@),
{
    let v = chars_of(s);
    let w = chars_of(p);
    seq_ends_with(&v, &w)
}

/// Whether `p` occurs in `s`.
pub fn str_contains(s: &str, p: &str) -> (r: bool)
    ensures
        r == contains(s@, p@),
{
    let v = chars_of(s);
    let w = chars_of(p);
    seq_contains(&v, &w)
}

pub fn seq_eq(a: &Vec<char>, b: &Vec<char>) -> (r: bool)
    ensures
        r == (a@ == b@),
{
    if a.len() != b.len() {
        return false;
    }
    let mut i: usize = 0;
    while i < a.len()
        invariant
            a.len() == b.len(),
            i <= a.len(),
            forall|j: int| 0 <= j < i ==> a@[j] == b@[j],
        decreases a.len() - i,
    {
        if a[i] != b[i] {
            return false;
        }
        i = i + 1;
    }
    assert(a@ =~= b@);
    true
}

/// Whether two string slices hold the same characters.
pub fn same_text(a: &str, b: &str) -> (r: bool)
    ensures
        r == (a@ == b@),
{
    let v = chars_of(a);
    let w = chars_of(b);
    seq_eq(&v, &w)
}

/// Whether `s` is a valid identity: nonempty, unpadded, at most `max` bytes, no control
/// characters.
pub fn valid_identity(s: &str, max: usize) -> (r: bool)
    ensures
        r == identity_ok(s@, max as nat),
{
    let v = chars_of(s);
    if v.len() == 0 {
        return false;
    }
    if !is_trimmed(s) {
        return false;
    }
    if s.len() > max {
        return false;
    }
    !seq_has_control(&v)
}

/// Appends `s` to `out`.
pub fn push_str(out: &mut String, s: &str)
    ensures
        final(out)@ == old(out)@ + s@,
{
    out.append(s);
}

/// A fresh `String` holding `s`.
pub fn owned(s: &str) -> (r: String)
    ensures
        r@ == s@,
{
    s.to_owned()
}

/// Index of the first non-whitespace character at or after `i`.
pub open spec fn skip_ws(s: Seq<char>, i: nat) -> nat
    decreases s.len() - i,
{
    if i < s.len() && is_ws(s[i as int]) {
        skip_ws(s, i + 1)
    } else {
        i
    }
}

/// Index of the first whitespace character at or after `i`.
pub open spec fn word_end(s: Seq<char>, i: nat) -> nat
    decreases s.len() - i,
{
    if i < s.len() && !is_ws(s[i as int]) {
        word_end(s, i + 1)
    } else {
        i
    }
}

pub proof fn lemma_skip_ws_ge(s: Seq<char>, i: nat)
    ensures
        skip_ws(s, i) >= i,
        i <= s.len() ==> skip_ws(s, i) <= s.len(),
        skip_ws(s, i) < s.len() ==> !is_ws(s[skip_ws(s, i) as int]),
    decreases s.len() - i,
{
    if i < s.len() && is_ws(s[i as int]) {
        lemma_skip_ws_ge(s, i + 1);
    }
}

pub proof fn lemma_word_end_gt(s: Seq<char>, i: nat)
    ensures
        word_end(s, i) >= i,
        i < s.len() && !is_ws(s[i as int]) ==> word_end(s, i) > i,
        i <= s.len() ==> word_end(s, i) <= s.len(),
    decreases s.len() - i,
{
    if i < s.len() && !is_ws(s[i as int]) {
        lemma_word_end_gt(s, i + 1);
    }
}

/// The maximal whitespace-free runs of `s` from position `i` on, as `split_whitespace`
/// yields them.
pub open spec fn words_from(s: Seq<char>, i: nat) -> Seq<Seq<char>>
    decreases s.len() - i,
{
    let j = skip_ws(s, i);
    if j >= s.len() {
        seq![]
    } else {
        let k = word_end(s, j);
        proof {
            lemma_skip_ws_ge(s, i);
            lemma_word_end_gt(s, j);
        }
        seq![s.subrange(j as int, k as int)] + words_from(s, k)
    }
}

/// The words of `s` as `str::split_whitespace` yields them.
pub open spec fn words(s: Seq<char>) -> Seq<Seq<char>> {
    words_from(s, 0)
}

/// Splits `v` at whitespace, as `str::split_whitespace` does.
pub fn split_words(v: &Vec<char>) -> (out: Vec<Vec<char>>)
    ensures
        out.deep_view() == words(v@),
{
    let mut out: Vec<Vec<char>> = Vec::new();
    let mut i: usize = 0;
    loop
        invariant
            i <= v.len(),
            out.deep_view() + words_from(v@, i as nat) == words(v@),
        decreases v.len() - i,
    {
        let mut j = i;
        while j < v.len() && char_is_ws(v[j])
            invariant
                i <= j <= v.len(),
                skip_ws(v@, j as nat) == skip_ws(v@, i as nat),
            decreases v.len() - j,
        {
            j = j + 1;
        }
        if j == v.len() {
            assert(words_from(v@, i as nat) =~= Seq::<Seq<char>>::empty());
            assert(out.deep_view() + words_from(v@, i as nat) =~= out.deep_view());
            return out;
        }
        let mut k = j;
        while k < v.len() && !char_is_ws(v[k])
            invariant
                j <= k <= v.len(),
                word_end(v@, k as nat) == word_end(v@, j as nat),
            decreases v.len() - k,
        {
            k = k + 1;
        }
        let mut word: Vec<char> = Vec::new();
        let mut m = j;
        while m < k
            invariant
                j <= m <= k <= v.len(),
                word@ == v@.subrange(j as int, m as int),
            decreases k - m,
        {
            word.push(v[m]);
            m = m + 1;
        }
        proof {
            lemma_word_end_gt(v@, j as nat);
            assert(words_from(v@, i as nat) == seq![v@.subrange(j as int, k as int)] + words_from(
                v@,
                k as nat,
            ));
        }
        let ghost prev = out.deep_view();
        assert(word.deep_view() =~= word@);
        let ghost wd = word.deep_view();
        out.push(word);
        assert(out.deep_view().len() == prev.len() + 1);
        assert(out.deep_view()[prev.len() as int] == wd);
        assert(out.deep_view() =~= prev.push(v@.subrange(j as int, k as int)));
        assert(out.deep_view() + words_from(v@, k as nat) =~= prev + words_from(v@, i as nat));
        i = k;
    }
}

/// Value of the ASCII digit `c`.
pub open spec fn digit_value(c: char) -> nat {
    ((c as u32) - ('0' as u32)) as nat
}

/// Value of the decimal numeral `s` (most significant digit first).
pub open spec fn decimal(s: Seq<char>) -> nat
    decreases s.len(),
{
    if s.len() == 0 {
        0
    } else {
        decimal(s.drop_last()) * 10 + digit_value(s.last())
    }
}

pub proof fn lemma_decimal_prefix_le(s: Seq<char>, j: int, k: int)
    requires
        0 <= j <= k <= s.len(),
    ensures
        decimal(s.take(j)) <= decimal(s.take(k)),
    decreases k - j,
{
    if j < k {
        lemma_decimal_prefix_le(s, j, k - 1);
        assert(s.take(k).drop_last() =~= s.take(k - 1));
    }
}

/// What `str::parse` gives for an unsigned integer: an optional `+`, then one or more
/// ASCII digits.
pub open spec fn unsigned_numeral(s: Seq<char>) -> Option<nat> {
    let body = if s.len() > 0 && s[0] == '+' {
        s.drop_first()
    } else {
        s
    };
    if body.len() > 0 && all_digits(body) {
        Some(decimal(body))
    } else {
        None
    }
}

/// Value of an all-digit numeral, if it fits in a `u64`.
pub fn parse_digits_u64(v: &Vec<char>) -> (r: Option<u64>)
    requires
        all_digits(v@),
    ensures
        r == (if decimal(v@) <= u64::MAX {
            Some(decimal(v@) as u64)
        } else {
            None::<u64>
        }),
{
    let mut acc: u64 = 0;
    let mut i: usize = 0;
    while i < v.len()
        invariant
            i <= v.len(),
            all_digits(v@),
            acc == decimal(v@.take(i as int)),
        decreases v.len() - i,
    {
        let d = (v[i] as u32 - '0' as u32) as u64;
        assert(is_digit(v@[i as int]));
        proof {
            assert(v@.take(i + 1).drop_last() =~= v@.take(i as int));
        }
        if acc > (u64::MAX - d) / 10 {
            proof {
                assert(acc * 10 + d > u64::MAX) by (nonlinear_arith)
                    requires
                        acc > (u64::MAX - d) / 10,
                        d <= 9,
                ;
                lemma_decimal_prefix_le(v@, i + 1, v@.len() as int);
                assert(v@.take(v@.len() as int) =~= v@);
            }
            return None;
        }
        assert(acc * 10 + d <= u64::MAX) by (nonlinear_arith)
            requires
                acc <= (u64::MAX - d) / 10,
                d <= 9,
        ;
        acc = acc * 10 + d;
        i = i + 1;
    }
    assert(v@.take(v@.len() as int) =~= v@);
    Some(acc)
}

/// `str::parse::<u64>` on the characters of `v`.
pub fn parse_unsigned(v: &Vec<char>) -> (r: Option<u64>)
    ensures
        r == (match unsigned_numeral(v@) {
            Some(n) => if n <= u64::MAX {
                Some(n as u64)
            } else {
                None::<u64>
            },
            None => None::<u64>,
        }),
{
    let mut body: Vec<char> = Vec::new();
    let start: usize = if v.len() > 0 && v[0] == '+' {
        1
    } else {
        0
    };
    let mut i = start;
    while i < v.len()
        invariant
            start <= i <= v.len(),
            body@ == v@.subrange(start as int, i as int),
        decreases v.len() - i,
    {
        body.push(v[i]);
        i = i + 1;
    }
    proof {
        if start == 1 {
            assert(body@ =~= v@.drop_first());
        } else {
            assert(body@ =~= v@);
        }
    }
    if body.len() == 0 || !seq_all_digits(&body) {
        return None;
    }
    parse_digits_u64(&body)
}

/// Lexicographic order on character sequences by code point, which is the byte order of
/// their UTF-8 encodings and so the order of `str` comparison.
pub open spec fn seq_lt(a: Seq<char>, b: Seq<char>) -> bool
    decreases a.len(),
{
    if a.len() == 0 {
        b.len() > 0
    } else if b.len() == 0 {
        false
    } else if (a[0] as int) < (b[0] as int) {
        true
    } else if (a[0] as int) > (b[0] as int) {
        false
    } else {
        seq_lt(a.drop_first(), b.drop_first())
    }
}

pub proof fn lemma_seq_lt_irreflexive(a: Seq<char>)
    ensures
        !seq_lt(a, a),
    decreases a.len(),
{
    if a.len() > 0 {
        lemma_seq_lt_irreflexive(a.drop_first());
    }
}

pub proof fn lemma_seq_lt_transitive(a: Seq<char>, b: Seq<char>, c: Seq<char>)
    requires
        seq_lt(a, b),
        seq_lt(b, c),
    ensures
        seq_lt(a, c),
    decreases a.len(),
{
    if a.len() > 0 && b.len() > 0 && c.len() > 0 {
        if (a[0] as int) == (b[0] as int) && (b[0] as int) == (c[0] as int) {
            lemma_seq_lt_transitive(a.drop_first(), b.drop_first(), c.drop_first());
        }
    }
}

pub proof fn lemma_seq_lt_total(a: Seq<char>, b: Seq<char>)
    requires
        a != b,
    ensures
        seq_lt(a, b) || seq_lt(b, a),
    decreases a.len(),
{
    if a.len() > 0 && b.len() > 0 && (a[0] as int) == (b[0] as int) {
        if a.drop_first() == b.drop_first() {
            assert(a[0] == b[0]);
            assert(a =~= seq![a[0]] + a.drop_first());
            assert(b =~= seq![b[0]] + b.drop_first());
        }
        lemma_seq_lt_total(a.drop_first(), b.drop_first());
    } else if a.len() == 0 && b.len() == 0 {
        assert(a =~= b);
    }
}

pub proof fn lemma_seq_lt_asymmetric(a: Seq<char>, b: Seq<char>)
    requires
        seq_lt(a, b),
    ensures
        !seq_lt(b, a),
    decreases a.len(),
{
    if a.len() > 0 && b.len() > 0 && (a[0] as int) == (b[0] as int) {
        lemma_seq_lt_asymmetric(a.drop_first(), b.drop_first());
    }
}

/// Whether `a` sorts before `b`.
pub fn seq_less(a: &Vec<char>, b: &Vec<char>) -> (r: bool)
    ensures
        r == seq_lt(a@, b@),
{
    let mut i: usize = 0;
    assert(a@.skip(0) =~= a@);
    assert(b@.skip(0) =~= b@);
    while i < a.len() && i < b.len()
        invariant
            i <= a.len(),
            i <= b.len(),
            seq_lt(a@, b@) == seq_lt(a@.skip(i as int), b@.skip(i as int)),
        decreases a.len() - i,
    {
        let x = a[i];
        let y = b[i];
        proof {
            assert(a@.skip(i as int)[0] == a@[i as int]);
            assert(b@.skip(i as int)[0] == b@[i as int]);
            assert(a@.skip(i as int).drop_first() =~= a@.skip(i + 1));
            assert(b@.skip(i as int).drop_first() =~= b@.skip(i + 1));
        }
        if x < y {
            return true;
        }
        if x > y {
            return false;
        }
        i = i + 1;
    }
    i == a.len() && i < b.len()
}

/// The ASCII digit of `d` (for `d` below ten).
pub open spec fn digit_char(d: nat) -> char {
    if d == 0 {
        '0'
    } else if d == 1 {
        '1'
    } else if d == 2 {
        '2'
    } else if d == 3 {
        '3'
    } else if d == 4 {
        '4'
    } else if d == 5 {
        '5'
    } else if d == 6 {
        '6'
    } else if d == 7 {
        '7'
    } else if d == 8 {
        '8'
    } else {
        '9'
    }
}

/// The decimal numeral of `n`, as `Display` writes it: no sign, no leading zeros.
pub open spec fn decimal_text(n: nat) -> Seq<char>
    decreases n,
{
    if n < 10 {
        seq![digit_char(n)]
    } else {
        decimal_text(n / 10).push(digit_char(n % 10))
    }
}

fn digit_str(d: u64) -> (r: &'static str)
    requires
        d < 10,
    ensures
        r@ == seq![digit_char(d as nat)],
{
    if d == 0 {
        proof {
            reveal_strlit("0");
        }
        "0"
    } else if d == 1 {
        proof {
            reveal_strlit("1");
        }
        "1"
    } else if d == 2 {
        proof {
            reveal_strlit("2");
        }
        "2"
    } else if d == 3 {
        proof {
            reveal_strlit("3");
        }
        "3"
    } else if d == 4 {
        proof {
            reveal_strlit("4");
        }
        "4"
    } else if d == 5 {
        proof {
            reveal_strlit("5");
        }
        "5"
    } else if d == 6 {
        proof {
            reveal_strlit("6");
        }
        "6"
    } else if d == 7 {
        proof {
            reveal_strlit("7");
        }
        "7"
    } else if d == 8 {
        proof {
            reveal_strlit("8");
        }
        "8"
    } else {
        proof {
            reveal_strlit("9");
        }
        "9"
    }
}

/// Appends the decimal numeral of `n`.
pub fn push_decimal(out: &mut String, n: u64)
    ensures
        final(out)@ == old(out)@ + decimal_text(n as nat),
    decreases n,
{
    if n >= 10 {
        push_decimal(out, n / 10);
    }
    push_str(out, digit_str(n % 10));
    assert(out@ =~= old(out)@ + decimal_text(n as nat));
}

pub proof fn lemma_map_values_push<A, B>(s: Seq<A>, x: A, f: spec_fn(A) -> B)
    ensures
        s.push(x).map_values(f) == s.map_values(f).push(f(x)),
{
    let l = s.push(x).map_values(f);
    let r = s.map_values(f).push(f(x));
    assert forall|j: int| 0 <= j < l.len() implies l[j] == r[j] by {
        if j < s.len() {
            assert(s.push(x)[j] == s[j]);
        }
    }
    assert(l =~= r);
}

/// Length of `s.take(n)` less its trailing whitespace.
pub open spec fn trim_end_len(s: Seq<char>, n: nat) -> nat
    decreases n,
{
    if n > 0 && n <= s.len() && is_ws(s[n - 1]) {
        trim_end_len(s, (n - 1) as nat)
    } else {
        n
    }
}

/// `s` without leading and trailing whitespace, as `str::trim` gives it.
pub open spec fn trim_text(s: Seq<char>) -> Seq<char> {
    let a = skip_ws(s, 0);
    let b = trim_end_len(s, s.len());
    if a >= b {
        Seq::empty()
    } else {
        s.subrange(a as int, b as int)
    }
}

pub proof fn lemma_trim_end_len(s: Seq<char>, n: nat)
    requires
        n <= s.len(),
    ensures
        trim_end_len(s, n) <= n,
    decreases n,
{
    if n > 0 && is_ws(s[n - 1]) {
        lemma_trim_end_len(s, (n - 1) as nat);
    }
}

/// `str::trim` on the characters of `v`.
pub fn trim_chars(v: &Vec<char>) -> (r: Vec<char>)
    ensures
        r@ == trim_text(v@),
{
    let n = v.len();
    let mut a: usize = 0;
    while a < n && char_is_ws(v[a])
        invariant
            a <= n,
            n == v@.len(),
            skip_ws(v@, a as nat) == skip_ws(v@, 0),
        decreases n - a,
    {
        a = a + 1;
    }
    let mut b: usize = n;
    while b > 0 && char_is_ws(v[b - 1])
        invariant
            b <= n,
            n == v@.len(),
            trim_end_len(v@, b as nat) == trim_end_len(v@, n as nat),
        decreases b,
    {
        b = b - 1;
    }
    let mut out: Vec<char> = Vec::new();
    if a < b {
        let mut i = a;
        while i < b
            invariant
                a <= i <= b <= n,
                n == v@.len(),
                out@ == v@.subrange(a as int, i as int),
            decreases b - i,
        {
            out.push(v[i]);
            i = i + 1;
        }
    }
    assert(out@ =~= trim_text(v@));
    out
}

/// The ASCII lower-case form of `c` (other characters unchanged).
pub open spec fn ascii_lower(c: char) -> char {
    if 'A' <= c <= 'Z' {
        ((c as u32) + 32) as char
    } else {
        c
    }
}

pub fn char_ascii_lower(c: char) -> (r: char)
    ensures
        r == ascii_lower(c),
{
    if 'A' <= c && c <= 'Z' {
        ((c as u8) + 32) as char
    } else {
        c
    }
}

/// `str::to_ascii_lowercase` on the characters of `v`.
pub fn lower_chars(v: &Vec<char>) -> (r: Vec<char>)
    ensures
        r@ == v@.map_values(|c: char| ascii_lower(c)),
{
    let mut out: Vec<char> = Vec::new();
    let mut i: usize = 0;
    while i < v.len()
        invariant
            i <= v@.len(),
            out@ == v@.take(i as int).map_values(|c: char| ascii_lower(c)),
        decreases v@.len() - i,
    {
        let ghost before = out@;
        out.push(char_ascii_lower(v[i]));
        proof {
            assert(v@.take(i + 1) =~= v@.take(i as int).push(v@[i as int]));
            lemma_map_values_push(v@.take(i as int), v@[i as int], |c: char| ascii_lower(c));
        }
        i = i + 1;
    }
    assert(v@.take(v@.len() as int) =~= v@);
    out
}

/// Equal up to ASCII case, as `str::eq_ignore_ascii_case` compares.
pub open spec fn eq_ignore_case(a: Seq<char>, b: Seq<char>) -> bool {
    a.len() == b.len() && forall|i: int| 0 <= i < a.len() ==> ascii_lower(#[trigger] a[i])
        == ascii_lower(b[i])
}

pub fn same_ignoring_case(a: &Vec<char>, b: &str) -> (r: bool)
    ensures
        r == eq_ignore_case(a@, b@),
{
    let bv = chars_of(b);
    if a.len() != bv.len() {
        return false;
    }
    let mut i: usize = 0;
    while i < a.len()
        invariant
            i <= a@.len(),
            a@.len() == bv@.len(),
            bv@ == b@,
            forall|j: int| 0 <= j < i ==> ascii_lower(#[trigger] a@[j]) == ascii_lower(b@[j]),
        decreases a@.len() - i,
    {
        if char_ascii_lower(a[i]) != char_ascii_lower(bv[i]) {
            return false;
        }
        i = i + 1;
    }
    true
}

/// Index of the first `sep` at or after `i`, or the length of `s`.
pub open spec fn sep_from(s: Seq<char>, sep: char, i: nat) -> nat
    decreases s.len() - i,
{
    if i < s.len() && s[i as int] != sep {
        sep_from(s, sep, i + 1)
    } else if i < s.len() {
        i
    } else {
        s.len()
    }
}

pub proof fn lemma_sep_from(s: Seq<char>, sep: char, i: nat)
    requires
        i <= s.len(),
    ensures
        i <= sep_from(s, sep, i) <= s.len(),
        sep_from(s, sep, i) < s.len() ==> s[sep_from(s, sep, i) as int] == sep,
        forall|j: int| i <= j < sep_from(s, sep, i) ==> s[j] != sep,
    decreases s.len() - i,
{
    if i < s.len() && s[i as int] != sep {
        lemma_sep_from(s, sep, i + 1);
    }
}

/// The pieces of `s` between `sep` characters from position `i` on, as `str::split`
/// yields them.
pub open spec fn pieces_from(s: Seq<char>, sep: char, i: nat) -> Seq<Seq<char>>
    decreases s.len() + 1 - i,
{
    if i > s.len() {
        seq![]
    } else {
        let e = sep_from(s, sep, i);
        proof {
            lemma_sep_from(s, sep, i);
        }
        if e >= s.len() {
            seq![s.subrange(i as int, s.len() as int)]
        } else {
            seq![s.subrange(i as int, e as int)] + pieces_from(s, sep, e + 1)
        }
    }
}

/// `s.split(sep)`.
pub open spec fn pieces(s: Seq<char>, sep: char) -> Seq<Seq<char>> {
    pieces_from(s, sep, 0)
}

pub proof fn lemma_pieces_from_nonempty(s: Seq<char>, sep: char, i: nat)
    requires
        i <= s.len(),
    ensures
        pieces_from(s, sep, i).len() >= 1,
{
    lemma_sep_from(s, sep, i);
}

/// The pieces of `v` between `sep` characters, as `str::split` yields them.
pub fn split_chars(v: &Vec<char>, sep: char) -> (r: Vec<Vec<char>>)
    ensures
        r.deep_view() == pieces(v@, sep),
        r@.len() >= 1,
{
    let n = v.len();
    let mut out: Vec<Vec<char>> = Vec::new();
    let mut i: usize = 0;
    loop
        invariant
            i <= n,
            n == v@.len(),
            out.deep_view() + pieces_from(v@, sep, i as nat) == pieces(v@, sep),
        decreases n + 1 - i,
    {
        let mut e = i;
        while e < n && v[e] != sep
            invariant
                i <= e <= n,
                n == v@.len(),
                sep_from(v@, sep, e as nat) == sep_from(v@, sep, i as nat),
            decreases n - e,
        {
            e = e + 1;
        }
        proof {
            lemma_sep_from(v@, sep, i as nat);
        }
        let mut piece: Vec<char> = Vec::new();
        let mut k = i;
        while k < e
            invariant
                i <= k <= e <= n,
                n == v@.len(),
                piece@ == v@.subrange(i as int, k as int),
            decreases e - k,
        {
            piece.push(v[k]);
            k = k + 1;
        }
        let ghost prev = out.deep_view();
        assert(piece.deep_view() =~= piece@);
        out.push(piece);
        assert(out.deep_view() =~= prev.push(v@.subrange(i as int, e as int)));
        if e >= n {
            assert(pieces_from(v@, sep, i as nat) == seq![v@.subrange(i as int, n as int)]);
            assert(out.deep_view() =~= prev + pieces_from(v@, sep, i as nat));
            proof {
                lemma_pieces_from_nonempty(v@, sep, 0);
            }
            return out;
        }
        assert(pieces_from(v@, sep, i as nat) == seq![v@.subrange(i as int, e as int)]
            + pieces_from(v@, sep, (e + 1) as nat));
        assert(out.deep_view() + pieces_from(v@, sep, (e + 1) as nat) =~= prev + pieces_from(
            v@,
            sep,
            i as nat,
        ));
        i = e + 1;
    }
}

} // verus!
