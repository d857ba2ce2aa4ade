//! Text as a sequence of characters.
//!
//! Every rule in this crate that reads or builds text is stated over
//! `Seq<char>`. This module defines the operations those rules are phrased in,
//! and implements each of them on `&str` and `String`.

use vstd::prelude::*;

verus! {

/// `String::push` appends one character.
pub assume_specification[ String::push ](s: &mut String, c: char)
    ensures
        final(s)@ == old(s)@.push(c),
;

/// What the `Debug` of a `str` writes: the text in quotes, escaped.
pub uninterp spec fn debug_quoted(text: Seq<char>) -> Seq<char>;

/// The `Debug` of a `str`, by way of `format!`. The contract names its result.
#[verifier::external_body]
pub(crate) fn debug_text(text: &str) -> (r: String)
    ensures
        r@ == debug_quoted(text@),
{
    format!("{:?}", text)
}

/// The views of a sequence of strings.
pub open spec fn texts(v: Seq<String>) -> Seq<Seq<char>> {
    Seq::new(v.len(), |i: int| v[i]@)
}

/// The views of a sequence of string slices.
pub open spec fn str_texts(v: Seq<&str>) -> Seq<Seq<char>> {
    Seq::new(v.len(), |i: int| v[i]@)
}

/// The view of an optional string.
pub open spec fn opt_text(o: Option<String>) -> Option<Seq<char>> {
    match o {
        Some(s) => Some(s@),
        None => None,
    }
}

/// The view of an optional string slice.
pub open spec fn opt_str(o: Option<&str>) -> Option<Seq<char>> {
    match o {
        Some(s) => Some(s@),
        None => None,
    }
}

/// The views of an optional pair of strings.
pub open spec fn opt_pair(o: Option<(String, String)>) -> Option<(Seq<char>, Seq<char>)> {
    match o {
        Some(p) => Some((p.0@, p.1@)),
        None => None,
    }
}

/// The views of a sequence of pairs of strings.
pub open spec fn pair_texts(v: Seq<(String, String)>) -> Seq<(Seq<char>, Seq<char>)> {
    Seq::new(v.len(), |i: int| (v[i].0@, v[i].1@))
}

/// An optional index as an optional integer.
pub open spec fn opt_index(o: Option<usize>) -> Option<int> {
    match o {
        Some(i) => Some(i as int),
        None => None,
    }
}

/// Appending one string appends its view.
pub proof fn lemma_texts_push(v: Seq<String>, s: String)
    ensures
        texts(v.push(s)) == texts(v).push(s@),
{
    assert(texts(v.push(s)) =~= texts(v).push(s@));
}

// ---------------------------------------------------------------------------
// Characters
// ---------------------------------------------------------------------------

/// The characters with the Unicode `White_Space` property.
pub open spec fn is_white(c: char) -> bool {
    ||| '\u{9}' <= c <= '\u{d}'
    ||| c == ' '
    ||| c == '\u{85}'
    ||| c == '\u{a0}'
    ||| c == '\u{1680}'
    ||| '\u{2000}' <= c <= '\u{200a}'
    ||| c == '\u{2028}'
    ||| c == '\u{2029}'
    ||| c == '\u{202f}'
    ||| c == '\u{205f}'
    ||| c == '\u{3000}'
}

/// The C0 and C1 control characters (the Unicode `Cc` category).
pub open spec fn is_control(c: char) -> bool {
    c <= '\u{1f}' || '\u{7f}' <= c <= '\u{9f}'
}

/// The control characters within ASCII.
pub open spec fn is_ascii_control(c: char) -> bool {
    c <= '\u{1f}' || c == '\u{7f}'
}

pub open spec fn is_digit(c: char) -> bool {
    '0' <= c <= '9'
}

/// The character for a decimal digit.
pub open spec fn digit(d: int) -> char {
    ('0' as int + d) as char
}

pub open spec fn lower_char(c: char) -> char {
    if 'A' <= c <= 'Z' {
        (c as int + 32) as char
    } else {
        c
    }
}

pub open spec fn upper_char(c: char) -> char {
    if 'a' <= c <= 'z' {
        (c as int - 32) as char
    } else {
        c
    }
}

pub fn white(c: char) -> (b: bool)
    ensures
        b == is_white(c),
{
    ('\u{9}' <= c && c <= '\u{d}') || c == ' ' || c == '\u{85}' || c == '\u{a0}' || c == '\u{1680}'
        || ('\u{2000}' <= c && c <= '\u{200a}') || c == '\u{2028}' || c == '\u{2029}' || c
        == '\u{202f}' || c == '\u{205f}' || c == '\u{3000}'
}

pub fn control(c: char) -> (b: bool)
    ensures
        b == is_control(c),
{
    c <= '\u{1f}' || ('\u{7f}' <= c && c <= '\u{9f}')
}

pub fn ascii_control(c: char) -> (b: bool)
    ensures
        b == is_ascii_control(c),
{
    c <= '\u{1f}' || c == '\u{7f}'
}

fn to_lower(c: char) -> (r: char)
    ensures
        r == lower_char(c),
{
    if 'A' <= c && c <= 'Z' {
        ((c as u8) + 32) as char
    } else {
        c
    }
}

fn to_upper(c: char) -> (r: char)
    ensures
        r == upper_char(c),
{
    if 'a' <= c && c <= 'z' {
        ((c as u8) - 32) as char
    } else {
        c
    }
}

fn to_digit(d: u64) -> (r: char)
    requires
        d < 10,
    ensures
        r == digit(d as int),
{
    (48u8 + d as u8) as char
}

// ---------------------------------------------------------------------------
// Buffers
// ---------------------------------------------------------------------------

/// The characters of a string.
pub fn chars_of(s: &str) -> (v: Vec<char>)
    ensures
        v@ == s@,
{
    let mut v: Vec<char> = Vec::new();
    for c in it: s.chars()
        invariant
            it.seq() == s@,
            v@ == s@.take(it.index() as int),
    {
        v.push(c);
    }
    v
}

/// The string holding a range of a buffer.
pub fn string_of(v: &Vec<char>, from: usize, to: usize) -> (s: String)
    requires
        from <= to <= v@.len(),
    ensures
        s@ == v@.subrange(from as int, to as int),
{
    let mut s = String::new();
    let mut i: usize = from;
    while i < to
        invariant
            from <= i <= to <= v@.len(),
            s@ == v@.subrange(from as int, i as int),
        decreases to - i,
    {
        s.push(v[i]);
        i = i + 1;
    }
    s
}

/// Whether two strings hold the same characters.
pub fn same(a: &str, b: &str) -> (r: bool)
    ensures
        r == (a@ == b@),
{
    let x = chars_of(a);
    let y = chars_of(b);
    if x.len() != y.len() {
        return false;
    }
    let mut i: usize = 0;
    while i < x.len()
        invariant
            x@ == a@,
            y@ == b@,
            x@.len() == y@.len(),
            i <= x@.len(),
            forall|k: int| 0 <= k < i ==> x@[k] == y@[k],
        decreases x@.len() - i,
    {
        if x[i] != y[i] {
            return false;
        }
        i = i + 1;
    }
    assert(a@ =~= b@);
    true
}

/// An owned copy of a string.
pub fn owned(s: &str) -> (r: String)
    ensures
        r@ == s@,
{
    s.to_owned()
}


/// A range of a string, counted in characters.
pub fn slice(s: &str, from: usize, to: usize) -> (r: String)
    requires
        from <= to <= s@.len(),
    ensures
        r@ == s@.subrange(from as int, to as int),
{
    let v = chars_of(s);
    string_of(&v, from, to)
}

/// Three pieces, one after another.
pub fn join3(a: &str, b: &str, c: &str) -> (r: String)
    ensures
        r@ == a@ + b@ + c@,
{
    let mut r = owned(a);
    r.append(b);
    r.append(c);
    r
}

/// Two pieces, one after the other.
pub fn join2(a: &str, b: &str) -> (r: String)
    ensures
        r@ == a@ + b@,
{
    let mut r = owned(a);
    r.append(b);
    r
}

/// Whether a buffer holds a character.
pub fn has_char(v: &Vec<char>, c: char) -> (b: bool)
    ensures
        b == v@.contains(c),
{
    let mut i: usize = 0;
    while i < v.len()
        invariant
            i <= v@.len(),
            forall|k: int| 0 <= k < i ==> v@[k] != c,
        decreases v@.len() - i,
    {
        if v[i] == c {
            assert(v@[i as int] == c);
            return true;
        }
        i = i + 1;
    }
    false
}

// ---------------------------------------------------------------------------
// Case
// ---------------------------------------------------------------------------

/// ASCII letters lowered, every other character kept.
pub open spec fn lower(s: Seq<char>) -> Seq<char> {
    Seq::new(s.len(), |i: int| lower_char(s[i]))
}

/// ASCII letters raised, every other character kept.
pub open spec fn upper(s: Seq<char>) -> Seq<char> {
    Seq::new(s.len(), |i: int| upper_char(s[i]))
}

/// Equality up to ASCII case.
pub open spec fn eq_fold(a: Seq<char>, b: Seq<char>) -> bool {
    lower(a) == lower(b)
}

pub fn to_ascii_lower(s: &str) -> (r: String)
    ensures
        r@ == lower(s@),
{
    let v = chars_of(s);
    let mut r = String::new();
    let mut i: usize = 0;
    while i < v.len()
        invariant
            v@ == s@,
            i <= v@.len(),
            r@ == lower(s@).take(i as int),
        decreases v@.len() - i,
    {
        r.push(to_lower(v[i]));
        i = i + 1;
        assert(r@ =~= lower(s@).take(i as int));
    }
    assert(lower(s@).take(i as int) =~= lower(s@));
    r
}

pub fn to_ascii_upper(s: &str) -> (r: String)
    ensures
        r@ == upper(s@),
{
    let v = chars_of(s);
    let mut r = String::new();
    let mut i: usize = 0;
    while i < v.len()
        invariant
            v@ == s@,
            i <= v@.len(),
            r@ == upper(s@).take(i as int),
        decreases v@.len() - i,
    {
        r.push(to_upper(v[i]));
        i = i + 1;
        assert(r@ =~= upper(s@).take(i as int));
    }
    assert(upper(s@).take(i as int) =~= upper(s@));
    r
}

pub fn equal_fold(a: &str, b: &str) -> (r: bool)
    ensures
        r == eq_fold(a@, b@),
{
    let x = to_ascii_lower(a);
    let y = to_ascii_lower(b);
    same(x.as_str(), y.as_str())
}

// ---------------------------------------------------------------------------
// Searching
// ---------------------------------------------------------------------------

/// Whether `p` stands in `s` at index `i`.
pub open spec fn occurs_at(s: Seq<char>, p: Seq<char>, i: int) -> bool {
    0 <= i && i + p.len() <= s.len() && s.subrange(i, i + p.len()) == p
}

/// Whether `p` stands anywhere in `s`.
pub open spec fn contains(s: Seq<char>, p: Seq<char>) -> bool {
    exists|i: int| occurs_at(s, p, i)
}

pub open spec fn starts_with(s: Seq<char>, p: Seq<char>) -> bool {
    occurs_at(s, p, 0)
}

/// The first index at or after `i` at which `p` stands in `s`.
pub open spec fn find_from(s: Seq<char>, p: Seq<char>, i: int) -> Option<int>
    decreases s.len() + 1 - i,
{
    if i < 0 || i + p.len() > s.len() {
        None
    } else if occurs_at(s, p, i) {
        Some(i)
    } else {
        find_from(s, p, i + 1)
    }
}

/// The first index at which `p` stands in `s`.
pub open spec fn find(s: Seq<char>, p: Seq<char>) -> Option<int> {
    find_from(s, p, 0)
}

/// `find_from` gives the least index, and gives one exactly when there is one.
pub proof fn lemma_find_from(s: Seq<char>, p: Seq<char>, i: int)
    requires
        0 <= i,
    ensures
        match find_from(s, p, i) {
            Some(j) => i <= j && occurs_at(s, p, j) && forall|k: int|
                i <= k < j ==> !occurs_at(s, p, k),
            None => forall|k: int| i <= k ==> !occurs_at(s, p, k),
        },
    decreases s.len() + 1 - i,
{
    if i + p.len() > s.len() {
    } else if occurs_at(s, p, i) {
    } else {
        lemma_find_from(s, p, i + 1);
    }
}

/// A search succeeds exactly on the texts that contain the pattern.
pub proof fn lemma_find_is_contains(s: Seq<char>, p: Seq<char>)
    ensures
        (find(s, p) is Some) == contains(s, p),
{
    lemma_find_from(s, p, 0);
    if contains(s, p) {
        let i = choose|i: int| occurs_at(s, p, i);
        assert(occurs_at(s, p, i));
    }
}

/// The index of the first `c` at or after `i`, or the length if there is none.
pub open spec fn next_char(s: Seq<char>, c: char, i: int) -> int
    decreases s.len() - i,
{
    if i < 0 || i >= s.len() {
        s.len() as int
    } else if s[i] == c {
        i
    } else {
        next_char(s, c, i + 1)
    }
}

pub proof fn lemma_next_char(s: Seq<char>, c: char, i: int)
    requires
        0 <= i <= s.len(),
    ensures
        i <= next_char(s, c, i) <= s.len(),
        next_char(s, c, i) < s.len() ==> s[next_char(s, c, i)] == c,
        forall|k: int| i <= k < next_char(s, c, i) ==> s[k] != c,
    decreases s.len() - i,
{
    if i < s.len() && s[i] != c {
        lemma_next_char(s, c, i + 1);
    }
}

/// The index of the last `c` before `n`, or -1 if there is none.
pub open spec fn last_char(s: Seq<char>, c: char, n: int) -> int
    decreases n,
{
    if n <= 0 {
        -1
    } else if s[n - 1] == c {
        n - 1
    } else {
        last_char(s, c, n - 1)
    }
}

pub proof fn lemma_last_char(s: Seq<char>, c: char, n: int)
    requires
        0 <= n <= s.len(),
    ensures
        -1 <= last_char(s, c, n) < n,
        last_char(s, c, n) >= 0 ==> s[last_char(s, c, n)] == c,
        forall|k: int| last_char(s, c, n) < k < n ==> s[k] != c,
    decreases n,
{
    if n > 0 && s[n - 1] != c {
        lemma_last_char(s, c, n - 1);
    }
}

fn matches_at(v: &Vec<char>, p: &Vec<char>, i: usize) -> (b: bool)
    requires
        i + p@.len() <= v@.len(),
    ensures
        b == occurs_at(v@, p@, i as int),
{
    let total: usize = v.len();
    let mut k: usize = 0;
    while k < p.len()
        invariant
            i + p@.len() <= v@.len(),
            total == v@.len(),
            k <= p@.len(),
            forall|j: int| 0 <= j < k ==> v@[i + j] == p@[j],
        decreases p@.len() - k,
    {
        if v[i + k] != p[k] {
            assert(v@.subrange(i as int, i + p@.len())[k as int] != p@[k as int]);
            return false;
        }
        k = k + 1;
    }
    assert(v@.subrange(i as int, i + p@.len()) =~= p@);
    true
}

fn find_in(v: &Vec<char>, p: &Vec<char>) -> (r: Option<usize>)
    ensures
        opt_index(r) == find(v@, p@),
        r is Some ==> r->0 + p@.len() <= v@.len(),
{
    if p.len() > v.len() {
        return None;
    }
    let last: usize = v.len() - p.len();
    let mut i: usize = 0;
    while i < last
        invariant
            last + p@.len() == v@.len(),
            i <= last,
            find_from(v@, p@, i as int) == find(v@, p@),
        decreases last - i,
    {
        if matches_at(v, p, i) {
            return Some(i);
        }
        i = i + 1;
    }
    if matches_at(v, p, last) {
        return Some(last);
    }
    assert(find_from(v@, p@, last + 1) is None);
    None
}

/// The character index of the first `p` in `s`.
pub fn find_text(s: &str, p: &str) -> (r: Option<usize>)
    ensures
        opt_index(r) == find(s@, p@),
        r is Some ==> r->0 + p@.len() <= s@.len(),
{
    let v = chars_of(s);
    let q = chars_of(p);
    find_in(&v, &q)
}

pub fn contains_text(s: &str, p: &str) -> (b: bool)
    ensures
        b == contains(s@, p@),
{
    proof {
        lemma_find_is_contains(s@, p@);
    }
    match find_text(s, p) {
        Some(_) => true,
        None => false,
    }
}

pub fn has_prefix(s: &str, p: &str) -> (b: bool)
    ensures
        b == starts_with(s@, p@),
{
    let v = chars_of(s);
    let q = chars_of(p);
    if q.len() > v.len() {
        return false;
    }
    matches_at(&v, &q, 0)
}

/// Whether any of the phrases stands in `s`.
pub open spec fn mentions(s: Seq<char>, phrases: Seq<Seq<char>>) -> bool {
    exists|k: int| 0 <= k < phrases.len() && contains(s, #[trigger] phrases[k])
}

pub fn mentions_any(s: &str, phrases: &Vec<&'static str>) -> (b: bool)
    ensures
        b == mentions(s@, str_texts(phrases@)),
{
    let mut k: usize = 0;
    while k < phrases.len()
        invariant
            k <= phrases@.len(),
            forall|j: int| 0 <= j < k ==> !contains(s@, #[trigger] str_texts(phrases@)[j]),
        decreases phrases@.len() - k,
    {
        if contains_text(s, phrases[k]) {
            assert(contains(s@, str_texts(phrases@)[k as int]));
            return true;
        }
        k = k + 1;
    }
    false
}

/// Whether a text is one of a list.
pub fn is_one_of(s: &str, list: &Vec<&'static str>) -> (b: bool)
    ensures
        b == str_texts(list@).contains(s@),
{
    let mut k: usize = 0;
    while k < list.len()
        invariant
            k <= list@.len(),
            forall|j: int| 0 <= j < k ==> s@ != #[trigger] str_texts(list@)[j],
        decreases list@.len() - k,
    {
        if same(s, list[k]) {
            assert(str_texts(list@)[k as int] == s@);
            return true;
        }
        k = k + 1;
    }
    false
}

/// A copy of an optional string.
pub fn copy_opt(o: &Option<String>) -> (r: Option<String>)
    ensures
        opt_text(r) == opt_text(*o),
{
    match o {
        Some(s) => Some(owned(s.as_str())),
        None => None,
    }
}

/// Append one argument to a list.
pub fn push_text(v: &mut Vec<String>, s: &str)
    ensures
        texts(final(v)@) == texts(old(v)@).push(s@),
{
    let t = owned(s);
    proof {
        lemma_texts_push(v@, t);
    }
    v.push(t);
}

/// The index of the first `c` in `s`, or the length.
pub fn index_of(s: &str, c: char) -> (r: usize)
    ensures
        r == next_char(s@, c, 0),
        r <= s@.len(),
{
    let v = chars_of(s);
    let mut i: usize = 0;
    while i < v.len()
        invariant
            v@ == s@,
            i <= v@.len(),
            next_char(s@, c, i as int) == next_char(s@, c, 0),
        decreases v@.len() - i,
    {
        if v[i] == c {
            return i;
        }
        i = i + 1;
    }
    v.len()
}

/// The index of the last `c` in `s`.
pub fn last_index_of(s: &str, c: char) -> (r: Option<usize>)
    ensures
        match r {
            Some(i) => i == last_char(s@, c, s@.len() as int) && i < s@.len(),
            None => last_char(s@, c, s@.len() as int) == -1,
        },
{
    let v = chars_of(s);
    let mut n: usize = v.len();
    while n > 0
        invariant
            v@ == s@,
            n <= v@.len(),
            last_char(s@, c, n as int) == last_char(s@, c, s@.len() as int),
        decreases n,
    {
        if v[n - 1] == c {
            return Some(n - 1);
        }
        n = n - 1;
    }
    None
}

/// What follows `p` in a text that starts with it.
pub open spec fn strip_prefix(s: Seq<char>, p: Seq<char>) -> Option<Seq<char>> {
    if starts_with(s, p) {
        Some(s.skip(p.len() as int))
    } else {
        None
    }
}

pub fn without_prefix(s: &str, p: &str) -> (r: Option<String>)
    ensures
        opt_text(r) == strip_prefix(s@, p@),
{
    if has_prefix(s, p) {
        let v = chars_of(s);
        let q = chars_of(p);
        let r = string_of(&v, q.len(), v.len());
        assert(r@ =~= s@.skip(p@.len() as int));
        Some(r)
    } else {
        None
    }
}

/// The text before and after the first `p`.
pub open spec fn split_once(s: Seq<char>, p: Seq<char>) -> Option<(Seq<char>, Seq<char>)> {
    match find(s, p) {
        Some(i) => Some((s.take(i), s.skip(i + p.len()))),
        None => None,
    }
}

pub fn split_first(s: &str, p: &str) -> (r: Option<(String, String)>)
    ensures
        opt_pair(r) == split_once(s@, p@),
{
    match find_text(s, p) {
        Some(i) => {
            let v = chars_of(s);
            let q = chars_of(p);
            let total: usize = v.len();
            let a = string_of(&v, 0, i);
            let b = string_of(&v, i + q.len(), total);
            assert(a@ =~= s@.take(i as int));
            assert(b@ =~= s@.skip(i + p@.len()));
            Some((a, b))
        },
        None => None,
    }
}

/// The text before and after the last `c`.
pub open spec fn rsplit_once(s: Seq<char>, c: char) -> Option<(Seq<char>, Seq<char>)> {
    let i = last_char(s, c, s.len() as int);
    if i >= 0 {
        Some((s.take(i), s.skip(i + 1)))
    } else {
        None
    }
}

pub fn split_last(s: &str, c: char) -> (r: Option<(String, String)>)
    ensures
        opt_pair(r) == rsplit_once(s@, c),
{
    match last_index_of(s, c) {
        Some(i) => {
            let v = chars_of(s);
            let total: usize = v.len();
            let a = string_of(&v, 0, i);
            let b = string_of(&v, i + 1, total);
            assert(a@ =~= s@.take(i as int));
            assert(b@ =~= s@.skip(i + 1));
            Some((a, b))
        },
        None => None,
    }
}

// ---------------------------------------------------------------------------
// Trimming
// ---------------------------------------------------------------------------

pub open spec fn trim_start(s: Seq<char>) -> Seq<char>
    decreases s.len(),
{
    if s.len() > 0 && is_white(s[0]) {
        trim_start(s.skip(1))
    } else {
        s
    }
}

pub open spec fn trim_end(s: Seq<char>) -> Seq<char>
    decreases s.len(),
{
    if s.len() > 0 && is_white(s.last()) {
        trim_end(s.drop_last())
    } else {
        s
    }
}

/// A text without the white space at its ends.
pub open spec fn trim(s: Seq<char>) -> Seq<char> {
    trim_end(trim_start(s))
}

/// A text without the characters of `set` at its end.
pub open spec fn trim_end_of(s: Seq<char>, set: Seq<char>) -> Seq<char>
    decreases s.len(),
{
    if s.len() > 0 && set.contains(s.last()) {
        trim_end_of(s.drop_last(), set)
    } else {
        s
    }
}

/// A text without the characters of `set` at its start.
pub open spec fn trim_start_of(s: Seq<char>, set: Seq<char>) -> Seq<char>
    decreases s.len(),
{
    if s.len() > 0 && set.contains(s[0]) {
        trim_start_of(s.skip(1), set)
    } else {
        s
    }
}

pub fn trimmed_start(s: &str) -> (r: String)
    ensures
        r@ == trim_start(s@),
{
    let v = chars_of(s);
    let mut i: usize = 0;
    assert(s@.skip(0) =~= s@);
    while i < v.len() && white(v[i])
        invariant
            v@ == s@,
            i <= v@.len(),
            trim_start(s@.skip(i as int)) == trim_start(s@),
        decreases v@.len() - i,
    {
        assert(s@.skip(i as int).skip(1) =~= s@.skip(i + 1));
        i = i + 1;
    }
    let r = string_of(&v, i, v.len());
    assert(r@ =~= s@.skip(i as int));
    r
}

pub fn trimmed_end(s: &str) -> (r: String)
    ensures
        r@ == trim_end(s@),
{
    let v = chars_of(s);
    let mut n: usize = v.len();
    assert(s@.take(n as int) =~= s@);
    while n > 0 && white(v[n - 1])
        invariant
            v@ == s@,
            n <= v@.len(),
            trim_end(s@.take(n as int)) == trim_end(s@),
        decreases n,
    {
        assert(s@.take(n as int).drop_last() =~= s@.take(n - 1));
        n = n - 1;
    }
    let r = string_of(&v, 0, n);
    assert(r@ =~= s@.take(n as int));
    r
}

pub fn trimmed(s: &str) -> (r: String)
    ensures
        r@ == trim(s@),
{
    let t = trimmed_start(s);
    trimmed_end(t.as_str())
}

pub fn trimmed_end_of(s: &str, set: &str) -> (r: String)
    ensures
        r@ == trim_end_of(s@, set@),
{
    let v = chars_of(s);
    let w = chars_of(set);
    let mut n: usize = v.len();
    assert(s@.take(n as int) =~= s@);
    while n > 0 && has_char(&w, v[n - 1])
        invariant
            v@ == s@,
            w@ == set@,
            n <= v@.len(),
            trim_end_of(s@.take(n as int), set@) == trim_end_of(s@, set@),
        decreases n,
    {
        assert(s@.take(n as int).drop_last() =~= s@.take(n - 1));
        n = n - 1;
    }
    let r = string_of(&v, 0, n);
    assert(r@ =~= s@.take(n as int));
    r
}

pub fn trimmed_start_of(s: &str, set: &str) -> (r: String)
    ensures
        r@ == trim_start_of(s@, set@),
{
    let v = chars_of(s);
    let w = chars_of(set);
    let mut i: usize = 0;
    assert(s@.skip(0) =~= s@);
    while i < v.len() && has_char(&w, v[i])
        invariant
            v@ == s@,
            w@ == set@,
            i <= v@.len(),
            trim_start_of(s@.skip(i as int), set@) == trim_start_of(s@, set@),
        decreases v@.len() - i,
    {
        assert(s@.skip(i as int).skip(1) =~= s@.skip(i + 1));
        i = i + 1;
    }
    let r = string_of(&v, i, v.len());
    assert(r@ =~= s@.skip(i as int));
    r
}

// ---------------------------------------------------------------------------
// Splitting, joining and replacing
// ---------------------------------------------------------------------------

/// A line without the carriage return that belongs to its ending.
pub open spec fn strip_return(s: Seq<char>) -> Seq<char> {
    if s.len() > 0 && s.last() == '\r' {
        s.drop_last()
    } else {
        s
    }
}

/// The lines of `s` from the one that starts at `start`, none of which ends
/// before `i`. A line ends at `\n` or `\r\n`; a last line may have no ending.
pub open spec fn lines_from(s: Seq<char>, start: int, i: int) -> Seq<Seq<char>>
    decreases s.len() - i,
{
    if i >= s.len() {
        if start < s.len() {
            seq![s.subrange(start, s.len() as int)]
        } else {
            Seq::empty()
        }
    } else if s[i] == '\n' {
        seq![strip_return(s.subrange(start, i))] + lines_from(s, i + 1, i + 1)
    } else {
        lines_from(s, start, i + 1)
    }
}

pub open spec fn lines(s: Seq<char>) -> Seq<Seq<char>> {
    lines_from(s, 0, 0)
}

pub fn lines_of(s: &str) -> (r: Vec<String>)
    ensures
        texts(r@) == lines(s@),
{
    let v = chars_of(s);
    let mut r: Vec<String> = Vec::new();
    let mut start: usize = 0;
    let mut i: usize = 0;
    assert(texts(r@) + lines_from(s@, 0, 0) =~= lines(s@));
    while i < v.len()
        invariant
            v@ == s@,
            start <= i <= v@.len(),
            texts(r@) + lines_from(s@, start as int, i as int) == lines(s@),
        decreases v@.len() - i,
    {
        if v[i] == '\n' {
            let mut end: usize = i;
            if start < i && v[i - 1] == '\r' {
                end = i - 1;
            }
            let line = string_of(&v, start, end);
            assert(line@ =~= strip_return(s@.subrange(start as int, i as int)));
            let ghost before = r@;
            r.push(line);
            proof {
                lemma_texts_push(before, line);
                assert(texts(r@) + lines_from(s@, i + 1, i + 1) =~= texts(before) + lines_from(
                    s@,
                    start as int,
                    i as int,
                ));
            }
            start = i + 1;
        }
        i = i + 1;
    }
    if start < v.len() {
        let line = string_of(&v, start, v.len());
        let ghost before = r@;
        r.push(line);
        proof {
            lemma_texts_push(before, line);
            assert(texts(r@) =~= texts(before) + lines_from(s@, start as int, i as int));
        }
    } else {
        assert(texts(r@) =~= texts(r@) + lines_from(s@, start as int, i as int));
    }
    r
}

/// The pieces of `s` between the separators `c`, from the piece at `start`.
pub open spec fn split_from(s: Seq<char>, c: char, start: int, i: int) -> Seq<Seq<char>>
    decreases s.len() - i,
{
    if i >= s.len() {
        seq![s.subrange(start, s.len() as int)]
    } else if s[i] == c {
        seq![s.subrange(start, i)] + split_from(s, c, i + 1, i + 1)
    } else {
        split_from(s, c, start, i + 1)
    }
}

/// The pieces of `s` between the separators `c`; at least one.
pub open spec fn split(s: Seq<char>, c: char) -> Seq<Seq<char>> {
    split_from(s, c, 0, 0)
}

pub fn split_at_each(s: &str, c: char) -> (r: Vec<String>)
    ensures
        texts(r@) == split(s@, c),
{
    let v = chars_of(s);
    let mut r: Vec<String> = Vec::new();
    let mut start: usize = 0;
    let mut i: usize = 0;
    assert(texts(r@) + split_from(s@, c, 0, 0) =~= split(s@, c));
    while i < v.len()
        invariant
            v@ == s@,
            start <= i <= v@.len(),
            texts(r@) + split_from(s@, c, start as int, i as int) == split(s@, c),
        decreases v@.len() - i,
    {
        if v[i] == c {
            let piece = string_of(&v, start, i);
            let ghost before = r@;
            r.push(piece);
            proof {
                lemma_texts_push(before, piece);
                assert(texts(r@) + split_from(s@, c, i + 1, i + 1) =~= texts(before) + split_from(
                    s@,
                    c,
                    start as int,
                    i as int,
                ));
            }
            start = i + 1;
        }
        i = i + 1;
    }
    let piece = string_of(&v, start, v.len());
    let ghost before = r@;
    r.push(piece);
    proof {
        lemma_texts_push(before, piece);
        assert(texts(r@) =~= texts(before) + split_from(s@, c, start as int, i as int));
    }
    r
}

/// The words of `s`: the longest runs without white space, from the run that
/// begins at `start` and reaches to `i` at least.
pub open spec fn words_from(s: Seq<char>, start: int, i: int) -> Seq<Seq<char>>
    decreases s.len() - i,
{
    if i >= s.len() {
        if start < i {
            seq![s.subrange(start, i)]
        } else {
            Seq::empty()
        }
    } else if is_white(s[i]) {
        (if start < i {
            seq![s.subrange(start, i)]
        } else {
            Seq::empty()
        }) + words_from(s, i + 1, i + 1)
    } else {
        words_from(s, start, i + 1)
    }
}

/// The words of a text, between runs of white space.
pub open spec fn words(s: Seq<char>) -> Seq<Seq<char>> {
    words_from(s, 0, 0)
}

pub fn words_of(s: &str) -> (r: Vec<String>)
    ensures
        texts(r@) == words(s@),
{
    let v = chars_of(s);
    let mut r: Vec<String> = Vec::new();
    let mut start: usize = 0;
    let mut i: usize = 0;
    assert(texts(r@) + words_from(s@, 0, 0) =~= words(s@));
    while i < v.len()
        invariant
            v@ == s@,
            start <= i <= v@.len(),
            texts(r@) + words_from(s@, start as int, i as int) == words(s@),
        decreases v@.len() - i,
    {
        if white(v[i]) {
            let ghost before = r@;
            if start < i {
                let word = string_of(&v, start, i);
                push_text(&mut r, word.as_str());
            }
            assert(texts(r@) + words_from(s@, i + 1, i + 1) =~= texts(before) + words_from(
                s@,
                start as int,
                i as int,
            ));
            start = i + 1;
        }
        i = i + 1;
    }
    let ghost before = r@;
    if start < i {
        let word = string_of(&v, start, i);
        push_text(&mut r, word.as_str());
    }
    assert(texts(r@) =~= texts(before) + words_from(s@, start as int, i as int));
    r
}

/// The pieces with `sep` between each two.
pub open spec fn join(v: Seq<Seq<char>>, sep: Seq<char>) -> Seq<char>
    decreases v.len(),
{
    if v.len() == 0 {
        Seq::empty()
    } else if v.len() == 1 {
        v[0]
    } else {
        join(v.drop_last(), sep) + sep + v.last()
    }
}

pub fn joined(v: &Vec<String>, sep: &str) -> (r: String)
    ensures
        r@ == join(texts(v@), sep@),
{
    let mut r = String::new();
    let mut i: usize = 0;
    assert(texts(v@).take(0) =~= Seq::empty());
    while i < v.len()
        invariant
            i <= v@.len(),
            r@ == join(texts(v@).take(i as int), sep@),
        decreases v@.len() - i,
    {
        if i > 0 {
            r.append(sep);
        }
        r.append(v[i].as_str());
        proof {
            let next = texts(v@).take(i + 1);
            assert(next.drop_last() =~= texts(v@).take(i as int));
            assert(next.last() == v@[i as int]@);
            if i == 0 {
                assert(r@ =~= next[0]);
            }
        }
        i = i + 1;
    }
    assert(texts(v@).take(i as int) =~= texts(v@));
    r
}

/// `s` from `i` on, with each `from` met on the way replaced.
pub open spec fn replace_from(s: Seq<char>, from: Seq<char>, to: Seq<char>, i: int) -> Seq<char>
    decreases s.len() - i,
{
    if i >= s.len() {
        Seq::empty()
    } else if from.len() > 0 && occurs_at(s, from, i) {
        to + replace_from(s, from, to, i + from.len())
    } else {
        seq![s[i]] + replace_from(s, from, to, i + 1)
    }
}

/// `s` with the occurrences of `from`, read left to right, replaced.
pub open spec fn replace(s: Seq<char>, from: Seq<char>, to: Seq<char>) -> Seq<char> {
    replace_from(s, from, to, 0)
}

pub fn replaced(s: &str, from: &str, to: &str) -> (r: String)
    requires
        from@.len() > 0,
    ensures
        r@ == replace(s@, from@, to@),
{
    let v = chars_of(s);
    let p = chars_of(from);
    let mut r = String::new();
    let mut i: usize = 0;
    assert(r@ + replace_from(s@, from@, to@, 0) =~= replace(s@, from@, to@));
    while i < v.len()
        invariant
            v@ == s@,
            p@ == from@,
            from@.len() > 0,
            i <= v@.len(),
            r@ + replace_from(s@, from@, to@, i as int) == replace(s@, from@, to@),
        decreases v@.len() - i,
    {
        let ghost before = r@;
        if p.len() <= v.len() - i && matches_at(&v, &p, i) {
            r.append(to);
            assert(r@ + replace_from(s@, from@, to@, i + from@.len()) =~= before + replace_from(
                s@,
                from@,
                to@,
                i as int,
            ));
            i = i + p.len();
        } else {
            r.push(v[i]);
            assert(r@ + replace_from(s@, from@, to@, i + 1) =~= before + replace_from(
                s@,
                from@,
                to@,
                i as int,
            ));
            i = i + 1;
        }
    }
    assert(r@ + replace_from(s@, from@, to@, i as int) =~= r@);
    r
}

// ---------------------------------------------------------------------------
// Numbers
// ---------------------------------------------------------------------------

/// A number in decimal.
pub open spec fn decimal(n: nat) -> Seq<char>
    decreases n,
{
    if n < 10 {
        seq![digit(n as int)]
    } else {
        decimal(n / 10).push(digit((n % 10) as int))
    }
}

pub fn decimal_of(n: u64) -> (r: String)
    ensures
        r@ == decimal(n as nat),
    decreases n,
{
    if n < 10 {
        let mut r = String::new();
        r.push(to_digit(n));
        assert(r@ =~= seq![digit(n as int)]);
        r
    } else {
        let mut r = decimal_of(n / 10);
        r.push(to_digit(n % 10));
        r
    }
}

/// A signed number in decimal.
pub open spec fn signed_decimal(n: int) -> Seq<char> {
    if n < 0 {
        "-"@ + decimal((-n) as nat)
    } else {
        decimal(n as nat)
    }
}

pub fn signed_decimal_of(n: i32) -> (r: String)
    ensures
        r@ == signed_decimal(n as int),
{
    if n < 0 {
        let d = decimal_of((-(n as i64)) as u64);
        join2("-", d.as_str())
    } else {
        decimal_of(n as u64)
    }
}

/// A number in decimal, filled with zeros on the left to at least `width`.
pub open spec fn zero_padded(n: nat, width: nat) -> Seq<char> {
    let d = decimal(n);
    if d.len() >= width {
        d
    } else {
        Seq::new((width - d.len()) as nat, |i: int| '0') + d
    }
}

pub fn zero_padded_of(n: u64, width: usize) -> (r: String)
    ensures
        r@ == zero_padded(n as nat, width as nat),
{
    let d = decimal_of(n);
    let v = chars_of(d.as_str());
    let mut r = String::new();
    if v.len() >= width {
        return d;
    }
    let missing: usize = width - v.len();
    let mut i: usize = 0;
    while i < missing
        invariant
            i <= missing,
            r@ == Seq::new(i as nat, |i: int| '0'),
        decreases missing - i,
    {
        r.push('0');
        i = i + 1;
        assert(r@ =~= Seq::new(i as nat, |i: int| '0'));
    }
    r.append(d.as_str());
    r
}

/// `width - s.len()` spaces, or none.
pub open spec fn fill(s: Seq<char>, width: nat) -> Seq<char> {
    Seq::new(
        if s.len() < width {
            (width - s.len()) as nat
        } else {
            0
        },
        |i: int| ' ',
    )
}

fn spaces(s: &str, width: usize) -> (r: String)
    ensures
        r@ == fill(s@, width as nat),
{
    let v = chars_of(s);
    let mut r = String::new();
    let missing: usize = if v.len() < width { width - v.len() } else { 0 };
    let mut i: usize = 0;
    while i < missing
        invariant
            i <= missing,
            r@ == Seq::new(i as nat, |i: int| ' '),
        decreases missing - i,
    {
        r.push(' ');
        i = i + 1;
        assert(r@ =~= Seq::new(i as nat, |i: int| ' '));
    }
    assert(r@ =~= fill(s@, width as nat));
    r
}

/// A text at the right of a column.
pub fn right_aligned(s: &str, width: usize) -> (r: String)
    ensures
        r@ == fill(s@, width as nat) + s@,
{
    join2(spaces(s, width).as_str(), s)
}

/// A text at the left of a column.
pub fn left_aligned(s: &str, width: usize) -> (r: String)
    ensures
        r@ == s@ + fill(s@, width as nat),
{
    join2(s, spaces(s, width).as_str())
}

/// The digits of a text read as a decimal number.
pub open spec fn digits_value(s: Seq<char>) -> nat
    decreases s.len(),
{
    if s.len() == 0 {
        0
    } else {
        digits_value(s.drop_last()) * 10 + (s.last() as int - '0' as int) as nat
    }
}

pub open spec fn all_digits(s: Seq<char>) -> bool {
    forall|i: int| 0 <= i < s.len() ==> is_digit(#[trigger] s[i])
}

/// The unsigned number written in a text: an optional `+`, then one digit or
/// more, at most `max`.
pub open spec fn parse_unsigned(s: Seq<char>, max: nat) -> Option<nat> {
    let body = if s.len() > 0 && s[0] == '+' {
        s.skip(1)
    } else {
        s
    };
    if body.len() > 0 && all_digits(body) && digits_value(body) <= max {
        Some(digits_value(body))
    } else {
        None
    }
}

proof fn lemma_digits_value_grows(s: Seq<char>, n: int)
    requires
        0 <= n <= s.len(),
        all_digits(s),
    ensures
        digits_value(s.take(n)) <= digits_value(s),
    decreases s.len() - n,
{
    if n < s.len() {
        lemma_digits_value_grows(s, n + 1);
        assert(s.take(n + 1).drop_last() =~= s.take(n));
    } else {
        assert(s.take(n) =~= s);
    }
}

pub fn parse_number(s: &str, max: u64) -> (r: Option<u64>)
    ensures
        match r {
            Some(n) => parse_unsigned(s@, max as nat) == Some(n as nat),
            None => parse_unsigned(s@, max as nat) is None,
        },
{
    let v = chars_of(s);
    let mut from: usize = 0;
    if v.len() > 0 && v[0] == '+' {
        from = 1;
    }
    let ghost body = s@.skip(from as int);
    assert(from == 0 ==> body =~= s@);
    if from == v.len() {
        return None;
    }
    let mut n: u64 = 0;
    let mut i: usize = from;
    assert(body.take(0) =~= Seq::empty());
    while i < v.len()
        invariant
            v@ == s@,
            from <= i <= v@.len(),
            body == s@.skip(from as int),
            all_digits(body.take(i - from)),
            n == digits_value(body.take(i - from)),
            n <= max,
            parse_unsigned(s@, max as nat) == (if body.len() > 0 && all_digits(body)
                && digits_value(body) <= max {
                Some(digits_value(body))
            } else {
                None
            }),
        decreases v@.len() - i,
    {
        let c = v[i];
        assert(c == body[i - from]);
        if !('0' <= c && c <= '9') {
            assert(!all_digits(body)) by {
                assert(!is_digit(body[i - from]));
            }
            return None;
        }
        let d: u64 = (c as u64) - 48;
        let ghost next = body.take(i - from + 1);
        proof {
            assert(next.drop_last() =~= body.take(i - from));
            assert(next.last() == c);
            assert(digits_value(next) == n * 10 + d);
            assert forall|k: int| 0 <= k < next.len() implies is_digit(#[trigger] next[k]) by {
                if k < i - from {
                    assert(is_digit(body.take(i - from)[k]));
                }
            }
        }
        if d > max || n > (max - d) / 10 {
            proof {
                assert(n * 10 + d > max);
                if all_digits(body) {
                    lemma_digits_value_grows(body, i - from + 1);
                }
            }
            return None;
        }
        n = n * 10 + d;
        i = i + 1;
    }
    assert(body.take(i - from) =~= body);
    Some(n)
}

/// A number that fits in 32 bits.
pub open spec fn small_number(s: Seq<char>) -> Option<u32> {
    match parse_unsigned(s, u32::MAX as nat) {
        Some(n) => Some(n as u32),
        None => None,
    }
}

pub fn read_small(s: &str) -> (r: Option<u32>)
    ensures
        r == small_number(s@),
{
    match parse_number(s, 4294967295) {
        Some(n) => Some(n as u32),
        None => None,
    }
}

/// How many bytes a character takes in UTF-8.
pub open spec fn char_width(c: char) -> nat {
    if c <= '\u{7f}' {
        1
    } else if c <= '\u{7ff}' {
        2
    } else if c <= '\u{ffff}' {
        3
    } else {
        4
    }
}

/// How many bytes a text takes in UTF-8.
pub open spec fn byte_len(s: Seq<char>) -> nat
    decreases s.len(),
{
    if s.len() == 0 {
        0
    } else {
        byte_len(s.drop_last()) + char_width(s.last())
    }
}

/// Where the longest tail of `s` that takes at most `limit` bytes starts.
pub open spec fn tail_start(s: Seq<char>, limit: nat) -> int
    decreases s.len(),
{
    if s.len() == 0 {
        0
    } else if char_width(s.last()) > limit {
        s.len() as int
    } else {
        tail_start(s.drop_last(), (limit - char_width(s.last())) as nat)
    }
}

/// Two texts one after the other take the bytes of both.
pub proof fn lemma_byte_len_add(a: Seq<char>, b: Seq<char>)
    ensures
        byte_len(a + b) == byte_len(a) + byte_len(b),
    decreases b.len(),
{
    if b.len() == 0 {
        assert(a + b =~= a);
    } else {
        assert((a + b).drop_last() =~= a + b.drop_last());
        lemma_byte_len_add(a, b.drop_last());
    }
}

/// The tail fits, nothing longer fits, and the whole text fits exactly when
/// the tail is all of it.
pub proof fn lemma_tail_start(s: Seq<char>, limit: nat)
    ensures
        0 <= tail_start(s, limit) <= s.len(),
        byte_len(s.skip(tail_start(s, limit))) <= limit,
        tail_start(s, limit) > 0 ==> byte_len(s.skip(tail_start(s, limit) - 1)) > limit,
        (tail_start(s, limit) == 0) == (byte_len(s) <= limit),
    decreases s.len(),
{
    let t = tail_start(s, limit);
    if s.len() == 0 {
        assert(s.skip(0) =~= s);
    } else if char_width(s.last()) > limit {
        assert(s.skip(t) =~= Seq::empty());
        assert(s.skip(t - 1).drop_last() =~= Seq::empty());
        assert(s.skip(t - 1).last() == s.last());
    } else {
        let rest = (limit - char_width(s.last())) as nat;
        lemma_tail_start(s.drop_last(), rest);
        if t < s.len() {
            assert(s.skip(t).drop_last() =~= s.drop_last().skip(t));
        } else {
            assert(s.skip(t) =~= Seq::empty());
        }
        if t > 0 {
            assert(s.skip(t - 1).drop_last() =~= s.drop_last().skip(t - 1));
        }
    }
}

pub fn tail_index(s: &str, limit: usize) -> (i: usize)
    ensures
        i == tail_start(s@, limit as nat),
        i <= s@.len(),
{
    let v = chars_of(s);
    let mut n: usize = v.len();
    let mut left: usize = limit;
    assert(s@.take(n as int) =~= s@);
    while n > 0 && width_of(v[n - 1]) <= left
        invariant
            v@ == s@,
            n <= v@.len(),
            tail_start(s@.take(n as int), left as nat) == tail_start(s@, limit as nat),
        decreases n,
    {
        assert(s@.take(n as int).drop_last() =~= s@.take(n - 1));
        left = left - width_of(v[n - 1]);
        n = n - 1;
    }
    n
}

pub fn width_of(c: char) -> (n: usize)
    ensures
        n == char_width(c),
{
    if c <= '\u{7f}' {
        1
    } else if c <= '\u{7ff}' {
        2
    } else if c <= '\u{ffff}' {
        3
    } else {
        4
    }
}

// ---------------------------------------------------------------------------
// Words and pieces of texts put together
// ---------------------------------------------------------------------------

/// Whether a text is a word: it holds something, and no white space.
pub open spec fn is_word(s: Seq<char>) -> bool {
    s.len() > 0 && forall|k: int| 0 <= k < s.len() ==> !is_white(#[trigger] s[k])
}

proof fn lemma_words_behind(p: Seq<char>, b: Seq<char>, start: int, i: int)
    requires
        0 <= start <= i <= b.len(),
    ensures
        words_from(p + b, p.len() + start, p.len() + i) == words_from(b, start, i),
    decreases b.len() - i,
{
    let n = p.len() as int;
    assert((p + b).subrange(n + start, n + i) =~= b.subrange(start, i));
    if i < b.len() {
        assert((p + b)[n + i] == b[i]);
        if is_white(b[i]) {
            lemma_words_behind(p, b, i + 1, i + 1);
        } else {
            lemma_words_behind(p, b, start, i + 1);
        }
    }
}

proof fn lemma_words_within(a: Seq<char>, b: Seq<char>, i: int)
    requires
        is_word(a),
        0 <= i <= a.len(),
    ensures
        words_from(a + " "@ + b, 0, i) == seq![a] + words(b),
    decreases a.len() - i,
{
    reveal_strlit(" ");
    let s = a + " "@ + b;
    if i < a.len() {
        assert(s[i] == a[i]);
        lemma_words_within(a, b, i + 1);
    } else {
        assert(s[i] == ' ');
        assert(s.subrange(0, i) =~= a);
        assert(s =~= (a + " "@) + b);
        lemma_words_behind(a + " "@, b, 0, 0);
    }
}

/// The words of a word, a space and a text are that word and those of the text.
pub proof fn lemma_first_word(a: Seq<char>, b: Seq<char>)
    requires
        is_word(a),
    ensures
        words(a + " "@ + b) == seq![a] + words(b),
{
    lemma_words_within(a, b, 0);
}

proof fn lemma_word_within(a: Seq<char>, i: int)
    requires
        is_word(a),
        0 <= i <= a.len(),
    ensures
        words_from(a, 0, i) == seq![a],
    decreases a.len() - i,
{
    if i < a.len() {
        assert(!is_white(a[i]));
        lemma_word_within(a, i + 1);
    } else {
        assert(a.subrange(0, i) =~= a);
    }
}

/// The only word of a word is itself.
pub proof fn lemma_only_word(a: Seq<char>)
    requires
        is_word(a),
    ensures
        words(a) == seq![a],
{
    lemma_word_within(a, 0);
}

proof fn lemma_split_behind(p: Seq<char>, b: Seq<char>, c: char, start: int, i: int)
    requires
        0 <= start <= i <= b.len(),
    ensures
        split_from(p + b, c, p.len() + start, p.len() + i) == split_from(b, c, start, i),
    decreases b.len() - i,
{
    let n = p.len() as int;
    assert((p + b).subrange(n + start, n + i) =~= b.subrange(start, i));
    if i < b.len() {
        assert((p + b)[n + i] == b[i]);
        if b[i] == c {
            lemma_split_behind(p, b, c, i + 1, i + 1);
        } else {
            lemma_split_behind(p, b, c, start, i + 1);
        }
    } else {
        assert((p + b).subrange(n + start, n + b.len()) =~= b.subrange(start, b.len() as int));
    }
}

proof fn lemma_split_within(a: Seq<char>, b: Seq<char>, c: char, i: int)
    requires
        !a.contains(c),
        0 <= i <= a.len(),
    ensures
        split_from(a.push(c) + b, c, 0, i) == seq![a] + split(b, c),
    decreases a.len() - i,
{
    let s = a.push(c) + b;
    if i < a.len() {
        assert(s[i] == a[i]);
        assert(a.contains(a[i]));
        lemma_split_within(a, b, c, i + 1);
    } else {
        assert(s[i] == c);
        assert(s.subrange(0, i) =~= a);
        lemma_split_behind(a.push(c), b, c, 0, 0);
    }
}

/// The first piece of a text ends at the first sign that separates them.
pub proof fn lemma_first_piece(a: Seq<char>, b: Seq<char>, c: char)
    requires
        !a.contains(c),
    ensures
        split(a.push(c) + b, c) == seq![a] + split(b, c),
{
    lemma_split_within(a, b, c, 0);
}

proof fn lemma_piece_within(a: Seq<char>, c: char, i: int)
    requires
        !a.contains(c),
        0 <= i <= a.len(),
    ensures
        split_from(a, c, 0, i) == seq![a],
    decreases a.len() - i,
{
    if i < a.len() {
        assert(a.contains(a[i]));
        lemma_piece_within(a, c, i + 1);
    } else {
        assert(a.subrange(0, a.len() as int) =~= a);
    }
}

/// A text without the sign that separates pieces is one piece.
pub proof fn lemma_only_piece(a: Seq<char>, c: char)
    requires
        !a.contains(c),
    ensures
        split(a, c) == seq![a],
{
    lemma_piece_within(a, c, 0);
}

} // verus!
