//! Keeping secrets out of anything that is shown or stored.
//!
//! A signed media URL carries its credential in the query, and sometimes in the
//! user information or the fragment. A redacted URL keeps the scheme, the host
//! and the path, and replaces the rest by fixed placeholders.

use vstd::prelude::*;
use crate::text;

verus! {

pub const QUERY_PLACEHOLDER: &'static str = "?…";

pub const FRAGMENT_PLACEHOLDER: &'static str = "#…";

pub const USERINFO_PLACEHOLDER: &'static str = "…@";

/// The longest line that redaction lets through.
pub const MAX_LINE_CHARS: usize = 2000;

/// What stands at the end of a line that was cut short.
pub const TRUNCATION_MARK: char = '…';

/// The characters, besides white space, at which a URL within a line ends.
pub const URL_TERMINATORS: &'static str = "'\"<>\\`|^{}";

/// What a sentence may put behind a URL without it being part of the URL.
pub const TRAILING_PUNCTUATION: &'static str = ".,;:!)]}>";

/// An authority without its user information.
pub open spec fn redacted_authority(authority: Seq<char>) -> Seq<char> {
    let at = text::last_char(authority, '@', authority.len() as int);
    if at >= 0 {
        USERINFO_PLACEHOLDER@ + authority.skip(at + 1)
    } else {
        authority
    }
}

/// What stands behind the scheme, redacted; `None` if it names no host.
pub open spec fn redacted_rest(rest: Seq<char>) -> Option<Seq<char>> {
    let query = text::next_char(rest, '?', 0);
    let fragment = text::next_char(rest, '#', 0);
    let head = rest.take(if query < fragment { query } else { fragment });
    let slash = text::next_char(head, '/', 0);
    if slash == 0 {
        None
    } else {
        Some(
            redacted_authority(head.take(slash)) + head.skip(slash) + (if query < rest.len() {
                QUERY_PLACEHOLDER@
            } else {
                Seq::empty()
            }) + (if fragment < rest.len() {
                FRAGMENT_PLACEHOLDER@
            } else {
                Seq::empty()
            }),
        )
    }
}

/// A URL with its query, fragment and user information replaced. A text that
/// names no scheme or no host is not a URL and is kept.
pub open spec fn redacted_url(url: Seq<char>) -> Seq<char> {
    match text::find(url, "://"@) {
        Some(i) => match redacted_rest(url.skip(i + 3)) {
            Some(rest) => url.take(i + 3) + rest,
            None => url,
        },
        None => url,
    }
}

/// Replace everything in a URL that may carry a secret.
#[verifier::rlimit(40)]
pub fn redact_url(url: &str) -> (r: String)
    ensures
        r@ == redacted_url(url@),
{
    proof {
        reveal_strlit("://");
    }
    let separator = match text::find_text(url, "://") {
        Some(i) => i,
        None => {
            return text::owned(url);
        },
    };
    let all = text::chars_of(url);
    let total: usize = all.len();
    let scheme = text::string_of(&all, 0, separator + 3);
    let rest = text::string_of(&all, separator + 3, total);
    assert(scheme@ =~= url@.take(separator + 3));
    assert(rest@ =~= url@.skip(separator + 3));
    let chars = text::chars_of(rest.as_str());
    let length: usize = chars.len();
    let query = text::index_of(rest.as_str(), '?');
    let fragment = text::index_of(rest.as_str(), '#');
    let cut: usize = if query < fragment { query } else { fragment };
    let head = text::string_of(&chars, 0, cut);
    assert(head@ =~= rest@.take(cut as int));
    let slash = text::index_of(head.as_str(), '/');
    if slash == 0 {
        return text::owned(url);
    }
    let authority = text::slice(head.as_str(), 0, slash);
    assert(authority@ =~= head@.take(slash as int));
    let path = text::slice(head.as_str(), slash, cut);
    assert(path@ =~= head@.skip(slash as int));
    let mut r = scheme;
    match text::last_index_of(authority.as_str(), '@') {
        Some(at) => {
            r.append(USERINFO_PLACEHOLDER);
            let host = text::slice(authority.as_str(), at + 1, slash);
            assert(host@ =~= authority@.skip(at + 1));
            r.append(host.as_str());
        },
        None => {
            r.append(authority.as_str());
        },
    }
    r.append(path.as_str());
    if query < length {
        r.append(QUERY_PLACEHOLDER);
    }
    if fragment < length {
        r.append(FRAGMENT_PLACEHOLDER);
    }
    assert(r@ =~= url@.take(separator + 3) + redacted_rest(rest@)->0);
    r
}

/// Where the first `http://` or `https://` of a text starts, in any case.
pub open spec fn scheme_at(s: Seq<char>) -> Option<int> {
    match (text::find(text::lower(s), "http://"@), text::find(text::lower(s), "https://"@)) {
        (Some(a), Some(b)) => Some(if a < b { a } else { b }),
        (Some(a), None) => Some(a),
        (None, b) => b,
    }
}

/// Whether a URL within a line ends before this character.
pub open spec fn ends_url(c: char) -> bool {
    text::is_white(c) || URL_TERMINATORS@.contains(c)
}

/// The index of the first character at or after `i` that ends a URL.
pub open spec fn url_end(s: Seq<char>, i: int) -> int
    decreases s.len() - i,
{
    if i < 0 || i >= s.len() {
        s.len() as int
    } else if ends_url(s[i]) {
        i
    } else {
        url_end(s, i + 1)
    }
}

/// A scheme starts within the text, and the URL there is not empty.
pub proof fn lemma_scheme_at(s: Seq<char>)
    ensures
        scheme_at(s) matches Some(i) ==> 0 <= i < s.len() && text::lower_char(s[i]) == 'h' && url_end(
            s.skip(i),
            0,
        ) > 0,
{
    reveal_strlit("http://");
    reveal_strlit("https://");
    reveal_strlit("'\"<>\\`|^{}");
    text::lemma_find_from(text::lower(s), "http://"@, 0);
    text::lemma_find_from(text::lower(s), "https://"@, 0);
    if let Some(i) = scheme_at(s) {
        if text::occurs_at(text::lower(s), "http://"@, i) {
            assert(text::lower(s).subrange(i, i + 7)[0] == 'h');
        } else {
            assert(text::lower(s).subrange(i, i + 8)[0] == 'h');
        }
        let t = s.skip(i);
        assert(t[0] == s[i]);
        assert(t[0] == 'h' || t[0] == 'H');
        assert(!ends_url(t[0]));
        lemma_url_end(t, 1);
    }
}

/// A URL ends within the text, at the first character that ends one.
pub proof fn lemma_url_end(s: Seq<char>, i: int)
    requires
        0 <= i <= s.len(),
    ensures
        i <= url_end(s, i) <= s.len(),
        forall|j: int| i <= j < url_end(s, i) ==> !ends_url(#[trigger] s[j]),
        url_end(s, i) < s.len() ==> ends_url(s[url_end(s, i)]),
    decreases s.len() - i,
{
    if i < s.len() && !ends_url(s[i]) {
        lemma_url_end(s, i + 1);
    }
}

/// A text with each URL in it redacted. The URL reaches to the next character
/// that ends one, less the punctuation that belongs to the sentence.
pub open spec fn redacted_urls(s: Seq<char>) -> Seq<char>
    decreases s.len(),
{
    match scheme_at(s) {
        Some(i) => {
            let rest = s.skip(i);
            let matched = rest.take(url_end(rest, 0));
            let url = text::trim_end_of(matched, TRAILING_PUNCTUATION@);
            proof {
                lemma_scheme_at(s);
                lemma_url_end(rest, 0);
            }
            s.take(i) + redacted_url(url) + matched.skip(url.len() as int) + redacted_urls(
                rest.skip(url_end(rest, 0)),
            )
        },
        None => s,
    }
}

/// A text cut to `MAX_LINE_CHARS`, marked where it was cut.
pub open spec fn truncated(s: Seq<char>) -> Seq<char> {
    if s.len() <= MAX_LINE_CHARS {
        s
    } else {
        s.take(MAX_LINE_CHARS - 1).push(TRUNCATION_MARK)
    }
}

pub open spec fn redacted_text(s: Seq<char>) -> Seq<char> {
    truncated(redacted_urls(s))
}

proof fn lemma_trim_end_of(s: Seq<char>, set: Seq<char>)
    ensures
        ({
            let t = text::trim_end_of(s, set);
            &&& t.len() <= s.len()
            &&& t == s.take(t.len() as int)
            &&& t.len() > 0 ==> !set.contains(t.last())
            &&& forall|j: int| t.len() <= j < s.len() ==> set.contains(#[trigger] s[j])
        }),
    decreases s.len(),
{
    if s.len() > 0 && set.contains(s.last()) {
        lemma_trim_end_of(s.drop_last(), set);
        let t = text::trim_end_of(s, set);
        assert(s.drop_last().take(t.len() as int) =~= s.take(t.len() as int));
        assert forall|j: int| t.len() <= j < s.len() implies set.contains(#[trigger] s[j]) by {
            if j < s.len() - 1 {
                assert(s[j] == s.drop_last()[j]);
            }
        }
    } else {
        assert(s.take(s.len() as int) =~= s);
    }
}

fn find_scheme(s: &str) -> (r: Option<usize>)
    ensures
        text::opt_index(r) == scheme_at(s@),
{
    let low = text::to_ascii_lower(s);
    let http = text::find_text(low.as_str(), "http://");
    let https = text::find_text(low.as_str(), "https://");
    match (http, https) {
        (Some(a), Some(b)) => Some(if a < b { a } else { b }),
        (Some(a), None) => Some(a),
        (None, b) => b,
    }
}

fn find_url_end(s: &str) -> (r: usize)
    ensures
        r == url_end(s@, 0),
        r <= s@.len(),
{
    let v = text::chars_of(s);
    let terminators = text::chars_of(URL_TERMINATORS);
    let mut i: usize = 0;
    while i < v.len()
        invariant
            v@ == s@,
            terminators@ == URL_TERMINATORS@,
            i <= v@.len(),
            url_end(s@, i as int) == url_end(s@, 0),
        decreases v@.len() - i,
    {
        if text::white(v[i]) || text::has_char(&terminators, v[i]) {
            return i;
        }
        i = i + 1;
    }
    v.len()
}

fn truncate(s: String) -> (r: String)
    ensures
        r@ == truncated(s@),
{
    let v = text::chars_of(s.as_str());
    if v.len() <= MAX_LINE_CHARS {
        return s;
    }
    let mut r = text::string_of(&v, 0, MAX_LINE_CHARS - 1);
    r.push(TRUNCATION_MARK);
    assert(r@ =~= s@.take(MAX_LINE_CHARS - 1).push(TRUNCATION_MARK));
    r
}

/// Redact every URL in a text, and bound its length.
pub fn redact_text(text: &str) -> (r: String)
    ensures
        r@ == redacted_text(text@),
        r@.len() <= MAX_LINE_CHARS,
{
    let mut out = String::new();
    let mut rest = text::owned(text);
    assert(out@ + redacted_urls(rest@) =~= redacted_urls(text@));
    loop
        invariant
            out@ + redacted_urls(rest@) == redacted_urls(text@),
        ensures
            out@ + rest@ == redacted_urls(text@),
        decreases rest@.len(),
    {
        let start = match find_scheme(rest.as_str()) {
            Some(i) => i,
            None => {
                break;
            },
        };
        proof {
            lemma_scheme_at(rest@);
        }
        let all = text::chars_of(rest.as_str());
        let total: usize = all.len();
        let before = text::string_of(&all, 0, start);
        let candidate = text::string_of(&all, start, total);
        assert(before@ =~= rest@.take(start as int));
        assert(candidate@ =~= rest@.skip(start as int));
        let end = find_url_end(candidate.as_str());
        let matched = text::slice(candidate.as_str(), 0, end);
        assert(matched@ =~= candidate@.take(end as int));
        let url = text::trimmed_end_of(matched.as_str(), TRAILING_PUNCTUATION);
        proof {
            lemma_trim_end_of(matched@, TRAILING_PUNCTUATION@);
        }
        let behind = text::slice(matched.as_str(), text::chars_of(url.as_str()).len(), end);
        assert(behind@ =~= matched@.skip(url@.len() as int));
        let redacted = redact_url(url.as_str());
        let next = text::slice(candidate.as_str(), end, total - start);
        assert(next@ =~= candidate@.skip(end as int));
        let ghost done = out@;
        out.append(before.as_str());
        out.append(redacted.as_str());
        out.append(behind.as_str());
        assert(out@ + redacted_urls(next@) =~= done + redacted_urls(rest@));
        rest = next;
    }
    out.append(rest.as_str());
    truncate(out)
}

// ---------------------------------------------------------------------------
// Laws
// ---------------------------------------------------------------------------

pub proof fn lemma_next_char_is(s: Seq<char>, c: char, i: int, k: int)
    requires
        0 <= i <= k <= s.len(),
        forall|j: int| i <= j < k ==> s[j] != c,
        k < s.len() ==> s[k] == c,
    ensures
        text::next_char(s, c, i) == k,
    decreases k - i,
{
    if i < k {
        lemma_next_char_is(s, c, i + 1, k);
    }
}

pub proof fn lemma_last_char_is(s: Seq<char>, c: char, n: int, k: int)
    requires
        -1 <= k < n <= s.len(),
        forall|j: int| k < j < n ==> s[j] != c,
        k >= 0 ==> s[k] == c,
    ensures
        text::last_char(s, c, n) == k,
    decreases n,
{
    if n - 1 > k {
        lemma_last_char_is(s, c, n - 1, k);
    }
}

proof fn lemma_find_in_longer(p: Seq<char>, z: Seq<char>, pattern: Seq<char>)
    requires
        text::find(p, pattern) is Some,
    ensures
        text::find(p + z, pattern) == text::find(p, pattern),
        0 <= text::find(p, pattern)->0 <= p.len() - pattern.len(),
{
    let i = text::find(p, pattern)->0;
    text::lemma_find_from(p, pattern, 0);
    text::lemma_find_from(p + z, pattern, 0);
    assert((p + z).subrange(i, i + pattern.len()) =~= p.subrange(i, i + pattern.len()));
    assert(text::occurs_at(p + z, pattern, i));
    let j = text::find(p + z, pattern)->0;
    if j < i {
        assert((p + z).subrange(j, j + pattern.len()) =~= p.subrange(j, j + pattern.len()));
        assert(text::occurs_at(p, pattern, j));
    }
}

/// Two URLs that differ only in their query are redacted to the same text:
/// nothing of a query is left. `url` is all that stands before the query; it
/// names a host, and each query has a fragment behind it if the other does.
pub proof fn law_a_query_is_forgotten(url: Seq<char>, one: Seq<char>, other: Seq<char>)
    requires
        !url.contains('?') && !url.contains('#'),
        text::find(url, "://"@) matches Some(i) && i + 3 < url.len() && url[i + 3] != '/',
        one.contains('#') == other.contains('#'),
    ensures
        redacted_url(url + "?"@ + one) == redacted_url(url + "?"@ + other),
{
    reveal_strlit("://");
    reveal_strlit("?");
    lemma_query_cut(url, one);
    lemma_query_cut(url, other);
}

proof fn lemma_query_cut(url: Seq<char>, query: Seq<char>)
    requires
        !url.contains('?') && !url.contains('#'),
        text::find(url, "://"@) matches Some(i) && i + 3 < url.len() && url[i + 3] != '/',
    ensures
        ({
            let i = text::find(url, "://"@)->0;
            let rest = url.skip(i + 3);
            let slash = text::next_char(rest, '/', 0);
            redacted_url(url + "?"@ + query) == url.take(i + 3) + (redacted_authority(
                rest.take(slash),
            ) + rest.skip(slash) + QUERY_PLACEHOLDER@ + (if query.contains('#') {
                FRAGMENT_PLACEHOLDER@
            } else {
                Seq::empty()
            }))
        }),
{
    reveal_strlit("://");
    reveal_strlit("?");
    let z = "?"@ + query;
    let whole = url + "?"@ + query;
    assert(whole =~= url + z);
    lemma_find_in_longer(url, z, "://"@);
    let i = text::find(url, "://"@)->0;
    let head = url.skip(i + 3);
    let rest = whole.skip(i + 3);
    assert(rest =~= head + z);
    assert forall|j: int| 0 <= j < head.len() implies rest[j] != '?' && rest[j] != '#' by {
        assert(rest[j] == url[i + 3 + j]);
        assert(url.contains(url[i + 3 + j]));
    }
    assert(rest[head.len() as int] == '?');
    lemma_next_char_is(rest, '?', 0, head.len() as int);
    text::lemma_next_char(rest, '#', 0);
    let fragment = text::next_char(rest, '#', 0);
    assert(fragment > head.len()) by {
        if fragment <= head.len() {
            assert(fragment < rest.len());
            assert(rest[fragment] == '#');
        }
    }
    if query.contains('#') {
        let k = choose|k: int| 0 <= k < query.len() && query[k] == '#';
        assert(rest[head.len() + 1 + k] == '#');
        assert(fragment < rest.len());
    } else if fragment < rest.len() {
        assert(query[fragment - head.len() - 1] == '#');
    }
    assert(rest.take(head.len() as int) =~= head);
    assert(head[0] == url[i + 3]);
    text::lemma_next_char(head, '/', 0);
    assert(whole.take(i + 3) =~= url.take(i + 3));
}

/// Two URLs that differ only in their user information are redacted to the same
/// text: neither a name nor a password is left.
pub proof fn law_user_information_is_forgotten(
    scheme: Seq<char>,
    one: Seq<char>,
    other: Seq<char>,
    rest: Seq<char>,
)
    requires
        !scheme.contains(':'),
        forall|i: int|
            0 <= i < one.len() ==> (#[trigger] one[i]) != '/' && one[i] != '?' && one[i] != '#',
        forall|i: int|
            0 <= i < other.len() ==> (#[trigger] other[i]) != '/' && other[i] != '?' && other[i]
                != '#',
    ensures
        redacted_url(scheme + "://"@ + one + "@"@ + rest) == redacted_url(
            scheme + "://"@ + other + "@"@ + rest,
        ),
{
    lemma_user_cut(scheme, one, rest);
    lemma_user_cut(scheme, other, rest);
}

#[verifier::rlimit(40)]
proof fn lemma_user_cut(scheme: Seq<char>, user: Seq<char>, rest: Seq<char>)
    requires
        !scheme.contains(':'),
        forall|i: int|
            0 <= i < user.len() ==> (#[trigger] user[i]) != '/' && user[i] != '?' && user[i] != '#',
    ensures
        ({
            let query = text::next_char(rest, '?', 0);
            let fragment = text::next_char(rest, '#', 0);
            let head = rest.take(if query < fragment { query } else { fragment });
            let slash = text::next_char(head, '/', 0);
            let host = head.take(slash);
            redacted_url(scheme + "://"@ + user + "@"@ + rest) == scheme + "://"@ + (
            USERINFO_PLACEHOLDER@ + host.skip(text::last_char(host, '@', host.len() as int) + 1)
                + head.skip(slash) + (if query < rest.len() {
                QUERY_PLACEHOLDER@
            } else {
                Seq::empty()
            }) + (if fragment < rest.len() {
                FRAGMENT_PLACEHOLDER@
            } else {
                Seq::empty()
            }))
        }),
{
    reveal_strlit("://");
    reveal_strlit("@");
    let whole = scheme + "://"@ + user + "@"@ + rest;
    let n = scheme.len() as int;
    let u = user.len() as int;
    assert(whole.subrange(n, n + 3) =~= "://"@);
    assert(text::occurs_at(whole, "://"@, n));
    text::lemma_find_from(whole, "://"@, 0);
    let i = text::find(whole, "://"@)->0;
    if i < n {
        assert(whole.subrange(i, i + 3)[0] == ':');
        assert(scheme[i] == ':');
        assert(scheme.contains(':'));
    }
    assert(i == n);
    let tail = whole.skip(n + 3);
    assert(tail =~= user + "@"@ + rest);
    text::lemma_next_char(rest, '?', 0);
    text::lemma_next_char(rest, '#', 0);
    let query = text::next_char(rest, '?', 0);
    let fragment = text::next_char(rest, '#', 0);
    assert forall|j: int| 0 <= j < u + 1 + query implies tail[j] != '?' by {
        if j < u {
            assert(tail[j] == user[j]);
        } else if j > u {
            assert(tail[j] == rest[j - u - 1]);
        }
    }
    assert forall|j: int| 0 <= j < u + 1 + fragment implies tail[j] != '#' by {
        if j < u {
            assert(tail[j] == user[j]);
        } else if j > u {
            assert(tail[j] == rest[j - u - 1]);
        }
    }
    lemma_next_char_is(tail, '?', 0, u + 1 + query);
    lemma_next_char_is(tail, '#', 0, u + 1 + fragment);
    let cut = if query < fragment { query } else { fragment };
    let head = rest.take(cut);
    let long = tail.take(u + 1 + cut);
    text::lemma_next_char(head, '/', 0);
    let slash = text::next_char(head, '/', 0);
    assert forall|j: int| 0 <= j < u + 1 + slash implies long[j] != '/' by {
        if j < u {
            assert(long[j] == user[j]);
        } else if j > u {
            assert(long[j] == head[j - u - 1]);
        }
    }
    lemma_next_char_is(long, '/', 0, u + 1 + slash);
    let host = head.take(slash);
    let authority = long.take(u + 1 + slash);
    text::lemma_last_char(host, '@', host.len() as int);
    let at = text::last_char(host, '@', host.len() as int);
    assert(authority[u] == '@');
    assert forall|j: int| u + 1 + at < j < authority.len() implies authority[j] != '@' by {
        assert(authority[j] == host[j - u - 1]);
    }
    if at >= 0 {
        assert(authority[u + 1 + at] == host[at]);
    }
    lemma_last_char_is(authority, '@', authority.len() as int, u + 1 + at);
    assert(authority.skip(u + 1 + at + 1) =~= host.skip(at + 1));
    assert(long.skip(u + 1 + slash) =~= head.skip(slash));
    assert(whole.take(n + 3) =~= scheme + "://"@);
}

pub proof fn lemma_url_end_is(s: Seq<char>, i: int, k: int)
    requires
        0 <= i <= k <= s.len(),
        forall|j: int| i <= j < k ==> !ends_url(#[trigger] s[j]),
        k < s.len() ==> ends_url(s[k]),
    ensures
        url_end(s, i) == k,
    decreases k - i,
{
    if i < k {
        lemma_url_end_is(s, i + 1, k);
    }
}

/// A line with a URL in it: what stands before the URL, the URL, its query, and
/// what stands behind it.
pub open spec fn line_with_query(
    before: Seq<char>,
    url: Seq<char>,
    query: Seq<char>,
    after: Seq<char>,
) -> Seq<char> {
    before + (url + "?"@ + query) + after
}

/// Whether the first URL of such a line is the one between `before` and `after`:
/// it starts there, nothing in it ends it, its query does not end in the
/// punctuation of a sentence, and what stands behind it does end it.
pub open spec fn holds_url(
    before: Seq<char>,
    url: Seq<char>,
    query: Seq<char>,
    after: Seq<char>,
) -> bool {
    &&& scheme_at(line_with_query(before, url, query, after)) == Some(before.len() as int)
    &&& forall|i: int| 0 <= i < url.len() ==> !ends_url(#[trigger] url[i])
    &&& forall|i: int| 0 <= i < query.len() ==> !ends_url(#[trigger] query[i])
    &&& query.len() > 0 && !TRAILING_PUNCTUATION@.contains(query.last())
    &&& after.len() > 0 ==> ends_url(after[0])
}

/// Two lines that differ only in the query of a URL in them are redacted to the
/// same text: what is logged or shown does not depend on a query.
pub proof fn law_a_line_forgets_a_query(
    before: Seq<char>,
    url: Seq<char>,
    one: Seq<char>,
    other: Seq<char>,
    after: Seq<char>,
)
    requires
        !url.contains('?') && !url.contains('#'),
        text::find(url, "://"@) matches Some(i) && i + 3 < url.len() && url[i + 3] != '/',
        one.contains('#') == other.contains('#'),
        holds_url(before, url, one, after),
        holds_url(before, url, other, after),
    ensures
        redacted_text(line_with_query(before, url, one, after)) == redacted_text(
            line_with_query(before, url, other, after),
        ),
{
    law_a_query_is_forgotten(url, one, other);
    lemma_line_cut(before, url, one, after);
    lemma_line_cut(before, url, other, after);
}

proof fn lemma_line_cut(before: Seq<char>, url: Seq<char>, query: Seq<char>, after: Seq<char>)
    requires
        holds_url(before, url, query, after),
    ensures
        redacted_urls(line_with_query(before, url, query, after)) == before + redacted_url(
            url + "?"@ + query,
        ) + redacted_urls(after),
{
    reveal_strlit("?");
    reveal_strlit("'\"<>\\`|^{}");
    let whole = url + "?"@ + query;
    let line = line_with_query(before, url, query, after);
    let n = before.len() as int;
    let rest = line.skip(n);
    let k = whole.len() as int;
    assert(rest =~= whole + after);
    assert(line.take(n) =~= before);
    assert(!ends_url('?'));
    assert forall|j: int| 0 <= j < k implies !ends_url(#[trigger] rest[j]) by {
        if j < url.len() {
            assert(rest[j] == url[j]);
        } else if j == url.len() {
            assert(rest[j] == '?');
        } else {
            assert(rest[j] == query[j - url.len() - 1]);
        }
    }
    if k < rest.len() {
        assert(rest[k] == after[0]);
    }
    lemma_url_end_is(rest, 0, k);
    let matched = rest.take(k);
    assert(matched =~= whole);
    assert(whole.last() == query.last());
    assert(text::trim_end_of(matched, TRAILING_PUNCTUATION@) == whole);
    assert(matched.skip(k) =~= Seq::empty());
    assert(rest.skip(k) =~= after);
    assert(redacted_urls(line) =~= before + redacted_url(whole) + redacted_urls(after));
}

/// What is left of an authority and a path, with the placeholders behind it, is
/// redacted to itself.
#[verifier::rlimit(40)]
proof fn lemma_rest_again(rest: Seq<char>)
    ensures
        redacted_rest(rest) matches Some(r) ==> redacted_rest(r) == Some(r) && r.len() > 0 && (
        rest.len() > 0 && !TRAILING_PUNCTUATION@.contains(rest.last())
            ==> !TRAILING_PUNCTUATION@.contains(r.last())) && ((forall|i: int|
            0 <= i < rest.len() ==> !ends_url(#[trigger] rest[i])) ==> (forall|i: int|
            0 <= i < r.len() ==> !ends_url(#[trigger] r[i]))),
{
    reveal_strlit("?…");
    reveal_strlit("#…");
    reveal_strlit("…@");
    reveal_strlit("'\"<>\\`|^{}");
    reveal_strlit(".,;:!)]}>");
    let query = text::next_char(rest, '?', 0);
    let fragment = text::next_char(rest, '#', 0);
    text::lemma_next_char(rest, '?', 0);
    text::lemma_next_char(rest, '#', 0);
    let cut = if query < fragment { query } else { fragment };
    let head = rest.take(cut);
    let slash = text::next_char(head, '/', 0);
    text::lemma_next_char(head, '/', 0);
    if slash != 0 {
        let authority = head.take(slash);
        let path = head.skip(slash);
        let at = text::last_char(authority, '@', authority.len() as int);
        text::lemma_last_char(authority, '@', authority.len() as int);
        let kept = redacted_authority(authority);
        let base = kept + path;
        let q: Seq<char> = if query < rest.len() {
            QUERY_PLACEHOLDER@
        } else {
            Seq::empty()
        };
        let f: Seq<char> = if fragment < rest.len() {
            FRAGMENT_PLACEHOLDER@
        } else {
            Seq::empty()
        };
        let r = base + q + f;
        assert(redacted_rest(rest) == Some(r));
        assert forall|j: int| 0 <= j < kept.len() implies kept[j] != '/' && kept[j] != '?'
            && kept[j] != '#' && (kept[j] == '…' || kept[j] == '@' || rest.contains(kept[j])) by {
            if at >= 0 {
                if j >= 2 {
                    assert(kept[j] == authority[at + 1 + j - 2]);
                    assert(kept[j] == rest[at + 1 + j - 2]);
                }
            } else {
                assert(kept[j] == rest[j]);
            }
        }
        assert forall|j: int| 0 <= j < path.len() implies path[j] != '?' && path[j] != '#'
            && rest.contains(path[j]) by {
            assert(path[j] == rest[slash + j]);
        }
        assert forall|j: int| 0 <= j < base.len() implies base[j] != '?' && base[j] != '#' by {
            if j < kept.len() {
                assert(base[j] == kept[j]);
            } else {
                assert(base[j] == path[j - kept.len()]);
            }
        }
        let n = base.len() as int;
        assert forall|j: int| 0 <= j < n implies r[j] == base[j] by {}
        if query < rest.len() {
            assert(r[n] == '?');
            assert(r[n + 1] == '…');
            lemma_next_char_is(r, '?', 0, n);
        } else {
            assert forall|j: int| 0 <= j < r.len() implies r[j] != '?' by {}
            lemma_next_char_is(r, '?', 0, r.len() as int);
        }
        if fragment < rest.len() {
            assert(r[n + q.len()] == '#');
            lemma_next_char_is(r, '#', 0, n + q.len());
        } else {
            assert forall|j: int| 0 <= j < r.len() implies r[j] != '#' by {}
            lemma_next_char_is(r, '#', 0, r.len() as int);
        }
        assert(r.take(n) =~= base);
        let a = kept.len() as int;
        if a < n {
            assert(base[a] == path[0]);
            assert(path[0] == head[slash]);
        }
        lemma_next_char_is(base, '/', 0, a);
        assert(base.take(a) =~= kept);
        assert(base.skip(a) =~= path);
        if at >= 0 {
            assert(kept[1] == '@');
            assert forall|j: int| 1 < j < kept.len() implies kept[j] != '@' by {
                assert(kept[j] == authority[at + 1 + j - 2]);
            }
            lemma_last_char_is(kept, '@', a, 1);
            assert(kept =~= USERINFO_PLACEHOLDER@ + kept.skip(2));
        } else {
            assert(kept == authority);
        }
        assert(redacted_rest(r) == Some(r));
        if (forall|i: int| 0 <= i < rest.len() ==> !ends_url(#[trigger] rest[i])) {
            assert forall|i: int| 0 <= i < r.len() implies !ends_url(#[trigger] r[i]) by {
                assert(!ends_url('…') && !ends_url('?') && !ends_url('#') && !ends_url('@'));
                if i < a {
                    assert(r[i] == kept[i]);
                    if kept[i] != '…' && kept[i] != '@' {
                        let k = choose|k: int| 0 <= k < rest.len() && rest[k] == kept[i];
                        assert(!ends_url(rest[k]));
                    }
                } else if i < n {
                    assert(r[i] == path[i - a]);
                    assert(r[i] == rest[slash + i - a]);
                }
            }
        }
        if q.len() == 0 && f.len() == 0 {
            assert(cut == rest.len());
            assert(r =~= base);
            if path.len() > 0 {
                assert(r.last() == path.last());
                assert(r.last() == rest.last());
            } else {
                assert(r.last() == kept.last());
                assert(authority.len() == rest.len());
                if at < 0 || at + 1 < authority.len() {
                    assert(kept.last() == authority.last());
                    assert(r.last() == rest.last());
                } else {
                    assert(r.last() == '@');
                }
            }
        } else if f.len() > 0 {
            assert(r.last() == '…');
        } else {
            assert(r.last() == '…');
        }
    }
}

/// A redacted URL is redacted to itself, and is as much of a URL as before.
proof fn lemma_url_again(url: Seq<char>)
    requires
        text::find(url, "://"@) is Some,
        !TRAILING_PUNCTUATION@.contains(url.last()),
        forall|i: int| 0 <= i < url.len() ==> !ends_url(#[trigger] url[i]),
    ensures
        redacted_url(redacted_url(url)) == redacted_url(url),
        ({
            let k = text::find(url, "://"@)->0;
            0 <= k <= url.len() - 3 && redacted_url(url).len() >= k + 3 && redacted_url(url).take(
                k + 3,
            ) == url.take(k + 3)
        }),
        !TRAILING_PUNCTUATION@.contains(redacted_url(url).last()),
        forall|i: int| 0 <= i < redacted_url(url).len() ==> !ends_url(#[trigger] redacted_url(url)[i]),
{
    reveal_strlit("://");
    text::lemma_find_from(url, "://"@, 0);
    let k = text::find(url, "://"@)->0;
    let prefix = url.take(k + 3);
    let rest = url.skip(k + 3);
    assert(prefix + rest =~= url);
    lemma_rest_again(rest);
    match redacted_rest(rest) {
        Some(r) => {
            let again = prefix + r;
            assert(redacted_url(url) == again);
            lemma_prefix_is_found(url, again, k);
            assert(again.take(k + 3) =~= prefix);
            assert(again.skip(k + 3) =~= r);
            assert(rest.len() > 0) by {
                if rest.len() == 0 {
                    assert(text::next_char(rest, '?', 0) == 0);
                    assert(rest.take(0) =~= rest);
                    assert(text::next_char(rest, '/', 0) == 0);
                }
            }
            assert(rest.last() == url.last());
            assert(again.last() == r.last());
            assert forall|i: int| 0 <= i < rest.len() implies !ends_url(#[trigger] rest[i]) by {
                assert(rest[i] == url[k + 3 + i]);
            }
            assert forall|i: int| 0 <= i < again.len() implies !ends_url(#[trigger] again[i]) by {
                if i < k + 3 {
                    assert(again[i] == url[i]);
                } else {
                    assert(again[i] == r[i - k - 3]);
                }
            }
        },
        None => {},
    }
}

/// The first `://` of a text is the first of any other that begins alike.
proof fn lemma_prefix_is_found(url: Seq<char>, other: Seq<char>, k: int)
    requires
        text::find(url, "://"@) == Some(k),
        0 <= k <= url.len() - 3,
        k + 3 <= other.len(),
        forall|j: int| 0 <= j < k + 3 ==> url[j] == other[j],
    ensures
        text::find(other, "://"@) == Some(k),
{
    reveal_strlit("://");
    text::lemma_find_from(url, "://"@, 0);
    text::lemma_find_from(other, "://"@, 0);
    assert(other.subrange(k, k + 3) =~= url.subrange(k, k + 3));
    assert(text::occurs_at(other, "://"@, k));
    let j = text::find(other, "://"@)->0;
    if j < k {
        assert(other.subrange(j, j + 3) =~= url.subrange(j, j + 3));
        assert(text::occurs_at(url, "://"@, j));
    }
}

proof fn lemma_trims_to(s: Seq<char>, more: Seq<char>, set: Seq<char>)
    requires
        s.len() > 0 && !set.contains(s.last()),
        forall|j: int| 0 <= j < more.len() ==> set.contains(#[trigger] more[j]),
    ensures
        text::trim_end_of(s + more, set) == s,
    decreases more.len(),
{
    if more.len() > 0 {
        assert((s + more).last() == more[more.len() - 1]);
        assert((s + more).drop_last() =~= s + more.drop_last());
        lemma_trims_to(s, more.drop_last(), set);
    } else {
        assert(s + more =~= s);
    }
}

/// How a URL that was found in a text begins: its scheme and the slashes behind
/// it take `m` characters, and are neither cut off nor preceded by others.
#[verifier::rlimit(40)]
proof fn lemma_found_url(s: Seq<char>) -> (m: int)
    requires
        scheme_at(s) is Some,
    ensures
        ({
            let i = scheme_at(s)->0;
            let rest = s.skip(i);
            let matched = rest.take(url_end(rest, 0));
            let url = text::trim_end_of(matched, TRAILING_PUNCTUATION@);
            &&& 0 <= i && i + m <= s.len() && m <= url.len()
            &&& m == 7 && text::occurs_at(text::lower(s), "http://"@, i) || m == 8 && text::occurs_at(
                text::lower(s),
                "https://"@,
                i,
            )
            &&& text::find(url, "://"@) == Some(m - 3)
            &&& url == s.subrange(i, i + url.len())
        }),
{
    reveal_strlit("http://");
    reveal_strlit("https://");
    reveal_strlit("://");
    reveal_strlit("'\"<>\\`|^{}");
    reveal_strlit(".,;:!)]}>");
    text::lemma_find_from(text::lower(s), "http://"@, 0);
    text::lemma_find_from(text::lower(s), "https://"@, 0);
    let i = scheme_at(s)->0;
    let m: int = if text::occurs_at(text::lower(s), "http://"@, i) {
        7
    } else {
        8
    };
    let pattern = if m == 7 {
        "http://"@
    } else {
        "https://"@
    };
    assert(text::occurs_at(text::lower(s), pattern, i));
    let rest = s.skip(i);
    assert forall|j: int| 0 <= j < m implies text::lower_char(#[trigger] rest[j]) == pattern[j] by {
        assert(text::lower(s).subrange(i, i + m)[j] == text::lower(s)[i + j]);
        assert(rest[j] == s[i + j]);
    }
    assert forall|j: int| 0 <= j < m implies !ends_url(#[trigger] rest[j]) by {
        assert(text::lower_char(rest[j]) == pattern[j]);
    }
    lemma_url_end(rest, 0);
    let e = url_end(rest, 0);
    if e < m {
        assert(ends_url(rest[e]));
    }
    let matched = rest.take(e);
    let url = text::trim_end_of(matched, TRAILING_PUNCTUATION@);
    lemma_trim_end_of(matched, TRAILING_PUNCTUATION@);
    assert(text::lower_char(rest[m - 1]) == '/');
    assert(matched[m - 1] == '/');
    assert(!TRAILING_PUNCTUATION@.contains('/'));
    assert(url.len() >= m);
    assert forall|j: int| 0 <= j < m implies text::lower_char(#[trigger] url[j]) == pattern[j] by {
        assert(url[j] == rest[j]);
    }
    assert(url.subrange(m - 3, m) =~= "://"@) by {
        assert(text::lower_char(url[m - 3]) == ':');
        assert(text::lower_char(url[m - 2]) == '/');
        assert(text::lower_char(url[m - 1]) == '/');
    }
    assert(text::occurs_at(url, "://"@, m - 3));
    text::lemma_find_from(url, "://"@, 0);
    let k = text::find(url, "://"@)->0;
    if k < m - 3 {
        assert(url.subrange(k, k + 3)[0] == ':');
        assert(text::lower_char(url[k]) == pattern[k]);
    }
    assert(url =~= s.subrange(i, i + url.len()));
    m
}

/// A scheme that stands first in a text stands first in any other that begins
/// alike.
proof fn lemma_scheme_stays(s: Seq<char>, t: Seq<char>, m: int)
    requires
        scheme_at(s) is Some,
        ({
            let i = scheme_at(s)->0;
            &&& 0 <= i && i + m <= s.len() && i + m <= t.len()
            &&& m == 7 && text::occurs_at(text::lower(s), "http://"@, i) || m == 8 && text::occurs_at(
                text::lower(s),
                "https://"@,
                i,
            )
            &&& forall|j: int| 0 <= j < i + m ==> s[j] == t[j]
        }),
    ensures
        scheme_at(t) == scheme_at(s),
{
    reveal_strlit("http://");
    reveal_strlit("https://");
    let i = scheme_at(s)->0;
    let (a, b) = (text::lower(s), text::lower(t));
    text::lemma_find_from(a, "http://"@, 0);
    text::lemma_find_from(a, "https://"@, 0);
    text::lemma_find_from(b, "http://"@, 0);
    text::lemma_find_from(b, "https://"@, 0);
    assert forall|j: int| 0 <= j < i implies !text::occurs_at(b, "http://"@, j) && !text::occurs_at(
        b,
        "https://"@,
        j,
    ) by {
        if text::occurs_at(b, "http://"@, j) {
            assert(a.subrange(j, j + 7) =~= b.subrange(j, j + 7));
            assert(text::occurs_at(a, "http://"@, j));
        }
        if text::occurs_at(b, "https://"@, j) {
            assert(a.subrange(j, j + 8) =~= b.subrange(j, j + 8));
            assert(text::occurs_at(a, "https://"@, j));
        }
    }
    if m == 7 {
        assert(a.subrange(i, i + 7) =~= b.subrange(i, i + 7));
        assert(text::occurs_at(b, "http://"@, i));
    } else {
        assert(a.subrange(i, i + 8) =~= b.subrange(i, i + 8));
        assert(text::occurs_at(b, "https://"@, i));
    }
}

#[verifier::rlimit(40)]
proof fn lemma_urls_again(s: Seq<char>)
    ensures
        redacted_urls(redacted_urls(s)) == redacted_urls(s),
        s.len() == 0 ==> redacted_urls(s).len() == 0,
        s.len() > 0 && ends_url(s[0]) ==> redacted_urls(s).len() > 0 && redacted_urls(s)[0]
            == s[0],
    decreases s.len(),
{
    if let Some(i) = scheme_at(s) {
        lemma_scheme_at(s);
        let m = lemma_found_url(s);
        let rest = s.skip(i);
        let e = url_end(rest, 0);
        lemma_url_end(rest, 0);
        let matched = rest.take(e);
        let url = text::trim_end_of(matched, TRAILING_PUNCTUATION@);
        lemma_trim_end_of(matched, TRAILING_PUNCTUATION@);
        let behind = matched.skip(url.len() as int);
        let tail = rest.skip(e);
        assert forall|j: int| 0 <= j < url.len() implies !ends_url(#[trigger] url[j]) by {
            assert(url[j] == rest[j]);
        }
        lemma_url_again(url);
        lemma_urls_again(tail);
        let shown = redacted_url(url);
        let more = redacted_urls(tail);
        let t = s.take(i) + shown + behind + more;
        assert(redacted_urls(s) == t);
        assert forall|j: int| 0 <= j < i + m implies s[j] == t[j] by {
            if j >= i {
                assert(t[j] == shown[j - i]);
                assert(shown.take(m)[j - i] == shown[j - i]);
                assert(url.take(m)[j - i] == url[j - i]);
                assert(url[j - i] == s[j]);
            }
        }
        lemma_scheme_stays(s, t, m);
        let again = t.skip(i);
        let both = shown + behind;
        assert(again =~= both + more);
        assert(t.take(i) =~= s.take(i));
        assert forall|j: int| 0 <= j < both.len() implies !ends_url(#[trigger] again[j]) by {
            if j < shown.len() {
                assert(again[j] == shown[j]);
            } else {
                assert(again[j] == matched[url.len() + j - shown.len()]);
                assert(again[j] == rest[url.len() + j - shown.len()]);
            }
        }
        if both.len() < again.len() {
            assert(again[both.len() as int] == more[0]);
            assert(tail[0] == rest[e]);
        }
        lemma_url_end_is(again, 0, both.len() as int);
        assert(again.take(both.len() as int) =~= both);
        assert(again.skip(both.len() as int) =~= more);
        assert forall|j: int| 0 <= j < behind.len() implies TRAILING_PUNCTUATION@.contains(
            #[trigger] behind[j],
        ) by {
            assert(behind[j] == matched[url.len() + j]);
        }
        lemma_trims_to(shown, behind, TRAILING_PUNCTUATION@);
        assert(both.skip(shown.len() as int) =~= behind);
        assert(redacted_urls(t) == s.take(i) + redacted_url(shown) + behind + redacted_urls(more));
        if s.len() > 0 && ends_url(s[0]) {
            reveal_strlit("'\"<>\\`|^{}");
            assert(i > 0);
            assert(t[0] == s[0]);
        }
    }
}

/// A line that was redacted and not cut is not changed by redacting it again.
pub proof fn law_redacting_again_changes_nothing(s: Seq<char>)
    requires
        redacted_urls(s).len() <= MAX_LINE_CHARS,
    ensures
        redacted_text(redacted_text(s)) == redacted_text(s),
{
    lemma_urls_again(s);
}

/// A text in which no scheme stands is kept as it is, up to the limit.
pub proof fn law_text_without_urls_is_kept(s: Seq<char>)
    requires
        scheme_at(s) is None,
        s.len() <= MAX_LINE_CHARS,
    ensures
        redacted_text(s) == s,
{
}

} // verus!
