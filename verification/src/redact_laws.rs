//! What redacting amounts to, stated without the definition of what is redacted.

use vstd::prelude::*;
use crate::{redact, text, text_laws};

verus! {

/// A part that may be missing, with the sign before it.
pub open spec fn with_sign(sign: char, part: Option<Seq<char>>) -> Seq<char> {
    match part {
        Some(p) => seq![sign] + p,
        None => Seq::empty(),
    }
}

/// User information that may be missing, with the sign behind it.
pub open spec fn before_sign(user: Option<Seq<char>>) -> Seq<char> {
    match user {
        Some(u) => u + seq!['@'],
        None => Seq::empty(),
    }
}

/// What stands in place of a part that may be missing.
pub open spec fn in_place_of(part: Option<Seq<char>>, shown: Seq<char>) -> Seq<char> {
    if part is Some {
        shown
    } else {
        Seq::empty()
    }
}

/// Where the first of a character stands behind a text that does not hold it.
proof fn lemma_found_behind(a: Seq<char>, b: Seq<char>, c: char)
    requires
        !a.contains(c),
        b.len() > 0 ==> b[0] == c,
    ensures
        text::next_char(a + b, c, 0) == a.len(),
{
    let s = a + b;
    assert forall|j: int| 0 <= j < a.len() implies s[j] != c by {
        assert(a.contains(a[j]));
    }
    redact::lemma_next_char_is(s, c, 0, a.len() as int);
}

proof fn lemma_not_in_either(a: Seq<char>, b: Seq<char>, c: char)
    requires
        !a.contains(c),
        !b.contains(c),
    ensures
        !(a + b).contains(c),
{
    if (a + b).contains(c) {
        let k = choose|k: int| 0 <= k < (a + b).len() && (a + b)[k] == c;
        if k < a.len() {
            assert(a[k] == c);
        } else {
            assert(b[k - a.len()] == c);
        }
    }
}

/// A URL keeps its scheme, its host and its path as they are. Each of its user
/// information, its query and its fragment is shown to be there, and no more.
pub proof fn law_a_url_keeps_what_is_no_secret(
    scheme: Seq<char>,
    user: Option<Seq<char>>,
    host: Seq<char>,
    path: Seq<char>,
    query: Option<Seq<char>>,
    fragment: Option<Seq<char>>,
)
    requires
        !scheme.contains(':'),
        user matches Some(u) ==> !u.contains('/') && !u.contains('?') && !u.contains('#'),
        !host.contains('/') && !host.contains('?') && !host.contains('#') && !host.contains('@'),
        user is Some || host.len() > 0,
        path.len() > 0 ==> path[0] == '/',
        !path.contains('?') && !path.contains('#'),
        query matches Some(q) ==> !q.contains('#'),
        query is None ==> (fragment matches Some(f) ==> !f.contains('?')),
    ensures
        redact::redacted_url(
            scheme + "://"@ + (before_sign(user) + host + path + with_sign('?', query) + with_sign(
                '#',
                fragment,
            )),
        ) == scheme + "://"@ + (in_place_of(user, "…@"@) + host + path + in_place_of(
            query,
            "?…"@,
        ) + in_place_of(fragment, "#…"@)),
{
    reveal_strlit("://");
    let sep = "://"@;
    let u = before_sign(user);
    let q = with_sign('?', query);
    let f = with_sign('#', fragment);
    let authority = u + host;
    let head = authority + path;
    let rest = u + host + path + q + f;
    let whole = scheme + sep + rest;
    let n = scheme.len() as int;
    assert(whole.subrange(n, n + 3) =~= sep);
    assert(text::occurs_at(whole, sep, n));
    text::lemma_find_from(whole, sep, 0);
    let i = text::find(whole, sep)->0;
    if i < n {
        assert(whole.subrange(i, i + 3)[0] == ':');
        assert(scheme.contains(scheme[i]));
    }
    assert(whole.skip(n + 3) =~= rest);
    assert(whole.take(n + 3) =~= scheme + sep);
    lemma_rest(user, host, path, query, fragment);
}

proof fn lemma_rest(
    user: Option<Seq<char>>,
    host: Seq<char>,
    path: Seq<char>,
    query: Option<Seq<char>>,
    fragment: Option<Seq<char>>,
)
    requires
        user matches Some(u) ==> !u.contains('/') && !u.contains('?') && !u.contains('#'),
        !host.contains('/') && !host.contains('?') && !host.contains('#') && !host.contains('@'),
        user is Some || host.len() > 0,
        path.len() > 0 ==> path[0] == '/',
        !path.contains('?') && !path.contains('#'),
        query matches Some(q) ==> !q.contains('#'),
        query is None ==> (fragment matches Some(f) ==> !f.contains('?')),
    ensures
        redact::redacted_rest(
            before_sign(user) + host + path + with_sign('?', query) + with_sign('#', fragment),
        ) == Some(
            in_place_of(user, "…@"@) + host + path + in_place_of(query, "?…"@) + in_place_of(
                fragment,
                "#…"@,
            ),
        ),
{
    let u = before_sign(user);
    let q = with_sign('?', query);
    let f = with_sign('#', fragment);
    let authority = u + host;
    let head = authority + path;
    let rest = u + host + path + q + f;
    assert(!seq!['@'].contains('/') && !seq!['@'].contains('?') && !seq!['@'].contains('#'));
    if let Some(name) = user {
        lemma_not_in_either(name, seq!['@'], '/');
        lemma_not_in_either(name, seq!['@'], '?');
        lemma_not_in_either(name, seq!['@'], '#');
    }
    lemma_not_in_either(u, host, '/');
    lemma_not_in_either(u, host, '?');
    lemma_not_in_either(u, host, '#');
    lemma_not_in_either(authority, path, '?');
    lemma_not_in_either(authority, path, '#');
    assert(rest =~= head + (q + f));
    assert(rest =~= (head + q) + f);
    assert(!seq!['?'].contains('#') && !seq!['#'].contains('?'));
    if let Some(text) = query {
        lemma_not_in_either(seq!['?'], text, '#');
    }
    lemma_not_in_either(head, q, '#');
    lemma_found_behind(head + q, f, '#');
    if query is Some {
        lemma_found_behind(head, q + f, '?');
    } else {
        if let Some(text) = fragment {
            lemma_not_in_either(seq!['#'], text, '?');
        }
        lemma_not_in_either(head, q + f, '?');
        let none = Seq::<char>::empty();
        assert(rest + none =~= rest);
        lemma_found_behind(rest, none, '?');
    }
    let at_query = text::next_char(rest, '?', 0);
    let at_fragment = text::next_char(rest, '#', 0);
    assert(rest.take(if at_query < at_fragment {
        at_query
    } else {
        at_fragment
    }) =~= head);
    lemma_found_behind(authority, path, '/');
    assert(authority.len() > 0);
    assert(head.take(authority.len() as int) =~= authority);
    assert(head.skip(authority.len() as int) =~= path);
    if let Some(name) = user {
        let k = name.len() as int;
        assert(authority[k] == '@');
        assert forall|j: int| k < j < authority.len() implies authority[j] != '@' by {
            assert(authority[j] == host[j - k - 1]);
            assert(host.contains(host[j - k - 1]));
        }
        redact::lemma_last_char_is(authority, '@', authority.len() as int, k);
        assert(authority.skip(k + 1) =~= host);
    } else {
        assert(authority =~= host);
        text::lemma_last_char(host, '@', host.len() as int);
        let k = text::last_char(host, '@', host.len() as int);
        if k >= 0 {
            assert(host.contains(host[k]));
        }
    }
    assert(redact::redacted_authority(authority) == in_place_of(user, "…@"@) + host);
    assert(redact::redacted_rest(rest)->0 =~= in_place_of(user, "…@"@) + host + path + in_place_of(
        query,
        "?…"@,
    ) + in_place_of(fragment, "#…"@));
}

/// A text that names no scheme is no URL and is kept.
pub proof fn law_what_is_no_url_is_kept(s: Seq<char>)
    requires
        !text::contains(s, "://"@),
    ensures
        redact::redacted_url(s) == s,
{
    text::lemma_find_is_contains(s, "://"@);
}

/// A URL in a line begins at the first of the two schemes, in any case; a line
/// without either holds none.
pub proof fn law_a_url_begins_at_its_scheme(s: Seq<char>)
    ensures
        match redact::scheme_at(s) {
            Some(i) => {
                &&& text::occurs_at(text::lower(s), "http://"@, i) || text::occurs_at(text::lower(s), "https://"@, i)
                &&& forall|k: int|
                    0 <= k < i ==> !text::occurs_at(text::lower(s), "http://"@, k) && !text::occurs_at(
                        text::lower(s),
                        "https://"@,
                        k,
                    )
            },
            None => !text::contains(text::lower(s), "http://"@) && !text::contains(text::lower(s), "https://"@),
        },
{
    text::lemma_find_from(text::lower(s), "http://"@, 0);
    text::lemma_find_from(text::lower(s), "https://"@, 0);
}

/// A URL in a line ends before white space and before ten signs, and takes none of
/// nine signs at its end with it.
pub proof fn law_some_signs_end_a_url(c: char)
    ensures
        redact::ends_url(c) <==> text::is_white(c) || c == '\'' || c == '"' || c == '<' || c == '>' || c == '\\'
            || c == '`' || c == '|' || c == '^' || c == '{' || c == '}',
        redact::TRAILING_PUNCTUATION@.contains(c) <==> c == '.' || c == ',' || c == ';' || c == ':' || c
            == '!' || c == ')' || c == ']' || c == '}' || c == '>',
{
    reveal_strlit("'\"<>\\`|^{}");
    reveal_strlit(".,;:!)]}>");
    let t = redact::URL_TERMINATORS@;
    assert(t.len() == 10);
    assert(t.contains(c) <==> c == t[0] || c == t[1] || c == t[2] || c == t[3] || c == t[4] || c
        == t[5] || c == t[6] || c == t[7] || c == t[8] || c == t[9]);
    let p = redact::TRAILING_PUNCTUATION@;
    assert(p.len() == 9);
    assert(p.contains(c) <==> c == p[0] || c == p[1] || c == p[2] || c == p[3] || c == p[4] || c
        == p[5] || c == p[6] || c == p[7] || c == p[8]);
}

/// In a line, what stands before a URL is kept, the URL is redacted, the
/// punctuation behind it is kept, and what follows is treated in the same way.
pub proof fn law_a_line_keeps_what_is_no_url(
    before: Seq<char>,
    url: Seq<char>,
    punctuation: Seq<char>,
    after: Seq<char>,
)
    requires
        redact::scheme_at(before + url + punctuation + after) == Some(before.len() as int),
        url.len() > 0,
        forall|k: int| 0 <= k < url.len() ==> !redact::ends_url(#[trigger] url[k]),
        !redact::TRAILING_PUNCTUATION@.contains(url.last()),
        forall|k: int|
            0 <= k < punctuation.len() ==> redact::TRAILING_PUNCTUATION@.contains(
                #[trigger] punctuation[k],
            ) && !redact::ends_url(punctuation[k]),
        after.len() > 0 ==> redact::ends_url(after[0]),
    ensures
        redact::redacted_urls(before + url + punctuation + after) == before + redact::redacted_url(url)
            + punctuation + redact::redacted_urls(after),
{
    let s = before + url + punctuation + after;
    let n = before.len() as int;
    let matched = url + punctuation;
    let k = matched.len() as int;
    let rest = s.skip(n);
    assert(rest =~= matched + after);
    assert(s.take(n) =~= before);
    assert forall|j: int| 0 <= j < k implies !redact::ends_url(#[trigger] rest[j]) by {
        if j < url.len() {
            assert(rest[j] == url[j]);
        } else {
            assert(rest[j] == punctuation[j - url.len()]);
        }
    }
    if k < rest.len() {
        assert(rest[k] == after[0]);
    }
    redact::lemma_url_end_is(rest, 0, k);
    assert(rest.take(k) =~= matched);
    let set = redact::TRAILING_PUNCTUATION@;
    text_laws::law_trimming_a_set(matched, set);
    let e = text::trim_end_of(matched, set);
    assert(matched[url.len() - 1] == url.last());
    if e.len() < url.len() {
        assert(set.contains(matched[url.len() - 1]));
    }
    if e.len() > url.len() {
        assert(e.last() == matched[e.len() - 1]);
        assert(matched[e.len() - 1] == punctuation[e.len() - 1 - url.len()]);
    }
    assert(e =~= url);
    assert(matched.skip(url.len() as int) =~= punctuation);
    assert(rest.skip(k) =~= after);
    assert(redact::redacted_urls(s) =~= before + redact::redacted_url(url) + punctuation + redact::redacted_urls(after));
}

/// A redacted line is cut where it is too long, and marked there; a shorter one is
/// kept whole.
pub proof fn law_a_long_line_is_cut(s: Seq<char>)
    ensures
        redact::redacted_urls(s).len() <= 2000 ==> redact::redacted_text(s) == redact::redacted_urls(s),
        redact::redacted_urls(s).len() > 2000 ==> redact::redacted_text(s) == redact::redacted_urls(s).take(1999) + seq![
            '…',
        ],
{
    if redact::redacted_urls(s).len() > 2000 {
        assert(redact::redacted_text(s) =~= redact::redacted_urls(s).take(1999) + seq!['…']);
    }
}

} // verus!
