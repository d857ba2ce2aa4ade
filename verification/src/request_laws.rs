//! What a request carries, stated without the definitions of its headers and
//! cookies.

use vstd::prelude::*;
use crate::{scraper, text, text_laws};
use crate::web::UrlView;

verus! {

// ---------------------------------------------------------------------------
// Headers
// ---------------------------------------------------------------------------

proof fn lemma_header_add(a: Seq<char>, b: Seq<char>)
    ensures
        scraper::header_value(a + b) == scraper::header_value(a) + scraper::header_value(b),
    decreases b.len(),
{
    if b.len() == 0 {
        assert(a + b =~= a);
        assert(scraper::header_value(a) + scraper::header_value(b) =~= scraper::header_value(a));
    } else {
        assert((a + b).drop_last() =~= a + b.drop_last());
        lemma_header_add(a, b.drop_last());
        assert(scraper::header_value(a + b) =~= scraper::header_value(a) + scraper::header_value(b));
    }
}

proof fn lemma_header_kept(s: Seq<char>)
    requires
        forall|k: int| 0 <= k < s.len() ==> 31 < (#[trigger] s[k]) as int && s[k] as int != 127,
    ensures
        scraper::header_value(s) == s,
    decreases s.len(),
{
    if s.len() > 0 {
        assert(31 < s[s.len() - 1] as int);
        let r = s.drop_last();
        assert forall|k: int| 0 <= k < r.len() implies 31 < (#[trigger] r[k]) as int && r[k] as int
            != 127 by {
            assert(r[k] == s[k]);
        }
        lemma_header_kept(r);
        assert(r.push(s.last()) =~= s);
    } else {
        assert(scraper::header_value(s) =~= s);
    }
}

/// A value in a header is kept as it is, but for the control characters of ASCII,
/// which are left out one by one.
pub proof fn law_a_header_leaves_control_characters_out(a: Seq<char>, c: char, b: Seq<char>)
    ensures
        c as int <= 31 || c as int == 127 ==> scraper::header_value(a + seq![c] + b) == scraper::header_value(a + b),
        (forall|k: int| 0 <= k < a.len() ==> 31 < (#[trigger] a[k]) as int && a[k] as int != 127)
            ==> scraper::header_value(a) == a,
        scraper::header_value(a + b) == scraper::header_value(a) + scraper::header_value(b),
{
    lemma_header_add(a, b);
    lemma_header_add(a, seq![c]);
    lemma_header_add(a + seq![c], b);
    assert(seq![c].drop_last() =~= Seq::empty());
    assert(scraper::header_value(Seq::<char>::empty()) =~= Seq::empty());
    if c as int <= 31 || c as int == 127 {
        assert(scraper::header_value(seq![c]) =~= Seq::empty());
        assert(scraper::header_value(a) + Seq::<char>::empty() =~= scraper::header_value(a));
    }
    if forall|k: int| 0 <= k < a.len() ==> 31 < (#[trigger] a[k]) as int && a[k] as int != 127 {
        lemma_header_kept(a);
    }
}

/// The headers say who asks, each on a line of its own, and from which page if
/// there is one; nothing else is said.
pub proof fn law_the_headers_say_who_asks(page: Seq<char>, agent: Seq<char>)
    ensures
        scraper::header_block(None, agent) == "User-Agent: "@ + scraper::header_value(agent) + seq!['\r', '\n'],
        scraper::header_block(Some(page), agent) == scraper::header_block(None, agent) + "Referer: "@ + scraper::header_value(
            page,
        ) + seq!['\r', '\n'],
{
    reveal_strlit("\r\n");
    assert("\r\n"@ =~= seq!['\r', '\n']);
    let none = Seq::<char>::empty();
    assert(scraper::header_block(None, agent) =~= "User-Agent: "@ + scraper::header_value(agent) + seq!['\r', '\n']);
    assert(scraper::header_block(Some(page), agent) =~= scraper::header_block(None, agent) + "Referer: "@
        + scraper::header_value(page) + seq!['\r', '\n']);
}

// ---------------------------------------------------------------------------
// Cookies
// ---------------------------------------------------------------------------

/// Whether a name has a meaning of its own beside a cookie.
pub open spec fn is_attribute_name(name: Seq<char>) -> bool {
    ||| text::eq_fold(name, "domain"@)
    ||| text::eq_fold(name, "expires"@)
    ||| text::eq_fold(name, "httponly"@)
    ||| text::eq_fold(name, "max-age"@)
    ||| text::eq_fold(name, "partitioned"@)
    ||| text::eq_fold(name, "path"@)
    ||| text::eq_fold(name, "samesite"@)
    ||| text::eq_fold(name, "secure"@)
}

/// A piece of a header is a cookie exactly when it names one: what stands before
/// its first sign, without white space around it, holds something, neither white
/// space nor a control character, and is no attribute. What the cookie holds does
/// not matter.
pub proof fn law_a_cookie_has_a_name(name: Seq<char>, value: Seq<char>)
    requires
        !name.contains('='),
    ensures
        !scraper::is_cookie(name),
        scraper::is_cookie(name + seq!['='] + value) <==> {
            &&& text::trim(name).len() > 0
            &&& forall|k: int|
                0 <= k < text::trim(name).len() ==> !text::is_white(#[trigger] text::trim(name)[k]) && text::trim(
                    name,
                )[k] as int > 31 && text::trim(name)[k] as int != 127
            &&& !is_attribute_name(text::trim(name))
        },
{
    reveal_strlit("=");
    assert("="@ =~= seq!['=']);
    let pair = name + seq!['='] + value;
    text_laws::law_a_separator_is_told(name, value, '=');
    text_laws::law_cutting_at_a_phrase(name, "="@);
    if let Some(parts) = text::split_once(name, "="@) {
        assert(name[parts.0.len() as int] == '=');
    }
    let t = text::trim(name);
    let all = scraper::cookie_attributes();
    assert(all.len() == 8);
    assert(is_attribute_name(t) <==> text::eq_fold(t, all[0]) || text::eq_fold(t, all[1]) || text::eq_fold(t, all[2])
        || text::eq_fold(t, all[3]) || text::eq_fold(t, all[4]) || text::eq_fold(t, all[5]) || text::eq_fold(t, all[6])
        || text::eq_fold(t, all[7]));
    if scraper::is_cookie(pair) {
        assert forall|k: int| 0 <= k < t.len() implies !text::is_white(#[trigger] t[k]) && t[k] as int
            > 31 && t[k] as int != 127 by {
            assert(!text::is_ascii_control(t[k]));
        }
    }
}

proof fn lemma_scoped_add(a: Seq<Seq<char>>, b: Seq<Seq<char>>, domain: Seq<char>)
    ensures
        scraper::scoped_cookies(a + b, domain) == scraper::scoped_cookies(a, domain) + scraper::scoped_cookies(b, domain),
    decreases b.len(),
{
    if b.len() == 0 {
        assert(a + b =~= a);
        assert(scraper::scoped_cookies(a, domain) + scraper::scoped_cookies(b, domain) =~= scraper::scoped_cookies(a, domain));
    } else {
        assert((a + b).drop_last() =~= a + b.drop_last());
        lemma_scoped_add(a, b.drop_last(), domain);
        assert(scraper::scoped_cookies(a + b, domain) =~= scraper::scoped_cookies(a, domain) + scraper::scoped_cookies(
            b,
            domain,
        ));
    }
}

/// The cookies of a header, one behind the other with a semicolon between them,
/// are all handed on, in their order. Each is sent to every path of the host that
/// is asked and to no other host; a piece that is no cookie is left out.
pub proof fn law_cookies_are_handed_on_in_order(
    a: Seq<char>,
    b: Seq<char>,
    piece: Seq<char>,
    domain: Seq<char>,
)
    requires
        !piece.contains(';'),
    ensures
        scraper::scoped_cookies(text::split(a + seq![';'] + b, ';'), domain) == scraper::scoped_cookies(
            text::split(a, ';'),
            domain,
        ) + scraper::scoped_cookies(text::split(b, ';'), domain),
        scraper::is_cookie(text::trim(piece)) ==> scraper::scoped_cookies(text::split(piece, ';'), domain) == seq![
            scraper::header_value(text::trim(piece)) + "; path=/; domain="@ + domain,
        ],
        !scraper::is_cookie(text::trim(piece)) ==> scraper::scoped_cookies(text::split(piece, ';'), domain) == Seq::<
            Seq<char>,
        >::empty(),
{
    text_laws::law_splitting_at_a_separator(a, b, ';');
    lemma_scoped_add(text::split(a, ';'), text::split(b, ';'), domain);
    text_laws::law_splitting_at_a_separator(piece, piece, ';');
    let one = seq![piece];
    assert(one.drop_last() =~= Seq::<Seq<char>>::empty());
    assert(scraper::scoped_cookies(one.drop_last(), domain) =~= Seq::<Seq<char>>::empty());
    if scraper::is_cookie(text::trim(piece)) {
        assert(scraper::scoped_cookies(one, domain) =~= seq![
            scraper::header_value(text::trim(piece)) + "; path=/; domain="@ + domain,
        ]);
    }
}

/// Cookies are sent exactly where there is a host to send them to, a header that
/// was given and a cookie in it: each on a line of its own. The host stands with
/// the port that its URL states.
pub proof fn law_cookies_go_to_the_host_that_is_asked(url: UrlView, header: Seq<char>)
    ensures
        scraper::cookie_lines(url, None) is None,
        url.host is None ==> scraper::cookie_lines(url, Some(header)) is None,
        url.host is Some ==> ({
            let host = url.host->0;
            let domain = if url.port is Some {
                host + seq![':'] + text::decimal(url.port->0 as nat)
            } else {
                host
            };
            let entries = scraper::scoped_cookies(text::split(header, ';'), domain);
            &&& entries.len() == 0 ==> scraper::cookie_lines(url, Some(header)) is None
            &&& entries.len() > 0 ==> scraper::cookie_lines(url, Some(header)) == Some(
                text::join(entries, seq!['\n']),
            )
        }),
{
    reveal_strlit(":");
    reveal_strlit("\n");
    assert(":"@ =~= seq![':']);
    assert("\n"@ =~= seq!['\n']);
}

} // verus!
