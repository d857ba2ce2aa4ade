//! What looking for media in a page amounts to, stated without the definitions
//! of the searches.

use vstd::prelude::*;
use crate::{scraper, text, text_laws, web};
use crate::scraper::MediaKind;
use crate::web::UrlView;

verus! {

// ---------------------------------------------------------------------------
// Escapes
// ---------------------------------------------------------------------------

/// A text in which each of a character is written in another way.
pub open spec fn written_as(s: Seq<char>, c: char, form: Seq<char>) -> Seq<char>
    decreases s.len(),
{
    if s.len() == 0 {
        Seq::empty()
    } else if s[0] == c {
        form + written_as(s.skip(1), c, form)
    } else {
        seq![s[0]] + written_as(s.skip(1), c, form)
    }
}

/// Replacing the form in which a character is written gives the text back, if
/// the form begins with that character or with one that the text does not hold.
proof fn lemma_form_is_undone(s: Seq<char>, c: char, form: Seq<char>)
    requires
        form.len() > 0,
        form[0] == c || !s.contains(form[0]),
    ensures
        text::replace(written_as(s, c, form), form, seq![c]) == s,
    decreases s.len(),
{
    let t = written_as(s, c, form);
    if s.len() > 0 {
        let r = s.skip(1);
        let u = written_as(r, c, form);
        assert(s.contains(s[0]));
        assert(!s.contains(form[0]) ==> !r.contains(form[0])) by {
            if r.contains(form[0]) {
                let k = choose|k: int| 0 <= k < r.len() && r[k] == form[0];
                assert(s[k + 1] == form[0]);
            }
        }
        lemma_form_is_undone(r, c, form);
        if s[0] == c {
            assert(t.subrange(0, form.len() as int) =~= form);
            assert(text::occurs_at(t, form, 0));
            text_laws::lemma_replace_behind(form, u, form, seq![c], 0);
            assert(seq![c] + r =~= s);
        } else {
            assert(t[0] == s[0]);
            assert(!text::occurs_at(t, form, 0)) by {
                if text::occurs_at(t, form, 0) {
                    assert(t.subrange(0, form.len() as int)[0] == t[0]);
                }
            }
            text_laws::lemma_replace_behind(seq![s[0]], u, form, seq![c], 0);
            assert(seq![s[0]] + r =~= s);
        }
    } else {
        assert(t =~= Seq::empty());
        assert(text::replace(t, form, seq![c]) =~= s);
    }
}

/// In a text where a character is written in a form that begins with a mark, the
/// mark is always followed by the rest of the form.
proof fn lemma_form_follows_its_mark(s: Seq<char>, c: char, form: Seq<char>, i: int)
    requires
        form.len() > 1,
        form[0] != c,
        !s.contains(form[0]),
        !form.skip(1).contains(form[0]),
        0 <= i < written_as(s, c, form).len(),
        written_as(s, c, form)[i] == form[0],
    ensures
        i + 1 < written_as(s, c, form).len(),
        written_as(s, c, form)[i + 1] == form[1],
    decreases s.len(),
{
    let t = written_as(s, c, form);
    let r = s.skip(1);
    assert(s.contains(s[0]));
    assert(!r.contains(form[0])) by {
        if r.contains(form[0]) {
            let k = choose|k: int| 0 <= k < r.len() && r[k] == form[0];
            assert(s[k + 1] == form[0]);
        }
    }
    if s[0] == c {
        if 0 < i < form.len() {
            assert(form.skip(1)[i - 1] == form[0]);
        } else if i >= form.len() {
            assert(written_as(r, c, form)[i - form.len()] == form[0]);
            lemma_form_follows_its_mark(r, c, form, i - form.len());
        }
    } else {
        assert(i > 0);
        assert(written_as(r, c, form)[i - 1] == form[0]);
        lemma_form_follows_its_mark(r, c, form, i - 1);
    }
}

proof fn lemma_written_holds(s: Seq<char>, c: char, form: Seq<char>, x: char)
    requires
        !s.contains(x),
        !form.contains(x),
    ensures
        !written_as(s, c, form).contains(x),
    decreases s.len(),
{
    if s.len() > 0 {
        let r = s.skip(1);
        assert(!r.contains(x)) by {
            if r.contains(x) {
                let k = choose|k: int| 0 <= k < r.len() && r[k] == x;
                assert(s[k + 1] == x);
            }
        }
        assert(s.contains(s[0]));
        lemma_written_holds(r, c, form, x);
        let t = written_as(s, c, form);
        let u = written_as(r, c, form);
        if t.contains(x) {
            let k = choose|k: int| 0 <= k < t.len() && t[k] == x;
            if s[0] == c {
                if k < form.len() {
                    assert(form.contains(form[k]));
                } else {
                    assert(u.contains(u[k - form.len()]));
                }
            } else if k > 0 {
                assert(u.contains(u[k - 1]));
            }
        }
    }
}

proof fn lemma_without_mark(s: Seq<char>, p: Seq<char>)
    requires
        p.len() > 0,
        !s.contains(p[0]),
    ensures
        !text::contains(s, p),
{
    if text::contains(s, p) {
        let i = choose|i: int| text::occurs_at(s, p, i);
        assert(s.subrange(i, i + p.len())[0] == p[0]);
        assert(s[i] == p[0]);
    }
}

proof fn lemma_keeps(s: Seq<char>, from: Seq<char>, to: Seq<char>)
    requires
        from.len() > 0,
        !text::contains(s, from),
    ensures
        text::replace(s, from, to) == s,
{
    text_laws::law_replacing_a_phrase(Seq::empty(), from, s, to);
}

/// A page without a backslash and without an escaped ampersand is read as it is.
pub proof fn law_a_plain_page_is_kept(html: Seq<char>)
    requires
        !html.contains('\\'),
        !text::contains(html, "&amp;"@),
    ensures
        scraper::normalized(html) == html,
{
    reveal_strlit("\\\\");
    reveal_strlit("\\/");
    reveal_strlit("\\u0026");
    reveal_strlit("&amp;");
    lemma_without_mark(html, "\\\\"@);
    lemma_without_mark(html, "\\/"@);
    lemma_without_mark(html, "\\u0026"@);
    lemma_keeps(html, "\\\\"@, "\\"@);
    lemma_keeps(html, "\\/"@, "/"@);
    lemma_keeps(html, "\\u0026"@, "&"@);
    lemma_keeps(html, "&amp;"@, "&"@);
}

/// Writing each ampersand of a page as the entity for it changes neither the text
/// in which media is looked for nor what the page offers.
pub proof fn law_an_escaped_ampersand_is_one(html: Seq<char>, page: UrlView)
    requires
        !html.contains('\\'),
    ensures
        scraper::normalized(written_as(html, '&', "&amp;"@)) == html,
        !text::contains(html, "&amp;"@) ==> scraper::page_urls(written_as(html, '&', "&amp;"@), page)
            == scraper::page_urls(html, page) && scraper::page_offer(
            scraper::page_urls(written_as(html, '&', "&amp;"@), page),
        ) == scraper::page_offer(scraper::page_urls(html, page)),
{
    reveal_strlit("\\\\");
    reveal_strlit("\\/");
    reveal_strlit("\\u0026");
    reveal_strlit("&amp;");
    reveal_strlit("&");
    let form = "&amp;"@;
    let t = written_as(html, '&', form);
    assert(!form.contains('\\'));
    lemma_written_holds(html, '&', form, '\\');
    lemma_without_mark(t, "\\\\"@);
    lemma_without_mark(t, "\\/"@);
    lemma_without_mark(t, "\\u0026"@);
    lemma_keeps(t, "\\\\"@, "\\"@);
    lemma_keeps(t, "\\/"@, "/"@);
    lemma_keeps(t, "\\u0026"@, "&"@);
    lemma_form_is_undone(html, '&', form);
    assert("&"@ =~= seq!['&']);
    if !text::contains(html, form) {
        law_a_plain_page_is_kept(html);
        assert(scraper::page_candidates(t) == scraper::page_candidates(html));
        assert(scraper::page_urls(t, page) =~= scraper::page_urls(html, page));
    }
}

/// Writing each slash of a page with a backslash before it, as scripts do, changes
/// neither the text in which media is looked for nor what the page offers.
pub proof fn law_an_escaped_slash_is_one(html: Seq<char>, page: UrlView)
    requires
        !html.contains('\\'),
        !text::contains(html, "&amp;"@),
    ensures
        scraper::normalized(written_as(html, '/', "\\/"@)) == html,
        scraper::page_urls(written_as(html, '/', "\\/"@), page) == scraper::page_urls(html, page),
        scraper::page_offer(scraper::page_urls(written_as(html, '/', "\\/"@), page)) == scraper::page_offer(
            scraper::page_urls(html, page),
        ),
{
    reveal_strlit("\\\\");
    reveal_strlit("\\/");
    reveal_strlit("\\u0026");
    reveal_strlit("&amp;");
    reveal_strlit("/");
    let form = "\\/"@;
    let t = written_as(html, '/', form);
    assert(!text::contains(t, "\\\\"@)) by {
        if text::contains(t, "\\\\"@) {
            let i = choose|i: int| text::occurs_at(t, "\\\\"@, i);
            assert(t.subrange(i, i + 2)[0] == '\\');
            assert(t.subrange(i, i + 2)[1] == '\\');
            assert(!form.skip(1).contains(form[0]));
            lemma_form_follows_its_mark(html, '/', form, i);
        }
    }
    lemma_keeps(t, "\\\\"@, "\\"@);
    lemma_form_is_undone(html, '/', form);
    assert("/"@ =~= seq!['/']);
    lemma_without_mark(html, "\\u0026"@);
    lemma_keeps(html, "\\u0026"@, "&"@);
    lemma_keeps(html, "&amp;"@, "&"@);
    law_a_plain_page_is_kept(html);
    assert(scraper::page_candidates(t) == scraper::page_candidates(html));
    assert(scraper::page_urls(t, page) =~= scraper::page_urls(html, page));
}

/// Writing each ampersand of a page by its code, as scripts do, changes neither
/// the text in which media is looked for nor what the page offers.
pub proof fn law_a_coded_ampersand_is_one(html: Seq<char>, page: UrlView)
    requires
        !html.contains('\\'),
        !text::contains(html, "&amp;"@),
    ensures
        scraper::normalized(written_as(html, '&', "\\u0026"@)) == html,
        scraper::page_urls(written_as(html, '&', "\\u0026"@), page) == scraper::page_urls(html, page),
        scraper::page_offer(scraper::page_urls(written_as(html, '&', "\\u0026"@), page)) == scraper::page_offer(
            scraper::page_urls(html, page),
        ),
{
    reveal_strlit("\\\\");
    reveal_strlit("\\/");
    reveal_strlit("\\u0026");
    reveal_strlit("&amp;");
    reveal_strlit("&");
    let form = "\\u0026"@;
    let t = written_as(html, '&', form);
    assert(!form.skip(1).contains(form[0]));
    assert(!text::contains(t, "\\\\"@)) by {
        if text::contains(t, "\\\\"@) {
            let i = choose|i: int| text::occurs_at(t, "\\\\"@, i);
            assert(t.subrange(i, i + 2)[0] == '\\');
            assert(t.subrange(i, i + 2)[1] == '\\');
            lemma_form_follows_its_mark(html, '&', form, i);
        }
    }
    assert(!text::contains(t, "\\/"@)) by {
        if text::contains(t, "\\/"@) {
            let i = choose|i: int| text::occurs_at(t, "\\/"@, i);
            assert(t.subrange(i, i + 2)[0] == '\\');
            assert(t.subrange(i, i + 2)[1] == '/');
            lemma_form_follows_its_mark(html, '&', form, i);
        }
    }
    lemma_keeps(t, "\\\\"@, "\\"@);
    lemma_keeps(t, "\\/"@, "/"@);
    lemma_form_is_undone(html, '&', form);
    assert("&"@ =~= seq!['&']);
    lemma_keeps(html, "&amp;"@, "&"@);
    law_a_plain_page_is_kept(html);
    assert(scraper::page_candidates(t) == scraper::page_candidates(html));
    assert(scraper::page_urls(t, page) =~= scraper::page_urls(html, page));
}

/// An entity that a script writes by the code of its ampersand is undone too: the
/// code first, and the entity then.
pub proof fn law_an_entity_in_a_script_is_undone(html: Seq<char>)
    requires
        !html.contains('\\'),
    ensures
        scraper::normalized(written_as(written_as(html, '&', "&amp;"@), '&', "\\u0026"@)) == html,
{
    reveal_strlit("\\\\");
    reveal_strlit("\\/");
    reveal_strlit("\\u0026");
    reveal_strlit("&amp;");
    reveal_strlit("&");
    let entity = "&amp;"@;
    let form = "\\u0026"@;
    let inner = written_as(html, '&', entity);
    let t = written_as(inner, '&', form);
    assert(!entity.contains('\\'));
    lemma_written_holds(html, '&', entity, '\\');
    assert(!form.skip(1).contains(form[0]));
    assert(!text::contains(t, "\\\\"@)) by {
        if text::contains(t, "\\\\"@) {
            let i = choose|i: int| text::occurs_at(t, "\\\\"@, i);
            assert(t.subrange(i, i + 2)[0] == '\\');
            assert(t.subrange(i, i + 2)[1] == '\\');
            lemma_form_follows_its_mark(inner, '&', form, i);
        }
    }
    assert(!text::contains(t, "\\/"@)) by {
        if text::contains(t, "\\/"@) {
            let i = choose|i: int| text::occurs_at(t, "\\/"@, i);
            assert(t.subrange(i, i + 2)[0] == '\\');
            assert(t.subrange(i, i + 2)[1] == '/');
            lemma_form_follows_its_mark(inner, '&', form, i);
        }
    }
    lemma_keeps(t, "\\\\"@, "\\"@);
    lemma_keeps(t, "\\/"@, "/"@);
    lemma_form_is_undone(inner, '&', form);
    lemma_form_is_undone(html, '&', entity);
    assert("&"@ =~= seq!['&']);
}

/// A script within a script writes each backslash twice. As long as no backslash
/// of a page stands beside another, writing each twice changes neither the text in
/// which media is looked for nor what the page offers.
pub proof fn law_a_doubled_backslash_is_one(html: Seq<char>, page: UrlView)
    requires
        !text::contains(html, "\\\\"@),
    ensures
        scraper::normalized(written_as(html, '\\', "\\\\"@)) == scraper::normalized(html),
        scraper::page_urls(written_as(html, '\\', "\\\\"@), page) == scraper::page_urls(html, page),
        scraper::page_offer(scraper::page_urls(written_as(html, '\\', "\\\\"@), page)) == scraper::page_offer(
            scraper::page_urls(html, page),
        ),
{
    reveal_strlit("\\\\");
    reveal_strlit("\\");
    let form = "\\\\"@;
    let t = written_as(html, '\\', form);
    lemma_form_is_undone(html, '\\', form);
    assert("\\"@ =~= seq!['\\']);
    lemma_keeps(html, form, "\\"@);
    assert(scraper::page_candidates(t) == scraper::page_candidates(html));
    assert(scraper::page_urls(t, page) =~= scraper::page_urls(html, page));
}

// ---------------------------------------------------------------------------
// Candidates
// ---------------------------------------------------------------------------

/// White space around a candidate and separators behind it are no part of it.
pub proof fn law_a_candidate_stands_bare(
    before: Seq<char>,
    candidate: Seq<char>,
    separators: Seq<char>,
    after: Seq<char>,
)
    requires
        forall|k: int| 0 <= k < before.len() ==> text::is_white(#[trigger] before[k]),
        forall|k: int| 0 <= k < after.len() ==> text::is_white(#[trigger] after[k]),
        forall|k: int|
            0 <= k < separators.len() ==> #[trigger] separators[k] == ';' || separators[k] == ',',
        candidate.len() > 0,
        !text::is_white(candidate[0]),
        !text::is_white(candidate.last()) && candidate.last() != ';' && candidate.last() != ',',
    ensures
        scraper::bare_candidate(before + (candidate + separators) + after) == candidate,
{
    let s = candidate + separators;
    reveal_strlit(";,");
    assert(s[0] == candidate[0]);
    assert(!text::is_white(s.last())) by {
        if separators.len() > 0 {
            assert(s.last() == separators.last());
        } else {
            assert(s =~= candidate);
        }
    }
    text_laws::law_trimming_gives_the_text_back(before, s, after);
    let set = ";,"@;
    assert(set[0] == ';' && set[1] == ',');
    text_laws::law_trimming_a_set(s, set);
    let e = text::trim_end_of(s, set);
    if e.len() < candidate.len() {
        assert(s[candidate.len() - 1] == candidate.last());
        assert(set.contains(s[candidate.len() - 1]));
    } else if e.len() > candidate.len() {
        assert(e.last() == s[e.len() - 1]);
        assert(s[e.len() - 1] == separators[e.len() - 1 - candidate.len()]);
        assert(set.contains(e.last()));
    }
    assert(e =~= candidate);
}

// ---------------------------------------------------------------------------
// Kinds of media
// ---------------------------------------------------------------------------

/// The last component of a path is what follows its last slash, and the rest is
/// its directory.
pub proof fn law_a_path_is_a_directory_and_a_name(dir: Seq<char>, name: Seq<char>)
    requires
        dir.len() > 0,
        dir.last() == '/',
        !name.contains('/'),
    ensures
        scraper::last_component(dir + name) == name,
        scraper::directory(dir + name) == dir,
        scraper::last_component(name) == name,
{
    let path = dir + name;
    text::lemma_last_char(path, '/', path.len() as int);
    let i = text::last_char(path, '/', path.len() as int);
    assert(path[dir.len() - 1] == '/');
    assert(i == dir.len() - 1) by {
        if i >= dir.len() {
            assert(path[i] == name[i - dir.len()]);
            assert(name.contains(name[i - dir.len()]));
        }
    }
    assert(path.skip(i + 1) =~= name);
    assert(path.take(i + 1) =~= dir);
    text::lemma_last_char(name, '/', name.len() as int);
    let j = text::last_char(name, '/', name.len() as int);
    if j >= 0 {
        assert(name.contains(name[j]));
    }
    assert(name.skip(0) =~= name);
}

proof fn lemma_extension(path: Seq<char>, stem: Seq<char>, extension: Seq<char>)
    requires
        scraper::last_component(path) == stem + seq!['.'] + extension,
        !extension.contains('.'),
        extension.len() > 0,
    ensures
        text::rsplit_once(scraper::last_component(path), '.') == Some((stem, extension)),
        scraper::path_extension(path) == Some("."@ + text::lower(extension)),
{
    let name = scraper::last_component(path);
    text::lemma_last_char(name, '.', name.len() as int);
    let i = text::last_char(name, '.', name.len() as int);
    assert(name[stem.len() as int] == '.');
    assert(i == stem.len()) by {
        if i > stem.len() {
            assert(name[i] == extension[i - stem.len() - 1]);
            assert(extension.contains(extension[i - stem.len() - 1]));
        }
    }
    assert(name.take(i) =~= stem);
    assert(name.skip(i + 1) =~= extension);
}

/// The extensions of files that are media whatever their name is.
pub open spec fn is_file_extension(e: Seq<char>) -> bool {
    ||| e == "mp4"@
    ||| e == "webm"@
    ||| e == "mov"@
    ||| e == "m4v"@
    ||| e == "mkv"@
    ||| e == "avi"@
    ||| e == "flv"@
    ||| e == "mpeg"@
    ||| e == "mpg"@
    ||| e == "ogg"@
    ||| e == "ogv"@
    ||| e == "3gp"@
}

proof fn lemma_dotted(e: Seq<char>)
    ensures
        "."@ + e == ".m3u8"@ <==> e == "m3u8"@,
        "."@ + e == ".mpd"@ <==> e == "mpd"@,
        "."@ + e == ".ts"@ <==> e == "ts"@,
        scraper::media_extensions().contains("."@ + e) <==> e == "m3u8"@ || e == "mpd"@ || e == "ts"@
            || is_file_extension(e),
{
    lemma_literals();
    lemma_dot(e, "m3u8"@, ".m3u8"@);
    lemma_dot(e, "mpd"@, ".mpd"@);
    lemma_dot(e, "ts"@, ".ts"@);
    lemma_dot(e, "mp4"@, ".mp4"@);
    lemma_dot(e, "webm"@, ".webm"@);
    lemma_dot(e, "mov"@, ".mov"@);
    lemma_dot(e, "m4v"@, ".m4v"@);
    lemma_dot(e, "mkv"@, ".mkv"@);
    lemma_dot(e, "avi"@, ".avi"@);
    lemma_dot(e, "flv"@, ".flv"@);
    lemma_dot(e, "mpeg"@, ".mpeg"@);
    lemma_dot(e, "mpg"@, ".mpg"@);
    lemma_dot(e, "ogg"@, ".ogg"@);
    lemma_dot(e, "ogv"@, ".ogv"@);
    lemma_dot(e, "3gp"@, ".3gp"@);
    let all = scraper::media_extensions();
    assert(all[0] == ".m3u8"@ && all[1] == ".mpd"@ && all[2] == ".mp4"@ && all[3] == ".webm"@
        && all[4] == ".mov"@ && all[5] == ".m4v"@ && all[6] == ".mkv"@ && all[7] == ".avi"@
        && all[8] == ".flv"@ && all[9] == ".ts"@ && all[10] == ".mpeg"@ && all[11] == ".mpg"@
        && all[12] == ".ogg"@ && all[13] == ".ogv"@ && all[14] == ".3gp"@);
    assert(all.len() == 15);
}

proof fn lemma_dot(e: Seq<char>, bare: Seq<char>, dotted: Seq<char>)
    requires
        dotted == "."@ + bare,
    ensures
        "."@ + e == dotted <==> e == bare,
{
    reveal_strlit(".");
    if "."@ + e == "."@ + bare {
        assert(e =~= ("."@ + e).skip(1));
        assert(bare =~= ("."@ + bare).skip(1));
    }
}

/// A path points at a stream if its name ends in the extension of a playlist, in
/// any case; at a file if it ends in that of a file; at a file too if it ends in
/// that of a segment and the name before it holds a digit; and at no media if it
/// ends in anything else.
pub proof fn law_an_extension_tells_the_kind(
    path: Seq<char>,
    stem: Seq<char>,
    extension: Seq<char>,
)
    requires
        scraper::last_component(path) == stem + seq!['.'] + extension,
        !extension.contains('.'),
    ensures
        scraper::kind_of(path) == Some(MediaKind::Hls) <==> text::lower(extension) == "m3u8"@,
        scraper::kind_of(path) == Some(MediaKind::Dash) <==> text::lower(extension) == "mpd"@,
        scraper::kind_of(path) == Some(MediaKind::File) <==> is_file_extension(text::lower(extension)) || (text::lower(
            extension,
        ) == "ts"@ && exists|i: int| 0 <= i < stem.len() && '0' <= #[trigger] stem[i] <= '9'),
{
    let e = text::lower(extension);
    reveal_strlit("m3u8");
    reveal_strlit("mpd");
    reveal_strlit("ts");
    lemma_literals();
    if extension.len() > 0 {
        lemma_extension(path, stem, extension);
        lemma_dotted(e);
        assert("m3u8"@.len() != "mpd"@.len() && "ts"@.len() != "mpd"@.len());
        if scraper::has_digit(stem) {
            let i = choose|i: int| 0 <= i < stem.len() && text::is_digit(#[trigger] stem[i]);
            assert('0' <= stem[i] <= '9');
        }
        if exists|i: int| 0 <= i < stem.len() && '0' <= #[trigger] stem[i] <= '9' {
            let i = choose|i: int| 0 <= i < stem.len() && '0' <= #[trigger] stem[i] <= '9';
            assert(text::is_digit(stem[i]));
        }
    } else {
        let name = scraper::last_component(path);
        text::lemma_last_char(name, '.', name.len() as int);
        assert(name[stem.len() as int] == '.');
        assert(name.skip((stem.len() + 1) as int) =~= Seq::empty());
        assert(e.len() == 0);
    }
}

proof fn lemma_literals()
    ensures
        !is_file_extension("m3u8"@),
        !is_file_extension("mpd"@),
        !is_file_extension("ts"@),
        forall|e: Seq<char>| #[trigger] is_file_extension(e) ==> e.len() > 0,
        ".m3u8"@ == "."@ + "m3u8"@,
        ".mpd"@ == "."@ + "mpd"@,
        ".ts"@ == "."@ + "ts"@,
        ".mp4"@ == "."@ + "mp4"@,
        ".webm"@ == "."@ + "webm"@,
        ".mov"@ == "."@ + "mov"@,
        ".m4v"@ == "."@ + "m4v"@,
        ".mkv"@ == "."@ + "mkv"@,
        ".avi"@ == "."@ + "avi"@,
        ".flv"@ == "."@ + "flv"@,
        ".mpeg"@ == "."@ + "mpeg"@,
        ".mpg"@ == "."@ + "mpg"@,
        ".ogg"@ == "."@ + "ogg"@,
        ".ogv"@ == "."@ + "ogv"@,
        ".3gp"@ == "."@ + "3gp"@,
{
    reveal_strlit(".");
    reveal_strlit("m3u8");
    reveal_strlit(".m3u8");
    reveal_strlit("mpd");
    reveal_strlit(".mpd");
    reveal_strlit("ts");
    reveal_strlit(".ts");
    reveal_strlit("mp4");
    reveal_strlit(".mp4");
    reveal_strlit("webm");
    reveal_strlit(".webm");
    reveal_strlit("mov");
    reveal_strlit(".mov");
    reveal_strlit("m4v");
    reveal_strlit(".m4v");
    reveal_strlit("mkv");
    reveal_strlit(".mkv");
    reveal_strlit("avi");
    reveal_strlit(".avi");
    reveal_strlit("flv");
    reveal_strlit(".flv");
    reveal_strlit("mpeg");
    reveal_strlit(".mpeg");
    reveal_strlit("mpg");
    reveal_strlit(".mpg");
    reveal_strlit("ogg");
    reveal_strlit(".ogg");
    reveal_strlit("ogv");
    reveal_strlit(".ogv");
    reveal_strlit("3gp");
    reveal_strlit(".3gp");
    assert("m3u8"@[0] == 'm' && "m3u8"@[1] == '3');
    assert("webm"@[0] == 'w');
    assert("mpeg"@[1] == 'p');
    assert("mpd"@[1] == 'p' && "mpd"@[2] == 'd');
    assert("mp4"@[2] == '4' && "mpg"@[2] == 'g' && "mov"@[1] == 'o' && "m4v"@[1] == '4'
        && "mkv"@[1] == 'k' && "avi"@[0] == 'a' && "flv"@[0] == 'f' && "ogg"@[0] == 'o'
        && "ogv"@[0] == 'o' && "3gp"@[0] == '3');
    assert(".m3u8"@ =~= "."@ + "m3u8"@);
    assert(".mpd"@ =~= "."@ + "mpd"@);
    assert(".ts"@ =~= "."@ + "ts"@);
    assert(".mp4"@ =~= "."@ + "mp4"@);
    assert(".webm"@ =~= "."@ + "webm"@);
    assert(".mov"@ =~= "."@ + "mov"@);
    assert(".m4v"@ =~= "."@ + "m4v"@);
    assert(".mkv"@ =~= "."@ + "mkv"@);
    assert(".avi"@ =~= "."@ + "avi"@);
    assert(".flv"@ =~= "."@ + "flv"@);
    assert(".mpeg"@ =~= "."@ + "mpeg"@);
    assert(".mpg"@ =~= "."@ + "mpg"@);
    assert(".ogg"@ =~= "."@ + "ogg"@);
    assert(".ogv"@ =~= "."@ + "ogv"@);
    assert(".3gp"@ =~= "."@ + "3gp"@);
}

/// A path whose last component holds no dot points at no media.
pub proof fn law_no_extension_is_no_media(path: Seq<char>)
    requires
        !scraper::last_component(path).contains('.'),
    ensures
        scraper::kind_of(path) is None,
{
    text_laws::law_cutting_at_the_last(scraper::last_component(path), '.');
    if let Some(parts) = text::rsplit_once(scraper::last_component(path), '.') {
        let name = scraper::last_component(path);
        assert(name[parts.0.len() as int] == '.');
    }
}

// ---------------------------------------------------------------------------
// What a page offers
// ---------------------------------------------------------------------------

proof fn lemma_present_add(a: Seq<Option<Seq<char>>>, b: Seq<Option<Seq<char>>>)
    ensures
        scraper::present(a + b) == scraper::present(a) + scraper::present(b),
    decreases b.len(),
{
    if b.len() == 0 {
        assert(a + b =~= a);
        assert(scraper::present(a) + scraper::present(b) =~= scraper::present(a));
    } else {
        assert((a + b).drop_last() =~= a + b.drop_last());
        lemma_present_add(a, b.drop_last());
        assert(scraper::present(a + b) =~= scraper::present(a) + scraper::present(b));
    }
}

/// Of what was matched in a page, all that was captured is a candidate, in its
/// order; a match that captured nothing is none.
pub proof fn law_what_was_captured_is_a_candidate(
    a: Seq<Option<Seq<char>>>,
    b: Seq<Option<Seq<char>>>,
    s: Seq<char>,
)
    ensures
        scraper::captured(Some(a + b)) == scraper::captured(Some(a)) + scraper::captured(Some(b)),
        scraper::captured(Some(seq![Some(s)])) == seq![s],
        scraper::captured(Some(seq![None::<Seq<char>>])) == Seq::<Seq<char>>::empty(),
        scraper::captured(None) == Seq::<Seq<char>>::empty(),
{
    lemma_present_add(a, b);
    let none = Seq::<Option<Seq<char>>>::empty();
    assert(scraper::present(none) =~= Seq::<Seq<char>>::empty());
    assert(seq![Some(s)].drop_last() =~= none);
    assert(scraper::present(seq![Some(s)]) =~= seq![s]);
    assert(seq![None::<Seq<char>>].drop_last() =~= none);
}

/// The candidates of a page are the values of its attributes and then the URLs that
/// stand in it, each read in the text without its escapes, and each means one URL
/// at most.
pub proof fn law_a_page_is_searched_twice(html: Seq<char>, page: UrlView, i: int)
    ensures
        ({
            let values = scraper::captured(scraper::regex_captures(scraper::ATTRIBUTE_PATTERN@, 1, scraper::normalized(html)));
            let urls = scraper::captured(scraper::regex_captures(scraper::RAW_URL_PATTERN@, 0, scraper::normalized(html)));
            &&& scraper::page_urls(html, page).len() == values.len() + urls.len()
            &&& 0 <= i < values.len() ==> scraper::page_urls(html, page)[i] == scraper::candidate_url(
                values[i],
                page,
            )
            &&& 0 <= i < urls.len() ==> scraper::page_urls(html, page)[values.len() + i] == scraper::candidate_url(
                urls[i],
                page,
            )
        }),
{
}

/// A candidate that begins with two slashes takes the scheme of its page; any
/// other is seen from the page.
pub proof fn law_a_candidate_is_seen_from_its_page(raw: Seq<char>, page: UrlView)
    ensures
        ({
            let bare = scraper::bare_candidate(raw);
            let whole = page.scheme + seq![':'] + bare;
            if bare.len() >= 2 && bare[0] == '/' && bare[1] == '/' {
                scraper::candidate_url(raw, page) == (match web::url_parse(whole) {
                    Ok(url) => Some(url),
                    Err(_) => None,
                })
            } else {
                scraper::candidate_url(raw, page) == web::url_join(page.text, bare)
            }
        }),
{
    reveal_strlit("//");
    reveal_strlit(":");
    assert(":"@ =~= seq![':']);
    let bare = scraper::bare_candidate(raw);
    if text::starts_with(bare, "//"@) {
        assert(bare.subrange(0, 2)[0] == '/');
        assert(bare.subrange(0, 2)[1] == '/');
    }
    if bare.len() >= 2 && bare[0] == '/' && bare[1] == '/' {
        assert(bare.subrange(0, 2) =~= "//"@);
    }
}

/// A URL that is found joins what a page offers exactly if it is fetched over HTTP
/// or HTTPS, is media, and is not there already; what was found before stays where
/// it is.
pub proof fn law_a_url_is_offered_once(found: Seq<Option<UrlView>>, url: UrlView)
    ensures
        scraper::distinct_offers(found.push(None)) == scraper::distinct_offers(found),
        (url.scheme == "http"@ || url.scheme == "https"@) && scraper::kind_of(url.path) is Some && (forall|
            i: int,
        |
            0 <= i < scraper::distinct_offers(found).len() ==> (#[trigger] scraper::distinct_offers(found)[i]).text
                != url.text) ==> scraper::distinct_offers(found.push(Some(url))) == scraper::distinct_offers(
            found,
        ).push(url),
        !((url.scheme == "http"@ || url.scheme == "https"@) && scraper::kind_of(url.path) is Some) || (
        exists|i: int|
            0 <= i < scraper::distinct_offers(found).len() && (#[trigger] scraper::distinct_offers(found)[i]).text
                == url.text) ==> scraper::distinct_offers(found.push(Some(url))) == scraper::distinct_offers(found),
        scraper::distinct_offers(Seq::<Option<UrlView>>::empty()) == Seq::<UrlView>::empty(),
{
    assert(found.push(None).drop_last() =~= found);
    assert(found.push(Some(url)).drop_last() =~= found);
}

proof fn lemma_uncovered_add(a: Seq<UrlView>, b: Seq<UrlView>, all: Seq<UrlView>)
    ensures
        scraper::uncovered(a + b, all) == scraper::uncovered(a, all) + scraper::uncovered(b, all),
    decreases b.len(),
{
    if b.len() == 0 {
        assert(a + b =~= a);
        assert(scraper::uncovered(a, all) + scraper::uncovered(b, all) =~= scraper::uncovered(a, all));
    } else {
        assert((a + b).drop_last() =~= a + b.drop_last());
        lemma_uncovered_add(a, b.drop_last(), all);
        assert(scraper::uncovered(a + b, all) =~= scraper::uncovered(a, all) + scraper::uncovered(b, all));
    }
}

/// The segments of the streams that are listed are left out one by one; everything
/// else stays, in its order.
pub proof fn law_segments_are_left_out(
    a: Seq<UrlView>,
    b: Seq<UrlView>,
    url: UrlView,
    all: Seq<UrlView>,
)
    ensures
        scraper::uncovered(a + b, all) == scraper::uncovered(a, all) + scraper::uncovered(b, all),
        scraper::uncovered(seq![url], all) == (if scraper::is_covered(url, all) {
            Seq::empty()
        } else {
            seq![url]
        }),
        scraper::collapsed(all) == scraper::uncovered(all, all),
{
    lemma_uncovered_add(a, b, all);
    let one = seq![url];
    let none = Seq::<UrlView>::empty();
    assert(one.drop_last() =~= none);
    assert(scraper::uncovered(none, all) =~= none);
    if !scraper::is_covered(url, all) {
        assert(scraper::uncovered(one, all) =~= seq![url]);
    }
}

/// A URL is the segment of a listed stream exactly when it ends in the extension
/// of one, in any case, and a playlist of the same origin lies in its directory or
/// above it.
pub proof fn law_a_segment_lies_below_its_playlist(
    playlist: UrlView,
    dir: Seq<char>,
    name: Seq<char>,
    url: UrlView,
    below: Seq<char>,
    stem: Seq<char>,
    extension: Seq<char>,
    all: Seq<UrlView>,
    i: int,
)
    requires
        playlist.path == dir + name,
        dir.len() > 0 && dir.last() == '/' && !name.contains('/'),
        url.path == below + (stem + seq!['.'] + extension),
        below.len() > 0 && below.last() == '/',
        !stem.contains('/') && !extension.contains('/') && !extension.contains('.'),
        extension.len() > 0,
    ensures
        text::eq_fold(extension, "ts"@) && 0 <= i < all.len() && all[i] == playlist && (scraper::kind_of(
            playlist.path,
        ) == Some(MediaKind::Hls) || scraper::kind_of(playlist.path) == Some(MediaKind::Dash)) && web::url_origin(
            playlist.text,
        ) == web::url_origin(url.text) && text::starts_with(below, dir) ==> scraper::is_covered(url, all),
        !text::eq_fold(extension, "ts"@) ==> !scraper::is_covered(url, all),
        scraper::covers(playlist, url) ==> web::url_origin(playlist.text) == web::url_origin(url.text) && text::starts_with(
            below,
            dir,
        ) && (scraper::kind_of(playlist.path) == Some(MediaKind::Hls) || scraper::kind_of(playlist.path) == Some(
            MediaKind::Dash,
        )),
{
    let file = stem + seq!['.'] + extension;
    assert(!file.contains('/')) by {
        if file.contains('/') {
            let k = choose|k: int| 0 <= k < file.len() && file[k] == '/';
            if k < stem.len() {
                assert(stem[k] == '/');
            } else if k > stem.len() {
                assert(extension[k - stem.len() - 1] == '/');
            }
        }
    }
    law_a_path_is_a_directory_and_a_name(dir, name);
    law_a_path_is_a_directory_and_a_name(below, file);
    lemma_extension(url.path, stem, extension);
    lemma_literals();
    reveal_strlit("ts");
    assert(text::lower("ts"@) =~= "ts"@);
    lemma_dot(text::lower(extension), "ts"@, ".ts"@);
    if 0 <= i < all.len() && all[i] == playlist && scraper::covers(playlist, url) {
        assert(scraper::covers(all[i], url));
    }
}

proof fn lemma_of_kind_add(a: Seq<UrlView>, b: Seq<UrlView>, playlists: bool)
    ensures
        scraper::of_kind(a + b, playlists) == scraper::of_kind(a, playlists) + scraper::of_kind(b, playlists),
    decreases b.len(),
{
    if b.len() == 0 {
        assert(a + b =~= a);
        assert(scraper::of_kind(a, playlists) + scraper::of_kind(b, playlists) =~= scraper::of_kind(a, playlists));
    } else {
        assert((a + b).drop_last() =~= a + b.drop_last());
        lemma_of_kind_add(a, b.drop_last(), playlists);
        assert(scraper::of_kind(a + b, playlists) =~= scraper::of_kind(a, playlists) + scraper::of_kind(b, playlists));
    }
}

proof fn lemma_of_kind_holds(s: Seq<UrlView>, url: UrlView)
    ensures
        scraper::of_kind(s, true).contains(url) || scraper::of_kind(s, false).contains(url) <==> s.contains(url),
        scraper::of_kind(s, true).len() + scraper::of_kind(s, false).len() == s.len(),
    decreases s.len(),
{
    if s.len() > 0 {
        let r = s.drop_last();
        lemma_of_kind_holds(r, url);
        let k = scraper::is_playlist_path(s.last().path);
        let now = scraper::of_kind(s, k);
        let before = scraper::of_kind(r, k);
        assert(now == before.push(s.last()));
        assert(scraper::of_kind(s, !k) == scraper::of_kind(r, !k));
        if s.contains(url) {
            let j = choose|j: int| 0 <= j < s.len() && s[j] == url;
            if j < r.len() {
                assert(r[j] == url);
                if before.contains(url) {
                    let m = choose|m: int| 0 <= m < before.len() && before[m] == url;
                    assert(now[m] == url);
                }
            } else {
                assert(now[before.len() as int] == url);
            }
        }
        if now.contains(url) {
            let m = choose|m: int| 0 <= m < now.len() && now[m] == url;
            if m < before.len() {
                assert(before[m] == url);
                let j = choose|j: int| 0 <= j < r.len() && r[j] == url;
                assert(s[j] == url);
            } else {
                assert(s[s.len() - 1] == url);
            }
        }
        if scraper::of_kind(r, !k).contains(url) {
            let j = choose|j: int| 0 <= j < r.len() && r[j] == url;
            assert(s[j] == url);
        }
    } else {
        assert(scraper::of_kind(s, true) =~= s);
        assert(scraper::of_kind(s, false) =~= s);
    }
}

/// A page offers all of its media but the segments of the streams that it lists:
/// nothing else is lost and nothing is added.
pub proof fn law_a_page_offers_all_of_its_media(found: Seq<Option<UrlView>>, url: UrlView)
    ensures
        scraper::page_offer(found).contains(url) <==> scraper::collapsed(scraper::distinct_offers(found)).contains(url),
        scraper::page_offer(found).len() == scraper::collapsed(scraper::distinct_offers(found)).len(),
{
    let all = scraper::collapsed(scraper::distinct_offers(found));
    lemma_of_kind_holds(all, url);
    let a = scraper::of_kind(all, true);
    let b = scraper::of_kind(all, false);
    let offer = scraper::page_offer(found);
    assert(offer == a + b);
    if offer.contains(url) {
        let k = choose|k: int| 0 <= k < offer.len() && offer[k] == url;
        if k < a.len() {
            assert(a[k] == url);
        } else {
            assert(b[k - a.len()] == url);
        }
    }
    if a.contains(url) {
        let k = choose|k: int| 0 <= k < a.len() && a[k] == url;
        assert(offer[k] == url);
    }
    if b.contains(url) {
        let k = choose|k: int| 0 <= k < b.len() && b[k] == url;
        assert(offer[a.len() + k] == url);
    }
}

/// Playlists come first in what a page offers, then everything else; within each of
/// the two, the order is that in which the page mentions them.
pub proof fn law_playlists_come_first(a: Seq<UrlView>, b: Seq<UrlView>, url: UrlView)
    ensures
        scraper::of_kind(a + b, true) == scraper::of_kind(a, true) + scraper::of_kind(b, true),
        scraper::of_kind(a + b, false) == scraper::of_kind(a, false) + scraper::of_kind(b, false),
        scraper::kind_of(url.path) == Some(MediaKind::Hls) || scraper::kind_of(url.path) == Some(MediaKind::Dash)
            ==> scraper::of_kind(seq![url], true) == seq![url] && scraper::of_kind(seq![url], false) == Seq::<
            UrlView,
        >::empty(),
        scraper::kind_of(url.path) == Some(MediaKind::File) || scraper::kind_of(url.path) is None ==> scraper::of_kind(
            seq![url],
            false,
        ) == seq![url] && scraper::of_kind(seq![url], true) == Seq::<UrlView>::empty(),
{
    lemma_of_kind_add(a, b, true);
    lemma_of_kind_add(a, b, false);
    let one = seq![url];
    let none = Seq::<UrlView>::empty();
    assert(one.drop_last() =~= none);
    assert(scraper::of_kind(none, true) =~= none);
    assert(scraper::of_kind(none, false) =~= none);
    assert(none.push(url) =~= one);
}

} // verus!
