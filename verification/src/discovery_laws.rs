//! What listing, selecting and looking up media amounts to, stated without the
//! definitions of the listings and the choices.

use vstd::prelude::*;
use crate::{discovery, playlist_laws, probe, scraper, session, text, web};
use crate::discovery::{CandidateRenditionView, CandidateView};
use crate::error::DownerError;
use crate::probe::{Next, Probe};
use crate::scraper::{
    HlsInfo, MasterView, MediaKind, Playlist, PlaylistProblem, RenditionView,
};
use crate::session::Step;
use crate::web::UrlView;

verus! {

// ---------------------------------------------------------------------------
// Selecting
// ---------------------------------------------------------------------------

proof fn lemma_first_position(s: Seq<UrlView>, url: Seq<char>, i: int)
    requires
        0 <= i <= s.len(),
    ensures
        ({
            let k = discovery::position_of(s, url, i);
            &&& i <= k <= s.len()
            &&& k < s.len() ==> s[k].text == url
            &&& forall|j: int| i <= j < k ==> (#[trigger] s[j]).text != url
        }),
    decreases s.len() - i,
{
    if i < s.len() && s[i].text != url {
        lemma_first_position(s, url, i + 1);
    }
}

/// A number counts the candidates from one and selects none beyond them; a URL
/// selects the first candidate at it, and none if there is none.
pub proof fn law_a_selection_is_offered_or_refused(s: Seq<UrlView>, number: int, url: Seq<char>)
    ensures
        discovery::numbered(s, number) is Some <==> 1 <= number <= s.len(),
        1 <= number <= s.len() ==> discovery::numbered(s, number) == Some(s[number - 1]),
        match discovery::named(s, url) {
            Some(found) => found.text == url && exists|k: int|
                {
                    &&& 0 <= k < s.len()
                    &&& #[trigger] s[k] == found
                    &&& forall|j: int| 0 <= j < k ==> (#[trigger] s[j]).text != url
                },
            None => forall|j: int| 0 <= j < s.len() ==> (#[trigger] s[j]).text != url,
        },
{
    lemma_first_position(s, url, 0);
    let k = discovery::position_of(s, url, 0);
    if k < s.len() {
        assert(s[k] == discovery::named(s, url)->0);
    }
}

// ---------------------------------------------------------------------------
// Listing
// ---------------------------------------------------------------------------

/// A listing counts its candidates from one and names each by its URL and its
/// kind. Only streams of one kind are an experiment, only those of the other list
/// renditions, and these only from a playlist that lists them.
pub proof fn law_a_candidate_is_listed_as_it_is(
    position: int,
    url: UrlView,
    kind: MediaKind,
    playlist: Option<Playlist>,
)
    ensures
        ({
            let c = discovery::listed_candidate(position, url, kind, playlist);
            &&& c.index == position + 1
            &&& c.url == url.text
            &&& c.experimental <==> kind == MediaKind::Dash
            &&& c.kind == (match kind {
                MediaKind::Hls => "hls"@,
                MediaKind::Dash => "dash"@,
                MediaKind::File => "file"@,
            })
            &&& c.renditions is Some <==> kind == MediaKind::Hls && playlist is Some && playlist->0
                is Master
            &&& c.renditions matches Some(v) ==> v.len() == (
            playlist->0->Master_0)@.renditions.len() && forall|i: int|
                0 <= i < v.len() ==> #[trigger] v[i] == discovery::listed_rendition(
                    (playlist->0->Master_0)@,
                    (playlist->0->Master_0)@.renditions[i],
                )
        }),
{
}

/// A rendition is listed as the playlist has it, with a sound of its own group
/// exactly if the playlist lists one.
pub proof fn law_a_rendition_is_listed_as_it_is(master: MasterView, r: RenditionView)
    ensures
        ({
            let l = discovery::listed_rendition(master, r);
            &&& l.url == r.url.text
            &&& l.bandwidth == r.bandwidth && l.width == r.width && l.height == r.height
            &&& l.codecs == r.codecs
            &&& l.default <==> master.renditions[0].url.text == r.url.text
            &&& l.audio_url matches Some(url) ==> exists|j: int|
                0 <= j < master.audio.len() && (#[trigger] master.audio[j]).url.text == url
                    && r.audio_group == Some(master.audio[j].group_id)
            &&& l.audio_url is None ==> forall|j: int|
                0 <= j < master.audio.len() ==> r.audio_group != Some(
                    (#[trigger] master.audio[j]).group_id,
                )
        }),
{
    playlist_laws::law_a_sound_belongs_to_its_rendition(master, r);
}

/// What is said of a rendition begins with its height, or else its width, or that
/// neither is known. Its bandwidth in thousands, its codecs, whether it is the
/// default and whether its sound is separate follow, each where it is known.
pub proof fn law_a_rendition_is_described(r: CandidateRenditionView)
    ensures
        ({
            let parts = discovery::rendition_parts(r);
            let b = if r.bandwidth > 0 {
                1int
            } else {
                0
            };
            let c = b + if r.codecs is Some {
                1int
            } else {
                0
            };
            let d = c + if r.default {
                1int
            } else {
                0
            };
            let a = d + if r.audio_url is Some {
                1int
            } else {
                0
            };
            &&& parts.len() == 1 + a
            &&& r.height matches Some(h) ==> parts[0] == text::decimal(h as nat) + "p"@
            &&& r.height is None && r.width is Some ==> parts[0] == text::decimal(r.width->0 as nat)
                + "px wide"@
            &&& r.height is None && r.width is None ==> parts[0] == "unknown size"@
            &&& r.bandwidth > 0 ==> parts[1] == text::decimal((r.bandwidth / 1000) as nat) + " kbps"@
            &&& r.codecs is Some ==> parts[1 + b] == r.codecs->0
            &&& r.default ==> parts[1 + c] == "(default)"@
            &&& r.audio_url is Some ==> parts[1 + d] == "+ separate audio"@
        }),
{
}

proof fn lemma_rendition_lines_add(a: Seq<CandidateRenditionView>, b: Seq<CandidateRenditionView>)
    ensures
        discovery::rendition_lines(a + b) == discovery::rendition_lines(a) + discovery::rendition_lines(b),
    decreases b.len(),
{
    if b.len() == 0 {
        assert(a + b =~= a);
        assert(discovery::rendition_lines(a) + discovery::rendition_lines(b) =~= discovery::rendition_lines(a));
    } else {
        assert((a + b).drop_last() =~= a + b.drop_last());
        lemma_rendition_lines_add(a, b.drop_last());
        assert(discovery::rendition_lines(a + b) =~= discovery::rendition_lines(a) + discovery::rendition_lines(b));
    }
}

proof fn lemma_candidate_lines_add(a: Seq<CandidateView>, b: Seq<CandidateView>)
    ensures
        discovery::all_candidate_lines(a + b) == discovery::all_candidate_lines(a) + discovery::all_candidate_lines(b),
    decreases b.len(),
{
    if b.len() == 0 {
        assert(a + b =~= a);
        assert(discovery::all_candidate_lines(a) + discovery::all_candidate_lines(b) =~= discovery::all_candidate_lines(a));
    } else {
        assert((a + b).drop_last() =~= a + b.drop_last());
        lemma_candidate_lines_add(a, b.drop_last());
        assert(discovery::all_candidate_lines(a + b) =~= discovery::all_candidate_lines(a) + discovery::all_candidate_lines(b));
    }
}

/// A listing shows its candidates one after the other, and the renditions of each
/// below it, one on a line.
pub proof fn law_a_listing_shows_each_candidate(
    a: Seq<CandidateView>,
    b: Seq<CandidateView>,
    c: CandidateView,
    v: Seq<CandidateRenditionView>,
    w: Seq<CandidateRenditionView>,
    r: CandidateRenditionView,
)
    ensures
        discovery::all_candidate_lines(a + b) == discovery::all_candidate_lines(a) + discovery::all_candidate_lines(b),
        discovery::all_candidate_lines(seq![c]) == discovery::candidate_lines(c),
        discovery::rendition_lines(v + w) == discovery::rendition_lines(v) + discovery::rendition_lines(w),
        discovery::rendition_lines(seq![r]) == "       "@ + text::join(discovery::rendition_parts(r), "  "@) + seq!['\n'],
        c.renditions is Some ==> discovery::candidate_lines(c) == discovery::candidate_lines(
            CandidateView { renditions: None, ..c },
        ) + discovery::rendition_lines(c.renditions->0),
{
    reveal_strlit("\n");
    assert("\n"@ =~= seq!['\n']);
    lemma_candidate_lines_add(a, b);
    lemma_rendition_lines_add(v, w);
    let one = seq![c];
    assert(one.drop_last() =~= Seq::<CandidateView>::empty());
    assert(discovery::all_candidate_lines(one.drop_last()) =~= Seq::<char>::empty());
    assert(discovery::all_candidate_lines(one) =~= discovery::candidate_lines(c));
    let line = seq![r];
    assert(line.drop_last() =~= Seq::<CandidateRenditionView>::empty());
    assert(discovery::rendition_lines(line.drop_last()) =~= Seq::<char>::empty());
    assert(discovery::rendition_lines(line) =~= "       "@ + text::join(discovery::rendition_parts(r), "  "@) + seq!['\n']);
    if c.renditions is Some {
        assert(discovery::candidate_lines(c) =~= discovery::candidate_lines(CandidateView { renditions: None, ..c })
            + discovery::rendition_lines(c.renditions->0));
    }
}

/// A candidate is shown by its number, its kind and its URL. Short numbers are set
/// to the right and short kinds to the left, so that the columns stand below each
/// other, and an experiment is called one.
pub proof fn law_a_candidate_is_shown_in_columns(c: CandidateView)
    requires
        c.renditions is None,
        0 <= c.index,
    ensures
        ({
            let number = text::decimal(c.index as nat);
            let kind = if c.experimental {
                c.kind + " (experimental)"@
            } else {
                c.kind
            };
            let row = discovery::candidate_lines(c);
            let n = if number.len() < 3 {
                3int
            } else {
                number.len() as int
            };
            let m = if kind.len() < 5 {
                5int
            } else {
                kind.len() as int
            };
            &&& row.subrange(n - number.len(), n) == number
            &&& row.subrange(n + 2, n + 2 + kind.len()) == kind
            &&& row.skip(n + 2 + m + 2) == c.url + seq!['\n']
            &&& forall|k: int| 0 <= k < n - number.len() ==> #[trigger] row[k] == ' '
            &&& forall|k: int| n <= k < n + 2 ==> #[trigger] row[k] == ' '
            &&& forall|k: int|
                n + 2 + kind.len() <= k < n + 2 + m + 2 ==> #[trigger] row[k] == ' '
        }),
{
    reveal_strlit("\n");
    reveal_strlit("  ");
    assert("\n"@ =~= seq!['\n']);
    let number = text::decimal(c.index as nat);
    let kind = if c.experimental {
        c.kind + " (experimental)"@
    } else {
        c.kind
    };
    let row = discovery::candidate_lines(c);
    let left = text::fill(number, 3);
    let right = text::fill(kind, 5);
    assert(row =~= left + number + "  "@ + kind + right + "  "@ + c.url + seq!['\n']);
    let n = (left + number).len() as int;
    let m = (kind + right).len() as int;
    assert(row.subrange(n - number.len(), n) =~= number);
    assert(row.subrange(n + 2, n + 2 + kind.len()) =~= kind);
    assert(row.skip(n + 2 + m + 2) =~= c.url + seq!['\n']);
}

/// One candidate is counted in the singular, any other number of them in the
/// plural.
pub proof fn law_candidates_are_counted(total: nat)
    ensures
        discovery::count_text(1) == "1 candidate"@,
        total != 1 ==> discovery::count_text(total) == text::decimal(total) + " candidates"@,
{
}

// ---------------------------------------------------------------------------
// Looking up a playlist
// ---------------------------------------------------------------------------

/// Of a playlist that lists renditions, the preferred one is read if it is listed,
/// and else the one that would be downloaded; none only if it lists none.
pub proof fn law_the_preferred_rendition_is_read(master: MasterView, preferred: UrlView)
    ensures
        probe::read_rendition(master, None) is None <==> master.renditions.len() == 0,
        probe::read_rendition(master, Some(preferred)) is None <==> master.renditions.len() == 0,
        master.renditions.len() > 0 ==> probe::read_rendition(master, None) == Some(
            master.renditions[0].url,
        ),
        (exists|i: int|
            0 <= i < master.renditions.len() && (#[trigger] master.renditions[i]).url.text
                == preferred.text) ==> (probe::read_rendition(master, Some(preferred)) matches Some(url)
            && url.text == preferred.text),
        !(exists|i: int|
            0 <= i < master.renditions.len() && (#[trigger] master.renditions[i]).url.text
                == preferred.text) ==> probe::read_rendition(master, Some(preferred)) == probe::read_rendition(
            master,
            None,
        ),
{
    playlist_laws::lemma_first_at_url(master.renditions, preferred.text, 0);
    let k = scraper::with_url(master.renditions, preferred.text, 0);
    if k < master.renditions.len() {
        assert(master.renditions[k].url.text == preferred.text);
    }
}

/// A playlist is looked for above another only where that leads to another URL.
pub proof fn law_a_playlist_is_not_its_own_parent(found: UrlView, url: UrlView)
    ensures
        probe::unless_same(None, url) is None,
        probe::unless_same(Some(found), url) is None <==> found.text == url.text,
        probe::unless_same(Some(found), url) is Some ==> probe::unless_same(Some(found), url) == Some(found),
{
}

/// What was fetched has one problem: it is a playlist without segments, the
/// challenge of a guard, or no playlist at all.
pub proof fn law_a_body_has_one_problem(
    text: Seq<char>,
    problem: PlaylistProblem,
    other: PlaylistProblem,
)
    requires
        probe::body_problem(text, problem),
        probe::body_problem(text, other),
    ensures
        problem == other,
        problem is NoSegments <==> text::starts_with(text::trim_start(text), "#EXTM3U"@),
        problem is Challenged <==> !text::starts_with(text::trim_start(text), "#EXTM3U"@) && text::contains(
            text::lower(text),
            "cloudflare"@,
        ),
{
}

/// A listing names its source, shows its candidates and says how one is
/// downloaded; how a rendition is chosen is said exactly if there is a choice.
pub proof fn law_a_listing_says_how_to_choose(source: Seq<char>, v: Seq<CandidateView>)
    ensures
        ({
            let words = discovery::listing_words(source, v);
            let plain = "Source: "@ + source + "\n\n"@ + discovery::all_candidate_lines(v)
                + "\nDownload one with --select N, or name it with --media URL.\n"@;
            let choice = exists|i: int|
                {
                    &&& 0 <= i < v.len()
                    &&& (#[trigger] v[i]).renditions is Some
                    &&& v[i].renditions->0.len() >= 2
                };
            &&& !choice ==> words == plain
            &&& choice ==> words.len() > plain.len() && words.take(plain.len() as int) == plain
        }),
{
    reveal_strlit(
        "Choose a rendition with --rendition (best, worst, a height such as 720p, or a variant URL).\n",
    );
    let words = discovery::listing_words(source, v);
    let plain = "Source: "@ + source + "\n\n"@ + discovery::all_candidate_lines(v)
        + "\nDownload one with --select N, or name it with --media URL.\n"@;
    if exists|i: int|
        {
            &&& 0 <= i < v.len()
            &&& (#[trigger] v[i]).renditions is Some
            &&& v[i].renditions->0.len() >= 2
        } {
        let i = choose|i: int|
            {
                &&& 0 <= i < v.len()
                &&& (#[trigger] v[i]).renditions is Some
                &&& v[i].renditions->0.len() >= 2
            };
        assert(discovery::has_choice(v[i]));
        assert(words.take(plain.len() as int) =~= plain);
    } else {
        assert(!exists|i: int| 0 <= i < v.len() && discovery::has_choice(#[trigger] v[i]));
        assert(words =~= plain);
    }
}

/// A search for the length of a stream ends with what was found. A problem leads to
/// the playlist above, once; there the search ends with the problem that the URL
/// itself had.
pub proof fn law_a_search_ends_with_the_first_problem(
    probe: Probe,
    info: HlsInfo,
    problem: PlaylistProblem,
    next: Next,
)
    ensures
        probe.follows(Ok(info), next) ==> next == Next::Done(Ok(info)),
        probe.follows(Err(problem), next) && probe.first is Some ==> next == Next::Done(
            Err(probe.first->0),
        ),
        probe.follows(Err(problem), next) && probe.first is None && probe::playlist_above(probe.url@)
            is None ==> next == Next::Done(Err(problem)),
        probe.follows(Err(problem), next) && probe.first is None && probe::playlist_above(probe.url@)
            is Some ==> (next matches Next::Fetch(later, url, page) && url@ == probe::playlist_above(
            probe.url@,
        )->0 && later.first == Some(problem) && later.url == probe.url && later.variant is None
            && later.refused is None && web::opt_url(page) == web::opt_url(probe.referer)),
        probe.preferred() is Some <==> probe.first is Some,
        probe.preferred() matches Some(url) ==> url == probe.url@,
{
}

/// A step that stops a download ends it with the failure, removes nothing and
/// prints nothing.
pub proof fn law_a_stop_does_nothing_else(step: Step, error: DownerError)
    requires
        session::stops(step, error),
    ensures
        step matches Step::Finish(f) && f.result == Err::<String, DownerError>(error) && f.remove
            is None && f.lines@.len() == 0,
{
}

} // verus!
