//! Listing what a source offers, and picking one of it.

use vstd::prelude::*;
use crate::{output, scraper, text, web};
use crate::error::{DownerError, DownerResult};
use crate::scraper::{
    MasterPlaylist, MasterView, MediaKind, Playlist, RenditionView, SourceMedia,
};
use crate::web::{Url, UrlView};

verus! {

/// The version of the documents that describe a listing or a download.
pub const SCHEMA_VERSION: u32 = 1;

/// What downloads.
pub const ENGINE: &'static str = "ffmpeg";

/// Something that a source offers.
#[derive(Debug)]
pub struct Candidate {
    /// Its number in the listing, from 1.
    pub index: usize,
    pub url: String,
    pub kind: &'static str,
    pub experimental: bool,
    pub renditions: Option<Vec<CandidateRendition>>,
}

/// A rendition of a candidate.
#[derive(Debug)]
pub struct CandidateRendition {
    pub url: String,
    pub bandwidth: u64,
    pub width: Option<u32>,
    pub height: Option<u32>,
    pub codecs: Option<String>,
    pub audio_url: Option<String>,
    pub default: bool,
}

/// All that a source offers.
#[derive(Debug)]
pub struct Listing {
    pub schema_version: u32,
    pub source: String,
    pub candidates: Vec<Candidate>,
}

/// A download that is done.
#[derive(Debug)]
pub struct DownloadReport {
    pub schema_version: u32,
    pub url: String,
    pub path: String,
    pub engine: &'static str,
    pub bytes: Option<u64>,
    pub elapsed_ms: u64,
}

#[verifier::ext_equal]
pub struct CandidateRenditionView {
    pub url: Seq<char>,
    pub bandwidth: u64,
    pub width: Option<u32>,
    pub height: Option<u32>,
    pub codecs: Option<Seq<char>>,
    pub audio_url: Option<Seq<char>>,
    pub default: bool,
}

impl View for CandidateRendition {
    type V = CandidateRenditionView;

    open spec fn view(&self) -> CandidateRenditionView {
        CandidateRenditionView {
            url: self.url@,
            bandwidth: self.bandwidth,
            width: self.width,
            height: self.height,
            codecs: text::opt_text(self.codecs),
            audio_url: text::opt_text(self.audio_url),
            default: self.default,
        }
    }
}

pub open spec fn candidate_rendition_views(v: Seq<CandidateRendition>) -> Seq<
    CandidateRenditionView,
> {
    Seq::new(v.len(), |i: int| v[i]@)
}

#[verifier::ext_equal]
pub struct CandidateView {
    pub index: int,
    pub url: Seq<char>,
    pub kind: Seq<char>,
    pub experimental: bool,
    pub renditions: Option<Seq<CandidateRenditionView>>,
}

impl View for Candidate {
    type V = CandidateView;

    open spec fn view(&self) -> CandidateView {
        CandidateView {
            index: self.index as int,
            url: self.url@,
            kind: self.kind@,
            experimental: self.experimental,
            renditions: match self.renditions {
                Some(v) => Some(candidate_rendition_views(v@)),
                None => None,
            },
        }
    }
}

pub open spec fn candidate_views(v: Seq<Candidate>) -> Seq<CandidateView> {
    Seq::new(v.len(), |i: int| v[i]@)
}

// ---------------------------------------------------------------------------
// Listing
// ---------------------------------------------------------------------------

/// A rendition as a listing holds it.
pub open spec fn listed_rendition(master: MasterView, r: RenditionView) -> CandidateRenditionView {
    CandidateRenditionView {
        url: r.url.text,
        bandwidth: r.bandwidth,
        width: r.width,
        height: r.height,
        codecs: r.codecs,
        audio_url: match master.sound_of(r) {
            Some(sound) => Some(sound.url.text),
            None => None,
        },
        default: master.renditions[0].url.text == r.url.text,
    }
}

/// The renditions of a master playlist as a listing holds them, best first.
pub fn renditions_of(master: &MasterPlaylist) -> (r: Vec<CandidateRendition>)
    ensures
        candidate_rendition_views(r@) == Seq::new(
            master@.renditions.len(),
            |i: int| listed_rendition(master@, master@.renditions[i]),
        ),
{
    let mut r: Vec<CandidateRendition> = Vec::new();
    let mut i: usize = 0;
    while i < master.renditions.len()
        invariant
            i <= master.renditions@.len(),
            r@.len() == i,
            forall|j: int|
                0 <= j < i ==> #[trigger] candidate_rendition_views(r@)[j] == listed_rendition(
                    master@,
                    master@.renditions[j],
                ),
        decreases master.renditions@.len() - i,
    {
        let x = &master.renditions[i];
        let audio_url = match master.audio_for(x) {
            Some(sound) => Some(text::owned(sound.url.as_str())),
            None => None,
        };
        assert(master@.renditions[0] == master.renditions@[0]@);
        assert(master@.renditions[i as int] == x@);
        let item = CandidateRendition {
            url: text::owned(x.url.as_str()),
            bandwidth: x.bandwidth,
            width: x.width,
            height: x.height,
            codecs: text::copy_opt(&x.codecs),
            audio_url,
            default: web::same_url(&master.renditions[0].url, &x.url),
        };
        let ghost before = r@;
        assert(item@ == listed_rendition(master@, x@));
        r.push(item);
        assert forall|j: int| 0 <= j < i + 1 implies #[trigger] candidate_rendition_views(r@)[j]
            == listed_rendition(master@, master@.renditions[j]) by {
            if j < i {
                assert(candidate_rendition_views(r@)[j] == candidate_rendition_views(before)[j]);
            }
        }
        i = i + 1;
    }
    assert(candidate_rendition_views(r@) =~= Seq::new(
        master@.renditions.len(),
        |i: int| listed_rendition(master@, master@.renditions[i]),
    ));
    r
}

/// A candidate as a listing holds it. DASH is offered as an experiment, and
/// only a playlist has renditions.
pub fn candidate(
    position: usize,
    url: &Url,
    kind: MediaKind,
    renditions: Option<Vec<CandidateRendition>>,
) -> (r: Candidate)
    requires
        position < usize::MAX,
    ensures
        r.index == position + 1,
        r.url@ == url@.text,
        r.kind@ == kind.text(),
        r.experimental == (kind == MediaKind::Dash),
        r.renditions == (if kind == MediaKind::Hls {
            renditions
        } else {
            None
        }),
{
    let experimental = match kind {
        MediaKind::Dash => true,
        _ => false,
    };
    let renditions = match kind {
        MediaKind::Hls => renditions,
        _ => None,
    };
    Candidate {
        index: position + 1,
        url: text::owned(url.as_str()),
        kind: kind.as_str(),
        experimental,
        renditions,
    }
}

/// What the playlist of a candidate, if it was fetched, offers to choose from.
pub open spec fn listed_renditions(playlist: Option<Playlist>) -> Option<
    Seq<CandidateRenditionView>,
> {
    match playlist {
        Some(Playlist::Master(master)) => Some(
            Seq::new(
                master@.renditions.len(),
                |i: int| listed_rendition(master@, master@.renditions[i]),
            ),
        ),
        _ => None,
    }
}

/// A candidate as a listing holds it, by its position and its playlist.
pub open spec fn listed_candidate(
    position: int,
    url: UrlView,
    kind: MediaKind,
    playlist: Option<Playlist>,
) -> CandidateView {
    CandidateView {
        index: position + 1,
        url: url.text,
        kind: kind.text(),
        experimental: kind == MediaKind::Dash,
        renditions: if kind == MediaKind::Hls {
            listed_renditions(playlist)
        } else {
            None
        },
    }
}

/// List what a source offers. `playlists` holds, for each of its candidates, the
/// playlist that was found there, if it is one and could be read.
pub fn list(source: &SourceMedia, playlists: &Vec<Option<Playlist>>) -> (r: Listing)
    requires
        source.urls@.len() > 0,
        playlists@.len() == source.urls@.len(),
        forall|i: int|
            0 <= i < source.urls@.len() ==> scraper::kind_of((#[trigger] source.urls@[i])@.path) is Some,
    ensures
        r.schema_version == SCHEMA_VERSION,
        r.source@ == match source.referer {
            Some(page) => page@.text,
            None => source.urls@[0]@.text,
        },
        candidate_views(r.candidates@) == Seq::new(
            source.urls@.len(),
            |i: int|
                listed_candidate(
                    i,
                    source.urls@[i]@,
                    scraper::kind_of(source.urls@[i]@.path)->0,
                    playlists@[i],
                ),
        ),
{
    let mut candidates: Vec<Candidate> = Vec::new();
    let mut i: usize = 0;
    let total: usize = source.urls.len();
    while i < total
        invariant
            total == source.urls@.len(),
            playlists@.len() == source.urls@.len(),
            forall|j: int|
                0 <= j < source.urls@.len() ==> scraper::kind_of((#[trigger] source.urls@[j])@.path) is Some,
            i <= total,
            candidates@.len() == i,
            forall|j: int|
                0 <= j < i ==> #[trigger] candidate_views(candidates@)[j] == listed_candidate(
                    j,
                    source.urls@[j]@,
                    scraper::kind_of(source.urls@[j]@.path)->0,
                    playlists@[j],
                ),
        decreases total - i,
    {
        let url = &source.urls[i];
        let kind = match scraper::media_kind(url) {
            Some(kind) => kind,
            None => MediaKind::File,
        };
        let renditions = match &playlists[i] {
            Some(Playlist::Master(master)) => Some(renditions_of(master)),
            _ => None,
        };
        let item = candidate(i, url, kind, renditions);
        assert(item@ =~= listed_candidate(
            i as int,
            url@,
            scraper::kind_of(url@.path)->0,
            playlists@[i as int],
        ));
        let ghost before = candidates@;
        candidates.push(item);
        assert forall|j: int| 0 <= j < i + 1 implies #[trigger] candidate_views(candidates@)[j]
            == listed_candidate(
            j,
            source.urls@[j]@,
            scraper::kind_of(source.urls@[j]@.path)->0,
            playlists@[j],
        ) by {
            if j < i {
                assert(candidate_views(candidates@)[j] == candidate_views(before)[j]);
            }
        }
        i = i + 1;
    }
    assert(candidate_views(candidates@) =~= Seq::new(
        source.urls@.len(),
        |i: int|
            listed_candidate(
                i,
                source.urls@[i]@,
                scraper::kind_of(source.urls@[i]@.path)->0,
                playlists@[i],
            ),
    ));
    Listing {
        schema_version: SCHEMA_VERSION,
        source: text::owned(source.source().as_str()),
        candidates,
    }
}

// ---------------------------------------------------------------------------
// Picking
// ---------------------------------------------------------------------------

/// How many candidates there are, in words.
pub open spec fn count_text(total: nat) -> Seq<char> {
    if total == 1 {
        "1 candidate"@
    } else {
        text::decimal(total) + " candidates"@
    }
}

fn offer_count(total: usize) -> (r: String)
    ensures
        r@ == count_text(total as nat),
{
    if total == 1 {
        text::owned("1 candidate")
    } else {
        text::join2(text::decimal_of(total as u64).as_str(), " candidates")
    }
}

/// The first URL at or after `i` that is the given one, or the number of URLs.
pub open spec fn position_of(s: Seq<UrlView>, url: Seq<char>, i: int) -> int
    decreases s.len() - i,
{
    if i < 0 || i >= s.len() {
        s.len() as int
    } else if s[i].text == url {
        i
    } else {
        position_of(s, url, i + 1)
    }
}

/// The candidate of a number, counted from one.
pub open spec fn numbered(s: Seq<UrlView>, number: int) -> Option<UrlView> {
    if 1 <= number <= s.len() {
        Some(s[number - 1])
    } else {
        None
    }
}

/// The first candidate at a URL.
pub open spec fn named(s: Seq<UrlView>, url: Seq<char>) -> Option<UrlView> {
    if position_of(s, url, 0) < s.len() {
        Some(s[position_of(s, url, 0)])
    } else {
        None
    }
}

/// Pick the candidate of a source that a URL names.
pub fn pick(source: &SourceMedia, wanted: &Url) -> (r: DownerResult<Url>)
    ensures
        match named(web::url_views(source.urls@), wanted@.text) {
            Some(found) => r matches Ok(url) && url@ == found,
            None => r matches Err(DownerError::CandidateNotOffered(reason)) && reason@ == "--media "@
                + wanted@.text + ": this source does not offer it; run --list to see what it does"@,
        },
{
    let mut i: usize = 0;
    while i < source.urls.len()
        invariant
            i <= source.urls@.len(),
            position_of(web::url_views(source.urls@), wanted@.text, i as int) == position_of(
                web::url_views(source.urls@),
                wanted@.text,
                0,
            ),
        decreases source.urls@.len() - i,
    {
        assert(web::url_views(source.urls@)[i as int] == source.urls@[i as int]@);
        if web::same_url(&source.urls[i], wanted) {
            return Ok(source.urls[i].copy());
        }
        i = i + 1;
    }
    Err(
        DownerError::CandidateNotOffered(
            text::join3(
                "--media ",
                wanted.as_str(),
                ": this source does not offer it; run --list to see what it does",
            ),
        ),
    )
}

/// Pick one of the candidates of a source: by its number, by its URL, or the
/// first. One that is not offered is refused, never replaced by another.
pub fn select(source: &SourceMedia, wanted_position: Option<usize>, media: Option<&str>) -> (r: DownerResult<
    Url,
>)
    requires
        wanted_position is None && media is None ==> source.urls@.len() > 0,
    ensures
        match (wanted_position, media) {
            (Some(position), _) => match numbered(web::url_views(source.urls@), position as int) {
                Some(found) => r matches Ok(url) && url@ == found,
                None => r matches Err(DownerError::CandidateNotOffered(reason)) && reason@
                    == "--select "@ + text::decimal(position as nat) + ": this source offers "@
                    + count_text(source.urls@.len()) + "; run --list to see them"@,
            },
            (None, Some(raw)) => match output::url_verdict(raw@, web::url_parse(raw@)) {
                Ok(wanted) => match named(web::url_views(source.urls@), wanted.text) {
                    Some(found) => r matches Ok(url) && url@ == found,
                    None => r matches Err(DownerError::CandidateNotOffered(reason)) && reason@
                        == "--media "@ + wanted.text
                        + ": this source does not offer it; run --list to see what it does"@,
                },
                Err(why) => r matches Err(DownerError::InvalidUrl(reason)) && reason@ == why,
            },
            (None, None) => r matches Ok(url) && url@ == source.urls@[0]@,
        },
{
    if let Some(position) = wanted_position {
        if position >= 1 && position <= source.urls.len() {
            return Ok(source.urls[position - 1].copy());
        }
        let mut reason = text::owned("--select ");
        reason.append(text::decimal_of(position as u64).as_str());
        reason.append(": this source offers ");
        reason.append(offer_count(source.urls.len()).as_str());
        reason.append("; run --list to see them");
        return Err(DownerError::CandidateNotOffered(reason));
    }
    if let Some(raw) = media {
        let wanted = match output::validate_url(raw) {
            Ok(url) => url,
            Err(error) => {
                return Err(error);
            },
        };
        return pick(source, &wanted);
    }
    Ok(source.urls[0].copy())
}

// ---------------------------------------------------------------------------
// The listing in words
// ---------------------------------------------------------------------------

/// What is said of a rendition.
pub open spec fn rendition_parts(r: CandidateRenditionView) -> Seq<Seq<char>> {
    seq![
        match (r.height, r.width) {
            (Some(height), _) => text::decimal(height as nat) + "p"@,
            (None, Some(width)) => text::decimal(width as nat) + "px wide"@,
            (None, None) => "unknown size"@,
        },
    ] + (if r.bandwidth > 0 {
        seq![text::decimal((r.bandwidth / 1000) as nat) + " kbps"@]
    } else {
        Seq::empty()
    }) + (match r.codecs {
        Some(codecs) => seq![codecs],
        None => Seq::empty(),
    }) + (if r.default {
        seq!["(default)"@]
    } else {
        Seq::empty()
    }) + (if r.audio_url is Some {
        seq!["+ separate audio"@]
    } else {
        Seq::empty()
    })
}

fn rendition_line(r: &CandidateRendition) -> (s: String)
    ensures
        s@ == text::join(rendition_parts(r@), "  "@),
{
    let mut parts: Vec<String> = Vec::new();
    match (r.height, r.width) {
        (Some(height), _) => {
            text::push_text(&mut parts, text::join2(text::decimal_of(height as u64).as_str(), "p").as_str());
        },
        (None, Some(width)) => {
            text::push_text(&mut parts, text::join2(text::decimal_of(width as u64).as_str(), "px wide").as_str());
        },
        (None, None) => {
            text::push_text(&mut parts, "unknown size");
        },
    }
    if r.bandwidth > 0 {
        text::push_text(&mut parts, text::join2(text::decimal_of(r.bandwidth / 1000).as_str(), " kbps").as_str());
    }
    if let Some(codecs) = &r.codecs {
        text::push_text(&mut parts, codecs.as_str());
    }
    if r.default {
        text::push_text(&mut parts, "(default)");
    }
    if r.audio_url.is_some() {
        text::push_text(&mut parts, "+ separate audio");
    }
    assert(text::texts(parts@) =~= rendition_parts(r@));
    text::joined(&parts, "  ")
}

/// The lines of the renditions of a candidate.
pub open spec fn rendition_lines(v: Seq<CandidateRenditionView>) -> Seq<char>
    decreases v.len(),
{
    if v.len() == 0 {
        Seq::empty()
    } else {
        rendition_lines(v.drop_last()) + "       "@ + text::join(rendition_parts(v.last()), "  "@) + "\n"@
    }
}

/// The lines of a candidate.
pub open spec fn candidate_lines(c: CandidateView) -> Seq<char> {
    let index = text::decimal(c.index as nat);
    let kind = if c.experimental {
        c.kind + " (experimental)"@
    } else {
        c.kind
    };
    text::fill(index, 3) + index + "  "@ + kind + text::fill(kind, 5) + "  "@ + c.url + "\n"@ + (
    match c.renditions {
        Some(v) => rendition_lines(v),
        None => Seq::empty(),
    })
}

pub open spec fn all_candidate_lines(v: Seq<CandidateView>) -> Seq<char>
    decreases v.len(),
{
    if v.len() == 0 {
        Seq::empty()
    } else {
        all_candidate_lines(v.drop_last()) + candidate_lines(v.last())
    }
}

/// Whether a candidate has renditions to choose between.
pub open spec fn has_choice(c: CandidateView) -> bool {
    c.renditions matches Some(v) && v.len() > 1
}

/// A listing in words.
pub open spec fn listing_words(source: Seq<char>, v: Seq<CandidateView>) -> Seq<char> {
    "Source: "@ + source + "\n\n"@ + all_candidate_lines(v)
        + "\nDownload one with --select N, or name it with --media URL.\n"@ + (if exists|i: int|
        0 <= i < v.len() && has_choice(#[trigger] v[i]) {
        "Choose a rendition with --rendition (best, worst, a height such as 720p, or a variant URL).\n"@
    } else {
        Seq::empty()
    })
}

#[verifier::rlimit(40)]
fn push_candidate(out: &mut String, c: &Candidate)
    ensures
        final(out)@ == old(out)@ + candidate_lines(c@),
{
    let ghost start = out@;
    let index = text::decimal_of(c.index as u64);
    let kind = if c.experimental {
        text::join2(c.kind, " (experimental)")
    } else {
        text::owned(c.kind)
    };
    out.append(text::right_aligned(index.as_str(), 3).as_str());
    out.append("  ");
    out.append(text::left_aligned(kind.as_str(), 5).as_str());
    out.append("  ");
    out.append(c.url.as_str());
    out.append("\n");
    let ghost head = out@;
    if let Some(v) = &c.renditions {
        let ghost views = candidate_rendition_views(v@);
        let mut i: usize = 0;
        assert(views.take(0) =~= Seq::empty());
        assert(head + Seq::<char>::empty() =~= head);
        while i < v.len()
            invariant
                views == candidate_rendition_views(v@),
                i <= v@.len(),
                out@ == head + rendition_lines(views.take(i as int)),
            decreases v@.len() - i,
        {
            proof {
                assert(views.take(i + 1).drop_last() =~= views.take(i as int));
                assert(views.take(i + 1).last() == v@[i as int]@);
            }
            out.append("       ");
            out.append(rendition_line(&v[i]).as_str());
            out.append("\n");
            i = i + 1;
            assert(out@ =~= head + rendition_lines(views.take(i as int)));
        }
        assert(views.take(i as int) =~= views);
    }
    assert(out@ =~= start + candidate_lines(c@));
}

/// A listing in words.
pub fn listing_text(listing: &Listing) -> (r: String)
    ensures
        r@ == listing_words(listing.source@, candidate_views(listing.candidates@)),
{
    let mut out = text::join3("Source: ", listing.source.as_str(), "\n\n");
    let ghost head = out@;
    let ghost views = candidate_views(listing.candidates@);
    let mut i: usize = 0;
    let mut choice: bool = false;
    assert(views.take(0) =~= Seq::empty());
    assert(head + Seq::<char>::empty() =~= head);
    while i < listing.candidates.len()
        invariant
            views == candidate_views(listing.candidates@),
            i <= listing.candidates@.len(),
            out@ == head + all_candidate_lines(views.take(i as int)),
            choice == exists|k: int| 0 <= k < i && has_choice(#[trigger] views[k]),
        decreases listing.candidates@.len() - i,
    {
        let c = &listing.candidates[i];
        proof {
            assert(views.take(i + 1).drop_last() =~= views.take(i as int));
            assert(views.take(i + 1).last() == c@);
            assert(views[i as int] == c@);
        }
        push_candidate(&mut out, c);
        let several = match &c.renditions {
            Some(v) => v.len() > 1,
            None => false,
        };
        assert(several == has_choice(views[i as int]));
        if several {
            choice = true;
        }
        i = i + 1;
        assert(out@ =~= head + all_candidate_lines(views.take(i as int)));
    }
    assert(views.take(i as int) =~= views);
    out.append("\nDownload one with --select N, or name it with --media URL.\n");
    if choice {
        out.append(
            "Choose a rendition with --rendition (best, worst, a height such as 720p, or a variant URL).\n",
        );
    }
    assert(out@ =~= listing_words(listing.source@, views));
    out
}

// ---------------------------------------------------------------------------
// Laws
// ---------------------------------------------------------------------------

proof fn lemma_position_of(s: Seq<UrlView>, url: Seq<char>, i: int, k: int)
    requires
        0 <= i <= k < s.len(),
        s[k].text == url,
    ensures
        i <= position_of(s, url, i) <= k,
        s[position_of(s, url, i)].text == url,
    decreases k - i,
{
    if s[i].text != url {
        lemma_position_of(s, url, i + 1, k);
    }
}

/// What a listing shows can be selected: its number picks the candidate itself,
/// and its URL one at the same URL.
pub proof fn law_what_is_listed_can_be_selected(
    s: Seq<UrlView>,
    position: int,
    kind: MediaKind,
    playlist: Option<Playlist>,
)
    requires
        0 <= position < s.len(),
    ensures
        ({
            let shown = listed_candidate(position, s[position], kind, playlist);
            &&& numbered(s, shown.index) == Some(s[position])
            &&& named(s, shown.url) matches Some(found) && found.text == shown.url
        }),
{
    lemma_position_of(s, s[position].text, 0, position);
}

/// The rendition that is downloaded unless another is asked for is listed as
/// the default, and no rendition at another URL is.
pub proof fn law_the_default_is_listed_as_such(master: MasterView, position: int)
    requires
        0 <= position < master.renditions.len(),
    ensures
        master.chosen(None) matches Some(x) && listed_rendition(master, x).default && (
        listed_rendition(master, master.renditions[position]).default
            == (master.renditions[position].url.text == x.url.text)),
{
}

} // verus!
