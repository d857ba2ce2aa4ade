//! Finding out how long an HLS stream is.
//!
//! The playlist at a URL is fetched. If it is a master playlist, the rendition
//! that would be downloaded is fetched next, and once more with the playlist as
//! its referring page if that is refused. If all of that comes to nothing, the
//! playlist one directory up is tried in the same way. Fetching is left to the
//! program; which URL is fetched next, and what is reported in the end, is
//! decided here.

use vstd::prelude::*;
use crate::{scraper, text, web};
use crate::scraper::{ChoiceView, HlsInfo, MasterView, PlaylistProblem};
use crate::web::{Url, UrlView};

verus! {

/// The seconds that a fetch may take while the length of a stream is looked for.
pub const PROBE_TIMEOUT: u64 = 8;

/// The most seconds that a connection may take then.
pub const PROBE_CONNECT_TIMEOUT: u64 = 4;

/// What a playlist that was fetched leads to.
#[derive(Debug)]
pub enum Reading {
    Found(HlsInfo),
    /// The playlist of a rendition is to be read.
    Variant(Url),
    Failed(PlaylistProblem),
}

/// The problem of a playlist that states no durations.
pub open spec fn body_problem(text: Seq<char>, problem: PlaylistProblem) -> bool {
    match problem {
        PlaylistProblem::NoSegments => text::starts_with(text::trim_start(text), "#EXTM3U"@),
        PlaylistProblem::Challenged => !text::starts_with(text::trim_start(text), "#EXTM3U"@) && text::contains(
            text::lower(text),
            "cloudflare"@,
        ),
        PlaylistProblem::NotAPlaylist => !text::starts_with(text::trim_start(text), "#EXTM3U"@) && !text::contains(
            text::lower(text),
            "cloudflare"@,
        ),
        PlaylistProblem::Unreachable(_) => false,
    }
}

/// The rendition of a master playlist that is read: the preferred one if it is
/// offered, else the best.
pub open spec fn read_rendition(master: MasterView, preferred: Option<UrlView>) -> Option<
    UrlView,
> {
    let wanted = match preferred {
        Some(url) => master.chosen(Some(ChoiceView::Exact(url))),
        None => None,
    };
    match wanted {
        Some(x) => Some(x.url),
        None => match master.chosen(None) {
            Some(x) => Some(x.url),
            None => None,
        },
    }
}

/// Read a media playlist: `durations` are those that it states, in milliseconds.
pub fn read_media(text: &str, durations: &Vec<Option<u64>>) -> (r: Result<
    HlsInfo,
    PlaylistProblem,
>)
    requires
        scraper::read_total(durations@) <= u64::MAX,
    ensures
        match r {
            Ok(info) => scraper::hls_totals(durations@) == Some(info),
            Err(problem) => scraper::hls_totals(durations@) is None && body_problem(text@, problem),
        },
{
    match scraper::parse_hls_info(durations) {
        Some(info) => Ok(info),
        None => Err(scraper::classify_body(text)),
    }
}

/// Read the playlist that was found at a URL.
pub fn read_playlist(
    text: &str,
    base: &Url,
    durations: &Vec<Option<u64>>,
    preferred: Option<&Url>,
) -> (r: Reading)
    requires
        scraper::read_total(durations@) <= u64::MAX,
    ensures
        scraper::is_master(text@) ==> match r {
            Reading::Variant(url) => read_rendition(
                scraper::master_at(text@, base@.text),
                web::opt_url_ref(preferred),
            ) == Some(url@),
            Reading::Failed(problem) => problem == PlaylistProblem::NoSegments && read_rendition(
                scraper::master_at(text@, base@.text),
                web::opt_url_ref(preferred),
            ) is None,
            Reading::Found(_) => false,
        },
        !scraper::is_master(text@) ==> match r {
            Reading::Found(info) => scraper::hls_totals(durations@) == Some(info),
            Reading::Failed(problem) => scraper::hls_totals(durations@) is None && body_problem(
                text@,
                problem,
            ),
            Reading::Variant(_) => false,
        },
{
    if scraper::is_master_playlist(text) {
        let master = scraper::parse_master(text, base);
        if let Some(url) = preferred {
            if let Some(x) = master.rendition(url) {
                return Reading::Variant(x.url.copy());
            }
        }
        return match master.choose_rendition(None) {
            Some(choice) => Reading::Variant(choice.video),
            None => Reading::Failed(PlaylistProblem::NoSegments),
        };
    }
    match read_media(text, durations) {
        Ok(info) => Reading::Found(info),
        Err(problem) => Reading::Failed(problem),
    }
}

/// The playlist one directory up, unless that is the playlist itself.
pub open spec fn playlist_above(url: UrlView) -> Option<UrlView> {
    unless_same(web::url_join(url.text, "../playlist.m3u8"@), url)
}

/// A URL unless it is another one.
pub open spec fn unless_same(found: Option<UrlView>, url: UrlView) -> Option<UrlView> {
    match found {
        Some(u) => if u.text == url.text {
            None
        } else {
            Some(u)
        },
        None => None,
    }
}

pub fn another_url(found: Option<Url>, url: &Url) -> (r: Option<Url>)
    ensures
        web::opt_url(r) == unless_same(web::opt_url(found), url@),
{
    match found {
        Some(u) => if web::same_url(&u, url) {
            None
        } else {
            Some(u)
        },
        None => None,
    }
}

pub fn parent_playlist(url: &Url) -> (r: Option<Url>)
    ensures
        web::opt_url(r) == playlist_above(url@),
{
    another_url(web::join_url(url, "../playlist.m3u8"), url)
}

/// A search for the length of a stream.
#[derive(Debug)]
pub struct Probe {
    pub url: Url,
    pub referer: Option<Url>,
    /// What was wrong at the URL itself, once the playlist above it is tried.
    pub first: Option<PlaylistProblem>,
    /// The rendition that is being fetched, and the playlist that lists it.
    pub variant: Option<(Url, Url)>,
    /// Why the rendition was refused, once it is fetched again.
    pub refused: Option<PlaylistProblem>,
}

/// What came of a fetch.
#[derive(Debug)]
pub enum Fetched {
    /// A text, the URL it was found at in the end, and the durations it states.
    Text(String, Url, Vec<Option<u64>>),
    Failed(PlaylistProblem),
}

/// What a search does next.
#[derive(Debug)]
pub enum Next {
    /// Fetch a URL as if from a page.
    Fetch(Probe, Url, Option<Url>),
    Done(Result<HlsInfo, PlaylistProblem>),
}

impl Probe {
    /// Begin a search, by fetching the URL itself.
    pub fn start(url: &Url, referer: &Option<Url>) -> (r: Next)
        ensures
            r matches Next::Fetch(probe, target, page) && target@ == url@ && web::opt_url(page)
                == web::opt_url(*referer) && probe.url@ == url@ && web::opt_url(probe.referer) == web::opt_url(
                *referer,
            ) && probe.first is None && probe.variant is None && probe.refused is None,
    {
        let probe = Probe {
            url: url.copy(),
            referer: web::copy_url(referer),
            first: None,
            variant: None,
            refused: None,
        };
        Next::Fetch(probe, url.copy(), web::copy_url(referer))
    }

    /// Whether a step is what follows the outcome of one playlist. What was
    /// found ends the search. A problem leads to the playlist above, and there
    /// to the problem at the URL itself.
    pub open spec fn follows(&self, outcome: Result<HlsInfo, PlaylistProblem>, next: Next) -> bool {
        match outcome {
            Ok(info) => next matches Next::Done(Ok(i)) && i == info,
            Err(problem) => match self.first {
                Some(first) => next matches Next::Done(Err(p)) && p == first,
                None => match playlist_above(self.url@) {
                    None => next matches Next::Done(Err(p)) && p == problem,
                    Some(above) => next matches Next::Fetch(probe, target, page) && target@
                        == above && web::opt_url(page) == web::opt_url(self.referer) && probe.url
                        == self.url && probe.referer == self.referer && probe.first == Some(
                        problem,
                    ) && probe.variant is None && probe.refused is None,
                },
            },
        }
    }

    fn settle(self, outcome: Result<HlsInfo, PlaylistProblem>) -> (r: Next)
        ensures
            self.follows(outcome, r),
    {
        match outcome {
            Ok(info) => Next::Done(Ok(info)),
            Err(problem) => {
                if let Some(first) = self.first {
                    return Next::Done(Err(first));
                }
                match parent_playlist(&self.url) {
                    None => Next::Done(Err(problem)),
                    Some(above) => {
                        let page = web::copy_url(&self.referer);
                        Next::Fetch(
                            Probe {
                                url: self.url,
                                referer: self.referer,
                                first: Some(problem),
                                variant: None,
                                refused: None,
                            },
                            above,
                            page,
                        )
                    },
                }
            },
        }
    }

    /// The rendition that is preferred: at the playlist above, the URL itself.
    pub open spec fn preferred(&self) -> Option<UrlView> {
        if self.first is Some {
            Some(self.url@)
        } else {
            None
        }
    }

    /// Go on after a fetch.
    pub fn step(self, fetched: Fetched) -> (r: Next)
        requires
            fetched matches Fetched::Text(_, _, durations) ==> scraper::read_total(durations@) <= u64::MAX,
        ensures
            match (self.variant, fetched) {
                (None, Fetched::Failed(problem)) => self.follows(Err(problem), r),
                (None, Fetched::Text(text, base, durations)) => if scraper::is_master(text@) {
                    match read_rendition(scraper::master_at(text@, base@.text), self.preferred()) {
                        Some(url) => r matches Next::Fetch(probe, target, page) && target@ == url
                            && web::opt_url(page) == web::opt_url(self.referer) && probe.url == self.url
                            && probe.referer == self.referer && probe.first == self.first
                            && probe.refused is None && (probe.variant matches Some(v) && v.0@
                            == url && v.1 == base),
                        None => self.follows(Err(PlaylistProblem::NoSegments), r),
                    }
                } else {
                    match scraper::hls_totals(durations@) {
                        Some(info) => self.follows(Ok(info), r),
                        None => exists|problem: PlaylistProblem| #[trigger]
                            body_problem(text@, problem) && self.follows(Err(problem), r),
                    }
                },
                (Some(_), Fetched::Text(text, _, durations)) => match scraper::hls_totals(durations@) {
                    Some(info) => self.follows(Ok(info), r),
                    None => exists|problem: PlaylistProblem| #[trigger]
                        body_problem(text@, problem) && self.follows(Err(problem), r),
                },
                (Some(v), Fetched::Failed(problem)) => match self.refused {
                    Some(refused) => self.follows(Err(refused), r),
                    None => r matches Next::Fetch(probe, target, page) && target@ == v.0@
                        && web::opt_url(page) == Some(v.1@) && probe.url == self.url && probe.referer
                        == self.referer && probe.first == self.first && probe.refused == Some(
                        problem,
                    ) && probe.variant == self.variant,
                },
            },
    {
        let on_variant = self.variant.is_some();
        match fetched {
            Fetched::Text(text, base, durations) => {
                if on_variant {
                    let outcome = read_media(text.as_str(), &durations);
                    return self.settle(outcome);
                }
                let at_parent = self.first.is_some();
                let reading = if at_parent {
                    read_playlist(text.as_str(), &base, &durations, Some(&self.url))
                } else {
                    read_playlist(text.as_str(), &base, &durations, None)
                };
                match reading {
                    Reading::Found(info) => self.settle(Ok(info)),
                    Reading::Failed(problem) => self.settle(Err(problem)),
                    Reading::Variant(url) => {
                        let page = web::copy_url(&self.referer);
                        let target = url.copy();
                        Next::Fetch(
                            Probe {
                                url: self.url,
                                referer: self.referer,
                                first: self.first,
                                variant: Some((url, base)),
                                refused: None,
                            },
                            target,
                            page,
                        )
                    },
                }
            },
            Fetched::Failed(problem) => {
                if !on_variant {
                    return self.settle(Err(problem));
                }
                let Probe { url, referer, first, variant, refused } = self;
                if let Some(earlier) = refused {
                    let probe = Probe { url, referer, first, variant, refused: None };
                    return probe.settle(Err(earlier));
                }
                match variant {
                    Some((v, base)) => {
                        let target = v.copy();
                        let page = Some(base.copy());
                        Next::Fetch(
                            Probe {
                                url,
                                referer,
                                first,
                                variant: Some((v, base)),
                                refused: Some(problem),
                            },
                            target,
                            page,
                        )
                    },
                    None => {
                        let probe = Probe { url, referer, first, variant: None, refused: None };
                        probe.settle(Err(problem))
                    },
                }
            },
        }
    }
}

} // verus!
