//! What a page or a playlist offers.
//!
//! A master playlist lists renditions of one stream and the sound that belongs
//! to them. A page mentions media among many other things. Both are read here,
//! and one rendition or one URL is chosen.

use vstd::prelude::*;
use crate::{output, playlist_laws, text, web};
use crate::error::{DownerError, DownerResult};
use crate::web::{Url, UrlView};

verus! {

/// How long a media playlist is.
#[derive(Debug, Clone, Copy, PartialEq, Eq, Structural)]
pub struct HlsInfo {
    pub total_segments: u64,
    pub total_duration_ms: u64,
}

/// Why a playlist could not be read.
#[derive(Debug, PartialEq, Eq)]
pub enum PlaylistProblem {
    Challenged,
    Unreachable(String),
    NotAPlaylist,
    NoSegments,
}

pub const CHALLENGE_MESSAGE: &'static str =
    "Cloudflare challenge; provide a browser session cookie with --cookie or use a direct media URL";

impl PlaylistProblem {
    /// The problem in words.
    pub open spec fn text(self) -> Seq<char> {
        match self {
            PlaylistProblem::Challenged => CHALLENGE_MESSAGE@,
            PlaylistProblem::Unreachable(reason) => "the playlist could not be fetched: "@
                + reason@,
            PlaylistProblem::NotAPlaylist =>
            "the URL answered with something that is not a playlist"@,
            PlaylistProblem::NoSegments => "the playlist lists no segments"@,
        }
    }

    pub fn message(&self) -> (r: String)
        ensures
            r@ == self.text(),
    {
        match self {
            PlaylistProblem::Challenged => text::owned(CHALLENGE_MESSAGE),
            PlaylistProblem::Unreachable(reason) => text::join2(
                "the playlist could not be fetched: ",
                reason.as_str(),
            ),
            PlaylistProblem::NotAPlaylist => text::owned(
                "the URL answered with something that is not a playlist",
            ),
            PlaylistProblem::NoSegments => text::owned("the playlist lists no segments"),
        }
    }
}

// ---------------------------------------------------------------------------
// Attribute lists
// ---------------------------------------------------------------------------

/// The fields of an attribute list, from the one at `start`: a comma separates
/// them, unless it stands in quotes.
pub open spec fn fields_from(s: Seq<char>, start: int, i: int, in_quotes: bool) -> Seq<Seq<char>>
    decreases s.len() - i,
{
    if i >= s.len() {
        seq![s.subrange(start, s.len() as int)]
    } else if s[i] == '"' {
        fields_from(s, start, i + 1, !in_quotes)
    } else if s[i] == ',' && !in_quotes {
        seq![s.subrange(start, i)] + fields_from(s, i + 1, i + 1, false)
    } else {
        fields_from(s, start, i + 1, in_quotes)
    }
}

/// The name and the value in a field, if it holds a `=`: the name in upper
/// case, the value without quotes.
pub open spec fn field_pair(field: Seq<char>) -> Option<(Seq<char>, Seq<char>)> {
    match text::split_once(text::trim(field), "="@) {
        Some(parts) => Some(
            (
                text::upper(text::trim(parts.0)),
                text::trim_end_of(text::trim_start_of(text::trim(parts.1), "\""@), "\""@),
            ),
        ),
        None => None,
    }
}

/// The pairs of some fields, in order.
pub open spec fn field_pairs(fields: Seq<Seq<char>>) -> Seq<(Seq<char>, Seq<char>)>
    decreases fields.len(),
{
    if fields.len() == 0 {
        Seq::empty()
    } else {
        let before = field_pairs(fields.drop_last());
        match field_pair(fields.last()) {
            Some(pair) => before.push(pair),
            None => before,
        }
    }
}

/// The attributes in a list.
pub open spec fn attributes(list: Seq<char>) -> Seq<(Seq<char>, Seq<char>)> {
    field_pairs(fields_from(list, 0, 0, false))
}

/// The value of the first attribute of a name at or after `i`.
pub open spec fn attribute_from(
    pairs: Seq<(Seq<char>, Seq<char>)>,
    name: Seq<char>,
    i: int,
) -> Option<Seq<char>>
    decreases pairs.len() - i,
{
    if i < 0 || i >= pairs.len() {
        None
    } else if pairs[i].0 == name {
        Some(pairs[i].1)
    } else {
        attribute_from(pairs, name, i + 1)
    }
}

pub open spec fn attribute(pairs: Seq<(Seq<char>, Seq<char>)>, name: Seq<char>) -> Option<
    Seq<char>,
> {
    attribute_from(pairs, name, 0)
}

fn split_fields(list: &str) -> (r: Vec<String>)
    ensures
        text::texts(r@) == fields_from(list@, 0, 0, false),
{
    let v = text::chars_of(list);
    let mut r: Vec<String> = Vec::new();
    let mut start: usize = 0;
    let mut i: usize = 0;
    let mut in_quotes: bool = false;
    assert(text::texts(r@) + fields_from(list@, 0, 0, false) =~= fields_from(list@, 0, 0, false));
    while i < v.len()
        invariant
            v@ == list@,
            start <= i <= v@.len(),
            text::texts(r@) + fields_from(list@, start as int, i as int, in_quotes) == fields_from(
                list@,
                0,
                0,
                false,
            ),
        decreases v@.len() - i,
    {
        if v[i] == '"' {
            in_quotes = !in_quotes;
        } else if v[i] == ',' && !in_quotes {
            let field = text::string_of(&v, start, i);
            let ghost before = text::texts(r@);
            text::push_text(&mut r, field.as_str());
            assert(text::texts(r@) + fields_from(list@, i + 1, i + 1, false) =~= before + fields_from(
                list@,
                start as int,
                i as int,
                in_quotes,
            ));
            start = i + 1;
        }
        i = i + 1;
    }
    let field = text::string_of(&v, start, v.len());
    let ghost before = text::texts(r@);
    text::push_text(&mut r, field.as_str());
    assert(text::texts(r@) =~= before + fields_from(list@, start as int, i as int, in_quotes));
    r
}

fn read_field(field: &str) -> (r: Option<(String, String)>)
    ensures
        text::opt_pair(r) == field_pair(field@),
{
    let t = text::trimmed(field);
    match text::split_first(t.as_str(), "=") {
        Some(parts) => {
            let name = text::to_ascii_upper(text::trimmed(parts.0.as_str()).as_str());
            let value = text::trimmed(parts.1.as_str());
            let left = text::trimmed_start_of(value.as_str(), "\"");
            Some((name, text::trimmed_end_of(left.as_str(), "\"")))
        },
        None => None,
    }
}

/// Read an attribute list.
pub fn parse_attributes(list: &str) -> (r: Vec<(String, String)>)
    ensures
        text::pair_texts(r@) == attributes(list@),
{
    let fields = split_fields(list);
    let mut pairs: Vec<(String, String)> = Vec::new();
    let mut i: usize = 0;
    assert(text::texts(fields@).take(0) =~= Seq::empty());
    assert(text::pair_texts(pairs@) =~= Seq::empty());
    while i < fields.len()
        invariant
            i <= fields@.len(),
            text::pair_texts(pairs@) == field_pairs(text::texts(fields@).take(i as int)),
        decreases fields@.len() - i,
    {
        proof {
            let next = text::texts(fields@).take(i + 1);
            assert(next.drop_last() =~= text::texts(fields@).take(i as int));
            assert(next.last() == fields@[i as int]@);
        }
        if let Some(pair) = read_field(fields[i].as_str()) {
            let ghost before = pairs@;
            pairs.push(pair);
            assert(text::pair_texts(pairs@) =~= text::pair_texts(before).push((pair.0@, pair.1@)));
        }
        i = i + 1;
    }
    assert(text::texts(fields@).take(i as int) =~= text::texts(fields@));
    pairs
}

fn find_attribute(pairs: &Vec<(String, String)>, name: &str) -> (r: Option<String>)
    ensures
        text::opt_text(r) == attribute(text::pair_texts(pairs@), name@),
{
    let mut i: usize = 0;
    while i < pairs.len()
        invariant
            i <= pairs@.len(),
            attribute_from(text::pair_texts(pairs@), name@, i as int) == attribute(
                text::pair_texts(pairs@),
                name@,
            ),
        decreases pairs@.len() - i,
    {
        if text::same(pairs[i].0.as_str(), name) {
            return Some(text::owned(pairs[i].1.as_str()));
        }
        i = i + 1;
    }
    None
}

/// The index of the first `x` or `X` at or after `i`, or the length.
pub open spec fn times_sign(s: Seq<char>, i: int) -> int
    decreases s.len() - i,
{
    if i < 0 || i >= s.len() {
        s.len() as int
    } else if s[i] == 'x' || s[i] == 'X' {
        i
    } else {
        times_sign(s, i + 1)
    }
}

/// A resolution such as `1280x720`: the width and the height.
pub open spec fn resolution(s: Seq<char>) -> Option<(u32, u32)> {
    let at = times_sign(s, 0);
    if at >= s.len() {
        None
    } else {
        match (text::small_number(text::trim(s.take(at))), text::small_number(text::trim(s.skip(at + 1)))) {
            (Some(w), Some(h)) => Some((w, h)),
            _ => None,
        }
    }
}

fn parse_resolution(s: &str) -> (r: Option<(u32, u32)>)
    ensures
        r == resolution(s@),
{
    let v = text::chars_of(s);
    let mut i: usize = 0;
    while i < v.len() && v[i] != 'x' && v[i] != 'X'
        invariant
            v@ == s@,
            i <= v@.len(),
            times_sign(s@, i as int) == times_sign(s@, 0),
        decreases v@.len() - i,
    {
        i = i + 1;
    }
    if i >= v.len() {
        return None;
    }
    let w = text::string_of(&v, 0, i);
    let h = text::string_of(&v, i + 1, v.len());
    assert(w@ =~= s@.take(i as int));
    assert(h@ =~= s@.skip(i + 1));
    match (text::read_small(text::trimmed(w.as_str()).as_str()), text::read_small(text::trimmed(h.as_str()).as_str())) {
        (Some(w), Some(h)) => Some((w, h)),
        _ => None,
    }
}

// ---------------------------------------------------------------------------
// Master playlists
// ---------------------------------------------------------------------------

/// A variant as a master playlist lists it.
#[derive(Debug)]
pub struct VariantEntry {
    pub uri: String,
    pub bandwidth: u64,
    pub width: Option<u32>,
    pub height: Option<u32>,
    pub codecs: Option<String>,
    pub audio_group: Option<String>,
}

/// A separate sound as a master playlist lists it.
#[derive(Debug)]
pub struct AudioEntry {
    pub uri: String,
    pub group_id: String,
    pub name: Option<String>,
    pub language: Option<String>,
    pub default: bool,
}

#[verifier::ext_equal]
pub struct VariantEntryView {
    pub uri: Seq<char>,
    pub bandwidth: u64,
    pub width: Option<u32>,
    pub height: Option<u32>,
    pub codecs: Option<Seq<char>>,
    pub audio_group: Option<Seq<char>>,
}

#[verifier::ext_equal]
pub struct AudioEntryView {
    pub uri: Seq<char>,
    pub group_id: Seq<char>,
    pub name: Option<Seq<char>>,
    pub language: Option<Seq<char>>,
    pub default: bool,
}

impl View for VariantEntry {
    type V = VariantEntryView;

    open spec fn view(&self) -> VariantEntryView {
        VariantEntryView {
            uri: self.uri@,
            bandwidth: self.bandwidth,
            width: self.width,
            height: self.height,
            codecs: text::opt_text(self.codecs),
            audio_group: text::opt_text(self.audio_group),
        }
    }
}

impl View for AudioEntry {
    type V = AudioEntryView;

    open spec fn view(&self) -> AudioEntryView {
        AudioEntryView {
            uri: self.uri@,
            group_id: self.group_id@,
            name: text::opt_text(self.name),
            language: text::opt_text(self.language),
            default: self.default,
        }
    }
}

pub open spec fn variant_views(v: Seq<VariantEntry>) -> Seq<VariantEntryView> {
    Seq::new(v.len(), |i: int| v[i]@)
}

pub open spec fn audio_entry_views(v: Seq<AudioEntry>) -> Seq<AudioEntryView> {
    Seq::new(v.len(), |i: int| v[i]@)
}

/// A variant from its attributes and the line that names it.
pub open spec fn variant_entry(
    pairs: Seq<(Seq<char>, Seq<char>)>,
    uri: Seq<char>,
) -> VariantEntryView {
    let size = match attribute(pairs, "RESOLUTION"@) {
        Some(value) => resolution(value),
        None => None,
    };
    VariantEntryView {
        uri,
        bandwidth: match attribute(pairs, "BANDWIDTH"@) {
            Some(value) => match text::parse_unsigned(value, u64::MAX as nat) {
                Some(n) => n as u64,
                None => 0,
            },
            None => 0,
        },
        width: match size {
            Some(s) => Some(s.0),
            None => None,
        },
        height: match size {
            Some(s) => Some(s.1),
            None => None,
        },
        codecs: attribute(pairs, "CODECS"@),
        audio_group: attribute(pairs, "AUDIO"@),
    }
}

/// A separate sound from its attributes; `None` unless they say that it is
/// sound, where it is and to which group it belongs.
pub open spec fn audio_entry(pairs: Seq<(Seq<char>, Seq<char>)>) -> Option<AudioEntryView> {
    match (attribute(pairs, "TYPE"@), attribute(pairs, "URI"@), attribute(pairs, "GROUP-ID"@)) {
        (Some(kind), Some(uri), Some(group_id)) => if text::eq_fold(kind, "AUDIO"@) {
            Some(
                AudioEntryView {
                    uri,
                    group_id,
                    name: attribute(pairs, "NAME"@),
                    language: attribute(pairs, "LANGUAGE"@),
                    default: match attribute(pairs, "DEFAULT"@) {
                        Some(value) => text::eq_fold(value, "YES"@),
                        None => false,
                    },
                },
            )
        } else {
            None
        },
        _ => None,
    }
}

/// What was read of a master playlist so far, and the attributes that wait for
/// the line that names their variant.
#[verifier::ext_equal]
pub struct MasterState {
    pub variants: Seq<VariantEntryView>,
    pub audio: Seq<AudioEntryView>,
    pub pending: Option<Seq<(Seq<char>, Seq<char>)>>,
}

/// One more line of a master playlist.
pub open spec fn master_step(state: MasterState, raw: Seq<char>) -> MasterState {
    let line = text::trim(raw);
    match text::strip_prefix(line, "#EXT-X-MEDIA:"@) {
        Some(list) => match audio_entry(attributes(list)) {
            Some(entry) => MasterState { audio: state.audio.push(entry), ..state },
            None => state,
        },
        None => match text::strip_prefix(line, "#EXT-X-STREAM-INF:"@) {
            Some(list) => MasterState { pending: Some(attributes(list)), ..state },
            None => if line.len() == 0 || line[0] == '#' {
                state
            } else {
                match state.pending {
                    Some(pairs) => MasterState {
                        variants: state.variants.push(variant_entry(pairs, line)),
                        pending: None,
                        ..state
                    },
                    None => state,
                }
            },
        },
    }
}

/// What some lines of a master playlist list.
pub open spec fn master_state(ls: Seq<Seq<char>>) -> MasterState
    decreases ls.len(),
{
    if ls.len() == 0 {
        MasterState { variants: Seq::empty(), audio: Seq::empty(), pending: None }
    } else {
        master_step(master_state(ls.drop_last()), ls.last())
    }
}

/// What a master playlist lists.
#[derive(Debug)]
pub struct MasterEntries {
    pub variants: Vec<VariantEntry>,
    pub audio: Vec<AudioEntry>,
}

fn read_variant(pairs: &Vec<(String, String)>, uri: &str) -> (r: VariantEntry)
    ensures
        r@ == variant_entry(text::pair_texts(pairs@), uri@),
{
    let size = match find_attribute(pairs, "RESOLUTION") {
        Some(value) => parse_resolution(value.as_str()),
        None => None,
    };
    let bandwidth: u64 = match find_attribute(pairs, "BANDWIDTH") {
        Some(value) => match text::parse_number(value.as_str(), u64::MAX) {
            Some(n) => n,
            None => 0,
        },
        None => 0,
    };
    VariantEntry {
        uri: text::owned(uri),
        bandwidth,
        width: match size {
            Some(s) => Some(s.0),
            None => None,
        },
        height: match size {
            Some(s) => Some(s.1),
            None => None,
        },
        codecs: find_attribute(pairs, "CODECS"),
        audio_group: find_attribute(pairs, "AUDIO"),
    }
}

fn read_audio(pairs: &Vec<(String, String)>) -> (r: Option<AudioEntry>)
    ensures
        match r {
            Some(entry) => audio_entry(text::pair_texts(pairs@)) == Some(entry@),
            None => audio_entry(text::pair_texts(pairs@)) is None,
        },
{
    match (
        find_attribute(pairs, "TYPE"),
        find_attribute(pairs, "URI"),
        find_attribute(pairs, "GROUP-ID"),
    ) {
        (Some(kind), Some(uri), Some(group_id)) => {
            if !text::equal_fold(kind.as_str(), "AUDIO") {
                return None;
            }
            let default = match find_attribute(pairs, "DEFAULT") {
                Some(value) => text::equal_fold(value.as_str(), "YES"),
                None => false,
            };
            Some(
                AudioEntry {
                    uri,
                    group_id,
                    name: find_attribute(pairs, "NAME"),
                    language: find_attribute(pairs, "LANGUAGE"),
                    default,
                },
            )
        },
        _ => None,
    }
}

/// Read what a master playlist lists.
pub fn master_entries(text: &str) -> (r: MasterEntries)
    ensures
        variant_views(r.variants@) == master_state(text::lines(text@)).variants,
        audio_entry_views(r.audio@) == master_state(text::lines(text@)).audio,
{
    let ls = text::lines_of(text);
    let mut variants: Vec<VariantEntry> = Vec::new();
    let mut audio: Vec<AudioEntry> = Vec::new();
    let mut pending: Option<Vec<(String, String)>> = None;
    let mut i: usize = 0;
    assert(text::texts(ls@).take(0) =~= Seq::empty());
    assert(variant_views(variants@) =~= Seq::empty());
    assert(audio_entry_views(audio@) =~= Seq::empty());
    while i < ls.len()
        invariant
            i <= ls@.len(),
            variant_views(variants@) == master_state(text::texts(ls@).take(i as int)).variants,
            audio_entry_views(audio@) == master_state(text::texts(ls@).take(i as int)).audio,
            match pending {
                Some(pairs) => master_state(text::texts(ls@).take(i as int)).pending == Some(
                    text::pair_texts(pairs@),
                ),
                None => master_state(text::texts(ls@).take(i as int)).pending is None,
            },
        decreases ls@.len() - i,
    {
        let line = text::trimmed(ls[i].as_str());
        let ghost state = master_state(text::texts(ls@).take(i as int));
        proof {
            let next = text::texts(ls@).take(i + 1);
            assert(next.drop_last() =~= text::texts(ls@).take(i as int));
            assert(next.last() == ls@[i as int]@);
            assert(master_state(next) == master_step(state, ls@[i as int]@));
        }
        if let Some(list) = text::without_prefix(line.as_str(), "#EXT-X-MEDIA:") {
            let pairs = parse_attributes(list.as_str());
            if let Some(entry) = read_audio(&pairs) {
                let ghost before = audio@;
                audio.push(entry);
                assert(audio_entry_views(audio@) =~= audio_entry_views(before).push(entry@));
            }
        } else if let Some(list) = text::without_prefix(line.as_str(), "#EXT-X-STREAM-INF:") {
            pending = Some(parse_attributes(list.as_str()));
        } else {
            let v = text::chars_of(line.as_str());
            if v.len() > 0 && v[0] != '#' {
                if let Some(pairs) = pending {
                    let entry = read_variant(&pairs, line.as_str());
                    let ghost before = variants@;
                    variants.push(entry);
                    assert(variant_views(variants@) =~= variant_views(before).push(entry@));
                }
                pending = None;
            }
        }
        i = i + 1;
    }
    assert(text::texts(ls@).take(i as int) =~= text::texts(ls@));
    MasterEntries { variants, audio }
}

/// A rendition of a stream.
#[derive(Debug)]
pub struct Rendition {
    pub url: Url,
    pub bandwidth: u64,
    pub width: Option<u32>,
    pub height: Option<u32>,
    pub codecs: Option<String>,
    /// The group of separate sounds that belongs to it.
    pub audio_group: Option<String>,
}

/// A sound that is listed on its own.
#[derive(Debug)]
pub struct AudioRendition {
    pub url: Url,
    pub group_id: String,
    pub name: Option<String>,
    pub language: Option<String>,
    pub default: bool,
}

#[verifier::ext_equal]
pub struct RenditionView {
    pub url: UrlView,
    pub bandwidth: u64,
    pub width: Option<u32>,
    pub height: Option<u32>,
    pub codecs: Option<Seq<char>>,
    pub audio_group: Option<Seq<char>>,
}

#[verifier::ext_equal]
pub struct AudioView {
    pub url: UrlView,
    pub group_id: Seq<char>,
    pub name: Option<Seq<char>>,
    pub language: Option<Seq<char>>,
    pub default: bool,
}

impl View for Rendition {
    type V = RenditionView;

    open spec fn view(&self) -> RenditionView {
        RenditionView {
            url: self.url@,
            bandwidth: self.bandwidth,
            width: self.width,
            height: self.height,
            codecs: text::opt_text(self.codecs),
            audio_group: text::opt_text(self.audio_group),
        }
    }
}

impl View for AudioRendition {
    type V = AudioView;

    open spec fn view(&self) -> AudioView {
        AudioView {
            url: self.url@,
            group_id: self.group_id@,
            name: text::opt_text(self.name),
            language: text::opt_text(self.language),
            default: self.default,
        }
    }
}

pub open spec fn rendition_views(v: Seq<Rendition>) -> Seq<RenditionView> {
    Seq::new(v.len(), |i: int| v[i]@)
}

pub open spec fn audio_views(v: Seq<AudioRendition>) -> Seq<AudioView> {
    Seq::new(v.len(), |i: int| v[i]@)
}

impl RenditionView {
    /// The size of the picture; -1, which is less than any, if it is not known.
    pub open spec fn pixels(self) -> int {
        match (self.width, self.height) {
            (Some(w), Some(h)) => w * h,
            _ => -1,
        }
    }

    /// Whether this rendition ranks strictly before another: by bandwidth, then
    /// by the size of the picture.
    pub open spec fn better_than(self, other: RenditionView) -> bool {
        self.bandwidth > other.bandwidth || (self.bandwidth == other.bandwidth && self.pixels()
            > other.pixels())
    }
}

impl Rendition {
    fn pixels(&self) -> (r: Option<u64>)
        ensures
            match r {
                Some(n) => n == self@.pixels(),
                None => self@.pixels() == -1,
            },
            r is Some ==> self@.pixels() >= 0,
    {
        match (self.width, self.height) {
            (Some(w), Some(h)) => {
                assert(0 <= w * h <= 4294967295 * 4294967295) by (nonlinear_arith)
                    requires
                        0 <= w <= 4294967295,
                        0 <= h <= 4294967295,
                ;
                Some((w as u64) * (h as u64))
            },
            _ => None,
        }
    }

    fn is_better_than(&self, other: &Rendition) -> (r: bool)
        ensures
            r == self@.better_than(other@),
    {
        if self.bandwidth != other.bandwidth {
            return self.bandwidth > other.bandwidth;
        }
        match (self.pixels(), other.pixels()) {
            (Some(a), Some(b)) => a > b,
            (Some(_), None) => true,
            (None, _) => false,
        }
    }
}

/// Where a rendition goes in a ranked list: before the first that it is better
/// than, at or after `i`.
pub open spec fn rank_position(s: Seq<RenditionView>, x: RenditionView, i: int) -> int
    decreases s.len() - i,
{
    if i < 0 || i >= s.len() {
        s.len() as int
    } else if x.better_than(s[i]) {
        i
    } else {
        rank_position(s, x, i + 1)
    }
}

/// Renditions, best first; those that rank the same stay in their order.
pub open spec fn ranked(s: Seq<RenditionView>) -> Seq<RenditionView>
    decreases s.len(),
{
    if s.len() == 0 {
        Seq::empty()
    } else {
        let before = ranked(s.drop_last());
        before.insert(rank_position(before, s.last(), 0), s.last())
    }
}

/// A variant at the URL it was found at.
pub open spec fn rendition_at(entry: VariantEntryView, url: UrlView) -> RenditionView {
    RenditionView {
        url,
        bandwidth: entry.bandwidth,
        width: entry.width,
        height: entry.height,
        codecs: entry.codecs,
        audio_group: entry.audio_group,
    }
}

pub open spec fn audio_at(entry: AudioEntryView, url: UrlView) -> AudioView {
    AudioView {
        url,
        group_id: entry.group_id,
        name: entry.name,
        language: entry.language,
        default: entry.default,
    }
}

/// The variants that have a URL, in the order in which they are listed.
pub open spec fn found_renditions(
    entries: Seq<VariantEntryView>,
    urls: Seq<Option<UrlView>>,
) -> Seq<RenditionView>
    decreases entries.len(),
{
    if entries.len() == 0 {
        Seq::empty()
    } else {
        let before = found_renditions(entries.drop_last(), urls);
        match urls[entries.len() - 1] {
            Some(url) => before.push(rendition_at(entries.last(), url)),
            None => before,
        }
    }
}

/// The sounds that have a URL, in the order in which they are listed.
pub open spec fn found_audio(
    entries: Seq<AudioEntryView>,
    urls: Seq<Option<UrlView>>,
) -> Seq<AudioView>
    decreases entries.len(),
{
    if entries.len() == 0 {
        Seq::empty()
    } else {
        let before = found_audio(entries.drop_last(), urls);
        match urls[entries.len() - 1] {
            Some(url) => before.push(audio_at(entries.last(), url)),
            None => before,
        }
    }
}

/// What a master playlist offers: its renditions, best first, and its sounds.
#[derive(Debug)]
pub struct MasterPlaylist {
    pub renditions: Vec<Rendition>,
    pub audio: Vec<AudioRendition>,
}

#[verifier::ext_equal]
pub struct MasterView {
    pub renditions: Seq<RenditionView>,
    pub audio: Seq<AudioView>,
}

impl View for MasterPlaylist {
    type V = MasterView;

    open spec fn view(&self) -> MasterView {
        MasterView {
            renditions: rendition_views(self.renditions@),
            audio: audio_views(self.audio@),
        }
    }
}

fn insert_ranked(list: &mut Vec<Rendition>, x: Rendition)
    ensures
        rendition_views(final(list)@) == rendition_views(old(list)@).insert(
            rank_position(rendition_views(old(list)@), x@, 0),
            x@,
        ),
{
    let mut at: usize = 0;
    let ghost views = rendition_views(list@);
    while at < list.len() && !x.is_better_than(&list[at])
        invariant
            views == rendition_views(list@),
            at <= list@.len(),
            rank_position(views, x@, at as int) == rank_position(views, x@, 0),
        decreases list@.len() - at,
    {
        at = at + 1;
    }
    let ghost before = list@;
    let ghost view = x@;
    list.insert(at, x);
    assert(rendition_views(list@) =~= views.insert(at as int, view));
}

/// Put a master playlist together from what it lists and the URLs at which that
/// was found; an entry without a URL is left out.
pub fn assemble_master(
    entries: MasterEntries,
    variant_urls: &Vec<Option<Url>>,
    audio_urls: &Vec<Option<Url>>,
) -> (r: MasterPlaylist)
    requires
        variant_urls@.len() == entries.variants@.len(),
        audio_urls@.len() == entries.audio@.len(),
    ensures
        r@.renditions == ranked(
            found_renditions(variant_views(entries.variants@), web::opt_url_views(variant_urls@)),
        ),
        r@.audio == found_audio(audio_entry_views(entries.audio@), web::opt_url_views(audio_urls@)),
{
    let mut renditions: Vec<Rendition> = Vec::new();
    let mut audio: Vec<AudioRendition> = Vec::new();
    let variants = entries.variants;
    let sounds = entries.audio;
    let ghost entry_views = variant_views(variants@);
    let ghost urls = web::opt_url_views(variant_urls@);
    let mut i: usize = 0;
    assert(entry_views.take(0) =~= Seq::empty());
    assert(rendition_views(renditions@) =~= Seq::empty());
    while i < variants.len()
        invariant
            variant_urls@.len() == variants@.len(),
            entry_views == variant_views(variants@),
            urls == web::opt_url_views(variant_urls@),
            i <= variants@.len(),
            rendition_views(renditions@) == ranked(
                found_renditions(entry_views.take(i as int), urls),
            ),
        decreases variants@.len() - i,
    {
        let ghost next = entry_views.take(i + 1);
        let ghost found = found_renditions(entry_views.take(i as int), urls);
        proof {
            assert(next.drop_last() =~= entry_views.take(i as int));
            assert(next.last() == variants@[i as int]@);
            assert(urls[i as int] == web::opt_url(variant_urls@[i as int]));
        }
        if let Some(url) = &variant_urls[i] {
            let entry = &variants[i];
            let rendition = Rendition {
                url: url.copy(),
                bandwidth: entry.bandwidth,
                width: entry.width,
                height: entry.height,
                codecs: text::copy_opt(&entry.codecs),
                audio_group: text::copy_opt(&entry.audio_group),
            };
            proof {
                assert(rendition@ == rendition_at(entry@, url@));
                assert(found.push(rendition@).drop_last() =~= found);
                assert(ranked(found.push(rendition@)) == ranked(found).insert(
                    rank_position(ranked(found), rendition@, 0),
                    rendition@,
                ));
            }
            insert_ranked(&mut renditions, rendition);
        }
        i = i + 1;
    }
    assert(entry_views.take(i as int) =~= entry_views);
    let ghost sound_views = audio_entry_views(sounds@);
    let ghost sound_urls = web::opt_url_views(audio_urls@);
    let mut k: usize = 0;
    assert(sound_views.take(0) =~= Seq::empty());
    assert(audio_views(audio@) =~= Seq::empty());
    while k < sounds.len()
        invariant
            audio_urls@.len() == sounds@.len(),
            sound_views == audio_entry_views(sounds@),
            sound_urls == web::opt_url_views(audio_urls@),
            k <= sounds@.len(),
            audio_views(audio@) == found_audio(sound_views.take(k as int), sound_urls),
        decreases sounds@.len() - k,
    {
        proof {
            let next = sound_views.take(k + 1);
            assert(next.drop_last() =~= sound_views.take(k as int));
            assert(next.last() == sounds@[k as int]@);
            assert(sound_urls[k as int] == web::opt_url(audio_urls@[k as int]));
        }
        if let Some(url) = &audio_urls[k] {
            let entry = &sounds[k];
            let sound = AudioRendition {
                url: url.copy(),
                group_id: text::owned(entry.group_id.as_str()),
                name: text::copy_opt(&entry.name),
                language: text::copy_opt(&entry.language),
                default: entry.default,
            };
            let ghost before = audio@;
            audio.push(sound);
            assert(audio_views(audio@) =~= audio_views(before).push(sound@));
        }
        k = k + 1;
    }
    assert(sound_views.take(k as int) =~= sound_views);
    MasterPlaylist { renditions, audio }
}

/// The URLs of the variants that a master playlist lists.
pub open spec fn joined_variants(base: Seq<char>, entries: Seq<VariantEntryView>) -> Seq<
    Option<UrlView>,
> {
    Seq::new(entries.len(), |i: int| web::url_join(base, entries[i].uri))
}

/// The URLs of the sounds that a master playlist lists.
pub open spec fn joined_audio(base: Seq<char>, entries: Seq<AudioEntryView>) -> Seq<
    Option<UrlView>,
> {
    Seq::new(entries.len(), |i: int| web::url_join(base, entries[i].uri))
}

/// What a master playlist at a URL offers.
pub open spec fn master_at(text: Seq<char>, base: Seq<char>) -> MasterView {
    let state = master_state(text::lines(text));
    MasterView {
        renditions: ranked(
            found_renditions(state.variants, joined_variants(base, state.variants)),
        ),
        audio: found_audio(state.audio, joined_audio(base, state.audio)),
    }
}

/// Read a master playlist.
pub fn parse_master(text: &str, base: &Url) -> (r: MasterPlaylist)
    ensures
        r@ == master_at(text@, base@.text),
{
    let entries = master_entries(text);
    let mut variant_urls: Vec<Option<Url>> = Vec::new();
    let mut i: usize = 0;
    while i < entries.variants.len()
        invariant
            i <= entries.variants@.len(),
            variant_urls@.len() == i,
            forall|j: int|
                0 <= j < i ==> #[trigger] web::opt_url_views(variant_urls@)[j] == web::url_join(
                    base@.text,
                    entries.variants@[j].uri@,
                ),
        decreases entries.variants@.len() - i,
    {
        let url = web::join_url(base, entries.variants[i].uri.as_str());
        let ghost before = variant_urls@;
        variant_urls.push(url);
        assert forall|j: int| 0 <= j < i + 1 implies #[trigger] web::opt_url_views(variant_urls@)[j]
            == web::url_join(base@.text, entries.variants@[j].uri@) by {
            if j < i {
                assert(web::opt_url_views(variant_urls@)[j] == web::opt_url_views(before)[j]);
            }
        }
        i = i + 1;
    }
    let mut audio_urls: Vec<Option<Url>> = Vec::new();
    let mut k: usize = 0;
    while k < entries.audio.len()
        invariant
            k <= entries.audio@.len(),
            audio_urls@.len() == k,
            forall|j: int|
                0 <= j < k ==> #[trigger] web::opt_url_views(audio_urls@)[j] == web::url_join(
                    base@.text,
                    entries.audio@[j].uri@,
                ),
        decreases entries.audio@.len() - k,
    {
        let url = web::join_url(base, entries.audio[k].uri.as_str());
        let ghost before = audio_urls@;
        audio_urls.push(url);
        assert forall|j: int| 0 <= j < k + 1 implies #[trigger] web::opt_url_views(audio_urls@)[j]
            == web::url_join(base@.text, entries.audio@[j].uri@) by {
            if j < k {
                assert(web::opt_url_views(audio_urls@)[j] == web::opt_url_views(before)[j]);
            }
        }
        k = k + 1;
    }
    proof {
        assert(web::opt_url_views(variant_urls@) =~= joined_variants(
            base@.text,
            variant_views(entries.variants@),
        ));
        assert(web::opt_url_views(audio_urls@) =~= joined_audio(
            base@.text,
            audio_entry_views(entries.audio@),
        ));
    }
    assemble_master(entries, &variant_urls, &audio_urls)
}

// ---------------------------------------------------------------------------
// Choosing a rendition
// ---------------------------------------------------------------------------

/// A rendition that was asked for.
#[derive(Debug, PartialEq, Eq)]
pub enum RenditionChoice {
    Best,
    Worst,
    Height(u32),
    Exact(Url),
}

#[verifier::ext_equal]
pub enum ChoiceView {
    Best,
    Worst,
    Height(u32),
    Exact(UrlView),
}

impl View for RenditionChoice {
    type V = ChoiceView;

    open spec fn view(&self) -> ChoiceView {
        match self {
            RenditionChoice::Best => ChoiceView::Best,
            RenditionChoice::Worst => ChoiceView::Worst,
            RenditionChoice::Height(h) => ChoiceView::Height(*h),
            RenditionChoice::Exact(url) => ChoiceView::Exact(url@),
        }
    }
}

pub open spec fn opt_choice(o: Option<&RenditionChoice>) -> Option<ChoiceView> {
    match o {
        Some(c) => Some(c@),
        None => None,
    }
}

/// The index of the last `x` or `X` before `n`, or -1.
pub open spec fn last_times_sign(s: Seq<char>, n: int) -> int
    decreases n,
{
    if n <= 0 {
        -1
    } else if s[n - 1] == 'x' || s[n - 1] == 'X' {
        n - 1
    } else {
        last_times_sign(s, n - 1)
    }
}

/// The height in a selector such as `720p`, `720` or `1280x720`.
pub open spec fn selector_height(s: Seq<char>) -> Option<u32> {
    let bare = text::trim_end_of(s, "pP"@);
    text::small_number(bare.skip(last_times_sign(bare, bare.len() as int) + 1))
}

/// The rendition that a word or a number asks for.
pub open spec fn worded_choice(s: Seq<char>) -> Option<ChoiceView> {
    if text::eq_fold(s, "best"@) {
        Some(ChoiceView::Best)
    } else if text::eq_fold(s, "worst"@) {
        Some(ChoiceView::Worst)
    } else {
        match selector_height(s) {
            Some(h) => Some(ChoiceView::Height(h)),
            None => None,
        }
    }
}

/// The rendition that a selector asks for: a word, a height, or the URL that
/// was read in it; else the reason why it asks for none.
pub open spec fn selected(s: Seq<char>, parsed: Result<UrlView, Seq<char>>) -> Result<
    ChoiceView,
    Seq<char>,
> {
    match worded_choice(s) {
        Some(choice) => Ok(choice),
        None => match parsed {
            Ok(url) => if url.scheme == "http"@ || url.scheme == "https"@ {
                Ok(ChoiceView::Exact(url))
            } else {
                Err(selector_refusal(s))
            },
            Err(_) => Err(selector_refusal(s)),
        },
    }
}

pub open spec fn selector_refusal(s: Seq<char>) -> Seq<char> {
    "expected best, worst, a height such as 720p, or an http(s) variant URL, got "@ + text::debug_quoted(
        s,
    )
}

fn read_height(s: &str) -> (r: Option<u32>)
    ensures
        r == selector_height(s@),
{
    let bare = text::trimmed_end_of(s, "pP");
    let v = text::chars_of(bare.as_str());
    let mut n: usize = v.len();
    while n > 0 && v[n - 1] != 'x' && v[n - 1] != 'X'
        invariant
            v@ == bare@,
            n <= v@.len(),
            last_times_sign(bare@, n as int) == last_times_sign(bare@, bare@.len() as int),
        decreases n,
    {
        n = n - 1;
    }
    let digits = text::string_of(&v, n, v.len());
    assert(digits@ =~= bare@.skip(last_times_sign(bare@, bare@.len() as int) + 1));
    text::read_small(digits.as_str())
}

/// Read a trimmed selector, given what was read in it as a URL.
pub fn choice_from(s: &str, parsed: Result<Url, String>) -> (r: Result<RenditionChoice, String>)
    ensures
        match r {
            Ok(choice) => selected(s@, web::url_result(parsed)) == Ok::<ChoiceView, Seq<char>>(choice@),
            Err(reason) => selected(s@, web::url_result(parsed)) == Err::<ChoiceView, Seq<char>>(
                reason@,
            ),
        },
{
    if text::equal_fold(s, "best") {
        return Ok(RenditionChoice::Best);
    }
    if text::equal_fold(s, "worst") {
        return Ok(RenditionChoice::Worst);
    }
    if let Some(h) = read_height(s) {
        return Ok(RenditionChoice::Height(h));
    }
    if let Ok(url) = parsed {
        if text::same(url.scheme.as_str(), "http") || text::same(url.scheme.as_str(), "https") {
            return Ok(RenditionChoice::Exact(url));
        }
    }
    let shown = text::debug_text(s);
    Err(
        text::join2(
            "expected best, worst, a height such as 720p, or an http(s) variant URL, got ",
            shown.as_str(),
        ),
    )
}

impl RenditionChoice {
    /// Read a selector as a person would type it.
    pub fn read(value: &str) -> (r: Result<RenditionChoice, String>)
        ensures
            match r {
                Ok(choice) => selected(text::trim(value@), web::url_parse(text::trim(value@))) == Ok::<
                    ChoiceView,
                    Seq<char>,
                >(choice@),
                Err(reason) => selected(text::trim(value@), web::url_parse(text::trim(value@))) == Err::<
                    ChoiceView,
                    Seq<char>,
                >(reason@),
            },
    {
        let t = text::trimmed(value);
        choice_from(t.as_str(), web::parse(t.as_str()))
    }
}

impl Clone for RenditionChoice {
    fn clone(&self) -> (r: RenditionChoice)
        ensures
            r@ == self@,
    {
        match self {
            RenditionChoice::Best => RenditionChoice::Best,
            RenditionChoice::Worst => RenditionChoice::Worst,
            RenditionChoice::Height(height) => RenditionChoice::Height(*height),
            RenditionChoice::Exact(url) => RenditionChoice::Exact(url.copy()),
        }
    }
}

impl std::str::FromStr for RenditionChoice {
    type Err = String;

    fn from_str(value: &str) -> (r: Result<RenditionChoice, String>)
        ensures
            match r {
                Ok(choice) => selected(text::trim(value@), web::url_parse(text::trim(value@))) == Ok::<
                    ChoiceView,
                    Seq<char>,
                >(choice@),
                Err(reason) => selected(text::trim(value@), web::url_parse(text::trim(value@))) == Err::<
                    ChoiceView,
                    Seq<char>,
                >(reason@),
            },
    {
        RenditionChoice::read(value)
    }
}

/// A rendition and the sound that belongs to it.
#[derive(Debug, PartialEq, Eq)]
pub struct VariantChoice {
    pub video: Url,
    pub audio: Option<Url>,
}

/// The first rendition at or after `i` with a URL, or the number of them.
pub open spec fn with_url(s: Seq<RenditionView>, url: Seq<char>, i: int) -> int
    decreases s.len() - i,
{
    if i < 0 || i >= s.len() {
        s.len() as int
    } else if s[i].url.text == url {
        i
    } else {
        with_url(s, url, i + 1)
    }
}

/// The first rendition at or after `i` with a height, or the number of them.
pub open spec fn with_height(s: Seq<RenditionView>, height: u32, i: int) -> int
    decreases s.len() - i,
{
    if i < 0 || i >= s.len() {
        s.len() as int
    } else if s[i].height == Some(height) {
        i
    } else {
        with_height(s, height, i + 1)
    }
}

/// The first sound of a group at or after `i`, or the number of sounds; if
/// `marked`, the first that is marked as the default one.
pub open spec fn in_group(s: Seq<AudioView>, group: Seq<char>, marked: bool, i: int) -> int
    decreases s.len() - i,
{
    if i < 0 || i >= s.len() {
        s.len() as int
    } else if s[i].group_id == group && (marked ==> s[i].default) {
        i
    } else {
        in_group(s, group, marked, i + 1)
    }
}

impl MasterView {
    /// The sound that belongs to a rendition: the default one of its group, else
    /// the first of its group.
    pub open spec fn sound_of(self, rendition: RenditionView) -> Option<AudioView> {
        match rendition.audio_group {
            Some(group) => {
                let marked = in_group(self.audio, group, true, 0);
                let first = in_group(self.audio, group, false, 0);
                if marked < self.audio.len() {
                    Some(self.audio[marked])
                } else if first < self.audio.len() {
                    Some(self.audio[first])
                } else {
                    None
                }
            },
            None => None,
        }
    }

    /// The rendition that is asked for; the best one if none is. A rendition
    /// that is not offered is never replaced by another.
    pub open spec fn chosen(self, requested: Option<ChoiceView>) -> Option<RenditionView> {
        let s = self.renditions;
        match requested {
            None | Some(ChoiceView::Best) => if s.len() > 0 {
                Some(s[0])
            } else {
                None
            },
            Some(ChoiceView::Worst) => if s.len() > 0 {
                Some(s.last())
            } else {
                None
            },
            Some(ChoiceView::Height(h)) => if with_height(s, h, 0) < s.len() {
                Some(s[with_height(s, h, 0)])
            } else {
                None
            },
            Some(ChoiceView::Exact(url)) => if with_url(s, url.text, 0) < s.len() {
                Some(s[with_url(s, url.text, 0)])
            } else {
                None
            },
        }
    }
}

impl MasterPlaylist {
    /// The rendition that is downloaded unless another is asked for.
    pub fn default_rendition(&self) -> (r: Option<&Rendition>)
        ensures
            match r {
                Some(x) => self@.chosen(None) == Some(x@),
                None => self@.chosen(None) is None,
            },
    {
        if self.renditions.len() > 0 {
            assert(self@.renditions[0] == self.renditions@[0]@);
            Some(&self.renditions[0])
        } else {
            None
        }
    }

    /// The rendition at a URL.
    pub fn rendition(&self, url: &Url) -> (r: Option<&Rendition>)
        ensures
            match r {
                Some(x) => self@.chosen(Some(ChoiceView::Exact(url@))) == Some(x@),
                None => self@.chosen(Some(ChoiceView::Exact(url@))) is None,
            },
    {
        let mut i: usize = 0;
        while i < self.renditions.len()
            invariant
                i <= self.renditions@.len(),
                with_url(self@.renditions, url@.text, i as int) == with_url(
                    self@.renditions,
                    url@.text,
                    0,
                ),
            decreases self.renditions@.len() - i,
        {
            if web::same_url(&self.renditions[i].url, url) {
                return Some(&self.renditions[i]);
            }
            i = i + 1;
        }
        None
    }

    fn with_height(&self, height: u32) -> (r: Option<&Rendition>)
        ensures
            match r {
                Some(x) => self@.chosen(Some(ChoiceView::Height(height))) == Some(x@),
                None => self@.chosen(Some(ChoiceView::Height(height))) is None,
            },
    {
        let mut i: usize = 0;
        while i < self.renditions.len()
            invariant
                i <= self.renditions@.len(),
                self::with_height(self@.renditions, height, i as int) == self::with_height(
                    self@.renditions,
                    height,
                    0,
                ),
            decreases self.renditions@.len() - i,
        {
            let matched = match self.renditions[i].height {
                Some(h) => h == height,
                None => false,
            };
            if matched {
                return Some(&self.renditions[i]);
            }
            i = i + 1;
        }
        None
    }

    fn find_sound(&self, group: &str, marked: bool) -> (r: usize)
        ensures
            r == in_group(self@.audio, group@, marked, 0),
            r <= self.audio@.len(),
    {
        let mut i: usize = 0;
        while i < self.audio.len()
            invariant
                i <= self.audio@.len(),
                in_group(self@.audio, group@, marked, i as int) == in_group(
                    self@.audio,
                    group@,
                    marked,
                    0,
                ),
            decreases self.audio@.len() - i,
        {
            if text::same(self.audio[i].group_id.as_str(), group) && (!marked || self.audio[i].default) {
                return i;
            }
            i = i + 1;
        }
        self.audio.len()
    }

    /// The sound that belongs to a rendition.
    pub fn audio_for(&self, rendition: &Rendition) -> (r: Option<&AudioRendition>)
        ensures
            match r {
                Some(x) => self@.sound_of(rendition@) == Some(x@),
                None => self@.sound_of(rendition@) is None,
            },
            match r {
                Some(x) => text::opt_text(rendition.audio_group) == Some(x.group_id@),
                None => forall|j: int|
                    0 <= j < self.audio@.len() ==> text::opt_text(rendition.audio_group) != Some(
                        (#[trigger] self.audio@[j]).group_id@,
                    ),
            },
    {
        proof {
            playlist_laws::law_a_sound_belongs_to_its_rendition(self@, rendition@);
            assert forall|j: int| 0 <= j < self.audio@.len() implies (
            #[trigger] self.audio@[j]).group_id@ == self@.audio[j].group_id by {}
        }
        match &rendition.audio_group {
            Some(group) => {
                let marked = self.find_sound(group.as_str(), true);
                if marked < self.audio.len() {
                    return Some(&self.audio[marked]);
                }
                let first = self.find_sound(group.as_str(), false);
                if first < self.audio.len() {
                    return Some(&self.audio[first]);
                }
                None
            },
            None => None,
        }
    }

    /// Choose the rendition that is asked for, with its sound.
    pub fn choose_rendition(&self, requested: Option<&RenditionChoice>) -> (r: Option<VariantChoice>)
        ensures
            match r {
                Some(choice) => self@.chosen(opt_choice(requested)) matches Some(x)
                    && choice.video@ == x.url && web::opt_url(choice.audio) == (match self@.sound_of(
                    x,
                ) {
                    Some(a) => Some(a.url),
                    None => None,
                }),
                None => self@.chosen(opt_choice(requested)) is None,
            },
    {
        let found = match requested {
            None => self.default_rendition(),
            Some(RenditionChoice::Best) => self.default_rendition(),
            Some(RenditionChoice::Worst) => {
                let n: usize = self.renditions.len();
                if n > 0 {
                    assert(self@.renditions.last() == self.renditions@[n - 1]@);
                    Some(&self.renditions[n - 1])
                } else {
                    None
                }
            },
            Some(RenditionChoice::Height(height)) => self.with_height(*height),
            Some(RenditionChoice::Exact(url)) => self.rendition(url),
        };
        match found {
            Some(rendition) => {
                let audio = match self.audio_for(rendition) {
                    Some(sound) => Some(sound.url.copy()),
                    None => None,
                };
                Some(VariantChoice { video: rendition.url.copy(), audio })
            },
            None => None,
        }
    }
}

// ---------------------------------------------------------------------------
// The order of renditions
// ---------------------------------------------------------------------------

pub proof fn lemma_rank_position(s: Seq<RenditionView>, x: RenditionView, i: int)
    requires
        0 <= i <= s.len(),
    ensures
        i <= rank_position(s, x, i) <= s.len(),
        forall|k: int| i <= k < rank_position(s, x, i) ==> !x.better_than(#[trigger] s[k]),
        rank_position(s, x, i) < s.len() ==> x.better_than(s[rank_position(s, x, i)]),
    decreases s.len() - i,
{
    if i < s.len() && !x.better_than(s[i]) {
        lemma_rank_position(s, x, i + 1);
    }
}

/// A ranked list holds as many renditions, and none of them is better than one
/// that stands before it: the first is the best, the last the worst.
pub proof fn law_renditions_are_ranked(s: Seq<RenditionView>)
    ensures
        ranked(s).len() == s.len(),
        forall|i: int, j: int|
            0 <= i < j < ranked(s).len() ==> !(#[trigger] ranked(s)[j]).better_than(
                #[trigger] ranked(s)[i],
            ),
    decreases s.len(),
{
    if s.len() > 0 {
        let before = ranked(s.drop_last());
        let x = s.last();
        let p = rank_position(before, x, 0);
        law_renditions_are_ranked(s.drop_last());
        lemma_rank_position(before, x, 0);
        let all = before.insert(p, x);
        assert forall|i: int, j: int| 0 <= i < j < all.len() implies !(
        #[trigger] all[j]).better_than(#[trigger] all[i]) by {
            let a = if i < p {
                before[i]
            } else if i == p {
                x
            } else {
                before[i - 1]
            };
            let b = if j < p {
                before[j]
            } else if j == p {
                x
            } else {
                before[j - 1]
            };
            assert(all[i] == a && all[j] == b);
            if i == p {
                assert(x.better_than(before[p]));
                if j - 1 > p {
                    assert(!before[j - 1].better_than(before[p]));
                }
            }
        }
    }
}

/// The renditions that rank the same as one of this bandwidth and size.
pub open spec fn of_rank(s: Seq<RenditionView>, bandwidth: u64, pixels: int) -> Seq<RenditionView>
    decreases s.len(),
{
    if s.len() == 0 {
        Seq::empty()
    } else {
        let before = of_rank(s.drop_last(), bandwidth, pixels);
        if s.last().bandwidth == bandwidth && s.last().pixels() == pixels {
            before.push(s.last())
        } else {
            before
        }
    }
}

proof fn lemma_of_rank_add(
    a: Seq<RenditionView>,
    b: Seq<RenditionView>,
    bandwidth: u64,
    pixels: int,
)
    ensures
        of_rank(a + b, bandwidth, pixels) == of_rank(a, bandwidth, pixels) + of_rank(
            b,
            bandwidth,
            pixels,
        ),
    decreases b.len(),
{
    if b.len() == 0 {
        assert(a + b =~= a);
    } else {
        assert((a + b).drop_last() =~= a + b.drop_last());
        lemma_of_rank_add(a, b.drop_last(), bandwidth, pixels);
    }
    assert(of_rank(a + b, bandwidth, pixels) =~= of_rank(a, bandwidth, pixels) + of_rank(
        b,
        bandwidth,
        pixels,
    ));
}

proof fn lemma_of_rank_none(s: Seq<RenditionView>, bandwidth: u64, pixels: int)
    requires
        forall|i: int|
            0 <= i < s.len() ==> !((#[trigger] s[i]).bandwidth == bandwidth && s[i].pixels()
                == pixels),
    ensures
        of_rank(s, bandwidth, pixels) == Seq::<RenditionView>::empty(),
    decreases s.len(),
{
    if s.len() > 0 {
        lemma_of_rank_none(s.drop_last(), bandwidth, pixels);
    }
}

/// Ranking loses no rendition, adds none, and leaves those that rank the same in
/// the order in which the playlist lists them.
pub proof fn law_ranking_is_stable(s: Seq<RenditionView>, bandwidth: u64, pixels: int)
    ensures
        of_rank(ranked(s), bandwidth, pixels) == of_rank(s, bandwidth, pixels),
    decreases s.len(),
{
    if s.len() > 0 {
        let before = ranked(s.drop_last());
        let x = s.last();
        let p = rank_position(before, x, 0);
        law_ranking_is_stable(s.drop_last(), bandwidth, pixels);
        law_renditions_are_ranked(s.drop_last());
        lemma_rank_position(before, x, 0);
        let head = before.take(p);
        let tail = before.skip(p);
        assert(before.insert(p, x) =~= head.push(x) + tail);
        assert(before =~= head + tail);
        lemma_of_rank_add(head.push(x), tail, bandwidth, pixels);
        lemma_of_rank_add(head, tail, bandwidth, pixels);
        assert(head.push(x).drop_last() =~= head);
        if x.bandwidth == bandwidth && x.pixels() == pixels {
            assert forall|i: int| 0 <= i < tail.len() implies !((#[trigger] tail[i]).bandwidth
                == bandwidth && tail[i].pixels() == pixels) by {
                assert(tail[i] == before[p + i]);
                if i > 0 {
                    assert(!before[p + i].better_than(before[p]));
                }
            }
            lemma_of_rank_none(tail, bandwidth, pixels);
            assert(of_rank(head.push(x), bandwidth, pixels) + of_rank(tail, bandwidth, pixels)
                =~= of_rank(before, bandwidth, pixels).push(x));
        }
    }
}

proof fn lemma_with_url(s: Seq<RenditionView>, url: Seq<char>, i: int, k: int)
    requires
        0 <= i <= k < s.len(),
        s[k].url.text == url,
    ensures
        i <= with_url(s, url, i) <= k,
        s[with_url(s, url, i)].url.text == url,
    decreases k - i,
{
    if s[i].url.text != url {
        lemma_with_url(s, url, i + 1, k);
    }
}

proof fn lemma_with_height(s: Seq<RenditionView>, height: u32, i: int, k: int)
    requires
        0 <= i <= k < s.len(),
        s[k].height == Some(height),
    ensures
        i <= with_height(s, height, i) <= k,
        s[with_height(s, height, i)].height == Some(height),
    decreases k - i,
{
    if s[i].height != Some(height) {
        lemma_with_height(s, height, i + 1, k);
    }
}

/// A rendition that a playlist offers can be asked for by its URL. By its height
/// the best of that height is had.
pub proof fn law_an_offered_rendition_can_be_chosen(
    found: Seq<RenditionView>,
    audio: Seq<AudioView>,
    position: int,
)
    requires
        0 <= position < found.len(),
    ensures
        ({
            let master = MasterView { renditions: ranked(found), audio };
            let wanted = master.renditions[position];
            &&& master.chosen(Some(ChoiceView::Exact(wanted.url))) matches Some(x) && x.url.text
                == wanted.url.text
            &&& wanted.height matches Some(h) ==> (master.chosen(Some(ChoiceView::Height(h)))
                matches Some(x) && x.height == Some(h) && !wanted.better_than(x))
        }),
{
    let s = ranked(found);
    law_renditions_are_ranked(found);
    lemma_with_url(s, s[position].url.text, 0, position);
    if let Some(h) = s[position].height {
        lemma_with_height(s, h, 0, position);
    }
}

// ---------------------------------------------------------------------------
// Media playlists
// ---------------------------------------------------------------------------

/// The durations that a media playlist states, one for each segment: what
/// stands between `#EXTINF:` and the next comma.
pub open spec fn duration_fields(ls: Seq<Seq<char>>) -> Seq<Seq<char>>
    decreases ls.len(),
{
    if ls.len() == 0 {
        Seq::empty()
    } else {
        let before = duration_fields(ls.drop_last());
        match text::strip_prefix(text::trim(ls.last()), "#EXTINF:"@) {
            Some(value) => before.push(value.take(text::next_char(value, ',', 0))),
            None => before,
        }
    }
}

/// The durations that a media playlist states, as they are written.
pub fn segment_durations(text: &str) -> (r: Vec<String>)
    ensures
        text::texts(r@) == duration_fields(text::lines(text@)),
        r@.len() == playlist_laws::marked_lines(text::lines(text@), "#EXTINF:"@),
{
    let ls = text::lines_of(text);
    let mut r: Vec<String> = Vec::new();
    let mut i: usize = 0;
    assert(text::texts(ls@).take(0) =~= Seq::empty());
    assert(text::texts(r@) =~= Seq::empty());
    while i < ls.len()
        invariant
            i <= ls@.len(),
            text::texts(r@) == duration_fields(text::texts(ls@).take(i as int)),
        decreases ls@.len() - i,
    {
        proof {
            let next = text::texts(ls@).take(i + 1);
            assert(next.drop_last() =~= text::texts(ls@).take(i as int));
            assert(next.last() == ls@[i as int]@);
        }
        let line = text::trimmed(ls[i].as_str());
        if let Some(value) = text::without_prefix(line.as_str(), "#EXTINF:") {
            let end = text::index_of(value.as_str(), ',');
            let field = text::slice(value.as_str(), 0, end);
            assert(field@ =~= value@.take(end as int));
            text::push_text(&mut r, field.as_str());
        }
        i = i + 1;
    }
    assert(text::texts(ls@).take(i as int) =~= text::texts(ls@));
    proof {
        playlist_laws::law_each_segment_has_a_duration(text@);
        assert(text::texts(r@).len() == r@.len());
    }
    r
}

/// How many durations could be read.
pub open spec fn read_count(v: Seq<Option<u64>>) -> nat
    decreases v.len(),
{
    if v.len() == 0 {
        0
    } else {
        read_count(v.drop_last()) + (if v.last() is Some {
            1nat
        } else {
            0
        })
    }
}

/// The sum of the durations that could be read.
pub open spec fn read_total(v: Seq<Option<u64>>) -> nat
    decreases v.len(),
{
    if v.len() == 0 {
        0
    } else {
        read_total(v.drop_last()) + (match v.last() {
            Some(ms) => ms as nat,
            None => 0,
        })
    }
}

proof fn lemma_read_total_grows(v: Seq<Option<u64>>, n: int)
    requires
        0 <= n <= v.len(),
    ensures
        read_total(v.take(n)) <= read_total(v),
        read_count(v.take(n)) <= n,
    decreases v.len() - n,
{
    if n < v.len() {
        lemma_read_total_grows(v, n + 1);
        assert(v.take(n + 1).drop_last() =~= v.take(n));
        lemma_read_count(v.take(n));
    } else {
        assert(v.take(n) =~= v);
        lemma_read_count(v);
    }
}

pub proof fn lemma_read_count(v: Seq<Option<u64>>)
    ensures
        read_count(v) <= v.len(),
    decreases v.len(),
{
    if v.len() > 0 {
        lemma_read_count(v.drop_last());
    }
}

/// What a playlist with these durations holds; a segment whose duration could
/// not be read does not count.
pub open spec fn hls_totals(durations: Seq<Option<u64>>) -> Option<HlsInfo> {
    if read_count(durations) > 0 {
        Some(
            HlsInfo {
                total_segments: read_count(durations) as u64,
                total_duration_ms: read_total(durations) as u64,
            },
        )
    } else {
        None
    }
}

/// Count the segments of a playlist and add up their durations, in milliseconds.
pub fn parse_hls_info(durations: &Vec<Option<u64>>) -> (r: Option<HlsInfo>)
    requires
        read_total(durations@) <= u64::MAX,
    ensures
        r == hls_totals(durations@),
{
    let mut count: u64 = 0;
    let mut total: u64 = 0;
    let mut i: usize = 0;
    assert(durations@.take(0) =~= Seq::empty());
    while i < durations.len()
        invariant
            read_total(durations@) <= u64::MAX,
            i <= durations@.len(),
            count == read_count(durations@.take(i as int)),
            count <= i,
            total == read_total(durations@.take(i as int)),
        decreases durations@.len() - i,
    {
        proof {
            assert(durations@.take(i + 1).drop_last() =~= durations@.take(i as int));
            lemma_read_total_grows(durations@, i + 1);
        }
        if let Some(ms) = durations[i] {
            count = count + 1;
            total = total + ms;
        }
        i = i + 1;
    }
    assert(durations@.take(i as int) =~= durations@);
    if count > 0 {
        Some(HlsInfo { total_segments: count, total_duration_ms: total })
    } else {
        None
    }
}

/// Whether a playlist lists renditions rather than segments.
pub open spec fn is_master(text: Seq<char>) -> bool {
    exists|i: int|
        0 <= i < text::lines(text).len() && text::starts_with(
            text::trim(#[trigger] text::lines(text)[i]),
            "#EXT-X-STREAM-INF:"@,
        )
}

pub fn is_master_playlist(text: &str) -> (r: bool)
    ensures
        r == is_master(text@),
{
    let ls = text::lines_of(text);
    let mut i: usize = 0;
    while i < ls.len()
        invariant
            text::texts(ls@) == text::lines(text@),
            i <= ls@.len(),
            forall|k: int|
                0 <= k < i ==> !text::starts_with(
                    text::trim(#[trigger] text::lines(text@)[k]),
                    "#EXT-X-STREAM-INF:"@,
                ),
        decreases ls@.len() - i,
    {
        assert(text::lines(text@)[i as int] == ls@[i as int]@);
        if text::has_prefix(text::trimmed(ls[i].as_str()).as_str(), "#EXT-X-STREAM-INF:") {
            return true;
        }
        i = i + 1;
    }
    assert(text::texts(ls@).len() == ls@.len());
    false
}

/// What a text is as a playlist.
#[derive(Debug)]
pub enum Playlist {
    Master(MasterPlaylist),
    Media(HlsInfo),
    Unusable,
}

/// Read a playlist found at a URL. `durations` are those that it states, read
/// as milliseconds.
pub fn parse_playlist(text: &str, base: &Url, durations: &Vec<Option<u64>>) -> (r: Playlist)
    requires
        read_total(durations@) <= u64::MAX,
    ensures
        match r {
            Playlist::Master(master) => is_master(text@) && master@ == master_at(
                text@,
                base@.text,
            ),
            Playlist::Media(info) => !is_master(text@) && hls_totals(durations@) == Some(info),
            Playlist::Unusable => !is_master(text@) && hls_totals(durations@) is None,
        },
{
    if is_master_playlist(text) {
        return Playlist::Master(parse_master(text, base));
    }
    match parse_hls_info(durations) {
        Some(info) => Playlist::Media(info),
        None => Playlist::Unusable,
    }
}

/// Why a text without segments is no usable playlist.
pub fn classify_body(body: &str) -> (r: PlaylistProblem)
    ensures
        match r {
            PlaylistProblem::NoSegments => text::starts_with(text::trim_start(body@), "#EXTM3U"@),
            PlaylistProblem::Challenged => !text::starts_with(text::trim_start(body@), "#EXTM3U"@)
                && text::contains(text::lower(body@), "cloudflare"@),
            PlaylistProblem::NotAPlaylist => !text::starts_with(text::trim_start(body@), "#EXTM3U"@)
                && !text::contains(text::lower(body@), "cloudflare"@),
            PlaylistProblem::Unreachable(_) => false,
        },
{
    if text::has_prefix(text::trimmed_start(body).as_str(), "#EXTM3U") {
        PlaylistProblem::NoSegments
    } else if text::contains_text(text::to_ascii_lower(body).as_str(), "cloudflare") {
        PlaylistProblem::Challenged
    } else {
        PlaylistProblem::NotAPlaylist
    }
}

// ---------------------------------------------------------------------------
// Kinds of media
// ---------------------------------------------------------------------------

/// The extensions of media that can be downloaded.
pub open spec fn media_extensions() -> Seq<Seq<char>> {
    seq![
        ".m3u8"@,
        ".mpd"@,
        ".mp4"@,
        ".webm"@,
        ".mov"@,
        ".m4v"@,
        ".mkv"@,
        ".avi"@,
        ".flv"@,
        ".ts"@,
        ".mpeg"@,
        ".mpg"@,
        ".ogg"@,
        ".ogv"@,
        ".3gp"@,
    ]
}

pub fn media_extensions_list() -> (r: Vec<&'static str>)
    ensures
        text::str_texts(r@) == media_extensions(),
{
    let r = vec![
        ".m3u8",
        ".mpd",
        ".mp4",
        ".webm",
        ".mov",
        ".m4v",
        ".mkv",
        ".avi",
        ".flv",
        ".ts",
        ".mpeg",
        ".mpg",
        ".ogg",
        ".ogv",
        ".3gp",
    ];
    assert(text::str_texts(r@) =~= media_extensions());
    r
}

/// What a URL points at.
#[derive(Debug, Clone, Copy, PartialEq, Eq, Structural)]
pub enum MediaKind {
    Hls,
    Dash,
    File,
}

impl MediaKind {
    pub open spec fn text(self) -> Seq<char> {
        match self {
            MediaKind::Hls => "hls"@,
            MediaKind::Dash => "dash"@,
            MediaKind::File => "file"@,
        }
    }

    pub fn as_str(self) -> (r: &'static str)
        ensures
            r@ == self.text(),
    {
        match self {
            MediaKind::Hls => "hls",
            MediaKind::Dash => "dash",
            MediaKind::File => "file",
        }
    }
}

/// What follows the last `/` of a path.
pub open spec fn last_component(path: Seq<char>) -> Seq<char> {
    path.skip(text::last_char(path, '/', path.len() as int) + 1)
}

/// The extension at the end of a path, with its dot, in lower case.
pub open spec fn path_extension(path: Seq<char>) -> Option<Seq<char>> {
    match text::rsplit_once(last_component(path), '.') {
        Some(parts) => if parts.1.len() > 0 {
            Some("."@ + text::lower(parts.1))
        } else {
            None
        },
        None => None,
    }
}

/// Whether a file name looks like a numbered segment of a stream.
pub open spec fn segment_name(name: Seq<char>) -> bool {
    match text::rsplit_once(name, '.') {
        Some(parts) => has_digit(parts.0),
        None => false,
    }
}

pub open spec fn has_digit(s: Seq<char>) -> bool {
    exists|i: int| 0 <= i < s.len() && text::is_digit(#[trigger] s[i])
}

/// What a path points at. A file that ends in `.ts` is media only if it looks
/// like a segment; otherwise it is source code.
pub open spec fn kind_of(path: Seq<char>) -> Option<MediaKind> {
    match path_extension(path) {
        Some(extension) => if extension == ".m3u8"@ {
            Some(MediaKind::Hls)
        } else if extension == ".mpd"@ {
            Some(MediaKind::Dash)
        } else if extension == ".ts"@ {
            if segment_name(last_component(path)) {
                Some(MediaKind::File)
            } else {
                None
            }
        } else if media_extensions().contains(extension) {
            Some(MediaKind::File)
        } else {
            None
        },
        None => None,
    }
}

pub open spec fn is_playlist_path(path: Seq<char>) -> bool {
    kind_of(path) == Some(MediaKind::Hls) || kind_of(path) == Some(MediaKind::Dash)
}

fn filename_of(path: &str) -> (r: String)
    ensures
        r@ == last_component(path@),
{
    let v = text::chars_of(path);
    let total: usize = v.len();
    match text::last_index_of(path, '/') {
        Some(i) => {
            let r = text::string_of(&v, i + 1, total);
            assert(r@ =~= last_component(path@));
            r
        },
        None => {
            assert(path@.skip(0) =~= path@);
            text::owned(path)
        },
    }
}

fn extension_of(path: &str) -> (r: Option<String>)
    ensures
        text::opt_text(r) == path_extension(path@),
{
    let name = filename_of(path);
    match text::split_last(name.as_str(), '.') {
        Some(parts) => {
            if text::chars_of(parts.1.as_str()).len() > 0 {
                Some(text::join2(".", text::to_ascii_lower(parts.1.as_str()).as_str()))
            } else {
                None
            }
        },
        None => None,
    }
}

fn looks_like_segment(name: &str) -> (r: bool)
    ensures
        r == segment_name(name@),
{
    match text::split_last(name, '.') {
        Some(parts) => {
            let v = text::chars_of(parts.0.as_str());
            let mut i: usize = 0;
            while i < v.len()
                invariant
                    v@ == parts.0@,
                    text::rsplit_once(name@, '.') == Some((parts.0@, parts.1@)),
                    i <= v@.len(),
                    forall|k: int| 0 <= k < i ==> !text::is_digit(#[trigger] parts.0@[k]),
                decreases v@.len() - i,
            {
                if '0' <= v[i] && v[i] <= '9' {
                    assert(text::is_digit(parts.0@[i as int]));
                    return true;
                }
                i = i + 1;
            }
            false
        },
        None => false,
    }
}

/// What a URL points at; `None` if it is no media.
pub fn media_kind(url: &Url) -> (r: Option<MediaKind>)
    ensures
        r == kind_of(url@.path),
{
    let extension = match extension_of(url.path.as_str()) {
        Some(e) => e,
        None => {
            return None;
        },
    };
    let e = extension.as_str();
    if text::same(e, ".m3u8") {
        Some(MediaKind::Hls)
    } else if text::same(e, ".mpd") {
        Some(MediaKind::Dash)
    } else if text::same(e, ".ts") {
        if looks_like_segment(filename_of(url.path.as_str()).as_str()) {
            Some(MediaKind::File)
        } else {
            None
        }
    } else if text::is_one_of(e, &media_extensions_list()) {
        Some(MediaKind::File)
    } else {
        None
    }
}

fn is_playlist_url(url: &Url) -> (r: bool)
    ensures
        r == is_playlist_path(url@.path),
{
    match media_kind(url) {
        Some(MediaKind::Hls) => true,
        Some(MediaKind::Dash) => true,
        _ => false,
    }
}

// ---------------------------------------------------------------------------
// Segments of a listed stream
// ---------------------------------------------------------------------------

/// The directory of a path, with its last `/`.
pub open spec fn directory(path: Seq<char>) -> Seq<char> {
    let i = text::last_char(path, '/', path.len() as int);
    if i >= 0 {
        path.take(i + 1)
    } else {
        "/"@
    }
}

fn directory_of(path: &str) -> (r: String)
    ensures
        r@ == directory(path@),
{
    match text::last_index_of(path, '/') {
        Some(i) => {
            let v = text::chars_of(path);
            let total: usize = v.len();
            let r = text::string_of(&v, 0, i + 1);
            assert(r@ =~= path@.take(i + 1));
            r
        },
        None => text::owned("/"),
    }
}

/// Whether a playlist has the origin of a URL and lies in its directory or above
/// it, given both origins.
pub open spec fn covers_from(
    playlist: UrlView,
    playlist_origin: Option<Seq<char>>,
    url: UrlView,
    origin: Option<Seq<char>>,
) -> bool {
    is_playlist_path(playlist.path) && playlist_origin == origin && text::starts_with(
        directory(url.path),
        directory(playlist.path),
    )
}

/// Whether a URL is a segment of a stream whose playlist is among `all`, given
/// the origins of all.
pub open spec fn is_covered_from(
    url: UrlView,
    origin: Option<Seq<char>>,
    all: Seq<UrlView>,
    origins: Seq<Option<Seq<char>>>,
) -> bool {
    path_extension(url.path) == Some(".ts"@) && exists|j: int|
        0 <= j < all.len() && covers_from(#[trigger] all[j], origins[j], url, origin)
}

/// The first `n` of some URLs that are no segments of a stream whose playlist is
/// among all of them, given their origins.
pub open spec fn uncovered_from(
    all: Seq<UrlView>,
    origins: Seq<Option<Seq<char>>>,
    n: int,
) -> Seq<UrlView>
    decreases n,
{
    if n <= 0 {
        Seq::empty()
    } else {
        let before = uncovered_from(all, origins, n - 1);
        if is_covered_from(all[n - 1], origins[n - 1], all, origins) {
            before
        } else {
            before.push(all[n - 1])
        }
    }
}

/// Whether a playlist has the origin of a URL and lies in its directory or above
/// it.
pub open spec fn covers(playlist: UrlView, url: UrlView) -> bool {
    covers_from(playlist, web::url_origin(playlist.text), url, web::url_origin(url.text))
}

/// Whether a URL is a segment of a stream whose playlist is among `all`.
pub open spec fn is_covered(url: UrlView, all: Seq<UrlView>) -> bool {
    path_extension(url.path) == Some(".ts"@) && exists|j: int|
        0 <= j < all.len() && covers(#[trigger] all[j], url)
}

/// The URLs that are no segments of a stream whose playlist is among `all`.
pub open spec fn uncovered(s: Seq<UrlView>, all: Seq<UrlView>) -> Seq<UrlView>
    decreases s.len(),
{
    if s.len() == 0 {
        Seq::empty()
    } else {
        let before = uncovered(s.drop_last(), all);
        if is_covered(s.last(), all) {
            before
        } else {
            before.push(s.last())
        }
    }
}

/// URLs without the segments of the streams they list.
pub open spec fn collapsed(s: Seq<UrlView>) -> Seq<UrlView> {
    uncovered(s, s)
}

fn same_origin(a: &Option<String>, b: &Option<String>) -> (r: bool)
    ensures
        r == (text::opt_text(*a) == text::opt_text(*b)),
{
    match (a, b) {
        (Some(x), Some(y)) => text::same(x.as_str(), y.as_str()),
        (None, None) => true,
        _ => false,
    }
}

fn is_listed_segment(urls: &Vec<Url>, origins: &Vec<Option<String>>, i: usize) -> (r: bool)
    requires
        i < urls@.len(),
        urls@.len() == origins@.len(),
    ensures
        r == is_covered_from(
            urls@[i as int]@,
            text::opt_text(origins@[i as int]),
            web::url_views(urls@),
            opt_texts(origins@),
        ),
{
    let ts = match extension_of(urls[i].path.as_str()) {
        Some(e) => text::same(e.as_str(), ".ts"),
        None => false,
    };
    if !ts {
        return false;
    }
    let ghost url = urls@[i as int]@;
    let ghost origin = text::opt_text(origins@[i as int]);
    let folder = directory_of(urls[i].path.as_str());
    let mut j: usize = 0;
    while j < urls.len()
        invariant
            i < urls@.len(),
            urls@.len() == origins@.len(),
            url == urls@[i as int]@,
            origin == text::opt_text(origins@[i as int]),
            folder@ == directory(url.path),
            path_extension(url.path) == Some(".ts"@),
            j <= urls@.len(),
            forall|k: int|
                0 <= k < j ==> !covers_from(
                    #[trigger] web::url_views(urls@)[k],
                    opt_texts(origins@)[k],
                    url,
                    origin,
                ),
        decreases urls@.len() - j,
    {
        assert(web::url_views(urls@)[j as int] == urls@[j as int]@);
        assert(opt_texts(origins@)[j as int] == text::opt_text(origins@[j as int]));
        if is_playlist_url(&urls[j]) && same_origin(&origins[j], &origins[i]) && text::has_prefix(
            folder.as_str(),
            directory_of(urls[j].path.as_str()).as_str(),
        ) {
            assert(covers_from(
                web::url_views(urls@)[j as int],
                opt_texts(origins@)[j as int],
                url,
                origin,
            ));
            return true;
        }
        j = j + 1;
    }
    false
}

/// The URLs that are no segments of the streams that are listed themselves, given
/// the origin of each.
pub fn without_segments(urls: &Vec<Url>, origins: &Vec<Option<String>>) -> (r: Vec<Url>)
    requires
        urls@.len() == origins@.len(),
    ensures
        web::url_views(r@) == uncovered_from(
            web::url_views(urls@),
            opt_texts(origins@),
            urls@.len() as int,
        ),
{
    let mut kept: Vec<Url> = Vec::new();
    let mut i: usize = 0;
    assert(web::url_views(kept@) =~= Seq::empty());
    while i < urls.len()
        invariant
            urls@.len() == origins@.len(),
            i <= urls@.len(),
            web::url_views(kept@) == uncovered_from(web::url_views(urls@), opt_texts(origins@), i as int),
        decreases urls@.len() - i,
    {
        assert(web::url_views(urls@)[i as int] == urls@[i as int]@);
        assert(opt_texts(origins@)[i as int] == text::opt_text(origins@[i as int]));
        if !is_listed_segment(urls, origins, i) {
            let url = urls[i].copy();
            let ghost before = kept@;
            kept.push(url);
            assert(web::url_views(kept@) =~= web::url_views(before).push(url@));
        }
        i = i + 1;
    }
    kept
}

proof fn lemma_uncovered_from(all: Seq<UrlView>, origins: Seq<Option<Seq<char>>>, n: int)
    requires
        origins.len() == all.len(),
        forall|j: int| 0 <= j < all.len() ==> #[trigger] origins[j] == web::url_origin(all[j].text),
        0 <= n <= all.len(),
    ensures
        uncovered_from(all, origins, n) == uncovered(all.take(n), all),
    decreases n,
{
    if n > 0 {
        lemma_uncovered_from(all, origins, n - 1);
        let url = all[n - 1];
        assert(all.take(n).drop_last() =~= all.take(n - 1));
        assert(all.take(n).last() == url);
        assert(origins[n - 1] == web::url_origin(url.text));
        if is_covered(url, all) {
            let j = choose|j: int| 0 <= j < all.len() && covers(#[trigger] all[j], url);
            assert(covers_from(all[j], origins[j], url, origins[n - 1]));
        }
        if is_covered_from(url, origins[n - 1], all, origins) {
            let j = choose|j: int|
                0 <= j < all.len() && covers_from(
                    #[trigger] all[j],
                    origins[j],
                    url,
                    origins[n - 1],
                );
            assert(origins[j] == web::url_origin(all[j].text));
            assert(covers(all[j], url));
        }
    }
}

/// Remove the segments of the streams that are listed themselves.
pub fn collapse_segments(urls: &mut Vec<Url>)
    requires
        forall|i: int|
            0 <= i < old(urls)@.len() ==> web::has_bounded_nesting((#[trigger] old(urls)@[i])@.text),
    ensures
        web::url_views(final(urls)@) == collapsed(web::url_views(old(urls)@)),
{
    let mut origins: Vec<Option<String>> = Vec::new();
    let mut i: usize = 0;
    while i < urls.len()
        invariant
            forall|k: int|
                0 <= k < urls@.len() ==> web::has_bounded_nesting((#[trigger] urls@[k])@.text),
            *urls == *old(urls),
            i <= urls@.len(),
            origins@.len() == i,
            forall|k: int|
                0 <= k < i ==> #[trigger] opt_texts(origins@)[k] == web::url_origin(
                    web::url_views(urls@)[k].text,
                ),
        decreases urls@.len() - i,
    {
        let ghost before = origins@;
        let origin = web::origin_text(&urls[i]);
        origins.push(origin);
        assert forall|k: int| 0 <= k < i + 1 implies #[trigger] opt_texts(origins@)[k]
            == web::url_origin(web::url_views(urls@)[k].text) by {
            if k < i {
                assert(opt_texts(origins@)[k] == opt_texts(before)[k]);
            }
        }
        i = i + 1;
    }
    let kept = without_segments(urls, &origins);
    proof {
        let all = web::url_views(urls@);
        lemma_uncovered_from(all, opt_texts(origins@), all.len() as int);
        assert(all.take(all.len() as int) =~= all);
    }
    *urls = kept;
}

proof fn lemma_uncovered(s: Seq<UrlView>, all: Seq<UrlView>)
    ensures
        forall|i: int|
            0 <= i < uncovered(s, all).len() ==> s.contains(#[trigger] uncovered(s, all)[i])
                && !is_covered(uncovered(s, all)[i], all),
        forall|i: int|
            0 <= i < s.len() && !is_covered(#[trigger] s[i], all) ==> uncovered(s, all).contains(
                s[i],
            ),
    decreases s.len(),
{
    if s.len() > 0 {
        let fewer = s.drop_last();
        let before = uncovered(fewer, all);
        let after = uncovered(s, all);
        lemma_uncovered(fewer, all);
        assert forall|i: int| 0 <= i < after.len() implies s.contains(#[trigger] after[i])
            && !is_covered(after[i], all) by {
            if i < before.len() {
                assert(after[i] == before[i]);
                let k = choose|k: int| 0 <= k < fewer.len() && fewer[k] == before[i];
                assert(s[k] == before[i]);
            } else {
                assert(s[s.len() - 1] == after[i]);
            }
        }
        assert forall|i: int| 0 <= i < s.len() && !is_covered(#[trigger] s[i], all) implies
            after.contains(s[i]) by {
            if i < fewer.len() {
                assert(fewer[i] == s[i]);
                let k = choose|k: int| 0 <= k < before.len() && before[k] == s[i];
                assert(after[k] == s[i]);
            } else {
                assert(after[after.len() - 1] == s[i]);
            }
        }
    }
}

proof fn lemma_uncovered_keeps(s: Seq<UrlView>, all: Seq<UrlView>)
    requires
        forall|i: int| 0 <= i < s.len() ==> !is_covered(#[trigger] s[i], all),
    ensures
        uncovered(s, all) == s,
    decreases s.len(),
{
    if s.len() > 0 {
        assert(forall|i: int|
            0 <= i < s.drop_last().len() ==> s.drop_last()[i] == #[trigger] s[i]);
        lemma_uncovered_keeps(s.drop_last(), all);
    }
    assert(uncovered(s, all) =~= s);
}

proof fn lemma_playlist_is_no_segment(path: Seq<char>)
    requires
        is_playlist_path(path),
    ensures
        path_extension(path) != Some(".ts"@),
{
    assert(".m3u8"@ != ".ts"@ && ".mpd"@ != ".ts"@) by {
        reveal_strlit(".m3u8");
        reveal_strlit(".mpd");
        reveal_strlit(".ts");
        assert(".m3u8"@.len() == 5 && ".mpd"@.len() == 4 && ".ts"@.len() == 3);
    }
}

/// Every playlist survives.
pub proof fn law_collapsing_keeps_playlists(s: Seq<UrlView>, i: int)
    requires
        0 <= i < s.len(),
        is_playlist_path(s[i].path),
    ensures
        collapsed(s).contains(s[i]),
{
    lemma_playlist_is_no_segment(s[i].path);
    assert(!is_covered(s[i], s));
    lemma_uncovered(s, s);
}

/// What was collapsed once is not changed by doing it again.
pub proof fn law_collapsing_is_idempotent(s: Seq<UrlView>)
    ensures
        collapsed(collapsed(s)) == collapsed(s),
{
    let c = collapsed(s);
    lemma_uncovered(s, s);
    assert forall|i: int| 0 <= i < c.len() implies !is_covered(#[trigger] c[i], c) by {
        if is_covered(c[i], c) {
            let j = choose|j: int| 0 <= j < c.len() && covers(#[trigger] c[j], c[i]);
            let k = choose|k: int| 0 <= k < s.len() && s[k] == c[j];
            assert(covers(s[k], c[i]));
        }
    }
    lemma_uncovered_keeps(c, c);
}

// ---------------------------------------------------------------------------
// Headers and cookies
// ---------------------------------------------------------------------------

/// A text without ASCII control characters, fit for a header.
pub open spec fn header_value(s: Seq<char>) -> Seq<char>
    decreases s.len(),
{
    if s.len() == 0 {
        Seq::empty()
    } else if text::is_ascii_control(s.last()) {
        header_value(s.drop_last())
    } else {
        header_value(s.drop_last()).push(s.last())
    }
}

fn clean_header(raw: &str) -> (r: String)
    ensures
        r@ == header_value(raw@),
{
    let v = text::chars_of(raw);
    let mut r = String::new();
    let mut i: usize = 0;
    assert(raw@.take(0) =~= Seq::empty());
    while i < v.len()
        invariant
            v@ == raw@,
            i <= v@.len(),
            r@ == header_value(raw@.take(i as int)),
        decreases v@.len() - i,
    {
        assert(raw@.take(i + 1).drop_last() =~= raw@.take(i as int));
        if !text::ascii_control(v[i]) {
            r.push(v[i]);
        }
        i = i + 1;
    }
    assert(raw@.take(i as int) =~= raw@);
    r
}

/// The headers that FFmpeg sends: who asks, and from which page.
pub open spec fn header_block(referer: Option<Seq<char>>, user_agent: Seq<char>) -> Seq<char> {
    "User-Agent: "@ + header_value(user_agent) + "\r\n"@ + (match referer {
        Some(url) => "Referer: "@ + header_value(url) + "\r\n"@,
        None => Seq::empty(),
    })
}

pub fn ffmpeg_headers(referer: Option<&Url>, user_agent: &str) -> (r: Option<String>)
    ensures
        text::opt_text(r) == Some(
            header_block(
                match referer {
                    Some(url) => Some(url@.text),
                    None => None,
                },
                user_agent@,
            ),
        ),
{
    let agent = clean_header(user_agent);
    let mut headers = text::join3("User-Agent: ", agent.as_str(), "\r\n");
    let ghost first = headers@;
    match referer {
        Some(url) => {
            headers.append("Referer: ");
            headers.append(clean_header(url.as_str()).as_str());
            headers.append("\r\n");
            assert(headers@ =~= first + ("Referer: "@ + header_value(url@.text) + "\r\n"@));
        },
        None => {
            assert(headers@ =~= first + Seq::empty());
        },
    }
    Some(headers)
}

/// The names that `Set-Cookie` gives a meaning of its own.
pub open spec fn cookie_attributes() -> Seq<Seq<char>> {
    seq![
        "domain"@,
        "expires"@,
        "httponly"@,
        "max-age"@,
        "partitioned"@,
        "path"@,
        "samesite"@,
        "secure"@,
    ]
}

pub fn cookie_attributes_list() -> (r: Vec<&'static str>)
    ensures
        text::str_texts(r@) == cookie_attributes(),
{
    let r = vec![
        "domain",
        "expires",
        "httponly",
        "max-age",
        "partitioned",
        "path",
        "samesite",
        "secure",
    ];
    assert(text::str_texts(r@) =~= cookie_attributes());
    r
}

/// Whether a piece of a cookie header is a cookie: it has a name, without white
/// space or control characters, that is no attribute of `Set-Cookie`.
pub open spec fn is_cookie(pair: Seq<char>) -> bool {
    match text::split_once(pair, "="@) {
        Some(parts) => {
            let name = text::trim(parts.0);
            &&& name.len() > 0
            &&& forall|i: int|
                0 <= i < name.len() ==> !text::is_white(#[trigger] name[i]) && !text::is_ascii_control(name[i])
            &&& forall|k: int|
                0 <= k < cookie_attributes().len() ==> !text::eq_fold(
                    name,
                    #[trigger] cookie_attributes()[k],
                )
        },
        None => false,
    }
}

fn is_cookie_pair(pair: &str) -> (r: bool)
    ensures
        r == is_cookie(pair@),
{
    let name = match text::split_first(pair, "=") {
        Some(parts) => text::trimmed(parts.0.as_str()),
        None => {
            return false;
        },
    };
    let v = text::chars_of(name.as_str());
    if v.len() == 0 {
        return false;
    }
    let mut i: usize = 0;
    while i < v.len()
        invariant
            v@ == name@,
            text::split_once(pair@, "="@) matches Some(parts) && text::trim(parts.0) == name@,
            i <= v@.len(),
            forall|k: int|
                0 <= k < i ==> !text::is_white(#[trigger] name@[k]) && !text::is_ascii_control(name@[k]),
        decreases v@.len() - i,
    {
        if text::white(v[i]) || text::ascii_control(v[i]) {
            assert(text::is_white(name@[i as int]) || text::is_ascii_control(name@[i as int]));
            return false;
        }
        i = i + 1;
    }
    let reserved = cookie_attributes_list();
    let mut k: usize = 0;
    while k < reserved.len()
        invariant
            text::str_texts(reserved@) == cookie_attributes(),
            text::split_once(pair@, "="@) matches Some(parts) && text::trim(parts.0) == name@,
            k <= reserved@.len(),
            forall|j: int|
                0 <= j < k ==> !text::eq_fold(name@, #[trigger] cookie_attributes()[j]),
        decreases reserved@.len() - k,
    {
        assert(cookie_attributes()[k as int] == reserved@[k as int]@);
        if text::equal_fold(name.as_str(), reserved[k]) {
            return false;
        }
        k = k + 1;
    }
    assert(text::str_texts(reserved@).len() == reserved@.len());
    true
}

/// The host that a cookie is for, with its port where it states one.
pub open spec fn cookie_scope(url: UrlView) -> Option<Seq<char>> {
    match url.host {
        Some(host) => match url.port {
            Some(port) => Some(host + ":"@ + text::decimal(port as nat)),
            None => Some(host),
        },
        None => None,
    }
}

fn cookie_domain(url: &Url) -> (r: Option<String>)
    ensures
        text::opt_text(r) == cookie_scope(url@),
{
    match &url.host {
        Some(host) => match url.port {
            Some(port) => Some(text::join3(host.as_str(), ":", text::decimal_of(port as u64).as_str())),
            None => Some(text::owned(host.as_str())),
        },
        None => None,
    }
}

/// A cookie with the scope in which FFmpeg may send it.
pub open spec fn scoped_cookie(pair: Seq<char>, domain: Seq<char>) -> Seq<char> {
    header_value(pair) + "; path=/; domain="@ + domain
}

/// The cookies among the pieces of a cookie header, each in its scope.
pub open spec fn scoped_cookies(pieces: Seq<Seq<char>>, domain: Seq<char>) -> Seq<Seq<char>>
    decreases pieces.len(),
{
    if pieces.len() == 0 {
        Seq::empty()
    } else {
        let before = scoped_cookies(pieces.drop_last(), domain);
        if is_cookie(text::trim(pieces.last())) {
            before.push(scoped_cookie(text::trim(pieces.last()), domain))
        } else {
            before
        }
    }
}

/// What FFmpeg is given for a cookie header: one line for each cookie, each in
/// the scope of the host that is asked; `None` if there is no cookie.
pub open spec fn cookie_lines(url: UrlView, cookie: Option<Seq<char>>) -> Option<Seq<char>> {
    match (cookie_scope(url), cookie) {
        (Some(domain), Some(header)) => {
            let entries = scoped_cookies(text::split(header, ';'), domain);
            if entries.len() > 0 {
                Some(text::join(entries, "\n"@))
            } else {
                None
            }
        },
        _ => None,
    }
}

pub fn ffmpeg_cookies(url: &Url, cookie: Option<&str>) -> (r: Option<String>)
    ensures
        text::opt_text(r) == cookie_lines(
            url@,
            match cookie {
                Some(header) => Some(header@),
                None => None,
            },
        ),
{
    let domain = match cookie_domain(url) {
        Some(d) => d,
        None => {
            return None;
        },
    };
    let header = match cookie {
        Some(h) => h,
        None => {
            return None;
        },
    };
    let pieces = text::split_at_each(header, ';');
    let mut entries: Vec<String> = Vec::new();
    let mut i: usize = 0;
    assert(text::texts(pieces@).take(0) =~= Seq::empty());
    assert(text::texts(entries@) =~= Seq::empty());
    while i < pieces.len()
        invariant
            i <= pieces@.len(),
            text::texts(entries@) == scoped_cookies(text::texts(pieces@).take(i as int), domain@),
        decreases pieces@.len() - i,
    {
        proof {
            let next = text::texts(pieces@).take(i + 1);
            assert(next.drop_last() =~= text::texts(pieces@).take(i as int));
            assert(next.last() == pieces@[i as int]@);
        }
        let pair = text::trimmed(pieces[i].as_str());
        if is_cookie_pair(pair.as_str()) {
            let entry = text::join3(
                clean_header(pair.as_str()).as_str(),
                "; path=/; domain=",
                domain.as_str(),
            );
            text::push_text(&mut entries, entry.as_str());
        }
        i = i + 1;
    }
    assert(text::texts(pieces@).take(i as int) =~= text::texts(pieces@));
    assert(text::texts(entries@).len() == entries@.len());
    if entries.len() > 0 {
        Some(text::joined(&entries, "\n"))
    } else {
        None
    }
}

/// Whether a text holds neither a control character nor the sign that separates
/// the attributes of a cookie.
pub open spec fn is_one_value(s: Seq<char>) -> bool {
    forall|i: int| 0 <= i < s.len() ==> !text::is_ascii_control(#[trigger] s[i]) && s[i] != ';'
}

proof fn lemma_header_value(s: Seq<char>)
    ensures
        forall|i: int|
            0 <= i < header_value(s).len() ==> !text::is_ascii_control(#[trigger] header_value(s)[i])
                && s.contains(header_value(s)[i]),
    decreases s.len(),
{
    if s.len() > 0 {
        let fewer = s.drop_last();
        lemma_header_value(fewer);
        assert forall|i: int| 0 <= i < header_value(s).len() implies !text::is_ascii_control(
            #[trigger] header_value(s)[i],
        ) && s.contains(header_value(s)[i]) by {
            if i < header_value(fewer).len() {
                assert(header_value(s)[i] == header_value(fewer)[i]);
                let k = choose|k: int|
                    0 <= k < fewer.len() && fewer[k] == header_value(fewer)[i];
                assert(s[k] == header_value(s)[i]);
            } else {
                assert(s[s.len() - 1] == header_value(s)[i]);
            }
        }
    }
}

proof fn lemma_split_pieces(s: Seq<char>, c: char, start: int, i: int)
    requires
        0 <= start <= i <= s.len(),
        forall|k: int| start <= k < i ==> s[k] != c,
    ensures
        forall|p: int|
            0 <= p < text::split_from(s, c, start, i).len() ==> !(#[trigger] text::split_from(
                s,
                c,
                start,
                i,
            )[p]).contains(c),
    decreases s.len() - i,
{
    let all = text::split_from(s, c, start, i);
    if i >= s.len() {
        assert(all =~= seq![s.subrange(start, s.len() as int)]);
        assert(!s.subrange(start, s.len() as int).contains(c));
        assert forall|p: int| 0 <= p < all.len() implies !(#[trigger] all[p]).contains(c) by {
            assert(p == 0);
        }
    } else if s[i] == c {
        lemma_split_pieces(s, c, i + 1, i + 1);
        let rest = text::split_from(s, c, i + 1, i + 1);
        assert(!s.subrange(start, i).contains(c));
        assert forall|p: int| 0 <= p < all.len() implies !(#[trigger] all[p]).contains(c) by {
            if p > 0 {
                assert(all[p] == rest[p - 1]);
            } else {
                assert(all[p] == s.subrange(start, i));
            }
        }
    } else {
        lemma_split_pieces(s, c, start, i + 1);
        assert(all == text::split_from(s, c, start, i + 1));
    }
}

proof fn lemma_trim_elements(s: Seq<char>)
    ensures
        forall|i: int| 0 <= i < text::trim_start(s).len() ==> s.contains(#[trigger] text::trim_start(s)[i]),
        forall|i: int| 0 <= i < text::trim_end(s).len() ==> s.contains(#[trigger] text::trim_end(s)[i]),
    decreases s.len(),
{
    if s.len() > 0 && text::is_white(s[0]) {
        let fewer = s.skip(1);
        lemma_trim_elements(fewer);
        assert forall|i: int| 0 <= i < text::trim_start(s).len() implies s.contains(
            #[trigger] text::trim_start(s)[i],
        ) by {
            let k = choose|k: int| 0 <= k < fewer.len() && fewer[k] == text::trim_start(fewer)[i];
            assert(s[k + 1] == text::trim_start(s)[i]);
        }
    }
    if s.len() > 0 && text::is_white(s.last()) {
        let fewer = s.drop_last();
        lemma_trim_elements(fewer);
        assert forall|i: int| 0 <= i < text::trim_end(s).len() implies s.contains(
            #[trigger] text::trim_end(s)[i],
        ) by {
            let k = choose|k: int| 0 <= k < fewer.len() && fewer[k] == text::trim_end(fewer)[i];
            assert(s[k] == text::trim_end(s)[i]);
        }
    }
}

/// Whatever a cookie header holds, no piece of it can end its line or set an
/// attribute: what FFmpeg is given for it holds neither a line break nor a `;`
/// before the scope that this program appends.
pub proof fn law_a_cookie_cannot_widen_its_scope(header: Seq<char>, p: int)
    requires
        0 <= p < text::split(header, ';').len(),
    ensures
        is_one_value(header_value(text::trim(text::split(header, ';')[p]))),
{
    let piece = text::split(header, ';')[p];
    let t = text::trim(piece);
    lemma_split_pieces(header, ';', 0, 0);
    lemma_trim_elements(piece);
    lemma_trim_elements(text::trim_start(piece));
    lemma_header_value(t);
    assert forall|i: int| 0 <= i < header_value(t).len() implies !text::is_ascii_control(
        #[trigger] header_value(t)[i],
    ) && header_value(t)[i] != ';' by {
        let a = choose|a: int| 0 <= a < t.len() && t[a] == header_value(t)[i];
        let m = text::trim_start(piece);
        assert(m.contains(t[a]));
        let b = choose|b: int| 0 <= b < m.len() && m[b] == t[a];
        assert(piece.contains(m[b]));
        let c = choose|c: int| 0 <= c < piece.len() && piece[c] == m[b];
        assert(!text::split_from(header, ';', 0, 0)[p].contains(';'));
    }
}

/// Whatever the user agent and the referring page hold, neither can end its
/// header: no control character is left in either.
pub proof fn law_a_header_cannot_be_ended(s: Seq<char>)
    ensures
        forall|i: int|
            0 <= i < header_value(s).len() ==> !text::is_ascii_control(#[trigger] header_value(s)[i]),
{
    lemma_header_value(s);
}

// ---------------------------------------------------------------------------
// Media in a page
// ---------------------------------------------------------------------------

/// A page in which the escapes that scripts and attributes use are undone.
pub open spec fn normalized(html: Seq<char>) -> Seq<char> {
    text::replace(
        text::replace(text::replace(text::replace(html, "\\\\"@, "\\"@), "\\/"@, "/"@), "\\u0026"@, "&"@),
        "&amp;"@,
        "&"@,
    )
}

fn normalize(html: &str) -> (r: String)
    ensures
        r@ == normalized(html@),
{
    proof {
        reveal_strlit("\\\\");
        reveal_strlit("\\/");
        reveal_strlit("\\u0026");
        reveal_strlit("&amp;");
    }
    let a = text::replaced(html, "\\\\", "\\");
    let b = text::replaced(a.as_str(), "\\/", "/");
    let c = text::replaced(b.as_str(), "\\u0026", "&");
    text::replaced(c.as_str(), "&amp;", "&")
}

/// The attributes and variables in which a page mentions media.
pub const ATTRIBUTE_PATTERN: &'static str =
    "(?is)(?:src|href|data-src|data-video|data-hls|data-url|data-file|file|video_url)\\s*=\\s*[\"']([^\"']+)[\"']";

/// A URL anywhere in a page.
pub const RAW_URL_PATTERN: &'static str = "(?i)https?://[^\"'\\s<>]+";

/// What a group of a regular expression of the `regex` crate captures at each
/// of its matches in a text, from left to right; `None` at a match in which the
/// group takes no part, and `None` altogether if the expression is no valid one.
pub uninterp spec fn regex_captures(
    pattern: Seq<char>,
    group: nat,
    text: Seq<char>,
) -> Option<Seq<Option<Seq<char>>>>;

/// The views of a sequence of optional strings.
pub open spec fn opt_texts(v: Seq<Option<String>>) -> Seq<Option<Seq<char>>> {
    Seq::new(v.len(), |i: int| text::opt_text(v[i]))
}

/// `regex::Regex::new`, then `captures_iter` of the expression over a text and
/// `get` on each of its matches. The contract names the result.
#[verifier::external_body]
fn captures(pattern: &str, group: usize, text: &str) -> (r: Option<Vec<Option<String>>>)
    ensures
        match r {
            Some(v) => regex_captures(pattern@, group as nat, text@) == Some(opt_texts(v@)),
            None => regex_captures(pattern@, group as nat, text@) is None,
        },
{
    let regex = regex::Regex::new(pattern).ok()?;
    Some(
        regex.captures_iter(text).map(
            |found| found.get(group).map(|part| part.as_str().to_string()),
        ).collect(),
    )
}

/// What was captured, without the matches that captured nothing.
pub open spec fn captured(found: Option<Seq<Option<Seq<char>>>>) -> Seq<Seq<char>> {
    match found {
        Some(v) => present(v),
        None => Seq::empty(),
    }
}

pub open spec fn present(v: Seq<Option<Seq<char>>>) -> Seq<Seq<char>>
    decreases v.len(),
{
    if v.len() == 0 {
        Seq::empty()
    } else {
        match v.last() {
            Some(s) => present(v.drop_last()).push(s),
            None => present(v.drop_last()),
        }
    }
}

/// The views of what was captured.
pub open spec fn capture_texts(found: Option<Vec<Option<String>>>) -> Option<
    Seq<Option<Seq<char>>>,
> {
    match found {
        Some(v) => Some(opt_texts(v@)),
        None => None,
    }
}

fn push_captured(list: &mut Vec<String>, found: &Option<Vec<Option<String>>>)
    ensures
        text::texts(final(list)@) == text::texts(old(list)@) + captured(capture_texts(*found)),
{
    let ghost before = text::texts(list@);
    match found {
        Some(v) => {
            let mut i: usize = 0;
            assert(opt_texts(v@).take(0) =~= Seq::empty());
            assert(before + Seq::<Seq<char>>::empty() =~= before);
            while i < v.len()
                invariant
                    i <= v@.len(),
                    text::texts(list@) == before + present(opt_texts(v@).take(i as int)),
                decreases v@.len() - i,
            {
                let ghost next = opt_texts(v@).take(i + 1);
                proof {
                    assert(next.drop_last() =~= opt_texts(v@).take(i as int));
                    assert(next.last() == text::opt_text(v@[i as int]));
                }
                if let Some(s) = &v[i] {
                    text::push_text(list, s.as_str());
                }
                i = i + 1;
                assert(text::texts(list@) =~= before + present(next));
            }
            assert(opt_texts(v@).take(i as int) =~= opt_texts(v@));
        },
        None => {
            assert(before + Seq::<Seq<char>>::empty() =~= before);
        },
    }
}

/// Gather what was captured in a page: the values of attributes, then the URLs
/// that stand in it.
pub fn read_candidates(
    attributes: &Option<Vec<Option<String>>>,
    raw: &Option<Vec<Option<String>>>,
) -> (r: Vec<String>)
    ensures
        text::texts(r@) == captured(capture_texts(*attributes)) + captured(capture_texts(*raw)),
{
    let mut candidates: Vec<String> = Vec::new();
    assert(text::texts(candidates@) =~= Seq::empty());
    push_captured(&mut candidates, attributes);
    push_captured(&mut candidates, raw);
    assert(text::texts(candidates@) =~= captured(capture_texts(*attributes)) + captured(
        capture_texts(*raw),
    ));
    candidates
}

/// What a page may mean by media: the values of attributes, then the URLs that
/// stand in it.
pub open spec fn page_candidates(html: Seq<char>) -> Seq<Seq<char>> {
    captured(regex_captures(ATTRIBUTE_PATTERN@, 1, normalized(html))) + captured(
        regex_captures(RAW_URL_PATTERN@, 0, normalized(html)),
    )
}

/// A candidate without white space around it and separators behind it.
pub open spec fn bare_candidate(raw: Seq<char>) -> Seq<char> {
    text::trim_end_of(text::trim(raw), ";,"@)
}

/// The URL that a candidate in a page means. One that begins with `//` takes
/// over the scheme of the page.
pub open spec fn candidate_url(raw: Seq<char>, page: UrlView) -> Option<UrlView> {
    let bare = bare_candidate(raw);
    if text::starts_with(bare, "//"@) {
        match web::url_parse(page.scheme + ":"@ + bare) {
            Ok(url) => Some(url),
            Err(_) => None,
        }
    } else {
        web::url_join(page.text, bare)
    }
}

/// How a candidate is read: as a URL of its own, or from the page it is in.
#[derive(Debug)]
pub enum Reference {
    Whole(String),
    Relative(String),
}

/// Decide how a candidate in a page is read.
pub fn read_reference(raw: &str, page: &Url) -> (r: Reference)
    ensures
        match r {
            Reference::Whole(s) => text::starts_with(bare_candidate(raw@), "//"@) && s@
                == page@.scheme + ":"@ + bare_candidate(raw@),
            Reference::Relative(s) => !text::starts_with(bare_candidate(raw@), "//"@) && s@
                == bare_candidate(raw@),
        },
{
    let bare = text::trimmed_end_of(text::trimmed(raw).as_str(), ";,");
    if text::has_prefix(bare.as_str(), "//") {
        Reference::Whole(text::join3(page.scheme.as_str(), ":", bare.as_str()))
    } else {
        Reference::Relative(bare)
    }
}

fn resolve_candidate(raw: &str, page: &Url) -> (r: Option<Url>)
    ensures
        web::opt_url(r) == candidate_url(raw@, page@),
        r matches Some(url) ==> web::begins_with_scheme(url@),
{
    match read_reference(raw, page) {
        Reference::Whole(whole) => match web::parse(whole.as_str()) {
            Ok(url) => Some(url),
            Err(_) => None,
        },
        Reference::Relative(bare) => web::join_url(page, bare.as_str()),
    }
}

/// Whether a URL can be downloaded from and points at media.
pub open spec fn is_offer(url: UrlView) -> bool {
    (url.scheme == "http"@ || url.scheme == "https"@) && kind_of(url.path) is Some
}

/// Whether a URL is among some.
pub open spec fn has_url(s: Seq<UrlView>, url: UrlView) -> bool {
    exists|i: int| 0 <= i < s.len() && (#[trigger] s[i]).text == url.text
}

/// The media among some URLs, each once, in the order in which they first occur.
pub open spec fn distinct_offers(found: Seq<Option<UrlView>>) -> Seq<UrlView>
    decreases found.len(),
{
    if found.len() == 0 {
        Seq::empty()
    } else {
        let before = distinct_offers(found.drop_last());
        match found.last() {
            Some(url) => if is_offer(url) && !has_url(before, url) {
                before.push(url)
            } else {
                before
            },
            None => before,
        }
    }
}

/// The URLs that are playlists, or those that are not, in their order.
pub open spec fn of_kind(s: Seq<UrlView>, playlists: bool) -> Seq<UrlView>
    decreases s.len(),
{
    if s.len() == 0 {
        Seq::empty()
    } else if is_playlist_path(s.last().path) == playlists {
        of_kind(s.drop_last(), playlists).push(s.last())
    } else {
        of_kind(s.drop_last(), playlists)
    }
}

/// What a page offers: its media, playlists first, without the segments of the
/// streams that it lists.
pub open spec fn page_offer(found: Seq<Option<UrlView>>) -> Seq<UrlView> {
    let all = collapsed(distinct_offers(found));
    of_kind(all, true) + of_kind(all, false)
}

fn contains_url(urls: &Vec<Url>, url: &Url) -> (r: bool)
    ensures
        r == has_url(web::url_views(urls@), url@),
{
    let mut i: usize = 0;
    while i < urls.len()
        invariant
            i <= urls@.len(),
            forall|k: int| 0 <= k < i ==> (#[trigger] web::url_views(urls@)[k]).text != url@.text,
        decreases urls@.len() - i,
    {
        if web::same_url(&urls[i], url) {
            assert(web::url_views(urls@)[i as int].text == url@.text);
            return true;
        }
        i = i + 1;
    }
    false
}

fn push_of_kind(out: &mut Vec<Url>, urls: &Vec<Url>, playlists: bool)
    ensures
        web::url_views(final(out)@) == web::url_views(old(out)@) + of_kind(web::url_views(urls@), playlists),
{
    let ghost before = web::url_views(out@);
    let ghost all = web::url_views(urls@);
    let mut i: usize = 0;
    assert(all.take(0) =~= Seq::empty());
    assert(before + Seq::<UrlView>::empty() =~= before);
    while i < urls.len()
        invariant
            all == web::url_views(urls@),
            i <= urls@.len(),
            web::url_views(out@) == before + of_kind(all.take(i as int), playlists),
        decreases urls@.len() - i,
    {
        let ghost next = all.take(i + 1);
        proof {
            assert(next.drop_last() =~= all.take(i as int));
            assert(next.last() == urls@[i as int]@);
        }
        if is_playlist_url(&urls[i]) == playlists {
            let url = urls[i].copy();
            let ghost so_far = out@;
            out.push(url);
            assert(web::url_views(out@) =~= web::url_views(so_far).push(url@));
        }
        i = i + 1;
        assert(web::url_views(out@) =~= before + of_kind(next, playlists));
    }
    assert(all.take(i as int) =~= all);
}

/// Choose what a page offers among the URLs that it mentions.
pub fn select_offers(found: &Vec<Option<Url>>) -> (r: Vec<Url>)
    requires
        forall|i: int|
            0 <= i < found@.len() ==> (#[trigger] found@[i] matches Some(url)
                ==> web::begins_with_scheme(url@)),
    ensures
        web::url_views(r@) == page_offer(web::opt_url_views(found@)),
{
    let ghost views = web::opt_url_views(found@);
    let mut urls: Vec<Url> = Vec::new();
    let mut i: usize = 0;
    assert(views.take(0) =~= Seq::empty());
    assert(web::url_views(urls@) =~= Seq::empty());
    while i < found.len()
        invariant
            forall|k: int|
                0 <= k < found@.len() ==> (#[trigger] found@[k] matches Some(url)
                    ==> web::begins_with_scheme(url@)),
            views == web::opt_url_views(found@),
            i <= found@.len(),
            web::url_views(urls@) == distinct_offers(views.take(i as int)),
            forall|k: int|
                0 <= k < urls@.len() ==> web::has_bounded_nesting((#[trigger] urls@[k])@.text),
        decreases found@.len() - i,
    {
        proof {
            assert(views.take(i + 1).drop_last() =~= views.take(i as int));
            assert(views.take(i + 1).last() == web::opt_url(found@[i as int]));
        }
        if let Some(url) = &found[i] {
            if (text::same(url.scheme.as_str(), "http") || text::same(url.scheme.as_str(), "https"))
                && media_kind(url).is_some() && !contains_url(&urls, url) {
                let copy = url.copy();
                let ghost before = urls@;
                proof {
                    web::lemma_web_is_bounded(url@);
                }
                urls.push(copy);
                assert(web::url_views(urls@) =~= web::url_views(before).push(copy@));
            }
        }
        i = i + 1;
    }
    assert(views.take(i as int) =~= views);
    collapse_segments(&mut urls);
    let mut out: Vec<Url> = Vec::new();
    assert(web::url_views(out@) =~= Seq::empty());
    push_of_kind(&mut out, &urls, true);
    push_of_kind(&mut out, &urls, false);
    assert(web::url_views(out@) =~= page_offer(views));
    out
}

proof fn lemma_distinct_offers(found: Seq<Option<UrlView>>)
    ensures
        all_offers(distinct_offers(found)),
        all_distinct(distinct_offers(found)),
    decreases found.len(),
{
    if found.len() > 0 {
        lemma_distinct_offers(found.drop_last());
    }
}

/// Whether every URL is media that can be fetched.
pub open spec fn all_offers(s: Seq<UrlView>) -> bool {
    forall|i: int| 0 <= i < s.len() ==> is_offer(#[trigger] s[i])
}

/// Whether no URL stands twice.
pub open spec fn all_distinct(s: Seq<UrlView>) -> bool {
    forall|i: int, j: int| 0 <= i < j < s.len() ==> (#[trigger] s[i]).text != (#[trigger] s[j]).text
}

proof fn lemma_uncovered_distinct(s: Seq<UrlView>, all: Seq<UrlView>)
    requires
        all_offers(s),
        all_distinct(s),
    ensures
        all_offers(uncovered(s, all)),
        all_distinct(uncovered(s, all)),
    decreases s.len(),
{
    if s.len() > 0 {
        let fewer = s.drop_last();
        assert(forall|i: int| 0 <= i < fewer.len() ==> fewer[i] == #[trigger] s[i]);
        lemma_uncovered_distinct(fewer, all);
        lemma_uncovered(fewer, all);
        let before = uncovered(fewer, all);
        assert forall|i: int| 0 <= i < before.len() implies (#[trigger] before[i]).text
            != s.last().text by {
            let k = choose|k: int| 0 <= k < fewer.len() && fewer[k] == before[i];
            assert(s[k].text != s[s.len() - 1].text);
        }
    }
}

proof fn lemma_of_kind(s: Seq<UrlView>, playlists: bool)
    requires
        all_offers(s),
        all_distinct(s),
    ensures
        all_offers(of_kind(s, playlists)),
        all_distinct(of_kind(s, playlists)),
        forall|i: int|
            0 <= i < of_kind(s, playlists).len() ==> is_playlist_path(
                (#[trigger] of_kind(s, playlists)[i]).path,
            ) == playlists && s.contains(of_kind(s, playlists)[i]),
    decreases s.len(),
{
    if s.len() > 0 {
        let fewer = s.drop_last();
        assert(forall|i: int| 0 <= i < fewer.len() ==> fewer[i] == #[trigger] s[i]);
        lemma_of_kind(fewer, playlists);
        let before = of_kind(fewer, playlists);
        assert forall|i: int| 0 <= i < before.len() implies (#[trigger] before[i]).text
            != s.last().text && s.contains(before[i]) by {
            let k = choose|k: int| 0 <= k < fewer.len() && fewer[k] == before[i];
            assert(s[k].text != s[s.len() - 1].text);
        }
        assert(s.contains(s[s.len() - 1]));
    }
}

/// Whatever a page mentions, what it offers is media that can be fetched, each
/// once, and every playlist comes before everything that is none.
pub proof fn law_a_page_offers_media_once(found: Seq<Option<UrlView>>)
    ensures
        all_offers(page_offer(found)),
        all_distinct(page_offer(found)),
        forall|i: int, j: int|
            0 <= i < j < page_offer(found).len() && is_playlist_path(
                (#[trigger] page_offer(found)[j]).path,
            ) ==> is_playlist_path((#[trigger] page_offer(found)[i]).path),
{
    let distinct = distinct_offers(found);
    let all = collapsed(distinct);
    lemma_distinct_offers(found);
    lemma_uncovered_distinct(distinct, distinct);
    lemma_of_kind(all, true);
    lemma_of_kind(all, false);
    let first = of_kind(all, true);
    let second = of_kind(all, false);
    let offer = page_offer(found);
    assert forall|i: int, j: int| 0 <= i < j < offer.len() implies (#[trigger] offer[i]).text != (
    #[trigger] offer[j]).text by {
        if i < first.len() && j >= first.len() {
            let a = choose|a: int| 0 <= a < all.len() && all[a] == offer[i];
            let b = choose|b: int| 0 <= b < all.len() && all[b] == offer[j];
            assert(first[i] == offer[i]);
            assert(second[j - first.len()] == offer[j]);
            assert(all[a].text != all[b].text);
        } else if i < first.len() {
            assert(first[i] == offer[i] && first[j] == offer[j]);
        } else {
            assert(second[i - first.len()] == offer[i] && second[j - first.len()] == offer[j]);
        }
    }
    assert forall|i: int| 0 <= i < offer.len() implies is_offer(#[trigger] offer[i]) by {
        if i < first.len() {
            assert(first[i] == offer[i]);
        } else {
            assert(second[i - first.len()] == offer[i]);
        }
    }
    assert forall|i: int, j: int|
        0 <= i < j < offer.len() && is_playlist_path((#[trigger] offer[j]).path) implies is_playlist_path(
        (#[trigger] offer[i]).path,
    ) by {
        if j >= first.len() {
            assert(second[j - first.len()] == offer[j]);
        } else {
            assert(first[i] == offer[i]);
        }
    }
}

/// The URLs that the candidates in a page mean.
pub open spec fn page_urls(html: Seq<char>, page: UrlView) -> Seq<Option<UrlView>> {
    Seq::new(
        page_candidates(html).len(),
        |i: int| candidate_url(page_candidates(html)[i], page),
    )
}

/// The media that a page offers.
pub fn extract_media_urls(html: &str, page: &Url) -> (r: Vec<Url>)
    ensures
        web::url_views(r@) == page_offer(page_urls(html@, page@)),
{
    let clean = normalize(html);
    let attributes = captures(ATTRIBUTE_PATTERN, 1, clean.as_str());
    let raw = captures(RAW_URL_PATTERN, 0, clean.as_str());
    let candidates = read_candidates(&attributes, &raw);
    let mut found: Vec<Option<Url>> = Vec::new();
    let mut i: usize = 0;
    while i < candidates.len()
        invariant
            text::texts(candidates@) == page_candidates(html@),
            i <= candidates@.len(),
            found@.len() == i,
            forall|j: int|
                0 <= j < i ==> (#[trigger] found@[j] matches Some(url) ==> web::begins_with_scheme(
                    url@,
                )),
            forall|j: int|
                0 <= j < i ==> #[trigger] web::opt_url_views(found@)[j] == candidate_url(
                    page_candidates(html@)[j],
                    page@,
                ),
        decreases candidates@.len() - i,
    {
        assert(page_candidates(html@)[i as int] == candidates@[i as int]@);
        let url = resolve_candidate(candidates[i].as_str(), page);
        let ghost before = found@;
        found.push(url);
        assert forall|j: int| 0 <= j < i + 1 implies #[trigger] web::opt_url_views(found@)[j]
            == candidate_url(page_candidates(html@)[j], page@) by {
            if j < i {
                assert(web::opt_url_views(found@)[j] == web::opt_url_views(before)[j]);
            }
        }
        i = i + 1;
    }
    assert(text::texts(candidates@).len() == candidates@.len());
    assert(web::opt_url_views(found@) =~= page_urls(html@, page@));
    select_offers(&found)
}

/// Media, and the page that it was found in.
#[derive(Debug)]
pub struct ResolvedMedia {
    pub url: Url,
    pub referer: Option<Url>,
    pub user_agent: String,
}

/// All media that a source offers, and the page that it was found in.
#[derive(Debug)]
pub struct SourceMedia {
    pub urls: Vec<Url>,
    pub referer: Option<Url>,
}

impl SourceMedia {
    /// The page, or the media itself if that was given.
    pub fn source(&self) -> (r: &Url)
        requires
            self.referer is None ==> self.urls@.len() > 0,
        ensures
            r@ == match self.referer {
                Some(page) => page@,
                None => self.urls@[0]@,
            },
    {
        match &self.referer {
            Some(page) => page,
            None => &self.urls[0],
        }
    }
}

/// A URL that was given: media itself, or a page to look for media in.
#[derive(Debug)]
pub enum Source {
    Media(Url),
    Page(Url),
}

/// Tell media from a page.
pub fn classify_url(url: Url) -> (r: Source)
    ensures
        match r {
            Source::Media(u) => u@ == url@ && kind_of(url@.path) is Some,
            Source::Page(u) => u@ == url@ && kind_of(url@.path) is None,
        },
{
    if media_kind(&url).is_some() {
        Source::Media(url)
    } else {
        Source::Page(url)
    }
}

/// Read a URL that was given.
pub fn classify_source(raw: &str) -> (r: DownerResult<Source>)
    ensures
        match r {
            Ok(Source::Media(url)) => output::url_verdict(raw@, web::url_parse(raw@)) == Ok::<
                UrlView,
                Seq<char>,
            >(url@) && kind_of(url@.path) is Some,
            Ok(Source::Page(url)) => output::url_verdict(raw@, web::url_parse(raw@)) == Ok::<
                UrlView,
                Seq<char>,
            >(url@) && kind_of(url@.path) is None,
            Err(DownerError::InvalidUrl(reason)) => output::url_verdict(raw@, web::url_parse(raw@)) == Err::<
                UrlView,
                Seq<char>,
            >(reason@),
            Err(_) => false,
        },
{
    match output::validate_url(raw) {
        Ok(url) => Ok(classify_url(url)),
        Err(error) => Err(error),
    }
}

/// What a source offers that is media itself.
pub fn direct_media(url: Url) -> (r: SourceMedia)
    ensures
        web::url_views(r.urls@) == seq![url@],
        r.referer is None,
{
    let mut urls: Vec<Url> = Vec::new();
    urls.push(url);
    assert(web::url_views(urls@) =~= seq![url@]);
    SourceMedia { urls, referer: None }
}

/// What a page offers, which is an error if it is nothing.
pub fn media_in_page(html: &str, page: Url) -> (r: DownerResult<SourceMedia>)
    ensures
        match r {
            Ok(source) => web::url_views(source.urls@) == page_offer(page_urls(html@, page@))
                && source.urls@.len() > 0 && web::opt_url(source.referer) == Some(page@)
                && all_offers(web::url_views(source.urls@)),
            Err(DownerError::MediaNotFound(where_)) => page_offer(page_urls(html@, page@)).len()
                == 0 && where_@ == page@.text,
            Err(_) => false,
        },
{
    let urls = extract_media_urls(html, &page);
    assert(web::url_views(urls@).len() == urls@.len());
    if urls.len() == 0 {
        return Err(DownerError::MediaNotFound(text::owned(page.as_str())));
    }
    proof {
        law_a_page_offers_media_once(page_urls(html@, page@));
    }
    Ok(SourceMedia { urls, referer: Some(page) })
}

/// The media that is downloaded from a source unless another is asked for: the
/// first that it offers.
pub fn resolve_media(source: SourceMedia, user_agent: &str) -> (r: ResolvedMedia)
    requires
        source.urls@.len() > 0,
    ensures
        r.url@ == source.urls@[0]@,
        web::opt_url(r.referer) == web::opt_url(source.referer),
        r.user_agent@ == user_agent@,
{
    ResolvedMedia {
        url: source.urls[0].copy(),
        referer: source.referer,
        user_agent: text::owned(user_agent),
    }
}

/// Why a page was not served: `shown` is the status in words, and `challenged`
/// whether the server says that it wants to see a browser first.
pub fn source_refusal(status: u16, challenged: bool, shown: &str) -> (r: DownerError)
    ensures
        r matches DownerError::SourceFetchFailed { status: s, message } && s == Some(status)
            && message@ == (if status == 403 && challenged {
            CHALLENGE_MESSAGE@
        } else {
            "server denied the source page with "@ + shown@
        }),
{
    let message = if status == 403 && challenged {
        text::owned(CHALLENGE_MESSAGE)
    } else {
        text::join2("server denied the source page with ", shown)
    };
    DownerError::SourceFetchFailed { status: Some(status), message }
}

/// Why a playlist was not served.
pub fn playlist_refusal(status: u16, challenged: bool, shown: &str) -> (r: PlaylistProblem)
    ensures
        match r {
            PlaylistProblem::Challenged => status == 403 && challenged,
            PlaylistProblem::Unreachable(reason) => !(status == 403 && challenged) && reason@
                == "the server answered "@ + shown@,
            _ => false,
        },
{
    if status == 403 && challenged {
        PlaylistProblem::Challenged
    } else {
        PlaylistProblem::Unreachable(text::join2("the server answered ", shown))
    }
}

/// A request that came to nothing, in words that do not repeat its URL.
pub fn request_failure(timeout: bool, connect: bool, redirect: bool) -> (r: &'static str)
    ensures
        r@ == (if timeout {
            "the request timed out"@
        } else if connect {
            "the server could not be reached"@
        } else if redirect {
            "too many redirects"@
        } else {
            "the request failed"@
        }),
{
    if timeout {
        "the request timed out"
    } else if connect {
        "the server could not be reached"
    } else if redirect {
        "too many redirects"
    } else {
        "the request failed"
    }
}

} // verus!
