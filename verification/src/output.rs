//! Where a download is written, and under which name.

use vstd::prelude::*;
use crate::{paths, text, web};
use crate::error::{DownerError, DownerResult};
use crate::web::{Url, UrlView};

verus! {

/// The longest file name that is made out of a page's title.
pub const MAX_TITLE_CHARS: usize = 80;

/// How many names are tried before a collision is an error.
pub const MAX_RENAME_ATTEMPTS: u32 = 1000;

/// The name of a download that nothing names.
pub const DEFAULT_STEM: &'static str = "video";

pub const NO_DEFAULT_DIRECTORY: &'static str =
    "no download directory is configured and no default could be found; set one in the extension's Settings page, or pass --dir";

/// What happens when the output is already there.
#[derive(Debug, Clone, Copy, PartialEq, Eq, Structural)]
pub enum OnConflict {
    Fail,
    Rename,
    Overwrite,
}

impl Default for OnConflict {
    fn default() -> (r: OnConflict)
        ensures
            r == OnConflict::Rename,
    {
        OnConflict::Rename
    }
}

/// What is known about a download besides its URL.
#[derive(Debug)]
pub struct NamingHints {
    pub title: Option<String>,
}

impl NamingHints {
    pub fn new(title: Option<String>) -> (r: NamingHints)
        ensures
            text::opt_text(r.title) == text::opt_text(title),
    {
        NamingHints { title }
    }
}

impl Default for NamingHints {
    fn default() -> (r: NamingHints)
        ensures
            r.title is None,
    {
        NamingHints { title: None }
    }
}

/// Where a download is written.
#[derive(Debug)]
pub struct OutputTarget {
    pub path: String,
    /// Whether FFmpeg may replace what is there.
    pub overwrite: bool,
    /// Whether the file there is an empty one that this program made.
    pub reserved: bool,
}

// ---------------------------------------------------------------------------
// The URL
// ---------------------------------------------------------------------------

/// Whether something stands between `://` and the next `/`, `?` or `#`.
pub open spec fn has_authority(raw: Seq<char>) -> bool {
    match text::split_once(raw, "://"@) {
        Some(parts) => parts.1.len() > 0 && parts.1[0] != '/' && parts.1[0] != '?' && parts.1[0]
            != '#',
        None => false,
    }
}

/// What becomes of a text that was parsed as a URL: a URL to download from, or
/// the reason why it is none.
pub open spec fn url_verdict(raw: Seq<char>, parsed: Result<UrlView, Seq<char>>) -> Result<
    UrlView,
    Seq<char>,
> {
    match parsed {
        Err(reason) => Err(reason),
        Ok(url) => if url.scheme == "http"@ || url.scheme == "https"@ {
            if has_authority(raw) && url.host is Some && url.host->0.len() > 0 {
                Ok(url)
            } else {
                Err("URL has no host"@)
            }
        } else {
            Err(
                "unsupported scheme "@ + text::debug_quoted(url.scheme) + "; use http:// or https://"@,
            )
        },
    }
}

fn has_nonempty_authority(raw: &str) -> (r: bool)
    ensures
        r == has_authority(raw@),
{
    match text::split_first(raw, "://") {
        Some(parts) => {
            let v = text::chars_of(parts.1.as_str());
            v.len() > 0 && v[0] != '/' && v[0] != '?' && v[0] != '#'
        },
        None => false,
    }
}

/// Hold a parsed URL to what can be downloaded: HTTP or HTTPS, from a host that
/// the text itself names.
pub fn checked_url(raw: &str, parsed: Result<Url, String>) -> (r: DownerResult<Url>)
    ensures
        match r {
            Ok(url) => url_verdict(raw@, web::url_result(parsed)) == Ok::<UrlView, Seq<char>>(url@)
                && parsed == Ok::<Url, String>(url),
            Err(DownerError::InvalidUrl(reason)) => url_verdict(raw@, web::url_result(parsed)) == Err::<
                UrlView,
                Seq<char>,
            >(reason@),
            Err(_) => false,
        },
{
    let url = match parsed {
        Ok(u) => u,
        Err(reason) => {
            return Err(DownerError::InvalidUrl(reason));
        },
    };
    if text::same(url.scheme.as_str(), "http") || text::same(url.scheme.as_str(), "https") {
        let named = match &url.host {
            Some(host) => text::chars_of(host.as_str()).len() > 0,
            None => false,
        };
        if has_nonempty_authority(raw) && named {
            Ok(url)
        } else {
            Err(DownerError::InvalidUrl(text::owned("URL has no host")))
        }
    } else {
        let scheme = text::debug_text(url.scheme.as_str());
        Err(
            DownerError::InvalidUrl(
                text::join3("unsupported scheme ", scheme.as_str(), "; use http:// or https://"),
            ),
        )
    }
}

/// Read a URL to download from.
pub fn validate_url(raw: &str) -> (r: DownerResult<Url>)
    ensures
        match r {
            Ok(url) => url_verdict(raw@, web::url_parse(raw@)) == Ok::<UrlView, Seq<char>>(url@)
                && web::begins_with_scheme(url@) && web::has_bounded_nesting(url@.text),
            Err(DownerError::InvalidUrl(reason)) => url_verdict(raw@, web::url_parse(raw@)) == Err::<
                UrlView,
                Seq<char>,
            >(reason@),
            Err(_) => false,
        },
{
    let r = checked_url(raw, web::parse(raw));
    proof {
        if r is Ok {
            web::lemma_web_is_bounded(r->Ok_0@);
        }
    }
    r
}

// ---------------------------------------------------------------------------
// The file name
// ---------------------------------------------------------------------------

/// Names that say nothing about what they name.
pub open spec fn generic_stems() -> Seq<Seq<char>> {
    seq![
        "index"@,
        "playlist"@,
        "master"@,
        "download"@,
        "video"@,
        "media"@,
    ]
}

fn generic_stems_list() -> (r: Vec<&'static str>)
    ensures
        text::str_texts(r@) == generic_stems(),
{
    let r = vec![
        "index",
        "playlist",
        "master",
        "download",
        "video",
        "media",
    ];
    assert(text::str_texts(r@) =~= generic_stems());
    r
}

/// Names that Windows keeps for devices.
pub open spec fn device_names() -> Seq<Seq<char>> {
    seq![
        "CON"@,
        "PRN"@,
        "AUX"@,
        "NUL"@,
        "COM1"@,
        "COM2"@,
        "COM3"@,
        "COM4"@,
        "COM5"@,
        "COM6"@,
        "COM7"@,
        "COM8"@,
        "COM9"@,
        "LPT1"@,
        "LPT2"@,
        "LPT3"@,
        "LPT4"@,
        "LPT5"@,
        "LPT6"@,
        "LPT7"@,
        "LPT8"@,
        "LPT9"@,
    ]
}

fn device_names_list() -> (r: Vec<&'static str>)
    ensures
        text::str_texts(r@) == device_names(),
{
    let r = vec![
        "CON",
        "PRN",
        "AUX",
        "NUL",
        "COM1",
        "COM2",
        "COM3",
        "COM4",
        "COM5",
        "COM6",
        "COM7",
        "COM8",
        "COM9",
        "LPT1",
        "LPT2",
        "LPT3",
        "LPT4",
        "LPT5",
        "LPT6",
        "LPT7",
        "LPT8",
        "LPT9",
    ];
    assert(text::str_texts(r@) =~= device_names());
    r
}

/// Whether a character may not stand in a file name.
pub open spec fn is_reserved(c: char) -> bool {
    text::is_control(c) || c == '<' || c == '>' || c == ':' || c == '"' || c == '/' || c == '\\' || c
        == '|' || c == '?' || c == '*'
}

/// A text with each character that may not stand in a file name replaced.
pub open spec fn replaced_reserved(s: Seq<char>) -> Seq<char> {
    Seq::new(
        s.len(),
        |i: int|
            if is_reserved(s[i]) {
                '_'
            } else {
                s[i]
            },
    )
}

/// The characters that no file name begins or ends with.
pub const EDGE_CHARACTERS: &'static str = ". ";

/// Whether a file name is a device, whatever its extension.
pub open spec fn is_device_name(name: Seq<char>) -> bool {
    device_names().contains(text::upper(name.take(text::next_char(name, '.', 0))))
}

/// A text made fit for a file name; empty if nothing of it is left.
pub open spec fn sanitized(s: Seq<char>) -> Seq<char> {
    let t = text::trim_end_of(
        text::trim_start_of(text::trim(replaced_reserved(s)), EDGE_CHARACTERS@),
        EDGE_CHARACTERS@,
    );
    if is_device_name(t) {
        Seq::empty()
    } else {
        t
    }
}

pub fn sanitize_filename(candidate: &str) -> (r: String)
    ensures
        r@ == sanitized(candidate@),
{
    let v = text::chars_of(candidate);
    let mut clean = String::new();
    let mut i: usize = 0;
    while i < v.len()
        invariant
            v@ == candidate@,
            i <= v@.len(),
            clean@ == replaced_reserved(candidate@).take(i as int),
        decreases v@.len() - i,
    {
        let c = v[i];
        if text::control(c) || c == '<' || c == '>' || c == ':' || c == '"' || c == '/' || c == '\\' || c
            == '|' || c == '?' || c == '*' {
            clean.push('_');
        } else {
            clean.push(c);
        }
        i = i + 1;
        assert(clean@ =~= replaced_reserved(candidate@).take(i as int));
    }
    assert(replaced_reserved(candidate@).take(i as int) =~= replaced_reserved(candidate@));
    let t = text::trimmed(clean.as_str());
    let u = text::trimmed_start_of(t.as_str(), EDGE_CHARACTERS);
    let w = text::trimmed_end_of(u.as_str(), EDGE_CHARACTERS);
    if is_windows_device_name(w.as_str()) {
        String::new()
    } else {
        w
    }
}

fn is_windows_device_name(name: &str) -> (r: bool)
    ensures
        r == is_device_name(name@),
{
    let end = text::index_of(name, '.');
    let stem = text::slice(name, 0, end);
    assert(stem@ =~= name@.take(end as int));
    let up = text::to_ascii_upper(stem.as_str());
    text::is_one_of(up.as_str(), &device_names_list())
}

/// Whether a stem says nothing about what it names.
pub open spec fn generic_stem(stem: Seq<char>) -> bool {
    let t = text::lower(text::trim(stem));
    t.len() == 0 || generic_stems().contains(t) || text::all_digits(t)
}

pub fn is_generic_stem(stem: &str) -> (r: bool)
    ensures
        r == generic_stem(stem@),
{
    let t = text::to_ascii_lower(text::trimmed(stem).as_str());
    let v = text::chars_of(t.as_str());
    if v.len() == 0 || text::is_one_of(t.as_str(), &generic_stems_list()) {
        return true;
    }
    let mut i: usize = 0;
    while i < v.len()
        invariant
            v@ == t@,
            t@ == text::lower(text::trim(stem@)),
            t@.len() > 0,
            !generic_stems().contains(t@),
            i <= v@.len(),
            forall|k: int| 0 <= k < i ==> text::is_digit(#[trigger] t@[k]),
        decreases v@.len() - i,
    {
        if !('0' <= v[i] && v[i] <= '9') {
            assert(!text::is_digit(t@[i as int]));
            return false;
        }
        i = i + 1;
    }
    true
}

/// A title made into a stem: its words, at most `MAX_TITLE_CHARS` characters of
/// them, fit for a file name; `None` if nothing is left.
pub open spec fn title_stem(title: Seq<char>) -> Option<Seq<char>> {
    let whole = text::join(text::words(title), " "@);
    let cut = if whole.len() > MAX_TITLE_CHARS {
        whole.take(MAX_TITLE_CHARS as int)
    } else {
        whole
    };
    if sanitized(cut).len() > 0 {
        Some(sanitized(cut))
    } else {
        None
    }
}

pub fn sanitize_title(candidate: &str) -> (r: Option<String>)
    ensures
        text::opt_text(r) == title_stem(candidate@),
{
    let ws = text::words_of(candidate);
    let whole = text::joined(&ws, " ");
    let v = text::chars_of(whole.as_str());
    let cut = if v.len() > MAX_TITLE_CHARS {
        let c = text::string_of(&v, 0, MAX_TITLE_CHARS);
        assert(c@ =~= whole@.take(MAX_TITLE_CHARS as int));
        c
    } else {
        whole
    };
    let stem = sanitize_filename(cut.as_str());
    if text::chars_of(stem.as_str()).len() > 0 {
        Some(stem)
    } else {
        None
    }
}

/// The last of some pieces that holds anything.
pub open spec fn last_filled(v: Seq<Seq<char>>) -> Option<Seq<char>>
    decreases v.len(),
{
    if v.len() == 0 {
        None
    } else if v.last().len() > 0 {
        Some(v.last())
    } else {
        last_filled(v.drop_last())
    }
}

/// The last segment of a path that holds anything.
pub open spec fn last_segment(path: Seq<char>) -> Option<Seq<char>> {
    if text::starts_with(path, "/"@) {
        last_filled(text::split(path.skip(1), '/'))
    } else {
        None
    }
}

pub fn last_path_segment(path: &str) -> (r: Option<String>)
    ensures
        text::opt_text(r) == last_segment(path@),
{
    proof {
        reveal_strlit("/");
    }
    let rest = match text::without_prefix(path, "/") {
        Some(rest) => rest,
        None => {
            return None;
        },
    };
    let pieces = text::split_at_each(rest.as_str(), '/');
    let mut n: usize = pieces.len();
    assert(text::texts(pieces@).take(n as int) =~= text::texts(pieces@));
    while n > 0
        invariant
            n <= pieces@.len(),
            last_segment(path@) == last_filled(text::texts(pieces@)),
            last_filled(text::texts(pieces@).take(n as int)) == last_filled(text::texts(pieces@)),
        decreases n,
    {
        proof {
            assert(text::texts(pieces@).take(n as int).last() == pieces@[n - 1]@);
            assert(text::texts(pieces@).take(n as int).drop_last() =~= text::texts(pieces@).take(n - 1));
        }
        if text::chars_of(pieces[n - 1].as_str()).len() > 0 {
            return Some(text::owned(pieces[n - 1].as_str()));
        }
        n = n - 1;
    }
    None
}

/// Whether a query parameter names a file.
pub open spec fn names_file(key: Seq<char>) -> bool {
    key == "filename"@ || key == "file"@ || key == "name"@ || key == "title"@
}

/// The value of the first parameter at or after `i` that names a file.
pub open spec fn file_parameter(pairs: Seq<(Seq<char>, Seq<char>)>, i: int) -> Option<Seq<char>>
    decreases pairs.len() - i,
{
    if i < 0 || i >= pairs.len() {
        None
    } else if names_file(pairs[i].0) {
        Some(pairs[i].1)
    } else {
        file_parameter(pairs, i + 1)
    }
}

/// The name a URL suggests: the end of its path, else a parameter of its query.
pub open spec fn suggested_name(
    decoded: Option<Seq<char>>,
    pairs: Seq<(Seq<char>, Seq<char>)>,
) -> Seq<char> {
    match decoded {
        Some(name) => if name.len() > 0 {
            name
        } else {
            match file_parameter(pairs, 0) {
                Some(value) => value,
                None => Seq::empty(),
            }
        },
        None => match file_parameter(pairs, 0) {
            Some(value) => value,
            None => Seq::empty(),
        },
    }
}

/// A suggested name made into the name of a media file: a playlist becomes the
/// file made out of it, and a name without extension gets one.
pub open spec fn media_filename(suggested: Seq<char>) -> Seq<char> {
    let name = if sanitized(suggested).len() > 0 {
        sanitized(suggested)
    } else {
        DEFAULT_STEM@
    };
    match text::rsplit_once(name, '.') {
        Some(parts) => if text::lower(parts.1) == "m3u8"@ {
            parts.0 + ".mp4"@
        } else {
            name
        },
        None => name + ".mp4"@,
    }
}

/// The suggested name, from the decoded end of the path and the parameters of
/// the query.
pub fn choose_name(decoded: &Option<String>, pairs: &Vec<(String, String)>) -> (r: String)
    ensures
        r@ == suggested_name(text::opt_text(*decoded), text::pair_texts(pairs@)),
{
    if let Some(name) = decoded {
        if text::chars_of(name.as_str()).len() > 0 {
            return text::owned(name.as_str());
        }
    }
    let mut i: usize = 0;
    while i < pairs.len()
        invariant
            i <= pairs@.len(),
            text::opt_text(*decoded) matches Some(name) ==> name.len() == 0,
            file_parameter(text::pair_texts(pairs@), i as int) == file_parameter(
                text::pair_texts(pairs@),
                0,
            ),
        decreases pairs@.len() - i,
    {
        let key = pairs[i].0.as_str();
        if text::same(key, "filename") || text::same(key, "file") || text::same(key, "name") || text::same(key, "title") {
            return text::owned(pairs[i].1.as_str());
        }
        i = i + 1;
    }
    String::new()
}

pub fn filename_from(suggested: &str) -> (r: String)
    ensures
        r@ == media_filename(suggested@),
{
    let mut name = sanitize_filename(suggested);
    if text::chars_of(name.as_str()).len() == 0 {
        name = text::owned(DEFAULT_STEM);
    }
    match text::split_last(name.as_str(), '.') {
        Some(parts) => {
            let extension = text::to_ascii_lower(parts.1.as_str());
            if text::same(extension.as_str(), "m3u8") {
                text::join2(parts.0.as_str(), ".mp4")
            } else {
                name
            }
        },
        None => text::join2(name.as_str(), ".mp4"),
    }
}

/// The end of a URL's path, decoded.
pub open spec fn decoded_segment(url: UrlView) -> Option<Seq<char>> {
    match last_segment(url.path) {
        Some(segment) => Some(web::percent_decoded(segment)),
        None => None,
    }
}

/// The query of a URL; empty if it has none.
pub open spec fn query_or_empty(url: UrlView) -> Seq<char> {
    match url.query {
        Some(query) => query,
        None => ""@,
    }
}

pub open spec fn inferred_filename(url: UrlView) -> Seq<char> {
    media_filename(suggested_name(decoded_segment(url), web::query_pairs(query_or_empty(url))))
}

/// The file name that a URL suggests.
pub fn infer_filename(url: &Url) -> (r: String)
    ensures
        r@ == inferred_filename(url@),
{
    let decoded = match last_path_segment(url.path.as_str()) {
        Some(segment) => Some(web::percent_decode(segment.as_str())),
        None => None,
    };
    let pairs = match &url.query {
        Some(query) => web::read_query(query.as_str()),
        None => web::read_query(""),
    };
    let suggested = choose_name(&decoded, &pairs);
    filename_from(suggested.as_str())
}

/// A file name with its stem replaced, where the stem says nothing: by the
/// title, if one is known.
pub open spec fn hinted_filename(inferred: Seq<char>, title: Option<Seq<char>>) -> Seq<char> {
    match text::rsplit_once(inferred, '.') {
        Some(parts) => if parts.0.len() > 0 && generic_stem(parts.0) {
            (match title {
                Some(t) => match title_stem(t) {
                    Some(stem) => stem,
                    None => DEFAULT_STEM@,
                },
                None => DEFAULT_STEM@,
            }) + "."@ + parts.1
        } else {
            inferred
        },
        None => inferred,
    }
}

pub fn name_with_hints(inferred: String, hints: &NamingHints) -> (r: String)
    ensures
        r@ == hinted_filename(inferred@, text::opt_text(hints.title)),
{
    match text::split_last(inferred.as_str(), '.') {
        Some(parts) => {
            if text::chars_of(parts.0.as_str()).len() == 0 || !is_generic_stem(parts.0.as_str()) {
                return inferred;
            }
            let stem = match &hints.title {
                Some(title) => match sanitize_title(title.as_str()) {
                    Some(stem) => stem,
                    None => text::owned(DEFAULT_STEM),
                },
                None => text::owned(DEFAULT_STEM),
            };
            text::join3(stem.as_str(), ".", parts.1.as_str())
        },
        None => inferred,
    }
}

pub fn infer_filename_with_hints(url: &Url, hints: &NamingHints) -> (r: String)
    ensures
        r@ == hinted_filename(inferred_filename(url@), text::opt_text(hints.title)),
{
    name_with_hints(infer_filename(url), hints)
}

// ---------------------------------------------------------------------------
// The path
// ---------------------------------------------------------------------------

/// The directory downloads go to by default: the desktop's own, else the usual
/// one below the home directory.
pub fn resolve_default_download_dir(desktop: Option<String>, home: Option<String>) -> (r: Option<
    String,
>)
    ensures
        text::opt_text(r) == match (text::opt_text(desktop), text::opt_text(home)) {
            (Some(d), _) => Some(d),
            (None, Some(h)) => Some(paths::joined_path(h, "Downloads"@)),
            (None, None) => None,
        },
{
    match desktop {
        Some(d) => Some(d),
        None => match home {
            Some(h) => Some(paths::join_path(h.as_str(), "Downloads")),
            None => None,
        },
    }
}

/// A directory to make, and the path to write to in it.
#[derive(Debug)]
pub struct OutputPlan {
    pub create: Option<String>,
    pub path: String,
}

/// Where a download is written: to the path its user gave, whose parent is made
/// if it has one, or under the name its URL suggests in a directory. The first
/// of the two is the directory to make.
pub open spec fn planned_output(
    url: UrlView,
    output: Option<Seq<char>>,
    parent: Option<Seq<char>>,
    dir: Option<Seq<char>>,
    current_dir: Seq<char>,
    title: Option<Seq<char>>,
) -> Result<(Option<Seq<char>>, Seq<char>), Seq<char>> {
    match output {
        Some(path) => if path.len() == 0 {
            Err("path is empty"@)
        } else {
            Ok(
                (
                    match parent {
                        Some(p) => if p.len() > 0 {
                            Some(p)
                        } else {
                            None
                        },
                        None => None,
                    },
                    path,
                ),
            )
        },
        None => {
            let directory = match dir {
                Some(d) => d,
                None => current_dir,
            };
            if directory.len() == 0 {
                Err("directory is empty"@)
            } else {
                Ok(
                    (
                        Some(directory),
                        paths::joined_path(directory, hinted_filename(inferred_filename(url), title)),
                    ),
                )
            }
        },
    }
}

/// Plan where a download is written.
pub fn resolve_output_path(
    url: &Url,
    output: Option<&str>,
    parent: Option<&str>,
    dir: Option<&str>,
    current_dir: &str,
    hints: &NamingHints,
) -> (r: DownerResult<OutputPlan>)
    ensures
        match planned_output(
            url@,
            text::opt_str(output),
            text::opt_str(parent),
            text::opt_str(dir),
            current_dir@,
            text::opt_text(hints.title),
        ) {
            Ok(plan) => r matches Ok(p) && text::opt_text(p.create) == plan.0 && p.path@ == plan.1,
            Err(why) => r matches Err(DownerError::OutputPath(reason)) && reason@ == why,
        },
{
    match output {
        Some(path) => {
            if text::chars_of(path).len() == 0 {
                return Err(DownerError::OutputPath(text::owned("path is empty")));
            }
            let create = match parent {
                Some(p) => if text::chars_of(p).len() > 0 {
                    Some(text::owned(p))
                } else {
                    None
                },
                None => None,
            };
            Ok(OutputPlan { create, path: text::owned(path) })
        },
        None => {
            let directory = match dir {
                Some(d) => d,
                None => current_dir,
            };
            if text::chars_of(directory).len() == 0 {
                return Err(DownerError::OutputPath(text::owned("directory is empty")));
            }
            let name = infer_filename_with_hints(url, hints);
            Ok(
                OutputPlan {
                    create: Some(text::owned(directory)),
                    path: paths::join_path(directory, name.as_str()),
                },
            )
        },
    }
}

/// What stands at a path.
#[derive(Debug)]
pub enum Found {
    Missing,
    File,
    Directory,
    Unreadable(String),
}

/// Hold a path to what may be written: no directory, and nothing that is there
/// already unless it may be replaced.
pub fn check_output_path(path: &str, found: &Found, overwrite: bool) -> (r: DownerResult<()>)
    ensures
        match r {
            Ok(_) => found is Missing || (found is File && overwrite),
            Err(DownerError::OutputDirectory(p)) => found is Directory && p@ == path@,
            Err(DownerError::OutputExists(p)) => found is File && !overwrite && p@ == path@,
            Err(DownerError::OutputIo(e)) => found matches Found::Unreadable(reason) && e@
                == reason@,
            Err(_) => false,
        },
{
    match found {
        Found::Missing => Ok(()),
        Found::File => if overwrite {
            Ok(())
        } else {
            Err(DownerError::OutputExists(text::owned(path)))
        },
        Found::Directory => Err(DownerError::OutputDirectory(text::owned(path))),
        Found::Unreadable(reason) => Err(DownerError::OutputIo(text::owned(reason.as_str()))),
    }
}

/// How a collision is settled: a target to write to, or a name to look for.
#[derive(Debug)]
pub enum Resolution {
    Target(OutputTarget),
    Reserve,
}

/// Settle what happens at a path by the policy for collisions.
pub fn resolve_conflict(path: String, policy: OnConflict, found: &Found) -> (r: DownerResult<
    Resolution,
>)
    ensures
        match r {
            Ok(Resolution::Target(target)) => {
                &&& target.path@ == path@
                &&& !target.reserved
                &&& !(found is Directory)
                &&& policy == OnConflict::Overwrite && target.overwrite || policy
                    == OnConflict::Fail && !target.overwrite && found is Missing
            },
            Ok(Resolution::Reserve) => policy == OnConflict::Rename && !(found is Directory),
            Err(DownerError::OutputDirectory(p)) => found is Directory && p@ == path@,
            Err(DownerError::OutputExists(p)) => policy == OnConflict::Fail && found is File && p@
                == path@,
            Err(DownerError::OutputIo(e)) => policy == OnConflict::Fail && (
            found matches Found::Unreadable(reason) && e@ == reason@),
            Err(_) => false,
        },
{
    if let Found::Directory = found {
        return Err(DownerError::OutputDirectory(path));
    }
    match policy {
        OnConflict::Overwrite => Ok(
            Resolution::Target(OutputTarget { path, overwrite: true, reserved: false }),
        ),
        OnConflict::Fail => match check_output_path(path.as_str(), found, false) {
            Ok(_) => Ok(
                Resolution::Target(OutputTarget { path, overwrite: false, reserved: false }),
            ),
            Err(error) => Err(error),
        },
        OnConflict::Rename => Ok(Resolution::Reserve),
    }
}

/// A file name with a number before its extension.
pub open spec fn numbered_name(name: Seq<char>, attempt: nat) -> Seq<char> {
    match text::rsplit_once(name, '.') {
        Some(parts) => if parts.0.len() > 0 {
            parts.0 + "_"@ + text::decimal(attempt) + "."@ + parts.1
        } else {
            name + "_"@ + text::decimal(attempt)
        },
        None => name + "_"@ + text::decimal(attempt),
    }
}

/// The file name that an attempt tries: the wanted one, then numbered ones.
pub open spec fn attempted_name(name: Seq<char>, attempt: nat) -> Seq<char> {
    if attempt == 1 {
        name
    } else {
        numbered_name(name, attempt)
    }
}

pub fn numbered_variant(name: &str, attempt: u32) -> (r: String)
    ensures
        r@ == numbered_name(name@, attempt as nat),
{
    let number = text::decimal_of(attempt as u64);
    match text::split_last(name, '.') {
        Some(parts) => {
            if text::chars_of(parts.0.as_str()).len() > 0 {
                let mut r = parts.0;
                r.append("_");
                r.append(number.as_str());
                r.append(".");
                r.append(parts.1.as_str());
                return r;
            }
            text::join3(name, "_", number.as_str())
        },
        None => text::join3(name, "_", number.as_str()),
    }
}

pub fn candidate_name(name: &str, attempt: u32) -> (r: String)
    ensures
        r@ == attempted_name(name@, attempt as nat),
{
    if attempt == 1 {
        text::owned(name)
    } else {
        numbered_variant(name, attempt)
    }
}

/// What came of trying to make a file that must not be there yet.
#[derive(Debug)]
pub enum Attempt {
    Created,
    /// A file or a directory of that name is there.
    Taken,
    Failed(String),
}

/// What to do after an attempt.
#[derive(Debug)]
pub enum ReserveStep {
    Try(u32),
    Done(OutputTarget),
    Stop(DownerError),
}

/// Decide what follows an attempt to reserve `candidate` on the way to a name
/// for `path`: the first name that could be made is the target, a name that is
/// taken leads to the next, and after the last one the path itself is refused.
pub fn reserve_unused_path(path: &str, candidate: &str, attempt: u32, outcome: Attempt) -> (r:
    ReserveStep)
    ensures
        match r {
            ReserveStep::Try(next) => outcome is Taken && attempt < MAX_RENAME_ATTEMPTS && next
                == attempt + 1,
            ReserveStep::Done(target) => outcome is Created && target.path@ == candidate@
                && target.overwrite && target.reserved,
            ReserveStep::Stop(DownerError::OutputExists(p)) => outcome is Taken && attempt
                >= MAX_RENAME_ATTEMPTS && p@ == path@,
            ReserveStep::Stop(DownerError::OutputIo(e)) => outcome matches Attempt::Failed(reason)
                && e@ == reason@,
            ReserveStep::Stop(_) => false,
        },
{
    match outcome {
        Attempt::Created => ReserveStep::Done(
            OutputTarget { path: text::owned(candidate), overwrite: true, reserved: true },
        ),
        Attempt::Taken => if attempt < MAX_RENAME_ATTEMPTS {
            ReserveStep::Try(attempt + 1)
        } else {
            ReserveStep::Stop(DownerError::OutputExists(text::owned(path)))
        },
        Attempt::Failed(reason) => ReserveStep::Stop(DownerError::OutputIo(reason)),
    }
}

/// Whether the file of a failed download is removed: only an empty one that
/// this program made. `size` is what the file holds, if it is there.
pub fn release_reservation(target: &OutputTarget, size: Option<u64>) -> (remove: bool)
    ensures
        remove == (target.reserved && size == Some(0u64)),
{
    match size {
        Some(n) => target.reserved && n == 0,
        None => false,
    }
}

// ---------------------------------------------------------------------------
// Laws
// ---------------------------------------------------------------------------

/// Whether every character of a text may stand in a file name.
pub open spec fn unreserved(s: Seq<char>) -> bool {
    forall|i: int| 0 <= i < s.len() ==> !is_reserved(#[trigger] s[i])
}

proof fn lemma_trim_unreserved(s: Seq<char>)
    requires
        unreserved(s),
    ensures
        unreserved(text::trim_start(s)),
        unreserved(text::trim_end(s)),
        text::trim_start(s).len() <= s.len(),
        text::trim_end(s).len() <= s.len(),
    decreases s.len(),
{
    if s.len() > 0 && text::is_white(s[0]) {
        lemma_trim_unreserved(s.skip(1));
    }
    if s.len() > 0 && text::is_white(s.last()) {
        lemma_trim_unreserved(s.drop_last());
    }
}

proof fn lemma_trim_of_unreserved(s: Seq<char>, set: Seq<char>)
    requires
        unreserved(s),
    ensures
        unreserved(text::trim_start_of(s, set)),
        unreserved(text::trim_end_of(s, set)),
        text::trim_start_of(s, set).len() <= s.len(),
        text::trim_end_of(s, set).len() <= s.len(),
        text::trim_start_of(s, set).len() > 0 ==> !set.contains(text::trim_start_of(s, set)[0]),
        text::trim_end_of(s, set).len() > 0 ==> !set.contains(text::trim_end_of(s, set).last())
            && text::trim_end_of(s, set)[0] == s[0],
    decreases s.len(),
{
    if s.len() > 0 && set.contains(s[0]) {
        lemma_trim_of_unreserved(s.skip(1), set);
    }
    if s.len() > 0 && set.contains(s.last()) {
        lemma_trim_of_unreserved(s.drop_last(), set);
    }
}

/// Whatever a name is made of, it holds no character that a file name may not
/// hold, no path separator among them; it is not longer than what it was made
/// of; and it begins and ends with neither a dot nor a space, so it is neither
/// `.` nor `..`.
pub proof fn law_a_sanitized_name_is_safe(s: Seq<char>)
    ensures
        unreserved(sanitized(s)),
        sanitized(s).len() <= s.len(),
        sanitized(s).len() > 0 ==> {
            &&& sanitized(s)[0] != '.' && sanitized(s)[0] != ' '
            &&& sanitized(s).last() != '.' && sanitized(s).last() != ' '
            &&& !is_device_name(sanitized(s))
        },
{
    reveal_strlit(". ");
    let a = replaced_reserved(s);
    assert(unreserved(a));
    lemma_trim_unreserved(a);
    lemma_trim_unreserved(text::trim_start(a));
    let b = text::trim(a);
    lemma_trim_of_unreserved(b, EDGE_CHARACTERS@);
    let c = text::trim_start_of(b, EDGE_CHARACTERS@);
    lemma_trim_of_unreserved(c, EDGE_CHARACTERS@);
    assert(EDGE_CHARACTERS@[0] == '.');
    assert(EDGE_CHARACTERS@[1] == ' ');
}

/// Whether the only white space in a text are spaces, no two of them together.
pub open spec fn is_spaced(s: Seq<char>) -> bool {
    &&& forall|i: int| 0 <= i < s.len() ==> (text::is_white(#[trigger] s[i]) ==> s[i] == ' ')
    &&& forall|i: int, j: int|
        0 <= i < s.len() && j == i + 1 && j < s.len() ==> !(text::is_white(#[trigger] s[i]) && text::is_white(
            #[trigger] s[j],
        ))
}

proof fn lemma_words_are_filled(s: Seq<char>, start: int, i: int)
    requires
        0 <= start <= i <= s.len(),
        forall|k: int| start <= k < i ==> !text::is_white(#[trigger] s[k]),
    ensures
        forall|n: int|
            0 <= n < text::words_from(s, start, i).len() ==> text::is_word(
                #[trigger] text::words_from(s, start, i)[n],
            ),
    decreases s.len() - i,
{
    assert(text::is_word(s.subrange(start, i)) || start == i) by {
        assert forall|k: int| 0 <= k < i - start implies !text::is_white(
            #[trigger] s.subrange(start, i)[k],
        ) by {
            assert(s.subrange(start, i)[k] == s[start + k]);
        }
    }
    if i < s.len() {
        if text::is_white(s[i]) {
            lemma_words_are_filled(s, i + 1, i + 1);
            let more = text::words_from(s, i + 1, i + 1);
            let first: Seq<Seq<char>> = if start < i {
                seq![s.subrange(start, i)]
            } else {
                Seq::empty()
            };
            assert(text::words_from(s, start, i) == first + more);
            assert forall|n: int| 0 <= n < (first + more).len() implies text::is_word(
                #[trigger] (first + more)[n],
            ) by {
                if n >= first.len() {
                    assert((first + more)[n] == more[n - first.len()]);
                }
            }
        } else {
            lemma_words_are_filled(s, start, i + 1);
            assert(text::words_from(s, start, i) == text::words_from(s, start, i + 1));
        }
    } else if start < i {
        assert(text::words_from(s, start, i) =~= seq![s.subrange(start, i)]);
    } else {
        assert(text::words_from(s, start, i).len() == 0);
    }
}

proof fn lemma_joined_words_are_spaced(v: Seq<Seq<char>>)
    requires
        forall|n: int| 0 <= n < v.len() ==> text::is_word(#[trigger] v[n]),
    ensures
        is_spaced(text::join(v, " "@)),
        v.len() > 0 ==> text::join(v, " "@).len() > 0 && !text::is_white(text::join(v, " "@).last()),
    decreases v.len(),
{
    reveal_strlit(" ");
    if v.len() > 1 {
        let before = text::join(v.drop_last(), " "@);
        let word = v.last();
        assert(word == v[v.len() - 1]);
        assert forall|n: int| 0 <= n < v.drop_last().len() implies text::is_word(
            #[trigger] v.drop_last()[n],
        ) by {
            assert(v.drop_last()[n] == v[n]);
        }
        lemma_joined_words_are_spaced(v.drop_last());
        let whole = before + " "@ + word;
        let n = before.len() as int;
        assert forall|i: int| 0 <= i < whole.len() && text::is_white(#[trigger] whole[i]) implies whole[i]
            == ' ' by {
            if i < n {
                assert(whole[i] == before[i]);
            } else if i > n {
                assert(whole[i] == word[i - n - 1]);
            }
        }
        assert forall|i: int, j: int| 0 <= i < whole.len() && j == i + 1 && j < whole.len() implies !(
        text::is_white(#[trigger] whole[i]) && text::is_white(#[trigger] whole[j])) by {
            if j < n {
                assert(whole[i] == before[i] && whole[j] == before[j]);
            } else if j == n {
                assert(whole[i] == before.last());
            } else {
                assert(whole[j] == word[j - n - 1]);
            }
        }
        assert(whole.last() == word[word.len() - 1]);
    } else if v.len() == 1 {
        assert(!text::is_white(v[0][v[0].len() - 1]));
    }
}

proof fn lemma_join_first(first: Seq<char>, v: Seq<Seq<char>>, sep: Seq<char>)
    requires
        v.len() > 0,
    ensures
        text::join(seq![first] + v, sep) == first + sep + text::join(v, sep),
    decreases v.len(),
{
    let all = seq![first] + v;
    assert(all.drop_last() =~= seq![first] + v.drop_last());
    assert(all.last() == v.last());
    if v.len() > 1 {
        lemma_join_first(first, v.drop_last(), sep);
        assert(text::join(all, sep) =~= first + sep + text::join(v, sep));
    } else {
        assert(v.drop_last() =~= Seq::empty());
        assert(all.drop_last() =~= seq![first]);
        assert(text::join(seq![first], sep) == first);
        assert(text::join(v, sep) == v.last());
        assert(text::join(all, sep) =~= first + sep + text::join(v, sep));
    }
}

proof fn lemma_spaced_words(s: Seq<char>, start: int, i: int)
    requires
        0 <= start <= i <= s.len(),
        is_spaced(s),
        s.len() > 0 ==> !text::is_white(s.last()),
        forall|k: int| start <= k < i ==> !text::is_white(#[trigger] s[k]),
        start == i && i < s.len() ==> !text::is_white(s[i]),
    ensures
        text::join(text::words_from(s, start, i), " "@) == s.subrange(start, s.len() as int),
    decreases s.len() - i,
{
    reveal_strlit(" ");
    if i >= s.len() {
        if start < i {
            assert(text::join(seq![s.subrange(start, i)], " "@) =~= s.subrange(start, s.len() as int));
        } else {
            assert(text::join(Seq::<Seq<char>>::empty(), " "@) =~= s.subrange(start, s.len() as int));
        }
    } else if text::is_white(s[i]) {
        assert(start < i);
        assert(i + 1 < s.len()) by {
            if i + 1 == s.len() {
                assert(s.last() == s[i]);
            }
        }
        assert(!text::is_white(s[i + 1])) by {
            let j = i + 1;
            assert(!(text::is_white(s[i]) && text::is_white(s[j])));
        }
        lemma_spaced_words(s, i + 1, i + 1);
        let more = text::words_from(s, i + 1, i + 1);
        let word = s.subrange(start, i);
        assert(more.len() > 0) by {
            if more.len() == 0 {
                assert(text::join(more, " "@).len() == 0);
            }
        }
        lemma_join_first(word, more, " "@);
        assert(word + " "@ + s.subrange(i + 1, s.len() as int) =~= s.subrange(
            start,
            s.len() as int,
        ));
    } else {
        lemma_spaced_words(s, start, i + 1);
    }
}

proof fn lemma_trim_keeps_spacing(s: Seq<char>, set: Seq<char>)
    requires
        is_spaced(s),
    ensures
        is_spaced(text::trim_start(s)),
        is_spaced(text::trim_end(s)),
        is_spaced(text::trim_start_of(s, set)),
        is_spaced(text::trim_end_of(s, set)),
    decreases s.len(),
{
    if s.len() > 0 {
        lemma_part_is_spaced(s, 1, s.len() as int);
        lemma_part_is_spaced(s, 0, s.len() - 1);
        assert(s.skip(1) =~= s.subrange(1, s.len() as int));
        assert(s.drop_last() =~= s.subrange(0, s.len() - 1));
        lemma_trim_keeps_spacing(s.skip(1), set);
        lemma_trim_keeps_spacing(s.drop_last(), set);
    }
}

proof fn lemma_part_is_spaced(s: Seq<char>, a: int, b: int)
    requires
        is_spaced(s),
        0 <= a <= b <= s.len(),
    ensures
        is_spaced(s.subrange(a, b)),
{
    let t = s.subrange(a, b);
    assert forall|i: int| 0 <= i < t.len() && text::is_white(#[trigger] t[i]) implies t[i] == ' ' by {
        assert(t[i] == s[a + i]);
    }
    assert forall|i: int, j: int| 0 <= i < t.len() && j == i + 1 && j < t.len() implies !(text::is_white(
        #[trigger] t[i],
    ) && text::is_white(#[trigger] t[j])) by {
        assert(t[i] == s[a + i] && t[j] == s[a + j]);
    }
}

proof fn lemma_sanitizing_keeps_spacing(s: Seq<char>)
    requires
        is_spaced(s),
    ensures
        is_spaced(sanitized(s)),
{
    let a = replaced_reserved(s);
    assert(is_spaced(a)) by {
        assert forall|i: int| 0 <= i < a.len() && text::is_white(#[trigger] a[i]) implies a[i] == ' '
            && text::is_white(s[i]) by {
            assert(a[i] == '_' || a[i] == s[i]);
        }
        assert forall|i: int, j: int| 0 <= i < a.len() && j == i + 1 && j < a.len() implies !(
        text::is_white(#[trigger] a[i]) && text::is_white(#[trigger] a[j])) by {
            assert(!(text::is_white(s[i]) && text::is_white(s[j])));
        }
    }
    lemma_trim_keeps_spacing(a, EDGE_CHARACTERS@);
    lemma_trim_keeps_spacing(text::trim_start(a), EDGE_CHARACTERS@);
    lemma_trim_keeps_spacing(text::trim(a), EDGE_CHARACTERS@);
    lemma_trim_keeps_spacing(text::trim_start_of(text::trim(a), EDGE_CHARACTERS@), EDGE_CHARACTERS@);
}

/// A stem made out of a title is never empty and never longer than
/// `MAX_TITLE_CHARS`. It holds no character that a file name may not hold, and no
/// white space but single spaces; it begins and ends with neither a dot nor a
/// space; and it is no device.
pub proof fn law_a_title_is_bounded(title: Seq<char>)
    ensures
        title_stem(title) matches Some(stem) ==> {
            &&& 0 < stem.len() <= MAX_TITLE_CHARS
            &&& unreserved(stem)
            &&& is_spaced(stem)
            &&& stem[0] != '.' && stem[0] != ' '
            &&& stem.last() != '.' && stem.last() != ' '
            &&& !is_device_name(stem)
        },
{
    let whole = text::join(text::words(title), " "@);
    law_a_sanitized_name_is_safe(whole);
    law_a_sanitized_name_is_safe(whole.take(MAX_TITLE_CHARS as int));
    lemma_words_are_filled(title, 0, 0);
    lemma_joined_words_are_spaced(text::words(title));
    if whole.len() > MAX_TITLE_CHARS {
        lemma_part_is_spaced(whole, 0, MAX_TITLE_CHARS as int);
        assert(whole.take(MAX_TITLE_CHARS as int) =~= whole.subrange(0, MAX_TITLE_CHARS as int));
        lemma_sanitizing_keeps_spacing(whole.take(MAX_TITLE_CHARS as int));
    } else {
        lemma_sanitizing_keeps_spacing(whole);
    }
}

/// A stem made out of a title is made into itself.
pub proof fn law_a_title_is_settled(title: Seq<char>)
    ensures
        title_stem(title) matches Some(stem) ==> title_stem(stem) == Some(stem),
{
    law_a_title_is_bounded(title);
    if let Some(stem) = title_stem(title) {
        reveal_strlit(". ");
        assert(!text::is_white(stem[0])) by {
            if text::is_white(stem[0]) {
                assert(stem[0] == ' ');
            }
        }
        assert(!text::is_white(stem[stem.len() - 1])) by {
            if text::is_white(stem[stem.len() - 1]) {
                assert(stem[stem.len() - 1] == ' ');
            }
        }
        lemma_spaced_words(stem, 0, 0);
        assert(stem.subrange(0, stem.len() as int) =~= stem);
        assert(replaced_reserved(stem) =~= stem) by {
            assert forall|i: int| 0 <= i < stem.len() implies !is_reserved(#[trigger] stem[i]) by {}
        }
        assert(text::trim(stem) == stem);
        assert(!EDGE_CHARACTERS@.contains(stem[0]));
        assert(!EDGE_CHARACTERS@.contains(stem.last()));
    }
}

/// The name made out of whatever a URL suggests holds no path separator, so a
/// download stays in its directory.
pub proof fn law_a_filename_stays_in_its_directory(suggested: Seq<char>, title: Option<Seq<char>>)
    ensures
        unreserved(media_filename(suggested)),
        unreserved(hinted_filename(media_filename(suggested), title)),
{
    reveal_strlit("video");
    reveal_strlit(".mp4");
    reveal_strlit(".");
    law_a_sanitized_name_is_safe(suggested);
    let name = if sanitized(suggested).len() > 0 {
        sanitized(suggested)
    } else {
        DEFAULT_STEM@
    };
    text::lemma_last_char(name, '.', name.len() as int);
    let whole = media_filename(suggested);
    assert(unreserved(whole));
    text::lemma_last_char(whole, '.', whole.len() as int);
    if let Some(t) = title {
        law_a_title_is_bounded(t);
    }
}

/// A number is what its decimal digits say.
pub proof fn lemma_decimal_value(n: nat)
    ensures
        text::digits_value(text::decimal(n)) == n,
        text::all_digits(text::decimal(n)),
        text::decimal(n).len() > 0,
    decreases n,
{
    if n < 10 {
        assert(text::decimal(n).drop_last() =~= Seq::empty());
        assert(text::digits_value(Seq::<char>::empty()) == 0);
    } else {
        lemma_decimal_value(n / 10);
        assert(text::decimal(n).drop_last() =~= text::decimal(n / 10));
        assert forall|i: int| 0 <= i < text::decimal(n).len() implies text::is_digit(
            #[trigger] text::decimal(n)[i],
        ) by {
            if i < text::decimal(n / 10).len() {
                assert(text::decimal(n)[i] == text::decimal(n / 10)[i]);
            }
        }
    }
}

proof fn lemma_middle(a: Seq<char>, x: Seq<char>, y: Seq<char>, b: Seq<char>)
    requires
        a + x + b == a + y + b,
    ensures
        x == y,
{
    let s = a + x + b;
    let t = a + y + b;
    assert(s.len() == a.len() + x.len() + b.len());
    assert(t.len() == a.len() + y.len() + b.len());
    assert(x =~= s.subrange(a.len() as int, (a.len() + x.len()) as int));
    assert(y =~= t.subrange(a.len() as int, (a.len() + y.len()) as int));
}

/// The attempt with which the steps of `reserve_unused_path` end, from one on,
/// where the names in `taken` are there; none if they end in a refusal.
pub open spec fn settled_attempt(name: Seq<char>, taken: Set<Seq<char>>, attempt: int) -> Option<
    int,
>
    decreases MAX_RENAME_ATTEMPTS - attempt + 1,
{
    if attempt > MAX_RENAME_ATTEMPTS {
        None
    } else if taken.contains(attempted_name(name, attempt as nat)) {
        settled_attempt(name, taken, attempt + 1)
    } else {
        Some(attempt)
    }
}

/// A search for a free name takes the lowest number that is free, filling gaps,
/// and gives up only if every name it may try is taken.
pub proof fn law_the_lowest_free_name_is_taken(
    name: Seq<char>,
    taken: Set<Seq<char>>,
    attempt: int,
)
    requires
        1 <= attempt <= MAX_RENAME_ATTEMPTS + 1,
    ensures
        match settled_attempt(name, taken, attempt) {
            Some(k) => {
                &&& attempt <= k <= MAX_RENAME_ATTEMPTS
                &&& !taken.contains(attempted_name(name, k as nat))
                &&& forall|j: int|
                    attempt <= j < k ==> taken.contains(#[trigger] attempted_name(name, j as nat))
            },
            None => forall|j: int|
                attempt <= j <= MAX_RENAME_ATTEMPTS ==> taken.contains(
                    #[trigger] attempted_name(name, j as nat),
                ),
        },
    decreases MAX_RENAME_ATTEMPTS - attempt + 1,
{
    if attempt <= MAX_RENAME_ATTEMPTS && taken.contains(attempted_name(name, attempt as nat)) {
        law_the_lowest_free_name_is_taken(name, taken, attempt + 1);
        assert forall|j: int|
            attempt <= j <= MAX_RENAME_ATTEMPTS && (settled_attempt(name, taken, attempt) matches Some(
                k,
            ) ==> j < k) implies taken.contains(#[trigger] attempted_name(name, j as nat)) by {
            if j > attempt {
                assert(attempt + 1 <= j);
            }
        }
    }
}

/// No two attempts try the same name, so the search for a free one makes
/// progress.
pub proof fn law_attempts_try_different_names(name: Seq<char>, a: nat, b: nat)
    requires
        1 <= a < b,
    ensures
        attempted_name(name, a) != attempted_name(name, b),
{
    reveal_strlit("_");
    reveal_strlit(".");
    lemma_decimal_value(a);
    lemma_decimal_value(b);
    text::lemma_last_char(name, '.', name.len() as int);
    let da = text::decimal(a);
    let db = text::decimal(b);
    let (head, tail) = match text::rsplit_once(name, '.') {
        Some(parts) => if parts.0.len() > 0 {
            (parts.0 + "_"@, "."@ + parts.1)
        } else {
            (name + "_"@, Seq::empty())
        },
        None => (name + "_"@, Seq::empty()),
    };
    assert(numbered_name(name, b) =~= head + db + tail);
    assert(numbered_name(name, a) =~= head + da + tail);
    if a == 1 {
        assert(numbered_name(name, b).len() > name.len());
    } else if attempted_name(name, a) == attempted_name(name, b) {
        lemma_middle(head, da, db, tail);
    }
}

} // verus!
