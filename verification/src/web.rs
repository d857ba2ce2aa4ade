//! Web addresses as plain values.
//!
//! Parsing and joining follow the URL standard and are left to the `url` crate.
//! What the rules of this program read of a URL is held in plain fields.

use vstd::prelude::*;
use crate::text;

verus! {

/// A parsed URL.
#[derive(Debug, PartialEq, Eq)]
pub struct Url {
    /// The URL in its normal form. Two URLs are equal when this is.
    pub text: String,
    pub scheme: String,
    pub host: Option<String>,
    /// The port, unless it is the usual one of the scheme.
    pub port: Option<u16>,
    pub path: String,
    pub query: Option<String>,
}

/// The fields of a URL.
#[verifier::ext_equal]
pub struct UrlView {
    pub text: Seq<char>,
    pub scheme: Seq<char>,
    pub host: Option<Seq<char>>,
    pub port: Option<u16>,
    pub path: Seq<char>,
    pub query: Option<Seq<char>>,
}

impl View for Url {
    type V = UrlView;

    open spec fn view(&self) -> UrlView {
        UrlView {
            text: self.text@,
            scheme: self.scheme@,
            host: text::opt_text(self.host),
            port: self.port,
            path: self.path@,
            query: text::opt_text(self.query),
        }
    }
}

/// The views of a sequence of URLs.
pub open spec fn url_views(v: Seq<Url>) -> Seq<UrlView> {
    Seq::new(v.len(), |i: int| v[i]@)
}

pub open spec fn opt_url(o: Option<Url>) -> Option<UrlView> {
    match o {
        Some(u) => Some(u@),
        None => None,
    }
}

pub open spec fn opt_url_ref(o: Option<&Url>) -> Option<UrlView> {
    match o {
        Some(u) => Some(u@),
        None => None,
    }
}

/// The views of a sequence of URLs, some of which are missing.
pub open spec fn opt_url_views(v: Seq<Option<Url>>) -> Seq<Option<UrlView>> {
    Seq::new(v.len(), |i: int| opt_url(v[i]))
}

impl Url {
    /// A copy of a URL.
    pub fn copy(&self) -> (r: Url)
        ensures
            r@ == self@,
    {
        Url {
            text: text::owned(self.text.as_str()),
            scheme: text::owned(self.scheme.as_str()),
            host: text::copy_opt(&self.host),
            port: self.port,
            path: text::owned(self.path.as_str()),
            query: text::copy_opt(&self.query),
        }
    }

    pub fn as_str(&self) -> (r: &str)
        ensures
            r@ == self@.text,
    {
        self.text.as_str()
    }
}

impl Clone for Url {
    fn clone(&self) -> (r: Url)
        ensures
            r@ == self@,
    {
        self.copy()
    }
}

/// Whether two URLs are the same, which their normal forms decide.
pub fn same_url(a: &Url, b: &Url) -> (r: bool)
    ensures
        r == (a@.text == b@.text),
{
    text::same(a.text.as_str(), b.text.as_str())
}

pub fn copy_url(o: &Option<Url>) -> (r: Option<Url>)
    ensures
        opt_url(r) == opt_url(*o),
{
    match o {
        Some(u) => Some(u.copy()),
        None => None,
    }
}

/// What `url::Url::parse` makes of a text: the URL, or the words of its error.
pub uninterp spec fn url_parse(raw: Seq<char>) -> Result<UrlView, Seq<char>>;

/// What `url::Url::join` makes of a reference against the URL with this normal
/// form; `None` where it gives an error.
pub uninterp spec fn url_join(base: Seq<char>, reference: Seq<char>) -> Option<UrlView>;

/// What `url::Url::origin` gives for the URL with this normal form, in ASCII;
/// `None` where the text is no URL.
pub uninterp spec fn url_origin(text: Seq<char>) -> Option<Seq<char>>;

/// What `url::form_urlencoded::parse` reads in a query: its names and values,
/// decoded, in order.
pub uninterp spec fn query_pairs(query: Seq<char>) -> Seq<(Seq<char>, Seq<char>)>;

/// What `percent_encoding::percent_decode_str` decodes a text to, with each
/// sequence that is no UTF-8 replaced.
pub uninterp spec fn percent_decoded(text: Seq<char>) -> Seq<char>;

/// The views of a parsed URL or an error.
pub open spec fn url_result(r: Result<Url, String>) -> Result<UrlView, Seq<char>> {
    match r {
        Ok(u) => Ok(u@),
        Err(e) => Err(e@),
    }
}

/// Whether the normal form of a URL begins with its scheme.
pub open spec fn begins_with_scheme(url: UrlView) -> bool {
    text::starts_with(url.text, url.scheme + ":"@)
}

/// `url::Url::parse`. The contract names its result: the fields of the URL are
/// what the crate's accessors give, and the error is what it displays. The scheme
/// is what the normal form begins with, up to the first colon.
#[verifier::external_body]
pub(crate) fn parse(raw: &str) -> (r: Result<Url, String>)
    ensures
        url_result(r) == url_parse(raw@),
        r matches Ok(url) ==> begins_with_scheme(url@),
{
    match url::Url::parse(raw) {
        Ok(u) => Ok(
            Url {
                text: u.as_str().to_string(),
                scheme: u.scheme().to_string(),
                host: u.host_str().map(str::to_string),
                port: u.port(),
                path: u.path().to_string(),
                query: u.query().map(str::to_string),
            },
        ),
        Err(error) => Err(error.to_string()),
    }
}

/// `url::Url::join`, on the URL that `url::Url::parse` reads in the normal form
/// of the base. The contract names its result; the fields are what the crate's
/// accessors give, and the normal form begins with the scheme.
#[verifier::external_body]
pub(crate) fn join_url(base: &Url, reference: &str) -> (r: Option<Url>)
    ensures
        opt_url(r) == url_join(base@.text, reference@),
        r matches Some(url) ==> begins_with_scheme(url@),
{
    let u = url::Url::parse(base.text.as_str()).ok()?.join(reference).ok()?;
    Some(
        Url {
            text: u.as_str().to_string(),
            scheme: u.scheme().to_string(),
            host: u.host_str().map(str::to_string),
            port: u.port(),
            path: u.path().to_string(),
            query: u.query().map(str::to_string),
        },
    )
}

/// How many URLs a URL may hold, one within the other, for its origin to be asked.
pub const MAX_NESTED: usize = 256;

/// How many colons a text holds.
pub open spec fn colons(s: Seq<char>) -> nat
    decreases s.len(),
{
    if s.len() == 0 {
        0
    } else {
        colons(s.drop_last()) + (if s.last() == ':' {
            1nat
        } else {
            0
        })
    }
}

/// Whether the scheme of a URL that begins with this character is surely not
/// `blob`.
pub open spec fn begins_no_blob(c: char) -> bool {
    ('a' <= c <= 'z' || 'A' <= c <= 'Z') && c != 'b' && c != 'B'
}

/// Whether the origin of a URL can be asked. That of a `blob:` URL is that of the
/// URL in it, which may be such a URL again; each of them ends its scheme with a
/// colon, and takes a frame of the stack.
pub open spec fn has_bounded_nesting(text: Seq<char>) -> bool {
    (text.len() > 0 && begins_no_blob(text[0])) || colons(text) <= MAX_NESTED
}

/// A URL of the web holds no other.
pub proof fn lemma_web_is_bounded(url: UrlView)
    requires
        begins_with_scheme(url),
        url.scheme == "http"@ || url.scheme == "https"@,
    ensures
        has_bounded_nesting(url.text),
{
    reveal_strlit("http");
    reveal_strlit("https");
    reveal_strlit(":");
    let start = url.scheme + ":"@;
    assert(start[0] == 'h');
    assert(url.text.take(start.len() as int)[0] == url.text[0]);
}

/// `url::Url::origin`, then `ascii_serialization`, on the URL that
/// `url::Url::parse` reads in the normal form; `None` where that is no URL. The
/// contract names the result. The crate's function calls itself for the URL in a
/// `blob:` URL, so a text that nests them without bound is left out.
#[verifier::external_body]
pub(crate) fn origin_text(url: &Url) -> (r: Option<String>)
    requires
        has_bounded_nesting(url@.text),
    ensures
        text::opt_text(r) == url_origin(url@.text),
{
    Some(url::Url::parse(url.text.as_str()).ok()?.origin().ascii_serialization())
}

/// `url::form_urlencoded::parse`, which is what `url::Url::query_pairs` reads a
/// query with. The contract names its result.
#[verifier::external_body]
pub(crate) fn read_query(query: &str) -> (r: Vec<(String, String)>)
    ensures
        text::pair_texts(r@) == query_pairs(query@),
{
    url::form_urlencoded::parse(query.as_bytes()).into_owned().collect()
}

/// `percent_encoding::percent_decode_str`, then `decode_utf8_lossy` on what it
/// gives. The contract names the result.
#[verifier::external_body]
pub(crate) fn percent_decode(text: &str) -> (r: String)
    ensures
        r@ == percent_decoded(text@),
{
    percent_encoding::percent_decode_str(text).decode_utf8_lossy().into_owned()
}

} // verus!
