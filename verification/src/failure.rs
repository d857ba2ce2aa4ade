//! What an FFmpeg that failed has said.
//!
//! FFmpeg's standard error mixes the cause of a failure with chatter. A summary
//! leads with the line that names a cause and keeps the end of the rest.

use vstd::prelude::*;
use crate::text;

verus! {

/// The most bytes of diagnostic output that a summary keeps.
pub const MAX_DETAIL_BYTES: usize = 2000;

/// What stands in place of the output that was left out.
pub const OMITTED: &'static str = "…earlier output omitted…\n";

/// The headline of a failure that said nothing.
pub const NO_OUTPUT: &'static str = "FFmpeg produced no diagnostic output";

/// Phrases of lines that say nothing about a failure.
pub open spec fn chatter_phrases() -> Seq<Seq<char>> {
    seq![
        "ffmpeg stats and -progress period set to"@,
        "for reading"@,
        "Press [q] to stop"@,
        "configuration:"@,
        "built with"@,
    ]
}

fn chatter_list() -> (r: Vec<&'static str>)
    ensures
        text::str_texts(r@) == chatter_phrases(),
{
    let r = vec![
        "ffmpeg stats and -progress period set to",
        "for reading",
        "Press [q] to stop",
        "configuration:",
        "built with",
    ];
    assert(text::str_texts(r@) =~= chatter_phrases());
    r
}

/// Phrases that name a cause, the most telling first.
pub open spec fn cause_phrases() -> Seq<Seq<char>> {
    seq![
        "connection refused"@,
        "connection timed out"@,
        "name or service not known"@,
        "temporary failure in name resolution"@,
        "server returned 4"@,
        "server returned 5"@,
        "403 forbidden"@,
        "404 not found"@,
        "401 unauthorized"@,
        "no such file or directory"@,
        "permission denied"@,
        "protocol not found"@,
        "no space left on device"@,
        "invalid data found"@,
    ]
}

fn cause_list() -> (r: Vec<&'static str>)
    ensures
        text::str_texts(r@) == cause_phrases(),
{
    let r = vec![
        "connection refused",
        "connection timed out",
        "name or service not known",
        "temporary failure in name resolution",
        "server returned 4",
        "server returned 5",
        "403 forbidden",
        "404 not found",
        "401 unauthorized",
        "no such file or directory",
        "permission denied",
        "protocol not found",
        "no space left on device",
        "invalid data found",
    ];
    assert(text::str_texts(r@) =~= cause_phrases());
    r
}

/// Phrases of failures that another attempt may not meet.
pub open spec fn transient_phrases() -> Seq<Seq<char>> {
    seq![
        "connection reset by peer"@,
        "connection timed out"@,
        "connection refused"@,
        "network is unreachable"@,
        "host is unreachable"@,
        "broken pipe"@,
        "no route to host"@,
        "server returned 5"@,
        "server returned 408"@,
        "server returned 429"@,
        "error in the pull function"@,
        "i/o error"@,
        "input/output error"@,
        "end of file"@,
        "timed out"@,
        "temporary failure in name resolution"@,
    ]
}

fn transient_list() -> (r: Vec<&'static str>)
    ensures
        text::str_texts(r@) == transient_phrases(),
{
    let r = vec![
        "connection reset by peer",
        "connection timed out",
        "connection refused",
        "network is unreachable",
        "host is unreachable",
        "broken pipe",
        "no route to host",
        "server returned 5",
        "server returned 408",
        "server returned 429",
        "error in the pull function",
        "i/o error",
        "input/output error",
        "end of file",
        "timed out",
        "temporary failure in name resolution",
    ];
    assert(text::str_texts(r@) =~= transient_phrases());
    r
}

/// Phrases of failures that every further attempt would meet again.
pub open spec fn permanent_phrases() -> Seq<Seq<char>> {
    seq![
        "server returned 400"@,
        "server returned 401"@,
        "server returned 403"@,
        "server returned 404"@,
        "server returned 410"@,
        "403 forbidden"@,
        "404 not found"@,
        "401 unauthorized"@,
        "no space left on device"@,
        "permission denied"@,
        "invalid data found"@,
        "protocol not found"@,
        "no such file or directory"@,
        "unrecognized option"@,
        "option not found"@,
    ]
}

fn permanent_list() -> (r: Vec<&'static str>)
    ensures
        text::str_texts(r@) == permanent_phrases(),
{
    let r = vec![
        "server returned 400",
        "server returned 401",
        "server returned 403",
        "server returned 404",
        "server returned 410",
        "403 forbidden",
        "404 not found",
        "401 unauthorized",
        "no space left on device",
        "permission denied",
        "invalid data found",
        "protocol not found",
        "no such file or directory",
        "unrecognized option",
        "option not found",
    ];
    assert(text::str_texts(r@) =~= permanent_phrases());
    r
}

/// Whether another attempt at the same download may succeed. A permanent
/// failure anywhere in the output outweighs every transient one.
pub open spec fn transient(stderr: Seq<char>) -> bool {
    !text::mentions(text::lower(stderr), permanent_phrases()) && text::mentions(text::lower(stderr), transient_phrases())
}

pub fn is_transient(stderr: &str) -> (b: bool)
    ensures
        b == transient(stderr@),
{
    let low = text::to_ascii_lower(stderr);
    !text::mentions_any(low.as_str(), &permanent_list()) && text::mentions_any(low.as_str(), &transient_list())
}

/// A failure, as it is shown.
pub struct FfmpegFailure {
    pub headline: String,
    pub detail: String,
}

/// The lines that hold more than white space, trimmed.
pub open spec fn nonblank(ls: Seq<Seq<char>>) -> Seq<Seq<char>>
    decreases ls.len(),
{
    if ls.len() == 0 {
        Seq::empty()
    } else {
        let before = nonblank(ls.drop_last());
        let line = text::trim(ls.last());
        if line.len() > 0 {
            before.push(line)
        } else {
            before
        }
    }
}

/// The lines without chatter.
pub open spec fn without_chatter(ls: Seq<Seq<char>>) -> Seq<Seq<char>>
    decreases ls.len(),
{
    if ls.len() == 0 {
        Seq::empty()
    } else {
        let before = without_chatter(ls.drop_last());
        if text::mentions(ls.last(), chatter_phrases()) {
            before
        } else {
            before.push(ls.last())
        }
    }
}

/// The lines a summary is made of: chatter survives only when it is all there is.
pub open spec fn telling_lines(stderr: Seq<char>) -> Seq<Seq<char>> {
    let all = nonblank(text::lines(stderr));
    let kept = without_chatter(all);
    if kept.len() == 0 {
        all
    } else {
        kept
    }
}

/// The first line at or after `i` that mentions `phrase` in any case, or the
/// number of lines.
pub open spec fn line_with(ls: Seq<Seq<char>>, phrase: Seq<char>, i: int) -> int
    decreases ls.len() - i,
{
    if i < 0 || i >= ls.len() {
        ls.len() as int
    } else if text::contains(text::lower(ls[i]), phrase) {
        i
    } else {
        line_with(ls, phrase, i + 1)
    }
}

/// The first line that mentions the first cause mentioned at all.
pub open spec fn cause_line(ls: Seq<Seq<char>>, causes: Seq<Seq<char>>, k: int) -> Option<
    Seq<char>,
>
    decreases causes.len() - k,
{
    if k < 0 || k >= causes.len() {
        None
    } else if line_with(ls, causes[k], 0) < ls.len() {
        Some(ls[line_with(ls, causes[k], 0)])
    } else {
        cause_line(ls, causes, k + 1)
    }
}

/// A line without the component that FFmpeg puts in brackets before it.
pub open spec fn without_context(line: Seq<char>) -> Seq<char> {
    match text::strip_prefix(line, "["@) {
        Some(rest) => match text::split_once(rest, "] "@) {
            Some(parts) => parts.1,
            None => line,
        },
        None => line,
    }
}

pub open spec fn headline_of(ls: Seq<Seq<char>>) -> Seq<char> {
    match cause_line(ls, cause_phrases(), 0) {
        Some(line) => without_context(line),
        None => if ls.len() > 0 {
            without_context(ls.last())
        } else {
            NO_OUTPUT@
        },
    }
}

/// A text bounded to its last `MAX_DETAIL_BYTES` bytes, from a whole line on
/// where there is one.
pub open spec fn bounded(s: Seq<char>) -> Seq<char> {
    if text::byte_len(s) <= MAX_DETAIL_BYTES {
        s
    } else {
        let tail = s.skip(text::tail_start(s, MAX_DETAIL_BYTES as nat));
        let newline = text::next_char(tail, '\n', 0);
        OMITTED@ + (if newline < tail.len() {
            tail.skip(newline + 1)
        } else {
            tail
        })
    }
}

fn telling(stderr: &str) -> (r: Vec<String>)
    ensures
        text::texts(r@) == telling_lines(stderr@),
{
    let raw = text::lines_of(stderr);
    let chatter = chatter_list();
    let mut all: Vec<String> = Vec::new();
    let mut kept: Vec<String> = Vec::new();
    let mut i: usize = 0;
    assert(text::texts(raw@).take(0) =~= Seq::empty());
    assert(text::texts(all@) =~= Seq::empty());
    assert(text::texts(kept@) =~= Seq::empty());
    while i < raw.len()
        invariant
            text::str_texts(chatter@) == chatter_phrases(),
            i <= raw@.len(),
            text::texts(all@) == nonblank(text::texts(raw@).take(i as int)),
            text::texts(kept@) == without_chatter(text::texts(all@)),
        decreases raw@.len() - i,
    {
        let line = text::trimmed(raw[i].as_str());
        proof {
            assert(text::texts(raw@).take(i + 1).drop_last() =~= text::texts(raw@).take(i as int));
            assert(text::texts(raw@).take(i + 1).last() == raw@[i as int]@);
        }
        if text::chars_of(line.as_str()).len() > 0 {
            let ghost all_before = all@;
            let ghost kept_before = kept@;
            if !text::mentions_any(line.as_str(), &chatter) {
                kept.push(text::owned(line.as_str()));
                proof {
                    text::lemma_texts_push(kept_before, kept@.last());
                }
            }
            all.push(line);
            proof {
                text::lemma_texts_push(all_before, line);
                assert(text::texts(all@).drop_last() =~= text::texts(all_before));
            }
        }
        i = i + 1;
    }
    assert(text::texts(raw@).take(i as int) =~= text::texts(raw@));
    if kept.len() == 0 {
        all
    } else {
        kept
    }
}

fn find_line(ls: &Vec<String>, phrase: &str) -> (r: usize)
    ensures
        r == line_with(text::texts(ls@), phrase@, 0),
        r <= ls@.len(),
{
    let mut i: usize = 0;
    while i < ls.len()
        invariant
            i <= ls@.len(),
            line_with(text::texts(ls@), phrase@, i as int) == line_with(text::texts(ls@), phrase@, 0),
        decreases ls@.len() - i,
    {
        let low = text::to_ascii_lower(ls[i].as_str());
        if text::contains_text(low.as_str(), phrase) {
            return i;
        }
        i = i + 1;
    }
    ls.len()
}

fn strip_context(line: &str) -> (r: String)
    ensures
        r@ == without_context(line@),
{
    match text::without_prefix(line, "[") {
        Some(rest) => match text::split_first(rest.as_str(), "] ") {
            Some(parts) => parts.1,
            None => text::owned(line),
        },
        None => text::owned(line),
    }
}

fn pick_headline(ls: &Vec<String>) -> (r: String)
    ensures
        r@ == headline_of(text::texts(ls@)),
{
    let causes = cause_list();
    let mut k: usize = 0;
    while k < causes.len()
        invariant
            text::str_texts(causes@) == cause_phrases(),
            k <= causes@.len(),
            cause_line(text::texts(ls@), cause_phrases(), k as int) == cause_line(
                text::texts(ls@),
                cause_phrases(),
                0,
            ),
        decreases causes@.len() - k,
    {
        assert(cause_phrases()[k as int] == causes@[k as int]@);
        let i = find_line(ls, causes[k]);
        if i < ls.len() {
            return strip_context(ls[i].as_str());
        }
        k = k + 1;
    }
    if ls.len() > 0 {
        assert(text::texts(ls@).last() == ls@[ls@.len() - 1]@);
        strip_context(ls[ls.len() - 1].as_str())
    } else {
        text::owned(NO_OUTPUT)
    }
}

fn bound(detail: &str) -> (r: String)
    ensures
        r@ == bounded(detail@),
{
    let at = text::tail_index(detail, MAX_DETAIL_BYTES);
    proof {
        text::lemma_tail_start(detail@, MAX_DETAIL_BYTES as nat);
    }
    if at == 0 {
        return text::owned(detail);
    }
    let v = text::chars_of(detail);
    let tail = text::string_of(&v, at, v.len());
    assert(tail@ =~= detail@.skip(at as int));
    let rest = text::chars_of(tail.as_str());
    let newline = text::index_of(tail.as_str(), '\n');
    let mut r = text::owned(OMITTED);
    if newline < rest.len() {
        let kept = text::string_of(&rest, newline + 1, rest.len());
        assert(kept@ =~= tail@.skip(newline + 1));
        r.append(kept.as_str());
    } else {
        r.append(tail.as_str());
    }
    r
}

/// Summarize the standard error of an FFmpeg that failed.
pub fn summarize(stderr: &str) -> (r: FfmpegFailure)
    ensures
        r.headline@ == headline_of(telling_lines(stderr@)),
        r.detail@ == bounded(text::join(telling_lines(stderr@), "\n"@)),
{
    let ls = telling(stderr);
    let headline = pick_headline(&ls);
    let detail = text::joined(&ls, "\n");
    FfmpegFailure { headline, detail: bound(detail.as_str()) }
}

/// However long the output, the detail of a failure is its end: all of it, or
/// the mark and a tail of at most `MAX_DETAIL_BYTES` bytes.
pub proof fn law_detail_is_a_bounded_tail(s: Seq<char>)
    ensures
        text::byte_len(bounded(s)) <= MAX_DETAIL_BYTES + text::byte_len(OMITTED@),
        bounded(s) == s || exists|i: int|
            0 <= i <= s.len() && bounded(s) == OMITTED@ + #[trigger] s.skip(i),
{
    if text::byte_len(s) > MAX_DETAIL_BYTES {
        let t = text::tail_start(s, MAX_DETAIL_BYTES as nat);
        text::lemma_tail_start(s, MAX_DETAIL_BYTES as nat);
        let tail = s.skip(t);
        let newline = text::next_char(tail, '\n', 0);
        text::lemma_next_char(tail, '\n', 0);
        if newline < tail.len() {
            let kept = tail.skip(newline + 1);
            assert(kept =~= s.skip(t + newline + 1));
            assert(tail =~= tail.take(newline + 1) + kept);
            text::lemma_byte_len_add(tail.take(newline + 1), kept);
            text::lemma_byte_len_add(OMITTED@, kept);
        } else {
            text::lemma_byte_len_add(OMITTED@, tail);
        }
    }
}

/// A failure that mentions a permanent cause is never worth another attempt,
/// whatever else the output mentions and however it is written.
pub proof fn law_permanent_outweighs_transient(
    before: Seq<char>,
    said: Seq<char>,
    after: Seq<char>,
)
    requires
        permanent_phrases().contains(text::lower(said)),
    ensures
        !transient(before + said + after),
{
    let s = text::lower(before + said + after);
    let phrase = text::lower(said);
    let i = before.len() as int;
    let k = choose|k: int| 0 <= k < permanent_phrases().len() && permanent_phrases()[k] == phrase;
    assert(s.subrange(i, i + phrase.len()) =~= phrase);
    assert(text::occurs_at(s, permanent_phrases()[k], i));
    assert(text::contains(s, permanent_phrases()[k]));
}

} // verus!
