//! What judging a failure amounts to, stated without the definitions of the
//! judgements.

use vstd::prelude::*;
use crate::{error, failure, text, text_laws};
use crate::error::DownerError;

verus! {

// ---------------------------------------------------------------------------
// Whether another attempt is worth it
// ---------------------------------------------------------------------------

/// Whether output speaks of a failure that lasts.
pub open spec fn speaks_of_a_lasting_failure(output: Seq<char>) -> bool {
    let l = text::lower(output);
    ||| text::contains(l, "server returned 400"@)
    ||| text::contains(l, "server returned 401"@)
    ||| text::contains(l, "server returned 403"@)
    ||| text::contains(l, "server returned 404"@)
    ||| text::contains(l, "server returned 410"@)
    ||| text::contains(l, "403 forbidden"@)
    ||| text::contains(l, "404 not found"@)
    ||| text::contains(l, "401 unauthorized"@)
    ||| text::contains(l, "no space left on device"@)
    ||| text::contains(l, "permission denied"@)
    ||| text::contains(l, "invalid data found"@)
    ||| text::contains(l, "protocol not found"@)
    ||| text::contains(l, "no such file or directory"@)
    ||| text::contains(l, "unrecognized option"@)
    ||| text::contains(l, "option not found"@)
}

/// Whether output speaks of a failure that may pass.
pub open spec fn speaks_of_a_passing_failure(output: Seq<char>) -> bool {
    let l = text::lower(output);
    ||| text::contains(l, "connection reset by peer"@)
    ||| text::contains(l, "connection timed out"@)
    ||| text::contains(l, "connection refused"@)
    ||| text::contains(l, "network is unreachable"@)
    ||| text::contains(l, "host is unreachable"@)
    ||| text::contains(l, "broken pipe"@)
    ||| text::contains(l, "no route to host"@)
    ||| text::contains(l, "server returned 5"@)
    ||| text::contains(l, "server returned 408"@)
    ||| text::contains(l, "server returned 429"@)
    ||| text::contains(l, "error in the pull function"@)
    ||| text::contains(l, "i/o error"@)
    ||| text::contains(l, "input/output error"@)
    ||| text::contains(l, "end of file"@)
    ||| text::contains(l, "timed out"@)
    ||| text::contains(l, "temporary failure in name resolution"@)
}

proof fn lemma_lasting(output: Seq<char>)
    ensures
        text::mentions(text::lower(output), failure::permanent_phrases()) <==> speaks_of_a_lasting_failure(output),
{
    let p = failure::permanent_phrases();
    let l = text::lower(output);
    assert(p.len() == 15);
    assert(text::contains(l, p[0]) || text::contains(l, p[1]) || text::contains(l, p[2]) || text::contains(l, p[3])
        || text::contains(l, p[4]) || text::contains(l, p[5]) || text::contains(l, p[6]) || text::contains(l, p[7])
        || text::contains(l, p[8]) || text::contains(l, p[9]) || text::contains(l, p[10]) || text::contains(l, p[11])
        || text::contains(l, p[12]) || text::contains(l, p[13]) || text::contains(l, p[14])
        <==> speaks_of_a_lasting_failure(output));
}

proof fn lemma_passing(output: Seq<char>)
    ensures
        text::mentions(text::lower(output), failure::transient_phrases()) <==> speaks_of_a_passing_failure(output),
{
    let p = failure::transient_phrases();
    let l = text::lower(output);
    assert(p.len() == 16);
    assert(text::contains(l, p[0]) || text::contains(l, p[1]) || text::contains(l, p[2]) || text::contains(l, p[3])
        || text::contains(l, p[4]) || text::contains(l, p[5]) || text::contains(l, p[6]) || text::contains(l, p[7])
        || text::contains(l, p[8]) || text::contains(l, p[9]) || text::contains(l, p[10]) || text::contains(l, p[11])
        || text::contains(l, p[12]) || text::contains(l, p[13]) || text::contains(l, p[14]) || text::contains(l, p[15])
        <==> speaks_of_a_passing_failure(output));
}

/// Another attempt is worth it exactly when the output of the last one speaks of a
/// failure that may pass and of none that lasts.
pub proof fn law_a_passing_failure_is_worth_another_attempt(output: Seq<char>)
    ensures
        failure::transient(output) <==> speaks_of_a_passing_failure(output) && !speaks_of_a_lasting_failure(
            output,
        ),
{
    lemma_lasting(output);
    lemma_passing(output);
}

/// The case in which output is written does not matter, and more output can turn
/// an attempt that was worth it into one that is not, but only by speaking of a
/// failure that lasts.
pub proof fn law_more_output_adds_reasons(before: Seq<char>, output: Seq<char>, after: Seq<char>)
    ensures
        failure::transient(text::lower(output)) == failure::transient(output),
        failure::transient(text::upper(output)) == failure::transient(output),
        failure::transient(output) && !speaks_of_a_lasting_failure(before + output + after) ==> failure::transient(
            before + output + after,
        ),
{
    text_laws::law_case_is_forgotten(output);
    let whole = before + output + after;
    if failure::transient(output) && !speaks_of_a_lasting_failure(whole) {
        lemma_lasting(whole);
        let phrases = failure::transient_phrases();
        let k = choose|k: int|
            0 <= k < phrases.len() && text::contains(text::lower(output), #[trigger] phrases[k]);
        let i = choose|i: int| text::occurs_at(text::lower(output), phrases[k], i);
        let n = phrases[k].len() as int;
        let j = before.len() + i;
        assert(text::lower(whole).subrange(j, j + n) =~= text::lower(output).subrange(i, i + n));
        assert(text::occurs_at(text::lower(whole), phrases[k], j));
    }
}

// ---------------------------------------------------------------------------
// What is told of a failure
// ---------------------------------------------------------------------------

/// Whether a line says nothing about a failure.
pub open spec fn is_chatter(line: Seq<char>) -> bool {
    ||| text::contains(line, "ffmpeg stats and -progress period set to"@)
    ||| text::contains(line, "for reading"@)
    ||| text::contains(line, "Press [q] to stop"@)
    ||| text::contains(line, "configuration:"@)
    ||| text::contains(line, "built with"@)
}

proof fn lemma_chatter(line: Seq<char>)
    ensures
        text::mentions(line, failure::chatter_phrases()) <==> is_chatter(line),
{
    let p = failure::chatter_phrases();
    assert(p.len() == 5);
    assert(text::contains(line, p[0]) || text::contains(line, p[1]) || text::contains(line, p[2]) || text::contains(
        line,
        p[3],
    ) || text::contains(line, p[4]) <==> is_chatter(line));
}

/// The lines of some output that hold more than white space and are no chatter.
pub open spec fn saying_lines(output: Seq<char>) -> Seq<Seq<char>> {
    failure::without_chatter(failure::nonblank(text::lines(output)))
}

proof fn lemma_nonblank_add(a: Seq<Seq<char>>, b: Seq<Seq<char>>)
    ensures
        failure::nonblank(a + b) == failure::nonblank(a) + failure::nonblank(b),
    decreases b.len(),
{
    if b.len() == 0 {
        assert(a + b =~= a);
        assert(failure::nonblank(a) + failure::nonblank(b) =~= failure::nonblank(a));
    } else {
        assert((a + b).drop_last() =~= a + b.drop_last());
        lemma_nonblank_add(a, b.drop_last());
        assert(failure::nonblank(a + b) =~= failure::nonblank(a) + failure::nonblank(b));
    }
}

proof fn lemma_chatter_add(a: Seq<Seq<char>>, b: Seq<Seq<char>>)
    ensures
        failure::without_chatter(a + b) == failure::without_chatter(a) + failure::without_chatter(b),
    decreases b.len(),
{
    if b.len() == 0 {
        assert(a + b =~= a);
        assert(failure::without_chatter(a) + failure::without_chatter(b) =~= failure::without_chatter(a));
    } else {
        assert((a + b).drop_last() =~= a + b.drop_last());
        lemma_chatter_add(a, b.drop_last());
        assert(failure::without_chatter(a + b) =~= failure::without_chatter(a) + failure::without_chatter(b));
    }
}

/// What is told of a failure are the lines of its output that hold anything and
/// are no chatter, in their order and without the white space around them. Only
/// where there are none of these, chatter is told.
pub proof fn law_chatter_is_left_out(a: Seq<char>, b: Seq<char>, line: Seq<char>)
    requires
        a.len() == 0 || a.last() == '\n',
        !line.contains('\n'),
    ensures
        saying_lines(a + b) == saying_lines(a) + saying_lines(b),
        failure::nonblank(text::lines(a + b)) == failure::nonblank(text::lines(a)) + failure::nonblank(text::lines(b)),
        saying_lines(line) == (if text::trim(line).len() > 0 && !is_chatter(text::trim(line)) {
            seq![text::trim(line)]
        } else {
            Seq::empty()
        }),
        failure::nonblank(text::lines(line)) == (if text::trim(line).len() > 0 {
            seq![text::trim(line)]
        } else {
            Seq::empty()
        }),
        saying_lines(a).len() > 0 ==> failure::telling_lines(a) == saying_lines(a),
        saying_lines(a).len() == 0 ==> failure::telling_lines(a) == failure::nonblank(text::lines(a)),
{
    text_laws::law_lines_are_read_one_after_another(a, b);
    lemma_nonblank_add(text::lines(a), text::lines(b));
    lemma_chatter_add(failure::nonblank(text::lines(a)), failure::nonblank(text::lines(b)));
    text_laws::law_a_line_ends_at_its_feed(line);
    lemma_chatter(text::trim(line));
    let none = Seq::<Seq<char>>::empty();
    assert(failure::nonblank(none) =~= none);
    assert(failure::without_chatter(none) =~= none);
    if line.len() > 0 {
        let one = seq![line];
        assert(one.drop_last() =~= none);
        if text::trim(line).len() > 0 {
            let t = seq![text::trim(line)];
            assert(failure::nonblank(one) =~= t);
            assert(t.drop_last() =~= none);
            if !is_chatter(text::trim(line)) {
                assert(failure::without_chatter(t) =~= t);
            }
        }
    } else {
        assert(text::trim(line).len() == 0);
    }
}

/// The causes of failures, the most telling first.
pub open spec fn cause_at(k: int) -> Seq<char> {
    if k == 0 {
        "connection refused"@
    } else if k == 1 {
        "connection timed out"@
    } else if k == 2 {
        "name or service not known"@
    } else if k == 3 {
        "temporary failure in name resolution"@
    } else if k == 4 {
        "server returned 4"@
    } else if k == 5 {
        "server returned 5"@
    } else if k == 6 {
        "403 forbidden"@
    } else if k == 7 {
        "404 not found"@
    } else if k == 8 {
        "401 unauthorized"@
    } else if k == 9 {
        "no such file or directory"@
    } else if k == 10 {
        "permission denied"@
    } else if k == 11 {
        "protocol not found"@
    } else if k == 12 {
        "no space left on device"@
    } else {
        "invalid data found"@
    }
}

proof fn lemma_line_with(ls: Seq<Seq<char>>, phrase: Seq<char>, i: int)
    requires
        0 <= i <= ls.len(),
    ensures
        ({
            let k = failure::line_with(ls, phrase, i);
            &&& i <= k <= ls.len()
            &&& k < ls.len() ==> text::contains(text::lower(ls[k]), phrase)
            &&& forall|j: int| i <= j < k ==> !text::contains(text::lower(#[trigger] ls[j]), phrase)
        }),
    decreases ls.len() - i,
{
    if i < ls.len() && !text::contains(text::lower(ls[i]), phrase) {
        lemma_line_with(ls, phrase, i + 1);
    }
}

proof fn lemma_causes()
    ensures
        failure::cause_phrases().len() == 14,
        forall|k: int| 0 <= k < 14 ==> #[trigger] failure::cause_phrases()[k] == cause_at(k),
{
    let c = failure::cause_phrases();
    assert(c[0] == cause_at(0) && c[1] == cause_at(1) && c[2] == cause_at(2) && c[3] == cause_at(3)
        && c[4] == cause_at(4) && c[5] == cause_at(5) && c[6] == cause_at(6) && c[7] == cause_at(7)
        && c[8] == cause_at(8) && c[9] == cause_at(9) && c[10] == cause_at(10) && c[11] == cause_at(
        11,
    ) && c[12] == cause_at(12) && c[13] == cause_at(13));
    assert forall|k: int| 0 <= k < 14 implies #[trigger] c[k] == cause_at(k) by {
        if k == 0 || k == 1 || k == 2 || k == 3 || k == 4 || k == 5 || k == 6 {
        } else {
            assert(k == 7 || k == 8 || k == 9 || k == 10 || k == 11 || k == 12 || k == 13);
        }
    }
}

proof fn lemma_cause_line(ls: Seq<Seq<char>>, k: int, cause: int, i: int)
    requires
        0 <= k <= cause < 14,
        0 <= i < ls.len(),
        text::contains(text::lower(ls[i]), cause_at(cause)),
        forall|j: int| 0 <= j < i ==> !text::contains(text::lower(#[trigger] ls[j]), cause_at(cause)),
        forall|c: int, j: int|
            0 <= c < cause && 0 <= j < ls.len() ==> !text::contains(
                text::lower(#[trigger] ls[j]),
                #[trigger] cause_at(c),
            ),
    ensures
        failure::cause_line(ls, failure::cause_phrases(), k) == Some(ls[i]),
    decreases cause - k,
{
    lemma_causes();
    assert(failure::cause_phrases()[k] == cause_at(k));
    lemma_line_with(ls, cause_at(k), 0);
    let m = failure::line_with(ls, cause_at(k), 0);
    if k < cause {
        if m < ls.len() {
            assert(!text::contains(text::lower(ls[m]), cause_at(k)));
        }
        lemma_cause_line(ls, k + 1, cause, i);
    } else {
        if m < i {
            assert(!text::contains(text::lower(ls[m]), cause_at(cause)));
        }
        if m > i {
            assert(!text::contains(text::lower(ls[i]), cause_at(k)));
        }
    }
}

proof fn lemma_no_cause_line(ls: Seq<Seq<char>>, k: int)
    requires
        0 <= k <= 14,
        forall|c: int, j: int|
            0 <= c < 14 && 0 <= j < ls.len() ==> !text::contains(
                text::lower(#[trigger] ls[j]),
                #[trigger] cause_at(c),
            ),
    ensures
        failure::cause_line(ls, failure::cause_phrases(), k) is None,
    decreases 14 - k,
{
    lemma_causes();
    if k < 14 {
        assert(failure::cause_phrases()[k] == cause_at(k));
        lemma_line_with(ls, cause_at(k), 0);
        let m = failure::line_with(ls, cause_at(k), 0);
        if m < ls.len() {
            assert(!text::contains(text::lower(ls[m]), cause_at(k)));
        }
        lemma_no_cause_line(ls, k + 1);
    }
}

/// The headline of a failure is the first line that names the most telling cause
/// that any line names, in any case, without what stands in brackets before it.
pub proof fn law_the_most_telling_cause_is_the_headline(ls: Seq<Seq<char>>, cause: int, i: int)
    requires
        0 <= cause < 14,
        0 <= i < ls.len(),
        text::contains(text::lower(ls[i]), cause_at(cause)),
        forall|j: int| 0 <= j < i ==> !text::contains(text::lower(#[trigger] ls[j]), cause_at(cause)),
        forall|c: int, j: int|
            0 <= c < cause && 0 <= j < ls.len() ==> !text::contains(
                text::lower(#[trigger] ls[j]),
                #[trigger] cause_at(c),
            ),
    ensures
        failure::headline_of(ls) == failure::without_context(ls[i]),
{
    lemma_cause_line(ls, 0, cause, i);
}

/// Where no line names a cause, the last line is the headline, without what stands
/// in brackets before it; where there is no line, that is said.
pub proof fn law_the_last_line_is_the_headline(ls: Seq<Seq<char>>)
    requires
        forall|c: int, j: int|
            0 <= c < 14 && 0 <= j < ls.len() ==> !text::contains(
                text::lower(#[trigger] ls[j]),
                #[trigger] cause_at(c),
            ),
    ensures
        ls.len() > 0 ==> failure::headline_of(ls) == failure::without_context(ls.last()),
        ls.len() == 0 ==> failure::headline_of(ls) == "FFmpeg produced no diagnostic output"@,
{
    lemma_no_cause_line(ls, 0);
}

/// The component that FFmpeg puts in brackets before a line is no part of what the
/// line says; a line without one is kept.
pub proof fn law_a_component_is_no_part_of_a_line(component: Seq<char>, said: Seq<char>)
    ensures
        !component.contains(']') ==> failure::without_context(
            seq!['['] + component + seq![']', ' '] + said,
        ) == said,
        said.len() == 0 || said[0] != '[' ==> failure::without_context(said) == said,
        !text::contains(said, seq![']', ' ']) ==> failure::without_context(said) == said,
{
    reveal_strlit("[");
    reveal_strlit("] ");
    assert("["@ =~= seq!['[']);
    assert("] "@ =~= seq![']', ' ']);
    let p = seq![']', ' '];
    if !component.contains(']') {
        let line = seq!['['] + component + p + said;
        let rest = component + p + said;
        assert(line =~= seq!['['] + rest);
        text_laws::law_a_start_is_told_from_the_rest(seq!['['], rest);
        text::lemma_find_from(rest, p, 0);
        let n = component.len() as int;
        assert(rest.subrange(n, n + 2) =~= p);
        assert(text::occurs_at(rest, p, n));
        let i = text::find(rest, p)->0;
        if i < n {
            assert(rest.subrange(i, i + 2)[0] == ']');
            assert(component.contains(component[i]));
        }
        assert(rest.skip(n + 2) =~= said);
    }
    if said.len() == 0 || said[0] != '[' {
        if text::starts_with(said, "["@) {
            assert(said.subrange(0, 1)[0] == '[');
        }
    }
    if !text::contains(said, p) && text::starts_with(said, "["@) {
        let rest = said.skip(1);
        text::lemma_find_from(rest, p, 0);
        if let Some(i) = text::find(rest, p) {
            assert(said.subrange(i + 1, i + 3) =~= rest.subrange(i, i + 2));
            assert(text::occurs_at(said, p, i + 1));
        }
    }
}

/// Detail that fits is kept whole. Of longer detail the end is kept, behind a mark:
/// as much as fits, from the start of a line on if one starts there.
pub proof fn law_the_end_of_a_detail_is_kept(s: Seq<char>)
    ensures
        text::byte_len(s) <= 2000 ==> failure::bounded(s) == s,
        text::byte_len(s) > 2000 ==> exists|i: int|
            {
                &&& 0 < i <= s.len()
                &&& failure::bounded(s) == "…earlier output omitted…\n"@ + #[trigger] s.skip(i)
                &&& text::byte_len(s.skip(i)) <= 2000
                &&& s[i - 1] == '\n' || (text::byte_len(s.skip(i - 1)) > 2000 && !s.skip(i).contains(
                    '\n',
                ))
                &&& forall|j: int|
                    0 < j < i && #[trigger] s[j - 1] == '\n' ==> text::byte_len(s.skip(j - 1)) > 2000
            },
{
    if text::byte_len(s) > 2000 {
        let t = text::tail_start(s, 2000);
        text::lemma_tail_start(s, 2000);
        let tail = s.skip(t);
        text::lemma_next_char(tail, '\n', 0);
        let n = text::next_char(tail, '\n', 0);
        assert forall|j: int| 0 < j <= t implies text::byte_len(#[trigger] s.skip(j - 1)) > 2000 by {
            lemma_longer_tail(s, j - 1, t - 1);
        }
        if n < tail.len() {
            let i = t + n + 1;
            assert(tail.skip(n + 1) =~= s.skip(i));
            assert(s[i - 1] == tail[n]);
            lemma_longer_tail(s, t, i);
            assert forall|j: int| 0 < j < i && #[trigger] s[j - 1] == '\n' implies text::byte_len(
                s.skip(j - 1),
            ) > 2000 by {
                if j > t {
                    assert(tail[j - 1 - t] == s[j - 1]);
                }
            }
        } else {
            assert(!tail.contains('\n'));
            assert(failure::bounded(s) == "…earlier output omitted…\n"@ + s.skip(t));
            assert forall|j: int| 0 < j < t && #[trigger] s[j - 1] == '\n' implies text::byte_len(
                s.skip(j - 1),
            ) > 2000 by {}
        }
    }
}

proof fn lemma_longer_tail(s: Seq<char>, i: int, j: int)
    requires
        0 <= i <= j <= s.len(),
    ensures
        text::byte_len(s.skip(j)) <= text::byte_len(s.skip(i)),
{
    assert(s.skip(i) =~= s.subrange(i, j) + s.skip(j));
    text::lemma_byte_len_add(s.subrange(i, j), s.skip(j));
}

// ---------------------------------------------------------------------------
// Messages
// ---------------------------------------------------------------------------

proof fn lemma_holds(a: Seq<char>, p: Seq<char>, b: Seq<char>)
    ensures
        text::contains(a + p + b, p),
{
    text_laws::law_a_phrase_is_held(a + p + b, p);
}

/// The message of a failure tells what the failure is about, as it was stated.
pub proof fn law_a_message_tells_what_it_is_about(e: DownerError)
    ensures
        match e {
            DownerError::InvalidUrl(m) => text::contains(e.text(), m@),
            DownerError::OutputExists(p) => text::contains(e.text(), p@),
            DownerError::OutputPath(m) => text::contains(e.text(), m@),
            DownerError::OutputDirectory(p) => text::contains(e.text(), p@),
            DownerError::OutputIo(m) => text::contains(e.text(), m@),
            DownerError::SourceFetchFailed { status, message } => text::contains(e.text(), message@) && (
            status matches Some(code) ==> text::contains(e.text(), text::decimal(code as nat))),
            DownerError::MediaNotFound(source) => text::contains(e.text(), source@),
            DownerError::CandidateNotOffered(m) => e.text() == m@,
            DownerError::VariantNotOffered(choice) => text::contains(e.text(), choice@),
            DownerError::CookieSource(m) => text::contains(e.text(), m@),
            DownerError::NativeIo(m) => text::contains(e.text(), m@),
            DownerError::Host(m) => text::contains(e.text(), m@),
            DownerError::HostArgument(m) => e.text() == m@,
            DownerError::FfmpegUnavailable(p) => text::contains(e.text(), p@),
            DownerError::FfmpegTooOld { version, minimum, stderr } => text::contains(
                e.text(),
                version.text(),
            ) && text::contains(e.text(), minimum.text()) && (text::trim(stderr@).len() > 0 ==> text::contains(
                e.text(),
                failure::bounded(text::join(failure::telling_lines(stderr@), "\n"@)),
            )),
            DownerError::FfmpegFailed { status, stderr } => text::contains(e.text(), error::status_text(status))
                && (text::trim(stderr@).len() > 0 ==> text::starts_with(
                e.text(),
                failure::headline_of(failure::telling_lines(stderr@)),
            ) && text::contains(e.text(), failure::bounded(text::join(failure::telling_lines(stderr@), "\n"@)))),
            DownerError::SetupCheckFailed => true,
        },
{
    let none = Seq::<char>::empty();
    match e {
        DownerError::InvalidUrl(m) => {
            lemma_holds("invalid URL: "@, m@, none);
            assert("invalid URL: "@ + m@ + none =~= e.text());
        },
        DownerError::OutputExists(p) => {
            lemma_holds(
                "output already exists: "@,
                p@,
                " (use --on-conflict rename to write beside it, or --overwrite to replace it)"@,
            );
        },
        DownerError::OutputPath(m) => {
            lemma_holds("invalid output path: "@, m@, none);
            assert("invalid output path: "@ + m@ + none =~= e.text());
        },
        DownerError::OutputDirectory(p) => {
            lemma_holds("output path is a directory: "@, p@, none);
            assert("output path is a directory: "@ + p@ + none =~= e.text());
        },
        DownerError::OutputIo(m) => {
            lemma_holds("could not prepare output: "@, m@, none);
            assert("could not prepare output: "@ + m@ + none =~= e.text());
        },
        DownerError::SourceFetchFailed { status, message } => {
            match status {
                Some(code) => {
                    let head = "could not fetch source page (HTTP "@;
                    let d = text::decimal(code as nat);
                    lemma_holds(head, d, "): "@ + message@);
                    assert(head + d + ("): "@ + message@) =~= e.text());
                    lemma_holds(head + d + "): "@, message@, none);
                    assert(head + d + "): "@ + message@ + none =~= e.text());
                },
                None => {
                    lemma_holds("could not fetch source page: "@, message@, none);
                    assert("could not fetch source page: "@ + message@ + none =~= e.text());
                },
            }
        },
        DownerError::MediaNotFound(source) => {
            let head = "no supported m3u8 or video media URL was found in source page: "@;
            lemma_holds(head, source@, none);
            assert(head + source@ + none =~= e.text());
        },
        DownerError::CandidateNotOffered(m) => {},
        DownerError::VariantNotOffered(choice) => {
            let head = "the playlist does not offer that rendition: "@;
            lemma_holds(head, choice@, none);
            assert(head + choice@ + none =~= e.text());
        },
        DownerError::CookieSource(m) => {
            lemma_holds("could not read cookie: "@, m@, none);
            assert("could not read cookie: "@ + m@ + none =~= e.text());
        },
        DownerError::NativeIo(m) => {
            lemma_holds("native messaging I/O error: "@, m@, none);
            assert("native messaging I/O error: "@ + m@ + none =~= e.text());
        },
        DownerError::Host(m) => {
            lemma_holds("native host installation failed: "@, m@, none);
            assert("native host installation failed: "@ + m@ + none =~= e.text());
        },
        DownerError::HostArgument(m) => {},
        DownerError::FfmpegUnavailable(p) => {
            let head = "FFmpeg executable is unavailable or cannot be started: "@;
            lemma_holds(head, p@, none);
            assert(head + p@ + none =~= e.text());
        },
        DownerError::FfmpegTooOld { version, minimum, stderr } => {
            let v = version.text();
            let m = minimum.text();
            let middle = " is older than the minimum supported "@;
            let rest = if text::trim(stderr@).len() == 0 {
                none
            } else {
                ":\n"@ + failure::bounded(text::join(failure::telling_lines(stderr@), "\n"@))
            };
            lemma_holds("FFmpeg "@, v, middle + m + rest);
            assert("FFmpeg "@ + v + (middle + m + rest) =~= e.text());
            lemma_holds("FFmpeg "@ + v + middle, m, rest);
            assert("FFmpeg "@ + v + middle + m + rest =~= e.text());
            if text::trim(stderr@).len() > 0 {
                let head = "FFmpeg "@ + v + middle + m + ":\n"@;
                let detail = failure::bounded(text::join(failure::telling_lines(stderr@), "\n"@));
                lemma_holds(head, detail, none);
                assert(head + detail + none =~= e.text());
            }
        },
        DownerError::FfmpegFailed { status, stderr } => {
            let s = error::status_text(status);
            if text::trim(stderr@).len() == 0 {
                lemma_holds("FFmpeg failed with status "@, s, none);
                assert("FFmpeg failed with status "@ + s + none =~= e.text());
            } else {
                let h = failure::headline_of(failure::telling_lines(stderr@));
                let head = h + "\n\nFFmpeg failed with status "@;
                let rest = ":\n"@ + failure::bounded(text::join(failure::telling_lines(stderr@), "\n"@));
                lemma_holds(head, s, rest);
                assert(head + s + rest =~= e.text());
                assert(e.text().subrange(0, h.len() as int) =~= h);
                let detail = failure::bounded(text::join(failure::telling_lines(stderr@), "\n"@));
                lemma_holds(head + s + ":\n"@, detail, none);
                assert(head + s + ":\n"@ + detail + none =~= e.text());
            }
        },
        DownerError::SetupCheckFailed => {},
    }
}

/// The status of a process is shown as its number, or that it is not known.
pub proof fn law_a_status_is_shown_as_its_number(status: i32)
    ensures
        status >= 0 ==> error::status_text(Some(status)) == text::decimal(status as nat),
        status < 0 ==> error::status_text(Some(status)) == seq!['-'] + text::decimal((-status) as nat),
        error::status_text(None) == "unknown"@,
{
    text_laws::law_a_sign_stands_first(status as int);
    text_laws::law_a_sign_stands_first(-(status as int));
}

} // verus!
