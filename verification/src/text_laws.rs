//! What the operations on text amount to, stated without their definitions.

use vstd::prelude::*;
use crate::{output, text};

verus! {

// ---------------------------------------------------------------------------
// Characters and case
// ---------------------------------------------------------------------------

/// Within ASCII, white space is the space, the tab, the line feed, the vertical
/// tab, the form feed and the carriage return; a letter, a digit or a sign that
/// can be printed is none, and no white space but these is a control character
/// except the next-line character.
pub proof fn law_ascii_white_space(c: char)
    ensures
        c as int <= 32 ==> (text::is_white(c) <==> c as int == 32 || 9 <= c as int <= 13),
        33 <= c as int <= 132 ==> !text::is_white(c),
        text::is_white(c) && text::is_control(c) ==> 9 <= c as int <= 13 || c as int == 133,
{
}

/// Beyond ASCII, white space is the next-line character, the spaces of several
/// widths, and the separators of lines and paragraphs.
pub proof fn law_white_space_beyond_ascii(c: char)
    requires
        c as int >= 128,
    ensures
        text::is_white(c) <==> {
            let n = c as int;
            ||| n == 133 || n == 160 || n == 5760
            ||| 8192 <= n <= 8202
            ||| n == 8232 || n == 8233 || n == 8239 || n == 8287 || n == 12288
        },
{
}

/// Lowering a text moves each capital letter of ASCII by the distance between
/// the two alphabets and keeps every other character where it is; raising a text
/// does the opposite.
pub proof fn law_case_is_changed_letter_by_letter(s: Seq<char>, i: int)
    requires
        0 <= i < s.len(),
    ensures
        text::lower(s).len() == s.len(),
        text::upper(s).len() == s.len(),
        65 <= s[i] as int <= 90 ==> text::lower(s)[i] as int == s[i] as int + 32,
        !(65 <= s[i] as int <= 90) ==> text::lower(s)[i] == s[i],
        97 <= s[i] as int <= 122 ==> text::upper(s)[i] as int == s[i] as int - 32,
        !(97 <= s[i] as int <= 122) ==> text::upper(s)[i] == s[i],
{
}

/// The case of a text does not matter once it is lowered or raised, and either
/// is done once and for all.
pub proof fn law_case_is_forgotten(s: Seq<char>)
    ensures
        text::lower(text::lower(s)) == text::lower(s),
        text::upper(text::upper(s)) == text::upper(s),
        text::lower(text::upper(s)) == text::lower(s),
        text::upper(text::lower(s)) == text::upper(s),
        text::eq_fold(s, text::lower(s)),
        text::eq_fold(s, text::upper(s)),
{
    assert(text::lower(text::lower(s)) =~= text::lower(s));
    assert(text::upper(text::upper(s)) =~= text::upper(s));
    assert(text::lower(text::upper(s)) =~= text::lower(s));
    assert(text::upper(text::lower(s)) =~= text::upper(s));
}

/// Two texts that are equal up to case are as long as each other and differ in
/// letters of ASCII alone.
pub proof fn law_equality_up_to_case(a: Seq<char>, b: Seq<char>, i: int)
    requires
        text::eq_fold(a, b),
        0 <= i < a.len(),
    ensures
        a.len() == b.len(),
        a[i] == b[i] || (a[i] as int - b[i] as int == 32 && 65 <= b[i] as int <= 90) || (
        b[i] as int - a[i] as int == 32 && 65 <= a[i] as int <= 90),
{
    assert(text::lower(a).len() == text::lower(b).len());
    assert(text::lower(a)[i] == text::lower(b)[i]);
}

// ---------------------------------------------------------------------------
// Searching and cutting
// ---------------------------------------------------------------------------

/// A text holds a phrase exactly when it is something, the phrase, and something.
pub proof fn law_a_phrase_is_held(s: Seq<char>, p: Seq<char>)
    ensures
        text::contains(s, p) <==> exists|a: Seq<char>, b: Seq<char>| s == #[trigger] (a + p + b),
{
    if text::contains(s, p) {
        let i = choose|i: int| text::occurs_at(s, p, i);
        assert(s =~= s.take(i) + p + s.skip(i + p.len())) by {
            assert forall|k: int| i <= k < i + p.len() implies s[k] == p[k - i] by {
                assert(s.subrange(i, i + p.len())[k - i] == p[k - i]);
            }
        }
    }
    if exists|a: Seq<char>, b: Seq<char>| s == #[trigger] (a + p + b) {
        let (a, b) = choose|a: Seq<char>, b: Seq<char>| s == #[trigger] (a + p + b);
        assert(s.subrange(a.len() as int, (a.len() + p.len()) as int) =~= p);
        assert(text::occurs_at(s, p, a.len() as int));
    }
}

/// Cutting a text at the first of a phrase gives back what stood before and
/// behind it, and is refused where there is none.
pub proof fn law_cutting_at_a_phrase(s: Seq<char>, p: Seq<char>)
    ensures
        match text::split_once(s, p) {
            Some(parts) => s == parts.0 + p + parts.1 && forall|k: int|
                0 <= k < parts.0.len() ==> !text::occurs_at(s, p, k),
            None => !text::contains(s, p),
        },
{
    text::lemma_find_from(s, p, 0);
    if let Some(i) = text::find(s, p) {
        assert(s =~= s.take(i) + p + s.skip(i + p.len())) by {
            assert forall|k: int| i <= k < i + p.len() implies s[k] == p[k - i] by {
                assert(s.subrange(i, i + p.len())[k - i] == p[k - i]);
            }
        }
    }
}

/// Cutting a text at the last of a character gives back what stood before and
/// behind it, and is refused where there is none.
pub proof fn law_cutting_at_the_last(s: Seq<char>, c: char)
    ensures
        match text::rsplit_once(s, c) {
            Some(parts) => s == parts.0 + seq![c] + parts.1 && !parts.1.contains(c),
            None => !s.contains(c),
        },
{
    text::lemma_last_char(s, c, s.len() as int);
    let i = text::last_char(s, c, s.len() as int);
    if i >= 0 {
        assert(s =~= s.take(i) + seq![c] + s.skip(i + 1));
        assert(!s.skip(i + 1).contains(c));
    }
}

/// A character between two texts is the one at which they are cut apart: from the
/// front if the first text does not hold it, from the back if the second does not.
pub proof fn law_a_separator_is_told(a: Seq<char>, b: Seq<char>, c: char)
    ensures
        !a.contains(c) ==> text::split_once(a + seq![c] + b, seq![c]) == Some((a, b)),
        !b.contains(c) ==> text::rsplit_once(a + seq![c] + b, c) == Some((a, b)),
{
    let s = a + seq![c] + b;
    let p = seq![c];
    assert(s[a.len() as int] == c);
    assert(s.take(a.len() as int) =~= a);
    assert(s.skip((a.len() + 1) as int) =~= b);
    if !a.contains(c) {
        text::lemma_find_from(s, p, 0);
        assert(s.subrange(a.len() as int, (a.len() + 1) as int) =~= p);
        assert(text::occurs_at(s, p, a.len() as int));
        let i = text::find(s, p)->0;
        if i < a.len() {
            assert(s.subrange(i, i + 1)[0] == c);
            assert(a.contains(a[i]));
        }
    }
    if !b.contains(c) {
        text::lemma_last_char(s, c, s.len() as int);
        let i = text::last_char(s, c, s.len() as int);
        if i > a.len() {
            assert(s[i] == b[i - a.len() - 1]);
            assert(b.contains(b[i - a.len() - 1]));
        }
    }
}

/// A start is taken off a text that begins with it, and off no other.
pub proof fn law_a_start_is_taken_off(s: Seq<char>, p: Seq<char>)
    ensures
        match text::strip_prefix(s, p) {
            Some(rest) => s == p + rest,
            None => !text::starts_with(s, p),
        },
        text::starts_with(s, p) <==> exists|rest: Seq<char>| s == #[trigger] (p + rest),
{
    if text::starts_with(s, p) {
        assert(s =~= p + s.skip(p.len() as int)) by {
            assert forall|k: int| 0 <= k < p.len() implies s[k] == p[k] by {
                assert(s.subrange(0, p.len() as int)[k] == p[k]);
            }
        }
    }
    if exists|rest: Seq<char>| s == #[trigger] (p + rest) {
        let rest = choose|rest: Seq<char>| s == #[trigger] (p + rest);
        assert(s.subrange(0, p.len() as int) =~= p);
    }
}

/// Something behind a start is what is left once the start is taken off.
pub proof fn law_a_start_is_told_from_the_rest(p: Seq<char>, rest: Seq<char>)
    ensures
        text::strip_prefix(p + rest, p) == Some(rest),
{
    assert((p + rest).subrange(0, p.len() as int) =~= p);
    assert((p + rest).skip(p.len() as int) =~= rest);
}

// ---------------------------------------------------------------------------
// Trimming
// ---------------------------------------------------------------------------

proof fn lemma_trim_start(s: Seq<char>)
    ensures
        text::trim_start(s).len() <= s.len(),
        s == s.take(s.len() - text::trim_start(s).len()) + text::trim_start(s),
        forall|k: int|
            0 <= k < s.len() - text::trim_start(s).len() ==> text::is_white(#[trigger] s[k]),
        text::trim_start(s).len() > 0 ==> !text::is_white(text::trim_start(s)[0]),
    decreases s.len(),
{
    if s.len() > 0 && text::is_white(s[0]) {
        let r = s.skip(1);
        lemma_trim_start(r);
        let n = s.len() - text::trim_start(s).len();
        assert(s =~= s.take(n) + text::trim_start(s)) by {
            assert(r.take(n - 1) + text::trim_start(r) == r);
            assert forall|k: int| n <= k < s.len() implies s[k] == text::trim_start(s)[k - n] by {
                assert(r[k - 1] == (r.take(n - 1) + text::trim_start(r))[k - 1]);
            }
        }
        assert forall|k: int| 0 <= k < n implies text::is_white(#[trigger] s[k]) by {
            if k > 0 {
                assert(text::is_white(r[k - 1]));
            }
        }
    } else {
        assert(s =~= s.take(0) + s);
    }
}

proof fn lemma_trim_end(s: Seq<char>)
    ensures
        text::trim_end(s).len() <= s.len(),
        s == text::trim_end(s) + s.skip(text::trim_end(s).len() as int),
        forall|k: int| text::trim_end(s).len() <= k < s.len() ==> text::is_white(#[trigger] s[k]),
        text::trim_end(s).len() > 0 ==> !text::is_white(text::trim_end(s).last()),
    decreases s.len(),
{
    if s.len() > 0 && text::is_white(s.last()) {
        let r = s.drop_last();
        lemma_trim_end(r);
        let n = text::trim_end(s).len() as int;
        assert(s =~= text::trim_end(s) + s.skip(n)) by {
            assert forall|k: int| 0 <= k < n implies s[k] == text::trim_end(s)[k] by {
                assert(r[k] == (text::trim_end(r) + r.skip(n))[k]);
            }
        }
        assert forall|k: int| n <= k < s.len() implies text::is_white(#[trigger] s[k]) by {
            if k < r.len() {
                assert(text::is_white(r[k]));
            }
        }
    } else {
        assert(s =~= s + s.skip(s.len() as int));
    }
}

/// Trimming a text takes white space off its ends, all of it, and nothing else.
pub proof fn law_trimming_takes_white_space_off(s: Seq<char>)
    ensures
        exists|a: Seq<char>, b: Seq<char>|
            {
                &&& s == #[trigger] (a + text::trim(s) + b)
                &&& forall|k: int| 0 <= k < a.len() ==> text::is_white(#[trigger] a[k])
                &&& forall|k: int| 0 <= k < b.len() ==> text::is_white(#[trigger] b[k])
            },
        text::trim(s).len() > 0 ==> !text::is_white(text::trim(s)[0]) && !text::is_white(text::trim(s).last()),
{
    lemma_trim_start(s);
    let t = text::trim_start(s);
    lemma_trim_end(t);
    let a = s.take(s.len() - t.len());
    let b = t.skip(text::trim(s).len() as int);
    assert(s =~= a + text::trim(s) + b);
    assert forall|k: int| 0 <= k < b.len() implies text::is_white(#[trigger] b[k]) by {
        assert(b[k] == t[text::trim(s).len() + k]);
    }
    if text::trim(s).len() > 0 {
        assert(text::trim(s)[0] == (text::trim_end(t) + t.skip(text::trim(s).len() as int))[0]);
    }
}

/// White space that is added to the ends of a text is all that trimming it takes
/// off, where the text itself neither begins nor ends in white space.
pub proof fn law_trimming_gives_the_text_back(a: Seq<char>, s: Seq<char>, b: Seq<char>)
    requires
        forall|k: int| 0 <= k < a.len() ==> text::is_white(#[trigger] a[k]),
        forall|k: int| 0 <= k < b.len() ==> text::is_white(#[trigger] b[k]),
        s.len() > 0 ==> !text::is_white(s[0]) && !text::is_white(s.last()),
    ensures
        text::trim(a + s + b) == s,
    decreases a.len() + b.len(),
{
    if a.len() > 0 {
        assert((a + s + b).skip(1) =~= a.skip(1) + s + b);
        assert((a + s + b)[0] == a[0]);
        law_trimming_gives_the_text_back(a.skip(1), s, b);
    } else if s.len() > 0 {
        assert(a + s + b =~= s + b);
        assert((s + b)[0] == s[0]);
        assert(text::trim_start(s + b) == s + b);
        if b.len() > 0 {
            assert((s + b).last() == b.last());
            assert((s + b).drop_last() =~= s + b.drop_last());
            assert((s + b.drop_last())[0] == s[0]);
            assert(a + s + b.drop_last() =~= s + b.drop_last());
            law_trimming_gives_the_text_back(a, s, b.drop_last());
        } else {
            assert(s + b =~= s);
        }
    } else if b.len() > 0 {
        assert((a + s + b)[0] == b[0]);
        assert((a + s + b).skip(1) =~= a + s + b.skip(1));
        law_trimming_gives_the_text_back(a, s, b.skip(1));
    } else {
        assert(a + s + b =~= s);
    }
}

/// White space around any text makes no difference once it is trimmed.
pub proof fn law_trimming_forgets_white_space(a: Seq<char>, s: Seq<char>, b: Seq<char>)
    requires
        forall|k: int| 0 <= k < a.len() ==> text::is_white(#[trigger] a[k]),
        forall|k: int| 0 <= k < b.len() ==> text::is_white(#[trigger] b[k]),
    ensures
        text::trim(a + s + b) == text::trim(s),
{
    law_trimming_takes_white_space_off(s);
    let t = text::trim(s);
    let (c, d) = choose|c: Seq<char>, d: Seq<char>|
        {
            &&& s == #[trigger] (c + t + d)
            &&& forall|k: int| 0 <= k < c.len() ==> text::is_white(#[trigger] c[k])
            &&& forall|k: int| 0 <= k < d.len() ==> text::is_white(#[trigger] d[k])
        };
    let left = a + c;
    let right = d + b;
    assert(a + s + b =~= left + t + right);
    assert forall|k: int| 0 <= k < left.len() implies text::is_white(#[trigger] left[k]) by {
        if k < a.len() {
            assert(left[k] == a[k]);
        } else {
            assert(left[k] == c[k - a.len()]);
        }
    }
    assert forall|k: int| 0 <= k < right.len() implies text::is_white(#[trigger] right[k]) by {
        if k < d.len() {
            assert(right[k] == d[k]);
        } else {
            assert(right[k] == b[k - d.len()]);
        }
    }
    law_trimming_gives_the_text_back(left, t, right);
}

/// Trimming the characters of a set takes these off the end or the start, as
/// long as one stands there, and nothing else.
pub proof fn law_trimming_a_set(s: Seq<char>, set: Seq<char>)
    ensures
        ({
            let e = text::trim_end_of(s, set);
            &&& e.len() <= s.len()
            &&& e == s.take(e.len() as int)
            &&& forall|k: int| e.len() <= k < s.len() ==> set.contains(#[trigger] s[k])
            &&& e.len() > 0 ==> !set.contains(e.last())
        }),
        ({
            let b = text::trim_start_of(s, set);
            let n = s.len() - b.len();
            &&& 0 <= n
            &&& b == s.skip(n)
            &&& forall|k: int| 0 <= k < n ==> set.contains(#[trigger] s[k])
            &&& b.len() > 0 ==> !set.contains(b[0])
        }),
    decreases s.len(),
{
    if s.len() > 0 {
        let r = s.drop_last();
        law_trimming_a_set(r, set);
        let e = text::trim_end_of(s, set);
        if set.contains(s.last()) {
            assert(r.take(e.len() as int) =~= s.take(e.len() as int));
            assert forall|k: int| e.len() <= k < s.len() implies set.contains(#[trigger] s[k]) by {
                if k < r.len() {
                    assert(set.contains(r[k]));
                }
            }
        } else {
            assert(s.take(s.len() as int) =~= s);
        }
        let f = s.skip(1);
        law_trimming_a_set(f, set);
        let b = text::trim_start_of(s, set);
        let n = s.len() - b.len();
        if set.contains(s[0]) {
            assert(f.skip(n - 1) =~= s.skip(n));
            assert forall|k: int| 0 <= k < n implies set.contains(#[trigger] s[k]) by {
                if k > 0 {
                    assert(set.contains(f[k - 1]));
                }
            }
        } else {
            assert(s.skip(0) =~= s);
        }
    } else {
        assert(s.take(0) =~= s);
        assert(s.skip(0) =~= s);
    }
}

// ---------------------------------------------------------------------------
// Lines, pieces and words
// ---------------------------------------------------------------------------

proof fn lemma_lines_behind(p: Seq<char>, b: Seq<char>, start: int, i: int)
    requires
        0 <= start <= i <= b.len(),
    ensures
        text::lines_from(p + b, p.len() + start, p.len() + i) == text::lines_from(b, start, i),
    decreases b.len() - i,
{
    let s = p + b;
    let n = p.len() as int;
    assert(s.subrange(n + start, n + i) =~= b.subrange(start, i));
    if i < b.len() {
        if b[i] == '\n' {
            lemma_lines_behind(p, b, i + 1, i + 1);
        } else {
            lemma_lines_behind(p, b, start, i + 1);
        }
    } else {
        assert(s.subrange(n + start, s.len() as int) =~= b.subrange(start, b.len() as int));
    }
}

proof fn lemma_lines_add(a: Seq<char>, b: Seq<char>, start: int, i: int)
    requires
        0 <= start <= i <= a.len(),
        a.len() > 0,
        a.last() == '\n',
        i == a.len() ==> start == i,
    ensures
        text::lines_from(a + b, start, i) == text::lines_from(a, start, i) + text::lines(b),
    decreases a.len() - i,
{
    let s = a + b;
    if i == a.len() {
        lemma_lines_behind(a, b, 0, 0);
        assert(text::lines_from(a, start, i) =~= Seq::<Seq<char>>::empty());
        assert(text::lines_from(a, start, i) + text::lines(b) =~= text::lines(b));
    } else {
        assert(s[i] == a[i]);
        assert(s.subrange(start, i) =~= a.subrange(start, i));
        if a[i] == '\n' {
            lemma_lines_add(a, b, i + 1, i + 1);
            let line = seq![text::strip_return(a.subrange(start, i))];
            assert(line + (text::lines_from(a, i + 1, i + 1) + text::lines(b)) =~= line + text::lines_from(
                a,
                i + 1,
                i + 1,
            ) + text::lines(b));
        } else {
            lemma_lines_add(a, b, start, i + 1);
        }
    }
}

/// The lines of a text of whole lines and of what follows it are the lines of
/// the one and then the lines of the other.
pub proof fn law_lines_are_read_one_after_another(a: Seq<char>, b: Seq<char>)
    requires
        a.len() == 0 || a.last() == '\n',
    ensures
        text::lines(a + b) == text::lines(a) + text::lines(b),
{
    if a.len() == 0 {
        assert(a + b =~= b);
        assert(text::lines(a) =~= Seq::<Seq<char>>::empty());
        assert(text::lines(a) + text::lines(b) =~= text::lines(b));
    } else {
        lemma_lines_add(a, b, 0, 0);
    }
}

proof fn lemma_line_within(a: Seq<char>, b: Seq<char>, i: int)
    requires
        0 <= i <= a.len(),
        !a.contains('\n'),
        b.len() == 0 || b == seq!['\n'],
    ensures
        text::lines_from(a + b, 0, i) == (if b.len() > 0 {
            seq![text::strip_return(a)]
        } else if a.len() > 0 {
            seq![a]
        } else {
            Seq::empty()
        }),
    decreases a.len() - i,
{
    let s = a + b;
    if i < a.len() {
        assert(a.contains(a[i]));
        assert(s[i] == a[i]);
        lemma_line_within(a, b, i + 1);
    } else if b.len() > 0 {
        assert(s[i] == '\n');
        assert(s.subrange(0, i) =~= a);
        assert(text::lines_from(s, i + 1, i + 1) =~= Seq::<Seq<char>>::empty());
        assert(seq![text::strip_return(a)] + Seq::<Seq<char>>::empty() =~= seq![text::strip_return(a)]);
    } else {
        assert(s =~= a);
        assert(s.subrange(0, s.len() as int) =~= a);
    }
}

/// A text without a line feed is one line; with one behind it, it is one line
/// still, even an empty one, and a carriage return before the line feed belongs
/// to the end of the line. No text has no lines.
pub proof fn law_a_line_ends_at_its_feed(line: Seq<char>)
    requires
        !line.contains('\n'),
    ensures
        text::lines(line) == (if line.len() > 0 {
            seq![line]
        } else {
            Seq::empty()
        }),
        line.len() == 0 || line.last() != '\r' ==> text::lines(line.push('\n')) == seq![line],
        text::lines(line.push('\r').push('\n')) == seq![line],
{
    let none = Seq::<char>::empty();
    assert(line + none =~= line);
    lemma_line_within(line, none, 0);
    assert(line + seq!['\n'] =~= line.push('\n'));
    lemma_line_within(line, seq!['\n'], 0);
    let back = line.push('\r');
    assert(!back.contains('\n'));
    assert(back + seq!['\n'] =~= back.push('\n'));
    lemma_line_within(back, seq!['\n'], 0);
    assert(back.drop_last() =~= line);
}

proof fn lemma_split_add(a: Seq<char>, b: Seq<char>, c: char, start: int, i: int)
    requires
        0 <= start <= i <= a.len(),
    ensures
        text::split_from(a + seq![c] + b, c, start, i) == text::split_from(a, c, start, i) + text::split(b, c),
    decreases a.len() - i,
{
    let s = a + seq![c] + b;
    if i < a.len() {
        assert(s[i] == a[i]);
        assert(s.subrange(start, i) =~= a.subrange(start, i));
        if a[i] == c {
            lemma_split_add(a, b, c, i + 1, i + 1);
            assert(text::split_from(s, c, start, i) =~= text::split_from(a, c, start, i) + text::split(b, c));
        } else {
            lemma_split_add(a, b, c, start, i + 1);
        }
    } else {
        assert(s[i] == c);
        assert(s.subrange(start, i) =~= a.subrange(start, a.len() as int));
        lemma_pieces_behind(a + seq![c], b, c, 0, 0);
    }
}

proof fn lemma_pieces_behind(p: Seq<char>, b: Seq<char>, c: char, start: int, i: int)
    requires
        0 <= start <= i <= b.len(),
    ensures
        text::split_from(p + b, c, p.len() + start, p.len() + i) == text::split_from(b, c, start, i),
    decreases b.len() - i,
{
    let s = p + b;
    let n = p.len() as int;
    assert(s.subrange(n + start, n + i) =~= b.subrange(start, i));
    if i < b.len() {
        if b[i] == c {
            lemma_pieces_behind(p, b, c, i + 1, i + 1);
        } else {
            lemma_pieces_behind(p, b, c, start, i + 1);
        }
    } else {
        assert(s.subrange(n + start, s.len() as int) =~= b.subrange(start, b.len() as int));
    }
}

proof fn lemma_piece_alone(a: Seq<char>, c: char, i: int)
    requires
        0 <= i <= a.len(),
        !a.contains(c),
    ensures
        text::split_from(a, c, 0, i) == seq![a],
    decreases a.len() - i,
{
    if i < a.len() {
        assert(a.contains(a[i]));
        lemma_piece_alone(a, c, i + 1);
    } else {
        assert(a.subrange(0, a.len() as int) =~= a);
    }
}

/// Splitting a text at a separator gives the pieces before it and then those
/// behind it; a text without the separator is one piece, the empty text too.
pub proof fn law_splitting_at_a_separator(a: Seq<char>, b: Seq<char>, c: char)
    ensures
        text::split(a + seq![c] + b, c) == text::split(a, c) + text::split(b, c),
        !a.contains(c) ==> text::split(a, c) == seq![a],
{
    lemma_split_add(a, b, c, 0, 0);
    if !a.contains(c) {
        lemma_piece_alone(a, c, 0);
    }
}

proof fn lemma_words_add(a: Seq<char>, b: Seq<char>, w: char, start: int, i: int)
    requires
        0 <= start <= i <= a.len(),
        text::is_white(w),
    ensures
        text::words_from(a + seq![w] + b, start, i) == text::words_from(a, start, i) + text::words(b),
    decreases a.len() - i,
{
    let s = a + seq![w] + b;
    assert(s.subrange(start, i) =~= a.subrange(start, i));
    if i < a.len() {
        assert(s[i] == a[i]);
        if text::is_white(a[i]) {
            lemma_words_add(a, b, w, i + 1, i + 1);
        } else {
            lemma_words_add(a, b, w, start, i + 1);
        }
    } else {
        assert(s[i] == w);
        lemma_words_after(a + seq![w], b, 0, 0);
    }
    assert(text::words_from(s, start, i) =~= text::words_from(a, start, i) + text::words(b));
}

proof fn lemma_words_after(p: Seq<char>, b: Seq<char>, start: int, i: int)
    requires
        0 <= start <= i <= b.len(),
    ensures
        text::words_from(p + b, p.len() + start, p.len() + i) == text::words_from(b, start, i),
    decreases b.len() - i,
{
    let s = p + b;
    let n = p.len() as int;
    assert(s.subrange(n + start, n + i) =~= b.subrange(start, i));
    if i < b.len() {
        if text::is_white(b[i]) {
            lemma_words_after(p, b, i + 1, i + 1);
        } else {
            lemma_words_after(p, b, start, i + 1);
        }
    }
}

/// The words around white space are those before it and then those behind it; a
/// text that holds no white space is one word, and no text holds none.
pub proof fn law_words_stand_between_white_space(a: Seq<char>, b: Seq<char>, w: char)
    requires
        text::is_white(w),
    ensures
        text::words(a + seq![w] + b) == text::words(a) + text::words(b),
        a.len() > 0 && (forall|k: int| 0 <= k < a.len() ==> !text::is_white(#[trigger] a[k])) ==> text::words(a)
            == seq![a],
        text::words(Seq::<char>::empty()) == Seq::<Seq<char>>::empty(),
{
    lemma_words_add(a, b, w, 0, 0);
    if a.len() > 0 && (forall|k: int| 0 <= k < a.len() ==> !text::is_white(#[trigger] a[k])) {
        text::lemma_only_word(a);
    }
}

/// Joining pieces puts the separator between each two of them and nothing
/// anywhere else.
pub proof fn law_joining_pieces(v: Seq<Seq<char>>, w: Seq<Seq<char>>, sep: Seq<char>)
    requires
        v.len() > 0,
        w.len() > 0,
    ensures
        text::join(v + w, sep) == text::join(v, sep) + sep + text::join(w, sep),
        v.len() == 1 ==> text::join(v, sep) == v[0],
        text::join(Seq::<Seq<char>>::empty(), sep) == Seq::<char>::empty(),
    decreases w.len(),
{
    let last = w.last();
    if w.len() == 1 {
        assert((v + w).drop_last() =~= v);
        assert((v + w).last() == last);
    } else {
        assert((v + w).drop_last() =~= v + w.drop_last());
        assert((v + w).last() == last);
        law_joining_pieces(v, w.drop_last(), sep);
        assert(text::join(v + w, sep) =~= text::join(v, sep) + sep + text::join(w, sep));
    }
}

/// The pieces of a text joined with the separator that they stood between are
/// the text again.
pub proof fn law_joining_undoes_splitting(s: Seq<char>, c: char)
    ensures
        text::join(text::split(s, c), seq![c]) == s,
        text::split(s, c).len() > 0,
        forall|k: int| 0 <= k < text::split(s, c).len() ==> !(#[trigger] text::split(s, c)[k]).contains(c),
    decreases s.len(),
{
    if s.contains(c) {
        text::lemma_next_char(s, c, 0);
        let i = text::next_char(s, c, 0);
        let j = choose|j: int| 0 <= j < s.len() && s[j] == c;
        let a = s.take(i);
        let b = s.skip(i + 1);
        assert(s =~= a + seq![c] + b);
        assert(!a.contains(c));
        law_splitting_at_a_separator(a, b, c);
        law_joining_undoes_splitting(b, c);
        law_joining_pieces(seq![a], text::split(b, c), seq![c]);
        assert forall|k: int| 0 <= k < text::split(s, c).len() implies !(#[trigger] text::split(
            s,
            c,
        )[k]).contains(c) by {
            if k > 0 {
                assert(text::split(s, c)[k] == text::split(b, c)[k - 1]);
            }
        }
    } else {
        law_splitting_at_a_separator(s, s, c);
    }
}

// ---------------------------------------------------------------------------
// Replacing
// ---------------------------------------------------------------------------

/// What is replaced behind a start does not depend on the start.
pub proof fn lemma_replace_behind(
    p: Seq<char>,
    b: Seq<char>,
    from: Seq<char>,
    to: Seq<char>,
    i: int,
)
    requires
        0 <= i,
    ensures
        text::replace_from(p + b, from, to, p.len() + i) == text::replace_from(b, from, to, i),
    decreases b.len() - i,
{
    let s = p + b;
    let n = p.len() as int;
    if i < b.len() {
        if i + from.len() <= b.len() {
            assert(s.subrange(n + i, n + i + from.len()) =~= b.subrange(i, i + from.len()));
        }
        if from.len() > 0 && text::occurs_at(b, from, i) {
            lemma_replace_behind(p, b, from, to, i + from.len());
        } else {
            lemma_replace_behind(p, b, from, to, i + 1);
        }
    }
}

proof fn lemma_replace_first(
    a: Seq<char>,
    from: Seq<char>,
    b: Seq<char>,
    to: Seq<char>,
    i: int,
)
    requires
        from.len() > 0,
        0 <= i <= a.len(),
        forall|k: int| 0 <= k < a.len() ==> !text::occurs_at(a + from + b, from, k),
    ensures
        text::replace_from(a + from + b, from, to, i) == a.skip(i) + to + text::replace(b, from, to),
    decreases a.len() - i,
{
    let s = a + from + b;
    if i < a.len() {
        lemma_replace_first(a, from, b, to, i + 1);
        assert(s[i] == a[i]);
        assert(a.skip(i) =~= seq![a[i]] + a.skip(i + 1));
        assert(seq![a[i]] + (a.skip(i + 1) + to + text::replace(b, from, to)) =~= a.skip(i) + to
            + text::replace(b, from, to));
    } else {
        assert(s.subrange(i, i + from.len()) =~= from);
        assert(s =~= (a + from) + b);
        lemma_replace_behind(a + from, b, from, to, 0);
        assert(a.skip(i) =~= Seq::empty());
        assert(a.skip(i) + to =~= to);
    }
}

proof fn lemma_replace_nothing(s: Seq<char>, from: Seq<char>, to: Seq<char>, i: int)
    requires
        0 <= i <= s.len(),
        !text::contains(s, from),
    ensures
        text::replace_from(s, from, to, i) == s.skip(i),
    decreases s.len() - i,
{
    if i < s.len() {
        assert(!text::occurs_at(s, from, i));
        lemma_replace_nothing(s, from, to, i + 1);
        assert(s.skip(i) =~= seq![s[i]] + s.skip(i + 1));
    } else {
        assert(s.skip(i) =~= Seq::empty());
    }
}

/// A text without the phrase is kept as it is. In any other text the first of
/// the phrase is replaced, what stood before it is kept, and what stood behind it
/// is treated in the same way.
pub proof fn law_replacing_a_phrase(
    a: Seq<char>,
    from: Seq<char>,
    b: Seq<char>,
    to: Seq<char>,
)
    requires
        from.len() > 0,
    ensures
        !text::contains(b, from) ==> text::replace(b, from, to) == b,
        (forall|k: int| 0 <= k < a.len() ==> !text::occurs_at(a + from + b, from, k)) ==> text::replace(
            a + from + b,
            from,
            to,
        ) == a + to + text::replace(b, from, to),
{
    if !text::contains(b, from) {
        lemma_replace_nothing(b, from, to, 0);
        assert(b.skip(0) =~= b);
    }
    if forall|k: int| 0 <= k < a.len() ==> !text::occurs_at(a + from + b, from, k) {
        lemma_replace_first(a, from, b, to, 0);
        assert(a.skip(0) =~= a);
    }
}

// ---------------------------------------------------------------------------
// Numbers
// ---------------------------------------------------------------------------

/// A number in decimal is read back as that number wherever it fits, with or
/// without a plus sign, and is refused where it does not.
pub proof fn law_a_number_is_read_back(n: nat, max: nat)
    ensures
        n <= max ==> text::parse_unsigned(text::decimal(n), max) == Some(n),
        n > max ==> text::parse_unsigned(text::decimal(n), max) is None,
        text::parse_unsigned(seq!['+'] + text::decimal(n), max) == text::parse_unsigned(text::decimal(n), max),
{
    output::lemma_decimal_value(n);
    assert(text::is_digit(text::decimal(n)[0]));
    assert((seq!['+'] + text::decimal(n)).skip(1) =~= text::decimal(n));
}

/// A digit behind a number that is read multiplies it by ten and is added to it.
pub proof fn law_a_digit_extends_a_number(s: Seq<char>, d: char, max: nat)
    ensures
        text::parse_unsigned(s, max) is Some && '0' <= d <= '9' ==> text::parse_unsigned(s.push(d), max) == ({
            let more = (text::parse_unsigned(s, max)->0 * 10 + (d as int - '0' as int)) as nat;
            if more <= max {
                Some(more)
            } else {
                None
            }
        }),
        '0' <= d <= '9' && (d as int - '0' as int) <= max ==> text::parse_unsigned(seq![d], max) == Some(
            (d as int - '0' as int) as nat,
        ),
{
    let t = s.push(d);
    if text::parse_unsigned(s, max) is Some && '0' <= d <= '9' {
        if s[0] == '+' {
            assert(t.skip(1) =~= s.skip(1).push(d));
            assert(t.skip(1).drop_last() =~= s.skip(1));
        } else {
            assert(t[0] == s[0]);
            assert(t.drop_last() =~= s);
        }
    }
    assert(seq![d].drop_last() =~= Seq::empty());
    assert(text::digits_value(Seq::<char>::empty()) == 0);
}

/// What is read as a number holds a digit, and nothing but digits behind a plus
/// sign.
pub proof fn law_a_number_is_made_of_digits(s: Seq<char>, max: nat)
    requires
        text::parse_unsigned(s, max) is Some,
    ensures
        text::parse_unsigned(s, max)->0 <= max,
        s.len() > 0,
        '0' <= s.last() <= '9',
        forall|k: int| 0 < k < s.len() ==> '0' <= #[trigger] s[k] <= '9',
        '0' <= s[0] <= '9' || s[0] == '+',
{
    if s[0] == '+' {
        assert forall|k: int| 0 < k < s.len() implies '0' <= #[trigger] s[k] <= '9' by {
            assert(text::is_digit(s.skip(1)[k - 1]));
        }
    } else {
        assert forall|k: int| 0 <= k < s.len() implies '0' <= #[trigger] s[k] <= '9' by {
            assert(text::is_digit(s[k]));
        }
    }
}

/// A number begins with a zero only if it is zero, and zeros that fill it up to a
/// width change neither its value nor its last digits.
pub proof fn law_a_number_is_filled_with_zeros(n: nat, width: nat)
    ensures
        text::decimal(n)[0] == '0' ==> n == 0,
        text::zero_padded(n, width).len() == if text::decimal(n).len() < width {
            width
        } else {
            text::decimal(n).len()
        },
        text::digits_value(text::zero_padded(n, width)) == n,
        text::all_digits(text::zero_padded(n, width)),
    decreases n,
{
    output::lemma_decimal_value(n);
    if n >= 10 {
        law_a_number_is_filled_with_zeros(n / 10, 0);
        output::lemma_decimal_value(n / 10);
        assert(text::decimal(n)[0] == text::decimal(n / 10)[0]);
    }
    let d = text::decimal(n);
    if d.len() < width {
        let zeros = Seq::new((width - d.len()) as nat, |i: int| '0');
        lemma_zeros(zeros, d);
    }
}

proof fn lemma_zeros(zeros: Seq<char>, d: Seq<char>)
    requires
        forall|k: int| 0 <= k < zeros.len() ==> #[trigger] zeros[k] == '0',
    ensures
        text::digits_value(zeros + d) == text::digits_value(d),
    decreases zeros.len() + d.len(),
{
    if d.len() > 0 {
        assert((zeros + d).drop_last() =~= zeros + d.drop_last());
        lemma_zeros(zeros, d.drop_last());
    } else if zeros.len() > 0 {
        assert(zeros + d =~= zeros);
        assert(zeros.last() == '0');
        assert(zeros.drop_last() + d =~= zeros.drop_last());
        lemma_zeros(zeros.drop_last(), d);
    } else {
        assert(zeros + d =~= d);
    }
}

/// A negative number is its sign and the number that it undoes.
pub proof fn law_a_sign_stands_first(n: int)
    ensures
        n >= 0 ==> text::signed_decimal(n) == text::decimal(n as nat),
        n < 0 ==> text::signed_decimal(n) == seq!['-'] + text::signed_decimal(-n),
{
    reveal_strlit("-");
    assert("-"@ =~= seq!['-']);
}

// ---------------------------------------------------------------------------
// Bytes
// ---------------------------------------------------------------------------

/// A character of ASCII takes one byte, none takes more than four, a character
/// takes no less than one with a lower code, and two texts take the bytes of
/// both.
pub proof fn law_bytes_add_up(a: Seq<char>, b: Seq<char>, c: char, d: char)
    ensures
        text::byte_len(a + b) == text::byte_len(a) + text::byte_len(b),
        text::byte_len(seq![c]) == 1 <==> c as int <= 127,
        text::byte_len(seq![c]) <= 2 <==> c as int <= 2047,
        text::byte_len(seq![c]) <= 3 <==> c as int <= 65535,
        1 <= text::byte_len(seq![c]) <= 4,
        text::byte_len(Seq::<char>::empty()) == 0,
        c <= d ==> text::byte_len(seq![c]) <= text::byte_len(seq![d]),
{
    text::lemma_byte_len_add(a, b);
    assert(seq![c].drop_last() =~= Seq::empty());
    assert(seq![d].drop_last() =~= Seq::empty());
    assert(text::byte_len(Seq::<char>::empty()) == 0);
}

} // verus!
