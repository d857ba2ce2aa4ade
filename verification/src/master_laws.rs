//! What reading a list of renditions amounts to, stated without the definitions of
//! its lines and attributes.

use vstd::prelude::*;
use crate::{output, playlist_laws, scraper, text, text_laws, web};
use crate::scraper::{AudioEntryView, AudioView, ChoiceView, RenditionView, VariantEntryView};
use crate::web::UrlView;

verus! {

// ---------------------------------------------------------------------------
// Attributes
// ---------------------------------------------------------------------------

/// Whether a text opens a quote that it does not close.
pub open spec fn leaves_quote_open(s: Seq<char>) -> bool
    decreases s.len(),
{
    if s.len() == 0 {
        false
    } else if s.last() == '"' {
        !leaves_quote_open(s.drop_last())
    } else {
        leaves_quote_open(s.drop_last())
    }
}

proof fn lemma_quotes_add(a: Seq<char>, b: Seq<char>)
    ensures
        leaves_quote_open(a + b) == (leaves_quote_open(a) != leaves_quote_open(b)),
    decreases b.len(),
{
    if b.len() == 0 {
        assert(a + b =~= a);
    } else {
        assert((a + b).drop_last() =~= a + b.drop_last());
        lemma_quotes_add(a, b.drop_last());
    }
}

proof fn lemma_no_quotes(s: Seq<char>)
    requires
        !s.contains('"'),
    ensures
        !leaves_quote_open(s),
    decreases s.len(),
{
    if s.len() > 0 {
        assert(s.contains(s[s.len() - 1]));
        let r = s.drop_last();
        assert(!r.contains('"')) by {
            if r.contains('"') {
                let k = choose|k: int| 0 <= k < r.len() && r[k] == '"';
                assert(s[k] == '"');
            }
        }
        lemma_no_quotes(r);
    }
}

proof fn lemma_fields_behind(p: Seq<char>, b: Seq<char>, start: int, i: int, q: bool)
    requires
        0 <= start <= i <= b.len(),
    ensures
        scraper::fields_from(p + b, p.len() + start, p.len() + i, q) == scraper::fields_from(b, start, i, q),
    decreases b.len() - i,
{
    let s = p + b;
    let n = p.len() as int;
    assert(s.subrange(n + start, n + i) =~= b.subrange(start, i));
    if i < b.len() {
        assert(s[n + i] == b[i]);
        if b[i] == '"' {
            lemma_fields_behind(p, b, start, i + 1, !q);
        } else if b[i] == ',' && !q {
            lemma_fields_behind(p, b, i + 1, i + 1, false);
        } else {
            lemma_fields_behind(p, b, start, i + 1, q);
        }
    } else {
        assert(s.subrange(n + start, s.len() as int) =~= b.subrange(start, b.len() as int));
    }
}

proof fn lemma_fields_add(a: Seq<char>, b: Seq<char>, start: int, i: int, q: bool)
    requires
        0 <= start <= i <= a.len(),
        q == leaves_quote_open(a.take(i)),
        !leaves_quote_open(a),
    ensures
        scraper::fields_from(a + seq![','] + b, start, i, q) == scraper::fields_from(a, start, i, q) + scraper::fields_from(
            b,
            0,
            0,
            false,
        ),
    decreases a.len() - i,
{
    let s = a + seq![','] + b;
    if i < a.len() {
        assert(s[i] == a[i]);
        assert(s.subrange(start, i) =~= a.subrange(start, i));
        assert(a.take(i + 1).drop_last() =~= a.take(i));
        assert(a.take(i + 1).last() == a[i]);
        if a[i] == '"' {
            lemma_fields_add(a, b, start, i + 1, !q);
        } else if a[i] == ',' && !q {
            lemma_fields_add(a, b, i + 1, i + 1, false);
            let field = seq![a.subrange(start, i)];
            let rest = scraper::fields_from(a, i + 1, i + 1, false);
            let more = scraper::fields_from(b, 0, 0, false);
            assert(field + (rest + more) =~= field + rest + more);
        } else {
            lemma_fields_add(a, b, start, i + 1, q);
        }
    } else {
        assert(a.take(i) =~= a);
        assert(s[i] == ',');
        assert(s.subrange(start, i) =~= a.subrange(start, a.len() as int));
        lemma_fields_behind(a + seq![','], b, 0, 0, false);
    }
}

proof fn lemma_one_field(a: Seq<char>, i: int, q: bool)
    requires
        0 <= i <= a.len(),
        q == leaves_quote_open(a.take(i)),
        forall|k: int|
            0 <= k < a.len() && #[trigger] a[k] == ',' ==> leaves_quote_open(a.take(k)),
    ensures
        scraper::fields_from(a, 0, i, q) == seq![a],
    decreases a.len() - i,
{
    if i < a.len() {
        assert(a.take(i + 1).drop_last() =~= a.take(i));
        assert(a.take(i + 1).last() == a[i]);
        if a[i] == '"' {
            lemma_one_field(a, i + 1, !q);
        } else {
            lemma_one_field(a, i + 1, q);
        }
    } else {
        assert(a.subrange(0, a.len() as int) =~= a);
    }
}

proof fn lemma_pairs_add(a: Seq<Seq<char>>, b: Seq<Seq<char>>)
    ensures
        scraper::field_pairs(a + b) == scraper::field_pairs(a) + scraper::field_pairs(b),
    decreases b.len(),
{
    if b.len() == 0 {
        assert(a + b =~= a);
        assert(scraper::field_pairs(a) + scraper::field_pairs(b) =~= scraper::field_pairs(a));
    } else {
        assert((a + b).drop_last() =~= a + b.drop_last());
        lemma_pairs_add(a, b.drop_last());
        assert(scraper::field_pairs(a + b) =~= scraper::field_pairs(a) + scraper::field_pairs(b));
    }
}

proof fn lemma_one_pair(field: Seq<char>)
    ensures
        scraper::field_pairs(seq![field]) == (match scraper::field_pair(field) {
            Some(pair) => seq![pair],
            None => Seq::empty(),
        }),
{
    let one = seq![field];
    let none = Seq::<Seq<char>>::empty();
    assert(one.drop_last() =~= none);
    assert(scraper::field_pairs(none) =~= Seq::<(Seq<char>, Seq<char>)>::empty());
    if let Some(pair) = scraper::field_pair(field) {
        assert(scraper::field_pairs(one) =~= seq![pair]);
    }
}

/// A comma that stands in no quotes separates attributes: those before it come
/// first, then those behind it.
pub proof fn law_a_comma_separates_attributes(a: Seq<char>, b: Seq<char>)
    requires
        !leaves_quote_open(a),
    ensures
        scraper::attributes(a + seq![','] + b) == scraper::attributes(a) + scraper::attributes(b),
{
    assert(a.take(0) =~= Seq::empty());
    lemma_fields_add(a, b, 0, 0, false);
    lemma_pairs_add(scraper::fields_from(a, 0, 0, false), scraper::fields_from(b, 0, 0, false));
}

/// Whether a text can name an attribute: capitals and dashes.
pub open spec fn is_attribute_word(name: Seq<char>) -> bool {
    name.len() > 0 && forall|k: int|
        0 <= k < name.len() ==> 'A' <= #[trigger] name[k] <= 'Z' || name[k] == '-'
}

proof fn lemma_word(name: Seq<char>)
    requires
        is_attribute_word(name),
    ensures
        !name.contains('=') && !name.contains('"') && !name.contains(',') && !name.contains('\n'),
        text::upper(name) == name,
        text::trim(name) == name,
        !text::is_white(name[0]) && !text::is_white(name.last()),
{
    assert(text::upper(name) =~= name) by {
        assert forall|k: int| 0 <= k < name.len() implies text::upper(name)[k] == name[k] by {
            assert('A' <= name[k] <= 'Z' || name[k] == '-');
        }
    }
    assert('A' <= name[0] <= 'Z' || name[0] == '-');
    assert('A' <= name[name.len() - 1] <= 'Z' || name[name.len() - 1] == '-');
    let none = Seq::<char>::empty();
    text_laws::law_trimming_gives_the_text_back(none, name, none);
    assert(none + name + none =~= name);
}

/// An attribute whose value stands in quotes, as it is written.
pub open spec fn in_quotes(name: Seq<char>, value: Seq<char>) -> Seq<char> {
    name + seq!['=', '"'] + value + seq!['"']
}

/// An attribute whose value stands in none, as it is written.
pub open spec fn plain(name: Seq<char>, value: Seq<char>) -> Seq<char> {
    name + seq!['='] + value
}

proof fn lemma_pair(name: Seq<char>, value: Seq<char>)
    requires
        is_attribute_word(name),
        value.len() > 0,
        !text::is_white(value[0]) && !text::is_white(value.last()),
    ensures
        scraper::field_pair(name + seq!['='] + value) == Some(
            (name, text::trim_end_of(text::trim_start_of(value, "\""@), "\""@)),
        ),
{
    reveal_strlit("=");
    assert("="@ =~= seq!['=']);
    let field = name + seq!['='] + value;
    lemma_word(name);
    let none = Seq::<char>::empty();
    assert(field[0] == name[0] && field.last() == value.last());
    text_laws::law_trimming_gives_the_text_back(none, field, none);
    assert(none + field + none =~= field);
    text_laws::law_trimming_gives_the_text_back(none, value, none);
    assert(none + value + none =~= value);
    text_laws::law_a_separator_is_told(name, value, '=');
}

/// An attribute is read as its name and its value. Quotes around the value are no
/// part of it, and keep a comma within it from ending it.
pub proof fn law_an_attribute_is_read_back(name: Seq<char>, value: Seq<char>)
    requires
        is_attribute_word(name),
        !value.contains('"'),
    ensures
        scraper::attributes(in_quotes(name, value)) == seq![(name, value)],
        !leaves_quote_open(in_quotes(name, value)),
        value.len() > 0 && !text::is_white(value[0]) && !text::is_white(value.last()) && !value.contains(',')
            ==> scraper::attributes(plain(name, value)) == seq![(name, value)] && !leaves_quote_open(
            plain(name, value),
        ),
{
    reveal_strlit("\"");
    lemma_word(name);
    let set = "\""@;
    assert(set =~= seq!['"']);
    assert(set[0] == '"');
    let mark = seq!['"'];
    let quoted = mark + value + mark;
    let field = in_quotes(name, value);
    assert(field =~= name + seq!['='] + quoted);
    assert(!text::is_white('"'));
    assert(quoted[0] == '"' && quoted.last() == '"');
    lemma_pair(name, quoted);
    lemma_unquoted(value);
    // Every comma stands behind the quote that opens the value.
    lemma_no_quotes(name);
    lemma_no_quotes(value);
    assert(!seq!['='].contains('"'));
    lemma_no_quotes(seq!['=']);
    lemma_quotes_add(name, seq!['=']);
    let head = name + seq!['='];
    assert(mark.drop_last() =~= Seq::empty());
    assert(!leaves_quote_open(Seq::empty()));
    assert(leaves_quote_open(mark));
    lemma_quotes_add(head, mark);
    lemma_quotes_add(head + mark, value);
    lemma_quotes_add(head + mark + value, mark);
    assert(field =~= head + mark + value + mark);
    let n = name.len() as int;
    assert forall|k: int| 0 <= k < field.len() && #[trigger] field[k] == ',' implies leaves_quote_open(
        field.take(k),
    ) by {
        if k < n {
            assert(name.contains(name[k]));
        }
        assert(k >= n + 2 && k < field.len() - 1);
        let part = value.take(k - n - 2);
        assert(field.take(k) =~= head + mark + part);
        assert(!part.contains('"')) by {
            if part.contains('"') {
                let j = choose|j: int| 0 <= j < part.len() && part[j] == '"';
                assert(value[j] == '"');
            }
        }
        lemma_no_quotes(part);
        lemma_quotes_add(head + mark, part);
    }
    assert(field.take(0) =~= Seq::empty());
    lemma_one_field(field, 0, false);
    lemma_one_pair(field);
    if value.len() > 0 && !text::is_white(value[0]) && !text::is_white(value.last()) && !value.contains(',') {
        let bare = plain(name, value);
        lemma_pair(name, value);
        assert(value.contains(value[0]) && value.contains(value[value.len() - 1]));
        assert(text::trim_start_of(value, set) == value);
        assert(text::trim_end_of(value, set) == value);
        assert forall|k: int| 0 <= k < bare.len() && #[trigger] bare[k] == ',' implies leaves_quote_open(
            bare.take(k),
        ) by {
            if k < n {
                assert(name.contains(name[k]));
            } else if k > n {
                assert(value.contains(value[k - n - 1]));
            }
        }
        assert(bare.take(0) =~= Seq::empty());
        lemma_one_field(bare, 0, false);
        lemma_one_pair(bare);
        lemma_quotes_add(head, value);
        assert(bare =~= head + value);
    }
}

proof fn lemma_unquoted(value: Seq<char>)
    requires
        !value.contains('"'),
    ensures
        text::trim_end_of(text::trim_start_of(seq!['"'] + value + seq!['"'], "\""@), "\""@) == value,
{
    reveal_strlit("\"");
    let set = "\""@;
    assert(set =~= seq!['"']);
    assert(set[0] == '"');
    let mark = seq!['"'];
    let quoted = mark + value + mark;
    let rest = value + mark;
    assert(quoted.skip(1) =~= rest);
    assert(quoted[0] == '"');
    assert(text::trim_start_of(quoted, set) == text::trim_start_of(rest, set));
    if value.len() > 0 {
        assert(value.contains(value[0]) && value.contains(value[value.len() - 1]));
        assert(rest[0] == value[0]);
        assert(text::trim_start_of(rest, set) == rest);
        assert(rest.last() == '"');
        assert(rest.drop_last() =~= value);
        assert(text::trim_end_of(value, set) == value);
    } else {
        assert(rest =~= mark);
        assert(rest[0] == '"');
        assert(rest.skip(1) =~= Seq::empty());
        assert(text::trim_start_of(rest.skip(1), set) =~= Seq::empty());
        assert(text::trim_start_of(rest, set) == text::trim_start_of(rest.skip(1), set));
        assert(text::trim_end_of(Seq::<char>::empty(), set) =~= Seq::empty());
        assert(value =~= Seq::empty());
    }
}

/// Whether a text is letters and dashes, in either case.
pub open spec fn is_word_in_any_case(name: Seq<char>) -> bool {
    is_attribute_word(text::upper(name))
}

/// The name of an attribute counts in any case, and white space around it and
/// around its value does not count.
pub proof fn law_a_name_counts_in_any_case(
    a: Seq<char>,
    name: Seq<char>,
    b: Seq<char>,
    c: Seq<char>,
    value: Seq<char>,
    d: Seq<char>,
)
    requires
        is_word_in_any_case(name),
        forall|k: int| 0 <= k < a.len() ==> text::is_white(#[trigger] a[k]),
        forall|k: int| 0 <= k < b.len() ==> text::is_white(#[trigger] b[k]),
        forall|k: int| 0 <= k < c.len() ==> text::is_white(#[trigger] c[k]),
        forall|k: int| 0 <= k < d.len() ==> text::is_white(#[trigger] d[k]),
        value.len() > 0 && !text::is_white(value[0]) && !text::is_white(value.last()),
        !value.contains(',') && !value.contains('"'),
    ensures
        scraper::attributes(a + (name + b + seq!['='] + (c + value)) + d) == seq![(text::upper(name), value)],
{
    reveal_strlit("=");
    reveal_strlit("\"");
    assert("="@ =~= seq!['=']);
    let set = "\""@;
    assert(set =~= seq!['"']);
    let left = name + b;
    let right = c + value;
    let inner = left + seq!['='] + right;
    let field = a + inner + d;
    assert forall|k: int| 0 <= k < name.len() implies (#[trigger] name[k]) != '=' && name[k] != ','
        && name[k] != '"' && !text::is_white(name[k]) by {
        let u = text::upper(name)[k];
        assert('A' <= u <= 'Z' || u == '-');
    }
    assert(name.len() > 0) by {
        assert(text::upper(name).len() > 0);
    }
    assert(inner[0] == name[0] && inner.last() == value.last());
    text_laws::law_trimming_gives_the_text_back(a, inner, d);
    let none = Seq::<char>::empty();
    text_laws::law_trimming_gives_the_text_back(none, name, b);
    assert(none + name + b =~= left);
    text_laws::law_trimming_gives_the_text_back(c, value, none);
    assert(c + value + none =~= right);
    assert(!left.contains('=')) by {
        if left.contains('=') {
            let k = choose|k: int| 0 <= k < left.len() && left[k] == '=';
            if k < name.len() {
                assert(name[k] == '=');
            } else {
                assert(text::is_white(b[k - name.len()]));
            }
        }
    }
    text_laws::law_a_separator_is_told(left, right, '=');
    assert(value.contains(value[0]) && value.contains(value[value.len() - 1]));
    assert(text::trim_start_of(value, set) == value);
    assert(text::trim_end_of(value, set) == value);
    let n = (a.len() + left.len()) as int;
    assert forall|k: int| 0 <= k < field.len() implies #[trigger] field[k] != ',' by {
        if k < a.len() {
            assert(field[k] == a[k] && text::is_white(a[k]));
        } else if k < a.len() + name.len() {
            assert(field[k] == name[k - a.len()]);
        } else if k < n {
            assert(field[k] == b[k - a.len() - name.len()]);
            assert(text::is_white(b[k - a.len() - name.len()]));
        } else if k == n {
            assert(field[k] == '=');
        } else if k < n + 1 + c.len() {
            assert(field[k] == c[k - n - 1] && text::is_white(c[k - n - 1]));
        } else if k < n + 1 + c.len() + value.len() {
            assert(field[k] == value[k - n - 1 - c.len()]);
            assert(value.contains(value[k - n - 1 - c.len()]));
        } else {
            assert(field[k] == d[k - n - 1 - c.len() - value.len()]);
            assert(text::is_white(d[k - n - 1 - c.len() - value.len()]));
        }
    }
    assert(field.take(0) =~= none);
    lemma_one_field(field, 0, false);
    lemma_one_pair(field);
}

/// What holds no sign between a name and a value is no attribute.
pub proof fn law_a_word_alone_is_no_attribute(field: Seq<char>)
    requires
        !field.contains('=') && !field.contains(',') && !field.contains('"'),
    ensures
        scraper::attributes(field) == Seq::<(Seq<char>, Seq<char>)>::empty(),
{
    reveal_strlit("=");
    assert("="@ =~= seq!['=']);
    text_laws::law_trimming_takes_white_space_off(field);
    let t = text::trim(field);
    text_laws::law_cutting_at_a_phrase(t, "="@);
    if let Some(parts) = text::split_once(t, "="@) {
        assert(t[parts.0.len() as int] == '=');
        let (a, b) = choose|a: Seq<char>, b: Seq<char>|
            {
                &&& field == #[trigger] (a + t + b)
                &&& forall|k: int| 0 <= k < a.len() ==> text::is_white(#[trigger] a[k])
                &&& forall|k: int| 0 <= k < b.len() ==> text::is_white(#[trigger] b[k])
            };
        assert(field[(a.len() + parts.0.len()) as int] == '=');
    }
    assert forall|k: int| 0 <= k < field.len() && #[trigger] field[k] == ',' implies leaves_quote_open(
        field.take(k),
    ) by {
        assert(field.contains(field[k]));
    }
    assert(field.take(0) =~= Seq::empty());
    lemma_one_field(field, 0, false);
    lemma_one_pair(field);
}

/// The first attribute of a name is the one that counts.
pub proof fn law_the_first_attribute_counts(
    before: Seq<(Seq<char>, Seq<char>)>,
    name: Seq<char>,
    value: Seq<char>,
    after: Seq<(Seq<char>, Seq<char>)>,
)
    requires
        forall|k: int| 0 <= k < before.len() ==> (#[trigger] before[k]).0 != name,
    ensures
        scraper::attribute(before + seq![(name, value)] + after, name) == Some(value),
        scraper::attribute(before, name) is None,
{
    lemma_first_attribute(before + seq![(name, value)] + after, name, value, before.len() as int, 0);
    lemma_no_attribute(before, name, 0);
}

proof fn lemma_first_attribute(
    pairs: Seq<(Seq<char>, Seq<char>)>,
    name: Seq<char>,
    value: Seq<char>,
    n: int,
    i: int,
)
    requires
        0 <= i <= n < pairs.len(),
        pairs[n] == (name, value),
        forall|k: int| 0 <= k < n ==> (#[trigger] pairs[k]).0 != name,
    ensures
        scraper::attribute_from(pairs, name, i) == Some(value),
    decreases n - i,
{
    if i < n {
        lemma_first_attribute(pairs, name, value, n, i + 1);
    }
}

proof fn lemma_no_attribute(pairs: Seq<(Seq<char>, Seq<char>)>, name: Seq<char>, i: int)
    requires
        0 <= i <= pairs.len(),
        forall|k: int| 0 <= k < pairs.len() ==> (#[trigger] pairs[k]).0 != name,
    ensures
        scraper::attribute_from(pairs, name, i) is None,
    decreases pairs.len() - i,
{
    if i < pairs.len() {
        lemma_no_attribute(pairs, name, i + 1);
    }
}

proof fn lemma_times(a: Seq<char>, b: Seq<char>, x: char, i: int)
    requires
        0 <= i <= a.len(),
        x == 'x' || x == 'X',
        forall|k: int| 0 <= k < a.len() ==> #[trigger] a[k] != 'x' && a[k] != 'X',
    ensures
        scraper::times_sign(a + seq![x] + b, i) == a.len(),
    decreases a.len() - i,
{
    if i < a.len() {
        assert((a + seq![x] + b)[i] == a[i]);
        lemma_times(a, b, x, i + 1);
    }
}

proof fn lemma_no_times(a: Seq<char>, i: int)
    requires
        0 <= i <= a.len(),
        forall|k: int| 0 <= k < a.len() ==> #[trigger] a[k] != 'x' && a[k] != 'X',
    ensures
        scraper::times_sign(a, i) == a.len(),
    decreases a.len() - i,
{
    if i < a.len() {
        lemma_no_times(a, i + 1);
    }
}

proof fn lemma_number(n: u32)
    ensures
        text::small_number(text::trim(text::decimal(n as nat))) == Some(n),
        text::small_number(text::decimal(n as nat)) == Some(n),
        text::decimal(n as nat).len() > 0,
        !text::is_white(text::decimal(n as nat)[0]) && !text::is_white(text::decimal(n as nat).last()),
        forall|k: int|
            0 <= k < text::decimal(n as nat).len() ==> '0' <= #[trigger] text::decimal(n as nat)[k] <= '9',
{
    let d = text::decimal(n as nat);
    output::lemma_decimal_value(n as nat);
    assert forall|k: int| 0 <= k < d.len() implies '0' <= #[trigger] d[k] <= '9' by {
        assert(text::is_digit(d[k]));
    }
    assert('0' <= d[0] <= '9' && '0' <= d[d.len() - 1] <= '9');
    let none = Seq::<char>::empty();
    text_laws::law_trimming_gives_the_text_back(none, d, none);
    assert(none + d + none =~= d);
    text_laws::law_a_number_is_read_back(n as nat, u32::MAX as nat);
}

proof fn lemma_spaced_resolution(width: u32, height: u32, x: char)
    requires
        x == 'x' || x == 'X',
    ensures
        scraper::resolution(
            seq![' '] + text::decimal(width as nat) + seq![' ', x, ' '] + text::decimal(height as nat) + seq![
                ' ',
            ],
        ) == Some((width, height)),
{
    let a = text::decimal(width as nat);
    let b = text::decimal(height as nat);
    lemma_number(width);
    lemma_number(height);
    let gap = seq![' '];
    let left = gap + a + gap;
    let right = gap + b + gap;
    let whole = gap + a + seq![' ', x, ' '] + b + gap;
    assert(whole =~= left + seq![x] + right);
    assert forall|k: int| 0 <= k < left.len() implies #[trigger] left[k] != 'x' && left[k] != 'X' by {
        if 0 < k < left.len() - 1 {
            assert(left[k] == a[k - 1]);
        }
    }
    lemma_times(left, right, x, 0);
    let n = left.len() as int;
    assert(whole.take(n) =~= left);
    assert(whole.skip(n + 1) =~= right);
    text_laws::law_trimming_gives_the_text_back(gap, a, gap);
    text_laws::law_trimming_gives_the_text_back(gap, b, gap);
}

/// A resolution is known exactly if what stands before its first sign and what
/// stands behind it are both numbers, white space aside: it is these two.
pub proof fn law_a_resolution_is_two_numbers(a: Seq<char>, x: char, b: Seq<char>)
    requires
        x == 'x' || x == 'X',
        forall|k: int| 0 <= k < a.len() ==> #[trigger] a[k] != 'x' && a[k] != 'X',
    ensures
        match scraper::resolution(a + seq![x] + b) {
            Some(size) => text::parse_unsigned(text::trim(a), u32::MAX as nat) == Some(size.0 as nat)
                && text::parse_unsigned(text::trim(b), u32::MAX as nat) == Some(size.1 as nat),
            None => text::parse_unsigned(text::trim(a), u32::MAX as nat) is None || text::parse_unsigned(
                text::trim(b),
                u32::MAX as nat,
            ) is None,
        },
{
    let whole = a + seq![x] + b;
    lemma_times(a, b, x, 0);
    let n = a.len() as int;
    assert(whole.take(n) =~= a);
    assert(whole.skip(n + 1) =~= b);
}

/// A resolution is a width and a height with a sign between them, in either case
/// and with or without white space around each; without the sign there is none.
pub proof fn law_a_resolution_is_read_back(width: u32, height: u32, x: char, s: Seq<char>)
    requires
        x == 'x' || x == 'X',
        forall|k: int| 0 <= k < s.len() ==> #[trigger] s[k] != 'x' && s[k] != 'X',
    ensures
        scraper::resolution(text::decimal(width as nat) + seq![x] + text::decimal(height as nat)) == Some(
            (width, height),
        ),
        scraper::resolution(
            seq![' '] + text::decimal(width as nat) + seq![' ', x, ' '] + text::decimal(height as nat) + seq![
                ' ',
            ],
        ) == Some((width, height)),
        scraper::resolution(s) is None,
{
    lemma_spaced_resolution(width, height, x);
    let a = text::decimal(width as nat);
    let b = text::decimal(height as nat);
    lemma_number(width);
    lemma_number(height);
    let whole = a + seq![x] + b;
    lemma_times(a, b, x, 0);
    let n = a.len() as int;
    assert(whole.take(n) =~= a);
    assert(whole.skip(n + 1) =~= b);
    lemma_no_times(s, 0);
}

// ---------------------------------------------------------------------------
// Variants and sounds
// ---------------------------------------------------------------------------

/// An attribute that may be missing, behind a comma.
pub open spec fn more(name: Seq<char>, value: Option<Seq<char>>) -> Seq<char> {
    match value {
        Some(v) => seq![','] + in_quotes(name, v),
        None => Seq::empty(),
    }
}

/// The pair of an attribute that may be missing.
pub open spec fn pair_of(name: Seq<char>, value: Option<Seq<char>>) -> Seq<
    (Seq<char>, Seq<char>),
> {
    match value {
        Some(v) => seq![(name, v)],
        None => Seq::empty(),
    }
}

/// Whether a value can stand in quotes on a line.
pub open spec fn fits_in_quotes(value: Option<Seq<char>>) -> bool {
    value matches Some(v) ==> !v.contains('"') && !v.contains('\n')
}

proof fn lemma_more(list: Seq<char>, name: Seq<char>, value: Option<Seq<char>>)
    requires
        is_attribute_word(name),
        fits_in_quotes(value),
        !leaves_quote_open(list),
    ensures
        scraper::attributes(list + more(name, value)) == scraper::attributes(list) + pair_of(name, value),
        !leaves_quote_open(list + more(name, value)),
{
    match value {
        Some(v) => {
            let field = in_quotes(name, v);
            law_an_attribute_is_read_back(name, v);
            law_a_comma_separates_attributes(list, field);
            assert(list + more(name, value) =~= list + seq![','] + field);
            assert(!seq![','].contains('"'));
            lemma_no_quotes(seq![',']);
            lemma_quotes_add(list, seq![',']);
            lemma_quotes_add(list + seq![','], field);
        },
        None => {
            assert(list + more(name, value) =~= list);
            assert(scraper::attributes(list) + pair_of(name, value) =~= scraper::attributes(list));
        },
    }
}

/// The attributes of a variant, as a playlist writes them.
pub open spec fn written_attributes(v: VariantEntryView) -> Seq<char> {
    plain("BANDWIDTH"@, text::decimal(v.bandwidth as nat)) + (if v.width is Some && v.height is Some {
        seq![','] + plain(
            "RESOLUTION"@,
            text::decimal(v.width->0 as nat) + seq!['x'] + text::decimal(v.height->0 as nat),
        )
    } else {
        Seq::empty()
    }) + more("CODECS"@, v.codecs) + more("AUDIO"@, v.audio_group)
}

proof fn lemma_names()
    ensures
        is_attribute_word("BANDWIDTH"@) && is_attribute_word("RESOLUTION"@),
        is_attribute_word("CODECS"@) && is_attribute_word("AUDIO"@),
        is_attribute_word("TYPE"@) && is_attribute_word("URI"@) && is_attribute_word("GROUP-ID"@),
        is_attribute_word("NAME"@) && is_attribute_word("LANGUAGE"@),
        is_attribute_word("DEFAULT"@),
        "BANDWIDTH"@ != "RESOLUTION"@ && "BANDWIDTH"@ != "CODECS"@ && "BANDWIDTH"@ != "AUDIO"@,
        "RESOLUTION"@ != "CODECS"@ && "RESOLUTION"@ != "AUDIO"@ && "CODECS"@ != "AUDIO"@,
        "TYPE"@ != "URI"@ && "TYPE"@ != "GROUP-ID"@ && "TYPE"@ != "NAME"@ && "TYPE"@ != "LANGUAGE"@
            && "TYPE"@ != "DEFAULT"@,
        "URI"@ != "GROUP-ID"@ && "URI"@ != "NAME"@ && "URI"@ != "LANGUAGE"@ && "URI"@ != "DEFAULT"@,
        "GROUP-ID"@ != "NAME"@ && "GROUP-ID"@ != "LANGUAGE"@ && "GROUP-ID"@ != "DEFAULT"@,
        "NAME"@ != "LANGUAGE"@ && "NAME"@ != "DEFAULT"@ && "LANGUAGE"@ != "DEFAULT"@,
{
    reveal_strlit("BANDWIDTH");
    reveal_strlit("RESOLUTION");
    reveal_strlit("CODECS");
    reveal_strlit("AUDIO");
    reveal_strlit("TYPE");
    reveal_strlit("URI");
    reveal_strlit("GROUP-ID");
    reveal_strlit("NAME");
    reveal_strlit("LANGUAGE");
    reveal_strlit("DEFAULT");
    assert("BANDWIDTH"@.len() == 9 && "RESOLUTION"@.len() == 10 && "CODECS"@.len() == 6);
    assert("AUDIO"@.len() == 5 && "TYPE"@.len() == 4 && "URI"@.len() == 3);
    assert("GROUP-ID"@.len() == 8 && "NAME"@.len() == 4 && "LANGUAGE"@.len() == 8);
    assert("DEFAULT"@.len() == 7);
    assert("TYPE"@[0] == 'T' && "NAME"@[0] == 'N');
    assert("GROUP-ID"@[0] == 'G' && "LANGUAGE"@[0] == 'L');
}

proof fn lemma_bandwidth(n: u64)
    ensures
        text::parse_unsigned(text::decimal(n as nat), u64::MAX as nat) == Some(n as nat),
        text::decimal(n as nat).len() > 0,
        forall|k: int|
            0 <= k < text::decimal(n as nat).len() ==> '0' <= #[trigger] text::decimal(n as nat)[k] <= '9',
{
    let d = text::decimal(n as nat);
    output::lemma_decimal_value(n as nat);
    assert forall|k: int| 0 <= k < d.len() implies '0' <= #[trigger] d[k] <= '9' by {
        assert(text::is_digit(d[k]));
    }
    text_laws::law_a_number_is_read_back(n as nat, u64::MAX as nat);
}

/// The pairs that the attributes of a variant are read as.
pub open spec fn variant_pairs(v: VariantEntryView) -> Seq<(Seq<char>, Seq<char>)> {
    seq![("BANDWIDTH"@, text::decimal(v.bandwidth as nat))] + (if v.width is Some && v.height is Some {
        seq![
            ("RESOLUTION"@, text::decimal(v.width->0 as nat) + seq!['x'] + text::decimal(v.height->0 as nat)),
        ]
    } else {
        Seq::empty()
    }) + pair_of("CODECS"@, v.codecs) + pair_of("AUDIO"@, v.audio_group)
}

proof fn lemma_digits_hold(d: Seq<char>)
    requires
        forall|k: int| 0 <= k < d.len() ==> '0' <= #[trigger] d[k] <= '9',
    ensures
        !d.contains('"') && !d.contains(',') && !d.contains('\n'),
{
}

proof fn lemma_written_attributes(v: VariantEntryView)
    requires
        fits_in_quotes(v.codecs) && fits_in_quotes(v.audio_group),
    ensures
        scraper::attributes(written_attributes(v)) == variant_pairs(v),
{
    lemma_names();
    let d = text::decimal(v.bandwidth as nat);
    lemma_bandwidth(v.bandwidth);
    lemma_digits_hold(d);
    assert('0' <= d[0] <= '9' && '0' <= d[d.len() - 1] <= '9');
    let first = plain("BANDWIDTH"@, d);
    law_an_attribute_is_read_back("BANDWIDTH"@, d);
    let (list, pairs): (Seq<char>, Seq<(Seq<char>, Seq<char>)>) = if v.width is Some && v.height
        is Some {
        let w = text::decimal(v.width->0 as nat);
        let h = text::decimal(v.height->0 as nat);
        lemma_number(v.width->0);
        lemma_number(v.height->0);
        let size = w + seq!['x'] + h;
        assert forall|k: int| 0 <= k < size.len() implies #[trigger] size[k] != '"' && size[k] != ','
            && size[k] != '\n' by {
            if k < w.len() {
                assert(size[k] == w[k]);
            } else if k > w.len() {
                assert(size[k] == h[k - w.len() - 1]);
            }
        }
        assert(size[0] == w[0] && size.last() == h.last());
        law_an_attribute_is_read_back("RESOLUTION"@, size);
        let second = plain("RESOLUTION"@, size);
        law_a_comma_separates_attributes(first, second);
        assert(!seq![','].contains('"'));
        lemma_no_quotes(seq![',']);
        lemma_quotes_add(first, seq![',']);
        lemma_quotes_add(first + seq![','], second);
        assert(first + (seq![','] + second) =~= first + seq![','] + second);
        (first + (seq![','] + second), seq![("BANDWIDTH"@, d)] + seq![("RESOLUTION"@, size)])
    } else {
        assert(first + Seq::<char>::empty() =~= first);
        assert(seq![("BANDWIDTH"@, d)] + Seq::<(Seq<char>, Seq<char>)>::empty() =~= seq![
            ("BANDWIDTH"@, d),
        ]);
        (first + Seq::<char>::empty(), seq![("BANDWIDTH"@, d)] + Seq::empty())
    };
    assert(scraper::attributes(list) == pairs);
    lemma_more(list, "CODECS"@, v.codecs);
    lemma_more(list + more("CODECS"@, v.codecs), "AUDIO"@, v.audio_group);
}

proof fn lemma_variant_pairs(v: VariantEntryView)
    requires
        v.width is Some <==> v.height is Some,
    ensures
        scraper::variant_entry(variant_pairs(v), v.uri) == v,
{
    lemma_names();
    let p = variant_pairs(v);
    lemma_bandwidth(v.bandwidth);
    let none = Seq::<(Seq<char>, Seq<char>)>::empty();
    let b = ("BANDWIDTH"@, text::decimal(v.bandwidth as nat));
    assert(p =~= none + seq![b] + p.skip(1));
    law_the_first_attribute_counts(none, b.0, b.1, p.skip(1));
    let r: Seq<(Seq<char>, Seq<char>)> = if v.width is Some {
        seq![
            ("RESOLUTION"@, text::decimal(v.width->0 as nat) + seq!['x'] + text::decimal(v.height->0 as nat)),
        ]
    } else {
        none
    };
    let c = pair_of("CODECS"@, v.codecs);
    let a = pair_of("AUDIO"@, v.audio_group);
    assert(p =~= seq![b] + r + c + a);
    if v.width is Some {
        assert(p =~= seq![b] + seq![r[0]] + (c + a));
        law_the_first_attribute_counts(seq![b], r[0].0, r[0].1, c + a);
        law_a_resolution_is_read_back(v.width->0, v.height->0, 'x', none_text());
    } else {
        law_the_first_attribute_counts(p, "RESOLUTION"@, none_text(), none);
    }
    if v.codecs is Some {
        assert(p =~= (seq![b] + r) + seq![c[0]] + a);
        law_the_first_attribute_counts(seq![b] + r, c[0].0, c[0].1, a);
    } else {
        law_the_first_attribute_counts(p, "CODECS"@, none_text(), none);
    }
    if v.audio_group is Some {
        assert(p =~= (seq![b] + r + c) + seq![a[0]] + none);
        law_the_first_attribute_counts(seq![b] + r + c, a[0].0, a[0].1, none);
    } else {
        law_the_first_attribute_counts(p, "AUDIO"@, none_text(), none);
    }
}

spec fn none_text() -> Seq<char> {
    Seq::empty()
}

// ---------------------------------------------------------------------------
// Lines
// ---------------------------------------------------------------------------

proof fn lemma_holds_neither(a: Seq<char>, b: Seq<char>, c: char)
    requires
        !a.contains(c),
        !b.contains(c),
    ensures
        !(a + b).contains(c),
{
    if (a + b).contains(c) {
        let k = choose|k: int| 0 <= k < (a + b).len() && (a + b)[k] == c;
        if k < a.len() {
            assert(a[k] == c);
        } else {
            assert(b[k - a.len()] == c);
        }
    }
}

proof fn lemma_more_on_a_line(list: Seq<char>, name: Seq<char>, value: Option<Seq<char>>)
    requires
        is_attribute_word(name),
        fits_in_quotes(value),
        !list.contains('\n'),
        list.len() > 0 && !text::is_white(list.last()),
    ensures
        !(list + more(name, value)).contains('\n'),
        (list + more(name, value)).len() > 0,
        !text::is_white((list + more(name, value)).last()),
{
    lemma_word(name);
    match value {
        Some(v) => {
            assert(!seq!['=', '"'].contains('\n') && !seq!['"'].contains('\n'));
            assert(!seq![','].contains('\n'));
            lemma_holds_neither(name, seq!['=', '"'], '\n');
            lemma_holds_neither(name + seq!['=', '"'], v, '\n');
            lemma_holds_neither(name + seq!['=', '"'] + v, seq!['"'], '\n');
            lemma_holds_neither(seq![','], in_quotes(name, v), '\n');
            lemma_holds_neither(list, more(name, value), '\n');
            assert((list + more(name, value)).last() == '"');
        },
        None => {
            assert(list + more(name, value) =~= list);
        },
    }
}

proof fn lemma_attributes_on_a_line(v: VariantEntryView)
    requires
        fits_in_quotes(v.codecs) && fits_in_quotes(v.audio_group),
    ensures
        !written_attributes(v).contains('\n'),
        written_attributes(v).len() > 0,
        !text::is_white(written_attributes(v).last()),
{
    lemma_names();
    let d = text::decimal(v.bandwidth as nat);
    lemma_bandwidth(v.bandwidth);
    lemma_digits_hold(d);
    assert('0' <= d[d.len() - 1] <= '9');
    lemma_word("BANDWIDTH"@);
    lemma_word("RESOLUTION"@);
    assert(!seq!['='].contains('\n') && !seq![','].contains('\n') && !seq!['x'].contains('\n'));
    lemma_holds_neither("BANDWIDTH"@, seq!['='], '\n');
    lemma_holds_neither("BANDWIDTH"@ + seq!['='], d, '\n');
    let first = plain("BANDWIDTH"@, d);
    assert(first.last() == d.last());
    let second: Seq<char> = if v.width is Some && v.height is Some {
        let w = text::decimal(v.width->0 as nat);
        let h = text::decimal(v.height->0 as nat);
        lemma_number(v.width->0);
        lemma_number(v.height->0);
        lemma_digits_hold(w);
        lemma_digits_hold(h);
        lemma_holds_neither(w, seq!['x'], '\n');
        lemma_holds_neither(w + seq!['x'], h, '\n');
        let size = w + seq!['x'] + h;
        lemma_holds_neither("RESOLUTION"@, seq!['='], '\n');
        lemma_holds_neither("RESOLUTION"@ + seq!['='], size, '\n');
        let r = plain("RESOLUTION"@, size);
        lemma_holds_neither(seq![','], r, '\n');
        assert((seq![','] + r).last() == h.last());
        seq![','] + r
    } else {
        Seq::empty()
    };
    lemma_holds_neither(first, second, '\n');
    let list = first + second;
    if second.len() > 0 {
        assert(list.last() == second.last());
    } else {
        assert(list =~= first);
    }
    lemma_more_on_a_line(list, "CODECS"@, v.codecs);
    lemma_more_on_a_line(list + more("CODECS"@, v.codecs), "AUDIO"@, v.audio_group);
}

/// A line behind a text of whole lines is its last line.
proof fn lemma_line_behind(before: Seq<char>, line: Seq<char>)
    requires
        before.len() == 0 || before.last() == '\n',
        !line.contains('\n'),
        line.len() > 0 && line.last() != '\r',
    ensures
        text::lines(before + line + seq!['\n']) == text::lines(before).push(line),
{
    text_laws::law_lines_are_read_one_after_another(before, line.push('\n'));
    text_laws::law_a_line_ends_at_its_feed(line);
    assert(before + line + seq!['\n'] =~= before + line.push('\n'));
    assert(text::lines(before) + seq![line] =~= text::lines(before).push(line));
}

proof fn lemma_stream_mark(list: Seq<char>)
    requires
        list.len() > 0 && !text::is_white(list.last()),
    ensures
        text::trim("#EXT-X-STREAM-INF:"@ + list) == "#EXT-X-STREAM-INF:"@ + list,
        text::trim("#EXT-X-MEDIA:"@ + list) == "#EXT-X-MEDIA:"@ + list,
        text::strip_prefix("#EXT-X-STREAM-INF:"@ + list, "#EXT-X-MEDIA:"@) is None,
        !"#EXT-X-STREAM-INF:"@.contains('\n'),
        !"#EXT-X-MEDIA:"@.contains('\n'),
{
    reveal_strlit("#EXT-X-STREAM-INF:");
    reveal_strlit("#EXT-X-MEDIA:");
    let none = Seq::<char>::empty();
    let s = "#EXT-X-STREAM-INF:"@ + list;
    let m = "#EXT-X-MEDIA:"@ + list;
    assert(s[0] == '#' && m[0] == '#');
    assert(s.last() == list.last() && m.last() == list.last());
    text_laws::law_trimming_gives_the_text_back(none, s, none);
    text_laws::law_trimming_gives_the_text_back(none, m, none);
    assert(none + s + none =~= s);
    assert(none + m + none =~= m);
    assert(s[7] == 'S' && "#EXT-X-MEDIA:"@[7] == 'M');
    if text::starts_with(s, "#EXT-X-MEDIA:"@) {
        assert(s.subrange(0, 13)[7] == s[7]);
    }
}

/// A variant as a playlist lists it: its attributes on one line, and where it is
/// on the next.
pub open spec fn written_variant(v: VariantEntryView) -> Seq<char> {
    "#EXT-X-STREAM-INF:"@ + written_attributes(v) + seq!['\n'] + v.uri + seq!['\n']
}

/// A variant that stands behind other lines of a playlist is read back as it was
/// written, behind the variants of those lines, and changes nothing of the sounds.
pub proof fn law_a_variant_is_read_back(before: Seq<char>, v: VariantEntryView)
    requires
        before.len() == 0 || before.last() == '\n',
        v.width is Some <==> v.height is Some,
        fits_in_quotes(v.codecs) && fits_in_quotes(v.audio_group),
        v.uri.len() > 0 && !v.uri.contains('\n'),
        !text::is_white(v.uri[0]) && !text::is_white(v.uri.last()) && v.uri[0] != '#',
    ensures
        ({
            let state = scraper::master_state(text::lines(before));
            let now = scraper::master_state(text::lines(before + written_variant(v)));
            now.variants == state.variants.push(v) && now.audio == state.audio
        }),
{
    let list = written_attributes(v);
    let mark = "#EXT-X-STREAM-INF:"@;
    let line = mark + list;
    lemma_attributes_on_a_line(v);
    lemma_stream_mark(list);
    lemma_holds_neither(mark, list, '\n');
    assert(line.last() == list.last());
    let first = before + line + seq!['\n'];
    lemma_line_behind(before, line);
    lemma_line_behind(first, v.uri);
    assert(before + written_variant(v) =~= first + v.uri + seq!['\n']);
    let ls = text::lines(before);
    let one = ls.push(line);
    let two = one.push(v.uri);
    assert(one.drop_last() =~= ls);
    assert(two.drop_last() =~= one);
    text_laws::law_a_start_is_told_from_the_rest(mark, list);
    lemma_written_attributes(v);
    lemma_variant_pairs(v);
    let none = Seq::<char>::empty();
    text_laws::law_trimming_gives_the_text_back(none, v.uri, none);
    assert(none + v.uri + none =~= v.uri);
    lemma_no_mark(v.uri);
    let state = scraper::master_state(ls);
    let mid = scraper::master_state(one);
    assert(mid == scraper::master_step(state, line));
    assert(mid.pending == Some(variant_pairs(v)));
    assert(mid.variants == state.variants && mid.audio == state.audio);
    assert(scraper::master_state(two) == scraper::master_step(mid, v.uri));
    assert(text::lines(before + written_variant(v)) == two);
}

proof fn lemma_no_mark(uri: Seq<char>)
    requires
        uri.len() > 0 && uri[0] != '#',
    ensures
        text::strip_prefix(uri, "#EXT-X-MEDIA:"@) is None,
        text::strip_prefix(uri, "#EXT-X-STREAM-INF:"@) is None,
{
    reveal_strlit("#EXT-X-STREAM-INF:");
    reveal_strlit("#EXT-X-MEDIA:");
    if text::starts_with(uri, "#EXT-X-MEDIA:"@) {
        assert(uri.subrange(0, 13)[0] == '#');
    }
    if text::starts_with(uri, "#EXT-X-STREAM-INF:"@) {
        assert(uri.subrange(0, 18)[0] == '#');
    }
}

/// A sound as a playlist lists it.
pub open spec fn written_sound(a: AudioEntryView) -> Seq<char> {
    "#EXT-X-MEDIA:"@ + sound_attributes(a) + seq!['\n']
}

pub open spec fn sound_attributes(a: AudioEntryView) -> Seq<char> {
    plain("TYPE"@, "AUDIO"@) + more("GROUP-ID"@, Some(a.group_id)) + more("URI"@, Some(a.uri))
        + more("NAME"@, a.name) + more("LANGUAGE"@, a.language) + more(
        "DEFAULT"@,
        if a.default {
            Some("YES"@)
        } else {
            None
        },
    )
}

pub open spec fn sound_pairs(a: AudioEntryView) -> Seq<(Seq<char>, Seq<char>)> {
    seq![("TYPE"@, "AUDIO"@)] + pair_of("GROUP-ID"@, Some(a.group_id)) + pair_of(
        "URI"@,
        Some(a.uri),
    ) + pair_of("NAME"@, a.name) + pair_of("LANGUAGE"@, a.language) + pair_of(
        "DEFAULT"@,
        if a.default {
            Some("YES"@)
        } else {
            None
        },
    )
}

proof fn lemma_sound_attributes(a: AudioEntryView)
    requires
        fits_in_quotes(Some(a.group_id)) && fits_in_quotes(Some(a.uri)),
        fits_in_quotes(a.name) && fits_in_quotes(a.language),
    ensures
        scraper::attributes(sound_attributes(a)) == sound_pairs(a),
        !sound_attributes(a).contains('\n'),
        sound_attributes(a).len() > 0,
        !text::is_white(sound_attributes(a).last()),
{
    lemma_names();
    reveal_strlit("AUDIO");
    reveal_strlit("YES");
    let l0 = plain("TYPE"@, "AUDIO"@);
    assert(!"AUDIO"@.contains('"') && !"AUDIO"@.contains(',') && !"AUDIO"@.contains('\n'));
    assert(!text::is_white("AUDIO"@[0]) && !text::is_white("AUDIO"@.last()));
    law_an_attribute_is_read_back("TYPE"@, "AUDIO"@);
    lemma_word("TYPE"@);
    assert(!seq!['='].contains('\n'));
    lemma_holds_neither("TYPE"@, seq!['='], '\n');
    lemma_holds_neither("TYPE"@ + seq!['='], "AUDIO"@, '\n');
    assert(l0.last() == "AUDIO"@.last());
    let d: Option<Seq<char>> = if a.default {
        Some("YES"@)
    } else {
        None
    };
    assert(fits_in_quotes(d));
    let l1 = l0 + more("GROUP-ID"@, Some(a.group_id));
    let l2 = l1 + more("URI"@, Some(a.uri));
    let l3 = l2 + more("NAME"@, a.name);
    let l4 = l3 + more("LANGUAGE"@, a.language);
    lemma_more(l0, "GROUP-ID"@, Some(a.group_id));
    lemma_more(l1, "URI"@, Some(a.uri));
    lemma_more(l2, "NAME"@, a.name);
    lemma_more(l3, "LANGUAGE"@, a.language);
    lemma_more(l4, "DEFAULT"@, d);
    lemma_more_on_a_line(l0, "GROUP-ID"@, Some(a.group_id));
    lemma_more_on_a_line(l1, "URI"@, Some(a.uri));
    lemma_more_on_a_line(l2, "NAME"@, a.name);
    lemma_more_on_a_line(l3, "LANGUAGE"@, a.language);
    lemma_more_on_a_line(l4, "DEFAULT"@, d);
}

proof fn lemma_lookup(
    before: Seq<(Seq<char>, Seq<char>)>,
    name: Seq<char>,
    value: Option<Seq<char>>,
    after: Seq<(Seq<char>, Seq<char>)>,
)
    requires
        forall|k: int| 0 <= k < before.len() ==> (#[trigger] before[k]).0 != name,
        forall|k: int| 0 <= k < after.len() ==> (#[trigger] after[k]).0 != name,
    ensures
        scraper::attribute(before + pair_of(name, value) + after, name) == value,
{
    match value {
        Some(v) => {
            law_the_first_attribute_counts(before, name, v, after);
        },
        None => {
            let all = before + after;
            assert(before + pair_of(name, value) + after =~= all);
            assert forall|k: int| 0 <= k < all.len() implies (#[trigger] all[k]).0 != name by {
                if k < before.len() {
                    assert(all[k] == before[k]);
                } else {
                    assert(all[k] == after[k - before.len()]);
                }
            }
            law_the_first_attribute_counts(all, name, none_text(), all);
        },
    }
}

#[verifier::rlimit(60)]
proof fn lemma_sound_pairs(a: AudioEntryView)
    ensures
        scraper::audio_entry(sound_pairs(a)) == Some(a),
{
    lemma_names();
    reveal_strlit("AUDIO");
    reveal_strlit("YES");
    let d: Option<Seq<char>> = if a.default {
        Some("YES"@)
    } else {
        None
    };
    let none = Seq::<(Seq<char>, Seq<char>)>::empty();
    let t = pair_of("TYPE"@, Some("AUDIO"@));
    let g = pair_of("GROUP-ID"@, Some(a.group_id));
    let u = pair_of("URI"@, Some(a.uri));
    let n = pair_of("NAME"@, a.name);
    let l = pair_of("LANGUAGE"@, a.language);
    let y = pair_of("DEFAULT"@, d);
    let p = sound_pairs(a);
    assert(p =~= none + t + (g + u + n + l + y));
    lemma_lookup(none, "TYPE"@, Some("AUDIO"@), g + u + n + l + y);
    assert(p =~= t + g + (u + n + l + y));
    lemma_lookup(t, "GROUP-ID"@, Some(a.group_id), u + n + l + y);
    assert(p =~= (t + g) + u + (n + l + y));
    lemma_lookup(t + g, "URI"@, Some(a.uri), n + l + y);
    assert(p =~= (t + g + u) + n + (l + y));
    lemma_lookup(t + g + u, "NAME"@, a.name, l + y);
    assert(p =~= (t + g + u + n) + l + y);
    lemma_lookup(t + g + u + n, "LANGUAGE"@, a.language, y);
    assert(p =~= (t + g + u + n + l) + y + none);
    lemma_lookup(t + g + u + n + l, "DEFAULT"@, d, none);
    assert(text::eq_fold("AUDIO"@, "AUDIO"@) && text::eq_fold("YES"@, "YES"@));
}

/// A sound that stands behind other lines of a playlist is read back as it was
/// written, behind the sounds of those lines, and changes nothing of the variants.
pub proof fn law_a_sound_is_read_back(before: Seq<char>, a: AudioEntryView)
    requires
        before.len() == 0 || before.last() == '\n',
        fits_in_quotes(Some(a.group_id)) && fits_in_quotes(Some(a.uri)),
        fits_in_quotes(a.name) && fits_in_quotes(a.language),
    ensures
        ({
            let state = scraper::master_state(text::lines(before));
            let now = scraper::master_state(text::lines(before + written_sound(a)));
            now.audio == state.audio.push(a) && now.variants == state.variants && now.pending
                == state.pending
        }),
{
    let list = sound_attributes(a);
    let mark = "#EXT-X-MEDIA:"@;
    let line = mark + list;
    lemma_sound_attributes(a);
    lemma_sound_pairs(a);
    lemma_stream_mark(list);
    lemma_holds_neither(mark, list, '\n');
    assert(line.last() == list.last());
    lemma_line_behind(before, line);
    assert(before + written_sound(a) =~= before + line + seq!['\n']);
    let ls = text::lines(before);
    assert(ls.push(line).drop_last() =~= ls);
    text_laws::law_a_start_is_told_from_the_rest(mark, list);
}

/// A variant has the bandwidth, the size, the codecs and the group that its
/// attributes state. A bandwidth that is missing or no number is nothing, and a size
/// that is missing or no resolution is not known.
pub proof fn law_a_variant_is_what_it_states(
    pairs: Seq<(Seq<char>, Seq<char>)>,
    uri: Seq<char>,
    n: u64,
)
    ensures
        ({
            let v = scraper::variant_entry(pairs, uri);
            let size = scraper::attribute(pairs, "RESOLUTION"@);
            &&& v.uri == uri
            &&& v.codecs == scraper::attribute(pairs, "CODECS"@)
            &&& v.audio_group == scraper::attribute(pairs, "AUDIO"@)
            &&& scraper::attribute(pairs, "BANDWIDTH"@) is None ==> v.bandwidth == 0
            &&& scraper::attribute(pairs, "BANDWIDTH"@) == Some(text::decimal(n as nat)) ==> v.bandwidth == n
            &&& (scraper::attribute(pairs, "BANDWIDTH"@) matches Some(b) && text::parse_unsigned(
                b,
                u64::MAX as nat,
            ) is None) ==> v.bandwidth == 0
            &&& size is None || scraper::resolution(size->0) is None ==> v.width is None && v.height is None
            &&& (size matches Some(text) && scraper::resolution(text) is Some) ==> (scraper::resolution(
                size->0,
            ) matches Some(found) && v.width == Some(found.0) && v.height == Some(found.1))
        }),
{
    lemma_bandwidth(n);
}

/// A sound counts only if it is said to be one, has a place and belongs to a group;
/// it is the default one only if that is said, in any case.
pub proof fn law_a_sound_has_a_place_and_a_group(pairs: Seq<(Seq<char>, Seq<char>)>)
    ensures
        scraper::audio_entry(pairs) is Some <==> {
            &&& scraper::attribute(pairs, "TYPE"@) is Some && text::eq_fold(scraper::attribute(pairs, "TYPE"@)->0, "audio"@)
            &&& scraper::attribute(pairs, "URI"@) is Some
            &&& scraper::attribute(pairs, "GROUP-ID"@) is Some
        },
        scraper::audio_entry(pairs) matches Some(a) ==> {
            &&& scraper::attribute(pairs, "URI"@) == Some(a.uri)
            &&& scraper::attribute(pairs, "GROUP-ID"@) == Some(a.group_id)
            &&& scraper::attribute(pairs, "NAME"@) == a.name
            &&& scraper::attribute(pairs, "LANGUAGE"@) == a.language
            &&& a.default <==> scraper::attribute(pairs, "DEFAULT"@) is Some && text::eq_fold(
                scraper::attribute(pairs, "DEFAULT"@)->0,
                "yes"@,
            )
        },
{
    reveal_strlit("AUDIO");
    reveal_strlit("audio");
    reveal_strlit("YES");
    reveal_strlit("yes");
    assert(text::lower("AUDIO"@) =~= text::lower("audio"@));
    assert(text::lower("YES"@) =~= text::lower("yes"@));
}

/// A blank line and a remark say nothing, a place that no attributes stand before
/// says nothing, and attributes wait for their place over remarks and blank lines.
pub proof fn law_other_lines_say_nothing(ls: Seq<Seq<char>>, line: Seq<char>)
    requires
        !text::starts_with(text::trim(line), "#EXT-X-MEDIA:"@),
        !text::starts_with(text::trim(line), "#EXT-X-STREAM-INF:"@),
    ensures
        text::trim(line).len() == 0 || text::trim(line)[0] == '#' ==> scraper::master_state(ls.push(line))
            == scraper::master_state(ls),
        scraper::master_state(ls).pending is None ==> scraper::master_state(ls.push(line)) == scraper::master_state(ls),
        text::trim(line).len() > 0 && text::trim(line)[0] != '#' && scraper::master_state(ls).pending is Some ==> {
            let now = scraper::master_state(ls.push(line));
            &&& now.pending is None
            &&& now.audio == scraper::master_state(ls).audio
            &&& now.variants.len() == scraper::master_state(ls).variants.len() + 1
            &&& now.variants.last().uri == text::trim(line)
            &&& now.variants.drop_last() == scraper::master_state(ls).variants
        },
{
    assert(ls.push(line).drop_last() =~= ls);
    let state = scraper::master_state(ls);
    if text::trim(line).len() > 0 && text::trim(line)[0] != '#' && state.pending is Some {
        let now = scraper::master_state(ls.push(line));
        assert(now.variants.drop_last() =~= state.variants);
    }
}

/// What is listed is offered in the order of the list, at the URL that was found
/// for it and otherwise as it is listed; what has no URL is not offered.
pub proof fn law_what_is_listed_is_offered(
    variants: Seq<VariantEntryView>,
    v: VariantEntryView,
    sounds: Seq<AudioEntryView>,
    a: AudioEntryView,
    urls: Seq<Option<UrlView>>,
    url: UrlView,
)
    ensures
        urls.len() == variants.len() ==> ({
            let now = scraper::found_renditions(variants.push(v), urls.push(Some(url)));
            &&& now == scraper::found_renditions(variants, urls).push(now.last())
            &&& now.last() == (RenditionView {
                url,
                bandwidth: v.bandwidth,
                width: v.width,
                height: v.height,
                codecs: v.codecs,
                audio_group: v.audio_group,
            })
            &&& scraper::found_renditions(variants.push(v), urls.push(None)) == scraper::found_renditions(
                variants,
                urls,
            )
        }),
        urls.len() == sounds.len() ==> ({
            let now = scraper::found_audio(sounds.push(a), urls.push(Some(url)));
            &&& now == scraper::found_audio(sounds, urls).push(now.last())
            &&& now.last() == (AudioView {
                url,
                group_id: a.group_id,
                name: a.name,
                language: a.language,
                default: a.default,
            })
            &&& scraper::found_audio(sounds.push(a), urls.push(None)) == scraper::found_audio(sounds, urls)
        }),
{
    if urls.len() == variants.len() {
        assert(variants.push(v).drop_last() =~= variants);
        lemma_renditions_by_prefix(variants, urls, urls.push(Some(url)));
        lemma_renditions_by_prefix(variants, urls, urls.push(None));
    }
    if urls.len() == sounds.len() {
        assert(sounds.push(a).drop_last() =~= sounds);
        lemma_sounds_by_prefix(sounds, urls, urls.push(Some(url)));
        lemma_sounds_by_prefix(sounds, urls, urls.push(None));
    }
}

proof fn lemma_renditions_by_prefix(
    variants: Seq<VariantEntryView>,
    urls: Seq<Option<UrlView>>,
    other: Seq<Option<UrlView>>,
)
    requires
        variants.len() <= urls.len(),
        variants.len() <= other.len(),
        forall|k: int| 0 <= k < variants.len() ==> #[trigger] urls[k] == other[k],
    ensures
        scraper::found_renditions(variants, urls) == scraper::found_renditions(variants, other),
    decreases variants.len(),
{
    if variants.len() > 0 {
        lemma_renditions_by_prefix(variants.drop_last(), urls, other);
        assert(urls[variants.len() - 1] == other[variants.len() - 1]);
    }
}

proof fn lemma_sounds_by_prefix(
    sounds: Seq<AudioEntryView>,
    urls: Seq<Option<UrlView>>,
    other: Seq<Option<UrlView>>,
)
    requires
        sounds.len() <= urls.len(),
        sounds.len() <= other.len(),
        forall|k: int| 0 <= k < sounds.len() ==> #[trigger] urls[k] == other[k],
    ensures
        scraper::found_audio(sounds, urls) == scraper::found_audio(sounds, other),
    decreases sounds.len(),
{
    if sounds.len() > 0 {
        lemma_sounds_by_prefix(sounds.drop_last(), urls, other);
        assert(urls[sounds.len() - 1] == other[sounds.len() - 1]);
    }
}

/// What a playlist offers is found from where it was fetched: each variant and each
/// sound at the place that its line names, seen from there.
pub proof fn law_places_are_seen_from_the_playlist(
    base: Seq<char>,
    variants: Seq<VariantEntryView>,
    sounds: Seq<AudioEntryView>,
    i: int,
)
    ensures
        scraper::joined_variants(base, variants).len() == variants.len(),
        scraper::joined_audio(base, sounds).len() == sounds.len(),
        0 <= i < variants.len() ==> scraper::joined_variants(base, variants)[i] == web::url_join(
            base,
            variants[i].uri,
        ),
        0 <= i < sounds.len() ==> scraper::joined_audio(base, sounds)[i] == web::url_join(base, sounds[i].uri),
{
}

// ---------------------------------------------------------------------------
// Selectors
// ---------------------------------------------------------------------------

proof fn lemma_last_times(s: Seq<char>, n: int, k: int)
    requires
        -1 <= k < n <= s.len(),
        k >= 0 ==> s[k] == 'x' || s[k] == 'X',
        forall|j: int| k < j < n ==> #[trigger] s[j] != 'x' && s[j] != 'X',
    ensures
        scraper::last_times_sign(s, n) == k,
    decreases n - k,
{
    if n - 1 > k {
        assert(s[n - 1] != 'x' && s[n - 1] != 'X');
        lemma_last_times(s, n - 1, k);
    } else if k == -1 {
        assert(scraper::last_times_sign(s, 0) == -1);
    }
}

/// A selector asks for the best or the worst by the word for it, in any case, and
/// for a height by its number: alone, with a letter behind it, or with a width
/// before it.
pub proof fn law_a_selector_is_read(word: Seq<char>, width: Seq<char>, height: u32, p: char, x: char)
    requires
        p == 'p' || p == 'P',
        x == 'x' || x == 'X',
        !text::eq_fold(width + seq![x] + text::decimal(height as nat), "best"@),
        !text::eq_fold(width + seq![x] + text::decimal(height as nat), "worst"@),
    ensures
        text::eq_fold(word, "best"@) ==> scraper::worded_choice(word) == Some(ChoiceView::Best),
        text::eq_fold(word, "worst"@) ==> scraper::worded_choice(word) == Some(ChoiceView::Worst),
        scraper::worded_choice(text::decimal(height as nat)) == Some(ChoiceView::Height(height)),
        scraper::worded_choice(text::decimal(height as nat) + seq![p]) == Some(ChoiceView::Height(height)),
        scraper::worded_choice(width + seq![x] + text::decimal(height as nat)) == Some(
            ChoiceView::Height(height),
        ),
{
    reveal_strlit("best");
    reveal_strlit("worst");
    let d = text::decimal(height as nat);
    lemma_number(height);
    let alone = d;
    let lettered = d + seq![p];
    let sized = width + seq![x] + d;
    assert('0' <= d[0] <= '9');
    assert(alone[0] == d[0] && lettered[0] == d[0]);
    lemma_not_worded(alone);
    lemma_not_worded(lettered);
    lemma_height(Seq::empty(), height, Seq::empty());
    assert(Seq::<char>::empty() + d + Seq::<char>::empty() =~= alone);
    lemma_height(Seq::empty(), height, seq![p]);
    assert(Seq::<char>::empty() + d + seq![p] =~= lettered);
    lemma_height(width + seq![x], height, Seq::empty());
    assert(width + seq![x] + d + Seq::<char>::empty() =~= sized);
    if text::eq_fold(word, "worst"@) {
        assert(text::lower(word).len() == 5);
        assert(text::lower("best"@).len() == 4);
        assert(text::lower("worst"@).len() == 5);
    }
}

proof fn lemma_not_worded(s: Seq<char>)
    requires
        s.len() > 0 && '0' <= s[0] <= '9',
    ensures
        !text::eq_fold(s, "best"@),
        !text::eq_fold(s, "worst"@),
{
    reveal_strlit("best");
    reveal_strlit("worst");
    assert(text::lower(s)[0] == s[0]);
    assert(text::lower("best"@)[0] == 'b');
    assert(text::lower("worst"@)[0] == 'w');
}

proof fn lemma_height(before: Seq<char>, height: u32, after: Seq<char>)
    requires
        before.len() == 0 || before.last() == 'x' || before.last() == 'X',
        after.len() == 0 || after == seq!['p'] || after == seq!['P'],
    ensures
        scraper::selector_height(before + text::decimal(height as nat) + after) == Some(height),
{
    reveal_strlit("pP");
    let d = text::decimal(height as nat);
    lemma_number(height);
    let s = before + d + after;
    let bare = before + d;
    let set = "pP"@;
    assert(set[0] == 'p' && set[1] == 'P');
    assert('0' <= d[d.len() - 1] <= '9');
    assert(bare.last() == d.last());
    assert(!set.contains(bare.last()));
    assert(text::trim_end_of(bare, set) == bare);
    if after.len() > 0 {
        assert(s.last() == after[0]);
        assert(set.contains(s.last()));
        assert(s.drop_last() =~= bare);
    } else {
        assert(s =~= bare);
    }
    let k = before.len() - 1;
    assert forall|j: int| k < j < bare.len() implies #[trigger] bare[j] != 'x' && bare[j] != 'X' by {
        assert(bare[j] == d[j - before.len()]);
    }
    if k >= 0 {
        assert(bare[k] == before.last());
    }
    lemma_last_times(bare, bare.len() as int, k);
    assert(bare.skip(k + 1) =~= d);
}

/// A selector asks for a height only if it ends in the number of that height, with
/// nothing behind it but the letter for it, and with nothing before it or the sign
/// between a width and a height.
pub proof fn law_a_height_is_typed_as_a_number(s: Seq<char>, height: u32)
    requires
        scraper::worded_choice(s) == Some(ChoiceView::Height(height)),
    ensures
        exists|before: Seq<char>, number: Seq<char>, letters: Seq<char>|
            {
                &&& s == #[trigger] (before + number + letters)
                &&& before.len() == 0 || before.last() == 'x' || before.last() == 'X'
                &&& text::parse_unsigned(number, u32::MAX as nat) == Some(height as nat)
                &&& forall|k: int|
                    0 <= k < letters.len() ==> #[trigger] letters[k] == 'p' || letters[k] == 'P'
            },
{
    reveal_strlit("pP");
    let set = "pP"@;
    assert(set.len() == 2 && set[0] == 'p' && set[1] == 'P');
    text_laws::law_trimming_a_set(s, set);
    let bare = text::trim_end_of(s, set);
    let n = bare.len() as int;
    let k = scraper::last_times_sign(bare, n);
    lemma_last_times_is(bare, n);
    let before = bare.take(k + 1);
    let number = bare.skip(k + 1);
    let letters = s.skip(n);
    assert(s =~= before + number + letters);
    assert forall|j: int| 0 <= j < letters.len() implies #[trigger] letters[j] == 'p' || letters[j]
        == 'P' by {
        assert(set.contains(s[n + j]));
    }
}

proof fn lemma_last_times_is(s: Seq<char>, n: int)
    requires
        0 <= n <= s.len(),
    ensures
        -1 <= scraper::last_times_sign(s, n) < n || n == 0 && scraper::last_times_sign(s, n) == -1,
        scraper::last_times_sign(s, n) >= 0 ==> s[scraper::last_times_sign(s, n)] == 'x' || s[scraper::last_times_sign(s, n)]
            == 'X',
    decreases n,
{
    if n > 0 && s[n - 1] != 'x' && s[n - 1] != 'X' {
        lemma_last_times_is(s, n - 1);
    }
}

/// What is neither a word nor a height is taken for a URL, and only one of HTTP or
/// HTTPS is accepted; a word or a height is never taken for a URL. A refusal shows
/// what was typed.
pub proof fn law_a_selector_may_be_a_url(s: Seq<char>, parsed: Result<UrlView, Seq<char>>)
    ensures
        scraper::worded_choice(s) is Some ==> scraper::selected(s, parsed) == Ok::<ChoiceView, Seq<char>>(
            scraper::worded_choice(s)->0,
        ),
        scraper::worded_choice(s) is None ==> {
            &&& scraper::selected(s, parsed) is Ok <==> parsed is Ok && (parsed->Ok_0.scheme == "http"@
                || parsed->Ok_0.scheme == "https"@)
            &&& scraper::selected(s, parsed) matches Ok(choice) ==> choice == ChoiceView::Exact(parsed->Ok_0)
            &&& scraper::selected(s, parsed) matches Err(reason) ==> text::contains(reason, text::debug_quoted(s))
        },
{
    let head =
        "expected best, worst, a height such as 720p, or an http(s) variant URL, got "@;
    text_laws::law_a_phrase_is_held(scraper::selector_refusal(s), text::debug_quoted(s));
    assert(head + text::debug_quoted(s) + Seq::<char>::empty() =~= scraper::selector_refusal(s));
}

/// A variant that a playlist lists is offered at the place that its line names, seen
/// from the playlist, exactly if that is a URL; what the lines before it offer is
/// offered still.
pub proof fn law_a_listed_variant_is_offered(
    before: Seq<char>,
    v: VariantEntryView,
    base: Seq<char>,
    other: RenditionView,
)
    requires
        before.len() == 0 || before.last() == '\n',
        v.width is Some <==> v.height is Some,
        fits_in_quotes(v.codecs) && fits_in_quotes(v.audio_group),
        v.uri.len() > 0 && !v.uri.contains('\n'),
        !text::is_white(v.uri[0]) && !text::is_white(v.uri.last()) && v.uri[0] != '#',
    ensures
        ({
            let was = scraper::master_at(before, base);
            let now = scraper::master_at(before + written_variant(v), base);
            &&& now.audio == was.audio
            &&& was.renditions.contains(other) ==> now.renditions.contains(other)
            &&& web::url_join(base, v.uri) is None ==> now.renditions == was.renditions
            &&& web::url_join(base, v.uri) matches Some(url) ==> now.renditions.len()
                == was.renditions.len() + 1 && now.renditions.contains(
                RenditionView {
                    url,
                    bandwidth: v.bandwidth,
                    width: v.width,
                    height: v.height,
                    codecs: v.codecs,
                    audio_group: v.audio_group,
                },
            )
        }),
{
    law_a_variant_is_read_back(before, v);
    let was = scraper::master_state(text::lines(before));
    let now = scraper::master_state(text::lines(before + written_variant(v)));
    let urls = scraper::joined_variants(base, was.variants);
    let found = scraper::found_renditions(was.variants, urls);
    let all = scraper::found_renditions(now.variants, scraper::joined_variants(base, now.variants));
    assert(scraper::joined_variants(base, now.variants) =~= urls.push(web::url_join(base, v.uri)));
    assert(was.variants.push(v).drop_last() =~= was.variants);
    lemma_renditions_by_prefix(was.variants, urls, urls.push(web::url_join(base, v.uri)));
    scraper::law_renditions_are_ranked(found);
    scraper::law_renditions_are_ranked(all);
    playlist_laws::lemma_ranked_holds(found, other);
    playlist_laws::lemma_ranked_holds(all, other);
    if found.contains(other) {
        let k = choose|k: int| 0 <= k < found.len() && found[k] == other;
        assert(all[k] == other);
    }
    if let Some(url) = web::url_join(base, v.uri) {
        let x = scraper::rendition_at(v, url);
        assert(all == found.push(x));
        assert(all[found.len() as int] == x);
        playlist_laws::lemma_ranked_holds(all, x);
    }
}

/// What a playlist offers stands best first: no rendition is worse than one behind
/// it. Of those that are as good as each other, the order is that of the playlist.
pub proof fn law_a_playlist_offers_the_best_first(
    playlist: Seq<char>,
    base: Seq<char>,
    i: int,
    j: int,
)
    requires
        0 <= i < j < scraper::master_at(playlist, base).renditions.len(),
    ensures
        playlist_laws::is_no_worse(
            scraper::master_at(playlist, base).renditions[i],
            scraper::master_at(playlist, base).renditions[j],
        ),
        ({
            let state = scraper::master_state(text::lines(playlist));
            let found = scraper::found_renditions(state.variants, scraper::joined_variants(base, state.variants));
            let x = scraper::master_at(playlist, base).renditions[i];
            scraper::of_rank(scraper::master_at(playlist, base).renditions, x.bandwidth, x.pixels()) == scraper::of_rank(
                found,
                x.bandwidth,
                x.pixels(),
            )
        }),
{
    let state = scraper::master_state(text::lines(playlist));
    let found = scraper::found_renditions(state.variants, scraper::joined_variants(base, state.variants));
    let s = scraper::ranked(found);
    scraper::law_renditions_are_ranked(found);
    assert(!s[j].better_than(s[i]));
    playlist_laws::lemma_no_worse(s[i], s[j]);
    scraper::law_ranking_is_stable(found, s[i].bandwidth, s[i].pixels());
}

} // verus!
