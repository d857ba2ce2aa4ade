//! What naming a download amounts to, stated without the definitions of the
//! names.

use vstd::prelude::*;
use crate::{output, text, text_laws, web};
use crate::web::UrlView;

verus! {

// ---------------------------------------------------------------------------
// Names that are fit for a file
// ---------------------------------------------------------------------------

/// Whether a file system may refuse a character in a name.
pub open spec fn is_refused(c: char) -> bool {
    ||| c as int <= 31
    ||| 127 <= c as int <= 159
    ||| c == '<'
    ||| c == '>'
    ||| c == ':'
    ||| c == '"'
    ||| c == '/'
    ||| c == '\\'
    ||| c == '|'
    ||| c == '?'
    ||| c == '*'
}

proof fn lemma_same_letters(a: Seq<char>, b: Seq<char>)
    ensures
        text::upper(a) == text::upper(b) <==> text::eq_fold(a, b),
{
    if text::upper(a) == text::upper(b) {
        assert(text::lower(text::upper(a)) =~= text::lower(a));
        assert(text::lower(text::upper(b)) =~= text::lower(b));
    }
    if text::lower(a) == text::lower(b) {
        assert(text::upper(text::lower(a)) =~= text::upper(a));
        assert(text::upper(text::lower(b)) =~= text::upper(b));
    }
}

proof fn lemma_numbered_device(word: Seq<char>, d: char, bare: Seq<char>, full: Seq<char>)
    requires
        '1' <= d <= '9',
        full == text::upper(bare).push(d),
        bare.len() == 3,
    ensures
        text::upper(word) == full <==> word.len() == 4 && word[3] == d && text::eq_fold(word.take(3), bare),
{
    if text::upper(word) == full {
        assert(word.len() == 4) by {
            assert(text::upper(word).len() == full.len());
        }
        assert(text::upper(word)[3] == d);
        assert(text::upper(word.take(3)) =~= text::upper(bare)) by {
            assert forall|i: int| 0 <= i < 3 implies text::upper(word.take(3))[i] == text::upper(bare)[i] by {
                assert(text::upper(word)[i] == full[i]);
            }
        }
        lemma_same_letters(word.take(3), bare);
    }
    if word.len() == 4 && word[3] == d && text::eq_fold(word.take(3), bare) {
        lemma_same_letters(word.take(3), bare);
        assert(text::upper(word) =~= full) by {
            assert forall|i: int| 0 <= i < 4 implies text::upper(word)[i] == full[i] by {
                if i < 3 {
                    assert(text::upper(word.take(3))[i] == text::upper(bare)[i]);
                }
            }
        }
    }
}

proof fn lemma_device_literals()
    ensures
        "CON"@ == text::upper("con"@),
        "PRN"@ == text::upper("prn"@),
        "AUX"@ == text::upper("aux"@),
        "NUL"@ == text::upper("nul"@),
        "com"@.len() == 3,
        "lpt"@.len() == 3,
        "COM1"@ == text::upper("com"@).push('1'),
        "COM2"@ == text::upper("com"@).push('2'),
        "COM3"@ == text::upper("com"@).push('3'),
        "COM4"@ == text::upper("com"@).push('4'),
        "COM5"@ == text::upper("com"@).push('5'),
        "COM6"@ == text::upper("com"@).push('6'),
        "COM7"@ == text::upper("com"@).push('7'),
        "COM8"@ == text::upper("com"@).push('8'),
        "COM9"@ == text::upper("com"@).push('9'),
        "LPT1"@ == text::upper("lpt"@).push('1'),
        "LPT2"@ == text::upper("lpt"@).push('2'),
        "LPT3"@ == text::upper("lpt"@).push('3'),
        "LPT4"@ == text::upper("lpt"@).push('4'),
        "LPT5"@ == text::upper("lpt"@).push('5'),
        "LPT6"@ == text::upper("lpt"@).push('6'),
        "LPT7"@ == text::upper("lpt"@).push('7'),
        "LPT8"@ == text::upper("lpt"@).push('8'),
        "LPT9"@ == text::upper("lpt"@).push('9'),
{
    reveal_strlit("CON");
    reveal_strlit("con");
    reveal_strlit("PRN");
    reveal_strlit("prn");
    reveal_strlit("AUX");
    reveal_strlit("aux");
    reveal_strlit("NUL");
    reveal_strlit("nul");
    reveal_strlit("com");
    reveal_strlit("lpt");
    reveal_strlit("COM1");
    reveal_strlit("COM2");
    reveal_strlit("COM3");
    reveal_strlit("COM4");
    reveal_strlit("COM5");
    reveal_strlit("COM6");
    reveal_strlit("COM7");
    reveal_strlit("COM8");
    reveal_strlit("COM9");
    reveal_strlit("LPT1");
    reveal_strlit("LPT2");
    reveal_strlit("LPT3");
    reveal_strlit("LPT4");
    reveal_strlit("LPT5");
    reveal_strlit("LPT6");
    reveal_strlit("LPT7");
    reveal_strlit("LPT8");
    reveal_strlit("LPT9");
    assert("CON"@ =~= text::upper("con"@));
    assert("PRN"@ =~= text::upper("prn"@));
    assert("AUX"@ =~= text::upper("aux"@));
    assert("NUL"@ =~= text::upper("nul"@));
    assert("COM1"@ =~= text::upper("com"@).push('1'));
    assert("COM2"@ =~= text::upper("com"@).push('2'));
    assert("COM3"@ =~= text::upper("com"@).push('3'));
    assert("COM4"@ =~= text::upper("com"@).push('4'));
    assert("COM5"@ =~= text::upper("com"@).push('5'));
    assert("COM6"@ =~= text::upper("com"@).push('6'));
    assert("COM7"@ =~= text::upper("com"@).push('7'));
    assert("COM8"@ =~= text::upper("com"@).push('8'));
    assert("COM9"@ =~= text::upper("com"@).push('9'));
    assert("LPT1"@ =~= text::upper("lpt"@).push('1'));
    assert("LPT2"@ =~= text::upper("lpt"@).push('2'));
    assert("LPT3"@ =~= text::upper("lpt"@).push('3'));
    assert("LPT4"@ =~= text::upper("lpt"@).push('4'));
    assert("LPT5"@ =~= text::upper("lpt"@).push('5'));
    assert("LPT6"@ =~= text::upper("lpt"@).push('6'));
    assert("LPT7"@ =~= text::upper("lpt"@).push('7'));
    assert("LPT8"@ =~= text::upper("lpt"@).push('8'));
    assert("LPT9"@ =~= text::upper("lpt"@).push('9'));
}

/// Whether a word is a device on Windows, whatever stands behind it: one of four
/// words, or one of two and a digit from one on, in any case.
pub open spec fn device_word(word: Seq<char>) -> bool {
    ||| text::eq_fold(word, "con"@)
    ||| text::eq_fold(word, "prn"@)
    ||| text::eq_fold(word, "aux"@)
    ||| text::eq_fold(word, "nul"@)
    ||| word.len() == 4 && '1' <= word[3] <= '9' && (text::eq_fold(word.take(3), "com"@) || text::eq_fold(
        word.take(3),
        "lpt"@,
    ))
}

#[verifier::rlimit(60)]
proof fn lemma_device_word(word: Seq<char>)
    ensures
        output::device_names().contains(text::upper(word)) <==> device_word(word),
{
    lemma_device_literals();
    lemma_same_letters(word, "con"@);
    lemma_same_letters(word, "prn"@);
    lemma_same_letters(word, "aux"@);
    lemma_same_letters(word, "nul"@);
    let all = output::device_names();
    let w = text::upper(word);
    assert(all.contains(w) <==> {
        ||| w == all[0]
        ||| w == all[1]
        ||| w == all[2]
        ||| w == all[3]
        ||| w == all[4]
        ||| w == all[5]
        ||| w == all[6]
        ||| w == all[7]
        ||| w == all[8]
        ||| w == all[9]
        ||| w == all[10]
        ||| w == all[11]
        ||| w == all[12]
        ||| w == all[13]
        ||| w == all[14]
        ||| w == all[15]
        ||| w == all[16]
        ||| w == all[17]
        ||| w == all[18]
        ||| w == all[19]
        ||| w == all[20]
        ||| w == all[21]
    }) by {
        assert(all.len() == 22);
    }
    lemma_numbered_device(word, '1', "com"@, "COM1"@);
    lemma_numbered_device(word, '2', "com"@, "COM2"@);
    lemma_numbered_device(word, '3', "com"@, "COM3"@);
    lemma_numbered_device(word, '4', "com"@, "COM4"@);
    lemma_numbered_device(word, '5', "com"@, "COM5"@);
    lemma_numbered_device(word, '6', "com"@, "COM6"@);
    lemma_numbered_device(word, '7', "com"@, "COM7"@);
    lemma_numbered_device(word, '8', "com"@, "COM8"@);
    lemma_numbered_device(word, '9', "com"@, "COM9"@);
    lemma_numbered_device(word, '1', "lpt"@, "LPT1"@);
    lemma_numbered_device(word, '2', "lpt"@, "LPT2"@);
    lemma_numbered_device(word, '3', "lpt"@, "LPT3"@);
    lemma_numbered_device(word, '4', "lpt"@, "LPT4"@);
    lemma_numbered_device(word, '5', "lpt"@, "LPT5"@);
    lemma_numbered_device(word, '6', "lpt"@, "LPT6"@);
    lemma_numbered_device(word, '7', "lpt"@, "LPT7"@);
    lemma_numbered_device(word, '8', "lpt"@, "LPT8"@);
    lemma_numbered_device(word, '9', "lpt"@, "LPT9"@);
}

/// A name is taken for a device exactly when what stands before its first dot is
/// the word for one, in any case.
pub proof fn law_a_device_is_told(word: Seq<char>, rest: Seq<char>)
    requires
        !word.contains('.'),
        rest.len() == 0 || rest[0] == '.',
    ensures
        output::is_device_name(word + rest) <==> device_word(word),
{
    let name = word + rest;
    text::lemma_next_char(name, '.', 0);
    let k = text::next_char(name, '.', 0);
    assert(k == word.len()) by {
        if k < word.len() {
            assert(word.contains(word[k]));
        }
        if k > word.len() {
            assert(name[word.len() as int] == '.');
        }
    }
    assert(name.take(k) =~= word);
    lemma_device_word(word);
}

/// A name that holds nothing that a file system may refuse, has neither a dot nor
/// white space at its ends and is no device is kept as it is; dots and spaces at
/// its ends are all that is taken off it. Of a device, and of nothing but dots and
/// spaces, nothing is left.
pub proof fn law_a_fit_name_is_kept(before: Seq<char>, name: Seq<char>, after: Seq<char>)
    requires
        forall|k: int|
            0 <= k < before.len() ==> #[trigger] before[k] == '.' || before[k] == ' ',
        forall|k: int| 0 <= k < after.len() ==> #[trigger] after[k] == '.' || after[k] == ' ',
        forall|k: int| 0 <= k < name.len() ==> !is_refused(#[trigger] name[k]),
        name.len() > 0,
        !text::is_white(name[0]) && name[0] != '.',
        !text::is_white(name.last()) && name.last() != '.',
    ensures
        !output::is_device_name(name) ==> output::sanitized(before + name + after) == name && output::sanitized(name)
            == name,
        output::is_device_name(name) ==> output::sanitized(before + name + after).len() == 0 && output::sanitized(
            name,
        ).len() == 0,
        output::sanitized(before).len() == 0,
{
    lemma_only_edges(before);
    lemma_fit_name(before, name, after);
    let none = Seq::<char>::empty();
    lemma_fit_name(none, name, none);
    assert(none + name + none =~= name);
}

proof fn lemma_edges(before: Seq<char>, name: Seq<char>, after: Seq<char>, set: Seq<char>)
    requires
        forall|k: int| 0 <= k < before.len() ==> set.contains(#[trigger] before[k]),
        forall|k: int| 0 <= k < after.len() ==> set.contains(#[trigger] after[k]),
        name.len() > 0,
        !set.contains(name[0]),
        !set.contains(name.last()),
    ensures
        text::trim_end_of(text::trim_start_of(before + name + after, set), set) == name,
    decreases before.len() + after.len(),
{
    let s = before + name + after;
    if before.len() > 0 {
        assert(s[0] == before[0]);
        assert(s.skip(1) =~= before.skip(1) + name + after);
        lemma_edges(before.skip(1), name, after, set);
    } else {
        assert(s =~= name + after);
        assert(s[0] == name[0]);
        assert(text::trim_start_of(s, set) == s);
        if after.len() > 0 {
            let less = after.drop_last();
            let r = before + name + less;
            assert(s.last() == after.last());
            assert(s.drop_last() =~= r);
            assert(r[0] == name[0]);
            lemma_edges(before, name, less, set);
            assert(text::trim_start_of(r, set) == r);
        } else {
            assert(s =~= name);
        }
    }
}

proof fn lemma_white_edges(before: Seq<char>, name: Seq<char>, after: Seq<char>) -> (r: (int, int))
    requires
        name.len() > 0,
        !text::is_white(name[0]),
        !text::is_white(name.last()),
    ensures
        0 <= r.0 <= before.len(),
        0 <= r.1 <= after.len(),
        text::trim(before + name + after) == before.skip(r.0) + name + after.take(r.1),
    decreases before.len() + after.len(),
{
    let s = before + name + after;
    if before.len() > 0 && text::is_white(before[0]) {
        let less = before.skip(1);
        assert(s[0] == before[0]);
        assert(s.skip(1) =~= less + name + after);
        let r = lemma_white_edges(less, name, after);
        assert(less.skip(r.0) =~= before.skip(r.0 + 1));
        (r.0 + 1, r.1)
    } else {
        assert(s[0] == if before.len() > 0 {
            before[0]
        } else {
            name[0]
        });
        assert(text::trim_start(s) == s);
        if after.len() > 0 && text::is_white(after.last()) {
            let less = after.drop_last();
            let t = before + name + less;
            assert(s.last() == after.last());
            assert(s.drop_last() =~= t);
            assert(t[0] == s[0]);
            assert(text::trim_start(t) == t);
            let r = lemma_white_edges(before, name, less);
            assert(less.take(r.1) =~= after.take(r.1));
            r
        } else {
            assert(s.last() == if after.len() > 0 {
                after.last()
            } else {
                name.last()
            });
            assert(before.skip(0) =~= before);
            assert(after.take(after.len() as int) =~= after);
            (0, after.len() as int)
        }
    }
}

proof fn lemma_fit_name(before: Seq<char>, name: Seq<char>, after: Seq<char>)
    requires
        forall|k: int|
            0 <= k < before.len() ==> #[trigger] before[k] == '.' || before[k] == ' ',
        forall|k: int| 0 <= k < after.len() ==> #[trigger] after[k] == '.' || after[k] == ' ',
        forall|k: int| 0 <= k < name.len() ==> !is_refused(#[trigger] name[k]),
        name.len() > 0,
        !text::is_white(name[0]) && name[0] != '.',
        !text::is_white(name.last()) && name.last() != '.',
    ensures
        output::sanitized(before + name + after) == (if output::is_device_name(name) {
            Seq::empty()
        } else {
            name
        }),
{
    reveal_strlit(". ");
    let set = output::EDGE_CHARACTERS@;
    assert(set[0] == '.' && set[1] == ' ');
    let s = before + name + after;
    let i = before.len() as int;
    let j = (before.len() + name.len()) as int;
    assert forall|k: int| 0 <= k < s.len() implies !output::is_reserved(#[trigger] s[k]) by {
        if k < i {
            assert(s[k] == before[k]);
        } else if k < j {
            assert(s[k] == name[k - i]);
        } else {
            assert(s[k] == after[k - j]);
        }
    }
    assert(output::replaced_reserved(s) =~= s);
    let (m, n) = lemma_white_edges(before, name, after);
    let b = before.skip(m);
    let a = after.take(n);
    assert forall|k: int| 0 <= k < b.len() implies set.contains(#[trigger] b[k]) by {
        assert(b[k] == before[m + k]);
    }
    assert forall|k: int| 0 <= k < a.len() implies set.contains(#[trigger] a[k]) by {
        assert(a[k] == after[k]);
    }
    lemma_edges(b, name, a, set);
}

proof fn lemma_only_edges(s: Seq<char>)
    requires
        forall|k: int| 0 <= k < s.len() ==> #[trigger] s[k] == '.' || s[k] == ' ',
    ensures
        output::sanitized(s).len() == 0,
{
    reveal_strlit(". ");
    let set = output::EDGE_CHARACTERS@;
    assert(set[0] == '.' && set[1] == ' ');
    assert(output::replaced_reserved(s) =~= s);
    text_laws::law_trimming_takes_white_space_off(s);
    let t = text::trim(s);
    text_laws::law_trimming_a_set(t, set);
    let u = text::trim_start_of(t, set);
    if u.len() > 0 {
        let (a, b) = choose|a: Seq<char>, b: Seq<char>|
            {
                &&& s == #[trigger] (a + t + b)
                &&& forall|k: int| 0 <= k < a.len() ==> text::is_white(#[trigger] a[k])
                &&& forall|k: int| 0 <= k < b.len() ==> text::is_white(#[trigger] b[k])
            };
        let n = t.len() - u.len();
        assert(u[0] == t[n]);
        assert(t[n] == s[a.len() + n]);
        assert(set.contains(u[0]));
    }
    text_laws::law_trimming_a_set(u, set);
}

/// White space around a text makes no difference to the name that is made of it,
/// unless it is a control character, which a file system may refuse.
pub proof fn law_white_space_is_no_part_of_a_name(a: Seq<char>, s: Seq<char>, b: Seq<char>)
    requires
        forall|k: int| 0 <= k < a.len() ==> text::is_white(#[trigger] a[k]) && !is_refused(a[k]),
        forall|k: int| 0 <= k < b.len() ==> text::is_white(#[trigger] b[k]) && !is_refused(b[k]),
    ensures
        output::sanitized(a + s + b) == output::sanitized(s),
{
    let t = output::replaced_reserved(s);
    assert(output::replaced_reserved(a + s + b) =~= a + t + b) by {
        assert forall|k: int| 0 <= k < a.len() implies !output::is_reserved(#[trigger] a[k]) by {
            assert(!is_refused(a[k]));
        }
        assert forall|k: int| 0 <= k < b.len() implies !output::is_reserved(#[trigger] b[k]) by {
            assert(!is_refused(b[k]));
        }
        let whole = a + s + b;
        assert forall|k: int| 0 <= k < whole.len() implies output::replaced_reserved(whole)[k] == (a + t
            + b)[k] by {
            if k < a.len() {
                assert(whole[k] == a[k]);
            } else if k < a.len() + s.len() {
                assert(whole[k] == s[k - a.len()]);
            } else {
                assert(whole[k] == b[k - a.len() - s.len()]);
            }
        }
    }
    text_laws::law_trimming_forgets_white_space(a, t, b);
}

/// A character that a file system may refuse counts as an underscore.
pub proof fn law_a_refused_character_is_an_underscore(s: Seq<char>, i: int)
    requires
        0 <= i < s.len(),
        is_refused(s[i]),
    ensures
        output::sanitized(s) == output::sanitized(s.update(i, '_')),
{
    assert(output::replaced_reserved(s) =~= output::replaced_reserved(s.update(i, '_')));
}

// ---------------------------------------------------------------------------
// The name of a media file
// ---------------------------------------------------------------------------

/// A suggested name that is fit for a file and has an extension other than that of
/// a playlist is kept as it is, whole.
pub proof fn law_a_media_name_is_kept(stem: Seq<char>, extension: Seq<char>)
    requires
        output::sanitized(stem + seq!['.'] + extension) == stem + seq!['.'] + extension,
        !extension.contains('.'),
        !text::eq_fold(extension, "m3u8"@),
    ensures
        output::media_filename(stem + seq!['.'] + extension) == stem + seq!['.'] + extension,
{
    text_laws::law_a_separator_is_told(stem, extension, '.');
    reveal_strlit("m3u8");
    assert(text::lower("m3u8"@) =~= "m3u8"@);
}

/// A suggested name is first made fit for a file. What has the extension of a
/// playlist then gets that of the file that is made out of it, in its place; what
/// has none gets that too; and nothing at all is named like any other video.
pub proof fn law_a_playlist_is_named_like_its_media(
    suggested: Seq<char>,
    stem: Seq<char>,
    extension: Seq<char>,
)
    requires
        !extension.contains('.'),
    ensures
        output::sanitized(suggested) == stem + seq!['.'] + extension && text::eq_fold(extension, "m3u8"@)
            ==> output::media_filename(suggested) == stem + ".mp4"@,
        output::sanitized(suggested) == stem + seq!['.'] + extension && !text::eq_fold(extension, "m3u8"@)
            ==> output::media_filename(suggested) == output::sanitized(suggested),
        output::sanitized(suggested).len() > 0 && !output::sanitized(suggested).contains('.') ==> output::media_filename(
            suggested,
        ) == output::sanitized(suggested) + ".mp4"@,
        output::sanitized(suggested).len() == 0 ==> output::media_filename(suggested) == "video.mp4"@,
{
    text_laws::law_a_separator_is_told(stem, extension, '.');
    reveal_strlit("m3u8");
    assert(text::lower("m3u8"@) =~= "m3u8"@);
    reveal_strlit("video");
    reveal_strlit(".mp4");
    reveal_strlit("video.mp4");
    assert("video.mp4"@ =~= "video"@ + ".mp4"@);
    text_laws::law_cutting_at_the_last(output::sanitized(suggested), '.');
    if let Some(parts) = text::rsplit_once(output::sanitized(suggested), '.') {
        assert(output::sanitized(suggested)[parts.0.len() as int] == '.');
    }
    text_laws::law_cutting_at_the_last("video"@, '.');
    if let Some(parts) = text::rsplit_once("video"@, '.') {
        assert("video"@[parts.0.len() as int] == '.');
    }
}

/// Whether a stem says nothing of what it names: one of six words, a number, or
/// nothing.
pub open spec fn says_nothing(stem: Seq<char>) -> bool {
    ||| stem.len() == 0
    ||| text::eq_fold(stem, "index"@)
    ||| text::eq_fold(stem, "playlist"@)
    ||| text::eq_fold(stem, "master"@)
    ||| text::eq_fold(stem, "download"@)
    ||| text::eq_fold(stem, "video"@)
    ||| text::eq_fold(stem, "media"@)
    ||| forall|k: int| 0 <= k < stem.len() ==> '0' <= #[trigger] stem[k] <= '9'
}

/// A stem counts as saying nothing exactly when it does without the white space
/// around it.
pub proof fn law_a_stem_that_says_nothing(stem: Seq<char>)
    ensures
        output::generic_stem(stem) <==> says_nothing(text::trim(stem)),
{
    let t = text::trim(stem);
    let l = text::lower(t);
    lemma_stem_literals();
    let all = output::generic_stems();
    assert(all.len() == 6);
    assert(all.contains(l) <==> l == all[0] || l == all[1] || l == all[2] || l == all[3] || l
        == all[4] || l == all[5]);
    assert(text::all_digits(l) <==> forall|k: int| 0 <= k < t.len() ==> '0' <= #[trigger] t[k] <= '9') by {
        if text::all_digits(l) {
            assert forall|k: int| 0 <= k < t.len() implies '0' <= #[trigger] t[k] <= '9' by {
                assert(text::is_digit(l[k]));
            }
        }
        if forall|k: int| 0 <= k < t.len() ==> '0' <= #[trigger] t[k] <= '9' {
            assert forall|k: int| 0 <= k < l.len() implies text::is_digit(#[trigger] l[k]) by {
                assert('0' <= t[k] <= '9');
            }
        }
    }
}

proof fn lemma_stem_literals()
    ensures
        text::lower("index"@) == "index"@,
        text::lower("playlist"@) == "playlist"@,
        text::lower("master"@) == "master"@,
        text::lower("download"@) == "download"@,
        text::lower("video"@) == "video"@,
        text::lower("media"@) == "media"@,
{
    reveal_strlit("index");
    reveal_strlit("playlist");
    reveal_strlit("master");
    reveal_strlit("download");
    reveal_strlit("video");
    reveal_strlit("media");
    assert(text::lower("index"@) =~= "index"@);
    assert(text::lower("playlist"@) =~= "playlist"@);
    assert(text::lower("master"@) =~= "master"@);
    assert(text::lower("download"@) =~= "download"@);
    assert(text::lower("video"@) =~= "video"@);
    assert(text::lower("media"@) =~= "media"@);
}

/// A stem that says something is kept, whatever the title is. One that says
/// nothing gives way to the title, if anything is left of it, and else to the stem
/// that a download without a name has; the extension is kept in either case.
pub proof fn law_a_title_replaces_a_stem_that_says_nothing(
    stem: Seq<char>,
    extension: Seq<char>,
    title: Option<Seq<char>>,
)
    requires
        stem.len() > 0,
        !extension.contains('.'),
    ensures
        ({
            let name = stem + seq!['.'] + extension;
            &&& !says_nothing(text::trim(stem)) ==> output::hinted_filename(name, title) == name
            &&& says_nothing(text::trim(stem)) && (title matches Some(t) && output::title_stem(t) is Some)
                ==> output::hinted_filename(name, title) == output::title_stem(title->0)->0 + seq!['.'] + extension
            &&& says_nothing(text::trim(stem)) && (title matches Some(t) ==> output::title_stem(t) is None)
                ==> output::hinted_filename(name, title) == "video"@ + seq!['.'] + extension
        }),
{
    text_laws::law_a_separator_is_told(stem, extension, '.');
    law_a_stem_that_says_nothing(stem);
    reveal_strlit(".");
    assert("."@ =~= seq!['.']);
}

/// A name without an extension, or with nothing before it, is kept whatever the
/// title is.
pub proof fn law_a_name_without_a_stem_is_kept(name: Seq<char>, title: Option<Seq<char>>)
    requires
        !name.contains('.') || (name[0] == '.' && !name.skip(1).contains('.')),
        name.len() > 0,
    ensures
        output::hinted_filename(name, title) == name,
{
    text_laws::law_cutting_at_the_last(name, '.');
    if let Some(parts) = text::rsplit_once(name, '.') {
        let k = parts.0.len() as int;
        assert(name[k] == '.');
        if k > 0 {
            assert(name.skip(1)[k - 1] == '.');
        }
    }
}

/// The words of a title, with one space between each two, name the download as
/// they are if they are fit for a file name and not too long. Of a longer title
/// only the start counts.
pub proof fn law_a_title_names_a_download(title: Seq<char>, other: Seq<char>)
    ensures
        ({
            let whole = text::join(text::words(title), seq![' ']);
            let whole2 = text::join(text::words(other), seq![' ']);
            &&& whole.len() <= 80 && whole.len() > 0 && output::sanitized(whole) == whole ==> output::title_stem(
                title,
            ) == Some(whole)
            &&& whole.len() <= 80 && output::sanitized(whole).len() > 0 ==> output::title_stem(title) == Some(
                output::sanitized(whole),
            )
            &&& whole.len() <= 80 && output::sanitized(whole).len() == 0 ==> output::title_stem(title) is None
            &&& whole.len() > 80 && output::sanitized(whole.take(80)).len() > 0 ==> output::title_stem(title)
                == Some(output::sanitized(whole.take(80)))
            &&& whole.len() > 80 && output::sanitized(whole.take(80)).len() == 0 ==> output::title_stem(title)
                is None
            &&& whole.len() >= 80 && whole2.len() >= 80 && whole.take(80) == whole2.take(80)
                ==> output::title_stem(title) == output::title_stem(other)
            &&& whole.len() >= 80 && whole.take(80) == output::sanitized(whole.take(80)) ==> output::title_stem(
                title,
            ) == Some(whole.take(80))
        }),
{
    reveal_strlit(" ");
    assert(" "@ =~= seq![' ']);
    let whole = text::join(text::words(title), seq![' ']);
    let whole2 = text::join(text::words(other), seq![' ']);
    if whole.len() == 80 {
        assert(whole.take(80) =~= whole);
    }
    if whole2.len() == 80 {
        assert(whole2.take(80) =~= whole2);
    }
}

// ---------------------------------------------------------------------------
// The name that a URL suggests
// ---------------------------------------------------------------------------

proof fn lemma_last_filled(v: Seq<Seq<char>>, name: Seq<char>)
    requires
        name.len() > 0,
    ensures
        output::last_filled(v.push(name)) == Some(name),
        output::last_filled(v.push(Seq::empty())) == output::last_filled(v),
{
    assert(v.push(name).last() == name);
    assert(v.push(Seq::<char>::empty()).drop_last() =~= v);
}

proof fn lemma_trailing(name: Seq<char>, trail: Seq<char>, inner: Seq<char>)
    requires
        name.len() > 0,
        !name.contains('/'),
        forall|k: int| 0 <= k < trail.len() ==> #[trigger] trail[k] == '/',
        inner.len() == 0 || inner.last() == '/',
    ensures
        output::last_filled(text::split(inner + name + trail, '/')) == Some(name),
    decreases trail.len(),
{
    if trail.len() > 0 {
        let less = trail.drop_last();
        lemma_trailing(name, less, inner);
        let a = inner + name + less;
        let b = Seq::<char>::empty();
        assert(inner + name + trail =~= a + seq!['/'] + b);
        text_laws::law_splitting_at_a_separator(a, b, '/');
        text_laws::law_splitting_at_a_separator(b, b, '/');
        assert(text::split(a, '/') + seq![b] =~= text::split(a, '/').push(b));
        lemma_last_filled(text::split(a, '/'), name);
    } else if inner.len() == 0 {
        assert(inner + name + trail =~= name);
        text_laws::law_splitting_at_a_separator(name, name, '/');
        assert(seq![name] =~= Seq::<Seq<char>>::empty().push(name));
        lemma_last_filled(Seq::empty(), name);
    } else {
        let a = inner.drop_last();
        assert(inner + name + trail =~= a + seq!['/'] + name);
        text_laws::law_splitting_at_a_separator(a, name, '/');
        text_laws::law_splitting_at_a_separator(name, name, '/');
        assert(text::split(a, '/') + seq![name] =~= text::split(a, '/').push(name));
        lemma_last_filled(text::split(a, '/'), name);
    }
}

/// The end of a path is what stands behind its last slash, slashes at the very end
/// aside.
pub proof fn law_the_end_of_a_path_names_it(dir: Seq<char>, name: Seq<char>, trail: Seq<char>)
    requires
        dir.len() > 0,
        dir[0] == '/',
        dir.last() == '/',
        name.len() > 0,
        !name.contains('/'),
        forall|k: int| 0 <= k < trail.len() ==> #[trigger] trail[k] == '/',
    ensures
        output::last_segment(dir + name + trail) == Some(name),
{
    let path = dir + name + trail;
    reveal_strlit("/");
    assert(path.subrange(0, 1) =~= "/"@);
    assert(path.skip(1) =~= dir.skip(1) + name + trail);
    lemma_trailing(name, trail, dir.skip(1));
}

/// A path of nothing but slashes, and one that does not begin with a slash, has no
/// end that names it.
pub proof fn law_slashes_name_nothing(path: Seq<char>)
    ensures
        path.len() == 0 || path[0] != '/' ==> output::last_segment(path) is None,
        (forall|k: int| 0 <= k < path.len() ==> #[trigger] path[k] == '/') ==> output::last_segment(path)
            is None,
{
    reveal_strlit("/");
    if text::starts_with(path, "/"@) {
        assert(path.subrange(0, 1)[0] == '/');
        if forall|k: int| 0 <= k < path.len() ==> #[trigger] path[k] == '/' {
            let rest = path.skip(1);
            assert forall|k: int| 0 <= k < rest.len() implies #[trigger] rest[k] == '/' by {
                assert(rest[k] == path[k + 1]);
            }
            lemma_only_slashes(rest);
        }
    }
}

proof fn lemma_only_slashes(s: Seq<char>)
    requires
        forall|k: int| 0 <= k < s.len() ==> #[trigger] s[k] == '/',
    ensures
        output::last_filled(text::split(s, '/')) is None,
    decreases s.len(),
{
    let none = Seq::<char>::empty();
    text_laws::law_splitting_at_a_separator(none, none, '/');
    if s.len() > 0 {
        let a = s.drop_last();
        assert(s[s.len() - 1] == '/');
        assert(s =~= a + seq!['/'] + none);
        text_laws::law_splitting_at_a_separator(a, none, '/');
        assert forall|k: int| 0 <= k < a.len() implies #[trigger] a[k] == '/' by {
            assert(a[k] == s[k]);
        }
        lemma_only_slashes(a);
        assert(text::split(a, '/') + seq![none] =~= text::split(a, '/').push(none));
        lemma_last_filled(text::split(a, '/'), seq!['a']);
    } else {
        assert(s =~= none);
        assert(seq![none] =~= Seq::<Seq<char>>::empty().push(none));
        lemma_last_filled(Seq::empty(), seq!['a']);
        assert(output::last_filled(Seq::<Seq<char>>::empty()) is None);
    }
}

/// Where the end of a path says nothing, the first parameter of the query that is
/// meant for a name gives it; where it says something, no parameter does.
pub proof fn law_a_parameter_names_a_download(
    decoded: Option<Seq<char>>,
    before: Seq<(Seq<char>, Seq<char>)>,
    key: Seq<char>,
    value: Seq<char>,
    after: Seq<(Seq<char>, Seq<char>)>,
)
    requires
        forall|k: int|
            0 <= k < before.len() ==> (#[trigger] before[k]).0 != "filename"@ && before[k].0
                != "file"@ && before[k].0 != "name"@ && before[k].0 != "title"@,
    ensures
        (decoded matches Some(name) && name.len() > 0) ==> output::suggested_name(
            decoded,
            before + seq![(key, value)] + after,
        ) == decoded->0,
        (decoded matches Some(name) ==> name.len() == 0) && (key == "filename"@ || key == "file"@
            || key == "name"@ || key == "title"@) ==> output::suggested_name(
            decoded,
            before + seq![(key, value)] + after,
        ) == value,
        (decoded matches Some(name) ==> name.len() == 0) ==> output::suggested_name(decoded, before)
            == Seq::<char>::empty(),
{
    let all = before + seq![(key, value)] + after;
    if key == "filename"@ || key == "file"@ || key == "name"@ || key == "title"@ {
        lemma_parameter(all, before, key, value, 0);
    }
    lemma_no_parameter(before, 0);
}

proof fn lemma_parameter(
    all: Seq<(Seq<char>, Seq<char>)>,
    before: Seq<(Seq<char>, Seq<char>)>,
    key: Seq<char>,
    value: Seq<char>,
    i: int,
)
    requires
        0 <= i <= before.len() < all.len(),
        forall|k: int| 0 <= k < before.len() ==> #[trigger] all[k] == before[k],
        all[before.len() as int] == (key, value),
        key == "filename"@ || key == "file"@ || key == "name"@ || key == "title"@,
        forall|k: int|
            0 <= k < before.len() ==> (#[trigger] before[k]).0 != "filename"@ && before[k].0
                != "file"@ && before[k].0 != "name"@ && before[k].0 != "title"@,
    ensures
        output::file_parameter(all, i) == Some(value),
    decreases before.len() - i,
{
    if i < before.len() {
        assert(all[i] == before[i]);
        lemma_parameter(all, before, key, value, i + 1);
    }
}

proof fn lemma_no_parameter(before: Seq<(Seq<char>, Seq<char>)>, i: int)
    requires
        0 <= i <= before.len(),
        forall|k: int|
            0 <= k < before.len() ==> (#[trigger] before[k]).0 != "filename"@ && before[k].0
                != "file"@ && before[k].0 != "name"@ && before[k].0 != "title"@,
    ensures
        output::file_parameter(before, i) is None,
    decreases before.len() - i,
{
    if i < before.len() {
        lemma_no_parameter(before, i + 1);
    }
}

// ---------------------------------------------------------------------------
// Where a download is written
// ---------------------------------------------------------------------------

/// A path that is given is written to as it is, whatever the URL, the directories
/// and the title are; only an empty one is refused.
pub proof fn law_a_given_path_is_taken(
    url: UrlView,
    path: Seq<char>,
    parent: Option<Seq<char>>,
    dir: Option<Seq<char>>,
    current_dir: Seq<char>,
    title: Option<Seq<char>>,
)
    ensures
        match output::planned_output(url, Some(path), parent, dir, current_dir, title) {
            Ok(plan) => path.len() > 0 && plan.1 == path && (plan.0 is Some <==> parent is Some
                && parent->0.len() > 0) && (plan.0 is Some ==> plan.0 == parent),
            Err(_) => path.len() == 0,
        },
{
}

/// Without a path, a download is written below the directory that is given, or
/// else below the current one, with a separator between the two exactly where the
/// directory does not end in one; an empty directory is refused.
pub proof fn law_a_directory_holds_the_download(
    url: UrlView,
    parent: Option<Seq<char>>,
    dir: Option<Seq<char>>,
    current_dir: Seq<char>,
    title: Option<Seq<char>>,
)
    ensures
        ({
            let chosen = if dir is Some {
                dir->0
            } else {
                current_dir
            };
            let name = output::hinted_filename(output::inferred_filename(url), title);
            match output::planned_output(url, None, parent, dir, current_dir, title) {
                Ok(plan) => {
                    &&& chosen.len() > 0
                    &&& plan.0 == Some(chosen)
                    &&& chosen.last() == '/' ==> plan.1 == chosen + name
                    &&& chosen.last() != '/' ==> plan.1 == chosen + seq!['/'] + name
                },
                Err(_) => chosen.len() == 0,
            }
        }),
{
    let chosen = if dir is Some {
        dir->0
    } else {
        current_dir
    };
    assert(chosen.push('/') =~= chosen + seq!['/']);
}

/// A number that tells a name from one that is taken stands before the extension;
/// a name without one, or with nothing before it, gets it at its end. The first
/// attempt tries the name itself.
pub proof fn law_a_number_stands_before_the_extension(
    stem: Seq<char>,
    extension: Seq<char>,
    attempt: nat,
)
    requires
        stem.len() > 0,
        !extension.contains('.'),
    ensures
        output::attempted_name(stem + seq!['.'] + extension, 1) == stem + seq!['.'] + extension,
        attempt != 1 ==> output::attempted_name(stem + seq!['.'] + extension, attempt) == stem + seq!['_']
            + text::decimal(attempt) + seq!['.'] + extension,
        attempt != 1 && !stem.contains('.') ==> output::attempted_name(stem, attempt) == stem + seq!['_']
            + text::decimal(attempt),
        attempt != 1 ==> output::attempted_name(seq!['.'] + extension, attempt) == seq!['.'] + extension
            + seq!['_'] + text::decimal(attempt),
{
    text_laws::law_a_separator_is_told(stem, extension, '.');
    let none = Seq::<char>::empty();
    text_laws::law_a_separator_is_told(none, extension, '.');
    assert(none + seq!['.'] + extension =~= seq!['.'] + extension);
    reveal_strlit("_");
    reveal_strlit(".");
    assert("_"@ =~= seq!['_']);
    assert("."@ =~= seq!['.']);
    text_laws::law_cutting_at_the_last(stem, '.');
    if let Some(parts) = text::rsplit_once(stem, '.') {
        assert(stem[parts.0.len() as int] == '.');
    }
}

/// A URL is downloaded from exactly when it was read, is one of HTTP or HTTPS, and
/// names a host both in the text and once it is read. It is then taken as it was
/// read.
pub proof fn law_a_url_names_its_host(raw: Seq<char>, url: UrlView, reason: Seq<char>)
    ensures
        output::url_verdict(raw, Err(reason)) == Err::<UrlView, Seq<char>>(reason),
        output::url_verdict(raw, Ok(url)) is Ok <==> {
            &&& url.scheme == "http"@ || url.scheme == "https"@
            &&& url.host is Some && url.host->0.len() > 0
            &&& exists|scheme: Seq<char>, rest: Seq<char>|
                {
                    &&& raw == #[trigger] (scheme + "://"@ + rest)
                    &&& forall|k: int| 0 <= k < scheme.len() ==> !text::occurs_at(raw, "://"@, k)
                    &&& rest.len() > 0 && rest[0] != '/' && rest[0] != '?' && rest[0] != '#'
                }
        },
        output::url_verdict(raw, Ok(url)) is Ok ==> output::url_verdict(raw, Ok(url))->Ok_0 == url,
{
    let p = "://"@;
    text_laws::law_cutting_at_a_phrase(raw, p);
    if let Some(parts) = text::split_once(raw, p) {
        assert(raw == parts.0 + p + parts.1);
    }
    if exists|scheme: Seq<char>, rest: Seq<char>|
        {
            &&& raw == #[trigger] (scheme + p + rest)
            &&& forall|k: int| 0 <= k < scheme.len() ==> !text::occurs_at(raw, p, k)
            &&& rest.len() > 0 && rest[0] != '/' && rest[0] != '?' && rest[0] != '#'
        } {
        let (scheme, rest) = choose|scheme: Seq<char>, rest: Seq<char>|
            {
                &&& raw == #[trigger] (scheme + p + rest)
                &&& forall|k: int| 0 <= k < scheme.len() ==> !text::occurs_at(raw, p, k)
                &&& rest.len() > 0 && rest[0] != '/' && rest[0] != '?' && rest[0] != '#'
            };
        let i = scheme.len() as int;
        assert(raw.subrange(i, i + p.len()) =~= p);
        assert(text::occurs_at(raw, p, i));
        let parts = text::split_once(raw, p)->0;
        text::lemma_find_from(raw, p, 0);
        assert(text::find(raw, p) == Some(i));
        assert(parts.1 =~= rest);
    }
}

/// A thousand names are tried before a collision is an error, and a name that is
/// free among them is found.
pub proof fn law_a_thousand_names_are_tried(
    name: Seq<char>,
    taken: Set<Seq<char>>,
    attempt: int,
)
    requires
        1 <= attempt <= 1000,
        !taken.contains(output::attempted_name(name, attempt as nat)),
    ensures
        output::settled_attempt(name, taken, 1) matches Some(k) && 1 <= k <= attempt && !taken.contains(
            output::attempted_name(name, k as nat),
        ),
{
    output::law_the_lowest_free_name_is_taken(name, taken, 1);
}

/// The name that a URL suggests is made of the end of its path, decoded, whatever its
/// query is; only if there is none, the first parameter that is meant for a name
/// gives it, and without a query nothing does.
pub proof fn law_a_url_suggests_a_name(
    url: UrlView,
    dir: Seq<char>,
    name: Seq<char>,
    trail: Seq<char>,
)
    requires
        dir.len() > 0,
        dir[0] == '/',
        dir.last() == '/',
        forall|k: int| 0 <= k < trail.len() ==> #[trigger] trail[k] == '/',
        !name.contains('/'),
    ensures
        name.len() > 0 && url.path == dir + name + trail && web::percent_decoded(name).len() > 0
            ==> output::inferred_filename(url) == output::media_filename(web::percent_decoded(name)),
        url.path == trail ==> output::inferred_filename(url) == output::media_filename(
            output::suggested_name(
                None,
                web::query_pairs(
                    if url.query is Some {
                        url.query->0
                    } else {
                        Seq::empty()
                    },
                ),
            ),
        ),
{
    reveal_strlit("");
    assert(""@ =~= Seq::empty());
    if name.len() > 0 && url.path == dir + name + trail {
        law_the_end_of_a_path_names_it(dir, name, trail);
    }
    if url.path == trail {
        law_slashes_name_nothing(trail);
    }
}

} // verus!
