//! What reading a playlist amounts to, stated without the definitions of the
//! readers.

use vstd::prelude::*;
use crate::{scraper, text, text_laws};
use crate::scraper::{
    AudioView, ChoiceView, HlsInfo, MasterView, PlaylistProblem, RenditionView,
};

verus! {

// ---------------------------------------------------------------------------
// Which rendition is chosen, and with which sound
// ---------------------------------------------------------------------------

proof fn lemma_in_group(s: Seq<AudioView>, group: Seq<char>, marked: bool, i: int)
    requires
        0 <= i <= s.len(),
    ensures
        ({
            let k = scraper::in_group(s, group, marked, i);
            &&& i <= k <= s.len()
            &&& k < s.len() ==> s[k].group_id == group && (marked ==> s[k].default)
            &&& forall|j: int|
                i <= j < k ==> !((#[trigger] s[j]).group_id == group && (marked ==> s[j].default))
        }),
    decreases s.len() - i,
{
    if i < s.len() && !(s[i].group_id == group && (marked ==> s[i].default)) {
        lemma_in_group(s, group, marked, i + 1);
    }
}

/// A rendition is given a sound exactly when the playlist lists one of the group
/// that the rendition names. That sound is of this group; it is a default one if
/// the group has any, and no sound before it would do as well.
pub proof fn law_a_sound_belongs_to_its_rendition(master: MasterView, rendition: RenditionView)
    ensures
        match master.sound_of(rendition) {
            Some(sound) => {
                &&& rendition.audio_group == Some(sound.group_id)
                &&& (exists|j: int|
                    0 <= j < master.audio.len() && (#[trigger] master.audio[j]).group_id
                        == sound.group_id && master.audio[j].default) ==> sound.default
                &&& exists|k: int|
                    {
                        &&& 0 <= k < master.audio.len()
                        &&& #[trigger] master.audio[k] == sound
                        &&& forall|j: int|
                            0 <= j < k && (#[trigger] master.audio[j]).group_id == sound.group_id
                                ==> sound.default && !master.audio[j].default
                    }
            },
            None => forall|j: int|
                0 <= j < master.audio.len() ==> rendition.audio_group != Some(
                    (#[trigger] master.audio[j]).group_id,
                ),
        },
{
    if let Some(group) = rendition.audio_group {
        lemma_in_group(master.audio, group, true, 0);
        lemma_in_group(master.audio, group, false, 0);
        let marked = scraper::in_group(master.audio, group, true, 0);
        let first = scraper::in_group(master.audio, group, false, 0);
        if marked < master.audio.len() {
            assert(master.audio[marked] == master.sound_of(rendition)->0);
        } else if first < master.audio.len() {
            assert(master.audio[first] == master.sound_of(rendition)->0);
        }
    }
}

/// Whether one rendition is at least as good as another: its bandwidth is higher,
/// or the same with a picture that is no smaller. A picture of unknown size is
/// smaller than any other.
pub open spec fn is_no_worse(x: RenditionView, y: RenditionView) -> bool {
    x.bandwidth >= y.bandwidth && (x.bandwidth == y.bandwidth && y.width is Some && y.height is Some
        ==> x.width is Some && x.height is Some && x.width->0 * x.height->0 >= y.width->0
        * y.height->0)
}

pub proof fn lemma_no_worse(x: RenditionView, y: RenditionView)
    ensures
        is_no_worse(x, y) <==> !y.better_than(x),
{
    if let (Some(w), Some(h)) = (x.width, x.height) {
        assert(w * h >= 0) by (nonlinear_arith)
            requires
                w >= 0,
                h >= 0,
        ;
    }
    if let (Some(w), Some(h)) = (y.width, y.height) {
        assert(w * h >= 0) by (nonlinear_arith)
            requires
                w >= 0,
                h >= 0,
        ;
    }
}

pub proof fn lemma_ranked_holds(s: Seq<RenditionView>, x: RenditionView)
    ensures
        scraper::ranked(s).contains(x) <==> s.contains(x),
    decreases s.len(),
{
    if s.len() > 0 {
        let before = scraper::ranked(s.drop_last());
        let y = s.last();
        let p = scraper::rank_position(before, y, 0);
        scraper::lemma_rank_position(before, y, 0);
        lemma_ranked_holds(s.drop_last(), x);
        let all = before.insert(p, y);
        assert(all[p] == y);
        if s.contains(x) {
            let k = choose|k: int| 0 <= k < s.len() && s[k] == x;
            if k < s.len() - 1 {
                assert(s.drop_last()[k] == x);
                let j = choose|j: int| 0 <= j < before.len() && before[j] == x;
                assert(all[if j < p {
                    j
                } else {
                    j + 1
                }] == x);
            }
        }
        if all.contains(x) {
            let k = choose|k: int| 0 <= k < all.len() && all[k] == x;
            if k == p {
                assert(s[s.len() - 1] == x);
            } else {
                assert(before[if k < p {
                    k
                } else {
                    k - 1
                }] == x);
                let j = choose|j: int| 0 <= j < s.drop_last().len() && s.drop_last()[j] == x;
                assert(s[j] == x);
            }
        }
    }
}

/// A playlist that lists renditions has a best and a worst one, among those it
/// lists. Asking for nothing asks for the best; none that is listed is better than
/// the best, nor worse than the worst.
pub proof fn law_the_best_and_the_worst(
    found: Seq<RenditionView>,
    audio: Seq<AudioView>,
    position: int,
)
    ensures
        ({
            let master = MasterView { renditions: scraper::ranked(found), audio };
            let best = master.chosen(Some(ChoiceView::Best));
            let worst = master.chosen(Some(ChoiceView::Worst));
            &&& master.chosen(None) == best
            &&& best is Some <==> found.len() > 0
            &&& worst is Some <==> found.len() > 0
            &&& best is Some ==> found.contains(best->0) && found.contains(worst->0)
            &&& 0 <= position < found.len() ==> is_no_worse(best->0, found[position])
                && is_no_worse(found[position], worst->0)
        }),
{
    let s = scraper::ranked(found);
    scraper::law_renditions_are_ranked(found);
    if found.len() > 0 {
        assert(s.contains(s[0]));
        assert(s.contains(s.last()));
        lemma_ranked_holds(found, s[0]);
        lemma_ranked_holds(found, s.last());
        if 0 <= position < found.len() {
            let x = found[position];
            assert(found.contains(x));
            lemma_ranked_holds(found, x);
            let k = choose|k: int| 0 <= k < s.len() && s[k] == x;
            if k > 0 {
                assert(!s[k].better_than(s[0]));
            }
            if k < s.len() - 1 {
                assert(!s[s.len() - 1].better_than(s[k]));
            }
            lemma_no_worse(s[0], x);
            lemma_no_worse(x, s.last());
        }
    }
}

pub proof fn lemma_first_of_height(s: Seq<RenditionView>, height: u32, i: int)
    requires
        0 <= i <= s.len(),
    ensures
        ({
            let k = scraper::with_height(s, height, i);
            &&& i <= k <= s.len()
            &&& k < s.len() ==> s[k].height == Some(height)
            &&& forall|j: int| i <= j < k ==> (#[trigger] s[j]).height != Some(height)
        }),
    decreases s.len() - i,
{
    if i < s.len() && s[i].height != Some(height) {
        lemma_first_of_height(s, height, i + 1);
    }
}

pub proof fn lemma_first_at_url(s: Seq<RenditionView>, url: Seq<char>, i: int)
    requires
        0 <= i <= s.len(),
    ensures
        ({
            let k = scraper::with_url(s, url, i);
            &&& i <= k <= s.len()
            &&& k < s.len() ==> s[k].url.text == url
            &&& forall|j: int| i <= j < k ==> (#[trigger] s[j]).url.text != url
        }),
    decreases s.len() - i,
{
    if i < s.len() && s[i].url.text != url {
        lemma_first_at_url(s, url, i + 1);
    }
}

/// A rendition that is asked for by its height is had exactly when the playlist
/// lists one of this height: the best of them, and never one of another height.
pub proof fn law_a_height_is_met_exactly(
    found: Seq<RenditionView>,
    audio: Seq<AudioView>,
    height: u32,
    position: int,
)
    ensures
        ({
            let master = MasterView { renditions: scraper::ranked(found), audio };
            match master.chosen(Some(ChoiceView::Height(height))) {
                Some(x) => {
                    &&& found.contains(x)
                    &&& x.height == Some(height)
                    &&& 0 <= position < found.len() && found[position].height == Some(height)
                        ==> is_no_worse(x, found[position])
                },
                None => 0 <= position < found.len() ==> found[position].height != Some(height),
            }
        }),
{
    let s = scraper::ranked(found);
    scraper::law_renditions_are_ranked(found);
    lemma_first_of_height(s, height, 0);
    let k = scraper::with_height(s, height, 0);
    if k < s.len() {
        assert(s.contains(s[k]));
        lemma_ranked_holds(found, s[k]);
    }
    if 0 <= position < found.len() {
        let x = found[position];
        assert(found.contains(x));
        lemma_ranked_holds(found, x);
        let j = choose|j: int| 0 <= j < s.len() && s[j] == x;
        if x.height == Some(height) {
            if k < j {
                assert(!s[j].better_than(s[k]));
            }
            lemma_no_worse(s[k], x);
        }
    }
}

/// A rendition that is asked for by its URL is had exactly when the playlist lists
/// one at this URL: the best of them, and never one at another.
pub proof fn law_a_url_is_met_exactly(
    found: Seq<RenditionView>,
    audio: Seq<AudioView>,
    choice: ChoiceView,
    position: int,
)
    requires
        choice is Exact,
    ensures
        ({
            let master = MasterView { renditions: scraper::ranked(found), audio };
            match master.chosen(Some(choice)) {
                Some(x) => {
                    &&& found.contains(x)
                    &&& x.url.text == choice->Exact_0.text
                    &&& 0 <= position < found.len() && found[position].url.text
                        == choice->Exact_0.text ==> is_no_worse(x, found[position])
                },
                None => 0 <= position < found.len() ==> found[position].url.text
                    != choice->Exact_0.text,
            }
        }),
{
    let s = scraper::ranked(found);
    let url = choice->Exact_0.text;
    scraper::law_renditions_are_ranked(found);
    lemma_first_at_url(s, url, 0);
    let k = scraper::with_url(s, url, 0);
    if k < s.len() {
        assert(s.contains(s[k]));
        lemma_ranked_holds(found, s[k]);
    }
    if 0 <= position < found.len() {
        let x = found[position];
        assert(found.contains(x));
        lemma_ranked_holds(found, x);
        let j = choose|j: int| 0 <= j < s.len() && s[j] == x;
        if x.url.text == url {
            if k < j {
                assert(!s[j].better_than(s[k]));
            }
            lemma_no_worse(s[k], x);
        }
    }
}

// ---------------------------------------------------------------------------
// Segments and their durations
// ---------------------------------------------------------------------------

/// How many lines, once trimmed, begin with a mark.
pub open spec fn marked_lines(ls: Seq<Seq<char>>, mark: Seq<char>) -> nat
    decreases ls.len(),
{
    if ls.len() == 0 {
        0
    } else {
        marked_lines(ls.skip(1), mark) + (if text::starts_with(text::trim(ls[0]), mark) {
            1nat
        } else {
            0
        })
    }
}

proof fn lemma_durations_add(a: Seq<Seq<char>>, b: Seq<Seq<char>>)
    ensures
        scraper::duration_fields(a + b) == scraper::duration_fields(a) + scraper::duration_fields(b),
    decreases b.len(),
{
    if b.len() == 0 {
        assert(a + b =~= a);
        assert(scraper::duration_fields(b) =~= Seq::<Seq<char>>::empty());
        assert(scraper::duration_fields(a) + scraper::duration_fields(b) =~= scraper::duration_fields(a));
    } else {
        assert((a + b).drop_last() =~= a + b.drop_last());
        assert((a + b).last() == b.last());
        lemma_durations_add(a, b.drop_last());
        assert(scraper::duration_fields(a + b) =~= scraper::duration_fields(a) + scraper::duration_fields(b));
    }
}

proof fn lemma_one_duration(line: Seq<char>)
    ensures
        scraper::duration_fields(seq![line]) == (match text::strip_prefix(text::trim(line), "#EXTINF:"@) {
            Some(value) => seq![value.take(text::next_char(value, ',', 0))],
            None => Seq::empty(),
        }),
{
    let ls = seq![line];
    assert(ls.drop_last() =~= Seq::<Seq<char>>::empty());
    assert(scraper::duration_fields(ls.drop_last()) =~= Seq::<Seq<char>>::empty());
    if let Some(value) = text::strip_prefix(text::trim(line), "#EXTINF:"@) {
        assert(scraper::duration_fields(ls) =~= seq![value.take(text::next_char(value, ',', 0))]);
    }
}

proof fn lemma_durations_count(ls: Seq<Seq<char>>)
    ensures
        scraper::duration_fields(ls).len() == marked_lines(ls, "#EXTINF:"@),
    decreases ls.len(),
{
    if ls.len() > 0 {
        assert(ls =~= seq![ls[0]] + ls.skip(1));
        lemma_durations_add(seq![ls[0]], ls.skip(1));
        lemma_one_duration(ls[0]);
        lemma_durations_count(ls.skip(1));
    }
}

/// A playlist states as many durations as it has lines that, once trimmed, begin
/// with the mark of a segment.
pub proof fn law_each_segment_has_a_duration(playlist: Seq<char>)
    ensures
        scraper::duration_fields(text::lines(playlist)).len() == marked_lines(text::lines(playlist), "#EXTINF:"@),
{
    lemma_durations_count(text::lines(playlist));
}

/// The durations of two texts of whole lines, one behind the other, are those of
/// the first and then those of the second.
pub proof fn law_durations_are_read_one_after_another(a: Seq<char>, b: Seq<char>)
    requires
        a.len() == 0 || a.last() == '\n',
    ensures
        scraper::duration_fields(text::lines(a + b)) == scraper::duration_fields(text::lines(a)) + scraper::duration_fields(text::lines(b)),
{
    text_laws::law_lines_are_read_one_after_another(a, b);
    lemma_durations_add(text::lines(a), text::lines(b));
}

/// The duration of a segment is what stands between its mark and the next comma,
/// or the end of the line. A line without the mark states none.
pub proof fn law_a_duration_ends_at_its_comma(line: Seq<char>, value: Seq<char>, title: Seq<char>)
    ensures
        !value.contains(',') && text::trim(line) == "#EXTINF:"@ + value ==> scraper::duration_fields(seq![line])
            == seq![value],
        !value.contains(',') && text::trim(line) == "#EXTINF:"@ + value + seq![','] + title
            ==> scraper::duration_fields(seq![line]) == seq![value],
        !text::starts_with(text::trim(line), "#EXTINF:"@) ==> scraper::duration_fields(seq![line]) == Seq::<
            Seq<char>,
        >::empty(),
{
    lemma_one_duration(line);
    let mark = "#EXTINF:"@;
    if !value.contains(',') && text::trim(line) == mark + value {
        text_laws::law_a_start_is_told_from_the_rest(mark, value);
        text::lemma_next_char(value, ',', 0);
        let k = text::next_char(value, ',', 0);
        assert(k == value.len()) by {
            if k < value.len() {
                assert(value.contains(value[k]));
            }
        }
        assert(value.take(k) =~= value);
    }
    if !value.contains(',') && text::trim(line) == mark + value + seq![','] + title {
        let rest = value + seq![','] + title;
        assert(mark + value + seq![','] + title =~= mark + rest);
        text_laws::law_a_start_is_told_from_the_rest(mark, rest);
        text::lemma_next_char(rest, ',', 0);
        let k = text::next_char(rest, ',', 0);
        assert(rest[value.len() as int] == ',');
        assert(k == value.len()) by {
            if k < value.len() {
                assert(value.contains(value[k]));
            }
        }
        assert(rest.take(k) =~= value);
    }
}

/// A segment whose duration was read adds one to the number of segments and its
/// duration to their length; one whose duration was not read adds nothing. A
/// playlist without segments has no length at all.
pub proof fn law_segments_add_up(durations: Seq<Option<u64>>, ms: u64)
    requires
        scraper::read_total(durations) + ms <= u64::MAX,
        durations.len() < u64::MAX,
    ensures
        scraper::hls_totals(Seq::<Option<u64>>::empty()) is None,
        scraper::hls_totals(durations.push(None)) == scraper::hls_totals(durations),
        scraper::hls_totals(durations.push(Some(ms))) == (match scraper::hls_totals(durations) {
            Some(info) => Some(
                HlsInfo {
                    total_segments: (info.total_segments + 1) as u64,
                    total_duration_ms: (info.total_duration_ms + ms) as u64,
                },
            ),
            None => Some(HlsInfo { total_segments: 1, total_duration_ms: ms }),
        }),
{
    assert(durations.push(None).drop_last() =~= durations);
    assert(durations.push(Some(ms)).drop_last() =~= durations);
    scraper::lemma_read_count(durations);
    if scraper::read_count(durations) == 0 {
        lemma_nothing_read(durations);
    }
}

proof fn lemma_nothing_read(durations: Seq<Option<u64>>)
    requires
        scraper::read_count(durations) == 0,
    ensures
        scraper::read_total(durations) == 0,
    decreases durations.len(),
{
    if durations.len() > 0 {
        lemma_nothing_read(durations.drop_last());
    }
}

/// A playlist lists renditions exactly when a line of it begins, once trimmed,
/// with their mark: of two texts of whole lines, one behind the other, when either
/// does.
pub proof fn law_a_list_of_renditions_is_told(a: Seq<char>, b: Seq<char>)
    requires
        a.len() == 0 || a.last() == '\n',
    ensures
        scraper::is_master(a + b) <==> scraper::is_master(a) || scraper::is_master(b),
        scraper::is_master(a) <==> marked_lines(text::lines(a), "#EXT-X-STREAM-INF:"@) > 0,
{
    let mark = "#EXT-X-STREAM-INF:"@;
    text_laws::law_lines_are_read_one_after_another(a, b);
    let all = text::lines(a) + text::lines(b);
    assert(forall|i: int| 0 <= i < text::lines(a).len() ==> all[i] == #[trigger] text::lines(a)[i]);
    assert forall|i: int| 0 <= i < text::lines(b).len() implies all[text::lines(a).len() + i]
        == #[trigger] text::lines(b)[i] by {}
    if scraper::is_master(a + b) {
        let i = choose|i: int|
            0 <= i < text::lines(a + b).len() && text::starts_with(text::trim(#[trigger] text::lines(a + b)[i]), mark);
        if i < text::lines(a).len() {
            assert(text::starts_with(text::trim(text::lines(a)[i]), mark));
        } else {
            assert(text::starts_with(text::trim(text::lines(b)[i - text::lines(a).len()]), mark));
        }
    }
    if scraper::is_master(a) {
        let i = choose|i: int|
            0 <= i < text::lines(a).len() && text::starts_with(text::trim(#[trigger] text::lines(a)[i]), mark);
        assert(text::starts_with(text::trim(text::lines(a + b)[i]), mark));
    }
    if scraper::is_master(b) {
        let i = choose|i: int|
            0 <= i < text::lines(b).len() && text::starts_with(text::trim(#[trigger] text::lines(b)[i]), mark);
        assert(text::starts_with(text::trim(text::lines(a + b)[text::lines(a).len() + i]), mark));
    }
    lemma_marked(text::lines(a), mark);
}

proof fn lemma_marked(ls: Seq<Seq<char>>, mark: Seq<char>)
    ensures
        marked_lines(ls, mark) > 0 <==> exists|i: int|
            0 <= i < ls.len() && text::starts_with(text::trim(#[trigger] ls[i]), mark),
    decreases ls.len(),
{
    if ls.len() > 0 {
        let rest = ls.skip(1);
        lemma_marked(rest, mark);
        if marked_lines(rest, mark) > 0 {
            let i = choose|i: int|
                0 <= i < rest.len() && text::starts_with(text::trim(#[trigger] rest[i]), mark);
            assert(text::starts_with(text::trim(ls[i + 1]), mark));
        }
        if exists|i: int| 0 <= i < ls.len() && text::starts_with(text::trim(#[trigger] ls[i]), mark) {
            let i = choose|i: int|
                0 <= i < ls.len() && text::starts_with(text::trim(#[trigger] ls[i]), mark);
            if i > 0 {
                assert(text::starts_with(text::trim(rest[i - 1]), mark));
            }
        }
    }
}

/// A problem is told in words: a challenge as one that a cookie may meet, and a
/// playlist that could not be fetched with the reason for it.
pub proof fn law_a_problem_is_told(reason: String)
    ensures
        PlaylistProblem::Unreachable(reason).text() == "the playlist could not be fetched: "@
            + reason@,
        PlaylistProblem::NoSegments.text() == "the playlist lists no segments"@,
        PlaylistProblem::NotAPlaylist.text()
            == "the URL answered with something that is not a playlist"@,
        text::starts_with(PlaylistProblem::Challenged.text(), "Cloudflare challenge"@),
{
    reveal_strlit("Cloudflare challenge");
    reveal_strlit(
        "Cloudflare challenge; provide a browser session cookie with --cookie or use a direct media URL",
    );
    let t = PlaylistProblem::Challenged.text();
    assert(t.subrange(0, 20) =~= "Cloudflare challenge"@);
}

} // verus!
