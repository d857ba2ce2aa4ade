//! What running FFmpeg amounts to, stated without the definitions of its
//! arguments, its reports and its states.

use vstd::prelude::*;
use crate::{ffmpeg, output, paths, text, text_laws};
use crate::ffmpeg::{
    ControlEvent, FfmpegInvocation, FfmpegProgress, FfmpegVersion, ProcessControl, ProgressReader,
    Reporting,
};

verus! {

// ---------------------------------------------------------------------------
// Arguments
// ---------------------------------------------------------------------------

/// A run that is told nothing but what to read and where to write is given the
/// input, a plain copy of its streams and the output, and reports to a person.
pub proof fn law_a_bare_run_copies_its_input(inv: FfmpegInvocation)
    requires
        inv.audio_input is None && inv.headers is None && inv.cookies is None,
        inv.reconnect is None && !inv.hls_lenient && inv.threads is None,
        inv.reporting is Cli,
    ensures
        inv.args() == seq![
            "-hide_banner"@,
            "-loglevel"@,
            "error"@,
            "-stats"@,
            "-i"@,
            inv.input@,
            "-c"@,
            "copy"@,
            if inv.overwrite {
                "-y"@
            } else {
                "-n"@
            },
            inv.output@,
        ],
{
    assert(inv.args() =~= seq![
        "-hide_banner"@,
        "-loglevel"@,
        "error"@,
        "-stats"@,
        "-i"@,
        inv.input@,
        "-c"@,
        "copy"@,
        if inv.overwrite {
            "-y"@
        } else {
            "-n"@
        },
        inv.output@,
    ]);
}

/// What a run writes to comes last, behind whether it may replace what is there;
/// what it is given of its input comes before, and the streams are copied.
pub proof fn law_the_output_comes_last(inv: FfmpegInvocation)
    ensures
        ({
            let args = inv.args();
            let n = args.len() as int;
            let t = if inv.threads is Some {
                2int
            } else {
                0
            };
            &&& n >= 10
            &&& args[n - 1] == inv.output@
            &&& args[n - 2] == if inv.overwrite {
                "-y"@
            } else {
                "-n"@
            }
            &&& args[n - 4 - t] == "-c"@ && args[n - 3 - t] == "copy"@
            &&& inv.threads matches Some(k) ==> args[n - 4] == "-threads"@ && args[n - 3]
                == text::decimal(k as nat)
        }),
{
    let a = ffmpeg::reporting_args(inv.reporting) + inv.input_args(inv.input@);
    let b = match inv.audio_input {
        Some(audio) => inv.input_args(audio@),
        None => Seq::empty(),
    };
    let c = ffmpeg::output_args(inv.audio_input is Some, inv.threads, inv.overwrite, inv.output@);
    assert(inv.args() =~= a + b + c);
    let n = inv.args().len() as int;
    let m = (a + b).len() as int;
    assert forall|k: int| m <= k < n implies inv.args()[k] == c[k - m] by {}
    assert(n - m == c.len());
}

/// A program that reads the reports is told so before anything else, with the
/// period that was asked for; a person is told of errors and statistics alone.
pub proof fn law_reports_are_asked_for_first(inv: FfmpegInvocation)
    ensures
        inv.reporting is Cli ==> inv.args().take(4) == seq![
            "-hide_banner"@,
            "-loglevel"@,
            "error"@,
            "-stats"@,
        ],
        inv.reporting matches Reporting::Controlled { stats_period } ==> inv.args().take(8) == seq![
            "-hide_banner"@,
            "-loglevel"@,
            "info"@,
            "-nostats"@,
            "-stats_period"@,
            stats_period@,
            "-progress"@,
            "pipe:1"@,
        ],
{
    law_the_output_comes_last(inv);
    if inv.reporting is Cli {
        assert(inv.args().take(4) =~= seq!["-hide_banner"@, "-loglevel"@, "error"@, "-stats"@]);
    }
    if let Reporting::Controlled { stats_period } = inv.reporting {
        assert(inv.args().take(8) =~= seq![
            "-hide_banner"@,
            "-loglevel"@,
            "info"@,
            "-nostats"@,
            "-stats_period"@,
            stats_period@,
            "-progress"@,
            "pipe:1"@,
        ]);
    }
}

/// An input comes behind all that is said of it. Headers and cookies are each
/// given as they are, right behind the name of their option, and add nothing else;
/// without them nothing is said.
pub proof fn law_an_input_is_given_what_belongs_to_it(inv: FfmpegInvocation, input: Seq<char>)
    ensures
        ({
            let bare = (FfmpegInvocation { headers: None, cookies: None, ..inv }).input_args(input);
            let args = inv.input_args(input);
            let own = bare.take(bare.len() - 2);
            &&& bare.len() >= 2
            &&& bare == own + seq!["-i"@, input]
            &&& inv.headers is None && inv.cookies is None ==> args == bare
            &&& inv.headers is Some && inv.cookies is None ==> args == own + seq![
                "-headers"@,
                inv.headers->0@,
                "-i"@,
                input,
            ]
            &&& inv.headers is None && inv.cookies is Some ==> args == own + seq![
                "-cookies"@,
                inv.cookies->0@,
                "-i"@,
                input,
            ]
            &&& inv.headers is Some && inv.cookies is Some ==> args == own + seq![
                "-headers"@,
                inv.headers->0@,
                "-cookies"@,
                inv.cookies->0@,
                "-i"@,
                input,
            ]
        }),
{
    let bare = (FfmpegInvocation { headers: None, cookies: None, ..inv }).input_args(input);
    let args = inv.input_args(input);
    let own = bare.take(bare.len() - 2);
    assert(own =~= ffmpeg::reconnect_args(inv.reconnect, input) + ffmpeg::lenient_args(inv.hls_lenient));
    assert(bare =~= own + seq!["-i"@, input]);
    if inv.headers is Some && inv.cookies is Some {
        assert(args =~= own + seq![
            "-headers"@,
            inv.headers->0@,
            "-cookies"@,
            inv.cookies->0@,
            "-i"@,
            input,
        ]);
    } else if inv.headers is Some {
        assert(args =~= own + seq!["-headers"@, inv.headers->0@, "-i"@, input]);
    } else if inv.cookies is Some {
        assert(args =~= own + seq!["-cookies"@, inv.cookies->0@, "-i"@, input]);
    } else {
        assert(args =~= bare);
    }
}

/// FFmpeg is told to connect again exactly where that is asked for and the input
/// is fetched over HTTP, and to accept segments of any name exactly where that is
/// asked for.
pub proof fn law_connecting_again_is_for_http(inv: FfmpegInvocation, input: Seq<char>)
    requires
        inv.headers is None && inv.cookies is None,
    ensures
        ({
            let args = inv.input_args(input);
            let again = inv.reconnect is Some && ffmpeg::http_input(input);
            &&& !again && !inv.hls_lenient ==> args == seq!["-i"@, input]
            &&& !again && inv.hls_lenient ==> args == seq![
                "-allowed_segment_extensions"@,
                "ALL"@,
                "-extension_picky"@,
                "0"@,
                "-i"@,
                input,
            ]
            &&& again && !inv.hls_lenient ==> args == seq![
                "-reconnect"@,
                "1"@,
                "-reconnect_streamed"@,
                "1"@,
                "-reconnect_on_network_error"@,
                "1"@,
                "-reconnect_on_http_error"@,
                "5xx,408,429"@,
                "-reconnect_delay_max"@,
                text::decimal(inv.reconnect->0.delay_max as nat),
                "-i"@,
                input,
            ]
            &&& again && inv.hls_lenient ==> args.len() == 16 && args.skip(10) == seq![
                "-allowed_segment_extensions"@,
                "ALL"@,
                "-extension_picky"@,
                "0"@,
                "-i"@,
                input,
            ] && args.take(10) == (FfmpegInvocation { hls_lenient: false, ..inv }).input_args(
                input,
            ).take(10)
        }),
{
    let args = inv.input_args(input);
    let again = inv.reconnect is Some && ffmpeg::http_input(input);
    if again {
        if inv.hls_lenient {
            let plain = (FfmpegInvocation { hls_lenient: false, ..inv }).input_args(input);
            assert(args.skip(10) =~= seq![
                "-allowed_segment_extensions"@,
                "ALL"@,
                "-extension_picky"@,
                "0"@,
                "-i"@,
                input,
            ]);
            assert(args.take(10) =~= plain.take(10));
        } else {
            assert(args =~= seq![
                "-reconnect"@,
                "1"@,
                "-reconnect_streamed"@,
                "1"@,
                "-reconnect_on_network_error"@,
                "1"@,
                "-reconnect_on_http_error"@,
                "5xx,408,429"@,
                "-reconnect_delay_max"@,
                text::decimal(inv.reconnect->0.delay_max as nat),
                "-i"@,
                input,
            ]);
        }
    } else if inv.hls_lenient {
        assert(args =~= seq![
            "-allowed_segment_extensions"@,
            "ALL"@,
            "-extension_picky"@,
            "0"@,
            "-i"@,
            input,
        ]);
    } else {
        assert(args =~= seq!["-i"@, input]);
    }
}

/// A run with a second input is given all that one without it is given, then the
/// second input with what belongs to it, then that the picture is taken from the
/// first and the sound from the second, and then the rest.
pub proof fn law_a_second_input_brings_the_sound(inv: FfmpegInvocation)
    requires
        inv.audio_input is Some,
    ensures
        ({
            let one = FfmpegInvocation { audio_input: None, ..inv };
            let rest = if inv.threads is Some {
                6int
            } else {
                4
            };
            let k = one.args().len() - rest;
            &&& inv.args() == one.args().take(k) + inv.input_args((inv.audio_input->0)@) + seq![
                "-map"@,
                "0:v:0"@,
                "-map"@,
                "1:a:0"@,
            ] + one.args().skip(k)
        }),
{
    let one = FfmpegInvocation { audio_input: None, ..inv };
    let a = ffmpeg::reporting_args(inv.reporting) + inv.input_args(inv.input@);
    let tail = ffmpeg::output_args(false, inv.threads, inv.overwrite, inv.output@);
    let rest = if inv.threads is Some {
        6int
    } else {
        4
    };
    assert(one.input_args(inv.input@) =~= inv.input_args(inv.input@));
    assert(one.args() =~= a + tail);
    assert(tail.len() == rest);
    let k = one.args().len() - rest;
    assert(one.args().take(k) =~= a);
    assert(one.args().skip(k) =~= tail);
    let second = inv.input_args((inv.audio_input->0)@);
    let map = seq!["-map"@, "0:v:0"@, "-map"@, "1:a:0"@];
    assert(ffmpeg::output_args(true, inv.threads, inv.overwrite, inv.output@) =~= map + tail);
    assert(inv.args() =~= a + second + map + tail);
}

/// An input is fetched over HTTP exactly when it begins, behind white space and in
/// any case, with one of the two schemes.
pub proof fn law_the_scheme_decides_on_http(input: Seq<char>, scheme: Seq<char>, rest: Seq<char>)
    requires
        text::trim_start(input) == scheme + rest,
    ensures
        ffmpeg::http_input(input) <==> ({
            let t = text::trim_start(input);
            ||| t.len() >= 7 && text::eq_fold(t.take(7), "http://"@)
            ||| t.len() >= 8 && text::eq_fold(t.take(8), "https://"@)
        }),
        text::eq_fold(scheme, "http://"@) || text::eq_fold(scheme, "https://"@) ==> ffmpeg::http_input(input),
        scheme.len() >= 8 && !text::eq_fold(scheme.take(7), "http://"@) && !text::eq_fold(
            scheme.take(8),
            "https://"@,
        ) ==> !ffmpeg::http_input(input),
        text::trim_start(input).len() < 7 ==> !ffmpeg::http_input(input),
{
    reveal_strlit("http://");
    reveal_strlit("https://");
    let h = "http://"@;
    let s = "https://"@;
    let t = text::trim_start(input);
    assert(text::lower(h) =~= h);
    assert(text::lower(s) =~= s);
    assert(text::lower(t) =~= text::lower(scheme) + text::lower(rest));
    if t.len() >= 7 {
        assert(text::lower(t).subrange(0, 7) =~= text::lower(t.take(7)));
    }
    if t.len() >= 8 {
        assert(text::lower(t).subrange(0, 8) =~= text::lower(t.take(8)));
    }
    if text::eq_fold(scheme, h) {
        assert(text::lower(t).subrange(0, 7) =~= h);
    }
    if text::eq_fold(scheme, s) {
        assert(text::lower(t).subrange(0, 8) =~= s);
    }
    if scheme.len() >= 8 {
        assert(text::lower(t).subrange(0, 7) =~= text::lower(scheme.take(7)));
        assert(text::lower(t).subrange(0, 8) =~= text::lower(scheme.take(8)));
    }
}

// ---------------------------------------------------------------------------
// What a log says in place of secrets
// ---------------------------------------------------------------------------

proof fn lemma_filled_add(a: Seq<Seq<char>>, b: Seq<Seq<char>>)
    ensures
        ffmpeg::filled_lines(a + b) == ffmpeg::filled_lines(a) + ffmpeg::filled_lines(b),
    decreases b.len(),
{
    if b.len() == 0 {
        assert(a + b =~= a);
    } else {
        assert((a + b).drop_last() =~= a + b.drop_last());
        lemma_filled_add(a, b.drop_last());
    }
}

proof fn lemma_names_add(a: Seq<Seq<char>>, b: Seq<Seq<char>>)
    ensures
        ffmpeg::header_names(a + b) == ffmpeg::header_names(a) + ffmpeg::header_names(b),
    decreases b.len(),
{
    if b.len() == 0 {
        assert(a + b =~= a);
        assert(ffmpeg::header_names(a) + ffmpeg::header_names(b) =~= ffmpeg::header_names(a));
    } else {
        assert((a + b).drop_last() =~= a + b.drop_last());
        lemma_names_add(a, b.drop_last());
        assert(ffmpeg::header_names(a + b) =~= ffmpeg::header_names(a) + ffmpeg::header_names(b));
    }
}

/// There are as many cookies as lines that hold more than white space: those of
/// two texts of whole lines add up, and one such line is one cookie.
pub proof fn law_cookies_are_counted_by_line(a: Seq<char>, b: Seq<char>, line: Seq<char>)
    requires
        a.len() == 0 || a.last() == '\n',
        !line.contains('\n'),
    ensures
        ffmpeg::cookie_count(Some(a + b)) == ffmpeg::cookie_count(Some(a)) + ffmpeg::cookie_count(Some(b)),
        ffmpeg::cookie_count(Some(line)) == if text::trim(line).len() > 0 {
            1nat
        } else {
            0
        },
        ffmpeg::cookie_count(None) == 0,
        ffmpeg::cookie_count(Some(a)) != 1 ==> ffmpeg::cookie_summary(Some(a)) == "<"@ + text::decimal(
            ffmpeg::cookie_count(Some(a)),
        ) + " cookies>"@,
        ffmpeg::cookie_count(Some(a)) == 1 ==> ffmpeg::cookie_summary(Some(a)) == "<1 cookie>"@,
{
    text_laws::law_lines_are_read_one_after_another(a, b);
    lemma_filled_add(text::lines(a), text::lines(b));
    text_laws::law_a_line_ends_at_its_feed(line);
    let one = seq![line];
    assert(one.drop_last() =~= Seq::<Seq<char>>::empty());
    assert(ffmpeg::filled_lines(one.drop_last()) == 0);
    if line.len() == 0 {
        assert(ffmpeg::filled_lines(Seq::<Seq<char>>::empty()) == 0);
        assert(text::trim(line).len() == 0);
    }
}

/// A header is named by what stands before its first colon, without white space
/// around it; the value is not shown, and the names of two texts of whole lines
/// are those of the one and then those of the other.
pub proof fn law_headers_are_named_by_line(
    a: Seq<char>,
    b: Seq<char>,
    name: Seq<char>,
    value: Seq<char>,
)
    requires
        a.len() == 0 || a.last() == '\n',
        !name.contains('\n') && !name.contains(':'),
        !value.contains('\n'),
    ensures
        ffmpeg::names_of(Some(a + b)) == ffmpeg::names_of(Some(a)) + ffmpeg::names_of(Some(b)),
        text::trim(name).len() > 0 ==> ffmpeg::names_of(Some(name + seq![':'] + value)) == seq![text::trim(name)],
        text::trim(name).len() == 0 ==> ffmpeg::names_of(Some(name + seq![':'] + value)) == Seq::<
            Seq<char>,
        >::empty(),
        ffmpeg::names_of(Some(a)).len() == 0 ==> ffmpeg::header_summary(Some(a)) == "<no headers>"@,
        ffmpeg::names_of(Some(a)).len() > 0 ==> ffmpeg::header_summary(Some(a)) == "<"@ + text::join(
            ffmpeg::names_of(Some(a)),
            ","@,
        ) + ">"@,
{
    text_laws::law_lines_are_read_one_after_another(a, b);
    lemma_names_add(text::lines(a), text::lines(b));
    let line = name + seq![':'] + value;
    assert(!line.contains('\n')) by {
        if line.contains('\n') {
            let k = choose|k: int| 0 <= k < line.len() && line[k] == '\n';
            if k < name.len() {
                assert(name[k] == '\n');
            } else if k > name.len() {
                assert(value[k - name.len() - 1] == '\n');
            }
        }
    }
    text_laws::law_a_line_ends_at_its_feed(line);
    assert(line.len() > 0);
    text::lemma_next_char(line, ':', 0);
    let k = text::next_char(line, ':', 0);
    assert(line[name.len() as int] == ':');
    assert(k == name.len()) by {
        if k < name.len() {
            assert(name.contains(name[k]));
        }
    }
    assert(line.take(k) =~= name);
    let one = seq![line];
    assert(one.drop_last() =~= Seq::<Seq<char>>::empty());
    assert(ffmpeg::header_names(one.drop_last()) =~= Seq::<Seq<char>>::empty());
    if text::trim(name).len() > 0 {
        assert(ffmpeg::header_names(one) =~= seq![text::trim(name)]);
    }
}

// ---------------------------------------------------------------------------
// Versions
// ---------------------------------------------------------------------------

/// Version 7.1 is the oldest that is supported, and any that is newer is too,
/// whatever its patch is.
pub proof fn law_a_newer_version_is_supported(v: FfmpegVersion, w: FfmpegVersion)
    ensures
        v.major < 7 || (v.major == 7 && v.minor < 1) <==> !v.is_supported(),
        v.is_supported() && (w.major > v.major || (w.major == v.major && w.minor >= v.minor))
            ==> w.is_supported(),
        ffmpeg::minimum_version().major == 7 && ffmpeg::minimum_version().minor == 1,
{
}

proof fn lemma_number_stops(s: Seq<char>, n: int, i: int)
    requires
        0 <= i <= n <= s.len(),
        forall|k: int| 0 <= k < n ==> '0' <= #[trigger] s[k] <= '9' || s[k] == '.',
        n < s.len() ==> !('0' <= s[n] <= '9') && s[n] != '.',
    ensures
        ffmpeg::number_end(s, i) == n,
    decreases n - i,
{
    if i < n {
        assert('0' <= s[i] <= '9' || s[i] == '.');
        lemma_number_stops(s, n, i + 1);
    }
}

proof fn lemma_part(n: u32)
    ensures
        text::decimal(n as nat).len() > 0,
        forall|k: int|
            0 <= k < text::decimal(n as nat).len() ==> '0' <= #[trigger] text::decimal(n as nat)[k] <= '9',
        !text::decimal(n as nat).contains('.'),
        text::small_number(text::decimal(n as nat)) == Some(n),
{
    let d = text::decimal(n as nat);
    output::lemma_decimal_value(n as nat);
    assert forall|k: int| 0 <= k < d.len() implies '0' <= #[trigger] d[k] <= '9' by {
        assert(text::is_digit(d[k]));
    }
    text_laws::law_a_number_is_read_back(n as nat, u32::MAX as nat);
}

proof fn lemma_nonempty_all(v: Seq<Seq<char>>)
    requires
        forall|k: int| 0 <= k < v.len() ==> (#[trigger] v[k]).len() > 0,
    ensures
        ffmpeg::nonempty(v) == v,
    decreases v.len(),
{
    if v.len() > 0 {
        let r = v.drop_last();
        assert forall|k: int| 0 <= k < r.len() implies (#[trigger] r[k]).len() > 0 by {
            assert(r[k] == v[k]);
        }
        lemma_nonempty_all(r);
        assert(v[v.len() - 1].len() > 0);
        assert(r.push(v.last()) =~= v);
    } else {
        assert(ffmpeg::nonempty(v) =~= v);
    }
}

proof fn lemma_version_text(v: FfmpegVersion)
    ensures
        v.text().len() > 0 && '0' <= v.text()[0] <= '9',
        forall|k: int| 0 <= k < v.text().len() ==> '0' <= #[trigger] v.text()[k] <= '9' || v.text()[k]
            == '.',
        ffmpeg::nonempty(text::split(v.text(), '.')) == (match v.patch {
            Some(patch) => seq![
                text::decimal(v.major as nat),
                text::decimal(v.minor as nat),
                text::decimal(patch as nat),
            ],
            None => seq![text::decimal(v.major as nat), text::decimal(v.minor as nat)],
        }),
{
    reveal_strlit(".");
    assert("."@ =~= seq!['.']);
    let t = v.text();
    let major = text::decimal(v.major as nat);
    let minor = text::decimal(v.minor as nat);
    lemma_part(v.major);
    lemma_part(v.minor);
    let head = major + seq!['.'] + minor;
    text_laws::law_splitting_at_a_separator(major, minor, '.');
    text_laws::law_splitting_at_a_separator(minor, minor, '.');
    let two = seq![major] + seq![minor];
    assert(text::split(head, '.') == two);
    assert(t[0] == major[0]);
    assert forall|k: int| 0 <= k < head.len() implies '0' <= #[trigger] head[k] <= '9' || head[k]
        == '.' by {
        if k < major.len() {
            assert(head[k] == major[k]);
        } else if k > major.len() {
            assert(head[k] == minor[k - major.len() - 1]);
        }
    }
    if let Some(patch) = v.patch {
        let last = text::decimal(patch as nat);
        lemma_part(patch);
        text_laws::law_splitting_at_a_separator(head, last, '.');
        text_laws::law_splitting_at_a_separator(last, last, '.');
        assert(t =~= head + seq!['.'] + last);
        let three = two + seq![last];
        assert(three =~= seq![major, minor, last]);
        lemma_nonempty_all(three);
        assert forall|k: int| 0 <= k < t.len() implies '0' <= #[trigger] t[k] <= '9' || t[k]
            == '.' by {
            if k < head.len() {
                assert(t[k] == head[k]);
            } else if k > head.len() {
                assert(t[k] == last[k - head.len() - 1]);
            }
        }
    } else {
        assert(t =~= head);
        assert(two =~= seq![major, minor]);
        lemma_nonempty_all(two);
    }
}

proof fn lemma_version_word(ws: Seq<Seq<char>>, n: int, i: int)
    requires
        0 <= i <= n,
        n + 1 < ws.len(),
        ws[n] == "version"@,
        forall|k: int| 0 <= k < n ==> #[trigger] ws[k] != "version"@,
    ensures
        ffmpeg::version_word(ws, i) == Some(ws[n + 1]),
    decreases n - i,
{
    if i < n {
        assert(ws[i] != "version"@);
        lemma_version_word(ws, n, i + 1);
    }
}

/// A version is read in the word behind the first word for it, wherever that
/// stands: with or without the letter of a build before it, and with anything that
/// is no number behind it. A number alone is a version without a minor one.
pub proof fn law_a_version_is_read_in_its_word(
    line: Seq<char>,
    before: Seq<Seq<char>>,
    v: FfmpegVersion,
    letter: bool,
    suffix: Seq<char>,
    after: Seq<Seq<char>>,
)
    requires
        forall|k: int| 0 <= k < before.len() ==> #[trigger] before[k] != "version"@,
        suffix.len() == 0 || (!('0' <= suffix[0] <= '9') && suffix[0] != '.'),
    ensures
        ({
            let start = if letter {
                seq!['n']
            } else {
                Seq::empty()
            };
            &&& text::words(line) == before + seq!["version"@, start + v.text() + suffix] + after
                ==> ffmpeg::version_in(line) == Some(v)
            &&& text::words(line) == before + seq![
                "version"@,
                start + text::decimal(v.major as nat) + suffix,
            ] + after ==> ffmpeg::version_in(line) == Some(
                FfmpegVersion { major: v.major, minor: 0, patch: None },
            )
        }),
{
    let start = if letter {
        seq!['n']
    } else {
        Seq::empty()
    };
    lemma_version_text(v);
    lemma_part(v.major);
    lemma_part(v.minor);
    if let Some(patch) = v.patch {
        lemma_part(patch);
    }
    if text::words(line) == before + seq!["version"@, start + v.text() + suffix] + after {
        lemma_token(line, before, v.text(), letter, suffix, after);
    }
    let d = text::decimal(v.major as nat);
    if text::words(line) == before + seq!["version"@, start + d + suffix] + after {
        lemma_token(line, before, d, letter, suffix, after);
        text_laws::law_splitting_at_a_separator(d, d, '.');
        lemma_nonempty_all(seq![d]);
    }
}

proof fn lemma_token(
    line: Seq<char>,
    before: Seq<Seq<char>>,
    number: Seq<char>,
    letter: bool,
    suffix: Seq<char>,
    after: Seq<Seq<char>>,
)
    requires
        forall|k: int| 0 <= k < before.len() ==> #[trigger] before[k] != "version"@,
        suffix.len() == 0 || (!('0' <= suffix[0] <= '9') && suffix[0] != '.'),
        number.len() > 0 && '0' <= number[0] <= '9',
        forall|k: int| 0 <= k < number.len() ==> '0' <= #[trigger] number[k] <= '9' || number[k] == '.',
        text::words(line) == before + seq![
            "version"@,
            (if letter {
                seq!['n']
            } else {
                Seq::empty()
            }) + number + suffix,
        ] + after,
    ensures
        ({
            let word = ffmpeg::version_word(text::words(line), 0);
            &&& word is Some
            &&& ffmpeg::without_build_letter(word->0).take(ffmpeg::number_end(ffmpeg::without_build_letter(word->0), 0))
                == number
        }),
{
    let start = if letter {
        seq!['n']
    } else {
        Seq::empty()
    };
    let word = start + number + suffix;
    let ws = text::words(line);
    let n = before.len() as int;
    assert(ws[n] == "version"@ && ws[n + 1] == word);
    assert forall|k: int| 0 <= k < n implies #[trigger] ws[k] != "version"@ by {
        assert(ws[k] == before[k]);
    }
    lemma_version_word(ws, n, 0);
    let token = number + suffix;
    if letter {
        assert(word[0] == 'n' && word[1] == number[0]);
        assert(word.skip(1) =~= token);
    } else {
        assert(word =~= token);
        assert(word[0] == number[0]);
    }
    let m = number.len() as int;
    assert forall|k: int| 0 <= k < m implies '0' <= #[trigger] token[k] <= '9' || token[k] == '.' by {
        assert(token[k] == number[k]);
    }
    if m < token.len() {
        assert(token[m] == suffix[0]);
    }
    lemma_number_stops(token, m, 0);
    assert(token.take(m) =~= number);
}

/// The numbers of a version stand between dots, and what holds nothing between two
/// dots is no number. The first has to fit; a second that does not fit, or is not
/// there, is nothing, and a third is then not known.
pub proof fn law_a_version_is_its_numbers(
    line: Seq<char>,
    before: Seq<Seq<char>>,
    number: Seq<char>,
    letter: bool,
    suffix: Seq<char>,
    after: Seq<Seq<char>>,
)
    requires
        forall|k: int| 0 <= k < before.len() ==> #[trigger] before[k] != "version"@,
        suffix.len() == 0 || (!('0' <= suffix[0] <= '9') && suffix[0] != '.'),
        number.len() > 0 && '0' <= number[0] <= '9',
        forall|k: int|
            0 <= k < number.len() ==> '0' <= #[trigger] number[k] <= '9' || number[k] == '.',
        text::words(line) == before + seq![
            "version"@,
            (if letter {
                seq!['n']
            } else {
                Seq::empty()
            }) + number + suffix,
        ] + after,
    ensures
        ({
            let parts = ffmpeg::nonempty(text::split(number, '.'));
            match ffmpeg::version_in(line) {
                Some(v) => {
                    &&& parts.len() > 0 && text::small_number(parts[0]) == Some(v.major)
                    &&& parts.len() > 1 && text::small_number(parts[1]) is Some ==> text::small_number(
                        parts[1],
                    ) == Some(v.minor)
                    &&& parts.len() <= 1 || text::small_number(parts[1]) is None ==> v.minor == 0
                    &&& parts.len() > 2 ==> v.patch == text::small_number(parts[2])
                    &&& parts.len() <= 2 ==> v.patch is None
                },
                None => parts.len() == 0 || text::small_number(parts[0]) is None,
            }
        }),
{
    lemma_token(line, before, number, letter, suffix, after);
}

/// Of some pieces, those that hold anything are numbers, in their order.
pub proof fn law_an_empty_piece_is_no_number(
    a: Seq<Seq<char>>,
    b: Seq<Seq<char>>,
    piece: Seq<char>,
)
    ensures
        ffmpeg::nonempty(a + b) == ffmpeg::nonempty(a) + ffmpeg::nonempty(b),
        ffmpeg::nonempty(seq![piece]) == (if piece.len() > 0 {
            seq![piece]
        } else {
            Seq::empty()
        }),
    decreases b.len(),
{
    if b.len() == 0 {
        assert(a + b =~= a);
        assert(ffmpeg::nonempty(a) + ffmpeg::nonempty(b) =~= ffmpeg::nonempty(a));
    } else {
        assert((a + b).drop_last() =~= a + b.drop_last());
        law_an_empty_piece_is_no_number(a, b.drop_last(), piece);
        assert(ffmpeg::nonempty(a + b) =~= ffmpeg::nonempty(a) + ffmpeg::nonempty(b));
    }
    let one = seq![piece];
    assert(one.drop_last() =~= Seq::<Seq<char>>::empty());
    assert(ffmpeg::nonempty(Seq::<Seq<char>>::empty()) =~= Seq::<Seq<char>>::empty());
    if piece.len() > 0 {
        assert(ffmpeg::nonempty(one) =~= one);
    }
}

/// A word that begins with neither a number nor the letter of a build before one is
/// no version, and neither is a line without the word for it.
pub proof fn law_what_is_no_number_is_no_version(
    line: Seq<char>,
    before: Seq<Seq<char>>,
    word: Seq<char>,
    after: Seq<Seq<char>>,
)
    requires
        forall|k: int| 0 <= k < before.len() ==> #[trigger] before[k] != "version"@,
        word.len() > 0 && !('0' <= word[0] <= '9') && word[0] != '.',
        word.len() >= 2 ==> !(word[0] == 'n' && '0' <= word[1] <= '9'),
    ensures
        text::words(line) == before + seq!["version"@, word] + after ==> ffmpeg::version_in(line) is None,
        text::words(line) == before ==> ffmpeg::version_in(line) is None,
{
    if text::words(line) == before + seq!["version"@, word] + after {
        let ws = text::words(line);
        let n = before.len() as int;
        assert(ws[n] == "version"@ && ws[n + 1] == word);
        assert forall|k: int| 0 <= k < n implies #[trigger] ws[k] != "version"@ by {
            assert(ws[k] == before[k]);
        }
        lemma_version_word(ws, n, 0);
        assert(ffmpeg::without_build_letter(word) == word);
        assert(ffmpeg::number_end(word, 0) == 0);
        let none = Seq::<char>::empty();
        assert(word.take(0) =~= none);
        text_laws::law_splitting_at_a_separator(none, none, '.');
        let blank = seq![none];
        assert(blank.drop_last() =~= Seq::<Seq<char>>::empty());
        assert(ffmpeg::nonempty(Seq::<Seq<char>>::empty()) =~= Seq::<Seq<char>>::empty());
        assert(ffmpeg::nonempty(blank) =~= Seq::<Seq<char>>::empty());
    }
    if text::words(line) == before {
        lemma_no_version_word(before, 0);
    }
}

proof fn lemma_no_version_word(ws: Seq<Seq<char>>, i: int)
    requires
        0 <= i,
        forall|k: int| 0 <= k < ws.len() ==> #[trigger] ws[k] != "version"@,
    ensures
        ffmpeg::version_word(ws, i) is None,
    decreases ws.len() - i,
{
    if i + 1 < ws.len() {
        assert(ws[i] != "version"@);
        lemma_no_version_word(ws, i + 1);
    }
}

// ---------------------------------------------------------------------------
// Progress
// ---------------------------------------------------------------------------

/// FFmpeg states the time in microseconds under either of two names; it is known
/// in milliseconds, rounded down. What is no number is no time, and a line of
/// another name says nothing of the time.
pub proof fn law_a_time_is_read_in_milliseconds(n: nat, value: Seq<char>, reader: ProgressReader)
    ensures
        n <= u64::MAX ==> reader.after("out_time_us="@ + text::decimal(n)).out_time_ms == Some(
            (n / 1000) as u64,
        ),
        n <= u64::MAX ==> reader.after("out_time_ms="@ + text::decimal(n)).out_time_ms == Some(
            (n / 1000) as u64,
        ),
        text::parse_unsigned(text::trim(value), u64::MAX as nat) is None ==> reader.after(
            "out_time_us="@ + value,
        ).out_time_ms is None && reader.after("out_time_ms="@ + value).out_time_ms is None,
        text::parse_unsigned(text::trim(value), u64::MAX as nat) == Some(n) ==> reader.after(
            "out_time_us="@ + value,
        ).out_time_ms == Some((n / 1000) as u64) && reader.after(
            "out_time_ms="@ + value,
        ).out_time_ms == Some((n / 1000) as u64),
        !text::starts_with(value, "out_time_us="@) && !text::starts_with(value, "out_time_ms="@)
            ==> reader.after(value) == reader,
        reader.report("out_time_us="@ + value) is None,
        reader.report("out_time_ms="@ + value) is None,
{
    let us = "out_time_us="@;
    let ms = "out_time_ms="@;
    reveal_strlit("out_time_us=");
    reveal_strlit("out_time_ms=");
    let d = text::decimal(n);
    output::lemma_decimal_value(n);
    text_laws::law_a_number_is_read_back(n, u64::MAX as nat);
    assert(text::is_digit(d[0]) && text::is_digit(d[d.len() - 1]));
    let none = Seq::<char>::empty();
    text_laws::law_trimming_gives_the_text_back(none, d, none);
    assert(none + d + none =~= d);
    text_laws::law_a_start_is_told_from_the_rest(us, d);
    text_laws::law_a_start_is_told_from_the_rest(ms, d);
    text_laws::law_a_start_is_told_from_the_rest(us, value);
    text_laws::law_a_start_is_told_from_the_rest(ms, value);
    assert(us[9] == 'u' && ms[9] == 'm');
    assert(!text::starts_with(ms + d, us)) by {
        assert((ms + d).subrange(0, 12)[9] == 'm');
    }
    assert(!text::starts_with(ms + value, us)) by {
        assert((ms + value).subrange(0, 12)[9] == 'm');
    }
}

/// A report ends with a line that says whether more is to come. It carries the
/// time that was stated last; no other line ends one, nor changes the time.
pub proof fn law_a_report_carries_the_last_time(reader: ProgressReader, line: Seq<char>)
    requires
        !text::starts_with(line, "out_time_us="@) && !text::starts_with(line, "out_time_ms="@),
    ensures
        reader.after(line) == reader,
        text::trim(line) == "progress=continue"@ ==> reader.report(line) == Some(
            FfmpegProgress { out_time_ms: reader.out_time_ms, finished: false },
        ),
        text::trim(line) == "progress=end"@ ==> reader.report(line) == Some(
            FfmpegProgress { out_time_ms: reader.out_time_ms, finished: true },
        ),
        text::trim(line) != "progress=continue"@ && text::trim(line) != "progress=end"@ ==> reader.report(line)
            is None,
{
    reveal_strlit("progress=continue");
    reveal_strlit("progress=end");
    assert("progress=continue"@.len() == 17 && "progress=end"@.len() == 12);
}

proof fn lemma_no_end(s: Seq<char>, start: int, i: int)
    requires
        0 <= start <= i <= s.len(),
        forall|k: int| i <= k < s.len() ==> #[trigger] s[k] != '\n' && s[k] != '\r',
    ensures
        ffmpeg::ended_from(s, start, i) == Seq::<Seq<char>>::empty(),
        ffmpeg::unended_from(s, start, i) == start,
    decreases s.len() - i,
{
    if i < s.len() {
        lemma_no_end(s, start, i + 1);
    }
}

proof fn lemma_line_ends(s: Seq<char>, i: int)
    requires
        0 <= i < s.len(),
        s.last() == '\n' || s.last() == '\r',
        forall|k: int| 0 <= k < s.len() - 1 ==> #[trigger] s[k] != '\n' && s[k] != '\r',
    ensures
        ffmpeg::ended_from(s, 0, i) == ffmpeg::log_line(s.drop_last()),
        ffmpeg::unended_from(s, 0, i) == s.len(),
    decreases s.len() - i,
{
    if i < s.len() - 1 {
        lemma_line_ends(s, i + 1);
    } else {
        assert(s.subrange(0, i) =~= s.drop_last());
        assert(ffmpeg::ended_from(s, i + 1, i + 1) =~= Seq::<Seq<char>>::empty());
        assert(ffmpeg::unended_from(s, i + 1, i + 1) == i + 1);
        assert(ffmpeg::log_line(s.drop_last()) + Seq::<Seq<char>>::empty() =~= ffmpeg::log_line(s.drop_last()));
    }
}

/// A line of output ends at a line feed or a carriage return and is then logged
/// without the white space around it; a blank one is not logged, and one that has
/// not ended waits.
pub proof fn law_a_line_is_logged_when_it_ends(line: Seq<char>, end: char)
    requires
        forall|k: int| 0 <= k < line.len() ==> #[trigger] line[k] != '\n' && line[k] != '\r',
        end == '\n' || end == '\r',
    ensures
        text::trim(line).len() > 0 ==> ffmpeg::ended_lines(line.push(end)) == seq![text::trim(line)],
        text::trim(line).len() == 0 ==> ffmpeg::ended_lines(line.push(end)) == Seq::<Seq<char>>::empty(),
        ffmpeg::unended_line(line.push(end)) == Seq::<char>::empty(),
        ffmpeg::ended_lines(line) == Seq::<Seq<char>>::empty(),
        ffmpeg::unended_line(line) == line,
{
    let s = line.push(end);
    lemma_line_ends(s, 0);
    assert(s.drop_last() =~= line);
    lemma_no_end(line, 0, 0);
    assert(line.skip(0) =~= line);
    assert(s.skip(s.len() as int) =~= Seq::empty());
}

// ---------------------------------------------------------------------------
// The process
// ---------------------------------------------------------------------------

/// Each event changes what it is about and leaves the rest alone: a process
/// comes and goes, a run is cancelled for good, and only one that is not
/// cancelled is paused and let go on.
pub proof fn law_an_event_changes_what_it_is_about(c: ProcessControl)
    ensures
        ({
            let r = c.after(ControlEvent::Attach);
            r.running && r == (ProcessControl { running: r.running, ..c })
        }),
        ({
            let r = c.after(ControlEvent::Detach);
            !r.running && r == (ProcessControl { running: r.running, ..c })
        }),
        ({
            let r = c.after(ControlEvent::Cancel);
            r.cancelled && r == (ProcessControl { cancelled: r.cancelled, ..c })
        }),
        ({
            let r = c.after(ControlEvent::Shutdown);
            r.cancelled && r.for_shutdown && r == (ProcessControl {
                cancelled: r.cancelled,
                for_shutdown: r.for_shutdown,
                ..c
            })
        }),
        ({
            let r = c.after(ControlEvent::Pause);
            c.cancelled && r == c || !c.cancelled && r.paused && r == (ProcessControl {
                paused: r.paused,
                ..c
            })
        }),
        ({
            let r = c.after(ControlEvent::Resume);
            c.cancelled && r == c || !c.cancelled && !r.paused && (r.pending <==> c.pending
                || c.running) && r.resume_out_time_ms == c.out_time_ms && r == (ProcessControl {
                paused: r.paused,
                pending: r.pending,
                resume_out_time_ms: r.resume_out_time_ms,
                ..c
            })
        }),
        ({
            let r = c.after(ControlEvent::ResumeRefused);
            !r.pending && r == (ProcessControl { pending: r.pending, ..c })
        }),
{
}

/// Progress moves the time forward and never back; progress past the point of the
/// resume, and no other, ends the wait for it. Progress without a time changes
/// nothing.
pub proof fn law_progress_moves_forward(c: ProcessControl, time: u64)
    ensures
        ({
            let r = c.after(ControlEvent::Progress(Some(time)));
            &&& r.out_time_ms >= c.out_time_ms && r.out_time_ms >= time
            &&& r.out_time_ms == c.out_time_ms || r.out_time_ms == time
            &&& r.pending <==> c.pending && time <= c.resume_out_time_ms
            &&& r == (ProcessControl { out_time_ms: r.out_time_ms, pending: r.pending, ..c })
            &&& c.after(ControlEvent::Progress(None)) == c
        }),
{
}

/// What went wrong while progress was read stands behind what FFmpeg printed, on a
/// line of its own.
pub proof fn law_a_failure_to_read_is_told_last(stderr: Seq<char>, error: Seq<char>)
    ensures
        ffmpeg::with_progress_error(stderr, None) == stderr,
        stderr.len() > 0 ==> ffmpeg::with_progress_error(stderr, Some(error)) == stderr + seq!['\n']
            + error,
        stderr.len() == 0 ==> ffmpeg::with_progress_error(stderr, Some(error)) == error,
{
    reveal_strlit("\n");
    assert("\n"@ =~= seq!['\n']);
}

/// What a program states of its version counts from when it is first known, for
/// every path to that program.
pub proof fn law_a_version_is_known_by_its_program(
    entries: Seq<(Seq<char>, Option<FfmpegVersion>)>,
    path: Seq<char>,
    version: Option<FfmpegVersion>,
    program: Seq<char>,
)
    ensures
        ffmpeg::known_version(Seq::empty(), program) is None,
        ffmpeg::known_version(entries, program) is None ==> ffmpeg::known_version(
            entries.push((path, version)),
            program,
        ) == (if paths::same_path(path, program) {
            Some(version)
        } else {
            None
        }),
        ffmpeg::known_version(entries, program) is Some ==> ffmpeg::known_version(
            entries.push((path, version)),
            program,
        ) == ffmpeg::known_version(entries, program),
{
    assert(entries.push((path, version)).drop_last() =~= entries);
}

/// A run that has not begun is neither running, cancelled, paused nor waited for,
/// and has come no way.
pub proof fn law_a_run_begins_with_nothing()
    ensures
        ({
            let c = ProcessControl::idle();
            &&& !c.running && !c.cancelled && !c.paused && !c.pending && !c.for_shutdown
            &&& c.out_time_ms == 0 && c.resume_out_time_ms == 0
        }),
{
}

} // verus!
