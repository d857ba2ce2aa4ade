//! Running FFmpeg: its version, its arguments, its progress and its process.

use vstd::prelude::*;
use crate::{output, paths, text};
use crate::error::DownerError;

verus! {

/// The version of an FFmpeg.
#[derive(Debug, Clone, Copy, PartialEq, Eq, Structural)]
pub struct FfmpegVersion {
    pub major: u32,
    pub minor: u32,
    pub patch: Option<u32>,
}

/// The major version of the oldest FFmpeg whose options this program relies on.
pub const MINIMUM_MAJOR: u32 = 7;

/// The minor version of the oldest FFmpeg whose options this program relies on.
pub const MINIMUM_MINOR: u32 = 1;

/// The oldest FFmpeg whose options this program relies on.
pub open spec fn minimum_version() -> FfmpegVersion {
    FfmpegVersion { major: MINIMUM_MAJOR, minor: MINIMUM_MINOR, patch: None }
}

pub fn minimum_ffmpeg() -> (r: FfmpegVersion)
    ensures
        r == minimum_version(),
{
    FfmpegVersion { major: MINIMUM_MAJOR, minor: MINIMUM_MINOR, patch: None }
}

impl FfmpegVersion {
    /// Whether a version is the minimum or newer; the patch does not count.
    pub open spec fn is_supported(self) -> bool {
        self.major > MINIMUM_MAJOR || (self.major == MINIMUM_MAJOR && self.minor
            >= MINIMUM_MINOR)
    }

    pub fn meets_minimum(&self) -> (r: bool)
        ensures
            r == self.is_supported(),
    {
        self.major > MINIMUM_MAJOR || (self.major == MINIMUM_MAJOR && self.minor
            >= MINIMUM_MINOR)
    }

    /// A version as it is written: the patch only where one is known.
    pub open spec fn text(self) -> Seq<char> {
        let head = text::decimal(self.major as nat) + "."@ + text::decimal(self.minor as nat);
        match self.patch {
            Some(patch) => head + "."@ + text::decimal(patch as nat),
            None => head,
        }
    }

    pub fn display(&self) -> (r: String)
        ensures
            r@ == self.text(),
    {
        let mut r = text::decimal_of(self.major as u64);
        r.append(".");
        r.append(text::decimal_of(self.minor as u64).as_str());
        if let Some(patch) = self.patch {
            r.append(".");
            r.append(text::decimal_of(patch as u64).as_str());
        }
        r
    }
}

/// The word behind the first word `version`.
pub open spec fn version_word(ws: Seq<Seq<char>>, i: int) -> Option<Seq<char>>
    decreases ws.len() - i,
{
    if i < 0 || i + 1 >= ws.len() {
        None
    } else if ws[i] == "version"@ {
        Some(ws[i + 1])
    } else {
        version_word(ws, i + 1)
    }
}

/// A version word without the `n` that a git build puts before its number.
pub open spec fn without_build_letter(word: Seq<char>) -> Seq<char> {
    if word.len() >= 2 && word[0] == 'n' && text::is_digit(word[1]) {
        word.skip(1)
    } else {
        word
    }
}

/// The index of the first character at or after `i` that is no digit and no dot.
pub open spec fn number_end(s: Seq<char>, i: int) -> int
    decreases s.len() - i,
{
    if i < 0 || i >= s.len() {
        s.len() as int
    } else if text::is_digit(s[i]) || s[i] == '.' {
        number_end(s, i + 1)
    } else {
        i
    }
}

/// The pieces that hold anything.
pub open spec fn nonempty(v: Seq<Seq<char>>) -> Seq<Seq<char>>
    decreases v.len(),
{
    if v.len() == 0 {
        Seq::empty()
    } else if v.last().len() == 0 {
        nonempty(v.drop_last())
    } else {
        nonempty(v.drop_last()).push(v.last())
    }
}

/// The version in the first line that FFmpeg prints when asked for it.
pub open spec fn version_in(line: Seq<char>) -> Option<FfmpegVersion> {
    match version_word(text::words(line), 0) {
        Some(word) => {
            let token = without_build_letter(word);
            let parts = nonempty(text::split(token.take(number_end(token, 0)), '.'));
            if parts.len() == 0 {
                None
            } else {
                match text::small_number(parts[0]) {
                    Some(major) => Some(
                        FfmpegVersion {
                            major,
                            minor: if parts.len() > 1 {
                                match text::small_number(parts[1]) {
                                    Some(minor) => minor,
                                    None => 0,
                                }
                            } else {
                                0
                            },
                            patch: if parts.len() > 2 {
                                text::small_number(parts[2])
                            } else {
                                None
                            },
                        },
                    ),
                    None => None,
                }
            }
        },
        None => None,
    }
}

fn find_version_word(ws: &Vec<String>) -> (r: Option<String>)
    ensures
        text::opt_text(r) == version_word(text::texts(ws@), 0),
{
    let total: usize = ws.len();
    let mut i: usize = 0;
    while i < total && total - i >= 2
        invariant
            total == ws@.len(),
            i <= total,
            version_word(text::texts(ws@), i as int) == version_word(text::texts(ws@), 0),
        decreases total - i,
    {
        if text::same(ws[i].as_str(), "version") {
            return Some(text::owned(ws[i + 1].as_str()));
        }
        i = i + 1;
    }
    None
}

fn version_parts(token: &str) -> (r: Vec<String>)
    ensures
        text::texts(r@) == nonempty(text::split(token@.take(number_end(token@, 0)), '.')),
{
    let v = text::chars_of(token);
    let mut end: usize = 0;
    while end < v.len() && (('0' <= v[end] && v[end] <= '9') || v[end] == '.')
        invariant
            v@ == token@,
            end <= v@.len(),
            number_end(token@, end as int) == number_end(token@, 0),
        decreases v@.len() - end,
    {
        end = end + 1;
    }
    let numeric = text::string_of(&v, 0, end);
    assert(numeric@ =~= token@.take(number_end(token@, 0)));
    let all = text::split_at_each(numeric.as_str(), '.');
    let mut parts: Vec<String> = Vec::new();
    let mut i: usize = 0;
    assert(text::texts(all@).take(0) =~= Seq::empty());
    assert(text::texts(parts@) =~= Seq::empty());
    while i < all.len()
        invariant
            i <= all@.len(),
            text::texts(parts@) == nonempty(text::texts(all@).take(i as int)),
        decreases all@.len() - i,
    {
        proof {
            assert(text::texts(all@).take(i + 1).drop_last() =~= text::texts(all@).take(i as int));
            assert(text::texts(all@).take(i + 1).last() == all@[i as int]@);
        }
        if text::chars_of(all[i].as_str()).len() > 0 {
            text::push_text(&mut parts, all[i].as_str());
        }
        i = i + 1;
    }
    assert(text::texts(all@).take(i as int) =~= text::texts(all@));
    parts
}

/// Read the version in the first line that FFmpeg prints when asked for it.
pub fn parse_version(line: &str) -> (r: Option<FfmpegVersion>)
    ensures
        r == version_in(line@),
{
    let ws = text::words_of(line);
    let word = match find_version_word(&ws) {
        Some(w) => w,
        None => {
            return None;
        },
    };
    let v = text::chars_of(word.as_str());
    let token = if v.len() >= 2 && v[0] == 'n' && '0' <= v[1] && v[1] <= '9' {
        let t = text::string_of(&v, 1, v.len());
        assert(t@ =~= word@.skip(1));
        t
    } else {
        word
    };
    let parts = version_parts(token.as_str());
    let ghost views = text::texts(parts@);
    if parts.len() == 0 {
        return None;
    }
    assert(views[0] == parts@[0]@);
    let major = match text::read_small(parts[0].as_str()) {
        Some(n) => n,
        None => {
            return None;
        },
    };
    let minor: u32 = if parts.len() > 1 {
        assert(views[1] == parts@[1]@);
        match text::read_small(parts[1].as_str()) {
            Some(n) => n,
            None => 0,
        }
    } else {
        0
    };
    let patch: Option<u32> = if parts.len() > 2 {
        assert(views[2] == parts@[2]@);
        text::read_small(parts[2].as_str())
    } else {
        None
    };
    Some(FfmpegVersion { major, minor, patch })
}

/// The version of an FFmpeg from what it printed; `None` if it could not be
/// asked or printed no line.
pub fn version(stdout: Option<&str>) -> (r: Option<FfmpegVersion>)
    ensures
        r == match stdout {
            Some(printed) => if text::lines(printed@).len() > 0 {
                version_in(text::lines(printed@)[0])
            } else {
                None
            },
            None => None,
        },
{
    match stdout {
        Some(printed) => {
            let ls = text::lines_of(printed);
            assert(text::texts(ls@).len() == ls@.len());
            if ls.len() == 0 {
                return None;
            }
            assert(text::texts(ls@)[0] == ls@[0]@);
            parse_version(ls[0].as_str())
        },
        None => None,
    }
}

proof fn lemma_number_end(s: Seq<char>, i: int)
    requires
        0 <= i <= s.len(),
        forall|k: int| 0 <= k < s.len() ==> text::is_digit(#[trigger] s[k]) || s[k] == '.',
    ensures
        number_end(s, i) == s.len(),
    decreases s.len() - i,
{
    if i < s.len() {
        assert(text::is_digit(s[i]) || s[i] == '.');
        lemma_number_end(s, i + 1);
    }
}

/// A number of a version, as it is written, is one piece of its text and is read
/// as that number.
proof fn lemma_version_number(n: u32)
    ensures
        text::decimal(n as nat).len() > 0,
        text::all_digits(text::decimal(n as nat)),
        !text::decimal(n as nat).contains('.'),
        text::small_number(text::decimal(n as nat)) == Some(n),
{
    let d = text::decimal(n as nat);
    output::lemma_decimal_value(n as nat);
    assert(text::is_digit(d[0]));
    assert(!d.contains('.')) by {
        if d.contains('.') {
            let k = choose|k: int| 0 <= k < d.len() && d[k] == '.';
            assert(text::is_digit(d[k]));
        }
    }
}

/// What FFmpeg prints of a version is read as that version.
#[verifier::rlimit(40)]
pub proof fn law_a_printed_version_is_read_back(v: FfmpegVersion)
    ensures
        version_in("ffmpeg version "@ + v.text() + " Copyright"@) == Some(v),
{
    reveal_strlit("ffmpeg version ");
    reveal_strlit("ffmpeg");
    reveal_strlit("version");
    reveal_strlit(" Copyright");
    reveal_strlit("Copyright");
    reveal_strlit(" ");
    reveal_strlit(".");
    let token = v.text();
    let major = text::decimal(v.major as nat);
    let minor = text::decimal(v.minor as nat);
    lemma_version_number(v.major);
    lemma_version_number(v.minor);
    let parts: Seq<Seq<char>> = match v.patch {
        Some(patch) => seq![major, minor, text::decimal(patch as nat)],
        None => seq![major, minor],
    };
    if let Some(patch) = v.patch {
        let last = text::decimal(patch as nat);
        lemma_version_number(patch);
        assert(token =~= major.push('.') + (minor.push('.') + last));
        text::lemma_first_piece(major, minor.push('.') + last, '.');
        text::lemma_first_piece(minor, last, '.');
        text::lemma_only_piece(last, '.');
        assert(text::split(token, '.') =~= parts);
    } else {
        assert(token =~= major.push('.') + minor);
        text::lemma_first_piece(major, minor, '.');
        text::lemma_only_piece(minor, '.');
        assert(text::split(token, '.') =~= parts);
    }
    assert forall|k: int| 0 <= k < token.len() implies text::is_digit(#[trigger] token[k]) || token[k]
        == '.' by {
        if k < major.len() {
            assert(token[k] == major[k]);
        } else if k > major.len() && k < major.len() + 1 + minor.len() {
            assert(token[k] == minor[k - major.len() - 1]);
        } else if k > major.len() + 1 + minor.len() {
            assert(token[k] == text::decimal(v.patch->0 as nat)[k - major.len() - minor.len() - 2]);
        }
    }
    assert(text::is_digit(token[0])) by {
        assert(token[0] == major[0]);
    }
    lemma_number_end(token, 0);
    assert(token.take(token.len() as int) =~= token);
    assert(nonempty(parts) =~= parts) by {
        reveal_with_fuel(nonempty, 4);
        assert(parts.drop_last().drop_last().len() <= 1);
        assert(nonempty(parts.drop_last()) =~= parts.drop_last());
    }
    let line = "ffmpeg version "@ + token + " Copyright"@;
    let tail = token + " "@ + "Copyright"@;
    assert(line =~= "ffmpeg"@ + " "@ + ("version"@ + " "@ + tail));
    assert(text::is_word("ffmpeg"@));
    assert(text::is_word("version"@));
    assert(text::is_word("Copyright"@));
    assert(text::is_word(token));
    text::lemma_first_word("ffmpeg"@, "version"@ + " "@ + tail);
    text::lemma_first_word("version"@, tail);
    text::lemma_first_word(token, "Copyright"@);
    text::lemma_only_word("Copyright"@);
    let ws = text::words(line);
    assert(ws =~= seq!["ffmpeg"@, "version"@, token, "Copyright"@]);
    assert("ffmpeg"@ != "version"@) by {
        assert("ffmpeg"@.len() != "version"@.len());
    }
    assert(version_word(ws, 1) == Some(token));
    assert(version_word(ws, 0) == Some(token));
}

/// What was found out of the versions of programs, by their paths.
#[derive(Debug)]
pub struct Versions {
    pub entries: Vec<(String, Option<FfmpegVersion>)>,
}

impl View for Versions {
    type V = Seq<(Seq<char>, Option<FfmpegVersion>)>;

    open spec fn view(&self) -> Seq<(Seq<char>, Option<FfmpegVersion>)> {
        Seq::new(self.entries@.len(), |i: int| (self.entries@[i].0@, self.entries@[i].1))
    }
}

/// What was found out of the version of a program, if anything was: `Some(None)`
/// if it could not be told.
pub open spec fn known_version(
    entries: Seq<(Seq<char>, Option<FfmpegVersion>)>,
    program: Seq<char>,
) -> Option<Option<FfmpegVersion>>
    decreases entries.len(),
{
    if entries.len() == 0 {
        None
    } else {
        match known_version(entries.drop_last(), program) {
            Some(version) => Some(version),
            None => if paths::same_path(entries.last().0, program) {
                Some(entries.last().1)
            } else {
                None
            },
        }
    }
}

impl Versions {
    pub fn new() -> (r: Versions)
        ensures
            r@ == Seq::<(Seq<char>, Option<FfmpegVersion>)>::empty(),
    {
        let r = Versions { entries: Vec::new() };
        assert(r@ =~= Seq::<(Seq<char>, Option<FfmpegVersion>)>::empty());
        r
    }

    /// What is known of a program, which need not be asked again then.
    pub fn known(&self, program: &str) -> (r: Option<Option<FfmpegVersion>>)
        ensures
            r == known_version(self@, program@),
    {
        let mut i: usize = 0;
        assert(self@.take(0) =~= Seq::empty());
        while i < self.entries.len()
            invariant
                i <= self.entries@.len(),
                known_version(self@.take(i as int), program@) is None,
            decreases self.entries@.len() - i,
        {
            proof {
                let next = self@.take(i + 1);
                assert(next.drop_last() =~= self@.take(i as int));
                assert(next.last() == (self.entries@[i as int].0@, self.entries@[i as int].1));
            }
            if paths::is_same_path(self.entries[i].0.as_str(), program) {
                proof {
                    let rest = self@.skip(i + 1);
                    assert(self@ =~= self@.take(i + 1) + rest);
                    law_a_version_is_asked_for_once(self@.take(i + 1), rest, program@);
                }
                return Some(self.entries[i].1);
            }
            i = i + 1;
        }
        assert(self@.take(i as int) =~= self@);
        None
    }

    /// Take note of the version that a program stated. What is known of it
    /// already stays, and comes back.
    pub fn learn(&mut self, program: &str, version: Option<FfmpegVersion>) -> (r: Option<
        FfmpegVersion,
    >)
        ensures
            match known_version(old(self)@, program@) {
                Some(known) => final(self)@ == old(self)@ && r == known,
                None => final(self)@ == old(self)@.push((program@, version)) && r == version,
            },
    {
        if let Some(known) = self.known(program) {
            return known;
        }
        self.entries.push((text::owned(program), version));
        assert(self@ =~= old(self)@.push((program@, version)));
        version
    }
}

/// What is known of a version stays, whatever else is found out later.
pub proof fn law_a_version_is_asked_for_once(
    entries: Seq<(Seq<char>, Option<FfmpegVersion>)>,
    later: Seq<(Seq<char>, Option<FfmpegVersion>)>,
    program: Seq<char>,
)
    requires
        known_version(entries, program) is Some,
    ensures
        known_version(entries + later, program) == known_version(entries, program),
    decreases later.len(),
{
    if later.len() > 0 {
        law_a_version_is_asked_for_once(entries, later.drop_last(), program);
        assert((entries + later).drop_last() =~= entries + later.drop_last());
    } else {
        assert(entries + later =~= entries);
    }
}

// ---------------------------------------------------------------------------
// Arguments
// ---------------------------------------------------------------------------

/// How FFmpeg reports what it does: to a person, or to a program that reads
/// its progress at the given period, in seconds.
#[derive(Debug)]
pub enum Reporting {
    Cli,
    Controlled { stats_period: String },
}

/// The period at which a program reads progress.
pub const DEFAULT_STATS_PERIOD: &'static str = "0.5";

impl Reporting {
    /// Reporting to a program at the usual period.
    pub fn controlled() -> (r: Reporting)
        ensures
            r matches Reporting::Controlled { stats_period } && stats_period@
                == DEFAULT_STATS_PERIOD@,
    {
        Reporting::Controlled { stats_period: text::owned(DEFAULT_STATS_PERIOD) }
    }
}

/// How FFmpeg takes up a connection that was lost.
#[derive(Debug, Clone, Copy, PartialEq, Eq, Structural)]
pub struct Reconnect {
    /// The longest pause between two attempts, in seconds.
    pub delay_max: u32,
}

/// The answers after which FFmpeg asks again: the server's own failures, and
/// the two client errors that time may mend.
pub const RECONNECT_HTTP_STATUSES: &'static str = "5xx,408,429";

pub const DEFAULT_RECONNECT_DELAY_MAX: u32 = 30;

impl Default for Reconnect {
    fn default() -> (r: Reconnect)
        ensures
            r.delay_max == DEFAULT_RECONNECT_DELAY_MAX,
    {
        Reconnect { delay_max: DEFAULT_RECONNECT_DELAY_MAX }
    }
}

/// Whether an input is fetched over HTTP, which its scheme alone decides.
pub open spec fn http_input(input: Seq<char>) -> bool {
    text::starts_with(text::lower(text::trim_start(input)), "http://"@) || text::starts_with(
        text::lower(text::trim_start(input)),
        "https://"@,
    )
}

pub fn is_http_input(input: &str) -> (r: bool)
    ensures
        r == http_input(input@),
{
    let t = text::trimmed_start(input);
    let low = text::to_ascii_lower(t.as_str());
    text::has_prefix(low.as_str(), "http://") || text::has_prefix(low.as_str(), "https://")
}

/// One run of FFmpeg.
#[derive(Debug)]
pub struct FfmpegInvocation {
    pub program: String,
    pub input: String,
    /// A second input, from which only the sound is taken.
    pub audio_input: Option<String>,
    pub headers: Option<String>,
    pub cookies: Option<String>,
    pub reconnect: Option<Reconnect>,
    /// Whether segments with unusual file extensions are accepted.
    pub hls_lenient: bool,
    pub threads: Option<u16>,
    pub overwrite: bool,
    pub output: String,
    pub reporting: Reporting,
}

pub open spec fn reporting_args(reporting: Reporting) -> Seq<Seq<char>> {
    match reporting {
        Reporting::Cli => seq!["-hide_banner"@, "-loglevel"@, "error"@, "-stats"@],
        Reporting::Controlled { stats_period } => seq![
            "-hide_banner"@,
            "-loglevel"@,
            "info"@,
            "-nostats"@,
            "-stats_period"@,
            stats_period@,
            "-progress"@,
            "pipe:1"@,
        ],
    }
}

pub open spec fn reconnect_args(reconnect: Option<Reconnect>, input: Seq<char>) -> Seq<Seq<char>> {
    match reconnect {
        Some(policy) => if http_input(input) {
            seq![
                "-reconnect"@,
                "1"@,
                "-reconnect_streamed"@,
                "1"@,
                "-reconnect_on_network_error"@,
                "1"@,
                "-reconnect_on_http_error"@,
                RECONNECT_HTTP_STATUSES@,
                "-reconnect_delay_max"@,
                text::decimal(policy.delay_max as nat),
            ]
        } else {
            Seq::empty()
        },
        None => Seq::empty(),
    }
}

pub open spec fn lenient_args(lenient: bool) -> Seq<Seq<char>> {
    if lenient {
        seq!["-allowed_segment_extensions"@, "ALL"@, "-extension_picky"@, "0"@]
    } else {
        Seq::empty()
    }
}

/// An option and its value, where there is one.
pub open spec fn option_args(name: Seq<char>, value: Option<Seq<char>>) -> Seq<Seq<char>> {
    match value {
        Some(v) => seq![name, v],
        None => Seq::empty(),
    }
}

pub open spec fn output_args(
    paired: bool,
    threads: Option<u16>,
    overwrite: bool,
    output: Seq<char>,
) -> Seq<Seq<char>> {
    (if paired {
        seq!["-map"@, "0:v:0"@, "-map"@, "1:a:0"@]
    } else {
        Seq::empty()
    }) + seq!["-c"@, "copy"@] + (match threads {
        Some(n) => seq!["-threads"@, text::decimal(n as nat)],
        None => Seq::empty(),
    }) + seq![
        if overwrite {
            "-y"@
        } else {
            "-n"@
        },
        output,
    ]
}

impl FfmpegInvocation {
    /// The arguments that belong to one input. FFmpeg applies them to the input
    /// that follows and to no other, so each input has its own.
    pub open spec fn input_args(&self, input: Seq<char>) -> Seq<Seq<char>> {
        reconnect_args(self.reconnect, input) + lenient_args(self.hls_lenient) + option_args(
            "-headers"@,
            text::opt_text(self.headers),
        ) + option_args("-cookies"@, text::opt_text(self.cookies)) + seq!["-i"@, input]
    }

    /// The arguments of a run, in order.
    pub open spec fn args(&self) -> Seq<Seq<char>> {
        reporting_args(self.reporting) + self.input_args(self.input@) + (match self.audio_input {
            Some(audio) => self.input_args(audio@),
            None => Seq::empty(),
        }) + output_args(self.audio_input is Some, self.threads, self.overwrite, self.output@)
    }

    /// A run with nothing but an input and an output.
    pub fn new(program: String, input: &str, output: String, overwrite: bool) -> (r:
        FfmpegInvocation)
        ensures
            r.program@ == program@,
            r.input@ == input@,
            r.audio_input is None,
            r.headers is None,
            r.cookies is None,
            r.reconnect == Some(Reconnect { delay_max: DEFAULT_RECONNECT_DELAY_MAX }),
            !r.hls_lenient,
            r.threads is None,
            r.overwrite == overwrite,
            r.output@ == output@,
            r.reporting is Cli,
    {
        FfmpegInvocation {
            program,
            input: text::owned(input),
            audio_input: None,
            headers: None,
            cookies: None,
            reconnect: Some(Reconnect::default()),
            hls_lenient: false,
            threads: None,
            overwrite,
            output,
            reporting: Reporting::Cli,
        }
    }

    fn push_reporting(&self, args: &mut Vec<String>)
        ensures
            text::texts(final(args)@) == text::texts(old(args)@) + reporting_args(self.reporting),
    {
        let ghost before = text::texts(args@);
        text::push_text(args, "-hide_banner");
        text::push_text(args, "-loglevel");
        match &self.reporting {
            Reporting::Cli => {
                text::push_text(args, "error");
                text::push_text(args, "-stats");
            },
            Reporting::Controlled { stats_period } => {
                text::push_text(args, "info");
                text::push_text(args, "-nostats");
                text::push_text(args, "-stats_period");
                text::push_text(args, stats_period.as_str());
                text::push_text(args, "-progress");
                text::push_text(args, "pipe:1");
            },
        }
        assert(text::texts(args@) =~= before + reporting_args(self.reporting));
    }

    fn push_input(&self, args: &mut Vec<String>, input: &str)
        ensures
            text::texts(final(args)@) == text::texts(old(args)@) + self.input_args(input@),
    {
        let ghost before = text::texts(args@);
        push_reconnect(args, self.reconnect, input);
        push_lenient(args, self.hls_lenient);
        push_option(args, "-headers", &self.headers);
        push_option(args, "-cookies", &self.cookies);
        text::push_text(args, "-i");
        text::push_text(args, input);
        assert(text::texts(args@) =~= before + self.input_args(input@));
    }

    fn push_output(&self, args: &mut Vec<String>)
        ensures
            text::texts(final(args)@) == text::texts(old(args)@) + output_args(
                self.audio_input is Some,
                self.threads,
                self.overwrite,
                self.output@,
            ),
    {
        let ghost before = text::texts(args@);
        if self.audio_input.is_some() {
            text::push_text(args, "-map");
            text::push_text(args, "0:v:0");
            text::push_text(args, "-map");
            text::push_text(args, "1:a:0");
        }
        text::push_text(args, "-c");
        text::push_text(args, "copy");
        if let Some(threads) = self.threads {
            text::push_text(args, "-threads");
            text::push_text(args, text::decimal_of(threads as u64).as_str());
        }
        text::push_text(
            args,
            if self.overwrite {
                "-y"
            } else {
                "-n"
            },
        );
        text::push_text(args, self.output.as_str());
        assert(text::texts(args@) =~= before + output_args(
            self.audio_input is Some,
            self.threads,
            self.overwrite,
            self.output@,
        ));
    }

    /// The arguments FFmpeg is run with.
    pub fn to_args(&self) -> (r: Vec<String>)
        ensures
            text::texts(r@) == self.args(),
    {
        let mut args: Vec<String> = Vec::new();
        self.push_reporting(&mut args);
        assert(text::texts(args@) =~= reporting_args(self.reporting));
        self.push_input(&mut args, self.input.as_str());
        if let Some(audio) = &self.audio_input {
            self.push_input(&mut args, audio.as_str());
        } else {
            assert(text::texts(args@) + Seq::<Seq<char>>::empty() =~= text::texts(args@));
        }
        self.push_output(&mut args);
        args
    }
}

fn push_reconnect(args: &mut Vec<String>, reconnect: Option<Reconnect>, input: &str)
    ensures
        text::texts(final(args)@) == text::texts(old(args)@) + reconnect_args(reconnect, input@),
{
    let ghost before = text::texts(args@);
    if let Some(policy) = reconnect {
        if is_http_input(input) {
            text::push_text(args, "-reconnect");
            text::push_text(args, "1");
            text::push_text(args, "-reconnect_streamed");
            text::push_text(args, "1");
            text::push_text(args, "-reconnect_on_network_error");
            text::push_text(args, "1");
            text::push_text(args, "-reconnect_on_http_error");
            text::push_text(args, RECONNECT_HTTP_STATUSES);
            text::push_text(args, "-reconnect_delay_max");
            text::push_text(args, text::decimal_of(policy.delay_max as u64).as_str());
        }
    }
    assert(text::texts(args@) =~= before + reconnect_args(reconnect, input@));
}

fn push_lenient(args: &mut Vec<String>, lenient: bool)
    ensures
        text::texts(final(args)@) == text::texts(old(args)@) + lenient_args(lenient),
{
    let ghost before = text::texts(args@);
    if lenient {
        text::push_text(args, "-allowed_segment_extensions");
        text::push_text(args, "ALL");
        text::push_text(args, "-extension_picky");
        text::push_text(args, "0");
    }
    assert(text::texts(args@) =~= before + lenient_args(lenient));
}

fn push_option(args: &mut Vec<String>, name: &str, value: &Option<String>)
    ensures
        text::texts(final(args)@) == text::texts(old(args)@) + option_args(name@, text::opt_text(*value)),
{
    let ghost before = text::texts(args@);
    if let Some(v) = value {
        text::push_text(args, name);
        text::push_text(args, v.as_str());
    }
    assert(text::texts(args@) =~= before + option_args(name@, text::opt_text(*value)));
}

// ---------------------------------------------------------------------------
// Arguments in a log
// ---------------------------------------------------------------------------

/// What a log shows in place of the output path.
pub const LOGGED_OUTPUT: &'static str = "<output>";

/// The number of lines that hold more than white space.
pub open spec fn filled_lines(ls: Seq<Seq<char>>) -> nat
    decreases ls.len(),
{
    if ls.len() == 0 {
        0
    } else {
        filled_lines(ls.drop_last()) + (if text::trim(ls.last()).len() > 0 {
            1nat
        } else {
            0
        })
    }
}

/// How many cookies there are.
pub open spec fn cookie_count(cookies: Option<Seq<char>>) -> nat {
    match cookies {
        Some(value) => filled_lines(text::lines(value)),
        None => 0,
    }
}

/// How many cookies there are, in words.
pub open spec fn cookie_summary(cookies: Option<Seq<char>>) -> Seq<char> {
    let count = cookie_count(cookies);
    if count == 1 {
        "<1 cookie>"@
    } else {
        "<"@ + text::decimal(count) + " cookies>"@
    }
}

/// The names of the headers, without the lines that have none.
pub open spec fn header_names(ls: Seq<Seq<char>>) -> Seq<Seq<char>>
    decreases ls.len(),
{
    if ls.len() == 0 {
        Seq::empty()
    } else {
        let before = header_names(ls.drop_last());
        let name = text::trim(ls.last().take(text::next_char(ls.last(), ':', 0)));
        if name.len() > 0 {
            before.push(name)
        } else {
            before
        }
    }
}

/// The names of the headers that there are.
pub open spec fn names_of(headers: Option<Seq<char>>) -> Seq<Seq<char>> {
    match headers {
        Some(value) => header_names(text::lines(value)),
        None => Seq::empty(),
    }
}

/// Which headers there are, without their values.
pub open spec fn header_summary(headers: Option<Seq<char>>) -> Seq<char> {
    let names = names_of(headers);
    if names.len() == 0 {
        "<no headers>"@
    } else {
        "<"@ + text::join(names, ","@) + ">"@
    }
}

impl FfmpegInvocation {
    /// An argument that is no secret, as a log holds it: what is the output is
    /// hidden.
    pub open spec fn shown(&self, arg: Seq<char>) -> Seq<char> {
        if arg == self.output@ {
            LOGGED_OUTPUT@
        } else {
            arg
        }
    }

    /// Such arguments, as a log holds them.
    pub open spec fn shown_all(&self, args: Seq<Seq<char>>) -> Seq<Seq<char>> {
        Seq::new(args.len(), |i: int| self.shown(args[i]))
    }

    /// What a log holds of the headers: their names.
    pub open spec fn logged_headers(&self) -> Seq<Seq<char>> {
        option_args(
            "-headers"@,
            match self.headers {
                Some(_) => Some(header_summary(text::opt_text(self.headers))),
                None => None,
            },
        )
    }

    /// What a log holds of the cookies: how many there are.
    pub open spec fn logged_cookies(&self) -> Seq<Seq<char>> {
        option_args(
            "-cookies"@,
            match self.cookies {
                Some(_) => Some(cookie_summary(text::opt_text(self.cookies))),
                None => None,
            },
        )
    }

    /// The arguments of one input as a log holds them.
    pub open spec fn logged_input(&self, input: Seq<char>) -> Seq<Seq<char>> {
        self.shown_all(reconnect_args(self.reconnect, input)) + self.shown_all(
            lenient_args(self.hls_lenient),
        ) + self.logged_headers() + self.logged_cookies() + self.shown_all(seq!["-i"@, input])
    }

    /// The arguments as a log holds them: cookies counted, headers named, the
    /// output hidden.
    pub open spec fn log_args(&self) -> Seq<Seq<char>> {
        self.shown_all(reporting_args(self.reporting)) + self.logged_input(self.input@) + (
        match self.audio_input {
            Some(audio) => self.logged_input(audio@),
            None => Seq::empty(),
        }) + self.shown_all(
            output_args(self.audio_input is Some, self.threads, self.overwrite, self.output@),
        )
    }

    fn push_shown(&self, logged: &mut Vec<String>, args: &Vec<String>)
        ensures
            text::texts(final(logged)@) == text::texts(old(logged)@) + self.shown_all(text::texts(args@)),
    {
        let ghost before = text::texts(logged@);
        let ghost all = self.shown_all(text::texts(args@));
        let mut i: usize = 0;
        assert(before + all.take(0) =~= before);
        while i < args.len()
            invariant
                all == self.shown_all(text::texts(args@)),
                i <= args@.len(),
                text::texts(logged@) == before + all.take(i as int),
            decreases args@.len() - i,
        {
            assert(all[i as int] == self.shown(args@[i as int]@));
            if text::same(args[i].as_str(), self.output.as_str()) {
                text::push_text(logged, LOGGED_OUTPUT);
            } else {
                text::push_text(logged, args[i].as_str());
            }
            i = i + 1;
            assert(text::texts(logged@) =~= before + all.take(i as int));
        }
        assert(all.take(i as int) =~= all);
    }

    fn push_logged_input(&self, logged: &mut Vec<String>, input: &str)
        ensures
            text::texts(final(logged)@) == text::texts(old(logged)@) + self.logged_input(input@),
    {
        let ghost before = text::texts(logged@);
        let mut reconnect: Vec<String> = Vec::new();
        let mut lenient: Vec<String> = Vec::new();
        let mut named: Vec<String> = Vec::new();
        assert(text::texts(reconnect@) =~= Seq::empty());
        push_reconnect(&mut reconnect, self.reconnect, input);
        push_lenient(&mut lenient, self.hls_lenient);
        text::push_text(&mut named, "-i");
        text::push_text(&mut named, input);
        assert(text::texts(reconnect@) =~= reconnect_args(self.reconnect, input@));
        assert(text::texts(lenient@) =~= lenient_args(self.hls_lenient));
        assert(text::texts(named@) =~= seq!["-i"@, input@]);
        self.push_shown(logged, &reconnect);
        self.push_shown(logged, &lenient);
        let headers = match &self.headers {
            Some(_) => Some(summarize_headers(&self.headers)),
            None => None,
        };
        let cookies = match &self.cookies {
            Some(_) => Some(summarize_cookies(&self.cookies)),
            None => None,
        };
        push_option(logged, "-headers", &headers);
        push_option(logged, "-cookies", &cookies);
        self.push_shown(logged, &named);
        assert(text::texts(logged@) =~= before + self.logged_input(input@));
    }

    /// The arguments as a log holds them.
    pub fn to_log_args(&self) -> (r: Vec<String>)
        ensures
            text::texts(r@) == self.log_args(),
            r@.len() == self.args().len(),
    {
        let mut logged: Vec<String> = Vec::new();
        let mut reporting: Vec<String> = Vec::new();
        let mut output: Vec<String> = Vec::new();
        self.push_reporting(&mut reporting);
        self.push_output(&mut output);
        assert(text::texts(reporting@) =~= reporting_args(self.reporting));
        assert(text::texts(output@) =~= output_args(
            self.audio_input is Some,
            self.threads,
            self.overwrite,
            self.output@,
        ));
        self.push_shown(&mut logged, &reporting);
        self.push_logged_input(&mut logged, self.input.as_str());
        if let Some(audio) = &self.audio_input {
            self.push_logged_input(&mut logged, audio.as_str());
        }
        self.push_shown(&mut logged, &output);
        assert(text::texts(logged@) =~= self.log_args());
        proof {
            law_logged_arguments_hold_no_secret(*self);
            assert(text::texts(logged@).len() == logged@.len());
        }
        logged
    }
}

pub fn summarize_cookies(cookies: &Option<String>) -> (r: String)
    ensures
        r@ == cookie_summary(text::opt_text(*cookies)),
{
    let mut count: u64 = 0;
    if let Some(value) = cookies {
        let ls = text::lines_of(value.as_str());
        let mut i: usize = 0;
        assert(text::texts(ls@).take(0) =~= Seq::empty());
        while i < ls.len()
            invariant
                i <= ls@.len(),
                count <= i,
                count == filled_lines(text::texts(ls@).take(i as int)),
            decreases ls@.len() - i,
        {
            proof {
                let next = text::texts(ls@).take(i + 1);
                assert(next.drop_last() =~= text::texts(ls@).take(i as int));
                assert(next.last() == ls@[i as int]@);
            }
            if text::chars_of(text::trimmed(ls[i].as_str()).as_str()).len() > 0 {
                count = count + 1;
            }
            i = i + 1;
        }
        assert(text::texts(ls@).take(i as int) =~= text::texts(ls@));
    }
    if count == 1 {
        text::owned("<1 cookie>")
    } else {
        text::join3("<", text::decimal_of(count).as_str(), " cookies>")
    }
}

pub fn summarize_headers(headers: &Option<String>) -> (r: String)
    ensures
        r@ == header_summary(text::opt_text(*headers)),
{
    let mut names: Vec<String> = Vec::new();
    assert(text::texts(names@) =~= Seq::empty());
    if let Some(value) = headers {
        let ls = text::lines_of(value.as_str());
        let mut i: usize = 0;
        assert(text::texts(ls@).take(0) =~= Seq::empty());
        while i < ls.len()
            invariant
                i <= ls@.len(),
                text::texts(names@) == header_names(text::texts(ls@).take(i as int)),
            decreases ls@.len() - i,
        {
            proof {
                let next = text::texts(ls@).take(i + 1);
                assert(next.drop_last() =~= text::texts(ls@).take(i as int));
                assert(next.last() == ls@[i as int]@);
            }
            let end = text::index_of(ls[i].as_str(), ':');
            let head = text::slice(ls[i].as_str(), 0, end);
            assert(head@ =~= ls@[i as int]@.take(end as int));
            let name = text::trimmed(head.as_str());
            if text::chars_of(name.as_str()).len() > 0 {
                text::push_text(&mut names, name.as_str());
            }
            i = i + 1;
        }
        assert(text::texts(ls@).take(i as int) =~= text::texts(ls@));
    }
    assert(text::texts(names@).len() == names@.len());
    if names.len() == 0 {
        return text::owned("<no headers>");
    }
    let all = text::joined(&names, ",");
    text::join3("<", all.as_str(), ">")
}

/// Whether logged arguments stand for those of a run, position for position: each
/// is the argument itself, with the output hidden; or the name of an option; or,
/// behind such a name, what is said in place of the secret.
pub open spec fn stands_for(
    inv: FfmpegInvocation,
    logged: Seq<Seq<char>>,
    args: Seq<Seq<char>>,
) -> bool {
    &&& logged.len() == args.len()
    &&& forall|i: int|
        0 <= i < args.len() ==> {
            ||| #[trigger] logged[i] == inv.shown(args[i])
            ||| logged[i] == args[i] && (args[i] == "-headers"@ || args[i] == "-cookies"@)
            ||| i > 0 && args[i - 1] == "-headers"@ && logged[i] == header_summary(
                text::opt_text(inv.headers),
            )
            ||| i > 0 && args[i - 1] == "-cookies"@ && logged[i] == cookie_summary(
                text::opt_text(inv.cookies),
            )
        }
}

proof fn lemma_stands_for_both(
    inv: FfmpegInvocation,
    a: Seq<Seq<char>>,
    b: Seq<Seq<char>>,
    c: Seq<Seq<char>>,
    d: Seq<Seq<char>>,
)
    requires
        stands_for(inv, a, b),
        stands_for(inv, c, d),
    ensures
        stands_for(inv, a + c, b + d),
{
    let (logged, args) = (a + c, b + d);
    let n = a.len() as int;
    assert forall|i: int| 0 <= i < args.len() implies {
        ||| #[trigger] logged[i] == inv.shown(args[i])
        ||| logged[i] == args[i] && (args[i] == "-headers"@ || args[i] == "-cookies"@)
        ||| i > 0 && args[i - 1] == "-headers"@ && logged[i] == header_summary(
            text::opt_text(inv.headers),
        )
        ||| i > 0 && args[i - 1] == "-cookies"@ && logged[i] == cookie_summary(
            text::opt_text(inv.cookies),
        )
    } by {
        if i < n {
            assert(logged[i] == a[i] && args[i] == b[i]);
            if i > 0 {
                assert(args[i - 1] == b[i - 1]);
            }
        } else {
            assert(logged[i] == c[i - n] && args[i] == d[i - n]);
            if i > n {
                assert(args[i - 1] == d[i - n - 1]);
            }
        }
    }
}

proof fn lemma_input_stands_for(inv: FfmpegInvocation, input: Seq<char>)
    ensures
        stands_for(inv, inv.logged_input(input), inv.input_args(input)),
{
    let a = reconnect_args(inv.reconnect, input);
    let b = lenient_args(inv.hls_lenient);
    let c = option_args("-headers"@, text::opt_text(inv.headers));
    let d = option_args("-cookies"@, text::opt_text(inv.cookies));
    let e = seq!["-i"@, input];
    assert(stands_for(inv, inv.logged_headers(), c));
    assert(stands_for(inv, inv.logged_cookies(), d));
    let (x, y) = (inv.shown_all(a), inv.shown_all(b));
    let z = inv.logged_headers();
    lemma_stands_for_both(inv, x, a, y, b);
    lemma_stands_for_both(inv, x + y, a + b, z, c);
    lemma_stands_for_both(inv, x + y + z, a + b + c, inv.logged_cookies(), d);
    lemma_stands_for_both(
        inv,
        x + y + z + inv.logged_cookies(),
        a + b + c + d,
        inv.shown_all(e),
        e,
    );
}

/// The arguments in a log are those of the run, position for position, with each
/// value that may be a secret replaced: the cookies by their number, the headers
/// by their names, and the output by a fixed word.
pub proof fn law_logged_arguments_hold_no_secret(inv: FfmpegInvocation)
    ensures
        stands_for(inv, inv.log_args(), inv.args()),
        inv.log_args().last() == LOGGED_OUTPUT@,
{
    let a = reporting_args(inv.reporting);
    let b = inv.input_args(inv.input@);
    let (z, c): (Seq<Seq<char>>, Seq<Seq<char>>) = match inv.audio_input {
        Some(audio) => (inv.logged_input(audio@), inv.input_args(audio@)),
        None => (Seq::empty(), Seq::empty()),
    };
    let d = output_args(inv.audio_input is Some, inv.threads, inv.overwrite, inv.output@);
    let (x, y) = (inv.shown_all(a), inv.logged_input(inv.input@));
    lemma_input_stands_for(inv, inv.input@);
    if let Some(audio) = inv.audio_input {
        lemma_input_stands_for(inv, audio@);
    }
    lemma_stands_for_both(inv, x, a, y, b);
    lemma_stands_for_both(inv, x + y, a + b, z, c);
    lemma_stands_for_both(inv, x + y + z, a + b + c, inv.shown_all(d), d);
    assert(d.last() == inv.output@);
    assert(inv.shown_all(d).last() == LOGGED_OUTPUT@);
}

/// Whether two runs differ only in the texts of as many cookies and in the
/// values of the same headers.
pub open spec fn differ_in_secrets(one: FfmpegInvocation, other: FfmpegInvocation) -> bool {
    &&& other == (FfmpegInvocation { cookies: other.cookies, headers: other.headers, ..one })
    &&& (one.cookies is Some) == (other.cookies is Some)
    &&& (one.headers is Some) == (other.headers is Some)
    &&& cookie_count(text::opt_text(one.cookies)) == cookie_count(text::opt_text(other.cookies))
    &&& names_of(text::opt_text(one.headers)) == names_of(text::opt_text(other.headers))
}

proof fn lemma_shown_alike(
    one: FfmpegInvocation,
    other: FfmpegInvocation,
    args: Seq<Seq<char>>,
)
    requires
        one.output == other.output,
    ensures
        one.shown_all(args) == other.shown_all(args),
{
    assert(one.shown_all(args) =~= other.shown_all(args));
}

proof fn lemma_input_alike(one: FfmpegInvocation, other: FfmpegInvocation, input: Seq<char>)
    requires
        differ_in_secrets(one, other),
    ensures
        one.logged_input(input) == other.logged_input(input),
{
    lemma_shown_alike(one, other, reconnect_args(one.reconnect, input));
    lemma_shown_alike(one, other, lenient_args(one.hls_lenient));
    lemma_shown_alike(one, other, seq!["-i"@, input]);
    assert(header_summary(text::opt_text(one.headers)) == header_summary(text::opt_text(other.headers)));
    assert(cookie_summary(text::opt_text(one.cookies)) == cookie_summary(text::opt_text(other.cookies)));
}

/// Two runs that differ only in the texts of as many cookies, and in the values
/// of the same headers, stand alike in a log, which holds one word for each
/// argument.
pub proof fn law_a_log_does_not_depend_on_secrets(one: FfmpegInvocation, other: FfmpegInvocation)
    requires
        differ_in_secrets(one, other),
    ensures
        one.log_args() == other.log_args(),
        one.log_args().len() == one.args().len(),
{
    law_logged_arguments_hold_no_secret(one);
    lemma_input_alike(one, other, one.input@);
    if let Some(audio) = one.audio_input {
        lemma_input_alike(one, other, audio@);
    }
    lemma_shown_alike(one, other, reporting_args(one.reporting));
    lemma_shown_alike(
        one,
        other,
        output_args(one.audio_input is Some, one.threads, one.overwrite, one.output@),
    );
}

// ---------------------------------------------------------------------------
// Progress
// ---------------------------------------------------------------------------

/// How far FFmpeg has come.
#[derive(Debug, Clone, Copy, PartialEq, Eq, Structural)]
pub struct FfmpegProgress {
    /// The length of what was written, in milliseconds, once FFmpeg has said it.
    pub out_time_ms: Option<u64>,
    pub finished: bool,
}

/// The time that a line of progress carries, if it carries one: microseconds,
/// under either of two names, kept as milliseconds.
pub open spec fn progress_time(line: Seq<char>) -> Option<Option<u64>> {
    let value = match text::strip_prefix(line, "out_time_us="@) {
        Some(v) => Some(v),
        None => text::strip_prefix(line, "out_time_ms="@),
    };
    match value {
        Some(v) => Some(
            match text::parse_unsigned(text::trim(v), u64::MAX as nat) {
                Some(n) => Some((n / 1000) as u64),
                None => None,
            },
        ),
        None => None,
    }
}

/// The progress that FFmpeg has reported so far.
#[derive(Debug, Clone, Copy, PartialEq, Eq, Structural)]
pub struct ProgressReader {
    pub out_time_ms: Option<u64>,
}

impl ProgressReader {
    pub fn new() -> (r: ProgressReader)
        ensures
            r.out_time_ms is None,
    {
        ProgressReader { out_time_ms: None }
    }

    /// The time known after a line.
    pub open spec fn after(self, line: Seq<char>) -> ProgressReader {
        match progress_time(line) {
            Some(time) => ProgressReader { out_time_ms: time },
            None => self,
        }
    }

    /// What a line reports, if it ends a report.
    pub open spec fn report(self, line: Seq<char>) -> Option<FfmpegProgress> {
        if progress_time(line) is Some {
            None
        } else if text::trim(line) == "progress=continue"@ {
            Some(FfmpegProgress { out_time_ms: self.out_time_ms, finished: false })
        } else if text::trim(line) == "progress=end"@ {
            Some(FfmpegProgress { out_time_ms: self.out_time_ms, finished: true })
        } else {
            None
        }
    }

    /// Take in one line of FFmpeg's progress.
    pub fn read_line(&mut self, line: &str) -> (r: Option<FfmpegProgress>)
        ensures
            *final(self) == old(self).after(line@),
            r == old(self).report(line@),
    {
        let value = match text::without_prefix(line, "out_time_us=") {
            Some(v) => Some(v),
            None => text::without_prefix(line, "out_time_ms="),
        };
        if let Some(v) = value {
            self.out_time_ms = match text::parse_number(text::trimmed(v.as_str()).as_str(), u64::MAX) {
                Some(n) => Some(n / 1000),
                None => None,
            };
            return None;
        }
        let t = text::trimmed(line);
        if text::same(t.as_str(), "progress=continue") {
            Some(FfmpegProgress { out_time_ms: self.out_time_ms, finished: false })
        } else if text::same(t.as_str(), "progress=end") {
            Some(FfmpegProgress { out_time_ms: self.out_time_ms, finished: true })
        } else {
            None
        }
    }
}

// ---------------------------------------------------------------------------
// Diagnostic output
// ---------------------------------------------------------------------------

/// FFmpeg ends a line of its diagnostic output with either character.
pub open spec fn ends_log_line(c: char) -> bool {
    c == '\n' || c == '\r'
}

/// A line worth logging: trimmed, unless nothing is left.
pub open spec fn log_line(s: Seq<char>) -> Seq<Seq<char>> {
    if text::trim(s).len() > 0 {
        seq![text::trim(s)]
    } else {
        Seq::empty()
    }
}

/// The lines of `s` that have ended, from the one at `start`, none of which
/// ends before `i`.
pub open spec fn ended_from(s: Seq<char>, start: int, i: int) -> Seq<Seq<char>>
    decreases s.len() - i,
{
    if i >= s.len() {
        Seq::empty()
    } else if ends_log_line(s[i]) {
        log_line(s.subrange(start, i)) + ended_from(s, i + 1, i + 1)
    } else {
        ended_from(s, start, i + 1)
    }
}

/// Where the line that has not ended starts.
pub open spec fn unended_from(s: Seq<char>, start: int, i: int) -> int
    decreases s.len() - i,
{
    if i >= s.len() {
        start
    } else if ends_log_line(s[i]) {
        unended_from(s, i + 1, i + 1)
    } else {
        unended_from(s, start, i + 1)
    }
}

/// The lines of a text that have ended.
pub open spec fn ended_lines(s: Seq<char>) -> Seq<Seq<char>> {
    ended_from(s, 0, 0)
}

/// The line of a text that has not ended.
pub open spec fn unended_line(s: Seq<char>) -> Seq<char> {
    s.skip(unended_from(s, 0, 0))
}

/// FFmpeg's diagnostic output on its way into lines.
#[derive(Debug)]
pub struct LogReader {
    pub pending: String,
}

impl LogReader {
    pub fn new() -> (r: LogReader)
        ensures
            r.pending@ == Seq::<char>::empty(),
    {
        LogReader { pending: String::new() }
    }

    /// Take in a piece of output; the lines that have ended come back.
    pub fn feed(&mut self, chunk: &str) -> (r: Vec<String>)
        ensures
            text::texts(r@) == ended_lines(old(self).pending@ + chunk@),
            final(self).pending@ == unended_line(old(self).pending@ + chunk@),
    {
        let all = text::join2(self.pending.as_str(), chunk);
        let v = text::chars_of(all.as_str());
        let mut r: Vec<String> = Vec::new();
        let mut start: usize = 0;
        let mut i: usize = 0;
        assert(text::texts(r@) + ended_from(all@, 0, 0) =~= ended_lines(all@));
        while i < v.len()
            invariant
                v@ == all@,
                start <= i <= v@.len(),
                text::texts(r@) + ended_from(all@, start as int, i as int) == ended_lines(all@),
                unended_from(all@, start as int, i as int) == unended_from(all@, 0, 0),
            decreases v@.len() - i,
        {
            if v[i] == '\n' || v[i] == '\r' {
                let line = text::trimmed(text::string_of(&v, start, i).as_str());
                let ghost before = text::texts(r@);
                if text::chars_of(line.as_str()).len() > 0 {
                    text::push_text(&mut r, line.as_str());
                }
                assert(text::texts(r@) + ended_from(all@, i + 1, i + 1) =~= before + ended_from(
                    all@,
                    start as int,
                    i as int,
                ));
                start = i + 1;
            }
            i = i + 1;
        }
        assert(text::texts(r@) + ended_from(all@, start as int, i as int) =~= text::texts(r@));
        self.pending = text::string_of(&v, start, v.len());
        assert(self.pending@ =~= unended_line(all@));
        r
    }

    /// The line that the output ended within, if it holds anything.
    pub fn finish(&self) -> (r: Option<String>)
        ensures
            text::opt_text(r) == (if text::trim(self.pending@).len() > 0 {
                Some(text::trim(self.pending@))
            } else {
                None
            }),
    {
        let line = text::trimmed(self.pending.as_str());
        if text::chars_of(line.as_str()).len() > 0 {
            Some(line)
        } else {
            None
        }
    }
}

proof fn lemma_ended_add(a: Seq<char>, b: Seq<char>, start: int, i: int)
    requires
        0 <= start <= i <= a.len(),
    ensures
        ended_from(a + b, start, i) == ended_from(a, start, i) + ended_from(
            a + b,
            unended_from(a, start, i),
            a.len() as int,
        ),
        unended_from(a + b, start, i) == unended_from(
            a + b,
            unended_from(a, start, i),
            a.len() as int,
        ),
        start <= unended_from(a, start, i) <= a.len(),
        forall|k: int|
            unended_from(a, start, i) <= k < a.len() && i <= k ==> !ends_log_line(#[trigger] a[k]),
    decreases a.len() - i,
{
    if i < a.len() {
        assert((a + b)[i] == a[i]);
        if ends_log_line(a[i]) {
            lemma_ended_add(a, b, i + 1, i + 1);
            assert((a + b).subrange(start, i) =~= a.subrange(start, i));
            assert(ended_from(a + b, start, i) =~= ended_from(a, start, i) + ended_from(
                a + b,
                unended_from(a, start, i),
                a.len() as int,
            ));
        } else {
            lemma_ended_add(a, b, start, i + 1);
        }
    } else {
        assert(ended_from(a + b, start, i) =~= ended_from(a, start, i) + ended_from(
            a + b,
            start,
            a.len() as int,
        ));
    }
}

proof fn lemma_ended_shift(s: Seq<char>, k: int, start: int, i: int)
    requires
        0 <= k <= start <= i <= s.len(),
    ensures
        ended_from(s, start, i) == ended_from(s.skip(k), start - k, i - k),
        unended_from(s, start, i) == unended_from(s.skip(k), start - k, i - k) + k,
    decreases s.len() - i,
{
    if i < s.len() {
        assert(s.skip(k)[i - k] == s[i]);
        if ends_log_line(s[i]) {
            lemma_ended_shift(s, k, i + 1, i + 1);
            assert(s.skip(k).subrange(start - k, i - k) =~= s.subrange(start, i));
        } else {
            lemma_ended_shift(s, k, start, i + 1);
        }
    }
}

proof fn lemma_ended_skips(s: Seq<char>, start: int, i: int, j: int)
    requires
        0 <= start <= i <= j <= s.len(),
        forall|k: int| i <= k < j ==> !ends_log_line(#[trigger] s[k]),
    ensures
        ended_from(s, start, i) == ended_from(s, start, j),
        unended_from(s, start, i) == unended_from(s, start, j),
    decreases j - i,
{
    if i < j {
        lemma_ended_skips(s, start, i + 1, j);
    }
}

/// However the output is cut into pieces, the same lines come out of it.
pub proof fn law_lines_do_not_depend_on_chunks(a: Seq<char>, b: Seq<char>)
    ensures
        ended_lines(a + b) == ended_lines(a) + ended_lines(unended_line(a) + b),
        unended_line(a + b) == unended_line(unended_line(a) + b),
{
    let cut = unended_from(a, 0, 0);
    lemma_ended_add(a, b, 0, 0);
    let rest = unended_line(a) + b;
    assert((a + b).skip(cut) =~= rest);
    lemma_ended_shift(a + b, cut, cut, a.len() as int);
    assert forall|k: int| 0 <= k < a.len() - cut implies !ends_log_line(#[trigger] rest[k]) by {
        assert(rest[k] == a[k + cut]);
    }
    lemma_ended_skips(rest, 0, 0, a.len() - cut);
    lemma_ended_add(a + b, Seq::empty(), 0, 0);
    lemma_ended_add(rest, Seq::empty(), 0, 0);
    assert((a + b).skip(unended_from(a + b, 0, 0)) =~= rest.skip(unended_from(rest, 0, 0)));
}

// ---------------------------------------------------------------------------
// The process
// ---------------------------------------------------------------------------

/// What a process is sent.
#[derive(Debug, Clone, Copy, PartialEq, Eq, Structural)]
pub enum Signal {
    Stop,
    Continue,
    Kill,
}

/// What happens to a run of FFmpeg that others may pause, resume and cancel.
#[derive(Debug, Clone, Copy, PartialEq, Eq, Structural)]
pub enum ControlEvent {
    Attach,
    Detach,
    Cancel,
    Shutdown,
    Pause,
    Resume,
    /// The process could not be told to go on.
    ResumeRefused,
    Progress(Option<u64>),
}

/// The state of such a run.
#[derive(Debug, Clone, Copy, PartialEq, Eq, Structural)]
pub struct ProcessControl {
    pub running: bool,
    pub cancelled: bool,
    pub paused: bool,
    /// Whether a resumed run has yet to show that it goes on.
    pub pending: bool,
    pub for_shutdown: bool,
    pub out_time_ms: u64,
    /// How far the run had come when it was resumed.
    pub resume_out_time_ms: u64,
}

/// The reason why a cancelled run is neither paused nor resumed.
pub const ALREADY_CANCELLED: &'static str = "download is already cancelled";

impl ProcessControl {
    /// The state after an event.
    pub open spec fn after(self, event: ControlEvent) -> ProcessControl {
        match event {
            ControlEvent::Attach => ProcessControl { running: true, ..self },
            ControlEvent::Detach => ProcessControl { running: false, ..self },
            ControlEvent::Cancel => ProcessControl { cancelled: true, ..self },
            ControlEvent::Shutdown => ProcessControl {
                cancelled: true,
                for_shutdown: true,
                ..self
            },
            ControlEvent::Pause => if self.cancelled {
                self
            } else {
                ProcessControl { paused: true, ..self }
            },
            ControlEvent::Resume => if self.cancelled {
                self
            } else {
                ProcessControl {
                    paused: false,
                    pending: self.pending || self.running,
                    resume_out_time_ms: self.out_time_ms,
                    ..self
                }
            },
            ControlEvent::ResumeRefused => ProcessControl { pending: false, ..self },
            ControlEvent::Progress(None) => self,
            ControlEvent::Progress(Some(time)) => ProcessControl {
                out_time_ms: if time > self.out_time_ms {
                    time
                } else {
                    self.out_time_ms
                },
                pending: self.pending && time <= self.resume_out_time_ms,
                ..self
            },
        }
    }

    /// The state after events, one after the other.
    pub open spec fn after_all(self, events: Seq<ControlEvent>) -> ProcessControl
        decreases events.len(),
    {
        if events.len() == 0 {
            self
        } else {
            self.after_all(events.drop_last()).after(events.last())
        }
    }

    /// The state before anything has happened.
    pub open spec fn idle() -> ProcessControl {
        ProcessControl {
            running: false,
            cancelled: false,
            paused: false,
            pending: false,
            for_shutdown: false,
            out_time_ms: 0,
            resume_out_time_ms: 0,
        }
    }

    pub fn new() -> (r: ProcessControl)
        ensures
            r == ProcessControl::idle(),
    {
        ProcessControl {
            running: false,
            cancelled: false,
            paused: false,
            pending: false,
            for_shutdown: false,
            out_time_ms: 0,
            resume_out_time_ms: 0,
        }
    }

    /// Cancel the run, as its user asked; a process that runs is killed.
    pub fn cancel(&mut self) -> (r: Option<Signal>)
        ensures
            *final(self) == old(self).after(ControlEvent::Cancel),
            r == (if old(self).running {
                Some(Signal::Kill)
            } else {
                None
            }),
    {
        self.cancelled = true;
        if self.running {
            Some(Signal::Kill)
        } else {
            None
        }
    }

    /// Cancel the run because the host ends.
    pub fn cancel_for_shutdown(&mut self) -> (r: Option<Signal>)
        ensures
            *final(self) == old(self).after(ControlEvent::Shutdown),
            r == (if old(self).running {
                Some(Signal::Kill)
            } else {
                None
            }),
    {
        self.for_shutdown = true;
        self.cancel()
    }

    /// Whether the user, and not the end of the host, cancelled the run.
    pub fn cancelled_by_request(&self) -> (r: bool)
        ensures
            r == (self.cancelled && !self.for_shutdown),
    {
        self.cancelled && !self.for_shutdown
    }

    /// Pause the run; a process that runs is stopped.
    pub fn pause(&mut self) -> (r: Result<Option<Signal>, String>)
        ensures
            *final(self) == old(self).after(ControlEvent::Pause),
            match r {
                Ok(signal) => !old(self).cancelled && signal == (if old(self).running {
                    Some(Signal::Stop)
                } else {
                    None
                }),
                Err(reason) => old(self).cancelled && reason@ == ALREADY_CANCELLED@,
            },
    {
        if self.cancelled {
            return Err(text::owned(ALREADY_CANCELLED));
        }
        self.paused = true;
        Ok(
            if self.running {
                Some(Signal::Stop)
            } else {
                None
            },
        )
    }

    /// Let the run go on; a process that runs is continued, and owes progress
    /// then.
    pub fn resume(&mut self) -> (r: Result<Option<Signal>, String>)
        ensures
            *final(self) == old(self).after(ControlEvent::Resume),
            match r {
                Ok(signal) => !old(self).cancelled && signal == (if old(self).running {
                    Some(Signal::Continue)
                } else {
                    None
                }),
                Err(reason) => old(self).cancelled && reason@ == ALREADY_CANCELLED@,
            },
    {
        if self.cancelled {
            return Err(text::owned(ALREADY_CANCELLED));
        }
        self.paused = false;
        self.resume_out_time_ms = self.out_time_ms;
        self.pending = self.pending || self.running;
        Ok(
            if self.running {
                Some(Signal::Continue)
            } else {
                None
            },
        )
    }

    /// The process could not be told to go on.
    pub fn resume_refused(&mut self)
        ensures
            *final(self) == old(self).after(ControlEvent::ResumeRefused),
    {
        self.pending = false;
    }

    /// Take note of progress. Progress past the point of the resume shows that
    /// the run goes on.
    pub fn note_progress(&mut self, out_time_ms: Option<u64>)
        ensures
            *final(self) == old(self).after(ControlEvent::Progress(out_time_ms)),
    {
        if let Some(time) = out_time_ms {
            if time > self.out_time_ms {
                self.out_time_ms = time;
            }
            if time > self.resume_out_time_ms {
                self.pending = false;
            }
        }
    }

    pub fn resume_pending(&self) -> (r: bool)
        ensures
            r == self.pending,
    {
        self.pending
    }

    pub fn is_cancelled(&self) -> (r: bool)
        ensures
            r == self.cancelled,
    {
        self.cancelled
    }

    pub fn is_paused(&self) -> (r: bool)
        ensures
            r == self.paused,
    {
        self.paused
    }

    /// A process was started for the run. It is killed at once if the run was
    /// cancelled before it started, and stopped if the run was paused.
    pub fn attach(&mut self) -> (r: Option<Signal>)
        ensures
            *final(self) == old(self).after(ControlEvent::Attach),
            r == (if old(self).cancelled {
                Some(Signal::Kill)
            } else if old(self).paused {
                Some(Signal::Stop)
            } else {
                None
            }),
    {
        self.running = true;
        if self.cancelled {
            Some(Signal::Kill)
        } else if self.paused {
            Some(Signal::Stop)
        } else {
            None
        }
    }

    /// The process has ended.
    pub fn detach(&mut self)
        ensures
            *final(self) == old(self).after(ControlEvent::Detach),
    {
        self.running = false;
    }
}

impl Default for ProcessControl {
    fn default() -> (r: ProcessControl)
        ensures
            r == ProcessControl::idle(),
    {
        ProcessControl::new()
    }
}

/// A run that was cancelled stays cancelled, whatever else happens to it, and
/// one that was cancelled by the end of the host never counts as cancelled by
/// its user.
pub proof fn law_cancellation_is_final(c: ProcessControl, events: Seq<ControlEvent>)
    requires
        c.cancelled,
    ensures
        c.after_all(events).cancelled,
        c.for_shutdown ==> c.after_all(events).for_shutdown,
    decreases events.len(),
{
    if events.len() > 0 {
        law_cancellation_is_final(c, events.drop_last());
    }
}

/// A run that is resumed while its process runs is pending until it makes progress past the point at which it
/// was resumed; repeated or earlier progress does not end the wait.
pub proof fn law_resume_waits_for_progress(c: ProcessControl, times: Seq<Option<u64>>)
    requires
        !c.cancelled,
        c.running,
        forall|i: int|
            0 <= i < times.len() ==> (#[trigger] times[i] matches Some(t) ==> t <= c.out_time_ms),
    ensures
        c.after(ControlEvent::Resume).after_all(
            Seq::new(times.len(), |i: int| ControlEvent::Progress(times[i])),
        ).pending,
        c.after(ControlEvent::Resume).after_all(
            Seq::new(times.len(), |i: int| ControlEvent::Progress(times[i])),
        ).resume_out_time_ms == c.out_time_ms,
    decreases times.len(),
{
    let events = Seq::new(times.len(), |i: int| ControlEvent::Progress(times[i]));
    if times.len() > 0 {
        let fewer = times.drop_last();
        law_resume_waits_for_progress(c, fewer);
        assert(events.drop_last() =~= Seq::new(
            fewer.len(),
            |i: int| ControlEvent::Progress(fewer[i]),
        ));
        assert(events.last() == ControlEvent::Progress(times[times.len() - 1]));
    }
}

// ---------------------------------------------------------------------------
// Outcomes
// ---------------------------------------------------------------------------

/// The failure of an FFmpeg that could not be started: one that is not there or
/// may not be run is unavailable, any other failed.
pub fn spawn_failure(unavailable: bool, program: &str, reason: &str) -> (r: DownerError)
    ensures
        match r {
            DownerError::FfmpegUnavailable(path) => unavailable && path@ == program@,
            DownerError::FfmpegFailed { status, stderr } => !unavailable && status is None
                && stderr@ == reason@,
            _ => false,
        },
{
    if unavailable {
        DownerError::FfmpegUnavailable(text::owned(program))
    } else {
        DownerError::FfmpegFailed { status: None, stderr: text::owned(reason) }
    }
}

/// The output of a run, with what went wrong while its progress was read.
pub open spec fn with_progress_error(stderr: Seq<char>, error: Option<Seq<char>>) -> Seq<char> {
    match error {
        Some(e) => if stderr.len() > 0 {
            stderr + "\n"@ + e
        } else {
            e
        },
        None => stderr,
    }
}

/// The outcome of a run that has ended: the file it wrote, or its failure.
pub fn finished(
    output: &str,
    success: bool,
    status: Option<i32>,
    stderr: &str,
    progress_error: &Option<String>,
) -> (r: Result<String, DownerError>)
    ensures
        match r {
            Ok(path) => success && path@ == output@,
            Err(DownerError::FfmpegFailed { status: s, stderr: e }) => !success && s == status
                && e@ == with_progress_error(stderr@, text::opt_text(*progress_error)),
            Err(_) => false,
        },
{
    if success {
        return Ok(text::owned(output));
    }
    let mut all = text::owned(stderr);
    if let Some(error) = progress_error {
        if text::chars_of(stderr).len() > 0 {
            all.append("\n");
        }
        all.append(error.as_str());
        assert(all@ =~= with_progress_error(stderr@, text::opt_text(*progress_error)));
    }
    Err(DownerError::FfmpegFailed { status, stderr: all })
}

} // verus!
