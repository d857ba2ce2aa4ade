//! Checking that the program is set up to work.

use vstd::prelude::*;
use crate::{ffmpeg, host, text};
use crate::ffmpeg::FfmpegVersion;
use crate::host::{HostPaths, HostPathsView, Platform};

verus! {

/// The version of this program.
pub const HOST_VERSION: &'static str = "0.5.0";

/// What came of a check.
#[derive(Debug, Clone, Copy, PartialEq, Eq, Structural)]
pub enum Outcome {
    Pass,
    Warn,
    Fail,
}

impl Outcome {
    pub fn is_failure(self) -> (r: bool)
        ensures
            r == (self == Outcome::Fail),
    {
        match self {
            Outcome::Fail => true,
            _ => false,
        }
    }

    pub open spec fn text(self) -> Seq<char> {
        match self {
            Outcome::Pass => "ok"@,
            Outcome::Warn => "warning"@,
            Outcome::Fail => "failed"@,
        }
    }

    /// The outcome in a word.
    pub fn as_str(self) -> (r: &'static str)
        ensures
            r@ == self.text(),
    {
        match self {
            Outcome::Pass => "ok",
            Outcome::Warn => "warning",
            Outcome::Fail => "failed",
        }
    }
}

/// One check: what it found, and what mends it.
#[derive(Debug)]
pub struct Check {
    pub name: &'static str,
    pub title: &'static str,
    pub outcome: Outcome,
    pub detail: String,
    pub remedy: Option<String>,
}

#[verifier::ext_equal]
pub struct CheckView {
    pub name: Seq<char>,
    pub title: Seq<char>,
    pub outcome: Outcome,
    pub detail: Seq<char>,
    pub remedy: Option<Seq<char>>,
}

impl View for Check {
    type V = CheckView;

    open spec fn view(&self) -> CheckView {
        CheckView {
            name: self.name@,
            title: self.title@,
            outcome: self.outcome,
            detail: self.detail@,
            remedy: text::opt_text(self.remedy),
        }
    }
}

pub open spec fn check_views(v: Seq<Check>) -> Seq<CheckView> {
    Seq::new(v.len(), |i: int| v[i]@)
}

pub open spec fn passed(name: Seq<char>, title: Seq<char>, detail: Seq<char>) -> CheckView {
    CheckView { name, title, outcome: Outcome::Pass, detail, remedy: None }
}

pub open spec fn warned(
    name: Seq<char>,
    title: Seq<char>,
    detail: Seq<char>,
    remedy: Seq<char>,
) -> CheckView {
    CheckView { name, title, outcome: Outcome::Warn, detail, remedy: Some(remedy) }
}

pub open spec fn failed(
    name: Seq<char>,
    title: Seq<char>,
    detail: Seq<char>,
    remedy: Seq<char>,
) -> CheckView {
    CheckView { name, title, outcome: Outcome::Fail, detail, remedy: Some(remedy) }
}

impl Check {
    fn pass(name: &'static str, title: &'static str, detail: String) -> (r: Check)
        ensures
            r@ == passed(name@, title@, detail@),
    {
        Check { name, title, outcome: Outcome::Pass, detail, remedy: None }
    }

    fn warn(name: &'static str, title: &'static str, detail: String, remedy: String) -> (r: Check)
        ensures
            r@ == warned(name@, title@, detail@, remedy@),
    {
        Check { name, title, outcome: Outcome::Warn, detail, remedy: Some(remedy) }
    }

    fn fail(name: &'static str, title: &'static str, detail: String, remedy: &str) -> (r: Check)
        ensures
            r@ == failed(name@, title@, detail@, remedy@),
    {
        Check { name, title, outcome: Outcome::Fail, detail, remedy: Some(text::owned(remedy)) }
    }
}

/// What all checks found.
#[derive(Debug)]
pub struct Report {
    pub host_version: &'static str,
    pub protocol_version: u32,
    pub platform: &'static str,
    pub ffmpeg_path: Option<String>,
    pub ffmpeg_version: Option<String>,
    /// Whether FFmpeg runs and is new enough.
    pub ffmpeg_ok: bool,
    /// Where the native host writes its log.
    pub log_path: Option<String>,
    pub checks: Vec<Check>,
}

/// The worst outcome among some checks.
pub open spec fn worst(v: Seq<CheckView>) -> Outcome {
    if exists|i: int| 0 <= i < v.len() && (#[trigger] v[i]).outcome == Outcome::Fail {
        Outcome::Fail
    } else if exists|i: int| 0 <= i < v.len() && (#[trigger] v[i]).outcome == Outcome::Warn {
        Outcome::Warn
    } else {
        Outcome::Pass
    }
}

impl Report {
    /// The worst outcome among the checks.
    pub fn outcome(&self) -> (r: Outcome)
        ensures
            r == worst(check_views(self.checks@)),
    {
        let ghost v = check_views(self.checks@);
        let mut warned: bool = false;
        let mut i: usize = 0;
        while i < self.checks.len()
            invariant
                v == check_views(self.checks@),
                i <= self.checks@.len(),
                forall|k: int| 0 <= k < i ==> (#[trigger] v[k]).outcome != Outcome::Fail,
                warned == exists|k: int| 0 <= k < i && (#[trigger] v[k]).outcome == Outcome::Warn,
            decreases self.checks@.len() - i,
        {
            assert(v[i as int] == self.checks@[i as int]@);
            match self.checks[i].outcome {
                Outcome::Fail => {
                    assert(v[i as int].outcome == Outcome::Fail);
                    return Outcome::Fail;
                },
                Outcome::Warn => {
                    assert(v[i as int].outcome == Outcome::Warn);
                    warned = true;
                },
                Outcome::Pass => {},
            }
            i = i + 1;
        }
        if warned {
            Outcome::Warn
        } else {
            Outcome::Pass
        }
    }
}

// ---------------------------------------------------------------------------
// The checks
// ---------------------------------------------------------------------------

pub open spec fn platform_verdict(platform: Platform) -> CheckView {
    match platform {
        Platform::Unsupported(os) => failed(
            "platform"@,
            "Supported platform"@,
            "native host installation is supported on macOS and Linux, not on "@ + os@,
            "Downloads may work, but the native host cannot be registered with Firefox here. Use the command line on this platform, or macOS or Linux for the extension."@,
        ),
        _ => passed("platform"@, "Supported platform"@, platform.name_text()),
    }
}

pub fn platform_check(platform: Platform) -> (r: Check)
    ensures
        r@ == platform_verdict(platform),
{
    match platform {
        Platform::Unsupported(os) => Check::fail(
            "platform",
            "Supported platform",
            host::unsupported_platform_message(os),
            "Downloads may work, but the native host cannot be registered with Firefox here. Use the command line on this platform, or macOS or Linux for the extension.",
        ),
        _ => Check::pass("platform", "Supported platform", text::owned(platform.name())),
    }
}

/// Whether the host is registered: its manifest is there, and so is the launcher
/// that the manifest names.
pub open spec fn registration_verdict(
    paths: Result<HostPathsView, Seq<char>>,
    manifest_there: bool,
    launcher_there: bool,
) -> CheckView {
    let name = "host_registration"@;
    let title = "Native host registered with Firefox"@;
    match paths {
        Err(reason) => failed(
            name,
            title,
            reason,
            "Set HOME to a writable home directory and run `downer install-host`."@,
        ),
        Ok(p) => if !manifest_there {
            failed(
                name,
                title,
                "no manifest at "@ + p.manifest,
                "Run `downer install-host` to register the host with Firefox."@,
            )
        } else if !launcher_there {
            failed(
                name,
                title,
                p.manifest + " registered, but its launcher "@ + p.launcher + " is missing"@,
                "Run `downer install-host` again to rewrite the launcher."@,
            )
        } else {
            passed(name, title, p.manifest)
        },
    }
}

pub open spec fn paths_result(r: Result<HostPaths, String>) -> Result<HostPathsView, Seq<char>> {
    match r {
        Ok(p) => Ok(p@),
        Err(e) => Err(e@),
    }
}

pub fn host_registration_check(
    paths: &Result<HostPaths, String>,
    manifest_there: bool,
    launcher_there: bool,
) -> (r: Check)
    ensures
        r@ == registration_verdict(paths_result(*paths), manifest_there, launcher_there),
{
    match paths {
        Err(reason) => Check::fail(
            "host_registration",
            "Native host registered with Firefox",
            text::owned(reason.as_str()),
            "Set HOME to a writable home directory and run `downer install-host`.",
        ),
        Ok(p) => {
            if !manifest_there {
                return Check::fail(
                    "host_registration",
                    "Native host registered with Firefox",
                    text::join2("no manifest at ", p.manifest.as_str()),
                    "Run `downer install-host` to register the host with Firefox.",
                );
            }
            if !launcher_there {
                let mut detail = text::join3(
                    p.manifest.as_str(),
                    " registered, but its launcher ",
                    p.launcher.as_str(),
                );
                detail.append(" is missing");
                return Check::fail(
                    "host_registration",
                    "Native host registered with Firefox",
                    detail,
                    "Run `downer install-host` again to rewrite the launcher.",
                );
            }
            Check::pass(
                "host_registration",
                "Native host registered with Firefox",
                text::owned(p.manifest.as_str()),
            )
        },
    }
}

pub open spec fn ffmpeg_verdict(path: Seq<char>, version: Option<FfmpegVersion>) -> CheckView {
    let name = "ffmpeg"@;
    let title = "FFmpeg available"@;
    match version {
        None => failed(
            name,
            title,
            path + " could not be run"@,
            "Install FFmpeg 7.1 or newer, then record it with `downer install-host --ffmpeg /path/to/ffmpeg`."@,
        ),
        Some(v) => if v.is_supported() {
            passed(name, title, path + " is FFmpeg "@ + v.text())
        } else {
            warned(
                name,
                title,
                path + " is FFmpeg "@ + v.text(),
                "FFmpeg "@ + v.text() + " is older than the minimum supported "@
                    + ffmpeg::minimum_version().text()
                    + ". HLS downloads are attempted without the segment-extension options and may fail. Upgrade FFmpeg, then record it with `downer install-host --ffmpeg /path/to/ffmpeg`."@,
            )
        },
    }
}

pub fn ffmpeg_check(path: &str, version: Option<FfmpegVersion>) -> (r: Check)
    ensures
        r@ == ffmpeg_verdict(path@, version),
{
    let v = match version {
        Some(v) => v,
        None => {
            return Check::fail(
                "ffmpeg",
                "FFmpeg available",
                text::join2(path, " could not be run"),
                "Install FFmpeg 7.1 or newer, then record it with `downer install-host --ffmpeg /path/to/ffmpeg`.",
            );
        },
    };
    let shown = v.display();
    let detail = text::join3(path, " is FFmpeg ", shown.as_str());
    if v.meets_minimum() {
        return Check::pass("ffmpeg", "FFmpeg available", detail);
    }
    let mut remedy = text::join3("FFmpeg ", shown.as_str(), " is older than the minimum supported ");
    remedy.append(ffmpeg::minimum_ffmpeg().display().as_str());
    remedy.append(
        ". HLS downloads are attempted without the segment-extension options and may fail. Upgrade FFmpeg, then record it with `downer install-host --ffmpeg /path/to/ffmpeg`.",
    );
    Check::warn("ffmpeg", "FFmpeg available", detail, remedy)
}

/// What is known of a directory: whether something is there, whether that is a
/// directory, the nearest thing above it that is there, and why the directory
/// that would be written to refused a trial.
#[derive(Debug)]
pub struct DirectoryFacts {
    pub exists: bool,
    pub is_dir: bool,
    pub ancestor: Option<Ancestor>,
    pub refusal: Option<String>,
}

#[derive(Debug)]
pub struct Ancestor {
    pub path: String,
    pub is_dir: bool,
}

pub open spec fn directory_verdict(directory: Seq<char>, facts: DirectoryFacts) -> CheckView {
    let name = "output_directory"@;
    let title = "Download directory writable"@;
    if !facts.exists {
        match facts.ancestor {
            None => failed(
                name,
                title,
                directory + " does not exist and neither does any parent of it"@,
                "Choose an existing directory on the Settings page."@,
            ),
            Some(above) => if !above.is_dir {
                failed(
                    name,
                    title,
                    directory + " cannot be created: "@ + above.path@ + " is a file"@,
                    "Choose a directory whose parents are directories, on the Settings page."@,
                )
            } else {
                match text::opt_text(facts.refusal) {
                    None => passed(name, title, directory + " (will be created)"@),
                    Some(why) => failed(
                        name,
                        title,
                        directory + " does not exist and cannot be created: "@ + above.path@
                            + " is not writable ("@ + why + ")"@,
                        "Choose a directory you can write to on the Settings page, or fix its permissions."@,
                    ),
                }
            },
        }
    } else if !facts.is_dir {
        failed(
            name,
            title,
            directory + " is not a directory"@,
            "Choose a directory rather than a file on the Settings page."@,
        )
    } else {
        match text::opt_text(facts.refusal) {
            None => passed(name, title, directory),
            Some(why) => failed(
                name,
                title,
                directory + " cannot be written to: "@ + why,
                "Choose a directory you can write to on the Settings page, or fix its permissions."@,
            ),
        }
    }
}

pub fn output_directory_check(directory: &str, facts: &DirectoryFacts) -> (r: Check)
    ensures
        r@ == directory_verdict(directory@, *facts),
{
    if !facts.exists {
        let above = match &facts.ancestor {
            Some(a) => a,
            None => {
                return Check::fail(
                    "output_directory",
                    "Download directory writable",
                    text::join2(directory, " does not exist and neither does any parent of it"),
                    "Choose an existing directory on the Settings page.",
                );
            },
        };
        if !above.is_dir {
            let mut detail = text::join3(directory, " cannot be created: ", above.path.as_str());
            detail.append(" is a file");
            return Check::fail(
                "output_directory",
                "Download directory writable",
                detail,
                "Choose a directory whose parents are directories, on the Settings page.",
            );
        }
        return match &facts.refusal {
            None => Check::pass(
                "output_directory",
                "Download directory writable",
                text::join2(directory, " (will be created)"),
            ),
            Some(why) => {
                let mut detail = text::join3(
                    directory,
                    " does not exist and cannot be created: ",
                    above.path.as_str(),
                );
                detail.append(" is not writable (");
                detail.append(why.as_str());
                detail.append(")");
                Check::fail(
                    "output_directory",
                    "Download directory writable",
                    detail,
                    "Choose a directory you can write to on the Settings page, or fix its permissions.",
                )
            },
        };
    }
    if !facts.is_dir {
        return Check::fail(
            "output_directory",
            "Download directory writable",
            text::join2(directory, " is not a directory"),
            "Choose a directory rather than a file on the Settings page.",
        );
    }
    match &facts.refusal {
        None => Check::pass("output_directory", "Download directory writable", text::owned(directory)),
        Some(why) => Check::fail(
            "output_directory",
            "Download directory writable",
            text::join3(directory, " cannot be written to: ", why.as_str()),
            "Choose a directory you can write to on the Settings page, or fix its permissions.",
        ),
    }
}

/// The directory that is tried: the one asked about, or the nearest one above it
/// that is there; none if nothing could be written there anyhow.
pub fn probed_directory(directory: &str, facts: &DirectoryFacts) -> (r: Option<String>)
    ensures
        text::opt_text(r) == (if facts.exists {
            if facts.is_dir {
                Some(directory@)
            } else {
                None
            }
        } else {
            match facts.ancestor {
                Some(above) => if above.is_dir {
                    Some(above.path@)
                } else {
                    None
                },
                None => None,
            }
        }),
{
    if facts.exists {
        if facts.is_dir {
            Some(text::owned(directory))
        } else {
            None
        }
    } else {
        match &facts.ancestor {
            Some(above) => if above.is_dir {
                Some(text::owned(above.path.as_str()))
            } else {
                None
            },
            None => None,
        }
    }
}

// ---------------------------------------------------------------------------
// The report
// ---------------------------------------------------------------------------

/// What the checks look at.
#[derive(Debug)]
pub struct SetupFacts {
    pub platform: Platform,
    pub paths: Result<HostPaths, String>,
    pub manifest_there: bool,
    pub launcher_there: bool,
    pub ffmpeg: String,
    pub ffmpeg_version: Option<FfmpegVersion>,
    /// The directory that downloads go to, if it is checked.
    pub directory: Option<(String, DirectoryFacts)>,
    pub log_path: Option<String>,
}

/// The checks that some facts lead to, in order.
pub open spec fn verdicts(facts: SetupFacts) -> Seq<CheckView> {
    seq![
        platform_verdict(facts.platform),
        registration_verdict(
            paths_result(facts.paths),
            facts.manifest_there,
            facts.launcher_there,
        ),
        ffmpeg_verdict(facts.ffmpeg@, facts.ffmpeg_version),
    ] + (match facts.directory {
        Some(d) => seq![directory_verdict(d.0@, d.1)],
        None => Seq::empty(),
    })
}

/// Check the setup.
pub fn run(facts: &SetupFacts, protocol_version: u32) -> (r: Report)
    ensures
        r.host_version@ == HOST_VERSION@,
        r.protocol_version == protocol_version,
        r.platform@ == facts.platform.name_text(),
        text::opt_text(r.ffmpeg_path) == Some(facts.ffmpeg@),
        text::opt_text(r.ffmpeg_version) == (match facts.ffmpeg_version {
            Some(v) => Some(v.text()),
            None => None,
        }),
        r.ffmpeg_ok == (facts.ffmpeg_version matches Some(v) && v.is_supported()),
        text::opt_text(r.log_path) == text::opt_text(facts.log_path),
        check_views(r.checks@) == verdicts(*facts),
{
    let mut checks: Vec<Check> = Vec::new();
    checks.push(platform_check(facts.platform));
    checks.push(
        host_registration_check(&facts.paths, facts.manifest_there, facts.launcher_there),
    );
    checks.push(ffmpeg_check(facts.ffmpeg.as_str(), facts.ffmpeg_version));
    if let Some(d) = &facts.directory {
        checks.push(output_directory_check(d.0.as_str(), &d.1));
    }
    assert(check_views(checks@) =~= verdicts(*facts));
    Report {
        host_version: HOST_VERSION,
        protocol_version,
        platform: facts.platform.name(),
        ffmpeg_path: Some(text::owned(facts.ffmpeg.as_str())),
        ffmpeg_version: match facts.ffmpeg_version {
            Some(v) => Some(v.display()),
            None => None,
        },
        ffmpeg_ok: match facts.ffmpeg_version {
            Some(v) => v.meets_minimum(),
            None => false,
        },
        log_path: text::copy_opt(&facts.log_path),
        checks,
    }
}

// ---------------------------------------------------------------------------
// The report in words
// ---------------------------------------------------------------------------

/// What is said of the directory that the extension uses, where it may be taken
/// for the one that was checked.
pub open spec fn directory_note(extension_dir: Option<Seq<char>>) -> Seq<char> {
    "      note: this is the command line's directory. The extension uses "@ + (
    match extension_dir {
        Some(d) => d,
        None => "no default — set one on its Settings page"@,
    })
}

/// The lines of a check.
pub open spec fn check_lines(
    c: CheckView,
    dir_given: bool,
    extension_dir: Option<Seq<char>>,
) -> Seq<Seq<char>> {
    seq!["["@ + c.outcome.text() + "] "@ + c.title, "      "@ + c.detail] + (match c.remedy {
        Some(remedy) => seq!["      → "@ + remedy],
        None => Seq::empty(),
    }) + (if c.name == "output_directory"@ && !dir_given {
        seq![directory_note(extension_dir)]
    } else {
        Seq::empty()
    })
}

pub open spec fn all_check_lines(
    v: Seq<CheckView>,
    dir_given: bool,
    extension_dir: Option<Seq<char>>,
) -> Seq<Seq<char>>
    decreases v.len(),
{
    if v.len() == 0 {
        Seq::empty()
    } else {
        all_check_lines(v.drop_last(), dir_given, extension_dir) + check_lines(
            v.last(),
            dir_given,
            extension_dir,
        )
    }
}

/// A report in words.
pub open spec fn report_lines(
    host_version: Seq<char>,
    protocol_version: u32,
    platform: Seq<char>,
    log_path: Option<Seq<char>>,
    checks: Seq<CheckView>,
    dir_given: bool,
    extension_dir: Option<Seq<char>>,
) -> Seq<Seq<char>> {
    seq![
        "downer "@ + host_version + " (protocol "@ + text::decimal(protocol_version as nat) + "), "@
            + platform,
        ""@,
    ] + all_check_lines(checks, dir_given, extension_dir) + (match log_path {
        Some(path) => seq!["Native host log: "@ + path],
        None => Seq::empty(),
    }) + seq![""@]
}

fn push_check(lines: &mut Vec<String>, c: &Check, dir_given: bool, extension_dir: &Option<String>)
    ensures
        text::texts(final(lines)@) == text::texts(old(lines)@) + check_lines(
            c@,
            dir_given,
            text::opt_text(*extension_dir),
        ),
{
    let ghost before = text::texts(lines@);
    let mut head = text::join3("[", c.outcome.as_str(), "] ");
    head.append(c.title);
    text::push_text(lines, head.as_str());
    text::push_text(lines, text::join2("      ", c.detail.as_str()).as_str());
    if let Some(remedy) = &c.remedy {
        text::push_text(lines, text::join2("      → ", remedy.as_str()).as_str());
    }
    if text::same(c.name, "output_directory") && !dir_given {
        let dir = match extension_dir {
            Some(d) => d.as_str(),
            None => "no default — set one on its Settings page",
        };
        text::push_text(
            lines,
            text::join2(
                "      note: this is the command line's directory. The extension uses ",
                dir,
            ).as_str(),
        );
    }
    assert(text::texts(lines@) =~= before + check_lines(c@, dir_given, text::opt_text(*extension_dir)));
}

/// A report in words. `extension_dir` is the directory that the extension uses,
/// which is pointed out unless a directory was asked about.
pub fn doctor_lines(report: &Report, dir_given: bool, extension_dir: &Option<String>) -> (r: Vec<
    String,
>)
    ensures
        text::texts(r@) == report_lines(
            report.host_version@,
            report.protocol_version,
            report.platform@,
            text::opt_text(report.log_path),
            check_views(report.checks@),
            dir_given,
            text::opt_text(*extension_dir),
        ),
{
    let mut r: Vec<String> = Vec::new();
    let mut head = text::join3("downer ", report.host_version, " (protocol ");
    head.append(text::decimal_of(report.protocol_version as u64).as_str());
    head.append("), ");
    head.append(report.platform);
    text::push_text(&mut r, head.as_str());
    text::push_text(&mut r, "");
    let ghost opening = text::texts(r@);
    let ghost views = check_views(report.checks@);
    let mut i: usize = 0;
    assert(views.take(0) =~= Seq::empty());
    assert(opening + Seq::<Seq<char>>::empty() =~= opening);
    while i < report.checks.len()
        invariant
            views == check_views(report.checks@),
            i <= report.checks@.len(),
            text::texts(r@) == opening + all_check_lines(
                views.take(i as int),
                dir_given,
                text::opt_text(*extension_dir),
            ),
        decreases report.checks@.len() - i,
    {
        let ghost next = views.take(i + 1);
        proof {
            assert(next.drop_last() =~= views.take(i as int));
            assert(next.last() == report.checks@[i as int]@);
        }
        push_check(&mut r, &report.checks[i], dir_given, extension_dir);
        i = i + 1;
        assert(text::texts(r@) =~= opening + all_check_lines(next, dir_given, text::opt_text(*extension_dir)));
    }
    assert(views.take(i as int) =~= views);
    if let Some(path) = &report.log_path {
        text::push_text(&mut r, text::join2("Native host log: ", path.as_str()).as_str());
    }
    text::push_text(&mut r, "");
    assert(text::texts(r@) =~= report_lines(
        report.host_version@,
        report.protocol_version,
        report.platform@,
        text::opt_text(report.log_path),
        views,
        dir_given,
        text::opt_text(*extension_dir),
    ));
    r
}

} // verus!
