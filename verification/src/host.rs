//! Registering the native messaging host with the browser.

use vstd::prelude::*;
use crate::{hostlog, paths, text};
use crate::error::{DownerError, DownerResult};
use crate::hostlog::Level;

verus! {

pub const HOST_NAME: &'static str = "com.downer.native";

/// The systems this program knows how to register itself on.
#[derive(Debug, Clone, Copy, PartialEq, Eq)]
pub enum Platform {
    MacOs,
    Linux,
    /// Any other system, by its name.
    Unsupported(&'static str),
}

impl Platform {
    pub open spec fn name_text(self) -> Seq<char> {
        match self {
            Platform::MacOs => "macos"@,
            Platform::Linux => "linux"@,
            Platform::Unsupported(_) => "unsupported"@,
        }
    }

    pub fn name(self) -> (r: &'static str)
        ensures
            r@ == self.name_text(),
    {
        match self {
            Platform::MacOs => "macos",
            Platform::Linux => "linux",
            Platform::Unsupported(_) => "unsupported",
        }
    }
}

/// What is said of a system on which the host cannot be registered.
pub fn unsupported_platform_message(os: &str) -> (r: String)
    ensures
        r@ == "native host installation is supported on macOS and Linux, not on "@ + os@,
{
    text::join2("native host installation is supported on macOS and Linux, not on ", os)
}

// ---------------------------------------------------------------------------
// Places
// ---------------------------------------------------------------------------

/// The files of a registration.
#[derive(Debug)]
pub struct HostPaths {
    pub manifest: String,
    pub launcher: String,
    pub binary: String,
    pub config: String,
}

#[verifier::ext_equal]
pub struct HostPathsView {
    pub manifest: Seq<char>,
    pub launcher: Seq<char>,
    pub binary: Seq<char>,
    pub config: Seq<char>,
}

impl View for HostPaths {
    type V = HostPathsView;

    open spec fn view(&self) -> HostPathsView {
        HostPathsView {
            manifest: self.manifest@,
            launcher: self.launcher@,
            binary: self.binary@,
            config: self.config@,
        }
    }
}

/// Where the browser looks for the manifest; an error where it does not.
pub open spec fn manifest_path(platform: Platform, home: Seq<char>) -> Result<
    Seq<char>,
    Seq<char>,
> {
    match platform {
        Platform::MacOs => Ok(
            paths::joined_path(
                home,
                "Library/Application Support/Mozilla/NativeMessagingHosts/com.downer.native.json"@,
            ),
        ),
        Platform::Linux => Ok(
            paths::joined_path(home, ".mozilla/native-messaging-hosts/com.downer.native.json"@),
        ),
        Platform::Unsupported(_) => Err("native host installation is supported on macOS and Linux"@),
    }
}

/// Where the files of a registration are, given the user's directories; else the
/// reason why that is not known.
pub open spec fn registration_paths(
    platform: Platform,
    home: Option<Seq<char>>,
    data: Option<Seq<char>>,
    config: Option<Seq<char>>,
) -> Result<HostPathsView, Seq<char>> {
    match (home, data, config) {
        (None, _, _) => Err("no home directory: set HOME and try again"@),
        (_, None, _) => Err("no data directory: set HOME and try again"@),
        (_, _, None) => Err("no config directory: set HOME and try again"@),
        (Some(h), Some(d), Some(c)) => match manifest_path(platform, h) {
            Ok(manifest) => Ok(
                HostPathsView {
                    manifest,
                    launcher: paths::joined_path(d, "downer/com.downer.native.sh"@),
                    binary: paths::joined_path(d, "downer/bin/downer"@),
                    config: paths::joined_path(c, "downer/config.json"@),
                },
            ),
            Err(reason) => Err(reason),
        },
    }
}

impl HostPaths {
    pub fn resolve(
        platform: Platform,
        home: &Option<String>,
        data: &Option<String>,
        config: &Option<String>,
    ) -> (r: DownerResult<HostPaths>)
        ensures
            match r {
                Ok(paths) => registration_paths(
                    platform,
                    text::opt_text(*home),
                    text::opt_text(*data),
                    text::opt_text(*config),
                ) == Ok::<HostPathsView, Seq<char>>(paths@),
                Err(DownerError::Host(reason)) => registration_paths(
                    platform,
                    text::opt_text(*home),
                    text::opt_text(*data),
                    text::opt_text(*config),
                ) == Err::<HostPathsView, Seq<char>>(reason@),
                Err(_) => false,
            },
    {
        let home = match home {
            Some(h) => h,
            None => {
                return Err(DownerError::Host(text::owned("no home directory: set HOME and try again")));
            },
        };
        let data = match data {
            Some(d) => d,
            None => {
                return Err(DownerError::Host(text::owned("no data directory: set HOME and try again")));
            },
        };
        let config = match config {
            Some(c) => c,
            None => {
                return Err(
                    DownerError::Host(text::owned("no config directory: set HOME and try again")),
                );
            },
        };
        let manifest = match platform {
            Platform::MacOs => paths::join_path(
                home.as_str(),
                "Library/Application Support/Mozilla/NativeMessagingHosts/com.downer.native.json",
            ),
            Platform::Linux => paths::join_path(
                home.as_str(),
                ".mozilla/native-messaging-hosts/com.downer.native.json",
            ),
            Platform::Unsupported(_) => {
                return Err(
                    DownerError::Host(
                        text::owned("native host installation is supported on macOS and Linux"),
                    ),
                );
            },
        };
        Ok(
            HostPaths {
                manifest,
                launcher: paths::join_path(data.as_str(), "downer/com.downer.native.sh"),
                binary: paths::join_path(data.as_str(), "downer/bin/downer"),
                config: paths::join_path(config.as_str(), "downer/config.json"),
            },
        )
    }
}

// ---------------------------------------------------------------------------
// Installing
// ---------------------------------------------------------------------------

#[derive(Debug)]
pub struct InstallOptions {
    /// Whether the running binary is used where it is.
    pub link: bool,
    /// Whether this is a registration for development.
    pub dev: bool,
    pub ffmpeg: Option<String>,
}

impl Default for InstallOptions {
    fn default() -> (r: InstallOptions)
        ensures
            !r.link && !r.dev && r.ffmpeg is None,
    {
        InstallOptions { link: false, dev: false, ffmpeg: None }
    }
}

#[derive(Debug)]
pub struct InstallReport {
    pub manifest: String,
    pub launcher: String,
    pub binary: String,
    /// Whether the binary was copied to where it is run from.
    pub copied: bool,
    pub dev: bool,
    pub ffmpeg: Option<String>,
}

#[derive(Debug)]
pub struct UninstallOptions {
    /// Whether the installed binary is removed too.
    pub binary: bool,
}

impl Default for UninstallOptions {
    fn default() -> (r: UninstallOptions)
        ensures
            !r.binary,
    {
        UninstallOptions { binary: false }
    }
}

#[derive(Debug)]
pub struct UninstallReport {
    pub removed: Vec<String>,
}

impl Default for UninstallReport {
    fn default() -> (r: UninstallReport)
        ensures
            r.removed@.len() == 0,
    {
        UninstallReport { removed: Vec::new() }
    }
}

/// Whether two optional paths are there and the same.
pub open spec fn both_same(a: Option<Seq<char>>, b: Option<Seq<char>>) -> bool {
    a is Some && b is Some && paths::same_path(a->0, b->0)
}

fn same_present(a: &Option<String>, b: &Option<String>) -> (r: bool)
    ensures
        r == both_same(text::opt_text(*a), text::opt_text(*b)),
{
    match (a, b) {
        (Some(x), Some(y)) => paths::is_same_path(x.as_str(), y.as_str()),
        _ => false,
    }
}

/// Whether a binary stays where it is: it is the installed one, or lies in a
/// directory for programs.
pub fn is_stable_location(
    current: &str,
    parent: &Option<String>,
    executable_dir: &Option<String>,
    cargo_dir: &Option<String>,
    paths: &HostPaths,
) -> (r: bool)
    ensures
        r == (paths::same_path(current@, paths@.binary) || both_same(
            text::opt_text(*parent),
            text::opt_text(*executable_dir),
        )
            || both_same(text::opt_text(*parent), text::opt_text(*cargo_dir))),
{
    paths::is_same_path(current, paths.binary.as_str()) || same_present(parent, executable_dir)
        || same_present(parent, cargo_dir)
}

/// Where Cargo installs programs.
pub fn cargo_bin_dir(cargo_home: &Option<String>, home: &Option<String>) -> (r: Option<String>)
    ensures
        text::opt_text(r) == match (text::opt_text(*cargo_home), text::opt_text(*home)) {
            (Some(c), _) => Some(paths::joined_path(c, "bin"@)),
            (None, Some(h)) => Some(paths::joined_path(h, ".cargo/bin"@)),
            (None, None) => None,
        },
{
    match cargo_home {
        Some(c) => Some(paths::join_path(c.as_str(), "bin")),
        None => match home {
            Some(h) => Some(paths::join_path(h.as_str(), ".cargo/bin")),
            None => None,
        },
    }
}

/// Plan an installation: which binary is registered, and whether it is copied
/// first. A binary that is linked, or that stays where it is, is not copied.
pub fn plan_install(
    options: &InstallOptions,
    paths: &HostPaths,
    current: &str,
    stable: bool,
    ffmpeg: Option<String>,
) -> (r: InstallReport)
    ensures
        r.manifest@ == paths@.manifest,
        r.launcher@ == paths@.launcher,
        r.copied == !(options.link || options.dev || stable),
        r.binary@ == (if r.copied {
            paths@.binary
        } else {
            current@
        }),
        r.dev == options.dev,
        text::opt_text(r.ffmpeg) == text::opt_text(ffmpeg),
{
    let copied = !(options.link || options.dev || stable);
    InstallReport {
        manifest: text::owned(paths.manifest.as_str()),
        launcher: text::owned(paths.launcher.as_str()),
        binary: if copied {
            text::owned(paths.binary.as_str())
        } else {
            text::owned(current)
        },
        copied,
        dev: options.dev,
        ffmpeg,
    }
}

/// A text as one word of a shell command, taken literally.
pub open spec fn shell_quoted(value: Seq<char>) -> Seq<char> {
    "'"@ + text::replace(value, "'"@, "'\\''"@) + "'"@
}

pub fn shell_quote(value: &str) -> (r: String)
    ensures
        r@ == shell_quoted(value@),
{
    proof {
        reveal_strlit("'");
    }
    let inner = text::replaced(value, "'", "'\\''");
    text::join3("'", inner.as_str(), "'")
}

/// The script that the browser runs.
pub open spec fn launcher_text(binary: Seq<char>) -> Seq<char> {
    "#!/bin/sh\n# Written by `downer install-host`. Edits are lost on the next install.\n#\n# Firefox runs this with the manifest path and the extension ID, never\n# with `--native-host`, so the flag that selects the host protocol is\n# supplied here.\nexec "@
        + shell_quoted(binary) + " --native-host \"$@\"\n"@
}

pub fn launcher_script(binary: &str) -> (r: String)
    ensures
        r@ == launcher_text(binary@),
{
    let word = shell_quote(binary);
    text::join3(
        "#!/bin/sh\n# Written by `downer install-host`. Edits are lost on the next install.\n#\n# Firefox runs this with the manifest path and the extension ID, never\n# with `--native-host`, so the flag that selects the host protocol is\n# supplied here.\nexec ",
        word.as_str(),
        " --native-host \"$@\"\n",
    )
}

/// The manifest that the browser reads.
#[derive(Debug)]
pub struct HostManifest {
    pub name: String,
    pub description: String,
    pub path: String,
    pub kind: String,
    pub allowed_extensions: Vec<String>,
}

/// The manifest of a registration: it runs the launcher, and only the given
/// extension may.
pub fn manifest_document(launcher: &str, dev: bool, extension_id: &str) -> (r: HostManifest)
    ensures
        r.name@ == HOST_NAME@,
        r.description@ == (if dev {
            "Downer FFmpeg native messaging host (development build)"@
        } else {
            "Downer FFmpeg native messaging host"@
        }),
        r.path@ == launcher@,
        r.kind@ == "stdio"@,
        text::texts(r.allowed_extensions@) == seq![extension_id@],
{
    let mut allowed: Vec<String> = Vec::new();
    assert(text::texts(allowed@) =~= Seq::empty());
    text::push_text(&mut allowed, extension_id);
    assert(text::texts(allowed@) =~= seq![extension_id@]);
    HostManifest {
        name: text::owned(HOST_NAME),
        description: if dev {
            text::owned("Downer FFmpeg native messaging host (development build)")
        } else {
            text::owned("Downer FFmpeg native messaging host")
        },
        path: text::owned(launcher),
        kind: text::owned("stdio"),
        allowed_extensions: allowed,
    }
}

/// Whether a path says where a file is, rather than only what it is called: it
/// is absolute, or has more than one component.
pub open spec fn says_where(path: Seq<char>) -> bool {
    paths::is_absolute(path) || paths::components(path).len() > 1
}

pub fn names_a_place(path: &str) -> (r: bool)
    ensures
        r == says_where(path@),
{
    text::has_prefix(path, "/") || paths::components_of(path).len() > 1
}

/// Hold a path to FFmpeg to what can be recorded: a place, at which there is a
/// file. `resolved` is the path that the system finds there, or why it does not.
pub fn validated_ffmpeg(path: &str, is_file: bool, resolved: Result<String, String>) -> (r:
    DownerResult<String>)
    ensures
        if !says_where(path@) {
            r matches Err(DownerError::HostArgument(reason)) && reason@
                == "--ffmpeg needs a path to the executable, not the bare name `"@ + path@ + "`"@
        } else if !is_file {
            r matches Err(DownerError::HostArgument(reason)) && reason@
                == "no FFmpeg executable at "@ + path@
        } else {
            match resolved {
                Ok(place) => r matches Ok(p) && p@ == place@,
                Err(why) => r matches Err(DownerError::HostArgument(reason)) && reason@
                    == "could not resolve "@ + path@ + ": "@ + why@,
            }
        },
{
    if !names_a_place(path) {
        return Err(
            DownerError::HostArgument(
                text::join3("--ffmpeg needs a path to the executable, not the bare name `", path, "`"),
            ),
        );
    }
    if !is_file {
        return Err(DownerError::HostArgument(text::join2("no FFmpeg executable at ", path)));
    }
    match resolved {
        Ok(place) => Ok(place),
        Err(why) => {
            let mut reason = text::join3("could not resolve ", path, ": ");
            reason.append(why.as_str());
            Err(DownerError::HostArgument(reason))
        },
    }
}

// ---------------------------------------------------------------------------
// The configuration
// ---------------------------------------------------------------------------

/// What the host remembers.
#[derive(Debug)]
pub struct HostConfig {
    pub ffmpeg: Option<String>,
    /// The name of the level of its log.
    pub log_level: Option<String>,
}

impl Default for HostConfig {
    fn default() -> (r: HostConfig)
        ensures
            r.ffmpeg is None && r.log_level is None,
    {
        HostConfig { ffmpeg: None, log_level: None }
    }
}

impl HostConfig {
    pub fn with_ffmpeg(ffmpeg: &str) -> (r: HostConfig)
        ensures
            text::opt_text(r.ffmpeg) == Some(ffmpeg@),
            r.log_level is None,
    {
        HostConfig { ffmpeg: Some(text::owned(ffmpeg)), log_level: None }
    }

    /// The level of the log; the usual one unless another is named.
    pub fn log_level(&self) -> (r: Level)
        ensures
            r == match text::opt_text(self.log_level) {
                Some(name) => match hostlog::level_named(text::lower(text::trim(name))) {
                    Some(level) => level,
                    None => Level::Info,
                },
                None => Level::Info,
            },
    {
        match &self.log_level {
            Some(name) => match Level::parse(name.as_str()) {
                Some(level) => level,
                None => Level::Info,
            },
            None => Level::Info,
        }
    }
}

/// The FFmpeg that is remembered, if it is still there.
pub fn configured_ffmpeg(config: &HostConfig, is_file: bool) -> (r: Option<String>)
    ensures
        text::opt_text(r) == (if is_file {
            text::opt_text(config.ffmpeg)
        } else {
            None
        }),
{
    if is_file {
        text::copy_opt(&config.ffmpeg)
    } else {
        None
    }
}

// ---------------------------------------------------------------------------
// Uninstalling
// ---------------------------------------------------------------------------

/// The files that are removed, in order; the binary only if that is asked for.
pub fn uninstall_targets(paths: &HostPaths, options: &UninstallOptions) -> (r: Vec<String>)
    ensures
        text::texts(r@) == seq![paths@.manifest, paths@.launcher, paths@.config] + (if options.binary {
            seq![paths@.binary]
        } else {
            Seq::empty()
        }),
{
    let mut r: Vec<String> = Vec::new();
    text::push_text(&mut r, paths.manifest.as_str());
    text::push_text(&mut r, paths.launcher.as_str());
    text::push_text(&mut r, paths.config.as_str());
    if options.binary {
        text::push_text(&mut r, paths.binary.as_str());
    }
    assert(text::texts(r@) =~= seq![paths@.manifest, paths@.launcher, paths@.config] + (
    if options.binary {
        seq![paths@.binary]
    } else {
        Seq::empty()
    }));
    r
}

/// What came of removing a file.
#[derive(Debug)]
pub enum Removal {
    Removed,
    Missing,
    Failed(String),
}

/// Take note of a removal. A file that is missing is no error; one that cannot
/// be removed ends the uninstallation.
pub fn uninstall_step(report: &mut UninstallReport, target: &str, outcome: Removal) -> (r:
    DownerResult<()>)
    ensures
        match outcome {
            Removal::Removed => r is Ok && text::texts(final(report).removed@) == text::texts(
                old(report).removed@,
            ).push(target@),
            Removal::Missing => r is Ok && final(report).removed@ == old(report).removed@,
            Removal::Failed(why) => final(report).removed@ == old(report).removed@ && (
            r matches Err(DownerError::Host(reason)) && reason@ == "could not remove "@ + target@
                + ": "@ + why@),
        },
{
    match outcome {
        Removal::Removed => {
            text::push_text(&mut report.removed, target);
            Ok(())
        },
        Removal::Missing => Ok(()),
        Removal::Failed(why) => {
            let mut reason = text::join3("could not remove ", target, ": ");
            reason.append(why.as_str());
            Err(DownerError::Host(reason))
        },
    }
}

// ---------------------------------------------------------------------------
// Reports in words
// ---------------------------------------------------------------------------

/// What is printed after an installation.
pub fn install_lines(report: &InstallReport) -> (r: Vec<String>)
    ensures
        text::texts(r@) == seq![
            "Registered native host: "@ + report.manifest@,
            (if report.copied {
                "Installed binary: "@
            } else {
                "Using binary in place: "@
            }) + report.binary@,
            "Launcher: "@ + report.launcher@,
        ] + (match text::opt_text(report.ffmpeg) {
            Some(f) => seq!["FFmpeg: "@ + f],
            None => Seq::empty(),
        }) + (if report.dev {
            seq![
                "Development registration: it stops working if "@ + report.binary@
                    + " is rebuilt elsewhere, moved, or deleted."@,
            ]
        } else {
            Seq::empty()
        }) + seq![
            "Verify from Firefox: open the Downer popup on a page with media and start a download."@,
        ],
{
    let mut r: Vec<String> = Vec::new();
    text::push_text(&mut r, text::join2("Registered native host: ", report.manifest.as_str()).as_str());
    let verb = if report.copied {
        "Installed binary: "
    } else {
        "Using binary in place: "
    };
    text::push_text(&mut r, text::join2(verb, report.binary.as_str()).as_str());
    text::push_text(&mut r, text::join2("Launcher: ", report.launcher.as_str()).as_str());
    if let Some(f) = &report.ffmpeg {
        text::push_text(&mut r, text::join2("FFmpeg: ", f.as_str()).as_str());
    }
    if report.dev {
        text::push_text(
            &mut r,
            text::join3(
                "Development registration: it stops working if ",
                report.binary.as_str(),
                " is rebuilt elsewhere, moved, or deleted.",
            ).as_str(),
        );
    }
    text::push_text(
        &mut r,
        "Verify from Firefox: open the Downer popup on a page with media and start a download.",
    );
    r
}

/// What is printed after an uninstallation.
pub open spec fn removed_lines(removed: Seq<Seq<char>>) -> Seq<Seq<char>> {
    if removed.len() == 0 {
        seq!["No native host registration found; nothing to remove."@]
    } else {
        Seq::new(removed.len(), |i: int| "Removed "@ + removed[i])
    }
}

pub fn uninstall_lines(report: &UninstallReport) -> (r: Vec<String>)
    ensures
        text::texts(r@) == removed_lines(text::texts(report.removed@)),
{
    let mut r: Vec<String> = Vec::new();
    if report.removed.len() == 0 {
        text::push_text(&mut r, "No native host registration found; nothing to remove.");
        assert(text::texts(r@) =~= removed_lines(text::texts(report.removed@)));
        return r;
    }
    let mut i: usize = 0;
    assert(text::texts(r@) =~= removed_lines(text::texts(report.removed@)).take(0));
    while i < report.removed.len()
        invariant
            report.removed@.len() > 0,
            i <= report.removed@.len(),
            text::texts(r@) == removed_lines(text::texts(report.removed@)).take(i as int),
        decreases report.removed@.len() - i,
    {
        text::push_text(&mut r, text::join2("Removed ", report.removed[i].as_str()).as_str());
        i = i + 1;
        assert(text::texts(r@) =~= removed_lines(text::texts(report.removed@)).take(i as int));
    }
    assert(removed_lines(text::texts(report.removed@)).take(i as int) =~= removed_lines(
        text::texts(report.removed@),
    ));
    r
}

// ---------------------------------------------------------------------------
// Laws
// ---------------------------------------------------------------------------

/// What a shell reads in a word made of quoted parts and escaped characters:
/// within quotes everything stands for itself, outside them only a character
/// behind a backslash does.
pub open spec fn shell_reads(s: Seq<char>, in_quotes: bool) -> Option<Seq<char>>
    decreases s.len(),
{
    if s.len() == 0 {
        if in_quotes {
            None
        } else {
            Some(Seq::empty())
        }
    } else if s[0] == '\'' {
        shell_reads(s.skip(1), !in_quotes)
    } else if in_quotes {
        match shell_reads(s.skip(1), true) {
            Some(rest) => Some(seq![s[0]] + rest),
            None => None,
        }
    } else if s[0] == '\\' && s.len() > 1 {
        match shell_reads(s.skip(2), false) {
            Some(rest) => Some(seq![s[1]] + rest),
            None => None,
        }
    } else {
        None
    }
}

proof fn lemma_shell_reads(value: Seq<char>, i: int)
    requires
        0 <= i <= value.len(),
    ensures
        shell_reads(text::replace_from(value, "'"@, "'\\''"@, i) + "'"@, true) == Some(value.skip(i)),
    decreases value.len() - i,
{
    reveal_strlit("'");
    reveal_strlit("'\\''");
    let tail = text::replace_from(value, "'"@, "'\\''"@, i) + "'"@;
    if i >= value.len() {
        assert(tail =~= seq!['\'']);
        assert(tail.skip(1) =~= Seq::empty());
        assert(value.skip(i) =~= Seq::empty());
        reveal_with_fuel(shell_reads, 2);
    } else {
        lemma_shell_reads(value, i + 1);
        let rest = text::replace_from(value, "'"@, "'\\''"@, i + 1) + "'"@;
        assert(value.skip(i) =~= seq![value[i]] + value.skip(i + 1));
        if value[i] == '\'' {
            assert(value.subrange(i, i + 1) =~= "'"@);
            assert(text::occurs_at(value, "'"@, i));
            assert(tail =~= seq!['\'', '\\', '\'', '\''] + rest);
            let t1 = tail.skip(1);
            let t3 = t1.skip(2);
            assert(t3.skip(1) =~= rest);
            assert(t1[0] == '\\' && t1[1] == '\'');
            assert(t3[0] == '\'');
            assert(shell_reads(t3, false) == shell_reads(rest, true));
            assert(shell_reads(t1, false) == Some(seq!['\''] + value.skip(i + 1)));
            assert(shell_reads(tail, true) == shell_reads(t1, false));
        } else {
            assert(value.subrange(i, i + 1)[0] != '\'');
            assert(!text::occurs_at(value, "'"@, i));
            assert(tail =~= seq![value[i]] + rest);
            assert(tail.skip(1) =~= rest);
        }
    }
}

/// Whatever a path holds, a shell reads its quoted form as exactly that path.
pub proof fn law_a_quoted_word_is_read_back(value: Seq<char>)
    ensures
        shell_reads(shell_quoted(value), false) == Some(value),
{
    reveal_strlit("'");
    lemma_shell_reads(value, 0);
    let whole = shell_quoted(value);
    assert(whole.skip(1) =~= text::replace(value, "'"@, "'\\''"@) + "'"@);
    assert(value.skip(0) =~= value);
}

} // verus!
