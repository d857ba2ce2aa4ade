//! What setting the program up and checking that amounts to, stated without the
//! definitions of the paths and the verdicts.

use vstd::prelude::*;
use crate::{diagnostics, host, paths, text, text_laws};
use crate::diagnostics::{CheckView, DirectoryFacts, Outcome, SetupFacts};
use crate::ffmpeg::FfmpegVersion;
use crate::host::{HostPathsView, Platform};

verus! {

// ---------------------------------------------------------------------------
// Paths
// ---------------------------------------------------------------------------

/// A path and a name are joined with one separator between them, whether or not
/// the path ends in one; an empty path adds nothing.
pub proof fn law_one_separator_stands_between(base: Seq<char>, part: Seq<char>)
    ensures
        base.len() > 0 && base.last() != '/' ==> paths::joined_path(base, part) == base + seq!['/'] + part
            && paths::joined_path(base.push('/'), part) == paths::joined_path(base, part),
        base.len() > 0 && base.last() == '/' ==> paths::joined_path(base, part) == base + part,
        base.len() == 0 ==> paths::joined_path(base, part) == part,
{
    assert(base.push('/') =~= base + seq!['/']);
    if base.len() == 0 {
        assert(base + part =~= part);
    }
}

/// One more component stands behind those of the path before it; nothing, or a
/// single dot, is no component there. A path without a separator is one component.
pub proof fn law_a_path_is_its_components(path: Seq<char>, name: Seq<char>)
    requires
        !name.contains('/'),
    ensures
        name.len() > 0 && name != seq!['.'] ==> paths::components(path + seq!['/'] + name) == paths::components(
            path,
        ).push(name),
        name.len() == 0 || name == seq!['.'] ==> paths::components(path + seq!['/'] + name) == paths::components(
            path,
        ),
        name.len() > 0 ==> paths::components(name) == seq![name],
        paths::components(Seq::<char>::empty()) == Seq::<Seq<char>>::empty(),
{
    reveal_strlit(".");
    assert("."@ =~= seq!['.']);
    text_laws::law_splitting_at_a_separator(path, name, '/');
    text_laws::law_splitting_at_a_separator(name, name, '/');
    text_laws::law_joining_undoes_splitting(path, '/');
    let v = text::split(path, '/').push(name);
    assert(text::split(path, '/') + seq![name] =~= v);
    assert(v.drop_last() =~= text::split(path, '/'));
    let one = seq![name];
    assert(one.drop_last() =~= Seq::<Seq<char>>::empty());
    assert(paths::filled_pieces(Seq::<Seq<char>>::empty()) =~= Seq::<Seq<char>>::empty());
    if name.len() > 0 {
        assert(paths::filled_pieces(one) =~= seq![name]);
    }
    let none = Seq::<char>::empty();
    text_laws::law_splitting_at_a_separator(none, none, '/');
    let blank = seq![none];
    assert(blank.drop_last() =~= Seq::<Seq<char>>::empty());
    assert(paths::filled_pieces(blank) =~= Seq::<Seq<char>>::empty());
}

/// Two paths are the same if both or neither begin at the root and their
/// components are the same: a separator more at the end changes nothing.
pub proof fn law_a_separator_more_changes_no_path(a: Seq<char>, b: Seq<char>)
    ensures
        paths::same_path(a, b) <==> (a.len() > 0 && a[0] == '/' <==> b.len() > 0 && b[0] == '/')
            && paths::components(a) == paths::components(b),
        a.len() > 0 ==> paths::same_path(a, a.push('/')),
{
    reveal_strlit("/");
    assert("/"@ =~= seq!['/']);
    lemma_absolute(a);
    lemma_absolute(b);
    lemma_absolute(a.push('/'));
    let none = Seq::<char>::empty();
    assert(a + seq!['/'] + none =~= a.push('/'));
    law_a_path_is_its_components(a, none);
}

proof fn lemma_absolute(a: Seq<char>)
    ensures
        paths::is_absolute(a) <==> a.len() > 0 && a[0] == '/',
{
    reveal_strlit("/");
    assert("/"@ =~= seq!['/']);
    if a.len() > 0 {
        assert(a.subrange(0, 1)[0] == a[0]);
        if a[0] == '/' {
            assert(a.subrange(0, 1) =~= "/"@);
        }
    }
}

/// A path says where a file is if it begins at the root or has two components or
/// more; a bare name does not.
pub proof fn law_a_bare_name_says_no_place(path: Seq<char>)
    ensures
        path.len() > 0 && path[0] == '/' ==> host::says_where(path),
        !path.contains('/') ==> !host::says_where(path),
        host::says_where(path) && (path.len() == 0 || path[0] != '/') ==> paths::components(path).len() >= 2,
{
    lemma_absolute(path);
    if !path.contains('/') {
        law_a_path_is_its_components(path, path);
        if path.len() > 0 {
            assert(path.contains(path[0]));
        } else {
            assert(path =~= Seq::empty());
        }
    }
}

/// What is put behind a file stands in the same directory, with more behind its
/// name.
pub proof fn law_a_suffix_stands_behind_the_name(dir: Seq<char>, name: Seq<char>, more: Seq<char>)
    requires
        dir.len() > 0,
        dir.last() != '/',
        dir.last() == '.' ==> dir.len() == 1 || dir[dir.len() - 2] != '/',
        name.len() > 0,
        !name.contains('/'),
        name != seq!['.'] && name != seq!['.', '.'],
    ensures
        paths::suffixed(dir + seq!['/'] + name, more) == dir + seq!['/'] + name + more,
        paths::suffixed(name, more) == name + more,
{
    reveal_strlit(".");
    reveal_strlit("..");
    let path = dir + seq!['/'] + name;
    assert(name.contains(name[name.len() - 1]));
    assert(path.last() == name.last());
    assert(paths::without_end(path) == path) by {
        if path.last() == '.' && path[path.len() - 2] == '/' {
            if name.len() == 1 {
                assert(name =~= seq!['.']);
            } else {
                assert(path[path.len() - 2] == name[name.len() - 2]);
                assert(name.contains(name[name.len() - 2]));
            }
        }
    }
    assert(paths::without_end(name) == name) by {
        if name.len() > 1 {
            assert(name.contains(name[name.len() - 2]));
        }
    }
    text_laws::law_cutting_at_the_last(path, '/');
    text_laws::law_a_separator_is_told(dir, name, '/');
    let k = text::last_char(path, '/', path.len() as int);
    text::lemma_last_char(path, '/', path.len() as int);
    assert(path.take(k) =~= dir);
    assert(k == dir.len());
    assert(path.skip(k + 1) =~= name);
    let head = path.take(k + 1);
    assert(head =~= dir.push('/'));
    assert(head.drop_last() =~= dir);
    assert(paths::without_end(head) == paths::without_end(dir));
    assert(paths::without_end(dir) == dir);
    assert("."@ =~= seq!['.'] && ".."@ =~= seq!['.', '.']);
    assert(paths::names_file_or_directory(name));
    assert(dir.push('/') + (name + more) =~= dir + seq!['/'] + name + more);
    text::lemma_last_char(name, '/', name.len() as int);
    let j = text::last_char(name, '/', name.len() as int);
    if j >= 0 {
        assert(name.contains(name[j]));
    }
    assert(name.skip(0) =~= name);
    assert(name.take(0) =~= Seq::empty());
    assert(paths::without_end(name.take(0)) =~= Seq::empty());
    assert(Seq::<char>::empty() + (name + more) =~= name + more);
}

// ---------------------------------------------------------------------------
// Registration
// ---------------------------------------------------------------------------

/// A registration needs the three directories of its user and a system that the
/// browser looks for it on. The manifest then stands below the home directory, the
/// launcher and the binary below that for data, and the rest below that for
/// configuration.
pub proof fn law_a_registration_has_its_places(
    platform: Platform,
    home: Option<Seq<char>>,
    data: Option<Seq<char>>,
    config: Option<Seq<char>>,
)
    ensures
        host::registration_paths(platform, home, data, config) is Ok <==> home is Some && data is Some
            && config is Some && !(platform is Unsupported),
        host::registration_paths(platform, home, data, config) matches Ok(p) ==> {
            &&& p.launcher == paths::joined_path(data->0, "downer/com.downer.native.sh"@)
            &&& p.binary == paths::joined_path(data->0, "downer/bin/downer"@)
            &&& p.config == paths::joined_path(config->0, "downer/config.json"@)
            &&& platform is MacOs ==> p.manifest == paths::joined_path(
                home->0,
                "Library/Application Support/Mozilla/NativeMessagingHosts/com.downer.native.json"@,
            )
            &&& platform is Linux ==> p.manifest == paths::joined_path(
                home->0,
                ".mozilla/native-messaging-hosts/com.downer.native.json"@,
            )
        },
{
}

/// The launcher is a shell script whose last line runs the binary, whatever its
/// path holds, as a native host with all that the browser hands over.
pub proof fn law_the_launcher_runs_the_binary(binary: Seq<char>)
    ensures
        text::starts_with(host::launcher_text(binary), "#!/bin/sh\n"@),
        exists|head: Seq<char>|
            {
                &&& host::launcher_text(binary) == #[trigger] (head + "\nexec "@ + host::shell_quoted(binary)
                    + " --native-host \"$@\"\n"@)
            },
        host::shell_reads(host::shell_quoted(binary), false) == Some(binary),
{
    host::law_a_quoted_word_is_read_back(binary);
    lemma_launcher_head(binary);
}

proof fn lemma_launcher_head(binary: Seq<char>)
    ensures
        text::starts_with(host::launcher_text(binary), "#!/bin/sh\n"@),
        exists|head: Seq<char>|
            {
                &&& host::launcher_text(binary) == #[trigger] (head + "\nexec "@ + host::shell_quoted(binary)
                    + " --native-host \"$@\"\n"@)
            },
{
    reveal_strlit("#!/bin/sh\n# Written by `downer install-host`. Edits are lost on the next install.\n#\n# Firefox runs this with the manifest path and the extension ID, never\n# with `--native-host`, so the flag that selects the host protocol is\n# supplied here.\nexec ");
    reveal_strlit("#!/bin/sh\n");
    reveal_strlit("\nexec ");
    let all = "#!/bin/sh\n# Written by `downer install-host`. Edits are lost on the next install.\n#\n# Firefox runs this with the manifest path and the extension ID, never\n# with `--native-host`, so the flag that selects the host protocol is\n# supplied here.\nexec "@;
    let t = host::launcher_text(binary);
    let rest = host::shell_quoted(binary) + " --native-host \"$@\"\n"@;
    assert(t =~= all + rest);
    assert(t.subrange(0, 10) =~= "#!/bin/sh\n"@);
    let head = all.take(all.len() - 6);
    assert(all =~= head + "\nexec "@);
    assert(t =~= head + "\nexec "@ + host::shell_quoted(binary) + " --native-host \"$@\"\n"@);
}

/// What was removed is named, each on a line of its own and in its order; nothing
/// is not passed over in silence.
pub proof fn law_what_was_removed_is_named(removed: Seq<Seq<char>>, i: int)
    ensures
        removed.len() == 0 ==> host::removed_lines(removed) == seq![
            "No native host registration found; nothing to remove."@,
        ],
        removed.len() > 0 ==> host::removed_lines(removed).len() == removed.len(),
        0 <= i < removed.len() ==> host::removed_lines(removed)[i] == "Removed "@ + removed[i],
{
}

// ---------------------------------------------------------------------------
// Checks
// ---------------------------------------------------------------------------

/// Checks taken together are as bad as the worse of them; a check alone is as bad
/// as it is, and no checks are fine.
pub proof fn law_checks_are_as_bad_as_the_worst(a: Seq<CheckView>, b: Seq<CheckView>, c: CheckView)
    ensures
        diagnostics::worst(a + b) == (if diagnostics::worst(a) == Outcome::Fail || diagnostics::worst(b) == Outcome::Fail {
            Outcome::Fail
        } else if diagnostics::worst(a) == Outcome::Warn || diagnostics::worst(b) == Outcome::Warn {
            Outcome::Warn
        } else {
            Outcome::Pass
        }),
        diagnostics::worst(seq![c]) == c.outcome,
        diagnostics::worst(Seq::<CheckView>::empty()) == Outcome::Pass,
{
    lemma_has(a, b, Outcome::Fail);
    lemma_has(a, b, Outcome::Warn);
    assert(seq![c][0] == c);
}

proof fn lemma_has(a: Seq<CheckView>, b: Seq<CheckView>, o: Outcome)
    ensures
        (exists|i: int| 0 <= i < (a + b).len() && (#[trigger] (a + b)[i]).outcome == o) <==> (
        exists|i: int| 0 <= i < a.len() && (#[trigger] a[i]).outcome == o) || (exists|i: int|
            0 <= i < b.len() && (#[trigger] b[i]).outcome == o),
{
    let s = a + b;
    if exists|i: int| 0 <= i < s.len() && (#[trigger] s[i]).outcome == o {
        let i = choose|i: int| 0 <= i < s.len() && (#[trigger] s[i]).outcome == o;
        if i < a.len() {
            assert(a[i].outcome == o);
        } else {
            assert(b[i - a.len()].outcome == o);
        }
    }
    if exists|i: int| 0 <= i < a.len() && (#[trigger] a[i]).outcome == o {
        let i = choose|i: int| 0 <= i < a.len() && (#[trigger] a[i]).outcome == o;
        assert(s[i].outcome == o);
    }
    if exists|i: int| 0 <= i < b.len() && (#[trigger] b[i]).outcome == o {
        let i = choose|i: int| 0 <= i < b.len() && (#[trigger] b[i]).outcome == o;
        assert(s[a.len() + i].outcome == o);
    }
}

/// A check that is passed offers no remedy; any other does.
pub open spec fn offers_what_is_needed(c: CheckView) -> bool {
    c.remedy is Some <==> c.outcome != Outcome::Pass
}

/// The host can be registered on two systems; it is registered if its places are
/// known and both the manifest and the launcher are there.
pub proof fn law_a_registration_is_complete_or_fails(
    platform: Platform,
    paths: Result<HostPathsView, Seq<char>>,
    manifest_there: bool,
    launcher_there: bool,
)
    ensures
        diagnostics::platform_verdict(platform).outcome == (if platform is Unsupported {
            Outcome::Fail
        } else {
            Outcome::Pass
        }),
        diagnostics::registration_verdict(paths, manifest_there, launcher_there).outcome == (if paths is Ok
            && manifest_there && launcher_there {
            Outcome::Pass
        } else {
            Outcome::Fail
        }),
        offers_what_is_needed(diagnostics::platform_verdict(platform)),
        offers_what_is_needed(diagnostics::registration_verdict(paths, manifest_there, launcher_there)),
        diagnostics::platform_verdict(platform).name == "platform"@,
        diagnostics::registration_verdict(paths, manifest_there, launcher_there).name == "host_registration"@,
        paths matches Ok(p) ==> text::contains(
            diagnostics::registration_verdict(paths, manifest_there, launcher_there).detail,
            p.manifest,
        ),
{
    if let Ok(p) = paths {
        let none = Seq::<char>::empty();
        text_laws::law_a_phrase_is_held(p.manifest, p.manifest);
        assert(none + p.manifest + none =~= p.manifest);
        let head = "no manifest at "@;
        text_laws::law_a_phrase_is_held(head + p.manifest, p.manifest);
        assert(head + p.manifest + none =~= head + p.manifest);
        let rest = " registered, but its launcher "@ + p.launcher + " is missing"@;
        let whole = p.manifest + " registered, but its launcher "@ + p.launcher + " is missing"@;
        text_laws::law_a_phrase_is_held(whole, p.manifest);
        assert(none + p.manifest + rest =~= whole);
    }
}

/// An FFmpeg that cannot be run fails the check, one that is older than 7.1 is
/// warned of, and any other passes. The verdict names the program, and its version
/// where it is known.
pub proof fn law_an_old_ffmpeg_is_warned_of(path: Seq<char>, version: FfmpegVersion)
    ensures
        diagnostics::ffmpeg_verdict(path, None).outcome == Outcome::Fail,
        diagnostics::ffmpeg_verdict(path, Some(version)).outcome == (if version.major < 7 || (version.major == 7
            && version.minor < 1) {
            Outcome::Warn
        } else {
            Outcome::Pass
        }),
        offers_what_is_needed(diagnostics::ffmpeg_verdict(path, None)),
        offers_what_is_needed(diagnostics::ffmpeg_verdict(path, Some(version))),
        diagnostics::ffmpeg_verdict(path, Some(version)).detail == path + " is FFmpeg "@ + version.text(),
        text::starts_with(diagnostics::ffmpeg_verdict(path, None).detail, path),
{
    let d = diagnostics::ffmpeg_verdict(path, None).detail;
    assert(d.subrange(0, path.len() as int) =~= path);
}

/// A directory passes if it is there, is one and can be written to, or if it is
/// not there and the nearest one above it is a directory that can be; it fails in
/// every other case. The verdict names the directory.
pub proof fn law_a_directory_can_be_written_to(directory: Seq<char>, facts: DirectoryFacts)
    ensures
        diagnostics::directory_verdict(directory, facts).outcome == (if facts.refusal is None && (if facts.exists {
            facts.is_dir
        } else {
            facts.ancestor is Some && facts.ancestor->0.is_dir
        }) {
            Outcome::Pass
        } else {
            Outcome::Fail
        }),
        offers_what_is_needed(diagnostics::directory_verdict(directory, facts)),
        diagnostics::directory_verdict(directory, facts).name == "output_directory"@,
        text::starts_with(diagnostics::directory_verdict(directory, facts).detail, directory),
{
    let d = diagnostics::directory_verdict(directory, facts).detail;
    assert(d.subrange(0, directory.len() as int) =~= directory);
}

/// The setup is checked in one order: the system, the registration, FFmpeg, and
/// the directory if one is asked about.
pub proof fn law_the_setup_is_checked_in_order(facts: SetupFacts)
    ensures
        diagnostics::verdicts(facts).len() == if facts.directory is Some {
            4int
        } else {
            3
        },
        diagnostics::verdicts(facts)[0].name == "platform"@,
        diagnostics::verdicts(facts)[1].name == "host_registration"@,
        diagnostics::verdicts(facts)[2].name == "ffmpeg"@,
        facts.directory is Some ==> diagnostics::verdicts(facts)[3].name == "output_directory"@,
{
}

proof fn lemma_check_lines_add(
    a: Seq<CheckView>,
    b: Seq<CheckView>,
    dir_given: bool,
    extension_dir: Option<Seq<char>>,
)
    ensures
        diagnostics::all_check_lines(a + b, dir_given, extension_dir) == diagnostics::all_check_lines(
            a,
            dir_given,
            extension_dir,
        ) + diagnostics::all_check_lines(b, dir_given, extension_dir),
    decreases b.len(),
{
    if b.len() == 0 {
        assert(a + b =~= a);
        assert(diagnostics::all_check_lines(a, dir_given, extension_dir) + diagnostics::all_check_lines(
            b,
            dir_given,
            extension_dir,
        ) =~= diagnostics::all_check_lines(a, dir_given, extension_dir));
    } else {
        assert((a + b).drop_last() =~= a + b.drop_last());
        lemma_check_lines_add(a, b.drop_last(), dir_given, extension_dir);
        assert(diagnostics::all_check_lines(a + b, dir_given, extension_dir) =~= diagnostics::all_check_lines(
            a,
            dir_given,
            extension_dir,
        ) + diagnostics::all_check_lines(b, dir_given, extension_dir));
    }
}

/// A report shows the checks one after the other: of each the outcome and the
/// title, then the detail, then the remedy if there is one. Which directory the
/// extension uses is pointed out below the check of a directory that nobody asked
/// about, and nowhere else.
pub proof fn law_a_report_shows_each_check(
    a: Seq<CheckView>,
    b: Seq<CheckView>,
    c: CheckView,
    dir_given: bool,
    extension_dir: Option<Seq<char>>,
)
    ensures
        diagnostics::all_check_lines(a + b, dir_given, extension_dir) == diagnostics::all_check_lines(
            a,
            dir_given,
            extension_dir,
        ) + diagnostics::all_check_lines(b, dir_given, extension_dir),
        ({
            let lines = diagnostics::all_check_lines(seq![c], dir_given, extension_dir);
            let noted = c.name == "output_directory"@ && !dir_given;
            &&& lines.len() == 2 + (if c.remedy is Some {
                1int
            } else {
                0
            }) + (if noted {
                1int
            } else {
                0
            })
            &&& lines[0] == "["@ + c.outcome.text() + "] "@ + c.title
            &&& lines[1] == "      "@ + c.detail
            &&& c.remedy is Some ==> lines[2] == "      → "@ + c.remedy->0
            &&& noted ==> lines.last() == diagnostics::directory_note(extension_dir)
        }),
{
    lemma_check_lines_add(a, b, dir_given, extension_dir);
    let one = seq![c];
    assert(one.drop_last() =~= Seq::<CheckView>::empty());
    assert(diagnostics::all_check_lines(one.drop_last(), dir_given, extension_dir) =~= Seq::<
        Seq<char>,
    >::empty());
    assert(diagnostics::all_check_lines(one, dir_given, extension_dir) =~= diagnostics::check_lines(
        c,
        dir_given,
        extension_dir,
    ));
}

/// A report begins with the program, the protocol and the system, and shows the
/// checks; it says where the log is exactly if that is known.
pub proof fn law_a_report_says_where_the_log_is(
    version: Seq<char>,
    protocol: u32,
    platform: Seq<char>,
    path: Seq<char>,
    checks: Seq<CheckView>,
    dir_given: bool,
    extension_dir: Option<Seq<char>>,
)
    ensures
        ({
            let shown = diagnostics::all_check_lines(checks, dir_given, extension_dir);
            let head = "downer "@ + version + " (protocol "@ + text::decimal(protocol as nat) + "), "@
                + platform;
            let none = diagnostics::report_lines(
                version,
                protocol,
                platform,
                None,
                checks,
                dir_given,
                extension_dir,
            );
            let known = diagnostics::report_lines(
                version,
                protocol,
                platform,
                Some(path),
                checks,
                dir_given,
                extension_dir,
            );
            &&& none == seq![head, Seq::empty()] + shown + seq![Seq::<char>::empty()]
            &&& known == seq![head, Seq::empty()] + shown + seq![
                "Native host log: "@ + path,
                Seq::<char>::empty(),
            ]
        }),
{
    reveal_strlit("");
    assert(""@ =~= Seq::empty());
    let shown = diagnostics::all_check_lines(checks, dir_given, extension_dir);
    let head = "downer "@ + version + " (protocol "@ + text::decimal(protocol as nat) + "), "@
        + platform;
    assert(diagnostics::report_lines(version, protocol, platform, None, checks, dir_given, extension_dir)
        =~= seq![head, Seq::empty()] + shown + seq![Seq::<char>::empty()]);
    assert(diagnostics::report_lines(version, protocol, platform, Some(path), checks, dir_given, extension_dir)
        =~= seq![head, Seq::empty()] + shown + seq![
        "Native host log: "@ + path,
        Seq::<char>::empty(),
    ]);
}

/// Each outcome has a word of its own, and so has each system.
pub proof fn law_outcomes_have_words()
    ensures
        Outcome::Pass.text() == "ok"@ && Outcome::Warn.text() == "warning"@
            && Outcome::Fail.text() == "failed"@,
        Platform::MacOs.name_text() == "macos"@ && Platform::Linux.name_text() == "linux"@,
        forall|dir: Seq<char>| #[trigger]
            ends_with(diagnostics::directory_note(Some(dir)), dir),
{
    assert forall|dir: Seq<char>| #[trigger] ends_with(diagnostics::directory_note(Some(dir)), dir) by {
        let note = diagnostics::directory_note(Some(dir));
        assert(note.skip(note.len() - dir.len()) =~= dir);
    }
}

/// Whether a text ends in another.
pub open spec fn ends_with(s: Seq<char>, end: Seq<char>) -> bool {
    s.len() >= end.len() && s.skip(s.len() - end.len()) == end
}

/// Two places are the same only if both are known.
pub proof fn law_an_unknown_place_is_no_other(a: Seq<char>, b: Seq<char>, c: Option<Seq<char>>)
    ensures
        host::both_same(Some(a), Some(b)) <==> paths::same_path(a, b),
        !host::both_same(None, c),
        !host::both_same(c, None),
{
}

} // verus!
