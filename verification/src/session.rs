//! A download, step by step.
//!
//! A download alternates between what only the program around this library can
//! do and what is decided about it. Each step here names one thing to do; what
//! came of it is handed back to the value beside it, which decides on the next
//! step.
//!
//! A name is settled first: the directory is made, the path is looked at, and a
//! file is created if the name has to be reserved. Then FFmpeg's version is
//! asked for and the playlist is read. Then FFmpeg runs, again and again if a
//! failure may pass. In the end there may be a file to remove.

use vstd::prelude::*;
use crate::{download, output, text, web};
use crate::download::{Conclusion, DownloadOptions, PlaylistSource, Prepared};
use crate::error::{DownerError, DownerResult};
use crate::ffmpeg::{FfmpegInvocation, FfmpegVersion};
use crate::output::{Attempt, Found, OnConflict, OutputTarget, Resolution, ReserveStep};
use crate::scraper::{Playlist, ResolvedMedia};

verus! {

/// What is downloaded, and how.
#[derive(Debug)]
pub struct Job {
    pub media: ResolvedMedia,
    pub options: DownloadOptions,
    /// Whether FFmpeg is controlled rather than watched on a terminal.
    pub controlled: bool,
}

/// A download whose directory is being made.
#[derive(Debug)]
pub struct Placing {
    pub job: Job,
    pub path: String,
}

/// A download whose path is being looked at.
#[derive(Debug)]
pub struct Looking {
    pub job: Job,
    pub path: String,
}

/// A download that is looking for a free name.
#[derive(Debug)]
pub struct Reserving {
    pub job: Job,
    pub path: String,
    /// The file name at the end of the path.
    pub name: String,
    pub attempt: u32,
}

/// A download that knows where it writes.
#[derive(Debug)]
pub struct Asking {
    pub job: Job,
    pub target: OutputTarget,
}

/// A download that knows its FFmpeg.
#[derive(Debug)]
pub struct Reading {
    pub job: Job,
    pub target: OutputTarget,
    pub outdated: Option<FfmpegVersion>,
}

/// A download whose FFmpeg runs.
#[derive(Debug)]
pub struct Running {
    pub job: Job,
    pub target: OutputTarget,
    pub outdated: Option<FfmpegVersion>,
    pub invocation: FfmpegInvocation,
    /// How often FFmpeg was started again.
    pub restarts: u32,
}

/// A download that is over.
#[derive(Debug)]
pub struct Finish {
    pub result: DownerResult<String>,
    /// A file to remove.
    pub remove: Option<String>,
    /// What is printed.
    pub lines: Vec<String>,
}

/// The next thing to do for a download.
#[derive(Debug)]
pub enum Step {
    /// Make a directory and those above it.
    MakeDirectory(Placing, String),
    /// Look at what stands at the path.
    Look(Looking),
    /// Create a file of this name beside the path, unless one is there.
    Create(Reserving, String),
    /// Print these lines and ask FFmpeg for its version.
    AskVersion(Asking, Vec<String>),
    /// Warn in these lines and get the playlist from where it is.
    ReadPlaylist(Reading, PlaylistSource, Vec<String>),
    /// Print these lines and run FFmpeg.
    Run(Running, Vec<String>),
    Finish(Finish),
}

/// Whether a step ends a download in a failure, and does nothing else.
pub open spec fn stops(step: Step, error: DownerError) -> bool {
    step matches Step::Finish(f) && f.result == Err::<String, DownerError>(error) && f.remove
        is None && f.lines@.len() == 0
}

fn stop(error: DownerError) -> (r: Step)
    ensures
        stops(r, error),
{
    Step::Finish(Finish { result: Err(error), remove: None, lines: Vec::new() })
}

/// Begin a download. `parent` is the directory of the path that was given, if
/// there is one.
pub fn start(job: Job, parent: Option<&str>) -> (r: Step)
    ensures
        match output::planned_output(
            job.media.url@,
            text::opt_text(job.options.output),
            text::opt_str(parent),
            text::opt_text(job.options.dir),
            "."@,
            text::opt_text(job.options.naming.title),
        ) {
            Ok((Some(directory), path)) => r matches Step::MakeDirectory(s, d) && d@ == directory
                && s.path@ == path && s.job == job,
            Ok((None, path)) => r matches Step::Look(s) && s.path@ == path && s.job == job,
            Err(why) => r matches Step::Finish(f) && stops(r, f.result->Err_0) && (
            f.result matches Err(DownerError::OutputPath(reason)) && reason@ == why),
        },
{
    let plan = output::resolve_output_path(
        &job.media.url,
        as_slice(&job.options.output),
        parent,
        as_slice(&job.options.dir),
        ".",
        &job.options.naming,
    );
    match plan {
        Ok(plan) => match plan.create {
            Some(directory) => Step::MakeDirectory(Placing { job, path: plan.path }, directory),
            None => Step::Look(Looking { job, path: plan.path }),
        },
        Err(error) => stop(error),
    }
}

fn as_slice(o: &Option<String>) -> (r: Option<&str>)
    ensures
        text::opt_str(r) == text::opt_text(*o),
{
    match o {
        Some(s) => Some(s.as_str()),
        None => None,
    }
}

impl Placing {
    /// The directory was made, or why it was not.
    pub fn made(self, outcome: Result<(), String>) -> (r: Step)
        ensures
            match outcome {
                Ok(_) => r matches Step::Look(s) && s.job == self.job && s.path == self.path,
                Err(why) => stops(r, DownerError::OutputIo(why)),
            },
    {
        match outcome {
            Ok(_) => Step::Look(Looking { job: self.job, path: self.path }),
            Err(why) => stop(DownerError::OutputIo(why)),
        }
    }
}

impl Looking {
    /// What stands at the path, and the file name at its end.
    pub fn found(self, found: Found, name: String) -> (r: Step)
        ensures
            match r {
                Step::AskVersion(s, lines) => {
                    &&& !(found is Directory)
                    &&& s.job == self.job
                    &&& s.target.path@ == self.path@
                    &&& !s.target.reserved
                    &&& s.begins(lines)
                    &&& match self.job.options.policy() {
                        OnConflict::Overwrite => s.target.overwrite,
                        OnConflict::Fail => !s.target.overwrite && found is Missing,
                        OnConflict::Rename => false,
                    }
                },
                Step::Create(s, candidate) => {
                    &&& !(found is Directory)
                    &&& self.job.options.policy() == OnConflict::Rename
                    &&& s.job == self.job
                    &&& s.path == self.path
                    &&& s.name == name
                    &&& s.attempt == 1
                    &&& candidate@ == output::attempted_name(name@, 1)
                },
                Step::Finish(f) => stops(r, f.result->Err_0) && match f.result {
                    Err(DownerError::OutputDirectory(p)) => found is Directory && p@ == self.path@,
                    Err(DownerError::OutputExists(p)) => self.job.options.policy()
                        == OnConflict::Fail && found is File && p@ == self.path@,
                    Err(DownerError::OutputIo(e)) => self.job.options.policy() == OnConflict::Fail
                        && (found matches Found::Unreadable(why) && e@ == why@),
                    _ => false,
                },
                _ => false,
            },
    {
        let policy = self.job.options.conflict_policy();
        match output::resolve_conflict(text::owned(self.path.as_str()), policy, &found) {
            Ok(Resolution::Target(target)) => ask(self.job, target),
            Ok(Resolution::Reserve) => {
                let candidate = output::candidate_name(name.as_str(), 1);
                Step::Create(
                    Reserving { job: self.job, path: self.path, name, attempt: 1 },
                    candidate,
                )
            },
            Err(error) => stop(error),
        }
    }
}

impl Reserving {
    /// What came of creating a file, and its path.
    pub fn tried(self, candidate: String, outcome: Attempt) -> (r: Step)
        ensures
            match outcome {
                Attempt::Created => r matches Step::AskVersion(s, lines) && s.job == self.job
                    && s.target.path@ == candidate@ && s.target.overwrite && s.target.reserved
                    && s.begins(lines),
                Attempt::Taken => if self.attempt < output::MAX_RENAME_ATTEMPTS {
                    r matches Step::Create(s, next) && s.job == self.job && s.path == self.path
                        && s.name == self.name && s.attempt == self.attempt + 1 && next@
                        == output::attempted_name(self.name@, (self.attempt + 1) as nat)
                } else {
                    r matches Step::Finish(f) && stops(r, f.result->Err_0) && (
                    f.result matches Err(DownerError::OutputExists(p)) && p@ == self.path@)
                },
                Attempt::Failed(why) => r matches Step::Finish(f) && stops(r, f.result->Err_0) && (
                f.result matches Err(DownerError::OutputIo(e)) && e@ == why@),
            },
    {
        match output::reserve_unused_path(
            self.path.as_str(),
            candidate.as_str(),
            self.attempt,
            outcome,
        ) {
            ReserveStep::Try(attempt) => {
                let next = output::candidate_name(self.name.as_str(), attempt);
                Step::Create(
                    Reserving { job: self.job, path: self.path, name: self.name, attempt },
                    next,
                )
            },
            ReserveStep::Done(target) => ask(self.job, target),
            ReserveStep::Stop(error) => stop(error),
        }
    }
}

fn ask(job: Job, target: OutputTarget) -> (r: Step)
    ensures
        r matches Step::AskVersion(s, lines) && s.job == job && s.target == target && s.begins(
            lines,
        ),
{
    let lines = download::announce(&job.media, job.options.quiet, target.path.as_str());
    Step::AskVersion(Asking { job, target }, lines)
}

impl Asking {
    /// Whether lines are those that a download begins with.
    pub open spec fn begins(&self, lines: Vec<String>) -> bool {
        text::texts(lines@) == download::opening_lines(
            self.job.options.quiet,
            web::opt_url(self.job.media.referer),
            self.job.media.url@,
            self.target.path@,
        )
    }

    /// The version that FFmpeg states, if it could be asked.
    pub fn version(self, version: Option<FfmpegVersion>) -> (r: Step)
        ensures
            r matches Step::ReadPlaylist(s, source, warnings) && {
                &&& s.job == self.job
                &&& s.target == self.target
                &&& s.outdated == download::too_old(version)
                &&& source == download::source_of_playlist(self.job.media.url@.text, self.job.options)
                &&& text::texts(warnings@) == match download::too_old(version) {
                    Some(old) => if self.job.options.quiet {
                        Seq::empty()
                    } else {
                        seq![download::outdated_warning(old)]
                    },
                    None => Seq::empty(),
                }
            },
    {
        let outdated = download::unsupported_ffmpeg(version);
        let mut warnings: Vec<String> = Vec::new();
        assert(text::texts(warnings@) =~= Seq::empty());
        if let Some(old) = outdated {
            if !self.job.options.quiet {
                text::push_text(&mut warnings, download::outdated_ffmpeg_warning(old).as_str());
                assert(text::texts(warnings@) =~= seq![download::outdated_warning(old)]);
            }
        }
        let source = download::playlist_source(&self.job.media.url, &self.job.options);
        Step::ReadPlaylist(
            Reading { job: self.job, target: self.target, outdated },
            source,
            warnings,
        )
    }
}

impl Reading {
    /// The playlist, if there is one that could be read. A download that ends
    /// here gives back the name that it reserved, as long as nothing was written to
    /// it: `size` is what the file holds, if it is there.
    pub fn playlist(self, playlist: Option<Playlist>, size: Option<u64>) -> (r: Step)
        ensures
            match r {
                Step::Run(s, notices) => {
                    &&& download::is_prepared(
                        Ok(Prepared { invocation: s.invocation, notices }),
                        self.job.media,
                        self.job.options,
                        self.target,
                        self.outdated,
                        playlist,
                        self.job.controlled,
                    )
                    &&& s.job == self.job
                    &&& s.target == self.target
                    &&& s.outdated == self.outdated
                    &&& s.restarts == 0
                },
                Step::Finish(f) => {
                    &&& f.result is Err
                    &&& f.lines@.len() == 0
                    &&& text::opt_text(f.remove) == (if self.target.reserved && size == Some(0u64) {
                        Some(self.target.path@)
                    } else {
                        None
                    })
                    &&& download::is_prepared(
                        Err(f.result->Err_0),
                        self.job.media,
                        self.job.options,
                        self.target,
                        self.outdated,
                        playlist,
                        self.job.controlled,
                    )
                },
                _ => false,
            },
    {
        let prepared = download::prepare(
            &self.job.media,
            &self.job.options,
            &self.target,
            self.outdated,
            &playlist,
            self.job.controlled,
        );
        match prepared {
            Ok(p) => {
                let Prepared { invocation, notices } = p;
                Step::Run(
                    Running {
                        job: self.job,
                        target: self.target,
                        outdated: self.outdated,
                        invocation,
                        restarts: 0,
                    },
                    notices,
                )
            },
            Err(error) => {
                let remove = if output::release_reservation(&self.target, size) {
                    Some(self.target.path)
                } else {
                    None
                };
                Step::Finish(Finish { result: Err(error), remove, lines: Vec::new() })
            },
        }
    }
}

impl Running {
    /// How the run ended. `size` is what the file holds, if it is there;
    /// `cancelled` whether the run was cancelled, and `by_request` whether its
    /// user did so.
    pub fn ended(
        self,
        result: DownerResult<String>,
        size: Option<u64>,
        cancelled: bool,
        by_request: bool,
    ) -> (r: Step)
        ensures
            if result matches Err(error) && download::is_retried(
                self.job.options.retries,
                self.restarts,
                error,
                cancelled,
            ) {
                r matches Step::Run(s, notices) && notices@.len() == 0 && s == (Running {
                    invocation: FfmpegInvocation { overwrite: true, ..self.invocation },
                    restarts: (self.restarts + 1) as u32,
                    ..self
                })
            } else {
                r matches Step::Finish(f) && exists|c: Conclusion|
                    {
                        &&& #[trigger] download::is_concluded(
                            c,
                            self.job.options,
                            self.target,
                            self.outdated,
                            result,
                            size,
                            by_request,
                        )
                        &&& f.result == c.result
                        &&& text::opt_text(f.remove) == (if c.release || c.discard {
                            Some(self.target.path@)
                        } else {
                            None
                        })
                        &&& text::texts(f.lines@) == match c.result {
                            Ok(path) => if self.job.options.quiet {
                                Seq::empty()
                            } else {
                                seq!["Download complete: "@ + path@]
                            },
                            Err(_) => Seq::empty(),
                        }
                    }
            },
    {
        if let Err(error) = &result {
            if download::should_retry(self.job.options.retries, self.restarts, error, cancelled) {
                return Step::Run(
                    Running {
                        job: self.job,
                        target: self.target,
                        outdated: self.outdated,
                        invocation: download::restarted(self.invocation),
                        restarts: self.restarts + 1,
                    },
                    Vec::new(),
                );
            }
        }
        let c = download::conclude(
            &self.job.options,
            &self.target,
            self.outdated,
            result,
            size,
            by_request,
        );
        let ghost conclusion = c;
        let remove = if c.release || c.discard {
            Some(text::owned(self.target.path.as_str()))
        } else {
            None
        };
        let mut lines: Vec<String> = Vec::new();
        assert(text::texts(lines@) =~= Seq::empty());
        if let Ok(path) = &c.result {
            if !self.job.options.quiet {
                text::push_text(&mut lines, text::join2("Download complete: ", path.as_str()).as_str());
                assert(text::texts(lines@) =~= seq!["Download complete: "@ + path@]);
            }
        }
        let f = Finish { result: c.result, remove, lines };
        assert(download::is_concluded(
            conclusion,
            self.job.options,
            self.target,
            self.outdated,
            result,
            size,
            by_request,
        ));
        Step::Finish(f)
    }
}

} // verus!
