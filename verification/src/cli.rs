//! What can be asked of the program on its command line.

use vstd::prelude::*;
use crate::text;
use crate::download::DownloadOptions;
use crate::ffmpeg::Reconnect;
use crate::output::{NamingHints, OnConflict};
use crate::scraper::RenditionChoice;

verus! {

/// The arguments of the program.
#[derive(Debug)]
pub struct Cli {
    pub url: Option<String>,
    pub output: Option<String>,
    pub dir: Option<String>,
    pub overwrite: bool,
    pub on_conflict: Option<OnConflict>,
    /// A title to name the file by.
    pub name: Option<String>,
    pub rendition: Option<RenditionChoice>,
    pub list: bool,
    pub json: bool,
    pub select: Option<u32>,
    pub media: Option<String>,
    pub ffmpeg: String,
    pub user_agent: String,
    pub cookie: Option<String>,
    pub cookie_file: Option<String>,
    pub threads: Option<u16>,
    pub reconnect_delay_max: u32,
    pub no_reconnect: bool,
    /// How often a download that failed for a passing reason is started again.
    pub retries: u32,
    /// The seconds that a page or a playlist may take to fetch.
    pub timeout: u64,
    pub command: Option<Command>,
}

/// What the program does besides downloading.
#[derive(Debug)]
pub enum Command {
    InstallHost(InstallHostArgs),
    UninstallHost(UninstallHostArgs),
    Doctor(DoctorArgs),
}

#[derive(Debug)]
pub struct DoctorArgs {
    pub ffmpeg: Option<String>,
    pub dir: Option<String>,
}

#[derive(Debug)]
pub struct InstallHostArgs {
    pub ffmpeg: Option<String>,
    pub link: bool,
    pub dev: bool,
}

#[derive(Debug)]
pub struct UninstallHostArgs {
    pub binary: bool,
}

impl Cli {
    /// How FFmpeg takes up a connection that was lost, as asked for.
    pub fn reconnect(&self) -> (r: Option<Reconnect>)
        ensures
            r == (if self.no_reconnect {
                None
            } else {
                Some(Reconnect { delay_max: self.reconnect_delay_max })
            }),
    {
        if self.no_reconnect {
            None
        } else {
            Some(Reconnect { delay_max: self.reconnect_delay_max })
        }
    }

    /// The download that was asked for. A program that reports in JSON prints
    /// nothing else, and one that is interrupted leaves what was written.
    pub fn options(self, cookie: Option<String>) -> (r: DownloadOptions)
        ensures
            r.output == self.output,
            r.dir == self.dir,
            r.overwrite == self.overwrite,
            r.on_conflict == self.on_conflict,
            text::opt_text(r.naming.title) == text::opt_text(self.name),
            r.ffmpeg == self.ffmpeg,
            r.user_agent == self.user_agent,
            r.cookie == cookie,
            r.threads == self.threads,
            r.quiet == self.json,
            r.playlist_text is None,
            r.rendition == self.rendition,
            r.keep_partial,
            r.reconnect == (if self.no_reconnect {
                None
            } else {
                Some(Reconnect { delay_max: self.reconnect_delay_max })
            }),
            r.retries == self.retries,
            r.timeout == self.timeout,
    {
        let reconnect = self.reconnect();
        DownloadOptions {
            output: self.output,
            dir: self.dir,
            overwrite: self.overwrite,
            on_conflict: self.on_conflict,
            naming: NamingHints::new(self.name),
            ffmpeg: self.ffmpeg,
            user_agent: self.user_agent,
            cookie,
            threads: self.threads,
            quiet: self.json,
            playlist_text: None,
            rendition: self.rendition,
            keep_partial: true,
            reconnect,
            retries: self.retries,
            timeout: self.timeout,
        }
    }
}

} // verus!
