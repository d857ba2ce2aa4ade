//! What a download amounts to, from the options to the exit status, stated without
//! the definitions of its decisions.

use vstd::prelude::*;
use crate::{download, failure_laws, ffmpeg, playlist_laws, scraper, text, text_laws};
use crate::download::{Conclusion, DownloadOptions, PlaylistSource, Prepared};
use crate::error::{DownerError, DownerResult};
use crate::ffmpeg::FfmpegVersion;
use crate::output::{OnConflict, OutputTarget};
use crate::scraper::{ChoiceView, MasterPlaylist, Playlist, ResolvedMedia};
use crate::session::Asking;
use crate::web::UrlView;

verus! {

/// What was asked for settles a collision. Where nothing was, permission to
/// overwrite does; without it a path that was named is not written to, and any
/// other gives way.
pub proof fn law_what_was_asked_for_settles_a_collision(options: DownloadOptions)
    ensures
        options.on_conflict is Some ==> options.policy() == options.on_conflict->0,
        options.on_conflict is None ==> {
            &&& options.policy() == OnConflict::Overwrite <==> options.overwrite
            &&& options.policy() == OnConflict::Fail <==> !options.overwrite && options.output
                is Some
            &&& options.policy() == OnConflict::Rename <==> !options.overwrite && options.output
                is None
        },
{
}

/// White space around a cookie header is no part of it, and a header of nothing
/// else is none.
pub proof fn law_a_cookie_header_is_trimmed(a: Seq<char>, header: Seq<char>, b: Seq<char>)
    requires
        forall|k: int| 0 <= k < a.len() ==> text::is_white(#[trigger] a[k]),
        forall|k: int| 0 <= k < b.len() ==> text::is_white(#[trigger] b[k]),
        header.len() > 0 ==> !text::is_white(header[0]) && !text::is_white(header.last()),
    ensures
        header.len() > 0 ==> download::cookie_header(a + header + b) == Some(header),
        header.len() == 0 ==> download::cookie_header(a + header + b) is None,
{
    text_laws::law_trimming_gives_the_text_back(a, header, b);
}

/// An FFmpeg is too old exactly when its version is known and comes before 7.1.
pub proof fn law_an_unknown_version_is_not_too_old(version: FfmpegVersion)
    ensures
        download::too_old(None) is None,
        version.major < 7 || (version.major == 7 && version.minor == 0) ==> download::too_old(Some(version))
            == Some(version),
        version.major > 7 || (version.major == 7 && version.minor > 0) ==> download::too_old(Some(version))
            is None,
{
}

/// A URL is taken for a playlist if it holds the extension of one, in any case and
/// anywhere; what stands around it does not matter.
pub proof fn law_a_playlist_is_told_by_its_url(a: Seq<char>, part: Seq<char>, b: Seq<char>)
    ensures
        text::eq_fold(part, ".m3u8"@) ==> download::hls_url(a + part + b),
        download::hls_url(part) ==> download::hls_url(a + part + b),
        download::hls_url(text::lower(part)) == download::hls_url(part),
        download::hls_url(part) ==> exists|i: int|
            0 <= i <= part.len() - 5 && text::eq_fold(#[trigger] part.subrange(i, i + 5), ".m3u8"@),
{
    reveal_strlit(".m3u8");
    let e = ".m3u8"@;
    let whole = a + part + b;
    assert(text::lower(e) =~= e);
    let n = a.len() as int;
    if text::eq_fold(part, e) {
        assert(part.len() == 5) by {
            assert(text::lower(part).len() == e.len());
        }
        assert(text::lower(whole).subrange(n, n + 5) =~= text::lower(part));
        assert(text::occurs_at(text::lower(whole), e, n));
    }
    if download::hls_url(part) {
        let i = choose|i: int| text::occurs_at(text::lower(part), e, i);
        assert(text::lower(whole).subrange(n + i, n + i + 5) =~= text::lower(part).subrange(i, i + 5));
        assert(text::occurs_at(text::lower(whole), e, n + i));
        assert(text::lower(part.subrange(i, i + 5)) =~= text::lower(part).subrange(i, i + 5));
        assert(text::eq_fold(part.subrange(i, i + 5), e));
    }
    assert(text::lower(text::lower(part)) =~= text::lower(part));
}

/// A playlist is looked for exactly where the URL is taken for one, and fetched
/// exactly where it did not come along.
pub proof fn law_a_playlist_is_fetched_once(url: Seq<char>, options: DownloadOptions)
    ensures
        download::source_of_playlist(url, options) == PlaylistSource::Nowhere <==> !download::hls_url(url),
        download::source_of_playlist(url, options) == PlaylistSource::Fetch <==> download::hls_url(url)
            && options.playlist_text is None,
        download::source_of_playlist(url, options) == PlaylistSource::Supplied <==> download::hls_url(url)
            && options.playlist_text is Some,
{
}

/// What is downloaded of a playlist is a rendition that it lists, and the sound
/// beside it is one that it lists for that rendition; a rendition for which it
/// lists one is never downloaded without.
pub proof fn law_a_rendition_is_downloaded_with_its_sound(
    master: MasterPlaylist,
    requested: Option<ChoiceView>,
)
    ensures
        match download::chosen_input(Some(Playlist::Master(master)), requested) {
            Some(found) => exists|i: int|
                {
                    &&& 0 <= i < master@.renditions.len()
                    &&& (#[trigger] master@.renditions[i]).url == found.0
                    &&& found.1 matches Some(sound) ==> exists|j: int|
                        0 <= j < master@.audio.len() && (#[trigger] master@.audio[j]).url == sound
                            && master@.renditions[i].audio_group == Some(master@.audio[j].group_id)
                    &&& found.1 is None ==> forall|j: int|
                        0 <= j < master@.audio.len() ==> master@.renditions[i].audio_group != Some(
                            (#[trigger] master@.audio[j]).group_id,
                        )
                },
            None => true,
        },
        download::chosen_input(None, requested) is None,
        download::chosen_input(Some(Playlist::Unusable), requested) is None,
{
    let m = master@;
    if let Some(x) = m.chosen(requested) {
        playlist_laws::law_a_sound_belongs_to_its_rendition(m, x);
        let s = m.renditions;
        match requested {
            Some(ChoiceView::Height(h)) => {
                playlist_laws::lemma_first_of_height(s, h, 0);
                assert(s[scraper::with_height(s, h, 0)] == x);
            },
            Some(ChoiceView::Exact(url)) => {
                playlist_laws::lemma_first_at_url(s, url.text, 0);
                assert(s[scraper::with_url(s, url.text, 0)] == x);
            },
            Some(ChoiceView::Worst) => {
                assert(s[s.len() - 1] == x);
            },
            _ => {
                assert(s[0] == x);
            },
        }
        let i = choose|i: int| 0 <= i < s.len() && s[i] == x;
        assert(s[i].url == x.url);
    }
}

/// A download is started again only after a failure of FFmpeg that may pass, as
/// long as attempts are left and nobody cancelled it; then it always is.
pub proof fn law_a_download_is_started_again(
    retries: u32,
    restarts: u32,
    error: DownerError,
    cancelled: bool,
)
    ensures
        download::is_retried(retries, restarts, error, cancelled) ==> restarts < retries && !cancelled
            && error is FfmpegFailed,
        cancelled || restarts >= retries ==> !download::is_retried(retries, restarts, error, cancelled),
        error matches DownerError::FfmpegFailed { status, stderr } ==> (download::is_retried(
            retries,
            restarts,
            error,
            cancelled,
        ) <==> restarts < retries && !cancelled && failure_laws::speaks_of_a_passing_failure(stderr@)
            && !failure_laws::speaks_of_a_lasting_failure(stderr@)),
{
    if let DownerError::FfmpegFailed { status, stderr } = error {
        failure_laws::law_a_passing_failure_is_worth_another_attempt(stderr@);
    }
}

/// What is left of a download that failed: the name that it reserved is given back
/// exactly if nothing was written to it, and what it wrote is discarded exactly if
/// its user cancelled it and does not want to keep it. One that succeeded leaves
/// everything.
pub proof fn law_what_was_written_is_kept(
    r: Conclusion,
    options: DownloadOptions,
    target: OutputTarget,
    outdated: Option<FfmpegVersion>,
    result: DownerResult<String>,
    size: Option<u64>,
    by_request: bool,
)
    requires
        download::is_concluded(r, options, target, outdated, result, size, by_request),
    ensures
        result is Ok <==> r.result is Ok,
        result is Ok ==> !r.release && !r.discard && r.result->Ok_0@ == result->Ok_0@,
        result is Err ==> (r.release <==> target.reserved && size == Some(0u64)),
        result is Err ==> (r.discard <==> by_request && !options.keep_partial),
        result is Err && outdated is None ==> r.result == result,
        result is Err && !(result->Err_0 is FfmpegFailed) ==> r.result == result,
        result is Err && result->Err_0 is FfmpegFailed && outdated is Some ==> (
        r.result matches Err(DownerError::FfmpegTooOld { version, minimum, stderr }) && version
            == outdated->0 && minimum.major == 7 && minimum.minor == 1),
{
}

/// A run is given the output, the permission to overwrite it, the program and the
/// threads that were settled before, the cookies of the host that is asked, and
/// lenience exactly where a playlist is read by an FFmpeg that knows of it.
pub proof fn law_a_run_is_given_what_was_settled(
    r: Prepared,
    media: ResolvedMedia,
    options: DownloadOptions,
    target: OutputTarget,
    outdated: Option<FfmpegVersion>,
    playlist: Option<Playlist>,
    controlled: bool,
)
    requires
        download::is_prepared(Ok(r), media, options, target, outdated, playlist, controlled),
    ensures
        r.invocation.output@ == target.path@,
        r.invocation.overwrite == target.overwrite,
        r.invocation.program@ == options.ffmpeg@,
        r.invocation.threads == options.threads,
        r.invocation.reconnect == options.reconnect,
        r.invocation.hls_lenient <==> download::hls_url(media.url@.text) && outdated is None,
        text::opt_text(r.invocation.cookies) == scraper::cookie_lines(media.url@, text::opt_text(options.cookie)),
        media.referer is None ==> text::opt_text(r.invocation.headers) == Some(
            scraper::header_block(None, options.user_agent@),
        ),
        media.referer is Some ==> text::opt_text(r.invocation.headers) == Some(
            scraper::header_block(Some((media.referer->0)@.text), options.user_agent@),
        ),
        options.cookie is None ==> r.invocation.cookies is None,
        download::chosen_input(playlist, download::choice_of(options.rendition)) matches Some(found)
            ==> r.invocation.input@ == found.0.text && (found.1 is Some
            <==> r.invocation.audio_input is Some) && (found.1 matches Some(sound)
            ==> text::opt_text(r.invocation.audio_input) == Some(sound.text)),
        r.invocation.reporting is Controlled <==> controlled,
        playlist is None ==> r.invocation.input@ == media.url@.text && r.invocation.audio_input
            is None && options.rendition is None,
        options.quiet ==> r.notices@.len() == 0,
{
    if let Some(found) = download::chosen_input(playlist, download::choice_of(options.rendition)) {
        if options.quiet {
            assert(text::texts(r.notices@).len() == r.notices@.len());
        }
    }
}

/// What is printed names what is downloaded and where it is written, and the page
/// only where there is one; a rendition is named only where one was chosen, with
/// its sound if it has one. A quiet download prints nothing.
pub proof fn law_what_is_downloaded_is_named(
    page: UrlView,
    url: UrlView,
    input: UrlView,
    audio: UrlView,
    destination: Seq<char>,
)
    ensures
        download::opening_lines(true, Some(page), url, destination).len() == 0,
        download::opening_lines(true, None, url, destination).len() == 0,
        download::opening_lines(false, None, url, destination) == seq![
            "Downloading "@ + url.text,
            "Destination: "@ + destination,
        ],
        download::opening_lines(false, Some(page), url, destination) == seq![
            "Resolved media URL from "@ + page.text,
            "Downloading "@ + url.text,
            "Destination: "@ + destination,
        ],
        download::choice_lines(true, url, input, Some(audio)).len() == 0,
        download::choice_lines(false, url, url, Some(audio)).len() == 0,
        input.text != url.text ==> download::choice_lines(false, url, input, None) == seq![
            "Selected rendition: "@ + input.text,
        ],
        input.text != url.text ==> download::choice_lines(false, url, input, Some(audio)) == seq![
            "Selected rendition: "@ + input.text,
            "Selected audio rendition: "@ + audio.text,
        ],
{
    let d = download::opening_lines(false, None, url, destination);
    assert(d =~= seq!["Downloading "@ + url.text, "Destination: "@ + destination]);
    assert(download::opening_lines(false, Some(page), url, destination) =~= seq![
        "Resolved media URL from "@ + page.text,
        "Downloading "@ + url.text,
        "Destination: "@ + destination,
    ]);
    if input.text != url.text {
        assert(download::choice_lines(false, url, input, None) =~= seq![
            "Selected rendition: "@ + input.text,
        ]);
        assert(download::choice_lines(false, url, input, Some(audio)) =~= seq![
            "Selected rendition: "@ + input.text,
            "Selected audio rendition: "@ + audio.text,
        ]);
    }
}

/// The exit status says what has to be mended: what was typed, where is written
/// to, FFmpeg, the media or the setup. No failure exits like a success.
pub proof fn law_the_exit_status_says_what_to_mend(error: DownerError)
    ensures
        download::exit_status(error) != 0,
        download::exit_status(error) == 2 <==> error is InvalidUrl || error is CookieSource || error
            is HostArgument,
        download::exit_status(error) == 3 <==> error is OutputExists || error is OutputPath || error
            is OutputDirectory || error is OutputIo,
        download::exit_status(error) == 4 <==> error is FfmpegUnavailable || error is FfmpegTooOld,
        download::exit_status(error) == 5 <==> error is FfmpegFailed || error is SourceFetchFailed || error
            is MediaNotFound || error is CandidateNotOffered || error is VariantNotOffered,
        download::exit_status(error) == 6 <==> error is SetupCheckFailed,
        download::exit_status(error) == 1 <==> error is NativeIo || error is Host,
{
}

/// A warning names the version that is too old, and a rendition at a URL is shown
/// by that URL.
pub proof fn law_what_is_meant_is_shown(version: FfmpegVersion, url: UrlView)
    ensures
        text::contains(download::outdated_warning(version), version.text()),
        text::contains(download::outdated_warning(version), "7.1"@),
        download::rendition_text(ChoiceView::Exact(url)) == url.text,
{
    reveal_strlit("7.1");
    reveal_strlit(".");
    let m = ffmpeg::minimum_version().text();
    assert(text::decimal(7) =~= seq!['7']);
    assert(text::decimal(1) =~= seq!['1']);
    assert(m =~= "7.1"@);
    let head = "Warning: FFmpeg "@;
    let middle = " is older than the minimum supported "@;
    let tail = ". HLS segment-extension options are being omitted; downloads may fail."@;
    let whole = download::outdated_warning(version);
    text_laws::law_a_phrase_is_held(whole, version.text());
    assert(head + version.text() + (middle + m + tail) =~= whole);
    text_laws::law_a_phrase_is_held(whole, m);
    assert((head + version.text() + middle) + m + tail =~= whole);
}

/// A download begins by naming where it is written, unless it is quiet.
pub proof fn law_a_download_begins_with_its_destination(asking: Asking, lines: Vec<String>)
    requires
        asking.begins(lines),
    ensures
        asking.job.options.quiet ==> lines@.len() == 0,
        !asking.job.options.quiet ==> lines@.len() >= 2 && lines@.last()@ == "Destination: "@
            + asking.target.path@ && lines@[lines@.len() - 2]@ == "Downloading "@
            + asking.job.media.url@.text,
{
    let shown = text::texts(lines@);
    assert(shown.len() == lines@.len());
    if !asking.job.options.quiet {
        let n = lines@.len() as int;
        assert(shown[n - 1] == lines@[n - 1]@);
        assert(shown[n - 2] == lines@[n - 2]@);
    }
}

} // verus!
