//! What a submitted form asks for: the kind of media, where it ends up, and
//! which downloader fetches the link with which arguments.

use vstd::prelude::*;
use crate::classify::{youtube_url, aria2c_url, is_valid_youtube_url, is_aria2c_url, looks_like_option};
use crate::text::{owned, strings_view};

verus! {

/// The kinds of media the form offers.
pub enum MediaKind {
    Music,
    Audiobook,
    Film,
    Series,
}

/// The directories the service works with.
pub struct AppState {
    pub download_dir: String,
    pub music_dir: String,
    pub audiobook_dir: String,
    pub film_dir: String,
    pub series_dir: String,
}

impl MediaKind {
    /// The directory that media of this kind end up in.
    pub open spec fn dir_in(self, state: AppState) -> Seq<char> {
        match self {
            MediaKind::Music => state.music_dir@,
            MediaKind::Audiobook => state.audiobook_dir@,
            MediaKind::Film => state.film_dir@,
            MediaKind::Series => state.series_dir@,
        }
    }

    /// The word for this kind in messages.
    pub open spec fn label_text(self) -> Seq<char> {
        match self {
            MediaKind::Music => "music"@,
            MediaKind::Audiobook => "audiobook"@,
            MediaKind::Film => "film"@,
            MediaKind::Series => "series"@,
        }
    }

    /// Music and audiobooks are fetched as audio only.
    pub open spec fn audio(self) -> bool {
        self is Music || self is Audiobook
    }

    /// The directory that media of this kind end up in.
    pub fn output_dir<'a>(&self, state: &'a AppState) -> (r: &'a str)
        ensures
            r@ == self.dir_in(*state),
    {
        match self {
            MediaKind::Music => state.music_dir.as_str(),
            MediaKind::Audiobook => state.audiobook_dir.as_str(),
            MediaKind::Film => state.film_dir.as_str(),
            MediaKind::Series => state.series_dir.as_str(),
        }
    }

    /// Whether this kind is fetched as audio only.
    pub fn is_audio(&self) -> (r: bool)
        ensures
            r == self.audio(),
    {
        match self {
            MediaKind::Music | MediaKind::Audiobook => true,
            _ => false,
        }
    }

    /// The word for this kind in messages.
    pub fn label(&self) -> (r: &'static str)
        ensures
            r@ == self.label_text(),
    {
        match self {
            MediaKind::Music => "music",
            MediaKind::Audiobook => "audiobook",
            MediaKind::Film => "film",
            MediaKind::Series => "series",
        }
    }
}

/// yt-dlp options for audio: extract the audio as mp3, single video only.
pub open spec fn audio_options() -> Seq<Seq<char>> {
    seq!["-x"@, "--audio-format"@, "mp3"@, "--no-playlist"@]
}

/// yt-dlp options for video: best video and audio merged into mp4, single
/// video only.
pub open spec fn video_options() -> Seq<Seq<char>> {
    seq!["-f"@, "bestvideo+bestaudio/best"@, "--merge-output-format"@, "mp4"@, "--no-playlist"@]
}

/// What to do with a submitted link.
pub enum DownloadPlan {
    /// Fetch with yt-dlp, with these options.
    YtDlp {
        label: &'static str,
        url: String,
        options: Vec<String>,
        download_dir: String,
        dest_dir: String,
    },
    /// Fetch with aria2c.
    Aria2c { label: &'static str, url: String, download_dir: String, dest_dir: String },
    /// The link is neither; nothing is fetched.
    Unsupported { label: &'static str, url: String },
}

/// A [`DownloadPlan`] with every text as a character sequence.
pub enum PlanView {
    YtDlp {
        label: Seq<char>,
        url: Seq<char>,
        options: Seq<Seq<char>>,
        download_dir: Seq<char>,
        dest_dir: Seq<char>,
    },
    Aria2c { label: Seq<char>, url: Seq<char>, download_dir: Seq<char>, dest_dir: Seq<char> },
    Unsupported { label: Seq<char>, url: Seq<char> },
}

impl View for DownloadPlan {
    type V = PlanView;

    open spec fn view(&self) -> PlanView {
        match self {
            DownloadPlan::YtDlp { label, url, options, download_dir, dest_dir } => PlanView::YtDlp {
                label: label@,
                url: url@,
                options: strings_view(options@),
                download_dir: download_dir@,
                dest_dir: dest_dir@,
            },
            DownloadPlan::Aria2c { label, url, download_dir, dest_dir } => PlanView::Aria2c {
                label: label@,
                url: url@,
                download_dir: download_dir@,
                dest_dir: dest_dir@,
            },
            DownloadPlan::Unsupported { label, url } => PlanView::Unsupported {
                label: label@,
                url: url@,
            },
        }
    }
}

/// The plan for a link of this kind: YouTube links go to yt-dlp (audio or
/// video options by kind), other magnet, http(s) and ftp links to aria2c,
/// anything else is unsupported. Files land in the download directory first
/// and then move to the kind's directory.
pub open spec fn plan_for(state: AppState, kind: MediaKind, url: Seq<char>) -> PlanView {
    if youtube_url(url) {
        PlanView::YtDlp {
            label: kind.label_text(),
            url,
            options: if kind.audio() {
                audio_options()
            } else {
                video_options()
            },
            download_dir: state.download_dir@,
            dest_dir: kind.dir_in(state),
        }
    } else if aria2c_url(url) {
        PlanView::Aria2c {
            label: kind.label_text(),
            url,
            download_dir: state.download_dir@,
            dest_dir: kind.dir_in(state),
        }
    } else {
        PlanView::Unsupported { label: kind.label_text(), url }
    }
}

/// The plan for a submitted link of this kind. A link that is fetched never
/// starts with `-`, so no downloader reads it as an option.
pub fn plan_download(state: &AppState, kind: MediaKind, url: String) -> (r: DownloadPlan)
    ensures
        r@ == plan_for(*state, kind, url@),
        !(r@ is Unsupported) ==> !looks_like_option(url@),
{
    let label = kind.label();
    let dir = owned(kind.output_dir(state));
    let download_dir = state.download_dir.clone();
    if is_valid_youtube_url(url.as_str()) {
        let options = if kind.is_audio() {
            vec![owned("-x"), owned("--audio-format"), owned("mp3"), owned("--no-playlist")]
        } else {
            vec![
                owned("-f"),
                owned("bestvideo+bestaudio/best"),
                owned("--merge-output-format"),
                owned("mp4"),
                owned("--no-playlist"),
            ]
        };
        let r = DownloadPlan::YtDlp { label, url, options, download_dir, dest_dir: dir };
        proof {
            if kind.audio() {
                assert(strings_view(options@) =~= audio_options());
            } else {
                assert(strings_view(options@) =~= video_options());
            }
        }
        r
    } else if is_aria2c_url(url.as_str()) {
        DownloadPlan::Aria2c { label, url, download_dir, dest_dir: dir }
    } else {
        DownloadPlan::Unsupported { label, url }
    }
}

/// For a YouTube link, the plan runs yt-dlp with the audio options (`-x`,
/// mp3, single video) exactly for music and audiobooks and the video options
/// (best video and audio merged into mp4, single video) for films and series,
/// downloading into the download directory and keeping the link and the
/// kind's word and directory.
pub proof fn youtube_plans_follow_the_kind(state: AppState, kind: MediaKind, url: Seq<char>)
    requires
        youtube_url(url),
    ensures
        plan_for(state, kind, url) matches PlanView::YtDlp { label, url: u, options, download_dir, dest_dir } && {
            &&& u == url
            &&& download_dir == state.download_dir@
            &&& (kind is Music || kind is Audiobook) ==> options == seq![
                "-x"@,
                "--audio-format"@,
                "mp3"@,
                "--no-playlist"@,
            ]
            &&& !(kind is Music || kind is Audiobook) ==> options == seq![
                "-f"@,
                "bestvideo+bestaudio/best"@,
                "--merge-output-format"@,
                "mp4"@,
                "--no-playlist"@,
            ]
            &&& (kind is Music ==> label == "music"@ && dest_dir == state.music_dir@)
            &&& (kind is Audiobook ==> label == "audiobook"@ && dest_dir == state.audiobook_dir@)
            &&& (kind is Film ==> label == "film"@ && dest_dir == state.film_dir@)
            &&& (kind is Series ==> label == "series"@ && dest_dir == state.series_dir@)
        },
{
}

} // verus!
