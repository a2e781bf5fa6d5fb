use yoik::plan::{plan_download, AppState, DownloadPlan, MediaKind};

fn state() -> AppState {
    AppState {
        download_dir: "/dl".to_string(),
        music_dir: "/music".to_string(),
        audiobook_dir: "/books".to_string(),
        film_dir: "/films".to_string(),
        series_dir: "/series".to_string(),
    }
}

#[test]
fn kinds() {
    let s = state();
    assert_eq!(MediaKind::Music.output_dir(&s), "/music");
    assert_eq!(MediaKind::Audiobook.output_dir(&s), "/books");
    assert_eq!(MediaKind::Film.output_dir(&s), "/films");
    assert_eq!(MediaKind::Series.output_dir(&s), "/series");
    assert!(MediaKind::Music.is_audio());
    assert!(MediaKind::Audiobook.is_audio());
    assert!(!MediaKind::Film.is_audio());
    assert!(!MediaKind::Series.is_audio());
    assert_eq!(MediaKind::Music.label(), "music");
    assert_eq!(MediaKind::Audiobook.label(), "audiobook");
    assert_eq!(MediaKind::Film.label(), "film");
    assert_eq!(MediaKind::Series.label(), "series");
}

#[test]
fn youtube_music_is_fetched_as_audio() {
    match plan_download(&state(), MediaKind::Music, "https://youtu.be/x".to_string()) {
        DownloadPlan::YtDlp { label, url, options, download_dir, dest_dir } => {
            assert_eq!(label, "music");
            assert_eq!(url, "https://youtu.be/x");
            assert_eq!(options, vec!["-x", "--audio-format", "mp3", "--no-playlist"]);
            assert_eq!(download_dir, "/dl");
            assert_eq!(dest_dir, "/music");
        }
        _ => panic!("expected yt-dlp"),
    }
}

#[test]
fn youtube_film_is_fetched_as_video() {
    match plan_download(&state(), MediaKind::Film, "https://www.youtube.com/watch?v=1".to_string()) {
        DownloadPlan::YtDlp { options, dest_dir, .. } => {
            assert_eq!(
                options,
                vec!["-f", "bestvideo+bestaudio/best", "--merge-output-format", "mp4", "--no-playlist"]
            );
            assert_eq!(dest_dir, "/films");
        }
        _ => panic!("expected yt-dlp"),
    }
}

#[test]
fn magnet_goes_to_aria2c() {
    match plan_download(&state(), MediaKind::Series, "magnet:?xt=urn:btih:abc".to_string()) {
        DownloadPlan::Aria2c { label, url, download_dir, dest_dir } => {
            assert_eq!(label, "series");
            assert_eq!(url, "magnet:?xt=urn:btih:abc");
            assert_eq!(download_dir, "/dl");
            assert_eq!(dest_dir, "/series");
        }
        _ => panic!("expected aria2c"),
    }
}

#[test]
fn search_text_is_unsupported() {
    match plan_download(&state(), MediaKind::Audiobook, "dune audiobook".to_string()) {
        DownloadPlan::Unsupported { label, url } => {
            assert_eq!(label, "audiobook");
            assert_eq!(url, "dune audiobook");
        }
        _ => panic!("expected unsupported"),
    }
}

#[test]
fn option_like_links_are_unsupported() {
    for link in ["--exec=rm -rf /", "-o/tmp/x", "-https://youtu.be/x"] {
        match plan_download(&state(), MediaKind::Film, link.to_string()) {
            DownloadPlan::Unsupported { .. } => {}
            _ => panic!("{link} should be unsupported"),
        }
    }
}
