use yoik::jobs::{
    aria2c_args, download_exit_failure, download_failed, download_finished, download_started,
    downloaded_name, exit_code, move_failure, notice_args, notice_program, yt_dlp_args,
};
use yoik::staging::{new_staging_dir, staging_dir_path};
use yoik::stderr::{append_tail, stderr_tail, stderr_tail_text, with_stderr_tail};
use std::sync::atomic::AtomicU64;

fn expected_tail(stderr: &[u8]) -> String {
    let text = String::from_utf8_lossy(stderr);
    let lines: Vec<&str> = text.lines().map(str::trim).filter(|l| !l.is_empty()).collect();
    let start = lines.len().saturating_sub(20);
    let tail = lines[start..].join("\n");
    if tail.len() <= 2048 {
        return tail;
    }
    let mut start_byte = tail.len() - 2048;
    while start_byte > 0 && !tail.is_char_boundary(start_byte) {
        start_byte -= 1;
    }
    format!("…{}", &tail[start_byte..])
}

#[test]
fn tail_keeps_last_twenty_nonblank_trimmed_lines() {
    let mut text = String::new();
    for i in 0..30 {
        text.push_str(&format!("  line {i}\r\n\n \t \n"));
    }
    let t = stderr_tail_text(&text);
    let expected: Vec<String> = (10..30).map(|i| format!("line {i}")).collect();
    assert_eq!(t, expected.join("\n"));
}

#[test]
fn tail_of_empty_or_blank_stderr_is_empty() {
    assert_eq!(stderr_tail(b""), "");
    assert_eq!(stderr_tail(b" \n\t\r\n"), "");
}

#[test]
fn long_tail_is_cut_at_a_character() {
    let mut text = String::new();
    for i in 0..5 {
        text.push_str(&"é€😀x".repeat(100 + i));
        text.push('\n');
    }
    let t = stderr_tail_text(&text);
    assert!(t.starts_with('…'));
    assert!(t.len() >= 2048 + 3);
    assert!(t.len() <= 2048 + 3 + 3);
    assert_eq!(t, expected_tail(text.as_bytes()));
}

#[test]
fn tails_agree_with_line_and_byte_rules() {
    let samples: Vec<Vec<u8>> = vec![
        b"error: something\n".to_vec(),
        b"a\n\nb\r\n   c   \n".to_vec(),
        vec![0xff, 0xfe, b'\n', b'o', b'k', 0xc3],
        "x".repeat(5000).into_bytes(),
        "ab\u{2028}cd\n".repeat(400).into_bytes(),
        "😀".repeat(600).into_bytes(),
        "\u{a0}line\u{3000}\n".repeat(25).into_bytes(),
    ];
    for s in samples {
        assert_eq!(stderr_tail(&s), expected_tail(&s));
    }
}

#[test]
fn messages_with_stderr() {
    assert_eq!(with_stderr_tail("msg".to_string(), b"  oops  \n"), "msg\noops");
    assert_eq!(with_stderr_tail("msg".to_string(), b"\n\n"), "msg");
    assert_eq!(append_tail("a".to_string(), &"b".to_string()), "a\nb");
    assert_eq!(append_tail("a".to_string(), &String::new()), "a");
}

#[test]
fn staging_paths() {
    assert_eq!(staging_dir_path("/data/dl", 1700000000123456789, 3), "/data/dl/1700000000123456789-3");
    let counter = AtomicU64::new(7);
    let p = new_staging_dir("/tmp/x", &counter);
    assert!(p.starts_with("/tmp/x/"));
    assert!(p.ends_with("-7"));
    let middle = &p["/tmp/x/".len()..p.len() - 2];
    assert!(middle.parse::<u128>().is_ok());
    let q = new_staging_dir("/tmp/x", &counter);
    assert!(q.ends_with("-8"));
}

#[test]
fn downloader_arguments() {
    let opts = vec!["-x".to_string()];
    assert_eq!(
        yt_dlp_args(opts, "/s/1-0", "https://youtu.be/a"),
        vec!["-x", "-o", "/s/1-0/%(title)s.%(ext)s", "https://youtu.be/a"]
    );
    assert_eq!(
        aria2c_args("/s/1-0", "magnet:?x"),
        vec!["--dir", "/s/1-0", "--continue=true", "--seed-time=60", "magnet:?x"]
    );
    assert_eq!(notice_program(), "/home/felix/.cargo/bin/t2");
    assert_eq!(notice_args("hi"), vec!["pub", "string/matrix", "hi", "tcp:10.0.0.2:9999"]);
}

#[test]
fn notices() {
    assert_eq!(download_started("film", "https://x"), "Downloading film https://x...");
    assert_eq!(download_failed("music", None, "boom"), "Failed to download music: boom");
    assert_eq!(
        download_failed("film", Some("/films"), "boom"),
        "Failed to download film to /films: boom"
    );
    assert_eq!(
        download_exit_failure("series", None, Some(2), b"bad\n"),
        "Failed to download series: exit code 2\nbad"
    );
    assert_eq!(
        download_exit_failure("film", Some("/f"), None, b""),
        "Failed to download film to /f: exit code -1"
    );
    assert_eq!(
        download_exit_failure("film", None, Some(i32::MIN), b""),
        format!("Failed to download film: exit code {}", i32::MIN)
    );
    assert_eq!(
        move_failure("/s/a", "/d/a", Some(1), b"mv: denied\n"),
        "mv /s/a /d/a failed with exit code 1\nmv: denied"
    );
    assert_eq!(exit_code(Some(3)), 3);
    assert_eq!(exit_code(None), -1);
}

#[test]
fn finished_notices() {
    let names = vec!["a.mp3".to_string(), "b.mp3".to_string()];
    assert_eq!(downloaded_name(&names), "a.mp3, b.mp3");
    assert_eq!(downloaded_name(&[]), "unknown");
    assert_eq!(downloaded_name(&["one".to_string()]), "one");
    assert_eq!(
        download_finished("music", "/m", &Ok(names)),
        "Downloaded music: a.mp3, b.mp3"
    );
    assert_eq!(download_finished("music", "/m", &Ok(vec![])), "Downloaded music: unknown");
    assert_eq!(
        download_finished("film", "/f", &Err("disk full".to_string())),
        "Downloaded film but failed to move to /f: disk full"
    );
}

use yoik::jobs::{after_move, after_run, Downloader, MoveOutcome, MoveStep, NextStep, RunOutcome};

fn notice(step: NextStep) -> Option<String> {
    match step {
        NextStep::MoveIntoPlace => None,
        NextStep::Notify { message } => Some(message),
    }
}

#[test]
fn successful_runs_move_into_place() {
    for tool in [Downloader::YtDlp, Downloader::Aria2c] {
        let out = RunOutcome::Exited { success: true, code: Some(0), stderr: b"noise\n".to_vec() };
        assert_eq!(notice(after_run(tool, "film", "/f", &out)), None);
    }
}

#[test]
fn failed_runs_post_notices() {
    let exited = RunOutcome::Exited { success: false, code: Some(1), stderr: b"ERROR: gone\n".to_vec() };
    assert_eq!(
        notice(after_run(Downloader::YtDlp, "music", "/m", &exited)),
        Some("Failed to download music: exit code 1\nERROR: gone".to_string())
    );
    assert_eq!(
        notice(after_run(Downloader::Aria2c, "film", "/f", &exited)),
        Some("Failed to download film to /f: exit code 1\nERROR: gone".to_string())
    );
    let killed = RunOutcome::Exited { success: false, code: None, stderr: Vec::new() };
    assert_eq!(
        notice(after_run(Downloader::Aria2c, "film", "/f", &killed)),
        Some("Failed to download film to /f: exit code -1".to_string())
    );
    let spawn = RunOutcome::SpawnFailed { error: "not found".to_string() };
    assert_eq!(
        notice(after_run(Downloader::YtDlp, "series", "/s", &spawn)),
        Some("Failed to download series: not found".to_string())
    );
    assert_eq!(
        notice(after_run(Downloader::Aria2c, "series", "/s", &spawn)),
        Some("Failed to download series to /s: not found".to_string())
    );
    let staging = RunOutcome::StagingFailed { error: "read-only".to_string() };
    assert_eq!(
        notice(after_run(Downloader::Aria2c, "film", "/f", &staging)),
        Some("Failed to download film: read-only".to_string())
    );
}

#[test]
fn move_steps() {
    let ok = MoveOutcome::Exited { success: true, code: Some(0), stderr: Vec::new() };
    assert!(matches!(after_move("/s/a", "/d/a", &ok), MoveStep::Moved));
    let bad = MoveOutcome::Exited { success: false, code: Some(1), stderr: b"mv: denied\n".to_vec() };
    match after_move("/s/a", "/d/a", &bad) {
        MoveStep::Stop { message } => assert_eq!(message, "mv /s/a /d/a failed with exit code 1\nmv: denied"),
        MoveStep::Moved => panic!("expected stop"),
    }
    let spawn = MoveOutcome::SpawnFailed { error: "no mv".to_string() };
    match after_move("/s/a", "/d/a", &spawn) {
        MoveStep::Stop { message } => assert_eq!(message, "failed to spawn mv: no mv"),
        MoveStep::Moved => panic!("expected stop"),
    }
}
