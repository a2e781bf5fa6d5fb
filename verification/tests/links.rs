use yoik::classify::{is_aria2c_scheme, is_aria2c_url, is_valid_youtube_url, is_youtube_scheme_and_host};
use yoik::magnet::magnet_link;

#[test]
fn youtube_links_are_recognised() {
    assert!(is_valid_youtube_url("https://www.youtube.com/watch?v=dQw4w9WgXcQ"));
    assert!(is_valid_youtube_url("http://youtube.com/watch?v=1"));
    assert!(is_valid_youtube_url("https://m.youtube.com/watch?v=1"));
    assert!(is_valid_youtube_url("https://music.youtube.com/watch?v=1"));
    assert!(is_valid_youtube_url("  https://youtu.be/abc \n"));
    assert!(is_valid_youtube_url("HTTPS://WWW.YOUTUBE.COM/watch?v=1"));
}

#[test]
fn other_links_are_not_youtube() {
    assert!(!is_valid_youtube_url(""));
    assert!(!is_valid_youtube_url("   "));
    assert!(!is_valid_youtube_url("ftp://youtube.com/x"));
    assert!(!is_valid_youtube_url("https://youtube.com.example.org/watch"));
    assert!(!is_valid_youtube_url("https://vimeo.com/1"));
    assert!(!is_valid_youtube_url("youtube.com/watch?v=1"));
    assert!(!is_valid_youtube_url("magnet:?xt=urn:btih:abc"));
}

#[test]
fn aria2c_links_are_recognised() {
    assert!(is_aria2c_url("magnet:?xt=urn:btih:abc"));
    assert!(is_aria2c_url("  MaGnEt:whatever  "));
    assert!(is_aria2c_url("http://example.org/file.iso"));
    assert!(is_aria2c_url("https://example.org/file.iso"));
    assert!(is_aria2c_url("ftp://example.org/pub/file.iso"));
    assert!(is_aria2c_url("https://www.youtube.com/watch?v=1"));
}

#[test]
fn other_links_are_not_aria2c() {
    assert!(!is_aria2c_url(""));
    assert!(!is_aria2c_url(" \t "));
    assert!(!is_aria2c_url("file:///etc/passwd"));
    assert!(!is_aria2c_url("some film title"));
    assert!(!is_aria2c_url("magnet"));
    assert!(!is_aria2c_url("sftp://example.org/x"));
}

#[test]
fn youtube_links_also_pass_the_aria2c_check() {
    for link in [
        "https://www.youtube.com/watch?v=1",
        "http://youtu.be/x",
        " https://music.youtube.com/playlist?list=1 ",
    ] {
        assert!(is_valid_youtube_url(link));
        assert!(is_aria2c_url(link));
    }
}

#[test]
fn scheme_and_host_decisions() {
    let s = |x: &str| x.to_string();
    assert!(is_youtube_scheme_and_host(&s("https"), &Some(s("youtu.be"))));
    assert!(is_youtube_scheme_and_host(&s("http"), &Some(s("www.youtube.com"))));
    assert!(!is_youtube_scheme_and_host(&s("ftp"), &Some(s("youtube.com"))));
    assert!(!is_youtube_scheme_and_host(&s("https"), &None));
    assert!(!is_youtube_scheme_and_host(&s("https"), &Some(s("youtube.co"))));
    assert!(is_aria2c_scheme(&s("ftp")));
    assert!(is_aria2c_scheme(&s("https")));
    assert!(!is_aria2c_scheme(&s("file")));
    assert!(!is_aria2c_scheme(&s("HTTP")));
}

const TRACKER_QUERY: &str = "tr=udp%3A%2F%2Ftracker.opentrackr.org%3A1337%2Fannounce\
&tr=udp%3A%2F%2Fopen.stealth.si%3A80%2Fannounce\
&tr=udp%3A%2F%2Ftracker.openbittorrent.com%3A6969%2Fannounce\
&tr=udp%3A%2F%2Fexodus.desync.com%3A6969%2Fannounce\
&tr=udp%3A%2F%2Ftracker.torrent.eu.org%3A451%2Fannounce";

#[test]
fn magnet_link_encodes_name_and_trackers() {
    let m = magnet_link("ABCDEF0123", "My Film (2020) [1080p]");
    assert_eq!(
        m,
        format!("magnet:?xt=urn:btih:ABCDEF0123&dn=My+Film+%282020%29+%5B1080p%5D&{TRACKER_QUERY}")
    );
}

#[test]
fn magnet_link_encodes_non_ascii_as_utf8_bytes() {
    let m = magnet_link("h", "Amélie*-._~");
    assert_eq!(m, format!("magnet:?xt=urn:btih:h&dn=Am%C3%A9lie*-._%7E&{TRACKER_QUERY}"));
}

#[test]
fn magnet_link_with_empty_name() {
    let m = magnet_link("", "");
    assert_eq!(m, format!("magnet:?xt=urn:btih:&dn=&{TRACKER_QUERY}"));
}

#[test]
fn magnet_links_pass_the_aria2c_check() {
    for (hash, name) in [("abc", "x"), ("", ""), (" spaced hash ", "  name\twith\nspace  "), ("Z", "日本語")] {
        assert!(is_aria2c_url(&magnet_link(hash, name)));
    }
}

#[test]
fn magnet_query_decodes_to_name_and_trackers() {
    for (hash, name) in [("abc", "My Film (2020) & more = less"), ("", ""), ("h", "日本語 + 100%")] {
        let m = magnet_link(hash, name);
        let prefix = format!("magnet:?xt=urn:btih:{hash}&");
        assert!(m.starts_with(&prefix));
        let pairs: Vec<(String, String)> = url::form_urlencoded::parse(m[prefix.len()..].as_bytes())
            .map(|(k, v)| (k.into_owned(), v.into_owned()))
            .collect();
        let mut expected = vec![("dn".to_string(), name.to_string())];
        for t in [
            "udp://tracker.opentrackr.org:1337/announce",
            "udp://open.stealth.si:80/announce",
            "udp://tracker.openbittorrent.com:6969/announce",
            "udp://exodus.desync.com:6969/announce",
            "udp://tracker.torrent.eu.org:451/announce",
        ] {
            expected.push(("tr".to_string(), t.to_string()));
        }
        assert_eq!(pairs, expected);
    }
}
