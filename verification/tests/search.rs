use yoik::magnet::magnet_link;
use yoik::search::{listed, search_query, search_results, sort_by_seeders, ApiBayTorrent, SearchResult};
use yoik::size::format_size;

fn torrent(id: &str, name: &str, hash: &str, seeders: &str, leechers: &str, size: &str) -> ApiBayTorrent {
    ApiBayTorrent {
        id: id.to_string(),
        name: name.to_string(),
        info_hash: hash.to_string(),
        seeders: seeders.to_string(),
        leechers: leechers.to_string(),
        size: size.to_string(),
    }
}

#[test]
fn placeholder_entry_is_dropped() {
    let ts = vec![torrent(
        "0",
        "No results returned",
        "0000000000000000000000000000000000000000",
        "0",
        "0",
        "0",
    )];
    assert!(search_results(&ts).is_empty());
}

#[test]
fn all_zero_hash_is_dropped_in_any_case() {
    let ts = vec![torrent("5", "a", "0000000000000000000000000000000000000000", "9", "1", "1")];
    assert!(search_results(&ts).is_empty());
    let ts = vec![torrent("0", "a", "ABCDEF", "9", "1", "1")];
    assert!(search_results(&ts).is_empty());
}

#[test]
fn unseeded_and_unparsable_seeders_are_dropped() {
    let ts = vec![
        torrent("1", "a", "h1", "0", "3", "10"),
        torrent("2", "b", "h2", "many", "3", "10"),
        torrent("3", "c", "h3", "-4", "3", "10"),
        torrent("4", "d", "h4", "+2", "x", "y"),
    ];
    let r = search_results(&ts);
    assert_eq!(r.len(), 1);
    assert_eq!(r[0].name, "d");
    assert_eq!(r[0].seeders, 2);
    assert_eq!(r[0].leechers, 0);
    assert_eq!(r[0].size_label, "0 B");
}

#[test]
fn result_fields() {
    let ts = vec![torrent("7", "Some Film", "DEADBEEF", "12", "3", "1536")];
    let r = search_results(&ts);
    assert_eq!(r.len(), 1);
    assert_eq!(r[0].name, "Some Film");
    assert_eq!(r[0].magnet, magnet_link("DEADBEEF", "Some Film"));
    assert_eq!(r[0].seeders, 12);
    assert_eq!(r[0].leechers, 3);
    assert_eq!(r[0].size_label, format_size(1536));
    assert_eq!(r[0].size_label, "1.5 KB");
}

#[test]
fn most_seeded_first_and_ties_keep_order() {
    let ts = vec![
        torrent("1", "a", "h1", "5", "0", "0"),
        torrent("2", "b", "h2", "9", "0", "0"),
        torrent("3", "c", "h3", "5", "0", "0"),
        torrent("0", "skip", "h4", "50", "0", "0"),
        torrent("4", "d", "h5", "1", "0", "0"),
        torrent("5", "e", "h6", "9", "0", "0"),
        torrent("6", "f", "h7", "5", "0", "0"),
    ];
    let names: Vec<String> = search_results(&ts).into_iter().map(|r| r.name).collect();
    assert_eq!(names, vec!["b", "e", "a", "c", "f", "d"]);
}

#[test]
fn listing_keeps_apibay_order() {
    let ts = vec![
        torrent("1", "a", "h1", "1", "0", "0"),
        torrent("2", "b", "h2", "9", "0", "0"),
        torrent("3", "c", "h3", "0", "0", "0"),
    ];
    let names: Vec<String> = listed(&ts).into_iter().map(|r| r.name).collect();
    assert_eq!(names, vec!["a", "b"]);
}

#[test]
fn sorting_matches_a_stable_sort() {
    let mut items: Vec<SearchResult> = Vec::new();
    let mut x: u64 = 12345;
    for i in 0..200 {
        x = x.wrapping_mul(6364136223846793005).wrapping_add(1442695040888963407);
        items.push(SearchResult {
            name: format!("n{i}"),
            magnet: String::new(),
            seeders: (x >> 60) % 7,
            leechers: 0,
            size_label: String::new(),
        });
    }
    let mut expected: Vec<(u64, String)> = items.iter().map(|r| (r.seeders, r.name.clone())).collect();
    expected.sort_by(|a, b| b.0.cmp(&a.0));
    let got: Vec<(u64, String)> = sort_by_seeders(items).into_iter().map(|r| (r.seeders, r.name)).collect();
    assert_eq!(got, expected);
}

#[test]
fn search_query_is_trimmed() {
    assert_eq!(search_query("  dune 2021 "), Some("dune 2021".to_string()));
    assert_eq!(search_query("   "), None);
    assert_eq!(search_query(""), None);
}
