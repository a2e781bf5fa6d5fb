//! Torrent search results: which apibay entries are listed, what each listed
//! entry shows, and the order in which they are shown (most seeders first,
//! entries with equal seeders in the order apibay gave them).

use vstd::prelude::*;
use crate::text::{parse_u64, parsed_u64, text_eq, equal_ignore_ascii_case, eq_ignore_ascii_case, trim, trimmed};
use crate::magnet::{magnet_link, magnet_uri, magnet_links_are_aria2c_urls};
use crate::classify::aria2c_url;
use crate::size::{format_size, size_label};

verus! {

/// One entry of apibay's JSON answer, every field as the text apibay sent.
pub struct ApiBayTorrent {
    pub id: String,
    pub name: String,
    pub info_hash: String,
    pub seeders: String,
    pub leechers: String,
    pub size: String,
}

/// The fields of an [`ApiBayTorrent`] as character sequences.
pub struct TorrentView {
    pub id: Seq<char>,
    pub name: Seq<char>,
    pub info_hash: Seq<char>,
    pub seeders: Seq<char>,
    pub leechers: Seq<char>,
    pub size: Seq<char>,
}

impl View for ApiBayTorrent {
    type V = TorrentView;

    open spec fn view(&self) -> TorrentView {
        TorrentView {
            id: self.id@,
            name: self.name@,
            info_hash: self.info_hash@,
            seeders: self.seeders@,
            leechers: self.leechers@,
            size: self.size@,
        }
    }
}

/// One listed search result.
pub struct SearchResult {
    pub name: String,
    pub magnet: String,
    pub seeders: u64,
    pub leechers: u64,
    pub size_label: String,
}

/// The fields of a [`SearchResult`], the texts as character sequences.
pub struct ResultView {
    pub name: Seq<char>,
    pub magnet: Seq<char>,
    pub seeders: u64,
    pub leechers: u64,
    pub size_label: Seq<char>,
}

impl View for SearchResult {
    type V = ResultView;

    open spec fn view(&self) -> ResultView {
        ResultView {
            name: self.name@,
            magnet: self.magnet@,
            seeders: self.seeders,
            leechers: self.leechers,
            size_label: self.size_label@,
        }
    }
}

/// The fields of each torrent.
pub open spec fn torrents_view(ts: Seq<ApiBayTorrent>) -> Seq<TorrentView> {
    ts.map_values(|t: ApiBayTorrent| t@)
}

/// The fields of each result.
pub open spec fn results_view(rs: Seq<SearchResult>) -> Seq<ResultView> {
    rs.map_values(|r: SearchResult| r@)
}

/// A count field read as `parse::<u64>().unwrap_or(0)` reads it.
pub open spec fn count_or_zero(s: Seq<char>) -> u64 {
    match parsed_u64(s) {
        Some(v) => v,
        None => 0,
    }
}

/// The info hash apibay sends in its "no results" placeholder entry.
pub open spec fn dummy_info_hash() -> Seq<char> {
    "0000000000000000000000000000000000000000"@
}

/// An entry is listed unless it is apibay's placeholder (id `0` or the
/// all-zero info hash, in any ASCII case) or has no seeders.
pub open spec fn is_listed(t: TorrentView) -> bool {
    &&& t.id != "0"@
    &&& !eq_ignore_ascii_case(t.info_hash, dummy_info_hash())
    &&& count_or_zero(t.seeders) != 0
}

/// What a listed entry shows.
pub open spec fn result_for(t: TorrentView) -> ResultView {
    ResultView {
        name: t.name,
        magnet: magnet_uri(t.info_hash, t.name),
        seeders: count_or_zero(t.seeders),
        leechers: count_or_zero(t.leechers),
        size_label: size_label(count_or_zero(t.size) as nat),
    }
}

/// The results of the listed entries, in apibay's order.
pub open spec fn listed_results(ts: Seq<TorrentView>) -> Seq<ResultView>
    decreases ts.len(),
{
    if ts.len() == 0 {
        Seq::empty()
    } else {
        let rest = listed_results(ts.drop_last());
        if is_listed(ts.last()) {
            rest.push(result_for(ts.last()))
        } else {
            rest
        }
    }
}

/// The results with exactly `k` seeders, in their order in `s`.
pub open spec fn with_seeders(s: Seq<ResultView>, k: u64) -> Seq<ResultView> {
    s.filter(|r: ResultView| r.seeders == k)
}

/// No result has more seeders than one before it.
pub open spec fn seeders_descending(s: Seq<ResultView>) -> bool {
    forall|i: int, j: int| 0 <= i < j < s.len() ==> s[i].seeders >= s[j].seeders
}

/// `sorted` is `s` sorted by seeders, most first, by a stable sort: for every
/// seeder count the results with that count keep their order in `s`.
pub open spec fn stably_sorted_by_seeders(sorted: Seq<ResultView>, s: Seq<ResultView>) -> bool {
    &&& sorted.len() == s.len()
    &&& seeders_descending(sorted)
    &&& forall|k: u64| #[trigger] with_seeders(sorted, k) == with_seeders(s, k)
}

/// The search text to send to apibay: the query trimmed, or `None` when
/// nothing but whitespace is left.
pub fn search_query(q: &str) -> (r: Option<String>)
    ensures
        r matches Some(t) ==> t@ == trimmed(q@) && t@.len() > 0,
        r is None <==> trimmed(q@).len() == 0,
{
    let t = trim(q);
    if t.as_str().is_empty() {
        None
    } else {
        Some(t)
    }
}

fn count_field(s: &String) -> (r: u64)
    ensures
        r == count_or_zero(s@),
{
    match parse_u64(s.as_str()) {
        Some(v) => v,
        None => 0,
    }
}

/// The results of the listed entries, in apibay's order.
pub fn listed(torrents: &Vec<ApiBayTorrent>) -> (r: Vec<SearchResult>)
    ensures
        results_view(r@) == listed_results(torrents_view(torrents@)),
{
    let mut r: Vec<SearchResult> = Vec::new();
    let mut i: usize = 0;
    while i < torrents.len()
        invariant
            i <= torrents.len(),
            results_view(r@) == listed_results(torrents_view(torrents@.subrange(0, i as int))),
        decreases torrents.len() - i,
    {
        let t = &torrents[i];
        let ghost before = torrents@.subrange(0, i as int);
        let ghost after = torrents@.subrange(0, i + 1);
        proof {
            assert(torrents_view(after).drop_last() =~= torrents_view(before));
            assert(torrents_view(after).last() == t@);
        }
        let placeholder = text_eq(&t.id, "0") || equal_ignore_ascii_case(
            t.info_hash.as_str(),
            "0000000000000000000000000000000000000000",
        );
        if !placeholder {
            let seeders = count_field(&t.seeders);
            if seeders != 0 {
                let leechers = count_field(&t.leechers);
                let size = count_field(&t.size);
                let item = SearchResult {
                    name: t.name.clone(),
                    magnet: magnet_link(t.info_hash.as_str(), t.name.as_str()),
                    seeders,
                    leechers,
                    size_label: format_size(size),
                };
                let ghost old_r = r@;
                r.push(item);
                proof {
                    assert(results_view(r@) =~= results_view(old_r).push(item@));
                }
            }
        }
        i = i + 1;
    }
    assert(torrents@.subrange(0, i as int) =~= torrents@);
    r
}

proof fn lemma_with_seeders_push(s: Seq<ResultView>, x: ResultView, k: u64)
    ensures
        with_seeders(s.push(x), k) == with_seeders(s, k) + (if x.seeders == k {
            seq![x]
        } else {
            Seq::empty()
        }),
{
    reveal(Seq::filter);
    assert(s.push(x).drop_last() =~= s);
    if x.seeders == k {
        assert(with_seeders(s, k).push(x) =~= with_seeders(s, k) + seq![x]);
    } else {
        assert(with_seeders(s, k) =~= with_seeders(s, k) + Seq::<ResultView>::empty());
    }
}

proof fn lemma_with_seeders_absent(s: Seq<ResultView>, k: u64)
    requires
        forall|i: int| 0 <= i < s.len() ==> #[trigger] s[i].seeders != k,
    ensures
        with_seeders(s, k) == Seq::<ResultView>::empty(),
    decreases s.len(),
{
    reveal(Seq::filter);
    if s.len() > 0 {
        let t = s.drop_last();
        assert forall|i: int| 0 <= i < t.len() implies #[trigger] t[i].seeders != k by {
            assert(t[i] == s[i]);
        }
        lemma_with_seeders_absent(t, k);
    }
}

proof fn lemma_with_seeders_insert(s: Seq<ResultView>, p: int, x: ResultView, k: u64)
    requires
        0 <= p <= s.len(),
        forall|i: int| p <= i < s.len() ==> #[trigger] s[i].seeders < x.seeders,
    ensures
        with_seeders(s.insert(p, x), k) == with_seeders(s, k) + (if x.seeders == k {
            seq![x]
        } else {
            Seq::empty()
        }),
{
    broadcast use Seq::filter_distributes_over_add;

    let a = s.subrange(0, p);
    let b = s.subrange(p, s.len() as int);
    assert(s =~= a + b);
    assert(s.insert(p, x) =~= a.push(x) + b);
    lemma_with_seeders_push(a, x, k);
    assert(with_seeders(s, k) == with_seeders(a, k) + with_seeders(b, k));
    assert(with_seeders(s.insert(p, x), k) == with_seeders(a.push(x), k) + with_seeders(b, k));
    if x.seeders == k {
        assert forall|i: int| 0 <= i < b.len() implies #[trigger] b[i].seeders != k by {
            assert(b[i] == s[p + i]);
        }
        lemma_with_seeders_absent(b, k);
        assert(with_seeders(a, k) + seq![x] + Seq::<ResultView>::empty() =~= with_seeders(a, k)
            + Seq::<ResultView>::empty() + seq![x]);
    } else {
        assert(with_seeders(a, k) + Seq::<ResultView>::empty() + with_seeders(b, k)
            =~= with_seeders(a, k) + with_seeders(b, k) + Seq::<ResultView>::empty());
    }
}

/// `items` sorted by seeders, most first; results with equal seeders keep
/// their order (a stable sort, as `sort_by` is).
pub fn sort_by_seeders(items: Vec<SearchResult>) -> (r: Vec<SearchResult>)
    ensures
        stably_sorted_by_seeders(results_view(r@), results_view(items@)),
{
    let ghost all = results_view(items@);
    let mut rest = items;
    let mut sorted: Vec<SearchResult> = Vec::new();
    let ghost mut done: int = 0;
    while rest.len() > 0
        invariant
            0 <= done <= all.len(),
            results_view(rest@) == all.subrange(done, all.len() as int),
            sorted@.len() == done,
            seeders_descending(results_view(sorted@)),
            forall|k: u64|
                #[trigger] with_seeders(results_view(sorted@), k) == with_seeders(
                    all.subrange(0, done),
                    k,
                ),
        decreases rest.len(),
    {
        let ghost raw = rest@;
        let ghost old_rest = results_view(rest@);
        let item = rest.remove(0);
        proof {
            assert(rest@ == raw.remove(0));
            assert(raw[0] == item);
            assert(old_rest[0] == raw[0]@);
            assert(old_rest.len() == raw.len());
            assert(old_rest == all.subrange(done, all.len() as int));
            assert(done < all.len());
            assert(all.subrange(done, all.len() as int)[0] == all[done]);
            assert(old_rest[0] == all[done]);
            assert forall|j: int| 0 <= j < rest@.len() implies #[trigger] results_view(rest@)[j]
                == all[done + 1 + j] by {
                assert(rest@[j] == raw[j + 1]);
                assert(old_rest[j + 1] == all.subrange(done, all.len() as int)[j + 1]);
            }
            assert(results_view(rest@) =~= all.subrange(done + 1, all.len() as int));
        }
        let ghost sv = results_view(sorted@);
        let mut p: usize = 0;
        while p < sorted.len() && sorted[p].seeders >= item.seeders
            invariant
                p <= sorted.len(),
                sv == results_view(sorted@),
                forall|i: int| 0 <= i < p ==> #[trigger] sv[i].seeders >= item.seeders,
            decreases sorted.len() - p,
        {
            p = p + 1;
        }
        proof {
            assert forall|i: int| p <= i < sv.len() implies #[trigger] sv[i].seeders
                < item.seeders by {
                assert(sv[p as int].seeders < item.seeders);
                assert(sv[p as int].seeders >= sv[i].seeders);
            }
        }
        let ghost x = item@;
        sorted.insert(p, item);
        proof {
            let nv = results_view(sorted@);
            assert(nv =~= sv.insert(p as int, x));
            assert forall|i: int, j: int| 0 <= i < j < nv.len() implies nv[i].seeders
                >= nv[j].seeders by {
                if j < p {
                    assert(nv[i] == sv[i] && nv[j] == sv[j]);
                } else if j == p {
                    assert(nv[i] == sv[i]);
                } else if i < p {
                    assert(nv[i] == sv[i] && nv[j] == sv[j - 1]);
                } else if i == p {
                    assert(nv[j] == sv[j - 1]);
                } else {
                    assert(nv[i] == sv[i - 1] && nv[j] == sv[j - 1]);
                }
            }
            assert(all.subrange(0, done + 1) =~= all.subrange(0, done).push(x));
            assert forall|k: u64| #[trigger]
                with_seeders(nv, k) == with_seeders(all.subrange(0, done + 1), k) by {
                lemma_with_seeders_insert(sv, p as int, x, k);
                lemma_with_seeders_push(all.subrange(0, done), x, k);
            }
            done = done + 1;
        }
    }
    proof {
        assert(all.subrange(0, done) =~= all);
    }
    sorted
}

/// The search results for apibay's answer: the listed entries, most seeders
/// first, entries with equal seeders in apibay's order.
pub fn search_results(torrents: &Vec<ApiBayTorrent>) -> (r: Vec<SearchResult>)
    ensures
        stably_sorted_by_seeders(results_view(r@), listed_results(torrents_view(torrents@))),
{
    sort_by_seeders(listed(torrents))
}

/// Every listed result has at least one seeder.
pub proof fn listed_results_have_seeders(ts: Seq<TorrentView>)
    ensures
        forall|i: int|
            0 <= i < listed_results(ts).len() ==> #[trigger] listed_results(ts)[i].seeders > 0,
    decreases ts.len(),
{
    if ts.len() > 0 {
        listed_results_have_seeders(ts.drop_last());
        let rest = listed_results(ts.drop_last());
        if is_listed(ts.last()) {
            assert forall|i: int| 0 <= i < listed_results(ts).len() implies #[trigger] listed_results(
                ts,
            )[i].seeders > 0 by {
                if i < rest.len() {
                    assert(listed_results(ts)[i] == rest[i]);
                }
            }
        }
    }
}

proof fn lemma_listed_magnets(ts: Seq<TorrentView>, j: int)
    requires
        0 <= j < listed_results(ts).len(),
    ensures
        aria2c_url(listed_results(ts)[j].magnet),
    decreases ts.len(),
{
    let rest = listed_results(ts.drop_last());
    if is_listed(ts.last()) && j == rest.len() {
        magnet_links_are_aria2c_urls(ts.last().info_hash, ts.last().name);
    } else {
        lemma_listed_magnets(ts.drop_last(), j);
    }
}

/// Every search result links to a magnet that the download form accepts as
/// an aria2c link, so picking any result starts a download.
pub proof fn search_results_are_downloadable(shown: Seq<ResultView>, ts: Seq<TorrentView>)
    requires
        stably_sorted_by_seeders(shown, listed_results(ts)),
    ensures
        forall|i: int| 0 <= i < shown.len() ==> aria2c_url(#[trigger] shown[i].magnet),
{
    assert forall|i: int| 0 <= i < shown.len() implies aria2c_url(#[trigger] shown[i].magnet) by {
        let x = shown[i];
        let k = x.seeders;
        let pred = |r: ResultView| r.seeders == k;
        shown.lemma_filter_contains(pred, i);
        assert(with_seeders(shown, k) == with_seeders(listed_results(ts), k));
        assert(listed_results(ts).filter(pred).contains(x));
        listed_results(ts).lemma_filter_contains_rev(pred, x);
        let j = choose|j: int| 0 <= j < listed_results(ts).len() && listed_results(ts)[j] == x;
        lemma_listed_magnets(ts, j);
    }
}

/// `r` is what apibay entry `t` shows: its name, the magnet link of its info
/// hash and name, and its seeder, leecher and size counts parsed as full
/// `u64`s (unparsable counts as 0), the size as the label of the whole byte
/// count; and it has seeders.
pub open spec fn shows_entry(r: ResultView, t: TorrentView) -> bool {
    &&& r.name == t.name
    &&& r.magnet == magnet_uri(t.info_hash, t.name)
    &&& parsed_u64(t.seeders) == Some(r.seeders)
    &&& r.seeders > 0
    &&& r.leechers == match parsed_u64(t.leechers) {
        Some(v) => v,
        None => 0u64,
    }
    &&& r.size_label == size_label(
        match parsed_u64(t.size) {
            Some(v) => v as nat,
            None => 0nat,
        },
    )
}

/// Every listed result shows one apibay entry that has seeders, with its
/// counts and size taken from the whole parsed field.
pub proof fn listed_results_show_their_entries(ts: Seq<TorrentView>)
    ensures
        forall|i: int|
            #![trigger listed_results(ts)[i]]
            0 <= i < listed_results(ts).len() ==> exists|j: int|
                #![trigger ts[j]]
                0 <= j < ts.len() && shows_entry(listed_results(ts)[i], ts[j]),
    decreases ts.len(),
{
    if ts.len() > 0 {
        let p = ts.drop_last();
        listed_results_show_their_entries(p);
        let rest = listed_results(p);
        assert forall|i: int| #![trigger listed_results(ts)[i]]
            0 <= i < listed_results(ts).len() implies exists|j: int|
            #![trigger ts[j]]
            0 <= j < ts.len() && shows_entry(listed_results(ts)[i], ts[j]) by {
            if i < rest.len() {
                assert(listed_results(ts)[i] == rest[i]);
                let j = choose|j: int| #![trigger p[j]] 0 <= j < p.len() && shows_entry(rest[i], p[j]);
                assert(ts[j] == p[j]);
            } else {
                let j = ts.len() - 1;
                assert(ts[j] == ts.last());
                assert(listed_results(ts)[i] == result_for(ts.last()));
                assert(shows_entry(listed_results(ts)[i], ts[j]));
            }
        }
    }
}

/// Every search result shown shows one apibay entry with seeders, with its
/// counts and size taken from the whole parsed field.
pub proof fn search_results_show_their_entries(shown: Seq<ResultView>, ts: Seq<TorrentView>)
    requires
        stably_sorted_by_seeders(shown, listed_results(ts)),
    ensures
        forall|i: int|
            #![trigger shown[i]]
            0 <= i < shown.len() ==> exists|j: int|
                #![trigger ts[j]]
                0 <= j < ts.len() && shows_entry(shown[i], ts[j]),
{
    listed_results_show_their_entries(ts);
    assert forall|i: int| #![trigger shown[i]] 0 <= i < shown.len() implies exists|j: int|
        #![trigger ts[j]]
        0 <= j < ts.len() && shows_entry(shown[i], ts[j]) by {
        let x = shown[i];
        let k = x.seeders;
        let pred = |r: ResultView| r.seeders == k;
        shown.lemma_filter_contains(pred, i);
        assert(with_seeders(shown, k) == with_seeders(listed_results(ts), k));
        assert(listed_results(ts).filter(pred).contains(x));
        listed_results(ts).lemma_filter_contains_rev(pred, x);
        let m = choose|m: int| 0 <= m < listed_results(ts).len() && listed_results(ts)[m] == x;
        assert(listed_results(ts)[m] == x);
    }
}

} // verus!
