//! Magnet links for search results: the info hash, the display name and a
//! fixed tracker list, the last two serialised as
//! `application/x-www-form-urlencoded` pairs by the `url` crate.

use vstd::prelude::*;
use vstd::utf8::{encode_utf8, decode_utf8};
use vstd::string::StringExecFns;
use crate::text::{digit_char, is_ws, trimmed, trim_start, trim_end, ascii_lowercase, starts_with};
use crate::classify::aria2c_url;

verus! {

/// The bytes that form-urlencoding leaves as they are.
pub open spec fn form_byte_unchanged(b: u8) -> bool {
    ||| b == 42
    ||| b == 45
    ||| b == 46
    ||| 48 <= b <= 57
    ||| 65 <= b <= 90
    ||| b == 95
    ||| 97 <= b <= 122
}

/// Upper-case hexadecimal digit for `d < 16`.
pub open spec fn hex_upper(d: nat) -> char {
    if d < 10 {
        digit_char(d)
    } else {
        ((55 + d) as u8) as char
    }
}

/// Form-urlencoding of one byte: kept, `+` for a space, else `%XX`.
pub open spec fn form_encode_byte(b: u8) -> Seq<char> {
    if form_byte_unchanged(b) {
        seq![b as char]
    } else if b == 32 {
        seq!['+']
    } else {
        seq!['%', hex_upper((b / 16) as nat), hex_upper((b % 16) as nat)]
    }
}

/// Form-urlencoding of a byte string, byte by byte.
pub open spec fn form_encode_bytes(bs: Seq<u8>) -> Seq<char>
    decreases bs.len(),
{
    if bs.len() == 0 {
        Seq::empty()
    } else {
        form_encode_bytes(bs.drop_last()) + form_encode_byte(bs.last())
    }
}

/// Form-urlencoding of the UTF-8 bytes of `s`.
pub open spec fn form_encoded(s: Seq<char>) -> Seq<char> {
    form_encode_bytes(encode_utf8(s))
}

/// `query` with the pair `name=value` appended, `&` first when `query` is
/// not empty.
pub open spec fn form_pair(query: Seq<char>, name: Seq<char>, value: Seq<char>) -> Seq<char> {
    query + (if query.len() > 0 {
        seq!['&']
    } else {
        Seq::empty()
    }) + form_encoded(name) + seq!['='] + form_encoded(value)
}

/// Appends the pair `name=value` to `query` through
/// `form_urlencoded::Serializer::new(query).append_pair(name, value)`.
/// The contract restates the serializer's source: a `&` separator when
/// `query` is not empty, then each side's UTF-8 bytes with `*-._` and ASCII
/// letters and digits kept, a space as `+`, and any other byte as `%XX` in
/// upper-case hex.
#[verifier::external_body]
fn append_form_pair(query: &mut String, name: &str, value: &str)
    ensures
        final(query)@ == form_pair(old(query)@, name@, value@),
{
    url::form_urlencoded::Serializer::new(query).append_pair(name, value);
}

/// The trackers every magnet link names.
pub open spec fn trackers() -> Seq<Seq<char>> {
    seq![
        "udp://tracker.opentrackr.org:1337/announce"@,
        "udp://open.stealth.si:80/announce"@,
        "udp://tracker.openbittorrent.com:6969/announce"@,
        "udp://exodus.desync.com:6969/announce"@,
        "udp://tracker.torrent.eu.org:451/announce"@,
    ]
}

fn tracker(i: usize) -> (r: &'static str)
    requires
        i < 5,
    ensures
        r@ == trackers()[i as int],
{
    if i == 0 {
        "udp://tracker.opentrackr.org:1337/announce"
    } else if i == 1 {
        "udp://open.stealth.si:80/announce"
    } else if i == 2 {
        "udp://tracker.openbittorrent.com:6969/announce"
    } else if i == 3 {
        "udp://exodus.desync.com:6969/announce"
    } else {
        "udp://tracker.torrent.eu.org:451/announce"
    }
}

/// The query part of a magnet link: the display name, then the first `k`
/// trackers.
pub open spec fn magnet_query(name: Seq<char>, k: nat) -> Seq<char>
    decreases k,
{
    if k == 0 {
        form_pair(Seq::empty(), "dn"@, name)
    } else {
        form_pair(magnet_query(name, (k - 1) as nat), "tr"@, trackers()[k - 1])
    }
}

/// The magnet link for a torrent with this info hash and display name.
pub open spec fn magnet_uri(info_hash: Seq<char>, name: Seq<char>) -> Seq<char> {
    "magnet:?xt=urn:btih:"@ + info_hash + seq!['&'] + magnet_query(name, 5)
}

/// The magnet link for a torrent with this info hash and display name.
pub fn magnet_link(info_hash: &str, name: &str) -> (r: String)
    ensures
        r@ == magnet_uri(info_hash@, name@),
{
    let mut query = String::new();
    append_form_pair(&mut query, "dn", name);
    assert(query@ == magnet_query(name@, 0));
    let mut i: usize = 0;
    while i < 5
        invariant
            i <= 5,
            query@ == magnet_query(name@, i as nat),
        decreases 5 - i,
    {
        append_form_pair(&mut query, "tr", tracker(i));
        i = i + 1;
    }
    let mut r = "magnet:?xt=urn:btih:".to_string();
    r.append(info_hash);
    r.append("&");
    r.append(query.as_str());
    proof {
        reveal_strlit("&");
        assert(r@ =~= magnet_uri(info_hash@, name@));
    }
    r
}

/// The characters that form-urlencoding can emit: never whitespace, `&` or
/// `=`.
pub open spec fn form_safe(c: char) -> bool {
    !is_ws(c) && c != '&' && c != '='
}

/// The characters that form-urlencoding emits are all form-safe.
proof fn lemma_form_encode_bytes_no_ws(bs: Seq<u8>)
    ensures
        forall|i: int|
            0 <= i < form_encode_bytes(bs).len() ==> form_safe(#[trigger] form_encode_bytes(bs)[i]),
        form_encode_bytes(bs).len() >= bs.len(),
    decreases bs.len(),
{
    if bs.len() > 0 {
        lemma_form_encode_bytes_no_ws(bs.drop_last());
        let b = bs.last();
        let e = form_encode_byte(b);
        assert forall|i: int| 0 <= i < e.len() implies form_safe(#[trigger] e[i]) by {
            if form_byte_unchanged(b) {
                assert(e[i] == b as char);
                assert((b as char) as u32 == b as u32);
            } else if b == 32 {
            } else {
                assert(b / 16 < 16 && b % 16 < 16);
            }
        }
        let pre = form_encode_bytes(bs.drop_last());
        assert forall|i: int|
            0 <= i < form_encode_bytes(bs).len() implies form_safe(
            #[trigger] form_encode_bytes(bs)[i],
        ) by {
            if i < pre.len() {
                assert(form_encode_bytes(bs)[i] == pre[i]);
            } else {
                assert(form_encode_bytes(bs)[i] == e[i - pre.len()]);
            }
        }
    }
}

proof fn lemma_encode_utf8_nonempty(s: Seq<char>)
    requires
        s.len() > 0,
    ensures
        encode_utf8(s).len() > 0,
{
    assert(encode_utf8(s) == vstd::utf8::encode_scalar(s[0] as u32) + encode_utf8(
        s.drop_first(),
    ));
}

/// Every magnet link that this library makes is accepted as an aria2c link,
/// so a search result submitted back to the form is downloaded.
pub proof fn magnet_links_are_aria2c_urls(info_hash: Seq<char>, name: Seq<char>)
    ensures
        aria2c_url(magnet_uri(info_hash, name)),
{
    let m = magnet_uri(info_hash, name);
    let prefix = "magnet:?xt=urn:btih:"@;
    reveal_strlit("magnet:?xt=urn:btih:");
    reveal_strlit("magnet:");
    reveal_strlit("udp://tracker.torrent.eu.org:451/announce");
    let last_tracker = trackers()[4];
    let enc = form_encoded(last_tracker);
    lemma_encode_utf8_nonempty(last_tracker);
    lemma_form_encode_bytes_no_ws(encode_utf8(last_tracker));
    let q = magnet_query(name, 5);
    assert(q == form_pair(magnet_query(name, 4), "tr"@, last_tracker));
    assert(q.last() == enc.last());
    assert(m.last() == q.last());
    assert(!is_ws(m.last()));
    assert(m[0] == 'm');
    assert(trim_start(m) == m);
    assert(trim_end(m) == m);
    assert(trimmed(m) == m);
    assert(m.subrange(0, 7) =~= prefix.subrange(0, 7));
    assert(ascii_lowercase(m).subrange(0, 7) =~= "magnet:"@);
}

/// The value of a hexadecimal digit of either case.
pub open spec fn hex_value(c: char) -> Option<nat> {
    let u = c as u32;
    if 48 <= u <= 57 {
        Some((u - 48) as nat)
    } else if 65 <= u <= 70 {
        Some((u - 55) as nat)
    } else if 97 <= u <= 102 {
        Some((u - 87) as nat)
    } else {
        None
    }
}

/// The bytes that form-decoding gives for a field: `+` is a space, `%` with
/// two hex digits is that byte, any other character stands for its UTF-8
/// bytes.
pub open spec fn field_bytes(cs: Seq<char>) -> Seq<u8>
    decreases cs.len(),
{
    if cs.len() == 0 {
        Seq::empty()
    } else if cs[0] == '+' {
        seq![32u8] + field_bytes(cs.drop_first())
    } else if cs[0] == '%' && cs.len() >= 3 && hex_value(cs[1]) is Some && hex_value(
        cs[2],
    ) is Some {
        seq![(hex_value(cs[1])->0 * 16 + hex_value(cs[2])->0) as u8] + field_bytes(
            cs.subrange(3, cs.len() as int),
        )
    } else {
        encode_utf8(seq![cs[0]]) + field_bytes(cs.drop_first())
    }
}

/// The text of a form field: its decoded bytes read as UTF-8.
pub open spec fn field_text(cs: Seq<char>) -> Seq<char> {
    decode_utf8(field_bytes(cs))
}

/// `s` split at every `sep`; a text without `sep` is one piece.
pub open spec fn split_on(s: Seq<char>, sep: char) -> Seq<Seq<char>>
    decreases s.len(),
{
    if s.len() == 0 {
        seq![Seq::empty()]
    } else {
        let r = split_on(s.drop_last(), sep);
        if s.last() == sep {
            r.push(Seq::empty())
        } else {
            r.update(r.len() - 1, r.last().push(s.last()))
        }
    }
}

/// The part of a field before its first `=` (all of it when there is none).
pub open spec fn name_part(p: Seq<char>) -> Seq<char>
    decreases p.len(),
{
    if p.len() == 0 || p[0] == '=' {
        Seq::empty()
    } else {
        seq![p[0]] + name_part(p.drop_first())
    }
}

/// The part of a field after its first `=` (empty when there is none).
pub open spec fn value_part(p: Seq<char>) -> Seq<char>
    decreases p.len(),
{
    if p.len() == 0 {
        Seq::empty()
    } else if p[0] == '=' {
        p.drop_first()
    } else {
        value_part(p.drop_first())
    }
}

/// The name/value pairs of the non-empty pieces, each side form-decoded.
pub open spec fn form_fields(pieces: Seq<Seq<char>>) -> Seq<(Seq<char>, Seq<char>)>
    decreases pieces.len(),
{
    if pieces.len() == 0 {
        Seq::empty()
    } else {
        let r = form_fields(pieces.drop_last());
        let p = pieces.last();
        if p.len() == 0 {
            r
        } else {
            r.push((field_text(name_part(p)), field_text(value_part(p))))
        }
    }
}

/// The pairs that `form_urlencoded::parse` reads from a query: the pieces
/// between `&`s, empty ones skipped, each split at its first `=` and
/// form-decoded (for valid UTF-8, lossy decoding is plain decoding).
pub open spec fn form_parse(query: Seq<char>) -> Seq<(Seq<char>, Seq<char>)> {
    form_fields(split_on(query, '&'))
}

/// The pairs of a magnet link's query: the display name, then the first
/// `k` trackers.
pub open spec fn magnet_fields(name: Seq<char>, k: nat) -> Seq<(Seq<char>, Seq<char>)>
    decreases k,
{
    if k == 0 {
        seq![("dn"@, name)]
    } else {
        magnet_fields(name, (k - 1) as nat).push(("tr"@, trackers()[k - 1]))
    }
}

proof fn lemma_form_encode_bytes_front(bs: Seq<u8>)
    requires
        bs.len() > 0,
    ensures
        form_encode_bytes(bs) == form_encode_byte(bs[0]) + form_encode_bytes(bs.drop_first()),
    decreases bs.len(),
{
    if bs.len() == 1 {
        assert(bs.drop_last() =~= Seq::<u8>::empty());
        assert(bs.drop_first() =~= Seq::<u8>::empty());
        assert(form_encode_byte(bs[0]) + Seq::<char>::empty() =~= form_encode_byte(bs[0]));
    } else {
        lemma_form_encode_bytes_front(bs.drop_last());
        assert(bs.drop_last().drop_first() =~= bs.drop_first().drop_last());
        assert(bs.drop_first().last() == bs.last());
        assert(bs.drop_last()[0] == bs[0]);
        assert(form_encode_byte(bs[0]) + form_encode_bytes(bs.drop_last().drop_first())
            + form_encode_byte(bs.last()) =~= form_encode_byte(bs[0]) + (form_encode_bytes(
            bs.drop_first().drop_last(),
        ) + form_encode_byte(bs.drop_first().last())));
    }
}

proof fn lemma_hex_round_trip(d: nat)
    requires
        d < 16,
    ensures
        hex_value(hex_upper(d)) == Some(d),
{
    if d < 10 {
        assert(((48 + d) as u8) as char as u32 == 48 + d);
    } else {
        assert(((55 + d) as u8) as char as u32 == 55 + d);
    }
}

proof fn lemma_ascii_byte_utf8(b: u8)
    requires
        b < 128,
    ensures
        encode_utf8(seq![b as char]) == seq![b],
{
    let c = b as char;
    assert(c as u32 == b as u32);
    assert(seq![c].drop_first() =~= Seq::<char>::empty());
    assert(((b as u32) & 0x7F) as u8 == b) by (bit_vector)
        requires
            b < 128,
    ;
    assert(encode_utf8(seq![c]) =~= vstd::utf8::encode_scalar(c as u32) + encode_utf8(
        Seq::<char>::empty(),
    ));
}

proof fn lemma_field_bytes_byte(b: u8, rest: Seq<char>)
    ensures
        field_bytes(form_encode_byte(b) + rest) == seq![b] + field_bytes(rest),
{
    let cs = form_encode_byte(b) + rest;
    if form_byte_unchanged(b) {
        assert((b as char) as u32 == b as u32);
        assert(cs[0] == b as char);
        assert(cs.drop_first() =~= rest);
        lemma_ascii_byte_utf8(b);
    } else if b == 32 {
        assert(cs[0] == '+');
        assert(cs.drop_first() =~= rest);
    } else {
        let hi = (b / 16) as nat;
        let lo = (b % 16) as nat;
        lemma_hex_round_trip(hi);
        lemma_hex_round_trip(lo);
        assert(cs[0] == '%');
        assert(cs[1] == hex_upper(hi));
        assert(cs[2] == hex_upper(lo));
        assert(cs.subrange(3, cs.len() as int) =~= rest);
        assert((hi * 16 + lo) as u8 == b);
    }
}

proof fn lemma_field_bytes_round_trip(bs: Seq<u8>)
    ensures
        field_bytes(form_encode_bytes(bs)) == bs,
    decreases bs.len(),
{
    if bs.len() == 0 {
        assert(form_encode_bytes(bs) =~= Seq::<char>::empty());
    } else {
        lemma_form_encode_bytes_front(bs);
        lemma_field_bytes_byte(bs[0], form_encode_bytes(bs.drop_first()));
        lemma_field_bytes_round_trip(bs.drop_first());
        assert(seq![bs[0]] + bs.drop_first() =~= bs);
    }
}

/// Form-decoding undoes form-encoding.
pub proof fn form_decoding_undoes_encoding(s: Seq<char>)
    ensures
        field_text(form_encoded(s)) == s,
{
    broadcast use vstd::utf8::encode_utf8_decode_utf8;

    lemma_field_bytes_round_trip(encode_utf8(s));
}

proof fn lemma_split_on_plain(y: Seq<char>, sep: char)
    requires
        forall|i: int| 0 <= i < y.len() ==> #[trigger] y[i] != sep,
    ensures
        split_on(y, sep) == seq![y],
    decreases y.len(),
{
    if y.len() > 0 {
        let z = y.drop_last();
        assert forall|i: int| 0 <= i < z.len() implies #[trigger] z[i] != sep by {
            assert(z[i] == y[i]);
        }
        lemma_split_on_plain(z, sep);
        assert(z.push(y.last()) =~= y);
        assert(seq![z].update(0, z.push(y.last())) =~= seq![y]);
    } else {
        assert(y =~= Seq::<char>::empty());
        assert(seq![Seq::<char>::empty()] =~= seq![y]);
    }
}

proof fn lemma_split_on_append(x: Seq<char>, y: Seq<char>, sep: char)
    requires
        forall|i: int| 0 <= i < y.len() ==> #[trigger] y[i] != sep,
    ensures
        split_on(x.push(sep) + y, sep) == split_on(x, sep).push(y),
    decreases y.len(),
{
    if y.len() == 0 {
        assert(x.push(sep) + y =~= x.push(sep));
        assert(x.push(sep).drop_last() =~= x);
        assert(y =~= Seq::<char>::empty());
    } else {
        let z = y.drop_last();
        assert forall|i: int| 0 <= i < z.len() implies #[trigger] z[i] != sep by {
            assert(z[i] == y[i]);
        }
        lemma_split_on_append(x, z, sep);
        let w = x.push(sep) + y;
        assert(w.drop_last() =~= x.push(sep) + z);
        assert(w.last() == y.last());
        assert(y.last() == y[y.len() - 1]);
        assert(z.push(y.last()) =~= y);
        assert(split_on(x, sep).push(z).update(split_on(x, sep).len() as int, z.push(y.last()))
            =~= split_on(x, sep).push(y));
    }
}

proof fn lemma_name_value_parts(a: Seq<char>, b: Seq<char>)
    requires
        forall|i: int| 0 <= i < a.len() ==> #[trigger] a[i] != '=',
    ensures
        name_part(a + seq!['='] + b) == a,
        value_part(a + seq!['='] + b) == b,
    decreases a.len(),
{
    let p = a + seq!['='] + b;
    if a.len() == 0 {
        assert(p[0] == '=');
        assert(p.drop_first() =~= b);
    } else {
        let t = a.drop_first();
        assert forall|i: int| 0 <= i < t.len() implies #[trigger] t[i] != '=' by {
            assert(t[i] == a[i + 1]);
        }
        lemma_name_value_parts(t, b);
        assert(p[0] == a[0]);
        assert(p.drop_first() =~= t + seq!['='] + b);
        assert(seq![a[0]] + t =~= a);
    }
}

proof fn lemma_magnet_query_fields(name: Seq<char>, k: nat)
    requires
        k <= 5,
    ensures
        form_parse(magnet_query(name, k)) == magnet_fields(name, k),
        magnet_query(name, k).len() > 0,
    decreases k,
{
    let sep = '&';
    let (qname, value) = if k == 0 {
        ("dn"@, name)
    } else {
        ("tr"@, trackers()[k - 1])
    };
    let en = form_encoded(qname);
    let ev = form_encoded(value);
    let piece = en + seq!['='] + ev;
    lemma_form_encode_bytes_no_ws(encode_utf8(qname));
    lemma_form_encode_bytes_no_ws(encode_utf8(value));
    assert forall|i: int| 0 <= i < piece.len() implies #[trigger] piece[i] != sep by {
        if i < en.len() {
            assert(form_safe(en[i]));
        } else if i > en.len() {
            assert(piece[i] == ev[i - en.len() - 1]);
            assert(form_safe(ev[i - en.len() - 1]));
        }
    }
    assert forall|i: int| 0 <= i < en.len() implies #[trigger] en[i] != '=' by {
        assert(form_safe(en[i]));
    }
    lemma_name_value_parts(en, ev);
    form_decoding_undoes_encoding(qname);
    form_decoding_undoes_encoding(value);
    assert(piece.len() > 0);
    if k == 0 {
        let q = magnet_query(name, 0);
        assert(q =~= piece);
        lemma_split_on_plain(piece, sep);
        let pieces = seq![piece];
        assert(pieces.drop_last() =~= Seq::<Seq<char>>::empty());
        assert(pieces.last() == piece);
        assert(form_fields(Seq::<Seq<char>>::empty()) == Seq::<(Seq<char>, Seq<char>)>::empty());
        assert(form_fields(pieces) == Seq::<(Seq<char>, Seq<char>)>::empty().push(
            (field_text(name_part(piece)), field_text(value_part(piece))),
        ));
        assert(form_fields(pieces) =~= seq![(field_text(en), field_text(ev))]);
    } else {
        let prev = magnet_query(name, (k - 1) as nat);
        lemma_magnet_query_fields(name, (k - 1) as nat);
        let q = magnet_query(name, k);
        assert(q =~= prev.push(sep) + piece);
        lemma_split_on_append(prev, piece, sep);
        let pieces = split_on(prev, sep).push(piece);
        assert(pieces.drop_last() =~= split_on(prev, sep));
    }
}

/// Form-decoding the query of a magnet link gives back the display name
/// under `dn`, then each tracker under `tr`, in order; the query is what
/// follows `magnet:?xt=urn:btih:`, the info hash and `&`.
pub proof fn magnet_query_round_trip(info_hash: Seq<char>, name: Seq<char>)
    ensures
        magnet_uri(info_hash, name) == "magnet:?xt=urn:btih:"@ + info_hash + seq!['&']
            + magnet_query(name, 5),
        form_parse(magnet_query(name, 5)) == magnet_fields(name, 5),
{
    lemma_magnet_query_fields(name, 5);
}

} // verus!
