//! The tail of a child process's stderr that goes into failure messages: its
//! last twenty non-blank lines, trimmed, cut to the last 2048 bytes at a
//! character boundary with a leading ellipsis.

use vstd::prelude::*;
use vstd::utf8::{encode_utf8, encode_scalar, valid_utf8, decode_utf8};
use vstd::string::StringExecFns;
use crate::text::{chars_of, push_char, trim, trimmed, strings_view};

verus! {

/// At most this many lines are kept.
pub open spec fn tail_lines_max() -> nat {
    20
}

/// At most about this many bytes are kept.
pub open spec fn tail_bytes_max() -> nat {
    2048
}

/// The length of the UTF-8 encoding of `s`, which is `str::len`.
pub open spec fn utf8_len(s: Seq<char>) -> nat {
    encode_utf8(s).len()
}

/// `s` split at every `\n`; a text without `\n` is one piece.
pub open spec fn split_lines(s: Seq<char>) -> Seq<Seq<char>>
    decreases s.len(),
{
    if s.len() == 0 {
        seq![Seq::empty()]
    } else {
        let r = split_lines(s.drop_last());
        if s.last() == '\n' {
            r.push(Seq::empty())
        } else {
            r.update(r.len() - 1, r.last().push(s.last()))
        }
    }
}

/// The pieces, each trimmed, without those that are then empty.
pub open spec fn nonblank_trimmed(pieces: Seq<Seq<char>>) -> Seq<Seq<char>>
    decreases pieces.len(),
{
    if pieces.len() == 0 {
        Seq::empty()
    } else {
        let r = nonblank_trimmed(pieces.drop_last());
        let t = trimmed(pieces.last());
        if t.len() > 0 {
            r.push(t)
        } else {
            r
        }
    }
}

/// The lines joined with `\n` between them.
pub open spec fn join_lines(lines: Seq<Seq<char>>) -> Seq<char>
    decreases lines.len(),
{
    if lines.len() == 0 {
        Seq::empty()
    } else if lines.len() == 1 {
        lines[0]
    } else {
        join_lines(lines.drop_last()) + seq!['\n'] + lines.last()
    }
}

/// The last `n` elements of `s` (all of them when there are fewer).
pub open spec fn last_n<T>(s: Seq<T>, n: nat) -> Seq<T> {
    if s.len() <= n {
        s
    } else {
        s.subrange(s.len() - n, s.len() as int)
    }
}

/// The shortest suffix of `t` that still holds `tail_bytes_max()` bytes or
/// more: the cut that `is_char_boundary` stepping back from
/// `len - 2048` finds.
pub open spec fn byte_cut(t: Seq<char>) -> Seq<char>
    decreases t.len(),
{
    if t.len() > 0 && utf8_len(t.drop_first()) >= tail_bytes_max() {
        byte_cut(t.drop_first())
    } else {
        t
    }
}

/// The last non-blank lines of `text`, trimmed and joined, shortened to its
/// last 2048 bytes behind `…` when longer.
pub open spec fn tail_of(text: Seq<char>) -> Seq<char> {
    let tail = join_lines(last_n(nonblank_trimmed(split_lines(text)), tail_lines_max()));
    if utf8_len(tail) <= tail_bytes_max() {
        tail
    } else {
        seq!['\u{2026}'] + byte_cut(tail)
    }
}

/// The text `String::from_utf8_lossy` makes of `bytes`.
pub uninterp spec fn utf8_lossy(bytes: Seq<u8>) -> Seq<char>;

/// `String::from_utf8_lossy(bytes)`, as an owned string. Its documentation
/// promises valid UTF-8 back unchanged, which the contract states; how
/// invalid sequences are replaced is only named.
#[verifier::external_body]
fn decode_lossy(bytes: &[u8]) -> (r: String)
    ensures
        r@ == utf8_lossy(bytes@),
        valid_utf8(bytes@) ==> r@ == decode_utf8(bytes@),
{
    String::from_utf8_lossy(bytes).into_owned()
}

proof fn lemma_utf8_len_first(s: Seq<char>)
    requires
        s.len() > 0,
    ensures
        utf8_len(s) == encode_scalar(s[0] as u32).len() + utf8_len(s.drop_first()),
{
}

fn char_width(c: char) -> (w: usize)
    ensures
        w == encode_scalar(c as u32).len(),
        1 <= w <= 4,
{
    proof {
        vstd::utf8::char_is_scalar(c);
    }
    let u: u32 = c as u32;
    if u < 0x80 {
        1
    } else if u < 0x800 {
        2
    } else if u < 0x10000 {
        3
    } else {
        4
    }
}

proof fn lemma_split_lines_push(s: Seq<char>, c: char)
    ensures
        split_lines(s.push(c)) == if c == '\n' {
            split_lines(s).push(Seq::empty())
        } else {
            split_lines(s).update(split_lines(s).len() - 1, split_lines(s).last().push(c))
        },
{
    assert(s.push(c).drop_last() =~= s);
}

proof fn lemma_split_lines_nonempty(s: Seq<char>)
    ensures
        split_lines(s).len() >= 1,
    decreases s.len(),
{
    if s.len() > 0 {
        lemma_split_lines_nonempty(s.drop_last());
    }
}

/// The non-blank lines of `text`, trimmed, in order.
fn nonblank_lines(text: &str) -> (r: Vec<String>)
    ensures
        strings_view(r@) == nonblank_trimmed(split_lines(text@)),
{
    let chars = chars_of(text);
    let mut lines: Vec<String> = Vec::new();
    let mut cur = String::new();
    let mut i: usize = 0;
    proof {
        assert(chars@.subrange(0, 0) =~= Seq::<char>::empty());
    }
    while i < chars.len()
        invariant
            chars@ == text@,
            i <= chars.len(),
            split_lines(chars@.subrange(0, i as int)).len() >= 1,
            split_lines(chars@.subrange(0, i as int)).last() == cur@,
            strings_view(lines@) == nonblank_trimmed(
                split_lines(chars@.subrange(0, i as int)).drop_last(),
            ),
        decreases chars.len() - i,
    {
        let c = chars[i];
        let ghost pre = chars@.subrange(0, i as int);
        proof {
            assert(chars@.subrange(0, i + 1) =~= pre.push(c));
            lemma_split_lines_push(pre, c);
            lemma_split_lines_nonempty(pre);
        }
        if c == '\n' {
            let t = trim(cur.as_str());
            let ghost old_lines = lines@;
            if !t.as_str().is_empty() {
                lines.push(t);
                assert(strings_view(lines@) =~= strings_view(old_lines).push(trimmed(cur@)));
            }
            proof {
                let sp = split_lines(pre);
                assert(split_lines(pre.push(c)).drop_last() =~= sp);
                assert(sp =~= sp.drop_last().push(cur@));
            }
            cur = String::new();
        } else {
            push_char(&mut cur, c);
            proof {
                let sp = split_lines(pre);
                assert(split_lines(pre.push(c)).drop_last() =~= sp.drop_last());
            }
        }
        i = i + 1;
    }
    proof {
        assert(chars@.subrange(0, i as int) =~= text@);
        let sp = split_lines(text@);
        assert(sp =~= sp.drop_last().push(cur@));
    }
    let t = trim(cur.as_str());
    let ghost old_lines = lines@;
    if !t.as_str().is_empty() {
        lines.push(t);
        assert(strings_view(lines@) =~= strings_view(old_lines).push(trimmed(cur@)));
    }
    lines
}

proof fn lemma_join_push(ls: Seq<Seq<char>>, l: Seq<char>)
    ensures
        join_lines(ls.push(l)) == if ls.len() == 0 {
            l
        } else {
            join_lines(ls) + seq!['\n'] + l
        },
{
    assert(ls.push(l).drop_last() =~= ls);
}

proof fn lemma_byte_cut_skip(t: Seq<char>, i: int)
    requires
        0 <= i < t.len(),
        utf8_len(t.subrange(i + 1, t.len() as int)) >= tail_bytes_max(),
        byte_cut(t) == byte_cut(t.subrange(i, t.len() as int)),
    ensures
        byte_cut(t) == byte_cut(t.subrange(i + 1, t.len() as int)),
{
    let s = t.subrange(i, t.len() as int);
    assert(s.drop_first() =~= t.subrange(i + 1, t.len() as int));
}

/// The tail of a stderr text that failure messages quote: the last twenty
/// non-blank lines, each trimmed, joined with `\n`; if that is over 2048
/// bytes, `…` followed by its shortest suffix of at least 2048 bytes that
/// starts on a character.
pub fn stderr_tail_text(text: &str) -> (r: String)
    ensures
        r@ == tail_of(text@),
{
    let lines = nonblank_lines(text);
    let ghost all = strings_view(lines@);
    let start: usize = if lines.len() > 20 {
        lines.len() - 20
    } else {
        0
    };
    let ghost kept = last_n(all, tail_lines_max());
    assert(kept =~= all.subrange(start as int, all.len() as int));
    let mut tail = String::new();
    let mut j: usize = start;
    while j < lines.len()
        invariant
            all == strings_view(lines@),
            start <= j <= lines.len(),
            kept =~= all.subrange(start as int, all.len() as int),
            tail@ == join_lines(all.subrange(start as int, j as int)),
        decreases lines.len() - j,
    {
        let ghost done = all.subrange(start as int, j as int);
        proof {
            assert(all.subrange(start as int, j + 1) =~= done.push(lines@[j as int]@));
            lemma_join_push(done, lines@[j as int]@);
        }
        if j > start {
            push_char(&mut tail, '\n');
        }
        tail.append(lines[j].as_str());
        proof {
            if j > start {
                assert(tail@ =~= join_lines(done) + seq!['\n'] + lines@[j as int]@);
            } else {
                assert(tail@ =~= lines@[j as int]@);
            }
        }
        j = j + 1;
    }
    assert(tail@ == join_lines(kept));
    let tc = chars_of(tail.as_str());
    let mut k: usize = tc.len();
    let mut total: u128 = 0;
    proof {
        assert(tc@.subrange(tc@.len() as int, tc@.len() as int) =~= Seq::<char>::empty());
    }
    while k > 0
        invariant
            tc@ == tail@,
            k <= tc.len(),
            total == utf8_len(tc@.subrange(k as int, tc@.len() as int)),
            total <= 4 * (tc.len() - k),
        decreases k,
    {
        let ghost s = tc@.subrange(k - 1, tc@.len() as int);
        proof {
            lemma_utf8_len_first(s);
            assert(s.drop_first() =~= tc@.subrange(k as int, tc@.len() as int));
            assert(s[0] == tc@[k - 1]);
        }
        total = total + char_width(tc[k - 1]) as u128;
        k = k - 1;
    }
    assert(tc@.subrange(0, tc@.len() as int) =~= tc@);
    if total <= 2048 {
        return tail;
    }
    let mut i: usize = 0;
    let mut rest: u128 = total;
    while i < tc.len() && rest - char_width(tc[i]) as u128 >= 2048
        invariant
            tc@ == tail@,
            i <= tc.len(),
            rest == utf8_len(tc@.subrange(i as int, tc@.len() as int)),
            rest >= 2048,
            byte_cut(tc@) == byte_cut(tc@.subrange(i as int, tc@.len() as int)),
        decreases tc.len() - i,
    {
        let ghost s = tc@.subrange(i as int, tc@.len() as int);
        proof {
            lemma_utf8_len_first(s);
            assert(s.drop_first() =~= tc@.subrange(i + 1, tc@.len() as int));
            assert(s[0] == tc@[i as int]);
            lemma_byte_cut_skip(tc@, i as int);
        }
        rest = rest - char_width(tc[i]) as u128;
        i = i + 1;
    }
    proof {
        let s = tc@.subrange(i as int, tc@.len() as int);
        if i < tc.len() {
            lemma_utf8_len_first(s);
            assert(s[0] == tc@[i as int]);
            assert(!(utf8_len(s.drop_first()) >= tail_bytes_max()));
        } else {
            assert(utf8_len(s) == 0);
        }
        assert(byte_cut(s) == s);
    }
    let mut r = String::new();
    push_char(&mut r, '\u{2026}');
    r.append(tail.as_str().substring_char(i, tc.len()));
    assert(r@ =~= tail_of(text@));
    r
}

/// The tail that failure messages quote of a child's raw stderr, decoded as
/// `String::from_utf8_lossy` decodes it.
pub fn stderr_tail(stderr: &[u8]) -> (r: String)
    ensures
        r@ == tail_of(utf8_lossy(stderr@)),
{
    let text = decode_lossy(stderr);
    stderr_tail_text(text.as_str())
}

/// `msg`, followed by a newline and the stderr tail when the tail is not
/// empty.
pub open spec fn with_tail(msg: Seq<char>, tail: Seq<char>) -> Seq<char> {
    if tail.len() == 0 {
        msg
    } else {
        msg + seq!['\n'] + tail
    }
}

/// `msg` with the tail of the child's stderr appended on its own line, when
/// there is one.
pub fn with_stderr_tail(msg: String, stderr: &[u8]) -> (r: String)
    ensures
        r@ == with_tail(msg@, tail_of(utf8_lossy(stderr@))),
{
    let tail = stderr_tail(stderr);
    append_tail(msg, &tail)
}

/// `msg` with `tail` appended on its own line, when `tail` is not empty.
pub fn append_tail(msg: String, tail: &String) -> (r: String)
    ensures
        r@ == with_tail(msg@, tail@),
{
    if tail.as_str().is_empty() {
        msg
    } else {
        let mut r = msg;
        push_char(&mut r, '\n');
        r.append(tail.as_str());
        r
    }
}

proof fn lemma_byte_cut_bounded(t: Seq<char>)
    requires
        utf8_len(t) >= tail_bytes_max(),
    ensures
        tail_bytes_max() <= utf8_len(byte_cut(t)) < tail_bytes_max() + 4,
    decreases t.len(),
{
    if t.len() > 0 && utf8_len(t.drop_first()) >= tail_bytes_max() {
        lemma_byte_cut_bounded(t.drop_first());
    } else {
        assert(t.len() > 0);
        lemma_utf8_len_first(t);
        assert(encode_scalar(t[0] as u32).len() <= 4);
    }
}

/// The quoted tail holds at most 2048 bytes of stderr text, plus the leading
/// `…` and the rest of the character that the cut falls into.
pub proof fn tail_is_bounded(text: Seq<char>)
    ensures
        utf8_len(tail_of(text)) <= tail_bytes_max() + 6,
{
    let tail = join_lines(last_n(nonblank_trimmed(split_lines(text)), tail_lines_max()));
    if utf8_len(tail) > tail_bytes_max() {
        lemma_byte_cut_bounded(tail);
        let r = seq!['\u{2026}'] + byte_cut(tail);
        lemma_utf8_len_first(r);
        assert(r.drop_first() =~= byte_cut(tail));
        assert(r[0] as u32 == 0x2026);
    }
}

/// The number of `\n` characters in `s`.
pub open spec fn newlines(s: Seq<char>) -> nat
    decreases s.len(),
{
    if s.len() == 0 {
        0
    } else {
        newlines(s.drop_last()) + if s.last() == '\n' {
            1nat
        } else {
            0nat
        }
    }
}

/// `s` holds no `\n`.
pub open spec fn one_line(s: Seq<char>) -> bool {
    forall|i: int| 0 <= i < s.len() ==> #[trigger] s[i] != '\n'
}

proof fn lemma_newlines_add(a: Seq<char>, b: Seq<char>)
    ensures
        newlines(a + b) == newlines(a) + newlines(b),
    decreases b.len(),
{
    if b.len() > 0 {
        lemma_newlines_add(a, b.drop_last());
        assert((a + b).drop_last() =~= a + b.drop_last());
    } else {
        assert(a + b =~= a);
    }
}

proof fn lemma_one_line_no_newlines(s: Seq<char>)
    requires
        one_line(s),
    ensures
        newlines(s) == 0,
    decreases s.len(),
{
    if s.len() > 0 {
        assert(one_line(s.drop_last())) by {
            assert forall|i: int| 0 <= i < s.drop_last().len() implies #[trigger] s.drop_last()[i]
                != '\n' by {
                assert(s.drop_last()[i] == s[i]);
            }
        }
        lemma_one_line_no_newlines(s.drop_last());
        assert(s.last() == s[s.len() - 1]);
    }
}

proof fn lemma_trimmed_one_line(s: Seq<char>)
    requires
        one_line(s),
    ensures
        one_line(trimmed(s)),
{
    lemma_trim_start_one_line(s);
    lemma_trim_end_one_line(crate::text::trim_start(s));
}

proof fn lemma_trim_start_one_line(s: Seq<char>)
    requires
        one_line(s),
    ensures
        one_line(crate::text::trim_start(s)),
    decreases s.len(),
{
    if s.len() > 0 && crate::text::is_ws(s[0]) {
        assert forall|i: int| 0 <= i < s.drop_first().len() implies #[trigger] s.drop_first()[i]
            != '\n' by {
            assert(s.drop_first()[i] == s[i + 1]);
        }
        lemma_trim_start_one_line(s.drop_first());
    }
}

proof fn lemma_trim_end_one_line(s: Seq<char>)
    requires
        one_line(s),
    ensures
        one_line(crate::text::trim_end(s)),
    decreases s.len(),
{
    if s.len() > 0 && crate::text::is_ws(s.last()) {
        assert forall|i: int| 0 <= i < s.drop_last().len() implies #[trigger] s.drop_last()[i]
            != '\n' by {
            assert(s.drop_last()[i] == s[i]);
        }
        lemma_trim_end_one_line(s.drop_last());
    }
}

proof fn lemma_split_lines_one_line(s: Seq<char>)
    ensures
        forall|j: int| 0 <= j < split_lines(s).len() ==> one_line(#[trigger] split_lines(s)[j]),
    decreases s.len(),
{
    if s.len() > 0 {
        lemma_split_lines_one_line(s.drop_last());
        lemma_split_lines_nonempty(s.drop_last());
        let r = split_lines(s.drop_last());
        if s.last() != '\n' {
            let l = r.last().push(s.last());
            assert(one_line(r[r.len() - 1]));
            assert forall|i: int| 0 <= i < l.len() implies #[trigger] l[i] != '\n' by {
                if i < l.len() - 1 {
                    assert(l[i] == r[r.len() - 1][i]);
                }
            }
            assert forall|j: int| 0 <= j < split_lines(s).len() implies one_line(
                #[trigger] split_lines(s)[j],
            ) by {
                if j < r.len() - 1 {
                    assert(split_lines(s)[j] == r[j]);
                }
            }
        } else {
            assert forall|j: int| 0 <= j < split_lines(s).len() implies one_line(
                #[trigger] split_lines(s)[j],
            ) by {
                if j < r.len() {
                    assert(split_lines(s)[j] == r[j]);
                } else {
                    assert(split_lines(s)[j] =~= Seq::<char>::empty());
                }
            }
        }
    }
}

proof fn lemma_nonblank_one_line(pieces: Seq<Seq<char>>)
    requires
        forall|j: int| 0 <= j < pieces.len() ==> one_line(#[trigger] pieces[j]),
    ensures
        forall|j: int|
            0 <= j < nonblank_trimmed(pieces).len() ==> one_line(
                #[trigger] nonblank_trimmed(pieces)[j],
            ),
    decreases pieces.len(),
{
    if pieces.len() > 0 {
        let p = pieces.drop_last();
        assert forall|j: int| 0 <= j < p.len() implies one_line(#[trigger] p[j]) by {
            assert(p[j] == pieces[j]);
        }
        lemma_nonblank_one_line(p);
        assert(one_line(pieces[pieces.len() - 1]));
        lemma_trimmed_one_line(pieces.last());
        let r = nonblank_trimmed(p);
        assert forall|j: int|
            0 <= j < nonblank_trimmed(pieces).len() implies one_line(
            #[trigger] nonblank_trimmed(pieces)[j],
        ) by {
            if j < r.len() {
                assert(nonblank_trimmed(pieces)[j] == r[j]);
            }
        }
    }
}

proof fn lemma_join_newlines(ls: Seq<Seq<char>>)
    requires
        ls.len() > 0,
        forall|j: int| 0 <= j < ls.len() ==> one_line(#[trigger] ls[j]),
    ensures
        newlines(join_lines(ls)) == ls.len() - 1,
    decreases ls.len(),
{
    if ls.len() == 1 {
        lemma_one_line_no_newlines(ls[0]);
    } else {
        let p = ls.drop_last();
        assert forall|j: int| 0 <= j < p.len() implies one_line(#[trigger] p[j]) by {
            assert(p[j] == ls[j]);
        }
        lemma_join_newlines(p);
        assert(one_line(ls[ls.len() - 1]));
        lemma_one_line_no_newlines(ls.last());
        assert(seq!['\n'].drop_last() =~= Seq::<char>::empty());
        assert(newlines(seq!['\n']) == 1) by {
            reveal_with_fuel(newlines, 2);
        }
        lemma_newlines_add(join_lines(p) + seq!['\n'], ls.last());
        lemma_newlines_add(join_lines(p), seq!['\n']);
        assert(join_lines(ls) == join_lines(p) + seq!['\n'] + ls.last());
    }
}

proof fn lemma_byte_cut_newlines(t: Seq<char>)
    ensures
        newlines(byte_cut(t)) <= newlines(t),
    decreases t.len(),
{
    if t.len() > 0 && utf8_len(t.drop_first()) >= tail_bytes_max() {
        lemma_byte_cut_newlines(t.drop_first());
        assert(t =~= seq![t[0]] + t.drop_first());
        lemma_newlines_add(seq![t[0]], t.drop_first());
    }
}

/// The quoted tail spans at most twenty lines.
pub proof fn tail_has_at_most_twenty_lines(text: Seq<char>)
    ensures
        newlines(tail_of(text)) < tail_lines_max(),
{
    let all = nonblank_trimmed(split_lines(text));
    lemma_split_lines_one_line(text);
    lemma_nonblank_one_line(split_lines(text));
    let kept = last_n(all, tail_lines_max());
    let tail = join_lines(kept);
    if kept.len() == 0 {
        assert(tail =~= Seq::<char>::empty());
    } else {
        assert forall|j: int| 0 <= j < kept.len() implies one_line(#[trigger] kept[j]) by {
            if all.len() > tail_lines_max() {
                assert(kept[j] == all[all.len() - tail_lines_max() + j]);
            }
        }
        lemma_join_newlines(kept);
    }
    if utf8_len(tail) > tail_bytes_max() {
        lemma_byte_cut_newlines(tail);
        assert(seq!['\u{2026}'].drop_last() =~= Seq::<char>::empty());
        assert(newlines(seq!['\u{2026}']) == 0) by {
            reveal_with_fuel(newlines, 2);
        }
        lemma_newlines_add(seq!['\u{2026}'], byte_cut(tail));
    }
    assert(kept.len() <= tail_lines_max());
    assert(newlines(tail) < tail_lines_max());
}

} // verus!
