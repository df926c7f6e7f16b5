//! Shaping process tables for output: how many rows, and how cells are cut and quoted.

use crate::text::{chars_of, string_of};
use crate::watch::monitor::ProcessInfo;
use vstd::prelude::*;
use vstd::string::StringSliceAdditionalSpecFns;
use vstd::utf8::{decode_utf8, encode_utf8, is_char_boundary};

verus! {

broadcast use vstd::utf8::group_utf8_lib;

/// Output format of the process table.
#[derive(Debug, Clone, Copy, PartialEq, Eq, Structural)]
pub enum OutputFormat {
    Text,
    Json,
    Csv,
}

/// The rows shown when at most `top` are wanted (`0` meaning all).
pub open spec fn top_rows(s: Seq<ProcessInfo>, top: nat) -> Seq<ProcessInfo> {
    if top > 0 && top < s.len() {
        s.take(top as int)
    } else {
        s
    }
}

/// Keeps the first `top` processes (all of them when `top` is `0` or not smaller than
/// their number).
pub fn select_top(processes: Vec<ProcessInfo>, top: usize) -> (r: Vec<ProcessInfo>)
    ensures
        r@ == top_rows(processes@, top as nat),
{
    let mut v = processes;
    if top > 0 && top < v.len() {
        v.truncate(top);
    }
    v
}

/// The rows shown are the first ones, in order: exactly `top` of them when `0 < top` and
/// there are at least `top`, and all of them when `top` is `0` or there are no more
/// than `top`.
pub proof fn lemma_top_rows_are_the_first(s: Seq<ProcessInfo>, top: nat)
    ensures
        0 < top <= s.len() ==> top_rows(s, top).len() == top,
        top == 0 || top >= s.len() ==> top_rows(s, top).len() == s.len(),
        top_rows(s, top).len() <= s.len(),
        forall|i: int| 0 <= i < top_rows(s, top).len() ==> #[trigger] top_rows(s, top)[i] == s[i],
{
}

/// `s` with every `"` doubled, as a CSV field between quotes needs.
pub open spec fn quotes_doubled(s: Seq<char>) -> Seq<char>
    decreases s.len(),
{
    if s.len() == 0 {
        Seq::empty()
    } else if s.last() == '"' {
        quotes_doubled(s.drop_last()) + seq!['"', '"']
    } else {
        quotes_doubled(s.drop_last()).push(s.last())
    }
}

/// Doubles every `"` of `s` (`str::replace('"', "\"\"")`).
pub fn csv_escape(s: &str) -> (r: String)
    ensures
        r@ == quotes_doubled(s@),
{
    let c = chars_of(s);
    let mut v: Vec<char> = Vec::new();
    let n = c.len();
    for i in 0..n
        invariant
            n == c@.len(),
            c@ == s@,
            v@ == quotes_doubled(c@.take(i as int)),
    {
        assert(c@.take(i + 1).drop_last() =~= c@.take(i as int));
        if c[i] == '"' {
            v.push('"');
            v.push('"');
        } else {
            v.push(c[i]);
        }
        assert(v@ =~= quotes_doubled(c@.take(i + 1)));
    }
    assert(c@.take(n as int) =~= c@);
    string_of(&v)
}

/// The words joined with a single space between them (`[String]::join(" ")`).
pub open spec fn spaced(words: Seq<Seq<char>>) -> Seq<char>
    decreases words.len(),
{
    if words.len() == 0 {
        Seq::empty()
    } else if words.len() == 1 {
        words[0]
    } else {
        spaced(words.drop_last()) + seq![' '] + words.last()
    }
}

/// Joins the words of a command line with single spaces.
pub fn join_words(words: &Vec<String>) -> (r: String)
    ensures
        r@ == spaced(crate::json::string_views(words@)),
{
    let mut v: Vec<char> = Vec::new();
    let n = words.len();
    for i in 0..n
        invariant
            n == words@.len(),
            v@ == spaced(crate::json::string_views(words@.take(i as int))),
    {
        let ghost w = crate::json::string_views(words@.take(i + 1));
        assert(w.drop_last() =~= crate::json::string_views(words@.take(i as int)));
        if i > 0 {
            v.push(' ');
        }
        let mut t = chars_of(words[i].as_str());
        v.append(&mut t);
        assert(v@ =~= spaced(w));
    }
    assert(words@.take(n as int) =~= words@);
    string_of(&v)
}

/// `s` cut for a column: if its UTF-8 form is longer than `max` bytes, its first
/// `keep` bytes followed by `tail`; otherwise `s` itself.
pub open spec fn fitted(s: Seq<char>, max: nat, keep: nat, tail: Seq<char>) -> Seq<char> {
    if encode_utf8(s).len() > max {
        decode_utf8(encode_utf8(s).take(keep as int)) + tail
    } else {
        s
    }
}

/// Cuts `s` for a column of `max` bytes, keeping `keep` bytes and marking the cut with
/// `tail`. Cutting inside a character is not possible (`str` slicing panics there).
pub fn fit_text(s: &str, max: usize, keep: usize, tail: &str) -> (r: String)
    requires
        encode_utf8(s@).len() > max ==> keep <= encode_utf8(s@).len() && is_char_boundary(encode_utf8(s@), keep as int),
    ensures
        r@ == fitted(s@, max as nat, keep as nat, tail@),
{
    let bytes = s.as_bytes();
    if bytes.len() > max {
        let (left, _right) = s.split_at(keep);
        proof {
            assert(left.spec_bytes() =~= encode_utf8(s@).take(keep as int));
            assert(decode_utf8(encode_utf8(left@)) == left@);
        }
        let mut v = chars_of(left);
        let mut t = chars_of(tail);
        v.append(&mut t);
        assert(v@ == left@ + tail@);
        assert(left@ == decode_utf8(encode_utf8(s@).take(keep as int)));
        string_of(&v)
    } else {
        let r = s.to_string();
        assert(r@ == s@);
        r
    }
}

/// CSV quoting goes character by character: a `"` becomes two, any other character stays,
/// and the quoting of two texts one after the other is the quoting of the first, then of
/// the second.
pub proof fn lemma_quotes_doubled_by_char(a: Seq<char>, b: Seq<char>, c: char)
    ensures
        quotes_doubled(seq![c]) == (if c == '"' { seq!['"', '"'] } else { seq![c] }),
        quotes_doubled(a + b) == quotes_doubled(a) + quotes_doubled(b),
    decreases b.len(),
{
    assert(seq![c].drop_last() =~= Seq::<char>::empty());
    assert(seq![c].last() == c);
    assert(quotes_doubled(Seq::<char>::empty()) =~= Seq::<char>::empty());
    if c == '"' {
        assert(quotes_doubled(seq![c]) =~= seq!['"', '"']);
    } else {
        assert(quotes_doubled(seq![c]) =~= seq![c]);
    }
    if b.len() == 0 {
        assert(a + b =~= a);
        assert(quotes_doubled(a) + quotes_doubled(b) =~= quotes_doubled(a));
    } else {
        lemma_quotes_doubled_by_char(a, b.drop_last(), c);
        assert((a + b).drop_last() =~= a + b.drop_last());
        assert((a + b).last() == b.last());
        if b.last() == '"' {
            assert(quotes_doubled(a + b) =~= quotes_doubled(a) + quotes_doubled(b));
        } else {
            assert(quotes_doubled(a + b) =~= quotes_doubled(a) + quotes_doubled(b));
        }
    }
}

/// Joining puts exactly one space between neighbouring words: one word is itself, and
/// joining two non-empty runs of words is joining each, with a space between.
pub proof fn lemma_spaced_joins(a: Seq<Seq<char>>, b: Seq<Seq<char>>, w: Seq<char>)
    ensures
        spaced(Seq::<Seq<char>>::empty()) == Seq::<char>::empty(),
        spaced(seq![w]) == w,
        a.len() > 0 && b.len() > 0 ==> spaced(a + b) == spaced(a) + seq![' '] + spaced(b),
    decreases b.len(),
{
    if a.len() > 0 && b.len() > 0 {
        assert((a + b).drop_last() =~= a + b.drop_last());
        assert((a + b).last() == b.last());
        if b.len() == 1 {
            assert(a + b.drop_last() =~= a);
            assert(spaced(b) == b[0]);
        } else {
            lemma_spaced_joins(a, b.drop_last(), w);
            assert(spaced(a + b) =~= spaced(a) + seq![' '] + spaced(b));
        }
    }
}

/// A cell that fits is shown whole; one that does not is shown as the first characters
/// of the text that fill exactly `keep` bytes of its UTF-8 form, then `tail`.
pub proof fn lemma_fitted_cut(s: Seq<char>, max: nat, keep: nat, tail: Seq<char>)
    requires
        encode_utf8(s).len() > max ==> keep <= encode_utf8(s).len() && is_char_boundary(encode_utf8(s), keep as int),
    ensures
        encode_utf8(s).len() <= max ==> fitted(s, max, keep, tail) == s,
        encode_utf8(s).len() > max ==> exists|k: int| 0 <= k <= s.len() && fitted(s, max, keep, tail) == #[trigger] s.take(k) + tail
            && encode_utf8(s.take(k)) == encode_utf8(s).take(keep as int),
{
    if encode_utf8(s).len() > max {
        let bytes = encode_utf8(s);
        vstd::utf8::encode_utf8_valid_utf8(s);
        vstd::utf8::encode_utf8_decode_utf8(s);
        vstd::utf8::decode_utf8_split(bytes, keep as int);
        vstd::utf8::valid_utf8_split(bytes, keep as int);
        let head = bytes.subrange(0, keep as int);
        assert(head =~= bytes.take(keep as int));
        let p = decode_utf8(head);
        let q = decode_utf8(bytes.subrange(keep as int, bytes.len() as int));
        assert(s == p + q);
        assert(s.take(p.len() as int) =~= p);
        vstd::utf8::decode_utf8_encode_utf8(head);
        assert(fitted(s, max, keep, tail) == s.take(p.len() as int) + tail);
    }
}

} // verus!
