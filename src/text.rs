//! Keyword lists and keyword matching on titles.

use vstd::prelude::*;

verus! {

/// Whether `needle` occurs in `hay` as a run of consecutive characters.
pub open spec fn occurs_in(needle: Seq<char>, hay: Seq<char>) -> bool {
    exists|i: int|
        0 <= i && i + needle.len() <= hay.len() && #[trigger] hay.subrange(i, i + needle.len())
            == needle
}

/// Relies on `str::contains`: whether `needle` matches a sub-slice of `hay`.
#[verifier::external_body]
fn str_contains(hay: &str, needle: &str) -> (r: bool)
    ensures
        r == occurs_in(needle@, hay@),
{
    hay.contains(needle)
}

/// Whether every keyword occurs in `text`.
pub open spec fn contains_all(text: Seq<char>, keywords: Seq<Seq<char>>) -> bool {
    forall|k: int| 0 <= k < keywords.len() ==> occurs_in(#[trigger] keywords[k], text)
}

/// The views of a list of strings.
pub open spec fn views(v: Seq<String>) -> Seq<Seq<char>> {
    v.map_values(|s: String| s@)
}

/// Tells whether every keyword occurs in `text` (case-sensitive).
pub fn has_all_keywords(text: &str, keywords: &Vec<String>) -> (r: bool)
    ensures
        r == contains_all(text@, views(keywords@)),
{
    let n = keywords.len();
    let mut k: usize = 0;
    while k < n
        invariant
            n == keywords@.len(),
            k <= n,
            contains_all(text@, views(keywords@.subrange(0, k as int))),
        decreases n - k,
    {
        if !str_contains(text, keywords[k].as_str()) {
            assert(views(keywords@)[k as int] == keywords@[k as int]@);
            return false;
        }
        assert(views(keywords@.subrange(0, k + 1)) == views(keywords@.subrange(0, k as int)).push(keywords@[k as int]@));
        k += 1;
    }
    assert(keywords@.subrange(0, n as int) == keywords@);
    true
}

/// The pieces of `s` between its spaces, in order: `"a  b"` has the pieces
/// `"a"`, `""` and `"b"`.
pub open spec fn pieces(s: Seq<char>) -> Seq<Seq<char>>
    decreases s.len(),
{
    if s.len() == 0 {
        seq![seq![]]
    } else {
        let p = pieces(s.drop_last());
        if s.last() == ' ' {
            p.push(seq![])
        } else {
            p.update(p.len() - 1, p.last().push(s.last()))
        }
    }
}

/// The keywords of a space-separated list: its non-empty pieces.
pub open spec fn keywords_of(s: Seq<char>) -> Seq<Seq<char>> {
    pieces(s).filter(|w: Seq<char>| w.len() > 0)
}

proof fn lemma_pieces_len(s: Seq<char>)
    ensures
        pieces(s).len() >= 1,
    decreases s.len(),
{
    if s.len() > 0 {
        lemma_pieces_len(s.drop_last());
    }
}

proof fn lemma_filter_push(done: Seq<Seq<char>>, w: Seq<char>)
    ensures
        done.push(w).filter(|w: Seq<char>| w.len() > 0) == if w.len() > 0 {
            done.filter(|w: Seq<char>| w.len() > 0).push(w)
        } else {
            done.filter(|w: Seq<char>| w.len() > 0)
        },
{
    reveal(Seq::filter);
    assert(done.push(w).drop_last() == done);
}

/// Splits a space-separated keyword list into its non-empty words.
pub fn split_keywords(keywords: &str) -> (r: Vec<String>)
    ensures
        views(r@) == keywords_of(keywords@),
{
    let n = keywords.unicode_len();
    let mut words: Vec<String> = Vec::new();
    let mut start: usize = 0;
    let mut i: usize = 0;
    let ghost mut done: Seq<Seq<char>> = seq![];
    assert(keywords@.subrange(0, 0) == Seq::<char>::empty());
    assert(pieces(Seq::<char>::empty()) == seq![Seq::<char>::empty()]);
    assert(done.push(Seq::<char>::empty()) == seq![Seq::<char>::empty()]);
    while i < n
        invariant
            n == keywords@.len(),
            start <= i <= n,
            pieces(keywords@.subrange(0, i as int)) == done.push(
                keywords@.subrange(start as int, i as int),
            ),
            views(words@) == done.filter(|w: Seq<char>| w.len() > 0),
        decreases n - i,
    {
        let c = keywords.get_char(i);
        let ghost before = keywords@.subrange(0, i as int);
        assert(keywords@.subrange(0, i + 1).drop_last() == before);
        assert(keywords@.subrange(0, i + 1).last() == c);
        if c == ' ' {
            let ghost w = keywords@.subrange(start as int, i as int);
            proof {
                lemma_filter_push(done, w);
            }
            if start < i {
                let word = keywords.substring_char(start, i).to_owned();
                assert(views(words@.push(word)) == views(words@).push(word@));
                words.push(word);
            }
            proof {
                done = done.push(w);
            }
            start = i + 1;
            assert(keywords@.subrange(start as int, i + 1) == Seq::<char>::empty());
        } else {
            assert(keywords@.subrange(start as int, i + 1) == keywords@.subrange(
                start as int,
                i as int,
            ).push(c));
        }
        i += 1;
    }
    let ghost w = keywords@.subrange(start as int, n as int);
    proof {
        lemma_filter_push(done, w);
        assert(keywords@.subrange(0, n as int) == keywords@);
    }
    if start < n {
        let word = keywords.substring_char(start, n).to_owned();
        assert(views(words@.push(word)) == views(words@).push(word@));
        words.push(word);
    }
    words
}

} // verus!
