//! Keyword criteria: a comma-separated list of keywords, and whether a line
//! holds any or all of them, anywhere or as whole words.
use vstd::prelude::*;

use crate::text::{
    char_is_alphanumeric, is_alphanumeric, split, split_chars, trim, trim_chars, views,
};

verus! {

/// The trimmed pieces of `pieces` that are not empty, in order.
pub open spec fn nonempty_trimmed(pieces: Seq<Seq<char>>) -> Seq<Seq<char>>
    decreases pieces.len(),
{
    if pieces.len() == 0 {
        Seq::<Seq<char>>::empty()
    } else {
        let rest = nonempty_trimmed(pieces.drop_last());
        let t = trim(pieces.last());
        if t.len() == 0 {
            rest
        } else {
            rest.push(t)
        }
    }
}

/// The keywords that `criteria` lists: its comma-separated pieces, without
/// surrounding white space, leaving out empty ones.
pub open spec fn keyword_list(criteria: Seq<char>) -> Seq<Seq<char>> {
    nonempty_trimmed(split(criteria, ','))
}

/// A character that belongs to a word: alphanumeric or an underscore.
pub open spec fn is_word_char(c: char) -> bool {
    is_alphanumeric(c) || c == '_'
}

/// `kw` occurs in `line` starting at index `p`.
pub open spec fn occurs_at(line: Seq<char>, kw: Seq<char>, p: int) -> bool {
    0 <= p && p + kw.len() <= line.len() && line.subrange(p, p + kw.len()) == kw
}

/// The occurrence of `kw` at `p` is not preceded nor followed by a word
/// character.
pub open spec fn bounded_at(line: Seq<char>, kw: Seq<char>, p: int) -> bool {
    &&& (p == 0 || !is_word_char(line[p - 1]))
    &&& (p + kw.len() == line.len() || !is_word_char(line[p + kw.len()]))
}

/// `kw` occurs in `line`, as a whole word when `whole_words` is set.
pub open spec fn contains_keyword(line: Seq<char>, kw: Seq<char>, whole_words: bool) -> bool {
    exists|p: int| #[trigger] occurs_at(line, kw, p) && (!whole_words || bounded_at(line, kw, p))
}

/// `line` contains all of `kws` (when `match_all`) or one of them (otherwise).
pub open spec fn keywords_match(
    line: Seq<char>,
    kws: Seq<Seq<char>>,
    whole_words: bool,
    match_all: bool,
) -> bool {
    if match_all {
        forall|i: int| 0 <= i < kws.len() ==> contains_keyword(line, #[trigger] kws[i], whole_words)
    } else {
        exists|i: int| 0 <= i < kws.len() && contains_keyword(line, #[trigger] kws[i], whole_words)
    }
}

/// The keywords that `criteria` lists.
pub fn parse_keywords(criteria: &[char]) -> (r: Vec<Vec<char>>)
    ensures
        views(r@) == keyword_list(criteria@),
{
    let pieces = split_chars(criteria, ',');
    let mut r: Vec<Vec<char>> = Vec::new();
    let mut i: usize = 0;
    let ghost pv = views(pieces@);
    assert(pv.take(0) =~= Seq::<Seq<char>>::empty());
    while i < pieces.len()
        invariant
            i <= pieces@.len(),
            pv == views(pieces@),
            views(r@) == nonempty_trimmed(pv.take(i as int)),
        decreases pieces@.len() - i,
    {
        let t = trim_chars(pieces[i].as_slice());
        let ghost next = pv.take(i + 1);
        assert(next.drop_last() =~= pv.take(i as int));
        assert(next.last() == pieces@[i as int]@);
        if t.len() > 0 {
            let ghost before = views(r@);
            r.push(t);
            assert(views(r@) =~= before.push(t@));
        }
        i += 1;
    }
    assert(pv.take(pieces@.len() as int) =~= pv);
    r
}

/// Whether `c` belongs to a word.
fn word_char(c: char) -> (b: bool)
    ensures
        b == is_word_char(c),
{
    c == '_' || char_is_alphanumeric(c)
}

/// Whether `kw` occurs in `line` at `p`.
fn occurs_at_exec(line: &[char], kw: &[char], p: usize) -> (b: bool)
    requires
        p + kw@.len() <= line@.len(),
    ensures
        b == occurs_at(line@, kw@, p as int),
{
    let n = line.len();
    let mut k: usize = 0;
    while k < kw.len()
        invariant
            k <= kw@.len(),
            p + kw@.len() <= line@.len(),
            n == line@.len(),
            forall|q: int| 0 <= q < k ==> line@[p + q] == kw@[q],
        decreases kw@.len() - k,
    {
        if line[p + k] != kw[k] {
            assert(line@.subrange(p as int, p + kw@.len())[k as int] != kw@[k as int]);
            return false;
        }
        k += 1;
    }
    assert(line@.subrange(p as int, p + kw@.len()) =~= kw@);
    true
}

/// Whether `kw` occurs in `line`, as a whole word when `whole_words` is set.
pub fn find_keyword(line: &[char], kw: &[char], whole_words: bool) -> (b: bool)
    ensures
        b == contains_keyword(line@, kw@, whole_words),
{
    if kw.len() > line.len() {
        assert forall|p: int| !occurs_at(line@, kw@, p) by {}
        return false;
    }
    let last = line.len() - kw.len();
    let mut p: usize = 0;
    loop
        invariant
            p <= last,
            last + kw@.len() == line@.len(),
            forall|q: int|
                0 <= q < p ==> !(#[trigger] occurs_at(line@, kw@, q) && (!whole_words || bounded_at(
                    line@,
                    kw@,
                    q,
                ))),
        decreases last - p,
    {
        if occurs_at_exec(line, kw, p) {
            let before_ok = p == 0 || !word_char(line[p - 1]);
            let end = p + kw.len();
            let after_ok = end == line.len() || !word_char(line[end]);
            if !whole_words || (before_ok && after_ok) {
                assert(occurs_at(line@, kw@, p as int));
                return true;
            }
        }
        if p == last {
            assert forall|q: int|
                !(#[trigger] occurs_at(line@, kw@, q) && (!whole_words || bounded_at(
                    line@,
                    kw@,
                    q,
                ))) by {
                if occurs_at(line@, kw@, q) {
                    assert(q <= last);
                }
            }
            return false;
        }
        p += 1;
    }
}

/// Whether `line` contains all of `kws` (when `match_all`) or one of them.
pub fn match_keywords(line: &[char], kws: &Vec<Vec<char>>, whole_words: bool, match_all: bool) -> (b:
    bool)
    ensures
        b == keywords_match(line@, views(kws@), whole_words, match_all),
{
    let ghost kv = views(kws@);
    let mut i: usize = 0;
    while i < kws.len()
        invariant
            i <= kws@.len(),
            kv == views(kws@),
            match_all ==> forall|j: int|
                0 <= j < i ==> contains_keyword(line@, #[trigger] kv[j], whole_words),
            !match_all ==> forall|j: int|
                0 <= j < i ==> !contains_keyword(line@, #[trigger] kv[j], whole_words),
        decreases kws@.len() - i,
    {
        let found = find_keyword(line, kws[i].as_slice(), whole_words);
        assert(kv[i as int] == kws@[i as int]@);
        if match_all && !found {
            return false;
        }
        if !match_all && found {
            return true;
        }
        i += 1;
    }
    match_all
}

/// A line that holds all of a non-empty list of keywords holds one of them.
pub proof fn law_all_keywords_implies_any(
    line: Seq<char>,
    kws: Seq<Seq<char>>,
    whole_words: bool,
)
    requires
        kws.len() > 0,
    ensures
        keywords_match(line, kws, whole_words, true) ==> keywords_match(line, kws, whole_words, false),
{
    if keywords_match(line, kws, whole_words, true) {
        assert(contains_keyword(line, kws[0], whole_words));
    }
}

/// With a single keyword, requiring all keywords and requiring one of them
/// select the same lines.
pub proof fn law_single_keyword_all_equals_any(
    line: Seq<char>,
    kws: Seq<Seq<char>>,
    whole_words: bool,
)
    requires
        kws.len() == 1,
    ensures
        keywords_match(line, kws, whole_words, true) == keywords_match(line, kws, whole_words, false),
{
    if keywords_match(line, kws, whole_words, false) {
        let i = choose|i: int| 0 <= i < kws.len() && contains_keyword(line, #[trigger] kws[i], whole_words);
        assert(i == 0);
    }
    if keywords_match(line, kws, whole_words, true) {
        assert(contains_keyword(line, kws[0], whole_words));
    }
}

/// A keyword found as a whole word is found anywhere as well: whole-word
/// matching selects fewer lines.
pub proof fn law_whole_word_implies_substring(line: Seq<char>, kws: Seq<Seq<char>>, match_all: bool)
    ensures
        keywords_match(line, kws, true, match_all) ==> keywords_match(line, kws, false, match_all),
{
    assert forall|kw: Seq<char>| contains_keyword(line, kw, true) implies contains_keyword(
        line,
        kw,
        false,
    ) by {
        let p = choose|p: int| #[trigger] occurs_at(line, kw, p) && (!true || bounded_at(line, kw, p));
        assert(occurs_at(line, kw, p));
    }
    if keywords_match(line, kws, true, match_all) && !match_all {
        let i = choose|i: int| 0 <= i < kws.len() && contains_keyword(line, #[trigger] kws[i], true);
        assert(contains_keyword(line, kws[i], false));
    }
}

/// With whole words, any one occurrence of the keyword that is neither
/// preceded nor followed by a word character makes the line hold it, whatever
/// other occurrences come before or after.
pub proof fn law_whole_word_any_bounded_occurrence(line: Seq<char>, kw: Seq<char>, p: int)
    requires
        occurs_at(line, kw, p),
        bounded_at(line, kw, p),
    ensures
        contains_keyword(line, kw, true),
        contains_keyword(line, kw, false),
{
}

/// With whole words, a line holds a keyword only through an occurrence that is
/// neither preceded nor followed by a word character.
pub proof fn law_whole_word_needs_a_bounded_occurrence(line: Seq<char>, kw: Seq<char>)
    requires
        contains_keyword(line, kw, true),
    ensures
        exists|p: int|
            #[trigger] occurs_at(line, kw, p) && (p == 0 || !is_word_char(line[p - 1])) && (p
                + kw.len() == line.len() || !is_word_char(line[p + kw.len()])),
{
    let p = choose|p: int| #[trigger] occurs_at(line, kw, p) && (!true || bounded_at(line, kw, p));
    assert(occurs_at(line, kw, p) && bounded_at(line, kw, p));
}

/// A keyword that follows a character outside words, and ends the line or is
/// followed by such a character, is held as a whole word, whatever text comes
/// before it.
pub proof fn law_keyword_after_separator_is_a_whole_word(
    prefix: Seq<char>,
    sep: char,
    kw: Seq<char>,
    suffix: Seq<char>,
)
    requires
        !is_word_char(sep),
        suffix.len() == 0 || !is_word_char(suffix[0]),
    ensures
        contains_keyword(prefix.push(sep) + kw + suffix, kw, true),
{
    let line = prefix.push(sep) + kw + suffix;
    let p: int = prefix.len() as int + 1;
    assert(line.subrange(p, p + kw.len()) =~= kw);
    assert(line[p - 1] == sep);
    if suffix.len() > 0 {
        assert(line[p + kw.len()] == suffix[0]);
    }
    assert(occurs_at(line, kw, p) && bounded_at(line, kw, p));
}

} // verus!
