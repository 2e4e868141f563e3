//! Character-level text primitives: conversion between `str`/`String` and
//! character vectors, trimming and splitting, and the few character classes
//! and mappings that come from the standard library.
use vstd::prelude::*;

verus! {

broadcast use vstd::string::group_string_axioms;

/// The Unicode `White_Space` property of `c`, which `char::is_whitespace`
/// reports: the tab, line feed, vertical tab, form feed, carriage return,
/// space, next line, no-break space, ogham space mark, the spaces U+2000 to
/// U+200A, line and paragraph separators, narrow no-break space, medium
/// mathematical space and ideographic space.
pub open spec fn is_white_space(c: char) -> bool {
    ||| ('\u{9}' <= c && c <= '\u{D}')
    ||| c == ' '
    ||| c == '\u{85}'
    ||| c == '\u{A0}'
    ||| c == '\u{1680}'
    ||| ('\u{2000}' <= c && c <= '\u{200A}')
    ||| c == '\u{2028}'
    ||| c == '\u{2029}'
    ||| c == '\u{202F}'
    ||| c == '\u{205F}'
    ||| c == '\u{3000}'
}

/// The Unicode `Alphabetic`-or-`Numeric` property of `c`, as
/// `char::is_alphanumeric` reports it.
pub uninterp spec fn is_alphanumeric(c: char) -> bool;

/// The lowercase mapping of a whole string, as `str::to_lowercase` computes it.
pub uninterp spec fn lowercase(s: Seq<char>) -> Seq<char>;

/// Whether `c` is white space.
pub fn char_is_whitespace(c: char) -> (b: bool)
    ensures
        b == is_white_space(c),
{
    ('\u{9}' <= c && c <= '\u{D}') || c == ' ' || c == '\u{85}' || c == '\u{A0}' || c
        == '\u{1680}' || ('\u{2000}' <= c && c <= '\u{200A}') || c == '\u{2028}' || c
        == '\u{2029}' || c == '\u{202F}' || c == '\u{205F}' || c == '\u{3000}'
}

/// Calls `char::is_alphanumeric`; the contract only names its result.
#[verifier::external_body]
pub(crate) fn char_is_alphanumeric(c: char) -> (b: bool)
    ensures
        b == is_alphanumeric(c),
{
    c.is_alphanumeric()
}

/// Calls `str::to_lowercase`; the result is named by `lowercase`, a function of
/// the characters of `s` alone.
#[verifier::external_body]
pub(crate) fn str_to_lowercase(s: &str) -> (r: String)
    ensures
        r@ == lowercase(s@),
{
    s.to_lowercase()
}

/// Calls `String::push`, which appends one character.
#[verifier::external_body]
pub(crate) fn string_push(s: &mut String, c: char)
    ensures
        final(s)@ == old(s)@.push(c),
{
    s.push(c)
}

/// The character views of a sequence of character vectors.
pub open spec fn views(v: Seq<Vec<char>>) -> Seq<Seq<char>> {
    v.map_values(|x: Vec<char>| x@)
}

/// The characters of a string slice, in order.
pub fn chars_of(s: &str) -> (r: Vec<char>)
    ensures
        r@ == s@,
{
    let mut r: Vec<char> = Vec::new();
    for c in it: s.chars()
        invariant
            r@ == it.seq().take(it.index() as int),
            it.seq() == s@,
    {
        r.push(c);
    }
    r
}

/// A string holding exactly the given characters.
pub fn string_of(v: &[char]) -> (r: String)
    ensures
        r@ == v@,
{
    let mut r = String::new();
    let mut i: usize = 0;
    while i < v.len()
        invariant
            i <= v.len(),
            r@ == v@.take(i as int),
        decreases v.len() - i,
    {
        string_push(&mut r, v[i]);
        assert(v@.take(i + 1) =~= v@.take(i as int).push(v@[i as int]));
        i += 1;
    }
    assert(v@.take(v.len() as int) =~= v@);
    r
}

/// Appends all characters of `src` to `dst`.
pub fn append_chars(dst: &mut Vec<char>, src: &[char])
    ensures
        final(dst)@ == old(dst)@ + src@,
{
    let mut i: usize = 0;
    while i < src.len()
        invariant
            i <= src.len(),
            dst@ == old(dst)@ + src@.take(i as int),
        decreases src.len() - i,
    {
        dst.push(src[i]);
        assert(src@.take(i + 1) =~= src@.take(i as int).push(src@[i as int]));
        i += 1;
    }
    assert(src@.take(src.len() as int) =~= src@);
}

/// The lowercase mapping of a character sequence, as `str::to_lowercase`
/// computes it.
pub fn lowercase_chars(s: &[char]) -> (r: Vec<char>)
    ensures
        r@ == lowercase(s@),
{
    let text = string_of(s);
    let lowered = str_to_lowercase(text.as_str());
    chars_of(lowered.as_str())
}

/// `s` without leading white space.
pub open spec fn trim_start(s: Seq<char>) -> Seq<char>
    decreases s.len(),
{
    if s.len() > 0 && is_white_space(s[0]) {
        trim_start(s.drop_first())
    } else {
        s
    }
}

/// `s` without trailing white space.
pub open spec fn trim_end(s: Seq<char>) -> Seq<char>
    decreases s.len(),
{
    if s.len() > 0 && is_white_space(s.last()) {
        trim_end(s.drop_last())
    } else {
        s
    }
}

/// `s` without leading and trailing white space, as `str::trim` gives it.
pub open spec fn trim(s: Seq<char>) -> Seq<char> {
    trim_end(trim_start(s))
}

/// A copy of `s[from..to]`.
pub fn copy_range(s: &[char], from: usize, to: usize) -> (r: Vec<char>)
    requires
        from <= to <= s.len(),
    ensures
        r@ == s@.subrange(from as int, to as int),
{
    let mut r: Vec<char> = Vec::new();
    let mut i = from;
    while i < to
        invariant
            from <= i <= to <= s.len(),
            r@ == s@.subrange(from as int, i as int),
        decreases to - i,
    {
        r.push(s[i]);
        assert(s@.subrange(from as int, i + 1) =~= s@.subrange(from as int, i as int).push(
            s@[i as int],
        ));
        i += 1;
    }
    r
}

/// `s` without leading and trailing white space.
pub fn trim_chars(s: &[char]) -> (r: Vec<char>)
    ensures
        r@ == trim(s@),
{
    let mut start: usize = 0;
    assert(s@.skip(0) =~= s@);
    while start < s.len() && char_is_whitespace(s[start])
        invariant
            start <= s.len(),
            trim_start(s@) == trim_start(s@.skip(start as int)),
        decreases s.len() - start,
    {
        assert(s@.skip(start as int).drop_first() =~= s@.skip(start + 1));
        start += 1;
    }
    assert(trim_start(s@) == s@.skip(start as int));
    let mut end: usize = s.len();
    assert(s@.subrange(start as int, end as int) =~= s@.skip(start as int));
    while end > start && char_is_whitespace(s[end - 1])
        invariant
            start <= end <= s.len(),
            trim(s@) == trim_end(s@.subrange(start as int, end as int)),
        decreases end - start,
    {
        assert(s@.subrange(start as int, end as int).drop_last() =~= s@.subrange(
            start as int,
            end - 1,
        ));
        end -= 1;
    }
    copy_range(s, start, end)
}

/// The pieces of `s` between occurrences of `sep`, as `str::split` with a
/// character pattern gives them: there is always at least one piece.
pub open spec fn split(s: Seq<char>, sep: char) -> Seq<Seq<char>>
    decreases s.len(),
{
    if s.len() == 0 {
        seq![Seq::<char>::empty()]
    } else {
        let pieces = split(s.drop_last(), sep);
        if s.last() == sep {
            pieces.push(Seq::<char>::empty())
        } else {
            pieces.update(pieces.len() - 1, pieces.last().push(s.last()))
        }
    }
}

/// `split` always gives at least one piece.
pub proof fn lemma_split_nonempty(s: Seq<char>, sep: char)
    ensures
        split(s, sep).len() >= 1,
    decreases s.len(),
{
    if s.len() > 0 {
        lemma_split_nonempty(s.drop_last(), sep);
    }
}

/// The pieces of `s` between occurrences of `sep`.
pub fn split_chars(s: &[char], sep: char) -> (r: Vec<Vec<char>>)
    ensures
        views(r@) == split(s@, sep),
{
    let mut done: Vec<Vec<char>> = Vec::new();
    let mut cur: Vec<char> = Vec::new();
    let mut i: usize = 0;
    assert(s@.take(0) =~= Seq::<char>::empty());
    assert(views(done@).push(cur@) =~= split(s@.take(0), sep));
    while i < s.len()
        invariant
            i <= s.len(),
            views(done@).push(cur@) == split(s@.take(i as int), sep),
        decreases s.len() - i,
    {
        let ghost before = views(done@);
        let ghost prefix = s@.take(i + 1);
        assert(prefix.drop_last() =~= s@.take(i as int));
        assert(prefix.last() == s@[i as int]);
        proof {
            lemma_split_nonempty(s@.take(i as int), sep);
        }
        if s[i] == sep {
            let finished = cur;
            done.push(finished);
            cur = Vec::new();
            assert(views(done@) =~= before.push(finished@));
            assert(views(done@).push(cur@) =~= split(prefix, sep));
        } else {
            cur.push(s[i]);
            assert(views(done@) =~= before);
            assert(views(done@).push(cur@) =~= split(prefix, sep));
        }
        i += 1;
    }
    let ghost before = views(done@);
    done.push(cur);
    assert(views(done@) =~= before.push(cur@));
    assert(s@.take(s.len() as int) =~= s@);
    done
}

/// The index of the first occurrence of `c` in `s`, if any.
pub open spec fn first_index_of(s: Seq<char>, c: char) -> Option<int>
    decreases s.len(),
{
    if s.len() == 0 {
        None
    } else if s[0] == c {
        Some(0)
    } else {
        match first_index_of(s.drop_first(), c) {
            Some(k) => Some(k + 1),
            None => None,
        }
    }
}

/// What `first_index_of` gives: the least index holding `c`.
pub proof fn lemma_first_index_of(s: Seq<char>, c: char)
    ensures
        first_index_of(s, c) matches Some(k) ==> 0 <= k < s.len() && s[k] == c && forall|j: int|
            0 <= j < k ==> s[j] != c,
        first_index_of(s, c) is None ==> forall|j: int| 0 <= j < s.len() ==> s[j] != c,
    decreases s.len(),
{
    if s.len() > 0 {
        lemma_first_index_of(s.drop_first(), c);
        if s[0] != c {
            assert forall|j: int| 1 <= j < s.len() implies s[j] == s.drop_first()[j - 1] by {}
        }
    }
}

/// The index of the first occurrence of `c` in `s`, if any.
pub fn find_char(s: &[char], c: char) -> (r: Option<usize>)
    ensures
        r matches Some(k) ==> first_index_of(s@, c) == Some(k as int),
        r is None ==> first_index_of(s@, c) is None,
{
    let mut i: usize = 0;
    while i < s.len()
        invariant
            i <= s.len(),
            forall|j: int| 0 <= j < i ==> s@[j] != c,
        decreases s.len() - i,
    {
        if s[i] == c {
            proof {
                lemma_first_index_of(s@, c);
                if first_index_of(s@, c) is None {
                    assert(s@[i as int] == c);
                } else {
                    let k = first_index_of(s@, c)->0;
                    assert(!(k < i));
                    assert(!(k > i));
                }
            }
            return Some(i);
        }
        i += 1;
    }
    proof {
        lemma_first_index_of(s@, c);
        if first_index_of(s@, c) is Some {
            let k = first_index_of(s@, c)->0;
            assert(s@[k] == c);
        }
    }
    None
}

/// `s` without one trailing carriage return.
pub open spec fn strip_cr(s: Seq<char>) -> Seq<char> {
    if s.len() > 0 && s.last() == '\r' {
        s.drop_last()
    } else {
        s
    }
}

/// The lines of `s`, as `str::lines` gives them: the pieces between line
/// feeds, each that ends in a line feed without the carriage return before
/// it, and without the empty piece after a final line feed.
pub open spec fn text_lines(s: Seq<char>) -> Seq<Seq<char>> {
    let pieces = split(s, '\n');
    let kept = if pieces.last().len() == 0 {
        pieces.drop_last()
    } else {
        pieces
    };
    Seq::new(
        kept.len(),
        |i: int|
            if i < pieces.len() - 1 {
                strip_cr(kept[i])
            } else {
                kept[i]
            },
    )
}

/// `s` without one trailing carriage return.
fn strip_cr_chars(s: &Vec<char>) -> (r: Vec<char>)
    ensures
        r@ == strip_cr(s@),
{
    let len = s.len();
    if len > 0 && s[len - 1] == '\r' {
        copy_range(s.as_slice(), 0, len - 1)
    } else {
        copy_range(s.as_slice(), 0, len)
    }
}

/// The lines of `content`, as `str::lines` gives them.
pub fn split_lines(content: &str) -> (r: Vec<Vec<char>>)
    ensures
        views(r@) == text_lines(content@),
{
    let chars = chars_of(content);
    let pieces = split_chars(chars.as_slice(), '\n');
    proof {
        lemma_split_nonempty(content@, '\n');
    }
    let count = pieces.len();
    let last_len = pieces[count - 1].len();
    let kept = if last_len == 0 {
        count - 1
    } else {
        count
    };
    let mut r: Vec<Vec<char>> = Vec::new();
    let mut i: usize = 0;
    let ghost expected = text_lines(content@);
    assert(expected.len() == kept);
    while i < kept
        invariant
            i <= kept <= count,
            count == pieces@.len(),
            views(pieces@) == split(content@, '\n'),
            expected == text_lines(content@),
            expected.len() == kept,
            views(r@) == expected.take(i as int),
        decreases kept - i,
    {
        let line = if i + 1 < count {
            strip_cr_chars(&pieces[i])
        } else {
            copy_range(pieces[i].as_slice(), 0, pieces[i].len())
        };
        assert(views(pieces@)[i as int] == pieces@[i as int]@);
        proof {
            let pv = split(content@, '\n');
            let kv = if pv.last().len() == 0 {
                pv.drop_last()
            } else {
                pv
            };
            assert(kv[i as int] == pv[i as int]);
            if i + 1 < count {
                assert(expected[i as int] == strip_cr(pv[i as int]));
            } else {
                assert(expected[i as int] == pv[i as int]);
                assert(pv[i as int].subrange(0, pv[i as int].len() as int) =~= pv[i as int]);
            }
            assert(line@ == expected[i as int]);
        }
        let ghost before = views(r@);
        r.push(line);
        assert(views(r@) =~= before.push(line@));
        assert(expected.take(i + 1) =~= expected.take(i as int).push(expected[i as int]));
        i += 1;
    }
    assert(expected.take(kept as int) =~= expected);
    r
}

/// The pieces joined together with `sep` between each two of them.
pub open spec fn join(pieces: Seq<Seq<char>>, sep: char) -> Seq<char>
    decreases pieces.len(),
{
    if pieces.len() == 0 {
        Seq::<char>::empty()
    } else if pieces.len() == 1 {
        pieces[0]
    } else {
        join(pieces.drop_last(), sep).push(sep) + pieces.last()
    }
}

/// Joining the pieces of a split with the separator gives back the text.
pub proof fn lemma_join_split(s: Seq<char>, sep: char)
    ensures
        join(split(s, sep), sep) == s,
    decreases s.len(),
{
    if s.len() > 0 {
        let t = s.drop_last();
        let p = split(t, sep);
        lemma_join_split(t, sep);
        lemma_split_nonempty(t, sep);
        if s.last() == sep {
            let q = p.push(Seq::<char>::empty());
            assert(q.drop_last() =~= p);
            assert(join(q, sep) =~= t.push(sep));
        } else {
            let q = p.update(p.len() - 1, p.last().push(s.last()));
            if p.len() == 1 {
                assert(join(q, sep) =~= p[0].push(s.last()));
            } else {
                assert(q.drop_last() =~= p.drop_last());
                assert(join(q, sep) =~= join(p, sep).push(s.last()));
            }
        }
        assert(t.push(s.last()) =~= s);
    }
}

/// No character of `s` is a carriage return.
pub open spec fn no_cr(s: Seq<char>) -> bool {
    forall|k: int| 0 <= k < s.len() ==> s[k] != '\r'
}

/// The pieces of a text without carriage returns have none either.
pub proof fn lemma_split_no_cr(s: Seq<char>, sep: char)
    requires
        no_cr(s),
    ensures
        forall|i: int| 0 <= i < split(s, sep).len() ==> no_cr(#[trigger] split(s, sep)[i]),
    decreases s.len(),
{
    if s.len() > 0 {
        let t = s.drop_last();
        assert(no_cr(t)) by {
            assert forall|k: int| 0 <= k < t.len() implies t[k] != '\r' by {
                assert(t[k] == s[k]);
            }
        }
        lemma_split_no_cr(t, sep);
        lemma_split_nonempty(t, sep);
        let p = split(t, sep);
        if s.last() != sep {
            let last = p.last().push(s.last());
            assert(no_cr(p[p.len() - 1]));
            assert(no_cr(last)) by {
                assert forall|k: int| 0 <= k < last.len() implies last[k] != '\r' by {
                    if k < last.len() - 1 {
                        assert(last[k] == p.last()[k]);
                    }
                }
            }
        }
    }
}

/// For a text without carriage returns, joining its lines with line feeds
/// gives back the text, but for a final line feed.
pub proof fn law_lines_rejoin(content: Seq<char>)
    requires
        no_cr(content),
    ensures
        join(text_lines(content), '\n') + (if content.len() > 0 && content.last() == '\n' {
            seq!['\n']
        } else {
            Seq::<char>::empty()
        }) == content,
{
    let pieces = split(content, '\n');
    lemma_join_split(content, '\n');
    lemma_split_nonempty(content, '\n');
    lemma_split_no_cr(content, '\n');
    let kept = if pieces.last().len() == 0 {
        pieces.drop_last()
    } else {
        pieces
    };
    assert(text_lines(content) =~= kept) by {
        assert forall|i: int| 0 <= i < kept.len() implies text_lines(content)[i] == kept[i] by {
            assert(kept[i] == pieces[i]);
            assert(no_cr(pieces[i]));
            if kept[i].len() > 0 {
                assert(kept[i].last() != '\r');
            }
        }
    }
    if content.len() == 0 {
        assert(pieces =~= seq![Seq::<char>::empty()]);
        assert(kept =~= Seq::<Seq<char>>::empty());
    } else if content.last() == '\n' {
        let t = content.drop_last();
        lemma_split_nonempty(t, '\n');
        assert(pieces == split(t, '\n').push(Seq::<char>::empty()));
        assert(pieces.drop_last() =~= split(t, '\n'));
        lemma_join_split(t, '\n');
        assert(join(pieces, '\n') =~= t.push('\n'));
        assert(t.push('\n') =~= content);
        assert(join(kept, '\n') + seq!['\n'] =~= content);
    } else {
        let t = content.drop_last();
        lemma_split_nonempty(t, '\n');
        let p = split(t, '\n');
        assert(pieces == p.update(p.len() - 1, p.last().push(content.last())));
        assert(pieces.last().len() > 0);
        assert(join(kept, '\n') + Seq::<char>::empty() =~= content);
    }
}

} // verus!
