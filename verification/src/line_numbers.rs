//! Line-number criteria such as `"1-5,10,15-20"` and line ranges such as
//! `"10-20"` or `"10:20"`; line numbers start at 1.
use vstd::prelude::*;

use crate::number::{numeral_value, parse_decimal};
use crate::text::{copy_range, find_char, first_index_of, split, split_chars, trim, trim_chars, views};

verus! {

/// The line numbers `first` to `last`, both included.
#[derive(Clone, Copy, Debug, PartialEq, Eq)]
pub struct LineSpan {
    pub first: usize,
    pub last: usize,
}

/// The pairs `(first, last)` of a sequence of spans.
pub open spec fn span_pairs(v: Seq<LineSpan>) -> Seq<(nat, nat)> {
    v.map_values(|s: LineSpan| (s.first as nat, s.last as nat))
}

/// Two numerals around the character at index `k` of `t`, naming the span
/// from the first to the second; both are at least 1 and in order.
pub open spec fn span_around(t: Seq<char>, k: int) -> Option<(nat, nat)> {
    match (numeral_value(trim(t.take(k))), numeral_value(trim(t.skip(k + 1)))) {
        (Some(a), Some(b)) => if 1 <= a && a <= b {
            Some((a, b))
        } else {
            None
        },
        _ => None,
    }
}

/// The span one comma-separated piece of a line-number criterion names:
/// a single line number, or two joined by `-`.
pub open spec fn span_of(piece: Seq<char>) -> Option<(nat, nat)> {
    let t = trim(piece);
    match first_index_of(t, '-') {
        Some(k) => span_around(t, k),
        None => match numeral_value(t) {
            Some(v) => if v >= 1 {
                Some((v, v))
            } else {
                None
            },
            None => None,
        },
    }
}

/// The spans of all pieces, when each of them names one.
pub open spec fn spans_of(pieces: Seq<Seq<char>>) -> Option<Seq<(nat, nat)>>
    decreases pieces.len(),
{
    if pieces.len() == 0 {
        Some(Seq::<(nat, nat)>::empty())
    } else {
        match (spans_of(pieces.drop_last()), span_of(pieces.last())) {
            (Some(r), Some(s)) => Some(r.push(s)),
            _ => None,
        }
    }
}

/// The spans that a line-number criterion such as `"1-5,10,15-20"` names, or
/// `None` when one of its comma-separated pieces is not a line number nor a
/// range of them.
pub open spec fn line_spec(criteria: Seq<char>) -> Option<Seq<(nat, nat)>> {
    spans_of(split(criteria, ','))
}

/// Line number `num` lies in one of `spans`.
pub open spec fn in_spans(spans: Seq<(nat, nat)>, num: int) -> bool {
    exists|k: int| 0 <= k < spans.len() && (#[trigger] spans[k]).0 <= num <= spans[k].1
}

/// The window that a line range such as `"10-20"` or `"10:20"` names: two line
/// numbers, at least 1 and in order, joined by `-` or, when there is no `-`,
/// by `:`.
pub open spec fn line_window(range: Seq<char>) -> Option<(nat, nat)> {
    let t = trim(range);
    match first_index_of(t, '-') {
        Some(k) => span_around(t, k),
        None => match first_index_of(t, ':') {
            Some(k) => span_around(t, k),
            None => None,
        },
    }
}

/// The span named by the two numerals around index `k` of `t`.
fn parse_span_around(t: &Vec<char>, k: usize) -> (r: Option<LineSpan>)
    requires
        k < t@.len(),
    ensures
        r matches Some(s) ==> span_around(t@, k as int) == Some((s.first as nat, s.last as nat)),
        r is None ==> span_around(t@, k as int) is None,
{
    let len = t.len();
    let left = copy_range(t.as_slice(), 0, k);
    let right = copy_range(t.as_slice(), k + 1, len);
    assert(left@ =~= t@.take(k as int));
    assert(right@ =~= t@.skip(k + 1));
    let left_t = trim_chars(left.as_slice());
    let right_t = trim_chars(right.as_slice());
    match (parse_decimal(left_t.as_slice()), parse_decimal(right_t.as_slice())) {
        (Some(a), Some(b)) => if 1 <= a && a <= b {
            Some(LineSpan { first: a, last: b })
        } else {
            None
        },
        _ => None,
    }
}

/// The span that one piece of a line-number criterion names.
pub fn parse_span(piece: &[char]) -> (r: Option<LineSpan>)
    ensures
        r matches Some(s) ==> span_of(piece@) == Some((s.first as nat, s.last as nat)),
        r is None ==> span_of(piece@) is None,
{
    let t = trim_chars(piece);
    match find_char(t.as_slice(), '-') {
        Some(k) => {
            proof {
                crate::text::lemma_first_index_of(t@, '-');
            }
            parse_span_around(&t, k)
        },
        None => match parse_decimal(t.as_slice()) {
            Some(v) => if v >= 1 {
                Some(LineSpan { first: v, last: v })
            } else {
                None
            },
            None => None,
        },
    }
}

/// The spans that a line-number criterion names, or `None` when one of its
/// comma-separated pieces is malformed.
pub fn parse_line_spec(criteria: &[char]) -> (r: Option<Vec<LineSpan>>)
    ensures
        r matches Some(v) ==> line_spec(criteria@) == Some(span_pairs(v@)),
        r is None ==> line_spec(criteria@) is None,
{
    let pieces = split_chars(criteria, ',');
    let ghost pv = views(pieces@);
    let mut r: Vec<LineSpan> = Vec::new();
    let mut i: usize = 0;
    assert(pv.take(0) =~= Seq::<Seq<char>>::empty());
    while i < pieces.len()
        invariant
            i <= pieces@.len(),
            pv == views(pieces@),
            pv == split(criteria@, ','),
            spans_of(pv.take(i as int)) == Some(span_pairs(r@)),
        decreases pieces@.len() - i,
    {
        let ghost next = pv.take(i + 1);
        assert(next.drop_last() =~= pv.take(i as int));
        assert(next.last() == pieces@[i as int]@);
        match parse_span(pieces[i].as_slice()) {
            Some(s) => {
                let ghost before = r@;
                r.push(s);
                assert(span_pairs(r@) =~= span_pairs(before).push((s.first as nat, s.last as nat)));
            },
            None => {
                proof {
                    lemma_spans_of_failure(pv, i as int + 1);
                }
                return None;
            },
        }
        i += 1;
    }
    assert(pv.take(pieces@.len() as int) =~= pv);
    Some(r)
}

/// A malformed piece makes every longer list of pieces malformed.
proof fn lemma_spans_of_failure(pieces: Seq<Seq<char>>, i: int)
    requires
        0 < i <= pieces.len(),
        spans_of(pieces.take(i)) is None,
    ensures
        spans_of(pieces) is None,
    decreases pieces.len(),
{
    if i < pieces.len() {
        assert(pieces.drop_last().take(i) =~= pieces.take(i));
        lemma_spans_of_failure(pieces.drop_last(), i);
    } else {
        assert(pieces.take(i) =~= pieces);
    }
}

/// Whether line number `num` lies in one of `spans`.
pub fn in_line_spans(spans: &Vec<LineSpan>, num: usize) -> (b: bool)
    ensures
        b == in_spans(span_pairs(spans@), num as int),
{
    let ghost sp = span_pairs(spans@);
    let mut k: usize = 0;
    while k < spans.len()
        invariant
            k <= spans@.len(),
            sp == span_pairs(spans@),
            forall|j: int| 0 <= j < k ==> !((#[trigger] sp[j]).0 <= num <= sp[j].1),
        decreases spans@.len() - k,
    {
        let s = spans[k];
        assert(sp[k as int] == (s.first as nat, s.last as nat));
        if s.first <= num && num <= s.last {
            return true;
        }
        k += 1;
    }
    false
}

/// The window that a line range such as `"10-20"` or `"10:20"` names, or
/// `None` when it is malformed.
pub fn parse_line_window(range: &[char]) -> (r: Option<LineSpan>)
    ensures
        r matches Some(s) ==> line_window(range@) == Some((s.first as nat, s.last as nat)),
        r is None ==> line_window(range@) is None,
{
    let t = trim_chars(range);
    proof {
        crate::text::lemma_first_index_of(t@, '-');
        crate::text::lemma_first_index_of(t@, ':');
    }
    match find_char(t.as_slice(), '-') {
        Some(k) => parse_span_around(&t, k),
        None => match find_char(t.as_slice(), ':') {
            Some(k) => parse_span_around(&t, k),
            None => None,
        },
    }
}

/// A line number inside any of the named spans is selected, whichever piece
/// names that span.
pub proof fn law_number_in_any_span_is_selected(spans: Seq<(nat, nat)>, k: int, num: int)
    requires
        0 <= k < spans.len(),
        spans[k].0 <= num <= spans[k].1,
    ensures
        in_spans(spans, num),
{
}

/// Only line numbers inside one of the named spans are selected.
pub proof fn law_selected_number_lies_in_a_span(spans: Seq<(nat, nat)>, num: int)
    requires
        in_spans(spans, num),
    ensures
        exists|k: int| 0 <= k < spans.len() && spans[k].0 <= num && num <= spans[k].1,
{
    let k = choose|k: int| 0 <= k < spans.len() && (#[trigger] spans[k]).0 <= num <= spans[k].1;
    assert(spans[k].0 <= num && num <= spans[k].1);
}

/// The order of the spans does not matter: listing two groups of spans in
/// either order selects the same line numbers.
pub proof fn law_span_order_does_not_matter(a: Seq<(nat, nat)>, b: Seq<(nat, nat)>, num: int)
    ensures
        in_spans(a + b, num) == in_spans(b + a, num),
{
    if in_spans(a + b, num) {
        let k = choose|k: int| 0 <= k < (a + b).len() && (#[trigger] (a + b)[k]).0 <= num <= (a
            + b)[k].1;
        if k < a.len() {
            assert((b + a)[b.len() + k] == a[k]);
        } else {
            assert((b + a)[k - a.len()] == b[k - a.len()]);
        }
    }
    if in_spans(b + a, num) {
        let k = choose|k: int| 0 <= k < (b + a).len() && (#[trigger] (b + a)[k]).0 <= num <= (b
            + a)[k].1;
        if k < b.len() {
            assert((a + b)[a.len() + k] == b[k]);
        } else {
            assert((a + b)[k - b.len()] == a[k - b.len()]);
        }
    }
}

/// Line-number criteria name one span per comma-separated piece, in order:
/// the span that piece names on its own.
pub proof fn law_line_spec_is_one_span_per_piece(criteria: Seq<char>)
    requires
        line_spec(criteria) is Some,
    ensures
        line_spec(criteria)->0.len() == split(criteria, ',').len(),
        forall|k: int|
            0 <= k < split(criteria, ',').len() ==> span_of(#[trigger] split(criteria, ',')[k])
                == Some(line_spec(criteria)->0[k]),
{
    lemma_spans_of_pieces(split(criteria, ','));
}

/// `spans_of` gives, when it succeeds, the span of each piece in order.
proof fn lemma_spans_of_pieces(pieces: Seq<Seq<char>>)
    requires
        spans_of(pieces) is Some,
    ensures
        spans_of(pieces)->0.len() == pieces.len(),
        forall|k: int|
            0 <= k < pieces.len() ==> span_of(#[trigger] pieces[k]) == Some(spans_of(pieces)->0[k]),
    decreases pieces.len(),
{
    if pieces.len() > 0 {
        let rest = pieces.drop_last();
        lemma_spans_of_pieces(rest);
        assert forall|k: int| 0 <= k < pieces.len() implies span_of(#[trigger] pieces[k]) == Some(
            spans_of(pieces)->0[k],
        ) by {
            if k < pieces.len() - 1 {
                assert(pieces[k] == rest[k]);
            }
        }
    }
}

} // verus!
