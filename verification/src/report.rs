//! The text of a filter report: a header with the number of matching lines,
//! then the shown lines, each on its own line.
use vstd::prelude::*;

use crate::number::{decimal, render_decimal};
use crate::select::{
    collect_positions, context_flags, covered, lemma_positions, mark_context, positions,
    strictly_increasing, take_prefix, to_ints,
};
use crate::text::{append_chars, chars_of, string_of, views};

verus! {

/// How a report presents the matching lines.
#[derive(Clone, Copy, Debug, PartialEq, Eq)]
pub struct Presentation {
    /// Prefix each shown line with its 1-based number and `": "`.
    pub numbered: bool,
    /// Number of context lines shown before each shown match.
    pub before: u32,
    /// Number of context lines shown after each shown match.
    pub after: u32,
    /// Largest number of matches shown; `None` shows all of them.
    pub limit: Option<u32>,
}

/// The first line of every report.
pub open spec fn header(total: nat) -> Seq<char> {
    "Matches found: "@ + decimal(total)
}

/// What follows the header when no line matches.
pub open spec fn no_match_note() -> Seq<char> {
    "\nNo matching lines found"@
}

/// How line `j` (0-based) appears in a report.
pub open spec fn entry(lines: Seq<Seq<char>>, j: int, numbered: bool) -> Seq<char> {
    if numbered {
        decimal((j + 1) as nat) + ": "@ + lines[j]
    } else {
        lines[j]
    }
}

/// The lines `shown`, each preceded by a line break.
pub open spec fn entries(lines: Seq<Seq<char>>, shown: Seq<int>, numbered: bool) -> Seq<char>
    decreases shown.len(),
{
    if shown.len() == 0 {
        Seq::<char>::empty()
    } else {
        entries(lines, shown.drop_last(), numbered) + "\n"@ + entry(lines, shown.last(), numbered)
    }
}

/// The first `limit` elements of `p`, or all of them.
pub open spec fn limited(p: Seq<int>, limit: Option<u32>) -> Seq<int> {
    match limit {
        Some(l) => if l < p.len() {
            p.take(l as int)
        } else {
            p
        },
        None => p,
    }
}

/// The indices of all matching lines.
pub open spec fn matching_lines(flags: Seq<bool>) -> Seq<int> {
    positions(flags, flags.len() as int)
}

/// The indices of the matches a report shows: the first ones, up to the limit.
pub open spec fn shown_matches(flags: Seq<bool>, pres: Presentation) -> Seq<int> {
    limited(matching_lines(flags), pres.limit)
}

/// The indices of the lines a report shows: the shown matches and the context
/// lines around them, ascending and without repetition.
pub open spec fn displayed_lines(flags: Seq<bool>, pres: Presentation) -> Seq<int> {
    positions(
        context_flags(
            flags.len() as int,
            shown_matches(flags, pres),
            pres.before as int,
            pres.after as int,
        ),
        flags.len() as int,
    )
}

/// The text of the report on `lines`, of which those with a set flag match.
pub open spec fn report(lines: Seq<Seq<char>>, flags: Seq<bool>, pres: Presentation) -> Seq<
    char,
> {
    let total = matching_lines(flags).len();
    if total == 0 {
        header(0) + no_match_note()
    } else {
        header(total) + entries(lines, displayed_lines(flags, pres), pres.numbered)
    }
}

/// How line `j` appears in a report.
fn render_entry(lines: &Vec<Vec<char>>, j: usize, numbered: bool) -> (r: Vec<char>)
    requires
        j < lines@.len(),
    ensures
        r@ == entry(views(lines@), j as int, numbered),
{
    let len = lines.len();
    if numbered {
        let mut r = render_decimal(j + 1);
        let sep = chars_of(": ");
        append_chars(&mut r, sep.as_slice());
        append_chars(&mut r, lines[j].as_slice());
        r
    } else {
        let mut r: Vec<char> = Vec::new();
        append_chars(&mut r, lines[j].as_slice());
        r
    }
}

/// The report on `lines`, of which those with a set flag in `flags` match:
/// `"Matches found: "` and the number of matching lines, then either
/// `"No matching lines found"` or the shown lines, each on a line of its own.
pub fn render_report(lines: &Vec<Vec<char>>, flags: &Vec<bool>, pres: Presentation) -> (r: String)
    requires
        flags@.len() == lines@.len(),
    ensures
        r@ == report(views(lines@), flags@, pres),
{
    let n = lines.len();
    let all = collect_positions(flags.as_slice());
    proof {
        lemma_positions(flags@, n as int);
    }
    let mut out = chars_of("Matches found: ");
    let count = render_decimal(all.len());
    append_chars(&mut out, count.as_slice());
    if all.len() == 0 {
        let note = chars_of("\nNo matching lines found");
        append_chars(&mut out, note.as_slice());
        return string_of(out.as_slice());
    }
    let shown_len: usize = match pres.limit {
        Some(l) => if (l as usize) < all.len() {
            l as usize
        } else {
            all.len()
        },
        None => all.len(),
    };
    let shown = take_prefix(all.as_slice(), shown_len);
    let ghost shown_ints = to_ints(shown@);
    assert(shown_ints =~= shown_matches(flags@, pres));
    assert forall|a: int, b: int| 0 <= a < b < shown_ints.len() implies shown_ints[a]
        < shown_ints[b] by {
        assert(shown_ints[a] == to_ints(all@)[a]);
        assert(shown_ints[b] == to_ints(all@)[b]);
    }
    assert forall|a: int| 0 <= a < shown@.len() implies #[trigger] shown@[a] < n by {
        assert(shown_ints[a] == to_ints(all@)[a]);
    }
    let marks = mark_context(n, shown.as_slice(), pres.before as usize, pres.after as usize);
    let display = collect_positions(marks.as_slice());
    let ghost disp = to_ints(display@);
    assert(disp == displayed_lines(flags@, pres));
    proof {
        lemma_positions(marks@, n as int);
    }
    let ghost prefix = out@;
    let mut k: usize = 0;
    assert(disp.take(0) =~= Seq::<int>::empty());
    assert(out@ =~= prefix + entries(views(lines@), disp.take(0), pres.numbered));
    while k < display.len()
        invariant
            k <= display@.len(),
            disp == to_ints(display@),
            forall|a: int| 0 <= a < disp.len() ==> 0 <= #[trigger] disp[a] < n,
            n == lines@.len(),
            out@ == prefix + entries(views(lines@), disp.take(k as int), pres.numbered),
        decreases display@.len() - k,
    {
        let j = display[k];
        assert(disp[k as int] == j as int);
        let line_break = chars_of("\n");
        append_chars(&mut out, line_break.as_slice());
        let e = render_entry(lines, j, pres.numbered);
        append_chars(&mut out, e.as_slice());
        let ghost t = disp.take(k + 1);
        assert(t.drop_last() =~= disp.take(k as int));
        assert(t.last() == j as int);
        assert(out@ =~= prefix + entries(views(lines@), t, pres.numbered));
        k += 1;
    }
    assert(disp.take(display@.len() as int) =~= disp);
    string_of(out.as_slice())
}

/// Whatever the presentation (line numbers, context lines, limit), a report
/// starts with the number of all matching lines, and the matching lines are
/// exactly the lines whose flag is set, in ascending order.
pub proof fn law_header_counts_every_match(
    lines: Seq<Seq<char>>,
    flags: Seq<bool>,
    pres: Presentation,
)
    ensures
        header(matching_lines(flags).len()).is_prefix_of(report(lines, flags, pres)),
        strictly_increasing(matching_lines(flags)),
        forall|i: int| 0 <= i < flags.len() && flags[i] ==> matching_lines(flags).contains(i),
        forall|a: int|
            0 <= a < matching_lines(flags).len() ==> flags[#[trigger] matching_lines(flags)[a]],
{
    lemma_positions(flags, flags.len() as int);
    let total = matching_lines(flags).len();
    let r = report(lines, flags, pres);
    if total == 0 {
        assert(r.take(header(0).len() as int) =~= header(0));
    } else {
        let rest = entries(lines, displayed_lines(flags, pres), pres.numbered);
        assert(r =~= header(total) + rest);
        assert(r.take(header(total).len() as int) =~= header(total));
    }
}

/// The matches a report shows are the first ones, as many as the limit allows.
pub proof fn law_shown_matches_are_the_first(flags: Seq<bool>, pres: Presentation)
    ensures
        shown_matches(flags, pres) == matching_lines(flags).take(
            shown_matches(flags, pres).len() as int,
        ),
        shown_matches(flags, pres).len() == match pres.limit {
            Some(l) => if l < matching_lines(flags).len() {
                l as nat
            } else {
                matching_lines(flags).len()
            },
            None => matching_lines(flags).len(),
        },
{
    let all = matching_lines(flags);
    assert(all.take(all.len() as int) =~= all);
}

/// The lines a report shows are ascending and lie in the file; they are
/// exactly the lines within `before` lines before or `after` lines after a
/// shown match, so every shown match is among them.
pub proof fn law_displayed_lines(flags: Seq<bool>, pres: Presentation)
    ensures
        strictly_increasing(displayed_lines(flags, pres)),
        forall|a: int|
            0 <= a < displayed_lines(flags, pres).len() ==> 0 <= #[trigger] displayed_lines(
                flags,
                pres,
            )[a] < flags.len() && covered(
                shown_matches(flags, pres),
                pres.before as int,
                pres.after as int,
                displayed_lines(flags, pres)[a],
            ),
        forall|j: int|
            0 <= j < flags.len() && covered(
                shown_matches(flags, pres),
                pres.before as int,
                pres.after as int,
                j,
            ) ==> #[trigger] displayed_lines(flags, pres).contains(j),
        forall|k: int|
            0 <= k < shown_matches(flags, pres).len() ==> displayed_lines(flags, pres).contains(
                #[trigger] shown_matches(flags, pres)[k],
            ),
{
    let n = flags.len() as int;
    let shown = shown_matches(flags, pres);
    let cf = context_flags(n, shown, pres.before as int, pres.after as int);
    lemma_positions(cf, n);
    lemma_positions(flags, n);
    assert forall|k: int| 0 <= k < shown.len() implies displayed_lines(flags, pres).contains(
        #[trigger] shown[k],
    ) by {
        let all = matching_lines(flags);
        assert(shown[k] == all[k]);
        assert(covered(shown, pres.before as int, pres.after as int, shown[k]));
        assert(cf[shown[k]]);
    }
}

/// Without context lines and without a limit, a report shows exactly the
/// matching lines.
pub proof fn law_plain_report_shows_the_matches(flags: Seq<bool>, pres: Presentation)
    requires
        pres.before == 0,
        pres.after == 0,
        pres.limit is None,
    ensures
        displayed_lines(flags, pres) == matching_lines(flags),
{
    let n = flags.len() as int;
    let all = matching_lines(flags);
    lemma_positions(flags, n);
    let cf = context_flags(n, all, 0, 0);
    assert forall|j: int| 0 <= j < n implies cf[j] == flags[j] by {
        if flags[j] {
            assert(all.contains(j));
            let k = choose|k: int| 0 <= k < all.len() && all[k] == j;
            assert(covered(all, 0, 0, j));
        }
        if covered(all, 0, 0, j) {
            let k = choose|k: int| 0 <= k < all.len() && #[trigger] all[k] - 0 <= j <= all[k] + 0;
            assert(all[k] == j);
        }
    }
    assert(cf =~= flags);
}

} // verus!
