//! Which lines a report shows: the matching lines, the first of them up to a
//! limit, and the context lines around those.
use vstd::prelude::*;

verus! {

/// The indices `i < k` with `flags[i]`, in ascending order.
pub open spec fn positions(flags: Seq<bool>, k: int) -> Seq<int>
    decreases k,
{
    if k <= 0 {
        Seq::<int>::empty()
    } else {
        let p = positions(flags, k - 1);
        if flags[k - 1] {
            p.push(k - 1)
        } else {
            p
        }
    }
}

/// The values of a sequence of indices, as integers.
pub open spec fn to_ints(s: Seq<usize>) -> Seq<int> {
    s.map_values(|x: usize| x as int)
}

/// `s` is strictly increasing.
pub open spec fn strictly_increasing(s: Seq<int>) -> bool {
    forall|a: int, b: int| 0 <= a < b < s.len() ==> s[a] < s[b]
}

/// `positions(flags, k)` lists, in strictly increasing order, exactly the
/// indices below `k` whose flag is set.
pub proof fn lemma_positions(flags: Seq<bool>, k: int)
    requires
        0 <= k <= flags.len(),
    ensures
        strictly_increasing(positions(flags, k)),
        forall|a: int|
            0 <= a < positions(flags, k).len() ==> 0 <= #[trigger] positions(flags, k)[a] < k
                && flags[positions(flags, k)[a]],
        forall|i: int| 0 <= i < k && flags[i] ==> #[trigger] positions(flags, k).contains(i),
        positions(flags, k).len() <= k,
    decreases k,
{
    if k > 0 {
        lemma_positions(flags, k - 1);
        let p = positions(flags, k - 1);
        if flags[k - 1] {
            let q = p.push(k - 1);
            assert forall|i: int| 0 <= i < k && flags[i] implies #[trigger] q.contains(i) by {
                if i < k - 1 {
                    assert(p.contains(i));
                    let a = choose|a: int| 0 <= a < p.len() && p[a] == i;
                    assert(q[a] == i);
                } else {
                    assert(q[q.len() - 1] == i);
                }
            }
        } else {
            assert forall|i: int| 0 <= i < k && flags[i] implies #[trigger] p.contains(i) by {
                assert(i < k - 1);
            }
        }
    }
}

/// The indices of the set flags, in ascending order.
pub fn collect_positions(flags: &[bool]) -> (r: Vec<usize>)
    ensures
        to_ints(r@) == positions(flags@, flags@.len() as int),
{
    let mut r: Vec<usize> = Vec::new();
    let mut i: usize = 0;
    while i < flags.len()
        invariant
            i <= flags.len(),
            to_ints(r@) == positions(flags@, i as int),
        decreases flags.len() - i,
    {
        let ghost before = r@;
        if flags[i] {
            r.push(i);
            assert(to_ints(r@) =~= to_ints(before).push(i as int));
        }
        i += 1;
    }
    r
}

/// Line `j` lies within `before` lines before or `after` lines after one of the
/// `shown` lines.
pub open spec fn covered(shown: Seq<int>, before: int, after: int, j: int) -> bool {
    exists|k: int| 0 <= k < shown.len() && #[trigger] shown[k] - before <= j <= shown[k] + after
}

/// For each of the `n` lines, whether it lies in the context of a shown line.
pub open spec fn context_flags(n: int, shown: Seq<int>, before: int, after: int) -> Seq<bool> {
    Seq::new(n as nat, |j: int| covered(shown, before, after, j))
}

/// The first line of the context window around line `m`.
pub open spec fn window_start(m: int, before: int) -> int {
    if m >= before {
        m - before
    } else {
        0
    }
}

/// One past the last line of the context window around line `m`, within `n`
/// lines.
pub open spec fn window_end(m: int, after: int, n: int) -> int {
    if m + after + 1 <= n {
        m + after + 1
    } else {
        n
    }
}

/// For each of the `n` lines, whether it lies within `before` lines before or
/// `after` lines after one of the `shown` lines, which are ascending and below
/// `n`.
pub fn mark_context(n: usize, shown: &[usize], before: usize, after: usize) -> (r: Vec<bool>)
    requires
        strictly_increasing(to_ints(shown@)),
        forall|a: int| 0 <= a < shown@.len() ==> #[trigger] shown@[a] < n,
    ensures
        r@ == context_flags(n as int, to_ints(shown@), before as int, after as int),
{
    let ghost s = to_ints(shown@);
    let mut marks: Vec<bool> = Vec::new();
    let mut z: usize = 0;
    while z < n
        invariant
            z <= n,
            marks@.len() == z,
            forall|j: int| 0 <= j < z ==> !marks@[j],
        decreases n - z,
    {
        marks.push(false);
        z += 1;
    }
    let mut k: usize = 0;
    let mut next_free: usize = 0;
    let ghost mut prev_start: int = 0;
    assert(s.take(0) =~= Seq::<int>::empty());
    while k < shown.len()
        invariant
            k <= shown@.len(),
            s == to_ints(shown@),
            strictly_increasing(s),
            forall|a: int| 0 <= a < shown@.len() ==> #[trigger] shown@[a] < n,
            marks@.len() == n,
            next_free <= n,
            forall|j: int|
                0 <= j < n ==> marks@[j] == covered(s.take(k as int), before as int, after as int, j),
            k > 0 ==> prev_start == window_start(s[k - 1], before as int),
            k == 0 ==> next_free == 0,
            prev_start >= 0,
            forall|j: int| prev_start <= j < next_free ==> marks@[j],
        decreases shown@.len() - k,
    {
        let m = shown[k];
        assert(s[k as int] == m as int);
        let lo: usize = if m >= before {
            m - before
        } else {
            0
        };
        let hi: usize = if after < n - m {
            m + after + 1
        } else {
            n
        };
        assert(lo as int == window_start(m as int, before as int));
        assert(hi as int == window_end(m as int, after as int, n as int));
        if k > 0 {
            assert(s[k - 1] < s[k as int]);
            assert(prev_start <= lo);
        }
        let mut j: usize = if lo > next_free {
            lo
        } else {
            next_free
        };
        let ghost take_k = s.take(k as int);
        let ghost take_next = s.take(k + 1);
        let ghost j0 = j as int;
        assert forall|i: int| lo <= i < j0 implies marks@[i] by {
            if k > 0 {
                assert(prev_start <= lo);
            }
        }
        while j < hi
            invariant
                j0 <= hi ==> j <= hi,
                j0 > hi ==> j == j0,
                j0 <= j,
                hi <= n,
                marks@.len() == n,
                forall|i: int|
                    0 <= i < n ==> marks@[i] == (covered(take_k, before as int, after as int, i) || (
                    j0 <= i < j)),
                forall|i: int| lo <= i < j0 ==> marks@[i],
                prev_start >= 0,
                next_free <= n,
                forall|i: int| prev_start <= i < next_free ==> marks@[i],
            decreases hi - j,
        {
            marks.set(j, true);
            j += 1;
        }
        proof {
            assert forall|i: int| 0 <= i < n implies covered(take_next, before as int, after as int, i)
                == (covered(take_k, before as int, after as int, i) || (lo <= i < hi)) by {
                if covered(take_next, before as int, after as int, i) {
                    let a = choose|a: int|
                        0 <= a < take_next.len() && #[trigger] take_next[a] - before <= i
                            <= take_next[a] + after;
                    if a < k {
                        assert(take_k[a] == take_next[a]);
                    }
                }
                if covered(take_k, before as int, after as int, i) {
                    let a = choose|a: int|
                        0 <= a < take_k.len() && #[trigger] take_k[a] - before <= i <= take_k[a]
                            + after;
                    assert(take_next[a] == take_k[a]);
                }
                if lo <= i < hi {
                    assert(take_next[k as int] == m);
                }
            }
            assert forall|i: int| 0 <= i < n implies marks@[i] == covered(
                take_next,
                before as int,
                after as int,
                i,
            ) by {}
            assert forall|i: int| lo <= i < (if hi > next_free { hi } else { next_free }) implies
                marks@[i] by {
                if i < hi {
                    assert(covered(take_next, before as int, after as int, i));
                } else if k > 0 {
                    assert(prev_start <= lo);
                }
            }
        }
        let new_next = if hi > next_free {
            hi
        } else {
            next_free
        };
        proof {
            prev_start = lo as int;
        }
        next_free = new_next;
        k += 1;
    }
    assert(s.take(shown@.len() as int) =~= s);
    assert(marks@ =~= context_flags(n as int, s, before as int, after as int));
    marks
}

/// The first `k` elements of `v`.
pub fn take_prefix(v: &[usize], k: usize) -> (r: Vec<usize>)
    requires
        k <= v@.len(),
    ensures
        r@ == v@.take(k as int),
{
    let mut r: Vec<usize> = Vec::new();
    let mut i: usize = 0;
    while i < k
        invariant
            i <= k <= v@.len(),
            r@ == v@.take(i as int),
        decreases k - i,
    {
        r.push(v[i]);
        assert(v@.take(i + 1) =~= v@.take(i as int).push(v@[i as int]));
        i += 1;
    }
    r
}

} // verus!
