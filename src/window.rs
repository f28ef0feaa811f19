use vstd::prelude::*;
use vstd::arithmetic::div_mod::{
    lemma_fundamental_div_mod, lemma_fundamental_div_mod_converse, lemma_mod_bound,
};

use crate::commit::CommitRef;

verus! {

/// The windows of `s`, oldest first: consecutive runs of `w` commits, the
/// last one possibly shorter.
pub open spec fn windows_of(s: Seq<CommitRef>, w: nat) -> Seq<Seq<CommitRef>>
    decreases s.len(),
{
    if s.len() == 0 || w == 0 {
        Seq::empty()
    } else if s.len() <= w {
        seq![s]
    } else {
        seq![s.take(w as int)] + windows_of(s.skip(w as int), w)
    }
}

/// Number of windows of size `w` that `n` commits fill: n / w rounded up.
pub open spec fn window_count(n: nat, w: nat) -> nat
    recommends
        w >= 1,
{
    ((n + w - 1) as int / w as int) as nat
}

/// The spec-level view of a list of executable windows.
pub open spec fn views(r: Seq<Vec<CommitRef>>) -> Seq<Seq<CommitRef>> {
    r.map_values(|v: Vec<CommitRef>| v@)
}

/// One window taken off the front: the windows of `s` from `start` on are the
/// run `start..end` followed by the windows from `end` on.
proof fn lemma_windows_step(s: Seq<CommitRef>, w: nat, start: int)
    requires
        w >= 1,
        0 <= start < s.len(),
    ensures
        ({
            let end = if s.len() - start <= w { s.len() as int } else { start + w };
            windows_of(s.skip(start), w) == seq![s.subrange(start, end)] + windows_of(
                s.skip(end),
                w,
            )
        }),
{
    let t = s.skip(start);
    if s.len() - start <= w {
        assert(t =~= s.subrange(start, s.len() as int));
        assert(s.skip(s.len() as int) =~= Seq::<CommitRef>::empty());
        assert(windows_of(s.skip(s.len() as int), w) =~= Seq::<Seq<CommitRef>>::empty());
        assert(seq![t] + Seq::<Seq<CommitRef>>::empty() =~= seq![t]);
    } else {
        assert(t.take(w as int) =~= s.subrange(start, start + w));
        assert(t.skip(w as int) =~= s.skip(start + w));
    }
}

/// Windows partition the walk: their count is n / w rounded up, every one
/// but the last holds exactly `w` commits, each is the contiguous run that
/// starts at its index times `w`, and laid end to end they give back `s`.
pub proof fn lemma_windows_partition(s: Seq<CommitRef>, w: nat)
    requires
        w >= 1,
    ensures
        windows_of(s, w).len() == window_count(s.len(), w),
        windows_of(s, w).flatten() == s,
        s.len() > 0 ==> windows_of(s, w).len() > 0 && windows_of(s, w).last().last() == s.last(),
        forall|i: int|
            #![trigger windows_of(s, w)[i]]
            0 <= i < windows_of(s, w).len() ==> {
                &&& 1 <= windows_of(s, w)[i].len() <= w
                &&& 0 <= i * w < s.len()
                &&& i + 1 < windows_of(s, w).len() ==> windows_of(s, w)[i].len() == w
                &&& windows_of(s, w)[i] == s.subrange(
                    i * w,
                    if s.len() <= (i + 1) * w { s.len() as int } else { (i + 1) * w },
                )
            },
    decreases s.len(),
{
    let n = s.len();
    let ws = windows_of(s, w);
    if n == 0 {
        lemma_fundamental_div_mod_converse((w - 1) as int, w as int, 0, (w - 1) as int);
        assert(ws.flatten() =~= s);
    } else if n <= w {
        lemma_fundamental_div_mod_converse((n + w - 1) as int, w as int, 1, (n - 1) as int);
        assert(ws.drop_first() =~= Seq::<Seq<CommitRef>>::empty());
        assert(ws.drop_first().flatten() =~= Seq::<CommitRef>::empty());
        assert(ws.flatten() == ws[0] + ws.drop_first().flatten());
        assert(ws.flatten() =~= s);
        assert(s.subrange(0, n as int) =~= s);
    } else {
        let rest = s.skip(w as int);
        lemma_windows_partition(rest, w);
        let rs = windows_of(rest, w);
        lemma_fundamental_div_mod((n - 1) as int, w as int);
        let q = (n - 1) as int / w as int;
        let r = (n - 1) as int % w as int;
        lemma_mod_bound((n - 1) as int, w as int);
        assert((n + w - 1) as int == (q + 1) * w + r) by (nonlinear_arith)
            requires
                (n - 1) as int == w * q + r,
        ;
        lemma_fundamental_div_mod_converse((n + w - 1) as int, w as int, q + 1, r);
        assert(ws.drop_first() =~= rs);
        assert(rest.last() == s.last());
        assert(ws.last() == rs.last());
        assert(ws.flatten() =~= s.take(w as int) + rs.flatten());
        assert(s.take(w as int) + rest =~= s);
        assert forall|i: int| 0 <= i < ws.len() implies {
            &&& 1 <= #[trigger] ws[i].len() <= w
            &&& 0 <= i * w < s.len()
            &&& i + 1 < ws.len() ==> ws[i].len() == w
            &&& ws[i] == s.subrange(
                i * w,
                if s.len() <= (i + 1) * w { s.len() as int } else { (i + 1) * w },
            )
        } by {
            if i == 0 {
                assert(s.take(w as int) =~= s.subrange(0, w as int));
            } else {
                let j = i - 1;
                assert(ws[i] == rs[j]);
                assert(i * w == j * w + w) by (nonlinear_arith)
                    requires
                        j == i - 1,
                ;
                assert((i + 1) * w == (j + 1) * w + w) by (nonlinear_arith)
                    requires
                        j == i - 1,
                ;
                assert(0 <= j * w) by (nonlinear_arith)
                    requires
                        j >= 0,
                        w >= 1,
                ;
                assert(rs[j].len() >= 1);
                assert(0 <= j * w < rest.len());
                let hi = if rest.len() <= (j + 1) * w { rest.len() as int } else { (j + 1) * w };
                assert(rs[j] == rest.subrange(j * w, hi));
                assert(rest.subrange(j * w, hi) =~= s.subrange(j * w + w, hi + w));
            }
        }
    }
}

/// Splits `commits` (oldest first) into windows of at most `window_size`
/// commits each, in order.
pub fn partition(commits: &Vec<CommitRef>, window_size: usize) -> (r: Vec<Vec<CommitRef>>)
    requires
        window_size >= 1,
    ensures
        views(r@) == windows_of(commits@, window_size as nat),
{
    let n = commits.len();
    let w = window_size;
    let mut out: Vec<Vec<CommitRef>> = Vec::new();
    let mut start: usize = 0;
    assert(commits@.skip(0) =~= commits@);
    assert(views(out@) + windows_of(commits@.skip(0), w as nat) =~= windows_of(commits@, w as nat));
    while start < n
        invariant
            w >= 1,
            n == commits@.len(),
            start <= n,
            views(out@) + windows_of(commits@.skip(start as int), w as nat) == windows_of(
                commits@,
                w as nat,
            ),
        decreases n - start,
    {
        let end: usize = if n - start <= w { n } else { start + w };
        proof {
            lemma_windows_step(commits@, w as nat, start as int);
        }
        let mut chunk: Vec<CommitRef> = Vec::new();
        let mut k: usize = start;
        while k < end
            invariant
                start <= k <= end,
                end <= n,
                n == commits@.len(),
                chunk@ == commits@.subrange(start as int, k as int),
            decreases end - k,
        {
            chunk.push(commits[k]);
            k = k + 1;
            assert(chunk@ =~= commits@.subrange(start as int, k as int));
        }
        let ghost before = out@;
        out.push(chunk);
        assert(views(out@) =~= views(before) + seq![commits@.subrange(start as int, end as int)]);
        start = end;
    }
    assert(commits@.skip(n as int) =~= Seq::<CommitRef>::empty());
    assert(views(out@) =~= windows_of(commits@, w as nat));
    out
}

} // verus!
