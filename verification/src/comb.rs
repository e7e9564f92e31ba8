//! Hyperfine combs: how one group of equivalent nuclei splits a line on the
//! sampled field axis, and the closed forms that follow from the combs alone.

use vstd::prelude::*;

verus! {

/// One group of equivalent nuclei, as it acts on the sampled field axis.
///
/// A nucleus of the group keeps every line of the pattern and adds one copy
/// of it at each of `offsets`, counted in points above the line. A nucleus of
/// spin `I` has `2 * I` offsets.
#[derive(Debug, PartialEq, Eq)]
pub struct HyperfineComb {
    /// Distance from a line to each of its copies, in points.
    pub offsets: Vec<usize>,
    /// Number of equivalent nuclei that carry this comb.
    pub equivalent_count: usize,
}

/// `count` nuclei with the same comb.
pub open spec fn repeated(offsets: Seq<usize>, count: nat) -> Seq<Seq<usize>> {
    Seq::new(count, |i: int| offsets)
}

/// The comb of every single nucleus, group after group, each group's comb
/// once per equivalent nucleus.
pub open spec fn nuclei(groups: Seq<HyperfineComb>) -> Seq<Seq<usize>>
    decreases groups.len(),
{
    if groups.len() == 0 {
        Seq::empty()
    } else {
        nuclei(groups.drop_last()) + repeated(
            groups.last().offsets@,
            groups.last().equivalent_count as nat,
        )
    }
}

/// The largest offset of a comb; 0 for a comb without offsets.
pub open spec fn reach(offsets: Seq<usize>) -> nat
    decreases offsets.len(),
{
    if offsets.len() == 0 {
        0
    } else if offsets.last() > reach(offsets.drop_last()) {
        offsets.last() as nat
    } else {
        reach(offsets.drop_last())
    }
}

/// Index of the highest line after every nucleus has split the seed line at
/// index 1: each nucleus moves the top line up by the reach of its comb.
pub open spec fn extent(combs: Seq<Seq<usize>>) -> nat
    decreases combs.len(),
{
    if combs.len() == 0 {
        1
    } else {
        extent(combs.drop_last()) + reach(combs.last())
    }
}

/// Sum of all line intensities after every nucleus has split the seed line of
/// intensity 1: each nucleus multiplies it by the number of lines of its comb,
/// the line itself included.
pub open spec fn line_total(combs: Seq<Seq<usize>>) -> nat
    decreases combs.len(),
{
    if combs.len() == 0 {
        1
    } else {
        line_total(combs.drop_last()) * (combs.last().len() + 1)
    }
}

/// The reach of a comb is no smaller than any of its offsets, and is one of
/// them where there is any.
pub proof fn lemma_reach_bounds(offsets: Seq<usize>)
    ensures
        forall|k: int| 0 <= k < offsets.len() ==> offsets[k] <= reach(offsets),
        offsets.len() > 0 ==> exists|k: int| 0 <= k < offsets.len() && offsets[k] == reach(offsets),
        reach(offsets) <= usize::MAX,
    decreases offsets.len(),
{
    if offsets.len() > 0 {
        let front = offsets.drop_last();
        lemma_reach_bounds(front);
        assert forall|k: int| 0 <= k < offsets.len() implies offsets[k] <= reach(offsets) by {
            if k < front.len() {
                assert(front[k] == offsets[k]);
            }
        }
        if offsets.last() > reach(front) || front.len() == 0 {
            assert(offsets[offsets.len() - 1] == reach(offsets));
        } else {
            let k = choose|k: int| 0 <= k < front.len() && front[k] == reach(front);
            assert(offsets[k] == reach(offsets));
        }
    }
}

/// One more nucleus moves the highest line up by the reach of its comb and
/// multiplies the line total by the number of its lines.
pub proof fn lemma_push_comb(combs: Seq<Seq<usize>>, offsets: Seq<usize>)
    ensures
        extent(combs.push(offsets)) == extent(combs) + reach(offsets),
        line_total(combs.push(offsets)) == line_total(combs) * (offsets.len() + 1),
{
    assert(combs.push(offsets).drop_last() =~= combs);
}

/// One more nucleus with the same comb, and no nucleus at all.
pub(crate) proof fn lemma_repeated_push(base: Seq<Seq<usize>>, offsets: Seq<usize>, count: nat)
    ensures
        base + repeated(offsets, count + 1) == (base + repeated(offsets, count)).push(offsets),
        base + repeated(offsets, 0) == base,
{
    assert(base + repeated(offsets, count + 1) =~= (base + repeated(offsets, count)).push(offsets));
    assert(base + repeated(offsets, 0) =~= base);
}

/// The nuclei of the first `g + 1` groups are those of the first `g` groups
/// followed by the nuclei of group `g`.
pub(crate) proof fn lemma_nuclei_take(groups: Seq<HyperfineComb>, g: int)
    requires
        0 <= g < groups.len(),
    ensures
        nuclei(groups.take(g + 1)) == nuclei(groups.take(g)) + repeated(
            groups[g].offsets@,
            groups[g].equivalent_count as nat,
        ),
{
    assert(groups.take(g + 1).drop_last() =~= groups.take(g));
}

/// No group has no nuclei, and all groups have all of them.
pub(crate) proof fn lemma_nuclei_ends(groups: Seq<HyperfineComb>)
    ensures
        nuclei(groups.take(0)) == Seq::<Seq<usize>>::empty(),
        nuclei(groups.take(groups.len() as int)) == nuclei(groups),
{
    assert(groups.take(groups.len() as int) =~= groups);
}

/// Both closed forms only grow as nuclei are appended.
pub proof fn lemma_closed_forms_grow(front: Seq<Seq<usize>>, back: Seq<Seq<usize>>)
    ensures
        1 <= extent(front) <= extent(front + back),
        1 <= line_total(front) <= line_total(front + back),
    decreases back.len(), front.len(),
{
    if back.len() == 0 {
        assert(front + back =~= front);
        if front.len() > 0 {
            lemma_closed_forms_grow(front.drop_last(), back);
            assert(front.drop_last() + back =~= front.drop_last());
            lemma_factor_grows(line_total(front.drop_last()), front.last().len());
        }
    } else {
        lemma_closed_forms_grow(front, back.drop_last());
        assert((front + back).drop_last() =~= front + back.drop_last());
        assert((front + back).last() == back.last());
        lemma_factor_grows(line_total(front + back.drop_last()), back.last().len());
    }
}

proof fn lemma_factor_grows(total: nat, lines: nat)
    ensures
        total <= total * (lines + 1),
{
    assert(total <= total * (lines + 1)) by (nonlinear_arith);
}

/// The nuclei of the groups before `g`, and `done` nuclei of group `g`, are a
/// front part of all nuclei.
pub(crate) proof fn lemma_partial_nuclei_grow(groups: Seq<HyperfineComb>, g: int, done: nat)
    requires
        0 <= g < groups.len(),
        done <= groups[g].equivalent_count,
    ensures
        extent(nuclei(groups.take(g)) + repeated(groups[g].offsets@, done)) <= extent(
            nuclei(groups),
        ),
        line_total(nuclei(groups.take(g)) + repeated(groups[g].offsets@, done)) <= line_total(
            nuclei(groups),
        ),
{
    let offsets = groups[g].offsets@;
    let count = groups[g].equivalent_count as nat;
    let before = nuclei(groups.take(g));
    let partial = before + repeated(offsets, done);
    let rest = Seq::new((count - done) as nat, |i: int| offsets);
    assert(partial + rest =~= before + repeated(offsets, count));
    lemma_nuclei_take(groups, g);
    lemma_closed_forms_grow(partial, rest);
    lemma_nuclei_front(groups, g + 1);
}

/// The nuclei of the first `n` groups are a front part of all nuclei.
pub(crate) proof fn lemma_nuclei_front(groups: Seq<HyperfineComb>, n: int)
    requires
        0 <= n <= groups.len(),
    ensures
        extent(nuclei(groups.take(n))) <= extent(nuclei(groups)),
        line_total(nuclei(groups.take(n))) <= line_total(nuclei(groups)),
    decreases groups.len() - n,
{
    if n == groups.len() {
        assert(groups.take(n) =~= groups);
    } else {
        lemma_nuclei_front(groups, n + 1);
        lemma_nuclei_take(groups, n);
        lemma_closed_forms_grow(
            nuclei(groups.take(n)),
            repeated(groups[n].offsets@, groups[n].equivalent_count as nat),
        );
    }
}

/// `count` nuclei with one comb move the top line up by `count` times its
/// reach.
pub proof fn lemma_extent_repeated(base: Seq<Seq<usize>>, offsets: Seq<usize>, count: nat)
    ensures
        extent(base + repeated(offsets, count)) == extent(base) + count * reach(offsets),
    decreases count,
{
    if count == 0 {
        lemma_repeated_push(base, offsets, 0);
        assert(0 * reach(offsets) == 0) by (nonlinear_arith);
    } else {
        let fewer = (count - 1) as nat;
        lemma_extent_repeated(base, offsets, fewer);
        lemma_repeated_push(base, offsets, fewer);
        lemma_push_comb(base + repeated(offsets, fewer), offsets);
        assert(fewer * reach(offsets) + reach(offsets) == count * reach(offsets))
            by (nonlinear_arith)
            requires
                fewer + 1 == count,
        ;
    }
}

/// Nuclei whose comb has no offsets leave the line total as it is.
pub(crate) proof fn lemma_line_total_bare(base: Seq<Seq<usize>>, offsets: Seq<usize>, count: nat)
    requires
        offsets.len() == 0,
    ensures
        line_total(base + repeated(offsets, count)) == line_total(base),
    decreases count,
{
    if count == 0 {
        lemma_repeated_push(base, offsets, 0);
    } else {
        let fewer = (count - 1) as nat;
        lemma_line_total_bare(base, offsets, fewer);
        lemma_repeated_push(base, offsets, fewer);
        lemma_push_comb(base + repeated(offsets, fewer), offsets);
        assert(line_total(base) * 1 == line_total(base)) by (nonlinear_arith);
    }
}

/// The largest offset of a comb.
pub fn comb_reach(offsets: &Vec<usize>) -> (r: usize)
    ensures
        r == reach(offsets@),
{
    let mut r: usize = 0;
    let mut k: usize = 0;
    while k < offsets.len()
        invariant
            k <= offsets.len(),
            r == reach(offsets@.take(k as int)),
        decreases offsets.len() - k,
    {
        proof {
            assert(offsets@.take(k + 1).drop_last() =~= offsets@.take(k as int));
        }
        if offsets[k] > r {
            r = offsets[k];
        }
        k += 1;
    }
    proof {
        assert(offsets@.take(k as int) =~= offsets@);
    }
    r
}

/// The sum of all line intensities that the groups produce, or `None` where
/// it does not fit in 64 bits.
pub fn checked_line_total(groups: &Vec<HyperfineComb>) -> (r: Option<u64>)
    ensures
        match r {
            Some(total) => total == line_total(nuclei(groups@)),
            None => line_total(nuclei(groups@)) > u64::MAX,
        },
{
    let mut total: u64 = 1;
    let mut g: usize = 0;
    proof {
        lemma_nuclei_ends(groups@);
    }
    while g < groups.len()
        invariant
            g <= groups.len(),
            total == line_total(nuclei(groups@.take(g as int))),
        decreases groups.len() - g,
    {
        let lines = groups[g].offsets.len();
        let count = groups[g].equivalent_count;
        let ghost before = nuclei(groups@.take(g as int));
        let ghost offsets = groups@[g as int].offsets@;
        proof {
            lemma_nuclei_take(groups@, g as int);
            lemma_repeated_push(before, offsets, 0);
        }
        if lines > 0 {
            let mut done: usize = 0;
            while done < count
                invariant
                    g < groups.len(),
                    done <= count,
                    count == groups@[g as int].equivalent_count,
                    offsets == groups@[g as int].offsets@,
                    lines == offsets.len(),
                    before == nuclei(groups@.take(g as int)),
                    total == line_total(before + repeated(offsets, done as nat)),
                decreases count - done,
            {
                proof {
                    lemma_repeated_push(before, offsets, done as nat);
                    lemma_push_comb(before + repeated(offsets, done as nat), offsets);
                    lemma_partial_nuclei_grow(groups@, g as int, (done + 1) as nat);
                }
                let grown = match (lines as u64).checked_add(1) {
                    Some(factor) => total.checked_mul(factor),
                    None => None,
                };
                match grown {
                    Some(t) => {
                        total = t;
                    },
                    None => {
                        proof {
                            lemma_closed_forms_grow(before, repeated(offsets, done as nat));
                            assert(total * (lines + 1) > u64::MAX) by (nonlinear_arith)
                                requires
                                    total >= 1,
                                    lines + 1 > u64::MAX || total * (lines + 1) > u64::MAX,
                            ;
                        }
                        return None;
                    },
                }
                done += 1;
            }
        } else {
            proof {
                lemma_line_total_bare(before, offsets, count as nat);
            }
        }
        g += 1;
    }
    proof {
        lemma_nuclei_ends(groups@);
    }
    Some(total)
}

/// The index of the highest line that the groups produce, or `None` where it
/// is no index.
pub fn checked_extent(groups: &Vec<HyperfineComb>) -> (r: Option<usize>)
    ensures
        match r {
            Some(top) => top == extent(nuclei(groups@)),
            None => extent(nuclei(groups@)) > usize::MAX,
        },
{
    let mut top: usize = 1;
    let mut g: usize = 0;
    proof {
        lemma_nuclei_ends(groups@);
    }
    while g < groups.len()
        invariant
            g <= groups.len(),
            top == extent(nuclei(groups@.take(g as int))),
        decreases groups.len() - g,
    {
        let far = comb_reach(&groups[g].offsets);
        let count = groups[g].equivalent_count;
        proof {
            lemma_nuclei_take(groups@, g as int);
            lemma_extent_repeated(
                nuclei(groups@.take(g as int)),
                groups@[g as int].offsets@,
                count as nat,
            );
            lemma_nuclei_front(groups@, g + 1);
        }
        let raised = match count.checked_mul(far) {
            Some(rise) => top.checked_add(rise),
            None => None,
        };
        match raised {
            Some(t) => {
                top = t;
            },
            None => {
                return None;
            },
        }
        g += 1;
    }
    proof {
        lemma_nuclei_ends(groups@);
    }
    Some(top)
}

} // verus!
