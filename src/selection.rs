use vstd::prelude::*;
use crate::probabilities::Fraction;

verus! {

/// `x <= y` as rationals.
pub open spec fn at_most(x: Fraction, y: Fraction) -> bool {
    !y.less(x)
}

pub open spec fn all_wf(vals: Seq<Fraction>) -> bool {
    forall|i: int| 0 <= i < vals.len() ==> #[trigger] vals[i].wf()
}

/// `i` is the first index of a smallest value.
pub open spec fn is_first_min(vals: Seq<Fraction>, i: int) -> bool {
    &&& 0 <= i < vals.len()
    &&& forall|j: int| 0 <= j < vals.len() ==> at_most(vals[i], #[trigger] vals[j])
    &&& forall|j: int| 0 <= j < i ==> (#[trigger] vals[j]).less(vals[i]) == false && vals[i].less(
        vals[j],
    )
}

/// `i` is the first index whose flag is set.
pub open spec fn is_first_set(flags: Seq<bool>, i: int) -> bool {
    &&& 0 <= i < flags.len()
    &&& flags[i]
    &&& forall|j: int| 0 <= j < i ==> !#[trigger] flags[j]
}

/// Item `x` goes before item `y` when sorting by value from highest to
/// lowest, equal values keeping the order of their indices.
pub open spec fn ranks_before(vals: Seq<Fraction>, x: int, y: int) -> bool {
    &&& at_most(vals[y], vals[x])
    &&& (vals[y].less(vals[x]) || x < y)
}

/// Index `j` occurs in `order`.
pub open spec fn lists(order: Seq<usize>, j: int) -> bool {
    exists|a: int| 0 <= a < order.len() && order[a] == j
}

/// `order` lists every index of `vals` once, from the highest value to the
/// lowest, equal values in the order of their indices.
pub open spec fn is_ranking(vals: Seq<Fraction>, order: Seq<usize>) -> bool {
    &&& order.len() == vals.len()
    &&& forall|a: int| 0 <= a < order.len() ==> #[trigger] order[a] < vals.len()
    &&& forall|j: int| 0 <= j < vals.len() ==> #[trigger] lists(order, j)
    &&& forall|a: int, b: int|
        0 <= a < b < order.len() ==> ranks_before(vals, #[trigger] order[a] as int, #[trigger] order[b] as int)
}

/// `x < y` and `y <= z` give `x < z`, for positive denominators.
pub proof fn lemma_less_at_most(x: Fraction, y: Fraction, z: Fraction)
    requires
        x.wf(),
        y.wf(),
        z.wf(),
        x.less(y),
        at_most(y, z),
    ensures
        x.less(z),
{
    let (a, b, c, d, e, f) = (x.num as int, x.den as int, y.num as int, y.den as int, z.num as int, z.den as int);
    assert(a * d * f < c * b * f) by (nonlinear_arith)
        requires a * d < c * b, f > 0;
    assert(c * f * b <= e * d * b) by (nonlinear_arith)
        requires c * f <= e * d, b > 0;
    assert(a * f * d < e * b * d) by (nonlinear_arith)
        requires a * d * f < c * b * f, c * f * b <= e * d * b;
    assert(a * f < e * b) by (nonlinear_arith)
        requires a * f * d < e * b * d, d > 0;
}

/// `x <= y` and `y <= z` give `x <= z`, for positive denominators.
pub proof fn lemma_at_most_trans(x: Fraction, y: Fraction, z: Fraction)
    requires
        x.wf(),
        y.wf(),
        z.wf(),
        at_most(x, y),
        at_most(y, z),
    ensures
        at_most(x, z),
{
    if z.less(x) {
        lemma_less_at_most(z, x, y);
    }
}

/// Index of the first set flag, if any flag is set.
pub fn first_set(flags: &Vec<bool>) -> (r: Option<usize>)
    ensures
        r matches Some(i) ==> is_first_set(flags@, i as int),
        r is None <==> forall|j: int| 0 <= j < flags@.len() ==> !#[trigger] flags@[j],
{
    let mut k: usize = 0;
    while k < flags.len()
        invariant
            k <= flags@.len(),
            forall|j: int| 0 <= j < k ==> !#[trigger] flags@[j],
        decreases flags@.len() - k,
    {
        if flags[k] {
            return Some(k);
        }
        k = k + 1;
    }
    None
}

/// Index of the first smallest value.
pub fn first_min(vals: &Vec<Fraction>) -> (r: usize)
    requires
        vals@.len() > 0,
        all_wf(vals@),
    ensures
        is_first_min(vals@, r as int),
{
    let mut best: usize = 0;
    let mut k: usize = 1;
    while k < vals.len()
        invariant
            1 <= k <= vals@.len(),
            all_wf(vals@),
            best < k,
            forall|j: int| 0 <= j < k ==> at_most(vals@[best as int], #[trigger] vals@[j]),
            forall|j: int| 0 <= j < best ==> (#[trigger] vals@[j]).less(vals@[best as int]) == false && vals@[best as int].less(vals@[j]),
        decreases vals@.len() - k,
    {
        if vals[k].lt(&vals[best]) {
            let old_best = best;
            proof {
                assert forall|j: int| 0 <= j < k implies at_most(vals@[k as int], #[trigger] vals@[j]) && (j < k ==> vals@[k as int].less(vals@[j])) by {
                    lemma_less_at_most(vals@[k as int], vals@[old_best as int], vals@[j]);
                }
            }
            best = k;
        }
        k = k + 1;
    }
    best
}

/// `x <= y` and `y < z` give `x < z`, for positive denominators.
pub proof fn lemma_at_most_less(x: Fraction, y: Fraction, z: Fraction)
    requires
        x.wf(),
        y.wf(),
        z.wf(),
        at_most(x, y),
        y.less(z),
    ensures
        x.less(z),
{
    if !x.less(z) {
        lemma_less_at_most(y, z, x);
    }
}

/// Indices of `vals` from the highest value to the lowest; equal values keep
/// the order of their indices.
pub fn rank_descending(vals: &Vec<Fraction>) -> (order: Vec<usize>)
    requires
        all_wf(vals@),
    ensures
        is_ranking(vals@, order@),
{
    let mut order: Vec<usize> = Vec::new();
    let mut k: usize = 0;
    while k < vals.len()
        invariant
            k <= vals@.len(),
            all_wf(vals@),
            order@.len() == k,
            forall|a: int| 0 <= a < order@.len() ==> #[trigger] order@[a] < k,
            forall|j: int| 0 <= j < k ==> #[trigger] lists(order@, j),
            forall|a: int, b: int|
                0 <= a < b < order@.len() ==> ranks_before(vals@, #[trigger] order@[a] as int, #[trigger] order@[b] as int),
        decreases vals@.len() - k,
    {
        let mut pos: usize = 0;
        loop
            invariant
                pos <= order@.len(),
                order@.len() == k,
                k < vals@.len(),
                forall|a: int| 0 <= a < order@.len() ==> #[trigger] order@[a] < k,
                forall|a: int| 0 <= a < pos ==> at_most(vals@[k as int], vals@[#[trigger] order@[a] as int]),
            ensures
                pos <= order@.len(),
                forall|a: int| 0 <= a < pos ==> at_most(vals@[k as int], vals@[#[trigger] order@[a] as int]),
                pos < order@.len() ==> vals@[order@[pos as int] as int].less(vals@[k as int]),
            decreases order@.len() - pos,
        {
            if pos == order.len() {
                break;
            }
            if vals[order[pos]].lt(&vals[k]) {
                break;
            }
            pos = pos + 1;
        }
        let ghost prev = order@;
        order.insert(pos, k);
        proof {
            assert forall|j: int| 0 <= j < k + 1 implies #[trigger] lists(order@, j) by {
                if j == k {
                    assert(order@[pos as int] == j);
                } else {
                    assert(lists(prev, j));
                    let a = choose|a: int| 0 <= a < prev.len() && prev[a] == j;
                    if a < pos {
                        assert(order@[a] == j);
                    } else {
                        assert(order@[a + 1] == j);
                    }
                }
            }
            assert forall|a: int, b: int|
                0 <= a < b < order@.len() implies ranks_before(vals@, #[trigger] order@[a] as int, #[trigger] order@[b] as int) by {
                if b < pos {
                    assert(order@[a] == prev[a] && order@[b] == prev[b]);
                } else if b == pos {
                    assert(order@[a] == prev[a]);
                } else if a < pos {
                    assert(order@[a] == prev[a] && order@[b] == prev[b - 1]);
                } else if a == pos {
                    let y = prev[b - 1] as int;
                    let p0 = prev[pos as int] as int;
                    if b - 1 > pos {
                        assert(ranks_before(vals@, p0, y));
                        lemma_at_most_less(vals@[y], vals@[p0], vals@[k as int]);
                    }
                    assert(vals@[y].less(vals@[k as int]));
                } else {
                    assert(order@[a] == prev[a - 1] && order@[b] == prev[b - 1]);
                }
            }
        }
        k = k + 1;
    }
    order
}

} // verus!
