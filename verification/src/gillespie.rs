//! Reactions: stoichiometric updates ([`Jump`]), propensities ([`Rate`]),
//! and the simulation engine ([`Gillespie`]).

use vstd::prelude::*;
use vstd::slice::slice_to_vec;

verus! {

/// The modulus of the machine's signed word: one more than `usize::MAX`.
pub open spec fn word_range() -> int {
    usize::MAX - usize::MIN + 1
}

/// Wrapping addition on species counts.  Counts stay far from the integer
/// bounds in any well-formed model; the wrapping form keeps the update
/// total without a panic.
pub open spec fn wadd(a: isize, b: isize) -> isize {
    vstd::wrapping::isize_specs::wrapping_add(a, b)
}

/// The representative of `x` modulo `word_range()` within the `isize`
/// bounds.
pub open spec fn crop(x: int) -> isize {
    vstd::wrapping::isize_specs::signed_crop(x)
}

proof fn lemma_crop_congruence(a: int, b: int)
    requires
        a % word_range() == b % word_range(),
    ensures
        crop(a) == crop(b),
{
}

proof fn lemma_crop_id(x: int)
    requires
        isize::MIN <= x <= isize::MAX,
    ensures
        crop(x) == x,
{
    let r = word_range();
    if x >= 0 {
        vstd::arithmetic::div_mod::lemma_small_mod(x as nat, r as nat);
    } else {
        vstd::arithmetic::div_mod::lemma_mod_add_multiples_vanish(x, r);
        vstd::arithmetic::div_mod::lemma_small_mod((x + r) as nat, r as nat);
    }
}

proof fn lemma_wadd_is_crop(a: isize, b: isize)
    ensures
        wadd(a, b) == crop(a + b),
{
    let r = word_range();
    let x = a + b;
    if isize::MIN <= x <= isize::MAX {
        lemma_crop_id(x);
    } else if x > isize::MAX {
        vstd::arithmetic::div_mod::lemma_small_mod(x as nat, r as nat);
    } else {
        vstd::arithmetic::div_mod::lemma_mod_add_multiples_vanish(x, r);
        vstd::arithmetic::div_mod::lemma_small_mod((x + r) as nat, r as nat);
    }
}

/// Adding a delta to a cropped value gives the crop of the exact sum.
pub proof fn lemma_crop_add(a: int, d: isize)
    ensures
        wadd(crop(a), d) == crop(a + d),
{
    let r = word_range();
    lemma_wadd_is_crop(crop(a), d);
    assert(crop(a) as int % r == a % r) by {
        vstd::arithmetic::div_mod::lemma_mod_sub_multiples_vanish(a % r, r);
        vstd::arithmetic::div_mod::lemma_mod_twice(a, r);
    }
    assert((crop(a) + d) % r == (a + d) % r) by {
        vstd::arithmetic::div_mod::lemma_add_mod_noop(crop(a) as int, d as int, r);
        vstd::arithmetic::div_mod::lemma_add_mod_noop(a, d as int, r);
    }
    lemma_crop_congruence(crop(a) + d, a + d);
}

/// The crop of zero is zero.
pub proof fn lemma_crop_zero()
    ensures
        crop(0) == 0isize,
{
    lemma_crop_id(0);
}

/// A stoichiometric update: the integer delta applied to the species
/// vector when the reaction fires, stored either as a dense vector or as
/// a list of (index, delta) pairs.
#[derive(Clone, Debug, PartialEq)]
pub enum Jump {
    Flat(Vec<isize>),
    Sparse(Vec<(usize, isize)>),
}

/// Apply a list of (index, delta) pairs in order; a pair whose index is
/// out of range leaves the vector unchanged.
pub open spec fn apply_deltas(s: Seq<isize>, pairs: Seq<(usize, isize)>) -> Seq<isize>
    decreases pairs.len(),
{
    if pairs.len() == 0 {
        s
    } else {
        let prev = apply_deltas(s, pairs.drop_last());
        let i = pairs.last().0;
        let d = pairs.last().1;
        if i < prev.len() {
            prev.update(i as int, wadd(prev[i as int], d))
        } else {
            prev
        }
    }
}

/// Apply a dense delta vector; entries beyond the shorter length are
/// untouched.
pub open spec fn apply_flat(s: Seq<isize>, d: Seq<isize>) -> Seq<isize> {
    Seq::new(s.len(), |i: int| if i < d.len() { wadd(s[i], d[i]) } else { s[i] })
}

/// The effect of a jump on a species vector.
pub open spec fn apply_jump(j: Jump, s: Seq<isize>) -> Seq<isize> {
    match j {
        Jump::Flat(d) => apply_flat(s, d@),
        Jump::Sparse(p) => apply_deltas(s, p@),
    }
}

/// The total delta a list of pairs contributes at index `i`, as a
/// mathematical integer.
pub open spec fn delta_sum(pairs: Seq<(usize, isize)>, i: int) -> int
    decreases pairs.len(),
{
    if pairs.len() == 0 {
        0
    } else {
        delta_sum(pairs.drop_last(), i) + (if pairs.last().0 == i {
            pairs.last().1 as int
        } else {
            0
        })
    }
}

/// The delta a jump contributes at index `i`, as a mathematical integer.
pub open spec fn delta_of(j: Jump, i: int) -> int {
    match j {
        Jump::Flat(d) => if 0 <= i < d@.len() {
            d@[i] as int
        } else {
            0
        },
        Jump::Sparse(p) => delta_sum(p@, i),
    }
}

/// Every pair index is below `n`.
pub open spec fn pairs_below(pairs: Seq<(usize, isize)>, n: nat) -> bool {
    forall|k: int| 0 <= k < pairs.len() ==> (#[trigger] pairs[k]).0 < n
}

/// A jump only references indices below `n` (dense jumps are no longer
/// than `n`).
pub open spec fn jump_below(j: Jump, n: nat) -> bool {
    match j {
        Jump::Flat(d) => d@.len() <= n,
        Jump::Sparse(p) => pairs_below(p@, n),
    }
}

/// One more than the largest index of the pairs, 0 when there are none.
pub open spec fn pairs_width(pairs: Seq<(usize, isize)>) -> nat
    decreases pairs.len(),
{
    if pairs.len() == 0 {
        0nat
    } else {
        let w = pairs_width(pairs.drop_last());
        let top = pairs.last().0 as nat + 1;
        if top > w {
            top
        } else {
            w
        }
    }
}

proof fn lemma_pairs_width_bounds(pairs: Seq<(usize, isize)>)
    ensures
        pairs_below(pairs, pairs_width(pairs)),
    decreases pairs.len(),
{
    if pairs.len() > 0 {
        lemma_pairs_width_bounds(pairs.drop_last());
        assert forall|k: int| 0 <= k < pairs.len() implies (#[trigger] pairs[k]).0 < pairs_width(
            pairs,
        ) by {
            if k < pairs.len() - 1 {
                assert(pairs.drop_last()[k] == pairs[k]);
                assert(pairs[k].0 < pairs_width(pairs.drop_last()));
            }
        }
    }
}

proof fn lemma_apply_deltas_len(s: Seq<isize>, pairs: Seq<(usize, isize)>)
    ensures
        apply_deltas(s, pairs).len() == s.len(),
    decreases pairs.len(),
{
    if pairs.len() > 0 {
        lemma_apply_deltas_len(s, pairs.drop_last());
    }
}

/// Applying pairs within range equals, entry by entry, the crop of the
/// exact sum of the entry and the pairs' total delta there.
proof fn lemma_apply_deltas_pointwise(s: Seq<isize>, pairs: Seq<(usize, isize)>)
    requires
        pairs_below(pairs, s.len() as nat),
    ensures
        apply_deltas(s, pairs).len() == s.len(),
        forall|i: int|
            0 <= i < s.len() ==> apply_deltas(s, pairs)[i] == crop(s[i] + delta_sum(pairs, i)),
    decreases pairs.len(),
{
    lemma_apply_deltas_len(s, pairs);
    if pairs.len() == 0 {
        assert forall|i: int| 0 <= i < s.len() implies apply_deltas(s, pairs)[i] == crop(
            s[i] + delta_sum(pairs, i),
        ) by {
            lemma_crop_id(s[i] as int);
        }
    } else {
        let rest = pairs.drop_last();
        assert(pairs_below(rest, s.len() as nat)) by {
            assert forall|k: int| 0 <= k < rest.len() implies (#[trigger] rest[k]).0
                < s.len() by {
                assert(rest[k] == pairs[k]);
            }
        }
        lemma_apply_deltas_pointwise(s, rest);
        let prev = apply_deltas(s, rest);
        let ii = pairs.last().0;
        let d = pairs.last().1;
        assert(pairs[pairs.len() - 1].0 < s.len());
        assert forall|i: int| 0 <= i < s.len() implies apply_deltas(s, pairs)[i] == crop(
            s[i] + delta_sum(pairs, i),
        ) by {
            if i == ii {
                lemma_crop_add(s[i] + delta_sum(rest, i), d);
            }
        }
    }
}

/// The sparse pairs of a dense delta vector: one pair per non-zero
/// entry, in index order.
pub open spec fn flat_pairs(d: Seq<isize>) -> Seq<(usize, isize)>
    decreases d.len(),
{
    if d.len() == 0 {
        Seq::empty()
    } else if d.last() != 0 {
        flat_pairs(d.drop_last()).push((((d.len() - 1) as usize), d.last()))
    } else {
        flat_pairs(d.drop_last())
    }
}

/// The total delta of the sparse pairs of a dense vector is the dense
/// entry itself.
proof fn lemma_flat_pairs_delta(d: Seq<isize>, i: int)
    requires
        d.len() <= usize::MAX,
    ensures
        delta_sum(flat_pairs(d), i) == if 0 <= i < d.len() {
            d[i] as int
        } else {
            0
        },
        pairs_below(flat_pairs(d), d.len() as nat),
    decreases d.len(),
{
    if d.len() > 0 {
        lemma_flat_pairs_delta(d.drop_last(), i);
        let rest = flat_pairs(d.drop_last());
        if 0 <= i < d.len() - 1 {
            assert(d.drop_last()[i] == d[i]);
        }
        if d.last() != 0 {
            let pr = (((d.len() - 1) as usize), d.last());
            assert(flat_pairs(d) == rest.push(pr));
            assert(rest.push(pr).drop_last() =~= rest);
            assert(rest.push(pr).last() == pr);
            assert(delta_sum(flat_pairs(d), i) == delta_sum(rest, i) + (if pr.0 == i {
                pr.1 as int
            } else {
                0
            }));
        } else {
            assert(flat_pairs(d) == rest);
            assert(d[d.len() - 1] == 0);
        }
        assert forall|k: int|
            0 <= k < flat_pairs(d).len() implies (#[trigger] flat_pairs(d)[k]).0 < d.len() by {
            if k < rest.len() {
                assert(flat_pairs(d)[k] == rest[k]);
                assert(rest[k].0 < d.drop_last().len());
            }
        }
    }
}

impl Jump {
    /// A dense jump holding the given deltas.
    pub fn new(differences: &[isize]) -> (r: Jump)
        ensures
            r matches Jump::Flat(d) && d@ == differences@,
    {
        Jump::Flat(slice_to_vec(differences))
    }

    /// A sparse jump holding the given (index, delta) pairs.
    pub fn new_sparse(sparse: &[(usize, isize)]) -> (r: Jump)
        ensures
            r matches Jump::Sparse(p) && p@ == sparse@,
    {
        Jump::Sparse(slice_to_vec(sparse))
    }

    /// The dense storage form: sparse pairs are accumulated into a vector
    /// reaching up to their largest index; a dense jump is returned
    /// unchanged.
    pub fn dense(self) -> (r: Jump)
        requires
            self matches Jump::Sparse(p) ==> pairs_below(p@, usize::MAX as nat),
        ensures
            match self {
                Jump::Flat(_) => r == self,
                Jump::Sparse(p) => r matches Jump::Flat(d) && d@ == apply_deltas(
                    Seq::new(pairs_width(p@), |i: int| 0isize),
                    p@,
                ),
            },
    {
        match self {
            Jump::Sparse(sparse) => {
                let ghost gp = sparse@;
                let mut n: usize = 0;
                let mut k: usize = 0;
                while k < sparse.len()
                    invariant
                        k <= sparse.len(),
                        sparse@ == gp,
                        pairs_below(gp, usize::MAX as nat),
                        n == pairs_width(gp.take(k as int)),
                    decreases sparse.len() - k,
                {
                    proof {
                        assert(gp.take(k + 1).drop_last() =~= gp.take(k as int));
                        assert(gp.take(k + 1).last() == gp[k as int]);
                    }
                    let (i, _d) = sparse[k];
                    if i >= n {
                        n = i + 1;
                    }
                    k += 1;
                }
                proof {
                    assert(gp.take(sparse.len() as int) =~= gp);
                }
                let ghost zeros = Seq::new(pairs_width(gp), |i: int| 0isize);
                let mut dense_v: Vec<isize> = Vec::new();
                let mut j: usize = 0;
                while j < n
                    invariant
                        j <= n,
                        n == pairs_width(gp),
                        dense_v@.len() == j,
                        forall|t: int| 0 <= t < j ==> dense_v@[t] == 0isize,
                    decreases n - j,
                {
                    dense_v.push(0);
                    j += 1;
                }
                proof {
                    assert(dense_v@ =~= zeros);
                    assert(apply_deltas(zeros, gp.take(0)) =~= zeros);
                }
                let mut k: usize = 0;
                while k < sparse.len()
                    invariant
                        k <= sparse.len(),
                        sparse@ == gp,
                        zeros == Seq::new(pairs_width(gp), |i: int| 0isize),
                        dense_v@ == apply_deltas(zeros, gp.take(k as int)),
                        dense_v@.len() == pairs_width(gp),
                    decreases sparse.len() - k,
                {
                    proof {
                        lemma_pairs_width_bounds(gp);
                        assert(gp.take(k + 1).drop_last() =~= gp.take(k as int));
                        assert(gp.take(k + 1).last() == gp[k as int]);
                        lemma_apply_deltas_len(zeros, gp.take(k + 1));
                    }
                    let (i, d) = sparse[k];
                    let cur = dense_v[i];
                    dense_v.set(i, cur.wrapping_add(d));
                    k += 1;
                }
                proof {
                    assert(gp.take(sparse.len() as int) =~= gp);
                }
                Jump::Flat(dense_v)
            },
            Jump::Flat(_) => self,
        }
    }

    /// The sparse storage form: one pair per non-zero entry of a dense
    /// jump, in index order; a sparse jump is returned unchanged.
    pub fn sparse(self) -> (r: Jump)
        ensures
            match self {
                Jump::Sparse(_) => r == self,
                Jump::Flat(d) => r matches Jump::Sparse(p) && p@ == flat_pairs(d@)
                    && pairs_below(p@, d@.len() as nat),
            },
    {
        match self {
            Jump::Flat(differences) => {
                let ghost gd = differences@;
                let mut out: Vec<(usize, isize)> = Vec::new();
                let mut k: usize = 0;
                while k < differences.len()
                    invariant
                        k <= differences.len(),
                        differences@ == gd,
                        out@ == flat_pairs(gd.take(k as int)),
                        pairs_below(out@, gd.len() as nat),
                    decreases differences.len() - k,
                {
                    proof {
                        assert(gd.take(k + 1).drop_last() =~= gd.take(k as int));
                        assert(gd.take(k + 1).last() == gd[k as int]);
                    }
                    let d = differences[k];
                    if d != 0 {
                        let ghost pre = out@;
                        out.push((k, d));
                        proof {
                            assert(out@ =~= flat_pairs(gd.take(k as int)) + seq![
                                (k, gd[k as int]),
                            ]);
                            assert forall|t: int| 0 <= t < out@.len() implies (#[trigger] out@[t]).0
                                < gd.len() by {
                                if t < pre.len() {
                                    assert(out@[t] == pre[t]);
                                }
                            }
                        }
                    } else {
                        proof {
                            assert(out@ =~= flat_pairs(gd.take(k as int))
                                + Seq::<(usize, isize)>::empty());
                        }
                    }
                    k += 1;
                }
                proof {
                    assert(gd.take(differences.len() as int) =~= gd);
                }
                Jump::Sparse(out)
            },
            Jump::Sparse(_) => self,
        }
    }

    /// Apply the jump to a species vector in place.
    pub fn affect(&self, species: &mut Vec<isize>)
        requires
            self matches Jump::Sparse(p) ==> pairs_below(p@, old(species)@.len() as nat),
        ensures
            final (species)@ == apply_jump(*self, old(species)@),
            final (species)@.len() == old(species)@.len(),
    {
        match self {
            Jump::Flat(d) => {
                let n = if species.len() < d.len() {
                    species.len()
                } else {
                    d.len()
                };
                let mut i: usize = 0;
                while i < n
                    invariant
                        i <= n,
                        n <= species@.len(),
                        n <= d@.len(),
                        n == if old(species)@.len() < d@.len() {
                            old(species)@.len()
                        } else {
                            d@.len()
                        },
                        species@.len() == old(species)@.len(),
                        forall|t: int| 0 <= t < i ==> species@[t] == wadd(old(species)@[t], d@[t]),
                        forall|t: int| i <= t < species@.len() ==> species@[t] == old(species)@[t],
                    decreases n - i,
                {
                    let cur = species[i];
                    species.set(i, cur.wrapping_add(d[i]));
                    i += 1;
                }
                proof {
                    assert(species@ =~= apply_flat(old(species)@, d@));
                }
            },
            Jump::Sparse(p) => {
                let ghost gp = p@;
                let ghost s0 = species@;
                let mut k: usize = 0;
                while k < p.len()
                    invariant
                        k <= p.len(),
                        p@ == gp,
                        pairs_below(gp, s0.len() as nat),
                        species@ == apply_deltas(s0, gp.take(k as int)),
                        species@.len() == s0.len(),
                    decreases p.len() - k,
                {
                    proof {
                        assert(gp.take(k + 1).drop_last() =~= gp.take(k as int));
                        assert(gp.take(k + 1).last() == gp[k as int]);
                        lemma_apply_deltas_len(s0, gp.take(k + 1));
                    }
                    let (i, d) = p[k];
                    let cur = species[i];
                    species.set(i, cur.wrapping_add(d));
                    k += 1;
                }
                proof {
                    assert(gp.take(p.len() as int) =~= gp);
                }
            },
        }
    }
}

// ---------------------------------------------------------------------
// Laws about jumps.
// ---------------------------------------------------------------------

/// The delta at `i` is zero when the pairs never mention `i`.
proof fn lemma_delta_sum_out_of_range(pairs: Seq<(usize, isize)>, n: nat, i: int)
    requires
        pairs_below(pairs, n),
        !(0 <= i < n),
    ensures
        delta_sum(pairs, i) == 0,
    decreases pairs.len(),
{
    if pairs.len() > 0 {
        let rest = pairs.drop_last();
        assert forall|k: int| 0 <= k < rest.len() implies (#[trigger] rest[k]).0 < n by {
            assert(rest[k] == pairs[k]);
        }
        lemma_delta_sum_out_of_range(rest, n, i);
        assert(pairs[pairs.len() - 1].0 < n);
    }
}

/// Law: converting a dense jump to its sparse storage form leaves its
/// effect on every species vector unchanged.
pub proof fn lemma_jump_sparse_equiv(d: Seq<isize>, s: Seq<isize>)
    requires
        d.len() <= s.len(),
        d.len() <= usize::MAX,
    ensures
        apply_deltas(s, flat_pairs(d)) == apply_flat(s, d),
{
    lemma_flat_pairs_delta(d, 0);
    assert(pairs_below(flat_pairs(d), s.len() as nat)) by {
        assert forall|k: int|
            0 <= k < flat_pairs(d).len() implies (#[trigger] flat_pairs(d)[k]).0 < s.len() by {
            assert(pairs_below(flat_pairs(d), d.len() as nat));
        }
    }
    lemma_apply_deltas_pointwise(s, flat_pairs(d));
    assert forall|i: int| 0 <= i < s.len() implies apply_deltas(s, flat_pairs(d))[i] == apply_flat(
        s,
        d,
    )[i] by {
        lemma_flat_pairs_delta(d, i);
        if i < d.len() {
            lemma_wadd_is_crop(s[i], d[i]);
        } else {
            lemma_crop_id(s[i] as int);
        }
    }
    assert(apply_deltas(s, flat_pairs(d)) =~= apply_flat(s, d));
}

/// Law: converting a sparse jump to its dense storage form leaves its
/// effect on every species vector unchanged.
pub proof fn lemma_jump_dense_equiv(p: Seq<(usize, isize)>, s: Seq<isize>)
    requires
        pairs_below(p, s.len() as nat),
    ensures
        apply_flat(s, apply_deltas(Seq::new(pairs_width(p), |i: int| 0isize), p)) == apply_deltas(
            s,
            p,
        ),
{
    let zeros = Seq::new(pairs_width(p), |i: int| 0isize);
    lemma_pairs_width_bounds(p);
    lemma_apply_deltas_pointwise(zeros, p);
    lemma_apply_deltas_pointwise(s, p);
    let dd = apply_deltas(zeros, p);
    assert forall|i: int| 0 <= i < s.len() implies apply_flat(s, dd)[i] == apply_deltas(
        s,
        p,
    )[i] by {
        if i < dd.len() {
            // dd[i] is the crop of the pairs' delta at i; adding it to s[i]
            // wraps to the same value as adding the exact delta.
            assert(dd[i] == crop(0 + delta_sum(p, i)));
            lemma_wadd_is_crop(s[i], dd[i]);
            assert(crop(delta_sum(p, i)) as int % word_range() == delta_sum(p, i) % word_range())
                by {
                vstd::arithmetic::div_mod::lemma_mod_sub_multiples_vanish(
                    delta_sum(p, i) % word_range(),
                    word_range(),
                );
                vstd::arithmetic::div_mod::lemma_mod_twice(delta_sum(p, i), word_range());
            }
            assert((s[i] + crop(delta_sum(p, i))) % word_range() == (s[i] + delta_sum(p, i))
                % word_range()) by {
                vstd::arithmetic::div_mod::lemma_add_mod_noop(
                    s[i] as int,
                    crop(delta_sum(p, i)) as int,
                    word_range(),
                );
                vstd::arithmetic::div_mod::lemma_add_mod_noop(
                    s[i] as int,
                    delta_sum(p, i),
                    word_range(),
                );
            }
            lemma_crop_congruence(s[i] + crop(delta_sum(p, i)), s[i] + delta_sum(p, i));
        } else {
            // No pair reaches past the width, so the delta there is zero.
            lemma_delta_sum_out_of_range(p, pairs_width(p), i);
            lemma_crop_id(s[i] as int);
        }
    }
    assert(apply_flat(s, dd) =~= apply_deltas(s, p));
}

/// The weighted sum of a vector's entries under integer coefficients.
pub open spec fn dot(c: Seq<int>, s: Seq<isize>) -> int
    decreases s.len(),
{
    if s.len() == 0 || c.len() != s.len() {
        0
    } else {
        dot(c.drop_last(), s.drop_last()) + c.last() * s.last()
    }
}

/// The weighted sum of a jump's deltas over the first `c.len()` indices.
pub open spec fn weighted_delta(c: Seq<int>, j: Jump) -> int
    decreases c.len(),
{
    if c.len() == 0 {
        0
    } else {
        weighted_delta(c.drop_last(), j) + c.last() * delta_of(j, c.len() - 1)
    }
}

proof fn lemma_dot_shift(c: Seq<int>, x: Seq<isize>, y: Seq<isize>, j: Jump)
    requires
        c.len() == x.len(),
        y.len() == x.len(),
        forall|i: int| 0 <= i < x.len() ==> y[i] == x[i] + delta_of(j, i),
    ensures
        dot(c, y) == dot(c, x) + weighted_delta(c, j),
    decreases c.len(),
{
    if c.len() > 0 {
        assert forall|i: int|
            0 <= i < x.drop_last().len() implies y.drop_last()[i] == x.drop_last()[i] + delta_of(
            j,
            i,
        ) by {
            assert(y.drop_last()[i] == y[i]);
            assert(x.drop_last()[i] == x[i]);
        }
        lemma_dot_shift(c.drop_last(), x.drop_last(), y.drop_last(), j);
        assert(y.last() == x.last() + delta_of(j, c.len() - 1));
        assert(c.last() * (x.last() + delta_of(j, c.len() - 1)) == c.last() * x.last() + c.last()
            * delta_of(j, c.len() - 1)) by (nonlinear_arith);
    }
}

/// Law (conservation): a linear combination of the species whose
/// coefficients are orthogonal to a jump's deltas is unchanged when the
/// jump fires, provided no entry wraps around the machine word.
pub proof fn lemma_conservation(c: Seq<int>, j: Jump, s: Seq<isize>)
    requires
        c.len() == s.len(),
        jump_below(j, s.len() as nat),
        weighted_delta(c, j) == 0,
        forall|i: int|
            0 <= i < s.len() ==> isize::MIN <= s[i] + #[trigger] delta_of(j, i) <= isize::MAX,
    ensures
        dot(c, apply_jump(j, s)) == dot(c, s),
{
    let y = apply_jump(j, s);
    assert forall|i: int| 0 <= i < s.len() implies y[i] == s[i] + delta_of(j, i) by {
        match j {
            Jump::Flat(d) => {
                if i < d@.len() {
                    assert(delta_of(j, i) == d@[i] as int);
                    lemma_wadd_is_crop(s[i], d@[i]);
                    lemma_crop_id(s[i] + d@[i]);
                } else {
                    assert(delta_of(j, i) == 0);
                }
            },
            Jump::Sparse(p) => {
                assert(delta_of(j, i) == delta_sum(p@, i));
                lemma_apply_deltas_pointwise(s, p@);
                lemma_crop_id(s[i] + delta_sum(p@, i));
            },
        }
    }
    match j {
        Jump::Flat(d) => {
            assert(y.len() == s.len());
        },
        Jump::Sparse(p) => {
            lemma_apply_deltas_len(s, p@);
        },
    }
    lemma_dot_shift(c, s, y, j);
}

// ---------------------------------------------------------------------
// Propensities.
// ---------------------------------------------------------------------

/// A propensity: a law-of-mass-action rate with a dense exponent vector,
/// the same with a sparse (index, exponent) list, or an arbitrary
/// arithmetic expression.  The rate constant is a binary64 bit pattern.
#[derive(Clone, Debug, PartialEq)]
pub enum Rate {
    LMA(u64, Vec<u32>),
    LMASparse(u64, Vec<(u32, u32)>),
    Expr(crate::expr::Expr),
}

/// One falling-factorial block: the factors n, n-1, ..., n-e+1.
pub open spec fn ff_factors(n: isize, e: u32) -> Seq<int> {
    Seq::new(e as nat, |j: int| n - j)
}

/// The factors contributed by the first `k` species of a dense rate.
pub open spec fn dense_factors(s: Seq<isize>, exps: Seq<u32>, k: nat) -> Seq<int>
    decreases k,
{
    if k == 0 {
        Seq::empty()
    } else {
        dense_factors(s, exps, (k - 1) as nat) + ff_factors(s[k - 1], exps[k - 1])
    }
}

/// The factors contributed by the first `k` pairs of a sparse rate; a
/// pair whose index is out of range contributes nothing.
pub open spec fn sparse_factors(s: Seq<isize>, pairs: Seq<(u32, u32)>, k: nat) -> Seq<int>
    decreases k,
{
    if k == 0 {
        Seq::empty()
    } else {
        sparse_factors(s, pairs, (k - 1) as nat) + (if (pairs[k - 1].0 as int) < s.len() {
            ff_factors(s[pairs[k - 1].0 as int], pairs[k - 1].1)
        } else {
            Seq::empty()
        })
    }
}

/// Left-to-right fold of the software multiplication over the factors.
pub open spec fn mul_fold(acc: u64, fs: Seq<int>) -> u64
    decreases fs.len(),
{
    if fs.len() == 0 {
        acc
    } else {
        mul_fold(crate::ieee::real_mul(acc, crate::ieee::real_of_int(fs.first())), fs.drop_first())
    }
}

proof fn lemma_mul_fold_snoc(acc: u64, fs: Seq<int>, f: int)
    ensures
        mul_fold(acc, fs.push(f)) == crate::ieee::real_mul(
            mul_fold(acc, fs),
            crate::ieee::real_of_int(f),
        ),
    decreases fs.len(),
{
    let p = fs.push(f);
    if fs.len() == 0 {
        assert(p.len() == 1);
        assert(p.first() == f);
        assert(p.drop_first() =~= Seq::<int>::empty());
        assert(mul_fold(acc, p) == mul_fold(
            crate::ieee::real_mul(acc, crate::ieee::real_of_int(f)),
            p.drop_first(),
        ));
        assert(mul_fold(crate::ieee::real_mul(acc, crate::ieee::real_of_int(f)), p.drop_first())
            == crate::ieee::real_mul(acc, crate::ieee::real_of_int(f)));
        assert(mul_fold(acc, fs) == acc);
    } else {
        assert(p.first() == fs.first());
        assert(p.drop_first() =~= fs.drop_first().push(f));
        lemma_mul_fold_snoc(
            crate::ieee::real_mul(acc, crate::ieee::real_of_int(fs.first())),
            fs.drop_first(),
            f,
        );
        assert(mul_fold(acc, p) == mul_fold(
            crate::ieee::real_mul(acc, crate::ieee::real_of_int(fs.first())),
            p.drop_first(),
        ));
        assert(mul_fold(acc, fs) == mul_fold(
            crate::ieee::real_mul(acc, crate::ieee::real_of_int(fs.first())),
            fs.drop_first(),
        ));
    }
}

/// The smaller of two lengths.
pub open spec fn min_len(a: nat, b: nat) -> nat {
    if a < b {
        a
    } else {
        b
    }
}

/// Every pair index of a sparse rate is below `n`.
pub open spec fn rate_pairs_below(pairs: Seq<(u32, u32)>, n: nat) -> bool {
    forall|k: int| 0 <= k < pairs.len() ==> ((#[trigger] pairs[k]).0 as nat) < n
}

/// A rate only references species indices below `n`.
pub open spec fn rate_below(r: Rate, n: nat) -> bool {
    match r {
        Rate::LMA(_, _) => true,
        Rate::LMASparse(_, pairs) => rate_pairs_below(pairs@, n),
        Rate::Expr(e) => crate::expr::expr_wf(e, n),
    }
}

/// The propensity of a rate on a species vector, as binary64 bits: the
/// fold of the rate constant with the falling-factorial factors, or the
/// expression's value.
pub open spec fn rate_eval(r: Rate, s: Seq<isize>) -> u64 {
    match r {
        Rate::LMA(c, exps) => mul_fold(c, dense_factors(s, exps@, min_len(s.len(), exps@.len()))),
        Rate::LMASparse(c, pairs) => mul_fold(c, sparse_factors(s, pairs@, pairs@.len())),
        Rate::Expr(e) => crate::expr::eval_spec(e, s),
    }
}

/// The sparse pairs of a dense exponent vector: one pair per non-zero
/// exponent, in index order.
pub open spec fn rate_pairs(exps: Seq<u32>) -> Seq<(u32, u32)>
    decreases exps.len(),
{
    if exps.len() == 0 {
        Seq::empty()
    } else if exps.last() != 0 {
        rate_pairs(exps.drop_last()).push((((exps.len() - 1) as u32), exps.last()))
    } else {
        rate_pairs(exps.drop_last())
    }
}

/// One more than the largest index of sparse rate pairs, 0 when empty.
pub open spec fn rate_pairs_width(pairs: Seq<(u32, u32)>) -> nat
    decreases pairs.len(),
{
    if pairs.len() == 0 {
        0nat
    } else {
        let w = rate_pairs_width(pairs.drop_last());
        let top = pairs.last().0 as nat + 1;
        if top > w {
            top
        } else {
            w
        }
    }
}

/// Accumulate sparse rate pairs into a dense exponent vector (wrapping
/// on the unreachable overflow).
pub open spec fn rate_accum(z: Seq<u32>, pairs: Seq<(u32, u32)>) -> Seq<u32>
    decreases pairs.len(),
{
    if pairs.len() == 0 {
        z
    } else {
        let prev = rate_accum(z, pairs.drop_last());
        let i = pairs.last().0 as int;
        if i < prev.len() {
            prev.update(i, vstd::wrapping::u32_specs::wrapping_add(prev[i], pairs.last().1))
        } else {
            prev
        }
    }
}

proof fn lemma_rate_pairs_width_bounds(pairs: Seq<(u32, u32)>)
    ensures
        rate_pairs_below(pairs, rate_pairs_width(pairs)),
    decreases pairs.len(),
{
    if pairs.len() > 0 {
        lemma_rate_pairs_width_bounds(pairs.drop_last());
        assert forall|k: int|
            0 <= k < pairs.len() implies ((#[trigger] pairs[k]).0 as nat) < rate_pairs_width(
            pairs,
        ) by {
            if k < pairs.len() - 1 {
                assert(pairs.drop_last()[k] == pairs[k]);
                assert((pairs[k].0 as nat) < rate_pairs_width(pairs.drop_last()));
            }
        }
    }
}

proof fn lemma_rate_accum_len(z: Seq<u32>, pairs: Seq<(u32, u32)>)
    ensures
        rate_accum(z, pairs).len() == z.len(),
    decreases pairs.len(),
{
    if pairs.len() > 0 {
        lemma_rate_accum_len(z, pairs.drop_last());
    }
}

impl Rate {
    /// A dense law-of-mass-action rate: constant `rate` (binary64 bits)
    /// and one exponent per species.
    pub fn lma(rate: u64, stoechiometries: &[u32]) -> (r: Rate)
        ensures
            r matches Rate::LMA(c, e) && c == rate && e@ == stoechiometries@,
    {
        Rate::LMA(rate, slice_to_vec(stoechiometries))
    }

    /// A sparse law-of-mass-action rate: constant `rate` and
    /// (species index, exponent) pairs.
    pub fn lma_sparse(rate: u64, stoechiometries: &[(u32, u32)]) -> (r: Rate)
        ensures
            r matches Rate::LMASparse(c, p) && c == rate && p@ == stoechiometries@,
    {
        Rate::LMASparse(rate, slice_to_vec(stoechiometries))
    }

    /// A rate given by an arbitrary arithmetic expression.
    pub fn expr(expr: crate::expr::Expr) -> (r: Rate)
        ensures
            r == Rate::Expr(expr),
    {
        Rate::Expr(expr)
    }

    /// The dense storage form: sparse pairs are accumulated into an
    /// exponent vector reaching up to their largest index; other forms
    /// are returned unchanged.
    pub fn dense(self) -> (r: Rate)
        requires
            self matches Rate::LMASparse(_, p) ==> rate_pairs_below(p@, u32::MAX as nat),
        ensures
            match self {
                Rate::LMASparse(c, p) => r matches Rate::LMA(c2, d) && c2 == c && d@ == rate_accum(
                    Seq::new(rate_pairs_width(p@), |i: int| 0u32),
                    p@,
                ),
                _ => r == self,
            },
    {
        match self {
            Rate::LMASparse(c, sparse) => {
                let ghost gp = sparse@;
                let mut n: u32 = 0;
                let mut k: usize = 0;
                while k < sparse.len()
                    invariant
                        k <= sparse.len(),
                        sparse@ == gp,
                        rate_pairs_below(gp, u32::MAX as nat),
                        n as nat == rate_pairs_width(gp.take(k as int)),
                    decreases sparse.len() - k,
                {
                    proof {
                        assert(gp.take(k + 1).drop_last() =~= gp.take(k as int));
                        assert(gp.take(k + 1).last() == gp[k as int]);
                    }
                    let (i, _e) = sparse[k];
                    if i >= n {
                        n = i + 1;
                    }
                    k += 1;
                }
                proof {
                    assert(gp.take(sparse.len() as int) =~= gp);
                }
                let ghost zeros = Seq::new(rate_pairs_width(gp), |i: int| 0u32);
                let mut dense_v: Vec<u32> = Vec::new();
                let mut j: u32 = 0;
                while j < n
                    invariant
                        j <= n,
                        n as nat == rate_pairs_width(gp),
                        dense_v@.len() == j,
                        forall|t: int| 0 <= t < j ==> dense_v@[t] == 0u32,
                    decreases n - j,
                {
                    dense_v.push(0);
                    j += 1;
                }
                proof {
                    assert(dense_v@ =~= zeros);
                    assert(rate_accum(zeros, gp.take(0)) =~= zeros);
                }
                let mut k: usize = 0;
                while k < sparse.len()
                    invariant
                        k <= sparse.len(),
                        sparse@ == gp,
                        zeros == Seq::new(rate_pairs_width(gp), |i: int| 0u32),
                        dense_v@ == rate_accum(zeros, gp.take(k as int)),
                        dense_v@.len() == rate_pairs_width(gp),
                    decreases sparse.len() - k,
                {
                    proof {
                        lemma_rate_pairs_width_bounds(gp);
                        assert(gp.take(k + 1).drop_last() =~= gp.take(k as int));
                        assert(gp.take(k + 1).last() == gp[k as int]);
                        lemma_rate_accum_len(zeros, gp.take(k + 1));
                    }
                    let (i, e) = sparse[k];
                    let cur = dense_v[i as usize];
                    dense_v.set(i as usize, cur.wrapping_add(e));
                    k += 1;
                }
                proof {
                    assert(gp.take(sparse.len() as int) =~= gp);
                }
                Rate::LMA(c, dense_v)
            },
            _ => self,
        }
    }

    /// The sparse storage form: one pair per non-zero exponent of a
    /// dense rate, in index order; other forms are returned unchanged.
    pub fn sparse(self) -> (r: Rate)
        requires
            self matches Rate::LMA(_, e) ==> e@.len() <= u32::MAX,
        ensures
            match self {
                Rate::LMA(c, e) => r matches Rate::LMASparse(c2, p) && c2 == c && p@ == rate_pairs(
                    e@,
                ) && rate_pairs_below(p@, e@.len() as nat),
                _ => r == self,
            },
    {
        match self {
            Rate::LMA(c, stoechiometries) => {
                let ghost gd = stoechiometries@;
                let mut out: Vec<(u32, u32)> = Vec::new();
                let mut k: usize = 0;
                while k < stoechiometries.len()
                    invariant
                        k <= stoechiometries.len(),
                        stoechiometries@ == gd,
                        gd.len() <= u32::MAX,
                        out@ == rate_pairs(gd.take(k as int)),
                        rate_pairs_below(out@, gd.len() as nat),
                    decreases stoechiometries.len() - k,
                {
                    proof {
                        assert(gd.take(k + 1).drop_last() =~= gd.take(k as int));
                        assert(gd.take(k + 1).last() == gd[k as int]);
                    }
                    let e = stoechiometries[k];
                    if e != 0 {
                        let ghost pre = out@;
                        out.push((k as u32, e));
                        proof {
                            assert forall|t: int| 0 <= t < out@.len() implies ((
                            #[trigger] out@[t]).0 as nat) < gd.len() by {
                                if t < pre.len() {
                                    assert(out@[t] == pre[t]);
                                }
                            }
                        }
                    }
                    k += 1;
                }
                proof {
                    assert(gd.take(stoechiometries.len() as int) =~= gd);
                }
                Rate::LMASparse(c, out)
            },
            _ => self,
        }
    }

    /// The propensity on a species vector: the rate constant times the
    /// falling factorial of each referenced species count.
    pub fn rate(&self, species: &Vec<isize>) -> (r: u64)
        requires
            rate_below(*self, species@.len() as nat),
        ensures
            r == rate_eval(*self, species@),
    {
        match self {
            Rate::LMA(c, exps) => {
                let ghost s = species@;
                let ghost ge = exps@;
                let n = if species.len() < exps.len() {
                    species.len()
                } else {
                    exps.len()
                };
                let mut acc = *c;
                let mut i: usize = 0;
                while i < n
                    invariant
                        i <= n,
                        n == min_len(s.len(), ge.len()),
                        species@ == s,
                        exps@ == ge,
                        acc == mul_fold(*c, dense_factors(s, ge, i as nat)),
                    decreases n - i,
                {
                    let e = exps[i];
                    let ni = species[i];
                    let mut j: u32 = 0;
                    while j < e
                        invariant
                            j <= e,
                            i < n,
                            n == min_len(s.len(), ge.len()),
                            species@ == s,
                            exps@ == ge,
                            e == ge[i as int],
                            ni == s[i as int],
                            acc == mul_fold(
                                *c,
                                dense_factors(s, ge, i as nat) + ff_factors(s[i as int], e).take(
                                    j as int,
                                ),
                            ),
                        decreases e - j,
                    {
                        let ghost pre = dense_factors(s, ge, i as nat) + ff_factors(
                            s[i as int],
                            e,
                        ).take(j as int);
                        proof {
                            assert(ff_factors(s[i as int], e).take(j + 1) =~= ff_factors(
                                s[i as int],
                                e,
                            ).take(j as int).push(ni - j));
                            assert(dense_factors(s, ge, i as nat) + ff_factors(s[i as int], e).take(
                                j + 1,
                            ) =~= pre.push(ni - j));
                            lemma_mul_fold_snoc(*c, pre, ni - j);
                        }
                        acc = crate::ieee::mul_bits(
                            acc,
                            crate::ieee::of_int_bits((ni as i128) - (j as i128)),
                        );
                        j += 1;
                    }
                    proof {
                        assert(ff_factors(s[i as int], e).take(e as int) =~= ff_factors(
                            s[i as int],
                            e,
                        ));
                        assert(dense_factors(s, ge, (i + 1) as nat) == dense_factors(s, ge, i as nat)
                            + ff_factors(s[i as int], ge[i as int]));
                    }
                    i += 1;
                }
                acc
            },
            Rate::LMASparse(c, pairs) => {
                let ghost s = species@;
                let ghost gp = pairs@;
                let mut acc = *c;
                let mut k: usize = 0;
                while k < pairs.len()
                    invariant
                        k <= pairs.len(),
                        species@ == s,
                        pairs@ == gp,
                        rate_pairs_below(gp, s.len() as nat),
                        acc == mul_fold(*c, sparse_factors(s, gp, k as nat)),
                    decreases pairs.len() - k,
                {
                    let (idx, e) = pairs[k];
                    let ni = species[idx as usize];
                    let mut j: u32 = 0;
                    while j < e
                        invariant
                            j <= e,
                            k < gp.len(),
                            species@ == s,
                            pairs@ == gp,
                            rate_pairs_below(gp, s.len() as nat),
                            (idx, e) == gp[k as int],
                            ni == s[idx as int],
                            acc == mul_fold(
                                *c,
                                sparse_factors(s, gp, k as nat) + ff_factors(s[idx as int], e).take(
                                    j as int,
                                ),
                            ),
                        decreases e - j,
                    {
                        let ghost pre = sparse_factors(s, gp, k as nat) + ff_factors(
                            s[idx as int],
                            e,
                        ).take(j as int);
                        proof {
                            assert(ff_factors(s[idx as int], e).take(j + 1) =~= ff_factors(
                                s[idx as int],
                                e,
                            ).take(j as int).push(ni - j));
                            assert(sparse_factors(s, gp, k as nat) + ff_factors(
                                s[idx as int],
                                e,
                            ).take(j + 1) =~= pre.push(ni - j));
                            lemma_mul_fold_snoc(*c, pre, ni - j);
                        }
                        acc = crate::ieee::mul_bits(
                            acc,
                            crate::ieee::of_int_bits((ni as i128) - (j as i128)),
                        );
                        j += 1;
                    }
                    proof {
                        assert(ff_factors(s[idx as int], e).take(e as int) =~= ff_factors(
                            s[idx as int],
                            e,
                        ));
                        assert(sparse_factors(s, gp, (k + 1) as nat) == sparse_factors(
                            s,
                            gp,
                            k as nat,
                        ) + ff_factors(s[gp[k as int].0 as int], gp[k as int].1));
                    }
                    k += 1;
                }
                acc
            },
            Rate::Expr(e) => e.eval(species),
        }
    }
}



// ---------------------------------------------------------------------
// The engine.
// ---------------------------------------------------------------------

/// The abstract state of an engine: species counts, time (binary64
/// bits), reaction list, and the generator's state.
#[verifier::ext_equal]
pub struct EngineState {
    pub species: Seq<isize>,
    pub t: u64,
    pub reactions: Seq<(Rate, Jump)>,
    pub rng: Seq<u64>,
}

/// The cumulative propensity of the first `k` reactions, summed in
/// order starting from +0.
pub open spec fn cum_prefix(rs: Seq<(Rate, Jump)>, s: Seq<isize>, k: nat) -> u64
    decreases k,
{
    if k == 0 {
        crate::ieee::POS_ZERO
    } else {
        crate::ieee::real_add(cum_prefix(rs, s, (k - 1) as nat), rate_eval(rs[k - 1].0, s))
    }
}

/// The table of cumulative propensities.
pub open spec fn cum_of(rs: Seq<(Rate, Jump)>, s: Seq<isize>) -> Seq<u64> {
    Seq::new(rs.len(), |j: int| cum_prefix(rs, s, (j + 1) as nat))
}

/// How many table entries are strictly below the threshold: the index
/// of the chosen reaction.
pub open spec fn count_below(cum: Seq<u64>, th: u64) -> nat
    decreases cum.len(),
{
    if cum.len() == 0 {
        0nat
    } else {
        count_below(cum.drop_last(), th) + (if crate::ieee::f_lt(cum.last(), th) {
            1nat
        } else {
            0nat
        })
    }
}

/// The chosen reaction index, kept in range (the count can only reach
/// the length on threshold values that a positive total cannot
/// produce).
pub open spec fn chosen_index(rs: Seq<(Rate, Jump)>, s: Seq<isize>, th: u64) -> nat {
    let cnt = count_below(cum_of(rs, s), th);
    if cnt < rs.len() {
        cnt
    } else if rs.len() == 0 {
        0nat
    } else {
        (rs.len() - 1) as nat
    }
}

/// One direct-method step of `advance_until`: the successor state and
/// whether the walk ended (no reaction possible, or horizon reached).
pub open spec fn until_step(st: EngineState, tmax: u64) -> (EngineState, bool) {
    let total = cum_prefix(st.reactions, st.species, st.reactions.len());
    if !crate::ieee::f_lt(crate::ieee::POS_ZERO, total) {
        (EngineState { t: tmax, ..st }, true)
    } else {
        let d1 = crate::rng::rng_next(st.rng);
        let dt = crate::ieee::real_div(crate::rng::exp1_of_word(d1.0), total)
            & crate::ieee::MAG_MASK;
        let t2 = crate::ieee::real_add(st.t, dt);
        if crate::ieee::f_lt(tmax, t2) {
            (EngineState { t: tmax, rng: d1.1, ..st }, true)
        } else {
            let d2 = crate::rng::rng_next(d1.1);
            let th = crate::ieee::real_mul(total, crate::rng::unit_of_word(d2.0));
            let j = chosen_index(st.reactions, st.species, th);
            (
                EngineState {
                    species: apply_jump(st.reactions[j as int].1, st.species),
                    t: t2,
                    rng: d2.1,
                    ..st
                },
                false,
            )
        }
    }
}

/// One bare direct-method step: on a non-positive total the time jumps
/// to +infinity; otherwise the sampled reaction fires unconditionally.
pub open spec fn one_step(st: EngineState) -> EngineState {
    let total = cum_prefix(st.reactions, st.species, st.reactions.len());
    if !crate::ieee::f_lt(crate::ieee::POS_ZERO, total) {
        EngineState { t: crate::ieee::POS_INF, ..st }
    } else {
        let d1 = crate::rng::rng_next(st.rng);
        let dt = crate::ieee::real_div(crate::rng::exp1_of_word(d1.0), total)
            & crate::ieee::MAG_MASK;
        let t2 = crate::ieee::real_add(st.t, dt);
        let d2 = crate::rng::rng_next(d1.1);
        let th = crate::ieee::real_mul(total, crate::rng::unit_of_word(d2.0));
        let j = chosen_index(st.reactions, st.species, th);
        EngineState {
            species: apply_jump(st.reactions[j as int].1, st.species),
            t: t2,
            rng: d2.1,
            ..st
        }
    }
}

/// The state that `advance_until` reaches: direct-method steps until
/// the horizon clamp or a dead system, within the given step budget.
pub open spec fn until_spec(st: EngineState, tmax: u64, fuel: nat) -> EngineState
    decreases fuel,
{
    if fuel == 0 {
        EngineState { t: tmax, ..st }
    } else {
        let sd = until_step(st, tmax);
        if sd.1 {
            sd.0
        } else {
            until_spec(sd.0, tmax, (fuel - 1) as nat)
        }
    }
}

/// The main structure: the species counts, the simulated time, the
/// reaction list, the seeded generator, and the storage mode for newly
/// added reactions.
#[derive(Clone, Debug)]
pub struct Gillespie {
    species: Vec<isize>,
    t: u64,
    reactions: Vec<(Rate, Jump)>,
    rng: rand::rngs::SmallRng,
    sparse: bool,
}

impl View for Gillespie {
    type V = EngineState;

    closed spec fn view(&self) -> EngineState {
        EngineState {
            species: self.species@,
            t: self.t,
            reactions: self.reactions@,
            rng: crate::rng::rng_state(self.rng),
        }
    }
}

impl Gillespie {
    /// Every reaction only references species indices below the number
    /// of species.
    pub open spec fn wf(&self) -> bool {
        forall|k: int|
            0 <= k < self@.reactions.len() ==> {
                &&& rate_below((#[trigger] self@.reactions[k]).0, self@.species.len() as nat)
                &&& jump_below(self@.reactions[k].1, self@.species.len() as nat)
            }
    }

    /// Whether newly added reactions are converted to sparse storage.
    pub closed spec fn sparse_mode(&self) -> bool {
        self.sparse
    }

    /// A fresh engine with the given initial counts, seeded from the
    /// operating system.
    pub fn new(species: &[isize], sparse: bool) -> (r: Gillespie)
        ensures
            r@.species == species@,
            r@.t == crate::ieee::POS_ZERO,
            r@.reactions.len() == 0,
            r.sparse_mode() == sparse,
            r.wf(),
    {
        Gillespie {
            species: slice_to_vec(species),
            t: crate::ieee::POS_ZERO,
            reactions: Vec::new(),
            rng: crate::rng::rng_from_entropy(),
            sparse,
        }
    }

    /// A fresh engine with the given initial counts and seed.
    pub fn new_with_seed(species: &[isize], sparse: bool, seed: u64) -> (r: Gillespie)
        ensures
            r@.species == species@,
            r@.t == crate::ieee::POS_ZERO,
            r@.reactions.len() == 0,
            r@.rng == crate::rng::seed_state(seed),
            r.sparse_mode() == sparse,
            r.wf(),
    {
        Gillespie {
            species: slice_to_vec(species),
            t: crate::ieee::POS_ZERO,
            reactions: Vec::new(),
            rng: crate::rng::rng_from_seed(seed),
            sparse,
        }
    }

    /// Reseed the generator.
    pub fn seed(&mut self, seed: u64)
        ensures
            final (self)@ == (EngineState { rng: crate::rng::seed_state(seed), ..old(self)@ }),
            final (self).sparse_mode() == old(self).sparse_mode(),
            old(self).wf() ==> final (self).wf(),
    {
        self.rng = crate::rng::rng_from_seed(seed);
        proof {
            assert(self@ =~= (EngineState { rng: crate::rng::seed_state(seed), ..old(self)@ }));
        }
    }

    /// The number of species.
    pub fn nb_species(&self) -> (r: usize)
        ensures
            r == self@.species.len(),
    {
        self.species.len()
    }

    /// The number of reactions.
    pub fn nb_reactions(&self) -> (r: usize)
        ensures
            r == self@.reactions.len(),
    {
        self.reactions.len()
    }

    /// Append a reaction, converting it to the configured storage form.
    /// The delta vector must have exactly one entry per species, and the
    /// rate may only reference existing species.
    pub fn add_reaction(&mut self, rate: Rate, differences: &[isize])
        requires
            old(self).wf(),
            differences@.len() == old(self)@.species.len(),
            rate_below(rate, old(self)@.species.len() as nat),
            rate matches Rate::LMA(_, e) ==> e@.len() == old(self)@.species.len(),
            rate matches Rate::LMA(_, e) ==> e@.len() <= u32::MAX,
        ensures
            final (self).wf(),
            final (self)@.species == old(self)@.species,
            final (self)@.t == old(self)@.t,
            final (self)@.rng == old(self)@.rng,
            final (self).sparse_mode() == old(self).sparse_mode(),
            final (self)@.reactions.len() == old(self)@.reactions.len() + 1,
            final (self)@.reactions.drop_last() == old(self)@.reactions,
            !old(self).sparse_mode() ==> {
                let added = final (self)@.reactions.last();
                &&& added.0 == rate
                &&& added.1 matches Jump::Flat(d) && d@ == differences@
            },
            old(self).sparse_mode() ==> {
                let added = final (self)@.reactions.last();
                &&& (match rate {
                    Rate::LMA(c, e) => added.0 matches Rate::LMASparse(c2, p) && c2 == c && p@
                        == rate_pairs(e@),
                    _ => added.0 == rate,
                })
                &&& added.1 matches Jump::Sparse(p) && p@ == flat_pairs(differences@)
            },
    {
        let jump = Jump::new(differences);
        if self.sparse {
            let r2 = rate.sparse();
            let j2 = jump.sparse();
            self.reactions.push((r2, j2));
        } else {
            self.reactions.push((rate, jump));
        }
        proof {
            assert(self@.reactions.drop_last() =~= old(self)@.reactions);
            assert forall|k: int| 0 <= k < self@.reactions.len() implies {
                &&& rate_below((#[trigger] self@.reactions[k]).0, self@.species.len() as nat)
                &&& jump_below(self@.reactions[k].1, self@.species.len() as nat)
            } by {
                if k < self@.reactions.len() - 1 {
                    assert(self@.reactions[k] == old(self)@.reactions[k]);
                    assert(rate_below(old(self)@.reactions[k].0, old(self)@.species.len() as nat));
                }
            }
        }
    }

    /// The current simulated time, as binary64 bits.
    pub fn get_time(&self) -> (r: u64)
        ensures
            r == self@.t,
    {
        self.t
    }

    /// Set the simulated time (binary64 bits).
    pub fn set_time(&mut self, t: u64)
        ensures
            final (self)@ == (EngineState { t: t, ..old(self)@ }),
            final (self).sparse_mode() == old(self).sparse_mode(),
            old(self).wf() ==> final (self).wf(),
    {
        self.t = t;
        proof {
            assert(self@ =~= (EngineState { t: t, ..old(self)@ }));
        }
    }

    /// The current count of one species.
    pub fn get_species(&self, s: usize) -> (r: isize)
        requires
            s < self@.species.len(),
        ensures
            r == self@.species[s as int],
    {
        self.species[s]
    }

    /// Replace the species counts; the length must not change.
    pub fn set_species(&mut self, species: &[isize])
        requires
            species@.len() == old(self)@.species.len(),
        ensures
            final (self)@ == (EngineState { species: species@, ..old(self)@ }),
            final (self).sparse_mode() == old(self).sparse_mode(),
            old(self).wf() ==> final (self).wf(),
    {
        self.species = slice_to_vec(species);
        proof {
            assert(self@ =~= (EngineState { species: species@, ..old(self)@ }));
        }
    }
}


fn make_cumrates(
    reactions: &Vec<(Rate, Jump)>,
    species: &Vec<isize>,
    cum_rates: &mut Vec<u64>,
) -> (total: u64)
    requires
        forall|k: int|
            0 <= k < reactions@.len() ==> rate_below(
                (#[trigger] reactions@[k]).0,
                species@.len() as nat,
            ),
        old(cum_rates)@.len() == reactions@.len(),
    ensures
        final (cum_rates)@ == cum_of(reactions@, species@),
        total == cum_prefix(reactions@, species@, reactions@.len() as nat),
{
    let mut total: u64 = crate::ieee::POS_ZERO;
    let mut k: usize = 0;
    while k < reactions.len()
        invariant
            k <= reactions@.len(),
            cum_rates@.len() == reactions@.len(),
            forall|j: int|
                0 <= j < reactions@.len() ==> rate_below(
                    (#[trigger] reactions@[j]).0,
                    species@.len() as nat,
                ),
            total == cum_prefix(reactions@, species@, k as nat),
            forall|j: int|
                0 <= j < k ==> cum_rates@[j] == cum_prefix(reactions@, species@, (j + 1) as nat),
        decreases reactions@.len() - k,
    {
        let r = reactions[k].0.rate(species);
        total = crate::ieee::add_bits(total, r);
        cum_rates.set(k, total);
        k += 1;
    }
    proof {
        assert(cum_rates@ =~= cum_of(reactions@, species@));
    }
    total
}

fn choose_cumrate_sum(chosen_rate: u64, cumrates: &Vec<u64>) -> (ir: usize)
    ensures
        ir as nat == count_below(cumrates@, chosen_rate),
        ir <= cumrates@.len(),
{
    let mut ir: usize = 0;
    let mut k: usize = 0;
    while k < cumrates.len()
        invariant
            k <= cumrates@.len(),
            ir <= k,
            ir as nat == count_below(cumrates@.take(k as int), chosen_rate),
        decreases cumrates@.len() - k,
    {
        proof {
            assert(cumrates@.take(k + 1).drop_last() =~= cumrates@.take(k as int));
            assert(cumrates@.take(k + 1).last() == cumrates@[k as int]);
        }
        if crate::ieee::lt_bits(cumrates[k], chosen_rate) {
            ir += 1;
        }
        k += 1;
    }
    proof {
        assert(cumrates@.take(cumrates@.len() as int) =~= cumrates@);
    }
    ir
}

impl Gillespie {
    /// One direct-method step, with a caller-supplied scratch table for
    /// the cumulative propensities.  If the total propensity is not
    /// positive, the time jumps to +infinity and nothing else changes.
    /// The time never moves backwards (third from last clause); a NaN
    /// time can only arise from an infinite waiting time at an infinite
    /// total propensity.
    pub fn _advance_one_reaction(&mut self, rates: &mut Vec<u64>)
        requires
            old(self).wf(),
            old(rates)@.len() == old(self)@.reactions.len(),
        ensures
            final (self)@ == one_step(old(self)@),
            final (self).wf(),
            final (self).sparse_mode() == old(self).sparse_mode(),
            final (self)@.reactions == old(self)@.reactions,
            final (self)@.species.len() == old(self)@.species.len(),
            final (rates)@ == cum_of(old(self)@.reactions, old(self)@.species),
            (!crate::ieee::is_nan(old(self)@.t) && !(crate::ieee::is_inf(old(self)@.t)
                && crate::ieee::sign_of(old(self)@.t))) ==> (crate::ieee::f_le(
                old(self)@.t,
                final (self)@.t,
            ) || crate::ieee::is_nan(final (self)@.t)),
    {
        let ghost st0 = self@;
        let total = make_cumrates(&self.reactions, &self.species, rates);
        if !crate::ieee::lt_bits(crate::ieee::POS_ZERO, total) {
            self.t = crate::ieee::POS_INF;
            proof {
                assert(self@ =~= one_step(st0));
                assert(crate::ieee::POS_INF & 0x8000_0000_0000_0000u64 == 0u64) by (bit_vector);
                assert(crate::ieee::POS_INF & 0x7FFF_FFFF_FFFF_FFFFu64
                    == 0x7FF0_0000_0000_0000u64) by (bit_vector);
            }
            return;
        }
        let e = crate::rng::rng_exp1(&mut self.rng);
        // the waiting time is a non-negative sample over a positive
        // total, so the quotient is non-negative or NaN; clearing the
        // sign bit makes the non-negativity structural
        let dq = crate::ieee::div_bits(e, total);
        let dt = dq & crate::ieee::MAG_MASK;
        let t2 = crate::ieee::add_bits(self.t, dt);
        proof {
            assert((dq & 0x7FFF_FFFF_FFFF_FFFFu64) & 0x8000_0000_0000_0000u64 == 0u64)
                by (bit_vector);
        }
        self.t = t2;
        let u = crate::rng::rng_unit(&mut self.rng);
        let chosen = crate::ieee::mul_bits(total, u);
        let mut ir = choose_cumrate_sum(chosen, rates);
        proof {
            if self.reactions@.len() == 0 {
                assert(total == crate::ieee::POS_ZERO);
                assert(false);
            }
        }
        // the threshold lies below the last cumulative entry, so the
        // count stays in range; keep it there structurally
        if ir >= self.reactions.len() {
            ir = self.reactions.len() - 1;
        }
        let pair = &self.reactions[ir];
        pair.1.affect(&mut self.species);
        proof {
            assert(ir as nat == chosen_index(st0.reactions, st0.species, chosen));
            assert(self@ =~= one_step(st0));
        }
    }

    /// One direct-method step, allocating its own scratch table.
    pub fn advance_one_reaction(&mut self)
        requires
            old(self).wf(),
        ensures
            final (self)@ == one_step(old(self)@),
            final (self).wf(),
            final (self).sparse_mode() == old(self).sparse_mode(),
            final (self)@.reactions == old(self)@.reactions,
            final (self)@.species.len() == old(self)@.species.len(),
            (!crate::ieee::is_nan(old(self)@.t) && !(crate::ieee::is_inf(old(self)@.t)
                && crate::ieee::sign_of(old(self)@.t))) ==> (crate::ieee::f_le(
                old(self)@.t,
                final (self)@.t,
            ) || crate::ieee::is_nan(final (self)@.t)),
    {
        let n = self.reactions.len();
        let mut rates: Vec<u64> = Vec::new();
        let mut i: usize = 0;
        while i < n
            invariant
                rates@.len() == i,
                i <= n,
            decreases n - i,
        {
            rates.push(crate::ieee::QNAN);
            i += 1;
        }
        self._advance_one_reaction(&mut rates);
    }

    /// Advance the simulation to the horizon `tmax` (binary64 bits):
    /// direct-method steps fire while the next sampled time stays at or
    /// before the horizon; then, or as soon as no reaction is possible,
    /// the time is clamped to exactly `tmax`.
    pub fn advance_until(&mut self, tmax: u64)
        requires
            old(self).wf(),
        ensures
            final (self)@ == until_spec(old(self)@, tmax, u64::MAX as nat),
            final (self)@.t == tmax,
            final (self).wf(),
            final (self).sparse_mode() == old(self).sparse_mode(),
            final (self)@.reactions == old(self)@.reactions,
            final (self)@.species.len() == old(self)@.species.len(),
            crate::ieee::f_le(old(self)@.t, tmax) ==> crate::ieee::f_le(
                old(self)@.t,
                final (self)@.t,
            ),
    {
        let n = self.reactions.len();
        let mut rates: Vec<u64> = Vec::new();
        let mut i: usize = 0;
        while i < n
            invariant
                rates@.len() == i,
                i <= n,
            decreases n - i,
        {
            rates.push(crate::ieee::QNAN);
            i += 1;
        }
        let mut fuel: u64 = u64::MAX;
        loop
            invariant
                self.wf(),
                rates@.len() == self@.reactions.len(),
                self@.reactions == old(self)@.reactions,
                self@.species.len() == old(self)@.species.len(),
                self.sparse_mode() == old(self).sparse_mode(),
                until_spec(old(self)@, tmax, u64::MAX as nat) == until_spec(
                    self@,
                    tmax,
                    fuel as nat,
                ),
            decreases fuel,
        {
            let ghost pre = self@;
            // the budget is far beyond any trajectory a machine could
            // take; if it ever ran out, the horizon clamp would still
            // hold
            if fuel == 0 {
                self.t = tmax;
                proof {
                    assert(self@ =~= (EngineState { t: tmax, ..pre }));
                }
                return;
            }
            let total = make_cumrates(&self.reactions, &self.species, &mut rates);
            if !crate::ieee::lt_bits(crate::ieee::POS_ZERO, total) {
                self.t = tmax;
                proof {
                    assert(self@ =~= until_step(pre, tmax).0);
                    assert(until_step(pre, tmax).1);
                }
                return;
            }
            let e = crate::rng::rng_exp1(&mut self.rng);
            // non-negative or NaN, as in the single-step routine
            let dq = crate::ieee::div_bits(e, total);
            let dt = dq & crate::ieee::MAG_MASK;
            let t2 = crate::ieee::add_bits(self.t, dt);
            if crate::ieee::lt_bits(tmax, t2) {
                self.t = tmax;
                proof {
                    assert(self@ =~= until_step(pre, tmax).0);
                    assert(until_step(pre, tmax).1);
                }
                return;
            }
            self.t = t2;
            let u = crate::rng::rng_unit(&mut self.rng);
            let chosen = crate::ieee::mul_bits(total, u);
            let mut ir = choose_cumrate_sum(chosen, &rates);
            proof {
                if self.reactions@.len() == 0 {
                    assert(total == crate::ieee::POS_ZERO);
                    assert(false);
                }
            }
            // in range for the same reason as in the single-step routine
            if ir >= self.reactions.len() {
                ir = self.reactions.len() - 1;
            }
            let pair = &self.reactions[ir];
            pair.1.affect(&mut self.species);
            proof {
                assert(ir as nat == chosen_index(pre.reactions, pre.species, chosen));
                assert(self@ =~= until_step(pre, tmax).0);
                assert(!until_step(pre, tmax).1);
            }
            fuel = fuel - 1;
        }
    }
}

// ---------------------------------------------------------------------
// Laws about the engine.
// ---------------------------------------------------------------------

/// Law (determinism): two engines in the same abstract state — same
/// species counts, same time, same reaction list, same generator state
/// — reach the same abstract state when advanced to the same horizon
/// with the same step budget.
pub proof fn lemma_determinism(a: EngineState, b: EngineState, tmax: u64, fuel: nat)
    requires
        a.species == b.species,
        a.t == b.t,
        a.reactions == b.reactions,
        a.rng == b.rng,
    ensures
        until_spec(a, tmax, fuel) == until_spec(b, tmax, fuel),
{
    assert(a =~= b);
}

proof fn lemma_cum_congruent(
    ra: Seq<(Rate, Jump)>,
    rb: Seq<(Rate, Jump)>,
    s: Seq<isize>,
    k: nat,
)
    requires
        ra.len() == rb.len(),
        k <= ra.len(),
        forall|j: int|
            0 <= j < ra.len() ==> rate_eval((#[trigger] rb[j]).0, s) == rate_eval(ra[j].0, s),
    ensures
        cum_prefix(rb, s, k) == cum_prefix(ra, s, k),
    decreases k,
{
    if k > 0 {
        lemma_cum_congruent(ra, rb, s, (k - 1) as nat);
    }
}

/// Law (storage invariance): two engines whose reaction lists agree
/// pairwise in propensity and in effect — as the dense and sparse
/// storage forms of one reaction list do — produce identical
/// trajectories from identical times, counts and seeds.
pub proof fn lemma_storage_invariance(a: EngineState, b: EngineState, tmax: u64, fuel: nat)
    requires
        b.species == a.species,
        b.t == a.t,
        b.rng == a.rng,
        b.reactions.len() == a.reactions.len(),
        forall|j: int, s: Seq<isize>|
            (0 <= j < a.reactions.len() && s.len() == a.species.len()) ==> #[trigger] rate_eval(
                b.reactions[j].0,
                s,
            ) == rate_eval(a.reactions[j].0, s),
        forall|j: int, s: Seq<isize>|
            (0 <= j < a.reactions.len() && s.len() == a.species.len()) ==> #[trigger] apply_jump(
                b.reactions[j].1,
                s,
            ) == apply_jump(a.reactions[j].1, s),
    ensures
        until_spec(b, tmax, fuel).species == until_spec(a, tmax, fuel).species,
        until_spec(b, tmax, fuel).t == until_spec(a, tmax, fuel).t,
        until_spec(b, tmax, fuel).rng == until_spec(a, tmax, fuel).rng,
    decreases fuel,
{
    if fuel > 0 {
        lemma_cum_congruent(a.reactions, b.reactions, a.species, a.reactions.len());
        assert(cum_of(b.reactions, b.species) =~= cum_of(a.reactions, a.species)) by {
            lemma_cum_congruent(a.reactions, b.reactions, a.species, a.reactions.len());
            assert forall|j: int| 0 <= j < a.reactions.len() implies #[trigger] cum_prefix(
                b.reactions,
                b.species,
                (j + 1) as nat,
            ) == cum_prefix(a.reactions, a.species, (j + 1) as nat) by {
                lemma_cum_congruent(a.reactions, b.reactions, a.species, (j + 1) as nat);
            }
        }
        let sa = until_step(a, tmax);
        let sb = until_step(b, tmax);
        assert(sa.1 == sb.1);
        assert(sb.0.species == sa.0.species && sb.0.t == sa.0.t && sb.0.rng == sa.0.rng
            && sb.0.reactions == b.reactions) by {
            let total = cum_prefix(a.reactions, a.species, a.reactions.len());
            if crate::ieee::f_lt(crate::ieee::POS_ZERO, total) {
                let d1 = crate::rng::rng_next(a.rng);
                let dt = crate::ieee::real_div(crate::rng::exp1_of_word(d1.0), total)
                    & crate::ieee::MAG_MASK;
                let t2 = crate::ieee::real_add(a.t, dt);
                if !crate::ieee::f_lt(tmax, t2) {
                    let d2 = crate::rng::rng_next(d1.1);
                    let th = crate::ieee::real_mul(total, crate::rng::unit_of_word(d2.0));
                    assert(chosen_index(b.reactions, b.species, th) == chosen_index(
                        a.reactions,
                        a.species,
                        th,
                    ));
                    let j = chosen_index(a.reactions, a.species, th);
                    assert(apply_jump(b.reactions[j as int].1, b.species) == apply_jump(
                        a.reactions[j as int].1,
                        a.species,
                    ));
                }
            }
        }
        if !sa.1 {
            assert(sa.0.species.len() == a.species.len() && sb.0.species.len() == a.species.len())
                by {
                let total = cum_prefix(a.reactions, a.species, a.reactions.len());
                let d1 = crate::rng::rng_next(a.rng);
                let d2 = crate::rng::rng_next(d1.1);
                let th = crate::ieee::real_mul(
                    total,
                    crate::rng::unit_of_word(d2.0),
                );
                let j = chosen_index(a.reactions, a.species, th);
                match a.reactions[j as int].1 {
                    Jump::Flat(d) => {},
                    Jump::Sparse(p) => {
                        lemma_apply_deltas_len(a.species, p@);
                    },
                }
                match b.reactions[j as int].1 {
                    Jump::Flat(d) => {},
                    Jump::Sparse(p) => {
                        lemma_apply_deltas_len(b.species, p@);
                    },
                }
            }
            lemma_storage_invariance(sa.0, sb.0, tmax, (fuel - 1) as nat);
        }
    }
}


proof fn lemma_dense_factors_agree(s: Seq<isize>, e1: Seq<u32>, e2: Seq<u32>, k: nat)
    requires
        k <= e1.len(),
        k <= e2.len(),
        forall|i: int| 0 <= i < k ==> e1[i] == e2[i],
    ensures
        dense_factors(s, e1, k) == dense_factors(s, e2, k),
    decreases k,
{
    if k > 0 {
        lemma_dense_factors_agree(s, e1, e2, (k - 1) as nat);
    }
}

proof fn lemma_sparse_factors_agree(s: Seq<isize>, p1: Seq<(u32, u32)>, p2: Seq<(u32, u32)>, k: nat)
    requires
        k <= p1.len(),
        k <= p2.len(),
        forall|i: int| 0 <= i < k ==> p1[i] == p2[i],
    ensures
        sparse_factors(s, p1, k) == sparse_factors(s, p2, k),
    decreases k,
{
    if k > 0 {
        lemma_sparse_factors_agree(s, p1, p2, (k - 1) as nat);
    }
}

/// Law (rate conversion): converting a dense law-of-mass-action rate to
/// its sparse storage form leaves the propensity bit-identical on every
/// species vector, because the very same factors are multiplied in the
/// same order (zero exponents contribute no factor).
pub proof fn lemma_rate_sparse_factors(s: Seq<isize>, exps: Seq<u32>)
    requires
        exps.len() <= s.len(),
        exps.len() <= u32::MAX,
    ensures
        sparse_factors(s, rate_pairs(exps), rate_pairs(exps).len()) == dense_factors(
            s,
            exps,
            min_len(s.len(), exps.len()),
        ),
    decreases exps.len(),
{
    if exps.len() == 0 {
        assert(sparse_factors(s, rate_pairs(exps), 0) =~= dense_factors(s, exps, 0));
    } else {
        let e2 = exps.drop_last();
        let q = rate_pairs(e2);
        lemma_rate_sparse_factors(s, e2);
        lemma_dense_factors_agree(s, e2, exps, e2.len());
        let n = exps.len();
        assert(min_len(s.len(), n as nat) == n as nat);
        assert(min_len(s.len(), e2.len()) == e2.len());
        assert(dense_factors(s, exps, n as nat) == dense_factors(s, exps, (n - 1) as nat)
            + ff_factors(s[n - 1], exps[n - 1]));
        if exps.last() != 0 {
            let pr = (((n - 1) as u32), exps.last());
            assert(rate_pairs(exps) == q.push(pr));
            assert(q.push(pr).drop_last() =~= q);
            assert(q.push(pr).last() == pr);
            assert(sparse_factors(s, q.push(pr), q.len() + 1) == sparse_factors(
                s,
                q.push(pr),
                q.len(),
            ) + ff_factors(s[pr.0 as int], pr.1));
            lemma_sparse_factors_agree(s, q.push(pr), q, q.len());
            assert(pr.0 as int == n - 1);
        } else {
            assert(rate_pairs(exps) == q);
            assert(ff_factors(s[n - 1], exps[n - 1]) =~= Seq::<int>::empty());
            assert(dense_factors(s, exps, n as nat) =~= dense_factors(s, exps, (n - 1) as nat));
        }
    }
}

/// Law (conservation over a step): a linear combination of the species
/// whose coefficients are orthogonal to every reaction's deltas is
/// unchanged by a direct-method step, as long as no count wraps around
/// the machine word.
pub proof fn lemma_step_conservation(c: Seq<int>, st: EngineState)
    requires
        c.len() == st.species.len(),
        forall|j: int|
            0 <= j < st.reactions.len() ==> jump_below(
                (#[trigger] st.reactions[j]).1,
                st.species.len() as nat,
            ),
        forall|j: int|
            0 <= j < st.reactions.len() ==> weighted_delta(c, (#[trigger] st.reactions[j]).1) == 0,
        forall|j: int, i: int|
            0 <= j < st.reactions.len() && 0 <= i < st.species.len() ==> isize::MIN <= st.species[i]
                + #[trigger] delta_of(st.reactions[j].1, i) <= isize::MAX,
    ensures
        dot(c, one_step(st).species) == dot(c, st.species),
{
    let total = cum_prefix(st.reactions, st.species, st.reactions.len());
    if crate::ieee::f_lt(crate::ieee::POS_ZERO, total) {
        if st.reactions.len() == 0 {
            assert(total == crate::ieee::POS_ZERO);
            assert(false);
        }
        let d1 = crate::rng::rng_next(st.rng);
        let d2 = crate::rng::rng_next(d1.1);
        let th = crate::ieee::real_mul(total, crate::rng::unit_of_word(d2.0));
        let j = chosen_index(st.reactions, st.species, th);
        assert(0 <= j < st.reactions.len());
        assert forall|i: int|
            0 <= i < st.species.len() implies isize::MIN <= st.species[i] + #[trigger] delta_of(
            st.reactions[j as int].1,
            i,
        ) <= isize::MAX by {
            assert(0 <= (j as int) < st.reactions.len());
        }
        lemma_conservation(c, st.reactions[j as int].1, st.species);
    }
}


/// Pair indices are strictly ascending (sorted, no duplicates), as the
/// sparse storage form produces them.
pub open spec fn pairs_ascending(p: Seq<(u32, u32)>) -> bool {
    forall|k1: int, k2: int|
        0 <= k1 < k2 < p.len() ==> (#[trigger] p[k1]).0 < (#[trigger] p[k2]).0
}

/// The exponent the pairs give to index `i` (0 when absent; ascending
/// pairs mention an index at most once).
pub open spec fn exps_at(p: Seq<(u32, u32)>, i: int) -> int
    decreases p.len(),
{
    if p.len() == 0 {
        0
    } else {
        exps_at(p.drop_last(), i) + (if p.last().0 == i {
            p.last().1 as int
        } else {
            0
        })
    }
}

proof fn lemma_exps_at_absent(p: Seq<(u32, u32)>, i: int)
    requires
        forall|k: int| 0 <= k < p.len() ==> (#[trigger] p[k]).0 != i,
    ensures
        exps_at(p, i) == 0,
    decreases p.len(),
{
    if p.len() > 0 {
        let q = p.drop_last();
        assert forall|k: int| 0 <= k < q.len() implies (#[trigger] q[k]).0 != i by {
            assert(q[k] == p[k]);
        }
        lemma_exps_at_absent(q, i);
        assert(p[p.len() - 1].0 != i);
    }
}

/// Accumulating ascending pairs into a zero vector puts each exponent
/// at its own index, exactly.
proof fn lemma_rate_accum_at(z: Seq<u32>, p: Seq<(u32, u32)>, i: int)
    requires
        pairs_ascending(p),
        rate_pairs_below(p, z.len() as nat),
        forall|t: int| 0 <= t < z.len() ==> z[t] == 0u32,
        0 <= i < z.len(),
        0 <= exps_at(p, i) <= u32::MAX,
    ensures
        rate_accum(z, p)[i] == exps_at(p, i),
    decreases p.len(),
{
    lemma_rate_accum_len(z, p);
    if p.len() == 0 {
    } else {
        let q = p.drop_last();
        let pr = p.last();
        assert(pairs_ascending(q) && rate_pairs_below(q, z.len() as nat)) by {
            assert forall|k1: int, k2: int|
                0 <= k1 < k2 < q.len() implies (#[trigger] q[k1]).0 < (#[trigger] q[k2]).0 by {
                assert(q[k1] == p[k1] && q[k2] == p[k2]);
            }
            assert forall|k: int| 0 <= k < q.len() implies ((#[trigger] q[k]).0 as nat)
                < z.len() by {
                assert(q[k] == p[k]);
            }
        }
        lemma_rate_accum_len(z, q);
        if pr.0 == i {
            // ascending pairs never mention i before the last one
            assert forall|k: int| 0 <= k < q.len() implies (#[trigger] q[k]).0 != i by {
                assert(q[k] == p[k]);
                assert(p[k].0 < p[p.len() - 1].0);
            }
            lemma_exps_at_absent(q, i);
            assert(0 <= exps_at(q, i) <= u32::MAX);
            lemma_rate_accum_at(z, q, i);
            assert(rate_accum(z, q)[i] == 0);
            assert(vstd::wrapping::u32_specs::wrapping_add(0u32, pr.1) == pr.1);
        } else {
            assert(exps_at(p, i) == exps_at(q, i));
            lemma_rate_accum_at(z, q, i);
        }
    }
}

proof fn lemma_exps_at_bounded(p: Seq<(u32, u32)>, i: int)
    requires
        pairs_ascending(p),
    ensures
        0 <= exps_at(p, i) <= u32::MAX,
    decreases p.len(),
{
    if p.len() > 0 {
        let q = p.drop_last();
        assert forall|k1: int, k2: int|
            0 <= k1 < k2 < q.len() implies (#[trigger] q[k1]).0 < (#[trigger] q[k2]).0 by {
            assert(q[k1] == p[k1] && q[k2] == p[k2]);
        }
        lemma_exps_at_bounded(q, i);
        if p.last().0 == i {
            assert forall|k: int| 0 <= k < q.len() implies (#[trigger] q[k]).0 != i by {
                assert(q[k] == p[k]);
                assert(p[k].0 < p[p.len() - 1].0);
            }
            lemma_exps_at_absent(q, i);
        }
    }
}

/// Dense factor blocks over zero exponents contribute nothing: the
/// factors up to `k` equal the factors of a shorter agreeing vector.
proof fn lemma_dense_factors_zero_tail(
    s: Seq<isize>,
    d: Seq<u32>,
    d2: Seq<u32>,
    k: nat,
    k2: nat,
)
    requires
        k2 <= k,
        k <= d.len(),
        k2 <= d2.len(),
        forall|i: int| 0 <= i < k2 ==> d[i] == d2[i],
        forall|i: int| k2 <= i < k ==> d[i] == 0u32,
    ensures
        dense_factors(s, d, k) == dense_factors(s, d2, k2),
    decreases k,
{
    if k == k2 {
        lemma_dense_factors_agree(s, d, d2, k);
    } else {
        lemma_dense_factors_zero_tail(s, d, d2, (k - 1) as nat, k2);
        assert(ff_factors(s[k - 1], 0u32) =~= Seq::<int>::empty());
        assert(dense_factors(s, d, k) =~= dense_factors(s, d, (k - 1) as nat));
    }
}

/// Law (rate conversion, dense): converting a sparse
/// law-of-mass-action rate with strictly ascending indices to its dense
/// storage form leaves the propensity bit-identical on every species
/// vector, because the same factors are multiplied in the same order.
pub proof fn lemma_rate_dense_factors(s: Seq<isize>, p: Seq<(u32, u32)>)
    requires
        pairs_ascending(p),
        rate_pairs_below(p, s.len() as nat),
        rate_pairs_width(p) <= s.len(),
    ensures
        dense_factors(
            s,
            rate_accum(Seq::new(rate_pairs_width(p), |i: int| 0u32), p),
            rate_pairs_width(p),
        ) == sparse_factors(s, p, p.len()),
    decreases p.len(),
{
    let w = rate_pairs_width(p);
    let z = Seq::new(w, |i: int| 0u32);
    let dd = rate_accum(z, p);
    lemma_rate_accum_len(z, p);
    lemma_rate_pairs_width_bounds(p);
    if p.len() == 0 {
        assert(dense_factors(s, dd, 0) =~= sparse_factors(s, p, 0));
    } else {
        let q = p.drop_last();
        let pr = p.last();
        assert(pairs_ascending(q) && rate_pairs_below(q, s.len() as nat)) by {
            assert forall|k1: int, k2: int|
                0 <= k1 < k2 < q.len() implies (#[trigger] q[k1]).0 < (#[trigger] q[k2]).0 by {
                assert(q[k1] == p[k1] && q[k2] == p[k2]);
            }
            assert forall|k: int| 0 <= k < q.len() implies ((#[trigger] q[k]).0 as nat)
                < s.len() by {
                assert(q[k] == p[k]);
            }
        }
        let wq = rate_pairs_width(q);
        assert(w == pr.0 + 1) by {
            lemma_rate_pairs_width_bounds(q);
            assert forall|k: int| 0 <= k < q.len() implies ((#[trigger] q[k]).0 as nat)
                < pr.0 as nat + 1 by {
                assert(q[k] == p[k]);
                assert(p[k].0 < p[p.len() - 1].0);
            }
            lemma_width_of_bounded(q, (pr.0 + 1) as nat);
        }
        assert(wq <= pr.0 as nat) by {
            lemma_rate_pairs_width_bounds(q);
            assert forall|k: int| 0 <= k < q.len() implies ((#[trigger] q[k]).0 as nat)
                < pr.0 as nat by {
                assert(q[k] == p[k]);
                assert(p[k].0 < p[p.len() - 1].0);
            }
            lemma_width_of_bounded(q, pr.0 as nat);
        }
        let zq = Seq::new(wq, |i: int| 0u32);
        let dq = rate_accum(zq, q);
        lemma_rate_accum_len(zq, q);
        lemma_rate_dense_factors(s, q);
        // the accumulated vectors agree below wq and are zero up to pr.0
        assert forall|i: int| 0 <= i < wq implies dd[i] == dq[i] by {
            lemma_exps_at_bounded(q, i);
            assert(exps_at(p, i) == exps_at(q, i)) by {
                assert(p[p.len() - 1].0 >= w - 1 >= wq);
            }
            lemma_rate_accum_at(z, p, i);
            lemma_rate_accum_at(zq, q, i);
        }
        assert forall|i: int| wq <= i < pr.0 implies dd[i] == 0u32 by {
            assert forall|k: int| 0 <= k < p.len() implies (#[trigger] p[k]).0 != i by {
                if k < p.len() - 1 {
                    assert(p[k] == q[k]);
                    lemma_rate_pairs_width_bounds(q);
                    assert((q[k].0 as nat) < wq);
                }
            }
            lemma_exps_at_absent(p, i);
            lemma_exps_at_bounded(p, i);
            lemma_rate_accum_at(z, p, i);
        }
        assert(dd[pr.0 as int] == pr.1) by {
            assert forall|k: int| 0 <= k < q.len() implies (#[trigger] q[k]).0 != pr.0 as int by {
                assert(q[k] == p[k]);
                assert(p[k].0 < p[p.len() - 1].0);
            }
            lemma_exps_at_absent(q, pr.0 as int);
            assert(exps_at(p, pr.0 as int) == pr.1 as int);
            lemma_rate_accum_at(z, p, pr.0 as int);
        }
        assert(dense_factors(s, dd, w) == dense_factors(s, dd, (w - 1) as nat) + ff_factors(
            s[pr.0 as int],
            dd[pr.0 as int],
        ));
        lemma_dense_factors_zero_tail(s, dd, dq, (w - 1) as nat, wq);
        assert(sparse_factors(s, p, p.len()) == sparse_factors(s, p, (p.len() - 1) as nat)
            + ff_factors(s[pr.0 as int], pr.1));
        lemma_sparse_factors_agree(s, p, q, q.len());
    }
}

proof fn lemma_width_of_bounded(p: Seq<(u32, u32)>, n: nat)
    requires
        rate_pairs_below(p, n),
    ensures
        rate_pairs_width(p) <= n,
    decreases p.len(),
{
    if p.len() > 0 {
        let q = p.drop_last();
        assert forall|k: int| 0 <= k < q.len() implies ((#[trigger] q[k]).0 as nat) < n by {
            assert(q[k] == p[k]);
        }
        lemma_width_of_bounded(q, n);
        assert(p[p.len() - 1].0 < n);
    }
}


proof fn lemma_crop_mod(v: int)
    ensures
        (crop(v) as int) % word_range() == v % word_range(),
{
    let r = word_range();
    vstd::arithmetic::div_mod::lemma_mod_sub_multiples_vanish(v % r, r);
    vstd::arithmetic::div_mod::lemma_mod_twice(v, r);
}

proof fn lemma_dot_mod_shift(c: Seq<int>, x: Seq<isize>, y: Seq<isize>, j: Jump)
    requires
        c.len() == x.len(),
        y.len() == x.len(),
        forall|i: int| 0 <= i < x.len() ==> y[i] == crop(x[i] + #[trigger] delta_of(j, i)),
    ensures
        dot(c, y) % word_range() == (dot(c, x) + weighted_delta(c, j)) % word_range(),
    decreases c.len(),
{
    let w = word_range();
    if c.len() == 0 {
    } else {
        let n = c.len() - 1;
        assert forall|i: int|
            0 <= i < x.drop_last().len() implies y.drop_last()[i] == crop(
            x.drop_last()[i] + #[trigger] delta_of(j, i),
        ) by {
            assert(y.drop_last()[i] == y[i]);
            assert(x.drop_last()[i] == x[i]);
        }
        lemma_dot_mod_shift(c.drop_last(), x.drop_last(), y.drop_last(), j);
        let dp = dot(c.drop_last(), y.drop_last());
        let dq = dot(c.drop_last(), x.drop_last()) + weighted_delta(c.drop_last(), j);
        let cl = c.last();
        let yl = y.last() as int;
        let xl = x.last() as int;
        let dl = delta_of(j, n);
        assert(y[n] == crop(x[n] + delta_of(j, n)));
        assert(yl % w == (xl + dl) % w) by {
            lemma_crop_mod(xl + dl);
        }
        assert((cl * yl) % w == (cl * (xl + dl)) % w) by {
            vstd::arithmetic::div_mod::lemma_mul_mod_noop_right(cl, yl, w);
            vstd::arithmetic::div_mod::lemma_mul_mod_noop_right(cl, xl + dl, w);
        }
        assert(dot(c, y) == dp + cl * yl);
        assert(dot(c, x) + weighted_delta(c, j) == dq + cl * (xl + dl)) by {
            assert(cl * (xl + dl) == cl * xl + cl * dl) by (nonlinear_arith);
        }
        assert((dp + cl * yl) % w == (dq + cl * (xl + dl)) % w) by {
            vstd::arithmetic::div_mod::lemma_add_mod_noop(dp, cl * yl, w);
            vstd::arithmetic::div_mod::lemma_add_mod_noop(dq, cl * (xl + dl), w);
            assert((dp % w + (cl * yl) % w) % w == (dq % w + (cl * (xl + dl)) % w) % w);
        }
    }
}

/// Law (conservation, one jump, no side condition): a linear
/// combination orthogonal to a jump's deltas is unchanged by the jump,
/// modulo the machine word — even if an entry wraps.
pub proof fn lemma_conservation_mod(c: Seq<int>, j: Jump, s: Seq<isize>)
    requires
        c.len() == s.len(),
        jump_below(j, s.len() as nat),
        weighted_delta(c, j) == 0,
    ensures
        dot(c, apply_jump(j, s)) % word_range() == dot(c, s) % word_range(),
{
    let y = apply_jump(j, s);
    assert forall|i: int| 0 <= i < s.len() implies y[i] == crop(
        s[i] + #[trigger] delta_of(j, i),
    ) by {
        match j {
            Jump::Flat(d) => {
                if i < d@.len() {
                    assert(delta_of(j, i) == d@[i] as int);
                    lemma_wadd_is_crop(s[i], d@[i]);
                } else {
                    assert(delta_of(j, i) == 0);
                    lemma_crop_id(s[i] as int);
                }
            },
            Jump::Sparse(p) => {
                assert(delta_of(j, i) == delta_sum(p@, i));
                lemma_apply_deltas_pointwise(s, p@);
            },
        }
    }
    match j {
        Jump::Flat(_) => {},
        Jump::Sparse(p) => {
            lemma_apply_deltas_len(s, p@);
        },
    }
    lemma_dot_mod_shift(c, s, y, j);
}

/// Law (conservation along a whole run): a linear combination of the
/// species orthogonal to every reaction's deltas is unchanged, modulo
/// the machine word, by `advance_until`'s entire walk — and therefore
/// exactly unchanged whenever no count wraps.
pub proof fn lemma_until_conservation(c: Seq<int>, st: EngineState, tmax: u64, fuel: nat)
    requires
        c.len() == st.species.len(),
        forall|k: int|
            0 <= k < st.reactions.len() ==> jump_below(
                (#[trigger] st.reactions[k]).1,
                st.species.len() as nat,
            ),
        forall|k: int|
            0 <= k < st.reactions.len() ==> weighted_delta(c, (#[trigger] st.reactions[k]).1) == 0,
    ensures
        dot(c, until_spec(st, tmax, fuel).species) % word_range() == dot(c, st.species)
            % word_range(),
    decreases fuel,
{
    if fuel > 0 {
        let sd = until_step(st, tmax);
        if !sd.1 {
            let total = cum_prefix(st.reactions, st.species, st.reactions.len());
            let d1 = crate::rng::rng_next(st.rng);
            let d2 = crate::rng::rng_next(d1.1);
            let th = crate::ieee::real_mul(total, crate::rng::unit_of_word(d2.0));
            let j = chosen_index(st.reactions, st.species, th);
            if st.reactions.len() == 0 {
                assert(total == crate::ieee::POS_ZERO);
                assert(false);
            }
            assert(0 <= (j as int) < st.reactions.len());
            lemma_conservation_mod(c, st.reactions[j as int].1, st.species);
            assert(sd.0.species.len() == st.species.len()) by {
                match st.reactions[j as int].1 {
                    Jump::Flat(_) => {},
                    Jump::Sparse(p) => {
                        lemma_apply_deltas_len(st.species, p@);
                    },
                }
            }
            lemma_until_conservation(c, sd.0, tmax, (fuel - 1) as nat);
        }
    }
}


/// Law (storage forms agree): a reaction converted to sparse storage —
/// the shapes `add_reaction` produces in sparse mode — has the same
/// propensity and the same effect as its dense form on every species
/// vector of the engine's width.
pub proof fn lemma_converted_reaction_equiv(
    c: u64,
    exps: Seq<u32>,
    d: Seq<isize>,
    ra: Rate,
    rb: Rate,
    ja: Jump,
    jb: Jump,
    s: Seq<isize>,
)
    requires
        ra matches Rate::LMA(c0, e0) && c0 == c && e0@ == exps,
        rb matches Rate::LMASparse(c1, p1) && c1 == c && p1@ == rate_pairs(exps),
        ja matches Jump::Flat(d0) && d0@ == d,
        jb matches Jump::Sparse(q1) && q1@ == flat_pairs(d),
        exps.len() == s.len(),
        exps.len() <= u32::MAX,
        d.len() == s.len(),
        d.len() <= usize::MAX,
    ensures
        rate_eval(rb, s) == rate_eval(ra, s),
        apply_jump(jb, s) == apply_jump(ja, s),
{
    lemma_rate_sparse_factors(s, exps);
    lemma_jump_sparse_equiv(d, s);
}


/// The reaction index one direct-method step would fire from this
/// state (meaningful when the total propensity is positive).
pub open spec fn step_choice(st: EngineState) -> nat {
    let total = cum_prefix(st.reactions, st.species, st.reactions.len());
    let d1 = crate::rng::rng_next(st.rng);
    let d2 = crate::rng::rng_next(d1.1);
    let th = crate::ieee::real_mul(total, crate::rng::unit_of_word(d2.0));
    chosen_index(st.reactions, st.species, th)
}

/// Along the whole walk to the horizon, no species count ever wraps:
/// at every step that fires, the chosen jump moves every count within
/// the machine bounds.
pub open spec fn no_wrap_walk(st: EngineState, tmax: u64, fuel: nat) -> bool
    decreases fuel,
{
    if fuel == 0 {
        true
    } else {
        let sd = until_step(st, tmax);
        if sd.1 {
            true
        } else {
            &&& (forall|i: int|
                0 <= i < st.species.len() ==> isize::MIN <= st.species[i] + #[trigger] delta_of(
                    st.reactions[step_choice(st) as int].1,
                    i,
                ) <= isize::MAX)
            &&& no_wrap_walk(sd.0, tmax, (fuel - 1) as nat)
        }
    }
}

/// Law (conservation, exact, whole walk): a linear combination of the
/// species orthogonal to every reaction's deltas is exactly unchanged
/// by `advance_until`'s entire walk, provided no count wraps at any
/// step (`no_wrap_walk`) — the form in which conservation is usually
/// read, with the wrap-free proviso made explicit.
pub proof fn lemma_until_conservation_exact(c: Seq<int>, st: EngineState, tmax: u64, fuel: nat)
    requires
        c.len() == st.species.len(),
        forall|k: int|
            0 <= k < st.reactions.len() ==> jump_below(
                (#[trigger] st.reactions[k]).1,
                st.species.len() as nat,
            ),
        forall|k: int|
            0 <= k < st.reactions.len() ==> weighted_delta(c, (#[trigger] st.reactions[k]).1) == 0,
        no_wrap_walk(st, tmax, fuel),
    ensures
        dot(c, until_spec(st, tmax, fuel).species) == dot(c, st.species),
    decreases fuel,
{
    if fuel > 0 {
        let sd = until_step(st, tmax);
        if !sd.1 {
            let j = step_choice(st);
            if st.reactions.len() == 0 {
                assert(cum_prefix(st.reactions, st.species, st.reactions.len())
                    == crate::ieee::POS_ZERO);
                assert(false);
            }
            assert(0 <= (j as int) < st.reactions.len());
            assert(sd.0.species == apply_jump(st.reactions[j as int].1, st.species));
            lemma_conservation(c, st.reactions[j as int].1, st.species);
            assert(sd.0.species.len() == st.species.len()) by {
                match st.reactions[j as int].1 {
                    Jump::Flat(_) => {},
                    Jump::Sparse(p) => {
                        lemma_apply_deltas_len(st.species, p@);
                    },
                }
            }
            lemma_until_conservation_exact(c, sd.0, tmax, (fuel - 1) as nat);
        }
    }
}

} // verus!

