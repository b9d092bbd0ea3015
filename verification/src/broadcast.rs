//! Replication and its dual reduction: `broadcast_to` expands a tensor into
//! a larger right-aligned shape by repeating blocks, `sum_to` folds those
//! blocks back together with wrapping addition.  Both are specified by one
//! structural recursion over the leading axis.

use vstd::prelude::*;

use crate::shape::{expandable, padded, product};
use crate::tensor_ops::{ew_bin, BinOp};
use crate::Error;

verus! {

/// `n` copies of `d`, one after the other.
pub open spec fn repeat_seq(d: Seq<i64>, n: nat) -> Seq<i64>
    decreases n,
{
    if n == 0 {
        Seq::empty()
    } else {
        repeat_seq(d, (n - 1) as nat) + d
    }
}

/// A buffer of `n` zeros (empty when `n` is negative).
pub open spec fn zeros_seq(n: int) -> Seq<i64> {
    Seq::new(if n >= 0 {
        n as nat
    } else {
        0
    }, |i: int| 0i64)
}

/// The data of a tensor of shape `s` expanded to shape `t` (meaningful when
/// `expandable(s, t)` holds and `d` has `product(s)` elements).  A missing or
/// size-1 leading axis replicates the remainder; a matching leading axis
/// expands each of its blocks in place.
pub open spec fn bcast_data(d: Seq<i64>, s: Seq<usize>, t: Seq<usize>) -> Seq<i64>
    decreases t.len(), 0nat,
{
    if t.len() == 0 {
        d
    } else if s.len() < t.len() {
        repeat_seq(bcast_data(d, s, t.skip(1)), t[0] as nat)
    } else if s[0] == t[0] {
        bcast_blocks(d, s[0] as nat, product(s.skip(1)), s.skip(1), t.skip(1))
    } else {
        repeat_seq(bcast_data(d, s.skip(1), t.skip(1)), t[0] as nat)
    }
}

/// The first `j` blocks of `d` (each `bs` elements) expanded and
/// concatenated.
pub open spec fn bcast_blocks(d: Seq<i64>, j: nat, bs: int, s: Seq<usize>, t: Seq<usize>) -> Seq<
    i64,
>
    decreases t.len(), j,
{
    if j == 0 {
        Seq::empty()
    } else {
        bcast_blocks(d, (j - 1) as nat, bs, s, t) + bcast_data(
            d.subrange((j - 1) * bs, (j - 1) * bs + bs),
            s,
            t,
        )
    }
}

/// The data of a tensor of shape `s` summed down to shape `t` (meaningful
/// when `expandable(t, s)` holds and `d` has `product(s)` elements).  A
/// leading axis absent from the target, or present at size 1, folds its
/// blocks together with wrapping addition; a matching axis reduces each
/// block in place.
pub open spec fn sum_to_data(d: Seq<i64>, s: Seq<usize>, t: Seq<usize>) -> Seq<i64>
    decreases s.len(), 0nat,
{
    if s.len() == 0 {
        d
    } else if t.len() < s.len() {
        sum_blocks(d, s[0] as nat, product(s.skip(1)), s.skip(1), t)
    } else if s[0] == t[0] {
        cat_blocks(d, s[0] as nat, product(s.skip(1)), s.skip(1), t.skip(1))
    } else {
        sum_blocks(d, s[0] as nat, product(s.skip(1)), s.skip(1), t.skip(1))
    }
}

/// The reductions of the first `j` blocks of `d`, folded together
/// elementwise with wrapping addition, starting from zeros.
pub open spec fn sum_blocks(d: Seq<i64>, j: nat, bs: int, s: Seq<usize>, t: Seq<usize>) -> Seq<i64>
    decreases s.len(), j,
{
    if j == 0 {
        zeros_seq(product(t))
    } else {
        ew_bin(
            BinOp::Add,
            sum_blocks(d, (j - 1) as nat, bs, s, t),
            sum_to_data(d.subrange((j - 1) * bs, (j - 1) * bs + bs), s, t),
        )
    }
}

/// The reductions of the first `j` blocks of `d`, concatenated.
pub open spec fn cat_blocks(d: Seq<i64>, j: nat, bs: int, s: Seq<usize>, t: Seq<usize>) -> Seq<i64>
    decreases s.len(), j,
{
    if j == 0 {
        Seq::empty()
    } else {
        cat_blocks(d, (j - 1) as nat, bs, s, t) + sum_to_data(
            d.subrange((j - 1) * bs, (j - 1) * bs + bs),
            s,
            t,
        )
    }
}

pub proof fn lemma_repeat_len(d: Seq<i64>, n: nat)
    ensures
        repeat_seq(d, n).len() == n * d.len(),
    decreases n,
{
    if n == 0 {
        assert(0nat * d.len() == 0) by (nonlinear_arith);
    } else {
        lemma_repeat_len(d, (n - 1) as nat);
        assert((n - 1) * d.len() + d.len() == n * d.len()) by (nonlinear_arith);
    }
}

/// Expansion multiplies the element count up to exactly `product(t)`.
pub proof fn lemma_bcast_len(d: Seq<i64>, s: Seq<usize>, t: Seq<usize>)
    requires
        expandable(s, t),
        d.len() == product(s),
    ensures
        bcast_data(d, s, t).len() == product(t),
    decreases t.len(), 0nat,
{
    crate::shape::lemma_product_nonneg(t);
    if t.len() == 0 {
        assert(s.len() == 0);
    } else if s.len() < t.len() {
        crate::shape::lemma_expandable_skip_lt(s, t);
        lemma_bcast_len(d, s, t.skip(1));
        lemma_repeat_len(bcast_data(d, s, t.skip(1)), t[0] as nat);
        assert(product(t) == t[0] * product(t.skip(1)));
    } else {
        crate::shape::lemma_expandable_skip_eq(s, t);
        crate::shape::lemma_product_nonneg(s.skip(1));
        if s[0] == t[0] {
            lemma_bcast_blocks_len(d, s[0] as nat, product(s.skip(1)), s.skip(1), t.skip(1));
            assert(product(s) == s[0] * product(s.skip(1)));
            assert(product(t) == t[0] * product(t.skip(1)));
        } else {
            assert(s[0] == 1);
            assert(product(s) == 1 * product(s.skip(1)));
            assert(d.subrange(0, product(s.skip(1))) =~= d);
            lemma_bcast_len(d, s.skip(1), t.skip(1));
            lemma_repeat_len(bcast_data(d, s.skip(1), t.skip(1)), t[0] as nat);
            assert(product(t) == t[0] * product(t.skip(1)));
        }
    }
}

proof fn lemma_bcast_blocks_len(d: Seq<i64>, j: nat, bs: int, s: Seq<usize>, t: Seq<usize>)
    requires
        expandable(s, t),
        bs == product(s),
        0 <= j * bs <= d.len(),
    ensures
        bcast_blocks(d, j, bs, s, t).len() == j * product(t),
    decreases t.len(), j,
{
    crate::shape::lemma_product_nonneg(s);
    crate::shape::lemma_product_nonneg(t);
    if j == 0 {
        assert(0nat * product(t) == 0) by (nonlinear_arith)
            requires
                product(t) >= 0,
        ;
    } else {
        assert((j - 1) * bs >= 0 && (j - 1) * bs + bs == j * bs) by (nonlinear_arith)
            requires
                j >= 1,
                bs >= 0,
        ;
        lemma_bcast_blocks_len(d, (j - 1) as nat, bs, s, t);
        lemma_bcast_len(d.subrange((j - 1) * bs, (j - 1) * bs + bs), s, t);
        assert((j - 1) * product(t) + product(t) == j * product(t)) by (nonlinear_arith);
    }
}

/// Reduction brings the element count down to exactly `product(t)`.
pub proof fn lemma_sum_to_len(d: Seq<i64>, s: Seq<usize>, t: Seq<usize>)
    requires
        expandable(t, s),
        d.len() == product(s),
    ensures
        sum_to_data(d, s, t).len() == product(t),
    decreases s.len(), 0nat,
{
    crate::shape::lemma_product_nonneg(t);
    if s.len() == 0 {
        assert(t.len() == 0);
    } else if t.len() < s.len() {
        lemma_expandable_into_skip(t, s);
        lemma_sum_blocks_len(d, s[0] as nat, product(s.skip(1)), s.skip(1), t);
        assert(product(s) == s[0] * product(s.skip(1)));
    } else {
        crate::shape::lemma_expandable_skip_eq(t, s);
        if s[0] == t[0] {
            lemma_cat_blocks_len(d, s[0] as nat, product(s.skip(1)), s.skip(1), t.skip(1));
            assert(product(s) == s[0] * product(s.skip(1)));
            assert(product(t) == t[0] * product(t.skip(1)));
        } else {
            assert(t[0] == 1);
            lemma_sum_blocks_len(d, s[0] as nat, product(s.skip(1)), s.skip(1), t.skip(1));
            assert(product(s) == s[0] * product(s.skip(1)));
            assert(product(t) == 1 * product(t.skip(1)));
        }
    }
}

/// A target shorter than the source also expands into the source's tail.
pub proof fn lemma_expandable_into_skip(t: Seq<usize>, s: Seq<usize>)
    requires
        expandable(t, s),
        t.len() < s.len(),
    ensures
        expandable(t, s.skip(1)),
{
    let n = s.len() as int;
    assert forall|i: int| 0 <= i < n - 1 implies #[trigger] crate::shape::expand_dim_ok(
        padded(t, n - 1)[i],
        s.skip(1)[i],
    ) by {
        assert(padded(t, n - 1)[i] == padded(t, n)[i + 1]);
        assert(s.skip(1)[i] == s[i + 1]);
        assert(crate::shape::expand_dim_ok(padded(t, n)[i + 1], s[i + 1]));
    }
}

proof fn lemma_sum_blocks_len(d: Seq<i64>, j: nat, bs: int, s: Seq<usize>, t: Seq<usize>)
    requires
        expandable(t, s),
        bs == product(s),
        0 <= j * bs <= d.len(),
    ensures
        sum_blocks(d, j, bs, s, t).len() == product(t),
    decreases s.len(), j,
{
    crate::shape::lemma_product_nonneg(s);
    crate::shape::lemma_product_nonneg(t);
    if j == 0 {
    } else {
        assert((j - 1) * bs >= 0 && (j - 1) * bs + bs == j * bs) by (nonlinear_arith)
            requires
                j >= 1,
                bs >= 0,
        ;
        lemma_sum_blocks_len(d, (j - 1) as nat, bs, s, t);
        lemma_sum_to_len(d.subrange((j - 1) * bs, (j - 1) * bs + bs), s, t);
    }
}

/// The largest of the `k` elements of `d` at `base`, `base + step`, ...,
/// `base + (k-1) * step`; the maximum of nothing is the smallest element
/// value.
pub open spec fn max_strided(d: Seq<i64>, base: int, step: int, k: int) -> i64
    decreases k,
{
    if k <= 0 {
        i64::MIN
    } else {
        let rest = max_strided(d, base, step, k - 1);
        if d[base + (k - 1) * step] >= rest {
            d[base + (k - 1) * step]
        } else {
            rest
        }
    }
}

/// The data of a one-axis maximum: the source decomposes into `stride`
/// groups of `cnt` rows of `step` elements, and position `p` of the result
/// holds the maximum down the reduced axis.
pub open spec fn max_axis_data(d: Seq<i64>, stride: int, step: int, cnt: int) -> Seq<i64> {
    Seq::new(
        (stride * step) as nat,
        |p: int| max_strided(d, (p / step) * (step * cnt) + p % step, step, cnt),
    )
}

/// Adding onto zeros changes nothing.
proof fn lemma_ew_add_zeros(d: Seq<i64>)
    ensures
        ew_bin(BinOp::Add, zeros_seq(d.len() as int), d) == d,
{
    assert(ew_bin(BinOp::Add, zeros_seq(d.len() as int), d) =~= d);
}

/// Reducing block by block reads only the first `j` blocks.
proof fn lemma_cat_blocks_prefix(
    d1: Seq<i64>,
    d2: Seq<i64>,
    j: nat,
    bs: int,
    s: Seq<usize>,
    t: Seq<usize>,
)
    requires
        bs >= 0,
        j * bs <= d1.len(),
        j * bs <= d2.len(),
        forall|i: int| 0 <= i < j * bs ==> d1[i] == d2[i],
    ensures
        cat_blocks(d1, j, bs, s, t) == cat_blocks(d2, j, bs, s, t),
    decreases j,
{
    if j > 0 {
        assert(0 <= (j - 1) * bs && (j - 1) * bs + bs == j * bs) by (nonlinear_arith)
            requires
                j >= 1,
                bs >= 0,
        ;
        lemma_cat_blocks_prefix(d1, d2, (j - 1) as nat, bs, s, t);
        assert(d1.subrange((j - 1) * bs, (j - 1) * bs + bs) =~= d2.subrange(
            (j - 1) * bs,
            (j - 1) * bs + bs,
        ));
    }
}

/// The exact round trip of the dual pair: expanding a tensor and reducing
/// straight back is the identity whenever the expansion adds only size-1
/// axes, that is, whenever the element counts agree.
pub proof fn lemma_bcast_sum_to_round_trip(d: Seq<i64>, s: Seq<usize>, t: Seq<usize>)
    requires
        expandable(s, t),
        d.len() == product(s),
        product(s) == product(t),
    ensures
        sum_to_data(bcast_data(d, s, t), t, s) == d,
    decreases t.len(), 0nat, 0nat,
{
    crate::shape::lemma_product_nonneg(s);
    let dd = bcast_data(d, s, t);
    if product(s) == 0 {
        lemma_bcast_len(d, s, t);
        lemma_sum_to_len(dd, t, s);
        assert(sum_to_data(dd, t, s) =~= d);
    } else if t.len() == 0 {
        assert(s.len() == 0);
    } else {
        assert forall|i: int| 0 <= i < t.len() implies t[i] >= 1 by {
            if t[i] == 0 {
                crate::shape::lemma_product_zero(t, i);
            }
        }
        assert(product(t) == t[0] * product(t.skip(1)));
        crate::shape::lemma_product_nonneg(t.skip(1));
        if s.len() < t.len() {
            crate::shape::lemma_expandable_skip_lt(s, t);
            assert forall|i: int| 0 <= i < t.skip(1).len() implies #[trigger] t.skip(1)[i]
                >= 1 by {
                assert(t.skip(1)[i] == t[i + 1]);
            }
            crate::shape::lemma_expandable_product_le(s, t.skip(1));
            assert(t[0] == 1) by (nonlinear_arith)
                requires
                    product(s) == t[0] * product(t.skip(1)),
                    product(s) <= product(t.skip(1)),
                    product(s) >= 1,
                    t[0] >= 1,
                    product(t.skip(1)) >= 0,
            ;
            let b = bcast_data(d, s, t.skip(1));
            assert(repeat_seq(b, 0nat) =~= Seq::<i64>::empty());
            assert(repeat_seq(b, 1nat) == repeat_seq(b, 0nat) + b);
            assert(repeat_seq(b, 1nat) =~= b);
            assert(dd == b);
            lemma_bcast_len(d, s, t.skip(1));
            lemma_bcast_sum_to_round_trip(d, s, t.skip(1));
            // the reduction folds the single block onto zeros
            assert(sum_to_data(dd, t, s) == sum_blocks(
                dd,
                t[0] as nat,
                product(t.skip(1)),
                t.skip(1),
                s,
            ));
            assert(dd.subrange(0 * product(t.skip(1)), 0 * product(t.skip(1)) + product(
                t.skip(1),
            )) =~= dd);
            assert(sum_blocks(dd, 0nat, product(t.skip(1)), t.skip(1), s) == zeros_seq(
                product(s),
            ));
            assert(sum_blocks(dd, 1nat, product(t.skip(1)), t.skip(1), s) == ew_bin(
                BinOp::Add,
                zeros_seq(product(s)),
                sum_to_data(dd, t.skip(1), s),
            ));
            assert(zeros_seq(product(s)) =~= zeros_seq(d.len() as int));
            lemma_ew_add_zeros(d);
        } else {
            // equal ranks and a positive element count: every axis matches
            crate::shape::lemma_expandable_skip_eq(s, t);
            assert(product(s) == s[0] * product(s.skip(1)));
            crate::shape::lemma_product_nonneg(s.skip(1));
            assert forall|i: int| 0 <= i < t.skip(1).len() implies #[trigger] t.skip(1)[i]
                >= 1 by {
                assert(t.skip(1)[i] == t[i + 1]);
            }
            crate::shape::lemma_expandable_product_le(s.skip(1), t.skip(1));
            assert(s[0] == t[0]) by (nonlinear_arith)
                requires
                    s[0] == t[0] || s[0] == 1,
                    s[0] * product(s.skip(1)) == t[0] * product(t.skip(1)),
                    product(s.skip(1)) <= product(t.skip(1)),
                    s[0] * product(s.skip(1)) >= 1,
                    s[0] >= 0,
                    t[0] >= 1,
                    product(s.skip(1)) >= 0,
                    product(t.skip(1)) >= 0,
            ;
            let k = s[0] as nat;
            let bs_s = product(s.skip(1));
            let bs_t = product(t.skip(1));
            assert(product(s.skip(1)) == product(t.skip(1))) by (nonlinear_arith)
                requires
                    s[0] * product(s.skip(1)) == t[0] * product(t.skip(1)),
                    s[0] == t[0],
                    s[0] >= 1,
            ;
            assert(k * bs_s <= d.len()) by (nonlinear_arith)
                requires
                    d.len() == s[0] * product(s.skip(1)),
                    k == s[0],
                    bs_s == product(s.skip(1)),
            ;
            lemma_round_trip_blocks(d, k, bs_s, s.skip(1), t.skip(1));
            assert(d.subrange(0, (k * bs_s) as int) =~= d);
        }
    }
}

/// Block by block: expanding the first `j` blocks and reducing each one
/// back yields exactly those blocks again.
proof fn lemma_round_trip_blocks(d: Seq<i64>, j: nat, bs: int, s: Seq<usize>, t: Seq<usize>)
    requires
        expandable(s, t),
        bs == product(s),
        product(s) == product(t),
        0 <= j * bs <= d.len(),
    ensures
        cat_blocks(bcast_blocks(d, j, bs, s, t), j, product(t), t, s) == d.subrange(
            0,
            (j * bs) as int,
        ),
    decreases t.len(), 1nat, j,
{
    crate::shape::lemma_product_nonneg(s);
    if j == 0 {
        assert(d.subrange(0, (0 * bs) as int) =~= Seq::<i64>::empty());
    } else {
        assert(0 <= (j - 1) * bs && (j - 1) * bs + bs == j * bs) by (nonlinear_arith)
            requires
                j >= 1,
                bs >= 0,
        ;
        lemma_round_trip_blocks(d, (j - 1) as nat, bs, s, t);
        let block = d.subrange((j - 1) * bs, (j - 1) * bs + bs);
        let prev = bcast_blocks(d, (j - 1) as nat, bs, s, t);
        let full = bcast_blocks(d, j, bs, s, t);
        lemma_bcast_blocks_len(d, (j - 1) as nat, bs, s, t);
        lemma_bcast_blocks_len(d, j, bs, s, t);
        lemma_bcast_len(block, s, t);
        assert(full == prev + bcast_data(block, s, t));
        assert(0 <= (j - 1) * product(t) && (j - 1) * product(t) + product(t) == j * product(t))
            by (nonlinear_arith)
            requires
                j >= 1,
                product(t) >= 0,
        ;
        // reducing the first j - 1 blocks only looks at the shared prefix
        assert forall|i: int| 0 <= i < (j - 1) as nat * product(t) implies full[i] == prev[i] by {
            assert(full[i] == (prev + bcast_data(block, s, t))[i]);
        }
        lemma_cat_blocks_prefix(full, prev, (j - 1) as nat, product(t), t, s);
        // the last block reduces back to the last source block
        assert(full.subrange((j - 1) * product(t), (j - 1) * product(t) + product(t)) =~= bcast_data(
            block,
            s,
            t,
        ));
        lemma_bcast_sum_to_round_trip(block, s, t);
        assert(cat_blocks(full, j, product(t), t, s) == cat_blocks(
            prev,
            (j - 1) as nat,
            product(t),
            t,
            s,
        ) + block);
        assert(d.subrange(0, ((j - 1) * bs) as int) + block =~= d.subrange(0, (j * bs) as int));
    }
}

/// A vector of `n` zeros.
fn zeros_vec(n: usize) -> (r: Vec<i64>)
    ensures
        r@ == zeros_seq(n as int),
{
    let mut r: Vec<i64> = Vec::new();
    let mut i: usize = 0;
    while i < n
        invariant
            i <= n,
            r@.len() == i,
            forall|j: int| 0 <= j < i ==> r@[j] == 0i64,
        decreases n - i,
    {
        r.push(0);
        i = i + 1;
    }
    assert(r@ =~= zeros_seq(n as int));
    r
}

/// Element count of the shape suffix `t[ti..]`, assuming it fits in a word.
fn product_from(t: &Vec<usize>, ti: usize) -> (r: usize)
    requires
        ti <= t@.len(),
        product(t@.skip(ti as int)) <= usize::MAX,
    ensures
        r == product(t@.skip(ti as int)),
{
    let ghost u = t@.skip(ti as int);
    let n = t.len();
    let mut i: usize = ti;
    while i < n
        invariant
            ti <= i <= n,
            n == t@.len(),
            u == t@.skip(ti as int),
            forall|j: int| 0 <= j < i - ti ==> u[j] >= 1,
        decreases n - i,
    {
        assert(u[i - ti] == t@[i as int]);
        if t[i] == 0 {
            proof {
                crate::shape::lemma_product_zero(u, i - ti);
            }
            return 0;
        }
        i = i + 1;
    }
    let mut p: usize = 1;
    let mut i: usize = ti;
    while i < n
        invariant
            ti <= i <= n,
            n == t@.len(),
            u == t@.skip(ti as int),
            product(u) <= usize::MAX,
            forall|j: int| 0 <= j < u.len() ==> u[j] >= 1,
            p == product(u.take(i - ti)),
        decreases n - i,
    {
        proof {
            crate::shape::lemma_product_take_step(u, i - ti);
            crate::shape::lemma_product_split(u, i - ti + 1);
            assert(forall|j: int|
                0 <= j < u.skip(i - ti + 1).len() ==> #[trigger] u.skip(i - ti + 1)[j] >= 1);
            crate::shape::lemma_product_pos(u.skip(i - ti + 1));
            assert(product(u) >= product(u.take(i - ti + 1))) by (nonlinear_arith)
                requires
                    product(u) == product(u.take(i - ti + 1)) * product(u.skip(i - ti + 1)),
                    product(u.skip(i - ti + 1)) >= 1,
                    product(u.take(i - ti + 1)) >= 0,
            ;
            crate::shape::lemma_product_nonneg(u.take(i - ti));
            assert(u[i - ti] == t@[i as int]);
        }
        p = p * t[i];
        i = i + 1;
    }
    proof {
        assert(u.take(n - ti) =~= u);
    }
    p
}

proof fn lemma_cat_blocks_len(d: Seq<i64>, j: nat, bs: int, s: Seq<usize>, t: Seq<usize>)
    requires
        expandable(t, s),
        bs == product(s),
        0 <= j * bs <= d.len(),
    ensures
        cat_blocks(d, j, bs, s, t).len() == j * product(t),
    decreases s.len(), j,
{
    crate::shape::lemma_product_nonneg(s);
    crate::shape::lemma_product_nonneg(t);
    if j == 0 {
        assert(0nat * product(t) == 0) by (nonlinear_arith)
            requires
                product(t) >= 0,
        ;
    } else {
        assert((j - 1) * bs >= 0 && (j - 1) * bs + bs == j * bs) by (nonlinear_arith)
            requires
                j >= 1,
                bs >= 0,
        ;
        lemma_cat_blocks_len(d, (j - 1) as nat, bs, s, t);
        lemma_sum_to_len(d.subrange((j - 1) * bs, (j - 1) * bs + bs), s, t);
        assert((j - 1) * product(t) + product(t) == j * product(t)) by (nonlinear_arith);
    }
}

/// Append the expansion of the segment `d[lo..hi]` (shape `s[si..]`) to the
/// target shape `t[ti..]` onto `out`.
fn bcast_rec(
    d: &Vec<i64>,
    lo: usize,
    hi: usize,
    s: &Vec<usize>,
    si: usize,
    t: &Vec<usize>,
    ti: usize,
    out: &mut Vec<i64>,
)
    requires
        si <= s@.len(),
        ti <= t@.len(),
        s@.len() - si <= t@.len() - ti,
        expandable(s@.skip(si as int), t@.skip(ti as int)),
        lo <= hi <= d@.len(),
        hi - lo == product(s@.skip(si as int)),
    ensures
        final(out)@ == old(out)@ + bcast_data(
            d@.subrange(lo as int, hi as int),
            s@.skip(si as int),
            t@.skip(ti as int),
        ),
    decreases t@.len() - ti,
{
    let sn = s.len();
    let tn = t.len();
    let ghost seg = d@.subrange(lo as int, hi as int);
    let ghost s1 = s@.skip(si as int);
    let ghost t1 = t@.skip(ti as int);
    if ti == tn {
        assert(s1.len() == 0 && t1.len() == 0);
        assert(hi - lo == 1);
        out.push(d[lo]);
        assert(seg =~= seq![d@[lo as int]]);
        assert(out@ =~= old(out)@ + seg);
        return ;
    }
    assert(t1[0] == t@[ti as int]);
    if sn - si < tn - ti {
        proof {
            crate::shape::lemma_expandable_skip_lt(s1, t1);
            assert(t1.skip(1) =~= t@.skip(ti as int + 1));
        }
        let ghost x = bcast_data(seg, s1, t@.skip(ti as int + 1));
        let k = t[ti];
        let mut j: usize = 0;
        while j < k
            invariant
                j <= k,
                si <= sn,
                ti < tn,
                sn == s@.len(),
                tn == t@.len(),
                k == t@[ti as int],
                s@.len() - si < t@.len() - ti,
                expandable(s@.skip(si as int), t@.skip(ti as int + 1)),
                lo <= hi <= d@.len(),
                hi - lo == product(s@.skip(si as int)),
                x == bcast_data(
                    d@.subrange(lo as int, hi as int),
                    s@.skip(si as int),
                    t@.skip(ti as int + 1),
                ),
                out@ == old(out)@ + repeat_seq(x, j as nat),
            decreases k - j,
        {
            bcast_rec(d, lo, hi, s, si, t, ti + 1, out);
            proof {
                assert(out@ =~= old(out)@ + repeat_seq(x, (j + 1) as nat));
            }
            j = j + 1;
        }
        assert(bcast_data(seg, s1, t1) == repeat_seq(x, k as nat));
        return ;
    }
    // the remaining ranks are equal and both shapes are non-empty
    assert(s1.len() == t1.len() && s1.len() > 0);
    assert(s1[0] == s@[si as int]);
    proof {
        crate::shape::lemma_expandable_skip_eq(s1, t1);
        assert(s1.skip(1) =~= s@.skip(si as int + 1));
        assert(t1.skip(1) =~= t@.skip(ti as int + 1));
        assert(product(s1) == s1[0] * product(s1.skip(1)));
        crate::shape::lemma_product_nonneg(s1.skip(1));
    }
    if s[si] == t[ti] {
        let k = s[si];
        if k == 0 {
            assert(product(s1) == 0) by (nonlinear_arith)
                requires
                    s1.len() > 0,
                    s1[0] == 0,
                    product(s1) == s1[0] * product(s1.skip(1)),
            ;
            assert(hi - lo == 0);
            assert(bcast_data(seg, s1, t1) == bcast_blocks(
                seg,
                0nat,
                product(s1.skip(1)),
                s1.skip(1),
                t1.skip(1),
            ));
            assert(out@ =~= old(out)@ + bcast_data(seg, s1, t1));
            return ;
        }
        let ghost bsp = product(s@.skip(si as int + 1));
        proof {
            vstd::arithmetic::div_mod::lemma_div_multiples_vanish(bsp, k as int);
            assert(k * bsp == bsp * k) by (nonlinear_arith);
        }
        let bs = (hi - lo) / k;
        assert(bs == bsp);
        let mut j: usize = 0;
        while j < k
            invariant
                j <= k,
                si < sn,
                ti < tn,
                sn == s@.len(),
                tn == t@.len(),
                s@.len() - si == t@.len() - ti,
                k == s@[si as int] == t@[ti as int],
                expandable(s@.skip(si as int + 1), t@.skip(ti as int + 1)),
                lo <= hi <= d@.len(),
                hi - lo == k * bs,
                bs == product(s@.skip(si as int + 1)),
                out@ == old(out)@ + bcast_blocks(
                    d@.subrange(lo as int, hi as int),
                    j as nat,
                    bs as int,
                    s@.skip(si as int + 1),
                    t@.skip(ti as int + 1),
                ),
            decreases k - j,
        {
            proof {
                assert(j * bs + bs <= k * bs && 0 <= j * bs && (j + 1) * bs == j * bs + bs)
                    by (nonlinear_arith)
                    requires
                        0 <= j < k,
                        bs >= 0,
                ;
            }
            let lo2 = lo + j * bs;
            bcast_rec(d, lo2, lo2 + bs, s, si + 1, t, ti + 1, out);
            proof {
                let sg2 = d@.subrange(lo2 as int, lo2 as int + bs);
                assert(sg2 =~= d@.subrange(lo as int, hi as int).subrange(
                    j * bs,
                    j * bs + bs,
                ));
                assert(out@ =~= old(out)@ + bcast_blocks(
                    d@.subrange(lo as int, hi as int),
                    (j + 1) as nat,
                    bs as int,
                    s@.skip(si as int + 1),
                    t@.skip(ti as int + 1),
                ));
            }
            j = j + 1;
        }
        assert(bcast_data(seg, s1, t1) == bcast_blocks(
            seg,
            k as nat,
            bs as int,
            s1.skip(1),
            t1.skip(1),
        ));
        return ;
    }
    // the leading source axis has size 1: repeat its single block
    assert(s@[si as int] == 1);
    assert(hi - lo == product(s@.skip(si as int + 1)));
    let ghost x = bcast_data(seg, s@.skip(si as int + 1), t@.skip(ti as int + 1));
    let k = t[ti];
    let mut j: usize = 0;
    while j < k
        invariant
            j <= k,
            si < sn,
            ti < tn,
            sn == s@.len(),
            tn == t@.len(),
            k == t@[ti as int],
            s@.len() - si == t@.len() - ti,
            expandable(s@.skip(si as int + 1), t@.skip(ti as int + 1)),
            lo <= hi <= d@.len(),
            hi - lo == product(s@.skip(si as int + 1)),
            x == bcast_data(
                d@.subrange(lo as int, hi as int),
                s@.skip(si as int + 1),
                t@.skip(ti as int + 1),
            ),
            out@ == old(out)@ + repeat_seq(x, j as nat),
        decreases k - j,
    {
        bcast_rec(d, lo, hi, s, si + 1, t, ti + 1, out);
        proof {
            assert(out@ =~= old(out)@ + repeat_seq(x, (j + 1) as nat));
        }
        j = j + 1;
    }
    assert(bcast_data(seg, s1, t1) == repeat_seq(x, k as nat));
}

/// The reduction of the segment `d[lo..hi]` (shape `s[si..]`) down to the
/// target shape `t[ti..]`.
fn sum_to_rec(
    d: &Vec<i64>,
    lo: usize,
    hi: usize,
    s: &Vec<usize>,
    si: usize,
    t: &Vec<usize>,
    ti: usize,
) -> (r: Vec<i64>)
    requires
        si <= s@.len(),
        ti <= t@.len(),
        t@.len() - ti <= s@.len() - si,
        expandable(t@.skip(ti as int), s@.skip(si as int)),
        lo <= hi <= d@.len(),
        hi - lo == product(s@.skip(si as int)),
        product(t@.skip(ti as int)) <= usize::MAX,
    ensures
        r@ == sum_to_data(
            d@.subrange(lo as int, hi as int),
            s@.skip(si as int),
            t@.skip(ti as int),
        ),
    decreases s@.len() - si,
{
    let sn = s.len();
    let tn = t.len();
    let ghost seg = d@.subrange(lo as int, hi as int);
    let ghost s1 = s@.skip(si as int);
    let ghost t1 = t@.skip(ti as int);
    if si == sn {
        assert(s1.len() == 0 && t1.len() == 0);
        assert(hi - lo == 1);
        let r = vec![d[lo]];
        assert(r@ =~= seg);
        return r;
    }
    assert(s1[0] == s@[si as int]);
    let k = s[si];
    proof {
        assert(product(s1) == s1[0] * product(s1.skip(1)));
        assert(s1.skip(1) =~= s@.skip(si as int + 1));
        crate::shape::lemma_product_nonneg(s1.skip(1));
    }
    if k == 0 {
        assert(product(s1) == 0) by (nonlinear_arith)
            requires
                s1.len() > 0,
                s1[0] == 0,
                product(s1) == s1[0] * product(s1.skip(1)),
        ;
        assert(hi - lo == 0);
    }
    let ghost bsp = product(s@.skip(si as int + 1));
    if tn - ti < sn - si {
        // the leading source axis is absent from the target: fold its blocks
        proof {
            lemma_expandable_into_skip(t1, s1);
        }
        let nt = product_from(t, ti);
        let mut acc = zeros_vec(nt);
        assert(acc@ == sum_blocks(seg, 0nat, bsp, s@.skip(si as int + 1), t1));
        if k == 0 {
            return acc;
        }
        proof {
            vstd::arithmetic::div_mod::lemma_div_multiples_vanish(bsp, k as int);
            assert(k * bsp == bsp * k) by (nonlinear_arith);
        }
        let bs = (hi - lo) / k;
        assert(bs == bsp);
        let mut j: usize = 0;
        while j < k
            invariant
                j <= k,
                si < sn,
                ti <= tn,
                sn == s@.len(),
                tn == t@.len(),
                k == s@[si as int],
                tn - ti < sn - si,
                expandable(t@.skip(ti as int), s@.skip(si as int + 1)),
                lo <= hi <= d@.len(),
                hi - lo == k * bs,
                bs == product(s@.skip(si as int + 1)),
                product(t@.skip(ti as int)) <= usize::MAX,
                acc@ == sum_blocks(
                    d@.subrange(lo as int, hi as int),
                    j as nat,
                    bs as int,
                    s@.skip(si as int + 1),
                    t@.skip(ti as int),
                ),
            decreases k - j,
        {
            proof {
                assert(j * bs + bs <= k * bs && 0 <= j * bs && (j + 1) * bs == j * bs + bs)
                    by (nonlinear_arith)
                    requires
                        0 <= j < k,
                        bs >= 0,
                ;
            }
            let lo2 = lo + j * bs;
            let rj = sum_to_rec(d, lo2, lo2 + bs, s, si + 1, t, ti);
            proof {
                let sg2 = d@.subrange(lo2 as int, lo2 as int + bs);
                assert(sg2 =~= d@.subrange(lo as int, hi as int).subrange(j * bs, j * bs + bs));
                lemma_sum_blocks_len(
                    d@.subrange(lo as int, hi as int),
                    j as nat,
                    bs as int,
                    s@.skip(si as int + 1),
                    t@.skip(ti as int),
                );
                lemma_sum_to_len(sg2, s@.skip(si as int + 1), t@.skip(ti as int));
            }
            acc = crate::tensor_ops::zip_op(BinOp::Add, &acc, &rj);
            j = j + 1;
        }
        assert(sum_to_data(seg, s1, t1) == sum_blocks(seg, k as nat, bsp, s1.skip(1), t1));
        return acc;
    }
    // the remaining ranks are equal and the source shape is non-empty
    assert(s1.len() == t1.len() && s1.len() > 0);
    assert(t1[0] == t@[ti as int]);
    proof {
        crate::shape::lemma_expandable_skip_eq(t1, s1);
        assert(t1.skip(1) =~= t@.skip(ti as int + 1));
        assert(product(t1) == t1[0] * product(t1.skip(1)));
        crate::shape::lemma_product_nonneg(t1.skip(1));
    }
    if t[ti] == k {
        // matching axis: reduce each block in place
        if k == 0 {
            let r: Vec<i64> = Vec::new();
            assert(r@ =~= sum_to_data(seg, s1, t1));
            return r;
        }
        proof {
            vstd::arithmetic::div_mod::lemma_div_multiples_vanish(bsp, k as int);
            assert(k * bsp == bsp * k) by (nonlinear_arith);
            assert(product(t@.skip(ti as int + 1)) <= product(t1)) by (nonlinear_arith)
                requires
                    product(t1) == k * product(t1.skip(1)),
                    t1.skip(1) == t@.skip(ti as int + 1),
                    k >= 1,
                    product(t1.skip(1)) >= 0,
            ;
        }
        let bs = (hi - lo) / k;
        assert(bs == bsp);
        let mut out: Vec<i64> = Vec::new();
        let mut j: usize = 0;
        while j < k
            invariant
                j <= k,
                si < sn,
                ti < tn,
                sn == s@.len(),
                tn == t@.len(),
                sn - si == tn - ti,
                k == s@[si as int] == t@[ti as int],
                expandable(t@.skip(ti as int + 1), s@.skip(si as int + 1)),
                lo <= hi <= d@.len(),
                hi - lo == k * bs,
                bs == product(s@.skip(si as int + 1)),
                product(t@.skip(ti as int + 1)) <= usize::MAX,
                out@ == cat_blocks(
                    d@.subrange(lo as int, hi as int),
                    j as nat,
                    bs as int,
                    s@.skip(si as int + 1),
                    t@.skip(ti as int + 1),
                ),
            decreases k - j,
        {
            proof {
                assert(j * bs + bs <= k * bs && 0 <= j * bs && (j + 1) * bs == j * bs + bs)
                    by (nonlinear_arith)
                    requires
                        0 <= j < k,
                        bs >= 0,
                ;
            }
            let lo2 = lo + j * bs;
            let mut rj = sum_to_rec(d, lo2, lo2 + bs, s, si + 1, t, ti + 1);
            proof {
                let sg2 = d@.subrange(lo2 as int, lo2 as int + bs);
                assert(sg2 =~= d@.subrange(lo as int, hi as int).subrange(j * bs, j * bs + bs));
            }
            out.append(&mut rj);
            j = j + 1;
        }
        assert(sum_to_data(seg, s1, t1) == cat_blocks(seg, k as nat, bsp, s1.skip(1), t1.skip(1)));
        return out;
    }
    // the target axis has size 1: fold the blocks, keeping the axis
    assert(t1[0] == 1);
    assert(product(t1) == 1 * product(t1.skip(1)));
    let nt = product_from(t, ti + 1);
    let mut acc = zeros_vec(nt);
    assert(acc@ == sum_blocks(seg, 0nat, bsp, s@.skip(si as int + 1), t@.skip(ti as int + 1)));
    if k == 0 {
        assert(sum_to_data(seg, s1, t1) == sum_blocks(seg, 0nat, bsp, s1.skip(1), t1.skip(1)));
        return acc;
    }
    proof {
        vstd::arithmetic::div_mod::lemma_div_multiples_vanish(bsp, k as int);
        assert(k * bsp == bsp * k) by (nonlinear_arith);
    }
    let bs = (hi - lo) / k;
    assert(bs == bsp);
    let mut j: usize = 0;
    while j < k
        invariant
            j <= k,
            si < sn,
            ti < tn,
            sn == s@.len(),
            tn == t@.len(),
            sn - si == tn - ti,
            k == s@[si as int],
            t@[ti as int] == 1,
            expandable(t@.skip(ti as int + 1), s@.skip(si as int + 1)),
            lo <= hi <= d@.len(),
            hi - lo == k * bs,
            bs == product(s@.skip(si as int + 1)),
            product(t@.skip(ti as int + 1)) <= usize::MAX,
            acc@ == sum_blocks(
                d@.subrange(lo as int, hi as int),
                j as nat,
                bs as int,
                s@.skip(si as int + 1),
                t@.skip(ti as int + 1),
            ),
        decreases k - j,
    {
        proof {
            assert(j * bs + bs <= k * bs && 0 <= j * bs && (j + 1) * bs == j * bs + bs)
                by (nonlinear_arith)
                requires
                    0 <= j < k,
                    bs >= 0,
            ;
        }
        let lo2 = lo + j * bs;
        let rj = sum_to_rec(d, lo2, lo2 + bs, s, si + 1, t, ti + 1);
        proof {
            let sg2 = d@.subrange(lo2 as int, lo2 as int + bs);
            assert(sg2 =~= d@.subrange(lo as int, hi as int).subrange(j * bs, j * bs + bs));
            lemma_sum_blocks_len(
                d@.subrange(lo as int, hi as int),
                j as nat,
                bs as int,
                s@.skip(si as int + 1),
                t@.skip(ti as int + 1),
            );
            lemma_sum_to_len(sg2, s@.skip(si as int + 1), t@.skip(ti as int + 1));
        }
        acc = crate::tensor_ops::zip_op(BinOp::Add, &acc, &rj);
        j = j + 1;
    }
    assert(sum_to_data(seg, s1, t1) == sum_blocks(seg, k as nat, bsp, s1.skip(1), t1.skip(1)));
    acc
}

impl crate::tensor::Tensor {
    /// Expand into `shape` by replicating along missing or size-1 axes;
    /// fails when some axis neither matches nor is 1, or when the result
    /// would not fit in memory's address space.
    pub fn broadcast_to(&self, shape: &Vec<usize>) -> (r: Result<crate::tensor::Tensor, Error>)
        requires
            self.wf(),
        ensures
            r is Ok <==> expandable(self@.shape, shape@) && product(shape@) <= usize::MAX,
            r matches Ok(t) ==> t.wf() && t@ == (crate::tensor::TensorModel {
                data: bcast_data(self@.data, self@.shape, shape@),
                shape: shape@,
            }),
            r matches Err(e) ==> (e == Error::ShapeError <==> !expandable(self@.shape, shape@)),
            r matches Err(e) ==> (e == Error::SizeOverflow <==> expandable(self@.shape, shape@)
                && product(shape@) > usize::MAX),
    {
        if !crate::shape::check_expandable(self.get_shape(), shape) {
            return Err(Error::ShapeError);
        }
        if crate::tensor::Tensor::checked_size(shape).is_none() {
            return Err(Error::SizeOverflow);
        }
        let mut out: Vec<i64> = Vec::new();
        let sv = self.get_shape();
        let dv = self.get_data();
        proof {
            assert(sv@.skip(0) =~= self@.shape);
            assert(shape@.skip(0) =~= shape@);
            assert(dv@.subrange(0, dv@.len() as int) =~= self@.data);
        }
        bcast_rec(dv, 0, dv.len(), sv, 0, shape, 0, &mut out);
        proof {
            lemma_bcast_len(self@.data, self@.shape, shape@);
        }
        match crate::tensor::Tensor::new(out, shape.clone()) {
            Ok(t) => Ok(t),
            Err(_) => {
                proof {
                    assert(false);
                }
                unreached()
            },
        }
    }

    /// Sum out the axes along which `shape` right-aligns into this tensor's
    /// shape at size 1 (or not at all), the exact dual of `broadcast_to`;
    /// fails when some axis of `shape` neither matches nor is 1.
    pub fn sum_to(&self, shape: &Vec<usize>) -> (r: Result<crate::tensor::Tensor, Error>)
        requires
            self.wf(),
        ensures
            r is Ok <==> expandable(shape@, self@.shape) && product(shape@) <= usize::MAX,
            r matches Ok(t) ==> t.wf() && t@ == (crate::tensor::TensorModel {
                data: sum_to_data(self@.data, self@.shape, shape@),
                shape: shape@,
            }),
            r matches Err(e) ==> (e == Error::ShapeError <==> !expandable(shape@, self@.shape)),
            r matches Err(e) ==> (e == Error::SizeOverflow <==> expandable(shape@, self@.shape)
                && product(shape@) > usize::MAX),
    {
        if !crate::shape::check_expandable(shape, self.get_shape()) {
            return Err(Error::ShapeError);
        }
        if crate::tensor::Tensor::checked_size(shape).is_none() {
            return Err(Error::SizeOverflow);
        }
        let sv = self.get_shape();
        let dv = self.get_data();
        proof {
            assert(sv@.skip(0) =~= self@.shape);
            assert(shape@.skip(0) =~= shape@);
            assert(dv@.subrange(0, dv@.len() as int) =~= self@.data);
        }
        let out = sum_to_rec(dv, 0, dv.len(), sv, 0, shape, 0);
        proof {
            lemma_sum_to_len(self@.data, self@.shape, shape@);
        }
        match crate::tensor::Tensor::new(out, shape.clone()) {
            Ok(t) => Ok(t),
            Err(_) => {
                proof {
                    assert(false);
                }
                unreached()
            },
        }
    }


    /// The largest element along one axis, the reduced axis kept at size 1;
    /// an empty axis yields the smallest element value.  Fails when `axis`
    /// is out of range.
    #[verifier::rlimit(30)]
    pub fn max(&self, axis: usize) -> (r: Result<crate::tensor::Tensor, Error>)
        requires
            self.wf(),
        ensures
            r is Ok <==> axis < self@.shape.len() && product(
                self@.shape.update(axis as int, 1usize),
            ) <= usize::MAX,
            r matches Ok(t) ==> t.wf() && t@ == (crate::tensor::TensorModel {
                data: max_axis_data(
                    self@.data,
                    product(self@.shape.take(axis as int)),
                    product(self@.shape.skip(axis as int + 1)),
                    self@.shape[axis as int] as int,
                ),
                shape: self@.shape.update(axis as int, 1usize),
            }),
            axis >= self@.shape.len() ==> r == Result::<crate::tensor::Tensor, Error>::Err(
                Error::ShapeError,
            ),
            axis < self@.shape.len() && product(self@.shape.update(axis as int, 1usize))
                > usize::MAX ==> r == Result::<crate::tensor::Tensor, Error>::Err(
                Error::SizeOverflow,
            ),
    {
        let ghost s = self@.shape;
        let sv = self.get_shape();
        if axis >= sv.len() {
            return Err(Error::ShapeError);
        }
        let mut target = sv.clone();
        target.set(axis, 1);
        proof {
            assert(target@ =~= s.update(axis as int, 1usize));
        }
        let nt = match crate::tensor::Tensor::checked_size(&target) {
            Some(v) => v,
            None => {
                return Err(Error::SizeOverflow);
            },
        };
        let ghost st_stride = product(s.take(axis as int));
        let ghost st_step = product(s.skip(axis as int + 1));
        let ghost cnt_s = s[axis as int] as int;
        proof {
            // nt splits into the group count and the row width
            crate::shape::lemma_product_split(target@, axis as int);
            assert(target@.take(axis as int) =~= s.take(axis as int));
            assert(target@.skip(axis as int).skip(1) =~= s.skip(axis as int + 1));
            assert(target@.skip(axis as int)[0] == 1);
            assert(product(target@.skip(axis as int)) == 1 * product(
                target@.skip(axis as int).skip(1),
            ));
            assert(nt == st_stride * st_step);
            // and the buffer splits into groups, rows and the reduced axis
            crate::shape::lemma_product_split(s, axis as int);
            assert(s.skip(axis as int)[0] == s[axis as int]);
            assert(s.skip(axis as int).skip(1) =~= s.skip(axis as int + 1));
            assert(product(s.skip(axis as int)) == s[axis as int] * product(
                s.skip(axis as int).skip(1),
            ));
            assert(self@.data.len() == st_stride * (cnt_s * st_step));
            crate::shape::lemma_product_nonneg(s.take(axis as int));
            crate::shape::lemma_product_nonneg(s.skip(axis as int + 1));
        }
        if nt == 0 {
            let empty_data: Vec<i64> = Vec::new();
            proof {
                assert(max_axis_data(self@.data, st_stride, st_step, cnt_s).len() == (st_stride
                    * st_step) as nat);
                assert(empty_data@ =~= max_axis_data(self@.data, st_stride, st_step, cnt_s));
            }
            return (match crate::tensor::Tensor::new(empty_data, target) {
                Ok(t) => Ok(t),
                Err(_) => {
                    proof {
                        assert(false);
                    }
                    unreached()
                },
            });
        }
        proof {
            assert forall|i: int| 0 <= i < target@.len() implies target@[i] >= 1 by {
                if target@[i] == 0 {
                    crate::shape::lemma_product_zero(target@, i);
                }
            }
            assert(forall|i: int|
                0 <= i < s.take(axis as int).len() ==> #[trigger] s.take(axis as int)[i] >= 1);
            assert(forall|i: int|
                0 <= i < s.skip(axis as int + 1).len() ==> #[trigger] s.skip(axis as int + 1)[i]
                    >= 1);
            crate::shape::lemma_product_pos(s.take(axis as int));
            crate::shape::lemma_product_pos(s.skip(axis as int + 1));
            assert(st_stride <= nt && st_step <= nt) by (nonlinear_arith)
                requires
                    nt == st_stride * st_step,
                    st_stride >= 1,
                    st_step >= 1,
            ;
        }
        let prefv = crate::linalg::take_prefix(sv, axis);
        proof {
            assert(prefv@.skip(0) =~= s.take(axis as int));
        }
        let stride = product_from(&prefv, 0);
        let step = product_from(sv, axis + 1);
        let cnt = sv[axis];
        let d = self.get_data();
        let dn = d.len();
        let ghost mspec = max_axis_data(d@, st_stride, st_step, cnt_s);
        proof {
            assert(mspec.len() == st_stride * st_step);
        }
        let mut out: Vec<i64> = Vec::new();
        let mut i: usize = 0;
        while i < stride
            invariant
                i <= stride,
                stride == st_stride,
                step == st_step,
                cnt == cnt_s,
                step >= 1,
                d@ == self@.data,
                dn == d@.len(),
                dn == stride * (cnt * step),
                mspec == max_axis_data(d@, st_stride, st_step, cnt_s),
                mspec.len() == stride * step,
                stride * step <= usize::MAX,
                i * step <= stride * step,
                out@ == mspec.take(i * step),
            decreases stride - i,
        {
            proof {
                assert(i * step + step <= stride * step && (i + 1) * step == i * step + step && 0
                    <= i * step && i * (cnt * step) + cnt * step <= stride * (cnt * step) && 0 <= i
                    * (cnt * step)) by (nonlinear_arith)
                    requires
                        0 <= i < stride,
                        step >= 1,
                        cnt >= 0,
                ;
            }
            let mut j: usize = 0;
            while j < step
                invariant
                    j <= step,
                    i < stride,
                    stride == st_stride,
                    step == st_step,
                    cnt == cnt_s,
                    step >= 1,
                    d@ == self@.data,
                    dn == d@.len(),
                    dn == stride * (cnt * step),
                    i * (cnt * step) + cnt * step <= stride * (cnt * step),
                    mspec == max_axis_data(d@, st_stride, st_step, cnt_s),
                    mspec.len() == stride * step,
                    stride * step <= usize::MAX,
                    i * step + step <= stride * step,
                    out@ == mspec.take(i * step + j),
                decreases step - j,
            {
                proof {
                    assert(step * cnt == cnt * step) by (nonlinear_arith);
                    assert((cnt >= 1 ==> i * (cnt * step) + j + (cnt - 1) * step < dn) && (cnt
                        == 0 ==> i * (cnt * step) + j == j)) by (nonlinear_arith)
                        requires
                            0 <= j < step,
                            0 <= i,
                            i * (cnt * step) + cnt * step <= stride * (cnt * step),
                            dn == stride * (cnt * step),
                            step >= 1,
                            cnt >= 0,
                    ;
                }
                let base = i * (step * cnt) + j;
                proof {
                    assert(base + (cnt - 1) * step < dn || cnt == 0);
                }
                let mut acc: i64 = i64::MIN;
                let mut k: usize = 0;
                while k < cnt
                    invariant
                        k <= cnt,
                        base + (cnt - 1) * step < dn || cnt == 0,
                        base >= 0,
                        step >= 1,
                        d@ == self@.data,
                        dn == d@.len(),
                        acc == max_strided(d@, base as int, step as int, k as int),
                    decreases cnt - k,
                {
                    proof {
                        assert(base + k * step <= base + (cnt - 1) * step && 0 <= k * step)
                            by (nonlinear_arith)
                            requires
                                0 <= k < cnt,
                                step >= 1,
                                base >= 0,
                        ;
                    }
                    let v = d[base + k * step];
                    if v >= acc {
                        acc = v;
                    }
                    k = k + 1;
                }
                proof {
                    let p = i * step + j;
                    assert(0 <= p && p < stride * step) by (nonlinear_arith)
                        requires
                            p == i * step + j,
                            0 <= i < stride,
                            0 <= j < step,
                            i * step + step <= stride * step,
                    ;
                    vstd::arithmetic::div_mod::lemma_fundamental_div_mod_converse(
                        p,
                        step as int,
                        i as int,
                        j as int,
                    );
                    assert((p / step as int) * (step as int * cnt_s) + p % step as int == base)
                        by (nonlinear_arith)
                        requires
                            p / step as int == i,
                            p % step as int == j,
                            base == i * (step * cnt) + j,
                            cnt == cnt_s,
                            step >= 1,
                    ;
                    assert(mspec[p] == acc);
                    assert(mspec.take(p + 1) =~= mspec.take(p) + seq![mspec[p]]);
                }
                out.push(acc);
                j = j + 1;
            }
            i = i + 1;
        }
        proof {
            assert(mspec.take((stride * step) as int) =~= mspec);
            assert(out@.len() == nt);
        }
        match crate::tensor::Tensor::new(out, target) {
            Ok(t) => Ok(t),
            Err(_) => {
                proof {
                    assert(false);
                }
                unreached()
            },
        }
    }

    /// Sum along one axis, keeping it at size 1; fails when `axis` is out of
    /// range.
    pub fn sum_with_axis(&self, axis: usize) -> (r: Result<crate::tensor::Tensor, Error>)
        requires
            self.wf(),
        ensures
            r is Ok <==> axis < self@.shape.len() && product(
                self@.shape.update(axis as int, 1usize),
            ) <= usize::MAX,
            r matches Ok(t) ==> t.wf() && t@ == (crate::tensor::TensorModel {
                data: sum_to_data(
                    self@.data,
                    self@.shape,
                    self@.shape.update(axis as int, 1usize),
                ),
                shape: self@.shape.update(axis as int, 1usize),
            }),
            axis >= self@.shape.len() ==> r == Result::<crate::tensor::Tensor, Error>::Err(
                Error::ShapeError,
            ),
            axis < self@.shape.len() && product(self@.shape.update(axis as int, 1usize))
                > usize::MAX ==> r == Result::<crate::tensor::Tensor, Error>::Err(
                Error::SizeOverflow,
            ),
    {
        let sv = self.get_shape();
        if axis >= sv.len() {
            return Err(Error::ShapeError);
        }
        let mut target = sv.clone();
        target.set(axis, 1);
        proof {
            assert(target@ =~= self@.shape.update(axis as int, 1usize));
            crate::shape::lemma_padded_id(target@);
            assert forall|i: int|
                0 <= i < self@.shape.len() implies #[trigger] crate::shape::expand_dim_ok(
                padded(target@, self@.shape.len() as int)[i],
                self@.shape[i],
            ) by {
                assert(padded(target@, self@.shape.len() as int)[i] == target@[i]);
                if i == axis {
                    assert(target@[i] == 1);
                } else {
                    assert(target@[i] == self@.shape[i]);
                }
            }
            assert(expandable(target@, self@.shape));
        }
        self.sum_to(&target)
    }
}

} // verus!
