//! Shape algebra: element counts, right-aligned padding, and the two-sided
//! NumPy broadcast rule.

use vstd::prelude::*;

verus! {

/// Element count of a dense array of shape `s` (the empty shape is a scalar).
pub open spec fn product(s: Seq<usize>) -> int
    decreases s.len(),
{
    if s.len() == 0 {
        1
    } else {
        s[0] * product(s.skip(1))
    }
}

pub proof fn lemma_product_nonneg(s: Seq<usize>)
    ensures
        product(s) >= 0,
    decreases s.len(),
{
    if s.len() > 0 {
        lemma_product_nonneg(s.skip(1));
    }
}

/// Splitting a shape splits its element count multiplicatively.
pub proof fn lemma_product_split(s: Seq<usize>, i: int)
    requires
        0 <= i <= s.len(),
    ensures
        product(s) == product(s.take(i)) * product(s.skip(i)),
    decreases i,
{
    if i == 0 {
        assert(s.take(0) =~= Seq::<usize>::empty());
        assert(s.skip(0) =~= s);
    } else {
        lemma_product_split(s.skip(1), i - 1);
        assert(s.take(i).skip(1) =~= s.skip(1).take(i - 1));
        assert(s.skip(1).skip(i - 1) =~= s.skip(i));
        assert(product(s.take(i)) == s[0] * product(s.skip(1).take(i - 1)));
        assert(s[0] * (product(s.skip(1).take(i - 1)) * product(s.skip(i))) == (s[0] * product(
            s.skip(1).take(i - 1),
        )) * product(s.skip(i))) by (nonlinear_arith);
    }
}

/// Extending a prefix by one axis multiplies its element count by that axis.
pub proof fn lemma_product_take_step(s: Seq<usize>, i: int)
    requires
        0 <= i < s.len(),
    ensures
        product(s.take(i + 1)) == product(s.take(i)) * s[i],
{
    lemma_product_split(s.take(i + 1), i);
    assert(s.take(i + 1).take(i) =~= s.take(i));
    assert(s.take(i + 1).skip(i) =~= seq![s[i]]);
    assert(seq![s[i]].skip(1) =~= Seq::<usize>::empty());
    assert(product(Seq::<usize>::empty()) == 1);
    assert(product(seq![s[i]]) == s[i] * product(seq![s[i]].skip(1)));
}

/// A zero axis empties the array.
pub proof fn lemma_product_zero(s: Seq<usize>, i: int)
    requires
        0 <= i < s.len(),
        s[i] == 0,
    ensures
        product(s) == 0,
    decreases i,
{
    if i == 0 {
        lemma_product_nonneg(s.skip(1));
    } else {
        lemma_product_zero(s.skip(1), i - 1);
    }
}

/// With every axis positive the element count is positive.
pub proof fn lemma_product_pos(s: Seq<usize>)
    requires
        forall|i: int| 0 <= i < s.len() ==> s[i] >= 1,
    ensures
        product(s) >= 1,
    decreases s.len(),
{
    if s.len() > 0 {
        lemma_product_pos(s.skip(1));
        assert(s[0] * product(s.skip(1)) >= 1) by (nonlinear_arith)
            requires
                s[0] >= 1,
                product(s.skip(1)) >= 1,
        ;
    }
}

/// `s` right-aligned in a rank-`n` shape, the missing leading axes read as 1.
pub open spec fn padded(s: Seq<usize>, n: int) -> Seq<usize> {
    Seq::new(n as nat, |i: int| if i < n - s.len() { 1usize } else { s[i - (n - s.len())] })
}

/// One aligned axis pair is compatible when the dimensions agree or one is 1.
pub open spec fn dims_compatible(a: usize, b: usize) -> bool {
    a == b || a == 1 || b == 1
}

/// The broadcast of one compatible axis pair.
pub open spec fn bcast_dim(a: usize, b: usize) -> usize {
    if a == 1 {
        b
    } else {
        a
    }
}

pub open spec fn bcast_rank(s0: Seq<usize>, s1: Seq<usize>) -> int {
    if s0.len() >= s1.len() {
        s0.len() as int
    } else {
        s1.len() as int
    }
}

/// The two-sided broadcast rule: right-align both shapes and ask that every
/// aligned axis pair be compatible.
pub open spec fn bcast_ok(s0: Seq<usize>, s1: Seq<usize>) -> bool {
    let n = bcast_rank(s0, s1);
    forall|i: int| 0 <= i < n ==> dims_compatible(padded(s0, n)[i], padded(s1, n)[i])
}

/// The broadcast shape itself, meaningful when `bcast_ok` holds.
pub open spec fn bcast_shape(s0: Seq<usize>, s1: Seq<usize>) -> Seq<usize> {
    let n = bcast_rank(s0, s1);
    Seq::new(n as nat, |i: int| bcast_dim(padded(s0, n)[i], padded(s1, n)[i]))
}

/// Broadcasting is symmetric in its operands.
pub proof fn lemma_bcast_symmetric(s0: Seq<usize>, s1: Seq<usize>)
    requires
        bcast_ok(s0, s1),
    ensures
        bcast_ok(s1, s0),
        bcast_shape(s1, s0) == bcast_shape(s0, s1),
{
    let n = bcast_rank(s0, s1);
    assert forall|i: int| 0 <= i < n implies dims_compatible(padded(s1, n)[i], padded(s0, n)[i])
        && bcast_dim(padded(s1, n)[i], padded(s0, n)[i]) == bcast_dim(
        padded(s0, n)[i],
        padded(s1, n)[i],
    ) by {
        assert(dims_compatible(padded(s0, n)[i], padded(s1, n)[i]));
    }
    assert(bcast_shape(s1, s0) =~= bcast_shape(s0, s1));
}

/// A shape equals its broadcast with itself.
pub proof fn lemma_bcast_self(s: Seq<usize>)
    ensures
        bcast_ok(s, s),
        bcast_shape(s, s) == s,
{
    assert(bcast_shape(s, s) =~= s);
}

/// The one-sided expansion rule of `broadcast_to` and the dual contraction
/// rule of `sum_to`: `s` right-aligns into `t`, every axis equal or 1 in `s`.
pub open spec fn expand_dim_ok(p: usize, t: usize) -> bool {
    p == t || p == 1
}

pub open spec fn expandable(s: Seq<usize>, t: Seq<usize>) -> bool {
    s.len() <= t.len() && forall|i: int|
        0 <= i < t.len() ==> #[trigger] expand_dim_ok(padded(s, t.len() as int)[i], t[i])
}

/// Every shape expands into itself.
pub proof fn lemma_expandable_refl(s: Seq<usize>)
    ensures
        expandable(s, s),
{
    lemma_padded_id(s);
    assert forall|i: int| 0 <= i < s.len() implies #[trigger] expand_dim_ok(
        padded(s, s.len() as int)[i],
        s[i],
    ) by {
        assert(padded(s, s.len() as int)[i] == s[i]);
    }
}

/// Padding a shape to its own length changes nothing.
pub proof fn lemma_padded_id(s: Seq<usize>)
    ensures
        padded(s, s.len() as int) == s,
{
    assert(padded(s, s.len() as int) =~= s);
}

/// Expansion between equal ranks constrains the head axes directly and
/// recurses into the tails.
pub proof fn lemma_expandable_skip_eq(s: Seq<usize>, t: Seq<usize>)
    requires
        expandable(s, t),
        s.len() == t.len(),
        t.len() > 0,
    ensures
        s[0] == t[0] || s[0] == 1,
        expandable(s.skip(1), t.skip(1)),
{
    lemma_padded_id(s);
    assert(padded(s, t.len() as int)[0] == s[0]);
    assert(expand_dim_ok(padded(s, t.len() as int)[0], t[0]));
    let n = t.len() as int - 1;
    assert forall|i: int| 0 <= i < n implies #[trigger] expand_dim_ok(
        padded(s.skip(1), n)[i],
        t.skip(1)[i],
    ) by {
        assert(padded(s.skip(1), n)[i] == s.skip(1)[i]);
        assert(s.skip(1)[i] == s[i + 1]);
        assert(padded(s, t.len() as int)[i + 1] == s[i + 1]);
        assert(expand_dim_ok(padded(s, t.len() as int)[i + 1], t[i + 1]));
    }
}

/// A strictly shorter shape ignores the leading target axis.
pub proof fn lemma_expandable_skip_lt(s: Seq<usize>, t: Seq<usize>)
    requires
        expandable(s, t),
        s.len() < t.len(),
    ensures
        expandable(s, t.skip(1)),
{
    let n = t.len() as int;
    assert forall|i: int| 0 <= i < n - 1 implies #[trigger] expand_dim_ok(
        padded(s, n - 1)[i],
        t.skip(1)[i],
    ) by {
        assert(padded(s, n - 1)[i] == padded(s, n)[i + 1]);
        assert(t.skip(1)[i] == t[i + 1]);
        assert(expand_dim_ok(padded(s, n)[i + 1], t[i + 1]));
    }
}

/// Concatenating shapes multiplies their element counts.
pub proof fn lemma_product_append(x: Seq<usize>, y: Seq<usize>)
    ensures
        product(x + y) == product(x) * product(y),
{
    lemma_product_split(x + y, x.len() as int);
    assert((x + y).take(x.len() as int) =~= x);
    assert((x + y).skip(x.len() as int) =~= y);
}

/// The element count of a two-axis shape.
pub proof fn lemma_product_pair(a: usize, b: usize)
    ensures
        product(seq![a, b]) == a * b,
{
    assert(seq![a, b].skip(1) =~= seq![b]);
    assert(seq![b].skip(1) =~= Seq::<usize>::empty());
    assert(product(Seq::<usize>::empty()) == 1);
    assert(product(seq![b]) == b * product(seq![b].skip(1)));
    assert(product(seq![a, b]) == a * product(seq![a, b].skip(1)));
}

/// Appending the same trailing axes to both shapes preserves expansion.
pub proof fn lemma_expandable_append_axes(s: Seq<usize>, t: Seq<usize>, e: Seq<usize>)
    requires
        expandable(s, t),
    ensures
        expandable(s + e, t + e),
{
    let n = t.len() as int;
    let k = e.len() as int;
    assert forall|i: int| 0 <= i < n + k implies #[trigger] expand_dim_ok(
        padded(s + e, n + k)[i],
        (t + e)[i],
    ) by {
        if i < n - s.len() {
            assert(padded(s + e, n + k)[i] == 1);
        } else if i < n {
            assert(padded(s + e, n + k)[i] == (s + e)[i - (n - s.len())]);
            assert((s + e)[i - (n - s.len())] == s[i - (n - s.len())]);
            assert(padded(s, n)[i] == s[i - (n - s.len())]);
            assert(expand_dim_ok(padded(s, n)[i], t[i]));
            assert((t + e)[i] == t[i]);
        } else {
            assert(padded(s + e, n + k)[i] == (s + e)[i - (n - s.len())]);
            assert(i - (n - s.len()) - s.len() == i - n);
            assert((s + e)[i - (n - s.len())] == e[i - n]);
            assert((t + e)[i] == e[i - n]);
        }
    }
}

/// Padding with leading size-1 axes keeps the element count.
pub proof fn lemma_product_padded(s: Seq<usize>, n: int)
    requires
        s.len() <= n,
    ensures
        product(padded(s, n)) == product(s),
    decreases n,
{
    if n == s.len() {
        lemma_padded_id(s);
    } else {
        assert(padded(s, n).skip(1) =~= padded(s, n - 1));
        assert(padded(s, n)[0] == 1);
        assert(product(padded(s, n)) == 1 * product(padded(s, n).skip(1)));
        lemma_product_padded(s, n - 1);
    }
}

/// Expansion into a shape with no empty axis cannot grow the element count.
pub proof fn lemma_expandable_product_le(s: Seq<usize>, t: Seq<usize>)
    requires
        expandable(s, t),
        forall|i: int| 0 <= i < t.len() ==> t[i] >= 1,
    ensures
        product(s) <= product(t),
{
    let n = t.len() as int;
    assert forall|i: int| 0 <= i < n implies #[trigger] padded(s, n)[i] <= t[i] by {
        assert(expand_dim_ok(padded(s, n)[i], t[i]));
    }
    lemma_product_le_pointwise(padded(s, n), t);
    lemma_product_padded(s, n);
}

/// The empty shape (a scalar) expands into every shape, so it broadcasts
/// with every shape, and the broadcast is the other shape itself.
pub proof fn lemma_bcast_scalar(s: Seq<usize>)
    ensures
        expandable(Seq::<usize>::empty(), s),
        bcast_ok(s, Seq::<usize>::empty()),
        bcast_shape(s, Seq::<usize>::empty()) == s,
        bcast_ok(Seq::<usize>::empty(), s),
        bcast_shape(Seq::<usize>::empty(), s) == s,
{
    let e = Seq::<usize>::empty();
    assert forall|i: int| 0 <= i < s.len() implies #[trigger] expand_dim_ok(
        padded(e, s.len() as int)[i],
        s[i],
    ) by {
        assert(padded(e, s.len() as int)[i] == 1);
    }
    lemma_bcast_absorb(s, e);
    lemma_bcast_symmetric(s, e);
}

/// A shape absorbs anything that expands into it: their two-sided broadcast
/// is the shape itself.
pub proof fn lemma_bcast_absorb(s0: Seq<usize>, s1: Seq<usize>)
    requires
        expandable(s1, s0),
    ensures
        bcast_ok(s0, s1),
        bcast_shape(s0, s1) == s0,
{
    let n = bcast_rank(s0, s1);
    assert(n == s0.len());
    lemma_padded_id(s0);
    assert forall|i: int| 0 <= i < n implies dims_compatible(padded(s0, n)[i], padded(s1, n)[i])
        && bcast_dim(padded(s0, n)[i], padded(s1, n)[i]) == s0[i] by {
        assert(expand_dim_ok(padded(s1, n)[i], s0[i]));
        assert(padded(s0, n)[i] == s0[i]);
    }
    assert(bcast_shape(s0, s1) =~= s0);
}

/// Both operands of a two-sided broadcast expand into the broadcast shape.
pub proof fn lemma_bcast_expandable(s0: Seq<usize>, s1: Seq<usize>)
    requires
        bcast_ok(s0, s1),
    ensures
        expandable(s0, bcast_shape(s0, s1)),
        expandable(s1, bcast_shape(s0, s1)),
{
    let n = bcast_rank(s0, s1);
    let b = bcast_shape(s0, s1);
    assert forall|i: int| 0 <= i < n implies #[trigger] expand_dim_ok(padded(s0, n)[i], b[i])
        && expand_dim_ok(padded(s1, n)[i], b[i]) by {
        assert(dims_compatible(padded(s0, n)[i], padded(s1, n)[i]));
    }
}

/// With every axis of `a` at most the aligned axis of `b`, `a` has no more
/// elements than `b`.
pub proof fn lemma_product_le_pointwise(a: Seq<usize>, b: Seq<usize>)
    requires
        a.len() == b.len(),
        forall|i: int| 0 <= i < a.len() ==> a[i] <= b[i],
    ensures
        product(a) <= product(b),
    decreases a.len(),
{
    if a.len() > 0 {
        lemma_product_le_pointwise(a.skip(1), b.skip(1));
        lemma_product_nonneg(a.skip(1));
        assert(a[0] * product(a.skip(1)) <= b[0] * product(b.skip(1))) by (nonlinear_arith)
            requires
                0 <= a[0] <= b[0],
                0 <= product(a.skip(1)) <= product(b.skip(1)),
        ;
    }
}

/// The dimension of `s0` or `s1`, right-aligned at axis `i` of a rank-`n`
/// result; exec mirror of `padded`.
pub(crate) fn padded_dim(s: &Vec<usize>, n: usize, i: usize) -> (d: usize)
    requires
        s@.len() <= n,
        i < n,
    ensures
        d == padded(s@, n as int)[i as int],
{
    if i < n - s.len() {
        1
    } else {
        s[i - (n - s.len())]
    }
}

/// The shape two operands broadcast to, or `None` when some right-aligned
/// axis pair is incompatible.
pub fn shape_after_broadcast(shape0: &Vec<usize>, shape1: &Vec<usize>) -> (r: Option<Vec<usize>>)
    ensures
        r is Some <==> bcast_ok(shape0@, shape1@),
        r matches Some(v) ==> v@ == bcast_shape(shape0@, shape1@),
{
    let n: usize = if shape0.len() >= shape1.len() {
        shape0.len()
    } else {
        shape1.len()
    };
    let mut res: Vec<usize> = Vec::new();
    let mut i: usize = 0;
    while i < n
        invariant
            i <= n,
            n == bcast_rank(shape0@, shape1@),
            shape0@.len() <= n,
            shape1@.len() <= n,
            res@.len() == i,
            forall|j: int|
                0 <= j < i ==> dims_compatible(
                    padded(shape0@, n as int)[j],
                    padded(shape1@, n as int)[j],
                ),
            forall|j: int| 0 <= j < i ==> res@[j] == bcast_shape(shape0@, shape1@)[j],
        decreases n - i,
    {
        let a = padded_dim(shape0, n, i);
        let b = padded_dim(shape1, n, i);
        if a == b || a == 1 || b == 1 {
            res.push(if a == 1 {
                b
            } else {
                a
            });
        } else {
            assert(!bcast_ok(shape0@, shape1@));
            return None;
        }
        i = i + 1;
    }
    assert(res@ =~= bcast_shape(shape0@, shape1@));
    Some(res)
}

/// Exec mirror of `expandable`.
pub(crate) fn check_expandable(s: &Vec<usize>, t: &Vec<usize>) -> (r: bool)
    ensures
        r == expandable(s@, t@),
{
    if s.len() > t.len() {
        return false;
    }
    let n = t.len();
    let mut i: usize = 0;
    while i < n
        invariant
            i <= n,
            n == t@.len(),
            s@.len() <= n,
            forall|j: int|
                0 <= j < i ==> #[trigger] expand_dim_ok(padded(s@, n as int)[j], t@[j]),
        decreases n - i,
    {
        let p = padded_dim(s, n, i);
        if !(p == t[i] || p == 1) {
            assert(!expand_dim_ok(padded(s@, n as int)[i as int], t@[i as int]));
            return false;
        }
        i = i + 1;
    }
    true
}

} // verus!
