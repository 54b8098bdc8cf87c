use vstd::prelude::*;
use crate::circuit::{op_ok, params_before, Circuit, Operation};

verus! {

/// A parameter vector of the wrong length was given.
#[derive(Debug, Clone, Copy, PartialEq, Eq, Structural)]
pub struct ParamCountError {
    pub expected: usize,
    pub given: usize,
}

/// One factor of a product of cycle matrices: the operations `lo .. hi` of
/// one cycle, with `derivative` naming the operation, and its own parameter,
/// whose gate is replaced by that parameter's derivative matrix.
#[derive(Debug, Clone, Copy, PartialEq, Eq)]
pub struct Factor {
    pub lo: usize,
    pub hi: usize,
    pub derivative: Option<(usize, usize)>,
}

/// Parameter `p` belongs to operation `k`, as its parameter `p - start of k`.
pub open spec fn owns(ops: Seq<Operation>, k: int, p: int) -> bool {
    0 <= k < ops.len() && params_before(ops, k) <= p < params_before(ops, k + 1)
}

/// The operation that owns parameter `p`, and `p`'s position among its parameters.
pub open spec fn owner_of(ops: Seq<Operation>, p: int) -> (usize, usize) {
    let k = choose|k: int| owns(ops, k, p);
    (k as usize, (p - params_before(ops, k)) as usize)
}

/// `bounds` splits the operations into maximal runs of one cycle, in order.
pub open spec fn cycle_bounds_of(ops: Seq<Operation>, b: Seq<usize>) -> bool {
    &&& b.len() >= 1
    &&& b[0] == 0
    &&& b.last() == ops.len()
    &&& forall|t: int| 0 <= t < b.len() - 1 ==> #[trigger] b[t] < b[t + 1]
    &&& forall|t: int, i: int|
        0 <= t < b.len() - 1 && b[t] <= i < b[t + 1] ==> #[trigger] ops[i].cycle == #[trigger] ops[b[t] as int].cycle
    &&& forall|t: int| 0 < t < b.len() - 1 ==> ops[#[trigger] b[t] - 1].cycle != ops[b[t] as int].cycle
}

/// The product of the cycle matrices, leftmost factor first: the last cycle
/// stands on the left. `deriv`, if any, names the operation and local
/// parameter whose derivative replaces its gate in the cycle that holds it.
pub open spec fn factors_of(b: Seq<usize>, deriv: Option<(usize, usize)>) -> Seq<Factor> {
    let m = b.len() - 1;
    Seq::new(
        m as nat,
        |t: int|
            Factor {
                lo: b[m - 1 - t],
                hi: b[m - t],
                derivative: match deriv {
                    Some((k, l)) => if b[m - 1 - t] <= k < b[m - t] {
                        Some((k, l))
                    } else {
                        None
                    },
                    None => None,
                },
            },
    )
}

/// Parameter counts only grow along the operations.
pub proof fn lemma_params_monotone(ops: Seq<Operation>, i: int, j: int)
    requires
        i <= j,
    ensures
        params_before(ops, i) <= params_before(ops, j),
    decreases j - i,
{
    if i < j {
        lemma_params_monotone(ops, i, j - 1);
    }
}

/// The operations' parameter ranges partition the circuit's parameters: each
/// parameter below the total belongs to exactly one operation.
pub proof fn lemma_param_partition(c: Circuit, p: int)
    requires
        c.wf(),
        0 <= p < c.num_params,
    ensures
        exists|k: int| owns(c.ops@, k, p),
        forall|k1: int, k2: int| owns(c.ops@, k1, p) && owns(c.ops@, k2, p) ==> k1 == k2,
{
    let ops = c.ops@;
    lemma_owner_from(ops, 0, p);
    assert forall|k1: int, k2: int| owns(ops, k1, p) && owns(ops, k2, p) implies k1 == k2 by {
        if k1 < k2 {
            lemma_params_monotone(ops, k1 + 1, k2);
        } else if k2 < k1 {
            lemma_params_monotone(ops, k2 + 1, k1);
        }
    }
}

proof fn lemma_owner_from(ops: Seq<Operation>, k: int, p: int)
    requires
        0 <= k <= ops.len(),
        params_before(ops, k) <= p < params_before(ops, ops.len() as int),
    ensures
        exists|k2: int| owns(ops, k2, p),
    decreases ops.len() - k,
{
    if k == ops.len() {
    } else if p < params_before(ops, k + 1) {
        assert(owns(ops, k, p));
    } else {
        lemma_owner_from(ops, k + 1, p);
    }
}

/// An operation holding a constant gate owns no parameter, so it adds no
/// entry to the gradient.
pub proof fn lemma_constant_owns_nothing(c: Circuit, k: int, p: int)
    requires
        c.wf(),
        0 <= k < c.ops@.len(),
        c.ops@[k].gate is Constant,
    ensures
        !owns(c.ops@, k, p),
{
}

/// A circuit without operations has no parameters and one empty group of
/// cycles: its unitary is the empty product and its gradient is empty.
pub proof fn lemma_empty_circuit(c: Circuit, b: Seq<usize>)
    requires
        c.wf(),
        c.ops@.len() == 0,
        cycle_bounds_of(c.ops@, b),
    ensures
        c.num_params == 0,
        b =~= seq![0usize],
        factors_of(b, None) =~= Seq::<Factor>::empty(),
{
    if b.len() > 1 {
        assert(b[0] < b[1]);
        assert(b[1] <= b.last()) by {
            lemma_bounds_increase(b, 1, b.len() - 1);
        }
    }
}

proof fn lemma_bounds_increase(b: Seq<usize>, i: int, j: int)
    requires
        0 <= i <= j < b.len(),
        forall|t: int| 0 <= t < b.len() - 1 ==> #[trigger] b[t] < b[t + 1],
    ensures
        b[i] <= b[j],
    decreases j - i,
{
    if i < j {
        lemma_bounds_increase(b, i, j - 1);
    }
}

/// Between two consecutive boundaries the cycle does not change.
proof fn lemma_no_change_inside(ops: Seq<Operation>, b: Seq<usize>, t: int, i: int)
    requires
        cycle_bounds_of(ops, b),
        0 <= t < b.len() - 1,
        b[t] < i < b[t + 1],
    ensures
        ops[i - 1].cycle == ops[i].cycle,
{
    assert(ops[i - 1].cycle == ops[b[t] as int].cycle);
    assert(ops[i].cycle == ops[b[t] as int].cycle);
}

/// The grouping of operations into cycles is unique.
pub proof fn lemma_cycle_bounds_unique(ops: Seq<Operation>, b1: Seq<usize>, b2: Seq<usize>)
    requires
        cycle_bounds_of(ops, b1),
        cycle_bounds_of(ops, b2),
    ensures
        b1 == b2,
{
    lemma_bounds_prefix_equal(ops, b1, b2, 0);
    if b1.len() < b2.len() {
        let t = b1.len() - 1;
        lemma_bounds_increase(b2, t, b2.len() - 1);
        assert(b2[t] < b2[t + 1]);
        lemma_bounds_increase(b2, t + 1, b2.len() - 1);
        assert(false);
    } else if b2.len() < b1.len() {
        let t = b2.len() - 1;
        assert(b1[t] < b1[t + 1]);
        lemma_bounds_increase(b1, t + 1, b1.len() - 1);
        assert(false);
    }
    assert(b1 =~= b2);
}

proof fn lemma_bounds_prefix_equal(ops: Seq<Operation>, b1: Seq<usize>, b2: Seq<usize>, t: int)
    requires
        cycle_bounds_of(ops, b1),
        cycle_bounds_of(ops, b2),
        0 <= t < b1.len(),
        t < b2.len(),
        forall|u: int| 0 <= u <= t ==> b1[u] == b2[u],
    ensures
        forall|u: int| 0 <= u < b1.len() && u < b2.len() ==> b1[u] == b2[u],
    decreases b1.len() - t,
{
    if t + 1 < b1.len() && t + 1 < b2.len() {
        let x = b1[t + 1] as int;
        let y = b2[t + 1] as int;
        lemma_bounds_increase(b1, t + 1, b1.len() - 1);
        lemma_bounds_increase(b2, t + 1, b2.len() - 1);
        if x < y {
            lemma_no_change_inside(ops, b2, t, x);
            if t + 1 == b1.len() - 1 {
                assert(x == ops.len());
            }
            assert(ops[b1[t + 1] - 1].cycle != ops[b1[t + 1] as int].cycle);
        } else if y < x {
            lemma_no_change_inside(ops, b1, t, y);
            if t + 1 == b2.len() - 1 {
                assert(y == ops.len());
            }
            assert(ops[b2[t + 1] - 1].cycle != ops[b2[t + 1] as int].cycle);
        }
        lemma_bounds_prefix_equal(ops, b1, b2, t + 1);
    }
}

/// Plans built on any two groupings of one circuit's operations into cycles
/// are the same: the unitary and every derivative that the joint evaluation
/// multiplies out are those of the separate evaluations.
pub proof fn lemma_plans_agree(
    ops: Seq<Operation>,
    b1: Seq<usize>,
    b2: Seq<usize>,
    deriv: Option<(usize, usize)>,
)
    requires
        cycle_bounds_of(ops, b1),
        cycle_bounds_of(ops, b2),
    ensures
        factors_of(b1, deriv) == factors_of(b2, deriv),
{
    lemma_cycle_bounds_unique(ops, b1, b2);
}

impl Circuit {
    /// Number of real parameters the circuit takes.
    pub fn num_params(&self) -> (r: usize)
        requires
            self.wf(),
        ensures
            r == params_before(self.ops@, self.ops@.len() as int),
    {
        self.num_params
    }

    /// Checks that a parameter vector has the circuit's length.
    pub fn check_params(&self, given: usize) -> (r: Result<(), ParamCountError>)
        ensures
            r is Ok <==> given == self.num_params,
            r matches Err(e) ==> e.expected == self.num_params && e.given == given,
    {
        if given == self.num_params {
            Ok(())
        } else {
            Err(ParamCountError { expected: self.num_params, given })
        }
    }

    /// Start and length of operation `k`'s slice of the parameter vector.
    pub fn param_range(&self, k: usize) -> (r: (usize, usize))
        requires
            self.wf(),
            k < self.ops@.len(),
        ensures
            r.0 == params_before(self.ops@, k as int),
            r.0 + r.1 == params_before(self.ops@, k as int + 1),
            params_before(self.ops@, k as int + 1) <= usize::MAX,
    {
        proof {
            assert(op_ok(self.radixes(), self.constant_dims@, self.ops@, k as int));
        }
        (self.param_offsets[k], self.ops[k].gate.num_params())
    }

    /// The operation that owns parameter `p`, and `p`'s position among its parameters.
    pub fn param_owner(&self, p: usize) -> (r: (usize, usize))
        requires
            self.wf(),
            p < self.num_params,
        ensures
            owns(self.ops@, r.0 as int, p as int),
            r.1 == p - params_before(self.ops@, r.0 as int),
            r == owner_of(self.ops@, p as int),
    {
        proof {
            lemma_param_partition(*self, p as int);
        }
        let n = self.ops.len();
        let mut k: usize = 0;
        loop
            invariant
                self.wf(),
                n == self.ops@.len(),
                k <= n,
                p < self.num_params,
                params_before(self.ops@, k as int) <= p,
                exists|k2: int| owns(self.ops@, k2, p as int),
                forall|k1: int, k2: int| owns(self.ops@, k1, p as int) && owns(self.ops@, k2, p as int) ==> k1 == k2,
            decreases n - k,
        {
            if k == n {
                assert(false);
            }
            let (start, count) = self.param_range(k);
            if p < start + count {
                return (k, p - start);
            }
            k = k + 1;
        }
    }

    /// Boundaries of the cycles: cycle `t` is made of operations `b[t] .. b[t + 1]`.
    pub fn cycle_bounds(&self) -> (b: Vec<usize>)
        requires
            self.wf(),
        ensures
            cycle_bounds_of(self.ops@, b@),
    {
        let ops = &self.ops;
        let n = ops.len();
        let mut b: Vec<usize> = Vec::new();
        b.push(0);
        if n == 0 {
            return b;
        }
        let mut i: usize = 1;
        while i < n
            invariant
                n == ops@.len(),
                1 <= i <= n,
                b@.len() >= 1,
                b@[0] == 0,
                b@.last() < i,
                forall|t: int| 0 <= t < b@.len() - 1 ==> #[trigger] b@[t] < b@[t + 1],
                forall|t: int, j: int|
                    0 <= t < b@.len() - 1 && b@[t] <= j < b@[t + 1] ==> #[trigger] ops@[j].cycle == #[trigger] ops@[b@[t] as int].cycle,
                forall|j: int| b@.last() <= j < i ==> #[trigger] ops@[j].cycle == ops@[b@.last() as int].cycle,
                forall|t: int| 0 < t < b@.len() ==> ops@[#[trigger] b@[t] - 1].cycle != ops@[b@[t] as int].cycle,
            decreases n - i,
        {
            if ops[i].cycle != ops[i - 1].cycle {
                let ghost old_b = b@;
                b.push(i);
                proof {
                    assert forall|t: int, j: int|
                        0 <= t < b@.len() - 1 && b@[t] <= j < b@[t + 1] implies #[trigger] ops@[j].cycle == #[trigger] ops@[b@[t] as int].cycle by {
                        if t < old_b.len() - 1 {
                            assert(old_b[t] == b@[t] && old_b[t + 1] == b@[t + 1]);
                        } else {
                            assert(b@[t] == old_b.last());
                        }
                    }
                }
            }
            i = i + 1;
        }
        let ghost old_b = b@;
        b.push(n);
        proof {
            assert forall|t: int, j: int|
                0 <= t < b@.len() - 1 && b@[t] <= j < b@[t + 1] implies #[trigger] ops@[j].cycle == #[trigger] ops@[b@[t] as int].cycle by {
                if t < old_b.len() - 1 {
                    assert(old_b[t] == b@[t] && old_b[t + 1] == b@[t + 1]);
                } else {
                    assert(b@[t] == old_b.last());
                }
            }
        }
        b
    }
}

/// The factors of the product for `bounds`, leftmost first.
pub fn factors(bounds: &Vec<usize>, deriv: Option<(usize, usize)>) -> (r: Vec<Factor>)
    requires
        bounds@.len() >= 1,
    ensures
        r@ == factors_of(bounds@, deriv),
{
    let m = bounds.len() - 1;
    let mut r: Vec<Factor> = Vec::new();
    let mut t: usize = 0;
    while t < m
        invariant
            m == bounds@.len() - 1,
            t <= m,
            r@.len() == t,
            forall|i: int| 0 <= i < t ==> #[trigger] r@[i] == factors_of(bounds@, deriv)[i],
        decreases m - t,
    {
        let lo = bounds[m - 1 - t];
        let hi = bounds[m - t];
        let d = match deriv {
            Some((k, l)) => if lo <= k && k < hi {
                Some((k, l))
            } else {
                None
            },
            None => None,
        };
        r.push(Factor { lo, hi, derivative: d });
        t = t + 1;
    }
    assert(r@ =~= factors_of(bounds@, deriv));
    r
}

impl Circuit {
    /// The circuit's unitary as a product of cycle matrices, leftmost first.
    pub fn unitary_plan(&self) -> (r: Vec<Factor>)
        requires
            self.wf(),
        ensures
            exists|b: Seq<usize>| cycle_bounds_of(self.ops@, b) && r@ == factors_of(b, None),
    {
        let b = self.cycle_bounds();
        factors(&b, None)
    }

    /// The derivative of the circuit's unitary along parameter `p`, as a
    /// product: the unitary's factors with the owner's gate replaced by its
    /// derivative along `p`.
    pub fn gradient_plan(&self, p: usize) -> (r: Vec<Factor>)
        requires
            self.wf(),
            p < self.num_params,
        ensures
            exists|b: Seq<usize>|
                cycle_bounds_of(self.ops@, b) && r@ == factors_of(b, Some(owner_of(self.ops@, p as int))),
    {
        let b = self.cycle_bounds();
        let owner = self.param_owner(p);
        factors(&b, Some(owner))
    }

    /// The unitary's factors and each parameter's derivative factors, in
    /// parameter order, from one grouping of the cycles.
    pub fn unitary_and_gradient_plans(&self) -> (r: (Vec<Factor>, Vec<Vec<Factor>>))
        requires
            self.wf(),
        ensures
            r.1@.len() == self.num_params,
            exists|b: Seq<usize>|
                cycle_bounds_of(self.ops@, b) && r.0@ == factors_of(b, None) && forall|p: int|
                    0 <= p < r.1@.len() ==> (#[trigger] r.1@[p])@ == factors_of(
                        b,
                        Some(owner_of(self.ops@, p)),
                    ),
    {
        let b = self.cycle_bounds();
        let u = factors(&b, None);
        let mut g: Vec<Vec<Factor>> = Vec::new();
        let mut p: usize = 0;
        while p < self.num_params
            invariant
                self.wf(),
                cycle_bounds_of(self.ops@, b@),
                p <= self.num_params,
                g@.len() == p,
                forall|q: int|
                    0 <= q < p ==> (#[trigger] g@[q])@ == factors_of(b@, Some(owner_of(self.ops@, q))),
            decreases self.num_params - p,
        {
            let owner = self.param_owner(p);
            let f = factors(&b, Some(owner));
            let ghost old_g = g@;
            g.push(f);
            proof {
                assert(g@[p as int]@ == factors_of(b@, Some(owner)));
                assert forall|q: int| 0 <= q < p implies #[trigger] g@[q] == old_g[q] by {}
            }
            p = p + 1;
        }
        assert(cycle_bounds_of(self.ops@, b@) && u@ == factors_of(b@, None));
        (u, g)
    }
}

} // verus!
