use vstd::prelude::*;

verus! {

/// Product of a sequence of dimensions: the size of the space they span.
pub open spec fn dim_of(rs: Seq<usize>) -> nat
    decreases rs.len(),
{
    if rs.len() == 0 {
        1
    } else {
        dim_of(rs.drop_last()) * (rs.last() as nat)
    }
}

/// Every radix is at least two.
pub open spec fn radixes_valid(rs: Seq<usize>) -> bool {
    forall|i: int| 0 <= i < rs.len() ==> #[trigger] rs[i] >= 2
}

/// A radix list that describes a qudit system whose dimension fits in `usize`.
pub open spec fn system_valid(rs: Seq<usize>) -> bool {
    radixes_valid(rs) && dim_of(rs) <= usize::MAX
}

/// Distance between consecutive values of digit `q`: product of the radixes after `q`.
/// Qudit 0 is the most significant factor of the tensor product.
pub open spec fn stride(rs: Seq<usize>, q: int) -> nat {
    dim_of(rs.subrange(q + 1, rs.len() as int))
}

/// The level of qudit `q` in basis state `idx`.
pub open spec fn digit(idx: nat, rs: Seq<usize>, q: int) -> nat {
    (idx / stride(rs, q)) % (rs[q] as nat)
}

/// Mixed-radix value of `ds` over radixes `rs`, first digit most significant.
pub open spec fn index_value(ds: Seq<nat>, rs: Seq<usize>) -> nat
    decreases ds.len(),
{
    if ds.len() == 0 || rs.len() == 0 {
        0
    } else {
        index_value(ds.drop_last(), rs.drop_last()) * (rs.last() as nat) + ds.last()
    }
}

pub proof fn lemma_dim_concat(a: Seq<usize>, b: Seq<usize>)
    ensures
        dim_of(a + b) == dim_of(a) * dim_of(b),
    decreases b.len(),
{
    if b.len() == 0 {
        assert(a + b =~= a);
        assert(dim_of(b) == 1);
        assert(dim_of(a) * 1 == dim_of(a));
    } else {
        assert((a + b).drop_last() =~= a + b.drop_last());
        lemma_dim_concat(a, b.drop_last());
        assert((a + b).last() == b.last());
        let x = dim_of(a);
        let y = dim_of(b.drop_last());
        let z = b.last() as nat;
        assert(dim_of(a + b) == dim_of(a + b.drop_last()) * z);
        assert(dim_of(b) == y * z);
        assert(dim_of(a + b.drop_last()) == x * y);
        assert(x * y * z == x * (y * z)) by (nonlinear_arith);
        assert(dim_of(a + b) == x * (y * z));
    }
}

pub proof fn lemma_dim_positive(rs: Seq<usize>)
    requires
        radixes_valid(rs),
    ensures
        dim_of(rs) >= 1,
    decreases rs.len(),
{
    if rs.len() > 0 {
        assert(radixes_valid(rs.drop_last()));
        lemma_dim_positive(rs.drop_last());
        let x = dim_of(rs.drop_last());
        let z = rs.last() as nat;
        assert(rs[rs.len() - 1] >= 2);
        assert(x * z >= 1) by (nonlinear_arith)
            requires
                x >= 1,
                z >= 2,
        ;
    }
}

/// The product of any contiguous run of a valid system's radixes is at most its dimension.
pub proof fn lemma_dim_subrange(rs: Seq<usize>, lo: int, hi: int)
    requires
        radixes_valid(rs),
        0 <= lo <= hi <= rs.len(),
    ensures
        1 <= dim_of(rs.subrange(lo, hi)) <= dim_of(rs),
{
    let a = rs.subrange(0, lo);
    let b = rs.subrange(lo, hi);
    let c = rs.subrange(hi, rs.len() as int);
    assert(rs =~= a + b + c);
    lemma_dim_concat(a + b, c);
    lemma_dim_concat(a, b);
    assert(radixes_valid(a));
    assert(radixes_valid(b));
    assert(radixes_valid(c));
    lemma_dim_positive(a);
    lemma_dim_positive(b);
    lemma_dim_positive(c);
    let x = dim_of(a);
    let y = dim_of(b);
    let z = dim_of(c);
    assert(y <= x * y * z) by (nonlinear_arith)
        requires
            x >= 1,
            y >= 1,
            z >= 1,
    ;
}

/// `stride(q) == radix(q + 1) * stride(q + 1)`.
pub proof fn lemma_stride_step(rs: Seq<usize>, q: int)
    requires
        0 <= q,
        q + 1 < rs.len(),
    ensures
        stride(rs, q) == (rs[q + 1] as nat) * stride(rs, q + 1),
        dim_of(rs.subrange(q + 1, rs.len() as int)) == stride(rs, q),
{
    let n = rs.len() as int;
    assert(rs.subrange(q + 1, n) =~= seq![rs[q + 1]] + rs.subrange(q + 2, n));
    lemma_dim_concat(seq![rs[q + 1]], rs.subrange(q + 2, n));
    let one = seq![rs[q + 1]];
    assert(one.drop_last() =~= Seq::<usize>::empty());
    assert(one.last() == rs[q + 1]);
    assert(dim_of(one.drop_last()) == 1);
    assert(dim_of(one) == 1 * (rs[q + 1] as nat));
}

/// The value of digits that are each below their radix is below the product of the radixes.
pub proof fn lemma_index_value_bound(ds: Seq<nat>, rs: Seq<usize>)
    requires
        ds.len() == rs.len(),
        forall|j: int| 0 <= j < ds.len() ==> #[trigger] ds[j] < rs[j],
    ensures
        index_value(ds, rs) < dim_of(rs),
    decreases ds.len(),
{
    if ds.len() > 0 {
        lemma_index_value_bound(ds.drop_last(), rs.drop_last());
        let v = index_value(ds.drop_last(), rs.drop_last());
        let p = dim_of(rs.drop_last());
        let r = rs.last() as nat;
        let d = ds.last();
        assert(d < r);
        assert(v * r + d < p * r) by (nonlinear_arith)
            requires
                v < p,
                d < r,
        ;
    }
}

/// A qudit system: the ordered radixes of its qudits.
#[derive(Debug, Clone)]
pub struct QuditSystem {
    pub radixes: Vec<usize>,
}

/// Reasons a radix list does not describe a qudit system.
#[derive(Debug, Clone, Copy, PartialEq, Eq, Structural)]
pub enum RadixError {
    /// A qudit has fewer than two levels.
    RadixTooSmall,
    /// The product of the radixes does not fit in `usize`.
    DimensionTooLarge,
}

impl QuditSystem {
    pub open spec fn wf(&self) -> bool {
        system_valid(self.radixes@)
    }

    /// Checks the radixes and builds the system.
    pub fn new(radixes: Vec<usize>) -> (r: Result<QuditSystem, RadixError>)
        ensures
            r is Ok <==> system_valid(radixes@),
            r matches Ok(s) ==> s.radixes@ == radixes@,
            r matches Err(e) ==> (e == RadixError::RadixTooSmall <==> !radixes_valid(radixes@)),
    {
        let mut i: usize = 0;
        while i < radixes.len()
            invariant
                i <= radixes.len(),
                forall|j: int| 0 <= j < i ==> #[trigger] radixes@[j] >= 2,
            decreases radixes.len() - i,
        {
            if radixes[i] < 2 {
                return Err(RadixError::RadixTooSmall);
            }
            i = i + 1;
        }
        match checked_dim(&radixes) {
            Some(_) => Ok(QuditSystem { radixes }),
            None => Err(RadixError::DimensionTooLarge),
        }
    }

    /// Number of qudits.
    pub fn num_qudits(&self) -> (r: usize)
        ensures
            r == self.radixes@.len(),
    {
        self.radixes.len()
    }

    /// Dimension of the system's state space.
    pub fn dim(&self) -> (r: usize)
        requires
            self.wf(),
        ensures
            r == dim_of(self.radixes@),
    {
        match checked_dim(&self.radixes) {
            Some(d) => d,
            None => 0,
        }
    }

    /// For each qudit, the distance between consecutive values of its digit.
    pub fn strides(&self) -> (r: Vec<usize>)
        requires
            self.wf(),
        ensures
            r@.len() == self.radixes@.len(),
            forall|q: int| 0 <= q < r@.len() ==> #[trigger] r@[q] == stride(self.radixes@, q),
            forall|q: int| 0 <= q < r@.len() ==> #[trigger] r@[q] >= 1,
    {
        let rs = &self.radixes;
        let n = rs.len();
        let mut out: Vec<usize> = Vec::new();
        if n == 0 {
            return out;
        }
        proof {
            assert(rs@.subrange(n as int, n as int) =~= Seq::<usize>::empty());
        }
        let mut acc: usize = 1;
        let mut k: usize = n;
        // out holds strides k-1 .. n-1 in reverse order of qudits.
        while k > 0
            invariant
                n == rs@.len(),
                0 <= k <= n,
                system_valid(rs@),
                k > 0 ==> acc == stride(rs@, k as int - 1),
                out@.len() == n - k,
                forall|j: int|
                    0 <= j < out@.len() ==> #[trigger] out@[j] == stride(rs@, n - 1 - j),
            decreases k,
        {
            out.push(acc);
            proof {
                lemma_dim_subrange(rs@, k as int, n as int);
            }
            if k > 1 {
                proof {
                    lemma_stride_step(rs@, k as int - 2);
                    lemma_dim_subrange(rs@, k as int - 1, n as int);
                    assert(rs@.subrange(k as int - 1, n as int).len() > 0);
                }
                acc = rs[k - 1] * acc;
            }
            k = k - 1;
        }
        let mut res: Vec<usize> = Vec::new();
        let mut q: usize = 0;
        while q < n
            invariant
                n == rs@.len(),
                q <= n,
                system_valid(rs@),
                out@.len() == n,
                forall|j: int| 0 <= j < n ==> #[trigger] out@[j] == stride(rs@, n - 1 - j),
                res@.len() == q,
                forall|j: int| 0 <= j < q ==> #[trigger] res@[j] == stride(rs@, j),
                forall|j: int| 0 <= j < q ==> #[trigger] res@[j] >= 1,
            decreases n - q,
        {
            proof {
                lemma_dim_subrange(rs@, q as int + 1, n as int);
            }
            res.push(out[n - 1 - q]);
            q = q + 1;
        }
        res
    }
}

/// The product of the radixes, or `None` where it does not fit in `usize`.
pub fn checked_dim(rs: &Vec<usize>) -> (r: Option<usize>)
    requires
        radixes_valid(rs@),
    ensures
        r is Some <==> dim_of(rs@) <= usize::MAX,
        r matches Some(d) ==> d == dim_of(rs@),
{
    let mut acc: usize = 1;
    let mut i: usize = 0;
    while i < rs.len()
        invariant
            i <= rs@.len(),
            radixes_valid(rs@),
            acc == dim_of(rs@.take(i as int)),
        decreases rs@.len() - i,
    {
        proof {
            assert(rs@.take(i as int + 1).drop_last() =~= rs@.take(i as int));
        }
        match acc.checked_mul(rs[i]) {
            Some(v) => {
                acc = v;
            },
            None => {
                proof {
                    lemma_dim_subrange(rs@, 0, i as int + 1);
                    assert(rs@.subrange(0, i as int + 1) =~= rs@.take(i as int + 1));
                }
                return None;
            },
        }
        i = i + 1;
    }
    proof {
        assert(rs@.take(rs@.len() as int) =~= rs@);
    }
    Some(acc)
}

} // verus!
