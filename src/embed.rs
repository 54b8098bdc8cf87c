use vstd::prelude::*;
use crate::circuit::{op_ok, placement_in_range, Circuit, Operation};
use crate::radix::{
    digit, dim_of, index_value, lemma_dim_concat, lemma_dim_subrange, lemma_index_value_bound,
    radixes_valid, stride,
};
use vstd::arithmetic::div_mod::{
    lemma_basic_div, lemma_div_denominator, lemma_fundamental_div_mod, lemma_mod_breakdown,
};

verus! {

/// The levels that basis state `idx` gives to the qudits of `loc`, in order.
pub open spec fn placed_digits(idx: nat, rs: Seq<usize>, loc: Seq<usize>) -> Seq<nat> {
    Seq::new(loc.len(), |j: int| digit(idx, rs, loc[j] as int))
}

/// Row (or column) of a placed gate's own matrix that basis state `idx` of
/// the system selects, for a gate with radixes `profile` placed on `loc`.
pub open spec fn local_index(idx: nat, rs: Seq<usize>, loc: Seq<usize>, profile: Seq<usize>) -> nat {
    index_value(placed_digits(idx, rs, loc), profile)
}

/// Qudit `q` is acted on by one of the operations `lo .. hi`.
pub open spec fn covered(ops: Seq<Operation>, lo: int, hi: int, q: int) -> bool {
    exists|k: int, j: int|
        lo <= k < hi && 0 <= j < ops[k].location@.len() && #[trigger] ops[k].location@[j] == q
}

/// Basis states `r` and `c` give the same level to every qudit that none of
/// the operations `lo .. hi` acts on.
pub open spec fn spectators_agree(
    r: nat,
    c: nat,
    rs: Seq<usize>,
    ops: Seq<Operation>,
    lo: int,
    hi: int,
) -> bool {
    forall|q: int|
        0 <= q < rs.len() && !covered(ops, lo, hi, q) ==> #[trigger] digit(r, rs, q) == digit(
            c,
            rs,
            q,
        )
}

/// The entry of operation `k`'s gate matrix that sits at row `r`, column `c`
/// of that matrix embedded into the whole system.
pub open spec fn op_coords(circ: Circuit, k: int, r: nat, c: nat) -> (nat, nat) {
    let op = circ.ops@[k];
    (
        local_index(r, circ.radixes(), op.location@, op.gate.radix_profile()),
        local_index(c, circ.radixes(), op.location@, op.gate.radix_profile()),
    )
}

/// Product of the radixes of qudits `j` and after.
pub open spec fn tail_dim(rs: Seq<usize>, j: int) -> nat {
    dim_of(rs.subrange(j, rs.len() as int))
}

proof fn lemma_tail_step(rs: Seq<usize>, j: int)
    requires
        0 <= j < rs.len(),
    ensures
        tail_dim(rs, j) == (rs[j] as nat) * tail_dim(rs, j + 1),
        stride(rs, j) == tail_dim(rs, j + 1),
{
    let n = rs.len() as int;
    let one = seq![rs[j]];
    assert(rs.subrange(j, n) =~= one + rs.subrange(j + 1, n));
    lemma_dim_concat(one, rs.subrange(j + 1, n));
    assert(one.drop_last() =~= Seq::<usize>::empty());
    assert(one.last() == rs[j]);
    assert(dim_of(one.drop_last()) == 1);
    assert(dim_of(one) == 1 * (rs[j] as nat));
}

proof fn lemma_split_eq(a: int, b: int, x: int, y: int, t: int)
    requires
        t > 0,
        0 <= x < t,
        0 <= y < t,
    ensures
        (a * t + x == b * t + y) <==> (a == b && x == y),
{
    if a * t + x == b * t + y {
        assert(a == b) by (nonlinear_arith)
            requires
                a * t + x == b * t + y,
                t > 0,
                0 <= x < t,
                0 <= y < t,
        ;
    }
}

/// Qudits `j` and after have the same levels in `r` and `c` exactly when
/// `r` and `c` agree modulo the product of those qudits' radixes.
proof fn lemma_low_digits(rs: Seq<usize>, j: int, r: nat, c: nat)
    requires
        radixes_valid(rs),
        0 <= j <= rs.len(),
    ensures
        (forall|q: int| j <= q < rs.len() ==> #[trigger] digit(r, rs, q) == digit(c, rs, q)) <==> (r
            % tail_dim(rs, j) == c % tail_dim(rs, j)),
    decreases rs.len() - j,
{
    let n = rs.len() as int;
    if j == n {
        assert(rs.subrange(n, n) =~= Seq::<usize>::empty());
        assert(tail_dim(rs, j) == 1);
    } else {
        lemma_low_digits(rs, j + 1, r, c);
        lemma_tail_step(rs, j);
        lemma_dim_subrange(rs, j + 1, n);
        let t1 = tail_dim(rs, j + 1);
        let m = rs[j] as nat;
        assert(m >= 2);
        lemma_mod_breakdown(r as int, t1 as int, m as int);
        lemma_mod_breakdown(c as int, t1 as int, m as int);
        assert(t1 * m == m * t1) by (nonlinear_arith);
        let dr = (r / t1) % m;
        let dc = (c / t1) % m;
        assert(digit(r, rs, j) == dr);
        assert(digit(c, rs, j) == dc);
        assert(r % tail_dim(rs, j) == dr * t1 + r % t1) by (nonlinear_arith)
            requires
                r % (t1 * m) == t1 * dr + r % t1,
                tail_dim(rs, j) == t1 * m,
        ;
        assert(c % tail_dim(rs, j) == dc * t1 + c % t1) by (nonlinear_arith)
            requires
                c % (t1 * m) == t1 * dc + c % t1,
                tail_dim(rs, j) == t1 * m,
        ;
        lemma_split_eq(dr as int, dc as int, (r % t1) as int, (c % t1) as int, t1 as int);
        if r % tail_dim(rs, j) == c % tail_dim(rs, j) {
            assert forall|q: int| j <= q < rs.len() implies #[trigger] digit(r, rs, q) == digit(c, rs, q) by {
                if q > j {
                    assert(j + 1 <= q);
                }
            }
        }
    }
}

/// Qudits before `j` have the same levels in `r` and `c` exactly when `r`
/// and `c` have the same quotient by the product of the radixes from `j` on.
proof fn lemma_high_digits(rs: Seq<usize>, j: int, r: nat, c: nat)
    requires
        radixes_valid(rs),
        0 <= j <= rs.len(),
        r < dim_of(rs),
        c < dim_of(rs),
    ensures
        (forall|q: int| 0 <= q < j ==> #[trigger] digit(r, rs, q) == digit(c, rs, q)) <==> (r
            / tail_dim(rs, j) == c / tail_dim(rs, j)),
    decreases j,
{
    let n = rs.len() as int;
    if j == 0 {
        assert(rs.subrange(0, n) =~= rs);
        lemma_basic_div(r as int, dim_of(rs) as int);
        lemma_basic_div(c as int, dim_of(rs) as int);
    } else {
        lemma_high_digits(rs, j - 1, r, c);
        lemma_tail_step(rs, j - 1);
        lemma_dim_subrange(rs, j, n);
        let t = tail_dim(rs, j);
        let m = rs[j - 1] as nat;
        assert(m >= 2);
        lemma_div_denominator(r as int, t as int, m as int);
        lemma_div_denominator(c as int, t as int, m as int);
        assert(t * m == m * t) by (nonlinear_arith);
        let qr = r / t;
        let qc = c / t;
        lemma_fundamental_div_mod(qr as int, m as int);
        lemma_fundamental_div_mod(qc as int, m as int);
        let hr = qr / m;
        let hc = qc / m;
        assert(hr == r / tail_dim(rs, j - 1));
        assert(hc == c / tail_dim(rs, j - 1));
        assert(digit(r, rs, j - 1) == qr % m);
        assert(digit(c, rs, j - 1) == qc % m);
        assert(qr == hr * m + qr % m) by (nonlinear_arith)
            requires
                qr == m * hr + qr % m,
        ;
        assert(qc == hc * m + qc % m) by (nonlinear_arith)
            requires
                qc == m * hc + qc % m,
        ;
        lemma_split_eq(hr as int, hc as int, (qr % m) as int, (qc % m) as int, m as int);
        if r / t == c / t {
            assert forall|q: int| 0 <= q < j implies #[trigger] digit(r, rs, q) == digit(c, rs, q) by {
                if q < j - 1 {
                    assert(0 <= q < j - 1);
                }
            }
        }
    }
}

/// A gate on the single qudit `i` of a system with radixes `rs`, embedded
/// into the whole system, is the Kronecker product `I_L (x) G (x) I_R`, where
/// `I_R` spans the qudits after `i` (of dimension `stride(rs, i)`) and `I_L`
/// those before: entry (`r`, `c`) of the embedding is nonzero only where the
/// other qudits have equal levels, which is where `r` and `c` have the same
/// quotient by `rs[i] * stride(rs, i)` and the same remainder by
/// `stride(rs, i)`; there it is entry (`(r / stride) % rs[i]`,
/// `(c / stride) % rs[i]`) of `G`.
pub proof fn lemma_single_qudit_embedding_is_kronecker(circ: Circuit, k: int, r: nat, c: nat)
    requires
        circ.wf(),
        0 <= k < circ.ops@.len(),
        circ.ops@[k].location@.len() == 1,
        r < dim_of(circ.radixes()),
        c < dim_of(circ.radixes()),
    ensures
        ({
            let rs = circ.radixes();
            let i = circ.ops@[k].location@[0] as int;
            let s = stride(rs, i);
            let d = rs[i] as nat;
            &&& spectators_agree(r, c, rs, circ.ops@, k, k + 1) <==> (r / (d * s) == c / (d * s) && r
                % s == c % s)
            &&& op_coords(circ, k, r, c) == ((r / s) % d, (c / s) % d)
        }),
{
    let rs = circ.radixes();
    let n = rs.len() as int;
    let ops = circ.ops@;
    let loc = ops[k].location@;
    assert(op_ok(rs, circ.constant_dims@, ops, k));
    let i = loc[0] as int;
    assert(0 <= i < n);
    let s = stride(rs, i);
    let d = rs[i] as nat;
    lemma_tail_step(rs, i);
    assert(d * s == s * d) by (nonlinear_arith);
    assert forall|q: int| #[trigger] covered(ops, k, k + 1, q) <==> q == i by {
        if q == i {
            assert(ops[k].location@[0] == q);
        }
    }
    lemma_low_digits(rs, i + 1, r, c);
    lemma_high_digits(rs, i, r, c);
    if spectators_agree(r, c, rs, ops, k, k + 1) {
        assert forall|q: int| i + 1 <= q < n implies #[trigger] digit(r, rs, q) == digit(c, rs, q) by {
            assert(!covered(ops, k, k + 1, q));
        }
        assert forall|q: int| 0 <= q < i implies #[trigger] digit(r, rs, q) == digit(c, rs, q) by {
            assert(!covered(ops, k, k + 1, q));
        }
    }
    if r / (d * s) == c / (d * s) && r % s == c % s {
        assert forall|q: int| 0 <= q < n && !covered(ops, k, k + 1, q) implies #[trigger] digit(r, rs, q) == digit(c, rs, q) by {
            if q < i {
                assert(0 <= q < i);
            } else {
                assert(i + 1 <= q < n);
            }
        }
    }
    let profile = ops[k].gate.radix_profile();
    assert(rs[loc[0] as int] == profile[0]);
    let dr = placed_digits(r, rs, loc);
    let dc = placed_digits(c, rs, loc);
    assert(dr.drop_last() =~= Seq::<nat>::empty());
    assert(dc.drop_last() =~= Seq::<nat>::empty());
    assert(profile.drop_last() =~= Seq::<usize>::empty());
    assert(profile.len() == 1);
    assert(index_value(dr.drop_last(), profile.drop_last()) == 0);
    assert(index_value(dc.drop_last(), profile.drop_last()) == 0);
    assert(dr.last() == dr[0] && dc.last() == dc[0]);
    assert(index_value(dr, profile) == 0 * (profile.last() as nat) + dr[0]);
    assert(index_value(dc, profile) == 0 * (profile.last() as nat) + dc[0]);
}

impl Circuit {
    /// Row or column of operation `k`'s gate matrix that basis state `idx` selects.
    pub fn local_index_of(&self, strides: &Vec<usize>, k: usize, idx: usize) -> (r: usize)
        requires
            self.wf(),
            k < self.ops@.len(),
            strides@.len() == self.radixes().len(),
            forall|q: int| 0 <= q < strides@.len() ==> #[trigger] strides@[q] == stride(self.radixes(), q),
            forall|q: int| 0 <= q < strides@.len() ==> #[trigger] strides@[q] >= 1,
        ensures
            r == local_index(
                idx as nat,
                self.radixes(),
                self.ops@[k as int].location@,
                self.ops@[k as int].gate.radix_profile(),
            ),
            r < self.ops@[k as int].gate.gate_dim(),
    {
        let rs = &self.system.radixes;
        let op = &self.ops[k];
        let loc = &op.location;
        let profile = op.gate.radixes();
        proof {
            assert(op_ok(rs@, self.constant_dims@, self.ops@, k as int));
        }
        let ghost ds = placed_digits(idx as nat, rs@, loc@);
        proof {
            assert forall|j: int| 0 <= j < ds.len() implies #[trigger] ds[j] < profile@[j] by {
                assert(loc@[j] < rs@.len());
                assert(rs@[loc@[j] as int] == profile@[j]);
                assert(rs@[loc@[j] as int] >= 2);
            }
        }
        let mut acc: usize = 0;
        let mut j: usize = 0;
        while j < loc.len()
            invariant
                op == self.ops@[k as int],
                loc@ == op.location@,
                profile@ == op.gate.radix_profile(),
                loc@.len() == profile@.len(),
                ds == placed_digits(idx as nat, rs@, loc@),
                forall|i: int| 0 <= i < ds.len() ==> #[trigger] ds[i] < profile@[i],
                placement_in_range(loc@, rs@.len()),
                strides@.len() == rs@.len(),
                forall|q: int| 0 <= q < strides@.len() ==> #[trigger] strides@[q] == stride(rs@, q),
                forall|q: int| 0 <= q < strides@.len() ==> #[trigger] strides@[q] >= 1,
                radixes_valid(profile@),
                radixes_valid(rs@),
                dim_of(profile@) <= usize::MAX,
                j <= loc@.len(),
                acc == index_value(ds.take(j as int), profile@.take(j as int)),
            decreases loc@.len() - j,
        {
            let q = loc[j];
            assert(q < rs@.len());
            assert(rs@[q as int] >= 2);
            let d = (idx / strides[q]) % rs[q];
            proof {
                assert(d == ds[j as int]);
                let dt = ds.take(j as int + 1);
                let pt = profile@.take(j as int + 1);
                assert(dt.drop_last() =~= ds.take(j as int));
                assert(pt.drop_last() =~= profile@.take(j as int));
                lemma_index_value_bound(dt, pt);
                lemma_dim_subrange(profile@, 0, j as int + 1);
                assert(pt =~= profile@.subrange(0, j as int + 1));
            }
            acc = acc * profile[j] + d;
            j = j + 1;
        }
        proof {
            assert(ds.take(loc@.len() as int) =~= ds);
            assert(profile@.take(loc@.len() as int) =~= profile@);
            lemma_index_value_bound(ds, profile@);
        }
        acc
    }

    /// Marks the qudits acted on by operations `lo .. hi`.
    pub fn covered_qudits(&self, lo: usize, hi: usize) -> (r: Vec<bool>)
        requires
            self.wf(),
            lo <= hi <= self.ops@.len(),
        ensures
            r@.len() == self.radixes().len(),
            forall|q: int| 0 <= q < r@.len() ==> (#[trigger] r@[q] <==> covered(self.ops@, lo as int, hi as int, q)),
    {
        let n = self.system.radixes.len();
        let mut flags: Vec<bool> = Vec::new();
        let mut q: usize = 0;
        while q < n
            invariant
                q <= n,
                flags@.len() == q,
                forall|i: int| 0 <= i < q ==> !(#[trigger] flags@[i]),
            decreases n - q,
        {
            flags.push(false);
            q = q + 1;
        }
        let ghost ops = self.ops@;
        let mut k: usize = lo;
        while k < hi
            invariant
                self.wf(),
                ops == self.ops@,
                n == self.radixes().len(),
                lo <= k <= hi <= ops.len(),
                flags@.len() == n,
                forall|i: int| 0 <= i < n ==> (#[trigger] flags@[i] <==> covered(ops, lo as int, k as int, i)),
            decreases hi - k,
        {
            let loc = &self.ops[k].location;
            proof {
                assert(op_ok(self.radixes(), self.constant_dims@, ops, k as int));
            }
            let mut j: usize = 0;
            while j < loc.len()
                invariant
                    self.wf(),
                    ops == self.ops@,
                    n == self.radixes().len(),
                    lo <= k < hi <= ops.len(),
                    loc@ == ops[k as int].location@,
                    placement_in_range(loc@, n as nat),
                    j <= loc@.len(),
                    flags@.len() == n,
                    forall|i: int|
                        0 <= i < n ==> (#[trigger] flags@[i] <==> (covered(ops, lo as int, k as int, i) || exists|j2: int|
                            0 <= j2 < j && loc@[j2] == i)),
                decreases loc@.len() - j,
            {
                let qq = loc[j];
                flags.set(qq, true);
                proof {
                    assert forall|i: int| 0 <= i < n implies (#[trigger] flags@[i] <==> (covered(ops, lo as int, k as int, i) || exists|j2: int|
                            0 <= j2 < j + 1 && loc@[j2] == i)) by {
                        if i == qq {
                            assert(loc@[j as int] == i);
                        }
                    }
                }
                j = j + 1;
            }
            proof {
                assert forall|i: int| 0 <= i < n implies (#[trigger] flags@[i] <==> covered(ops, lo as int, k as int + 1, i)) by {
                    if covered(ops, lo as int, k as int + 1, i) {
                        let (k2, j2) = choose|k2: int, j2: int|
                            lo <= k2 < k + 1 && 0 <= j2 < ops[k2].location@.len() && #[trigger] ops[k2].location@[j2] == i;
                        if k2 < k {
                            assert(covered(ops, lo as int, k as int, i));
                        } else {
                            assert(loc@[j2] == i);
                        }
                    }
                    if covered(ops, lo as int, k as int, i) {
                        let (k2, j2) = choose|k2: int, j2: int|
                            lo <= k2 < k && 0 <= j2 < ops[k2].location@.len() && #[trigger] ops[k2].location@[j2] == i;
                        assert(ops[k2].location@[j2] == i);
                    }
                    if exists|j2: int| 0 <= j2 < loc@.len() && loc@[j2] == i {
                        let j2 = choose|j2: int| 0 <= j2 < loc@.len() && loc@[j2] == i;
                        assert(ops[k as int].location@[j2] == i);
                    }
                }
            }
            k = k + 1;
        }
        flags
    }

    /// Where entry (`r`, `c`) of the product of the embedded gates of
    /// operations `lo .. hi` comes from: `None` where it is zero, because a
    /// qudit none of them acts on has different levels in `r` and `c`;
    /// otherwise, for each operation, the entry of its gate matrix that is a
    /// factor of it.
    pub fn cycle_entry(&self, strides: &Vec<usize>, lo: usize, hi: usize, r: usize, c: usize) -> (res:
        Option<Vec<(usize, usize)>>)
        requires
            self.wf(),
            lo <= hi <= self.ops@.len(),
            strides@.len() == self.radixes().len(),
            forall|q: int| 0 <= q < strides@.len() ==> #[trigger] strides@[q] == stride(self.radixes(), q),
            forall|q: int| 0 <= q < strides@.len() ==> #[trigger] strides@[q] >= 1,
        ensures
            res is Some <==> spectators_agree(r as nat, c as nat, self.radixes(), self.ops@, lo as int, hi as int),
            res matches Some(v) ==> v@.len() == hi - lo && forall|t: int|
                0 <= t < v@.len() ==> (#[trigger] v@[t]).0 as nat == op_coords(*self, lo + t, r as nat, c as nat).0
                    && v@[t].1 as nat == op_coords(*self, lo + t, r as nat, c as nat).1,
    {
        let flags = self.covered_qudits(lo, hi);
        let rs = &self.system.radixes;
        let n = rs.len();
        let mut q: usize = 0;
        while q < n
            invariant
                self.wf(),
                rs@ == self.radixes(),
                n == rs@.len(),
                q <= n,
                flags@.len() == n,
                forall|i: int| 0 <= i < n ==> (#[trigger] flags@[i] <==> covered(self.ops@, lo as int, hi as int, i)),
                strides@.len() == n,
                forall|i: int| 0 <= i < n ==> #[trigger] strides@[i] == stride(rs@, i),
                forall|i: int| 0 <= i < n ==> #[trigger] strides@[i] >= 1,
                forall|i: int| 0 <= i < q && !covered(self.ops@, lo as int, hi as int, i) ==> #[trigger] digit(r as nat, rs@, i) == digit(c as nat, rs@, i),
            decreases n - q,
        {
            assert(rs@[q as int] >= 2);
            if !flags[q] && (r / strides[q]) % rs[q] != (c / strides[q]) % rs[q] {
                assert(digit(r as nat, rs@, q as int) != digit(c as nat, rs@, q as int));
                return None;
            }
            q = q + 1;
        }
        let mut v: Vec<(usize, usize)> = Vec::new();
        let mut k: usize = lo;
        while k < hi
            invariant
                self.wf(),
                lo <= k <= hi <= self.ops@.len(),
                strides@.len() == self.radixes().len(),
                forall|i: int| 0 <= i < strides@.len() ==> #[trigger] strides@[i] == stride(self.radixes(), i),
                forall|i: int| 0 <= i < strides@.len() ==> #[trigger] strides@[i] >= 1,
                v@.len() == k - lo,
                forall|t: int|
                    0 <= t < v@.len() ==> (#[trigger] v@[t]).0 as nat == op_coords(*self, lo + t, r as nat, c as nat).0
                        && v@[t].1 as nat == op_coords(*self, lo + t, r as nat, c as nat).1,
            decreases hi - k,
        {
            let a = self.local_index_of(strides, k, r);
            let b = self.local_index_of(strides, k, c);
            v.push((a, b));
            k = k + 1;
        }
        Some(v)
    }
}

} // verus!
