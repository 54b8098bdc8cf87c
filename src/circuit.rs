use vstd::prelude::*;
use crate::gate::{Gate, lemma_builtin_wf};
use crate::radix::{checked_dim, radixes_valid, system_valid, QuditSystem, RadixError};

verus! {

/// A gate placed on an ordered list of qudits, in a cycle of the circuit.
#[derive(Debug, Clone)]
pub struct Operation {
    pub cycle: usize,
    pub gate: Gate,
    pub location: Vec<usize>,
}

/// Reasons a circuit description is refused; `op` is the position of the
/// first operation at fault.
#[derive(Debug, Clone, Copy, PartialEq, Eq, Structural)]
pub enum CircuitError {
    /// The radix list does not describe a qudit system.
    Radix(RadixError),
    /// Its gate has invalid radixes, or sizes that do not fit in `usize`.
    InvalidGate { op: usize },
    /// The placement does not have one qudit per gate qudit.
    PlacementLength { op: usize },
    /// The placement names a qudit the system does not have.
    QuditOutOfRange { op: usize },
    /// The placement names a qudit twice.
    RepeatedQudit { op: usize },
    /// A placed qudit's radix differs from its gate's.
    RadixMismatch { op: usize },
    /// A constant gate refers past the end of the constant table.
    ConstantIndex { op: usize },
    /// A constant gate's stored matrix does not have that gate's dimension.
    ConstantDimension { op: usize },
    /// Cycles are not in non-decreasing order.
    CycleOrder { op: usize },
    /// Two operations of one cycle share a qudit.
    CycleOverlap { op: usize },
    /// The total parameter count does not fit in `usize`.
    TooManyParams { op: usize },
}

/// No value occurs twice.
pub open spec fn distinct(s: Seq<usize>) -> bool {
    forall|a: int, b: int| 0 <= a < s.len() && 0 <= b < s.len() && a != b ==> s[a] != s[b]
}

/// No value of `a` occurs in `b`.
pub open spec fn disjoint(a: Seq<usize>, b: Seq<usize>) -> bool {
    forall|x: int, y: int| 0 <= x < a.len() && 0 <= y < b.len() ==> a[x] != b[y]
}

/// Number of parameters consumed by the operations before position `i`.
pub open spec fn params_before(ops: Seq<Operation>, i: int) -> nat
    decreases i,
{
    if i <= 0 {
        0
    } else {
        params_before(ops, i - 1) + ops[i - 1].gate.param_count()
    }
}

pub open spec fn placement_in_range(loc: Seq<usize>, n: nat) -> bool {
    forall|j: int| 0 <= j < loc.len() ==> #[trigger] loc[j] < n
}

pub open spec fn radixes_agree(loc: Seq<usize>, rs: Seq<usize>, profile: Seq<usize>) -> bool {
    forall|j: int| 0 <= j < loc.len() ==> rs[#[trigger] loc[j] as int] == profile[j]
}

pub open spec fn constant_index_ok(g: Gate, table: Seq<usize>) -> bool {
    match g {
        Gate::Constant { index, .. } => index < table.len(),
        _ => true,
    }
}

pub open spec fn constant_dim_ok(g: Gate, table: Seq<usize>) -> bool {
    match g {
        Gate::Constant { index, .. } => table[index as int] as nat == g.gate_dim(),
        _ => true,
    }
}

pub open spec fn cycle_ordered(ops: Seq<Operation>, i: int) -> bool {
    i > 0 ==> ops[i - 1].cycle <= ops[i].cycle
}

pub open spec fn cycle_disjoint(ops: Seq<Operation>, i: int) -> bool {
    forall|j: int|
        0 <= j < i && #[trigger] ops[j].cycle == ops[i].cycle ==> disjoint(
            ops[j].location@,
            ops[i].location@,
        )
}

/// Operation `i` is well placed, given the system radixes `rs`, the constant
/// table's matrix dimensions and the operations before it.
pub open spec fn op_ok(rs: Seq<usize>, table: Seq<usize>, ops: Seq<Operation>, i: int) -> bool {
    let op = ops[i];
    let loc = op.location@;
    &&& op.gate.wf()
    &&& loc.len() == op.gate.arity()
    &&& placement_in_range(loc, rs.len())
    &&& distinct(loc)
    &&& radixes_agree(loc, rs, op.gate.radix_profile())
    &&& constant_index_ok(op.gate, table)
    &&& constant_dim_ok(op.gate, table)
    &&& cycle_ordered(ops, i)
    &&& cycle_disjoint(ops, i)
    &&& params_before(ops, i + 1) <= usize::MAX
}

/// The error reported for operation `i` where `op_ok` fails: the first check that fails.
pub open spec fn op_error(rs: Seq<usize>, table: Seq<usize>, ops: Seq<Operation>, i: int) -> CircuitError {
    let op = ops[i];
    let loc = op.location@;
    let k = i as usize;
    if !op.gate.wf() {
        CircuitError::InvalidGate { op: k }
    } else if loc.len() != op.gate.arity() {
        CircuitError::PlacementLength { op: k }
    } else if !placement_in_range(loc, rs.len()) {
        CircuitError::QuditOutOfRange { op: k }
    } else if !distinct(loc) {
        CircuitError::RepeatedQudit { op: k }
    } else if !radixes_agree(loc, rs, op.gate.radix_profile()) {
        CircuitError::RadixMismatch { op: k }
    } else if !constant_index_ok(op.gate, table) {
        CircuitError::ConstantIndex { op: k }
    } else if !constant_dim_ok(op.gate, table) {
        CircuitError::ConstantDimension { op: k }
    } else if !cycle_ordered(ops, i) {
        CircuitError::CycleOrder { op: k }
    } else if !cycle_disjoint(ops, i) {
        CircuitError::CycleOverlap { op: k }
    } else {
        CircuitError::TooManyParams { op: k }
    }
}

/// Every operation of `ops` is well placed.
pub open spec fn ops_ok(rs: Seq<usize>, table: Seq<usize>, ops: Seq<Operation>) -> bool {
    forall|i: int| 0 <= i < ops.len() ==> #[trigger] op_ok(rs, table, ops, i)
}

/// A circuit: a qudit system, its operations in execution order, the dimension
/// of each matrix of the constant table, and where each operation's parameters
/// start in the circuit's parameter vector.
#[derive(Debug, Clone)]
pub struct Circuit {
    pub system: QuditSystem,
    pub ops: Vec<Operation>,
    pub constant_dims: Vec<usize>,
    pub param_offsets: Vec<usize>,
    pub num_params: usize,
}

impl Circuit {
    pub open spec fn radixes(&self) -> Seq<usize> {
        self.system.radixes@
    }

    pub open spec fn wf(&self) -> bool {
        &&& self.system.wf()
        &&& ops_ok(self.radixes(), self.constant_dims@, self.ops@)
        &&& self.param_offsets@.len() == self.ops@.len()
        &&& forall|i: int|
            0 <= i < self.ops@.len() ==> #[trigger] self.param_offsets@[i] == params_before(
                self.ops@,
                i,
            )
        &&& self.num_params == params_before(self.ops@, self.ops@.len() as int)
    }

    /// Checks a circuit description and builds the circuit.
    pub fn new(radixes: Vec<usize>, ops: Vec<Operation>, constant_dims: Vec<usize>) -> (r: Result<
        Circuit,
        CircuitError,
    >)
        ensures
            r is Ok <==> system_valid(radixes@) && ops_ok(radixes@, constant_dims@, ops@),
            r matches Ok(c) ==> c.wf() && c.radixes() == radixes@ && c.ops@ == ops@
                && c.constant_dims@ == constant_dims@,
            r matches Err(e) ==> (match e {
                CircuitError::Radix(_) => !system_valid(radixes@),
                _ => system_valid(radixes@) && exists|i: int|
                    0 <= i < ops@.len() && (forall|j: int| 0 <= j < i ==> op_ok(radixes@, constant_dims@, ops@, j))
                        && !op_ok(radixes@, constant_dims@, ops@, i) && e == op_error(
                        radixes@,
                        constant_dims@,
                        ops@,
                        i,
                    ),
            }),
    {
        let ghost rs0 = radixes@;
        let system = match QuditSystem::new(radixes.clone()) {
            Ok(s) => {
                assert(system_valid(rs0));
                s
            },
            Err(e) => {
                return Err(CircuitError::Radix(e));
            },
        };
        let rs = &system.radixes;
        let mut offsets: Vec<usize> = Vec::new();
        let mut total: usize = 0;
        let mut i: usize = 0;
        while i < ops.len()
            invariant
                system_valid(rs@),
                rs@ == rs0,
                radixes@ == rs0,
                i <= ops@.len(),
                forall|j: int| 0 <= j < i ==> #[trigger] op_ok(rs@, constant_dims@, ops@, j),
                total == params_before(ops@, i as int),
                offsets@.len() == i,
                forall|j: int| 0 <= j < i ==> #[trigger] offsets@[j] == params_before(ops@, j),
            decreases ops@.len() - i,
        {
            match check_op(rs, &constant_dims, &ops, i, total) {
                Err(e) => {
                    assert(0 <= i < ops@.len() && (forall|j: int| 0 <= j < i ==> op_ok(rs0, constant_dims@, ops@, j))
                        && !op_ok(rs0, constant_dims@, ops@, i as int) && e == op_error(
                        rs0,
                        constant_dims@,
                        ops@,
                        i as int,
                    ));
                    assert(!ops_ok(radixes@, constant_dims@, ops@));
                    return Err(e);
                },
                Ok(next) => {
                    offsets.push(total);
                    total = next;
                },
            }
            i = i + 1;
        }
        Ok(Circuit { system, ops, constant_dims, param_offsets: offsets, num_params: total })
    }
}

/// Whether a gate is well formed.
pub fn gate_valid(g: &Gate) -> (r: bool)
    ensures
        r == g.wf(),
{
    match g {
        Gate::Builtin(b) => {
            proof {
                lemma_builtin_wf(*b);
            }
            true
        },
        _ => {
            let rs = g.radixes();
            let mut i: usize = 0;
            while i < rs.len()
                invariant
                    i <= rs@.len(),
                    rs@ == g.radix_profile(),
                    forall|j: int| 0 <= j < i ==> #[trigger] rs@[j] >= 2,
                decreases rs@.len() - i,
            {
                if rs[i] < 2 {
                    assert(rs@[i as int] < 2);
                    assert(!radixes_valid(g.radix_profile()));
                    return false;
                }
                i = i + 1;
            }
            match checked_dim(&rs) {
                None => false,
                Some(d) => match g {
                    Gate::VariableUnitary { .. } => match d.checked_mul(d) {
                        None => {
                            proof {
                                let x = d as nat;
                                assert(2 * x * x >= x * x) by (nonlinear_arith);
                            }
                            false
                        },
                        Some(sq) => {
                            proof {
                                let x = d as nat;
                                assert(2 * x * x == 2 * (x * x)) by (nonlinear_arith);
                            }
                            sq.checked_mul(2).is_some()
                        },
                    },
                    _ => true,
                },
            }
        },
    }
}

/// Whether every qudit of `loc` is below `n`.
fn in_range(loc: &Vec<usize>, n: usize) -> (r: bool)
    ensures
        r == placement_in_range(loc@, n as nat),
{
    let mut j: usize = 0;
    while j < loc.len()
        invariant
            j <= loc@.len(),
            forall|k: int| 0 <= k < j ==> #[trigger] loc@[k] < n,
        decreases loc@.len() - j,
    {
        if loc[j] >= n {
            assert(loc@[j as int] >= n);
            return false;
        }
        j = j + 1;
    }
    true
}

/// Whether no value of `s` occurs twice.
pub fn all_distinct(s: &Vec<usize>) -> (r: bool)
    ensures
        r == distinct(s@),
{
    let mut a: usize = 0;
    while a < s.len()
        invariant
            a <= s@.len(),
            forall|x: int, y: int| 0 <= x < a && 0 <= y < s@.len() && x != y ==> s@[x] != s@[y],
        decreases s@.len() - a,
    {
        let mut b: usize = 0;
        while b < s.len()
            invariant
                a < s@.len(),
                b <= s@.len(),
                forall|x: int, y: int| 0 <= x < a && 0 <= y < s@.len() && x != y ==> s@[x] != s@[y],
                forall|y: int| 0 <= y < b && y != a ==> s@[a as int] != s@[y],
            decreases s@.len() - b,
        {
            if b != a && s[a] == s[b] {
                return false;
            }
            b = b + 1;
        }
        a = a + 1;
    }
    true
}

/// Whether no value of `a` occurs in `b`.
pub fn are_disjoint(a: &Vec<usize>, b: &Vec<usize>) -> (r: bool)
    ensures
        r == disjoint(a@, b@),
{
    let mut x: usize = 0;
    while x < a.len()
        invariant
            x <= a@.len(),
            forall|i: int, j: int| 0 <= i < x && 0 <= j < b@.len() ==> a@[i] != b@[j],
        decreases a@.len() - x,
    {
        let mut y: usize = 0;
        while y < b.len()
            invariant
                x < a@.len(),
                y <= b@.len(),
                forall|i: int, j: int| 0 <= i < x && 0 <= j < b@.len() ==> a@[i] != b@[j],
                forall|j: int| 0 <= j < y ==> a@[x as int] != b@[j],
            decreases b@.len() - y,
        {
            if a[x] == b[y] {
                return false;
            }
            y = y + 1;
        }
        x = x + 1;
    }
    true
}

/// Whether each placed qudit has its gate's radix at that position.
fn radixes_match(loc: &Vec<usize>, rs: &Vec<usize>, profile: &Vec<usize>) -> (r: bool)
    requires
        placement_in_range(loc@, rs@.len()),
        loc@.len() == profile@.len(),
    ensures
        r == radixes_agree(loc@, rs@, profile@),
{
    let mut j: usize = 0;
    while j < loc.len()
        invariant
            j <= loc@.len(),
            loc@.len() == profile@.len(),
            placement_in_range(loc@, rs@.len()),
            forall|k: int| 0 <= k < j ==> rs@[#[trigger] loc@[k] as int] == profile@[k],
        decreases loc@.len() - j,
    {
        if rs[loc[j]] != profile[j] {
            assert(rs@[loc@[j as int] as int] != profile@[j as int]);
            return false;
        }
        j = j + 1;
    }
    true
}

/// Checks operation `i` against the system, the constant table and the
/// operations before it; on success returns the parameter count through it.
fn check_op(
    rs: &Vec<usize>,
    table: &Vec<usize>,
    ops: &Vec<Operation>,
    i: usize,
    before: usize,
) -> (r: Result<usize, CircuitError>)
    requires
        i < ops@.len(),
        before == params_before(ops@, i as int),
    ensures
        r is Ok <==> op_ok(rs@, table@, ops@, i as int),
        r matches Ok(t) ==> t == params_before(ops@, i as int + 1),
        r matches Err(e) ==> e == op_error(rs@, table@, ops@, i as int),
{
    let op = &ops[i];
    let loc = &op.location;
    if !gate_valid(&op.gate) {
        return Err(CircuitError::InvalidGate { op: i });
    }
    if loc.len() != op.gate.num_qudits() {
        return Err(CircuitError::PlacementLength { op: i });
    }
    if !in_range(loc, rs.len()) {
        return Err(CircuitError::QuditOutOfRange { op: i });
    }
    if !all_distinct(loc) {
        return Err(CircuitError::RepeatedQudit { op: i });
    }
    let profile = op.gate.radixes();
    if !radixes_match(loc, rs, &profile) {
        return Err(CircuitError::RadixMismatch { op: i });
    }
    if let Gate::Constant { index, radixes } = &op.gate {
        if *index >= table.len() {
            return Err(CircuitError::ConstantIndex { op: i });
        }
        let d = match checked_dim(radixes) {
            Some(d) => d,
            None => 0,
        };
        if table[*index] != d {
            return Err(CircuitError::ConstantDimension { op: i });
        }
    }
    if i > 0 && ops[i - 1].cycle > op.cycle {
        return Err(CircuitError::CycleOrder { op: i });
    }
    let mut j: usize = 0;
    proof {
        if let Gate::Constant { index, .. } = op.gate {
            assert(table@[index as int] as nat == op.gate.gate_dim());
        }
    }
    assert(constant_dim_ok(op.gate, table@));
    while j < i
        invariant
            i < ops@.len(),
            j <= i,
            op == ops@[i as int],
            loc@ == ops@[i as int].location@,
            op.gate.wf(),
            loc@.len() == op.gate.arity(),
            placement_in_range(loc@, rs@.len()),
            distinct(loc@),
            radixes_agree(loc@, rs@, op.gate.radix_profile()),
            constant_index_ok(op.gate, table@),
            constant_dim_ok(op.gate, table@),
            cycle_ordered(ops@, i as int),
            forall|k: int|
                0 <= k < j && #[trigger] ops@[k].cycle == ops@[i as int].cycle ==> disjoint(
                    ops@[k].location@,
                    ops@[i as int].location@,
                ),
        decreases i - j,
    {
        if ops[j].cycle == op.cycle && !are_disjoint(&ops[j].location, loc) {
            assert(ops@[j as int].cycle == ops@[i as int].cycle);
            assert(!disjoint(ops@[j as int].location@, ops@[i as int].location@));
            assert(!cycle_disjoint(ops@, i as int));
            return Err(CircuitError::CycleOverlap { op: i });
        }
        j = j + 1;
    }
    match before.checked_add(op.gate.num_params()) {
        None => Err(CircuitError::TooManyParams { op: i }),
        Some(t) => Ok(t),
    }
}

} // verus!
