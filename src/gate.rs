use vstd::prelude::*;
use crate::radix::{checked_dim, dim_of, radixes_valid};

verus! {

/// The closed-form gates evaluated by the engine itself.
#[derive(Debug, Clone, Copy, PartialEq, Eq, Structural)]
pub enum BuiltinGate {
    CRX,
    CRY,
    CRZ,
    RX,
    RY,
    RZ,
    RXX,
    RYY,
    RZZ,
    U1,
    U2,
    U3,
    U8,
}

/// A gate as the circuit holds it.
#[derive(Debug, Clone, PartialEq, Eq)]
pub enum Gate {
    /// One of the closed-form gates.
    Builtin(BuiltinGate),
    /// The general parameterized unitary over the given radixes.
    VariableUnitary { radixes: Vec<usize> },
    /// A fixed matrix, stored at `index` of the circuit's constant table.
    Constant { index: usize, radixes: Vec<usize> },
    /// A gate evaluated by an outside implementation, registered under `handle`.
    Dynamic { handle: usize, num_params: usize, radixes: Vec<usize> },
}

/// Reasons a gate description is refused.
#[derive(Debug, Clone, Copy, PartialEq, Eq, Structural)]
pub enum GateError {
    /// The number of qudits does not match the radix list.
    ArityMismatch,
    /// A radix is below two.
    RadixTooSmall,
    /// The matrix dimension, or the parameter count, does not fit in `usize`.
    TooLarge,
    /// An outside gate with parameters offers neither a gradient with a joint
    /// evaluator nor its own optimizer.
    MissingCapability,
}

/// What an outside gate reports about itself.
#[derive(Debug, Clone)]
pub struct ForeignGateInfo {
    pub num_qudits: usize,
    pub radixes: Vec<usize>,
    pub num_params: usize,
    pub has_unitary: bool,
    pub has_gradient: bool,
    pub has_joint: bool,
    pub has_optimize: bool,
}

/// How the circuit takes an outside gate in.
#[derive(Debug, Clone, Copy, PartialEq, Eq, Structural)]
pub enum ForeignRole {
    /// No parameters: its matrix is captured once into the constant table.
    Constant,
    /// Evaluated through the outside implementation at every call.
    Dynamic,
}

pub open spec fn qubits(k: nat) -> Seq<usize> {
    Seq::new(k, |i: int| 2usize)
}

/// Radixes of a built-in gate.
pub open spec fn builtin_radixes(g: BuiltinGate) -> Seq<usize> {
    match g {
        BuiltinGate::CRX | BuiltinGate::CRY | BuiltinGate::CRZ | BuiltinGate::RXX
        | BuiltinGate::RYY | BuiltinGate::RZZ => qubits(2),
        BuiltinGate::U8 => seq![3usize],
        _ => qubits(1),
    }
}

/// Parameter count of a built-in gate.
pub open spec fn builtin_params(g: BuiltinGate) -> nat {
    match g {
        BuiltinGate::U2 => 2,
        BuiltinGate::U3 => 3,
        BuiltinGate::U8 => 8,
        _ => 1,
    }
}

/// The general unitary on a `d`-dimensional space has a real and an imaginary
/// parameter for each matrix entry.
pub open spec fn variable_params(rs: Seq<usize>) -> nat {
    2 * dim_of(rs) * dim_of(rs)
}

/// The built-in gate registered under `name`.
pub open spec fn builtin_of_name(name: Seq<char>) -> Option<BuiltinGate> {
    if name == "CRXGate"@ {
        Some(BuiltinGate::CRX)
    } else if name == "CRYGate"@ {
        Some(BuiltinGate::CRY)
    } else if name == "CRZGate"@ {
        Some(BuiltinGate::CRZ)
    } else if name == "RXGate"@ {
        Some(BuiltinGate::RX)
    } else if name == "RYGate"@ {
        Some(BuiltinGate::RY)
    } else if name == "RZGate"@ {
        Some(BuiltinGate::RZ)
    } else if name == "RXXGate"@ {
        Some(BuiltinGate::RXX)
    } else if name == "RYYGate"@ {
        Some(BuiltinGate::RYY)
    } else if name == "RZZGate"@ {
        Some(BuiltinGate::RZZ)
    } else if name == "U1Gate"@ {
        Some(BuiltinGate::U1)
    } else if name == "U2Gate"@ {
        Some(BuiltinGate::U2)
    } else if name == "U3Gate"@ {
        Some(BuiltinGate::U3)
    } else if name == "U8Gate"@ {
        Some(BuiltinGate::U8)
    } else {
        None
    }
}

/// Whether `name` names the general parameterized unitary.
pub open spec fn is_variable_name(name: Seq<char>) -> bool {
    name == "VariableUnitaryGate"@
}

/// The role an outside gate takes, or why it is refused.
pub open spec fn foreign_role(info: ForeignGateInfo) -> Result<ForeignRole, GateError> {
    if info.num_params == 0 {
        Ok(ForeignRole::Constant)
    } else if info.has_unitary && ((info.has_gradient && info.has_joint) || info.has_optimize) {
        Ok(ForeignRole::Dynamic)
    } else {
        Err(GateError::MissingCapability)
    }
}

/// Shape checks shared by every gate that reports its own radixes.
pub open spec fn shape_error(num_qudits: nat, rs: Seq<usize>) -> Option<GateError> {
    if num_qudits != rs.len() {
        Some(GateError::ArityMismatch)
    } else if !radixes_valid(rs) {
        Some(GateError::RadixTooSmall)
    } else if dim_of(rs) > usize::MAX {
        Some(GateError::TooLarge)
    } else {
        None
    }
}

impl Gate {
    /// Radix of each qudit this gate acts on, in order.
    pub open spec fn radix_profile(&self) -> Seq<usize> {
        match self {
            Gate::Builtin(g) => builtin_radixes(*g),
            Gate::VariableUnitary { radixes } => radixes@,
            Gate::Constant { radixes, .. } => radixes@,
            Gate::Dynamic { radixes, .. } => radixes@,
        }
    }

    /// Number of qudits this gate acts on.
    pub open spec fn arity(&self) -> nat {
        self.radix_profile().len()
    }

    /// Number of real parameters this gate consumes.
    pub open spec fn param_count(&self) -> nat {
        match self {
            Gate::Builtin(g) => builtin_params(*g),
            Gate::VariableUnitary { radixes } => variable_params(radixes@),
            Gate::Constant { .. } => 0,
            Gate::Dynamic { num_params, .. } => *num_params as nat,
        }
    }

    /// Radixes are valid, and the matrix dimension and parameter count fit in `usize`.
    pub open spec fn wf(&self) -> bool {
        &&& radixes_valid(self.radix_profile())
        &&& dim_of(self.radix_profile()) <= usize::MAX
        &&& self.param_count() <= usize::MAX
    }

    /// Side length of this gate's matrix.
    pub open spec fn gate_dim(&self) -> nat {
        dim_of(self.radix_profile())
    }

    /// Number of qudits this gate acts on.
    pub fn num_qudits(&self) -> (r: usize)
        ensures
            r == self.arity(),
    {
        match self {
            Gate::Builtin(g) => match g {
                BuiltinGate::CRX | BuiltinGate::CRY | BuiltinGate::CRZ | BuiltinGate::RXX
                | BuiltinGate::RYY | BuiltinGate::RZZ => 2,
                _ => 1,
            },
            Gate::VariableUnitary { radixes } => radixes.len(),
            Gate::Constant { radixes, .. } => radixes.len(),
            Gate::Dynamic { radixes, .. } => radixes.len(),
        }
    }

    /// Radix of each qudit this gate acts on.
    pub fn radixes(&self) -> (r: Vec<usize>)
        ensures
            r@ == self.radix_profile(),
    {
        match self {
            Gate::Builtin(g) => match g {
                BuiltinGate::CRX | BuiltinGate::CRY | BuiltinGate::CRZ | BuiltinGate::RXX
                | BuiltinGate::RYY | BuiltinGate::RZZ => {
                    let r = vec![2usize, 2usize];
                    assert(r@ =~= qubits(2));
                    r
                },
                BuiltinGate::U8 => {
                    let r = vec![3usize];
                    assert(r@ =~= seq![3usize]);
                    r
                },
                _ => {
                    let r = vec![2usize];
                    assert(r@ =~= qubits(1));
                    r
                },
            },
            Gate::VariableUnitary { radixes } => radixes.clone(),
            Gate::Constant { radixes, .. } => radixes.clone(),
            Gate::Dynamic { radixes, .. } => radixes.clone(),
        }
    }

    /// Number of real parameters this gate consumes.
    pub fn num_params(&self) -> (r: usize)
        requires
            self.wf(),
        ensures
            r == self.param_count(),
    {
        match self {
            Gate::Builtin(g) => match g {
                BuiltinGate::U2 => 2,
                BuiltinGate::U3 => 3,
                BuiltinGate::U8 => 8,
                _ => 1,
            },
            Gate::VariableUnitary { radixes } => {
                match checked_variable_params(radixes) {
                    Some(p) => p,
                    None => 0,
                }
            },
            Gate::Constant { .. } => 0,
            Gate::Dynamic { num_params, .. } => *num_params,
        }
    }
}

/// Every built-in gate is well formed.
pub proof fn lemma_builtin_wf(g: BuiltinGate)
    ensures
        Gate::Builtin(g).wf(),
        Gate::Builtin(g).gate_dim() == match g {
            BuiltinGate::CRX | BuiltinGate::CRY | BuiltinGate::CRZ | BuiltinGate::RXX
            | BuiltinGate::RYY | BuiltinGate::RZZ => 4nat,
            BuiltinGate::U8 => 3nat,
            _ => 2nat,
        },
{
    let e = Seq::<usize>::empty();
    assert(qubits(1).drop_last() =~= e);
    assert(qubits(2).drop_last() =~= qubits(1));
    assert(seq![3usize].drop_last() =~= e);
    assert(dim_of(e) == 1);
    assert(qubits(1).last() == 2);
    assert(qubits(2).last() == 2);
    assert(seq![3usize].last() == 3);
    assert(dim_of(qubits(1)) == 2);
    assert(dim_of(qubits(2)) == 4);
    assert(dim_of(seq![3usize]) == 3);
}

/// Parameter count of the general unitary over `rs`, where it fits in `usize`.
fn checked_variable_params(rs: &Vec<usize>) -> (r: Option<usize>)
    requires
        radixes_valid(rs@),
    ensures
        r is Some <==> variable_params(rs@) <= usize::MAX,
        r matches Some(p) ==> p == variable_params(rs@),
{
    match checked_dim(rs) {
        None => {
            proof {
                let d = dim_of(rs@);
                assert(2 * d * d >= d) by (nonlinear_arith);
            }
            None
        },
        Some(d) => {
            match d.checked_mul(d) {
                None => {
                    proof {
                        let dd = dim_of(rs@);
                        assert(2 * dd * dd == 2 * (dd * dd)) by (nonlinear_arith);
                    }
                    None
                },
                Some(sq) => {
                    proof {
                        let dd = dim_of(rs@);
                        assert(2 * dd * dd == 2 * (dd * dd)) by (nonlinear_arith);
                    }
                    sq.checked_mul(2)
                },
            }
        },
    }
}

/// Whether two texts are equal, character by character.
pub fn same_text(a: &str, b: &str) -> (r: bool)
    ensures
        r == (a@ == b@),
{
    let n = a.unicode_len();
    if n != b.unicode_len() {
        return false;
    }
    let mut i: usize = 0;
    while i < n
        invariant
            n == a@.len(),
            n == b@.len(),
            i <= n,
            forall|j: int| 0 <= j < i ==> a@[j] == b@[j],
        decreases n - i,
    {
        if a.get_char(i) != b.get_char(i) {
            return false;
        }
        i = i + 1;
    }
    assert(a@ =~= b@);
    true
}

/// Looks up the built-in gate registered under `name`.
pub fn builtin_named(name: &str) -> (r: Option<BuiltinGate>)
    ensures
        r == builtin_of_name(name@),
{
    if same_text(name, "CRXGate") {
        Some(BuiltinGate::CRX)
    } else if same_text(name, "CRYGate") {
        Some(BuiltinGate::CRY)
    } else if same_text(name, "CRZGate") {
        Some(BuiltinGate::CRZ)
    } else if same_text(name, "RXGate") {
        Some(BuiltinGate::RX)
    } else if same_text(name, "RYGate") {
        Some(BuiltinGate::RY)
    } else if same_text(name, "RZGate") {
        Some(BuiltinGate::RZ)
    } else if same_text(name, "RXXGate") {
        Some(BuiltinGate::RXX)
    } else if same_text(name, "RYYGate") {
        Some(BuiltinGate::RYY)
    } else if same_text(name, "RZZGate") {
        Some(BuiltinGate::RZZ)
    } else if same_text(name, "U1Gate") {
        Some(BuiltinGate::U1)
    } else if same_text(name, "U2Gate") {
        Some(BuiltinGate::U2)
    } else if same_text(name, "U3Gate") {
        Some(BuiltinGate::U3)
    } else if same_text(name, "U8Gate") {
        Some(BuiltinGate::U8)
    } else {
        None
    }
}

/// Decides how an outside gate is taken in, from the capabilities it offers.
pub fn classify_foreign(info: &ForeignGateInfo) -> (r: Result<ForeignRole, GateError>)
    ensures
        r == foreign_role(*info),
{
    if info.num_params == 0 {
        Ok(ForeignRole::Constant)
    } else if info.has_unitary && ((info.has_gradient && info.has_joint) || info.has_optimize) {
        Ok(ForeignRole::Dynamic)
    } else {
        Err(GateError::MissingCapability)
    }
}

/// Checks that a gate's reported qudit count and radixes agree and are usable.
pub fn check_shape(num_qudits: usize, rs: &Vec<usize>) -> (r: Option<GateError>)
    ensures
        r == shape_error(num_qudits as nat, rs@),
{
    if num_qudits != rs.len() {
        return Some(GateError::ArityMismatch);
    }
    let mut i: usize = 0;
    while i < rs.len()
        invariant
            i <= rs@.len(),
            num_qudits == rs@.len(),
            forall|j: int| 0 <= j < i ==> #[trigger] rs@[j] >= 2,
        decreases rs@.len() - i,
    {
        if rs[i] < 2 {
            assert(rs@[i as int] < 2);
            assert(!radixes_valid(rs@));
            return Some(GateError::RadixTooSmall);
        }
        i = i + 1;
    }
    match checked_dim(rs) {
        Some(_) => None,
        None => Some(GateError::TooLarge),
    }
}

/// What a gate description resolves to: a built-in by name, the general
/// unitary, or an outside gate that becomes entry `table_len` of the constant
/// table or dynamic gate `handle`.
pub open spec fn resolved_gate(
    name: Seq<char>,
    info: ForeignGateInfo,
    table_len: usize,
    handle: usize,
) -> Result<Gate, GateError> {
    if let Some(g) = builtin_of_name(name) {
        Ok(Gate::Builtin(g))
    } else if let Some(e) = shape_error(info.num_qudits as nat, info.radixes@) {
        Err(e)
    } else if is_variable_name(name) {
        if variable_params(info.radixes@) > usize::MAX {
            Err(GateError::TooLarge)
        } else {
            Ok(Gate::VariableUnitary { radixes: info.radixes })
        }
    } else {
        match foreign_role(info) {
            Err(e) => Err(e),
            Ok(ForeignRole::Constant) => Ok(Gate::Constant { index: table_len, radixes: info.radixes }),
            Ok(ForeignRole::Dynamic) => Ok(
                Gate::Dynamic { handle, num_params: info.num_params, radixes: info.radixes },
            ),
        }
    }
}

/// Resolves a gate description into the circuit's representation.
pub fn resolve_gate(name: &str, info: ForeignGateInfo, table_len: usize, handle: usize) -> (r:
    Result<Gate, GateError>)
    ensures
        r == resolved_gate(name@, info, table_len, handle),
        r matches Ok(g) ==> g.wf(),
{
    if let Some(g) = builtin_named(name) {
        proof {
            lemma_builtin_wf(g);
        }
        return Ok(Gate::Builtin(g));
    }
    if let Some(e) = check_shape(info.num_qudits, &info.radixes) {
        return Err(e);
    }
    if same_text(name, "VariableUnitaryGate") {
        match checked_variable_params(&info.radixes) {
            None => Err(GateError::TooLarge),
            Some(_) => Ok(Gate::VariableUnitary { radixes: info.radixes }),
        }
    } else {
        match classify_foreign(&info) {
            Err(e) => Err(e),
            Ok(ForeignRole::Constant) => Ok(
                Gate::Constant { index: table_len, radixes: info.radixes },
            ),
            Ok(ForeignRole::Dynamic) => Ok(
                Gate::Dynamic {
                    handle,
                    num_params: info.num_params,
                    radixes: info.radixes,
                },
            ),
        }
    }
}

} // verus!
