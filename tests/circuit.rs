use bqskitrs::circuit::{Circuit, CircuitError, Operation};
use bqskitrs::gate::{
    builtin_named, classify_foreign, resolve_gate, same_text, BuiltinGate, ForeignGateInfo,
    ForeignRole, Gate, GateError,
};
use bqskitrs::plan::Factor;
use bqskitrs::radix::{QuditSystem, RadixError};

fn op(cycle: usize, gate: Gate, location: Vec<usize>) -> Operation {
    Operation { cycle, gate, location }
}

fn info(num_qudits: usize, radixes: Vec<usize>, num_params: usize) -> ForeignGateInfo {
    ForeignGateInfo {
        num_qudits,
        radixes,
        num_params,
        has_unitary: true,
        has_gradient: false,
        has_joint: false,
        has_optimize: false,
    }
}

fn cnot() -> Gate {
    Gate::Constant { index: 0, radixes: vec![2, 2] }
}

/// Radixes [2, 2]: a rotation on qudit 0, then a constant two-qudit gate.
fn rotation_then_constant() -> Circuit {
    Circuit::new(
        vec![2, 2],
        vec![op(0, Gate::Builtin(BuiltinGate::RX), vec![0]), op(1, cnot(), vec![0, 1])],
        vec![4],
    )
    .unwrap()
}

type C = (f64, f64);

fn cmul(a: C, b: C) -> C {
    (a.0 * b.0 - a.1 * b.1, a.0 * b.1 + a.1 * b.0)
}

fn cadd(a: C, b: C) -> C {
    (a.0 + b.0, a.1 + b.1)
}

fn matmul(a: &Vec<Vec<C>>, b: &Vec<Vec<C>>) -> Vec<Vec<C>> {
    let n = a.len();
    let mut out = vec![vec![(0.0, 0.0); n]; n];
    for i in 0..n {
        for j in 0..n {
            for k in 0..n {
                out[i][j] = cadd(out[i][j], cmul(a[i][k], b[k][j]));
            }
        }
    }
    out
}

fn kron(a: &Vec<Vec<C>>, b: &Vec<Vec<C>>) -> Vec<Vec<C>> {
    let (n, m) = (a.len(), b.len());
    let mut out = vec![vec![(0.0, 0.0); n * m]; n * m];
    for i in 0..n * m {
        for j in 0..n * m {
            out[i][j] = cmul(a[i / m][j / m], b[i % m][j % m]);
        }
    }
    out
}

fn identity(n: usize) -> Vec<Vec<C>> {
    let mut out = vec![vec![(0.0, 0.0); n]; n];
    for i in 0..n {
        out[i][i] = (1.0, 0.0);
    }
    out
}

fn rx(t: f64) -> Vec<Vec<C>> {
    let (c, s) = ((t / 2.0).cos(), (t / 2.0).sin());
    vec![vec![(c, 0.0), (0.0, -s)], vec![(0.0, -s), (c, 0.0)]]
}

fn drx(t: f64) -> Vec<Vec<C>> {
    let (c, s) = ((t / 2.0).cos(), (t / 2.0).sin());
    vec![vec![(-s / 2.0, 0.0), (0.0, -c / 2.0)], vec![(0.0, -c / 2.0), (-s / 2.0, 0.0)]]
}

fn cnot_matrix() -> Vec<Vec<C>> {
    let mut m = vec![vec![(0.0, 0.0); 4]; 4];
    m[0][0] = (1.0, 0.0);
    m[1][1] = (1.0, 0.0);
    m[2][3] = (1.0, 0.0);
    m[3][2] = (1.0, 0.0);
    m
}

/// Builds the product of the factors, each cycle matrix assembled entry by
/// entry from the library's index map.
fn evaluate(circ: &Circuit, factors: &Vec<Factor>, gates: &Vec<Vec<Vec<C>>>, derivs: &Vec<Vec<Vec<C>>>) -> Vec<Vec<C>> {
    let dim = circ.system.dim();
    let strides = circ.system.strides();
    let mut acc = identity(dim);
    for f in factors {
        let mut m = vec![vec![(0.0, 0.0); dim]; dim];
        for r in 0..dim {
            for c in 0..dim {
                if let Some(coords) = circ.cycle_entry(&strides, f.lo, f.hi, r, c) {
                    let mut v = (1.0, 0.0);
                    for (t, (a, b)) in coords.iter().enumerate() {
                        let k = f.lo + t;
                        let g = match f.derivative {
                            Some((dk, _)) if dk == k => &derivs[k],
                            _ => &gates[k],
                        };
                        v = cmul(v, g[*a][*b]);
                    }
                    m[r][c] = v;
                }
            }
        }
        acc = matmul(&acc, &m);
    }
    acc
}

fn assert_close(a: &Vec<Vec<C>>, b: &Vec<Vec<C>>) {
    assert_eq!(a.len(), b.len());
    for i in 0..a.len() {
        for j in 0..a.len() {
            assert!((a[i][j].0 - b[i][j].0).abs() < 1e-12, "entry {} {}", i, j);
            assert!((a[i][j].1 - b[i][j].1).abs() < 1e-12, "entry {} {}", i, j);
        }
    }
}

#[test]
fn worked_scenario_unitary_and_gradient() {
    let circ = rotation_then_constant();
    assert_eq!(circ.num_params(), 1);
    let theta = std::f64::consts::PI / 2.0;
    let gates = vec![rx(theta), cnot_matrix()];
    let derivs = vec![drx(theta), cnot_matrix()];
    let u = evaluate(&circ, &circ.unitary_plan(), &gates, &derivs);
    assert_close(&u, &matmul(&cnot_matrix(), &kron(&rx(theta), &identity(2))));
    let g = evaluate(&circ, &circ.gradient_plan(0), &gates, &derivs);
    assert_close(&g, &matmul(&cnot_matrix(), &kron(&drx(theta), &identity(2))));
}

#[test]
fn worked_scenario_plans() {
    let circ = rotation_then_constant();
    assert_eq!(circ.cycle_bounds(), vec![0, 1, 2]);
    assert_eq!(
        circ.unitary_plan(),
        vec![Factor { lo: 1, hi: 2, derivative: None }, Factor { lo: 0, hi: 1, derivative: None }]
    );
    assert_eq!(
        circ.gradient_plan(0),
        vec![
            Factor { lo: 1, hi: 2, derivative: None },
            Factor { lo: 0, hi: 1, derivative: Some((0, 0)) }
        ]
    );
    assert_eq!(circ.param_owner(0), (0, 0));
}

#[test]
fn embedding_matches_kronecker_on_three_qubits() {
    let circ = Circuit::new(vec![2, 2, 2], vec![op(0, Gate::Builtin(BuiltinGate::RY), vec![1])], vec![])
        .unwrap();
    let strides = circ.system.strides();
    assert_eq!(strides, vec![4, 2, 1]);
    for r in 0..8 {
        for c in 0..8 {
            let e = circ.cycle_entry(&strides, 0, 1, r, c);
            if r / 4 == c / 4 && r % 2 == c % 2 {
                assert_eq!(e, Some(vec![((r / 2) % 2, (c / 2) % 2)]));
            } else {
                assert_eq!(e, None);
            }
        }
    }
    let gates = vec![rx(0.3)];
    let u = evaluate(&circ, &circ.unitary_plan(), &gates, &gates);
    assert_close(&u, &kron(&identity(2), &kron(&rx(0.3), &identity(2))));
}

#[test]
fn embedding_on_mixed_radixes() {
    let circ = Circuit::new(vec![2, 3], vec![op(0, Gate::Builtin(BuiltinGate::U8), vec![1])], vec![])
        .unwrap();
    assert_eq!(circ.system.dim(), 6);
    assert_eq!(circ.num_params(), 8);
    let strides = circ.system.strides();
    assert_eq!(strides, vec![3, 1]);
    assert_eq!(circ.cycle_entry(&strides, 0, 1, 4, 5), Some(vec![(1, 2)]));
    assert_eq!(circ.cycle_entry(&strides, 0, 1, 1, 5), None);
}

#[test]
fn embedding_on_reversed_non_adjacent_qudits() {
    let circ = Circuit::new(
        vec![2, 2, 2],
        vec![op(0, Gate::Builtin(BuiltinGate::RZZ), vec![2, 0])],
        vec![],
    )
    .unwrap();
    let strides = circ.system.strides();
    // Row 0b011: qudit 2 has level 1, qudit 0 level 0, so local row 0b10.
    // Column 0b110: qudit 2 level 0, qudit 0 level 1, so local column 0b01.
    assert_eq!(circ.cycle_entry(&strides, 0, 1, 3, 6), Some(vec![(2, 1)]));
    assert_eq!(circ.cycle_entry(&strides, 0, 1, 3, 4), None);
}

#[test]
fn cycle_with_two_operations() {
    let circ = Circuit::new(
        vec![2, 2, 2],
        vec![
            op(0, Gate::Builtin(BuiltinGate::RX), vec![0]),
            op(0, Gate::Builtin(BuiltinGate::RY), vec![2]),
            op(3, Gate::Builtin(BuiltinGate::U3), vec![1]),
        ],
        vec![],
    )
    .unwrap();
    assert_eq!(circ.cycle_bounds(), vec![0, 2, 3]);
    assert_eq!(circ.num_params(), 5);
    assert_eq!(circ.param_owner(4), (2, 2));
    assert_eq!(circ.param_range(2), (2, 3));
    let strides = circ.system.strides();
    assert_eq!(circ.cycle_entry(&strides, 0, 2, 0b101, 0b000), Some(vec![(1, 0), (1, 0)]));
    assert_eq!(circ.cycle_entry(&strides, 0, 2, 0b111, 0b000), None);
}

#[test]
fn joint_plans_match_separate_plans() {
    let circ = Circuit::new(
        vec![2, 2],
        vec![
            op(0, Gate::Builtin(BuiltinGate::U2), vec![0]),
            op(1, Gate::Builtin(BuiltinGate::CRZ), vec![1, 0]),
        ],
        vec![],
    )
    .unwrap();
    let (u, g) = circ.unitary_and_gradient_plans();
    assert_eq!(u, circ.unitary_plan());
    assert_eq!(g.len(), 3);
    for p in 0..3 {
        assert_eq!(g[p], circ.gradient_plan(p));
    }
}

#[test]
fn empty_circuit() {
    let circ = Circuit::new(vec![2, 3], vec![], vec![]).unwrap();
    assert_eq!(circ.num_params(), 0);
    assert_eq!(circ.cycle_bounds(), vec![0]);
    assert!(circ.unitary_plan().is_empty());
    let (u, g) = circ.unitary_and_gradient_plans();
    assert!(u.is_empty());
    assert!(g.is_empty());
    assert_eq!(evaluate(&circ, &u, &vec![], &vec![]), identity(6));
}

#[test]
fn constant_gate_has_no_parameters() {
    let circ = Circuit::new(vec![2, 2], vec![op(0, cnot(), vec![0, 1])], vec![4]).unwrap();
    assert_eq!(circ.num_params(), 0);
    assert_eq!(circ.param_range(0), (0, 0));
    let (u, g) = circ.unitary_and_gradient_plans();
    assert!(g.is_empty());
    let gates = vec![cnot_matrix()];
    assert_eq!(evaluate(&circ, &u, &gates, &gates), cnot_matrix());
}

#[test]
fn parameter_count_check() {
    let circ = rotation_then_constant();
    assert!(circ.check_params(1).is_ok());
    let e = circ.check_params(2).unwrap_err();
    assert_eq!((e.expected, e.given), (1, 2));
}

#[test]
fn construction_errors() {
    let rx = || Gate::Builtin(BuiltinGate::RX);
    assert_eq!(Circuit::new(vec![2, 1], vec![], vec![]).err(), Some(CircuitError::Radix(RadixError::RadixTooSmall)));
    assert_eq!(
        Circuit::new(vec![usize::MAX, 2], vec![], vec![]).err(),
        Some(CircuitError::Radix(RadixError::DimensionTooLarge))
    );
    assert_eq!(
        Circuit::new(vec![2], vec![op(0, Gate::Dynamic { handle: 0, num_params: 1, radixes: vec![1] }, vec![0])], vec![]).err(),
        Some(CircuitError::InvalidGate { op: 0 })
    );
    assert_eq!(
        Circuit::new(vec![2, 2], vec![op(0, rx(), vec![0, 1])], vec![]).err(),
        Some(CircuitError::PlacementLength { op: 0 })
    );
    assert_eq!(
        Circuit::new(vec![2, 2], vec![op(0, rx(), vec![2])], vec![]).err(),
        Some(CircuitError::QuditOutOfRange { op: 0 })
    );
    assert_eq!(
        Circuit::new(vec![2, 2], vec![op(0, Gate::Builtin(BuiltinGate::RXX), vec![1, 1])], vec![]).err(),
        Some(CircuitError::RepeatedQudit { op: 0 })
    );
    assert_eq!(
        Circuit::new(vec![2, 3], vec![op(0, rx(), vec![1])], vec![]).err(),
        Some(CircuitError::RadixMismatch { op: 0 })
    );
    assert_eq!(
        Circuit::new(vec![2, 2], vec![op(0, cnot(), vec![0, 1])], vec![]).err(),
        Some(CircuitError::ConstantIndex { op: 0 })
    );
    assert_eq!(
        Circuit::new(vec![2, 2], vec![op(0, cnot(), vec![0, 1])], vec![2]).err(),
        Some(CircuitError::ConstantDimension { op: 0 })
    );
    assert_eq!(
        Circuit::new(vec![2, 2], vec![op(1, rx(), vec![0]), op(0, rx(), vec![1])], vec![]).err(),
        Some(CircuitError::CycleOrder { op: 1 })
    );
    assert_eq!(
        Circuit::new(vec![2, 2], vec![op(0, rx(), vec![0]), op(0, Gate::Builtin(BuiltinGate::CRX), vec![1, 0])], vec![]).err(),
        Some(CircuitError::CycleOverlap { op: 1 })
    );
    assert_eq!(
        Circuit::new(
            vec![2],
            vec![
                op(0, Gate::Dynamic { handle: 0, num_params: usize::MAX, radixes: vec![2] }, vec![0]),
                op(1, rx(), vec![0])
            ],
            vec![]
        )
        .err(),
        Some(CircuitError::TooManyParams { op: 1 })
    );
}

#[test]
fn registry_by_name() {
    assert_eq!(builtin_named("RXGate"), Some(BuiltinGate::RX));
    assert_eq!(builtin_named("CRZGate"), Some(BuiltinGate::CRZ));
    assert_eq!(builtin_named("U8Gate"), Some(BuiltinGate::U8));
    assert_eq!(builtin_named("RXGat"), None);
    assert_eq!(builtin_named("VariableUnitaryGate"), None);
    assert!(same_text("héllo", "héllo"));
    assert!(!same_text("hello", "hellp"));
}

#[test]
fn builtin_shapes() {
    let g = Gate::Builtin(BuiltinGate::RXX);
    assert_eq!((g.num_qudits(), g.radixes(), g.num_params()), (2, vec![2, 2], 1));
    let g = Gate::Builtin(BuiltinGate::U3);
    assert_eq!((g.num_qudits(), g.radixes(), g.num_params()), (1, vec![2], 3));
    let g = Gate::Builtin(BuiltinGate::U8);
    assert_eq!((g.num_qudits(), g.radixes(), g.num_params()), (1, vec![3], 8));
}

#[test]
fn resolving_gates() {
    assert_eq!(resolve_gate("RZGate", info(0, vec![], 0), 0, 0), Ok(Gate::Builtin(BuiltinGate::RZ)));
    let v = resolve_gate("VariableUnitaryGate", info(2, vec![2, 3], 72), 0, 0).unwrap();
    assert_eq!(v, Gate::VariableUnitary { radixes: vec![2, 3] });
    assert_eq!(v.num_params(), 72);
    assert_eq!(
        resolve_gate("MyFixedGate", info(2, vec![2, 2], 0), 3, 5),
        Ok(Gate::Constant { index: 3, radixes: vec![2, 2] })
    );
    let mut dynamic = info(1, vec![3], 2);
    dynamic.has_optimize = true;
    assert_eq!(
        resolve_gate("MyGate", dynamic, 3, 5),
        Ok(Gate::Dynamic { handle: 5, num_params: 2, radixes: vec![3] })
    );
    assert_eq!(resolve_gate("MyGate", info(1, vec![3], 2), 0, 0), Err(GateError::MissingCapability));
    assert_eq!(resolve_gate("MyGate", info(2, vec![3], 0), 0, 0), Err(GateError::ArityMismatch));
    assert_eq!(resolve_gate("MyGate", info(1, vec![1], 0), 0, 0), Err(GateError::RadixTooSmall));
    assert_eq!(
        resolve_gate("VariableUnitaryGate", info(2, vec![1 << 31, 1 << 31], 0), 0, 0),
        Err(GateError::TooLarge)
    );
}

#[test]
fn foreign_capabilities() {
    let mut i = info(1, vec![2], 1);
    assert_eq!(classify_foreign(&i), Err(GateError::MissingCapability));
    i.has_gradient = true;
    assert_eq!(classify_foreign(&i), Err(GateError::MissingCapability));
    i.has_joint = true;
    assert_eq!(classify_foreign(&i), Ok(ForeignRole::Dynamic));
    i.has_unitary = false;
    assert_eq!(classify_foreign(&i), Err(GateError::MissingCapability));
    let i = info(1, vec![2], 0);
    assert_eq!(classify_foreign(&i), Ok(ForeignRole::Constant));
}

#[test]
fn qudit_system() {
    let s = QuditSystem::new(vec![3, 2, 4]).unwrap();
    assert_eq!(s.num_qudits(), 3);
    assert_eq!(s.dim(), 24);
    assert_eq!(s.strides(), vec![8, 4, 1]);
    assert_eq!(QuditSystem::new(vec![0]).err(), Some(RadixError::RadixTooSmall));
}
