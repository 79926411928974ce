//! End-to-end tests: circuits are turned into diagrams, simplified, and the
//! represented linear map is evaluated exactly (in the ring of integer
//! combinations of eighth roots of unity over a power of sqrt 2) before and
//! after simplification.

use quizx::{
    clifford_simp, full_simp, fuse_gadgets, id_simp, interior_clifford_simp, local_comp_simp,
    pivot_simp, spider_simp, vertex_simp, Diagram, EKind, Phase, VKind, VertexRule,
};

/// An element (a + b*w + c*w^2 + d*w^3) / sqrt(2)^s with w = exp(i*pi/4),
/// kept in a canonical form (minimal s, zero as all-zero with s = 0).
#[derive(Clone, Copy, PartialEq, Debug)]
struct Sc {
    a: i128,
    b: i128,
    c: i128,
    d: i128,
    s: i32,
}

impl Sc {
    fn zero() -> Sc {
        Sc { a: 0, b: 0, c: 0, d: 0, s: 0 }
    }
    fn one() -> Sc {
        Sc { a: 1, b: 0, c: 0, d: 0, s: 0 }
    }
    fn is_zero(&self) -> bool {
        self.a == 0 && self.b == 0 && self.c == 0 && self.d == 0
    }
    /// Multiplication by w.
    fn rot(&self) -> Sc {
        Sc { a: -self.d, b: self.a, c: self.b, d: self.c, s: self.s }
    }
    /// Numerator times sqrt(2) = w - w^3.
    fn times_sqrt2_num(&self) -> Sc {
        let r1 = self.rot();
        let r3 = self.rot().rot().rot();
        Sc { a: r1.a - r3.a, b: r1.b - r3.b, c: r1.c - r3.c, d: r1.d - r3.d, s: self.s }
    }
    fn normalize(mut self) -> Sc {
        if self.is_zero() {
            return Sc::zero();
        }
        loop {
            if self.s <= 0 {
                break;
            }
            let m = self.times_sqrt2_num();
            if m.a % 2 == 0 && m.b % 2 == 0 && m.c % 2 == 0 && m.d % 2 == 0 {
                self = Sc { a: m.a / 2, b: m.b / 2, c: m.c / 2, d: m.d / 2, s: self.s - 1 };
            } else {
                break;
            }
        }
        self
    }
    fn add(self, other: Sc) -> Sc {
        let (mut x, mut y) = (self, other);
        while x.s < y.s {
            x = Sc { s: x.s + 1, ..x.times_sqrt2_num() };
        }
        while y.s < x.s {
            y = Sc { s: y.s + 1, ..y.times_sqrt2_num() };
        }
        Sc { a: x.a + y.a, b: x.b + y.b, c: x.c + y.c, d: x.d + y.d, s: x.s }.normalize()
    }
    fn mul(self, other: Sc) -> Sc {
        // (a + b w + c w^2 + d w^3)(a' + ...) with w^4 = -1.
        let (x, y) = (self, other);
        let mut co = [0i128; 4];
        let xs = [x.a, x.b, x.c, x.d];
        let ys = [y.a, y.b, y.c, y.d];
        for i in 0..4 {
            for j in 0..4 {
                let k = i + j;
                let sign = if k >= 4 { -1 } else { 1 };
                co[k % 4] += sign * xs[i] * ys[j];
            }
        }
        Sc { a: co[0], b: co[1], c: co[2], d: co[3], s: x.s + y.s }.normalize()
    }
    fn neg(self) -> Sc {
        Sc { a: -self.a, b: -self.b, c: -self.c, d: -self.d, s: self.s }
    }
    /// w^k for k modulo 8 (w^4 = -1).
    fn omega_pow(k: u32) -> Sc {
        let k = k % 8;
        let mut r = Sc::one();
        for _ in 0..k {
            r = r.rot();
        }
        r
    }
    /// sqrt(2)^p for a signed power.
    fn sqrt2_pow(p: i64) -> Sc {
        if p >= 0 {
            let mut r = Sc::one();
            for _ in 0..p {
                r = r.times_sqrt2_num();
            }
            r.normalize()
        } else {
            Sc { a: 1, b: 0, c: 0, d: 0, s: (-p) as i32 }.normalize()
        }
    }
    /// exp(i*pi*num/den), for den dividing 4.
    fn phase(num: u64, den: u64) -> Sc {
        assert!(den == 1 || den == 2 || den == 4, "phase denominator {den} not supported here");
        let k = (num as u128 * (4 / den) as u128) % 8;
        Sc::omega_pow(k as u32)
    }
}

#[derive(Clone, Copy, PartialEq, Debug)]
enum Axis {
    Edge(usize, usize, EKind),
    Bound(usize),
}

/// Exact tensor of the diagram as a flat vector indexed by the bits of the
/// listed boundaries, `bounds[0]` as the most significant bit.
fn tensor(g: &Diagram, bounds: &[usize]) -> Vec<Sc> {
    let verts = g.vertex_vec();
    let all_edges = g.edge_vec();
    let arena = g.kinds.len();
    let is_x = |v: usize| g.vertex_type(v) == VKind::X;
    let eff = |u: usize, v: usize, k: EKind| {
        let mut h = k == EKind::H;
        if is_x(u) {
            h = !h;
        }
        if is_x(v) {
            h = !h;
        }
        if h {
            EKind::H
        } else {
            EKind::N
        }
    };
    let mut processed = vec![false; arena];
    let mut axes: Vec<Axis> = Vec::new();
    let mut amp: Vec<Sc> = vec![Sc::one()];
    let half = Sc { a: 1, b: 0, c: 0, d: 0, s: 1 }; // 1/sqrt(2)
    for &v in verts.iter() {
        // consumed axes: open edges whose other endpoint is v
        let mut cons: Vec<(usize, EKind)> = Vec::new();
        for (pos, ax) in axes.iter().enumerate() {
            if let Axis::Edge(a, b, k) = *ax {
                if a == v || b == v {
                    cons.push((pos, k));
                }
            }
        }
        let mut produced: Vec<Axis> = Vec::new();
        for &(a, b, k) in all_edges.iter() {
            if a == v || b == v {
                let w = if a == v { b } else { a };
                if !processed[w] {
                    produced.push(Axis::Edge(v, w, eff(a, b, k)));
                }
            }
        }
        let is_b = g.vertex_type(v) == VKind::B;
        if is_b {
            produced.push(Axis::Bound(v));
        }
        let ph = if is_b { Sc::one() } else {
            let p = g.phase(v);
            Sc::phase(p.num, p.den)
        };
        let kept: Vec<usize> =
            (0..axes.len()).filter(|p| !cons.iter().any(|&(c, _)| c == *p)).collect();
        let n_new = kept.len() + produced.len();
        assert!(n_new <= 26, "contraction width too large");
        let mut new_amp = vec![Sc::zero(); 1usize << n_new];
        let old_n = axes.len();
        for idx in 0..amp.len() {
            if amp[idx].is_zero() {
                continue;
            }
            'bv: for bv in 0..2usize {
                let mut w = if bv == 1 { ph } else { Sc::one() };
                for &(pos, k) in cons.iter() {
                    let bit = (idx >> (old_n - 1 - pos)) & 1;
                    match k {
                        EKind::N => {
                            if bit != bv {
                                continue 'bv;
                            }
                        }
                        EKind::H => {
                            w = w.mul(half);
                            if bit == 1 && bv == 1 {
                                w = w.neg();
                            }
                        }
                    }
                }
                let mut ni = 0usize;
                for &p in kept.iter() {
                    ni = (ni << 1) | ((idx >> (old_n - 1 - p)) & 1);
                }
                for _ in 0..produced.len() {
                    ni = (ni << 1) | bv;
                }
                new_amp[ni] = new_amp[ni].add(amp[idx].mul(w));
            }
        }
        let mut new_axes: Vec<Axis> = kept.iter().map(|&p| axes[p]).collect();
        new_axes.extend(produced);
        axes = new_axes;
        amp = new_amp;
        processed[v] = true;
    }
    // Only boundary axes remain; fold in the global scalar and reorder.
    let global = Sc::omega_pow(g.s_omega as u32).mul(Sc::sqrt2_pow(g.s_pow));
    let n = bounds.len();
    assert_eq!(axes.len(), n, "boundary mismatch: {axes:?} vs {bounds:?}");
    let pos_of = |b: usize| axes.iter().position(|ax| *ax == Axis::Bound(b)).unwrap();
    let positions: Vec<usize> = bounds.iter().map(|&b| pos_of(b)).collect();
    let mut out = vec![Sc::zero(); 1usize << n];
    for i in 0..(1usize << n) {
        let mut ai = 0usize;
        // bit of bounds[q] in i is at place n-1-q; axis position positions[q]
        let mut bits = vec![0usize; n];
        for q in 0..n {
            bits[positions[q]] = (i >> (n - 1 - q)) & 1;
        }
        for q in 0..n {
            ai = (ai << 1) | bits[q];
        }
        out[i] = amp[ai].mul(global);
    }
    out
}

#[derive(Clone, Copy, Debug)]
enum Gate {
    CX(usize, usize),
    H(usize),
    S(usize),
    Z(usize),
    T(usize),
}

struct Circ {
    n: usize,
    gates: Vec<Gate>,
}

/// Builds the diagram of a circuit; returns it with the output and input
/// boundary handles, outputs first (the order `tensor` takes).
fn to_graph(c: &Circ) -> (Diagram, Vec<usize>) {
    let mut g = Diagram::new();
    let mut frontier: Vec<usize> = Vec::new();
    let mut pending: Vec<EKind> = Vec::new();
    let mut ins: Vec<usize> = Vec::new();
    for _ in 0..c.n {
        let b = g.add_vertex(VKind::B, Phase::zero());
        ins.push(b);
        frontier.push(b);
        pending.push(EKind::N);
    }
    for gate in c.gates.iter() {
        match *gate {
            Gate::H(q) => {
                pending[q] = if pending[q] == EKind::N { EKind::H } else { EKind::N };
            }
            Gate::S(q) | Gate::Z(q) | Gate::T(q) => {
                let ph = match *gate {
                    Gate::S(_) => Phase::new(1, 2),
                    Gate::Z(_) => Phase::new(1, 1),
                    _ => Phase::new(1, 4),
                };
                let v = g.add_vertex(VKind::Z, ph);
                g.add_edge(frontier[q], v, pending[q]);
                frontier[q] = v;
                pending[q] = EKind::N;
            }
            Gate::CX(ctl, tgt) => {
                let zc = g.add_vertex(VKind::Z, Phase::zero());
                let xt = g.add_vertex(VKind::X, Phase::zero());
                g.add_edge(frontier[ctl], zc, pending[ctl]);
                g.add_edge(frontier[tgt], xt, pending[tgt]);
                g.add_edge(zc, xt, EKind::N);
                frontier[ctl] = zc;
                frontier[tgt] = xt;
                pending[ctl] = EKind::N;
                pending[tgt] = EKind::N;
                // the Z-X pair carries 1/sqrt(2); compensate to equal CNOT
                g.scalar_mul(0, 1);
            }
        }
    }
    let mut outs: Vec<usize> = Vec::new();
    for q in 0..c.n {
        let b = g.add_vertex(VKind::B, Phase::zero());
        g.add_edge(frontier[q], b, pending[q]);
        outs.push(b);
    }
    outs.extend(ins);
    (g, outs)
}

/// Exact unitary of the circuit, flattened in the same index order as
/// `tensor` over outputs then inputs, qubit 0 most significant.
fn unitary(c: &Circ) -> Vec<Sc> {
    let n = c.n;
    let dim = 1usize << n;
    let bitpos = |q: usize| n - 1 - q;
    // columns as state vectors
    let mut cols: Vec<Vec<Sc>> = (0..dim)
        .map(|cix| {
            let mut v = vec![Sc::zero(); dim];
            v[cix] = Sc::one();
            v
        })
        .collect();
    for gate in c.gates.iter() {
        for col in cols.iter_mut() {
            let old = col.clone();
            match *gate {
                Gate::H(q) => {
                    let half = Sc { a: 1, b: 0, c: 0, d: 0, s: 1 };
                    for i in 0..dim {
                        let b = (i >> bitpos(q)) & 1;
                        let i0 = i & !(1 << bitpos(q));
                        let i1 = i | (1 << bitpos(q));
                        let v = if b == 0 {
                            old[i0].add(old[i1])
                        } else {
                            old[i0].add(old[i1].neg())
                        };
                        col[i] = v.mul(half);
                    }
                }
                Gate::S(q) => {
                    for i in 0..dim {
                        if (i >> bitpos(q)) & 1 == 1 {
                            col[i] = old[i].mul(Sc::omega_pow(2));
                        }
                    }
                }
                Gate::Z(q) => {
                    for i in 0..dim {
                        if (i >> bitpos(q)) & 1 == 1 {
                            col[i] = old[i].mul(Sc::omega_pow(4));
                        }
                    }
                }
                Gate::T(q) => {
                    for i in 0..dim {
                        if (i >> bitpos(q)) & 1 == 1 {
                            col[i] = old[i].mul(Sc::omega_pow(1));
                        }
                    }
                }
                Gate::CX(ctl, tgt) => {
                    for i in 0..dim {
                        if (i >> bitpos(ctl)) & 1 == 1 {
                            col[i] = old[i ^ (1 << bitpos(tgt))];
                        }
                    }
                }
            }
        }
    }
    let mut out = vec![Sc::zero(); dim * dim];
    for row in 0..dim {
        for cix in 0..dim {
            out[row * dim + cix] = cols[cix][row];
        }
    }
    out
}

#[test]
fn simp_cnot() {
    let c = Circ {
        n: 4,
        gates: vec![
            Gate::CX(0, 1),
            Gate::CX(0, 2),
            Gate::CX(0, 3),
            Gate::CX(1, 2),
            Gate::CX(2, 1),
            Gate::CX(1, 2),
            Gate::CX(1, 3),
            Gate::CX(1, 0),
        ],
    };
    let (mut g, bounds) = to_graph(&c);
    clifford_simp(&mut g);
    assert_eq!(unitary(&c), tensor(&g, &bounds));
}

fn cliff_circ() -> Circ {
    Circ {
        n: 3,
        gates: vec![
            Gate::H(1),
            Gate::H(1),
            Gate::S(0),
            Gate::CX(0, 1),
            Gate::CX(1, 0),
            Gate::CX(0, 1),
            Gate::S(1),
            Gate::CX(1, 2),
            Gate::CX(0, 2),
            Gate::H(2),
            Gate::Z(0),
        ],
    }
}

#[test]
fn cliff_simp() {
    let c = cliff_circ();
    let (g, bounds) = to_graph(&c);

    let mut h = g.clone();
    assert!(interior_clifford_simp(&mut h));
    assert_eq!(tensor(&g, &bounds), tensor(&h, &bounds));

    let mut h = g.clone();
    assert!(clifford_simp(&mut h));
    assert_eq!(tensor(&g, &bounds), tensor(&h, &bounds));
}

/// A deterministic linear-congruential generator.
struct Lcg(u64);

impl Lcg {
    fn next(&mut self) -> u64 {
        self.0 = self
            .0
            .wrapping_mul(6364136223846793005)
            .wrapping_add(1442695040888963407);
        self.0 >> 33
    }
    fn below(&mut self, n: u64) -> u64 {
        self.next() % n
    }
}

/// A random circuit: given qubits and depth, a fifth of the gates are T
/// gates, the rest Clifford (H, S, CX).
fn random_circuit(seed: u64, qubits: usize, depth: usize, t_percent: u64) -> Circ {
    let mut rng = Lcg(seed);
    let mut gates = Vec::new();
    for _ in 0..depth {
        if rng.below(100) < t_percent {
            gates.push(Gate::T(rng.below(qubits as u64) as usize));
        } else {
            match rng.below(3) {
                0 => gates.push(Gate::H(rng.below(qubits as u64) as usize)),
                1 => gates.push(Gate::S(rng.below(qubits as u64) as usize)),
                _ => {
                    let a = rng.below(qubits as u64) as usize;
                    let mut b = rng.below(qubits as u64) as usize;
                    if b == a {
                        b = (a + 1) % qubits;
                    }
                    gates.push(Gate::CX(a, b));
                }
            }
        }
    }
    Circ { n: qubits, gates }
}

#[test]
fn cliff_simp_2() {
    let c = random_circuit(1337, 5, 50, 20);
    let (g, bounds) = to_graph(&c);

    let mut h = g.clone();
    assert!(interior_clifford_simp(&mut h));
    assert_eq!(tensor(&g, &bounds), tensor(&h, &bounds));

    let mut h = g.clone();
    assert!(clifford_simp(&mut h));
    assert_eq!(tensor(&g, &bounds), tensor(&h, &bounds));
}

#[test]
fn graph_tensor_matches_circuit() {
    // the unsimplified diagram of a circuit already evaluates to its unitary
    let c = cliff_circ();
    let (g, bounds) = to_graph(&c);
    assert_eq!(unitary(&c), tensor(&g, &bounds));

    let c = random_circuit(99, 3, 25, 20);
    let (g, bounds) = to_graph(&c);
    assert_eq!(unitary(&c), tensor(&g, &bounds));
}

#[test]
fn passes_preserve_the_map_one_by_one() {
    // drive each named pass alone over a mixed circuit and compare tensors
    let c = random_circuit(7, 3, 20, 25);
    let (g, bounds) = to_graph(&c);
    let reference = tensor(&g, &bounds);

    let mut h = g.clone();
    spider_simp(&mut h);
    assert_eq!(reference, tensor(&h, &bounds));

    let mut h = g.clone();
    spider_simp(&mut h);
    h.x_to_z();
    assert_eq!(reference, tensor(&h, &bounds));
    id_simp(&mut h);
    assert_eq!(reference, tensor(&h, &bounds));
    pivot_simp(&mut h);
    assert_eq!(reference, tensor(&h, &bounds));
    local_comp_simp(&mut h);
    assert_eq!(reference, tensor(&h, &bounds));
}

#[test]
fn named_passes_are_fixpoints() {
    // after a pass reports no match, a second call matches nothing and
    // leaves the diagram exactly as it was
    let c = random_circuit(21, 4, 30, 20);
    let (mut g, _) = to_graph(&c);
    interior_clifford_simp(&mut g);
    let before = g.clone();
    assert!(!id_simp(&mut g));
    assert!(before == g);
    assert!(!spider_simp(&mut g));
    assert!(before == g);
    assert!(!pivot_simp(&mut g));
    assert!(before == g);
    assert!(!local_comp_simp(&mut g));
    assert!(before == g);
}

#[test]
fn full_simp_reaches_a_fixpoint() {
    let c = random_circuit(5, 4, 40, 20);
    let (mut g, _) = to_graph(&c);
    full_simp(&mut g);
    let before = g.clone();
    assert!(!full_simp(&mut g));
    assert!(before == g);
}

#[test]
fn force_reduce_never_grows() {
    let c = random_circuit(11, 4, 30, 20);
    let (mut g, _) = to_graph(&c);
    spider_simp(&mut g);
    g.x_to_z();
    let before = g.num_vertices();
    vertex_simp(&mut g, VertexRule::RemoveId, true);
    assert!(g.num_vertices() <= before);
    let before = g.num_vertices();
    vertex_simp(&mut g, VertexRule::LocalComp, true);
    assert!(g.num_vertices() <= before);
}

/// Two parallel phase gadgets over the same targets.
fn gadget_pair() -> (Diagram, Vec<usize>) {
    let mut g = Diagram::new();
    let a = g.add_vertex(VKind::Z, Phase::zero());
    let b = g.add_vertex(VKind::Z, Phase::zero());
    let hub1 = g.add_vertex(VKind::Z, Phase::zero());
    let hub2 = g.add_vertex(VKind::Z, Phase::zero());
    let leaf1 = g.add_vertex(VKind::Z, Phase::zero());
    let leaf2 = g.add_vertex(VKind::Z, Phase::zero());
    g.add_edge(hub1, a, EKind::H);
    g.add_edge(hub1, b, EKind::H);
    g.add_edge(hub2, a, EKind::H);
    g.add_edge(hub2, b, EKind::H);
    g.add_edge(hub1, leaf1, EKind::H);
    g.add_edge(hub2, leaf2, EKind::H);
    (g, vec![a, b, hub1, hub2, leaf1, leaf2])
}

#[test]
fn gadget_fusion_merges_duplicates() {
    let (mut g, vs) = gadget_pair();
    let before = g.num_vertices();
    assert!(fuse_gadgets(&mut g));
    // the first pair survives, the second is gone entirely
    assert!(g.contains_vertex(vs[2]) && g.contains_vertex(vs[4]));
    assert!(!g.contains_vertex(vs[3]) && !g.contains_vertex(vs[5]));
    // the kept leaf's phase is the sum of the (zero) leaf phases
    assert!(g.phase(vs[4]).is_zero());
    assert_eq!(g.num_vertices(), before - 2);
}

#[test]
fn gadget_fusion_is_inert_without_duplicates() {
    let mut g = Diagram::new();
    let a = g.add_vertex(VKind::Z, Phase::zero());
    let b = g.add_vertex(VKind::Z, Phase::zero());
    let hub1 = g.add_vertex(VKind::Z, Phase::zero());
    let hub2 = g.add_vertex(VKind::Z, Phase::zero());
    let leaf1 = g.add_vertex(VKind::Z, Phase::zero());
    let leaf2 = g.add_vertex(VKind::Z, Phase::zero());
    // different signatures: hub1 sees {a, b}, hub2 sees {b} only
    g.add_edge(hub1, a, EKind::H);
    g.add_edge(hub1, b, EKind::H);
    g.add_edge(hub2, b, EKind::H);
    g.add_edge(hub1, leaf1, EKind::H);
    g.add_edge(hub2, leaf2, EKind::H);
    let before = g.clone();
    assert!(!fuse_gadgets(&mut g));
    assert!(before == g);
}

#[test]
fn phase_addition_is_exact_and_modular() {
    let h = Phase::new(1, 2);
    assert_eq!(h.add(h), Phase::new(1, 1));
    let th = Phase::new(3, 2);
    assert_eq!(th.add(th), Phase::new(1, 1));
    assert_eq!(Phase::new(3, 4).add(Phase::new(5, 4)), Phase::new(0, 1));
    assert_eq!(Phase::new(1, 4).add(Phase::zero()), Phase::new(1, 4));
    assert_eq!(Phase::new(1, 3).add(Phase::new(1, 6)), Phase::new(1, 2));
    assert!(Phase::new(1, 1).is_pauli());
    assert!(Phase::new(1, 2).is_proper_clifford());
    assert!(!Phase::new(1, 4).is_pauli());
}

#[test]
fn empty_diagram_is_already_simple() {
    let mut g = Diagram::new();
    assert!(!full_simp(&mut g));
    assert_eq!(g.num_vertices(), 0);
}

#[test]
fn simplification_shrinks_the_cnot_circuit() {
    let c = Circ {
        n: 2,
        gates: vec![Gate::CX(0, 1), Gate::CX(0, 1)],
    };
    // two CNOTs cancel; the simplified diagram must be tiny
    let (mut g, bounds) = to_graph(&c);
    let before = g.num_vertices();
    clifford_simp(&mut g);
    assert!(g.num_vertices() < before);
    assert_eq!(unitary(&c), tensor(&g, &bounds));
}
