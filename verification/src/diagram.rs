//! The diagram: a mutable multigraph of typed, phased vertices with typed
//! edges, held as an arena of vertex records plus one global edge list.
//!
//! Vertex handles are indices into the arena; a deleted vertex leaves a dead
//! slot behind, so handles stay stable across deletions. At most one edge is
//! stored per vertex pair; the rewrite rules resolve would-be parallel edges
//! when they arise. A global scalar of the shape `omega^k * sqrt(2)^m` (with
//! `omega` the eighth root of unity) is tracked beside the graph so rewrites
//! can preserve the represented linear map exactly.

use vstd::prelude::*;

verus! {

use crate::phase::{sum_is, Phase};

/// Kind of a vertex: Z-spider, X-spider, or a boundary (an input/output).
#[derive(Clone, Copy, PartialEq, Eq, Structural, Debug)]
pub enum VKind {
    Z,
    X,
    B,
}

/// Kind of an edge: a plain connection or a Hadamard connection.
#[derive(Clone, Copy, PartialEq, Eq, Structural, Debug)]
pub enum EKind {
    N,
    H,
}

/// Two unordered vertex pairs are the same.
pub open spec fn pair_eq(a: usize, b: usize, u: usize, v: usize) -> bool {
    (a == u && b == v) || (a == v && b == u)
}

/// The edge `e` has `v` as an endpoint.
pub open spec fn touches(e: (usize, usize, EKind), v: usize) -> bool {
    e.0 == v || e.1 == v
}

/// Number of `true` entries of a liveness sequence.
pub open spec fn count_live(s: Seq<bool>) -> int
    decreases s.len(),
{
    if s.len() == 0 {
        0
    } else {
        count_live(s.drop_last()) + if s.last() {
            1int
        } else {
            0int
        }
    }
}

pub proof fn lemma_count_live_update(s: Seq<bool>, i: int, b: bool)
    requires
        0 <= i < s.len(),
    ensures
        count_live(s.update(i, b)) == count_live(s) + (if b { 1int } else { 0int }) - (if s[i] {
            1int
        } else {
            0int
        }),
    decreases s.len(),
{
    if i == s.len() - 1 {
        assert(s.update(i, b).drop_last() =~= s.drop_last());
    } else {
        assert(s.update(i, b).drop_last() =~= s.drop_last().update(i, b));
        lemma_count_live_update(s.drop_last(), i, b);
    }
}

pub proof fn lemma_count_live_bounds(s: Seq<bool>)
    ensures
        0 <= count_live(s) <= s.len(),
    decreases s.len(),
{
    if s.len() > 0 {
        lemma_count_live_bounds(s.drop_last());
    }
}

pub proof fn lemma_count_live_push(s: Seq<bool>, b: bool)
    ensures
        count_live(s.push(b)) == count_live(s) + (if b { 1int } else { 0int }),
{
    assert(s.push(b).drop_last() =~= s);
}

/// Number of edges of a list that touch `v`.
pub open spec fn count_touching(s: Seq<(usize, usize, EKind)>, v: usize) -> int
    decreases s.len(),
{
    if s.len() == 0 {
        0
    } else {
        count_touching(s.drop_last(), v) + if touches(s.last(), v) {
            1int
        } else {
            0int
        }
    }
}

/// The incident entries of `v` in an edge list, in list order: for each
/// edge touching `v`, the other endpoint and the edge kind.
pub open spec fn spec_incident(s: Seq<(usize, usize, EKind)>, v: usize) -> Seq<(usize, EKind)>
    decreases s.len(),
{
    if s.len() == 0 {
        Seq::empty()
    } else {
        let rest = spec_incident(s.drop_last(), v);
        let e = s.last();
        if e.0 == v {
            rest.push((e.1, e.2))
        } else if e.1 == v {
            rest.push((e.0, e.2))
        } else {
            rest
        }
    }
}

/// A ZX-diagram.
#[derive(Clone, PartialEq, Debug)]
pub struct Diagram {
    pub kinds: Vec<VKind>,
    pub phases: Vec<Phase>,
    pub live: Vec<bool>,
    pub edges: Vec<(usize, usize, EKind)>,
    /// Scalar: exponent of the eighth root of unity, below 8.
    pub s_omega: u8,
    /// Scalar: exponent of sqrt(2), kept within a safe band.
    pub s_pow: i64,
}

impl Diagram {
    /// Arena size (dead slots included).
    pub open spec fn n(self) -> int {
        self.kinds.len() as int
    }

    /// The handle refers to a live vertex.
    pub open spec fn alive(self, v: usize) -> bool {
        v < self.live.len() && self.live[v as int]
    }

    pub open spec fn kind_of(self, v: usize) -> VKind {
        self.kinds[v as int]
    }

    pub open spec fn phase_of(self, v: usize) -> Phase {
        self.phases[v as int]
    }

    pub open spec fn count_alive(self) -> int {
        count_live(self.live@)
    }

    pub open spec fn degree_of(self, v: usize) -> int {
        count_touching(self.edges@, v)
    }

    pub open spec fn wf_edge(self, e: (usize, usize, EKind)) -> bool {
        self.alive(e.0) && self.alive(e.1) && e.0 != e.1
    }

    /// Well-formed: parallel vertex arrays of one length, a bounded arena,
    /// well-formed phases, edges between distinct live vertices, at most one
    /// edge per pair, and a normalized scalar.
    pub open spec fn wf(self) -> bool {
        &&& self.kinds.len() == self.phases.len()
        &&& self.kinds.len() == self.live.len()
        &&& self.kinds.len() < 0x1_0000_0000
        &&& forall|i: int| 0 <= i < self.phases.len() ==> (#[trigger] self.phases[i]).wf()
        &&& forall|i: int| 0 <= i < self.edges.len() ==> self.wf_edge(#[trigger] self.edges[i])
        &&& forall|i: int, j: int|
            0 <= i < j < self.edges.len() ==> !pair_eq(
                (#[trigger] self.edges[i]).0,
                self.edges[i].1,
                (#[trigger] self.edges[j]).0,
                self.edges[j].1,
            )
        &&& self.s_omega < 8
        &&& -0x4000_0000_0000_0000 <= self.s_pow <= 0x4000_0000_0000_0000
    }

    /// Some edge joins `u` and `v`.
    pub open spec fn has_edge(self, u: usize, v: usize) -> bool {
        exists|i: int|
            0 <= i < self.edges.len() && pair_eq(
                (#[trigger] self.edges[i]).0,
                self.edges[i].1,
                u,
                v,
            )
    }

    /// An edge of kind `k` joins `u` and `v`.
    pub open spec fn is_edge(self, u: usize, v: usize, k: EKind) -> bool {
        exists|i: int|
            0 <= i < self.edges.len() && pair_eq(
                (#[trigger] self.edges[i]).0,
                self.edges[i].1,
                u,
                v,
            ) && self.edges[i].2 == k
    }

    /// In a well-formed diagram an edge's kind is determined by its endpoints.
    pub proof fn lemma_edge_kind_unique(self, u: usize, v: usize, k1: EKind, k2: EKind)
        requires
            self.wf(),
            self.is_edge(u, v, k1),
            self.is_edge(u, v, k2),
        ensures
            k1 == k2,
    {
        let i = choose|i: int|
            0 <= i < self.edges.len() && pair_eq(
                (#[trigger] self.edges[i]).0,
                self.edges[i].1,
                u,
                v,
            ) && self.edges[i].2 == k1;
        let j = choose|j: int|
            0 <= j < self.edges.len() && pair_eq(
                (#[trigger] self.edges[j]).0,
                self.edges[j].1,
                u,
                v,
            ) && self.edges[j].2 == k2;
        if i != j {
            assert(pair_eq(self.edges[i].0, self.edges[i].1, self.edges[j].0, self.edges[j].1));
        }
    }

    /// The empty diagram.
    pub fn new() -> (d: Diagram)
        ensures
            d.wf(),
            d.n() == 0,
            d.count_alive() == 0,
            d.edges@.len() == 0,
            d.s_omega == 0 && d.s_pow == 0,
    {
        let d = Diagram {
            kinds: Vec::new(),
            phases: Vec::new(),
            live: Vec::new(),
            edges: Vec::new(),
            s_omega: 0,
            s_pow: 0,
        };
        proof {
            assert(count_live(d.live@) == 0);
        }
        d
    }

    /// Adds a fresh vertex and returns its handle.
    pub fn add_vertex(&mut self, k: VKind, p: Phase) -> (v: usize)
        requires
            old(self).wf(),
            old(self).n() + 1 < 0x1_0000_0000,
            p.wf(),
        ensures
            final(self).wf(),
            v as int == old(self).n(),
            final(self).n() == old(self).n() + 1,
            final(self).alive(v),
            final(self).kind_of(v) == k,
            final(self).phase_of(v) == p,
            final(self).count_alive() == old(self).count_alive() + 1,
            final(self).edges@ == old(self).edges@,
            final(self).s_omega == old(self).s_omega && final(self).s_pow == old(self).s_pow,
            forall|w: usize| w != v ==> final(self).alive(w) == old(self).alive(w),
            forall|w: usize|
                (w as int) < old(self).n() ==> final(self).kind_of(w) == old(self).kind_of(w)
                    && final(self).phase_of(w) == old(self).phase_of(w),
    {
        let v = self.kinds.len();
        self.kinds.push(k);
        self.phases.push(p);
        self.live.push(true);
        proof {
            lemma_count_live_push(old(self).live@, true);
        }
        v
    }

    /// Number of live vertices.
    pub fn num_vertices(&self) -> (c: usize)
        ensures
            c as int == self.count_alive(),
    {
        let mut c: usize = 0;
        let mut i: usize = 0;
        while i < self.live.len()
            invariant
                i <= self.live.len(),
                c <= i,
                c as int == count_live(self.live@.take(i as int)),
            decreases self.live.len() - i,
        {
            proof {
                assert(self.live@.take(i as int + 1).drop_last() =~= self.live@.take(i as int));
            }
            if self.live[i] {
                c = c + 1;
            }
            i = i + 1;
        }
        proof {
            assert(self.live@.take(self.live@.len() as int) =~= self.live@);
        }
        c
    }

    pub fn contains_vertex(&self, v: usize) -> (r: bool)
        ensures
            r == self.alive(v),
    {
        v < self.live.len() && self.live[v]
    }

    pub fn vertex_type(&self, v: usize) -> (k: VKind)
        requires
            self.alive(v),
            self.wf(),
        ensures
            k == self.kind_of(v),
    {
        self.kinds[v]
    }

    pub fn phase(&self, v: usize) -> (p: Phase)
        requires
            self.alive(v),
            self.wf(),
        ensures
            p == self.phase_of(v),
    {
        self.phases[v]
    }

    /// Adds `p` to the phase of `v`, modulo 2, reducing the result; where the
    /// reduced sum cannot be represented the phase is left unchanged.
    pub fn add_to_phase(&mut self, v: usize, p: Phase)
        requires
            old(self).wf(),
            old(self).alive(v),
            p.wf(),
        ensures
            final(self).wf(),
            sum_is(old(self).phase_of(v), p, final(self).phase_of(v)) || final(self).phase_of(v)
                == old(self).phase_of(v),
            old(self).phase_of(v).den * p.den <= crate::phase::DEN_LIMIT ==> sum_is(
                old(self).phase_of(v),
                p,
                final(self).phase_of(v),
            ),
            final(self).phases@.len() == old(self).phases@.len(),
            forall|w: usize|
                (w as int) < final(self).phases@.len() && w != v ==> final(self).phase_of(w) == old(self).phase_of(
                    w,
                ),
            final(self).kinds@ == old(self).kinds@,
            final(self).live@ == old(self).live@,
            final(self).edges@ == old(self).edges@,
            final(self).s_omega == old(self).s_omega && final(self).s_pow == old(self).s_pow,
    {
        let q = self.phases[v].add(p);
        self.phases.set(v, q);
    }

    /// All live vertex handles, in ascending order of handle.
    pub fn vertex_vec(&self) -> (r: Vec<usize>)
        requires
            self.wf(),
        ensures
            forall|i: int| 0 <= i < r@.len() ==> self.alive(#[trigger] r@[i]),
            forall|v: usize| self.alive(v) ==> r@.contains(v),
            forall|p: int, q: int| 0 <= p < q < r@.len() ==> r@[p] < r@[q],
    {
        let mut r: Vec<usize> = Vec::new();
        let mut i: usize = 0;
        while i < self.live.len()
            invariant
                i <= self.live.len(),
                forall|p: int| 0 <= p < r@.len() ==> self.alive(#[trigger] r@[p]),
                forall|v: usize| v < i && self.alive(v) ==> r@.contains(v),
                forall|p: int| 0 <= p < r@.len() ==> r@[p] < i,
                forall|p: int, q: int| 0 <= p < q < r@.len() ==> r@[p] < r@[q],
            decreases self.live.len() - i,
        {
            let ghost r0 = r@;
            if self.live[i] {
                r.push(i);
                assert(r@[r@.len() - 1] == i);
            }
            proof {
                assert(forall|p: int| 0 <= p < r0.len() ==> r@[p] == r0[p]);
                assert forall|v: usize| v < i + 1 && self.alive(v) implies r@.contains(v) by {
                    if v < i {
                        let p = choose|p: int| 0 <= p < r0.len() && r0[p] == v;
                        assert(r@[p] == v);
                    } else {
                        assert(r@[r@.len() - 1] == v);
                    }
                }
            }
            i = i + 1;
        }
        r
    }

    /// A snapshot of the edge list.
    pub fn edge_vec(&self) -> (r: Vec<(usize, usize, EKind)>)
        ensures
            r@ == self.edges@,
    {
        let mut r: Vec<(usize, usize, EKind)> = Vec::new();
        let mut i: usize = 0;
        while i < self.edges.len()
            invariant
                i <= self.edges.len(),
                r@ =~= self.edges@.take(i as int),
            decreases self.edges.len() - i,
        {
            r.push(self.edges[i]);
            proof {
                assert(self.edges@.take(i as int + 1) =~= self.edges@.take(i as int).push(
                    self.edges@[i as int],
                ));
            }
            i = i + 1;
        }
        proof {
            assert(self.edges@.take(self.edges@.len() as int) =~= self.edges@);
        }
        r
    }

    /// Index of the edge joining `u` and `v`, if any.
    fn find_edge(&self, u: usize, v: usize) -> (r: Option<usize>)
        ensures
            match r {
                Some(i) => i < self.edges@.len() && pair_eq(
                    self.edges@[i as int].0,
                    self.edges@[i as int].1,
                    u,
                    v,
                ),
                None => !self.has_edge(u, v),
            },
    {
        let mut i: usize = 0;
        while i < self.edges.len()
            invariant
                i <= self.edges.len(),
                forall|j: int|
                    0 <= j < i ==> !pair_eq(
                        (#[trigger] self.edges@[j]).0,
                        self.edges@[j].1,
                        u,
                        v,
                    ),
            decreases self.edges.len() - i,
        {
            let e = self.edges[i];
            if (e.0 == u && e.1 == v) || (e.0 == v && e.1 == u) {
                return Some(i);
            }
            i = i + 1;
        }
        None
    }

    /// Kind of the edge joining `u` and `v`, if any.
    pub fn edge_kind(&self, u: usize, v: usize) -> (r: Option<EKind>)
        ensures
            match r {
                Some(k) => self.is_edge(u, v, k),
                None => !self.has_edge(u, v),
            },
    {
        match self.find_edge(u, v) {
            Some(i) => Some(self.edges[i].2),
            None => None,
        }
    }

    pub fn degree(&self, v: usize) -> (c: usize)
        ensures
            c as int == self.degree_of(v),
    {
        let mut c: usize = 0;
        let mut i: usize = 0;
        while i < self.edges.len()
            invariant
                i <= self.edges.len(),
                c <= i,
                c as int == count_touching(self.edges@.take(i as int), v),
            decreases self.edges.len() - i,
        {
            proof {
                assert(self.edges@.take(i as int + 1).drop_last() =~= self.edges@.take(i as int));
            }
            let e = self.edges[i];
            if e.0 == v || e.1 == v {
                c = c + 1;
            }
            i = i + 1;
        }
        proof {
            assert(self.edges@.take(self.edges@.len() as int) =~= self.edges@);
        }
        c
    }

    /// The neighbors of `v` with the kind of the joining edge, in edge order.
    pub fn incident_edges(&self, v: usize) -> (r: Vec<(usize, EKind)>)
        requires
            self.wf(),
        ensures
            r@ == spec_incident(self.edges@, v),
            forall|p: int|
                0 <= p < r@.len() ==> self.is_edge(v, (#[trigger] r@[p]).0, r@[p].1),
            forall|w: usize, k: EKind| self.is_edge(v, w, k) ==> r@.contains((w, k)),
    {
        let mut r: Vec<(usize, EKind)> = Vec::new();
        let mut i: usize = 0;
        while i < self.edges.len()
            invariant
                i <= self.edges.len(),
                r@ == spec_incident(self.edges@.take(i as int), v),
                forall|p: int|
                    0 <= p < r@.len() ==> self.is_edge(v, (#[trigger] r@[p]).0, r@[p].1),
                forall|j: int|
                    0 <= j < i && touches(#[trigger] self.edges@[j], v) ==> r@.contains(
                        (
                            if self.edges@[j].0 == v {
                                self.edges@[j].1
                            } else {
                                self.edges@[j].0
                            },
                            self.edges@[j].2,
                        ),
                    ),
            decreases self.edges.len() - i,
        {
            let e = self.edges[i];
            let ghost r0 = r@;
            proof {
                assert(self.edges@.take(i as int + 1).drop_last() =~= self.edges@.take(i as int));
                assert(self.edges@.take(i as int + 1).last() == self.edges@[i as int]);
            }
            if e.0 == v {
                r.push((e.1, e.2));
                assert(r@[r@.len() - 1] == (e.1, e.2));
            } else if e.1 == v {
                r.push((e.0, e.2));
                assert(r@[r@.len() - 1] == (e.0, e.2));
            }
            proof {
                assert(forall|x: (usize, EKind)| r0.contains(x) ==> #[trigger] r@.contains(x)) by {
                    assert(forall|p: int| 0 <= p < r0.len() ==> r@[p] == r0[p]);
                }
            }
            i = i + 1;
        }
        proof {
            assert(self.edges@.take(self.edges@.len() as int) =~= self.edges@);
            assert(forall|w: usize, k: EKind| self.is_edge(v, w, k) ==> r@.contains((w, k))) by {
                assert forall|w: usize, k: EKind| self.is_edge(v, w, k) implies r@.contains(
                    (w, k),
                ) by {
                    let j = choose|j: int|
                        0 <= j < self.edges@.len() && pair_eq(
                            (#[trigger] self.edges@[j]).0,
                            self.edges@[j].1,
                            v,
                            w,
                        ) && self.edges@[j].2 == k;
                    assert(touches(self.edges@[j], v));
                }
            }
        }
        r
    }

    /// The neighbors of `v`, in edge order.
    pub fn neighbors(&self, v: usize) -> (r: Vec<usize>)
        requires
            self.wf(),
        ensures
            forall|p: int| 0 <= p < r@.len() ==> self.has_edge(v, #[trigger] r@[p]),
            forall|w: usize, k: EKind| self.is_edge(v, w, k) ==> r@.contains(w),
    {
        let inc = self.incident_edges(v);
        let mut r: Vec<usize> = Vec::new();
        let mut i: usize = 0;
        while i < inc.len()
            invariant
                i <= inc.len(),
                r@.len() == i,
                forall|p: int| 0 <= p < i ==> r@[p] == (#[trigger] inc@[p]).0,
                forall|p: int|
                    0 <= p < inc@.len() ==> self.is_edge(v, (#[trigger] inc@[p]).0, inc@[p].1),
            decreases inc.len() - i,
        {
            r.push(inc[i].0);
            i = i + 1;
        }
        proof {
            assert forall|w: usize, k: EKind| self.is_edge(v, w, k) implies r@.contains(w) by {
                assert(inc@.contains((w, k)));
                let p = choose|p: int| 0 <= p < inc@.len() && inc@[p] == (w, k);
                assert(r@[p] == w);
            }
            assert forall|p: int| 0 <= p < r@.len() implies self.has_edge(
                v,
                #[trigger] r@[p],
            ) by {
                assert(self.is_edge(v, inc@[p].0, inc@[p].1));
            }
        }
        r
    }

    /// Adds an edge of kind `k` between distinct live vertices not yet joined.
    pub fn add_edge(&mut self, u: usize, v: usize, k: EKind)
        requires
            old(self).wf(),
            old(self).alive(u),
            old(self).alive(v),
            u != v,
            !old(self).has_edge(u, v),
        ensures
            final(self).wf(),
            final(self).edges@ == old(self).edges@.push((u, v, k)),
            final(self).is_edge(u, v, k),
            final(self).kinds@ == old(self).kinds@,
            final(self).phases@ == old(self).phases@,
            final(self).live@ == old(self).live@,
            final(self).s_omega == old(self).s_omega && final(self).s_pow == old(self).s_pow,
            forall|a: usize, b: usize, kk: EKind|
                !pair_eq(a, b, u, v) ==> final(self).is_edge(a, b, kk) == old(self).is_edge(a, b, kk),
    {
        self.edges.push((u, v, k));
        proof {
            let s = self.edges@;
            let s0 = old(self).edges@;
            assert(s[s.len() - 1] == (u, v, k));
            assert forall|a: usize, b: usize, kk: EKind|
                !pair_eq(a, b, u, v) implies self.is_edge(a, b, kk) == old(self).is_edge(
                a,
                b,
                kk,
            ) by {
                if old(self).is_edge(a, b, kk) {
                    let i = choose|i: int|
                        0 <= i < s0.len() && pair_eq((#[trigger] s0[i]).0, s0[i].1, a, b)
                            && s0[i].2 == kk;
                    assert(s[i] == s0[i]);
                }
                if self.is_edge(a, b, kk) {
                    let i = choose|i: int|
                        0 <= i < s.len() && pair_eq((#[trigger] s[i]).0, s[i].1, a, b) && s[i].2
                            == kk;
                    assert(i < s0.len());
                    assert(s0[i] == s[i]);
                }
            }
        }
    }

    /// Removes the edge joining `u` and `v`.
    pub fn remove_edge(&mut self, u: usize, v: usize)
        requires
            old(self).wf(),
            old(self).has_edge(u, v),
        ensures
            final(self).wf(),
            !final(self).has_edge(u, v),
            final(self).edges@.len() == old(self).edges@.len() - 1,
            final(self).kinds@ == old(self).kinds@,
            final(self).phases@ == old(self).phases@,
            final(self).live@ == old(self).live@,
            final(self).s_omega == old(self).s_omega && final(self).s_pow == old(self).s_pow,
            forall|a: usize, b: usize, kk: EKind|
                !pair_eq(a, b, u, v) ==> final(self).is_edge(a, b, kk) == old(self).is_edge(a, b, kk),
    {
        let i = match self.find_edge(u, v) {
            Some(i) => i,
            None => {
                proof {
                    assert(false);
                }
                0
            },
        };
        self.edges.remove(i);
        proof {
            let s = self.edges@;
            let s0 = old(self).edges@;
            assert(s =~= s0.remove(i as int));
            assert(forall|p: int| 0 <= p < i ==> s[p] == s0[p]);
            assert(forall|p: int| i <= p < s.len() ==> s[p] == s0[p + 1]);
            assert forall|p: int| 0 <= p < s.len() implies !pair_eq(
                (#[trigger] s[p]).0,
                s[p].1,
                u,
                v,
            ) by {
                if p < i {
                    assert(!pair_eq(s0[p].0, s0[p].1, s0[i as int].0, s0[i as int].1));
                } else {
                    assert(!pair_eq(s0[i as int].0, s0[i as int].1, s0[p + 1].0, s0[p + 1].1));
                }
            }
            assert forall|a: usize, b: usize, kk: EKind|
                !pair_eq(a, b, u, v) implies self.is_edge(a, b, kk) == old(self).is_edge(
                a,
                b,
                kk,
            ) by {
                if old(self).is_edge(a, b, kk) {
                    let q = choose|q: int|
                        0 <= q < s0.len() && pair_eq((#[trigger] s0[q]).0, s0[q].1, a, b)
                            && s0[q].2 == kk;
                    if q < i {
                        assert(s[q] == s0[q]);
                    } else {
                        assert(q != i);
                        assert(s[q - 1] == s0[q]);
                    }
                }
                if self.is_edge(a, b, kk) {
                    let q = choose|q: int|
                        0 <= q < s.len() && pair_eq((#[trigger] s[q]).0, s[q].1, a, b) && s[q].2
                            == kk;
                    if q < i {
                        assert(s0[q] == s[q]);
                    } else {
                        assert(s0[q + 1] == s[q]);
                    }
                }
            }
        }
    }

    /// Deletes the vertex `v` together with every incident edge.
    pub fn remove_vertex(&mut self, v: usize)
        requires
            old(self).wf(),
            old(self).alive(v),
        ensures
            final(self).wf(),
            !final(self).alive(v),
            final(self).count_alive() == old(self).count_alive() - 1,
            final(self).live@ == old(self).live@.update(v as int, false),
            final(self).kinds@ == old(self).kinds@,
            final(self).phases@ == old(self).phases@,
            final(self).s_omega == old(self).s_omega && final(self).s_pow == old(self).s_pow,
            forall|w: usize| w != v ==> final(self).alive(w) == old(self).alive(w),
            forall|w: usize| !final(self).has_edge(v, w),
            forall|a: usize, b: usize, kk: EKind|
                a != v && b != v ==> final(self).is_edge(a, b, kk) == old(self).is_edge(a, b, kk),
    {
        let ghost s0 = self.edges@;
        let mut kept: Vec<(usize, usize, EKind)> = Vec::new();
        let mut i: usize = 0;
        while i < self.edges.len()
            invariant
                self.wf(),
                i <= self.edges.len(),
                self.edges@ == s0,
                forall|p: int| 0 <= p < kept@.len() ==> !touches(#[trigger] kept@[p], v),
                forall|p: int|
                    0 <= p < kept@.len() ==> exists|q: int|
                        0 <= q < i && #[trigger] kept@[p] == s0[q],
                forall|p1: int, p2: int|
                    0 <= p1 < p2 < kept@.len() ==> !pair_eq(
                        (#[trigger] kept@[p1]).0,
                        kept@[p1].1,
                        (#[trigger] kept@[p2]).0,
                        kept@[p2].1,
                    ),
                forall|j: int|
                    0 <= j < i && !touches(#[trigger] s0[j], v) ==> kept@.contains(s0[j]),
            decreases self.edges.len() - i,
        {
            let e = self.edges[i];
            let ghost k0 = kept@;
            if !(e.0 == v || e.1 == v) {
                kept.push(e);
                proof {
                    assert(kept@[kept@.len() - 1] == s0[i as int]);
                    assert forall|p1: int, p2: int|
                        0 <= p1 < p2 < kept@.len() implies !pair_eq(
                        (#[trigger] kept@[p1]).0,
                        kept@[p1].1,
                        (#[trigger] kept@[p2]).0,
                        kept@[p2].1,
                    ) by {
                        if p2 == kept@.len() - 1 {
                            let q = choose|q: int| 0 <= q < i && #[trigger] k0[p1] == s0[q];
                            assert(!pair_eq(s0[q].0, s0[q].1, s0[i as int].0, s0[i as int].1));
                        }
                    }
                }
            }
            proof {
                assert(forall|x: (usize, usize, EKind)|
                    k0.contains(x) ==> #[trigger] kept@.contains(x)) by {
                    assert(forall|p: int| 0 <= p < k0.len() ==> kept@[p] == k0[p]);
                }
            }
            i = i + 1;
        }
        self.edges = kept;
        self.live.set(v, false);
        proof {
            lemma_count_live_update(old(self).live@, v as int, false);
            let s = self.edges@;
            assert forall|w: usize| !self.has_edge(v, w) by {
                if self.has_edge(v, w) {
                    let q = choose|q: int|
                        0 <= q < s.len() && pair_eq((#[trigger] s[q]).0, s[q].1, v, w);
                    assert(touches(s[q], v));
                }
            }
            assert forall|a: usize, b: usize, kk: EKind| a != v && b != v implies self.is_edge(
                a,
                b,
                kk,
            ) == old(self).is_edge(a, b, kk) by {
                if old(self).is_edge(a, b, kk) {
                    let q = choose|q: int|
                        0 <= q < s0.len() && pair_eq((#[trigger] s0[q]).0, s0[q].1, a, b)
                            && s0[q].2 == kk;
                    assert(!touches(s0[q], v));
                    assert(s.contains(s0[q]));
                    let p = choose|p: int| 0 <= p < s.len() && s[p] == s0[q];
                    assert(pair_eq(s[p].0, s[p].1, a, b) && s[p].2 == kk);
                }
                if self.is_edge(a, b, kk) {
                    let p = choose|p: int|
                        0 <= p < s.len() && pair_eq((#[trigger] s[p]).0, s[p].1, a, b) && s[p].2
                            == kk;
                    let q = choose|q: int| 0 <= q < s0.len() && s[p] == s0[q];
                    assert(pair_eq(s0[q].0, s0[q].1, a, b) && s0[q].2 == kk);
                }
            }
            assert forall|p: int| 0 <= p < s.len() implies self.wf_edge(#[trigger] s[p]) by {
                let q = choose|q: int| 0 <= q < s0.len() && s[p] == s0[q];
                assert(old(self).wf_edge(s0[q]));
                assert(!touches(s0[q], v));
            }
        }
    }

    /// Converts every X-spider to a Z-spider, flipping the kind of each
    /// incident edge; an edge between two X-spiders keeps its kind.
    pub fn x_to_z(&mut self)
        requires
            old(self).wf(),
        ensures
            final(self).wf(),
            final(self).live@ == old(self).live@,
            final(self).phases@ == old(self).phases@,
            final(self).count_alive() == old(self).count_alive(),
            final(self).kinds@.len() == old(self).kinds@.len(),
            forall|w: usize| final(self).alive(w) == old(self).alive(w),
            forall|w: usize|
                (w as int) < final(self).kinds@.len() ==> final(self).kind_of(w) == (if old(self).kind_of(w)
                    == VKind::X {
                    VKind::Z
                } else {
                    old(self).kind_of(w)
                }),
            forall|w: usize| (w as int) < final(self).kinds@.len() ==> final(self).kind_of(w) != VKind::X,
            final(self).edges@.len() == old(self).edges@.len(),
            forall|i: int|
                0 <= i < final(self).edges@.len() ==> (#[trigger] final(self).edges@[i]).0
                    == old(self).edges@[i].0 && final(self).edges@[i].1 == old(self).edges@[i].1
                    && final(self).edges@[i].2 == spec_xz_kind(*old(self), old(self).edges@[i]),
            final(self).s_omega == old(self).s_omega && final(self).s_pow == old(self).s_pow,
            (forall|w: usize|
                (w as int) < old(self).kinds@.len() ==> old(self).kind_of(w) != VKind::X)
                ==> *final(self) == *old(self),
    {
        // A diagram without X-spiders is left untouched.
        let mut has_x = false;
        let mut sc: usize = 0;
        while sc < self.kinds.len()
            invariant
                sc <= self.kinds@.len(),
                has_x == exists|p: int| 0 <= p < sc && self.kinds@[p] == VKind::X,
            decreases self.kinds@.len() - sc,
        {
            if self.kinds[sc] == VKind::X {
                has_x = true;
            }
            sc = sc + 1;
        }
        proof {
            assert(has_x == exists|p: int|
                0 <= p < old(self).kinds@.len() && old(self).kinds@[p] == VKind::X);
        }
        if !has_x {
            proof {
                assert forall|w: usize|
                    (w as int) < self.kinds@.len() implies self.kind_of(w) != VKind::X by {
                    assert(!(exists|p: int|
                        0 <= p < self.kinds@.len() && self.kinds@[p] == VKind::X));
                }
                assert(forall|i: int|
                    0 <= i < self.edges@.len() ==> (#[trigger] self.edges@[i]).2 == spec_xz_kind(
                        *self,
                        self.edges@[i],
                    ));
            }
            return ;
        }
        let ghost s0 = self.edges@;
        let ghost k0 = self.kinds@;
        // Flip the kind of each edge once per X-spider endpoint.
        let mut i: usize = 0;
        while i < self.edges.len()
            invariant
                self.wf(),
                self.kinds@ == k0,
                k0 == old(self).kinds@,
                self.phases@ == old(self).phases@,
                self.live@ == old(self).live@,
                self.s_omega == old(self).s_omega && self.s_pow == old(self).s_pow,
                i <= self.edges.len(),
                self.edges@.len() == s0.len(),
                forall|p: int|
                    0 <= p < s0.len() ==> (#[trigger] self.edges@[p]).0 == s0[p].0
                        && self.edges@[p].1 == s0[p].1,
                forall|p: int|
                    0 <= p < i ==> (#[trigger] self.edges@[p]).2 == spec_xz_kind(*old(self), s0[p]),
                forall|p: int| i <= p < s0.len() ==> self.edges@[p] == s0[p],
            decreases self.edges.len() - i,
        {
            let e = self.edges[i];
            let mut k = e.2;
            if self.kinds[e.0] == VKind::X {
                k = flip(k);
            }
            if self.kinds[e.1] == VKind::X {
                k = flip(k);
            }
            self.edges.set(i, (e.0, e.1, k));
            i = i + 1;
        }
        // Now relabel every X-spider as a Z-spider.
        let mut v: usize = 0;
        while v < self.kinds.len()
            invariant
                self.phases@ == old(self).phases@,
                self.live@ == old(self).live@,
                self.s_omega == old(self).s_omega && self.s_pow == old(self).s_pow,
                v <= self.kinds.len(),
                self.kinds@.len() == k0.len(),
                self.live@.len() == k0.len(),
                self.phases@.len() == k0.len(),
                k0.len() < 0x1_0000_0000,
                forall|i: int| 0 <= i < self.phases@.len() ==> (#[trigger] self.phases@[i]).wf(),
                forall|p: int| 0 <= p < self.edges@.len() ==> self.wf_edge(#[trigger] self.edges@[p]),
                forall|i: int, j: int|
                    0 <= i < j < self.edges@.len() ==> !pair_eq(
                        (#[trigger] self.edges@[i]).0,
                        self.edges@[i].1,
                        (#[trigger] self.edges@[j]).0,
                        self.edges@[j].1,
                    ),
                forall|p: int|
                    0 <= p < v ==> self.kinds@[p] == (if k0[p] == VKind::X {
                        VKind::Z
                    } else {
                        k0[p]
                    }),
                forall|p: int| v <= p < k0.len() ==> self.kinds@[p] == k0[p],
                forall|p: int|
                    0 <= p < s0.len() ==> (#[trigger] self.edges@[p]).0 == s0[p].0
                        && self.edges@[p].1 == s0[p].1,
                forall|p: int|
                    0 <= p < s0.len() ==> (#[trigger] self.edges@[p]).2 == spec_xz_kind(
                        *old(self),
                        s0[p],
                    ),
                self.edges@.len() == s0.len(),
            decreases self.kinds.len() - v,
        {
            if self.kinds[v] == VKind::X {
                self.kinds.set(v, VKind::Z);
            }
            v = v + 1;
        }
        proof {
            assert forall|w: usize| (w as int) < self.kinds@.len() implies self.kind_of(w)
                != VKind::X by {
                let p = w as int;
                assert(self.kinds@[p] == (if k0[p] == VKind::X {
                    VKind::Z
                } else {
                    k0[p]
                }));
            }
            if forall|w: usize|
                (w as int) < old(self).kinds@.len() ==> old(self).kind_of(w) != VKind::X {
                let p = choose|p: int|
                    0 <= p < old(self).kinds@.len() && old(self).kinds@[p] == VKind::X;
                assert(old(self).kind_of(p as usize) != VKind::X);
                assert(false);
            }
        }
    }

    /// Multiplies the tracked global scalar by `omega^om * sqrt(2)^pow`;
    /// an exponent that would leave the safe band leaves the power unchanged.
    pub fn scalar_mul(&mut self, om: u8, pow: i64)
        requires
            old(self).wf(),
            om < 8,
            -0x4000_0000_0000_0000 <= pow <= 0x4000_0000_0000_0000,
        ensures
            final(self).wf(),
            final(self).kinds@ == old(self).kinds@,
            final(self).phases@ == old(self).phases@,
            final(self).live@ == old(self).live@,
            final(self).edges@ == old(self).edges@,
            final(self).s_omega == (old(self).s_omega + om) % 8,
            final(self).s_pow == old(self).s_pow + pow || final(self).s_pow == old(self).s_pow,
            -0x4000_0000_0000_0000 <= old(self).s_pow + pow <= 0x4000_0000_0000_0000
                ==> final(self).s_pow == old(self).s_pow + pow,
    {
        self.s_omega = (self.s_omega + om) % 8;
        let t: i128 = self.s_pow as i128 + pow as i128;
        if -0x4000_0000_0000_0000 <= t && t <= 0x4000_0000_0000_0000 {
            self.s_pow = t as i64;
        }
    }
}

/// The kind an edge takes when X-spiders are relabeled as Z-spiders: it is
/// flipped when exactly one endpoint is an X-spider.
pub open spec fn spec_xz_kind(d: Diagram, e: (usize, usize, EKind)) -> EKind {
    if (d.kind_of(e.0) == VKind::X) != (d.kind_of(e.1) == VKind::X) {
        spec_flip(e.2)
    } else {
        e.2
    }
}

/// The other edge kind.
pub fn flip(k: EKind) -> (r: EKind)
    ensures
        r == spec_flip(k),
{
    match k {
        EKind::N => EKind::H,
        EKind::H => EKind::N,
    }
}

pub open spec fn spec_flip(k: EKind) -> EKind {
    match k {
        EKind::N => EKind::H,
        EKind::H => EKind::N,
    }
}

} // verus!
