//! The rule library: match predicates and rewrite actions for the named
//! ZX-calculus rules driven by the generic rewrite drivers.
//!
//! Each rule is a tagged strategy: `VertexRule` for rules matched at a single
//! vertex, `EdgeRule` for rules matched at an edge of a given kind. A match
//! predicate is a spec function over the diagram, mirrored exactly by an
//! executable check; a rewrite deletes what it matched (the generalized pivot
//! may insert one vertex while deleting two) and never grows the vertex count.

use vstd::prelude::*;

verus! {

use crate::diagram::{spec_incident, Diagram, EKind, VKind};
use crate::phase::Phase;

/// Rules matched at a single vertex.
#[derive(Clone, Copy, PartialEq, Eq, Structural, Debug)]
pub enum VertexRule {
    /// Remove a bypassable phaseless degree-2 spider.
    RemoveId,
    /// Local complementation at a proper-Clifford interior vertex.
    LocalComp,
}

/// Rules matched at an edge of a given kind.
#[derive(Clone, Copy, PartialEq, Eq, Structural, Debug)]
pub enum EdgeRule {
    /// Fuse two same-kind spiders joined by a plain edge.
    SpiderFusion,
    /// Pivot about a Hadamard edge between interior Pauli spiders.
    Pivot,
    /// Pivot extended to a pair with at most one boundary neighbor.
    GenPivot,
}

/// Combined kind of two edges met in sequence at a phaseless degree-2 spider.
pub open spec fn spec_xor(k1: EKind, k2: EKind) -> EKind {
    if k1 == k2 {
        EKind::N
    } else {
        EKind::H
    }
}

/// The connection `k` between `a` and `b` acts as a Hadamard connection once
/// X-spiders are read as Z-spiders with flipped incident edges.
pub open spec fn eff_is_h(k: EKind, a: VKind, b: VKind) -> bool {
    (k == EKind::H) != ((a == VKind::X) != (b == VKind::X))
}

/// An edge between `x` and `y` may be toggled: there is none, or it is a
/// Hadamard edge (a same-vertex pair is never toggled).
pub open spec fn pair_toggle_ok(d: Diagram, x: usize, y: usize) -> bool {
    x == y || !d.has_edge(x, y) || d.is_edge(x, y, EKind::H)
}

/// An incident entry leads to an interior Z-spider over a Hadamard edge.
pub open spec fn entry_interior(d: Diagram, e: (usize, EKind)) -> bool {
    d.kind_of(e.0) == VKind::Z && e.1 == EKind::H
}

/// An incident entry acceptable to the generalized pivot: interior, or a
/// boundary vertex over an edge of either kind.
pub open spec fn gp_entry_ok(d: Diagram, e: (usize, EKind)) -> bool {
    d.kind_of(e.0) == VKind::B || entry_interior(d, e)
}

/// A toggled pair acceptable to the generalized pivot: a boundary endpoint is
/// replaced by a fresh vertex before the pivot, so only spider pairs need to
/// be toggle-ready.
pub open spec fn gp_pair_ok(d: Diagram, x: usize, y: usize) -> bool {
    d.kind_of(x) == VKind::B || d.kind_of(y) == VKind::B || pair_toggle_ok(d, x, y)
}

/// The two ends of a would-be parallel pair at `w` after fusing into `s`
/// resolve: the kinds agree, and a Hopf pair never sits on a boundary.
pub open spec fn fusion_pair_ok(d: Diagram, s: usize, es: (usize, EKind), et: (usize, EKind)) -> bool {
    es.1 == et.1 && (eff_is_h(es.1, d.kind_of(s), d.kind_of(es.0)) ==> d.kind_of(es.0) != VKind::B)
}

/// The other endpoints of the incident entries, one exclusion applied.
pub open spec fn spec_others(inc: Seq<(usize, EKind)>, excl: usize) -> Seq<usize>
    decreases inc.len(),
{
    if inc.len() == 0 {
        Seq::empty()
    } else {
        let rest = spec_others(inc.drop_last(), excl);
        if inc.last().0 == excl {
            rest
        } else {
            rest.push(inc.last().0)
        }
    }
}

/// Number of incident entries leading to a boundary vertex.
pub open spec fn count_boundary(d: Diagram, inc: Seq<(usize, EKind)>) -> int
    decreases inc.len(),
{
    if inc.len() == 0 {
        0
    } else {
        count_boundary(d, inc.drop_last()) + if d.kind_of(inc.last().0) == VKind::B {
            1int
        } else {
            0int
        }
    }
}

/// Identity removal matches a live phaseless degree-2 spider whose two
/// distinct neighbors can be joined by the combined edge: either they are not
/// yet joined, or the existing edge already has the combined kind and both
/// neighbors are spiders (so a parallel pair resolves).
pub open spec fn matches_remove_id(d: Diagram, v: usize) -> bool {
    let inc = spec_incident(d.edges@, v);
    &&& d.alive(v)
    &&& d.kind_of(v) != VKind::B
    &&& d.phase_of(v).spec_is_zero()
    &&& inc.len() == 2
    &&& inc[0].0 != inc[1].0
    &&& {
        let x = inc[0].0;
        let y = inc[1].0;
        let nk = spec_xor(inc[0].1, inc[1].1);
        !d.has_edge(x, y) || (d.kind_of(x) != VKind::B && d.kind_of(y) != VKind::B && d.is_edge(
            x,
            y,
            nk,
        ))
    }
}

/// Local complementation matches a live Z-spider with phase 1/2 or 3/2 whose
/// neighbors are all interior Z-spiders over Hadamard edges, every pair of
/// which is toggle-ready.
pub open spec fn matches_local_comp(d: Diagram, v: usize) -> bool {
    let inc = spec_incident(d.edges@, v);
    &&& d.alive(v)
    &&& d.kind_of(v) == VKind::Z
    &&& d.phase_of(v).spec_is_proper_clifford()
    &&& forall|p: int| 0 <= p < inc.len() ==> entry_interior(d, #[trigger] inc[p])
    &&& forall|p: int, q: int|
        0 <= p < q < inc.len() ==> pair_toggle_ok(d, (#[trigger] inc[p]).0, (#[trigger] inc[q]).0)
}

/// Spider fusion matches two distinct live same-kind spiders joined by a
/// plain edge, every common neighbor of which resolves after the merge.
pub open spec fn matches_fusion(d: Diagram, s: usize, t: usize) -> bool {
    let incs = spec_incident(d.edges@, s);
    let inct = spec_incident(d.edges@, t);
    &&& d.alive(s)
    &&& d.alive(t)
    &&& s != t
    &&& d.kind_of(s) == d.kind_of(t)
    &&& d.kind_of(s) != VKind::B
    &&& d.is_edge(s, t, EKind::N)
    &&& forall|p: int, q: int|
        0 <= p < incs.len() && 0 <= q < inct.len() && (#[trigger] incs[p]).0 == (
        #[trigger] inct[q]).0 ==> fusion_pair_ok(d, s, incs[p], inct[q])
}

/// Pivot matches a Hadamard edge between two live interior Z-spiders with
/// Pauli phases, all of whose neighbors are interior and pairwise
/// toggle-ready.
pub open spec fn matches_pivot(d: Diagram, s: usize, t: usize) -> bool {
    let incs = spec_incident(d.edges@, s);
    let inct = spec_incident(d.edges@, t);
    let av = spec_others(incs, t);
    let bv = spec_others(inct, s);
    &&& d.alive(s)
    &&& d.alive(t)
    &&& s != t
    &&& d.kind_of(s) == VKind::Z
    &&& d.kind_of(t) == VKind::Z
    &&& d.is_edge(s, t, EKind::H)
    &&& d.phase_of(s).spec_is_pauli()
    &&& d.phase_of(t).spec_is_pauli()
    &&& forall|p: int| 0 <= p < incs.len() ==> entry_interior(d, #[trigger] incs[p])
    &&& forall|p: int| 0 <= p < inct.len() ==> entry_interior(d, #[trigger] inct[p])
    &&& forall|p: int, q: int|
        0 <= p < av.len() && 0 <= q < bv.len() ==> pair_toggle_ok(
            d,
            #[trigger] av[p],
            #[trigger] bv[q],
        )
}

/// The generalized pivot relaxes the pivot to pairs with at most one boundary
/// neighbor between them; that neighbor is split off behind a fresh interior
/// vertex before the pivot proper, so the rewrite still shrinks the diagram.
pub open spec fn matches_gen_pivot(d: Diagram, s: usize, t: usize) -> bool {
    let incs = spec_incident(d.edges@, s);
    let inct = spec_incident(d.edges@, t);
    let av = spec_others(incs, t);
    let bv = spec_others(inct, s);
    &&& d.alive(s)
    &&& d.alive(t)
    &&& s != t
    &&& d.kind_of(s) == VKind::Z
    &&& d.kind_of(t) == VKind::Z
    &&& d.is_edge(s, t, EKind::H)
    &&& d.phase_of(s).spec_is_pauli()
    &&& d.phase_of(t).spec_is_pauli()
    &&& d.n() + 1 < 0x1_0000_0000
    &&& forall|p: int| 0 <= p < incs.len() ==> gp_entry_ok(d, #[trigger] incs[p])
    &&& forall|p: int| 0 <= p < inct.len() ==> gp_entry_ok(d, #[trigger] inct[p])
    &&& count_boundary(d, incs) + count_boundary(d, inct) <= 1
    &&& forall|p: int, q: int|
        0 <= p < av.len() && 0 <= q < bv.len() ==> gp_pair_ok(d, #[trigger] av[p], #[trigger] bv[q])
}

/// Dispatch: does the vertex rule match at `v`?
pub open spec fn vrule_matches(r: VertexRule, d: Diagram, v: usize) -> bool {
    match r {
        VertexRule::RemoveId => matches_remove_id(d, v),
        VertexRule::LocalComp => matches_local_comp(d, v),
    }
}

/// Dispatch: does the edge rule match at `(s, t)`?
pub open spec fn erule_matches(r: EdgeRule, d: Diagram, s: usize, t: usize) -> bool {
    match r {
        EdgeRule::SpiderFusion => matches_fusion(d, s, t),
        EdgeRule::Pivot => matches_pivot(d, s, t),
        EdgeRule::GenPivot => matches_gen_pivot(d, s, t),
    }
}

/// An incident edge leads somewhere live and elsewhere.
pub proof fn lemma_incident_entry(d: Diagram, v: usize, w: usize, k: EKind)
    requires
        d.wf(),
        d.is_edge(v, w, k),
    ensures
        d.alive(w),
        d.alive(v),
        w != v,
        d.has_edge(v, w),
{
    let i = choose|i: int|
        0 <= i < d.edges@.len() && crate::diagram::pair_eq(
            (#[trigger] d.edges@[i]).0,
            d.edges@[i].1,
            v,
            w,
        ) && d.edges@[i].2 == k;
    assert(d.wf_edge(d.edges@[i]));
}

/// Is there an edge of exactly this kind?
fn edge_is(g: &Diagram, x: usize, y: usize, k: EKind) -> (b: bool)
    requires
        g.wf(),
    ensures
        b == g.is_edge(x, y, k),
{
    match g.edge_kind(x, y) {
        Some(ke) => {
            proof {
                if ke != k && g.is_edge(x, y, k) {
                    g.lemma_edge_kind_unique(x, y, ke, k);
                }
            }
            ke == k
        },
        None => {
            proof {
                if g.is_edge(x, y, k) {
                    lemma_incident_entry(*g, x, y, k);
                }
            }
            false
        },
    }
}

/// Executable mirror of `pair_toggle_ok`.
fn pair_ok(g: &Diagram, x: usize, y: usize) -> (b: bool)
    requires
        g.wf(),
    ensures
        b == pair_toggle_ok(*g, x, y),
{
    if x == y {
        true
    } else {
        match g.edge_kind(x, y) {
            None => true,
            Some(ke) => {
                proof {
                    if ke != EKind::H && g.is_edge(x, y, EKind::H) {
                        g.lemma_edge_kind_unique(x, y, ke, EKind::H);
                    }
                }
                ke == EKind::H
            },
        }
    }
}

/// All incident entries are interior.
fn entries_interior(g: &Diagram, inc: &Vec<(usize, EKind)>, v: usize) -> (b: bool)
    requires
        g.wf(),
        inc@ == spec_incident(g.edges@, v),
    ensures
        b == forall|p: int| 0 <= p < inc@.len() ==> entry_interior(*g, #[trigger] inc@[p]),
{
    let mut i: usize = 0;
    while i < inc.len()
        invariant
            g.wf(),
            inc@ == spec_incident(g.edges@, v),
            i <= inc@.len(),
            forall|p: int| 0 <= p < i ==> entry_interior(*g, #[trigger] inc@[p]),
        decreases inc.len() - i,
    {
        let e = inc[i];
        proof {
            lemma_incident_entries_wf(*g, v);
        }
        if !(g.vertex_type(e.0) == VKind::Z && e.1 == EKind::H) {
            assert(!entry_interior(*g, inc@[i as int]));
            return false;
        }
        i = i + 1;
    }
    true
}

/// All incident entries are acceptable to the generalized pivot.
fn entries_gp_ok(g: &Diagram, inc: &Vec<(usize, EKind)>, v: usize) -> (b: bool)
    requires
        g.wf(),
        inc@ == spec_incident(g.edges@, v),
    ensures
        b == forall|p: int| 0 <= p < inc@.len() ==> gp_entry_ok(*g, #[trigger] inc@[p]),
{
    let mut i: usize = 0;
    while i < inc.len()
        invariant
            g.wf(),
            inc@ == spec_incident(g.edges@, v),
            i <= inc@.len(),
            forall|p: int| 0 <= p < i ==> gp_entry_ok(*g, #[trigger] inc@[p]),
        decreases inc.len() - i,
    {
        let e = inc[i];
        proof {
            lemma_incident_entries_wf(*g, v);
        }
        let kw = g.vertex_type(e.0);
        if !(kw == VKind::B || (kw == VKind::Z && e.1 == EKind::H)) {
            assert(!gp_entry_ok(*g, inc@[i as int]));
            return false;
        }
        i = i + 1;
    }
    true
}

/// Number of boundary entries, executably.
fn boundary_count(g: &Diagram, inc: &Vec<(usize, EKind)>, v: usize) -> (c: usize)
    requires
        g.wf(),
        inc@ == spec_incident(g.edges@, v),
    ensures
        c as int == count_boundary(*g, inc@),
{
    let mut c: usize = 0;
    let mut i: usize = 0;
    while i < inc.len()
        invariant
            g.wf(),
            inc@ == spec_incident(g.edges@, v),
            i <= inc@.len(),
            c <= i,
            c as int == count_boundary(*g, inc@.take(i as int)),
        decreases inc.len() - i,
    {
        proof {
            assert(inc@.take(i as int + 1).drop_last() =~= inc@.take(i as int));
            lemma_incident_entries_wf(*g, v);
        }
        let e = inc[i];
        if g.vertex_type(e.0) == VKind::B {
            c = c + 1;
        }
        i = i + 1;
    }
    proof {
        assert(inc@.take(inc@.len() as int) =~= inc@);
    }
    c
}

/// The other endpoints of `inc`, one exclusion applied.
fn others(inc: &Vec<(usize, EKind)>, excl: usize) -> (r: Vec<usize>)
    ensures
        r@ == spec_others(inc@, excl),
{
    let mut r: Vec<usize> = Vec::new();
    let mut i: usize = 0;
    while i < inc.len()
        invariant
            i <= inc@.len(),
            r@ == spec_others(inc@.take(i as int), excl),
        decreases inc.len() - i,
    {
        proof {
            assert(inc@.take(i as int + 1).drop_last() =~= inc@.take(i as int));
            assert(inc@.take(i as int + 1).last() == inc@[i as int]);
        }
        let e = inc[i];
        if e.0 != excl {
            r.push(e.0);
        }
        i = i + 1;
    }
    proof {
        assert(inc@.take(inc@.len() as int) =~= inc@);
    }
    r
}

/// Linear scan of a handle list.
fn vec_contains(v: &Vec<usize>, x: usize) -> (b: bool)
    ensures
        b == v@.contains(x),
{
    let mut i: usize = 0;
    while i < v.len()
        invariant
            i <= v@.len(),
            forall|p: int| 0 <= p < i ==> v@[p] != x,
        decreases v.len() - i,
    {
        if v[i] == x {
            return true;
        }
        i = i + 1;
    }
    false
}

/// Every cross pair is toggle-ready.
fn pairs_across_ok(g: &Diagram, av: &Vec<usize>, bv: &Vec<usize>) -> (b: bool)
    requires
        g.wf(),
    ensures
        b == forall|p: int, q: int|
            0 <= p < av@.len() && 0 <= q < bv@.len() ==> pair_toggle_ok(
                *g,
                #[trigger] av@[p],
                #[trigger] bv@[q],
            ),
{
    let mut i: usize = 0;
    while i < av.len()
        invariant
            g.wf(),
            i <= av@.len(),
            forall|p: int, q: int|
                0 <= p < i && 0 <= q < bv@.len() ==> pair_toggle_ok(
                    *g,
                    #[trigger] av@[p],
                    #[trigger] bv@[q],
                ),
        decreases av.len() - i,
    {
        let mut j: usize = 0;
        while j < bv.len()
            invariant
                g.wf(),
                i < av@.len(),
                j <= bv@.len(),
                forall|p: int, q: int|
                    0 <= p < i && 0 <= q < bv@.len() ==> pair_toggle_ok(
                        *g,
                        #[trigger] av@[p],
                        #[trigger] bv@[q],
                    ),
                forall|q: int|
                    0 <= q < j ==> pair_toggle_ok(*g, av@[i as int], #[trigger] bv@[q]),
            decreases bv.len() - j,
        {
            if !pair_ok(g, av[i], bv[j]) {
                return false;
            }
            j = j + 1;
        }
        i = i + 1;
    }
    true
}

/// Every cross pair is acceptable to the generalized pivot.
fn gp_pairs_across_ok(g: &Diagram, av: &Vec<usize>, bv: &Vec<usize>) -> (b: bool)
    requires
        g.wf(),
        forall|p: int| 0 <= p < av@.len() ==> g.alive(#[trigger] av@[p]),
        forall|q: int| 0 <= q < bv@.len() ==> g.alive(#[trigger] bv@[q]),
    ensures
        b == forall|p: int, q: int|
            0 <= p < av@.len() && 0 <= q < bv@.len() ==> gp_pair_ok(
                *g,
                #[trigger] av@[p],
                #[trigger] bv@[q],
            ),
{
    let mut i: usize = 0;
    while i < av.len()
        invariant
            g.wf(),
            forall|p: int| 0 <= p < av@.len() ==> g.alive(#[trigger] av@[p]),
            forall|q: int| 0 <= q < bv@.len() ==> g.alive(#[trigger] bv@[q]),
            i <= av@.len(),
            forall|p: int, q: int|
                0 <= p < i && 0 <= q < bv@.len() ==> gp_pair_ok(
                    *g,
                    #[trigger] av@[p],
                    #[trigger] bv@[q],
                ),
        decreases av.len() - i,
    {
        let mut j: usize = 0;
        while j < bv.len()
            invariant
                g.wf(),
                forall|p: int| 0 <= p < av@.len() ==> g.alive(#[trigger] av@[p]),
                forall|q: int| 0 <= q < bv@.len() ==> g.alive(#[trigger] bv@[q]),
                i < av@.len(),
                j <= bv@.len(),
                forall|p: int, q: int|
                    0 <= p < i && 0 <= q < bv@.len() ==> gp_pair_ok(
                        *g,
                        #[trigger] av@[p],
                        #[trigger] bv@[q],
                    ),
                forall|q: int| 0 <= q < j ==> gp_pair_ok(*g, av@[i as int], #[trigger] bv@[q]),
            decreases bv.len() - j,
        {
            let x = av[i];
            let y = bv[j];
            let okay = if g.vertex_type(x) == VKind::B || g.vertex_type(y) == VKind::B {
                true
            } else {
                pair_ok(g, x, y)
            };
            if !okay {
                return false;
            }
            j = j + 1;
        }
        i = i + 1;
    }
    true
}

/// Executable mirror of `matches_remove_id`.
fn check_remove_id(g: &Diagram, v: usize) -> (b: bool)
    requires
        g.wf(),
    ensures
        b == matches_remove_id(*g, v),
{
    if !g.contains_vertex(v) {
        return false;
    }
    if g.vertex_type(v) == VKind::B {
        return false;
    }
    if !g.phase(v).is_zero() {
        return false;
    }
    let inc = g.incident_edges(v);
    if inc.len() != 2 {
        return false;
    }
    let e0 = inc[0];
    let e1 = inc[1];
    if e0.0 == e1.0 {
        return false;
    }
    let nk = if e0.1 == e1.1 {
        EKind::N
    } else {
        EKind::H
    };
    proof {
        lemma_incident_entry(*g, v, e0.0, e0.1);
        lemma_incident_entry(*g, v, e1.0, e1.1);
    }
    match g.edge_kind(e0.0, e1.0) {
        None => true,
        Some(ke) => {
            proof {
                if ke != nk && g.is_edge(e0.0, e1.0, nk) {
                    g.lemma_edge_kind_unique(e0.0, e1.0, ke, nk);
                }
            }
            g.vertex_type(e0.0) != VKind::B && g.vertex_type(e1.0) != VKind::B && ke == nk
        },
    }
}

/// Executable mirror of `matches_local_comp`.
fn check_local_comp(g: &Diagram, v: usize) -> (b: bool)
    requires
        g.wf(),
    ensures
        b == matches_local_comp(*g, v),
{
    if !g.contains_vertex(v) {
        return false;
    }
    if g.vertex_type(v) != VKind::Z {
        return false;
    }
    if !g.phase(v).is_proper_clifford() {
        return false;
    }
    let inc = g.incident_edges(v);
    if !entries_interior(g, &inc, v) {
        return false;
    }
    let mut i: usize = 0;
    while i < inc.len()
        invariant
            g.wf(),
            inc@ == spec_incident(g.edges@, v),
            i <= inc@.len(),
            forall|p: int, q: int|
                0 <= p < q < inc@.len() && p < i ==> pair_toggle_ok(
                    *g,
                    (#[trigger] inc@[p]).0,
                    (#[trigger] inc@[q]).0,
                ),
        decreases inc.len() - i,
    {
        let mut j: usize = i + 1;
        while j < inc.len()
            invariant
                g.wf(),
                inc@ == spec_incident(g.edges@, v),
                i < inc@.len(),
                i < j,
                j <= inc@.len(),
                forall|p: int, q: int|
                    0 <= p < q < inc@.len() && p < i ==> pair_toggle_ok(
                        *g,
                        (#[trigger] inc@[p]).0,
                        (#[trigger] inc@[q]).0,
                    ),
                forall|q: int|
                    i < q < j ==> pair_toggle_ok(
                        *g,
                        inc@[i as int].0,
                        (#[trigger] inc@[q]).0,
                    ),
            decreases inc.len() - j,
        {
            if !pair_ok(g, inc[i].0, inc[j].0) {
                return false;
            }
            j = j + 1;
        }
        i = i + 1;
    }
    true
}

/// Executable mirror of `matches_fusion`.
fn check_fusion(g: &Diagram, s: usize, t: usize) -> (b: bool)
    requires
        g.wf(),
    ensures
        b == matches_fusion(*g, s, t),
{
    if !g.contains_vertex(s) || !g.contains_vertex(t) || s == t {
        return false;
    }
    if g.vertex_type(s) != g.vertex_type(t) || g.vertex_type(s) == VKind::B {
        return false;
    }
    if !edge_is(g, s, t, EKind::N) {
        return false;
    }
    let incs = g.incident_edges(s);
    let inct = g.incident_edges(t);
    let mut i: usize = 0;
    while i < incs.len()
        invariant
            g.wf(),
            g.alive(s),
            incs@ == spec_incident(g.edges@, s),
            inct@ == spec_incident(g.edges@, t),
            i <= incs@.len(),
            forall|p: int, q: int|
                0 <= p < i && 0 <= q < inct@.len() && (#[trigger] incs@[p]).0 == (
                #[trigger] inct@[q]).0 ==> fusion_pair_ok(*g, s, incs@[p], inct@[q]),
        decreases incs.len() - i,
    {
        let mut j: usize = 0;
        while j < inct.len()
            invariant
                g.wf(),
                g.alive(s),
                incs@ == spec_incident(g.edges@, s),
                inct@ == spec_incident(g.edges@, t),
                i < incs@.len(),
                j <= inct@.len(),
                forall|p: int, q: int|
                    0 <= p < i && 0 <= q < inct@.len() && (#[trigger] incs@[p]).0 == (
                    #[trigger] inct@[q]).0 ==> fusion_pair_ok(*g, s, incs@[p], inct@[q]),
                forall|q: int|
                    0 <= q < j && incs@[i as int].0 == (#[trigger] inct@[q]).0 ==> fusion_pair_ok(
                        *g,
                        s,
                        incs@[i as int],
                        inct@[q],
                    ),
            decreases inct.len() - j,
        {
            let es = incs[i];
            let et = inct[j];
            if es.0 == et.0 {
                proof {
                    lemma_incident_entries_wf(*g, s);
                }
                let effh = effective_h(es.1, g.vertex_type(s), g.vertex_type(es.0));
                if !(es.1 == et.1 && (!effh || g.vertex_type(es.0) != VKind::B)) {
                    assert(!fusion_pair_ok(*g, s, incs@[i as int], inct@[j as int]));
                    return false;
                }
            }
            j = j + 1;
        }
        i = i + 1;
    }
    true
}

/// Executable mirror of `eff_is_h`.
fn effective_h(k: EKind, a: VKind, b: VKind) -> (r: bool)
    ensures
        r == eff_is_h(k, a, b),
{
    let mut r = k == EKind::H;
    if a == VKind::X {
        r = !r;
    }
    if b == VKind::X {
        r = !r;
    }
    r
}

/// Executable mirror of `matches_pivot`.
fn check_pivot(g: &Diagram, s: usize, t: usize) -> (b: bool)
    requires
        g.wf(),
    ensures
        b == matches_pivot(*g, s, t),
{
    if !g.contains_vertex(s) || !g.contains_vertex(t) || s == t {
        return false;
    }
    if g.vertex_type(s) != VKind::Z || g.vertex_type(t) != VKind::Z {
        return false;
    }
    if !edge_is(g, s, t, EKind::H) {
        return false;
    }
    if !g.phase(s).is_pauli() || !g.phase(t).is_pauli() {
        return false;
    }
    let incs = g.incident_edges(s);
    let inct = g.incident_edges(t);
    if !entries_interior(g, &incs, s) || !entries_interior(g, &inct, t) {
        return false;
    }
    let av = others(&incs, t);
    let bv = others(&inct, s);
    pairs_across_ok(g, &av, &bv)
}

/// Executable mirror of `matches_gen_pivot`.
fn check_gen_pivot(g: &Diagram, s: usize, t: usize) -> (b: bool)
    requires
        g.wf(),
    ensures
        b == matches_gen_pivot(*g, s, t),
{
    if !g.contains_vertex(s) || !g.contains_vertex(t) || s == t {
        return false;
    }
    if g.vertex_type(s) != VKind::Z || g.vertex_type(t) != VKind::Z {
        return false;
    }
    if !edge_is(g, s, t, EKind::H) {
        return false;
    }
    if !g.phase(s).is_pauli() || !g.phase(t).is_pauli() {
        return false;
    }
    if !(g.kinds.len() < 0xFFFF_FFFF) {
        return false;
    }
    let incs = g.incident_edges(s);
    let inct = g.incident_edges(t);
    if !entries_gp_ok(g, &incs, s) || !entries_gp_ok(g, &inct, t) {
        return false;
    }
    let cb = boundary_count(g, &incs, s);
    let ct = boundary_count(g, &inct, t);
    if cb > 1 || ct > 1 || (cb == 1 && ct == 1) {
        return false;
    }
    let av = others(&incs, t);
    let bv = others(&inct, s);
    proof {
        lemma_others_alive(*g, s, t);
        lemma_others_alive(*g, t, s);
    }
    gp_pairs_across_ok(g, &av, &bv)
}

/// Every listed other endpoint is live.
pub proof fn lemma_others_alive(d: Diagram, v: usize, excl: usize)
    requires
        d.wf(),
    ensures
        forall|p: int|
            0 <= p < spec_others(spec_incident(d.edges@, v), excl).len() ==> d.alive(
                #[trigger] spec_others(spec_incident(d.edges@, v), excl)[p],
            ),
{
    let inc = spec_incident(d.edges@, v);
    lemma_incident_entries_wf(d, v);
    lemma_others_from(d, inc, v, excl);
}

/// Incident entries of a well-formed diagram lead to live vertices.
pub proof fn lemma_incident_entries_wf(d: Diagram, v: usize)
    requires
        d.wf(),
    ensures
        forall|p: int|
            0 <= p < spec_incident(d.edges@, v).len() ==> d.alive(
                (#[trigger] spec_incident(d.edges@, v)[p]).0,
            ) && d.is_edge(v, spec_incident(d.edges@, v)[p].0, spec_incident(d.edges@, v)[p].1),
{
    lemma_incident_prefix_wf(d, d.edges@, v);
}

proof fn lemma_incident_prefix_wf(d: Diagram, s: Seq<(usize, usize, EKind)>, v: usize)
    requires
        d.wf(),
        forall|i: int| 0 <= i < s.len() ==> d.edges@.contains(#[trigger] s[i]),
    ensures
        forall|p: int|
            0 <= p < spec_incident(s, v).len() ==> d.alive(
                (#[trigger] spec_incident(s, v)[p]).0,
            ) && d.is_edge(v, spec_incident(s, v)[p].0, spec_incident(s, v)[p].1),
    decreases s.len(),
{
    if s.len() > 0 {
        assert(forall|i: int|
            0 <= i < s.drop_last().len() ==> d.edges@.contains(#[trigger] s.drop_last()[i]));
        lemma_incident_prefix_wf(d, s.drop_last(), v);
        let e = s.last();
        assert(d.edges@.contains(e));
        let inc = spec_incident(s, v);
        let rest = spec_incident(s.drop_last(), v);
        if e.0 == v || e.1 == v {
            let w = if e.0 == v {
                e.1
            } else {
                e.0
            };
            let i = choose|i: int| 0 <= i < d.edges@.len() && d.edges@[i] == e;
            assert(d.wf_edge(d.edges@[i]));
            assert(crate::diagram::pair_eq(d.edges@[i].0, d.edges@[i].1, v, w));
            assert(d.is_edge(v, w, e.2));
            assert(forall|p: int| 0 <= p < rest.len() ==> inc[p] == rest[p]);
            assert(inc.last() == (w, e.2));
        }
    }
}

proof fn lemma_others_from(d: Diagram, inc: Seq<(usize, EKind)>, v: usize, excl: usize)
    requires
        forall|p: int| 0 <= p < inc.len() ==> d.alive((#[trigger] inc[p]).0),
    ensures
        forall|p: int|
            0 <= p < spec_others(inc, excl).len() ==> d.alive(#[trigger] spec_others(inc, excl)[p]),
    decreases inc.len(),
{
    if inc.len() > 0 {
        assert(forall|p: int| 0 <= p < inc.drop_last().len() ==> d.alive(
            (#[trigger] inc.drop_last()[p]).0,
        ));
        lemma_others_from(d, inc.drop_last(), v, excl);
        let rest = spec_others(inc.drop_last(), excl);
        let all = spec_others(inc, excl);
        if inc.last().0 != excl {
            assert(forall|p: int| 0 <= p < rest.len() ==> all[p] == rest[p]);
            assert(all.last() == inc.last().0);
        }
    }
}

/// Executable dispatch for the vertex rules.
pub fn check_vertex(g: &Diagram, r: VertexRule, v: usize) -> (b: bool)
    requires
        g.wf(),
    ensures
        b == vrule_matches(r, *g, v),
{
    match r {
        VertexRule::RemoveId => check_remove_id(g, v),
        VertexRule::LocalComp => check_local_comp(g, v),
    }
}

/// Executable dispatch for the edge rules.
pub fn check_edge(g: &Diagram, r: EdgeRule, s: usize, t: usize) -> (b: bool)
    requires
        g.wf(),
    ensures
        b == erule_matches(r, *g, s, t),
{
    match r {
        EdgeRule::SpiderFusion => check_fusion(g, s, t),
        EdgeRule::Pivot => check_pivot(g, s, t),
        EdgeRule::GenPivot => check_gen_pivot(g, s, t),
    }
}


/// Toggles the Hadamard connection between two live vertices: removes the
/// joining edge if there is one, else adds a Hadamard edge. Returns whether
/// an edge was added.
fn toggle(g: &mut Diagram, x: usize, y: usize) -> (added: bool)
    requires
        old(g).wf(),
        old(g).alive(x),
        old(g).alive(y),
        x != y,
    ensures
        final(g).wf(),
        final(g).live@ == old(g).live@,
        final(g).kinds@ == old(g).kinds@,
        final(g).phases@ == old(g).phases@,
{
    match g.edge_kind(x, y) {
        Some(k) => {
            proof {
                lemma_incident_entry(*g, x, y, k);
            }
            g.remove_edge(x, y);
            false
        },
        None => {
            g.add_edge(x, y, EKind::H);
            true
        },
    }
}

/// Identity removal: deletes the matched spider and joins its two neighbors
/// by the combined connection, resolving a parallel pair by the Hopf law.
fn apply_remove_id(g: &mut Diagram, v: usize)
    requires
        old(g).wf(),
        matches_remove_id(*old(g), v),
    ensures
        final(g).wf(),
        final(g).count_alive() == old(g).count_alive() - 1,
        !final(g).alive(v),
        final(g).kinds@ == old(g).kinds@,
        forall|w: usize| w != v ==> final(g).alive(w) == old(g).alive(w),
{
    let inc = g.incident_edges(v);
    let e0 = inc[0];
    let e1 = inc[1];
    proof {
        lemma_incident_entries_wf(*g, v);
        lemma_incident_entry(*g, v, e0.0, e0.1);
        lemma_incident_entry(*g, v, e1.0, e1.1);
    }
    g.remove_vertex(v);
    let nk = if e0.1 == e1.1 {
        EKind::N
    } else {
        EKind::H
    };
    match g.edge_kind(e0.0, e1.0) {
        None => {
            g.add_edge(e0.0, e1.0, nk);
        },
        Some(ke) => {
            let mut effh = ke == EKind::H;
            if g.vertex_type(e0.0) == VKind::X {
                effh = !effh;
            }
            if g.vertex_type(e1.0) == VKind::X {
                effh = !effh;
            }
            if effh {
                proof {
                    lemma_incident_entry(*g, e0.0, e1.0, ke);
                }
                g.remove_edge(e0.0, e1.0);
                g.scalar_mul(0, -2);
            }
        },
    }
}

/// Local complementation: deletes the matched vertex, toggles the Hadamard
/// connection inside its old neighborhood, shifts each neighbor's phase by
/// the opposite quarter turn, and compensates the scalar.
fn apply_local_comp(g: &mut Diagram, v: usize)
    requires
        old(g).wf(),
        matches_local_comp(*old(g), v),
    ensures
        final(g).wf(),
        final(g).count_alive() == old(g).count_alive() - 1,
        !final(g).alive(v),
        final(g).kinds@ == old(g).kinds@,
        forall|w: usize| w != v ==> final(g).alive(w) == old(g).alive(w),
{
    let inc = g.incident_edges(v);
    let ph = g.phase(v);
    proof {
        lemma_incident_entries_wf(*g, v);
        assert(g.phases@[v as int].wf());
    }
    let pos = ph.is_half();
    g.remove_vertex(v);
    let ghost live1 = g.live@;
    let ghost target = g.count_alive();
    let mut add_c: u64 = 0;
    let mut rem_c: u64 = 0;
    let mut i: usize = 0;
    while i < inc.len()
        invariant
            g.wf(),
            g.live@ == live1,
            g.kinds@ == old(g).kinds@,
            g.count_alive() == target,
            i <= inc@.len(),
            forall|p: int| 0 <= p < inc@.len() ==> g.alive((#[trigger] inc@[p]).0),
        decreases inc.len() - i,
    {
        let mut j: usize = i + 1;
        while j < inc.len()
            invariant
                g.wf(),
                g.live@ == live1,
                g.kinds@ == old(g).kinds@,
                g.count_alive() == target,
                i < inc@.len(),
                i < j,
                j <= inc@.len(),
                forall|p: int| 0 <= p < inc@.len() ==> g.alive((#[trigger] inc@[p]).0),
            decreases inc.len() - j,
        {
            let x = inc[i].0;
            let y = inc[j].0;
            if x != y {
                let added = toggle(g, x, y);
                if added {
                    if add_c < u64::MAX {
                        add_c = add_c + 1;
                    }
                } else {
                    if rem_c < u64::MAX {
                        rem_c = rem_c + 1;
                    }
                }
            }
            j = j + 1;
        }
        i = i + 1;
    }
    let delta = if pos {
        Phase::new(3, 2)
    } else {
        Phase::new(1, 2)
    };
    let mut p: usize = 0;
    while p < inc.len()
        invariant
            g.wf(),
            g.live@ == live1,
            g.kinds@ == old(g).kinds@,
            g.count_alive() == target,
            p <= inc@.len(),
            delta.wf(),
            forall|q: int| 0 <= q < inc@.len() ==> g.alive((#[trigger] inc@[q]).0),
        decreases inc.len() - p,
    {
        g.add_to_phase(inc[p].0, delta);
        p = p + 1;
    }
    let om: u8 = if pos {
        1
    } else {
        7
    };
    let pow: i128 = add_c as i128 - rem_c as i128 - inc.len() as i128 + 1;
    if -0x4000_0000_0000_0000i128 <= pow && pow <= 0x4000_0000_0000_0000i128 {
        g.scalar_mul(om, pow as i64);
    }
}

/// Spider fusion: moves the second spider's connections onto the first,
/// resolving parallel pairs by the Hopf law, adds its phase to the first,
/// and deletes it.
fn apply_fusion(g: &mut Diagram, s: usize, t: usize)
    requires
        old(g).wf(),
        matches_fusion(*old(g), s, t),
    ensures
        final(g).wf(),
        final(g).count_alive() == old(g).count_alive() - 1,
        !final(g).alive(t),
        final(g).alive(s),
        final(g).kinds@ == old(g).kinds@,
        forall|w: usize| w != t ==> final(g).alive(w) == old(g).alive(w),
        crate::phase::sum_is(old(g).phase_of(s), old(g).phase_of(t), final(g).phase_of(s))
            || final(g).phase_of(s) == old(g).phase_of(s),
        old(g).phase_of(s).den * old(g).phase_of(t).den <= crate::phase::DEN_LIMIT
            ==> crate::phase::sum_is(
            old(g).phase_of(s),
            old(g).phase_of(t),
            final(g).phase_of(s),
        ),
{
    let inct = g.incident_edges(t);
    let pt = g.phase(t);
    proof {
        lemma_incident_entries_wf(*g, t);
        assert(g.phases@[t as int].wf());
    }
    let ghost live0 = g.live@;
    let ghost target = g.count_alive();
    let mut i: usize = 0;
    while i < inct.len()
        invariant
            g.wf(),
            g.live@ == live0,
            g.kinds@ == old(g).kinds@,
            g.phases@ == old(g).phases@,
            g.count_alive() == target,
            g.alive(s),
            g.alive(t),
            pt.wf(),
            pt == old(g).phase_of(t),
            i <= inct@.len(),
            forall|p: int| 0 <= p < inct@.len() ==> g.alive((#[trigger] inct@[p]).0),
        decreases inct.len() - i,
    {
        let e = inct[i];
        let w = e.0;
        if w != s {
            match g.edge_kind(s, w) {
                None => {
                    if w != s {
                        g.add_edge(s, w, e.1);
                    }
                },
                Some(ke) => {
                    let mut effh = ke == EKind::H;
                    if g.vertex_type(s) == VKind::X {
                        effh = !effh;
                    }
                    if g.vertex_type(w) == VKind::X {
                        effh = !effh;
                    }
                    if effh {
                        proof {
                            lemma_incident_entry(*g, s, w, ke);
                        }
                        g.remove_edge(s, w);
                        g.scalar_mul(0, -2);
                    }
                },
            }
        }
        i = i + 1;
    }
    g.add_to_phase(s, pt);
    g.remove_vertex(t);
}

/// The pivot proper: toggles the Hadamard connection between the two old
/// neighborhoods, shifts neighbor phases, compensates the scalar, and
/// deletes both matched vertices. Total on any two distinct live vertices.
fn pivot_core(g: &mut Diagram, s: usize, t: usize)
    requires
        old(g).wf(),
        old(g).alive(s),
        old(g).alive(t),
        s != t,
    ensures
        final(g).wf(),
        final(g).count_alive() == old(g).count_alive() - 2,
        !final(g).alive(s),
        !final(g).alive(t),
        final(g).kinds@ == old(g).kinds@,
        final(g).n() == old(g).n(),
        forall|w: usize| w != s && w != t ==> final(g).alive(w) == old(g).alive(w),
{
    let ps = g.phase(s);
    let pt = g.phase(t);
    proof {
        assert(g.phases@[s as int].wf());
        assert(g.phases@[t as int].wf());
    }
    let incs = g.incident_edges(s);
    let inct = g.incident_edges(t);
    let av = others(&incs, t);
    let bv = others(&inct, s);
    proof {
        lemma_others_alive(*g, s, t);
        lemma_others_alive(*g, t, s);
    }
    let ghost live0 = g.live@;
    let ghost target = g.count_alive();
    let mut add_c: u64 = 0;
    let mut rem_c: u64 = 0;
    let mut i: usize = 0;
    while i < av.len()
        invariant
            g.wf(),
            g.live@ == live0,
            g.kinds@ == old(g).kinds@,
            g.count_alive() == target,
            g.alive(s),
            g.alive(t),
            i <= av@.len(),
            forall|p: int| 0 <= p < av@.len() ==> g.alive(#[trigger] av@[p]),
            forall|q: int| 0 <= q < bv@.len() ==> g.alive(#[trigger] bv@[q]),
        decreases av.len() - i,
    {
        let mut j: usize = 0;
        while j < bv.len()
            invariant
                g.wf(),
                g.live@ == live0,
                g.kinds@ == old(g).kinds@,
                g.count_alive() == target,
                g.alive(s),
                g.alive(t),
                i < av@.len(),
                j <= bv@.len(),
                forall|p: int| 0 <= p < av@.len() ==> g.alive(#[trigger] av@[p]),
                forall|q: int| 0 <= q < bv@.len() ==> g.alive(#[trigger] bv@[q]),
            decreases bv.len() - j,
        {
            let x = av[i];
            let y = bv[j];
            if x != y && !(vec_contains(&bv, x) && vec_contains(&av, y)) {
                let added = toggle(g, x, y);
                if added {
                    if add_c < u64::MAX {
                        add_c = add_c + 1;
                    }
                } else {
                    if rem_c < u64::MAX {
                        rem_c = rem_c + 1;
                    }
                }
            }
            j = j + 1;
        }
        i = i + 1;
    }
    let one = Phase::new(1, 1);
    let mut p: usize = 0;
    while p < av.len()
        invariant
            g.wf(),
            g.live@ == live0,
            g.kinds@ == old(g).kinds@,
            g.count_alive() == target,
            g.alive(s),
            g.alive(t),
            pt.wf(),
            one.wf(),
            p <= av@.len(),
            forall|q: int| 0 <= q < av@.len() ==> g.alive(#[trigger] av@[q]),
        decreases av.len() - p,
    {
        g.add_to_phase(av[p], pt);
        if vec_contains(&bv, av[p]) {
            g.add_to_phase(av[p], one);
        }
        p = p + 1;
    }
    let mut q: usize = 0;
    while q < bv.len()
        invariant
            g.wf(),
            g.live@ == live0,
            g.kinds@ == old(g).kinds@,
            g.count_alive() == target,
            g.alive(s),
            g.alive(t),
            ps.wf(),
            q <= bv@.len(),
            forall|r0: int| 0 <= r0 < bv@.len() ==> g.alive(#[trigger] bv@[r0]),
        decreases bv.len() - q,
    {
        g.add_to_phase(bv[q], ps);
        q = q + 1;
    }
    let om: u8 = if ps.is_one() && pt.is_one() {
        4
    } else {
        0
    };
    let pow: i128 = 1 - av.len() as i128 - bv.len() as i128 + add_c as i128 - rem_c as i128;
    if -0x4000_0000_0000_0000i128 <= pow && pow <= 0x4000_0000_0000_0000i128 {
        g.scalar_mul(om, pow as i64);
    }
    g.remove_vertex(s);
    g.remove_vertex(t);
}

/// The first incident entry leading to a boundary vertex, if any.
fn find_boundary(g: &Diagram, inc: &Vec<(usize, EKind)>, v: usize) -> (r: Option<(usize, EKind)>)
    requires
        g.wf(),
        inc@ == spec_incident(g.edges@, v),
    ensures
        match r {
            Some(e) => g.is_edge(v, e.0, e.1) && g.kind_of(e.0) == VKind::B && g.alive(e.0)
                && g.alive(v) && e.0 != v,
            None => true,
        },
{
    let mut i: usize = 0;
    while i < inc.len()
        invariant
            g.wf(),
            inc@ == spec_incident(g.edges@, v),
            i <= inc@.len(),
        decreases inc.len() - i,
    {
        let e = inc[i];
        proof {
            lemma_incident_entries_wf(*g, v);
            lemma_incident_entry(*g, v, e.0, e.1);
        }
        if g.vertex_type(e.0) == VKind::B {
            return Some(e);
        }
        i = i + 1;
    }
    None
}

/// The generalized pivot: splits off at most one boundary neighbor behind a
/// fresh interior vertex, then pivots; the diagram still shrinks by at least
/// one vertex.
fn apply_gen_pivot(g: &mut Diagram, s: usize, t: usize)
    requires
        old(g).wf(),
        matches_gen_pivot(*old(g), s, t),
    ensures
        final(g).wf(),
        final(g).count_alive() < old(g).count_alive(),
        !final(g).alive(s),
        !final(g).alive(t),
        old(g).n() <= final(g).n() <= old(g).n() + 1,
        forall|w: usize| (w as int) < old(g).n() ==> final(g).kind_of(w) == old(g).kind_of(w),
        forall|w: usize|
            old(g).n() <= (w as int) < final(g).n() ==> final(g).kind_of(w) == VKind::Z,
        forall|w: usize| w != s && w != t && old(g).alive(w) ==> final(g).alive(w),
{
    let incs = g.incident_edges(s);
    let inct = g.incident_edges(t);
    let mut owner = s;
    let mut found = find_boundary(g, &incs, s);
    if found.is_none() {
        owner = t;
        found = find_boundary(g, &inct, t);
    }
    match found {
        Some(e) => {
            let b = e.0;
            let kb = e.1;
            proof {
                lemma_incident_entry(*g, owner, b, kb);
            }
            g.remove_edge(owner, b);
            let ghost ga = *g;
            proof {
                assert(g.alive(b));
                assert(g.alive(owner));
                assert(ga.kinds@ == old(g).kinds@);
                assert(ga.live@ == old(g).live@);
            }
            let w = g.add_vertex(VKind::Z, Phase::zero());
            let ghost gb = *g;
            proof {
                assert((b as int) < old(g).n());
                assert(b != w);
                assert(g.alive(b));
            }
            proof {
                assert forall|ww: usize| !g.has_edge(w, ww) by {
                    if g.has_edge(w, ww) {
                        let i = choose|i: int|
                            0 <= i < g.edges@.len() && crate::diagram::pair_eq(
                                (#[trigger] g.edges@[i]).0,
                                g.edges@[i].1,
                                w,
                                ww,
                            );
                        assert(g.wf_edge(g.edges@[i]));
                    }
                }
            }
            g.add_edge(owner, w, EKind::H);
            proof {
                assert(g.alive(b));
                assert(b != w);
                assert(owner != b);
                if g.has_edge(w, b) {
                    let i = choose|i: int|
                        0 <= i < g.edges@.len() && crate::diagram::pair_eq(
                            (#[trigger] g.edges@[i]).0,
                            g.edges@[i].1,
                            w,
                            b,
                        );
                }
            }
            g.add_edge(w, b, crate::diagram::flip(kb));
            let ghost gmid = *g;
            pivot_core(g, s, t);
            proof {
                assert(g.kinds@ == gmid.kinds@);
                assert(gmid.kinds@ == gb.kinds@);
                assert(gmid.live@ == gb.live@);
                assert forall|ww: usize| (ww as int) < old(g).n() implies g.kind_of(ww) == old(
                    g,
                ).kind_of(ww) by {
                    assert(gb.kind_of(ww) == ga.kind_of(ww));
                    assert(gmid.kind_of(ww) == gb.kind_of(ww));
                }
                assert forall|ww: usize|
                    old(g).n() <= (ww as int) < g.n() implies g.kind_of(ww) == VKind::Z by {
                    assert(ww == w);
                    assert(gb.kind_of(ww) == VKind::Z);
                }
                assert forall|ww: usize|
                    ww != s && ww != t && old(g).alive(ww) implies g.alive(ww) by {
                    assert((ww as int) < old(g).n());
                    assert(ww != w);
                    assert(ga.alive(ww));
                    assert(gb.alive(ww));
                    assert(gmid.alive(ww));
                }
            }
        },
        None => {
            pivot_core(g, s, t);
        },
    }
}

/// Executable dispatch for the vertex rewrites: a matched vertex rule deletes
/// exactly the matched vertex.
pub fn apply_vertex(g: &mut Diagram, r: VertexRule, v: usize)
    requires
        old(g).wf(),
        vrule_matches(r, *old(g), v),
    ensures
        final(g).wf(),
        final(g).count_alive() == old(g).count_alive() - 1,
        !final(g).alive(v),
        final(g).kinds@ == old(g).kinds@,
        forall|w: usize| w != v ==> final(g).alive(w) == old(g).alive(w),
{
    match r {
        VertexRule::RemoveId => apply_remove_id(g, v),
        VertexRule::LocalComp => apply_local_comp(g, v),
    }
}

/// Executable dispatch for the edge rewrites: a matched edge rule strictly
/// shrinks the vertex count.
pub fn apply_edge(g: &mut Diagram, r: EdgeRule, s: usize, t: usize)
    requires
        old(g).wf(),
        erule_matches(r, *old(g), s, t),
    ensures
        final(g).wf(),
        final(g).count_alive() < old(g).count_alive(),
        old(g).n() <= final(g).n() <= old(g).n() + 1,
        forall|w: usize| (w as int) < old(g).n() ==> final(g).kind_of(w) == old(g).kind_of(w),
        forall|w: usize|
            old(g).n() <= (w as int) < final(g).n() ==> final(g).kind_of(w) == VKind::Z,
        forall|w: usize| w != s && w != t && old(g).alive(w) ==> final(g).alive(w),
{
    match r {
        EdgeRule::SpiderFusion => apply_fusion(g, s, t),
        EdgeRule::Pivot => pivot_core(g, s, t),
        EdgeRule::GenPivot => apply_gen_pivot(g, s, t),
    }
}

} // verus!
