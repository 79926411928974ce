//! The rewriting engine: generic single-vertex and single-edge rewrite
//! drivers that scan snapshots to a round-level fixpoint, the named
//! simplification passes, and the composite fixpoint strategies.
//!
//! Every rewrite of the rule library strictly shrinks the vertex count, so
//! every driver and strategy here terminates, never grows the diagram, and
//! leaves no match of the rules it drove behind (`force_reduce` excepted).

use vstd::prelude::*;

verus! {

use crate::diagram::{lemma_count_live_bounds, spec_incident, Diagram, EKind, VKind};
use crate::rules::{
    apply_edge, apply_vertex, check_edge, check_vertex, erule_matches, matches_local_comp,
    matches_remove_id, vrule_matches, EdgeRule, VertexRule,
};

/// Some edge of kind `k` in `d` matches the edge rule at its endpoints.
pub open spec fn edge_match_exists(r: EdgeRule, k: EKind, d: Diagram) -> bool {
    exists|i: int|
        0 <= i < d.edges@.len() && (#[trigger] d.edges@[i]).2 == k && erule_matches(
            r,
            d,
            d.edges@[i].0,
            d.edges@[i].1,
        )
}

/// No slot of the arena holds an X-spider (the canonical form
/// `interior_clifford_simp` establishes).
pub open spec fn x_free(d: Diagram) -> bool {
    forall|w: usize| (w as int) < d.kinds@.len() ==> d.kind_of(w) != VKind::X
}

/// None of the four interior rules matches anywhere.
pub open spec fn interior_rules_saturated(d: Diagram) -> bool {
    &&& forall|v: usize| !vrule_matches(VertexRule::RemoveId, d, v)
    &&& forall|v: usize| !vrule_matches(VertexRule::LocalComp, d, v)
    &&& !edge_match_exists(EdgeRule::SpiderFusion, EKind::N, d)
    &&& !edge_match_exists(EdgeRule::Pivot, EKind::H, d)
}

/// None of the five rewrite rules matches anywhere.
pub open spec fn clifford_rules_saturated(d: Diagram) -> bool {
    interior_rules_saturated(d) && !edge_match_exists(EdgeRule::GenPivot, EKind::H, d)
}

/// Repeatedly applies the vertex rule at every vertex of a snapshot that
/// still matches, in rounds, until a round finds no match; with
/// `force_reduce` it stops after any round that fails to strictly shrink the
/// vertex count. Returns whether any match was found, which is exactly
/// whether the rule matched anywhere in the diagram as given.
pub fn vertex_simp(g: &mut Diagram, rule: VertexRule, force_reduce: bool) -> (got: bool)
    requires
        old(g).wf(),
    ensures
        final(g).wf(),
        final(g).count_alive() <= old(g).count_alive(),
        got == exists|v: usize| vrule_matches(rule, *old(g), v),
        got ==> final(g).count_alive() < old(g).count_alive(),
        !got ==> *final(g) == *old(g),
        !force_reduce ==> forall|v: usize| !vrule_matches(rule, *final(g), v),
        x_free(*old(g)) ==> x_free(*final(g)),
{
    let mut got = false;
    let mut new_matches = true;
    while new_matches
        invariant
            g.wf(),
            g.count_alive() <= old(g).count_alive(),
            got ==> g.count_alive() < old(g).count_alive(),
            got ==> exists|v: usize| vrule_matches(rule, *old(g), v),
            !got ==> *g == *old(g),
            x_free(*old(g)) ==> x_free(*g),
            !new_matches && !force_reduce ==> forall|v: usize| !vrule_matches(rule, *g, v),
            !new_matches && !got ==> forall|v: usize| !vrule_matches(rule, *g, v),
        decreases g.count_alive() * 2 + (if new_matches { 1int } else { 0int }),
    {
        proof {
            lemma_count_live_bounds(g.live@);
        }
        let numv = g.num_vertices();
        let snapshot = g.vertex_vec();
        let ghost g0 = *g;
        let mut round_matched = false;
        let mut i: usize = 0;
        while i < snapshot.len()
            invariant
                g.wf(),
                g0.wf(),
                g.count_alive() <= g0.count_alive(),
                g0.count_alive() <= old(g).count_alive(),
                round_matched ==> g.count_alive() < g0.count_alive(),
                round_matched ==> got,
                !round_matched ==> *g == g0,
                !round_matched ==> forall|j: int|
                    0 <= j < i ==> !vrule_matches(rule, g0, #[trigger] snapshot@[j]),
                got || round_matched ==> exists|v: usize| vrule_matches(rule, *old(g), v),
                !got && !round_matched ==> *g == *old(g),
                !got ==> g0 == *old(g),
                got ==> g.count_alive() < old(g).count_alive(),
                x_free(*old(g)) ==> x_free(*g),
                forall|p: int| 0 <= p < snapshot@.len() ==> g0.alive(#[trigger] snapshot@[p]),
                forall|v: usize| g0.alive(v) ==> snapshot@.contains(v),
                i <= snapshot@.len(),
            decreases snapshot@.len() - i,
        {
            let v = snapshot[i];
            if check_vertex(g, rule, v) {
                let ghost gprev = *g;
                apply_vertex(g, rule, v);
                proof {
                    if x_free(gprev) {
                        assert(g.kinds@ == gprev.kinds@);
                        assert forall|w: usize|
                            (w as int) < g.kinds@.len() implies g.kind_of(w) != VKind::X by {
                            assert(gprev.kind_of(w) != VKind::X);
                        }
                    }
                }
                round_matched = true;
                got = true;
            }
            i = i + 1;
        }
        proof {
            if !round_matched {
                assert forall|v: usize| !vrule_matches(rule, *g, v) by {
                    if vrule_matches(rule, *g, v) {
                        assert(g0.alive(v)) by {
                            match rule {
                                VertexRule::RemoveId => {
                                    assert(matches_remove_id(g0, v));
                                },
                                VertexRule::LocalComp => {
                                    assert(matches_local_comp(g0, v));
                                },
                            }
                        }
                        assert(snapshot@.contains(v));
                        let j = choose|j: int| 0 <= j < snapshot@.len() && snapshot@[j] == v;
                        assert(!vrule_matches(rule, g0, snapshot@[j]));
                    }
                }
            }
        }
        new_matches = round_matched;
        if force_reduce && g.num_vertices() >= numv {
            new_matches = false;
        }
        proof {
            lemma_count_live_bounds(g.live@);
        }
    }
    proof {
        if !got {
            assert(forall|v: usize| !vrule_matches(rule, *old(g), v));
        }
    }
    got
}

/// Repeatedly applies the edge rule at every snapshotted edge of the given
/// kind whose endpoints still exist and which still matches, in rounds, to
/// the same round-level fixpoint as `vertex_simp`.
pub fn edge_simp(g: &mut Diagram, edge_type: EKind, rule: EdgeRule, force_reduce: bool) -> (got:
    bool)
    requires
        old(g).wf(),
    ensures
        final(g).wf(),
        final(g).count_alive() <= old(g).count_alive(),
        got == edge_match_exists(rule, edge_type, *old(g)),
        got ==> final(g).count_alive() < old(g).count_alive(),
        !got ==> *final(g) == *old(g),
        !force_reduce ==> !edge_match_exists(rule, edge_type, *final(g)),
        x_free(*old(g)) ==> x_free(*final(g)),
{
    let mut got = false;
    let mut new_matches = true;
    while new_matches
        invariant
            g.wf(),
            g.count_alive() <= old(g).count_alive(),
            got ==> g.count_alive() < old(g).count_alive(),
            got ==> edge_match_exists(rule, edge_type, *old(g)),
            !got ==> *g == *old(g),
            x_free(*old(g)) ==> x_free(*g),
            !new_matches && !force_reduce ==> !edge_match_exists(rule, edge_type, *g),
            !new_matches && !got ==> !edge_match_exists(rule, edge_type, *g),
        decreases g.count_alive() * 2 + (if new_matches { 1int } else { 0int }),
    {
        proof {
            lemma_count_live_bounds(g.live@);
        }
        let numv = g.num_vertices();
        let snapshot = g.edge_vec();
        let ghost g0 = *g;
        let mut round_matched = false;
        let mut i: usize = 0;
        while i < snapshot.len()
            invariant
                g.wf(),
                g0.wf(),
                g.count_alive() <= g0.count_alive(),
                g0.count_alive() <= old(g).count_alive(),
                round_matched ==> g.count_alive() < g0.count_alive(),
                round_matched ==> got,
                !round_matched ==> *g == g0,
                !round_matched ==> forall|j: int|
                    0 <= j < i ==> !((#[trigger] snapshot@[j]).2 == edge_type && erule_matches(
                        rule,
                        g0,
                        snapshot@[j].0,
                        snapshot@[j].1,
                    )),
                got || round_matched ==> edge_match_exists(rule, edge_type, *old(g)),
                !got && !round_matched ==> *g == *old(g),
                !got ==> g0 == *old(g),
                got ==> g.count_alive() < old(g).count_alive(),
                x_free(*old(g)) ==> x_free(*g),
                snapshot@ == g0.edges@,
                i <= snapshot@.len(),
            decreases snapshot@.len() - i,
        {
            let e = snapshot[i];
            if e.2 == edge_type && g.contains_vertex(e.0) && g.contains_vertex(e.1)
                && check_edge(g, rule, e.0, e.1) {
                let ghost gprev = *g;
                apply_edge(g, rule, e.0, e.1);
                proof {
                    if x_free(gprev) {
                        assert forall|w: usize|
                            (w as int) < g.kinds@.len() implies g.kind_of(w) != VKind::X by {
                            if (w as int) < gprev.n() {
                                assert(g.kind_of(w) == gprev.kind_of(w));
                            } else {
                                assert(g.kind_of(w) == VKind::Z);
                            }
                        }
                    }
                }
                round_matched = true;
                got = true;
            } else {
                proof {
                    if !round_matched && e.2 == edge_type {
                        assert(*g == g0);
                        assert(g0.wf_edge(g0.edges@[i as int]));
                    }
                }
            }
            i = i + 1;
        }
        proof {
            if !round_matched {
                assert(!edge_match_exists(rule, edge_type, *g)) by {
                    if edge_match_exists(rule, edge_type, *g) {
                        let j = choose|j: int|
                            0 <= j < g.edges@.len() && (#[trigger] g.edges@[j]).2 == edge_type
                                && erule_matches(rule, *g, g.edges@[j].0, g.edges@[j].1);
                        assert(snapshot@[j] == g0.edges@[j]);
                    }
                }
            }
        }
        new_matches = round_matched;
        if force_reduce && g.num_vertices() >= numv {
            new_matches = false;
        }
        proof {
            lemma_count_live_bounds(g.live@);
        }
    }
    got
}

/// Identity removal to a fixpoint.
pub fn id_simp(g: &mut Diagram) -> (m: bool)
    requires
        old(g).wf(),
    ensures
        final(g).wf(),
        final(g).count_alive() <= old(g).count_alive(),
        m == exists|v: usize| vrule_matches(VertexRule::RemoveId, *old(g), v),
        m ==> final(g).count_alive() < old(g).count_alive(),
        !m ==> *final(g) == *old(g),
        forall|v: usize| !vrule_matches(VertexRule::RemoveId, *final(g), v),
        x_free(*old(g)) ==> x_free(*final(g)),
{
    vertex_simp(g, VertexRule::RemoveId, false)
}

/// Local complementation to a fixpoint.
pub fn local_comp_simp(g: &mut Diagram) -> (m: bool)
    requires
        old(g).wf(),
    ensures
        final(g).wf(),
        final(g).count_alive() <= old(g).count_alive(),
        m == exists|v: usize| vrule_matches(VertexRule::LocalComp, *old(g), v),
        m ==> final(g).count_alive() < old(g).count_alive(),
        !m ==> *final(g) == *old(g),
        forall|v: usize| !vrule_matches(VertexRule::LocalComp, *final(g), v),
        x_free(*old(g)) ==> x_free(*final(g)),
{
    vertex_simp(g, VertexRule::LocalComp, false)
}

/// Spider fusion over plain edges to a fixpoint.
pub fn spider_simp(g: &mut Diagram) -> (m: bool)
    requires
        old(g).wf(),
    ensures
        final(g).wf(),
        final(g).count_alive() <= old(g).count_alive(),
        m == edge_match_exists(EdgeRule::SpiderFusion, EKind::N, *old(g)),
        m ==> final(g).count_alive() < old(g).count_alive(),
        !m ==> *final(g) == *old(g),
        !edge_match_exists(EdgeRule::SpiderFusion, EKind::N, *final(g)),
        x_free(*old(g)) ==> x_free(*final(g)),
{
    edge_simp(g, EKind::N, EdgeRule::SpiderFusion, false)
}

/// Pivoting over Hadamard edges to a fixpoint.
pub fn pivot_simp(g: &mut Diagram) -> (m: bool)
    requires
        old(g).wf(),
    ensures
        final(g).wf(),
        final(g).count_alive() <= old(g).count_alive(),
        m == edge_match_exists(EdgeRule::Pivot, EKind::H, *old(g)),
        m ==> final(g).count_alive() < old(g).count_alive(),
        !m ==> *final(g) == *old(g),
        !edge_match_exists(EdgeRule::Pivot, EKind::H, *final(g)),
        x_free(*old(g)) ==> x_free(*final(g)),
{
    edge_simp(g, EKind::H, EdgeRule::Pivot, false)
}

/// Generalized pivoting over Hadamard edges to a fixpoint.
pub fn gen_pivot_simp(g: &mut Diagram) -> (m: bool)
    requires
        old(g).wf(),
    ensures
        final(g).wf(),
        final(g).count_alive() <= old(g).count_alive(),
        m == edge_match_exists(EdgeRule::GenPivot, EKind::H, *old(g)),
        m ==> final(g).count_alive() < old(g).count_alive(),
        !m ==> *final(g) == *old(g),
        !edge_match_exists(EdgeRule::GenPivot, EKind::H, *final(g)),
        x_free(*old(g)) ==> x_free(*final(g)),
{
    edge_simp(g, EKind::H, EdgeRule::GenPivot, false)
}

/// Fuses spiders once, converts X-spiders to Z-spiders, then interleaves
/// identity removal, spider fusion, pivoting and local complementation to a
/// combined fixpoint. Returns whether the combined loop made progress; the
/// initial canonicalizing fusion sweep does not count as progress.
pub fn interior_clifford_simp(g: &mut Diagram) -> (m: bool)
    requires
        old(g).wf(),
    ensures
        final(g).wf(),
        final(g).count_alive() <= old(g).count_alive(),
        m ==> final(g).count_alive() < old(g).count_alive(),
        interior_rules_saturated(*final(g)),
        x_free(*final(g)),
        interior_rules_saturated(*old(g)) && x_free(*old(g)) ==> !m && *final(g) == *old(g),
{
    let ghost hyp = interior_rules_saturated(*old(g)) && x_free(*old(g));
    spider_simp(g);
    g.x_to_z();
    let ghost gpre = *g;
    proof {
        if hyp {
            assert(*g == *old(g));
        }
        assert(x_free(gpre));
    }
    let mut got = false;
    let mut m = true;
    while m
        invariant
            g.wf(),
            g.count_alive() <= old(g).count_alive(),
            got ==> g.count_alive() < old(g).count_alive(),
            x_free(*g),
            gpre.wf(),
            !got ==> *g == gpre,
            got ==> !interior_rules_saturated(gpre),
            hyp == (interior_rules_saturated(*old(g)) && x_free(*old(g))),
            hyp ==> gpre == *old(g),
            !m ==> interior_rules_saturated(*g),
        decreases g.count_alive() * 2 + (if m { 1int } else { 0int }),
    {
        proof {
            lemma_count_live_bounds(g.live@);
        }
        let ghost gat = *g;
        let mut mm = id_simp(g);
        if !mm {
            mm = spider_simp(g);
        }
        if !mm {
            mm = pivot_simp(g);
        }
        if !mm {
            mm = local_comp_simp(g);
        }
        proof {
            if mm && !got {
                assert(gat == gpre);
                assert(!interior_rules_saturated(gpre));
            }
        }
        m = mm;
        if m {
            got = true;
        }
        proof {
            lemma_count_live_bounds(g.live@);
        }
    }
    proof {
        if hyp {
            assert(!got);
            assert(*g == *old(g));
        }
    }
    got
}

/// Alternates full interior simplification with one generalized-pivot sweep
/// until neither contributes.
pub fn clifford_simp(g: &mut Diagram) -> (m: bool)
    requires
        old(g).wf(),
    ensures
        final(g).wf(),
        final(g).count_alive() <= old(g).count_alive(),
        m ==> final(g).count_alive() < old(g).count_alive(),
        clifford_rules_saturated(*final(g)),
        x_free(*final(g)),
        clifford_rules_saturated(*old(g)) && x_free(*old(g)) ==> !m && *final(g) == *old(g),
{
    let ghost hyp = clifford_rules_saturated(*old(g)) && x_free(*old(g));
    let mut got = false;
    let mut m = true;
    while m
        invariant
            g.wf(),
            g.count_alive() <= old(g).count_alive(),
            got ==> g.count_alive() < old(g).count_alive(),
            hyp == (clifford_rules_saturated(*old(g)) && x_free(*old(g))),
            hyp ==> *g == *old(g) && !got,
            !m ==> clifford_rules_saturated(*g),
            !m ==> x_free(*g),
        decreases g.count_alive() * 2 + (if m { 1int } else { 0int }),
    {
        proof {
            lemma_count_live_bounds(g.live@);
        }
        let mut mm = interior_clifford_simp(g);
        if !mm {
            mm = gen_pivot_simp(g);
        }
        m = mm;
        if m {
            got = true;
        }
        proof {
            lemma_count_live_bounds(g.live@);
        }
    }
    got
}

/// A phase gadget's leaf: a live zero-phase Z-vertex of degree one.
pub open spec fn is_gadget_leaf(d: Diagram, v: usize) -> bool {
    &&& d.alive(v)
    &&& d.kind_of(v) == VKind::Z
    &&& d.phase_of(v).spec_is_zero()
    &&& spec_incident(d.edges@, v).len() == 1
}

/// The leaf's hub: its sole neighbor.
pub open spec fn gadget_hub(d: Diagram, v: usize) -> usize {
    spec_incident(d.edges@, v)[0].0
}

/// The gadget's signature: the hub's other Z-neighbors over Hadamard edges.
pub open spec fn gadget_sig(d: Diagram, v: usize) -> Set<usize> {
    Set::new(
        |w: usize|
            w != v && d.is_edge(gadget_hub(d, v), w, EKind::H) && d.kind_of(w) == VKind::Z,
    )
}

/// Two distinct gadget leaves share a signature.
pub open spec fn has_dup_gadgets(d: Diagram) -> bool {
    exists|v1: usize, v2: usize|
        v1 != v2 && is_gadget_leaf(d, v1) && is_gadget_leaf(d, v2) && gadget_sig(d, v1)
            == gadget_sig(d, v2)
}

/// A vertex that belongs to some phase gadget: a leaf, or the hub of one.
pub open spec fn is_gadget_member(d: Diagram, w: usize) -> bool {
    is_gadget_leaf(d, w) || exists|v: usize| is_gadget_leaf(d, v) && w == #[trigger] gadget_hub(d, v)
}

/// Two signatures hold the same handles.
fn sig_eq(a: &Vec<usize>, b: &Vec<usize>) -> (r: bool)
    ensures
        r == (a@.to_set() == b@.to_set()),
{
    let mut i: usize = 0;
    while i < a.len()
        invariant
            i <= a@.len(),
            forall|p: int| 0 <= p < i ==> b@.contains(#[trigger] a@[p]),
        decreases a.len() - i,
    {
        if !vec_has(b, a[i]) {
            proof {
                assert(a@.to_set().contains(a@[i as int]));
                assert(!b@.to_set().contains(a@[i as int]));
            }
            return false;
        }
        i = i + 1;
    }
    let mut j: usize = 0;
    while j < b.len()
        invariant
            j <= b@.len(),
            forall|p: int| 0 <= p < a@.len() ==> b@.contains(#[trigger] a@[p]),
            forall|q: int| 0 <= q < j ==> a@.contains(#[trigger] b@[q]),
        decreases b.len() - j,
    {
        if !vec_has(a, b[j]) {
            proof {
                assert(b@.to_set().contains(b@[j as int]));
                assert(!a@.to_set().contains(b@[j as int]));
            }
            return false;
        }
        j = j + 1;
    }
    proof {
        assert forall|x: usize| a@.to_set().contains(x) implies b@.to_set().contains(x) by {
            let p = choose|p: int| 0 <= p < a@.len() && a@[p] == x;
            assert(b@.contains(a@[p]));
        }
        assert forall|x: usize| b@.to_set().contains(x) implies a@.to_set().contains(x) by {
            let q = choose|q: int| 0 <= q < b@.len() && b@[q] == x;
            assert(a@.contains(b@[q]));
        }
        assert(a@.to_set() =~= b@.to_set());
    }
    true
}

/// Linear scan of a handle list.
fn vec_has(v: &Vec<usize>, x: usize) -> (b: bool)
    ensures
        b == v@.contains(x),
{
    let mut i: usize = 0;
    while i < v.len()
        invariant
            i <= v@.len(),
            forall|p: int| 0 <= p < i ==> v@[p] != x,
        decreases v.len() - i,
    {
        if v[i] == x {
            return true;
        }
        i = i + 1;
    }
    false
}


/// State reachable from `d0` by gadget fusion steps: kinds, array lengths and
/// the scalar are untouched, only gadget members have died, non-leaf phases
/// are untouched, surviving leaves are still phaseless, and the edges are
/// exactly the old edges between surviving vertices.
pub open spec fn preserved_by_fusion(d0: Diagram, d: Diagram) -> bool {
    &&& d.kinds@ == d0.kinds@
    &&& d.phases@.len() == d0.phases@.len()
    &&& d.live@.len() == d0.live@.len()
    &&& d.s_omega == d0.s_omega && d.s_pow == d0.s_pow
    &&& forall|w: usize| d.alive(w) ==> d0.alive(w)
    &&& forall|w: usize| d0.alive(w) && !d.alive(w) ==> is_gadget_member(d0, w)
    &&& forall|w: usize|
        (w as int) < d0.phases@.len() && !is_gadget_leaf(d0, w) ==> d.phase_of(w) == d0.phase_of(w)
    &&& forall|a2: usize, b2: usize, k2: EKind| d.is_edge(a2, b2, k2) ==> d0.is_edge(a2, b2, k2)
    &&& forall|a2: usize, b2: usize, k2: EKind|
        d0.is_edge(a2, b2, k2) && d.alive(a2) && d.alive(b2) ==> d.is_edge(a2, b2, k2)
}


/// A sum of two zero phases is zero.
proof fn lemma_zero_sum_stays_zero(p: crate::phase::Phase, q: crate::phase::Phase, r: crate::phase::Phase)
    requires
        p.wf(),
        q.wf(),
        p.spec_is_zero(),
        q.spec_is_zero(),
        crate::phase::sum_is(p, q, r) || r == p,
    ensures
        r.spec_is_zero(),
{
    if r != p {
        let d = p.den * q.den;
        assert(d >= 1) by (nonlinear_arith)
            requires
                p.den >= 1 && q.den >= 1 && d == p.den * q.den,
        ;
        let s_val = p.num * q.den + q.num * p.den;
        assert(s_val == 0);
        vstd::arithmetic::div_mod::lemma_small_mod(0, (2 * d) as nat);
        assert(s_val % (2 * d) == 0);
        assert(r.num * d == 0);
        assert(r.num == 0) by (nonlinear_arith)
            requires
                r.num * d == 0 && d >= 1 && r.num >= 0,
        ;
    }
}

/// Removing one gadget member keeps the fusion preservation relation.
proof fn lemma_fusion_step(d0: Diagram, gp: Diagram, d: Diagram, v: usize)
    requires
        gp.wf(),
        d.wf(),
        preserved_by_fusion(d0, gp),
        is_gadget_member(d0, v),
        !d.alive(v),
        d.kinds@ == gp.kinds@,
        d.phases@ == gp.phases@,
        d.live@ == gp.live@.update(v as int, false),
        d.s_omega == gp.s_omega && d.s_pow == gp.s_pow,
        forall|w: usize| w != v ==> d.alive(w) == gp.alive(w),
        forall|w: usize| !d.has_edge(v, w),
        forall|a2: usize, b2: usize, k2: EKind|
            a2 != v && b2 != v ==> d.is_edge(a2, b2, k2) == gp.is_edge(a2, b2, k2),
    ensures
        preserved_by_fusion(d0, d),
{
    assert forall|w: usize| d0.alive(w) && !d.alive(w) implies is_gadget_member(d0, w) by {
        if w != v {
            assert(!gp.alive(w));
        }
    }
    assert forall|a2: usize, b2: usize, k2: EKind| d.is_edge(a2, b2, k2) implies d0.is_edge(
        a2,
        b2,
        k2,
    ) by {
        if a2 == v || b2 == v {
            let other = if a2 == v {
                b2
            } else {
                a2
            };
            assert(d.is_edge(v, other, k2));
            crate::rules::lemma_incident_entry(d, v, other, k2);
            assert(false);
        } else {
            assert(gp.is_edge(a2, b2, k2));
        }
    }
    assert forall|a2: usize, b2: usize, k2: EKind|
        d0.is_edge(a2, b2, k2) && d.alive(a2) && d.alive(b2) implies d.is_edge(a2, b2, k2) by {
        assert(a2 != v && b2 != v);
        assert(gp.alive(a2) && gp.alive(b2));
        assert(gp.is_edge(a2, b2, k2));
    }
}

/// Merges semantically identical phase gadgets: every zero-phase degree-1
/// Z-vertex is grouped by the set of its hub's other Z-neighbors over
/// Hadamard edges; in each group of more than one, the first leaf absorbs
/// the phases of the rest, whose hub and leaf are both deleted. Reports
/// fusion exactly when two distinct leaves share a signature; when none do,
/// the diagram is untouched.
pub fn fuse_gadgets(g: &mut Diagram) -> (fused: bool)
    requires
        old(g).wf(),
    ensures
        final(g).wf(),
        final(g).count_alive() <= old(g).count_alive(),
        fused ==> final(g).count_alive() < old(g).count_alive(),
        !fused ==> *final(g) == *old(g),
        fused == has_dup_gadgets(*old(g)),
        final(g).kinds@ == old(g).kinds@,
        final(g).phases@.len() == old(g).phases@.len(),
        final(g).live@.len() == old(g).live@.len(),
        final(g).s_omega == old(g).s_omega && final(g).s_pow == old(g).s_pow,
        forall|w: usize| final(g).alive(w) ==> old(g).alive(w),
        forall|w: usize|
            old(g).alive(w) && !final(g).alive(w) ==> is_gadget_member(*old(g), w),
        forall|w: usize|
            (w as int) < old(g).phases@.len() && !is_gadget_leaf(*old(g), w)
                ==> final(g).phase_of(w) == old(g).phase_of(w),
        forall|w: usize|
            final(g).alive(w) && is_gadget_leaf(*old(g), w)
                ==> final(g).phase_of(w).spec_is_zero(),
        forall|a2: usize, b2: usize, k2: EKind|
            final(g).is_edge(a2, b2, k2) ==> old(g).is_edge(a2, b2, k2),
        forall|a2: usize, b2: usize, k2: EKind|
            old(g).is_edge(a2, b2, k2) && final(g).alive(a2) && final(g).alive(b2)
                ==> final(g).is_edge(a2, b2, k2),
        forall|v1: usize, v2: usize|
            v1 != v2 && is_gadget_leaf(*old(g), v1) && is_gadget_leaf(*old(g), v2)
                && gadget_sig(*old(g), v1) == gadget_sig(*old(g), v2) ==> !(final(g).alive(
                gadget_hub(*old(g), v1),
            ) && final(g).alive(gadget_hub(*old(g), v2))),
{
    let verts = g.vertex_vec();
    let mut hubs: Vec<usize> = Vec::new();
    let mut leaves: Vec<usize> = Vec::new();
    let mut sigs: Vec<Vec<usize>> = Vec::new();
    let mut i: usize = 0;
    while i < verts.len()
        invariant
            g.wf(),
            *g == *old(g),
            hubs@.len() == leaves@.len(),
            sigs@.len() == leaves@.len(),
            forall|p: int| 0 <= p < leaves@.len() ==> is_gadget_leaf(*g, #[trigger] leaves@[p]),
            forall|p: int|
                0 <= p < leaves@.len() ==> #[trigger] hubs@[p] == gadget_hub(*g, leaves@[p]),
            forall|p: int|
                0 <= p < leaves@.len() ==> (#[trigger] sigs@[p])@.to_set() == gadget_sig(
                    *g,
                    leaves@[p],
                ),
            forall|p: int| 0 <= p < hubs@.len() ==> g.alive(#[trigger] hubs@[p]),
            forall|p: int, q: int| 0 <= p < q < leaves@.len() ==> leaves@[p] < leaves@[q],
            forall|p: int|
                0 <= p < leaves@.len() ==> exists|j: int|
                    0 <= j < i && #[trigger] leaves@[p] == verts@[j],
            forall|j: int|
                0 <= j < i && is_gadget_leaf(*g, #[trigger] verts@[j]) ==> leaves@.contains(
                    verts@[j],
                ),
            forall|p: int, q: int| 0 <= p < q < verts@.len() ==> verts@[p] < verts@[q],
            forall|v: usize| g.alive(v) ==> verts@.contains(v),
            i <= verts@.len(),
        decreases verts.len() - i,
    {
        let v = verts[i];
        let ghost leaves0 = leaves@;
        if g.contains_vertex(v) && g.vertex_type(v) == VKind::Z && g.phase(v).is_zero() {
            let inc = g.incident_edges(v);
            if inc.len() == 1 {
                let w = inc[0].0;
                proof {
                    crate::rules::lemma_incident_entries_wf(*g, v);
                    assert(is_gadget_leaf(*g, v));
                    assert(w == gadget_hub(*g, v));
                }
                let winc = g.incident_edges(w);
                let mut sig: Vec<usize> = Vec::new();
                let mut j: usize = 0;
                while j < winc.len()
                    invariant
                        g.wf(),
                        *g == *old(g),
                        winc@ == spec_incident(g.edges@, w),
                        forall|p: int|
                            0 <= p < sig@.len() ==> #[trigger] sig@[p] != v && g.is_edge(
                                w,
                                sig@[p],
                                EKind::H,
                            ) && g.kind_of(sig@[p]) == VKind::Z,
                        forall|jj: int|
                            0 <= jj < j && (#[trigger] winc@[jj]).0 != v && winc@[jj].1 == EKind::H
                                && g.kind_of(winc@[jj].0) == VKind::Z ==> sig@.contains(
                                winc@[jj].0,
                            ),
                        j <= winc@.len(),
                    decreases winc.len() - j,
                {
                    let e = winc[j];
                    let ghost sig0 = sig@;
                    proof {
                        crate::rules::lemma_incident_entries_wf(*g, w);
                    }
                    if e.0 != v && e.1 == EKind::H && g.vertex_type(e.0) == VKind::Z {
                        sig.push(e.0);
                        assert(sig@[sig@.len() - 1] == e.0);
                    }
                    proof {
                        assert(forall|p: int| 0 <= p < sig0.len() ==> sig@[p] == sig0[p]);
                        assert forall|jj: int|
                            0 <= jj < j + 1 && (#[trigger] winc@[jj]).0 != v && winc@[jj].1
                                == EKind::H && g.kind_of(winc@[jj].0) == VKind::Z implies sig@.contains(
                            winc@[jj].0,
                        ) by {
                            if jj < j {
                                let p = choose|p: int| 0 <= p < sig0.len() && sig0[p] == winc@[jj].0;
                                assert(sig@[p] == winc@[jj].0);
                            } else {
                                assert(sig@[sig@.len() - 1] == winc@[jj].0);
                            }
                        }
                    }
                    j = j + 1;
                }
                proof {
                    assert forall|x: usize| sig@.to_set().contains(x) implies gadget_sig(
                        *g,
                        v,
                    ).contains(x) by {
                        let p = choose|p: int| 0 <= p < sig@.len() && sig@[p] == x;
                    }
                    assert forall|x: usize| gadget_sig(*g, v).contains(x) implies sig@.to_set().contains(
                        x,
                    ) by {
                        assert(g.is_edge(w, x, EKind::H));
                        assert(winc@.contains((x, EKind::H)));
                        let jj = choose|jj: int| 0 <= jj < winc@.len() && winc@[jj] == (
                        x,
                        EKind::H,
                        );
                        assert(sig@.contains(x));
                    }
                    assert(sig@.to_set() =~= gadget_sig(*g, v));
                }
                hubs.push(w);
                leaves.push(v);
                sigs.push(sig);
                proof {
                    assert(leaves@[leaves@.len() - 1] == v);
                    assert forall|p: int, q: int|
                        0 <= p < q < leaves@.len() implies leaves@[p] < leaves@[q] by {
                        if q == leaves@.len() - 1 {
                            let jj = choose|jj: int| 0 <= jj < i && leaves0[p] == verts@[jj];
                            assert(verts@[jj] < verts@[i as int]);
                        }
                    }
                }
            }
        }
        proof {
            assert(forall|p: int| 0 <= p < leaves0.len() ==> leaves@[p] == leaves0[p]);
            assert forall|jx: int|
                0 <= jx < i + 1 && is_gadget_leaf(*g, #[trigger] verts@[jx]) implies leaves@.contains(
                verts@[jx],
            ) by {
                if jx < i {
                    let p = choose|p: int| 0 <= p < leaves0.len() && leaves0[p] == verts@[jx];
                    assert(leaves@[p] == verts@[jx]);
                } else {
                    assert(leaves@[leaves@.len() - 1] == verts@[jx]);
                }
            }
        }
        i = i + 1;
    }
    proof {
        assert forall|v: usize| is_gadget_leaf(*g, v) implies leaves@.contains(v) by {
            assert(g.alive(v));
            assert(verts@.contains(v));
            let jx = choose|jx: int| 0 <= jx < verts@.len() && verts@[jx] == v;
        }
    }
    let mut fused = false;
    let mut used: Vec<bool> = Vec::new();
    let mut u: usize = 0;
    while u < leaves.len()
        invariant
            used@.len() == u,
            u <= leaves@.len(),
            forall|x: int| 0 <= x < used@.len() ==> !(#[trigger] used@[x]),
        decreases leaves.len() - u,
    {
        used.push(false);
        u = u + 1;
    }
    let mut a: usize = 0;
    while a < leaves.len()
        invariant
            g.wf(),
            g.count_alive() <= old(g).count_alive(),
            fused ==> g.count_alive() < old(g).count_alive(),
            fused ==> has_dup_gadgets(*old(g)),
            !fused ==> *g == *old(g),
            !fused ==> forall|x: int| 0 <= x < used@.len() ==> !(#[trigger] used@[x]),
            !fused ==> forall|p: int, q: int|
                0 <= p < q < leaves@.len() && p < a ==> (#[trigger] sigs@[p])@.to_set() != (
                #[trigger] sigs@[q])@.to_set(),
            used@.len() == leaves@.len(),
            sigs@.len() == leaves@.len(),
            hubs@.len() == leaves@.len(),
            forall|p: int| 0 <= p < leaves@.len() ==> is_gadget_leaf(*old(g), #[trigger] leaves@[p]),
            forall|p: int|
                0 <= p < leaves@.len() ==> (#[trigger] sigs@[p])@.to_set() == gadget_sig(
                    *old(g),
                    leaves@[p],
                ),
            forall|p: int| 0 <= p < hubs@.len() ==> old(g).alive(#[trigger] hubs@[p]),
                    forall|p: int|
                        0 <= p < leaves@.len() ==> #[trigger] hubs@[p] == gadget_hub(
                            *old(g),
                            leaves@[p],
                        ),
                    preserved_by_fusion(*old(g), *g),
                    forall|p: int|
                        0 <= p < leaves@.len() ==> (leaves@[p] as int) < g.phases@.len()
                            && g.phase_of(#[trigger] leaves@[p]).spec_is_zero(),
            forall|p: int, q: int| 0 <= p < q < leaves@.len() ==> leaves@[p] < leaves@[q],
            forall|v: usize| is_gadget_leaf(*old(g), v) ==> leaves@.contains(v),
            forall|x: int|
                0 <= x < used@.len() && #[trigger] used@[x] ==> !g.alive(hubs@[x]),
            forall|p: int, q: int|
                0 <= p < q < leaves@.len() && p < a && (#[trigger] sigs@[p])@.to_set() == (
                #[trigger] sigs@[q])@.to_set() ==> !g.alive(hubs@[p]) || !g.alive(hubs@[q]),
            a <= leaves@.len(),
        decreases leaves.len() - a,
    {
        if !used[a] {
            let mut b: usize = a + 1;
            while b < leaves.len()
                invariant
                    g.wf(),
                    g.count_alive() <= old(g).count_alive(),
                    fused ==> g.count_alive() < old(g).count_alive(),
                    fused ==> has_dup_gadgets(*old(g)),
                    !fused ==> *g == *old(g),
                    !fused ==> forall|x: int| 0 <= x < used@.len() ==> !(#[trigger] used@[x]),
                    !fused ==> forall|p: int, q: int|
                        0 <= p < q < leaves@.len() && p < a ==> (#[trigger] sigs@[p])@.to_set()
                            != (#[trigger] sigs@[q])@.to_set(),
                    !fused ==> forall|q: int|
                        a < q < b ==> (#[trigger] sigs@[q])@.to_set() != sigs@[a as int]@.to_set(),
                    used@.len() == leaves@.len(),
                    sigs@.len() == leaves@.len(),
                    hubs@.len() == leaves@.len(),
                    forall|p: int|
                        0 <= p < leaves@.len() ==> is_gadget_leaf(
                            *old(g),
                            #[trigger] leaves@[p],
                        ),
                    forall|p: int|
                        0 <= p < leaves@.len() ==> (#[trigger] sigs@[p])@.to_set() == gadget_sig(
                            *old(g),
                            leaves@[p],
                        ),
                    forall|p: int| 0 <= p < hubs@.len() ==> old(g).alive(#[trigger] hubs@[p]),
                    forall|p: int|
                        0 <= p < leaves@.len() ==> #[trigger] hubs@[p] == gadget_hub(
                            *old(g),
                            leaves@[p],
                        ),
                    preserved_by_fusion(*old(g), *g),
                    forall|p: int|
                        0 <= p < leaves@.len() ==> (leaves@[p] as int) < g.phases@.len()
                            && g.phase_of(#[trigger] leaves@[p]).spec_is_zero(),
                    forall|p: int, q: int| 0 <= p < q < leaves@.len() ==> leaves@[p] < leaves@[q],
                    forall|v: usize| is_gadget_leaf(*old(g), v) ==> leaves@.contains(v),
                    forall|x: int|
                        0 <= x < used@.len() && #[trigger] used@[x] ==> !g.alive(hubs@[x]),
                    forall|p: int, q: int|
                        0 <= p < q < leaves@.len() && p < a && (#[trigger] sigs@[p])@.to_set() == (
                        #[trigger] sigs@[q])@.to_set() ==> !g.alive(hubs@[p]) || !g.alive(
                            hubs@[q],
                        ),
                    forall|q: int|
                        a < q < b && (#[trigger] sigs@[q])@.to_set() == sigs@[a as int]@.to_set()
                            ==> !g.alive(hubs@[q]),
                    a < leaves@.len(),
                    a < b,
                    b <= leaves@.len(),
                decreases leaves.len() - b,
            {
                if !used[b] && sig_eq(&sigs[a], &sigs[b]) {
                    proof {
                        assert(leaves@[a as int] < leaves@[b as int]);
                        assert(is_gadget_leaf(*old(g), leaves@[a as int]));
                        assert(is_gadget_leaf(*old(g), leaves@[b as int]));
                        assert(gadget_sig(*old(g), leaves@[a as int]) == gadget_sig(
                            *old(g),
                            leaves@[b as int],
                        ));
                        assert(has_dup_gadgets(*old(g)));
                    }
                    used.set(b, true);
                    let la = leaves[a];
                    let lb = leaves[b];
                    if g.contains_vertex(la) && g.contains_vertex(lb) && la != lb {
                        let ph = g.phase(lb);
                        proof {
                            assert(g.phases@[lb as int].wf());
                            assert(ph.spec_is_zero());
                        }
                        let ghost gp = *g;
                        g.add_to_phase(la, ph);
                        proof {
                            lemma_zero_sum_stays_zero(gp.phase_of(la), ph, g.phase_of(la));
                            assert(is_gadget_leaf(*old(g), la));
                            assert forall|w: usize|
                                (w as int) < old(g).phases@.len() && !is_gadget_leaf(
                                    *old(g),
                                    w,
                                ) implies g.phase_of(w) == old(g).phase_of(w) by {
                                assert(w != la);
                                assert(g.phase_of(w) == gp.phase_of(w));
                            }
                            assert forall|p: int|
                                0 <= p < leaves@.len() implies (leaves@[p] as int)
                                < g.phases@.len() && g.phase_of(
                                #[trigger] leaves@[p],
                            ).spec_is_zero() by {
                                if leaves@[p] != la {
                                    assert(g.phase_of(leaves@[p]) == gp.phase_of(leaves@[p]));
                                }
                            }
                        }
                    }
                    let hb = hubs[b];
                    if g.contains_vertex(hb) {
                        let ghost gp = *g;
                        g.remove_vertex(hb);
                        fused = true;
                        proof {
                            assert(hb == gadget_hub(*old(g), leaves@[b as int]));
                            assert(is_gadget_leaf(*old(g), leaves@[b as int]));
                            assert(is_gadget_member(*old(g), hb));
                            lemma_fusion_step(*old(g), gp, *g, hb);
                        }
                    }
                    if g.contains_vertex(lb) {
                        let ghost gp = *g;
                        g.remove_vertex(lb);
                        fused = true;
                        proof {
                            assert(is_gadget_leaf(*old(g), lb));
                            assert(is_gadget_member(*old(g), lb));
                            lemma_fusion_step(*old(g), gp, *g, lb);
                        }
                    }
                    proof {
                        assert(fused);
                    }
                }
                b = b + 1;
            }
        }
        a = a + 1;
    }
    proof {
        assert forall|v1: usize, v2: usize|
            v1 != v2 && is_gadget_leaf(*old(g), v1) && is_gadget_leaf(*old(g), v2)
                && gadget_sig(*old(g), v1) == gadget_sig(*old(g), v2) implies !(g.alive(
            gadget_hub(*old(g), v1),
        ) && g.alive(gadget_hub(*old(g), v2))) by {
            assert(leaves@.contains(v1));
            assert(leaves@.contains(v2));
            let p = choose|p: int| 0 <= p < leaves@.len() && leaves@[p] == v1;
            let q = choose|q: int| 0 <= q < leaves@.len() && leaves@[q] == v2;
            assert(p != q);
            if p < q {
                assert(sigs@[p]@.to_set() == sigs@[q]@.to_set());
                assert(!g.alive(hubs@[p]) || !g.alive(hubs@[q]));
            } else {
                assert(sigs@[q]@.to_set() == sigs@[p]@.to_set());
                assert(!g.alive(hubs@[q]) || !g.alive(hubs@[p]));
            }
        }
        if !fused {
            assert(!has_dup_gadgets(*old(g))) by {
                if has_dup_gadgets(*old(g)) {
                    let (v1, v2) = choose|v1: usize, v2: usize|
                        v1 != v2 && is_gadget_leaf(*old(g), v1) && is_gadget_leaf(*old(g), v2)
                            && gadget_sig(*old(g), v1) == gadget_sig(*old(g), v2);
                    assert(leaves@.contains(v1));
                    assert(leaves@.contains(v2));
                    let p = choose|p: int| 0 <= p < leaves@.len() && leaves@[p] == v1;
                    let q = choose|q: int| 0 <= q < leaves@.len() && leaves@[q] == v2;
                    assert(p != q);
                    if p < q {
                        assert(sigs@[p]@.to_set() != sigs@[q]@.to_set());
                    } else {
                        assert(sigs@[q]@.to_set() != sigs@[p]@.to_set());
                    }
                }
            }
        }
    }
    fused
}

/// Top-level entry point: alternates `clifford_simp` and `fuse_gadgets`
/// until a round contributes nothing from either.
pub fn full_simp(g: &mut Diagram) -> (m: bool)
    requires
        old(g).wf(),
    ensures
        final(g).wf(),
        final(g).count_alive() <= old(g).count_alive(),
        m ==> final(g).count_alive() < old(g).count_alive(),
        clifford_rules_saturated(*final(g)),
        !has_dup_gadgets(*final(g)),
        x_free(*final(g)),
        clifford_rules_saturated(*old(g)) && x_free(*old(g)) && !has_dup_gadgets(*old(g))
            ==> !m && *final(g) == *old(g),
{
    let ghost hyp = clifford_rules_saturated(*old(g)) && x_free(*old(g)) && !has_dup_gadgets(
        *old(g),
    );
    let mut got = false;
    let mut m = true;
    while m
        invariant
            g.wf(),
            g.count_alive() <= old(g).count_alive(),
            got ==> g.count_alive() < old(g).count_alive(),
            hyp == (clifford_rules_saturated(*old(g)) && x_free(*old(g)) && !has_dup_gadgets(
                *old(g),
            )),
            hyp ==> *g == *old(g) && !got,
            !m ==> clifford_rules_saturated(*g),
            !m ==> !has_dup_gadgets(*g),
            !m ==> x_free(*g),
        decreases g.count_alive() * 2 + (if m { 1int } else { 0int }),
    {
        proof {
            lemma_count_live_bounds(g.live@);
        }
        let mut mm = clifford_simp(g);
        if !mm {
            mm = fuse_gadgets(g);
        }
        m = mm;
        if m {
            got = true;
        }
        proof {
            lemma_count_live_bounds(g.live@);
        }
    }
    got
}

} // verus!
