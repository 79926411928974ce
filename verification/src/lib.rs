//! Simplification engine for ZX-diagrams: generic rewrite drivers, the named
//! simplification passes built on the basic ZX-calculus rules, and the
//! composite fixpoint strategies (`interior_clifford_simp`, `clifford_simp`,
//! `fuse_gadgets`, `full_simp`) that shrink a diagram in place while the
//! represented linear map is kept up to a global scalar.

pub mod phase;
pub mod diagram;
pub mod rules;
pub mod simplify;

pub use phase::Phase;
pub use diagram::{Diagram, EKind, VKind};
pub use rules::{EdgeRule, VertexRule};
pub use simplify::{
    clifford_simp, edge_simp, full_simp, fuse_gadgets, gen_pivot_simp, id_simp,
    interior_clifford_simp, local_comp_simp, pivot_simp, spider_simp, vertex_simp,
};
