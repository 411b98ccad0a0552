//! A small forward-chaining engine for family relationships.
//!
//! A [`KnowledgeBase`] holds a set of [`Fact`]s. Six fixed rules conclude
//! father, mother, sibling, uncle, cousin, nibling and grandson facts from
//! person and parent facts; [`infer_all`] applies them pass after pass until
//! a pass adds nothing. [`sons_of`] and [`grandsons_of`] then read the
//! result.
//!
//! Every function is verified against a model in which a knowledge base is
//! a finite set of [`FactView`]s:
//!
//! - [`fact`]: genders, names and the nine kinds of fact;
//! - [`knowledge_base`]: the set of facts, insertion and lookup;
//! - [`model`]: what each rule concludes, passes, saturation;
//! - [`rules`]: the rules as functions from a snapshot to new facts;
//! - [`fixpoint`]: one pass, and passes until saturation;
//! - [`query`]: sons and grandsons;
//! - [`bound`]: the finitely many facts that saturation can reach;
//! - [`laws`]: what holds of all this, with proofs.

pub mod bound;
pub mod fact;
mod filtering;
pub mod fixpoint;
mod hashing;
mod join;
pub mod knowledge_base;
pub mod laws;
pub mod model;
pub mod query;
pub mod rules;

pub use fact::{Fact, FactView, Gender, Name};
pub use fixpoint::{infer_all, infer_pass};
pub use knowledge_base::{snapshot, KnowledgeBase};
pub use model::Rule;
pub use query::{grandsons_of, sons_of};
pub use rules::{
    infer_cousin, infer_father_mother, infer_grandson, infer_nibling, infer_sibling, infer_uncle,
    iter_parents, iter_siblings, rule_set,
};
