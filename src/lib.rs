//! Logical rewrite passes over relational plans: constant folding, and two
//! boolean simplifications of filter predicates (De Morgan's laws and AND
//! undistribution), together with the planning of catalog statements.
pub mod scalar;
pub mod relation;
pub mod group;
pub mod fold;
pub mod fold_lemmas;
pub mod boolean;
pub mod undistribute_laws;
pub mod predicates;
pub mod ddl;
