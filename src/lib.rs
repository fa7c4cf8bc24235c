//! Faceted navigation over the answer sets of a ground logic program.
//!
//! The route of activated facets, the constraint program that disjunctive
//! facets call for, and every decision taken around the solver are verified
//! here. The solver itself stays with the caller: a query, a measure or a
//! step hands out one action at a time (set `enum_mode`, solve, resume, show
//! a model, close, or weigh a route) and takes back what came of it.
pub mod errors;
pub mod registry;
pub mod route;
pub mod consequences;
pub mod query;
pub mod weighted;
pub mod modes;
pub mod incidences;
pub mod lofo;
pub mod navigation;
pub mod text;
