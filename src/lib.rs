//! Columnar-to-relational bulk loading: schema mapping, literal encoding,
//! transposition, chunk planning and load reconciliation, together with the
//! benchmark configuration types that drive loads.
pub mod text;
pub mod encode;
pub mod plan;
pub mod load;
pub mod runcfg;
pub mod sqldiff;
