//! Incremental analysis core: an input store with revisions, memoized
//! derived queries with dependency tracking, cooperative cancellation, syntax
//! lookup helpers, and the two-phase assist context with its edit builder.
pub mod input;
pub mod syntax;
pub mod db;
pub mod indent;
pub mod edit;
pub mod assist;
