//! A gradual, structural type checker for a dynamically typed,
//! Starlark-like configuration language.
//!
//! The crate is organised around a small algebra of types: a [`ty::Ty`] is a
//! finite union of [`ty::TyBasic`] alternatives, combined with `union`,
//! `intersect` and `is_subtype`.  Function signatures and call-site matching
//! live in [`function`], name-to-type facts in [`bindings`], outside knowledge
//! of builtins in [`oracle`], and the statement/expression walker in
//! [`typecheck`].

pub mod bindings;
pub mod dynamic;
pub mod error;
pub mod function;
pub mod oracle;
pub mod recorder;
pub mod text;
pub mod ty;
pub mod typecheck;
pub mod views;

pub use bindings::Bindings;
pub use bindings::Interface;
pub use dynamic::DeferredHolderKey;
pub use dynamic::DynamicLambdaIndex;
pub use dynamic::DynamicLambdaResultsKey;
pub use error::TypingError;
pub use error::TypingErrorKind;
pub use function::Arg;
pub use oracle::OracleDocs;
pub use oracle::OracleSeq;
pub use oracle::OracleStandard;
pub use oracle::TypingOracle;
pub use recorder::calculate_diff_if_some;
pub use recorder::merge_file_watcher_stats;
pub use recorder::process_memory;
pub use recorder::truncate_stderr;
pub use ty::Param;
pub use ty::ParamMode;
pub use ty::Ty;
pub use ty::TyBasic;
pub use ty::TyFunction;
pub use ty::TyName;
pub use ty::TyStruct;
pub use typecheck::typecheck_module;
pub use typecheck::Approximation;
pub use typecheck::TypingOracleCtx;
