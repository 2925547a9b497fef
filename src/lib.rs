//! A query-plan optimizer and physical executor for a columnar dataframe
//! engine, with its rewrite rules proved against their contracts.
//!
//! Plans and expressions live in [`arena::Arena`]s and refer to each other
//! by [`arena::Node`] ids. [`slice_pushdown`] moves slices towards the
//! sources; [`join`] decides where a filter above a join may go;
//! [`optimizer`] drives the rewrites. [`executor`] runs operator trees,
//! with the stable multi-key sort of [`sort`]; [`date`] converts date
//! columns.

pub mod arena;
pub mod date;
pub mod dtype;
pub mod error;
pub mod executor;
pub mod expr;
pub mod join;
pub mod optimizer;
pub mod plan;
pub mod predicate_pushdown;
pub mod slice_pushdown;
pub mod sort;
pub mod stack_opt;

