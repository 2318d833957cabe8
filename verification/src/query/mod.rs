//! The query side: filter shape, join requests and their execution plans,
//! query plans and their costs, result pages, and record streams.
pub mod filter;
pub mod join;
pub mod join_pipeline;
pub mod join_plan;
pub mod planner;
pub mod request;
pub mod pagination;
pub mod stream;
pub mod join_merge;
pub mod join_index;
pub mod join_rows;
pub mod path;
pub mod projection;
pub mod ordering;
pub mod predicate;
pub mod laws;
pub mod join_exec;
pub mod sorted_page;
pub mod join_stages;
