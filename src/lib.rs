//! Building blocks for the `JOIN`, `ORDER BY` and `LIMIT`/`OFFSET` parts of a
//! SQL query: a planner that turns prioritised sort keys over joined tables
//! into a minimal list of joins and order terms, renderers for several SQL
//! dialects, and page arithmetic.
//!
//! What the planner produces is stated by the spec function `plan`, over the
//! text of the relationship graph and of the requested keys; the public
//! `lemma_*` proof functions state the properties that this guarantees.

mod laws;
mod order_builder;
mod order_by_options;
mod order_method;
mod order_type;
mod pagination;
mod pagination_options;
mod plan;
mod relationship;
mod schema;
mod sql_join;
mod sql_order_by;
mod text;
mod types;

pub use laws::{
    is_subsequence, lemma_checked_key_buildable, lemma_higher_priority_unique_prunes,
    lemma_join_minimality, lemma_plan_terms, lemma_planned_keys_keep_request_order,
    lemma_planned_rank_order, lemma_recognized_iff_reaches_base, lemma_resolve_idempotent,
    lemma_sort_stable, lemma_unique_key_prunes, no_chained_alias,
};
pub use order_builder::{
    all_requested, has_pair, key_at_rank_one, names, BuilderView, OrderBuilder, OrderOptionError,
};
pub use order_by_options::OrderByOptions;
pub use order_method::{max_rank, rank, OrderMethod};
pub use order_type::{order_type_of, order_type_text, OrderType};
pub use pagination::{clamp_page, total_pages_of, Pagination, PaginationView};
pub use pagination_options::{
    limit_offset_text, mssql2008_limit_offset_text, mssql_limit_offset_text, offset_of,
    PaginationOptions,
};
pub use plan::{
    emit_upto, is_dropped, is_redundant, join_path, key_buildable, keys_buildable, keys_of_rank,
    lemma_keys_of_rank_members, lemma_keys_of_rank_none, lemma_prune_members,
    lemma_sorted_members, lemma_sorted_skip, plan, planned_keys, prune, prune_upto, resolve_key,
    resolve_keys, sort_by_rank, sorted_upto, term_of, visit, visit_path, JoinState, KeyView,
    PlanView,
};
pub use relationship::{
    edge_view, lemma_chain_fuel, lemma_edge_at, lemma_recognized_reaches_base,
    lemma_walk_ends_at_base, opt_name_view,
    EdgeView, GraphView, JoinError, Relationship, TableColumnAttributes, WalkError,
};
pub use schema::{
    checked_graph, field_pair, fields_valid, join_step, requested_keys, FieldSpec, FieldView,
    JoinSpec, JoinSpecView, OrderBySchema, SchemaError, SchemaView,
};
pub use sql_join::{
    first_join_of, join_clause_text, join_clauses_text, SqlJoin, SqlJoinsInsertError, SqlJoinsOps,
};
pub use sql_order_by::{
    null_prefix_text, order_by_text, order_term_text, order_terms_text, NullStrategy,
    SqlOrderByComponent, TermView,
};
pub use text::{column_ref, decimal, digit_char, quoted};
pub use types::{clone_table_column, lex_cmp, ColumnName, Name, TableColumn, TableName};
