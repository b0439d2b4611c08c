//! The planning core of a schema-migration tool: given a table's current
//! and target definitions, it classifies every column and constraint as
//! created, deleted, modified or unchanged, and emits the minimal ordered
//! sequence of schema-change statements that applies exactly that delta —
//! either as direct in-place alterations or through a full table rebuild,
//! depending on what the target dialect can express.

use vstd::prelude::*;

mod compare;
mod crud;
mod diff;
mod laws;
mod plan;
mod roundtrip;
mod schema;
mod sqltext;
mod statement;

pub use compare::entity_eq;
pub use compare::modified;
pub use compare::names_eq;
pub use compare::Compare;
pub use crud::ColCRUD;
pub use crud::ConsCRUD;
pub use crud::CRUD;
pub use diff::change_one;
pub use diff::change_seq;
pub use diff::create_seq;
pub use diff::delete_seq;
pub use diff::has_equal;
pub use diff::has_name_match;
pub use diff::new_names_only;
pub use laws::lemma_diff_completeness;
pub use laws::lemma_diff_idempotent;
pub use laws::lemma_direct_path_ordering;
pub use laws::lemma_cons_change_named;
pub use laws::lemma_rebuild_safety;
pub use laws::lemma_round_trip_columns;
pub use laws::lemma_round_trip_constraints;
pub use laws::unique_cons_names;
pub use laws::stmt_rank;
pub use plan::all_named;
pub use plan::apply_by_name;
pub use plan::direct_path_stmts;
pub use plan::drop_col_stmts;
pub use plan::drop_cons_stmts;
pub use plan::add_col_stmts;
pub use plan::add_cons_stmts;
pub use plan::folded_cre_cons;
pub use plan::folded_del_cons;
pub use plan::has_col_name;
pub use plan::keep_unnamed;
pub use plan::lemma_diff_feeds_rebuild;
pub use plan::move_new_table;
pub use plan::move_old_table;
pub use plan::move_path_stmts;
pub use plan::new_create_cols;
pub use plan::rebuild_change;
pub use plan::rebuild_remove;
pub use plan::rebuilt_columns;
pub use plan::rebuilt_new_table;
pub use plan::shrunk_old_table;
pub use plan::unique_col_names;
pub use plan::uses_move_path;
pub use roundtrip::apply_op;
pub use roundtrip::lemma_round_trip_direct;
pub use roundtrip::lemma_round_trip_move;
pub use roundtrip::tables_equivalent;
pub use roundtrip::apply_stmt;
pub use roundtrip::apply_stmts;
pub use roundtrip::cols_without;
pub use roundtrip::cons_without;
pub use schema::Column;
pub use schema::ColumnV;
pub use schema::ConstraintKind;
pub use schema::ConstraintV;
pub use schema::Dialect;
pub use schema::SchemaError;
pub use schema::Table;
pub use schema::TableConstraint;
pub use schema::TableV;
pub use sqltext::insert_select_sql;
pub use sqltext::joined_col_names;
pub use sqltext::move_sql;
pub use sqltext::move_sql_ok;
pub use sqltext::parsed_statement_count;
pub use statement::AlterOpV;
pub use statement::AlterTableOp;
pub use statement::Statement;
pub use statement::StmtV;

verus! {

} // verus!
