use vstd::prelude::*;

use crate::compare::Compare;
use crate::schema::Column;
use crate::schema::ColumnV;
use crate::schema::ConstraintV;
use crate::schema::SchemaError;
use crate::schema::Table;
use crate::schema::TableConstraint;
use crate::schema::TableV;

verus! {

/// One in-place alteration of a table.
#[derive(PartialEq, Debug)]
pub enum AlterTableOp {
    AddColumn(Column),
    DropColumn { name: String, if_exists: bool, cascade: bool },
    AddConstraint(TableConstraint),
    DropConstraint { name: String, cascade: bool, restrict: bool },
}

/// The mathematical model of an [`AlterTableOp`].
#[verifier::ext_equal]
pub ghost enum AlterOpV {
    AddColumn(ColumnV),
    DropColumn { name: Seq<char>, if_exists: bool, cascade: bool },
    AddConstraint(ConstraintV),
    DropConstraint { name: Seq<char>, cascade: bool, restrict: bool },
}

/// A schema-change statement produced by this core. It is only produced
/// here, never executed: an external executor consumes it. The copy step of
/// a rebuild is carried as the raw SQL text it was built and checked from.
#[derive(PartialEq, Debug)]
pub enum Statement {
    CreateTable(Table),
    AlterTable { table: String, op: AlterTableOp },
    Drop { name: String, cascade: bool },
    Rename { name: String, to: String },
    InsertSelect { sql: String },
}

/// The mathematical model of a [`Statement`].
#[verifier::ext_equal]
pub ghost enum StmtV {
    CreateTable(TableV),
    AlterTable { table: Seq<char>, op: AlterOpV },
    Drop { name: Seq<char>, cascade: bool },
    Rename { name: Seq<char>, to: Seq<char> },
    InsertSelect { sql: Seq<char> },
}

impl DeepView for AlterTableOp {
    type V = AlterOpV;

    open spec fn deep_view(&self) -> AlterOpV {
        match self {
            AlterTableOp::AddColumn(c) => AlterOpV::AddColumn(c.deep_view()),
            AlterTableOp::DropColumn { name, if_exists, cascade } => AlterOpV::DropColumn {
                name: name@,
                if_exists: *if_exists,
                cascade: *cascade,
            },
            AlterTableOp::AddConstraint(c) => AlterOpV::AddConstraint(c.deep_view()),
            AlterTableOp::DropConstraint { name, cascade, restrict } => AlterOpV::DropConstraint {
                name: name@,
                cascade: *cascade,
                restrict: *restrict,
            },
        }
    }
}

impl DeepView for Statement {
    type V = StmtV;

    open spec fn deep_view(&self) -> StmtV {
        match self {
            Statement::CreateTable(t) => StmtV::CreateTable(t.deep_view()),
            Statement::AlterTable { table, op } => StmtV::AlterTable {
                table: table@,
                op: op.deep_view(),
            },
            Statement::Drop { name, cascade } => StmtV::Drop { name: name@, cascade: *cascade },
            Statement::Rename { name, to } => StmtV::Rename { name: name@, to: to@ },
            Statement::InsertSelect { sql } => StmtV::InsertSelect { sql: sql@ },
        }
    }
}

impl Table {
    /// ALTER TABLE … ADD COLUMN.
    pub fn create_col(&self, col: Column) -> (s: Statement)
        ensures
            s.deep_view() == (StmtV::AlterTable {
                table: self.deep_view().name,
                op: AlterOpV::AddColumn(col.deep_view()),
            }),
    {
        Statement::AlterTable { table: self.name.clone(), op: AlterTableOp::AddColumn(col) }
    }

    /// ALTER TABLE … DROP COLUMN, cascading and not conditional on existence.
    pub fn delete_col(&self, col: Column) -> (s: Statement)
        ensures
            s.deep_view() == (StmtV::AlterTable {
                table: self.deep_view().name,
                op: AlterOpV::DropColumn {
                    name: col.deep_view().name,
                    if_exists: false,
                    cascade: true,
                },
            }),
    {
        Statement::AlterTable {
            table: self.name.clone(),
            op: AlterTableOp::DropColumn { name: col.name, if_exists: false, cascade: true },
        }
    }

    /// ALTER TABLE … ADD CONSTRAINT.
    pub fn create_cons(&self, cons: TableConstraint) -> (s: Statement)
        ensures
            s.deep_view() == (StmtV::AlterTable {
                table: self.deep_view().name,
                op: AlterOpV::AddConstraint(cons.deep_view()),
            }),
    {
        Statement::AlterTable { table: self.name.clone(), op: AlterTableOp::AddConstraint(cons) }
    }

    /// ALTER TABLE … DROP CONSTRAINT by resolved name; fails when the
    /// constraint cannot yield one.
    pub fn delete_cons(&self, cons: TableConstraint) -> (r: Result<Statement, SchemaError>)
        ensures
            match r {
                Ok(s) => cons.deep_view().name is Some && s.deep_view() == (StmtV::AlterTable {
                    table: self.deep_view().name,
                    op: AlterOpV::DropConstraint {
                        name: cons.deep_view().name->0,
                        cascade: true,
                        restrict: false,
                    },
                }),
                Err(e) => cons.deep_view().name is None && e == SchemaError::NameResolution,
            },
    {
        let name = match cons.name() {
            Ok(n) => n,
            Err(e) => {
                return Err(e);
            },
        };
        Ok(
            Statement::AlterTable {
                table: self.name.clone(),
                op: AlterTableOp::DropConstraint { name, cascade: true, restrict: false },
            },
        )
    }

    /// RENAME this table to the given name.
    pub fn rename_stmt(&self, to: &String) -> (s: Statement)
        ensures
            s.deep_view() == (StmtV::Rename { name: self.deep_view().name, to: to@ }),
    {
        Statement::Rename { name: self.name.clone(), to: to.clone() }
    }
}

} // verus!
