use sqlx_models::AlterTableOp;
use sqlx_models::Column;
use sqlx_models::ConstraintKind;
use sqlx_models::Dialect;
use sqlx_models::SchemaError;
use sqlx_models::Statement;
use sqlx_models::Table;
use sqlx_models::TableConstraint;
use sqlx_models::CRUD;
use sqlx_models::Compare;

fn col(name: &str, ty: &str) -> Column {
    Column { name: name.to_string(), data_type: ty.to_string(), nullable: false }
}

fn cons(name: Option<&str>, kind: ConstraintKind, columns: &[&str]) -> TableConstraint {
    TableConstraint {
        name: name.map(|n| n.to_string()),
        kind,
        columns: columns.iter().map(|c| c.to_string()).collect(),
    }
}

fn table(name: &str, columns: Vec<Column>, constraints: Vec<TableConstraint>) -> Table {
    Table { name: name.to_string(), columns, constraints }
}

#[test]
fn func() {}

#[test]
fn adds_single_column() {
    let current = table("T", vec![col("id", "int"), col("name", "text")], vec![]);
    let target = table(
        "T",
        vec![col("id", "int"), col("name", "text"), col("age", "int")],
        vec![],
    );
    let stmts = current
        .get_changes(&target, Some(Dialect { requires_move: false }))
        .unwrap();
    assert_eq!(
        stmts,
        vec![Statement::AlterTable {
            table: "T".to_string(),
            op: AlterTableOp::AddColumn(col("age", "int")),
        }]
    );
}

#[test]
fn rebuild_on_dropped_constraint() {
    let uq = cons(Some("uq_name"), ConstraintKind::Unique, &["name"]);
    let current = table("T", vec![col("id", "int"), col("name", "text")], vec![uq]);
    let target = table("T", vec![col("id", "int"), col("name", "text")], vec![]);
    let stmts = current
        .get_changes(&target, Some(Dialect { requires_move: true }))
        .unwrap();
    assert_eq!(
        stmts,
        vec![
            Statement::CreateTable(table(
                "temp",
                vec![col("id", "int"), col("name", "text")],
                vec![],
            )),
            Statement::InsertSelect {
                sql: "INSERT INTO temp (id,name) SELECT id,name FROM T;".to_string(),
            },
            Statement::Drop { name: "T".to_string(), cascade: false },
            Statement::Rename { name: "temp".to_string(), to: "T".to_string() },
        ]
    );
}

#[test]
fn rebuild_on_column_type_change() {
    let current = table("T", vec![col("id", "int"), col("name", "text")], vec![]);
    let target = table("T", vec![col("id", "int"), col("name", "varchar(50)")], vec![]);
    // change_col forces the rebuild path even though the dialect does not
    // require the move strategy
    let stmts = current
        .get_changes(&target, Some(Dialect { requires_move: false }))
        .unwrap();
    assert_eq!(
        stmts,
        vec![
            Statement::CreateTable(table(
                "temp",
                vec![col("id", "int"), col("name", "varchar(50)")],
                vec![],
            )),
            Statement::InsertSelect {
                sql: "INSERT INTO temp (id,name) SELECT id,name FROM T;".to_string(),
            },
            Statement::Drop { name: "T".to_string(), cascade: true },
            Statement::Rename { name: "temp".to_string(), to: "T".to_string() },
        ]
    );
}

#[test]
fn self_diff_is_empty() {
    let uq = cons(Some("uq_name"), ConstraintKind::Unique, &["name"]);
    let t = table("T", vec![col("id", "int"), col("name", "text")], vec![uq]);
    let (del, chg, cre) = t.col_changes(&t);
    assert!(del.is_empty());
    assert!(chg.is_empty());
    assert!(cre.is_empty());
    let (del_cons, cre_cons) = t.constrs_changes(&t);
    assert!(del_cons.is_empty());
    assert!(cre_cons.is_empty());
    let stmts = t
        .get_changes(&t, Some(Dialect { requires_move: false }))
        .unwrap();
    assert!(stmts.is_empty());
}

#[test]
fn direct_path_order() {
    let old_cons = cons(Some("uq_a"), ConstraintKind::Unique, &["a"]);
    let new_cons = cons(Some("uq_b"), ConstraintKind::Unique, &["b"]);
    let current = table("T", vec![col("id", "int"), col("a", "int")], vec![old_cons]);
    let target = table("T", vec![col("id", "int"), col("b", "int")], vec![new_cons.clone()]);
    let stmts = current
        .get_changes(&target, Some(Dialect { requires_move: false }))
        .unwrap();
    assert_eq!(
        stmts,
        vec![
            Statement::AlterTable {
                table: "T".to_string(),
                op: AlterTableOp::DropConstraint {
                    name: "uq_a".to_string(),
                    cascade: true,
                    restrict: false,
                },
            },
            Statement::AlterTable {
                table: "T".to_string(),
                op: AlterTableOp::DropColumn {
                    name: "a".to_string(),
                    if_exists: false,
                    cascade: true,
                },
            },
            Statement::AlterTable {
                table: "T".to_string(),
                op: AlterTableOp::AddColumn(col("b", "int")),
            },
            Statement::AlterTable {
                table: "T".to_string(),
                op: AlterTableOp::AddConstraint(new_cons),
            },
        ]
    );
}

#[test]
fn dialect_missing_error() {
    let t = table("T", vec![col("id", "int")], vec![]);
    assert_eq!(t.get_changes(&t, None), Err(SchemaError::DialectConfiguration));
}

#[test]
fn unnamed_constraint_error() {
    let anon = cons(None, ConstraintKind::Check, &["id"]);
    let current = table("T", vec![col("id", "int")], vec![anon]);
    let target = table("T", vec![col("id", "int")], vec![]);
    let r = current.get_changes(&target, Some(Dialect { requires_move: false }));
    assert_eq!(r, Err(SchemaError::NameResolution));
}

#[test]
fn statement_construction_error() {
    // an empty table name renders copy text that no SQL parser accepts
    let current = table("", vec![col("id", "int")], vec![]);
    let target = table("", vec![col("id", "bigint")], vec![]);
    let r = current.get_changes(&target, Some(Dialect { requires_move: false }));
    assert_eq!(r, Err(SchemaError::StatementConstruction));
}

#[test]
fn disjoint_diff_complete() {
    let current = table("T", vec![col("a", "int"), col("b", "int")], vec![]);
    let target = table("T", vec![col("c", "int")], vec![]);
    let (del, chg, cre) = current.col_changes(&target);
    assert_eq!(del, vec![col("a", "int"), col("b", "int")]);
    assert!(chg.is_empty());
    assert_eq!(cre, vec![col("c", "int")]);
}

#[test]
fn modified_column_in_change_and_create() {
    // the raw classifier records a modified column in both "change" and
    // "create"; consumers give "change" priority
    let current = table("T", vec![col("a", "int")], vec![]);
    let target = table("T", vec![col("a", "text")], vec![]);
    let (del, chg, cre) = current.col_changes(&target);
    assert!(del.is_empty());
    assert_eq!(chg, vec![col("a", "text")]);
    assert_eq!(cre, vec![col("a", "text")]);
}

#[test]
fn constraint_change_folds() {
    let old_c = cons(Some("ck"), ConstraintKind::Check, &["a"]);
    let new_c = cons(Some("ck"), ConstraintKind::Check, &["a", "b"]);
    let current = table("T", vec![col("a", "int"), col("b", "int")], vec![old_c]);
    let target = table("T", vec![col("a", "int"), col("b", "int")], vec![new_c.clone()]);
    let (del_cons, cre_cons) = current.constrs_changes(&target);
    assert_eq!(del_cons, vec![new_c.clone()]);
    assert_eq!(cre_cons, vec![new_c]);
}

#[test]
fn crud_membership() {
    let a = cons(Some("a"), ConstraintKind::Unique, &["x"]);
    let b = cons(Some("b"), ConstraintKind::Unique, &["y"]);
    let c = cons(Some("c"), ConstraintKind::Check, &["z"]);
    let crud: CRUD<TableConstraint> = CRUD {
        create: vec![&a],
        delete: vec![&b],
        update: vec![&c],
        keep: vec![],
    };
    assert!(crud.to_delete(&b));
    assert!(!crud.to_delete(&a));
    assert!(crud._to_update(&c));
    assert!(!crud._to_update(&b));
    assert!(crud._to_create(&a));
    assert!(!crud._to_create(&c));
}

#[test]
fn cols_to_string_joins() {
    let t = table("T", vec![col("id", "int"), col("name", "text"), col("age", "int")], vec![]);
    assert_eq!(t.cols_to_string(), "id,name,age");
    let empty = table("E", vec![], vec![]);
    assert_eq!(empty.cols_to_string(), "");
}

#[test]
fn unnamed_names_not_equal() {
    // fails closed: a constraint that cannot yield a name equals nothing,
    // itself included
    let anon = cons(None, ConstraintKind::Check, &["id"]);
    assert!(!anon.names_are_equal(&anon));
    assert!(!anon.are_equal(&anon));
    assert!(anon.bodies_are_equal(&anon));
}
