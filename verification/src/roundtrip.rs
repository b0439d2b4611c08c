use vstd::prelude::*;

use crate::compare::entity_eq;
use crate::compare::names_eq;
use crate::diff::change_seq;
use crate::diff::delete_seq;
use crate::laws::lemma_round_trip_columns;
use crate::laws::lemma_round_trip_constraints;
use crate::laws::unique_cons_names;
use crate::plan::apply_by_name;
use crate::plan::folded_cre_cons;
use crate::plan::folded_del_cons;
use crate::plan::direct_path_stmts;
use crate::plan::move_new_table;
use crate::plan::move_path_stmts;
use crate::plan::new_create_cols;
use crate::plan::unique_col_names;
use crate::schema::Column;
use crate::diff::has_name_match;
use crate::diff::new_names_only;
use crate::plan::add_col_stmts;
use crate::plan::add_cons_stmts;
use crate::plan::all_named;
use crate::plan::drop_col_stmts;
use crate::plan::drop_cons_stmts;
use crate::plan::has_col_name;
use crate::plan::keep_unnamed;
use crate::schema::ColumnV;
use crate::schema::TableConstraint;
use crate::schema::ConstraintV;
use crate::schema::TableV;
use crate::statement::AlterOpV;
use crate::statement::StmtV;

verus! {

/// The columns of `cols` not named `n`, in order.
pub open spec fn cols_without(cols: Seq<ColumnV>, n: Seq<char>) -> Seq<ColumnV>
    decreases cols.len(),
{
    if cols.len() == 0 {
        Seq::empty()
    } else {
        cols_without(cols.drop_last(), n) + (if cols.last().name == n {
            Seq::empty()
        } else {
            seq![cols.last()]
        })
    }
}

/// The constraints of `cons` not named `n`, in order.
pub open spec fn cons_without(cons: Seq<ConstraintV>, n: Seq<char>) -> Seq<ConstraintV>
    decreases cons.len(),
{
    if cons.len() == 0 {
        Seq::empty()
    } else {
        cons_without(cons.drop_last(), n) + (if cons.last().name == Some(n) {
            Seq::empty()
        } else {
            seq![cons.last()]
        })
    }
}

/// What one alteration does to a table's structure.
pub open spec fn apply_op(t: TableV, op: AlterOpV) -> TableV {
    match op {
        AlterOpV::AddColumn(c) => TableV {
            name: t.name,
            columns: t.columns.push(c),
            constraints: t.constraints,
        },
        AlterOpV::DropColumn { name, .. } => TableV {
            name: t.name,
            columns: cols_without(t.columns, name),
            constraints: t.constraints,
        },
        AlterOpV::AddConstraint(c) => TableV {
            name: t.name,
            columns: t.columns,
            constraints: t.constraints.push(c),
        },
        AlterOpV::DropConstraint { name, .. } => TableV {
            name: t.name,
            columns: t.columns,
            constraints: cons_without(t.constraints, name),
        },
    }
}

/// What one statement does to a schema: a map from table names to tables.
/// The copy statement moves rows, not structure, so it leaves the schema
/// unchanged.
pub open spec fn apply_stmt(m: Map<Seq<char>, TableV>, s: StmtV) -> Map<Seq<char>, TableV> {
    match s {
        StmtV::CreateTable(t) => m.insert(t.name, t),
        StmtV::AlterTable { table, op } => if m.dom().contains(table) {
            m.insert(table, apply_op(m[table], op))
        } else {
            m
        },
        StmtV::Drop { name, .. } => m.remove(name),
        StmtV::Rename { name, to } => if m.dom().contains(name) {
            m.remove(name).insert(
                to,
                TableV { name: to, columns: m[name].columns, constraints: m[name].constraints },
            )
        } else {
            m
        },
        StmtV::InsertSelect { .. } => m,
    }
}

/// A statement sequence applied in order.
pub open spec fn apply_stmts(m: Map<Seq<char>, TableV>, ss: Seq<StmtV>) -> Map<Seq<char>, TableV>
    decreases ss.len(),
{
    if ss.len() == 0 {
        m
    } else {
        apply_stmts(apply_stmt(m, ss.first()), ss.drop_first())
    }
}

/// Applying a concatenation applies the parts in turn.
pub proof fn lemma_apply_stmts_concat(m: Map<Seq<char>, TableV>, s1: Seq<StmtV>, s2: Seq<StmtV>)
    ensures
        apply_stmts(m, s1 + s2) == apply_stmts(apply_stmts(m, s1), s2),
    decreases s1.len(),
{
    if s1.len() == 0 {
        assert(s1 + s2 =~= s2);
    } else {
        assert((s1 + s2).first() == s1.first());
        assert((s1 + s2).drop_first() =~= s1.drop_first() + s2);
        lemma_apply_stmts_concat(apply_stmt(m, s1.first()), s1.drop_first(), s2);
    }
}


proof fn lemma_apply_add_cols(m: Map<Seq<char>, TableV>, n: Seq<char>, cols: Seq<ColumnV>)
    requires
        m.dom().contains(n),
    ensures
        apply_stmts(m, add_col_stmts(n, cols)) == m.insert(
            n,
            TableV {
                name: m[n].name,
                columns: m[n].columns + cols,
                constraints: m[n].constraints,
            },
        ),
    decreases cols.len(),
{
    if cols.len() == 0 {
        assert(m[n].columns + cols =~= m[n].columns);
        assert(m.insert(
            n,
            TableV { name: m[n].name, columns: m[n].columns, constraints: m[n].constraints },
        ) =~= m);
    } else {
        lemma_apply_add_cols(m, n, cols.drop_last());
        let pre = add_col_stmts(n, cols.drop_last());
        let st = StmtV::AlterTable { table: n, op: AlterOpV::AddColumn(cols.last()) };
        lemma_apply_stmts_concat(m, pre, seq![st]);
        let m1 = apply_stmts(m, pre);
        let estmts = seq![st].drop_first();
        assert(estmts.len() == 0);
        assert(apply_stmts(apply_stmt(m1, st), estmts) == apply_stmt(m1, st));
        assert(seq![st].first() == st);
        assert(apply_stmts(m1, seq![st]) == apply_stmts(apply_stmt(m1, st), estmts));
        assert(apply_stmts(m1, seq![st]) == apply_stmt(m1, st));
        assert(m1[n].columns.push(cols.last()) =~= m[n].columns + cols);
        assert(apply_stmt(m1, st) =~= m.insert(
            n,
            TableV { name: m[n].name, columns: m[n].columns + cols, constraints: m[n].constraints },
        ));
    }
}

proof fn lemma_apply_add_cons(m: Map<Seq<char>, TableV>, n: Seq<char>, cons: Seq<ConstraintV>)
    requires
        m.dom().contains(n),
    ensures
        apply_stmts(m, add_cons_stmts(n, cons)) == m.insert(
            n,
            TableV {
                name: m[n].name,
                columns: m[n].columns,
                constraints: m[n].constraints + cons,
            },
        ),
    decreases cons.len(),
{
    if cons.len() == 0 {
        assert(m[n].constraints + cons =~= m[n].constraints);
        assert(m.insert(
            n,
            TableV { name: m[n].name, columns: m[n].columns, constraints: m[n].constraints },
        ) =~= m);
    } else {
        lemma_apply_add_cons(m, n, cons.drop_last());
        let pre = add_cons_stmts(n, cons.drop_last());
        let st = StmtV::AlterTable { table: n, op: AlterOpV::AddConstraint(cons.last()) };
        lemma_apply_stmts_concat(m, pre, seq![st]);
        let m1 = apply_stmts(m, pre);
        let estmts = seq![st].drop_first();
        assert(estmts.len() == 0);
        assert(apply_stmts(apply_stmt(m1, st), estmts) == apply_stmt(m1, st));
        assert(seq![st].first() == st);
        assert(apply_stmts(m1, seq![st]) == apply_stmts(apply_stmt(m1, st), estmts));
        assert(apply_stmts(m1, seq![st]) == apply_stmt(m1, st));
        assert(m1[n].constraints.push(cons.last()) =~= m[n].constraints + cons);
        assert(apply_stmt(m1, st) =~= m.insert(
            n,
            TableV {
                name: m[n].name,
                columns: m[n].columns,
                constraints: m[n].constraints + cons,
            },
        ));
    }
}

proof fn lemma_cols_filter_compose(cols: Seq<ColumnV>, dels: Seq<ColumnV>)
    requires
        dels.len() > 0,
    ensures
        cols_without(keep_unnamed(cols, dels.drop_last()), dels.last().name) == keep_unnamed(
            cols,
            dels,
        ),
    decreases cols.len(),
{
    if cols.len() > 0 {
        lemma_cols_filter_compose(cols.drop_last(), dels);
        let c = cols.last();
        let a = keep_unnamed(cols.drop_last(), dels.drop_last());
        let nlast = dels.last().name;
        if has_col_name(dels.drop_last(), c.name) {
            let k = choose|k: int| 0 <= k < dels.drop_last().len() && dels.drop_last()[k].name == c.name;
            assert(dels[k].name == c.name);
            assert(has_col_name(dels, c.name));
            assert(keep_unnamed(cols, dels.drop_last()) =~= a);
            assert(keep_unnamed(cols, dels) =~= keep_unnamed(cols.drop_last(), dels));
        } else {
            assert(keep_unnamed(cols, dels.drop_last()) =~= a + seq![c]);
            assert((a + seq![c]).drop_last() =~= a);
            assert((a + seq![c]).last() == c);
            assert(cols_without(a + seq![c], nlast) == cols_without(a, nlast) + (if c.name
                == nlast {
                Seq::<ColumnV>::empty()
            } else {
                seq![c]
            }));
            if c.name == nlast {
                assert(dels[dels.len() - 1].name == c.name);
                assert(has_col_name(dels, c.name));
                assert(keep_unnamed(cols, dels) =~= keep_unnamed(cols.drop_last(), dels));
                assert(cols_without(keep_unnamed(cols, dels.drop_last()), nlast) =~= keep_unnamed(
                    cols,
                    dels,
                ));
            } else {
                if has_col_name(dels, c.name) {
                    let k = choose|k: int| 0 <= k < dels.len() && dels[k].name == c.name;
                    assert(k < dels.len() - 1);
                    assert(dels.drop_last()[k].name == c.name);
                    assert(false);
                }
                assert(keep_unnamed(cols, dels) =~= keep_unnamed(cols.drop_last(), dels)
                    + seq![c]);
                assert(cols_without(keep_unnamed(cols, dels.drop_last()), nlast) =~= keep_unnamed(
                    cols,
                    dels,
                ));
            }
        }
    } else {
        assert(keep_unnamed(cols, dels.drop_last()) =~= Seq::<ColumnV>::empty());
        assert(keep_unnamed(cols, dels) =~= Seq::<ColumnV>::empty());
    }
}

proof fn lemma_cons_filter_compose(cons: Seq<ConstraintV>, dels: Seq<ConstraintV>)
    requires
        dels.len() > 0,
        forall|k: int| 0 <= k < cons.len() ==> (#[trigger] cons[k].name) is Some,
        dels.last().name is Some,
    ensures
        cons_without(
            new_names_only::<TableConstraint>(cons, dels.drop_last()),
            dels.last().name->0,
        ) == new_names_only::<TableConstraint>(cons, dels),
    decreases cons.len(),
{
    if cons.len() > 0 {
        assert(forall|k: int| 0 <= k < cons.len() - 1 ==> cons.drop_last()[k] == cons[k]);
        lemma_cons_filter_compose(cons.drop_last(), dels);
        let c = cons.last();
        let a = new_names_only::<TableConstraint>(cons.drop_last(), dels.drop_last());
        let nlast = dels.last().name->0;
        assert(c.name is Some);
        if has_name_match::<TableConstraint>(dels.drop_last(), c) {
            let k = choose|k: int|
                0 <= k < dels.drop_last().len() && names_eq::<TableConstraint>(
                    c,
                    dels.drop_last()[k],
                );
            assert(names_eq::<TableConstraint>(c, dels[k]));
            assert(has_name_match::<TableConstraint>(dels, c));
            assert(new_names_only::<TableConstraint>(cons, dels.drop_last()) =~= a);
            assert(new_names_only::<TableConstraint>(cons, dels)
                =~= new_names_only::<TableConstraint>(cons.drop_last(), dels));
        } else {
            assert(new_names_only::<TableConstraint>(cons, dels.drop_last()) =~= a + seq![c]);
            assert((a + seq![c]).drop_last() =~= a);
            assert((a + seq![c]).last() == c);
            assert(cons_without(a + seq![c], nlast) == cons_without(a, nlast) + (if c.name
                == Some(nlast) {
                Seq::<ConstraintV>::empty()
            } else {
                seq![c]
            }));
            if c.name == Some(nlast) {
                assert(names_eq::<TableConstraint>(c, dels[dels.len() - 1]));
                assert(has_name_match::<TableConstraint>(dels, c));
                assert(new_names_only::<TableConstraint>(cons, dels)
                    =~= new_names_only::<TableConstraint>(cons.drop_last(), dels));
                assert(cons_without(
                    new_names_only::<TableConstraint>(cons, dels.drop_last()),
                    nlast,
                ) =~= new_names_only::<TableConstraint>(cons, dels));
            } else {
                if has_name_match::<TableConstraint>(dels, c) {
                    let k = choose|k: int|
                        0 <= k < dels.len() && names_eq::<TableConstraint>(c, dels[k]);
                    if k == dels.len() - 1 {
                        assert(c.name == dels.last().name);
                        assert(false);
                    }
                    assert(names_eq::<TableConstraint>(c, dels.drop_last()[k]));
                    assert(false);
                }
                assert(new_names_only::<TableConstraint>(cons, dels)
                    =~= new_names_only::<TableConstraint>(cons.drop_last(), dels) + seq![c]);
                assert(cons_without(
                    new_names_only::<TableConstraint>(cons, dels.drop_last()),
                    nlast,
                ) =~= new_names_only::<TableConstraint>(cons, dels));
            }
        }
    } else {
        assert(new_names_only::<TableConstraint>(cons, dels.drop_last())
            =~= Seq::<ConstraintV>::empty());
        assert(new_names_only::<TableConstraint>(cons, dels) =~= Seq::<ConstraintV>::empty());
    }
}

proof fn lemma_apply_drop_cols(m: Map<Seq<char>, TableV>, n: Seq<char>, dels: Seq<ColumnV>)
    requires
        m.dom().contains(n),
    ensures
        apply_stmts(m, drop_col_stmts(n, dels)) == m.insert(
            n,
            TableV {
                name: m[n].name,
                columns: keep_unnamed(m[n].columns, dels),
                constraints: m[n].constraints,
            },
        ),
    decreases dels.len(),
{
    if dels.len() == 0 {
        crate::plan::lemma_keep_unnamed_all_pub(m[n].columns, dels);
        assert(m.insert(
            n,
            TableV {
                name: m[n].name,
                columns: keep_unnamed(m[n].columns, dels),
                constraints: m[n].constraints,
            },
        ) =~= m);
    } else {
        lemma_apply_drop_cols(m, n, dels.drop_last());
        let pre = drop_col_stmts(n, dels.drop_last());
        let st = StmtV::AlterTable {
            table: n,
            op: AlterOpV::DropColumn { name: dels.last().name, if_exists: false, cascade: true },
        };
        lemma_apply_stmts_concat(m, pre, seq![st]);
        let m1 = apply_stmts(m, pre);
        let estmts = seq![st].drop_first();
        assert(estmts.len() == 0);
        assert(apply_stmts(apply_stmt(m1, st), estmts) == apply_stmt(m1, st));
        assert(seq![st].first() == st);
        assert(apply_stmts(m1, seq![st]) == apply_stmts(apply_stmt(m1, st), estmts));
        assert(apply_stmts(m1, seq![st]) == apply_stmt(m1, st));
        lemma_cols_filter_compose(m[n].columns, dels);
        assert(apply_stmt(m1, st) =~= m.insert(
            n,
            TableV {
                name: m[n].name,
                columns: keep_unnamed(m[n].columns, dels),
                constraints: m[n].constraints,
            },
        ));
    }
}

proof fn lemma_apply_drop_cons(m: Map<Seq<char>, TableV>, n: Seq<char>, dels: Seq<ConstraintV>)
    requires
        m.dom().contains(n),
        forall|k: int| 0 <= k < m[n].constraints.len() ==> (#[trigger] m[n].constraints[k].name) is Some,
        all_named(dels),
    ensures
        apply_stmts(m, drop_cons_stmts(n, dels)) == m.insert(
            n,
            TableV {
                name: m[n].name,
                columns: m[n].columns,
                constraints: new_names_only::<TableConstraint>(m[n].constraints, dels),
            },
        ),
    decreases dels.len(),
{
    if dels.len() == 0 {
        lemma_new_names_only_none(m[n].constraints, dels);
        assert(m.insert(
            n,
            TableV {
                name: m[n].name,
                columns: m[n].columns,
                constraints: new_names_only::<TableConstraint>(m[n].constraints, dels),
            },
        ) =~= m);
    } else {
        assert(forall|k: int| 0 <= k < dels.len() - 1 ==> dels.drop_last()[k] == dels[k]);
        lemma_apply_drop_cons(m, n, dels.drop_last());
        let pre = drop_cons_stmts(n, dels.drop_last());
        let st = StmtV::AlterTable {
            table: n,
            op: AlterOpV::DropConstraint {
                name: dels.last().name->0,
                cascade: true,
                restrict: false,
            },
        };
        lemma_apply_stmts_concat(m, pre, seq![st]);
        let m1 = apply_stmts(m, pre);
        let estmts = seq![st].drop_first();
        assert(estmts.len() == 0);
        assert(apply_stmts(apply_stmt(m1, st), estmts) == apply_stmt(m1, st));
        assert(seq![st].first() == st);
        assert(apply_stmts(m1, seq![st]) == apply_stmts(apply_stmt(m1, st), estmts));
        assert(apply_stmts(m1, seq![st]) == apply_stmt(m1, st));
        lemma_cons_filter_compose(m[n].constraints, dels);
        assert(apply_stmt(m1, st) =~= m.insert(
            n,
            TableV {
                name: m[n].name,
                columns: m[n].columns,
                constraints: new_names_only::<TableConstraint>(m[n].constraints, dels),
            },
        ));
    }
}

proof fn lemma_new_names_only_none(cons: Seq<ConstraintV>, dels: Seq<ConstraintV>)
    requires
        dels.len() == 0,
    ensures
        new_names_only::<TableConstraint>(cons, dels) == cons,
    decreases cons.len(),
{
    if cons.len() > 0 {
        lemma_new_names_only_none(cons.drop_last(), dels);
        assert(new_names_only::<TableConstraint>(cons, dels) =~= cons);
    }
}


/// Two tables with the same structure, entity by entity: every column and
/// constraint of each has an equal (same name, same body) counterpart in
/// the other.
pub open spec fn tables_equivalent(x: TableV, y: TableV) -> bool {
    &&& forall|i: int|
        0 <= i < x.columns.len() ==> exists|j: int|
            0 <= j < y.columns.len() && entity_eq::<Column>(#[trigger] x.columns[i], y.columns[j])
    &&& forall|j: int|
        0 <= j < y.columns.len() ==> exists|i: int|
            0 <= i < x.columns.len() && entity_eq::<Column>(x.columns[i], #[trigger] y.columns[j])
    &&& forall|i: int|
        0 <= i < x.constraints.len() ==> exists|j: int|
            0 <= j < y.constraints.len() && entity_eq::<TableConstraint>(
                #[trigger] x.constraints[i],
                y.constraints[j],
            )
    &&& forall|j: int|
        0 <= j < y.constraints.len() ==> exists|i: int|
            0 <= i < x.constraints.len() && entity_eq::<TableConstraint>(
                x.constraints[i],
                #[trigger] y.constraints[j],
            )
}

/// Round trip of the rebuild path: applying the emitted statement sequence
/// to a schema holding only the current table leaves a schema holding only
/// a table of the same name whose structure equals the target's, entity by
/// entity. Names must be unique on each side, every constraint must yield
/// one, and the current table must not itself be named "temp", the working
/// name the rebuild reserves.
pub proof fn lemma_round_trip_move(a: TableV, b: TableV, requires_move: bool)
    requires
        unique_col_names(a.columns),
        unique_col_names(b.columns),
        forall|k: int| 0 <= k < a.constraints.len() ==> (#[trigger] a.constraints[k].name) is Some,
        forall|k: int| 0 <= k < b.constraints.len() ==> (#[trigger] b.constraints[k].name) is Some,
        unique_cons_names(a.constraints),
        unique_cons_names(b.constraints),
        a.name != "temp"@,
    ensures
        ({
            let start = Map::<Seq<char>, TableV>::empty().insert(a.name, a);
            let done = apply_stmts(start, move_path_stmts(a, b, requires_move));
            &&& done.dom() == Set::<Seq<char>>::empty().insert(a.name)
            &&& tables_equivalent(done[a.name], b)
        }),
{
    let start = Map::<Seq<char>, TableV>::empty().insert(a.name, a);
    let new_v = move_new_table(a, b);
    let old_v = crate::plan::move_old_table(a, b);
    let news = new_create_cols(a, b);
    let st1 = StmtV::CreateTable(new_v);
    let st2 = StmtV::InsertSelect { sql: crate::sqltext::move_sql(new_v, old_v) };
    let st3 = StmtV::Drop { name: a.name, cascade: !requires_move };
    let st4 = StmtV::Rename { name: "temp"@, to: a.name };
    let s4 = seq![st1, st2, st3, st4];
    assert(move_path_stmts(a, b, requires_move) == s4 + add_col_stmts(a.name, news));
    lemma_apply_stmts_concat(start, s4, add_col_stmts(a.name, news));
    assert(new_v.name == "temp"@);
    let m1 = apply_stmt(start, st1);
    assert(m1 == start.insert("temp"@, new_v));
    let m2 = apply_stmt(m1, st2);
    assert(m2 == m1);
    let m3 = apply_stmt(m2, st3);
    assert(m3 == m1.remove(a.name));
    assert(m3.dom().contains("temp"@));
    assert(m3["temp"@] == new_v);
    let m4 = apply_stmt(m3, st4);
    let renamed = TableV { name: a.name, columns: new_v.columns, constraints: new_v.constraints };
    assert(m4 =~= Map::<Seq<char>, TableV>::empty().insert(a.name, renamed));
    assert(s4.first() == st1);
    assert(s4.drop_first() =~= seq![st2, st3, st4]);
    assert(seq![st2, st3, st4].first() == st2);
    assert(seq![st2, st3, st4].drop_first() =~= seq![st3, st4]);
    assert(seq![st3, st4].first() == st3);
    assert(seq![st3, st4].drop_first() =~= seq![st4]);
    assert(seq![st4].first() == st4);
    assert(seq![st4].drop_first() =~= Seq::<StmtV>::empty());
    assert(apply_stmts(m4, Seq::<StmtV>::empty()) == m4);
    assert(apply_stmts(m3, seq![st4]) == m4);
    assert(apply_stmts(m2, seq![st3, st4]) == m4);
    assert(apply_stmts(m1, seq![st2, st3, st4]) == m4);
    assert(apply_stmts(start, s4) == m4);
    lemma_apply_add_cols(m4, a.name, news);
    let done = apply_stmts(start, move_path_stmts(a, b, requires_move));
    assert(done == m4.insert(
        a.name,
        TableV {
            name: a.name,
            columns: new_v.columns + news,
            constraints: new_v.constraints,
        },
    ));
    assert(done.dom() =~= Set::<Seq<char>>::empty().insert(a.name));
    crate::plan::lemma_diff_feeds_rebuild(a.columns, b.columns);
    let dels = delete_seq::<Column>(a.columns, b.columns);
    let chs = change_seq::<Column>(a.columns, b.columns);
    let kept = crate::plan::keep_unnamed(a.columns, dels);
    assert(new_v.columns == apply_by_name(kept, chs));
    lemma_round_trip_columns(a, b);
    lemma_round_trip_constraints(a, b);
    assert(done[a.name].columns == apply_by_name(kept, chs) + news);
    assert(done[a.name].constraints == new_names_only::<TableConstraint>(
        a.constraints,
        folded_del_cons(a, b),
    ) + folded_cre_cons(a, b));
    assert(tables_equivalent(done[a.name], b));
}

/// Round trip of the direct path: applying its statement sequence — taken
/// only when no column body changed — to a schema holding the current table
/// leaves that table with the target's structure, entity by entity, under
/// the same naming conditions.
pub proof fn lemma_round_trip_direct(a: TableV, b: TableV)
    requires
        unique_col_names(a.columns),
        unique_col_names(b.columns),
        forall|k: int| 0 <= k < a.constraints.len() ==> (#[trigger] a.constraints[k].name) is Some,
        forall|k: int| 0 <= k < b.constraints.len() ==> (#[trigger] b.constraints[k].name) is Some,
        unique_cons_names(a.constraints),
        unique_cons_names(b.constraints),
        change_seq::<Column>(a.columns, b.columns).len() == 0,
    ensures
        ({
            let start = Map::<Seq<char>, TableV>::empty().insert(a.name, a);
            let done = apply_stmts(start, direct_path_stmts(a, b));
            &&& done.dom() == Set::<Seq<char>>::empty().insert(a.name)
            &&& tables_equivalent(done[a.name], b)
        }),
{
    let start = Map::<Seq<char>, TableV>::empty().insert(a.name, a);
    let dels = delete_seq::<Column>(a.columns, b.columns);
    let chs = change_seq::<Column>(a.columns, b.columns);
    let news = new_create_cols(a, b);
    let fdel = folded_del_cons(a, b);
    let fcre = folded_cre_cons(a, b);
    let seg1 = drop_cons_stmts(a.name, fdel);
    let seg2 = drop_col_stmts(a.name, dels);
    let seg3 = add_col_stmts(a.name, news);
    let seg4 = add_cons_stmts(a.name, fcre);
    assert(direct_path_stmts(a, b) == seg1 + seg2 + seg3 + seg4);
    lemma_apply_stmts_concat(start, seg1 + seg2 + seg3, seg4);
    lemma_apply_stmts_concat(start, seg1 + seg2, seg3);
    lemma_apply_stmts_concat(start, seg1, seg2);
    // every folded constraint deletion bears a name
    crate::diff::lemma_delete_seq_elems_all::<TableConstraint>(a.constraints, b.constraints);
    crate::laws::lemma_cons_change_named(a.constraints, b.constraints);
    assert forall|k: int| 0 <= k < fdel.len() implies (#[trigger] fdel[k].name) is Some by {
        let dcs = delete_seq::<TableConstraint>(a.constraints, b.constraints);
        if k < dcs.len() {
            assert(fdel[k] == dcs[k]);
            let j = choose|j: int|
                0 <= j < a.constraints.len() && a.constraints[j] == dcs[k];
        } else {
            assert(fdel[k] == change_seq::<TableConstraint>(a.constraints, b.constraints)[k
                - dcs.len()]);
        }
    }
    lemma_apply_drop_cons(start, a.name, fdel);
    let m1 = apply_stmts(start, seg1);
    assert(m1 == start.insert(
        a.name,
        TableV {
            name: a.name,
            columns: a.columns,
            constraints: new_names_only::<TableConstraint>(a.constraints, fdel),
        },
    ));
    lemma_apply_drop_cols(m1, a.name, dels);
    let m2 = apply_stmts(m1, seg2);
    assert(m2 == m1.insert(
        a.name,
        TableV {
            name: a.name,
            columns: keep_unnamed(a.columns, dels),
            constraints: new_names_only::<TableConstraint>(a.constraints, fdel),
        },
    ));
    lemma_apply_add_cols(m2, a.name, news);
    let m3 = apply_stmts(m2, seg3);
    lemma_apply_add_cons(m3, a.name, fcre);
    let m4 = apply_stmts(m3, seg4);
    let done = apply_stmts(start, direct_path_stmts(a, b));
    assert(done == m4);
    assert(m4 =~= Map::<Seq<char>, TableV>::empty().insert(
        a.name,
        TableV {
            name: a.name,
            columns: keep_unnamed(a.columns, dels) + news,
            constraints: new_names_only::<TableConstraint>(a.constraints, fdel) + fcre,
        },
    ));
    assert(done.dom() =~= Set::<Seq<char>>::empty().insert(a.name));
    assert(apply_by_name(keep_unnamed(a.columns, dels), chs) =~= keep_unnamed(a.columns, dels));
    lemma_round_trip_columns(a, b);
    lemma_round_trip_constraints(a, b);
    assert(done[a.name].columns == apply_by_name(keep_unnamed(a.columns, dels), chs) + news);
    assert(done[a.name].constraints == new_names_only::<TableConstraint>(a.constraints, fdel)
        + fcre);
    assert(tables_equivalent(done[a.name], b));
}

} // verus!
