use vstd::prelude::*;

use crate::compare::entity_eq;
use crate::compare::modified;
use crate::compare::names_eq;
use crate::compare::Compare;
use crate::diff::change_one;
use crate::diff::change_seq;
use crate::diff::create_seq;
use crate::diff::delete_seq;
use crate::diff::has_equal;
use crate::diff::has_name_match;
use crate::diff::new_names_only;
use crate::plan::apply_by_name;
use crate::plan::direct_path_stmts;
use crate::plan::has_col_name;
use crate::plan::keep_unnamed;
use crate::plan::lemma_diff_feeds_rebuild;
use crate::plan::lemma_first_name_idx;
use crate::plan::move_new_table;
use crate::plan::new_create_cols;
use crate::plan::unique_col_names;
use crate::schema::Column;
use crate::schema::ColumnV;
use crate::schema::ConstraintV;
use crate::schema::TableConstraint;
use crate::schema::TableV;
use crate::statement::AlterOpV;
use crate::statement::StmtV;

verus! {

proof fn lemma_change_one_none<T: Compare>(now: Seq<T::V>, t: T::V)
    requires
        forall|k: int| 0 <= k < now.len() ==> !modified::<T>(t, #[trigger] now[k]),
    ensures
        change_one::<T>(now, t) == Seq::<T::V>::empty(),
    decreases now.len(),
{
    if now.len() > 0 {
        assert(forall|k: int| 0 <= k < now.len() - 1 ==> now.drop_last()[k] == now[k]);
        lemma_change_one_none::<T>(now.drop_last(), t);
        assert(change_one::<T>(now, t) =~= Seq::<T::V>::empty());
    }
}

proof fn lemma_change_seq_none<T: Compare>(now: Seq<T::V>, target: Seq<T::V>)
    requires
        forall|i: int, k: int|
            0 <= i < target.len() && 0 <= k < now.len() ==> !modified::<T>(
                #[trigger] target[i],
                #[trigger] now[k],
            ),
    ensures
        change_seq::<T>(now, target) == Seq::<T::V>::empty(),
    decreases target.len(),
{
    if target.len() > 0 {
        assert(forall|i: int| 0 <= i < target.len() - 1 ==> target.drop_last()[i] == target[i]);
        lemma_change_seq_none::<T>(now, target.drop_last());
        lemma_change_one_none::<T>(now, target.last());
        assert(change_seq::<T>(now, target) =~= Seq::<T::V>::empty());
    }
}

proof fn lemma_create_seq_none<T: Compare>(now: Seq<T::V>, target: Seq<T::V>)
    requires
        forall|i: int| 0 <= i < target.len() ==> has_equal::<T>(now, #[trigger] target[i]),
    ensures
        create_seq::<T>(now, target) == Seq::<T::V>::empty(),
    decreases target.len(),
{
    if target.len() > 0 {
        assert(forall|i: int| 0 <= i < target.len() - 1 ==> target.drop_last()[i] == target[i]);
        lemma_create_seq_none::<T>(now, target.drop_last());
        assert(create_seq::<T>(now, target) =~= Seq::<T::V>::empty());
    }
}

proof fn lemma_delete_seq_none<T: Compare>(now: Seq<T::V>, target: Seq<T::V>)
    requires
        forall|k: int| 0 <= k < now.len() ==> has_name_match::<T>(target, #[trigger] now[k]),
    ensures
        delete_seq::<T>(now, target) == Seq::<T::V>::empty(),
    decreases now.len(),
{
    if now.len() > 0 {
        assert(forall|k: int| 0 <= k < now.len() - 1 ==> now.drop_last()[k] == now[k]);
        lemma_delete_seq_none::<T>(now.drop_last(), target);
        assert(delete_seq::<T>(now, target) =~= Seq::<T::V>::empty());
    }
}

proof fn lemma_create_seq_all<T: Compare>(now: Seq<T::V>, target: Seq<T::V>)
    requires
        forall|i: int| 0 <= i < target.len() ==> !has_equal::<T>(now, #[trigger] target[i]),
    ensures
        create_seq::<T>(now, target) == target,
    decreases target.len(),
{
    if target.len() > 0 {
        assert(forall|i: int| 0 <= i < target.len() - 1 ==> target.drop_last()[i] == target[i]);
        lemma_create_seq_all::<T>(now, target.drop_last());
        assert(create_seq::<T>(now, target) =~= target);
    }
}

proof fn lemma_delete_seq_all<T: Compare>(now: Seq<T::V>, target: Seq<T::V>)
    requires
        forall|k: int| 0 <= k < now.len() ==> !has_name_match::<T>(target, #[trigger] now[k]),
    ensures
        delete_seq::<T>(now, target) == now,
    decreases now.len(),
{
    if now.len() > 0 {
        assert(forall|k: int| 0 <= k < now.len() - 1 ==> now.drop_last()[k] == now[k]);
        lemma_delete_seq_all::<T>(now.drop_last(), target);
        assert(delete_seq::<T>(now, target) =~= now);
    }
}

/// Idempotence: diffing a table against itself classifies nothing — the
/// delete, change and create sets are empty for both columns and
/// constraints. This holds when names are unique and every constraint can
/// yield a name; an unnamed constraint is treated as distinct from
/// everything, itself included, and would land in both delete and create.
pub proof fn lemma_diff_idempotent(t: TableV)
    requires
        unique_col_names(t.columns),
        forall|k: int| 0 <= k < t.constraints.len() ==> (#[trigger] t.constraints[k].name) is Some,
        forall|k1: int, k2: int|
            0 <= k1 < k2 < t.constraints.len() ==> t.constraints[k1].name != t.constraints[k2].name,
    ensures
        delete_seq::<Column>(t.columns, t.columns) == Seq::<ColumnV>::empty(),
        change_seq::<Column>(t.columns, t.columns) == Seq::<ColumnV>::empty(),
        create_seq::<Column>(t.columns, t.columns) == Seq::<ColumnV>::empty(),
        delete_seq::<TableConstraint>(t.constraints, t.constraints) == Seq::<ConstraintV>::empty(),
        change_seq::<TableConstraint>(t.constraints, t.constraints) == Seq::<ConstraintV>::empty(),
        create_seq::<TableConstraint>(t.constraints, t.constraints) == Seq::<ConstraintV>::empty(),
{
    let cols = t.columns;
    let cons = t.constraints;
    assert forall|i: int, k: int|
        0 <= i < cols.len() && 0 <= k < cols.len() implies !modified::<Column>(
        #[trigger] cols[i],
        #[trigger] cols[k],
    ) by {
        if names_eq::<Column>(cols[i], cols[k]) {
            assert(cols[i].name == cols[k].name);
            assert(i == k);
        }
    }
    lemma_change_seq_none::<Column>(cols, cols);
    assert(forall|i: int| 0 <= i < cols.len() ==> entity_eq::<Column>(cols[i], #[trigger] cols[i]));
    lemma_create_seq_none::<Column>(cols, cols);
    assert(forall|i: int|
        0 <= i < cols.len() ==> names_eq::<Column>(#[trigger] cols[i], cols[i]));
    lemma_delete_seq_none::<Column>(cols, cols);
    assert forall|i: int, k: int|
        0 <= i < cons.len() && 0 <= k < cons.len() implies !modified::<TableConstraint>(
        #[trigger] cons[i],
        #[trigger] cons[k],
    ) by {
        if names_eq::<TableConstraint>(cons[i], cons[k]) {
            if i != k {
                assert(cons[i].name != cons[k].name || cons[k].name != cons[i].name);
                assert(false);
            }
        }
    }
    lemma_change_seq_none::<TableConstraint>(cons, cons);
    assert(forall|i: int|
        0 <= i < cons.len() ==> entity_eq::<TableConstraint>(cons[i], #[trigger] cons[i]));
    lemma_create_seq_none::<TableConstraint>(cons, cons);
    assert(forall|i: int|
        0 <= i < cons.len() ==> names_eq::<TableConstraint>(#[trigger] cons[i], cons[i]));
    lemma_delete_seq_none::<TableConstraint>(cons, cons);
}

/// Completeness on name-disjoint inputs: when no current entity shares a
/// name with any target entity, the change set is empty, every target
/// entity is created — each exactly once, in target order — and every
/// current entity is deleted.
pub proof fn lemma_diff_completeness<T: Compare>(now: Seq<T::V>, target: Seq<T::V>)
    requires
        forall|i: int, j: int|
            0 <= i < now.len() && 0 <= j < target.len() ==> !names_eq::<T>(
                #[trigger] now[i],
                #[trigger] target[j],
            ),
    ensures
        change_seq::<T>(now, target) == Seq::<T::V>::empty(),
        create_seq::<T>(now, target) == target,
        delete_seq::<T>(now, target) == now,
{
    assert forall|j: int, k: int|
        0 <= j < target.len() && 0 <= k < now.len() implies !modified::<T>(
        #[trigger] target[j],
        #[trigger] now[k],
    ) by {
        assert(!names_eq::<T>(now[k], target[j]));
    }
    lemma_change_seq_none::<T>(now, target);
    assert forall|j: int| 0 <= j < target.len() implies !has_equal::<T>(
        now,
        #[trigger] target[j],
    ) by {
        if has_equal::<T>(now, target[j]) {
            let k = choose|k: int| 0 <= k < now.len() && entity_eq::<T>(now[k], target[j]);
            assert(!names_eq::<T>(now[k], target[j]));
            assert(false);
        }
    }
    lemma_create_seq_all::<T>(now, target);
    assert forall|k: int| 0 <= k < now.len() implies !has_name_match::<T>(
        target,
        #[trigger] now[k],
    ) by {
        if has_name_match::<T>(target, now[k]) {
            let j = choose|j: int| 0 <= j < target.len() && names_eq::<T>(now[k], target[j]);
            assert(false);
        }
    }
    lemma_delete_seq_all::<T>(now, target);
}

/// How late in the direct path's fixed order a statement belongs:
/// constraint drops, then column drops, then column additions, then
/// constraint additions.
pub open spec fn stmt_rank(s: StmtV) -> int {
    match s {
        StmtV::AlterTable { table, op } => match op {
            AlterOpV::DropConstraint { .. } => 0,
            AlterOpV::DropColumn { .. } => 1,
            AlterOpV::AddColumn(_) => 2,
            AlterOpV::AddConstraint(_) => 3,
        },
        _ => 4,
    }
}

proof fn lemma_drop_cons_rank(table: Seq<char>, cons: Seq<ConstraintV>)
    ensures
        forall|m: int|
            0 <= m < crate::plan::drop_cons_stmts(table, cons).len() ==> stmt_rank(
                #[trigger] crate::plan::drop_cons_stmts(table, cons)[m],
            ) == 0,
    decreases cons.len(),
{
    if cons.len() > 0 {
        lemma_drop_cons_rank(table, cons.drop_last());
        let whole = crate::plan::drop_cons_stmts(table, cons);
        let pre = crate::plan::drop_cons_stmts(table, cons.drop_last());
        assert forall|m: int| 0 <= m < whole.len() implies stmt_rank(#[trigger] whole[m])
            == 0 by {
            if m < pre.len() {
                assert(whole[m] == pre[m]);
            } else {
                assert(whole[m] == whole.last());
            }
        }
    }
}

proof fn lemma_drop_col_rank(table: Seq<char>, cols: Seq<ColumnV>)
    ensures
        forall|m: int|
            0 <= m < crate::plan::drop_col_stmts(table, cols).len() ==> stmt_rank(
                #[trigger] crate::plan::drop_col_stmts(table, cols)[m],
            ) == 1,
    decreases cols.len(),
{
    if cols.len() > 0 {
        lemma_drop_col_rank(table, cols.drop_last());
        let whole = crate::plan::drop_col_stmts(table, cols);
        let pre = crate::plan::drop_col_stmts(table, cols.drop_last());
        assert forall|m: int| 0 <= m < whole.len() implies stmt_rank(#[trigger] whole[m])
            == 1 by {
            if m < pre.len() {
                assert(whole[m] == pre[m]);
            } else {
                assert(whole[m] == whole.last());
            }
        }
    }
}

proof fn lemma_add_col_rank(table: Seq<char>, cols: Seq<ColumnV>)
    ensures
        forall|m: int|
            0 <= m < crate::plan::add_col_stmts(table, cols).len() ==> stmt_rank(
                #[trigger] crate::plan::add_col_stmts(table, cols)[m],
            ) == 2,
    decreases cols.len(),
{
    if cols.len() > 0 {
        lemma_add_col_rank(table, cols.drop_last());
        let whole = crate::plan::add_col_stmts(table, cols);
        let pre = crate::plan::add_col_stmts(table, cols.drop_last());
        assert forall|m: int| 0 <= m < whole.len() implies stmt_rank(#[trigger] whole[m])
            == 2 by {
            if m < pre.len() {
                assert(whole[m] == pre[m]);
            } else {
                assert(whole[m] == whole.last());
            }
        }
    }
}

proof fn lemma_add_cons_rank(table: Seq<char>, cons: Seq<ConstraintV>)
    ensures
        forall|m: int|
            0 <= m < crate::plan::add_cons_stmts(table, cons).len() ==> stmt_rank(
                #[trigger] crate::plan::add_cons_stmts(table, cons)[m],
            ) == 3,
    decreases cons.len(),
{
    if cons.len() > 0 {
        lemma_add_cons_rank(table, cons.drop_last());
        let whole = crate::plan::add_cons_stmts(table, cons);
        let pre = crate::plan::add_cons_stmts(table, cons.drop_last());
        assert forall|m: int| 0 <= m < whole.len() implies stmt_rank(#[trigger] whole[m])
            == 3 by {
            if m < pre.len() {
                assert(whole[m] == pre[m]);
            } else {
                assert(whole[m] == whole.last());
            }
        }
    }
}

/// Ordering of the direct path: in the generated sequence, every
/// constraint-drop precedes every column-drop, which precedes every
/// column-add, which precedes every constraint-add.
pub proof fn lemma_direct_path_ordering(a: TableV, b: TableV)
    ensures
        forall|i: int, j: int|
            0 <= i < j < direct_path_stmts(a, b).len() ==> stmt_rank(
                #[trigger] direct_path_stmts(a, b)[i],
            ) <= stmt_rank(#[trigger] direct_path_stmts(a, b)[j]),
{
    let dc = crate::plan::folded_del_cons(a, b);
    let cc = crate::plan::folded_cre_cons(a, b);
    let dcol = delete_seq::<Column>(a.columns, b.columns);
    let acol = new_create_cols(a, b);
    lemma_drop_cons_rank(a.name, dc);
    lemma_drop_col_rank(a.name, dcol);
    lemma_add_col_rank(a.name, acol);
    lemma_add_cons_rank(a.name, cc);
    let s1 = crate::plan::drop_cons_stmts(a.name, dc);
    let s2 = crate::plan::drop_col_stmts(a.name, dcol);
    let s3 = crate::plan::add_col_stmts(a.name, acol);
    let s4 = crate::plan::add_cons_stmts(a.name, cc);
    assert forall|i: int| 0 <= i < direct_path_stmts(a, b).len() implies {
        let r = stmt_rank(#[trigger] direct_path_stmts(a, b)[i]);
        &&& 0 <= r <= 3
        &&& (i < s1.len() ==> r == 0)
        &&& (s1.len() <= i < s1.len() + s2.len() ==> r == 1)
        &&& (s1.len() + s2.len() <= i < s1.len() + s2.len() + s3.len() ==> r == 2)
        &&& (s1.len() + s2.len() + s3.len() <= i ==> r == 3)
    } by {
        if i < s1.len() {
            assert(direct_path_stmts(a, b)[i] == s1[i]);
        } else if i < s1.len() + s2.len() {
            assert(direct_path_stmts(a, b)[i] == s2[i - s1.len()]);
        } else if i < s1.len() + s2.len() + s3.len() {
            assert(direct_path_stmts(a, b)[i] == s3[i - s1.len() - s2.len()]);
        } else {
            assert(direct_path_stmts(a, b)[i] == s4[i - s1.len() - s2.len() - s3.len()]);
        }
    }
}

/// Rebuild safety: the CreateTable statement of the move path carries
/// exactly the surviving columns — the originals minus the deleted ones,
/// with each changed column's new body in its place — and never a newly
/// created column: every rebuilt column's name is an original column's
/// name, and every created column's name is new.
pub proof fn lemma_rebuild_safety(a: TableV, b: TableV)
    requires
        unique_col_names(a.columns),
        unique_col_names(b.columns),
    ensures
        move_new_table(a, b).columns == apply_by_name(
            keep_unnamed(a.columns, delete_seq::<Column>(a.columns, b.columns)),
            change_seq::<Column>(a.columns, b.columns),
        ),
        forall|m: int|
            0 <= m < move_new_table(a, b).columns.len() ==> has_col_name(
                a.columns,
                #[trigger] move_new_table(a, b).columns[m].name,
            ),
        forall|k: int|
            0 <= k < new_create_cols(a, b).len() ==> !has_col_name(
                a.columns,
                #[trigger] new_create_cols(a, b)[k].name,
            ),
        forall|k: int|
            0 <= k < new_create_cols(a, b).len() ==> !has_col_name(
                move_new_table(a, b).columns,
                #[trigger] new_create_cols(a, b)[k].name,
            ),
{
    lemma_diff_feeds_rebuild(a.columns, b.columns);
    let dels = delete_seq::<Column>(a.columns, b.columns);
    let chs = change_seq::<Column>(a.columns, b.columns);
    let kept = keep_unnamed(a.columns, dels);
    let built = apply_by_name(kept, chs);
    assert(move_new_table(a, b).columns == built);
    crate::plan::lemma_keep_unnamed_elems(a.columns, dels);
    assert forall|m: int| 0 <= m < built.len() implies has_col_name(
        a.columns,
        #[trigger] built[m].name,
    ) by {
        assert(crate::plan::col_in(a.columns, kept[m]));
        let j = choose|j: int| 0 <= j < a.columns.len() && a.columns[j] == kept[m];
        if has_col_name(chs, kept[m].name) {
            lemma_first_name_idx(chs, kept[m].name);
            let f = crate::plan::first_name_idx(chs, kept[m].name);
            if f >= chs.len() {
                let w = choose|w: int| 0 <= w < chs.len() && chs[w].name == kept[m].name;
                assert(false);
            }
            assert(built[m] == chs[f]);
            assert(built[m].name == kept[m].name);
        } else {
            assert(built[m] == kept[m]);
        }
        assert(a.columns[j].name == built[m].name);
    }
    let news = new_create_cols(a, b);
    crate::diff::lemma_new_names_only_elems::<Column>(
        create_seq::<Column>(a.columns, b.columns),
        chs,
    );
    crate::diff::lemma_create_seq_elems::<Column>(a.columns, b.columns);
    assert forall|k: int| 0 <= k < news.len() implies !has_col_name(
        a.columns,
        #[trigger] news[k].name,
    ) by {
        if has_col_name(a.columns, news[k].name) {
            let j = choose|j: int| 0 <= j < a.columns.len() && a.columns[j].name == news[k].name;
            let cre = create_seq::<Column>(a.columns, b.columns);
            let jv = choose|jv: int| 0 <= jv < cre.len() && cre[jv] == news[k];
            assert(!has_name_match::<Column>(chs, news[k]));
            assert(!has_equal::<Column>(a.columns, news[k]));
            let ti = choose|ti: int| 0 <= ti < b.columns.len() && b.columns[ti] == cre[jv];
            assert(!entity_eq::<Column>(a.columns[j], news[k]));
            assert(names_eq::<Column>(a.columns[j], news[k]));
            assert(!Column::v_body_eq(a.columns[j], news[k]));
            assert(modified::<Column>(b.columns[ti], a.columns[j]));
            crate::diff::lemma_change_seq_mem::<Column>(a.columns, b.columns, ti, j);
            let w = choose|w: int| 0 <= w < chs.len() && chs[w] == b.columns[ti];
            assert(chs[w].name == news[k].name);
            assert(names_eq::<Column>(news[k], chs[w]));
            assert(has_name_match::<Column>(chs, news[k]));
            assert(false);
        }
    }
    assert forall|k: int| 0 <= k < news.len() implies !has_col_name(
        built,
        #[trigger] news[k].name,
    ) by {
        if has_col_name(built, news[k].name) {
            let m = choose|m: int| 0 <= m < built.len() && built[m].name == news[k].name;
            assert(has_col_name(a.columns, built[m].name));
        }
    }
}


/// Round trip, column content: the columns the plan produces — the rebuilt
/// set (survivors of deletion, with each changed column's new body in its
/// place) followed by the appended creations — are structurally equal,
/// entity by entity in both directions, to the target's columns. Both paths
/// plan exactly this set: the direct path's change set is empty, so its
/// replacement step is the identity.
pub proof fn lemma_round_trip_columns(a: TableV, b: TableV)
    requires
        unique_col_names(a.columns),
        unique_col_names(b.columns),
    ensures
        ({
            let planned = apply_by_name(
                keep_unnamed(a.columns, delete_seq::<Column>(a.columns, b.columns)),
                change_seq::<Column>(a.columns, b.columns),
            ) + new_create_cols(a, b);
            &&& forall|j: int|
                0 <= j < b.columns.len() ==> exists|i: int|
                    0 <= i < planned.len() && entity_eq::<Column>(
                        planned[i],
                        #[trigger] b.columns[j],
                    )
            &&& forall|i: int|
                0 <= i < planned.len() ==> exists|j: int|
                    0 <= j < b.columns.len() && entity_eq::<Column>(
                        #[trigger] planned[i],
                        b.columns[j],
                    )
        }),
{
    let dels = delete_seq::<Column>(a.columns, b.columns);
    let chs = change_seq::<Column>(a.columns, b.columns);
    let kept = keep_unnamed(a.columns, dels);
    let applied = apply_by_name(kept, chs);
    let news = new_create_cols(a, b);
    let cre = create_seq::<Column>(a.columns, b.columns);
    let planned = applied + news;
    crate::plan::lemma_delete_seq_elems(a.columns, b.columns);
    crate::plan::lemma_keep_unnamed_elems(a.columns, dels);
    crate::plan::lemma_change_seq_char(a.columns, b.columns);
    crate::diff::lemma_create_seq_elems::<Column>(a.columns, b.columns);
    crate::diff::lemma_new_names_only_elems::<Column>(cre, chs);

    // every target column is represented in the plan
    assert forall|j: int| 0 <= j < b.columns.len() implies exists|i: int|
        0 <= i < planned.len() && entity_eq::<Column>(planned[i], #[trigger] b.columns[j]) by {
        let t = b.columns[j];
        if exists|k: int| 0 <= k < a.columns.len() && (#[trigger] a.columns[k]).name == t.name {
            let k = choose|k: int| 0 <= k < a.columns.len() && a.columns[k].name == t.name;
            let c = a.columns[k];
            if has_col_name(dels, c.name) {
                let m = choose|m: int| 0 <= m < dels.len() && dels[m].name == c.name;
                assert(crate::plan::col_in(a.columns, dels[m]));
                let kk = choose|kk: int| 0 <= kk < a.columns.len() && a.columns[kk] == dels[m];
                assert(kk == k);
                assert(names_eq::<Column>(dels[m], b.columns[j]));
                assert(has_name_match::<Column>(b.columns, dels[m]));
                assert(false);
            }
            crate::plan::lemma_keep_unnamed_mem(a.columns, dels, k);
            let m = choose|m: int| 0 <= m < kept.len() && kept[m] == c;
            if Column::v_body_eq(c, t) {
                if has_col_name(chs, c.name) {
                    let w = choose|w: int| 0 <= w < chs.len() && chs[w].name == c.name;
                    let ti = choose|ti: int| 0 <= ti < b.columns.len() && chs[w] == b.columns[ti];
                    assert(b.columns[ti].name == b.columns[j].name);
                    assert(ti == j);
                    let kk = choose|kk: int|
                        0 <= kk < a.columns.len() && modified::<Column>(chs[w], a.columns[kk]);
                    assert(a.columns[kk].name == t.name);
                    assert(kk == k);
                    assert(!Column::v_body_eq(t, c));
                    assert(false);
                }
                assert(applied[m] == kept[m]);
                assert(entity_eq::<Column>(planned[m], b.columns[j]));
            } else {
                assert(modified::<Column>(t, a.columns[k]));
                crate::diff::lemma_change_seq_mem::<Column>(a.columns, b.columns, j, k);
                let w = choose|w: int| 0 <= w < chs.len() && chs[w] == t;
                assert(has_col_name(chs, c.name));
                crate::plan::lemma_first_name_idx(chs, c.name);
                let f = crate::plan::first_name_idx(chs, c.name);
                if f >= chs.len() {
                    assert(chs[w].name != c.name);
                    assert(false);
                }
                assert(chs[f].name == chs[w].name);
                if f != w {
                    if f < w {
                        assert(chs[f].name != chs[w].name);
                    } else {
                        assert(chs[w].name != chs[f].name);
                    }
                    assert(false);
                }
                assert(applied[m] == chs[f]);
                assert(applied[m] == t);
                assert(entity_eq::<Column>(planned[m], b.columns[j]));
            }
        } else {
            assert forall|k: int|
                0 <= k < a.columns.len() implies !entity_eq::<Column>(
                #[trigger] a.columns[k],
                t,
            ) by {
                if entity_eq::<Column>(a.columns[k], t) {
                    assert(a.columns[k].name == t.name);
                }
            }
            assert(!has_equal::<Column>(a.columns, t));
            crate::diff::lemma_create_seq_mem::<Column>(a.columns, b.columns, j);
            let mc = choose|mc: int| 0 <= mc < cre.len() && cre[mc] == t;
            if has_name_match::<Column>(chs, t) {
                let w = choose|w: int| 0 <= w < chs.len() && names_eq::<Column>(t, chs[w]);
                let kk = choose|kk: int|
                    0 <= kk < a.columns.len() && modified::<Column>(chs[w], a.columns[kk]);
                assert(a.columns[kk].name == chs[w].name);
                assert(a.columns[kk].name == t.name);
                assert(false);
            }
            crate::diff::lemma_new_names_only_mem::<Column>(cre, chs, mc);
            let mn = choose|mn: int| 0 <= mn < news.len() && news[mn] == t;
            assert(planned[applied.len() + mn] == t);
            assert(entity_eq::<Column>(planned[applied.len() + mn], b.columns[j]));
        }
    }

    // every planned column is a target column, entity for entity
    assert forall|i: int| 0 <= i < planned.len() implies exists|j: int|
        0 <= j < b.columns.len() && entity_eq::<Column>(#[trigger] planned[i], b.columns[j]) by {
        if i < applied.len() {
            assert(crate::plan::col_in(a.columns, kept[i]));
            assert(!has_col_name(dels, kept[i].name));
            let kk = choose|kk: int| 0 <= kk < a.columns.len() && a.columns[kk] == kept[i];
            if !has_name_match::<Column>(b.columns, a.columns[kk]) {
                crate::diff::lemma_delete_seq_mem::<Column>(a.columns, b.columns, kk);
                let m = choose|m: int| 0 <= m < dels.len() && dels[m] == a.columns[kk];
                assert(dels[m].name == kept[i].name);
                assert(false);
            }
            let j = choose|j: int|
                0 <= j < b.columns.len() && names_eq::<Column>(a.columns[kk], #[trigger] b.columns[j]);
            if has_col_name(chs, kept[i].name) {
                crate::plan::lemma_first_name_idx(chs, kept[i].name);
                let f = crate::plan::first_name_idx(chs, kept[i].name);
                if f >= chs.len() {
                    let w = choose|w: int| 0 <= w < chs.len() && chs[w].name == kept[i].name;
                    assert(chs[w].name != kept[i].name);
                    assert(false);
                }
                assert(applied[i] == chs[f]);
                let ti = choose|ti: int| 0 <= ti < b.columns.len() && chs[f] == b.columns[ti];
                assert(entity_eq::<Column>(planned[i], b.columns[ti]));
            } else {
                assert(applied[i] == kept[i]);
                if !Column::v_body_eq(kept[i], b.columns[j]) {
                    assert(modified::<Column>(b.columns[j], a.columns[kk]));
                    crate::diff::lemma_change_seq_mem::<Column>(a.columns, b.columns, j, kk);
                    let w = choose|w: int| 0 <= w < chs.len() && chs[w] == b.columns[j];
                    assert(chs[w].name == kept[i].name);
                    assert(false);
                }
                assert(entity_eq::<Column>(planned[i], b.columns[j]));
            }
        } else {
            let mn = i - applied.len();
            assert(planned[i] == news[mn]);
            let mc = choose|mc: int| 0 <= mc < cre.len() && cre[mc] == news[mn];
            let ti = choose|ti: int| 0 <= ti < b.columns.len() && b.columns[ti] == cre[mc];
            assert(entity_eq::<Column>(planned[i], b.columns[ti]));
        }
    }
}


/// No two constraints bear the same derivable name.
pub open spec fn unique_cons_names(cons: Seq<ConstraintV>) -> bool {
    forall|i: int, j: int|
        0 <= i < j < cons.len() ==> !(cons[i].name is Some && cons[i].name == cons[j].name)
}

proof fn lemma_cons_change_one_char(now: Seq<ConstraintV>, t: ConstraintV)
    requires
        unique_cons_names(now),
    ensures
        change_one::<TableConstraint>(now, t).len() <= 1,
        forall|m: int|
            0 <= m < change_one::<TableConstraint>(now, t).len()
                ==> #[trigger] change_one::<TableConstraint>(now, t)[m] == t,
        change_one::<TableConstraint>(now, t).len() == 1 ==> exists|k: int|
            0 <= k < now.len() && modified::<TableConstraint>(t, #[trigger] now[k]),
    decreases now.len(),
{
    if now.len() > 0 {
        assert(forall|k: int| 0 <= k < now.len() - 1 ==> now.drop_last()[k] == now[k]);
        lemma_cons_change_one_char(now.drop_last(), t);
        if modified::<TableConstraint>(t, now.last()) {
            assert(now[now.len() - 1] == now.last());
            if change_one::<TableConstraint>(now.drop_last(), t).len() >= 1 {
                let k = choose|k: int|
                    0 <= k < now.drop_last().len() && modified::<TableConstraint>(
                        t,
                        now.drop_last()[k],
                    );
                assert(now[k].name is Some && now[k].name == now[now.len() - 1].name);
                assert(false);
            }
        }
    }
}

proof fn lemma_cons_change_seq_char(now: Seq<ConstraintV>, target: Seq<ConstraintV>)
    requires
        unique_cons_names(now),
        unique_cons_names(target),
    ensures
        forall|m1: int, m2: int|
            0 <= m1 < m2 < change_seq::<TableConstraint>(now, target).len()
                ==> change_seq::<TableConstraint>(now, target)[m1].name != change_seq::<
                TableConstraint,
            >(now, target)[m2].name,
        forall|m: int|
            0 <= m < change_seq::<TableConstraint>(now, target).len() ==> exists|i: int|
                0 <= i < target.len() && #[trigger] change_seq::<TableConstraint>(now, target)[m]
                    == target[i],
        forall|m: int|
            0 <= m < change_seq::<TableConstraint>(now, target).len() ==> exists|k: int|
                0 <= k < now.len() && modified::<TableConstraint>(
                    #[trigger] change_seq::<TableConstraint>(now, target)[m],
                    now[k],
                ),
    decreases target.len(),
{
    if target.len() > 0 {
        assert(forall|j: int| 0 <= j < target.len() - 1 ==> target.drop_last()[j] == target[j]);
        lemma_cons_change_seq_char(now, target.drop_last());
        lemma_cons_change_one_char(now, target.last());
        let whole = change_seq::<TableConstraint>(now, target);
        let pre = change_seq::<TableConstraint>(now, target.drop_last());
        let blk = change_one::<TableConstraint>(now, target.last());
        assert forall|m: int| 0 <= m < whole.len() implies (exists|i: int|
            0 <= i < target.len() && #[trigger] whole[m] == target[i]) && (exists|k: int|
            0 <= k < now.len() && modified::<TableConstraint>(whole[m], now[k])) by {
            if m < pre.len() {
                assert(whole[m] == pre[m]);
                let i = choose|i: int|
                    0 <= i < target.drop_last().len() && pre[m] == target.drop_last()[i];
                assert(whole[m] == target[i]);
            } else {
                assert(whole[m] == blk[m - pre.len()]);
                assert(whole[m] == target.last());
                assert(whole[m] == target[target.len() - 1]);
                assert(blk.len() == 1);
            }
        }
        assert forall|m1: int, m2: int| 0 <= m1 < m2 < whole.len() implies whole[m1].name
            != whole[m2].name by {
            if m2 < pre.len() {
                assert(pre[m1].name != pre[m2].name);
            } else {
                assert(m2 - pre.len() < blk.len());
                assert(whole[m2] == target.last());
                assert(whole[m2].name is Some);
                if m1 < pre.len() {
                    let i = choose|i: int|
                        0 <= i < target.drop_last().len() && pre[m1] == target.drop_last()[i];
                    assert(whole[m1] == target[i]);
                    assert(whole[m1].name is Some);
                    assert(!(target[i].name is Some && target[i].name == target[target.len()
                        - 1].name));
                } else {
                    assert(m1 - pre.len() < blk.len() && m2 - pre.len() < blk.len());
                    assert(false);
                }
            }
        }
    }
}


/// Round trip, constraint content: the constraints the plan produces — the
/// originals that survive the folded deletions, then the genuinely new
/// creations, then the new versions of the changed ones — are structurally
/// equal, entity by entity in both directions, to the target's constraints,
/// when every constraint on both sides can yield a name and the names are
/// unique on each side.
pub proof fn lemma_round_trip_constraints(a: TableV, b: TableV)
    requires
        forall|k: int| 0 <= k < a.constraints.len() ==> (#[trigger] a.constraints[k].name) is Some,
        forall|k: int| 0 <= k < b.constraints.len() ==> (#[trigger] b.constraints[k].name) is Some,
        unique_cons_names(a.constraints),
        unique_cons_names(b.constraints),
    ensures
        ({
            let planned = new_names_only::<TableConstraint>(
                a.constraints,
                crate::plan::folded_del_cons(a, b),
            ) + crate::plan::folded_cre_cons(a, b);
            &&& forall|j: int|
                0 <= j < b.constraints.len() ==> exists|i: int|
                    0 <= i < planned.len() && entity_eq::<TableConstraint>(
                        planned[i],
                        #[trigger] b.constraints[j],
                    )
            &&& forall|i: int|
                0 <= i < planned.len() ==> exists|j: int|
                    0 <= j < b.constraints.len() && entity_eq::<TableConstraint>(
                        #[trigger] planned[i],
                        b.constraints[j],
                    )
        }),
{
    let an = a.constraints;
    let bn = b.constraints;
    let dels = delete_seq::<TableConstraint>(an, bn);
    let chs = change_seq::<TableConstraint>(an, bn);
    let cre = create_seq::<TableConstraint>(an, bn);
    let fdel = crate::plan::folded_del_cons(a, b);
    let fcre = crate::plan::folded_cre_cons(a, b);
    let filtered_cre = new_names_only::<TableConstraint>(cre, chs);
    let kept = new_names_only::<TableConstraint>(an, fdel);
    let planned = kept + fcre;
    crate::diff::lemma_delete_seq_elems_all::<TableConstraint>(an, bn);
    crate::diff::lemma_create_seq_elems::<TableConstraint>(an, bn);
    crate::diff::lemma_new_names_only_elems::<TableConstraint>(an, fdel);
    crate::diff::lemma_new_names_only_elems::<TableConstraint>(cre, chs);
    lemma_cons_change_seq_char(an, bn);

    // every target constraint is represented in the plan
    assert forall|j: int| 0 <= j < bn.len() implies exists|i: int|
        0 <= i < planned.len() && entity_eq::<TableConstraint>(
        planned[i],
        #[trigger] bn[j],
    ) by {
        let t = bn[j];
        assert(t.name is Some);
        if exists|k: int| 0 <= k < an.len() && (#[trigger] an[k]).name == t.name {
            let k = choose|k: int| 0 <= k < an.len() && an[k].name == t.name;
            let c = an[k];
            assert(c.name is Some);
            if TableConstraint::v_body_eq(c, t) {
                // unchanged: c survives the folded deletions
                if has_name_match::<TableConstraint>(fdel, c) {
                    let w = choose|w: int|
                        0 <= w < fdel.len() && names_eq::<TableConstraint>(c, fdel[w]);
                    if w < dels.len() {
                        assert(fdel[w] == dels[w]);
                        let jj = choose|jj: int| 0 <= jj < an.len() && an[jj] == dels[w];
                        assert(an[jj].name == c.name);
                        assert(jj == k);
                        assert(names_eq::<TableConstraint>(dels[w], bn[j]));
                        assert(has_name_match::<TableConstraint>(bn, dels[w]));
                        assert(false);
                    } else {
                        let w2 = w - dels.len();
                        assert(fdel[w] == chs[w2]);
                        let ti = choose|ti: int| 0 <= ti < bn.len() && chs[w2] == bn[ti];
                        assert(bn[ti].name == t.name);
                        assert(ti == j);
                        let kk = choose|kk: int|
                            0 <= kk < an.len() && modified::<TableConstraint>(chs[w2], an[kk]);
                        assert(an[kk].name == t.name);
                        assert(kk == k);
                        assert(!TableConstraint::v_body_eq(t, c));
                        assert(false);
                    }
                }
                crate::diff::lemma_new_names_only_mem::<TableConstraint>(an, fdel, k);
                let m = choose|m: int| 0 <= m < kept.len() && kept[m] == c;
                assert(entity_eq::<TableConstraint>(planned[m], bn[j]));
            } else {
                // changed: the new version stands in the creations
                assert(modified::<TableConstraint>(t, an[k]));
                crate::diff::lemma_change_seq_mem::<TableConstraint>(an, bn, j, k);
                let w = choose|w: int| 0 <= w < chs.len() && chs[w] == t;
                assert(fcre[filtered_cre.len() + w] == t);
                let i = kept.len() + filtered_cre.len() + w;
                assert(planned[i] == t);
                assert(entity_eq::<TableConstraint>(planned[i], bn[j]));
            }
        } else {
            // genuinely new: it stands in the filtered creations
            assert forall|k: int|
                0 <= k < an.len() implies !entity_eq::<TableConstraint>(
                #[trigger] an[k],
                t,
            ) by {
                if entity_eq::<TableConstraint>(an[k], t) {
                    assert(an[k].name == t.name);
                }
            }
            assert(!has_equal::<TableConstraint>(an, t));
            crate::diff::lemma_create_seq_mem::<TableConstraint>(an, bn, j);
            let mc = choose|mc: int| 0 <= mc < cre.len() && cre[mc] == t;
            if has_name_match::<TableConstraint>(chs, t) {
                let w = choose|w: int|
                    0 <= w < chs.len() && names_eq::<TableConstraint>(t, chs[w]);
                let kk = choose|kk: int|
                    0 <= kk < an.len() && modified::<TableConstraint>(chs[w], an[kk]);
                assert(an[kk].name == chs[w].name);
                assert(an[kk].name == t.name);
                assert(false);
            }
            crate::diff::lemma_new_names_only_mem::<TableConstraint>(cre, chs, mc);
            let mn = choose|mn: int|
                0 <= mn < filtered_cre.len() && filtered_cre[mn] == t;
            assert(fcre[mn] == t);
            let i = kept.len() + mn;
            assert(planned[i] == t);
            assert(entity_eq::<TableConstraint>(planned[i], bn[j]));
        }
    }

    // every planned constraint is a target constraint, entity for entity
    assert forall|i: int| 0 <= i < planned.len() implies exists|j: int|
        0 <= j < bn.len() && entity_eq::<TableConstraint>(
        #[trigger] planned[i],
        bn[j],
    ) by {
        if i < kept.len() {
            let c = kept[i];
            let kk = choose|kk: int| 0 <= kk < an.len() && an[kk] == c;
            assert(c.name is Some);
            assert(!has_name_match::<TableConstraint>(fdel, c));
            if !has_name_match::<TableConstraint>(bn, an[kk]) {
                crate::diff::lemma_delete_seq_mem::<TableConstraint>(an, bn, kk);
                let m = choose|m: int| 0 <= m < dels.len() && dels[m] == an[kk];
                assert(fdel[m] == an[kk]);
                assert(names_eq::<TableConstraint>(c, fdel[m]));
                assert(false);
            }
            let j = choose|j: int|
                0 <= j < bn.len() && names_eq::<TableConstraint>(an[kk], #[trigger] bn[j]);
            if !TableConstraint::v_body_eq(c, bn[j]) {
                assert(modified::<TableConstraint>(bn[j], an[kk]));
                crate::diff::lemma_change_seq_mem::<TableConstraint>(an, bn, j, kk);
                let w = choose|w: int| 0 <= w < chs.len() && chs[w] == bn[j];
                assert(fdel[dels.len() + w] == bn[j]);
                assert(names_eq::<TableConstraint>(c, fdel[dels.len() + w]));
                assert(false);
            }
            assert(entity_eq::<TableConstraint>(planned[i], bn[j]));
        } else if i < kept.len() + filtered_cre.len() {
            let mn = i - kept.len();
            assert(planned[i] == fcre[mn]);
            assert(fcre[mn] == filtered_cre[mn]);
            let mc = choose|mc: int| 0 <= mc < cre.len() && cre[mc] == filtered_cre[mn];
            let ti = choose|ti: int| 0 <= ti < bn.len() && bn[ti] == cre[mc];
            assert(bn[ti].name is Some);
            assert(entity_eq::<TableConstraint>(planned[i], bn[ti]));
        } else {
            let w = i - kept.len() - filtered_cre.len();
            assert(planned[i] == fcre[filtered_cre.len() + w]);
            assert(planned[i] == chs[w]);
            let ti = choose|ti: int| 0 <= ti < bn.len() && chs[w] == bn[ti];
            assert(bn[ti].name is Some);
            assert(entity_eq::<TableConstraint>(planned[i], bn[ti]));
        }
    }
}


/// Every constraint in the change classification can yield a name: a
/// modification presupposes a name match.
pub proof fn lemma_cons_change_named(now: Seq<ConstraintV>, target: Seq<ConstraintV>)
    ensures
        forall|m: int|
            0 <= m < change_seq::<TableConstraint>(now, target).len()
                ==> (#[trigger] change_seq::<TableConstraint>(now, target)[m].name) is Some,
    decreases target.len(),
{
    if target.len() > 0 {
        lemma_cons_change_named(now, target.drop_last());
        let whole = change_seq::<TableConstraint>(now, target);
        let pre = change_seq::<TableConstraint>(now, target.drop_last());
        lemma_cons_change_one_named(now, target.last());
        assert forall|m: int| 0 <= m < whole.len() implies (#[trigger] whole[m].name) is Some by {
            if m < pre.len() {
                assert(whole[m] == pre[m]);
            } else {
                assert(whole[m] == change_one::<TableConstraint>(now, target.last())[m
                    - pre.len()]);
            }
        }
    }
}

proof fn lemma_cons_change_one_named(now: Seq<ConstraintV>, t: ConstraintV)
    ensures
        forall|m: int|
            0 <= m < change_one::<TableConstraint>(now, t).len()
                ==> (#[trigger] change_one::<TableConstraint>(now, t)[m].name) is Some,
    decreases now.len(),
{
    if now.len() > 0 {
        lemma_cons_change_one_named(now.drop_last(), t);
        let whole = change_one::<TableConstraint>(now, t);
        let pre = change_one::<TableConstraint>(now.drop_last(), t);
        assert forall|m: int| 0 <= m < whole.len() implies (#[trigger] whole[m].name) is Some by {
            if m < pre.len() {
                assert(whole[m] == pre[m]);
            } else {
                assert(whole[m] == t);
                assert(modified::<TableConstraint>(t, now.last()));
            }
        }
    }
}

} // verus!
