use vstd::prelude::*;

use crate::compare::modified;
use crate::compare::names_eq;
use crate::compare::Compare;
use crate::diff::append_entities;
use crate::diff::change_one;
use crate::diff::change_seq;
use crate::diff::delete_seq;
use crate::diff::create_seq;
use crate::diff::has_name_match;
use crate::diff::new_names_only;
use crate::diff::filter_new_names;
use crate::schema::Column;
use crate::schema::ColumnV;
use crate::schema::ConstraintV;
use crate::schema::Dialect;
use crate::schema::SchemaError;
use crate::schema::Table;
use crate::schema::TableConstraint;
use crate::schema::TableV;
use crate::sqltext::move_sql;
use crate::sqltext::move_sql_ok;
use crate::sqltext::parse_sql_count;
use crate::statement::AlterOpV;
use crate::statement::Statement;
use crate::statement::StmtV;

verus! {

/// The index of the first column of `cols` structurally equal to `del`, or
/// `cols.len()` when there is none.
pub open spec fn first_eq_idx(cols: Seq<ColumnV>, del: ColumnV) -> int
    decreases cols.len(),
{
    if cols.len() == 0 {
        0
    } else if cols.first() == del {
        0
    } else {
        1 + first_eq_idx(cols.drop_first(), del)
    }
}

/// The index of the first column of `cols` named `name`, or `cols.len()`
/// when there is none.
pub open spec fn first_name_idx(cols: Seq<ColumnV>, name: Seq<char>) -> int
    decreases cols.len(),
{
    if cols.len() == 0 {
        0
    } else if cols.first().name == name {
        0
    } else {
        1 + first_name_idx(cols.drop_first(), name)
    }
}

/// Removes the columns of `dels` from `cols`, one at a time, each at the
/// position of its first structural match; nothing when some column of
/// `dels` has no match left.
pub open spec fn rebuild_remove(cols: Seq<ColumnV>, dels: Seq<ColumnV>) -> Option<Seq<ColumnV>>
    decreases dels.len(),
{
    if dels.len() == 0 {
        Some(cols)
    } else {
        let i = first_eq_idx(cols, dels.first());
        if i < cols.len() {
            rebuild_remove(cols.remove(i), dels.drop_first())
        } else {
            None
        }
    }
}

/// Replaces, for each changed column in order, the first column of `cols`
/// bearing its name with the new body; nothing when some change finds no
/// column of its name.
pub open spec fn rebuild_change(cols: Seq<ColumnV>, chs: Seq<ColumnV>) -> Option<Seq<ColumnV>>
    decreases chs.len(),
{
    if chs.len() == 0 {
        Some(cols)
    } else {
        let i = first_name_idx(cols, chs.first().name);
        if i < cols.len() {
            rebuild_change(cols.update(i, chs.first()), chs.drop_first())
        } else {
            None
        }
    }
}

/// The rebuilt column sequence: removals first, then in-place changes.
pub open spec fn rebuilt_columns(cols: Seq<ColumnV>, dels: Seq<ColumnV>, chs: Seq<ColumnV>) -> Option<
    Seq<ColumnV>,
> {
    match rebuild_remove(cols, dels) {
        Some(c) => rebuild_change(c, chs),
        None => None,
    }
}

/// A sequence of columns, or the empty sequence when there is none.
pub open spec fn cols_or_empty(o: Option<Seq<ColumnV>>) -> Seq<ColumnV> {
    match o {
        Some(c) => c,
        None => Seq::empty(),
    }
}

/// The rebuilt ("new") table: named "temp", its columns the originals with
/// the deletions and changes applied, its constraints the originals minus
/// the deleted names plus the created ones. Created columns are deliberately
/// absent: the copy step can only move data between columns present on both
/// sides, so they are appended by direct statements after the swap.
pub open spec fn rebuilt_new_table(
    t: TableV,
    del_cols: Seq<ColumnV>,
    del_cons: Seq<ConstraintV>,
    chs: Seq<ColumnV>,
    add_cons: Seq<ConstraintV>,
) -> TableV {
    TableV {
        name: "temp"@,
        columns: cols_or_empty(rebuilt_columns(t.columns, del_cols, chs)),
        constraints: new_names_only::<TableConstraint>(t.constraints, del_cons) + add_cons,
    }
}

/// The original table reduced to the columns that survive deletion: the
/// image the copy step reads from.
pub open spec fn shrunk_old_table(t: TableV, del_cols: Seq<ColumnV>) -> TableV {
    TableV {
        name: t.name,
        columns: cols_or_empty(rebuild_remove(t.columns, del_cols)),
        constraints: t.constraints,
    }
}

/// `first_eq_idx` names the first structural match: everything before it
/// differs from `del`, and in bounds it is a match.
pub proof fn lemma_first_eq_idx(cols: Seq<ColumnV>, del: ColumnV)
    ensures
        0 <= first_eq_idx(cols, del) <= cols.len(),
        forall|m: int| 0 <= m < first_eq_idx(cols, del) ==> cols[m] != del,
        first_eq_idx(cols, del) < cols.len() ==> cols[first_eq_idx(cols, del)] == del,
    decreases cols.len(),
{
    if cols.len() > 0 && !(cols.first() == del) {
        lemma_first_eq_idx(cols.drop_first(), del);
        assert(forall|m: int|
            1 <= m < first_eq_idx(cols, del) ==> cols[m] == cols.drop_first()[m - 1]);
    }
}

/// `first_name_idx` names the first column of the given name: everything
/// before it bears another name, and in bounds it bears this one.
pub proof fn lemma_first_name_idx(cols: Seq<ColumnV>, name: Seq<char>)
    ensures
        0 <= first_name_idx(cols, name) <= cols.len(),
        forall|m: int| 0 <= m < first_name_idx(cols, name) ==> cols[m].name != name,
        first_name_idx(cols, name) < cols.len() ==> cols[first_name_idx(cols, name)].name == name,
    decreases cols.len(),
{
    if cols.len() > 0 && !(cols.first().name == name) {
        lemma_first_name_idx(cols.drop_first(), name);
        assert(forall|m: int|
            1 <= m < first_name_idx(cols, name) ==> cols[m] == cols.drop_first()[m - 1]);
    }
}


/// The index of the first column of `cols` structurally equal to `del`,
/// found as the rebuild's deletion step finds it.
fn position_of_eq(cols: &Vec<Column>, del: &Column) -> (r: usize)
    ensures
        r as int == first_eq_idx(cols.deep_view(), del.deep_view()),
        r <= cols.len(),
{
    let ghost dv = cols.deep_view();
    let ghost del_v = del.deep_view();
    proof {
        lemma_first_eq_idx(dv, del_v);
    }
    let mut i: usize = 0;
    while i < cols.len()
        invariant
            i <= cols.len(),
            dv == cols.deep_view(),
            del_v == del.deep_view(),
            forall|m: int| 0 <= m < i ==> dv[m] != del_v,
        decreases cols.len() - i,
    {
        let eq_here = cols[i].eq(del);
        proof {
            assert(cols.deep_view()[i as int] == cols@[i as int].deep_view());
        }
        if eq_here {
            proof {
                lemma_first_eq_idx(dv, del_v);
                let f = first_eq_idx(dv, del_v);
                assert(dv[i as int] == del_v);
                if f < i {
                    assert(dv[f] == del_v);
                    assert(false);
                }
                if i < f {
                    assert(dv[i as int] != del_v);
                    assert(false);
                }
            }
            return i;
        }
        i += 1;
    }
    proof {
        lemma_first_eq_idx(dv, del_v);
        let f = first_eq_idx(dv, del_v);
        if f < dv.len() {
            assert(dv[f] == del_v);
            assert(false);
        }
    }
    i
}

/// The index of the first column of `cols` named `name`, found as the
/// rebuild's change step finds it.
fn position_of_name(cols: &Vec<Column>, name: &String) -> (r: usize)
    ensures
        r as int == first_name_idx(cols.deep_view(), name@),
        r <= cols.len(),
{
    let ghost dv = cols.deep_view();
    proof {
        lemma_first_name_idx(dv, name@);
    }
    let mut i: usize = 0;
    while i < cols.len()
        invariant
            i <= cols.len(),
            dv == cols.deep_view(),
            forall|m: int| 0 <= m < i ==> dv[m].name != name@,
        decreases cols.len() - i,
    {
        let eq_here = cols[i].name.eq(name);
        proof {
            assert(cols.deep_view()[i as int] == cols@[i as int].deep_view());
        }
        if eq_here {
            proof {
                lemma_first_name_idx(dv, name@);
                let f = first_name_idx(dv, name@);
                assert(dv[i as int].name == name@);
                if f < i {
                    assert(dv[f].name == name@);
                    assert(false);
                }
                if i < f {
                    assert(dv[i as int].name != name@);
                    assert(false);
                }
            }
            return i;
        }
        i += 1;
    }
    proof {
        lemma_first_name_idx(dv, name@);
        let f = first_name_idx(dv, name@);
        if f < dv.len() {
            assert(dv[f].name == name@);
            assert(false);
        }
    }
    i
}


/// No two columns share a name.
pub open spec fn unique_col_names(cols: Seq<ColumnV>) -> bool {
    forall|i: int, j: int| 0 <= i < j < cols.len() ==> cols[i].name != cols[j].name
}

/// Some column of `dels` bears `name`.
pub open spec fn has_col_name(dels: Seq<ColumnV>, name: Seq<char>) -> bool {
    exists|k: int| 0 <= k < dels.len() && dels[k].name == name
}

/// `c` occurs (structurally) in `cols`.
pub open spec fn col_in(cols: Seq<ColumnV>, c: ColumnV) -> bool {
    exists|j: int| 0 <= j < cols.len() && cols[j] == c
}

/// The columns of `cols` whose name occurs nowhere in `dels`, in order.
pub open spec fn keep_unnamed(cols: Seq<ColumnV>, dels: Seq<ColumnV>) -> Seq<ColumnV>
    decreases cols.len(),
{
    if cols.len() == 0 {
        Seq::empty()
    } else {
        keep_unnamed(cols.drop_last(), dels) + (if has_col_name(dels, cols.last().name) {
            Seq::empty()
        } else {
            seq![cols.last()]
        })
    }
}

proof fn lemma_keep_unnamed_equiv(cols: Seq<ColumnV>, dels1: Seq<ColumnV>, dels2: Seq<ColumnV>)
    requires
        forall|j: int|
            0 <= j < cols.len() ==> (has_col_name(dels1, #[trigger] cols[j].name)
                <==> has_col_name(dels2, cols[j].name)),
    ensures
        keep_unnamed(cols, dels1) == keep_unnamed(cols, dels2),
    decreases cols.len(),
{
    if cols.len() > 0 {
        assert(forall|j: int| 0 <= j < cols.len() - 1 ==> cols.drop_last()[j] == cols[j]);
        lemma_keep_unnamed_equiv(cols.drop_last(), dels1, dels2);
    }
}

pub proof fn lemma_keep_unnamed_all_pub(cols: Seq<ColumnV>, dels: Seq<ColumnV>)
    requires
        forall|j: int| 0 <= j < cols.len() ==> !has_col_name(dels, #[trigger] cols[j].name),
    ensures
        keep_unnamed(cols, dels) == cols,
    decreases cols.len(),
{
    if cols.len() > 0 {
        assert(forall|j: int| 0 <= j < cols.len() - 1 ==> cols.drop_last()[j] == cols[j]);
        lemma_keep_unnamed_all_pub(cols.drop_last(), dels);
        assert(keep_unnamed(cols, dels) =~= cols);
    }
}

proof fn lemma_keep_unnamed_remove(cols: Seq<ColumnV>, dels: Seq<ColumnV>, i: int)
    requires
        0 <= i < cols.len(),
        has_col_name(dels, cols[i].name),
    ensures
        keep_unnamed(cols.remove(i), dels) == keep_unnamed(cols, dels),
    decreases cols.len(),
{
    if i == cols.len() - 1 {
        assert(cols.remove(i) =~= cols.drop_last());
    } else {
        lemma_keep_unnamed_remove(cols.drop_last(), dels, i);
        assert(cols.remove(i).drop_last() =~= cols.drop_last().remove(i));
        assert(cols.remove(i).last() == cols.last());
    }
}

pub proof fn lemma_keep_unnamed_mem(cols: Seq<ColumnV>, dels: Seq<ColumnV>, j: int)
    requires
        0 <= j < cols.len(),
        !has_col_name(dels, cols[j].name),
    ensures
        col_in(keep_unnamed(cols, dels), cols[j]),
    decreases cols.len(),
{
    if j == cols.len() - 1 {
        let pre = keep_unnamed(cols.drop_last(), dels);
        assert(keep_unnamed(cols, dels)[pre.len() as int] == cols[j]);
    } else {
        lemma_keep_unnamed_mem(cols.drop_last(), dels, j);
        let pre = keep_unnamed(cols.drop_last(), dels);
        let m = choose|m: int| 0 <= m < pre.len() && pre[m] == cols.drop_last()[j];
        assert(keep_unnamed(cols, dels)[m] == cols[j]);
    }
}

pub proof fn lemma_keep_unnamed_elems(cols: Seq<ColumnV>, dels: Seq<ColumnV>)
    ensures
        forall|m: int|
            0 <= m < keep_unnamed(cols, dels).len() ==> col_in(
                cols,
                #[trigger] keep_unnamed(cols, dels)[m],
            ) && !has_col_name(dels, keep_unnamed(cols, dels)[m].name),
    decreases cols.len(),
{
    if cols.len() > 0 {
        lemma_keep_unnamed_elems(cols.drop_last(), dels);
        let pre = keep_unnamed(cols.drop_last(), dels);
        assert forall|m: int|
            0 <= m < keep_unnamed(cols, dels).len() implies col_in(
            cols,
            #[trigger] keep_unnamed(cols, dels)[m],
        ) && !has_col_name(dels, keep_unnamed(cols, dels)[m].name) by {
            if m < pre.len() {
                assert(col_in(cols.drop_last(), pre[m]));
                let j = choose|j: int|
                    0 <= j < cols.drop_last().len() && cols.drop_last()[j] == pre[m];
                assert(cols[j] == keep_unnamed(cols, dels)[m]);
            } else {
                assert(keep_unnamed(cols, dels)[m] == cols[cols.len() - 1]);
            }
        }
    }
}

proof fn lemma_keep_unnamed_unique(cols: Seq<ColumnV>, dels: Seq<ColumnV>)
    requires
        unique_col_names(cols),
    ensures
        unique_col_names(keep_unnamed(cols, dels)),
    decreases cols.len(),
{
    if cols.len() > 0 {
        assert(forall|j: int| 0 <= j < cols.len() - 1 ==> cols.drop_last()[j] == cols[j]);
        lemma_keep_unnamed_unique(cols.drop_last(), dels);
        lemma_keep_unnamed_elems(cols.drop_last(), dels);
        let pre = keep_unnamed(cols.drop_last(), dels);
        let whole = keep_unnamed(cols, dels);
        assert forall|i: int, j: int| 0 <= i < j < whole.len() implies whole[i].name
            != whole[j].name by {
            if j < pre.len() {
                assert(pre[i].name != pre[j].name);
            } else {
                assert(whole[j] == cols[cols.len() - 1]);
                assert(col_in(cols.drop_last(), pre[i]));
                let j2 = choose|j2: int|
                    0 <= j2 < cols.drop_last().len() && cols.drop_last()[j2] == pre[i];
                assert(cols[j2].name != cols[cols.len() - 1].name);
            }
        }
    }
}

proof fn lemma_rebuild_remove_char(cols: Seq<ColumnV>, dels: Seq<ColumnV>)
    requires
        unique_col_names(cols),
        forall|k: int| 0 <= k < dels.len() ==> col_in(cols, #[trigger] dels[k]),
        forall|k1: int, k2: int| 0 <= k1 < k2 < dels.len() ==> dels[k1].name != dels[k2].name,
    ensures
        rebuild_remove(cols, dels) == Some(keep_unnamed(cols, dels)),
    decreases dels.len(),
{
    if dels.len() == 0 {
        assert(forall|j: int| 0 <= j < cols.len() ==> !has_col_name(dels, #[trigger] cols[j].name));
        lemma_keep_unnamed_all_pub(cols, dels);
    } else {
        let del0 = dels.first();
        assert(col_in(cols, dels[0]));
        let j0 = choose|j: int| 0 <= j < cols.len() && cols[j] == del0;
        lemma_first_eq_idx(cols, del0);
        let i = first_eq_idx(cols, del0);
        if i >= cols.len() {
            assert(cols[j0] == del0);
            assert(false);
        }
        assert(cols[i] == del0);
        let cols2 = cols.remove(i);
        let dels2 = dels.drop_first();
        assert(forall|m: int|
            0 <= m < cols2.len() ==> #[trigger] cols2[m] == (if m < i {
                cols[m]
            } else {
                cols[m + 1]
            }));
        assert(unique_col_names(cols2));
        assert forall|k: int| 0 <= k < dels2.len() implies col_in(cols2, #[trigger] dels2[k]) by {
            assert(dels2[k] == dels[k + 1]);
            assert(col_in(cols, dels[k + 1]));
            let j = choose|j: int| 0 <= j < cols.len() && cols[j] == dels[k + 1];
            assert(dels[0].name != dels[k + 1].name);
            assert(j != i);
            if j < i {
                assert(cols2[j] == cols[j]);
            } else {
                assert(cols2[j - 1] == cols[j]);
            }
        }
        lemma_rebuild_remove_char(cols2, dels2);
        lemma_keep_unnamed_remove(cols, dels, i);
        assert forall|j: int|
            0 <= j < cols2.len() implies (has_col_name(dels, #[trigger] cols2[j].name)
            <==> has_col_name(dels2, cols2[j].name)) by {
            if has_col_name(dels, cols2[j].name) {
                let k = choose|k: int| 0 <= k < dels.len() && dels[k].name == cols2[j].name;
                if k == 0 {
                    let jj = if j < i { j } else { j + 1 };
                    assert(cols[jj].name == del0.name);
                    assert(cols[i].name == del0.name);
                    assert(jj == i);
                    assert(false);
                } else {
                    assert(dels2[k - 1].name == cols2[j].name);
                }
            }
            if has_col_name(dels2, cols2[j].name) {
                let k = choose|k: int| 0 <= k < dels2.len() && dels2[k].name == cols2[j].name;
                assert(dels[k + 1].name == cols2[j].name);
            }
        }
        lemma_keep_unnamed_equiv(cols2, dels, dels2);
    }
}

/// Every column of `cols`, with the first change of its name (if any)
/// applied in place of it.
pub open spec fn apply_by_name(cols: Seq<ColumnV>, chs: Seq<ColumnV>) -> Seq<ColumnV> {
    Seq::new(
        cols.len(),
        |j: int|
            if has_col_name(chs, cols[j].name) {
                chs[first_name_idx(chs, cols[j].name)]
            } else {
                cols[j]
            },
    )
}

proof fn lemma_rebuild_change_char(cols: Seq<ColumnV>, chs: Seq<ColumnV>)
    requires
        unique_col_names(cols),
        forall|k: int| 0 <= k < chs.len() ==> has_col_name(cols, #[trigger] chs[k].name),
        forall|k1: int, k2: int| 0 <= k1 < k2 < chs.len() ==> chs[k1].name != chs[k2].name,
    ensures
        rebuild_change(cols, chs) == Some(apply_by_name(cols, chs)),
    decreases chs.len(),
{
    if chs.len() == 0 {
        assert(apply_by_name(cols, chs) =~= cols);
    } else {
        let ch0 = chs.first();
        assert(has_col_name(cols, chs[0].name));
        let j0 = choose|j: int| 0 <= j < cols.len() && cols[j].name == ch0.name;
        lemma_first_name_idx(cols, ch0.name);
        let i = first_name_idx(cols, ch0.name);
        if i >= cols.len() {
            assert(cols[j0].name == ch0.name);
            assert(false);
        }
        assert(cols[i].name == ch0.name);
        let cols2 = cols.update(i, ch0);
        let chs2 = chs.drop_first();
        assert(forall|m: int| 0 <= m < cols.len() ==> #[trigger] cols2[m].name == cols[m].name);
        assert(unique_col_names(cols2));
        assert forall|k: int| 0 <= k < chs2.len() implies has_col_name(
            cols2,
            #[trigger] chs2[k].name,
        ) by {
            assert(chs2[k] == chs[k + 1]);
            assert(has_col_name(cols, chs[k + 1].name));
            let j = choose|j: int| 0 <= j < cols.len() && cols[j].name == chs[k + 1].name;
            assert(cols2[j].name == chs2[k].name);
        }
        lemma_rebuild_change_char(cols2, chs2);
        assert(apply_by_name(cols2, chs2) =~= apply_by_name(cols, chs)) by {
            assert forall|j: int| 0 <= j < cols.len() implies apply_by_name(cols2, chs2)[j]
                == apply_by_name(cols, chs)[j] by {
                if j == i {
                    assert(cols2[i] == ch0);
                    if has_col_name(chs2, ch0.name) {
                        let k = choose|k: int| 0 <= k < chs2.len() && chs2[k].name == ch0.name;
                        assert(chs[k + 1].name == chs[0].name);
                        assert(false);
                    }
                    assert(first_name_idx(chs, cols[i].name) == 0);
                    assert(apply_by_name(cols, chs)[i] == ch0);
                    assert(apply_by_name(cols2, chs2)[i] == ch0);
                } else {
                    let n = cols[j].name;
                    assert(cols2[j] == cols[j]);
                    if n == ch0.name {
                        assert(cols[i].name == n);
                        assert(false);
                    }
                    if has_col_name(chs, n) {
                        let k = choose|k: int| 0 <= k < chs.len() && chs[k].name == n;
                        assert(k != 0);
                        assert(chs2[k - 1].name == n);
                        assert(has_col_name(chs2, n));
                        assert(first_name_idx(chs, n) == 1 + first_name_idx(chs2, n));
                        lemma_first_name_idx(chs2, n);
                        if first_name_idx(chs2, n) >= chs2.len() {
                            assert(chs2[k - 1].name != n);
                            assert(false);
                        }
                        assert(chs2[first_name_idx(chs2, n)] == chs[1 + first_name_idx(chs2, n)]);
                        assert(apply_by_name(cols2, chs2)[j] == chs2[first_name_idx(chs2, n)]);
                        assert(apply_by_name(cols, chs)[j] == chs[first_name_idx(chs, n)]);
                    } else {
                        if has_col_name(chs2, n) {
                            let k = choose|k: int| 0 <= k < chs2.len() && chs2[k].name == n;
                            assert(chs[k + 1].name == n);
                            assert(false);
                        }
                    }
                }
            }
        }
    }
}


pub proof fn lemma_delete_seq_elems(now: Seq<ColumnV>, target: Seq<ColumnV>)
    ensures
        forall|m: int|
            0 <= m < delete_seq::<Column>(now, target).len() ==> col_in(
                now,
                #[trigger] delete_seq::<Column>(now, target)[m],
            ) && !has_name_match::<Column>(target, delete_seq::<Column>(now, target)[m]),
    decreases now.len(),
{
    if now.len() > 0 {
        lemma_delete_seq_elems(now.drop_last(), target);
        let whole = delete_seq::<Column>(now, target);
        let pre = delete_seq::<Column>(now.drop_last(), target);
        assert forall|m: int| 0 <= m < whole.len() implies col_in(now, #[trigger] whole[m])
            && !has_name_match::<Column>(target, whole[m]) by {
            if m < pre.len() {
                assert(whole[m] == pre[m]);
                assert(col_in(now.drop_last(), pre[m]));
                let j = choose|j: int|
                    0 <= j < now.drop_last().len() && now.drop_last()[j] == pre[m];
                assert(now[j] == whole[m]);
            } else {
                assert(whole[m] == now.last());
                assert(now[now.len() - 1] == whole[m]);
            }
        }
    }
}

proof fn lemma_delete_seq_distinct(now: Seq<ColumnV>, target: Seq<ColumnV>)
    requires
        unique_col_names(now),
    ensures
        forall|m1: int, m2: int|
            0 <= m1 < m2 < delete_seq::<Column>(now, target).len() ==> delete_seq::<Column>(
                now,
                target,
            )[m1].name != delete_seq::<Column>(now, target)[m2].name,
    decreases now.len(),
{
    if now.len() > 0 {
        assert(forall|j: int| 0 <= j < now.len() - 1 ==> now.drop_last()[j] == now[j]);
        lemma_delete_seq_distinct(now.drop_last(), target);
        lemma_delete_seq_elems(now.drop_last(), target);
        let whole = delete_seq::<Column>(now, target);
        let pre = delete_seq::<Column>(now.drop_last(), target);
        assert forall|m1: int, m2: int| 0 <= m1 < m2 < whole.len() implies whole[m1].name
            != whole[m2].name by {
            if m2 < pre.len() {
                assert(pre[m1].name != pre[m2].name);
            } else {
                assert(whole[m2] == now.last());
                assert(col_in(now.drop_last(), pre[m1]));
                let j = choose|j: int|
                    0 <= j < now.drop_last().len() && now.drop_last()[j] == pre[m1];
                assert(now[j].name != now[now.len() - 1].name);
            }
        }
    }
}

pub proof fn lemma_change_one_char(now: Seq<ColumnV>, t: ColumnV)
    requires
        unique_col_names(now),
    ensures
        change_one::<Column>(now, t).len() <= 1,
        forall|m: int|
            0 <= m < change_one::<Column>(now, t).len() ==> #[trigger] change_one::<Column>(
                now,
                t,
            )[m] == t,
        change_one::<Column>(now, t).len() == 1 ==> has_col_name(now, t.name),
        change_one::<Column>(now, t).len() == 1 ==> exists|k: int|
            0 <= k < now.len() && modified::<Column>(t, #[trigger] now[k]),
    decreases now.len(),
{
    if now.len() > 0 {
        assert(forall|j: int| 0 <= j < now.len() - 1 ==> now.drop_last()[j] == now[j]);
        lemma_change_one_char(now.drop_last(), t);
        if modified::<Column>(t, now.last()) {
            assert(now.last().name == t.name);
            assert(now[now.len() - 1].name == t.name);
            if change_one::<Column>(now.drop_last(), t).len() >= 1 {
                assert(has_col_name(now.drop_last(), t.name));
                let j = choose|j: int|
                    0 <= j < now.drop_last().len() && now.drop_last()[j].name == t.name;
                assert(now[j].name == now[now.len() - 1].name);
                assert(false);
            }
        }
    }
}

pub proof fn lemma_change_seq_char(now: Seq<ColumnV>, target: Seq<ColumnV>)
    requires
        unique_col_names(now),
        unique_col_names(target),
    ensures
        forall|m1: int, m2: int|
            0 <= m1 < m2 < change_seq::<Column>(now, target).len() ==> change_seq::<Column>(
                now,
                target,
            )[m1].name != change_seq::<Column>(now, target)[m2].name,
        forall|m: int|
            0 <= m < change_seq::<Column>(now, target).len() ==> has_col_name(
                now,
                #[trigger] change_seq::<Column>(now, target)[m].name,
            ),
        forall|m: int|
            0 <= m < change_seq::<Column>(now, target).len() ==> exists|i: int|
                0 <= i < target.len() && #[trigger] change_seq::<Column>(now, target)[m]
                    == target[i],
        forall|m: int|
            0 <= m < change_seq::<Column>(now, target).len() ==> exists|k: int|
                0 <= k < now.len() && modified::<Column>(
                    #[trigger] change_seq::<Column>(now, target)[m],
                    now[k],
                ),
    decreases target.len(),
{
    if target.len() > 0 {
        assert(forall|j: int| 0 <= j < target.len() - 1 ==> target.drop_last()[j] == target[j]);
        lemma_change_seq_char(now, target.drop_last());
        lemma_change_one_char(now, target.last());
        let whole = change_seq::<Column>(now, target);
        let pre = change_seq::<Column>(now, target.drop_last());
        let blk = change_one::<Column>(now, target.last());
        assert forall|m: int| 0 <= m < whole.len() implies has_col_name(
            now,
            #[trigger] whole[m].name,
        ) && (exists|i: int| 0 <= i < target.len() && whole[m] == target[i]) && (exists|k: int|
            0 <= k < now.len() && modified::<Column>(whole[m], now[k])) by {
            if m < pre.len() {
                assert(whole[m] == pre[m]);
                let i = choose|i: int|
                    0 <= i < target.drop_last().len() && pre[m] == target.drop_last()[i];
                assert(whole[m] == target[i]);
            } else {
                assert(whole[m] == blk[m - pre.len()]);
                assert(whole[m] == target.last());
                assert(whole[m] == target[target.len() - 1]);
                assert(blk.len() == 1);
            }
        }
        assert forall|m1: int, m2: int| 0 <= m1 < m2 < whole.len() implies whole[m1].name
            != whole[m2].name by {
            if m2 < pre.len() {
                assert(pre[m1].name != pre[m2].name);
            } else {
                assert(m2 - pre.len() < blk.len());
                assert(whole[m2] == target.last());
                if m1 < pre.len() {
                    let i = choose|i: int|
                        0 <= i < target.drop_last().len() && pre[m1] == target.drop_last()[i];
                    assert(target[i].name != target[target.len() - 1].name);
                    assert(whole[m1] == target[i]);
                } else {
                    assert(m1 - pre.len() < blk.len() && m2 - pre.len() < blk.len());
                    assert(false);
                }
            }
        }
    }
}

/// Under unique column names on both sides, the column diff always feeds
/// the rebuild: every deletion finds its structural match and every change
/// a surviving column of its name.
pub proof fn lemma_diff_feeds_rebuild(now: Seq<ColumnV>, target: Seq<ColumnV>)
    requires
        unique_col_names(now),
        unique_col_names(target),
    ensures
        rebuild_remove(now, delete_seq::<Column>(now, target)) == Some(
            keep_unnamed(now, delete_seq::<Column>(now, target)),
        ),
        rebuilt_columns(
            now,
            delete_seq::<Column>(now, target),
            change_seq::<Column>(now, target),
        ) == Some(
            apply_by_name(
                keep_unnamed(now, delete_seq::<Column>(now, target)),
                change_seq::<Column>(now, target),
            ),
        ),
{
    let dels = delete_seq::<Column>(now, target);
    let chs = change_seq::<Column>(now, target);
    lemma_delete_seq_elems(now, target);
    lemma_delete_seq_distinct(now, target);
    lemma_rebuild_remove_char(now, dels);
    let kept = keep_unnamed(now, dels);
    lemma_keep_unnamed_unique(now, dels);
    lemma_change_seq_char(now, target);
    assert forall|k: int| 0 <= k < chs.len() implies has_col_name(
        kept,
        #[trigger] chs[k].name,
    ) by {
        assert(has_col_name(now, chs[k].name));
        let j = choose|j: int| 0 <= j < now.len() && now[j].name == chs[k].name;
        if has_col_name(dels, now[j].name) {
            let m = choose|m: int| 0 <= m < dels.len() && dels[m].name == now[j].name;
            assert(col_in(now, dels[m]));
            let j2 = choose|j2: int| 0 <= j2 < now.len() && now[j2] == dels[m];
            assert(now[j2].name == now[j].name);
            assert(j2 == j);
            let i = choose|i: int| 0 <= i < target.len() && chs[k] == target[i];
            assert(target[i].name == dels[m].name);
            assert(names_eq::<Column>(dels[m], target[i]));
            assert(has_name_match::<Column>(target, dels[m]));
            assert(false);
        }
        lemma_keep_unnamed_mem(now, dels, j);
        let mm = choose|mm: int| 0 <= mm < kept.len() && kept[mm] == now[j];
        assert(kept[mm].name == chs[k].name);
    }
    lemma_rebuild_change_char(kept, chs);
}


/// Every constraint of the sequence can yield a name.
pub open spec fn all_named(cons: Seq<ConstraintV>) -> bool {
    forall|k: int| 0 <= k < cons.len() ==> cons[k].name is Some
}

/// One DROP CONSTRAINT statement per constraint, in order.
pub open spec fn drop_cons_stmts(table: Seq<char>, cons: Seq<ConstraintV>) -> Seq<StmtV>
    decreases cons.len(),
{
    if cons.len() == 0 {
        Seq::empty()
    } else {
        drop_cons_stmts(table, cons.drop_last()) + seq![
            StmtV::AlterTable {
                table,
                op: AlterOpV::DropConstraint {
                    name: cons.last().name->0,
                    cascade: true,
                    restrict: false,
                },
            },
        ]
    }
}

/// One DROP COLUMN statement per column, in order.
pub open spec fn drop_col_stmts(table: Seq<char>, cols: Seq<ColumnV>) -> Seq<StmtV>
    decreases cols.len(),
{
    if cols.len() == 0 {
        Seq::empty()
    } else {
        drop_col_stmts(table, cols.drop_last()) + seq![
            StmtV::AlterTable {
                table,
                op: AlterOpV::DropColumn {
                    name: cols.last().name,
                    if_exists: false,
                    cascade: true,
                },
            },
        ]
    }
}

/// One ADD COLUMN statement per column, in order.
pub open spec fn add_col_stmts(table: Seq<char>, cols: Seq<ColumnV>) -> Seq<StmtV>
    decreases cols.len(),
{
    if cols.len() == 0 {
        Seq::empty()
    } else {
        add_col_stmts(table, cols.drop_last()) + seq![
            StmtV::AlterTable { table, op: AlterOpV::AddColumn(cols.last()) },
        ]
    }
}

/// One ADD CONSTRAINT statement per constraint, in order.
pub open spec fn add_cons_stmts(table: Seq<char>, cons: Seq<ConstraintV>) -> Seq<StmtV>
    decreases cons.len(),
{
    if cons.len() == 0 {
        Seq::empty()
    } else {
        add_cons_stmts(table, cons.drop_last()) + seq![
            StmtV::AlterTable { table, op: AlterOpV::AddConstraint(cons.last()) },
        ]
    }
}

/// The constraints to drop, as statement synthesis sees them: the vanished
/// ones, then the old versions of the changed ones (dropped by name).
pub open spec fn folded_del_cons(a: TableV, b: TableV) -> Seq<ConstraintV> {
    delete_seq::<TableConstraint>(a.constraints, b.constraints) + change_seq::<TableConstraint>(
        a.constraints,
        b.constraints,
    )
}

/// The constraints to create: the genuinely new names, then the new versions
/// of the changed ones.
pub open spec fn folded_cre_cons(a: TableV, b: TableV) -> Seq<ConstraintV> {
    new_names_only::<TableConstraint>(
        create_seq::<TableConstraint>(a.constraints, b.constraints),
        change_seq::<TableConstraint>(a.constraints, b.constraints),
    ) + change_seq::<TableConstraint>(a.constraints, b.constraints)
}

/// The columns to add by direct statements: creations whose name is not that
/// of a changed column — a change takes priority over a creation of the same
/// name, lest a modification be treated as a fresh column.
pub open spec fn new_create_cols(a: TableV, b: TableV) -> Seq<ColumnV> {
    new_names_only::<Column>(
        create_seq::<Column>(a.columns, b.columns),
        change_seq::<Column>(a.columns, b.columns),
    )
}

/// Whether planning table `a` into table `b` takes the rebuild path: some
/// change the dialect cannot express directly, or any column change.
pub open spec fn uses_move_path(a: TableV, b: TableV, requires_move: bool) -> bool {
    ((delete_seq::<Column>(a.columns, b.columns).len() > 0 || folded_cre_cons(a, b).len() > 0
        || folded_del_cons(a, b).len() > 0) && requires_move) || change_seq::<Column>(
        a.columns,
        b.columns,
    ).len() > 0
}

/// The rebuilt table the move path creates.
pub open spec fn move_new_table(a: TableV, b: TableV) -> TableV {
    rebuilt_new_table(
        a,
        delete_seq::<Column>(a.columns, b.columns),
        folded_del_cons(a, b),
        change_seq::<Column>(a.columns, b.columns),
        folded_cre_cons(a, b),
    )
}

/// The old image the move path copies from.
pub open spec fn move_old_table(a: TableV, b: TableV) -> TableV {
    shrunk_old_table(a, delete_seq::<Column>(a.columns, b.columns))
}

/// The whole statement sequence of the move path: the rebuild, then one
/// ADD COLUMN per newly created column.
pub open spec fn move_path_stmts(a: TableV, b: TableV, requires_move: bool) -> Seq<StmtV> {
    seq![
        StmtV::CreateTable(move_new_table(a, b)),
        StmtV::InsertSelect { sql: move_sql(move_new_table(a, b), move_old_table(a, b)) },
        StmtV::Drop { name: a.name, cascade: !requires_move },
        StmtV::Rename { name: "temp"@, to: a.name },
    ] + add_col_stmts(a.name, new_create_cols(a, b))
}

/// The whole statement sequence of the direct path, in its fixed safe order:
/// drop constraints, drop columns, add columns, add constraints.
pub open spec fn direct_path_stmts(a: TableV, b: TableV) -> Seq<StmtV> {
    drop_cons_stmts(a.name, folded_del_cons(a, b)) + drop_col_stmts(
        a.name,
        delete_seq::<Column>(a.columns, b.columns),
    ) + add_col_stmts(a.name, new_create_cols(a, b)) + add_cons_stmts(
        a.name,
        folded_cre_cons(a, b),
    )
}

impl Table {

    /// The rebuild plan: create the rebuilt table under the name "temp",
    /// copy the surviving columns' data over, drop this table, and rename
    /// the rebuilt one into its place. Deletions are applied at the same
    /// position to both parallel images so that the copy step's column lists
    /// stay aligned; every column to delete must still have a structural
    /// match when its turn comes, and every changed column a surviving
    /// column of its name — the caller guarantees both.
    pub fn move_to(
        &self,
        delete: (Vec<Column>, Vec<TableConstraint>),
        change: Vec<Column>,
        create: Vec<TableConstraint>,
        requires_move: bool,
    ) -> (r: Result<Vec<Statement>, SchemaError>)
        requires
            rebuilt_columns(
                self.deep_view().columns,
                delete.0.deep_view(),
                change.deep_view(),
            ) is Some,
        ensures
            ({
                let new_v = rebuilt_new_table(
                    self.deep_view(),
                    delete.0.deep_view(),
                    delete.1.deep_view(),
                    change.deep_view(),
                    create.deep_view(),
                );
                let old_v = shrunk_old_table(self.deep_view(), delete.0.deep_view());
                &&& (r is Ok <==> move_sql_ok(new_v, old_v))
                &&& (r matches Ok(stmts) ==> stmts@.len() == 4 && stmts.deep_view() == seq![
                    StmtV::CreateTable(new_v),
                    StmtV::InsertSelect { sql: move_sql(new_v, old_v) },
                    StmtV::Drop { name: self.deep_view().name, cascade: !requires_move },
                    StmtV::Rename { name: "temp"@, to: self.deep_view().name },
                ])
                &&& (r matches Err(e) ==> e == SchemaError::StatementConstruction)
            }),
    {
        let ghost self_v = self.deep_view();
        let ghost dels_dv = delete.0.deep_view();
        let ghost delc_dv = delete.1.deep_view();
        let ghost chs_dv = change.deep_view();
        let ghost crs_dv = create.deep_view();
        let ghost new_v = rebuilt_new_table(self_v, dels_dv, delc_dv, chs_dv, crs_dv);
        let ghost old_v = shrunk_old_table(self_v, dels_dv);

        proof {
            assert(rebuilt_columns(self_v.columns, dels_dv, chs_dv) is Some);
            assert(rebuild_remove(self_v.columns, dels_dv) is Some);
        }
        let (del_cols, del_cons) = delete;

        let cloned_old = self.clone();
        let Table { name: old_name, columns: old_cols, constraints: old_cons } = cloned_old;
        let mut old_cols = old_cols;
        let cloned_new = self.clone();
        let Table { name: _, columns: nt_cols, constraints: nt_cons_initial } = cloned_new;
        let mut nt_cols = nt_cols;

        proof {
            assert(dels_dv.skip(0) =~= dels_dv);
        }
        let mut d: usize = 0;
        while d < del_cols.len()
            invariant
                d <= del_cols.len(),
                dels_dv == del_cols.deep_view(),
                self_v == self.deep_view(),
                old_cols@.len() == nt_cols@.len(),
                old_cols.deep_view() == nt_cols.deep_view(),
                rebuild_remove(nt_cols.deep_view(), dels_dv.skip(d as int)) == rebuild_remove(
                    self_v.columns,
                    dels_dv,
                ),
                rebuild_remove(self_v.columns, dels_dv) is Some,
            decreases del_cols.len() - d,
        {
            let ghost cur = nt_cols.deep_view();
            proof {
                assert(rebuild_remove(cur, dels_dv.skip(d as int)) is Some);
                assert(dels_dv.skip(d as int).len() > 0);
                assert(dels_dv.skip(d as int).first() == dels_dv[d as int]);
                assert(del_cols.deep_view()[d as int] == del_cols@[d as int].deep_view());
            }
            let del = &del_cols[d];
            let i = position_of_eq(&nt_cols, del);
            proof {
                if first_eq_idx(cur, dels_dv[d as int]) >= cur.len() {
                    assert(rebuild_remove(cur, dels_dv.skip(d as int)) is None);
                    assert(false);
                }
                assert(cur.len() == nt_cols@.len());
                assert(i < nt_cols@.len());
            }
            nt_cols.remove(i);
            old_cols.remove(i);
            proof {
                assert(nt_cols.deep_view() =~= cur.remove(i as int));
                assert(old_cols.deep_view() =~= cur.remove(i as int));
                assert(dels_dv.skip(d as int).drop_first() =~= dels_dv.skip(d + 1 as int));
                assert(rebuild_remove(nt_cols.deep_view(), dels_dv.skip(d + 1 as int))
                    == rebuild_remove(self_v.columns, dels_dv));
            }
            d += 1;
        }
        proof {
            assert(dels_dv.skip(dels_dv.len() as int) =~= Seq::<ColumnV>::empty());
            assert(rebuild_remove(self_v.columns, dels_dv) == Some(nt_cols.deep_view()));
            assert(old_cols.deep_view() == cols_or_empty(rebuild_remove(self_v.columns, dels_dv)));
        }

        let nt_cons1 = filter_new_names(nt_cons_initial, &del_cons);

        let ghost base_cols = nt_cols.deep_view();
        proof {
            assert(chs_dv.skip(0) =~= chs_dv);
            assert(rebuild_change(base_cols, chs_dv) == rebuilt_columns(
                self_v.columns,
                dels_dv,
                chs_dv,
            ));
        }
        let mut c: usize = 0;
        while c < change.len()
            invariant
                c <= change.len(),
                chs_dv == change.deep_view(),
                self_v == self.deep_view(),
                rebuild_change(nt_cols.deep_view(), chs_dv.skip(c as int)) == rebuild_change(
                    base_cols,
                    chs_dv,
                ),
                rebuild_change(base_cols, chs_dv) is Some,
            decreases change.len() - c,
        {
            let ghost cur = nt_cols.deep_view();
            proof {
                assert(rebuild_change(cur, chs_dv.skip(c as int)) is Some);
                assert(chs_dv.skip(c as int).len() > 0);
                assert(chs_dv.skip(c as int).first() == chs_dv[c as int]);
                assert(change.deep_view()[c as int] == change@[c as int].deep_view());
            }
            let ch = change[c].clone();
            let i = position_of_name(&nt_cols, &ch.name);
            proof {
                assert(ch.deep_view() == chs_dv[c as int]);
                if first_name_idx(cur, chs_dv[c as int].name) >= cur.len() {
                    assert(rebuild_change(cur, chs_dv.skip(c as int)) is None);
                    assert(false);
                }
                assert(cur.len() == nt_cols@.len());
                assert(i < nt_cols@.len());
            }
            nt_cols.set(i, ch);
            proof {
                assert(nt_cols.deep_view() =~= cur.update(i as int, chs_dv[c as int]));
                assert(chs_dv.skip(c as int).drop_first() =~= chs_dv.skip(c + 1 as int));
                assert(rebuild_change(nt_cols.deep_view(), chs_dv.skip(c + 1 as int))
                    == rebuild_change(base_cols, chs_dv));
            }
            c += 1;
        }
        proof {
            assert(chs_dv.skip(chs_dv.len() as int) =~= Seq::<ColumnV>::empty());
            assert(nt_cols.deep_view() == cols_or_empty(rebuilt_columns(
                self_v.columns,
                dels_dv,
                chs_dv,
            )));
        }

        let mut nt_cons = nt_cons1;
        append_entities(&mut nt_cons, &create);

        let new_table = Table { name: "temp".to_owned(), columns: nt_cols, constraints: nt_cons };
        let old_table = Table { name: old_name, columns: old_cols, constraints: old_cons };
        proof {
            reveal_strlit("temp");
            assert(new_table.deep_view() =~= new_v);
            assert(old_table.deep_view() =~= old_v);
        }

        let mut out: Vec<Statement> = Vec::new();
        out.push(Statement::CreateTable(new_table.clone()));
        let mut tail = match old_table.move_stmt(&new_table, requires_move) {
            Ok(t) => t,
            Err(e) => {
                return Err(e);
            },
        };
        out.append(&mut tail);
        out.push(new_table.rename_stmt(&old_table.name));
        proof {
            assert(out@.len() == 4);
            assert(out.deep_view()[0] == StmtV::CreateTable(new_v));
            assert(out.deep_view()[1] == (StmtV::InsertSelect { sql: move_sql(new_v, old_v) }));
            assert(out.deep_view()[2] == (StmtV::Drop { name: self_v.name, cascade: !requires_move }));
            assert(out.deep_view()[3] == (StmtV::Rename { name: "temp"@, to: self_v.name }));
            assert(out.deep_view() =~= seq![
                StmtV::CreateTable(new_v),
                StmtV::InsertSelect { sql: move_sql(new_v, old_v) },
                StmtV::Drop { name: self_v.name, cascade: !requires_move },
                StmtV::Rename { name: "temp"@, to: self_v.name },
            ]);
        }
        Ok(out)
    }

    /// The statements that move this table's rows into `target` and retire
    /// this table: the INSERT-SELECT copy (built from rendered text, which
    /// must parse), then the DROP of this table — cascading unless the
    /// dialect demands the move strategy, which implies it cannot safely
    /// cascade.
    pub fn move_stmt(&self, target: &Table, requires_move: bool) -> (r: Result<
        Vec<Statement>,
        SchemaError,
    >)
        ensures
            r is Ok <==> move_sql_ok(target.deep_view(), self.deep_view()),
            r matches Ok(stmts) ==> stmts@.len() == 2 && stmts.deep_view() == seq![
                StmtV::InsertSelect { sql: move_sql(target.deep_view(), self.deep_view()) },
                StmtV::Drop { name: self.deep_view().name, cascade: !requires_move },
            ],
            r matches Err(e) ==> e == SchemaError::StatementConstruction,
    {
        let insert = self.move_sql_text(target);
        let parse_ok = match parse_sql_count(insert.as_str()) {
            Ok(n) => n >= 1,
            Err(_) => false,
        };
        if !parse_ok {
            return Err(SchemaError::StatementConstruction);
        }
        let mut out: Vec<Statement> = Vec::new();
        out.push(Statement::InsertSelect { sql: insert });
        out.push(Statement::Drop { name: self.name.clone(), cascade: !requires_move });
        proof {
            assert(out.deep_view() =~= seq![
                StmtV::InsertSelect { sql: move_sql(target.deep_view(), self.deep_view()) },
                StmtV::Drop { name: self.deep_view().name, cascade: !requires_move },
            ]);
        }
        Ok(out)
    }
}


impl Table {
    /// Plans the full, ordered statement sequence that turns this table into
    /// `target`. A missing dialect configuration is surfaced at once. When
    /// the dialect cannot express the needed drops or constraint additions
    /// directly, or any column body changed, the rebuild (move) strategy is
    /// taken and newly created columns are appended afterwards by direct
    /// statements; otherwise direct statements are emitted in the fixed safe
    /// order. Column names must be unique on both sides — the caller
    /// guarantees that upstream.
    pub fn get_changes(&self, target: &Table, dialect: Option<Dialect>) -> (r: Result<
        Vec<Statement>,
        SchemaError,
    >)
        requires
            unique_col_names(self.deep_view().columns),
            unique_col_names(target.deep_view().columns),
        ensures
            ({
                let a = self.deep_view();
                let b = target.deep_view();
                match dialect {
                    None => r == Err::<Vec<Statement>, SchemaError>(
                        SchemaError::DialectConfiguration,
                    ),
                    Some(dl) => {
                        if uses_move_path(a, b, dl.requires_move) {
                            &&& (r is Ok <==> move_sql_ok(move_new_table(a, b), move_old_table(a, b)))
                            &&& (r matches Ok(stmts) ==> stmts.deep_view() == move_path_stmts(
                                a,
                                b,
                                dl.requires_move,
                            ))
                            &&& (r matches Err(e) ==> e == SchemaError::StatementConstruction)
                        } else {
                            &&& (r is Ok <==> all_named(folded_del_cons(a, b)))
                            &&& (r matches Ok(stmts) ==> stmts.deep_view() == direct_path_stmts(
                                a,
                                b,
                            ))
                            &&& (r matches Err(e) ==> e == SchemaError::NameResolution)
                        }
                    },
                }
            }),
    {
        let ghost a = self.deep_view();
        let ghost b = target.deep_view();
        let dl = match dialect {
            Some(d) => d,
            None => {
                return Err(SchemaError::DialectConfiguration);
            },
        };
        let (del_col, change, create_col) = self.col_changes(target);
        let (del_cons, create_cons) = self.constrs_changes(target);
        let create_col = filter_new_names(create_col, &change);

        proof {
            assert(del_col.deep_view().len() == del_col@.len());
            assert(change.deep_view().len() == change@.len());
            assert(create_col.deep_view().len() == create_col@.len());
            assert(del_cons.deep_view().len() == del_cons@.len());
            assert(create_cons.deep_view().len() == create_cons@.len());
        }
        let weak_requirements = del_col.len() > 0 || create_cons.len() > 0 || del_cons.len() > 0;
        let require_move = dl.requires_move();
        let change_col = change.len() > 0;

        if (weak_requirements && require_move) || change_col {
            proof {
                assert(uses_move_path(a, b, dl.requires_move));
                lemma_diff_feeds_rebuild(a.columns, b.columns);
            }
            let ghost cc_dv = create_col.deep_view();
            let mut stmts = match self.move_to(
                (del_col, del_cons),
                change,
                create_cons,
                require_move,
            ) {
                Ok(s) => s,
                Err(e) => {
                    return Err(e);
                },
            };
            let ghost seg = stmts.deep_view();
            proof {
                assert(cc_dv.take(0) =~= Seq::<ColumnV>::empty());
                assert(seg + add_col_stmts(a.name, cc_dv.take(0)) =~= seg);
            }
            let mut idx: usize = 0;
            while idx < create_col.len()
                invariant
                    idx <= create_col.len(),
                    a == self.deep_view(),
                    cc_dv == create_col.deep_view(),
                    stmts.deep_view() == seg + add_col_stmts(a.name, cc_dv.take(idx as int)),
                decreases create_col.len() - idx,
            {
                let ghost pre = stmts.deep_view();
                let stmt = self.create_col(create_col[idx].clone());
                stmts.push(stmt);
                proof {
                    let kk = idx as int;
                    assert(create_col.deep_view()[kk] == create_col@[kk].deep_view());
                    assert(cc_dv.take(idx + 1 as int).drop_last() =~= cc_dv.take(idx as int));
                    assert(cc_dv.take(idx + 1 as int).last() == cc_dv[idx as int]);
                    assert(stmts.deep_view() =~= pre.push(
                        StmtV::AlterTable {
                            table: a.name,
                            op: AlterOpV::AddColumn(cc_dv[idx as int]),
                        },
                    ));
                    assert(stmts.deep_view() =~= seg + add_col_stmts(
                        a.name,
                        cc_dv.take(idx + 1 as int),
                    ));
                }
                idx += 1;
            }
            proof {
                assert(cc_dv.take(cc_dv.len() as int) =~= cc_dv);
                assert(stmts.deep_view() =~= move_path_stmts(a, b, dl.requires_move));
            }
            Ok(stmts)
        } else {
            proof {
                assert(!uses_move_path(a, b, dl.requires_move));
            }
            let ghost dc_dv = del_cons.deep_view();
            let ghost del_dv = del_col.deep_view();
            let ghost cc_dv = create_col.deep_view();
            let ghost cr_dv = create_cons.deep_view();
            let mut stmts: Vec<Statement> = Vec::new();
            proof {
                assert(dc_dv.take(0) =~= Seq::<ConstraintV>::empty());
                assert(stmts.deep_view() =~= drop_cons_stmts(a.name, dc_dv.take(0)));
            }
            let mut i1: usize = 0;
            while i1 < del_cons.len()
                invariant
                    i1 <= del_cons.len(),
                    a == self.deep_view(),
                    b == target.deep_view(),
                    dialect == Some(dl),
                    !uses_move_path(a, b, dl.requires_move),
                    dc_dv == del_cons.deep_view(),
                    dc_dv == folded_del_cons(a, b),
                    forall|k: int| 0 <= k < i1 ==> #[trigger] dc_dv[k].name is Some,
                    stmts.deep_view() == drop_cons_stmts(a.name, dc_dv.take(i1 as int)),
                decreases del_cons.len() - i1,
            {
                let ghost pre = stmts.deep_view();
                proof {
                    assert(del_cons.deep_view()[i1 as int] == del_cons@[i1 as int].deep_view());
                }
                let stmt = match self.delete_cons(del_cons[i1].clone()) {
                    Ok(s) => s,
                    Err(e) => {
                        proof {
                            let kk = i1 as int;
                            assert(dc_dv[kk].name is None);
                            assert(folded_del_cons(a, b)[kk].name is None);
                            assert(!all_named(folded_del_cons(a, b)));
                        }
                        return Err(e);
                    },
                };
                stmts.push(stmt);
                proof {
                    let kk = i1 as int;
                    assert(stmts.deep_view() =~= pre.push(
                        StmtV::AlterTable {
                            table: a.name,
                            op: AlterOpV::DropConstraint {
                                name: dc_dv[kk].name->0,
                                cascade: true,
                                restrict: false,
                            },
                        },
                    ));
                    assert(dc_dv.take(i1 + 1 as int).drop_last() =~= dc_dv.take(i1 as int));
                    assert(dc_dv.take(i1 + 1 as int).last() == dc_dv[i1 as int]);
                    assert(stmts.deep_view() =~= drop_cons_stmts(a.name, dc_dv.take(i1 + 1 as int)));
                }
                i1 += 1;
            }
            let ghost seg1 = drop_cons_stmts(a.name, dc_dv);
            proof {
                assert(dc_dv.take(dc_dv.len() as int) =~= dc_dv);
                assert(del_dv.take(0) =~= Seq::<ColumnV>::empty());
                assert(stmts.deep_view() =~= seg1 + drop_col_stmts(a.name, del_dv.take(0)));
            }
            let mut i2: usize = 0;
            while i2 < del_col.len()
                invariant
                    i2 <= del_col.len(),
                    a == self.deep_view(),
                    del_dv == del_col.deep_view(),
                    stmts.deep_view() == seg1 + drop_col_stmts(a.name, del_dv.take(i2 as int)),
                decreases del_col.len() - i2,
            {
                let ghost pre = stmts.deep_view();
                let stmt = self.delete_col(del_col[i2].clone());
                stmts.push(stmt);
                proof {
                    assert(del_col.deep_view()[i2 as int] == del_col@[i2 as int].deep_view());
                    assert(stmts.deep_view() =~= pre.push(
                        StmtV::AlterTable {
                            table: a.name,
                            op: AlterOpV::DropColumn {
                                name: del_dv[i2 as int].name,
                                if_exists: false,
                                cascade: true,
                            },
                        },
                    ));
                    assert(del_dv.take(i2 + 1 as int).drop_last() =~= del_dv.take(i2 as int));
                    assert(del_dv.take(i2 + 1 as int).last() == del_dv[i2 as int]);
                    assert(stmts.deep_view() =~= seg1 + drop_col_stmts(
                        a.name,
                        del_dv.take(i2 + 1 as int),
                    ));
                }
                i2 += 1;
            }
            let ghost seg2 = seg1 + drop_col_stmts(a.name, del_dv);
            proof {
                assert(del_dv.take(del_dv.len() as int) =~= del_dv);
                assert(cc_dv.take(0) =~= Seq::<ColumnV>::empty());
                assert(stmts.deep_view() =~= seg2 + add_col_stmts(a.name, cc_dv.take(0)));
            }
            let mut i3: usize = 0;
            while i3 < create_col.len()
                invariant
                    i3 <= create_col.len(),
                    a == self.deep_view(),
                    cc_dv == create_col.deep_view(),
                    stmts.deep_view() == seg2 + add_col_stmts(a.name, cc_dv.take(i3 as int)),
                decreases create_col.len() - i3,
            {
                let ghost pre = stmts.deep_view();
                let stmt = self.create_col(create_col[i3].clone());
                stmts.push(stmt);
                proof {
                    let kk = i3 as int;
                    assert(create_col.deep_view()[kk] == create_col@[kk].deep_view());
                    assert(stmts.deep_view() =~= pre.push(
                        StmtV::AlterTable { table: a.name, op: AlterOpV::AddColumn(cc_dv[kk]) },
                    ));
                    assert(cc_dv.take(i3 + 1 as int).drop_last() =~= cc_dv.take(i3 as int));
                    assert(cc_dv.take(i3 + 1 as int).last() == cc_dv[i3 as int]);
                    assert(stmts.deep_view() =~= seg2 + add_col_stmts(
                        a.name,
                        cc_dv.take(i3 + 1 as int),
                    ));
                }
                i3 += 1;
            }
            let ghost seg3 = seg2 + add_col_stmts(a.name, cc_dv);
            proof {
                assert(cc_dv.take(cc_dv.len() as int) =~= cc_dv);
                assert(cr_dv.take(0) =~= Seq::<ConstraintV>::empty());
                assert(stmts.deep_view() =~= seg3 + add_cons_stmts(a.name, cr_dv.take(0)));
            }
            let mut i4: usize = 0;
            while i4 < create_cons.len()
                invariant
                    i4 <= create_cons.len(),
                    a == self.deep_view(),
                    cr_dv == create_cons.deep_view(),
                    stmts.deep_view() == seg3 + add_cons_stmts(a.name, cr_dv.take(i4 as int)),
                decreases create_cons.len() - i4,
            {
                let ghost pre = stmts.deep_view();
                let stmt = self.create_cons(create_cons[i4].clone());
                stmts.push(stmt);
                proof {
                    let kk = i4 as int;
                    assert(create_cons.deep_view()[kk] == create_cons@[kk].deep_view());
                    assert(stmts.deep_view() =~= pre.push(
                        StmtV::AlterTable { table: a.name, op: AlterOpV::AddConstraint(cr_dv[kk]) },
                    ));
                    assert(cr_dv.take(i4 + 1 as int).drop_last() =~= cr_dv.take(i4 as int));
                    assert(cr_dv.take(i4 + 1 as int).last() == cr_dv[i4 as int]);
                    assert(stmts.deep_view() =~= seg3 + add_cons_stmts(
                        a.name,
                        cr_dv.take(i4 + 1 as int),
                    ));
                }
                i4 += 1;
            }
            proof {
                assert(cr_dv.take(cr_dv.len() as int) =~= cr_dv);
                assert(stmts.deep_view() =~= direct_path_stmts(a, b));
                assert(all_named(folded_del_cons(a, b)));
            }
            Ok(stmts)
        }
    }
}

} // verus!
