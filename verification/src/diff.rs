use vstd::prelude::*;

use crate::compare::entity_eq;
use crate::compare::modified;
use crate::compare::names_eq;
use crate::compare::Compare;
use crate::schema::Column;
use crate::schema::ColumnV;
use crate::schema::ConstraintV;
use crate::schema::Table;
use crate::schema::TableConstraint;

verus! {

/// Some entity of `now` is equal (name and body) to `t`.
pub open spec fn has_equal<T: Compare>(now: Seq<T::V>, t: T::V) -> bool {
    exists|k: int| 0 <= k < now.len() && entity_eq::<T>(now[k], t)
}


/// Some entity of `target` shares `c`'s name.
pub open spec fn has_name_match<T: Compare>(target: Seq<T::V>, c: T::V) -> bool {
    exists|k: int| 0 <= k < target.len() && names_eq::<T>(c, target[k])
}

/// One copy of `t` for every entity of `now` that `t` is a modification of,
/// in the order of `now`.
pub open spec fn change_one<T: Compare>(now: Seq<T::V>, t: T::V) -> Seq<T::V>
    decreases now.len(),
{
    if now.len() == 0 {
        Seq::empty()
    } else {
        change_one::<T>(now.drop_last(), t) + (if modified::<T>(t, now.last()) {
            seq![t]
        } else {
            Seq::empty()
        })
    }
}

/// The "to change" classification: for each target entity, one copy per
/// now-entity it modifies.
pub open spec fn change_seq<T: Compare>(now: Seq<T::V>, target: Seq<T::V>) -> Seq<T::V>
    decreases target.len(),
{
    if target.len() == 0 {
        Seq::empty()
    } else {
        change_seq::<T>(now, target.drop_last()) + change_one::<T>(now, target.last())
    }
}

/// The "to create" classification: the target entities with no equal
/// counterpart in `now`, in target order.
pub open spec fn create_seq<T: Compare>(now: Seq<T::V>, target: Seq<T::V>) -> Seq<T::V>
    decreases target.len(),
{
    if target.len() == 0 {
        Seq::empty()
    } else {
        create_seq::<T>(now, target.drop_last()) + (if !has_equal::<T>(now, target.last()) {
            seq![target.last()]
        } else {
            Seq::empty()
        })
    }
}

/// The "to delete" classification: the now-entities whose name matches no
/// target entity, in their original order.
pub open spec fn delete_seq<T: Compare>(now: Seq<T::V>, target: Seq<T::V>) -> Seq<T::V>
    decreases now.len(),
{
    if now.len() == 0 {
        Seq::empty()
    } else {
        delete_seq::<T>(now.drop_last(), target) + (if !has_name_match::<T>(target, now.last()) {
            seq![now.last()]
        } else {
            Seq::empty()
        })
    }
}

impl Table {
    /// Partitions `target` against `now` into (to delete, to change, to
    /// create). A modified entity lands in both "change" and "create":
    /// consumers must give "change" priority over "create" for a shared name.
    pub fn get_vecs<T: Compare>(now: &[T], target: &[T]) -> (r: (Vec<T>, Vec<T>, Vec<T>))
        ensures
            r.0.deep_view() == delete_seq::<T>(now.deep_view(), target.deep_view()),
            r.1.deep_view() == change_seq::<T>(now.deep_view(), target.deep_view()),
            r.2.deep_view() == create_seq::<T>(now.deep_view(), target.deep_view()),
    {
        let ghost now_dv = now.deep_view();
        let ghost target_dv = target.deep_view();
        let mut to_change: Vec<T> = Vec::new();
        let mut to_delete: Vec<T> = Vec::new();
        let mut to_create: Vec<T> = Vec::new();
        let mut i: usize = 0;
        while i < target.len()
            invariant
                i <= target.len(),
                now_dv == now.deep_view(),
                target_dv == target.deep_view(),
                to_change.deep_view() == change_seq::<T>(now_dv, target_dv.take(i as int)),
                to_create.deep_view() == create_seq::<T>(now_dv, target_dv.take(i as int)),
            decreases target.len() - i,
        {
            let c1 = &target[i];
            let ghost t_dv = c1.deep_view();
            let mut j: usize = 0;
            while j < now.len()
                invariant
                    j <= now.len(),
                    i < target.len(),
                    now_dv == now.deep_view(),
                    target_dv == target.deep_view(),
                    t_dv == target_dv[i as int],
                    c1.deep_view() == t_dv,
                    to_change.deep_view() == change_seq::<T>(now_dv, target_dv.take(i as int))
                        + change_one::<T>(now_dv.take(j as int), t_dv),
                decreases now.len() - j,
            {
                let ghost pre = to_change.deep_view();
                if c1.are_modified(&now[j]) {
                    to_change.push(c1.dup());
                    proof {
                        assert(to_change.deep_view() =~= pre.push(t_dv));
                    }
                }
                proof {
                    assert(now_dv.take(j + 1 as int).drop_last() =~= now_dv.take(j as int));
                    assert(now_dv.take(j + 1 as int).last() == now_dv[j as int]);
                    assert(to_change.deep_view() =~= change_seq::<T>(
                        now_dv,
                        target_dv.take(i as int),
                    ) + change_one::<T>(now_dv.take(j + 1 as int), t_dv));
                }
                j += 1;
            }
            proof {
                assert(now_dv.take(now_dv.len() as int) =~= now_dv);
            }
            let mut any_eq = false;
            let mut k: usize = 0;
            while k < now.len()
                invariant
                    k <= now.len(),
                    i < target.len(),
                    now_dv == now.deep_view(),
                    target_dv == target.deep_view(),
                    t_dv == target_dv[i as int],
                    c1.deep_view() == t_dv,
                    any_eq == exists|m: int| 0 <= m < k && entity_eq::<T>(now_dv[m], t_dv),
                decreases now.len() - k,
            {
                let eq_here = now[k].are_equal(c1);
                proof {
                    assert(now.deep_view()[k as int] == now@[k as int].deep_view());
                    assert(eq_here == entity_eq::<T>(now_dv[k as int], t_dv));
                }
                if eq_here {
                    any_eq = true;
                }
                k += 1;
            }
            let ghost pre_create = to_create.deep_view();
            if !any_eq {
                to_create.push(c1.dup());
                proof {
                    assert(!has_equal::<T>(now_dv, t_dv));
                    assert(to_create.deep_view() =~= pre_create.push(t_dv));
                }
            } else {
                proof {
                    assert(has_equal::<T>(now_dv, t_dv));
                }
            }
            proof {
                assert(target_dv.take(i + 1 as int).drop_last() =~= target_dv.take(i as int));
                assert(target_dv.take(i + 1 as int).last() == t_dv);
                assert(to_change.deep_view() =~= change_seq::<T>(
                    now_dv,
                    target_dv.take(i + 1 as int),
                ));
                assert(to_create.deep_view() =~= create_seq::<T>(
                    now_dv,
                    target_dv.take(i + 1 as int),
                ));
            }
            i += 1;
        }
        proof {
            assert(target_dv.take(target_dv.len() as int) =~= target_dv);
        }
        let mut i2: usize = 0;
        while i2 < now.len()
            invariant
                i2 <= now.len(),
                now_dv == now.deep_view(),
                target_dv == target.deep_view(),
                to_delete.deep_view() == delete_seq::<T>(now_dv.take(i2 as int), target_dv),
            decreases now.len() - i2,
        {
            let c0 = &now[i2];
            let ghost c_dv = c0.deep_view();
            let mut all_no = true;
            let mut k2: usize = 0;
            while k2 < target.len()
                invariant
                    k2 <= target.len(),
                    i2 < now.len(),
                    now_dv == now.deep_view(),
                    target_dv == target.deep_view(),
                    c_dv == now_dv[i2 as int],
                    c0.deep_view() == c_dv,
                    all_no == forall|m: int|
                        0 <= m < k2 ==> !entity_eq::<T>(c_dv, target_dv[m]) && !modified::<T>(
                            c_dv,
                            target_dv[m],
                        ),
                decreases target.len() - k2,
            {
                let eq_here = c0.are_equal(&target[k2]);
                let mod_here = c0.are_modified(&target[k2]);
                proof {
                    assert(target.deep_view()[k2 as int] == target@[k2 as int].deep_view());
                    assert(eq_here == entity_eq::<T>(c_dv, target_dv[k2 as int]));
                    assert(mod_here == modified::<T>(c_dv, target_dv[k2 as int]));
                }
                if eq_here || mod_here {
                    all_no = false;
                }
                k2 += 1;
            }
            let ghost pre_delete = to_delete.deep_view();
            if all_no {
                to_delete.push(c0.dup());
                proof {
                    assert(forall|m: int|
                        0 <= m < target_dv.len() ==> !names_eq::<T>(c_dv, target_dv[m]));
                    assert(!has_name_match::<T>(target_dv, c_dv));
                    assert(to_delete.deep_view() =~= pre_delete.push(c_dv));
                }
            } else {
                proof {
                    assert(has_name_match::<T>(target_dv, c_dv));
                }
            }
            proof {
                assert(now_dv.take(i2 + 1 as int).drop_last() =~= now_dv.take(i2 as int));
                assert(now_dv.take(i2 + 1 as int).last() == c_dv);
                assert(to_delete.deep_view() =~= delete_seq::<T>(
                    now_dv.take(i2 + 1 as int),
                    target_dv,
                ));
            }
            i2 += 1;
        }
        proof {
            assert(now_dv.take(now_dv.len() as int) =~= now_dv);
        }
        (to_delete, to_change, to_create)
    }

    /// The raw column diff of this table against `target`:
    /// (to delete, to change, to create).
    pub fn col_changes(&self, target: &Table) -> (r: (Vec<Column>, Vec<Column>, Vec<Column>))
        ensures
            r.0.deep_view() == delete_seq::<Column>(
                self.deep_view().columns,
                target.deep_view().columns,
            ),
            r.1.deep_view() == change_seq::<Column>(
                self.deep_view().columns,
                target.deep_view().columns,
            ),
            r.2.deep_view() == create_seq::<Column>(
                self.deep_view().columns,
                target.deep_view().columns,
            ),
    {
        Self::get_vecs(self.columns.as_slice(), target.columns.as_slice())
    }

    /// The constraint diff of this table against `target`, folded for
    /// statement synthesis: a changed constraint becomes one delete plus one
    /// create, and "change" takes priority over "create" for a shared name,
    /// so the raw create set is first narrowed to genuinely new names.
    pub fn constrs_changes(&self, target: &Table) -> (r: (
        Vec<TableConstraint>,
        Vec<TableConstraint>,
    ))
        ensures
            r.0.deep_view() == delete_seq::<TableConstraint>(
                self.deep_view().constraints,
                target.deep_view().constraints,
            ) + change_seq::<TableConstraint>(
                self.deep_view().constraints,
                target.deep_view().constraints,
            ),
            r.1.deep_view() == new_names_only::<TableConstraint>(
                create_seq::<TableConstraint>(
                    self.deep_view().constraints,
                    target.deep_view().constraints,
                ),
                change_seq::<TableConstraint>(
                    self.deep_view().constraints,
                    target.deep_view().constraints,
                ),
            ) + change_seq::<TableConstraint>(
                self.deep_view().constraints,
                target.deep_view().constraints,
            ),
    {
        let (to_delete, to_change, to_create) = Self::get_vecs(
            self.constraints.as_slice(),
            target.constraints.as_slice(),
        );
        let to_create = filter_new_names(to_create, &to_change);
        let (mut to_delete, mut to_create) = (to_delete, to_create);
        append_entities(&mut to_delete, &to_change);
        append_entities(&mut to_create, &to_change);
        (to_delete, to_create)
    }
}

/// The entities of `create` whose name matches nothing in `change`: the
/// creations that are genuinely new, not modifications recorded twice.
pub open spec fn new_names_only<T: Compare>(create: Seq<T::V>, change: Seq<T::V>) -> Seq<T::V>
    decreases create.len(),
{
    if create.len() == 0 {
        Seq::empty()
    } else {
        new_names_only::<T>(create.drop_last(), change) + (if !has_name_match::<T>(
            change,
            create.last(),
        ) {
            seq![create.last()]
        } else {
            Seq::empty()
        })
    }
}

/// Keeps the entities of `v` whose name matches nothing in `change`.
pub(crate) fn filter_new_names<T: Compare>(v: Vec<T>, change: &Vec<T>) -> (r: Vec<T>)
    ensures
        r.deep_view() == new_names_only::<T>(v.deep_view(), change.deep_view()),
{
    let ghost v_dv = v.deep_view();
    let ghost ch_dv = change.deep_view();
    let mut r: Vec<T> = Vec::new();
    let mut i: usize = 0;
    while i < v.len()
        invariant
            i <= v.len(),
            v_dv == v.deep_view(),
            ch_dv == change.deep_view(),
            r.deep_view() == new_names_only::<T>(v_dv.take(i as int), ch_dv),
        decreases v.len() - i,
    {
        let e = &v[i];
        let ghost e_dv = e.deep_view();
        let mut found = false;
        let mut k: usize = 0;
        while k < change.len()
            invariant
                k <= change.len(),
                i < v.len(),
                ch_dv == change.deep_view(),
                e_dv == v_dv[i as int],
                e.deep_view() == e_dv,
                found == exists|m: int| 0 <= m < k && names_eq::<T>(ch_dv[m], e_dv),
            decreases change.len() - k,
        {
            let match_here = change[k].names_are_equal(e);
            proof {
                assert(change.deep_view()[k as int] == change@[k as int].deep_view());
                assert(match_here == names_eq::<T>(ch_dv[k as int], e_dv));
            }
            if match_here {
                found = true;
            }
            k += 1;
        }
        let ghost pre = r.deep_view();
        if !found {
            r.push(e.dup());
            proof {
                assert(forall|m: int| 0 <= m < ch_dv.len() ==> !names_eq::<T>(ch_dv[m], e_dv));
                assert(forall|m: int| 0 <= m < ch_dv.len() ==> !names_eq::<T>(e_dv, ch_dv[m]));
                assert(!has_name_match::<T>(ch_dv, e_dv));
                assert(r.deep_view() =~= pre.push(e_dv));
            }
        } else {
            proof {
                let m = choose|m: int| 0 <= m < ch_dv.len() && names_eq::<T>(ch_dv[m], e_dv);
                assert(names_eq::<T>(e_dv, ch_dv[m]));
                assert(has_name_match::<T>(ch_dv, e_dv));
            }
        }
        proof {
            assert(v_dv.take(i + 1 as int).drop_last() =~= v_dv.take(i as int));
            assert(v_dv.take(i + 1 as int).last() == e_dv);
            assert(r.deep_view() =~= new_names_only::<T>(v_dv.take(i + 1 as int), ch_dv));
        }
        i += 1;
    }
    proof {
        assert(v_dv.take(v_dv.len() as int) =~= v_dv);
    }
    r
}

/// Appends duplicates of `src`'s entities to `dst`.
pub(crate) fn append_entities<T: Compare>(dst: &mut Vec<T>, src: &Vec<T>)
    ensures
        final(dst).deep_view() == old(dst).deep_view() + src.deep_view(),
{
    let ghost base = dst.deep_view();
    let ghost src_dv = src.deep_view();
    let mut i: usize = 0;
    while i < src.len()
        invariant
            i <= src.len(),
            src_dv == src.deep_view(),
            dst.deep_view() == base + src_dv.take(i as int),
        decreases src.len() - i,
    {
        let ghost pre = dst.deep_view();
        dst.push(src[i].dup());
        proof {
            assert(dst.deep_view() =~= pre.push(src_dv[i as int]));
            assert(dst.deep_view() =~= base + src_dv.take(i + 1 as int));
        }
        i += 1;
    }
    proof {
        assert(src_dv.take(src_dv.len() as int) =~= src_dv);
        assert(dst.deep_view() =~= base + src_dv);
    }
}


/// Every created entity is a target entity with no equal counterpart.
pub proof fn lemma_create_seq_elems<T: Compare>(now: Seq<T::V>, target: Seq<T::V>)
    ensures
        forall|m: int|
            0 <= m < create_seq::<T>(now, target).len() ==> (exists|i: int|
                0 <= i < target.len() && target[i] == #[trigger] create_seq::<T>(now, target)[m])
                && !has_equal::<T>(now, create_seq::<T>(now, target)[m]),
    decreases target.len(),
{
    if target.len() > 0 {
        lemma_create_seq_elems::<T>(now, target.drop_last());
        let whole = create_seq::<T>(now, target);
        let pre = create_seq::<T>(now, target.drop_last());
        assert forall|m: int| 0 <= m < whole.len() implies (exists|i: int|
            0 <= i < target.len() && target[i] == #[trigger] whole[m]) && !has_equal::<T>(
            now,
            whole[m],
        ) by {
            if m < pre.len() {
                assert(whole[m] == pre[m]);
                let i = choose|i: int|
                    0 <= i < target.drop_last().len() && target.drop_last()[i] == pre[m];
                assert(target[i] == whole[m]);
            } else {
                assert(whole[m] == target.last());
                assert(target[target.len() - 1] == whole[m]);
            }
        }
    }
}

/// Every entity kept by the new-names filter comes from the filtered
/// sequence and matches no name in `change`.
pub proof fn lemma_new_names_only_elems<T: Compare>(v: Seq<T::V>, change: Seq<T::V>)
    ensures
        forall|m: int|
            0 <= m < new_names_only::<T>(v, change).len() ==> (exists|j: int|
                0 <= j < v.len() && v[j] == #[trigger] new_names_only::<T>(v, change)[m])
                && !has_name_match::<T>(change, new_names_only::<T>(v, change)[m]),
    decreases v.len(),
{
    if v.len() > 0 {
        lemma_new_names_only_elems::<T>(v.drop_last(), change);
        let whole = new_names_only::<T>(v, change);
        let pre = new_names_only::<T>(v.drop_last(), change);
        assert forall|m: int| 0 <= m < whole.len() implies (exists|j: int|
            0 <= j < v.len() && v[j] == #[trigger] whole[m]) && !has_name_match::<T>(
            change,
            whole[m],
        ) by {
            if m < pre.len() {
                assert(whole[m] == pre[m]);
                let j = choose|j: int| 0 <= j < v.drop_last().len() && v.drop_last()[j] == pre[m];
                assert(v[j] == whole[m]);
            } else {
                assert(whole[m] == v.last());
                assert(v[v.len() - 1] == whole[m]);
            }
        }
    }
}

proof fn lemma_change_one_mem<T: Compare>(now: Seq<T::V>, t: T::V, j: int)
    requires
        0 <= j < now.len(),
        modified::<T>(t, now[j]),
    ensures
        exists|w: int| 0 <= w < change_one::<T>(now, t).len() && change_one::<T>(now, t)[w] == t,
    decreases now.len(),
{
    if j == now.len() - 1 {
        let pre = change_one::<T>(now.drop_last(), t);
        assert(change_one::<T>(now, t)[pre.len() as int] == t);
    } else {
        lemma_change_one_mem::<T>(now.drop_last(), t, j);
        let pre = change_one::<T>(now.drop_last(), t);
        let w = choose|w: int| 0 <= w < pre.len() && pre[w] == t;
        assert(change_one::<T>(now, t)[w] == t);
    }
}

/// A target entity that modifies some current entity occurs in the change
/// classification.
pub proof fn lemma_change_seq_mem<T: Compare>(now: Seq<T::V>, target: Seq<T::V>, i: int, j: int)
    requires
        0 <= i < target.len(),
        0 <= j < now.len(),
        modified::<T>(target[i], now[j]),
    ensures
        exists|w: int|
            0 <= w < change_seq::<T>(now, target).len() && change_seq::<T>(now, target)[w]
                == target[i],
    decreases target.len(),
{
    let whole = change_seq::<T>(now, target);
    let pre = change_seq::<T>(now, target.drop_last());
    if i == target.len() - 1 {
        lemma_change_one_mem::<T>(now, target.last(), j);
        let blk = change_one::<T>(now, target.last());
        let w = choose|w: int| 0 <= w < blk.len() && blk[w] == target.last();
        assert(whole[pre.len() + w] == target[i]);
    } else {
        assert(target.drop_last()[i] == target[i]);
        lemma_change_seq_mem::<T>(now, target.drop_last(), i, j);
        let w = choose|w: int| 0 <= w < pre.len() && pre[w] == target[i];
        assert(whole[w] == target[i]);
    }
}


/// A target entity with no equal counterpart occurs in the create
/// classification.
pub proof fn lemma_create_seq_mem<T: Compare>(now: Seq<T::V>, target: Seq<T::V>, j: int)
    requires
        0 <= j < target.len(),
        !has_equal::<T>(now, target[j]),
    ensures
        exists|m: int|
            0 <= m < create_seq::<T>(now, target).len() && create_seq::<T>(now, target)[m]
                == target[j],
    decreases target.len(),
{
    let whole = create_seq::<T>(now, target);
    let pre = create_seq::<T>(now, target.drop_last());
    if j == target.len() - 1 {
        assert(whole[pre.len() as int] == target[j]);
    } else {
        assert(target.drop_last()[j] == target[j]);
        lemma_create_seq_mem::<T>(now, target.drop_last(), j);
        let m = choose|m: int| 0 <= m < pre.len() && pre[m] == target[j];
        assert(whole[m] == target[j]);
    }
}

/// A current entity whose name matches nothing in the target occurs in the
/// delete classification.
pub proof fn lemma_delete_seq_mem<T: Compare>(now: Seq<T::V>, target: Seq<T::V>, k: int)
    requires
        0 <= k < now.len(),
        !has_name_match::<T>(target, now[k]),
    ensures
        exists|m: int|
            0 <= m < delete_seq::<T>(now, target).len() && delete_seq::<T>(now, target)[m]
                == now[k],
    decreases now.len(),
{
    let whole = delete_seq::<T>(now, target);
    let pre = delete_seq::<T>(now.drop_last(), target);
    if k == now.len() - 1 {
        assert(whole[pre.len() as int] == now[k]);
    } else {
        assert(now.drop_last()[k] == now[k]);
        lemma_delete_seq_mem::<T>(now.drop_last(), target, k);
        let m = choose|m: int| 0 <= m < pre.len() && pre[m] == now[k];
        assert(whole[m] == now[k]);
    }
}

/// An entity whose name matches nothing in `change` survives the new-names
/// filter.
pub proof fn lemma_new_names_only_mem<T: Compare>(v: Seq<T::V>, change: Seq<T::V>, j: int)
    requires
        0 <= j < v.len(),
        !has_name_match::<T>(change, v[j]),
    ensures
        exists|m: int|
            0 <= m < new_names_only::<T>(v, change).len() && new_names_only::<T>(v, change)[m]
                == v[j],
    decreases v.len(),
{
    let whole = new_names_only::<T>(v, change);
    let pre = new_names_only::<T>(v.drop_last(), change);
    if j == v.len() - 1 {
        assert(whole[pre.len() as int] == v[j]);
    } else {
        assert(v.drop_last()[j] == v[j]);
        lemma_new_names_only_mem::<T>(v.drop_last(), change, j);
        let m = choose|m: int| 0 <= m < pre.len() && pre[m] == v[j];
        assert(whole[m] == v[j]);
    }
}


/// Every deleted entity is a current entity whose name matches nothing in
/// the target.
pub proof fn lemma_delete_seq_elems_all<T: Compare>(now: Seq<T::V>, target: Seq<T::V>)
    ensures
        forall|m: int|
            0 <= m < delete_seq::<T>(now, target).len() ==> (exists|j: int|
                0 <= j < now.len() && now[j] == #[trigger] delete_seq::<T>(now, target)[m])
                && !has_name_match::<T>(target, delete_seq::<T>(now, target)[m]),
    decreases now.len(),
{
    if now.len() > 0 {
        lemma_delete_seq_elems_all::<T>(now.drop_last(), target);
        let whole = delete_seq::<T>(now, target);
        let pre = delete_seq::<T>(now.drop_last(), target);
        assert forall|m: int| 0 <= m < whole.len() implies (exists|j: int|
            0 <= j < now.len() && now[j] == #[trigger] whole[m]) && !has_name_match::<T>(
            target,
            whole[m],
        ) by {
            if m < pre.len() {
                assert(whole[m] == pre[m]);
                let j = choose|j: int|
                    0 <= j < now.drop_last().len() && now.drop_last()[j] == pre[m];
                assert(now[j] == whole[m]);
            } else {
                assert(whole[m] == now.last());
                assert(now[now.len() - 1] == whole[m]);
            }
        }
    }
}

} // verus!
