use vstd::prelude::*;

use crate::compare::names_eq;
use crate::compare::Compare;
use crate::diff::has_name_match;
use crate::schema::Column;
use crate::schema::TableConstraint;

verus! {

/// A four-way classification over references into a table's entities,
/// assembled by the broader scheduler that plans across tables; this core
/// only answers membership queries against it, by name equality.
pub struct CRUD<'table, T> {
    pub create: Vec<&'table T>,
    pub delete: Vec<&'table T>,
    pub update: Vec<&'table T>,
    pub keep: Vec<&'table T>,
}

pub type ColCRUD<'table> = CRUD<'table, Column>;

pub type ConsCRUD<'table> = CRUD<'table, TableConstraint>;

impl<'table, T: Compare> CRUD<'table, T> {
    /// Is an entity with `obj`'s name slated for deletion?
    pub fn to_delete(&self, obj: &T) -> (r: bool)
        ensures
            r == has_name_match::<T>(self.delete.deep_view(), obj.deep_view()),
    {
        any_name_match(&self.delete, obj)
    }

    /// Is an entity with `obj`'s name slated for update?
    pub fn _to_update(&self, obj: &T) -> (r: bool)
        ensures
            r == has_name_match::<T>(self.update.deep_view(), obj.deep_view()),
    {
        any_name_match(&self.update, obj)
    }

    /// Is an entity with `obj`'s name slated for creation?
    pub fn _to_create(&self, obj: &T) -> (r: bool)
        ensures
            r == has_name_match::<T>(self.create.deep_view(), obj.deep_view()),
    {
        any_name_match(&self.create, obj)
    }
}

/// Does any entity of `list` share `obj`'s name?
fn any_name_match<'t, T: Compare>(list: &Vec<&'t T>, obj: &T) -> (r: bool)
    ensures
        r == has_name_match::<T>(list.deep_view(), obj.deep_view()),
{
    let ghost l_dv = list.deep_view();
    let ghost o_dv = obj.deep_view();
    let mut found = false;
    let mut k: usize = 0;
    while k < list.len()
        invariant
            k <= list.len(),
            l_dv == list.deep_view(),
            o_dv == obj.deep_view(),
            found == exists|m: int| 0 <= m < k && names_eq::<T>(o_dv, l_dv[m]),
        decreases list.len() - k,
    {
        let match_here = list[k].names_are_equal(obj);
        proof {
            assert(list.deep_view()[k as int] == list@[k as int].deep_view());
            assert(match_here == names_eq::<T>(l_dv[k as int], o_dv));
            assert(match_here == names_eq::<T>(o_dv, l_dv[k as int]));
        }
        if match_here {
            found = true;
        }
        k += 1;
    }
    found
}

} // verus!
