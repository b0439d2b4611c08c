use vstd::prelude::*;

use crate::schema::Column;
use crate::schema::ColumnV;
use crate::schema::ConstraintV;
use crate::schema::SchemaError;
use crate::schema::TableConstraint;

verus! {

/// The capability every diffable schema-entity kind offers: a (fallible)
/// name, body equality, and a duplication that provably preserves the
/// entity's model. The composite predicates — same name ("modified" when the
/// bodies differ, "equal" when they agree) — are derived once, here.
pub trait Compare: Sized + DeepView {
    /// The name of a modelled entity, if it can be derived.
    spec fn v_name(v: Self::V) -> Option<Seq<char>>;

    /// Body equality of two modelled entities: structural equality ignoring
    /// the name.
    spec fn v_body_eq(a: Self::V, b: Self::V) -> bool;

    /// Yields the entity's name, or `NameResolution` when it has none.
    fn name(&self) -> (r: Result<String, SchemaError>)
        ensures
            match r {
                Ok(n) => Self::v_name(self.deep_view()) == Some(n@),
                Err(e) => Self::v_name(self.deep_view()) is None && e
                    == SchemaError::NameResolution,
            },
    ;

    /// Structural equality ignoring the name.
    fn bodies_are_equal(&self, other: &Self) -> (r: bool)
        ensures
            r == Self::v_body_eq(self.deep_view(), other.deep_view()),
    ;

    /// A copy of the entity with the same model.
    fn dup(&self) -> (r: Self)
        ensures
            r.deep_view() == self.deep_view(),
    ;

    /// True iff both names can be derived and are equal. Fails closed: a
    /// name error means "not equal", and is neither propagated nor a panic.
    fn names_are_equal(&self, other: &Self) -> (r: bool)
        ensures
            r == (Self::v_name(self.deep_view()) is Some && Self::v_name(other.deep_view())
                is Some && Self::v_name(self.deep_view()) == Self::v_name(other.deep_view())),
    {
        let first = match self.name() {
            Ok(name) => name,
            Err(_) => {
                return false;
            },
        };
        let second = match other.name() {
            Ok(name) => name,
            Err(_) => {
                return false;
            },
        };
        first == second
    }

    /// Same name, different body.
    fn are_modified(&self, other: &Self) -> (r: bool)
        ensures
            r == (Self::v_name(self.deep_view()) is Some && Self::v_name(other.deep_view())
                is Some && Self::v_name(self.deep_view()) == Self::v_name(other.deep_view())
                && !Self::v_body_eq(self.deep_view(), other.deep_view())),
    {
        let names = self.names_are_equal(other);
        let bodies = self.bodies_are_equal(other);
        names && !bodies
    }

    /// Same name, same body.
    fn are_equal(&self, other: &Self) -> (r: bool)
        ensures
            r == (Self::v_name(self.deep_view()) is Some && Self::v_name(other.deep_view())
                is Some && Self::v_name(self.deep_view()) == Self::v_name(other.deep_view())
                && Self::v_body_eq(self.deep_view(), other.deep_view())),
    {
        self.names_are_equal(other) && self.bodies_are_equal(other)
    }
}

/// Both entities yield a name, and the names agree.
pub open spec fn names_eq<T: Compare>(a: T::V, b: T::V) -> bool {
    T::v_name(a) is Some && T::v_name(b) is Some && T::v_name(a) == T::v_name(b)
}

/// Same name, different body.
pub open spec fn modified<T: Compare>(a: T::V, b: T::V) -> bool {
    names_eq::<T>(a, b) && !T::v_body_eq(a, b)
}

/// Same name, same body.
pub open spec fn entity_eq<T: Compare>(a: T::V, b: T::V) -> bool {
    names_eq::<T>(a, b) && T::v_body_eq(a, b)
}

impl Compare for Column {
    /// A column always yields its name.
    open spec fn v_name(v: ColumnV) -> Option<Seq<char>> {
        Some(v.name)
    }

    /// A column's body is its type and nullability.
    open spec fn v_body_eq(a: ColumnV, b: ColumnV) -> bool {
        a.data_type == b.data_type && a.nullable == b.nullable
    }

    fn name(&self) -> (r: Result<String, SchemaError>) {
        Ok(self.name.clone())
    }

    fn bodies_are_equal(&self, other: &Self) -> (r: bool) {
        self.data_type == other.data_type && self.nullable == other.nullable
    }

    fn dup(&self) -> (r: Self) {
        self.clone()
    }
}

impl Compare for TableConstraint {
    /// A constraint yields its name only when it has one.
    open spec fn v_name(v: ConstraintV) -> Option<Seq<char>> {
        v.name
    }

    /// A constraint's body is its kind and the columns it refers to.
    open spec fn v_body_eq(a: ConstraintV, b: ConstraintV) -> bool {
        a.kind == b.kind && a.columns == b.columns
    }

    fn name(&self) -> (r: Result<String, SchemaError>) {
        match &self.name {
            Some(n) => Ok(n.clone()),
            None => Err(SchemaError::NameResolution),
        }
    }

    fn bodies_are_equal(&self, other: &Self) -> (r: bool) {
        if !(self.kind == other.kind) {
            return false;
        }
        if self.columns.len() != other.columns.len() {
            proof {
                assert(self.deep_view().columns.len() != other.deep_view().columns.len());
            }
            return false;
        }
        let mut i: usize = 0;
        while i < self.columns.len()
            invariant
                i <= self.columns.len(),
                self.columns@.len() == other.columns@.len(),
                forall|k: int|
                    0 <= k < i ==> self.deep_view().columns[k] == other.deep_view().columns[k],
            decreases self.columns.len() - i,
        {
            if !(self.columns[i] == other.columns[i]) {
                proof {
                    let k = i as int;
                    assert(self.deep_view().columns[k] != other.deep_view().columns[k]);
                }
                return false;
            }
            i += 1;
        }
        proof {
            assert(self.deep_view().columns =~= other.deep_view().columns);
        }
        true
    }

    fn dup(&self) -> (r: Self) {
        self.clone()
    }
}

} // verus!
