use vstd::prelude::*;

verus! {

/// The errors this planning core can surface: an entity whose name cannot be
/// derived, a missing dialect configuration, or a generated statement text
/// that failed to parse.
#[derive(Clone, Copy, PartialEq, Eq, Structural, Debug)]
pub enum SchemaError {
    NameResolution,
    DialectConfiguration,
    StatementConstruction,
}

/// The capability of the target store that this core consults: whether any
/// structural change beyond pure column addition must go through the
/// rebuild (move) strategy.
#[derive(Clone, Copy, PartialEq, Eq, Structural, Debug)]
pub struct Dialect {
    pub requires_move: bool,
}

impl Dialect {
    pub fn requires_move(&self) -> (r: bool)
        ensures
            r == self.requires_move,
    {
        self.requires_move
    }
}

/// The kind of a table constraint.
#[derive(Clone, Copy, PartialEq, Eq, Structural, Debug)]
pub enum ConstraintKind {
    PrimaryKey,
    ForeignKey,
    Unique,
    Check,
}

/// A column of a table: its name, its type, and whether it is nullable.
/// The name is the column's identity for diffing; the remaining fields are
/// its body.
#[derive(Debug)]
pub struct Column {
    pub name: String,
    pub data_type: String,
    pub nullable: bool,
}

/// The mathematical model of a [`Column`].
#[verifier::ext_equal]
pub ghost struct ColumnV {
    pub name: Seq<char>,
    pub data_type: Seq<char>,
    pub nullable: bool,
}

/// A table constraint: an optional name (some constraints cannot yield one),
/// a kind, and the column names it refers to.
#[derive(PartialEq, Debug)]
pub struct TableConstraint {
    pub name: Option<String>,
    pub kind: ConstraintKind,
    pub columns: Vec<String>,
}

/// The mathematical model of a [`TableConstraint`].
#[verifier::ext_equal]
pub ghost struct ConstraintV {
    pub name: Option<Seq<char>>,
    pub kind: ConstraintKind,
    pub columns: Seq<Seq<char>>,
}

/// A table: its name, its ordered columns, and its constraints.
#[derive(PartialEq, Debug)]
pub struct Table {
    pub name: String,
    pub columns: Vec<Column>,
    pub constraints: Vec<TableConstraint>,
}

/// The mathematical model of a [`Table`].
#[verifier::ext_equal]
pub ghost struct TableV {
    pub name: Seq<char>,
    pub columns: Seq<ColumnV>,
    pub constraints: Seq<ConstraintV>,
}

impl DeepView for Column {
    type V = ColumnV;

    open spec fn deep_view(&self) -> ColumnV {
        ColumnV { name: self.name@, data_type: self.data_type@, nullable: self.nullable }
    }
}

impl DeepView for TableConstraint {
    type V = ConstraintV;

    open spec fn deep_view(&self) -> ConstraintV {
        ConstraintV {
            name: self.name.deep_view(),
            kind: self.kind,
            columns: self.columns.deep_view(),
        }
    }
}

impl DeepView for Table {
    type V = TableV;

    open spec fn deep_view(&self) -> TableV {
        TableV {
            name: self.name@,
            columns: self.columns.deep_view(),
            constraints: self.constraints.deep_view(),
        }
    }
}

impl PartialEq for Column {
    /// Structural equality of columns: name and body.
    fn eq(&self, other: &Self) -> (r: bool) {
        self.name == other.name && self.data_type == other.data_type && self.nullable
            == other.nullable
    }
}

impl vstd::std_specs::cmp::PartialEqSpecImpl for Column {
    open spec fn obeys_eq_spec() -> bool {
        true
    }

    open spec fn eq_spec(&self, other: &Self) -> bool {
        self.deep_view() == other.deep_view()
    }
}

impl Clone for Column {
    fn clone(&self) -> (r: Self)
        ensures
            r.deep_view() == self.deep_view(),
    {
        Column {
            name: self.name.clone(),
            data_type: self.data_type.clone(),
            nullable: self.nullable,
        }
    }
}

impl Clone for TableConstraint {
    fn clone(&self) -> (r: Self)
        ensures
            r.deep_view() == self.deep_view(),
    {
        let name = match &self.name {
            Some(n) => Some(n.clone()),
            None => None,
        };
        let columns = clone_string_vec(&self.columns);
        let r = TableConstraint { name, kind: self.kind, columns };
        proof {
            assert(r.deep_view() =~= self.deep_view());
        }
        r
    }
}

impl Clone for Table {
    fn clone(&self) -> (r: Self)
        ensures
            r.deep_view() == self.deep_view(),
    {
        let mut columns: Vec<Column> = Vec::new();
        let mut i: usize = 0;
        while i < self.columns.len()
            invariant
                i <= self.columns.len(),
                columns@.len() == i,
                columns.deep_view() =~= self.columns.deep_view().take(i as int),
            decreases self.columns.len() - i,
        {
            columns.push(self.columns[i].clone());
            proof {
                assert(columns.deep_view() =~~= self.columns.deep_view().take(i + 1 as int));
            }
            i += 1;
        }
        let mut constraints: Vec<TableConstraint> = Vec::new();
        let mut j: usize = 0;
        while j < self.constraints.len()
            invariant
                j <= self.constraints.len(),
                constraints@.len() == j,
                constraints.deep_view() =~= self.constraints.deep_view().take(j as int),
            decreases self.constraints.len() - j,
        {
            constraints.push(self.constraints[j].clone());
            proof {
                assert(constraints.deep_view() =~~= self.constraints.deep_view().take(
                    j + 1 as int,
                ));
            }
            j += 1;
        }
        let r = Table { name: self.name.clone(), columns, constraints };
        proof {
            assert(r.deep_view() =~= self.deep_view());
        }
        r
    }
}

/// Clones a vector of strings, preserving its model exactly.
fn clone_string_vec(v: &Vec<String>) -> (r: Vec<String>)
    ensures
        r.deep_view() == v.deep_view(),
{
    let mut r: Vec<String> = Vec::new();
    let mut i: usize = 0;
    while i < v.len()
        invariant
            i <= v.len(),
            r@.len() == i,
            r.deep_view() =~= v.deep_view().take(i as int),
        decreases v.len() - i,
    {
        r.push(v[i].clone());
        proof {
            assert(r.deep_view() =~~= v.deep_view().take(i + 1 as int));
        }
        i += 1;
    }
    proof {
        assert(r.deep_view() =~= v.deep_view());
    }
    r
}

} // verus!
