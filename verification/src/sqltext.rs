use vstd::prelude::*;
use vstd::string::StringExecFns;

use crate::schema::ColumnV;
use crate::schema::Table;
use crate::schema::TableV;

verus! {

/// The comma-joined list of the column names of `cols`, in order.
pub open spec fn joined_col_names(cols: Seq<ColumnV>) -> Seq<char>
    decreases cols.len(),
{
    if cols.len() == 0 {
        Seq::empty()
    } else if cols.len() == 1 {
        cols[0].name
    } else {
        joined_col_names(cols.drop_last()) + seq![','] + cols.last().name
    }
}

/// The copy statement's text: INSERT the common column list of the new
/// table, SELECTed from the old one.
pub open spec fn insert_select_sql(
    target_name: Seq<char>,
    target_cols: Seq<char>,
    source_cols: Seq<char>,
    source_name: Seq<char>,
) -> Seq<char> {
    "INSERT INTO "@ + target_name + " ("@ + target_cols + ") SELECT "@ + source_cols + " FROM "@
        + source_name + ";"@
}

/// The text of the copy statement that moves `source`'s rows into `target`.
pub open spec fn move_sql(target: TableV, source: TableV) -> Seq<char> {
    insert_select_sql(
        target.name,
        joined_col_names(target.columns),
        joined_col_names(source.columns),
        source.name,
    )
}

/// Whether the copy statement's text parses to at least one statement, which
/// is what statement construction demands.
pub open spec fn move_sql_ok(target: TableV, source: TableV) -> bool {
    match parsed_statement_count(move_sql(target, source)) {
        Some(n) => n >= 1,
        None => false,
    }
}

impl Table {
    /// Renders this table's column names as a comma-joined list.
    pub fn cols_to_string(&self) -> (r: String)
        ensures
            r@ == joined_col_names(self.deep_view().columns),
    {
        let ghost cols_dv = self.deep_view().columns;
        let mut out = String::new();
        let mut i: usize = 0;
        while i < self.columns.len()
            invariant
                i <= self.columns.len(),
                cols_dv == self.deep_view().columns,
                out@ == joined_col_names(cols_dv.take(i as int)),
            decreases self.columns.len() - i,
        {
            if i > 0 {
                out.append(",");
            }
            out.append(self.columns[i].name.as_str());
            proof {
                reveal_strlit(",");
                assert(","@ =~= seq![',']);
                assert(self.deep_view().columns[i as int] == self.columns@[i as int].deep_view());
                let upto = cols_dv.take(i + 1 as int);
                assert(upto.drop_last() =~= cols_dv.take(i as int));
                assert(upto.last() == cols_dv[i as int]);
                if i == 0 {
                    assert(out@ =~= joined_col_names(upto));
                } else {
                    assert(out@ =~= joined_col_names(upto));
                }
            }
            i += 1;
        }
        proof {
            assert(cols_dv.take(cols_dv.len() as int) =~= cols_dv);
        }
        out
    }

    /// Renders the copy statement's text for moving this table's rows into
    /// `target`.
    pub fn move_sql_text(&self, target: &Table) -> (r: String)
        ensures
            r@ == move_sql(target.deep_view(), self.deep_view()),
    {
        let mut out = String::new();
        out.append("INSERT INTO ");
        out.append(target.name.as_str());
        out.append(" (");
        let tcols = target.cols_to_string();
        out.append(tcols.as_str());
        out.append(") SELECT ");
        let scols = self.cols_to_string();
        out.append(scols.as_str());
        out.append(" FROM ");
        out.append(self.name.as_str());
        out.append(";");
        proof {
            assert(out@ =~= move_sql(target.deep_view(), self.deep_view()));
        }
        out
    }
}

/// The number of statements sqlparser's parser yields for a given text, or
/// nothing when the text does not parse. The parse is a function of the text
/// alone.
pub uninterp spec fn parsed_statement_count(sql: Seq<char>) -> Option<nat>;

#[verifier::external_type_specification]
#[verifier::external_body]
pub struct ExParserError(sqlparser::parser::ParserError);

/// Relies on sqlparser's `Parser::parse_sql` with its generic dialect: it
/// parses SQL text into a sequence of statements; the outcome depends on the
/// text alone. Only how many statements the text parsed to is of interest
/// here, so the statements themselves are reduced to their count.
#[verifier::external_body]
pub(crate) fn parse_sql_count(sql: &str) -> (r: Result<usize, sqlparser::parser::ParserError>)
    ensures
        match r {
            Ok(n) => parsed_statement_count(sql@) == Some(n as nat),
            Err(_) => parsed_statement_count(sql@) is None,
        },
{
    sqlparser::parser::Parser::parse_sql(&sqlparser::dialect::GenericDialect {}, sql).map(
        |stmts| stmts.len(),
    )
}

} // verus!
