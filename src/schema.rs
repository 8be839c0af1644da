//! The schema of an export: for each table, its columns' names and types.
use vstd::prelude::*;
use crate::error::{ExportError, ExportFileError};
use crate::export::ExportFile;
use crate::table::{Column, Table};

verus! {

/// A table's columns as (name, type) pairs, in column order.
pub open spec fn columns_schema<G>(cols: Seq<Column<G>>) -> Seq<(Seq<char>, Seq<char>)> {
    cols.map_values(|c: Column<G>| (c.name@, c.sql_type@))
}

/// Each table's id with its columns' (name, type) pairs, in table order.
pub open spec fn tables_schema<G>(tables: Seq<Table<G>>) -> Seq<(Seq<char>, Seq<(Seq<char>, Seq<char>)>)> {
    tables.map_values(|t: Table<G>| (t.spec_id_value(), columns_schema(t.spec_columns())))
}

/// The characters of a built schema.
pub open spec fn schema_view(s: Seq<(String, Vec<(String, String)>)>) -> Seq<(Seq<char>, Seq<(Seq<char>, Seq<char>)>)> {
    s.map_values(|e: (String, Vec<(String, String)>)|
        (e.0@, e.1@.map_values(|c: (String, String)| (c.0@, c.1@))))
}

/// The JSON text of a schema: an object keyed by table id whose values are
/// objects keyed by column name, each mapped to the column's type.
pub uninterp spec fn schema_json_text(schema: Seq<(Seq<char>, Seq<(Seq<char>, Seq<char>)>)>) -> Seq<char>;

/// The names of a table's columns.
pub open spec fn column_names<G>(t: Table<G>) -> Seq<Seq<char>> {
    t.spec_columns().map_values(|c: Column<G>| c.name@)
}

/// No two of the first `n` names are equal.
pub open spec fn distinct_upto(names: Seq<Seq<char>>, n: int) -> bool {
    forall|a: int, b: int| 0 <= a < b < n ==> names[a] != names[b]
}

/// Name `j` repeats an earlier one.
pub open spec fn repeats_earlier(names: Seq<Seq<char>>, j: int) -> bool {
    exists|a: int| 0 <= a < j && names[a] == names[j]
}

/// Table `i` has distinct column names and an id that no earlier table has.
pub open spec fn table_clean<G>(tables: Seq<Table<G>>, i: int) -> bool {
    &&& distinct_upto(column_names(tables[i]), tables[i].spec_columns().len() as int)
    &&& forall|k: int| 0 <= k < i ==> tables[k].spec_id_value() != tables[i].spec_id_value()
}

/// The first `n` tables are clean.
pub open spec fn clean_upto<G>(tables: Seq<Table<G>>, n: int) -> bool {
    forall|k: int| 0 <= k < n ==> #[trigger] table_clean(tables, k)
}

/// `e` is the error of table `i`: the first repeated column name of its
/// columns, or, where they are distinct, its repeated id.
pub open spec fn table_error<G>(tables: Seq<Table<G>>, i: int, e: ExportFileError) -> bool {
    let t = tables[i];
    let names = column_names(t);
    if !distinct_upto(names, t.spec_columns().len() as int) {
        exists|j: int|
            0 <= j < names.len() && distinct_upto(names, j) && repeats_earlier(names, j)
            && (e matches ExportFileError::DuplicateColumns { table, column }
                && table@ == t.spec_id_value() && column@ == names[j])
    } else {
        e matches ExportFileError::DuplicateTables { table } && table@ == t.spec_id_value()
    }
}

/// `e` is what schema building fails with: the error of the first table that is not clean.
pub open spec fn schema_error<G>(tables: Seq<Table<G>>, e: ExportFileError) -> bool {
    exists|i: int| 0 <= i < tables.len() && clean_upto(tables, i) && !table_clean(tables, i)
        && table_error(tables, i, e)
}

/// Relies on `serde_json::to_string` of an object of objects of strings.
/// serde_json's `Map` (without its `preserve_order` feature) keeps keys in
/// sorted order, so the text depends on the entries alone. `to_string` fails
/// only where a `Serialize` impl fails or a map key is not a string; a `Value`
/// with `String` keys written to a `Vec` does neither.
#[verifier::external_body]
fn encode_schema(schema: &Vec<(String, Vec<(String, String)>)>) -> (r: Result<String, serde_json::Error>)
    ensures
        r is Ok,
        r matches Ok(s) ==> s@ == schema_json_text(schema_view(schema@)),
{
    let mut outer = serde_json::Map::new();
    for (table, cols) in schema.iter() {
        let inner: serde_json::Map<String, serde_json::Value> = cols.iter().map(
            |c| (c.0.clone(), serde_json::Value::String(c.1.clone())),
        ).collect();
        outer.insert(table.clone(), serde_json::Value::Object(inner));
    }
    serde_json::to_string(&serde_json::Value::Object(outer))
}

impl<G> ExportFile<G> {
    /// The schema: for each table, in order, its id with its columns' names and
    /// types, in order. Fails with `DuplicateColumns` at the first column whose
    /// name repeats within its table, or with `DuplicateTables` at the first
    /// table whose id repeats, whichever comes first, tables taken in order and
    /// each table's columns checked before its id.
    pub fn build_schema(&self) -> (r: Result<Vec<(String, Vec<(String, String)>)>, ExportFileError>)
        ensures
            r is Ok <==> clean_upto(self.spec_tables(), self.spec_tables().len() as int),
            r matches Ok(s) ==> schema_view(s@) == tables_schema(self.spec_tables()),
            r matches Err(e) ==> schema_error(self.spec_tables(), e),
    {
        let ghost tables = self.spec_tables();
        let mut schema: Vec<(String, Vec<(String, String)>)> = Vec::new();
        let mut i: usize = 0;
        while i < self.tables().len()
            invariant
                tables == self.spec_tables(),
                i <= tables.len(),
                clean_upto(tables, i as int),
                schema@.len() == i,
                schema_view(schema@) =~= tables_schema(tables.take(i as int)),
            decreases tables.len() - i,
        {
            let t = &self.tables()[i];
            let ghost names = column_names(*t);
            let mut cols: Vec<(String, String)> = Vec::new();
            let mut j: usize = 0;
            while j < t.columns().len()
                invariant
                    tables == self.spec_tables(),
                    clean_upto(tables, i as int),
                    i < tables.len(),
                    *t == tables[i as int],
                    names == column_names(*t),
                    j <= t.spec_columns().len(),
                    distinct_upto(names, j as int),
                    cols@.len() == j,
                    forall|m: int| 0 <= m < j ==> (#[trigger] cols@[m]).0@ == names[m]
                        && cols@[m].1@ == t.spec_columns()[m].sql_type@,
                decreases t.spec_columns().len() - j,
            {
                let c = &t.columns()[j];
                let mut m: usize = 0;
                while m < cols.len()
                    invariant
                        tables == self.spec_tables(),
                        clean_upto(tables, i as int),
                        i < tables.len(),
                        *t == tables[i as int],
                        distinct_upto(names, j as int),
                        m <= cols@.len() == j,
                        j < t.spec_columns().len(),
                        *c == t.spec_columns()[j as int],
                        names == column_names(*t),
                        forall|q: int| 0 <= q < j ==> (#[trigger] cols@[q]).0@ == names[q],
                        forall|q: int| 0 <= q < m ==> names[q] != names[j as int],
                    decreases j - m,
                {
                    if cols[m].0 == c.name {
                        let err = ExportFileError::DuplicateColumns {
                            table: t.id_value().clone(),
                            column: c.name.clone(),
                        };
                        proof {
                            assert(names[j as int] == c.name@);
                            assert(0 <= j < names.len());
                            assert(names[m as int] == names[j as int]);
                            assert(repeats_earlier(names, j as int));
                            assert(!distinct_upto(names, t.spec_columns().len() as int));
                            assert(table_error(tables, i as int, err));
                            assert(!table_clean(tables, i as int));
                        }
                        return Err(err);
                    }
                    m = m + 1;
                }
                cols.push((c.name.clone(), c.sql_type.clone()));
                j = j + 1;
            }
            let mut k: usize = 0;
            while k < schema.len()
                invariant
                    names == column_names(*t),
                    distinct_upto(names, t.spec_columns().len() as int),
                    tables == self.spec_tables(),
                    clean_upto(tables, i as int),
                    k <= schema@.len() == i,
                    i < tables.len(),
                    *t == tables[i as int],
                    schema_view(schema@) =~= tables_schema(tables.take(i as int)),
                    forall|q: int| 0 <= q < k ==> tables[q].spec_id_value() != tables[i as int].spec_id_value(),
                decreases i - k,
            {
                assert(schema_view(schema@)[k as int].0 == tables[k as int].spec_id_value());
                if schema[k].0 == *t.id_value() {
                    let err = ExportFileError::DuplicateTables { table: t.id_value().clone() };
                    proof {
                        assert(distinct_upto(names, t.spec_columns().len() as int));
                        assert(table_error(tables, i as int, err));
                        assert(!table_clean(tables, i as int));
                    }
                    return Err(err);
                }
                k = k + 1;
            }
            let ghost cols_view = cols@.map_values(|c: (String, String)| (c.0@, c.1@));
            assert(cols_view =~= columns_schema(t.spec_columns()));
            assert(table_clean(tables, i as int));
            let ghost old_schema = schema@;
            let entry = (t.id_value().clone(), cols);
            schema.push(entry);
            proof {
                assert(schema@ == old_schema.push(entry));
                assert(schema_view(schema@) =~= schema_view(old_schema).push(
                    (t.spec_id_value(), cols_view),
                ));
                assert(tables.take(i as int + 1) =~= tables.take(i as int).push(tables[i as int]));
                assert(tables_schema(tables.take(i as int + 1)) =~= tables_schema(
                    tables.take(i as int),
                ).push((t.spec_id_value(), columns_schema(t.spec_columns()))));
            }
            i = i + 1;
        }
        assert(tables.take(i as int) =~= tables);
        Ok(schema)
    }

    /// The schema as JSON text: an object keyed by table id, each value an
    /// object keyed by column name mapped to the column's type. Succeeds
    /// exactly where building the schema does, and otherwise fails with its error.
    pub fn get_schema_json_str(&self) -> (r: Result<String, ExportError>)
        ensures
            r is Ok <==> clean_upto(self.spec_tables(), self.spec_tables().len() as int),
            r matches Ok(s) ==> s@ == schema_json_text(tables_schema(self.spec_tables())),
            !clean_upto(self.spec_tables(), self.spec_tables().len() as int) ==> (r matches Err(
                ExportError::Invalid(e),
            ) && schema_error(self.spec_tables(), e)),
            r matches Err(e) ==> e is Invalid,
    {
        match self.build_schema() {
            Ok(schema) => match encode_schema(&schema) {
                Ok(s) => Ok(s),
                Err(e) => Err(ExportError::Json(e)),
            },
            Err(e) => Err(ExportError::Invalid(e)),
        }
    }
}

} // verus!
