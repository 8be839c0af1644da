//! Columns, tables, and the generation of a table's rows.
use vstd::prelude::*;
use crate::error::ExportError;
use crate::fraction::{Fraction, share_of, share_of_bytes};
use crate::text::{views, join, join_fields};

verus! {

/// Produces the value of one column on demand. Implementations are called
/// many times and must not depend on shared mutable state.
pub trait ValueGenerator {
    fn generate(&self) -> anyhow::Result<String>;
}

/// A named column of a declared byte width, with the generator of its values.
#[derive(Debug, Clone)]
pub struct Column<G> {
    pub name: String,
    pub size: u64,
    pub sql_type: String,
    pub generator: G,
}

impl<G> Column<G> {
    pub fn new(name: String, size: u64, sql_type: String, generator: G) -> (r: Column<G>)
        ensures
            r.name == name,
            r.size == size,
            r.sql_type == sql_type,
            r.generator == generator,
    {
        Column { name, size, sql_type, generator }
    }
}

/// The sum of the declared sizes of `cols`.
pub open spec fn sizes_sum<G>(cols: Seq<Column<G>>) -> int
    decreases cols.len(),
{
    if cols.len() == 0 {
        0
    } else {
        sizes_sum(cols.drop_last()) + cols.last().size
    }
}

/// One row: the id, then one value per column, joined by `delim`, then a newline.
pub open spec fn row_text(id: Seq<char>, values: Seq<Seq<char>>, delim: Seq<char>) -> Seq<char> {
    join(seq![id] + values, delim) + seq!['\n']
}

/// The rows of a table, one after another.
pub open spec fn rows_text(id: Seq<char>, rows: Seq<Seq<Seq<char>>>, delim: Seq<char>) -> Seq<char>
    decreases rows.len(),
{
    if rows.len() == 0 {
        Seq::empty()
    } else {
        rows_text(id, rows.drop_last(), delim) + row_text(id, rows.last(), delim)
    }
}

/// Every row of `rows` holds `n` values.
pub open spec fn rows_shaped(rows: Seq<Seq<Seq<char>>>, n: int) -> bool {
    forall|i: int| 0 <= i < rows.len() ==> #[trigger] rows[i].len() == n
}

/// A row as fields: the id first, then `n` values.
pub open spec fn fields_shaped(fields: Seq<String>, id: Seq<char>, n: int) -> bool {
    fields.len() == n + 1 && fields[0]@ == id
}

/// A table: its id, its columns, the delimiter of its rows and its share of a file.
#[derive(Debug, Clone)]
pub struct Table<G> {
    id_value: String,
    columns: Vec<Column<G>>,
    delimiter: String,
    percent_size: Fraction,
    row_size_bytes: u64,
}

impl<G> Table<G> {
    /// The table's id.
    pub closed spec fn spec_id_value(&self) -> Seq<char> {
        self.id_value@
    }

    /// The table's columns, in order.
    pub closed spec fn spec_columns(&self) -> Seq<Column<G>> {
        self.columns@
    }

    /// The delimiter between a row's fields.
    pub closed spec fn spec_delimiter(&self) -> Seq<char> {
        self.delimiter@
    }

    /// The table's share of a file.
    pub closed spec fn spec_percent_size(&self) -> Fraction {
        self.percent_size
    }

    /// The bytes of one row: the sum of the columns' declared sizes.
    pub closed spec fn spec_row_size_bytes(&self) -> u64 {
        self.row_size_bytes
    }

    pub fn id_value(&self) -> (r: &String)
        ensures
            r@ == self.spec_id_value(),
    {
        &self.id_value
    }

    pub fn columns(&self) -> (r: &Vec<Column<G>>)
        ensures
            r@ == self.spec_columns(),
    {
        &self.columns
    }

    pub fn delimiter(&self) -> (r: &String)
        ensures
            r@ == self.spec_delimiter(),
    {
        &self.delimiter
    }

    #[verifier::when_used_as_spec(spec_percent_size)]
    pub fn percent_size(&self) -> (r: Fraction)
        ensures
            r == self.spec_percent_size(),
    {
        self.percent_size
    }

    #[verifier::when_used_as_spec(spec_row_size_bytes)]
    pub fn row_size_bytes(&self) -> (r: u64)
        ensures
            r == self.spec_row_size_bytes(),
    {
        self.row_size_bytes
    }

    /// The row size is the sum of the columns' declared sizes, and the share
    /// is a well-formed fraction.
    pub open spec fn wf(&self) -> bool {
        &&& self.row_size_bytes() == sizes_sum(self.spec_columns())
        &&& self.percent_size().wf()
    }

    /// The number of rows that the table gets out of `file_size_bytes`:
    /// `floor(floor(file_size_bytes * percent_size) / row_size_bytes)`.
    pub open spec fn row_count(&self, file_size_bytes: int) -> int {
        share_of(file_size_bytes, self.percent_size()) / (self.row_size_bytes() as int)
    }

    /// The text of the table for the given generated values.
    pub open spec fn text_of(&self, rows: Seq<Seq<Seq<char>>>) -> Seq<char> {
        rows_text(self.spec_id_value(), rows, self.spec_delimiter())
    }

    pub fn new(id_value: String, columns: Vec<Column<G>>, delimiter: String, percent_size: Fraction) -> (r: Table<G>)
        requires
            percent_size.wf(),
            sizes_sum(columns@) <= u64::MAX,
        ensures
            r.wf(),
            r.spec_id_value() == id_value@,
            r.spec_columns() == columns@,
            r.spec_delimiter() == delimiter@,
            r.spec_percent_size() == percent_size,
    {
        let mut total: u64 = 0;
        let mut i: usize = 0;
        while i < columns.len()
            invariant
                i <= columns.len(),
                sizes_sum(columns@) <= u64::MAX,
                total == sizes_sum(columns@.take(i as int)),
            decreases columns.len() - i,
        {
            proof {
                assert(columns@.take(i as int + 1).drop_last() =~= columns@.take(i as int));
                lemma_sizes_sum_prefix(columns@, i as int + 1);
            }
            total = total + columns[i].size;
            i = i + 1;
        }
        assert(columns@.take(i as int) =~= columns@);
        Table { id_value, columns, delimiter, percent_size, row_size_bytes: total }
    }

    /// One row for the given column values: the id, then the values, joined by
    /// the delimiter, then a newline.
    pub fn format_row(&self, values: &Vec<String>) -> (r: String)
        ensures
            r@ == row_text(self.spec_id_value(), views(values@), self.spec_delimiter()),
    {
        let mut fields: Vec<String> = Vec::new();
        fields.push(self.id_value.clone());
        let mut i: usize = 0;
        while i < values.len()
            invariant
                i <= values.len(),
                fields@.len() == i + 1,
                fields@[0]@ == self.spec_id_value(),
                forall|k: int| 0 <= k < i ==> #[trigger] fields@[k + 1]@ == values@[k]@,
            decreases values.len() - i,
        {
            let v = values[i].clone();
            fields.push(v);
            i = i + 1;
        }
        assert(views(fields@) =~= seq![self.spec_id_value()] + views(values@)) by {
            assert forall|k: int| 0 <= k < values@.len() implies views(fields@)[k + 1]
                == views(values@)[k] by {
                assert(fields@[k + 1]@ == values@[k]@);
            }
        }
        let mut out = join_fields(&fields, self.delimiter.as_str());
        out.append("\n");
        proof {
            reveal_strlit("\n");
        }
        out
    }
}

/// The sum of sizes over a prefix never exceeds that over the whole.
pub proof fn lemma_sizes_sum_prefix<G>(cols: Seq<Column<G>>, k: int)
    requires
        0 <= k <= cols.len(),
    ensures
        sizes_sum(cols.take(k)) <= sizes_sum(cols),
    decreases cols.len() - k,
{
    if k < cols.len() {
        lemma_sizes_sum_prefix(cols, k + 1);
        assert(cols.take(k + 1).drop_last() =~= cols.take(k));
    } else {
        assert(cols.take(k) =~= cols);
    }
}

impl<G: ValueGenerator> Table<G> {
    /// One generated value per column, in column order. Fails with the first
    /// generator that fails; with no columns, no generator runs.
    fn generate_values(&self) -> (r: Result<Vec<String>, ExportError>)
        ensures
            r matches Ok(v) ==> v@.len() == self.spec_columns().len(),
            r matches Err(e) ==> e is Generator,
            self.spec_columns().len() == 0 ==> r is Ok,
    {
        let mut values: Vec<String> = Vec::new();
        let mut i: usize = 0;
        while i < self.columns.len()
            invariant
                i <= self.columns.len(),
                values@.len() == i,
            decreases self.columns.len() - i,
        {
            match self.columns[i].generator.generate() {
                Ok(v) => values.push(v),
                Err(e) => return Err(ExportError::Generator(e)),
            }
            i = i + 1;
        }
        Ok(values)
    }

    /// One row as fields: the id, then one generated value per column, in
    /// column order. Fails with the first generator that fails; a table without
    /// columns gives the id alone.
    pub fn generate_table_row_vec(&self) -> (r: Result<Vec<String>, ExportError>)
        ensures
            r matches Ok(v) ==> fields_shaped(v@, self.spec_id_value(), self.spec_columns().len() as int),
            r matches Err(e) ==> e is Generator,
            self.spec_columns().len() == 0 ==> r is Ok,
    {
        let values = match self.generate_values() {
            Ok(v) => v,
            Err(e) => return Err(e),
        };
        let mut fields: Vec<String> = Vec::new();
        fields.push(self.id_value.clone());
        let mut i: usize = 0;
        while i < values.len()
            invariant
                i <= values@.len(),
                fields_shaped(fields@, self.spec_id_value(), i as int),
            decreases values@.len() - i,
        {
            fields.push(values[i].clone());
            i = i + 1;
        }
        Ok(fields)
    }

    /// One row of text: the id, then one generated value per column, joined by
    /// the delimiter, then a newline. Fails with the first generator that
    /// fails; a table without columns gives the id and a newline.
    pub fn generate_table_row(&self) -> (r: Result<String, ExportError>)
        ensures
            r matches Ok(s) ==> exists|values: Seq<Seq<char>>|
                values.len() == self.spec_columns().len()
                && s@ == row_text(self.spec_id_value(), values, self.spec_delimiter()),
            r matches Err(e) ==> e is Generator,
            self.spec_columns().len() == 0 ==> (r matches Ok(s) && s@ == self.spec_id_value() + seq!['\n']),
    {
        match self.generate_values() {
            Ok(values) => {
                let out = self.format_row(&values);
                proof {
                    let vs = views(values@);
                    assert(vs.len() == self.spec_columns().len());
                    if vs.len() == 0 {
                        assert(seq![self.spec_id_value()] + vs =~= seq![self.spec_id_value()]);
                    }
                }
                Ok(out)
            },
            Err(e) => Err(e),
        }
    }

    /// The table's text for a file of `file_size_bytes`: `row_count` rows,
    /// each freshly generated, in order. Fails with `Conversion` where the
    /// table's byte share does not fit in a `u64`, and with the first
    /// generator that fails.
    pub fn generate_table(&self, file_size_bytes: u64) -> (r: Result<String, ExportError>)
        requires
            self.wf(),
            self.row_size_bytes() > 0,
        ensures
            r matches Ok(s) ==> exists|rows: Seq<Seq<Seq<char>>>|
                rows.len() == self.row_count(file_size_bytes as int)
                && rows_shaped(rows, self.spec_columns().len() as int)
                && s@ == self.text_of(rows),
            r matches Err(e) ==> (e is Conversion <==> share_of(file_size_bytes as int, self.percent_size()) > u64::MAX),
            r matches Err(e) ==> e is Conversion || e is Generator,
            share_of(file_size_bytes as int, self.percent_size()) > u64::MAX ==> r is Err,
            share_of(file_size_bytes as int, self.percent_size()) <= u64::MAX
                && self.row_count(file_size_bytes as int) == 0 ==> (r matches Ok(s) && s@.len() == 0),
    {
        let table_size_bytes = match share_of_bytes(file_size_bytes, self.percent_size()) {
            Some(v) => v,
            None => return Err(ExportError::Conversion),
        };
        let row_count = table_size_bytes / self.row_size_bytes();
        let mut out = String::new();
        let ghost mut rows: Seq<Seq<Seq<char>>> = Seq::empty();
        let mut i: u64 = 0;
        while i < row_count
            invariant
                i <= row_count,
                row_count == self.row_count(file_size_bytes as int),
                share_of(file_size_bytes as int, self.percent_size()) <= u64::MAX,
                rows.len() == i,
                rows_shaped(rows, self.spec_columns().len() as int),
                out@ == self.text_of(rows),
            decreases row_count - i,
        {
            match self.generate_table_row() {
                Ok(row) => {
                    let ghost values = choose|values: Seq<Seq<char>>|
                        values.len() == self.spec_columns().len()
                        && row@ == row_text(self.spec_id_value(), values, self.spec_delimiter());
                    out.append(row.as_str());
                    proof {
                        let next = rows.push(values);
                        assert(next.drop_last() =~= rows);
                        rows = next;
                    }
                },
                Err(e) => return Err(e),
            }
            i = i + 1;
        }
        Ok(out)
    }

    /// The table's rows as fields for a file of `file_size_bytes`:
    /// `row_count` rows, each the id followed by one generated value per column.
    /// Fails as `generate_table` does.
    pub fn generate_table_vec(&self, file_size_bytes: u64) -> (r: Result<Vec<Vec<String>>, ExportError>)
        requires
            self.wf(),
            self.row_size_bytes() > 0,
        ensures
            r matches Ok(v) ==> v@.len() == self.row_count(file_size_bytes as int)
                && forall|i: int| 0 <= i < v@.len() ==>
                    fields_shaped(#[trigger] v@[i]@, self.spec_id_value(), self.spec_columns().len() as int),
            r matches Err(e) ==> (e is Conversion <==> share_of(file_size_bytes as int, self.percent_size()) > u64::MAX),
            r matches Err(e) ==> e is Conversion || e is Generator,
            share_of(file_size_bytes as int, self.percent_size()) > u64::MAX ==> r is Err,
            share_of(file_size_bytes as int, self.percent_size()) <= u64::MAX
                && self.row_count(file_size_bytes as int) == 0 ==> (r matches Ok(v) && v@.len() == 0),
    {
        let table_size_bytes = match share_of_bytes(file_size_bytes, self.percent_size()) {
            Some(v) => v,
            None => return Err(ExportError::Conversion),
        };
        let row_count = table_size_bytes / self.row_size_bytes();
        let mut out: Vec<Vec<String>> = Vec::new();
        let mut i: u64 = 0;
        while i < row_count
            invariant
                i <= row_count,
                row_count == self.row_count(file_size_bytes as int),
                share_of(file_size_bytes as int, self.percent_size()) <= u64::MAX,
                out@.len() == i,
                forall|k: int| 0 <= k < out@.len() ==>
                    fields_shaped(#[trigger] out@[k]@, self.spec_id_value(), self.spec_columns().len() as int),
            decreases row_count - i,
        {
            match self.generate_table_row_vec() {
                Ok(row) => out.push(row),
                Err(e) => return Err(e),
            }
            i = i + 1;
        }
        Ok(out)
    }
}

} // verus!
