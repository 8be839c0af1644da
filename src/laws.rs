//! Properties that hold across the library's functions.
use vstd::prelude::*;
use crate::export::{ExportFile, tables_text};
use crate::error::ExportFileError;
use crate::schema::{clean_upto, column_names, distinct_upto, schema_error, table_clean, table_error};
use crate::table::{Table, row_text, rows_text};
use crate::text::join;

verus! {

/// Each value preceded by the delimiter, one after another.
pub open spec fn delimited_values(values: Seq<Seq<char>>, delim: Seq<char>) -> Seq<char>
    decreases values.len(),
{
    if values.len() == 0 {
        Seq::empty()
    } else {
        delimited_values(values.drop_last(), delim) + delim + values.last()
    }
}

/// Joining a leading field with more fields puts the delimiter before each of them.
pub proof fn lemma_join_leading(first: Seq<char>, values: Seq<Seq<char>>, delim: Seq<char>)
    ensures
        join(seq![first] + values, delim) == first + delimited_values(values, delim),
    decreases values.len(),
{
    let fields = seq![first] + values;
    if values.len() == 0 {
        assert(fields =~= seq![first]);
        assert(first + Seq::<char>::empty() =~= first);
    } else {
        lemma_join_leading(first, values.drop_last(), delim);
        assert(fields.drop_last() =~= seq![first] + values.drop_last());
        assert(fields.last() == values.last());
        assert(first + delimited_values(values, delim) =~= first + delimited_values(
            values.drop_last(),
            delim,
        ) + delim + values.last());
    }
}

/// A generated row is the table's id, then each column value preceded by the
/// delimiter, then a newline: it starts with the id and ends in a newline.
pub proof fn lemma_row_shape(id: Seq<char>, values: Seq<Seq<char>>, delim: Seq<char>)
    ensures
        row_text(id, values, delim) == id + delimited_values(values, delim) + seq!['\n'],
        row_text(id, values, delim).subrange(0, id.len() as int) == id,
        row_text(id, values, delim).last() == '\n',
{
    lemma_join_leading(id, values, delim);
    let r = row_text(id, values, delim);
    assert(r.subrange(0, id.len() as int) =~= id);
}

/// Where every generated value is one constant string, the export's text does
/// not depend on the run: two runs of `generate_export` give the same text.
pub proof fn lemma_constant_values_same_export<G>(
    ef: &ExportFile<G>,
    c: Seq<char>,
    a: Seq<Seq<Seq<Seq<char>>>>,
    b: Seq<Seq<Seq<Seq<char>>>>,
)
    requires
        ef.values_shaped(a),
        ef.values_shaped(b),
        forall|t: int, i: int, j: int|
            0 <= t < a.len() && 0 <= i < a[t].len() && 0 <= j < a[t][i].len() ==> #[trigger] a[t][i][j] == c,
        forall|t: int, i: int, j: int|
            0 <= t < b.len() && 0 <= i < b[t].len() && 0 <= j < b[t][i].len() ==> #[trigger] b[t][i][j] == c,
    ensures
        ef.export_text(a) == ef.export_text(b),
{
    assert forall|t: int| 0 <= t < a.len() implies #[trigger] a[t] =~= b[t] by {
        assert(a[t].len() == b[t].len());
        assert forall|i: int| 0 <= i < a[t].len() implies #[trigger] a[t][i] =~= b[t][i] by {
            assert(a[t][i].len() == ef.spec_tables()[t].spec_columns().len());
            assert(b[t][i].len() == ef.spec_tables()[t].spec_columns().len());
            assert forall|j: int| 0 <= j < a[t][i].len() implies a[t][i][j] == b[t][i][j] by {
                assert(a[t][i][j] == c);
                assert(b[t][i][j] == c);
            }
        }
    }
    assert(a =~= b);
}

/// The number of newline characters in `s`.
pub open spec fn newline_count(s: Seq<char>) -> nat
    decreases s.len(),
{
    if s.len() == 0 {
        0
    } else {
        newline_count(s.drop_last()) + if s.last() == '\n' {
            1nat
        } else {
            0nat
        }
    }
}

/// `s` holds no newline.
pub open spec fn no_newline(s: Seq<char>) -> bool {
    forall|i: int| 0 <= i < s.len() ==> s[i] != '\n'
}

/// Newlines of a concatenation add up.
pub proof fn lemma_newline_count_concat(a: Seq<char>, b: Seq<char>)
    ensures
        newline_count(a + b) == newline_count(a) + newline_count(b),
    decreases b.len(),
{
    if b.len() == 0 {
        assert(a + b =~= a);
    } else {
        lemma_newline_count_concat(a, b.drop_last());
        assert((a + b).drop_last() =~= a + b.drop_last());
        assert((a + b).last() == b.last());
    }
}

/// Text without newline characters counts none.
pub proof fn lemma_no_newline_count(s: Seq<char>)
    requires
        no_newline(s),
    ensures
        newline_count(s) == 0,
    decreases s.len(),
{
    if s.len() > 0 {
        assert(no_newline(s.drop_last()));
        lemma_no_newline_count(s.drop_last());
    }
}

/// Joining fields without newlines by a delimiter without newlines gives
/// text without newlines.
pub proof fn lemma_join_no_newline(fields: Seq<Seq<char>>, delim: Seq<char>)
    requires
        no_newline(delim),
        forall|i: int| 0 <= i < fields.len() ==> no_newline(#[trigger] fields[i]),
    ensures
        no_newline(join(fields, delim)),
    decreases fields.len(),
{
    if fields.len() > 1 {
        lemma_join_no_newline(fields.drop_last(), delim);
        assert(no_newline(fields.last()));
        let j = join(fields.drop_last(), delim);
        assert forall|i: int| 0 <= i < (j + delim + fields.last()).len() implies
            (j + delim + fields.last())[i] != '\n' by {
            if i < j.len() {
            } else if i < j.len() + delim.len() {
                assert((j + delim + fields.last())[i] == delim[i - j.len()]);
            } else {
                assert((j + delim + fields.last())[i] == fields.last()[i - j.len() - delim.len()]);
            }
        }
    } else if fields.len() == 1 {
        assert(no_newline(fields[0]));
    }
}

/// Where the id, the delimiter and the values hold no newline, the text of a
/// table's rows has exactly one line per row.
pub proof fn lemma_rows_line_count(id: Seq<char>, rows: Seq<Seq<Seq<char>>>, delim: Seq<char>)
    requires
        no_newline(id),
        no_newline(delim),
        forall|r: int, v: int| 0 <= r < rows.len() && 0 <= v < rows[r].len() ==> no_newline(#[trigger] rows[r][v]),
    ensures
        newline_count(rows_text(id, rows, delim)) == rows.len(),
    decreases rows.len(),
{
    if rows.len() > 0 {
        let init = rows.drop_last();
        assert forall|r: int, v: int| 0 <= r < init.len() && 0 <= v < init[r].len() implies no_newline(#[trigger] init[r][v]) by {
            assert(init[r] == rows[r]);
        }
        lemma_rows_line_count(id, init, delim);
        let fields = seq![id] + rows.last();
        assert forall|i: int| 0 <= i < fields.len() implies no_newline(#[trigger] fields[i]) by {
            if i > 0 {
                assert(fields[i] == rows[rows.len() - 1][i - 1]);
            }
        }
        lemma_join_no_newline(fields, delim);
        lemma_no_newline_count(join(fields, delim));
        let nl = seq!['\n'];
        assert(nl.drop_last() =~= Seq::<char>::empty());
        assert(newline_count(nl.drop_last()) == 0);
        assert(nl.last() == '\n');
        assert(newline_count(nl) == 1);
        lemma_newline_count_concat(join(fields, delim), nl);
        lemma_newline_count_concat(rows_text(id, init, delim), row_text(id, rows.last(), delim));
    }
}

/// The rows that the first `n` tables of an export get in one file.
pub open spec fn rows_upto<G>(ef: &ExportFile<G>, n: int) -> int
    decreases n,
{
    if n <= 0 {
        0
    } else {
        rows_upto(ef, n - 1) + ef.spec_tables()[n - 1].row_count(ef.spec_file_size_bytes() as int)
    }
}

/// Where the ids, the delimiters and the generated values hold no newline, an
/// export's text has one line per row, and each table its own row count of them.
pub proof fn lemma_export_line_count<G>(ef: &ExportFile<G>, values: Seq<Seq<Seq<Seq<char>>>>)
    requires
        ef.values_shaped(values),
        forall|t: int| 0 <= t < ef.spec_tables().len() ==> no_newline((#[trigger] ef.spec_tables()[t]).spec_id_value())
            && no_newline(ef.spec_tables()[t].spec_delimiter()),
        forall|t: int, r: int, v: int|
            0 <= t < values.len() && 0 <= r < values[t].len() && 0 <= v < values[t][r].len()
                ==> no_newline(#[trigger] values[t][r][v]),
    ensures
        newline_count(ef.export_text(values)) == rows_upto(ef, ef.spec_tables().len() as int),
{
    lemma_tables_line_count(ef, values, ef.spec_tables().len() as int);
}

/// The first `n` tables' text has `rows_upto(ef, n)` lines.
proof fn lemma_tables_line_count<G>(ef: &ExportFile<G>, values: Seq<Seq<Seq<Seq<char>>>>, n: int)
    requires
        0 <= n <= ef.spec_tables().len(),
        ef.values_shaped(values),
        forall|t: int| 0 <= t < ef.spec_tables().len() ==> no_newline((#[trigger] ef.spec_tables()[t]).spec_id_value())
            && no_newline(ef.spec_tables()[t].spec_delimiter()),
        forall|t: int, r: int, v: int|
            0 <= t < values.len() && 0 <= r < values[t].len() && 0 <= v < values[t][r].len()
                ==> no_newline(#[trigger] values[t][r][v]),
    ensures
        newline_count(tables_text(ef.spec_tables(), values, n)) == rows_upto(ef, n),
    decreases n,
{
    if n > 0 {
        lemma_tables_line_count(ef, values, n - 1);
        let t = ef.spec_tables()[n - 1];
        let rows = values[n - 1];
        assert(no_newline(t.spec_id_value()));
        assert forall|r: int, v: int| 0 <= r < rows.len() && 0 <= v < rows[r].len() implies no_newline(#[trigger] rows[r][v]) by {
            assert(no_newline(values[n - 1][r][v]));
        }
        lemma_rows_line_count(t.spec_id_value(), rows, t.spec_delimiter());
        lemma_newline_count_concat(tables_text(ef.spec_tables(), values, n - 1), t.text_of(rows));
    }
}

/// Schema building fails at the first table that is not clean, so where every
/// table before `i` is clean and table `i` repeats a column name, the failure
/// is `DuplicateColumns` of table `i`.
pub proof fn lemma_duplicate_columns_reported<G>(tables: Seq<Table<G>>, i: int, a: int, b: int, e: ExportFileError)
    requires
        0 <= i < tables.len(),
        clean_upto(tables, i),
        0 <= a < b < tables[i].spec_columns().len(),
        tables[i].spec_columns()[a].name@ == tables[i].spec_columns()[b].name@,
        schema_error(tables, e),
    ensures
        e matches ExportFileError::DuplicateColumns { table, column } && table@ == tables[i].spec_id_value(),
{
    let names = column_names(tables[i]);
    assert(names[a] == names[b]);
    assert(!distinct_upto(names, tables[i].spec_columns().len() as int));
    lemma_first_unclean(tables, i, e);
}

/// Where every table before `i` is clean, table `i` has distinct column names
/// and an earlier table has its id, schema building fails with
/// `DuplicateTables` of that id.
pub proof fn lemma_duplicate_tables_reported<G>(tables: Seq<Table<G>>, i: int, k: int, e: ExportFileError)
    requires
        0 <= k < i < tables.len(),
        clean_upto(tables, i),
        distinct_upto(column_names(tables[i]), tables[i].spec_columns().len() as int),
        tables[k].spec_id_value() == tables[i].spec_id_value(),
        schema_error(tables, e),
    ensures
        e matches ExportFileError::DuplicateTables { table } && table@ == tables[i].spec_id_value(),
{
    lemma_first_unclean(tables, i, e);
}

/// The table that a schema error belongs to is the first unclean one.
proof fn lemma_first_unclean<G>(tables: Seq<Table<G>>, i: int, e: ExportFileError)
    requires
        0 <= i < tables.len(),
        clean_upto(tables, i),
        !table_clean(tables, i),
        schema_error(tables, e),
    ensures
        table_error(tables, i, e),
{
    let w = choose|w: int| 0 <= w < tables.len() && clean_upto(tables, w) && !table_clean(tables, w)
        && table_error(tables, w, e);
    if w < i {
        assert(table_clean(tables, w));
    } else if w > i {
        assert(table_clean(tables, i));
    }
}

} // verus!
