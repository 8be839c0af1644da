//! An export: tables sharing a per-file byte budget, validated at construction.
use vstd::prelude::*;
use crate::error::{ExportError, ExportFileError};
use crate::fraction::{
    MAX_SCALE, pow10, pow10_u64, share_fits, share_fits_bytes, lemma_pow10_monotone,
    lemma_pow10_top, lemma_share_within,
};
use crate::table::{Table, ValueGenerator, rows_shaped, fields_shaped};
use crate::text::{views, join, join_fields};

verus! {

/// The sum of the tables' shares, each scaled by `10^MAX_SCALE`.
pub open spec fn shares_sum<G>(tables: Seq<Table<G>>) -> int
    decreases tables.len(),
{
    if tables.len() == 0 {
        0
    } else {
        shares_sum(tables.drop_last()) + tables.last().percent_size().scaled()
    }
}

/// `v`, or `u128::MAX` where `v` is larger.
pub open spec fn saturate(v: int) -> int {
    if v <= u128::MAX {
        v
    } else {
        u128::MAX as int
    }
}

/// Every table is well formed.
pub open spec fn tables_wf<G>(tables: Seq<Table<G>>) -> bool {
    forall|i: int| 0 <= i < tables.len() ==> (#[trigger] tables[i]).wf()
}

/// Every table's share of `file_size_bytes` holds at least one row.
pub open spec fn all_fit<G>(tables: Seq<Table<G>>, file_size_bytes: int) -> bool {
    forall|i: int|
        0 <= i < tables.len() ==> share_fits(
            file_size_bytes,
            (#[trigger] tables[i]).percent_size(),
            tables[i].row_size_bytes() as int,
        )
}

/// The text of the first `n` tables, one after another.
pub open spec fn tables_text<G>(
    tables: Seq<Table<G>>,
    values: Seq<Seq<Seq<Seq<char>>>>,
    n: int,
) -> Seq<char>
    decreases n,
{
    if n <= 0 {
        Seq::empty()
    } else {
        tables_text(tables, values, n - 1) + tables[n - 1].text_of(values[n - 1])
    }
}

/// The result of `new` on these arguments: the first rule broken, or `None`.
pub open spec fn validation_error<G>(
    tables: Seq<Table<G>>,
    data_size_bytes: int,
    number_of_files: int,
) -> Option<ExportFileError> {
    if number_of_files >= data_size_bytes {
        Some(ExportFileError::TooManyFiles { files: number_of_files as u64 })
    } else if tables.len() == 0 {
        Some(ExportFileError::ReduceFailed)
    } else if !all_fit(tables, data_size_bytes / number_of_files) {
        Some(ExportFileError::TooManyFiles { files: number_of_files as u64 })
    } else if shares_sum(tables) != pow10(MAX_SCALE as nat) {
        Some(
            ExportFileError::SumPercentSizeIncorrect {
                sum_percent_size: saturate(shares_sum(tables)) as u128,
            },
        )
    } else {
        None
    }
}

/// Tables that share a budget of `data_size_bytes` split over `number_of_files` files.
pub struct ExportFile<G> {
    tables: Vec<Table<G>>,
    number_of_files: u64,
    file_size_bytes: u64,
}

/// The decimal digit `d`.
pub open spec fn digit_char(d: nat) -> char {
    seq!['0', '1', '2', '3', '4', '5', '6', '7', '8', '9'][d as int]
}

/// The decimal digits of `n`, most significant first, with no leading zero.
pub open spec fn decimal(n: nat) -> Seq<char>
    decreases n,
{
    if n < 10 {
        seq![digit_char(n)]
    } else {
        decimal(n / 10) + seq![digit_char(n % 10)]
    }
}

/// The name of output file `index`: `file_<file size>_<file count>_<index>.txt`.
pub open spec fn file_name_text(file_size_bytes: nat, number_of_files: nat, index: nat) -> Seq<char> {
    seq!['f', 'i', 'l', 'e', '_'] + decimal(file_size_bytes) + seq!['_'] + decimal(number_of_files)
        + seq!['_'] + decimal(index) + seq!['.', 't', 'x', 't']
}

/// Appends the decimal digits of `n` to `out`.
fn push_decimal(out: &mut String, n: u64)
    ensures
        final(out)@ == old(out)@ + decimal(n as nat),
    decreases n,
{
    if n >= 10 {
        push_decimal(out, n / 10);
    }
    let d: u64 = n % 10;
    let digits = "0123456789";
    proof {
        reveal_strlit("0123456789");
    }
    let one = digits.substring_char(d as usize, d as usize + 1);
    assert(one@ =~= seq![digit_char(d as nat)]);
    out.append(one);
}

impl<G> ExportFile<G> {
    /// The tables, in order.
    pub closed spec fn spec_tables(&self) -> Seq<Table<G>> {
        self.tables@
    }

    /// The number of output files.
    pub closed spec fn spec_number_of_files(&self) -> u64 {
        self.number_of_files
    }

    /// The byte budget of one file: the data size divided by the file count.
    pub closed spec fn spec_file_size_bytes(&self) -> u64 {
        self.file_size_bytes
    }

    pub fn tables(&self) -> (r: &Vec<Table<G>>)
        ensures
            r@ == self.spec_tables(),
    {
        &self.tables
    }

    pub fn number_of_files(&self) -> (r: u64)
        ensures
            r == self.spec_number_of_files(),
    {
        self.number_of_files
    }

    pub fn file_size_bytes(&self) -> (r: u64)
        ensures
            r == self.spec_file_size_bytes(),
    {
        self.file_size_bytes
    }

    /// What construction establishes: at least one table, each well formed and
    /// with room for a row in its share of a file, and shares adding up to one.
    pub open spec fn wf(&self) -> bool {
        &&& self.spec_tables().len() > 0
        &&& tables_wf(self.spec_tables())
        &&& all_fit(self.spec_tables(), self.spec_file_size_bytes() as int)
        &&& shares_sum(self.spec_tables()) == pow10(MAX_SCALE as nat)
    }

    /// Every table's row size is positive, so that its row count is defined.
    pub open spec fn rows_sized(&self) -> bool {
        forall|i: int| 0 <= i < self.spec_tables().len() ==> (#[trigger] self.spec_tables()[i]).row_size_bytes() > 0
    }

    /// `values` holds, for each table, `row_count` rows of one value per column.
    pub open spec fn values_shaped(&self, values: Seq<Seq<Seq<Seq<char>>>>) -> bool {
        &&& values.len() == self.spec_tables().len()
        &&& forall|i: int|
            0 <= i < values.len() ==> {
                &&& (#[trigger] values[i]).len() == self.spec_tables()[i].row_count(
                    self.spec_file_size_bytes() as int,
                )
                &&& rows_shaped(values[i], self.spec_tables()[i].spec_columns().len() as int)
            }
    }

    /// The export's text for the given generated values: every table's text,
    /// in table order.
    pub open spec fn export_text(&self, values: Seq<Seq<Seq<Seq<char>>>>) -> Seq<char> {
        tables_text(self.spec_tables(), values, self.spec_tables().len() as int)
    }

    /// The raw tables as one text: the rows of each entry whose generation
    /// succeeded, each row's fields joined by `delimiter`, all in entry order
    /// with nothing between rows.
    pub fn raw_tables_to_string(
        tables: Vec<(String, Result<Vec<Vec<String>>, ExportError>)>,
        delimiter: &str,
    ) -> (r: Result<String, ExportError>)
        ensures
            r matches Ok(s) && s@ == raw_text(tables@, delimiter@),
    {
        let mut out = String::new();
        let mut i: usize = 0;
        while i < tables.len()
            invariant
                i <= tables@.len(),
                out@ == raw_text(tables@.take(i as int), delimiter@),
            decreases tables@.len() - i,
        {
            assert(tables@.take(i as int + 1).drop_last() =~= tables@.take(i as int));
            match &tables[i].1 {
                Ok(rows) => {
                    let mut k: usize = 0;
                    let ghost base = out@;
                    while k < rows.len()
                        invariant
                            k <= rows@.len(),
                            out@ == base + rows_joined(rows@.take(k as int), delimiter@),
                        decreases rows@.len() - k,
                    {
                        assert(rows@.take(k as int + 1).drop_last() =~= rows@.take(k as int));
                        let line = join_fields(&rows[k], delimiter);
                        out.append(line.as_str());
                        k = k + 1;
                    }
                    assert(rows@.take(k as int) =~= rows@);
                },
                Err(_) => {
                    assert(out@ =~= out@ + Seq::<char>::empty());
                },
            }
            i = i + 1;
        }
        assert(tables@.take(i as int) =~= tables@);
        Ok(out)
    }

    /// The name of output file `index` of this export.
    pub fn file_name(&self, index: u64) -> (r: String)
        ensures
            r@ == file_name_text(self.spec_file_size_bytes() as nat, self.spec_number_of_files() as nat, index as nat),
    {
        let mut out = String::new();
        proof {
            reveal_strlit("file_");
            reveal_strlit("_");
            reveal_strlit(".txt");
        }
        out.append("file_");
        push_decimal(&mut out, self.file_size_bytes);
        out.append("_");
        push_decimal(&mut out, self.number_of_files);
        out.append("_");
        push_decimal(&mut out, index);
        out.append(".txt");
        assert(out@ =~= file_name_text(self.spec_file_size_bytes() as nat, self.spec_number_of_files() as nat, index as nat));
        out
    }

    /// Checks the tables against the budget and builds the export. Fails with
    /// `TooManyFiles` where `number_of_files >= data_size_bytes`, with
    /// `ReduceFailed` where there are no tables, with `TooManyFiles` where a
    /// table's share of `data_size_bytes / number_of_files` cannot hold one
    /// row, and with `SumPercentSizeIncorrect` where the shares do not add up
    /// to exactly one, in that order.
    pub fn new(tables: Vec<Table<G>>, data_size_bytes: u64, number_of_files: u64) -> (r: Result<ExportFile<G>, ExportFileError>)
        requires
            tables_wf(tables@),
            number_of_files > 0 || number_of_files >= data_size_bytes,
        ensures
            r is Err <==> validation_error(tables@, data_size_bytes as int, number_of_files as int) is Some,
            r matches Err(e) ==> validation_error(tables@, data_size_bytes as int, number_of_files as int) == Some(e),
            number_of_files >= data_size_bytes ==> r == Err::<ExportFile<G>, ExportFileError>(
                ExportFileError::TooManyFiles { files: number_of_files },
            ),
            number_of_files < data_size_bytes && !all_fit(tables@, (data_size_bytes / number_of_files) as int)
                ==> r == Err::<ExportFile<G>, ExportFileError>(
                ExportFileError::TooManyFiles { files: number_of_files },
            ),
            number_of_files < data_size_bytes && tables@.len() > 0
                && all_fit(tables@, (data_size_bytes / number_of_files) as int)
                && shares_sum(tables@) != pow10(MAX_SCALE as nat)
                ==> r == Err::<ExportFile<G>, ExportFileError>(
                ExportFileError::SumPercentSizeIncorrect {
                    sum_percent_size: saturate(shares_sum(tables@)) as u128,
                },
            ),
            shares_sum(tables@) != pow10(MAX_SCALE as nat) ==> r is Err,
            r matches Ok(ef) ==> ef.spec_file_size_bytes() >= 1 && forall|i: int| 0 <= i < ef.spec_tables().len()
                ==> 0 <= (#[trigger] ef.spec_tables()[i]).percent_size().scaled() <= pow10(MAX_SCALE as nat),
            r matches Ok(ef) ==> ef.wf() && ef.spec_tables() == tables@
                && ef.spec_number_of_files() == number_of_files
                && ef.spec_file_size_bytes() == data_size_bytes / number_of_files,
    {
        if number_of_files >= data_size_bytes {
            return Err(ExportFileError::TooManyFiles { files: number_of_files });
        }
        let file_size_bytes = data_size_bytes / number_of_files;
        if tables.len() == 0 {
            return Err(ExportFileError::ReduceFailed);
        }
        let mut fits = true;
        let mut i: usize = 0;
        while i < tables.len()
            invariant
                i <= tables.len(),
                tables_wf(tables@),
                fits == all_fit(tables@.take(i as int), file_size_bytes as int),
            decreases tables.len() - i,
        {
            let t = &tables[i];
            let f = share_fits_bytes(file_size_bytes, t.percent_size(), t.row_size_bytes());
            fits = fits && f;
            i = i + 1;
            assert(all_fit(tables@.take(i as int), file_size_bytes as int) == (all_fit(
                tables@.take(i as int - 1),
                file_size_bytes as int,
            ) && f)) by {
                assert(tables@.take(i as int)[i as int - 1] == tables@[i as int - 1]);
                if all_fit(tables@.take(i as int - 1), file_size_bytes as int) && f {
                    assert forall|k: int| 0 <= k < i implies share_fits(
                        file_size_bytes as int,
                        (#[trigger] tables@.take(i as int)[k]).percent_size(),
                        tables@.take(i as int)[k].row_size_bytes() as int,
                    ) by {
                        if k < i - 1 {
                            assert(tables@.take(i as int)[k] == tables@.take(i as int - 1)[k]);
                        }
                    }
                }
                if all_fit(tables@.take(i as int), file_size_bytes as int) {
                    assert forall|k: int| 0 <= k < i - 1 implies share_fits(
                        file_size_bytes as int,
                        (#[trigger] tables@.take(i as int - 1)[k]).percent_size(),
                        tables@.take(i as int - 1)[k].row_size_bytes() as int,
                    ) by {
                        assert(tables@.take(i as int)[k] == tables@.take(i as int - 1)[k]);
                    }
                }
            }
        }
        assert(tables@.take(i as int) =~= tables@);
        if !fits {
            return Err(ExportFileError::TooManyFiles { files: number_of_files });
        }
        let sum = sum_shares(&tables);
        proof {
            lemma_pow10_top();
        }
        if sum != 10000000000000000000u128 {
            return Err(ExportFileError::SumPercentSizeIncorrect { sum_percent_size: sum });
        }
        proof {
            assert(file_size_bytes >= 1) by (nonlinear_arith)
                requires
                    file_size_bytes == data_size_bytes / number_of_files,
                    0 < number_of_files < data_size_bytes,
            ;
            assert forall|k: int| 0 <= k < tables@.len() implies 0 <= (#[trigger] tables@[k]).percent_size().scaled()
                <= pow10(MAX_SCALE as nat) by {
                lemma_share_le_sum(tables@, k);
            }
        }
        Ok(ExportFile { tables, number_of_files, file_size_bytes })
    }
}

/// Sums are never below their parts: every share is non-negative.
pub proof fn lemma_share_le_sum<G>(tables: Seq<Table<G>>, i: int)
    requires
        0 <= i < tables.len(),
    ensures
        0 <= tables[i].percent_size().scaled() <= shares_sum(tables),
    decreases tables.len(),
{
    lemma_shares_nonneg(tables.drop_last());
    if i < tables.len() - 1 {
        lemma_share_le_sum(tables.drop_last(), i);
        assert(tables.drop_last()[i] == tables[i]);
    }
}

/// A sum of shares is non-negative.
pub proof fn lemma_shares_nonneg<G>(tables: Seq<Table<G>>)
    ensures
        shares_sum(tables) >= 0,
    decreases tables.len(),
{
    if tables.len() > 0 {
        lemma_shares_nonneg(tables.drop_last());
    }
}

/// The shares' sum scaled by `10^MAX_SCALE`, saturated at `u128::MAX`.
fn sum_shares<G>(tables: &Vec<Table<G>>) -> (r: u128)
    requires
        tables_wf(tables@),
    ensures
        r == saturate(shares_sum(tables@)),
{
    let mut acc: u128 = 0;
    let mut i: usize = 0;
    while i < tables.len()
        invariant
            i <= tables.len(),
            tables_wf(tables@),
            acc == saturate(shares_sum(tables@.take(i as int))),
        decreases tables.len() - i,
    {
        let p = tables[i].percent_size();
        assert(tables@[i as int].wf());
        let e = pow10_u64(MAX_SCALE - p.scale);
        proof {
            lemma_pow10_monotone((MAX_SCALE - p.scale) as nat, MAX_SCALE as nat);
            lemma_pow10_top();
            assert((p.mantissa as int) * (e as int) <= (u64::MAX as int) * (u64::MAX as int))
                by (nonlinear_arith)
                requires
                    e <= u64::MAX,
            ;
            assert(tables@.take(i as int + 1).drop_last() =~= tables@.take(i as int));
            lemma_shares_nonneg(tables@.take(i as int));
        }
        let term: u128 = (p.mantissa as u128) * (e as u128);
        if acc > u128::MAX - term {
            acc = u128::MAX;
        } else {
            acc = acc + term;
        }
        i = i + 1;
    }
    assert(tables@.take(i as int) =~= tables@);
    acc
}

/// The rows of `rows`, each joined by `delim`, one after another, with nothing
/// between them.
pub open spec fn rows_joined(rows: Seq<Vec<String>>, delim: Seq<char>) -> Seq<char>
    decreases rows.len(),
{
    if rows.len() == 0 {
        Seq::empty()
    } else {
        rows_joined(rows.drop_last(), delim) + join(views(rows.last()@), delim)
    }
}

/// The text of raw tables: the joined rows of each entry whose generation
/// succeeded, in entry order; an entry that failed adds nothing.
pub open spec fn raw_text(
    entries: Seq<(String, Result<Vec<Vec<String>>, ExportError>)>,
    delim: Seq<char>,
) -> Seq<char>
    decreases entries.len(),
{
    if entries.len() == 0 {
        Seq::empty()
    } else {
        raw_text(entries.drop_last(), delim) + match entries.last().1 {
            Ok(rows) => rows_joined(rows@, delim),
            Err(_) => Seq::empty(),
        }
    }
}

/// No two entries share a key.
#[verifier::opaque]
pub open spec fn keys_distinct<V>(entries: Seq<(String, V)>) -> bool {
    forall|a: int, b: int| 0 <= a < b < entries.len() ==> (#[trigger] entries[a]).0@ != (#[trigger] entries[b]).0@
}

/// `i` is the last of the first `n` tables with its id.
pub open spec fn last_with_id<G>(tables: Seq<Table<G>>, i: int, n: int) -> bool {
    &&& 0 <= i < n <= tables.len()
    &&& forall|k: int| i < k < n ==> (#[trigger] tables[k]).spec_id_value() != tables[i].spec_id_value()
}

impl<G: ValueGenerator> ExportFile<G> {
    /// The export: every table's text for one file, freshly generated, in
    /// table order. Fails with the first generator that fails.
    pub fn generate_export(&self) -> (r: Result<String, ExportError>)
        requires
            self.wf(),
            self.rows_sized(),
        ensures
            r matches Ok(s) ==> exists|values: Seq<Seq<Seq<Seq<char>>>>|
                self.values_shaped(values) && s@ == self.export_text(values),
            r matches Err(e) ==> e is Generator,
    {
        let mut out = String::new();
        let ghost mut values: Seq<Seq<Seq<Seq<char>>>> = Seq::empty();
        let mut i: usize = 0;
        while i < self.tables.len()
            invariant
                i <= self.spec_tables().len(),
                self.wf(),
                self.rows_sized(),
                values.len() == i,
                forall|k: int|
                    0 <= k < i ==> {
                        &&& (#[trigger] values[k]).len() == self.spec_tables()[k].row_count(
                            self.spec_file_size_bytes() as int,
                        )
                        &&& rows_shaped(values[k], self.spec_tables()[k].spec_columns().len() as int)
                    },
                out@ == tables_text(self.spec_tables(), values, i as int),
            decreases self.spec_tables().len() - i,
        {
            let t = &self.tables[i];
            proof {
                assert(tables_wf(self.spec_tables()));
                assert(self.spec_tables()[i as int].wf());
                lemma_share_le_sum(self.spec_tables(), i as int);
                lemma_share_within(self.spec_file_size_bytes() as nat, t.percent_size());
            }
            match t.generate_table(self.file_size_bytes) {
                Ok(text) => {
                    let ghost rows = choose|rows: Seq<Seq<Seq<char>>>|
                        rows.len() == t.row_count(self.spec_file_size_bytes() as int)
                        && rows_shaped(rows, t.spec_columns().len() as int)
                        && text@ == t.text_of(rows);
                    out.append(text.as_str());
                    proof {
                        let next = values.push(rows);
                        assert(tables_text(self.spec_tables(), next, i as int) == tables_text(
                            self.spec_tables(),
                            values,
                            i as int,
                        )) by {
                            lemma_tables_text_prefix(self.spec_tables(), values, next, i as int);
                        }
                        values = next;
                    }
                },
                Err(e) => return Err(e),
            }
            i = i + 1;
        }
        assert(self.values_shaped(values));
        Ok(out)
    }

    /// Each table's rows as fields, keyed by table id, in order of first
    /// appearance. Where two tables share an id, the entry holds the rows of
    /// the later one. An entry holds the failure of its table's generation
    /// where that failed.
    pub fn generate_raw_tables(&self) -> (r: Vec<(String, Result<Vec<Vec<String>>, ExportError>)>)
        requires
            self.wf(),
            self.rows_sized(),
        ensures
            keys_distinct(r@),
            self.ids_covered(r@, self.spec_tables().len() as int),
            self.entries_sound(r@, self.spec_tables().len() as int),
    {
        let mut out: Vec<(String, Result<Vec<Vec<String>>, ExportError>)> = Vec::new();
        let mut i: usize = 0;
        proof {
            reveal(keys_distinct);
            reveal(ExportFile::ids_covered);
            reveal(ExportFile::entries_sound);
        }
        while i < self.tables.len()
            invariant
                i <= self.spec_tables().len(),
                self.wf(),
                self.rows_sized(),
                keys_distinct(out@),
                self.ids_covered(out@, i as int),
                self.entries_sound(out@, i as int),
            decreases self.spec_tables().len() - i,
        {
            let t = &self.tables[i];
            proof {
                assert(tables_wf(self.spec_tables()));
                assert(self.spec_tables()[i as int].wf());
                lemma_share_le_sum(self.spec_tables(), i as int);
                lemma_share_within(self.spec_file_size_bytes() as nat, t.percent_size());
            }
            let rows = t.generate_table_vec(self.file_size_bytes);
            let entry = (t.id_value().clone(), rows);
            assert(self.raw_entry_of(entry, i as int));
            let ghost old_out = out@;
            let found = find_key(&out, &t.id_value());
            match found {
                Some(j) => {
                    out.set(j, entry);
                },
                None => {
                    out.push(entry);
                },
            }
            proof {
                self.lemma_raw_step_sound(old_out, out@, entry, found, i as int);
                self.lemma_raw_step_covered(old_out, out@, entry, found, i as int);
                self.lemma_raw_step_distinct(old_out, out@, entry, found, i as int);
            }
            i = i + 1;
        }
        out
    }

    /// Adding table `i`'s entry keeps every entry that of the last table with its id.
    proof fn lemma_raw_step_sound(
        &self,
        old_out: Seq<(String, Result<Vec<Vec<String>>, ExportError>)>,
        out: Seq<(String, Result<Vec<Vec<String>>, ExportError>)>,
        entry: (String, Result<Vec<Vec<String>>, ExportError>),
        found: Option<usize>,
        i: int,
    )
        requires
            0 <= i < self.spec_tables().len(),
            keys_distinct(old_out),
            self.entries_sound(old_out, i),
            self.raw_entry_of(entry, i),
            found matches Some(j) ==> j < old_out.len() && old_out[j as int].0@ == entry.0@
                && out == old_out.update(j as int, entry),
            found is None ==> out == old_out.push(entry)
                && forall|j: int| 0 <= j < old_out.len() ==> (#[trigger] old_out[j]).0@ != entry.0@,
        ensures
            self.entries_sound(out, i + 1),
    {
        reveal(ExportFile::entries_sound);
        reveal(keys_distinct);
        let n = i + 1;
        assert forall|j: int| 0 <= j < out.len() implies self.from_last_with_id(#[trigger] out[j], n) by {
            if out[j].0@ == entry.0@ {
                assert(last_with_id(self.spec_tables(), i, n));
                if let Some(jj) = found {
                    if j != jj {
                        assert(out[j] == old_out[j]);
                        assert(old_out[j].0@ == old_out[jj as int].0@);
                        if j < jj {
                            assert(old_out[j].0@ != old_out[jj as int].0@);
                        } else {
                            assert(old_out[jj as int].0@ != old_out[j].0@);
                        }
                    }
                } else {
                    if j < old_out.len() {
                        assert(out[j] == old_out[j]);
                    }
                }
                assert(out[j] == entry);
                assert(self.raw_entry_of(out[j], i));
            } else {
                assert(out[j] == old_out[j]);
                assert(self.from_last_with_id(old_out[j], i));
                let k = choose|k: int| last_with_id(self.spec_tables(), k, i) && self.raw_entry_of(old_out[j], k);
                assert(last_with_id(self.spec_tables(), k, n));
            }
        }
    }

    /// Adding table `i`'s entry keeps every id of the first `i + 1` tables present.
    proof fn lemma_raw_step_covered(
        &self,
        old_out: Seq<(String, Result<Vec<Vec<String>>, ExportError>)>,
        out: Seq<(String, Result<Vec<Vec<String>>, ExportError>)>,
        entry: (String, Result<Vec<Vec<String>>, ExportError>),
        found: Option<usize>,
        i: int,
    )
        requires
            0 <= i < self.spec_tables().len(),
            self.ids_covered(old_out, i),
            entry.0@ == self.spec_tables()[i].spec_id_value(),
            found matches Some(j) ==> j < old_out.len() && old_out[j as int].0@ == entry.0@
                && out == old_out.update(j as int, entry),
            found is None ==> out == old_out.push(entry)
                && forall|j: int| 0 <= j < old_out.len() ==> (#[trigger] old_out[j]).0@ != entry.0@,
        ensures
            self.ids_covered(out, i + 1),
    {
        reveal(ExportFile::ids_covered);
        let n = i + 1;
        assert forall|k: int| 0 <= k < n implies
            exists|j: int| 0 <= j < out.len() && (#[trigger] out[j]).0@ == (#[trigger] self.spec_tables()[k]).spec_id_value() by {
            if self.spec_tables()[k].spec_id_value() == entry.0@ {
                match found {
                    Some(j) => { assert(out[j as int].0@ == entry.0@); },
                    None => { assert(out[old_out.len() as int].0@ == entry.0@); },
                }
            } else {
                let j = choose|j: int| 0 <= j < old_out.len() && (#[trigger] old_out[j]).0@ == self.spec_tables()[k].spec_id_value();
                assert(out[j].0@ == old_out[j].0@);
            }
        }
    }

    /// Adding table `i`'s entry keeps the keys distinct.
    proof fn lemma_raw_step_distinct(
        &self,
        old_out: Seq<(String, Result<Vec<Vec<String>>, ExportError>)>,
        out: Seq<(String, Result<Vec<Vec<String>>, ExportError>)>,
        entry: (String, Result<Vec<Vec<String>>, ExportError>),
        found: Option<usize>,
        i: int,
    )
        requires
            0 <= i < self.spec_tables().len(),
            keys_distinct(old_out),
            found matches Some(j) ==> j < old_out.len() && old_out[j as int].0@ == entry.0@
                && out == old_out.update(j as int, entry),
            found is None ==> out == old_out.push(entry)
                && forall|j: int| 0 <= j < old_out.len() ==> (#[trigger] old_out[j]).0@ != entry.0@,
        ensures
            keys_distinct(out),
    {
        reveal(keys_distinct);
        assert forall|a: int, b: int| 0 <= a < b < out.len() implies (#[trigger] out[a]).0@ != (#[trigger] out[b]).0@ by {
            if found is None && b == old_out.len() {
                assert(out[a] == old_out[a]);
            } else {
                assert(out[a].0@ == old_out[a].0@ || out[a] == entry);
                if let Some(jj) = found {
                    if a == jj {
                        assert(out[b] == old_out[b]);
                    } else if b == jj {
                        assert(out[a] == old_out[a]);
                    } else {
                        assert(out[a] == old_out[a]);
                        assert(out[b] == old_out[b]);
                    }
                } else {
                    assert(out[a] == old_out[a]);
                    assert(out[b] == old_out[b]);
                }
            }
        }
    }

    /// Every id among the first `n` tables keys an entry.
    #[verifier::opaque]
    pub open spec fn ids_covered(&self, entries: Seq<(String, Result<Vec<Vec<String>>, ExportError>)>, n: int) -> bool {
        forall|k: int| 0 <= k < n ==>
            exists|j: int| 0 <= j < entries.len() && (#[trigger] entries[j]).0@ == (#[trigger] self.spec_tables()[k]).spec_id_value()
    }

    /// Every entry holds what the last of the first `n` tables with its id generated.
    #[verifier::opaque]
    pub open spec fn entries_sound(&self, entries: Seq<(String, Result<Vec<Vec<String>>, ExportError>)>, n: int) -> bool {
        forall|j: int| 0 <= j < entries.len() ==> self.from_last_with_id(#[trigger] entries[j], n)
    }

    /// `entry` holds what the last of the first `n` tables with its id generated.
    pub open spec fn from_last_with_id(&self, entry: (String, Result<Vec<Vec<String>>, ExportError>), n: int) -> bool {
        exists|k: int| last_with_id(self.spec_tables(), k, n) && self.raw_entry_of(entry, k)
    }

    /// Table `i`'s raw rows as `entry` holds them: its id, and either rows of
    /// `row_count` records of id and values, or a generator failure.
    pub open spec fn raw_entry_of(&self, entry: (String, Result<Vec<Vec<String>>, ExportError>), i: int) -> bool {
        let t = self.spec_tables()[i];
        &&& entry.0@ == t.spec_id_value()
        &&& match entry.1 {
            Ok(rows) => rows@.len() == t.row_count(self.spec_file_size_bytes() as int)
                && forall|k: int| 0 <= k < rows@.len() ==>
                    fields_shaped(#[trigger] rows@[k]@, t.spec_id_value(), t.spec_columns().len() as int),
            Err(e) => e is Generator,
        }
    }
}

/// The position of the entry keyed `key`, if any.
fn find_key<V>(entries: &Vec<(String, V)>, key: &String) -> (r: Option<usize>)
    ensures
        r matches Some(j) ==> j < entries@.len() && entries@[j as int].0@ == key@,
        r is None ==> forall|j: int| 0 <= j < entries@.len() ==> (#[trigger] entries@[j]).0@ != key@,
{
    let mut j: usize = 0;
    while j < entries.len()
        invariant
            j <= entries@.len(),
            forall|m: int| 0 <= m < j ==> (#[trigger] entries@[m]).0@ != key@,
        decreases entries@.len() - j,
    {
        if entries[j].0 == *key {
            return Some(j);
        }
        j = j + 1;
    }
    None
}

/// Extending the values past the first `n` tables leaves their text as it was.
pub proof fn lemma_tables_text_prefix<G>(
    tables: Seq<Table<G>>,
    a: Seq<Seq<Seq<Seq<char>>>>,
    b: Seq<Seq<Seq<Seq<char>>>>,
    n: int,
)
    requires
        0 <= n <= a.len(),
        n <= b.len(),
        forall|k: int| 0 <= k < n ==> a[k] == b[k],
    ensures
        tables_text(tables, a, n) == tables_text(tables, b, n),
    decreases n,
{
    if n > 0 {
        lemma_tables_text_prefix(tables, a, b, n - 1);
    }
}

} // verus!
