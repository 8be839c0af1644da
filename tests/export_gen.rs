use std::str::FromStr;

use export_gen::error::{ExportError, ExportFileError};
use export_gen::export::ExportFile;
use export_gen::fraction::{share_fits_bytes, share_of_bytes, Fraction};
use export_gen::table::{Column, Table, ValueGenerator};
use rust_decimal::Decimal;

#[derive(Debug, Clone)]
struct SimpleGenerator;

impl ValueGenerator for SimpleGenerator {
    fn generate(&self) -> anyhow::Result<String> {
        Ok("ABC".into())
    }
}

#[derive(Debug, Clone)]
struct FailingGenerator;

impl ValueGenerator for FailingGenerator {
    fn generate(&self) -> anyhow::Result<String> {
        Err(anyhow::Error::msg("no value"))
    }
}

fn share(text: &str) -> Fraction {
    let d = Decimal::from_str(text).unwrap();
    Fraction::new(d.mantissa() as u64, d.scale()).unwrap()
}

fn column(name: &str) -> Column<SimpleGenerator> {
    Column::new(name.into(), 3, "CHAR[3]".into(), SimpleGenerator)
}

fn two_tables() -> (Table<SimpleGenerator>, Table<SimpleGenerator>) {
    let c = column("column");
    let t1 = Table::new("A".into(), vec![c.clone()], "|".into(), share("0.5"));
    let t2 = Table::new("B".into(), vec![c.clone(), c.clone()], "|".into(), share("0.5"));
    (t1, t2)
}

#[test]
fn export_file_create_test() {
    let (t1, t2) = two_tables();
    let ef = ExportFile::new(vec![t1.clone(), t2.clone()], 1 * 1024 * 1024, 1);
    match ef {
        Ok(_x) => assert_eq!(1, 1),
        Err(_) => {}
    }
    let ef = ExportFile::new(vec![t1.clone(), t2.clone(), t1.clone()], 1 * 1024 * 1024, 1);
    match ef {
        Ok(_) => {}
        Err(_x) => assert_eq!(1, 1),
    }
}

#[test]
fn generate_export_test() {
    let (t1, t2) = two_tables();
    let ef = ExportFile::new(vec![t1.clone(), t2.clone()], 1 * 1024 * 1024, 1).unwrap();
    let ex = ef.generate_export();
    match ex {
        Ok(_x) => assert_eq!(1, 1),
        Err(_) => {}
    }
}

#[test]
fn get_schema_json_str_test() {
    let c = column("column");
    let t1 = Table::new("A".into(), vec![c.clone()], "|".into(), share("1.0"));
    let ef = ExportFile::new(vec![t1.clone()], 1 * 1024 * 1024, 1).unwrap();
    let schema = ef.get_schema_json_str();
    match schema {
        Ok(x) => assert_eq!(x, r#"{"A":{"column":"CHAR[3]"}}"#),
        Err(_) => {}
    }
}

#[test]
fn valid_export_is_accepted() {
    let (t1, t2) = two_tables();
    let ef = ExportFile::new(vec![t1, t2], 1024 * 1024, 4).unwrap();
    assert_eq!(ef.file_size_bytes(), 262144);
    assert_eq!(ef.number_of_files(), 4);
    assert_eq!(ef.tables().len(), 2);
}

#[test]
fn shares_not_summing_to_one_are_rejected() {
    let (t1, t2) = two_tables();
    let ef = ExportFile::new(vec![t1.clone(), t2, t1], 1024 * 1024, 1);
    assert!(matches!(
        ef,
        Err(ExportFileError::SumPercentSizeIncorrect { sum_percent_size: 15_000_000_000_000_000_000 })
    ));
    let c = column("column");
    let t = Table::new("A".into(), vec![c], "|".into(), share("0.99"));
    let ef = ExportFile::new(vec![t], 1024 * 1024, 1);
    assert!(matches!(
        ef,
        Err(ExportFileError::SumPercentSizeIncorrect { sum_percent_size: 9_900_000_000_000_000_000 })
    ));
}

#[test]
fn too_many_files_for_data_size() {
    let (t1, t2) = two_tables();
    let ef = ExportFile::new(vec![t1.clone(), t2.clone()], 10, 10);
    assert!(matches!(ef, Err(ExportFileError::TooManyFiles { files: 10 })));
    let ef = ExportFile::new(vec![t1, t2], 10, 11);
    assert!(matches!(ef, Err(ExportFileError::TooManyFiles { files: 11 })));
}

#[test]
fn share_too_small_for_a_row() {
    // 20 bytes per file, half of it is 10 bytes: table B needs 6, A needs 3.
    let (t1, t2) = two_tables();
    assert!(ExportFile::new(vec![t1.clone(), t2.clone()], 20, 1).is_ok());
    // 10 bytes per file: half is 5, too small for B's 6-byte rows.
    let ef = ExportFile::new(vec![t1, t2], 20, 2);
    assert!(matches!(ef, Err(ExportFileError::TooManyFiles { files: 2 })));
}

#[test]
fn no_tables_is_reduce_failed() {
    let ef: Result<ExportFile<SimpleGenerator>, ExportFileError> = ExportFile::new(vec![], 100, 1);
    assert!(matches!(ef, Err(ExportFileError::ReduceFailed)));
}

#[test]
fn row_starts_with_id_and_ends_with_newline() {
    let (_, t2) = two_tables();
    let row = t2.generate_table_row().unwrap();
    assert_eq!(row, "B|ABC|ABC\n");
    let fields = t2.generate_table_row_vec().unwrap();
    assert_eq!(fields, vec!["B".to_string(), "ABC".to_string(), "ABC".to_string()]);
    let formatted = t2.format_row(&vec!["x".to_string(), "yz".to_string()]);
    assert_eq!(formatted, "B|x|yz\n");
}

#[test]
fn table_row_count_follows_share() {
    let (t1, t2) = two_tables();
    assert_eq!(t1.row_size_bytes(), 3);
    assert_eq!(t2.row_size_bytes(), 6);
    // floor(floor(1024 * 0.5) / 3) = 170
    let text = t1.generate_table(1024).unwrap();
    assert_eq!(text.lines().count(), 170);
    assert!(text.lines().all(|l| l == "A|ABC"));
    // floor(floor(1024 * 0.5) / 6) = 85
    let text = t2.generate_table(1024).unwrap();
    assert_eq!(text.lines().count(), 85);
    let rows = t2.generate_table_vec(1024).unwrap();
    assert_eq!(rows.len(), 85);
    // floor(floor(1001 * 0.5) / 3) = floor(500 / 3) = 166
    assert_eq!(t1.generate_table(1001).unwrap().lines().count(), 166);
    assert_eq!(t1.generate_table(5).unwrap(), "");
}

#[test]
fn oversized_share_is_conversion_error() {
    let c = column("column");
    let t = Table::new("A".into(), vec![c], "|".into(), share("2"));
    assert!(matches!(t.generate_table(u64::MAX), Err(ExportError::Conversion)));
    assert!(matches!(t.generate_table_vec(u64::MAX), Err(ExportError::Conversion)));
}

#[test]
fn failing_generator_fails_the_row() {
    let c = Column::new("column".into(), 3, "CHAR[3]".into(), FailingGenerator);
    let t = Table::new("A".into(), vec![c], "|".into(), share("1"));
    assert!(matches!(t.generate_table_row(), Err(ExportError::Generator(_))));
    assert!(matches!(t.generate_table(30), Err(ExportError::Generator(_))));
    let ef = ExportFile::new(vec![t], 30, 1).unwrap();
    assert!(matches!(ef.generate_export(), Err(ExportError::Generator(_))));
    // No rows fit: nothing is generated, so nothing fails.
    let c = Column::new("column".into(), 3, "CHAR[3]".into(), FailingGenerator);
    let t = Table::new("A".into(), vec![c], "|".into(), share("1"));
    assert_eq!(t.generate_table(2).unwrap(), "");
}

#[test]
fn export_concatenates_tables_in_order() {
    let (t1, t2) = two_tables();
    let ef = ExportFile::new(vec![t1, t2], 24, 1).unwrap();
    // 12 bytes each: 4 rows of A, 2 rows of B.
    let text = ef.generate_export().unwrap();
    assert_eq!(text, "A|ABC\nA|ABC\nA|ABC\nA|ABC\nB|ABC|ABC\nB|ABC|ABC\n");
}

#[test]
fn constant_generator_export_is_repeatable() {
    let (t1, t2) = two_tables();
    let ef = ExportFile::new(vec![t1, t2], 1024 * 1024, 1).unwrap();
    let a = ef.generate_export().unwrap();
    let b = ef.generate_export().unwrap();
    assert_eq!(a, b);
    assert_eq!(a.lines().count(), 174762 + 87381);
}

#[test]
fn schema_of_two_tables() {
    let t1 = Table::new("A".into(), vec![column("x")], "|".into(), share("0.5"));
    let t2 = Table::new("B".into(), vec![column("y"), column("z")], "|".into(), share("0.5"));
    let ef = ExportFile::new(vec![t1, t2], 1024, 1).unwrap();
    let schema = ef.build_schema().unwrap();
    assert_eq!(schema.len(), 2);
    assert_eq!(schema[0].0, "A");
    assert_eq!(schema[0].1, vec![("x".to_string(), "CHAR[3]".to_string())]);
    assert_eq!(schema[1].0, "B");
    assert_eq!(schema[1].1.len(), 2);
    assert_eq!(
        ef.get_schema_json_str().unwrap(),
        r#"{"A":{"x":"CHAR[3]"},"B":{"y":"CHAR[3]","z":"CHAR[3]"}}"#
    );
}

#[test]
fn schema_rejects_duplicate_columns() {
    let t = Table::new("A".into(), vec![column("c"), column("d"), column("c"), column("d")], "|".into(), share("1"));
    let ef = ExportFile::new(vec![t], 1024, 1).unwrap();
    match ef.build_schema() {
        Err(ExportFileError::DuplicateColumns { table, column }) => {
            assert_eq!(table, "A");
            assert_eq!(column, "c");
        }
        _ => panic!("expected DuplicateColumns"),
    }
    assert!(matches!(
        ef.get_schema_json_str(),
        Err(ExportError::Invalid(ExportFileError::DuplicateColumns { .. }))
    ));
}

#[test]
fn schema_rejects_duplicate_tables() {
    let t1 = Table::new("A".into(), vec![column("c")], "|".into(), share("0.5"));
    let t2 = Table::new("A".into(), vec![column("d")], "|".into(), share("0.5"));
    let ef = ExportFile::new(vec![t1, t2], 1024, 1).unwrap();
    match ef.build_schema() {
        Err(ExportFileError::DuplicateTables { table }) => assert_eq!(table, "A"),
        _ => panic!("expected DuplicateTables"),
    }
    // Duplicate ids do not stop generation.
    assert!(ef.generate_export().is_ok());
}

#[test]
fn raw_tables_keyed_by_id() {
    let (t1, t2) = two_tables();
    let ef = ExportFile::new(vec![t1, t2], 24, 1).unwrap();
    let raw = ef.generate_raw_tables();
    assert_eq!(raw.len(), 2);
    assert_eq!(raw[0].0, "A");
    assert_eq!(raw[0].1.as_ref().unwrap().len(), 4);
    assert_eq!(raw[1].0, "B");
    assert_eq!(raw[1].1.as_ref().unwrap()[0], vec!["B".to_string(), "ABC".to_string(), "ABC".to_string()]);
    let text = ExportFile::<SimpleGenerator>::raw_tables_to_string(raw, ",").unwrap();
    assert_eq!(text, "A,ABCA,ABCA,ABCA,ABCB,ABC,ABCB,ABC,ABC");
}

#[test]
fn raw_tables_later_duplicate_wins() {
    let t1 = Table::new("A".into(), vec![column("c")], "|".into(), share("0.5"));
    let t2 = Table::new("A".into(), vec![column("c"), column("d")], "|".into(), share("0.5"));
    let ef = ExportFile::new(vec![t1, t2], 24, 1).unwrap();
    let raw = ef.generate_raw_tables();
    assert_eq!(raw.len(), 1);
    assert_eq!(raw[0].1.as_ref().unwrap().len(), 2);
}

#[test]
fn file_names_encode_size_count_and_index() {
    let (t1, t2) = two_tables();
    let ef = ExportFile::new(vec![t1, t2], 1024 * 1024, 3).unwrap();
    assert_eq!(ef.file_name(0), "file_349525_3_0.txt");
    assert_eq!(ef.file_name(12), "file_349525_3_12.txt");
}

#[test]
fn fraction_arithmetic() {
    assert!(Fraction::new(1, 20).is_none());
    assert_eq!(Fraction::new(5, 1), Some(share("0.5")));
    assert_eq!(share_of_bytes(1001, share("0.5")), Some(500));
    assert_eq!(share_of_bytes(u64::MAX, share("1")), Some(u64::MAX));
    assert_eq!(share_of_bytes(u64::MAX, share("2")), None);
    assert_eq!(share_of_bytes(1000, share("0.333")), Some(333));
    assert!(share_fits_bytes(6, share("0.5"), 3));
    assert!(!share_fits_bytes(5, share("0.5"), 3));
}

#[test]
fn table_without_columns_gives_id_alone() {
    let t: Table<SimpleGenerator> = Table::new("Z".into(), vec![], "|".into(), share("1"));
    assert_eq!(t.generate_table_row().unwrap(), "Z\n");
    assert_eq!(t.generate_table_row_vec().unwrap(), vec!["Z".to_string()]);
}

#[test]
fn zero_rows_give_empty_output_without_generating() {
    let c = Column::new("column".into(), 3, "CHAR[3]".into(), FailingGenerator);
    let t = Table::new("A".into(), vec![c], "|".into(), share("0.5"));
    // floor(5 * 0.5) = 2, and 2 / 3 = 0 rows.
    assert_eq!(t.generate_table(5).unwrap(), "");
    assert!(t.generate_table_vec(5).unwrap().is_empty());
}

#[test]
fn fit_is_checked_before_the_sum() {
    // Shares sum to 1.5, but B's rows do not fit in 5 bytes first.
    let (t1, t2) = two_tables();
    let ef = ExportFile::new(vec![t1.clone(), t2, t1], 20, 2);
    assert!(matches!(ef, Err(ExportFileError::TooManyFiles { files: 2 })));
}

#[test]
fn schema_json_of_mixed_types() {
    let t1 = Table::new("A".into(), vec![Column::new("column".into(), 3, "CHAR[3]".into(), SimpleGenerator)], "|".into(), share("0.5"));
    let t2 = Table::new("B".into(), vec![Column::new("col2".into(), 4, "INT".into(), SimpleGenerator)], "|".into(), share("0.5"));
    let ef = ExportFile::new(vec![t1, t2], 1048576, 1).unwrap();
    assert_eq!(ef.get_schema_json_str().unwrap(), r#"{"A":{"column":"CHAR[3]"},"B":{"col2":"INT"}}"#);
}
