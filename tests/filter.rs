use babylonify::batch::{check_output_dir, check_output_file, select_inputs, BatchError, DirEntry};
use babylonify::language::Detector;
use babylonify::mask::{assemble_mask, compute_mask, detection_jobs};
use babylonify::table::{
    apply_mask, filter_by_language, filter_table, find_column, select_values, Column, ColumnData,
    FilterError, Table,
};

fn text_cells(values: &[Option<&str>]) -> Vec<Option<String>> {
    values.iter().map(|v| v.map(|s| s.to_string())).collect()
}

/// The default input: an `id` column and a `transcription` column with a Ukrainian row, an
/// English row, a Ukrainian row with emoji and digits, a null and an empty string.
fn input_table() -> Table<i32> {
    custom_table(
        "transcription",
        &[
            Some("Привіт світ!"),
            Some("Hello, world!"),
            Some("Привіт, Україно! 😊 123"),
            None,
            Some(""),
        ],
    )
}

fn custom_table(column: &str, values: &[Option<&str>]) -> Table<i32> {
    let ids: Vec<i32> = (0..values.len() as i32).collect();
    Table {
        columns: vec![
            Column { name: "id".to_string(), data: ColumnData::Other(ids) },
            Column { name: column.to_string(), data: ColumnData::Text(text_cells(values)) },
        ],
    }
}

fn ids(table: &Table<i32>) -> Vec<i32> {
    match &table.columns[0].data {
        ColumnData::Other(v) => v.clone(),
        ColumnData::Text(_) => panic!("id column holds text"),
    }
}

fn texts(table: &Table<i32>, column: usize) -> Vec<Option<String>> {
    match &table.columns[column].data {
        ColumnData::Text(v) => v.clone(),
        ColumnData::Other(_) => panic!("text column holds payload"),
    }
}

fn run(table: Table<i32>, column: &str, keep_empty: bool, clean: bool) -> Table<i32> {
    let detector = Detector::new();
    match filter_by_language(table, column, "Ukrainian", keep_empty, clean, &detector) {
        Ok(t) => t,
        Err(e) => panic!("{}", e.message()),
    }
}

#[test]
fn keeps_only_ukrainian_by_default() {
    let df = run(input_table(), "transcription", false, false);
    // Expect rows: #0 and #2 (both Ukrainian). #3 (null) and #4 (empty) are dropped without --keep-empty.
    assert_eq!(df.height(), 2);

    // Ensure the English row (#1) is gone
    let texts = texts(&df, 1);
    assert!(!texts.iter().any(|t| t == &Some("Hello, world!".to_string())));
    assert_eq!(ids(&df), vec![0, 2]);
    assert_eq!(texts, text_cells(&[Some("Привіт світ!"), Some("Привіт, Україно! 😊 123")]));
}

#[test]
fn keep_empty_retains_null_and_empty_rows() {
    let df = run(input_table(), "transcription", true, false);
    // Expected rows:
    //   Ukrainian (#0, #2) + null (#3) + empty (#4) = 4
    assert_eq!(df.height(), 4);
    assert_eq!(ids(&df), vec![0, 2, 3, 4]);
    assert_eq!(texts(&df, 1)[2], None);
    assert_eq!(texts(&df, 1)[3], Some(String::new()));
}

#[test]
fn processes_all_parquet_files_in_directory() {
    let entries = vec![
        DirEntry { name: "second.parquet".to_string(), is_file: true },
        DirEntry { name: "notes.txt".to_string(), is_file: true },
        DirEntry { name: "first.parquet".to_string(), is_file: true },
    ];
    let files = select_inputs(&entries, "inputs").ok().unwrap();
    assert_eq!(files, vec!["first.parquet".to_string(), "second.parquet".to_string()]);

    for _ in &files {
        let df = run(input_table(), "transcription", false, false);
        assert_eq!(df.height(), 2);
        let texts = texts(&df, 1);
        assert!(!texts.iter().any(|t| t == &Some("Hello, world!".to_string())));
    }
}

#[test]
fn clean_flag_removes_non_letter_characters() {
    let df = run(input_table(), "transcription", false, true);
    assert_eq!(df.height(), 2);
    let texts = texts(&df, 1);
    let cleaned = texts
        .iter()
        .find_map(|opt| opt.clone().filter(|s| s.contains("Україно")))
        .expect("cleaned Ukrainian row present");
    assert_eq!(cleaned, "Привіт, Україно!");
    assert!(!texts.iter().any(|t| t == &Some("Привіт, Україно! 😊 123".to_string())));
    assert_eq!(ids(&df), vec![0, 2]);
}

#[test]
fn uses_custom_column_when_provided() {
    let table = custom_table(
        "text",
        &[
            Some("Привіт світ!"),
            Some("Hello, world!"),
            Some("Привіт, Україно! 😊 123"),
            None,
        ],
    );
    let df = run(table, "text", false, false);
    assert_eq!(df.height(), 2);
    let texts = texts(&df, 1);
    assert!(!texts.iter().any(|t| t == &Some("Hello, world!".to_string())));
    assert!(texts.iter().any(|t| t == &Some("Привіт світ!".to_string())));
}

#[test]
fn input_dir_without_parquet_fails() {
    let entries = vec![
        DirEntry { name: "readme.md".to_string(), is_file: true },
        DirEntry { name: "nested.parquet".to_string(), is_file: false },
    ];
    match select_inputs(&entries, "inputs") {
        Err(e) => {
            assert!(matches!(e, BatchError::EmptyInput(_)));
            assert!(e.message().contains("No Parquet files found in input directory"));
        }
        Ok(_) => panic!("expected an empty-input error"),
    }
    assert!(select_inputs(&Vec::new(), "inputs").is_err());
}

#[test]
fn fails_when_output_path_is_directory() {
    let e = check_output_file("as_dir", true).err().unwrap();
    assert!(e.message().contains("Output path"));
    assert!(e.message().contains("Provide a file path"));
    assert!(check_output_file("out.parquet", false).is_ok());
}

#[test]
fn output_dir_checks() {
    assert_eq!(check_output_dir("out", false, false).ok(), Some(true));
    assert_eq!(check_output_dir("out", true, true).ok(), Some(false));
    let e = check_output_dir("out", true, false).err().unwrap();
    assert!(matches!(e, BatchError::OutputNotDirectory(_)));
    assert!(e.message().contains("must be a directory"));
}

#[test]
fn table_files_match_extension_case_insensitively() {
    let entries = vec![
        DirEntry { name: "b.PARQUET".to_string(), is_file: true },
        DirEntry { name: "a.Parquet".to_string(), is_file: true },
        DirEntry { name: ".parquet".to_string(), is_file: true },
        DirEntry { name: "c.parquet.bak".to_string(), is_file: true },
        DirEntry { name: "parquet".to_string(), is_file: true },
        DirEntry { name: "d.parque".to_string(), is_file: true },
    ];
    let files = select_inputs(&entries, "in").ok().unwrap();
    assert_eq!(files, vec!["a.Parquet".to_string(), "b.PARQUET".to_string()]);
}

#[test]
fn missing_column_is_an_error() {
    let detector = Detector::new();
    match filter_by_language(input_table(), "nope", "Ukrainian", false, false, &detector) {
        Err(FilterError::MissingColumn(c)) => assert_eq!(c, "nope"),
        _ => panic!("expected a missing-column error"),
    }
}

#[test]
fn non_text_column_is_an_error() {
    let detector = Detector::new();
    match filter_by_language(input_table(), "id", "Ukrainian", false, false, &detector) {
        Err(e) => {
            assert!(matches!(e, FilterError::NotText(_)));
            assert_eq!(e.message(), "Column 'id' does not hold text");
        }
        Ok(_) => panic!("expected a not-text error"),
    }
}

#[test]
fn apply_mask_height_is_true_count() {
    let mask = vec![true, false, true, false, true];
    let out = apply_mask(input_table(), &mask);
    assert_eq!(out.height(), 3);
    assert_eq!(ids(&out), vec![0, 2, 4]);
    assert_eq!(out.columns[1].name, "transcription");

    let none = apply_mask(input_table(), &vec![false; 5]);
    assert_eq!(none.height(), 0);
    let all = apply_mask(input_table(), &vec![true; 5]);
    assert_eq!(all.height(), 5);
}

#[test]
fn select_values_keeps_order() {
    let values = vec!["a", "b", "c", "d", "e", "f"];
    let mask = vec![false, true, true, false, true, false];
    assert_eq!(select_values(values, &mask), vec!["b", "c", "e"]);
    let empty: Vec<u8> = Vec::new();
    assert_eq!(select_values(empty, &Vec::new()), Vec::<u8>::new());
}

#[test]
fn filter_table_substitutes_normalized_text() {
    let mask = vec![false, false, true, true, false];
    let normalized = text_cells(&[Some("x"), Some("y"), Some("z"), None, Some("")]);
    let out = filter_table(input_table(), "transcription", &mask, Some(normalized)).ok().unwrap();
    assert_eq!(ids(&out), vec![2, 3]);
    assert_eq!(texts(&out, 1), text_cells(&[Some("z"), None]));
    let kept = filter_table(input_table(), "transcription", &mask, None).ok().unwrap();
    assert_eq!(texts(&kept, 1), text_cells(&[Some("Привіт, Україно! 😊 123"), None]));
    assert!(filter_table(input_table(), "missing", &mask, None).is_err());
    assert_eq!(find_column(&input_table(), "transcription"), Some(1));
    assert_eq!(find_column(&input_table(), "missing"), None);
}

#[test]
fn detection_jobs_skip_null_and_empty_cells() {
    let cells = text_cells(&[Some("a"), None, Some(""), Some("b"), Some("c"), None]);
    let jobs = detection_jobs(&cells);
    let rows: Vec<usize> = jobs.iter().map(|j| j.row).collect();
    assert_eq!(rows, vec![0, 3, 4]);
    assert_eq!(jobs[1].text, "b");
    assert!(detection_jobs(&Vec::new()).is_empty());
}

#[test]
fn assemble_mask_gathers_in_row_order() {
    let cells = text_cells(&[Some("a"), None, Some(""), Some("b"), Some("c")]);
    let outcomes = vec![Some("Ukrainian".to_string()), None, Some("English".to_string())];
    assert_eq!(
        assemble_mask(&cells, &outcomes, "Ukrainian", false),
        vec![true, false, false, false, false]
    );
    assert_eq!(
        assemble_mask(&cells, &outcomes, "Ukrainian", true),
        vec![true, true, true, false, false]
    );
    assert_eq!(
        assemble_mask(&cells, &outcomes, "English", false),
        vec![false, false, false, false, true]
    );
}

#[test]
fn compute_mask_follows_policy() {
    let detector = Detector::new();
    let cells = text_cells(&[
        Some("Привіт світ!"),
        Some("Hello, world!"),
        Some("Привіт, Україно! 😊 123"),
        None,
        Some(""),
    ]);
    assert_eq!(
        compute_mask(&detector, &cells, "Ukrainian", false),
        vec![true, false, true, false, false]
    );
    assert_eq!(
        compute_mask(&detector, &cells, "Ukrainian", true),
        vec![true, false, true, true, true]
    );
    assert_eq!(
        compute_mask(&detector, &cells, "English", false),
        vec![false, true, false, false, false]
    );
}
