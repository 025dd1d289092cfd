use dedupe::errors::DedupeError;
use dedupe::exact::{contains_row, exact_match_dedup, rows_equal};
use dedupe::output::{output_format_of, OutputFormat};
use dedupe::probabilistic::{probabilistic_match_dedup, row_matches};
use dedupe::similarity::{jaccard_similarity, Threshold};

fn row(fields: &[&str]) -> Vec<String> {
    fields.iter().map(|f| f.to_string()).collect()
}

fn threshold(num: u64, den: u64) -> Threshold {
    Threshold::new(num, den).expect("threshold should be valid")
}

#[test]
fn exact_dedup_keeps_first_occurrences() {
    let mut data = vec![row(&["a", "b"]), row(&["a", "b"]), row(&["c", "d"])];
    let out = exact_match_dedup(&mut data);
    assert_eq!(out, vec![row(&["a", "b"]), row(&["c", "d"])]);
    assert!(data.is_empty());
}

#[test]
fn exact_dedup_is_idempotent_on_concrete_input() {
    let mut data = vec![
        row(&["a"]),
        row(&["b"]),
        row(&["a"]),
        row(&["c"]),
        row(&["b"]),
    ];
    let mut once = exact_match_dedup(&mut data);
    let mut once_copy = once.clone();
    let twice = exact_match_dedup(&mut once_copy);
    assert_eq!(once, twice);
    let _ = exact_match_dedup(&mut once);
}

#[test]
fn exact_dedup_of_all_duplicates_keeps_one() {
    let mut data = vec![row(&["x", "y"]); 5];
    let out = exact_match_dedup(&mut data);
    assert_eq!(out, vec![row(&["x", "y"])]);
    for i in 0..out.len() {
        for j in 0..out.len() {
            if i != j {
                assert_ne!(out[i], out[j]);
            }
        }
    }
}

#[test]
fn exact_dedup_of_empty_is_empty() {
    let mut data: Vec<Vec<String>> = Vec::new();
    let out = exact_match_dedup(&mut data);
    assert!(out.is_empty());
}

#[test]
fn jaccard_of_overlapping_rows_is_one_third() {
    let a = row(&["x", "y"]);
    let b = row(&["x", "z"]);
    assert_eq!(jaccard_similarity(&a, &b), (1, 3));
}

#[test]
fn jaccard_is_symmetric_on_concrete_rows() {
    let pairs = [
        (row(&["x", "y"]), row(&["x", "z"])),
        (row(&["a", "b", "c"]), row(&["c"])),
        (row(&[]), row(&["q"])),
        (row(&[]), row(&[])),
    ];
    for (a, b) in pairs.iter() {
        assert_eq!(jaccard_similarity(a, b), jaccard_similarity(b, a));
    }
}

#[test]
fn jaccard_is_bounded_and_one_on_self() {
    let a = row(&["p", "q", "r"]);
    let b = row(&["q", "s"]);
    let (inter, uni) = jaccard_similarity(&a, &b);
    assert!(inter <= uni);
    assert_eq!(jaccard_similarity(&a, &a), (3, 3));
}

#[test]
fn jaccard_collapses_duplicate_fields_within_a_row() {
    let a = row(&["a", "a"]);
    let b = row(&["a"]);
    assert_eq!(jaccard_similarity(&a, &b), (1, 1));
}

#[test]
fn jaccard_of_two_empty_rows_is_defined_as_zero() {
    let a = row(&[]);
    assert_eq!(jaccard_similarity(&a, &a), (0, 0));
    // The 0/0 similarity is read as 0, so only a zero threshold matches it.
    assert!(row_matches(&a, &a, &threshold(0, 1)));
    assert!(!row_matches(&a, &a, &threshold(1, 2)));
}

#[test]
fn similarity_dedup_respects_threshold_on_concrete_rows() {
    // Jaccard of the two rows is 1/3.
    let data = vec![row(&["x", "y"]), row(&["x", "z"])];
    let half = probabilistic_match_dedup(&data, &threshold(1, 2));
    assert_eq!(half, data);
    let three_tenths = probabilistic_match_dedup(&data, &threshold(3, 10));
    assert_eq!(three_tenths, vec![row(&["x", "y"])]);
}

#[test]
fn similarity_dedup_of_empty_is_empty() {
    let data: Vec<Vec<String>> = Vec::new();
    let out = probabilistic_match_dedup(&data, &threshold(4, 5));
    assert!(out.is_empty());
}

#[test]
fn similarity_dedup_of_zero_field_rows_does_not_fault() {
    let data = vec![row(&[]), row(&[])];
    // At threshold 0 the empty rows match (similarity 0 >= 0): one survives.
    let at_zero = probabilistic_match_dedup(&data, &threshold(0, 1));
    assert_eq!(at_zero.len(), 1);
    // At any positive threshold the 0/0 similarity, read as 0, matches nothing.
    let at_half = probabilistic_match_dedup(&data, &threshold(1, 2));
    assert_eq!(at_half.len(), 2);
}

#[test]
fn similarity_dedup_survivor_count_grows_with_threshold_here() {
    let data = vec![
        row(&["a", "b", "c"]),
        row(&["a", "b", "d"]),
        row(&["e", "f", "g"]),
        row(&["e", "h", "i"]),
    ];
    let mut previous = 0;
    for num in 0..=10u64 {
        let out = probabilistic_match_dedup(&data, &threshold(num, 10));
        assert!(out.len() >= previous);
        previous = out.len();
    }
    // Threshold 0 matches everything: exactly the first row survives.
    let at_zero = probabilistic_match_dedup(&data, &threshold(0, 10));
    assert_eq!(at_zero, vec![row(&["a", "b", "c"])]);
}

#[test]
fn similarity_dedup_above_one_merges_nothing() {
    let data = vec![row(&["a"]), row(&["a", "b"]), row(&[])];
    // A threshold above 1 is rejected at the boundary, but the deduplicator
    // itself is total for any well-formed fraction and then merges nothing.
    let above_one = Threshold { num: 3, den: 2 };
    let out = probabilistic_match_dedup(&data, &above_one);
    assert_eq!(out, data);
}

#[test]
fn threshold_accepts_exactly_fractions_in_unit_interval() {
    assert!(Threshold::new(0, 1).is_ok());
    assert!(Threshold::new(1, 1).is_ok());
    assert!(Threshold::new(4, 5).is_ok());
    assert_eq!(Threshold::new(5, 4), Err(DedupeError::InvalidThreshold));
    assert_eq!(Threshold::new(0, 0), Err(DedupeError::InvalidThreshold));
    assert_eq!(Threshold::new(1, 0), Err(DedupeError::InvalidThreshold));
    let t = Threshold::new(4, 5).unwrap();
    assert_eq!((t.num, t.den), (4, 5));
}

#[test]
fn row_matches_compares_similarity_with_threshold() {
    let a = row(&["x", "y"]);
    let b = row(&["x", "z"]);
    // Jaccard is exactly 1/3.
    assert!(row_matches(&a, &b, &threshold(1, 3)));
    assert!(row_matches(&a, &b, &threshold(3, 10)));
    assert!(!row_matches(&a, &b, &threshold(1, 2)));
    assert!(row_matches(&a, &a, &threshold(1, 1)));
}

#[test]
fn rows_equal_is_element_wise() {
    assert!(rows_equal(&row(&["a", "b"]), &row(&["a", "b"])));
    assert!(!rows_equal(&row(&["a", "b"]), &row(&["b", "a"])));
    assert!(!rows_equal(&row(&["a"]), &row(&["a", "a"])));
    assert!(rows_equal(&row(&[]), &row(&[])));
}

#[test]
fn contains_row_finds_equal_rows_only() {
    let rows = vec![row(&["a", "b"]), row(&["c"])];
    assert!(contains_row(&rows, &row(&["c"])));
    assert!(contains_row(&rows, &row(&["a", "b"])));
    assert!(!contains_row(&rows, &row(&["b", "a"])));
    assert!(!contains_row(&Vec::new(), &row(&[])));
}

#[test]
fn output_format_is_selected_by_suffix() {
    let path = |s: &str| s.as_bytes().to_vec();
    assert_eq!(output_format_of(&path("out.csv")), Ok(OutputFormat::Csv));
    assert_eq!(output_format_of(&path("dir/out.json")), Ok(OutputFormat::Json));
    assert_eq!(output_format_of(&path("out.xlsx")), Ok(OutputFormat::Xlsx));
    assert_eq!(
        output_format_of(&path("out.txt")),
        Err(DedupeError::UnsupportedOutputFormat)
    );
    assert_eq!(
        output_format_of(&path("csv")),
        Err(DedupeError::UnsupportedOutputFormat)
    );
}

#[test]
fn pipeline_composes_exact_then_similarity() {
    let mut data = vec![
        row(&["x", "y"]),
        row(&["x", "y"]),
        row(&["x", "z"]),
        row(&["p", "q"]),
    ];
    let exact = exact_match_dedup(&mut data);
    assert_eq!(exact.len(), 3);
    let out = probabilistic_match_dedup(&exact, &threshold(3, 10));
    assert_eq!(out, vec![row(&["x", "y"]), row(&["p", "q"])]);
}
