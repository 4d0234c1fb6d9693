use percentile_kit::report::{
    bench_name_from_parts, bench_name_from_path, budget_cell, budget_row, budget_table,
    first_failing, gate_passes,
};

#[test]
fn budget_cells() {
    assert_eq!(budget_cell(Some("98.00"), Some("100.00")), "98.00 / ≤100.00");
    assert_eq!(budget_cell(Some("98.00"), None), "98.00 / —");
    assert_eq!(budget_cell(None, Some("100.00")), "n/a");
    assert_eq!(budget_cell(None, None), "n/a");
}

#[test]
fn markdown_row_snapshot() {
    let p50 = budget_cell(Some("98.00"), Some("100.00"));
    let p99 = budget_cell(Some("105.00"), Some("110.00"));
    let row = budget_row("fib_recursive", &p50, &p99, "-2.0", true);
    assert_eq!(
        row,
        "| fib_recursive | 98.00 / ≤100.00 | 105.00 / ≤110.00 | -2.0% | PASS |"
    );
    assert_eq!(
        budget_table(&[row]),
        "| Metric | P50 | P99 | Regression | Status |\n\
         |---|---|---|---|---|\n\
         | fib_recursive | 98.00 / ≤100.00 | 105.00 / ≤110.00 | -2.0% | PASS |"
    );
}

#[test]
fn full_table_with_a_failing_row() {
    let fib = budget_row(
        "fib_recursive",
        &budget_cell(Some("98.00"), Some("100.00")),
        &budget_cell(Some("105.00"), Some("110.00")),
        "-2.0",
        true,
    );
    let sort = budget_row(
        "sort_strings",
        &budget_cell(Some("98.00"), Some("50.00")),
        &budget_cell(None, None),
        "+96.0",
        false,
    );
    assert_eq!(
        budget_table(&[fib, sort]),
        "| Metric | P50 | P99 | Regression | Status |\n\
         |---|---|---|---|---|\n\
         | fib_recursive | 98.00 / ≤100.00 | 105.00 / ≤110.00 | -2.0% | PASS |\n\
         | sort_strings | 98.00 / ≤50.00 | n/a | +96.0% | FAIL |"
    );
    assert_eq!(
        budget_table(&[]),
        "| Metric | P50 | P99 | Regression | Status |\n|---|---|---|---|---|"
    );
}

#[test]
fn gate_and_first_failure() {
    assert!(gate_passes(&[]));
    assert!(gate_passes(&[true, true]));
    assert!(!gate_passes(&[true, false, true]));
    assert_eq!(first_failing(&[true, true]), None);
    assert_eq!(first_failing(&[true, false, false]), Some(1));
    assert_eq!(first_failing(&[]), None);
}

#[test]
fn missing_estimates_carries_bench_name() {
    let path = "/tmp/target/criterion/ghost_bench/new/estimates.json";
    assert_eq!(bench_name_from_path(path), "ghost_bench");
}

#[test]
fn missing_bench_dir_reports_bench_name() {
    assert_eq!(bench_name_from_path("/nonexistent/bench/new/estimates.json"), "bench");
}

#[test]
fn bench_name_falls_back_to_the_path() {
    assert_eq!(bench_name_from_path("estimates.json"), "estimates.json");
    assert_eq!(bench_name_from_path("/"), "/");
    assert_eq!(bench_name_from_path(""), "");
    assert_eq!(bench_name_from_parts("a/b", None), "a/b");
    assert_eq!(bench_name_from_parts("a/b", Some("x".to_string())), "x");
}

#[test]
fn bench_name_round_trips_through_a_joined_path() {
    let dir = std::path::Path::new("/work/target/criterion");
    let path = dir.join("fib_recursive").join("new").join("estimates.json");
    assert_eq!(bench_name_from_path(&path.to_string_lossy()), "fib_recursive");
    assert_eq!(bench_name_from_path("new/estimates.json"), "new/estimates.json");
    assert_eq!(bench_name_from_path("/new/estimates.json"), "/new/estimates.json");
    assert_eq!(bench_name_from_path("a/b/c"), "a");
}

#[test]
fn bench_name_under_relative_and_dotted_directories() {
    for dir in ["../target/criterion", "./target", "target/./criterion", "..", "a//b", "/"] {
        let path = std::path::Path::new(dir).join("fib").join("new").join("estimates.json");
        assert_eq!(bench_name_from_path(&path.to_string_lossy()), "fib", "{dir}");
    }
}
