use rnot::diffs::compute_diff;

#[test]
fn change_detection_reports_removed_and_added() {
    let report = compute_diff("A\nB", "A\nC");
    assert!(report.contains("Removed:\n- B\n"));
    assert!(report.contains("Added:\n+ C\n"));
}

#[test]
fn report_is_exact_for_simple_change() {
    let report = compute_diff("A\nB", "A\nC");
    assert_eq!(report, "Removed:\n- B\nAdded:\n+ C\n");
}

#[test]
fn reordering_yields_structural_note() {
    let report = compute_diff("A\nB", "B\nA");
    assert_eq!(report, "Content structure changed (check the site for details)");
}

#[test]
fn identical_inputs_yield_structural_note() {
    let report = compute_diff("same\ntext", "same\ntext");
    assert_eq!(report, "Content structure changed (check the site for details)");
}

#[test]
fn removed_section_omitted_when_nothing_removed() {
    let report = compute_diff("A", "A\nB");
    assert_eq!(report, "Added:\n+ B\n");
}

#[test]
fn added_section_omitted_when_nothing_added() {
    let report = compute_diff("A\nB", "A");
    assert_eq!(report, "Removed:\n- B\n");
}

#[test]
fn only_first_ten_lines_listed_per_section() {
    let new: Vec<String> = (1..=12).map(|i| format!("line number {i:02}")).collect();
    let report = compute_diff("", &new.join("\n"));
    assert!(report.starts_with("Added:\n"));
    let bullets = report.lines().filter(|l| l.starts_with("+ ")).count();
    assert_eq!(bullets, 10);
    assert!(report.contains("+ line number 10\n"));
    assert!(!report.contains("line number 11"));
}

#[test]
fn duplicate_line_in_new_is_not_added() {
    let report = compute_diff("A\nB", "A\nB\nA");
    assert_eq!(report, "Content structure changed (check the site for details)");
}

#[test]
fn empty_old_reports_all_new_lines() {
    let report = compute_diff("", "X\nY");
    assert_eq!(report, "Added:\n+ X\n+ Y\n");
}
