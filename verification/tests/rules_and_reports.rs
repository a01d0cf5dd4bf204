use winbooster::policy::AppliedOutcome;
use winbooster::report::{CleanupReport, Cleared};
use winbooster::rule::{CleanupRule, RuleError};
use winbooster::selection::{categories, check_selection, selection_summary, SelectionError};
use winbooster::get_steam_directory;

fn names(list: &[&str]) -> Vec<String> {
    list.iter().map(|name| name.to_string()).collect()
}

fn build(pattern: &str, owner: &str, category: &str) -> Result<CleanupRule, RuleError> {
    CleanupRule::new(
        pattern.to_string(),
        owner.to_string(),
        category.to_string(),
        names(&["a.log"]),
        names(&["Crashes", "Dumps"]),
        true,
        false,
        true,
    )
}

#[test]
fn a_rule_keeps_what_it_was_built_with() {
    let rule = build("C:\\Windows\\Temp\\*", "Windows", "Cache").unwrap();
    assert_eq!(rule.path_pattern(), "C:\\Windows\\Temp\\*");
    assert_eq!(rule.owner_label(), "Windows");
    assert_eq!(rule.category(), "Cache");
    assert_eq!(rule.explicit_files(), &names(&["a.log"]));
    assert_eq!(rule.explicit_dirs(), &names(&["Crashes", "Dumps"]));
    assert!(rule.delete_matched_file());
    assert!(!rule.delete_matched_dir());
    assert!(rule.delete_all_children_of_dir());
}

#[test]
fn a_rule_needs_a_pattern_and_a_category() {
    assert_eq!(build("", "Windows", "Cache"), Err(RuleError::EmptyPattern));
    assert_eq!(build("C:\\*", "Windows", ""), Err(RuleError::EmptyCategory));
    assert_eq!(build("", "Windows", ""), Err(RuleError::EmptyPattern));
    assert!(build("C:\\*", "", "Cache").is_ok());
}

#[test]
fn categories_are_offered_once_in_order_of_first_appearance() {
    let rules: Vec<CleanupRule> = [
        ("p1", "Logs"),
        ("p2", "Logs"),
        ("p3", "Cache"),
        ("p4", "Accounts"),
        ("p5", "Cache"),
        ("p6", "Logs"),
        ("p7", "Images"),
    ]
    .iter()
    .map(|(pattern, category)| build(pattern, "Owner", category).unwrap())
    .collect();
    assert_eq!(categories(&rules), names(&["Logs", "Cache", "Accounts", "Images"]));
    assert_eq!(categories(&Vec::new()), Vec::<String>::new());
}

#[test]
fn an_empty_selection_is_refused() {
    assert_eq!(check_selection(0), Err(SelectionError::NothingSelected));
    assert_eq!(check_selection(1), Ok(()));
    assert_eq!(check_selection(7), Ok(()));
    assert_eq!(SelectionError::NothingSelected.message(), "No category is selected!");
}

#[test]
fn a_selection_is_summed_up_by_its_size() {
    assert_eq!(selection_summary(1), "1 selected categories");
    assert_eq!(selection_summary(12), "12 selected categories");
    assert_eq!(selection_summary(0), "0 selected categories");
}

#[test]
fn a_new_report_is_empty() {
    let report = CleanupReport::new();
    assert_eq!(report.bytes_freed(), 0);
    assert_eq!(report.files_removed(), 0);
    assert_eq!(report.directories_removed(), 0);
    assert!(report.cleared().is_empty());
}

#[test]
fn recording_adds_counts_and_lists_productive_owners_once() {
    let mut report = CleanupReport::new();
    let gain = AppliedOutcome { files: 2, directories: 1, bytes: 30, productive: true };
    let none = AppliedOutcome::new();
    report.record(&"App".to_string(), &gain);
    report.record(&"Idle".to_string(), &none);
    report.record(&"App".to_string(), &gain);
    report.record(&"Other".to_string(), &gain);
    assert_eq!(report.files_removed(), 6);
    assert_eq!(report.directories_removed(), 3);
    assert_eq!(report.bytes_freed(), 90);
    assert_eq!(
        report.cleared(),
        &vec![Cleared { program: "App".to_string() }, Cleared { program: "Other".to_string() }]
    );
    assert!(report.has_cleared(&"Other".to_string()));
    assert!(!report.has_cleared(&"Idle".to_string()));
}

#[test]
fn counts_of_an_unproductive_outcome_are_still_added() {
    let mut report = CleanupReport::new();
    let odd = AppliedOutcome { files: 1, directories: 1, bytes: 1, productive: false };
    report.record(&"App".to_string(), &odd);
    assert_eq!(report.files_removed(), 1);
    assert!(report.cleared().is_empty());
}

#[test]
fn recording_is_refused_at_the_counter_limits() {
    let mut report = CleanupReport::new();
    let big = AppliedOutcome { files: 1, directories: 0, bytes: u64::MAX, productive: true };
    assert!(report.can_record(&big));
    report.record(&"App".to_string(), &big);
    assert!(!report.can_record(&AppliedOutcome {
        files: 0,
        directories: 0,
        bytes: 1,
        productive: true
    }));
    assert!(report.can_record(&AppliedOutcome {
        files: u64::MAX - 1,
        directories: u64::MAX,
        bytes: 0,
        productive: false
    }));
    assert!(!report.can_record(&AppliedOutcome {
        files: u64::MAX,
        directories: 0,
        bytes: 0,
        productive: false
    }));
}

#[test]
fn cleared_programs_compare_by_name() {
    let app = Cleared { program: "App".to_string() };
    assert!(app.same_as(&Some(Cleared { program: "App".to_string() })));
    assert!(!app.same_as(&Some(Cleared { program: "Other".to_string() })));
    assert!(!app.same_as(&None));
}

#[test]
fn looking_for_steam_does_nothing() {
    get_steam_directory();
}
