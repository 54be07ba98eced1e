use cosmic_store::aggregate::aggregate_installed;
use cosmic_store::natural::name_digits_safe;
use cosmic_store::package::Package;

fn pkg(name: &str) -> Package {
    Package {
        id: name.to_string(),
        name: name.to_string(),
        version: String::new(),
        icon: name.to_string(),
        extra: vec![],
    }
}

fn names(r: &[(String, Package)]) -> Vec<String> {
    r.iter().map(|p| p.1.name.clone()).collect()
}

#[test]
fn two_backends_merge_sorted_in_either_query_order() {
    let ab = vec![
        ("backend-a".to_string(), vec![pkg("Zed")]),
        ("backend-b".to_string(), vec![pkg("Ant")]),
    ];
    let ba = vec![
        ("backend-b".to_string(), vec![pkg("Ant")]),
        ("backend-a".to_string(), vec![pkg("Zed")]),
    ];
    let r1 = aggregate_installed(&ab);
    let r2 = aggregate_installed(&ba);
    assert_eq!(names(&r1), vec!["Ant", "Zed"]);
    assert_eq!(names(&r2), vec!["Ant", "Zed"]);
}

#[test]
fn merged_output_keeps_backend_tags() {
    let lists = vec![
        ("backend-a".to_string(), vec![pkg("Zed")]),
        ("backend-b".to_string(), vec![pkg("Ant")]),
    ];
    let r = aggregate_installed(&lists);
    assert_eq!(r[0].0, "backend-b");
    assert_eq!(r[1].0, "backend-a");
}

#[test]
fn digit_runs_sort_numerically() {
    let lists = vec![(
        "backend".to_string(),
        vec![pkg("Item 10"), pkg("Item 9"), pkg("Item 2")],
    )];
    let r = aggregate_installed(&lists);
    assert_eq!(names(&r), vec!["Item 2", "Item 9", "Item 10"]);
}

#[test]
fn case_policy_is_consistent_and_repeatable() {
    let lists = vec![("backend".to_string(), vec![pkg("Apple2"), pkg("apple")])];
    let r1 = aggregate_installed(&lists);
    let r2 = aggregate_installed(&lists);
    assert_eq!(names(&r1), vec!["apple", "Apple2"]);
    assert_eq!(names(&r1), names(&r2));
}

#[test]
fn sorting_an_already_sorted_list_changes_nothing() {
    let lists = vec![(
        "backend".to_string(),
        vec![pkg("Beta 2"), pkg("Alpha"), pkg("Gamma")],
    )];
    let once = aggregate_installed(&lists);
    let again = aggregate_installed(&vec![(
        "backend".to_string(),
        once.iter().map(|p| pkg(&p.1.name)).collect(),
    )]);
    assert_eq!(names(&once), names(&again));
    assert_eq!(names(&once), vec!["Alpha", "Beta 2", "Gamma"]);
}

#[test]
fn merge_is_a_permutation_of_the_union() {
    let lists = vec![
        ("a".to_string(), vec![pkg("caddy"), pkg("abacus"), pkg("ember")]),
        ("b".to_string(), vec![pkg("drill"), pkg("banjo")]),
    ];
    let r = aggregate_installed(&lists);
    assert_eq!(r.len(), 5);
    let got = names(&r);
    for want in ["abacus", "banjo", "caddy", "drill", "ember"] {
        assert!(got.iter().any(|n| n == want));
    }
    assert_eq!(got, vec!["abacus", "banjo", "caddy", "drill", "ember"]);
}

#[test]
fn backend_with_no_packages_contributes_nothing() {
    let lists = vec![
        ("a".to_string(), vec![]),
        ("b".to_string(), vec![pkg("only")]),
    ];
    let r = aggregate_installed(&lists);
    assert_eq!(names(&r), vec!["only"]);
}

#[test]
fn digit_run_bound_admits_ordinary_names() {
    assert!(name_digits_safe("Item 10"));
    assert!(name_digits_safe("Caf\u{e9} 2024"));
    assert!(name_digits_safe("1234567890123456789"));
}

#[test]
fn digit_run_bound_rejects_twenty_digit_runs() {
    assert!(!name_digits_safe("12345678901234567890"));
    assert!(!name_digits_safe("v12345678901234567890x"));
}
