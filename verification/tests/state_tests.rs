use cosmic_store::appdata::FetchError;
use cosmic_store::catalog::{Component, MetaCollection, Store, Translatable};
use cosmic_store::package::Package;
use cosmic_store::state::{AppState, ContextPage, Shown};

fn tr(text: &str) -> Translatable {
    Translatable { entries: vec![("C".to_string(), text.to_string())] }
}

fn store() -> Store {
    Store {
        entries: vec![(
            "flathub".to_string(),
            MetaCollection {
                origin: None,
                components: vec![Component { name: tr("GIMP"), summary: Some(tr("Image editor")) }],
            },
        )],
    }
}

fn pkg(name: &str) -> Package {
    Package {
        id: name.to_string(),
        name: name.to_string(),
        version: String::new(),
        icon: name.to_string(),
        extra: vec![],
    }
}

fn coll() -> MetaCollection {
    MetaCollection { origin: None, components: vec![] }
}

#[test]
fn startup_state_browses_installed() {
    let s = AppState::new();
    assert_eq!(s.presented(), Shown::Installed);
}

#[test]
fn submitting_a_phrase_shows_results() {
    let mut s = AppState::new();
    s.submit_search(&store(), "en-US", "gimp");
    assert_eq!(s.presented(), Shown::Results);
    assert_eq!(s.search_results.as_ref().unwrap().len(), 1);
}

#[test]
fn empty_phrase_changes_nothing() {
    let mut s = AppState::new();
    s.submit_search(&store(), "en-US", "");
    assert!(s.search_results.is_none());
    assert_eq!(s.presented(), Shown::Installed);
}

#[test]
fn results_supersede_detail_view() {
    let mut s = AppState::new();
    s.apply_fetch("backend".to_string(), pkg("GIMP"), Ok(coll()));
    assert_eq!(s.presented(), Shown::Detail);
    s.submit_search(&store(), "en-US", "gimp");
    assert_eq!(s.presented(), Shown::Results);
}

#[test]
fn clearing_search_falls_back_to_detail() {
    let mut s = AppState::new();
    s.apply_fetch("backend".to_string(), pkg("GIMP"), Ok(coll()));
    s.submit_search(&store(), "en-US", "gimp");
    s.clear_search();
    assert_eq!(s.presented(), Shown::Detail);
    s.clear_selection();
    assert_eq!(s.presented(), Shown::Installed);
}

#[test]
fn failed_fetch_leaves_detail_unset() {
    let mut s = AppState::new();
    s.apply_fetch("backend".to_string(), pkg("GIMP"), Err(FetchError::NotFound));
    assert!(s.current.is_none());
    assert_eq!(s.presented(), Shown::Installed);
}

#[test]
fn decode_failure_is_treated_like_not_found() {
    let mut s = AppState::new();
    s.apply_fetch("backend".to_string(), pkg("GIMP"), Err(FetchError::Decode));
    assert!(s.current.is_none());
}

#[test]
fn successful_fetch_sets_the_detail() {
    let mut s = AppState::new();
    s.apply_fetch("backend".to_string(), pkg("GIMP"), Ok(coll()));
    let cur = s.current.as_ref().unwrap();
    assert_eq!(cur.0, "backend");
    assert_eq!(cur.1.name, "GIMP");
}

#[test]
fn fetch_request_copies_the_selected_entry() {
    let mut s = AppState::new();
    s.set_installed(&vec![("backend".to_string(), vec![pkg("GIMP")])]);
    let (name, p) = s.fetch_request(0).unwrap();
    assert_eq!(name, "backend");
    assert_eq!(p.id, "GIMP");
    assert!(s.fetch_request(1).is_none());
}

#[test]
fn set_installed_aggregates_and_sorts() {
    let mut s = AppState::new();
    s.set_installed(&vec![
        ("a".to_string(), vec![pkg("Zed")]),
        ("b".to_string(), vec![pkg("Ant")]),
    ]);
    assert_eq!(s.installed.len(), 2);
    assert_eq!(s.installed[0].1.name, "Ant");
    assert_eq!(s.installed[1].1.name, "Zed");
}

#[test]
fn settings_page_title() {
    assert_eq!(ContextPage::Settings.title(), "Settings");
}
