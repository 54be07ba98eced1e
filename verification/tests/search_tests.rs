use cosmic_store::catalog::{resolve, Component, MetaCollection, Store, Translatable};
use cosmic_store::search::{search, weight_of, SearchResult};

fn tr(text: &str) -> Translatable {
    Translatable { entries: vec![("C".to_string(), text.to_string())] }
}

fn comp(name: &str, summary: &str) -> Component {
    Component { name: tr(name), summary: Some(tr(summary)) }
}

fn catalog() -> Store {
    Store {
        entries: vec![(
            "flathub".to_string(),
            MetaCollection {
                origin: Some("flathub".to_string()),
                components: vec![comp("GIMP", "Image editor"), comp("Image Viewer", "View images")],
            },
        )],
    }
}

fn same_results(a: &[SearchResult], b: &[SearchResult]) -> bool {
    a.len() == b.len()
        && a.iter().zip(b.iter()).all(|(x, y)| {
            x.id == y.id && x.icon == y.icon && x.name == y.name && x.summary == y.summary
                && x.weight == y.weight
        })
}

#[test]
fn image_phrase_ranks_name_prefix_above_summary() {
    let store = catalog();
    let r = search(&store, "en-US", "image");
    assert_eq!(r.len(), 2);
    assert_eq!(r[0].name, "Image Viewer");
    assert_eq!(r[0].weight, 9);
    assert_eq!(r[1].name, "GIMP");
    assert_eq!(r[1].weight, 6);
}

#[test]
fn exact_name_phrase_matches_only_that_component() {
    let store = catalog();
    let r = search(&store, "en-US", "GIMP");
    assert_eq!(r.len(), 1);
    assert_eq!(r[0].name, "GIMP");
    assert_eq!(r[0].weight, 10);
}

#[test]
fn matching_is_case_insensitive() {
    let store = catalog();
    let r = search(&store, "en-US", "gimp");
    assert_eq!(r.len(), 1);
    assert_eq!(r[0].weight, 10);
}

#[test]
fn search_twice_yields_identical_output() {
    let store = catalog();
    let r1 = search(&store, "en-US", "image");
    let r2 = search(&store, "en-US", "image");
    assert!(same_results(&r1, &r2));
}

#[test]
fn unmatched_phrase_yields_no_results() {
    let store = catalog();
    let r = search(&store, "en-US", "spreadsheet");
    assert_eq!(r.len(), 0);
}

#[test]
fn result_carries_collection_key_and_origin() {
    let store = catalog();
    let r = search(&store, "en-US", "GIMP");
    assert_eq!(r[0].id, "flathub");
    assert_eq!(r[0].icon, "flathub");
    assert_eq!(r[0].summary, "Image editor");
}

#[test]
fn name_tiers_exact_prefix_inner() {
    assert_eq!(weight_of("image viewer", "Image Viewer", ""), Some(10));
    assert_eq!(weight_of("image", "Image Viewer", ""), Some(9));
    assert_eq!(weight_of("viewer", "Image Viewer", ""), Some(8));
}

#[test]
fn summary_full_span_is_keyed_off_the_summary_length() {
    // The full-span summary tier compares against the summary's own
    // length, not the name's: "draw" spans the whole summary here.
    assert_eq!(weight_of("draw", "Paint", "draw"), Some(7));
}

#[test]
fn summary_tiers_prefix_inner() {
    assert_eq!(weight_of("draw", "Paint", "draw fast"), Some(6));
    assert_eq!(weight_of("draw", "Paint", "fast draw"), Some(5));
}

#[test]
fn no_match_in_either_field_has_no_weight() {
    assert_eq!(weight_of("music", "Paint", "draw fast"), None);
}

#[test]
fn equal_weights_tie_break_in_natural_order() {
    let store = Store {
        entries: vec![(
            "key".to_string(),
            MetaCollection {
                origin: None,
                components: vec![
                    comp("Item 10", "An editor tool"),
                    comp("Item 9", "An editor tool"),
                ],
            },
        )],
    };
    let r = search(&store, "en-US", "editor");
    assert_eq!(r.len(), 2);
    assert_eq!(r[0].name, "Item 9");
    assert_eq!(r[1].name, "Item 10");
}

#[test]
fn locale_translation_is_preferred() {
    let c = Component {
        name: Translatable {
            entries: vec![
                ("C".to_string(), "Color".to_string()),
                ("de".to_string(), "Farbe".to_string()),
            ],
        },
        summary: None,
    };
    let store = Store {
        entries: vec![(
            "key".to_string(),
            MetaCollection { origin: None, components: vec![c] },
        )],
    };
    let r = search(&store, "de", "Farbe");
    assert_eq!(r.len(), 1);
    assert_eq!(r[0].name, "Farbe");
    assert_eq!(r[0].weight, 10);
    let none = search(&store, "C", "Farbe");
    assert_eq!(none.len(), 0);
}

#[test]
fn missing_locale_falls_back_to_default() {
    let t = Translatable {
        entries: vec![
            ("C".to_string(), "Color".to_string()),
            ("de".to_string(), "Farbe".to_string()),
        ],
    };
    assert_eq!(resolve(&t, "fr"), "Color");
    assert_eq!(resolve(&t, "de"), "Farbe");
    let empty = Translatable { entries: vec![] };
    assert_eq!(resolve(&empty, "fr"), "");
}

#[test]
fn component_without_summary_matches_by_name_only() {
    let store = Store {
        entries: vec![(
            "key".to_string(),
            MetaCollection {
                origin: None,
                components: vec![Component { name: tr("Solitaire"), summary: None }],
            },
        )],
    };
    let r = search(&store, "en-US", "soli");
    assert_eq!(r.len(), 1);
    assert_eq!(r[0].weight, 9);
    assert_eq!(r[0].summary, "");
}
