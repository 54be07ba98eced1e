use cosmic_store::package::{appstream_request, package_from_ref, packages_from_refs, RefInfo};

fn full_ref() -> RefInfo {
    RefInfo {
        id: Some("org.gimp.GIMP".to_string()),
        arch: Some("x86_64".to_string()),
        branch: Some("stable".to_string()),
        appdata_name: Some("GIMP".to_string()),
        appdata_version: Some("2.10".to_string()),
    }
}

#[test]
fn fully_declared_ref_keeps_every_field() {
    let p = package_from_ref(full_ref()).unwrap();
    assert_eq!(p.id, "org.gimp.GIMP");
    assert_eq!(p.name, "GIMP");
    assert_eq!(p.version, "2.10");
    assert_eq!(p.icon, "org.gimp.GIMP");
}

#[test]
fn missing_version_falls_back_to_empty_string() {
    let mut r = full_ref();
    r.appdata_version = None;
    let p = package_from_ref(r).unwrap();
    assert_eq!(p.version, "");
}

#[test]
fn missing_name_falls_back_to_id() {
    let mut r = full_ref();
    r.appdata_name = None;
    let p = package_from_ref(r).unwrap();
    assert_eq!(p.name, "org.gimp.GIMP");
}

#[test]
fn ref_without_id_is_skipped() {
    let mut r = full_ref();
    r.id = None;
    assert!(package_from_ref(r).is_none());
}

#[test]
fn extra_records_arch_and_branch() {
    let p = package_from_ref(full_ref()).unwrap();
    assert_eq!(
        p.extra,
        vec![
            ("arch".to_string(), "x86_64".to_string()),
            ("branch".to_string(), "stable".to_string()),
        ],
    );
}

#[test]
fn undeclared_addressing_fields_stay_absent() {
    let mut r = full_ref();
    r.arch = None;
    let p = package_from_ref(r).unwrap();
    assert_eq!(p.extra, vec![("branch".to_string(), "stable".to_string())]);
}

#[test]
fn round_trip_addressing_recovers_the_ref() {
    let p = package_from_ref(full_ref()).unwrap();
    let (id, arch, branch) = appstream_request(&p);
    assert_eq!(id, "org.gimp.GIMP");
    assert_eq!(arch.as_deref(), Some("x86_64"));
    assert_eq!(branch.as_deref(), Some("stable"));
}

#[test]
fn round_trip_without_branch() {
    let mut r = full_ref();
    r.branch = None;
    let p = package_from_ref(r).unwrap();
    let (id, arch, branch) = appstream_request(&p);
    assert_eq!(id, "org.gimp.GIMP");
    assert_eq!(arch.as_deref(), Some("x86_64"));
    assert_eq!(branch, None);
}

#[test]
fn duplicate_preserves_every_field() {
    let p = package_from_ref(full_ref()).unwrap();
    let q = p.duplicate();
    assert_eq!(p.id, q.id);
    assert_eq!(p.name, q.name);
    assert_eq!(p.version, q.version);
    assert_eq!(p.icon, q.icon);
    assert_eq!(p.extra, q.extra);
}

#[test]
fn enumeration_normalizes_in_order_and_skips_unnamed() {
    let refs = vec![
        full_ref(),
        RefInfo {
            id: None,
            arch: None,
            branch: None,
            appdata_name: Some("Ghost".to_string()),
            appdata_version: None,
        },
        RefInfo {
            id: Some("org.example.Tool".to_string()),
            arch: None,
            branch: None,
            appdata_name: None,
            appdata_version: None,
        },
    ];
    let packages = packages_from_refs(&refs);
    assert_eq!(packages.len(), 2);
    assert_eq!(packages[0].name, "GIMP");
    assert_eq!(packages[1].name, "org.example.Tool");
}
