//! The normalized package record every backend produces, and the
//! normalization a backend applies to one enumerated ref: entries without an
//! identifier are skipped, the display name falls back to the identifier,
//! the version falls back to the empty string, and the addressing fields
//! needed to re-resolve the package later are kept under `extra`.

use vstd::prelude::*;
use crate::catalog::{entries_view, lookup_entries, lookup_spec};

verus! {

/// A normalized, backend-agnostic record of one installed software unit.
/// `id` plus the backend's own `extra` entries suffice to re-resolve the
/// package on the backend that produced it; `icon` is the name handed to
/// the out-of-scope icon resolver.
pub struct Package {
    pub id: String,
    pub name: String,
    pub version: String,
    pub icon: String,
    pub extra: Vec<(String, String)>,
}

pub ghost struct PkgView {
    pub id: Seq<char>,
    pub name: Seq<char>,
    pub version: Seq<char>,
    pub icon: Seq<char>,
    pub extra: Seq<(Seq<char>, Seq<char>)>,
}

pub open spec fn pkg_view(p: Package) -> PkgView {
    PkgView {
        id: p.id@,
        name: p.name@,
        version: p.version@,
        icon: p.icon@,
        extra: entries_view(p.extra@),
    }
}

pub open spec fn opt_view(o: Option<String>) -> Option<Seq<char>> {
    match o {
        Some(s) => Some(s@),
        None => None,
    }
}

impl Package {
    /// An independently owned copy with the same view.
    pub fn duplicate(&self) -> (r: Package)
        ensures
            pkg_view(r) == pkg_view(*self),
    {
        let mut extra: Vec<(String, String)> = Vec::new();
        let n = self.extra.len();
        let mut i: usize = 0;
        while i < n
            invariant
                n == self.extra.len(),
                0 <= i <= n,
                extra@.len() == i,
                entries_view(extra@) == entries_view(self.extra@.take(i as int)),
            decreases n - i,
        {
            let ghost before = extra@;
            extra.push((self.extra[i].0.clone(), self.extra[i].1.clone()));
            proof {
                assert(extra@[i as int].0@ == self.extra@[i as int].0@);
                assert(extra@[i as int].1@ == self.extra@[i as int].1@);
                assert forall|k: int| 0 <= k < i + 1 implies entries_view(extra@)[k]
                    == entries_view(self.extra@.take(i as int + 1))[k] by {
                    if k < i {
                        assert(extra@[k] == before[k]);
                        assert(entries_view(before)[k] == entries_view(
                            self.extra@.take(i as int),
                        )[k]);
                    }
                }
                assert(entries_view(extra@) =~= entries_view(self.extra@.take(i as int + 1)));
            }
            i += 1;
        }
        proof {
            assert(self.extra@.take(n as int) =~= self.extra@);
        }
        let r = Package {
            id: self.id.clone(),
            name: self.name.clone(),
            version: self.version.clone(),
            icon: self.icon.clone(),
            extra,
        };
        r
    }
}

/// The per-item fields a backend reads off one enumerated ref, each absent
/// where the underlying system does not declare it.
pub struct RefInfo {
    pub id: Option<String>,
    pub arch: Option<String>,
    pub branch: Option<String>,
    pub appdata_name: Option<String>,
    pub appdata_version: Option<String>,
}

pub ghost struct RefInfoView {
    pub id: Option<Seq<char>>,
    pub arch: Option<Seq<char>>,
    pub branch: Option<Seq<char>>,
    pub appdata_name: Option<Seq<char>>,
    pub appdata_version: Option<Seq<char>>,
}

pub open spec fn ref_view(r: RefInfo) -> RefInfoView {
    RefInfoView {
        id: opt_view(r.id),
        arch: opt_view(r.arch),
        branch: opt_view(r.branch),
        appdata_name: opt_view(r.appdata_name),
        appdata_version: opt_view(r.appdata_version),
    }
}

/// The addressing entries a backend records: the architecture under
/// `"arch"` and the branch under `"branch"`, each only where declared.
pub open spec fn extra_spec(arch: Option<Seq<char>>, branch: Option<Seq<char>>) -> Seq<
    (Seq<char>, Seq<char>),
> {
    (match arch {
        Some(a) => seq![("arch"@, a)],
        None => Seq::empty(),
    }) + (match branch {
        Some(b) => seq![("branch"@, b)],
        None => Seq::empty(),
    })
}

/// How one enumerated ref normalizes: skipped entirely without an
/// identifier; otherwise the display name falls back to the identifier, the
/// version falls back to the empty string, the icon is looked up by the
/// identifier, and the addressing fields land in `extra`.
pub open spec fn package_from_ref_spec(r: RefInfoView) -> Option<PkgView> {
    match r.id {
        None => None,
        Some(id) => Some(
            (PkgView {
                id: id,
                name: match r.appdata_name {
                    Some(n) => n,
                    None => id,
                },
                version: match r.appdata_version {
                    Some(v) => v,
                    None => Seq::empty(),
                },
                icon: id,
                extra: extra_spec(r.arch, r.branch),
            }),
        ),
    }
}

/// Normalize one enumerated ref into a package record, if it can be
/// addressed at all. A ref without an identifier yields `None` and is
/// skipped, never an error; missing optional fields degrade to their
/// fallbacks.
pub fn package_from_ref(r: RefInfo) -> (p: Option<Package>)
    ensures
        match p {
            Some(pkg) => package_from_ref_spec(ref_view(r)) == Some(pkg_view(pkg)),
            None => package_from_ref_spec(ref_view(r)) is None,
        },
{
    match r.id {
        None => None,
        Some(id) => {
            let mut extra: Vec<(String, String)> = Vec::new();
            match r.arch {
                Some(a) => {
                    extra.push(("arch".to_owned(), a));
                },
                None => {},
            }
            match r.branch {
                Some(b) => {
                    extra.push(("branch".to_owned(), b));
                },
                None => {},
            }
            proof {
                assert(entries_view(extra@) =~= extra_spec(
                    opt_view(r.arch),
                    opt_view(r.branch),
                ));
            }
            let name = match r.appdata_name {
                Some(n) => n,
                None => id.clone(),
            };
            let version = match r.appdata_version {
                Some(v) => v,
                None => String::new(),
            };
            let icon = id.clone();
            Some(Package { id, name, version, icon, extra })
        },
    }
}

pub open spec fn ref_views(s: Seq<RefInfo>) -> Seq<RefInfoView> {
    s.map_values(|r: RefInfo| ref_view(r))
}

pub open spec fn pkg_views(s: Seq<Package>) -> Seq<PkgView> {
    s.map_values(|p: Package| pkg_view(p))
}

/// How a backend's whole enumeration normalizes: one package per ref that
/// carries an identifier, in enumeration order; refs without one are
/// skipped, never an error.
pub open spec fn packages_from_refs_spec(rs: Seq<RefInfoView>) -> Seq<PkgView>
    decreases rs.len(),
{
    if rs.len() == 0 {
        Seq::<PkgView>::empty()
    } else {
        let rest = packages_from_refs_spec(rs.drop_last());
        match package_from_ref_spec(rs.last()) {
            Some(p) => rest.push(p),
            None => rest,
        }
    }
}

/// An independently owned copy of an optional string.
fn opt_dup(o: &Option<String>) -> (r: Option<String>)
    ensures
        r == *o,
{
    match o {
        Some(s) => Some(s.clone()),
        None => None,
    }
}

/// Normalize a backend's whole enumeration: one package per ref that
/// carries an identifier, in enumeration order.
pub fn packages_from_refs(refs: &Vec<RefInfo>) -> (r: Vec<Package>)
    ensures
        pkg_views(r@) == packages_from_refs_spec(ref_views(refs@)),
{
    let mut out: Vec<Package> = Vec::new();
    let n = refs.len();
    let mut i: usize = 0;
    proof {
        assert(pkg_views(out@) =~= packages_from_refs_spec(ref_views(refs@).take(0)));
    }
    while i < n
        invariant
            n == refs.len(),
            0 <= i <= n,
            pkg_views(out@) == packages_from_refs_spec(ref_views(refs@).take(i as int)),
        decreases n - i,
    {
        let rf = &refs[i];
        let info = RefInfo {
            id: opt_dup(&rf.id),
            arch: opt_dup(&rf.arch),
            branch: opt_dup(&rf.branch),
            appdata_name: opt_dup(&rf.appdata_name),
            appdata_version: opt_dup(&rf.appdata_version),
        };
        proof {
            assert(ref_view(info) == ref_views(refs@)[i as int]);
            assert(ref_views(refs@).take(i as int + 1).drop_last() =~= ref_views(
                refs@,
            ).take(i as int));
            assert(ref_views(refs@).take(i as int + 1).last() == ref_views(refs@)[i as int]);
        }
        let ghost before = out@;
        match package_from_ref(info) {
            Some(p) => {
                out.push(p);
                proof {
                    assert(pkg_views(out@) =~= pkg_views(before).push(pkg_view(out@.last())));
                    assert(pkg_views(out@) =~= packages_from_refs_spec(ref_views(
                        refs@,
                    ).take(i as int + 1)));
                }
            },
            None => {
                proof {
                    assert(pkg_views(out@) =~= packages_from_refs_spec(ref_views(
                        refs@,
                    ).take(i as int + 1)));
                }
            },
        }
        i += 1;
    }
    proof {
        assert(ref_views(refs@).take(n as int) =~= ref_views(refs@));
    }
    out
}

/// What a detail fetch hands the owning backend to re-resolve a package:
/// the identifier, and the `"arch"` and `"branch"` entries recorded under
/// `extra`.
pub open spec fn request_spec(p: PkgView) -> (Seq<char>, Option<Seq<char>>, Option<Seq<char>>) {
    (p.id, lookup_spec(p.extra, "arch"@), lookup_spec(p.extra, "branch"@))
}

/// Extract the re-resolution request for a package: its identifier plus the
/// recorded architecture and branch, where present.
pub fn appstream_request(p: &Package) -> (r: (String, Option<String>, Option<String>))
    ensures
        r.0@ == request_spec(pkg_view(*p)).0,
        opt_view(r.1) == request_spec(pkg_view(*p)).1,
        opt_view(r.2) == request_spec(pkg_view(*p)).2,
{
    let arch_key: String = "arch".to_owned();
    let branch_key: String = "branch".to_owned();
    (
        p.id.clone(),
        lookup_entries(&p.extra, &arch_key),
        lookup_entries(&p.extra, &branch_key),
    )
}

/// Round trip: for any enumerated ref that carries an identifier, the
/// package it normalizes to re-resolves with exactly the identifier,
/// architecture and branch the ref declared — `id` plus `extra` is
/// sufficient addressing.
pub proof fn lemma_request_round_trip(r: RefInfoView)
    requires
        r.id is Some,
    ensures
        package_from_ref_spec(r) matches Some(p) && request_spec(p) == (
            r.id.unwrap(),
            r.arch,
            r.branch,
        ),
{
    reveal_strlit("arch");
    reveal_strlit("branch");
    let p = package_from_ref_spec(r).unwrap();
    assert("arch"@.len() == 4 && "branch"@.len() == 6);
    match r.arch {
        Some(a) => {
            assert(p.extra[0] == ("arch"@, a));
            assert(lookup_spec(p.extra, "arch"@) == Some(a));
            match r.branch {
                Some(b) => {
                    assert(p.extra.len() == 2);
                    assert(p.extra[1] == ("branch"@, b));
                    assert(p.extra.drop_first() =~= seq![("branch"@, b)]);
                    assert(lookup_spec(seq![("branch"@, b)], "branch"@) == Some(b));
                    assert(lookup_spec(p.extra, "branch"@) == Some(b));
                },
                None => {
                    assert(p.extra =~= seq![("arch"@, a)]);
                    assert(p.extra.drop_first() =~= Seq::<(Seq<char>, Seq<char>)>::empty());
                    assert(lookup_spec(Seq::<(Seq<char>, Seq<char>)>::empty(), "branch"@)
                        is None);
                    assert(lookup_spec(p.extra, "branch"@) is None);
                },
            }
        },
        None => {
            match r.branch {
                Some(b) => {
                    assert(p.extra.len() == 1);
                    assert(p.extra[0] == ("branch"@, b));
                    assert(p.extra.drop_first() =~= Seq::<(Seq<char>, Seq<char>)>::empty());
                    assert(lookup_spec(Seq::<(Seq<char>, Seq<char>)>::empty(), "arch"@)
                        is None);
                    assert(lookup_spec(p.extra, "arch"@) is None);
                    assert(lookup_spec(p.extra, "branch"@) == Some(b));
                },
                None => {
                    assert(p.extra =~= Seq::<(Seq<char>, Seq<char>)>::empty());
                },
            }
        },
    }
}

} // verus!
