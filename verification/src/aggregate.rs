//! The installed-package aggregator: every backend's installed list, tagged
//! with the backend's name, merged into one sequence and sorted in natural
//! lexical order of the display name. The result is a function of the tagged
//! lists alone.

use vstd::prelude::*;
use crate::natural::{lemma_nat_le_total, nat_cmp_safe, nat_le, nat_le_exec};
use crate::package::{pkg_view, Package, PkgView};

verus! {

pub open spec fn pair_view(p: (String, Package)) -> (Seq<char>, PkgView) {
    (p.0@, pkg_view(p.1))
}

pub open spec fn pair_views(s: Seq<(String, Package)>) -> Seq<(Seq<char>, PkgView)> {
    s.map_values(|p: (String, Package)| pair_view(p))
}

/// Every display name among the tagged pairs is safe to hand the natural
/// comparison (no digit run of twenty or more digits can arise from it).
pub open spec fn installed_names_safe(s: Seq<(String, Package)>) -> bool {
    forall|k: int| 0 <= k < s.len() ==> nat_cmp_safe(pair_view(#[trigger] s[k]).1.name)
}

/// Every display name in every backend's list is safe to hand the natural
/// comparison.
pub open spec fn lists_names_safe(lists: Seq<(String, Vec<Package>)>) -> bool {
    forall|i: int, j: int| 0 <= i < lists.len() && 0 <= j < lists[i].1@.len()
        ==> #[trigger] nat_cmp_safe(pkg_view(lists[i].1@[j]).name)
}

/// Installed-list order: natural lexical order on the display name.
pub open spec fn pkg_le(a: (Seq<char>, PkgView), b: (Seq<char>, PkgView)) -> bool {
    nat_le(a.1.name, b.1.name)
}

/// The installed-list order is total.
pub proof fn lemma_pkg_le_total(a: (Seq<char>, PkgView), b: (Seq<char>, PkgView))
    ensures
        pkg_le(a, b) || pkg_le(b, a),
{
    lemma_nat_le_total(a.1.name, b.1.name);
}

/// Stable insertion: the new pair lands after every pair that sorts at or
/// before it.
pub open spec fn insert_pkg(s: Seq<(Seq<char>, PkgView)>, x: (Seq<char>, PkgView)) -> Seq<
    (Seq<char>, PkgView),
>
    decreases s.len(),
{
    if s.len() == 0 {
        seq![x]
    } else if pkg_le(s.last(), x) {
        s.push(x)
    } else {
        insert_pkg(s.drop_last(), x).push(s.last())
    }
}

/// Stable insertion sort by the installed-list order.
pub open spec fn sort_pkg(s: Seq<(Seq<char>, PkgView)>) -> Seq<(Seq<char>, PkgView)>
    decreases s.len(),
{
    if s.len() == 0 {
        Seq::<(Seq<char>, PkgView)>::empty()
    } else {
        insert_pkg(sort_pkg(s.drop_last()), s.last())
    }
}

/// Adjacent pairs stand in natural lexical order of the name.
pub open spec fn sorted_pkgs(s: Seq<(Seq<char>, PkgView)>) -> bool {
    forall|i: int| 0 <= i && i + 1 < s.len() ==> #[trigger] pkg_le(s[i], s[i + 1])
}

pub proof fn lemma_insert_pkg(s: Seq<(Seq<char>, PkgView)>, x: (Seq<char>, PkgView))
    requires
        sorted_pkgs(s),
    ensures
        sorted_pkgs(insert_pkg(s, x)),
        insert_pkg(s, x).to_multiset() == s.to_multiset().insert(x),
        insert_pkg(s, x).len() == s.len() + 1,
    decreases s.len(),
{
    broadcast use vstd::seq_lib::group_to_multiset_ensures;

    if s.len() == 0 {
        assert(seq![x] =~= Seq::<(Seq<char>, PkgView)>::empty().push(x));
        assert(insert_pkg(s, x).to_multiset() =~= s.to_multiset().insert(x));
    } else if pkg_le(s.last(), x) {
        assert(insert_pkg(s, x).to_multiset() =~= s.to_multiset().insert(x));
    } else {
        let t = insert_pkg(s.drop_last(), x);
        lemma_insert_pkg(s.drop_last(), x);
        // the pair now standing last in `t` sorts at or before `s.last()`
        if s.drop_last().len() == 0 || pkg_le(s.drop_last().last(), x) {
            assert(t.last() == x);
            lemma_pkg_le_total(s.last(), x);
        } else {
            assert(t.last() == s.drop_last().last());
            assert(pkg_le(s[s.len() - 2], s[s.len() - 2 + 1]));
        }
        assert(sorted_pkgs(t.push(s.last())));
        assert(s =~= s.drop_last().push(s.last()));
        assert(s.to_multiset() == s.drop_last().to_multiset().insert(s.last()));
        assert(t.push(s.last()).to_multiset() == s.drop_last().to_multiset().insert(x).insert(
            s.last(),
        ));
        assert(s.drop_last().to_multiset().insert(x).insert(s.last())
            =~= s.drop_last().to_multiset().insert(s.last()).insert(x));
    }
}

pub proof fn lemma_sort_pkg(s: Seq<(Seq<char>, PkgView)>)
    ensures
        sorted_pkgs(sort_pkg(s)),
        sort_pkg(s).to_multiset() == s.to_multiset(),
        sort_pkg(s).len() == s.len(),
    decreases s.len(),
{
    broadcast use vstd::seq_lib::group_to_multiset_ensures;

    if s.len() > 0 {
        lemma_sort_pkg(s.drop_last());
        lemma_insert_pkg(sort_pkg(s.drop_last()), s.last());
        assert(s =~= s.drop_last().push(s.last()));
        assert(s.to_multiset() == s.drop_last().to_multiset().insert(s.last()));
    }
}

/// Sorting respects an already-sorted sequence: nothing moves.
pub proof fn lemma_sort_pkg_of_sorted(s: Seq<(Seq<char>, PkgView)>)
    requires
        sorted_pkgs(s),
    ensures
        sort_pkg(s) == s,
    decreases s.len(),
{
    if s.len() > 0 {
        assert(sorted_pkgs(s.drop_last()));
        lemma_sort_pkg_of_sorted(s.drop_last());
        if s.len() >= 2 {
            assert(pkg_le(s[s.len() - 2], s[s.len() - 2 + 1]));
        }
        assert(insert_pkg(s.drop_last(), s.last()) == s.drop_last().push(s.last()));
        assert(s.drop_last().push(s.last()) =~= s);
    }
}

/// Sorting is idempotent: sorting a sorted sequence yields the same
/// sequence again.
pub proof fn lemma_sort_pkg_idempotent(s: Seq<(Seq<char>, PkgView)>)
    ensures
        sort_pkg(sort_pkg(s)) == sort_pkg(s),
{
    lemma_sort_pkg(s);
    lemma_sort_pkg_of_sorted(sort_pkg(s));
}

proof fn lemma_insert_pkg_at(s: Seq<(Seq<char>, PkgView)>, x: (Seq<char>, PkgView), j: int)
    requires
        0 <= j <= s.len(),
        j > 0 ==> pkg_le(s[j - 1], x),
        forall|k: int| j <= k < s.len() ==> !pkg_le(#[trigger] s[k], x),
    ensures
        insert_pkg(s, x) == s.take(j).push(x) + s.skip(j),
    decreases s.len(),
{
    if j == s.len() {
        assert(insert_pkg(s, x) =~= s.take(j).push(x) + s.skip(j));
    } else {
        assert(!pkg_le(s.last(), x));
        lemma_insert_pkg_at(s.drop_last(), x, j);
        assert(s.drop_last().take(j) =~= s.take(j));
        assert(insert_pkg(s, x) =~= s.take(j).push(x) + s.skip(j));
    }
}

/// Whether `a` sorts at or before `b` in the installed list.
pub fn pkg_le_exec(a: &(String, Package), b: &(String, Package)) -> (r: bool)
    requires
        nat_cmp_safe(pair_view(*a).1.name),
        nat_cmp_safe(pair_view(*b).1.name),
    ensures
        r == pkg_le(pair_view(*a), pair_view(*b)),
{
    nat_le_exec(a.1.name.as_str(), b.1.name.as_str())
}

/// Sort tagged packages in natural lexical order of the display name,
/// stably.
pub fn sort_installed(v: &mut Vec<(String, Package)>)
    requires
        installed_names_safe(old(v)@),
    ensures
        pair_views(final(v)@) == sort_pkg(pair_views(old(v)@)),
{
    let ghost orig = old(v)@;
    let n = v.len();
    let mut i: usize = 0;
    while i < n
        invariant
            n == orig.len(),
            v@.len() == n,
            0 <= i <= n,
            installed_names_safe(v@),
            installed_names_safe(orig),
            pair_views(v@.take(i as int)) == sort_pkg(pair_views(orig.take(i as int))),
            v@.skip(i as int) == orig.skip(i as int),
        decreases n - i,
    {
        let ghost pre = v@;
        let ghost pv = pair_views(v@.take(i as int));
        proof {
            lemma_sort_pkg(pair_views(orig.take(i as int)));
        }
        let x = v.remove(i);
        proof {
            assert(pre.skip(i as int)[0] == pre[i as int]);
            assert(x == orig[i as int]);
            assert(v@.take(i as int) =~= pre.take(i as int));
            assert forall|k: int| 0 <= k < v@.skip(i as int).len() implies v@.skip(
                i as int,
            )[k] == orig.skip(i as int + 1)[k] by {
                assert(v@[i + k] == pre[i + k + 1]);
                assert(pre.skip(i as int)[k + 1] == orig.skip(i as int)[k + 1]);
            }
            assert(v@.skip(i as int) =~= orig.skip(i as int + 1));
            assert forall|k: int| 0 <= k < v@.len() implies nat_cmp_safe(pair_view(
                #[trigger] v@[k],
            ).1.name) by {
                if k < i {
                    assert(v@[k] == pre[k]);
                } else {
                    assert(v@[k] == pre[k + 1]);
                }
            }
        }
        let mut j: usize = i;
        while j > 0 && !pkg_le_exec(&v[j - 1], &x)
            invariant
                0 <= j <= i,
                i < n,
                v@.len() == n - 1,
                installed_names_safe(v@),
                nat_cmp_safe(pair_view(x).1.name),
                pair_views(v@.take(i as int)) == pv,
                sorted_pkgs(pv),
                forall|k: int| j <= k < i ==> !pkg_le(#[trigger] pv[k], pair_view(x)),
            decreases j,
        {
            proof {
                assert(pv[j - 1] == pair_view(v@[j - 1]));
            }
            j -= 1;
        }
        proof {
            assert(j > 0 ==> pkg_le(pv[j - 1], pair_view(x)));
            lemma_insert_pkg_at(pv, pair_view(x), j as int);
        }
        let ghost mid = v@;
        v.insert(j, x);
        proof {
            assert(pair_views(v@.take(i as int + 1)) =~= pv.take(j as int).push(pair_view(x))
                + pv.skip(j as int));
            assert(pair_views(v@.take(i as int + 1)) == insert_pkg(pv, pair_view(x)));
            assert(orig.take(i as int + 1).drop_last() =~= orig.take(i as int));
            assert(pair_views(orig.take(i as int + 1)).drop_last() =~= pair_views(
                orig.take(i as int),
            ));
            assert(pair_views(orig.take(i as int + 1)).last() == pair_view(orig[i as int]));
            assert(sort_pkg(pair_views(orig.take(i as int + 1))) == insert_pkg(
                sort_pkg(pair_views(orig.take(i as int))),
                pair_view(orig[i as int]),
            ));
            assert(v@.skip(i as int + 1) =~= orig.skip(i as int + 1));
            assert forall|k: int| 0 <= k < v@.len() implies nat_cmp_safe(pair_view(
                #[trigger] v@[k],
            ).1.name) by {
                if k < j {
                    assert(v@[k] == mid[k]);
                } else if k == j {
                    assert(v@[k] == x);
                } else {
                    assert(v@[k] == mid[k - 1]);
                }
            }
        }
        i += 1;
    }
    proof {
        assert(v@.take(n as int) =~= v@);
        assert(orig.take(n as int) =~= orig);
    }
}

/// A backend's packages, each tagged with the backend's name.
pub open spec fn tag_all(name: Seq<char>, pkgs: Seq<PkgView>) -> Seq<(Seq<char>, PkgView)> {
    pkgs.map_values(|p: PkgView| (name, p))
}

/// All backends' tagged packages, in the order the backends were queried.
pub open spec fn flatten_spec(lists: Seq<(Seq<char>, Seq<PkgView>)>) -> Seq<
    (Seq<char>, PkgView),
>
    decreases lists.len(),
{
    if lists.len() == 0 {
        Seq::<(Seq<char>, PkgView)>::empty()
    } else {
        flatten_spec(lists.drop_last()) + tag_all(lists.last().0, lists.last().1)
    }
}

pub open spec fn lists_view(s: Seq<(String, Vec<Package>)>) -> Seq<(Seq<char>, Seq<PkgView>)> {
    s.map_values(
        |l: (String, Vec<Package>)| (l.0@, l.1@.map_values(|p: Package| pkg_view(p))),
    )
}

/// What aggregation returns: the merged tagged lists, sorted.
pub open spec fn aggregate_spec(lists: Seq<(Seq<char>, Seq<PkgView>)>) -> Seq<
    (Seq<char>, PkgView),
> {
    sort_pkg(flatten_spec(lists))
}

/// Merge every backend's installed list into one naturally sorted sequence
/// of `(backend name, package)` pairs.
pub fn aggregate_installed(lists: &Vec<(String, Vec<Package>)>) -> (r: Vec<(String, Package)>)
    requires
        lists_names_safe(lists@),
    ensures
        pair_views(r@) == aggregate_spec(lists_view(lists@)),
{
    let mut merged: Vec<(String, Package)> = Vec::new();
    let n = lists.len();
    let mut i: usize = 0;
    proof {
        assert(pair_views(merged@) =~= flatten_spec(lists_view(lists@).take(0)));
    }
    while i < n
        invariant
            n == lists.len(),
            0 <= i <= n,
            lists_names_safe(lists@),
            installed_names_safe(merged@),
            pair_views(merged@) == flatten_spec(lists_view(lists@).take(i as int)),
        decreases n - i,
    {
        let ghost lv = lists_view(lists@);
        let entry = &lists[i];
        let m = entry.1.len();
        let mut j: usize = 0;
        proof {
            assert(tag_all(lv[i as int].0, lv[i as int].1.take(0)) =~= Seq::<
                (Seq<char>, PkgView),
            >::empty());
            assert(pair_views(merged@) + tag_all(lv[i as int].0, lv[i as int].1.take(0))
                =~= pair_views(merged@));
        }
        while j < m
            invariant
                n == lists.len(),
                i < n,
                lv == lists_view(lists@),
                entry == &lists@[i as int],
                m == entry.1.len(),
                0 <= j <= m,
                lists_names_safe(lists@),
                installed_names_safe(merged@),
                pair_views(merged@) == flatten_spec(lv.take(i as int)) + tag_all(
                    lv[i as int].0,
                    lv[i as int].1.take(j as int),
                ),
            decreases m - j,
        {
            let pkg = entry.1[j].duplicate();
            let name = entry.0.clone();
            let ghost before = merged@;
            merged.push((name, pkg));
            proof {
                assert(pair_views(merged@) =~= pair_views(before).push(pair_view(
                    merged@.last(),
                )));
                assert(pair_view(merged@.last()) == (lv[i as int].0, lv[i as int].1[j as int]));
                assert(tag_all(lv[i as int].0, lv[i as int].1.take(j as int + 1))
                    =~= tag_all(lv[i as int].0, lv[i as int].1.take(j as int)).push(
                    (lv[i as int].0, lv[i as int].1[j as int]),
                ));
                assert(pair_views(merged@) =~= flatten_spec(lv.take(i as int)) + tag_all(
                    lv[i as int].0,
                    lv[i as int].1.take(j as int + 1),
                ));
                assert(entry.1@ == lists@[i as int].1@);
                assert(j < lists@[i as int].1@.len());
                assert(nat_cmp_safe(pkg_view(lists@[i as int].1@[j as int]).name));
                assert forall|k: int| 0 <= k < merged@.len() implies nat_cmp_safe(pair_view(
                    #[trigger] merged@[k],
                ).1.name) by {
                    if k < before.len() {
                        assert(merged@[k] == before[k]);
                    }
                }
            }
            j += 1;
        }
        proof {
            assert(lv[i as int].1.take(m as int) =~= lv[i as int].1);
            assert(lv.take(i as int + 1).drop_last() =~= lv.take(i as int));
            assert(lv.take(i as int + 1).last() == lv[i as int]);
        }
        i += 1;
    }
    proof {
        assert(lists_view(lists@).take(n as int) =~= lists_view(lists@));
    }
    sort_installed(&mut merged);
    merged
}

/// The aggregator's output is a permutation of everything the backends
/// reported, with adjacent pairs in natural lexical order of the name.
pub proof fn lemma_aggregate_sorted_permutation(lists: Seq<(Seq<char>, Seq<PkgView>)>)
    ensures
        sorted_pkgs(aggregate_spec(lists)),
        aggregate_spec(lists).to_multiset() == flatten_spec(lists).to_multiset(),
{
    lemma_sort_pkg(flatten_spec(lists));
}

/// For two backends in particular: the merged-and-sorted output is a
/// naturally sorted permutation of the union of the two installed lists.
pub proof fn lemma_aggregate_two_backends(
    n1: Seq<char>,
    l1: Seq<PkgView>,
    n2: Seq<char>,
    l2: Seq<PkgView>,
)
    ensures
        sorted_pkgs(aggregate_spec(seq![(n1, l1), (n2, l2)])),
        aggregate_spec(seq![(n1, l1), (n2, l2)]).to_multiset() == tag_all(
            n1,
            l1,
        ).to_multiset().add(tag_all(n2, l2).to_multiset()),
{
    let lists = seq![(n1, l1), (n2, l2)];
    lemma_aggregate_sorted_permutation(lists);
    assert(lists.drop_last() =~= seq![(n1, l1)]);
    assert(seq![(n1, l1)].drop_last() =~= Seq::<(Seq<char>, Seq<PkgView>)>::empty());
    assert(flatten_spec(Seq::<(Seq<char>, Seq<PkgView>)>::empty()) =~= Seq::<
        (Seq<char>, PkgView),
    >::empty());
    assert(flatten_spec(seq![(n1, l1)]) =~= tag_all(n1, l1));
    assert(flatten_spec(lists) == flatten_spec(seq![(n1, l1)]) + tag_all(n2, l2));
    vstd::seq_lib::lemma_multiset_commutative(tag_all(n1, l1), tag_all(n2, l2));
}

/// Querying the same two backends in either order yields outputs that are
/// both sorted and are permutations of each other: the merged result is
/// independent of backend call order up to the placement of packages whose
/// names the natural order does not separate.
pub proof fn lemma_aggregate_two_orders(
    n1: Seq<char>,
    l1: Seq<PkgView>,
    n2: Seq<char>,
    l2: Seq<PkgView>,
)
    ensures
        sorted_pkgs(aggregate_spec(seq![(n1, l1), (n2, l2)])),
        sorted_pkgs(aggregate_spec(seq![(n2, l2), (n1, l1)])),
        aggregate_spec(seq![(n1, l1), (n2, l2)]).to_multiset() == aggregate_spec(
            seq![(n2, l2), (n1, l1)],
        ).to_multiset(),
{
    lemma_aggregate_two_backends(n1, l1, n2, l2);
    lemma_aggregate_two_backends(n2, l2, n1, l1);
    assert(tag_all(n1, l1).to_multiset().add(tag_all(n2, l2).to_multiset()) =~= tag_all(
        n2,
        l2,
    ).to_multiset().add(tag_all(n1, l1).to_multiset()));
}

} // verus!
