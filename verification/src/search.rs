//! Ranked free-text search over the metadata catalog. Every component whose
//! resolved name or summary contains the phrase (case-insensitively, as a
//! literal) is collected with a relevance weight; results come back sorted by
//! weight, ties broken by natural lexical order on the name.

use vstd::prelude::*;
use vstd::utf8::encode_utf8;
use crate::catalog::{
    comp_view, resolve, resolve_summary, resolve_spec, store_view, summary_spec, CollView,
    CompView, Store,
};
use crate::natural::{lemma_nat_le_total, nat_cmp_safe, nat_le, nat_le_exec};

verus! {

/// The byte range that the case-insensitive literal matcher reports for the
/// leftmost occurrence of `phrase` in `text`, if any. It depends on the two
/// strings alone.
pub uninterp spec fn ci_find(phrase: Seq<char>, text: Seq<char>) -> Option<(int, int)>;

/// The UTF-8 byte length of a string, the unit the matcher's ranges use;
/// for any string held in memory it fits in `usize`, as the cast records.
pub open spec fn blen(s: Seq<char>) -> int {
    (encode_utf8(s).len() as usize) as int
}

/// Relies on `regex::escape`, `regex::RegexBuilder` with `case_insensitive`,
/// and `regex::Regex::find`: the byte range of the leftmost case-insensitive
/// occurrence of the literal phrase in the text, a function of the two
/// strings alone. Building the matcher can fail only when the escaped phrase
/// exceeds the compiled-size limit, which also depends on the phrase alone;
/// such a phrase reports no match, mirroring the zero-result policy for a
/// phrase that cannot be compiled.
#[verifier::external_body]
fn find_ci(phrase: &str, text: &str) -> (r: Option<(usize, usize)>)
    ensures
        match r {
            Some(p) => ci_find(phrase@, text@) == Some((p.0 as int, p.1 as int)) && p.0 <= p.1
                && p.1 <= blen(text@),
            None => ci_find(phrase@, text@) is None,
        },
{
    let pattern = regex::escape(phrase);
    match regex::RegexBuilder::new(&pattern).case_insensitive(true).build() {
        Ok(re) => re.find(text).map(|m| (m.start(), m.end())),
        Err(_) => None,
    }
}

/// The relevance weight of a component whose resolved name and summary are
/// given, for a phrase: an exact name match outranks a name prefix match,
/// which outranks a name substring match, which outranks any summary-only
/// match; summary matches mirror the name tiers one level lower, keyed off
/// the summary's own length. A component matching in neither field has no
/// weight and is excluded.
pub open spec fn weight_spec(phrase: Seq<char>, name: Seq<char>, summary: Seq<char>) -> Option<
    int,
> {
    match ci_find(phrase, name) {
        Some(r) => if r.0 == 0 && r.1 == blen(name) {
            Some(10int)
        } else if r.0 == 0 {
            Some(9int)
        } else {
            Some(8int)
        },
        None => match ci_find(phrase, summary) {
            Some(r) => if r.0 == 0 && r.1 == blen(summary) {
                Some(7int)
            } else if r.0 == 0 {
                Some(6int)
            } else {
                Some(5int)
            },
            None => None,
        },
    }
}

/// The length of the string in UTF-8 bytes.
fn byte_len(s: &str) -> (r: usize)
    ensures
        r as int == blen(s@),
{
    s.len()
}

/// Compute the weight for one component's resolved name and summary.
pub fn weight_of(phrase: &str, name: &str, summary: &str) -> (r: Option<usize>)
    ensures
        match r {
            Some(w) => weight_spec(phrase@, name@, summary@) == Some(w as int),
            None => weight_spec(phrase@, name@, summary@) is None,
        },
{
    match find_ci(phrase, name) {
        Some((s, e)) => if s == 0 {
            if e == byte_len(name) {
                Some(10)
            } else {
                Some(9)
            }
        } else {
            Some(8)
        },
        None => match find_ci(phrase, summary) {
            Some((s, e)) => if s == 0 {
                if e == byte_len(summary) {
                    Some(7)
                } else {
                    Some(6)
                }
            } else {
                Some(5)
            },
            None => None,
        },
    }
}

/// One ranked search hit: ephemeral, recomputed on every search.
pub struct SearchResult {
    pub id: String,
    pub icon: String,
    pub name: String,
    pub summary: String,
    pub weight: usize,
}

pub ghost struct ResView {
    pub id: Seq<char>,
    pub icon: Seq<char>,
    pub name: Seq<char>,
    pub summary: Seq<char>,
    pub weight: int,
}

pub open spec fn res_view(r: SearchResult) -> ResView {
    ResView {
        id: r.id@,
        icon: r.icon@,
        name: r.name@,
        summary: r.summary@,
        weight: r.weight as int,
    }
}

pub open spec fn res_views(s: Seq<SearchResult>) -> Seq<ResView> {
    s.map_values(|r: SearchResult| res_view(r))
}

/// The key handed to the out-of-scope icon resolver: the collection's
/// origin, or empty where it has none.
pub open spec fn icon_spec(origin: Option<Seq<char>>) -> Seq<char> {
    match origin {
        Some(o) => o,
        None => Seq::empty(),
    }
}

/// The hit a component contributes, if it matches: the collection key as the
/// emitted id, the resolved name and summary, and the weight.
pub open spec fn comp_result(
    key: Seq<char>,
    origin: Option<Seq<char>>,
    c: CompView,
    locale: Seq<char>,
    phrase: Seq<char>,
) -> Option<ResView> {
    match weight_spec(phrase, resolve_spec(c.name, locale), summary_spec(c, locale)) {
        Some(w) => Some(
            (ResView {
                id: key,
                icon: icon_spec(origin),
                name: resolve_spec(c.name, locale),
                summary: summary_spec(c, locale),
                weight: w,
            }),
        ),
        None => None,
    }
}

/// All hits of one collection's components, in catalog order.
pub open spec fn comp_results(
    key: Seq<char>,
    origin: Option<Seq<char>>,
    comps: Seq<CompView>,
    locale: Seq<char>,
    phrase: Seq<char>,
) -> Seq<ResView>
    decreases comps.len(),
{
    if comps.len() == 0 {
        Seq::empty()
    } else {
        let rest = comp_results(key, origin, comps.drop_last(), locale, phrase);
        match comp_result(key, origin, comps.last(), locale, phrase) {
            Some(rv) => rest.push(rv),
            None => rest,
        }
    }
}

/// All hits of the whole catalog, before ranking.
pub open spec fn scan_spec(
    entries: Seq<(Seq<char>, CollView)>,
    locale: Seq<char>,
    phrase: Seq<char>,
) -> Seq<ResView>
    decreases entries.len(),
{
    if entries.len() == 0 {
        Seq::empty()
    } else {
        scan_spec(entries.drop_last(), locale, phrase) + comp_results(
            entries.last().0,
            entries.last().1.origin,
            entries.last().1.components,
            locale,
            phrase,
        )
    }
}

/// Every result's name is safe to hand the natural comparison (no digit
/// run of twenty or more digits can arise from it).
pub open spec fn results_names_safe(s: Seq<SearchResult>) -> bool {
    forall|k: int| 0 <= k < s.len() ==> nat_cmp_safe(res_view(#[trigger] s[k]).name)
}

/// Every component name in the catalog resolves, for this locale, to a
/// string that is safe to hand the natural comparison.
pub open spec fn store_names_safe(entries: Seq<(Seq<char>, CollView)>, locale: Seq<char>) -> bool {
    forall|i: int, j: int| 0 <= i < entries.len() && 0 <= j < entries[i].1.components.len()
        ==> #[trigger] nat_cmp_safe(resolve_spec(entries[i].1.components[j].name, locale))
}

/// Ranking order: higher weight first; equal weights in natural lexical
/// order of the name.
pub open spec fn res_le(a: ResView, b: ResView) -> bool {
    a.weight > b.weight || (a.weight == b.weight && nat_le(a.name, b.name))
}

/// The ranking order is total.
pub proof fn lemma_res_le_total(a: ResView, b: ResView)
    ensures
        res_le(a, b) || res_le(b, a),
{
    lemma_nat_le_total(a.name, b.name);
}

/// Stable insertion into a ranked sequence: the new element lands after
/// every element that ranks at or before it.
pub open spec fn insert_res(s: Seq<ResView>, x: ResView) -> Seq<ResView>
    decreases s.len(),
{
    if s.len() == 0 {
        seq![x]
    } else if res_le(s.last(), x) {
        s.push(x)
    } else {
        insert_res(s.drop_last(), x).push(s.last())
    }
}

/// Stable insertion sort by the ranking order.
pub open spec fn sort_res(s: Seq<ResView>) -> Seq<ResView>
    decreases s.len(),
{
    if s.len() == 0 {
        Seq::<ResView>::empty()
    } else {
        insert_res(sort_res(s.drop_last()), s.last())
    }
}

/// Adjacent elements stand in ranking order.
pub open spec fn sorted_res(s: Seq<ResView>) -> bool {
    forall|i: int| 0 <= i && i + 1 < s.len() ==> #[trigger] res_le(s[i], s[i + 1])
}

pub proof fn lemma_insert_res(s: Seq<ResView>, x: ResView)
    requires
        sorted_res(s),
    ensures
        sorted_res(insert_res(s, x)),
        insert_res(s, x).to_multiset() == s.to_multiset().insert(x),
        insert_res(s, x).len() == s.len() + 1,
    decreases s.len(),
{
    broadcast use vstd::seq_lib::group_to_multiset_ensures;

    if s.len() == 0 {
        assert(seq![x] =~= Seq::<ResView>::empty().push(x));
        assert(insert_res(s, x).to_multiset() =~= s.to_multiset().insert(x));
    } else if res_le(s.last(), x) {
        assert(insert_res(s, x).to_multiset() =~= s.to_multiset().insert(x));
    } else {
        let t = insert_res(s.drop_last(), x);
        lemma_insert_res(s.drop_last(), x);
        // the element now standing last in `t` ranks at or before `s.last()`
        if s.drop_last().len() == 0 || res_le(s.drop_last().last(), x) {
            assert(t.last() == x);
            lemma_res_le_total(s.last(), x);
        } else {
            assert(t.last() == s.drop_last().last());
            assert(res_le(s[s.len() - 2], s[s.len() - 2 + 1]));
        }
        assert(sorted_res(t.push(s.last())));
        assert(s =~= s.drop_last().push(s.last()));
        assert(s.to_multiset() == s.drop_last().to_multiset().insert(s.last()));
        assert(t.push(s.last()).to_multiset() == s.drop_last().to_multiset().insert(x).insert(
            s.last(),
        ));
        assert(s.drop_last().to_multiset().insert(x).insert(s.last())
            =~= s.drop_last().to_multiset().insert(s.last()).insert(x));
    }
}

pub proof fn lemma_sort_res(s: Seq<ResView>)
    ensures
        sorted_res(sort_res(s)),
        sort_res(s).to_multiset() == s.to_multiset(),
        sort_res(s).len() == s.len(),
    decreases s.len(),
{
    broadcast use vstd::seq_lib::group_to_multiset_ensures;

    if s.len() > 0 {
        lemma_sort_res(s.drop_last());
        lemma_insert_res(sort_res(s.drop_last()), s.last());
        assert(s =~= s.drop_last().push(s.last()));
        assert(s.to_multiset() == s.drop_last().to_multiset().insert(s.last()));
    }
}

proof fn lemma_insert_res_at(s: Seq<ResView>, x: ResView, j: int)
    requires
        0 <= j <= s.len(),
        j > 0 ==> res_le(s[j - 1], x),
        forall|k: int| j <= k < s.len() ==> !res_le(#[trigger] s[k], x),
    ensures
        insert_res(s, x) == s.take(j).push(x) + s.skip(j),
    decreases s.len(),
{
    if j == s.len() {
        assert(insert_res(s, x) =~= s.take(j).push(x) + s.skip(j));
    } else {
        assert(!res_le(s.last(), x));
        lemma_insert_res_at(s.drop_last(), x, j);
        assert(s.drop_last().take(j) =~= s.take(j));
        assert(insert_res(s, x) =~= s.take(j).push(x) + s.skip(j));
    }
}

/// Whether `a` ranks at or before `b`.
pub fn res_le_exec(a: &SearchResult, b: &SearchResult) -> (r: bool)
    requires
        nat_cmp_safe(res_view(*a).name),
        nat_cmp_safe(res_view(*b).name),
    ensures
        r == res_le(res_view(*a), res_view(*b)),
{
    if a.weight > b.weight {
        true
    } else if a.weight == b.weight {
        nat_le_exec(a.name.as_str(), b.name.as_str())
    } else {
        false
    }
}

/// Sort hits by descending weight, ties in natural lexical order of the
/// name, stably.
pub fn sort_results(v: &mut Vec<SearchResult>)
    requires
        results_names_safe(old(v)@),
    ensures
        res_views(final(v)@) == sort_res(res_views(old(v)@)),
{
    let ghost orig = old(v)@;
    let n = v.len();
    let mut i: usize = 0;
    while i < n
        invariant
            n == orig.len(),
            v@.len() == n,
            0 <= i <= n,
            results_names_safe(v@),
            results_names_safe(orig),
            res_views(v@.take(i as int)) == sort_res(res_views(orig.take(i as int))),
            v@.skip(i as int) == orig.skip(i as int),
        decreases n - i,
    {
        let ghost pre = v@;
        let ghost pv = res_views(v@.take(i as int));
        proof {
            lemma_sort_res(res_views(orig.take(i as int)));
        }
        let x = v.remove(i);
        proof {
            assert(pre.skip(i as int)[0] == pre[i as int]);
            assert(x == orig[i as int]);
            assert(v@.take(i as int) =~= pre.take(i as int));
            assert forall|k: int| 0 <= k < v@.skip(i as int).len() implies v@.skip(
                i as int,
            )[k] == orig.skip(i as int + 1)[k] by {
                assert(v@[i + k] == pre[i + k + 1]);
                assert(pre.skip(i as int)[k + 1] == orig.skip(i as int)[k + 1]);
            }
            assert(v@.skip(i as int) =~= orig.skip(i as int + 1));
            assert forall|k: int| 0 <= k < v@.len() implies nat_cmp_safe(res_view(
                #[trigger] v@[k],
            ).name) by {
                if k < i {
                    assert(v@[k] == pre[k]);
                } else {
                    assert(v@[k] == pre[k + 1]);
                }
            }
        }
        let mut j: usize = i;
        while j > 0 && !res_le_exec(&v[j - 1], &x)
            invariant
                0 <= j <= i,
                i < n,
                v@.len() == n - 1,
                results_names_safe(v@),
                nat_cmp_safe(res_view(x).name),
                res_views(v@.take(i as int)) == pv,
                sorted_res(pv),
                forall|k: int| j <= k < i ==> !res_le(#[trigger] pv[k], res_view(x)),
            decreases j,
        {
            proof {
                assert(pv[j - 1] == res_view(v@[j - 1]));
            }
            j -= 1;
        }
        proof {
            assert(j > 0 ==> res_le(pv[j - 1], res_view(x)));
            lemma_insert_res_at(pv, res_view(x), j as int);
        }
        let ghost mid = v@;
        v.insert(j, x);
        proof {
            assert(res_views(v@.take(i as int + 1)) =~= pv.take(j as int).push(res_view(x))
                + pv.skip(j as int));
            assert(res_views(v@.take(i as int + 1)) == insert_res(pv, res_view(x)));
            assert(orig.take(i as int + 1).drop_last() =~= orig.take(i as int));
            assert(res_views(orig.take(i as int + 1)).drop_last() =~= res_views(
                orig.take(i as int),
            ));
            assert(res_views(orig.take(i as int + 1)).last() == res_view(orig[i as int]));
            assert(sort_res(res_views(orig.take(i as int + 1))) == insert_res(
                sort_res(res_views(orig.take(i as int))),
                res_view(orig[i as int]),
            ));
            assert(v@.skip(i as int + 1) =~= orig.skip(i as int + 1));
            assert forall|k: int| 0 <= k < v@.len() implies nat_cmp_safe(res_view(
                #[trigger] v@[k],
            ).name) by {
                if k < j {
                    assert(v@[k] == mid[k]);
                } else if k == j {
                    assert(v@[k] == x);
                } else {
                    assert(v@[k] == mid[k - 1]);
                }
            }
        }
        i += 1;
    }
    proof {
        assert(v@.take(n as int) =~= v@);
        assert(orig.take(n as int) =~= orig);
    }
}

/// What a search returns: every matching component of the catalog, ranked.
pub open spec fn search_spec(
    entries: Seq<(Seq<char>, CollView)>,
    locale: Seq<char>,
    phrase: Seq<char>,
) -> Seq<ResView> {
    sort_res(scan_spec(entries, locale, phrase))
}

/// Scan the whole catalog for the phrase and return the ranked hits.
/// The phrase is never empty: callers reject empty phrases before invoking
/// the engine.
pub fn search(store: &Store, locale: &str, phrase: &str) -> (r: Vec<SearchResult>)
    requires
        phrase@.len() != 0,
        store_names_safe(store_view(*store), locale@),
    ensures
        res_views(r@) == search_spec(store_view(*store), locale@, phrase@),
{
    let mut results: Vec<SearchResult> = Vec::new();
    let n = store.entries.len();
    let mut i: usize = 0;
    proof {
        assert(res_views(results@) =~= scan_spec(
            store_view(*store).take(0),
            locale@,
            phrase@,
        ));
    }
    while i < n
        invariant
            phrase@.len() != 0,
            n == store.entries.len(),
            0 <= i <= n,
            store_names_safe(store_view(*store), locale@),
            results_names_safe(results@),
            res_views(results@) == scan_spec(store_view(*store).take(i as int), locale@, phrase@),
        decreases n - i,
    {
        let ghost sv = store_view(*store);
        let entry = &store.entries[i];
        let m = entry.1.components.len();
        let mut j: usize = 0;
        proof {
            assert(sv[i as int].1.components.take(0) =~= Seq::<CompView>::empty());
        }
        while j < m
            invariant
                phrase@.len() != 0,
                n == store.entries.len(),
                i < n,
                sv == store_view(*store),
                entry == &store.entries@[i as int],
                m == entry.1.components.len(),
                0 <= j <= m,
                store_names_safe(sv, locale@),
                results_names_safe(results@),
                res_views(results@) == scan_spec(sv.take(i as int), locale@, phrase@)
                    + comp_results(
                    sv[i as int].0,
                    sv[i as int].1.origin,
                    sv[i as int].1.components.take(j as int),
                    locale@,
                    phrase@,
                ),
            decreases m - j,
        {
            let comp = &entry.1.components[j];
            let name = resolve(&comp.name, locale);
            let summary = resolve_summary(comp, locale);
            let ghost comps = sv[i as int].1.components;
            proof {
                assert(comps[j as int] == comp_view(entry.1.components@[j as int]));
                assert(comps.take(j as int + 1).drop_last() =~= comps.take(j as int));
                assert(comps.take(j as int + 1).last() == comps[j as int]);
            }
            match weight_of(phrase, name.as_str(), summary.as_str()) {
                Some(w) => {
                    let icon = match &entry.1.origin {
                        Some(o) => o.clone(),
                        None => String::new(),
                    };
                    let id = entry.0.clone();
                    let ghost before = results@;
                    results.push(
                        SearchResult { id, icon, name, summary, weight: w },
                    );
                    proof {
                        assert(res_views(results@) =~= res_views(before).push(res_view(
                            results@.last(),
                        )));
                        assert(comp_result(
                            sv[i as int].0,
                            sv[i as int].1.origin,
                            comps[j as int],
                            locale@,
                            phrase@,
                        ) == Some(res_view(results@.last())));
                        assert(res_views(results@) =~= scan_spec(
                            sv.take(i as int),
                            locale@,
                            phrase@,
                        ) + comp_results(
                            sv[i as int].0,
                            sv[i as int].1.origin,
                            comps.take(j as int + 1),
                            locale@,
                            phrase@,
                        ));
                        assert(nat_cmp_safe(resolve_spec(
                            sv[i as int].1.components[j as int].name,
                            locale@,
                        )));
                        assert forall|k: int| 0 <= k < results@.len() implies nat_cmp_safe(
                            res_view(#[trigger] results@[k]).name,
                        ) by {
                            if k < before.len() {
                                assert(results@[k] == before[k]);
                            }
                        }
                    }
                },
                None => {
                    proof {
                        assert(comp_result(
                            sv[i as int].0,
                            sv[i as int].1.origin,
                            comps[j as int],
                            locale@,
                            phrase@,
                        ) is None);
                    }
                },
            }
            j += 1;
        }
        proof {
            assert(sv[i as int].1.components.take(m as int) =~= sv[i as int].1.components);
            assert(sv.take(i as int + 1).drop_last() =~= sv.take(i as int));
            assert(sv.take(i as int + 1).last() == sv[i as int]);
        }
        i += 1;
    }
    proof {
        assert(store_view(*store).take(n as int) =~= store_view(*store));
    }
    sort_results(&mut results);
    results
}

/// What a search returns is ranked — adjacent results stand in ranking
/// order — and is a permutation of exactly the components that matched.
pub proof fn lemma_search_ranked(
    entries: Seq<(Seq<char>, CollView)>,
    locale: Seq<char>,
    phrase: Seq<char>,
)
    ensures
        sorted_res(search_spec(entries, locale, phrase)),
        search_spec(entries, locale, phrase).to_multiset() == scan_spec(
            entries,
            locale,
            phrase,
        ).to_multiset(),
{
    lemma_sort_res(scan_spec(entries, locale, phrase));
}

/// Two searches of an unchanged store with the identical phrase yield
/// identical result sequences: the outcome is a function of the store, the
/// locale and the phrase alone.
pub proof fn lemma_search_stable(
    r1: Seq<ResView>,
    r2: Seq<ResView>,
    entries: Seq<(Seq<char>, CollView)>,
    locale: Seq<char>,
    phrase: Seq<char>,
)
    requires
        r1 == search_spec(entries, locale, phrase),
        r2 == search_spec(entries, locale, phrase),
    ensures
        r1 == r2,
{
}

/// Weight monotonicity: a component whose name equals the phrase exactly
/// weighs 10, strictly above one whose name only contains the phrase as an
/// inner substring (8), strictly above one matched through its summary
/// alone (at most 7).
pub proof fn lemma_weight_monotonic(
    phrase: Seq<char>,
    exact_name: Seq<char>,
    exact_sum: Seq<char>,
    sub_name: Seq<char>,
    sub_sum: Seq<char>,
    sum_name: Seq<char>,
    sum_sum: Seq<char>,
)
    requires
        ci_find(phrase, exact_name) == Some((0int, blen(exact_name))),
        ci_find(phrase, sub_name) matches Some(r) && r.0 != 0,
        ci_find(phrase, sum_name) is None,
        ci_find(phrase, sum_sum) is Some,
    ensures
        weight_spec(phrase, exact_name, exact_sum) == Some(10int),
        weight_spec(phrase, sub_name, sub_sum) == Some(8int),
        weight_spec(phrase, sum_name, sum_sum) matches Some(w) && 5 <= w <= 7,
        weight_spec(phrase, exact_name, exact_sum).unwrap() > weight_spec(
            phrase,
            sub_name,
            sub_sum,
        ).unwrap(),
        weight_spec(phrase, sub_name, sub_sum).unwrap() > weight_spec(
            phrase,
            sum_name,
            sum_sum,
        ).unwrap(),
{
}

} // verus!
