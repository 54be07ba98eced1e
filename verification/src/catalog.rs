//! The metadata catalog: locale-aware translatable strings, components, and
//! the read-only collection store that the search engine scans. The store is
//! built once at startup and never mutated afterwards; nothing here writes to
//! it.

use vstd::prelude::*;

verus! {

/// A locale-aware translatable string: `(locale tag, text)` entries, with
/// the locale-independent default stored under the tag `"C"`.
pub struct Translatable {
    pub entries: Vec<(String, String)>,
}

/// The view of a translatable: its entries as character sequences.
pub type TrView = Seq<(Seq<char>, Seq<char>)>;

pub open spec fn entries_view(v: Seq<(String, String)>) -> TrView {
    v.map_values(|p: (String, String)| (p.0@, p.1@))
}

pub open spec fn tr_view(t: Translatable) -> TrView {
    entries_view(t.entries@)
}

/// The text of the first entry whose tag equals `key`, if any.
pub open spec fn lookup_spec(entries: TrView, key: Seq<char>) -> Option<Seq<char>>
    decreases entries.len(),
{
    if entries.len() == 0 {
        None
    } else if entries[0].0 == key {
        Some(entries[0].1)
    } else {
        lookup_spec(entries.drop_first(), key)
    }
}

/// What a translatable resolves to for a locale: the locale's own text,
/// else the default stored under `"C"`, else the empty string. Resolution
/// never fails.
pub open spec fn resolve_spec(t: TrView, locale: Seq<char>) -> Seq<char> {
    match lookup_spec(t, locale) {
        Some(s) => s,
        None => match lookup_spec(t, "C"@) {
            Some(s) => s,
            None => Seq::empty(),
        },
    }
}

proof fn lemma_lookup_found(entries: TrView, key: Seq<char>, i: int)
    requires
        0 <= i < entries.len(),
        forall|j: int| 0 <= j < i ==> entries[j].0 != key,
        entries[i].0 == key,
    ensures
        lookup_spec(entries, key) == Some(entries[i].1),
    decreases i,
{
    if i > 0 {
        lemma_lookup_found(entries.drop_first(), key, i - 1);
    }
}

proof fn lemma_lookup_none(entries: TrView, key: Seq<char>)
    requires
        forall|j: int| 0 <= j < entries.len() ==> entries[j].0 != key,
    ensures
        lookup_spec(entries, key) is None,
    decreases entries.len(),
{
    if entries.len() > 0 {
        lemma_lookup_none(entries.drop_first(), key);
    }
}

/// The text stored for `key`, cloned out of the entry list.
pub fn lookup_entries(entries: &Vec<(String, String)>, key: &String) -> (r: Option<String>)
    ensures
        match r {
            Some(s) => lookup_spec(entries_view(entries@), key@) == Some(s@),
            None => lookup_spec(entries_view(entries@), key@) is None,
        },
{
    let n = entries.len();
    let mut i: usize = 0;
    while i < n
        invariant
            n == entries.len(),
            0 <= i <= n,
            forall|j: int| 0 <= j < i ==> entries_view(entries@)[j].0 != key@,
        decreases n - i,
    {
        if entries[i].0 == *key {
            let out = entries[i].1.clone();
            proof {
                lemma_lookup_found(entries_view(entries@), key@, i as int);
            }
            return Some(out);
        }
        i += 1;
    }
    proof {
        lemma_lookup_none(entries_view(entries@), key@);
    }
    None
}

/// Resolve a translatable for a locale: the locale's text, else the `"C"`
/// default, else the empty string.
pub fn resolve(t: &Translatable, locale: &str) -> (r: String)
    ensures
        r@ == resolve_spec(tr_view(*t), locale@),
{
    let key: String = locale.to_owned();
    match lookup_entries(&t.entries, &key) {
        Some(s) => s,
        None => {
            let def: String = "C".to_owned();
            match lookup_entries(&t.entries, &def) {
                Some(s) => s,
                None => String::new(),
            }
        },
    }
}

/// One entry of a metadata collection, describing one distributable item.
/// Richer fields than the name and summary play no part in ranking.
pub struct Component {
    pub name: Translatable,
    pub summary: Option<Translatable>,
}

pub ghost struct CompView {
    pub name: TrView,
    pub summary: Option<TrView>,
}

pub open spec fn comp_view(c: Component) -> CompView {
    CompView {
        name: tr_view(c.name),
        summary: match c.summary {
            Some(t) => Some(tr_view(t)),
            None => None,
        },
    }
}

/// A parsed collection of components, as one backend or catalog source
/// publishes it.
pub struct MetaCollection {
    pub origin: Option<String>,
    pub components: Vec<Component>,
}

pub ghost struct CollView {
    pub origin: Option<Seq<char>>,
    pub components: Seq<CompView>,
}

pub open spec fn coll_view(c: MetaCollection) -> CollView {
    CollView {
        origin: match c.origin {
            Some(o) => Some(o@),
            None => None,
        },
        components: c.components@.map_values(|x: Component| comp_view(x)),
    }
}

/// The immutable catalog the search engine scans: collections keyed by an
/// opaque identifier such as the originating source name.
pub struct Store {
    pub entries: Vec<(String, MetaCollection)>,
}

pub open spec fn store_view(s: Store) -> Seq<(Seq<char>, CollView)> {
    s.entries@.map_values(|e: (String, MetaCollection)| (e.0@, coll_view(e.1)))
}

/// A summary resolves like a name, with one more fallback: a component
/// without any summary yields the empty string.
pub open spec fn summary_spec(c: CompView, locale: Seq<char>) -> Seq<char> {
    match c.summary {
        Some(t) => resolve_spec(t, locale),
        None => Seq::empty(),
    }
}

/// Resolve a component's summary; absent summaries degrade to `""`.
pub fn resolve_summary(c: &Component, locale: &str) -> (r: String)
    ensures
        r@ == summary_spec(comp_view(*c), locale@),
{
    match &c.summary {
        Some(t) => resolve(t, locale),
        None => String::new(),
    }
}

} // verus!
