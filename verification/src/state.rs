//! The view-state machine the interface drives: browsing the installed
//! list, viewing one package's detail, or showing search results. Search
//! results take precedence over the detail view whenever both are
//! populated.

use vstd::prelude::*;
use crate::aggregate::{
    aggregate_installed, aggregate_spec, lists_names_safe, lists_view, pair_view, pair_views,
};
use crate::appdata::FetchError;
use crate::catalog::{MetaCollection, Store, store_view};
use crate::package::Package;
use crate::search::{res_views, search, search_spec, store_names_safe, SearchResult};

verus! {

/// The context pages the interface can open beside the main view.
#[derive(Clone, Copy, Debug, PartialEq, Eq, Structural)]
pub enum ContextPage {
    Settings,
}

impl ContextPage {
    /// The page's displayed title.
    pub fn title(&self) -> (r: String)
        ensures
            r@ == "Settings"@,
    {
        match self {
            ContextPage::Settings => "Settings".to_owned(),
        }
    }
}

/// Which view is authoritative.
#[derive(Clone, Copy, Debug, PartialEq, Eq, Structural)]
pub enum Shown {
    Installed,
    Detail,
    Results,
}

/// The view state: the aggregated installed list, the current search
/// results if a search stands submitted, and the currently selected
/// package's detail if one is set.
pub struct AppState {
    pub installed: Vec<(String, Package)>,
    pub search_results: Option<Vec<SearchResult>>,
    pub current: Option<(String, Package, MetaCollection)>,
}

/// Search results supersede the detail view, which supersedes browsing the
/// installed list.
pub open spec fn presented_spec(s: AppState) -> Shown {
    if s.search_results is Some {
        Shown::Results
    } else if s.current is Some {
        Shown::Detail
    } else {
        Shown::Installed
    }
}

impl AppState {
    /// The startup state: nothing installed yet, no search, no selection.
    pub fn new() -> (r: AppState)
        ensures
            r.installed@.len() == 0,
            r.search_results is None,
            r.current is None,
    {
        AppState { installed: Vec::new(), search_results: None, current: None }
    }

    /// Which view the interface should present now.
    pub fn presented(&self) -> (r: Shown)
        ensures
            r == presented_spec(*self),
    {
        match &self.search_results {
            Some(_) => Shown::Results,
            None => match &self.current {
                Some(_) => Shown::Detail,
                None => Shown::Installed,
            },
        }
    }

    /// Replace the installed list with the aggregation of every backend's
    /// report. A backend whose enumeration failed contributes an empty
    /// list, already left out by the caller.
    pub fn set_installed(&mut self, lists: &Vec<(String, Vec<Package>)>)
        requires
            lists_names_safe(lists@),
        ensures
            pair_views(final(self).installed@) == aggregate_spec(lists_view(lists@)),
            final(self).search_results == old(self).search_results,
            final(self).current == old(self).current,
    {
        self.installed = aggregate_installed(lists);
    }

    /// Submit a search phrase: a non-empty phrase replaces the results with
    /// a fresh ranked search of the store and supersedes any detail view;
    /// an empty phrase changes nothing.
    pub fn submit_search(&mut self, store: &Store, locale: &str, phrase: &str)
        requires
            phrase@.len() != 0 ==> store_names_safe(store_view(*store), locale@),
        ensures
            phrase@.len() == 0 ==> *final(self) == *old(self),
            phrase@.len() != 0 ==> {
                &&& final(self).search_results matches Some(rs) && res_views(rs@)
                    == search_spec(store_view(*store), locale@, phrase@)
                &&& final(self).current == old(self).current
                &&& final(self).installed == old(self).installed
                &&& presented_spec(*final(self)) == Shown::Results
            },
    {
        if !phrase.is_empty() {
            let results = search(store, locale, phrase);
            self.search_results = Some(results);
        }
    }

    /// Clear the search phrase: the results vanish and the view falls back
    /// to the selection, if any, else the installed list.
    pub fn clear_search(&mut self)
        ensures
            final(self).search_results is None,
            final(self).current == old(self).current,
            final(self).installed == old(self).installed,
    {
        self.search_results = None;
    }

    /// What a detail fetch for installed entry `i` should hand the owning
    /// backend: the backend's name and a copy of the package, or nothing
    /// where the index is out of range.
    pub fn fetch_request(&self, i: usize) -> (r: Option<(String, Package)>)
        ensures
            i < self.installed@.len() ==> (r matches Some(p) && pair_view(p) == pair_view(
                self.installed@[i as int],
            )),
            i >= self.installed@.len() ==> r is None,
    {
        if i < self.installed.len() {
            let entry = &self.installed[i];
            Some((entry.0.clone(), entry.1.duplicate()))
        } else {
            None
        }
    }

    /// Apply the outcome of a detail fetch: a fetched collection becomes
    /// the current detail; a failed fetch leaves the view exactly as it
    /// was, surfaced only as "no detail available".
    pub fn apply_fetch(
        &mut self,
        backend_name: String,
        package: Package,
        fetched: Result<MetaCollection, FetchError>,
    )
        ensures
            final(self).installed == old(self).installed,
            final(self).search_results == old(self).search_results,
            match fetched {
                Ok(c) => final(self).current matches Some(cur) && cur.0 == backend_name
                    && cur.1 == package && cur.2 == c,
                Err(_) => final(self).current == old(self).current,
            },
    {
        match fetched {
            Ok(c) => {
                self.current = Some((backend_name, package, c));
            },
            Err(_) => {},
        }
    }

    /// Clear the selection: back to browsing the installed list, unless a
    /// search still stands.
    pub fn clear_selection(&mut self)
        ensures
            final(self).current is None,
            final(self).search_results == old(self).search_results,
            final(self).installed == old(self).installed,
    {
        self.current = None;
    }
}

/// Whenever search results and a selected detail are both populated, the
/// search results are what is presented.
pub proof fn lemma_results_precedence(s: AppState)
    requires
        s.search_results is Some,
        s.current is Some,
    ensures
        presented_spec(s) == Shown::Results,
{
}

} // verus!
