//! The site record: the unit of monitoring state, owned by the caller and
//! mutated in place by the monitor engine.

use vstd::prelude::*;

use crate::hashing::{generate_id, id_of};

verus! {

/// The ghost image of a site record: text fields as character sequences,
/// timestamps as Unix seconds.
pub struct SiteView {
    pub id: Seq<char>,
    pub url: Seq<char>,
    pub name: Seq<char>,
    pub last_hash: Option<Seq<char>>,
    pub last_checked: Option<int>,
    pub last_change: Option<int>,
    pub enabled: bool,
    pub css_selector: Option<Seq<char>>,
}

impl SiteView {
    /// Record invariant: a recorded change is never later than the most
    /// recent check.
    pub open spec fn wf(self) -> bool {
        self.last_change is Some && self.last_checked is Some ==> self.last_change.unwrap()
            <= self.last_checked.unwrap()
    }
}

/// A monitored site: fetch target, extraction scope, and the state left by
/// the most recent checks. Timestamps are Unix seconds; `last_hash` is set
/// exactly when at least one check has completed.
pub struct WatchedSite {
    /// Stable identifier, derived once from the URL.
    pub id: String,
    /// Fetch target.
    pub url: String,
    /// Display label.
    pub name: String,
    /// Digest of the last normalized content seen; `None` before the first
    /// successful check.
    pub last_hash: Option<String>,
    /// When content was last successfully retrieved and hashed.
    pub last_checked: Option<i64>,
    /// When a change was last detected.
    pub last_change: Option<i64>,
    /// Whether the scheduler should include the record in a tick; advisory,
    /// the caller filters.
    pub enabled: bool,
    /// Optional scoping selector; absence means the whole page body.
    pub css_selector: Option<String>,
}

impl View for WatchedSite {
    type V = SiteView;

    open spec fn view(&self) -> SiteView {
        SiteView {
            id: self.id@,
            url: self.url@,
            name: self.name@,
            last_hash: match self.last_hash {
                Some(h) => Some(h@),
                None => None,
            },
            last_checked: match self.last_checked {
                Some(t) => Some(t as int),
                None => None,
            },
            last_change: match self.last_change {
                Some(t) => Some(t as int),
                None => None,
            },
            enabled: self.enabled,
            css_selector: match self.css_selector {
                Some(c) => Some(c@),
                None => None,
            },
        }
    }
}

impl WatchedSite {
    /// A fresh record for a URL: identifier derived from the URL, never
    /// checked, enabled.
    pub fn new(url: String, name: String, css_selector: Option<String>) -> (r: WatchedSite)
        ensures
            r@.id == id_of(url@),
            r@.url == url@,
            r@.name == name@,
            r@.last_hash is None,
            r@.last_checked is None,
            r@.last_change is None,
            r@.enabled,
            r@.css_selector == (match css_selector {
                Some(c) => Some(c@),
                None => None::<Seq<char>>,
            }),
            r@.wf(),
    {
        let id = generate_id(url.as_str());
        WatchedSite {
            id,
            url,
            name,
            last_hash: None,
            last_checked: None,
            last_change: None,
            enabled: true,
            css_selector,
        }
    }
}

} // verus!
