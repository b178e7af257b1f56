//! Grouping of pages under one domain.

use crate::page::Page;
use vstd::prelude::*;

verus! {

/// A named bucket of pages sharing a domain.
pub struct Site {
    pub domain: String,
    pub pages: Vec<Page>,
}

impl Site {
    /// A new site starts with no pages.
    pub fn new(domain: String) -> (s: Site)
        ensures
            s.domain == domain,
            s.pages@.len() == 0,
    {
        Site { domain, pages: Vec::new() }
    }
}

} // verus!
