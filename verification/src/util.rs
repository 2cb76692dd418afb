//! Discussion-thread lookups: the record a search for discussions of a URL
//! yields, and the link it resolves to.

use vstd::prelude::*;
use vstd::string::StringExecFns;

verus! {

/// One hit from a discussion search.
#[derive(Clone, Debug)]
pub struct HnHit {
    pub id: String,
    pub points: i64,
    pub created_at: String,
}

impl HnHit {
    /// The URL of the discussion thread for this hit.
    pub fn discussion_url(&self) -> (r: String)
        ensures
            r@ == "https://news.ycombinator.com/item?id="@ + self.id@,
    {
        let mut s = String::from_str("https://news.ycombinator.com/item?id=");
        s.append(self.id.as_str());
        s
    }
}

} // verus!
