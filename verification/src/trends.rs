//! Trending headlines: the keyword source the relevance index is queried
//! with, and the request building for the trends service.

use vstd::prelude::*;
use vstd::string::StringExecFns;

use crate::encoding::{form_enc_of, form_urlencode};
use crate::error::Error;

verus! {

/// A geographic region code for trend lookups; never empty.
#[derive(Clone, Debug, PartialEq, Eq)]
pub struct Geo(pub String);

impl Geo {
    /// Accepts any non-empty region code and rejects an empty one.
    pub fn new(raw: String) -> (r: Result<Geo, Error>)
        ensures
            raw@.len() == 0 ==> (r is Err && r.unwrap_err() is InvalidArgument),
            raw@.len() > 0 ==> (r matches Ok(g) && g.0@ == raw@),
    {
        if raw.as_str().is_empty() {
            return Err(Error::InvalidArgument(String::from_str("geo must not be empty")));
        }
        Ok(Geo(raw))
    }
}

impl Default for Geo {
    /// The default region.
    fn default() -> (r: Geo)
        ensures
            r.0@ == "US"@,
    {
        Geo(String::from_str("US"))
    }
}

/// Finds trending headlines; the fetch itself lives with the caller, which
/// hands the decoded searches to [`Trend::from`].
#[derive(Clone, Copy, Debug, Default)]
pub struct TrendFinder;

impl TrendFinder {
    /// A new finder.
    pub fn new() -> (r: TrendFinder) {
        TrendFinder {  }
    }
}

/// The title record of one trending search, as the trends service reports
/// it.
#[derive(Clone, Debug, PartialEq, Eq)]
pub struct TrendingSearchTitle {
    /// Trend name.
    pub query: String,
    /// Relative URL to learn more about the trend.
    pub explore_link: String,
}

/// One trending search, as the trends service reports it.
#[derive(Clone, Debug, PartialEq, Eq)]
pub struct TrendingSearch {
    pub title: TrendingSearchTitle,
}

/// A trending topic: its name and an absolute link to explore it.
#[derive(Clone, Debug, PartialEq, Eq)]
pub struct Trend {
    name: String,
    explore_link: String,
}

impl Trend {
    /// The trend's name.
    pub fn name(&self) -> (r: String)
        ensures
            r@ == self.spec_name(),
    {
        self.name.clone()
    }

    /// Returns absolute URL to learn more about the trend.
    pub fn explore_link(&self) -> (r: String)
        ensures
            r@ == self.spec_explore_link(),
    {
        self.explore_link.clone()
    }

    /// A field-for-field copy.
    pub fn duplicate(&self) -> (r: Trend)
        ensures
            r.spec_name() == self.spec_name(),
            r.spec_explore_link() == self.spec_explore_link(),
    {
        Trend { name: self.name.clone(), explore_link: self.explore_link.clone() }
    }

    /// The name, in specifications.
    pub closed spec fn spec_name(&self) -> Seq<char> {
        self.name@
    }

    /// The absolute link, in specifications.
    pub closed spec fn spec_explore_link(&self) -> Seq<char> {
        self.explore_link@
    }

    /// A trend from a raw trending search: the name is the query, and the
    /// relative explore link becomes absolute on the trends host.
    pub fn from(search: TrendingSearch) -> (r: Trend)
        ensures
            r.spec_name() == search.title.query@,
            r.spec_explore_link() == "https://trends.google.com"@ + search.title.explore_link@,
    {
        let mut link = String::from_str("https://trends.google.com");
        link.append(search.title.explore_link.as_str());
        Trend { name: search.title.query, explore_link: link }
    }
}

/// The parameters of one daily trends request.
#[derive(Clone, Debug)]
pub struct DailyTrendsRequest {
    pub geo: Geo,
    /// The end date an earlier response asked to continue from.
    pub trend_date: Option<String>,
}

/// The URL of a daily trends request: the fixed endpoint, the region, and
/// the continuation date when one is set.
pub open spec fn spec_daily_trends_url(req: DailyTrendsRequest) -> Seq<char> {
    "https://trends.google.com/trends/api/dailytrends?"@ + "geo="@ + form_enc_of(req.geo.0@) + (
    match req.trend_date {
        Some(d) => "&ed="@ + form_enc_of(d@),
        None => Seq::empty(),
    })
}

/// Builds the URL of a daily trends request.
pub fn build_daily_trends_url(req: &DailyTrendsRequest) -> (r: String)
    ensures
        r@ == spec_daily_trends_url(*req),
{
    let mut url = String::from_str("https://trends.google.com/trends/api/dailytrends?");
    url.append("geo=");
    url.append(form_urlencode(req.geo.0.as_str()).as_str());
    match &req.trend_date {
        Some(d) => {
            url.append("&ed=");
            url.append(form_urlencode(d.as_str()).as_str());
        },
        None => {},
    }
    proof {
        assert(url@ =~= spec_daily_trends_url(*req));
    }
    url
}

/// A region wrapper as a front end receives it; may be empty until checked.
#[derive(Clone, Debug, Default)]
pub struct TrendsGeo(pub String);

impl TrendsGeo {
    /// Validates the raw region into a [`Geo`].
    pub fn into_geo(self) -> (r: Result<Geo, Error>)
        ensures
            self.0@.len() == 0 ==> (r is Err && r.unwrap_err() is InvalidArgument),
            self.0@.len() > 0 ==> (r matches Ok(g) && g.0@ == self.0@),
    {
        Geo::new(self.0)
    }
}

/// A trends query as a front end receives it.
#[derive(Clone, Debug, Default)]
pub struct TrendsRequest {
    pub geo: TrendsGeo,
}

} // verus!
