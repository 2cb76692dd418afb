//! Tests for the trends domain: region validation, trend construction and
//! request URLs.

use memory_jogger::trends::{
    build_daily_trends_url, DailyTrendsRequest, Geo, Trend, TrendingSearch, TrendingSearchTitle,
    TrendsGeo,
};

#[test]
fn test_geo_new_when_called_with_empty_string_returns_error() {
    let empty_geo = Geo::new("".into());
    assert!(empty_geo.is_err());
}

#[test]
fn test_trend_from_trending_search() {
    let trending_search = TrendingSearch {
        title: TrendingSearchTitle {
            query: "FakeName".into(),
            explore_link: "/fake_link".into(),
        },
    };
    let actual_trend = Trend::from(trending_search);
    assert_eq!(actual_trend.name(), "FakeName");
    assert_eq!(actual_trend.explore_link(), "https://trends.google.com/fake_link");
}

#[test]
fn test_build_daily_trends_url_when_called_with_just_geo_returns_correct_url() {
    let geo = Geo::new("US".into()).unwrap();
    let req = DailyTrendsRequest {
        geo,
        trend_date: None,
    };

    let actual_url = build_daily_trends_url(&req);

    let expected_url = "https://trends.google.com/trends/api/dailytrends?geo=US";
    let expected_url = url::Url::parse(expected_url).unwrap();
    assert_eq!(url::Url::parse(&actual_url).unwrap(), expected_url);
}

#[test]
fn test_build_daily_trends_url_when_called_with_end_data_returns_correct_url() {
    let geo = Geo::new("US".into()).unwrap();
    let req = DailyTrendsRequest {
        geo,
        trend_date: Some("20200313".into()),
    };

    let actual_url = build_daily_trends_url(&req);

    let expected_url = "https://trends.google.com/trends/api/dailytrends?geo=US&ed=20200313";
    let expected_url = url::Url::parse(expected_url).unwrap();
    assert_eq!(url::Url::parse(&actual_url).unwrap(), expected_url);
}

#[test]
fn test_trends_geo_validates_into_geo() {
    let ok = TrendsGeo("DE".to_string()).into_geo().unwrap();
    assert_eq!(ok.0, "DE");
    assert!(TrendsGeo(String::new()).into_geo().is_err());
}
