use std::cmp::Ordering;
use facebook_recuperator::profile::models::Profile;
use facebook_recuperator::profile::{FacebookProfileRequest, FacebookProfileResponse};
use facebook_recuperator::public::models::{Details, People};
use facebook_recuperator::public::{FacebookPublicRequest, FacebookPublicResponse};

#[test]
fn public_request_appends_the_page() {
    assert_eq!(FacebookPublicRequest::new("Mock request", 1).query, "Mock request?page=1");
}

#[test]
fn public_request_writes_every_page_in_decimal() {
    assert_eq!(FacebookPublicRequest::new("q", 0).query, "q?page=0");
    assert_eq!(FacebookPublicRequest::new("q", 9).query, "q?page=9");
    assert_eq!(FacebookPublicRequest::new("q", 10).query, "q?page=10");
    assert_eq!(FacebookPublicRequest::new("q", 99).query, "q?page=99");
    assert_eq!(FacebookPublicRequest::new("q", 100).query, "q?page=100");
    assert_eq!(FacebookPublicRequest::new("q", 109).query, "q?page=109");
    assert_eq!(FacebookPublicRequest::new("q", 255).query, "q?page=255");
    for page in 0u8..=255 {
        assert_eq!(FacebookPublicRequest::new("john doe", page).query, format!("{}?page={}", "john doe", page));
    }
}

#[test]
fn public_request_keeps_the_query_as_it_is() {
    assert_eq!(FacebookPublicRequest::new("", 3).query, "?page=3");
    assert_eq!(FacebookPublicRequest::new("a?b=c d\u{e9}", 12).query, "a?b=c d\u{e9}?page=12");
}

#[test]
fn profile_request_holds_the_subject() {
    assert_eq!(FacebookProfileRequest::new("mock.user").profile, "mock.user");
    assert_eq!(FacebookProfileRequest::new("").profile, "");
}

#[test]
fn details_hold_label_and_url() {
    let details = Details::new("From Native City", "https://example.com/native-city");
    assert_eq!(details.label, "From Native City");
    assert_eq!(details.url, "https://example.com/native-city");
}

#[test]
fn details_are_equal_when_label_and_url_are() {
    let details = Details::new("a", "b");
    assert!(details == Details::new("a", "b"));
    assert!(details != Details::new("a", "c"));
    assert!(details != Details::new("c", "b"));
    assert!(details != Details::new("b", "a"));
    assert_eq!(details.clone(), details);
}

#[test]
fn details_are_ordered_by_label_and_then_by_url() {
    assert!(Details::new("a", "z") < Details::new("b", "a"));
    assert!(Details::new("a", "a") < Details::new("a", "b"));
    assert!(Details::new("b", "a") > Details::new("a", "z"));
    assert!(Details::new("a", "b") <= Details::new("a", "b"));
    assert!(Details::new("", "") < Details::new("", "a"));
    let mut list = vec![Details::new("b", "1"), Details::new("a", "2"), Details::new("a", "1")];
    list.sort();
    assert_eq!(list, vec![Details::new("a", "1"), Details::new("a", "2"), Details::new("b", "1")]);
}

#[test]
fn details_are_ordered_as_their_bytes_are() {
    assert!(Details::new("z", "") < Details::new("\u{e9}", ""));
    assert!(Details::new("a", "") < Details::new("ab", ""));
    assert!(Details::new("B", "") < Details::new("a", ""));
    assert_eq!(Details::new("a", "b").partial_cmp(&Details::new("a", "b")), Some(Ordering::Equal));
    assert_eq!(Details::new("a", "b").partial_cmp(&Details::new("a", "c")), Some(Ordering::Less));
    assert_eq!(Details::new("b", "b").partial_cmp(&Details::new("a", "c")), Some(Ordering::Greater));
    let samples = ["", "a", "ab", "b", "B", "\u{e9}", "z\u{4e16}", "\u{1F600}", "\u{ffff}", "abc", "ab\u{0}"];
    for label in samples {
        for url in samples {
            for other_label in samples {
                for other_url in samples {
                    let left = Details::new(label, url);
                    let right = Details::new(other_label, other_url);
                    assert_eq!(left.partial_cmp(&right), Some(left.cmp(&right)));
                    assert_eq!(left.partial_cmp(&right), (label, url).partial_cmp(&(other_label, other_url)));
                    assert_eq!(left == right, left.cmp(&right) == Ordering::Equal);
                }
            }
        }
    }
}

#[test]
fn people_hold_what_they_are_given() {
    let activity = Details::new("Works", "https://example.com/works");
    let information = vec![Details::new("From", "https://example.com/from"), Details::new("Studied", "")];
    let people = People::new("Mock User", "https://example.com/u", "https://example.com/p", Some(activity.clone()), information.clone());
    assert_eq!(people.name, "Mock User");
    assert_eq!(people.profile_url, "https://example.com/u");
    assert_eq!(people.profile_picture, "https://example.com/p");
    assert_eq!(people.current_activity, Some(activity));
    assert_eq!(people.additional_information, information);
}

#[test]
fn people_may_be_empty() {
    let people = People::new("", "", "", None, Vec::new());
    assert_eq!(people.name, "");
    assert_eq!(people.profile_url, "");
    assert_eq!(people.profile_picture, "");
    assert!(people.current_activity.is_none());
    assert!(people.additional_information.is_empty());
    assert_eq!(people, People::new("", "", "", None, vec![]));
}

#[test]
fn public_response_keeps_the_order_of_its_results() {
    let first = People::new("1", "", "", None, vec![]);
    let second = People::new("2", "", "", None, vec![]);
    let response = FacebookPublicResponse::new(vec![first.clone(), second.clone()]);
    assert_eq!(response.results, vec![first, second]);
    assert!(FacebookPublicResponse::new(vec![]).results.is_empty());
}

#[test]
fn profile_response_holds_the_profile() {
    let response = FacebookProfileResponse::new(Profile { name: String::from("Mock User") });
    assert_eq!(response.profile.name, "Mock User");
}
