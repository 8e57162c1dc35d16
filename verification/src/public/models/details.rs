use crate::text::{order_texts, text_order, text_order_equal_is_same, Order};
use std::cmp::Ordering;
use vstd::prelude::*;

verus! {

/// A labelled link. Details are equal when label and target are, and are
/// ordered by label, then by target.
#[derive(Eq, Ord, Debug, Clone)]
pub struct Details {
    pub label: String,
    pub url: String,
}

/// What a `Details` stands for: its label and its target.
pub struct DetailsView {
    pub label: Seq<char>,
    pub url: Seq<char>,
}

impl View for Details {
    type V = DetailsView;

    open spec fn view(&self) -> DetailsView {
        DetailsView { label: self.label@, url: self.url@ }
    }
}

/// What each of `details` stands for, in order.
pub open spec fn views(details: Seq<Details>) -> Seq<DetailsView> {
    details.map_values(|d: Details| d@)
}

impl Details {
    pub fn new(label: &str, url: &str) -> (details: Self)
        ensures
            details@ == (DetailsView { label: label@, url: url@ }),
    {
        Details { label: label.to_owned(), url: url.to_owned() }
    }
}

/// How `a` stands to `b`: as their labels do, and where these are the same
/// as their targets do.
pub open spec fn details_order(a: DetailsView, b: DetailsView) -> Order {
    match text_order(a.label, b.label) {
        Order::Equal => text_order(a.url, b.url),
        decided => decided,
    }
}

/// Two details stand equal exactly when label and target are the same.
pub proof fn details_order_equal_is_same(a: DetailsView, b: DetailsView)
    ensures
        details_order(a, b) == Order::Equal <==> a == b,
{
    text_order_equal_is_same(a.label, b.label);
    text_order_equal_is_same(a.url, b.url);
}

impl PartialEq for Details {
    /// Two details are equal when their labels and their targets are.
    fn eq(&self, other: &Self) -> (equal: bool) {
        self.label == other.label && self.url == other.url
    }
}

impl vstd::std_specs::cmp::PartialEqSpecImpl for Details {
    open spec fn obeys_eq_spec() -> bool {
        true
    }

    open spec fn eq_spec(&self, other: &Self) -> bool {
        self.label@ == other.label@ && self.url@ == other.url@
    }
}

impl PartialOrd for Details {
    /// Details are ordered by label, then by target.
    fn partial_cmp(&self, other: &Self) -> (order: Option<Ordering>) {
        let by_label = order_texts(self.label.as_str(), other.label.as_str());
        let decided = match by_label {
            Order::Equal => order_texts(self.url.as_str(), other.url.as_str()),
            _ => by_label,
        };
        match decided {
            Order::Less => Some(Ordering::Less),
            Order::Equal => Some(Ordering::Equal),
            Order::Greater => Some(Ordering::Greater),
        }
    }
}

impl vstd::std_specs::cmp::PartialOrdSpecImpl for Details {
    open spec fn obeys_partial_cmp_spec() -> bool {
        true
    }

    open spec fn partial_cmp_spec(&self, other: &Self) -> Option<Ordering> {
        match details_order(self@, other@) {
            Order::Less => Some(Ordering::Less),
            Order::Equal => Some(Ordering::Equal),
            Order::Greater => Some(Ordering::Greater),
        }
    }
}

} // verus!
