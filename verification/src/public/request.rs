use crate::text::{decimal, digit};
use vstd::prelude::*;

verus! {

/// A search: the query text with the page asked for.
pub struct FacebookPublicRequest {
    pub query: String,
}

/// The character that writes `d`.
fn digit_char(d: u8) -> (c: char)
    requires
        d < 10,
    ensures
        c == digit(d as nat),
{
    if d == 0 {
        '0'
    } else if d == 1 {
        '1'
    } else if d == 2 {
        '2'
    } else if d == 3 {
        '3'
    } else if d == 4 {
        '4'
    } else if d == 5 {
        '5'
    } else if d == 6 {
        '6'
    } else if d == 7 {
        '7'
    } else if d == 8 {
        '8'
    } else {
        '9'
    }
}

impl FacebookPublicRequest {
    /// The request for page `page` of the results for `query`: the query,
    /// then `?page=` and the page number in decimal.
    pub fn new(query: &str, page: u8) -> (request: Self)
        ensures
            request.query@ == query@ + "?page="@ + decimal(page as nat),
    {
        let mut text = query.to_owned();
        text.append("?page=");
        let ghost head = text@;
        if page >= 100 {
            text.push(digit_char(page / 100));
        }
        if page >= 10 {
            text.push(digit_char((page / 10) % 10));
        }
        text.push(digit_char(page % 10));
        proof {
            reveal_with_fuel(decimal, 3);
            assert(text@ =~= head + decimal(page as nat));
        }
        FacebookPublicRequest { query: text }
    }
}

} // verus!
