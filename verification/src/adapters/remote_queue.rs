//! The remote queue API: its address and what a fetch answer holds.
use vstd::prelude::*;

use crate::error::Error;

verus! {

/// The remote queue at `base_url`.
#[derive(Debug)]
pub struct HttpRemoteQueue {
    pub base_url: String,
}

impl HttpRemoteQueue {
    pub fn new(base_url: String) -> (s: Self)
        ensures
            s.base_url == base_url,
    {
        HttpRemoteQueue { base_url }
    }
}

/// The parts of the API's JSON answer that a fetch reads: the `items`
/// array, if there is one, and for each element its `item` string, if any.
#[derive(Debug)]
pub struct QueueAnswer {
    pub items: Option<Vec<Option<String>>>,
}

pub open spec fn present(xs: Seq<Option<String>>) -> Seq<Seq<char>>
    decreases xs.len(),
{
    if xs.len() == 0 {
        seq![]
    } else {
        let rest = present(xs.drop_last());
        match xs.last() {
            Some(s) => rest.push(s@),
            None => rest,
        }
    }
}

/// The queued URLs of an answer: every `item` string, in order.
pub fn queued_items(answer: QueueAnswer) -> (r: Result<Vec<String>, Error>)
    ensures
        match answer.items {
            None => r matches Err(Error::Parse(m)) && m@ == "API response missing 'items' array"@,
            Some(xs) => r matches Ok(urls) && crate::text::views(urls@) == present(xs@),
        },
{
    match answer.items {
        None => Err(Error::Parse("API response missing 'items' array".to_string())),
        Some(xs) => {
            let mut urls: Vec<String> = Vec::new();
            let mut i: usize = 0;
            while i < xs.len()
                invariant
                    i <= xs@.len(),
                    crate::text::views(urls@) == present(xs@.take(i as int)),
                decreases xs.len() - i,
            {
                proof {
                    assert(xs@.take(i + 1).drop_last() == xs@.take(i as int));
                    assert(xs@.take(i + 1).last() == xs@[i as int]);
                }
                match &xs[i] {
                    Some(s) => {
                        urls.push(s.clone());
                    },
                    None => {},
                }
                i += 1;
            }
            assert(xs@.take(xs@.len() as int) == xs@);
            Ok(urls)
        },
    }
}

} // verus!
