//! The label under which the metrics count a client's domains.
use vstd::prelude::*;

use crate::text::{join_spec, join_with, views};

verus! {

/// The domains joined with `;`.
pub fn domains_to_string(domains: &Vec<String>) -> (s: String)
    ensures
        s@ == join_spec(views(domains@), ";"@),
{
    join_with(domains, ";")
}

} // verus!
