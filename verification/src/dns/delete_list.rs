//! Endpoints for removing domains from lists
//!
//! Each takes up the removal of a domain from its list. What comes back is
//! the first stage of the change, which the caller carries through: see
//! [`crate::dns::change`].

use vstd::prelude::*;
use crate::dns::change::{start, Change, Reading};
use crate::dns::list::List;
use crate::util::Error;

verus! {

/// Delete a domain from the whitelist
pub fn delete_whitelist(domain: String) -> (r: Result<Reading, Error>)
    ensures
        List::White.spec_accepts(domain@) ==> (r matches Ok(reading) && reading.list()
            == List::White && reading.change() == Change::Remove && reading.domain() == domain@),
        !List::White.spec_accepts(domain@) ==> (r matches Err(e) && e == Error::InvalidDomain),
{
    start(List::White, Change::Remove, domain)
}

/// Delete a domain from the blacklist
pub fn delete_blacklist(domain: String) -> (r: Result<Reading, Error>)
    ensures
        List::Black.spec_accepts(domain@) ==> (r matches Ok(reading) && reading.list()
            == List::Black && reading.change() == Change::Remove && reading.domain() == domain@),
        !List::Black.spec_accepts(domain@) ==> (r matches Err(e) && e == Error::InvalidDomain),
{
    start(List::Black, Change::Remove, domain)
}

/// Delete a domain from the regex list
pub fn delete_regexlist(domain: String) -> (r: Result<Reading, Error>)
    ensures
        List::Regex.spec_accepts(domain@) ==> (r matches Ok(reading) && reading.list()
            == List::Regex && reading.change() == Change::Remove && reading.domain() == domain@),
        !List::Regex.spec_accepts(domain@) ==> (r matches Err(e) && e == Error::InvalidDomain),
{
    start(List::Regex, Change::Remove, domain)
}

} // verus!
