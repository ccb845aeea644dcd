//! The records found for a domain.

use vstd::prelude::*;
use vstd::string::*;

verus! {

/// The records that were found for a domain.
#[derive(Debug)]
pub struct Scraper<'a> {
    domain: &'a str,
    records: Vec<String>,
}

impl<'a> Scraper<'a> {
    /// The domain that the records are looked up for.
    pub closed spec fn spec_domain(&self) -> Seq<char> {
        self.domain@
    }

    /// The records found so far.
    pub closed spec fn spec_records(&self) -> Seq<String> {
        self.records@
    }

    /// A scraper for a domain, with no record yet.
    pub fn new(domain: &'a str) -> (scraper: Self)
        ensures
            scraper.spec_domain() == domain@,
            scraper.spec_records().len() == 0,
    {
        Self { domain, records: Vec::new() }
    }

    /// The domain that the records are looked up for.
    pub fn domain(&self) -> (domain: &'a str)
        ensures
            domain@ == self.spec_domain(),
    {
        self.domain
    }

    /// The records found so far.
    pub fn records(&self) -> (records: &Vec<String>)
        ensures
            records@ == self.spec_records(),
    {
        &self.records
    }

    /// Replaces the records found so far.
    pub fn set_records(&mut self, records: Vec<String>)
        ensures
            final(self).spec_records() == records@,
            final(self).spec_domain() == old(self).spec_domain(),
    {
        self.records = records;
    }
}

} // verus!
