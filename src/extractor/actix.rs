//! Routes of the attribute style: functions annotated with `#[get(path)]`,
//! `#[post(path)]`, ..., under the prefixes of enclosing `.scope(prefix)` calls.
use vstd::prelude::*;
use crate::extractor::{RouteExtractor, RouteInfo, RouteView};
use crate::extractor::walker::{Style, extract_with, extracted_routes};
use crate::parser::ParsedFile;

verus! {

pub struct ActixExtractor;

impl RouteExtractor for ActixExtractor {
    open spec fn routes_of(&self, files: Seq<ParsedFile>) -> Seq<RouteView> {
        extracted_routes(Style::Attribute, files)
    }

    fn extract_routes(&self, parsed_files: &[ParsedFile]) -> (r: Vec<RouteInfo>) {
        extract_with(Style::Attribute, parsed_files)
    }
}

} // verus!
