//! Routes of the chained-builder style: `.route(path, get(handler))`, the
//! shorthand `.get(path, handler)` and `.get(handler)`, and `.nest(prefix, router)`.
use vstd::prelude::*;
use crate::extractor::{RouteExtractor, RouteInfo, RouteView};
use crate::extractor::walker::{Style, extract_with, extracted_routes};
use crate::parser::ParsedFile;

verus! {

pub struct AxumExtractor;

impl RouteExtractor for AxumExtractor {
    open spec fn routes_of(&self, files: Seq<ParsedFile>) -> Seq<RouteView> {
        extracted_routes(Style::Builder, files)
    }

    fn extract_routes(&self, parsed_files: &[ParsedFile]) -> (r: Vec<RouteInfo>) {
        extract_with(Style::Builder, parsed_files)
    }
}

} // verus!
