//! Static analysis of web-service source code: recovers routes, their
//! parameters and bodies, and the schemas of the types they use.
pub mod syntax;
pub mod strings;
pub mod paths;
pub mod parser;
pub mod extractor;
pub mod cli;
pub mod error;
pub mod detector;
pub mod type_resolver;
pub mod named_map;
pub mod schema_generator;
pub mod openapi_builder;
pub mod scanner;
