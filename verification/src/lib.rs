//! Typed client generation for HTTP routes.
//!
//! Routes are described by their method, path, classified parameters and
//! response type. From these the crate derives one TypeScript module per
//! route, an index module re-exporting every route, and the dispatch table
//! the server side is built from.

pub mod api;
pub mod dependencies;
pub mod dispatch;
pub mod extractor;
pub mod handler;
pub mod method;
pub mod path;
pub mod request;
pub mod signature;
pub mod text;
pub mod types;

pub use api::{Api, ExportDirectory, ExportFile, GeneratedModule};
pub use dispatch::{Dispatch, PathRoutes};
pub use dependencies::Dependencies;
pub use extractor::{ApiExtractor, ApiExtractorType, Extractor, TsType, Wrapper};
pub use handler::{ApiHandler, RouteDescriptor};
pub use method::ApiMethod;
pub use request::ApiRequest;
pub use types::{TypeDescriptor, TypeRef, TypeRegistry};
