//! Silkworm: the verified core of a small web-scraping framework.
#![allow(unused_imports)]

use vstd::prelude::*;

pub mod api;
pub mod clock;
pub mod errors;
pub mod headers;
pub mod html;
pub mod http;
pub mod json;
pub mod logging;
pub mod middlewares;
pub mod order;
pub mod pipelines;
pub mod request;
pub mod response;
pub mod scheduler;
pub mod strmap;
pub mod text;
pub mod urls;
pub mod xpath;

verus! {

} // verus!
