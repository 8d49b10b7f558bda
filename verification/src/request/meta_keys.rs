//! Names of the metadata entries that the library itself reads and writes.

use vstd::prelude::*;

verus! {

pub const ALLOW_NON_HTML: &'static str = "allow_non_html";
pub const PROXY: &'static str = "proxy";
pub const RETRY_TIMES: &'static str = "retry_times";
pub const RETRY_DELAY_SECS: &'static str = "retry_delay_secs";
pub const REQUEST_DELAY_SECS: &'static str = "request_delay_secs";
pub const REQUEST_DELAY_SCHEDULED: &'static str = "request_delay_scheduled";
pub const REDIRECT_TIMES: &'static str = "redirect_times";

} // verus!
