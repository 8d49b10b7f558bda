//! Options of the one-shot fetch helpers.

use vstd::prelude::*;
use core::time::Duration;
use crate::errors::{SilkwormError, SilkwormResult};
use crate::http::HttpSettings;
use crate::strmap::{insert_all, StrMap};
use crate::clock::{duration_from_secs, same_duration, seconds};

verus! {

/// How the one-shot fetch helpers fetch.
pub struct UtilityFetchOptions {
    pub concurrency: usize,
    pub default_headers: StrMap<String>,
    pub timeout: Option<Duration>,
    pub html_max_size_bytes: usize,
    pub follow_redirects: bool,
    pub max_redirects: usize,
    pub keep_alive: bool,
}

/// The options are the defaults: 8 at a time, no extra header, a 15 second
/// timeout, 2,000,000 bytes of HTML, up to 10 redirects followed, no keep-alive.
pub open spec fn is_default(o: UtilityFetchOptions) -> bool {
    &&& o.concurrency == 8
    &&& o.default_headers@ == Map::<Seq<char>, String>::empty()
    &&& o.timeout == Some(duration_from_secs(15))
    &&& o.html_max_size_bytes == 2_000_000
    &&& o.follow_redirects
    &&& o.max_redirects == 10
    &&& !o.keep_alive
}

impl Default for UtilityFetchOptions {
    fn default() -> (o: Self)
        ensures
            is_default(o),
    {
        UtilityFetchOptions {
            concurrency: 8,
            default_headers: StrMap::new(),
            timeout: Some(seconds(15)),
            html_max_size_bytes: 2_000_000,
            follow_redirects: true,
            max_redirects: 10,
            keep_alive: false,
        }
    }
}

impl UtilityFetchOptions {
    /// The default options.
    pub fn new() -> (o: Self)
        ensures
            is_default(o),
    {
        UtilityFetchOptions {
            concurrency: 8,
            default_headers: StrMap::new(),
            timeout: Some(seconds(15)),
            html_max_size_bytes: 2_000_000,
            follow_redirects: true,
            max_redirects: 10,
            keep_alive: false,
        }
    }

    /// Sets how many fetches run at a time.
    pub fn with_concurrency(self, concurrency: usize) -> (o: Self)
        ensures
            o == (UtilityFetchOptions { concurrency, ..self }),
    {
        UtilityFetchOptions { concurrency, ..self }
    }

    /// Adds (or replaces) a header sent with every fetch.
    pub fn with_header(self, key: &str, value: &str) -> (o: Self)
        ensures
            o == (UtilityFetchOptions { default_headers: o.default_headers, ..self }),
            o.default_headers.texts() == self.default_headers.texts().insert(key@, value@),
    {
        let mut o = self;
        o.default_headers.insert_str(key, value);
        o
    }

    /// Adds (or replaces) each header, in order.
    pub fn with_headers(self, headers: &[(&str, &str)]) -> (o: Self)
        ensures
            o == (UtilityFetchOptions { default_headers: o.default_headers, ..self }),
            o.default_headers.texts() == insert_all(
                self.default_headers.texts(),
                headers@.map_values(|p: (&str, &str)| (p.0@, p.1@)),
            ),
    {
        let mut o = self;
        o.default_headers.insert_pairs(headers);
        o
    }

    /// Sets the timeout of each fetch.
    pub fn with_timeout(self, timeout: Duration) -> (o: Self)
        ensures
            o == (UtilityFetchOptions { timeout: Some(timeout), ..self }),
    {
        UtilityFetchOptions { timeout: Some(timeout), ..self }
    }

    /// Fetches without a timeout.
    pub fn without_timeout(self) -> (o: Self)
        ensures
            o == (UtilityFetchOptions { timeout: None, ..self }),
    {
        UtilityFetchOptions { timeout: None, ..self }
    }

    /// Sets how many bytes of a page are read as HTML.
    pub fn with_html_max_size_bytes(self, html_max_size_bytes: usize) -> (o: Self)
        ensures
            o == (UtilityFetchOptions { html_max_size_bytes, ..self }),
    {
        UtilityFetchOptions { html_max_size_bytes, ..self }
    }

    /// Sets whether redirects are followed.
    pub fn with_follow_redirects(self, follow_redirects: bool) -> (o: Self)
        ensures
            o == (UtilityFetchOptions { follow_redirects, ..self }),
    {
        UtilityFetchOptions { follow_redirects, ..self }
    }

    /// Sets how many redirects are followed at most.
    pub fn with_max_redirects(self, max_redirects: usize) -> (o: Self)
        ensures
            o == (UtilityFetchOptions { max_redirects, ..self }),
    {
        UtilityFetchOptions { max_redirects, ..self }
    }

    /// Sets whether connections are kept alive.
    pub fn with_keep_alive(self, keep_alive: bool) -> (o: Self)
        ensures
            o == (UtilityFetchOptions { keep_alive, ..self }),
    {
        UtilityFetchOptions { keep_alive, ..self }
    }

    /// The settings of the HTTP client these options describe; a concurrency
    /// of zero is a configuration error.
    pub fn http_settings(&self) -> (r: SilkwormResult<HttpSettings>)
        ensures
            self.concurrency == 0 <==> r is Err,
            r matches Err(e) ==> e matches SilkwormError::Config(m) && m@ == "concurrency must be greater than zero"@,
            r matches Ok(s) ==> {
                &&& s.concurrency == self.concurrency
                &&& s.default_headers.texts() == self.default_headers.texts()
                &&& s.timeout == self.timeout
                &&& s.html_max_size_bytes == self.html_max_size_bytes
                &&& s.follow_redirects == self.follow_redirects
                &&& s.max_redirects == self.max_redirects
                &&& s.keep_alive == self.keep_alive
            },
    {
        HttpSettings::new(
            self.concurrency,
            self.default_headers.copy(),
            self.timeout,
            self.html_max_size_bytes,
            self.follow_redirects,
            self.max_redirects,
            self.keep_alive,
        )
    }
}

/// Whether `options` are the defaults (so that a shared client serves them).
pub fn is_default_utility_options(options: &UtilityFetchOptions) -> (b: bool)
    ensures
        b == is_default(*options),
{
    let fifteen = seconds(15);
    let timeout_default = match &options.timeout {
        Some(t) => same_duration(t, &fifteen),
        None => false,
    };
    let headers_empty = options.default_headers.is_empty();
    proof {
        if !headers_empty {
            assert(options.default_headers.pairs().len() > 0);
            let k = options.default_headers.pairs()[0].0;
            assert(options.default_headers.has_key(k));
            assert(options.default_headers@.contains_key(k));
        }
    }
    options.concurrency == 8 && headers_empty && timeout_default && options.html_max_size_bytes == 2_000_000
        && options.follow_redirects && options.max_redirects == 10 && !options.keep_alive
}

} // verus!
