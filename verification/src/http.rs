//! The decisions of the HTTP layer: which headers go out, when a redirect is
//! followed and where to, and how much of a body is kept.

use vstd::prelude::*;
use core::time::Duration;
use crate::errors::{SilkwormError, SilkwormResult};
use crate::headers::{has_ci_key, header_lookup, header_value, map_has_ci_key, opt_str, find_ci, lemma_ci_key_in_map};
use crate::json::JsonValue;
use crate::request::{bytes_of, meta_keys, Request};
use crate::strmap::{insert_all, StrMap};
use crate::text::{concat3, decimal, decimal_text, owned, str_eq, to_uppercase, uppercase};
use crate::urls::{build_url_with_params, is_invalid_url_error, join_or_keep, merged_query, opt_text, text_pairs, url_defragmented, url_joined, url_parse_error, url_with_query};
use crate::request::meta_str_of;

verus! {

/// The settings of an HTTP client.
pub struct HttpSettings {
    pub concurrency: usize,
    pub default_headers: StrMap<String>,
    pub timeout: Option<Duration>,
    pub html_max_size_bytes: usize,
    pub follow_redirects: bool,
    pub max_redirects: usize,
    pub keep_alive: bool,
}

/// The statuses that redirect.
pub open spec fn is_redirect_status(status: u16) -> bool {
    status == 301 || status == 302 || status == 303 || status == 307 || status == 308
}

/// The statuses followed as redirects are the 3xx codes from 301 to 308
/// other than 304 (not modified), 305 and 306: with redirects on and a
/// `Location` header, 301, 302, 303, 307 and 308 are all followed, and no
/// other status is.
pub proof fn lemma_redirect_statuses(status: u16)
    ensures
        is_redirect_status(status) == (301 <= status && status <= 308 && status != 304 && status != 305 && status != 306),
{
}

/// With redirects on and a `Location` header present, a response is
/// followed exactly when its status is 301, 302, 303, 307 or 308.
pub proof fn lemma_follows_every_redirect_status(settings: HttpSettings, status: u16, headers: StrMap<String>)
    requires
        settings.follow_redirects,
        header_lookup(headers, "location"@) is Some,
    ensures
        (settings.follow_redirects && is_redirect_status(status) && header_lookup(headers, "location"@) is Some)
            == (status == 301 || status == 302 || status == 303 || status == 307 || status == 308),
{
    lemma_redirect_statuses(status);
}

/// The headers sent with a request: the defaults overridden by the request's
/// own, plus `Connection: keep-alive` when asked for and no connection header
/// (in any case) is present.
pub open spec fn merged_headers(
    defaults: Map<Seq<char>, Seq<char>>,
    request: Seq<(Seq<char>, Seq<char>)>,
    keep_alive: bool,
) -> Map<Seq<char>, Seq<char>> {
    let base = insert_all(defaults, request);
    if keep_alive && !map_has_ci_key(base, "connection"@) {
        base.insert("Connection"@, "keep-alive"@)
    } else {
        base
    }
}

impl HttpSettings {
    /// Settings for a client; a concurrency of zero is a configuration error.
    pub fn new(
        concurrency: usize,
        default_headers: StrMap<String>,
        timeout: Option<Duration>,
        html_max_size_bytes: usize,
        follow_redirects: bool,
        max_redirects: usize,
        keep_alive: bool,
    ) -> (r: SilkwormResult<Self>)
        ensures
            concurrency == 0 <==> r is Err,
            r matches Err(e) ==> e matches SilkwormError::Config(m) && m@ == "concurrency must be greater than zero"@,
            r matches Ok(s) ==> s == (HttpSettings {
                concurrency,
                default_headers,
                timeout,
                html_max_size_bytes,
                follow_redirects,
                max_redirects,
                keep_alive,
            }),
    {
        if concurrency == 0 {
            return Err(SilkwormError::Config(owned("concurrency must be greater than zero")));
        }
        Ok(HttpSettings {
            concurrency,
            default_headers,
            timeout,
            html_max_size_bytes,
            follow_redirects,
            max_redirects,
            keep_alive,
        })
    }

    /// The headers to send with a request carrying `request_headers`.
    pub fn merge_headers(&self, request_headers: &StrMap<String>) -> (r: StrMap<String>)
        ensures
            r.texts() == merged_headers(self.default_headers.texts(), text_pairs(*request_headers), self.keep_alive),
    {
        let mut headers = self.default_headers.copy();
        let ghost views = text_pairs(*request_headers);
        let mut i: usize = 0;
        while i < request_headers.len()
            invariant
                i <= request_headers.pairs().len(),
                views == text_pairs(*request_headers),
                headers.texts() == insert_all(self.default_headers.texts(), views.take(i as int)),
            decreases request_headers.pairs().len() - i,
        {
            let (k, v) = request_headers.entry(i);
            assert(views.take(i + 1).drop_last() =~= views.take(i as int));
            assert(views.take(i + 1).last() == (k@, v@));
            headers.insert_str(k.as_str(), v.as_str());
            i = i + 1;
        }
        assert(views.take(request_headers.pairs().len() as int) =~= views);
        if self.keep_alive {
            let found = find_ci(&headers, "connection");
            proof { lemma_ci_key_in_map(headers, "connection"@); }
            if found.is_none() {
                headers.insert_str("Connection", "keep-alive");
            }
        }
        headers
    }

    /// Whether a response with `status` and `headers` is followed as a redirect.
    pub fn should_follow_redirect(&self, status: u16, headers: &StrMap<String>) -> (b: bool)
        ensures
            b == (self.follow_redirects && is_redirect_status(status)
                && header_lookup(*headers, "location"@) is Some),
    {
        if !self.follow_redirects {
            return false;
        }
        (status == 301 || status == 302 || status == 303 || status == 307 || status == 308)
            && header_value(headers, "location").is_some()
    }
}

/// What goes out for one request: where, how, with which headers, within
/// which time, and through which proxy.
pub struct PreparedRequest {
    pub url: String,
    pub method: String,
    pub headers: StrMap<String>,
    pub timeout: Option<Duration>,
    pub proxy: Option<String>,
}

impl HttpSettings {
    /// What goes out for `request`: its URL with its parameters merged in,
    /// its method upper-cased, the merged headers, its own timeout or else the
    /// client's, and the proxy its metadata names. A URL that does not parse
    /// is an HTTP error.
    pub fn prepare<C>(&self, request: &Request<C>) -> (r: SilkwormResult<PreparedRequest>)
        ensures
            match r {
                Ok(p) => {
                    &&& url_parse_error(request.url@) is None
                    &&& p.url@ == if request.params.pairs().len() == 0 {
                        url_defragmented(request.url@)
                    } else {
                        url_with_query(request.url@, merged_query(request.url@, request.params))
                    }
                    &&& p.method@ == uppercase(request.method@)
                    &&& p.headers.texts() == merged_headers(
                        self.default_headers.texts(),
                        text_pairs(request.headers),
                        self.keep_alive,
                    )
                    &&& p.timeout == match request.timeout {
                        Some(t) => Some(t),
                        None => self.timeout,
                    }
                    &&& opt_text(p.proxy) == meta_str_of(request.meta@, meta_keys::PROXY@)
                },
                Err(e) => is_invalid_url_error(e, request.url@),
            },
    {
        let url = match build_url_with_params(request.url.as_str(), &request.params) {
            Ok(u) => u,
            Err(e) => {
                return Err(e);
            },
        };
        let method = to_uppercase(request.method.as_str());
        let headers = self.merge_headers(&request.headers);
        let timeout = match request.timeout {
            Some(t) => Some(t),
            None => self.timeout,
        };
        let proxy = match request.proxy() {
            Some(p) => Some(owned(p)),
            None => None,
        };
        Ok(PreparedRequest { url, method, headers, timeout, proxy })
    }
}

/// A redirect with `status` turns a request with method `method` into a `GET`
/// without a body: 301, 302 and 303 do so unless the method is `GET` or `HEAD`.
pub open spec fn redirect_resets_method(status: u16, method: Seq<char>) -> bool {
    301 <= status <= 303 && uppercase(method) != "GET"@ && uppercase(method) != "HEAD"@
}

/// `r` is the request that follows a redirect of `req` with `status` to
/// `target`: the new URL; a `GET` without body for 301 to 303 unless the
/// method is `GET` or `HEAD`, else the same method and body; no parameters;
/// the redirect count one higher (saturating); everything else unchanged.
pub open spec fn redirected<C>(req: Request<C>, r: Request<C>, target: Seq<char>, status: u16) -> bool {
    &&& r.url@ == target
    &&& redirect_resets_method(status, req.method@) ==> r.method@ == "GET"@ && r.data is None && r.json is None
    &&& !redirect_resets_method(status, req.method@) ==> r.method == req.method && r.data == req.data && r.json == req.json
    &&& r.params@ == Map::<Seq<char>, String>::empty()
    &&& r.headers == req.headers
    &&& r.meta@ == req.meta@.insert(meta_keys::REDIRECT_TIMES@, JsonValue::from_u64_spec(r.spec_redirect_times()))
    &&& r.spec_redirect_times() == if req.spec_redirect_times() == u64::MAX {
        u64::MAX
    } else {
        (req.spec_redirect_times() + 1) as u64
    }
    &&& r.timeout == req.timeout
    &&& r.callback == req.callback
    &&& r.dont_filter == req.dont_filter
    &&& r.priority == req.priority
}

/// The request that follows a redirect with `status` to `redirect_url`.
pub fn redirect_request<C>(req: Request<C>, redirect_url: &str, status: u16) -> (r: Request<C>)
    ensures
        redirected(req, r, redirect_url@, status),
{
    let mut req = req;
    let method_name = to_uppercase(req.method.as_str());
    let keeps = str_eq(method_name.as_str(), "GET") || str_eq(method_name.as_str(), "HEAD");
    if 301 <= status && status <= 303 && !keeps {
        req.method = owned("GET");
        req.data = None;
        req.json = None;
    }
    req.url = redirect_url.to_owned();
    req.params.clear();
    req.increment_redirect_times();
    req
}

/// Where a redirect from `current_url` to `location` leads: the location
/// resolved against the current URL, or the location itself when that fails.
pub fn resolve_redirect_url(current_url: &str, location: &str) -> (r: String)
    ensures
        r@ == match url_joined(current_url@, location@) {
            Some(j) => j,
            None => location@,
        },
{
    join_or_keep(current_url, location)
}

/// The redirects followed so far while fetching one request.
pub struct RedirectState {
    visited: Vec<String>,
    followed: usize,
}

/// What the client does next with a response.
pub enum FetchStep<C> {
    /// The response is final; it answers this request.
    Deliver(Request<C>),
    /// Fetch this request next.
    Follow(Request<C>),
    /// Give up with this error.
    Fail(SilkwormError),
}

impl RedirectState {
    /// The URLs fetched so far.
    pub closed spec fn visited_urls(self) -> Seq<Seq<char>> {
        self.visited@.map_values(|s: String| s@)
    }

    /// How many redirects were followed.
    pub closed spec fn spec_followed(self) -> nat {
        self.followed as nat
    }

    /// No URL fetched yet and no redirect followed.
    pub fn new() -> (s: Self)
        ensures
            s.visited_urls() == Seq::<Seq<char>>::empty(),
            s.spec_followed() == 0,
    {
        let s = RedirectState { visited: Vec::new(), followed: 0 };
        assert(s.visited_urls() =~= Seq::<Seq<char>>::empty());
        s
    }

    /// Records that `url` is being fetched.
    pub fn visit(&mut self, url: &str)
        ensures
            final(self).visited_urls() == old(self).visited_urls().push(url@),
            final(self).spec_followed() == old(self).spec_followed(),
    {
        self.visited.push(url.to_owned());
        assert(self.visited_urls() =~= old(self).visited_urls().push(url@));
    }

    /// How many redirects were followed.
    pub fn followed(&self) -> (n: usize)
        ensures
            n == self.spec_followed(),
    {
        self.followed
    }

    fn was_visited(&self, url: &str) -> (b: bool)
        ensures
            b == self.visited_urls().contains(url@),
    {
        let mut i: usize = 0;
        while i < self.visited.len()
            invariant
                i <= self.visited@.len(),
                forall|j: int| 0 <= j < i ==> #[trigger] self.visited_urls()[j] != url@,
            decreases self.visited.len() - i,
        {
            if str_eq(self.visited[i].as_str(), url) {
                assert(self.visited_urls()[i as int] == url@);
                return true;
            }
            i = i + 1;
        }
        false
    }
}

/// The text `Exceeded maximum redirects (<max>)`.
pub open spec fn too_many_redirects_text(max: usize) -> Seq<char> {
    "Exceeded maximum redirects ("@ + decimal(max as nat) + ")"@
}

/// Decides what follows a response with `status` and `headers` to `request`,
/// fetched from `url`.
///
/// A redirect that the settings follow is refused once `max_redirects` have
/// been followed, and when it leads to a URL already fetched.
pub fn after_response<C>(
    settings: &HttpSettings,
    state: &mut RedirectState,
    url: &str,
    status: u16,
    headers: &StrMap<String>,
    request: Request<C>,
) -> (step: FetchStep<C>)
    ensures
        old(state).spec_followed() <= settings.max_redirects ==> final(state).spec_followed() <= settings.max_redirects,
        final(state).visited_urls() == old(state).visited_urls(),
        !(settings.follow_redirects && is_redirect_status(status) && header_lookup(*headers, "location"@) is Some)
            ==> step == FetchStep::Deliver(request) && *final(state) == *old(state),
        settings.follow_redirects && is_redirect_status(status) && header_lookup(*headers, "location"@) is Some ==> {
            let target = match url_joined(url@, header_lookup(*headers, "location"@)->0) {
                Some(j) => j,
                None => header_lookup(*headers, "location"@)->0,
            };
            if old(state).spec_followed() >= settings.max_redirects {
                &&& step matches FetchStep::Fail(SilkwormError::Http(m)) && m@ == too_many_redirects_text(settings.max_redirects)
                &&& *final(state) == *old(state)
            } else if old(state).visited_urls().contains(target) {
                &&& step matches FetchStep::Fail(SilkwormError::Http(m)) && m@ == "Redirect loop detected"@
                &&& *final(state) == *old(state)
            } else {
                &&& step matches FetchStep::Follow(next) && redirected(request, next, target, status)
                &&& final(state).spec_followed() == old(state).spec_followed() + 1
                &&& final(state).visited_urls() == old(state).visited_urls()
            }
        },
{
    if !settings.should_follow_redirect(status, headers) {
        return FetchStep::Deliver(request);
    }
    if state.followed >= settings.max_redirects {
        let n = decimal_text(settings.max_redirects as u64);
        return FetchStep::Fail(SilkwormError::Http(concat3("Exceeded maximum redirects (", n.as_str(), ")")));
    }
    let location = match header_value(headers, "location") {
        Some(l) => l,
        None => "",
    };
    let target = resolve_redirect_url(url, location);
    if state.was_visited(target.as_str()) {
        return FetchStep::Fail(SilkwormError::Http(owned("Redirect loop detected")));
    }
    state.followed = state.followed + 1;
    FetchStep::Follow(redirect_request(request, target.as_str(), status))
}

/// A response body read chunk by chunk and cut at `max_bytes`.
pub struct BodyBuffer {
    bytes: Vec<u8>,
    max_bytes: usize,
    truncated: bool,
    received: Ghost<Seq<u8>>,
}

impl BodyBuffer {
    /// Every byte that arrived, kept or not.
    pub closed spec fn spec_received(self) -> Seq<u8> {
        self.received@
    }

    /// The bytes kept.
    pub closed spec fn spec_bytes(self) -> Seq<u8> {
        self.bytes@
    }

    /// The limit.
    pub closed spec fn spec_max(self) -> nat {
        self.max_bytes as nat
    }

    /// Whether bytes were dropped.
    pub closed spec fn spec_truncated(self) -> bool {
        self.truncated
    }

    /// The buffer keeps a prefix of what arrived, at most `max_bytes` long;
    /// it is cut exactly when more arrived than it holds (a limit of zero
    /// always counts as cut).
    #[verifier::type_invariant]
    closed spec fn consistent(self) -> bool {
        &&& self.max_bytes == 0 ==> self.bytes@.len() == 0 && self.truncated
        &&& self.max_bytes > 0 ==> self.bytes@ == self.received@.take(
            if self.received@.len() < self.max_bytes { self.received@.len() as int } else { self.max_bytes as int },
        )
        &&& self.received@.len() > self.max_bytes ==> self.truncated
        &&& self.truncated && self.max_bytes > 0 ==> self.received@.len() >= self.max_bytes
    }

    /// An empty buffer with limit `max_bytes`.
    pub fn new(max_bytes: usize) -> (b: Self)
        ensures
            b.spec_received() == Seq::<u8>::empty(),
            b.spec_bytes() == Seq::<u8>::empty(),
            b.spec_max() == max_bytes,
            b.spec_truncated() == (max_bytes == 0),
    {
        let bytes: Vec<u8> = Vec::new();
        assert(bytes@ =~= Seq::<u8>::empty().take(0));
        BodyBuffer { bytes, max_bytes, truncated: max_bytes == 0, received: Ghost(Seq::empty()) }
    }

    /// Takes in the next chunk of the body.
    pub fn push_chunk(&mut self, chunk: &[u8])
        ensures
            final(self).spec_received() == old(self).spec_received() + chunk@,
            final(self).spec_max() == old(self).spec_max(),
            final(self).spec_truncated() == (old(self).spec_truncated() || (old(self).spec_max() > 0 && (
                old(self).spec_bytes().len() >= old(self).spec_max()
                || chunk@.len() > old(self).spec_max() - old(self).spec_bytes().len()))),
            final(self).spec_bytes().len() <= final(self).spec_max(),
            final(self).spec_max() > 0 ==> final(self).spec_bytes() == final(self).spec_received().take(
                if final(self).spec_received().len() < final(self).spec_max() {
                    final(self).spec_received().len() as int
                } else {
                    final(self).spec_max() as int
                },
            ),
    {
        proof { use_type_invariant(&*self); }
        let mut current = BodyBuffer::new(self.max_bytes);
        std::mem::swap(&mut current, self);
        proof { use_type_invariant(&current); }
        let BodyBuffer { bytes, max_bytes, truncated, received } = current;
        let ghost before = received@;
        let ghost total = before + chunk@;
        if max_bytes == 0 {
            *self = BodyBuffer { bytes, max_bytes, truncated, received: Ghost(total) };
            return;
        }
        if bytes.len() >= max_bytes {
            assert(total.take(max_bytes as int) =~= before.take(max_bytes as int));
            *self = BodyBuffer { bytes, max_bytes, truncated: true, received: Ghost(total) };
            return;
        }
        let remaining = max_bytes - bytes.len();
        let take = if chunk.len() <= remaining { chunk.len() } else { remaining };
        let mut bytes = bytes;
        let ghost start = bytes@;
        let mut i: usize = 0;
        while i < take
            invariant
                i <= take <= chunk@.len(),
                bytes@ == start + chunk@.take(i as int),
            decreases take - i,
        {
            bytes.push(chunk[i]);
            assert(chunk@.take(i + 1) =~= chunk@.take(i as int).push(chunk@[i as int]));
            i = i + 1;
        }
        let cut = chunk.len() > remaining;
        assert(bytes@ =~= total.take(if total.len() < max_bytes { total.len() as int } else { max_bytes as int }));
        *self = BodyBuffer { bytes, max_bytes, truncated: truncated || cut, received: Ghost(total) };
    }

    /// The bytes kept and whether any were dropped.
    pub fn finish(self) -> (r: (Vec<u8>, bool))
        ensures
            r.0@ == self.spec_bytes(),
            r.1 == self.spec_truncated(),
            self.spec_max() == 0 ==> r.0@.len() == 0 && r.1,
            self.spec_max() > 0 ==> r.0@ == self.spec_received().take(
                if self.spec_received().len() < self.spec_max() { self.spec_received().len() as int } else { self.spec_max() as int },
            ),
            self.spec_received().len() > self.spec_max() ==> r.1,
            r.1 && self.spec_max() > 0 ==> self.spec_received().len() >= self.spec_max(),
    {
        proof { use_type_invariant(&self); }
        (self.bytes, self.truncated)
    }

    /// The limit on kept bytes.
    pub fn max_bytes(&self) -> (n: usize)
        ensures
            n == self.spec_max(),
    {
        self.max_bytes
    }
}

} // verus!
