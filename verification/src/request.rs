//! Requests: the unit of work that the engine queues and fetches.
//!
//! A request is generic over the type `C` of its callback; the library never
//! calls a callback, it only carries and copies it.

use vstd::prelude::*;
use core::time::Duration;
use crate::json::{same_json, JsonNumber, JsonValue};
use crate::strmap::{insert_all, StrMap};

pub mod meta_keys;

verus! {

/// The value stored under `key` in `meta`, if any.
pub open spec fn meta_entry(meta: Map<Seq<char>, JsonValue>, key: Seq<char>) -> Option<JsonValue> {
    if meta.contains_key(key) {
        Some(meta[key])
    } else {
        None
    }
}

/// The value under `key` read as a `u64`.
pub open spec fn meta_u64_of(meta: Map<Seq<char>, JsonValue>, key: Seq<char>) -> Option<u64> {
    match meta_entry(meta, key) {
        Some(v) => v.spec_as_u64(),
        None => None,
    }
}

/// The value under `key` read as a boolean.
pub open spec fn meta_bool_of(meta: Map<Seq<char>, JsonValue>, key: Seq<char>) -> Option<bool> {
    match meta_entry(meta, key) {
        Some(v) => v.spec_as_bool(),
        None => None,
    }
}

/// The value under `key` read as a string.
pub open spec fn meta_str_of(meta: Map<Seq<char>, JsonValue>, key: Seq<char>) -> Option<Seq<char>> {
    match meta_entry(meta, key) {
        Some(v) => v.spec_as_str(),
        None => None,
    }
}

/// The bytes of an optional body.
pub open spec fn bytes_of(data: Option<Vec<u8>>) -> Option<Seq<u8>> {
    match data {
        Some(d) => Some(d@),
        None => None,
    }
}

/// One request of a crawl.
pub struct Request<C> {
    pub url: String,
    pub method: String,
    pub headers: StrMap<String>,
    pub params: StrMap<String>,
    pub data: Option<Vec<u8>>,
    pub json: Option<JsonValue>,
    pub meta: StrMap<JsonValue>,
    pub timeout: Option<Duration>,
    pub callback: Option<C>,
    pub dont_filter: bool,
    pub priority: i32,
}

/// `b` is a copy of `a`: the same URL, method, headers, parameters, body,
/// timeout, filtering and priority; metadata and JSON values that are the
/// same; and a callback in both or in neither.
pub open spec fn same_request<C>(a: Request<C>, b: Request<C>) -> bool {
    &&& b.url@ == a.url@
    &&& b.method@ == a.method@
    &&& b.headers.key_seq() == a.headers.key_seq()
    &&& b.headers.texts() == a.headers.texts()
    &&& b.params.key_seq() == a.params.key_seq()
    &&& b.params.texts() == a.params.texts()
    &&& b.meta.key_seq() == a.meta.key_seq()
    &&& b.meta@.dom() == a.meta@.dom()
    &&& forall|k: Seq<char>| #[trigger] a.meta@.contains_key(k) ==> same_json(a.meta@[k], b.meta@[k])
    &&& bytes_of(b.data) == bytes_of(a.data)
    &&& match a.json {
        Some(j) => b.json matches Some(k) && same_json(j, k),
        None => b.json is None,
    }
    &&& b.timeout == a.timeout
    &&& b.callback is Some == a.callback is Some
    &&& b.dont_filter == a.dont_filter
    &&& b.priority == a.priority
}

/// `r` carries a clone of `source`'s callback, or none when `source` has none.
pub open spec fn clone_of_callback<C: Clone>(r: Option<C>, source: Option<C>) -> bool {
    match source {
        Some(c) => r is Some && cloned::<C>(c, r->0),
        None => r is None,
    }
}

impl<C: Clone> Clone for Request<C> {
    /// A copy of every field; the callback is cloned.
    fn clone(&self) -> (r: Self)
        ensures
            same_request(*self, r),
            clone_of_callback(r.callback, self.callback),
    {
        let data = match &self.data {
            Some(d) => {
                let c = d.clone();
                assert(c@ =~= d@);
                Some(c)
            },
            None => None,
        };
        let meta = self.meta.clone();
        proof {
            assert forall|k: Seq<char>| #[trigger] self.meta@.contains_key(k) implies same_json(self.meta@[k], meta@[k]) by {
                assert(cloned::<JsonValue>(self.meta@[k], meta@[k]));
                crate::json::lemma_same_json_reflexive(self.meta@[k]);
            }
        }
        Request {
            url: self.url.clone(),
            method: self.method.clone(),
            headers: self.headers.copy(),
            params: self.params.copy(),
            data,
            json: match &self.json {
                Some(j) => Some(j.clone()),
                None => None,
            },
            meta,
            timeout: self.timeout,
            callback: match &self.callback {
                Some(c) => Some(c.clone()),
                None => None,
            },
            dont_filter: self.dont_filter,
            priority: self.priority,
        }
    }
}

impl<C> Request<C> {
    /// A `GET` request for `url` with no headers, parameters, body or metadata.
    pub fn new(url: &str) -> (r: Self)
        ensures
            r.url@ == url@,
            r.method@ == "GET"@,
            r.headers@ == Map::<Seq<char>, String>::empty(),
            r.headers.pairs().len() == 0,
            r.params@ == Map::<Seq<char>, String>::empty(),
            r.params.pairs().len() == 0,
            r.data is None,
            r.json is None,
            r.meta@ == Map::<Seq<char>, JsonValue>::empty(),
            r.timeout is None,
            r.callback is None,
            !r.dont_filter,
            r.priority == 0,
    {
        Request {
            url: url.to_owned(),
            method: crate::text::owned("GET"),
            headers: StrMap::new(),
            params: StrMap::new(),
            data: None,
            json: None,
            meta: StrMap::new(),
            timeout: None,
            callback: None,
            dont_filter: false,
            priority: 0,
        }
    }

    /// A builder that starts from `Request::new(url)`.
    pub fn builder(url: &str) -> (b: RequestBuilder<C>)
        ensures
            b.spec_request().url@ == url@,
            b.spec_request().method@ == "GET"@,
            b.spec_request().headers@ == Map::<Seq<char>, String>::empty(),
            b.spec_request().params@ == Map::<Seq<char>, String>::empty(),
            b.spec_request().data is None,
            b.spec_request().json is None,
            b.spec_request().meta@ == Map::<Seq<char>, JsonValue>::empty(),
            b.spec_request().timeout is None,
            b.spec_request().callback is None,
            !b.spec_request().dont_filter,
            b.spec_request().priority == 0,
    {
        RequestBuilder::new(url)
    }

    /// A `GET` request for `url`.
    pub fn get(url: &str) -> (r: Self)
        ensures
            r.url@ == url@,
            r.method@ == "GET"@,
            r.headers@ == Map::<Seq<char>, String>::empty(),
            r.params@ == Map::<Seq<char>, String>::empty(),
            r.data is None,
            r.json is None,
            r.meta@ == Map::<Seq<char>, JsonValue>::empty(),
            r.timeout is None,
            r.callback is None,
            !r.dont_filter,
            r.priority == 0,
    {
        Self::new(url)
    }

    /// A `POST` request for `url`.
    pub fn post(url: &str) -> (r: Self)
        ensures
            r.url@ == url@,
            r.method@ == "POST"@,
            r.headers@ == Map::<Seq<char>, String>::empty(),
            r.params@ == Map::<Seq<char>, String>::empty(),
            r.data is None,
            r.json is None,
            r.meta@ == Map::<Seq<char>, JsonValue>::empty(),
            r.timeout is None,
            r.callback is None,
            !r.dont_filter,
            r.priority == 0,
    {
        Self::new(url).with_method("POST")
    }

    /// Sets the HTTP method.
    pub fn with_method(self, method: &str) -> (r: Self)
        ensures
            r == (Request { method: r.method, ..self }),
            r.method@ == method@,
    {
        let mut r = self;
        r.method = method.to_owned();
        r
    }

    /// Sets one header, replacing an existing value for the same name.
    pub fn with_header(self, key: &str, value: &str) -> (r: Self)
        ensures
            r == (Request { headers: r.headers, ..self }),
            r.headers.texts() == self.headers.texts().insert(key@, value@),
    {
        let mut r = self;
        r.headers.insert_str(key, value);
        r
    }

    /// Sets each header of `headers`, in order.
    pub fn with_headers(self, headers: &[(&str, &str)]) -> (r: Self)
        ensures
            r == (Request { headers: r.headers, ..self }),
            r.headers.texts() == insert_all(
                self.headers.texts(),
                headers@.map_values(|p: (&str, &str)| (p.0@, p.1@)),
            ),
    {
        let mut r = self;
        r.headers.insert_pairs(headers);
        r
    }

    /// Sets one query parameter, replacing an existing value for the same name.
    pub fn with_param(self, key: &str, value: &str) -> (r: Self)
        ensures
            r == (Request { params: r.params, ..self }),
            r.params.texts() == self.params.texts().insert(key@, value@),
    {
        let mut r = self;
        r.params.insert_str(key, value);
        r
    }

    /// Sets each query parameter of `params`, in order.
    pub fn with_params(self, params: &[(&str, &str)]) -> (r: Self)
        ensures
            r == (Request { params: r.params, ..self }),
            r.params.texts() == insert_all(
                self.params.texts(),
                params@.map_values(|p: (&str, &str)| (p.0@, p.1@)),
            ),
    {
        let mut r = self;
        r.params.insert_pairs(params);
        r
    }

    /// Sets the raw body.
    pub fn with_data(self, data: Vec<u8>) -> (r: Self)
        ensures
            r == (Request { data: Some(data), ..self }),
    {
        let mut r = self;
        r.data = Some(data);
        r
    }

    /// Sets the JSON body.
    pub fn with_json(self, json: JsonValue) -> (r: Self)
        ensures
            r == (Request { json: Some(json), ..self }),
    {
        let mut r = self;
        r.json = Some(json);
        r
    }

    /// Stores `value` in the metadata under `key`.
    pub fn with_meta(self, key: &str, value: JsonValue) -> (r: Self)
        ensures
            r == (Request { meta: r.meta, ..self }),
            r.meta@ == self.meta@.insert(key@, value),
    {
        let mut r = self;
        r.meta.insert(key.to_owned(), value);
        r
    }

    /// Stores a string in the metadata under `key`.
    pub fn with_meta_str(self, key: &str, value: &str) -> (r: Self)
        ensures
            r == (Request { meta: r.meta, ..self }),
            r.meta@.dom() == self.meta@.dom().insert(key@),
            r.meta@.remove(key@) == self.meta@.remove(key@),
            meta_str_of(r.meta@, key@) == Some(value@),
    {
        let v = JsonValue::String(value.to_owned());
        let r = self.with_meta(key, v);
        assert(r.meta@.remove(key@) =~= self.meta@.remove(key@));
        r
    }

    /// Stores a boolean in the metadata under `key`.
    pub fn with_meta_bool(self, key: &str, value: bool) -> (r: Self)
        ensures
            r == (Request { meta: r.meta, ..self }),
            r.meta@ == self.meta@.insert(key@, JsonValue::Bool(value)),
    {
        self.with_meta(key, JsonValue::Bool(value))
    }

    /// Stores a number in the metadata under `key`.
    pub fn with_meta_number(self, key: &str, value: JsonNumber) -> (r: Self)
        ensures
            r == (Request { meta: r.meta, ..self }),
            r.meta@ == self.meta@.insert(key@, JsonValue::Number(value)),
    {
        self.with_meta(key, JsonValue::Number(value))
    }

    /// Marks whether a non-HTML response to this request should still be parsed.
    pub fn with_allow_non_html(self, allow_non_html: bool) -> (r: Self)
        ensures
            r == (Request { meta: r.meta, ..self }),
            r.meta@ == self.meta@.insert(meta_keys::ALLOW_NON_HTML@, JsonValue::Bool(allow_non_html)),
    {
        self.with_meta_bool(meta_keys::ALLOW_NON_HTML, allow_non_html)
    }

    /// Stores each `(key, value)` of `entries` in the metadata, in order.
    pub fn with_meta_entries(self, entries: Vec<(String, JsonValue)>) -> (r: Self)
        ensures
            r == (Request { meta: r.meta, ..self }),
            r.meta@ == insert_all(
                self.meta@,
                entries@.map_values(|e: (String, JsonValue)| (e.0@, e.1)),
            ),
    {
        let mut r = self;
        let ghost orig = r;
        let mut rest = entries;
        let ghost all = rest@;
        let ghost views = all.map_values(|e: (String, JsonValue)| (e.0@, e.1));
        let ghost start = r.meta@;
        let mut taken: Vec<(String, JsonValue)> = Vec::new();
        while rest.len() > 0
            invariant
                rest@ + taken@.reverse() == all,
                r == orig,
            decreases rest.len(),
        {
            let last = rest.pop().unwrap();
            taken.push(last);
            assert(rest@ + taken@.reverse() =~= all);
        }
        assert(taken@.reverse() =~= all);
        while taken.len() > 0
            invariant
                taken@.len() <= all.len(),
                taken@.reverse() == all.skip(all.len() - taken@.len()),
                views == all.map_values(|e: (String, JsonValue)| (e.0@, e.1)),
                start == orig.meta@,
                r == (Request { meta: r.meta, ..orig }),
                r.meta@ == insert_all(start, views.take(all.len() - taken@.len())),
            decreases taken.len(),
        {
            let ghost done = all.len() - taken@.len();
            let ghost before = taken@;
            let (k, v) = taken.pop().unwrap();
            assert(all[done] == (k, v)) by {
                assert(before.reverse()[0] == before[before.len() - 1]);
            }
            assert(taken@.reverse() =~= all.skip(all.len() - taken@.len())) by {
                assert(taken@ =~= before.drop_last());
                assert(before.reverse() == all.skip(done));
                assert forall|j: int| 0 <= j < taken@.len() implies taken@.reverse()[j] == all.skip(done + 1)[j] by {
                    assert(taken@.reverse()[j] == taken@[taken@.len() - 1 - j]);
                    assert(taken@[taken@.len() - 1 - j] == before[before.len() - 1 - (j + 1)]);
                    assert(before.reverse()[j + 1] == before[before.len() - 1 - (j + 1)]);
                    assert(all.skip(done)[j + 1] == all.skip(done + 1)[j]);
                }
            }
            r.meta.insert(k, v);
            assert(views.take(done + 1).drop_last() =~= views.take(done));
        }
        assert(views.take(all.len() as int) =~= views);
        r
    }
}

impl<C> Request<C> {
    /// The metadata value under `key`.
    pub fn meta_value(&self, key: &str) -> (r: Option<&JsonValue>)
        ensures
            match r {
                Some(v) => meta_entry(self.meta@, key@) == Some(*v),
                None => meta_entry(self.meta@, key@) is None,
            },
    {
        self.meta.get(key)
    }

    /// The metadata value under `key`, when it is a string.
    pub fn meta_str(&self, key: &str) -> (r: Option<&str>)
        ensures
            match r {
                Some(s) => meta_str_of(self.meta@, key@) == Some(s@),
                None => meta_str_of(self.meta@, key@) is None,
            },
    {
        match self.meta.get(key) {
            Some(v) => v.as_str(),
            None => None,
        }
    }

    /// The metadata value under `key`, when it is a boolean.
    pub fn meta_bool(&self, key: &str) -> (r: Option<bool>)
        ensures
            r == meta_bool_of(self.meta@, key@),
    {
        match self.meta.get(key) {
            Some(v) => v.as_bool(),
            None => None,
        }
    }

    /// The metadata value under `key`, when it is a non-negative integer.
    pub fn meta_u64(&self, key: &str) -> (r: Option<u64>)
        ensures
            r == meta_u64_of(self.meta@, key@),
    {
        match self.meta.get(key) {
            Some(v) => v.as_u64(),
            None => None,
        }
    }

    /// Removes the entry under `key` and reads it as a non-negative integer.
    pub fn take_meta_u64(&mut self, key: &str) -> (r: Option<u64>)
        ensures
            r == meta_u64_of(old(self).meta@, key@),
            final(self).meta@ == old(self).meta@.remove(key@),
            *final(self) == (Request { meta: final(self).meta, ..*old(self) }),
    {
        match self.meta.remove(key) {
            Some(v) => v.as_u64(),
            None => None,
        }
    }

    /// Removes the entry under `key` and reads it as a boolean.
    pub fn take_meta_bool(&mut self, key: &str) -> (r: Option<bool>)
        ensures
            r == meta_bool_of(old(self).meta@, key@),
            final(self).meta@ == old(self).meta@.remove(key@),
            *final(self) == (Request { meta: final(self).meta, ..*old(self) }),
    {
        match self.meta.remove(key) {
            Some(v) => v.as_bool(),
            None => None,
        }
    }

    /// The proxy chosen for this request.
    pub fn proxy(&self) -> (r: Option<&str>)
        ensures
            match r {
                Some(s) => meta_str_of(self.meta@, meta_keys::PROXY@) == Some(s@),
                None => meta_str_of(self.meta@, meta_keys::PROXY@) is None,
            },
    {
        self.meta_str(meta_keys::PROXY)
    }

    /// Routes this request through `proxy`.
    pub fn with_proxy(self, proxy: &str) -> (r: Self)
        ensures
            r == (Request { meta: r.meta, ..self }),
            r.meta@.dom() == self.meta@.dom().insert(meta_keys::PROXY@),
            r.meta@.remove(meta_keys::PROXY@) == self.meta@.remove(meta_keys::PROXY@),
            meta_str_of(r.meta@, meta_keys::PROXY@) == Some(proxy@),
    {
        self.with_meta_str(meta_keys::PROXY, proxy)
    }

    /// Whether a non-HTML response should still be parsed (default: no).
    pub fn allow_non_html(&self) -> (b: bool)
        ensures
            b == (meta_bool_of(self.meta@, meta_keys::ALLOW_NON_HTML@) == Some(true)),
    {
        match self.meta_bool(meta_keys::ALLOW_NON_HTML) {
            Some(b) => b,
            None => false,
        }
    }

    /// How often this request has been retried (default: 0).
    pub open spec fn spec_retry_times(self) -> u64 {
        match meta_u64_of(self.meta@, meta_keys::RETRY_TIMES@) {
            Some(n) => n,
            None => 0,
        }
    }

    /// How often this request has been retried (default: 0).
    pub fn retry_times(&self) -> (n: u64)
        ensures
            n == self.spec_retry_times(),
    {
        match self.meta_u64(meta_keys::RETRY_TIMES) {
            Some(n) => n,
            None => 0,
        }
    }

    /// Records the retry count.
    pub fn set_retry_times(&mut self, retry_times: u64)
        ensures
            final(self).meta@ == old(self).meta@.insert(meta_keys::RETRY_TIMES@, JsonValue::Number(JsonNumber::PosInt(retry_times))),
            *final(self) == (Request { meta: final(self).meta, ..*old(self) }),
            final(self).spec_retry_times() == retry_times,
    {
        self.meta.insert(crate::text::owned(meta_keys::RETRY_TIMES), JsonValue::from_u64(retry_times));
    }

    /// Counts one more retry (saturating) and returns the new count.
    pub fn increment_retry_times(&mut self) -> (n: u64)
        ensures
            n == if old(self).spec_retry_times() == u64::MAX { u64::MAX } else { (old(self).spec_retry_times() + 1) as u64 },
            final(self).spec_retry_times() == n,
            final(self).meta@ == old(self).meta@.insert(meta_keys::RETRY_TIMES@, JsonValue::Number(JsonNumber::PosInt(n))),
            *final(self) == (Request { meta: final(self).meta, ..*old(self) }),
    {
        let next = self.retry_times().saturating_add(1);
        self.set_retry_times(next);
        next
    }

    /// Notes that the delay of this request has already been scheduled.
    pub fn mark_request_delay_scheduled(&mut self)
        ensures
            final(self).meta@ == old(self).meta@.insert(meta_keys::REQUEST_DELAY_SCHEDULED@, JsonValue::Bool(true)),
            *final(self) == (Request { meta: final(self).meta, ..*old(self) }),
    {
        self.meta.insert(crate::text::owned(meta_keys::REQUEST_DELAY_SCHEDULED), JsonValue::Bool(true));
    }

    /// Removes the scheduled-delay mark, returning whether it was set.
    pub fn take_request_delay_scheduled(&mut self) -> (b: bool)
        ensures
            b == (meta_bool_of(old(self).meta@, meta_keys::REQUEST_DELAY_SCHEDULED@) == Some(true)),
            final(self).meta@ == old(self).meta@.remove(meta_keys::REQUEST_DELAY_SCHEDULED@),
            *final(self) == (Request { meta: final(self).meta, ..*old(self) }),
    {
        match self.take_meta_bool(meta_keys::REQUEST_DELAY_SCHEDULED) {
            Some(b) => b,
            None => false,
        }
    }

    /// How often this request has been redirected (default: 0).
    pub open spec fn spec_redirect_times(self) -> u64 {
        match meta_u64_of(self.meta@, meta_keys::REDIRECT_TIMES@) {
            Some(n) => n,
            None => 0,
        }
    }

    /// How often this request has been redirected (default: 0).
    pub fn redirect_times(&self) -> (n: u64)
        ensures
            n == self.spec_redirect_times(),
    {
        match self.meta_u64(meta_keys::REDIRECT_TIMES) {
            Some(n) => n,
            None => 0,
        }
    }

    /// Records the redirect count.
    pub fn set_redirect_times(&mut self, redirect_times: u64)
        ensures
            final(self).meta@ == old(self).meta@.insert(meta_keys::REDIRECT_TIMES@, JsonValue::Number(JsonNumber::PosInt(redirect_times))),
            *final(self) == (Request { meta: final(self).meta, ..*old(self) }),
            final(self).spec_redirect_times() == redirect_times,
    {
        self.meta.insert(crate::text::owned(meta_keys::REDIRECT_TIMES), JsonValue::from_u64(redirect_times));
    }

    /// Counts one more redirect (saturating) and returns the new count.
    pub fn increment_redirect_times(&mut self) -> (n: u64)
        ensures
            n == if old(self).spec_redirect_times() == u64::MAX { u64::MAX } else { (old(self).spec_redirect_times() + 1) as u64 },
            final(self).spec_redirect_times() == n,
            final(self).meta@ == old(self).meta@.insert(meta_keys::REDIRECT_TIMES@, JsonValue::Number(JsonNumber::PosInt(n))),
            *final(self) == (Request { meta: final(self).meta, ..*old(self) }),
    {
        let next = self.redirect_times().saturating_add(1);
        self.set_redirect_times(next);
        next
    }

    /// Sets a timeout that overrides the client's default.
    pub fn with_timeout(self, timeout: Duration) -> (r: Self)
        ensures
            r == (Request { timeout: Some(timeout), ..self }),
    {
        let mut r = self;
        r.timeout = Some(timeout);
        r
    }

    /// Sets the callback that parses the response to this request.
    pub fn with_callback(self, callback: C) -> (r: Self)
        ensures
            r == (Request { callback: Some(callback), ..self }),
    {
        let mut r = self;
        r.callback = Some(callback);
        r
    }

    /// Whether this request bypasses de-duplication.
    pub fn with_dont_filter(self, dont_filter: bool) -> (r: Self)
        ensures
            r == (Request { dont_filter: dont_filter, ..self }),
    {
        let mut r = self;
        r.dont_filter = dont_filter;
        r
    }

    /// Sets the scheduling priority (higher first).
    pub fn with_priority(self, priority: i32) -> (r: Self)
        ensures
            r == (Request { priority: priority, ..self }),
    {
        let mut r = self;
        r.priority = priority;
        r
    }
}

/// Builds a request field by field.
pub struct RequestBuilder<C> {
    request: Request<C>,
}

impl<C> RequestBuilder<C> {
    /// The request built so far.
    pub closed spec fn spec_request(self) -> Request<C> {
        self.request
    }

    /// Starts from `Request::new(url)`.
    pub fn new(url: &str) -> (b: Self)
        ensures
            b.spec_request().url@ == url@,
            b.spec_request().method@ == "GET"@,
            b.spec_request().headers@ == Map::<Seq<char>, String>::empty(),
            b.spec_request().params@ == Map::<Seq<char>, String>::empty(),
            b.spec_request().data is None,
            b.spec_request().json is None,
            b.spec_request().meta@ == Map::<Seq<char>, JsonValue>::empty(),
            b.spec_request().timeout is None,
            b.spec_request().callback is None,
            !b.spec_request().dont_filter,
            b.spec_request().priority == 0,
    {
        RequestBuilder { request: Request::new(url) }
    }

    /// Sets one header.
    pub fn header(self, key: &str, value: &str) -> (b: Self)
        ensures
            b.spec_request() == (Request { headers: b.spec_request().headers, ..self.spec_request() }),
            b.spec_request().headers.texts() == self.spec_request().headers.texts().insert(key@, value@),
    {
        RequestBuilder { request: self.request.with_header(key, value) }
    }

    /// Sets one query parameter.
    pub fn param(self, key: &str, value: &str) -> (b: Self)
        ensures
            b.spec_request() == (Request { params: b.spec_request().params, ..self.spec_request() }),
            b.spec_request().params.texts() == self.spec_request().params.texts().insert(key@, value@),
    {
        RequestBuilder { request: self.request.with_param(key, value) }
    }

    /// Sets the JSON body.
    pub fn json(self, value: JsonValue) -> (b: Self)
        ensures
            b.spec_request() == (Request { json: Some(value), ..self.spec_request() }),
    {
        RequestBuilder { request: self.request.with_json(value) }
    }

    /// Sets the raw body.
    pub fn data(self, data: Vec<u8>) -> (b: Self)
        ensures
            b.spec_request() == (Request { data: Some(data), ..self.spec_request() }),
    {
        RequestBuilder { request: self.request.with_data(data) }
    }

    /// Whether the request bypasses de-duplication.
    pub fn dont_filter(self, dont_filter: bool) -> (b: Self)
        ensures
            b.spec_request() == (Request { dont_filter: dont_filter, ..self.spec_request() }),
    {
        RequestBuilder { request: self.request.with_dont_filter(dont_filter) }
    }

    /// Sets the scheduling priority.
    pub fn priority(self, priority: i32) -> (b: Self)
        ensures
            b.spec_request() == (Request { priority: priority, ..self.spec_request() }),
    {
        RequestBuilder { request: self.request.with_priority(priority) }
    }

    /// Marks whether a non-HTML response should still be parsed.
    pub fn allow_non_html(self, allow_non_html: bool) -> (b: Self)
        ensures
            b.spec_request() == (Request { meta: b.spec_request().meta, ..self.spec_request() }),
            b.spec_request().meta@ == self.spec_request().meta@.insert(meta_keys::ALLOW_NON_HTML@, JsonValue::Bool(allow_non_html)),
    {
        RequestBuilder { request: self.request.with_allow_non_html(allow_non_html) }
    }

    /// Sets the callback.
    pub fn callback(self, callback: C) -> (b: Self)
        ensures
            b.spec_request() == (Request { callback: Some(callback), ..self.spec_request() }),
    {
        RequestBuilder { request: self.request.with_callback(callback) }
    }

    /// The finished request.
    pub fn build(self) -> (r: Request<C>)
        ensures
            r == self.spec_request(),
    {
        self.request
    }
}

/// What a parse callback produces: a new request to crawl, or a scraped item.
pub enum SpiderOutput<C> {
    Request(Box<Request<C>>),
    Item(JsonValue),
}

impl<C> SpiderOutput<C> {
    /// Wraps a request.
    pub fn from_request(request: Request<C>) -> (o: Self)
        ensures
            o == SpiderOutput::Request(Box::new(request)),
    {
        SpiderOutput::Request(Box::new(request))
    }

    /// Wraps an item.
    pub fn from_item(item: JsonValue) -> (o: Self)
        ensures
            o == SpiderOutput::<C>::Item(item),
    {
        SpiderOutput::Item(item)
    }
}

/// The outputs of one parse.
pub type SpiderOutputs<C> = Vec<SpiderOutput<C>>;


} // verus!
