//! The decisions of the built-in middlewares: which user agent and proxy a
//! request gets, when a response is retried, and when a non-HTML response is
//! skipped.

use vstd::prelude::*;
use crate::headers::has_ci_key;
use crate::json::{same_json, JsonNumber, JsonValue};
use crate::request::{bytes_of, clone_of_callback, meta_bool_of, meta_keys, meta_str_of, Request};
use crate::response::{contains_ascii_case_insensitive, contains_ci_bytes, doctype_bytes, html_open_bytes, Response};
use crate::text::{contains_seq, is_white, lowercase, owned, str_contains, texts_of, to_lowercase, trim, trimmed};
use crate::headers::{header_lookup, header_value};

verus! {

broadcast use vstd::string::group_string_axioms;

/// What a response middleware hands on: the response, or a request to
/// schedule in its place.
pub enum ResponseAction<C> {
    Response(Response<C>),
    Request(Request<C>),
}

/// What the engine does next with a response.
pub enum ResponseStep<C> {
    /// Hand the response to the response middleware at this position.
    Middleware(usize, Response<C>),
    /// Schedule this request in place of the response.
    Enqueue(Request<C>),
    /// Run the request's own callback on the response.
    Callback(Response<C>),
    /// Parse the response with the spider's `parse`.
    Parse(Response<C>),
}

/// The step after a response middleware (or the fetch itself) produced
/// `action`, with `next` the position of the next response middleware out of
/// `n_middlewares`: a request ends the chain and is scheduled; a response goes
/// to the next middleware, and after the last one to the request's callback
/// when it has one, else to the spider's parser.
pub fn next_response_step<C>(action: ResponseAction<C>, next: usize, n_middlewares: usize) -> (s: ResponseStep<C>)
    ensures
        action matches ResponseAction::Request(r) ==> s == ResponseStep::Enqueue(r),
        action matches ResponseAction::Response(x) ==> {
            &&& next < n_middlewares ==> s == ResponseStep::Middleware(next, x)
            &&& next >= n_middlewares && x.request.callback is Some ==> s == ResponseStep::Callback(x)
            &&& next >= n_middlewares && x.request.callback is None ==> s == ResponseStep::Parse(x)
        },
{
    match action {
        ResponseAction::Request(r) => ResponseStep::Enqueue(r),
        ResponseAction::Response(x) => {
            if next < n_middlewares {
                ResponseStep::Middleware(next, x)
            } else if x.request.callback.is_some() {
                ResponseStep::Callback(x)
            } else {
                ResponseStep::Parse(x)
            }
        },
    }
}

/// Calls `rand::random_range(0..n)`; the contract claims only what its
/// documentation promises: a value in `0..n` (the range must not be empty).
/// Which value comes out is left open.
#[verifier::external_body]
fn random_below(n: usize) -> (r: usize)
    requires
        n > 0,
    ensures
        r < n,
{
    rand::random_range(0..n)
}

/// The `User-Agent` value used when no list is given.
pub open spec fn default_user_agent() -> Seq<char> {
    "silkworm/0.1"@
}

/// Sets a `User-Agent` header on requests that have none.
pub struct UserAgentMiddleware {
    user_agents: Vec<String>,
    default: String,
}

impl UserAgentMiddleware {
    /// The agents to pick from.
    pub closed spec fn agents(self) -> Seq<Seq<char>> {
        texts_of(self.user_agents@)
    }

    /// The agent used when there is none to pick from.
    pub closed spec fn fallback(self) -> Seq<char> {
        self.default@
    }

    /// Picks among `user_agents`; with none, uses `default` (or `silkworm/0.1`).
    pub fn new(user_agents: Vec<String>, default: Option<String>) -> (m: Self)
        ensures
            m.agents() == texts_of(user_agents@),
            m.fallback() == match default {
                Some(d) => d@,
                None => default_user_agent(),
            },
    {
        let default = match default {
            Some(d) => d,
            None => owned("silkworm/0.1"),
        };
        UserAgentMiddleware { user_agents, default }
    }

    /// `request` with a `User-Agent` header when it has none (in any case):
    /// one of the agents chosen at random, or the fallback.
    pub fn process_request<C>(&self, request: Request<C>) -> (r: Request<C>)
        ensures
            has_ci_key(request.headers.key_seq(), "user-agent"@) ==> r == request,
            !has_ci_key(request.headers.key_seq(), "user-agent"@) ==> {
                &&& r == (Request { headers: r.headers, ..request })
                &&& r.headers@.dom() == request.headers@.dom().insert("User-Agent"@)
                &&& r.headers@.remove("User-Agent"@) == request.headers@.remove("User-Agent"@)
                &&& self.agents().len() == 0 ==> r.headers@["User-Agent"@]@ == self.fallback()
                &&& self.agents().len() > 0 ==> self.agents().contains(r.headers@["User-Agent"@]@)
            },
    {
        if crate::headers::find_ci(&request.headers, "user-agent").is_some() {
            return request;
        }
        let ua = if self.user_agents.len() == 0 {
            self.default.clone()
        } else {
            let i = random_below(self.user_agents.len());
            assert(self.agents()[i as int] == self.user_agents@[i as int]@);
            self.user_agents[i].clone()
        };
        let mut request = request;
        let ghost before = request.headers@;
        request.headers.insert(owned("User-Agent"), ua);
        proof {
            assert(request.headers@.remove("User-Agent"@) =~= before.remove("User-Agent"@));
        }
        request
    }
}

/// Assigns each request a proxy, in turn or at random.
pub struct ProxyMiddleware {
    proxies: Vec<String>,
    random_selection: bool,
    index: usize,
}

impl ProxyMiddleware {
    /// The proxies.
    pub closed spec fn spec_proxies(self) -> Seq<Seq<char>> {
        texts_of(self.proxies@)
    }

    /// Whether proxies are picked at random.
    pub closed spec fn spec_random(self) -> bool {
        self.random_selection
    }

    /// How many proxies were handed out in turn.
    pub closed spec fn spec_index(self) -> nat {
        self.index as nat
    }

    /// The turn is a position among the proxies.
    #[verifier::type_invariant]
    closed spec fn turn_in_range(self) -> bool {
        if self.proxies@.len() > 0 {
            self.index < self.proxies@.len()
        } else {
            self.index == 0
        }
    }

    /// Hands out `proxies`, in turn from the first, or at random.
    pub fn new(proxies: Vec<String>, random_selection: bool) -> (m: Self)
        ensures
            m.spec_proxies() == texts_of(proxies@),
            m.spec_random() == random_selection,
            m.spec_index() == 0,
    {
        ProxyMiddleware { proxies, random_selection, index: 0 }
    }

    /// `request` with the next proxy in its `proxy` metadata; unchanged when
    /// there is no proxy. In turn, the `k`-th request (from 0) gets proxy
    /// `k % n`.
    pub fn process_request<C>(&mut self, request: Request<C>) -> (r: Request<C>)
        ensures
            final(self).spec_proxies() == old(self).spec_proxies(),
            final(self).spec_random() == old(self).spec_random(),
            old(self).spec_proxies().len() == 0 ==> r == request && *final(self) == *old(self),
            old(self).spec_proxies().len() > 0 ==> {
                &&& r == (Request { meta: r.meta, ..request })
                &&& r.meta@.dom() == request.meta@.dom().insert(meta_keys::PROXY@)
                &&& r.meta@.remove(meta_keys::PROXY@) == request.meta@.remove(meta_keys::PROXY@)
                &&& meta_str_of(r.meta@, meta_keys::PROXY@) matches Some(p) && old(self).spec_proxies().contains(p)
                &&& !old(self).spec_random() ==> {
                    &&& meta_str_of(r.meta@, meta_keys::PROXY@) == Some(
                        old(self).spec_proxies()[(old(self).spec_index() % old(self).spec_proxies().len()) as int],
                    )
                    &&& final(self).spec_index() == (old(self).spec_index() + 1) % old(self).spec_proxies().len()
                }
                &&& old(self).spec_random() ==> final(self).spec_index() == old(self).spec_index()
            },
    {
        proof { use_type_invariant(&*self); }
        let n = self.proxies.len();
        if n == 0 {
            return request;
        }
        let i = if self.random_selection {
            random_below(n)
        } else {
            let i = self.index % n;
            self.index = (self.index + 1) % n;
            i
        };
        assert(self.spec_proxies()[i as int] == self.proxies@[i as int]@);
        request.with_proxy(self.proxies[i].as_str())
    }
}

/// The pieces of `s` between line breaks (one more than there are breaks).
pub open spec fn line_pieces(s: Seq<char>) -> Seq<Seq<char>>
    decreases s.len(),
{
    if s.len() == 0 {
        seq![Seq::empty()]
    } else {
        let p = line_pieces(s.drop_last());
        if s.last() == '\n' {
            p.push(Seq::empty())
        } else {
            p.update(p.len() - 1, p.last().push(s.last()))
        }
    }
}

proof fn lemma_line_pieces_len(s: Seq<char>)
    ensures
        line_pieces(s).len() > 0,
    decreases s.len(),
{
    if s.len() > 0 {
        lemma_line_pieces_len(s.drop_last());
    }
}

/// The pieces of `content` between line breaks.
pub fn split_lines(content: &str) -> (r: Vec<String>)
    ensures
        texts_of(r@) == line_pieces(content@),
{
    let chars = crate::text::chars_of(content);
    let mut out: Vec<String> = Vec::new();
    let mut line: Vec<char> = Vec::new();
    let mut i: usize = 0;
    proof { lemma_line_pieces_len(content@.take(0)); }
    assert(line_pieces(content@.take(0)) =~= seq![Seq::<char>::empty()]);
    while i < chars.len()
        invariant
            chars@ == content@,
            i <= chars@.len(),
            line_pieces(content@.take(i as int)).len() > 0,
            line@ == line_pieces(content@.take(i as int)).last(),
            texts_of(out@) == line_pieces(content@.take(i as int)).drop_last(),
        decreases chars.len() - i,
    {
        let c = chars[i];
        let ghost before = line_pieces(content@.take(i as int));
        assert(content@.take(i + 1).drop_last() =~= content@.take(i as int));
        if c == '\n' {
            let text = crate::text::string_from_chars(&line);
            let ghost prev = texts_of(out@);
            out.push(text);
            assert(texts_of(out@) =~= prev.push(line@));
            line = Vec::new();
            assert(line_pieces(content@.take(i + 1)).drop_last() =~= before);
        } else {
            line.push(c);
            assert(line_pieces(content@.take(i + 1)).drop_last() =~= before.drop_last());
        }
        i = i + 1;
    }
    assert(content@.take(chars@.len() as int) =~= content@);
    let text = crate::text::string_from_chars(&line);
    let ghost prev = texts_of(out@);
    out.push(text);
    assert(texts_of(out@) =~= prev.push(line@));
    assert(line_pieces(content@) =~= line_pieces(content@).drop_last().push(line_pieces(content@).last()));
    out
}

/// The proxies listed in `content`: its lines, trimmed, the empty ones left out.
pub open spec fn proxy_lines(content: Seq<char>) -> Seq<Seq<char>> {
    line_pieces(content).map_values(|l: Seq<char>| trimmed(l)).filter(|l: Seq<char>| l.len() > 0)
}

/// The proxies listed in `content`, one per line.
pub fn proxies_from_text(content: &str) -> (r: Vec<String>)
    ensures
        texts_of(r@) == proxy_lines(content@),
{
    let chars = crate::text::chars_of(content);
    let ghost pred = |l: Seq<char>| l.len() > 0;
    let ghost f = |l: Seq<char>| trimmed(l);
    let mut out: Vec<String> = Vec::new();
    let mut line: Vec<char> = Vec::new();
    let mut i: usize = 0;
    proof { lemma_line_pieces_len(content@.take(0)); }
    assert(line_pieces(content@.take(0)) =~= seq![Seq::<char>::empty()]);
    while i < chars.len()
        invariant
            chars@ == content@,
            i <= chars@.len(),
            pred == (|l: Seq<char>| l.len() > 0),
            f == (|l: Seq<char>| trimmed(l)),
            line_pieces(content@.take(i as int)).len() > 0,
            line@ == line_pieces(content@.take(i as int)).last(),
            texts_of(out@) == line_pieces(content@.take(i as int)).drop_last().map_values(f).filter(pred),
        decreases chars.len() - i,
    {
        let c = chars[i];
        let ghost before = line_pieces(content@.take(i as int));
        assert(content@.take(i + 1).drop_last() =~= content@.take(i as int));
        if c == '\n' {
            let text = crate::text::string_from_chars(&line);
            let t = trim(text.as_str());
            let ghost prev = texts_of(out@);
            proof {
                let done = before.drop_last();
                assert(before =~= done.push(before.last()));
                assert(done.push(before.last()).map_values(f) =~= done.map_values(f).push(f(before.last())));
                done.map_values(f).lemma_filter_push(f(before.last()), pred);
            }
            if !t.as_str().is_empty() {
                out.push(t);
                assert(texts_of(out@) =~= prev.push(trimmed(line@)));
            }
            line = Vec::new();
            assert(line_pieces(content@.take(i + 1)).drop_last() =~= before);
        } else {
            line.push(c);
            assert(line_pieces(content@.take(i + 1)).drop_last() =~= before.drop_last());
        }
        i = i + 1;
    }
    assert(content@.take(chars@.len() as int) =~= content@);
    let ghost pieces = line_pieces(content@);
    let text = crate::text::string_from_chars(&line);
    let t = trim(text.as_str());
    proof {
        let done = pieces.drop_last();
        assert(pieces =~= done.push(pieces.last()));
        assert(done.push(pieces.last()).map_values(f) =~= done.map_values(f).push(f(pieces.last())));
        done.map_values(f).lemma_filter_push(f(pieces.last()), pred);
    }
    let ghost prev = texts_of(out@);
    if !t.as_str().is_empty() {
        out.push(t);
        assert(texts_of(out@) =~= prev.push(trimmed(line@)));
    }
    out
}

/// Whether `status` is one of `codes`.
fn contains_code(codes: &Vec<u16>, status: u16) -> (b: bool)
    ensures
        b == codes@.contains(status),
{
    let mut i: usize = 0;
    while i < codes.len()
        invariant
            i <= codes@.len(),
            forall|j: int| 0 <= j < i ==> codes@[j] != status,
        decreases codes.len() - i,
    {
        if codes[i] == status {
            assert(codes@[i as int] == status);
            return true;
        }
        i = i + 1;
    }
    false
}

/// The statuses retried when none are given.
pub open spec fn default_retry_codes() -> Seq<u16> {
    seq![500u16, 502, 503, 504, 522, 524, 408, 429]
}

/// Merging codes that are all already present changes nothing.
proof fn lemma_merged_codes_present(a: Seq<u16>, b: Seq<u16>)
    requires
        forall|i: int| 0 <= i < b.len() ==> a.contains(#[trigger] b[i]),
    ensures
        merged_codes(a, b) == a,
    decreases b.len(),
{
    if b.len() > 0 {
        lemma_merged_codes_present(a, b.drop_last());
        assert(a.contains(b[b.len() - 1]));
    }
}

/// With no codes given, the statuses retried (and those that wait first)
/// are exactly 500, 502, 503, 504, 522, 524, 408 and 429.
pub proof fn lemma_default_retry_statuses(status: u16)
    ensures
        default_retry_codes().contains(status) == (status == 500 || status == 502 || status == 503 || status == 504
            || status == 522 || status == 524 || status == 408 || status == 429),
        merged_codes(default_retry_codes(), default_retry_codes()).contains(status) == default_retry_codes().contains(status),
{
    let d = default_retry_codes();
    if status == 500 { assert(d[0] == status); }
    if status == 502 { assert(d[1] == status); }
    if status == 503 { assert(d[2] == status); }
    if status == 504 { assert(d[3] == status); }
    if status == 522 { assert(d[4] == status); }
    if status == 524 { assert(d[5] == status); }
    if status == 408 { assert(d[6] == status); }
    if status == 429 { assert(d[7] == status); }
    assert forall|i: int| 0 <= i < d.len() implies d.contains(#[trigger] d[i]) by {}
    lemma_merged_codes_present(d, d);
}

/// `a` followed by the codes of `b` it lacks, in order, each once.
pub open spec fn merged_codes(a: Seq<u16>, b: Seq<u16>) -> Seq<u16>
    decreases b.len(),
{
    if b.len() == 0 {
        a
    } else {
        let m = merged_codes(a, b.drop_last());
        if m.contains(b.last()) {
            m
        } else {
            m.push(b.last())
        }
    }
}

/// When responses are retried.
pub struct RetryPolicy {
    max_times: u64,
    retry_http_codes: Vec<u16>,
    sleep_http_codes: Vec<u16>,
}

/// What the retry policy does with a response.
pub enum RetryDecision<C> {
    /// Hand the response on.
    Keep(Response<C>),
    /// Schedule this request again; `attempt` is the retry count before it,
    /// `backoff` whether its status waits before the retry.
    Retry { request: Request<C>, attempt: u64, backoff: bool },
}

impl RetryPolicy {
    /// At most this many retries.
    pub closed spec fn spec_max_times(self) -> u64 {
        self.max_times
    }

    /// The statuses retried.
    pub closed spec fn spec_retry_codes(self) -> Seq<u16> {
        self.retry_http_codes@
    }

    /// The statuses that wait before a retry.
    pub closed spec fn spec_sleep_codes(self) -> Seq<u16> {
        self.sleep_http_codes@
    }

    /// Retries the statuses of `retry_http_codes` (by default 500, 502, 503,
    /// 504, 522, 524, 408 and 429) and those of `sleep_http_codes` (by default
    /// the same), at most `max_times` times; the latter wait first.
    pub fn new(max_times: u64, retry_http_codes: Option<Vec<u16>>, sleep_http_codes: Option<Vec<u16>>) -> (p: Self)
        ensures
            p.spec_max_times() == max_times,
            p.spec_sleep_codes() == match sleep_http_codes {
                Some(s) => s@,
                None => match retry_http_codes {
                    Some(r) => r@,
                    None => default_retry_codes(),
                },
            },
            p.spec_retry_codes() == merged_codes(
                match retry_http_codes {
                    Some(r) => r@,
                    None => default_retry_codes(),
                },
                p.spec_sleep_codes(),
            ),
            retry_http_codes is None && sleep_http_codes is None ==> forall|status: u16|
                #[trigger] p.spec_retry_codes().contains(status) == (status == 500 || status == 502 || status == 503
                    || status == 504 || status == 522 || status == 524 || status == 408 || status == 429),
    {
        proof {
            assert forall|status: u16| #[trigger] merged_codes(default_retry_codes(), default_retry_codes()).contains(status)
                == (status == 500 || status == 502 || status == 503 || status == 504 || status == 522 || status == 524
                    || status == 408 || status == 429) by {
                lemma_default_retry_statuses(status);
            }
        }
        let retry = match retry_http_codes {
            Some(r) => r,
            None => {
                let v: Vec<u16> = vec![500, 502, 503, 504, 522, 524, 408, 429];
                assert(v@ =~= default_retry_codes());
                v
            },
        };
        let sleep = match sleep_http_codes {
            Some(s) => s,
            None => retry.clone(),
        };
        let mut merged = retry.clone();
        let ghost base = retry@;
        let mut i: usize = 0;
        while i < sleep.len()
            invariant
                i <= sleep@.len(),
                merged@ == merged_codes(base, sleep@.take(i as int)),
            decreases sleep.len() - i,
        {
            let code = sleep[i];
            assert(sleep@.take(i + 1).drop_last() =~= sleep@.take(i as int));
            if !contains_code(&merged, code) {
                merged.push(code);
            }
            i = i + 1;
        }
        assert(sleep@.take(sleep@.len() as int) =~= sleep@);
        RetryPolicy { max_times, retry_http_codes: merged, sleep_http_codes: sleep }
    }

    /// Retries `response` when its status is retried and its request has been
    /// retried fewer than `max_times` times: the request again, exempt from
    /// duplicate filtering, with its retry count one higher.
    pub fn process_response<C: Clone>(&self, response: Response<C>) -> (d: RetryDecision<C>)
        ensures
            !self.spec_retry_codes().contains(response.status) ==> d == RetryDecision::Keep(response),
            self.spec_retry_codes().contains(response.status) && response.request.spec_retry_times() >= self.spec_max_times()
                ==> d == RetryDecision::Keep(response),
            self.spec_retry_codes().contains(response.status) && response.request.spec_retry_times() < self.spec_max_times()
                ==> (d matches RetryDecision::Retry { request, attempt, backoff } && {
                    &&& attempt == response.request.spec_retry_times()
                    &&& backoff == self.spec_sleep_codes().contains(response.status)
                    &&& request.url@ == response.request.url@
                    &&& request.method@ == response.request.method@
                    &&& request.headers.key_seq() == response.request.headers.key_seq()
                    &&& request.headers.texts() == response.request.headers.texts()
                    &&& request.params.key_seq() == response.request.params.key_seq()
                    &&& request.params.texts() == response.request.params.texts()
                    &&& bytes_of(request.data) == bytes_of(response.request.data)
                    &&& match response.request.json {
                        Some(j) => request.json matches Some(k) && same_json(j, k),
                        None => request.json is None,
                    }
                    &&& request.timeout == response.request.timeout
                    &&& request.meta@.dom() == response.request.meta@.dom().insert(meta_keys::RETRY_TIMES@)
                    &&& forall|k: Seq<char>| #[trigger] response.request.meta@.contains_key(k) && k != meta_keys::RETRY_TIMES@
                        ==> same_json(response.request.meta@[k], request.meta@[k])
                    &&& request.meta@[meta_keys::RETRY_TIMES@] == JsonValue::Number(JsonNumber::PosInt((attempt + 1) as u64))
                    &&& request.spec_retry_times() == attempt + 1
                    &&& request.dont_filter
                    &&& request.priority == response.request.priority
                    &&& clone_of_callback(request.callback, response.request.callback)
                }),
    {
        let status = response.status;
        if !contains_code(&self.retry_http_codes, status) {
            return RetryDecision::Keep(response);
        }
        let retry_times = response.request.retry_times();
        if retry_times >= self.max_times {
            return RetryDecision::Keep(response);
        }
        let mut request = response.request.clone();
        request.dont_filter = true;
        request.set_retry_times(retry_times + 1);
        let backoff = contains_code(&self.sleep_http_codes, status);
        RetryDecision::Retry { request, attempt: retry_times, backoff }
    }
}

/// The content types let through when none are given.
pub open spec fn default_allowed_types() -> Seq<Seq<char>> {
    seq!["html"@]
}

/// Marks non-HTML responses so that they are not parsed.
pub struct SkipNonHtmlMiddleware {
    allowed_types: Vec<String>,
    sniff_bytes: usize,
    drop_body_on_skip: bool,
}

/// Whether a response with `headers` and `body` counts as HTML: its
/// lower-cased content type holds one of `allowed`, or the first
/// `sniff_bytes` of its body hold `<html` or `<!doctype` in any ASCII case.
pub open spec fn counts_as_html(headers: crate::strmap::StrMap<String>, body: Seq<u8>, allowed: Seq<Seq<char>>, sniff_bytes: nat) -> bool {
    let content_type = match header_lookup(headers, "content-type"@) {
        Some(v) => lowercase(v),
        None => Seq::empty(),
    };
    let snippet = body.take(if body.len() < sniff_bytes { body.len() as int } else { sniff_bytes as int });
    (exists|i: int| 0 <= i < allowed.len() && contains_seq(content_type, #[trigger] allowed[i]))
        || (sniff_bytes > 0 && (contains_ci_bytes(snippet, html_open_bytes()) || contains_ci_bytes(snippet, doctype_bytes())))
}

impl SkipNonHtmlMiddleware {
    /// The content types let through.
    pub closed spec fn allowed(self) -> Seq<Seq<char>> {
        texts_of(self.allowed_types@)
    }

    /// How many bytes of the body are looked at.
    pub closed spec fn spec_sniff_bytes(self) -> nat {
        self.sniff_bytes as nat
    }

    /// Whether a skipped response loses its body and headers.
    pub closed spec fn spec_drop_body(self) -> bool {
        self.drop_body_on_skip
    }

    /// Lets through `allowed_types` (by default `html`), looking at up to
    /// `sniff_bytes` of the body; skipped responses lose their body.
    pub fn new(allowed_types: Option<Vec<String>>, sniff_bytes: usize) -> (m: Self)
        ensures
            m.allowed() == match allowed_types {
                Some(a) => texts_of(a@),
                None => default_allowed_types(),
            },
            m.spec_sniff_bytes() == sniff_bytes,
            m.spec_drop_body(),
    {
        let allowed_types = match allowed_types {
            Some(a) => a,
            None => {
                let v: Vec<String> = vec![owned("html")];
                assert(texts_of(v@) =~= default_allowed_types());
                v
            },
        };
        SkipNonHtmlMiddleware { allowed_types, sniff_bytes, drop_body_on_skip: true }
    }

    /// Whether skipped responses lose their body and headers.
    pub fn with_drop_body_on_skip(self, drop_body_on_skip: bool) -> (m: Self)
        ensures
            m.allowed() == self.allowed(),
            m.spec_sniff_bytes() == self.spec_sniff_bytes(),
            m.spec_drop_body() == drop_body_on_skip,
    {
        SkipNonHtmlMiddleware { drop_body_on_skip, ..self }
    }

    /// Whether `response` counts as HTML.
    fn looks_like_html<C>(&self, response: &Response<C>) -> (b: bool)
        ensures
            b == counts_as_html(response.headers, response.body@, self.allowed(), self.spec_sniff_bytes()),
    {
        let content_type = match header_value(&response.headers, "content-type") {
            Some(v) => to_lowercase(v),
            None => String::new(),
        };
        assert(content_type@ == match header_lookup(response.headers, "content-type"@) {
            Some(v) => lowercase(v),
            None => Seq::<char>::empty(),
        });
        let mut i: usize = 0;
        while i < self.allowed_types.len()
            invariant
                i <= self.allowed_types@.len(),
                content_type@ == match header_lookup(response.headers, "content-type"@) {
                    Some(v) => lowercase(v),
                    None => Seq::<char>::empty(),
                },
                forall|j: int| 0 <= j < i ==> !contains_seq(content_type@, #[trigger] self.allowed()[j]),
            decreases self.allowed_types.len() - i,
        {
            assert(self.allowed()[i as int] == self.allowed_types@[i as int]@);
            if str_contains(content_type.as_str(), self.allowed_types[i].as_str()) {
                assert(contains_seq(content_type@, self.allowed()[i as int]));
                assert(self.allowed().len() == self.allowed_types@.len());
                assert(exists|j: int| 0 <= j < self.allowed().len() && contains_seq(content_type@, #[trigger] self.allowed()[j]));
                return true;
            }
            i = i + 1;
        }
        if self.sniff_bytes == 0 {
            return false;
        }
        let end = if self.sniff_bytes < response.body.len() { self.sniff_bytes } else { response.body.len() };
        let mut snippet: Vec<u8> = Vec::new();
        let mut k: usize = 0;
        while k < end
            invariant
                end <= response.body@.len(),
                end <= self.sniff_bytes,
                k <= end,
                snippet@ == response.body@.take(k as int),
            decreases end - k,
        {
            snippet.push(response.body[k]);
            assert(response.body@.take(k + 1) =~= response.body@.take(k as int).push(response.body@[k as int]));
            k = k + 1;
        }
        let open_html: [u8; 5] = [60, 104, 116, 109, 108];
        let doctype: [u8; 9] = [60, 33, 100, 111, 99, 116, 121, 112, 101];
        assert(open_html@ =~= html_open_bytes());
        assert(doctype@ =~= doctype_bytes());
        contains_ascii_case_insensitive(snippet.as_slice(), &open_html)
            || contains_ascii_case_insensitive(snippet.as_slice(), &doctype)
    }

    /// Lets `response` through unchanged when its request allows non-HTML or it
    /// counts as HTML; otherwise gives its request the callback `noop` (which
    /// parses nothing) and, when set to, drops its body and headers.
    pub fn process_response<C>(&self, response: Response<C>, noop: C) -> (r: Response<C>)
        ensures
            meta_bool_of(response.request.meta@, meta_keys::ALLOW_NON_HTML@) == Some(true) ==> r == response,
            counts_as_html(response.headers, response.body@, self.allowed(), self.spec_sniff_bytes()) ==> r == response,
            !(meta_bool_of(response.request.meta@, meta_keys::ALLOW_NON_HTML@) == Some(true))
                && !counts_as_html(response.headers, response.body@, self.allowed(), self.spec_sniff_bytes()) ==> {
                &&& r.request == (Request { callback: Some(noop), ..response.request })
                &&& r.url == response.url
                &&& r.status == response.status
                &&& self.spec_drop_body() ==> r.body@.len() == 0 && r.headers@ == Map::<Seq<char>, String>::empty()
                &&& !self.spec_drop_body() ==> r.body == response.body && r.headers == response.headers
            },
    {
        if response.request.allow_non_html() {
            return response;
        }
        if self.looks_like_html(&response) {
            return response;
        }
        let mut response = response;
        if self.drop_body_on_skip {
            response.close();
        }
        response.request.callback = Some(noop);
        response
    }
}

} // verus!
