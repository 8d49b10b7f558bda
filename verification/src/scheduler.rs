use vstd::prelude::*;
use vstd::hash_set::StringHashSet;
use std::collections::VecDeque;

use crate::errors::{SilkwormError, SilkwormResult};
use crate::http::HttpSettings;
use crate::request::Request;
use crate::strmap::StrMap;
use crate::text::{ascii_uppercase, ascii_uppercase_of, chars_of, concat3, is_white, is_white_char, owned, texts_of, trim, trimmed};
use crate::middlewares::line_pieces;
use crate::urls::{canonical_query, canonical_url_with_params, lemma_canonical_url_ignores_query_order_and_fragment, url_parse_error, url_query, url_with_query};
use core::time::Duration;
use std::time::Instant;
use crate::clock::{duration_from_secs, elapsed_since, seconds};

verus! {

/// How many of `len` remembered fingerprints stay when a new one comes in
/// under the limit `max`.
pub open spec fn kept_before_insert(len: nat, max: nat) -> nat {
    if max == 0 {
        0
    } else if len < max {
        len
    } else {
        (max - 1) as nat
    }
}

/// The order of remembered fingerprints after `fingerprint` is added under
/// the limit `max`: the oldest are forgotten first.
pub open spec fn order_after_insert(order: Seq<Seq<char>>, max: nat, fingerprint: Seq<char>) -> Seq<Seq<char>> {
    order.skip(order.len() - kept_before_insert(order.len(), max)).push(fingerprint)
}

/// Removing the first of a sequence without duplicates removes it from its set.
proof fn lemma_drop_first_set(s: Seq<Seq<char>>)
    requires
        s.len() > 0,
        s.no_duplicates(),
    ensures
        s.drop_first().no_duplicates(),
        s.drop_first().to_set() == s.to_set().remove(s[0]),
{
    let t = s.drop_first();
    assert forall|x: Seq<char>| s.to_set().remove(s[0]).contains(x) implies t.to_set().contains(x) by {
        let i = choose|i: int| 0 <= i < s.len() && s[i] == x;
        assert(i != 0);
        assert(t[i - 1] == x);
    }
    assert forall|x: Seq<char>| t.to_set().contains(x) implies s.to_set().remove(s[0]).contains(x) by {
        let i = choose|i: int| 0 <= i < t.len() && t[i] == x;
        assert(s[i + 1] == x);
    }
    assert(t.to_set() =~= s.to_set().remove(s[0]));
}

/// Appending a new element keeps a sequence free of duplicates and adds it to its set.
proof fn lemma_push_set(s: Seq<Seq<char>>, x: Seq<char>)
    requires
        s.no_duplicates(),
        !s.contains(x),
    ensures
        s.push(x).no_duplicates(),
        s.push(x).to_set() == s.to_set().insert(x),
{
    let t = s.push(x);
    assert forall|y: Seq<char>| s.to_set().insert(x).contains(y) implies t.to_set().contains(y) by {
        if y == x {
            assert(t[s.len() as int] == y);
        } else {
            let i = choose|i: int| 0 <= i < s.len() && s[i] == y;
            assert(t[i] == y);
        }
    }
    assert forall|y: Seq<char>| t.to_set().contains(y) implies s.to_set().insert(x).contains(y) by {
        let i = choose|i: int| 0 <= i < t.len() && t[i] == y;
        if i < s.len() {
            assert(s[i] == y);
        }
    }
    assert(t.to_set() =~= s.to_set().insert(x));
}

/// What remembering a new fingerprint does to the set remembered: below the
/// limit it is added; at the limit the oldest is forgotten first.
proof fn lemma_insert_effect(order: Seq<Seq<char>>, max: nat, fingerprint: Seq<char>)
    requires
        order.no_duplicates(),
        !order.contains(fingerprint),
        order.len() <= if max == 0 { 1 } else { max },
    ensures
        order.len() < (if max == 0 { 1 } else { max })
            ==> order_after_insert(order, max, fingerprint).to_set() == order.to_set().insert(fingerprint),
        order.len() == (if max == 0 { 1 } else { max })
            ==> order_after_insert(order, max, fingerprint).to_set() == order.to_set().remove(order[0]).insert(fingerprint),
{
    if order.len() < (if max == 0 { 1 } else { max }) {
        assert(order.skip(0) =~= order);
        lemma_push_set(order, fingerprint);
    } else {
        assert(order.skip(1) =~= order.drop_first());
        lemma_drop_first_set(order);
        assert(!order.drop_first().contains(fingerprint)) by {
            if order.drop_first().contains(fingerprint) {
                let i = choose|i: int| 0 <= i < order.drop_first().len() && order.drop_first()[i] == fingerprint;
                assert(order[i + 1] == fingerprint);
            }
        }
        lemma_push_set(order.drop_first(), fingerprint);
    }
}

/// Under a limit, remembering one more fingerprint never holds more than the
/// limit allows (one, for a limit of zero): the oldest are forgotten, the new
/// one is the newest, and those kept are the most recent, in order.
pub proof fn lemma_seen_memory_bounded(order: Seq<Seq<char>>, max: nat, fingerprint: Seq<char>)
    requires
        order.len() <= if max == 0 { 1 } else { max },
    ensures
        order_after_insert(order, max, fingerprint).len() <= if max == 0 { 1 } else { max },
        order_after_insert(order, max, fingerprint).last() == fingerprint,
        order_after_insert(order, max, fingerprint).drop_last() == order.skip(
            order.len() - kept_before_insert(order.len(), max),
        ),
{
    let r = order_after_insert(order, max, fingerprint);
    assert(r.drop_last() =~= order.skip(order.len() - kept_before_insert(order.len(), max)));
}

/// The order in which queued requests are served is a strict total order on
/// their (priority, sequence) ranks: never both ways, transitive, and any two
/// different ranks are ordered; of equal priority, the one queued first is
/// served first.
pub proof fn lemma_service_order(a: (i32, u64), b: (i32, u64), c: (i32, u64))
    ensures
        !served_before(a, a),
        served_before(a, b) ==> !served_before(b, a),
        served_before(a, b) && served_before(b, c) ==> served_before(a, c),
        a != b ==> served_before(a, b) || served_before(b, a),
        a.0 == b.0 && a.1 < b.1 ==> served_before(a, b),
        a.0 > b.0 ==> served_before(a, b),
{
}

/// The fingerprints of the requests already scheduled, optionally bounded:
/// once full, the oldest fingerprint is forgotten to make room.
pub struct SeenRequests {
    entries: StringHashSet,
    order: VecDeque<String>,
    max_entries: Option<usize>,
}

impl SeenRequests {
    /// The fingerprints remembered.
    pub closed spec fn seen(self) -> Set<Seq<char>> {
        self.entries@
    }

    /// The remembered fingerprints, oldest first (kept only under a limit).
    pub closed spec fn spec_order(self) -> Seq<Seq<char>> {
        texts_of(self.order@)
    }

    /// The limit, if any.
    pub closed spec fn limit(self) -> Option<usize> {
        self.max_entries
    }

    #[verifier::type_invariant]
    closed spec fn well_formed(self) -> bool {
        match self.max_entries {
            Some(m) => {
                &&& texts_of(self.order@).no_duplicates()
                &&& self.entries@ == texts_of(self.order@).to_set()
                &&& self.order@.len() <= if m == 0 { 1 } else { m as nat }
            },
            None => self.order@.len() == 0,
        }
    }

    /// Nothing seen yet, with an optional limit on how much is remembered.
    pub fn new(max_entries: Option<usize>) -> (s: Self)
        ensures
            s.seen() == Set::<Seq<char>>::empty(),
            s.spec_order() == Seq::<Seq<char>>::empty(),
            s.limit() == max_entries,
    {
        let order: VecDeque<String> = VecDeque::new();
        assert(texts_of(order@) =~= Seq::<Seq<char>>::empty());
        assert(texts_of(order@).to_set() =~= Set::<Seq<char>>::empty());
        SeenRequests { entries: StringHashSet::new(), order, max_entries }
    }

    /// Records `fingerprint`; says whether it was new.
    ///
    /// A fingerprint already remembered changes nothing. Under a limit, the
    /// oldest fingerprints are forgotten until the new one fits.
    pub fn insert_if_new(&mut self, fingerprint: &str) -> (inserted: bool)
        ensures
            inserted == !old(self).seen().contains(fingerprint@),
            final(self).seen().contains(fingerprint@),
            final(self).limit() == old(self).limit(),
            !inserted ==> *final(self) == *old(self),
            inserted && old(self).limit() is None ==> final(self).seen() == old(self).seen().insert(fingerprint@),
            old(self).limit() is Some ==> old(self).seen() == old(self).spec_order().to_set(),
            final(self).limit() matches Some(m) ==> {
                &&& final(self).seen() == final(self).spec_order().to_set()
                &&& final(self).spec_order().no_duplicates()
                &&& final(self).seen().len() <= if m == 0 { 1 } else { m as nat }
            },
            old(self).limit() matches Some(m) ==> (inserted ==> final(self).spec_order()
                == order_after_insert(old(self).spec_order(), m as nat, fingerprint@)),
            old(self).limit() matches Some(m) ==> {
                &&& old(self).spec_order().no_duplicates()
                &&& old(self).seen().len() == old(self).spec_order().len()
                &&& old(self).spec_order().len() <= if m == 0 { 1 } else { m as nat }
            },
            old(self).limit() matches Some(m) ==> inserted ==> {
                &&& old(self).spec_order().len() < (if m == 0 { 1 } else { m as nat })
                    ==> final(self).seen() == old(self).seen().insert(fingerprint@)
                &&& old(self).spec_order().len() == (if m == 0 { 1 } else { m as nat })
                    ==> final(self).seen() == old(self).seen().remove(old(self).spec_order()[0]).insert(fingerprint@)
            },
    {
        proof {
            use_type_invariant(&*self);
            if let Some(m) = self.max_entries {
                texts_of(self.order@).unique_seq_to_set();
                if !self.entries@.contains(fingerprint@) {
                    lemma_insert_effect(texts_of(self.order@), m as nat, fingerprint@);
                }
            }
        }
        if self.entries.contains(fingerprint) {
            proof {
                if let Some(m) = self.max_entries {
                    texts_of(self.order@).unique_seq_to_set();
                }
            }
            return false;
        }
        let mut current = SeenRequests::new(self.max_entries);
        std::mem::swap(&mut current, self);
        proof { use_type_invariant(&current); }
        let SeenRequests { mut entries, mut order, max_entries } = current;
        match max_entries {
            Some(max) => {
                let ghost start = texts_of(order@);
                let ghost keep = kept_before_insert(start.len(), max as nat);
                loop
                    invariant
                        texts_of(order@).no_duplicates(),
                        entries@ == texts_of(order@).to_set(),
                        !entries@.contains(fingerprint@),
                        texts_of(order@) == start.skip(start.len() - texts_of(order@).len()),
                        keep <= texts_of(order@).len() <= start.len(),
                        texts_of(order@).len() == order@.len(),
                        start.len() == old(self).spec_order().len(),
                        start == old(self).spec_order(),
                        keep == kept_before_insert(start.len(), max as nat),
                    ensures
                        texts_of(order@).no_duplicates(),
                        entries@ == texts_of(order@).to_set(),
                        !entries@.contains(fingerprint@),
                        texts_of(order@) == start.skip(start.len() - keep),
                    decreases order@.len(),
                {
                    if order.len() < max || order.len() == 0 {
                        assert(texts_of(order@).len() == keep);
                        break;
                    }
                    let ghost before = texts_of(order@);
                    match order.pop_front() {
                        Some(oldest) => {
                            proof {
                                lemma_drop_first_set(before);
                                assert(texts_of(order@) =~= before.drop_first());
                                assert(before.drop_first() =~= start.skip(start.len() - texts_of(order@).len()));
                            }
                            entries.remove(oldest.as_str());
                        },
                        None => {
                            break;
                        },
                    }
                }
                proof {
                    lemma_push_set(texts_of(order@), fingerprint@);
                }
                order.push_back(owned(fingerprint));
                entries.insert(owned(fingerprint));
                proof {
                    let t = texts_of(order@);
                    assert(t =~= start.skip(start.len() - keep).push(fingerprint@));
                    t.unique_seq_to_set();
                }
                *self = SeenRequests { entries, order, max_entries };
            },
            None => {
                entries.insert(owned(fingerprint));
                *self = SeenRequests { entries, order, max_entries };
            },
        }
        true
    }
}

/// The URL part of a request's fingerprint: the canonical URL (parameters
/// merged in, every query pair sorted, the fragment dropped), or the URL as
/// given when it does not parse.
pub open spec fn fingerprint_url(url: Seq<char>, params: StrMap<String>) -> Seq<char> {
    if url_parse_error(url) is Some {
        url
    } else {
        url_with_query(url, canonical_query(url, params))
    }
}

/// The fingerprint of a request: its method, trimmed and upper-cased (ASCII),
/// a space, and its canonical URL.
pub open spec fn fingerprint_of(method: Seq<char>, url: Seq<char>, params: StrMap<String>) -> Seq<char> {
    ascii_uppercase(trimmed(method)) + " "@ + fingerprint_url(url, params)
}

/// The text under which a request is remembered as seen.
pub fn request_fingerprint<C>(request: &Request<C>) -> (f: String)
    ensures
        f@ == fingerprint_of(request.method@, request.url@, request.params),
{
    let method = ascii_uppercase_of(trim(request.method.as_str()).as_str());
    let url = match canonical_url_with_params(request.url.as_str(), &request.params) {
        Ok(u) => u,
        Err(_) => request.url.clone(),
    };
    concat3(method.as_str(), " ", url.as_str())
}

/// Requests with the same method up to surrounding white space and ASCII case,
/// the same parameters, and URLs that the `url` crate writes alike once their
/// queries are replaced and whose query pairs are the same up to order, have
/// the same fingerprint: query order and fragments do not matter.
pub proof fn lemma_fingerprint_ignores_query_order_and_fragment(
    m1: Seq<char>,
    m2: Seq<char>,
    u1: Seq<char>,
    u2: Seq<char>,
    params: StrMap<String>,
)
    requires
        ascii_uppercase(trimmed(m1)) == ascii_uppercase(trimmed(m2)),
        url_parse_error(u1) is None,
        url_parse_error(u2) is None,
        url_query(u1).to_multiset() == url_query(u2).to_multiset(),
        forall|q: Seq<(Seq<char>, Seq<char>)>| url_with_query(u1, q) == url_with_query(u2, q),
    ensures
        fingerprint_of(m1, u1, params) == fingerprint_of(m2, u2, params),
{
    lemma_canonical_url_ignores_query_order_and_fragment(u1, u2, params);
}

/// A request waiting to be fetched, with the priority it was queued at and
/// the order in which it was queued.
pub struct QueuedRequest<C> {
    pub request: Request<C>,
    pub priority: i32,
    pub sequence: u64,
}

/// The rank of a queued request: its priority and its sequence number.
pub open spec fn rank_of<C>(q: QueuedRequest<C>) -> (i32, u64) {
    (q.priority, q.sequence)
}

/// `a` is served before `b`: a higher priority first, then the one queued first.
pub open spec fn served_before(a: (i32, u64), b: (i32, u64)) -> bool {
    a.0 > b.0 || (a.0 == b.0 && a.1 < b.1)
}

impl<C> QueuedRequest<C> {
    /// Queues `request` with its own priority as the `sequence`-th request.
    pub fn new(request: Request<C>, sequence: u64) -> (q: Self)
        ensures
            q.request == request,
            q.priority == request.priority,
            q.sequence == sequence,
    {
        let priority = request.priority;
        QueuedRequest { request, priority, sequence }
    }
}

/// The requests ready to be fetched, served by priority and then in the
/// order they were queued.
pub struct ReadyQueue<C> {
    items: Vec<QueuedRequest<C>>,
}

impl<C> ReadyQueue<C> {
    /// The waiting requests, in no particular order.
    pub closed spec fn contents(self) -> Seq<QueuedRequest<C>> {
        self.items@
    }

    /// No request waits.
    pub fn new() -> (q: Self)
        ensures
            q.contents() == Seq::<QueuedRequest<C>>::empty(),
    {
        ReadyQueue { items: Vec::new() }
    }

    /// The number of waiting requests.
    pub fn len(&self) -> (n: usize)
        ensures
            n == self.contents().len(),
    {
        self.items.len()
    }

    /// Whether no request waits.
    pub fn is_empty(&self) -> (b: bool)
        ensures
            b == (self.contents().len() == 0),
    {
        self.items.len() == 0
    }

    /// Adds a request.
    pub fn push(&mut self, queued: QueuedRequest<C>)
        ensures
            final(self).contents() == old(self).contents().push(queued),
    {
        self.items.push(queued);
    }

    /// Takes the request served first: none of those left is served before it.
    pub fn pop(&mut self) -> (r: Option<QueuedRequest<C>>)
        ensures
            old(self).contents().len() == 0 <==> r is None,
            r is None ==> final(self).contents() == old(self).contents(),
            r matches Some(q) ==> exists|i: int|
                0 <= i < old(self).contents().len()
                && old(self).contents()[i] == q
                && final(self).contents() == old(self).contents().remove(i),
            r matches Some(q) ==> forall|j: int|
                0 <= j < old(self).contents().len()
                ==> !served_before(#[trigger] rank_of(old(self).contents()[j]), rank_of(q)),
    {
        if self.items.len() == 0 {
            return None;
        }
        let mut best: usize = 0;
        let mut i: usize = 1;
        while i < self.items.len()
            invariant
                0 <= best < i <= self.items@.len(),
                forall|j: int| 0 <= j < i ==> !served_before(
                    #[trigger] rank_of(self.items@[j]),
                    rank_of(self.items@[best as int]),
                ),
            decreases self.items.len() - i,
        {
            let candidate = &self.items[i];
            let current = &self.items[best];
            if candidate.priority > current.priority
                || (candidate.priority == current.priority && candidate.sequence < current.sequence) {
                best = i;
            }
            i = i + 1;
        }
        let ghost before = self.items@;
        let q = self.items.remove(best);
        assert(before[best as int] == q);
        Some(q)
    }
}

/// The settings of an engine, checked.
pub struct EngineSettings {
    /// The capacity of the queue of pending requests.
    pub queue_size: usize,
    /// The limit on remembered fingerprints, if any.
    pub max_seen_requests: Option<usize>,
    /// The settings of the HTTP client.
    pub http: HttpSettings,
}

/// The capacity of the pending-request queue: the limit given, else ten per
/// worker, and at least one.
pub open spec fn queue_size_for(concurrency: usize, max_pending_requests: Option<usize>) -> int {
    let n = match max_pending_requests {
        Some(m) => m as int,
        None => concurrency * 10,
    };
    if n < 1 { 1 } else { n }
}

impl EngineSettings {
    /// Checks the settings of an engine.
    ///
    /// A limit of zero on seen or pending requests, and a concurrency of zero,
    /// are configuration errors (reported in that order). The HTTP client
    /// follows up to ten redirects.
    pub fn new(
        concurrency: usize,
        max_pending_requests: Option<usize>,
        max_seen_requests: Option<usize>,
        request_timeout: Option<Duration>,
        html_max_size_bytes: usize,
        keep_alive: bool,
    ) -> (r: SilkwormResult<Self>)
        requires
            max_pending_requests is None ==> concurrency * 10 <= usize::MAX,
        ensures
            r is Ok <==> (max_seen_requests != Some(0usize) && max_pending_requests != Some(0usize) && concurrency > 0),
            max_seen_requests == Some(0usize) ==> (r matches Err(SilkwormError::Config(m))
                && m@ == "max_seen_requests must be greater than zero when set"@),
            max_seen_requests != Some(0usize) && max_pending_requests == Some(0usize) ==> (r matches Err(SilkwormError::Config(m))
                && m@ == "max_pending_requests must be greater than zero when set"@),
            max_seen_requests != Some(0usize) && max_pending_requests != Some(0usize) && concurrency == 0
                ==> (r matches Err(SilkwormError::Config(m)) && m@ == "concurrency must be greater than zero"@),
            r matches Ok(s) ==> {
                &&& s.queue_size == queue_size_for(concurrency, max_pending_requests)
                &&& s.max_seen_requests == max_seen_requests
                &&& s.http.concurrency == concurrency
                &&& s.http.default_headers@ == Map::<Seq<char>, String>::empty()
                &&& s.http.timeout == request_timeout
                &&& s.http.html_max_size_bytes == html_max_size_bytes
                &&& s.http.follow_redirects
                &&& s.http.max_redirects == 10
                &&& s.http.keep_alive == keep_alive
            },
    {
        if max_seen_requests == Some(0usize) {
            return Err(SilkwormError::Config(owned("max_seen_requests must be greater than zero when set")));
        }
        if max_pending_requests == Some(0usize) {
            return Err(SilkwormError::Config(owned("max_pending_requests must be greater than zero when set")));
        }
        let n = match max_pending_requests {
            Some(m) => m,
            None => concurrency * 10,
        };
        let queue_size = if n < 1 { 1 } else { n };
        let http = match HttpSettings::new(concurrency, StrMap::new(), request_timeout, html_max_size_bytes, true, 10, keep_alive) {
            Ok(h) => h,
            Err(e) => {
                return Err(e);
            },
        };
        Ok(EngineSettings { queue_size, max_seen_requests, http })
    }
}

/// The counters of a crawl and the time it started.
pub struct Stats {
    start_time: Option<Instant>,
    requests_sent: usize,
    responses_received: usize,
    items_scraped: usize,
    errors: usize,
}

/// Which counter of the statistics.
pub enum Counter {
    RequestsSent,
    ResponsesReceived,
    ItemsScraped,
    Errors,
}

impl Stats {
    /// Whether the start time is set.
    pub closed spec fn started(self) -> bool {
        self.start_time is Some
    }

    /// The start time, if set.
    pub closed spec fn spec_start(self) -> Option<Instant> {
        self.start_time
    }

    /// The value of a counter.
    pub closed spec fn count(self, counter: Counter) -> usize {
        match counter {
            Counter::RequestsSent => self.requests_sent,
            Counter::ResponsesReceived => self.responses_received,
            Counter::ItemsScraped => self.items_scraped,
            Counter::Errors => self.errors,
        }
    }

    /// Nothing counted and no start time.
    pub fn new() -> (s: Self)
        ensures
            !s.started(),
            forall|c: Counter| #[trigger] s.count(c) == 0,
    {
        Stats { start_time: None, requests_sent: 0, responses_received: 0, items_scraped: 0, errors: 0 }
    }

    /// Sets the start time; a start time already set is kept.
    pub fn set_start_time(&mut self, when: Instant)
        ensures
            final(self).spec_start() == if old(self).started() { old(self).spec_start() } else { Some(when) },
            forall|c: Counter| #[trigger] final(self).count(c) == old(self).count(c),
    {
        if self.start_time.is_none() {
            self.start_time = Some(when);
        }
    }

    /// The time since the start; zero before it is set.
    pub fn elapsed(&self) -> (d: Duration)
        ensures
            !self.started() ==> d == duration_from_secs(0),
    {
        match &self.start_time {
            Some(start) => elapsed_since(start),
            None => seconds(0),
        }
    }

    /// Counts one more of `counter` (wrapping around, as an atomic counter does).
    pub fn record(&mut self, counter: Counter)
        ensures
            final(self).count(counter) == if old(self).count(counter) == usize::MAX {
                0
            } else {
                (old(self).count(counter) + 1) as usize
            },
            final(self).spec_start() == old(self).spec_start(),
            forall|c: Counter| c != counter ==> #[trigger] final(self).count(c) == old(self).count(c),
    {
        match counter {
            Counter::RequestsSent => {
                self.requests_sent = if self.requests_sent == usize::MAX { 0 } else { self.requests_sent + 1 };
            },
            Counter::ResponsesReceived => {
                self.responses_received = if self.responses_received == usize::MAX { 0 } else { self.responses_received + 1 };
            },
            Counter::ItemsScraped => {
                self.items_scraped = if self.items_scraped == usize::MAX { 0 } else { self.items_scraped + 1 };
            },
            Counter::Errors => {
                self.errors = if self.errors == usize::MAX { 0 } else { self.errors + 1 };
            },
        }
    }

    /// The value of a counter.
    pub fn get(&self, counter: Counter) -> (n: usize)
        ensures
            n == self.count(counter),
    {
        match counter {
            Counter::RequestsSent => self.requests_sent,
            Counter::ResponsesReceived => self.responses_received,
            Counter::ItemsScraped => self.items_scraped,
            Counter::Errors => self.errors,
        }
    }
}

/// Whether `request` goes ahead: one marked `dont_filter` always does;
/// any other only when its fingerprint was not seen, and it is remembered.
pub fn admit_request<C>(seen: &mut SeenRequests, request: &Request<C>) -> (admitted: bool)
    ensures
        request.dont_filter ==> admitted && *final(seen) == *old(seen),
        !request.dont_filter ==> {
            let f = fingerprint_of(request.method@, request.url@, request.params);
            &&& admitted == !old(seen).seen().contains(f)
            &&& final(seen).seen().contains(f)
            &&& final(seen).limit() == old(seen).limit()
            &&& !admitted ==> *final(seen) == *old(seen)
            &&& admitted && old(seen).limit() is None ==> final(seen).seen() == old(seen).seen().insert(f)
            &&& old(seen).limit() matches Some(m) ==> (admitted ==> final(seen).spec_order()
                == order_after_insert(old(seen).spec_order(), m as nat, f))
        },
{
    if request.dont_filter {
        return true;
    }
    let fingerprint = request_fingerprint(request);
    seen.insert_if_new(fingerprint.as_str())
}

/// The whitespace-separated words of `s`.
pub open spec fn words(s: Seq<char>) -> Seq<Seq<char>>
    decreases s.len(),
{
    if s.len() == 0 {
        Seq::empty()
    } else {
        let w = words(s.drop_last());
        let c = s.last();
        if is_white(c) {
            w
        } else if s.len() >= 2 && !is_white(s[s.len() - 2]) && w.len() > 0 {
            w.update(w.len() - 1, w.last().push(c))
        } else {
            w.push(seq![c])
        }
    }
}

/// The value of a decimal digit.
pub open spec fn digit_value(c: char) -> nat {
    (c as nat - 48) as nat
}

/// The number that the ASCII digits `s` spell.
pub open spec fn digits_value(s: Seq<char>) -> nat
    decreases s.len(),
{
    if s.len() == 0 {
        0
    } else {
        digits_value(s.drop_last()) * 10 + digit_value(s.last())
    }
}

/// `s` is one or more ASCII digits.
pub open spec fn all_digits(s: Seq<char>) -> bool {
    s.len() > 0 && forall|i: int| 0 <= i < s.len() ==> '0' <= #[trigger] s[i] && s[i] <= '9'
}

/// The `u64` that `s` spells (`str::parse::<u64>`): digits, optionally after
/// a `+`, whose value fits.
pub open spec fn parsed_u64(s: Seq<char>) -> Option<u64> {
    let digits = if s.len() > 0 && s[0] == '+' { s.drop_first() } else { s };
    if all_digits(digits) && digits_value(digits) <= u64::MAX {
        Some(digits_value(digits) as u64)
    } else {
        None
    }
}

/// The number of kilobytes on a `Label: value kB` line: its second word.
pub open spec fn kb_value(line: Seq<char>) -> Option<u64> {
    let w = words(line);
    if w.len() < 2 {
        None
    } else {
        parsed_u64(w[1])
    }
}

/// The words of `s`.
fn split_words(s: &str) -> (r: Vec<String>)
    ensures
        texts_of(r@) == words(s@),
{
    let chars = chars_of(s);
    let mut out: Vec<String> = Vec::new();
    let mut current: Vec<char> = Vec::new();
    let mut i: usize = 0;
    while i < chars.len()
        invariant
            chars@ == s@,
            i <= chars@.len(),
            current@.len() > 0 ==> i > 0 && !is_white(s@[i - 1]),
            i > 0 && !is_white(s@[i - 1]) ==> current@.len() > 0,
            current@.len() > 0 ==> words(s@.take(i as int)).len() > 0
                && texts_of(out@) == words(s@.take(i as int)).drop_last()
                && current@ == words(s@.take(i as int)).last(),
            current@.len() == 0 ==> texts_of(out@) == words(s@.take(i as int)),
        decreases chars.len() - i,
    {
        let c = chars[i];
        let ghost before = s@.take(i as int);
        assert(s@.take(i + 1).drop_last() =~= before);
        assert(s@.take(i + 1).last() == c);
        if is_white_char(c) {
            if current.len() > 0 {
                let word = crate::text::string_from_chars(&current);
                let ghost prev = texts_of(out@);
                out.push(word);
                assert(texts_of(out@) =~= prev.push(current@));
                assert(words(before) =~= words(before).drop_last().push(words(before).last()));
                current = Vec::new();
            }
        } else {
            if current.len() > 0 {
                assert(s@.take(i + 1)[i - 1] == s@[i - 1]);
            } else if i > 0 {
                assert(s@.take(i + 1)[i - 1] == s@[i - 1]);
            }
            current.push(c);
        }
        i = i + 1;
    }
    assert(s@.take(chars@.len() as int) =~= s@);
    if current.len() > 0 {
        let word = crate::text::string_from_chars(&current);
        let ghost prev = texts_of(out@);
        out.push(word);
        assert(texts_of(out@) =~= prev.push(current@));
        assert(words(s@) =~= words(s@).drop_last().push(words(s@).last()));
    }
    out
}

/// The `u64` that `s` spells (`str::parse::<u64>`).
pub fn parse_u64(s: &str) -> (r: Option<u64>)
    ensures
        r == parsed_u64(s@),
{
    let chars = chars_of(s);
    let start: usize = if chars.len() > 0 && chars[0] == '+' { 1 } else { 0 };
    let ghost digits = if s@.len() > 0 && s@[0] == '+' { s@.drop_first() } else { s@ };
    assert(digits =~= s@.skip(start as int));
    if start >= chars.len() {
        return None;
    }
    let mut value: u64 = 0;
    let mut i: usize = start;
    while i < chars.len()
        invariant
            chars@ == s@,
            start <= i <= chars@.len(),
            start < chars@.len(),
            digits == s@.skip(start as int),
            digits == if s@.len() > 0 && s@[0] == '+' { s@.drop_first() } else { s@ },
            forall|j: int| start <= j < i ==> '0' <= #[trigger] s@[j] && s@[j] <= '9',
            value == digits_value(s@.subrange(start as int, i as int)),
        decreases chars.len() - i,
    {
        let c = chars[i];
        if !('0' <= c && c <= '9') {
            assert(!all_digits(digits)) by {
                assert(digits[i - start] == c);
            }
            assert(parsed_u64(s@) is None);
            return None;
        }
        let d = (c as u32 - 48) as u64;
        assert(s@.subrange(start as int, i + 1).drop_last() =~= s@.subrange(start as int, i as int));
        if value > (u64::MAX - d) / 10 {
            proof { lemma_digits_value_grows(s@, start as int, i as int + 1, chars@.len() as int); }
            assert(!(digits_value(digits) <= u64::MAX)) by {
                assert(s@.subrange(start as int, chars@.len() as int) =~= digits);
                assert(value * 10 + d > u64::MAX) by (nonlinear_arith)
                    requires value > (u64::MAX - d) / 10, d <= 9;
                assert(digits_value(s@.subrange(start as int, i + 1)) == value * 10 + d);
            }
            assert(parsed_u64(s@) is None);
            return None;
        }
        assert(value * 10 + d <= u64::MAX) by (nonlinear_arith)
            requires value <= (u64::MAX - d) / 10, d <= 9;
        value = value * 10 + d;
        i = i + 1;
    }
    assert(s@.subrange(start as int, chars@.len() as int) =~= digits);
    Some(value)
}

/// Digits can only add to a number: the value of a longer run of digits is
/// at least that of its prefix.
proof fn lemma_digits_value_grows(s: Seq<char>, a: int, b: int, c: int)
    requires
        0 <= a <= b <= c <= s.len(),
    ensures
        digits_value(s.subrange(a, b)) <= digits_value(s.subrange(a, c)),
    decreases c - b,
{
    if b < c {
        lemma_digits_value_grows(s, a, b, c - 1);
        assert(s.subrange(a, c).drop_last() =~= s.subrange(a, c - 1));
    }
}

/// The number of kilobytes on a `Label: value kB` line.
pub fn parse_kb(line: &str) -> (r: Option<u64>)
    ensures
        r == kb_value(line@),
{
    let w = split_words(line);
    if w.len() < 2 {
        return None;
    }
    assert(texts_of(w@)[1] == w@[1]@);
    parse_u64(w[1].as_str())
}

/// `s` starts with `prefix`.
pub open spec fn starts_with_text(s: Seq<char>, prefix: Seq<char>) -> bool {
    prefix.len() <= s.len() && s.take(prefix.len() as int) == prefix
}

/// The resident and virtual memory sizes found on the `VmRSS:` and `VmSize:`
/// lines (a later line of a kind replaces an earlier one, until both are known).
pub open spec fn memory_scan(lines: Seq<Seq<char>>, rss: Option<u64>, vms: Option<u64>) -> (Option<u64>, Option<u64>)
    decreases lines.len(),
{
    if lines.len() == 0 {
        (rss, vms)
    } else {
        let l = lines[0];
        let next = if starts_with_text(l, "VmRSS:"@) {
            (kb_value(l), vms)
        } else if starts_with_text(l, "VmSize:"@) {
            (rss, kb_value(l))
        } else {
            (rss, vms)
        };
        if next.0 is Some && next.1 is Some {
            next
        } else {
            memory_scan(lines.drop_first(), next.0, next.1)
        }
    }
}

/// `kb` kilobytes in bytes, saturating.
pub open spec fn kb_bytes(kb: u64) -> u64 {
    if kb * 1024 > u64::MAX { u64::MAX } else { (kb * 1024) as u64 }
}

/// The resident and virtual memory sizes, in bytes, that a process status
/// text reports; none unless it reports both.
pub open spec fn memory_usage(status: Seq<char>) -> Option<(u64, u64)> {
    match memory_scan(line_pieces(status), None, None) {
        (Some(r), Some(v)) => Some((kb_bytes(r), kb_bytes(v))),
        _ => None,
    }
}

/// Whether the characters of `s` start with those of `prefix`.
fn starts_with_str(s: &str, prefix: &str) -> (b: bool)
    ensures
        b == starts_with_text(s@, prefix@),
{
    let a = chars_of(s);
    let p = chars_of(prefix);
    if p.len() > a.len() {
        return false;
    }
    let mut i: usize = 0;
    while i < p.len()
        invariant
            a@ == s@,
            p@ == prefix@,
            p@.len() <= a@.len(),
            i <= p@.len(),
            forall|j: int| 0 <= j < i ==> a@[j] == p@[j],
        decreases p.len() - i,
    {
        if a[i] != p[i] {
            assert(s@.take(prefix@.len() as int)[i as int] != prefix@[i as int]);
            return false;
        }
        i = i + 1;
    }
    assert(s@.take(prefix@.len() as int) =~= prefix@);
    true
}

/// The resident and virtual memory sizes, in bytes, that a process status
/// text (as `/proc/self/status` holds it) reports.
pub fn memory_usage_bytes(status: &str) -> (r: Option<(u64, u64)>)
    ensures
        r == memory_usage(status@),
{
    let lines = crate::middlewares::split_lines(status);
    let ghost pieces = line_pieces(status@);
    let mut rss: Option<u64> = None;
    let mut vms: Option<u64> = None;
    let mut i: usize = 0;
    assert(pieces.skip(0) =~= pieces);
    while i < lines.len() && !(rss.is_some() && vms.is_some())
        invariant
            texts_of(lines@) == pieces,
            pieces == line_pieces(status@),
            i <= lines@.len(),
            memory_scan(pieces, None, None) == if rss is Some && vms is Some {
                (rss, vms)
            } else {
                memory_scan(pieces.skip(i as int), rss, vms)
            },
        decreases lines.len() - i,
    {
        let line = lines[i].as_str();
        assert(pieces.skip(i as int)[0] == line@);
        assert(pieces.skip(i as int).drop_first() =~= pieces.skip(i + 1));
        if starts_with_str(line, "VmRSS:") {
            rss = parse_kb(line);
        } else if starts_with_str(line, "VmSize:") {
            vms = parse_kb(line);
        }
        i = i + 1;
    }
    assert(!(rss is Some && vms is Some) ==> pieces.skip(i as int).len() == 0);
    match (rss, vms) {
        (Some(r), Some(v)) => {
            let rb = if r > u64::MAX / 1024 { u64::MAX } else { r * 1024 };
            let vb = if v > u64::MAX / 1024 { u64::MAX } else { v * 1024 };
            Some((rb, vb))
        },
        _ => None,
    }
}

} // verus!
