//! Fetched responses: status and header helpers, following links, and the
//! decoding of bodies into text.

use vstd::prelude::*;
use crate::headers::{header_lookup, header_value, opt_str};
use crate::request::{clone_of_callback, same_request, Request, SpiderOutput};
use crate::strmap::StrMap;
use crate::text::{
    ascii_lower_byte, contains_seq, lowercase, owned, str_contains, texts_of, to_lowercase, trim, trimmed,
};
use crate::urls::{join_or_keep, opt_text, url_joined};

verus! {

broadcast use vstd::string::group_string_axioms;

/// A fetched response and the request that asked for it.
pub struct Response<C> {
    pub url: String,
    pub status: u16,
    pub headers: StrMap<String>,
    pub body: Vec<u8>,
    pub request: Request<C>,
}

/// `href` resolved against `base` (or `href` itself when that fails).
pub open spec fn joined_url(base: Seq<char>, href: Seq<char>) -> Seq<char> {
    match url_joined(base, href) {
        Some(j) => j,
        None => href,
    }
}

/// The bytes of `hay` from `i` on match `needle` up to ASCII case.
pub open spec fn window_matches_ci(hay: Seq<u8>, needle: Seq<u8>, i: int) -> bool {
    &&& 0 <= i && i + needle.len() <= hay.len()
    &&& forall|j: int| 0 <= j < needle.len() ==> ascii_lower_byte(#[trigger] hay[i + j]) == ascii_lower_byte(needle[j])
}

/// `hay` holds `needle` (non-empty) somewhere, bytes compared up to ASCII case.
pub open spec fn contains_ci_bytes(hay: Seq<u8>, needle: Seq<u8>) -> bool {
    &&& needle.len() > 0
    &&& exists|i: int| #[trigger] window_matches_ci(hay, needle, i)
}

/// Whether `hay` contains `needle` with bytes compared up to ASCII case; an
/// empty needle is never found.
pub fn contains_ascii_case_insensitive(hay: &[u8], needle: &[u8]) -> (r: bool)
    ensures
        r == contains_ci_bytes(hay@, needle@),
{
    if needle.len() == 0 || hay.len() < needle.len() {
        return false;
    }
    let hl = hay.len();
    let mut i: usize = 0;
    while i <= hay.len() - needle.len()
        invariant
            hl == hay@.len(),
            needle@.len() > 0,
            needle@.len() <= hay@.len(),
            i <= hay@.len() - needle@.len() + 1,
            forall|k: int| 0 <= k < i ==> !#[trigger] window_matches_ci(hay@, needle@, k),
        decreases hay.len() - needle.len() + 1 - i,
    {
        let mut j: usize = 0;
        let mut same = true;
        while j < needle.len()
            invariant
                hl == hay@.len(),
                i + needle@.len() <= hay@.len(),
                j <= needle@.len(),
                same == forall|t: int| 0 <= t < j ==> ascii_lower_byte(#[trigger] hay@[i + t]) == ascii_lower_byte(needle@[t]),
            decreases needle.len() - j,
        {
            if lower_byte(hay[i + j]) != lower_byte(needle[j]) {
                same = false;
            }
            j = j + 1;
        }
        if same {
            assert(window_matches_ci(hay@, needle@, i as int));
            return true;
        }
        i = i + 1;
    }
    assert forall|k: int| !#[trigger] window_matches_ci(hay@, needle@, k) by {
        if 0 <= k < i {
        }
    }
    false
}

/// ASCII lower-casing of one byte.
fn lower_byte(b: u8) -> (r: u8)
    ensures
        r == ascii_lower_byte(b),
{
    if 65 <= b && b <= 90 {
        b + 32
    } else {
        b
    }
}

/// The first `n` bytes of `v` (all of them when shorter).
fn prefix_bytes(v: &Vec<u8>, n: usize) -> (r: Vec<u8>)
    ensures
        r@ == v@.take(if v@.len() < n { v@.len() as int } else { n as int }),
{
    let end = if v.len() < n { v.len() } else { n };
    let mut out: Vec<u8> = Vec::new();
    let mut i: usize = 0;
    while i < end
        invariant
            end <= v@.len(),
            i <= end,
            out@ == v@.take(i as int),
        decreases end - i,
    {
        out.push(v[i]);
        assert(v@.take(i + 1) =~= v@.take(i as int).push(v@[i as int]));
        i = i + 1;
    }
    out
}

impl<C> Response<C> {
    /// The status is a success (200 to 299).
    pub fn status_ok(&self) -> (b: bool)
        ensures
            b == (200 <= self.status <= 299),
    {
        200 <= self.status && self.status <= 299
    }

    /// The status is a redirect (301, 302, 303, 307 or 308).
    pub fn is_redirect(&self) -> (b: bool)
        ensures
            b == (self.status == 301 || self.status == 302 || self.status == 303 || self.status == 307
                || self.status == 308),
    {
        self.status == 301 || self.status == 302 || self.status == 303 || self.status == 307 || self.status == 308
    }

    /// The value of header `name`: an exact match first, then one equal up to ASCII case.
    pub fn header(&self, name: &str) -> (r: Option<&str>)
        ensures
            opt_str(r) == header_lookup(self.headers, name@),
    {
        header_value(&self.headers, name)
    }

    /// The `Content-Type` header.
    pub fn content_type(&self) -> (r: Option<&str>)
        ensures
            opt_str(r) == header_lookup(self.headers, "content-type"@),
    {
        header_value(&self.headers, "content-type")
    }

    /// `href` resolved against the response URL; `href` itself when either
    /// does not parse.
    pub fn url_join(&self, href: &str) -> (r: String)
        ensures
            r@ == joined_url(self.url@, href@),
    {
        join_or_keep(self.url.as_str(), href)
    }

    /// Whether the response looks like HTML: its content type says so or,
    /// failing that, its first 2048 bytes hold `<html` or `<!doctype` in any
    /// ASCII case.
    pub fn looks_like_html(&self) -> (b: bool)
        ensures
            b == looks_like_html_spec(self.headers, self.body@),
    {
        let content_type = match self.content_type() {
            Some(v) => to_lowercase(v),
            None => String::new(),
        };
        proof { reveal_strlit("html"); }
        if str_contains(content_type.as_str(), "html") {
            return true;
        }
        let snippet = prefix_bytes(&self.body, 2048);
        if snippet.len() == 0 {
            return false;
        }
        let open_html: [u8; 5] = [60, 104, 116, 109, 108];
        let doctype: [u8; 9] = [60, 33, 100, 111, 99, 116, 121, 112, 101];
        assert(open_html@ =~= html_open_bytes());
        assert(doctype@ =~= doctype_bytes());
        contains_ascii_case_insensitive(snippet.as_slice(), &open_html)
            || contains_ascii_case_insensitive(snippet.as_slice(), &doctype)
    }

    /// Drops the body and the headers.
    pub fn close(&mut self)
        ensures
            final(self).body@.len() == 0,
            final(self).headers@ == Map::<Seq<char>, String>::empty(),
            final(self).headers.pairs().len() == 0,
            final(self).url == old(self).url,
            final(self).status == old(self).status,
            final(self).request == old(self).request,
    {
        self.body = Vec::new();
        self.headers.clear();
    }
}

/// The bytes of `<html`.
pub open spec fn html_open_bytes() -> Seq<u8> {
    seq![60u8, 104, 116, 109, 108]
}

/// The bytes of `<!doctype`.
pub open spec fn doctype_bytes() -> Seq<u8> {
    seq![60u8, 33, 100, 111, 99, 116, 121, 112, 101]
}

/// Whether a response with `headers` and `body` looks like HTML.
pub open spec fn looks_like_html_spec(headers: StrMap<String>, body: Seq<u8>) -> bool {
    let content_type = match header_lookup(headers, "content-type"@) {
        Some(v) => lowercase(v),
        None => Seq::empty(),
    };
    let snippet = body.take(if body.len() < 2048 { body.len() as int } else { 2048 });
    contains_seq(content_type, "html"@) || (snippet.len() > 0 && (contains_ci_bytes(snippet, html_open_bytes())
        || contains_ci_bytes(snippet, doctype_bytes())))
}

/// `r` is a fresh GET request for `url`, with nothing else set.
pub open spec fn fresh_get<C>(r: Request<C>, url: Seq<char>) -> bool {
    &&& r.url@ == url
    &&& r.method@ == "GET"@
    &&& r.headers@ == Map::<Seq<char>, String>::empty()
    &&& r.params@ == Map::<Seq<char>, String>::empty()
    &&& r.data is None
    &&& r.json is None
    &&& r.meta@ == Map::<Seq<char>, crate::json::JsonValue>::empty()
    &&& r.timeout is None
    &&& !r.dont_filter
    &&& r.priority == 0
}

/// The characters of each string.
pub open spec fn str_views(v: Seq<&str>) -> Seq<Seq<char>> {
    v.map_values(|h: &str| h@)
}

/// The non-empty ones among `hrefs`.
pub open spec fn non_empty(hrefs: Seq<Seq<char>>) -> Seq<Seq<char>> {
    hrefs.filter(|h: Seq<char>| h.len() > 0)
}

/// The ones present among `hrefs`.
pub open spec fn present(hrefs: Seq<Option<&str>>) -> Seq<Seq<char>>
    decreases hrefs.len(),
{
    if hrefs.len() == 0 {
        Seq::empty()
    } else {
        let rest = present(hrefs.drop_last());
        match hrefs.last() {
            Some(h) => rest.push(h@),
            None => rest,
        }
    }
}

impl<C: Clone> Response<C> {
    /// A GET request for `href` resolved against this response, with the given
    /// callback or else a clone of the callback of the request answered here.
    pub fn follow(&self, href: &str, callback: Option<C>) -> (r: Request<C>)
        ensures
            fresh_get(r, joined_url(self.url@, href@)),
            callback is Some ==> r.callback == callback,
            callback is None ==> clone_of_callback(r.callback, self.request.callback),
    {
        let url = self.url_join(href);
        let mut req = Request::new(url.as_str());
        req.callback = match callback {
            Some(c) => Some(c),
            None => match &self.request.callback {
                Some(c) => Some(c.clone()),
                None => None,
            },
        };
        req
    }

    /// A GET request for `href` with the callback of the request answered here.
    pub fn follow_url(&self, href: &str) -> (r: Request<C>)
        ensures
            fresh_get(r, joined_url(self.url@, href@)),
            clone_of_callback(r.callback, self.request.callback),
    {
        self.follow(href, None)
    }

    /// A request for each non-empty `href`, in order.
    pub fn follow_urls(&self, hrefs: &[&str]) -> (r: Vec<Request<C>>)
        ensures
            r@.len() == non_empty(str_views(hrefs@)).len(),
            forall|k: int| 0 <= k < r@.len() ==> {
                &&& fresh_get(#[trigger] r@[k], joined_url(self.url@, non_empty(str_views(hrefs@))[k]))
                &&& clone_of_callback(r@[k].callback, self.request.callback)
            },
    {
        let ghost views = str_views(hrefs@);
        let ghost pred = |h: Seq<char>| h.len() > 0;
        let mut out: Vec<Request<C>> = Vec::new();
        let mut i: usize = 0;
        while i < hrefs.len()
            invariant
                i <= hrefs@.len(),
                views == str_views(hrefs@),
                pred == (|h: Seq<char>| h.len() > 0),
                out@.len() == views.take(i as int).filter(pred).len(),
                forall|k: int| 0 <= k < out@.len() ==> {
                    &&& fresh_get(#[trigger] out@[k], joined_url(self.url@, views.take(i as int).filter(pred)[k]))
                    &&& clone_of_callback(out@[k].callback, self.request.callback)
                },
            decreases hrefs.len() - i,
        {
            let href = hrefs[i];
            let ghost before = views.take(i as int);
            assert(views.take(i + 1) =~= before.push(href@));
            proof { before.lemma_filter_push(href@, pred); }
            if !href.is_empty() {
                assert(href@.len() > 0);
                out.push(self.follow_url(href));
            } else {
                assert(href@.len() == 0);
            }
            i = i + 1;
        }
        assert(views.take(hrefs@.len() as int) =~= views);
        out
    }

    /// A request for each non-empty `href`, in order.
    pub fn follow_texts(&self, hrefs: &Vec<String>) -> (r: Vec<Request<C>>)
        ensures
            r@.len() == non_empty(texts_of(hrefs@)).len(),
            forall|k: int| 0 <= k < r@.len() ==> {
                &&& fresh_get(#[trigger] r@[k], joined_url(self.url@, non_empty(texts_of(hrefs@))[k]))
                &&& clone_of_callback(r@[k].callback, self.request.callback)
            },
    {
        let ghost views = texts_of(hrefs@);
        let ghost pred = |h: Seq<char>| h.len() > 0;
        let mut out: Vec<Request<C>> = Vec::new();
        let mut i: usize = 0;
        while i < hrefs.len()
            invariant
                i <= hrefs@.len(),
                views == texts_of(hrefs@),
                pred == (|h: Seq<char>| h.len() > 0),
                out@.len() == views.take(i as int).filter(pred).len(),
                forall|k: int| 0 <= k < out@.len() ==> {
                    &&& fresh_get(#[trigger] out@[k], joined_url(self.url@, views.take(i as int).filter(pred)[k]))
                    &&& clone_of_callback(out@[k].callback, self.request.callback)
                },
            decreases hrefs.len() - i,
        {
            let href = hrefs[i].as_str();
            let ghost before = views.take(i as int);
            assert(views.take(i + 1) =~= before.push(href@));
            proof { before.lemma_filter_push(href@, pred); }
            if !href.is_empty() {
                assert(href@.len() > 0);
                out.push(self.follow_url(href));
            } else {
                assert(href@.len() == 0);
            }
            i = i + 1;
        }
        assert(views.take(hrefs@.len() as int) =~= views);
        out
    }

    /// `follow_urls`, each request wrapped as a spider output.
    pub fn follow_urls_outputs(&self, hrefs: &[&str]) -> (r: Vec<SpiderOutput<C>>)
        ensures
            r@.len() == non_empty(str_views(hrefs@)).len(),
            forall|k: int| 0 <= k < r@.len() ==> (#[trigger] r@[k] matches SpiderOutput::Request(q) && fresh_get(*q,
                joined_url(self.url@, non_empty(str_views(hrefs@))[k])) && clone_of_callback(q.callback,
                self.request.callback)),
    {
        as_outputs(self.follow_urls(hrefs))
    }

    /// A request for each present `href`, in order, each with a clone of
    /// `callback` or else of the callback of the request answered here.
    pub fn follow_all(&self, hrefs: &[Option<&str>], callback: Option<C>) -> (r: Vec<Request<C>>)
        ensures
            r@.len() == present(hrefs@).len(),
            forall|k: int| 0 <= k < r@.len() ==> {
                &&& fresh_get(#[trigger] r@[k], joined_url(self.url@, present(hrefs@)[k]))
                &&& callback is Some ==> clone_of_callback(r@[k].callback, callback)
                &&& callback is None ==> clone_of_callback(r@[k].callback, self.request.callback)
            },
    {
        let mut out: Vec<Request<C>> = Vec::new();
        let mut i: usize = 0;
        while i < hrefs.len()
            invariant
                i <= hrefs@.len(),
                out@.len() == present(hrefs@.take(i as int)).len(),
                forall|k: int| 0 <= k < out@.len() ==> {
                    &&& fresh_get(#[trigger] out@[k], joined_url(self.url@, present(hrefs@.take(i as int))[k]))
                    &&& callback is Some ==> clone_of_callback(out@[k].callback, callback)
                    &&& callback is None ==> clone_of_callback(out@[k].callback, self.request.callback)
                },
            decreases hrefs.len() - i,
        {
            assert(hrefs@.take(i + 1).drop_last() =~= hrefs@.take(i as int));
            match hrefs[i] {
                Some(href) => {
                    let cb = match &callback {
                        Some(c) => Some(c.clone()),
                        None => None,
                    };
                    out.push(self.follow(href, cb));
                },
                None => {},
            }
            i = i + 1;
        }
        assert(hrefs@.take(hrefs@.len() as int) =~= hrefs@);
        out
    }

    /// A request for each non-empty `href`, in order, each with a clone of
    /// `callback` or else of the callback of the request answered here.
    pub fn follow_many(&self, hrefs: &[&str], callback: Option<C>) -> (r: Vec<Request<C>>)
        ensures
            r@.len() == non_empty(str_views(hrefs@)).len(),
            forall|k: int| 0 <= k < r@.len() ==> {
                &&& fresh_get(#[trigger] r@[k], joined_url(self.url@, non_empty(str_views(hrefs@))[k]))
                &&& callback is Some ==> clone_of_callback(r@[k].callback, callback)
                &&& callback is None ==> clone_of_callback(r@[k].callback, self.request.callback)
            },
    {
        let ghost views = str_views(hrefs@);
        let ghost pred = |h: Seq<char>| h.len() > 0;
        let mut out: Vec<Request<C>> = Vec::new();
        let mut i: usize = 0;
        while i < hrefs.len()
            invariant
                i <= hrefs@.len(),
                views == str_views(hrefs@),
                pred == (|h: Seq<char>| h.len() > 0),
                out@.len() == views.take(i as int).filter(pred).len(),
                forall|k: int| 0 <= k < out@.len() ==> {
                    &&& fresh_get(#[trigger] out@[k], joined_url(self.url@, views.take(i as int).filter(pred)[k]))
                    &&& callback is Some ==> clone_of_callback(out@[k].callback, callback)
                    &&& callback is None ==> clone_of_callback(out@[k].callback, self.request.callback)
                },
            decreases hrefs.len() - i,
        {
            let href = hrefs[i];
            let ghost before = views.take(i as int);
            assert(views.take(i + 1) =~= before.push(href@));
            proof { before.lemma_filter_push(href@, pred); }
            if !href.is_empty() {
                assert(href@.len() > 0);
                let cb = match &callback {
                    Some(c) => Some(c.clone()),
                    None => None,
                };
                out.push(self.follow(href, cb));
            } else {
                assert(href@.len() == 0);
            }
            i = i + 1;
        }
        assert(views.take(hrefs@.len() as int) =~= views);
        out
    }
}

/// Each request wrapped as a spider output, in order.
pub fn as_outputs<C>(requests: Vec<Request<C>>) -> (r: Vec<SpiderOutput<C>>)
    ensures
        r@.len() == requests@.len(),
        forall|k: int| 0 <= k < r@.len() ==> #[trigger] r@[k] == SpiderOutput::Request(Box::new(requests@[k])),
{
    let ghost original = requests@;
    let mut rest = requests;
    let mut reversed: Vec<SpiderOutput<C>> = Vec::new();
    while rest.len() > 0
        invariant
            rest@.len() + reversed@.len() == original.len(),
            rest@ == original.take(rest@.len() as int),
            forall|k: int| 0 <= k < reversed@.len() ==> #[trigger] reversed@[k] == SpiderOutput::Request(
                Box::new(original[original.len() - 1 - k]),
            ),
        decreases rest@.len(),
    {
        let q = rest.pop().unwrap();
        reversed.push(SpiderOutput::from_request(q));
    }
    let mut out: Vec<SpiderOutput<C>> = Vec::new();
    while reversed.len() > 0
        invariant
            out@.len() + reversed@.len() == original.len(),
            forall|k: int| 0 <= k < reversed@.len() ==> #[trigger] reversed@[k] == SpiderOutput::Request(
                Box::new(original[original.len() - 1 - k]),
            ),
            forall|k: int| 0 <= k < out@.len() ==> #[trigger] out@[k] == SpiderOutput::Request(Box::new(original[k])),
        decreases reversed@.len(),
    {
        let o = reversed.pop().unwrap();
        out.push(o);
    }
    out
}

/// The pattern whose first group is the charset named in a content type.
pub const CONTENT_TYPE_CHARSET_PATTERN: &'static str = "(?i)charset=([^\"'\\s;]+)";

/// The pattern whose first group is the charset of a `<meta charset=...>` tag.
pub const META_CHARSET_PATTERN: &'static str = "(?i)<meta\\s+charset\\s*=\\s*['\"]?([a-zA-Z0-9._:-]+)";

/// The pattern whose first group is the charset of a
/// `<meta http-equiv="content-type" content="...; charset=...">` tag.
pub const META_CONTENT_TYPE_CHARSET_PATTERN: &'static str =
    "(?i)<meta\\s+http-equiv\\s*=\\s*['\"]?content-type['\"]?[^>]*charset\\s*=\\s*['\"]?([a-zA-Z0-9._:-]+)";

/// The pattern whose first group is the encoding of an `<?xml ... encoding="..."?>` declaration.
pub const XML_ENCODING_PATTERN: &'static str = "(?i)<\\?xml[^>]+encoding\\s*=\\s*['\"]([a-zA-Z0-9._:-]+)['\"]";

/// The text of the first capture group of the first match of the regular
/// expression `pattern` in `text` (`regex::Regex::new` then `captures`);
/// `None` when the pattern does not compile, nothing matches, or the group
/// took no part in the match.
pub uninterp spec fn regex_first_capture(pattern: Seq<char>, text: Seq<char>) -> Option<Seq<char>>;

/// The charset a content type names.
pub open spec fn content_type_charset(content_type: Seq<char>) -> Option<Seq<char>> {
    regex_first_capture(CONTENT_TYPE_CHARSET_PATTERN@, content_type)
}

/// The charset of the first `<meta charset=...>` tag.
pub open spec fn meta_charset(head: Seq<char>) -> Option<Seq<char>> {
    regex_first_capture(META_CHARSET_PATTERN@, head)
}

/// The charset of the first `<meta http-equiv="content-type" ...>` tag.
pub open spec fn meta_content_type_charset(head: Seq<char>) -> Option<Seq<char>> {
    regex_first_capture(META_CONTENT_TYPE_CHARSET_PATTERN@, head)
}

/// The encoding of an `<?xml ...?>` declaration.
pub open spec fn xml_declared_encoding(head: Seq<char>) -> Option<Seq<char>> {
    regex_first_capture(XML_ENCODING_PATTERN@, head)
}

/// The text of `bytes` read as UTF-8, each invalid sequence replaced by U+FFFD.
pub uninterp spec fn utf8_lossy(bytes: Seq<u8>) -> Seq<char>;

/// The text of `body` decoded with the encoding that `label` names, with
/// that encoding's canonical name; `None` when `label` names none.
pub uninterp spec fn decoded_with_label(body: Seq<u8>, label: Seq<char>) -> Option<(Seq<char>, Seq<char>)>;

/// Calls `regex::Regex::new(pattern)` and, when it compiles, `captures` on
/// `text`; the contract claims the text of group 1 is the named
/// `regex_first_capture`.
#[verifier::external_body]
fn first_capture(pattern: &str, text: &str) -> (r: Option<String>)
    ensures
        opt_text(r) == regex_first_capture(pattern@, text@),
{
    let re = regex::Regex::new(pattern).ok()?;
    let caps = re.captures(text)?;
    caps.get(1).map(|m| m.as_str().to_owned())
}

/// Calls `String::from_utf8_lossy`; the contract claims its text is the named
/// `utf8_lossy` of the bytes.
#[verifier::external_body]
fn lossy_text(bytes: &[u8]) -> (r: String)
    ensures
        r@ == utf8_lossy(bytes@),
{
    String::from_utf8_lossy(bytes).into_owned()
}

/// Calls `encoding_rs::Encoding::for_label` on the bytes of `label` and, for
/// an encoding found, `Encoding::decode` on `body` and `Encoding::name`; the
/// contract claims the text and name are the named `decoded_with_label`.
#[verifier::external_body]
fn decode_with_label(body: &[u8], label: &str) -> (r: Option<(String, String)>)
    ensures
        match r {
            Some((text, name)) => decoded_with_label(body@, label@) == Some((text@, name@)),
            None => decoded_with_label(body@, label@) is None,
        },
{
    let encoding = encoding_rs::Encoding::for_label(label.as_bytes())?;
    let (text, _, _) = encoding.decode(body);
    Some((text.into_owned(), encoding.name().to_owned()))
}

/// `body` starts with `prefix`.
pub open spec fn starts_with_bytes(body: Seq<u8>, prefix: Seq<u8>) -> bool {
    prefix.len() <= body.len() && body.take(prefix.len() as int) == prefix
}

/// The encoding that a byte-order mark at the start of `body` announces.
pub open spec fn bom_encoding(body: Seq<u8>) -> Option<Seq<char>> {
    if starts_with_bytes(body, seq![0xEFu8, 0xBB, 0xBF]) {
        Some("utf-8"@)
    } else if starts_with_bytes(body, seq![0xFFu8, 0xFE, 0x00, 0x00]) {
        Some("utf-32le"@)
    } else if starts_with_bytes(body, seq![0x00u8, 0x00, 0xFE, 0xFF]) {
        Some("utf-32be"@)
    } else if starts_with_bytes(body, seq![0xFFu8, 0xFE]) {
        Some("utf-16le"@)
    } else if starts_with_bytes(body, seq![0xFEu8, 0xFF]) {
        Some("utf-16be"@)
    } else {
        None
    }
}

/// Whether `body` starts with the bytes `p`.
fn starts_with(body: &[u8], p: &[u8]) -> (r: bool)
    ensures
        r == starts_with_bytes(body@, p@),
{
    if p.len() > body.len() {
        return false;
    }
    let mut i: usize = 0;
    while i < p.len()
        invariant
            p@.len() <= body@.len(),
            i <= p@.len(),
            forall|j: int| 0 <= j < i ==> body@[j] == p@[j],
        decreases p.len() - i,
    {
        if body[i] != p[i] {
            assert(body@.take(p@.len() as int)[i as int] != p@[i as int]);
            return false;
        }
        i = i + 1;
    }
    assert(body@.take(p@.len() as int) =~= p@);
    true
}

/// The encoding that a byte-order mark at the start of `body` announces.
pub fn encoding_from_bom(body: &[u8]) -> (r: Option<String>)
    ensures
        opt_text(r) == bom_encoding(body@),
{
    let utf8: [u8; 3] = [0xEF, 0xBB, 0xBF];
    let utf32le: [u8; 4] = [0xFF, 0xFE, 0x00, 0x00];
    let utf32be: [u8; 4] = [0x00, 0x00, 0xFE, 0xFF];
    let utf16le: [u8; 2] = [0xFF, 0xFE];
    let utf16be: [u8; 2] = [0xFE, 0xFF];
    assert(utf8@ =~= seq![0xEFu8, 0xBB, 0xBF]);
    assert(utf32le@ =~= seq![0xFFu8, 0xFE, 0x00, 0x00]);
    assert(utf32be@ =~= seq![0x00u8, 0x00, 0xFE, 0xFF]);
    assert(utf16le@ =~= seq![0xFFu8, 0xFE]);
    assert(utf16be@ =~= seq![0xFEu8, 0xFF]);
    if starts_with(body, &utf8) {
        Some(owned("utf-8"))
    } else if starts_with(body, &utf32le) {
        Some(owned("utf-32le"))
    } else if starts_with(body, &utf32be) {
        Some(owned("utf-32be"))
    } else if starts_with(body, &utf16le) {
        Some(owned("utf-16le"))
    } else if starts_with(body, &utf16be) {
        Some(owned("utf-16be"))
    } else {
        None
    }
}

/// The charset that the `Content-Type` header names.
pub open spec fn header_encoding(headers: StrMap<String>) -> Option<Seq<char>> {
    match header_lookup(headers, "content-type"@) {
        Some(ct) => content_type_charset(ct),
        None => None,
    }
}

/// The charset that the `Content-Type` header names.
pub fn encoding_from_headers(headers: &StrMap<String>) -> (r: Option<String>)
    ensures
        opt_text(r) == header_encoding(*headers),
{
    match header_value(headers, "content-type") {
        Some(ct) => first_capture(CONTENT_TYPE_CHARSET_PATTERN, ct),
        None => None,
    }
}

/// The first 4096 bytes of `body` read as UTF-8.
pub open spec fn body_head(body: Seq<u8>) -> Seq<char> {
    utf8_lossy(body.take(if body.len() < 4096 { body.len() as int } else { 4096 }))
}

/// The encoding that the start of an HTML or XML document declares: a
/// `<meta charset>`, else a `<meta http-equiv="content-type">`, else an XML
/// declaration.
pub open spec fn meta_encoding(body: Seq<u8>) -> Option<Seq<char>> {
    let head = body_head(body);
    if meta_charset(head) is Some {
        meta_charset(head)
    } else if meta_content_type_charset(head) is Some {
        meta_content_type_charset(head)
    } else {
        xml_declared_encoding(head)
    }
}

/// The encoding that the start of `body` declares.
pub fn encoding_from_meta(body: &Vec<u8>) -> (r: Option<String>)
    ensures
        opt_text(r) == meta_encoding(body@),
{
    let head_bytes = prefix_bytes(body, 4096);
    let head = lossy_text(head_bytes.as_slice());
    match first_capture(META_CHARSET_PATTERN, head.as_str()) {
        Some(c) => Some(c),
        None => match first_capture(META_CONTENT_TYPE_CHARSET_PATTERN, head.as_str()) {
            Some(c) => Some(c),
            None => first_capture(XML_ENCODING_PATTERN, head.as_str()),
        },
    }
}

/// The candidates for the body's encoding, in order of trust: byte-order
/// mark, header, then what the document declares.
pub open spec fn encoding_candidates(body: Seq<u8>, headers: StrMap<String>) -> Seq<Seq<char>> {
    let a = match bom_encoding(body) { Some(e) => seq![e], None => Seq::empty() };
    let b = match header_encoding(headers) { Some(e) => seq![e], None => Seq::empty() };
    let c = match meta_encoding(body) { Some(e) => seq![e], None => Seq::empty() };
    a + b + c
}

/// A candidate label as it is looked up: trimmed and lower-cased.
pub open spec fn normalized_label(label: Seq<char>) -> Seq<char> {
    lowercase(trimmed(label))
}

/// The first of `candidates` (skipping empty and already tried labels) that
/// names an encoding decodes `body`; with none, the body is read as UTF-8.
pub open spec fn decode_with_candidates(body: Seq<u8>, candidates: Seq<Seq<char>>, tried: Set<Seq<char>>) -> (Seq<char>, Seq<char>)
    decreases candidates.len(),
{
    if candidates.len() == 0 {
        (utf8_lossy(body), "utf-8"@)
    } else {
        let label = normalized_label(candidates[0]);
        if label.len() == 0 || tried.contains(label) {
            decode_with_candidates(body, candidates.drop_first(), tried)
        } else {
            match decoded_with_label(body, label) {
                Some(r) => r,
                None => decode_with_candidates(body, candidates.drop_first(), tried.insert(label)),
            }
        }
    }
}

/// The text of `body` and the name of the encoding it was read with.
pub open spec fn decoded_body(body: Seq<u8>, headers: StrMap<String>) -> (Seq<char>, Seq<char>) {
    if body.len() == 0 {
        (Seq::empty(), "utf-8"@)
    } else {
        decode_with_candidates(body, encoding_candidates(body, headers), Set::empty())
    }
}

/// Decodes `body`: with the encoding its byte-order mark, its headers or its
/// markup name (the first that is known), else as UTF-8 with replacements.
pub fn decode_body(body: &Vec<u8>, headers: &StrMap<String>) -> (r: (String, String))
    ensures
        (r.0@, r.1@) == decoded_body(body@, *headers),
{
    if body.len() == 0 {
        return (String::new(), owned("utf-8"));
    }
    let mut candidates: Vec<String> = Vec::new();
    match encoding_from_bom(body.as_slice()) {
        Some(e) => candidates.push(e),
        None => {},
    }
    match encoding_from_headers(headers) {
        Some(e) => candidates.push(e),
        None => {},
    }
    match encoding_from_meta(body) {
        Some(e) => candidates.push(e),
        None => {},
    }
    let ghost all = texts_of(candidates@);
    assert(all =~= encoding_candidates(body@, *headers));
    let mut tried: Vec<String> = Vec::new();
    assert(all.skip(0) =~= all);
    assert(texts_of(tried@).to_set() =~= Set::<Seq<char>>::empty());
    let mut i: usize = 0;
    while i < candidates.len()
        invariant
            i <= candidates@.len(),
            all == texts_of(candidates@),
            decoded_body(body@, *headers) == decode_with_candidates(body@, all.skip(i as int), texts_of(tried@).to_set()),
            body@.len() > 0,
        decreases candidates.len() - i,
    {
        let ghost rest = all.skip(i as int);
        assert(rest.drop_first() =~= all.skip(i + 1));
        assert(rest[0] == candidates@[i as int]@);
        let label = to_lowercase(trim(candidates[i].as_str()).as_str());
        if !label.as_str().is_empty() && !contains_text(&tried, label.as_str()) {
            match decode_with_label(body.as_slice(), label.as_str()) {
                Some(r) => {
                    return r;
                },
                None => {
                    let ghost before = texts_of(tried@);
                    tried.push(label);
                    assert(texts_of(tried@) =~= before.push(label@));
                    proof { lemma_push_to_set(before, label@); }
                },
            }
        }
        i = i + 1;
    }
    (lossy_text(body.as_slice()), owned("utf-8"))
}

/// Adding an element to a sequence adds it to its set.
proof fn lemma_push_to_set(s: Seq<Seq<char>>, x: Seq<char>)
    ensures
        s.push(x).to_set() == s.to_set().insert(x),
{
    let t = s.push(x);
    assert forall|y: Seq<char>| #[trigger] t.to_set().contains(y) == s.to_set().insert(x).contains(y) by {
        if t.contains(y) {
            let j = choose|j: int| 0 <= j < t.len() && t[j] == y;
            if j < s.len() {
                assert(s[j] == y);
            }
        }
        if s.contains(y) {
            let j = choose|j: int| 0 <= j < s.len() && s[j] == y;
            assert(t[j] == y);
        }
        if y == x {
            assert(t[s.len() as int] == y);
        }
    }
    assert(t.to_set() =~= s.to_set().insert(x));
}

/// Whether one of `v` holds the characters of `s`.
fn contains_text(v: &Vec<String>, s: &str) -> (r: bool)
    ensures
        r == texts_of(v@).to_set().contains(s@),
{
    let mut i: usize = 0;
    while i < v.len()
        invariant
            i <= v@.len(),
            forall|j: int| 0 <= j < i ==> v@[j]@ != s@,
        decreases v.len() - i,
    {
        if crate::text::str_eq(v[i].as_str(), s) {
            assert(texts_of(v@)[i as int] == s@);
            return true;
        }
        i = i + 1;
    }
    assert(!texts_of(v@).contains(s@)) by {
        if texts_of(v@).contains(s@) {
            let j = choose|j: int| 0 <= j < texts_of(v@).len() && texts_of(v@)[j] == s@;
            assert(v@[j]@ == s@);
        }
    }
    false
}

impl<C> Response<C> {
    /// The body as text, in the encoding found for it.
    pub fn text(&self) -> (r: String)
        ensures
            r@ == decoded_body(self.body@, self.headers).0,
    {
        decode_body(&self.body, &self.headers).0
    }

    /// The name of the encoding the body is read with.
    pub fn encoding(&self) -> (r: String)
        ensures
            r@ == decoded_body(self.body@, self.headers).1,
    {
        decode_body(&self.body, &self.headers).1
    }
}

impl<C: Clone> Clone for Response<C> {
    /// A copy of every field; the request is cloned.
    fn clone(&self) -> (r: Self)
        ensures
            r.url@ == self.url@,
            r.status == self.status,
            r.headers.key_seq() == self.headers.key_seq(),
            r.headers.texts() == self.headers.texts(),
            r.body@ == self.body@,
            same_request(self.request, r.request),
            clone_of_callback(r.request.callback, self.request.callback),
    {
        let body = self.body.clone();
        assert(body@ =~= self.body@);
        Response {
            url: self.url.clone(),
            status: self.status,
            headers: self.headers.copy(),
            body,
            request: self.request.clone(),
        }
    }
}

} // verus!
