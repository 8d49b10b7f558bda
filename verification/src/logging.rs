//! Structured log lines: `key=value` pairs with quoting where needed.

use vstd::prelude::*;
use crate::text::{decimal, decimal_text, is_white, owned, push_char, to_uppercase, uppercase};
use crate::urls::opt_text;

verus! {

broadcast use vstd::string::group_string_axioms;

/// How severe a log record is.
#[derive(Clone, Copy, Debug, PartialEq, Eq, Structural)]
pub enum Level {
    Debug,
    Info,
    Warn,
    Error,
}

/// The rank of a level: higher is more severe.
pub open spec fn rank(level: Level) -> int {
    match level {
        Level::Debug => 1,
        Level::Info => 2,
        Level::Warn => 3,
        Level::Error => 4,
    }
}

/// The label of a level in a log line.
pub open spec fn label_of(level: Level) -> Seq<char> {
    match level {
        Level::Debug => "DEBUG"@,
        Level::Info => "INFO"@,
        Level::Warn => "WARN"@,
        Level::Error => "ERROR"@,
    }
}

/// The label of a level in a log line.
pub fn level_label(level: Level) -> (r: &'static str)
    ensures
        r@ == label_of(level),
{
    match level {
        Level::Debug => "DEBUG",
        Level::Info => "INFO",
        Level::Warn => "WARN",
        Level::Error => "ERROR",
    }
}

/// Whether records of `level` are written when `min_level` is the least
/// severe level written.
pub fn level_enabled(level: Level, min_level: Level) -> (b: bool)
    ensures
        b == (rank(level) >= rank(min_level)),
{
    level_rank(level) >= level_rank(min_level)
}

fn level_rank(level: Level) -> (r: u8)
    ensures
        r == rank(level),
{
    match level {
        Level::Debug => 1,
        Level::Info => 2,
        Level::Warn => 3,
        Level::Error => 4,
    }
}

/// The level a name (in any case, Unicode upper-cased) selects; `INFO` for
/// an unknown name.
pub open spec fn level_named(name: Seq<char>) -> Level {
    let n = uppercase(name);
    if n == "TRACE"@ || n == "DEBUG"@ {
        Level::Debug
    } else if n == "INFO"@ {
        Level::Info
    } else if n == "WARN"@ || n == "WARNING"@ {
        Level::Warn
    } else if n == "ERROR"@ || n == "ERR"@ || n == "FAIL"@ || n == "FATAL"@ || n == "CRITICAL"@ {
        Level::Error
    } else {
        Level::Info
    }
}

/// The level a name selects.
pub fn level_from_name(name: &str) -> (l: Level)
    ensures
        l == level_named(name@),
{
    let n = to_uppercase(name);
    let s = n.as_str();
    if crate::text::str_eq(s, "TRACE") || crate::text::str_eq(s, "DEBUG") {
        Level::Debug
    } else if crate::text::str_eq(s, "INFO") {
        Level::Info
    } else if crate::text::str_eq(s, "WARN") || crate::text::str_eq(s, "WARNING") {
        Level::Warn
    } else if crate::text::str_eq(s, "ERROR") || crate::text::str_eq(s, "ERR") || crate::text::str_eq(s, "FAIL")
        || crate::text::str_eq(s, "FATAL") || crate::text::str_eq(s, "CRITICAL") {
        Level::Error
    } else {
        Level::Info
    }
}

/// `s` with every double quote preceded by a backslash.
pub open spec fn escaped_quotes(s: Seq<char>) -> Seq<char>
    decreases s.len(),
{
    if s.len() == 0 {
        Seq::empty()
    } else if s.last() == '"' {
        escaped_quotes(s.drop_last()) + seq!['\\', '"']
    } else {
        escaped_quotes(s.drop_last()).push(s.last())
    }
}

/// `text` with every double quote preceded by a backslash.
pub fn escape(text: &str) -> (r: String)
    ensures
        r@ == escaped_quotes(text@),
{
    let chars = crate::text::chars_of(text);
    let mut out = String::new();
    let mut i: usize = 0;
    while i < chars.len()
        invariant
            chars@ == text@,
            i <= chars@.len(),
            out@ == escaped_quotes(text@.take(i as int)),
        decreases chars.len() - i,
    {
        let c = chars[i];
        if c == '"' {
            push_char(&mut out, '\\');
        }
        push_char(&mut out, c);
        assert(text@.take(i + 1).drop_last() =~= text@.take(i as int));
        i = i + 1;
    }
    assert(text@.take(chars@.len() as int) =~= text@);
    out
}

/// A value as written in a log line: quoted (with its quotes escaped) when it
/// is empty or holds whitespace or a quote, as it is otherwise.
pub open spec fn quoted_value(v: Seq<char>) -> Seq<char> {
    if v.len() == 0 {
        seq!['"', '"']
    } else if exists|i: int| 0 <= i < v.len() && (is_white(#[trigger] v[i]) || v[i] == '"') {
        seq!['"'] + escaped_quotes(v) + seq!['"']
    } else {
        v
    }
}

/// A value as written in a log line.
pub fn escape_value(value: &str) -> (r: String)
    ensures
        r@ == quoted_value(value@),
{
    let chars = crate::text::chars_of(value);
    if chars.len() == 0 {
        let mut r = String::new();
        push_char(&mut r, '"');
        push_char(&mut r, '"');
        return r;
    }
    let mut needs_quotes = false;
    let mut i: usize = 0;
    while i < chars.len()
        invariant
            chars@ == value@,
            i <= chars@.len(),
            needs_quotes == exists|j: int| 0 <= j < i && (is_white(#[trigger] value@[j]) || value@[j] == '"'),
        decreases chars.len() - i,
    {
        let c = chars[i];
        if crate::text::is_white_char(c) || c == '"' {
            needs_quotes = true;
        }
        i = i + 1;
    }
    if needs_quotes {
        let mut r = String::new();
        push_char(&mut r, '"');
        r.append(escape(value).as_str());
        push_char(&mut r, '"');
        r
    } else {
        owned(value)
    }
}

/// The context pairs of a log line, as `key=value` pieces.
pub open spec fn pair_pieces(pairs: Seq<(Seq<char>, Seq<char>)>) -> Seq<Seq<char>> {
    pairs.map_values(|p: (Seq<char>, Seq<char>)| p.0 + seq!['='] + quoted_value(p.1))
}

/// Pieces joined by single spaces.
pub open spec fn spaced(pieces: Seq<Seq<char>>) -> Seq<char>
    decreases pieces.len(),
{
    if pieces.len() == 0 {
        Seq::empty()
    } else if pieces.len() == 1 {
        pieces[0]
    } else {
        spaced(pieces.drop_last()) + seq![' '] + pieces.last()
    }
}

/// The line of a record: `ts=`, `level=`, the quoted message, then the
/// logger's context and the record's fields as `key=value`.
pub open spec fn log_line(
    timestamp: Seq<char>,
    level: Level,
    message: Seq<char>,
    context: Seq<(Seq<char>, Seq<char>)>,
    fields: Seq<(Seq<char>, Seq<char>)>,
) -> Seq<char> {
    spaced(
        seq![
            "ts="@ + timestamp,
            "level="@ + label_of(level),
            "msg=\""@ + escaped_quotes(message) + seq!['"'],
        ] + pair_pieces(context) + pair_pieces(fields),
    )
}

/// The views of field pairs.
pub open spec fn field_views(fields: Seq<(&str, String)>) -> Seq<(Seq<char>, Seq<char>)> {
    fields.map_values(|p: (&str, String)| (p.0@, p.1@))
}

/// A logger: a context of `key=value` pairs written with every record.
#[derive(Clone, Debug)]
pub struct Logger {
    context: Vec<(String, String)>,
}

/// The views of context pairs.
pub open spec fn context_views(context: Seq<(String, String)>) -> Seq<(Seq<char>, Seq<char>)> {
    context.map_values(|p: (String, String)| (p.0@, p.1@))
}

/// Appends `" " + key + "=" + value` (the space only when `out` is not empty).
fn push_pair(out: &mut String, first: bool, key: &str, value: &str)
    ensures
        first ==> final(out)@ == old(out)@ + key@ + seq!['='] + quoted_value(value@),
        !first ==> final(out)@ == old(out)@ + seq![' '] + key@ + seq!['='] + quoted_value(value@),
{
    if !first {
        push_char(out, ' ');
    }
    out.append(key);
    push_char(out, '=');
    out.append(escape_value(value).as_str());
}

impl Logger {
    /// Its context pairs, in order.
    pub closed spec fn spec_context(self) -> Seq<(Seq<char>, Seq<char>)> {
        context_views(self.context@)
    }

    /// A copy with `key=value` added to the context.
    pub fn bind(&self, key: &str, value: &str) -> (l: Logger)
        ensures
            l.spec_context() == self.spec_context().push((key@, value@)),
    {
        let mut context: Vec<(String, String)> = Vec::new();
        let mut i: usize = 0;
        while i < self.context.len()
            invariant
                i <= self.context@.len(),
                context_views(context@) == context_views(self.context@).take(i as int),
            decreases self.context.len() - i,
        {
            let (k, v) = &self.context[i];
            let ghost before = context@;
            context.push((k.clone(), v.clone()));
            assert(context_views(context@) =~= context_views(before).push((k@, v@)));
            assert(context_views(self.context@).take(i + 1) =~= context_views(self.context@).take(i as int).push((k@, v@)));
            i = i + 1;
        }
        assert(context_views(self.context@).take(self.context@.len() as int) =~= context_views(self.context@));
        let ghost before = context@;
        context.push((owned(key), owned(value)));
        assert(context_views(context@) =~= context_views(before).push((key@, value@)));
        Logger { context }
    }

    /// The line of a record at `level` with `message` and `fields`, stamped `timestamp`.
    pub fn line(&self, level: Level, message: &str, fields: &[(&str, String)], timestamp: &str) -> (r: String)
        ensures
            r@ == log_line(timestamp@, level, message@, self.spec_context(), field_views(fields@)),
    {
        let ghost head = seq![
            "ts="@ + timestamp@,
            "level="@ + label_of(level),
            "msg=\""@ + escaped_quotes(message@) + seq!['"'],
        ];
        let mut out = owned("ts=");
        out.append(timestamp);
        out.append(" level=");
        out.append(level_label(level));
        out.append(" msg=\"");
        out.append(escape(message).as_str());
        push_char(&mut out, '"');
        proof {
            reveal_strlit(" level=");
            reveal_strlit("level=");
            reveal_strlit(" msg=\"");
            reveal_strlit("msg=\"");
            let h2 = head.drop_last();
            let h1 = h2.drop_last();
            assert(h1 =~= seq![head[0]]);
            assert(spaced(h1) == head[0]);
            assert(spaced(h2) == spaced(h1) + seq![' '] + head[1]);
            assert(spaced(head) == spaced(h2) + seq![' '] + head[2]);
            assert(" level="@ =~= seq![' '] + "level="@);
            assert(" msg=\""@ =~= seq![' '] + "msg=\""@);
            assert(out@ =~= spaced(head));
        }
        let ghost ctx = pair_pieces(self.spec_context());
        let mut i: usize = 0;
        while i < self.context.len()
            invariant
                i <= self.context@.len(),
                head.len() == 3,
                ctx == pair_pieces(self.spec_context()),
                out@ == spaced(head + ctx.take(i as int)),
            decreases self.context.len() - i,
        {
            let (k, v) = &self.context[i];
            push_pair(&mut out, false, k.as_str(), v.as_str());
            assert(ctx[i as int] == k@ + seq!['='] + quoted_value(v@));
            assert((head + ctx.take(i + 1)).drop_last() =~= head + ctx.take(i as int));
            i = i + 1;
        }
        assert(ctx.take(self.context@.len() as int) =~= ctx);
        let ghost fs = pair_pieces(field_views(fields@));
        let mut j: usize = 0;
        while j < fields.len()
            invariant
                j <= fields@.len(),
                head.len() == 3,
                fs == pair_pieces(field_views(fields@)),
                out@ == spaced(head + ctx + fs.take(j as int)),
            decreases fields.len() - j,
        {
            let (k, v) = &fields[j];
            push_pair(&mut out, false, k, v.as_str());
            assert(fs[j as int] == k@ + seq!['='] + quoted_value(v@));
            assert((head + ctx + fs.take(j + 1)).drop_last() =~= head + ctx + fs.take(j as int));
            j = j + 1;
        }
        assert(fs.take(fields@.len() as int) =~= fs);
        out
    }

    /// The line of a record at `level` when `min_level` lets it through.
    pub fn log(&self, level: Level, message: &str, fields: &[(&str, String)], min_level: Level, timestamp: &str) -> (r: Option<String>)
        ensures
            rank(level) < rank(min_level) ==> r is None,
            rank(level) >= rank(min_level) ==> opt_text(r) == Some(
                log_line(timestamp@, level, message@, self.spec_context(), field_views(fields@)),
            ),
    {
        if !level_enabled(level, min_level) {
            return None;
        }
        Some(self.line(level, message, fields, timestamp))
    }

    /// The line of a debug record, when `min_level` lets it through.
    pub fn debug(&self, message: &str, fields: &[(&str, String)], min_level: Level, timestamp: &str) -> (r: Option<String>)
        ensures
            rank(min_level) > 1 ==> r is None,
            rank(min_level) <= 1 ==> opt_text(r) == Some(
                log_line(timestamp@, Level::Debug, message@, self.spec_context(), field_views(fields@)),
            ),
    {
        self.log(Level::Debug, message, fields, min_level, timestamp)
    }

    /// The line of an info record, when `min_level` lets it through.
    pub fn info(&self, message: &str, fields: &[(&str, String)], min_level: Level, timestamp: &str) -> (r: Option<String>)
        ensures
            rank(min_level) > 2 ==> r is None,
            rank(min_level) <= 2 ==> opt_text(r) == Some(
                log_line(timestamp@, Level::Info, message@, self.spec_context(), field_views(fields@)),
            ),
    {
        self.log(Level::Info, message, fields, min_level, timestamp)
    }

    /// The line of a warning record, when `min_level` lets it through.
    pub fn warn(&self, message: &str, fields: &[(&str, String)], min_level: Level, timestamp: &str) -> (r: Option<String>)
        ensures
            rank(min_level) > 3 ==> r is None,
            rank(min_level) <= 3 ==> opt_text(r) == Some(
                log_line(timestamp@, Level::Warn, message@, self.spec_context(), field_views(fields@)),
            ),
    {
        self.log(Level::Warn, message, fields, min_level, timestamp)
    }

    /// The line of an error record (always let through).
    pub fn error(&self, message: &str, fields: &[(&str, String)], min_level: Level, timestamp: &str) -> (r: Option<String>)
        ensures
            opt_text(r) == Some(log_line(timestamp@, Level::Error, message@, self.spec_context(), field_views(fields@))),
    {
        self.log(Level::Error, message, fields, min_level, timestamp)
    }
}

/// A logger whose context names `component` (when not empty) and `spider`
/// (when given).
pub fn get_logger(component: &str, spider: Option<&str>) -> (l: Logger)
    ensures
        l.spec_context() == (if component@.len() > 0 {
            seq![("component"@, component@)]
        } else {
            Seq::empty()
        }) + match spider {
            Some(s) => seq![("spider"@, s@)],
            None => Seq::empty(),
        },
{
    let mut context: Vec<(String, String)> = Vec::new();
    if !component.is_empty() {
        context.push((owned("component"), owned(component)));
    }
    match spider {
        Some(s) => {
            context.push((owned("spider"), owned(s)));
        },
        None => {},
    }
    let l = Logger { context };
    assert(l.spec_context() =~= (if component@.len() > 0 {
        seq![("component"@, component@)]
    } else {
        Seq::empty()
    }) + match spider {
        Some(s) => seq![("spider"@, s@)],
        None => Seq::empty(),
    });
    l
}

/// The date and time that `fasttime` writes for a Unix time (RFC 3339, UTC),
/// when it can represent it.
pub uninterp spec fn rfc3339_text(secs: i64, nanos: i32) -> Option<Seq<char>>;

/// Calls `fasttime::DateTime::from_unix_timestamp` and writes the result with
/// its `Display`; the contract claims the text is the named `rfc3339_text`.
#[verifier::external_body]
fn format_unix_time(secs: i64, nanos: i32) -> (r: Option<String>)
    ensures
        opt_text(r) == rfc3339_text(secs, nanos),
{
    let dt = fasttime::DateTime::from_unix_timestamp(secs, nanos).ok()?;
    Some(dt.to_string())
}

/// The timestamp of a log line for `secs` seconds and `nanos` nanoseconds
/// after the Unix epoch: the date and time, or the seconds when the date
/// cannot be represented.
pub fn timestamp_text(secs: u64, nanos: u32) -> (r: String)
    requires
        nanos < 1_000_000_000,
    ensures
        r@ == match rfc3339_text(secs as i64, nanos as i32) {
            Some(t) => t,
            None => decimal(secs as nat),
        },
{
    match format_unix_time(secs as i64, nanos as i32) {
        Some(t) => t,
        None => decimal_text(secs),
    }
}

} // verus!
