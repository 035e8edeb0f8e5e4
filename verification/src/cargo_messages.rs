//! The compact reading of cargo `--message-format=json` output: the
//! diagnostics of the compiler messages only, with span files taken in
//! diff form and missing lines defaulted.
use vstd::prelude::*;
use crate::diagnostics::{
    parse_level, line_results, members, read_lines, record_step, stream_of, stream_start, stream_step, text_or_else,
    Diagnostic, DiagnosticView, DiagnosticsParseError, Span, SpanView, StreamFault, StreamState,
};
use crate::inventory::text_eq;
use crate::json::{
    as_array, as_bool, as_text, as_u64, bool_of, field, parse_json, str_of, text_or, u64_of, JsonValue,
};
use crate::text::{chars_of, line_bounds, lines, push_str, string_of_range, to_string, trim_bounds};
use crate::types::{diff_form, NormPath};

verus! {

/// The span of a span object: numbers read as `u64` and cut to `u32`, a
/// missing first line read as 0 and raised to 1, a missing last line taken
/// from the first and never before it, the file in diff form.
pub open spec fn compact_span_of(j: JsonValue) -> SpanView {
    let v = Some(j);
    let start: u32 = match u64_of(field(v, "line_start"@)) {
        Some(n) => n as u32,
        None => 0,
    };
    let end: u32 = match u64_of(field(v, "line_end"@)) {
        Some(n) => n as u32,
        None => start,
    };
    let ls: u32 = if start >= 1 {
        start
    } else {
        1
    };
    SpanView {
        file: diff_form(text_or_else(field(v, "file_name"@), Seq::empty())),
        line_start: ls,
        line_end: if end > ls {
            end
        } else {
            ls
        },
        col_start: match u64_of(field(v, "column_start"@)) {
            Some(n) => Some(n as u32),
            None => None,
        },
        col_end: match u64_of(field(v, "column_end"@)) {
            Some(n) => Some(n as u32),
            None => None,
        },
        is_primary: bool_of(field(v, "is_primary"@)) == Some(true),
    }
}

/// The diagnostic of a compiler message's `message` member.
pub open spec fn compact_diagnostic_of(m: JsonValue) -> DiagnosticView {
    let mm = Some(m);
    DiagnosticView {
        level: crate::diagnostics::level_of(text_or_else(field(mm, "level"@), "other"@)),
        code_raw: str_of(field(field(mm, "code"@), "code"@)),
        message: text_or_else(field(mm, "message"@), Seq::empty()),
        spans: members(field(mm, "spans"@)).map_values(|j: JsonValue| compact_span_of(j)),
        rendered: str_of(field(mm, "rendered"@)),
    }
}

/// `Value::as_u64` cut to `u32`.
fn cut_u32(n: Option<u64>) -> (r: Option<u32>)
    ensures
        r == (match n {
            Some(x) => Some(x as u32),
            None => None::<u32>,
        }),
{
    match n {
        Some(x) => Some(x as u32),
        None => None,
    }
}

/// Reads one span object.
fn compact_span(j: &JsonValue) -> (r: Span)
    ensures
        r.deep_view() == compact_span_of(*j),
{
    let file_name = text_or(j.get("file_name"), "");
    proof {
        reveal_strlit("");
        assert(""@ =~= Seq::<char>::empty());
    }
    let start: u32 = match as_u64(j.get("line_start")) {
        Some(n) => n as u32,
        None => 0,
    };
    let end: u32 = match as_u64(j.get("line_end")) {
        Some(n) => n as u32,
        None => start,
    };
    let ls = if start >= 1 {
        start
    } else {
        1
    };
    Span {
        file: NormPath::new(file_name.as_str()),
        line_start: ls,
        line_end: if end > ls {
            end
        } else {
            ls
        },
        col_start: cut_u32(as_u64(j.get("column_start"))),
        col_end: cut_u32(as_u64(j.get("column_end"))),
        is_primary: match as_bool(j.get("is_primary")) {
            Some(b) => b,
            None => false,
        },
    }
}

/// Reads the diagnostic of a compiler message's `message` member.
pub fn compact_diagnostic(m: &JsonValue) -> (r: Diagnostic)
    ensures
        r.deep_view() == compact_diagnostic_of(*m),
{
    let raw_level = text_or(m.get("level"), "other");
    let message = text_or(m.get("message"), "");
    proof {
        reveal_strlit("");
        assert(""@ =~= Seq::<char>::empty());
    }
    let mut spans: Vec<Span> = Vec::new();
    match as_array(m.get("spans")) {
        Some(a) => {
            let mut i: usize = 0;
            while i < a.len()
                invariant
                    i <= a.len(),
                    spans.len() == i,
                    forall|k: int| 0 <= k < i ==> (#[trigger] spans@[k]).deep_view() == compact_span_of(a@[k]),
                decreases a.len() - i,
            {
                spans.push(compact_span(&a[i]));
                i = i + 1;
            }
            assert(spans.deep_view() =~= a@.map_values(|j: JsonValue| compact_span_of(j)));
        },
        None => {
            assert(spans.deep_view() =~= Seq::<JsonValue>::empty().map_values(
                |j: JsonValue| compact_span_of(j),
            ));
        },
    }
    Diagnostic {
        level: parse_level(raw_level.as_str()),
        code_raw: as_text(crate::json::get_in(m.get("code"), "code")),
        message,
        spans,
        rendered: as_text(m.get("rendered")),
    }
}

/// Once a prefix of a stream fails, the whole stream fails the same way.
proof fn lemma_prefix_fault(ls: Seq<Result<Seq<char>, Seq<char>>>, k: int)
    requires
        0 <= k <= ls.len(),
        stream_of(ls.take(k)) is Err,
    ensures
        stream_of(ls) == stream_of(ls.take(k)),
    decreases ls.len() - k,
{
    if k < ls.len() {
        assert(ls.take(k + 1).drop_last() =~= ls.take(k));
        lemma_prefix_fault(ls, k + 1);
    } else {
        assert(ls.take(k) =~= ls);
    }
}

/// The diagnostics read so far match the compiler messages of `st`.
pub open spec fn compact_ok(ds: Seq<Diagnostic>, st: StreamState) -> bool {
    &&& ds.len() == st.messages.len()
    &&& forall|i: int|
        0 <= i < ds.len() ==> (#[trigger] ds[i]).deep_view() == compact_diagnostic_of(st.messages[i].1)
}

/// What one line adds: `Ok(None)` for a line passed over, `Ok(Some(d))` for
/// a compiler message, `Err` for a line that stops the reading.
enum LineOutcome {
    Skip,
    Message(Diagnostic),
    Json(serde_json::Error),
    Shape(String),
}

/// Reads one line of text.
fn compact_line(line: &str, st: Ghost<StreamState>) -> (r: LineOutcome)
    ensures
        match stream_step(st@, Ok(line@)) {
            Ok(next) => if next.messages.len() == st@.messages.len() {
                r is Skip && next.messages == st@.messages
            } else {
                r matches LineOutcome::Message(d) && next.messages == st@.messages.push(
                    next.messages.last(),
                ) && d.deep_view() == compact_diagnostic_of(next.messages.last().1)
            },
            Err(StreamFault::Json) => r is Json,
            Err(StreamFault::Shape(m)) => r matches LineOutcome::Shape(t) && t@ == m,
        },
{
    let v = chars_of(line);
    let (a, z) = trim_bounds(&v, 0, v.len());
    assert(v@.subrange(0, v.len() as int) =~= v@);
    if a == z {
        return LineOutcome::Skip;
    }
    let doc = match parse_json(line) {
        Ok(d) => d,
        Err(e) => {
            return LineOutcome::Json(e);
        },
    };
    match compact_record(&doc) {
        Ok(None) => LineOutcome::Skip,
        Ok(Some(d)) => LineOutcome::Message(d),
        Err(t) => LineOutcome::Shape(t),
    }
}

/// What one parsed record of a stream gives: `Ok(None)` for a record passed
/// over (a `build-finished` record among them), `Ok(Some(d))` with the
/// diagnostic of a compiler message, `Err` with the text of the fault for a
/// compiler message without its message object.
pub fn compact_record(doc: &JsonValue) -> (r: Result<Option<Diagnostic>, String>)
    ensures
        match record_step(stream_start(), *doc) {
            Ok(next) => if next.messages.len() == 0 {
                r matches Ok(None)
            } else {
                r matches Ok(Some(d)) && d.deep_view() == compact_diagnostic_of(next.messages[0].1)
            },
            Err(m) => r matches Err(t) && t@ == m,
        },
{
    let reason = as_text(doc.get("reason"));
    let finished = match &reason {
        Some(t) => text_eq(t.as_str(), "build-finished"),
        None => false,
    };
    if finished {
        return Ok(None);
    }
    let message = match &reason {
        Some(t) => text_eq(t.as_str(), "compiler-message"),
        None => false,
    };
    if !message {
        return Ok(None);
    }
    match doc.get("message") {
        None => Err(to_string("missing 'message' field")),
        Some(m) => Ok(Some(compact_diagnostic(m))),
    }
}

/// Reads a cargo JSON-lines stream, given line by line as read (`Err` holds
/// the message of a read that failed), into the diagnostics of its compiler
/// messages.
pub fn parse_cargo_messages_lines(lines: &Vec<Result<String, String>>) -> (r: Result<
    Vec<Diagnostic>,
    DiagnosticsParseError,
>)
    ensures
        match stream_of(line_results(lines@)) {
            Ok(st) => r matches Ok(ds) && compact_ok(ds@, st),
            Err((n, StreamFault::Json)) => r matches Err(DiagnosticsParseError::InvalidJson { line, .. })
                && line == n,
            Err((n, StreamFault::Shape(m))) => r matches Err(
                DiagnosticsParseError::InvalidShape { line, msg },
            ) && line == n && msg@ == m,
        },
{
    let ghost ls = line_results(lines@);
    let ghost mut st = crate::diagnostics::stream_start();
    let mut out: Vec<Diagnostic> = Vec::new();
    let mut i: usize = 0;
    proof {
        assert(ls.take(0) =~= Seq::<Result<Seq<char>, Seq<char>>>::empty());
    }
    while i < lines.len()
        invariant
            i <= lines.len(),
            ls == line_results(lines@),
            stream_of(ls.take(i as int)) == Ok::<StreamState, (nat, StreamFault)>(st),
            compact_ok(out@, st),
        decreases lines.len() - i,
    {
        proof {
            assert(ls.take(i + 1).drop_last() =~= ls.take(i as int));
            assert(ls.take(i + 1).last() == ls[i as int]);
        }
        match &lines[i] {
            Err(e) => {
                let mut msg = String::new();
                push_str(&mut msg, "io error reading diagnostics stream: ");
                push_str(&mut msg, e.as_str());
                proof {
                    lemma_prefix_fault(ls, i + 1);
                }
                return Err(DiagnosticsParseError::InvalidShape { line: i + 1, msg });
            },
            Ok(l) => {
                match compact_line(l.as_str(), Ghost(st)) {
                    LineOutcome::Skip => {
                        proof {
                            st = stream_step(st, Ok(l@))->Ok_0;
                        }
                    },
                    LineOutcome::Message(d) => {
                        out.push(d);
                        proof {
                            st = stream_step(st, Ok(l@))->Ok_0;
                        }
                    },
                    LineOutcome::Json(e) => {
                        proof {
                            lemma_prefix_fault(ls, i + 1);
                        }
                        return Err(DiagnosticsParseError::InvalidJson { line: i + 1, source: e });
                    },
                    LineOutcome::Shape(m) => {
                        proof {
                            lemma_prefix_fault(ls, i + 1);
                        }
                        return Err(DiagnosticsParseError::InvalidShape { line: i + 1, msg: m });
                    },
                }
            },
        }
        i = i + 1;
    }
    proof {
        assert(ls.take(lines.len() as int) =~= ls);
    }
    Ok(out)
}

/// Reads a cargo JSON-lines text into the diagnostics of its compiler
/// messages, in order.
pub fn parse_cargo_messages(input: &str) -> (r: Result<Vec<Diagnostic>, DiagnosticsParseError>)
    ensures
        match stream_of(read_lines(input@)) {
            Ok(st) => r matches Ok(ds) && compact_ok(ds@, st),
            Err((n, StreamFault::Json)) => r matches Err(DiagnosticsParseError::InvalidJson { line, .. })
                && line == n,
            Err((n, StreamFault::Shape(m))) => r matches Err(
                DiagnosticsParseError::InvalidShape { line, msg },
            ) && line == n && msg@ == m,
        },
{
    let v = chars_of(input);
    let bounds = line_bounds(&v);
    let mut ls: Vec<Result<String, String>> = Vec::new();
    let mut i: usize = 0;
    while i < bounds.len()
        invariant
            i <= bounds.len(),
            crate::text::bounds_of_lines(bounds@, v@),
            v@ == input@,
            ls.len() == i,
            forall|k: int|
                0 <= k < i ==> ((#[trigger] ls@[k]) matches Ok(t) && t@ == lines(v@)[k]),
        decreases bounds.len() - i,
    {
        let (lo, hi) = bounds[i];
        ls.push(Ok(string_of_range(&v, lo, hi)));
        i = i + 1;
    }
    assert(line_results(ls@) =~= read_lines(input@));
    parse_cargo_messages_lines(&ls)
}

/// A span's lines as read: the first line is the message's `line_start`
/// (cut to 32 bits) when that is positive, else 1; the last line is the
/// message's `line_end` (cut to 32 bits) whenever that is not before the
/// first line, the first line where `line_end` is missing or earlier. So
/// `line_start <= line_end` always, and a multi-line span keeps its end.
pub proof fn law_compact_span_lines(j: JsonValue)
    ensures
        compact_span_of(j).line_start >= 1,
        compact_span_of(j).line_start <= compact_span_of(j).line_end,
        u64_of(field(Some(j), "line_start"@)) matches Some(n) ==> (n as u32) >= 1 ==> compact_span_of(
            j,
        ).line_start == n as u32,
        u64_of(field(Some(j), "line_start"@)) matches Some(n) ==> (n as u32) < 1 ==> compact_span_of(
            j,
        ).line_start == 1,
        u64_of(field(Some(j), "line_start"@)) is None ==> compact_span_of(j).line_start == 1,
        u64_of(field(Some(j), "line_end"@)) matches Some(n) ==> (n as u32) >= compact_span_of(
            j,
        ).line_start ==> compact_span_of(j).line_end == n as u32,
        u64_of(field(Some(j), "line_end"@)) matches Some(n) ==> (n as u32) < compact_span_of(
            j,
        ).line_start ==> compact_span_of(j).line_end == compact_span_of(j).line_start,
        u64_of(field(Some(j), "line_end"@)) is None ==> compact_span_of(j).line_end
            == compact_span_of(j).line_start,
{
}

} // verus!
