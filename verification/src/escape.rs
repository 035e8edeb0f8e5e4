//! Escaping text for output formats: GitHub Actions workflow commands,
//! Markdown, HTML, JSON string content, and plain text.
use vstd::prelude::*;
use std::borrow::Cow;
use crate::text::{chars_of, push_str, string_push};

verus! {

/// Output format for escaping.
#[derive(Clone, Copy, Debug, PartialEq, Eq, Hash, Structural)]
pub enum OutputFormat {
    /// GitHub Actions workflow commands: escapes `%`, `\r`, `\n`, `:`.
    GitHubActions,
    /// Markdown content: escapes `*`, `_`, `[`, `]`, `<`, `>`, `` ` ``, `#`.
    Markdown,
    /// Plain text (terminal): no escaping.
    PlainText,
    /// HTML content: escapes `&`, `<`, `>`, `"`, `'`.
    Html,
    /// JSON string content: escapes `"`, `\`, and control characters U+0000 through U+001F.
    Json,
}

/// The control characters that JSON string content escapes: U+0000 through U+001F.
pub open spec fn is_cc(c: char) -> bool {
    (c as u32) <= 0x1f
}

/// Lowercase hexadecimal digit.
pub open spec fn hex_digit(d: int) -> char {
    if d < 10 {
        (('0' as u32) + d) as char
    } else {
        (('a' as u32) + d - 10) as char
    }
}

/// Four lowercase hexadecimal digits of `n` (which is below `0x10000`).
pub open spec fn hex4(n: int) -> Seq<char> {
    seq![
        hex_digit((n / 4096) % 16),
        hex_digit((n / 256) % 16),
        hex_digit((n / 16) % 16),
        hex_digit(n % 16),
    ]
}

/// The escape of one character in a format.
pub open spec fn escape_char(f: OutputFormat, c: char) -> Seq<char> {
    match f {
        OutputFormat::GitHubActions => if c == '%' {
            "%25"@
        } else if c == '\r' {
            "%0D"@
        } else if c == '\n' {
            "%0A"@
        } else if c == ':' {
            "%3A"@
        } else {
            seq![c]
        },
        OutputFormat::Markdown => if c == '*' || c == '_' || c == '[' || c == ']' || c == '<' || c
            == '>' || c == '`' || c == '#' {
            seq!['\\', c]
        } else {
            seq![c]
        },
        OutputFormat::PlainText => seq![c],
        OutputFormat::Html => if c == '&' {
            "&amp;"@
        } else if c == '<' {
            "&lt;"@
        } else if c == '>' {
            "&gt;"@
        } else if c == '"' {
            "&quot;"@
        } else if c == '\'' {
            "&#x27;"@
        } else {
            seq![c]
        },
        OutputFormat::Json => if c == '"' {
            seq!['\\', '"']
        } else if c == '\\' {
            seq!['\\', '\\']
        } else if c == '\n' {
            seq!['\\', 'n']
        } else if c == '\r' {
            seq!['\\', 'r']
        } else if c == '\t' {
            seq!['\\', 't']
        } else if is_cc(c) {
            seq!['\\', 'u'] + hex4(c as u32 as int)
        } else {
            seq![c]
        },
    }
}

/// Whether a character is escaped in a format.
pub open spec fn is_special(f: OutputFormat, c: char) -> bool {
    match f {
        OutputFormat::GitHubActions => c == '%' || c == '\r' || c == '\n' || c == ':',
        OutputFormat::Markdown => c == '*' || c == '_' || c == '[' || c == ']' || c == '<' || c
            == '>' || c == '`' || c == '#',
        OutputFormat::PlainText => false,
        OutputFormat::Html => c == '&' || c == '<' || c == '>' || c == '"' || c == '\'',
        OutputFormat::Json => c == '"' || c == '\\' || is_cc(c),
    }
}

/// The escape of a whole text: each character's escape, in order.
pub open spec fn escape_text(f: OutputFormat, s: Seq<char>) -> Seq<char>
    decreases s.len(),
{
    if s.len() == 0 {
        Seq::<char>::empty()
    } else {
        escape_text(f, s.drop_last()) + escape_char(f, s.last())
    }
}

/// Some character of `s` is escaped in `f`.
pub open spec fn has_special(f: OutputFormat, s: Seq<char>) -> bool {
    exists|i: int| 0 <= i < s.len() && is_special(f, #[trigger] s[i])
}

fn is_control(c: char) -> (b: bool)
    ensures
        b == is_cc(c),
{
    (c as u32) <= 0x1f
}

fn special(f: OutputFormat, c: char) -> (b: bool)
    ensures
        b == is_special(f, c),
{
    match f {
        OutputFormat::GitHubActions => c == '%' || c == '\r' || c == '\n' || c == ':',
        OutputFormat::Markdown => c == '*' || c == '_' || c == '[' || c == ']' || c == '<' || c
            == '>' || c == '`' || c == '#',
        OutputFormat::PlainText => false,
        OutputFormat::Html => c == '&' || c == '<' || c == '>' || c == '"' || c == '\'',
        OutputFormat::Json => c == '"' || c == '\\' || is_control(c),
    }
}

fn hex(d: u32) -> (c: char)
    requires
        d < 16,
    ensures
        c == hex_digit(d as int),
{
    if d < 10 {
        char_from_u32(('0' as u32) + d)
    } else {
        char_from_u32(('a' as u32) + d - 10)
    }
}

fn char_from_u32(n: u32) -> (c: char)
    requires
        (0x30 <= n && n <= 0x39) || (0x61 <= n && n <= 0x66),
    ensures
        c == n as char,
{
    if n == 0x30 {
        '0'
    } else if n == 0x31 {
        '1'
    } else if n == 0x32 {
        '2'
    } else if n == 0x33 {
        '3'
    } else if n == 0x34 {
        '4'
    } else if n == 0x35 {
        '5'
    } else if n == 0x36 {
        '6'
    } else if n == 0x37 {
        '7'
    } else if n == 0x38 {
        '8'
    } else if n == 0x39 {
        '9'
    } else if n == 0x61 {
        'a'
    } else if n == 0x62 {
        'b'
    } else if n == 0x63 {
        'c'
    } else if n == 0x64 {
        'd'
    } else if n == 0x65 {
        'e'
    } else {
        'f'
    }
}

fn push_escaped(out: &mut String, f: OutputFormat, c: char)
    ensures
        final(out)@ == old(out)@ + escape_char(f, c),
{
    match f {
        OutputFormat::GitHubActions => {
            if c == '%' {
                push_str(out, "%25");
            } else if c == '\r' {
                push_str(out, "%0D");
            } else if c == '\n' {
                push_str(out, "%0A");
            } else if c == ':' {
                push_str(out, "%3A");
            } else {
                string_push(out, c);
            }
        },
        OutputFormat::Markdown => {
            if c == '*' || c == '_' || c == '[' || c == ']' || c == '<' || c == '>' || c == '`'
                || c == '#' {
                string_push(out, '\\');
                string_push(out, c);
            } else {
                string_push(out, c);
            }
        },
        OutputFormat::PlainText => {
            string_push(out, c);
        },
        OutputFormat::Html => {
            if c == '&' {
                push_str(out, "&amp;");
            } else if c == '<' {
                push_str(out, "&lt;");
            } else if c == '>' {
                push_str(out, "&gt;");
            } else if c == '"' {
                push_str(out, "&quot;");
            } else if c == '\'' {
                push_str(out, "&#x27;");
            } else {
                string_push(out, c);
            }
        },
        OutputFormat::Json => {
            if c == '"' {
                string_push(out, '\\');
                string_push(out, '"');
            } else if c == '\\' {
                string_push(out, '\\');
                string_push(out, '\\');
            } else if c == '\n' {
                string_push(out, '\\');
                string_push(out, 'n');
            } else if c == '\r' {
                string_push(out, '\\');
                string_push(out, 'r');
            } else if c == '\t' {
                string_push(out, '\\');
                string_push(out, 't');
            } else if is_control(c) {
                let n = c as u32;
                string_push(out, '\\');
                string_push(out, 'u');
                string_push(out, hex((n / 4096) % 16));
                string_push(out, hex((n / 256) % 16));
                string_push(out, hex((n / 16) % 16));
                string_push(out, hex(n % 16));
            } else {
                string_push(out, c);
            }
        },
    }
    assert(out@ =~= old(out)@ + escape_char(f, c));
}

/// Whether some character of `s` is escaped in `f`.
fn any_special(f: OutputFormat, v: &Vec<char>) -> (b: bool)
    ensures
        b == has_special(f, v@),
{
    let mut i: usize = 0;
    while i < v.len()
        invariant
            i <= v.len(),
            forall|k: int| 0 <= k < i ==> !is_special(f, #[trigger] v@[k]),
        decreases v.len() - i,
    {
        if special(f, v[i]) {
            return true;
        }
        i = i + 1;
    }
    false
}

/// Escapes `s` for `f`, returning the input itself when nothing needs escaping.
fn escape_for(s: &str, f: OutputFormat) -> (r: Cow<'_, str>)
    ensures
        r@ == escape_text(f, s@),
        !has_special(f, s@) ==> r@ == s@,
        !has_special(f, s@) ==> r == Cow::Borrowed(s),
        r is Borrowed <==> !has_special(f, s@),
{
    let v = chars_of(s);
    if !any_special(f, &v) {
        proof {
            lemma_escape_unchanged(f, s@);
        }
        return Cow::Borrowed(s);
    }
    let mut out = String::new();
    let mut i: usize = 0;
    while i < v.len()
        invariant
            i <= v.len(),
            out@ == escape_text(f, v@.take(i as int)),
        decreases v.len() - i,
    {
        assert(v@.take(i + 1).drop_last() =~= v@.take(i as int));
        push_escaped(&mut out, f, v[i]);
        i = i + 1;
    }
    assert(v@.take(v.len() as int) =~= v@);
    Cow::Owned(out)
}

/// Escape a string for the given output format.
pub fn escape(s: &str, format: OutputFormat) -> (r: Cow<'_, str>)
    ensures
        r@ == escape_text(format, s@),
        !has_special(format, s@) ==> r@ == s@,
        !has_special(format, s@) ==> r == Cow::Borrowed(s),
        r is Borrowed <==> !has_special(format, s@),
{
    match format {
        OutputFormat::GitHubActions => escape_github(s),
        OutputFormat::Markdown => escape_markdown(s),
        OutputFormat::PlainText => escape_plain(s),
        OutputFormat::Html => escape_html(s),
        OutputFormat::Json => escape_json(s),
    }
}

/// Escape for GitHub Actions workflow commands.
pub fn escape_github(s: &str) -> (r: Cow<'_, str>)
    ensures
        r@ == escape_text(OutputFormat::GitHubActions, s@),
        !has_special(OutputFormat::GitHubActions, s@) ==> r@ == s@,
        !has_special(OutputFormat::GitHubActions, s@) ==> r == Cow::Borrowed(s),
        r is Borrowed <==> !has_special(OutputFormat::GitHubActions, s@),
{
    escape_for(s, OutputFormat::GitHubActions)
}

/// Escape for Markdown content.
pub fn escape_markdown(s: &str) -> (r: Cow<'_, str>)
    ensures
        r@ == escape_text(OutputFormat::Markdown, s@),
        !has_special(OutputFormat::Markdown, s@) ==> r@ == s@,
        !has_special(OutputFormat::Markdown, s@) ==> r == Cow::Borrowed(s),
        r is Borrowed <==> !has_special(OutputFormat::Markdown, s@),
{
    escape_for(s, OutputFormat::Markdown)
}

/// Escape for plain text: the input, unchanged.
pub fn escape_plain(s: &str) -> (r: Cow<'_, str>)
    ensures
        r@ == s@,
        r@ == escape_text(OutputFormat::PlainText, s@),
        r is Borrowed,
        r == Cow::Borrowed(s),
{
    proof {
        lemma_escape_unchanged(OutputFormat::PlainText, s@);
    }
    Cow::Borrowed(s)
}

/// Escape for HTML content.
pub fn escape_html(s: &str) -> (r: Cow<'_, str>)
    ensures
        r@ == escape_text(OutputFormat::Html, s@),
        !has_special(OutputFormat::Html, s@) ==> r@ == s@,
        !has_special(OutputFormat::Html, s@) ==> r == Cow::Borrowed(s),
        r is Borrowed <==> !has_special(OutputFormat::Html, s@),
{
    escape_for(s, OutputFormat::Html)
}

/// Escape for JSON string content.
pub fn escape_json(s: &str) -> (r: Cow<'_, str>)
    ensures
        r@ == escape_text(OutputFormat::Json, s@),
        !has_special(OutputFormat::Json, s@) ==> r@ == s@,
        !has_special(OutputFormat::Json, s@) ==> r == Cow::Borrowed(s),
        r is Borrowed <==> !has_special(OutputFormat::Json, s@),
{
    escape_for(s, OutputFormat::Json)
}

/// Check if escaping is needed for the given format.
pub fn needs_escaping(s: &str, format: OutputFormat) -> (r: bool)
    ensures
        r == has_special(format, s@),
{
    let v = chars_of(s);
    any_special(format, &v)
}

/// Text with no character that a format escapes is left as it is.
pub proof fn lemma_escape_unchanged(f: OutputFormat, s: Seq<char>)
    requires
        !has_special(f, s),
    ensures
        escape_text(f, s) == s,
    decreases s.len(),
{
    if s.len() > 0 {
        let p = s.drop_last();
        assert(!has_special(f, p)) by {
            if has_special(f, p) {
                let i = choose|i: int| 0 <= i < p.len() && is_special(f, #[trigger] p[i]);
                assert(s[i] == p[i]);
            }
        }
        lemma_escape_unchanged(f, p);
        assert(!is_special(f, s[s.len() - 1]));
        assert(s =~= p + seq![s.last()]);
    }
}

/// Escaping distributes over concatenation.
pub proof fn law_escape_concat(f: OutputFormat, a: Seq<char>, b: Seq<char>)
    ensures
        escape_text(f, a + b) == escape_text(f, a) + escape_text(f, b),
    decreases b.len(),
{
    if b.len() == 0 {
        assert(a + b =~= a);
    } else {
        law_escape_concat(f, a, b.drop_last());
        assert((a + b).drop_last() =~= a + b.drop_last());
        assert(escape_text(f, a + b) =~= escape_text(f, a) + escape_text(f, b));
    }
}

/// HTML escaping leaves no angle bracket in its output.
pub proof fn law_html_escape_has_no_angle_brackets(s: Seq<char>)
    ensures
        forall|i: int|
            0 <= i < escape_text(OutputFormat::Html, s).len() ==> #[trigger] escape_text(
                OutputFormat::Html,
                s,
            )[i] != '<' && escape_text(OutputFormat::Html, s)[i] != '>',
    decreases s.len(),
{
    reveal_strlit("&amp;");
    reveal_strlit("&lt;");
    reveal_strlit("&gt;");
    reveal_strlit("&quot;");
    reveal_strlit("&#x27;");
    if s.len() > 0 {
        law_html_escape_has_no_angle_brackets(s.drop_last());
        let p = escape_text(OutputFormat::Html, s.drop_last());
        let e = escape_char(OutputFormat::Html, s.last());
        assert(forall|j: int| 0 <= j < e.len() ==> #[trigger] e[j] != '<' && e[j] != '>');
        assert forall|i: int| 0 <= i < (p + e).len() implies #[trigger] (p + e)[i] != '<' && (p
            + e)[i] != '>' by {
            if i < p.len() {
                assert((p + e)[i] == p[i]);
            } else {
                assert((p + e)[i] == e[i - p.len()]);
            }
        }
    }
}


proof fn lemma_escape_char_len(f: OutputFormat, c: char)
    ensures
        escape_char(f, c).len() >= 1,
        is_special(f, c) ==> escape_char(f, c).len() >= 2,
        !is_special(f, c) ==> escape_char(f, c) == seq![c],
{
    reveal_strlit("%25");
    reveal_strlit("%0D");
    reveal_strlit("%0A");
    reveal_strlit("%3A");
    reveal_strlit("&amp;");
    reveal_strlit("&lt;");
    reveal_strlit("&gt;");
    reveal_strlit("&quot;");
    reveal_strlit("&#x27;");
}

proof fn lemma_escape_len(f: OutputFormat, s: Seq<char>)
    ensures
        escape_text(f, s).len() >= s.len(),
        has_special(f, s) ==> escape_text(f, s).len() > s.len(),
    decreases s.len(),
{
    if s.len() > 0 {
        let p = s.drop_last();
        lemma_escape_len(f, p);
        lemma_escape_char_len(f, s.last());
        if has_special(f, s) && !has_special(f, p) {
            let i = choose|i: int| 0 <= i < s.len() && is_special(f, #[trigger] s[i]);
            if i < p.len() {
                assert(p[i] == s[i]);
            }
        }
    }
}

/// A text needs escaping in a format exactly when escaping changes it; the
/// escaped text is then never the input borrowed.
pub proof fn law_needs_escaping_iff_changed(f: OutputFormat, s: Seq<char>)
    ensures
        has_special(f, s) <==> escape_text(f, s) != s,
        f == OutputFormat::PlainText ==> !has_special(f, s),
{
    lemma_escape_len(f, s);
    if !has_special(f, s) {
        lemma_escape_unchanged(f, s);
    }
}

} // verus!
