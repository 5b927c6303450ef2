//! Error types and parse-diagnostic helpers: a detailed parse error with
//! 1-indexed position, snippet and suggestion; the library error type; and
//! the enhancement pass that turns a raw parse error plus the source text
//! into a positioned, annotated diagnostic.

use vstd::prelude::*;
use vstd::string::StrSliceExecFns;
use vstd::string::StringExecFns;
use crate::naming::spec_lower_char;
use crate::strutil::{
    contains_sub, push_char, spec_decimal, spec_join, spec_split_on, split_on, str_contains,
    join_strings, u64_to_string,
};

verus! {

/// Detailed parse error with position and context.
#[derive(Debug, Clone, PartialEq)]
pub struct ParseErrorDetail {
    /// Human-readable error message.
    pub message: String,
    /// Line number, 1-indexed.
    pub line: usize,
    /// Column number, 1-indexed.
    pub column: usize,
    /// Optional code snippet showing the error location.
    pub snippet: Option<String>,
    /// Optional suggestion for fixing the error.
    pub suggestion: Option<String>,
    /// The problematic token text, if available.
    pub token: Option<String>,
}

/// The text an optional string stands for.
pub open spec fn opt_view(o: Option<String>) -> Option<Seq<char>> {
    match o {
        Some(s) => Some(s@),
        None => None,
    }
}

impl ParseErrorDetail {
    /// A detail with the given message and position, and nothing else yet.
    pub fn new(message: String, line: usize, column: usize) -> (r: Self)
        ensures
            r.message == message,
            r.line == line,
            r.column == column,
            r.snippet is None,
            r.suggestion is None,
            r.token is None,
    {
        ParseErrorDetail { message, line, column, snippet: None, suggestion: None, token: None }
    }

    /// The detail with a snippet attached.
    pub fn with_snippet(self, snippet: String) -> (r: Self)
        ensures
            r == (ParseErrorDetail { snippet: Some(snippet), ..self }),
    {
        let mut d = self;
        d.snippet = Some(snippet);
        d
    }

    /// The detail with a suggestion attached.
    pub fn with_suggestion(self, suggestion: String) -> (r: Self)
        ensures
            r == (ParseErrorDetail { suggestion: Some(suggestion), ..self }),
    {
        let mut d = self;
        d.suggestion = Some(suggestion);
        d
    }

    /// The detail with the offending token attached.
    pub fn with_token(self, token: String) -> (r: Self)
        ensures
            r == (ParseErrorDetail { token: Some(token), ..self }),
    {
        let mut d = self;
        d.token = Some(token);
        d
    }
}

/// The library's error type.
#[derive(Debug, Clone, PartialEq)]
pub enum ChameleonError {
    /// Parse error with detailed position information.
    ParseError(ParseErrorDetail),
    /// Validation error (type checking and the like).
    ValidationError(String),
    /// Internal error; should not arise in normal use.
    InternalError(String),
}

impl ChameleonError {
    /// The error rendered as a message.
    pub fn message(&self) -> (r: String)
        ensures
            (match *self {
                ChameleonError::ParseError(d) => r@ == "Parse error at line "@ + spec_decimal(
                    d.line as nat,
                ) + ", column "@ + spec_decimal(d.column as nat) + ": "@ + d.message@,
                ChameleonError::ValidationError(m) => r@ == "Validation error: "@ + m@,
                ChameleonError::InternalError(m) => r@ == "Internal error: "@ + m@,
            }),
    {
        match self {
            ChameleonError::ParseError(d) => {
                let mut m = String::from_str("Parse error at line ");
                let line = u64_to_string(d.line as u64);
                m.append(line.as_str());
                m.append(", column ");
                let col = u64_to_string(d.column as u64);
                m.append(col.as_str());
                m.append(": ");
                m.append(d.message.as_str());
                m
            },
            ChameleonError::ValidationError(msg) => {
                let mut m = String::from_str("Validation error: ");
                m.append(msg.as_str());
                m
            },
            ChameleonError::InternalError(msg) => {
                let mut m = String::from_str("Internal error: ");
                m.append(msg.as_str());
                m
            },
        }
    }
}

// ─── Raw parse errors from plain values ───

/// The raw diagnostic for an invalid token at a byte offset.
pub fn invalid_token_error(location: usize) -> (r: ChameleonError)
    requires
        location < usize::MAX,
    ensures
        (r matches ChameleonError::ParseError(d) && d.message@ == "Invalid token"@ && d.line
            == 1 && d.column == location + 1 && d.snippet is None && d.suggestion is None
            && d.token is None),
{
    ChameleonError::ParseError(
        ParseErrorDetail::new(String::from_str("Invalid token"), 1, location + 1),
    )
}

/// The message naming the expected alternatives, appended to a stem.
pub open spec fn spec_expected_msg(stem: Seq<char>, expected: Seq<Seq<char>>) -> Seq<char> {
    if expected.len() == 0 {
        stem
    } else {
        stem + ", expected one of: "@ + spec_join(expected, ", "@)
    }
}

/// The raw diagnostic for an unexpected end of file, with the expected
/// alternatives and a brace hint.
pub fn unrecognized_eof_error(location: usize, expected: &Vec<String>) -> (r: ChameleonError)
    requires
        location < usize::MAX,
    ensures
        (r matches ChameleonError::ParseError(d) && d.message@ == spec_expected_msg(
            "Unexpected end of file"@,
            expected@.map_values(|e: String| e@),
        ) && d.line == 1 && d.column == location + 1 && d.snippet is None && opt_view(
            d.suggestion,
        ) == Some("Check if you're missing a closing brace }"@) && d.token is None),
{
    let message = if expected.len() == 0 {
        String::from_str("Unexpected end of file")
    } else {
        let mut m = String::from_str("Unexpected end of file");
        m.append(", expected one of: ");
        let joined = join_strings(expected, ", ");
        m.append(joined.as_str());
        m
    };
    ChameleonError::ParseError(
        ParseErrorDetail::new(message, 1, location + 1).with_suggestion(
            String::from_str("Check if you're missing a closing brace }"),
        ),
    )
}

/// The raw diagnostic for an unexpected token, with the expected
/// alternatives and the token text attached.
pub fn unrecognized_token_error(location: usize, token_text: &str, expected: &Vec<String>)
    -> (r: ChameleonError)
    requires
        location < usize::MAX,
    ensures
        (r matches ChameleonError::ParseError(d) && d.message@ == spec_expected_msg(
            "Unexpected token: "@ + token_text@,
            expected@.map_values(|e: String| e@),
        ) && d.line == 1 && d.column == location + 1 && d.snippet is None && d.suggestion
            is None && opt_view(d.token) == Some(token_text@)),
{
    let message = if expected.len() == 0 {
        let mut m = String::from_str("Unexpected token: ");
        m.append(token_text);
        m
    } else {
        let mut m = String::from_str("Unexpected token: ");
        m.append(token_text);
        m.append(", expected one of: ");
        let joined = join_strings(expected, ", ");
        m.append(joined.as_str());
        m
    };
    ChameleonError::ParseError(
        ParseErrorDetail::new(message, 1, location + 1).with_token(
            String::from_str(token_text),
        ),
    )
}

/// The raw diagnostic for an extra token after the input should have
/// ended.
pub fn extra_token_error(location: usize, token_text: &str) -> (r: ChameleonError)
    requires
        location < usize::MAX,
    ensures
        (r matches ChameleonError::ParseError(d) && d.message@ == "Extra unexpected token: "@
            + token_text@ && d.line == 1 && d.column == location + 1 && d.snippet is None
            && d.suggestion is None && d.token is None),
{
    let mut m = String::from_str("Extra unexpected token: ");
    m.append(token_text);
    ChameleonError::ParseError(ParseErrorDetail::new(m, 1, location + 1))
}

// ─── Position and snippet helpers ───

/// The 1-indexed line and column after walking the first `n` characters
/// of `s`: a newline advances the line and resets the column.
pub open spec fn spec_line_col(s: Seq<char>, n: int) -> (int, int)
    decreases n,
{
    if n <= 0 {
        (1, 1)
    } else {
        let prev = spec_line_col(s, n - 1);
        if s[n - 1] == '\n' {
            (prev.0 + 1, 1)
        } else {
            (prev.0, prev.1 + 1)
        }
    }
}

/// Convert a character offset in the source text to a 1-indexed line and
/// column; an offset past the end stops at the end.
pub fn offset_to_position(source: &str, offset: usize) -> (r: (usize, usize))
    requires
        source@.len() < usize::MAX,
    ensures
        ({
            let n = if offset <= source@.len() {
                offset as int
            } else {
                source@.len() as int
            };
            r.0 as int == spec_line_col(source@, n).0 && r.1 as int == spec_line_col(
                source@,
                n,
            ).1
        }),
        r.0 >= 1,
        r.1 >= 1,
{
    let len = source.unicode_len();
    let bound = if offset <= len {
        offset
    } else {
        len
    };
    let mut line: usize = 1;
    let mut column: usize = 1;
    let mut i: usize = 0;
    while i < bound
        invariant
            i <= bound,
            bound <= source@.len(),
            source@.len() < usize::MAX,
            line as int == spec_line_col(source@, i as int).0,
            column as int == spec_line_col(source@, i as int).1,
            1 <= line <= i + 1,
            1 <= column <= i + 1,
        decreases bound - i,
    {
        if source.get_char(i) == '\n' {
            line = line + 1;
            column = 1;
        } else {
            column = column + 1;
        }
        i = i + 1;
    }
    (line, column)
}

/// `k` spaces.
pub open spec fn spec_spaces(k: int) -> Seq<char>
    decreases k,
{
    if k <= 0 {
        Seq::empty()
    } else {
        spec_spaces(k - 1) + seq![' ']
    }
}

/// `k` spaces, as a string.
fn spaces(k: usize) -> (r: String)
    ensures
        r@ == spec_spaces(k as int),
{
    let mut r = String::new();
    let mut i: usize = 0;
    while i < k
        invariant
            i <= k,
            r@ == spec_spaces(i as int),
        decreases k - i,
    {
        push_char(&mut r, ' ');
        proof {
            assert(r@ =~= spec_spaces(i + 1));
        }
        i = i + 1;
    }
    r
}

/// The line number right-aligned to four columns.
pub open spec fn spec_gutter(line: nat) -> Seq<char> {
    spec_spaces(4 - spec_decimal(line).len()) + spec_decimal(line)
}

/// The snippet pointing at a position: the offending source line behind a
/// numbered gutter, and a caret under the column. Empty when the line
/// number is out of range; the line count includes a final empty line
/// after a trailing newline.
pub open spec fn spec_snippet(source: Seq<char>, line: nat, column: nat) -> Seq<char> {
    let lines = spec_split_on(source, '\n');
    if line == 0 || line > lines.len() {
        Seq::empty()
    } else {
        spec_gutter(line) + " | "@ + lines[line - 1] + "\n"@ + "     | "@ + spec_spaces(
            column - 1,
        ) + "^"@
    }
}

/// Extract a snippet of source code around a position.
pub fn extract_snippet(source: &str, line: usize, column: usize) -> (r: String)
    requires
        column >= 1,
    ensures
        r@ == spec_snippet(source@, line as nat, column as nat),
{
    let lines = split_on(source, '\n');
    if line == 0 || line > lines.len() {
        return String::new();
    }
    let digits = u64_to_string(line as u64);
    let dlen = digits.unicode_len();
    let pad = if dlen >= 4 {
        0
    } else {
        4 - dlen
    };
    let mut snippet = spaces(pad);
    proof {
        if dlen >= 4 {
            assert(spec_spaces(4 - spec_decimal(line as nat).len()) =~= Seq::<char>::empty());
        }
    }
    snippet.append(digits.as_str());
    snippet.append(" | ");
    snippet.append(lines[line - 1].as_str());
    snippet.append("\n");
    snippet.append("     | ");
    let caret_pad = spaces(column - 1);
    snippet.append(caret_pad.as_str());
    snippet.append("^");
    snippet
}

// ─── Suggestions ───

/// The ASCII-lowercased text.
pub open spec fn spec_lower_seq(s: Seq<char>) -> Seq<char> {
    s.map_values(|c: char| spec_lower_char(c))
}

/// ASCII-lowercase a string.
fn to_ascii_lower(s: &str) -> (r: String)
    ensures
        r@ == spec_lower_seq(s@),
{
    let len = s.unicode_len();
    let mut r = String::new();
    let mut i: usize = 0;
    while i < len
        invariant
            i <= len,
            len == s@.len(),
            r@ == spec_lower_seq(s@).take(i as int),
        decreases len - i,
    {
        push_char(&mut r, crate::naming::lower_char(s.get_char(i)));
        proof {
            assert(r@ =~= spec_lower_seq(s@).take(i + 1));
        }
        i = i + 1;
    }
    proof {
        assert(spec_lower_seq(s@).take(s@.len() as int) =~= spec_lower_seq(s@));
    }
    r
}

/// The suggestion a lowercased token text earns from the common keyword
/// typos, if any.
pub open spec fn spec_token_suggestion(t: Seq<char>) -> Option<Seq<char>> {
    if contains_sub(t, "entiy"@) || contains_sub(t, "enity"@) {
        Some("Did you mean 'entity'?"@)
    } else if contains_sub(t, "primry"@) || contains_sub(t, "pirmary"@) {
        Some("Did you mean 'primary'?"@)
    } else if contains_sub(t, "uniqu"@) && !contains_sub(t, "unique"@) {
        Some("Did you mean 'unique'?"@)
    } else if contains_sub(t, "nullabe"@) {
        Some("Did you mean 'nullable'?"@)
    } else {
        None
    }
}

/// The suggestion the message earns from common syntax mistakes, set only
/// when none is present yet.
pub open spec fn spec_message_suggestion(message: Seq<char>, sugg: Option<Seq<char>>)
    -> Option<Seq<char>> {
    if contains_sub(message, "expected one of"@) {
        if contains_sub(message, "\":\""@) || contains_sub(message, "Colon"@) {
            if sugg is None {
                Some("Fields must have a type after the colon.\nExample: name: string"@)
            } else {
                sugg
            }
        } else if contains_sub(message, "\"{\""@) {
            if sugg is None {
                Some("Entity definitions must have an opening brace.\nExample: entity User {"@)
            } else {
                sugg
            }
        } else {
            sugg
        }
    } else {
        sugg
    }
}

/// The suggestion `add_suggestions` leaves on a detail.
pub open spec fn spec_suggestion(d: ParseErrorDetail) -> Option<Seq<char>> {
    let after_token = (match d.token {
        Some(t) => (match spec_token_suggestion(spec_lower_seq(t@)) {
            Some(s) => Some(s),
            None => opt_view(d.suggestion),
        }),
        None => opt_view(d.suggestion),
    });
    spec_message_suggestion(d.message@, after_token)
}

/// Add helpful suggestions based on common error patterns: keyword typos
/// in the offending token, then syntax hints drawn from the message.
pub fn add_suggestions(detail: ParseErrorDetail) -> (r: ParseErrorDetail)
    ensures
        r.message == detail.message,
        r.line == detail.line,
        r.column == detail.column,
        r.snippet == detail.snippet,
        r.token == detail.token,
        opt_view(r.suggestion) == spec_suggestion(detail),
{
    let mut d = detail;
    match &d.token {
        Some(token) => {
            let token_lower = to_ascii_lower(token.as_str());
            let t = token_lower.as_str();
            if str_contains(t, "entiy") || str_contains(t, "enity") {
                d.suggestion = Some(String::from_str("Did you mean 'entity'?"));
            } else if str_contains(t, "primry") || str_contains(t, "pirmary") {
                d.suggestion = Some(String::from_str("Did you mean 'primary'?"));
            } else if str_contains(t, "uniqu") && !str_contains(t, "unique") {
                d.suggestion = Some(String::from_str("Did you mean 'unique'?"));
            } else if str_contains(t, "nullabe") {
                d.suggestion = Some(String::from_str("Did you mean 'nullable'?"));
            }
        },
        None => {},
    }
    if str_contains(d.message.as_str(), "expected one of") {
        if str_contains(d.message.as_str(), "\":\"") || str_contains(d.message.as_str(), "Colon")
        {
            if d.suggestion.is_none() {
                d.suggestion = Some(
                    String::from_str(
                        "Fields must have a type after the colon.\nExample: name: string",
                    ),
                );
            }
        } else if str_contains(d.message.as_str(), "\"{\"") {
            if d.suggestion.is_none() {
                d.suggestion = Some(
                    String::from_str(
                        "Entity definitions must have an opening brace.\nExample: entity User {",
                    ),
                );
            }
        }
    }
    d
}

/// The position `enhance_parse_error` settles on: a detail still carrying
/// the default first line but a real column is recomputed from the column
/// read as a character offset.
pub open spec fn spec_enhanced_position(d: ParseErrorDetail, source: Seq<char>) -> (int, int) {
    if d.line == 1 && d.column > 1 {
        let n = if d.column - 1 <= source.len() {
            d.column - 1
        } else {
            source.len() as int
        };
        spec_line_col(source, n)
    } else {
        (d.line as int, d.column as int)
    }
}

/// Enhance a parse error with source context: recompute the position when
/// only an offset was known, attach a snippet, and add suggestions.
/// Errors of other kinds pass through untouched.
pub fn enhance_parse_error(err: ChameleonError, source: &str) -> (r: ChameleonError)
    requires
        source@.len() < usize::MAX,
        (err matches ChameleonError::ParseError(d) ==> d.column >= 1),
    ensures
        (match err {
            ChameleonError::ParseError(d) => (r matches ChameleonError::ParseError(rd) && {
                let pos = spec_enhanced_position(d, source@);
                &&& rd.line as int == pos.0
                &&& rd.column as int == pos.1
                &&& rd.message == d.message
                &&& rd.token == d.token
                &&& opt_view(rd.snippet) == Some(
                    spec_snippet(source@, pos.0 as nat, pos.1 as nat),
                )
                &&& opt_view(rd.suggestion) == spec_suggestion(
                    ParseErrorDetail {
                        snippet: rd.snippet,
                        line: rd.line,
                        column: rd.column,
                        ..d
                    },
                )
            }),
            _ => r == err,
        }),
{
    match err {
        ChameleonError::ParseError(detail) => {
            let mut detail = detail;
            if detail.line == 1 && detail.column > 1 {
                let pos = offset_to_position(source, detail.column - 1);
                detail.line = pos.0;
                detail.column = pos.1;
            }
            let snippet = extract_snippet(source, detail.line, detail.column);
            detail.snippet = Some(snippet);
            let detail = add_suggestions(detail);
            ChameleonError::ParseError(detail)
        },
        other => other,
    }
}

} // verus!
