use vstd::prelude::*;
use vstd::string::*;
use colored::Colorize;
use regex::Regex;

use crate::text::same_text;

verus! {

/// The verdict on one source value of a directive.
#[derive(Debug, Clone, Copy, PartialEq, Eq, Structural)]
pub enum ValueType {
    /// Neither a known keyword nor anything that looks like a host.
    Error,
    /// `'self'` or `'none'`.
    Safe,
    /// `'unsafe-inline'`, `'unsafe-eval'` or `data:`.
    UnSafe,
    /// Holds something shaped like a host name, with or without a scheme.
    Plain,
}

/// Whether `c` is in the regex class `\w`, Unicode's word characters.
pub uninterp spec fn is_word_char(c: char) -> bool;

/// Whether the host pattern `(https?://)?(\w+\.)+(\w)+` matches somewhere in
/// `s`: searched without anchors, it needs no more than a word character, a
/// `.` and a word character side by side.
pub open spec fn host_pattern_found(s: Seq<char>) -> bool {
    exists|i: int|
        0 <= i && i + 2 < s.len() && is_word_char(#[trigger] s[i]) && s[i + 1] == '.'
            && is_word_char(s[i + 2])
}

pub open spec fn has_dot(s: Seq<char>) -> bool {
    exists|i: int| 0 <= i < s.len() && s[i] == '.'
}

pub open spec fn is_safe_keyword(s: Seq<char>) -> bool {
    s == "'self'"@ || s == "'none'"@
}

pub open spec fn is_unsafe_keyword(s: Seq<char>) -> bool {
    s == "'unsafe-inline'"@ || s == "'unsafe-eval'"@ || s == "data:"@
}

/// The verdict on `s`, given whether the host pattern occurs in it.
pub open spec fn verdict(s: Seq<char>, looks_like_host: bool) -> ValueType {
    if is_safe_keyword(s) {
        ValueType::Safe
    } else if is_unsafe_keyword(s) {
        ValueType::UnSafe
    } else if looks_like_host {
        ValueType::Plain
    } else {
        ValueType::Error
    }
}

/// The verdict on `s`.
pub open spec fn classification(s: Seq<char>) -> ValueType {
    verdict(s, host_pattern_found(s))
}

pub open spec fn escape_open() -> Seq<char> {
    seq!['\x1B', '[']
}

pub open spec fn reset() -> Seq<char> {
    seq!['\x1B', '[', '0', 'm']
}

pub open spec fn has_no_escape(text: Seq<char>) -> bool {
    forall|i: int| 0 <= i < text.len() ==> text[i] != '\x1B'
}

/// `ESC [ code m`, the text, then the reset sequence.
pub open spec fn framed(code: Seq<char>, text: Seq<char>) -> Seq<char> {
    escape_open() + code + seq!['m'] + text + reset()
}

/// What the terminal colouring prints for `text` in the style `code`: the
/// text alone where colouring is switched off, else the text framed by the
/// style and the reset sequence. A text that itself holds an escape has the
/// style repeated after each reset it holds, so only its frame is fixed.
pub open spec fn colored_as(r: Seq<char>, text: Seq<char>, code: Seq<char>) -> bool {
    if has_no_escape(text) {
        r == text || r == framed(code, text)
    } else {
        r == text || exists|body: Seq<char>| r == framed(code, body)
    }
}

/// The style of a directive's name: blue.
pub open spec fn name_code() -> Seq<char> {
    seq!['3', '4']
}

/// Which colour each verdict is printed in.
pub open spec fn style_code(kind: ValueType) -> Option<Seq<char>> {
    match kind {
        ValueType::Safe => Some(seq!['3', '2']),
        ValueType::UnSafe => Some(seq!['3', '1']),
        ValueType::Error => Some(seq!['4', '1', ';', '3', '0']),
        ValueType::Plain => None,
    }
}

/// How a value of kind `kind` may be shown: in the style of its verdict, and
/// plain values as they are.
pub open spec fn shown(r: Seq<char>, text: Seq<char>, kind: ValueType) -> bool {
    match style_code(kind) {
        Some(code) => colored_as(r, text, code),
        None => r == text,
    }
}

/// Relies on colored's `Colorize::black`, `Colorize::on_red` and the
/// `Display` of `ColoredString`: the text after the background code `41` and the
/// foreground code `30`, or bare where colouring is switched off.
#[verifier::external_body]
fn paint_alarm(text: &str) -> (r: String)
    ensures
        colored_as(r@, text@, seq!['4', '1', ';', '3', '0']),
{
    text.black().on_red().to_string()
}

/// Relies on colored's `Colorize::red` and the `Display` of
/// `ColoredString`: the text after the code `31`, or bare where colouring is
/// switched off.
#[verifier::external_body]
fn paint_warning(text: &str) -> (r: String)
    ensures
        colored_as(r@, text@, seq!['3', '1']),
{
    text.red().to_string()
}

/// Relies on colored's `Colorize::green` and the `Display` of
/// `ColoredString`: the text after the code `32`, or bare where colouring
/// is switched off.
#[verifier::external_body]
fn paint_safe(text: &str) -> (r: String)
    ensures
        colored_as(r@, text@, seq!['3', '2']),
{
    text.green().to_string()
}

/// Relies on colored's `Colorize::blue` and the `Display` of
/// `ColoredString`: the text after the code `34`, or bare where colouring is
/// switched off.
#[verifier::external_body]
pub(crate) fn paint_name(text: &str) -> (r: String)
    ensures
        colored_as(r@, text@, seq!['3', '4']),
{
    text.blue().to_string()
}

/// Relies on colored's `Colorize::normal` and the `Display` of
/// `ColoredString`: with no colour and no style the text is written as it is.
#[verifier::external_body]
fn paint_plain(text: &str) -> (r: String)
    ensures
        r@ == text@,
{
    text.normal().to_string()
}

/// One source value of a directive with its verdict.
pub struct Value {
    pub text: String,
    pub value_type: ValueType,
}

impl Value {
    pub open spec fn well_formed(&self) -> bool {
        self.value_type == classification(self.text@)
    }

    pub fn from(text: &str) -> (r: Value)
        ensures
            r.text@ == text@,
            r.value_type == classification(text@),
            !is_safe_keyword(text@) && !is_unsafe_keyword(text@) && !has_dot(text@)
                ==> r.value_type == ValueType::Error,
            r.well_formed(),
    {
        Value { text: String::from_str(text), value_type: Value::classify(text) }
    }

    /// Decides the verdict once it is known whether the host pattern occurs
    /// in `value`.
    pub fn classify_with(value: &str, looks_like_host: bool) -> (r: ValueType)
        ensures
            r == verdict(value@, looks_like_host),
    {
        if same_text(value, "'self'") || same_text(value, "'none'") {
            ValueType::Safe
        } else if same_text(value, "'unsafe-inline'") || same_text(value, "'unsafe-eval'")
            || same_text(value, "data:") {
            ValueType::UnSafe
        } else if looks_like_host {
            ValueType::Plain
        } else {
            ValueType::Error
        }
    }

    pub fn classify(value: &str) -> (r: ValueType)
        ensures
            r == classification(value@),
            !is_safe_keyword(value@) && !is_unsafe_keyword(value@) && !has_dot(value@) ==> r
                == ValueType::Error,
    {
        let keyword = Value::classify_with(value, false);
        if keyword != ValueType::Error {
            keyword
        } else {
            Value::classify_with(value, Value::is_url(value))
        }
    }

    /// The value in the colour of its verdict.
    pub fn pretty(&self) -> (r: String)
        ensures
            shown(r@, self.text@, self.value_type),
    {
        match self.value_type {
            ValueType::Error => paint_alarm(self.text.as_str()),
            ValueType::UnSafe => paint_warning(self.text.as_str()),
            ValueType::Plain => paint_plain(self.text.as_str()),
            ValueType::Safe => paint_safe(self.text.as_str()),
        }
    }

    /// Relies on regex's `Regex::new` and `Regex::is_match`: an unanchored
    /// search for `(https?://)?(\w+\.)+(\w)+`, which finds a match exactly
    /// where a word character, a `.` and a word character stand side by side.
    #[verifier::external_body]
    fn is_url(value: &str) -> (r: bool)
        ensures
            r == (exists|i: int|
                0 <= i && i + 2 < value@.len() && is_word_char(#[trigger] value@[i])
                    && value@[i + 1] == '.' && is_word_char(value@[i + 2])),
    {
        let re = Regex::new(r"(https?://)?(\w+\.)+(\w)+").unwrap();
        re.is_match(value)
    }
}

} // verus!
