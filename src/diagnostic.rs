//! Engine diagnostics and their host-facing records.

use crate::offsets::{byte_range_to_char_range, translate_spec};
use crate::rules::{rule_name, Rule};
use std::ops::Range;
use vstd::prelude::*;

verus! {

/// A proposed correction: a byte range of the text and its replacement.
#[derive(Debug)]
pub struct Fix {
    pub range: Range<usize>,
    pub replacement: String,
}

/// One issue found by the checker, with its byte range in the text.
#[derive(Debug)]
pub struct Diagnostic {
    pub kind: Rule,
    pub range: Range<usize>,
    pub fix: Option<Fix>,
}

/// A diagnostic as the host sees it: a snake-case kind, a character range and
/// the trimmed replacement text, if any.
#[derive(Debug, PartialEq, Eq)]
pub struct DiagnosticJs {
    pub kind: String,
    pub range: Range<usize>,
    pub fix: Option<String>,
}

/// The abstract content of a host-facing diagnostic.
pub ghost struct DiagnosticRecord {
    pub kind: Seq<char>,
    pub start: int,
    pub end: int,
    pub fix: Option<Seq<char>>,
}

impl View for DiagnosticJs {
    type V = DiagnosticRecord;

    open spec fn view(&self) -> DiagnosticRecord {
        DiagnosticRecord {
            kind: self.kind@,
            start: self.range.start as int,
            end: self.range.end as int,
            fix: match self.fix {
                Some(f) => Some(f@),
                None => None,
            },
        }
    }
}

/// Whether a character has the Unicode `Uppercase` property.
pub uninterp spec fn is_upper(c: char) -> bool;

/// A text with leading and trailing whitespace removed.
pub uninterp spec fn trimmed(s: Seq<char>) -> Seq<char>;

/// Relies on `char::is_uppercase`: whether `c` has the Unicode `Uppercase` property.
#[verifier::external_body]
fn char_is_uppercase(c: char) -> (r: bool)
    ensures
        r == is_upper(c),
{
    c.is_uppercase()
}

/// Relies on `str::trim`: the text without its leading and trailing whitespace.
#[verifier::external_body]
fn trim(s: &str) -> (r: String)
    ensures
        r@ == trimmed(s@),
{
    s.trim().to_string()
}

/// Relies on `String::push`: appends one character to the end.
#[verifier::external_body]
fn push_char(s: &mut String, c: char)
    ensures
        final(s)@ == old(s)@.push(c),
{
    s.push(c)
}

/// The ASCII lowercase of `c`; any other character is kept.
pub open spec fn ascii_lower(c: char) -> char {
    if 'A' <= c <= 'Z' {
        ((c as u32) + 32) as char
    } else {
        c
    }
}

fn to_ascii_lower(c: char) -> (r: char)
    ensures
        r == ascii_lower(c),
{
    if 'A' <= c && c <= 'Z' {
        ((c as u8) + 32) as char
    } else {
        c
    }
}

/// Snake case of an upper-camel identifier: an underscore before every
/// uppercase character but the first, and uppercase ASCII letters lowered.
/// A run of uppercase characters gets one underscore per character.
pub open spec fn snake_spec(s: Seq<char>) -> Seq<char>
    decreases s.len(),
{
    if s.len() == 0 {
        Seq::empty()
    } else {
        let prev = snake_spec(s.drop_last());
        let c = s.last();
        if is_upper(c) {
            if s.len() == 1 {
                prev.push(ascii_lower(c))
            } else {
                prev.push('_').push(ascii_lower(c))
            }
        } else {
            prev.push(c)
        }
    }
}

/// Converts an upper-camel identifier such as `MissingDoubleAccents` into
/// snake case (`missing_double_accents`).
pub fn pascal_to_snake(s: &str) -> (r: String)
    ensures
        r@ == snake_spec(s@),
{
    let t = Ghost(s@);
    let mut snake_case = String::new();
    let mut first = true;
    for c in it: s.chars()
        invariant
            it.seq() == t@,
            t@ == s@,
            first == (it.index() == 0),
            snake_case@ == snake_spec(t@.take(it.index())),
    {
        let ghost i = it.index();
        assert(i < t@.len());
        assert(c == t@[i]);
        assert(t@.take(i + 1).drop_last() =~= t@.take(i));
        if char_is_uppercase(c) {
            if !first {
                push_char(&mut snake_case, '_');
            }
            push_char(&mut snake_case, to_ascii_lower(c));
        } else {
            push_char(&mut snake_case, c);
        }
        first = false;
    }
    assert(t@.take(t@.len() as int) =~= t@);
    snake_case
}

/// The replacement text of a fix as the host receives it.
pub open spec fn fix_spec(fix: Option<Fix>) -> Option<Seq<char>> {
    match fix {
        Some(f) => Some(trimmed(f.replacement@)),
        None => None,
    }
}

/// The trimmed replacement text of a fix, if there is one.
pub fn to_fixjs(fix: &Option<Fix>) -> (r: Option<String>)
    ensures
        (match r {
            Some(s) => Some(s@),
            None => None,
        }) == fix_spec(*fix),
{
    match fix {
        Some(f) => Some(trim(f.replacement.as_str())),
        None => None,
    }
}

/// The host-facing record of a diagnostic found in `t`.
pub open spec fn encode_spec(t: Seq<char>, d: Diagnostic) -> DiagnosticRecord {
    let range = translate_spec(t, d.range.start as int, d.range.end as int);
    DiagnosticRecord {
        kind: snake_spec(rule_name(d.kind)),
        start: range.0,
        end: range.1,
        fix: fix_spec(d.fix),
    }
}

impl DiagnosticJs {
    /// Builds the host-facing record of a diagnostic found in `text`.
    pub fn new(text: &str, diagnostic: &Diagnostic) -> (r: Self)
        ensures
            r@ == encode_spec(text@, *diagnostic),
    {
        let byte_range = diagnostic.range.start..diagnostic.range.end;
        let char_range = byte_range_to_char_range(text, byte_range);
        let kind = pascal_to_snake(diagnostic.kind.name());
        DiagnosticJs { kind, range: char_range.start..char_range.end, fix: to_fixjs(&diagnostic.fix) }
    }
}

/// The host-facing records of the diagnostics found in `t`, one for each, in order.
pub open spec fn scan_spec(t: Seq<char>, ds: Seq<Diagnostic>) -> Seq<DiagnosticRecord> {
    ds.map_values(|d: Diagnostic| encode_spec(t, d))
}

/// Encodes every diagnostic that the checker found in `text`, keeping their
/// number and order.
pub fn scan_text(text: &str, diagnostics: &Vec<Diagnostic>) -> (r: Vec<DiagnosticJs>)
    ensures
        r@.map_values(|x: DiagnosticJs| x@) == scan_spec(text@, diagnostics@),
{
    let mut out: Vec<DiagnosticJs> = Vec::new();
    let mut i: usize = 0;
    while i < diagnostics.len()
        invariant
            i <= diagnostics.len(),
            out@.len() == i,
            forall|j: int| 0 <= j < i ==> #[trigger] out@[j]@ == encode_spec(text@, diagnostics@[j]),
        decreases diagnostics.len() - i,
    {
        let d = DiagnosticJs::new(text, &diagnostics[i]);
        out.push(d);
        i = i + 1;
    }
    assert(out@.map_values(|x: DiagnosticJs| x@) =~= scan_spec(text@, diagnostics@));
    out
}

/// Scanning keeps the cardinality of what the checker found: one record for
/// each diagnostic.
pub proof fn lemma_scan_cardinality(t: Seq<char>, ds: Seq<Diagnostic>)
    ensures
        scan_spec(t, ds).len() == ds.len(),
{
}

/// Scanning has no hidden state: the same text and diagnostics always give
/// the same records.
pub proof fn lemma_scan_deterministic(t1: Seq<char>, ds1: Seq<Diagnostic>, t2: Seq<char>, ds2: Seq<Diagnostic>)
    requires
        t1 == t2,
        ds1 == ds2,
    ensures
        scan_spec(t1, ds1) == scan_spec(t2, ds2),
{
}

} // verus!
