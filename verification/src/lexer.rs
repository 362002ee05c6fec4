//! The lexical grammar of Oryn: source text to tokens.
//!
//! Lexing is maximal munch over the source bytes. At each position the
//! longest lexeme wins; a keyword beats an identifier of the same length.
//! Spaces and tabs are skipped, newlines are tokens, and `//` line
//! comments are tokens too ([`lex`] drops them, [`lex_all`] keeps them).

use std::ops::Range;
use vstd::prelude::*;
use vstd::string::StringSliceAdditionalSpecFns;
use vstd::utf8::{encode_utf8, is_char_boundary, is_continuation_byte, valid_utf8};

use crate::errors::OrynError;

verus! {

/// A single lexical token.
///
/// A float literal keeps its source text (`"1.5"`); converting it to a
/// machine float is left to the consumer.
#[derive(Debug, Clone, PartialEq)]
pub enum Token {
    // Keywords.
    Let,
    Val,
    Fn,
    Rn,
    Obj,
    Use,
    For,
    In,
    Pub,
    Mut,
    Import,
    Try,
    Nil,
    Test,
    Assert,
    // Literals.
    True,
    False,
    Float(String),
    Int(i32),
    String(String),
    // Operators.
    Equals,
    Plus,
    Minus,
    Multiply,
    Divide,
    EqualsEquals,
    NotEquals,
    Orelse,
    Question,
    Bang,
    LessThan,
    GreaterThan,
    LessThanEquals,
    GreaterThanEquals,
    And,
    Or,
    Not,
    // Control flow.
    If,
    Unless,
    Elif,
    Else,
    While,
    Break,
    Continue,
    // Punctuation.
    DotDotEquals,
    DotDot,
    Dot,
    Colon,
    Arrow,
    Comma,
    LeftParen,
    RightParen,
    LeftCurly,
    RightCurly,
    LeftBracket,
    RightBracket,
    Newline,
    // Identifiers.
    Ident(String),
    // Trivia: a line comment, `//` included.
    Comment(String),
}

// ---------------------------------------------------------------------------
// The lexical grammar, over the UTF-8 bytes of the source.
// ---------------------------------------------------------------------------

pub open spec fn is_digit(c: u8) -> bool {
    48 <= c && c <= 57
}

pub open spec fn is_word_start(c: u8) -> bool {
    (65 <= c && c <= 90) || (97 <= c && c <= 122) || c == 95
}

pub open spec fn is_word_byte(c: u8) -> bool {
    is_word_start(c) || is_digit(c)
}

pub open spec fn is_blank(c: u8) -> bool {
    c == 32 || c == 9
}

/// Number of consecutive digits starting at `i`.
pub open spec fn digit_run(b: Seq<u8>, i: int) -> int
    decreases b.len() - i,
{
    if 0 <= i < b.len() && is_digit(b[i]) {
        1 + digit_run(b, i + 1)
    } else {
        0
    }
}

/// Number of consecutive identifier bytes starting at `i`.
pub open spec fn word_run(b: Seq<u8>, i: int) -> int
    decreases b.len() - i,
{
    if 0 <= i < b.len() && is_word_byte(b[i]) {
        1 + word_run(b, i + 1)
    } else {
        0
    }
}

/// Number of consecutive spaces and tabs starting at `i`.
pub open spec fn blank_run(b: Seq<u8>, i: int) -> int
    decreases b.len() - i,
{
    if 0 <= i < b.len() && is_blank(b[i]) {
        1 + blank_run(b, i + 1)
    } else {
        0
    }
}

/// Number of bytes from `i` up to (not including) the next newline.
pub open spec fn line_run(b: Seq<u8>, i: int) -> int
    decreases b.len() - i,
{
    if 0 <= i < b.len() && b[i] != 10 {
        1 + line_run(b, i + 1)
    } else {
        0
    }
}

/// The first character boundary at or after `k` (`k <= b.len()`).
pub open spec fn boundary_from(b: Seq<u8>, k: int) -> int
    decreases b.len() - k,
{
    if 0 <= k < b.len() && is_continuation_byte(b[k]) {
        boundary_from(b, k + 1)
    } else {
        k
    }
}

/// Scans the body of a string literal from `j` (just after the opening
/// quote). The body is any sequence of bytes other than `"` and `\`,
/// and of escapes: `\` followed by any character but a newline. Returns
/// `(true, e)` when a closing quote ends at `e`, and `(false, k)` when
/// the literal cannot be completed, `k` being where scanning stopped.
pub open spec fn string_scan(b: Seq<u8>, j: int) -> (bool, int)
    decreases b.len() - j,
{
    if j < 0 || j >= b.len() {
        (false, b.len() as int)
    } else if b[j] == 34 {
        (true, j + 1)
    } else if b[j] == 92 {
        if j + 1 >= b.len() {
            (false, b.len() as int)
        } else if b[j + 1] == 10 {
            (false, j + 1)
        } else {
            string_scan(b, j + 2)
        }
    } else {
        string_scan(b, j + 1)
    }
}

/// The keyword spelled by `w`, if any.
pub open spec fn keyword_of(w: Seq<u8>) -> Option<Token> {
    if w == seq![108u8, 101, 116] { Some(Token::Let) }
    else if w == seq![118u8, 97, 108] { Some(Token::Val) }
    else if w == seq![102u8, 110] { Some(Token::Fn) }
    else if w == seq![114u8, 110] { Some(Token::Rn) }
    else if w == seq![111u8, 98, 106] { Some(Token::Obj) }
    else if w == seq![117u8, 115, 101] { Some(Token::Use) }
    else if w == seq![102u8, 111, 114] { Some(Token::For) }
    else if w == seq![105u8, 110] { Some(Token::In) }
    else if w == seq![112u8, 117, 98] { Some(Token::Pub) }
    else if w == seq![109u8, 117, 116] { Some(Token::Mut) }
    else if w == seq![105u8, 109, 112, 111, 114, 116] { Some(Token::Import) }
    else if w == seq![116u8, 114, 121] { Some(Token::Try) }
    else if w == seq![110u8, 105, 108] { Some(Token::Nil) }
    else if w == seq![116u8, 101, 115, 116] { Some(Token::Test) }
    else if w == seq![97u8, 115, 115, 101, 114, 116] { Some(Token::Assert) }
    else if w == seq![116u8, 114, 117, 101] { Some(Token::True) }
    else if w == seq![102u8, 97, 108, 115, 101] { Some(Token::False) }
    else if w == seq![111u8, 114, 101, 108, 115, 101] { Some(Token::Orelse) }
    else if w == seq![97u8, 110, 100] { Some(Token::And) }
    else if w == seq![111u8, 114] { Some(Token::Or) }
    else if w == seq![110u8, 111, 116] { Some(Token::Not) }
    else if w == seq![105u8, 102] { Some(Token::If) }
    else if w == seq![117u8, 110, 108, 101, 115, 115] { Some(Token::Unless) }
    else if w == seq![101u8, 108, 105, 102] { Some(Token::Elif) }
    else if w == seq![101u8, 108, 115, 101] { Some(Token::Else) }
    else if w == seq![119u8, 104, 105, 108, 101] { Some(Token::While) }
    else if w == seq![98u8, 114, 101, 97, 107] { Some(Token::Break) }
    else if w == seq![99u8, 111, 110, 116, 105, 110, 117, 101] { Some(Token::Continue) }
    else { None }
}

/// The operator or punctuation token starting at `i` and its length,
/// taking the longest spelling (`..=` over `..` over `.`).
pub open spec fn punct_at(b: Seq<u8>, i: int) -> Option<(Token, int)> {
    let c = b[i];
    let next = if i + 1 < b.len() { b[i + 1] } else { 0u8 };
    if c == 61 {
        if next == 61 { Some((Token::EqualsEquals, 2)) } else { Some((Token::Equals, 1)) }
    } else if c == 43 {
        Some((Token::Plus, 1))
    } else if c == 45 {
        if next == 62 { Some((Token::Arrow, 2)) } else { Some((Token::Minus, 1)) }
    } else if c == 42 {
        Some((Token::Multiply, 1))
    } else if c == 47 {
        Some((Token::Divide, 1))
    } else if c == 33 {
        if next == 61 { Some((Token::NotEquals, 2)) } else { Some((Token::Bang, 1)) }
    } else if c == 63 {
        Some((Token::Question, 1))
    } else if c == 60 {
        if next == 61 { Some((Token::LessThanEquals, 2)) } else { Some((Token::LessThan, 1)) }
    } else if c == 62 {
        if next == 61 { Some((Token::GreaterThanEquals, 2)) } else { Some((Token::GreaterThan, 1)) }
    } else if c == 46 {
        if next == 46 {
            if i + 2 < b.len() && b[i + 2] == 61 {
                Some((Token::DotDotEquals, 3))
            } else {
                Some((Token::DotDot, 2))
            }
        } else {
            Some((Token::Dot, 1))
        }
    } else if c == 58 {
        Some((Token::Colon, 1))
    } else if c == 44 {
        Some((Token::Comma, 1))
    } else if c == 40 {
        Some((Token::LeftParen, 1))
    } else if c == 41 {
        Some((Token::RightParen, 1))
    } else if c == 123 {
        Some((Token::LeftCurly, 1))
    } else if c == 125 {
        Some((Token::RightCurly, 1))
    } else if c == 91 {
        Some((Token::LeftBracket, 1))
    } else if c == 93 {
        Some((Token::RightBracket, 1))
    } else if c == 10 {
        Some((Token::Newline, 1))
    } else {
        None
    }
}

/// The class of the lexeme found at a position.
pub enum Lexeme {
    /// Spaces and tabs, skipped.
    Blank,
    /// A keyword, operator or punctuation token.
    Fixed(Token),
    /// An identifier.
    Word,
    /// A run of digits.
    Number,
    /// Digits, a dot, digits.
    Decimal,
    /// A string literal, quotes included.
    Text,
    /// A `//` comment up to the end of the line.
    Remark,
    /// Input that starts no lexeme.
    Unknown,
}

/// The lexeme that starts at `i` (`0 <= i < b.len()`) and where it ends.
pub open spec fn scan_at(b: Seq<u8>, i: int) -> (Lexeme, int) {
    let c = b[i];
    if is_blank(c) {
        (Lexeme::Blank, i + blank_run(b, i))
    } else if is_word_start(c) {
        let n = word_run(b, i);
        match keyword_of(b.subrange(i, i + n)) {
            Some(t) => (Lexeme::Fixed(t), i + n),
            None => (Lexeme::Word, i + n),
        }
    } else if is_digit(c) {
        let d = digit_run(b, i);
        if i + d + 1 < b.len() && b[i + d] == 46 && is_digit(b[i + d + 1]) {
            (Lexeme::Decimal, i + d + 1 + digit_run(b, i + d + 1))
        } else {
            (Lexeme::Number, i + d)
        }
    } else if c == 34 {
        let (closed, stop) = string_scan(b, i + 1);
        if closed {
            (Lexeme::Text, stop)
        } else {
            (Lexeme::Unknown, boundary_from(b, stop))
        }
    } else if c == 47 && i + 1 < b.len() && b[i + 1] == 47 {
        (Lexeme::Remark, i + 2 + line_run(b, i + 2))
    } else {
        match punct_at(b, i) {
            Some((t, n)) => (Lexeme::Fixed(t), i + n),
            None => (Lexeme::Unknown, boundary_from(b, i + 1)),
        }
    }
}

/// The value of a run of decimal digits.
pub open spec fn decimal_value(d: Seq<u8>) -> nat
    decreases d.len(),
{
    if d.len() == 0 {
        0
    } else {
        decimal_value(d.drop_last()) * 10 + (d.last() - 48) as nat
    }
}

/// True when the lexeme `lx` over `b[s..e]` is reported as an error:
/// unknown input, or an integer literal too large for `i32`.
pub open spec fn is_error_lexeme(b: Seq<u8>, lx: Lexeme, s: int, e: int) -> bool {
    match lx {
        Lexeme::Unknown => true,
        Lexeme::Number => decimal_value(b.subrange(s, e)) > i32::MAX,
        _ => false,
    }
}

/// The lexemes of `b` from `i` on: the tokens, each with its class and
/// byte range, and the byte ranges of the errors, both in source order.
pub open spec fn lexemes(b: Seq<u8>, i: int) -> (Seq<(Lexeme, int, int)>, Seq<(int, int)>)
    decreases b.len() - i,
{
    if i < 0 || i >= b.len() {
        (seq![], seq![])
    } else {
        let (lx, e) = scan_at(b, i);
        if e <= i || e > b.len() {
            (seq![], seq![])
        } else {
            let rest = lexemes(b, e);
            if lx is Blank {
                rest
            } else if is_error_lexeme(b, lx, i, e) {
                (rest.0, seq![(i, e)] + rest.1)
            } else {
                (seq![(lx, i, e)] + rest.0, rest.1)
            }
        }
    }
}

/// The same tokens with comments left out.
pub open spec fn code_lexemes(toks: Seq<(Lexeme, int, int)>) -> Seq<(Lexeme, int, int)>
    decreases toks.len(),
{
    if toks.len() == 0 {
        seq![]
    } else if toks[0].0 is Remark {
        code_lexemes(toks.drop_first())
    } else {
        seq![toks[0]] + code_lexemes(toks.drop_first())
    }
}

/// The token that lexeme `lx` over `b[s..e]` denotes.
pub open spec fn denotes(b: Seq<u8>, lx: Lexeme, s: int, e: int, t: Token) -> bool {
    match lx {
        Lexeme::Fixed(k) => t == k,
        Lexeme::Word => t matches Token::Ident(x) && encode_utf8(x@) == b.subrange(s, e),
        Lexeme::Number => t == Token::Int(decimal_value(b.subrange(s, e)) as i32),
        Lexeme::Decimal => t matches Token::Float(x) && encode_utf8(x@) == b.subrange(s, e),
        Lexeme::Text => t matches Token::String(x) && encode_utf8(x@) == b.subrange(s + 1, e - 1),
        Lexeme::Remark => t matches Token::Comment(x) && encode_utf8(x@) == b.subrange(s, e),
        _ => false,
    }
}

/// `toks` are exactly the tokens `lx` denote over `b`, with their spans.
pub open spec fn tokens_match(b: Seq<u8>, toks: Seq<(Token, Range<usize>)>, lx: Seq<(Lexeme, int, int)>) -> bool {
    &&& toks.len() == lx.len()
    &&& forall|k: int| 0 <= k < toks.len() ==> {
        &&& #[trigger] toks[k].1.start == lx[k].1
        &&& toks[k].1.end == lx[k].2
        &&& denotes(b, lx[k].0, lx[k].1, lx[k].2, toks[k].0)
    }
}

/// `errs` are lexer errors at exactly the byte ranges `spans`.
pub open spec fn errors_match(errs: Seq<OrynError>, spans: Seq<(int, int)>) -> bool {
    &&& errs.len() == spans.len()
    &&& forall|k: int| 0 <= k < errs.len() ==> (#[trigger] errs[k] matches OrynError::Lexer { span }
        && span.start == spans[k].0 && span.end == spans[k].1)
}

} // verus!

verus! {

// ---------------------------------------------------------------------------
// Facts about the grammar.
// ---------------------------------------------------------------------------

proof fn lemma_digit_run(b: Seq<u8>, i: int)
    requires
        0 <= i <= b.len(),
    ensures
        0 <= digit_run(b, i) <= b.len() - i,
        forall|k: int| i <= k < i + digit_run(b, i) ==> is_digit(#[trigger] b[k]),
    decreases b.len() - i,
{
    if i < b.len() && is_digit(b[i]) {
        lemma_digit_run(b, i + 1);
    }
}

proof fn lemma_word_run(b: Seq<u8>, i: int)
    requires
        0 <= i <= b.len(),
    ensures
        0 <= word_run(b, i) <= b.len() - i,
        forall|k: int| i <= k < i + word_run(b, i) ==> is_word_byte(#[trigger] b[k]),
    decreases b.len() - i,
{
    if i < b.len() && is_word_byte(b[i]) {
        lemma_word_run(b, i + 1);
    }
}

proof fn lemma_blank_run(b: Seq<u8>, i: int)
    requires
        0 <= i <= b.len(),
    ensures
        0 <= blank_run(b, i) <= b.len() - i,
    decreases b.len() - i,
{
    if i < b.len() && is_blank(b[i]) {
        lemma_blank_run(b, i + 1);
    }
}

proof fn lemma_line_run(b: Seq<u8>, i: int)
    requires
        0 <= i <= b.len(),
    ensures
        0 <= line_run(b, i) <= b.len() - i,
        i + line_run(b, i) < b.len() ==> b[i + line_run(b, i)] == 10,
    decreases b.len() - i,
{
    if i < b.len() && b[i] != 10 {
        lemma_line_run(b, i + 1);
    }
}

pub(crate) proof fn lemma_ascii_boundary_pub(b: Seq<u8>, k: int)
    requires
        valid_utf8(b),
        0 <= k <= b.len(),
        k < b.len() ==> b[k] < 128,
    ensures
        is_char_boundary(b, k),
{
    lemma_ascii_boundary(b, k);
}

pub(crate) proof fn lemma_line_run_pub(b: Seq<u8>, i: int)
    requires
        0 <= i <= b.len(),
    ensures
        0 <= line_run(b, i) <= b.len() - i,
{
    lemma_line_run(b, i);
}

proof fn lemma_boundary_from(b: Seq<u8>, k: int)
    requires
        0 <= k <= b.len(),
    ensures
        k <= boundary_from(b, k) <= b.len(),
        boundary_from(b, k) < b.len() ==> !is_continuation_byte(b[boundary_from(b, k)]),
    decreases b.len() - k,
{
    if k < b.len() && is_continuation_byte(b[k]) {
        lemma_boundary_from(b, k + 1);
    }
}

proof fn lemma_string_scan(b: Seq<u8>, j: int)
    requires
        0 <= j <= b.len(),
    ensures
        j <= string_scan(b, j).1 <= b.len(),
        string_scan(b, j).0 ==> j < string_scan(b, j).1 && b[string_scan(b, j).1 - 1] == 34,
        !string_scan(b, j).0 && string_scan(b, j).1 < b.len() ==> b[string_scan(b, j).1] == 10,
    decreases b.len() - j,
{
    if j < b.len() && b[j] != 34 {
        if b[j] == 92 {
            if j + 1 < b.len() && b[j + 1] != 10 {
                lemma_string_scan(b, j + 2);
            }
        } else {
            lemma_string_scan(b, j + 1);
        }
    }
}

/// Every lexeme is non-empty and ends within the input.
pub proof fn lemma_scan_at(b: Seq<u8>, i: int)
    requires
        0 <= i < b.len(),
    ensures
        i < scan_at(b, i).1 <= b.len(),
{
    lemma_blank_run(b, i);
    lemma_word_run(b, i);
    lemma_digit_run(b, i);
    if i + 2 <= b.len() {
        lemma_line_run(b, i + 2);
    }
    lemma_string_scan(b, i + 1);
    lemma_boundary_from(b, i + 1);
    lemma_boundary_from(b, string_scan(b, i + 1).1);
    let d = digit_run(b, i);
    if i + d + 1 < b.len() {
        lemma_digit_run(b, i + d + 1);
    }
    let c = b[i];
    if is_blank(c) {
        assert(blank_run(b, i) == 1 + blank_run(b, i + 1));
        lemma_blank_run(b, i + 1);
    } else if is_word_start(c) {
        assert(is_word_byte(b[i]));
        assert(word_run(b, i) == 1 + word_run(b, i + 1));
        lemma_word_run(b, i + 1);
    } else if is_digit(c) {
        assert(digit_run(b, i) == 1 + digit_run(b, i + 1));
        lemma_digit_run(b, i + 1);
    } else if c == 34 {
    } else if c == 47 && i + 1 < b.len() && b[i + 1] == 47 {
    } else {
        match punct_at(b, i) {
            Some((t, n)) => {
                assert(1 <= n);
                assert(i + n <= b.len());
            },
            None => {},
        }
    }
}

/// In valid UTF-8, the byte after an ASCII byte starts a character.
pub(crate) proof fn lemma_after_ascii(b: Seq<u8>, k: int)
    requires
        valid_utf8(b),
        0 <= k < b.len(),
        b[k] < 128,
    ensures
        is_char_boundary(b, k + 1),
{
    vstd::utf8::is_char_boundary_iff_not_is_continuation_byte(b, k);
    vstd::utf8::valid_utf8_split(b, k);
    let t = b.subrange(k, b.len() as int);
    assert(t[0] == b[k]);
    assert(vstd::utf8::pop_first_scalar(t) =~= b.subrange(k + 1, b.len() as int));
    let u = b.subrange(k + 1, b.len() as int);
    assert(valid_utf8(u));
    if k + 1 < b.len() {
        assert(u[0] == b[k + 1]);
        vstd::utf8::is_char_boundary_iff_not_is_continuation_byte(b, k + 1);
    } else {
        vstd::utf8::is_char_boundary_start_end_of_seq(b);
    }
}

/// In valid UTF-8, an ASCII byte starts a character.
proof fn lemma_ascii_boundary(b: Seq<u8>, k: int)
    requires
        valid_utf8(b),
        0 <= k <= b.len(),
        k < b.len() ==> b[k] < 128,
    ensures
        is_char_boundary(b, k),
{
    if k < b.len() {
        vstd::utf8::is_char_boundary_iff_not_is_continuation_byte(b, k);
    } else {
        vstd::utf8::is_char_boundary_start_end_of_seq(b);
    }
}

// ---------------------------------------------------------------------------
// Executable scanning.
// ---------------------------------------------------------------------------

fn digit_byte(c: u8) -> (r: bool)
    ensures
        r == is_digit(c),
{
    48 <= c && c <= 57
}

fn word_start_byte(c: u8) -> (r: bool)
    ensures
        r == is_word_start(c),
{
    (65 <= c && c <= 90) || (97 <= c && c <= 122) || c == 95
}

fn digits_end(b: &[u8], i: usize) -> (e: usize)
    requires
        i <= b@.len(),
    ensures
        e == i + digit_run(b@, i as int),
{
    let mut j = i;
    while j < b.len() && digit_byte(b[j])
        invariant
            i <= j <= b@.len(),
            digit_run(b@, i as int) == (j - i) + digit_run(b@, j as int),
        decreases b@.len() - j,
    {
        j += 1;
    }
    j
}

fn word_end(b: &[u8], i: usize) -> (e: usize)
    requires
        i <= b@.len(),
    ensures
        e == i + word_run(b@, i as int),
{
    let mut j = i;
    while j < b.len() && (word_start_byte(b[j]) || digit_byte(b[j]))
        invariant
            i <= j <= b@.len(),
            word_run(b@, i as int) == (j - i) + word_run(b@, j as int),
        decreases b@.len() - j,
    {
        j += 1;
    }
    j
}

fn blank_end(b: &[u8], i: usize) -> (e: usize)
    requires
        i <= b@.len(),
    ensures
        e == i + blank_run(b@, i as int),
{
    let mut j = i;
    while j < b.len() && (b[j] == 32 || b[j] == 9)
        invariant
            i <= j <= b@.len(),
            blank_run(b@, i as int) == (j - i) + blank_run(b@, j as int),
        decreases b@.len() - j,
    {
        j += 1;
    }
    j
}

fn line_end(b: &[u8], i: usize) -> (e: usize)
    requires
        i <= b@.len(),
    ensures
        e == i + line_run(b@, i as int),
{
    let mut j = i;
    while j < b.len() && b[j] != 10
        invariant
            i <= j <= b@.len(),
            line_run(b@, i as int) == (j - i) + line_run(b@, j as int),
        decreases b@.len() - j,
    {
        j += 1;
    }
    j
}

fn boundary_end(b: &[u8], k: usize) -> (e: usize)
    requires
        k <= b@.len(),
    ensures
        e == boundary_from(b@, k as int),
{
    let mut j = k;
    while j < b.len() && 0x80 <= b[j] && b[j] <= 0xbf
        invariant
            k <= j <= b@.len(),
            boundary_from(b@, k as int) == boundary_from(b@, j as int),
        decreases b@.len() - j,
    {
        j += 1;
    }
    j
}

fn string_end(b: &[u8], j0: usize) -> (r: (bool, usize))
    requires
        j0 <= b@.len(),
    ensures
        r.0 == string_scan(b@, j0 as int).0,
        r.1 == string_scan(b@, j0 as int).1,
{
    let mut j = j0;
    loop
        invariant
            j0 <= j <= b@.len(),
            string_scan(b@, j0 as int) == string_scan(b@, j as int),
        decreases b@.len() - j,
    {
        if j >= b.len() {
            return (false, b.len());
        }
        if b[j] == 34 {
            return (true, j + 1);
        }
        if b[j] == 92 {
            if j + 1 >= b.len() {
                return (false, b.len());
            }
            if b[j + 1] == 10 {
                return (false, j + 1);
            }
            j = j + 2;
        } else {
            j = j + 1;
        }
    }
}

/// True when `b[s..e]` spells `lit`.
fn spells(b: &[u8], s: usize, e: usize, lit: &[u8]) -> (r: bool)
    requires
        s <= e <= b@.len(),
    ensures
        r == (b@.subrange(s as int, e as int) == lit@),
{
    if e - s != lit.len() {
        assert(b@.subrange(s as int, e as int).len() != lit@.len());
        return false;
    }
    let mut k: usize = 0;
    while k < lit.len()
        invariant
            e - s == lit@.len(),
            s <= e <= b@.len(),
            0 <= k <= lit@.len(),
            forall|m: int| 0 <= m < k ==> b@[s + m] == lit@[m],
        decreases lit@.len() - k,
    {
        if b[s + k] != lit[k] {
            assert(b@.subrange(s as int, e as int)[k as int] != lit@[k as int]);
            return false;
        }
        k += 1;
    }
    assert(b@.subrange(s as int, e as int) =~= lit@);
    true
}

fn keyword(b: &[u8], s: usize, e: usize) -> (r: Option<Token>)
    requires
        s <= e <= b@.len(),
    ensures
        r == keyword_of(b@.subrange(s as int, e as int)),
{
    let w = Ghost(b@.subrange(s as int, e as int));
    if spells(b, s, e, &[108u8, 101, 116]) {
        assert(w@ == seq![108u8, 101, 116]);
        return Some(Token::Let);
    }
    if spells(b, s, e, &[118u8, 97, 108]) {
        return Some(Token::Val);
    }
    if spells(b, s, e, &[102u8, 110]) {
        return Some(Token::Fn);
    }
    if spells(b, s, e, &[114u8, 110]) {
        return Some(Token::Rn);
    }
    if spells(b, s, e, &[111u8, 98, 106]) {
        return Some(Token::Obj);
    }
    if spells(b, s, e, &[117u8, 115, 101]) {
        return Some(Token::Use);
    }
    if spells(b, s, e, &[102u8, 111, 114]) {
        return Some(Token::For);
    }
    if spells(b, s, e, &[105u8, 110]) {
        return Some(Token::In);
    }
    if spells(b, s, e, &[112u8, 117, 98]) {
        return Some(Token::Pub);
    }
    if spells(b, s, e, &[109u8, 117, 116]) {
        return Some(Token::Mut);
    }
    if spells(b, s, e, &[105u8, 109, 112, 111, 114, 116]) {
        return Some(Token::Import);
    }
    if spells(b, s, e, &[116u8, 114, 121]) {
        return Some(Token::Try);
    }
    if spells(b, s, e, &[110u8, 105, 108]) {
        return Some(Token::Nil);
    }
    if spells(b, s, e, &[116u8, 101, 115, 116]) {
        return Some(Token::Test);
    }
    if spells(b, s, e, &[97u8, 115, 115, 101, 114, 116]) {
        return Some(Token::Assert);
    }
    if spells(b, s, e, &[116u8, 114, 117, 101]) {
        return Some(Token::True);
    }
    if spells(b, s, e, &[102u8, 97, 108, 115, 101]) {
        return Some(Token::False);
    }
    if spells(b, s, e, &[111u8, 114, 101, 108, 115, 101]) {
        return Some(Token::Orelse);
    }
    if spells(b, s, e, &[97u8, 110, 100]) {
        return Some(Token::And);
    }
    if spells(b, s, e, &[111u8, 114]) {
        return Some(Token::Or);
    }
    if spells(b, s, e, &[110u8, 111, 116]) {
        return Some(Token::Not);
    }
    if spells(b, s, e, &[105u8, 102]) {
        return Some(Token::If);
    }
    if spells(b, s, e, &[117u8, 110, 108, 101, 115, 115]) {
        return Some(Token::Unless);
    }
    if spells(b, s, e, &[101u8, 108, 105, 102]) {
        return Some(Token::Elif);
    }
    if spells(b, s, e, &[101u8, 108, 115, 101]) {
        return Some(Token::Else);
    }
    if spells(b, s, e, &[119u8, 104, 105, 108, 101]) {
        return Some(Token::While);
    }
    if spells(b, s, e, &[98u8, 114, 101, 97, 107]) {
        return Some(Token::Break);
    }
    if spells(b, s, e, &[99u8, 111, 110, 116, 105, 110, 117, 101]) {
        return Some(Token::Continue);
    }
    None
}

} // verus!

verus! {

fn punct(b: &[u8], i: usize) -> (r: Option<(Token, usize)>)
    requires
        i < b@.len(),
    ensures
        match punct_at(b@, i as int) {
            Some((t, n)) => r matches Some((t2, n2)) && t2 == t && n2 == n,
            None => r is None,
        },
{
    let c = b[i];
    let next: u8 = if i + 1 < b.len() { b[i + 1] } else { 0 };
    if c == 61 {
        if next == 61 { Some((Token::EqualsEquals, 2)) } else { Some((Token::Equals, 1)) }
    } else if c == 43 {
        Some((Token::Plus, 1))
    } else if c == 45 {
        if next == 62 { Some((Token::Arrow, 2)) } else { Some((Token::Minus, 1)) }
    } else if c == 42 {
        Some((Token::Multiply, 1))
    } else if c == 47 {
        Some((Token::Divide, 1))
    } else if c == 33 {
        if next == 61 { Some((Token::NotEquals, 2)) } else { Some((Token::Bang, 1)) }
    } else if c == 63 {
        Some((Token::Question, 1))
    } else if c == 60 {
        if next == 61 { Some((Token::LessThanEquals, 2)) } else { Some((Token::LessThan, 1)) }
    } else if c == 62 {
        if next == 61 { Some((Token::GreaterThanEquals, 2)) } else { Some((Token::GreaterThan, 1)) }
    } else if c == 46 {
        if next == 46 {
            if i + 2 < b.len() && b[i + 2] == 61 {
                Some((Token::DotDotEquals, 3))
            } else {
                Some((Token::DotDot, 2))
            }
        } else {
            Some((Token::Dot, 1))
        }
    } else if c == 58 {
        Some((Token::Colon, 1))
    } else if c == 44 {
        Some((Token::Comma, 1))
    } else if c == 40 {
        Some((Token::LeftParen, 1))
    } else if c == 41 {
        Some((Token::RightParen, 1))
    } else if c == 123 {
        Some((Token::LeftCurly, 1))
    } else if c == 125 {
        Some((Token::RightCurly, 1))
    } else if c == 91 {
        Some((Token::LeftBracket, 1))
    } else if c == 93 {
        Some((Token::RightBracket, 1))
    } else if c == 10 {
        Some((Token::Newline, 1))
    } else {
        None
    }
}

/// The value of the digits `b[s..e]`, or `None` when it exceeds `i32::MAX`.
fn number_value(b: &[u8], s: usize, e: usize) -> (r: Option<i32>)
    requires
        s <= e <= b@.len(),
        forall|k: int| s <= k < e ==> is_digit(#[trigger] b@[k]),
    ensures
        decimal_value(b@.subrange(s as int, e as int)) > i32::MAX ==> r is None,
        decimal_value(b@.subrange(s as int, e as int)) <= i32::MAX ==> r == Some(
            decimal_value(b@.subrange(s as int, e as int)) as i32,
        ),
{
    let mut acc: u64 = 0;
    let mut over = false;
    let mut k = s;
    assert(b@.subrange(s as int, s as int).len() == 0);
    while k < e
        invariant
            s <= k <= e <= b@.len(),
            forall|m: int| s <= m < e ==> is_digit(#[trigger] b@[m]),
            !over ==> acc == decimal_value(b@.subrange(s as int, k as int)) && acc <= i32::MAX,
            over ==> decimal_value(b@.subrange(s as int, k as int)) > i32::MAX,
        decreases e - k,
    {
        let ghost prev = b@.subrange(s as int, k as int);
        let ghost next = b@.subrange(s as int, k + 1);
        assert(next.drop_last() =~= prev);
        assert(next.last() == b@[k as int]);
        let d = (b[k] - 48) as u64;
        assert(decimal_value(next) == decimal_value(prev) * 10 + d);
        if !over {
            let v = acc * 10 + d;
            if v > 2147483647 {
                over = true;
            } else {
                acc = v;
            }
        } else {
            assert(decimal_value(prev) * 10 >= decimal_value(prev)) by (nonlinear_arith);
        }
        k += 1;
    }
    if over {
        None
    } else {
        Some(acc as i32)
    }
}

/// The text `b[s..e]`, all of whose bytes are ASCII, as a string.
fn ascii_text(b: &[u8], s: usize, e: usize) -> (r: String)
    requires
        s <= e <= b@.len(),
        forall|k: int| s <= k < e ==> #[trigger] b@[k] < 128,
    ensures
        encode_utf8(r@) == b@.subrange(s as int, e as int),
{
    let mut r = String::new();
    let mut k = s;
    while k < e
        invariant
            s <= k <= e <= b@.len(),
            forall|m: int| s <= m < e ==> #[trigger] b@[m] < 128,
            r@.len() == k - s,
            forall|m: int| 0 <= m < r@.len() ==> #[trigger] r@[m] == b@[s + m] as char,
        decreases e - k,
    {
        crate::text::push_char(&mut r, b[k] as char);
        k += 1;
    }
    proof {
        assert(vstd::utf8::is_ascii_chars(r@));
        vstd::utf8::is_ascii_chars_encode_utf8(r@);
        assert(encode_utf8(r@) =~= b@.subrange(s as int, e as int));
    }
    r
}

/// The text `source[start..end]` between two character boundaries.
fn slice_text(source: &str, start: usize, end: usize) -> (r: String)
    requires
        start <= end <= source.spec_bytes().len(),
        is_char_boundary(source.spec_bytes(), start as int),
        is_char_boundary(source.spec_bytes(), end as int),
    ensures
        encode_utf8(r@) == source.spec_bytes().subrange(start as int, end as int),
{
    proof {
        vstd::utf8::encode_utf8_valid_utf8(source@);
        vstd::utf8::valid_utf8_split(source.spec_bytes(), start as int);
    }
    let (_, rest) = source.split_at(start);
    proof {
        let b = source.spec_bytes();
        let rb = rest.spec_bytes();
        assert(rb =~= b.subrange(start as int, b.len() as int));
        if end < b.len() {
            vstd::utf8::is_char_boundary_iff_not_is_continuation_byte(b, end as int);
            vstd::utf8::is_char_boundary_iff_not_is_continuation_byte(rb, (end - start) as int);
        } else {
            vstd::utf8::is_char_boundary_start_end_of_seq(rb);
        }
    }
    let (mid, _) = rest.split_at(end - start);
    let r = mid.to_owned();
    proof {
        assert(mid.spec_bytes() =~= source.spec_bytes().subrange(start as int, end as int));
    }
    r
}

/// What scanning one lexeme produced.
enum Scanned {
    Skip,
    Found(Token),
    Bad,
}

/// Scans the lexeme at `i`: its outcome and where it ends.
fn scan_one(source: &str, b: &[u8], i: usize) -> (r: (Scanned, usize))
    requires
        b@ == source.spec_bytes(),
        i < b@.len(),
    ensures
        r.1 == scan_at(b@, i as int).1,
        scan_at(b@, i as int).0 is Blank ==> r.0 is Skip,
        !(scan_at(b@, i as int).0 is Blank) && is_error_lexeme(b@, scan_at(b@, i as int).0, i as int, r.1 as int) ==> r.0 is Bad,
        !(scan_at(b@, i as int).0 is Blank) && !is_error_lexeme(b@, scan_at(b@, i as int).0, i as int, r.1 as int) ==> (r.0 matches Scanned::Found(t) && denotes(
            b@,
            scan_at(b@, i as int).0,
            i as int,
            r.1 as int,
            t,
        )),
{
    let ghost bs = b@;
    proof {
        vstd::utf8::encode_utf8_valid_utf8(source@);
        lemma_scan_at(bs, i as int);
    }
    let c = b[i];
    if c == 32 || c == 9 {
        return (Scanned::Skip, blank_end(b, i));
    }
    if word_start_byte(c) {
        let e = word_end(b, i);
        proof {
            lemma_word_run(bs, i as int);
        }
        match keyword(b, i, e) {
            Some(t) => return (Scanned::Found(t), e),
            None => {
                let text = ascii_text(b, i, e);
                return (Scanned::Found(Token::Ident(text)), e);
            },
        }
    }
    if digit_byte(c) {
        let d = digits_end(b, i);
        proof {
            lemma_digit_run(bs, i as int);
        }
        if d < b.len() && d + 1 < b.len() && b[d] == 46 && digit_byte(b[d + 1]) {
            let e = digits_end(b, d + 1);
            proof {
                lemma_digit_run(bs, d + 1);
            }
            let text = ascii_text(b, i, e);
            return (Scanned::Found(Token::Float(text)), e);
        }
        match number_value(b, i, d) {
            Some(v) => return (Scanned::Found(Token::Int(v)), d),
            None => return (Scanned::Bad, d),
        }
    }
    if c == 34 {
        let (closed, stop) = string_end(b, i + 1);
        proof {
            lemma_string_scan(bs, i + 1);
        }
        if closed {
            proof {
                lemma_after_ascii(bs, i as int);
                lemma_ascii_boundary(bs, stop - 1);
            }
            let text = slice_text(source, i + 1, stop - 1);
            return (Scanned::Found(Token::String(text)), stop);
        } else {
            return (Scanned::Bad, boundary_end(b, stop));
        }
    }
    if c == 47 && i + 1 < b.len() && b[i + 1] == 47 {
        let e = line_end(b, i + 2);
        proof {
            lemma_line_run(bs, i + 2);
            lemma_ascii_boundary(bs, i as int);
            lemma_ascii_boundary(bs, e as int);
        }
        let text = slice_text(source, i, e);
        return (Scanned::Found(Token::Comment(text)), e);
    }
    match punct(b, i) {
        Some((t, n)) => (Scanned::Found(t), i + n),
        None => (Scanned::Bad, boundary_end(b, i + 1)),
    }
}

} // verus!

verus! {

pub(crate) proof fn lemma_fixed_not_comment(b: Seq<u8>, i: int)
    requires
        0 <= i < b.len(),
    ensures
        scan_at(b, i).0 matches Lexeme::Fixed(k) ==> !(k is Comment),
{
    let c = b[i];
    if is_word_start(c) {
        let n = word_run(b, i);
        let w = b.subrange(i, i + n);
        assert(keyword_of(w) matches Some(k) ==> !(k is Comment));
    }
}

proof fn lemma_code_lexemes_concat(a: Seq<(Lexeme, int, int)>, c: Seq<(Lexeme, int, int)>)
    ensures
        code_lexemes(a + c) == code_lexemes(a) + code_lexemes(c),
    decreases a.len(),
{
    if a.len() == 0 {
        assert(a + c =~= c);
        assert(code_lexemes(a) + code_lexemes(c) =~= code_lexemes(c));
    } else {
        assert((a + c).drop_first() =~= a.drop_first() + c);
        lemma_code_lexemes_concat(a.drop_first(), c);
        assert((a + c)[0] == a[0]);
        if a[0].0 is Remark {
        } else {
            assert(seq![a[0]] + (code_lexemes(a.drop_first()) + code_lexemes(c)) =~= (seq![a[0]]
                + code_lexemes(a.drop_first())) + code_lexemes(c));
        }
    }
}

/// Tokenizes source code. Returns tokens paired with byte-offset spans,
/// plus an [`OrynError::Lexer`] for each unrecognized piece of input.
/// Comments are kept as [`Token::Comment`]; see [`lex`] for the stream
/// without them.
pub fn lex_all(source: &str) -> (r: (Vec<(Token, Range<usize>)>, Vec<OrynError>))
    ensures
        tokens_match(source.spec_bytes(), r.0@, lexemes(source.spec_bytes(), 0).0),
        errors_match(r.1@, lexemes(source.spec_bytes(), 0).1),
{
    let b = source.as_bytes();
    let mut tokens: Vec<(Token, Range<usize>)> = Vec::new();
    let mut errors: Vec<OrynError> = Vec::new();
    let mut i: usize = 0;
    let ghost mut lx: Seq<(Lexeme, int, int)> = seq![];
    let ghost mut es: Seq<(int, int)> = seq![];
    assert(lexemes(b@, 0) == (lx + lexemes(b@, 0).0, es + lexemes(b@, 0).1)) by {
        assert(lx + lexemes(b@, 0).0 =~= lexemes(b@, 0).0);
        assert(es + lexemes(b@, 0).1 =~= lexemes(b@, 0).1);
    }
    while i < b.len()
        invariant
            b@ == source.spec_bytes(),
            i <= b@.len(),
            lexemes(b@, 0) == (lx + lexemes(b@, i as int).0, es + lexemes(b@, i as int).1),
            tokens_match(b@, tokens@, lx),
            errors_match(errors@, es),
        decreases b@.len() - i,
    {
        let (outcome, e) = scan_one(source, b, i);
        proof {
            lemma_scan_at(b@, i as int);
        }
        let ghost lx0 = scan_at(b@, i as int).0;
        let ghost rest = lexemes(b@, e as int);
        match outcome {
            Scanned::Skip => {
                assert(lexemes(b@, i as int) == rest);
            },
            Scanned::Bad => {
                errors.push(OrynError::Lexer { span: Range { start: i, end: e } });
                proof {
                    assert(lexemes(b@, i as int) == (rest.0, seq![(i as int, e as int)] + rest.1));
                    assert(es + (seq![(i as int, e as int)] + rest.1) =~= es.push((i as int, e as int)) + rest.1);
                    es = es.push((i as int, e as int));
                }
            },
            Scanned::Found(t) => {
                tokens.push((t, Range { start: i, end: e }));
                proof {
                    assert(lexemes(b@, i as int) == (seq![(lx0, i as int, e as int)] + rest.0, rest.1));
                    assert(lx + (seq![(lx0, i as int, e as int)] + rest.0) =~= lx.push((lx0, i as int, e as int)) + rest.0);
                    lx = lx.push((lx0, i as int, e as int));
                }
            },
        }
        i = e;
    }
    proof {
        assert(lx + lexemes(b@, i as int).0 =~= lx);
        assert(es + lexemes(b@, i as int).1 =~= es);
    }
    (tokens, errors)
}

/// Tokenizes source code like [`lex_all`], leaving out comments: the
/// token stream the parser reads.
pub fn lex(source: &str) -> (r: (Vec<(Token, Range<usize>)>, Vec<OrynError>))
    ensures
        tokens_match(source.spec_bytes(), r.0@, code_lexemes(lexemes(source.spec_bytes(), 0).0)),
        errors_match(r.1@, lexemes(source.spec_bytes(), 0).1),
{
    let b = source.as_bytes();
    let mut tokens: Vec<(Token, Range<usize>)> = Vec::new();
    let mut errors: Vec<OrynError> = Vec::new();
    let mut i: usize = 0;
    let ghost mut lx: Seq<(Lexeme, int, int)> = seq![];
    let ghost mut es: Seq<(int, int)> = seq![];
    let ghost all = lexemes(b@, 0).0;
    proof {
        assert(lx + code_lexemes(lexemes(b@, 0).0) =~= code_lexemes(lexemes(b@, 0).0));
        assert(es + lexemes(b@, 0).1 =~= lexemes(b@, 0).1);
    }
    while i < b.len()
        invariant
            b@ == source.spec_bytes(),
            i <= b@.len(),
            code_lexemes(lexemes(b@, 0).0) == lx + code_lexemes(lexemes(b@, i as int).0),
            lexemes(b@, 0).1 == es + lexemes(b@, i as int).1,
            tokens_match(b@, tokens@, lx),
            errors_match(errors@, es),
        decreases b@.len() - i,
    {
        let (outcome, e) = scan_one(source, b, i);
        proof {
            lemma_scan_at(b@, i as int);
            lemma_fixed_not_comment(b@, i as int);
        }
        let ghost lx0 = scan_at(b@, i as int).0;
        let ghost rest = lexemes(b@, e as int);
        match outcome {
            Scanned::Skip => {
                assert(lexemes(b@, i as int) == rest);
            },
            Scanned::Bad => {
                errors.push(OrynError::Lexer { span: Range { start: i, end: e } });
                proof {
                    assert(lexemes(b@, i as int) == (rest.0, seq![(i as int, e as int)] + rest.1));
                    assert(es + (seq![(i as int, e as int)] + rest.1) =~= es.push((i as int, e as int)) + rest.1);
                    es = es.push((i as int, e as int));
                }
            },
            Scanned::Found(t) => {
                proof {
                    assert(lexemes(b@, i as int) == (seq![(lx0, i as int, e as int)] + rest.0, rest.1));
                    lemma_code_lexemes_concat(seq![(lx0, i as int, e as int)], rest.0);
                    let one = seq![(lx0, i as int, e as int)];
                    assert(one.drop_first() =~= Seq::<(Lexeme, int, int)>::empty());
                    assert(code_lexemes(one.drop_first()) =~= Seq::<(Lexeme, int, int)>::empty());
                }
                let is_comment = match &t {
                    Token::Comment(_) => true,
                    _ => false,
                };
                if !is_comment {
                    tokens.push((t, Range { start: i, end: e }));
                    proof {
                        let one = seq![(lx0, i as int, e as int)];
                        assert(code_lexemes(one) =~= one);
                        assert(lx + (one + code_lexemes(rest.0)) =~= lx.push((lx0, i as int, e as int)) + code_lexemes(rest.0));
                        lx = lx.push((lx0, i as int, e as int));
                    }
                } else {
                    proof {
                        let one = seq![(lx0, i as int, e as int)];
                        assert(code_lexemes(one) =~= Seq::<(Lexeme, int, int)>::empty());
                        assert(lx + (code_lexemes(one) + code_lexemes(rest.0)) =~= lx + code_lexemes(rest.0));
                    }
                }
            },
        }
        i = e;
    }
    proof {
        assert(lx + code_lexemes(lexemes(b@, i as int).0) =~= lx);
        assert(es + lexemes(b@, i as int).1 =~= es);
    }
    (tokens, errors)
}


/// How a token is shown in messages: its source text for keywords,
/// operators and punctuation, the value or text of a literal, the name of
/// an identifier, and `newline` for a line break.
pub open spec fn token_text(t: Token) -> Seq<char> {
    match t {
        Token::Let => "let"@,
        Token::Val => "val"@,
        Token::Fn => "fn"@,
        Token::Rn => "rn"@,
        Token::Obj => "obj"@,
        Token::Use => "use"@,
        Token::For => "for"@,
        Token::In => "in"@,
        Token::Pub => "pub"@,
        Token::Mut => "mut"@,
        Token::Import => "import"@,
        Token::Try => "try"@,
        Token::Nil => "nil"@,
        Token::Test => "test"@,
        Token::Assert => "assert"@,
        Token::True => "true"@,
        Token::False => "false"@,
        Token::Float(text) => text@,
        Token::Int(n) => crate::text::signed_decimal(n as int),
        Token::String(text) => text@,
        Token::Equals => "="@,
        Token::Plus => "+"@,
        Token::Minus => "-"@,
        Token::Multiply => "*"@,
        Token::Divide => "/"@,
        Token::EqualsEquals => "=="@,
        Token::NotEquals => "!="@,
        Token::Orelse => "orelse"@,
        Token::Question => "?"@,
        Token::Bang => "!"@,
        Token::LessThan => "<"@,
        Token::GreaterThan => ">"@,
        Token::LessThanEquals => "<="@,
        Token::GreaterThanEquals => ">="@,
        Token::And => "and"@,
        Token::Or => "or"@,
        Token::Not => "not"@,
        Token::If => "if"@,
        Token::Unless => "unless"@,
        Token::Elif => "elif"@,
        Token::Else => "else"@,
        Token::While => "while"@,
        Token::Break => "break"@,
        Token::Continue => "continue"@,
        Token::DotDotEquals => "..="@,
        Token::DotDot => ".."@,
        Token::Dot => "."@,
        Token::Colon => ":"@,
        Token::Arrow => "->"@,
        Token::Comma => ","@,
        Token::LeftParen => "("@,
        Token::RightParen => ")"@,
        Token::LeftCurly => "{"@,
        Token::RightCurly => "}"@,
        Token::LeftBracket => "["@,
        Token::RightBracket => "]"@,
        Token::Newline => "newline"@,
        Token::Ident(name) => name@,
        Token::Comment(text) => text@,
    }
}

impl Token {
    /// The token as shown in messages (see [`token_text`]).
    pub fn text(&self) -> (r: String)
        ensures
            r@ == token_text(*self),
    {
        match self {
            Token::Let => String::from_str("let"),
            Token::Val => String::from_str("val"),
            Token::Fn => String::from_str("fn"),
            Token::Rn => String::from_str("rn"),
            Token::Obj => String::from_str("obj"),
            Token::Use => String::from_str("use"),
            Token::For => String::from_str("for"),
            Token::In => String::from_str("in"),
            Token::Pub => String::from_str("pub"),
            Token::Mut => String::from_str("mut"),
            Token::Import => String::from_str("import"),
            Token::Try => String::from_str("try"),
            Token::Nil => String::from_str("nil"),
            Token::Test => String::from_str("test"),
            Token::Assert => String::from_str("assert"),
            Token::True => String::from_str("true"),
            Token::False => String::from_str("false"),
            Token::Float(text) => text.clone(),
            Token::Int(n) => crate::text::signed_to_string(*n as i64),
            Token::String(text) => text.clone(),
            Token::Equals => String::from_str("="),
            Token::Plus => String::from_str("+"),
            Token::Minus => String::from_str("-"),
            Token::Multiply => String::from_str("*"),
            Token::Divide => String::from_str("/"),
            Token::EqualsEquals => String::from_str("=="),
            Token::NotEquals => String::from_str("!="),
            Token::Orelse => String::from_str("orelse"),
            Token::Question => String::from_str("?"),
            Token::Bang => String::from_str("!"),
            Token::LessThan => String::from_str("<"),
            Token::GreaterThan => String::from_str(">"),
            Token::LessThanEquals => String::from_str("<="),
            Token::GreaterThanEquals => String::from_str(">="),
            Token::And => String::from_str("and"),
            Token::Or => String::from_str("or"),
            Token::Not => String::from_str("not"),
            Token::If => String::from_str("if"),
            Token::Unless => String::from_str("unless"),
            Token::Elif => String::from_str("elif"),
            Token::Else => String::from_str("else"),
            Token::While => String::from_str("while"),
            Token::Break => String::from_str("break"),
            Token::Continue => String::from_str("continue"),
            Token::DotDotEquals => String::from_str("..="),
            Token::DotDot => String::from_str(".."),
            Token::Dot => String::from_str("."),
            Token::Colon => String::from_str(":"),
            Token::Arrow => String::from_str("->"),
            Token::Comma => String::from_str(","),
            Token::LeftParen => String::from_str("("),
            Token::RightParen => String::from_str(")"),
            Token::LeftCurly => String::from_str("{"),
            Token::RightCurly => String::from_str("}"),
            Token::LeftBracket => String::from_str("["),
            Token::RightBracket => String::from_str("]"),
            Token::Newline => String::from_str("newline"),
            Token::Ident(name) => name.clone(),
            Token::Comment(text) => text.clone(),
        }
    }
}

/// A lexeme the parser can be handed: a token with its class, inside
/// the source, and no payload on a keyword or operator.
pub open spec fn code_shape(b: Seq<u8>, x: (Lexeme, int, int)) -> bool {
    &&& 0 <= x.1 < x.2 <= b.len()
    &&& !(x.0 is Blank || x.0 is Unknown || x.0 is Remark)
    &&& (x.0 matches Lexeme::Fixed(k) ==> !(k is Float || k is Int || k is String || k is Ident
        || k is Comment))
}

proof fn lemma_scan_fixed_plain(b: Seq<u8>, i: int)
    requires
        0 <= i < b.len(),
    ensures
        scan_at(b, i).0 matches Lexeme::Fixed(k) ==> !(k is Float || k is Int || k is String
            || k is Ident || k is Comment),
{
    let c = b[i];
    if is_word_start(c) {
        let n = word_run(b, i);
        let w = b.subrange(i, i + n);
        assert(keyword_of(w) matches Some(k) ==> !(k is Float || k is Int || k is String
            || k is Ident || k is Comment));
    }
}

/// Every lexeme found from `i` on has a class and lies inside `b`;
/// outside comments, each has the shape the parser expects.
pub proof fn lemma_lexemes_shape(b: Seq<u8>, i: int)
    requires
        0 <= i,
    ensures
        forall|k: int|
            0 <= k < lexemes(b, i).0.len() ==> {
                let x = #[trigger] lexemes(b, i).0[k];
                (!(x.0 is Remark) ==> code_shape(b, x)) && i <= x.1
            },
    decreases b.len() - i,
{
    if 0 <= i < b.len() {
        let (lx, e) = scan_at(b, i);
        lemma_scan_at(b, i);
        lemma_scan_fixed_plain(b, i);
        if e > i && e <= b.len() {
            lemma_lexemes_shape(b, e);
        }
    }
}

/// Comments left out, every lexeme has the shape the parser expects.
pub proof fn lemma_code_lexemes_shape(b: Seq<u8>, toks: Seq<(Lexeme, int, int)>)
    requires
        forall|k: int| 0 <= k < toks.len() ==> (!((#[trigger] toks[k]).0 is Remark) ==> code_shape(b, toks[k])),
    ensures
        forall|k: int| 0 <= k < code_lexemes(toks).len() ==> code_shape(b, #[trigger] code_lexemes(toks)[k]),
    decreases toks.len(),
{
    if toks.len() > 0 {
        let rest = toks.drop_first();
        assert forall|k: int| 0 <= k < rest.len() implies (!((#[trigger] rest[k]).0 is Remark) ==> code_shape(b, rest[k])) by {
            assert(rest[k] == toks[k + 1]);
        }
        lemma_code_lexemes_shape(b, rest);
        if !(toks[0].0 is Remark) {
            let c = code_lexemes(toks);
            assert forall|k: int| 0 <= k < c.len() implies code_shape(b, #[trigger] c[k]) by {
                if k > 0 {
                    assert(c[k] == code_lexemes(rest)[k - 1]);
                }
            }
        }
    }
}

/// The lexemes `s` lie inside `lo..hi`, each non-empty, in order and
/// without overlap.
pub open spec fn in_order(s: Seq<(Lexeme, int, int)>, lo: int, hi: int) -> bool {
    &&& forall|k: int| 0 <= k < s.len() ==> lo <= (#[trigger] s[k]).1 < s[k].2 <= hi
    &&& forall|k: int, m: int| 0 <= k < m < s.len() ==> (#[trigger] s[k]).2 <= (#[trigger] s[m]).1
}

proof fn lemma_lexemes_in_order(b: Seq<u8>, i: int)
    requires
        0 <= i,
    ensures
        in_order(lexemes(b, i).0, i, b.len() as int),
    decreases b.len() - i,
{
    if 0 <= i < b.len() {
        let (lx, e) = scan_at(b, i);
        lemma_scan_at(b, i);
        lemma_lexemes_in_order(b, e);
        let rest = lexemes(b, e).0;
        let all = lexemes(b, i).0;
        if !(lx is Blank) && !is_error_lexeme(b, lx, i, e) {
            assert(all == seq![(lx, i, e)] + rest);
            assert forall|k: int| 0 <= k < all.len() implies i <= (#[trigger] all[k]).1 < all[k].2
                <= b.len() by {
                if k > 0 {
                    assert(all[k] == rest[k - 1]);
                }
            }
            assert forall|k: int, m: int| 0 <= k < m < all.len() implies (#[trigger] all[k]).2 <= (
            #[trigger] all[m]).1 by {
                assert(all[m] == rest[m - 1]);
                if k > 0 {
                    assert(all[k] == rest[k - 1]);
                }
            }
        }
    }
}

proof fn lemma_code_lexemes_in_order(toks: Seq<(Lexeme, int, int)>, lo: int, hi: int)
    requires
        in_order(toks, lo, hi),
    ensures
        in_order(code_lexemes(toks), lo, hi),
    decreases toks.len(),
{
    if toks.len() > 0 {
        let rest = toks.drop_first();
        assert forall|k: int| 0 <= k < rest.len() implies toks[0].2 <= (#[trigger] rest[k]).1 < rest[k].2
            <= hi by {
            assert(rest[k] == toks[k + 1]);
        }
        assert forall|k: int, m: int| 0 <= k < m < rest.len() implies (#[trigger] rest[k]).2 <= (
        #[trigger] rest[m]).1 by {
            assert(rest[k] == toks[k + 1]);
            assert(rest[m] == toks[m + 1]);
        }
        lemma_code_lexemes_in_order(rest, toks[0].2, hi);
        let c = code_lexemes(toks);
        let cr = code_lexemes(rest);
        if toks[0].0 is Remark {
            assert(c == cr);
        } else {
            assert(c == seq![toks[0]] + cr);
            assert forall|k: int| 0 <= k < c.len() implies lo <= (#[trigger] c[k]).1 < c[k].2 <= hi by {
                if k > 0 {
                    assert(c[k] == cr[k - 1]);
                }
            }
            assert forall|k: int, m: int| 0 <= k < m < c.len() implies (#[trigger] c[k]).2 <= (
            #[trigger] c[m]).1 by {
                assert(c[m] == cr[m - 1]);
                if k > 0 {
                    assert(c[k] == cr[k - 1]);
                }
            }
        }
    }
}

/// The tokens that [`lex`] and [`lex_all`] return come in source order:
/// each covers a non-empty byte range of the source, and each ends where
/// or before the next begins.
pub proof fn lexed_tokens_follow_the_source(
    source: &str,
    toks: Seq<(Token, Range<usize>)>,
    without_comments: bool,
)
    requires
        tokens_match(
            source.spec_bytes(),
            toks,
            if without_comments {
                code_lexemes(lexemes(source.spec_bytes(), 0).0)
            } else {
                lexemes(source.spec_bytes(), 0).0
            },
        ),
    ensures
        forall|k: int|
            0 <= k < toks.len() ==> (#[trigger] toks[k]).1.start < toks[k].1.end
                <= source.spec_bytes().len(),
        forall|k: int, m: int|
            0 <= k < m < toks.len() ==> (#[trigger] toks[k]).1.end <= (#[trigger] toks[m]).1.start,
{
    let b = source.spec_bytes();
    lemma_lexemes_in_order(b, 0);
    lemma_code_lexemes_in_order(lexemes(b, 0).0, 0, b.len() as int);
    let lx = if without_comments {
        code_lexemes(lexemes(b, 0).0)
    } else {
        lexemes(b, 0).0
    };
    assert(in_order(lx, 0, b.len() as int));
    assert forall|k: int, m: int| 0 <= k < m < toks.len() implies (#[trigger] toks[k]).1.end <= (
    #[trigger] toks[m]).1.start by {
        assert(toks[k].1.start == lx[k].1);
        assert(toks[k].1.end == lx[k].2);
        assert(toks[m].1.start == lx[m].1);
        assert(lx[k].2 <= lx[m].1);
    }
}

} // verus!
