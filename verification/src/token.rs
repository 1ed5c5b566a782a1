//! The lexer: expression text to tokens with byte positions.

use vstd::prelude::*;
use crate::error::{ParseError, ParseErrorView};
use crate::text::{append_chars, chars_of, string_of};

verus! {

/// What a token is.
#[derive(Debug, Clone, PartialEq)]
pub enum TokenKind {
    Ident(String),
    Number(String),
    String(String),
    True,
    False,
    Null,
    LParen,
    RParen,
    LBracket,
    RBracket,
    LBrace,
    RBrace,
    Comma,
    Colon,
    Dot,
    Arrow,
    Plus,
    Minus,
    Star,
    Slash,
    Percent,
    Bang,
    AndAnd,
    OrOr,
    EqEq,
    NotEq,
    Lt,
    Le,
    Gt,
    Ge,
    Eof,
}

/// A token and the byte offset of its first character.
#[derive(Debug, Clone)]
pub struct Token {
    pub kind: TokenKind,
    pub position: usize,
}

/// The mathematical content of a [`TokenKind`].
pub ghost enum TokenKindView {
    Ident(Seq<char>),
    Number(Seq<char>),
    Str(Seq<char>),
    True,
    False,
    Null,
    LParen,
    RParen,
    LBracket,
    RBracket,
    LBrace,
    RBrace,
    Comma,
    Colon,
    Dot,
    Arrow,
    Plus,
    Minus,
    Star,
    Slash,
    Percent,
    Bang,
    AndAnd,
    OrOr,
    EqEq,
    NotEq,
    Lt,
    Le,
    Gt,
    Ge,
    Eof,
}

/// The mathematical content of a [`Token`].
pub ghost struct TokenView {
    pub kind: TokenKindView,
    pub position: nat,
}

impl View for TokenKind {
    type V = TokenKindView;

    open spec fn view(&self) -> TokenKindView {
        match self {
            TokenKind::Ident(s) => TokenKindView::Ident(s@),
            TokenKind::Number(s) => TokenKindView::Number(s@),
            TokenKind::String(s) => TokenKindView::Str(s@),
            TokenKind::True => TokenKindView::True,
            TokenKind::False => TokenKindView::False,
            TokenKind::Null => TokenKindView::Null,
            TokenKind::LParen => TokenKindView::LParen,
            TokenKind::RParen => TokenKindView::RParen,
            TokenKind::LBracket => TokenKindView::LBracket,
            TokenKind::RBracket => TokenKindView::RBracket,
            TokenKind::LBrace => TokenKindView::LBrace,
            TokenKind::RBrace => TokenKindView::RBrace,
            TokenKind::Comma => TokenKindView::Comma,
            TokenKind::Colon => TokenKindView::Colon,
            TokenKind::Dot => TokenKindView::Dot,
            TokenKind::Arrow => TokenKindView::Arrow,
            TokenKind::Plus => TokenKindView::Plus,
            TokenKind::Minus => TokenKindView::Minus,
            TokenKind::Star => TokenKindView::Star,
            TokenKind::Slash => TokenKindView::Slash,
            TokenKind::Percent => TokenKindView::Percent,
            TokenKind::Bang => TokenKindView::Bang,
            TokenKind::AndAnd => TokenKindView::AndAnd,
            TokenKind::OrOr => TokenKindView::OrOr,
            TokenKind::EqEq => TokenKindView::EqEq,
            TokenKind::NotEq => TokenKindView::NotEq,
            TokenKind::Lt => TokenKindView::Lt,
            TokenKind::Le => TokenKindView::Le,
            TokenKind::Gt => TokenKindView::Gt,
            TokenKind::Ge => TokenKindView::Ge,
            TokenKind::Eof => TokenKindView::Eof,
        }
    }
}

impl View for Token {
    type V = TokenView;

    open spec fn view(&self) -> TokenView {
        TokenView { kind: self.kind@, position: self.position as nat }
    }
}

/// The contents of each token of `tokens`, in order.
pub open spec fn tokens_view(tokens: Seq<Token>) -> Seq<TokenView> {
    Seq::new(tokens.len(), |i: int| tokens[i]@)
}

/// White space: the characters with the Unicode property `White_Space`.
pub open spec fn is_space(c: char) -> bool {
    let u = c as u32;
    (0x09 <= u <= 0x0D) || u == 0x20 || u == 0x85 || u == 0xA0 || u == 0x1680 || (0x2000 <= u
        <= 0x200A) || u == 0x2028 || u == 0x2029 || u == 0x202F || u == 0x205F || u == 0x3000
}

pub open spec fn is_digit(c: char) -> bool {
    '0' <= c <= '9'
}

pub open spec fn is_alpha(c: char) -> bool {
    ('a' <= c <= 'z') || ('A' <= c <= 'Z')
}

pub open spec fn is_ident_start(c: char) -> bool {
    is_alpha(c) || c == '_'
}

pub open spec fn is_ident_part(c: char) -> bool {
    is_alpha(c) || is_digit(c) || c == '_'
}

/// The number of bytes that `c` takes in UTF-8.
pub open spec fn utf8_width(c: char) -> nat {
    let u = c as u32;
    if u < 0x80 {
        1
    } else if u < 0x800 {
        2
    } else if u < 0x10000 {
        3
    } else {
        4
    }
}

/// The byte offset of the character at index `i` of `s`: the UTF-8 widths of
/// the characters before it, added up.
pub open spec fn byte_offset(s: Seq<char>, i: int) -> nat
    decreases i,
{
    if i <= 0 || i > s.len() {
        0
    } else {
        byte_offset(s, i - 1) + utf8_width(s[i - 1])
    }
}

/// The first index from `i` on that holds no white space.
pub open spec fn skip_space(s: Seq<char>, i: int) -> int
    decreases s.len() - i,
{
    if 0 <= i < s.len() && is_space(s[i]) {
        skip_space(s, i + 1)
    } else {
        i
    }
}

/// The first index from `i` on that holds no digit.
pub open spec fn scan_digits(s: Seq<char>, i: int) -> int
    decreases s.len() - i,
{
    if 0 <= i < s.len() && is_digit(s[i]) {
        scan_digits(s, i + 1)
    } else {
        i
    }
}

/// The first index from `i` on that holds no letter, digit or underscore.
pub open spec fn scan_ident(s: Seq<char>, i: int) -> int
    decreases s.len() - i,
{
    if 0 <= i < s.len() && is_ident_part(s[i]) {
        scan_ident(s, i + 1)
    } else {
        i
    }
}

/// Where the number that starts with the digit at `j` ends: digits, then
/// optionally a point and digits, then optionally an exponent mark, a sign
/// and digits.
pub open spec fn number_end(s: Seq<char>, j: int) -> int {
    let a = scan_digits(s, j + 1);
    let b = if 0 <= a < s.len() && s[a] == '.' {
        scan_digits(s, a + 1)
    } else {
        a
    };
    if 0 <= b < s.len() && (s[b] == 'e' || s[b] == 'E') {
        if 0 <= b + 1 < s.len() && (s[b + 1] == '+' || s[b + 1] == '-') {
            scan_digits(s, b + 2)
        } else {
            scan_digits(s, b + 1)
        }
    } else {
        b
    }
}

/// The character that an escape with the letter `c` stands for.
pub open spec fn unescape(c: char) -> char {
    if c == 'n' {
        '\n'
    } else if c == 't' {
        '\t'
    } else if c == 'r' {
        '\r'
    } else {
        c
    }
}

/// How scanning a string literal ends.
pub ghost enum StringScan {
    /// Closed by a quote: the text, and the index after the quote.
    Closed(Seq<char>, int),
    /// The input ended inside the literal.
    Open,
    /// The input ended right after a backslash.
    OpenEscape,
}

/// Scans the inside of a string literal from `i` on, with `acc` read so far.
pub open spec fn scan_string(s: Seq<char>, i: int, acc: Seq<char>) -> StringScan
    decreases s.len() - i,
{
    if i < 0 || i >= s.len() {
        StringScan::Open
    } else if s[i] == '"' {
        StringScan::Closed(acc, i + 1)
    } else if s[i] == '\\' {
        if i + 1 >= s.len() {
            StringScan::OpenEscape
        } else {
            scan_string(s, i + 2, acc.push(unescape(s[i + 1])))
        }
    } else {
        scan_string(s, i + 1, acc.push(s[i]))
    }
}

/// The kind of the word `text`: a keyword or an identifier.
pub open spec fn word_kind(text: Seq<char>) -> TokenKindView {
    if text == "true"@ {
        TokenKindView::True
    } else if text == "false"@ {
        TokenKindView::False
    } else if text == "null"@ {
        TokenKindView::Null
    } else {
        TokenKindView::Ident(text)
    }
}

/// Whether the character at `i` is `c`.
pub open spec fn has_char(s: Seq<char>, i: int, c: char) -> bool {
    0 <= i < s.len() && s[i] == c
}

/// A scanned token: its kind and the index after it.
pub ghost struct Scanned {
    pub kind: TokenKindView,
    pub next: int,
}

/// An error at the byte offset of index `j`.
pub open spec fn error_at(s: Seq<char>, j: int, message: Seq<char>) -> ParseErrorView {
    ParseErrorView { message, position: byte_offset(s, j) }
}

/// The message for a character that starts no token.
pub open spec fn unexpected_char(c: char) -> Seq<char> {
    "unexpected character '"@.push(c) + "'"@
}

/// The token that starts at index `j`, which holds no white space.
pub open spec fn scan_token(s: Seq<char>, j: int) -> Result<Scanned, ParseErrorView>
    recommends
        0 <= j < s.len(),
{
    let c = s[j];
    let one = j + 1;
    if is_ident_start(c) {
        let end = scan_ident(s, j + 1);
        Ok(Scanned { kind: word_kind(s.subrange(j, end)), next: end })
    } else if is_digit(c) {
        let end = number_end(s, j);
        Ok(Scanned { kind: TokenKindView::Number(s.subrange(j, end)), next: end })
    } else if c == '"' {
        match scan_string(s, j + 1, Seq::empty()) {
            StringScan::Closed(text, next) => Ok(Scanned { kind: TokenKindView::Str(text), next }),
            StringScan::Open => Err(error_at(s, j, "unterminated string literal"@)),
            StringScan::OpenEscape => Err(error_at(s, j, "unterminated escape in string"@)),
        }
    } else if c == '(' {
        Ok(Scanned { kind: TokenKindView::LParen, next: one })
    } else if c == ')' {
        Ok(Scanned { kind: TokenKindView::RParen, next: one })
    } else if c == '[' {
        Ok(Scanned { kind: TokenKindView::LBracket, next: one })
    } else if c == ']' {
        Ok(Scanned { kind: TokenKindView::RBracket, next: one })
    } else if c == '{' {
        Ok(Scanned { kind: TokenKindView::LBrace, next: one })
    } else if c == '}' {
        Ok(Scanned { kind: TokenKindView::RBrace, next: one })
    } else if c == ',' {
        Ok(Scanned { kind: TokenKindView::Comma, next: one })
    } else if c == ':' {
        Ok(Scanned { kind: TokenKindView::Colon, next: one })
    } else if c == '.' {
        Ok(Scanned { kind: TokenKindView::Dot, next: one })
    } else if c == '+' {
        Ok(Scanned { kind: TokenKindView::Plus, next: one })
    } else if c == '-' {
        Ok(Scanned { kind: TokenKindView::Minus, next: one })
    } else if c == '*' {
        Ok(Scanned { kind: TokenKindView::Star, next: one })
    } else if c == '/' {
        Ok(Scanned { kind: TokenKindView::Slash, next: one })
    } else if c == '%' {
        Ok(Scanned { kind: TokenKindView::Percent, next: one })
    } else if c == '!' {
        if has_char(s, one, '=') {
            Ok(Scanned { kind: TokenKindView::NotEq, next: j + 2 })
        } else {
            Ok(Scanned { kind: TokenKindView::Bang, next: one })
        }
    } else if c == '&' {
        if has_char(s, one, '&') {
            Ok(Scanned { kind: TokenKindView::AndAnd, next: j + 2 })
        } else {
            Err(error_at(s, j, "unexpected '&' (did you mean '&&'?)"@))
        }
    } else if c == '|' {
        if has_char(s, one, '|') {
            Ok(Scanned { kind: TokenKindView::OrOr, next: j + 2 })
        } else {
            Err(error_at(s, j, "unexpected '|' (did you mean '||'?)"@))
        }
    } else if c == '=' {
        if has_char(s, one, '=') {
            Ok(Scanned { kind: TokenKindView::EqEq, next: j + 2 })
        } else if has_char(s, one, '>') {
            Ok(Scanned { kind: TokenKindView::Arrow, next: j + 2 })
        } else {
            Err(error_at(s, j, "unexpected '=' (did you mean '==')?"@))
        }
    } else if c == '<' {
        if has_char(s, one, '=') {
            Ok(Scanned { kind: TokenKindView::Le, next: j + 2 })
        } else {
            Ok(Scanned { kind: TokenKindView::Lt, next: one })
        }
    } else if c == '>' {
        if has_char(s, one, '=') {
            Ok(Scanned { kind: TokenKindView::Ge, next: j + 2 })
        } else {
            Ok(Scanned { kind: TokenKindView::Gt, next: one })
        }
    } else {
        Err(error_at(s, j, unexpected_char(c)))
    }
}

/// `tokens` in front of what `rest` holds, or the error of `rest`.
pub open spec fn prepend(tokens: Seq<TokenView>, rest: Result<Seq<TokenView>, ParseErrorView>) -> Result<
    Seq<TokenView>,
    ParseErrorView,
> {
    match rest {
        Ok(more) => Ok(tokens + more),
        Err(e) => Err(e),
    }
}

/// The tokens of `s` from index `i` on, closed by the end marker.
pub open spec fn lex_from(s: Seq<char>, i: int) -> Result<Seq<TokenView>, ParseErrorView>
    decreases s.len() - i,
{
    let j = skip_space(s, i);
    if i < 0 || i >= s.len() || j < 0 || j >= s.len() {
        Ok(seq![TokenView { kind: TokenKindView::Eof, position: byte_offset(s, s.len() as int) }])
    } else {
        match scan_token(s, j) {
            Err(e) => Err(e),
            Ok(t) => if t.next <= i || t.next > s.len() {
                Err(error_at(s, j, Seq::empty()))
            } else {
                prepend(
                    seq![TokenView { kind: t.kind, position: byte_offset(s, j) }],
                    lex_from(s, t.next),
                )
            },
        }
    }
}

/// The tokens of the text `s`: each with the byte offset of its first
/// character, the last one the end marker at the length of the text. A text
/// whose byte length does not fit a machine word is refused.
pub open spec fn lex(s: Seq<char>) -> Result<Seq<TokenView>, ParseErrorView> {
    if byte_offset(s, s.len() as int) > usize::MAX {
        Err(ParseErrorView { message: "input too long"@, position: 0 })
    } else {
        lex_from(s, 0)
    }
}

/// A scan moves forward and stays inside the text.
pub proof fn lemma_scan_bounds(s: Seq<char>, i: int)
    requires
        0 <= i <= s.len(),
    ensures
        i <= skip_space(s, i) <= s.len(),
        i <= scan_digits(s, i) <= s.len(),
        i <= scan_ident(s, i) <= s.len(),
    decreases s.len() - i,
{
    if i < s.len() {
        lemma_scan_bounds(s, i + 1);
    }
}

/// A number ends after its first digit and inside the text.
pub proof fn lemma_number_bounds(s: Seq<char>, j: int)
    requires
        0 <= j < s.len(),
    ensures
        j < number_end(s, j) <= s.len(),
{
    lemma_scan_bounds(s, j + 1);
    let a = scan_digits(s, j + 1);
    if a < s.len() {
        lemma_scan_bounds(s, a + 1);
    }
    let b = if a < s.len() && s[a] == '.' {
        scan_digits(s, a + 1)
    } else {
        a
    };
    if b < s.len() {
        lemma_scan_bounds(s, b + 1);
        if b + 1 < s.len() {
            lemma_scan_bounds(s, b + 2);
        }
    }
}

/// A closed string literal ends after where its scan began, inside the text.
pub proof fn lemma_string_bounds(s: Seq<char>, i: int, acc: Seq<char>)
    requires
        0 <= i <= s.len(),
    ensures
        scan_string(s, i, acc) matches StringScan::Closed(_, next) ==> i < next <= s.len(),
    decreases s.len() - i,
{
    if i < s.len() && s[i] != '"' {
        if s[i] == '\\' {
            if i + 1 < s.len() {
                lemma_string_bounds(s, i + 2, acc.push(unescape(s[i + 1])));
            }
        } else {
            lemma_string_bounds(s, i + 1, acc.push(s[i]));
        }
    }
}

/// Every token takes at least one character and ends inside the text.
pub proof fn lemma_token_bounds(s: Seq<char>, j: int)
    requires
        0 <= j < s.len(),
    ensures
        scan_token(s, j) matches Ok(t) ==> j < t.next <= s.len(),
{
    lemma_scan_bounds(s, j + 1);
    lemma_number_bounds(s, j);
    lemma_string_bounds(s, j + 1, Seq::empty());
}

/// Byte offsets grow with the index.
pub proof fn lemma_offset_monotonic(s: Seq<char>, i: int, j: int)
    requires
        0 <= i <= j <= s.len(),
    ensures
        byte_offset(s, i) <= byte_offset(s, j),
    decreases j - i,
{
    if i < j {
        lemma_offset_monotonic(s, i, j - 1);
    }
}

fn char_is_space(c: char) -> (r: bool)
    ensures
        r == is_space(c),
{
    let u = c as u32;
    (0x09 <= u && u <= 0x0D) || u == 0x20 || u == 0x85 || u == 0xA0 || u == 0x1680 || (0x2000 <= u
        && u <= 0x200A) || u == 0x2028 || u == 0x2029 || u == 0x202F || u == 0x205F || u == 0x3000
}

pub(crate) fn char_is_digit(c: char) -> (r: bool)
    ensures
        r == is_digit(c),
{
    '0' <= c && c <= '9'
}

pub(crate) fn char_is_alpha(c: char) -> (r: bool)
    ensures
        r == is_alpha(c),
{
    ('a' <= c && c <= 'z') || ('A' <= c && c <= 'Z')
}

fn char_is_ident_part(c: char) -> (r: bool)
    ensures
        r == is_ident_part(c),
{
    char_is_alpha(c) || char_is_digit(c) || c == '_'
}

fn char_width(c: char) -> (r: usize)
    ensures
        r == utf8_width(c),
{
    let u = c as u32;
    if u < 0x80 {
        1
    } else if u < 0x800 {
        2
    } else if u < 0x10000 {
        3
    } else {
        4
    }
}

/// The byte length of the whole text, if it fits a machine word.
fn byte_length(chars: &Vec<char>) -> (r: Option<usize>)
    ensures
        match r {
            Some(n) => n == byte_offset(chars@, chars@.len() as int),
            None => byte_offset(chars@, chars@.len() as int) > usize::MAX,
        },
{
    let mut total: usize = 0;
    let mut i: usize = 0;
    while i < chars.len()
        invariant
            i <= chars.len(),
            total == byte_offset(chars@, i as int),
        decreases chars.len() - i,
    {
        let w = char_width(chars[i]);
        if total > usize::MAX - w {
            proof {
                lemma_offset_monotonic(chars@, i + 1, chars@.len() as int);
            }
            return None;
        }
        total = total + w;
        i += 1;
    }
    Some(total)
}

/// The byte offset of index `to`, from that of index `from`.
fn advance(chars: &Vec<char>, from: usize, pos: usize, to: usize) -> (r: usize)
    requires
        from <= to <= chars.len(),
        pos == byte_offset(chars@, from as int),
        byte_offset(chars@, chars@.len() as int) <= usize::MAX,
    ensures
        r == byte_offset(chars@, to as int),
{
    let mut p: usize = pos;
    let mut i: usize = from;
    while i < to
        invariant
            from <= i <= to,
            to <= chars.len(),
            p == byte_offset(chars@, i as int),
            byte_offset(chars@, chars@.len() as int) <= usize::MAX,
        decreases to - i,
    {
        proof {
            lemma_offset_monotonic(chars@, i + 1, chars@.len() as int);
        }
        p = p + char_width(chars[i]);
        i += 1;
    }
    p
}

fn skip_ws(chars: &Vec<char>, i: usize) -> (j: usize)
    requires
        i <= chars.len(),
    ensures
        j == skip_space(chars@, i as int),
        i <= j <= chars.len(),
{
    let mut j: usize = i;
    while j < chars.len() && char_is_space(chars[j])
        invariant
            i <= j <= chars.len(),
            skip_space(chars@, i as int) == skip_space(chars@, j as int),
        decreases chars.len() - j,
    {
        j += 1;
    }
    j
}

fn read_digits(chars: &Vec<char>, i: usize) -> (j: usize)
    requires
        i <= chars.len(),
    ensures
        j == scan_digits(chars@, i as int),
        i <= j <= chars.len(),
{
    let mut j: usize = i;
    while j < chars.len() && char_is_digit(chars[j])
        invariant
            i <= j <= chars.len(),
            scan_digits(chars@, i as int) == scan_digits(chars@, j as int),
        decreases chars.len() - j,
    {
        j += 1;
    }
    j
}

fn read_word(chars: &Vec<char>, i: usize) -> (j: usize)
    requires
        i <= chars.len(),
    ensures
        j == scan_ident(chars@, i as int),
        i <= j <= chars.len(),
{
    let mut j: usize = i;
    while j < chars.len() && char_is_ident_part(chars[j])
        invariant
            i <= j <= chars.len(),
            scan_ident(chars@, i as int) == scan_ident(chars@, j as int),
        decreases chars.len() - j,
    {
        j += 1;
    }
    j
}

/// The characters of `chars` from `from` up to `to`.
pub(crate) fn slice_chars(chars: &Vec<char>, from: usize, to: usize) -> (out: Vec<char>)
    requires
        from <= to <= chars.len(),
    ensures
        out@ == chars@.subrange(from as int, to as int),
{
    let mut out: Vec<char> = Vec::new();
    let mut i: usize = from;
    while i < to
        invariant
            from <= i <= to,
            to <= chars.len(),
            out@ == chars@.subrange(from as int, i as int),
        decreases to - i,
    {
        out.push(chars[i]);
        assert(chars@.subrange(from as int, i + 1) =~= chars@.subrange(from as int, i as int).push(
            chars@[i as int],
        ));
        i += 1;
    }
    out
}

fn chars_are(chars: &Vec<char>, word: &str) -> (r: bool)
    ensures
        r == (chars@ == word@),
{
    let w = chars_of(word);
    if w.len() != chars.len() {
        return false;
    }
    let mut i: usize = 0;
    while i < w.len()
        invariant
            i <= w.len(),
            w.len() == chars.len(),
            w@ == word@,
            forall|k: int| 0 <= k < i ==> chars@[k] == w@[k],
        decreases w.len() - i,
    {
        if chars[i] != w[i] {
            return false;
        }
        i += 1;
    }
    assert(chars@ =~= w@);
    true
}

fn read_ident(chars: &Vec<char>, j: usize) -> (r: (TokenKind, usize))
    requires
        j < chars.len(),
    ensures
        r.1 == scan_ident(chars@, j + 1),
        r.0@ == word_kind(chars@.subrange(j as int, r.1 as int)),
        j < r.1 <= chars.len(),
{
    let end = read_word(chars, j + 1);
    let text = slice_chars(chars, j, end);
    let kind = if chars_are(&text, "true") {
        TokenKind::True
    } else if chars_are(&text, "false") {
        TokenKind::False
    } else if chars_are(&text, "null") {
        TokenKind::Null
    } else {
        TokenKind::Ident(string_of(&text))
    };
    (kind, end)
}

fn read_number(chars: &Vec<char>, j: usize) -> (r: (TokenKind, usize))
    requires
        j < chars.len(),
    ensures
        r.1 == number_end(chars@, j as int),
        r.0@ == TokenKindView::Number(chars@.subrange(j as int, r.1 as int)),
        j < r.1 <= chars.len(),
{
    let a = read_digits(chars, j + 1);
    let b = if a < chars.len() && chars[a] == '.' {
        read_digits(chars, a + 1)
    } else {
        a
    };
    let end = if b < chars.len() && (chars[b] == 'e' || chars[b] == 'E') {
        if b + 1 < chars.len() && (chars[b + 1] == '+' || chars[b + 1] == '-') {
            read_digits(chars, b + 2)
        } else {
            read_digits(chars, b + 1)
        }
    } else {
        b
    };
    let text = slice_chars(chars, j, end);
    (TokenKind::Number(string_of(&text)), end)
}

fn char_unescape(c: char) -> (r: char)
    ensures
        r == unescape(c),
{
    if c == 'n' {
        '\n'
    } else if c == 't' {
        '\t'
    } else if c == 'r' {
        '\r'
    } else {
        c
    }
}

/// How reading a string literal ended.
enum StringRead {
    Closed(Vec<char>, usize),
    Open,
    OpenEscape,
}

impl View for StringRead {
    type V = StringScan;

    closed spec fn view(&self) -> StringScan {
        match self {
            StringRead::Closed(text, next) => StringScan::Closed(text@, *next as int),
            StringRead::Open => StringScan::Open,
            StringRead::OpenEscape => StringScan::OpenEscape,
        }
    }
}

fn read_string(chars: &Vec<char>, start: usize) -> (r: StringRead)
    requires
        start <= chars.len(),
    ensures
        r@ == scan_string(chars@, start as int, Seq::empty()),
        r matches StringRead::Closed(_, next) ==> start < next <= chars.len(),
{
    let mut acc: Vec<char> = Vec::new();
    let mut i: usize = start;
    loop
        invariant
            start <= i <= chars.len(),
            scan_string(chars@, start as int, Seq::empty()) == scan_string(chars@, i as int, acc@),
        decreases chars.len() - i,
    {
        if i >= chars.len() {
            return StringRead::Open;
        }
        let c = chars[i];
        if c == '"' {
            return StringRead::Closed(acc, i + 1);
        }
        if c == '\\' {
            if i + 1 >= chars.len() {
                return StringRead::OpenEscape;
            }
            acc.push(char_unescape(chars[i + 1]));
            i += 2;
        } else {
            acc.push(c);
            i += 1;
        }
    }
}

/// What reading one token gave.
pub open spec fn read_matches(
    r: Result<(TokenKind, usize), ParseError>,
    expected: Result<Scanned, ParseErrorView>,
) -> bool {
    match r {
        Ok((kind, next)) => expected == Ok::<Scanned, ParseErrorView>(
            Scanned { kind: kind@, next: next as int },
        ),
        Err(e) => expected == Err::<Scanned, ParseErrorView>(e@),
    }
}

fn followed_by(chars: &Vec<char>, i: usize, c: char) -> (r: bool)
    ensures
        r == has_char(chars@, i as int, c),
{
    i < chars.len() && chars[i] == c
}

fn read_token(chars: &Vec<char>, j: usize, pos: usize) -> (r: Result<(TokenKind, usize), ParseError>)
    requires
        j < chars.len(),
        pos == byte_offset(chars@, j as int),
    ensures
        read_matches(r, scan_token(chars@, j as int)),
        r matches Ok((_, next)) ==> j < next <= chars.len(),
{
    let c = chars[j];
    let one: usize = j + 1;
    if char_is_alpha(c) || c == '_' {
        let (kind, end) = read_ident(chars, j);
        Ok((kind, end))
    } else if char_is_digit(c) {
        let (kind, end) = read_number(chars, j);
        Ok((kind, end))
    } else if c == '"' {
        match read_string(chars, one) {
            StringRead::Closed(text, next) => Ok((TokenKind::String(string_of(&text)), next)),
            StringRead::Open => Err(ParseError::new("unterminated string literal", pos)),
            StringRead::OpenEscape => Err(ParseError::new("unterminated escape in string", pos)),
        }
    } else if c == '(' {
        Ok((TokenKind::LParen, one))
    } else if c == ')' {
        Ok((TokenKind::RParen, one))
    } else if c == '[' {
        Ok((TokenKind::LBracket, one))
    } else if c == ']' {
        Ok((TokenKind::RBracket, one))
    } else if c == '{' {
        Ok((TokenKind::LBrace, one))
    } else if c == '}' {
        Ok((TokenKind::RBrace, one))
    } else if c == ',' {
        Ok((TokenKind::Comma, one))
    } else if c == ':' {
        Ok((TokenKind::Colon, one))
    } else if c == '.' {
        Ok((TokenKind::Dot, one))
    } else if c == '+' {
        Ok((TokenKind::Plus, one))
    } else if c == '-' {
        Ok((TokenKind::Minus, one))
    } else if c == '*' {
        Ok((TokenKind::Star, one))
    } else if c == '/' {
        Ok((TokenKind::Slash, one))
    } else if c == '%' {
        Ok((TokenKind::Percent, one))
    } else if c == '!' {
        if followed_by(chars, one, '=') {
            Ok((TokenKind::NotEq, one + 1))
        } else {
            Ok((TokenKind::Bang, one))
        }
    } else if c == '&' {
        if followed_by(chars, one, '&') {
            Ok((TokenKind::AndAnd, one + 1))
        } else {
            Err(ParseError::new("unexpected '&' (did you mean '&&'?)", pos))
        }
    } else if c == '|' {
        if followed_by(chars, one, '|') {
            Ok((TokenKind::OrOr, one + 1))
        } else {
            Err(ParseError::new("unexpected '|' (did you mean '||'?)", pos))
        }
    } else if c == '=' {
        if followed_by(chars, one, '=') {
            Ok((TokenKind::EqEq, one + 1))
        } else if followed_by(chars, one, '>') {
            Ok((TokenKind::Arrow, one + 1))
        } else {
            Err(ParseError::new("unexpected '=' (did you mean '==')?", pos))
        }
    } else if c == '<' {
        if followed_by(chars, one, '=') {
            Ok((TokenKind::Le, one + 1))
        } else {
            Ok((TokenKind::Lt, one))
        }
    } else if c == '>' {
        if followed_by(chars, one, '=') {
            Ok((TokenKind::Ge, one + 1))
        } else {
            Ok((TokenKind::Gt, one))
        }
    } else {
        let mut message = chars_of("unexpected character '");
        message.push(c);
        let close = chars_of("'");
        append_chars(&mut message, &close);
        Err(ParseError { message: string_of(&message), position: pos })
    }
}

/// Turns expression text into tokens.
pub struct Lexer {
    chars: Vec<char>,
}

impl View for Lexer {
    type V = Seq<char>;

    closed spec fn view(&self) -> Seq<char> {
        self.chars@
    }
}

/// What tokenizing gave.
pub open spec fn tokens_match(
    r: Result<Vec<Token>, ParseError>,
    expected: Result<Seq<TokenView>, ParseErrorView>,
) -> bool {
    match r {
        Ok(tokens) => expected == Ok::<Seq<TokenView>, ParseErrorView>(tokens_view(tokens@)),
        Err(e) => expected == Err::<Seq<TokenView>, ParseErrorView>(e@),
    }
}

impl Lexer {
    /// A lexer over `input`.
    pub fn new(input: &str) -> (l: Lexer)
        ensures
            l@ == input@,
    {
        Lexer { chars: chars_of(input) }
    }

    /// The tokens of the input, or the first error.
    pub fn tokenize(self) -> (r: Result<Vec<Token>, ParseError>)
        ensures
            tokens_match(r, lex(self@)),
    {
        let chars = self.chars;
        let total = match byte_length(&chars) {
            Some(n) => n,
            None => {
                return Err(ParseError::new("input too long", 0));
            },
        };
        let mut tokens: Vec<Token> = Vec::new();
        let mut i: usize = 0;
        let mut pos: usize = 0;
        loop
            invariant
                i <= chars.len(),
                chars@ == self@,
                pos == byte_offset(chars@, i as int),
                total == byte_offset(chars@, chars@.len() as int),
                lex_from(chars@, 0) == prepend(tokens_view(tokens@), lex_from(chars@, i as int)),
            decreases chars.len() - i,
        {
            let j = skip_ws(&chars, i);
            let at = advance(&chars, i, pos, j);
            if j >= chars.len() {
                let ghost before = tokens_view(tokens@);
                tokens.push(Token { kind: TokenKind::Eof, position: at });
                assert(tokens_view(tokens@) =~= before + seq![
                    TokenView { kind: TokenKindView::Eof, position: at as nat },
                ]);
                return Ok(tokens);
            }
            proof {
                lemma_token_bounds(chars@, j as int);
            }
            match read_token(&chars, j, at) {
                Err(e) => {
                    return Err(e);
                },
                Ok((kind, next)) => {
                    let ghost before = tokens_view(tokens@);
                    let ghost rest = lex_from(chars@, next as int);
                    tokens.push(Token { kind, position: at });
                    proof {
                        let one = seq![TokenView { kind: kind@, position: at as nat }];
                        assert(tokens_view(tokens@) =~= before + one);
                        assert(lex_from(chars@, i as int) == prepend(one, rest));
                        match rest {
                            Ok(more) => {
                                assert(before + (one + more) =~= (before + one) + more);
                            },
                            Err(_) => {},
                        }
                    }
                    pos = advance(&chars, j, at, next);
                    i = next;
                },
            }
        }
    }
}

} // verus!
