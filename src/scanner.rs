use vstd::prelude::*;

use crate::error::{error, ErrorKind, LoxError};
use crate::number::{all_digits, is_digit, literal_value, literal_value_of};
use crate::tokens::{Token, TokenModel, TokenType};

verus! {

pub open spec fn is_alpha(c: char) -> bool {
    ('a' <= c && c <= 'z') || ('A' <= c && c <= 'Z') || c == '_'
}

pub open spec fn is_alphanum(c: char) -> bool {
    is_alpha(c) || is_digit(c)
}

/// The end of the run of digits that starts at `i`.
pub open spec fn digits_end(src: Seq<char>, i: int) -> int
    decreases src.len() - i,
{
    if 0 <= i < src.len() && is_digit(src[i]) {
        digits_end(src, i + 1)
    } else {
        i
    }
}

/// The end of the run of letters, digits and underscores that starts at `i`.
pub open spec fn word_end(src: Seq<char>, i: int) -> int
    decreases src.len() - i,
{
    if 0 <= i < src.len() && is_alphanum(src[i]) {
        word_end(src, i + 1)
    } else {
        i
    }
}

/// The first position at or after `i` that holds `c`, or the end of `src`.
pub open spec fn find_char(src: Seq<char>, i: int, c: char) -> int
    decreases src.len() - i,
{
    if 0 <= i < src.len() && src[i] != c {
        find_char(src, i + 1, c)
    } else {
        i
    }
}

/// The number of line breaks in `src[a..b)`.
pub open spec fn newlines(src: Seq<char>, a: int, b: int) -> nat
    decreases b - a,
{
    if b <= a {
        0
    } else {
        newlines(src, a, b - 1) + if src[b - 1] == '\n' {
            1nat
        } else {
            0nat
        }
    }
}

/// The end of the number literal that starts at `pos`: digits, then
/// optionally a point followed by at least one digit.
pub open spec fn number_end(src: Seq<char>, pos: int) -> int {
    let d = digits_end(src, pos);
    if d + 1 < src.len() && src[d] == '.' && is_digit(src[d + 1]) {
        digits_end(src, d + 1)
    } else {
        d
    }
}

/// Where the fraction digits of the number literal at `pos` start.
pub open spec fn fraction_start(src: Seq<char>, pos: int) -> int {
    let d = digits_end(src, pos);
    if number_end(src, pos) > d {
        d + 1
    } else {
        d
    }
}

pub open spec fn number_value(src: Seq<char>, pos: int) -> int {
    literal_value(
        src.subrange(pos, digits_end(src, pos)),
        src.subrange(fraction_start(src, pos), number_end(src, pos)),
    )
}

/// The token kind of a one-character token that never starts a longer one.
pub open spec fn single_kind(c: char) -> Option<TokenType> {
    if c == '(' {
        Some(TokenType::LeftParen)
    } else if c == ')' {
        Some(TokenType::RightParen)
    } else if c == '{' {
        Some(TokenType::LeftBrace)
    } else if c == '}' {
        Some(TokenType::RightBrace)
    } else if c == ',' {
        Some(TokenType::Comma)
    } else if c == '.' {
        Some(TokenType::Dot)
    } else if c == '-' {
        Some(TokenType::Minus)
    } else if c == '+' {
        Some(TokenType::Plus)
    } else if c == ';' {
        Some(TokenType::Semicolon)
    } else if c == '*' {
        Some(TokenType::Star)
    } else {
        None
    }
}

pub open spec fn is_operator_start(c: char) -> bool {
    c == '!' || c == '=' || c == '<' || c == '>'
}

/// The kind of the operator that starts with `c`, with a trailing `=` or not.
pub open spec fn operator_kind(c: char, with_equal: bool) -> TokenType {
    if c == '!' {
        if with_equal { TokenType::BangEqual } else { TokenType::Bang }
    } else if c == '=' {
        if with_equal { TokenType::EqualEqual } else { TokenType::Equal }
    } else if c == '<' {
        if with_equal { TokenType::LessEqual } else { TokenType::Less }
    } else if with_equal {
        TokenType::GreaterEqual
    } else {
        TokenType::Greater
    }
}

/// The kind of a word: a keyword's own kind, or `Identifier`.
pub open spec fn keyword_kind(s: Seq<char>) -> TokenType {
    if s == seq!['a', 'n', 'd'] {
        TokenType::And
    } else if s == seq!['c', 'l', 'a', 's', 's'] {
        TokenType::Class
    } else if s == seq!['e', 'l', 's', 'e'] {
        TokenType::Else
    } else if s == seq!['f', 'a', 'l', 's', 'e'] {
        TokenType::False
    } else if s == seq!['f', 'o', 'r'] {
        TokenType::For
    } else if s == seq!['f', 'u', 'n'] {
        TokenType::Fun
    } else if s == seq!['i', 'f'] {
        TokenType::If
    } else if s == seq!['n', 'i', 'l'] {
        TokenType::Nil
    } else if s == seq!['o', 'r'] {
        TokenType::Or
    } else if s == seq!['p', 'r', 'i', 'n', 't'] {
        TokenType::Print
    } else if s == seq!['r', 'e', 't', 'u', 'r', 'n'] {
        TokenType::Return
    } else if s == seq!['s', 'u', 'p', 'e', 'r'] {
        TokenType::Super
    } else if s == seq!['t', 'h', 'i', 's'] {
        TokenType::This
    } else if s == seq!['t', 'r', 'u', 'e'] {
        TokenType::True
    } else if s == seq!['v', 'a', 'r'] {
        TokenType::Var
    } else if s == seq!['w', 'h', 'i', 'l', 'e'] {
        TokenType::While
    } else {
        TokenType::Identifier
    }
}

/// What one step of the scanner does from `pos`: the token it emits, if any,
/// the problem it reports, if any, and where and on which line it stops.
pub struct Step {
    pub token: Option<TokenModel>,
    pub error: Option<LoxError>,
    pub next: int,
    pub line: nat,
}

pub open spec fn emit(src: Seq<char>, pos: int, next: int, line: nat, kind: TokenType, value: int) -> Step {
    Step {
        token: Some(
            TokenModel { token_type: kind, lexeme: src.subrange(pos, next), value, line },
        ),
        error: None,
        next,
        line,
    }
}

pub open spec fn skip(next: int, line: nat) -> Step {
    Step { token: None, error: None, next, line }
}

pub open spec fn fail(next: int, line: nat, kind: ErrorKind) -> Step {
    Step { token: None, error: Some(LoxError { line: line as usize, kind }), next, line }
}

/// One step of the scanner on the character at `pos`.
pub open spec fn step(src: Seq<char>, pos: int, line: nat) -> Step {
    let c = src[pos];
    if single_kind(c) is Some {
        emit(src, pos, pos + 1, line, single_kind(c)->0, 0)
    } else if is_operator_start(c) {
        if pos + 1 < src.len() && src[pos + 1] == '=' {
            emit(src, pos, pos + 2, line, operator_kind(c, true), 0)
        } else {
            emit(src, pos, pos + 1, line, operator_kind(c, false), 0)
        }
    } else if c == '/' {
        if pos + 1 < src.len() && src[pos + 1] == '/' {
            skip(find_char(src, pos + 2, '\n'), line)
        } else {
            emit(src, pos, pos + 1, line, TokenType::Slash, 0)
        }
    } else if c == '"' {
        let e = find_char(src, pos + 1, '"');
        let l = line + newlines(src, pos + 1, e);
        if e >= src.len() {
            fail(e, l, ErrorKind::UnterminatedString)
        } else {
            emit(src, pos, e + 1, l, TokenType::String, 0)
        }
    } else if c == '\n' {
        skip(pos + 1, line + 1)
    } else if c == ' ' || c == '\r' || c == '\t' {
        skip(pos + 1, line)
    } else if is_digit(c) {
        let e = number_end(src, pos);
        let v = number_value(src, pos);
        if v <= i64::MAX {
            emit(src, pos, e, line, TokenType::Number, v)
        } else {
            fail(e, line, ErrorKind::NumberTooLarge)
        }
    } else if is_alpha(c) {
        let e = word_end(src, pos + 1);
        emit(src, pos, e, line, keyword_kind(src.subrange(pos, e)), 0)
    } else {
        fail(pos + 1, line, ErrorKind::UnexpectedCharacter)
    }
}

pub open spec fn option_seq<T>(o: Option<T>) -> Seq<T> {
    match o {
        Some(x) => seq![x],
        None => Seq::empty(),
    }
}

pub open spec fn eof_token(line: nat) -> TokenModel {
    TokenModel { token_type: TokenType::Eof, lexeme: Seq::empty(), value: 0, line }
}

/// The tokens and the problems found when scanning `src` from `pos` on,
/// starting on line `line`. The last token is always the end marker.
pub open spec fn scan_from(src: Seq<char>, pos: int, line: nat) -> (Seq<TokenModel>, Seq<LoxError>)
    decreases src.len() - pos,
    via scan_from_decreases
{
    if pos < 0 || pos >= src.len() {
        (seq![eof_token(line)], Seq::empty())
    } else {
        let s = step(src, pos, line);
        let rest = scan_from(src, s.next, s.line);
        (option_seq(s.token) + rest.0, option_seq(s.error) + rest.1)
    }
}

#[via_fn]
proof fn scan_from_decreases(src: Seq<char>, pos: int, line: nat) {
    if 0 <= pos < src.len() {
        lemma_step_advances(src, pos, line);
    }
}

/// What scanning the whole of `src` yields.
pub open spec fn scan(src: Seq<char>) -> (Seq<TokenModel>, Seq<LoxError>) {
    scan_from(src, 0, 1)
}

proof fn lemma_digits_end(src: Seq<char>, i: int)
    requires
        0 <= i <= src.len(),
    ensures
        i <= digits_end(src, i) <= src.len(),
        all_digits(src.subrange(i, digits_end(src, i))),
    decreases src.len() - i,
{
    if i < src.len() && is_digit(src[i]) {
        lemma_digits_end(src, i + 1);
        assert forall|k: int| 0 <= k < digits_end(src, i) - i implies is_digit(
            #[trigger] src.subrange(i, digits_end(src, i))[k],
        ) by {
            if k > 0 {
                assert(src.subrange(i, digits_end(src, i))[k] == src.subrange(
                    i + 1,
                    digits_end(src, i),
                )[k - 1]);
            }
        }
    }
}

proof fn lemma_word_end(src: Seq<char>, i: int)
    requires
        0 <= i <= src.len(),
    ensures
        i <= word_end(src, i) <= src.len(),
    decreases src.len() - i,
{
    if i < src.len() && is_alphanum(src[i]) {
        lemma_word_end(src, i + 1);
    }
}

proof fn lemma_find_char(src: Seq<char>, i: int, c: char)
    requires
        0 <= i <= src.len(),
    ensures
        i <= find_char(src, i, c) <= src.len(),
    decreases src.len() - i,
{
    if i < src.len() && src[i] != c {
        lemma_find_char(src, i + 1, c);
    }
}

proof fn lemma_number_end(src: Seq<char>, pos: int)
    requires
        0 <= pos < src.len(),
        is_digit(src[pos]),
    ensures
        pos < digits_end(src, pos) <= fraction_start(src, pos) <= number_end(src, pos) <= src.len(),
        all_digits(src.subrange(pos, digits_end(src, pos))),
        all_digits(src.subrange(fraction_start(src, pos), number_end(src, pos))),
{
    lemma_digits_end(src, pos);
    lemma_digits_end(src, pos + 1);
    let d = digits_end(src, pos);
    if d + 1 < src.len() && src[d] == '.' && is_digit(src[d + 1]) {
        lemma_digits_end(src, d + 1);
    } else {
        assert(src.subrange(d, d) =~= Seq::<char>::empty());
    }
}

proof fn lemma_step_advances(src: Seq<char>, pos: int, line: nat)
    requires
        0 <= pos < src.len(),
    ensures
        pos < step(src, pos, line).next <= src.len(),
        line <= step(src, pos, line).line,
{
    lemma_find_char(src, pos + 1, '"');
    if pos + 2 <= src.len() {
        lemma_find_char(src, pos + 2, '\n');
    }
    lemma_word_end(src, pos + 1);
    if is_digit(src[pos]) {
        lemma_number_end(src, pos);
    }
}


/// Relies on `str::chars` collected into a `Vec`: the characters of `s` in
/// order.
#[verifier::external_body]
fn chars_of(s: &str) -> (r: Vec<char>)
    ensures
        r@ == s@,
{
    s.chars().collect()
}

pub fn is_digit_char(c: char) -> (r: bool)
    ensures
        r == is_digit(c),
{
    '0' <= c && c <= '9'
}

pub fn is_alpha_char(c: char) -> (r: bool)
    ensures
        r == is_alpha(c),
{
    ('a' <= c && c <= 'z') || ('A' <= c && c <= 'Z') || c == '_'
}

pub fn is_alphanum_char(c: char) -> (r: bool)
    ensures
        r == is_alphanum(c),
{
    is_alpha_char(c) || is_digit_char(c)
}

/// A copy of `src[a..b)`.
pub fn chars_between(src: &Vec<char>, a: usize, b: usize) -> (r: Vec<char>)
    requires
        a <= b <= src@.len(),
    ensures
        r@ == src@.subrange(a as int, b as int),
{
    let mut r: Vec<char> = Vec::new();
    let mut i: usize = a;
    while i < b
        invariant
            a <= i <= b <= src@.len(),
            r@ == src@.subrange(a as int, i as int),
        decreases b - i,
    {
        r.push(src[i]);
        i = i + 1;
        assert(r@ =~= src@.subrange(a as int, i as int));
    }
    r
}

fn single_kind_of(c: char) -> (r: Option<TokenType>)
    ensures
        r == single_kind(c),
{
    if c == '(' {
        Some(TokenType::LeftParen)
    } else if c == ')' {
        Some(TokenType::RightParen)
    } else if c == '{' {
        Some(TokenType::LeftBrace)
    } else if c == '}' {
        Some(TokenType::RightBrace)
    } else if c == ',' {
        Some(TokenType::Comma)
    } else if c == '.' {
        Some(TokenType::Dot)
    } else if c == '-' {
        Some(TokenType::Minus)
    } else if c == '+' {
        Some(TokenType::Plus)
    } else if c == ';' {
        Some(TokenType::Semicolon)
    } else if c == '*' {
        Some(TokenType::Star)
    } else {
        None
    }
}

fn operator_kind_of(c: char, with_equal: bool) -> (r: TokenType)
    ensures
        r == operator_kind(c, with_equal),
{
    if c == '!' {
        if with_equal { TokenType::BangEqual } else { TokenType::Bang }
    } else if c == '=' {
        if with_equal { TokenType::EqualEqual } else { TokenType::Equal }
    } else if c == '<' {
        if with_equal { TokenType::LessEqual } else { TokenType::Less }
    } else if with_equal {
        TokenType::GreaterEqual
    } else {
        TokenType::Greater
    }
}

/// The first `n` of the characters `a` to `f`.
spec fn word_of(a: char, b: char, c: char, d: char, e: char, f: char, n: nat) -> Seq<char> {
    seq![a, b, c, d, e, f].take(n as int)
}

fn is_word(s: &Vec<char>, a: char, b: char, c: char, d: char, e: char, f: char, n: usize) -> (r: bool)
    requires
        2 <= n <= 6,
    ensures
        r == (s@ == word_of(a, b, c, d, e, f, n as nat)),
{
    let ghost w = word_of(a, b, c, d, e, f, n as nat);
    let r = s.len() == n && s[0] == a && s[1] == b && (n <= 2 || s[2] == c) && (n <= 3 || s[3]
        == d) && (n <= 4 || s[4] == e) && (n <= 5 || s[5] == f);
    if r {
        assert(s@ =~= w);
    }
    r
}

fn keyword_kind_of(s: &Vec<char>) -> (r: TokenType)
    ensures
        r == keyword_kind(s@),
{
    proof {
        assert(word_of('a', 'n', 'd', ' ', ' ', ' ', 3) =~= seq!['a', 'n', 'd']);
        assert(word_of('c', 'l', 'a', 's', 's', ' ', 5) =~= seq!['c', 'l', 'a', 's', 's']);
        assert(word_of('e', 'l', 's', 'e', ' ', ' ', 4) =~= seq!['e', 'l', 's', 'e']);
        assert(word_of('f', 'a', 'l', 's', 'e', ' ', 5) =~= seq!['f', 'a', 'l', 's', 'e']);
        assert(word_of('f', 'o', 'r', ' ', ' ', ' ', 3) =~= seq!['f', 'o', 'r']);
        assert(word_of('f', 'u', 'n', ' ', ' ', ' ', 3) =~= seq!['f', 'u', 'n']);
        assert(word_of('i', 'f', ' ', ' ', ' ', ' ', 2) =~= seq!['i', 'f']);
        assert(word_of('n', 'i', 'l', ' ', ' ', ' ', 3) =~= seq!['n', 'i', 'l']);
        assert(word_of('o', 'r', ' ', ' ', ' ', ' ', 2) =~= seq!['o', 'r']);
        assert(word_of('p', 'r', 'i', 'n', 't', ' ', 5) =~= seq!['p', 'r', 'i', 'n', 't']);
        assert(word_of('r', 'e', 't', 'u', 'r', 'n', 6) =~= seq!['r', 'e', 't', 'u', 'r', 'n']);
        assert(word_of('s', 'u', 'p', 'e', 'r', ' ', 5) =~= seq!['s', 'u', 'p', 'e', 'r']);
        assert(word_of('t', 'h', 'i', 's', ' ', ' ', 4) =~= seq!['t', 'h', 'i', 's']);
        assert(word_of('t', 'r', 'u', 'e', ' ', ' ', 4) =~= seq!['t', 'r', 'u', 'e']);
        assert(word_of('v', 'a', 'r', ' ', ' ', ' ', 3) =~= seq!['v', 'a', 'r']);
        assert(word_of('w', 'h', 'i', 'l', 'e', ' ', 5) =~= seq!['w', 'h', 'i', 'l', 'e']);
    }
    if is_word(s, 'a', 'n', 'd', ' ', ' ', ' ', 3) {
        TokenType::And
    } else if is_word(s, 'c', 'l', 'a', 's', 's', ' ', 5) {
        TokenType::Class
    } else if is_word(s, 'e', 'l', 's', 'e', ' ', ' ', 4) {
        TokenType::Else
    } else if is_word(s, 'f', 'a', 'l', 's', 'e', ' ', 5) {
        TokenType::False
    } else if is_word(s, 'f', 'o', 'r', ' ', ' ', ' ', 3) {
        TokenType::For
    } else if is_word(s, 'f', 'u', 'n', ' ', ' ', ' ', 3) {
        TokenType::Fun
    } else if is_word(s, 'i', 'f', ' ', ' ', ' ', ' ', 2) {
        TokenType::If
    } else if is_word(s, 'n', 'i', 'l', ' ', ' ', ' ', 3) {
        TokenType::Nil
    } else if is_word(s, 'o', 'r', ' ', ' ', ' ', ' ', 2) {
        TokenType::Or
    } else if is_word(s, 'p', 'r', 'i', 'n', 't', ' ', 5) {
        TokenType::Print
    } else if is_word(s, 'r', 'e', 't', 'u', 'r', 'n', 6) {
        TokenType::Return
    } else if is_word(s, 's', 'u', 'p', 'e', 'r', ' ', 5) {
        TokenType::Super
    } else if is_word(s, 't', 'h', 'i', 's', ' ', ' ', 4) {
        TokenType::This
    } else if is_word(s, 't', 'r', 'u', 'e', ' ', ' ', 4) {
        TokenType::True
    } else if is_word(s, 'v', 'a', 'r', ' ', ' ', ' ', 3) {
        TokenType::Var
    } else if is_word(s, 'w', 'h', 'i', 'l', 'e', ' ', 5) {
        TokenType::While
    } else {
        TokenType::Identifier
    }
}

/// Scanning always ends with the end marker.
pub proof fn lemma_scan_ends_with_eof(src: Seq<char>, pos: int, line: nat)
    ensures
        scan_from(src, pos, line).0.len() > 0,
        scan_from(src, pos, line).0.last().token_type == TokenType::Eof,
    decreases src.len() - pos,
{
    if 0 <= pos < src.len() {
        let s = step(src, pos, line);
        lemma_step_advances(src, pos, line);
        lemma_scan_ends_with_eof(src, s.next, s.line);
    }
}

/// Scanning is a function of the source text alone: scanning the same text
/// twice gives the same tokens and the same problems.
pub proof fn scan_is_deterministic(a: Seq<char>, b: Seq<char>)
    requires
        a == b,
    ensures
        scan(a) == scan(b),
{
}

/// The models of a sequence of tokens.
pub open spec fn models(v: Seq<Token>) -> Seq<TokenModel> {
    v.map_values(|t: Token| t@)
}

/// Turns source text into tokens, one character of lookahead at a time.
pub struct Scanner {
    source: Vec<char>,
    tokens: Vec<Token>,
    errors: Vec<LoxError>,
    current: usize,
    start: usize,
    line: usize,
}

impl Scanner {
    /// The text being scanned.
    pub closed spec fn text(&self) -> Seq<char> {
        self.source@
    }

    /// Nothing has been scanned yet.
    pub closed spec fn is_fresh(&self) -> bool {
        &&& self.tokens@.len() == 0
        &&& self.errors@.len() == 0
        &&& self.current == 0
        &&& self.start == 0
        &&& self.line == 1
        &&& self.source@.len() < usize::MAX
    }

    spec fn wf(&self) -> bool {
        &&& self.start <= self.current <= self.source@.len() < usize::MAX
        &&& 1 <= self.line <= self.current + 1
    }

    /// `after` is `before` once the step `s` has been taken.
    spec fn stepped(before: Scanner, after: Scanner, s: Step) -> bool {
        &&& after.wf()
        &&& after.source == before.source
        &&& after.start == before.start
        &&& after.current as int == s.next
        &&& after.line as nat == s.line
        &&& models(after.tokens@) == models(before.tokens@) + option_seq(s.token)
        &&& after.errors@ == before.errors@ + option_seq(s.error)
    }

    pub fn new(source: String) -> (r: Scanner)
        requires
            source@.len() < usize::MAX,
        ensures
            r.text() == source@,
            r.is_fresh(),
    {
        Scanner {
            source: chars_of(source.as_str()),
            tokens: Vec::new(),
            errors: Vec::new(),
            current: 0,
            start: 0,
            line: 1,
        }
    }

    fn is_at_end(&self) -> (r: bool)
        ensures
            r == (self.current >= self.source@.len()),
    {
        self.current >= self.source.len()
    }

    fn advance(&mut self) -> (r: char)
        requires
            old(self).wf(),
            old(self).current < old(self).source@.len(),
        ensures
            r == old(self).source@[old(self).current as int],
            *final(self) == (Scanner { current: (old(self).current + 1) as usize, ..*old(self) }),
    {
        let c = self.source[self.current];
        self.current = self.current + 1;
        c
    }

    /// Consumes the next character where it is `expected`.
    fn matches(&mut self, expected: char) -> (r: bool)
        requires
            old(self).wf(),
        ensures
            r == (old(self).current < old(self).source@.len() && old(self).source@[old(
                self,
            ).current as int] == expected),
            *final(self) == (Scanner {
                current: if r {
                    (old(self).current + 1) as usize
                } else {
                    old(self).current
                },
                ..*old(self)
            }),
    {
        if self.is_at_end() {
            return false;
        }
        if self.source[self.current] != expected {
            return false;
        }
        self.current = self.current + 1;
        true
    }

    fn peek(&self) -> (r: char)
        ensures
            r == if self.current < self.source@.len() {
                self.source@[self.current as int]
            } else {
                '\0'
            },
    {
        if self.is_at_end() {
            return '\0';
        }
        self.source[self.current]
    }

    fn peek_next(&self) -> (r: char)
        ensures
            r == if self.current + 1 < self.source@.len() {
                self.source@[self.current + 1]
            } else {
                '\0'
            },
    {
        if self.current >= self.source.len() || self.current + 1 >= self.source.len() {
            return '\0';
        }
        self.source[self.current + 1]
    }

    fn add_token(&mut self, token_type: TokenType, value: i64)
        requires
            old(self).start <= old(self).current <= old(self).source@.len(),
        ensures
            final(self).source == old(self).source,
            final(self).errors == old(self).errors,
            final(self).current == old(self).current,
            final(self).start == old(self).start,
            final(self).line == old(self).line,
            models(final(self).tokens@) == models(old(self).tokens@).push(
                TokenModel {
                    token_type,
                    lexeme: old(self).source@.subrange(
                        old(self).start as int,
                        old(self).current as int,
                    ),
                    value: value as int,
                    line: old(self).line as nat,
                },
            ),
    {
        let lexeme = chars_between(&self.source, self.start, self.current);
        self.tokens.push(Token::new(token_type, lexeme, value, self.line));
        assert(models(self.tokens@) =~= models(old(self).tokens@).push(self.tokens@.last()@));
    }

    fn string(&mut self)
        requires
            old(self).wf(),
            old(self).current == old(self).start + 1,
            old(self).source@[old(self).start as int] == '"',
        ensures
            Self::stepped(
                *old(self),
                *final(self),
                step(old(self).source@, old(self).start as int, old(self).line as nat),
            ),
    {
        let ghost src = self.source@;
        let ghost pos = self.start as int;
        let ghost line0 = self.line as nat;
        proof {
            lemma_find_char(src, pos + 1, '"');
        }
        let ghost s0 = *self;
        let mut cur: usize = self.current;
        while cur < self.source.len() && self.source[cur] != '"'
            invariant
                self.source@ == src,
                src.len() < usize::MAX,
                self.start == pos,
                self.current == pos + 1,
                self.source == s0.source,
                self.tokens == s0.tokens,
                self.errors == s0.errors,
                pos + 1 <= cur <= src.len(),
                find_char(src, cur as int, '"') == find_char(src, pos + 1, '"'),
                self.line as int == line0 + newlines(src, pos + 1, cur as int),
                self.line <= cur + 1,
            decreases src.len() - cur,
        {
            if self.source[cur] == '\n' {
                self.line = self.line + 1;
            }
            cur = cur + 1;
        }
        if cur >= self.source.len() {
            self.current = cur;
            self.errors.push(error(self.line, ErrorKind::UnterminatedString));
            assert(self.errors@ =~= old(self).errors@ + option_seq(
                step(src, pos, line0).error,
            ));
            assert(models(self.tokens@) =~= models(old(self).tokens@) + Seq::empty());
        } else {
            self.current = cur + 1;
            self.add_token(TokenType::String, 0);
            assert(self.errors@ =~= old(self).errors@ + Seq::empty());
        }
        let ghost st = step(src, pos, line0);
        assert(self.wf());
        assert(self.current as int == st.next);
        assert(self.line as nat == st.line);
        assert(models(self.tokens@) == models(old(self).tokens@) + option_seq(st.token));
        assert(self.errors@ == old(self).errors@ + option_seq(st.error));
    }

    fn number(&mut self)
        requires
            old(self).wf(),
            old(self).current == old(self).start + 1,
            is_digit(old(self).source@[old(self).start as int]),
        ensures
            Self::stepped(
                *old(self),
                *final(self),
                step(old(self).source@, old(self).start as int, old(self).line as nat),
            ),
    {
        let ghost src = self.source@;
        let ghost pos = self.start as int;
        proof {
            lemma_number_end(src, pos);
        }
        let mut cur: usize = self.current;
        while cur < self.source.len() && is_digit_char(self.source[cur])
            invariant
                pos + 1 <= cur <= src.len(),
                src == self.source@,
                digits_end(src, cur as int) == digits_end(src, pos),
            decreases src.len() - cur,
        {
            cur = cur + 1;
        }
        let d = cur;
        self.current = cur;
        let mut f = d;
        if self.peek() == '.' && is_digit_char(self.peek_next()) {
            cur = cur + 1;
            f = cur;
            while cur < self.source.len() && is_digit_char(self.source[cur])
                invariant
                    d + 1 <= cur <= src.len(),
                    src == self.source@,
                    digits_end(src, cur as int) == digits_end(src, d + 1),
                decreases src.len() - cur,
            {
                cur = cur + 1;
            }
            self.current = cur;
        }
        assert(d == digits_end(src, pos));
        assert(f == fraction_start(src, pos));
        assert(cur == number_end(src, pos));
        match literal_value_of(&self.source, self.start, d, f, cur) {
            Some(v) => {
                self.add_token(TokenType::Number, v);
                assert(self.errors@ =~= old(self).errors@ + Seq::empty());
            },
            None => {
                self.errors.push(error(self.line, ErrorKind::NumberTooLarge));
                assert(self.errors@ =~= old(self).errors@ + option_seq(
                    step(src, pos, old(self).line as nat).error,
                ));
                assert(models(self.tokens@) =~= models(old(self).tokens@) + Seq::empty());
            },
        }
        let ghost st = step(src, pos, old(self).line as nat);
        assert(self.wf());
        assert(self.current as int == st.next);
        assert(self.line as nat == st.line);
        assert(models(self.tokens@) == models(old(self).tokens@) + option_seq(st.token));
        assert(self.errors@ == old(self).errors@ + option_seq(st.error));
    }

    fn identifier(&mut self)
        requires
            old(self).wf(),
            old(self).current == old(self).start + 1,
            is_alpha(old(self).source@[old(self).start as int]),
            !is_digit(old(self).source@[old(self).start as int]),
        ensures
            Self::stepped(
                *old(self),
                *final(self),
                step(old(self).source@, old(self).start as int, old(self).line as nat),
            ),
    {
        let ghost src = self.source@;
        let ghost pos = self.start as int;
        proof {
            lemma_word_end(src, pos + 1);
        }
        let mut cur: usize = self.current;
        while cur < self.source.len() && is_alphanum_char(self.source[cur])
            invariant
                pos + 1 <= cur <= src.len(),
                src == self.source@,
                word_end(src, cur as int) == word_end(src, pos + 1),
            decreases src.len() - cur,
        {
            cur = cur + 1;
        }
        self.current = cur;
        let lexeme = chars_between(&self.source, self.start, self.current);
        let kind = keyword_kind_of(&lexeme);
        self.add_token(kind, 0);
        assert(self.errors@ =~= old(self).errors@ + Seq::empty());
        let ghost st = step(src, pos, old(self).line as nat);
        assert(self.wf());
        assert(self.current as int == st.next);
        assert(self.line as nat == st.line);
        assert(models(self.tokens@) == models(old(self).tokens@) + option_seq(st.token));
        assert(self.errors@ == old(self).errors@ + option_seq(st.error));
    }

    fn scan_token(&mut self)
        requires
            old(self).wf(),
            old(self).start == old(self).current,
            old(self).current < old(self).source@.len(),
        ensures
            Self::stepped(
                *old(self),
                *final(self),
                step(old(self).source@, old(self).current as int, old(self).line as nat),
            ),
    {
        let ghost src = self.source@;
        let ghost pos = self.current as int;
        proof {
            lemma_step_advances(src, pos, self.line as nat);
        }
        let c = self.advance();
        match single_kind_of(c) {
            Some(kind) => {
                self.add_token(kind, 0);
                assert(self.errors@ =~= old(self).errors@ + Seq::empty());
            },
            None => {
                if c == '!' || c == '=' || c == '<' || c == '>' {
                    let with_equal = self.matches('=');
                    self.add_token(operator_kind_of(c, with_equal), 0);
                    assert(self.errors@ =~= old(self).errors@ + Seq::empty());
                } else if c == '/' {
                    if self.matches('/') {
                        let mut cur: usize = self.current;
                        proof {
                            lemma_find_char(src, pos + 2, '\n');
                        }
                        while cur < self.source.len() && self.source[cur] != '\n'
                            invariant
                                pos + 2 <= cur <= src.len(),
                                src == self.source@,
                                find_char(src, cur as int, '\n') == find_char(src, pos + 2, '\n'),
                            decreases src.len() - cur,
                        {
                            cur = cur + 1;
                        }
                        self.current = cur;
                        assert(self.errors@ =~= old(self).errors@ + Seq::empty());
                        assert(models(self.tokens@) =~= models(old(self).tokens@) + Seq::empty());
                    } else {
                        self.add_token(TokenType::Slash, 0);
                        assert(self.errors@ =~= old(self).errors@ + Seq::empty());
                    }
                } else if c == '"' {
                    self.string();
                } else if c == '\n' {
                    self.line = self.line + 1;
                    assert(self.errors@ =~= old(self).errors@ + Seq::empty());
                    assert(models(self.tokens@) =~= models(old(self).tokens@) + Seq::empty());
                } else if c == ' ' || c == '\r' || c == '\t' {
                    assert(self.errors@ =~= old(self).errors@ + Seq::empty());
                    assert(models(self.tokens@) =~= models(old(self).tokens@) + Seq::empty());
                } else if is_digit_char(c) {
                    self.number();
                } else if is_alpha_char(c) {
                    self.identifier();
                } else {
                    self.errors.push(error(self.line, ErrorKind::UnexpectedCharacter));
                    assert(self.errors@ =~= old(self).errors@ + option_seq(
                        step(src, pos, old(self).line as nat).error,
                    ));
                    assert(models(self.tokens@) =~= models(old(self).tokens@) + Seq::empty());
                }
            },
        }
        let ghost st = step(src, pos, old(self).line as nat);
        assert(self.wf());
        assert(self.current as int == st.next);
        assert(self.line as nat == st.line);
        assert(models(self.tokens@) == models(old(self).tokens@) + option_seq(st.token));
        assert(self.errors@ == old(self).errors@ + option_seq(st.error));
    }

    /// Scans the whole text: the tokens, ending with the end marker, and the
    /// lexical problems found, each as `scan` gives them.
    pub fn scan_tokens(self) -> (r: (Vec<Token>, Vec<LoxError>))
        requires
            self.is_fresh(),
        ensures
            models(r.0@) == scan(self.text()).0,
            r.1@ == scan(self.text()).1,
    {
        let mut scanner = self;
        let ghost src = scanner.source@;
        assert(models(scanner.tokens@) =~= Seq::empty());
        assert(scanner.errors@ =~= Seq::empty());
        while !scanner.is_at_end()
            invariant
                scanner.wf(),
                scanner.source@ == src,
                models(scanner.tokens@) + scan_from(src, scanner.current as int, scanner.line as nat).0
                    == scan(src).0,
                scanner.errors@ + scan_from(src, scanner.current as int, scanner.line as nat).1 == scan(
                    src,
                ).1,
            decreases src.len() - scanner.current,
        {
            let ghost before = scanner;
            proof {
                lemma_step_advances(src, scanner.current as int, scanner.line as nat);
            }
            scanner.start = scanner.current;
            scanner.scan_token();
            proof {
                let s = step(src, before.current as int, before.line as nat);
                let rest = scan_from(src, s.next, s.line);
                assert(models(before.tokens@) + (option_seq(s.token) + rest.0) =~= models(
                    scanner.tokens@,
                ) + rest.0);
                assert(before.errors@ + (option_seq(s.error) + rest.1) =~= scanner.errors@
                    + rest.1);
            }
        }
        let ghost before = scanner;
        scanner.tokens.push(Token::new(TokenType::Eof, Vec::new(), 0, scanner.line));
        proof {
            assert(models(scanner.tokens@) =~= models(before.tokens@) + seq![eof_token(scanner.line as nat)]);
            assert(scanner.errors@ =~= scanner.errors@ + Seq::<LoxError>::empty());
        }
        (scanner.tokens, scanner.errors)
    }
}

} // verus!
