//! The scanner: turns source text into tokens, one character position at a time.
//!
//! Positions count characters of the source, not bytes. A numeral's value is
//! accumulated in `i64` and wraps around in two's complement when the numeral
//! is too large; nothing the scanner meets makes it stop before the end.

use vstd::prelude::*;

verus! {

/// The two's-complement modulus of `i64`.
pub open spec fn i64_modulus() -> int {
    0x1_0000_0000_0000_0000
}

/// The `i64` that is congruent to `value` modulo 2^64.
pub open spec fn wrap_to_i64(value: int) -> i64 {
    let reduced = value % i64_modulus();
    if reduced > i64::MAX {
        (reduced - i64_modulus()) as i64
    } else {
        reduced as i64
    }
}

/// An ASCII decimal digit.
pub open spec fn is_digit_char(c: char) -> bool {
    '0' <= c <= '9'
}

/// The number that a decimal digit stands for.
pub open spec fn digit_value(c: char) -> int {
    c as u32 - 0x30
}

/// The characters with the Unicode property `White_Space`.
pub open spec fn is_whitespace_char(c: char) -> bool {
    let code = c as u32;
    ||| 0x09 <= code <= 0x0D
    ||| code == 0x20
    ||| code == 0x85
    ||| code == 0xA0
    ||| code == 0x1680
    ||| 0x2000 <= code <= 0x200A
    ||| code == 0x2028
    ||| code == 0x2029
    ||| code == 0x202F
    ||| code == 0x205F
    ||| code == 0x3000
}

/// What a decimal numeral denotes, most significant digit first.
pub open spec fn decimal_value(digits: Seq<char>) -> nat
    decreases digits.len(),
{
    if digits.len() == 0 {
        0
    } else {
        (10 * decimal_value(digits.drop_last()) + digit_value(digits.last())) as nat
    }
}

/// Whether every character of `text` is a decimal digit.
pub open spec fn all_digits(text: Seq<char>) -> bool {
    forall|i: int| 0 <= i < text.len() ==> is_digit_char(#[trigger] text[i])
}

/// The end of the longest run of digits that starts at `pos`.
pub open spec fn digits_end(source: Seq<char>, pos: int) -> int
    decreases source.len() - pos,
{
    if 0 <= pos < source.len() && is_digit_char(source[pos]) {
        digits_end(source, pos + 1)
    } else {
        pos
    }
}

/// The classes of token that the scanner tells apart.
#[derive(Debug, Clone, Copy, PartialEq, Eq, Structural)]
pub enum TokenKind {
    Number(i64),
    Plus,
    Minus,
    Asterisk,
    Slash,
    LParen,
    RParen,
    EOF,
    Whitespace,
    Bad,
}

/// The kind of a token that is a single character other than a digit or
/// whitespace.
pub open spec fn punctuation_kind(c: char) -> TokenKind {
    if c == '+' {
        TokenKind::Plus
    } else if c == '-' {
        TokenKind::Minus
    } else if c == '*' {
        TokenKind::Asterisk
    } else if c == '/' {
        TokenKind::Slash
    } else if c == '(' {
        TokenKind::LParen
    } else if c == ')' {
        TokenKind::RParen
    } else {
        TokenKind::Bad
    }
}

impl TokenKind {
    /// The text by which messages name this kind.
    pub open spec fn name(self) -> Seq<char> {
        match self {
            TokenKind::Number(_) => "Number"@,
            TokenKind::Plus => "+"@,
            TokenKind::Minus => "-"@,
            TokenKind::Asterisk => "*"@,
            TokenKind::Slash => "/"@,
            TokenKind::LParen => "("@,
            TokenKind::RParen => ")"@,
            TokenKind::EOF => "EOF"@,
            TokenKind::Whitespace => "Whitespace"@,
            TokenKind::Bad => "Bad"@,
        }
    }

    /// Renders the kind as messages show it.
    pub fn to_string(&self) -> (text: String)
        ensures
            text@ == self.name(),
    {
        match self {
            TokenKind::Number(_) => String::from_str("Number"),
            TokenKind::Plus => String::from_str("+"),
            TokenKind::Minus => String::from_str("-"),
            TokenKind::Asterisk => String::from_str("*"),
            TokenKind::Slash => String::from_str("/"),
            TokenKind::LParen => String::from_str("("),
            TokenKind::RParen => String::from_str(")"),
            TokenKind::EOF => String::from_str("EOF"),
            TokenKind::Whitespace => String::from_str("Whitespace"),
            TokenKind::Bad => String::from_str("Bad"),
        }
    }
}

/// What a `TextSpan` holds, as plain values.
pub struct TextSpanView {
    pub start: nat,
    pub end: nat,
    pub literal: Seq<char>,
}

/// A half-open range `[start, end)` of character positions in the source,
/// with the text it covers.
#[derive(Debug)]
pub struct TextSpan {
    start: usize,
    end: usize,
    literal: String,
}

impl View for TextSpan {
    type V = TextSpanView;

    closed spec fn view(&self) -> TextSpanView {
        TextSpanView { start: self.start as nat, end: self.end as nat, literal: self.literal@ }
    }
}

impl Clone for TextSpan {
    fn clone(&self) -> (span: Self)
        ensures
            span == *self,
    {
        proof {
            use_type_invariant(self);
        }
        TextSpan { start: self.start, end: self.end, literal: self.literal.clone() }
    }
}

impl PartialEq for TextSpan {
    fn eq(&self, other: &Self) -> (equal: bool) {
        self.start == other.start && self.end == other.end && self.literal == other.literal
    }
}

impl vstd::std_specs::cmp::PartialEqSpecImpl for TextSpan {
    open spec fn obeys_eq_spec() -> bool {
        true
    }

    /// Two spans are equal when they hold the same plain values.
    open spec fn eq_spec(&self, other: &Self) -> bool {
        self@ == other@
    }
}

impl TextSpan {
    #[verifier::type_invariant]
    spec fn ordered(&self) -> bool {
        self.start <= self.end
    }

    pub fn new(start: usize, end: usize, literal: String) -> (span: Self)
        requires
            start <= end,
        ensures
            span@ == (TextSpanView { start: start as nat, end: end as nat, literal: literal@ }),
    {
        Self { start, end, literal }
    }

    /// The number of positions in the range.
    pub fn length(&self) -> (length: usize)
        ensures
            length == self@.end - self@.start,
    {
        proof {
            use_type_invariant(self);
        }
        self.end - self.start
    }

    pub fn start(&self) -> (start: usize)
        ensures
            start == self@.start,
    {
        self.start
    }

    pub fn end(&self) -> (end: usize)
        ensures
            end == self@.end,
    {
        self.end
    }

    pub fn literal(&self) -> (literal: &str)
        ensures
            literal@ == self@.literal,
    {
        self.literal.as_str()
    }
}

/// What a `Token` holds, as plain values.
pub struct TokenView {
    pub kind: TokenKind,
    pub span: TextSpanView,
}

/// A classified piece of the source.
#[derive(Debug)]
pub struct Token {
    pub kind: TokenKind,
    pub span: TextSpan,
}

impl View for Token {
    type V = TokenView;

    open spec fn view(&self) -> TokenView {
        TokenView { kind: self.kind, span: self.span@ }
    }
}

impl Clone for Token {
    fn clone(&self) -> (token: Self)
        ensures
            token == *self,
    {
        Token { kind: self.kind, span: self.span.clone() }
    }
}

impl PartialEq for Token {
    fn eq(&self, other: &Self) -> (equal: bool) {
        self.kind == other.kind && self.span == other.span
    }
}

impl vstd::std_specs::cmp::PartialEqSpecImpl for Token {
    open spec fn obeys_eq_spec() -> bool {
        true
    }

    /// Two tokens are equal when they hold the same plain values.
    open spec fn eq_spec(&self, other: &Self) -> bool {
        self@ == other@
    }
}

impl Token {
    pub fn new(kind: TokenKind, span: TextSpan) -> (token: Self)
        ensures
            token.kind == kind,
            token.span == span,
    {
        Self { kind, span }
    }
}

/// The span `[start, end)` of `source`.
pub open spec fn span_of(source: Seq<char>, start: int, end: int) -> TextSpanView {
    TextSpanView { start: start as nat, end: end as nat, literal: source.subrange(start, end) }
}

/// The token that starts at `pos`, a position inside `source`: a maximal run
/// of digits, or else one character.
pub open spec fn token_at(source: Seq<char>, pos: int) -> TokenView {
    let c = source[pos];
    if is_digit_char(c) {
        let end = digits_end(source, pos);
        TokenView {
            kind: TokenKind::Number(wrap_to_i64(decimal_value(source.subrange(pos, end)) as int)),
            span: span_of(source, pos, end),
        }
    } else if is_whitespace_char(c) {
        TokenView { kind: TokenKind::Whitespace, span: span_of(source, pos, pos + 1) }
    } else {
        TokenView { kind: punctuation_kind(c), span: span_of(source, pos, pos + 1) }
    }
}

/// The token that closes every token sequence. Its span is a placeholder: an
/// empty range at the origin with a single NUL for its text.
pub open spec fn end_of_input_token() -> TokenView {
    TokenView {
        kind: TokenKind::EOF,
        span: TextSpanView { start: 0, end: 0, literal: seq!['\0'] },
    }
}

/// A run of digits ends inside the source, holds digits only, and cannot be
/// extended.
pub proof fn lemma_digits_end(source: Seq<char>, pos: int)
    requires
        0 <= pos <= source.len(),
    ensures
        pos <= digits_end(source, pos) <= source.len(),
        all_digits(source.subrange(pos, digits_end(source, pos))),
        digits_end(source, pos) < source.len() ==> !is_digit_char(
            source[digits_end(source, pos)],
        ),
        pos < source.len() && is_digit_char(source[pos]) ==> pos < digits_end(source, pos),
    decreases source.len() - pos,
{
    if pos < source.len() && is_digit_char(source[pos]) {
        lemma_digits_end(source, pos + 1);
        let end = digits_end(source, pos);
        assert forall|i: int| 0 <= i < end - pos implies is_digit_char(
            #[trigger] source.subrange(pos, end)[i],
        ) by {
            if i > 0 {
                assert(source.subrange(pos, end)[i] == source.subrange(pos + 1, end)[i - 1]);
            }
        }
    }
}

/// Appending a digit to a numeral multiplies its value by ten and adds the
/// digit.
pub proof fn lemma_decimal_value_push(digits: Seq<char>, c: char)
    requires
        is_digit_char(c),
    ensures
        decimal_value(digits.push(c)) == 10 * decimal_value(digits) + digit_value(c),
{
    assert(digits.push(c).drop_last() =~= digits);
}

/// The offset, in multiples of 2^64, between a value and its reduction to
/// `i64`.
proof fn lemma_wrap_offset(value: int) -> (k: int)
    ensures
        wrap_to_i64(value) == value + i64_modulus() * k,
{
    vstd::arithmetic::div_mod::lemma_fundamental_div_mod(value, i64_modulus());
    vstd::arithmetic::div_mod::lemma_mod_bound(value, i64_modulus());
    let q = value / i64_modulus();
    if value % i64_modulus() > i64::MAX {
        -q - 1
    } else {
        -q
    }
}

/// An `i64` that differs from a value by a multiple of 2^64 is the value's
/// reduction.
proof fn lemma_wrap_unique(value: int, reduced: int, k: int)
    requires
        i64::MIN <= reduced <= i64::MAX,
        reduced == value + i64_modulus() * k,
    ensures
        wrap_to_i64(value) == reduced,
{
    let j = lemma_wrap_offset(value);
    assert(wrap_to_i64(value) - reduced == i64_modulus() * (j - k));
}

/// A value that fits in `i64` is its own reduction.
pub proof fn lemma_wrap_in_range(value: int)
    requires
        i64::MIN <= value <= i64::MAX,
    ensures
        wrap_to_i64(value) == value,
{
    lemma_wrap_unique(value, value, 0);
}

/// One step of accumulating a numeral in wrapping `i64` arithmetic keeps the
/// accumulator equal to the reduction of the numeral read so far.
proof fn lemma_wrapping_accumulate(value: int, digit: i64)
    requires
        0 <= digit <= 9,
    ensures
        wrap_to_i64(value).wrapping_mul(10).wrapping_add(digit) == wrap_to_i64(
            10 * value + digit,
        ),
{
    let accumulated = wrap_to_i64(value);
    let k1 = lemma_wrap_offset(value);
    let k2 = lemma_wrap_offset(accumulated * 10);
    let scaled = accumulated.wrapping_mul(10);
    assert(scaled == wrap_to_i64(accumulated * 10));
    let result = scaled.wrapping_add(digit);
    let k3: int = if scaled + digit > i64::MAX {
        -1
    } else {
        0
    };
    assert(result == scaled + digit + i64_modulus() * k3);
    assert(result == 10 * value + digit + i64_modulus() * (10 * k1 + k2 + k3));
    lemma_wrap_unique(10 * value + digit, result as int, 10 * k1 + k2 + k3);
}

/// A cursor over the source that hands out one token per call.
pub struct Lexer<'a> {
    input: &'a str,
    length: usize,
    current_pos: usize,
    finished: bool,
}

impl<'a> Lexer<'a> {
    #[verifier::type_invariant]
    spec fn within_source(&self) -> bool {
        &&& self.length == self.input@.len()
        &&& self.current_pos <= self.length
        &&& self.finished ==> self.current_pos == self.length
    }

    /// The text being scanned.
    pub closed spec fn source(&self) -> Seq<char> {
        self.input@
    }

    /// The position of the next character to read.
    pub closed spec fn position(&self) -> nat {
        self.current_pos as nat
    }

    /// Whether the closing token has been handed out.
    pub closed spec fn exhausted(&self) -> bool {
        self.finished
    }

    /// A lexer at the start of `input`.
    pub fn new(input: &'a str) -> (lexer: Self)
        ensures
            lexer.source() == input@,
            lexer.position() == 0,
            !lexer.exhausted(),
    {
        Self { input, length: input.unicode_len(), current_pos: 0, finished: false }
    }

    /// Hands out the next token, or `None` once the closing token has been
    /// handed out. Inside the source the token is `token_at`; at its end it is
    /// the closing token, once.
    pub fn next_token(&mut self) -> (token: Option<Token>)
        ensures
            final(self).source() == old(self).source(),
            final(self).position() <= final(self).source().len(),
            old(self).exhausted() ==> token is None && final(self).position() == old(
                self,
            ).position() && final(self).exhausted(),
            !old(self).exhausted() ==> token is Some,
            !old(self).exhausted() && old(self).position() >= old(self).source().len() ==> ({
                &&& token->0@ == end_of_input_token()
                &&& final(self).position() == old(self).position()
                &&& final(self).exhausted()
            }),
            !old(self).exhausted() && old(self).position() < old(self).source().len() ==> ({
                &&& token->0@ == token_at(old(self).source(), old(self).position() as int)
                &&& final(self).position() == token->0@.span.end
                &&& final(self).position() > old(self).position()
                &&& !final(self).exhausted()
            }),
    {
        proof {
            use_type_invariant(&*self);
        }
        if self.finished {
            return None;
        }
        if self.current_pos == self.length {
            self.finished = true;
            proof {
                reveal_strlit("\0");
            }
            let literal = String::from_str("\0");
            assert(literal@ =~= seq!['\0']);
            let span = TextSpan::new(0, 0, literal);
            return Some(Token::new(TokenKind::EOF, span));
        }
        let start = self.current_pos;
        let c = self.input.get_char(start);
        let kind = if Self::is_number_start(&c) {
            let number = self.consume_number();
            TokenKind::Number(number)
        } else if Self::is_whitespace(&c) {
            self.consume_char();
            TokenKind::Whitespace
        } else {
            self.consume_punctuation()
        };
        proof {
            use_type_invariant(&*self);
            lemma_digits_end(self.input@, start as int);
        }
        let end = self.current_pos;
        let literal = String::from_str(self.input.substring_char(start, end));
        let span = TextSpan::new(start, end, literal);
        Some(Token::new(kind, span))
    }

    /// Whether a numeral starts with `current_char`.
    pub fn is_number_start(current_char: &char) -> (yes: bool)
        ensures
            yes == is_digit_char(*current_char),
    {
        *current_char >= '0' && *current_char <= '9'
    }

    /// Whether `current_char` has the Unicode property `White_Space`.
    pub fn is_whitespace(current_char: &char) -> (yes: bool)
        ensures
            yes == is_whitespace_char(*current_char),
    {
        let code: u32 = *current_char as u32;
        (0x09 <= code && code <= 0x0D) || code == 0x20 || code == 0x85 || code == 0xA0 || code
            == 0x1680 || (0x2000 <= code && code <= 0x200A) || code == 0x2028 || code == 0x2029
            || code == 0x202F || code == 0x205F || code == 0x3000
    }

    /// The character at the cursor, if the cursor is inside the source.
    fn get_current_char(&self) -> (current: Option<char>)
        ensures
            self.position() < self.source().len() ==> current == Some(
                self.source()[self.position() as int],
            ),
            self.position() >= self.source().len() ==> current is None,
    {
        proof {
            use_type_invariant(self);
        }
        if self.current_pos < self.length {
            Some(self.input.get_char(self.current_pos))
        } else {
            None
        }
    }

    /// Moves the cursor past the character it is at, and returns that
    /// character; at the end of the source nothing moves.
    fn consume_char(&mut self) -> (consumed: Option<char>)
        ensures
            final(self).source() == old(self).source(),
            final(self).exhausted() == old(self).exhausted(),
            old(self).position() < old(self).source().len() ==> ({
                &&& consumed == Some(old(self).source()[old(self).position() as int])
                &&& final(self).position() == old(self).position() + 1
            }),
            old(self).position() >= old(self).source().len() ==> ({
                &&& consumed is None
                &&& final(self).position() == old(self).position()
            }),
    {
        proof {
            use_type_invariant(&*self);
        }
        if self.current_pos >= self.length {
            return None;
        }
        let current_char = self.get_current_char();
        self.current_pos += 1;
        current_char
    }

    /// Moves the cursor past the run of digits it is at, and returns the
    /// value of that numeral, reduced to `i64`.
    fn consume_number(&mut self) -> (number: i64)
        ensures
            final(self).source() == old(self).source(),
            final(self).exhausted() == old(self).exhausted(),
            final(self).position() == digits_end(old(self).source(), old(self).position() as int),
            number == wrap_to_i64(
                decimal_value(
                    old(self).source().subrange(
                        old(self).position() as int,
                        final(self).position() as int,
                    ),
                ) as int,
            ),
    {
        proof {
            use_type_invariant(&*self);
        }
        let ghost source = self.input@;
        let ghost start = self.current_pos as int;
        let mut number: i64 = 0;
        proof {
            assert(source.subrange(start, start) =~= Seq::<char>::empty());
            lemma_wrap_in_range(0);
        }
        loop
            invariant
                self.source() == source,
                self.source() == old(self).source(),
                self.exhausted() == old(self).exhausted(),
                start == old(self).position(),
                start <= self.position() <= source.len(),
                digits_end(source, start) == digits_end(source, self.position() as int),
                number == wrap_to_i64(
                    decimal_value(source.subrange(start, self.position() as int)) as int,
                ),
            ensures
                self.position() == digits_end(source, start),
            decreases source.len() - self.position(),
        {
            let ghost pos = self.current_pos as int;
            match self.get_current_char() {
                Some(c) => {
                    if Self::is_number_start(&c) {
                        self.consume_char();
                        let digit: i64 = (c as u32 - 0x30) as i64;
                        proof {
                            let read = source.subrange(start, pos);
                            assert(source.subrange(start, pos + 1) =~= read.push(c));
                            lemma_decimal_value_push(read, c);
                            lemma_wrapping_accumulate(decimal_value(read) as int, digit);
                        }
                        number = number.wrapping_mul(10).wrapping_add(digit);
                    } else {
                        break ;
                    }
                },
                None => {
                    break ;
                },
            }
        }
        number
    }

    /// Moves the cursor past one character, and returns the kind of token
    /// that the character makes.
    fn consume_punctuation(&mut self) -> (kind: TokenKind)
        requires
            old(self).position() < old(self).source().len(),
        ensures
            final(self).source() == old(self).source(),
            final(self).exhausted() == old(self).exhausted(),
            final(self).position() == old(self).position() + 1,
            kind == punctuation_kind(old(self).source()[old(self).position() as int]),
    {
        match self.consume_char() {
            Some('+') => TokenKind::Plus,
            Some('-') => TokenKind::Minus,
            Some('*') => TokenKind::Asterisk,
            Some('/') => TokenKind::Slash,
            Some('(') => TokenKind::LParen,
            Some(')') => TokenKind::RParen,
            _ => TokenKind::Bad,
        }
    }
}

/// The tokens of `source` from position `pos` on, the closing token included.
pub open spec fn tokens_from(source: Seq<char>, pos: int) -> Seq<TokenView>
    decreases source.len() - pos,
{
    if 0 <= pos < source.len() {
        proof {
            lemma_digits_end(source, pos);
        }
        let token = token_at(source, pos);
        seq![token] + tokens_from(source, token.span.end as int)
    } else {
        seq![end_of_input_token()]
    }
}

/// The whole token sequence of `source`.
pub open spec fn tokens_of(source: Seq<char>) -> Seq<TokenView> {
    tokens_from(source, 0)
}

/// The tokens of a sequence as plain values.
pub open spec fn token_views(tokens: Seq<Token>) -> Seq<TokenView> {
    tokens.map_values(|token: Token| token@)
}

/// Scans `input` from its first character to its end.
pub fn tokenize(input: &str) -> (tokens: Vec<Token>)
    ensures
        token_views(tokens@) == tokens_of(input@),
{
    let mut lexer = Lexer::new(input);
    let mut tokens: Vec<Token> = Vec::new();
    let ghost source = input@;
    assert(token_views(tokens@) =~= Seq::<TokenView>::empty());
    loop
        invariant
            lexer.source() == source,
            lexer.position() <= source.len(),
            !lexer.exhausted() ==> token_views(tokens@) + tokens_from(
                source,
                lexer.position() as int,
            ) == tokens_of(source),
            lexer.exhausted() ==> token_views(tokens@) == tokens_of(source),
        ensures
            token_views(tokens@) == tokens_of(source),
        decreases
                source.len() - lexer.position() + if lexer.exhausted() {
                    0int
                } else {
                    1int
                },
    {
        let ghost before = token_views(tokens@);
        let ghost pos = lexer.position() as int;
        match lexer.next_token() {
            Some(token) => {
                tokens.push(token);
                proof {
                    assert(token_views(tokens@) =~= before.push(token@));
                    if pos < source.len() {
                        assert(before.push(token@) + tokens_from(source, token@.span.end as int)
                            =~= before + tokens_from(source, pos));
                    } else {
                        assert(before.push(token@) =~= before + tokens_from(source, pos));
                    }
                }
            },
            None => {
                break ;
            },
        }
    }
    tokens
}

/// The text of the tokens that stand for something: the literals of all
/// tokens but whitespace and the closing token, joined in order.
pub open spec fn significant_text(tokens: Seq<TokenView>) -> Seq<char>
    decreases tokens.len(),
{
    if tokens.len() == 0 {
        Seq::empty()
    } else {
        let first = tokens.first();
        let rest = significant_text(tokens.drop_first());
        if first.kind == TokenKind::Whitespace || first.kind == TokenKind::EOF {
            rest
        } else {
            first.span.literal + rest
        }
    }
}

/// The characters of `text` that are not whitespace, in order.
pub open spec fn without_whitespace(text: Seq<char>) -> Seq<char> {
    text.filter(|c: char| !is_whitespace_char(c))
}

/// A run of digits that reaches the end of the source ends there.
pub proof fn lemma_digits_to_the_end(source: Seq<char>, pos: int)
    requires
        0 <= pos <= source.len(),
        all_digits(source.subrange(pos, source.len() as int)),
    ensures
        digits_end(source, pos) == source.len(),
{
    lemma_digits_end(source, pos);
    let end = digits_end(source, pos);
    if end < source.len() {
        assert(source.subrange(pos, source.len() as int)[end - pos] == source[end]);
    }
}

/// A source made of digits alone scans as one number token, whose value is
/// the numeral's value reduced to `i64`, and the closing token.
pub proof fn lemma_numeral_tokens(source: Seq<char>)
    requires
        source.len() > 0,
        all_digits(source),
    ensures
        tokens_of(source) == seq![
            TokenView {
                kind: TokenKind::Number(wrap_to_i64(decimal_value(source) as int)),
                span: TextSpanView { start: 0, end: source.len(), literal: source },
            },
            end_of_input_token(),
        ],
        decimal_value(source) <= i64::MAX ==> wrap_to_i64(decimal_value(source) as int)
            == decimal_value(source),
{
    let length = source.len() as int;
    assert(source.subrange(0, length) =~= source);
    lemma_digits_to_the_end(source, 0);
    assert(is_digit_char(source[0]));
    assert(tokens_from(source, length) =~= seq![end_of_input_token()]);
    assert(tokens_of(source) =~= seq![token_at(source, 0)] + tokens_from(source, length));
    assert(tokens_of(source) =~= seq![token_at(source, 0), end_of_input_token()]);
    if decimal_value(source) <= i64::MAX {
        lemma_wrap_in_range(decimal_value(source) as int);
    }
}

/// Filtering a text in which no character is whitespace changes nothing.
proof fn lemma_without_whitespace_keeps(text: Seq<char>)
    requires
        forall|i: int| 0 <= i < text.len() ==> !is_whitespace_char(#[trigger] text[i]),
    ensures
        without_whitespace(text) == text,
    decreases text.len(),
{
    reveal(Seq::filter);
    if text.len() > 0 {
        lemma_without_whitespace_keeps(text.drop_last());
        assert(text.drop_last().push(text.last()) =~= text);
    }
}

/// What a token inside the source contributes to the significant text is
/// the text it covers without its whitespace.
proof fn lemma_token_text(source: Seq<char>, pos: int)
    requires
        0 <= pos < source.len(),
    ensures
        ({
            let token = token_at(source, pos);
            let covered = source.subrange(pos, token.span.end as int);
            &&& token.kind != TokenKind::EOF
            &&& token.span.literal == covered
            &&& token.kind == TokenKind::Whitespace ==> without_whitespace(covered)
                == Seq::<char>::empty()
            &&& token.kind != TokenKind::Whitespace ==> without_whitespace(covered) == covered
        }),
{
    lemma_digits_end(source, pos);
    let token = token_at(source, pos);
    let covered = source.subrange(pos, token.span.end as int);
    if token.kind == TokenKind::Whitespace {
        reveal_with_fuel(Seq::filter, 2);
        assert(covered.len() == 1);
        assert(covered.drop_last() =~= Seq::<char>::empty());
        assert(is_whitespace_char(covered.last()));
        assert(without_whitespace(covered) =~= Seq::<char>::empty());
    } else {
        assert forall|i: int| 0 <= i < covered.len() implies !is_whitespace_char(
            #[trigger] covered[i],
        ) by {
            if is_digit_char(source[pos]) {
                assert(is_digit_char(covered[i]));
            }
        }
        lemma_without_whitespace_keeps(covered);
    }
}

/// Joining the literals of all tokens from `pos` on, whitespace and the
/// closing token left out, gives the rest of the source without its whitespace.
pub proof fn lemma_significant_text_from(source: Seq<char>, pos: int)
    requires
        0 <= pos <= source.len(),
    ensures
        significant_text(tokens_from(source, pos)) == without_whitespace(
            source.subrange(pos, source.len() as int),
        ),
    decreases source.len() - pos,
{
    let length = source.len() as int;
    if pos < length {
        lemma_digits_end(source, pos);
        lemma_token_text(source, pos);
        let token = token_at(source, pos);
        let end = token.span.end as int;
        let rest = tokens_from(source, end);
        let covered = source.subrange(pos, end);
        let remaining = source.subrange(end, length);
        lemma_significant_text_from(source, end);
        assert(tokens_from(source, pos) == seq![token] + rest);
        assert((seq![token] + rest).drop_first() =~= rest);
        assert((seq![token] + rest).first() == token);
        assert(source.subrange(pos, length) =~= covered + remaining);
        Seq::filter_distributes_over_add(covered, remaining, |c: char| !is_whitespace_char(c));
        assert(without_whitespace(source.subrange(pos, length)) == without_whitespace(covered)
            + without_whitespace(remaining));
        if token.kind == TokenKind::Whitespace {
            assert(Seq::<char>::empty() + without_whitespace(remaining) =~= without_whitespace(
                remaining,
            ));
        }
    } else {
        reveal_with_fuel(Seq::filter, 1);
        let closing = tokens_from(source, pos);
        assert(closing.drop_first() =~= Seq::<TokenView>::empty());
        assert(significant_text(closing.drop_first()) =~= Seq::<char>::empty());
        assert(closing.first().kind == TokenKind::EOF);
        assert(source.subrange(pos, length) =~= Seq::<char>::empty());
    }
}

/// Joining the literals of the tokens of a source, whitespace and the closing
/// token left out, gives the source without its whitespace characters.
pub proof fn lemma_significant_text(source: Seq<char>)
    ensures
        significant_text(tokens_of(source)) == without_whitespace(source),
{
    lemma_significant_text_from(source, 0);
    assert(source.subrange(0, source.len() as int) =~= source);
}

/// The literals of all tokens but the closing one, joined in order.
pub open spec fn joined_literals(tokens: Seq<TokenView>) -> Seq<char>
    decreases tokens.len(),
{
    if tokens.len() == 0 {
        Seq::empty()
    } else {
        let first = tokens.first();
        let rest = joined_literals(tokens.drop_first());
        if first.kind == TokenKind::EOF {
            rest
        } else {
            first.span.literal + rest
        }
    }
}

/// The tokens from `pos` on cover the rest of the source without gap or
/// overlap: their literals, joined, are that rest.
pub proof fn lemma_literals_rebuild_source(source: Seq<char>, pos: int)
    requires
        0 <= pos <= source.len(),
    ensures
        joined_literals(tokens_from(source, pos)) == source.subrange(pos, source.len() as int),
    decreases source.len() - pos,
{
    let length = source.len() as int;
    if pos < length {
        lemma_digits_end(source, pos);
        let token = token_at(source, pos);
        let end = token.span.end as int;
        let rest = tokens_from(source, end);
        lemma_literals_rebuild_source(source, end);
        assert(tokens_from(source, pos) == seq![token] + rest);
        assert((seq![token] + rest).drop_first() =~= rest);
        assert((seq![token] + rest).first() == token);
        assert(source.subrange(pos, length) =~= source.subrange(pos, end) + source.subrange(
            end,
            length,
        ));
    } else {
        let closing = tokens_from(source, pos);
        assert(closing.drop_first() =~= Seq::<TokenView>::empty());
        assert(joined_literals(closing.drop_first()) =~= Seq::<char>::empty());
        assert(closing.first().kind == TokenKind::EOF);
        assert(source.subrange(pos, length) =~= Seq::<char>::empty());
    }
}

/// The closing token comes last and nowhere else.
pub proof fn lemma_closing_token(source: Seq<char>, pos: int)
    requires
        0 <= pos <= source.len(),
    ensures
        tokens_from(source, pos).len() > 0,
        tokens_from(source, pos).last() == end_of_input_token(),
        forall|i: int|
            0 <= i < tokens_from(source, pos).len() - 1 ==> (#[trigger] tokens_from(
                source,
                pos,
            )[i]).kind != TokenKind::EOF,
    decreases source.len() - pos,
{
    if pos < source.len() {
        lemma_digits_end(source, pos);
        let token = token_at(source, pos);
        lemma_closing_token(source, token.span.end as int);
    }
}

} // verus!
