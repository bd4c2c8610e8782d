//! From text to tokens.

use vstd::prelude::*;
use vstd::string::StrSliceExecFns;
use crate::error::{Detail, DetailView, Error, ErrorKind, ErrorView};
use crate::parser::ast::BinaryOperator;
use crate::value::float::{Float, FloatMath};

verus! {

/// What a token is.
#[derive(Clone, Copy, Debug, PartialEq, Eq, Structural)]
pub enum TokenKind {
    /// `true` or `false`.
    Boolean(bool),
    And,
    Or,
    Not,
    This,
    Super,
    /// A name; the token's range is its text.
    Name,
    Integer(i64),
    Float(Float),
    /// A string literal; the token's range is what stands between the
    /// quotes.
    Text,
    Dot,
    Comma,
    Colon,
    Pipe,
    Plus,
    Minus,
    LeftParenthesis,
    RightParenthesis,
    LeftBracket,
    RightBracket,
    /// `==`, `!=`, `>`, `>=`, `<` or `<=`.
    Compare(BinaryOperator),
}

/// A token and the range of characters that it was read from.
#[derive(Clone, Copy, Debug, PartialEq, Eq, Structural)]
pub struct Token {
    pub kind: TokenKind,
    pub from: usize,
    pub to: usize,
}

impl TokenKind {
    /// Whether an operand can end with this token. A `-` after such a
    /// token is the operator; elsewhere, before a digit, it is the sign of
    /// a number.
    pub open spec fn ends_operand(self) -> bool {
        match self {
            TokenKind::Boolean(_)
            | TokenKind::This
            | TokenKind::Super
            | TokenKind::Name
            | TokenKind::Integer(_)
            | TokenKind::Float(_)
            | TokenKind::Text
            | TokenKind::RightParenthesis
            | TokenKind::RightBracket => true,
            _ => false,
        }
    }
}

pub open spec fn is_space(c: char) -> bool {
    c == ' ' || c == '\t' || c == '\n' || c == '\r'
}

pub open spec fn is_digit(c: char) -> bool {
    '0' <= c <= '9'
}

pub open spec fn is_name_start(c: char) -> bool {
    'a' <= c <= 'z' || 'A' <= c <= 'Z' || c == '_'
}

pub open spec fn is_name_part(c: char) -> bool {
    is_name_start(c) || is_digit(c)
}

pub open spec fn is_quote(c: char) -> bool {
    c == '"' || c == '\'' || c == '`'
}

/// Where the digits that start at `i` end.
pub open spec fn digits_end(s: Seq<char>, i: int) -> int
    decreases s.len() - i,
{
    if 0 <= i < s.len() && is_digit(s[i]) {
        digits_end(s, i + 1)
    } else {
        i
    }
}

/// Where the name that starts at `i` ends.
pub open spec fn name_end(s: Seq<char>, i: int) -> int
    decreases s.len() - i,
{
    if 0 <= i < s.len() && is_name_part(s[i]) {
        name_end(s, i + 1)
    } else {
        i
    }
}

/// Where the first `quote` at or after `i` stands, if there is one.
pub open spec fn quote_at(s: Seq<char>, i: int, quote: char) -> Option<int>
    decreases s.len() - i,
{
    if 0 <= i < s.len() {
        if s[i] == quote {
            Some(i)
        } else {
            quote_at(s, i + 1, quote)
        }
    } else {
        None
    }
}

/// The number that the digits from `from` up to `to` denote. Leading zeros
/// add nothing.
pub open spec fn decimal(s: Seq<char>, from: int, to: int) -> nat
    decreases to - from,
{
    if to <= from {
        0
    } else {
        decimal(s, from, to - 1) * 10 + (s[to - 1] as u32 - '0' as u32) as nat
    }
}

/// The error of a text that cannot be read at `position`.
pub open spec fn syntax_error(kind: ErrorKind, position: int) -> ErrorView {
    ErrorView::bare(kind).with("position"@, DetailView::Count(position as nat))
}

/// The word that a name token stands for, where it is a reserved one.
pub open spec fn word_kind(word: Seq<char>) -> TokenKind {
    if word == "true"@ {
        TokenKind::Boolean(true)
    } else if word == "false"@ {
        TokenKind::Boolean(false)
    } else if word == "and"@ {
        TokenKind::And
    } else if word == "or"@ {
        TokenKind::Or
    } else if word == "not"@ {
        TokenKind::Not
    } else if word == "this"@ {
        TokenKind::This
    } else if word == "super"@ {
        TokenKind::Super
    } else {
        TokenKind::Name
    }
}

/// Whether a number starts at `i`: a digit, or a minus sign that cannot be
/// the operator and stands before a digit.
pub open spec fn number_starts(s: Seq<char>, i: int, after_operand: bool) -> bool {
    is_digit(s[i]) || (s[i] == '-' && !after_operand && i + 1 < s.len() && is_digit(s[i + 1]))
}

/// The token of the number that starts at `i`, and where it ends.
///
/// Digits, a point and digits are a float: what the host reads at `i`,
/// which must be finite. Digits alone are an integer, which must fit 64
/// bits with its sign.
pub open spec fn number_token(s: Seq<char>, i: int, reads: spec_fn(int) -> Float) -> Result<
    (Token, int),
    ErrorView,
> {
    let negative = s[i] == '-';
    let first = if negative {
        i + 1
    } else {
        i
    };
    let whole_end = digits_end(s, first);
    if whole_end + 1 < s.len() && s[whole_end] == '.' && is_digit(s[whole_end + 1]) {
        let end = digits_end(s, whole_end + 1);
        if reads(i).finite() {
            Ok(
                (
                    Token { kind: TokenKind::Float(reads(i)), from: i as usize, to: end as usize },
                    end,
                ),
            )
        } else {
            Err(syntax_error(ErrorKind::InfiniteFloat, i))
        }
    } else {
        let magnitude = decimal(s, first, whole_end);
        let value = if negative {
            -magnitude
        } else {
            magnitude as int
        };
        if i64::MIN <= value <= i64::MAX {
            Ok(
                (
                    Token {
                        kind: TokenKind::Integer(value as i64),
                        from: i as usize,
                        to: whole_end as usize,
                    },
                    whole_end,
                ),
            )
        } else {
            Err(syntax_error(ErrorKind::IntegerOutOfRange, i))
        }
    }
}

/// The token of one or two punctuation characters at `i`.
pub open spec fn punctuation(s: Seq<char>, i: int) -> Option<(TokenKind, int)> {
    let c = s[i];
    let followed_by_equals = i + 1 < s.len() && s[i + 1] == '=';
    if c == '.' {
        Some((TokenKind::Dot, 1))
    } else if c == ',' {
        Some((TokenKind::Comma, 1))
    } else if c == ':' {
        Some((TokenKind::Colon, 1))
    } else if c == '|' {
        Some((TokenKind::Pipe, 1))
    } else if c == '+' {
        Some((TokenKind::Plus, 1))
    } else if c == '-' {
        Some((TokenKind::Minus, 1))
    } else if c == '(' {
        Some((TokenKind::LeftParenthesis, 1))
    } else if c == ')' {
        Some((TokenKind::RightParenthesis, 1))
    } else if c == '[' {
        Some((TokenKind::LeftBracket, 1))
    } else if c == ']' {
        Some((TokenKind::RightBracket, 1))
    } else if c == '=' && followed_by_equals {
        Some((TokenKind::Compare(BinaryOperator::Equal), 2))
    } else if c == '!' && followed_by_equals {
        Some((TokenKind::Compare(BinaryOperator::NotEqual), 2))
    } else if c == '>' && followed_by_equals {
        Some((TokenKind::Compare(BinaryOperator::GreaterOrEqual), 2))
    } else if c == '>' {
        Some((TokenKind::Compare(BinaryOperator::Greater), 1))
    } else if c == '<' && followed_by_equals {
        Some((TokenKind::Compare(BinaryOperator::LowerOrEqual), 2))
    } else if c == '<' {
        Some((TokenKind::Compare(BinaryOperator::Lower), 1))
    } else {
        None
    }
}

/// The token that starts at `i`, where `s[i]` is no space, and where the
/// text goes on after it.
///
/// A string starts with one of three quotes and ends at the next quote of
/// the same kind; the other two may stand inside.
pub open spec fn next_token(
    s: Seq<char>,
    i: int,
    after_operand: bool,
    reads: spec_fn(int) -> Float,
) -> Result<(Token, int), ErrorView> {
    let c = s[i];
    if number_starts(s, i, after_operand) {
        number_token(s, i, reads)
    } else if is_name_start(c) {
        let end = name_end(s, i);
        Ok((Token { kind: word_kind(s.subrange(i, end)), from: i as usize, to: end as usize }, end))
    } else if is_quote(c) {
        match quote_at(s, i + 1, c) {
            Some(end) => Ok(
                (
                    Token { kind: TokenKind::Text, from: (i + 1) as usize, to: end as usize },
                    end + 1,
                ),
            ),
            None => Err(syntax_error(ErrorKind::UnterminatedString, i)),
        }
    } else {
        match punctuation(s, i) {
            Some((kind, width)) => Ok(
                (Token { kind, from: i as usize, to: (i + width) as usize }, i + width),
            ),
            None => Err(syntax_error(ErrorKind::UnexpectedToken, i)),
        }
    }
}

pub proof fn lemma_digits_end(s: Seq<char>, i: int)
    requires
        0 <= i <= s.len(),
    ensures
        i <= digits_end(s, i) <= s.len(),
        forall|k: int| i <= k < digits_end(s, i) ==> is_digit(#[trigger] s[k]),
        digits_end(s, i) < s.len() ==> !is_digit(s[digits_end(s, i)]),
    decreases s.len() - i,
{
    if i < s.len() && is_digit(s[i]) {
        lemma_digits_end(s, i + 1);
    }
}

pub proof fn lemma_name_end(s: Seq<char>, i: int)
    requires
        0 <= i <= s.len(),
    ensures
        i <= name_end(s, i) <= s.len(),
    decreases s.len() - i,
{
    if i < s.len() && is_name_part(s[i]) {
        lemma_name_end(s, i + 1);
    }
}

pub proof fn lemma_quote_at(s: Seq<char>, i: int, quote: char)
    requires
        0 <= i <= s.len(),
    ensures
        quote_at(s, i, quote) matches Some(end) ==> i <= end < s.len() && s[end] == quote,
        quote_at(s, i, quote) is None ==> forall|k: int|
            i <= k < s.len() ==> #[trigger] s[k] != quote,
    decreases s.len() - i,
{
    if i < s.len() && s[i] != quote {
        lemma_quote_at(s, i + 1, quote);
    }
}

/// A token is not empty-handed: the text goes on behind where it started,
/// and its range lies in the text.
pub proof fn lemma_next_token_advances(
    s: Seq<char>,
    i: int,
    after_operand: bool,
    reads: spec_fn(int) -> Float,
)
    requires
        0 <= i < s.len(),
        s.len() <= usize::MAX,
    ensures
        next_token(s, i, after_operand, reads) matches Ok((token, next)) ==> i < next <= s.len()
            && token.from <= token.to <= s.len(),
{
    if number_starts(s, i, after_operand) {
        let first = if s[i] == '-' {
            i + 1
        } else {
            i
        };
        lemma_digits_end(s, first);
        lemma_digits_end(s, first + 1);
        let whole_end = digits_end(s, first);
        if whole_end + 1 < s.len() {
            lemma_digits_end(s, whole_end + 1);
            lemma_digits_end(s, whole_end + 2);
        }
    } else if is_name_start(s[i]) {
        lemma_name_end(s, i + 1);
    } else if is_quote(s[i]) {
        lemma_quote_at(s, i + 1, s[i]);
    }
}

/// The tokens of the text from `i` on, behind those in `seen`. Spaces,
/// tabs and line ends separate tokens and are skipped.
pub open spec fn lex_from(
    s: Seq<char>,
    i: int,
    seen: Seq<Token>,
    reads: spec_fn(int) -> Float,
) -> Result<Seq<Token>, ErrorView>
    decreases s.len() - i,
{
    if !(0 <= i < s.len() <= usize::MAX) {
        Ok(seen)
    } else if is_space(s[i]) {
        lex_from(s, i + 1, seen, reads)
    } else {
        let after_operand = seen.len() > 0 && seen.last().kind.ends_operand();
        match next_token(s, i, after_operand, reads) {
            Err(e) => Err(e),
            Ok((token, next)) => {
                proof {
                    lemma_next_token_advances(s, i, after_operand, reads);
                }
                lex_from(s, next, seen.push(token), reads)
            },
        }
    }
}

/// The tokens of a text. `reads` gives, for each place where a float
/// literal starts, the float that the host reads there.
pub open spec fn lex(s: Seq<char>, reads: spec_fn(int) -> Float) -> Result<Seq<Token>, ErrorView> {
    lex_from(s, 0, Seq::empty(), reads)
}

/// The text of the float literal that starts at `i`: the sign if there is
/// one, the digits, the point and the digits behind it.
pub open spec fn float_text(s: Seq<char>, i: int) -> Seq<char> {
    let first = if s[i] == '-' {
        i + 1
    } else {
        i
    };
    s.subrange(i, digits_end(s, digits_end(s, first) + 1))
}

/// Whether the floats among the tokens are what the host gives for the
/// texts that they were read from.
pub open spec fn floats_read_by<M: FloatMath>(math: M, s: Seq<char>, tokens: Seq<Token>) -> bool {
    forall|k: int|
        0 <= k < tokens.len() ==> ((#[trigger] tokens[k]).kind matches TokenKind::Float(f)
            ==> math.parse_gives(s.subrange(tokens[k].from as int, tokens[k].to as int), f))
}

/// Whether `reads` is what the host read where it was asked: the floats
/// among the tokens of the text are what it gives for their texts, and
/// where the tokens end at a float that is not finite, that is what it
/// gives for the text of that one.
pub open spec fn read_by<M: FloatMath>(
    math: M,
    s: Seq<char>,
    reads: spec_fn(int) -> Float,
) -> bool {
    match lex(s, reads) {
        Ok(tokens) => floats_read_by(math, s, tokens),
        Err(e) => e.kind == ErrorKind::InfiniteFloat ==> exists|place: int|
            e == #[trigger] syntax_error(ErrorKind::InfiniteFloat, place) && math.parse_gives(
                float_text(s, place),
                reads(place),
            ),
    }
}

/// The view of what reading one token gives.
pub open spec fn token_outcome(r: Result<(Token, usize), Error>) -> Result<
    (Token, int),
    ErrorView,
> {
    match r {
        Ok((token, next)) => Ok((token, next as int)),
        Err(e) => Err(e@),
    }
}

/// The view of what reading all tokens gives.
pub open spec fn tokens_outcome(r: Result<Vec<Token>, Error>) -> Result<Seq<Token>, ErrorView> {
    match r {
        Ok(tokens) => Ok(tokens@),
        Err(e) => Err(e@),
    }
}

fn syntax_failure(kind: ErrorKind, position: usize) -> (e: Error)
    ensures
        e@ == syntax_error(kind, position as int),
{
    Error::new(kind).context("position", Detail::Count(position))
}

fn digit(c: char) -> (r: bool)
    ensures
        r == is_digit(c),
{
    '0' <= c && c <= '9'
}

fn name_start(c: char) -> (r: bool)
    ensures
        r == is_name_start(c),
{
    ('a' <= c && c <= 'z') || ('A' <= c && c <= 'Z') || c == '_'
}

fn space(c: char) -> (r: bool)
    ensures
        r == is_space(c),
{
    c == ' ' || c == '\t' || c == '\n' || c == '\r'
}

fn scan_digits(chars: &Vec<char>, i: usize) -> (end: usize)
    requires
        i <= chars@.len(),
    ensures
        end == digits_end(chars@, i as int),
        i <= end <= chars@.len(),
{
    let mut k: usize = i;
    while k < chars.len() && digit(chars[k])
        invariant
            i <= k <= chars@.len(),
            digits_end(chars@, i as int) == digits_end(chars@, k as int),
        decreases chars@.len() - k,
    {
        k = k + 1;
    }
    k
}

fn scan_name(chars: &Vec<char>, i: usize) -> (end: usize)
    requires
        i <= chars@.len(),
    ensures
        end == name_end(chars@, i as int),
        i <= end <= chars@.len(),
{
    let mut k: usize = i;
    while k < chars.len() && (name_start(chars[k]) || digit(chars[k]))
        invariant
            i <= k <= chars@.len(),
            name_end(chars@, i as int) == name_end(chars@, k as int),
        decreases chars@.len() - k,
    {
        k = k + 1;
    }
    k
}

fn find_quote(chars: &Vec<char>, i: usize, quote: char) -> (r: Option<usize>)
    requires
        i <= chars@.len(),
    ensures
        quote_at(chars@, i as int, quote) == match r {
            Some(end) => Some(end as int),
            None => None,
        },
        r matches Some(end) ==> i <= end < chars@.len(),
{
    let mut k: usize = i;
    while k < chars.len()
        invariant
            i <= k <= chars@.len(),
            quote_at(chars@, i as int, quote) == quote_at(chars@, k as int, quote),
        decreases chars@.len() - k,
    {
        if chars[k] == quote {
            return Some(k);
        }
        k = k + 1;
    }
    None
}

/// Whether the characters from `from` up to `to` are the given word.
fn is_word(chars: &Vec<char>, from: usize, to: usize, word: &str) -> (r: bool)
    requires
        from <= to <= chars@.len(),
    ensures
        r == (chars@.subrange(from as int, to as int) == word@),
{
    let n = word.unicode_len();
    if to - from != n {
        return false;
    }
    let mut k: usize = 0;
    while k < n
        invariant
            k <= n,
            n == word@.len(),
            to - from == n,
            from <= to <= chars@.len(),
            forall|j: int| 0 <= j < k ==> chars@[from + j] == word@[j],
        decreases n - k,
    {
        if chars[from + k] != word.get_char(k) {
            assert(chars@.subrange(from as int, to as int)[k as int] != word@[k as int]);
            return false;
        }
        k = k + 1;
    }
    assert(chars@.subrange(from as int, to as int) =~= word@);
    true
}

fn classify(chars: &Vec<char>, from: usize, to: usize) -> (kind: TokenKind)
    requires
        from <= to <= chars@.len(),
    ensures
        kind == word_kind(chars@.subrange(from as int, to as int)),
{
    if is_word(chars, from, to, "true") {
        TokenKind::Boolean(true)
    } else if is_word(chars, from, to, "false") {
        TokenKind::Boolean(false)
    } else if is_word(chars, from, to, "and") {
        TokenKind::And
    } else if is_word(chars, from, to, "or") {
        TokenKind::Or
    } else if is_word(chars, from, to, "not") {
        TokenKind::Not
    } else if is_word(chars, from, to, "this") {
        TokenKind::This
    } else if is_word(chars, from, to, "super") {
        TokenKind::Super
    } else {
        TokenKind::Name
    }
}

/// The magnitude that a signed 64-bit integer can have at most: two to the
/// power 63, for the least integer.
pub const MAGNITUDE_LIMIT: u64 = 0x8000_0000_0000_0000;

/// More digits never make a number smaller.
proof fn lemma_decimal_grows(s: Seq<char>, from: int, to: int, further: int)
    requires
        from <= to <= further,
    ensures
        decimal(s, from, to) <= decimal(s, from, further),
    decreases further - to,
{
    if to < further {
        lemma_decimal_grows(s, from, to, further - 1);
    }
}

/// The integer that the digits from `first` up to `end` denote, with the
/// given sign, if it fits 64 bits.
fn read_integer(chars: &Vec<char>, first: usize, end: usize, negative: bool) -> (r: Option<i64>)
    requires
        first <= end <= chars@.len(),
        forall|k: int| first <= k < end ==> is_digit(#[trigger] chars@[k]),
    ensures
        ({
            let magnitude = decimal(chars@, first as int, end as int);
            let value = if negative {
                -magnitude
            } else {
                magnitude as int
            };
            match r {
                Some(v) => v == value,
                None => !(i64::MIN <= value <= i64::MAX),
            }
        }),
{
    let mut magnitude: u64 = 0;
    let mut k: usize = first;
    while k < end
        invariant
            first <= k <= end <= chars@.len(),
            forall|j: int| first <= j < end ==> is_digit(#[trigger] chars@[j]),
            magnitude == decimal(chars@, first as int, k as int),
            magnitude <= MAGNITUDE_LIMIT,
        decreases end - k,
    {
        let d: u64 = (chars[k] as u32 - '0' as u32) as u64;
        assert(is_digit(chars@[k as int]));
        if magnitude > (MAGNITUDE_LIMIT - d) / 10 {
            proof {
                assert(decimal(chars@, first as int, k + 1) > MAGNITUDE_LIMIT);
                lemma_decimal_grows(chars@, first as int, k + 1, end as int);
            }
            return None;
        }
        magnitude = magnitude * 10 + d;
        k = k + 1;
    }
    if negative {
        if magnitude == MAGNITUDE_LIMIT {
            Some(i64::MIN)
        } else {
            Some(0 - (magnitude as i64))
        }
    } else if magnitude == MAGNITUDE_LIMIT {
        None
    } else {
        Some(magnitude as i64)
    }
}

/// Reads the number that starts at `i`. A float is read by the host; the
/// ghost result is what it read.
fn read_number<M: FloatMath>(text: &str, chars: &Vec<char>, i: usize, math: &M) -> (r: (
    Result<(Token, usize), Error>,
    Ghost<Float>,
))
    requires
        text@ == chars@,
        i < chars@.len(),
        is_digit(chars@[i as int]) || (chars@[i as int] == '-' && i + 1 < chars@.len()
            && is_digit(chars@[i + 1])),
    ensures
        forall|reads: spec_fn(int) -> Float|
            reads(i as int) == r.1@ ==> token_outcome(r.0) == #[trigger] number_token(
                chars@,
                i as int,
                reads,
            ),
        r.0 matches Ok((token, _)) ==> (token.kind matches TokenKind::Float(f)
            ==> math.parse_gives(chars@.subrange(token.from as int, token.to as int), f)),
        r.0 matches Err(e) ==> (e@.kind == ErrorKind::InfiniteFloat ==> e@ == syntax_error(
            ErrorKind::InfiniteFloat,
            i as int,
        ) && math.parse_gives(float_text(chars@, i as int), r.1@)),
{
    let len = chars.len();
    let negative = chars[i] == '-';
    let first = if negative {
        i + 1
    } else {
        i
    };
    let whole_end = scan_digits(chars, first);
    proof {
        lemma_digits_end(chars@, first as int);
    }
    if whole_end < chars.len() && chars[whole_end] == '.' && whole_end + 1 < chars.len() && digit(
        chars[whole_end + 1],
    ) {
        let end = scan_digits(chars, whole_end + 1);
        let f = math.parse(text.substring_char(i, end));
        if f.is_finite() {
            (Ok((Token { kind: TokenKind::Float(f), from: i, to: end }, end)), Ghost(f))
        } else {
            (Err(syntax_failure(ErrorKind::InfiniteFloat, i)), Ghost(f))
        }
    } else {
        match read_integer(chars, first, whole_end, negative) {
            Some(value) => (
                Ok((Token { kind: TokenKind::Integer(value), from: i, to: whole_end }, whole_end)),
                Ghost(Float { bits: 0 }),
            ),
            None => (
                Err(syntax_failure(ErrorKind::IntegerOutOfRange, i)),
                Ghost(Float { bits: 0 }),
            ),
        }
    }
}

/// The token of one or two punctuation characters at `i`.
fn read_punctuation(chars: &Vec<char>, i: usize) -> (r: Option<(TokenKind, usize)>)
    requires
        i < chars@.len(),
    ensures
        punctuation(chars@, i as int) == match r {
            Some((kind, width)) => Some((kind, width as int)),
            None => None,
        },
        r matches Some((_, width)) ==> 1 <= width && i + width <= chars@.len(),
{
    let len = chars.len();
    let c = chars[i];
    let followed_by_equals = i + 1 < len && chars[i + 1] == '=';
    if c == '.' {
        Some((TokenKind::Dot, 1))
    } else if c == ',' {
        Some((TokenKind::Comma, 1))
    } else if c == ':' {
        Some((TokenKind::Colon, 1))
    } else if c == '|' {
        Some((TokenKind::Pipe, 1))
    } else if c == '+' {
        Some((TokenKind::Plus, 1))
    } else if c == '-' {
        Some((TokenKind::Minus, 1))
    } else if c == '(' {
        Some((TokenKind::LeftParenthesis, 1))
    } else if c == ')' {
        Some((TokenKind::RightParenthesis, 1))
    } else if c == '[' {
        Some((TokenKind::LeftBracket, 1))
    } else if c == ']' {
        Some((TokenKind::RightBracket, 1))
    } else if c == '=' && followed_by_equals {
        Some((TokenKind::Compare(BinaryOperator::Equal), 2))
    } else if c == '!' && followed_by_equals {
        Some((TokenKind::Compare(BinaryOperator::NotEqual), 2))
    } else if c == '>' && followed_by_equals {
        Some((TokenKind::Compare(BinaryOperator::GreaterOrEqual), 2))
    } else if c == '>' {
        Some((TokenKind::Compare(BinaryOperator::Greater), 1))
    } else if c == '<' && followed_by_equals {
        Some((TokenKind::Compare(BinaryOperator::LowerOrEqual), 2))
    } else if c == '<' {
        Some((TokenKind::Compare(BinaryOperator::Lower), 1))
    } else {
        None
    }
}

/// Reads the token that starts at `i`. The ghost result is what the host
/// read there, where the token is a float.
fn read_token<M: FloatMath>(
    text: &str,
    chars: &Vec<char>,
    i: usize,
    after_operand: bool,
    math: &M,
) -> (r: (Result<(Token, usize), Error>, Ghost<Float>))
    requires
        text@ == chars@,
        i < chars@.len(),
    ensures
        forall|reads: spec_fn(int) -> Float|
            reads(i as int) == r.1@ ==> token_outcome(r.0) == #[trigger] next_token(
                chars@,
                i as int,
                after_operand,
                reads,
            ),
        r.0 matches Ok((token, _)) ==> (token.kind matches TokenKind::Float(f)
            ==> math.parse_gives(chars@.subrange(token.from as int, token.to as int), f)),
        r.0 matches Err(e) ==> (e@.kind == ErrorKind::InfiniteFloat ==> e@ == syntax_error(
            ErrorKind::InfiniteFloat,
            i as int,
        ) && math.parse_gives(float_text(chars@, i as int), r.1@)),
{
    let len = chars.len();
    let c = chars[i];
    if digit(c) || (c == '-' && !after_operand && i + 1 < len && digit(chars[i + 1])) {
        read_number(text, chars, i, math)
    } else if name_start(c) {
        let end = scan_name(chars, i);
        (
            Ok((Token { kind: classify(chars, i, end), from: i, to: end }, end)),
            Ghost(Float { bits: 0 }),
        )
    } else if c == '"' || c == '\'' || c == '`' {
        match find_quote(chars, i + 1, c) {
            Some(end) => (
                Ok((Token { kind: TokenKind::Text, from: i + 1, to: end }, end + 1)),
                Ghost(Float { bits: 0 }),
            ),
            None => (
                Err(syntax_failure(ErrorKind::UnterminatedString, i)),
                Ghost(Float { bits: 0 }),
            ),
        }
    } else {
        match read_punctuation(chars, i) {
            Some((kind, width)) => (
                Ok((Token { kind, from: i, to: i + width }, i + width)),
                Ghost(Float { bits: 0 }),
            ),
            None => (Err(syntax_failure(ErrorKind::UnexpectedToken, i)), Ghost(Float { bits: 0 })),
        }
    }
}

/// Whether `reads` gives what was read so far: it agrees with `seen`
/// before the place `i`.
pub open spec fn agrees(reads: spec_fn(int) -> Float, seen: spec_fn(int) -> Float, i: int) -> bool {
    forall|p: int| p < i ==> #[trigger] reads(p) == seen(p)
}

/// Every token's range lies in a text of `len` characters.
pub open spec fn tokens_in_range(tokens: Seq<Token>, len: int) -> bool {
    forall|k: int| 0 <= k < tokens.len() ==> (#[trigger] tokens[k]).from <= tokens[k].to <= len
}

/// Reads the tokens of `chars`, the characters of `text`. The ghost result
/// holds what the host read, by the place of each float literal.
pub fn tokenize<M: FloatMath>(text: &str, chars: &Vec<char>, math: &M) -> (r: (
    Result<Vec<Token>, Error>,
    Ghost<spec_fn(int) -> Float>,
))
    requires
        text@ == chars@,
    ensures
        tokens_outcome(r.0) == lex(chars@, r.1@),
        read_by(*math, chars@, r.1@),
        r.0 matches Ok(tokens) ==> tokens_in_range(tokens@, chars@.len() as int),
{
    let ghost s = chars@;
    let mut tokens: Vec<Token> = Vec::new();
    let ghost mut seen: spec_fn(int) -> Float = |p: int| Float { bits: 0 };
    let mut after_operand = false;
    let mut i: usize = 0;
    while i < chars.len()
        invariant
            s == chars@,
            text@ == chars@,
            i <= chars@.len(),
            after_operand == (tokens@.len() > 0 && tokens@.last().kind.ends_operand()),
            tokens_in_range(tokens@, s.len() as int),
            floats_read_by(*math, s, tokens@),
            forall|reads: spec_fn(int) -> Float|
                agrees(reads, seen, i as int) ==> #[trigger] lex(s, reads) == lex_from(
                    s,
                    i as int,
                    tokens@,
                    reads,
                ),
        decreases chars@.len() - i,
    {
        if space(chars[i]) {
            proof {
                assert forall|reads: spec_fn(int) -> Float|
                    agrees(reads, seen, i + 1) implies #[trigger] lex(s, reads) == lex_from(
                    s,
                    i + 1,
                    tokens@,
                    reads,
                ) by {
                    assert(agrees(reads, seen, i as int));
                }
            }
            i = i + 1;
        } else {
            let (r, Ghost(read)) = read_token(text, chars, i, after_operand, math);
            let ghost before = seen;
            proof {
                seen = |p: int| if p == i { read } else { before(p) };
                lemma_next_token_advances(s, i as int, after_operand, seen);
                assert(agrees(seen, before, i as int));
                assert(seen(i as int) == read);
            }
            match r {
                Err(e) => {
                    proof {
                        assert(lex(s, seen) == lex_from(s, i as int, tokens@, seen));
                        if e@.kind == ErrorKind::InfiniteFloat {
                            assert(e@ == syntax_error(ErrorKind::InfiniteFloat, i as int)
                                && math.parse_gives(float_text(s, i as int), seen(i as int)));
                        }
                    }
                    return (Err(e), Ghost(seen));
                },
                Ok((token, next)) => {
                    proof {
                        assert forall|reads: spec_fn(int) -> Float|
                            agrees(reads, seen, next as int) implies #[trigger] lex(s, reads)
                            == lex_from(s, next as int, tokens@.push(token), reads) by {
                            assert(agrees(reads, before, i as int)) by {
                                assert forall|p: int| p < i implies #[trigger] reads(p) == before(
                                    p,
                                ) by {
                                    assert(reads(p) == seen(p));
                                }
                            }
                            assert(reads(i as int) == seen(i as int));
                            assert(token_outcome(r) == next_token(
                                s,
                                i as int,
                                after_operand,
                                reads,
                            ));
                        }
                    }
                    tokens.push(token);
                    after_operand = matches!(
                        token.kind,
                        TokenKind::Boolean(_) | TokenKind::This | TokenKind::Super | TokenKind::Name
                            | TokenKind::Integer(_) | TokenKind::Float(_) | TokenKind::Text
                            | TokenKind::RightParenthesis | TokenKind::RightBracket
                    );
                    i = next;
                },
            }
        }
    }
    proof {
        assert(agrees(seen, seen, i as int));
    }
    (Ok(tokens), Ghost(seen))
}

/// Leading zeros add nothing to a number.
pub proof fn lemma_leading_zero(s: Seq<char>, from: int, to: int)
    requires
        0 <= from < to <= s.len(),
        s[from] == '0',
    ensures
        decimal(s, from, to) == decimal(s, from + 1, to),
    decreases to - from,
{
    if to - 1 > from {
        lemma_leading_zero(s, from, to - 1);
    } else {
        assert(decimal(s, from, from) == 0);
        assert(decimal(s, from + 1, to) == 0);
    }
}

/// Whether a text holds no point, and so no float literal.
pub open spec fn without_point(s: Seq<char>) -> bool {
    forall|k: int| 0 <= k < s.len() ==> #[trigger] s[k] != '.'
}

/// The tokens of a text without a point do not depend on what the host
/// reads: it is asked nothing.
pub proof fn lemma_lex_without_point(
    s: Seq<char>,
    i: int,
    seen: Seq<Token>,
    reads: spec_fn(int) -> Float,
    others: spec_fn(int) -> Float,
)
    requires
        without_point(s),
    ensures
        lex_from(s, i, seen, reads) == lex_from(s, i, seen, others),
    decreases s.len() - i,
{
    if 0 <= i < s.len() <= usize::MAX {
        if is_space(s[i]) {
            lemma_lex_without_point(s, i + 1, seen, reads, others);
        } else {
            let after_operand = seen.len() > 0 && seen.last().kind.ends_operand();
            if number_starts(s, i, after_operand) {
                let first = if s[i] == '-' {
                    i + 1
                } else {
                    i
                };
                lemma_digits_end(s, first);
            }
            assert(next_token(s, i, after_operand, reads) == next_token(
                s,
                i,
                after_operand,
                others,
            ));
            lemma_next_token_advances(s, i, after_operand, reads);
            if let Ok((token, next)) = next_token(s, i, after_operand, reads) {
                lemma_lex_without_point(s, next, seen.push(token), reads, others);
            }
        }
    }
}

} // verus!
