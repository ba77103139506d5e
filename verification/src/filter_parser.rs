//! Filter expressions: their grammar, and the filters they stand for.
//!
//! ```text
//! expr       = or_expr
//! or_expr    = and_expr ( OR and_expr )*
//! and_expr   = not_expr ( AND not_expr )*
//! not_expr   = NOT not_expr | atom
//! atom       = "(" expr ")" | comparison
//! comparison = field IS NOT NULL | field IS NULL | field op value
//! op         = "=" | "!=" | "<=" | ">=" | "<" | ">"
//! value      = string | float | integer | TRUE | FALSE | NULL
//! field      = letters, digits, "_" and "-"
//! ```
//!
//! Keywords are recognized without regard to case. A string stands in double
//! quotes and writes a double quote as `\"`. White space separates words and is
//! otherwise ignored.

use vstd::prelude::*;
use crate::filters;
use crate::filters::FilterView;
use crate::json;
use crate::json::{Double, Json, JsonNumber, JsonValue, INFINITY_BITS};
use crate::models::MetadataFilter;
use crate::text;
use crate::text::{
    ascii_lowercase, chars_of, identifier, is_identifier_char, same_text, text_between, trimmed,
    white_space,
};

verus! {

/// A comparison operator.
#[derive(Debug, Clone, Copy, PartialEq, Eq, Structural)]
pub enum CompareOp {
    Eq,
    Neq,
    Lt,
    Gt,
    Lte,
    Gte,
}

impl CompareOp {
    pub open spec fn spec_name(self) -> Seq<char> {
        match self {
            CompareOp::Eq => "eq"@,
            CompareOp::Neq => "neq"@,
            CompareOp::Lt => "lt"@,
            CompareOp::Gt => "gt"@,
            CompareOp::Lte => "lte"@,
            CompareOp::Gte => "gte"@,
        }
    }

    /// The operator's name in filters.
    pub fn name(&self) -> (r: &'static str)
        ensures
            r@ == self.spec_name(),
    {
        match self {
            CompareOp::Eq => "eq",
            CompareOp::Neq => "neq",
            CompareOp::Lt => "lt",
            CompareOp::Gt => "gt",
            CompareOp::Lte => "lte",
            CompareOp::Gte => "gte",
        }
    }
}

/// A token of an expression.
#[derive(Debug, PartialEq, Eq)]
pub enum Token {
    Open,
    Close,
    Op(CompareOp),
    Text(String),
    Word(String),
}

/// A token, as mathematical values.
pub ghost enum Lexeme {
    Open,
    Close,
    Op(CompareOp),
    Text(Seq<char>),
    Word(Seq<char>),
}

impl Token {
    pub open spec fn view(&self) -> Lexeme {
        match self {
            Token::Open => Lexeme::Open,
            Token::Close => Lexeme::Close,
            Token::Op(op) => Lexeme::Op(*op),
            Token::Text(s) => Lexeme::Text(s@),
            Token::Word(s) => Lexeme::Word(s@),
        }
    }
}

/// The lexemes of tokens.
pub open spec fn lexemes(v: Seq<Token>) -> Seq<Lexeme> {
    Seq::new(v.len(), |i: int| v[i]@)
}

/// What a quoted string holds, and what follows its closing quote, when `acc`
/// was read of it already; nothing if it is not closed.
pub open spec fn quoted(acc: Seq<char>, s: Seq<char>) -> Option<(Seq<char>, Seq<char>)>
    decreases s.len(),
{
    if s.len() == 0 {
        None
    } else if s.len() > 1 && s[0] == '\\' && s[1] == '"' {
        quoted(acc.push('"'), s.skip(2))
    } else if s[0] == '"' {
        Some((acc, s.skip(1)))
    } else {
        quoted(acc.push(s[0]), s.skip(1))
    }
}

/// Whether a character can stand in a word: a name, a keyword or a number.
pub open spec fn word_char(c: char) -> bool {
    text::identifier_char(c) || c == '.'
}

/// The number of word characters that a text begins with.
pub open spec fn word_length(s: Seq<char>) -> int
    decreases s.len(),
{
    if s.len() > 0 && word_char(s[0]) {
        1 + word_length(s.skip(1))
    } else {
        0
    }
}

/// The operator that a text begins with, and the number of its characters.
pub open spec fn leading_op(s: Seq<char>) -> Option<(CompareOp, int)> {
    if s.len() > 1 && s[0] == '!' && s[1] == '=' {
        Some((CompareOp::Neq, 2))
    } else if s.len() > 1 && s[0] == '<' && s[1] == '=' {
        Some((CompareOp::Lte, 2))
    } else if s.len() > 1 && s[0] == '>' && s[1] == '=' {
        Some((CompareOp::Gte, 2))
    } else if s.len() > 0 && s[0] == '=' {
        Some((CompareOp::Eq, 1))
    } else if s.len() > 0 && s[0] == '<' {
        Some((CompareOp::Lt, 1))
    } else if s.len() > 0 && s[0] == '>' {
        Some((CompareOp::Gt, 1))
    } else {
        None
    }
}

/// The lexemes of an expression, when `acc` was read of it already; nothing if
/// it holds what is no token.
pub open spec fn lexed(acc: Seq<Lexeme>, s: Seq<char>) -> Option<Seq<Lexeme>>
    decreases s.len(),
{
    if s.len() == 0 {
        Some(acc)
    } else if text::is_white_space(s[0]) {
        lexed(acc, s.skip(1))
    } else if s[0] == '(' {
        lexed(acc.push(Lexeme::Open), s.skip(1))
    } else if s[0] == ')' {
        lexed(acc.push(Lexeme::Close), s.skip(1))
    } else if s[0] == '"' {
        match quoted(Seq::empty(), s.skip(1)) {
            Some((content, rest)) => if rest.len() < s.len() {
                lexed(acc.push(Lexeme::Text(content)), rest)
            } else {
                None
            },
            None => None,
        }
    } else {
        match leading_op(s) {
            Some((op, n)) => lexed(acc.push(Lexeme::Op(op)), s.skip(n)),
            None => if 0 < word_length(s) <= s.len() {
                lexed(acc.push(Lexeme::Word(s.take(word_length(s)))), s.skip(word_length(s)))
            } else {
                None
            },
        }
    }
}

proof fn lemma_quoted_shrinks(acc: Seq<char>, s: Seq<char>)
    ensures
        quoted(acc, s) matches Some((c, rest)) ==> rest.len() < s.len(),
    decreases s.len(),
{
    if s.len() > 1 && s[0] == '\\' && s[1] == '"' {
        lemma_quoted_shrinks(acc.push('"'), s.skip(2));
    } else if s.len() > 0 && s[0] != '"' {
        lemma_quoted_shrinks(acc.push(s[0]), s.skip(1));
    }
}

proof fn lemma_word_length(s: Seq<char>)
    ensures
        0 <= word_length(s) <= s.len(),
    decreases s.len(),
{
    if s.len() > 0 {
        lemma_word_length(s.skip(1));
    }
}

/// Reads a quoted string whose opening quote is behind; gives its content and
/// the position behind the closing quote.
fn read_quoted(cs: &Vec<char>, from: usize) -> (r: Option<(String, usize)>)
    requires
        from <= cs@.len(),
    ensures
        match r {
            Some((content, at)) => from < at <= cs@.len() && quoted(
                Seq::empty(),
                cs@.skip(from as int),
            ) == Some((content@, cs@.skip(at as int))),
            None => quoted(Seq::empty(), cs@.skip(from as int)) is None,
        },
{
    let mut content: String = String::new();
    let mut i: usize = from;
    assert(content@ =~= Seq::<char>::empty());
    while i < cs.len()
        invariant
            from <= i <= cs@.len(),
            quoted(Seq::empty(), cs@.skip(from as int)) == quoted(content@, cs@.skip(i as int)),
        decreases cs.len() - i,
    {
        let ghost s = cs@.skip(i as int);
        assert(s[0] == cs@[i as int]);
        if i + 1 < cs.len() && cs[i] == '\\' && cs[i + 1] == '"' {
            assert(s[1] == cs@[i as int + 1]);
            assert(s.skip(2) =~= cs@.skip(i as int + 2));
            content.push('"');
            i += 2;
        } else if cs[i] == '"' {
            assert(s.skip(1) =~= cs@.skip(i as int + 1));
            assert(s.len() > 1 ==> s[1] == cs@[i as int + 1]);
            return Some((content, i + 1));
        } else {
            assert(s.skip(1) =~= cs@.skip(i as int + 1));
            assert(s.len() > 1 ==> s[1] == cs@[i as int + 1]);
            content.push(cs[i]);
            i += 1;
        }
    }
    assert(cs@.skip(i as int).len() == 0);
    None
}

fn is_word_char(c: char) -> (r: bool)
    ensures
        r == word_char(c),
{
    is_identifier_char(c) || c == '.'
}

/// The position behind the word characters from `from` on.
fn word_end(cs: &Vec<char>, from: usize) -> (r: usize)
    requires
        from <= cs@.len(),
    ensures
        from <= r <= cs@.len(),
        r - from == word_length(cs@.skip(from as int)),
{
    let mut i: usize = from;
    while i < cs.len() && is_word_char(cs[i])
        invariant
            from <= i <= cs@.len(),
            word_length(cs@.skip(from as int)) == (i - from) + word_length(cs@.skip(i as int)),
        decreases cs.len() - i,
    {
        assert(cs@.skip(i as int)[0] == cs@[i as int]);
        assert(cs@.skip(i as int).skip(1) =~= cs@.skip(i as int + 1));
        i += 1;
    }
    assert(i < cs@.len() ==> cs@.skip(i as int)[0] == cs@[i as int]);
    i
}

fn read_op(cs: &Vec<char>, i: usize) -> (r: Option<(CompareOp, usize)>)
    requires
        i < cs@.len(),
    ensures
        match r {
            Some((op, n)) => leading_op(cs@.skip(i as int)) == Some((op, n as int)) && 0 < n
                && i + n <= cs@.len(),
            None => leading_op(cs@.skip(i as int)) is None,
        },
{
    let ghost s = cs@.skip(i as int);
    assert(s[0] == cs@[i as int]);
    assert(s.len() > 1 ==> s[1] == cs@[i as int + 1]);
    let c: char = cs[i];
    let n: usize = cs.len();
    let followed = n - i > 1 && cs[i + 1] == '=';
    if c == '!' && followed {
        Some((CompareOp::Neq, 2))
    } else if c == '<' && followed {
        Some((CompareOp::Lte, 2))
    } else if c == '>' && followed {
        Some((CompareOp::Gte, 2))
    } else if c == '=' {
        Some((CompareOp::Eq, 1))
    } else if c == '<' {
        Some((CompareOp::Lt, 1))
    } else if c == '>' {
        Some((CompareOp::Gt, 1))
    } else {
        None
    }
}

/// The tokens of an expression; nothing if it holds what is no token.
pub fn tokenize(input: &str) -> (r: Option<Vec<Token>>)
    ensures
        match r {
            Some(v) => lexed(Seq::empty(), input@) == Some(lexemes(v@)),
            None => lexed(Seq::empty(), input@) is None,
        },
{
    let cs = chars_of(input);
    let mut out: Vec<Token> = Vec::new();
    let mut i: usize = 0;
    assert(cs@.skip(0) =~= input@);
    assert(lexemes(out@) =~= Seq::<Lexeme>::empty());
    while i < cs.len()
        invariant
            i <= cs@.len(),
            cs@ == input@,
            lexed(Seq::empty(), input@) == lexed(lexemes(out@), cs@.skip(i as int)),
        decreases cs.len() - i,
    {
        let ghost s = cs@.skip(i as int);
        let ghost before = lexemes(out@);
        assert(s[0] == cs@[i as int]);
        assert(s.skip(1) =~= cs@.skip(i as int + 1));
        let c: char = cs[i];
        if white_space(c) {
            i += 1;
        } else if c == '(' {
            out.push(Token::Open);
            assert(lexemes(out@) =~= before.push(Lexeme::Open));
            i += 1;
        } else if c == ')' {
            out.push(Token::Close);
            assert(lexemes(out@) =~= before.push(Lexeme::Close));
            i += 1;
        } else if c == '"' {
            match read_quoted(&cs, i + 1) {
                Some((content, at)) => {
                    proof {
                        lemma_quoted_shrinks(Seq::empty(), s.skip(1));
                    }
                    let ghost view = content@;
                    out.push(Token::Text(content));
                    assert(lexemes(out@) =~= before.push(Lexeme::Text(view)));
                    i = at;
                },
                None => {
                    return None;
                },
            }
        } else if let Some((op, n)) = read_op(&cs, i) {
            out.push(Token::Op(op));
            assert(lexemes(out@) =~= before.push(Lexeme::Op(op)));
            assert(s.skip(n as int) =~= cs@.skip(i + n));
            i += n;
        } else {
            let at = word_end(&cs, i);
            if at == i {
                return None;
            }
            let word = text_between(&cs, i, at);
            let ghost view = word@;
            out.push(Token::Word(word));
            assert(lexemes(out@) =~= before.push(Lexeme::Word(view)));
            assert(s.skip(at - i) =~= cs@.skip(at as int));
            assert(s.take(at - i) =~= cs@.subrange(i as int, at as int));
            i = at;
        }
    }
    assert(cs@.skip(i as int).len() == 0);
    Some(out)
}

/// What `str::parse` reads as a double-precision number from a text.
pub uninterp spec fn parsed_double(s: Seq<char>) -> Option<Double>;

/// Calls `str::parse` for a double-precision number and takes the bits of what
/// it reads, in big-endian order, through `bytes::BufMut`; `None` stands for
/// its error.
#[verifier::external_body]
fn read_double(s: &str) -> (r: Option<Double>)
    ensures
        r == parsed_double(s@),
{
    let mut buf: Vec<u8> = Vec::new();
    match s.parse() {
        Ok(x) => bytes::BufMut::put_f64(&mut buf, x),
        Err(_) => return None,
    }
    let mut bits: &[u8] = &buf;
    Some(Double { bits: bytes::Buf::get_u64(&mut bits) })
}

pub open spec fn is_digit(c: char) -> bool {
    '0' <= c <= '9'
}

/// Whether a text is made of digits, and of at least one.
pub open spec fn all_digits(s: Seq<char>) -> bool {
    s.len() > 0 && forall|i: int| 0 <= i < s.len() ==> is_digit(#[trigger] s[i])
}

/// A text without its leading minus sign.
pub open spec fn unsigned(s: Seq<char>) -> Seq<char> {
    if s.len() > 0 && s[0] == '-' {
        s.skip(1)
    } else {
        s
    }
}

/// Whether a word is an integer: digits, possibly behind a minus sign.
pub open spec fn is_integer_word(s: Seq<char>) -> bool {
    all_digits(unsigned(s))
}

/// Whether a word is a float: digits, a point and digits, possibly behind a
/// minus sign.
pub open spec fn is_float_word(s: Seq<char>) -> bool {
    let u = unsigned(s);
    let p = text::first_index(u, '.');
    0 < p < u.len() && all_digits(u.take(p)) && all_digits(u.skip(p + 1))
}

/// The number that digits stand for.
pub open spec fn digits_value(s: Seq<char>) -> nat
    decreases s.len(),
{
    if s.len() == 0 {
        0
    } else {
        digits_value(s.drop_last()) * 10 + (s.last() as u32 - '0' as u32) as nat
    }
}

/// The number that an integer word stands for.
pub open spec fn integer_value(s: Seq<char>) -> int {
    if s.len() > 0 && s[0] == '-' {
        -(digits_value(unsigned(s)) as int)
    } else {
        digits_value(s) as int
    }
}

fn digits_between(cs: &Vec<char>, from: usize, to: usize) -> (r: bool)
    requires
        from <= to <= cs@.len(),
    ensures
        r == all_digits(cs@.subrange(from as int, to as int)),
{
    let ghost s = cs@.subrange(from as int, to as int);
    let mut i: usize = from;
    while i < to
        invariant
            from <= i <= to <= cs@.len(),
            s == cs@.subrange(from as int, to as int),
            forall|k: int| 0 <= k < i - from ==> is_digit(#[trigger] s[k]),
        decreases to - i,
    {
        assert(s[i - from] == cs@[i as int]);
        if !('0' <= cs[i] && cs[i] <= '9') {
            return false;
        }
        i += 1;
    }
    to > from
}

proof fn lemma_digits_prefix(s: Seq<char>, n: int)
    requires
        0 <= n <= s.len(),
    ensures
        digits_value(s.take(n)) <= digits_value(s),
    decreases s.len() - n,
{
    if n < s.len() {
        assert(s.take(n + 1).drop_last() =~= s.take(n));
        lemma_digits_prefix(s, n + 1);
    } else {
        assert(s.take(n) =~= s);
    }
}

/// The number that the digits from `from` on stand for, if it fits in 64 bits.
fn read_digits(cs: &Vec<char>, from: usize) -> (r: Option<u64>)
    requires
        from <= cs@.len(),
        all_digits(cs@.skip(from as int)),
    ensures
        match r {
            Some(n) => n == digits_value(cs@.skip(from as int)),
            None => digits_value(cs@.skip(from as int)) > u64::MAX,
        },
{
    let ghost s = cs@.skip(from as int);
    let mut n: u64 = 0;
    let mut i: usize = from;
    assert(s.take(0) =~= Seq::<char>::empty());
    while i < cs.len()
        invariant
            from <= i <= cs@.len(),
            s == cs@.skip(from as int),
            all_digits(s),
            n == digits_value(s.take(i - from)),
        decreases cs.len() - i,
    {
        let ghost next = s.take(i - from + 1);
        proof {
            assert(next.drop_last() =~= s.take(i - from));
            assert(next.last() == s[i - from]);
            assert(s[i - from] == cs@[i as int]);
            assert(is_digit(s[i - from]));
        }
        let d: u64 = (cs[i] as u32 - '0' as u32) as u64;
        if n > (u64::MAX - d) / 10 {
            proof {
                assert(n * 10 + d > u64::MAX);
                lemma_digits_prefix(s, i - from + 1);
            }
            return None;
        }
        n = n * 10 + d;
        i += 1;
    }
    assert(s.take(i - from) =~= s);
    Some(n)
}

/// A finite double as a JSON number; JSON has no other doubles.
pub open spec fn json_double(d: Double) -> Json {
    if d.magnitude() < INFINITY_BITS {
        Json::Number(JsonNumber::Float(d))
    } else {
        Json::Null
    }
}

/// The double that a number word is nearest to.
pub open spec fn word_double(w: Seq<char>) -> Double {
    match parsed_double(w) {
        Some(d) => d,
        None => Double::zero(),
    }
}

/// The value that a word stands for, with what is wrong with it as a number.
pub open spec fn word_value(w: Seq<char>) -> Option<(Json, Option<Seq<char>>)> {
    if is_float_word(w) {
        match parsed_double(w) {
            Some(d) => Some((json_double(d), None)),
            None => Some((Json::Null, Some("Invalid float: invalid float literal"@))),
        }
    } else if is_integer_word(w) {
        let n = integer_value(w);
        if n > i64::MAX {
            Some(
                (
                    Json::Null,
                    Some("Invalid integer: number too large to fit in target type"@),
                ),
            )
        } else if n < i64::MIN {
            Some(
                (
                    Json::Null,
                    Some("Invalid integer: number too small to fit in target type"@),
                ),
            )
        } else if n >= 0 {
            Some((Json::Number(JsonNumber::Unsigned(n as u64, word_double(w))), None))
        } else {
            Some((Json::Number(JsonNumber::Negative(n as i64, word_double(w))), None))
        }
    } else if text::ascii_lower(w) == "true"@ {
        Some((Json::Bool(true), None))
    } else if text::ascii_lower(w) == "false"@ {
        Some((Json::Bool(false), None))
    } else if text::ascii_lower(w) == "null"@ {
        Some((Json::Null, None))
    } else {
        None
    }
}

/// A value read from an expression, with what is wrong with it as a number.
pub struct ReadValue {
    pub value: JsonValue,
    pub problem: Option<String>,
}

fn sound(value: JsonValue) -> (r: Option<ReadValue>)
    ensures
        r is Some,
        r->0.value@ == value@,
        r->0.problem is None,
{
    Some(ReadValue { value, problem: None })
}

fn unsound(problem: &str) -> (r: Option<ReadValue>)
    ensures
        r is Some,
        r->0.value@ == Json::Null,
        r->0.problem is Some,
        r->0.problem->0@ == problem@,
{
    Some(ReadValue { value: JsonValue::Null, problem: Some(problem.to_owned()) })
}

/// What is read as a value.
pub open spec fn read_view(r: Option<ReadValue>) -> Option<(Json, Option<Seq<char>>)> {
    match r {
        Some(v) => Some((v.value@, text::opt_view(v.problem))),
        None => None,
    }
}

/// Reads the value that a word stands for.
pub fn read_word(w: &str) -> (r: Option<ReadValue>)
    ensures
        read_view(r) == word_value(w@),
{
    let cs = chars_of(w);
    let negative = cs.len() > 0 && cs[0] == '-';
    let from: usize = if negative {
        1
    } else {
        0
    };
    let ghost u = unsigned(w@);
    assert(u =~= cs@.skip(from as int));
    let mut p: usize = from;
    while p < cs.len() && cs[p] != '.'
        invariant
            from <= p <= cs@.len(),
            u == cs@.skip(from as int),
            forall|k: int| 0 <= k < p - from ==> #[trigger] u[k] != '.',
        decreases cs.len() - p,
    {
        assert(u[p - from] == cs@[p as int]);
        p += 1;
    }
    proof {
        text::first_index_is_first(u, '.');
        let f = text::first_index(u, '.');
        if p < cs@.len() {
            assert(u[p - from] == '.');
        }
        assert(f == p - from);
        if p < cs@.len() {
            assert(u.take(f) =~= cs@.subrange(from as int, p as int));
            assert(u.skip(f + 1) =~= cs@.subrange(p + 1, cs@.len() as int));
        }
        assert(u =~= cs@.subrange(from as int, cs@.len() as int));
    }
    if p > from && p < cs.len() && digits_between(&cs, from, p) && digits_between(
        &cs,
        p + 1,
        cs.len(),
    ) {
        return match read_double(w) {
            Some(d) => {
                let magnitude: u64 = if d.bits >= json::SIGN_BIT {
                    d.bits - json::SIGN_BIT
                } else {
                    d.bits
                };
                if magnitude < INFINITY_BITS {
                    sound(JsonValue::Number(JsonNumber::Float(d)))
                } else {
                    sound(JsonValue::Null)
                }
            },
            None => unsound("Invalid float: invalid float literal"),
        };
    }
    assert(!is_float_word(w@));
    if digits_between(&cs, from, cs.len()) {
        let d = match read_double(w) {
            Some(d) => d,
            None => Double { bits: 0 },
        };
        assert(!negative ==> u =~= w@);
        return match read_digits(&cs, from) {
            None => if negative {
                unsound("Invalid integer: number too small to fit in target type")
            } else {
                unsound("Invalid integer: number too large to fit in target type")
            },
            Some(n) => if !negative {
                if n > i64::MAX as u64 {
                    unsound("Invalid integer: number too large to fit in target type")
                } else {
                    sound(JsonValue::Number(JsonNumber::Unsigned(n, d)))
                }
            } else if n == 0 {
                sound(JsonValue::Number(JsonNumber::Unsigned(0, d)))
            } else if n > 0x8000_0000_0000_0000 {
                unsound("Invalid integer: number too small to fit in target type")
            } else {
                let m: i64 = -((n - 1) as i64) - 1;
                sound(JsonValue::Number(JsonNumber::Negative(m, d)))
            },
        };
    }
    let lowered = ascii_lowercase(w);
    if same_text(lowered.as_str(), "true") {
        sound(JsonValue::Bool(true))
    } else if same_text(lowered.as_str(), "false") {
        sound(JsonValue::Bool(false))
    } else if same_text(lowered.as_str(), "null") {
        sound(JsonValue::Null)
    } else {
        None
    }
}

/// What the beginning of an expression stands for: a filter, the first thing
/// that is wrong with its numbers, and what follows.
pub ghost struct Parse {
    pub filter: FilterView,
    pub problem: Option<Seq<char>>,
    pub rest: Seq<Lexeme>,
}

/// The first of two problems.
pub open spec fn first_problem(a: Option<Seq<char>>, b: Option<Seq<char>>) -> Option<Seq<char>> {
    if a is Some {
        a
    } else {
        b
    }
}

/// Whether the lexeme at `i` is the keyword.
pub open spec fn keyword_at(t: Seq<Lexeme>, i: int, keyword: Seq<char>) -> bool {
    0 <= i < t.len() && (t[i] matches Lexeme::Word(w) && text::ascii_lower(w) == keyword)
}

/// The value that a lexeme stands for.
pub open spec fn lexeme_value(l: Lexeme) -> Option<(Json, Option<Seq<char>>)> {
    match l {
        Lexeme::Text(s) => Some((Json::Text(s), None)),
        Lexeme::Word(w) => word_value(w),
        _ => None,
    }
}

/// A comparison at the beginning.
pub open spec fn comparison(t: Seq<Lexeme>) -> Option<Parse> {
    if t.len() == 0 {
        None
    } else {
        match t[0] {
            Lexeme::Word(key) => if !text::is_identifier(key) {
                None
            } else if keyword_at(t, 1, "is"@) && keyword_at(t, 2, "not"@) && keyword_at(
                t,
                3,
                "null"@,
            ) {
                Some(
                    Parse {
                        filter: FilterView::negation(FilterView::is_null(key)),
                        problem: None,
                        rest: t.skip(4),
                    },
                )
            } else if keyword_at(t, 1, "is"@) && keyword_at(t, 2, "null"@) {
                Some(
                    Parse { filter: FilterView::is_null(key), problem: None, rest: t.skip(3) },
                )
            } else if t.len() > 2 {
                match (t[1], lexeme_value(t[2])) {
                    (Lexeme::Op(op), Some((value, problem))) => Some(
                        Parse {
                            filter: FilterView::comparison(key, op.spec_name(), value),
                            problem,
                            rest: t.skip(3),
                        },
                    ),
                    _ => None,
                }
            } else {
                None
            },
            _ => None,
        }
    }
}

/// An expression in parentheses, or a comparison, at the beginning.
pub open spec fn atom(t: Seq<Lexeme>) -> Option<Parse>
    decreases t.len(), 1nat,
{
    if t.len() > 0 && t[0] is Open {
        match or_expr(t.skip(1)) {
            Some(p) => if p.rest.len() > 0 && p.rest[0] is Close {
                Some(Parse { rest: p.rest.skip(1), ..p })
            } else {
                None
            },
            None => None,
        }
    } else {
        comparison(t)
    }
}

/// A negated expression or an atom at the beginning.
pub open spec fn not_expr(t: Seq<Lexeme>) -> Option<Parse>
    decreases t.len(), 2nat,
{
    let negated = if keyword_at(t, 0, "not"@) {
        not_expr(t.skip(1))
    } else {
        None
    };
    match negated {
        Some(p) => Some(Parse { filter: FilterView::negation(p.filter), ..p }),
        None => atom(t),
    }
}

/// A conjunction at the beginning.
pub open spec fn and_expr(t: Seq<Lexeme>) -> Option<Parse>
    decreases t.len(), 3nat,
{
    match not_expr(t) {
        Some(p) => if p.rest.len() < t.len() {
            Some(and_tail(seq![p.filter], p.problem, p.rest))
        } else {
            None
        },
        None => None,
    }
}

/// A conjunction whose first members were read already.
pub open spec fn and_tail(
    members: Seq<FilterView>,
    problem: Option<Seq<char>>,
    t: Seq<Lexeme>,
) -> Parse
    decreases t.len(), 4nat,
{
    let next = if keyword_at(t, 0, "and"@) {
        not_expr(t.skip(1))
    } else {
        None
    };
    match next {
        Some(p) => if p.rest.len() < t.len() {
            and_tail(members.push(p.filter), first_problem(problem, p.problem), p.rest)
        } else {
            Parse { filter: conjunction(members), problem, rest: t }
        },
        None => Parse { filter: conjunction(members), problem, rest: t },
    }
}

/// The conjunction of filters; that of one filter is the filter.
pub open spec fn conjunction(members: Seq<FilterView>) -> FilterView {
    if members.len() == 1 {
        members[0]
    } else {
        FilterView::all_of(members)
    }
}

/// The disjunction of filters; that of one filter is the filter.
pub open spec fn disjunction(members: Seq<FilterView>) -> FilterView {
    if members.len() == 1 {
        members[0]
    } else {
        FilterView::any_of(members)
    }
}

/// A disjunction at the beginning.
pub open spec fn or_expr(t: Seq<Lexeme>) -> Option<Parse>
    decreases t.len(), 5nat,
{
    match and_expr(t) {
        Some(p) => if p.rest.len() < t.len() {
            Some(or_tail(seq![p.filter], p.problem, p.rest))
        } else {
            None
        },
        None => None,
    }
}

/// A disjunction whose first members were read already.
pub open spec fn or_tail(
    members: Seq<FilterView>,
    problem: Option<Seq<char>>,
    t: Seq<Lexeme>,
) -> Parse
    decreases t.len(), 6nat,
{
    let next = if keyword_at(t, 0, "or"@) {
        and_expr(t.skip(1))
    } else {
        None
    };
    match next {
        Some(p) => if p.rest.len() < t.len() {
            or_tail(members.push(p.filter), first_problem(problem, p.problem), p.rest)
        } else {
            Parse { filter: disjunction(members), problem, rest: t }
        },
        None => Parse { filter: disjunction(members), problem, rest: t },
    }
}

/// What an expression stands for: a filter, or what is wrong with it.
pub open spec fn filter_of(input: Seq<char>) -> Result<FilterView, Seq<char>> {
    match lexed(Seq::empty(), text::trim(input)) {
        None => Err("Invalid filter expression: syntax error"@),
        Some(t) => match or_expr(t) {
            None => Err("Invalid filter expression: syntax error"@),
            Some(p) => if p.rest.len() > 0 {
                Err("Invalid filter expression: syntax error"@)
            } else {
                match p.problem {
                    Some(e) => Err(e),
                    None => Ok(p.filter),
                }
            },
        },
    }
}

/// A filter read from tokens, the first problem with its numbers, and the
/// position behind it.
pub struct Reading {
    pub filter: MetadataFilter,
    pub problem: Option<String>,
    pub at: usize,
}

/// What a reading from position `from` says of the lexemes.
pub open spec fn reading_view(t: Seq<Lexeme>, r: Reading) -> Parse {
    Parse {
        filter: r.filter@,
        problem: text::opt_view(r.problem),
        rest: t.skip(r.at as int),
    }
}

/// Whether a reading from position `from` is what the grammar says.
pub open spec fn reads(
    t: Seq<Lexeme>,
    from: int,
    expected: Option<Parse>,
    r: Option<Reading>,
) -> bool {
    match r {
        Some(x) => from < x.at <= t.len() && expected == Some(reading_view(t, x)),
        None => expected is None,
    }
}

fn token_is(tokens: &Vec<Token>, i: usize, keyword: &str) -> (r: bool)
    ensures
        r == keyword_at(lexemes(tokens@), i as int, keyword@),
        r ==> i < usize::MAX,
{
    if i >= tokens.len() {
        return false;
    }
    match &tokens[i] {
        Token::Word(w) => {
            let lowered = ascii_lowercase(w.as_str());
            same_text(lowered.as_str(), keyword)
        },
        _ => false,
    }
}

fn later(from: usize, tokens: &Vec<Token>, by: usize) -> (r: usize)
    requires
        from <= tokens@.len(),
        by <= 4,
    ensures
        from + by <= tokens@.len() ==> r == from + by,
        from + by > tokens@.len() ==> r == tokens@.len(),
{
    let n: usize = tokens.len();
    if n - from >= by {
        from + by
    } else {
        n
    }
}

fn parse_comparison(tokens: &Vec<Token>, from: usize) -> (r: Option<Reading>)
    requires
        from <= tokens@.len(),
    ensures
        reads(
            lexemes(tokens@),
            from as int,
            comparison(lexemes(tokens@).skip(from as int)),
            r,
        ),
{
    let ghost all = lexemes(tokens@);
    let ghost t = all.skip(from as int);
    if from >= tokens.len() {
        return None;
    }
    let at1 = later(from, tokens, 1);
    let at2 = later(from, tokens, 2);
    let at3 = later(from, tokens, 3);
    let at4 = later(from, tokens, 4);
    proof {
        assert(t[0] == tokens@[from as int]@);
        assert(t.len() > 1 ==> t[1] == tokens@[from + 1]@);
        assert(t.len() > 2 ==> t[2] == tokens@[from + 2]@);
        assert(t.len() > 3 ==> t[3] == tokens@[from + 3]@);
        assert(t.len() >= 3 ==> t.skip(3) =~= all.skip(from + 3));
        assert(t.len() >= 4 ==> t.skip(4) =~= all.skip(from + 4));
    }
    match &tokens[from] {
        Token::Word(key) => {
            if !identifier(key.as_str()) {
                return None;
            }
            let is = token_is(tokens, at1, "is");
            if is && token_is(tokens, at2, "not") && token_is(tokens, at3, "null") {
                return Some(
                    Reading {
                        filter: MetadataFilter::negation(MetadataFilter::is_null(key.as_str())),
                        problem: None,
                        at: at4,
                    },
                );
            }
            if is && token_is(tokens, at2, "null") {
                return Some(
                    Reading {
                        filter: MetadataFilter::is_null(key.as_str()),
                        problem: None,
                        at: at3,
                    },
                );
            }
            if at2 >= tokens.len() {
                return None;
            }
            match (&tokens[at1], &tokens[at2]) {
                (Token::Op(op), Token::Text(s)) => Some(
                    Reading {
                        filter: MetadataFilter::comparison(
                            key.as_str(),
                            op.name(),
                            JsonValue::Text(s.clone()),
                        ),
                        problem: None,
                        at: at3,
                    },
                ),
                (Token::Op(op), Token::Word(w)) => match read_word(w.as_str()) {
                    Some(v) => Some(
                        Reading {
                            filter: MetadataFilter::comparison(key.as_str(), op.name(), v.value),
                            problem: v.problem,
                            at: at3,
                        },
                    ),
                    None => None,
                },
                _ => None,
            }
        },
        _ => None,
    }
}

fn parse_atom(tokens: &Vec<Token>, from: usize) -> (r: Option<Reading>)
    requires
        from <= tokens@.len(),
    ensures
        reads(lexemes(tokens@), from as int, atom(lexemes(tokens@).skip(from as int)), r),
    decreases tokens@.len() - from, 1nat,
{
    let ghost all = lexemes(tokens@);
    let ghost t = all.skip(from as int);
    if from < tokens.len() {
        assert(t[0] == tokens@[from as int]@);
        if let Token::Open = &tokens[from] {
            assert(t.skip(1) =~= all.skip(from + 1));
            return match parse_or(tokens, from + 1) {
                Some(p) => {
                    assert(p.at < all.len() ==> all.skip(p.at as int)[0] == tokens@[p.at as int]@);
                    if p.at < tokens.len() {
                        if let Token::Close = &tokens[p.at] {
                            assert(all.skip(p.at as int).skip(1) =~= all.skip(p.at + 1));
                            return Some(
                                Reading { filter: p.filter, problem: p.problem, at: p.at + 1 },
                            );
                        }
                    }
                    None
                },
                None => None,
            };
        }
    }
    parse_comparison(tokens, from)
}

fn parse_not(tokens: &Vec<Token>, from: usize) -> (r: Option<Reading>)
    requires
        from <= tokens@.len(),
    ensures
        reads(lexemes(tokens@), from as int, not_expr(lexemes(tokens@).skip(from as int)), r),
    decreases tokens@.len() - from, 2nat,
{
    let ghost all = lexemes(tokens@);
    let ghost t = all.skip(from as int);
    proof {
        lemma_keyword_shift(all, from as int, "not"@);
    }
    if token_is(tokens, from, "not") {
        assert(t.skip(1) =~= all.skip(from + 1));
        if let Some(p) = parse_not(tokens, from + 1) {
            return Some(
                Reading {
                    filter: MetadataFilter::negation(p.filter),
                    problem: p.problem,
                    at: p.at,
                },
            );
        }
    }
    parse_atom(tokens, from)
}

proof fn lemma_keyword_shift(all: Seq<Lexeme>, from: int, keyword: Seq<char>)
    requires
        0 <= from <= all.len(),
    ensures
        keyword_at(all.skip(from), 0, keyword) == keyword_at(all, from, keyword),
{
    if from < all.len() {
        assert(all.skip(from)[0] == all[from]);
    }
}

fn join_problems(a: Option<String>, b: Option<String>) -> (r: Option<String>)
    ensures
        text::opt_view(r) == first_problem(text::opt_view(a), text::opt_view(b)),
{
    if a.is_some() {
        a
    } else {
        b
    }
}

fn parse_and(tokens: &Vec<Token>, from: usize) -> (r: Option<Reading>)
    requires
        from <= tokens@.len(),
    ensures
        reads(lexemes(tokens@), from as int, and_expr(lexemes(tokens@).skip(from as int)), r),
    decreases tokens@.len() - from, 3nat,
{
    let ghost all = lexemes(tokens@);
    let first = match parse_not(tokens, from) {
        Some(p) => p,
        None => {
            return None;
        },
    };
    let mut members: Vec<MetadataFilter> = vec![first.filter];
    let mut problem: Option<String> = first.problem;
    let mut at: usize = first.at;
    let ghost goal = and_expr(all.skip(from as int));
    assert(filters::filter_views(members@) =~= seq![first.filter@]);
    loop
        invariant
            all == lexemes(tokens@),
            from < at <= tokens@.len(),
            members@.len() > 0,
            goal == Some(
                and_tail(
                    filters::filter_views(members@),
                    text::opt_view(problem),
                    all.skip(at as int),
                ),
            ),
            goal == and_expr(all.skip(from as int)),
        ensures
            from < at <= tokens@.len(),
            members@.len() > 0,
            goal == Some(
                Parse {
                    filter: conjunction(filters::filter_views(members@)),
                    problem: text::opt_view(problem),
                    rest: all.skip(at as int),
                },
            ),
        decreases tokens@.len() - at,
    {
        proof {
            lemma_keyword_shift(all, at as int, "and"@);
        }
        if !token_is(tokens, at, "and") {
            break;
        }
        assert(all.skip(at as int).skip(1) =~= all.skip(at + 1));
        match parse_not(tokens, at + 1) {
            Some(p) => {
                let ghost before = filters::filter_views(members@);
                members.push(p.filter);
                assert(filters::filter_views(members@) =~= before.push(p.filter@));
                problem = join_problems(problem, p.problem);
                at = p.at;
            },
            None => {
                break;
            },
        }
    }
    let filter = if members.len() == 1 {
        let only = members.pop().unwrap();
        only
    } else {
        MetadataFilter::all_of(members)
    };
    Some(Reading { filter, problem, at })
}

fn parse_or(tokens: &Vec<Token>, from: usize) -> (r: Option<Reading>)
    requires
        from <= tokens@.len(),
    ensures
        reads(lexemes(tokens@), from as int, or_expr(lexemes(tokens@).skip(from as int)), r),
    decreases tokens@.len() - from, 5nat,
{
    let ghost all = lexemes(tokens@);
    let first = match parse_and(tokens, from) {
        Some(p) => p,
        None => {
            return None;
        },
    };
    let mut members: Vec<MetadataFilter> = vec![first.filter];
    let mut problem: Option<String> = first.problem;
    let mut at: usize = first.at;
    let ghost goal = or_expr(all.skip(from as int));
    assert(filters::filter_views(members@) =~= seq![first.filter@]);
    loop
        invariant
            all == lexemes(tokens@),
            from < at <= tokens@.len(),
            members@.len() > 0,
            goal == Some(
                or_tail(
                    filters::filter_views(members@),
                    text::opt_view(problem),
                    all.skip(at as int),
                ),
            ),
            goal == or_expr(all.skip(from as int)),
        ensures
            from < at <= tokens@.len(),
            members@.len() > 0,
            goal == Some(
                Parse {
                    filter: disjunction(filters::filter_views(members@)),
                    problem: text::opt_view(problem),
                    rest: all.skip(at as int),
                },
            ),
        decreases tokens@.len() - at,
    {
        proof {
            lemma_keyword_shift(all, at as int, "or"@);
        }
        if !token_is(tokens, at, "or") {
            break;
        }
        assert(all.skip(at as int).skip(1) =~= all.skip(at + 1));
        match parse_and(tokens, at + 1) {
            Some(p) => {
                let ghost before = filters::filter_views(members@);
                members.push(p.filter);
                assert(filters::filter_views(members@) =~= before.push(p.filter@));
                problem = join_problems(problem, p.problem);
                at = p.at;
            },
            None => {
                break;
            },
        }
    }
    let filter = if members.len() == 1 {
        let only = members.pop().unwrap();
        only
    } else {
        MetadataFilter::any_of(members)
    };
    Some(Reading { filter, problem, at })
}

/// Parses a filter expression.
pub fn parse_filter(input: &str) -> (r: Result<MetadataFilter, String>)
    ensures
        match r {
            Ok(f) => filter_of(input@) == Ok::<FilterView, Seq<char>>(f@),
            Err(e) => filter_of(input@) == Err::<FilterView, Seq<char>>(e@),
        },
{
    let trimmed_input = trimmed(input);
    let tokens = match tokenize(trimmed_input.as_str()) {
        Some(t) => t,
        None => {
            return Err("Invalid filter expression: syntax error".to_owned());
        },
    };
    assert(lexemes(tokens@).skip(0) =~= lexemes(tokens@));
    match parse_or(&tokens, 0) {
        None => Err("Invalid filter expression: syntax error".to_owned()),
        Some(p) => if p.at < tokens.len() {
            Err("Invalid filter expression: syntax error".to_owned())
        } else {
            match p.problem {
                Some(e) => Err(e),
                None => Ok(p.filter),
            }
        },
    }
}

proof fn lemma_decimal_digits(n: nat)
    ensures
        all_digits(text::decimal(n)),
        digits_value(text::decimal(n)) == n,
    decreases n,
{
    let d = text::digit_char((n % 10) as int);
    assert(is_digit(d) && (d as u32 - '0' as u32) as nat == n % 10);
    if n < 10 {
        assert(text::decimal(n).drop_last() =~= Seq::empty());
        assert(digits_value(Seq::<char>::empty()) == 0);
        assert(text::decimal(n).last() == d);
    } else {
        lemma_decimal_digits(n / 10);
        let rest = text::decimal(n / 10);
        assert(text::decimal(n).drop_last() =~= rest);
        assert(text::decimal(n).last() == d);
        assert forall|i: int| 0 <= i < text::decimal(n).len() implies is_digit(
            #[trigger] text::decimal(n)[i],
        ) by {
            if i < rest.len() {
                assert(text::decimal(n)[i] == rest[i]);
            }
        }
    }
}

/// An integer that is written in decimal reads back as itself, so different
/// integers are written differently.
pub proof fn written_integers_read_back(n: int)
    ensures
        is_integer_word(text::signed_decimal(n)),
        integer_value(text::signed_decimal(n)) == n,
{
    let s = text::signed_decimal(n);
    if n < 0 {
        lemma_decimal_digits((-n) as nat);
        assert(s[0] == '-');
        assert(s.skip(1) =~= text::decimal((-n) as nat));
    } else {
        lemma_decimal_digits(n as nat);
        assert(is_digit(s[0]));
        assert(unsigned(s) == s);
    }
}

/// A value as it is written.
pub ghost enum WrittenValue {
    Text(Seq<char>),
    Bool(bool),
    Integer(int),
}

/// A filter expression as it is written: a comparison of a key with a value, a
/// test for the absence of a key's value or, if the flag says so, for its
/// presence, the negation of an expression, or alternatives of conjunctions in
/// parentheses.
pub ghost enum Written {
    Compare(Seq<char>, CompareOp, WrittenValue),
    Missing(Seq<char>, bool),
    Not(Box<Written>),
    Any(Seq<Seq<Written>>),
}

/// The words for a conjunction, for alternatives, for a negation and for tests
/// of absence.
pub ghost struct Keywords {
    pub is_: Seq<char>,
    pub null_: Seq<char>,
    pub and_: Seq<char>,
    pub or_: Seq<char>,
    pub not_: Seq<char>,
}

/// Whether every letter of `w` is that of one of two texts.
pub open spec fn spells(w: Seq<char>, small: Seq<char>, capital: Seq<char>) -> bool {
    w.len() == small.len() && forall|i: int|
        0 <= i < w.len() ==> (#[trigger] w[i] == small[i] || w[i] == capital[i])
}

/// Whether the words are the keywords, with letters of any case.
pub open spec fn are_keywords(k: Keywords) -> bool {
    spells(k.and_, "and"@, "AND"@) && spells(k.or_, "or"@, "OR"@) && spells(
        k.not_,
        "not"@,
        "NOT"@,
    ) && spells(k.is_, "is"@, "IS"@) && spells(k.null_, "null"@, "NULL"@)
}

/// Whether a text is one or more letters, digits, underscores and hyphens.
pub open spec fn plain_name(s: Seq<char>) -> bool {
    s.len() > 0 && forall|i: int|
        0 <= i < s.len() ==> ('a' <= #[trigger] s[i] <= 'z' || 'A' <= s[i] <= 'Z' || '0' <= s[i]
            <= '9' || s[i] == '_' || s[i] == '-')
}

/// Whether an expression can be written: keys are identifiers and not the word
/// for a negation, texts hold no backslash, and there is something in every
/// pair of parentheses and in every conjunction.
pub open spec fn writable(e: Written) -> bool
    decreases e,
{
    match e {
        Written::Compare(key, _, v) => plain_name(key) && !spells(key, "not"@, "NOT"@)
            && match v {
            WrittenValue::Text(t) => !t.contains('\\'),
            WrittenValue::Bool(_) => true,
            WrittenValue::Integer(n) => -0x8000_0000_0000_0000 <= n <= 0x7fff_ffff_ffff_ffff,
        },
        Written::Missing(key, _) => plain_name(key) && !spells(key, "not"@, "NOT"@),
        Written::Not(inner) => writable(*inner),
        Written::Any(d) => d.len() > 0 && all_writable(d),
    }
}

/// Whether conjunctions can be written.
pub open spec fn all_writable(d: Seq<Seq<Written>>) -> bool
    decreases d,
{
    d.len() == 0 || (d[0].len() > 0 && each_writable(d[0]) && all_writable(d.drop_first()))
}

/// Whether the members of a conjunction can be written.
pub open spec fn each_writable(es: Seq<Written>) -> bool
    decreases es,
{
    es.len() == 0 || (writable(es[0]) && each_writable(es.drop_first()))
}

/// The value that a written one is for.
pub open spec fn intended_value(v: WrittenValue) -> Json {
    match v {
        WrittenValue::Text(t) => Json::Text(t),
        WrittenValue::Bool(b) => Json::Bool(b),
        WrittenValue::Integer(n) => Json::Number(
            if n >= 0 {
                JsonNumber::Unsigned(n as u64, word_double(text::signed_decimal(n)))
            } else {
                JsonNumber::Negative(n as i64, word_double(text::signed_decimal(n)))
            },
        ),
    }
}

/// The filter that a written expression is for.
pub open spec fn intended(e: Written) -> FilterView
    decreases e,
{
    match e {
        Written::Compare(key, op, v) => FilterView::comparison(
            key,
            match op {
                CompareOp::Eq => "eq"@,
                CompareOp::Neq => "neq"@,
                CompareOp::Lt => "lt"@,
                CompareOp::Gt => "gt"@,
                CompareOp::Lte => "lte"@,
                CompareOp::Gte => "gte"@,
            },
            intended_value(v),
        ),
        Written::Missing(key, present) => if present {
            FilterView::negation(FilterView::is_null(key))
        } else {
            FilterView::is_null(key)
        },
        Written::Not(inner) => FilterView::negation(intended(*inner)),
        Written::Any(d) => one_or_any(intended_alternatives(d)),
    }
}

/// One filter alone, or any of several.
pub open spec fn one_or_any(fs: Seq<FilterView>) -> FilterView {
    if fs.len() == 1 {
        fs[0]
    } else {
        FilterView::any_of(fs)
    }
}

/// One filter alone, or all of several.
pub open spec fn one_or_all(fs: Seq<FilterView>) -> FilterView {
    if fs.len() == 1 {
        fs[0]
    } else {
        FilterView::all_of(fs)
    }
}

/// The filters that written conjunctions are for.
pub open spec fn intended_alternatives(d: Seq<Seq<Written>>) -> Seq<FilterView>
    decreases d,
{
    if d.len() == 0 {
        Seq::empty()
    } else {
        seq![one_or_all(intended_members(d[0]))] + intended_alternatives(d.drop_first())
    }
}

/// The filters that the members of a conjunction are for.
pub open spec fn intended_members(es: Seq<Written>) -> Seq<FilterView>
    decreases es,
{
    if es.len() == 0 {
        Seq::empty()
    } else {
        seq![intended(es[0])] + intended_members(es.drop_first())
    }
}

/// The lexeme of a written value.
pub open spec fn spelled_value(v: WrittenValue) -> Lexeme {
    match v {
        WrittenValue::Text(t) => Lexeme::Text(t),
        WrittenValue::Bool(b) => Lexeme::Word(
            if b {
                "true"@
            } else {
                "false"@
            },
        ),
        WrittenValue::Integer(n) => Lexeme::Word(text::signed_decimal(n)),
    }
}

/// The lexemes of a written expression.
pub open spec fn spelled(k: Keywords, e: Written) -> Seq<Lexeme>
    decreases e,
{
    match e {
        Written::Compare(key, op, v) => seq![Lexeme::Word(key), Lexeme::Op(op), spelled_value(v)],
        Written::Missing(key, present) => if present {
            seq![
                Lexeme::Word(key),
                Lexeme::Word(k.is_),
                Lexeme::Word(k.not_),
                Lexeme::Word(k.null_),
            ]
        } else {
            seq![Lexeme::Word(key), Lexeme::Word(k.is_), Lexeme::Word(k.null_)]
        },
        Written::Not(inner) => seq![Lexeme::Word(k.not_)] + spelled(k, *inner),
        Written::Any(d) => seq![Lexeme::Open] + spelled_alternatives(k, d) + seq![Lexeme::Close],
    }
}

/// The lexemes of alternatives, with the word for them in between.
pub open spec fn spelled_alternatives(k: Keywords, d: Seq<Seq<Written>>) -> Seq<Lexeme>
    decreases d,
{
    if d.len() == 0 {
        Seq::empty()
    } else if d.len() == 1 {
        spelled_members(k, d[0])
    } else {
        spelled_members(k, d[0]) + seq![Lexeme::Word(k.or_)] + spelled_alternatives(k, d.drop_first())
    }
}

/// The lexemes of a conjunction, with the word for it in between.
pub open spec fn spelled_members(k: Keywords, es: Seq<Written>) -> Seq<Lexeme>
    decreases es,
{
    if es.len() == 0 {
        Seq::empty()
    } else if es.len() == 1 {
        spelled(k, es[0])
    } else {
        spelled(k, es[0]) + seq![Lexeme::Word(k.and_)] + spelled_members(k, es.drop_first())
    }
}

proof fn lemma_keywords(k: Keywords)
    requires
        are_keywords(k),
    ensures
        text::ascii_lower(k.not_) == "not"@,
        text::ascii_lower(k.and_) == "and"@,
        text::ascii_lower(k.or_) == "or"@,
        text::ascii_lower(k.is_) == "is"@,
        text::ascii_lower(k.null_) == "null"@,
        "not"@ != "null"@,
        "not"@ != "and"@,
        "not"@ != "or"@,
        "and"@ != "or"@,
        forall|w: Seq<char>|
            #![trigger text::ascii_lower(w)]
            text::ascii_lower(w) == "not"@ ==> spells(w, "not"@, "NOT"@),
{
    reveal_strlit("NOT");
    reveal_strlit("AND");
    reveal_strlit("OR");
    reveal_strlit("not");
    reveal_strlit("and");
    reveal_strlit("or");
    assert(text::ascii_lower(k.not_) =~= "not"@);
    assert(text::ascii_lower(k.and_) =~= "and"@);
    assert(text::ascii_lower(k.or_) =~= "or"@);
    reveal_strlit("IS");
    reveal_strlit("is");
    reveal_strlit("NULL");
    reveal_strlit("null");
    assert(text::ascii_lower(k.is_) =~= "is"@);
    assert(text::ascii_lower(k.null_) =~= "null"@);
    assert("not"@.len() != "null"@.len());
    assert forall|w: Seq<char>|
        #![trigger text::ascii_lower(w)]
        text::ascii_lower(w) == "not"@ implies spells(w, "not"@, "NOT"@) by {
        let l = text::ascii_lower(w);
        assert(l.len() == 3);
        assert(l[0] == text::ascii_lower_char(w[0]));
        assert(l[1] == text::ascii_lower_char(w[1]));
        assert(l[2] == text::ascii_lower_char(w[2]));
        assert forall|i: int| 0 <= i < w.len() implies (#[trigger] w[i] == "not"@[i] || w[i]
            == "NOT"@[i]) by {
            assert(i == 0 || i == 1 || i == 2);
        }
    }
    assert("not"@[0] != "and"@[0]);
    assert("not"@.len() != "or"@.len());
    assert("and"@.len() != "or"@.len());
}

proof fn lemma_spelled_grows(k: Keywords, e: Written)
    ensures
        spelled(k, e).len() > 0,
{
    match e {
        Written::Compare(key, op, t) => {
            assert(spelled(k, e).len() == 3);
        },
        Written::Missing(key, present) => {
            assert(spelled(k, e).len() >= 3);
        },
        Written::Not(inner) => {
            assert(spelled(k, e).len() == 1 + spelled(k, *inner).len());
        },
        Written::Any(d) => {
            assert(spelled(k, e).len() == 2 + spelled_alternatives(k, d).len());
        },
    }
}

proof fn lemma_reads_value(v: WrittenValue)
    requires
        match v {
            WrittenValue::Integer(n) => i64::MIN <= n <= i64::MAX,
            _ => true,
        },
    ensures
        lexeme_value(spelled_value(v)) == Some((intended_value(v), None::<Seq<char>>)),
{
    match v {
        WrittenValue::Text(t) => {},
        WrittenValue::Bool(b) => {
            reveal_strlit("true");
            reveal_strlit("false");
            let w = if b {
                "true"@
            } else {
                "false"@
            };
            assert(!is_digit(w[0]));
            assert(unsigned(w) == w);
            assert(unsigned(w)[0] == w[0]);
            assert(!is_integer_word(w));
            if is_float_word(w) {
                let p = text::first_index(w, '.');
                assert(w.take(p)[0] == w[0]);
            }
            assert(text::ascii_lower(w) =~= w);
            assert("true"@.len() != "false"@.len());
        },
        WrittenValue::Integer(n) => {
            let w = text::signed_decimal(n);
            written_integers_read_back(n);
            let u = unsigned(w);
            if is_float_word(w) {
                text::first_index_is_first(u, '.');
                let p = text::first_index(u, '.');
                assert(is_digit(u[p]));
            }
        },
    }
}

proof fn lemma_reads_expression(k: Keywords, e: Written, u: Seq<Lexeme>)
    requires
        are_keywords(k),
        writable(e),
    ensures
        not_expr(spelled(k, e) + u) == Some(Parse { filter: intended(e), problem: None, rest: u }),
    decreases e, 0int,
{
    lemma_keywords(k);
    let t = spelled(k, e) + u;
    match e {
        Written::Missing(key, present) => {
            assert(t[0] == Lexeme::Word(key));
            assert(text::is_identifier(key));
            assert(t[1] == Lexeme::Word(k.is_));
            if present {
                assert(t[2] == Lexeme::Word(k.not_));
                assert(t[3] == Lexeme::Word(k.null_));
                assert(t.skip(4) =~= u);
            } else {
                assert(t[2] == Lexeme::Word(k.null_));
                assert(t.skip(3) =~= u);
            }
            assert(atom(t) == comparison(t));
        },
        Written::Compare(key, op, v) => {
            assert(t[0] == Lexeme::Word(key));
            assert(text::is_identifier(key));
            assert(t[1] == Lexeme::Op(op));
            assert(t[2] == spelled_value(v));
            lemma_reads_value(v);
            assert(t.skip(3) =~= u);
            assert(atom(t) == comparison(t));
        },
        Written::Not(inner) => {
            assert(t[0] == Lexeme::Word(k.not_));
            assert(t.skip(1) =~= spelled(k, *inner) + u);
            lemma_reads_expression(k, *inner, u);
        },
        Written::Any(d) => {
            let close = seq![Lexeme::Close] + u;
            assert(t[0] == Lexeme::Open);
            assert(t.skip(1) =~= spelled_alternatives(k, d) + close);
            assert(close[0] is Close);
            lemma_reads_alternatives(k, d, close);
            assert(close.skip(1) =~= u);
            assert(atom(t) == Some(Parse { filter: intended(e), problem: None, rest: u }));
        },
    }
}

proof fn lemma_reads_members(
    k: Keywords,
    members: Seq<FilterView>,
    es: Seq<Written>,
    u: Seq<Lexeme>,
)
    requires
        are_keywords(k),
        each_writable(es),
        es.len() > 0,
        !keyword_at(u, 0, "and"@),
    ensures
        ({
            let t = spelled_members(k, es) + u;
            &&& not_expr(t) matches Some(p) && p.problem is None && p.rest.len() < t.len()
                && and_tail(members.push(p.filter), None, p.rest) == (Parse {
                filter: conjunction(members + intended_members(es)),
                problem: None,
                rest: u,
            })
        }),
    decreases es, 0int,
{
    lemma_keywords(k);
    let t = spelled_members(k, es) + u;
    let first = intended(es[0]);
    lemma_spelled_grows(k, es[0]);
    if es.len() == 1 {
        lemma_reads_expression(k, es[0], u);
        assert(intended_members(es.drop_first()) =~= Seq::empty());
        assert(members + intended_members(es) =~= members.push(first));
    } else {
        let rest = es.drop_first();
        let tail = spelled_members(k, rest) + u;
        let next = seq![Lexeme::Word(k.and_)] + tail;
        assert(t =~= spelled(k, es[0]) + next);
        lemma_reads_expression(k, es[0], next);
        lemma_reads_members(k, members.push(first), rest, u);
        assert(next[0] == Lexeme::Word(k.and_));
        assert(next.skip(1) =~= tail);
        assert(members.push(first) + intended_members(rest) =~= members + intended_members(es));
    }
}

proof fn lemma_reads_conjunction(k: Keywords, es: Seq<Written>, u: Seq<Lexeme>)
    requires
        are_keywords(k),
        each_writable(es),
        es.len() > 0,
        !keyword_at(u, 0, "and"@),
    ensures
        and_expr(spelled_members(k, es) + u) == Some(
            Parse { filter: one_or_all(intended_members(es)), problem: None, rest: u },
        ),
        u.len() < (spelled_members(k, es) + u).len(),
    decreases es, 1int,
{
    let none = Seq::<FilterView>::empty();
    lemma_reads_members(k, none, es, u);
    let t = spelled_members(k, es) + u;
    let p = not_expr(t)->0;
    assert(none.push(p.filter) =~= seq![p.filter]);
    assert(none + intended_members(es) =~= intended_members(es));
    lemma_spelled_grows(k, es[0]);
}

proof fn lemma_reads_rest(k: Keywords, members: Seq<FilterView>, d: Seq<Seq<Written>>, u: Seq<Lexeme>)
    requires
        are_keywords(k),
        all_writable(d),
        d.len() > 0,
        !keyword_at(u, 0, "and"@),
        !keyword_at(u, 0, "or"@),
    ensures
        ({
            let t = spelled_alternatives(k, d) + u;
            &&& and_expr(t) matches Some(p) && p.problem is None && p.rest.len() < t.len()
                && or_tail(members.push(p.filter), None, p.rest) == (Parse {
                filter: disjunction(members + intended_alternatives(d)),
                problem: None,
                rest: u,
            })
        }),
    decreases d, 0int,
{
    lemma_keywords(k);
    let t = spelled_alternatives(k, d) + u;
    let first = one_or_all(intended_members(d[0]));
    if d.len() == 1 {
        lemma_reads_conjunction(k, d[0], u);
        assert(intended_alternatives(d.drop_first()) =~= Seq::empty());
        assert(members + intended_alternatives(d) =~= members.push(first));
    } else {
        let rest = d.drop_first();
        let tail = spelled_alternatives(k, rest) + u;
        let next = seq![Lexeme::Word(k.or_)] + tail;
        assert(t =~= spelled_members(k, d[0]) + next);
        assert(next[0] == Lexeme::Word(k.or_));
        lemma_reads_conjunction(k, d[0], next);
        lemma_reads_rest(k, members.push(first), rest, u);
        assert(next.skip(1) =~= tail);
        assert(members.push(first) + intended_alternatives(rest) =~= members
            + intended_alternatives(d));
    }
}

proof fn lemma_reads_alternatives(k: Keywords, d: Seq<Seq<Written>>, u: Seq<Lexeme>)
    requires
        are_keywords(k),
        all_writable(d),
        d.len() > 0,
        !keyword_at(u, 0, "and"@),
        !keyword_at(u, 0, "or"@),
    ensures
        or_expr(spelled_alternatives(k, d) + u) == Some(
            Parse { filter: one_or_any(intended_alternatives(d)), problem: None, rest: u },
        ),
    decreases d, 1int,
{
    let none = Seq::<FilterView>::empty();
    lemma_reads_rest(k, none, d, u);
    let p = and_expr(spelled_alternatives(k, d) + u)->0;
    assert(none.push(p.filter) =~= seq![p.filter]);
    assert(none + intended_alternatives(d) =~= intended_alternatives(d));
}

/// A lexeme as it is written.
pub open spec fn lexeme_text(l: Lexeme) -> Seq<char> {
    match l {
        Lexeme::Open => "("@,
        Lexeme::Close => ")"@,
        Lexeme::Word(w) => w,
        Lexeme::Text(t) => seq!['"'] + escaped(t) + seq!['"'],
        Lexeme::Op(CompareOp::Eq) => "="@,
        Lexeme::Op(CompareOp::Neq) => "!="@,
        Lexeme::Op(CompareOp::Lt) => "<"@,
        Lexeme::Op(CompareOp::Gt) => ">"@,
        Lexeme::Op(CompareOp::Lte) => "<="@,
        Lexeme::Op(CompareOp::Gte) => ">="@,
    }
}

/// A text with a backslash before every quotation mark.
pub open spec fn escaped(t: Seq<char>) -> Seq<char>
    decreases t.len(),
{
    if t.len() == 0 {
        Seq::empty()
    } else if t[0] == '"' {
        seq!['\\', '"'] + escaped(t.skip(1))
    } else {
        seq![t[0]] + escaped(t.skip(1))
    }
}

/// Lexemes as they are written, with a space before each.
pub open spec fn printed(t: Seq<Lexeme>) -> Seq<char>
    decreases t.len(),
{
    if t.len() == 0 {
        Seq::empty()
    } else {
        seq![' '] + lexeme_text(t[0]) + printed(t.skip(1))
    }
}

spec fn printable(l: Lexeme) -> bool {
    match l {
        Lexeme::Word(w) => plain_name(w),
        Lexeme::Text(t) => !t.contains('\\'),
        _ => true,
    }
}

spec fn all_printable(t: Seq<Lexeme>) -> bool {
    forall|i: int| 0 <= i < t.len() ==> printable(#[trigger] t[i])
}

proof fn lemma_quoted_escaped(acc: Seq<char>, t: Seq<char>, rest: Seq<char>)
    requires
        !t.contains('\\'),
    ensures
        quoted(acc, escaped(t) + seq!['"'] + rest) == Some((acc + t, rest)),
    decreases t.len(),
{
    let s = escaped(t) + seq!['"'] + rest;
    if t.len() == 0 {
        assert(s[0] == '"');
        assert(s.skip(1) =~= rest);
        assert(acc + t =~= acc);
    } else {
        let tail = t.skip(1);
        assert(forall|i: int| 0 <= i < tail.len() ==> tail[i] == t[i + 1]);
        assert(t.contains(t[0]));
        assert(!tail.contains('\\')) by {
            if tail.contains('\\') {
                let i = choose|i: int| 0 <= i < tail.len() && tail[i] == '\\';
                assert(t[i + 1] == '\\');
            }
        }
        lemma_quoted_escaped(acc.push(t[0]), tail, rest);
        assert(acc.push(t[0]) + tail =~= acc + t);
        if t[0] == '"' {
            assert(s.skip(2) =~= escaped(tail) + seq!['"'] + rest);
        } else {
            assert(s[0] == t[0]);
            assert(s.skip(1) =~= escaped(tail) + seq!['"'] + rest);
        }
    }
}

proof fn lemma_whole_word(w: Seq<char>, rest: Seq<char>)
    requires
        forall|i: int| 0 <= i < w.len() ==> word_char(#[trigger] w[i]),
        rest.len() == 0 || rest[0] == ' ',
    ensures
        word_length(w + rest) == w.len(),
    decreases w.len(),
{
    let s = w + rest;
    if w.len() > 0 {
        assert(s[0] == w[0]);
        assert(s.skip(1) =~= w.skip(1) + rest);
        lemma_whole_word(w.skip(1), rest);
    } else {
        assert(s =~= rest);
    }
}

proof fn lemma_lexed_printed(acc: Seq<Lexeme>, t: Seq<Lexeme>)
    requires
        all_printable(t),
    ensures
        lexed(acc, printed(t)) == Some(acc + t),
        t.len() > 0 ==> printed(t).len() > 1 && printed(t)[0] == ' ' && !text::is_white_space(
            printed(t)[1],
        ) && !text::is_white_space(printed(t).last()),
    decreases t.len(),
{
    if t.len() == 0 {
        assert(acc + t =~= acc);
    } else {
        let l = t[0];
        let rest = printed(t.skip(1));
        let word = lexeme_text(l);
        let s = printed(t);
        let s1 = s.skip(1);
        assert(printable(l));
        assert(all_printable(t.skip(1)));
        lemma_lexed_printed(acc.push(l), t.skip(1));
        assert(acc.push(l) + t.skip(1) =~= acc + t);
        assert(s1 =~= word + rest);
        assert(s[0] == ' ');
        assert(lexed(acc, s) == lexed(acc, s1));
        reveal_strlit("(");
        reveal_strlit(")");
        reveal_strlit("=");
        reveal_strlit("!=");
        reveal_strlit("<");
        reveal_strlit(">");
        reveal_strlit("<=");
        reveal_strlit(">=");
        assert(rest.len() == 0 || rest[0] == ' ');
        assert(word.len() > 0);
        assert(s[1] == word[0]);
        if rest.len() == 0 {
            assert(s.last() == word.last());
        } else {
            assert(s.last() == rest.last());
        }
        match l {
            Lexeme::Text(x) => {
                let body = escaped(x) + seq!['"'];
                assert(s1.skip(1) =~= escaped(x) + seq!['"'] + rest);
                lemma_quoted_escaped(Seq::empty(), x, rest);
                assert(Seq::<char>::empty() + x =~= x);
                assert(word.last() == '"');
            },
            Lexeme::Word(w) => {
                lemma_whole_word(w, rest);
                assert(s1.take(w.len() as int) =~= w);
                assert(s1.skip(w.len() as int) =~= rest);
                assert(word_char(w[0]));
                assert(!text::is_white_space(w.last()));
            },
            _ => {
                assert(s1.skip(word.len() as int) =~= rest);
            },
        }
    }
}

proof fn lemma_spelled_printable(k: Keywords, e: Written)
    requires
        are_keywords(k),
        writable(e),
    ensures
        all_printable(spelled(k, e)),
    decreases e,
{
    lemma_keyword_names(k);
    match e {
        Written::Not(inner) => {
            lemma_spelled_printable(k, *inner);
        },
        Written::Any(d) => {
            lemma_alternatives_printable(k, d);
        },
        Written::Compare(key, op, v) => {
            lemma_value_printable(v);
        },
        Written::Missing(key, present) => {},
    }
}

proof fn lemma_value_printable(v: WrittenValue)
    requires
        match v {
            WrittenValue::Text(t) => !t.contains('\\'),
            _ => true,
        },
    ensures
        printable(spelled_value(v)),
{
    match v {
        WrittenValue::Text(t) => {},
        WrittenValue::Bool(b) => {
            reveal_strlit("true");
            reveal_strlit("false");
        },
        WrittenValue::Integer(n) => {
            let w = text::signed_decimal(n);
            written_integers_read_back(n);
            let u = unsigned(w);
            assert forall|i: int| 0 <= i < w.len() implies ('0' <= #[trigger] w[i] <= '9' || w[i]
                == '-') by {
                if w[0] == '-' {
                    if i > 0 {
                        assert(is_digit(u[i - 1]));
                    }
                } else {
                    assert(is_digit(u[i]));
                }
            }
        },
    }
}

proof fn lemma_keyword_names(k: Keywords)
    requires
        are_keywords(k),
    ensures
        plain_name(k.and_),
        plain_name(k.or_),
        plain_name(k.is_),
        plain_name(k.null_),
        plain_name(k.not_),
{
    reveal_strlit("IS");
    reveal_strlit("is");
    reveal_strlit("NULL");
    reveal_strlit("null");
    reveal_strlit("NOT");
    reveal_strlit("AND");
    reveal_strlit("OR");
    reveal_strlit("not");
    reveal_strlit("and");
    reveal_strlit("or");
}

proof fn lemma_alternatives_printable(k: Keywords, d: Seq<Seq<Written>>)
    requires
        are_keywords(k),
        all_writable(d),
    ensures
        all_printable(spelled_alternatives(k, d)),
    decreases d,
{
    lemma_keyword_names(k);
    if d.len() > 0 {
        lemma_members_printable(k, d[0]);
        lemma_alternatives_printable(k, d.drop_first());
    }
}

proof fn lemma_members_printable(k: Keywords, es: Seq<Written>)
    requires
        are_keywords(k),
        each_writable(es),
    ensures
        all_printable(spelled_members(k, es)),
    decreases es,
{
    lemma_keyword_names(k);
    if es.len() > 0 {
        lemma_spelled_printable(k, es[0]);
        lemma_members_printable(k, es.drop_first());
    }
}

/// Written filters read back. Alternatives of conjunctions of comparisons, of
/// tests of absence, of negations and of such expressions in parentheses are
/// read as the filter that
/// they are written for, with keywords in letters of any case: a conjunction
/// binds tighter than alternatives, and a negation tighter than both.
pub proof fn written_filters_read_back(k: Keywords, d: Seq<Seq<Written>>)
    requires
        are_keywords(k),
        d.len() > 0,
        all_writable(d),
    ensures
        filter_of(printed(spelled_alternatives(k, d))) == Ok::<FilterView, Seq<char>>(
            one_or_any(intended_alternatives(d)),
        ),
{
    lemma_keyword_names(k);
    let t = spelled_alternatives(k, d);
    let s = printed(t);
    let none = Seq::<Lexeme>::empty();
    lemma_alternatives_printable(k, d);
    lemma_lexed_printed(none, t);
    lemma_spelled_grows(k, d[0][0]);
    assert(none + t =~= t);
    lemma_reads_alternatives(k, d, none);
    assert(t + none =~= t);
    assert(s.drop_first() =~= s.skip(1));
    assert(text::trim_start(s.drop_first()) == s.drop_first());
    assert(text::trim(s) == s.skip(1));
    assert(lexed(none, s.skip(1)) == lexed(none, s));
}

} // verus!
