//! Tokens, and the lexer that turns a line of text into them.

use vstd::prelude::*;
use vstd::arithmetic::power::pow;
use crate::rational::{div_exact, from_big, rat_div, Rational};
use num::{BigInt, BigRational};

verus! {

#[derive(Debug, Clone, Copy, PartialEq, Eq, Structural)]
pub enum Symbol {
    Add,
    Subtract,
    Multiply,
    Divide,
    Modulus,
    Exponent,
    Equals,
}

#[derive(Debug, PartialEq, Eq)]
pub enum Token {
    Integer(Rational),
    Name(String),
    Operator(Symbol),
}

/// The model of a token.
pub enum Tok {
    Num(int, int),
    Name(Seq<char>),
    Op(Symbol),
}

impl Token {
    pub open spec fn tok(self) -> Tok {
        match self {
            Token::Integer(r) => Tok::Num(r@.0, r@.1),
            Token::Name(s) => Tok::Name(s@),
            Token::Operator(s) => Tok::Op(s),
        }
    }

    pub open spec fn wf(self) -> bool {
        match self {
            Token::Integer(r) => r.wf(),
            _ => true,
        }
    }
}

pub open spec fn toks_of(ts: Seq<Token>) -> Seq<Tok> {
    ts.map_values(|t: Token| t.tok())
}

#[derive(Debug, Clone, Copy, PartialEq, Eq, Structural)]
pub enum LexError {
    /// A character that starts no token, at this position.
    InvalidChar(usize),
    /// A number literal with more than one `.`, starting at this position.
    MalformedNumber(usize),
}

/// Unicode's Alphabetic property.
pub uninterp spec fn alphabetic(c: char) -> bool;

/// Relies on `char::is_alphabetic`.
#[verifier::external_body]
fn is_alphabetic(c: char) -> (r: bool)
    ensures
        r == alphabetic(c),
{
    c.is_alphabetic()
}

pub open spec fn is_digit(c: char) -> bool {
    '0' <= c <= '9'
}

pub open spec fn decimal_value(ds: Seq<char>) -> nat
    decreases ds.len(),
{
    if ds.len() == 0 {
        0
    } else {
        decimal_value(ds.drop_last()) * 10 + (ds.last() as nat - '0' as nat) as nat
    }
}

/// Relies on `FromStr` for `BigInt`: a run of decimal digits read in base ten.
#[verifier::external_body]
fn parse_integer(digits: &Vec<char>) -> (r: Rational)
    requires
        digits@.len() > 0,
        forall|i: int| 0 <= i < digits@.len() ==> is_digit(#[trigger] digits@[i]),
    ensures
        r.wf(),
        r@ == (decimal_value(digits@) as int, 1int),
{
    let text: String = digits.iter().collect();
    from_big(&BigRational::from_integer(text.parse::<BigInt>().unwrap()))
}

/// Relies on `num::pow` for `BigInt`: ten multiplied by itself `scale` times.
#[verifier::external_body]
fn power_of_ten(scale: usize) -> (r: Rational)
    ensures
        r.wf(),
        r@ == (pow(10, scale as nat), 1int),
{
    from_big(&BigRational::from_integer(num::pow(BigInt::from(10u32), scale)))
}

/// The characters that a run of one kind of token takes.
#[derive(Debug, Clone, Copy, PartialEq, Eq, Structural)]
pub enum CharClass {
    /// Decimal digits, `_` and `.`.
    Number,
    /// Alphabetic characters.
    Word,
}

pub open spec fn in_class(c: char, class: CharClass) -> bool {
    match class {
        CharClass::Number => is_digit(c) || c == '_' || c == '.',
        CharClass::Word => alphabetic(c),
    }
}

/// End of the run of `class` characters that starts at `i`.
pub open spec fn run_end(cs: Seq<char>, i: int, class: CharClass) -> int
    decreases cs.len() - i,
{
    if 0 <= i < cs.len() && in_class(cs[i], class) {
        run_end(cs, i + 1, class)
    } else {
        i
    }
}

proof fn lemma_run_end(cs: Seq<char>, i: int, class: CharClass)
    requires
        0 <= i <= cs.len(),
    ensures
        i <= run_end(cs, i, class) <= cs.len(),
        i < cs.len() && in_class(cs[i], class) ==> i < run_end(cs, i, class),
    decreases cs.len() - i,
{
    if i < cs.len() && in_class(cs[i], class) {
        lemma_run_end(cs, i + 1, class);
    }
}

/// The end of the run of `class` characters that starts at `start`.
pub fn consume_while(chars: &Vec<char>, start: usize, class: CharClass) -> (end: usize)
    requires
        start <= chars@.len(),
    ensures
        end == run_end(chars@, start as int, class),
{
    let mut i = start;
    while i < chars.len()
        invariant
            start <= i <= chars@.len(),
            run_end(chars@, start as int, class) == run_end(chars@, i as int, class),
        ensures
            i >= chars@.len() || !in_class(chars@[i as int], class),
        decreases chars@.len() - i,
    {
        let c = chars[i];
        let inside = match class {
            CharClass::Number => ('0' <= c && c <= '9') || c == '_' || c == '.',
            CharClass::Word => is_alphabetic(c),
        };
        if !inside {
            break;
        }
        i = i + 1;
    }
    i
}

/// The digits of a literal, its number of `.`, and its number of digits after the first `.`.
pub open spec fn scan(s: Seq<char>) -> (Seq<char>, nat, nat)
    decreases s.len(),
{
    if s.len() == 0 {
        (Seq::empty(), 0, 0)
    } else {
        let (ds, dots, scale) = scan(s.drop_last());
        let c = s.last();
        if is_digit(c) {
            (ds.push(c), dots, if dots > 0 { scale + 1 } else { scale })
        } else if c == '.' {
            (ds, dots + 1, scale)
        } else {
            (ds, dots, scale)
        }
    }
}

/// The value of a number literal: its digits over ten to the number of digits after the `.`.
pub open spec fn literal_value(s: Seq<char>) -> Option<(int, int)> {
    let (ds, dots, scale) = scan(s);
    if dots > 1 || ds.len() == 0 {
        None
    } else {
        Some(rat_div((decimal_value(ds) as int, 1), (pow(10, scale), 1)))
    }
}

/// Reads the literal `chars[start..end]`.
fn parse_number(chars: &Vec<char>, start: usize, end: usize) -> (r: Option<Rational>)
    requires
        start <= end <= chars@.len(),
    ensures
        match r {
            Some(v) => v.wf() && literal_value(chars@.subrange(start as int, end as int)) == Some(v@),
            None => literal_value(chars@.subrange(start as int, end as int)) is None,
        },
{
    let mut digits: Vec<char> = Vec::new();
    let mut dots: usize = 0;
    let mut scale: usize = 0;
    let mut i = start;
    while i < end
        invariant
            start <= i <= end <= chars@.len(),
            dots <= i - start,
            scale <= i - start,
            (digits@, dots as nat, scale as nat) == scan(chars@.subrange(start as int, i as int)),
            forall|k: int| 0 <= k < digits@.len() ==> is_digit(#[trigger] digits@[k]),
        decreases end - i,
    {
        let c = chars[i];
        proof {
            let s = chars@.subrange(start as int, i + 1);
            assert(s.drop_last() == chars@.subrange(start as int, i as int));
            assert(s.last() == c);
        }
        if '0' <= c && c <= '9' {
            digits.push(c);
            if dots > 0 {
                scale = scale + 1;
            }
        } else if c == '.' {
            dots = dots + 1;
        }
        i = i + 1;
    }
    if dots > 1 || digits.len() == 0 {
        return None;
    }
    let n = parse_integer(&digits);
    let d = power_of_ten(scale);
    proof {
        vstd::arithmetic::power::lemma_pow_positive(10, scale as nat);
    }
    Some(div_exact(&n, &d))
}

pub open spec fn symbol_of(c: char) -> Option<Symbol> {
    if c == '+' {
        Some(Symbol::Add)
    } else if c == '-' {
        Some(Symbol::Subtract)
    } else if c == '*' {
        Some(Symbol::Multiply)
    } else if c == '/' {
        Some(Symbol::Divide)
    } else if c == '%' {
        Some(Symbol::Modulus)
    } else if c == '^' {
        Some(Symbol::Exponent)
    } else if c == '=' {
        Some(Symbol::Equals)
    } else {
        None
    }
}

/// Unicode's White_Space property: tab to carriage return, space, next line,
/// no-break space, and the separators of the higher planes.
pub open spec fn is_blank(c: char) -> bool {
    ||| '\u{9}' <= c <= '\u{d}'
    ||| c == ' '
    ||| c == '\u{85}'
    ||| c == '\u{a0}'
    ||| c == '\u{1680}'
    ||| '\u{2000}' <= c <= '\u{200a}'
    ||| c == '\u{2028}'
    ||| c == '\u{2029}'
    ||| c == '\u{202f}'
    ||| c == '\u{205f}'
    ||| c == '\u{3000}'
}

fn blank(c: char) -> (r: bool)
    ensures
        r == is_blank(c),
{
    ('\u{9}' <= c && c <= '\u{d}') || c == ' ' || c == '\u{85}' || c == '\u{a0}' || c
        == '\u{1680}' || ('\u{2000}' <= c && c <= '\u{200a}') || c == '\u{2028}' || c
        == '\u{2029}' || c == '\u{202f}' || c == '\u{205f}' || c == '\u{3000}'
}

pub open spec fn prepend(t: Tok, r: Result<Seq<Tok>, LexError>) -> Result<Seq<Tok>, LexError> {
    match r {
        Ok(s) => Ok(seq![t] + s),
        Err(e) => Err(e),
    }
}

/// The tokens of `cs` from position `i` on: the longest run for numbers and names.
pub open spec fn lex_from(cs: Seq<char>, i: int) -> Result<Seq<Tok>, LexError>
    decreases cs.len() - i,
    via lex_from_decreases
{
    if i < 0 || i >= cs.len() {
        Ok(Seq::empty())
    } else {
        let c = cs[i];
        if is_digit(c) {
            let j = run_end(cs, i, CharClass::Number);
            match literal_value(cs.subrange(i, j)) {
                None => Err(LexError::MalformedNumber(i as usize)),
                Some(v) => prepend(Tok::Num(v.0, v.1), lex_from(cs, j)),
            }
        } else if symbol_of(c) is Some {
            prepend(Tok::Op(symbol_of(c)->Some_0), lex_from(cs, i + 1))
        } else if is_blank(c) {
            lex_from(cs, i + 1)
        } else if alphabetic(c) {
            let j = run_end(cs, i, CharClass::Word);
            prepend(Tok::Name(cs.subrange(i, j)), lex_from(cs, j))
        } else {
            Err(LexError::InvalidChar(i as usize))
        }
    }
}

#[via_fn]
proof fn lex_from_decreases(cs: Seq<char>, i: int) {
    if 0 <= i < cs.len() {
        lemma_run_end(cs, i, CharClass::Number);
        lemma_run_end(cs, i, CharClass::Word);
    }
}

pub open spec fn lex(cs: Seq<char>) -> Result<Seq<Tok>, LexError> {
    lex_from(cs, 0)
}

pub open spec fn glue(p: Seq<Tok>, r: Result<Seq<Tok>, LexError>) -> Result<Seq<Tok>, LexError> {
    match r {
        Ok(s) => Ok(p + s),
        Err(e) => Err(e),
    }
}

proof fn lemma_toks_push(ts: Seq<Token>, t: Token)
    ensures
        toks_of(ts.push(t)) == toks_of(ts).push(t.tok()),
{
    assert(toks_of(ts.push(t)) =~= toks_of(ts).push(t.tok()));
}

proof fn lemma_glue_step(p: Seq<Tok>, t: Tok, r: Result<Seq<Tok>, LexError>)
    ensures
        glue(p, prepend(t, r)) == glue(p.push(t), r),
{
    if let Ok(s) = r {
        assert(p + (seq![t] + s) =~= p.push(t) + s);
    }
}

fn symbol_at(c: char) -> (r: Option<Symbol>)
    ensures
        r == symbol_of(c),
{
    if c == '+' {
        Some(Symbol::Add)
    } else if c == '-' {
        Some(Symbol::Subtract)
    } else if c == '*' {
        Some(Symbol::Multiply)
    } else if c == '/' {
        Some(Symbol::Divide)
    } else if c == '%' {
        Some(Symbol::Modulus)
    } else if c == '^' {
        Some(Symbol::Exponent)
    } else if c == '=' {
        Some(Symbol::Equals)
    } else {
        None
    }
}

/// Relies on `String::push`: appends the character at the end.
#[verifier::external_body]
fn push_char(s: &mut String, c: char)
    ensures
        final(s)@ == old(s)@.push(c),
{
    s.push(c)
}

fn text_of(chars: &Vec<char>, start: usize, end: usize) -> (r: String)
    requires
        start <= end <= chars@.len(),
    ensures
        r@ == chars@.subrange(start as int, end as int),
{
    let mut s = String::new();
    let mut i = start;
    while i < end
        invariant
            start <= i <= end <= chars@.len(),
            s@ == chars@.subrange(start as int, i as int),
        decreases end - i,
    {
        push_char(&mut s, chars[i]);
        assert(s@ =~= chars@.subrange(start as int, i + 1));
        i = i + 1;
    }
    s
}

/// Splits characters into tokens.
pub fn tokenize_chars(chars: &Vec<char>) -> (r: Result<Vec<Token>, LexError>)
    ensures
        match r {
            Ok(ts) => (forall|k: int| 0 <= k < ts@.len() ==> (#[trigger] ts@[k]).wf())
                && lex(chars@) == Ok::<_, LexError>(toks_of(ts@)),
            Err(e) => lex(chars@) == Err::<Seq<Tok>, _>(e),
        },
{
    let mut out: Vec<Token> = Vec::new();
    let mut i: usize = 0;
    proof {
        assert(toks_of(out@) =~= Seq::<Tok>::empty());
        assert(glue(Seq::empty(), lex_from(chars@, 0)) == lex_from(chars@, 0)) by {
            if let Ok(s) = lex_from(chars@, 0) {
                assert(Seq::<Tok>::empty() + s =~= s);
            }
        }
    }
    while i < chars.len()
        invariant
            i <= chars@.len(),
            forall|k: int| 0 <= k < out@.len() ==> (#[trigger] out@[k]).wf(),
            lex(chars@) == glue(toks_of(out@), lex_from(chars@, i as int)),
        decreases chars@.len() - i,
    {
        let c = chars[i];
        let ghost before = out@;
        if '0' <= c && c <= '9' {
            let j = consume_while(chars, i, CharClass::Number);
            proof {
                lemma_run_end(chars@, i as int, CharClass::Number);
            }
            match parse_number(chars, i, j) {
                None => return Err(LexError::MalformedNumber(i)),
                Some(v) => {
                    let t = Token::Integer(v);
                    proof {
                        lemma_glue_step(toks_of(before), t.tok(), lex_from(chars@, j as int));
                        lemma_toks_push(before, t);
                    }
                    out.push(t);
                },
            }
            i = j;
        } else if let Some(sym) = symbol_at(c) {
            let t = Token::Operator(sym);
            proof {
                lemma_glue_step(toks_of(before), t.tok(), lex_from(chars@, i + 1));
                lemma_toks_push(before, t);
            }
            out.push(t);
            i = i + 1;
        } else if blank(c) {
            i = i + 1;
        } else if is_alphabetic(c) {
            let j = consume_while(chars, i, CharClass::Word);
            proof {
                lemma_run_end(chars@, i as int, CharClass::Word);
            }
            let t = Token::Name(text_of(chars, i, j));
            proof {
                lemma_glue_step(toks_of(before), t.tok(), lex_from(chars@, j as int));
                lemma_toks_push(before, t);
            }
            out.push(t);
            i = j;
        } else {
            return Err(LexError::InvalidChar(i));
        }
    }
    proof {
        assert(toks_of(out@) + Seq::<Tok>::empty() =~= toks_of(out@));
    }
    Ok(out)
}

/// Splits a line of text into tokens.
pub fn tokenize_str(line: &str) -> (r: Result<Vec<Token>, LexError>)
    ensures
        match r {
            Ok(ts) => (forall|k: int| 0 <= k < ts@.len() ==> (#[trigger] ts@[k]).wf())
                && lex(line@) == Ok::<_, LexError>(toks_of(ts@)),
            Err(e) => lex(line@) == Err::<Seq<Tok>, _>(e),
        },
{
    let n = line.unicode_len();
    let mut chars: Vec<char> = Vec::new();
    let mut i: usize = 0;
    while i < n
        invariant
            n == line@.len(),
            i <= n,
            chars@ == line@.subrange(0, i as int),
        decreases n - i,
    {
        chars.push(line.get_char(i));
        assert(chars@ =~= line@.subrange(0, i + 1));
        i = i + 1;
    }
    assert(chars@ =~= line@);
    tokenize_chars(&chars)
}

/// Lexing of a line of text.
pub trait Tokenizer {
    /// The characters of the text.
    spec fn text(&self) -> Seq<char>;

    fn tokenize(&self) -> (r: Result<Vec<Token>, LexError>)
        ensures
            match r {
                Ok(ts) => (forall|k: int| 0 <= k < ts@.len() ==> (#[trigger] ts@[k]).wf())
                    && lex(self.text()) == Ok::<_, LexError>(toks_of(ts@)),
                Err(e) => lex(self.text()) == Err::<Seq<Tok>, _>(e),
            },
    ;
}

impl Tokenizer for String {
    open spec fn text(&self) -> Seq<char> {
        self@
    }

    fn tokenize(&self) -> (r: Result<Vec<Token>, LexError>) {
        tokenize_str(self.as_str())
    }
}

} // verus!
