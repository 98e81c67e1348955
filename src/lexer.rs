//! The lexer: source text to a flat token stream.
use vstd::prelude::*;
use vstd::string::*;
use crate::text::{decimal, push_char, u64_to_decimal};

verus! {

/// A token of the surface syntax.
#[derive(Debug, PartialEq)]
pub enum Token {
    OpenParen,
    CloseParen,
    Quote,
    Identifier(String),
    Integer(i64),
    Boolean(bool),
    String(String),
}

/// What a token stands for, with its text as a sequence of characters.
pub enum Lexeme {
    OpenParen,
    CloseParen,
    Quote,
    Identifier(Seq<char>),
    Integer(int),
    Boolean(bool),
    Str(Seq<char>),
}

impl Token {
    pub open spec fn view(&self) -> Lexeme {
        match self {
            Token::OpenParen => Lexeme::OpenParen,
            Token::CloseParen => Lexeme::CloseParen,
            Token::Quote => Lexeme::Quote,
            Token::Identifier(s) => Lexeme::Identifier(s@),
            Token::Integer(n) => Lexeme::Integer(*n as int),
            Token::Boolean(b) => Lexeme::Boolean(*b),
            Token::String(s) => Lexeme::Str(s@),
        }
    }
}

/// The lexemes of a sequence of tokens.
pub open spec fn lexemes(ts: Seq<Token>) -> Seq<Lexeme> {
    ts.map_values(|t: Token| t.view())
}

/// A failure of the lexer: its message, and the index of the character
/// (or of the end of input) where it was found.
pub struct LexFailure {
    pub message: Seq<char>,
    pub pos: nat,
}

/// A syntax error, with the line and column (both counted from 1) where it was found.
#[derive(Debug)]
pub struct SyntaxError {
    pub message: String,
    pub line: usize,
    pub column: usize,
}

pub open spec fn is_digit_char(c: char) -> bool {
    '0' <= c && c <= '9'
}

pub open spec fn is_space_char(c: char) -> bool {
    c == ' ' || c == '\t' || c == '\n' || c == '\r'
}

/// Characters that may begin an identifier.
pub open spec fn is_initial_char(c: char) -> bool {
    ('A' <= c && c <= 'Z') || ('a' <= c && c <= 'z') || c == '!' || c == '$' || c == '%'
        || c == '&' || c == '*' || c == '/' || c == ':' || c == '<' || c == '=' || c == '>'
        || c == '?' || c == '_' || c == '^'
}

/// Characters that may follow the first one in an identifier.
pub open spec fn is_subsequent_char(c: char) -> bool {
    is_initial_char(c) || is_digit_char(c) || c == '+' || c == '-' || c == '#'
}

pub open spec fn digit_value(c: char) -> nat {
    ((c as u32) - ('0' as u32)) as nat
}

/// The index just past the run of digits that starts at `k`.
pub open spec fn digits_end(s: Seq<char>, k: nat) -> nat
    decreases s.len() - k,
{
    if k < s.len() && is_digit_char(s[k as int]) {
        digits_end(s, k + 1)
    } else {
        k
    }
}

/// The index just past the run of identifier characters that starts at `k`.
pub open spec fn ident_end(s: Seq<char>, k: nat) -> nat
    decreases s.len() - k,
{
    if k < s.len() && is_subsequent_char(s[k as int]) {
        ident_end(s, k + 1)
    } else {
        k
    }
}

/// The value of the decimal digits `s[a..e]`.
pub open spec fn digits_value(s: Seq<char>, a: nat, e: nat) -> nat
    decreases e - a,
{
    if a < e && e <= s.len() {
        digits_value(s, a, (e - 1) as nat) * 10 + digit_value(s[e - 1int])
    } else {
        0
    }
}

/// The index of the first `"` at or after `k`.
pub open spec fn quote_end(s: Seq<char>, k: nat) -> Option<nat>
    decreases s.len() - k,
{
    if k >= s.len() {
        None
    } else if s[k as int] == '"' {
        Some(k)
    } else {
        quote_end(s, k + 1)
    }
}

/// The integer written by the digits that start at `a`, negated when `negative`,
/// where it fits in 64 bits.
pub open spec fn number_value(s: Seq<char>, a: nat, negative: bool) -> Option<int> {
    let v = digits_value(s, a, digits_end(s, a));
    if negative {
        if v <= 0x8000_0000_0000_0000 { Some(-v) } else { None }
    } else {
        if v <= 0x7fff_ffff_ffff_ffff { Some(v as int) } else { None }
    }
}

pub open spec fn msg_unexpected() -> Seq<char> {
    "Unexpected character: "@
}

pub open spec fn msg_boolean() -> Seq<char> {
    "Unexpected character when looking for t/f"@
}

pub open spec fn msg_end_quote() -> Seq<char> {
    "Expected end quote, but found EOF instead"@
}

pub open spec fn msg_delimiter() -> Seq<char> {
    "Unexpected character when looking for a delimiter: "@
}

pub open spec fn msg_range() -> Seq<char> {
    "Integer literal out of range"@
}

pub open spec fn fail<T>(message: Seq<char>, pos: nat) -> Result<T, LexFailure> {
    Err(LexFailure { message, pos })
}

/// Lexing from index `k`, with `acc` the tokens found before it.
pub open spec fn lex_from(s: Seq<char>, k: nat, acc: Seq<Lexeme>) -> Result<Seq<Lexeme>, LexFailure>
    decreases s.len() - k, 0int
    via lex_from_decreases
{
    if k >= s.len() {
        Ok(acc)
    } else {
        let c = s[k as int];
        if c == '(' {
            lex_from(s, k + 1, acc.push(Lexeme::OpenParen))
        } else if c == ')' {
            lex_from(s, k + 1, acc.push(Lexeme::CloseParen))
        } else if c == '\'' {
            lex_from(s, k + 1, acc.push(Lexeme::Quote))
        } else if (c == '+' || c == '-') && k + 1 < s.len() && is_digit_char(s[k + 1int]) {
            match number_value(s, k + 1, c == '-') {
                Some(n) => lex_after(s, digits_end(s, k + 1), acc.push(Lexeme::Integer(n))),
                None => fail(msg_range(), k),
            }
        } else if c == '+' || c == '-' {
            lex_after(s, k + 1, acc.push(Lexeme::Identifier(seq![c])))
        } else if c == '#' {
            if k + 1 < s.len() && s[k + 1int] == 't' {
                lex_after(s, k + 2, acc.push(Lexeme::Boolean(true)))
            } else if k + 1 < s.len() && s[k + 1int] == 'f' {
                lex_after(s, k + 2, acc.push(Lexeme::Boolean(false)))
            } else {
                fail(msg_boolean(), k + 1)
            }
        } else if is_initial_char(c) {
            let e = ident_end(s, k);
            lex_after(s, e, acc.push(Lexeme::Identifier(s.subrange(k as int, e as int))))
        } else if is_digit_char(c) {
            match number_value(s, k, false) {
                Some(n) => lex_after(s, digits_end(s, k), acc.push(Lexeme::Integer(n))),
                None => fail(msg_range(), k),
            }
        } else if c == '"' {
            match quote_end(s, k + 1) {
                Some(q) => lex_after(s, q + 1, acc.push(Lexeme::Str(s.subrange(k + 1int, q as int)))),
                None => fail(msg_end_quote(), s.len()),
            }
        } else if is_space_char(c) {
            lex_from(s, k + 1, acc)
        } else {
            fail(msg_unexpected().push(c), k)
        }
    }
}

pub proof fn lemma_digits_end(s: Seq<char>, k: nat)
    ensures
        k <= digits_end(s, k),
        k <= s.len() ==> digits_end(s, k) <= s.len(),
        forall|j: int| k <= j < digits_end(s, k) ==> is_digit_char(#[trigger] s[j]),
        digits_end(s, k) < s.len() ==> !is_digit_char(s[digits_end(s, k) as int]),
    decreases s.len() - k,
{
    if k < s.len() && is_digit_char(s[k as int]) {
        lemma_digits_end(s, k + 1);
    }
}

pub proof fn lemma_ident_end(s: Seq<char>, k: nat)
    ensures
        k <= ident_end(s, k),
        k <= s.len() ==> ident_end(s, k) <= s.len(),
        forall|j: int| k <= j < ident_end(s, k) ==> is_subsequent_char(#[trigger] s[j]),
        ident_end(s, k) < s.len() ==> !is_subsequent_char(s[ident_end(s, k) as int]),
    decreases s.len() - k,
{
    if k < s.len() && is_subsequent_char(s[k as int]) {
        lemma_ident_end(s, k + 1);
    }
}

pub proof fn lemma_quote_end(s: Seq<char>, k: nat)
    ensures
        quote_end(s, k) matches Some(q) ==> k <= q < s.len() && s[q as int] == '"'
            && forall|j: int| k <= j < q ==> #[trigger] s[j] != '"',
        quote_end(s, k) is None ==> forall|j: int| k <= j < s.len() ==> #[trigger] s[j] != '"',
    decreases s.len() - k,
{
    if k < s.len() && s[k as int] != '"' {
        lemma_quote_end(s, k + 1);
    }
}

#[via_fn]
proof fn lex_from_decreases(s: Seq<char>, k: nat, acc: Seq<Lexeme>) {
    lemma_digits_end(s, k);
    lemma_digits_end(s, k + 1);
    lemma_ident_end(s, k);
    lemma_quote_end(s, k + 1);
}

/// Lexing at index `e`, just after a token that must be followed by a delimiter:
/// the end of input, whitespace, or `)`.
pub open spec fn lex_after(s: Seq<char>, e: nat, acc: Seq<Lexeme>) -> Result<Seq<Lexeme>, LexFailure>
    decreases s.len() - e, 1int,
{
    if e >= s.len() {
        Ok(acc)
    } else if s[e as int] == ')' {
        lex_from(s, e + 1, acc.push(Lexeme::CloseParen))
    } else if is_space_char(s[e as int]) {
        lex_from(s, e, acc)
    } else {
        fail(msg_delimiter().push(s[e as int]), e)
    }
}

/// The tokens of a whole text.
pub open spec fn lex(s: Seq<char>) -> Result<Seq<Lexeme>, LexFailure> {
    lex_from(s, 0, Seq::empty())
}

/// The line (from 1) of index `k`.
pub open spec fn line_of(s: Seq<char>, k: nat) -> nat
    decreases k,
{
    if k == 0 || k > s.len() {
        1
    } else {
        line_of(s, (k - 1) as nat) + if s[k - 1int] == '\n' { 1nat } else { 0nat }
    }
}

/// The column (from 1) of index `k`.
pub open spec fn column_of(s: Seq<char>, k: nat) -> nat
    decreases k,
{
    if k == 0 || k > s.len() {
        1
    } else if s[k - 1int] == '\n' {
        1
    } else {
        column_of(s, (k - 1) as nat) + 1
    }
}

/// The text of a syntax error, with its place.
pub open spec fn syntax_error_text(message: Seq<char>, line: nat, column: nat) -> Seq<char> {
    "SyntaxError: "@ + message + " (line: "@ + decimal(line) + ", column: "@ + decimal(column) + ")"@
}

impl SyntaxError {
    /// The error as text: `SyntaxError: <message> (line: <l>, column: <c>)`.
    pub fn to_string(&self) -> (r: String)
        ensures
            r@ == syntax_error_text(self.message@, self.line as nat, self.column as nat),
    {
        let mut s = String::from_str("SyntaxError: ");
        s.append(self.message.as_str());
        s.append(" (line: ");
        let l = u64_to_decimal(self.line as u64);
        s.append(l.as_str());
        s.append(", column: ");
        let c = u64_to_decimal(self.column as u64);
        s.append(c.as_str());
        s.append(")");
        s
    }
}

pub proof fn lemma_digits_end_at(s: Seq<char>, k: nat, e: nat)
    requires
        k <= e <= s.len(),
        forall|j: int| k <= j < e ==> is_digit_char(#[trigger] s[j]),
        e == s.len() || !is_digit_char(s[e as int]),
    ensures
        digits_end(s, k) == e,
    decreases e - k,
{
    if k < e {
        lemma_digits_end_at(s, k + 1, e);
    }
}

pub proof fn lemma_ident_end_at(s: Seq<char>, k: nat, e: nat)
    requires
        k <= e <= s.len(),
        forall|j: int| k <= j < e ==> is_subsequent_char(#[trigger] s[j]),
        e == s.len() || !is_subsequent_char(s[e as int]),
    ensures
        ident_end(s, k) == e,
    decreases e - k,
{
    if k < e {
        lemma_ident_end_at(s, k + 1, e);
    }
}

pub proof fn lemma_quote_end_at(s: Seq<char>, k: nat, e: nat)
    requires
        k <= e <= s.len(),
        forall|j: int| k <= j < e ==> #[trigger] s[j] != '"',
    ensures
        e < s.len() && s[e as int] == '"' ==> quote_end(s, k) == Some(e),
        e == s.len() ==> quote_end(s, k) is None,
    decreases e - k,
{
    if k < e {
        lemma_quote_end_at(s, k + 1, e);
    }
}

pub proof fn lemma_lexemes_push(ts: Seq<Token>, t: Token)
    ensures
        lexemes(ts.push(t)) == lexemes(ts).push(t.view()),
{
    assert(lexemes(ts.push(t)) =~= lexemes(ts).push(t.view()));
}

/// `e` reports the failure `f` of lexing `s`.
pub open spec fn reports(e: SyntaxError, s: Seq<char>, f: LexFailure) -> bool {
    &&& e.message@ == f.message
    &&& e.line as nat == line_of(s, f.pos)
    &&& e.column as nat == column_of(s, f.pos)
}

/// `r` is what lexing `s` gives.
pub open spec fn lexed_as(r: Result<Vec<Token>, SyntaxError>, s: Seq<char>) -> bool {
    match r {
        Ok(ts) => lex(s) == Ok::<Seq<Lexeme>, LexFailure>(lexemes(ts@)),
        Err(e) => lex(s) matches Err(f) && reports(e, s, f),
    }
}

fn is_digit(c: char) -> (r: bool)
    ensures
        r == is_digit_char(c),
{
    '0' <= c && c <= '9'
}

fn is_space(c: char) -> (r: bool)
    ensures
        r == is_space_char(c),
{
    c == ' ' || c == '\t' || c == '\n' || c == '\r'
}

fn is_initial(c: char) -> (r: bool)
    ensures
        r == is_initial_char(c),
{
    ('A' <= c && c <= 'Z') || ('a' <= c && c <= 'z') || c == '!' || c == '$' || c == '%'
        || c == '&' || c == '*' || c == '/' || c == ':' || c == '<' || c == '=' || c == '>'
        || c == '?' || c == '_' || c == '^'
}

fn is_subsequent(c: char) -> (r: bool)
    ensures
        r == is_subsequent_char(c),
{
    is_initial(c) || is_digit(c) || c == '+' || c == '-' || c == '#'
}

/// Tokenizes `s`.
pub fn tokenize(s: &str) -> (r: Result<Vec<Token>, SyntaxError>)
    requires
        s@.len() < usize::MAX,
    ensures
        lexed_as(r, s@),
{
    let n = s.unicode_len();
    let mut chars: Vec<char> = Vec::new();
    let mut i: usize = 0;
    while i < n
        invariant
            n == s@.len(),
            i <= n,
            chars@ == s@.subrange(0, i as int),
        decreases n - i,
    {
        let c = s.get_char(i);
        chars.push(c);
        i = i + 1;
        assert(chars@ =~= s@.subrange(0, i as int));
    }
    assert(chars@ =~= s@);
    Lexer::tokenize(chars)
}

struct Lexer {
    chars: Vec<char>,
    pos: usize,
    tokens: Vec<Token>,
}

impl Lexer {
    spec fn wf(&self) -> bool {
        self.pos <= self.chars.len() < usize::MAX
    }

    spec fn acc(&self) -> Seq<Lexeme> {
        lexemes(self.tokens@)
    }

    fn tokenize(chars: Vec<char>) -> (r: Result<Vec<Token>, SyntaxError>)
        requires
            chars.len() < usize::MAX,
        ensures
            lexed_as(r, chars@),
    {
        let mut lexer = Lexer { chars, pos: 0, tokens: Vec::new() };
        assert(lexer.acc() =~= Seq::<Lexeme>::empty());
        match lexer.run() {
            Ok(()) => Ok(lexer.tokens),
            Err(e) => Err(e),
        }
    }

    fn current(&self) -> (r: Option<char>)
        requires
            self.wf(),
        ensures
            r == if self.pos < self.chars.len() { Some(self.chars@[self.pos as int]) } else { None },
    {
        if self.pos < self.chars.len() {
            Some(self.chars[self.pos])
        } else {
            None
        }
    }

    fn advance(&mut self)
        requires
            old(self).wf(),
            old(self).pos < old(self).chars.len(),
        ensures
            final(self).wf(),
            final(self).pos == old(self).pos + 1,
            final(self).chars@ == old(self).chars@,
            final(self).tokens@ == old(self).tokens@,
    {
        self.pos = self.pos + 1;
    }

    fn peek(&self) -> (r: Option<char>)
        requires
            self.wf(),
        ensures
            r == if self.pos + 1 < self.chars.len() { Some(self.chars@[self.pos + 1]) } else { None },
    {
        if self.pos + 1 < self.chars.len() {
            Some(self.chars[self.pos + 1])
        } else {
            None
        }
    }

    /// The error `message` at index `at`, with its line and column.
    fn error_at(&self, message: String, at: usize) -> (e: SyntaxError)
        requires
            self.wf(),
            at <= self.chars.len(),
        ensures
            e.message@ == message@,
            e.line as nat == line_of(self.chars@, at as nat),
            e.column as nat == column_of(self.chars@, at as nat),
    {
        let mut line: usize = 1;
        let mut column: usize = 1;
        let mut j: usize = 0;
        while j < at
            invariant
                self.wf(),
                j <= at <= self.chars.len(),
                line as nat == line_of(self.chars@, j as nat),
                column as nat == column_of(self.chars@, j as nat),
                line <= j + 1,
                column <= j + 1,
            decreases at - j,
        {
            if self.chars[j] == '\n' {
                line = line + 1;
                column = 1;
            } else {
                column = column + 1;
            }
            j = j + 1;
        }
        SyntaxError { message, line, column }
    }

    /// Reads the digits at the current index; `negative` negates the value,
    /// and a value out of range is reported at index `at`.
    fn parse_number(&mut self, negative: bool, at: usize) -> (r: Result<i64, SyntaxError>)
        requires
            old(self).wf(),
            at <= old(self).pos < old(self).chars.len(),
            is_digit_char(old(self).chars@[old(self).pos as int]),
        ensures
            final(self).wf(),
            final(self).chars@ == old(self).chars@,
            final(self).tokens@ == old(self).tokens@,
            match r {
                Ok(n) => number_value(old(self).chars@, old(self).pos as nat, negative) == Some(n as int)
                    && final(self).pos == digits_end(old(self).chars@, old(self).pos as nat),
                Err(e) => number_value(old(self).chars@, old(self).pos as nat, negative) is None
                    && reports(e, old(self).chars@, LexFailure { message: msg_range(), pos: at as nat }),
            },
    {
        let ghost s = self.chars@;
        let start = self.pos;
        let mut v: u64 = 0;
        let mut over = false;
        while self.pos < self.chars.len() && is_digit(self.chars[self.pos])
            invariant
                self.wf(),
                self.chars@ == s,
                s == old(self).chars@,
                self.tokens@ == old(self).tokens@,
                start <= self.pos <= s.len(),
                forall|j: int| start <= j < self.pos ==> is_digit_char(#[trigger] s[j]),
                over ==> digits_value(s, start as nat, self.pos as nat) > 0x8000_0000_0000_0000,
                !over ==> v as nat == digits_value(s, start as nat, self.pos as nat)
                    && v <= 0x8000_0000_0000_0000,
            decreases s.len() - self.pos,
        {
            let d = ((self.chars[self.pos] as u32) - ('0' as u32)) as u64;
            assert(digits_value(s, start as nat, (self.pos + 1) as nat)
                == digits_value(s, start as nat, self.pos as nat) * 10 + digit_value(s[self.pos as int]));
            if !over {
                if v > 922_337_203_685_477_580 {
                    over = true;
                } else {
                    let w = v * 10 + d;
                    if w > 0x8000_0000_0000_0000 {
                        over = true;
                    } else {
                        v = w;
                    }
                }
            }
            self.advance();
        }
        proof {
            lemma_digits_end_at(s, start as nat, self.pos as nat);
        }
        if over {
            let e = self.error_at(String::from_str("Integer literal out of range"), at);
            return Err(e);
        }
        if negative {
            if v == 0x8000_0000_0000_0000 {
                Ok(i64::MIN)
            } else {
                Ok(-(v as i64))
            }
        } else if v <= 0x7fff_ffff_ffff_ffff {
            Ok(v as i64)
        } else {
            let e = self.error_at(String::from_str("Integer literal out of range"), at);
            Err(e)
        }
    }

    /// Reads `#t` or `#f` at the current index.
    fn parse_boolean(&mut self) -> (r: Result<bool, SyntaxError>)
        requires
            old(self).wf(),
            old(self).pos < old(self).chars.len(),
            old(self).chars@[old(self).pos as int] == '#',
        ensures
            final(self).wf(),
            final(self).chars@ == old(self).chars@,
            final(self).tokens@ == old(self).tokens@,
            ({
                let s = old(self).chars@;
                let k = old(self).pos as int;
                match r {
                    Ok(b) => k + 1 < s.len() && s[k + 1] == (if b { 't' } else { 'f' })
                        && final(self).pos == k + 2,
                    Err(e) => !(k + 1 < s.len() && (s[k + 1] == 't' || s[k + 1] == 'f'))
                        && reports(e, s, LexFailure { message: msg_boolean(), pos: (k + 1) as nat }),
                }
            }),
    {
        self.advance();
        match self.current() {
            Some('t') => {
                self.advance();
                Ok(true)
            },
            Some('f') => {
                self.advance();
                Ok(false)
            },
            _ => {
                let e = self.error_at(String::from_str("Unexpected character when looking for t/f"), self.pos);
                Err(e)
            },
        }
    }

    /// Reads the identifier that starts at the current index.
    fn parse_identifier(&mut self) -> (r: String)
        requires
            old(self).wf(),
        ensures
            final(self).wf(),
            final(self).chars@ == old(self).chars@,
            final(self).tokens@ == old(self).tokens@,
            final(self).pos == ident_end(old(self).chars@, old(self).pos as nat),
            r@ == old(self).chars@.subrange(old(self).pos as int, final(self).pos as int),
    {
        let ghost s = self.chars@;
        let start = self.pos;
        let mut name = String::new();
        while self.pos < self.chars.len() && is_subsequent(self.chars[self.pos])
            invariant
                self.wf(),
                self.chars@ == s,
                s == old(self).chars@,
                self.tokens@ == old(self).tokens@,
                start <= self.pos <= s.len(),
                forall|j: int| start <= j < self.pos ==> is_subsequent_char(#[trigger] s[j]),
                name@ == s.subrange(start as int, self.pos as int),
            decreases s.len() - self.pos,
        {
            push_char(&mut name, self.chars[self.pos]);
            self.advance();
            assert(name@ =~= s.subrange(start as int, self.pos as int));
        }
        proof {
            lemma_ident_end_at(s, start as nat, self.pos as nat);
        }
        name
    }

    /// Reads the string literal that starts at the current index.
    fn parse_string(&mut self) -> (r: Result<String, SyntaxError>)
        requires
            old(self).wf(),
            old(self).pos < old(self).chars.len(),
            old(self).chars@[old(self).pos as int] == '"',
        ensures
            final(self).wf(),
            final(self).chars@ == old(self).chars@,
            final(self).tokens@ == old(self).tokens@,
            ({
                let s = old(self).chars@;
                let k = old(self).pos as nat;
                match r {
                    Ok(text) => quote_end(s, k + 1) matches Some(q) && final(self).pos == q + 1
                        && text@ == s.subrange(k + 1int, q as int),
                    Err(e) => quote_end(s, k + 1) is None
                        && reports(e, s, LexFailure { message: msg_end_quote(), pos: s.len() }),
                }
            }),
    {
        let ghost s = self.chars@;
        self.advance();
        let start = self.pos;
        let mut text = String::new();
        loop
            invariant
                self.wf(),
                self.chars@ == s,
                s == old(self).chars@,
                self.tokens@ == old(self).tokens@,
                start <= self.pos <= s.len(),
                start == old(self).pos + 1,
                forall|j: int| start <= j < self.pos ==> #[trigger] s[j] != '"',
                text@ == s.subrange(start as int, self.pos as int),
            decreases s.len() - self.pos,
        {
            match self.current() {
                Some(c) => {
                    if c == '"' {
                        proof {
                            lemma_quote_end_at(s, start as nat, self.pos as nat);
                        }
                        self.advance();
                        return Ok(text);
                    }
                    push_char(&mut text, c);
                    self.advance();
                    assert(text@ =~= s.subrange(start as int, self.pos as int));
                },
                None => {
                    proof {
                        lemma_quote_end_at(s, start as nat, self.pos as nat);
                    }
                    let e = self.error_at(String::from_str("Expected end quote, but found EOF instead"), self.pos);
                    return Err(e);
                },
            }
        }
    }

    /// Checks that the token just read is followed by a delimiter, reading a `)` there.
    fn parse_delimiter(&mut self) -> (r: Result<(), SyntaxError>)
        requires
            old(self).wf(),
        ensures
            final(self).wf(),
            final(self).chars@ == old(self).chars@,
            final(self).pos >= old(self).pos,
            ({
                let s = old(self).chars@;
                let after = lex_after(s, old(self).pos as nat, old(self).acc());
                match r {
                    Ok(()) => lex_from(s, final(self).pos as nat, final(self).acc()) == after,
                    Err(e) => after matches Err(f) && reports(e, s, f),
                }
            }),
    {
        match self.current() {
            Some(c) => {
                if c == ')' {
                    proof {
                        lemma_lexemes_push(self.tokens@, Token::CloseParen);
                    }
                    self.tokens.push(Token::CloseParen);
                    self.advance();
                    Ok(())
                } else if is_space(c) {
                    Ok(())
                } else {
                    let mut m = String::from_str("Unexpected character when looking for a delimiter: ");
                    push_char(&mut m, c);
                    let e = self.error_at(m, self.pos);
                    Err(e)
                }
            },
            None => Ok(()),
        }
    }

    /// Appends `t` to the tokens read.
    fn emit(&mut self, t: Token)
        ensures
            final(self).chars@ == old(self).chars@,
            final(self).pos == old(self).pos,
            final(self).acc() == old(self).acc().push(t.view()),
    {
        proof {
            lemma_lexemes_push(self.tokens@, t);
        }
        self.tokens.push(t);
    }

    /// Reads tokens up to the end of input.
    fn run(&mut self) -> (r: Result<(), SyntaxError>)
        requires
            old(self).wf(),
            old(self).pos == 0,
        ensures
            final(self).chars@ == old(self).chars@,
            ({
                let s = old(self).chars@;
                let res = lex_from(s, 0, old(self).acc());
                match r {
                    Ok(()) => res == Ok::<Seq<Lexeme>, LexFailure>(final(self).acc()),
                    Err(e) => res matches Err(f) && reports(e, s, f),
                }
            }),
    {
        let ghost s = self.chars@;
        let ghost goal = lex_from(s, 0, self.acc());
        loop
            invariant
                self.wf(),
                self.chars@ == s,
                s == old(self).chars@,
                self.chars@ == old(self).chars@,
                lex_from(s, self.pos as nat, self.acc()) == goal,
                goal == lex_from(s, 0, old(self).acc()),
            decreases s.len() - self.pos,
        {
            let k = self.pos;
            let c = match self.current() {
                Some(c) => c,
                None => return Ok(()),
            };
            if c == '(' {
                self.emit(Token::OpenParen);
                self.advance();
            } else if c == ')' {
                self.emit(Token::CloseParen);
                self.advance();
            } else if c == '\'' {
                self.emit(Token::Quote);
                self.advance();
            } else if c == '+' || c == '-' {
                let next_is_digit = match self.peek() {
                    Some(d) => is_digit(d),
                    None => false,
                };
                if next_is_digit {
                    self.advance();
                    let n = match self.parse_number(c == '-', k) {
                        Ok(n) => n,
                        Err(e) => return Err(e),
                    };
                    proof { lemma_digits_end(s, (k + 2) as nat); }
                    self.emit(Token::Integer(n));
                    match self.parse_delimiter() {
                        Ok(()) => {},
                        Err(e) => return Err(e),
                    }
                } else {
                    let mut name = String::new();
                    push_char(&mut name, c);
                    assert(name@ =~= seq![c]);
                    self.emit(Token::Identifier(name));
                    self.advance();
                    match self.parse_delimiter() {
                        Ok(()) => {},
                        Err(e) => return Err(e),
                    }
                }
            } else if c == '#' {
                let b = match self.parse_boolean() {
                    Ok(b) => b,
                    Err(e) => return Err(e),
                };
                self.emit(Token::Boolean(b));
                match self.parse_delimiter() {
                    Ok(()) => {},
                    Err(e) => return Err(e),
                }
            } else if is_initial(c) {
                let name = self.parse_identifier();
                proof { lemma_ident_end(s, (k + 1) as nat); }
                self.emit(Token::Identifier(name));
                match self.parse_delimiter() {
                    Ok(()) => {},
                    Err(e) => return Err(e),
                }
            } else if is_digit(c) {
                let n = match self.parse_number(false, k) {
                    Ok(n) => n,
                    Err(e) => return Err(e),
                };
                proof { lemma_digits_end(s, (k + 1) as nat); }
                self.emit(Token::Integer(n));
                match self.parse_delimiter() {
                    Ok(()) => {},
                    Err(e) => return Err(e),
                }
            } else if c == '"' {
                let text = match self.parse_string() {
                    Ok(text) => text,
                    Err(e) => return Err(e),
                };
                proof { lemma_quote_end(s, (k + 1) as nat); }
                self.emit(Token::String(text));
                match self.parse_delimiter() {
                    Ok(()) => {},
                    Err(e) => return Err(e),
                }
            } else if is_space(c) {
                self.advance();
            } else {
                let mut m = String::from_str("Unexpected character: ");
                push_char(&mut m, c);
                let e = self.error_at(m, k);
                return Err(e);
            }
        }
    }
}

} // verus!
