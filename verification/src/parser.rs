//! The surface syntax of statements.
//!
//! ```text
//! statement   := "axiom" name ":" expr "."
//!              | "theorem" name ":" expr "."
//!              | "proof" name ":=" expr "."
//! expr        := "λ" name ":" expr "," expr
//!              | "Π" name ":" expr "," expr
//!              | application
//! application := atom { atom }
//! atom        := name | universe | "(" expr ")"
//! ```
//!
//! A name is a letter or `_` followed by letters, digits and `_`, other than
//! the three words that begin a statement. A universe is `U` followed by
//! digits. Application associates to the left, and the body of a binder
//! reaches as far as it can.
use vstd::prelude::*;
use vstd::string::StrSliceExecFns;
use vstd::string::StringExecFns;
use std::marker::PhantomData;
use crate::ast::{
    Abstraction, Application, Axiom, Expr, Proof, Statement, StrVar, Theorem, Universe, Variable,
};
use crate::model::{limit, Binder, Name, Term};
use crate::session::Command;
use crate::Uinf;

verus! {

/// A word or a sign of the surface syntax.
pub enum Lexeme {
    Axiom,
    Theorem,
    Proof,
    Lambda,
    Pi,
    Colon,
    Define,
    Comma,
    Dot,
    Open,
    Close,
    Universe(nat),
    Ident(Seq<char>),
}

pub open spec fn is_space(c: char) -> bool {
    c == ' ' || c == '\t' || c == '\n' || c == '\r'
}

pub open spec fn is_letter(c: char) -> bool {
    ('a' <= c && c <= 'z') || ('A' <= c && c <= 'Z') || c == '_'
}

pub open spec fn is_digit(c: char) -> bool {
    '0' <= c && c <= '9'
}

pub open spec fn is_word_char(c: char) -> bool {
    is_letter(c) || is_digit(c)
}

/// Where the run of letters, digits and `_` that starts at `pos` ends.
pub open spec fn word_end(s: Seq<char>, pos: nat) -> nat
    decreases s.len() - pos,
{
    if pos < s.len() && is_word_char(s[pos as int]) {
        word_end(s, pos + 1)
    } else {
        pos
    }
}

pub proof fn lemma_word_end_range(s: Seq<char>, pos: nat)
    requires
        pos <= s.len(),
    ensures
        pos <= word_end(s, pos) <= s.len(),
    decreases s.len() - pos,
{
    if pos < s.len() && is_word_char(s[pos as int]) {
        lemma_word_end_range(s, pos + 1);
    }
}

/// The number that a sequence of digits writes in base ten.
pub open spec fn decimal(s: Seq<char>) -> nat
    decreases s.len(),
{
    if s.len() == 0 {
        0
    } else {
        decimal(s.drop_last()) * 10 + (s.last() as nat - '0' as nat) as nat
    }
}

pub open spec fn all_digits(s: Seq<char>) -> bool {
    forall|i: int| 0 <= i < s.len() ==> is_digit(#[trigger] s[i])
}

pub open spec fn word_axiom() -> Seq<char> {
    seq!['a', 'x', 'i', 'o', 'm']
}

pub open spec fn word_theorem() -> Seq<char> {
    seq!['t', 'h', 'e', 'o', 'r', 'e', 'm']
}

pub open spec fn word_proof() -> Seq<char> {
    seq!['p', 'r', 'o', 'o', 'f']
}

/// What a word stands for: one of the three words that begin a statement, a
/// universe, or a name. A universe beyond the largest level stands for
/// nothing.
pub open spec fn word_lexeme(w: Seq<char>) -> Option<Lexeme> {
    if w == word_axiom() {
        Some(Lexeme::Axiom)
    } else if w == word_theorem() {
        Some(Lexeme::Theorem)
    } else if w == word_proof() {
        Some(Lexeme::Proof)
    } else if w.len() > 1 && w[0] == 'U' && all_digits(w.subrange(1, w.len() as int)) {
        if decimal(w.subrange(1, w.len() as int)) <= limit() {
            Some(Lexeme::Universe(decimal(w.subrange(1, w.len() as int))))
        } else {
            None
        }
    } else {
        Some(Lexeme::Ident(w))
    }
}

/// `first` before `rest`, where there is a rest.
pub open spec fn before(first: Lexeme, rest: Option<Seq<Lexeme>>) -> Option<Seq<Lexeme>> {
    match rest {
        Some(r) => Some(seq![first] + r),
        None => None,
    }
}

/// The words and signs of `s` from `pos` on, or `None` where `s` holds a
/// character that belongs to none.
pub open spec fn lex(s: Seq<char>, pos: nat) -> Option<Seq<Lexeme>>
    decreases s.len() - pos,
{
    if pos >= s.len() {
        Some(Seq::empty())
    } else {
        let c = s[pos as int];
        if is_space(c) {
            lex(s, pos + 1)
        } else if is_letter(c) {
            let end = word_end(s, pos + 1);
            proof {
                lemma_word_end_range(s, pos + 1);
            }
            match word_lexeme(s.subrange(pos as int, end as int)) {
                Some(l) => before(l, lex(s, end)),
                None => None,
            }
        } else if c == ':' {
            if pos + 1 < s.len() && s[pos + 1 as int] == '=' {
                before(Lexeme::Define, lex(s, pos + 2))
            } else {
                before(Lexeme::Colon, lex(s, pos + 1))
            }
        } else if c == ',' {
            before(Lexeme::Comma, lex(s, pos + 1))
        } else if c == '.' {
            before(Lexeme::Dot, lex(s, pos + 1))
        } else if c == '(' {
            before(Lexeme::Open, lex(s, pos + 1))
        } else if c == ')' {
            before(Lexeme::Close, lex(s, pos + 1))
        } else if c == 'λ' {
            before(Lexeme::Lambda, lex(s, pos + 1))
        } else if c == 'Π' {
            before(Lexeme::Pi, lex(s, pos + 1))
        } else {
            None
        }
    }
}

/// Whether an atom can start with `l`.
pub open spec fn starts_atom(l: Lexeme) -> bool {
    l is Ident || l is Universe || l is Open
}

/// The expression that starts at `pos`, with the place after it. Every
/// result lies after `pos`; the tests on places say so where the definition
/// needs it to be well founded.
pub open spec fn parse_expr(ts: Seq<Lexeme>, pos: nat) -> Option<(Term, nat)>
    decreases ts.len() - pos, 3nat,
{
    if pos < ts.len() && (ts[pos as int] is Lambda || ts[pos as int] is Pi) {
        let kind = if ts[pos as int] is Lambda {
            Binder::Lambda
        } else {
            Binder::Pi
        };
        if pos + 2 < ts.len() && ts[pos + 1 as int] is Ident && ts[pos + 2 as int] is Colon {
            match parse_expr(ts, pos + 3) {
                Some((ty, p1)) => {
                    if pos < p1 < ts.len() && ts[p1 as int] is Comma {
                        match parse_expr(ts, p1 + 1) {
                            Some((body, p2)) => Some(
                                (
                                    Term::Abs(
                                        kind,
                                        Name::User(ts[pos + 1 as int]->Ident_0),
                                        Box::new(ty),
                                        Box::new(body),
                                    ),
                                    p2,
                                ),
                            ),
                            None => None,
                        }
                    } else {
                        None
                    }
                },
                None => None,
            }
        } else {
            None
        }
    } else {
        parse_application(ts, pos)
    }
}

/// The application that starts at `pos`: an atom, applied to the atoms that
/// follow it.
pub open spec fn parse_application(ts: Seq<Lexeme>, pos: nat) -> Option<(Term, nat)>
    decreases ts.len() - pos, 2nat,
{
    match parse_atom(ts, pos) {
        Some((head, p)) => if pos < p <= ts.len() {
            parse_arguments(ts, p, head)
        } else {
            None
        },
        None => None,
    }
}

/// `head` applied to the atoms from `pos` on, one after the other.
pub open spec fn parse_arguments(ts: Seq<Lexeme>, pos: nat, head: Term) -> Option<(Term, nat)>
    decreases ts.len() - pos, 2nat,
{
    if pos < ts.len() && starts_atom(ts[pos as int]) {
        match parse_atom(ts, pos) {
            Some((arg, p)) => if pos < p <= ts.len() {
                parse_arguments(ts, p, Term::App(Box::new(head), Box::new(arg)))
            } else {
                None
            },
            None => None,
        }
    } else {
        Some((head, pos))
    }
}

/// The atom at `pos`: a name, a universe, or an expression in brackets.
pub open spec fn parse_atom(ts: Seq<Lexeme>, pos: nat) -> Option<(Term, nat)>
    decreases ts.len() - pos, 1nat,
{
    if pos >= ts.len() {
        None
    } else {
        match ts[pos as int] {
            Lexeme::Ident(w) => Some((Term::Var(Name::User(w)), pos + 1)),
            Lexeme::Universe(l) => Some((Term::Uni(l), pos + 1)),
            Lexeme::Open => match parse_expr(ts, pos + 1) {
                Some((e, p)) => if p < ts.len() && ts[p as int] is Close {
                    Some((e, p + 1))
                } else {
                    None
                },
                None => None,
            },
            _ => None,
        }
    }
}

/// What holds of every result of the grammar's functions: the place after
/// the expression lies after the place where it starts and within the
/// sequence, and the expression holds no generated name.
pub open spec fn well_placed(r: Option<(Term, nat)>, pos: nat, len: nat) -> bool {
    r matches Some((t, p)) ==> pos < p <= len && t.written()
}

/// Every expression read lies after its start and holds no generated name.
/// So the tests on places in the grammar never fail, and every bound on
/// identifiers holds of what was read.
pub proof fn lemma_parse_expr_well_placed(ts: Seq<Lexeme>, pos: nat)
    ensures
        well_placed(parse_expr(ts, pos), pos, ts.len()),
    decreases ts.len() - pos, 3nat,
{
    if pos < ts.len() && (ts[pos as int] is Lambda || ts[pos as int] is Pi) {
        if pos + 2 < ts.len() && ts[pos + 1 as int] is Ident && ts[pos + 2 as int] is Colon {
            lemma_parse_expr_well_placed(ts, pos + 3);
            match parse_expr(ts, pos + 3) {
                Some((ty, p1)) => {
                    if p1 < ts.len() {
                        lemma_parse_expr_well_placed(ts, p1 + 1);
                    }
                },
                None => {},
            }
        }
    } else {
        lemma_parse_application_well_placed(ts, pos);
    }
}

/// As [`lemma_parse_expr_well_placed`], for an application.
pub proof fn lemma_parse_application_well_placed(ts: Seq<Lexeme>, pos: nat)
    ensures
        well_placed(parse_application(ts, pos), pos, ts.len()),
    decreases ts.len() - pos, 2nat,
{
    lemma_parse_atom_well_placed(ts, pos);
    match parse_atom(ts, pos) {
        Some((head, p)) => {
            lemma_parse_arguments_well_placed(ts, p, head);
        },
        None => {},
    }
}

/// As [`lemma_parse_expr_well_placed`], for the arguments of an application;
/// with no argument the result is the head where it stands.
pub proof fn lemma_parse_arguments_well_placed(ts: Seq<Lexeme>, pos: nat, head: Term)
    requires
        pos <= ts.len(),
        head.written(),
    ensures
        parse_arguments(ts, pos, head) matches Some((t, p)) ==> pos <= p <= ts.len()
            && t.written(),
    decreases ts.len() - pos, 2nat,
{
    if pos < ts.len() && starts_atom(ts[pos as int]) {
        lemma_parse_atom_well_placed(ts, pos);
        match parse_atom(ts, pos) {
            Some((arg, p)) => {
                lemma_parse_arguments_well_placed(
                    ts,
                    p,
                    Term::App(Box::new(head), Box::new(arg)),
                );
            },
            None => {},
        }
    }
}

/// As [`lemma_parse_expr_well_placed`], for an atom.
pub proof fn lemma_parse_atom_well_placed(ts: Seq<Lexeme>, pos: nat)
    ensures
        well_placed(parse_atom(ts, pos), pos, ts.len()),
    decreases ts.len() - pos, 1nat,
{
    if pos < ts.len() {
        match ts[pos as int] {
            Lexeme::Open => {
                lemma_parse_expr_well_placed(ts, pos + 1);
            },
            _ => {},
        }
    }
}

/// The statement that the words and signs make up, if they make up one.
pub open spec fn parse_lexemes(ts: Seq<Lexeme>) -> Option<Command> {
    if ts.len() >= 3 && ts[1] is Ident {
        let name = Name::User(ts[1]->Ident_0);
        let colon = (ts[0] is Axiom || ts[0] is Theorem) && ts[2] is Colon;
        let define = ts[0] is Proof && ts[2] is Define;
        if colon || define {
            match parse_expr(ts, 3) {
                Some((e, p)) => if p + 1 == ts.len() && ts[p as int] is Dot {
                    if ts[0] is Axiom {
                        Some(Command::Axiom(name, e))
                    } else if ts[0] is Theorem {
                        Some(Command::Theorem(name, e))
                    } else {
                        Some(Command::Proof(name, e))
                    }
                } else {
                    None
                },
                None => None,
            }
        } else {
            None
        }
    } else {
        None
    }
}

/// The statement that a line makes up, if it makes up one.
pub open spec fn parse_line(s: Seq<char>) -> Option<Command> {
    match lex(s, 0) {
        Some(ts) => parse_lexemes(ts),
        None => None,
    }
}

/// A word or a sign of the surface syntax.
#[derive(Debug)]
pub enum Token {
    Axiom,
    Theorem,
    Proof,
    Lambda,
    Pi,
    Colon,
    Define,
    Comma,
    Dot,
    Open,
    Close,
    Universe(Uinf),
    Ident(String),
}

impl View for Token {
    type V = Lexeme;

    open spec fn view(&self) -> Lexeme {
        match self {
            Token::Axiom => Lexeme::Axiom,
            Token::Theorem => Lexeme::Theorem,
            Token::Proof => Lexeme::Proof,
            Token::Lambda => Lexeme::Lambda,
            Token::Pi => Lexeme::Pi,
            Token::Colon => Lexeme::Colon,
            Token::Define => Lexeme::Define,
            Token::Comma => Lexeme::Comma,
            Token::Dot => Lexeme::Dot,
            Token::Open => Lexeme::Open,
            Token::Close => Lexeme::Close,
            Token::Universe(l) => Lexeme::Universe(*l as nat),
            Token::Ident(w) => Lexeme::Ident(w@),
        }
    }
}

/// The lexemes that a sequence of tokens stands for.
pub open spec fn lexemes(tokens: Seq<Token>) -> Seq<Lexeme> {
    Seq::new(tokens.len(), |i: int| tokens[i]@)
}

/// The characters of a line.
fn chars_of(line: &str) -> (r: Vec<char>)
    ensures
        r@ == line@,
{
    let n = line.unicode_len();
    let mut out: Vec<char> = Vec::new();
    let mut i: usize = 0;
    while i < n
        invariant
            n == line@.len(),
            i <= n,
            out@ == line@.take(i as int),
        decreases n - i,
    {
        out.push(line.get_char(i));
        assert(out@ == line@.take(i + 1));
        i += 1;
    }
    assert(line@.take(n as int) == line@);
    out
}

fn space(c: char) -> (r: bool)
    ensures
        r == is_space(c),
{
    c == ' ' || c == '\t' || c == '\n' || c == '\r'
}

fn letter(c: char) -> (r: bool)
    ensures
        r == is_letter(c),
{
    (c >= 'a' && c <= 'z') || (c >= 'A' && c <= 'Z') || c == '_'
}

fn digit(c: char) -> (r: bool)
    ensures
        r == is_digit(c),
{
    c >= '0' && c <= '9'
}

/// Where the word that starts at `pos` ends.
fn scan_word(chars: &Vec<char>, pos: usize) -> (end: usize)
    requires
        pos <= chars.len(),
    ensures
        end == word_end(chars@, pos as nat),
        pos <= end <= chars.len(),
{
    let mut i: usize = pos;
    while i < chars.len() && (letter(chars[i]) || digit(chars[i]))
        invariant
            pos <= i <= chars.len(),
            word_end(chars@, pos as nat) == word_end(chars@, i as nat),
        decreases chars.len() - i,
    {
        i += 1;
    }
    i
}

/// A longer sequence of digits writes no smaller a number.
proof fn lemma_decimal_grows(s: Seq<char>, n: int)
    requires
        0 <= n <= s.len(),
    ensures
        decimal(s.take(n)) <= decimal(s),
    decreases s.len() - n,
{
    if n < s.len() {
        lemma_decimal_grows(s, n + 1);
        assert(s.take(n + 1).drop_last() == s.take(n));
    } else {
        assert(s.take(n) == s);
    }
}

/// The level that the digits in `chars[from..to]` write, where it is one.
fn scan_level(chars: &Vec<char>, from: usize, to: usize) -> (r: Option<Uinf>)
    requires
        from <= to <= chars.len(),
        all_digits(chars@.subrange(from as int, to as int)),
    ensures
        r is Some <==> decimal(chars@.subrange(from as int, to as int)) <= limit(),
        r matches Some(l) ==> l == decimal(chars@.subrange(from as int, to as int)),
{
    let ghost digits = chars@.subrange(from as int, to as int);
    let mut level: Uinf = 0;
    let mut i: usize = from;
    assert(digits.take(0) == Seq::<char>::empty());
    while i < to
        invariant
            from <= i <= to <= chars.len(),
            digits == chars@.subrange(from as int, to as int),
            all_digits(digits),
            level == decimal(digits.take(i - from)),
        decreases to - i,
    {
        let c = chars[i];
        assert(c == digits[i - from]);
        let d: Uinf = (c as u32 - '0' as u32) as u128;
        assert(digits.take(i - from + 1).drop_last() == digits.take(i - from));
        assert(digits.take(i - from + 1).last() == c);
        if level > (u128::MAX - d) / 10 {
            proof {
                lemma_decimal_grows(digits, i - from + 1);
            }
            return None;
        }
        level = level * 10 + d;
        i += 1;
    }
    assert(digits.take(to - from) == digits);
    Some(level)
}

/// Whether `chars[from..to]` holds digits only.
fn digits_only(chars: &Vec<char>, from: usize, to: usize) -> (r: bool)
    requires
        from <= to <= chars.len(),
    ensures
        r == all_digits(chars@.subrange(from as int, to as int)),
{
    let ghost part = chars@.subrange(from as int, to as int);
    let mut i: usize = from;
    while i < to
        invariant
            from <= i <= to <= chars.len(),
            part == chars@.subrange(from as int, to as int),
            forall|j: int| 0 <= j < i - from ==> is_digit(#[trigger] part[j]),
        decreases to - i,
    {
        if !digit(chars[i]) {
            assert(!is_digit(part[i - from]));
            return false;
        }
        i += 1;
    }
    true
}

/// Whether `chars[from..to]` is the text of `word`.
fn is_word(chars: &Vec<char>, from: usize, to: usize, word: &Vec<char>) -> (r: bool)
    requires
        from <= to <= chars.len(),
    ensures
        r == (chars@.subrange(from as int, to as int) == word@),
{
    let ghost part = chars@.subrange(from as int, to as int);
    if to - from != word.len() {
        return false;
    }
    let mut i: usize = 0;
    while i < word.len()
        invariant
            from <= to <= chars.len(),
            to - from == word.len(),
            i <= word.len(),
            part == chars@.subrange(from as int, to as int),
            forall|j: int| 0 <= j < i ==> part[j] == word@[j],
        decreases word.len() - i,
    {
        if chars[from + i] != word[i] {
            assert(part[i as int] != word@[i as int]);
            return false;
        }
        i += 1;
    }
    assert(part =~= word@);
    true
}

/// What the word in `chars[from..to]` stands for, see [`word_lexeme`].
fn classify(chars: &Vec<char>, line: &str, from: usize, to: usize) -> (r: Option<Token>)
    requires
        chars@ == line@,
        from < to <= chars.len(),
    ensures
        r is Some <==> word_lexeme(chars@.subrange(from as int, to as int)) is Some,
        r matches Some(t) ==> Some(t@) == word_lexeme(chars@.subrange(from as int, to as int)),
{
    let ghost w = chars@.subrange(from as int, to as int);
    let axiom_word: Vec<char> = vec!['a', 'x', 'i', 'o', 'm'];
    let theorem_word: Vec<char> = vec!['t', 'h', 'e', 'o', 'r', 'e', 'm'];
    let proof_word: Vec<char> = vec!['p', 'r', 'o', 'o', 'f'];
    assert(axiom_word@ =~= word_axiom());
    assert(theorem_word@ =~= word_theorem());
    assert(proof_word@ =~= word_proof());
    if is_word(chars, from, to, &axiom_word) {
        Some(Token::Axiom)
    } else if is_word(chars, from, to, &theorem_word) {
        Some(Token::Theorem)
    } else if is_word(chars, from, to, &proof_word) {
        Some(Token::Proof)
    } else {
        assert(w[0] == chars@[from as int]);
        assert(w.subrange(1, w.len() as int) =~= chars@.subrange(from + 1, to as int));
        if to - from > 1 && chars[from] == 'U' && digits_only(chars, from + 1, to) {
            match scan_level(chars, from + 1, to) {
                Some(level) => Some(Token::Universe(level)),
                None => None,
            }
        } else {
            Some(Token::Ident(String::from_str(line.substring_char(from, to))))
        }
    }
}

/// The words and signs of a line, see [`lex`].
pub fn tokenize(line: &str) -> (r: Option<Vec<Token>>)
    ensures
        r is Some <==> lex(line@, 0) is Some,
        r matches Some(tokens) ==> Some(lexemes(tokens@)) == lex(line@, 0),
{
    let chars = chars_of(line);
    let mut tokens: Vec<Token> = Vec::new();
    let mut pos: usize = 0;
    assert(lexemes(tokens@) =~= Seq::<Lexeme>::empty());
    while pos < chars.len()
        invariant
            chars@ == line@,
            pos <= chars.len(),
            lex(chars@, 0) == match lex(chars@, pos as nat) {
                Some(rest) => Some(lexemes(tokens@) + rest),
                None => None,
            },
        decreases chars.len() - pos,
    {
        let c = chars[pos];
        let ghost done = lexemes(tokens@);
        let ghost here = pos as nat;
        let next: usize;
        let token: Token;
        if space(c) {
            pos += 1;
            continue ;
        } else if letter(c) {
            let end = scan_word(&chars, pos + 1);
            match classify(&chars, line, pos, end) {
                Some(t) => {
                    token = t;
                    next = end;
                },
                None => {
                    return None;
                },
            }
        } else if c == ':' {
            if pos + 1 < chars.len() && chars[pos + 1] == '=' {
                token = Token::Define;
                next = pos + 2;
            } else {
                token = Token::Colon;
                next = pos + 1;
            }
        } else if c == ',' {
            token = Token::Comma;
            next = pos + 1;
        } else if c == '.' {
            token = Token::Dot;
            next = pos + 1;
        } else if c == '(' {
            token = Token::Open;
            next = pos + 1;
        } else if c == ')' {
            token = Token::Close;
            next = pos + 1;
        } else if c == 'λ' {
            token = Token::Lambda;
            next = pos + 1;
        } else if c == 'Π' {
            token = Token::Pi;
            next = pos + 1;
        } else {
            return None;
        }
        let ghost lexeme = token@;
        assert(lex(chars@, here) == before(lexeme, lex(chars@, next as nat)));
        tokens.push(token);
        assert(lexemes(tokens@) =~= done + seq![lexeme]);
        assert forall|rest: Seq<Lexeme>| done + (seq![lexeme] + rest) == (done + seq![lexeme])
            + rest by {
            assert(done + (seq![lexeme] + rest) =~= (done + seq![lexeme]) + rest);
        }
        pos = next;
    }
    assert(lexemes(tokens@) + Seq::<Lexeme>::empty() =~= lexemes(tokens@));
    Some(tokens)
}

/// What a parsing function returns: the expression and the place after it
/// that the grammar gives, and that place lies after `pos`.
pub open spec fn parsed(
    r: Option<(Expr, usize)>,
    expected: Option<(Term, nat)>,
    pos: usize,
    len: nat,
) -> bool {
    match r {
        Some((e, p)) => expected == Some((e@, p as nat)) && pos < p <= len,
        None => expected is None,
    }
}

fn user_name(text: &String) -> (r: Variable)
    ensures
        r@ == Name::User(text@),
{
    Variable::Str(StrVar { name: text.clone() })
}

/// The expression that starts at `pos`, see [`parse_expr`].
fn expr_at(tokens: &Vec<Token>, pos: usize) -> (r: Option<(Expr, usize)>)
    requires
        pos <= tokens.len(),
    ensures
        parsed(r, parse_expr(lexemes(tokens@), pos as nat), pos, tokens@.len()),
    decreases tokens.len() - pos, 3nat,
{
    if pos < tokens.len() {
        let lambda = match &tokens[pos] {
            Token::Lambda => Some(true),
            Token::Pi => Some(false),
            _ => None,
        };
        if let Some(lambda) = lambda {
            if tokens.len() - pos <= 2 {
                return None;
            }
            let x = match &tokens[pos + 1] {
                Token::Ident(text) => user_name(text),
                _ => {
                    return None;
                },
            };
            match &tokens[pos + 2] {
                Token::Colon => {},
                _ => {
                    return None;
                },
            }
            let (ty, p1) = match expr_at(tokens, pos + 3) {
                Some(found) => found,
                None => {
                    return None;
                },
            };
            if p1 >= tokens.len() {
                return None;
            }
            match &tokens[p1] {
                Token::Comma => {},
                _ => {
                    return None;
                },
            }
            let (body, p2) = match expr_at(tokens, p1 + 1) {
                Some(found) => found,
                None => {
                    return None;
                },
            };
            if lambda {
                return Some(
                    (
                        Expr::Lambda(
                            Abstraction {
                                x,
                                t: Box::new(ty),
                                e: Box::new(body),
                                _ty: PhantomData,
                            },
                        ),
                        p2,
                    ),
                );
            } else {
                return Some(
                    (
                        Expr::Pi(
                            Abstraction {
                                x,
                                t: Box::new(ty),
                                e: Box::new(body),
                                _ty: PhantomData,
                            },
                        ),
                        p2,
                    ),
                );
            }
        }
    }
    application_at(tokens, pos)
}

/// The application that starts at `pos`, see [`parse_application`].
fn application_at(tokens: &Vec<Token>, pos: usize) -> (r: Option<(Expr, usize)>)
    requires
        pos <= tokens.len(),
    ensures
        parsed(r, parse_application(lexemes(tokens@), pos as nat), pos, tokens@.len()),
    decreases tokens.len() - pos, 2nat,
{
    let (first, start) = match atom_at(tokens, pos) {
        Some(found) => found,
        None => {
            return None;
        },
    };
    let ghost ts = lexemes(tokens@);
    let mut head = first;
    let mut p = start;
    loop
        invariant
            pos < p <= tokens.len(),
            ts == lexemes(tokens@),
            parse_application(ts, pos as nat) == parse_arguments(ts, p as nat, head@),
        decreases tokens.len() - p,
    {
        if p >= tokens.len() {
            return Some((head, p));
        }
        let more = match &tokens[p] {
            Token::Ident(_) => true,
            Token::Universe(_) => true,
            Token::Open => true,
            _ => false,
        };
        if !more {
            return Some((head, p));
        }
        match atom_at(tokens, p) {
            Some((arg, next)) => {
                head = Expr::App(Application { e1: Box::new(head), e2: Box::new(arg) });
                p = next;
            },
            None => {
                return None;
            },
        }
    }
}

/// The atom at `pos`, see [`parse_atom`].
fn atom_at(tokens: &Vec<Token>, pos: usize) -> (r: Option<(Expr, usize)>)
    requires
        pos <= tokens.len(),
    ensures
        parsed(r, parse_atom(lexemes(tokens@), pos as nat), pos, tokens@.len()),
    decreases tokens.len() - pos, 1nat,
{
    if pos >= tokens.len() {
        return None;
    }
    match &tokens[pos] {
        Token::Ident(text) => Some((Expr::Var(user_name(text)), pos + 1)),
        Token::Universe(level) => Some((Expr::Uni(Universe { level: *level }), pos + 1)),
        Token::Open => {
            match expr_at(tokens, pos + 1) {
                Some((e, p)) => {
                    if p >= tokens.len() {
                        return None;
                    }
                    match &tokens[p] {
                        Token::Close => Some((e, p + 1)),
                        _ => None,
                    }
                },
                None => None,
            }
        },
        _ => None,
    }
}

/// The command that an optional statement stands for.
pub open spec fn command_of(r: Option<Statement>) -> Option<Command> {
    match r {
        Some(s) => Some(s@),
        None => None,
    }
}

/// The statement that the tokens make up, see [`parse_lexemes`].
pub fn parse_tokens(tokens: &Vec<Token>) -> (r: Option<Statement>)
    ensures
        command_of(r) == parse_lexemes(lexemes(tokens@)),
{
    if tokens.len() < 3 {
        return None;
    }
    let name = match &tokens[1] {
        Token::Ident(text) => user_name(text),
        _ => {
            return None;
        },
    };
    let sign_fits = match (&tokens[0], &tokens[2]) {
        (Token::Axiom, Token::Colon) => true,
        (Token::Theorem, Token::Colon) => true,
        (Token::Proof, Token::Define) => true,
        _ => false,
    };
    if !sign_fits {
        return None;
    }
    let (e, p) = match expr_at(tokens, 3) {
        Some(found) => found,
        None => {
            return None;
        },
    };
    if p >= tokens.len() || p + 1 != tokens.len() {
        return None;
    }
    match &tokens[p] {
        Token::Dot => {},
        _ => {
            return None;
        },
    }
    match &tokens[0] {
        Token::Axiom => Some(Statement::Axiom(Axiom { name, typ: e })),
        Token::Theorem => Some(Statement::TH(Theorem { name, typ: e })),
        _ => Some(Statement::PF(Proof { name, value: e })),
    }
}

/// The statement that a line makes up, if it makes up one, see
/// [`parse_line`].
pub fn parse(line: &str) -> (r: Option<Statement>)
    ensures
        command_of(r) == parse_line(line@),
{
    match tokenize(line) {
        Some(tokens) => parse_tokens(&tokens),
        None => None,
    }
}

} // verus!
