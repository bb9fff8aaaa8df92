//! Statements written out in the surface syntax, and read back: the grammar
//! has a text for every statement that users can write, and reads that text
//! as the statement.
use vstd::prelude::*;
use crate::model::{limit, Binder, Name, Term};
use crate::parser::{
    all_digits, before, decimal, is_digit, is_letter, is_space, is_word_char, lemma_word_end_range,
    lex, parse_application, parse_arguments, parse_atom, parse_expr, parse_lexemes, parse_line,
    starts_atom, word_axiom, word_end, word_lexeme, word_proof, word_theorem, Lexeme,
};
use crate::session::Command;

verus! {

/// The term as an atom: a name, a universe, or the term in brackets.
pub open spec fn show_atom(t: Term) -> Seq<Lexeme>
    decreases t, 1nat,
{
    match t {
        Term::Var(u) => seq![Lexeme::Ident(u.hint())],
        Term::Uni(l) => seq![Lexeme::Universe(l)],
        _ => seq![Lexeme::Open] + show_expr(t) + seq![Lexeme::Close],
    }
}

/// The term as an application: the function, then the argument as an atom.
pub open spec fn show_application(t: Term) -> Seq<Lexeme>
    decreases t, 2nat,
{
    match t {
        Term::App(f, a) => show_application(*f) + show_atom(*a),
        _ => show_atom(t),
    }
}

/// The term as an expression: a binder with its annotation and its body, or
/// an application.
pub open spec fn show_expr(t: Term) -> Seq<Lexeme>
    decreases t, 0nat,
{
    match t {
        Term::Abs(k, x, ty, b) => seq![
            if k is Lambda {
                Lexeme::Lambda
            } else {
                Lexeme::Pi
            },
            Lexeme::Ident(x.hint()),
            Lexeme::Colon,
        ] + show_expr(*ty) + seq![Lexeme::Comma] + show_expr(*b),
        Term::App(f, a) => show_application(*f) + show_atom(*a),
        Term::Var(u) => seq![Lexeme::Ident(u.hint())],
        Term::Uni(l) => seq![Lexeme::Universe(l)],
    }
}

/// The command as a statement.
pub open spec fn show_command(command: Command) -> Seq<Lexeme> {
    match command {
        Command::Axiom(v, typ) => seq![Lexeme::Axiom, Lexeme::Ident(v.hint()), Lexeme::Colon]
            + show_expr(typ) + seq![Lexeme::Dot],
        Command::Theorem(v, typ) => seq![Lexeme::Theorem, Lexeme::Ident(v.hint()), Lexeme::Colon]
            + show_expr(typ) + seq![Lexeme::Dot],
        Command::Proof(v, proof) => seq![Lexeme::Proof, Lexeme::Ident(v.hint()), Lexeme::Define]
            + show_expr(proof) + seq![Lexeme::Dot],
    }
}

/// Whether `part` stands in `ts` from `pos` on.
pub open spec fn stands_at(ts: Seq<Lexeme>, pos: nat, part: Seq<Lexeme>) -> bool {
    &&& pos + part.len() <= ts.len()
    &&& forall|i: int| 0 <= i < part.len() ==> ts[pos + i] == #[trigger] part[i]
}

/// Whether an application that ends before `pos` ends there: what follows is
/// no atom.
pub open spec fn ends_application(ts: Seq<Lexeme>, pos: nat) -> bool {
    pos >= ts.len() || !starts_atom(ts[pos as int])
}

/// What stands somewhere stands there part by part.
proof fn lemma_stands_at_parts(ts: Seq<Lexeme>, pos: nat, first: Seq<Lexeme>, rest: Seq<Lexeme>)
    requires
        stands_at(ts, pos, first + rest),
    ensures
        stands_at(ts, pos, first),
        stands_at(ts, pos + first.len(), rest),
{
    let whole = first + rest;
    assert forall|i: int| 0 <= i < first.len() implies ts[pos + i] == #[trigger] first[i] by {
        assert(whole[i] == first[i]);
    }
    assert forall|i: int| 0 <= i < rest.len() implies ts[pos + first.len() + i]
        == #[trigger] rest[i] by {
        assert(whole[first.len() + i] == rest[i]);
    }
}

/// What is shown is not empty, and what is shown as an application starts
/// like an atom.
proof fn lemma_show_starts(t: Term)
    ensures
        show_atom(t).len() > 0,
        starts_atom(show_atom(t)[0]),
        show_application(t).len() > 0,
        starts_atom(show_application(t)[0]),
        show_expr(t).len() > 0,
        !(t is Abs) ==> starts_atom(show_expr(t)[0]),
    decreases t,
{
    match t {
        Term::App(f, a) => {
            lemma_show_starts(*f);
        },
        _ => {},
    }
}

/// An atom that was written out is read back.
pub proof fn lemma_atom_read_back(t: Term, ts: Seq<Lexeme>, pos: nat)
    requires
        t.written(),
        stands_at(ts, pos, show_atom(t)),
    ensures
        parse_atom(ts, pos) == Some((t, pos + show_atom(t).len())),
    decreases t, 1nat,
{
    let shown = show_atom(t);
    assert(ts[pos + 0 as int] == shown[0]);
    match t {
        Term::Var(_) => {},
        Term::Uni(_) => {},
        _ => {
            let inner = show_expr(t);
            assert(shown =~= seq![Lexeme::Open] + (inner + seq![Lexeme::Close]));
            lemma_stands_at_parts(ts, pos, seq![Lexeme::Open], inner + seq![Lexeme::Close]);
            lemma_stands_at_parts(ts, pos + 1, inner, seq![Lexeme::Close]);
            let close = (pos + 1 + inner.len()) as nat;
            assert(ts[close + 0 as int] == seq![Lexeme::Close][0]);
            lemma_expr_read_back(t, ts, pos + 1);
        },
    }
}

/// An application that was written out is read back as far as it goes: the
/// rest of the line is read as further arguments of it.
proof fn lemma_application_read_on(t: Term, ts: Seq<Lexeme>, pos: nat)
    requires
        t.written(),
        stands_at(ts, pos, show_application(t)),
    ensures
        parse_application(ts, pos) == parse_arguments(ts, pos + show_application(t).len(), t),
    decreases t, 2nat,
{
    match t {
        Term::App(f, a) => {
            lemma_stands_at_parts(ts, pos, show_application(*f), show_atom(*a));
            lemma_application_read_on(*f, ts, pos);
            let p = (pos + show_application(*f).len()) as nat;
            lemma_show_starts(*a);
            assert(ts[p + 0 as int] == show_atom(*a)[0]);
            lemma_atom_read_back(*a, ts, p);
        },
        _ => {
            lemma_atom_read_back(t, ts, pos);
        },
    }
}

/// An expression that was written out is read back, where what follows it is
/// no atom.
#[verifier::rlimit(40)]
pub proof fn lemma_expr_read_back(t: Term, ts: Seq<Lexeme>, pos: nat)
    requires
        t.written(),
        stands_at(ts, pos, show_expr(t)),
        ends_application(ts, pos + show_expr(t).len()),
    ensures
        parse_expr(ts, pos) == Some((t, pos + show_expr(t).len())),
    decreases t, 0nat,
{
    let shown = show_expr(t);
    lemma_show_starts(t);
    assert(ts[pos + 0 as int] == shown[0]);
    match t {
        Term::Abs(k, x, ty, b) => {
            let sign = if k is Lambda {
                Lexeme::Lambda
            } else {
                Lexeme::Pi
            };
            let head = seq![sign, Lexeme::Ident(x.hint()), Lexeme::Colon];
            let tail = show_expr(*ty) + (seq![Lexeme::Comma] + show_expr(*b));
            assert(shown =~= head + tail);
            lemma_stands_at_parts(ts, pos, head, tail);
            lemma_stands_at_parts(ts, pos + 3, show_expr(*ty), seq![Lexeme::Comma] + show_expr(*b));
            let comma = (pos + 3 + show_expr(*ty).len()) as nat;
            lemma_stands_at_parts(ts, comma, seq![Lexeme::Comma], show_expr(*b));
            assert(ts[pos + 0 as int] == head[0]);
            assert(ts[pos + 1 as int] == head[1]);
            assert(ts[pos + 2 as int] == head[2]);
            lemma_show_starts(*b);
            assert(ts[comma + 0 as int] == (seq![Lexeme::Comma] + show_expr(*b))[0]);
            lemma_expr_read_back(*ty, ts, pos + 3);
            lemma_expr_read_back(*b, ts, comma + 1);
            assert(parse_expr(ts, pos + 3) == Some((*ty, comma)));
            assert(ts[comma as int] is Comma);
            assert(parse_expr(ts, comma + 1) == Some((*b, pos + shown.len())));
            assert(x == Name::User(x.hint()));
            assert(ts[pos as int] is Lambda || ts[pos as int] is Pi);
            assert(ts[pos + 1 as int] == Lexeme::Ident(x.hint()));
            assert(ts[pos + 2 as int] is Colon);
        },
        Term::App(f, a) => {
            lemma_stands_at_parts(ts, pos, show_application(*f), show_atom(*a));
            lemma_application_read_on(*f, ts, pos);
            let p = (pos + show_application(*f).len()) as nat;
            lemma_show_starts(*a);
            assert(ts[p + 0 as int] == show_atom(*a)[0]);
            lemma_atom_read_back(*a, ts, p);
            assert(parse_application(ts, pos) == parse_arguments(ts, p, *f));
            assert(parse_arguments(ts, p, *f) == parse_arguments(ts, pos + shown.len(), t));
            assert(parse_arguments(ts, pos + shown.len(), t) == Some((t, pos + shown.len())));
            assert(parse_expr(ts, pos) == parse_application(ts, pos));
        },
        Term::Var(_) => {
            assert(parse_atom(ts, pos) == Some((t, pos + 1)));
            assert(parse_arguments(ts, pos + 1, t) == Some((t, pos + 1)));
        },
        Term::Uni(_) => {
            assert(parse_atom(ts, pos) == Some((t, pos + 1)));
            assert(parse_arguments(ts, pos + 1, t) == Some((t, pos + 1)));
        },
    }
}

/// Whether every name in the command was written by a user.
pub open spec fn command_written(command: Command) -> bool {
    match command {
        Command::Axiom(v, typ) => v is User && typ.written(),
        Command::Theorem(v, typ) => v is User && typ.written(),
        Command::Proof(v, proof) => v is User && proof.written(),
    }
}

/// A statement that was written out in words and signs is read back as the
/// statement that it is.
#[verifier::rlimit(40)]
pub proof fn lemma_command_read_back(command: Command)
    requires
        command_written(command),
    ensures
        parse_lexemes(show_command(command)) == Some(command),
{
    let ts = show_command(command);
    let (v, body) = match command {
        Command::Axiom(v, typ) => (v, typ),
        Command::Theorem(v, typ) => (v, typ),
        Command::Proof(v, proof) => (v, proof),
    };
    let head = ts.subrange(0, 3);
    let tail = show_expr(body) + seq![Lexeme::Dot];
    assert(ts =~= head + tail);
    assert(stands_at(ts, 0, head + tail));
    lemma_stands_at_parts(ts, 0, head, tail);
    lemma_stands_at_parts(ts, 3, show_expr(body), seq![Lexeme::Dot]);
    let dot = (3 + show_expr(body).len()) as nat;
    assert(ts[dot + 0 as int] == seq![Lexeme::Dot][0]);
    lemma_expr_read_back(body, ts, 3);
    assert(ts[1] == Lexeme::Ident(v.hint()));
    assert(v == Name::User(v.hint()));
    assert(parse_expr(ts, 3) == Some((body, dot)));
    assert(dot + 1 == ts.len());
}

/// The digit that writes `d`.
pub open spec fn digit_char(d: nat) -> char {
    if d == 0 {
        '0'
    } else if d == 1 {
        '1'
    } else if d == 2 {
        '2'
    } else if d == 3 {
        '3'
    } else if d == 4 {
        '4'
    } else if d == 5 {
        '5'
    } else if d == 6 {
        '6'
    } else if d == 7 {
        '7'
    } else if d == 8 {
        '8'
    } else {
        '9'
    }
}

/// The digits that write `n` in base ten.
pub open spec fn digits(n: nat) -> Seq<char>
    decreases n,
{
    if n < 10 {
        seq![digit_char(n)]
    } else {
        digits(n / 10).push(digit_char(n % 10))
    }
}

/// The digits of a number write that number.
pub proof fn lemma_digits_write_the_number(n: nat)
    ensures
        digits(n).len() > 0,
        all_digits(digits(n)),
        decimal(digits(n)) == n,
    decreases n,
{
    if n < 10 {
        let s = seq![digit_char(n)];
        assert(s.drop_last() =~= Seq::<char>::empty());
        assert(decimal(s.drop_last()) == 0);
        assert(s.last() == digit_char(n));
    } else {
        lemma_digits_write_the_number(n / 10);
        let s = digits(n / 10).push(digit_char(n % 10));
        assert(s.drop_last() =~= digits(n / 10));
        assert(s.last() == digit_char(n % 10));
        assert forall|i: int| 0 <= i < s.len() implies is_digit(#[trigger] s[i]) by {
            if i < s.len() - 1 {
                assert(s[i] == digits(n / 10)[i]);
            }
        }
    }
}

/// Whether `w` can be written as a name: it starts with a letter or `_`,
/// goes on with letters, digits and `_`, and is neither a word that begins a
/// statement nor a universe.
pub open spec fn is_name(w: Seq<char>) -> bool {
    &&& w.len() > 0
    &&& is_letter(w[0])
    &&& forall|i: int| 0 <= i < w.len() ==> is_word_char(#[trigger] w[i])
    &&& word_lexeme(w) == Some(Lexeme::Ident(w))
}

/// The characters that write a word or a sign.
pub open spec fn lexeme_text(l: Lexeme) -> Seq<char> {
    match l {
        Lexeme::Axiom => word_axiom(),
        Lexeme::Theorem => word_theorem(),
        Lexeme::Proof => word_proof(),
        Lexeme::Lambda => seq!['λ'],
        Lexeme::Pi => seq!['Π'],
        Lexeme::Colon => seq![':'],
        Lexeme::Define => seq![':', '='],
        Lexeme::Comma => seq![','],
        Lexeme::Dot => seq!['.'],
        Lexeme::Open => seq!['('],
        Lexeme::Close => seq![')'],
        Lexeme::Universe(n) => seq!['U'] + digits(n),
        Lexeme::Ident(w) => w,
    }
}

/// Whether the word or sign can be written: a universe within the largest
/// level, a name that is one.
pub open spec fn can_be_written(l: Lexeme) -> bool {
    match l {
        Lexeme::Universe(n) => n <= limit(),
        Lexeme::Ident(w) => is_name(w),
        _ => true,
    }
}

/// The characters that write the words and signs, with a blank after each.
pub open spec fn line_text(ls: Seq<Lexeme>) -> Seq<char>
    decreases ls.len(),
{
    if ls.len() == 0 {
        Seq::empty()
    } else {
        lexeme_text(ls[0]) + seq![' '] + line_text(ls.drop_first())
    }
}

/// Whether `text` stands in `s` from `pos` on, followed by a blank.
pub open spec fn written_at(s: Seq<char>, pos: nat, text: Seq<char>) -> bool {
    &&& pos + text.len() < s.len()
    &&& forall|i: int| 0 <= i < text.len() ==> s[pos + i] == #[trigger] text[i]
    &&& s[pos + text.len() as int] == ' '
}

/// A run of letters, digits and `_` before a blank ends at the blank.
proof fn lemma_word_ends_at_blank(s: Seq<char>, from: nat, to: nat)
    requires
        from <= to < s.len(),
        forall|i: int| from <= i < to ==> is_word_char(#[trigger] s[i]),
        s[to as int] == ' ',
    ensures
        word_end(s, from) == to,
    decreases to - from,
{
    if from < to {
        lemma_word_ends_at_blank(s, from + 1, to);
    }
}

/// A word that was written out is read back.
proof fn lemma_word_read_back(s: Seq<char>, pos: nat, l: Lexeme)
    requires
        l is Axiom || l is Theorem || l is Proof || l is Universe || l is Ident,
        can_be_written(l),
        written_at(s, pos, lexeme_text(l)),
    ensures
        lex(s, pos) == before(l, lex(s, pos + lexeme_text(l).len() + 1)),
{
    let text = lexeme_text(l);
    let end = (pos + text.len()) as nat;
    match l {
        Lexeme::Universe(n) => {
            lemma_digits_write_the_number(n);
            assert(text[0] == 'U');
            assert(text.subrange(1, text.len() as int) =~= digits(n));
            assert forall|i: int| 0 <= i < text.len() implies is_word_char(#[trigger] text[i]) by {
                if i > 0 {
                    assert(text[i] == digits(n)[i - 1]);
                }
            }
            assert(text != word_axiom()) by {
                assert(word_axiom()[0] == 'a');
            }
            assert(text != word_theorem()) by {
                assert(word_theorem()[0] == 't');
            }
            assert(text != word_proof()) by {
                assert(word_proof()[0] == 'p');
            }
        },
        Lexeme::Axiom => {
            assert(text[0] == 'a' && text[1] == 'x' && text[2] == 'i' && text[3] == 'o' && text[4]
                == 'm');
        },
        Lexeme::Theorem => {
            assert(text[0] == 't' && text[1] == 'h' && text[2] == 'e' && text[3] == 'o' && text[4]
                == 'r' && text[5] == 'e' && text[6] == 'm');
            assert(text != word_axiom());
        },
        Lexeme::Proof => {
            assert(text[0] == 'p' && text[1] == 'r' && text[2] == 'o' && text[3] == 'o' && text[4]
                == 'f');
            assert(text != word_axiom()) by {
                assert(word_axiom()[0] == 'a');
            }
            assert(text != word_theorem());
        },
        _ => {},
    }
    assert(word_lexeme(text) == Some(l));
    assert(text.len() > 0 && is_letter(text[0]));
    assert(s[pos + 0 as int] == text[0]);
    assert forall|i: int| pos + 1 <= i < end implies is_word_char(#[trigger] s[i]) by {
        assert(s[pos + (i - pos)] == text[i - pos]);
    }
    lemma_word_ends_at_blank(s, pos + 1, end);
    assert(s.subrange(pos as int, end as int) =~= text);
    assert(is_space(s[end as int]));
    assert(lex(s, end) == lex(s, end + 1));
}

/// A sign that was written out is read back.
proof fn lemma_sign_read_back(s: Seq<char>, pos: nat, l: Lexeme)
    requires
        !(l is Axiom || l is Theorem || l is Proof || l is Universe || l is Ident),
        written_at(s, pos, lexeme_text(l)),
    ensures
        lex(s, pos) == before(l, lex(s, pos + lexeme_text(l).len() + 1)),
{
    let text = lexeme_text(l);
    let end = (pos + text.len()) as nat;
    assert(s[pos + 0 as int] == text[0]);
    assert(is_space(s[end as int]));
    assert(lex(s, end) == lex(s, end + 1));
    match l {
        Lexeme::Define => {
            assert(s[pos + 1 as int] == text[1]);
        },
        _ => {},
    }
}

/// Words and signs that were written out are read back.
pub proof fn lemma_line_read_back(ls: Seq<Lexeme>, s: Seq<char>, pos: nat)
    requires
        forall|i: int| 0 <= i < ls.len() ==> can_be_written(#[trigger] ls[i]),
        pos + line_text(ls).len() == s.len(),
        forall|i: int| 0 <= i < line_text(ls).len() ==> s[pos + i] == #[trigger] line_text(ls)[i],
    ensures
        lex(s, pos) == Some(ls),
    decreases ls.len(),
{
    if ls.len() == 0 {
        assert(ls =~= Seq::<Lexeme>::empty());
    } else {
        let l = ls[0];
        let text = lexeme_text(l);
        let rest = ls.drop_first();
        let whole = line_text(ls);
        assert(whole == text + seq![' '] + line_text(rest));
        let next = (pos + text.len() + 1) as nat;
        assert forall|i: int| 0 <= i < text.len() implies s[pos + i] == #[trigger] text[i] by {
            assert(whole[i] == text[i]);
        }
        assert(s[pos + text.len() as int] == ' ') by {
            assert(whole[text.len() as int] == ' ');
        }
        assert forall|i: int| 0 <= i < line_text(rest).len() implies s[next + i]
            == #[trigger] line_text(rest)[i] by {
            assert(whole[text.len() + 1 + i] == line_text(rest)[i]);
        }
        assert forall|i: int| 0 <= i < rest.len() implies can_be_written(#[trigger] rest[i]) by {
            assert(rest[i] == ls[i + 1]);
        }
        lemma_line_read_back(rest, s, next);
        if l is Axiom || l is Theorem || l is Proof || l is Universe || l is Ident {
            lemma_word_read_back(s, pos, l);
        } else {
            lemma_sign_read_back(s, pos, l);
        }
        assert(seq![l] + rest =~= ls);
    }
}

/// Whether the term can be written in the surface syntax: its names are
/// names that a user can write, and its universes are within the largest
/// level.
pub open spec fn printable(t: Term) -> bool
    decreases t,
{
    match t {
        Term::Var(u) => u is User && is_name(u.hint()),
        Term::Uni(l) => l <= limit(),
        Term::App(f, a) => printable(*f) && printable(*a),
        Term::Abs(_, x, ty, b) => x is User && is_name(x.hint()) && printable(*ty) && printable(
            *b,
        ),
    }
}

/// Whether the command can be written in the surface syntax.
pub open spec fn command_printable(command: Command) -> bool {
    match command {
        Command::Axiom(v, typ) => v is User && is_name(v.hint()) && printable(typ),
        Command::Theorem(v, typ) => v is User && is_name(v.hint()) && printable(typ),
        Command::Proof(v, proof) => v is User && is_name(v.hint()) && printable(proof),
    }
}

/// Whether each of the words and signs can be written.
pub open spec fn all_can_be_written(ls: Seq<Lexeme>) -> bool {
    forall|i: int| 0 <= i < ls.len() ==> can_be_written(#[trigger] ls[i])
}

/// Words and signs that can be written can be written one after the other.
proof fn lemma_joined_can_be_written(a: Seq<Lexeme>, b: Seq<Lexeme>)
    requires
        all_can_be_written(a),
        all_can_be_written(b),
    ensures
        all_can_be_written(a + b),
{
    assert forall|i: int| 0 <= i < (a + b).len() implies can_be_written(#[trigger] (a + b)[i]) by {
        if i < a.len() {
            assert((a + b)[i] == a[i]);
        } else {
            assert((a + b)[i] == b[i - a.len()]);
        }
    }
}

/// A term that can be written is shown in words and signs that can be
/// written, and is a term of user names.
pub proof fn lemma_shown_can_be_written(t: Term)
    requires
        printable(t),
    ensures
        t.written(),
        all_can_be_written(show_atom(t)),
        all_can_be_written(show_application(t)),
        all_can_be_written(show_expr(t)),
    decreases t,
{
    match t {
        Term::Var(_) => {},
        Term::Uni(_) => {},
        Term::App(f, a) => {
            lemma_shown_can_be_written(*f);
            lemma_shown_can_be_written(*a);
            lemma_joined_can_be_written(show_application(*f), show_atom(*a));
            lemma_joined_can_be_written(seq![Lexeme::Open], show_expr(t));
            lemma_joined_can_be_written(seq![Lexeme::Open] + show_expr(t), seq![Lexeme::Close]);
        },
        Term::Abs(k, x, ty, b) => {
            lemma_shown_can_be_written(*ty);
            lemma_shown_can_be_written(*b);
            let sign = if k is Lambda {
                Lexeme::Lambda
            } else {
                Lexeme::Pi
            };
            let head = seq![sign, Lexeme::Ident(x.hint()), Lexeme::Colon];
            lemma_joined_can_be_written(head, show_expr(*ty));
            lemma_joined_can_be_written(head + show_expr(*ty), seq![Lexeme::Comma]);
            lemma_joined_can_be_written(
                head + show_expr(*ty) + seq![Lexeme::Comma],
                show_expr(*b),
            );
            lemma_joined_can_be_written(seq![Lexeme::Open], show_expr(t));
            lemma_joined_can_be_written(seq![Lexeme::Open] + show_expr(t), seq![Lexeme::Close]);
        },
    }
}

/// Every statement that can be written has a text, and the text is read
/// back as the statement.
pub proof fn lemma_statement_read_back(command: Command)
    requires
        command_printable(command),
    ensures
        parse_line(line_text(show_command(command))) == Some(command),
{
    let (v, body) = match command {
        Command::Axiom(v, typ) => (v, typ),
        Command::Theorem(v, typ) => (v, typ),
        Command::Proof(v, proof) => (v, proof),
    };
    let ls = show_command(command);
    lemma_shown_can_be_written(body);
    let head = ls.subrange(0, 3);
    assert(ls =~= head + show_expr(body) + seq![Lexeme::Dot]);
    assert(all_can_be_written(head));
    lemma_joined_can_be_written(head, show_expr(body));
    lemma_joined_can_be_written(head + show_expr(body), seq![Lexeme::Dot]);
    lemma_line_read_back(ls, line_text(ls), 0);
    lemma_command_read_back(command);
}

} // verus!
