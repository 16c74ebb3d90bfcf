//! The grammar as spec functions over the input `s` and a cursor `p`.
//!
//! Each rule gives what it produces (`None` for no match) and how many
//! characters it consumes, on a match and on a failure alike.
use vstd::prelude::*;
use crate::ast::Node;
use crate::chars::{is_digit, is_letter, is_space};

verus! {

/// Length of the run of characters satisfying `f` that starts at `p`.
pub open spec fn run_len(s: Seq<char>, p: int, f: spec_fn(char) -> bool) -> nat
    decreases s.len() - p,
{
    if 0 <= p < s.len() && f(s[p]) {
        1 + run_len(s, p + 1, f)
    } else {
        0
    }
}

pub open spec fn ws_len(s: Seq<char>, p: int) -> nat {
    run_len(s, p, |c: char| is_space(c))
}

pub open spec fn letters_len(s: Seq<char>, p: int) -> nat {
    run_len(s, p, |c: char| is_letter(c))
}

pub open spec fn digits_len(s: Seq<char>, p: int) -> nat {
    run_len(s, p, |c: char| is_digit(c))
}

/// Characters up to (not including) the next `"` or the end of input.
pub open spec fn text_len(s: Seq<char>, p: int) -> nat {
    run_len(s, p, |c: char| c != '"')
}

/// Length of the numeric literal at `p`: digits, then optionally a `.` and more
/// digits. These are the texts on which every non-empty prefix is a valid
/// floating-point literal, so the greedy scan stops right after them.
pub open spec fn number_len(s: Seq<char>, p: int) -> nat {
    let d = digits_len(s, p);
    if d > 0 && p + d < s.len() && s[p + d] == '.' {
        d + 1 + digits_len(s, p + d + 1)
    } else {
        d
    }
}

pub open spec fn let_keyword() -> Seq<char> {
    seq!['l', 'e', 't']
}

pub open spec fn wrap(n: Option<Node>) -> Option<Node> {
    match n {
        Some(x) => Some(Node::Expression(Box::new(x))),
        None => None,
    }
}

pub open spec fn parse_identifier(s: Seq<char>, p: int) -> (Option<Node>, nat) {
    let n = letters_len(s, p);
    if n > 0 {
        (Some(Node::Identifier(s.subrange(p, p + n))), n)
    } else {
        (None, 0)
    }
}

pub open spec fn parse_number(s: Seq<char>, p: int) -> (Option<Node>, nat) {
    let n = number_len(s, p);
    if n > 0 {
        (Some(Node::Number(s.subrange(p, p + n))), n)
    } else {
        (None, 0)
    }
}

/// An opening `"`, the text up to the closing `"` or the end of input, and
/// the closing `"` if there is one.
pub open spec fn parse_string(s: Seq<char>, p: int) -> (Option<Node>, nat) {
    if 0 <= p < s.len() && s[p] == '"' {
        let n = text_len(s, p + 1);
        let close: nat = if p + 1 + n < s.len() {
            1
        } else {
            0
        };
        (Some(Node::Str(s.subrange(p + 1, p + 1 + n))), 1 + n + close)
    } else {
        (None, 0)
    }
}

pub proof fn lemma_run_len_bound(s: Seq<char>, p: int, f: spec_fn(char) -> bool)
    ensures
        p <= s.len() ==> p + run_len(s, p, f) <= s.len(),
        run_len(s, p, f) > 0 ==> 0 <= p < s.len(),
    decreases s.len() - p,
{
    if 0 <= p < s.len() && f(s[p]) {
        lemma_run_len_bound(s, p + 1, f);
    }
}

/// `let <identifier> = <expression>`, from just after the `let`.
pub open spec fn parse_assignment(s: Seq<char>, p: int) -> (Option<Node>, nat)
    decreases s.len() - p, 1int,
{
    let w = p + ws_len(s, p);
    let (id, k) = parse_identifier(s, w);
    match id {
        None => (None, (w - p) as nat),
        Some(lhs) => {
            let e = w + k;
            let c = e + ws_len(s, e);
            if c < s.len() && s[c] == '=' {
                let r = c + 1 + ws_len(s, c + 1);
                proof {
                    lemma_run_len_bound(s, c + 1, |c: char| is_space(c));
                }
                let (rhs, j) = parse_expression(s, r);
                match rhs {
                    Some(x) => (Some(Node::Let { lhs: Box::new(lhs), rhs: Box::new(x) }), (r + j - p) as nat),
                    None => (None, (r + j - p) as nat),
                }
            } else {
                (None, (c - p) as nat)
            }
        },
    }
}

/// The arguments of a call, from just after the `(` or a `,`: expressions
/// separated by commas, ending at the first failed expression or missing comma.
pub open spec fn parse_args(s: Seq<char>, p: int) -> (Seq<Node>, nat)
    decreases s.len() - p, 1int,
{
    let (a, k) = parse_expression(s, p);
    match a {
        None => (Seq::empty(), k),
        Some(n) => {
            let q = p + k;
            let c = q + ws_len(s, q);
            if c < s.len() && s[c] == ',' {
                let r = c + 1 + ws_len(s, c + 1);
                proof {
                    lemma_run_len_bound(s, c + 1, |c: char| is_space(c));
                }
                let (rest, j) = parse_args(s, r);
                (seq![n] + rest, (r + j - p) as nat)
            } else {
                (seq![n], (c - p) as nat)
            }
        },
    }
}

pub open spec fn parse_expression(s: Seq<char>, p: int) -> (Option<Node>, nat)
    decreases s.len() - p, 0int,
{
    let w = p + ws_len(s, p);
    let n = letters_len(s, w);
    if n > 0 {
        let e = w + n;
        let name = s.subrange(w, e);
        proof {
            lemma_run_len_bound(s, p, |c: char| is_space(c));
            lemma_run_len_bound(s, w, |c: char| is_letter(c));
        }
        if name == let_keyword() {
            let (a, k) = parse_assignment(s, e);
            (wrap(a), (e + k - p) as nat)
        } else {
            let v = e + ws_len(s, e);
            if v < s.len() && s[v] == '(' {
                let (args, k) = parse_args(s, v + 1);
                let q = v + 1 + k;
                if q < s.len() && s[q] == ')' {
                    (
                        Some(Node::Expression(Box::new(Node::FunctionCall { name, args }))),
                        (q + 1 - p) as nat,
                    )
                } else {
                    (None, (q - p) as nat)
                }
            } else {
                (Some(Node::Expression(Box::new(Node::Variable(name)))), (v - p) as nat)
            }
        }
    } else if parse_number(s, w).0 is Some {
        (wrap(parse_number(s, w).0), (w + parse_number(s, w).1 - p) as nat)
    } else if parse_string(s, w).0 is Some {
        (wrap(parse_string(s, w).0), (w + parse_string(s, w).1 - p) as nat)
    } else {
        (None, (w - p) as nat)
    }
}

/// An expression, then optional whitespace and a `;`.
pub open spec fn parse_statement(s: Seq<char>, p: int) -> (Option<Node>, nat) {
    let (e, k) = parse_expression(s, p);
    match e {
        None => (None, k),
        Some(x) => {
            let q = p + k;
            let c = q + ws_len(s, q);
            if c < s.len() && s[c] == ';' {
                (Some(Node::Statement(Box::new(x))), (c + 1 - p) as nat)
            } else {
                (None, (c - p) as nat)
            }
        },
    }
}

pub proof fn lemma_run_len_exact(s: Seq<char>, p: int, e: int, f: spec_fn(char) -> bool)
    requires
        0 <= p <= e <= s.len(),
        forall|i: int| p <= i < e ==> f(s[i]),
        e == s.len() || !f(s[e]),
    ensures
        run_len(s, p, f) == e - p,
    decreases e - p,
{
    if p < e {
        lemma_run_len_exact(s, p + 1, e, f);
    }
}

/// Every character of `t` is a decimal digit.
pub open spec fn all_digits(t: Seq<char>) -> bool {
    forall|i: int| 0 <= i < t.len() ==> is_digit(#[trigger] t[i])
}

/// A run of letters followed by a non-letter, or by the end of input, is read
/// as an identifier holding exactly that run, and nothing after it is consumed.
pub proof fn lemma_identifier_takes_letter_run(s: Seq<char>, p: int, e: int)
    requires
        0 <= p < e <= s.len(),
        forall|i: int| p <= i < e ==> is_letter(#[trigger] s[i]),
        e == s.len() || !is_letter(s[e]),
    ensures
        parse_identifier(s, p) == (Some(Node::Identifier(s.subrange(p, e))), (e - p) as nat),
{
    lemma_run_len_exact(s, p, e, |c: char| is_letter(c));
}

/// A quoted text without an inner `"` is read as a string holding exactly
/// that text, and the cursor stops just after the closing quote.
pub proof fn lemma_string_takes_quoted_text(text: Seq<char>, rest: Seq<char>)
    requires
        forall|i: int| 0 <= i < text.len() ==> #[trigger] text[i] != '"',
    ensures
        parse_string(seq!['"'] + text + seq!['"'] + rest, 0) == (
            Some(Node::Str(text)),
            text.len() + 2,
        ),
{
    let s = seq!['"'] + text + seq!['"'] + rest;
    let e = 1 + text.len() as int;
    assert(forall|i: int| 1 <= i < e ==> s[i] == text[i - 1]);
    lemma_run_len_exact(s, 1, e, |c: char| c != '"');
    assert(s.subrange(1, e) =~= text);
}

/// A literal of digits, optionally followed by a `.` and more digits, is read
/// whole as a number holding its text when the next character cannot extend
/// it; the cursor stops before that character.
pub proof fn lemma_number_takes_literal(
    whole: Seq<char>,
    fraction: Option<Seq<char>>,
    rest: Seq<char>,
)
    requires
        whole.len() > 0,
        all_digits(whole),
        fraction matches Some(f) ==> all_digits(f),
        rest.len() > 0 ==> !is_digit(rest[0]),
        rest.len() > 0 && fraction is None ==> rest[0] != '.',
    ensures
        ({
            let lit = match fraction {
                Some(f) => whole + seq!['.'] + f,
                None => whole,
            };
            parse_number(lit + rest, 0) == (Some(Node::Number(lit)), lit.len())
        }),
{
    let lit = match fraction {
        Some(f) => whole + seq!['.'] + f,
        None => whole,
    };
    let s = lit + rest;
    let d = whole.len() as int;
    assert(forall|i: int| 0 <= i < d ==> s[i] == whole[i]);
    match fraction {
        Some(f) => {
            assert(s[d] == '.');
            lemma_run_len_exact(s, 0, d, |c: char| is_digit(c));
            assert(forall|i: int| d + 1 <= i < lit.len() ==> s[i] == f[i - d - 1]);
            lemma_run_len_exact(s, d + 1, lit.len() as int, |c: char| is_digit(c));
        },
        None => {
            lemma_run_len_exact(s, 0, d, |c: char| is_digit(c));
        },
    }
    assert(s.subrange(0, lit.len() as int) =~= lit);
}

/// Without a `;` at or after the cursor no statement is read.
pub proof fn lemma_statement_needs_terminator(s: Seq<char>, p: int)
    requires
        forall|i: int| p <= i < s.len() ==> s[i] != ';',
    ensures
        parse_statement(s, p).0 is None,
{
}

/// Once the input is consumed, reading a statement finds none and consumes
/// nothing, so every later attempt finds none either.
pub proof fn lemma_exhausted_input(s: Seq<char>)
    ensures
        parse_statement(s, s.len() as int) == (None::<Node>, 0nat),
{
    let n = s.len() as int;
    assert(ws_len(s, n) == 0);
    assert(letters_len(s, n) == 0);
    assert(digits_len(s, n) == 0);
}

/// A `let` binding always binds an identifier.
pub proof fn lemma_let_binds_identifier(s: Seq<char>, p: int)
    ensures
        parse_assignment(s, p).0 matches Some(n) ==> n matches Node::Let { lhs, .. } && *lhs matches Node::Identifier(_),
{
}

/// A statement is a `Statement` around an `Expression`.
pub proof fn lemma_statement_shape(s: Seq<char>, p: int)
    ensures
        parse_statement(s, p).0 matches Some(st) ==> st matches Node::Statement(e) && *e matches Node::Expression(_),
{
}

} // verus!
