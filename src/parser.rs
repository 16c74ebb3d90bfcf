use vstd::prelude::*;
use crate::ast::{view_opt, views, AstNode, Node};
use crate::chars::{digit, letter, push_char, whitespace};
use crate::grammar::{
    digits_len, lemma_run_len_bound, let_keyword, letters_len, parse_args, parse_assignment,
    parse_expression, parse_identifier, parse_number, parse_statement, parse_string, text_len,
    ws_len,
};

verus! {

/// A recursive-descent reader over a source text, with a cursor that only
/// moves forward.
pub struct Parser {
    chars: Vec<char>,
    pos: usize,
}

impl Parser {
    #[verifier::type_invariant]
    spec fn cursor_in_input(self) -> bool {
        self.pos <= self.chars.len()
    }

    /// The whole source text.
    pub closed spec fn text(self) -> Seq<char> {
        self.chars@
    }

    /// How many characters have been consumed.
    pub closed spec fn cursor(self) -> int {
        self.pos as int
    }

    /// A reader at the start of `code`.
    pub fn new(code: &str) -> (r: Parser)
        ensures
            r.text() == code@,
            r.cursor() == 0,
    {
        let mut chars: Vec<char> = Vec::new();
        for c in it: code.chars()
            invariant
                chars@ == it.seq().take(it.index() as int),
        {
            chars.push(c);
        }
        Parser { chars, pos: 0 }
    }

    /// Consumes `c` if it is the next character.
    pub fn expect_char(&mut self, c: char) -> (r: Option<char>)
        ensures
            final(self).text() == old(self).text(),
            final(self).cursor() <= final(self).text().len(),
            ({
                let s = old(self).text();
                let p = old(self).cursor();
                if p < s.len() && s[p] == c {
                    r == Some(c) && final(self).cursor() == p + 1
                } else {
                    r is None && final(self).cursor() == p
                }
            }),
    {
        proof {
            use_type_invariant(&*self);
        }
        if self.pos < self.chars.len() && self.chars[self.pos] == c {
            self.pos = self.pos + 1;
            Some(c)
        } else {
            None
        }
    }

    /// Consumes the run of whitespace at the cursor.
    pub fn skip_whitespace(&mut self)
        ensures
            final(self).text() == old(self).text(),
            final(self).cursor() == old(self).cursor() + ws_len(old(self).text(), old(self).cursor()),
            final(self).cursor() <= final(self).text().len(),
    {
        proof {
            use_type_invariant(&*self);
        }
        let ghost s = self.chars@;
        let ghost p = self.pos as int;
        while self.pos < self.chars.len() && whitespace(self.chars[self.pos])
            invariant
                self.chars@ == s,
                p <= self.pos <= self.chars.len(),
                ws_len(s, p) == (self.pos - p) + ws_len(s, self.pos as int),
            decreases self.chars.len() - self.pos,
        {
            self.pos = self.pos + 1;
        }
    }

    /// One or more ASCII letters.
    pub fn identifier(&mut self) -> (r: Option<AstNode>)
        ensures
            final(self).text() == old(self).text(),
            view_opt(r) == parse_identifier(old(self).text(), old(self).cursor()).0,
            final(self).cursor() == old(self).cursor() + parse_identifier(
                old(self).text(),
                old(self).cursor(),
            ).1,
            final(self).cursor() <= final(self).text().len(),
    {
        proof {
            use_type_invariant(&*self);
        }
        let ghost s = self.chars@;
        let ghost p = self.pos as int;
        let start = self.pos;
        let mut name = String::new();
        while self.pos < self.chars.len() && letter(self.chars[self.pos])
            invariant
                self.chars@ == s,
                p <= self.pos <= self.chars.len(),
                letters_len(s, p) == (self.pos - p) + letters_len(s, self.pos as int),
                name@ == s.subrange(p, self.pos as int),
            decreases self.chars.len() - self.pos,
        {
            push_char(&mut name, self.chars[self.pos]);
            self.pos = self.pos + 1;
        }
        if self.pos == start {
            None
        } else {
            Some(AstNode::Identifier(name))
        }
    }

    /// Moves the run of digits at the cursor onto the end of `buf`.
    fn push_digits(&mut self, buf: &mut String)
        ensures
            final(self).text() == old(self).text(),
            final(self).cursor() == old(self).cursor() + digits_len(old(self).text(), old(self).cursor()),
            final(self).cursor() <= final(self).text().len(),
            final(buf)@ == old(buf)@ + old(self).text().subrange(old(self).cursor(), final(self).cursor()),
    {
        proof {
            use_type_invariant(&*self);
        }
        let ghost s = self.chars@;
        let ghost p = self.pos as int;
        let ghost b0 = buf@;
        while self.pos < self.chars.len() && digit(self.chars[self.pos])
            invariant
                self.chars@ == s,
                p <= self.pos <= self.chars.len(),
                digits_len(s, p) == (self.pos - p) + digits_len(s, self.pos as int),
                buf@ == b0 + s.subrange(p, self.pos as int),
            decreases self.chars.len() - self.pos,
        {
            push_char(buf, self.chars[self.pos]);
            self.pos = self.pos + 1;
            assert(s.subrange(p, self.pos as int) == s.subrange(p, self.pos - 1).push(s[self.pos - 1]));
        }
    }

    /// The longest numeric literal at the cursor, kept as its text: digits,
    /// then optionally a `.` and more digits.
    pub fn number(&mut self) -> (r: Option<AstNode>)
        ensures
            final(self).text() == old(self).text(),
            view_opt(r) == parse_number(old(self).text(), old(self).cursor()).0,
            final(self).cursor() == old(self).cursor() + parse_number(old(self).text(), old(self).cursor()).1,
            final(self).cursor() <= final(self).text().len(),
    {
        proof {
            use_type_invariant(&*self);
        }
        let ghost s = self.chars@;
        let ghost p = self.pos as int;
        let start = self.pos;
        let mut buf = String::new();
        self.push_digits(&mut buf);
        if self.pos > start && self.pos < self.chars.len() && self.chars[self.pos] == '.' {
            push_char(&mut buf, '.');
            self.pos = self.pos + 1;
            self.push_digits(&mut buf);
        }
        if self.pos == start {
            None
        } else {
            assert(buf@ == s.subrange(p, self.pos as int));
            Some(AstNode::Number(buf))
        }
    }

    /// A `"`, then every character up to the next `"`, which is consumed and
    /// dropped; at the end of input the text so far is taken as it is.
    pub fn string(&mut self) -> (r: Option<AstNode>)
        ensures
            final(self).text() == old(self).text(),
            view_opt(r) == parse_string(old(self).text(), old(self).cursor()).0,
            final(self).cursor() == old(self).cursor() + parse_string(old(self).text(), old(self).cursor()).1,
            final(self).cursor() <= final(self).text().len(),
    {
        proof {
            use_type_invariant(&*self);
        }
        let ghost s = self.chars@;
        let ghost p = self.pos as int;
        if self.expect_char('"').is_none() {
            return None;
        }
        proof {
            lemma_run_len_bound(s, p + 1, |c: char| c != '"');
        }
        let mut buf = String::new();
        loop
            invariant_except_break
                p + 1 <= self.pos <= self.chars.len(),
                text_len(s, p + 1) == (self.pos - p - 1) + text_len(s, self.pos as int),
                buf@ == s.subrange(p + 1, self.pos as int),
            invariant
                self.chars@ == s,
                self.pos <= self.chars.len(),
            ensures
                buf@ == s.subrange(p + 1, p + 1 + text_len(s, p + 1)),
                self.pos == p + 1 + text_len(s, p + 1) + if p + 1 + text_len(s, p + 1) < s.len() {
                    1int
                } else {
                    0int
                },
            decreases self.chars.len() - self.pos,
        {
            if self.expect_char('"').is_some() {
                break;
            }
            if self.pos < self.chars.len() {
                push_char(&mut buf, self.chars[self.pos]);
                self.pos = self.pos + 1;
                assert(buf@ == s.subrange(p + 1, self.pos as int));
            } else {
                break;
            }
        }
        Some(AstNode::String(buf))
    }

    /// `<identifier> = <expression>`, with whitespace around each part; the
    /// cursor stands just after a `let`.
    fn assignment(&mut self) -> (r: Option<AstNode>)
        ensures
            final(self).text() == old(self).text(),
            view_opt(r) == parse_assignment(old(self).text(), old(self).cursor()).0,
            final(self).cursor() == old(self).cursor() + parse_assignment(old(self).text(), old(self).cursor()).1,
            final(self).cursor() <= final(self).text().len(),
        decreases self.text().len() - self.cursor(), 1int,
    {
        proof {
            use_type_invariant(&*self);
        }
        self.skip_whitespace();
        let lhs = match self.identifier() {
            Some(l) => l,
            None => return None,
        };
        self.skip_whitespace();
        if self.expect_char('=').is_none() {
            return None;
        }
        self.skip_whitespace();
        let rhs = match self.expression() {
            Some(x) => x,
            None => return None,
        };
        Some(AstNode::Let { lhs: Box::new(lhs), rhs: Box::new(rhs) })
    }

    /// A `let` binding, a call, a variable, a number or a string, each wrapped
    /// in `Expression`.
    pub fn expression(&mut self) -> (r: Option<AstNode>)
        ensures
            final(self).text() == old(self).text(),
            view_opt(r) == parse_expression(old(self).text(), old(self).cursor()).0,
            final(self).cursor() == old(self).cursor() + parse_expression(old(self).text(), old(self).cursor()).1,
            final(self).cursor() <= final(self).text().len(),
        decreases self.text().len() - self.cursor(), 0int,
    {
        proof {
            use_type_invariant(&*self);
        }
        let ghost s = self.chars@;
        let ghost p = self.pos as int;
        self.skip_whitespace();
        let ghost w = self.pos as int;
        match self.identifier() {
            Some(AstNode::Identifier(name)) => {
                if is_let(&name) {
                    match self.assignment() {
                        Some(a) => Some(AstNode::Expression(Box::new(a))),
                        None => None,
                    }
                } else {
                    let ghost e = self.pos as int;
                    self.skip_whitespace();
                    if self.expect_char('(').is_none() {
                        let v = AstNode::Variable(name);
                        assert(v@ == Node::Variable(s.subrange(w, e)));
                        return Some(AstNode::Expression(Box::new(v)));
                    }
                    let ghost start = self.pos as int;
                    let mut args: Vec<AstNode> = Vec::new();
                    loop
                        invariant_except_break
                            parse_args(s, start).0 == views(args@) + parse_args(s, self.pos as int).0,
                            start + parse_args(s, start).1 == self.pos + parse_args(s, self.pos as int).1,
                        invariant
                            self.chars@ == s,
                            s == old(self).chars@,
                            p == old(self).pos,
                            p < start <= self.pos <= self.chars.len(),
                        ensures
                            parse_args(s, start).0 == views(args@),
                            self.pos == start + parse_args(s, start).1,
                        decreases self.chars.len() - self.pos,
                    {
                        let ghost c0 = self.pos as int;
                        match self.expression() {
                            Some(arg) => args.push(arg),
                            None => break,
                        }
                        self.skip_whitespace();
                        if self.expect_char(',').is_none() {
                            break;
                        }
                        self.skip_whitespace();
                        assert(views(args@) =~= views(args@.drop_last()).push(args@.last()@));
                    }
                    if self.expect_char(')').is_none() {
                        return None;
                    }
                    let call = AstNode::FunctionCall { name, args };
                    assert(call@->args =~= views(args@));
                    Some(AstNode::Expression(Box::new(call)))
                }
            },
            _ => {
                if let Some(n) = self.number() {
                    Some(AstNode::Expression(Box::new(n)))
                } else if let Some(t) = self.string() {
                    Some(AstNode::Expression(Box::new(t)))
                } else {
                    None
                }
            },
        }
    }

    /// One statement: an expression, then whitespace and a `;`.
    pub fn statement(&mut self) -> (r: Option<AstNode>)
        ensures
            final(self).text() == old(self).text(),
            view_opt(r) == parse_statement(old(self).text(), old(self).cursor()).0,
            final(self).cursor() == old(self).cursor() + parse_statement(old(self).text(), old(self).cursor()).1,
            final(self).cursor() <= final(self).text().len(),
    {
        let e = match self.expression() {
            Some(e) => e,
            None => return None,
        };
        self.skip_whitespace();
        if self.expect_char(';').is_none() {
            return None;
        }
        Some(AstNode::Statement(Box::new(e)))
    }

    /// The number of characters consumed so far.
    pub fn position(&self) -> (r: usize)
        ensures
            r == self.cursor(),
            r <= self.text().len(),
    {
        proof {
            use_type_invariant(self);
        }
        self.pos
    }
}

/// Whether `name` is the keyword `let`.
fn is_let(name: &String) -> (r: bool)
    ensures
        r == (name@ == let_keyword()),
{
    let t = name.as_str();
    let r = t.unicode_len() == 3 && t.get_char(0) == 'l' && t.get_char(1) == 'e' && t.get_char(2) == 't';
    proof {
        if r {
            assert(name@ =~= let_keyword());
        }
    }
    r
}

} // verus!
