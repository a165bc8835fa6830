//! Recursive-descent parser producing the syntax tree.
//!
//! Every parsing routine spends one unit of the parser's step budget, which
//! bounds the work done on any input.
use crate::ast::{
    Argument, ArrayElement, AssignOp, BinaryOp, Declarator, EnumMember, Expression, ForInit, FunctionBody,
    FunctionDef, LogicalOp, MemberProp, ObjectMember, ObjectPatternProp, Param, Pattern,
    PatternElem, Program, PropName, Statement, SwitchCase, UnaryOp, VarKind,
};
use crate::lexer::{syntax_error, tokenize, TokKind, Token};
use crate::number::chars_of;
use crate::value::{chars_equal, copy_chars, JsError};
use std::rc::Rc;
use vstd::prelude::*;

verus! {

/// Step budget for parsing one program.
pub const PARSE_FUEL: u64 = 50000000;

pub struct Parser {
    pub toks: Vec<Token>,
    pub pos: usize,
    pub fuel: u64,
}

/// The text equals the literal.
pub fn text_is(t: &Vec<char>, s: &str) -> (b: bool)
    ensures
        b == (t@ == s@),
{
    let c = chars_of(s);
    chars_equal(t.as_slice(), c.as_slice())
}

/// The binding power and operator of a binary operator token.
pub open spec fn binary_op_spec(kind: TokKind, t: Seq<char>) -> Option<(u32, BinaryOp)> {
    if kind == TokKind::Ident {
        if t == "instanceof"@ {
            Some((8, BinaryOp::InstanceOf))
        } else if t == "in"@ {
            Some((8, BinaryOp::In))
        } else {
            None
        }
    } else if kind != TokKind::Punct {
        None
    } else if t == "|"@ {
        Some((4, BinaryOp::BitOr))
    } else if t == "^"@ {
        Some((5, BinaryOp::BitXor))
    } else if t == "&"@ {
        Some((6, BinaryOp::BitAnd))
    } else if t == "=="@ {
        Some((7, BinaryOp::Eq))
    } else if t == "!="@ {
        Some((7, BinaryOp::NotEq))
    } else if t == "==="@ {
        Some((7, BinaryOp::StrictEq))
    } else if t == "!=="@ {
        Some((7, BinaryOp::StrictNotEq))
    } else if t == "<"@ {
        Some((8, BinaryOp::Lt))
    } else if t == ">"@ {
        Some((8, BinaryOp::Gt))
    } else if t == "<="@ {
        Some((8, BinaryOp::LtEq))
    } else if t == ">="@ {
        Some((8, BinaryOp::GtEq))
    } else if t == "<<"@ {
        Some((9, BinaryOp::Shl))
    } else if t == ">>"@ {
        Some((9, BinaryOp::Shr))
    } else if t == ">>>"@ {
        Some((9, BinaryOp::UShr))
    } else if t == "+"@ {
        Some((10, BinaryOp::Add))
    } else if t == "-"@ {
        Some((10, BinaryOp::Sub))
    } else if t == "*"@ {
        Some((11, BinaryOp::Mul))
    } else if t == "/"@ {
        Some((11, BinaryOp::Div))
    } else if t == "%"@ {
        Some((11, BinaryOp::Mod))
    } else if t == "**"@ {
        Some((12, BinaryOp::Exp))
    } else {
        None
    }
}

/// Binding power of a binary operator token, with the operator.
fn binary_op_of(t: &Token) -> (r: Option<(u32, BinaryOp)>)
    ensures
        r matches Some((p, _)) ==> 3 <= p <= 12,
        r == binary_op_spec(t.kind, t.text@),
{
    if t.kind == TokKind::Ident {
        if text_is(&t.text, "instanceof") {
            return Some((8, BinaryOp::InstanceOf));
        }
        if text_is(&t.text, "in") {
            return Some((8, BinaryOp::In));
        }
        return None;
    }
    if t.kind != TokKind::Punct {
        return None;
    }
    let x = &t.text;
    if text_is(x, "|") {
        Some((4, BinaryOp::BitOr))
    } else if text_is(x, "^") {
        Some((5, BinaryOp::BitXor))
    } else if text_is(x, "&") {
        Some((6, BinaryOp::BitAnd))
    } else if text_is(x, "==") {
        Some((7, BinaryOp::Eq))
    } else if text_is(x, "!=") {
        Some((7, BinaryOp::NotEq))
    } else if text_is(x, "===") {
        Some((7, BinaryOp::StrictEq))
    } else if text_is(x, "!==") {
        Some((7, BinaryOp::StrictNotEq))
    } else if text_is(x, "<") {
        Some((8, BinaryOp::Lt))
    } else if text_is(x, ">") {
        Some((8, BinaryOp::Gt))
    } else if text_is(x, "<=") {
        Some((8, BinaryOp::LtEq))
    } else if text_is(x, ">=") {
        Some((8, BinaryOp::GtEq))
    } else if text_is(x, "<<") {
        Some((9, BinaryOp::Shl))
    } else if text_is(x, ">>") {
        Some((9, BinaryOp::Shr))
    } else if text_is(x, ">>>") {
        Some((9, BinaryOp::UShr))
    } else if text_is(x, "+") {
        Some((10, BinaryOp::Add))
    } else if text_is(x, "-") {
        Some((10, BinaryOp::Sub))
    } else if text_is(x, "*") {
        Some((11, BinaryOp::Mul))
    } else if text_is(x, "/") {
        Some((11, BinaryOp::Div))
    } else if text_is(x, "%") {
        Some((11, BinaryOp::Mod))
    } else if text_is(x, "**") {
        Some((12, BinaryOp::Exp))
    } else {
        None
    }
}

/// The assignment operator a token denotes.
pub open spec fn assign_op_spec(kind: TokKind, t: Seq<char>) -> Option<AssignOp> {
    if kind != TokKind::Punct {
        None
    } else if t == "="@ {
        Some(AssignOp::Assign)
    } else if t == "+="@ {
        Some(AssignOp::Compound(BinaryOp::Add))
    } else if t == "-="@ {
        Some(AssignOp::Compound(BinaryOp::Sub))
    } else if t == "*="@ {
        Some(AssignOp::Compound(BinaryOp::Mul))
    } else if t == "/="@ {
        Some(AssignOp::Compound(BinaryOp::Div))
    } else if t == "%="@ {
        Some(AssignOp::Compound(BinaryOp::Mod))
    } else if t == "**="@ {
        Some(AssignOp::Compound(BinaryOp::Exp))
    } else if t == "&="@ {
        Some(AssignOp::Compound(BinaryOp::BitAnd))
    } else if t == "|="@ {
        Some(AssignOp::Compound(BinaryOp::BitOr))
    } else if t == "^="@ {
        Some(AssignOp::Compound(BinaryOp::BitXor))
    } else if t == "<<="@ {
        Some(AssignOp::Compound(BinaryOp::Shl))
    } else if t == ">>="@ {
        Some(AssignOp::Compound(BinaryOp::Shr))
    } else if t == ">>>="@ {
        Some(AssignOp::Compound(BinaryOp::UShr))
    } else if t == "&&="@ {
        Some(AssignOp::AndAssign)
    } else if t == "||="@ {
        Some(AssignOp::OrAssign)
    } else if t == "??="@ {
        Some(AssignOp::NullishAssign)
    } else {
        None
    }
}

/// The assignment operator a token denotes.
fn assign_op_of(t: &Token) -> (r: Option<AssignOp>)
    ensures
        r == assign_op_spec(t.kind, t.text@),
{
    if t.kind != TokKind::Punct {
        return None;
    }
    let x = &t.text;
    if text_is(x, "=") {
        Some(AssignOp::Assign)
    } else if text_is(x, "+=") {
        Some(AssignOp::Compound(BinaryOp::Add))
    } else if text_is(x, "-=") {
        Some(AssignOp::Compound(BinaryOp::Sub))
    } else if text_is(x, "*=") {
        Some(AssignOp::Compound(BinaryOp::Mul))
    } else if text_is(x, "/=") {
        Some(AssignOp::Compound(BinaryOp::Div))
    } else if text_is(x, "%=") {
        Some(AssignOp::Compound(BinaryOp::Mod))
    } else if text_is(x, "**=") {
        Some(AssignOp::Compound(BinaryOp::Exp))
    } else if text_is(x, "&=") {
        Some(AssignOp::Compound(BinaryOp::BitAnd))
    } else if text_is(x, "|=") {
        Some(AssignOp::Compound(BinaryOp::BitOr))
    } else if text_is(x, "^=") {
        Some(AssignOp::Compound(BinaryOp::BitXor))
    } else if text_is(x, "<<=") {
        Some(AssignOp::Compound(BinaryOp::Shl))
    } else if text_is(x, ">>=") {
        Some(AssignOp::Compound(BinaryOp::Shr))
    } else if text_is(x, ">>>=") {
        Some(AssignOp::Compound(BinaryOp::UShr))
    } else if text_is(x, "&&=") {
        Some(AssignOp::AndAssign)
    } else if text_is(x, "||=") {
        Some(AssignOp::OrAssign)
    } else if text_is(x, "??=") {
        Some(AssignOp::NullishAssign)
    } else {
        None
    }
}

/// Words that cannot name a variable.
pub open spec fn reserved_word(t: Seq<char>) -> bool {
    t == "var"@
        || t == "let"@
        || t == "const"@
        || t == "function"@
        || t == "return"@
        || t == "if"@
        || t == "else"@
        || t == "for"@
        || t == "while"@
        || t == "do"@
        || t == "break"@
        || t == "continue"@
        || t == "throw"@
        || t == "try"@
        || t == "catch"@
        || t == "finally"@
        || t == "switch"@
        || t == "case"@
        || t == "default"@
        || t == "new"@
        || t == "typeof"@
        || t == "void"@
        || t == "delete"@
        || t == "this"@
        || t == "null"@
        || t == "true"@
        || t == "false"@
        || t == "in"@
        || t == "instanceof"@
        || t == "class"@
}

/// Whether `t` is a reserved word.
fn is_reserved(t: &Vec<char>) -> (r: bool)
    ensures
        r == reserved_word(t@),
{
    text_is(t, "var") || text_is(t, "let") || text_is(t, "const") || text_is(t, "function")
        || text_is(t, "return") || text_is(t, "if") || text_is(t, "else") || text_is(t, "for")
        || text_is(t, "while") || text_is(t, "do") || text_is(t, "break") || text_is(t, "continue")
        || text_is(t, "throw") || text_is(t, "try") || text_is(t, "catch") || text_is(t, "finally")
        || text_is(t, "switch") || text_is(t, "case") || text_is(t, "default") || text_is(t, "new")
        || text_is(t, "typeof") || text_is(t, "void") || text_is(t, "delete") || text_is(t, "this")
        || text_is(t, "null") || text_is(t, "true") || text_is(t, "false") || text_is(t, "in")
        || text_is(t, "instanceof") || text_is(t, "class")
}

/// The token is the punctuator `s`.
pub open spec fn is_punct_tok(t: Token, s: Seq<char>) -> bool {
    t.kind == TokKind::Punct && t.text@ == s
}

/// The token ends a type annotation at nesting depth zero.
pub open spec fn ends_type(t: Token) -> bool {
    ||| is_punct_tok(t, ","@)
    ||| is_punct_tok(t, ")"@)
    ||| is_punct_tok(t, "="@)
    ||| is_punct_tok(t, ";"@)
    ||| is_punct_tok(t, "=>"@)
    ||| is_punct_tok(t, "{"@)
    ||| is_punct_tok(t, "}"@)
    ||| is_punct_tok(t, "]"@)
}

/// The nesting depth of a type annotation after token `t`.
pub open spec fn type_depth_after(t: Token, depth: int) -> int {
    if is_punct_tok(t, "("@) || is_punct_tok(t, "["@) || is_punct_tok(t, "<"@) || is_punct_tok(t, "{"@) {
        if depth < 1000000 {
            depth + 1
        } else {
            depth
        }
    } else if is_punct_tok(t, ")"@) || is_punct_tok(t, "]"@) || is_punct_tok(t, ">"@) || is_punct_tok(
        t,
        "}"@,
    ) {
        if depth > 0 {
            depth - 1
        } else {
            0
        }
    } else if is_punct_tok(t, ">>"@) {
        if depth > 2 {
            depth - 2
        } else {
            0
        }
    } else {
        depth
    }
}

/// Where a type annotation that starts at token `i`, with `depth` brackets open,
/// ends: at the end of input, at the last token, or at a token that ends a type
/// outside all brackets.
pub open spec fn type_end(toks: Seq<Token>, i: int, depth: int) -> int
    decreases toks.len() - i,
{
    if i < 0 || i + 1 >= toks.len() || toks[i].kind == TokKind::Eof || (depth == 0 && ends_type(toks[i])) {
        i
    } else {
        type_end(toks, i + 1, type_depth_after(toks[i], depth))
    }
}

/// The token after `i`, or `i` itself when it is the last.
pub open spec fn next_pos(toks: Seq<Token>, i: int) -> int {
    if i + 1 < toks.len() {
        i + 1
    } else {
        i
    }
}

/// Where a `type` or `interface` declaration scanned from token `i` ends (with
/// `depth` braces open and `seen` telling whether a brace was met): after a `;`
/// outside braces, after the brace that closes the first body, or at the end of input.
pub open spec fn declaration_end(toks: Seq<Token>, i: int, depth: int, seen: bool) -> int
    decreases toks.len() - i,
{
    if i < 0 || i >= toks.len() || toks[i].kind == TokKind::Eof {
        i
    } else if depth == 0 && is_punct_tok(toks[i], ";"@) {
        next_pos(toks, i)
    } else {
        let d = if is_punct_tok(toks[i], "{"@) {
            if depth < 1000000 {
                depth + 1
            } else {
                depth
            }
        } else if is_punct_tok(toks[i], "}"@) && depth > 0 {
            depth - 1
        } else {
            depth
        };
        let s = seen || is_punct_tok(toks[i], "{"@);
        if is_punct_tok(toks[i], "}"@) && d == 0 && s {
            next_pos(toks, i)
        } else if i + 1 < toks.len() {
            declaration_end(toks, i + 1, d, s)
        } else {
            i
        }
    }
}

/// The punctuator opens a bracket.
pub open spec fn opens_bracket(t: Seq<char>) -> bool {
    t == "("@ || t == "["@ || t == "{"@
}

/// The punctuator closes a bracket.
pub open spec fn closes_bracket(t: Seq<char>) -> bool {
    t == ")"@ || t == "]"@ || t == "}"@
}

/// Scanning from token `i` with `depth` brackets open: the bracket that closes the
/// outermost one is followed by `=>` or by a `:` type annotation (an arrow function's
/// parameter list); the end of input or an unmatched closing bracket says no.
pub open spec fn arrow_scan(toks: Seq<Token>, i: int, depth: int) -> bool
    decreases toks.len() - i,
{
    if i < 0 || i >= toks.len() {
        false
    } else if toks[i].kind == TokKind::Eof {
        false
    } else if toks[i].kind == TokKind::Punct && opens_bracket(toks[i].text@) {
        arrow_scan(toks, i + 1, if depth < 1000000 { depth + 1 } else { depth })
    } else if toks[i].kind == TokKind::Punct && closes_bracket(toks[i].text@) {
        if depth == 0 {
            false
        } else if depth == 1 {
            let nxt = if i + 1 < toks.len() {
                toks[i + 1]
            } else {
                toks[toks.len() - 1]
            };
            nxt.kind == TokKind::Punct && (nxt.text@ == ":"@ || nxt.text@ == "=>"@)
        } else {
            arrow_scan(toks, i + 1, depth - 1)
        }
    } else {
        arrow_scan(toks, i + 1, depth)
    }
}

impl Parser {
    pub open spec fn wf(&self) -> bool {
        &&& self.toks@.len() > 0
        &&& self.pos < self.toks@.len()
    }

    /// A parsing step: the budget never grows and a success spends some of it.
    pub open spec fn spent(&self, old_p: &Parser, ok: bool) -> bool {
        &&& self.wf()
        &&& self.toks@.len() == old_p.toks@.len()
        &&& self.fuel <= old_p.fuel
        &&& (ok ==> self.fuel < old_p.fuel)
    }

    pub fn new(toks: Vec<Token>, fuel: u64) -> (p: Parser)
        requires
            toks@.len() > 0,
        ensures
            p.wf(),
            p.fuel == fuel,
    {
        Parser { toks, pos: 0, fuel }
    }

    fn tick(&mut self) -> (r: Result<(), JsError>)
        requires
            old(self).wf(),
        ensures
            final(self).spent(old(self), r is Ok),
            final(self).pos == old(self).pos,
    {
        if self.fuel == 0 {
            return Err(syntax_error("Program too complex to parse"));
        }
        self.fuel = self.fuel - 1;
        Ok(())
    }

    fn cur(&self) -> (t: &Token)
        requires
            self.wf(),
        ensures
            *t == self.toks@[self.pos as int],
    {
        &self.toks[self.pos]
    }

    /// The token `k` places ahead, the last one (the end marker) past the end.
    pub open spec fn tok_at(&self, k: int) -> Token {
        if k < self.toks@.len() - self.pos {
            self.toks@[self.pos + k]
        } else {
            self.toks@[self.toks@.len() - 1]
        }
    }

    /// The token `k` places ahead is the punctuator `s`.
    pub open spec fn punct_at_spec(&self, k: int, s: Seq<char>) -> bool {
        self.tok_at(k).kind == TokKind::Punct && self.tok_at(k).text@ == s
    }

    /// The current token is the word `s`.
    pub open spec fn word_spec(&self, s: Seq<char>) -> bool {
        self.toks@[self.pos as int].kind == TokKind::Ident && self.toks@[self.pos as int].text@ == s
    }

    fn peek_at(&self, k: usize) -> (t: &Token)
        requires
            self.wf(),
        ensures
            *t == self.tok_at(k as int),
    {
        let n = self.toks.len();
        if k < n - self.pos {
            &self.toks[self.pos + k]
        } else {
            &self.toks[n - 1]
        }
    }

    fn advance(&mut self)
        requires
            old(self).wf(),
        ensures
            final(self).wf(),
            final(self).toks@ == old(self).toks@,
            final(self).fuel == old(self).fuel,
            final(self).pos >= old(self).pos,
            old(self).pos + 1 < old(self).toks@.len() ==> final(self).pos == old(self).pos + 1,
    {
        if self.pos < self.toks.len() - 1 {
            self.pos = self.pos + 1;
        }
    }

    fn at_eof(&self) -> (b: bool)
        requires
            self.wf(),
        ensures
            b == (self.toks@[self.pos as int].kind == TokKind::Eof),
    {
        self.cur().kind == TokKind::Eof
    }

    fn is_punct(&self, s: &str) -> (b: bool)
        requires
            self.wf(),
        ensures
            b == is_punct_tok(self.toks@[self.pos as int], s@),
    {
        let t = self.cur();
        t.kind == TokKind::Punct && text_is(&t.text, s)
    }

    fn is_punct_at(&self, k: usize, s: &str) -> (b: bool)
        requires
            self.wf(),
        ensures
            b == self.punct_at_spec(k as int, s@),
    {
        let t = self.peek_at(k);
        t.kind == TokKind::Punct && text_is(&t.text, s)
    }

    fn is_word(&self, s: &str) -> (b: bool)
        requires
            self.wf(),
        ensures
            b == self.word_spec(s@),
    {
        let t = self.cur();
        t.kind == TokKind::Ident && text_is(&t.text, s)
    }

    fn eat_punct(&mut self, s: &str) -> (b: bool)
        requires
            old(self).wf(),
        ensures
            final(self).wf(),
            final(self).toks@.len() == old(self).toks@.len(),
            final(self).fuel == old(self).fuel,
    {
        if self.is_punct(s) {
            self.advance();
            true
        } else {
            false
        }
    }

    fn eat_word(&mut self, s: &str) -> (b: bool)
        requires
            old(self).wf(),
        ensures
            final(self).wf(),
            final(self).toks@.len() == old(self).toks@.len(),
            final(self).fuel == old(self).fuel,
    {
        if self.is_word(s) {
            self.advance();
            true
        } else {
            false
        }
    }

    fn expect_punct(&mut self, s: &str) -> (r: Result<(), JsError>)
        requires
            old(self).wf(),
        ensures
            final(self).wf(),
            final(self).toks@.len() == old(self).toks@.len(),
            final(self).fuel == old(self).fuel,
    {
        if self.eat_punct(s) {
            Ok(())
        } else {
            Err(syntax_error("Unexpected token"))
        }
    }

    /// Ends a statement: a `;`, or a place where one may be left out.
    fn consume_semicolon(&mut self)
        requires
            old(self).wf(),
        ensures
            final(self).wf(),
            final(self).toks@.len() == old(self).toks@.len(),
            final(self).fuel == old(self).fuel,
    {
        self.eat_punct(";");
    }

    /// Reads a binding name.
    fn ident_name(&mut self) -> (r: Result<Vec<char>, JsError>)
        requires
            old(self).wf(),
        ensures
            final(self).wf(),
            final(self).toks@.len() == old(self).toks@.len(),
            final(self).fuel == old(self).fuel,
    {
        let t = self.cur();
        if t.kind == TokKind::Ident && !is_reserved(&t.text) {
            let name = copy_chars(&t.text);
            self.advance();
            Ok(name)
        } else {
            Err(syntax_error("Unexpected token"))
        }
    }

    /// Skips a type annotation after `:` up to a token that ends it.
    fn skip_type(&mut self)
        requires
            old(self).wf(),
        ensures
            final(self).wf(),
            final(self).toks@.len() == old(self).toks@.len(),
            final(self).toks@ == old(self).toks@,
            final(self).fuel == old(self).fuel,
            final(self).pos == type_end(old(self).toks@, old(self).pos as int, 0),
    {
        let mut depth: usize = 0;
        while !self.at_eof()
            invariant
                self.wf(),
                self.toks@.len() == old(self).toks@.len(),
                self.toks@ == old(self).toks@,
                self.fuel == old(self).fuel,
                depth <= 1000000,
                type_end(old(self).toks@, old(self).pos as int, 0) == type_end(self.toks@, self.pos as int, depth as int),
            ensures
                type_end(self.toks@, self.pos as int, depth as int) == self.pos,
            decreases self.toks@.len() - self.pos,
        {
            if depth == 0 && (self.is_punct(",") || self.is_punct(")") || self.is_punct("=")
                || self.is_punct(";") || self.is_punct("=>") || self.is_punct("{") || self.is_punct(
                "}",
            ) || self.is_punct("]")) {
                break;
            }
            if self.is_punct("(") || self.is_punct("[") || self.is_punct("<") || self.is_punct(
                "{",
            ) {
                if depth < 1000000 {
                    depth = depth + 1;
                }
            } else if self.is_punct(")") || self.is_punct("]") || self.is_punct(">")
                || self.is_punct("}") {
                if depth > 0 {
                    depth = depth - 1;
                }
            } else if self.is_punct(">>") {
                depth = if depth > 2 {
                    depth - 2
                } else {
                    0
                };
            }
            let before = self.pos;
            self.advance();
            if self.pos == before {
                break;
            }
        }
    }

    /// Parses a binding pattern: a name, `[...]` or `{...}`.
    fn parse_pattern(&mut self) -> (r: Result<Pattern, JsError>)
        requires
            old(self).wf(),
        ensures
            final(self).spent(old(self), r is Ok),
        decreases old(self).fuel,
    {
        self.tick()?;
        if self.eat_punct("[") {
            let mut elems: Vec<Option<PatternElem>> = Vec::new();
            let mut rest: Option<Box<Pattern>> = None;
            while !self.is_punct("]") && !self.at_eof()
                invariant
                    self.wf(),
                    self.toks@.len() == old(self).toks@.len(),
                    self.fuel < old(self).fuel,
                decreases self.fuel,
            {
                if self.is_punct(",") {
                    self.advance();
                    elems.push(None);
                    // spend a step so the loop measure decreases
                    self.tick()?;
                    continue;
                }
                if self.eat_punct("...") {
                    let p = self.parse_pattern()?;
                    rest = Some(Box::new(p));
                    break;
                }
                let target = self.parse_pattern()?;
                let default = if self.eat_punct("=") {
                    Some(self.parse_assign()?)
                } else {
                    None
                };
                elems.push(Some(PatternElem { target, default }));
                if !self.eat_punct(",") {
                    break;
                }
            }
            self.expect_punct("]")?;
            return Ok(Pattern::Array(elems, rest));
        }
        if self.eat_punct("{") {
            let mut props: Vec<ObjectPatternProp> = Vec::new();
            let mut rest: Option<Box<Pattern>> = None;
            while !self.is_punct("}") && !self.at_eof()
                invariant
                    self.wf(),
                    self.toks@.len() == old(self).toks@.len(),
                    self.fuel < old(self).fuel,
                decreases self.fuel,
            {
                if self.eat_punct("...") {
                    let p = self.parse_pattern()?;
                    rest = Some(Box::new(p));
                    break;
                }
                let key = self.parse_prop_name()?;
                let target = if self.eat_punct(":") {
                    self.parse_pattern()?
                } else {
                    match &key {
                        PropName::Name(n) => Pattern::Ident(copy_chars(n)),
                        PropName::Computed(_) => {
                            return Err(syntax_error("Unexpected token"));
                        },
                    }
                };
                let default = if self.eat_punct("=") {
                    Some(self.parse_assign()?)
                } else {
                    None
                };
                props.push(ObjectPatternProp { key, target, default });
                if !self.eat_punct(",") {
                    break;
                }
            }
            self.expect_punct("}")?;
            return Ok(Pattern::Object(props, rest));
        }
        let name = self.ident_name()?;
        if self.is_punct(":") {
            self.advance();
            self.skip_type();
        }
        Ok(Pattern::Ident(name))
    }

    /// A property name in an object literal or pattern.
    fn parse_prop_name(&mut self) -> (r: Result<PropName, JsError>)
        requires
            old(self).wf(),
        ensures
            final(self).spent(old(self), r is Ok),
        decreases old(self).fuel,
    {
        self.tick()?;
        let kind = self.cur().kind;
        if kind == TokKind::Ident || kind == TokKind::Str {
            let name = copy_chars(&self.cur().text);
            self.advance();
            Ok(PropName::Name(name))
        } else if kind == TokKind::Num {
            let n = self.cur().num;
            self.advance();
            if n.check_wf() {
                Ok(PropName::Name(n.to_js_string()))
            } else {
                Err(syntax_error("Invalid number literal"))
            }
        } else if self.eat_punct("[") {
            let e = self.parse_assign()?;
            self.expect_punct("]")?;
            Ok(PropName::Computed(e))
        } else {
            Err(syntax_error("Unexpected token"))
        }
    }

    /// Parameters after `(`, through `)`.
    fn parse_params(&mut self) -> (r: Result<Vec<Param>, JsError>)
        requires
            old(self).wf(),
        ensures
            final(self).spent(old(self), r is Ok),
        decreases old(self).fuel,
    {
        self.tick()?;
        let mut params: Vec<Param> = Vec::new();
        while !self.is_punct(")") && !self.at_eof()
            invariant
                self.wf(),
                self.toks@.len() == old(self).toks@.len(),
                self.fuel < old(self).fuel,
            decreases self.fuel,
        {
            let rest = self.eat_punct("...");
            let target = self.parse_pattern()?;
            if self.eat_punct("?") {
                if self.is_punct(":") {
                    self.advance();
                    self.skip_type();
                }
            }
            let default = if self.eat_punct("=") {
                Some(self.parse_assign()?)
            } else {
                None
            };
            params.push(Param { target, default, rest });
            if !self.eat_punct(",") {
                break;
            }
        }
        self.expect_punct(")")?;
        Ok(params)
    }

    /// Statements up to the closing `}` (which is consumed).
    fn parse_block_body(&mut self) -> (r: Result<Vec<Statement>, JsError>)
        requires
            old(self).wf(),
        ensures
            final(self).spent(old(self), r is Ok),
        decreases old(self).fuel,
    {
        self.tick()?;
        let mut body: Vec<Statement> = Vec::new();
        while !self.is_punct("}") && !self.at_eof()
            invariant
                self.wf(),
                self.toks@.len() == old(self).toks@.len(),
                self.fuel < old(self).fuel,
            decreases self.fuel,
        {
            let s = self.parse_statement()?;
            body.push(s);
        }
        self.expect_punct("}")?;
        Ok(body)
    }

    /// An `enum` declaration after the `enum` keyword: its name and its members, each a
    /// name or a string, with an optional `= initializer`, separated by commas.
    fn parse_enum_rest(&mut self) -> (r: Result<Statement, JsError>)
        requires
            old(self).wf(),
        ensures
            final(self).spent(old(self), r is Ok),
        decreases old(self).fuel,
    {
        self.tick()?;
        let name = self.ident_name()?;
        self.expect_punct("{")?;
        let mut members: Vec<EnumMember> = Vec::new();
        while !self.is_punct("}") && !self.at_eof()
            invariant
                self.wf(),
                self.toks@.len() == old(self).toks@.len(),
                self.fuel < old(self).fuel,
            decreases self.fuel,
        {
            self.tick()?;
            let t = self.cur();
            let mname = if t.kind == TokKind::Str {
                let v = copy_chars(&t.text);
                self.advance();
                v
            } else {
                self.ident_name()?
            };
            let init = if self.eat_punct("=") {
                Some(self.parse_assign()?)
            } else {
                None
            };
            members.push(EnumMember { name: mname, init });
            if !self.eat_punct(",") {
                break;
            }
        }
        self.expect_punct("}")?;
        Ok(Statement::Enum(name, members))
    }

    /// A function after the `function` keyword (name optional).
    fn parse_function_rest(&mut self, need_name: bool) -> (r: Result<FunctionDef, JsError>)
        requires
            old(self).wf(),
        ensures
            final(self).spent(old(self), r is Ok),
        decreases old(self).fuel,
    {
        self.tick()?;
        self.eat_punct("*");
        let name = if self.cur().kind == TokKind::Ident && !self.is_punct("(") {
            Some(self.ident_name()?)
        } else {
            if need_name {
                return Err(syntax_error("Function statements require a function name"));
            }
            None
        };
        self.expect_punct("(")?;
        let params = self.parse_params()?;
        if self.is_punct(":") {
            self.advance();
            self.skip_type();
        }
        self.expect_punct("{")?;
        let body = self.parse_block_body()?;
        Ok(FunctionDef { name, params, body: FunctionBody::Block(body), is_arrow: false })
    }

    /// The body of an arrow function after `=>`.
    fn parse_arrow_body(&mut self, params: Vec<Param>) -> (r: Result<Expression, JsError>)
        requires
            old(self).wf(),
        ensures
            final(self).spent(old(self), r is Ok),
        decreases old(self).fuel,
    {
        self.tick()?;
        let body = if self.eat_punct("{") {
            FunctionBody::Block(self.parse_block_body()?)
        } else {
            FunctionBody::Expr(self.parse_assign()?)
        };
        Ok(
            Expression::Function(
                Rc::new(FunctionDef { name: None, params, body, is_arrow: true }),
            ),
        )
    }

    /// At `(`: does a parenthesised list followed by `=>` start here?
    fn arrow_ahead(&self) -> (b: bool)
        requires
            self.wf(),
        ensures
            b == arrow_scan(self.toks@, self.pos as int, 0),
    {
        let mut depth: usize = 0;
        let mut k: usize = 0;
        let n = self.toks.len();
        while k < n - self.pos
            invariant
                self.wf(),
                n == self.toks@.len(),
                depth <= 1000000,
                arrow_scan(self.toks@, self.pos as int, 0) == arrow_scan(self.toks@, self.pos + k, depth as int),
            decreases n - self.pos - k,
        {
            let t = &self.toks[self.pos + k];
            if t.kind == TokKind::Eof {
                return false;
            }
            if t.kind == TokKind::Punct {
                if text_is(&t.text, "(") || text_is(&t.text, "[") || text_is(&t.text, "{") {
                    if depth < 1000000 {
                        depth = depth + 1;
                    }
                } else if text_is(&t.text, ")") || text_is(&t.text, "]") || text_is(&t.text, "}") {
                    if depth == 0 {
                        return false;
                    }
                    depth = depth - 1;
                    if depth == 0 {
                        let nxt = self.peek_at(k + 1);
                        if nxt.kind == TokKind::Punct && text_is(&nxt.text, ":") {
                            // return type annotation: look for `=>` before `{`
                            return true;
                        }
                        return nxt.kind == TokKind::Punct && text_is(&nxt.text, "=>");
                    }
                }
            }
            k = k + 1;
        }
        false
    }

    /// Assignment-level expression.
    pub fn parse_assign(&mut self) -> (r: Result<Expression, JsError>)
        requires
            old(self).wf(),
        ensures
            final(self).spent(old(self), r is Ok),
        decreases old(self).fuel,
    {
        self.tick()?;
        // `x => ...`
        if self.cur().kind == TokKind::Ident && self.is_punct_at(1, "=>") && !is_reserved(
            &self.cur().text,
        ) {
            let name = copy_chars(&self.cur().text);
            self.advance();
            self.advance();
            let mut params: Vec<Param> = Vec::new();
            params.push(Param { target: Pattern::Ident(name), default: None, rest: false });
            return self.parse_arrow_body(params);
        }
        // `async` arrow and function prefixes are read as plain ones
        if self.is_word("async") && (self.is_punct_at(1, "(") || self.peek_at(1).kind
            == TokKind::Ident) {
            let nxt = self.peek_at(1);
            if !(nxt.kind == TokKind::Ident && text_is(&nxt.text, "function")) {
                self.advance();
            }
        }
        // `(a, b) => ...`
        if self.is_punct("(") && self.arrow_ahead() {
            self.advance();
            let params = self.parse_params()?;
            if self.is_punct(":") {
                self.advance();
                self.skip_type();
            }
            self.expect_punct("=>")?;
            return self.parse_arrow_body(params);
        }
        let left = self.parse_conditional()?;
        match assign_op_of(self.cur()) {
            Some(op) => {
                match &left {
                    Expression::Ident(_) => {},
                    Expression::Member(..) => {},
                    _ => {
                        return Err(syntax_error("Invalid left-hand side in assignment"));
                    },
                }
                self.advance();
                let right = self.parse_assign()?;
                Ok(Expression::Assign(op, Box::new(left), Box::new(right)))
            },
            None => Ok(left),
        }
    }

    /// Comma-separated expressions.
    pub fn parse_expression(&mut self) -> (r: Result<Expression, JsError>)
        requires
            old(self).wf(),
        ensures
            final(self).spent(old(self), r is Ok),
        decreases old(self).fuel,
    {
        self.tick()?;
        let first = self.parse_assign()?;
        if !self.is_punct(",") {
            return Ok(first);
        }
        let mut items: Vec<Expression> = Vec::new();
        items.push(first);
        while self.eat_punct(",")
            invariant
                self.wf(),
                self.toks@.len() == old(self).toks@.len(),
                self.fuel < old(self).fuel,
            decreases self.fuel,
        {
            let e = self.parse_assign()?;
            items.push(e);
        }
        Ok(Expression::Sequence(items))
    }

    fn parse_conditional(&mut self) -> (r: Result<Expression, JsError>)
        requires
            old(self).wf(),
        ensures
            final(self).spent(old(self), r is Ok),
        decreases old(self).fuel,
    {
        self.tick()?;
        let test = self.parse_nullish()?;
        if self.eat_punct("?") {
            let a = self.parse_assign()?;
            self.expect_punct(":")?;
            let b = self.parse_assign()?;
            Ok(Expression::Conditional(Box::new(test), Box::new(a), Box::new(b)))
        } else {
            Ok(test)
        }
    }

    fn parse_nullish(&mut self) -> (r: Result<Expression, JsError>)
        requires
            old(self).wf(),
        ensures
            final(self).spent(old(self), r is Ok),
        decreases old(self).fuel,
    {
        self.tick()?;
        let mut left = self.parse_or()?;
        while self.eat_punct("??")
            invariant
                self.wf(),
                self.toks@.len() == old(self).toks@.len(),
                self.fuel < old(self).fuel,
            decreases self.fuel,
        {
            let right = self.parse_or()?;
            left = Expression::Logical(LogicalOp::Nullish, Box::new(left), Box::new(right));
        }
        Ok(left)
    }

    fn parse_or(&mut self) -> (r: Result<Expression, JsError>)
        requires
            old(self).wf(),
        ensures
            final(self).spent(old(self), r is Ok),
        decreases old(self).fuel,
    {
        self.tick()?;
        let mut left = self.parse_and()?;
        while self.eat_punct("||")
            invariant
                self.wf(),
                self.toks@.len() == old(self).toks@.len(),
                self.fuel < old(self).fuel,
            decreases self.fuel,
        {
            let right = self.parse_and()?;
            left = Expression::Logical(LogicalOp::Or, Box::new(left), Box::new(right));
        }
        Ok(left)
    }

    fn parse_and(&mut self) -> (r: Result<Expression, JsError>)
        requires
            old(self).wf(),
        ensures
            final(self).spent(old(self), r is Ok),
        decreases old(self).fuel,
    {
        self.tick()?;
        let mut left = self.parse_binary(4)?;
        while self.eat_punct("&&")
            invariant
                self.wf(),
                self.toks@.len() == old(self).toks@.len(),
                self.fuel < old(self).fuel,
            decreases self.fuel,
        {
            let right = self.parse_binary(4)?;
            left = Expression::Logical(LogicalOp::And, Box::new(left), Box::new(right));
        }
        Ok(left)
    }

    /// Binary operators binding at least as tightly as `min_prec`.
    fn parse_binary(&mut self, min_prec: u32) -> (r: Result<Expression, JsError>)
        requires
            old(self).wf(),
        ensures
            final(self).spent(old(self), r is Ok),
        decreases old(self).fuel,
    {
        self.tick()?;
        let mut left = self.parse_unary()?;
        loop
            invariant
                self.wf(),
                self.toks@.len() == old(self).toks@.len(),
                self.fuel < old(self).fuel,
            decreases self.fuel,
        {
            let (prec, op) = match binary_op_of(self.cur()) {
                Some(x) => x,
                None => {
                    break;
                },
            };
            if prec < min_prec {
                break;
            }
            self.advance();
            // `**` is right-associative
            let next_min = if prec == 12 {
                12
            } else {
                prec + 1
            };
            let right = self.parse_binary(next_min)?;
            left = Expression::Binary(op, Box::new(left), Box::new(right));
        }
        Ok(left)
    }

    fn parse_unary(&mut self) -> (r: Result<Expression, JsError>)
        requires
            old(self).wf(),
        ensures
            final(self).spent(old(self), r is Ok),
        decreases old(self).fuel,
    {
        self.tick()?;
        let op = if self.is_punct("-") {
            Some(UnaryOp::Minus)
        } else if self.is_punct("+") {
            Some(UnaryOp::Plus)
        } else if self.is_punct("!") {
            Some(UnaryOp::Not)
        } else if self.is_punct("~") {
            Some(UnaryOp::BitNot)
        } else if self.is_word("typeof") {
            Some(UnaryOp::TypeOf)
        } else if self.is_word("void") {
            Some(UnaryOp::Void)
        } else if self.is_word("delete") {
            Some(UnaryOp::Delete)
        } else {
            None
        };
        if let Some(o) = op {
            self.advance();
            let arg = self.parse_unary()?;
            // `-x ** y` is not allowed; treat `-a ** b` as `-(a ** b)` like most engines reject
            return Ok(Expression::Unary(o, Box::new(arg)));
        }
        if self.is_punct("++") || self.is_punct("--") {
            let inc = self.is_punct("++");
            self.advance();
            let arg = self.parse_unary()?;
            return Ok(Expression::Update(inc, true, Box::new(arg)));
        }
        let e = self.parse_postfix()?;
        if (self.is_punct("++") || self.is_punct("--")) && !self.cur().nl_before {
            let inc = self.is_punct("++");
            self.advance();
            return Ok(Expression::Update(inc, false, Box::new(e)));
        }
        Ok(e)
    }

    /// Call arguments after `(`, through `)`.
    fn parse_args(&mut self) -> (r: Result<Vec<Argument>, JsError>)
        requires
            old(self).wf(),
        ensures
            final(self).spent(old(self), r is Ok),
        decreases old(self).fuel,
    {
        self.tick()?;
        let mut args: Vec<Argument> = Vec::new();
        while !self.is_punct(")") && !self.at_eof()
            invariant
                self.wf(),
                self.toks@.len() == old(self).toks@.len(),
                self.fuel < old(self).fuel,
            decreases self.fuel,
        {
            if self.eat_punct("...") {
                let e = self.parse_assign()?;
                args.push(Argument::Spread(e));
            } else {
                let e = self.parse_assign()?;
                args.push(Argument::Plain(e));
            }
            if !self.eat_punct(",") {
                break;
            }
        }
        self.expect_punct(")")?;
        Ok(args)
    }

    /// Member accesses, calls and `new` after a primary expression.
    fn parse_postfix(&mut self) -> (r: Result<Expression, JsError>)
        requires
            old(self).wf(),
        ensures
            final(self).spent(old(self), r is Ok),
        decreases old(self).fuel,
    {
        self.tick()?;
        let mut e = if self.is_word("new") {
            self.advance();
            let callee = self.parse_new_callee()?;
            let args = if self.eat_punct("(") {
                self.parse_args()?
            } else {
                Vec::new()
            };
            Expression::New(Box::new(callee), args)
        } else {
            self.parse_primary()?
        };
        loop
            invariant
                self.wf(),
                self.toks@.len() == old(self).toks@.len(),
                self.fuel < old(self).fuel,
            decreases self.fuel,
        {
            self.tick()?;
            if self.eat_punct(".") {
                let t = self.cur();
                if t.kind != TokKind::Ident {
                    return Err(syntax_error("Unexpected token"));
                }
                let name = copy_chars(&t.text);
                self.advance();
                e = Expression::Member(Box::new(e), Box::new(MemberProp::Name(name)), false);
            } else if self.is_punct("?.") {
                self.advance();
                if self.eat_punct("(") {
                    let args = self.parse_args()?;
                    e = Expression::Call(Box::new(e), args, true);
                } else if self.eat_punct("[") {
                    let p = self.parse_expression()?;
                    self.expect_punct("]")?;
                    e = Expression::Member(Box::new(e), Box::new(MemberProp::Computed(p)), true);
                } else {
                    let t = self.cur();
                    if t.kind != TokKind::Ident {
                        return Err(syntax_error("Unexpected token"));
                    }
                    let name = copy_chars(&t.text);
                    self.advance();
                    e = Expression::Member(Box::new(e), Box::new(MemberProp::Name(name)), true);
                }
            } else if self.eat_punct("[") {
                let p = self.parse_expression()?;
                self.expect_punct("]")?;
                e = Expression::Member(Box::new(e), Box::new(MemberProp::Computed(p)), false);
            } else if self.eat_punct("(") {
                let args = self.parse_args()?;
                e = Expression::Call(Box::new(e), args, false);
            } else if self.cur().kind == TokKind::Template {
                let t = self.parse_template()?;
                e = Expression::Call(Box::new(e), vec_of_arg(t), false);
            } else if self.is_punct("!") && !self.cur().nl_before && !self.is_punct_at(1, "=") {
                // non-null assertion
                self.advance();
            } else if self.is_word("as") && !self.cur().nl_before {
                self.advance();
                self.skip_type();
            } else {
                break;
            }
        }
        Ok(e)
    }

    /// The callee of `new`: a primary expression with member accesses.
    fn parse_new_callee(&mut self) -> (r: Result<Expression, JsError>)
        requires
            old(self).wf(),
        ensures
            final(self).spent(old(self), r is Ok),
        decreases old(self).fuel,
    {
        self.tick()?;
        let mut e = self.parse_primary()?;
        loop
            invariant
                self.wf(),
                self.toks@.len() == old(self).toks@.len(),
                self.fuel < old(self).fuel,
            decreases self.fuel,
        {
            self.tick()?;
            if self.eat_punct(".") {
                let t = self.cur();
                if t.kind != TokKind::Ident {
                    return Err(syntax_error("Unexpected token"));
                }
                let name = copy_chars(&t.text);
                self.advance();
                e = Expression::Member(Box::new(e), Box::new(MemberProp::Name(name)), false);
            } else if self.eat_punct("[") {
                let p = self.parse_expression()?;
                self.expect_punct("]")?;
                e = Expression::Member(Box::new(e), Box::new(MemberProp::Computed(p)), false);
            } else {
                break;
            }
        }
        Ok(e)
    }

    /// A template literal token.
    fn parse_template(&mut self) -> (r: Result<Expression, JsError>)
        requires
            old(self).wf(),
        ensures
            final(self).spent(old(self), r is Ok),
        decreases old(self).fuel,
    {
        self.tick()?;
        let mut strs: Vec<Vec<char>> = Vec::new();
        let mut exprs: Vec<Expression> = Vec::new();
        let n_parts = self.cur().parts.len();
        let mut i: usize = 0;
        while i < n_parts
            invariant
                self.wf(),
                self.toks@.len() == old(self).toks@.len(),
                self.fuel < old(self).fuel,
                n_parts == self.toks@[self.pos as int].parts@.len(),
            decreases n_parts - i,
        {
            strs.push(copy_chars(&self.cur().parts[i]));
            i = i + 1;
        }
        let n_exprs = self.cur().exprs.len();
        let mut j: usize = 0;
        while j < n_exprs
            invariant
                self.wf(),
                self.toks@.len() == old(self).toks@.len(),
                self.fuel < old(self).fuel,
                n_exprs == self.toks@[self.pos as int].exprs@.len(),
            decreases n_exprs - j,
        {
            let src = copy_chars(&self.cur().exprs[j]);
            let toks = tokenize(src.as_slice())?;
            let mut sub = Parser::new(toks, self.fuel);
            let e = sub.parse_expression()?;
            if !sub.at_eof() {
                return Err(syntax_error("Unexpected token in template"));
            }
            self.fuel = sub.fuel;
            exprs.push(e);
            j = j + 1;
        }
        self.advance();
        Ok(Expression::Template(strs, exprs))
    }

    /// Object literal members after `{`, through `}`.
    fn parse_object_literal(&mut self) -> (r: Result<Expression, JsError>)
        requires
            old(self).wf(),
        ensures
            final(self).spent(old(self), r is Ok),
        decreases old(self).fuel,
    {
        self.tick()?;
        let mut members: Vec<ObjectMember> = Vec::new();
        while !self.is_punct("}") && !self.at_eof()
            invariant
                self.wf(),
                self.toks@.len() == old(self).toks@.len(),
                self.fuel < old(self).fuel,
            decreases self.fuel,
        {
            if self.eat_punct("...") {
                let e = self.parse_assign()?;
                members.push(ObjectMember::Spread(e));
            } else {
                // `get`/`set`/`async` prefixes are read as plain methods
                if (self.is_word("get") || self.is_word("set") || self.is_word("async"))
                    && !self.is_punct_at(1, ":") && !self.is_punct_at(1, "(") && !self.is_punct_at(
                    1,
                    ",",
                ) && !self.is_punct_at(1, "}") {
                    self.advance();
                }
                let key = self.parse_prop_name()?;
                if self.eat_punct(":") {
                    let v = self.parse_assign()?;
                    members.push(ObjectMember::Prop(key, v));
                } else if self.eat_punct("(") {
                    let params = self.parse_params()?;
                    if self.is_punct(":") {
                        self.advance();
                        self.skip_type();
                    }
                    self.expect_punct("{")?;
                    let body = self.parse_block_body()?;
                    let name = match &key {
                        PropName::Name(n) => Some(copy_chars(n)),
                        _ => None,
                    };
                    let f = FunctionDef {
                        name,
                        params,
                        body: FunctionBody::Block(body),
                        is_arrow: false,
                    };
                    members.push(ObjectMember::Prop(key, Expression::Function(Rc::new(f))));
                } else {
                    // shorthand `{ a }` or `{ a = 1 }` in patterns
                    match &key {
                        PropName::Name(n) => {
                            let v = Expression::Ident(copy_chars(n));
                            members.push(ObjectMember::Prop(key, v));
                        },
                        PropName::Computed(_) => {
                            return Err(syntax_error("Unexpected token"));
                        },
                    }
                }
            }
            if !self.eat_punct(",") {
                break;
            }
        }
        self.expect_punct("}")?;
        Ok(Expression::Object(members))
    }

    fn parse_primary(&mut self) -> (r: Result<Expression, JsError>)
        requires
            old(self).wf(),
        ensures
            final(self).spent(old(self), r is Ok),
        decreases old(self).fuel,
    {
        self.tick()?;
        let kind = self.cur().kind;
        if kind == TokKind::Num {
            let n = self.cur().num;
            self.advance();
            if !n.check_wf() {
                return Err(syntax_error("Invalid number literal"));
            }
            return Ok(Expression::Number(n));
        }
        if kind == TokKind::Str {
            let s = copy_chars(&self.cur().text);
            self.advance();
            return Ok(Expression::Str(s));
        }
        if kind == TokKind::Template {
            return self.parse_template();
        }
        if kind == TokKind::Ident {
            if self.eat_word("true") {
                return Ok(Expression::Bool(true));
            }
            if self.eat_word("false") {
                return Ok(Expression::Bool(false));
            }
            if self.eat_word("null") {
                return Ok(Expression::Null);
            }
            if self.eat_word("this") {
                return Ok(Expression::This);
            }
            if self.eat_word("function") {
                let f = self.parse_function_rest(false)?;
                return Ok(Expression::Function(Rc::new(f)));
            }
            if self.is_word("async") && self.peek_at(1).kind == TokKind::Ident && text_is(
                &self.peek_at(1).text,
                "function",
            ) {
                self.advance();
                self.advance();
                let f = self.parse_function_rest(false)?;
                return Ok(Expression::Function(Rc::new(f)));
            }
            if is_reserved(&self.cur().text) {
                return Err(syntax_error("Unexpected token"));
            }
            let name = copy_chars(&self.cur().text);
            self.advance();
            return Ok(Expression::Ident(name));
        }
        if self.eat_punct("(") {
            let e = self.parse_expression()?;
            self.expect_punct(")")?;
            return Ok(e);
        }
        if self.eat_punct("[") {
            let mut elems: Vec<ArrayElement> = Vec::new();
            while !self.is_punct("]") && !self.at_eof()
                invariant
                    self.wf(),
                    self.toks@.len() == old(self).toks@.len(),
                    self.fuel < old(self).fuel,
                decreases self.fuel,
            {
                if self.is_punct(",") {
                    self.advance();
                    elems.push(ArrayElement::Hole);
                    self.tick()?;
                    continue;
                }
                if self.eat_punct("...") {
                    let e = self.parse_assign()?;
                    elems.push(ArrayElement::Spread(e));
                } else {
                    let e = self.parse_assign()?;
                    elems.push(ArrayElement::Item(e));
                }
                if !self.eat_punct(",") {
                    break;
                }
            }
            self.expect_punct("]")?;
            return Ok(Expression::Array(elems));
        }
        if self.eat_punct("{") {
            return self.parse_object_literal();
        }
        if self.eat_punct("<") {
            // `<T>expr` type assertion
            self.skip_type();
            self.expect_punct(">")?;
            return self.parse_unary();
        }
        Err(syntax_error("Unexpected token"))
    }

    /// Variable declarators after `var`/`let`/`const`.
    fn parse_declarators(&mut self, in_for: bool) -> (r: Result<Vec<Declarator>, JsError>)
        requires
            old(self).wf(),
        ensures
            final(self).spent(old(self), r is Ok),
        decreases old(self).fuel,
    {
        self.tick()?;
        let mut decls: Vec<Declarator> = Vec::new();
        loop
            invariant
                self.wf(),
                self.toks@.len() == old(self).toks@.len(),
                self.fuel < old(self).fuel,
            decreases self.fuel,
        {
            let target = self.parse_pattern()?;
            let init = if self.eat_punct("=") {
                Some(self.parse_assign()?)
            } else {
                None
            };
            decls.push(Declarator { target, init });
            if in_for && (self.is_word("of") || self.is_word("in")) {
                break;
            }
            if !self.eat_punct(",") {
                break;
            }
        }
        Ok(decls)
    }

    /// The declaration keyword at the current token: `var`, `const`, or `let` when an
    /// identifier or a destructuring bracket follows it.
    pub open spec fn var_kind_spec(&self) -> Option<VarKind> {
        if self.word_spec("var"@) {
            Some(VarKind::Var)
        } else if self.word_spec("const"@) {
            Some(VarKind::Const)
        } else if self.word_spec("let"@) && (self.tok_at(1).kind == TokKind::Ident || self.punct_at_spec(
            1,
            "["@,
        ) || self.punct_at_spec(1, "{"@)) {
            Some(VarKind::Let)
        } else {
            None
        }
    }

    fn var_kind(&self) -> (r: Option<VarKind>)
        requires
            self.wf(),
        ensures
            r == self.var_kind_spec(),
    {
        if self.is_word("var") {
            Some(VarKind::Var)
        } else if self.is_word("const") {
            Some(VarKind::Const)
        } else if self.is_word("let") && (self.peek_at(1).kind == TokKind::Ident
            || self.is_punct_at(1, "[") || self.is_punct_at(1, "{")) {
            Some(VarKind::Let)
        } else {
            None
        }
    }

    /// Skips `type X = ...;`, `interface X {...}` and `declare ...` items.
    fn skip_type_declaration(&mut self)
        requires
            old(self).wf(),
        ensures
            final(self).wf(),
            final(self).toks@.len() == old(self).toks@.len(),
            final(self).toks@ == old(self).toks@,
            final(self).fuel == old(self).fuel,
            final(self).pos == declaration_end(old(self).toks@, old(self).pos as int, 0, false),
    {
        let mut depth: usize = 0;
        let mut seen_brace = false;
        while !self.at_eof()
            invariant_except_break
                declaration_end(old(self).toks@, old(self).pos as int, 0, false) == declaration_end(
                    self.toks@,
                    self.pos as int,
                    depth as int,
                    seen_brace,
                ),
            invariant
                self.wf(),
                self.toks@.len() == old(self).toks@.len(),
                self.toks@ == old(self).toks@,
                self.fuel == old(self).fuel,
                depth <= 1000000,
            ensures
                declaration_end(self.toks@, old(self).pos as int, 0, false) == self.pos,
            decreases self.toks@.len() - self.pos,
        {
            if depth == 0 && self.is_punct(";") {
                self.advance();
                break;
            }
            if self.is_punct("{") {
                if depth < 1000000 {
                    depth = depth + 1;
                }
                seen_brace = true;
            } else if self.is_punct("}") {
                if depth > 0 {
                    depth = depth - 1;
                }
                if depth == 0 && seen_brace {
                    self.advance();
                    break;
                }
            }
            let before = self.pos;
            self.advance();
            if self.pos == before {
                break;
            }
        }
    }

    pub fn parse_statement(&mut self) -> (r: Result<Statement, JsError>)
        requires
            old(self).wf(),
        ensures
            final(self).spent(old(self), r is Ok),
        decreases old(self).fuel,
    {
        self.tick()?;
        if self.eat_punct(";") {
            return Ok(Statement::Empty);
        }
        if self.eat_punct("{") {
            let body = self.parse_block_body()?;
            return Ok(Statement::Block(body));
        }
        if (self.is_word("enum") && self.peek_at(1).kind == TokKind::Ident) || (self.is_word("const") && self.peek_at(
            1,
        ).kind == TokKind::Ident && text_is(&self.peek_at(1).text, "enum")) {
            if self.is_word("const") {
                self.advance();
            }
            self.advance();
            return self.parse_enum_rest();
        }
        if let Some(kind) = self.var_kind() {
            self.advance();
            let decls = self.parse_declarators(false)?;
            self.consume_semicolon();
            return Ok(Statement::VarDecl(kind, decls));
        }
        if self.is_word("function") || (self.is_word("async") && self.peek_at(1).kind
            == TokKind::Ident && text_is(&self.peek_at(1).text, "function")) {
            if self.is_word("async") {
                self.advance();
            }
            self.advance();
            let f = self.parse_function_rest(true)?;
            return Ok(Statement::FunctionDecl(Rc::new(f)));
        }
        if (self.is_word("type") || self.is_word("interface") || self.is_word("declare"))
            && self.peek_at(1).kind == TokKind::Ident && !self.peek_at(1).nl_before {
            self.skip_type_declaration();
            return Ok(Statement::Empty);
        }
        if self.eat_word("return") {
            if self.is_punct(";") || self.is_punct("}") || self.at_eof() || self.cur().nl_before {
                self.consume_semicolon();
                return Ok(Statement::Return(None));
            }
            let e = self.parse_expression()?;
            self.consume_semicolon();
            return Ok(Statement::Return(Some(e)));
        }
        if self.eat_word("if") {
            self.expect_punct("(")?;
            let test = self.parse_expression()?;
            self.expect_punct(")")?;
            let cons = self.parse_statement()?;
            let alt = if self.eat_word("else") {
                Some(Box::new(self.parse_statement()?))
            } else {
                None
            };
            return Ok(Statement::If(test, Box::new(cons), alt));
        }
        if self.eat_word("while") {
            self.expect_punct("(")?;
            let test = self.parse_expression()?;
            self.expect_punct(")")?;
            let body = self.parse_statement()?;
            return Ok(Statement::While(test, Box::new(body)));
        }
        if self.eat_word("do") {
            let body = self.parse_statement()?;
            if !self.eat_word("while") {
                return Err(syntax_error("Unexpected token"));
            }
            self.expect_punct("(")?;
            let test = self.parse_expression()?;
            self.expect_punct(")")?;
            self.consume_semicolon();
            return Ok(Statement::DoWhile(Box::new(body), test));
        }
        if self.eat_word("for") {
            return self.parse_for_rest();
        }
        if self.eat_word("break") {
            let label = if self.cur().kind == TokKind::Ident && !self.cur().nl_before
                && !is_reserved(&self.cur().text) {
                Some(self.ident_name()?)
            } else {
                None
            };
            self.consume_semicolon();
            return Ok(Statement::Break(label));
        }
        if self.eat_word("continue") {
            let label = if self.cur().kind == TokKind::Ident && !self.cur().nl_before
                && !is_reserved(&self.cur().text) {
                Some(self.ident_name()?)
            } else {
                None
            };
            self.consume_semicolon();
            return Ok(Statement::Continue(label));
        }
        if self.eat_word("throw") {
            let e = self.parse_expression()?;
            self.consume_semicolon();
            return Ok(Statement::Throw(e));
        }
        if self.eat_word("try") {
            self.expect_punct("{")?;
            let block = self.parse_block_body()?;
            let mut param: Option<Pattern> = None;
            let mut handler: Option<Vec<Statement>> = None;
            if self.eat_word("catch") {
                if self.eat_punct("(") {
                    param = Some(self.parse_pattern()?);
                    self.expect_punct(")")?;
                }
                self.expect_punct("{")?;
                handler = Some(self.parse_block_body()?);
            }
            let finalizer = if self.eat_word("finally") {
                self.expect_punct("{")?;
                Some(self.parse_block_body()?)
            } else {
                None
            };
            if handler.is_none() && finalizer.is_none() {
                return Err(syntax_error("Missing catch or finally after try"));
            }
            return Ok(Statement::Try(block, param, handler, finalizer));
        }
        if self.eat_word("switch") {
            self.expect_punct("(")?;
            let disc = self.parse_expression()?;
            self.expect_punct(")")?;
            self.expect_punct("{")?;
            let mut cases: Vec<SwitchCase> = Vec::new();
            while !self.is_punct("}") && !self.at_eof()
                invariant
                    self.wf(),
                    self.toks@.len() == old(self).toks@.len(),
                    self.fuel < old(self).fuel,
                decreases self.fuel,
            {
                self.tick()?;
                let ghost f0 = self.fuel;
                let test = if self.eat_word("case") {
                    Some(self.parse_expression()?)
                } else if self.eat_word("default") {
                    None
                } else {
                    return Err(syntax_error("Unexpected token"));
                };
                self.expect_punct(":")?;
                let mut body: Vec<Statement> = Vec::new();
                while !self.is_punct("}") && !self.is_word("case") && !self.is_word("default")
                    && !self.at_eof()
                    invariant
                        self.wf(),
                        self.toks@.len() == old(self).toks@.len(),
                        self.fuel <= f0,
                        f0 < old(self).fuel,
                    decreases self.fuel,
                {
                    let s = self.parse_statement()?;
                    body.push(s);
                }
                cases.push(SwitchCase { test, body });
            }
            self.expect_punct("}")?;
            return Ok(Statement::Switch(disc, cases));
        }
        // labelled statement
        if self.cur().kind == TokKind::Ident && self.is_punct_at(1, ":") && !is_reserved(
            &self.cur().text,
        ) {
            let label = self.ident_name()?;
            self.advance();
            let body = self.parse_statement()?;
            return Ok(Statement::Labeled(label, Box::new(body)));
        }
        let e = self.parse_expression()?;
        self.consume_semicolon();
        Ok(Statement::Expr(e))
    }

    /// `for` statements after the keyword.
    fn parse_for_rest(&mut self) -> (r: Result<Statement, JsError>)
        requires
            old(self).wf(),
        ensures
            final(self).spent(old(self), r is Ok),
        decreases old(self).fuel,
    {
        self.tick()?;
        self.expect_punct("(")?;
        let mut init: Option<ForInit> = None;
        if let Some(kind) = self.var_kind() {
            self.advance();
            let mut decls = self.parse_declarators(true)?;
            if self.is_word("of") || self.is_word("in") {
                let is_of = self.is_word("of");
                self.advance();
                let iter = if is_of {
                    self.parse_assign()?
                } else {
                    self.parse_expression()?
                };
                self.expect_punct(")")?;
                let body = self.parse_statement()?;
                if decls.len() != 1 {
                    return Err(syntax_error("Invalid left-hand side in for loop"));
                }
                let d = decls.pop().unwrap();
                return Ok(Statement::ForEach(is_of, kind, d.target, iter, Box::new(body)));
            }
            init = Some(ForInit::Decl(kind, decls));
        } else if !self.is_punct(";") {
            // `for (x of ...)` with an existing variable
            if self.cur().kind == TokKind::Ident && self.peek_at(1).kind == TokKind::Ident && (
            text_is(&self.peek_at(1).text, "of") || text_is(&self.peek_at(1).text, "in")) {
                let name = self.ident_name()?;
                let is_of = self.is_word("of");
                self.advance();
                let iter = self.parse_assign()?;
                self.expect_punct(")")?;
                let body = self.parse_statement()?;
                return Ok(
                    Statement::ForEach(
                        is_of,
                        VarKind::Var,
                        Pattern::Ident(name),
                        iter,
                        Box::new(body),
                    ),
                );
            }
            init = Some(ForInit::Expr(self.parse_expression()?));
        }
        self.expect_punct(";")?;
        let test = if self.is_punct(";") {
            None
        } else {
            Some(self.parse_expression()?)
        };
        self.expect_punct(";")?;
        let update = if self.is_punct(")") {
            None
        } else {
            Some(self.parse_expression()?)
        };
        self.expect_punct(")")?;
        let body = self.parse_statement()?;
        Ok(Statement::For(init, test, update, Box::new(body)))
    }

    /// Statements to the end of input.
    pub fn parse_program_body(&mut self) -> (r: Result<Program, JsError>)
        requires
            old(self).wf(),
        ensures
            final(self).spent(old(self), r is Ok),
        decreases old(self).fuel,
    {
        self.tick()?;
        let mut body: Vec<Statement> = Vec::new();
        while !self.at_eof()
            invariant
                self.wf(),
                self.toks@.len() == old(self).toks@.len(),
                self.fuel < old(self).fuel,
            decreases self.fuel,
        {
            let s = self.parse_statement()?;
            body.push(s);
        }
        Ok(Program { body })
    }
}

fn vec_of_arg(e: Expression) -> (r: Vec<Argument>)
    ensures
        r@.len() == 1,
{
    let mut v: Vec<Argument> = Vec::new();
    v.push(Argument::Plain(e));
    v
}

/// Parses program text.
pub fn parse_chars(src: &[char]) -> (r: Result<Program, JsError>) {
    let toks = tokenize(src)?;
    let mut p = Parser::new(toks, PARSE_FUEL);
    p.parse_program_body()
}

/// Parses program text.
pub fn parse_program(src: &str) -> (r: Result<Program, JsError>) {
    let chars = chars_of(src);
    parse_chars(chars.as_slice())
}

} // verus!
