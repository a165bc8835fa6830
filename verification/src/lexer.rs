//! Splits source text into tokens.
use crate::number::{
    chars_of, is_digit_char, is_space_char, parse_decimal_prefix, parse_radix_digits, JsNumber,
};
use crate::value::{ErrorKind, JsError};
use vstd::prelude::*;

verus! {

#[derive(Clone, Copy, Debug, PartialEq, Eq, Structural)]
pub enum TokKind {
    Num,
    Str,
    Ident,
    Punct,
    Template,
    Eof,
}

/// A token. `text` holds the identifier, punctuator or decoded string;
/// templates keep their literal pieces in `parts` and the source of their
/// embedded expressions in `exprs`.
#[derive(Debug)]
pub struct Token {
    pub kind: TokKind,
    pub text: Vec<char>,
    pub num: JsNumber,
    pub nl_before: bool,
    pub parts: Vec<Vec<char>>,
    pub exprs: Vec<Vec<char>>,
}

pub fn syntax_error(msg: &str) -> (e: JsError)
    ensures
        e matches JsError::Raised(k, _) && k == ErrorKind::SyntaxError,
{
    JsError::Raised(ErrorKind::SyntaxError, chars_of(msg))
}

pub open spec fn is_ident_start_spec(c: char) -> bool {
    ('a' <= c && c <= 'z') || ('A' <= c && c <= 'Z') || c == '_' || c == '$' || (c as u32)
        > 127
}

pub fn is_ident_start(c: char) -> (b: bool)
    ensures
        b == is_ident_start_spec(c),
{
    ('a' <= c && c <= 'z') || ('A' <= c && c <= 'Z') || c == '_' || c == '$' || (c as u32) > 127
}

pub fn is_ident_part(c: char) -> (b: bool)
    ensures
        b == (is_ident_start_spec(c) || ('0' <= c && c <= '9')),
{
    is_ident_start(c) || is_digit_char(c)
}

/// The value of a hexadecimal digit.
pub open spec fn hex_digit(c: char) -> Option<u32> {
    if '0' <= c <= '9' {
        Some((c as u32 - 48) as u32)
    } else if 'a' <= c <= 'f' {
        Some((c as u32 - 87) as u32)
    } else if 'A' <= c <= 'F' {
        Some((c as u32 - 55) as u32)
    } else {
        None
    }
}

fn hex_val(c: char) -> (r: Option<u32>)
    ensures
        r matches Some(v) ==> v < 16,
        r == hex_digit(c),
{
    let v = c as u32;
    if 48 <= v && v <= 57 {
        Some(v - 48)
    } else if 97 <= v && v <= 102 {
        Some(v - 87)
    } else if 65 <= v && v <= 70 {
        Some(v - 55)
    } else {
        None
    }
}

/// Reads `count` hex digits at `i`.
/// The value of a string of hexadecimal digits, or nothing when one is not a digit.
pub open spec fn hex_value(s: Seq<char>) -> Option<nat>
    decreases s.len(),
{
    if s.len() == 0 {
        Some(0)
    } else {
        match (hex_value(s.drop_last()), hex_digit(s.last())) {
            (Some(v), Some(d)) => Some(v * 16 + d as nat),
            _ => None,
        }
    }
}

/// A string of `k` hexadecimal digits is worth less than 16^k.
proof fn lemma_hex_value_bound(s: Seq<char>, bound: nat)
    requires
        hex_value(s) is Some,
        s.len() <= 5,
        bound == (if s.len() == 0 {
            1nat
        } else if s.len() == 1 {
            16nat
        } else if s.len() == 2 {
            256nat
        } else if s.len() == 3 {
            4096nat
        } else if s.len() == 4 {
            65536nat
        } else {
            1048576nat
        }),
    ensures
        hex_value(s)->0 < bound,
    decreases s.len(),
{
    if s.len() > 0 {
        let b = if s.len() == 1 {
            1nat
        } else if s.len() == 2 {
            16nat
        } else if s.len() == 3 {
            256nat
        } else if s.len() == 4 {
            4096nat
        } else {
            65536nat
        };
        lemma_hex_value_bound(s.drop_last(), b);
    }
}

/// A string whose prefix holds a non-digit holds one too.
proof fn lemma_hex_none_extends(s: Seq<char>, k: int)
    requires
        0 <= k < s.len(),
        hex_value(s.subrange(0, k + 1)) is None,
    ensures
        hex_value(s) is None,
    decreases s.len(),
{
    if k + 1 < s.len() {
        assert(s.drop_last().subrange(0, k + 1) =~= s.subrange(0, k + 1));
        lemma_hex_none_extends(s.drop_last(), k);
    } else {
        assert(s.subrange(0, k + 1) =~= s);
    }
}

fn read_hex(s: &[char], i: usize, count: usize) -> (r: Option<u32>)
    requires
        count <= 6,
    ensures
        r is Some ==> i + count <= s@.len(),
        i + count <= s@.len() ==> match hex_value(s@.subrange(i as int, i + count)) {
            Some(v) => r == Some(v as u32),
            None => r is None,
        },
        i + count > s@.len() ==> r is None,
{
    if i > s.len() || count > s.len() - i {
        return None;
    }
    let mut v: u32 = 0;
    let mut k: usize = 0;
    while k < count
        invariant
            k <= count <= 6,
            i + count <= s@.len(),
            s@.len() == s.len(),
            v < 0x1000000 || k == 0,
            v <= 0xFFFFFF,
            hex_value(s@.subrange(i as int, i + k)) == Some(v as nat),
        decreases count - k,
    {
        let ghost pre = s@.subrange(i as int, i + k);
        let ghost next = s@.subrange(i as int, i + k + 1);
        assert(next.drop_last() =~= pre);
        assert(next.last() == s@[i + k]);
        match hex_val(s[i + k]) {
            Some(d) => {
                if v >= 0x100000 {
                    proof {
                        lemma_hex_value_bound(
                            pre,
                            if k == 0 {
                                1nat
                            } else if k == 1 {
                                16nat
                            } else if k == 2 {
                                256nat
                            } else if k == 3 {
                                4096nat
                            } else if k == 4 {
                                65536nat
                            } else {
                                1048576nat
                            },
                        );
                    }
                    assert(false);
                    return None;
                }
                v = v * 16 + d;
            },
            None => {
                proof {
                    lemma_hex_none_extends(s@.subrange(i as int, i + count as int), k as int);
                }
                return None;
            },
        }
        k = k + 1;
    }
    assert(s@.subrange(i as int, i + k) =~= s@.subrange(i as int, i + count));
    Some(v)
}

/// The character with code point `v`, when it is one.
pub fn char_from_code(v: u32) -> (r: Option<char>)
    ensures
        (v < 0xD800 || (0xE000 <= v && v <= 0x10FFFF)) ==> (r matches Some(c) && c as u32 == v),
        !(v < 0xD800 || (0xE000 <= v && v <= 0x10FFFF)) ==> r is None,
{
    if v < 0xD800 || (0xE000 <= v && v <= 0x10FFFF) {
        Some(char_from_u32_checked(v))
    } else {
        None
    }
}

/// Calls `char::from_u32`, which returns the character whose code point is `v` for every
/// Unicode scalar value; the contract claims that character for the values `requires` admits.
#[verifier::external_body]
fn char_from_u32_checked(v: u32) -> (c: char)
    requires
        v < 0xD800 || (0xE000 <= v && v <= 0x10FFFF),
    ensures
        c as u32 == v,
{
    match char::from_u32(v) {
        Some(c) => c,
        None => '\u{FFFD}',
    }
}

/// Reads an escape sequence after a backslash at `i`; returns the decoded
/// character (if any) and the position after the escape.
fn read_escape(s: &[char], i: usize) -> (r: Result<(Option<char>, usize), JsError>)
    requires
        i < s@.len(),
    ensures
        r matches Ok((_, j)) ==> i < j <= s@.len(),
{
    let slen = s.len();
    let c = s[i];
    if c == 'n' {
        Ok((Some('\n'), i + 1))
    } else if c == 't' {
        Ok((Some('\t'), i + 1))
    } else if c == 'r' {
        Ok((Some('\r'), i + 1))
    } else if c == 'b' {
        Ok((Some('\x08'), i + 1))
    } else if c == 'f' {
        Ok((Some('\x0C'), i + 1))
    } else if c == 'v' {
        Ok((Some('\x0B'), i + 1))
    } else if c == '0' && !(i + 1 < s.len() && is_digit_char(s[i + 1])) {
        Ok((Some('\0'), i + 1))
    } else if c == '\n' {
        Ok((None, i + 1))
    } else if c == 'x' {
        match read_hex(s, i + 1, 2) {
            Some(v) => match char_from_code(v) {
                Some(ch) => Ok((Some(ch), i + 3)),
                None => Err(syntax_error("Invalid hexadecimal escape sequence")),
            },
            None => Err(syntax_error("Invalid hexadecimal escape sequence")),
        }
    } else if c == 'u' {
        if i + 1 < s.len() && s[i + 1] == '{' {
            let mut j = i + 2;
            let mut v: u32 = 0;
            while j < s.len() && s[j] != '}'
                invariant
                    i + 2 <= j <= s@.len(),
                    v <= 0x10FFFF,
                decreases s@.len() - j,
            {
                match hex_val(s[j]) {
                    Some(d) => {
                        if v > 0x10FFF {
                            return Err(syntax_error("Undefined Unicode code-point"));
                        }
                        v = v * 16 + d;
                        if v > 0x10FFFF {
                            return Err(syntax_error("Undefined Unicode code-point"));
                        }
                    },
                    None => {
                        return Err(syntax_error("Invalid Unicode escape sequence"));
                    },
                }
                j = j + 1;
            }
            if j >= s.len() {
                return Err(syntax_error("Invalid Unicode escape sequence"));
            }
            match char_from_code(v) {
                Some(ch) => Ok((Some(ch), j + 1)),
                None => Ok((Some('\u{FFFD}'), j + 1)),
            }
        } else {
            match read_hex(s, i + 1, 4) {
                Some(v) => match char_from_code(v) {
                    Some(ch) => Ok((Some(ch), i + 5)),
                    None => Ok((Some('\u{FFFD}'), i + 5)),
                },
                None => Err(syntax_error("Invalid Unicode escape sequence")),
            }
        }
    } else {
        Ok((Some(c), i + 1))
    }
}

/// The punctuators of more than one character, longest first.
pub open spec fn punct_texts() -> Seq<Seq<char>> {
    seq![">>>="@, "..."@, "==="@, "!=="@, "**="@, "<<="@, ">>="@, ">>>"@, "&&="@, "||="@, "??="@, "=>"@, "=="@, "!="@, "<="@, ">="@, "&&"@, "||"@, "??"@, "?."@, "++"@, "--"@, "+="@, "-="@, "*="@, "/="@, "%="@, "&="@, "|="@, "^="@, "**"@, "<<"@, ">>"@]
}

/// Punctuators, longest first.
fn punctuators() -> (r: Vec<Vec<char>>)
    ensures
        r@.len() == punct_texts().len(),
        forall|k: int| 0 <= k < r@.len() ==> (#[trigger] r@[k])@ == punct_texts()[k],
{
    let mut v: Vec<Vec<char>> = Vec::new();
    v.push(chars_of(">>>="));
    v.push(chars_of("..."));
    v.push(chars_of("==="));
    v.push(chars_of("!=="));
    v.push(chars_of("**="));
    v.push(chars_of("<<="));
    v.push(chars_of(">>="));
    v.push(chars_of(">>>"));
    v.push(chars_of("&&="));
    v.push(chars_of("||="));
    v.push(chars_of("??="));
    v.push(chars_of("=>"));
    v.push(chars_of("=="));
    v.push(chars_of("!="));
    v.push(chars_of("<="));
    v.push(chars_of(">="));
    v.push(chars_of("&&"));
    v.push(chars_of("||"));
    v.push(chars_of("??"));
    v.push(chars_of("?."));
    v.push(chars_of("++"));
    v.push(chars_of("--"));
    v.push(chars_of("+="));
    v.push(chars_of("-="));
    v.push(chars_of("*="));
    v.push(chars_of("/="));
    v.push(chars_of("%="));
    v.push(chars_of("&="));
    v.push(chars_of("|="));
    v.push(chars_of("^="));
    v.push(chars_of("**"));
    v.push(chars_of("<<"));
    v.push(chars_of(">>"));
    v
}

/// The characters that stand alone as punctuators.
pub open spec fn single_punct(c: char) -> bool {
    c == '{' || c == '}' || c == '(' || c == ')' || c == '[' || c == ']' || c == ';' || c == ',' || c == '<' || c == '>' || c == '+' || c == '-' || c == '*' || c == '/' || c == '%' || c == '&' || c == '|' || c == '^' || c == '!' || c == '~' || c == '?' || c == ':' || c == '=' || c == '.' || c == '@' || c == '#'
}

fn is_single_punct(c: char) -> (r: bool)
    ensures
        r == single_punct(c),
{
    c == '{' || c == '}' || c == '(' || c == ')' || c == '[' || c == ']' || c == ';' || c == ','
        || c == '<' || c == '>' || c == '+' || c == '-' || c == '*' || c == '/' || c == '%' || c
        == '&' || c == '|' || c == '^' || c == '!' || c == '~' || c == '?' || c == ':' || c == '='
        || c == '.' || c == '@' || c == '#'
}

fn new_token(kind: TokKind, text: Vec<char>, nl: bool) -> (t: Token)
    ensures
        t.kind == kind,
        t.text@ == text@,
        t.nl_before == nl,
{
    Token {
        kind,
        text,
        num: JsNumber::zero(),
        nl_before: nl,
        parts: Vec::new(),
        exprs: Vec::new(),
    }
}

/// Copies `s[a..b]`.
pub fn slice_chars(s: &[char], a: usize, b: usize) -> (r: Vec<char>)
    requires
        a <= b <= s@.len(),
    ensures
        r@ == s@.subrange(a as int, b as int),
{
    let mut v: Vec<char> = Vec::new();
    let mut i = a;
    while i < b
        invariant
            a <= i <= b <= s@.len(),
            v@ == s@.subrange(a as int, i as int),
        decreases b - i,
    {
        v.push(s[i]);
        i = i + 1;
    }
    v
}

/// Scans a template literal whose opening backquote is at `start`.
fn lex_template(s: &[char], start: usize, nl: bool) -> (r: Result<(Token, usize), JsError>)
    requires
        start < s@.len(),
    ensures
        r matches Ok((_, j)) ==> start < j <= s@.len(),
{
    let mut parts: Vec<Vec<char>> = Vec::new();
    let mut exprs: Vec<Vec<char>> = Vec::new();
    let mut cur: Vec<char> = Vec::new();
    let slen = s.len();
    let mut i = start + 1;
    while i < s.len() && s[i] != '`'
        invariant
            start < i <= s@.len(),
        decreases s@.len() - i,
    {
        let c = s[i];
        if c == '\\' && i + 1 < s.len() {
            let (ch, j) = read_escape(s, i + 1)?;
            if let Some(x) = ch {
                cur.push(x);
            }
            i = j;
        } else if c == '$' && i + 1 < s.len() && s[i + 1] == '{' {
            // find the matching close brace
            let mut depth: usize = 1;
            let mut j = i + 2;
            while j < s.len() && depth > 0
                invariant
                    i + 2 <= j <= s@.len(),
                    depth >= 1 || j >= i + 3,
                decreases s@.len() - j,
            {
                if s[j] == '{' && depth < usize::MAX {
                    depth = depth + 1;
                } else if s[j] == '}' {
                    depth = depth - 1;
                }
                j = j + 1;
            }
            if depth > 0 {
                return Err(syntax_error("Unterminated template literal"));
            }
            parts.push(cur);
            cur = Vec::new();
            exprs.push(slice_chars(s, i + 2, j - 1));
            i = j;
        } else {
            cur.push(c);
            i = i + 1;
        }
    }
    if i >= s.len() {
        return Err(syntax_error("Unterminated template literal"));
    }
    parts.push(cur);
    let tok = Token {
        kind: TokKind::Template,
        text: Vec::new(),
        num: JsNumber::zero(),
        nl_before: nl,
        parts,
        exprs,
    };
    Ok((tok, i + 1))
}

/// Splits `s` into tokens, ending with an `Eof` token.
pub fn tokenize(s: &[char]) -> (r: Result<Vec<Token>, JsError>)
    ensures
        r matches Ok(toks) ==> toks@.len() > 0 && toks@.last().kind == TokKind::Eof,
{
    let puncts = punctuators();
    let mut toks: Vec<Token> = Vec::new();
    let mut i: usize = 0;
    let mut nl = false;
    while i < s.len()
        invariant
            i <= s@.len(),
            s@.len() == s.len(),
        decreases s@.len() - i,
    {
        let c = s[i];
        if c == '\n' || c == '\r' || c == '\u{2028}' || c == '\u{2029}' {
            nl = true;
            i = i + 1;
        } else if is_space_char(c) {
            i = i + 1;
        } else if c == '/' && i + 1 < s.len() && s[i + 1] == '/' {
            let mut j = i + 2;
            while j < s.len() && s[j] != '\n'
                invariant
                    i + 2 <= j <= s@.len(),
                decreases s@.len() - j,
            {
                j = j + 1;
            }
            i = j;
        } else if c == '/' && i + 1 < s.len() && s[i + 1] == '*' {
            let mut j = i + 2;
            let mut end_pos: usize = 0;
            while j < s.len()
                invariant
                    i + 2 <= j <= s@.len(),
                    end_pos == 0 || (i < end_pos <= s@.len()),
                    s@.len() == s.len(),
                decreases s@.len() - j,
            {
                if s[j] == '\n' {
                    nl = true;
                }
                if s[j] == '*' && j + 1 < s.len() && s[j + 1] == '/' {
                    end_pos = j + 2;
                    break;
                }
                j = j + 1;
            }
            if end_pos == 0 {
                return Err(syntax_error("Unterminated comment"));
            }
            i = end_pos;
        } else if is_digit_char(c) || (c == '.' && i + 1 < s.len() && is_digit_char(s[i + 1])) {
            let mut num = JsNumber::zero();
            let mut end = i + 1;
            let mut done = false;
            if c == '0' && s.len() - i > 2 {
                let p = s[i + 1];
                let radix: u32 = if p == 'x' || p == 'X' {
                    16
                } else if p == 'o' || p == 'O' {
                    8
                } else if p == 'b' || p == 'B' {
                    2
                } else {
                    0
                };
                if radix != 0 {
                    let (v, e, any) = parse_radix_digits(s, i + 2, s.len(), radix);
                    if !any {
                        return Err(syntax_error("Invalid number literal"));
                    }
                    num = v;
                    end = e;
                    done = true;
                }
            }
            if !done {
                match parse_decimal_prefix(s, i) {
                    Some((v, e)) => {
                        num = v;
                        end = e;
                    },
                    None => {
                        return Err(syntax_error("Invalid number literal"));
                    },
                }
            }
            if end < s.len() && is_ident_start(s[end]) {
                return Err(syntax_error("Invalid or unexpected token"));
            }
            let mut t = new_token(TokKind::Num, slice_chars(s, i, end), nl);
            t.num = num;
            toks.push(t);
            nl = false;
            i = end;
        } else if c == '"' || c == '\'' {
            let mut text: Vec<char> = Vec::new();
            let mut j = i + 1;
            let mut end_pos: usize = 0;
            while j < s.len()
                invariant
                    i < j <= s@.len(),
                    end_pos == 0 || (i < end_pos <= s@.len()),
                    s@.len() == s.len(),
                decreases s@.len() - j,
            {
                let d = s[j];
                if d == c {
                    end_pos = j + 1;
                    break;
                }
                if d == '\n' {
                    return Err(syntax_error("Invalid or unexpected token"));
                }
                if d == '\\' && j + 1 < s.len() {
                    let (ch, k) = read_escape(s, j + 1)?;
                    if let Some(x) = ch {
                        text.push(x);
                    }
                    j = k;
                } else {
                    text.push(d);
                    j = j + 1;
                }
            }
            if end_pos == 0 {
                return Err(syntax_error("Invalid or unexpected token"));
            }
            toks.push(new_token(TokKind::Str, text, nl));
            nl = false;
            i = end_pos;
        } else if c == '`' {
            let (t, j) = lex_template(s, i, nl)?;
            toks.push(t);
            nl = false;
            i = j;
        } else if is_ident_start(c) || c == '\\' {
            let mut j = i;
            while j < s.len() && is_ident_part(s[j])
                invariant
                    i <= j <= s@.len(),
                decreases s@.len() - j,
            {
                j = j + 1;
            }
            if j == i {
                return Err(syntax_error("Invalid or unexpected token"));
            }
            toks.push(new_token(TokKind::Ident, slice_chars(s, i, j), nl));
            nl = false;
            i = j;
        } else {
            let mut matched: usize = 0;
            let mut k: usize = 0;
            while k < puncts.len()
                invariant
                    i < s@.len(),
                    s@.len() == s.len(),
                    matched == 0 || (i < matched <= s@.len()),
                decreases puncts@.len() - k,
            {
                let p = &puncts[k];
                if crate::number::starts_with_at(s, i, p.as_slice()) && p.len() > 0 {
                    matched = i + p.len();
                    break;
                }
                k = k + 1;
            }
            if matched == 0 {
                if is_single_punct(c) {
                    matched = i + 1;
                } else {
                    return Err(syntax_error("Invalid or unexpected token"));
                }
            }
            // `?.` followed by a digit is `?` then a number
            if c == '?' && s.len() - i > 2 && matched == i + 2 && s[i + 1] == '.' && is_digit_char(
                s[i + 2],
            ) {
                matched = i + 1;
            }
            toks.push(new_token(TokKind::Punct, slice_chars(s, i, matched), nl));
            nl = false;
            i = matched;
        }
    }
    toks.push(new_token(TokKind::Eof, Vec::new(), true));
    Ok(toks)
}

} // verus!
