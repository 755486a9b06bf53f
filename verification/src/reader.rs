//! The reader: a lexer over a character buffer and, on top of it, a
//! recursive-descent parser producing located syntax trees.
//!
//! The lexer is modelled by a family of pure functions over the character
//! sequence and a cursor ([`LexState`]); every executable step is pinned to
//! the model.  Locations saturate instead of overflowing: a line or column
//! counter that reaches its maximum stays there.

use vstd::prelude::*;

use crate::error::{Error, SpecError};
use crate::number::{spec_from_parts, Number};
use crate::text::{chars_to_string, str_chars};

verus! {

/// A source location: line and column, both 1-based at the start of input.
#[derive(Clone, Copy, Debug, PartialEq, Eq, Structural)]
pub struct Loc {
    pub line: i32,
    pub column: i32,
}

impl Loc {
    /// The null location used where none is known.
    pub fn blank() -> (l: Loc)
        ensures
            l == (Loc { line: 0, column: 0 }),
    {
        Loc { line: 0, column: 0 }
    }
}

/// One token, carrying the location the cursor had after reading it.
#[derive(Debug)]
pub enum Tok {
    Eof(Loc),
    Number(Number, Loc),
    Bool(bool, Loc),
    Str(String, Loc),
    Atom(String, Loc),
    OpenParen(Loc),
    CloseParen(Loc),
    OpenBrace(Loc),
    CloseBrace(Loc),
    OpenBracket(Loc),
    CloseBracket(Loc),
    Quote(Loc),
}

/// The mathematical counterpart of a [`Tok`].
pub enum SpecTok {
    Eof(Loc),
    Number(Number, Loc),
    Bool(bool, Loc),
    Str(Seq<char>, Loc),
    Atom(Seq<char>, Loc),
    OpenParen(Loc),
    CloseParen(Loc),
    OpenBrace(Loc),
    CloseBrace(Loc),
    OpenBracket(Loc),
    CloseBracket(Loc),
    Quote(Loc),
}

/// The model of a token.
pub open spec fn view_tok(t: Tok) -> SpecTok {
    match t {
        Tok::Eof(l) => SpecTok::Eof(l),
        Tok::Number(n, l) => SpecTok::Number(n, l),
        Tok::Bool(b, l) => SpecTok::Bool(b, l),
        Tok::Str(s, l) => SpecTok::Str(s@, l),
        Tok::Atom(s, l) => SpecTok::Atom(s@, l),
        Tok::OpenParen(l) => SpecTok::OpenParen(l),
        Tok::CloseParen(l) => SpecTok::CloseParen(l),
        Tok::OpenBrace(l) => SpecTok::OpenBrace(l),
        Tok::CloseBrace(l) => SpecTok::CloseBrace(l),
        Tok::OpenBracket(l) => SpecTok::OpenBracket(l),
        Tok::CloseBracket(l) => SpecTok::CloseBracket(l),
        Tok::Quote(l) => SpecTok::Quote(l),
    }
}

/// Whether two tokens agree in kind and content; locations are ignored.
pub open spec fn tok_like(a: SpecTok, b: SpecTok) -> bool {
    match (a, b) {
        (SpecTok::Eof(_), SpecTok::Eof(_)) => true,
        (SpecTok::Number(x, _), SpecTok::Number(y, _)) => x == y,
        (SpecTok::Bool(x, _), SpecTok::Bool(y, _)) => x == y,
        (SpecTok::Str(x, _), SpecTok::Str(y, _)) => x == y,
        (SpecTok::Atom(x, _), SpecTok::Atom(y, _)) => x == y,
        (SpecTok::OpenParen(_), SpecTok::OpenParen(_)) => true,
        (SpecTok::CloseParen(_), SpecTok::CloseParen(_)) => true,
        (SpecTok::OpenBrace(_), SpecTok::OpenBrace(_)) => true,
        (SpecTok::CloseBrace(_), SpecTok::CloseBrace(_)) => true,
        (SpecTok::OpenBracket(_), SpecTok::OpenBracket(_)) => true,
        (SpecTok::CloseBracket(_), SpecTok::CloseBracket(_)) => true,
        (SpecTok::Quote(_), SpecTok::Quote(_)) => true,
        _ => false,
    }
}

impl PartialEq for Tok {
    /// Tokens compare by kind and content; locations are ignored.
    fn eq(&self, other: &Tok) -> (r: bool)
        ensures
            r == tok_like(view_tok(*self), view_tok(*other)),
    {
        match (self, other) {
            (Tok::Eof(_), Tok::Eof(_)) => true,
            (Tok::Number(a, _), Tok::Number(b, _)) => *a == *b,
            (Tok::Bool(a, _), Tok::Bool(b, _)) => *a == *b,
            (Tok::Str(a, _), Tok::Str(b, _)) => *a == *b,
            (Tok::Atom(a, _), Tok::Atom(b, _)) => *a == *b,
            (Tok::OpenParen(_), Tok::OpenParen(_)) => true,
            (Tok::CloseParen(_), Tok::CloseParen(_)) => true,
            (Tok::OpenBrace(_), Tok::OpenBrace(_)) => true,
            (Tok::CloseBrace(_), Tok::CloseBrace(_)) => true,
            (Tok::OpenBracket(_), Tok::OpenBracket(_)) => true,
            (Tok::CloseBracket(_), Tok::CloseBracket(_)) => true,
            (Tok::Quote(_), Tok::Quote(_)) => true,
            _ => false,
        }
    }
}

impl vstd::std_specs::cmp::PartialEqSpecImpl for Tok {
    open spec fn obeys_eq_spec() -> bool {
        true
    }

    open spec fn eq_spec(&self, other: &Tok) -> bool {
        tok_like(view_tok(*self), view_tok(*other))
    }
}

/// The lexer's cursor: an index into the characters and the location it
/// stands for.
pub ghost struct LexState {
    pub it: int,
    pub loc: Loc,
}

/// A counter bump that saturates at the largest machine value.
pub open spec fn bump_s(x: i32) -> i32 {
    if x == i32::MAX {
        x
    } else {
        (x + 1) as i32
    }
}

/// The cursor moved one character right, within a line.
pub open spec fn adv_plain(st: LexState) -> LexState {
    LexState { it: st.it + 1, loc: Loc { line: st.loc.line, column: bump_s(st.loc.column) } }
}

/// The cursor moved over one whitespace character: a newline starts the next
/// line, anything else advances within the line.
pub open spec fn adv_ws(code: Seq<char>, st: LexState) -> LexState {
    if 0 <= st.it < code.len() && code[st.it] == '\n' {
        LexState { it: st.it + 1, loc: Loc { line: bump_s(st.loc.line), column: 1 } }
    } else {
        LexState {
            it: st.it + 1,
            loc: Loc { line: st.loc.line, column: bump_s(bump_s(st.loc.column)) },
        }
    }
}

/// The whitespace characters.
pub open spec fn is_ws_s(c: char) -> bool {
    c == ' ' || c == '\t' || c == '\r' || c == '\n'
}

/// The decimal digits.
pub open spec fn is_digit_s(c: char) -> bool {
    48 <= c as u32 <= 57
}

/// The numeric value of a digit character.
pub open spec fn digit_val_s(c: char) -> nat {
    (c as u32 - 48) as nat
}

/// The characters that end an atom: grouping delimiters, the quote marks,
/// the backtick, and whitespace.
pub open spec fn is_delim_s(c: char) -> bool {
    c == '(' || c == ')' || c == '[' || c == ']' || c == '{' || c == '}' || c == '\'' || c == '"'
        || c == '`' || is_ws_s(c)
}

/// The cursor after all whitespace and line comments before the next token.
/// In comment mode everything up to the next newline is consumed.
pub open spec fn skip_trivia_s(code: Seq<char>, st: LexState, in_comment: bool) -> LexState
    decreases code.len() - st.it,
{
    if st.it < 0 || st.it >= code.len() {
        st
    } else if in_comment {
        if code[st.it] == '\n' {
            skip_trivia_s(code, adv_ws(code, st), false)
        } else {
            skip_trivia_s(code, adv_plain(st), true)
        }
    } else if is_ws_s(code[st.it]) {
        skip_trivia_s(code, adv_ws(code, st), false)
    } else if code[st.it] == ';' {
        skip_trivia_s(code, adv_plain(st), true)
    } else {
        st
    }
}

/// The cursor after a run of whitespace.
pub open spec fn skip_ws_s(code: Seq<char>, st: LexState) -> LexState
    decreases code.len() - st.it,
{
    if 0 <= st.it < code.len() && is_ws_s(code[st.it]) {
        skip_ws_s(code, adv_ws(code, st))
    } else {
        st
    }
}

/// The cursor after the body of one line comment, stopped at the newline.
pub open spec fn skip_comment_body_s(code: Seq<char>, st: LexState) -> LexState
    decreases code.len() - st.it,
{
    if 0 <= st.it < code.len() && code[st.it] != '\n' {
        skip_comment_body_s(code, adv_plain(st))
    } else {
        st
    }
}

/// The cursor after one line comment, if one starts here.
pub open spec fn skip_comment_s(code: Seq<char>, st: LexState) -> LexState {
    if 0 <= st.it < code.len() && code[st.it] == ';' {
        skip_comment_body_s(code, st)
    } else {
        st
    }
}

/// The cursor, mantissa and scale after a run of digits holding at most one
/// embedded decimal point.
pub open spec fn scan_digits_s(
    code: Seq<char>,
    st: LexState,
    mant: nat,
    scale: nat,
    seen_dot: bool,
) -> (LexState, nat, nat)
    decreases code.len() - st.it,
{
    if st.it < 0 || st.it >= code.len() {
        (st, mant, scale)
    } else if code[st.it] == '.' && !seen_dot {
        scan_digits_s(code, adv_plain(st), mant, scale, true)
    } else if is_digit_s(code[st.it]) {
        scan_digits_s(
            code,
            adv_plain(st),
            10 * mant + digit_val_s(code[st.it]),
            if seen_dot {
                scale + 1
            } else {
                scale
            },
            seen_dot,
        )
    } else {
        (st, mant, scale)
    }
}

/// The cursor and content after the body of a string literal: everything up
/// to the closing quote, which is consumed, or to end of input.
pub open spec fn scan_string_s(code: Seq<char>, st: LexState, acc: Seq<char>) -> (
    LexState,
    Seq<char>,
)
    decreases code.len() - st.it,
{
    if st.it < 0 || st.it >= code.len() {
        (st, acc)
    } else if code[st.it] == '"' {
        (adv_plain(st), acc)
    } else {
        scan_string_s(code, adv_plain(st), acc.push(code[st.it]))
    }
}

/// The cursor and content after a maximal run of non-delimiter characters.
pub open spec fn scan_atom_s(code: Seq<char>, st: LexState, acc: Seq<char>) -> (LexState, Seq<char>)
    decreases code.len() - st.it,
{
    if 0 <= st.it < code.len() && !is_delim_s(code[st.it]) {
        scan_atom_s(code, adv_plain(st), acc.push(code[st.it]))
    } else {
        (st, acc)
    }
}

/// What one call of the lexer yields: a token or an error, and the cursor
/// left behind.
pub ghost struct LexOut {
    pub r: Result<SpecTok, SpecError>,
    pub st: LexState,
}

/// The next token of the input, as read from `st0`: trivia is skipped, then
/// the first of these succeeds — a number (optional sign, optional leading
/// point, then digits), a boolean `#f`/`#t`, a string, a single-character
/// token, end of input, or an atom.  An unconsumed delimiter that fits no
/// rule is a lexical error, as is a numeric token outside the number model.
pub open spec fn next_token_s(code: Seq<char>, st0: LexState) -> LexOut {
    let st = skip_trivia_s(code, st0, false);
    let neg = 0 <= st.it < code.len() && code[st.it] == '-';
    let st1 = if neg {
        adv_plain(st)
    } else {
        st
    };
    let dot0 = 0 <= st1.it < code.len() && code[st1.it] == '.';
    let st2 = if dot0 {
        adv_plain(st1)
    } else {
        st1
    };
    if 0 <= st2.it < code.len() && is_digit_s(code[st2.it]) {
        let (st3, mant, scale) = scan_digits_s(code, st2, 0, 0, dot0);
        if mant > u64::MAX || scale > u32::MAX {
            LexOut { r: Err(SpecError::BadNumber(st3.loc)), st: st3 }
        } else {
            LexOut {
                r: Ok(SpecTok::Number(spec_from_parts(neg, mant as u64, scale as u32), st3.loc)),
                st: st3,
            }
        }
    } else if 0 <= st.it && st.it + 1 < code.len() && code[st.it] == '#' && (code[st.it + 1] == 'f'
        || code[st.it + 1] == 't') {
        let st2b = adv_plain(adv_plain(st));
        LexOut { r: Ok(SpecTok::Bool(code[st.it + 1] == 't', st2b.loc)), st: st2b }
    } else if 0 <= st.it < code.len() && code[st.it] == '"' {
        let (st3, content) = scan_string_s(code, adv_plain(st), Seq::empty());
        LexOut { r: Ok(SpecTok::Str(content, st3.loc)), st: st3 }
    } else if 0 <= st.it < code.len() && code[st.it] == '(' {
        let st3 = adv_plain(st);
        LexOut { r: Ok(SpecTok::OpenParen(st3.loc)), st: st3 }
    } else if 0 <= st.it < code.len() && code[st.it] == ')' {
        let st3 = adv_plain(st);
        LexOut { r: Ok(SpecTok::CloseParen(st3.loc)), st: st3 }
    } else if 0 <= st.it < code.len() && code[st.it] == '[' {
        let st3 = adv_plain(st);
        LexOut { r: Ok(SpecTok::OpenBracket(st3.loc)), st: st3 }
    } else if 0 <= st.it < code.len() && code[st.it] == ']' {
        let st3 = adv_plain(st);
        LexOut { r: Ok(SpecTok::CloseBracket(st3.loc)), st: st3 }
    } else if 0 <= st.it < code.len() && code[st.it] == '{' {
        let st3 = adv_plain(st);
        LexOut { r: Ok(SpecTok::OpenBrace(st3.loc)), st: st3 }
    } else if 0 <= st.it < code.len() && code[st.it] == '}' {
        let st3 = adv_plain(st);
        LexOut { r: Ok(SpecTok::CloseBrace(st3.loc)), st: st3 }
    } else if 0 <= st.it < code.len() && code[st.it] == '\'' {
        let st3 = adv_plain(st);
        LexOut { r: Ok(SpecTok::Quote(st3.loc)), st: st3 }
    } else if st.it >= code.len() {
        LexOut { r: Ok(SpecTok::Eof(st.loc)), st }
    } else if 0 <= st.it && !is_delim_s(code[st.it]) {
        let (st3, content) = scan_atom_s(code, st, Seq::empty());
        LexOut { r: Ok(SpecTok::Atom(content, st3.loc)), st: st3 }
    } else {
        LexOut { r: Err(SpecError::BadChar(code[st.it], st.loc)), st }
    }
}

/// The reader's visible state: the characters, the cursor, and the cursor
/// saved by the last [`Reader::pin`].
pub ghost struct RView {
    pub code: Seq<char>,
    pub st: LexState,
    pub pin: LexState,
}

/// A lexer and parser over one source string.
pub struct Reader {
    it: usize,
    pin: usize,
    pin_loc: Loc,
    code: Vec<char>,
    loc: Loc,
}

impl View for Reader {
    type V = RView;

    closed spec fn view(&self) -> RView {
        RView {
            code: self.code@,
            st: LexState { it: self.it as int, loc: self.loc },
            pin: LexState { it: self.pin as int, loc: self.pin_loc },
        }
    }
}

/// Whether `chr` ends an atom.
pub fn is_delim(chr: char) -> (r: bool)
    ensures
        r == is_delim_s(chr),
{
    match chr {
        '(' | ')' | '[' | ']' | '{' | '}' | '\'' | '"' | '`' => true,
        ' ' | '\t' | '\r' | '\n' => true,
        _ => false,
    }
}

/// Whether `c` is whitespace.
fn is_ws(c: char) -> (r: bool)
    ensures
        r == is_ws_s(c),
{
    c == ' ' || c == '\t' || c == '\r' || c == '\n'
}

/// Whether `c` is a decimal digit.
fn is_digit(c: char) -> (r: bool)
    ensures
        r == is_digit_s(c),
{
    let u = c as u32;
    48 <= u && u <= 57
}

/// A saturating counter bump.
fn bump(x: i32) -> (r: i32)
    ensures
        r == bump_s(x),
{
    if x == i32::MAX {
        x
    } else {
        x + 1
    }
}

impl Reader {
    /// A reader over `code`, with the cursor at its first character.
    pub fn new(code: &str) -> (r: Reader)
        ensures
            r@.code == code@,
            r@.st == (LexState { it: 0, loc: Loc { line: 1, column: 1 } }),
            r@.pin == r@.st,
    {
        Reader {
            it: 0,
            pin: 0,
            pin_loc: Loc { line: 1, column: 1 },
            code: str_chars(code),
            loc: Loc { line: 1, column: 1 },
        }
    }

    /// Saves the cursor, to be restored by [`Reader::unpin`].
    pub fn pin(&mut self)
        ensures
            final(self)@.code == old(self)@.code,
            final(self)@.st == old(self)@.st,
            final(self)@.pin == old(self)@.st,
    {
        self.pin_loc = Loc { line: self.loc.line, column: self.loc.column };
        self.pin = self.it;
    }

    /// Restores the cursor saved by the last [`Reader::pin`].
    pub fn unpin(&mut self)
        ensures
            final(self)@.code == old(self)@.code,
            final(self)@.st == old(self)@.pin,
            final(self)@.pin == old(self)@.pin,
    {
        self.it = self.pin;
        self.loc = Loc { line: self.pin_loc.line, column: self.pin_loc.column };
    }

    /// Whether the whole input has been consumed.
    pub fn at_eof(&self) -> (r: bool)
        ensures
            r == (self@.st.it >= self@.code.len()),
    {
        self.it >= self.code.len()
    }

    /// The current location.
    pub fn get_loc(&self) -> (l: Loc)
        ensures
            l == self@.st.loc,
    {
        Loc { line: self.loc.line, column: self.loc.column }
    }

    /// The current character, or `or` past the end of input.
    pub fn current_char_or(&self, or: char) -> (c: char)
        ensures
            c == if self@.st.it < self@.code.len() {
                self@.code[self@.st.it]
            } else {
                or
            },
    {
        if self.at_eof() {
            return or;
        }
        self.code[self.it]
    }

    /// The current character, or the null character past the end of input.
    pub fn current_char_def(&self) -> (c: char)
        ensures
            c == if self@.st.it < self@.code.len() {
                self@.code[self@.st.it]
            } else {
                '\0'
            },
    {
        self.current_char_or('\0')
    }

    /// The current character, if any remains.
    pub fn current_char(&self) -> (c: Option<char>)
        ensures
            c == if self@.st.it < self@.code.len() {
                Some(self@.code[self@.st.it])
            } else {
                None::<char>
            },
    {
        if self.at_eof() {
            None
        } else {
            Some(self.code[self.it])
        }
    }

    /// Moves the cursor one character right, within the line.
    pub fn move_next(&mut self)
        requires
            old(self)@.st.it < old(self)@.code.len(),
        ensures
            final(self)@.code == old(self)@.code,
            final(self)@.pin == old(self)@.pin,
            final(self)@.st == adv_plain(old(self)@.st),
    {
        self.loc.column = bump(self.loc.column);
        let n = self.code.len();
        proof {
            assert(self.it < n);
        }
        self.it = self.it + 1;
    }

    /// The current character; the cursor moves past it.
    pub fn get_then_move(&mut self) -> (c: char)
        requires
            old(self)@.st.it < old(self)@.code.len(),
        ensures
            final(self)@.code == old(self)@.code,
            final(self)@.pin == old(self)@.pin,
            final(self)@.st == adv_plain(old(self)@.st),
            c == old(self)@.code[old(self)@.st.it],
    {
        let v = self.current_char_def();
        self.move_next();
        v
    }

    /// Consumes the whitespace under and right of the cursor.
    pub fn skip_whitespace(&mut self)
        ensures
            final(self)@.code == old(self)@.code,
            final(self)@.pin == old(self)@.pin,
            final(self)@.st == skip_ws_s(old(self)@.code, old(self)@.st),
    {
        let ghost orig = self@;
        while !self.at_eof() && is_ws(self.current_char_def())
            invariant
                self@.code == orig.code,
                self@.pin == orig.pin,
                self@.st.it >= 0,
                skip_ws_s(self@.code, self@.st) == skip_ws_s(orig.code, orig.st),
            decreases self@.code.len() - self@.st.it,
        {
            let chr = self.current_char_def();
            if chr == '\n' {
                self.loc.line = bump(self.loc.line);
                self.loc.column = 0;
            } else {
                self.loc.column = bump(self.loc.column);
            }
            self.move_next();
        }
    }

    /// Consumes one line comment, if the cursor stands on one, up to but not
    /// including the newline that ends it.
    pub fn skip_comments(&mut self)
        ensures
            final(self)@.code == old(self)@.code,
            final(self)@.pin == old(self)@.pin,
            final(self)@.st == skip_comment_s(old(self)@.code, old(self)@.st),
    {
        let ghost orig = self@;
        if self.current_char_def() == ';' {
            while !self.at_eof() && self.current_char_def() != '\n'
                invariant
                    self@.code == orig.code,
                    self@.pin == orig.pin,
                    self@.st.it >= 0,
                    skip_comment_body_s(self@.code, self@.st) == skip_comment_body_s(
                        orig.code,
                        orig.st,
                    ),
                decreases self@.code.len() - self@.st.it,
            {
                self.move_next();
            }
        }
    }

    /// Consumes whitespace and line comments until the cursor stands on a
    /// token or at the end of input.
    fn skip_trivia(&mut self)
        ensures
            final(self)@.code == old(self)@.code,
            final(self)@.pin == old(self)@.pin,
            final(self)@.st == skip_trivia_s(old(self)@.code, old(self)@.st, false),
    {
        let ghost orig = self@;
        let mut in_comment = false;
        loop
            invariant
                orig == old(self)@,
                self@.code == orig.code,
                self@.pin == orig.pin,
                self@.st.it >= 0,
                skip_trivia_s(self@.code, self@.st, in_comment) == skip_trivia_s(
                    orig.code,
                    orig.st,
                    false,
                ),
            decreases self@.code.len() - self@.st.it, (if in_comment {
                0int
            } else {
                1int
            }),
        {
            if self.at_eof() {
                return ;
            }
            let c = self.current_char_def();
            if in_comment {
                if c == '\n' {
                    self.loc.line = bump(self.loc.line);
                    self.loc.column = 0;
                    self.move_next();
                    in_comment = false;
                } else {
                    self.move_next();
                }
            } else if is_ws(c) {
                if c == '\n' {
                    self.loc.line = bump(self.loc.line);
                    self.loc.column = 0;
                } else {
                    self.loc.column = bump(self.loc.column);
                }
                self.move_next();
            } else if c == ';' {
                self.move_next();
                in_comment = true;
            } else {
                return ;
            }
        }
    }

    /// Consumes a run of digits with at most one embedded point, reporting
    /// the mantissa, the count of fractional digits, and whether either
    /// outgrew its machine field.
    fn scan_digits(&mut self, seen_dot0: bool) -> (r: (u64, u32, bool))
        ensures
            final(self)@.code == old(self)@.code,
            final(self)@.pin == old(self)@.pin,
            ({
                let (st3, m, s) = scan_digits_s(old(self)@.code, old(self)@.st, 0, 0, seen_dot0);
                &&& final(self)@.st == st3
                &&& r.2 == (m > u64::MAX || s > u32::MAX)
                &&& (!r.2 ==> r.0 == m && r.1 == s)
            }),
    {
        let ghost orig = self@;
        let mut mant: u64 = 0;
        let mut scale: u32 = 0;
        let mut ovf = false;
        let mut seen_dot = seen_dot0;
        let ghost mut gm: nat = 0;
        let ghost mut gs: nat = 0;
        while !self.at_eof() && ((self.current_char_def() == '.' && !seen_dot) || is_digit(
            self.current_char_def(),
        ))
            invariant
                orig == old(self)@,
                self@.code == orig.code,
                self@.pin == orig.pin,
                self@.st.it >= 0,
                scan_digits_s(self@.code, self@.st, gm, gs, seen_dot) == scan_digits_s(
                    orig.code,
                    orig.st,
                    0,
                    0,
                    seen_dot0,
                ),
                !ovf ==> mant == gm && scale == gs,
                ovf ==> gm > u64::MAX || gs > u32::MAX,
            decreases self@.code.len() - self@.st.it,
        {
            let c = self.current_char_def();
            if c == '.' && !seen_dot {
                self.move_next();
                seen_dot = true;
            } else {
                let d: u64 = ((c as u32) - 48) as u64;
                self.move_next();
                proof {
                    let gm2: nat = 10 * gm + digit_val_s(c);
                    assert(gm2 >= gm) by (nonlinear_arith)
                        requires
                            gm2 == 10 * gm + digit_val_s(c) && gm >= 0 && digit_val_s(c) >= 0,
                    ;
                }
                if ovf {
                    proof {
                        gm = 10 * gm + digit_val_s(c);
                        if seen_dot {
                            gs = gs + 1;
                        }
                    }
                } else if mant > (u64::MAX - d) / 10 {
                    proof {
                        vstd::arithmetic::div_mod::lemma_fundamental_div_mod(
                            u64::MAX as int - d as int,
                            10,
                        );
                        assert(10 * gm + digit_val_s(c) > u64::MAX);
                        gm = 10 * gm + digit_val_s(c);
                        if seen_dot {
                            gs = gs + 1;
                        }
                    }
                    ovf = true;
                } else if seen_dot && scale == u32::MAX {
                    proof {
                        gm = 10 * gm + digit_val_s(c);
                        gs = gs + 1;
                    }
                    ovf = true;
                } else {
                    proof {
                        vstd::arithmetic::div_mod::lemma_fundamental_div_mod(
                            u64::MAX as int - d as int,
                            10,
                        );
                        assert(10 * gm + digit_val_s(c) <= u64::MAX);
                        gm = 10 * gm + digit_val_s(c);
                        if seen_dot {
                            gs = gs + 1;
                        }
                    }
                    mant = mant * 10 + d;
                    if seen_dot {
                        scale = scale + 1;
                    }
                }
            }
        }
        (mant, scale, ovf)
    }

    /// Consumes the body of a string literal up to its closing quote.
    fn scan_string(&mut self) -> (r: Vec<char>)
        ensures
            final(self)@.code == old(self)@.code,
            final(self)@.pin == old(self)@.pin,
            ({
                let (st3, content) = scan_string_s(old(self)@.code, old(self)@.st, Seq::empty());
                &&& final(self)@.st == st3
                &&& r@ == content
            }),
    {
        let ghost orig = self@;
        let mut acc: Vec<char> = Vec::new();
        while !self.at_eof() && self.current_char_def() != '"'
            invariant
                orig == old(self)@,
                self@.code == orig.code,
                self@.pin == orig.pin,
                self@.st.it >= 0,
                scan_string_s(self@.code, self@.st, acc@) == scan_string_s(
                    orig.code,
                    orig.st,
                    Seq::empty(),
                ),
            decreases self@.code.len() - self@.st.it,
        {
            let c = self.get_then_move();
            acc.push(c);
        }
        if !self.at_eof() {
            self.move_next();
        }
        acc
    }

    /// Consumes a maximal run of non-delimiter characters.
    fn scan_atom(&mut self) -> (r: Vec<char>)
        ensures
            final(self)@.code == old(self)@.code,
            final(self)@.pin == old(self)@.pin,
            ({
                let (st3, content) = scan_atom_s(old(self)@.code, old(self)@.st, Seq::empty());
                &&& final(self)@.st == st3
                &&& r@ == content
            }),
    {
        let ghost orig = self@;
        let mut acc: Vec<char> = Vec::new();
        while !self.at_eof() && !is_delim(self.current_char_def())
            invariant
                orig == old(self)@,
                self@.code == orig.code,
                self@.pin == orig.pin,
                self@.st.it >= 0,
                scan_atom_s(self@.code, self@.st, acc@) == scan_atom_s(
                    orig.code,
                    orig.st,
                    Seq::empty(),
                ),
            decreases self@.code.len() - self@.st.it,
        {
            let c = self.get_then_move();
            acc.push(c);
        }
        acc
    }

    /// Reads the next token, or reports a lexical error; either way the
    /// cursor ends where [`next_token_s`] says.
    pub fn next_token(&mut self) -> (r: Result<Tok, Error>)
        ensures
            final(self)@.code == old(self)@.code,
            final(self)@.pin == skip_trivia_s(old(self)@.code, old(self)@.st, false),
            ({
                let out = next_token_s(old(self)@.code, old(self)@.st);
                &&& final(self)@.st == out.st
                &&& match (r, out.r) {
                    (Ok(t), Ok(ts)) => view_tok(t) == ts,
                    (Err(e), Err(es)) => crate::error::view_error(e) == es,
                    _ => false,
                }
            }),
    {
        self.skip_trivia();
        self.pin();
        let neg = self.current_char_def() == '-';
        if neg {
            self.move_next();
        }
        let dot0 = self.current_char_def() == '.';
        if dot0 {
            self.move_next();
        }
        if is_digit(self.current_char_def()) {
            let (mant, scale, ovf) = self.scan_digits(dot0);
            if ovf {
                return Err(Error::BadNumber(self.get_loc()));
            }
            return Ok(Tok::Number(Number::from_parts(neg, mant, scale), self.get_loc()));
        }
        self.unpin();
        self.pin();
        if self.current_char_def() == '#' {
            self.move_next();
            let c2 = self.current_char_def();
            if c2 == 'f' {
                self.move_next();
                return Ok(Tok::Bool(false, self.get_loc()));
            }
            if c2 == 't' {
                self.move_next();
                return Ok(Tok::Bool(true, self.get_loc()));
            }
            self.unpin();
        }
        if self.current_char_def() == '"' {
            self.move_next();
            let content = self.scan_string();
            return Ok(Tok::Str(chars_to_string(&content), self.get_loc()));
        }
        let c = self.current_char_def();
        if c == '(' {
            self.move_next();
            return Ok(Tok::OpenParen(self.get_loc()));
        }
        if c == ')' {
            self.move_next();
            return Ok(Tok::CloseParen(self.get_loc()));
        }
        if c == '[' {
            self.move_next();
            return Ok(Tok::OpenBracket(self.get_loc()));
        }
        if c == ']' {
            self.move_next();
            return Ok(Tok::CloseBracket(self.get_loc()));
        }
        if c == '{' {
            self.move_next();
            return Ok(Tok::OpenBrace(self.get_loc()));
        }
        if c == '}' {
            self.move_next();
            return Ok(Tok::CloseBrace(self.get_loc()));
        }
        if c == '\'' {
            self.move_next();
            return Ok(Tok::Quote(self.get_loc()));
        }
        if self.at_eof() {
            return Ok(Tok::Eof(self.get_loc()));
        }
        if !is_delim(c) {
            let content = self.scan_atom();
            return Ok(Tok::Atom(chars_to_string(&content), self.get_loc()));
        }
        Err(Error::BadChar(c, self.get_loc()))
    }
}

/// How far the cursor can still travel: the characters left, or none for a
/// cursor outside the input.
pub open spec fn dist(code: Seq<char>, st: LexState) -> int {
    if 0 <= st.it <= code.len() {
        code.len() - st.it
    } else {
        0
    }
}

/// Whether a token result is the end-of-input token.
pub open spec fn is_eof_tok(r: Result<SpecTok, SpecError>) -> bool {
    match r {
        Ok(SpecTok::Eof(_)) => true,
        _ => false,
    }
}

proof fn lemma_skip_trivia_mono(code: Seq<char>, st: LexState, in_comment: bool)
    ensures
        skip_trivia_s(code, st, in_comment).it >= st.it,
        st.it <= code.len() ==> skip_trivia_s(code, st, in_comment).it <= code.len(),
    decreases code.len() - st.it,
{
    if 0 <= st.it < code.len() {
        if in_comment {
            if code[st.it] == '\n' {
                lemma_skip_trivia_mono(code, adv_ws(code, st), false);
            } else {
                lemma_skip_trivia_mono(code, adv_plain(st), true);
            }
        } else if is_ws_s(code[st.it]) {
            lemma_skip_trivia_mono(code, adv_ws(code, st), false);
        } else if code[st.it] == ';' {
            lemma_skip_trivia_mono(code, adv_plain(st), true);
        }
    }
}

proof fn lemma_scan_digits_mono(code: Seq<char>, st: LexState, mant: nat, scale: nat, dot: bool)
    ensures
        scan_digits_s(code, st, mant, scale, dot).0.it >= st.it,
        st.it <= code.len() ==> scan_digits_s(code, st, mant, scale, dot).0.it <= code.len(),
    decreases code.len() - st.it,
{
    if 0 <= st.it < code.len() {
        if code[st.it] == '.' && !dot {
            lemma_scan_digits_mono(code, adv_plain(st), mant, scale, true);
        } else if is_digit_s(code[st.it]) {
            lemma_scan_digits_mono(
                code,
                adv_plain(st),
                10 * mant + digit_val_s(code[st.it]),
                if dot {
                    scale + 1
                } else {
                    scale
                },
                dot,
            );
        }
    }
}

proof fn lemma_scan_string_mono(code: Seq<char>, st: LexState, acc: Seq<char>)
    ensures
        scan_string_s(code, st, acc).0.it >= st.it,
        st.it <= code.len() ==> scan_string_s(code, st, acc).0.it <= code.len(),
    decreases code.len() - st.it,
{
    if 0 <= st.it < code.len() && code[st.it] != '"' {
        lemma_scan_string_mono(code, adv_plain(st), acc.push(code[st.it]));
    }
}

proof fn lemma_scan_atom_mono(code: Seq<char>, st: LexState, acc: Seq<char>)
    ensures
        scan_atom_s(code, st, acc).0.it >= st.it,
        st.it <= code.len() ==> scan_atom_s(code, st, acc).0.it <= code.len(),
    decreases code.len() - st.it,
{
    if 0 <= st.it < code.len() && !is_delim_s(code[st.it]) {
        lemma_scan_atom_mono(code, adv_plain(st), acc.push(code[st.it]));
    }
}

/// The lexer only moves the cursor right and never past the end, and every
/// token besides end-of-input consumes at least one character.
pub proof fn lemma_next_token_progress(code: Seq<char>, st: LexState)
    ensures
        next_token_s(code, st).st.it >= st.it,
        st.it <= code.len() ==> next_token_s(code, st).st.it <= code.len(),
        next_token_s(code, st).r is Ok && !is_eof_tok(next_token_s(code, st).r) ==> 0 <= st.it
            < code.len() && next_token_s(code, st).st.it > st.it,
{
    let t = skip_trivia_s(code, st, false);
    lemma_skip_trivia_mono(code, st, false);
    let neg = 0 <= t.it < code.len() && code[t.it] == '-';
    let st1 = if neg {
        adv_plain(t)
    } else {
        t
    };
    let dot0 = 0 <= st1.it < code.len() && code[st1.it] == '.';
    let st2 = if dot0 {
        adv_plain(st1)
    } else {
        st1
    };
    if 0 <= st2.it < code.len() && is_digit_s(code[st2.it]) {
        lemma_scan_digits_mono(code, st2, 0, 0, dot0);
        lemma_scan_digits_mono(
            code,
            adv_plain(st2),
            digit_val_s(code[st2.it]),
            if dot0 {
                1nat
            } else {
                0nat
            },
            dot0,
        );
    } else if 0 <= t.it && t.it + 1 < code.len() && code[t.it] == '#' && (code[t.it + 1] == 'f'
        || code[t.it + 1] == 't') {
    } else if 0 <= t.it < code.len() && code[t.it] == '"' {
        lemma_scan_string_mono(code, adv_plain(t), Seq::empty());
    } else if 0 <= t.it < code.len() && !is_delim_s(code[t.it]) {
        lemma_scan_atom_mono(code, t, Seq::empty());
        lemma_scan_atom_mono(code, adv_plain(t), Seq::empty().push(code[t.it]));
    }
}

/// What one call of the parser yields: a node or an error, and the cursor
/// left behind.
pub ghost struct ParseOut {
    pub r: Result<SpecNode, SpecError>,
    pub st: LexState,
}

use crate::ast::{view_node, view_nodes, NodeInfo, SpecNode};

/// The bookkeeping a parsed node carries: its location, and the quoted flag
/// when a quote mark preceded it.
pub open spec fn spec_info(quoted: bool, loc: Loc) -> NodeInfo {
    NodeInfo {
        flags: if quoted {
            crate::ast::QUOTED
        } else {
            0u8
        },
        loc,
    }
}

/// One expression, parsed from `st`: a leading quote only marks the node
/// that follows it; a literal token is its own node; an opening delimiter
/// begins a list; a closing delimiter yields the unit terminator; end of
/// input yields unit.
pub open spec fn next_expr_s(code: Seq<char>, st: LexState) -> ParseOut
    decreases dist(code, st), 0int,
    via next_expr_s_dec
{
    let out = next_token_s(code, st);
    match out.r {
        Err(e) => ParseOut { r: Err(e), st: out.st },
        Ok(t) => match t {
            SpecTok::Quote(_) => {
                let out2 = next_token_s(code, out.st);
                match out2.r {
                    Err(e) => ParseOut { r: Err(e), st: out2.st },
                    Ok(t2) => match t2 {
                        SpecTok::Eof(l) => ParseOut {
                            r: Ok(SpecNode::Unit(spec_info(true, l))),
                            st: out2.st,
                        },
                        SpecTok::Quote(l) => ParseOut {
                            r: Err(SpecError::Unexpected(l)),
                            st: out2.st,
                        },
                        _ => node_of_tok_s(code, t2, out2.st, true),
                    },
                }
            },
            SpecTok::Eof(l) => ParseOut { r: Ok(SpecNode::Unit(spec_info(false, l))), st: out.st },
            _ => node_of_tok_s(code, t, out.st, false),
        },
    }
}

#[via_fn]
proof fn next_expr_s_dec(code: Seq<char>, st: LexState) {
    lemma_next_token_progress(code, st);
    let out = next_token_s(code, st);
    if out.r is Ok && !is_eof_tok(out.r) {
        lemma_next_token_progress(code, out.st);
    }
}

/// The node one non-quote token begins, parsed with the cursor just past the
/// token.
pub open spec fn node_of_tok_s(code: Seq<char>, t: SpecTok, st: LexState, quoted: bool) -> ParseOut
    decreases dist(code, st), 2int,
{
    match t {
        SpecTok::Eof(l) => ParseOut { r: Ok(SpecNode::Unit(spec_info(quoted, l))), st },
        SpecTok::Atom(s, l) => ParseOut { r: Ok(SpecNode::Atom(s, spec_info(quoted, l))), st },
        SpecTok::Number(x, l) => ParseOut { r: Ok(SpecNode::Num(x, spec_info(quoted, l))), st },
        SpecTok::Str(s, l) => ParseOut { r: Ok(SpecNode::Str(s, spec_info(quoted, l))), st },
        SpecTok::Bool(b, l) => ParseOut { r: Ok(SpecNode::Bool(b, spec_info(quoted, l))), st },
        SpecTok::OpenParen(l) => parse_list_s(code, st, l, quoted, Seq::empty()),
        SpecTok::OpenBracket(l) => parse_list_s(code, st, l, quoted, Seq::empty()),
        SpecTok::OpenBrace(l) => parse_list_s(code, st, l, quoted, Seq::empty()),
        SpecTok::CloseParen(l) => ParseOut { r: Ok(SpecNode::Unit(spec_info(quoted, l))), st },
        SpecTok::CloseBracket(l) => ParseOut { r: Ok(SpecNode::Unit(spec_info(quoted, l))), st },
        SpecTok::CloseBrace(l) => ParseOut { r: Ok(SpecNode::Unit(spec_info(quoted, l))), st },
        SpecTok::Quote(l) => ParseOut { r: Err(SpecError::Unexpected(l)), st },
    }
}

/// The remainder of a list opened at `open`: expressions accumulate until
/// the unit terminator closes the list; end of input first is an unbalanced-
/// delimiter error naming the opening location.
pub open spec fn parse_list_s(
    code: Seq<char>,
    st: LexState,
    open: Loc,
    quoted: bool,
    acc: Seq<SpecNode>,
) -> ParseOut
    decreases dist(code, st), 1int,
{
    if st.it < 0 || st.it >= code.len() {
        ParseOut { r: Err(SpecError::Unbalanced(open)), st }
    } else {
        let sub = next_expr_s(code, st);
        match sub.r {
            Err(e) => ParseOut { r: Err(e), st: sub.st },
            Ok(n) => match n {
                SpecNode::Unit(_) => ParseOut {
                    r: Ok(SpecNode::List(acc, spec_info(quoted, open))),
                    st: sub.st,
                },
                _ => {
                    let jraw = if sub.st.it > st.it {
                        sub.st.it
                    } else {
                        st.it + 1
                    };
                    let jit = if jraw <= code.len() {
                        jraw
                    } else {
                        code.len() as int
                    };
                    parse_list_s(
                        code,
                        LexState { it: jit, loc: sub.st.loc },
                        open,
                        quoted,
                        acc.push(n),
                    )
                },
            },
        }
    }
}

/// The parser only moves the cursor right and never past the end, and every
/// expression besides the unit terminator consumes at least one character.
pub proof fn lemma_expr_progress(code: Seq<char>, st: LexState)
    requires
        0 <= st.it <= code.len(),
    ensures
        st.it <= next_expr_s(code, st).st.it <= code.len(),
        (match next_expr_s(code, st).r {
            Ok(n) => !(n is Unit) ==> next_expr_s(code, st).st.it > st.it,
            Err(_) => true,
        }),
    decreases dist(code, st), 0int,
{
    lemma_next_token_progress(code, st);
    let out = next_token_s(code, st);
    match out.r {
        Err(_) => {},
        Ok(t) => match t {
            SpecTok::Quote(_) => {
                lemma_next_token_progress(code, out.st);
                let out2 = next_token_s(code, out.st);
                match out2.r {
                    Err(_) => {},
                    Ok(t2) => {
                        lemma_node_of_tok_progress(code, t2, out2.st, true, st.it);
                    },
                }
            },
            SpecTok::Eof(_) => {},
            _ => {
                lemma_node_of_tok_progress(code, t, out.st, false, st.it);
            },
        },
    }
}

proof fn lemma_node_of_tok_progress(code: Seq<char>, t: SpecTok, st: LexState, quoted: bool, lo: int)
    requires
        0 <= lo <= st.it <= code.len(),
    ensures
        st.it <= node_of_tok_s(code, t, st, quoted).st.it <= code.len(),
        (match node_of_tok_s(code, t, st, quoted).r {
            Ok(n) => !(n is Unit) ==> node_of_tok_s(code, t, st, quoted).st.it >= st.it,
            Err(_) => true,
        }),
    decreases dist(code, st), 2int,
{
    match t {
        SpecTok::OpenParen(l) => lemma_list_progress(code, st, l, quoted, Seq::empty()),
        SpecTok::OpenBracket(l) => lemma_list_progress(code, st, l, quoted, Seq::empty()),
        SpecTok::OpenBrace(l) => lemma_list_progress(code, st, l, quoted, Seq::empty()),
        _ => {},
    }
}

proof fn lemma_list_progress(
    code: Seq<char>,
    st: LexState,
    open: Loc,
    quoted: bool,
    acc: Seq<SpecNode>,
)
    requires
        0 <= st.it <= code.len(),
    ensures
        st.it <= parse_list_s(code, st, open, quoted, acc).st.it <= code.len(),
    decreases dist(code, st), 1int,
{
    if 0 <= st.it < code.len() {
        lemma_expr_progress(code, st);
        let sub = next_expr_s(code, st);
        match sub.r {
            Err(_) => {},
            Ok(n) => match n {
                SpecNode::Unit(_) => {},
                _ => {
                    lemma_list_progress(
                        code,
                        LexState { it: sub.st.it, loc: sub.st.loc },
                        open,
                        quoted,
                        acc.push(n),
                    );
                },
            },
        }
    }
}

/// A top-level sequence: expressions accumulate until end of input or the
/// unit terminator; the sequence node carries blank bookkeeping.
pub open spec fn next_progn_s(code: Seq<char>, st: LexState, acc: Seq<SpecNode>) -> ParseOut
    decreases dist(code, st),
    via next_progn_s_dec
{
    if st.it < 0 || st.it >= code.len() {
        ParseOut {
            r: Ok(SpecNode::Progn(acc, NodeInfo { flags: 0u8, loc: Loc { line: 0, column: 0 } })),
            st,
        }
    } else {
        let sub = next_expr_s(code, st);
        match sub.r {
            Err(e) => ParseOut { r: Err(e), st: sub.st },
            Ok(n) => match n {
                SpecNode::Unit(_) => ParseOut {
                    r: Ok(
                        SpecNode::Progn(
                            acc,
                            NodeInfo { flags: 0u8, loc: Loc { line: 0, column: 0 } },
                        ),
                    ),
                    st: sub.st,
                },
                _ => next_progn_s(code, sub.st, acc.push(n)),
            },
        }
    }
}

#[via_fn]
proof fn next_progn_s_dec(code: Seq<char>, st: LexState, acc: Seq<SpecNode>) {
    if 0 <= st.it < code.len() {
        lemma_expr_progress(code, st);
    }
}

/// The model of a parse result.
pub open spec fn node_res_view(r: Result<crate::ast::Node, Error>) -> Result<SpecNode, SpecError> {
    match r {
        Ok(n) => Ok(view_node(n)),
        Err(e) => Err(crate::error::view_error(e)),
    }
}

impl Reader {
    /// Builds the bookkeeping for a parsed node.
    fn mk_info(quoted: bool, loc: Loc) -> (r: NodeInfo)
        ensures
            r == spec_info(quoted, loc),
    {
        NodeInfo {
            flags: if quoted {
                crate::ast::QUOTED
            } else {
                0u8
            },
            loc,
        }
    }

    /// Parses one expression; the cursor and result are those of
    /// [`next_expr_s`].
    pub fn next_expr(&mut self) -> (r: Result<crate::ast::Node, Error>)
        requires
            old(self)@.st.it <= old(self)@.code.len(),
        ensures
            final(self)@.code == old(self)@.code,
            final(self)@.pin == final(self)@.st,
            old(self)@.st.it <= final(self)@.st.it <= final(self)@.code.len(),
            ({
                let out = next_expr_s(old(self)@.code, old(self)@.st);
                &&& final(self)@.st == out.st
                &&& node_res_view(r) == out.r
            }),
        decreases dist(old(self)@.code, old(self)@.st), 0int,
    {
        proof {
            lemma_next_token_progress(self@.code, self@.st);
        }
        let tok_r = self.next_token();
        let t = match tok_r {
            Err(e) => {
                self.pin();
                return Err(e);
            },
            Ok(t) => t,
        };
        match t {
            Tok::Quote(_) => {
                proof {
                    lemma_next_token_progress(self@.code, self@.st);
                }
                let tok2_r = self.next_token();
                match tok2_r {
                    Err(e) => {
                        self.pin();
                        Err(e)
                    },
                    Ok(Tok::Eof(l)) => {
                        self.pin();
                        Ok(crate::ast::Node::Unit(Self::mk_info(true, l)))
                    },
                    Ok(Tok::Quote(l)) => {
                        self.pin();
                        Err(Error::Unexpected(l))
                    },
                    Ok(t2) => self.node_of_tok(t2, true),
                }
            },
            Tok::Eof(l) => {
                self.pin();
                Ok(crate::ast::Node::Unit(Self::mk_info(false, l)))
            },
            _ => self.node_of_tok(t, false),
        }
    }

    /// Parses the node a non-quote token begins.
    fn node_of_tok(&mut self, t: Tok, quoted: bool) -> (r: Result<crate::ast::Node, Error>)
        requires
            old(self)@.st.it <= old(self)@.code.len(),
        ensures
            final(self)@.code == old(self)@.code,
            final(self)@.pin == final(self)@.st,
            old(self)@.st.it <= final(self)@.st.it <= final(self)@.code.len(),
            ({
                let out = node_of_tok_s(old(self)@.code, view_tok(t), old(self)@.st, quoted);
                &&& final(self)@.st == out.st
                &&& node_res_view(r) == out.r
            }),
        decreases dist(old(self)@.code, old(self)@.st), 2int,
    {
        match t {
            Tok::Eof(l) => {
                self.pin();
                Ok(crate::ast::Node::Unit(Self::mk_info(quoted, l)))
            },
            Tok::Atom(s, l) => {
                self.pin();
                Ok(crate::ast::Node::AtomLit(s, Self::mk_info(quoted, l)))
            },
            Tok::Number(x, l) => {
                self.pin();
                Ok(crate::ast::Node::NumberLit(x, Self::mk_info(quoted, l)))
            },
            Tok::Str(s, l) => {
                self.pin();
                Ok(crate::ast::Node::StringLit(s, Self::mk_info(quoted, l)))
            },
            Tok::Bool(b, l) => {
                self.pin();
                Ok(crate::ast::Node::BoolLit(b, Self::mk_info(quoted, l)))
            },
            Tok::OpenParen(l) => self.parse_list(l, quoted),
            Tok::OpenBracket(l) => self.parse_list(l, quoted),
            Tok::OpenBrace(l) => self.parse_list(l, quoted),
            Tok::CloseParen(l) => {
                self.pin();
                Ok(crate::ast::Node::Unit(Self::mk_info(quoted, l)))
            },
            Tok::CloseBracket(l) => {
                self.pin();
                Ok(crate::ast::Node::Unit(Self::mk_info(quoted, l)))
            },
            Tok::CloseBrace(l) => {
                self.pin();
                Ok(crate::ast::Node::Unit(Self::mk_info(quoted, l)))
            },
            Tok::Quote(l) => {
                self.pin();
                Err(Error::Unexpected(l))
            },
        }
    }

    /// Parses the rest of a list opened at `open`.
    fn parse_list(&mut self, open: Loc, quoted: bool) -> (r: Result<crate::ast::Node, Error>)
        requires
            old(self)@.st.it <= old(self)@.code.len(),
        ensures
            final(self)@.code == old(self)@.code,
            final(self)@.pin == final(self)@.st,
            old(self)@.st.it <= final(self)@.st.it <= final(self)@.code.len(),
            ({
                let out = parse_list_s(
                    old(self)@.code,
                    old(self)@.st,
                    open,
                    quoted,
                    Seq::empty(),
                );
                &&& final(self)@.st == out.st
                &&& node_res_view(r) == out.r
            }),
        decreases dist(old(self)@.code, old(self)@.st), 1int,
    {
        let ghost orig = self@;
        let mut ns: Vec<crate::ast::Node> = Vec::new();
        loop
            invariant
                orig == old(self)@,
                self@.code == orig.code,
                orig.st.it <= self@.st.it <= self@.code.len(),
                0 <= self@.st.it,
                parse_list_s(self@.code, self@.st, open, quoted, view_nodes(ns@)) == parse_list_s(
                    orig.code,
                    orig.st,
                    open,
                    quoted,
                    Seq::empty(),
                ),
            decreases dist(self@.code, self@.st),
        {
            if self.at_eof() {
                self.pin();
                return Err(Error::Unbalanced(open));
            }
            proof {
                lemma_expr_progress(self@.code, self@.st);
            }
            let ghost pre = self@.st;
            let sub = self.next_expr();
            match sub {
                Err(e) => {
                    return Err(e);
                },
                Ok(n) => {
                    match n {
                        crate::ast::Node::Unit(_) => {
                            let node = crate::ast::Node::List(ns, Self::mk_info(quoted, open));
                            proof {
                                assert(view_node(node) == SpecNode::List(
                                    view_nodes(ns@),
                                    spec_info(quoted, open),
                                ));
                            }
                            return Ok(node);
                        },
                        other => {
                            let ghost prev = ns@;
                            ns.push(other);
                            proof {
                                assert(ns@.drop_last() =~= prev);
                                assert(view_nodes(ns@) == view_nodes(prev).push(
                                    view_node(ns@.last()),
                                ));
                            }
                        },
                    }
                },
            }
        }
    }

    /// Parses a whole top-level sequence, stopping at end of input or at a
    /// stray closing delimiter.
    pub fn next_progn(&mut self) -> (r: Result<crate::ast::Node, Error>)
        requires
            old(self)@.st.it <= old(self)@.code.len(),
        ensures
            final(self)@.code == old(self)@.code,
            final(self)@.pin == final(self)@.st,
            ({
                let out = next_progn_s(old(self)@.code, old(self)@.st, Seq::empty());
                &&& final(self)@.st == out.st
                &&& node_res_view(r) == out.r
            }),
    {
        let ghost orig = self@;
        let mut ns: Vec<crate::ast::Node> = Vec::new();
        loop
            invariant
                orig == old(self)@,
                self@.code == orig.code,
                orig.st.it <= self@.st.it <= self@.code.len(),
                0 <= self@.st.it,
                next_progn_s(self@.code, self@.st, view_nodes(ns@)) == next_progn_s(
                    orig.code,
                    orig.st,
                    Seq::empty(),
                ),
            decreases dist(self@.code, self@.st),
        {
            if self.at_eof() {
                self.pin();
                let node = crate::ast::Node::Progn(ns, crate::ast::NodeInfo::new());
                return Ok(node);
            }
            proof {
                lemma_expr_progress(self@.code, self@.st);
            }
            let sub = self.next_expr();
            match sub {
                Err(e) => {
                    return Err(e);
                },
                Ok(n) => {
                    match n {
                        crate::ast::Node::Unit(_) => {
                            let node = crate::ast::Node::Progn(ns, crate::ast::NodeInfo::new());
                            return Ok(node);
                        },
                        other => {
                            let ghost prev = ns@;
                            ns.push(other);
                            proof {
                                assert(ns@.drop_last() =~= prev);
                                assert(view_nodes(ns@) == view_nodes(prev).push(
                                    view_node(ns@.last()),
                                ));
                            }
                        },
                    }
                },
            }
        }
    }
}

} // verus!
