use vstd::prelude::*;
use crate::tokens::Token;

verus! {

/// What `char::is_whitespace` answers for a character outside ASCII.
pub uninterp spec fn char_is_whitespace(c: char) -> bool;

/// What `char::is_alphanumeric` answers for a character outside ASCII.
pub uninterp spec fn char_is_alphanumeric(c: char) -> bool;

/// Unicode white space: in ASCII, the space and the characters from tab to carriage return.
pub open spec fn is_ws(c: char) -> bool {
    if (c as u32) < 128 {
        c == ' ' || (9 <= (c as u32) && (c as u32) <= 13)
    } else {
        char_is_whitespace(c)
    }
}

/// Unicode letters and numbers: in ASCII, the letters and the decimal digits.
pub open spec fn is_alnum(c: char) -> bool {
    if (c as u32) < 128 {
        ('a' <= c && c <= 'z') || ('A' <= c && c <= 'Z') || ('0' <= c && c <= '9')
    } else {
        char_is_alphanumeric(c)
    }
}

pub open spec fn is_dig(c: char) -> bool {
    '0' <= c && c <= '9'
}

/// Calls `char::is_whitespace`; std documents it as the Unicode `White_Space` property, which in
/// ASCII holds of the space and of U+0009 to U+000D. Outside ASCII the answer is only named.
#[verifier::external_body]
fn char_whitespace(c: char) -> (r: bool)
    ensures
        (c as u32) < 128 ==> r == (c == ' ' || (9 <= (c as u32) && (c as u32) <= 13)),
        (c as u32) >= 128 ==> r == char_is_whitespace(c),
{
    c.is_whitespace()
}

/// Calls `char::is_alphanumeric`; std documents it as `is_alphabetic() || is_numeric()`, which in
/// ASCII holds of the letters and the digits. Outside ASCII the answer is only named.
#[verifier::external_body]
fn char_alphanumeric(c: char) -> (r: bool)
    ensures
        (c as u32) < 128 ==> r == (('a' <= c && c <= 'z') || ('A' <= c && c <= 'Z') || ('0' <= c
            && c <= '9')),
        (c as u32) >= 128 ==> r == char_is_alphanumeric(c),
{
    c.is_alphanumeric()
}

/// Calls `String::push`, which appends one character.
#[verifier::external_body]
pub(crate) fn string_push(s: &mut String, c: char)
    ensures
        final(s)@ == old(s)@.push(c),
{
    s.push(c)
}

/// The state of the lexer over its source.
pub struct LexState {
    pub tok: Token,
    pub next: Token,
    pub c: char,
    pub s: Seq<char>,
    pub src: Seq<u8>,
    pub pos: int,
    pub line: int,
}

/// The character at `pos`, or NUL past the end.
pub open spec fn ch(src: Seq<u8>, pos: int) -> char {
    if 0 <= pos < src.len() {
        src[pos] as char
    } else {
        '\0'
    }
}

/// Reads the next character into `c`.
pub open spec fn eat(st: LexState) -> LexState {
    LexState {
        c: ch(st.src, st.pos),
        pos: if st.pos < st.src.len() { st.pos + 1 } else { st.pos },
        ..st
    }
}

pub open spec fn with_tok(st: LexState, t: Token) -> LexState {
    LexState { tok: t, ..st }
}

pub open spec fn push_c(st: LexState, c: char) -> LexState {
    LexState { s: st.s.push(c), ..st }
}

/// How much of the input is left: the unread bytes and the character in hand.
pub open spec fn measure(st: LexState) -> int {
    (st.src.len() - st.pos) + if st.c == '\0' { 0int } else { 1int }
}

pub open spec fn lex_wf(st: LexState) -> bool {
    0 <= st.pos <= st.src.len()
}

pub proof fn lemma_eat(st: LexState)
    requires
        lex_wf(st),
    ensures
        lex_wf(eat(st)),
        measure(eat(st)) <= measure(st),
        st.c != '\0' ==> measure(eat(st)) < measure(st),
        eat(st).c != '\0' ==> st.pos < st.src.len(),
{
}

/// Skips white space: reads characters until one that is not white space.
pub open spec fn skip_ws(st: LexState) -> LexState
    decreases st.src.len() - st.pos,
{
    let st1 = eat(st);
    if st.pos < st.src.len() && is_ws(st1.c) {
        skip_ws(st1)
    } else {
        st1
    }
}

/// Reads a run of digits, starting with the character in hand.
pub open spec fn scan_digits(st: LexState) -> LexState
    decreases st.src.len() - st.pos, if st.c == '\0' { 0int } else { 1int },
{
    if is_dig(st.c) && st.c != '\0' && 0 <= st.pos <= st.src.len() {
        scan_digits(eat(push_c(st, st.c)))
    } else {
        st
    }
}

/// Reads a run of letters and digits, starting with the character in hand.
pub open spec fn scan_alnum(st: LexState) -> LexState
    decreases st.src.len() - st.pos, if st.c == '\0' { 0int } else { 1int },
{
    if is_alnum(st.c) && st.c != '\0' && 0 <= st.pos <= st.src.len() {
        scan_alnum(eat(push_c(st, st.c)))
    } else {
        st
    }
}

/// The character that an escape sequence stands for.
pub open spec fn escape(c: char) -> Option<char> {
    if c == 'n' {
        Some('\n')
    } else if c == 't' {
        Some('\t')
    } else if c == '"' {
        Some('"')
    } else if c == '\\' {
        Some('\\')
    } else {
        None
    }
}

/// Reads the rest of a string literal; `None` where the literal has an unknown escape or no end.
pub open spec fn scan_string(st: LexState) -> Option<LexState>
    decreases st.src.len() - st.pos,
{
    let st1 = eat(st);
    if !(0 <= st.pos < st.src.len()) {
        None
    } else if st1.c == '\\' {
        let st2 = eat(st1);
        match escape(st2.c) {
            Some(e) => scan_string(push_c(st2, e)),
            None => None,
        }
    } else if st1.c == '"' {
        Some(eat(st1))
    } else if st1.c == '\0' {
        None
    } else {
        scan_string(push_c(st1, st1.c))
    }
}

/// The token that a word stands for: a keyword, or an identifier (`rec` is one: a record is
/// written as its type name followed by its fields).
pub open spec fn keyword(s: Seq<char>) -> Token {
    if s == "let"@ {
        Token::Let
    } else if s == "var"@ {
        Token::Var
    } else if s == "array"@ {
        Token::Array
    } else if s == "of"@ {
        Token::Of
    } else if s == "type"@ {
        Token::Type
    } else if s == "break"@ {
        Token::Break
    } else if s == "do"@ {
        Token::Do
    } else if s == "end"@ {
        Token::End
    } else if s == "while"@ {
        Token::While
    } else if s == "if"@ {
        Token::If
    } else if s == "then"@ {
        Token::Then
    } else if s == "else"@ {
        Token::Else
    } else if s == "for"@ {
        Token::For
    } else if s == "in"@ {
        Token::In
    } else if s == "function"@ {
        Token::Function
    } else if s == "nil"@ {
        Token::Nil
    } else if s == "int"@ {
        Token::Int
    } else if s == "string"@ {
        Token::TokString
    } else if s == "to"@ {
        Token::To
    } else {
        Token::Ident
    }
}

/// The token made of the single character in hand.
pub open spec fn single(c: char) -> Option<Token> {
    if c == '+' {
        Some(Token::Plus)
    } else if c == '-' {
        Some(Token::Minus)
    } else if c == '*' {
        Some(Token::Mul)
    } else if c == '/' {
        Some(Token::Div)
    } else if c == '&' {
        Some(Token::LogAnd)
    } else if c == '|' {
        Some(Token::LogOr)
    } else if c == '.' {
        Some(Token::Dot)
    } else if c == '=' {
        Some(Token::Equals)
    } else if c == '{' {
        Some(Token::LeftCurly)
    } else if c == '}' {
        Some(Token::RightCurly)
    } else if c == '[' {
        Some(Token::LeftSquare)
    } else if c == ']' {
        Some(Token::RightSquare)
    } else if c == '(' {
        Some(Token::LeftParen)
    } else if c == ')' {
        Some(Token::RightParen)
    } else if c == ',' {
        Some(Token::Comma)
    } else if c == ';' {
        Some(Token::SemiColon)
    } else {
        None
    }
}

pub proof fn lemma_skip_ws(st: LexState)
    requires
        lex_wf(st),
    ensures
        lex_wf(skip_ws(st)),
        measure(skip_ws(st)) <= measure(eat(st)),
        !is_ws(skip_ws(st).c),
        skip_ws(st).tok == st.tok && skip_ws(st).s == st.s && skip_ws(st).line == st.line,
        skip_ws(st).src == st.src && skip_ws(st).next == st.next,
    decreases st.src.len() - st.pos,
{
    let st1 = eat(st);
    if st.pos < st.src.len() && is_ws(st1.c) {
        lemma_skip_ws(st1);
    }
}

/// The state after reading one token; `None` where the lexer gives up on the input.
pub open spec fn lex(st: LexState) -> Option<LexState>
    decreases measure(st),
{
    let c = st.c;
    if !lex_wf(st) {
        None
    } else if single(c) is Some {
        Some(with_tok(eat(st), single(c)->0))
    } else if c == '>' {
        let st1 = eat(st);
        if st1.c == '=' {
            Some(with_tok(eat(st1), Token::GreaterEquals))
        } else {
            Some(with_tok(st1, Token::GreaterThan))
        }
    } else if c == '<' {
        let st1 = eat(st);
        if st1.c == '>' {
            Some(with_tok(eat(st1), Token::LessThanGreaterThan))
        } else if st1.c == '=' {
            Some(with_tok(eat(st1), Token::LessEquals))
        } else {
            Some(with_tok(st1, Token::LessThan))
        }
    } else if c == ':' {
        let st1 = eat(st);
        if st1.c == '=' {
            Some(with_tok(eat(st1), Token::ColonEquals))
        } else {
            Some(with_tok(st1, Token::Colon))
        }
    } else if c == '"' {
        match scan_string(LexState { s: seq![], ..st }) {
            Some(st1) => Some(with_tok(st1, Token::TokString)),
            None => None,
        }
    } else if is_dig(c) {
        Some(with_tok(scan_digits(eat(LexState { s: seq![c], ..st })), Token::Number))
    } else if 'a' <= c && c <= 'z' {
        let st1 = scan_alnum(eat(LexState { s: seq![c], ..st }));
        Some(with_tok(st1, keyword(st1.s)))
    } else if c == '\0' {
        Some(with_tok(st, Token::Eof))
    } else if c == '\n' {
        Some(with_tok(eat(LexState { line: st.line + 1, ..st }), Token::NewLine))
    } else if is_ws(c) {
        proof {
            lemma_skip_ws(st);
            lemma_eat(st);
        }
        lex(skip_ws(st))
    } else {
        Some(with_tok(st, Token::Error))
    }
}

/// The punctuation of the language: each of `+ - * / & | . = { } [ ] ( ) , ;` is a token of
/// its own; `>` and `<` are the comparisons, `>=`, `<=` and `<>` when followed by `=` or `>`;
/// `:` is a colon, `:=` an assignment; a digit starts a number and a double quote a string.
pub proof fn law_punctuation(st: LexState)
    requires
        lex_wf(st),
    ensures
        st.c == '+' ==> lex(st)->0.tok == Token::Plus,
        st.c == '-' ==> lex(st)->0.tok == Token::Minus,
        st.c == '*' ==> lex(st)->0.tok == Token::Mul,
        st.c == '/' ==> lex(st)->0.tok == Token::Div,
        st.c == '&' ==> lex(st)->0.tok == Token::LogAnd,
        st.c == '|' ==> lex(st)->0.tok == Token::LogOr,
        st.c == '.' ==> lex(st)->0.tok == Token::Dot,
        st.c == '=' ==> lex(st)->0.tok == Token::Equals,
        st.c == '{' ==> lex(st)->0.tok == Token::LeftCurly,
        st.c == '}' ==> lex(st)->0.tok == Token::RightCurly,
        st.c == '[' ==> lex(st)->0.tok == Token::LeftSquare,
        st.c == ']' ==> lex(st)->0.tok == Token::RightSquare,
        st.c == '(' ==> lex(st)->0.tok == Token::LeftParen,
        st.c == ')' ==> lex(st)->0.tok == Token::RightParen,
        st.c == ',' ==> lex(st)->0.tok == Token::Comma,
        st.c == ';' ==> lex(st)->0.tok == Token::SemiColon,
        st.c == '>' && eat(st).c == '=' ==> lex(st)->0.tok == Token::GreaterEquals,
        st.c == '>' && eat(st).c != '=' ==> lex(st)->0.tok == Token::GreaterThan,
        st.c == '<' && eat(st).c == '=' ==> lex(st)->0.tok == Token::LessEquals,
        st.c == '<' && eat(st).c == '>' ==> lex(st)->0.tok == Token::LessThanGreaterThan,
        st.c == '<' && eat(st).c != '=' && eat(st).c != '>' ==> lex(st)->0.tok == Token::LessThan,
        st.c == ':' && eat(st).c == '=' ==> lex(st)->0.tok == Token::ColonEquals,
        st.c == ':' && eat(st).c != '=' ==> lex(st)->0.tok == Token::Colon,
        '0' <= st.c && st.c <= '9' ==> lex(st)->0.tok == Token::Number,
        st.c == '"' && lex(st) is Some ==> lex(st)->0.tok == Token::TokString,
        st.c == '\0' ==> lex(st)->0.tok == Token::Eof,
        st.c == '\n' ==> lex(st)->0.tok == Token::NewLine,
{
}

/// The escape sequences of a string literal: a backslash followed by `n` stands for a new line,
/// by `t` for a tab, by a double quote for a double quote and by a backslash for a backslash; a
/// backslash followed by any other character has no meaning (the literal is refused).
pub proof fn law_escapes(c: char)
    ensures
        c == 'n' ==> escape(c) == Some('\n'),
        c == 't' ==> escape(c) == Some('\t'),
        c == '"' ==> escape(c) == Some('"'),
        c == '\\' ==> escape(c) == Some('\\'),
        !(c == 'n' || c == 't' || c == '"' || c == '\\') ==> escape(c) is None,
{
}

/// Each reserved word of the language lexes to its own keyword token, never to a name:
/// `let`, `var`, `array`, `of`, `type`, `break`, `do`, `end`, `while`, `if`, `then`, `else`,
/// `for`, `in`, `function`, `nil`, `int`, `string` and `to`.
pub proof fn law_reserved_words(st: LexState)
    requires
        lex_wf(st),
        'a' <= st.c && st.c <= 'z',
    ensures
        lex(st) is Some,
        lex(st)->0.s == "let"@ ==> lex(st)->0.tok == Token::Let,
        lex(st)->0.s == "var"@ ==> lex(st)->0.tok == Token::Var,
        lex(st)->0.s == "array"@ ==> lex(st)->0.tok == Token::Array,
        lex(st)->0.s == "of"@ ==> lex(st)->0.tok == Token::Of,
        lex(st)->0.s == "type"@ ==> lex(st)->0.tok == Token::Type,
        lex(st)->0.s == "break"@ ==> lex(st)->0.tok == Token::Break,
        lex(st)->0.s == "do"@ ==> lex(st)->0.tok == Token::Do,
        lex(st)->0.s == "end"@ ==> lex(st)->0.tok == Token::End,
        lex(st)->0.s == "while"@ ==> lex(st)->0.tok == Token::While,
        lex(st)->0.s == "if"@ ==> lex(st)->0.tok == Token::If,
        lex(st)->0.s == "then"@ ==> lex(st)->0.tok == Token::Then,
        lex(st)->0.s == "else"@ ==> lex(st)->0.tok == Token::Else,
        lex(st)->0.s == "for"@ ==> lex(st)->0.tok == Token::For,
        lex(st)->0.s == "in"@ ==> lex(st)->0.tok == Token::In,
        lex(st)->0.s == "function"@ ==> lex(st)->0.tok == Token::Function,
        lex(st)->0.s == "nil"@ ==> lex(st)->0.tok == Token::Nil,
        lex(st)->0.s == "int"@ ==> lex(st)->0.tok == Token::Int,
        lex(st)->0.s == "string"@ ==> lex(st)->0.tok == Token::TokString,
        lex(st)->0.s == "to"@ ==> lex(st)->0.tok == Token::To,
{
    reveal_strlit("let");
    reveal_strlit("var");
    reveal_strlit("array");
    reveal_strlit("of");
    reveal_strlit("type");
    reveal_strlit("break");
    reveal_strlit("do");
    reveal_strlit("end");
    reveal_strlit("while");
    reveal_strlit("if");
    reveal_strlit("then");
    reveal_strlit("else");
    reveal_strlit("for");
    reveal_strlit("in");
    reveal_strlit("function");
    reveal_strlit("nil");
    reveal_strlit("int");
    reveal_strlit("string");
    reveal_strlit("to");
    assert("let"@.len() == 3);
    assert("var"@.len() == 3);
    assert("array"@.len() == 5);
    assert("of"@.len() == 2);
    assert("type"@.len() == 4);
    assert("break"@.len() == 5);
    assert("do"@.len() == 2);
    assert("end"@.len() == 3);
    assert("while"@.len() == 5);
    assert("if"@.len() == 2);
    assert("then"@.len() == 4);
    assert("else"@.len() == 4);
    assert("for"@.len() == 3);
    assert("in"@.len() == 2);
    assert("function"@.len() == 8);
    assert("nil"@.len() == 3);
    assert("int"@.len() == 3);
    assert("string"@.len() == 6);
    assert("to"@.len() == 2);
    assert(keyword("let"@) == Token::Let);
    assert("var"@[0] != "let"@[0]);
    assert(keyword("var"@) == Token::Var);
    assert(keyword("array"@) == Token::Array);
    assert(keyword("of"@) == Token::Of);
    assert(keyword("type"@) == Token::Type);
    assert("break"@[0] != "array"@[0]);
    assert(keyword("break"@) == Token::Break);
    assert("do"@[0] != "of"@[0]);
    assert(keyword("do"@) == Token::Do);
    assert("end"@[0] != "let"@[0]);
    assert("end"@[0] != "var"@[0]);
    assert(keyword("end"@) == Token::End);
    assert("while"@[0] != "array"@[0]);
    assert("while"@[0] != "break"@[0]);
    assert(keyword("while"@) == Token::While);
    assert("if"@[0] != "of"@[0]);
    assert("if"@[0] != "do"@[0]);
    assert(keyword("if"@) == Token::If);
    assert("then"@[1] != "type"@[1]);
    assert(keyword("then"@) == Token::Then);
    assert("else"@[0] != "type"@[0]);
    assert("else"@[0] != "then"@[0]);
    assert(keyword("else"@) == Token::Else);
    assert("for"@[0] != "let"@[0]);
    assert("for"@[0] != "var"@[0]);
    assert("for"@[0] != "end"@[0]);
    assert(keyword("for"@) == Token::For);
    assert("in"@[0] != "of"@[0]);
    assert("in"@[0] != "do"@[0]);
    assert("in"@[1] != "if"@[1]);
    assert(keyword("in"@) == Token::In);
    assert(keyword("function"@) == Token::Function);
    assert("nil"@[0] != "let"@[0]);
    assert("nil"@[0] != "var"@[0]);
    assert("nil"@[0] != "end"@[0]);
    assert("nil"@[0] != "for"@[0]);
    assert(keyword("nil"@) == Token::Nil);
    assert("int"@[0] != "let"@[0]);
    assert("int"@[0] != "var"@[0]);
    assert("int"@[0] != "end"@[0]);
    assert("int"@[0] != "for"@[0]);
    assert("int"@[0] != "nil"@[0]);
    assert(keyword("int"@) == Token::Int);
    assert(keyword("string"@) == Token::TokString);
    assert("to"@[0] != "of"@[0]);
    assert("to"@[0] != "do"@[0]);
    assert("to"@[0] != "if"@[0]);
    assert("to"@[0] != "in"@[0]);
    assert(keyword("to"@) == Token::To);
    let st1 = scan_alnum(eat(LexState { s: seq![st.c], ..st }));
    assert(lex(st) == Some(with_tok(st1, keyword(st1.s))));
}

/// Where the lexer reads the next token from: after the blanks, where the character in hand
/// is one (a new line is a token of its own).
pub open spec fn lex_start(st: LexState) -> LexState {
    if is_ws(st.c) && st.c != '\n' {
        skip_ws(st)
    } else {
        st
    }
}

/// The lexer refuses a token only for a broken string literal: one that, after the blanks
/// before it, reaches the end of the input (or a NUL) before its closing quote, or holds a
/// backslash followed by a character other than `n`, `t`, `"` or a backslash.
pub proof fn law_lex_refuses_only_broken_strings(st: LexState)
    requires
        lex_wf(st),
    ensures
        lex(st) is None <==> (lex_start(st).c == '"' && scan_string(
            LexState { s: seq![], ..lex_start(st) },
        ) is None),
{
    let c = st.c;
    if is_ws(c) && c != '\n' {
        lemma_skip_ws(st);
        assert(!(single(c) is Some) && !is_dig(c) && !('a' <= c && c <= 'z'));
        assert(lex(st) == lex(skip_ws(st)));
        let t = skip_ws(st);
        assert(t.c == '\n' ==> is_ws(t.c));
    }
}

/// The lexer: the source, the position in it, the character in hand and the last token.
pub struct Lexer {
    pub curr_token: Token,
    pub next_token: Token,
    pub curr_char: char,
    pub curr_string: String,
    pub src_code: Vec<u8>,
    pub char_pos: usize,
    pub line_pos: usize,
}

impl View for Lexer {
    type V = LexState;

    open spec fn view(&self) -> LexState {
        LexState {
            tok: self.curr_token,
            next: self.next_token,
            c: self.curr_char,
            s: self.curr_string@,
            src: self.src_code@,
            pos: self.char_pos as int,
            line: self.line_pos as int,
        }
    }
}


pub proof fn lemma_scan_frame(st: LexState)
    requires
        lex_wf(st),
    ensures
        scan_digits(st).src == st.src && lex_wf(scan_digits(st)) && scan_digits(st).line == st.line
            && scan_digits(st).next == st.next && scan_digits(st).tok == st.tok,
        scan_alnum(st).src == st.src && lex_wf(scan_alnum(st)) && scan_alnum(st).line == st.line
            && scan_alnum(st).next == st.next && scan_alnum(st).tok == st.tok,
        scan_string(st) matches Some(r) ==> r.src == st.src && lex_wf(r) && r.line == st.line
            && r.next == st.next && r.tok == st.tok,
    decreases st.src.len() - st.pos, if st.c == '\0' { 0int } else { 1int },
{
    if is_dig(st.c) && st.c != '\0' {
        lemma_scan_frame_digits(st);
    }
    if is_alnum(st.c) && st.c != '\0' {
        lemma_scan_frame_alnum(st);
    }
    lemma_scan_frame_string(st);
}

proof fn lemma_scan_frame_digits(st: LexState)
    requires
        lex_wf(st),
    ensures
        scan_digits(st).src == st.src && lex_wf(scan_digits(st)) && scan_digits(st).line == st.line
            && scan_digits(st).next == st.next && scan_digits(st).tok == st.tok,
        measure(scan_digits(st)) <= measure(st),
    decreases st.src.len() - st.pos, if st.c == '\0' { 0int } else { 1int },
{
    if is_dig(st.c) && st.c != '\0' {
        lemma_scan_frame_digits(eat(push_c(st, st.c)));
    }
}

proof fn lemma_scan_frame_alnum(st: LexState)
    requires
        lex_wf(st),
    ensures
        scan_alnum(st).src == st.src && lex_wf(scan_alnum(st)) && scan_alnum(st).line == st.line
            && scan_alnum(st).next == st.next && scan_alnum(st).tok == st.tok,
        measure(scan_alnum(st)) <= measure(st),
    decreases st.src.len() - st.pos, if st.c == '\0' { 0int } else { 1int },
{
    if is_alnum(st.c) && st.c != '\0' {
        lemma_scan_frame_alnum(eat(push_c(st, st.c)));
    }
}

proof fn lemma_scan_frame_string(st: LexState)
    requires
        lex_wf(st),
    ensures
        scan_string(st) matches Some(r) ==> r.src == st.src && lex_wf(r) && r.line == st.line
            && r.next == st.next && r.tok == st.tok,
        scan_string(st) matches Some(r) ==> measure(r) < measure(eat(st)) || (st.c == '\0'
            && measure(r) <= measure(eat(st))),
    decreases st.src.len() - st.pos,
{
    let st1 = eat(st);
    if 0 <= st.pos < st.src.len() {
        if st1.c == '\\' {
            let st2 = eat(st1);
            if let Some(e) = escape(st2.c) {
                lemma_scan_frame_string(push_c(st2, e));
            }
        } else if st1.c != '"' && st1.c != '\0' {
            lemma_scan_frame_string(push_c(st1, st1.c));
        }
    }
}

/// Lexing keeps the source and the unused lookahead token, and stays within the source.
pub proof fn lemma_lex_frame(st: LexState)
    requires
        lex_wf(st),
    ensures
        lex(st) matches Some(r) ==> r.src == st.src && lex_wf(r) && r.next == st.next,
    decreases measure(st),
{
    let c = st.c;
    if c == '"' {
        lemma_scan_frame(LexState { s: seq![], ..st });
    } else if is_dig(c) {
        lemma_scan_frame(eat(LexState { s: seq![c], ..st }));
    } else if 'a' <= c && c <= 'z' {
        lemma_scan_frame(eat(LexState { s: seq![c], ..st }));
    } else if single(c) is None && c != '>' && c != '<' && c != ':' && c != '\0' && c != '\n'
        && is_ws(c) {
        lemma_skip_ws(st);
        lemma_eat(st);
        lemma_lex_frame(skip_ws(st));
    }
}

/// Every token but the end of input and an unknown character consumes input, and no token
/// counts more lines than the input it consumes.
pub proof fn lemma_lex_progress(st: LexState)
    requires
        lex_wf(st),
        lex(st) is Some,
    ensures
        measure(lex(st)->0) + lex(st)->0.line <= measure(st) + st.line,
        lex(st)->0.tok != Token::Eof && lex(st)->0.tok != Token::Error ==> measure(lex(st)->0)
            < measure(st),
        lex(st)->0.line >= st.line,
        lex_wf(lex(st)->0),
    decreases measure(st),
{
    let c = st.c;
    lemma_lex_frame(st);
    lemma_eat(st);
    if single(c) is Some {
    } else if c == '>' || c == '<' || c == ':' {
        lemma_eat(eat(st));
    } else if c == '"' {
        lemma_scan_frame_string(LexState { s: seq![], ..st });
    } else if is_dig(c) {
        lemma_scan_frame_digits(eat(LexState { s: seq![c], ..st }));
    } else if 'a' <= c && c <= 'z' {
        lemma_scan_frame_alnum(eat(LexState { s: seq![c], ..st }));
    } else if c == '\0' {
    } else if c == '\n' {
    } else if is_ws(c) {
        lemma_skip_ws(st);
        lemma_lex_progress(skip_ws(st));
    }
}

/// The state that `peek_next` leaves: the position, the token and the text as they were, and the
/// character in hand the one after the peeked token.
pub open spec fn peek_state(st: LexState) -> LexState {
    LexState { pos: st.pos, tok: st.tok, s: st.s, ..lex(st)->0 }
}

/// White space other than a new line.
pub open spec fn is_blank(c: char) -> bool {
    is_ws(c) && c != '\n'
}

/// A token read after blanks counts no line.
pub proof fn lemma_blank_keeps_line(st: LexState)
    requires
        lex_wf(st),
        lex(st) is Some,
        is_blank(st.c),
    ensures
        lex(st)->0.line == st.line,
{
    lemma_skip_ws(st);
    let y = skip_ws(st);
    assert(lex(st) == lex(y));
    lemma_eat(y);
    if y.c == '"' {
        lemma_scan_frame(LexState { s: seq![], ..y });
    } else if is_dig(y.c) {
        lemma_scan_frame(eat(LexState { s: seq![y.c], ..y }));
    } else if 'a' <= y.c && y.c <= 'z' {
        lemma_scan_frame(eat(LexState { s: seq![y.c], ..y }));
    }
}

/// Peeking, then reading the next token from the state that the peek leaves, gives the token
/// that was peeked, and the state that reading it directly gives; so a second peek gives the
/// same token. This holds where the peeked token stands between blanks; where a character of
/// the next token follows it at once, the peek leaves that character in hand and the next
/// token read differs.
pub proof fn law_peek_then_get_token(st: LexState)
    requires
        lex_wf(st),
        lex(st) is Some,
        is_blank(st.c),
        is_blank(lex(st)->0.c),
    ensures
        lex(peek_state(st)) == lex(st),
        lex(peek_state(st))->0.tok == lex(st)->0.tok,
{
    lemma_lex_frame(st);
    lemma_blank_keeps_line(st);
    let p = peek_state(st);
    assert(eat(p) == eat(st));
    assert(skip_ws(p) == skip_ws(st));
}

/// Where a run of the lexer over the whole source ends.
pub open spec fn run_spec(st: LexState) -> LexState
    decreases st.src.len() - st.pos,
{
    if 0 <= st.pos < st.src.len() {
        let st1 = eat(st);
        let st2 = if !is_ws(st1.c) { eat(st1) } else { st1 };
        run_spec(st2)
    } else {
        st
    }
}

fn is_decimal_digit(c: char) -> (r: bool)
    ensures
        r == is_dig(c),
{
    '0' <= c && c <= '9'
}

impl Lexer {
    /// The position lies within the source.
    pub open spec fn wf(&self) -> bool {
        self.char_pos <= self.src_code@.len()
    }

    /// A lexer over the bytes of `src_code`, before its first character is read.
    pub fn new(src_code: String) -> (l: Lexer)
        ensures
            l@ == (LexState {
                tok: Token::NoToken,
                next: Token::NoToken,
                c: '\0',
                s: Seq::<char>::empty(),
                src: vstd::utf8::encode_utf8(src_code@),
                pos: 0,
                line: 1,
            }),
            l.wf(),
    {
        let bytes = vstd::slice::slice_to_vec(src_code.as_str().as_bytes());
        Lexer {
            curr_token: Token::NoToken,
            next_token: Token::NoToken,
            curr_char: '\0',
            curr_string: String::new(),
            src_code: bytes,
            char_pos: 0,
            line_pos: 1,
        }
    }

    /// Reads the next character of the source into `curr_char`, or NUL past its end.
    pub fn get_char(&mut self)
        requires
            old(self).wf(),
        ensures
            final(self)@ == eat(old(self)@),
            final(self).wf(),
    {
        if self.char_pos < self.src_code.len() {
            self.curr_char = self.src_code[self.char_pos] as char;
            self.char_pos += 1;
        } else {
            self.curr_char = '\0';
        }
    }

    /// The token after the current one; the position, the token and the text are left as they
    /// were, while the character in hand is the one after the peeked token.
    pub fn peek_next(&mut self) -> (t: Token)
        requires
            old(self).wf(),
            lex(old(self)@) is Some,
            old(self).line_pos < usize::MAX,
        ensures
            t == lex(old(self)@)->0.tok,
            final(self)@ == (LexState {
                pos: old(self)@.pos,
                tok: old(self)@.tok,
                s: old(self)@.s,
                ..lex(old(self)@)->0
            }),
            final(self).wf(),
    {
        proof {
            lemma_lex_frame(self@);
        }
        //save context
        let old_pos = self.char_pos;
        let old_tok = self.curr_token;
        let old_string = self.curr_string.clone();
        let t = self.get_token();
        //load saved context
        self.char_pos = old_pos;
        self.curr_token = old_tok;
        self.curr_string = old_string;
        t
    }

    fn set_tok_and_eat(&mut self, t: Token) -> (r: Token)
        requires
            old(self).wf(),
        ensures
            final(self)@ == with_tok(eat(old(self)@), t),
            final(self).wf(),
            r == t,
    {
        self.curr_token = t;
        self.get_char();
        self.curr_token
    }

    fn lex_string(&mut self)
        requires
            old(self).wf(),
            scan_string(old(self)@) is Some,
        ensures
            final(self)@ == scan_string(old(self)@)->0,
            final(self).wf(),
    {
        let ghost target = scan_string(self@)->0;
        loop
            invariant_except_break
                scan_string(self@) == Some(target),
            invariant
                self.wf(),
            ensures
                self@ == target,
                self.wf(),
            decreases self.src_code@.len() - self.char_pos,
        {
            let ghost st = self@;
            self.get_char();
            if self.curr_char == '\\' {
                self.get_char();
                let c = self.curr_char;
                if c == 'n' {
                    string_push(&mut self.curr_string, '\n');
                } else if c == 't' {
                    string_push(&mut self.curr_string, '\t');
                } else if c == '"' {
                    string_push(&mut self.curr_string, '"');
                } else if c == '\\' {
                    string_push(&mut self.curr_string, '\\');
                } else {
                    // an unknown escape sequence: ruled out by the precondition
                    proof {
                        assert(false);
                    }
                }
                continue ;
            }
            if self.curr_char == '"' {
                self.get_char();  //eat "
                break ;
            }
            if self.curr_char == '\0' {
                // an unterminated literal: ruled out by the precondition
                proof {
                    assert(false);
                }
            }
            string_push(&mut self.curr_string, self.curr_char);
        }
    }

    fn lex_digits(&mut self)
        requires
            old(self).wf(),
        ensures
            final(self)@ == scan_digits(old(self)@),
            final(self).wf(),
    {
        let ghost target = scan_digits(self@);
        while is_decimal_digit(self.curr_char) && self.curr_char != '\0'
            invariant
                self.wf(),
                scan_digits(self@) == target,
            decreases measure(self@),
        {
            proof {
                lemma_eat(push_c(self@, self.curr_char));
            }
            string_push(&mut self.curr_string, self.curr_char);
            self.get_char();
        }
    }

    fn lex_alnum(&mut self)
        requires
            old(self).wf(),
        ensures
            final(self)@ == scan_alnum(old(self)@),
            final(self).wf(),
    {
        let ghost target = scan_alnum(self@);
        while char_alphanumeric(self.curr_char) && self.curr_char != '\0'
            invariant
                self.wf(),
                scan_alnum(self@) == target,
            decreases measure(self@),
        {
            proof {
                lemma_eat(push_c(self@, self.curr_char));
            }
            string_push(&mut self.curr_string, self.curr_char);
            self.get_char();
        }
    }

    fn skip_whitespace(&mut self)
        requires
            old(self).wf(),
        ensures
            final(self)@ == skip_ws(old(self)@),
            final(self).wf(),
    {
        let ghost target = skip_ws(self@);
        loop
            invariant_except_break
                skip_ws(self@) == target,
            invariant
                self.wf(),
            ensures
                self@ == target,
                self.wf(),
            decreases self.src_code@.len() - self.char_pos,
        {
            let ghost st = self@;
            self.get_char();
            if !char_whitespace(self.curr_char) {
                break ;
            }
        }
    }

    /// Reads the next token: sets `curr_token` to it, and `curr_string` to its text where it is
    /// a number, a word or a string literal.
    pub fn get_token(&mut self) -> (t: Token)
        requires
            old(self).wf(),
            lex(old(self)@) is Some,
            old(self).line_pos < usize::MAX,
        ensures
            final(self)@ == lex(old(self)@)->0,
            t == final(self).curr_token,
            final(self).wf(),
        decreases measure(old(self)@),
    {
        let c = self.curr_char;
        if c == '+' {
            return self.set_tok_and_eat(Token::Plus);
        }
        if c == '-' {
            return self.set_tok_and_eat(Token::Minus);
        }
        if c == '*' {
            return self.set_tok_and_eat(Token::Mul);
        }
        if c == '/' {
            return self.set_tok_and_eat(Token::Div);
        }
        if c == '&' {
            return self.set_tok_and_eat(Token::LogAnd);
        }
        if c == '|' {
            return self.set_tok_and_eat(Token::LogOr);
        }
        if c == '>' {
            self.get_char();
            self.curr_token = Token::GreaterThan;
            if self.curr_char == '=' {
                self.get_char();
                self.curr_token = Token::GreaterEquals;
            }
            return self.curr_token;
        }
        if c == '<' {
            self.get_char();
            self.curr_token = if self.curr_char == '>' {
                self.get_char();
                Token::LessThanGreaterThan
            } else if self.curr_char == '=' {
                self.get_char();
                Token::LessEquals
            } else {
                Token::LessThan
            };
            return self.curr_token;
        }
        if c == '.' {
            self.curr_token = Token::Dot;
            self.get_char();
            return self.curr_token;
        }
        if c == '=' {
            self.get_char();
            self.curr_token = Token::Equals;
            return self.curr_token;
        }
        if c == '{' {
            return self.set_tok_and_eat(Token::LeftCurly);
        }
        if c == '}' {
            return self.set_tok_and_eat(Token::RightCurly);
        }
        if c == '[' {
            return self.set_tok_and_eat(Token::LeftSquare);
        }
        if c == ']' {
            return self.set_tok_and_eat(Token::RightSquare);
        }
        if c == '(' {
            return self.set_tok_and_eat(Token::LeftParen);
        }
        if c == ')' {
            return self.set_tok_and_eat(Token::RightParen);
        }
        if c == ',' {
            return self.set_tok_and_eat(Token::Comma);
        }
        if c == ':' {
            self.get_char();
            self.curr_token = if self.curr_char == '=' {
                self.get_char();
                Token::ColonEquals
            } else {
                Token::Colon
            };
            return self.curr_token;
        }
        if c == ';' {
            self.curr_token = Token::SemiColon;
            self.get_char();
            return self.curr_token;
        }
        if c == '"' {
            self.curr_string = String::new();
            self.lex_string();
            self.curr_token = Token::TokString;
            return self.curr_token;
        }
        if is_decimal_digit(c) {
            self.curr_string = String::new();
            string_push(&mut self.curr_string, self.curr_char);
            self.get_char();
            self.lex_digits();
            self.curr_token = Token::Number;
            return self.curr_token;
        }
        if 'a' <= c && c <= 'z' {
            self.curr_string = String::new();
            string_push(&mut self.curr_string, self.curr_char);
            self.get_char();
            self.lex_alnum();
            self.curr_token = self.match_token();
            return self.curr_token;
        }
        //\n is also whitespace. So put it before whitespace check
        if c == '\0' {
            self.curr_token = Token::Eof;
            return self.curr_token;
        }
        if c == '\n' {
            self.line_pos += 1;
            self.curr_token = Token::NewLine;
            self.get_char();
            return self.curr_token;
        }
        if char_whitespace(c) {
            proof {
                lemma_skip_ws(self@);
                lemma_eat(self@);
            }
            self.skip_whitespace();
            self.curr_token = self.get_token();
            return self.curr_token;
        }
        self.curr_token = Token::Error;
        self.curr_token
    }

    /// Whether the next token can be read, that is whether `get_token` accepts this state: it
    /// refuses only a string literal with an unknown escape or without its closing quote.
    pub fn lexes(&self) -> (b: bool)
        requires
            self.wf(),
        ensures
            b == (lex(self@) is Some),
    {
        let c = self.curr_char;
        if c == '\n' || c == '\0' {
            return true;
        }
        if c == '"' {
            return self.string_ok(self.char_pos, Ghost(LexState { s: seq![], ..self@ }));
        }
        if !char_whitespace(c) {
            return true;
        }
        // Blanks: the token is read after the run of blanks.
        let ghost g = self@;
        proof {
            lemma_skip_ws(g);
        }
        let ghost target = skip_ws(g);
        let ghost mut h = g;
        let mut pos = self.char_pos;
        let mut cur = c;
        loop
            invariant_except_break
                skip_ws(h) == target,
            invariant
                h.src == self.src_code@,
                h.pos == pos as int,
                h.c == cur,
                pos <= self.src_code@.len(),
            ensures
                h == target,
            decreases self.src_code@.len() - pos,
        {
            let at_end = pos >= self.src_code.len();
            let next = if at_end {
                '\0'
            } else {
                self.src_code[pos] as char
            };
            let ghost h1 = eat(h);
            proof {
                h = h1;
            }
            if !at_end {
                pos = pos + 1;
            }
            cur = next;
            if at_end || !char_whitespace(next) {
                break ;
            }
        }
        proof {
            assert(lex_wf(g) && !(single(c) is Some) && !is_dig(c) && !('a' <= c && c <= 'z'));
            assert(lex(g) == lex(skip_ws(g)));
            assert(lex_wf(target) && !is_ws(target.c));
            assert(target.c == '\n' ==> is_ws(target.c));
        }
        if cur == '"' {
            self.string_ok(pos, Ghost(LexState { s: seq![], ..h }))
        } else {
            true
        }
    }

    /// Whether the rest of a string literal, read from `pos` on, is well formed.
    fn string_ok(&self, pos: usize, Ghost(st): Ghost<LexState>) -> (b: bool)
        requires
            st.src == self.src_code@,
            st.pos == pos as int,
            pos <= self.src_code@.len(),
        ensures
            b == (scan_string(st) is Some),
    {
        let ghost mut h = st;
        let mut p = pos;
        loop
            invariant
                h.src == self.src_code@,
                h.pos == p as int,
                p <= self.src_code@.len(),
                (scan_string(h) is Some) == (scan_string(st) is Some),
            decreases self.src_code@.len() - p,
        {
            if p >= self.src_code.len() {
                return false;
            }
            let c1 = self.src_code[p] as char;
            let ghost h1 = eat(h);
            if c1 == '\\' {
                let ghost h2 = eat(h1);
                let c2 = if p + 1 < self.src_code.len() {
                    self.src_code[p + 1] as char
                } else {
                    '\0'
                };
                if c2 == 'n' || c2 == 't' || c2 == '"' || c2 == '\\' {
                    proof {
                        h = push_c(h2, escape(c2)->0);
                    }
                    p = if p + 1 < self.src_code.len() {
                        p + 2
                    } else {
                        p + 1
                    };
                } else {
                    return false;
                }
            } else if c1 == '"' {
                return true;
            } else if c1 == '\0' {
                return false;
            } else {
                proof {
                    h = push_c(h1, c1);
                }
                p = p + 1;
            }
        }
    }

    /// Runs over the rest of the source, a character or two at a time.
    fn run(&mut self)
        requires
            old(self).wf(),
        ensures
            final(self)@ == run_spec(old(self)@),
            final(self).wf(),
    {
        while self.char_pos < self.src_code.len()
            invariant
                self.wf(),
                run_spec(self@) == run_spec(old(self)@),
            decreases self.src_code@.len() - self.char_pos,
        {
            self.get_char();
            if !char_whitespace(self.curr_char) {
                self.get_char();
            } else {
                let _ = self.match_token();
            }
        }
    }

    /// The token that the text in `curr_string` stands for: a keyword, or an identifier.
    pub fn match_token(&self) -> (t: Token)
        ensures
            t == keyword(self.curr_string@),
    {
        let s = &self.curr_string;
        if *s == "let".to_owned() {
            Token::Let
        } else if *s == "var".to_owned() {
            Token::Var
        } else if *s == "array".to_owned() {
            Token::Array
        } else if *s == "of".to_owned() {
            Token::Of
        } else if *s == "type".to_owned() {
            Token::Type
        } else if *s == "break".to_owned() {
            Token::Break
        } else if *s == "do".to_owned() {
            Token::Do
        } else if *s == "end".to_owned() {
            Token::End
        } else if *s == "while".to_owned() {
            Token::While
        } else if *s == "if".to_owned() {
            Token::If
        } else if *s == "then".to_owned() {
            Token::Then
        } else if *s == "else".to_owned() {
            Token::Else
        } else if *s == "for".to_owned() {
            Token::For
        } else if *s == "in".to_owned() {
            Token::In
        } else if *s == "function".to_owned() {
            Token::Function
        } else if *s == "nil".to_owned() {
            Token::Nil
        } else if *s == "int".to_owned() {
            Token::Int
        } else if *s == "string".to_owned() {
            Token::TokString
        } else if *s == "to".to_owned() {
            Token::To
        } else {
            Token::Ident
        }
    }
}

} // verus!
