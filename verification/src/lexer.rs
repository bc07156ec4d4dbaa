//! The lexer: from source text to tokens.

use crate::cursor::{char_at, clip, is_decimal_digit, is_digit, utf8_len, Cursor, EOF_CHAR};
use crate::number::Arithmetic;
use crate::token::{KindView, Token, TokenKind, TokenView};
use vstd::prelude::*;
use vstd::string::StringExecFns;

verus! {

/// What `char::is_whitespace` answers for a character: the Unicode
/// `White_Space` property.
pub uninterp spec fn unicode_whitespace(c: char) -> bool;

/// What `char::is_alphabetic` answers for a character: the Unicode
/// `Alphabetic` property.
pub uninterp spec fn unicode_alphabetic(c: char) -> bool;

/// What `char::is_alphanumeric` answers for a character: alphabetic, or in
/// one of Unicode's number categories.
pub uninterp spec fn unicode_alphanumeric(c: char) -> bool;

/// `char::is_whitespace` depends on the character alone; its answer is
/// named, not described.
pub assume_specification[ char::is_whitespace ](c: char) -> (b: bool)
    ensures
        b == unicode_whitespace(c),
;

/// `char::is_alphabetic` depends on the character alone; its answer is
/// named, not described.
pub assume_specification[ char::is_alphabetic ](c: char) -> (b: bool)
    ensures
        b == unicode_alphabetic(c),
;

/// `char::is_alphanumeric` depends on the character alone; its answer is
/// named, not described.
pub assume_specification[ char::is_alphanumeric ](c: char) -> (b: bool)
    ensures
        b == unicode_alphanumeric(c),
;

/// `String::push` appends one character to the end of the string.
pub assume_specification[ std::string::String::push ](s: &mut std::string::String, ch: char)
    ensures
        final(s)@ == old(s)@.push(ch),
;

/// One lexing step as a value: the kind and lexeme of the token, and the
/// index at which the next step starts.
pub ghost struct Lexed {
    pub kind: KindView,
    pub lexeme: Seq<char>,
    pub end: int,
}

/// First index at or after `pos` that holds a line feed; the length of `s`
/// if there is none.
pub open spec fn skip_line(s: Seq<char>, pos: int) -> int
    decreases s.len() - pos,
{
    if 0 <= pos < s.len() && s[pos] != '\n' {
        skip_line(s, pos + 1)
    } else {
        pos
    }
}

/// First index at or after `pos` that holds no decimal digit.
pub open spec fn scan_digits(s: Seq<char>, pos: int) -> int
    decreases s.len() - pos,
{
    if 0 <= pos < s.len() && is_digit(s[pos]) {
        scan_digits(s, pos + 1)
    } else {
        pos
    }
}

/// True for the characters that continue an identifier.
pub open spec fn is_word_char(c: char) -> bool {
    unicode_alphanumeric(c) || c == '_'
}

/// First index at or after `pos` that does not continue an identifier.
pub open spec fn scan_word(s: Seq<char>, pos: int) -> int
    decreases s.len() - pos,
{
    if 0 <= pos < s.len() && is_word_char(s[pos]) {
        scan_word(s, pos + 1)
    } else {
        pos
    }
}

/// First index at or after `pos` that holds a double quote; the length of
/// `s` if there is none.
pub open spec fn find_quote(s: Seq<char>, pos: int) -> int
    decreases s.len() - pos,
{
    if 0 <= pos < s.len() && s[pos] != '"' {
        find_quote(s, pos + 1)
    } else {
        pos
    }
}

/// Index just past the number literal whose first digit is at `pos - 1`:
/// digits, then a fraction if a dot is followed by a digit.
pub open spec fn number_end(s: Seq<char>, pos: int) -> int {
    let whole = scan_digits(s, pos);
    if char_at(s, whole) == '.' && is_digit(char_at(s, whole + 1)) {
        scan_digits(s, whole + 1)
    } else {
        whole
    }
}

/// The reserved-word table: the keyword a word spells, or an identifier.
pub open spec fn keyword_kind(word: Seq<char>) -> KindView {
    if word == "and"@ {
        KindView::And
    } else if word == "class"@ {
        KindView::Class
    } else if word == "else"@ {
        KindView::Else
    } else if word == "false"@ {
        KindView::False
    } else if word == "for"@ {
        KindView::For
    } else if word == "fun"@ {
        KindView::Fun
    } else if word == "if"@ {
        KindView::If
    } else if word == "nil"@ {
        KindView::Nil
    } else if word == "or"@ {
        KindView::Or
    } else if word == "print"@ {
        KindView::Print
    } else if word == "return"@ {
        KindView::Return
    } else if word == "super"@ {
        KindView::Super
    } else if word == "this"@ {
        KindView::This
    } else if word == "true"@ {
        KindView::True
    } else if word == "var"@ {
        KindView::Var
    } else if word == "while"@ {
        KindView::While
    } else {
        KindView::Identifier(word)
    }
}

/// A token made of the one character at `pos`.
pub open spec fn one(kind: KindView, s: Seq<char>, pos: int) -> Lexed {
    Lexed { kind, lexeme: seq![s[pos]], end: pos + 1 }
}

/// The operator at `pos`: the two-character form if `=` follows, the
/// one-character form otherwise.
pub open spec fn one_or_two(with_eq: KindView, alone: KindView, s: Seq<char>, pos: int) -> Lexed {
    if char_at(s, pos + 1) == '=' {
        Lexed { kind: with_eq, lexeme: seq![s[pos], '='], end: pos + 2 }
    } else {
        one(alone, s, pos)
    }
}

/// The string literal whose opening quote is at `pos - 1`. Without a closing
/// quote the rest of the input is consumed and the token is `Eof`.
pub open spec fn string_token(s: Seq<char>, pos: int) -> Lexed {
    let close = find_quote(s, pos);
    if close < s.len() {
        let inner = s.subrange(pos, close);
        Lexed { kind: KindView::String(inner), lexeme: seq!['"'] + inner + seq!['"'], end: close + 1 }
    } else {
        Lexed { kind: KindView::Eof, lexeme: Seq::empty(), end: close }
    }
}

/// The token that starts at `pos`, after any whitespace and line comments.
/// At the end of the input it is `Eof`.
pub open spec fn next_token(s: Seq<char>, pos: int) -> Lexed
    decreases s.len() - pos,
{
    if pos < 0 || pos >= s.len() {
        Lexed { kind: KindView::Eof, lexeme: seq![EOF_CHAR], end: pos }
    } else {
        let c = s[pos];
        if c == '(' {
            one(KindView::LeftParen, s, pos)
        } else if c == ')' {
            one(KindView::RightParen, s, pos)
        } else if c == '{' {
            one(KindView::LeftBrace, s, pos)
        } else if c == '}' {
            one(KindView::RightBrace, s, pos)
        } else if c == ',' {
            one(KindView::Comma, s, pos)
        } else if c == '.' {
            one(KindView::Dot, s, pos)
        } else if c == '-' {
            one(KindView::Minus, s, pos)
        } else if c == '+' {
            one(KindView::Plus, s, pos)
        } else if c == ';' {
            one(KindView::Semicolon, s, pos)
        } else if c == '*' {
            one(KindView::Star, s, pos)
        } else if c == '!' {
            one_or_two(KindView::Ne, KindView::Bang, s, pos)
        } else if c == '=' {
            one_or_two(KindView::EqEq, KindView::Eq, s, pos)
        } else if c == '>' {
            one_or_two(KindView::Ge, KindView::Gt, s, pos)
        } else if c == '<' {
            one_or_two(KindView::Le, KindView::Lt, s, pos)
        } else if c == '/' {
            if char_at(s, pos + 1) == '/' {
                let after = skip_line(s, pos + 1);
                if pos < after <= s.len() {
                    next_token(s, after)
                } else {
                    one(KindView::Slash, s, pos)
                }
            } else {
                one(KindView::Slash, s, pos)
            }
        } else if unicode_whitespace(c) {
            next_token(s, pos + 1)
        } else if c == '"' {
            string_token(s, pos + 1)
        } else if is_digit(c) {
            let end = number_end(s, pos + 1);
            Lexed { kind: KindView::Number, lexeme: s.subrange(pos, end), end }
        } else if unicode_alphabetic(c) || c == '_' {
            let end = scan_word(s, pos + 1);
            Lexed { kind: keyword_kind(s.subrange(pos, end)), lexeme: s.subrange(pos, end), end }
        } else if c == EOF_CHAR {
            one(KindView::Eof, s, pos)
        } else {
            one(KindView::Unknown(c), s, pos)
        }
    }
}

/// The token that a lexing step starting at `pos` yields when the byte
/// counter was last reset at `start`.
pub open spec fn token_at(s: Seq<char>, start: int, pos: int) -> TokenView {
    let lexed = next_token(s, pos);
    TokenView { kind: lexed.kind, length: clip(utf8_len(s, start, lexed.end)), lexeme: lexed.lexeme }
}

/// All tokens of `s` from `pos` on: one lexing step after another until the
/// input is used up.
pub open spec fn tokens_from(s: Seq<char>, pos: int) -> Seq<TokenView>
    decreases s.len() - pos,
{
    if pos < 0 || pos >= s.len() {
        Seq::empty()
    } else {
        let end = next_token(s, pos).end;
        if pos < end <= s.len() {
            seq![token_at(s, pos, pos)] + tokens_from(s, end)
        } else {
            Seq::empty()
        }
    }
}

/// The views of a vector of tokens.
pub open spec fn views(tokens: Seq<Token>) -> Seq<TokenView> {
    tokens.map_values(|t: Token| t@)
}

/// Every scan stays inside the input and does not move backwards.
pub proof fn lemma_scans_bounded(s: Seq<char>, pos: int)
    requires
        0 <= pos <= s.len(),
    ensures
        pos <= skip_line(s, pos) <= s.len(),
        pos <= scan_digits(s, pos) <= s.len(),
        pos <= scan_word(s, pos) <= s.len(),
        pos <= find_quote(s, pos) <= s.len(),
    decreases s.len() - pos,
{
    if pos < s.len() {
        lemma_scans_bounded(s, pos + 1);
    }
}

/// A lexing step that starts inside the input consumes at least one
/// character and ends inside the input: lexing always makes progress.
pub proof fn lemma_next_token_advances(s: Seq<char>, pos: int)
    requires
        0 <= pos < s.len(),
    ensures
        pos < next_token(s, pos).end <= s.len(),
    decreases s.len() - pos,
{
    let c = s[pos];
    lemma_scans_bounded(s, pos + 1);
    if c == '/' && char_at(s, pos + 1) == '/' {
        let after = skip_line(s, pos + 1);
        if after < s.len() {
            lemma_next_token_advances(s, after);
        }
    } else if unicode_whitespace(c) {
        if pos + 1 < s.len() {
            lemma_next_token_advances(s, pos + 1);
        }
    } else if is_digit(c) {
        let whole = scan_digits(s, pos + 1);
        if whole + 1 <= s.len() {
            lemma_scans_bounded(s, whole + 1);
        }
    }
}

fn one_char(c: char) -> (text: String)
    ensures
        text@ == seq![c],
{
    let mut text = String::new();
    text.push(c);
    assert(text@ =~= seq![c]);
    text
}

fn is_word(text: &String, word: &str) -> (same: bool)
    ensures
        same == (text@ == word@),
{
    let other = String::from_str(word);
    *text == other
}

impl Cursor {
    /// Reads the next token, skipping whitespace and line comments first.
    pub fn advance_token<A: Arithmetic>(&mut self, numbers: &A) -> (token: Token)
        requires
            old(self).well_formed(),
        ensures
            final(self).well_formed(),
            final(self).source() == old(self).source(),
            final(self).start() == old(self).start(),
            final(self).position() == next_token(old(self).source(), old(self).position()).end,
            token@ == token_at(old(self).source(), old(self).start(), old(self).position()),
        decreases old(self).source().len() - old(self).position(),
    {
        let ghost s = self.source();
        let ghost pos = self.position();
        let c = match self.bump() {
            Some(c) => c,
            None => {
                return Token {
                    value: TokenKind::Eof,
                    length: self.len_consumed(),
                    lexeme: one_char(EOF_CHAR),
                };
            },
        };
        let (kind, lexeme) = if c == '(' {
            (TokenKind::LeftParen, one_char(c))
        } else if c == ')' {
            (TokenKind::RightParen, one_char(c))
        } else if c == '{' {
            (TokenKind::LeftBrace, one_char(c))
        } else if c == '}' {
            (TokenKind::RightBrace, one_char(c))
        } else if c == ',' {
            (TokenKind::Comma, one_char(c))
        } else if c == '.' {
            (TokenKind::Dot, one_char(c))
        } else if c == '-' {
            (TokenKind::Minus, one_char(c))
        } else if c == '+' {
            (TokenKind::Plus, one_char(c))
        } else if c == ';' {
            (TokenKind::Semicolon, one_char(c))
        } else if c == '*' {
            (TokenKind::Star, one_char(c))
        } else if c == '!' {
            self.operator(TokenKind::Ne, TokenKind::Bang, c)
        } else if c == '=' {
            self.operator(TokenKind::EqEq, TokenKind::Eq, c)
        } else if c == '>' {
            self.operator(TokenKind::Ge, TokenKind::Gt, c)
        } else if c == '<' {
            self.operator(TokenKind::Le, TokenKind::Lt, c)
        } else if c == '/' {
            if self.first() == '/' {
                self.eat_while(|c: char| -> (keep: bool)
                    ensures
                        keep == (c != '\n'),
                    { c != '\n' });
                proof {
                    lemma_line_skipped(s, pos + 1, self.position());
                }
                return self.advance_token(numbers);
            } else {
                (TokenKind::Slash, one_char(c))
            }
        } else if c.is_whitespace() {
            return self.advance_token(numbers);
        } else if c == '"' {
            self.string()
        } else if is_decimal_digit(c) {
            self.number(c, numbers)
        } else if c.is_alphabetic() || c == '_' {
            self.identifier(c)
        } else if c == EOF_CHAR {
            (TokenKind::Eof, one_char(c))
        } else {
            (TokenKind::Unknown(c), one_char(c))
        };
        Token { value: kind, length: self.len_consumed(), lexeme }
    }

    /// Finishes an operator whose first character `c` was just consumed:
    /// with a following `=` it is `with_eq`, else `alone`.
    fn operator(&mut self, with_eq: TokenKind, alone: TokenKind, c: char) -> (r: (TokenKind, String))
        requires
            old(self).well_formed(),
            old(self).position() >= 1,
            old(self).source()[old(self).position() - 1] == c,
        ensures
            final(self).well_formed(),
            final(self).source() == old(self).source(),
            final(self).start() == old(self).start(),
            ({
                let lexed = one_or_two(with_eq@, alone@, old(self).source(), old(self).position() - 1);
                &&& r.0@ == lexed.kind
                &&& r.1@ == lexed.lexeme
                &&& final(self).position() == lexed.end
            }),
    {
        if self.first() == '=' {
            let mut lexeme = one_char(c);
            self.bump();
            lexeme.push('=');
            assert(lexeme@ =~= seq![c, '=']);
            (with_eq, lexeme)
        } else {
            (alone, one_char(c))
        }
    }

    /// Reads a string literal whose opening quote was just consumed.
    pub fn string(&mut self) -> (r: (TokenKind, String))
        requires
            old(self).well_formed(),
        ensures
            final(self).well_formed(),
            final(self).source() == old(self).source(),
            final(self).start() == old(self).start(),
            ({
                let lexed = string_token(old(self).source(), old(self).position());
                &&& r.0@ == lexed.kind
                &&& r.1@ == lexed.lexeme
                &&& final(self).position() == lexed.end
            }),
    {
        let ghost s = self.source();
        let ghost from = self.position();
        let mut val = String::new();
        let mut lexeme = one_char('"');
        loop
            invariant
                self.well_formed(),
                self.source() == s,
                s == old(self).source(),
                from == old(self).position(),
                self.start() == old(self).start(),
                0 <= from <= self.position() <= s.len(),
                val@ == s.subrange(from, self.position()),
                lexeme@ == seq!['"'] + val@,
                find_quote(s, self.position()) == find_quote(s, from),
            decreases s.len() - self.position(),
        {
            match self.bump() {
                Some(c) => {
                    if c == '"' {
                        lexeme.push('"');
                        assert(lexeme@ =~= seq!['"'] + val@ + seq!['"']);
                        return (TokenKind::String(val), lexeme);
                    }
                    val.push(c);
                    lexeme.push(c);
                    assert(val@ =~= s.subrange(from, self.position()));
                    assert(lexeme@ =~= seq!['"'] + val@);
                },
                None => {
                    return (TokenKind::Eof, String::new());
                },
            }
        }
    }

    /// Reads a number literal whose first digit was just consumed. The
    /// host says what number the digits denote.
    pub fn number<A: Arithmetic>(&mut self, first_digit: char, numbers: &A) -> (r: (
        TokenKind,
        String,
    ))
        requires
            old(self).well_formed(),
            old(self).position() >= 1,
            old(self).source()[old(self).position() - 1] == first_digit,
        ensures
            final(self).well_formed(),
            final(self).source() == old(self).source(),
            final(self).start() == old(self).start(),
            final(self).position() == number_end(old(self).source(), old(self).position()),
            r.0 is Number,
            r.1@ == old(self).source().subrange(old(self).position() - 1, final(self).position()),
    {
        let ghost s = self.source();
        let ghost from = self.position();
        let mut val = one_char(first_digit);
        assert(val@ =~= s.subrange(from - 1, from));
        while is_decimal_digit(self.first())
            invariant
                self.well_formed(),
                self.source() == s,
                self.start() == old(self).start(),
                1 <= from <= self.position() <= s.len(),
                val@ == s.subrange(from - 1, self.position()),
                scan_digits(s, self.position()) == scan_digits(s, from),
            decreases s.len() - self.position(),
        {
            let c = self.bump().unwrap();
            val.push(c);
            assert(val@ =~= s.subrange(from - 1, self.position()));
        }
        if self.first() == '.' && is_decimal_digit(self.second()) {
            let dot = self.bump().unwrap();
            val.push(dot);
            assert(val@ =~= s.subrange(from - 1, self.position()));
            let ghost fraction = self.position();
            while is_decimal_digit(self.first())
                invariant
                    self.well_formed(),
                    self.source() == s,
                    self.start() == old(self).start(),
                    1 <= from <= fraction <= self.position() <= s.len(),
                    val@ == s.subrange(from - 1, self.position()),
                    scan_digits(s, self.position()) == scan_digits(s, fraction),
                decreases s.len() - self.position(),
            {
                let c = self.bump().unwrap();
                val.push(c);
                assert(val@ =~= s.subrange(from - 1, self.position()));
            }
        }
        (TokenKind::Number(numbers.parse(val.as_str())), val)
    }

    /// Reads an identifier or keyword whose first character was just
    /// consumed.
    pub fn identifier(&mut self, starting_char: char) -> (r: (TokenKind, String))
        requires
            old(self).well_formed(),
            old(self).position() >= 1,
            old(self).source()[old(self).position() - 1] == starting_char,
        ensures
            final(self).well_formed(),
            final(self).source() == old(self).source(),
            final(self).start() == old(self).start(),
            final(self).position() == scan_word(old(self).source(), old(self).position()),
            r.0@ == keyword_kind(r.1@),
            r.1@ == old(self).source().subrange(old(self).position() - 1, final(self).position()),
    {
        let ghost s = self.source();
        let ghost from = self.position();
        let mut val = one_char(starting_char);
        assert(val@ =~= s.subrange(from - 1, from));
        loop
            invariant
                self.well_formed(),
                self.source() == s,
                self.start() == old(self).start(),
                1 <= from <= self.position() <= s.len(),
                val@ == s.subrange(from - 1, self.position()),
                scan_word(s, self.position()) == scan_word(s, from),
            ensures
                self.position() == scan_word(s, from),
            decreases s.len() - self.position(),
        {
            let next = self.first();
            if self.is_eof() || !(next.is_alphanumeric() || next == '_') {
                break;
            }
            let c = self.bump().unwrap();
            val.push(c);
            assert(val@ =~= s.subrange(from - 1, self.position()));
        }
        let lexeme = val.clone();
        let kind = if is_word(&val, "and") {
            TokenKind::And
        } else if is_word(&val, "class") {
            TokenKind::Class
        } else if is_word(&val, "else") {
            TokenKind::Else
        } else if is_word(&val, "false") {
            TokenKind::False
        } else if is_word(&val, "for") {
            TokenKind::For
        } else if is_word(&val, "fun") {
            TokenKind::Fun
        } else if is_word(&val, "if") {
            TokenKind::If
        } else if is_word(&val, "nil") {
            TokenKind::Nil
        } else if is_word(&val, "or") {
            TokenKind::Or
        } else if is_word(&val, "print") {
            TokenKind::Print
        } else if is_word(&val, "return") {
            TokenKind::Return
        } else if is_word(&val, "super") {
            TokenKind::Super
        } else if is_word(&val, "this") {
            TokenKind::This
        } else if is_word(&val, "true") {
            TokenKind::True
        } else if is_word(&val, "var") {
            TokenKind::Var
        } else if is_word(&val, "while") {
            TokenKind::While
        } else {
            TokenKind::Identifier(val)
        };
        (kind, lexeme)
    }
}

/// Consuming while the character is no line feed stops where `skip_line`
/// says.
proof fn lemma_line_skipped(s: Seq<char>, from: int, to: int)
    requires
        0 <= from <= to <= s.len(),
        forall|i: int| from <= i < to ==> #[trigger] s[i] != '\n',
        to < s.len() ==> s[to] == '\n',
    ensures
        skip_line(s, from) == to,
    decreases to - from,
{
    if from < to {
        lemma_line_skipped(s, from + 1, to);
    }
}

/// Lexes the whole input. Every input has a token sequence: nothing is
/// rejected, and a character no token starts with becomes an `Unknown`
/// token.
pub fn tokenize<A: Arithmetic>(input: &str, numbers: &A) -> (tokens: Vec<Token>)
    ensures
        views(tokens@) == tokens_from(input@, 0),
{
    let mut cursor = Cursor::new(input);
    let mut tokens: Vec<Token> = Vec::new();
    assert(views(tokens@) =~= Seq::empty());
    while !cursor.is_eof()
        invariant
            cursor.well_formed(),
            cursor.source() == input@,
            views(tokens@) + tokens_from(input@, cursor.position()) == tokens_from(input@, 0),
        decreases cursor.source().len() - cursor.position(),
    {
        let ghost pos = cursor.position();
        let ghost before = views(tokens@);
        cursor.reset_len_consumed();
        proof {
            lemma_next_token_advances(input@, pos);
        }
        let token = cursor.advance_token(numbers);
        tokens.push(token);
        assert(views(tokens@) =~= before.push(token@));
        assert(before.push(token@) + tokens_from(input@, cursor.position()) =~= before
            + tokens_from(input@, pos));
    }
    assert(views(tokens@) + Seq::<TokenView>::empty() =~= views(tokens@));
    tokens
}

/// Where the token that `next_token(s, pos)` yields begins: at `pos`, or
/// after the whitespace and the line comments that stand there.
pub open spec fn token_begin(s: Seq<char>, pos: int) -> int
    decreases s.len() - pos,
{
    if pos < 0 || pos >= s.len() {
        pos
    } else {
        let c = s[pos];
        if c == '(' || c == ')' || c == '{' || c == '}' || c == ',' || c == '.' || c == '-' || c
            == '+' || c == ';' || c == '*' || c == '!' || c == '=' || c == '>' || c == '<' {
            pos
        } else if c == '/' {
            let after = skip_line(s, pos + 1);
            if char_at(s, pos + 1) == '/' && pos < after <= s.len() {
                token_begin(s, after)
            } else {
                pos
            }
        } else if unicode_whitespace(c) {
            token_begin(s, pos + 1)
        } else {
            pos
        }
    }
}

/// A scan for digits passes digits only and stops at the end or at a
/// character that is no digit.
pub proof fn lemma_scan_digits(s: Seq<char>, from: int)
    requires
        0 <= from <= s.len(),
    ensures
        from <= scan_digits(s, from) <= s.len(),
        forall|j: int| from <= j < scan_digits(s, from) ==> is_digit(#[trigger] s[j]),
        scan_digits(s, from) < s.len() ==> !is_digit(s[scan_digits(s, from)]),
    decreases s.len() - from,
{
    if from < s.len() && is_digit(s[from]) {
        lemma_scan_digits(s, from + 1);
    }
}

/// Where only digits stand from `from` up to `to`, and `to` is the end or
/// holds no digit, a scan for digits from `from` stops at `to`.
pub proof fn lemma_scan_digits_stops(s: Seq<char>, from: int, to: int)
    requires
        0 <= from <= to <= s.len(),
        forall|j: int| from <= j < to ==> is_digit(#[trigger] s[j]),
        to < s.len() ==> !is_digit(s[to]),
    ensures
        scan_digits(s, from) == to,
    decreases to - from,
{
    if from < to {
        lemma_scan_digits_stops(s, from + 1, to);
    }
}

/// A scan for word characters passes word characters only and stops at the
/// end or at a character that is none.
pub proof fn lemma_scan_word(s: Seq<char>, from: int)
    requires
        0 <= from <= s.len(),
    ensures
        from <= scan_word(s, from) <= s.len(),
        forall|j: int| from <= j < scan_word(s, from) ==> is_word_char(#[trigger] s[j]),
        scan_word(s, from) < s.len() ==> !is_word_char(s[scan_word(s, from)]),
    decreases s.len() - from,
{
    if from < s.len() && is_word_char(s[from]) {
        lemma_scan_word(s, from + 1);
    }
}

/// Where only word characters stand from `from` up to `to`, and `to` is the
/// end or holds none, a scan for word characters from `from` stops at `to`.
pub proof fn lemma_scan_word_stops(s: Seq<char>, from: int, to: int)
    requires
        0 <= from <= to <= s.len(),
        forall|j: int| from <= j < to ==> is_word_char(#[trigger] s[j]),
        to < s.len() ==> !is_word_char(s[to]),
    ensures
        scan_word(s, from) == to,
    decreases to - from,
{
    if from < to {
        lemma_scan_word_stops(s, from + 1, to);
    }
}

/// A search for a quote passes no quote and stops at the end or at one.
pub proof fn lemma_find_quote(s: Seq<char>, from: int)
    requires
        0 <= from <= s.len(),
    ensures
        from <= find_quote(s, from) <= s.len(),
        forall|j: int| from <= j < find_quote(s, from) ==> #[trigger] s[j] != '"',
        find_quote(s, from) < s.len() ==> s[find_quote(s, from)] == '"',
    decreases s.len() - from,
{
    if from < s.len() && s[from] != '"' {
        lemma_find_quote(s, from + 1);
    }
}

/// Where no quote stands from `from` up to `to`, and `to` holds one, a
/// search for a quote from `from` stops at `to`.
pub proof fn lemma_find_quote_stops(s: Seq<char>, from: int, to: int)
    requires
        0 <= from <= to < s.len(),
        forall|j: int| from <= j < to ==> #[trigger] s[j] != '"',
        s[to] == '"',
    ensures
        find_quote(s, from) == to,
    decreases to - from,
{
    if from < to {
        lemma_find_quote_stops(s, from + 1, to);
    }
}

/// A token's lexeme, lexed on its own, is one token of the same kind with
/// the same lexeme. This holds of every token that begins inside the input
/// and has a lexeme; a string without a closing quote has none.
pub proof fn law_relexing_lexeme_gives_same_kind(s: Seq<char>, pos: int)
    requires
        0 <= pos < s.len(),
        token_begin(s, pos) < s.len(),
        next_token(s, pos).lexeme.len() > 0,
    ensures
        next_token(next_token(s, pos).lexeme, 0).kind == next_token(s, pos).kind,
        next_token(next_token(s, pos).lexeme, 0).lexeme == next_token(s, pos).lexeme,
        next_token(next_token(s, pos).lexeme, 0).end == next_token(s, pos).lexeme.len(),
    decreases s.len() - pos,
{
    let c = s[pos];
    let t = next_token(s, pos);
    let lex = t.lexeme;
    lemma_scans_bounded(s, pos + 1);
    if c == '(' || c == ')' || c == '{' || c == '}' || c == ',' || c == '.' || c == '-' || c == '+'
        || c == ';' || c == '*' {
        assert(lex =~= seq![c]);
        assert(next_token(lex, 0).lexeme =~= lex);
    } else if c == '!' || c == '=' || c == '>' || c == '<' {
        if char_at(s, pos + 1) == '=' {
            assert(lex =~= seq![c, '=']);
            assert(char_at(lex, 1) == '=');
            assert(next_token(lex, 0).lexeme =~= lex);
        } else {
            assert(lex =~= seq![c]);
            assert(char_at(lex, 1) == EOF_CHAR);
            assert(next_token(lex, 0).lexeme =~= lex);
        }
    } else if c == '/' {
        let after = skip_line(s, pos + 1);
        if char_at(s, pos + 1) == '/' && pos < after <= s.len() {
            if after < s.len() {
                law_relexing_lexeme_gives_same_kind(s, after);
            } else {
                assert(token_begin(s, after) == after);
            }
        } else {
            assert(lex =~= seq![c]);
            assert(char_at(lex, 1) == EOF_CHAR);
            assert(next_token(lex, 0).lexeme =~= lex);
        }
    } else if unicode_whitespace(c) {
        if pos + 1 < s.len() {
            law_relexing_lexeme_gives_same_kind(s, pos + 1);
        } else {
            assert(token_begin(s, pos + 1) == pos + 1);
        }
    } else if c == '"' {
        lemma_find_quote(s, pos + 1);
        let close = find_quote(s, pos + 1);
        let inner = s.subrange(pos + 1, close);
        assert(lex =~= seq!['"'] + inner + seq!['"']);
        assert(lex[0] == '"');
        assert forall|j: int| 1 <= j < 1 + inner.len() implies #[trigger] lex[j] != '"' by {
            assert(lex[j] == s[pos + j]);
        }
        lemma_find_quote_stops(lex, 1, 1 + inner.len() as int);
        assert(lex.subrange(1, 1 + inner.len() as int) =~= inner);
        assert(next_token(lex, 0).lexeme =~= lex);
    } else if is_digit(c) {
        lemma_scan_digits(s, pos + 1);
        let whole = scan_digits(s, pos + 1);
        let end = number_end(s, pos + 1);
        if char_at(s, whole) == '.' && is_digit(char_at(s, whole + 1)) {
            lemma_scan_digits(s, whole + 1);
            assert(lex =~= s.subrange(pos, end));
            assert forall|j: int| 1 <= j < whole - pos implies is_digit(#[trigger] lex[j]) by {
                assert(lex[j] == s[pos + j]);
            }
            assert(lex[whole - pos] == '.');
            lemma_scan_digits_stops(lex, 1, whole - pos);
            assert forall|j: int| whole - pos + 1 <= j < lex.len() implies is_digit(
                #[trigger] lex[j],
            ) by {
                assert(lex[j] == s[pos + j]);
            }
            lemma_scan_digits_stops(lex, whole - pos + 1, lex.len() as int);
            assert(lex[whole - pos + 1] == s[whole + 1]);
            assert(number_end(lex, 1) == lex.len());
            assert(lex.subrange(0, lex.len() as int) =~= lex);
        } else {
            assert(lex =~= s.subrange(pos, whole));
            assert forall|j: int| 1 <= j < lex.len() implies is_digit(#[trigger] lex[j]) by {
                assert(lex[j] == s[pos + j]);
            }
            lemma_scan_digits_stops(lex, 1, lex.len() as int);
            assert(char_at(lex, lex.len() as int) == EOF_CHAR);
            assert(number_end(lex, 1) == lex.len());
            assert(lex.subrange(0, lex.len() as int) =~= lex);
        }
        assert(lex[0] == c);
        assert(next_token(lex, 0).lexeme =~= lex);
    } else if unicode_alphabetic(c) || c == '_' {
        lemma_scan_word(s, pos + 1);
        let end = scan_word(s, pos + 1);
        assert(lex =~= s.subrange(pos, end));
        assert forall|j: int| 1 <= j < lex.len() implies is_word_char(#[trigger] lex[j]) by {
            assert(lex[j] == s[pos + j]);
        }
        lemma_scan_word_stops(lex, 1, lex.len() as int);
        assert(lex[0] == c);
        assert(lex.subrange(0, lex.len() as int) =~= lex);
        assert(next_token(lex, 0).lexeme =~= lex);
    } else {
        assert(lex =~= seq![c]);
        assert(next_token(lex, 0).lexeme =~= lex);
    }
}

} // verus!
