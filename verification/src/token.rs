//! The lexer: from source text to tokens.

use vstd::prelude::*;
use crate::error::Error;
use crate::ident::{valid_ident, Ident, Interned, Str, Strings};
use crate::pattern::matcher::GroupNumber;
use crate::pattern::parse::{
    ast_view, digits_end, digits_end_from, digits_end_run, naming, number_at, number_at_grows, number_at_positive,
    pattern_at, Ast, AstView, Fault, Name,
};
use crate::pattern::display::{ast_text, var_texts};
use crate::text::{
    alphabetic, byte_offset, byte_offset_bounds, byte_offset_step, chars_of, digit, digit_value, ident_part, in_ident, int_text, is_alphabetic,
    is_digit, is_whitespace, nat_text, push_char, push_int, push_nat, push_str, same_text,
    utf8_width, whitespace, Source,
};
use crate::value::Int;
use vstd::utf8::encode_utf8;

verus! {

/// The offset after the run of identifier characters that starts at `pos`.
pub open spec fn word_end(src: Seq<char>, pos: int) -> int
    decreases src.len() - pos,
{
    if 0 <= pos < src.len() && ident_part(src[pos]) {
        word_end(src, pos + 1)
    } else {
        pos
    }
}

/// The word gets no shorter and stays within the source.
pub proof fn word_end_bounds(src: Seq<char>, pos: int)
    requires
        0 <= pos <= src.len(),
    ensures
        pos <= word_end(src, pos) <= src.len(),
    decreases src.len() - pos,
{
    if pos < src.len() && ident_part(src[pos]) {
        word_end_bounds(src, pos + 1);
    }
}

/// A cursor over the code points of a source text, with the string pool
/// that the words it reads are interned in. It reads code point by code
/// point and hands out offsets in bytes, as they index the text.
pub struct Tokenizer {
    src: Source,
    strings: Strings,
    left: usize,
    right: usize,
}

impl Tokenizer {
    /// The code points of the source text.
    pub closed spec fn source(&self) -> Seq<char> {
        self.src@
    }

    /// The number of code points read so far.
    pub closed spec fn position(&self) -> int {
        if self.right <= self.src@.len() {
            self.right as int
        } else {
            self.src@.len() as int
        }
    }

    /// The position stays within the source.
    pub proof fn position_bounds(&self)
        ensures
            0 <= self.position() <= self.source().len(),
    {
    }

    /// The index of the code point that was read last.
    pub closed spec fn last_start(&self) -> int {
        self.left as int
    }

    /// The number of bytes read so far: the offset in the text of the code
    /// point that is read next.
    pub open spec fn right(&self) -> int {
        byte_offset(self.source(), self.position())
    }

    /// The offset in bytes at which the code point that was read last
    /// starts.
    pub open spec fn left(&self) -> int {
        byte_offset(self.source(), self.last_start())
    }

    /// The number of bytes read so far.
    pub fn offset(&self) -> (n: usize)
        ensures
            n == self.right(),
    {
        if self.right <= self.src.len() {
            self.src.byte_at(self.right)
        } else {
            self.src.byte_at(self.src.len())
        }
    }

    /// A tokenizer at the start of `src`, with an empty string pool.
    pub fn new(src: &str) -> (t: Tokenizer)
        ensures
            t.source() == src@,
            t.position() == 0,
            t.last_start() == 0,
    {
        Tokenizer { src: Source::new(src), strings: Strings::new(), left: 0, right: 0 }
    }

    /// Interns `input` in the tokenizer's string pool.
    pub fn intern<O: Interned>(&mut self, input: &str) -> (r: Result<O, Error>)
        ensures
            final(self).source() == old(self).source(),
            final(self).position() == old(self).position(),
            final(self).last_start() == old(self).last_start(),
            r is Ok <==> O::accepts(input@),
            r matches Ok(v) ==> v.text() == input@,
            r matches Err(e) ==> e matches Error::InvalidIdent { input: i } && i@ == input@,
    {
        self.strings.intern(input)
    }

    /// The code point that is read next, if any is left.
    pub open spec fn upcoming(&self) -> Option<char> {
        if self.position() < self.source().len() {
            Some(self.source()[self.position()])
        } else {
            None
        }
    }

    /// The next code point, which stays unread.
    pub fn lookahead(&self) -> (r: Option<char>)
        ensures
            r == self.upcoming(),
    {
        if self.right < self.src.len() {
            Some(self.src.at(self.right))
        } else {
            None
        }
    }

    /// Reads the next code point: the offset moves on by the bytes that the
    /// code point takes, and the code point starts where the offset was.
    pub fn getc(&mut self) -> (r: Option<char>)
        ensures
            final(self).source() == old(self).source(),
            r == old(self).upcoming(),
            r is Some ==> final(self).position() == old(self).position() + 1
                && final(self).last_start() == old(self).position(),
            r matches Some(c) ==> final(self).right() == old(self).right() + utf8_width(c)
                && final(self).left() == old(self).right(),
            r is None ==> final(self).position() == old(self).position()
                && final(self).last_start() == old(self).last_start(),
            final(self).right() <= encode_utf8(old(self).source()).len(),
    {
        proof {
            byte_offset_bounds(self.src@, self.position());
        }
        if self.right < self.src.len() {
            let c = self.src.at(self.right);
            proof {
                byte_offset_step(self.src@, self.right as int);
                byte_offset_bounds(self.src@, self.right + 1);
            }
            self.left = self.right;
            self.right = self.right + 1;
            Some(c)
        } else {
            None
        }
    }

    /// Reads a word: the next code point and the identifier characters that
    /// follow it. The word is interned as an identifier, which fails with
    /// `InvalidIdent` unless the word starts with a letter. `None` at the end
    /// of the source.
    pub fn word(&mut self) -> (r: Option<Result<Ident, Error>>)
        ensures
            final(self).source() == old(self).source(),
            r is Some == (old(self).position() < old(self).source().len()),
            r is Some ==> final(self).position() == word_end(
                old(self).source(),
                old(self).position() + 1,
            ),
            r matches Some(w) ==> (w is Ok <==> alphabetic(
                old(self).source()[old(self).position()],
            )),
            r matches Some(Ok(id)) ==> id@ == old(self).source().subrange(
                old(self).position(),
                final(self).position(),
            ),
            r matches Some(Err(e)) ==> e matches Error::InvalidIdent { input } && input@ == old(self).source().subrange(old(self).position(), final(self).position()),
            r is None ==> final(self).position() == old(self).position(),
    {
        match self.getc() {
            Some(c) => Some(self.endword(c)),
            None => None,
        }
    }

    /// Reads the rest of a word whose first code point, `start`, has just been read.
    pub fn endword(&mut self, start: char) -> (r: Result<Ident, Error>)
        requires
            0 < old(self).position(),
            old(self).source()[old(self).position() - 1] == start,
        ensures
            final(self).source() == old(self).source(),
            final(self).position() == word_end(old(self).source(), old(self).position()),
            r is Ok <==> alphabetic(start),
            r matches Ok(id) ==> id@ == old(self).source().subrange(
                old(self).position() - 1,
                final(self).position(),
            ),
            r matches Err(e) ==> e matches Error::InvalidIdent { input } && input@ == old(self).source().subrange(old(self).position() - 1, final(self).position()),
    {
        let mut word = String::new();
        push_char(&mut word, start);
        let ghost src = self.source();
        let ghost from = self.position();
        proof {
            word_end_bounds(src, from);
        }
        loop
            invariant
                self.source() == src,
                0 < from <= self.position() <= src.len(),
                word_end(src, from) == word_end(src, self.position()),
                word@ == src.subrange(from - 1, self.position()),
                forall|j: int| from <= j < self.position() ==> ident_part(#[trigger] src[j]),
            ensures
                self.source() == src,
                from <= self.position() <= src.len(),
                self.position() == word_end(src, from),
                word@ == src.subrange(from - 1, self.position()),
                forall|j: int| from <= j < self.position() ==> ident_part(#[trigger] src[j]),
            decreases src.len() - self.position(),
        {
            match self.lookahead() {
                Some(c) => {
                    if in_ident(c) {
                        push_char(&mut word, c);
                        self.getc();
                    } else {
                        break ;
                    }
                },
                None => {
                    break ;
                },
            }
        }
        let r = self.strings.intern(word.as_str());
        proof {
            assert(word@[0] == start);
            assert forall|i: int| 1 <= i < word@.len() implies ident_part(#[trigger] word@[i]) by {
                assert(word@[i] == src[from - 1 + i]);
            }
        }
        r
    }
}

/// A token of the language.
#[derive(Debug, PartialEq)]
pub enum Token {
    NEARWORD(Ident),
    FARWORD(Ident),
    GLOBAL(Ident),
    GROUP(u8),
    VAR(Ident),
    SYM(Ident),
    INT(Int),
    STR(Vec<Interp>),
    PAT(crate::pattern::Ast),
    LPAR,
    RPAR,
    LSQB,
    RSQB,
    LCBR,
    RCBR,
    DEF,
    LET,
    IF,
    ELSE,
    WHILE,
    COLON,
    RETURN,
    ASSERT,
    EQUAL,
    COMMA,
    MATCH,
    DOT,
    NOT,
    EQ,
    NE,
    ADD,
    SUB,
    DIV,
    MUL,
    EOL,
    AND,
    OR,
}

/// A piece of an interpolated string: literal text, a local, a global, or
/// a capture group.
#[derive(Debug, PartialEq)]
pub enum Interp {
    S(Str),
    V(Ident),
    G(Ident),
    C(GroupNumber),
}

/// The mathematical value of a piece of an interpolated string.
pub enum InterpView {
    S(Seq<char>),
    V(Seq<char>),
    G(Seq<char>),
    C(GroupNumber),
}

/// The kinds of tokens that carry a name.
pub enum Named {
    Near,
    Far,
    Global,
    Var,
    Sym,
}

/// The mathematical value of a token: a name, a number, the pieces of a
/// string, a pattern, or a token that is all in its kind.
pub enum TokenView {
    Word(Named, Seq<char>),
    Group(u8),
    Int(Int),
    Str(Seq<InterpView>),
    Pat(AstView<Name>),
    Mark(Token),
}

/// The value of a piece of an interpolated string.
pub open spec fn interp_view(i: Interp) -> InterpView {
    match i {
        Interp::S(s) => InterpView::S(s@),
        Interp::V(v) => InterpView::V(v@),
        Interp::G(g) => InterpView::G(g@),
        Interp::C(c) => InterpView::C(c),
    }
}

/// The values of the pieces of an interpolated string.
pub open spec fn interps_view(items: Seq<Interp>) -> Seq<InterpView> {
    Seq::new(items.len(), |i: int| interp_view(items[i]))
}

/// The value of a token.
pub open spec fn token_view(t: Token) -> TokenView {
    match t {
        Token::NEARWORD(id) => TokenView::Word(Named::Near, id@),
        Token::FARWORD(id) => TokenView::Word(Named::Far, id@),
        Token::GLOBAL(id) => TokenView::Word(Named::Global, id@),
        Token::VAR(id) => TokenView::Word(Named::Var, id@),
        Token::SYM(id) => TokenView::Word(Named::Sym, id@),
        Token::GROUP(n) => TokenView::Group(n),
        Token::INT(i) => TokenView::Int(i),
        Token::STR(items) => TokenView::Str(interps_view(items@)),
        Token::PAT(ast) => TokenView::Pat(ast_view(naming(), ast)),
        other => TokenView::Mark(other),
    }
}

/// Why the lexer stopped.
pub enum LexError {
    /// This error, as it is.
    Plain(Error),
    /// A word with this text is no identifier.
    BadIdent(Seq<char>),
}

/// Whether the error `e` tells the failure `f`.
pub open spec fn lex_tells(e: Error, f: LexError) -> bool {
    match f {
        LexError::Plain(x) => e == x,
        LexError::BadIdent(text) => e matches Error::InvalidIdent { input } && input@ == text,
    }
}

/// What the lexer finds: a token and the offset after it, a failure, or
/// the end of the source.
pub enum Lexed {
    Token(TokenView, int),
    Fail(LexError),
    End,
}

/// The offset after the line that a comment at `pos` runs to, or `None`
/// where the source ends before the line does.
pub open spec fn comment_end(src: Seq<char>, pos: int) -> Option<int>
    decreases src.len() - pos,
{
    if 0 <= pos < src.len() {
        if src[pos] == '\n' {
            Some(pos + 1)
        } else {
            comment_end(src, pos + 1)
        }
    } else {
        None
    }
}

/// The character that an escape stands for.
pub open spec fn unescaped(c: char) -> Option<char> {
    if c == '$' || c == '%' || c == '"' || c == '\\' {
        Some(c)
    } else if c == 'n' {
        Some('\n')
    } else if c == 'r' {
        Some('\r')
    } else if c == 't' {
        Some('\t')
    } else {
        None
    }
}

/// Reads on in a run of literal text of a string, which ends before `$`,
/// `%` or `"`: the text of the run and the offset after it.
pub open spec fn chunk_at(src: Seq<char>, pos: int, text: Seq<char>) -> Result<(Seq<char>, int), Error>
    decreases src.len() - pos,
{
    if 0 <= pos < src.len() && src[pos] != '$' && src[pos] != '%' && src[pos] != '"' {
        if src[pos] == '\\' {
            if pos + 1 < src.len() {
                match unescaped(src[pos + 1]) {
                    Some(c) => chunk_at(src, pos + 2, text.push(c)),
                    None => Err(Error::InvalidEscape),
                }
            } else {
                Err(Error::MalformedString)
            }
        } else {
            chunk_at(src, pos + 1, text.push(src[pos]))
        }
    } else {
        Ok((text, pos))
    }
}

/// Reads on in a string whose opening quote has been read, with the
/// pieces `items` read so far.
pub open spec fn string_at(src: Seq<char>, pos: int, items: Seq<InterpView>) -> Lexed
    decreases src.len() - pos,
{
    if 0 <= pos < src.len() {
        let ch = src[pos];
        let next = pos + 1;
        if ch == '"' {
            Lexed::Token(TokenView::Str(items), next)
        } else if ch == '$' {
            if next >= src.len() {
                Lexed::Fail(LexError::Plain(Error::MalformedString))
            } else if digit(src[next]) {
                let end = digits_end(src, next);
                if number_at(src, next, end) <= 255 && next < end <= src.len() {
                    string_at(src, end, items.push(InterpView::C(number_at(src, next, end) as u8)))
                } else {
                    Lexed::Fail(LexError::Plain(Error::MalformedString))
                }
            } else {
                let end = word_end(src, next + 1);
                if !alphabetic(src[next]) {
                    Lexed::Fail(LexError::BadIdent(src.subrange(next, end)))
                } else if next < end <= src.len() {
                    string_at(src, end, items.push(InterpView::V(src.subrange(next, end))))
                } else {
                    Lexed::Fail(LexError::Plain(Error::MalformedString))
                }
            }
        } else if ch == '%' {
            if next >= src.len() {
                Lexed::Fail(LexError::Plain(Error::MalformedString))
            } else {
                let end = word_end(src, next + 1);
                if !alphabetic(src[next]) {
                    Lexed::Fail(LexError::BadIdent(src.subrange(next, end)))
                } else if next < end <= src.len() {
                    string_at(src, end, items.push(InterpView::G(src.subrange(next, end))))
                } else {
                    Lexed::Fail(LexError::Plain(Error::MalformedString))
                }
            }
        } else {
            match chunk_at(src, next, seq![ch]) {
                Ok((text, end)) => if next <= end <= src.len() {
                    string_at(src, end, items.push(InterpView::S(text)))
                } else {
                    Lexed::Fail(LexError::Plain(Error::MalformedString))
                },
                Err(e) => Lexed::Fail(LexError::Plain(e)),
            }
        }
    } else {
        Lexed::Fail(LexError::Plain(Error::MalformedString))
    }
}

/// The token that a word is when it is a keyword.
pub open spec fn keyword(word: Seq<char>) -> Option<Token> {
    if word == "sub"@ {
        Some(Token::DEF)
    } else if word == "my"@ {
        Some(Token::LET)
    } else if word == "if"@ {
        Some(Token::IF)
    } else if word == "else"@ {
        Some(Token::ELSE)
    } else if word == "while"@ {
        Some(Token::WHILE)
    } else if word == "return"@ {
        Some(Token::RETURN)
    } else if word == "assert"@ {
        Some(Token::ASSERT)
    } else if word == "not"@ {
        Some(Token::NOT)
    } else if word == "eq"@ {
        Some(Token::EQ)
    } else if word == "ne"@ {
        Some(Token::NE)
    } else if word == "and"@ {
        Some(Token::AND)
    } else if word == "or"@ {
        Some(Token::OR)
    } else {
        None
    }
}

/// The token that a punctuation character is by itself.
pub open spec fn punctuation(c: char) -> Option<Token> {
    if c == '(' {
        Some(Token::LPAR)
    } else if c == ')' {
        Some(Token::RPAR)
    } else if c == '[' {
        Some(Token::LSQB)
    } else if c == ']' {
        Some(Token::RSQB)
    } else if c == '{' {
        Some(Token::LCBR)
    } else if c == '}' {
        Some(Token::RCBR)
    } else if c == ',' {
        Some(Token::COMMA)
    } else if c == ';' {
        Some(Token::EOL)
    } else if c == '.' {
        Some(Token::DOT)
    } else if c == '+' {
        Some(Token::ADD)
    } else if c == '-' {
        Some(Token::SUB)
    } else if c == '/' {
        Some(Token::DIV)
    } else if c == '*' {
        Some(Token::MUL)
    } else {
        None
    }
}

/// The token that starts with the character at `pos`.
pub open spec fn token_at(src: Seq<char>, pos: int) -> Lexed {
    if 0 <= pos < src.len() {
        let first = src[pos];
        let next = pos + 1;
        if punctuation(first) is Some {
            Lexed::Token(TokenView::Mark(punctuation(first)->0), next)
        } else if first == '=' {
            if next < src.len() && src[next] == '~' {
                Lexed::Token(TokenView::Mark(Token::MATCH), next + 1)
            } else {
                Lexed::Token(TokenView::Mark(Token::EQUAL), next)
            }
        } else if first == '"' {
            string_at(src, next, Seq::empty())
        } else if first == ':' {
            if next < src.len() && alphabetic(src[next]) {
                Lexed::Token(
                    TokenView::Word(Named::Sym, src.subrange(next, word_end(src, next + 1))),
                    word_end(src, next + 1),
                )
            } else {
                Lexed::Token(TokenView::Mark(Token::COLON), next)
            }
        } else if first == '$' {
            if next >= src.len() {
                Lexed::Fail(LexError::Plain(Error::Eof))
            } else if digit(src[next]) {
                Lexed::Token(TokenView::Group(digit_value(src[next]) as u8), next + 1)
            } else if alphabetic(src[next]) {
                Lexed::Token(
                    TokenView::Word(Named::Var, src.subrange(next, word_end(src, next + 1))),
                    word_end(src, next + 1),
                )
            } else {
                Lexed::Fail(LexError::Plain(Error::UnimplementedToken { ch: src[next] }))
            }
        } else if first == '%' {
            if next >= src.len() {
                Lexed::Fail(LexError::Plain(Error::Eof))
            } else if alphabetic(src[next]) {
                Lexed::Token(
                    TokenView::Word(Named::Global, src.subrange(next, word_end(src, next + 1))),
                    word_end(src, next + 1),
                )
            } else {
                Lexed::Fail(LexError::BadIdent(src.subrange(next, word_end(src, next + 1))))
            }
        } else if alphabetic(first) {
            let end = word_end(src, next);
            let word = src.subrange(pos, end);
            if keyword(word) is Some {
                Lexed::Token(TokenView::Mark(keyword(word)->0), end)
            } else if word == "re"@ {
                match pattern_at(src, end) {
                    Ok((pattern, after)) => Lexed::Token(TokenView::Pat(pattern), after),
                    Err(Fault::Syntax) => Lexed::Fail(LexError::Plain(Error::InvalidRegex)),
                    Err(Fault::Word(text)) => Lexed::Fail(LexError::BadIdent(text)),
                }
            } else if end < src.len() && src[end] == '(' {
                Lexed::Token(TokenView::Word(Named::Near, word), end)
            } else {
                Lexed::Token(TokenView::Word(Named::Far, word), end)
            }
        } else if digit(first) {
            let end = digits_end(src, pos);
            if number_at(src, pos, end) <= i32::MAX {
                Lexed::Token(TokenView::Int(number_at(src, pos, end) as i32), end)
            } else {
                Lexed::Fail(
                    LexError::Plain(
                        Error::UnimplementedFeature { feature: "integer literals beyond 32 bits" },
                    ),
                )
            }
        } else {
            Lexed::Fail(LexError::Plain(Error::UnimplementedToken { ch: first }))
        }
    } else {
        Lexed::End
    }
}

/// The next token from `pos` on, after the white space and the comments
/// that stand before it. A comment that the source ends in ends the tokens.
pub open spec fn lex_at(src: Seq<char>, pos: int) -> Lexed
    decreases src.len() - pos,
{
    if 0 <= pos < src.len() {
        if src[pos] == '#' {
            match comment_end(src, pos) {
                Some(after) => if pos < after <= src.len() {
                    lex_at(src, after)
                } else {
                    Lexed::End
                },
                None => Lexed::End,
            }
        } else if whitespace(src[pos]) {
            lex_at(src, pos + 1)
        } else {
            token_at(src, pos)
        }
    } else {
        Lexed::End
    }
}

/// Whether the lexer did what it should: it read the token that `want`
/// gives and stands after it, failed with an error that tells the failure
/// of `want`, or found no token and stands at the end of the source, which
/// has `len` code points.
pub open spec fn lexed(want: Lexed, r: Option<Result<Token, Error>>, after: int, len: nat) -> bool {
    match want {
        Lexed::Token(v, end) => r matches Some(Ok(t)) && token_view(t) == v && after == end,
        Lexed::Fail(f) => r matches Some(Err(e)) && lex_tells(e, f),
        Lexed::End => r is None && after == len,
    }
}

impl Tokenizer {
    /// Reads on in a run of decimal digits of which `src[from..position]`
    /// have been read and denote `acc`. Gives the number that the run
    /// denotes, or `None` where that number is greater than `limit`.
    fn number(&mut self, Ghost(from): Ghost<int>, acc: u64, limit: u64) -> (r: Option<u64>)
        requires
            0 <= from <= old(self).position(),
            forall|j: int| from <= j < old(self).position() ==> digit(#[trigger] old(self).source()[j]),
            acc == number_at(old(self).source(), from, old(self).position()),
            acc <= limit,
            limit <= u64::MAX / 16,
        ensures
            final(self).source() == old(self).source(),
            final(self).position() == digits_end(old(self).source(), from),
            old(self).position() <= final(self).position() <= old(self).source().len(),
            match r {
                Some(n) => n == number_at(old(self).source(), from, final(self).position()) && n
                    <= limit,
                None => number_at(old(self).source(), from, final(self).position()) > limit,
            },
    {
        let ghost src = self.source();
        let mut acc = acc;
        let mut big = false;
        proof {
            self.position_bounds();
            digits_end_from(src, from, self.position());
        }
        loop
            invariant
                self.source() == src,
                0 <= from <= old(self).position() <= self.position() <= src.len(),
                digits_end(src, from) == digits_end(src, self.position()),
                forall|j: int| from <= j < self.position() ==> digit(#[trigger] src[j]),
                limit <= u64::MAX / 16,
                !big ==> acc == number_at(src, from, self.position()) && acc <= limit,
                big ==> number_at(src, from, self.position()) > limit,
            ensures
                self.source() == src,
                old(self).position() <= self.position() <= src.len(),
                self.position() == digits_end(src, from),
                !big ==> acc == number_at(src, from, self.position()) && acc <= limit,
                big ==> number_at(src, from, self.position()) > limit,
            decreases src.len() - self.position(),
        {
            match self.lookahead() {
                Some(d) => {
                    if !is_digit(d) {
                        break ;
                    }
                    let ghost at = self.position();
                    self.getc();
                    proof {
                        number_at_positive(src, from, at);
                        assert(number_at(src, from, at + 1) == number_at(src, from, at) * 10
                            + digit_value(d));
                    }
                    if !big {
                        let value: u64 = (d as u32 - '0' as u32) as u64;
                        let next: u64 = acc * 10 + value;
                        if next > limit {
                            big = true;
                        } else {
                            acc = next;
                        }
                    }
                },
                None => {
                    break ;
                },
            }
        }
        if big {
            None
        } else {
            Some(acc)
        }
    }

    /// Reads the character that an escape stands for.
    fn unescape(&mut self) -> (r: Result<char, Error>)
        ensures
            final(self).source() == old(self).source(),
            old(self).position() <= final(self).position() <= old(self).source().len(),
            match old(self).upcoming() {
                Some(c) => final(self).position() == old(self).position() + 1 && match unescaped(c) {
                    Some(x) => r == Ok::<char, Error>(x),
                    None => r == Err::<char, Error>(Error::InvalidEscape),
                },
                None => r == Err::<char, Error>(Error::MalformedString),
            },
    {
        proof {
            self.position_bounds();
        }
        match self.getc() {
            Some(c) => {
                if c == '$' || c == '%' || c == '"' || c == '\\' {
                    Ok(c)
                } else if c == 'n' {
                    Ok('\n')
                } else if c == 'r' {
                    Ok('\r')
                } else if c == 't' {
                    Ok('\t')
                } else {
                    Err(Error::InvalidEscape)
                }
            },
            None => Err(Error::MalformedString),
        }
    }

    /// Reads a run of literal text of a string, of which `first` has been read.
    #[verifier::loop_isolation(false)]
    fn chunk(&mut self, first: char) -> (r: Result<Str, Error>)
        ensures
            final(self).source() == old(self).source(),
            old(self).position() <= final(self).position() <= old(self).source().len(),
            match chunk_at(old(self).source(), old(self).position(), seq![first]) {
                Ok((text, end)) => r matches Ok(s) && s@ == text && final(self).position() == end,
                Err(e) => r == Err::<Str, Error>(e),
            },
    {
        let ghost src = self.source();
        let ghost from = self.position();
        let mut s = String::new();
        push_char(&mut s, first);
        assert(s@ =~= seq![first]);
        proof {
            self.position_bounds();
        }
        loop
            invariant
                self.source() == src,
                from <= self.position() <= src.len(),
                chunk_at(src, from, seq![first]) == chunk_at(src, self.position(), s@),
            decreases src.len() - self.position(),
        {
            match self.lookahead() {
                Some(c) => {
                    if c == '$' || c == '%' || c == '"' {
                        break ;
                    }
                    self.getc();
                    if c == '\\' {
                        match self.unescape() {
                            Ok(x) => {
                                push_char(&mut s, x);
                            },
                            Err(e) => {
                                return Err(e);
                            },
                        }
                    } else {
                        push_char(&mut s, c);
                    }
                },
                None => {
                    break ;
                },
            }
        }
        match self.strings.intern(s.as_str()) {
            Ok(s) => Ok(s),
            Err(e) => Err(e),
        }
    }

    /// Reads a string whose opening quote has been read.
    #[verifier::loop_isolation(false)]
    fn interp(&mut self) -> (r: Result<Token, Error>)
        ensures
            final(self).source() == old(self).source(),
            lexed(
                string_at(old(self).source(), old(self).position(), Seq::empty()),
                Some(r),
                final(self).position(),
                old(self).source().len(),
            ),
    {
        let ghost src = self.source();
        let ghost from = self.position();
        let mut items: Vec<Interp> = Vec::new();
        proof {
            self.position_bounds();
            assert(interps_view(items@) =~= Seq::<InterpView>::empty());
        }
        loop
            invariant
                self.source() == src,
                from <= self.position() <= src.len(),
                string_at(src, from, Seq::empty()) == string_at(
                    src,
                    self.position(),
                    interps_view(items@),
                ),
            decreases src.len() - self.position(),
        {
            let ghost here = self.position();
            let ghost before = interps_view(items@);
            let ch = match self.getc() {
                Some(ch) => ch,
                None => {
                    return Err(Error::MalformedString);
                },
            };
            if ch == '"' {
                return Ok(Token::STR(items));
            }
            if ch == '$' {
                let c = match self.lookahead() {
                    Some(c) => c,
                    None => {
                        return Err(Error::MalformedString);
                    },
                };
                if is_digit(c) {
                    match self.number(Ghost(here + 1), 0, 255) {
                        Some(n) => {
                            proof {
                                assert(digit(src[here + 1]));
                                digits_end_run(src, here + 2);
                                assert(digits_end(src, here + 1) == digits_end(src, here + 2));
                            }
                            items.push(Interp::C(n as u8));
                            assert(interps_view(items@) =~= before.push(InterpView::C(n as u8)));
                        },
                        None => {
                            return Err(Error::MalformedString);
                        },
                    }
                } else {
                    proof {
                        word_end_bounds(src, here + 2);
                    }
                    match self.word() {
                        Some(Ok(word)) => {
                            items.push(Interp::V(word));
                            assert(interps_view(items@) =~= before.push(InterpView::V(word@)));
                        },
                        Some(Err(e)) => {
                            return Err(e);
                        },
                        None => {
                            return Err(Error::MalformedString);
                        },
                    }
                }
            } else if ch == '%' {
                proof {
                    if here + 1 < src.len() {
                        word_end_bounds(src, here + 2);
                    }
                }
                match self.word() {
                    Some(Ok(word)) => {
                        items.push(Interp::G(word));
                        assert(interps_view(items@) =~= before.push(InterpView::G(word@)));
                    },
                    Some(Err(e)) => {
                        return Err(e);
                    },
                    None => {
                        return Err(Error::MalformedString);
                    },
                }
            } else {
                match self.chunk(ch) {
                    Ok(s) => {
                        items.push(Interp::S(s));
                        assert(interps_view(items@) =~= before.push(InterpView::S(s@)));
                    },
                    Err(e) => {
                        return Err(e);
                    },
                }
            }
        }
    }
}

/// The token that a punctuation character is by itself.
fn punctuate(c: char) -> (r: Option<Token>)
    ensures
        r == punctuation(c),
{
    if c == '(' {
        Some(Token::LPAR)
    } else if c == ')' {
        Some(Token::RPAR)
    } else if c == '[' {
        Some(Token::LSQB)
    } else if c == ']' {
        Some(Token::RSQB)
    } else if c == '{' {
        Some(Token::LCBR)
    } else if c == '}' {
        Some(Token::RCBR)
    } else if c == ',' {
        Some(Token::COMMA)
    } else if c == ';' {
        Some(Token::EOL)
    } else if c == '.' {
        Some(Token::DOT)
    } else if c == '+' {
        Some(Token::ADD)
    } else if c == '-' {
        Some(Token::SUB)
    } else if c == '/' {
        Some(Token::DIV)
    } else if c == '*' {
        Some(Token::MUL)
    } else {
        None
    }
}

/// The token that a word is when it is a keyword.
fn as_keyword(word: &str) -> (r: Option<Token>)
    ensures
        r == keyword(word@),
{
    if same_text(word, "sub") {
        Some(Token::DEF)
    } else if same_text(word, "my") {
        Some(Token::LET)
    } else if same_text(word, "if") {
        Some(Token::IF)
    } else if same_text(word, "else") {
        Some(Token::ELSE)
    } else if same_text(word, "while") {
        Some(Token::WHILE)
    } else if same_text(word, "return") {
        Some(Token::RETURN)
    } else if same_text(word, "assert") {
        Some(Token::ASSERT)
    } else if same_text(word, "not") {
        Some(Token::NOT)
    } else if same_text(word, "eq") {
        Some(Token::EQ)
    } else if same_text(word, "ne") {
        Some(Token::NE)
    } else if same_text(word, "and") {
        Some(Token::AND)
    } else if same_text(word, "or") {
        Some(Token::OR)
    } else {
        None
    }
}

impl Tokenizer {
    /// Reads the token whose first character, `first`, has just been read.
    pub fn token(&mut self, first: char) -> (r: Result<Token, Error>)
        requires
            0 < old(self).position(),
            old(self).source()[old(self).position() - 1] == first,
        ensures
            final(self).source() == old(self).source(),
            lexed(
                token_at(old(self).source(), old(self).position() - 1),
                Some(r),
                final(self).position(),
                old(self).source().len(),
            ),
    {
        let ghost src = self.source();
        let ghost here = self.position() - 1;
        proof {
            self.position_bounds();
            word_end_bounds(src, here + 1);
            if here + 1 < src.len() {
                word_end_bounds(src, here + 2);
            }
        }
        match punctuate(first) {
            Some(token) => {
                return Ok(token);
            },
            None => {},
        }
        if first == '=' {
            match self.lookahead() {
                Some('~') => {
                    self.getc();
                    Ok(Token::MATCH)
                },
                _ => Ok(Token::EQUAL),
            }
        } else if first == '"' {
            self.interp()
        } else if first == ':' {
            match self.lookahead() {
                Some(w) => {
                    if is_alphabetic(w) {
                        match self.word() {
                            Some(Ok(word)) => Ok(Token::SYM(word)),
                            Some(Err(e)) => Err(e),
                            None => Err(Error::Eof),
                        }
                    } else {
                        Ok(Token::COLON)
                    }
                },
                None => Ok(Token::COLON),
            }
        } else if first == '$' {
            let w = match self.getc() {
                Some(w) => w,
                None => {
                    return Err(Error::Eof);
                },
            };
            if is_digit(w) {
                Ok(Token::GROUP((w as u32 - '0' as u32) as u8))
            } else if is_alphabetic(w) {
                match self.endword(w) {
                    Ok(word) => Ok(Token::VAR(word)),
                    Err(e) => Err(e),
                }
            } else {
                Err(Error::UnimplementedToken { ch: w })
            }
        } else if first == '%' {
            match self.word() {
                Some(Ok(word)) => Ok(Token::GLOBAL(word)),
                Some(Err(e)) => Err(e),
                None => Err(Error::Eof),
            }
        } else if is_alphabetic(first) {
            let word = match self.endword(first) {
                Ok(word) => word,
                Err(e) => {
                    return Err(e);
                },
            };
            match as_keyword(word.as_str()) {
                Some(token) => {
                    return Ok(token);
                },
                None => {},
            }
            if same_text(word.as_str(), "re") {
                match Ast::parse(self) {
                    Ok(pat) => Ok(Token::PAT(pat)),
                    Err(e) => Err(e),
                }
            } else {
                match self.lookahead() {
                    Some('(') => Ok(Token::NEARWORD(word)),
                    _ => Ok(Token::FARWORD(word)),
                }
            }
        } else if is_digit(first) {
            let value: u64 = (first as u32 - '0' as u32) as u64;
            proof {
                assert(number_at(src, here, here + 1) == number_at(src, here, here) * 10
                    + digit_value(first));
                digits_end_run(src, here + 1);
                assert(digits_end(src, here) == digits_end(src, here + 1));
            }
            match self.number(Ghost(here), value, 0x7fff_ffff) {
                Some(n) => Ok(Token::INT(n as i32)),
                None => Err(
                    Error::UnimplementedFeature { feature: "integer literals beyond 32 bits" },
                ),
            }
        } else {
            Err(Error::UnimplementedToken { ch: first })
        }
    }

    /// Reads the next token: skips white space and comments, then reads the
    /// token that follows. `None` at the end of the source, and where the
    /// source ends in a comment.
    #[verifier::loop_isolation(false)]
    pub fn next(&mut self) -> (r: Option<Result<Token, Error>>)
        ensures
            final(self).source() == old(self).source(),
            lexed(
                lex_at(old(self).source(), old(self).position()),
                r,
                final(self).position(),
                old(self).source().len(),
            ),
    {
        let ghost src = self.source();
        let ghost from = self.position();
        proof {
            self.position_bounds();
        }
        loop
            invariant
                self.source() == src,
                from <= self.position() <= src.len(),
                lex_at(src, from) == lex_at(src, self.position()),
            decreases src.len() - self.position(),
        {
            match self.lookahead() {
                Some(s) => {
                    if s == '#' {
                        let ghost start = self.position();
                        loop
                            invariant
                                self.source() == src,
                                start <= self.position() <= src.len(),
                                comment_end(src, start) == comment_end(src, self.position()),
                            decreases src.len() - self.position(),
                        {
                            match self.getc() {
                                Some(c) => {
                                    if c == '\n' {
                                        break ;
                                    }
                                },
                                None => {
                                    return None;
                                },
                            }
                        }
                    } else if is_whitespace(s) {
                        self.getc();
                    } else {
                        break ;
                    }
                },
                None => {
                    return None;
                },
            }
        }
        match self.getc() {
            Some(first) => Some(self.token(first)),
            None => None,
        }
    }

    /// Reads all the tokens that are left, up to the first failure.
    pub fn tokens(self) -> (r: Result<Vec<Token>, Error>)
        ensures
            match lex_all(self.source(), self.position()) {
                Ok(views) => r matches Ok(tokens) && tokens_view(tokens@) =~= views,
                Err(f) => r matches Err(e) && lex_tells(e, f),
            },
    {
        let mut this = self;
        let mut out: Vec<Token> = Vec::new();
        let ghost src = self.source();
        proof {
            this.position_bounds();
            assert(tokens_view(out@) + Seq::<TokenView>::empty() =~= Seq::<TokenView>::empty());
        }
        loop
            invariant
                this.source() == src,
                src == self.source(),
                0 <= this.position() <= src.len(),
                lex_all(src, self.position()) == following(
                    tokens_view(out@),
                    lex_all(src, this.position()),
                ),
            decreases src.len() - this.position(),
        {
            let ghost before = this.position();
            let ghost read = tokens_view(out@);
            proof {
                lex_progress(src, before);
            }
            match this.next() {
                Some(Ok(token)) => {
                    out.push(token);
                    proof {
                        this.position_bounds();
                        assert(tokens_view(out@) =~= read.push(token_view(token)));
                        match lex_all(src, this.position()) {
                            Ok(rest) => {
                                assert(read + (seq![token_view(token)] + rest) =~= read.push(
                                    token_view(token),
                                ) + rest);
                            },
                            Err(f) => {},
                        }
                    }
                },
                Some(Err(e)) => {
                    return Err(e);
                },
                None => {
                    proof {
                        assert(read + Seq::<TokenView>::empty() =~= read);
                    }
                    return Ok(out);
                },
            }
        }
    }

    /// The line and the column of the code point that was read last, both
    /// counted from the code points up to it: a line feed starts a line, and
    /// every other code point is a column of its line. `None` where the
    /// source has no such code point.
    pub fn line_and_col(&self) -> (r: Option<(usize, usize)>)
        ensures
            r == place_of(self.source(), self.last_start()),
    {
        let len = self.src.len();
        if self.left >= len {
            return None;
        }
        let mut line: usize = 0;
        let mut col: usize = 0;
        let mut i: usize = 0;
        while i <= self.left
            invariant
                i <= self.left + 1,
                self.left < len,
                len == self.src@.len(),
                line <= i,
                col <= i,
                (line, col) == counted(self.src@, i as int),
            decreases self.left + 1 - i,
        {
            if self.src.at(i) == '\n' {
                line = line + 1;
                col = 0;
            } else {
                col = col + 1;
            }
            i = i + 1;
        }
        Some((line, col))
    }

    /// The tokens with their spans.
    pub fn spanned(self) -> (s: Spanned)
        ensures
            s.inner == self,
    {
        Spanned { inner: self }
    }
}

/// Whether the error `e` reports the failure `f`: it tells the failure, by
/// itself or with the line and the column at which the failure arose.
pub open spec fn lex_reports(e: Error, f: LexError) -> bool {
    lex_tells(e, f) || (e matches Error::WithPosition { cause, line, column } && lex_tells(
        *cause,
        f,
    ))
}

/// The offsets from which the lexer reads the tokens from `pos` on: each
/// token is read from where the token before it ended.
pub open spec fn lex_starts(src: Seq<char>, pos: int) -> Seq<int>
    decreases src.len() - pos,
{
    match lex_at(src, pos) {
        Lexed::Token(v, end) => if pos < end <= src.len() {
            seq![pos] + lex_starts(src, end)
        } else {
            seq![pos]
        },
        _ => Seq::empty(),
    }
}

/// The values of tokens.
pub open spec fn tokens_view(tokens: Seq<Token>) -> Seq<TokenView> {
    Seq::new(tokens.len(), |i: int| token_view(tokens[i]))
}

/// The tokens `read`, followed by what the rest of the source gives.
pub open spec fn following(read: Seq<TokenView>, rest: Result<Seq<TokenView>, LexError>) -> Result<
    Seq<TokenView>,
    LexError,
> {
    match rest {
        Ok(more) => Ok(read + more),
        Err(f) => Err(f),
    }
}

/// All the tokens from `pos` on, or the first failure.
pub open spec fn lex_all(src: Seq<char>, pos: int) -> Result<Seq<TokenView>, LexError>
    decreases src.len() - pos,
{
    match lex_at(src, pos) {
        Lexed::Token(v, end) => if pos < end <= src.len() {
            following(seq![v], lex_all(src, end))
        } else {
            Ok(seq![v])
        },
        Lexed::Fail(f) => Err(f),
        Lexed::End => Ok(Seq::empty()),
    }
}

/// The line and the column after the first `n` code points of a source.
pub open spec fn counted(src: Seq<char>, n: int) -> (usize, usize)
    decreases n,
{
    if n <= 0 || n > src.len() {
        (0, 0)
    } else if src[n - 1] == '\n' {
        ((counted(src, n - 1).0 + 1) as usize, 0)
    } else {
        (counted(src, n - 1).0, (counted(src, n - 1).1 + 1) as usize)
    }
}

/// The line and the column of the code point at offset `at`.
pub open spec fn place_of(src: Seq<char>, at: int) -> Option<(usize, usize)> {
    if 0 <= at < src.len() {
        Some(counted(src, at + 1))
    } else {
        None
    }
}

/// Every token has at least one code point: the lexer stands further on
/// after a token than before it.
pub proof fn lex_progress(src: Seq<char>, pos: int)
    requires
        0 <= pos <= src.len(),
    ensures
        lex_at(src, pos) matches Lexed::Token(v, end) ==> pos < end,
    decreases src.len() - pos,
{
    if pos < src.len() {
        if src[pos] == '#' {
            match comment_end(src, pos) {
                Some(after) => {
                    if pos < after <= src.len() {
                        lex_progress(src, after);
                    }
                },
                None => {},
            }
        } else if whitespace(src[pos]) {
            lex_progress(src, pos + 1);
        } else {
            token_progress(src, pos);
        }
    }
}

proof fn string_progress(src: Seq<char>, pos: int, items: Seq<InterpView>)
    requires
        0 <= pos <= src.len(),
    ensures
        string_at(src, pos, items) matches Lexed::Token(v, end) ==> pos < end,
    decreases src.len() - pos,
{
    if pos < src.len() {
        let ch = src[pos];
        let next = pos + 1;
        if ch == '"' {
        } else if ch == '$' {
            if next < src.len() {
                if digit(src[next]) {
                    let end = digits_end(src, next);
                    if number_at(src, next, end) <= 255 && next < end <= src.len() {
                        string_progress(
                            src,
                            end,
                            items.push(InterpView::C(number_at(src, next, end) as u8)),
                        );
                    }
                } else {
                    let end = word_end(src, next + 1);
                    if alphabetic(src[next]) && next < end <= src.len() {
                        string_progress(src, end, items.push(InterpView::V(src.subrange(next, end))));
                    }
                }
            }
        } else if ch == '%' {
            if next < src.len() {
                let end = word_end(src, next + 1);
                if alphabetic(src[next]) && next < end <= src.len() {
                    string_progress(src, end, items.push(InterpView::G(src.subrange(next, end))));
                }
            }
        } else {
            match chunk_at(src, next, seq![ch]) {
                Ok((text, end)) => {
                    if next <= end <= src.len() {
                        string_progress(src, end, items.push(InterpView::S(text)));
                    }
                },
                Err(e) => {},
            }
        }
    }
}

proof fn token_progress(src: Seq<char>, pos: int)
    requires
        0 <= pos < src.len(),
    ensures
        token_at(src, pos) matches Lexed::Token(v, end) ==> pos < end,
{
    word_end_bounds(src, pos + 1);
    if pos + 1 < src.len() {
        word_end_bounds(src, pos + 2);
    }
    string_progress(src, pos + 1, Seq::empty());
    digits_end_run(src, pos + 1);
    let first = src[pos];
    if alphabetic(first) && punctuation(first) is None && first != '=' && first != '"' && first
        != ':' && first != '$' && first != '%' {
        let end = word_end(src, pos + 1);
        let word = src.subrange(pos, end);
        if keyword(word) is None && word == "re"@ {
            crate::pattern::parse::pattern_progress(src, end);
        }
    }
}

/// The tokens of a source with their spans.
pub struct Spanned {
    pub inner: Tokenizer,
}

impl Spanned {
    /// Reads the next token with its span: the offset at which the lexer
    /// stood before the token and the white space before it, and the offset
    /// after the token. Offsets count bytes of the source text. An error is
    /// wrapped with the line and the column at which it arose, where there
    /// is one.
    pub fn next(&mut self) -> (r: Option<Result<(usize, Token, usize), Error>>)
        ensures
            final(self).inner.source() == old(self).inner.source(),
            match lex_at(old(self).inner.source(), old(self).inner.position()) {
                Lexed::Token(v, end) => r matches Some(Ok((left, t, right))) && left == old(
                    self,
                ).inner.right() && token_view(t) == v && right == byte_offset(
                    old(self).inner.source(),
                    end,
                ) && final(self).inner.position() == end,
                Lexed::Fail(f) => r matches Some(Err(e)) && match place_of(
                    final(self).inner.source(),
                    final(self).inner.last_start(),
                ) {
                    Some((line, column)) => e matches Error::WithPosition {
                        cause,
                        line: l,
                        column: c,
                    } && lex_tells(*cause, f) && l == line && c == column,
                    None => lex_tells(e, f),
                },
                Lexed::End => r is None && final(self).inner.position() == old(self).inner.source().len(),
            },
    {
        let left = self.inner.offset();
        match self.inner.next() {
            Some(Ok(t)) => Some(Ok((left, t, self.inner.offset()))),
            Some(Err(e)) => match self.inner.line_and_col() {
                Some((line, column)) => Some(
                    Err(Error::WithPosition { cause: Box::new(e), line, column }),
                ),
                None => Some(Err(e)),
            },
            None => None,
        }
    }
}

/// The escape that stands for a character in a string, if it needs one.
pub open spec fn escape_of(c: char) -> Option<char> {
    if c == '$' || c == '%' || c == '"' || c == '\\' {
        Some(c)
    } else if c == '\n' {
        Some('n')
    } else if c == '\r' {
        Some('r')
    } else if c == '\t' {
        Some('t')
    } else {
        None
    }
}

/// Literal text as a string shows it: with a backslash and its escape for
/// each character that needs one.
pub open spec fn quoted_text(s: Seq<char>) -> Seq<char>
    decreases s.len(),
{
    if s.len() == 0 {
        Seq::empty()
    } else {
        match escape_of(s.last()) {
            Some(e) => quoted_text(s.drop_last()).push('\\').push(e),
            None => quoted_text(s.drop_last()).push(s.last()),
        }
    }
}

/// The source form of a piece of an interpolated string.
pub open spec fn interp_text(i: Interp) -> Seq<char> {
    match i {
        Interp::S(s) => quoted_text(s@),
        Interp::V(id) => "$"@ + id@,
        Interp::G(id) => "%"@ + id@,
        Interp::C(n) => "$"@ + nat_text(n as nat),
    }
}

/// The source forms of the pieces of an interpolated string, one after
/// the other.
pub open spec fn interps_text(items: Seq<Interp>) -> Seq<char>
    decreases items.len(),
{
    if items.len() == 0 {
        Seq::empty()
    } else {
        interps_text(items.drop_last()) + interp_text(items.last())
    }
}

/// The source form of a token.
pub open spec fn token_text(t: Token) -> Seq<char> {
    match t {
        Token::DEF => "sub"@,
        Token::LET => "my"@,
        Token::IF => "if"@,
        Token::ELSE => "else"@,
        Token::WHILE => "while"@,
        Token::RETURN => "return"@,
        Token::ASSERT => "assert"@,
        Token::NOT => "not"@,
        Token::EQ => "eq"@,
        Token::NE => "ne"@,
        Token::AND => "and"@,
        Token::OR => "or"@,
        Token::EOL => ";"@,
        Token::DOT => "."@,
        Token::COMMA => ","@,
        Token::COLON => ":"@,
        Token::EQUAL => "="@,
        Token::MATCH => "=~"@,
        Token::ADD => "+"@,
        Token::SUB => "-"@,
        Token::DIV => "/"@,
        Token::MUL => "*"@,
        Token::NEARWORD(id) => id@,
        Token::FARWORD(id) => id@,
        Token::GLOBAL(id) => "%"@ + id@,
        Token::GROUP(num) => "$"@ + nat_text(num as nat),
        Token::VAR(id) => "$"@ + id@,
        Token::SYM(id) => ":"@ + id@,
        Token::STR(items) => "\""@ + interps_text(items@) + "\""@,
        Token::INT(i) => int_text(i as int),
        Token::PAT(p) => ast_text(var_texts(), p),
        Token::LPAR => "("@,
        Token::RPAR => ")"@,
        Token::LSQB => "["@,
        Token::RSQB => "]"@,
        Token::LCBR => "{"@,
        Token::RCBR => "}"@,
    }
}

/// Appends literal text as a string shows it.
fn push_quoted(out: &mut String, s: &str)
    ensures
        final(out)@ == old(out)@ + quoted_text(s@),
{
    let chars = chars_of(s);
    let mut i: usize = 0;
    while i < chars.len()
        invariant
            i <= chars.len(),
            chars@ == s@,
            out@ == old(out)@ + quoted_text(chars@.take(i as int)),
        decreases chars.len() - i,
    {
        let c = chars[i];
        proof {
            assert(chars@.take(i + 1).drop_last() =~= chars@.take(i as int));
        }
        if c == '$' || c == '%' || c == '"' || c == '\\' {
            push_char(out, '\\');
            push_char(out, c);
        } else if c == '\n' {
            push_char(out, '\\');
            push_char(out, 'n');
        } else if c == '\r' {
            push_char(out, '\\');
            push_char(out, 'r');
        } else if c == '\t' {
            push_char(out, '\\');
            push_char(out, 't');
        } else {
            push_char(out, c);
        }
        i = i + 1;
    }
    assert(chars@.take(chars.len() as int) =~= chars@);
}

impl Token {
    /// Renders the token in its source form.
    pub fn to_string(&self) -> (s: String)
        ensures
            s@ == token_text(*self),
    {
        let mut s = String::new();
        match self {
            Token::DEF => push_str(&mut s, "sub"),
            Token::LET => push_str(&mut s, "my"),
            Token::IF => push_str(&mut s, "if"),
            Token::ELSE => push_str(&mut s, "else"),
            Token::WHILE => push_str(&mut s, "while"),
            Token::RETURN => push_str(&mut s, "return"),
            Token::ASSERT => push_str(&mut s, "assert"),
            Token::NOT => push_str(&mut s, "not"),
            Token::EQ => push_str(&mut s, "eq"),
            Token::NE => push_str(&mut s, "ne"),
            Token::AND => push_str(&mut s, "and"),
            Token::OR => push_str(&mut s, "or"),
            Token::EOL => push_str(&mut s, ";"),
            Token::DOT => push_str(&mut s, "."),
            Token::COMMA => push_str(&mut s, ","),
            Token::COLON => push_str(&mut s, ":"),
            Token::EQUAL => push_str(&mut s, "="),
            Token::MATCH => push_str(&mut s, "=~"),
            Token::ADD => push_str(&mut s, "+"),
            Token::SUB => push_str(&mut s, "-"),
            Token::DIV => push_str(&mut s, "/"),
            Token::MUL => push_str(&mut s, "*"),
            Token::NEARWORD(id) => push_str(&mut s, id.as_str()),
            Token::FARWORD(id) => push_str(&mut s, id.as_str()),
            Token::GLOBAL(id) => {
                push_str(&mut s, "%");
                push_str(&mut s, id.as_str());
            },
            Token::GROUP(num) => {
                push_str(&mut s, "$");
                push_nat(&mut s, *num as u64);
            },
            Token::VAR(id) => {
                push_str(&mut s, "$");
                push_str(&mut s, id.as_str());
            },
            Token::SYM(id) => {
                push_str(&mut s, ":");
                push_str(&mut s, id.as_str());
            },
            Token::STR(items) => {
                push_str(&mut s, "\"");
                let ghost start = s@;
                let mut i: usize = 0;
                while i < items.len()
                    invariant
                        i <= items.len(),
                        s@ == start + interps_text(items@.take(i as int)),
                    decreases items.len() - i,
                {
                    proof {
                        assert(items@.take(i + 1).drop_last() =~= items@.take(i as int));
                    }
                    match &items[i] {
                        Interp::S(text) => push_quoted(&mut s, text.as_str()),
                        Interp::V(id) => {
                            push_str(&mut s, "$");
                            push_str(&mut s, id.as_str());
                        },
                        Interp::G(id) => {
                            push_str(&mut s, "%");
                            push_str(&mut s, id.as_str());
                        },
                        Interp::C(n) => {
                            push_str(&mut s, "$");
                            push_nat(&mut s, *n as u64);
                        },
                    }
                    i = i + 1;
                }
                assert(items@.take(items.len() as int) =~= items@);
                push_str(&mut s, "\"");
            },
            Token::INT(i) => push_int(&mut s, *i as i64),
            Token::PAT(p) => {
                let text = p.to_string();
                push_str(&mut s, text.as_str());
            },
            Token::LPAR => push_str(&mut s, "("),
            Token::RPAR => push_str(&mut s, ")"),
            Token::LSQB => push_str(&mut s, "["),
            Token::RSQB => push_str(&mut s, "]"),
            Token::LCBR => push_str(&mut s, "{"),
            Token::RCBR => push_str(&mut s, "}"),
        }
        s
    }
}

} // verus!
