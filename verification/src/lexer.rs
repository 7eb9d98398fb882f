//! The lexer: from the bytes of a source text to tokens.
//!
//! The text is read byte by byte, each byte taken as the character with that
//! code.

use vstd::prelude::*;
use crate::error::LexerError;
use crate::text::{decimal, push_char, push_decimal, to_uppercase, uppercase};
use crate::tokens::{Real, Token, TokenType, TokenView, Value, ValueView};

verus! {

/// Whether the character with code `b` is white space: the controls from
/// tab to carriage return, the space, the next-line control and the
/// no-break space.
pub open spec fn is_whitespace(b: u8) -> bool {
    (9 <= b <= 13) || b == 32 || b == 0x85 || b == 0xa0
}

/// Whether the character with code `b` is numeric: a digit, a superscript
/// digit or a vulgar fraction.
pub open spec fn is_numeric(b: u8) -> bool {
    (48 <= b <= 57) || b == 0xb2 || b == 0xb3 || b == 0xb9 || (0xbc <= b <= 0xbe)
}

/// Whether the character with code `b` is a letter.
pub open spec fn is_alphabetic(b: u8) -> bool {
    (65 <= b <= 90) || (97 <= b <= 122) || b == 0xaa || b == 0xb5 || b == 0xba || (0xc0 <= b
        <= 0xd6) || (0xd8 <= b <= 0xf6) || 0xf8 <= b
}

/// Whether the character with code `b` may stand in an identifier.
pub open spec fn is_word(b: u8) -> bool {
    is_alphabetic(b) || is_numeric(b) || b == 95
}

/// Whether the character with code `b` is white space.
pub fn whitespace(b: u8) -> (yes: bool)
    ensures
        yes == is_whitespace(b),
{
    (9 <= b && b <= 13) || b == 32 || b == 0x85 || b == 0xa0
}

/// Whether the character with code `b` is numeric.
pub fn numeric(b: u8) -> (yes: bool)
    ensures
        yes == is_numeric(b),
{
    (48 <= b && b <= 57) || b == 0xb2 || b == 0xb3 || b == 0xb9 || (0xbc <= b && b <= 0xbe)
}

/// Whether the character with code `b` is a letter.
pub fn alphabetic(b: u8) -> (yes: bool)
    ensures
        yes == is_alphabetic(b),
{
    (65 <= b && b <= 90) || (97 <= b && b <= 122) || b == 0xaa || b == 0xb5 || b == 0xba || (0xc0
        <= b && b <= 0xd6) || (0xd8 <= b && b <= 0xf6) || 0xf8 <= b
}

/// Whether the character with code `b` may stand in an identifier.
pub fn word(b: u8) -> (yes: bool)
    ensures
        yes == is_word(b),
{
    alphabetic(b) || numeric(b) || b == 95
}

/// Where the lexer stands: the index of the byte it looks at, and the line
/// and column it counts.
pub struct Position {
    pub pos: nat,
    pub lineno: usize,
    pub column: usize,
}

/// One more than `n`, unless `n` is the largest number there is.
pub open spec fn bump(n: usize) -> usize {
    if n < usize::MAX {
        (n + 1) as usize
    } else {
        n
    }
}

/// The position one byte on. A line feed starts a new line; the column
/// counts on unless the text ends here. At the end nothing moves.
pub open spec fn advanced(text: Seq<u8>, at: Position) -> Position {
    if at.pos >= text.len() {
        at
    } else {
        let feed = text[at.pos as int] == 10;
        let column = if feed {
            0
        } else {
            at.column
        };
        Position {
            pos: at.pos + 1,
            lineno: if feed {
                bump(at.lineno)
            } else {
                at.lineno
            },
            column: if at.pos + 1 < text.len() {
                bump(column)
            } else {
                column
            },
        }
    }
}

/// The position after the white space that starts at `at`.
pub open spec fn skipped_whitespace(text: Seq<u8>, at: Position) -> Position
    decreases text.len() - at.pos,
{
    if at.pos < text.len() && is_whitespace(text[at.pos as int]) {
        skipped_whitespace(text, advanced(text, at))
    } else {
        at
    }
}

/// The position after the comment whose inside starts at `at`: one past the
/// first closing brace, or the end of the text if there is none.
pub open spec fn skipped_comment(text: Seq<u8>, at: Position) -> Position
    decreases text.len() - at.pos,
{
    if at.pos < text.len() && text[at.pos as int] != 125 {
        skipped_comment(text, advanced(text, at))
    } else {
        advanced(text, at)
    }
}

/// The position after the numeric characters that start at `at`.
pub open spec fn numeric_end(text: Seq<u8>, at: Position) -> Position
    decreases text.len() - at.pos,
{
    if at.pos < text.len() && is_numeric(text[at.pos as int]) {
        numeric_end(text, advanced(text, at))
    } else {
        at
    }
}

/// The position after the identifier characters that start at `at`.
pub open spec fn word_end(text: Seq<u8>, at: Position) -> Position
    decreases text.len() - at.pos,
{
    if at.pos < text.len() && is_word(text[at.pos as int]) {
        word_end(text, advanced(text, at))
    } else {
        at
    }
}

/// The bytes from `from` up to `to`, each as the character with its code.
pub open spec fn characters(text: Seq<u8>, from: nat, to: nat) -> Seq<char>
    recommends
        from <= to <= text.len(),
{
    Seq::new((to - from) as nat, |i: int| text[from + i] as char)
}

/// Passing over white space never moves back nor beyond the end of the text.
pub proof fn lemma_skipped_whitespace_moves_on(text: Seq<u8>, at: Position)
    ensures
        skipped_whitespace(text, at).pos >= at.pos,
        at.pos <= text.len() ==> skipped_whitespace(text, at).pos <= text.len(),
    decreases text.len() - at.pos,
{
    if at.pos < text.len() && is_whitespace(text[at.pos as int]) {
        lemma_skipped_whitespace_moves_on(text, advanced(text, at));
    }
}

/// Passing over a comment moves on, and not beyond the end of the text.
pub proof fn lemma_skipped_comment_moves_on(text: Seq<u8>, at: Position)
    ensures
        skipped_comment(text, at).pos >= at.pos,
        at.pos < text.len() ==> skipped_comment(text, at).pos > at.pos,
        at.pos <= text.len() ==> skipped_comment(text, at).pos <= text.len(),
    decreases text.len() - at.pos,
{
    if at.pos < text.len() && text[at.pos as int] != 125 {
        lemma_skipped_comment_moves_on(text, advanced(text, at));
    }
}

/// A run of numeric characters ends at or after its start, within the text.
pub proof fn lemma_numeric_end_moves_on(text: Seq<u8>, at: Position)
    ensures
        numeric_end(text, at).pos >= at.pos,
        at.pos <= text.len() ==> numeric_end(text, at).pos <= text.len(),
    decreases text.len() - at.pos,
{
    if at.pos < text.len() && is_numeric(text[at.pos as int]) {
        lemma_numeric_end_moves_on(text, advanced(text, at));
    }
}

/// A word ends at or after its start, within the text.
pub proof fn lemma_word_end_moves_on(text: Seq<u8>, at: Position)
    ensures
        word_end(text, at).pos >= at.pos,
        at.pos <= text.len() ==> word_end(text, at).pos <= text.len(),
    decreases text.len() - at.pos,
{
    if at.pos < text.len() && is_word(text[at.pos as int]) {
        lemma_word_end_moves_on(text, advanced(text, at));
    }
}

/// The token of the given type and value that ends at `at`.
pub open spec fn token_at(type_: TokenType, value: ValueView, at: Position) -> TokenView {
    TokenView { type_, value, lineno: at.lineno, column: at.column }
}

/// What the lexer says of a piece of text that it cannot turn into a token.
pub open spec fn complaint(what: Seq<char>, at: Position) -> Seq<char> {
    "Lexer error on `"@ + what + "` line: "@ + decimal(at.lineno as nat) + " column: "@ + decimal(
        at.column as nat,
    )
}

/// The token type of a reserved word, given in upper case.
pub open spec fn reserved_keyword(word: Seq<char>) -> Option<TokenType> {
    if word == "BEGIN"@ {
        Some(TokenType::Begin)
    } else if word == "END"@ {
        Some(TokenType::End)
    } else if word == "DIV"@ {
        Some(TokenType::IntegerDiv)
    } else if word == "PROGRAM"@ {
        Some(TokenType::Program)
    } else if word == "INTEGER"@ {
        Some(TokenType::Integer)
    } else if word == "REAL"@ {
        Some(TokenType::Real)
    } else if word == "VAR"@ {
        Some(TokenType::Var)
    } else if word == "PROCEDURE"@ {
        Some(TokenType::Procedure)
    } else {
        None
    }
}

/// The token type of a character that is a token by itself.
pub open spec fn punctuation(b: u8) -> Option<TokenType> {
    if b == 43 {
        Some(TokenType::Plus)
    } else if b == 45 {
        Some(TokenType::Minus)
    } else if b == 42 {
        Some(TokenType::Mul)
    } else if b == 47 {
        Some(TokenType::FloatDiv)
    } else if b == 40 {
        Some(TokenType::LeftParen)
    } else if b == 41 {
        Some(TokenType::RightParen)
    } else if b == 59 {
        Some(TokenType::Semi)
    } else if b == 46 {
        Some(TokenType::Dot)
    } else if b == 44 {
        Some(TokenType::Comma)
    } else {
        None
    }
}

/// Whether every character is one of the digits `0` to `9`.
pub open spec fn all_digits(digits: Seq<char>) -> bool {
    forall|i: int| 0 <= i < digits.len() ==> 48 <= (#[trigger] digits[i]) as int <= 57
}

/// The number that a decimal numeral stands for.
pub open spec fn decimal_value(digits: Seq<char>) -> nat
    decreases digits.len(),
{
    if digits.len() == 0 {
        0
    } else {
        (decimal_value(digits.drop_last()) * 10 + (digits.last() as int - 48)) as nat
    }
}

/// The integer that a literal stands for: the value of its digits, if they
/// are all digits from `0` to `9` and the value is a 32-bit integer.
pub open spec fn integer_literal(digits: Seq<char>) -> Option<i32> {
    if digits.len() > 0 && all_digits(digits) && decimal_value(digits) <= i32::MAX {
        Some(decimal_value(digits) as i32)
    } else {
        None
    }
}

/// The number that starts at `at`: a run of numeric characters, which is an
/// integer, or such a run, a point and another run, which is a real. What a
/// real literal stands for is up to `literals`.
pub open spec fn number_token(
    literals: spec_fn(Seq<char>) -> Option<Real>,
    text: Seq<u8>,
    at: Position,
) -> Result<(TokenView, Position), Seq<char>> {
    let whole = numeric_end(text, at);
    if whole.pos < text.len() && text[whole.pos as int] == 46 {
        let end = numeric_end(text, advanced(text, whole));
        let literal = characters(text, at.pos, end.pos);
        match literals(literal) {
            Some(value) => Ok((token_at(TokenType::RealConst, ValueView::Float(value), end), end)),
            None => Err(complaint(literal, end)),
        }
    } else {
        let literal = characters(text, at.pos, whole.pos);
        match integer_literal(literal) {
            Some(value) => Ok(
                (token_at(TokenType::IntegerConst, ValueView::Integer(value), whole), whole),
            ),
            None => Err(complaint(literal, whole)),
        }
    }
}

/// The word that starts at `at`: a reserved word if its upper-case form is
/// one, and an identifier otherwise. Either way the token carries the word
/// as it is written.
pub open spec fn word_token(text: Seq<u8>, at: Position) -> (TokenView, Position) {
    let end = word_end(text, at);
    let word = characters(text, at.pos, end.pos);
    let type_ = match reserved_keyword(uppercase(word)) {
        Some(keyword) => keyword,
        None => TokenType::ID,
    };
    (token_at(type_, ValueView::String(word), end), end)
}

/// The next token of the text from `at` on and the position after it, or
/// the complaint about what stands there. White space and comments in
/// braces are passed over; at the end of the text the token is `EOF`.
pub open spec fn next_token(
    literals: spec_fn(Seq<char>) -> Option<Real>,
    text: Seq<u8>,
    at: Position,
) -> Result<(TokenView, Position), Seq<char>>
    decreases text.len() - at.pos,
{
    if at.pos >= text.len() {
        Ok((token_at(TokenType::EOF, ValueView::Absent, at), at))
    } else {
        let b = text[at.pos as int];
        let next = advanced(text, at);
        if is_whitespace(b) {
            next_token(literals, text, next)
        } else if is_numeric(b) {
            number_token(literals, text, at)
        } else if b == 58 {
            if at.pos + 1 < text.len() && text[at.pos + 1 as int] == 61 {
                let after = advanced(text, next);
                Ok((token_at(TokenType::Assign, ValueView::String(":="@), after), after))
            } else {
                Ok((token_at(TokenType::Colon, ValueView::Char(b as char), next), next))
            }
        } else if b == 123 {
            proof {
                lemma_skipped_comment_moves_on(text, next);
            }
            next_token(literals, text, skipped_comment(text, next))
        } else if punctuation(b) is Some {
            Ok((token_at(punctuation(b)->Some_0, ValueView::Char(b as char), next), next))
        } else if is_alphabetic(b) || b == 95 {
            Ok(word_token(text, at))
        } else {
            Err(complaint(seq![b as char], at))
        }
    }
}

/// The character that the lexer looks at, if the text has not ended.
pub open spec fn current(text: Seq<u8>, pos: nat) -> Option<char> {
    if pos < text.len() {
        Some(text[pos as int] as char)
    } else {
        None
    }
}

/// Whether the reader of real literals accepts every text.
pub open spec fn reads_every_literal<L: Fn(String) -> Option<Real>>(reader: L) -> bool {
    forall|literal: String| call_requires(reader, (literal,))
}

/// Whether the reader of real literals gives one result for one text.
pub open spec fn reads_literals_alike<L: Fn(String) -> Option<Real>>(reader: L) -> bool {
    forall|first: String, second: String, one: Option<Real>, other: Option<Real>|
        first@ == second@ && call_ensures(reader, (first,), one) && call_ensures(
            reader,
            (second,),
            other,
        ) ==> one == other
}

/// The function that the reader of real literals computes.
pub open spec fn literal_function<L: Fn(String) -> Option<Real>>(reader: L) -> spec_fn(
    Seq<char>,
) -> Option<Real> {
    |text: Seq<char>|
        (choose|reading: (String, Option<Real>)|
            reading.0@ == text && call_ensures(reader, (reading.0,), reading.1)).1
}

/// The reserved word that `word`, given in upper case, is.
pub fn keyword(word: &String) -> (found: Option<TokenType>)
    ensures
        found == reserved_keyword(word@),
{
    if *word == String::from_str("BEGIN") {
        Some(TokenType::Begin)
    } else if *word == String::from_str("END") {
        Some(TokenType::End)
    } else if *word == String::from_str("DIV") {
        Some(TokenType::IntegerDiv)
    } else if *word == String::from_str("PROGRAM") {
        Some(TokenType::Program)
    } else if *word == String::from_str("INTEGER") {
        Some(TokenType::Integer)
    } else if *word == String::from_str("REAL") {
        Some(TokenType::Real)
    } else if *word == String::from_str("VAR") {
        Some(TokenType::Var)
    } else if *word == String::from_str("PROCEDURE") {
        Some(TokenType::Procedure)
    } else {
        None
    }
}

/// The lexer. It is given the reader of real literals, which must accept
/// every text and be a function of the text.
pub struct Lexer<L> {
    text: Vec<u8>,
    pos: usize,
    lineno: usize,
    column: usize,
    real_literal: L,
}

impl<L: Fn(String) -> Option<Real>> Lexer<L> {
    /// The bytes of the source text.
    pub closed spec fn text(&self) -> Seq<u8> {
        self.text@
    }

    /// Where the lexer stands.
    pub closed spec fn position(&self) -> Position {
        Position { pos: self.pos as nat, lineno: self.lineno, column: self.column }
    }

    /// The reader of real literals that the lexer was made with.
    pub closed spec fn real_literal(&self) -> L {
        self.real_literal
    }

    /// What the reader makes of a real literal.
    pub open spec fn literals(&self) -> spec_fn(Seq<char>) -> Option<Real> {
        literal_function(self.real_literal())
    }

    /// Whether the lexer stands inside its text and its reader is usable.
    pub open spec fn wf(&self) -> bool {
        &&& self.position().pos <= self.text().len()
        &&& reads_every_literal(self.real_literal())
        &&& reads_literals_alike(self.real_literal())
    }

    /// Whether `self` is a later state of `before`: the same text and the
    /// same reader.
    pub open spec fn continues(&self, before: Self) -> bool {
        &&& self.wf()
        &&& self.text() == before.text()
        &&& self.real_literal() == before.real_literal()
    }

    /// Whether going from `self` to `after` with `result` is what `expected`
    /// describes.
    pub open spec fn lexed(
        &self,
        after: Self,
        result: Result<Token, LexerError>,
        expected: Result<(TokenView, Position), Seq<char>>,
    ) -> bool {
        &&& after.continues(*self)
        &&& match expected {
            Ok((token, at)) => result matches Ok(found) && found@ == token && after.position()
                == at,
            Err(message) => result matches Err(error) && error.message@ == message,
        }
    }

    /// A lexer at the start of `text`, on line 1 in column 1.
    pub fn new(text: String, real_literal: L) -> (lexer: Self)
        requires
            reads_every_literal(real_literal),
            reads_literals_alike(real_literal),
        ensures
            lexer.wf(),
            lexer.text() == vstd::utf8::encode_utf8(text@),
            lexer.position() == (Position { pos: 0, lineno: 1, column: 1 }),
            lexer.real_literal() == real_literal,
    {
        Lexer { text: text.as_str().as_bytes_vec(), pos: 0, lineno: 1, column: 1, real_literal }
    }

    /// The character that the lexer looks at, if the text has not ended.
    pub fn current_char(&self) -> (c: Option<char>)
        ensures
            c == current(self.text(), self.position().pos),
    {
        if self.pos < self.text.len() {
            Some(self.text[self.pos] as char)
        } else {
            None
        }
    }

    /// The character after the one that the lexer looks at.
    pub fn peek(&self) -> (c: Option<char>)
        ensures
            c == current(self.text(), self.position().pos + 1),
    {
        if self.pos < self.text.len() && self.pos + 1 < self.text.len() {
            Some(self.text[self.pos + 1] as char)
        } else {
            None
        }
    }

    /// The error for a piece of text that the lexer cannot turn into a token.
    pub fn error<T>(&self, what: &String) -> (raised: Result<T, LexerError>)
        ensures
            raised matches Err(error) && error.message@ == complaint(what@, self.position()),
    {
        let mut message = String::from_str("Lexer error on `");
        message.append(what.as_str());
        message.append("` line: ");
        push_decimal(&mut message, self.lineno);
        message.append(" column: ");
        push_decimal(&mut message, self.column);
        assert(message@ =~= complaint(what@, self.position()));
        LexerError::new(message).throw()
    }

    /// Moves one byte on.
    pub fn advance(&mut self)
        requires
            old(self).wf(),
        ensures
            final(self).continues(*old(self)),
            final(self).position() == advanced(old(self).text(), old(self).position()),
    {
        if self.pos < self.text.len() {
            if self.text[self.pos] == 10 {
                if self.lineno < usize::MAX {
                    self.lineno += 1;
                }
                self.column = 0;
            }
            self.pos += 1;
            if self.pos < self.text.len() && self.column < usize::MAX {
                self.column += 1;
            }
        }
    }

    /// Moves past the white space that the lexer stands at.
    pub fn skip_whitespace(&mut self)
        requires
            old(self).wf(),
        ensures
            final(self).continues(*old(self)),
            final(self).position() == skipped_whitespace(old(self).text(), old(self).position()),
    {
        while self.pos < self.text.len() && whitespace(self.text[self.pos])
            invariant
                self.continues(*old(self)),
                skipped_whitespace(self.text(), old(self).position()) == skipped_whitespace(
                    self.text(),
                    self.position(),
                ),
            decreases self.text().len() - self.position().pos,
        {
            self.advance();
        }
    }

    /// Moves past the comment that the lexer stands in, closing brace
    /// included.
    pub fn skip_comment(&mut self)
        requires
            old(self).wf(),
        ensures
            final(self).continues(*old(self)),
            final(self).position() == skipped_comment(old(self).text(), old(self).position()),
    {
        while self.pos < self.text.len() && self.text[self.pos] != 125
            invariant
                self.continues(*old(self)),
                skipped_comment(self.text(), old(self).position()) == skipped_comment(
                    self.text(),
                    self.position(),
                ),
            decreases self.text().len() - self.position().pos,
        {
            self.advance();
        }
        self.advance();
    }

    /// Reads the numeric characters that the lexer stands at into `literal`
    /// and moves past them. `digits` tells whether `literal` is a run of the
    /// digits `0` to `9` whose value, `value`, is a 32-bit integer.
    fn numeric_run(&mut self, literal: &mut String, Ghost(start): Ghost<nat>) -> (digits: (
        bool,
        u64,
    ))
        requires
            old(self).wf(),
            start <= old(self).position().pos,
            old(literal)@ == characters(old(self).text(), start, old(self).position().pos),
        ensures
            final(self).continues(*old(self)),
            final(self).position() == numeric_end(old(self).text(), old(self).position()),
            final(self).position().pos >= old(self).position().pos,
            final(literal)@ == characters(old(self).text(), start, final(self).position().pos),
            old(literal)@.len() == 0 ==> (digits.0 <==> all_digits(final(literal)@)
                && decimal_value(final(literal)@) <= i32::MAX),
            old(literal)@.len() == 0 && digits.0 ==> decimal_value(final(literal)@) == digits.1,
    {
        let mut value: u64 = 0;
        let mut valid = true;
        let ghost text = self.text();
        let ghost first = self.position().pos;
        proof {
            lemma_numeric_end_moves_on(text, self.position());
        }
        while self.pos < self.text.len() && numeric(self.text[self.pos])
            invariant
                self.continues(*old(self)),
                text == self.text(),
                start <= first <= self.position().pos <= text.len(),
                first == old(self).position().pos,
                numeric_end(text, old(self).position()) == numeric_end(text, self.position()),
                literal@ == characters(text, start, self.position().pos),
                old(literal)@ == characters(text, start, first),
                valid ==> value <= i32::MAX,
                old(literal)@.len() == 0 ==> (valid <==> all_digits(literal@) && decimal_value(
                    literal@,
                ) <= i32::MAX),
                old(literal)@.len() == 0 && valid ==> decimal_value(literal@) == value,
            decreases text.len() - self.position().pos,
        {
            let b = self.text[self.pos];
            let ghost before = literal@;
            push_char(literal, b as char);
            proof {
                assert(literal@ =~= characters(text, start, (self.position().pos + 1) as nat));
                assert(literal@.drop_last() =~= before);
                if !all_digits(before) {
                    let i = choose|i: int| 0 <= i < before.len() && !(48 <= (#[trigger] before[i]) as int <= 57);
                    assert(literal@[i] == before[i]);
                }
                if all_digits(literal@) {
                    assert forall|i: int| 0 <= i < before.len() implies 48 <= (
                    #[trigger] before[i]) as int <= 57 by {
                        assert(literal@[i] == before[i]);
                    }
                }
                if 48 <= b <= 57 && all_digits(before) {
                    assert forall|i: int| 0 <= i < literal@.len() implies 48 <= (
                    #[trigger] literal@[i]) as int <= 57 by {
                        if i < before.len() {
                            assert(literal@[i] == before[i]);
                        }
                    }
                }
                if !(48 <= b <= 57) {
                    assert(literal@[literal@.len() - 1] == b as char);
                }
            }
            if valid && 48 <= b && b <= 57 {
                let next: u64 = value * 10 + (b - 48) as u64;
                if next > 0x7fff_ffff {
                    valid = false;
                } else {
                    value = next;
                }
            } else {
                valid = false;
            }
            self.advance();
        }
        (valid, value)
    }

    /// Reads the number that the lexer stands at.
    pub fn number(&mut self) -> (result: Result<Token, LexerError>)
        requires
            old(self).wf(),
        ensures
            old(self).lexed(
                *final(self),
                result,
                number_token(old(self).literals(), old(self).text(), old(self).position()),
            ),
    {
        let ghost start = self.position().pos;
        let ghost text = self.text();
        let mut literal = String::new();
        assert(literal@ =~= characters(text, start, start));
        let (valid, value) = self.numeric_run(&mut literal, Ghost(start));
        if self.pos < self.text.len() && self.text[self.pos] == 46 {
            push_char(&mut literal, '.');
            assert(literal@ =~= characters(text, start, (self.position().pos + 1) as nat));
            self.advance();
            proof {
                lemma_numeric_end_moves_on(text, self.position());
            }
            let _ = self.numeric_run(&mut literal, Ghost(start));
            let copy = literal.clone();
            let read = (self.real_literal)(copy);
            proof {
                let reading = (copy, read);
                assert(reading.0@ == literal@ && call_ensures(
                    self.real_literal(),
                    (reading.0,),
                    reading.1,
                ));
                assert(self.literals()(literal@) == read);
            }
            match read {
                Some(value) => Ok(
                    Token::new(TokenType::RealConst, Value::Float(value), self.lineno, self.column),
                ),
                None => self.error(&literal),
            }
        } else if valid && literal.as_str().unicode_len() > 0 {
            Ok(
                Token::new(
                    TokenType::IntegerConst,
                    Value::Integer(value as i32),
                    self.lineno,
                    self.column,
                ),
            )
        } else {
            self.error(&literal)
        }
    }

    /// Reads the word that the lexer stands at.
    pub fn id(&mut self) -> (token: Token)
        requires
            old(self).wf(),
        ensures
            final(self).continues(*old(self)),
            token@ == word_token(old(self).text(), old(self).position()).0,
            final(self).position() == word_token(old(self).text(), old(self).position()).1,
    {
        let ghost start = self.position().pos;
        let ghost text = self.text();
        let mut result = String::new();
        assert(result@ =~= characters(text, start, start));
        while self.pos < self.text.len() && word(self.text[self.pos])
            invariant
                self.continues(*old(self)),
                text == self.text(),
                start == old(self).position().pos,
                start <= self.position().pos <= text.len(),
                word_end(text, old(self).position()) == word_end(text, self.position()),
                result@ == characters(text, start, self.position().pos),
            decreases text.len() - self.position().pos,
        {
            let b = self.text[self.pos];
            push_char(&mut result, b as char);
            assert(result@ =~= characters(text, start, (self.position().pos + 1) as nat));
            self.advance();
        }
        let upper = to_uppercase(&result);
        let type_ = match keyword(&upper) {
            Some(reserved) => reserved,
            None => TokenType::ID,
        };
        Token::new(type_, Value::String(result), self.lineno, self.column)
    }

    /// Reads the next token, passing over white space and comments.
    pub fn get_next_token(&mut self) -> (result: Result<Token, LexerError>)
        requires
            old(self).wf(),
        ensures
            old(self).lexed(
                *final(self),
                result,
                next_token(old(self).literals(), old(self).text(), old(self).position()),
            ),
    {
        let ghost text = self.text();
        let ghost literals = self.literals();
        while self.pos < self.text.len()
            invariant
                self.continues(*old(self)),
                text == self.text(),
                literals == self.literals(),
                next_token(literals, text, old(self).position()) == next_token(
                    literals,
                    text,
                    self.position(),
                ),
            decreases text.len() - self.position().pos,
        {
            let b = self.text[self.pos];
            let c = b as char;
            let ghost at = self.position();
            if whitespace(b) {
                proof {
                    lemma_whitespace_is_passed_over(literals, text, at);
                    lemma_skipped_whitespace_moves_on(text, advanced(text, at));
                }
                self.skip_whitespace();
                continue ;
            }
            if numeric(b) {
                return self.number();
            }
            if b == 58 {
                if self.pos + 1 < self.text.len() && self.text[self.pos + 1] == 61 {
                    self.advance();
                    self.advance();
                    return Ok(
                        Token::new(
                            TokenType::Assign,
                            Value::String(String::from_str(":=")),
                            self.lineno,
                            self.column,
                        ),
                    );
                } else {
                    self.advance();
                    return Ok(
                        Token::new(TokenType::Colon, Value::Char(c), self.lineno, self.column),
                    );
                }
            }
            if b == 123 {
                self.advance();
                proof {
                    lemma_skipped_comment_moves_on(text, self.position());
                }
                self.skip_comment();
                continue ;
            }
            let single = if b == 43 {
                Some(TokenType::Plus)
            } else if b == 45 {
                Some(TokenType::Minus)
            } else if b == 42 {
                Some(TokenType::Mul)
            } else if b == 47 {
                Some(TokenType::FloatDiv)
            } else if b == 40 {
                Some(TokenType::LeftParen)
            } else if b == 41 {
                Some(TokenType::RightParen)
            } else if b == 59 {
                Some(TokenType::Semi)
            } else if b == 46 {
                Some(TokenType::Dot)
            } else if b == 44 {
                Some(TokenType::Comma)
            } else {
                None
            };
            match single {
                Some(type_) => {
                    self.advance();
                    return Ok(Token::new(type_, Value::Char(c), self.lineno, self.column));
                },
                None => {},
            }
            if alphabetic(b) || b == 95 {
                return Ok(self.id());
            }
            let mut what = String::new();
            push_char(&mut what, c);
            assert(what@ =~= seq![c]);
            return self.error(&what);
        }
        Ok(Token::new(TokenType::EOF, Value::Absent, self.lineno, self.column))
    }
}

/// White space before a token does not change the token.
pub proof fn lemma_whitespace_is_passed_over(
    literals: spec_fn(Seq<char>) -> Option<Real>,
    text: Seq<u8>,
    at: Position,
)
    ensures
        next_token(literals, text, at) == next_token(
            literals,
            text,
            skipped_whitespace(text, at),
        ),
    decreases text.len() - at.pos,
{
    if at.pos < text.len() && is_whitespace(text[at.pos as int]) {
        lemma_whitespace_is_passed_over(literals, text, advanced(text, at));
    }
}

/// Whether a token that is a word carries the word as text.
pub open spec fn carries_text(token: TokenView) -> bool {
    (token.type_ == TokenType::ID || token.type_ == TokenType::Integer || token.type_
        == TokenType::Real) ==> token.value is String
}

/// A token ends at or after the place where its search began, and after it
/// unless it is `EOF`; identifiers and the names of types carry their text.
pub proof fn lemma_token_moves_on(
    literals: spec_fn(Seq<char>) -> Option<Real>,
    text: Seq<u8>,
    at: Position,
)
    requires
        at.pos <= text.len(),
    ensures
        next_token(literals, text, at) matches Ok((token, after)) ==> {
            &&& at.pos <= after.pos <= text.len()
            &&& token.type_ != TokenType::EOF ==> at.pos < after.pos
            &&& carries_text(token)
        },
    decreases text.len() - at.pos,
{
    if at.pos < text.len() {
        let b = text[at.pos as int];
        let next = advanced(text, at);
        if is_whitespace(b) {
            lemma_token_moves_on(literals, text, next);
        } else if is_numeric(b) {
            let whole = numeric_end(text, at);
            lemma_numeric_end_moves_on(text, next);
            lemma_numeric_end_moves_on(text, advanced(text, whole));
        } else if b == 58 {
        } else if b == 123 {
            lemma_skipped_comment_moves_on(text, next);
            lemma_token_moves_on(literals, text, skipped_comment(text, next));
        } else if punctuation(b) is Some {
        } else if is_alphabetic(b) || b == 95 {
            lemma_word_end_moves_on(text, next);
        }
    }
}

} // verus!
