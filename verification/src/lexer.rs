//! The lexer: from a source text to tokens, one at a time.
use vstd::prelude::*;
use crate::token::{Token, TokenKind};

verus! {

/// Space, tab, line feed, carriage return and form feed.
pub open spec fn is_blank(c: char) -> bool {
    c == ' ' || c == '\t' || c == '\n' || c == '\r' || c == '\x0C'
}

pub open spec fn is_digit(c: char) -> bool {
    '0' <= c && c <= '9'
}

pub open spec fn is_letter(c: char) -> bool {
    ('a' <= c && c <= 'z') || ('A' <= c && c <= 'Z')
}

/// What may follow the first letter of a word.
pub open spec fn is_word_char(c: char) -> bool {
    is_letter(c) || is_digit(c) || c == '_'
}

/// A place in a source: how many characters lie before it, and its line.
pub ghost struct Position {
    pub offset: int,
    pub line: int,
}

/// Where every source begins.
pub open spec fn origin() -> Position {
    Position { offset: 0, line: 1 }
}

/// The line after `line`. Lines are counted in a `usize`, so counting stops
/// at its largest value.
pub open spec fn next_line(line: int) -> int {
    if line < usize::MAX {
        line + 1
    } else {
        line
    }
}

/// The first place at or after `at` that holds no blank.
pub open spec fn skip_blanks(source: Seq<char>, at: Position) -> Position
    decreases source.len() - at.offset,
{
    if 0 <= at.offset < source.len() && is_blank(source[at.offset]) {
        skip_blanks(
            source,
            Position {
                offset: at.offset + 1,
                line: if source[at.offset] == '\n' {
                    next_line(at.line)
                } else {
                    at.line
                },
            },
        )
    } else {
        at
    }
}

/// The end of the longest run of digits that begins at `from`.
pub open spec fn digits_end(source: Seq<char>, from: int) -> int
    decreases source.len() - from,
{
    if 0 <= from < source.len() && is_digit(source[from]) {
        digits_end(source, from + 1)
    } else {
        from
    }
}

/// The end of the longest run of word characters that begins at `from`.
pub open spec fn word_end(source: Seq<char>, from: int) -> int
    decreases source.len() - from,
{
    if 0 <= from < source.len() && is_word_char(source[from]) {
        word_end(source, from + 1)
    } else {
        from
    }
}

/// The end of the number that begins at `from`: digits, and then a point
/// and more digits where a digit follows the point.
pub open spec fn number_end(source: Seq<char>, from: int) -> int {
    let whole = digits_end(source, from);
    if 0 <= whole && whole + 1 < source.len() && source[whole] == '.' && is_digit(
        source[whole + 1],
    ) {
        digits_end(source, whole + 2)
    } else {
        whole
    }
}

/// The kind of a word: one of the three reserved words, or an identifier.
pub open spec fn word_kind(word: Seq<char>) -> TokenKind {
    if word == seq!['t', 'r', 'u', 'e'] {
        TokenKind::True
    } else if word == seq!['f', 'a', 'l', 's', 'e'] {
        TokenKind::False
    } else if word == seq!['n', 'i', 'l'] {
        TokenKind::Nil
    } else {
        TokenKind::Identifier
    }
}

/// The kind of a token of one character that is neither digit nor letter.
pub open spec fn symbol_kind(c: char) -> TokenKind {
    if c == '(' {
        TokenKind::LeftParen
    } else if c == ')' {
        TokenKind::RightParen
    } else if c == '-' {
        TokenKind::Minus
    } else if c == '+' {
        TokenKind::Plus
    } else if c == '/' {
        TokenKind::Slash
    } else if c == '*' {
        TokenKind::Star
    } else if c == '!' {
        TokenKind::Bang
    } else {
        TokenKind::Error
    }
}

/// Where the token that begins at `start` ends.
pub open spec fn token_end(source: Seq<char>, start: int) -> int {
    if is_digit(source[start]) {
        number_end(source, start)
    } else if is_letter(source[start]) {
        word_end(source, start)
    } else {
        start + 1
    }
}

/// The kind of the token that covers `source` from `start` to `end`.
pub open spec fn token_kind(source: Seq<char>, start: int, end: int) -> TokenKind {
    if is_digit(source[start]) {
        TokenKind::Number
    } else if is_letter(source[start]) {
        word_kind(source.subrange(start, end))
    } else {
        symbol_kind(source[start])
    }
}

/// A token and the place behind it.
pub ghost struct Scan {
    pub token: Token,
    pub next: Position,
}

/// The next token at or after `at`. Blanks are passed over; at the end of the
/// source the token is `Eof`, of length 0, and the place stays where it is.
pub open spec fn scan(source: Seq<char>, at: Position) -> Scan {
    let begin = skip_blanks(source, at);
    if 0 <= begin.offset < source.len() {
        let end = token_end(source, begin.offset);
        Scan {
            token: Token {
                kind: token_kind(source, begin.offset, end),
                start: begin.offset as usize,
                length: (end - begin.offset) as usize,
                line: begin.line as usize,
            },
            next: Position { offset: end, line: begin.line },
        }
    } else {
        Scan {
            token: Token {
                kind: TokenKind::Eof,
                start: begin.offset as usize,
                length: 0,
                line: begin.line as usize,
            },
            next: begin,
        }
    }
}

/// The tokens from `at` on, up to the first `Eof` and with it.
pub open spec fn tokens_from(source: Seq<char>, at: Position) -> Seq<Token>
    decreases source.len() - at.offset,
{
    let found = scan(source, at);
    if found.token.kind == TokenKind::Eof {
        seq![found.token]
    } else {
        proof {
            scan_moves_on(source, at);
        }
        seq![found.token] + tokens_from(source, found.next)
    }
}

/// All the tokens of a source.
pub open spec fn tokens(source: Seq<char>) -> Seq<Token> {
    tokens_from(source, origin())
}

proof fn skip_blanks_bounds(source: Seq<char>, at: Position)
    ensures
        at.offset <= skip_blanks(source, at).offset,
        at.offset <= source.len() ==> skip_blanks(source, at).offset <= source.len(),
        at.line <= skip_blanks(source, at).line,
        at.line <= usize::MAX ==> skip_blanks(source, at).line <= usize::MAX,
        skip_blanks(source, skip_blanks(source, at)) == skip_blanks(source, at),
    decreases source.len() - at.offset,
{
    if 0 <= at.offset < source.len() && is_blank(source[at.offset]) {
        let step = Position {
            offset: at.offset + 1,
            line: if source[at.offset] == '\n' {
                next_line(at.line)
            } else {
                at.line
            },
        };
        skip_blanks_bounds(source, step);
    }
}

proof fn digits_end_bounds(source: Seq<char>, from: int)
    ensures
        from <= digits_end(source, from),
        from <= source.len() ==> digits_end(source, from) <= source.len(),
    decreases source.len() - from,
{
    if 0 <= from < source.len() && is_digit(source[from]) {
        digits_end_bounds(source, from + 1);
    }
}

proof fn word_end_bounds(source: Seq<char>, from: int)
    ensures
        from <= word_end(source, from),
        from <= source.len() ==> word_end(source, from) <= source.len(),
    decreases source.len() - from,
{
    if 0 <= from < source.len() && is_word_char(source[from]) {
        word_end_bounds(source, from + 1);
    }
}

/// A token other than `Eof` has at least one character and lies in the
/// source.
proof fn token_end_bounds(source: Seq<char>, start: int)
    requires
        0 <= start < source.len(),
    ensures
        start < token_end(source, start) <= source.len(),
{
    digits_end_bounds(source, start);
    digits_end_bounds(source, start + 1);
    word_end_bounds(source, start);
    word_end_bounds(source, start + 1);
    let whole = digits_end(source, start);
    digits_end_bounds(source, whole + 2);
}

/// Every token but `Eof` moves the place forward; `Eof` comes only at the end
/// of the source.
pub proof fn scan_moves_on(source: Seq<char>, at: Position)
    ensures
        at.offset <= scan(source, at).next.offset,
        scan(source, at).token.kind != TokenKind::Eof ==> at.offset < scan(source, at).next.offset
            <= source.len(),
        scan(source, at).token.kind == TokenKind::Eof ==> scan(source, scan(source, at).next)
            == scan(source, at),
{
    skip_blanks_bounds(source, at);
    let begin = skip_blanks(source, at);
    if 0 <= begin.offset < source.len() {
        token_end_bounds(source, begin.offset);
        let end = token_end(source, begin.offset);
        let kind = token_kind(source, begin.offset, end);
        assert(kind != TokenKind::Eof);
    }
}

/// The tokens end with `Eof`, and hold no other `Eof`.
pub proof fn tokens_end(source: Seq<char>, at: Position)
    ensures
        tokens_from(source, at).len() >= 1,
        tokens_from(source, at).last().kind == TokenKind::Eof,
        forall|i: int|
            0 <= i < tokens_from(source, at).len() - 1 ==> (#[trigger] tokens_from(
                source,
                at,
            )[i]).kind != TokenKind::Eof,
    decreases source.len() - at.offset,
{
    let found = scan(source, at);
    if found.token.kind != TokenKind::Eof {
        scan_moves_on(source, at);
        tokens_end(source, found.next);
        let rest = tokens_from(source, found.next);
        let all = tokens_from(source, at);
        assert(all == seq![found.token] + rest);
        assert forall|i: int| 0 <= i < all.len() - 1 implies (#[trigger] all[i]).kind
            != TokenKind::Eof by {
            if i > 0 {
                assert(all[i] == rest[i - 1]);
            }
        }
    }
}

/// The number of the line on which the character at `offset` stands: 1 and
/// the number of line feeds before it, as far as a `usize` counts.
pub open spec fn line_number(source: Seq<char>, offset: int) -> int
    decreases offset,
{
    if offset <= 0 || offset > source.len() {
        1
    } else if source[offset - 1] == '\n' {
        next_line(line_number(source, offset - 1))
    } else {
        line_number(source, offset - 1)
    }
}

proof fn skip_blanks_lines(source: Seq<char>, at: Position)
    requires
        0 <= at.offset <= source.len(),
        at.line == line_number(source, at.offset),
    ensures
        skip_blanks(source, at).line == line_number(source, skip_blanks(source, at).offset),
        0 <= skip_blanks(source, at).offset <= source.len(),
        1 <= skip_blanks(source, at).line <= usize::MAX,
        skip_blanks(source, at).offset < source.len() ==> !is_blank(
            source[skip_blanks(source, at).offset],
        ),
    decreases source.len() - at.offset,
{
    line_number_bounds(source, at.offset);
    if 0 <= at.offset < source.len() && is_blank(source[at.offset]) {
        let step = Position {
            offset: at.offset + 1,
            line: if source[at.offset] == '\n' {
                next_line(at.line)
            } else {
                at.line
            },
        };
        skip_blanks_lines(source, step);
    }
}

proof fn line_number_bounds(source: Seq<char>, offset: int)
    ensures
        1 <= line_number(source, offset) <= usize::MAX,
    decreases offset,
{
    if offset <= 0 || offset > source.len() {
    } else {
        line_number_bounds(source, offset - 1);
    }
}

proof fn digits_hold_no_line_feed(source: Seq<char>, from: int, to: int)
    requires
        0 <= from <= to <= digits_end(source, from),
        from <= source.len(),
    ensures
        line_number(source, to) == line_number(source, from),
    decreases to - from,
{
    if from < to {
        digits_end_bounds(source, from);
        digits_run(source, from, to - 1);
        digits_hold_no_line_feed(source, from, to - 1);
    }
}

proof fn digits_run(source: Seq<char>, from: int, i: int)
    requires
        0 <= from <= i < digits_end(source, from),
    ensures
        i < source.len(),
        is_digit(source[i]),
    decreases i - from,
{
    if 0 <= from < source.len() && is_digit(source[from]) {
        if from < i {
            digits_run(source, from + 1, i);
        }
    }
}

proof fn words_hold_no_line_feed(source: Seq<char>, from: int, to: int)
    requires
        0 <= from <= to <= word_end(source, from),
        from <= source.len(),
    ensures
        line_number(source, to) == line_number(source, from),
    decreases to - from,
{
    if from < to {
        word_end_bounds(source, from);
        word_run(source, from, to - 1);
        words_hold_no_line_feed(source, from, to - 1);
    }
}

proof fn word_run(source: Seq<char>, from: int, i: int)
    requires
        0 <= from <= i < word_end(source, from),
    ensures
        i < source.len(),
        is_word_char(source[i]),
    decreases i - from,
{
    if 0 <= from < source.len() && is_word_char(source[from]) {
        if from < i {
            word_run(source, from + 1, i);
        }
    }
}

/// No token holds a line feed: the line behind a token is the line on which
/// it begins.
proof fn token_holds_no_line_feed(source: Seq<char>, start: int)
    requires
        0 <= start < source.len(),
        !is_blank(source[start]),
    ensures
        line_number(source, token_end(source, start)) == line_number(source, start),
{
    token_end_bounds(source, start);
    if is_digit(source[start]) {
        let whole = digits_end(source, start);
        digits_end_bounds(source, start);
        digits_hold_no_line_feed(source, start, whole);
        if 0 <= whole && whole + 1 < source.len() && source[whole] == '.' && is_digit(
            source[whole + 1],
        ) {
            let end = digits_end(source, whole + 2);
            digits_end_bounds(source, whole + 2);
            digits_hold_no_line_feed(source, whole + 2, end);
            assert(line_number(source, whole + 1) == line_number(source, whole));
            assert(line_number(source, whole + 2) == line_number(source, whole + 1));
        }
    } else if is_letter(source[start]) {
        word_end_bounds(source, start);
        words_hold_no_line_feed(source, start, word_end(source, start));
    } else {
        assert(line_number(source, start + 1) == line_number(source, start));
    }
}

/// The line of each token is the line on which it begins, and each token
/// begins inside the source or, the last one, at its end.
pub proof fn token_lines(source: Seq<char>, at: Position, i: int)
    requires
        source.len() <= usize::MAX,
        0 <= at.offset <= source.len(),
        at.line == line_number(source, at.offset),
        0 <= i < tokens_from(source, at).len(),
    ensures
        tokens_from(source, at)[i].line == line_number(
            source,
            tokens_from(source, at)[i].start as int,
        ),
        tokens_from(source, at)[i].start <= source.len(),
    decreases source.len() - at.offset,
{
    let found = scan(source, at);
    skip_blanks_lines(source, at);
    let begin = skip_blanks(source, at);
    if found.token.kind != TokenKind::Eof {
        scan_moves_on(source, at);
        token_holds_no_line_feed(source, begin.offset);
        let rest = tokens_from(source, found.next);
        assert(tokens_from(source, at) == seq![found.token] + rest);
        if i > 0 {
            token_lines(source, found.next, i - 1);
            assert(tokens_from(source, at)[i] == rest[i - 1]);
        }
    }
}

/// The lexer: a source and the place up to which it has been read.
pub struct Lexer {
    source: Vec<char>,
    offset: usize,
    line: usize,
}

fn blank(c: char) -> (b: bool)
    ensures
        b == is_blank(c),
{
    c == ' ' || c == '\t' || c == '\n' || c == '\r' || c == '\x0C'
}

fn digit(c: char) -> (b: bool)
    ensures
        b == is_digit(c),
{
    '0' <= c && c <= '9'
}

fn letter(c: char) -> (b: bool)
    ensures
        b == is_letter(c),
{
    ('a' <= c && c <= 'z') || ('A' <= c && c <= 'Z')
}

fn symbol(c: char) -> (kind: TokenKind)
    ensures
        kind == symbol_kind(c),
{
    if c == '(' {
        TokenKind::LeftParen
    } else if c == ')' {
        TokenKind::RightParen
    } else if c == '-' {
        TokenKind::Minus
    } else if c == '+' {
        TokenKind::Plus
    } else if c == '/' {
        TokenKind::Slash
    } else if c == '*' {
        TokenKind::Star
    } else if c == '!' {
        TokenKind::Bang
    } else {
        TokenKind::Error
    }
}

impl Lexer {
    /// The source that the lexer reads.
    pub closed spec fn source(&self) -> Seq<char> {
        self.source@
    }

    /// The place of the next character to be read.
    pub closed spec fn position(&self) -> Position {
        Position { offset: self.offset as int, line: self.line as int }
    }

    /// The tokens that are still to come.
    pub open spec fn pending(&self) -> Seq<Token> {
        tokens_from(self.source(), self.position())
    }

    /// A lexer at the beginning of `source`.
    pub fn new(source: &str) -> (lexer: Lexer)
        ensures
            lexer.source() == source@,
            lexer.position() == origin(),
    {
        let mut chars: Vec<char> = Vec::new();
        for c in it: source.chars()
            invariant
                chars@ == it.seq().take(it.index() as int),
                it.seq() == source@,
        {
            chars.push(c);
        }
        Lexer { source: chars, offset: 0, line: 1 }
    }

    fn digits_until(&self, from: usize) -> (end: usize)
        requires
            from <= self.source@.len(),
        ensures
            end == digits_end(self.source@, from as int),
            from <= end <= self.source@.len(),
    {
        let mut end: usize = from;
        while end < self.source.len() && digit(self.source[end])
            invariant
                from <= end <= self.source@.len(),
                digits_end(self.source@, end as int) == digits_end(self.source@, from as int),
            decreases self.source@.len() - end,
        {
            end += 1;
        }
        end
    }

    fn word_until(&self, from: usize) -> (end: usize)
        requires
            from <= self.source@.len(),
        ensures
            end == word_end(self.source@, from as int),
            from <= end <= self.source@.len(),
    {
        let mut end: usize = from;
        while end < self.source.len() && (letter(self.source[end]) || digit(self.source[end])
            || self.source[end] == '_')
            invariant
                from <= end <= self.source@.len(),
                word_end(self.source@, end as int) == word_end(self.source@, from as int),
            decreases self.source@.len() - end,
        {
            end += 1;
        }
        end
    }

    fn word_kind_between(&self, start: usize, end: usize) -> (kind: TokenKind)
        requires
            start <= end <= self.source@.len(),
        ensures
            kind == word_kind(self.source@.subrange(start as int, end as int)),
    {
        let ghost word = self.source@.subrange(start as int, end as int);
        let n: usize = end - start;
        if n == 4 && self.source[start] == 't' && self.source[start + 1] == 'r'
            && self.source[start + 2] == 'u' && self.source[start + 3] == 'e' {
            assert(word =~= seq!['t', 'r', 'u', 'e']);
            TokenKind::True
        } else if n == 5 && self.source[start] == 'f' && self.source[start + 1] == 'a'
            && self.source[start + 2] == 'l' && self.source[start + 3] == 's'
            && self.source[start + 4] == 'e' {
            assert(word =~= seq!['f', 'a', 'l', 's', 'e']);
            TokenKind::False
        } else if n == 3 && self.source[start] == 'n' && self.source[start + 1] == 'i'
            && self.source[start + 2] == 'l' {
            assert(word =~= seq!['n', 'i', 'l']);
            TokenKind::Nil
        } else {
            assert(word != seq!['t', 'r', 'u', 'e']) by {
                if word == seq!['t', 'r', 'u', 'e'] {
                    assert(word.len() == 4);
                    assert(word[0] == 't' && word[1] == 'r' && word[2] == 'u' && word[3] == 'e');
                }
            }
            assert(word != seq!['f', 'a', 'l', 's', 'e']) by {
                if word == seq!['f', 'a', 'l', 's', 'e'] {
                    assert(word.len() == 5);
                    assert(word[0] == 'f' && word[1] == 'a' && word[2] == 'l' && word[3] == 's'
                        && word[4] == 'e');
                }
            }
            assert(word != seq!['n', 'i', 'l']) by {
                if word == seq!['n', 'i', 'l'] {
                    assert(word.len() == 3);
                    assert(word[0] == 'n' && word[1] == 'i' && word[2] == 'l');
                }
            }
            TokenKind::Identifier
        }
    }

    /// Reads the next token. After `Eof` every further call gives `Eof` again.
    pub fn scan_token(&mut self) -> (token: Token)
        ensures
            final(self).source() == old(self).source(),
            token == scan(old(self).source(), old(self).position()).token,
            final(self).position() == scan(old(self).source(), old(self).position()).next,
    {
        while self.offset < self.source.len() && blank(self.source[self.offset])
            invariant
                self.source@ == old(self).source@,
                skip_blanks(self.source@, self.position()) == skip_blanks(
                    old(self).source@,
                    old(self).position(),
                ),
            decreases self.source@.len() - self.offset,
        {
            if self.source[self.offset] == '\n' && self.line < usize::MAX {
                self.line += 1;
            }
            self.offset += 1;
        }
        let start: usize = self.offset;
        let line: usize = self.line;
        if start >= self.source.len() {
            return Token { kind: TokenKind::Eof, start, length: 0, line };
        }
        let c: char = self.source[start];
        proof {
            token_end_bounds(self.source@, start as int);
        }
        if digit(c) {
            let whole: usize = self.digits_until(start);
            let end: usize = if whole < self.source.len() - 1 && self.source[whole] == '.' && digit(
                self.source[whole + 1],
            ) {
                self.digits_until(whole + 2)
            } else {
                whole
            };
            self.offset = end;
            Token { kind: TokenKind::Number, start, length: end - start, line }
        } else if letter(c) {
            let end: usize = self.word_until(start);
            let kind: TokenKind = self.word_kind_between(start, end);
            self.offset = end;
            Token { kind, start, length: end - start, line }
        } else {
            self.offset = start + 1;
            Token { kind: symbol(c), start, length: 1, line }
        }
    }

    /// A copy of a token's text.
    pub fn lexeme(&self, token: &Token) -> (text: Vec<char>)
        ensures
            text@ == token.text(self.source()),
    {
        let mut text: Vec<char> = Vec::new();
        if token.length > self.source.len() || token.start > self.source.len() - token.length {
            return text;
        }
        let mut i: usize = 0;
        while i < token.length
            invariant
                i <= token.length,
                token.start + token.length <= self.source.len(),
                text@ == self.source@.subrange(token.start as int, token.start + i),
            decreases token.length - i,
        {
            text.push(self.source[token.start + i]);
            i += 1;
        }
        text
    }
}

} // verus!
