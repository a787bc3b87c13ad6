//! Tokens of ASN.1 constraint text, and a tokenizer over its bytes.
use vstd::prelude::*;

verus! {

/// Words that the constraint grammar gives a meaning of its own.
#[derive(Debug, Clone, Copy, PartialEq, Eq, Structural)]
pub enum Keyword {
    Size,
    From,
    Min,
    Max,
    /// Any other word in capitals (a built-in type such as `INTEGER`).
    Other,
}

#[derive(Debug, Clone, Copy, PartialEq, Eq, Structural)]
pub enum TokenKind {
    RoundBegin,
    RoundEnd,
    CurlyBegin,
    CurlyEnd,
    Comma,
    /// `...`
    Extension,
    /// `..`
    RangeSeparator,
    LessThan,
    /// `|` or `UNION`
    SetUnion,
    /// `^` or `INTERSECTION`
    SetIntersection,
    Number,
    CString,
    Identifier,
    Keyword(Keyword),
}

/// A token: its kind and the bytes of the input it was made from.
#[derive(Debug, Clone)]
pub struct Token {
    pub kind: TokenKind,
    pub text: Vec<u8>,
}

/// Why constraint text could not be tokenized or parsed.
#[derive(Debug, Clone, Copy, PartialEq, Eq, Structural)]
pub enum ParseError {
    /// The tokens ended where more were needed.
    UnexpectedEnd,
    /// A token that the grammar does not allow where it stands.
    UnexpectedToken,
    /// A constraint whose root element set is empty.
    EmptySet,
    /// A byte that starts no token, or a string without its closing quote.
    InvalidInput,
}

pub open spec fn is_space(c: u8) -> bool {
    c == 0x20 || c == 0x09 || c == 0x0a || c == 0x0d
}

pub open spec fn is_digit(c: u8) -> bool {
    0x30 <= c <= 0x39
}

pub open spec fn is_upper(c: u8) -> bool {
    0x41 <= c <= 0x5a
}

pub open spec fn is_letter(c: u8) -> bool {
    is_upper(c) || 0x61 <= c <= 0x7a
}

/// A byte that may continue a word: a letter, a digit or `-`.
pub open spec fn is_word_byte(c: u8) -> bool {
    is_letter(c) || is_digit(c) || c == 0x2d
}

/// The first index from `j` on whose byte does not continue a run of digits
/// (or, with `word`, of word bytes); the length where there is none.
pub open spec fn run_end(input: Seq<u8>, j: int, word: bool) -> int
    decreases input.len() - j,
{
    if j < 0 || j >= input.len() {
        input.len() as int
    } else if (if word {
        is_word_byte(input[j])
    } else {
        is_digit(input[j])
    }) {
        run_end(input, j + 1, word)
    } else {
        j
    }
}

/// The first index from `j` on that holds `"`; the length where none does.
pub open spec fn quote_end(input: Seq<u8>, j: int) -> int
    decreases input.len() - j,
{
    if j < 0 || j >= input.len() {
        input.len() as int
    } else if input[j] == 0x22 {
        j
    } else {
        quote_end(input, j + 1)
    }
}

/// Where the token that starts at the byte `i` (not white space) ends, or -1
/// where no token starts there.
pub open spec fn token_end(input: Seq<u8>, i: int) -> int {
    let c = input[i];
    if c == 0x28 || c == 0x29 || c == 0x7b || c == 0x7d || c == 0x2c || c == 0x3c || c == 0x7c
        || c == 0x5e {
        i + 1
    } else if c == 0x2e {
        if i + 2 < input.len() && input[i + 1] == 0x2e && input[i + 2] == 0x2e {
            i + 3
        } else if i + 1 < input.len() && input[i + 1] == 0x2e {
            i + 2
        } else {
            -1
        }
    } else if c == 0x22 {
        if quote_end(input, i + 1) >= input.len() {
            -1
        } else {
            quote_end(input, i + 1) + 1
        }
    } else if is_digit(c) || (c == 0x2d && i + 1 < input.len() && is_digit(input[i + 1])) {
        run_end(input, i + 1, false)
    } else if is_letter(c) {
        run_end(input, i + 1, true)
    } else {
        -1
    }
}

/// Whether the bytes from `i` on split into tokens and white space.
pub open spec fn tokenizable(input: Seq<u8>, i: int) -> bool
    decreases input.len() - i,
{
    if i < 0 || i >= input.len() {
        true
    } else if is_space(input[i]) {
        tokenizable(input, i + 1)
    } else {
        let e = token_end(input, i);
        if i < e <= input.len() {
            tokenizable(input, e)
        } else {
            false
        }
    }
}

/// The kind of the token that starts at `i` and ends at `e`.
pub open spec fn kind_at(input: Seq<u8>, i: int, e: int) -> TokenKind {
    let c = input[i];
    if c == 0x28 {
        TokenKind::RoundBegin
    } else if c == 0x29 {
        TokenKind::RoundEnd
    } else if c == 0x7b {
        TokenKind::CurlyBegin
    } else if c == 0x7d {
        TokenKind::CurlyEnd
    } else if c == 0x2c {
        TokenKind::Comma
    } else if c == 0x3c {
        TokenKind::LessThan
    } else if c == 0x7c {
        TokenKind::SetUnion
    } else if c == 0x5e {
        TokenKind::SetIntersection
    } else if c == 0x2e {
        if e == i + 3 {
            TokenKind::Extension
        } else {
            TokenKind::RangeSeparator
        }
    } else if c == 0x22 {
        TokenKind::CString
    } else if is_digit(c) || c == 0x2d {
        TokenKind::Number
    } else {
        word_kind_spec(input.subrange(i, e))
    }
}

/// The kinds and texts of the tokens from `i` on, up to the first byte where
/// no token starts.
pub open spec fn tokens_spec(input: Seq<u8>, i: int) -> Seq<(TokenKind, Seq<u8>)>
    decreases input.len() - i,
{
    if i < 0 || i >= input.len() {
        Seq::empty()
    } else if is_space(input[i]) {
        tokens_spec(input, i + 1)
    } else {
        let e = token_end(input, i);
        if i < e <= input.len() {
            seq![(kind_at(input, i, e), input.subrange(i, e))] + tokens_spec(input, e)
        } else {
            Seq::empty()
        }
    }
}

/// A token's kind and text.
pub open spec fn token_view(t: Token) -> (TokenKind, Seq<u8>) {
    (t.kind, t.text@)
}

/// Whether a word holds a lower-case letter.
pub open spec fn has_lower(w: Seq<u8>) -> bool {
    exists|k: int| 0 <= k < w.len() && 0x61 <= #[trigger] w[k] <= 0x7a
}

/// The kind of a word: one of the keywords that the grammar names, `UNION`,
/// `INTERSECTION`, an identifier where it holds a lower-case letter, and any
/// other keyword otherwise.
pub open spec fn word_kind_spec(w: Seq<u8>) -> TokenKind {
    if w == seq![0x53u8, 0x49, 0x5a, 0x45] {
        TokenKind::Keyword(Keyword::Size)
    } else if w == seq![0x46u8, 0x52, 0x4f, 0x4d] {
        TokenKind::Keyword(Keyword::From)
    } else if w == seq![0x4du8, 0x49, 0x4e] {
        TokenKind::Keyword(Keyword::Min)
    } else if w == seq![0x4du8, 0x41, 0x58] {
        TokenKind::Keyword(Keyword::Max)
    } else if w == seq![0x55u8, 0x4e, 0x49, 0x4f, 0x4e] {
        TokenKind::SetUnion
    } else if w == seq![0x49u8, 0x4e, 0x54, 0x45, 0x52, 0x53, 0x45, 0x43, 0x54, 0x49, 0x4f, 0x4e] {
        TokenKind::SetIntersection
    } else if has_lower(w) {
        TokenKind::Identifier
    } else {
        TokenKind::Keyword(Keyword::Other)
    }
}

/// Whether `input[start..end]` holds exactly `kw`.
fn word_is(input: &[u8], start: usize, end: usize, kw: &[u8]) -> (r: bool)
    requires
        start <= end <= input@.len(),
    ensures
        r == (input@.subrange(start as int, end as int) == kw@),
{
    if end - start != kw.len() {
        assert(input@.subrange(start as int, end as int).len() != kw@.len());
        return false;
    }
    let mut k: usize = 0;
    while k < kw.len()
        invariant
            end - start == kw@.len(),
            start <= end <= input@.len(),
            k <= kw@.len(),
            forall|q: int| 0 <= q < k ==> input@[start + q] == kw@[q],
        decreases kw@.len() - k,
    {
        if input[start + k] != kw[k] {
            assert(input@.subrange(start as int, end as int)[k as int] != kw@[k as int]);
            return false;
        }
        k = k + 1;
    }
    assert(input@.subrange(start as int, end as int) =~= kw@);
    true
}

/// The kind of the word `input[start..end]`: a keyword where it is one, an
/// identifier where it holds a lower-case letter.
fn word_kind(input: &[u8], start: usize, end: usize) -> (r: TokenKind)
    requires
        start < end <= input@.len(),
    ensures
        r == word_kind_spec(input@.subrange(start as int, end as int)),
{
    let ghost w = input@.subrange(start as int, end as int);
    if word_is(input, start, end, &[0x53u8, 0x49, 0x5a, 0x45]) {
        return TokenKind::Keyword(Keyword::Size);
    }
    if word_is(input, start, end, &[0x46u8, 0x52, 0x4f, 0x4d]) {
        return TokenKind::Keyword(Keyword::From);
    }
    if word_is(input, start, end, &[0x4du8, 0x49, 0x4e]) {
        return TokenKind::Keyword(Keyword::Min);
    }
    if word_is(input, start, end, &[0x4du8, 0x41, 0x58]) {
        return TokenKind::Keyword(Keyword::Max);
    }
    if word_is(input, start, end, &[0x55u8, 0x4e, 0x49, 0x4f, 0x4e]) {
        return TokenKind::SetUnion;
    }
    if word_is(
        input,
        start,
        end,
        &[0x49u8, 0x4e, 0x54, 0x45, 0x52, 0x53, 0x45, 0x43, 0x54, 0x49, 0x4f, 0x4e],
    ) {
        return TokenKind::SetIntersection;
    }
    let mut k = start;
    while k < end
        invariant
            start <= k <= end <= input@.len(),
            w == input@.subrange(start as int, end as int),
            word_kind_spec(w) == if has_lower(w) {
                TokenKind::Identifier
            } else {
                TokenKind::Keyword(Keyword::Other)
            },
            forall|q: int| 0 <= q < k - start ==> !(0x61 <= #[trigger] w[q] <= 0x7a),
        decreases end - k,
    {
        if 0x61 <= input[k] && input[k] <= 0x7a {
            assert(w[k - start] == input@[k as int]);
            assert(0x61 <= w[k - start] <= 0x7a);
            return TokenKind::Identifier;
        }
        k = k + 1;
    }
    TokenKind::Keyword(Keyword::Other)
}

/// Splits constraint text into tokens; white space separates them.
pub fn tokenize(input: &[u8]) -> (r: Result<Vec<Token>, ParseError>)
    ensures
        r matches Ok(tokens) ==> tokens@.len() <= input@.len() && forall|k: int|
            0 <= k < tokens@.len() ==> #[trigger] tokens@[k].text@.len() > 0,
        r is Ok <==> tokenizable(input@, 0),
        r matches Ok(tokens) ==> tokens@.map_values(|t: Token| token_view(t)) == tokens_spec(
            input@,
            0,
        ),
{
    let mut tokens: Vec<Token> = Vec::new();
    let mut i: usize = 0;
    while i < input.len()
        invariant
            i <= input@.len(),
            tokens@.len() <= i,
            forall|k: int| 0 <= k < tokens@.len() ==> #[trigger] tokens@[k].text@.len() > 0,
            tokenizable(input@, 0) == tokenizable(input@, i as int),
            tokens_spec(input@, 0) == tokens@.map_values(|t: Token| token_view(t)) + tokens_spec(
                input@,
                i as int,
            ),
        decreases input@.len() - i,
    {
        let c = input[i];
        let start = i;
        if c == 0x20 || c == 0x09 || c == 0x0a || c == 0x0d {
            i = i + 1;
            continue;
        }
        let kind: TokenKind;
        if c == 0x28 {
            kind = TokenKind::RoundBegin;
            i = i + 1;
        } else if c == 0x29 {
            kind = TokenKind::RoundEnd;
            i = i + 1;
        } else if c == 0x7b {
            kind = TokenKind::CurlyBegin;
            i = i + 1;
        } else if c == 0x7d {
            kind = TokenKind::CurlyEnd;
            i = i + 1;
        } else if c == 0x2c {
            kind = TokenKind::Comma;
            i = i + 1;
        } else if c == 0x3c {
            kind = TokenKind::LessThan;
            i = i + 1;
        } else if c == 0x7c {
            kind = TokenKind::SetUnion;
            i = i + 1;
        } else if c == 0x5e {
            kind = TokenKind::SetIntersection;
            i = i + 1;
        } else if c == 0x2e {
            if input.len() - i > 2 && input[i + 1] == 0x2e && input[i + 2] == 0x2e {
                kind = TokenKind::Extension;
                i = i + 3;
            } else if i + 1 < input.len() && input[i + 1] == 0x2e {
                kind = TokenKind::RangeSeparator;
                i = i + 2;
            } else {
                return Err(ParseError::InvalidInput);
            }
        } else if c == 0x22 {
            let mut j = i + 1;
            while j < input.len() && input[j] != 0x22
                invariant
                    i < j <= input@.len(),
                    quote_end(input@, i + 1) == quote_end(input@, j as int),
                decreases input@.len() - j,
            {
                j = j + 1;
            }
            if j == input.len() {
                return Err(ParseError::InvalidInput);
            }
            kind = TokenKind::CString;
            i = j + 1;
        } else if (0x30 <= c && c <= 0x39) || (c == 0x2d && i + 1 < input.len() && 0x30
            <= input[i + 1] && input[i + 1] <= 0x39) {
            let mut j = i + 1;
            while j < input.len() && 0x30 <= input[j] && input[j] <= 0x39
                invariant
                    i < j <= input@.len(),
                    run_end(input@, i + 1, false) == run_end(input@, j as int, false),
                decreases input@.len() - j,
            {
                j = j + 1;
            }
            kind = TokenKind::Number;
            i = j;
        } else if (0x41 <= c && c <= 0x5a) || (0x61 <= c && c <= 0x7a) {
            let mut j = i + 1;
            while j < input.len() && ((0x41 <= input[j] && input[j] <= 0x5a) || (0x61 <= input[j]
                && input[j] <= 0x7a) || (0x30 <= input[j] && input[j] <= 0x39) || input[j]
                == 0x2d)
                invariant
                    i < j <= input@.len(),
                    run_end(input@, i + 1, true) == run_end(input@, j as int, true),
                decreases input@.len() - j,
            {
                j = j + 1;
            }
            kind = word_kind(input, i, j);
            i = j;
        } else {
            return Err(ParseError::InvalidInput);
        }
        assert(token_end(input@, start as int) == i);
        let mut text: Vec<u8> = Vec::new();
        let mut k = start;
        while k < i
            invariant
                start <= k <= i <= input@.len(),
                text@ == input@.subrange(start as int, k as int),
            decreases i - k,
        {
            text.push(input[k]);
            k = k + 1;
            assert(text@ =~= input@.subrange(start as int, k as int));
        }
        assert(kind == kind_at(input@, start as int, i as int));
        let ghost old_tokens = tokens@;
        let tok = Token { kind, text };
        assert(token_view(tok) == (kind_at(input@, start as int, i as int), input@.subrange(
            start as int,
            i as int,
        )));
        tokens.push(tok);
        assert(tokens@.map_values(|t: Token| token_view(t)) =~= old_tokens.map_values(
            |t: Token| token_view(t),
        ).push(token_view(tok)));
        assert(tokens_spec(input@, start as int) == seq![token_view(tok)] + tokens_spec(input@, i as int));
        assert(tokens_spec(input@, 0) =~= tokens@.map_values(|t: Token| token_view(t)) + tokens_spec(
            input@,
            i as int,
        ));
    }
    Ok(tokens)
}

} // verus!
