//! The lexer of the formula language: bytes in, tokens with their spans out.

use crate::number::{decimal_value, Binary64};
use vstd::prelude::*;
use vstd::slice::slice_subrange;
use vstd::string::StringSliceAdditionalSpecFns;

verus! {

/// A token, or the error that took its place, with the byte offsets where
/// it starts and ends.
pub type Spanned<T, L, E> = Result<(L, T, L), E>;

#[derive(Debug, PartialEq, Clone, Copy)]
pub enum Tok {
    Num(Binary64),
    Id,
    OpStar,
    OpSlash,
    OpPlus,
    OpMinus,
    LParen,
    RParen,
    LBrace,
    RBrace,
}

#[derive(Debug, PartialEq, Clone, Copy)]
pub enum LexicalError {
    /// A byte that starts no token.
    NotPossible,
}

#[derive(Debug)]
pub struct Lexer<'input> {
    chars: &'input str,
    offset: usize,
    braced: bool,
}

/// What one step of the lexer yields, and the state it leaves.
pub struct LexStep {
    pub item: Option<Spanned<Tok, usize, LexicalError>>,
    pub offset: usize,
    pub braced: bool,
}

pub open spec fn is_blank(b: u8) -> bool {
    b == 0x20 || b == 0x09
}

pub open spec fn is_ascii_digit(b: u8) -> bool {
    0x30 <= b <= 0x39
}

pub open spec fn is_ascii_letter(b: u8) -> bool {
    (0x41 <= b <= 0x5a) || (0x61 <= b <= 0x7a)
}

/// A byte that may start an identifier.
pub open spec fn is_ident_start(b: u8) -> bool {
    is_ascii_letter(b) || b == 0x5f
}

/// A byte that may continue an identifier. A point continues one only
/// between braces, where identifiers name collected values.
pub open spec fn is_ident_part(b: u8, braced: bool) -> bool {
    is_ascii_letter(b) || is_ascii_digit(b) || b == 0x5f || (braced && b == 0x2e)
}

/// A byte that may continue a number.
pub open spec fn is_number_part(b: u8) -> bool {
    is_ascii_digit(b) || b == 0x2e
}

/// The first offset from `i` on that holds no blank.
pub open spec fn skip_blanks(s: Seq<u8>, i: int) -> int
    decreases s.len() - i,
{
    if 0 <= i < s.len() && is_blank(s[i]) {
        skip_blanks(s, i + 1)
    } else {
        i
    }
}

/// The end of the longest run of number bytes from `i` on.
pub open spec fn number_end(s: Seq<u8>, i: int) -> int
    decreases s.len() - i,
{
    if 0 <= i < s.len() && is_number_part(s[i]) {
        number_end(s, i + 1)
    } else {
        i
    }
}

/// The end of the longest run of identifier bytes from `i` on.
pub open spec fn ident_end(s: Seq<u8>, i: int, braced: bool) -> int
    decreases s.len() - i,
{
    if 0 <= i < s.len() && is_ident_part(s[i], braced) {
        ident_end(s, i + 1, braced)
    } else {
        i
    }
}

/// The value of a number token: that of its text where the text is a decimal
/// literal, zero where it is not.
pub open spec fn number_value(text: Seq<u8>) -> Binary64 {
    match decimal_value(text) {
        Some(bits) => Binary64 { bits },
        None => Binary64 { bits: 0 },
    }
}

/// The token that a single byte makes, if it makes one by itself.
pub open spec fn single_tok(b: u8) -> Option<Tok> {
    if b == 0x2a {
        Some(Tok::OpStar)
    } else if b == 0x2f {
        Some(Tok::OpSlash)
    } else if b == 0x2b {
        Some(Tok::OpPlus)
    } else if b == 0x2d {
        Some(Tok::OpMinus)
    } else if b == 0x28 {
        Some(Tok::LParen)
    } else if b == 0x29 {
        Some(Tok::RParen)
    } else if b == 0x7b {
        Some(Tok::LBrace)
    } else if b == 0x7d {
        Some(Tok::RBrace)
    } else {
        None
    }
}

/// One step of the lexer on the bytes `s`, from the state `(offset, braced)`.
pub open spec fn lex_step(s: Seq<u8>, offset: usize, braced: bool) -> LexStep {
    let i = skip_blanks(s, offset as int);
    if i >= s.len() {
        LexStep { item: None, offset, braced }
    } else if single_tok(s[i]) is Some {
        LexStep {
            item: Some(Ok((i as usize, single_tok(s[i])->0, (i + 1) as usize))),
            offset: (i + 1) as usize,
            braced: s[i] == 0x7b,
        }
    } else if is_ascii_digit(s[i]) {
        let end = number_end(s, i + 1);
        LexStep {
            item: Some(Ok((i as usize, Tok::Num(number_value(s.subrange(i, end))), end as usize))),
            offset: end as usize,
            braced: false,
        }
    } else if is_ident_start(s[i]) {
        let end = ident_end(s, i + 1, braced);
        LexStep { item: Some(Ok((i as usize, Tok::Id, end as usize))), offset: end as usize, braced: false }
    } else {
        LexStep { item: Some(Err(LexicalError::NotPossible)), offset: (i + 1) as usize, braced: false }
    }
}

proof fn lemma_skip_blanks(s: Seq<u8>, i: int)
    requires
        0 <= i <= s.len(),
    ensures
        i <= skip_blanks(s, i) <= s.len(),
        skip_blanks(s, i) < s.len() ==> !is_blank(s[skip_blanks(s, i)]),
        skip_blanks(s, skip_blanks(s, i)) == skip_blanks(s, i),
    decreases s.len() - i,
{
    if i < s.len() && is_blank(s[i]) {
        lemma_skip_blanks(s, i + 1);
    }
}

proof fn lemma_number_end(s: Seq<u8>, i: int)
    requires
        0 <= i <= s.len(),
    ensures
        i <= number_end(s, i) <= s.len(),
    decreases s.len() - i,
{
    if i < s.len() && is_number_part(s[i]) {
        lemma_number_end(s, i + 1);
    }
}

proof fn lemma_ident_end(s: Seq<u8>, i: int, braced: bool)
    requires
        0 <= i <= s.len(),
    ensures
        i <= ident_end(s, i, braced) <= s.len(),
    decreases s.len() - i,
{
    if i < s.len() && is_ident_part(s[i], braced) {
        lemma_ident_end(s, i + 1, braced);
    }
}

impl<'input> Lexer<'input> {
    /// The bytes being read.
    pub closed spec fn bytes(&self) -> Seq<u8> {
        self.chars.spec_bytes()
    }

    /// Where the next step starts.
    pub closed spec fn position(&self) -> usize {
        self.offset
    }

    /// Whether the last token was an opening brace.
    pub closed spec fn in_braces(&self) -> bool {
        self.braced
    }

    pub fn new(input: &'input str) -> (r: Self)
        ensures
            r.bytes() == input.spec_bytes(),
            r.position() == 0,
            !r.in_braces(),
    {
        Lexer { chars: input, offset: 0, braced: false }
    }

    /// The byte offset where the next step starts.
    pub fn offset(&self) -> (r: usize)
        ensures
            r == self.position(),
    {
        self.offset
    }

    /// The next token with its span, an error for a byte that starts no
    /// token, or `None` at the end of the input. At the end the lexer is left
    /// as it was, so every later call gives `None` again.
    pub fn next(&mut self) -> (r: Option<Spanned<Tok, usize, LexicalError>>)
        ensures
            final(self).bytes() == old(self).bytes(),
            r == lex_step(old(self).bytes(), old(self).position(), old(self).in_braces()).item,
            final(self).position() == lex_step(
                old(self).bytes(),
                old(self).position(),
                old(self).in_braces(),
            ).offset,
            final(self).in_braces() == lex_step(
                old(self).bytes(),
                old(self).position(),
                old(self).in_braces(),
            ).braced,
    {
        let bytes = self.chars.as_bytes();
        let n = bytes.len();
        let mut i: usize = self.offset;
        while i < n && (bytes[i] == 0x20 || bytes[i] == 0x09)
            invariant
                n == bytes@.len(),
                skip_blanks(bytes@, i as int) == skip_blanks(bytes@, self.offset as int),
            decreases n - i,
        {
            i = i + 1;
        }
        if i >= n {
            return None;
        }
        let c = bytes[i];
        let single = single_token(c);
        if let Some(tok) = single {
            self.offset = i + 1;
            self.braced = c == 0x7b;
            return Some(Ok((i, tok, i + 1)));
        }
        if c >= 0x30 && c <= 0x39 {
            return self.number(i, bytes);
        }
        if (c >= 0x41 && c <= 0x5a) || (c >= 0x61 && c <= 0x7a) || c == 0x5f {
            return self.identifier(i, bytes);
        }
        self.offset = i + 1;
        self.braced = false;
        Some(Err(LexicalError::NotPossible))
    }

    /// The number that starts at `start`: digits and points as far as they
    /// go.
    fn number(&mut self, start: usize, chars: &[u8]) -> (r: Option<
        Spanned<Tok, usize, LexicalError>,
    >)
        requires
            start < chars@.len(),
        ensures
            final(self).bytes() == old(self).bytes(),
            final(self).position() == number_end(chars@, start + 1),
            !final(self).in_braces(),
            r == Some(
                Ok::<(usize, Tok, usize), LexicalError>(
                    (
                        start,
                        Tok::Num(
                            number_value(
                                chars@.subrange(start as int, number_end(chars@, start + 1)),
                            ),
                        ),
                        number_end(chars@, start + 1) as usize,
                    ),
                ),
            ),
    {
        let n = chars.len();
        let end = scan_number(chars, start + 1);
        let value = match Binary64::parse_decimal(slice_subrange(chars, start, end)) {
            Some(v) => v,
            None => Binary64::zero(),
        };
        self.offset = end;
        self.braced = false;
        Some(Ok((start, Tok::Num(value), end)))
    }

    /// The identifier that starts at `start`: letters, digits and
    /// underscores as far as they go, and points too between braces.
    fn identifier(&mut self, start: usize, chars: &[u8]) -> (r: Option<
        Spanned<Tok, usize, LexicalError>,
    >)
        requires
            start < chars@.len(),
        ensures
            final(self).bytes() == old(self).bytes(),
            final(self).position() == ident_end(chars@, start + 1, old(self).in_braces()),
            !final(self).in_braces(),
            r == Some(
                Ok::<(usize, Tok, usize), LexicalError>(
                    (
                        start,
                        Tok::Id,
                        ident_end(chars@, start + 1, old(self).in_braces()) as usize,
                    ),
                ),
            ),
    {
        let n = chars.len();
        let end = scan_ident(chars, start + 1, self.braced);
        self.offset = end;
        self.braced = false;
        Some(Ok((start, Tok::Id, end)))
    }
}

/// The token that a single byte makes, if it makes one by itself.
pub fn single_token(b: u8) -> (r: Option<Tok>)
    ensures
        r == single_tok(b),
{
    if b == 0x2a {
        Some(Tok::OpStar)
    } else if b == 0x2f {
        Some(Tok::OpSlash)
    } else if b == 0x2b {
        Some(Tok::OpPlus)
    } else if b == 0x2d {
        Some(Tok::OpMinus)
    } else if b == 0x28 {
        Some(Tok::LParen)
    } else if b == 0x29 {
        Some(Tok::RParen)
    } else if b == 0x7b {
        Some(Tok::LBrace)
    } else if b == 0x7d {
        Some(Tok::RBrace)
    } else {
        None
    }
}

/// The end of the longest run of number bytes from `i` on.
fn scan_number(s: &[u8], i: usize) -> (j: usize)
    requires
        i <= s.len(),
    ensures
        j == number_end(s@, i as int),
        i <= j <= s.len(),
{
    let mut j: usize = i;
    while j < s.len() && ((s[j] >= 0x30 && s[j] <= 0x39) || s[j] == 0x2e)
        invariant
            i <= j <= s.len(),
            number_end(s@, j as int) == number_end(s@, i as int),
        decreases s.len() - j,
    {
        j = j + 1;
    }
    j
}

/// The end of the longest run of identifier bytes from `i` on.
fn scan_ident(s: &[u8], i: usize, braced: bool) -> (j: usize)
    requires
        i <= s.len(),
    ensures
        j == ident_end(s@, i as int, braced),
        i <= j <= s.len(),
{
    let mut j: usize = i;
    while j < s.len() && ((s[j] >= 0x41 && s[j] <= 0x5a) || (s[j] >= 0x61 && s[j] <= 0x7a) || (s[j]
        >= 0x30 && s[j] <= 0x39) || s[j] == 0x5f || (braced && s[j] == 0x2e))
        invariant
            i <= j <= s.len(),
            ident_end(s@, j as int, braced) == ident_end(s@, i as int, braced),
        decreases s.len() - j,
    {
        j = j + 1;
    }
    j
}

/// At the end of the input a step yields nothing and leaves the state as it
/// was: once the lexer has answered `None`, it answers `None` ever after.
pub proof fn lemma_end_is_stable(s: Seq<u8>, offset: usize, braced: bool)
    requires
        lex_step(s, offset, braced).item is None,
    ensures
        lex_step(s, offset, braced).offset == offset,
        lex_step(s, offset, braced).braced == braced,
        lex_step(
            s,
            lex_step(s, offset, braced).offset,
            lex_step(s, offset, braced).braced,
        ).item is None,
{
}

/// A step that yields something moves forward, and never past the end.
pub proof fn lemma_step_advances(s: Seq<u8>, offset: usize, braced: bool)
    requires
        s.len() <= usize::MAX,
        lex_step(s, offset, braced).item is Some,
    ensures
        offset < lex_step(s, offset, braced).offset <= s.len(),
{
    if offset <= s.len() {
        lemma_skip_blanks(s, offset as int);
        let i = skip_blanks(s, offset as int);
        lemma_number_end(s, i + 1);
        lemma_ident_end(s, i + 1, braced);
    }
}

/// A token lies where the lexer was looking: it starts at or behind the old
/// offset, is not empty, ends within the text, and the lexer goes on from
/// its end.
pub proof fn lemma_token_span(s: Seq<u8>, offset: usize, braced: bool)
    requires
        s.len() <= usize::MAX,
        lex_step(s, offset, braced).item is Some,
        lex_step(s, offset, braced).item->0 is Ok,
    ensures
        ({
            let step = lex_step(s, offset, braced);
            let (start, tok, end) = step.item->0->Ok_0;
            &&& offset <= start < end <= s.len()
            &&& step.offset == end
            &&& forall|k: int| offset <= k < start ==> is_blank(#[trigger] s[k])
        }),
{
    if offset <= s.len() {
        lemma_skip_blanks(s, offset as int);
        lemma_blanks_before(s, offset as int);
        let i = skip_blanks(s, offset as int);
        lemma_number_end(s, i + 1);
        lemma_ident_end(s, i + 1, braced);
    }
}

proof fn lemma_blanks_before(s: Seq<u8>, i: int)
    requires
        0 <= i <= s.len(),
    ensures
        forall|k: int| i <= k < skip_blanks(s, i) ==> is_blank(#[trigger] s[k]),
    decreases s.len() - i,
{
    if i < s.len() && is_blank(s[i]) {
        lemma_blanks_before(s, i + 1);
    }
}

} // verus!
