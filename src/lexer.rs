//! The lexer: a total function from text to tokens. Whitespace and `#`
//! comments are skipped; what matches no token becomes `Illegal`.
use vstd::prelude::*;
use crate::number::{Real, normalized, decimal_of_text};
use crate::text::{chars_of, string_of};
use crate::token::{Token, keyword, spec_keyword};

verus! {

/// The characters that Unicode calls white space.
pub open spec fn spec_is_whitespace(c: char) -> bool {
    ||| c == ' ' || c == '\t' || c == '\n' || c == '\r'
    ||| c == '\u{0B}' || c == '\u{0C}' || c == '\u{85}' || c == '\u{A0}' || c == '\u{1680}'
    ||| ('\u{2000}' <= c && c <= '\u{200A}')
    ||| c == '\u{2028}' || c == '\u{2029}' || c == '\u{202F}' || c == '\u{205F}' || c == '\u{3000}'
}

#[verifier::when_used_as_spec(spec_is_whitespace)]
pub fn is_whitespace(c: char) -> (r: bool)
    ensures
        r == spec_is_whitespace(c),
{
    c == ' ' || c == '\t' || c == '\n' || c == '\r' || c == '\u{0B}' || c == '\u{0C}' || c == '\u{85}'
        || c == '\u{A0}' || c == '\u{1680}' || ('\u{2000}' <= c && c <= '\u{200A}') || c == '\u{2028}'
        || c == '\u{2029}' || c == '\u{202F}' || c == '\u{205F}' || c == '\u{3000}'
}

pub open spec fn spec_is_leading_identifier_char(c: char) -> bool {
    ('a' <= c && c <= 'z') || ('A' <= c && c <= 'Z')
}

/// A character that may start an identifier: an ASCII letter.
#[verifier::when_used_as_spec(spec_is_leading_identifier_char)]
pub fn is_leading_identifier_char(c: char) -> (r: bool)
    ensures
        r == spec_is_leading_identifier_char(c),
{
    ('a' <= c && c <= 'z') || ('A' <= c && c <= 'Z')
}

pub open spec fn spec_is_identifier(c: char) -> bool {
    spec_is_leading_identifier_char(c) || c == '_' || ('0' <= c && c <= '9')
}

/// A character that may continue an identifier: a letter, a digit or `_`.
#[verifier::when_used_as_spec(spec_is_identifier)]
pub fn is_identifier(c: char) -> (r: bool)
    ensures
        r == spec_is_identifier(c),
{
    is_leading_identifier_char(c) || c == '_' || ('0' <= c && c <= '9')
}

pub open spec fn is_digit(c: char) -> bool {
    '0' <= c && c <= '9'
}

pub open spec fn digit_value(c: char) -> int {
    (c as int) - ('0' as int)
}

/// The value of a string of decimal digits.
pub open spec fn digits_value(s: Seq<char>) -> int
    decreases s.len(),
{
    if s.len() == 0 {
        0
    } else {
        digits_value(s.drop_last()) * 10 + digit_value(s.last())
    }
}

/// A text of digits only whose value fits 64 bits: its value; else `None`.
pub fn parse_integer(s: &Vec<char>) -> (r: Option<i64>)
    ensures
        r is Some <==> (s.len() > 0 && (forall|i: int| 0 <= i < s.len() ==> is_digit(#[trigger] s@[i]))
            && digits_value(s@) <= i64::MAX),
        r matches Some(v) ==> v == digits_value(s@) && v >= 0,
{
    if s.len() == 0 {
        return None;
    }
    let mut v: i64 = 0;
    let mut i: usize = 0;
    while i < s.len()
        invariant
            i <= s.len(),
            forall|j: int| 0 <= j < i ==> is_digit(#[trigger] s@[j]),
            v == digits_value(s@.subrange(0, i as int)),
            0 <= v,
        decreases s.len() - i,
    {
        let c = s[i];
        if !('0' <= c && c <= '9') {
            return None;
        }
        let d: i64 = (c as u32 - '0' as u32) as i64;
        proof {
            assert(s@.subrange(0, i + 1).drop_last() =~= s@.subrange(0, i as int));
        }
        match v.checked_mul(10) {
            Some(m) => match m.checked_add(d) {
                Some(n) => {
                    v = n;
                },
                None => {
                    proof {
                        lemma_digits_grow(s@, (i + 1) as nat);
                    }
                    return None;
                },
            },
            None => {
                proof {
                    lemma_digits_grow(s@, (i + 1) as nat);
                }
                return None;
            },
        }
        i = i + 1;
    }
    assert(s@.subrange(0, i as int) =~= s@);
    Some(v)
}

proof fn lemma_digits_value_nonneg(s: Seq<char>)
    requires
        forall|i: int| 0 <= i < s.len() ==> is_digit(#[trigger] s[i]),
    ensures
        digits_value(s) >= 0,
    decreases s.len(),
{
    if s.len() > 0 {
        lemma_digits_value_nonneg(s.drop_last());
    }
}

/// A prefix of digits whose value exceeds 64 bits makes the whole exceed.
proof fn lemma_digits_grow(s: Seq<char>, k: nat)
    requires
        k <= s.len(),
        forall|i: int| 0 <= i < s.len() ==> is_digit(#[trigger] s[i]) || i >= k,
        digits_value(s.subrange(0, k as int)) > i64::MAX,
    ensures
        !(forall|i: int| 0 <= i < s.len() ==> is_digit(#[trigger] s[i])) || digits_value(s) > i64::MAX,
    decreases s.len() - k,
{
    if k < s.len() && forall|i: int| 0 <= i < s.len() ==> is_digit(#[trigger] s[i]) {
        let t = s.subrange(0, (k + 1) as int);
        assert(t.drop_last() =~= s.subrange(0, k as int));
        lemma_digits_grow(s, k + 1);
    } else if k == s.len() {
        assert(s.subrange(0, k as int) =~= s);
    }
}

/// Where blanks end from `p` on: white space, and `#` comments to the end
/// of their line, are skipped.
pub open spec fn skip(cs: Seq<char>, p: nat, in_comment: bool) -> nat
    decreases cs.len() - p,
{
    if p >= cs.len() {
        p
    } else if in_comment {
        if cs[p as int] == '\n' {
            skip(cs, p + 1, false)
        } else {
            skip(cs, p + 1, true)
        }
    } else if spec_is_whitespace(cs[p as int]) {
        skip(cs, p + 1, false)
    } else if cs[p as int] == '#' {
        skip(cs, p + 1, true)
    } else {
        p
    }
}

/// Where a run of identifier characters (or of digits and points) that
/// starts at `p` ends.
pub open spec fn run_end(cs: Seq<char>, p: nat, numeric: bool) -> nat
    decreases cs.len() - p,
{
    if p >= cs.len() {
        p
    } else if (numeric && (is_digit(cs[p as int]) || cs[p as int] == '.')) || (!numeric && spec_is_identifier(
        cs[p as int],
    )) {
        run_end(cs, p + 1, numeric)
    } else {
        p
    }
}

/// The one-character tokens.
pub open spec fn single_char_token(c: char) -> Option<Token> {
    if c == '\\' {
        Some(Token::SetDifference)
    } else if c == '?' {
        Some(Token::Question)
    } else if c == '<' {
        Some(Token::LessThan)
    } else if c == '>' {
        Some(Token::GreaterThan)
    } else if c == '=' {
        Some(Token::Assign)
    } else if c == '+' {
        Some(Token::Plus)
    } else if c == '-' {
        Some(Token::Minus)
    } else if c == '*' {
        Some(Token::Multiply)
    } else if c == '/' {
        Some(Token::Division)
    } else if c == '^' {
        Some(Token::Exponent)
    } else if c == '{' {
        Some(Token::LeftBrace)
    } else if c == '}' {
        Some(Token::RightBrace)
    } else if c == '(' {
        Some(Token::LeftParen)
    } else if c == ')' {
        Some(Token::RightParen)
    } else if c == '[' {
        Some(Token::LeftSquareBracket)
    } else if c == ']' {
        Some(Token::RightSquareBracket)
    } else if c == ',' {
        Some(Token::Comma)
    } else if c == ':' {
        Some(Token::Colon)
    } else if c == ';' {
        Some(Token::Semicolon)
    } else if c == '%' {
        Some(Token::Modulo)
    } else if c == '!' {
        Some(Token::Bang)
    } else if c == '|' {
        Some(Token::Bar)
    } else {
        None
    }
}

pub open spec fn char_after(cs: Seq<char>, p: int) -> Option<char> {
    if p + 1 < cs.len() {
        Some(cs[p + 1])
    } else {
        None
    }
}

pub open spec fn is_illegal(t: Token, text: Seq<char>) -> bool {
    t matches Token::Illegal(s) && s@ == text
}

/// A three-character operator `a b third` at `p`: `tok` when the third
/// character is right, else an illegal token of what was read.
pub open spec fn compound(t: Token, cs: Seq<char>, p: int, end: int, a: char, b: char, third: char, tok: Token) -> bool {
    if p + 2 < cs.len() {
        end == p + 3 && if cs[p + 2] == third {
            t == tok
        } else {
            is_illegal(t, seq![a, b, cs[p + 2]])
        }
    } else {
        end == p + 2 && is_illegal(t, seq![a, b])
    }
}

/// `t` is the token that the text at `p` starts, and it ends at `end`.
pub open spec fn lexed(t: Token, cs: Seq<char>, p: int, end: int) -> bool {
    let c = cs[p];
    let n = char_after(cs, p);
    if c == '=' && n == Some('=') {
        t == Token::Equals && end == p + 2
    } else if c == '=' && n == Some('/') {
        compound(t, cs, p, end, '=', '/', '=', Token::NotEquals)
    } else if c == '=' && n == Some('>') {
        t == Token::FatArrow && end == p + 2
    } else if c == '-' && n == Some('>') {
        t == Token::SkinnyArrow && end == p + 2
    } else if c == '<' && n == Some('=') {
        t == Token::LessThanEquals && end == p + 2
    } else if c == '>' && n == Some('=') {
        t == Token::GreaterThanEquals && end == p + 2
    } else if c == '+' && n == Some('/') {
        compound(t, cs, p, end, '+', '/', '-', Token::PlusMinus)
    } else if c == '-' && n == Some('/') {
        compound(t, cs, p, end, '-', '/', '+', Token::MinusPlus)
    } else if c == '\\' && n == Some('/') {
        t == Token::Union && end == p + 2
    } else if c == '/' && n == Some('\\') {
        t == Token::Intersection && end == p + 2
    } else if c == '/' && n == Some('_') {
        compound(t, cs, p, end, '/', '_', '\\', Token::SymmetricDifference)
    } else if single_char_token(c) is Some {
        t == single_char_token(c)->Some_0 && end == p + 1
    } else if spec_is_leading_identifier_char(c) {
        let q = run_end(cs, (p + 1) as nat, false);
        let word = cs.subrange(p, q as int);
        end == q && match spec_keyword(word) {
            Some(k) => t == k,
            None => t matches Token::Identifier(s) && s@ == word,
        }
    } else if is_digit(c) || c == '.' {
        let q = run_end(cs, (p + 1) as nat, true);
        let text = cs.subrange(p, q as int);
        end == q && if (forall|i: int| 0 <= i < text.len() ==> is_digit(#[trigger] text[i])) && digits_value(text)
            <= i64::MAX {
            t == Token::Integer(digits_value(text) as i64)
        } else {
            match normalized(decimal_of_text(text)) {
                Some(x) => t == Token::Real(x),
                None => is_illegal(t, seq![c]),
            }
        }
    } else {
        end == p + 1 && is_illegal(t, seq![c])
    }
}

/// The tokens `toks` read the text from position `p` on to position `q`,
/// one after another, each after the blanks before it; `ends` holds where
/// each token ends.
pub open spec fn lexed_run(cs: Seq<char>, p: nat, toks: Seq<Token>, ends: Seq<nat>, q: nat) -> bool
    decreases toks.len(),
{
    if toks.len() == 0 {
        ends.len() == 0 && p == q
    } else {
        let start = skip(cs, p, false);
        &&& ends.len() == toks.len()
        &&& start < cs.len()
        &&& lexed(toks[0], cs, start as int, ends[0] as int)
        &&& lexed_run(cs, ends[0], toks.drop_first(), ends.drop_first(), q)
    }
}

proof fn lemma_lexed_run_snoc(cs: Seq<char>, p: nat, toks: Seq<Token>, ends: Seq<nat>, q: nat, t: Token, e: nat)
    requires
        lexed_run(cs, p, toks, ends, q),
        skip(cs, q, false) < cs.len(),
        lexed(t, cs, skip(cs, q, false) as int, e as int),
    ensures
        lexed_run(cs, p, toks.push(t), ends.push(e), e),
    decreases toks.len(),
{
    if toks.len() == 0 {
        assert(toks.push(t).drop_first() =~= Seq::<Token>::empty());
        assert(ends.push(e).drop_first() =~= Seq::<nat>::empty());
        assert(toks.push(t)[0] == t);
        assert(ends.push(e)[0] == e);
        assert(lexed_run(cs, e, Seq::<Token>::empty(), Seq::<nat>::empty(), e));
    } else {
        lemma_lexed_run_snoc(cs, ends[0], toks.drop_first(), ends.drop_first(), q, t, e);
        assert(toks.push(t).drop_first() =~= toks.drop_first().push(t));
        assert(ends.push(e).drop_first() =~= ends.drop_first().push(e));
        assert(toks.push(t)[0] == toks[0]);
        assert(ends.push(e)[0] == ends[0]);
    }
}

/// A lexer over a text.
pub struct Lexer {
    pub input: Vec<char>,
}

/// The token stream of a text, read one token at a time.
pub struct LexerIterator {
    pub chars: Vec<char>,
    pub pos: usize,
    pub done: bool,
}

impl Lexer {
    pub fn new(input: &str) -> (r: Lexer)
        ensures
            r.input@ == input@,
    {
        Lexer { input: chars_of(input) }
    }

    pub fn into_iter(self) -> (r: LexerIterator)
        ensures
            r.chars@ == self.input@,
            r.pos == 0,
            !r.done,
    {
        LexerIterator { chars: self.input, pos: 0, done: false }
    }

    /// All tokens of the text: the text read token by token, then `Eof`.
    pub fn tokens(self) -> (r: Vec<Token>)
        ensures
            r.len() >= 1,
            r@.last() is Eof,
            forall|i: int| 0 <= i < r.len() - 1 ==> !(#[trigger] r@[i] is Eof),
            exists|ends: Seq<nat>, q: nat| #![trigger lexed_run(self.input@, 0, r@.drop_last(), ends, q)]
                lexed_run(self.input@, 0, r@.drop_last(), ends, q) && skip(self.input@, q, false) >= self.input@.len(),
    {
        let mut it = self.into_iter();
        let r = it.collect_tokens();
        r
    }
}

impl LexerIterator {
    pub fn new(input: &str) -> (r: LexerIterator)
        ensures
            r.chars@ == input@,
            r.pos == 0,
            !r.done,
    {
        LexerIterator { chars: chars_of(input), pos: 0, done: false }
    }

    pub open spec fn remaining(&self) -> int {
        self.chars.len() - self.pos
    }

    pub open spec fn wf(&self) -> bool {
        self.pos <= self.chars.len()
    }

    fn peek_char(&self) -> (r: Option<char>)
        requires
            self.wf(),
        ensures
            r == (if self.pos < self.chars.len() { Some(self.chars@[self.pos as int]) } else { None::<char> }),
    {
        if self.pos < self.chars.len() {
            Some(self.chars[self.pos])
        } else {
            None
        }
    }

    fn skip_blank(&mut self)
        requires
            old(self).wf(),
        ensures
            final(self).pos == skip(old(self).chars@, old(self).pos as nat, false),
            final(self).wf(),
            final(self).chars == old(self).chars,
            final(self).done == old(self).done,
            final(self).pos >= old(self).pos,
    {
        loop
            invariant
                self.wf(),
                self.chars == old(self).chars,
                self.done == old(self).done,
                self.pos >= old(self).pos,
                skip(self.chars@, old(self).pos as nat, false) == skip(self.chars@, self.pos as nat, false),
            ensures
                self.wf(),
                self.chars == old(self).chars,
                self.done == old(self).done,
                self.pos >= old(self).pos,
                self.pos == skip(self.chars@, old(self).pos as nat, false),
            decreases self.chars.len() - self.pos,
        {
            let ghost s0 = self.pos;
            while self.pos < self.chars.len() && is_whitespace(self.chars[self.pos])
                invariant
                    self.pos >= s0,
                    skip(self.chars@, old(self).pos as nat, false) == skip(self.chars@, self.pos as nat, false),
                    self.wf(),
                    self.chars == old(self).chars,
                    self.done == old(self).done,
                    self.pos >= old(self).pos,
                decreases self.chars.len() - self.pos,
            {
                self.pos = self.pos + 1;
            }
            if self.pos < self.chars.len() && self.chars[self.pos] == '#' {
                self.pos = self.pos + 1;
                let ghost start = self.pos;
                assert(start > s0);
                while self.pos < self.chars.len() && self.chars[self.pos] != '\n'
                    invariant
                        self.pos >= start,
                        skip(self.chars@, old(self).pos as nat, false) == skip(self.chars@, self.pos as nat, true),
                        self.wf(),
                        self.chars == old(self).chars,
                        self.done == old(self).done,
                        self.pos >= old(self).pos,
                    decreases self.chars.len() - self.pos,
                {
                    self.pos = self.pos + 1;
                }
            } else {
                break;
            }
        }
    }

    fn continues(c: char, numeric: bool) -> (r: bool)
        ensures
            !numeric ==> r == spec_is_identifier(c),
            numeric ==> r == (is_digit(c) || c == '.'),
    {
        if numeric {
            ('0' <= c && c <= '9') || c == '.'
        } else {
            is_identifier(c)
        }
    }

    /// Takes characters while `pred` holds of them, after `first`.
    fn take_while(&mut self, first: char, numeric: bool) -> (r: Vec<char>)
        requires
            old(self).wf(),
        ensures
            final(self).wf(),
            final(self).chars == old(self).chars,
            final(self).done == old(self).done,
            final(self).pos >= old(self).pos,
            r.len() >= 1,
            r@[0] == first,
            !numeric ==> forall|i: int| 1 <= i < r.len() ==> spec_is_identifier(#[trigger] r@[i]),
            final(self).pos == run_end(old(self).chars@, old(self).pos as nat, numeric),
            r@ == seq![first] + old(self).chars@.subrange(old(self).pos as int, final(self).pos as int),
    {
        let mut out: Vec<char> = Vec::new();
        out.push(first);
        while self.pos < self.chars.len() && Self::continues(self.chars[self.pos], numeric)
            invariant
                self.wf(),
                self.chars == old(self).chars,
                self.done == old(self).done,
                self.pos >= old(self).pos,
                out.len() >= 1,
                out@[0] == first,
                !numeric ==> forall|i: int| 1 <= i < out.len() ==> spec_is_identifier(#[trigger] out@[i]),
                run_end(self.chars@, old(self).pos as nat, numeric) == run_end(self.chars@, self.pos as nat, numeric),
                out@ == seq![first] + self.chars@.subrange(old(self).pos as int, self.pos as int),
            decreases self.chars.len() - self.pos,
        {
            out.push(self.chars[self.pos]);
            self.pos = self.pos + 1;
            assert(out@ =~= seq![first] + self.chars@.subrange(old(self).pos as int, self.pos as int));
        }
        out
    }

    fn illegal(cs: &[char]) -> (r: Token)
        ensures
            r is Illegal,
            is_illegal(r, cs@),
    {
        let mut v: Vec<char> = Vec::new();
        let mut i: usize = 0;
        while i < cs.len()
            invariant
                i <= cs.len(),
                v@ == cs@.subrange(0, i as int),
            decreases cs.len() - i,
        {
            v.push(cs[i]);
            i = i + 1;
            assert(v@ =~= cs@.subrange(0, i as int));
        }
        assert(v@ =~= cs@);
        Token::Illegal(string_of(&v))
    }

    /// Completes a three-character operator whose first two characters
    /// were read: `tok` when the third is `third`, else an illegal token.
    fn third(&mut self, a: char, b: char, third: char, tok: Token) -> (r: Token)
        requires
            old(self).wf(),
            !(tok is Eof),
        ensures
            final(self).wf(),
            final(self).chars == old(self).chars,
            final(self).done == old(self).done,
            final(self).pos >= old(self).pos,
            !(r is Eof),
            r == tok || r is Illegal,
            old(self).pos < old(self).chars.len() ==> final(self).pos == old(self).pos + 1 && if old(self).chars@[old(self).pos as int] == third {
                r == tok
            } else {
                is_illegal(r, seq![a, b, old(self).chars@[old(self).pos as int]])
            },
            old(self).pos >= old(self).chars.len() ==> final(self).pos == old(self).pos && is_illegal(r, seq![a, b]),
    {
        match self.peek_char() {
            Some(c) => {
                self.pos = self.pos + 1;
                if c == third {
                    tok
                } else {
                    let arr = [a, b, c];
                    assert(arr@ =~= seq![a, b, c]);
                    Self::illegal(&arr)
                }
            },
            None => {
                let arr = [a, b];
                assert(arr@ =~= seq![a, b]);
                Self::illegal(&arr)
            },
        }
    }

    /// The next token: `Eof` once when the text is used up, then `None`.
    pub fn next_token(&mut self) -> (r: Option<Token>)
        requires
            old(self).wf(),
        ensures
            final(self).wf(),
            final(self).chars == old(self).chars,
            final(self).pos >= old(self).pos,
            old(self).done ==> r is None && final(self).done,
            r is None ==> old(self).done,
            r matches Some(t) ==> (t is Eof <==> final(self).done && !old(self).done),
            r matches Some(t) ==> !(t is Eof) ==> final(self).pos > old(self).pos && !final(self).done,
            r matches Some(Token::Identifier(name)) ==> (name@.len() > 0
                && spec_is_leading_identifier_char(name@[0])
                && spec_keyword(name@) is None
                && forall|i: int| 0 <= i < name@.len() ==> spec_is_identifier(#[trigger] name@[i])),
            r matches Some(Token::Integer(v)) ==> v >= 0,
            r matches Some(Token::Real(x)) ==> x.wf(),
            !old(self).done ==> ({
                let p = skip(old(self).chars@, old(self).pos as nat, false);
                if p >= old(self).chars.len() {
                    r == Some(Token::Eof) && final(self).pos == p
                } else {
                    r matches Some(t) && lexed(t, old(self).chars@, p as int, final(self).pos as int)
                }
            }),
    {
        if self.done {
            return None;
        }
        self.skip_blank();
        let ch = match self.peek_char() {
            Some(c) => c,
            None => {
                self.done = true;
                return Some(Token::Eof);
            },
        };
        let ghost p = self.pos;
        self.pos = self.pos + 1;
        let next = self.peek_char();
        let tok = match (ch, next) {
            ('=', Some('=')) => {
                self.pos = self.pos + 1;
                Token::Equals
            },
            ('=', Some('/')) => {
                self.pos = self.pos + 1;
                self.third('=', '/', '=', Token::NotEquals)
            },
            ('=', Some('>')) => {
                self.pos = self.pos + 1;
                Token::FatArrow
            },
            ('-', Some('>')) => {
                self.pos = self.pos + 1;
                Token::SkinnyArrow
            },
            ('<', Some('=')) => {
                self.pos = self.pos + 1;
                Token::LessThanEquals
            },
            ('>', Some('=')) => {
                self.pos = self.pos + 1;
                Token::GreaterThanEquals
            },
            ('+', Some('/')) => {
                self.pos = self.pos + 1;
                self.third('+', '/', '-', Token::PlusMinus)
            },
            ('-', Some('/')) => {
                self.pos = self.pos + 1;
                self.third('-', '/', '+', Token::MinusPlus)
            },
            ('\\', Some('/')) => {
                self.pos = self.pos + 1;
                Token::Union
            },
            ('/', Some('\\')) => {
                self.pos = self.pos + 1;
                Token::Intersection
            },
            ('/', Some('_')) => {
                self.pos = self.pos + 1;
                self.third('/', '_', '\\', Token::SymmetricDifference)
            },
            ('\\', _) => Token::SetDifference,
            ('?', _) => Token::Question,
            ('<', _) => Token::LessThan,
            ('>', _) => Token::GreaterThan,
            ('=', _) => Token::Assign,
            ('+', _) => Token::Plus,
            ('-', _) => Token::Minus,
            ('*', _) => Token::Multiply,
            ('/', _) => Token::Division,
            ('^', _) => Token::Exponent,
            ('{', _) => Token::LeftBrace,
            ('}', _) => Token::RightBrace,
            ('(', _) => Token::LeftParen,
            (')', _) => Token::RightParen,
            ('[', _) => Token::LeftSquareBracket,
            (']', _) => Token::RightSquareBracket,
            (',', _) => Token::Comma,
            (':', _) => Token::Colon,
            (';', _) => Token::Semicolon,
            ('%', _) => Token::Modulo,
            ('!', _) => Token::Bang,
            ('|', _) => Token::Bar,
            _ => {
                if is_leading_identifier_char(ch) {
                    assert(spec_is_identifier(ch));
                    let word = self.take_while(ch, false);
                    assert(word@ =~= self.chars@.subrange(p as int, self.pos as int));
                    match keyword(&word) {
                        Some(k) => k,
                        None => {
                            let name = string_of(&word);
                            assert(forall|i: int| 0 <= i < name@.len() ==> spec_is_identifier(#[trigger] name@[i]));
                            Token::Identifier(name)
                        },
                    }
                } else if ('0' <= ch && ch <= '9') || ch == '.' {
                    let text = self.take_while(ch, true);
                    assert(text@ =~= self.chars@.subrange(p as int, self.pos as int));
                    match parse_integer(&text) {
                        Some(v) => Token::Integer(v),
                        None => {
                            let s = string_of(&text);
                            match Real::parse(s.as_str()) {
                                Some(r) => Token::Real(r),
                                None => {
                                    let arr = [ch];
                                    assert(arr@ =~= seq![ch]);
                                    Self::illegal(&arr)
                                },
                            }
                        },
                    }
                } else {
                    let arr = [ch];
                    assert(arr@ =~= seq![ch]);
                    Self::illegal(&arr)
                }
            },
        };
        Some(tok)
    }

    /// The remaining tokens, through `Eof`.
    pub fn collect_tokens(&mut self) -> (r: Vec<Token>)
        requires
            old(self).wf(),
            !old(self).done,
        ensures
            r.len() >= 1,
            r@.last() is Eof,
            forall|i: int| 0 <= i < r.len() - 1 ==> !(#[trigger] r@[i] is Eof),
            exists|ends: Seq<nat>, q: nat| #![trigger lexed_run(old(self).chars@, old(self).pos as nat, r@.drop_last(), ends, q)]
                lexed_run(old(self).chars@, old(self).pos as nat, r@.drop_last(), ends, q) && skip(
                    old(self).chars@,
                    q,
                    false,
                ) >= old(self).chars@.len(),
    {
        let mut out: Vec<Token> = Vec::new();
        let ghost mut ends: Seq<nat> = Seq::empty();
        proof {
            assert(lexed_run(self.chars@, self.pos as nat, out@, ends, self.pos as nat));
        }
        loop
            invariant
                self.wf(),
                !self.done,
                self.chars == old(self).chars,
                forall|i: int| 0 <= i < out.len() ==> !(#[trigger] out@[i] is Eof),
                lexed_run(self.chars@, old(self).pos as nat, out@, ends, self.pos as nat),
            decreases self.chars.len() - self.pos,
        {
            let ghost before = self.pos;
            match self.next_token() {
                Some(Token::Eof) => {
                    let ghost prefix = out@;
                    out.push(Token::Eof);
                    proof {
                        assert(out@.drop_last() =~= prefix);
                        assert(lexed_run(self.chars@, old(self).pos as nat, out@.drop_last(), ends, before as nat));
                    }
                    return out;
                },
                Some(t) => {
                    proof {
                        lemma_lexed_run_snoc(self.chars@, old(self).pos as nat, out@, ends, before as nat, t, self.pos as nat);
                        ends = ends.push(self.pos as nat);
                    }
                    out.push(t);
                },
                None => {
                    return out;
                },
            }
        }
    }
}

} // verus!
