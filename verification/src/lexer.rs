use std::ops::Range;
use vstd::prelude::*;
use vstd::string::StringSliceAdditionalSpecFns;

use crate::text::chars_to_string;
use crate::token::Token;

verus! {

/// A token with its text as a sequence of characters.
pub enum TokenV {
    Identifier(Seq<char>),
    Number(Seq<char>),
    Dot,
    Backslash,
    Plus,
    OpenParenthesis,
    CloseParenthesis,
    OpenBracket,
    CloseBracket,
    Let,
    Equal,
    In,
}

pub open spec fn token_view(t: Token) -> TokenV {
    match t {
        Token::Identifier(s) => TokenV::Identifier(s@),
        Token::Number(s) => TokenV::Number(s@),
        Token::Dot => TokenV::Dot,
        Token::Backslash => TokenV::Backslash,
        Token::Plus => TokenV::Plus,
        Token::OpenParenthesis => TokenV::OpenParenthesis,
        Token::CloseParenthesis => TokenV::CloseParenthesis,
        Token::OpenBracket => TokenV::OpenBracket,
        Token::CloseBracket => TokenV::CloseBracket,
        Token::Let => TokenV::Let,
        Token::Equal => TokenV::Equal,
        Token::In => TokenV::In,
    }
}

pub open spec fn lexeme_view(l: (Result<Token, ()>, Range<usize>)) -> (Result<TokenV, ()>, Range<usize>) {
    (
        match l.0 {
            Ok(t) => Ok(token_view(t)),
            Err(e) => Err(e),
        },
        l.1,
    )
}

pub open spec fn is_letter(b: u8) -> bool {
    (65 <= b && b <= 90) || (97 <= b && b <= 122)
}

pub open spec fn is_digit(b: u8) -> bool {
    48 <= b && b <= 57
}

pub open spec fn is_blank(b: u8) -> bool {
    b == 32 || b == 10
}

/// A byte that continues a character encoded in several bytes.
pub open spec fn is_continuation(b: u8) -> bool {
    128 <= b && b < 192
}

/// The end of the run of letters from `i`.
pub open spec fn letters_end(s: Seq<u8>, i: nat) -> nat
    decreases s.len() - i,
{
    if i < s.len() && is_letter(s[i as int]) {
        letters_end(s, i + 1)
    } else {
        i
    }
}

/// The end of the run of digits from `i`.
pub open spec fn digits_end(s: Seq<u8>, i: nat) -> nat
    decreases s.len() - i,
{
    if i < s.len() && is_digit(s[i as int]) {
        digits_end(s, i + 1)
    } else {
        i
    }
}

/// The end of the run of continuation bytes from `i`.
pub open spec fn continuation_end(s: Seq<u8>, i: nat) -> nat
    decreases s.len() - i,
{
    if i < s.len() && is_continuation(s[i as int]) {
        continuation_end(s, i + 1)
    } else {
        i
    }
}

pub open spec fn ascii_chars(s: Seq<u8>) -> Seq<char> {
    s.map_values(|b: u8| b as char)
}

/// The token that a word of letters stands for: a keyword or an identifier.
pub open spec fn word_token(w: Seq<u8>) -> TokenV {
    if w == seq![108u8, 101u8, 116u8] {
        TokenV::Let
    } else if w == seq![105u8, 110u8] {
        TokenV::In
    } else {
        TokenV::Identifier(ascii_chars(w))
    }
}

/// The token of one punctuation byte, if it is one.
pub open spec fn punct_token(b: u8) -> Option<TokenV> {
    if b == 46 {
        Some(TokenV::Dot)
    } else if b == 92 {
        Some(TokenV::Backslash)
    } else if b == 43 {
        Some(TokenV::Plus)
    } else if b == 40 {
        Some(TokenV::OpenParenthesis)
    } else if b == 41 {
        Some(TokenV::CloseParenthesis)
    } else if b == 91 {
        Some(TokenV::OpenBracket)
    } else if b == 93 {
        Some(TokenV::CloseBracket)
    } else if b == 61 {
        Some(TokenV::Equal)
    } else {
        None
    }
}

/// The token that starts at `i` (which is no blank), and where it ends: the
/// longest run of letters (a keyword where it spells one), the longest run
/// of digits, one punctuation byte, or else an error over one character.
pub open spec fn token_at(s: Seq<u8>, i: nat) -> (Result<TokenV, ()>, nat) {
    let b = s[i as int];
    if is_letter(b) {
        let j = letters_end(s, i);
        (Ok(word_token(s.subrange(i as int, j as int))), j)
    } else if is_digit(b) {
        let j = digits_end(s, i);
        (Ok(TokenV::Number(ascii_chars(s.subrange(i as int, j as int)))), j)
    } else {
        match punct_token(b) {
            Some(t) => (Ok(t), i + 1),
            None => (Err(()), continuation_end(s, i + 1)),
        }
    }
}

/// The tokens of `s` from `i` on, with their byte spans; spaces and line
/// breaks separate tokens and are skipped.
pub open spec fn lex_from(s: Seq<u8>, i: nat) -> Seq<(Result<TokenV, ()>, Range<usize>)>
    decreases s.len() - i,
{
    if i >= s.len() {
        seq![]
    } else if is_blank(s[i as int]) {
        lex_from(s, i + 1)
    } else {
        let (t, j) = token_at(s, i);
        if i < j <= s.len() {
            seq![(t, Range { start: i as usize, end: j as usize })] + lex_from(s, j)
        } else {
            seq![]
        }
    }
}

/// The lexer gives at most one token per byte of the text.
pub proof fn lemma_lex_len(s: Seq<u8>, i: nat)
    requires
        i <= s.len(),
    ensures
        lex_from(s, i).len() + i <= s.len(),
    decreases s.len() - i,
{
    if i < s.len() {
        if is_blank(s[i as int]) {
            lemma_lex_len(s, i + 1);
        } else {
            let (t, j) = token_at(s, i);
            if i < j <= s.len() {
                lemma_lex_len(s, j);
            }
        }
    }
}

/// A byte of `A`..`Z` or `a`..`z`.
pub open spec fn ascii_letter(b: u8) -> bool {
    (65 <= b && b <= 90) || (97 <= b && b <= 122)
}

proof fn lemma_letters_end(s: Seq<u8>, i: nat)
    requires
        i <= s.len(),
    ensures
        i <= letters_end(s, i) <= s.len(),
        forall|k: int| i <= k < letters_end(s, i) ==> ascii_letter(#[trigger] s[k]),
        letters_end(s, i) < s.len() ==> !ascii_letter(s[letters_end(s, i) as int]),
    decreases s.len() - i,
{
    if i < s.len() && is_letter(s[i as int]) {
        lemma_letters_end(s, i + 1);
    }
}

/// Words: where the lexer starts on a letter of `A`..`Z` or `a`..`z`, it
/// gives one token for the longest run of such letters, the whole run being
/// its span: `let` and `in` as keywords, any other word as an identifier
/// with the word's letters.
pub proof fn lemma_lex_word(s: Seq<u8>, i: nat)
    requires
        i < s.len(),
        s.len() <= usize::MAX,
        ascii_letter(s[i as int]),
    ensures
        ({
            let out = lex_from(s, i);
            let j = out[0].1.end as nat;
            let w = s.subrange(i as int, j as int);
            &&& out.len() > 0
            &&& out[0].1.start == i
            &&& i < j <= s.len()
            &&& forall|k: int| i <= k < j ==> ascii_letter(#[trigger] s[k])
            &&& (j < s.len() ==> !ascii_letter(s[j as int]))
            &&& out[0].0 == Ok::<TokenV, ()>(
                if w == seq![108u8, 101u8, 116u8] {
                    TokenV::Let
                } else if w == seq![105u8, 110u8] {
                    TokenV::In
                } else {
                    TokenV::Identifier(w.map_values(|b: u8| b as char))
                },
            )
        }),
{
    lemma_letters_end(s, i + 1);
    lemma_letters_end(s, i);
    assert(!is_blank(s[i as int]));
    let j = letters_end(s, i);
    assert(j > i);
    assert(j <= s.len());
    let t = token_at(s, i);
    assert(t.1 == j);
    let out = lex_from(s, i);
    assert(out == seq![(t.0, Range { start: i as usize, end: j as usize })] + lex_from(s, j));
    assert(out[0] == (t.0, Range { start: i as usize, end: j as usize }));
    assert(ascii_chars(s.subrange(i as int, j as int)) == s.subrange(i as int, j as int).map_values(
        |b: u8| b as char,
    ));
}

fn byte_is_letter(b: u8) -> (r: bool)
    ensures
        r == is_letter(b),
{
    (65 <= b && b <= 90) || (97 <= b && b <= 122)
}

fn byte_is_digit(b: u8) -> (r: bool)
    ensures
        r == is_digit(b),
{
    48 <= b && b <= 57
}

fn punct(b: u8) -> (r: Option<Token>)
    ensures
        match r {
            Some(t) => punct_token(b) == Some(token_view(t)),
            None => punct_token(b) is None,
        },
{
    if b == 46 {
        Some(Token::Dot)
    } else if b == 92 {
        Some(Token::Backslash)
    } else if b == 43 {
        Some(Token::Plus)
    } else if b == 40 {
        Some(Token::OpenParenthesis)
    } else if b == 41 {
        Some(Token::CloseParenthesis)
    } else if b == 91 {
        Some(Token::OpenBracket)
    } else if b == 93 {
        Some(Token::CloseBracket)
    } else if b == 61 {
        Some(Token::Equal)
    } else {
        None
    }
}

/// The characters of the bytes `s[i..j]`.
fn ascii_string(s: &[u8], i: usize, j: usize) -> (r: String)
    requires
        i <= j <= s@.len(),
    ensures
        r@ == ascii_chars(s@.subrange(i as int, j as int)),
{
    let mut v: Vec<char> = Vec::new();
    let mut k = i;
    while k < j
        invariant
            i <= k <= j,
            j <= s@.len(),
            v@ == ascii_chars(s@.subrange(i as int, k as int)),
        decreases j - k,
    {
        v.push(s[k] as char);
        k += 1;
        assert(v@ =~= ascii_chars(s@.subrange(i as int, k as int)));
    }
    chars_to_string(v)
}

fn token_at_exec(s: &[u8], i: usize) -> (r: (Result<Token, ()>, usize))
    requires
        i < s@.len(),
    ensures
        ({
            let (t, j) = token_at(s@, i as nat);
            &&& r.1 == j
            &&& match (r.0, t) {
                (Ok(a), Ok(b)) => token_view(a) == b,
                (Err(_), Err(_)) => true,
                _ => false,
            }
        }),
        r.1 > i,
        r.1 <= s@.len(),
{
    let n = s.len();
    let b = s[i];
    if byte_is_letter(b) {
        let mut j = i + 1;
        while j < n && byte_is_letter(s[j])
            invariant
                i < j <= n,
                n == s@.len(),
                letters_end(s@, j as nat) == letters_end(s@, i as nat),
            decreases n - j,
        {
            j += 1;
        }
        let ghost w = s@.subrange(i as int, j as int);
        if j - i == 3 && s[i] == 108 && s[i + 1] == 101 && s[i + 2] == 116 {
            assert(w =~= seq![108u8, 101u8, 116u8]);
            (Ok(Token::Let), j)
        } else if j - i == 2 && s[i] == 105 && s[i + 1] == 110 {
            assert(w =~= seq![105u8, 110u8]);
            (Ok(Token::In), j)
        } else {
            assert(w != seq![108u8, 101u8, 116u8]) by {
                if w == seq![108u8, 101u8, 116u8] {
                    assert(w.len() == 3);
                    assert(w[0] == s@[i as int]);
                }
            }
            assert(w != seq![105u8, 110u8]) by {
                if w == seq![105u8, 110u8] {
                    assert(w.len() == 2);
                    assert(w[0] == s@[i as int]);
                }
            }
            (Ok(Token::Identifier(ascii_string(s, i, j))), j)
        }
    } else if byte_is_digit(b) {
        let mut j = i + 1;
        while j < n && byte_is_digit(s[j])
            invariant
                i < j <= n,
                n == s@.len(),
                digits_end(s@, j as nat) == digits_end(s@, i as nat),
            decreases n - j,
        {
            j += 1;
        }
        (Ok(Token::Number(ascii_string(s, i, j))), j)
    } else {
        match punct(b) {
            Some(t) => (Ok(t), i + 1),
            None => {
                let mut j = i + 1;
                while j < n && 128 <= s[j] && s[j] < 192
                    invariant
                        i < j <= n,
                        n == s@.len(),
                        continuation_end(s@, j as nat) == continuation_end(s@, (i + 1) as nat),
                    decreases n - j,
                {
                    j += 1;
                }
                (Err(()), j)
            },
        }
    }
}

impl Token {
    /// Splits source text into tokens, each with its byte span: runs of
    /// letters (`let` and `in` are keywords), runs of digits, and the
    /// punctuation `. \ + ( ) [ ] =`; spaces and line breaks are skipped; any
    /// other character is a lexer error spanning that character.
    pub fn lex(code: &str) -> (r: Vec<(Result<Token, ()>, Range<usize>)>)
        ensures
            r@.map_values(|l: (Result<Token, ()>, Range<usize>)| lexeme_view(l)) == lex_from(
                code.spec_bytes(),
                0,
            ),
    {
        let s = code.as_bytes();
        let n = s.len();
        let mut out: Vec<(Result<Token, ()>, Range<usize>)> = Vec::new();
        let mut i: usize = 0;
        while i < n
            invariant
                i <= n,
                n == s@.len(),
                out@.map_values(|l: (Result<Token, ()>, Range<usize>)| lexeme_view(l)) + lex_from(
                    s@,
                    i as nat,
                ) == lex_from(s@, 0),
            decreases n - i,
        {
            let b = s[i];
            if b == 32 || b == 10 {
                i += 1;
            } else {
                let ghost before = out@.map_values(
                    |l: (Result<Token, ()>, Range<usize>)| lexeme_view(l),
                );
                let (t, j) = token_at_exec(s, i);
                out.push((t, Range { start: i, end: j }));
                proof {
                    let after = out@.map_values(|l: (Result<Token, ()>, Range<usize>)| lexeme_view(l));
                    assert(after =~= before.push(lexeme_view((t, Range { start: i, end: j }))));
                    assert(after + lex_from(s@, j as nat) =~= before + lex_from(s@, i as nat));
                }
                i = j;
            }
        }
        out
    }
}

} // verus!
