//! The lexer of the calculator tool: arithmetic text to tokens.
use vstd::prelude::*;

use crate::text::{lemma_sep_pos_at, sep_pos, slice_chars, string_from};

verus! {

/// A token of an arithmetic expression; a number keeps its literal text.
#[derive(Debug, Clone, PartialEq, Eq)]
pub enum MathToken {
    Number(String),
    Plus,
    Minus,
    Star,
    Slash,
    LParen,
    RParen,
}

/// A token as plain values.
pub enum Lexeme {
    Number(Seq<char>),
    Plus,
    Minus,
    Star,
    Slash,
    LParen,
    RParen,
}

impl View for MathToken {
    type V = Lexeme;

    open spec fn view(&self) -> Lexeme {
        match self {
            MathToken::Number(s) => Lexeme::Number(s@),
            MathToken::Plus => Lexeme::Plus,
            MathToken::Minus => Lexeme::Minus,
            MathToken::Star => Lexeme::Star,
            MathToken::Slash => Lexeme::Slash,
            MathToken::LParen => Lexeme::LParen,
            MathToken::RParen => Lexeme::RParen,
        }
    }
}

/// The tokens as plain values.
pub open spec fn lexemes(ts: Seq<MathToken>) -> Seq<Lexeme> {
    ts.map_values(|t: MathToken| t@)
}

/// Whether a character belongs to a number literal: an ASCII digit or a
/// decimal point.
pub open spec fn is_number_char(c: char) -> bool {
    ('0' <= c && c <= '9') || c == '.'
}

/// The one-character token a character stands for, if any.
pub open spec fn operator_lexeme(c: char) -> Option<Lexeme> {
    if c == '+' {
        Some(Lexeme::Plus)
    } else if c == '-' {
        Some(Lexeme::Minus)
    } else if c == '*' {
        Some(Lexeme::Star)
    } else if c == '/' {
        Some(Lexeme::Slash)
    } else if c == '(' {
        Some(Lexeme::LParen)
    } else if c == ')' {
        Some(Lexeme::RParen)
    } else {
        None
    }
}

/// The tokens of a text read from the front, and the first character that
/// no token starts with (spaces and tabs are skipped; a number is the
/// longest run of digits and points). Reading stops at that character.
pub open spec fn lex(s: Seq<char>) -> (Seq<Lexeme>, Option<char>)
    decreases s.len(),
{
    if s.len() == 0 {
        (seq![], None)
    } else {
        let c = s[0];
        if c == ' ' || c == '\t' {
            lex(s.drop_first())
        } else if operator_lexeme(c) is Some {
            let (t, e) = lex(s.drop_first());
            (seq![operator_lexeme(c)->0] + t, e)
        } else if is_number_char(c) {
            let k = sep_pos(s, |x: char| !is_number_char(x));
            if 0 < k <= s.len() {
                let (t, e) = lex(s.skip(k as int));
                (seq![Lexeme::Number(s.take(k as int))] + t, e)
            } else {
                (seq![], None)
            }
        } else {
            (seq![], Some(c))
        }
    }
}

/// The token of an operator character.
fn operator_token(c: char) -> (t: Option<MathToken>)
    ensures
        match t {
            Some(tok) => operator_lexeme(c) == Some(tok@),
            None => operator_lexeme(c) is None,
        },
{
    if c == '+' {
        Some(MathToken::Plus)
    } else if c == '-' {
        Some(MathToken::Minus)
    } else if c == '*' {
        Some(MathToken::Star)
    } else if c == '/' {
        Some(MathToken::Slash)
    } else if c == '(' {
        Some(MathToken::LParen)
    } else if c == ')' {
        Some(MathToken::RParen)
    } else {
        None
    }
}

/// Split an arithmetic text into tokens, up to the first character that no
/// token starts with, which is returned beside them. A number token keeps
/// its literal text; turning it into a value is the caller's part.
pub fn tokenize(chars: &Vec<char>) -> (r: (Vec<MathToken>, Option<char>))
    ensures
        (lexemes(r.0@), r.1) == lex(chars@),
{
    let n = chars.len();
    let mut tokens: Vec<MathToken> = Vec::new();
    let mut i: usize = 0;
    assert(chars@.skip(0) =~= chars@);
    while i < n
        invariant
            i <= n == chars.len(),
            lex(chars@) == (lexemes(tokens@) + lex(chars@.skip(i as int)).0, lex(
                chars@.skip(i as int),
            ).1),
        decreases n - i,
    {
        let c = chars[i];
        let ghost rest = chars@.skip(i as int);
        assert(rest[0] == c);
        assert(rest.drop_first() =~= chars@.skip(i + 1));
        if c == ' ' || c == '\t' {
            i = i + 1;
        } else {
            match operator_token(c) {
                Some(tok) => {
                    let ghost before = tokens@;
                    tokens.push(tok);
                    proof {
                        assert(lexemes(tokens@) =~= lexemes(before).push(tok@));
                        assert(lexemes(tokens@) + lex(chars@.skip(i + 1)).0 =~= lexemes(before)
                            + (seq![tok@] + lex(chars@.skip(i + 1)).0));
                    }
                    i = i + 1;
                },
                None => {
                    if ('0' <= c && c <= '9') || c == '.' {
                        let ghost sep = |x: char| !is_number_char(x);
                        let start = i;
                        while i < n && (('0' <= chars[i] && chars[i] <= '9') || chars[i] == '.')
                            invariant
                                start < n == chars.len(),
                                start <= i <= n,
                                i == start || start < i,
                                sep == (|x: char| !is_number_char(x)),
                                forall|j: int| start <= j < i ==> !sep(#[trigger] chars@[j]),
                            decreases n - i,
                        {
                            i = i + 1;
                        }
                        let ghost k = (i - start) as int;
                        proof {
                            assert(is_number_char(chars@[start as int]));
                            assert forall|j: int| 0 <= j < k implies !sep(#[trigger] rest[j]) by {
                                assert(rest[j] == chars@[start + j]);
                            }
                            if i < n {
                                assert(rest[k] == chars@[i as int]);
                            }
                            lemma_sep_pos_at(rest, sep, k);
                        }
                        let text = string_from(&slice_chars(chars, start, i));
                        let ghost before = tokens@;
                        let tok = MathToken::Number(text);
                        tokens.push(tok);
                        proof {
                            assert(chars@.subrange(start as int, i as int) =~= rest.take(k));
                            assert(rest.skip(k) =~= chars@.skip(i as int));
                            assert(lexemes(tokens@) =~= lexemes(before).push(tok@));
                            assert(lexemes(tokens@) + lex(chars@.skip(i as int)).0 =~= lexemes(
                                before,
                            ) + (seq![tok@] + lex(chars@.skip(i as int)).0));
                        }
                    } else {
                        return (tokens, Some(c));
                    }
                },
            }
        }
    }
    proof {
        assert(chars@.skip(n as int) =~= Seq::<char>::empty());
        assert(lexemes(tokens@) + seq![] =~= lexemes(tokens@));
    }
    (tokens, None)
}

} // verus!
