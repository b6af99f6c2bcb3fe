//! The token stream: lexes source text into typed tokens.

use vstd::prelude::*;
use vstd::string::StrSliceExecFns;

use crate::IrError;
use crate::SyntaxDetail;

verus! {

/// The kinds of token the textual IR grammar uses.
#[derive(Clone, Copy, PartialEq, Eq, Structural, Debug)]
pub enum TokenKind {
    /// A value name such as `%arg0`.
    PercentIdentifier,
    /// A symbol name such as `@main`.
    AtIdentifier,
    /// A bare identifier such as `arith.addi` or `return`.
    BareIdentifier,
    /// An integer type literal such as `i64`.
    IntType,
    /// An integer literal such as `42`.
    Integer,
    Colon,
    Comma,
    LParen,
    RParen,
    LBrace,
    RBrace,
    Equal,
    Arrow,
    /// End of the token stream.
    Eof,
}

/// One token: its kind, its text, and the character index where it starts.
pub struct Token {
    pub kind: TokenKind,
    pub lexeme: String,
    pub pos: usize,
}

impl Token {
    pub fn new(kind: TokenKind, lexeme: String, pos: usize) -> (r: Token)
        ensures
            r.kind == kind,
            r.lexeme == lexeme,
            r.pos == pos,
    {
        Token { kind, lexeme, pos }
    }
}

impl Clone for Token {
    fn clone(&self) -> (r: Self)
        ensures
            r == *self,
    {
        Token { kind: self.kind, lexeme: self.lexeme.clone(), pos: self.pos }
    }
}

/// A token stream is well formed when its one `Eof` token stands at the end.
pub open spec fn wf_tokens(tokens: Seq<Token>) -> bool {
    &&& tokens.len() >= 1
    &&& tokens.last().kind == TokenKind::Eof
    &&& forall|i: int| 0 <= i < tokens.len() - 1 ==> tokens[i].kind != TokenKind::Eof
}

pub open spec fn is_digit_char(c: char) -> bool {
    48 <= c as u32 <= 57
}

pub open spec fn is_alpha_char(c: char) -> bool {
    (65 <= c as u32 <= 90) || (97 <= c as u32 <= 122) || c as u32 == 95
}

/// Characters allowed after the first one in a `%`/`@` identifier.
pub open spec fn is_ident_char(c: char) -> bool {
    is_alpha_char(c) || is_digit_char(c)
}

/// Characters allowed after the first one in a bare identifier; `.` joins
/// a dialect namespace to a mnemonic, as in `arith.addi`.
pub open spec fn is_bare_char(c: char) -> bool {
    is_ident_char(c) || c as u32 == 46
}

pub open spec fn is_space_char(c: char) -> bool {
    c as u32 == 32 || c as u32 == 10 || c as u32 == 9 || c as u32 == 13
}

fn digit_char(c: char) -> (r: bool)
    ensures
        r == is_digit_char(c),
{
    let u = c as u32;
    48 <= u && u <= 57
}

fn alpha_char(c: char) -> (r: bool)
    ensures
        r == is_alpha_char(c),
{
    let u = c as u32;
    (65 <= u && u <= 90) || (97 <= u && u <= 122) || u == 95
}

fn ident_char(c: char) -> (r: bool)
    ensures
        r == is_ident_char(c),
{
    alpha_char(c) || digit_char(c)
}

fn bare_char(c: char) -> (r: bool)
    ensures
        r == is_bare_char(c),
{
    ident_char(c) || c as u32 == 46
}

fn space_char(c: char) -> (r: bool)
    ensures
        r == is_space_char(c),
{
    let u = c as u32;
    u == 32 || u == 10 || u == 9 || u == 13
}

/// The shape of an integer type literal: `i` then at least one digit.
pub open spec fn int_type_text(s: Seq<char>) -> bool {
    &&& s.len() >= 2
    &&& s[0] == 'i'
    &&& forall|i: int| 1 <= i < s.len() ==> is_digit_char(#[trigger] s[i])
}

/// Every token's kind agrees with its text: the kind is readable back
/// off the lexeme, not invented.
pub open spec fn token_kind_coherent(t: Token) -> bool {
    match t.kind {
        TokenKind::PercentIdentifier => t.lexeme@.len() >= 2 && t.lexeme@[0] == '%',
        TokenKind::AtIdentifier => t.lexeme@.len() >= 2 && t.lexeme@[0] == '@',
        TokenKind::BareIdentifier => t.lexeme@.len() >= 1 && is_alpha_char(t.lexeme@[0])
            && !int_type_text(t.lexeme@),
        TokenKind::IntType => int_type_text(t.lexeme@),
        TokenKind::Integer => t.lexeme@.len() >= 1 && (forall|i: int|
            0 <= i < t.lexeme@.len() ==> is_digit_char(#[trigger] t.lexeme@[i])),
        TokenKind::Colon => t.lexeme@ == seq![':'],
        TokenKind::Comma => t.lexeme@ == seq![','],
        TokenKind::LParen => t.lexeme@ == seq!['('],
        TokenKind::RParen => t.lexeme@ == seq![')'],
        TokenKind::LBrace => t.lexeme@ == seq!['{'],
        TokenKind::RBrace => t.lexeme@ == seq!['}'],
        TokenKind::Equal => t.lexeme@ == seq!['='],
        TokenKind::Arrow => t.lexeme@ == seq!['-', '>'],
        TokenKind::Eof => t.lexeme@.len() == 0,
    }
}

/// Whether token `k` of a stream reads back the text of `src` at its
/// recorded position.
pub open spec fn token_matches_source(tokens: Seq<Token>, k: int, src: Seq<char>) -> bool {
    &&& tokens[k].lexeme@.len() > 0
    &&& tokens[k].pos + tokens[k].lexeme@.len() <= src.len()
    &&& tokens[k].lexeme@ == src.subrange(
        tokens[k].pos as int,
        tokens[k].pos + tokens[k].lexeme@.len(),
    )
}

/// Lexes source text into tokens, ending with a single `Eof` token.
/// Rejects any character that no token of the grammar may start with.
/// Every token reads back the source text at its position, and every
/// character of the source is whitespace or inside some token: the
/// stream is drawn from the input, completely and without invention.
pub fn lex(src: &str) -> (r: Result<Vec<Token>, IrError>)
    ensures
        r matches Ok(tokens) ==> wf_tokens(tokens@),
        r matches Ok(tokens) ==> tokens@.last().pos == src@.len(),
        r matches Ok(tokens) ==> forall|k: int|
            0 <= k < tokens@.len() - 1 ==> token_matches_source(tokens@, k, src@),
        r matches Ok(tokens) ==> forall|k: int|
            0 <= k < tokens@.len() ==> token_kind_coherent(#[trigger] tokens@[k]),
        r matches Ok(tokens) ==> forall|c: int|
            0 <= c < src@.len() ==> is_space_char(#[trigger] src@[c]) || (exists|k: int|
                0 <= k < tokens@.len() - 1 && (#[trigger] tokens@[k]).pos <= c < tokens@[k].pos
                    + tokens@[k].lexeme@.len()),
        (forall|c: int| 0 <= c < src@.len() ==> is_space_char(#[trigger] src@[c])) ==> r is Ok,
        (forall|c: int| 0 <= c < src@.len() ==> is_space_char(#[trigger] src@[c])) ==> (
        r matches Ok(tokens) ==> tokens@.len() == 1),
        r matches Err(e) ==> e matches IrError::SyntaxError { .. },
{
    let n = src.unicode_len();
    let mut chars: Vec<char> = Vec::new();
    let mut i: usize = 0;
    while i < n
        invariant
            i <= n,
            n == src@.len(),
            chars@ =~= src@.subrange(0, i as int),
        decreases n - i,
    {
        chars.push(src.get_char(i));
        i = i + 1;
    }
    assert(chars@ =~= src@);
    let mut tokens: Vec<Token> = Vec::new();
    let mut pos: usize = 0;
    while pos < n
        invariant
            pos <= n,
            n == src@.len(),
            chars@ =~= src@,
            forall|k: int| 0 <= k < tokens@.len() ==> tokens@[k].kind != TokenKind::Eof,
            (forall|c: int| 0 <= c < src@.len() ==> is_space_char(#[trigger] src@[c]))
                ==> tokens@.len() == 0,
            forall|k: int| 0 <= k < tokens@.len() ==> token_matches_source(tokens@, k, src@),
            forall|k: int| 0 <= k < tokens@.len() ==> token_kind_coherent(#[trigger] tokens@[k]),
            forall|c: int|
                0 <= c < pos ==> is_space_char(#[trigger] src@[c]) || (exists|k: int|
                    0 <= k < tokens@.len() && (#[trigger] tokens@[k]).pos <= c < tokens@[k].pos
                        + tokens@[k].lexeme@.len()),
        decreases n - pos,
    {
        let c = chars[pos];
        if space_char(c) {
            pos = pos + 1;
        } else if c == '%' || c == '@' {
            let start = pos;
            pos = pos + 1;
            while pos < n && ident_char(chars[pos])
                invariant
                    start < pos <= n,
                    n == src@.len(),
                    chars@ =~= src@,
                decreases n - pos,
            {
                pos = pos + 1;
            }
            if pos == start + 1 {
                return Err(IrError::SyntaxError {
                    detail: SyntaxDetail::UnexpectedCharacter,
                    pos: start,
                });
            }
            let lexeme = src.substring_char(start, pos).to_owned();
            let kind = if c == '%' {
                TokenKind::PercentIdentifier
            } else {
                TokenKind::AtIdentifier
            };
            let ghost pre = tokens@;
            tokens.push(Token::new(kind, lexeme, start));
            proof {
                assert(tokens@[pre.len() as int].lexeme@ == src@.subrange(
                    start as int,
                    pos as int,
                ));
                assert(token_matches_source(tokens@, pre.len() as int, src@));
                assert(tokens@[pre.len() as int].lexeme@[0] == src@[start as int]);
                assert(token_kind_coherent(tokens@[pre.len() as int]));
                assert forall|c: int| #![trigger src@[c]] start <= c < pos implies exists|k: int|
                    0 <= k < tokens@.len() && (#[trigger] tokens@[k]).pos <= c < tokens@[k].pos
                        + tokens@[k].lexeme@.len() by {
                    assert(tokens@[pre.len() as int].pos <= c < tokens@[pre.len() as int].pos
                        + tokens@[pre.len() as int].lexeme@.len());
                }
                assert forall|k: int| 0 <= k < tokens@.len() implies token_matches_source(
                    tokens@,
                    k,
                    src@,
                ) by {
                    if k < pre.len() {
                        assert(tokens@[k] == pre[k]);
                        assert(token_matches_source(pre, k, src@));
                    }
                }
                assert forall|k: int| 0 <= k < tokens@.len() implies token_kind_coherent(
                    #[trigger] tokens@[k],
                ) by {
                    if k < pre.len() {
                        assert(tokens@[k] == pre[k]);
                        assert(token_kind_coherent(pre[k]));
                    } else {
                        assert(tokens@[k] == tokens@[pre.len() as int]);
                    }
                }
            }
        } else if alpha_char(c) {
            let start = pos;
            pos = pos + 1;
            while pos < n && bare_char(chars[pos])
                invariant
                    start < pos <= n,
                    n == src@.len(),
                    chars@ =~= src@,
                decreases n - pos,
            {
                pos = pos + 1;
            }
            let lexeme = src.substring_char(start, pos).to_owned();
            let kind = if int_type_shape(&chars, start, pos) {
                TokenKind::IntType
            } else {
                TokenKind::BareIdentifier
            };
            let ghost pre = tokens@;
            tokens.push(Token::new(kind, lexeme, start));
            proof {
                assert(tokens@[pre.len() as int].lexeme@ == src@.subrange(
                    start as int,
                    pos as int,
                ));
                assert(token_matches_source(tokens@, pre.len() as int, src@));
                assert(chars@.subrange(start as int, pos as int) == src@.subrange(
                    start as int,
                    pos as int,
                ));
                assert(tokens@[pre.len() as int].lexeme@[0] == src@[start as int]);
                assert(token_kind_coherent(tokens@[pre.len() as int]));
                assert forall|c: int| #![trigger src@[c]] start <= c < pos implies exists|k: int|
                    0 <= k < tokens@.len() && (#[trigger] tokens@[k]).pos <= c < tokens@[k].pos
                        + tokens@[k].lexeme@.len() by {
                    assert(tokens@[pre.len() as int].pos <= c < tokens@[pre.len() as int].pos
                        + tokens@[pre.len() as int].lexeme@.len());
                }
                assert forall|k: int| 0 <= k < tokens@.len() implies token_matches_source(
                    tokens@,
                    k,
                    src@,
                ) by {
                    if k < pre.len() {
                        assert(tokens@[k] == pre[k]);
                        assert(token_matches_source(pre, k, src@));
                    }
                }
                assert forall|k: int| 0 <= k < tokens@.len() implies token_kind_coherent(
                    #[trigger] tokens@[k],
                ) by {
                    if k < pre.len() {
                        assert(tokens@[k] == pre[k]);
                        assert(token_kind_coherent(pre[k]));
                    } else {
                        assert(tokens@[k] == tokens@[pre.len() as int]);
                    }
                }
            }
        } else if digit_char(c) {
            let start = pos;
            pos = pos + 1;
            while pos < n && digit_char(chars[pos])
                invariant
                    start < pos <= n,
                    n == src@.len(),
                    chars@ =~= src@,
                    forall|q: int| start <= q < pos ==> is_digit_char(#[trigger] src@[q]),
                decreases n - pos,
            {
                pos = pos + 1;
            }
            let lexeme = src.substring_char(start, pos).to_owned();
            let ghost pre = tokens@;
            tokens.push(Token::new(TokenKind::Integer, lexeme, start));
            proof {
                assert(tokens@[pre.len() as int].lexeme@ == src@.subrange(
                    start as int,
                    pos as int,
                ));
                assert(token_matches_source(tokens@, pre.len() as int, src@));
                assert forall|q: int|
                    0 <= q < tokens@[pre.len() as int].lexeme@.len() implies is_digit_char(
                    #[trigger] tokens@[pre.len() as int].lexeme@[q],
                ) by {
                    assert(tokens@[pre.len() as int].lexeme@[q] == src@[start + q]);
                }
                assert(token_kind_coherent(tokens@[pre.len() as int]));
                assert forall|c: int| #![trigger src@[c]] start <= c < pos implies exists|k: int|
                    0 <= k < tokens@.len() && (#[trigger] tokens@[k]).pos <= c < tokens@[k].pos
                        + tokens@[k].lexeme@.len() by {
                    assert(tokens@[pre.len() as int].pos <= c < tokens@[pre.len() as int].pos
                        + tokens@[pre.len() as int].lexeme@.len());
                }
                assert forall|k: int| 0 <= k < tokens@.len() implies token_matches_source(
                    tokens@,
                    k,
                    src@,
                ) by {
                    if k < pre.len() {
                        assert(tokens@[k] == pre[k]);
                        assert(token_matches_source(pre, k, src@));
                    }
                }
                assert forall|k: int| 0 <= k < tokens@.len() implies token_kind_coherent(
                    #[trigger] tokens@[k],
                ) by {
                    if k < pre.len() {
                        assert(tokens@[k] == pre[k]);
                        assert(token_kind_coherent(pre[k]));
                    } else {
                        assert(tokens@[k] == tokens@[pre.len() as int]);
                    }
                }
            }
        } else if c == '-' {
            if pos + 1 < n && chars[pos + 1] == '>' {
                let lexeme = src.substring_char(pos, pos + 2).to_owned();
            let ghost pre = tokens@;
                tokens.push(Token::new(TokenKind::Arrow, lexeme, pos));
            proof {
                assert(tokens@[pre.len() as int].lexeme@ == src@.subrange(
                    pos as int,
                    pos + 2 as int,
                ));
                assert(token_matches_source(tokens@, pre.len() as int, src@));
                assert(tokens@[pre.len() as int].lexeme@ =~= seq!['-', '>']);
                assert(token_kind_coherent(tokens@[pre.len() as int]));
                assert forall|c: int| #![trigger src@[c]] pos <= c < pos + 2 implies exists|k: int|
                    0 <= k < tokens@.len() && (#[trigger] tokens@[k]).pos <= c < tokens@[k].pos
                        + tokens@[k].lexeme@.len() by {
                    assert(tokens@[pre.len() as int].pos <= c < tokens@[pre.len() as int].pos
                        + tokens@[pre.len() as int].lexeme@.len());
                }
                assert forall|k: int| 0 <= k < tokens@.len() implies token_matches_source(
                    tokens@,
                    k,
                    src@,
                ) by {
                    if k < pre.len() {
                        assert(tokens@[k] == pre[k]);
                        assert(token_matches_source(pre, k, src@));
                    }
                }
                assert forall|k: int| 0 <= k < tokens@.len() implies token_kind_coherent(
                    #[trigger] tokens@[k],
                ) by {
                    if k < pre.len() {
                        assert(tokens@[k] == pre[k]);
                        assert(token_kind_coherent(pre[k]));
                    } else {
                        assert(tokens@[k] == tokens@[pre.len() as int]);
                    }
                }
            }
                pos = pos + 2;
            } else {
                return Err(IrError::SyntaxError {
                    detail: SyntaxDetail::UnexpectedCharacter,
                    pos,
                });
            }
        } else {
            let kind = if c == '(' {
                TokenKind::LParen
            } else if c == ')' {
                TokenKind::RParen
            } else if c == ',' {
                TokenKind::Comma
            } else if c == ':' {
                TokenKind::Colon
            } else if c == '{' {
                TokenKind::LBrace
            } else if c == '}' {
                TokenKind::RBrace
            } else if c == '=' {
                TokenKind::Equal
            } else {
                return Err(IrError::SyntaxError {
                    detail: SyntaxDetail::UnexpectedCharacter,
                    pos,
                });
            };
            let lexeme = src.substring_char(pos, pos + 1).to_owned();
            let ghost pre = tokens@;
            tokens.push(Token::new(kind, lexeme, pos));
            proof {
                assert(tokens@[pre.len() as int].lexeme@ == src@.subrange(
                    pos as int,
                    pos + 1 as int,
                ));
                assert(token_matches_source(tokens@, pre.len() as int, src@));
                assert(tokens@[pre.len() as int].lexeme@ =~= seq![c]);
                assert(token_kind_coherent(tokens@[pre.len() as int]));
                assert forall|c: int| #![trigger src@[c]] pos <= c < pos + 1 implies exists|k: int|
                    0 <= k < tokens@.len() && (#[trigger] tokens@[k]).pos <= c < tokens@[k].pos
                        + tokens@[k].lexeme@.len() by {
                    assert(tokens@[pre.len() as int].pos <= c < tokens@[pre.len() as int].pos
                        + tokens@[pre.len() as int].lexeme@.len());
                }
                assert forall|k: int| 0 <= k < tokens@.len() implies token_matches_source(
                    tokens@,
                    k,
                    src@,
                ) by {
                    if k < pre.len() {
                        assert(tokens@[k] == pre[k]);
                        assert(token_matches_source(pre, k, src@));
                    }
                }
                assert forall|k: int| 0 <= k < tokens@.len() implies token_kind_coherent(
                    #[trigger] tokens@[k],
                ) by {
                    if k < pre.len() {
                        assert(tokens@[k] == pre[k]);
                        assert(token_kind_coherent(pre[k]));
                    } else {
                        assert(tokens@[k] == tokens@[pre.len() as int]);
                    }
                }
            }
            pos = pos + 1;
        }
    }
    let ghost pre = tokens@;
    tokens.push(Token::new(TokenKind::Eof, String::new(), n));
    proof {
        assert(tokens@.len() - 1 == pre.len());
        assert forall|k: int| 0 <= k < tokens@.len() - 1 implies token_matches_source(
            tokens@,
            k,
            src@,
        ) by {
            assert(tokens@[k] == pre[k]);
            assert(token_matches_source(pre, k, src@));
        }
        assert(tokens@[pre.len() as int].lexeme@.len() == 0);
        assert(token_kind_coherent(tokens@[pre.len() as int]));
        assert forall|k: int| 0 <= k < tokens@.len() implies token_kind_coherent(
            #[trigger] tokens@[k],
        ) by {
            if k < pre.len() {
                assert(tokens@[k] == pre[k]);
                assert(token_kind_coherent(pre[k]));
            }
        }
        assert forall|c: int| 0 <= c < src@.len() implies is_space_char(#[trigger] src@[c]) || (
        exists|k: int|
            0 <= k < tokens@.len() - 1 && (#[trigger] tokens@[k]).pos <= c < tokens@[k].pos
                + tokens@[k].lexeme@.len()) by {
            if !is_space_char(src@[c]) {
                let k = choose|k: int|
                    0 <= k < pre.len() && (#[trigger] pre[k]).pos <= c < pre[k].pos
                        + pre[k].lexeme@.len();
                assert(tokens@[k] == pre[k]);
            }
        }
    }
    Ok(tokens)
}

/// Decides whether `chars[start..end]` reads as an integer type such as `i64`.
fn int_type_shape(chars: &Vec<char>, start: usize, end: usize) -> (r: bool)
    requires
        start < end <= chars@.len(),
    ensures
        r == int_type_text(chars@.subrange(start as int, end as int)),
{
    let ghost s = chars@.subrange(start as int, end as int);
    if chars[start] != 'i' {
        return false;
    }
    if end - start < 2 {
        return false;
    }
    let mut j = start + 1;
    while j < end
        invariant
            start < j <= end <= chars@.len(),
            s == chars@.subrange(start as int, end as int),
            s.len() >= 2,
            s[0] == 'i',
            forall|q: int| 1 <= q < j - start ==> is_digit_char(#[trigger] s[q]),
        decreases end - j,
    {
        if !digit_char(chars[j]) {
            proof {
                assert(s[j - start] == chars@[j as int]);
            }
            return false;
        }
        proof {
            assert(s[j - start] == chars@[j as int]);
        }
        j = j + 1;
    }
    true
}

} // verus!
