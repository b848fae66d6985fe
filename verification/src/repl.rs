//! What the interactive front end computes from a line of input: the tokens
//! that it prints.

use vstd::prelude::*;
use vstd::utf8::encode_utf8;

use crate::lexer::{tokens_of, Lexer};
use crate::token::{token_views, Token, TokenKind, TokenView};

verus! {

/// The tokens before the first illegal one; all of them where none is illegal.
pub open spec fn legal_prefix(tokens: Seq<TokenView>) -> Seq<TokenView>
    decreases tokens.len(),
{
    if tokens.len() == 0 || tokens[0].kind == TokenKind::Illegal {
        Seq::empty()
    } else {
        seq![tokens[0]] + legal_prefix(tokens.skip(1))
    }
}

/// The legal prefix is a prefix, holds no illegal token, and ends only at an
/// illegal token or at the end of the tokens.
pub proof fn lemma_legal_prefix(tokens: Seq<TokenView>)
    ensures
        legal_prefix(tokens).len() <= tokens.len(),
        legal_prefix(tokens) == tokens.take(legal_prefix(tokens).len() as int),
        forall|i: int|
            0 <= i < legal_prefix(tokens).len() ==> (#[trigger] tokens[i]).kind
                != TokenKind::Illegal,
        legal_prefix(tokens).len() < tokens.len() ==> tokens[legal_prefix(tokens).len() as int].kind
            == TokenKind::Illegal,
    decreases tokens.len(),
{
    if tokens.len() > 0 && tokens[0].kind != TokenKind::Illegal {
        let rest = tokens.skip(1);
        lemma_legal_prefix(rest);
        let shorter = legal_prefix(rest).len() as int;
        assert(tokens.take(shorter + 1) =~= seq![tokens[0]] + rest.take(shorter));
        assert forall|i: int| 0 <= i < shorter + 1 implies (#[trigger] tokens[i]).kind
            != TokenKind::Illegal by {
            if i > 0 {
                assert(tokens[i] == rest[i - 1]);
            }
        }
        if shorter + 1 < tokens.len() {
            assert(tokens[shorter + 1] == rest[shorter]);
        }
    } else {
        assert(tokens.take(0) =~= Seq::<TokenView>::empty());
    }
}

/// The tokens of a line in order, up to the end of the line or to the first
/// illegal token, which is left out.
pub fn line_tokens(line: String) -> (tokens: Vec<Token>)
    ensures
        token_views(tokens@) == legal_prefix(tokens_of(encode_utf8(line@))),
{
    let mut lexer = Lexer::new(line);
    let mut tokens: Vec<Token> = Vec::new();
    let ghost all = lexer.remaining();
    proof {
        assert(token_views(tokens@) + legal_prefix(all) =~= legal_prefix(all));
    }
    loop
        invariant_except_break
            lexer.wf(),
            legal_prefix(all) == token_views(tokens@) + legal_prefix(lexer.remaining()),
        ensures
            token_views(tokens@) == legal_prefix(all),
        decreases lexer.remaining().len(),
    {
        let ghost before = lexer.remaining();
        let ghost seen = token_views(tokens@);
        let token = lexer.next_token();
        match token.kind() {
            TokenKind::Illegal | TokenKind::EndOfInput => {
                proof {
                    assert(seen + Seq::<TokenView>::empty() =~= seen);
                }
                break ;
            },
            _ => {
                tokens.push(token);
                proof {
                    assert(token_views(tokens@) =~= seen.push(before[0]));
                    assert(seen + (seq![before[0]] + legal_prefix(before.skip(1))) =~= seen.push(
                        before[0],
                    ) + legal_prefix(before.skip(1)));
                }
            },
        }
    }
    tokens
}

} // verus!
