//! What holds of every run of the lexer and the parser. The tokens of a text
//! spell the text without its whitespace. An expression reaches as far as it
//! can, its tree holds the tokens it was made from in their order, and of two
//! operators the one that binds more tightly gets the operand between them.

use vstd::prelude::*;

use crate::ast::{infix_operator_of, ExprView};
use crate::diagnostics::ParserError;
use crate::grammar::{
    atom, expression, extends, infix_chain, infix_expression, lemma_expression_outcome,
    lemma_prefix_outcome, lookahead, prefix, ExprResult, Precedence,
};
use crate::lexer::{
    lemma_next_token_advances, lemma_remaining_tokens, lemma_run_end, next_token_from, run_end,
    symbol_kind, tokens_from, ByteClass,
};
use crate::text::text_between;
use crate::token::{keyword_kind, TokenKind, TokenView};

verus! {

/// The texts that the tokens stand for, one after another.
pub open spec fn text_of_tokens(tokens: Seq<TokenView>) -> Seq<char>
    decreases tokens.len(),
{
    if tokens.len() == 0 {
        Seq::empty()
    } else {
        tokens[0].literal() + text_of_tokens(tokens.skip(1))
    }
}

/// The bytes from `pos` on that are no whitespace, each read as a character.
pub open spec fn visible_text(bytes: Seq<u8>, pos: int) -> Seq<char>
    decreases bytes.len() - pos,
{
    if pos < 0 || pos >= bytes.len() {
        Seq::empty()
    } else if ByteClass::Whitespace.has(bytes[pos]) {
        visible_text(bytes, pos + 1)
    } else {
        seq![bytes[pos] as char] + visible_text(bytes, pos + 1)
    }
}

/// Whitespace at the start adds nothing to the visible text.
proof fn lemma_visible_text_skips_whitespace(bytes: Seq<u8>, pos: int)
    requires
        0 <= pos <= bytes.len(),
    ensures
        visible_text(bytes, pos) == visible_text(bytes, run_end(bytes, pos, ByteClass::Whitespace)),
    decreases bytes.len() - pos,
{
    if pos < bytes.len() && ByteClass::Whitespace.has(bytes[pos]) {
        lemma_visible_text_skips_whitespace(bytes, pos + 1);
    }
}

/// A stretch of bytes without whitespace is visible as it stands.
proof fn lemma_visible_text_keeps(bytes: Seq<u8>, start: int, end: int)
    requires
        0 <= start <= end <= bytes.len(),
        forall|i: int| start <= i < end ==> !ByteClass::Whitespace.has(#[trigger] bytes[i]),
    ensures
        visible_text(bytes, start) == text_between(bytes, start, end) + visible_text(bytes, end),
    decreases end - start,
{
    if start < end {
        lemma_visible_text_keeps(bytes, start + 1, end);
        assert(text_between(bytes, start, end) =~= seq![bytes[start] as char] + text_between(
            bytes,
            start + 1,
            end,
        ));
        assert(visible_text(bytes, start) =~= text_between(bytes, start, end) + visible_text(
            bytes,
            end,
        ));
    } else {
        assert(text_between(bytes, start, end) + visible_text(bytes, end) =~= visible_text(
            bytes,
            end,
        ));
    }
}

/// A keyword stands for the text that spells it.
proof fn lemma_keyword_text(text: Seq<char>)
    ensures
        keyword_kind(text) matches Some(kind) ==> TokenView::bare(kind).literal() == text,
{
}

/// A token of one byte stands for that byte.
proof fn lemma_symbol_text(byte: u8)
    requires
        symbol_kind(byte) != TokenKind::Illegal,
    ensures
        TokenView::bare(symbol_kind(byte)).literal() == seq![byte as char],
{
    reveal_strlit("=");
    reveal_strlit("!");
    reveal_strlit("+");
    reveal_strlit("-");
    reveal_strlit("/");
    reveal_strlit("*");
    reveal_strlit("<");
    reveal_strlit(">");
    reveal_strlit("(");
    reveal_strlit(")");
    reveal_strlit("{");
    reveal_strlit("}");
    reveal_strlit(",");
    reveal_strlit(";");
    assert(TokenView::bare(symbol_kind(byte)).literal() =~= seq![byte as char]);
}

/// The lexer loses nothing but whitespace: where no token is illegal, the
/// tokens of a text, written one after another, are the text without its
/// whitespace.
pub proof fn lemma_tokens_spell_the_text(bytes: Seq<u8>, pos: int)
    requires
        0 <= pos <= bytes.len(),
        forall|i: int|
            0 <= i < tokens_from(bytes, pos).len() ==> (#[trigger] tokens_from(bytes, pos)[i]).kind
                != TokenKind::Illegal,
    ensures
        text_of_tokens(tokens_from(bytes, pos)) == visible_text(bytes, pos),
    decreases bytes.len() - pos,
{
    let tokens = tokens_from(bytes, pos);
    let start = run_end(bytes, pos, ByteClass::Whitespace);
    let scan = next_token_from(bytes, pos);
    lemma_run_end(bytes, pos, ByteClass::Whitespace);
    lemma_visible_text_skips_whitespace(bytes, pos);
    lemma_next_token_advances(bytes, pos);
    lemma_remaining_tokens(bytes, pos);
    if start < bytes.len() {
        let rest = tokens_from(bytes, scan.next);
        assert forall|i: int| 0 <= i < rest.len() implies (#[trigger] rest[i]).kind
            != TokenKind::Illegal by {
            assert(rest[i] == tokens[i + 1]);
        }
        lemma_tokens_spell_the_text(bytes, scan.next);
        assert(tokens[0] == scan.token);
        let byte = bytes[start];
        if ByteClass::Letter.has(byte) {
            lemma_run_end(bytes, start, ByteClass::Letter);
            lemma_keyword_text(text_between(bytes, start, scan.next));
            lemma_visible_text_keeps(bytes, start, scan.next);
        } else if ByteClass::Digit.has(byte) {
            lemma_run_end(bytes, start, ByteClass::Digit);
            lemma_visible_text_keeps(bytes, start, scan.next);
        } else if scan.next == start + 2 {
            reveal_strlit("==");
            reveal_strlit("!=");
            lemma_visible_text_keeps(bytes, start, start + 2);
            assert(scan.token.literal() =~= text_between(bytes, start, start + 2));
        } else {
            lemma_symbol_text(byte);
            lemma_visible_text_keeps(bytes, start, start + 1);
            assert(text_between(bytes, start, start + 1) =~= seq![byte as char]);
        }
    }
}

/// An expression that parsed reaches as far as it can: the token behind it
/// does not carry it on.
pub proof fn lemma_expression_is_maximal(tokens: Seq<TokenView>, precedence: Precedence)
    ensures
        expression(tokens, precedence).expr is Some ==> !extends(
            lookahead(tokens, expression(tokens, precedence).advanced as int + 1).kind,
            precedence,
        ),
{
    let head = prefix(tokens);
    match head.expr {
        Some(left) => {
            lemma_prefix_outcome(tokens);
            lemma_infix_chain_is_maximal(tokens, precedence, left, head.advanced, head.errors);
        },
        None => {},
    }
}

/// What `lemma_expression_is_maximal` says, of an expression that grows from a
/// left operand.
pub proof fn lemma_infix_chain_is_maximal(
    tokens: Seq<TokenView>,
    precedence: Precedence,
    left: ExprView,
    at: nat,
    errors: Seq<ParserError>,
)
    requires
        at < tokens.len(),
    ensures
        infix_chain(tokens, precedence, left, at, errors).expr is Some ==> !extends(
            lookahead(
                tokens,
                infix_chain(tokens, precedence, left, at, errors).advanced as int + 1,
            ).kind,
            precedence,
        ),
    decreases tokens.len() - at,
{
    let operator = lookahead(tokens, at as int + 1);
    if extends(operator.kind, precedence) {
        let right = expression(tokens.skip(at as int + 2), Precedence::of_kind(operator.kind));
        lemma_expression_outcome(tokens.skip(at as int + 2), Precedence::of_kind(operator.kind));
        match right.expr {
            Some(operand) => {
                lemma_infix_chain_is_maximal(
                    tokens,
                    precedence,
                    infix_expression(operator, left, operand),
                    at + 2 + right.advanced,
                    errors + right.errors,
                );
            },
            None => {},
        }
    }
}

/// The tokens of an expression in source order: those of the left operand,
/// the operator, those of the right operand. A tree holds no parentheses.
pub open spec fn tokens_of_expression(expr: ExprView) -> Seq<TokenView>
    decreases expr,
{
    match expr {
        ExprView::Identifier(identifier) => seq![identifier.token],
        ExprView::IntegerLiteral { token, .. } => seq![token],
        ExprView::Prefix { token, operand, .. } => seq![token] + tokens_of_expression(*operand),
        ExprView::Infix { token, left, right, .. } => tokens_of_expression(*left) + seq![token]
            + tokens_of_expression(*right),
    }
}

/// Whether a token is no parenthesis.
pub open spec fn no_parenthesis() -> spec_fn(TokenView) -> bool {
    |token: TokenView| token.kind != TokenKind::LParen && token.kind != TokenKind::RParen
}

/// The tokens without the parentheses among them.
pub open spec fn without_parentheses(tokens: Seq<TokenView>) -> Seq<TokenView> {
    tokens.filter(no_parenthesis())
}

/// Leaving out parentheses goes through concatenation.
proof fn lemma_without_parentheses_add(a: Seq<TokenView>, b: Seq<TokenView>)
    ensures
        without_parentheses(a + b) == without_parentheses(a) + without_parentheses(b),
{
    Seq::filter_distributes_over_add(a, b, no_parenthesis());
}

/// What is left of a single token once parentheses are left out.
proof fn lemma_without_parentheses_one(token: TokenView)
    ensures
        without_parentheses(seq![token]) == if token.kind != TokenKind::LParen && token.kind
            != TokenKind::RParen {
            seq![token]
        } else {
            Seq::empty()
        },
{
    reveal_with_fuel(Seq::filter, 2);
    assert(seq![token].drop_last() =~= Seq::<TokenView>::empty());
    assert(Seq::<TokenView>::empty().push(token) =~= seq![token]);
}

/// The tree of an expression that parsed holds exactly the tokens that the
/// parser passed over, in their order, without the parentheses: no token is
/// lost, none is added, and none changes its place.
pub proof fn lemma_expression_keeps_tokens(tokens: Seq<TokenView>, precedence: Precedence)
    ensures
        expression(tokens, precedence).expr matches Some(expr) ==> tokens_of_expression(expr)
            == without_parentheses(tokens.take(expression(tokens, precedence).advanced as int + 1)),
    decreases tokens.len(), tokens.len() + 2,
{
    let head = prefix(tokens);
    match head.expr {
        Some(left) => {
            lemma_prefix_outcome(tokens);
            lemma_prefix_keeps_tokens(tokens);
            lemma_infix_chain_keeps_tokens(tokens, precedence, left, head.advanced, head.errors);
        },
        None => {},
    }
}

/// What `lemma_expression_keeps_tokens` says, of the expression that the first
/// token introduces by itself.
pub proof fn lemma_prefix_keeps_tokens(tokens: Seq<TokenView>)
    ensures
        prefix(tokens).expr matches Some(expr) ==> tokens_of_expression(expr)
            == without_parentheses(tokens.take(prefix(tokens).advanced as int + 1)),
    decreases tokens.len(), tokens.len() + 1,
{
    let first = lookahead(tokens, 0);
    if prefix(tokens).expr is Some {
        lemma_without_parentheses_one(first);
        match first.kind {
            TokenKind::Bang | TokenKind::Minus => {
                let rest = tokens.skip(1);
                let inner = expression(rest, Precedence::Prefix);
                lemma_expression_keeps_tokens(rest, Precedence::Prefix);
                lemma_expression_outcome(rest, Precedence::Prefix);
                let passed = rest.take(inner.advanced as int + 1);
                assert(tokens.take(inner.advanced as int + 2) =~= seq![first] + passed);
                lemma_without_parentheses_add(seq![first], passed);
            },
            TokenKind::LParen => {
                let rest = tokens.skip(1);
                let inner = expression(rest, Precedence::Lowest);
                lemma_expression_keeps_tokens(rest, Precedence::Lowest);
                lemma_expression_outcome(rest, Precedence::Lowest);
                let passed = rest.take(inner.advanced as int + 1);
                let closing = lookahead(tokens, 2 + inner.advanced as int);
                assert(tokens.take(inner.advanced as int + 3) =~= (seq![first] + passed)
                    + seq![closing]);
                lemma_without_parentheses_one(closing);
                lemma_without_parentheses_add(seq![first] + passed, seq![closing]);
                lemma_without_parentheses_add(seq![first], passed);
                assert((Seq::<TokenView>::empty() + without_parentheses(passed))
                    + Seq::<TokenView>::empty() =~= without_parentheses(passed));
            },
            _ => {
                assert(tokens.take(1) =~= seq![first]);
            },
        }
    }
}

/// What `lemma_expression_keeps_tokens` says, of an expression that grows from
/// a left operand which holds the tokens passed over so far.
pub proof fn lemma_infix_chain_keeps_tokens(
    tokens: Seq<TokenView>,
    precedence: Precedence,
    left: ExprView,
    at: nat,
    errors: Seq<ParserError>,
)
    requires
        at < tokens.len(),
        tokens_of_expression(left) == without_parentheses(tokens.take(at as int + 1)),
    ensures
        infix_chain(tokens, precedence, left, at, errors).expr matches Some(expr)
            ==> tokens_of_expression(expr) == without_parentheses(
            tokens.take(infix_chain(tokens, precedence, left, at, errors).advanced as int + 1),
        ),
    decreases tokens.len(), tokens.len() - at,
{
    let operator = lookahead(tokens, at as int + 1);
    if extends(operator.kind, precedence) {
        let rest = tokens.skip(at as int + 2);
        let right = expression(rest, Precedence::of_kind(operator.kind));
        lemma_expression_outcome(rest, Precedence::of_kind(operator.kind));
        lemma_expression_keeps_tokens(rest, Precedence::of_kind(operator.kind));
        match right.expr {
            Some(operand) => {
                let joined = infix_expression(operator, left, operand);
                let before = tokens.take(at as int + 1);
                let passed = rest.take(right.advanced as int + 1);
                assert(tokens.take(at as int + 2 + right.advanced as int + 1) =~= (before
                    + seq![operator]) + passed);
                lemma_without_parentheses_one(operator);
                lemma_without_parentheses_add(before + seq![operator], passed);
                lemma_without_parentheses_add(before, seq![operator]);
                lemma_infix_chain_keeps_tokens(
                    tokens,
                    precedence,
                    joined,
                    at + 2 + right.advanced,
                    errors + right.errors,
                );
            },
            None => {},
        }
    }
}

/// Of two operators in a row, the one that binds more tightly gets the
/// operand between them; where they bind alike, the left one gets it. So
/// `a + b * c` is `a + (b * c)`, and `a - b - c` is `(a - b) - c`.
pub proof fn lemma_tighter_operator_gets_the_operand(tokens: Seq<TokenView>)
    requires
        tokens.len() >= 5,
        atom(tokens[0]) is Some,
        infix_operator_of(tokens[1].kind) is Some,
        atom(tokens[2]) is Some,
        infix_operator_of(tokens[3].kind) is Some,
        atom(tokens[4]) is Some,
        !extends(lookahead(tokens, 5).kind, Precedence::Lowest),
    ensures
        expression(tokens, Precedence::Lowest) == (ExprResult {
            expr: Some(
                if Precedence::of_kind(tokens[1].kind).rank() < Precedence::of_kind(
                    tokens[3].kind,
                ).rank() {
                    infix_expression(
                        tokens[1],
                        atom(tokens[0]).unwrap(),
                        infix_expression(
                            tokens[3],
                            atom(tokens[2]).unwrap(),
                            atom(tokens[4]).unwrap(),
                        ),
                    )
                } else {
                    infix_expression(
                        tokens[3],
                        infix_expression(
                            tokens[1],
                            atom(tokens[0]).unwrap(),
                            atom(tokens[2]).unwrap(),
                        ),
                        atom(tokens[4]).unwrap(),
                    )
                },
            ),
            advanced: 4,
            errors: Seq::empty(),
        }),
{
    reveal_with_fuel(expression, 4);
    reveal_with_fuel(prefix, 4);
    reveal_with_fuel(infix_chain, 4);
    let none = Seq::<ParserError>::empty();
    let first = tokens[1];
    let second = tokens[3];
    let x = atom(tokens[0]).unwrap();
    let y = atom(tokens[2]).unwrap();
    let z = atom(tokens[4]).unwrap();
    let after_first = tokens.skip(2);
    let after_second = tokens.skip(4);
    assert(after_first.skip(2) =~= after_second);
    assert(none + none =~= none);
    // the last operand stands alone, whatever the precedence
    assert(lookahead(after_second, 1) == lookahead(tokens, 5));
    assert(forall|precedence: Precedence|
        expression(after_second, precedence) == (ExprResult {
            expr: Some(z),
            advanced: 0,
            errors: none,
        }));
    if Precedence::of_kind(first.kind).rank() < Precedence::of_kind(second.kind).rank() {
        assert(lookahead(after_first, 3) == lookahead(tokens, 5));
        assert(expression(after_first, Precedence::of_kind(first.kind)) == (ExprResult {
            expr: Some(infix_expression(second, y, z)),
            advanced: 2,
            errors: none,
        }));
    } else {
        assert(expression(after_first, Precedence::of_kind(first.kind)) == (ExprResult {
            expr: Some(y),
            advanced: 0,
            errors: none,
        }));
    }
}

} // verus!
