//! The lexer reads a canonical text as its tokens.

use crate::ast::{ExpressionView, LiteralView, StatementView};
use crate::lexer::{char_at, is_digit, is_letter, is_word_char, tokenize};
use crate::parser::grammar::{block, expression, operand, statement};
use crate::printer::{expressions_text, statements_text};
use crate::relex::{
    lemma_keywords, lemma_lex_blank, lemma_lex_token, lemma_marks, lemma_nat_text_digits,
};
use crate::reparse::canonical::{
    all_canonical, block_tokens, braced_tokens, canonical, canonical_block, canonical_statement,
    ends_with_mark, list_tokens, statement_tokens, tokens_of,
};
use crate::token::TokenView;
use vstd::prelude::*;

verus! {

/// A part of a part of a text is a part of the text.
pub proof fn lemma_piece(u: Seq<char>, i: int, whole: Seq<char>, k: int, piece: Seq<char>)
    requires
        0 <= i,
        i + whole.len() <= u.len(),
        u.subrange(i, i + whole.len()) == whole,
        0 <= k,
        k + piece.len() <= whole.len(),
        whole.subrange(k, k + piece.len()) == piece,
    ensures
        u.subrange(i + k, i + k + piece.len()) == piece,
        forall|j: int| 0 <= j < whole.len() ==> u[i + j] == #[trigger] whole[j],
{
    assert forall|j: int| 0 <= j < whole.len() implies u[i + j] == #[trigger] whole[j] by {
        assert(u.subrange(i, i + whole.len())[j] == u[i + j]);
    }
    assert(u.subrange(i + k, i + k + piece.len()) =~= whole.subrange(k, k + piece.len()));
}

/// The text of a literal number or truth value is the spelling of its
/// token.
pub proof fn lemma_literal_text(e: ExpressionView)
    ensures
        match e {
            ExpressionView::Lit(LiteralView::Int(i)) => e.text() == TokenView::Int(i).text(),
            ExpressionView::Lit(LiteralView::Bool(b)) => e.text() == TokenView::Boolean(b).text(),
            _ => true,
        },
{
    match e {
        ExpressionView::Lit(l) => {
            assert(e.text() == l.text());
        },
        _ => {},
    }
}

/// The text of a canonical expression starts with a letter, a digit or an
/// opening parenthesis.
pub proof fn lemma_text_head(e: ExpressionView)
    requires
        canonical(e),
    ensures
        e.text().len() > 0,
        is_letter(e.text()[0]) || is_digit(e.text()[0]) || e.text()[0] == '(',
    decreases e,
{
    lemma_marks();
    lemma_keywords();
    lemma_literal_text(e);
    match e {
        ExpressionView::Lit(LiteralView::Int(i)) => {
            lemma_nat_text_digits(i as nat);
        },
        ExpressionView::Call(f, args) => {
            lemma_text_head(*f);
        },
        ExpressionView::If(c, consequence, alternative) => {
            lemma_phrases();
            lemma_if_text(e);
        },
        _ => {},
    }
}

/// Where the text of a canonical expression stands in a text, and no word
/// character follows it unless it ends with a parenthesis or a brace, the
/// tokens from there on are those of the expression and those behind it.
pub proof fn lemma_lex_expression(u: Seq<char>, i: int, e: ExpressionView)
    requires
        canonical(e),
        0 <= i,
        i + e.text().len() <= u.len(),
        u.subrange(i, i + e.text().len()) == e.text(),
        ends_with_mark(e) || !is_word_char(char_at(u, i + e.text().len())),
    ensures
        tokenize(u, i) == tokens_of(e) + tokenize(u, i + e.text().len()),
    decreases e, 3int,
{
    lemma_literal_text(e);
    match e {
        ExpressionView::Identifier(name) => {
            lemma_lex_token(u, i, TokenView::Ident(name));
        },
        ExpressionView::Lit(LiteralView::Int(v)) => {
            lemma_lex_token(u, i, TokenView::Int(v));
        },
        ExpressionView::Lit(LiteralView::Bool(b)) => {
            lemma_lex_token(u, i, TokenView::Boolean(b));
        },
        ExpressionView::Prefix(op, x) => {
            lemma_lex_prefix(u, i, e);
        },
        ExpressionView::Infix(op, a, b) => {
            lemma_lex_infix(u, i, e);
        },
        ExpressionView::Call(f, args) => {
            lemma_lex_call(u, i, e);
        },
        ExpressionView::If(c, consequence, alternative) => {
            lemma_lex_if(u, i, e);
        },
        _ => {},
    }
}

/// Where the text of a canonical prefix expression stands in a text, the
/// tokens from there on are those of the expression and those behind it.
pub proof fn lemma_lex_prefix(u: Seq<char>, i: int, e: ExpressionView)
    requires
        canonical(e),
        e is Prefix,
        0 <= i,
        i + e.text().len() <= u.len(),
        u.subrange(i, i + e.text().len()) == e.text(),
    ensures
        tokenize(u, i) == tokens_of(e) + tokenize(u, i + e.text().len()),
    decreases e, 0int,
{
    lemma_marks();
    let op = e->Prefix_0;
    let x = *e->Prefix_1;
    let whole = e.text();
    let n = x.text().len() as int;
    lemma_text_head(x);
    assert(op.text().len() == 1);
    assert(whole.len() == n + 3);
    assert(whole.subrange(0, 1) =~= TokenView::LParen.text());
    lemma_piece(u, i, whole, 0, TokenView::LParen.text());
    lemma_lex_token(u, i, TokenView::LParen);
    assert(whole.subrange(1, 2) =~= op.text());
    lemma_piece(u, i, whole, 1, op.text());
    assert(whole[2] == x.text()[0]);
    assert(u[i + 2] == whole[2]);
    lemma_lex_token(u, i + 1, op);
    assert(whole.subrange(2, 2 + n) =~= x.text());
    lemma_piece(u, i, whole, 2, x.text());
    assert(whole[2 + n] == ')');
    assert(u[i + (2 + n)] == whole[2 + n]);
    lemma_lex_expression(u, i + 2, x);
    assert(whole.subrange(2 + n, 3 + n) =~= TokenView::RParen.text());
    lemma_piece(u, i, whole, 2 + n, TokenView::RParen.text());
    lemma_lex_token(u, i + 2 + n, TokenView::RParen);
    assert(tokenize(u, i) =~= tokens_of(e) + tokenize(u, i + whole.len()));
}

/// Where the text of a canonical binary expression stands in a text, the
/// tokens from there on are those of the expression and those behind it.
pub proof fn lemma_lex_infix(u: Seq<char>, i: int, e: ExpressionView)
    requires
        canonical(e),
        e is Infix,
        0 <= i,
        i + e.text().len() <= u.len(),
        u.subrange(i, i + e.text().len()) == e.text(),
    ensures
        tokenize(u, i) == tokens_of(e) + tokenize(u, i + e.text().len()),
    decreases e, 0int,
{
    lemma_marks();
    let op = e->Infix_0;
    let a = *e->Infix_1;
    let b = *e->Infix_2;
    let whole = e.text();
    let na = a.text().len() as int;
    let no = op.text().len() as int;
    let nb = b.text().len() as int;
    assert(1 <= no <= 2);
    assert(whole.len() == na + no + nb + 4);
    // the opening parenthesis
    assert(whole.subrange(0, 1) =~= TokenView::LParen.text());
    lemma_piece(u, i, whole, 0, TokenView::LParen.text());
    lemma_lex_token(u, i, TokenView::LParen);
    // the left operand
    assert(whole.subrange(1, 1 + na) =~= a.text());
    lemma_piece(u, i, whole, 1, a.text());
    assert(whole[1 + na] == ' ');
    assert(u[i + (1 + na)] == whole[1 + na]);
    lemma_lex_expression(u, i + 1, a);
    lemma_lex_blank(u, i + 1 + na);
    // the operator
    assert(whole.subrange(2 + na, 2 + na + no) =~= op.text());
    lemma_piece(u, i, whole, 2 + na, op.text());
    assert(whole[2 + na + no] == ' ');
    assert(u[i + (2 + na + no)] == whole[2 + na + no]);
    lemma_lex_token(u, i + 2 + na, op);
    lemma_lex_blank(u, i + 2 + na + no);
    // the right operand
    assert(whole.subrange(3 + na + no, 3 + na + no + nb) =~= b.text());
    lemma_piece(u, i, whole, 3 + na + no, b.text());
    assert(whole[3 + na + no + nb] == ')');
    assert(u[i + (3 + na + no + nb)] == whole[3 + na + no + nb]);
    lemma_lex_expression(u, i + 3 + na + no, b);
    // the closing parenthesis
    assert(whole.subrange(3 + na + no + nb, 4 + na + no + nb) =~= TokenView::RParen.text());
    lemma_piece(u, i, whole, 3 + na + no + nb, TokenView::RParen.text());
    lemma_lex_token(u, i + 3 + na + no + nb, TokenView::RParen);
    assert(tokenize(u, i) =~= tokens_of(e) + tokenize(u, i + whole.len()));
}

/// Where the text of a canonical call stands in a text, the tokens from
/// there on are those of the call and those behind it.
pub proof fn lemma_lex_call(u: Seq<char>, i: int, e: ExpressionView)
    requires
        canonical(e),
        e is Call,
        0 <= i,
        i + e.text().len() <= u.len(),
        u.subrange(i, i + e.text().len()) == e.text(),
    ensures
        tokenize(u, i) == tokens_of(e) + tokenize(u, i + e.text().len()),
    decreases e, 0int,
{
    lemma_marks();
    let f = *e->Call_0;
    let args = e->Call_1;
    let whole = e.text();
    let nf = f.text().len() as int;
    let na = expressions_text(args).len() as int;
    assert(whole.len() == nf + na + 2);
    // the callee
    assert(whole.subrange(0, nf) =~= f.text());
    lemma_piece(u, i, whole, 0, f.text());
    assert(whole[nf] == '(');
    assert(u[i + nf] == whole[nf]);
    lemma_lex_expression(u, i, f);
    // the opening parenthesis
    assert(whole.subrange(nf, nf + 1) =~= TokenView::LParen.text());
    lemma_piece(u, i, whole, nf, TokenView::LParen.text());
    lemma_lex_token(u, i + nf, TokenView::LParen);
    // the arguments
    assert(whole.subrange(nf + 1, nf + 1 + na) =~= expressions_text(args));
    lemma_piece(u, i, whole, nf + 1, expressions_text(args));
    assert(whole[nf + 1 + na] == ')');
    assert(u[i + (nf + 1 + na)] == whole[nf + 1 + na]);
    lemma_lex_list(u, i + nf + 1, args);
    // the closing parenthesis
    assert(whole.subrange(nf + 1 + na, nf + 2 + na) =~= TokenView::RParen.text());
    lemma_piece(u, i, whole, nf + 1 + na, TokenView::RParen.text());
    lemma_lex_token(u, i + nf + 1 + na, TokenView::RParen);
    assert(tokenize(u, i) =~= tokens_of(e) + tokenize(u, i + whole.len()));
}

/// Where the text of canonical expressions with commas between them stands
/// in a text, and no word character follows it, the tokens from there on
/// are those of the expressions and those behind them.
pub proof fn lemma_lex_list(u: Seq<char>, i: int, es: Seq<ExpressionView>)
    requires
        all_canonical(es),
        0 <= i,
        i + expressions_text(es).len() <= u.len(),
        u.subrange(i, i + expressions_text(es).len()) == expressions_text(es),
        !is_word_char(char_at(u, i + expressions_text(es).len())),
    ensures
        tokenize(u, i) == list_tokens(es) + tokenize(u, i + expressions_text(es).len()),
    decreases es, 0int,
{
    lemma_marks();
    let whole = expressions_text(es);
    if es.len() == 0 {
        assert(tokenize(u, i) =~= list_tokens(es) + tokenize(u, i));
    } else if es.len() == 1 {
        lemma_lex_expression(u, i, es[0]);
    } else {
        let front = es.drop_last();
        let last = es.last();
        let nf = expressions_text(front).len() as int;
        let nl = last.text().len() as int;
        assert(whole.len() == nf + 2 + nl);
        assert(whole.subrange(0, nf) =~= expressions_text(front));
        lemma_piece(u, i, whole, 0, expressions_text(front));
        assert(whole[nf] == ',');
        assert(u[i + nf] == whole[nf]);
        lemma_lex_list(u, i, front);
        assert(whole.subrange(nf, nf + 1) =~= TokenView::Comma.text());
        lemma_piece(u, i, whole, nf, TokenView::Comma.text());
        lemma_lex_token(u, i + nf, TokenView::Comma);
        assert(whole[nf + 1] == ' ');
        assert(u[i + (nf + 1)] == whole[nf + 1]);
        lemma_lex_blank(u, i + nf + 1);
        assert(whole.subrange(nf + 2, nf + 2 + nl) =~= last.text());
        lemma_piece(u, i, whole, nf + 2, last.text());
        lemma_lex_expression(u, i + nf + 2, last);
        assert(tokenize(u, i) =~= list_tokens(es) + tokenize(u, i + whole.len()));
    }
}

/// The text of a block in its braces.
pub open spec fn braced_text(ss: Seq<StatementView>) -> Seq<char> {
    " { "@ + statements_text(ss) + " }"@
}

/// The fixed parts of the printed forms, character by character.
pub proof fn lemma_phrases()
    ensures
        "if "@ == seq!['i', 'f', ' '],
        " { "@ == seq![' ', '{', ' '],
        " }"@ == seq![' ', '}'],
        " else"@ == seq![' ', 'e', 'l', 's', 'e'],
        " } else { "@ == seq![' ', '}', ' ', 'e', 'l', 's', 'e', ' ', '{', ' '],
        "let "@ == seq!['l', 'e', 't', ' '],
        " = "@ == seq![' ', '=', ' '],
        "return "@ == seq!['r', 'e', 't', 'u', 'r', 'n', ' '],
{
    reveal_strlit("if ");
    reveal_strlit(" { ");
    reveal_strlit(" }");
    reveal_strlit(" else");
    reveal_strlit(" } else { ");
    reveal_strlit("let ");
    reveal_strlit(" = ");
    reveal_strlit("return ");
    assert("if "@ =~= seq!['i', 'f', ' ']);
    assert(" { "@ =~= seq![' ', '{', ' ']);
    assert(" }"@ =~= seq![' ', '}']);
    assert(" else"@ =~= seq![' ', 'e', 'l', 's', 'e']);
    assert(" } else { "@ =~= seq![' ', '}', ' ', 'e', 'l', 's', 'e', ' ', '{', ' ']);
    assert("let "@ =~= seq!['l', 'e', 't', ' ']);
    assert(" = "@ =~= seq![' ', '=', ' ']);
    assert("return "@ =~= seq!['r', 'e', 't', 'u', 'r', 'n', ' ']);
}

/// The text of an `if` expression, block by block.
pub proof fn lemma_if_text(e: ExpressionView)
    requires
        e is If,
    ensures
        e.text() == "if "@ + e->If_0.text() + braced_text(e->If_1) + match e->If_2 {
            Some(alt) => " else"@ + braced_text(alt),
            None => Seq::empty(),
        },
{
    lemma_phrases();
    let whole = "if "@ + e->If_0.text() + braced_text(e->If_1) + match e->If_2 {
        Some(alt) => " else"@ + braced_text(alt),
        None => Seq::empty(),
    };
    assert(e.text() =~= whole);
}

/// Where the text of a canonical `if` expression stands in a text, the
/// tokens from there on are those of the expression and those behind it.
pub proof fn lemma_lex_if(u: Seq<char>, i: int, e: ExpressionView)
    requires
        canonical(e),
        e is If,
        0 <= i,
        i + e.text().len() <= u.len(),
        u.subrange(i, i + e.text().len()) == e.text(),
    ensures
        tokenize(u, i) == tokens_of(e) + tokenize(u, i + e.text().len()),
    decreases e, 0int,
{
    lemma_marks();
    lemma_keywords();
    lemma_phrases();
    lemma_if_text(e);
    let c = *e->If_0;
    let consequence = e->If_1;
    let whole = e.text();
    let nc = c.text().len() as int;
    let n1 = braced_text(consequence).len() as int;
    // the keyword
    assert(whole.subrange(0, 2) =~= TokenView::If.text());
    lemma_piece(u, i, whole, 0, TokenView::If.text());
    assert(whole[2] == ' ');
    assert(u[i + 2] == whole[2]);
    lemma_lex_token(u, i, TokenView::If);
    lemma_lex_blank(u, i + 2);
    // the condition
    assert(whole.subrange(3, 3 + nc) =~= c.text());
    lemma_piece(u, i, whole, 3, c.text());
    assert(whole[3 + nc] == ' ');
    assert(u[i + (3 + nc)] == whole[3 + nc]);
    lemma_lex_expression(u, i + 3, c);
    // the consequence
    assert(whole.subrange(3 + nc, 3 + nc + n1) =~= braced_text(consequence));
    lemma_piece(u, i, whole, 3 + nc, braced_text(consequence));
    lemma_lex_braced(u, i + 3 + nc, consequence);
    match e->If_2 {
        Some(alt) => {
            let n2 = braced_text(alt).len() as int;
            let at = 3 + nc + n1;
            assert(whole.len() == at + 5 + n2);
            assert(whole[at] == ' ');
            assert(u[i + at] == whole[at]);
            lemma_lex_blank(u, i + at);
            assert(whole.subrange(at + 1, at + 5) =~= TokenView::Else.text());
            lemma_piece(u, i, whole, at + 1, TokenView::Else.text());
            assert(whole[at + 5] == ' ');
            assert(u[i + (at + 5)] == whole[at + 5]);
            lemma_lex_token(u, i + at + 1, TokenView::Else);
            assert(whole.subrange(at + 5, at + 5 + n2) =~= braced_text(alt));
            lemma_piece(u, i, whole, at + 5, braced_text(alt));
            lemma_lex_braced(u, i + at + 5, alt);
            assert(tokenize(u, i) =~= tokens_of(e) + tokenize(u, i + whole.len()));
        },
        None => {
            assert(whole.len() == 3 + nc + n1);
            assert(tokenize(u, i) =~= tokens_of(e) + tokenize(u, i + whole.len()));
        },
    }
}

/// Where the text of a canonical block in its braces stands in a text, the
/// tokens from there on are those of the block and those behind it.
pub proof fn lemma_lex_braced(u: Seq<char>, i: int, ss: Seq<StatementView>)
    requires
        canonical_block(ss),
        0 <= i,
        i + braced_text(ss).len() <= u.len(),
        u.subrange(i, i + braced_text(ss).len()) == braced_text(ss),
    ensures
        tokenize(u, i) == braced_tokens(ss) + tokenize(u, i + braced_text(ss).len()),
    decreases ss, 3int,
{
    lemma_marks();
    lemma_phrases();
    let whole = braced_text(ss);
    let n = statements_text(ss).len() as int;
    assert(whole.len() == n + 5);
    assert(whole.subrange(0, 0) =~= Seq::<char>::empty());
    lemma_piece(u, i, whole, 0, Seq::empty());
    assert(whole[0] == ' ');
    assert(u[i + 0] == whole[0]);
    lemma_lex_blank(u, i);
    assert(whole.subrange(1, 2) =~= TokenView::LBrace.text());
    lemma_piece(u, i, whole, 1, TokenView::LBrace.text());
    lemma_lex_token(u, i + 1, TokenView::LBrace);
    assert(whole[2] == ' ');
    assert(u[i + 2] == whole[2]);
    lemma_lex_blank(u, i + 2);
    assert(whole.subrange(3, 3 + n) =~= statements_text(ss));
    lemma_piece(u, i, whole, 3, statements_text(ss));
    assert(whole[3 + n] == ' ');
    assert(u[i + (3 + n)] == whole[3 + n]);
    lemma_lex_block(u, i + 3, ss);
    lemma_lex_blank(u, i + 3 + n);
    assert(whole.subrange(4 + n, 5 + n) =~= TokenView::RBrace.text());
    lemma_piece(u, i, whole, 4 + n, TokenView::RBrace.text());
    lemma_lex_token(u, i + 4 + n, TokenView::RBrace);
    assert(tokenize(u, i) =~= braced_tokens(ss) + tokenize(u, i + whole.len()));
}

/// Where the text of a canonical block stands in a text, and no word
/// character follows it unless it ends with a semicolon, a parenthesis or a
/// brace, the tokens from there on are those of the block and those behind
/// it.
pub proof fn lemma_lex_block(u: Seq<char>, i: int, ss: Seq<StatementView>)
    requires
        canonical_block(ss),
        0 <= i,
        i + statements_text(ss).len() <= u.len(),
        u.subrange(i, i + statements_text(ss).len()) == statements_text(ss),
        ss.len() > 0 && ss.last() is Expr ==> ends_with_mark(ss.last()->Expr_0) || !is_word_char(
            char_at(u, i + statements_text(ss).len()),
        ),
    ensures
        tokenize(u, i) == block_tokens(ss) + tokenize(u, i + statements_text(ss).len()),
    decreases ss, 2int,
{
    let whole = statements_text(ss);
    if ss.len() == 0 {
        assert(tokenize(u, i) =~= block_tokens(ss) + tokenize(u, i));
    } else {
        let front = ss.drop_last();
        let last = ss.last();
        let nf = statements_text(front).len() as int;
        let nl = last.text().len() as int;
        assert(whole.len() == nf + nl);
        assert(whole.subrange(0, nf) =~= statements_text(front));
        lemma_piece(u, i, whole, 0, statements_text(front));
        if front.len() > 0 {
            assert(front.last() == ss[ss.len() - 2]);
        }
        lemma_lex_block(u, i, front);
        assert(whole.subrange(nf, nf + nl) =~= last.text());
        lemma_piece(u, i, whole, nf, last.text());
        lemma_lex_statement(u, i + nf, last);
        assert(tokenize(u, i) =~= block_tokens(ss) + tokenize(u, i + whole.len()));
    }
}

/// Where the text of a canonical statement stands in a text, and no word
/// character follows it if it ends with a name or a number, the tokens
/// from there on are those of the statement and those behind it.
pub proof fn lemma_lex_statement(u: Seq<char>, i: int, s: StatementView)
    requires
        canonical_statement(s),
        0 <= i,
        i + s.text().len() <= u.len(),
        u.subrange(i, i + s.text().len()) == s.text(),
        s is Expr ==> ends_with_mark(s->Expr_0) || !is_word_char(char_at(u, i + s.text().len())),
    ensures
        tokenize(u, i) == statement_tokens(s) + tokenize(u, i + s.text().len()),
    decreases s, 1int,
{
    match s {
        StatementView::Let(name, e) => {
            lemma_lex_let(u, i, s);
        },
        StatementView::Return(e) => {
            lemma_lex_return(u, i, s);
        },
        StatementView::Expr(e) => {
            lemma_lex_expression(u, i, e);
        },
    }
}

/// Where the text of a canonical `let` stands in a text, the tokens from
/// there on are those of the statement and those behind it.
pub proof fn lemma_lex_let(u: Seq<char>, i: int, s: StatementView)
    requires
        canonical_statement(s),
        s is Let,
        0 <= i,
        i + s.text().len() <= u.len(),
        u.subrange(i, i + s.text().len()) == s.text(),
    ensures
        tokenize(u, i) == statement_tokens(s) + tokenize(u, i + s.text().len()),
    decreases s, 0int,
{
    lemma_marks();
    lemma_keywords();
    lemma_phrases();
    let name = s->Let_0;
    let e = s->Let_1;
    let whole = s.text();
    let nn = name.len() as int;
    let ne = e.text().len() as int;
    assert(whole.len() == 8 + nn + ne);
    // the keyword
    assert(whole.subrange(0, 3) =~= TokenView::Let.text());
    lemma_piece(u, i, whole, 0, TokenView::Let.text());
    assert(whole[3] == ' ');
    assert(u[i + 3] == whole[3]);
    lemma_lex_token(u, i, TokenView::Let);
    lemma_lex_blank(u, i + 3);
    // the name
    assert(whole.subrange(4, 4 + nn) =~= TokenView::Ident(name).text());
    lemma_piece(u, i, whole, 4, TokenView::Ident(name).text());
    assert(whole[4 + nn] == ' ');
    assert(u[i + (4 + nn)] == whole[4 + nn]);
    lemma_lex_token(u, i + 4, TokenView::Ident(name));
    lemma_lex_blank(u, i + 4 + nn);
    // the equals sign
    assert(whole.subrange(5 + nn, 6 + nn) =~= TokenView::Assign.text());
    lemma_piece(u, i, whole, 5 + nn, TokenView::Assign.text());
    assert(whole[6 + nn] == ' ');
    assert(u[i + (6 + nn)] == whole[6 + nn]);
    lemma_lex_token(u, i + 5 + nn, TokenView::Assign);
    lemma_lex_blank(u, i + 6 + nn);
    // the value
    assert(whole.subrange(7 + nn, 7 + nn + ne) =~= e.text());
    lemma_piece(u, i, whole, 7 + nn, e.text());
    assert(whole[7 + nn + ne] == ';');
    assert(u[i + (7 + nn + ne)] == whole[7 + nn + ne]);
    lemma_lex_expression(u, i + 7 + nn, e);
    // the semicolon
    assert(whole.subrange(7 + nn + ne, 8 + nn + ne) =~= TokenView::Semicolon.text());
    lemma_piece(u, i, whole, 7 + nn + ne, TokenView::Semicolon.text());
    lemma_lex_token(u, i + 7 + nn + ne, TokenView::Semicolon);
    assert(tokenize(u, i) =~= statement_tokens(s) + tokenize(u, i + whole.len()));
}

/// Where the text of a canonical `return` stands in a text, the tokens
/// from there on are those of the statement and those behind it.
pub proof fn lemma_lex_return(u: Seq<char>, i: int, s: StatementView)
    requires
        canonical_statement(s),
        s is Return,
        0 <= i,
        i + s.text().len() <= u.len(),
        u.subrange(i, i + s.text().len()) == s.text(),
    ensures
        tokenize(u, i) == statement_tokens(s) + tokenize(u, i + s.text().len()),
    decreases s, 0int,
{
    lemma_marks();
    lemma_keywords();
    lemma_phrases();
    let e = s->Return_0;
    let whole = s.text();
    let ne = e.text().len() as int;
    assert(whole.len() == 8 + ne);
    // the keyword
    assert(whole.subrange(0, 6) =~= TokenView::Return.text());
    lemma_piece(u, i, whole, 0, TokenView::Return.text());
    assert(whole[6] == ' ');
    assert(u[i + 6] == whole[6]);
    lemma_lex_token(u, i, TokenView::Return);
    lemma_lex_blank(u, i + 6);
    // the value
    assert(whole.subrange(7, 7 + ne) =~= e.text());
    lemma_piece(u, i, whole, 7, e.text());
    assert(whole[7 + ne] == ';');
    assert(u[i + (7 + ne)] == whole[7 + ne]);
    lemma_lex_expression(u, i + 7, e);
    // the semicolon
    assert(whole.subrange(7 + ne, 8 + ne) =~= TokenView::Semicolon.text());
    lemma_piece(u, i, whole, 7 + ne, TokenView::Semicolon.text());
    lemma_lex_token(u, i + 7 + ne, TokenView::Semicolon);
    assert(tokenize(u, i) =~= statement_tokens(s) + tokenize(u, i + whole.len()));
}

} // verus!
