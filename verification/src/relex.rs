//! Spelling tokens and lexing the spelling again.

use crate::lexer::{char_at, decimal_value, digits_end, is_digit, is_letter, is_space, is_word_char, lemma_skip_spaces_bounds, lemma_token_at_advances, lemma_word_end_bounds, skip_spaces, token_at, tokenize, word_end, tokens_view};
use crate::text::{digit_char, nat_text};
use crate::token::{keyword_or_ident, Token, TokenView};
use vstd::prelude::*;
use vstd::string::StringExecFns;

verus! {

/// Whether `w` is a name: a letter, then letters, digits and underscores,
/// and no keyword.
pub open spec fn is_name(w: Seq<char>) -> bool {
    &&& w.len() > 0
    &&& is_letter(w[0])
    &&& forall|i: int| 0 <= i < w.len() ==> is_word_char(#[trigger] w[i])
    &&& keyword_or_ident(w) == TokenView::Ident(w)
}

/// Whether the lexer reads the token's spelling as the token again. An
/// illegal token, a string, whose spelling has no quotes, and a negative
/// number do not; nor does an identifier that is no name.
pub open spec fn spells_itself(t: TokenView) -> bool {
    match t {
        TokenView::Illegal(_) => false,
        TokenView::Eof => false,
        TokenView::String(_) => false,
        TokenView::Ident(w) => is_name(w),
        TokenView::Int(v) => v >= 0,
        _ => true,
    }
}

/// Whether the spelling of `t` ends where `next` follows it: a word ends
/// before anything but a letter, a digit or an underscore, a number before
/// anything but a digit, and `=` and `!` before anything but `=`.
pub open spec fn ends_before(t: TokenView, next: char) -> bool {
    match t {
        TokenView::Ident(_) => !is_word_char(next),
        TokenView::Boolean(_) => !is_word_char(next),
        TokenView::Fn => !is_word_char(next),
        TokenView::Let => !is_word_char(next),
        TokenView::If => !is_word_char(next),
        TokenView::Else => !is_word_char(next),
        TokenView::Return => !is_word_char(next),
        TokenView::Int(_) => !is_digit(next),
        TokenView::Assign => next != '=',
        TokenView::Bang => next != '=',
        _ => true,
    }
}

/// The spellings of the tokens, a blank behind each.
pub open spec fn spelled(toks: Seq<TokenView>) -> Seq<char>
    decreases toks.len(),
{
    if toks.len() == 0 {
        Seq::empty()
    } else {
        toks[0].text() + seq![' '] + spelled(toks.drop_first())
    }
}

/// A run of word characters with none behind it ends where it ends.
pub proof fn lemma_word_end_known(u: Seq<char>, i: int, e: int)
    requires
        0 <= i <= e <= u.len(),
        forall|k: int| i <= k < e ==> is_word_char(#[trigger] u[k]),
        !is_word_char(char_at(u, e)),
    ensures
        word_end(u, i) == e,
    decreases e - i,
{
    if i < e {
        lemma_word_end_known(u, i + 1, e);
    }
}

/// A run of digits with none behind it ends where it ends.
pub proof fn lemma_digits_end_known(u: Seq<char>, i: int, e: int)
    requires
        0 <= i <= e <= u.len(),
        forall|k: int| i <= k < e ==> is_digit(#[trigger] u[k]),
        !is_digit(char_at(u, e)),
    ensures
        digits_end(u, i) == e,
    decreases e - i,
{
    if i < e {
        lemma_digits_end_known(u, i + 1, e);
    }
}

/// The word that the lexer reads holds word characters only.
pub proof fn lemma_word_end_run(u: Seq<char>, i: int)
    requires
        0 <= i <= u.len(),
    ensures
        forall|k: int| i <= k < word_end(u, i) ==> is_word_char(#[trigger] u[k]),
    decreases u.len() - i,
{
    if i < u.len() && is_word_char(u[i]) {
        lemma_word_end_run(u, i + 1);
    }
}

/// The decimal spelling of a number holds digits only, and at least one.
pub proof fn lemma_nat_text_digits(n: nat)
    ensures
        nat_text(n).len() > 0,
        forall|k: int| 0 <= k < nat_text(n).len() ==> is_digit(#[trigger] nat_text(n)[k]),
    decreases n,
{
    if n >= 10 {
        lemma_nat_text_digits(n / 10);
    }
}

/// The decimal spelling of a number spells that number.
pub proof fn lemma_nat_text_value(n: nat)
    ensures
        decimal_value(nat_text(n)) == n,
    decreases n,
{
    if n < 10 {
        let s = nat_text(n);
        assert(s.drop_last().len() == 0);
        assert(decimal_value(s.drop_last()) == 0);
        assert(s.last() == digit_char(n as int));
    } else {
        lemma_nat_text_value(n / 10);
        let s = nat_text(n);
        assert(s.drop_last() =~= nat_text(n / 10));
        assert(s.last() == digit_char((n % 10) as int));
    }
}

/// The keywords, letter by letter.
pub proof fn lemma_keywords()
    ensures
        "fn"@ == seq!['f', 'n'],
        "let"@ == seq!['l', 'e', 't'],
        "true"@ == seq!['t', 'r', 'u', 'e'],
        "false"@ == seq!['f', 'a', 'l', 's', 'e'],
        "if"@ == seq!['i', 'f'],
        "else"@ == seq!['e', 'l', 's', 'e'],
        "return"@ == seq!['r', 'e', 't', 'u', 'r', 'n'],
{
    reveal_strlit("fn");
    reveal_strlit("let");
    reveal_strlit("true");
    reveal_strlit("false");
    reveal_strlit("if");
    reveal_strlit("else");
    reveal_strlit("return");
    assert("fn"@ =~= seq!['f', 'n']);
    assert("let"@ =~= seq!['l', 'e', 't']);
    assert("true"@ =~= seq!['t', 'r', 'u', 'e']);
    assert("false"@ =~= seq!['f', 'a', 'l', 's', 'e']);
    assert("if"@ =~= seq!['i', 'f']);
    assert("else"@ =~= seq!['e', 'l', 's', 'e']);
    assert("return"@ =~= seq!['r', 'e', 't', 'u', 'r', 'n']);
}

/// The operators and delimiters, character by character.
pub proof fn lemma_marks()
    ensures
        "="@ == seq!['='],
        "+"@ == seq!['+'],
        "-"@ == seq!['-'],
        "!"@ == seq!['!'],
        "*"@ == seq!['*'],
        "/"@ == seq!['/'],
        "!="@ == seq!['!', '='],
        "=="@ == seq!['=', '='],
        "<"@ == seq!['<'],
        ">"@ == seq!['>'],
        ","@ == seq![','],
        ";"@ == seq![';'],
        "("@ == seq!['('],
        ")"@ == seq![')'],
        "{"@ == seq!['{'],
        "}"@ == seq!['}'],
        "["@ == seq!['['],
        "]"@ == seq![']'],
        " "@ == seq![' '],
        ", "@ == seq![',', ' '],
{
    reveal_strlit(" ");
    reveal_strlit(", ");
    assert(" "@ =~= seq![' ']);
    assert(", "@ =~= seq![',', ' ']);
    reveal_strlit("=");
    reveal_strlit("+");
    reveal_strlit("-");
    reveal_strlit("!");
    reveal_strlit("*");
    reveal_strlit("/");
    reveal_strlit("!=");
    reveal_strlit("==");
    reveal_strlit("<");
    reveal_strlit(">");
    reveal_strlit(",");
    reveal_strlit(";");
    reveal_strlit("(");
    reveal_strlit(")");
    reveal_strlit("{");
    reveal_strlit("}");
    reveal_strlit("[");
    reveal_strlit("]");
    assert("="@ =~= seq!['=']);
    assert("+"@ =~= seq!['+']);
    assert("-"@ =~= seq!['-']);
    assert("!"@ =~= seq!['!']);
    assert("*"@ =~= seq!['*']);
    assert("/"@ =~= seq!['/']);
    assert("!="@ =~= seq!['!', '=']);
    assert("=="@ =~= seq!['=', '=']);
    assert("<"@ =~= seq!['<']);
    assert(">"@ =~= seq!['>']);
    assert(","@ =~= seq![',']);
    assert(";"@ =~= seq![';']);
    assert("("@ =~= seq!['(']);
    assert(")"@ =~= seq![')']);
    assert("{"@ =~= seq!['{']);
    assert("}"@ =~= seq!['}']);
    assert("["@ =~= seq!['[']);
    assert("]"@ =~= seq![']']);
}

/// The characters of a part of a text, one by one.
proof fn lemma_part(u: Seq<char>, i: int, w: Seq<char>)
    requires
        0 <= i,
        i + w.len() <= u.len(),
        u.subrange(i, i + w.len()) == w,
    ensures
        forall|k: int| 0 <= k < w.len() ==> u[i + k] == #[trigger] w[k],
{
    assert forall|k: int| 0 <= k < w.len() implies u[i + k] == #[trigger] w[k] by {
        assert(u.subrange(i, i + w.len())[k] == u[i + k]);
    }
}

/// A word that stands in a text, with no word character behind it, is read
/// as the token that the keyword table gives for it.
proof fn lemma_word_at(u: Seq<char>, i: int, w: Seq<char>)
    requires
        0 <= i,
        i + w.len() <= u.len(),
        u.subrange(i, i + w.len()) == w,
        w.len() > 0,
        is_letter(w[0]),
        forall|k: int| 0 <= k < w.len() ==> is_word_char(#[trigger] w[k]),
        !is_word_char(char_at(u, i + w.len())),
    ensures
        token_at(u, i) == (keyword_or_ident(w), i + w.len()),
        !is_space(u[i]),
{
    lemma_part(u, i, w);
    assert(u[i + 0] == w[0]);
    assert forall|k: int| i <= k < i + w.len() implies is_word_char(#[trigger] u[k]) by {
        assert(u[i + (k - i)] == w[k - i]);
    }
    lemma_word_end_known(u, i, i + w.len());
}

/// A number that stands in a text in decimal, with no digit behind it, is
/// read as that number.
proof fn lemma_number_at(u: Seq<char>, i: int, v: i64)
    requires
        v >= 0,
        0 <= i,
        i + nat_text(v as nat).len() <= u.len(),
        u.subrange(i, i + nat_text(v as nat).len()) == nat_text(v as nat),
        !is_digit(char_at(u, i + nat_text(v as nat).len())),
    ensures
        token_at(u, i) == (TokenView::Int(v), i + nat_text(v as nat).len()),
        !is_space(u[i]),
{
    let w = nat_text(v as nat);
    lemma_nat_text_digits(v as nat);
    lemma_nat_text_value(v as nat);
    lemma_part(u, i, w);
    assert(u[i + 0] == w[0]);
    assert forall|k: int| i <= k < i + w.len() implies is_digit(#[trigger] u[k]) by {
        assert(u[i + (k - i)] == w[k - i]);
    }
    lemma_digits_end_known(u, i, i + w.len());
}

/// Where the spelling of a token stands in a text and ends there, the lexer
/// reads that token and stops behind it.
pub proof fn lemma_token_at_spelling(u: Seq<char>, i: int, t: TokenView)
    requires
        spells_itself(t),
        0 <= i,
        i + t.text().len() <= u.len(),
        u.subrange(i, i + t.text().len()) == t.text(),
        ends_before(t, char_at(u, i + t.text().len())),
    ensures
        t.text().len() > 0,
        !is_space(u[i]),
        token_at(u, i) == (t, i + t.text().len()),
{
    lemma_keywords();
    lemma_marks();
    let w = t.text();
    match t {
        TokenView::Ident(name) => {
            lemma_word_at(u, i, name);
        },
        TokenView::Int(v) => {
            lemma_number_at(u, i, v);
        },
        TokenView::Boolean(b) => {
            lemma_word_at(u, i, w);
        },
        TokenView::Fn => {
            lemma_word_at(u, i, w);
        },
        TokenView::Let => {
            lemma_word_at(u, i, w);
        },
        TokenView::If => {
            lemma_word_at(u, i, w);
        },
        TokenView::Else => {
            lemma_word_at(u, i, w);
        },
        TokenView::Return => {
            lemma_word_at(u, i, w);
        },
        _ => {
            lemma_part(u, i, w);
            assert(u[i + 0] == w[0]);
            if w.len() > 1 {
                assert(u[i + 1] == w[1]);
            }
        },
    }
}

/// Where the spelling of a token stands in a text and ends there, the
/// tokens from there on are that token and those behind it.
pub proof fn lemma_lex_token(u: Seq<char>, i: int, t: TokenView)
    requires
        spells_itself(t),
        0 <= i,
        i + t.text().len() <= u.len(),
        u.subrange(i, i + t.text().len()) == t.text(),
        ends_before(t, char_at(u, i + t.text().len())),
    ensures
        tokenize(u, i) == seq![t] + tokenize(u, i + t.text().len()),
{
    lemma_token_at_spelling(u, i, t);
    assert(skip_spaces(u, i) == i);
}

/// A blank before the tokens changes nothing.
pub proof fn lemma_lex_blank(u: Seq<char>, i: int)
    requires
        0 <= i < u.len(),
        u[i] == ' ',
    ensures
        tokenize(u, i) == tokenize(u, i + 1),
{
    assert(skip_spaces(u, i) == skip_spaces(u, i + 1));
    lemma_skip_spaces_bounds(u, i + 1);
}

/// Lexing the spelling of tokens that spell themselves gives the tokens
/// back, whatever stands before the spelling.
pub proof fn lemma_relex_after(before: Seq<char>, toks: Seq<TokenView>)
    requires
        forall|k: int| 0 <= k < toks.len() ==> spells_itself(#[trigger] toks[k]),
    ensures
        tokenize(before + spelled(toks), before.len() as int) == toks,
    decreases toks.len(),
{
    let u = before + spelled(toks);
    let i = before.len() as int;
    if toks.len() == 0 {
        assert(u.len() == i);
        assert(tokenize(u, i) =~= toks);
    } else {
        let t = toks[0];
        let rest = toks.drop_first();
        let n = t.text().len() as int;
        assert(u.subrange(i, i + n) =~= t.text());
        assert(u[i + n] == ' ');
        lemma_token_at_spelling(u, i, t);
        let further = before + t.text() + seq![' '];
        assert(u =~= further + spelled(rest));
        assert forall|k: int| 0 <= k < rest.len() implies spells_itself(#[trigger] rest[k]) by {
            assert(rest[k] == toks[k + 1]);
        }
        lemma_relex_after(further, rest);
        assert(skip_spaces(u, i) == i);
        assert(skip_spaces(u, i + n) == skip_spaces(u, i + n + 1));
        lemma_skip_spaces_bounds(u, i + n + 1);
        assert(tokenize(u, i + n) == tokenize(u, i + n + 1));
        assert(tokenize(u, i) =~= seq![t] + tokenize(u, i + n));
        assert(seq![t] + rest =~= toks);
    }
}

/// Every token that the lexer reads spells itself, unless it is illegal or
/// a string.
pub proof fn lemma_tokens_spell_themselves(s: Seq<char>, i: int)
    requires
        0 <= i <= s.len(),
    ensures
        forall|k: int|
            0 <= k < tokenize(s, i).len() ==> {
                let t = #[trigger] tokenize(s, i)[k];
                t is Illegal || t is String || spells_itself(t)
            },
    decreases s.len() - i,
{
    let start = skip_spaces(s, i);
    lemma_skip_spaces_bounds(s, i);
    let found = token_at(s, start);
    lemma_token_at_advances(s, start);
    if !(found.0 is Eof) {
        lemma_tokens_spell_themselves(s, found.1);
        lemma_word_end_run(s, start);
        lemma_word_end_bounds(s, start);
        let t = found.0;
        if is_letter(s[start]) {
            let w = s.subrange(start, word_end(s, start));
            assert(word_end(s, start) > start);
            assert(w[0] == s[start]);
            assert forall|k: int| 0 <= k < w.len() implies is_word_char(#[trigger] w[k]) by {
                assert(w[k] == s[start + k]);
            }
        }
        assert(t is Illegal || t is String || spells_itself(t));
        assert forall|k: int| 0 <= k < tokenize(s, i).len() implies {
            let x = #[trigger] tokenize(s, i)[k];
            x is Illegal || x is String || spells_itself(x)
        } by {
            if k > 0 {
                assert(tokenize(s, i)[k] == tokenize(s, found.1)[k - 1]);
            }
        }
    }
}

/// Spelling the tokens of a text, a blank behind each, and lexing the
/// spelling gives the same tokens again, for every text that holds no
/// illegal token and no string.
pub proof fn lemma_relex_spelling(s: Seq<char>)
    requires
        forall|k: int|
            0 <= k < tokenize(s, 0).len() ==> !(#[trigger] tokenize(s, 0)[k] is Illegal)
                && !(tokenize(s, 0)[k] is String),
    ensures
        tokenize(spelled(tokenize(s, 0)), 0) == tokenize(s, 0),
{
    lemma_tokens_spell_themselves(s, 0);
    let toks = tokenize(s, 0);
    lemma_relex_after(Seq::empty(), toks);
    assert(Seq::<char>::empty() + spelled(toks) =~= spelled(toks));
}

/// The spellings of the tokens, a blank behind each.
pub fn spell(tokens: &Vec<Token>) -> (r: String)
    ensures
        r@ == spelled(tokens_view(*tokens)),
{
    let ghost all = tokens_view(*tokens);
    let mut out = String::new();
    let mut i: usize = 0;
    assert(all.subrange(0, all.len() as int) =~= all);
    assert(out@ + spelled(all) =~= spelled(all));
    while i < tokens.len()
        invariant
            i <= tokens.len(),
            all == tokens_view(*tokens),
            out@ + spelled(all.subrange(i as int, all.len() as int)) == spelled(all),
        decreases tokens.len() - i,
    {
        let ghost left = all.subrange(i as int, all.len() as int);
        let ghost before = out@;
        proof {
            lemma_marks();
            assert(left[0] == tokens[i as int]@);
            assert(left.drop_first() =~= all.subrange(i + 1, all.len() as int));
        }
        tokens[i].write_to(&mut out);
        out.append(" ");
        i = i + 1;
        assert(out@ + spelled(all.subrange(i as int, all.len() as int)) =~= before + spelled(left));
    }
    assert(spelled(all.subrange(i as int, all.len() as int)) =~= Seq::empty());
    assert(out@ + Seq::<char>::empty() =~= out@);
    out
}

} // verus!
