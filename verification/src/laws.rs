//! Properties that relate the pipeline's stages across calls: scanning a
//! lone numeric literal, rejection of unknown external names, and the
//! render/scan/parse round trip.

use vstd::prelude::*;
use crate::scanner::TokenModel;
use crate::scanner::alnum_run;
use crate::scanner::digit_run;
use crate::scanner::number_run;
use crate::scanner::scan_token;
use crate::scanner::spec_is_alnum;
use crate::scanner::spec_is_alpha;
use crate::scanner::spec_is_digit;
use crate::scanner::spec_is_operator;
use crate::scanner::spec_is_space;
use crate::scanner::spec_render;
use crate::scanner::spec_render_rest;
use crate::scanner::spec_tokenize;
use crate::scanner::token_text;
use crate::scanner::token_wf;
use crate::scanner::valid_name_text;
use crate::scanner::valid_number_text;
use crate::parser::AstModel;
use crate::parser::SynErrModel;
use crate::parser::spec_parse;
use crate::parser::spec_parse_add;
use crate::parser::spec_parse_add_more;
use crate::parser::spec_parse_args;
use crate::parser::spec_parse_expr;
use crate::parser::spec_parse_mul;
use crate::parser::spec_parse_mul_more;
use crate::parser::spec_parse_pow;
use crate::parser::spec_parse_pow_more;
use crate::parser::spec_parse_primary;
use crate::parser::spec_parse_unary;
use crate::parser::spec_resolve_fn;

verus! {

// ----------------------------------------------------------------------
// Runs of digits
// ----------------------------------------------------------------------

/// The digit run is a maximal all-digit prefix.
proof fn lemma_digit_run_bounds(s: Seq<char>)
    ensures
        digit_run(s) <= s.len(),
        forall|k: int| 0 <= k < digit_run(s) ==> spec_is_digit(#[trigger] s[k]),
        digit_run(s) < s.len() ==> !spec_is_digit(s[digit_run(s) as int]),
    decreases s.len(),
{
    if s.len() > 0 && spec_is_digit(s[0]) {
        lemma_digit_run_bounds(s.skip(1));
        assert forall|k: int| 0 <= k < digit_run(s) implies spec_is_digit(#[trigger] s[k]) by {
            if k > 0 {
                assert(s.skip(1)[k - 1] == s[k]);
            }
        }
        if digit_run(s) < s.len() {
            assert(s.skip(1)[digit_run(s) - 1] == s[digit_run(s) as int]);
        }
    }
}

/// The digit run of an all-digit text followed by anything that does not
/// start with a digit is exactly the text.
proof fn lemma_digit_run_concat(a: Seq<char>, b: Seq<char>)
    requires
        forall|k: int| 0 <= k < a.len() ==> spec_is_digit(#[trigger] a[k]),
        b.len() == 0 || !spec_is_digit(b[0]),
    ensures
        digit_run(a + b) == a.len(),
    decreases a.len(),
{
    if a.len() == 0 {
        assert(a + b =~= b);
    } else {
        assert((a + b)[0] == a[0]);
        assert((a + b).skip(1) =~= a.skip(1) + b);
        assert forall|k: int| 0 <= k < a.skip(1).len() implies spec_is_digit(
            #[trigger] a.skip(1)[k],
        ) by {
            assert(a.skip(1)[k] == a[k + 1]);
        }
        lemma_digit_run_concat(a.skip(1), b);
    }
}

// ----------------------------------------------------------------------
// Scanning one token at a boundary
// ----------------------------------------------------------------------

/// A valid numeric literal followed by nothing or by a space scans as one
/// number token carrying exactly the literal.
proof fn lemma_scan_number(x: Seq<char>, b: Seq<char>)
    requires
        valid_number_text(x),
        b.len() == 0 || b[0] == ' ',
    ensures
        number_run(x + b) == x.len(),
        scan_token(x + b) == Some::<(TokenModel, nat)>(
            (TokenModel::Number { text: x }, x.len() as nat),
        ),
{
    let s = x + b;
    let d = digit_run(x);
    lemma_digit_run_bounds(x);
    if d == x.len() {
        lemma_digit_run_concat(x, b);
        assert(digit_run(s) == x.len());
        if (x.len() as int) < s.len() {
            assert(s[x.len() as int] == b[0]);
        }
        assert(number_run(s) == x.len());
    } else {
        // x is digits, a point, then digits
        assert(x[d as int] == '.');
        let a1 = x.take(d as int);
        let mid = x.skip(d as int) + b;
        assert(s =~= a1 + mid);
        assert(mid[0] == x[d as int]);
        assert forall|k: int| 0 <= k < a1.len() implies spec_is_digit(#[trigger] a1[k]) by {
            assert(a1[k] == x[k]);
        }
        lemma_digit_run_concat(a1, mid);
        assert(digit_run(s) == d);
        assert(s[d as int] == x[d as int]);
        let a2 = x.skip(d as int + 1);
        assert(s.skip(d as int + 1) =~= a2 + b);
        assert forall|k: int| 0 <= k < a2.len() implies spec_is_digit(#[trigger] a2[k]) by {
            assert(a2[k] == x[k + d + 1]);
        }
        lemma_digit_run_concat(a2, b);
        assert(number_run(s) == d + 1 + (x.len() - d - 1));
    }
    assert(s.take(x.len() as int) =~= x);
    assert(s[0] == x[0]);
}

/// A parenthesis, comma or operator token followed by anything scans as
/// itself, consuming one character.
proof fn lemma_scan_single(t: TokenModel, b: Seq<char>)
    requires
        token_wf(t),
        t is LeftPar || t is RightPar || t is Comma || t is Operator,
    ensures
        scan_token(token_text(t) + b) == Some::<(TokenModel, nat)>((t, 1nat)),
{
    let s = token_text(t) + b;
    assert(s[0] == token_text(t)[0]);
    assert(s.len() >= 1);
}

// ----------------------------------------------------------------------
// Scanning a rendered token sequence
// ----------------------------------------------------------------------

/// Tokens that render to re-scannable text: well formed and not external
/// (an external call's rendering drops the `(` that the scanner needs).
pub open spec fn simple_tokens(ts: Seq<TokenModel>) -> bool {
    forall|i: int|
        0 <= i < ts.len() ==> token_wf(#[trigger] ts[i]) && !(ts[i] is External)
}

proof fn lemma_retokenize_chunk(ts: Seq<TokenModel>)
    requires
        ts.len() > 0,
        simple_tokens(ts),
    ensures
        spec_tokenize(spec_render(ts)) == Ok::<Seq<TokenModel>, nat>(ts),
    decreases ts.len(), 0int,
{
    let t0 = ts[0];
    let text = token_text(t0);
    let rest = spec_render_rest(ts.skip(1));
    let s = text + rest;
    assert(spec_render(ts) == s);
    assert(ts.skip(1).len() == 0 || rest[0] == ' ');
    if t0 is Number {
        lemma_scan_number(text, rest);
    } else {
        lemma_scan_single(t0, rest);
        assert(text.len() == 1);
    }
    assert(scan_token(s) == Some::<(TokenModel, nat)>((t0, text.len() as nat)));
    assert(s[0] == text[0]);
    assert(s.skip(text.len() as int) =~= rest);
    assert forall|i: int| 0 <= i < ts.skip(1).len() implies token_wf(#[trigger] ts.skip(1)[i])
        && !(ts.skip(1)[i] is External) by {
        assert(ts.skip(1)[i] == ts[i + 1]);
    }
    lemma_retokenize_rest(ts.skip(1));
    assert(seq![t0] + ts.skip(1) =~= ts);
}

proof fn lemma_retokenize_rest(ts: Seq<TokenModel>)
    requires
        simple_tokens(ts),
    ensures
        spec_tokenize(spec_render_rest(ts)) == Ok::<Seq<TokenModel>, nat>(ts),
    decreases ts.len(), 1int,
{
    if ts.len() == 0 {
        assert(spec_render_rest(ts) =~= Seq::<char>::empty());
        assert(spec_tokenize(spec_render_rest(ts)) == Ok::<Seq<TokenModel>, nat>(Seq::empty()));
        assert(Seq::<TokenModel>::empty() =~= ts);
    } else {
        let s = spec_render_rest(ts);
        assert(s == seq![' '] + token_text(ts[0]) + spec_render_rest(ts.skip(1)));
        assert(s[0] == ' ');
        assert(s.skip(1) =~= token_text(ts[0]) + spec_render_rest(ts.skip(1)));
        lemma_retokenize_chunk(ts);
        assert(spec_render(ts) == token_text(ts[0]) + spec_render_rest(ts.skip(1)));
        assert(spec_tokenize(s.skip(1)) == Ok::<Seq<TokenModel>, nat>(ts));
        assert(s.len() > 0);
    }
}

/// Scanning the rendering of a sequence of well-formed number, operator,
/// parenthesis and comma tokens gives the sequence back.
pub proof fn lemma_render_tokenize(ts: Seq<TokenModel>)
    requires
        simple_tokens(ts),
    ensures
        spec_tokenize(spec_render(ts)) == Ok::<Seq<TokenModel>, nat>(ts),
{
    if ts.len() == 0 {
        assert(spec_render(ts) =~= Seq::<char>::empty());
        assert(Seq::<TokenModel>::empty() =~= ts);
    } else {
        lemma_retokenize_chunk(ts);
    }
}

// ----------------------------------------------------------------------
// Pipeline properties
// ----------------------------------------------------------------------

/// Scanning exactly one valid numeric literal yields exactly one number
/// token, carrying the literal's text unchanged.
pub proof fn lemma_tokenize_literal(s: Seq<char>)
    requires
        valid_number_text(s),
    ensures
        spec_tokenize(s) == Ok::<Seq<TokenModel>, nat>(seq![TokenModel::Number { text: s }]),
{
    lemma_scan_number(s, Seq::empty());
    assert(s + Seq::<char>::empty() =~= s);
    assert(scan_token(s) == Some::<(TokenModel, nat)>(
        (TokenModel::Number { text: s }, s.len() as nat),
    ));
    assert(s.skip(s.len() as int) =~= Seq::<char>::empty());
    assert(spec_tokenize(Seq::<char>::empty()) == Ok::<Seq<TokenModel>, nat>(Seq::empty()));
    assert(seq![TokenModel::Number { text: s }] + Seq::<TokenModel>::empty() =~= seq![
        TokenModel::Number { text: s },
    ]);
}

/// A call to a name that resolves to no known external function fails to
/// parse with an unknown-function error, whatever its one argument is.
pub proof fn lemma_unknown_function_rejected(name: Seq<char>, text: Seq<char>)
    requires
        spec_resolve_fn(name) is None,
    ensures
        spec_parse(
            seq![
                TokenModel::External { name },
                TokenModel::Number { text },
                TokenModel::RightPar,
            ],
        ) == Err::<AstModel, SynErrModel>(SynErrModel::UnknownFunction { name }),
{
    let ts = seq![
        TokenModel::External { name },
        TokenModel::Number { text },
        TokenModel::RightPar,
    ];
    let r = ts.reverse();
    assert(r =~= seq![
        TokenModel::RightPar,
        TokenModel::Number { text },
        TokenModel::External { name },
    ]);
    assert(r.last() == TokenModel::External { name });
    let r2 = r.drop_last();
    assert(r2 =~= seq![TokenModel::RightPar, TokenModel::Number { text }]);
    assert(r2.last() == TokenModel::Number { text });
    let r3 = r2.drop_last();
    assert(r3 =~= seq![TokenModel::RightPar]);
    assert(r3.last() == TokenModel::RightPar);
    let lit = AstModel::Literal { text };
    let step = Ok::<(AstModel, Seq<TokenModel>), SynErrModel>((lit, r3));
    assert(spec_parse_primary(r2) == step);
    assert(spec_parse_unary(r2) == step);
    assert(spec_parse_pow_more(lit, r3) == step);
    assert(spec_parse_pow(r2) == step);
    assert(spec_parse_mul_more(lit, r3) == step);
    assert(spec_parse_mul(r2) == step);
    assert(spec_parse_add_more(lit, r3) == step);
    assert(spec_parse_add(r2) == step);
    assert(spec_parse_expr(r2) == step);
    let failure = Err::<(AstModel, Seq<TokenModel>), SynErrModel>(
        SynErrModel::UnknownFunction { name },
    );
    assert(spec_parse_args(name, r2, Seq::empty()) == failure);
    assert(spec_parse_primary(r) == failure);
    assert(spec_parse_unary(r) == failure);
    assert(spec_parse_pow(r) == failure);
    assert(spec_parse_mul(r) == failure);
    assert(spec_parse_add(r) == failure);
    assert(spec_parse_expr(r) == failure);
}

/// Round trip: a token sequence of well-formed numbers, operators,
/// parentheses and commas that parses to a tree still scans back, from its
/// rendering, to the same tokens, so parsing again gives a structurally
/// equal tree.
pub proof fn lemma_render_parse_roundtrip(ts: Seq<TokenModel>, ast: AstModel)
    requires
        simple_tokens(ts),
        spec_parse(ts) == Ok::<AstModel, SynErrModel>(ast),
    ensures
        spec_tokenize(spec_render(ts)) == Ok::<Seq<TokenModel>, nat>(ts),
        match spec_tokenize(spec_render(ts)) {
            Ok(again) => spec_parse(again) == Ok::<AstModel, SynErrModel>(ast),
            Err(_) => false,
        },
{
    lemma_render_tokenize(ts);
}

} // verus!

verus! {

// ----------------------------------------------------------------------
// What the scanner produces is well formed
// ----------------------------------------------------------------------

/// The letter-or-digit run is a maximal such prefix.
proof fn lemma_alnum_run_bounds(s: Seq<char>)
    ensures
        alnum_run(s) <= s.len(),
        forall|k: int| 0 <= k < alnum_run(s) ==> spec_is_alnum(#[trigger] s[k]),
    decreases s.len(),
{
    if s.len() > 0 && spec_is_alnum(s[0]) {
        lemma_alnum_run_bounds(s.skip(1));
        assert forall|k: int| 0 <= k < alnum_run(s) implies spec_is_alnum(#[trigger] s[k]) by {
            if k > 0 {
                assert(s.skip(1)[k - 1] == s[k]);
            }
        }
    }
}

/// Whatever token the scan finds is well formed and consumes at least one
/// and at most all of the remaining characters.
proof fn lemma_scan_token_wf(s: Seq<char>)
    ensures
        match scan_token(s) {
            Some(p) => token_wf(p.0) && 1 <= p.1 <= s.len(),
            None => true,
        },
{
    if s.len() == 0 {
    } else if spec_is_digit(s[0]) {
        let d = digit_run(s);
        lemma_digit_run_bounds(s);
        let nr = number_run(s);
        let x = s.take(nr as int);
        if d < s.len() && s[d as int] == '.' {
            let tail = s.skip(d as int + 1);
            lemma_digit_run_bounds(tail);
            assert(nr == d + 1 + digit_run(tail));
            assert(nr <= s.len());
            let a1 = x.take(d as int);
            assert(x =~= a1 + x.skip(d as int));
            assert forall|k: int| 0 <= k < a1.len() implies spec_is_digit(#[trigger] a1[k]) by {
                assert(a1[k] == s[k]);
            }
            assert(x.skip(d as int)[0] == s[d as int]);
            lemma_digit_run_concat(a1, x.skip(d as int));
            assert(digit_run(x) == d);
            assert(x[d as int] == '.');
            assert forall|k: int| d < k < x.len() implies spec_is_digit(#[trigger] x[k]) by {
                assert(tail[k - d - 1] == s[k]);
                assert(x[k] == s[k]);
            }
            assert(valid_number_text(x));
        } else {
            assert(nr == d);
            assert(x + Seq::<char>::empty() =~= x);
            assert forall|k: int| 0 <= k < x.len() implies spec_is_digit(#[trigger] x[k]) by {
                assert(x[k] == s[k]);
            }
            lemma_digit_run_concat(x, Seq::<char>::empty());
            assert(digit_run(x) == x.len());
            assert(valid_number_text(x));
        }
    } else if s[0] == '(' || s[0] == ')' || s[0] == ',' || spec_is_operator(s[0]) {
    } else if spec_is_alpha(s[0]) {
        let a = alnum_run(s);
        lemma_alnum_run_bounds(s);
        if a < s.len() && s[a as int] == '(' {
            let name = s.take(a as int);
            assert(name[0] == s[0]);
            assert forall|k: int| 0 < k < name.len() implies spec_is_alnum(
                #[trigger] name[k],
            ) by {
                assert(name[k] == s[k]);
            }
            assert(valid_name_text(name));
        }
    }
}

/// Every token a successful scan of a whole line yields is well formed: its
/// number texts are valid literals, its operators are operator characters,
/// its external names are well-formed identifiers.
pub proof fn lemma_tokenize_wf(s: Seq<char>)
    ensures
        match spec_tokenize(s) {
            Ok(ts) => forall|i: int| 0 <= i < ts.len() ==> token_wf(#[trigger] ts[i]),
            Err(_) => true,
        },
    decreases s.len(),
{
    if s.len() == 0 {
    } else if spec_is_space(s[0]) {
        lemma_tokenize_wf(s.skip(1));
    } else {
        lemma_scan_token_wf(s);
        match scan_token(s) {
            Some(p) => {
                if 1 <= p.1 <= s.len() {
                    lemma_tokenize_wf(s.skip(p.1 as int));
                    match spec_tokenize(s.skip(p.1 as int)) {
                        Ok(rest) => {
                            assert forall|i: int|
                                0 <= i < (seq![p.0] + rest).len() implies token_wf(
                                #[trigger] (seq![p.0] + rest)[i],
                            ) by {
                                if i > 0 {
                                    assert((seq![p.0] + rest)[i] == rest[i - 1]);
                                } else {
                                    assert((seq![p.0] + rest)[0] == p.0);
                                }
                            }
                        },
                        Err(u) => {},
                    }
                }
            },
            None => {},
        }
    }
}

} // verus!
