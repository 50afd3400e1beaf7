//! Recursive-descent parser: a token sequence to an abstract syntax tree.
//!
//! Grammar, lowest precedence first, every binary level folding to the left:
//!
//! ```text
//! expr    := add
//! add     := mul (( + | - ) mul)*
//! mul     := pow (( * | / ) pow)*
//! pow     := unary (^ unary)*
//! unary   := (- | +) primary | primary
//! primary := number | ( expr ) | external expr (, expr)* )
//! ```
//!
//! A leading `-` wraps the primary in a unary negation; a leading `+` is
//! dropped.  The sign rule does not recurse, so a doubled sign is a syntax
//! error.  An external call's name must resolve, case-insensitively, to one
//! of the known transcendental functions.  The whole token sequence must be
//! consumed by one expression; anything left over is a syntax error.

use vstd::prelude::*;
use vstd::string::StrSliceExecFns;

verus! {

// ----------------------------------------------------------------------
// Abstract syntax tree
// ----------------------------------------------------------------------

/// A binary or unary operator tag.
#[derive(Debug, PartialEq, Eq, Structural, Clone, Copy)]
pub enum AstOp {
    Add,
    Sub,
    Mul,
    Div,
    Pow,
}

/// One of the known external (transcendental) functions.
#[derive(Debug, PartialEq, Eq, Structural, Clone, Copy)]
pub enum AstExFn {
    Sin,
    Cos,
    ASin,
    ACos,
    Tan,
    ATan,
    ATan2,
}

/// An expression node.  A literal keeps the digit text of its number token.
#[derive(Debug, PartialEq)]
pub enum AstExpr {
    Literal(String),
    Binary(AstOp, Box<AstExpr>, Box<AstExpr>),
    External(AstExFn, Vec<AstExpr>),
    Unary(AstOp, Box<AstExpr>),
}

/// The model of an [`AstExpr`], with character sequences for literal text.
pub enum AstModel {
    Literal { text: Seq<char> },
    Binary { op: AstOp, left: Box<AstModel>, right: Box<AstModel> },
    External { func: AstExFn, args: Seq<AstModel> },
    Unary { op: AstOp, operand: Box<AstModel> },
}

/// The model of an expression node.
pub open spec fn ast_view(e: AstExpr) -> AstModel
    decreases e, 0int,
    via ast_view_decreases
{
    match e {
        AstExpr::Literal(s) => AstModel::Literal { text: s@ },
        AstExpr::Binary(op, l, r) => AstModel::Binary {
            op,
            left: Box::new(ast_view(*l)),
            right: Box::new(ast_view(*r)),
        },
        AstExpr::External(f, args) => AstModel::External { func: f, args: ast_views(args@) },
        AstExpr::Unary(op, x) => AstModel::Unary { op, operand: Box::new(ast_view(*x)) },
    }
}

/// The models of a sequence of expression nodes, in order.
pub open spec fn ast_views(es: Seq<AstExpr>) -> Seq<AstModel>
    decreases es, 1int,
{
    if es.len() == 0 {
        Seq::empty()
    } else {
        seq![ast_view(es[0])] + ast_views(es.skip(1))
    }
}

#[via_fn]
proof fn ast_view_decreases(e: AstExpr) {
    match e {
        AstExpr::External(f, args) => {
            assert(decreases_to!(e => args));
            assert(decreases_to!(args => args@));
        },
        _ => {},
    }
}

/// `ast_views` maps `ast_view` over the sequence, element by element.
pub proof fn lemma_ast_views(es: Seq<AstExpr>)
    ensures
        ast_views(es).len() == es.len(),
        forall|i: int| 0 <= i < es.len() ==> ast_views(es)[i] == ast_view(es[i]),
    decreases es.len(),
{
    if es.len() > 0 {
        lemma_ast_views(es.skip(1));
    }
}

impl DeepView for AstExpr {
    type V = AstModel;

    open spec fn deep_view(&self) -> AstModel {
        ast_view(*self)
    }
}

// ----------------------------------------------------------------------
// Syntax errors
// ----------------------------------------------------------------------

/// Why a token sequence is not one complete expression.
#[derive(Debug, PartialEq)]
pub enum SyntaxError {
    /// The tokens ended where the grammar still expected one.
    UnexpectedEnd,
    /// This token cannot stand at the position it was found at.
    UnexpectedToken(crate::scanner::Token),
    /// An external call names no known function.
    UnknownFunction(String),
    /// A complete expression was parsed but these tokens followed it.
    UnconsumedTokens(Vec<crate::scanner::Token>),
}

/// The model of a [`SyntaxError`].
pub enum SynErrModel {
    End,
    Unexpected { found: crate::scanner::TokenModel },
    UnknownFunction { name: Seq<char> },
    Trailing { rest: Seq<crate::scanner::TokenModel> },
}

impl DeepView for SyntaxError {
    type V = SynErrModel;

    open spec fn deep_view(&self) -> SynErrModel {
        match self {
            SyntaxError::UnexpectedEnd => SynErrModel::End,
            SyntaxError::UnexpectedToken(t) => SynErrModel::Unexpected { found: t.deep_view() },
            SyntaxError::UnknownFunction(s) => SynErrModel::UnknownFunction { name: s@ },
            SyntaxError::UnconsumedTokens(v) => SynErrModel::Trailing { rest: v.deep_view() },
        }
    }
}

// ----------------------------------------------------------------------
// Name resolution, case-insensitive
// ----------------------------------------------------------------------

pub open spec fn spec_lower_char(c: char) -> char {
    if 'A' <= c && c <= 'Z' {
        (((c as u8) + 32) as char)
    } else {
        c
    }
}

/// ASCII lower case of one character.
#[verifier::when_used_as_spec(spec_lower_char)]
pub fn lower_char(c: char) -> (r: char)
    ensures
        r == spec_lower_char(c),
{
    if 'A' <= c && c <= 'Z' {
        ((c as u8) + 32) as char
    } else {
        c
    }
}

pub open spec fn lower_text(s: Seq<char>) -> Seq<char> {
    s.map_values(|c: char| spec_lower_char(c))
}

/// Whether `s` spells `t` up to ASCII case (`t` is already lower case).
fn name_eq_ci(s: &str, t: &str) -> (b: bool)
    ensures
        b == (lower_text(s@) == t@),
{
    let ns = s.unicode_len();
    let nt = t.unicode_len();
    if ns != nt {
        proof {
            assert(lower_text(s@).len() == s@.len());
        }
        return false;
    }
    let mut k: usize = 0;
    while k < ns
        invariant
            k <= ns,
            ns == s@.len(),
            ns == t@.len(),
            forall|j: int| 0 <= j < k ==> spec_lower_char(s@[j]) == t@[j],
        decreases ns - k,
    {
        let c = lower_char(s.get_char(k));
        let d = t.get_char(k);
        if c != d {
            proof {
                assert(lower_text(s@)[k as int] == spec_lower_char(s@[k as int]));
            }
            return false;
        }
        k = k + 1;
    }
    proof {
        assert(lower_text(s@) =~= t@);
    }
    true
}

/// Which external function a call name denotes, compared case-insensitively
/// against the closed table of known names.
pub open spec fn spec_resolve_fn(name: Seq<char>) -> Option<AstExFn> {
    let l = lower_text(name);
    if l == "sin"@ {
        Some(AstExFn::Sin)
    } else if l == "cos"@ {
        Some(AstExFn::Cos)
    } else if l == "asin"@ {
        Some(AstExFn::ASin)
    } else if l == "acos"@ {
        Some(AstExFn::ACos)
    } else if l == "tan"@ {
        Some(AstExFn::Tan)
    } else if l == "atan"@ {
        Some(AstExFn::ATan)
    } else if l == "atan2"@ {
        Some(AstExFn::ATan2)
    } else {
        None
    }
}

impl AstExFn {
    /// Case-insensitive lookup of an external-function name.
    pub fn from_str(s: &str) -> (r: Result<AstExFn, ()>)
        ensures
            match r {
                Ok(f) => spec_resolve_fn(s@) == Some(f),
                Err(_) => spec_resolve_fn(s@) is None,
            },
    {
        if name_eq_ci(s, "sin") {
            Ok(AstExFn::Sin)
        } else if name_eq_ci(s, "cos") {
            Ok(AstExFn::Cos)
        } else if name_eq_ci(s, "asin") {
            Ok(AstExFn::ASin)
        } else if name_eq_ci(s, "acos") {
            Ok(AstExFn::ACos)
        } else if name_eq_ci(s, "tan") {
            Ok(AstExFn::Tan)
        } else if name_eq_ci(s, "atan") {
            Ok(AstExFn::ATan)
        } else if name_eq_ci(s, "atan2") {
            Ok(AstExFn::ATan2)
        } else {
            Err(())
        }
    }
}

/// Which operator an operator text denotes.
pub open spec fn spec_resolve_op(s: Seq<char>) -> Option<AstOp> {
    if s == "+"@ {
        Some(AstOp::Add)
    } else if s == "-"@ {
        Some(AstOp::Sub)
    } else if s == "*"@ {
        Some(AstOp::Mul)
    } else if s == "/"@ {
        Some(AstOp::Div)
    } else if s == "^"@ {
        Some(AstOp::Pow)
    } else {
        None
    }
}

impl AstOp {
    /// Lookup of an operator symbol.
    pub fn from_str(s: &str) -> (r: Result<AstOp, ()>)
        ensures
            match r {
                Ok(op) => spec_resolve_op(s@) == Some(op),
                Err(_) => spec_resolve_op(s@) is None,
            },
    {
        let n = s.unicode_len();
        if n == 1 {
            let c = s.get_char(0);
            let r = if c == '+' {
                Ok(AstOp::Add)
            } else if c == '-' {
                Ok(AstOp::Sub)
            } else if c == '*' {
                Ok(AstOp::Mul)
            } else if c == '/' {
                Ok(AstOp::Div)
            } else if c == '^' {
                Ok(AstOp::Pow)
            } else {
                Err(())
            };
            proof {
                reveal_strlit("+");
                reveal_strlit("-");
                reveal_strlit("*");
                reveal_strlit("/");
                reveal_strlit("^");
                assert(s@ =~= seq![s@[0]]);
                assert(c == '+' ==> s@ =~= "+"@);
                assert(c == '-' ==> s@ =~= "-"@);
                assert(c == '*' ==> s@ =~= "*"@);
                assert(c == '/' ==> s@ =~= "/"@);
                assert(c == '^' ==> s@ =~= "^"@);
            }
            r
        } else {
            proof {
                reveal_strlit("+");
                reveal_strlit("-");
                reveal_strlit("*");
                reveal_strlit("/");
                reveal_strlit("^");
            }
            Err(())
        }
    }
}

} // verus!

verus! {

use crate::scanner::Token;
use crate::scanner::TokenModel;

// ----------------------------------------------------------------------
// The grammar, as a specification
// ----------------------------------------------------------------------
//
// The specification functions below consume tokens from the END of the
// sequence: the next token is `ts.last()`.  This matches the executable
// parser, which reverses the token list once and then pops from a stack.
// Each function returns the parsed node and the tokens it did not consume,
// or the syntax error.  The guards comparing sequence lengths after a
// sub-parse only justify termination; a successful sub-parse always
// consumes at least one token, so they never fail.

/// Parse one primary: a number, a parenthesized expression, or an external
/// call with a non-empty comma-separated argument list closed by `)`.
pub open spec fn spec_parse_primary(ts: Seq<TokenModel>) -> Result<
    (AstModel, Seq<TokenModel>),
    SynErrModel,
>
    decreases ts.len(), 1int,
{
    if ts.len() == 0 {
        Err(SynErrModel::End)
    } else {
        let t = ts.last();
        let rest = ts.drop_last();
        match t {
            TokenModel::Number { text } => Ok((AstModel::Literal { text }, rest)),
            TokenModel::LeftPar => match spec_parse_expr(rest) {
                Ok(p) => if p.1.len() == 0 {
                    Err(SynErrModel::End)
                } else if p.1.last() is RightPar {
                    Ok((p.0, p.1.drop_last()))
                } else {
                    Err(SynErrModel::Unexpected { found: p.1.last() })
                },
                Err(e) => Err(e),
            },
            TokenModel::External { name } => spec_parse_args(name, rest, Seq::empty()),
            _ => Err(SynErrModel::Unexpected { found: t }),
        }
    }
}

/// Parse the arguments of an external call named `name`, `acc` holding the
/// arguments already parsed.  The name is resolved once the closing `)` is
/// reached, so argument errors surface before an unknown name does.
pub open spec fn spec_parse_args(
    name: Seq<char>,
    ts: Seq<TokenModel>,
    acc: Seq<AstModel>,
) -> Result<(AstModel, Seq<TokenModel>), SynErrModel>
    decreases ts.len(), 7int,
{
    match spec_parse_expr(ts) {
        Ok(p) => if p.1.len() == 0 {
            Err(SynErrModel::End)
        } else if p.1.last() is Comma {
            if p.1.len() < ts.len() {
                spec_parse_args(name, p.1.drop_last(), acc.push(p.0))
            } else {
                Err(SynErrModel::End)
            }
        } else if p.1.last() is RightPar {
            match spec_resolve_fn(name) {
                Some(f) => Ok(
                    (AstModel::External { func: f, args: acc.push(p.0) }, p.1.drop_last()),
                ),
                None => Err(SynErrModel::UnknownFunction { name }),
            }
        } else {
            Err(SynErrModel::Unexpected { found: p.1.last() })
        },
        Err(e) => Err(e),
    }
}

/// Parse a unary step: an optional single leading sign before a primary.
/// `-` wraps the primary in a negation, `+` is dropped, any other operator
/// here is a syntax error.
pub open spec fn spec_parse_unary(ts: Seq<TokenModel>) -> Result<
    (AstModel, Seq<TokenModel>),
    SynErrModel,
>
    decreases ts.len(), 2int,
{
    if ts.len() == 0 {
        Err(SynErrModel::End)
    } else {
        match ts.last() {
            TokenModel::Operator { op } => if op == '-' {
                match spec_parse_primary(ts.drop_last()) {
                    Ok(p) => Ok((AstModel::Unary { op: AstOp::Sub, operand: Box::new(p.0) }, p.1)),
                    Err(e) => Err(e),
                }
            } else if op == '+' {
                spec_parse_primary(ts.drop_last())
            } else {
                Err(SynErrModel::Unexpected { found: ts.last() })
            },
            _ => spec_parse_primary(ts),
        }
    }
}

/// Parse a power chain: `unary (^ unary)*`, folding to the left.
pub open spec fn spec_parse_pow(ts: Seq<TokenModel>) -> Result<
    (AstModel, Seq<TokenModel>),
    SynErrModel,
>
    decreases ts.len(), 3int,
{
    match spec_parse_unary(ts) {
        Ok(p) => if p.1.len() < ts.len() {
            spec_parse_pow_more(p.0, p.1)
        } else {
            Err(SynErrModel::End)
        },
        Err(e) => Err(e),
    }
}

/// Continue a power chain after `node`.
pub open spec fn spec_parse_pow_more(node: AstModel, ts: Seq<TokenModel>) -> Result<
    (AstModel, Seq<TokenModel>),
    SynErrModel,
>
    decreases ts.len(), 0int,
{
    if ts.len() == 0 {
        Ok((node, ts))
    } else {
        match ts.last() {
            TokenModel::Operator { op } => if op == '^' {
                match spec_parse_unary(ts.drop_last()) {
                    Ok(p) => if p.1.len() < ts.len() {
                        spec_parse_pow_more(
                            AstModel::Binary {
                                op: AstOp::Pow,
                                left: Box::new(node),
                                right: Box::new(p.0),
                            },
                            p.1,
                        )
                    } else {
                        Err(SynErrModel::End)
                    },
                    Err(e) => Err(e),
                }
            } else {
                Ok((node, ts))
            },
            _ => Ok((node, ts)),
        }
    }
}

/// Parse a product chain: `pow (( * | / ) pow)*`, folding to the left.
pub open spec fn spec_parse_mul(ts: Seq<TokenModel>) -> Result<
    (AstModel, Seq<TokenModel>),
    SynErrModel,
>
    decreases ts.len(), 4int,
{
    match spec_parse_pow(ts) {
        Ok(p) => if p.1.len() < ts.len() {
            spec_parse_mul_more(p.0, p.1)
        } else {
            Err(SynErrModel::End)
        },
        Err(e) => Err(e),
    }
}

/// Continue a product chain after `node`.
pub open spec fn spec_parse_mul_more(node: AstModel, ts: Seq<TokenModel>) -> Result<
    (AstModel, Seq<TokenModel>),
    SynErrModel,
>
    decreases ts.len(), 0int,
{
    if ts.len() == 0 {
        Ok((node, ts))
    } else {
        match ts.last() {
            TokenModel::Operator { op } => if op == '*' || op == '/' {
                let ast_op = if op == '*' {
                    AstOp::Mul
                } else {
                    AstOp::Div
                };
                match spec_parse_pow(ts.drop_last()) {
                    Ok(p) => if p.1.len() < ts.len() {
                        spec_parse_mul_more(
                            AstModel::Binary { op: ast_op, left: Box::new(node), right: Box::new(p.0) },
                            p.1,
                        )
                    } else {
                        Err(SynErrModel::End)
                    },
                    Err(e) => Err(e),
                }
            } else {
                Ok((node, ts))
            },
            _ => Ok((node, ts)),
        }
    }
}

/// Parse a sum chain: `mul (( + | - ) mul)*`, folding to the left.
pub open spec fn spec_parse_add(ts: Seq<TokenModel>) -> Result<
    (AstModel, Seq<TokenModel>),
    SynErrModel,
>
    decreases ts.len(), 5int,
{
    match spec_parse_mul(ts) {
        Ok(p) => if p.1.len() < ts.len() {
            spec_parse_add_more(p.0, p.1)
        } else {
            Err(SynErrModel::End)
        },
        Err(e) => Err(e),
    }
}

/// Continue a sum chain after `node`.
pub open spec fn spec_parse_add_more(node: AstModel, ts: Seq<TokenModel>) -> Result<
    (AstModel, Seq<TokenModel>),
    SynErrModel,
>
    decreases ts.len(), 0int,
{
    if ts.len() == 0 {
        Ok((node, ts))
    } else {
        match ts.last() {
            TokenModel::Operator { op } => if op == '+' || op == '-' {
                let ast_op = if op == '+' {
                    AstOp::Add
                } else {
                    AstOp::Sub
                };
                match spec_parse_mul(ts.drop_last()) {
                    Ok(p) => if p.1.len() < ts.len() {
                        spec_parse_add_more(
                            AstModel::Binary { op: ast_op, left: Box::new(node), right: Box::new(p.0) },
                            p.1,
                        )
                    } else {
                        Err(SynErrModel::End)
                    },
                    Err(e) => Err(e),
                }
            } else {
                Ok((node, ts))
            },
            _ => Ok((node, ts)),
        }
    }
}

/// Parse one whole expression: the lowest-precedence chain.
pub open spec fn spec_parse_expr(ts: Seq<TokenModel>) -> Result<
    (AstModel, Seq<TokenModel>),
    SynErrModel,
>
    decreases ts.len(), 6int,
{
    spec_parse_add(ts)
}

/// Parse a whole token sequence, given in reading order, into exactly one
/// expression; leftover tokens are a syntax error carrying the leftovers in
/// reading order.
pub open spec fn spec_parse(ts: Seq<TokenModel>) -> Result<AstModel, SynErrModel> {
    match spec_parse_expr(ts.reverse()) {
        Ok(p) => if p.1.len() == 0 {
            Ok(p.0)
        } else {
            Err(SynErrModel::Trailing { rest: p.1.reverse() })
        },
        Err(e) => Err(e),
    }
}

} // verus!

verus! {

// ----------------------------------------------------------------------
// The parser, executable
// ----------------------------------------------------------------------

/// The executable step `r`, leaving `rest`, agrees with the specification
/// step `sr`.
pub open spec fn parses_to(
    sr: Result<(AstModel, Seq<TokenModel>), SynErrModel>,
    r: Result<AstExpr, SyntaxError>,
    rest: Seq<TokenModel>,
) -> bool {
    match r {
        Ok(ast) => sr == Ok::<(AstModel, Seq<TokenModel>), SynErrModel>((ast.deep_view(), rest)),
        Err(e) => sr == Err::<(AstModel, Seq<TokenModel>), SynErrModel>(e.deep_view()),
    }
}

/// `ast_views` of a pushed sequence is the pushed model sequence.
proof fn lemma_ast_views_push(es: Seq<AstExpr>, e: AstExpr)
    ensures
        ast_views(es.push(e)) == ast_views(es).push(ast_view(e)),
{
    lemma_ast_views(es.push(e));
    lemma_ast_views(es);
    assert(ast_views(es.push(e)) =~= ast_views(es).push(ast_view(e)));
}

fn parse_primary(tokens: &mut Vec<Token>) -> (r: Result<AstExpr, SyntaxError>)
    ensures
        parses_to(spec_parse_primary(old(tokens).deep_view()), r, final(tokens).deep_view()),
        r is Ok ==> final(tokens)@.len() < old(tokens)@.len(),
    decreases tokens@.len(), 1int,
{
    let ghost ts0 = tokens.deep_view();
    match tokens.pop() {
        None => Err(SyntaxError::UnexpectedEnd),
        Some(t) => {
            proof {
                assert(t.deep_view() == ts0.last());
                assert(tokens.deep_view() =~= ts0.drop_last());
            }
            match t {
                Token::Number(s) => Ok(AstExpr::Literal(s)),
                Token::LeftPar => {
                    match parse_expr(tokens) {
                        Ok(node) => {
                            let ghost ts1 = tokens.deep_view();
                            match tokens.pop() {
                                Some(Token::RightPar) => {
                                    proof {
                                        assert(tokens.deep_view() =~= ts1.drop_last());
                                    }
                                    Ok(node)
                                },
                                Some(other) => {
                                    proof {
                                        assert(other.deep_view() == ts1.last());
                                    }
                                    Err(SyntaxError::UnexpectedToken(other))
                                },
                                None => Err(SyntaxError::UnexpectedEnd),
                            }
                        },
                        Err(e) => Err(e),
                    }
                },
                Token::External(name) => parse_args(name, tokens),
                other => Err(SyntaxError::UnexpectedToken(other)),
            }
        },
    }
}

#[verifier::loop_isolation(false)]
fn parse_args(name: String, tokens: &mut Vec<Token>) -> (r: Result<AstExpr, SyntaxError>)
    ensures
        parses_to(
            spec_parse_args(name@, old(tokens).deep_view(), Seq::empty()),
            r,
            final(tokens).deep_view(),
        ),
        r is Ok ==> final(tokens)@.len() < old(tokens)@.len(),
    decreases tokens@.len(), 7int,
{
    let ghost ts0 = tokens.deep_view();
    let mut args: Vec<AstExpr> = Vec::new();
    let mut done: bool = false;
    proof {
        assert(args@ =~= Seq::<AstExpr>::empty());
        assert(ast_views(args@) =~= Seq::<AstModel>::empty());
    }
    while !done
        invariant
            tokens@.len() <= ts0.len(),
            done ==> tokens@.len() < ts0.len(),
            !done ==> spec_parse_args(name@, ts0, Seq::empty()) == spec_parse_args(
                name@,
                tokens.deep_view(),
                ast_views(args@),
            ),
            done ==> spec_parse_args(name@, ts0, Seq::empty()) == (match spec_resolve_fn(name@) {
                Some(f) => Ok::<(AstModel, Seq<TokenModel>), SynErrModel>(
                    (AstModel::External { func: f, args: ast_views(args@) }, tokens.deep_view()),
                ),
                None => Err::<(AstModel, Seq<TokenModel>), SynErrModel>(
                    SynErrModel::UnknownFunction { name: name@ },
                ),
            }),
        decreases tokens@.len() + (if done { 0int } else { 1int }),
    {
        let ghost ts_it = tokens.deep_view();
        let ghost acc_it = ast_views(args@);
        match parse_expr(tokens) {
            Err(e) => {
                return Err(e);
            },
            Ok(node) => {
                let ghost ts_mid = tokens.deep_view();
                match tokens.pop() {
                    Some(Token::Comma) => {
                        proof {
                            assert(tokens.deep_view() =~= ts_mid.drop_last());
                            lemma_ast_views_push(args@, node);
                        }
                        args.push(node);
                    },
                    Some(Token::RightPar) => {
                        proof {
                            assert(tokens.deep_view() =~= ts_mid.drop_last());
                            lemma_ast_views_push(args@, node);
                        }
                        args.push(node);
                        done = true;
                    },
                    Some(other) => {
                        proof {
                            assert(other.deep_view() == ts_mid.last());
                        }
                        return Err(SyntaxError::UnexpectedToken(other));
                    },
                    None => {
                        return Err(SyntaxError::UnexpectedEnd);
                    },
                }
            },
        }
    }
    match AstExFn::from_str(name.as_str()) {
        Ok(f) => Ok(AstExpr::External(f, args)),
        Err(_) => Err(SyntaxError::UnknownFunction(name)),
    }
}

fn parse_unary(tokens: &mut Vec<Token>) -> (r: Result<AstExpr, SyntaxError>)
    ensures
        parses_to(spec_parse_unary(old(tokens).deep_view()), r, final(tokens).deep_view()),
        r is Ok ==> final(tokens)@.len() < old(tokens)@.len(),
    decreases tokens@.len(), 2int,
{
    let ghost ts0 = tokens.deep_view();
    match tokens.pop() {
        None => Err(SyntaxError::UnexpectedEnd),
        Some(t) => {
            proof {
                assert(t.deep_view() == ts0.last());
                assert(tokens.deep_view() =~= ts0.drop_last());
            }
            match t {
                Token::Operator(c) => {
                    if c == '-' {
                        match parse_primary(tokens) {
                            Ok(node) => Ok(AstExpr::Unary(AstOp::Sub, Box::new(node))),
                            Err(e) => Err(e),
                        }
                    } else if c == '+' {
                        parse_primary(tokens)
                    } else {
                        Err(SyntaxError::UnexpectedToken(Token::Operator(c)))
                    }
                },
                other => {
                    tokens.push(other);
                    proof {
                        assert(tokens.deep_view() =~= ts0);
                    }
                    parse_primary(tokens)
                },
            }
        },
    }
}

#[verifier::loop_isolation(false)]
fn parse_pow(tokens: &mut Vec<Token>) -> (r: Result<AstExpr, SyntaxError>)
    ensures
        parses_to(spec_parse_pow(old(tokens).deep_view()), r, final(tokens).deep_view()),
        r is Ok ==> final(tokens)@.len() < old(tokens)@.len(),
    decreases tokens@.len(), 3int,
{
    let ghost ts0 = tokens.deep_view();
    let mut node: AstExpr;
    match parse_unary(tokens) {
        Ok(n) => {
            node = n;
        },
        Err(e) => {
            return Err(e);
        },
    }
    let mut done: bool = false;
    while !done
        invariant
            tokens@.len() < ts0.len(),
            !done ==> spec_parse_pow(ts0) == spec_parse_pow_more(
                node.deep_view(),
                tokens.deep_view(),
            ),
            done ==> spec_parse_pow(ts0) == Ok::<(AstModel, Seq<TokenModel>), SynErrModel>(
                (node.deep_view(), tokens.deep_view()),
            ),
        decreases tokens@.len() + (if done { 0int } else { 1int }),
    {
        let ghost ts_it = tokens.deep_view();
        match tokens.pop() {
            None => {
                done = true;
            },
            Some(t) => {
                proof {
                    assert(t.deep_view() == ts_it.last());
                    assert(tokens.deep_view() =~= ts_it.drop_last());
                }
                match t {
                    Token::Operator(c) => {
                        if c == '^' {
                            match parse_unary(tokens) {
                                Ok(rhs) => {
                                    node = AstExpr::Binary(
                                        AstOp::Pow,
                                        Box::new(node),
                                        Box::new(rhs),
                                    );
                                },
                                Err(e) => {
                                    return Err(e);
                                },
                            }
                        } else {
                            tokens.push(Token::Operator(c));
                            done = true;
                            proof {
                                assert(tokens.deep_view() =~= ts_it);
                            }
                        }
                    },
                    other => {
                        tokens.push(other);
                        done = true;
                        proof {
                            assert(tokens.deep_view() =~= ts_it);
                        }
                    },
                }
            },
        }
    }
    Ok(node)
}

#[verifier::loop_isolation(false)]
fn parse_mul(tokens: &mut Vec<Token>) -> (r: Result<AstExpr, SyntaxError>)
    ensures
        parses_to(spec_parse_mul(old(tokens).deep_view()), r, final(tokens).deep_view()),
        r is Ok ==> final(tokens)@.len() < old(tokens)@.len(),
    decreases tokens@.len(), 4int,
{
    let ghost ts0 = tokens.deep_view();
    let mut node: AstExpr;
    match parse_pow(tokens) {
        Ok(n) => {
            node = n;
        },
        Err(e) => {
            return Err(e);
        },
    }
    let mut done: bool = false;
    while !done
        invariant
            tokens@.len() < ts0.len(),
            !done ==> spec_parse_mul(ts0) == spec_parse_mul_more(
                node.deep_view(),
                tokens.deep_view(),
            ),
            done ==> spec_parse_mul(ts0) == Ok::<(AstModel, Seq<TokenModel>), SynErrModel>(
                (node.deep_view(), tokens.deep_view()),
            ),
        decreases tokens@.len() + (if done { 0int } else { 1int }),
    {
        let ghost ts_it = tokens.deep_view();
        match tokens.pop() {
            None => {
                done = true;
            },
            Some(t) => {
                proof {
                    assert(t.deep_view() == ts_it.last());
                    assert(tokens.deep_view() =~= ts_it.drop_last());
                }
                match t {
                    Token::Operator(c) => {
                        if c == '*' || c == '/' {
                            let op = if c == '*' {
                                AstOp::Mul
                            } else {
                                AstOp::Div
                            };
                            match parse_pow(tokens) {
                                Ok(rhs) => {
                                    node = AstExpr::Binary(op, Box::new(node), Box::new(rhs));
                                },
                                Err(e) => {
                                    return Err(e);
                                },
                            }
                        } else {
                            tokens.push(Token::Operator(c));
                            done = true;
                            proof {
                                assert(tokens.deep_view() =~= ts_it);
                            }
                        }
                    },
                    other => {
                        tokens.push(other);
                        done = true;
                        proof {
                            assert(tokens.deep_view() =~= ts_it);
                        }
                    },
                }
            },
        }
    }
    Ok(node)
}

#[verifier::loop_isolation(false)]
fn parse_add(tokens: &mut Vec<Token>) -> (r: Result<AstExpr, SyntaxError>)
    ensures
        parses_to(spec_parse_add(old(tokens).deep_view()), r, final(tokens).deep_view()),
        r is Ok ==> final(tokens)@.len() < old(tokens)@.len(),
    decreases tokens@.len(), 5int,
{
    let ghost ts0 = tokens.deep_view();
    let mut node: AstExpr;
    match parse_mul(tokens) {
        Ok(n) => {
            node = n;
        },
        Err(e) => {
            return Err(e);
        },
    }
    let mut done: bool = false;
    while !done
        invariant
            tokens@.len() < ts0.len(),
            !done ==> spec_parse_add(ts0) == spec_parse_add_more(
                node.deep_view(),
                tokens.deep_view(),
            ),
            done ==> spec_parse_add(ts0) == Ok::<(AstModel, Seq<TokenModel>), SynErrModel>(
                (node.deep_view(), tokens.deep_view()),
            ),
        decreases tokens@.len() + (if done { 0int } else { 1int }),
    {
        let ghost ts_it = tokens.deep_view();
        match tokens.pop() {
            None => {
                done = true;
            },
            Some(t) => {
                proof {
                    assert(t.deep_view() == ts_it.last());
                    assert(tokens.deep_view() =~= ts_it.drop_last());
                }
                match t {
                    Token::Operator(c) => {
                        if c == '+' || c == '-' {
                            let op = if c == '+' {
                                AstOp::Add
                            } else {
                                AstOp::Sub
                            };
                            match parse_mul(tokens) {
                                Ok(rhs) => {
                                    node = AstExpr::Binary(op, Box::new(node), Box::new(rhs));
                                },
                                Err(e) => {
                                    return Err(e);
                                },
                            }
                        } else {
                            tokens.push(Token::Operator(c));
                            done = true;
                            proof {
                                assert(tokens.deep_view() =~= ts_it);
                            }
                        }
                    },
                    other => {
                        tokens.push(other);
                        done = true;
                        proof {
                            assert(tokens.deep_view() =~= ts_it);
                        }
                    },
                }
            },
        }
    }
    Ok(node)
}

fn parse_expr(tokens: &mut Vec<Token>) -> (r: Result<AstExpr, SyntaxError>)
    ensures
        parses_to(spec_parse_expr(old(tokens).deep_view()), r, final(tokens).deep_view()),
        r is Ok ==> final(tokens)@.len() < old(tokens)@.len(),
    decreases tokens@.len(), 6int,
{
    parse_add(tokens)
}

/// Reverse a token list, so that the parser can pop the next token from the
/// end.
fn reverse_tokens(v: Vec<Token>) -> (r: Vec<Token>)
    ensures
        r.deep_view() == v.deep_view().reverse(),
{
    let mut src = v;
    let ghost v0 = src.deep_view();
    let mut out: Vec<Token> = Vec::new();
    while src.len() > 0
        invariant
            out@.len() + src@.len() == v0.len(),
            forall|j: int| 0 <= j < src@.len() ==> #[trigger] src@[j].deep_view() == v0[j],
            forall|j: int|
                0 <= j < out@.len() ==> #[trigger] out@[j].deep_view() == v0[v0.len() - 1 - j],
        decreases src@.len(),
    {
        let t = src.pop().unwrap();
        out.push(t);
    }
    proof {
        assert(out.deep_view() =~= v0.reverse());
    }
    out
}

/// Parse a token sequence into exactly one expression.
///
/// Succeeds with the abstract syntax tree exactly when [`spec_parse`] does
/// on the tokens' model; otherwise returns the same syntax error value that
/// the specification names.
pub fn parse(tokens: Vec<Token>) -> (r: Result<AstExpr, SyntaxError>)
    ensures
        match r {
            Ok(ast) => spec_parse(tokens.deep_view()) == Ok::<AstModel, SynErrModel>(
                ast.deep_view(),
            ),
            Err(e) => spec_parse(tokens.deep_view()) == Err::<AstModel, SynErrModel>(
                e.deep_view(),
            ),
        },
{
    let ghost ts = tokens.deep_view();
    let mut stack = reverse_tokens(tokens);
    match parse_expr(&mut stack) {
        Ok(ast) => {
            if stack.len() == 0 {
                proof {
                    assert(stack.deep_view() =~= Seq::<TokenModel>::empty());
                }
                Ok(ast)
            } else {
                let rest = reverse_tokens(stack);
                Err(SyntaxError::UnconsumedTokens(rest))
            }
        },
        Err(e) => Err(e),
    }
}

} // verus!
