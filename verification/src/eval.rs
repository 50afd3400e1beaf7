//! Evaluation-side checks: external-function arity and unary-operator
//! well-formedness.
//!
//! Evaluating a tree folds its literals with machine arithmetic, which is the
//! caller's business; the only ways evaluation itself can fail are an
//! external call with the wrong number of arguments and a unary node whose
//! operator is neither a sign nor a no-op.  [`validate`] walks a tree and
//! reports the first such violation, in evaluation order, so a caller that
//! validates first can fold the tree without any failure path.

use vstd::prelude::*;
use crate::parser::AstExFn;
use crate::parser::AstExpr;
use crate::parser::AstModel;
use crate::parser::AstOp;
use crate::parser::ast_views;
use crate::parser::lemma_ast_views;

verus! {

/// Why a tree cannot be evaluated.
#[derive(Debug, PartialEq, Eq, Structural, Clone, Copy)]
pub enum EvalError {
    /// An external call passes `actual` arguments to `func`, which does not
    /// accept that many.
    Arity { func: AstExFn, actual: usize },
    /// A unary node carries an operator that is neither `Add` nor `Sub`.
    InvalidUnary { op: AstOp },
}

/// Whether the external function `f` accepts `n` arguments: one for each
/// single-argument trigonometric function, two for the two-argument
/// arctangent, and one or two for `ATan`, which doubles as `ATan2` when
/// given two.
pub open spec fn spec_arity_ok(f: AstExFn, n: int) -> bool {
    match f {
        AstExFn::Sin => n == 1,
        AstExFn::Cos => n == 1,
        AstExFn::Tan => n == 1,
        AstExFn::ASin => n == 1,
        AstExFn::ACos => n == 1,
        AstExFn::ATan2 => n == 2,
        AstExFn::ATan => n == 1 || n == 2,
    }
}

/// Whether `func` accepts `count` arguments.
#[verifier::when_used_as_spec(spec_arity_ok_exec)]
pub fn arity_ok(func: &AstExFn, count: usize) -> (b: bool)
    ensures
        b == spec_arity_ok(*func, count as int),
{
    match func {
        AstExFn::Sin => count == 1,
        AstExFn::Cos => count == 1,
        AstExFn::Tan => count == 1,
        AstExFn::ASin => count == 1,
        AstExFn::ACos => count == 1,
        AstExFn::ATan2 => count == 2,
        AstExFn::ATan => count == 1 || count == 2,
    }
}

pub open spec fn spec_arity_ok_exec(func: &AstExFn, count: usize) -> bool {
    spec_arity_ok(*func, count as int)
}

/// The first violation in `a`, in evaluation order: a node before its
/// children, a binary node's left child before its right, an external
/// call's arguments in call order.  `Ok` exactly when the whole tree is
/// well formed.
pub open spec fn spec_validate(a: AstModel) -> Result<(), EvalError>
    decreases a, 0int,
{
    match a {
        AstModel::Literal { text } => Ok(()),
        AstModel::Binary { op, left, right } => match spec_validate(*left) {
            Ok(u) => spec_validate(*right),
            Err(e) => Err(e),
        },
        AstModel::Unary { op, operand } => if op == AstOp::Add || op == AstOp::Sub {
            spec_validate(*operand)
        } else {
            Err(EvalError::InvalidUnary { op })
        },
        AstModel::External { func, args } => if spec_arity_ok(func, args.len() as int) {
            spec_validate_list(args)
        } else {
            Err(EvalError::Arity { func, actual: args.len() as usize })
        },
    }
}

/// The first violation among `args`, in order.
pub open spec fn spec_validate_list(args: Seq<AstModel>) -> Result<(), EvalError>
    decreases args, 1int,
{
    if args.len() == 0 {
        Ok(())
    } else {
        match spec_validate(args[0]) {
            Ok(u) => spec_validate_list(args.skip(1)),
            Err(e) => Err(e),
        }
    }
}

/// Report the first arity or unary-operator violation in `e`, in evaluation
/// order, or `Ok` when the tree can be evaluated without failure.
pub fn validate(e: &AstExpr) -> (r: Result<(), EvalError>)
    ensures
        r == spec_validate(e.deep_view()),
    decreases *e, 0int,
{
    match e {
        AstExpr::Literal(_) => Ok(()),
        AstExpr::Binary(_, l, rr) => {
            match validate(&**l) {
                Ok(_) => validate(&**rr),
                Err(e2) => Err(e2),
            }
        },
        AstExpr::Unary(op, x) => {
            match op {
                AstOp::Add => validate(&**x),
                AstOp::Sub => validate(&**x),
                _ => Err(EvalError::InvalidUnary { op: *op }),
            }
        },
        AstExpr::External(f, args) => {
            proof {
                lemma_ast_views(args@);
            }
            if arity_ok(f, args.len()) {
                validate_list(args)
            } else {
                Err(EvalError::Arity { func: *f, actual: args.len() })
            }
        },
    }
}

#[verifier::loop_isolation(false)]
fn validate_list(args: &Vec<AstExpr>) -> (r: Result<(), EvalError>)
    ensures
        r == spec_validate_list(ast_views(args@)),
    decreases *args, 1int,
{
    let ghost full = ast_views(args@);
    proof {
        lemma_ast_views(args@);
    }
    proof {
        assert(full.skip(0) =~= full);
    }
    let n = args.len();
    let mut i: usize = 0;
    while i < n
        invariant
            i <= n,
            n == args@.len(),
            spec_validate_list(full) == spec_validate_list(full.skip(i as int)),
        decreases n - i,
    {
        proof {
            assert(decreases_to!(*args, 1int => args@[i as int], 0int)) by {
                assert(decreases_to!(*args => args@));
                assert(decreases_to!(args@ => args@[i as int]));
            }
        }
        match validate(&args[i]) {
            Ok(_) => {
                proof {
                    assert(full.skip(i as int)[0] == full[i as int]);
                    assert(full.skip(i as int).skip(1) =~= full.skip(i as int + 1));
                }
                i = i + 1;
            },
            Err(e2) => {
                proof {
                    assert(full.skip(i as int)[0] == full[i as int]);
                }
                return Err(e2);
            },
        }
    }
    proof {
        assert(full.skip(i as int) =~= Seq::<AstModel>::empty());
    }
    Ok(())
}

} // verus!
