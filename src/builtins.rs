//! The native functions over sets that a fresh environment binds.
use vstd::prelude::*;
use crate::errors::RuntimeError;
use crate::object::{Object, views, lemma_views, lemma_set_items_wf};
use crate::ops::{outcome, spec_arith, ArithOp, operator_error, type_error};
use crate::value::{Builtin, ErrorKind, Value};

verus! {

/// Folds `+` or `*` over `xs` from index `i` on, starting from `acc`.
pub open spec fn spec_fold(op: ArithOp, acc: Value, xs: Seq<Value>, i: nat) -> Result<Value, ErrorKind>
    decreases xs.len() - i,
{
    if i >= xs.len() {
        Ok(acc)
    } else {
        match spec_arith(op, acc, xs[i as int]) {
            Ok(v) => spec_fold(op, v, xs, i + 1),
            Err(e) => Err(e),
        }
    }
}

/// `max`, `min`, `sum` and `product` of one set argument: the largest and
/// smallest member, and the sum and product of the members in ascending
/// order; `Undefined` for the empty set.
pub open spec fn spec_builtin(b: Builtin, args: Seq<Value>) -> Result<Value, ErrorKind> {
    if args.len() != 1 {
        Err(ErrorKind::Operator)
    } else {
        match args[0] {
            Value::FiniteSet(xs, _) => if xs.len() == 0 {
                Ok(Value::Undefined)
            } else {
                match b {
                    Builtin::Max => Ok(xs.last()),
                    Builtin::Min => Ok(xs[0]),
                    Builtin::Sum => spec_fold(ArithOp::Add, xs[0], xs, 1),
                    Builtin::Product => spec_fold(ArithOp::Mul, xs[0], xs, 1),
                }
            },
            _ => Err(ErrorKind::Type),
        }
    }
}

/// Calls a native function on evaluated arguments.
pub fn call_builtin(b: Builtin, args: &Vec<Object>) -> (r: Result<Object, RuntimeError>)
    requires
        forall|i: int| 0 <= i < args.len() ==> (#[trigger] args@[i]).wf(),
    ensures
        outcome(r) == spec_builtin(b, views(args@)),
        r matches Ok(o) ==> o.wf(),
{
    proof {
        lemma_views(args@);
    }
    if args.len() != 1 {
        return Err(operator_error("Expected 1 argument to a set function."));
    }
    match &args[0] {
        Object::FiniteSet { items, kind } => {
            proof {
                lemma_views(items@);
                lemma_set_items_wf(items@, *kind);
            }
            let ghost xs = views(items@);
            if items.len() == 0 {
                return Ok(Object::Undefined);
            }
            match b {
                Builtin::Max => Ok(items[items.len() - 1].copy()),
                Builtin::Min => Ok(items[0].copy()),
                Builtin::Sum | Builtin::Product => {
                    let op = if matches!(b, Builtin::Sum) {
                        ArithOp::Add
                    } else {
                        ArithOp::Mul
                    };
                    let mut acc = items[0].copy();
                    assert(spec_builtin(b, views(args@)) == spec_fold(op, xs[0], xs, 1));
                    let mut i: usize = 1;
                    while i < items.len()
                        invariant
                            1 <= i <= items.len(),
                            xs == views(items@),
                            xs.len() == items.len(),
                            forall|j: int| 0 <= j < items.len() ==> (#[trigger] items@[j]).wf() && xs[j] == items@[j].view(),
                            acc.wf(),
                            spec_builtin(b, views(args@)) == spec_fold(op, xs[0], xs, 1),
                            spec_fold(op, xs[0], xs, 1) == spec_fold(op, acc.view(), xs, i as nat),
                        decreases items.len() - i,
                    {
                        let next = acc.arith(&items[i], op);
                        match next {
                            Ok(v) => {
                                acc = v;
                            },
                            Err(e) => {
                                return Err(e);
                            },
                        }
                        i = i + 1;
                    }
                    Ok(acc)
                },
            }
        },
        _ => Err(type_error("Expected a set argument.")),
    }
}

} // verus!
