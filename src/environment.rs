//! Scopes and the evaluator. A scope is a frame of bindings; a call pushes
//! one frame for its parameters and pops it on return, so creating a scope
//! costs nothing and lookup walks the frames from the innermost outward.
use vstd::prelude::*;
use std::rc::Rc;
use crate::ast::{Expression, Location, Parameter, Statement};
use crate::builtins::call_builtin;
use crate::errors::RuntimeError;
use crate::number::Real;
use crate::object::{Object, views, lemma_views, parameter_names, copy_parameters};
use crate::ops::{kind_of_object, is_storable, build_set, operator_error, type_error, outcome, apply_infix, apply_prefix, apply_postfix};
use crate::ast::copy_expression;

use crate::value::{Builtin, ErrorKind, Kind, Value};
use crate::semantics::{spec_final_scopes, spec_literal_members, spec_statement, spec_run, Scopes, find_in, lookup, lookup_in, spec_eval, spec_eval_all, spec_bind, spec_arms, is_literal_set, lemma_infix_unique, lemma_literal_unique};
use crate::ops::infix_result;

verus! {

/// The deepest nesting of scopes, the global one included: a call beyond
/// it is a `DepthError`.
pub const MAX_FRAMES: usize = 64;

/// A name bound to a value.
pub struct Binding {
    pub name: String,
    pub value: Object,
}

/// A frame as mathematics sees it.
pub open spec fn frame_model(f: Seq<Binding>) -> Seq<(Seq<char>, Value)> {
    f.map_values(|b: Binding| (b.name@, b.value.view()))
}

/// A chain of scopes, the global one first.
pub struct Environment {
    pub frames: Vec<Vec<Binding>>,
}

impl Environment {
    pub open spec fn wf(&self) -> bool {
        &&& 1 <= self.frames.len() <= MAX_FRAMES
        &&& forall|i: int, j: int|
            0 <= i < self.frames.len() && 0 <= j < self.frames@[i].len() ==> (
            #[trigger] self.frames@[i]@[j]).value.wf()
    }

    /// The scopes as mathematics sees them.
    pub open spec fn model(&self) -> Scopes {
        self.frames@.map_values(|f: Vec<Binding>| frame_model(f@))
    }

    /// A global scope holding the set functions and the constants `PI`, `E`.
    pub fn new() -> (r: Environment)
        ensures
            r.wf(),
            r.model() == seq![seq![
                ("max"@, Value::Builtin(Builtin::Max)),
                ("min"@, Value::Builtin(Builtin::Min)),
                ("sum"@, Value::Builtin(Builtin::Sum)),
                ("product"@, Value::Builtin(Builtin::Product)),
                ("PI"@, Value::Real(Real { mantissa: 31415926535897932384626433833, scale: 28 })),
                ("E"@, Value::Real(Real { mantissa: 27182818284590452353602874714, scale: 28 })),
            ]],
    {
        let mut frames: Vec<Vec<Binding>> = Vec::new();
        frames.push(Vec::new());
        let mut env = Environment { frames };
        proof {
            assert(frame_model(env.frames@[0]@) =~= Seq::<(Seq<char>, Value)>::empty());
            assert(env.model() =~= seq![Seq::<(Seq<char>, Value)>::empty()]);
            lemma_find_none(env.model().last(), "max"@, 0);
            lemma_find_none(env.model().last(), "min"@, 0);
            lemma_find_none(env.model().last(), "sum"@, 0);
            lemma_find_none(env.model().last(), "product"@, 0);
        }
        let a = env.import(Module::SetBuiltins);
        proof {
            assert(a is Ok);
            let f = env.model().last();
            reveal_strlit("PI");
            reveal_strlit("E");
            reveal_strlit("max");
            reveal_strlit("min");
            reveal_strlit("sum");
            reveal_strlit("product");
            assert(f =~= module_bindings(Module::SetBuiltins));
            assert forall|j: int| 0 <= j < f.len() implies (#[trigger] f[j]).0 != "PI"@ && f[j].0 != "E"@ by {
                assert(f[j].0[0] != 'P' || f[j].0.len() != 2);
            }
            lemma_find_none(f, "PI"@, 0);
            lemma_find_none(f, "E"@, 0);
        }
        let b = env.import(Module::MathConstants);
        proof {
            reveal_strlit("PI");
            reveal_strlit("E");
            reveal_strlit("max");
            reveal_strlit("min");
            reveal_strlit("sum");
            reveal_strlit("product");
            assert(b is Ok);
            assert(env.model()[0] =~= seq![
                ("max"@, Value::Builtin(Builtin::Max)),
                ("min"@, Value::Builtin(Builtin::Min)),
                ("sum"@, Value::Builtin(Builtin::Sum)),
                ("product"@, Value::Builtin(Builtin::Product)),
                ("PI"@, Value::Real(Real { mantissa: 31415926535897932384626433833, scale: 28 })),
                ("E"@, Value::Real(Real { mantissa: 27182818284590452353602874714, scale: 28 })),
            ]);
            assert(env.model() =~= seq![env.model()[0]]);
        }
        env
    }

    /// Adds a module's bindings to the innermost scope, in order; a name
    /// already bound there is a `NameError` (bindings made before it stay).
    pub fn import(&mut self, module: Module) -> (r: Result<(), RuntimeError>)
        requires
            old(self).wf(),
        ensures
            final(self).wf(),
            final(self).frames.len() == old(self).frames.len(),
            (forall|i: int| 0 <= i < module_bindings(module).len() ==> find_in(
                old(self).model().last(),
                (#[trigger] module_bindings(module)[i]).0,
                0,
            ) is None) ==> r is Ok && final(self).model() == old(self).model().update(
                old(self).model().len() - 1,
                old(self).model().last() + module_bindings(module),
            ),
    {
        match module {
            Module::SetBuiltins => set_builtins(self),
            Module::MathConstants => math_constants_builtins(self),
        }
    }

    /// A copy of the scopes with one more, empty, innermost scope.
    pub fn new_child(&self) -> (r: Environment)
        requires
            self.wf(),
            self.frames.len() < MAX_FRAMES,
        ensures
            r.wf(),
            r.model() == self.model().push(Seq::empty()),
    {
        let mut frames: Vec<Vec<Binding>> = Vec::new();
        let mut i: usize = 0;
        while i < self.frames.len()
            invariant
                i <= self.frames.len(),
                self.wf(),
                frames.len() == i,
                forall|a: int| 0 <= a < i ==> frame_model((#[trigger] frames@[a])@) == frame_model(self.frames@[a]@),
                forall|a: int, k: int|
                    0 <= a < frames.len() && 0 <= k < frames@[a].len() ==> (#[trigger] frames@[a]@[k]).value.wf(),
            decreases self.frames.len() - i,
        {
            let src = &self.frames[i];
            let mut copy: Vec<Binding> = Vec::new();
            let mut j: usize = 0;
            while j < src.len()
                invariant
                    j <= src.len(),
                    *src == self.frames@[i as int],
                    self.wf(),
                    i < self.frames.len(),
                    copy.len() == j,
                    forall|k: int| 0 <= k < j ==> (#[trigger] copy@[k]).name@ == src@[k].name@ && copy@[k].value.view()
                        == src@[k].value.view() && copy@[k].value.wf(),
                decreases src.len() - j,
            {
                proof {
                    assert(self.frames@[i as int]@[j as int].value.wf());
                }
                copy.push(Binding { name: src[j].name.clone(), value: src[j].value.copy() });
                j = j + 1;
            }
            proof {
                assert(frame_model(copy@) =~= frame_model(src@));
            }
            frames.push(copy);
            i = i + 1;
        }
        frames.push(Vec::new());
        let r = Environment { frames };
        proof {
            let n = self.frames.len();
            assert(frame_model(r.frames@[n as int]@) =~= Seq::<(Seq<char>, Value)>::empty());
            assert forall|a: int| 0 <= a < n as int implies r.model()[a] == self.model()[a] by {
                assert(r.frames@[a] == frames@[a]);
            }
            assert(r.model() =~= self.model().push(Seq::empty()));
            assert forall|a: int, k: int|
                0 <= a < r.frames.len() && 0 <= k < r.frames@[a].len() implies (#[trigger] r.frames@[a]@[k]).value.wf() by {
            }
        }
        r
    }

    /// The value bound to `key` in the innermost scope that binds it.
    pub fn get(&self, key: &str) -> (r: Option<Object>)
        requires
            self.wf(),
        ensures
            match lookup(self.model(), key@) {
                Some(v) => r matches Some(o) && o.view() == v && o.wf(),
                None => r is None,
            },
    {
        let k = key.to_string();
        let ghost m = self.model();
        let mut n: usize = self.frames.len();
        while n > 0
            invariant
                n <= self.frames.len(),
                self.wf(),
                k@ == key@,
                m == self.model(),
                lookup(m, key@) == lookup_in(m, key@, n as nat),
            decreases n,
        {
            let frame = &self.frames[n - 1];
            let ghost fm = frame_model(frame@);
            assert(m[n - 1] == fm);
            let mut j: usize = 0;
            while j < frame.len()
                invariant
                    j <= frame.len(),
                    n <= self.frames.len(),
                    n > 0,
                    *frame == self.frames@[n - 1],
                    fm == frame_model(frame@),
                    self.wf(),
                    k@ == key@,
                    m == self.model(),
                    m[n - 1] == fm,
                    lookup(m, key@) == lookup_in(m, key@, n as nat),
                    find_in(fm, key@, 0) == find_in(fm, key@, j as nat),
                decreases frame.len() - j,
            {
                if frame[j].name == k {
                    let o = frame[j].value.copy();
                    proof {
                        assert(fm[j as int] == (frame@[j as int].name@, frame@[j as int].value.view()));
                        assert(self.frames@[n - 1]@[j as int].value.wf());
                    }
                    return Some(o);
                }
                j = j + 1;
            }
            n = n - 1;
        }
        None
    }

    /// Binds `key` in the innermost scope; a name already bound there is a
    /// `NameError` and leaves the scopes as they were.
    pub fn set(&mut self, key: &String, value: &Object) -> (r: Result<(), RuntimeError>)
        requires
            old(self).wf(),
            value.wf(),
        ensures
            final(self).wf(),
            final(self).frames.len() == old(self).frames.len(),
            r is Err <==> find_in(old(self).model().last(), key@, 0) is Some,
            r is Err ==> final(self).frames@ == old(self).frames@ && r->Err_0 is NameError,
            r is Ok ==> final(self).model() == old(self).model().update(
                old(self).model().len() - 1,
                old(self).model().last().push((key@, value.view())),
            ),
    {
        let ghost m = self.model();
        let mut frame = self.frames.pop().unwrap();
        let ghost f0 = frame@;
        let ghost fm = frame_model(frame@);
        assert(fm == m.last());
        let mut j: usize = 0;
        while j < frame.len()
            invariant
                j <= frame.len(),
                frame == old(self).frames@.last(),
                f0 == frame@,
                fm == frame_model(frame@),
                old(self).wf(),
                self.frames@ == old(self).frames@.drop_last(),
                old(self).frames.len() >= 1,
                find_in(fm, key@, 0) == find_in(fm, key@, j as nat),
            decreases frame.len() - j,
        {
            if frame[j].name == *key {
                self.frames.push(frame);
                proof {
                    assert(self.frames@ =~= old(self).frames@);
                    assert forall|i: int, k: int|
                        0 <= i < self.frames.len() && 0 <= k < self.frames@[i].len() implies (
                        #[trigger] self.frames@[i]@[k]).value.wf() by {
                        assert(self.frames@[i] == old(self).frames@[i]);
                    }
                }
                return Err(RuntimeError::NameError("Cannot re-declare a name in one scope.".to_string()));
            }
            j = j + 1;
        }
        frame.push(Binding { name: key.clone(), value: value.copy() });
        self.frames.push(frame);
        proof {
            let n = self.frames.len();
            assert(self.frames@[n - 1] == frame);
            assert forall|i: int, k: int|
                0 <= i < self.frames.len() && 0 <= k < self.frames@[i].len() implies (
                #[trigger] self.frames@[i]@[k]).value.wf() by {
                if i < n - 1 {
                    assert(self.frames@[i] == old(self).frames@[i]);
                } else if k < f0.len() {
                    assert(self.frames@[i]@[k] == old(self).frames@[n - 1]@[k]);
                }
            }
            assert(frame_model(frame@) =~= fm.push((key@, value.view())));
            assert(self.model() =~= m.update(m.len() - 1, m.last().push((key@, value.view()))));
        }
        Ok(())
    }
}

/// A name is unbound in a frame exactly when no entry has it.
pub proof fn lemma_find_none(f: Seq<(Seq<char>, Value)>, name: Seq<char>, i: nat)
    ensures
        (find_in(f, name, i) is None) == (forall|j: int| i <= j < f.len() ==> (#[trigger] f[j]).0 != name),
    decreases f.len() - i,
{
    if i < f.len() {
        lemma_find_none(f, name, i + 1);
        if f[i as int].0 != name && find_in(f, name, i + 1) is None {
            assert forall|j: int| i <= j < f.len() implies (#[trigger] f[j]).0 != name by {
                if j > i {
                }
            }
        }
    }
}

/// The groups of bindings that a scope can import.
#[derive(Debug, Clone, Copy, PartialEq, Eq, Structural)]
pub enum Module {
    /// `max`, `min`, `sum` and `product`.
    SetBuiltins,
    /// `PI` and `E`.
    MathConstants,
}

pub open spec fn module_bindings(m: Module) -> Seq<(Seq<char>, Value)> {
    match m {
        Module::SetBuiltins => seq![
            ("max"@, Value::Builtin(Builtin::Max)),
            ("min"@, Value::Builtin(Builtin::Min)),
            ("sum"@, Value::Builtin(Builtin::Sum)),
            ("product"@, Value::Builtin(Builtin::Product)),
        ],
        Module::MathConstants => seq![
            ("PI"@, Value::Real(Real { mantissa: 31415926535897932384626433833, scale: 28 })),
            ("E"@, Value::Real(Real { mantissa: 27182818284590452353602874714, scale: 28 })),
        ],
    }
}

/// Binds the set functions `max`, `min`, `sum` and `product`.
pub fn set_builtins(env: &mut Environment) -> (r: Result<(), RuntimeError>)
    requires
        old(env).wf(),
    ensures
        final(env).wf(),
        final(env).frames.len() == old(env).frames.len(),
        (forall|i: int| 0 <= i < module_bindings(Module::SetBuiltins).len() ==> find_in(
            old(env).model().last(),
            (#[trigger] module_bindings(Module::SetBuiltins)[i]).0,
            0,
        ) is None) ==> r is Ok && final(env).model() == old(env).model().update(
            old(env).model().len() - 1,
            old(env).model().last() + module_bindings(Module::SetBuiltins),
        ),
{
    let names: [&str; 4] = ["max", "min", "sum", "product"];
    let builtins: [Builtin; 4] = [Builtin::Max, Builtin::Min, Builtin::Sum, Builtin::Product];
    let ghost m0 = env.model();
    let ghost mb = module_bindings(Module::SetBuiltins);
    proof {
        reveal_strlit("max");
        reveal_strlit("min");
        reveal_strlit("sum");
        reveal_strlit("product");
        assert(names@ =~= seq!["max", "min", "sum", "product"]);
        assert("max"@[1] != "min"@[1]);
        assert("max"@[0] != "sum"@[0]);
        assert("max"@[0] != "product"@[0]);
        assert("min"@[0] != "sum"@[0]);
        assert("min"@[0] != "product"@[0]);
        assert("sum"@[0] != "product"@[0]);
    }
    let mut i: usize = 0;
    while i < 4
        invariant
            i <= 4,
            env.wf(),
            env.frames.len() == old(env).frames.len(),
            m0 == old(env).model(),
            mb == module_bindings(Module::SetBuiltins),
            names@ == seq!["max", "min", "sum", "product"],
            "max"@ != "min"@ && "max"@ != "sum"@ && "max"@ != "product"@ && "min"@ != "sum"@ && "min"@ != "product"@
                && "sum"@ != "product"@,
            builtins@ == seq![Builtin::Max, Builtin::Min, Builtin::Sum, Builtin::Product],
            (forall|k: int| 0 <= k < mb.len() ==> find_in(m0.last(), (#[trigger] mb[k]).0, 0) is None) ==> env.model()
                == m0.update(m0.len() - 1, m0.last() + mb.subrange(0, i as int)),
        decreases 4 - i,
    {
        let b = builtin_binding(names[i], builtins[i]);
        let ghost before = env.model();
        proof {
            assert(b.name@ == mb[i as int].0);
            if forall|k: int| 0 <= k < mb.len() ==> find_in(m0.last(), (#[trigger] mb[k]).0, 0) is None {
                let f = m0.last() + mb.subrange(0, i as int);
                assert(before.last() == f);
                assert(find_in(m0.last(), mb[i as int].0, 0) is None);
                lemma_find_none(m0.last(), mb[i as int].0, 0);
                assert forall|j: int| 0 <= j < f.len() implies (#[trigger] f[j]).0 != mb[i as int].0 by {
                    if j >= m0.last().len() {
                        assert(f[j] == mb[j - m0.last().len()]);
                    } else {
                        assert(f[j] == m0.last()[j]);
                    }
                }
                lemma_find_none(f, mb[i as int].0, 0);
            }
        }
        let res = env.set(&b.name, &b.value);
        if res.is_err() {
            return res;
        }
        proof {
            if forall|k: int| 0 <= k < mb.len() ==> find_in(m0.last(), (#[trigger] mb[k]).0, 0) is None {
                assert(mb.subrange(0, i + 1) =~= mb.subrange(0, i as int).push(mb[i as int]));
                assert(m0.last() + mb.subrange(0, i + 1) =~= (m0.last() + mb.subrange(0, i as int)).push(mb[i as int]));
            }
        }
        i = i + 1;
    }
    proof {
        assert(mb.subrange(0, 4) =~= mb);
    }
    Ok(())
}

/// Binds the constants `PI` and `E`.
pub fn math_constants_builtins(env: &mut Environment) -> (r: Result<(), RuntimeError>)
    requires
        old(env).wf(),
    ensures
        final(env).wf(),
        final(env).frames.len() == old(env).frames.len(),
        (forall|i: int| 0 <= i < module_bindings(Module::MathConstants).len() ==> find_in(
            old(env).model().last(),
            (#[trigger] module_bindings(Module::MathConstants)[i]).0,
            0,
        ) is None) ==> r is Ok && final(env).model() == old(env).model().update(
            old(env).model().len() - 1,
            old(env).model().last() + module_bindings(Module::MathConstants),
        ),
{
    let ghost m0 = env.model();
    let ghost mb = module_bindings(Module::MathConstants);
    let pi = Object::Real(Real::pi());
    let e = Object::Real(Real::e());
    proof {
        reveal_strlit("PI");
        reveal_strlit("E");
    }
    let pi_name = "PI".to_string();
    let e_name = "E".to_string();
    env.set(&pi_name, &pi)?;
    let ghost m1 = env.model();
    proof {
        if forall|k: int| 0 <= k < mb.len() ==> find_in(m0.last(), (#[trigger] mb[k]).0, 0) is None {
            assert(find_in(m0.last(), mb[1].0, 0) is None);
            lemma_find_none(m0.last(), mb[1].0, 0);
            let f = m0.last().push(mb[0]);
            assert(m1.last() == f);
            assert("PI"@.len() != "E"@.len());
            assert forall|j: int| 0 <= j < f.len() implies (#[trigger] f[j]).0 != mb[1].0 by {
                if j < m0.last().len() {
                    assert(f[j] == m0.last()[j]);
                }
            }
            lemma_find_none(f, mb[1].0, 0);
        }
    }
    env.set(&e_name, &e)?;
    proof {
        assert(m0.last() + mb =~= m0.last().push(mb[0]).push(mb[1]));
    }
    Ok(())
}

fn builtin_binding(name: &str, b: Builtin) -> (r: Binding)
    ensures
        r.value.wf(),
        r.name@ == name@,
        r.value.view() == Value::Builtin(b),
{
    let mut parameters: Vec<Parameter> = Vec::new();
    parameters.push(Parameter { name: "s".to_string() });
    Binding { name: name.to_string(), value: Object::BuiltinFunction { parameters, builtin: b } }
}

} // verus!

verus! {

fn bind(frame: &mut Vec<Binding>, name: &String, value: Object) -> (r: Result<(), RuntimeError>)
    requires
        value.wf(),
        forall|j: int| 0 <= j < old(frame).len() ==> (#[trigger] old(frame)@[j]).value.wf(),
    ensures
        forall|j: int| 0 <= j < final(frame).len() ==> (#[trigger] final(frame)@[j]).value.wf(),
        r is Err <==> find_in(frame_model(old(frame)@), name@, 0) is Some,
        r matches Err(e) ==> e.kind() == ErrorKind::Name,
        r is Ok ==> frame_model(final(frame)@) == frame_model(old(frame)@).push((name@, value.view())),
{
    let ghost fm = frame_model(frame@);
    let mut j: usize = 0;
    while j < frame.len()
        invariant
            j <= frame.len(),
            frame@ == old(frame)@,
            fm == frame_model(frame@),
            forall|k: int| 0 <= k < frame.len() ==> (#[trigger] frame@[k]).value.wf(),
            find_in(fm, name@, 0) == find_in(fm, name@, j as nat),
        decreases frame.len() - j,
    {
        if frame[j].name == *name {
            return Err(RuntimeError::NameError("Cannot re-declare a parameter.".to_string()));
        }
        j = j + 1;
    }
    let ghost vv = value.view();
    frame.push(Binding { name: name.clone(), value });
    assert(frame_model(frame@) =~= fm.push((name@, vv)));
    Ok(())
}

impl Environment {
    /// Evaluates an expression: the result is what `spec_eval` gives in
    /// the current scopes, which are left as they were.
    pub fn eval(&mut self, expr: &Expression) -> (r: Result<Object, RuntimeError>)
        requires
            old(self).wf(),
        ensures
            final(self).frames@ == old(self).frames@,
            final(self).wf(),
            outcome(r) == spec_eval(old(self).model(), *expr),
            r matches Ok(o) ==> o.wf(),
        decreases MAX_FRAMES - old(self).frames.len(), expr, 1nat,
    {
        let ghost m = self.model();
        match expr {
            Expression::Identifier(key) => match self.get(key.as_str()) {
                Some(value) => Ok(value),
                None => Err(RuntimeError::NameError(key.clone())),
            },
            Expression::IntegerLiteral(value) => Ok(Object::Integer(*value)),
            Expression::RealLiteral(value) => match value.checked() {
                Some(x) => Ok(Object::Real(x)),
                None => Ok(Object::Undefined),
            },
            Expression::BooleanLiteral(value) => Ok(Object::Boolean(*value)),
            Expression::UndefinedLiteral => Ok(Object::Undefined),
            Expression::Combination { .. } => self.eval_combination(expr),
            Expression::Call { function, arguments } => {
                let callee = self.eval(function)?;
                match callee {
                    Object::Function { parameters, expression } => self.call_function(
                        &parameters,
                        expression,
                        arguments,
                    ),
                    Object::BuiltinFunction { builtin, .. } => {
                        let args = self.eval_all(arguments)?;
                        call_builtin(builtin, &args)
                    },
                    _ => Err(operator_error("Illegal call expression.")),
                }
            },
            Expression::PiecewiseBlock(arms) => self.eval_arms(arms),
            Expression::AbsoluteValue(inner) => {
                let v = self.eval(inner)?;
                v.abs()
            },
            Expression::SetLiteral(members) => {
                let values = self.eval_literal_members(members)?;
                let r = build_set(&values);
                proof {
                    let vs = views(values@);
                    if r is Ok {
                        let o = r->Ok_0;
                        assert(is_literal_set(o.view(), vs));
                        assert(is_literal_set(choose|v: Value| #[trigger] is_literal_set(v, vs), vs));
                        lemma_literal_unique(vs, o.view(), choose|v: Value| #[trigger] is_literal_set(v, vs));
                    }
                }
                r
            },
        }
    }

    fn eval_combination(&mut self, expr: &Expression) -> (r: Result<Object, RuntimeError>)
        requires
            old(self).wf(),
            expr is Combination,
        ensures
            final(self).frames@ == old(self).frames@,
            final(self).wf(),
            outcome(r) == spec_eval(old(self).model(), *expr),
            r matches Ok(o) ==> o.wf(),
        decreases MAX_FRAMES - old(self).frames.len(), expr, 0nat,
    {
        let (left, operator, right) = match expr {
            Expression::Combination { left, operator, right } => (left, operator, right),
            _ => {
                return Err(operator_error("Not an operator expression."));
            },
        };
        match (left, operator.1, right) {
            (Some(l), Location::Infix, Some(rt)) => {
                let a = self.eval(l)?;
                let b = self.eval(rt)?;
                let ghost av = a.view();
                let ghost bv = b.view();
                let r = apply_infix(&operator.0, a, b);
                proof {
                    let w = choose|w: Result<Value, ErrorKind>| #[trigger] infix_result(operator.0, av, bv, w);
                    assert(infix_result(operator.0, av, bv, outcome(r)));
                    assert(infix_result(operator.0, av, bv, w));
                    lemma_infix_unique(operator.0, av, bv, outcome(r), w);
                }
                r
            },
            (None, Location::Prefix, Some(rt)) => {
                let a = self.eval(rt)?;
                apply_prefix(&operator.0, &a)
            },
            (Some(l), Location::Postfix, None) => {
                let a = self.eval(l)?;
                apply_postfix(&operator.0, &a)
            },
            _ => Err(operator_error("Illegal combination of operands and operator.")),
        }
    }

    /// Evaluates expressions in order, stopping at the first error.
    fn eval_all(&mut self, es: &Vec<Expression>) -> (r: Result<Vec<Object>, RuntimeError>)
        requires
            old(self).wf(),
        ensures
            final(self).frames@ == old(self).frames@,
            final(self).wf(),
            match r {
                Ok(vs) => spec_eval_all(old(self).model(), es@, 0) == Ok::<Seq<Value>, ErrorKind>(views(vs@)),
                Err(e) => spec_eval_all(old(self).model(), es@, 0) == Err::<Seq<Value>, ErrorKind>(e.kind()),
            },
            r matches Ok(vs) ==> forall|i: int| 0 <= i < vs.len() ==> (#[trigger] vs@[i]).wf(),
        decreases MAX_FRAMES - old(self).frames.len(), es, 0nat,
    {
        let ghost m = self.model();
        let mut out: Vec<Object> = Vec::new();
        let mut i: usize = 0;
        while i < es.len()
            invariant
                i <= es.len(),
                out.len() == i,
                self.frames@ == old(self).frames@,
                m == self.model(),
                m == old(self).model(),
                self.wf(),
                forall|j: int| 0 <= j < out.len() ==> (#[trigger] out@[j]).wf(),
                spec_eval_all(m, es@, 0) == match spec_eval_all(m, es@, i as nat) {
                    Ok(rest) => Ok::<Seq<Value>, ErrorKind>(views(out@) + rest),
                    Err(k) => Err(k),
                },
            decreases es.len() - i,
        {
            proof {
                assert(decreases_to!(es => es[i as int]));
                lemma_views(out@);
            }
            let v = match self.eval(&es[i]) {
                Ok(v) => v,
                Err(e) => {
                    return Err(e);
                },
            };
            let ghost before = views(out@);
            out.push(v);
            proof {
                lemma_views(out@);
                assert(views(out@) =~= before.push(v.view()));
                match spec_eval_all(m, es@, (i + 1) as nat) {
                    Ok(rest) => {
                        assert(before + (seq![v.view()] + rest) =~= views(out@) + rest);
                    },
                    Err(k) => {},
                }
            }
            i = i + 1;
        }
        proof {
            assert(views(out@) + Seq::<Value>::empty() =~= views(out@));
        }
        Ok(out)
    }

    /// The members of a set literal, each checked as soon as it is
    /// evaluated.
    fn eval_literal_members(&mut self, es: &Vec<Expression>) -> (r: Result<Vec<Object>, RuntimeError>)
        requires
            old(self).wf(),
        ensures
            final(self).frames@ == old(self).frames@,
            final(self).wf(),
            match r {
                Ok(vs) => spec_literal_members(old(self).model(), es@, 0, None) == Ok::<Seq<Value>, ErrorKind>(views(vs@)),
                Err(e) => spec_literal_members(old(self).model(), es@, 0, None) == Err::<Seq<Value>, ErrorKind>(e.kind()),
            },
            r matches Ok(vs) ==> forall|i: int| 0 <= i < vs.len() ==> (#[trigger] vs@[i]).wf(),
        decreases MAX_FRAMES - old(self).frames.len(), es, 0nat,
    {
        let ghost m = self.model();
        let mut out: Vec<Object> = Vec::new();
        let mut kind: Option<Kind> = None;
        let mut i: usize = 0;
        while i < es.len()
            invariant
                i <= es.len(),
                out.len() == i,
                self.frames@ == old(self).frames@,
                m == self.model(),
                m == old(self).model(),
                self.wf(),
                forall|j: int| 0 <= j < out.len() ==> (#[trigger] out@[j]).wf(),
                spec_literal_members(m, es@, 0, None) == match spec_literal_members(m, es@, i as nat, kind) {
                    Ok(rest) => Ok::<Seq<Value>, ErrorKind>(views(out@) + rest),
                    Err(k) => Err(k),
                },
            decreases es.len() - i,
        {
            proof {
                assert(decreases_to!(es => es[i as int]));
                lemma_views(out@);
            }
            let v = match self.eval(&es[i]) {
                Ok(v) => v,
                Err(e) => {
                    return Err(e);
                },
            };
            let vk = kind_of_object(&v);
            if !is_storable(&v) || (kind.is_some() && vk != kind) {
                return Err(type_error("Set members must be defined values of one kind."));
            }
            if kind.is_none() {
                kind = vk;
            }
            let ghost before = views(out@);
            let ghost vv = v.view();
            let ghost prev = out@;
            out.push(v);
            proof {
                lemma_views(out@);
                lemma_views(prev);
                assert forall|j: int| 0 <= j < out.len() implies views(out@)[j] == before.push(vv)[j] by {
                    if j < prev.len() {
                        assert(out@[j] == prev[j]);
                    }
                }
                assert(views(out@) =~= before.push(vv));
                match spec_literal_members(m, es@, (i + 1) as nat, kind) {
                    Ok(rest) => {
                        assert(before + (seq![vv] + rest) =~= views(out@) + rest);
                    },
                    Err(k) => {},
                }
            }
            i = i + 1;
        }
        proof {
            assert(views(out@) + Seq::<Value>::empty() =~= views(out@));
        }
        Ok(out)
    }

    /// A piecewise block: the value of the first arm, in written order,
    /// whose guard is `true`.
    fn eval_arms(&mut self, arms: &Vec<(Expression, Expression)>) -> (r: Result<Object, RuntimeError>)
        requires
            old(self).wf(),
        ensures
            final(self).frames@ == old(self).frames@,
            final(self).wf(),
            outcome(r) == spec_arms(old(self).model(), arms@, 0),
            r matches Ok(o) ==> o.wf(),
        decreases MAX_FRAMES - old(self).frames.len(), arms, 0nat,
    {
        let ghost m = self.model();
        let mut i: usize = 0;
        while i < arms.len()
            invariant
                i <= arms.len(),
                self.frames@ == old(self).frames@,
                m == self.model(),
                m == old(self).model(),
                self.wf(),
                spec_arms(m, arms@, 0) == spec_arms(m, arms@, i as nat),
            decreases arms.len() - i,
        {
            proof {
                assert(decreases_to!(arms => arms[i as int]));
            }
            let g = self.eval(&arms[i].1)?;
            match g {
                Object::Boolean(true) => {
                    return self.eval(&arms[i].0);
                },
                Object::Boolean(false) => {},
                _ => {
                    return Err(type_error("A piecewise guard must be a boolean."));
                },
            }
            i = i + 1;
        }
        Ok(Object::Undefined)
    }

    /// Calls a function: its arguments are evaluated in the caller's scope
    /// and bound, position by position, in one new scope for the body.
    fn call_function(&mut self, parameters: &Vec<Parameter>, body: Rc<Expression>, arguments: &Vec<Expression>) -> (r: Result<
        Object,
        RuntimeError,
    >)
        requires
            old(self).wf(),
        ensures
            final(self).frames@ == old(self).frames@,
            final(self).wf(),
            outcome(r) == (if old(self).model().len() >= MAX_FRAMES {
                Err::<Value, ErrorKind>(ErrorKind::Depth)
            } else {
                match spec_bind(old(self).model(), parameter_names(parameters@), arguments@, 0, Seq::empty()) {
                    Ok(frame) => if old(self).model().len() + 1 <= MAX_FRAMES {
                        spec_eval(old(self).model().push(frame), *body)
                    } else {
                        Err::<Value, ErrorKind>(ErrorKind::Depth)
                    },
                    Err(k) => Err(k),
                }
            }),
            r matches Ok(o) ==> o.wf(),
        decreases MAX_FRAMES - old(self).frames.len(), arguments, 0nat,
    {
        let ghost m = self.model();
        let ghost names = parameter_names(parameters@);
        if self.frames.len() >= MAX_FRAMES {
            return Err(RuntimeError::DepthError("Maximum call depth exceeded.".to_string()));
        }
        let mut frame: Vec<Binding> = Vec::new();
        let mut i: usize = 0;
        assert(frame_model(frame@) =~= Seq::<(Seq<char>, Value)>::empty());
        while i < parameters.len() && i < arguments.len()
            invariant
                i <= arguments.len(),
                names == parameter_names(parameters@),
                self.frames@ == old(self).frames@,
                m == self.model(),
                m == old(self).model(),
                self.wf(),
                self.frames.len() < MAX_FRAMES,
                forall|j: int| 0 <= j < frame.len() ==> (#[trigger] frame@[j]).value.wf(),
                spec_bind(m, names, arguments@, 0, Seq::empty()) == spec_bind(
                    m,
                    names,
                    arguments@,
                    i as nat,
                    frame_model(frame@),
                ),
            decreases arguments.len() - i,
        {
            proof {
                assert(decreases_to!(arguments => arguments[i as int]));
                assert(names[i as int] == parameters@[i as int].name@);
            }
            let v = self.eval(&arguments[i])?;
            bind(&mut frame, &parameters[i].name, v)?;
            i = i + 1;
        }
        let ghost fm = frame_model(frame@);
        self.frames.push(frame);
        proof {
            assert forall|a: int, k: int|
                0 <= a < self.frames.len() && 0 <= k < self.frames@[a].len() implies (
                #[trigger] self.frames@[a]@[k]).value.wf() by {
                if a < self.frames.len() - 1 {
                    assert(self.frames@[a] == old(self).frames@[a]);
                }
            }
            assert(self.model() =~= m.push(fm));
        }
        let r = self.eval(&*body);
        self.frames.pop();
        proof {
            assert(self.frames@ =~= old(self).frames@);
        }
        r
    }

    /// Executes a statement that is handed over: its outcome and the scopes
    /// after it are what `spec_statement` gives.
    pub fn run_statement(&mut self, stmt: Statement) -> (r: Result<Object, RuntimeError>)
        requires
            old(self).wf(),
        ensures
            final(self).wf(),
            final(self).frames.len() == old(self).frames.len(),
            r matches Ok(o) ==> o.wf(),
            match spec_statement(old(self).model(), stmt) {
                Ok((s2, v)) => r matches Ok(o) && o.view() == v && final(self).model() == s2,
                Err(k) => r matches Err(e) && e.kind() == k && final(self).frames@ == old(self).frames@,
            },
    {
        match stmt {
            Statement::Assignment { identifier, expression } => {
                let v = self.eval(&expression)?;
                self.set(&identifier, &v)?;
                Ok(Object::Undefined)
            },
            Statement::ExpressionStatement { expression } => self.eval(&expression),
            Statement::FunctionDeclaration { identifier, parameters, expression } => {
                let f = Object::Function { parameters, expression: Rc::new(expression) };
                self.set(&identifier, &f)?;
                Ok(Object::Undefined)
            },
        }
    }

    /// Executes statements in order until the first error; on success the
    /// values and the scopes after them are what `spec_run` gives.
    pub fn run_program(&mut self, stmts: Vec<Statement>) -> (r: Result<Vec<Object>, RuntimeError>)
        requires
            old(self).wf(),
        ensures
            final(self).wf(),
            final(self).frames.len() == old(self).frames.len(),
            r matches Ok(vs) ==> forall|i: int| 0 <= i < vs.len() ==> (#[trigger] vs@[i]).wf(),
            match spec_run(old(self).model(), stmts@, 0) {
                Ok((s2, vals)) => r matches Ok(vs) && views(vs@) == vals && final(self).model() == s2,
                Err(k) => r matches Err(e) && e.kind() == k,
            },
            final(self).model() == spec_final_scopes(old(self).model(), stmts@, 0),
    {
        let ghost all = stmts@;
        let ghost m0 = self.model();
        let mut rest = stmts;
        let mut out: Vec<Object> = Vec::new();
        let mut i: usize = 0;
        proof {
            assert(rest@ =~= all.subrange(0, all.len() as int));
            assert(all.len() == rest.len());
            lemma_views(out@);
        }
        while rest.len() > 0
            invariant
                self.wf(),
                self.frames.len() == old(self).frames.len(),
                m0 == old(self).model(),
                rest@ == all.subrange(i as int, all.len() as int),
                i <= all.len(),
                all.len() <= usize::MAX,
                all == stmts@,
                forall|j: int| 0 <= j < out.len() ==> (#[trigger] out@[j]).wf(),
                spec_final_scopes(m0, all, 0) == spec_final_scopes(self.model(), all, i as nat),
                spec_run(m0, all, 0) == match spec_run(self.model(), all, i as nat) {
                    Ok((s3, vs)) => Ok::<(Scopes, Seq<Value>), ErrorKind>((s3, views(out@) + vs)),
                    Err(k) => Err(k),
                },
            decreases rest.len(),
        {
            let stmt = rest.remove(0);
            proof {
                assert(stmt == all[i as int]);
                assert(rest@ =~= all.subrange(i + 1, all.len() as int));
            }
            let ghost before = views(out@);
            let ghost m = self.model();
            let v = match self.run_statement(stmt) {
                Ok(v) => v,
                Err(e) => {
                    proof {
                        assert(self.model() == m);
                        assert(spec_run(m, all, i as nat) == Err::<(Scopes, Seq<Value>), ErrorKind>(e.kind()));
                        assert(spec_run(m0, all, 0) == Err::<(Scopes, Seq<Value>), ErrorKind>(e.kind()));
                    }
                    return Err(e);
                },
            };
            let ghost vv = v.view();
            let ghost prev = out@;
            out.push(v);
            proof {
                lemma_views(out@);
                lemma_views(prev);
                assert forall|j: int| 0 <= j < out.len() implies views(out@)[j] == before.push(vv)[j] by {
                    if j < prev.len() {
                        assert(out@[j] == prev[j]);
                    }
                }
                assert(views(out@) =~= before.push(vv));
                match spec_run(self.model(), all, (i + 1) as nat) {
                    Ok((s3, vs)) => {
                        assert(before + (seq![v.view()] + vs) =~= views(out@) + vs);
                    },
                    Err(k) => {},
                }
            }
            i = i + 1;
        }
        proof {
            assert(views(out@) + Seq::<Value>::empty() =~= views(out@));
        }
        Ok(out)
    }

    /// Executes a statement. An expression statement gives its value; an
    /// assignment binds its name to the value in the innermost scope and
    /// gives `Undefined`; so does a function declaration, with a function
    /// of the declared parameters.
    pub fn eval_statement(&mut self, stmt: &Statement) -> (r: Result<Object, RuntimeError>)
        requires
            old(self).wf(),
        ensures
            final(self).wf(),
            final(self).frames.len() == old(self).frames.len(),
            r matches Ok(o) ==> o.wf(),
            stmt matches Statement::ExpressionStatement { expression } ==> final(self).frames@ == old(self).frames@
                && outcome(r) == spec_eval(old(self).model(), *expression),
            stmt matches Statement::Assignment { identifier, expression } ==> match spec_eval(old(self).model(), *expression) {
                Ok(v) => if find_in(old(self).model().last(), identifier@, 0) is Some {
                    outcome(r) == Err::<Value, ErrorKind>(ErrorKind::Name) && final(self).frames@ == old(self).frames@
                } else {
                    outcome(r) == Ok::<Value, ErrorKind>(Value::Undefined) && final(self).model() == old(self).model().update(
                        old(self).model().len() - 1,
                        old(self).model().last().push((identifier@, v)),
                    )
                },
                Err(k) => outcome(r) == Err::<Value, ErrorKind>(k) && final(self).frames@ == old(self).frames@,
            },
            stmt matches Statement::FunctionDeclaration { identifier, parameters, .. } ==> if find_in(old(self).model().last(), identifier@, 0) is Some {
                outcome(r) == Err::<Value, ErrorKind>(ErrorKind::Name) && final(self).frames@ == old(self).frames@
            } else {
                outcome(r) == Ok::<Value, ErrorKind>(Value::Undefined) && exists|body: Expression| final(self).model() == old(self).model().update(
                    old(self).model().len() - 1,
                    old(self).model().last().push((identifier@, Value::Function(parameter_names(parameters@), body))),
                )
            },
    {
        match stmt {
            Statement::Assignment { identifier, expression } => {
                let v = self.eval(expression)?;
                self.set(identifier, &v)?;
                Ok(Object::Undefined)
            },
            Statement::ExpressionStatement { expression } => self.eval(expression),
            Statement::FunctionDeclaration { identifier, parameters, expression } => {
                let f = Object::Function {
                    parameters: copy_parameters(parameters),
                    expression: Rc::new(copy_expression(expression)),
                };
                self.set(identifier, &f)?;
                Ok(Object::Undefined)
            },
        }
    }
}

} // verus!
