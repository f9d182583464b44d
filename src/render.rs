//! Text of values, operators and expressions.
use vstd::prelude::*;
use crate::ast::{Expression, ExprModel, Location, Parameter, model, models, arm_models, lemma_models_index, lemma_arm_models_index};
use crate::object::parameter_names;
use crate::number::decimal_text;
use crate::object::{Object, lemma_set_items_wf, views, lemma_views};
use crate::value::{Value, orderable};
use crate::text::{int_text, int_to_text};
use crate::token::Token;

verus! {

fn push_str(s: &mut String, t: &str)
    ensures
        final(s)@ == old(s)@ + t@,
{
    s.append(t);
}

/// The first `n` names, separated by `, `.
pub open spec fn names_text(ns: Seq<Seq<char>>, n: nat) -> Seq<char>
    decreases n,
{
    if n == 0 || n > ns.len() {
        Seq::empty()
    } else {
        names_text(ns, (n - 1) as nat) + (if n > 1 { ", "@ } else { Seq::empty() }) + ns[n - 1]
    }
}

fn parameters_text(out: &mut String, ps: &Vec<Parameter>)
    ensures
        final(out)@ == old(out)@ + names_text(parameter_names(ps@), ps.len() as nat),
{
    let ghost ns = parameter_names(ps@);
    let mut i: usize = 0;
    while i < ps.len()
        invariant
            i <= ps.len(),
            ns == parameter_names(ps@),
            out@ == old(out)@ + names_text(ns, i as nat),
        decreases ps.len() - i,
    {
        if i > 0 {
            push_str(out, ", ");
        }
        push_str(out, ps[i].name.as_str());
        proof {
            reveal_strlit(", ");
            assert(ns[i as int] == ps@[i as int].name@);
            assert(out@ =~= old(out)@ + names_text(ns, (i + 1) as nat));
        }
        i = i + 1;
    }
}

/// The text of any token.
pub open spec fn token_text(t: Token) -> Seq<char> {
    match t {
        Token::Identifier(n) => n@,
        Token::Illegal(n) => n@,
        Token::Integer(i) => int_text(i as int),
        Token::Real(x) => match x.spec_checked() {
            Some(y) => decimal_text(y.pair()),
            None => "undefined"@,
        },
        _ => fixed_text(t),
    }
}

/// An expression as source text, every operation in parentheses; a
/// whole decimal keeps a `.0` so that it reads back as a decimal.
pub open spec fn expr_text(e: ExprModel) -> Seq<char>
    decreases e,
{
    match e {
        ExprModel::Identifier(n) => n,
        ExprModel::IntegerLiteral(i) => int_text(i as int),
        ExprModel::RealLiteral(x) => match x.spec_checked() {
            Some(y) => decimal_text(y.pair()) + (if y.scale == 0 { ".0"@ } else { Seq::empty() }),
            None => "undefined"@,
        },
        ExprModel::BooleanLiteral(b) => if b { "true"@ } else { "false"@ },
        ExprModel::UndefinedLiteral => "undefined"@,
        ExprModel::Combination(l, k, loc, r) => "("@ + (match l {
            Some(b) => expr_text(*b) + (if loc is Postfix { Seq::empty() } else { " "@ }),
            None => Seq::empty(),
        }) + token_text(k) + (match r {
            Some(b) => " "@ + expr_text(*b),
            None => Seq::empty(),
        }) + ")"@,
        ExprModel::Call(f, args) => "("@ + expr_text(*f) + ")("@ + list_text(args, args.len()) + ")"@,
        ExprModel::PiecewiseBlock(arms) => "{ "@ + arms_text(arms, arms.len()) + "}"@,
        ExprModel::AbsoluteValue(x) => "|"@ + expr_text(*x) + "|"@,
        ExprModel::SetLiteral(es) => "{ "@ + list_text(es, es.len()) + " }"@,
    }
}

/// The first `n` expressions, separated by `, `.
pub open spec fn list_text(es: Seq<ExprModel>, n: nat) -> Seq<char>
    decreases es, n,
{
    if n == 0 || n > es.len() {
        Seq::empty()
    } else {
        list_text(es, (n - 1) as nat) + (if n > 1 { ", "@ } else { Seq::empty() }) + expr_text(es[n - 1])
    }
}

/// The first `n` piecewise arms, each as `value if guard; `.
pub open spec fn arms_text(arms: Seq<(ExprModel, ExprModel)>, n: nat) -> Seq<char>
    decreases arms, n,
{
    if n == 0 || n > arms.len() {
        Seq::empty()
    } else {
        arms_text(arms, (n - 1) as nat) + expr_text(arms[n - 1].0) + " if "@ + expr_text(arms[n - 1].1) + "; "@
    }
}

/// The text of a token without a payload.
pub open spec fn fixed_text(t: Token) -> Seq<char> {
    match t {
        Token::Eof => "EOF"@,
        Token::Plus => "+"@,
        Token::Minus => "-"@,
        Token::Exponent => "^"@,
        Token::Division => "/"@,
        Token::Multiply => "*"@,
        Token::LeftParen => "("@,
        Token::RightParen => ")"@,
        Token::LeftBrace => "{"@,
        Token::RightBrace => "}"@,
        Token::LeftSquareBracket => "["@,
        Token::RightSquareBracket => "]"@,
        Token::Comma => ","@,
        Token::Semicolon => ";"@,
        Token::And => "and"@,
        Token::Or => "or"@,
        Token::Xor => "xor"@,
        Token::True => "true"@,
        Token::False => "false"@,
        Token::Colon => ":"@,
        Token::If => "if"@,
        Token::Else => "else"@,
        Token::Modulo => "%"@,
        Token::Undefined => "undefined"@,
        Token::Assign => "="@,
        Token::Equals => "=="@,
        Token::NotEquals => "=/="@,
        Token::LessThan => "<"@,
        Token::LessThanEquals => "<="@,
        Token::GreaterThan => ">"@,
        Token::GreaterThanEquals => ">="@,
        Token::Not => "not"@,
        Token::Let => "let"@,
        Token::FuncFn => "fn"@,
        Token::PlusMinus => "+/-"@,
        Token::MinusPlus => "-/+"@,
        Token::As => "as"@,
        Token::Question => "?"@,
        Token::In => "in"@,
        Token::Bang => "!"@,
        Token::Bar => "|"@,
        Token::FatArrow => "=>"@,
        Token::SkinnyArrow => "->"@,
        Token::Union => "\\/"@,
        Token::Intersection => "/\\"@,
        Token::SymmetricDifference => "/_\\"@,
        Token::SetDifference => "\\"@,
        Token::For => "for"@,
        Token::Where => "where"@,
        Token::Import => "import"@,
        Token::Use => "use"@,
        Token::Export => "export"@,
        Token::Pub => "pub"@,
        _ => Seq::empty(),
    }
}

impl Token {
    /// The text of a token as it is written.
    pub fn to_text(&self) -> (r: String)
        ensures
            r@ == token_text(*self),
            self matches Token::Identifier(n) ==> r@ == n@,
            self matches Token::Illegal(n) ==> r@ == n@,
            self matches Token::Integer(i) ==> r@ == int_text(*i as int),
            self matches Token::Real(x) ==> r@ == match x.spec_checked() {
                Some(y) => decimal_text(y.pair()),
                None => "undefined"@,
            },
            !(self is Identifier || self is Illegal || self is Integer || self is Real) ==> r@ == fixed_text(*self),
    {
        let s: &str = match self {
            Token::Illegal(v) => {
                return v.clone();
            },
            Token::Identifier(v) => {
                return v.clone();
            },
            Token::Real(x) => {
                return match x.checked() {
                    Some(y) => y.to_text(),
                    None => "undefined".to_string(),
                };
            },
            Token::Integer(i) => {
                return int_to_text(*i);
            },
            Token::Eof => "EOF",
            Token::Plus => "+",
            Token::Minus => "-",
            Token::Exponent => "^",
            Token::Division => "/",
            Token::Multiply => "*",
            Token::LeftParen => "(",
            Token::RightParen => ")",
            Token::LeftBrace => "{",
            Token::RightBrace => "}",
            Token::LeftSquareBracket => "[",
            Token::RightSquareBracket => "]",
            Token::Comma => ",",
            Token::Semicolon => ";",
            Token::And => "and",
            Token::Or => "or",
            Token::Xor => "xor",
            Token::True => "true",
            Token::False => "false",
            Token::Colon => ":",
            Token::If => "if",
            Token::Else => "else",
            Token::Modulo => "%",
            Token::Undefined => "undefined",
            Token::Assign => "=",
            Token::Equals => "==",
            Token::NotEquals => "=/=",
            Token::LessThan => "<",
            Token::LessThanEquals => "<=",
            Token::GreaterThan => ">",
            Token::GreaterThanEquals => ">=",
            Token::Not => "not",
            Token::Let => "let",
            Token::FuncFn => "fn",
            Token::PlusMinus => "+/-",
            Token::MinusPlus => "-/+",
            Token::As => "as",
            Token::Question => "?",
            Token::In => "in",
            Token::Bang => "!",
            Token::Bar => "|",
            Token::FatArrow => "=>",
            Token::SkinnyArrow => "->",
            Token::Union => "\\/",
            Token::Intersection => "/\\",
            Token::SymmetricDifference => "/_\\",
            Token::SetDifference => "\\",
            Token::For => "for",
            Token::Where => "where",
            Token::Import => "import",
            Token::Use => "use",
            Token::Export => "export",
            Token::Pub => "pub",
        };
        s.to_string()
    }
}

impl Expression {
    /// The expression as source text, with every operation in parentheses,
    /// so that parsing the text gives the expression back.
    pub fn to_text(&self) -> (r: String)
        ensures
            r@ == expr_text(model(*self)),
        decreases self,
    {
        let mut out = String::new();
        self.write_text(&mut out);
        proof {
            assert(out@ =~= expr_text(model(*self)));
        }
        out
    }

    fn write_text(&self, out: &mut String)
        ensures
            final(out)@ == old(out)@ + expr_text(model(*self)),
        decreases self,
    {
        proof {
            reveal_strlit("(");
            reveal_strlit(")");
            reveal_strlit(" ");
            reveal_strlit(")(");
            reveal_strlit("{ ");
            reveal_strlit("}");
            reveal_strlit(" }");
            reveal_strlit("|");
            reveal_strlit(".0");
        }
        let ghost o0 = out@;
        match self {
            Expression::Identifier(name) => push_str(out, name.as_str()),
            Expression::IntegerLiteral(i) => {
                let t = int_to_text(*i);
                push_str(out, t.as_str());
            },
            Expression::RealLiteral(x) => match x.checked() {
                Some(y) => {
                    let t = y.to_text();
                    push_str(out, t.as_str());
                    if y.scale == 0 {
                        push_str(out, ".0");
                    }
                },
                None => push_str(out, "undefined"),
            },
            Expression::BooleanLiteral(b) => push_str(
                out,
                if *b {
                    "true"
                } else {
                    "false"
                },
            ),
            Expression::UndefinedLiteral => push_str(out, "undefined"),
            Expression::Combination { left, operator, right } => {
                push_str(out, "(");
                let ghost lp: Seq<char> = match left {
                    Some(l) => expr_text(model(**l)) + (if operator.1 is Postfix { Seq::empty() } else { " "@ }),
                    None => Seq::empty(),
                };
                let ghost rp: Seq<char> = match right {
                    Some(r) => " "@ + expr_text(model(**r)),
                    None => Seq::empty(),
                };
                let ghost a = out@;
                match left {
                    Some(l) => {
                        l.write_text(out);
                        if !matches!(operator.1, Location::Postfix) {
                            push_str(out, " ");
                        }
                    },
                    None => {},
                }
                assert(out@ =~= a + lp);
                let t = operator.0.to_text();
                push_str(out, t.as_str());
                let ghost b = out@;
                match right {
                    Some(rt) => {
                        push_str(out, " ");
                        rt.write_text(out);
                    },
                    None => {},
                }
                assert(out@ =~= b + rp);
                push_str(out, ")");
            },
            Expression::Call { function, arguments } => {
                push_str(out, "(");
                function.write_text(out);
                push_str(out, ")(");
                proof {
                    lemma_models_index(arguments@, arguments@.len());
                }
                write_list(out, arguments);
                push_str(out, ")");
            },
            Expression::PiecewiseBlock(arms) => {
                push_str(out, "{ ");
                proof {
                    lemma_arm_models_index(arms@, arms@.len());
                }
                write_arms(out, arms);
                push_str(out, "}");
            },
            Expression::AbsoluteValue(inner) => {
                push_str(out, "|");
                inner.write_text(out);
                push_str(out, "|");
            },
            Expression::SetLiteral(members) => {
                push_str(out, "{ ");
                proof {
                    lemma_models_index(members@, members@.len());
                }
                write_list(out, members);
                push_str(out, " }");
            },
        };
        proof {
            assert(out@ =~= o0 + expr_text(model(*self)));
        }
    }
}

fn write_list(out: &mut String, es: &Vec<Expression>)
    ensures
        final(out)@ == old(out)@ + list_text(models(es@, es@.len()), es@.len()),
    decreases es,
{
    let ghost ms = models(es@, es@.len());
    proof {
        lemma_models_index(es@, es@.len());
    }
    let mut i: usize = 0;
    while i < es.len()
        invariant
            i <= es.len(),
            ms == models(es@, es@.len()),
            ms.len() == es.len(),
            forall|j: int| 0 <= j < es.len() ==> #[trigger] ms[j] == model(es@[j]),
            out@ == old(out)@ + list_text(ms, i as nat),
        decreases es.len() - i,
    {
        proof {
            assert(decreases_to!(es => es[i as int]));
            reveal_strlit(", ");
        }
        if i > 0 {
            push_str(out, ", ");
        }
        es[i].write_text(out);
        proof {
            assert(out@ =~= old(out)@ + list_text(ms, (i + 1) as nat));
        }
        i = i + 1;
    }
}

fn write_arms(out: &mut String, arms: &Vec<(Expression, Expression)>)
    ensures
        final(out)@ == old(out)@ + arms_text(arm_models(arms@, arms@.len()), arms@.len()),
    decreases arms,
{
    let ghost ms = arm_models(arms@, arms@.len());
    proof {
        lemma_arm_models_index(arms@, arms@.len());
    }
    let mut i: usize = 0;
    while i < arms.len()
        invariant
            i <= arms.len(),
            ms == arm_models(arms@, arms@.len()),
            ms.len() == arms.len(),
            forall|j: int| 0 <= j < arms.len() ==> #[trigger] ms[j] == (model(arms@[j].0), model(arms@[j].1)),
            out@ == old(out)@ + arms_text(ms, i as nat),
        decreases arms.len() - i,
    {
        proof {
            assert(decreases_to!(arms => arms[i as int]));
            reveal_strlit(" if ");
            reveal_strlit("; ");
        }
        arms[i].0.write_text(out);
        push_str(out, " if ");
        arms[i].1.write_text(out);
        push_str(out, "; ");
        proof {
            assert(out@ =~= old(out)@ + arms_text(ms, (i + 1) as nat));
        }
        i = i + 1;
    }
}

/// How a value prints: numbers in decimal, sets as `{ a, b }` with their
/// members in order (`{  }` when empty), a function as its declaration.
pub open spec fn value_text(v: Value) -> Seq<char>
    decreases v, 0nat,
{
    match v {
        Value::Integer(i) => int_text(i as int),
        Value::Real(x) => decimal_text(x.pair()),
        Value::Boolean(b) => if b {
            "true"@
        } else {
            "false"@
        },
        Value::Undefined => "undefined"@,
        Value::FiniteSet(xs, _) => "{ "@ + items_text(xs, xs.len()) + " }"@,
        Value::Function(ps, body) => "fn("@ + names_text(ps, ps.len()) + ") = "@ + expr_text(model(body)) + ";"@,
        Value::Builtin(_) => "fn(s) = <builtin-function>;"@,
    }
}

/// The first `n` members of a set, separated by `, `.
pub open spec fn items_text(xs: Seq<Value>, n: nat) -> Seq<char>
    decreases xs, n,
{
    if n == 0 || n > xs.len() {
        Seq::empty()
    } else {
        items_text(xs, (n - 1) as nat) + (if n > 1 {
            ", "@
        } else {
            Seq::empty()
        }) + value_text(xs[n - 1])
    }
}

impl Object {
    /// The value as the language prints it.
    pub fn to_text(&self) -> (r: String)
        requires
            self.wf(),
        ensures
            r@ == value_text(self.view()),
        decreases self,
    {
        match self {
            Object::Integer(i) => int_to_text(*i),
            Object::Real(x) => x.to_text(),
            Object::Boolean(b) => if *b {
                "true".to_string()
            } else {
                "false".to_string()
            },
            Object::Undefined => "undefined".to_string(),
            Object::FiniteSet { items, kind } => {
                proof {
                    lemma_set_items_wf(items@, *kind);
                    lemma_views(items@);
                }
                let mut out = "{ ".to_string();
                let ghost head = out@;
                write_items(&mut out, items);
                push_str(&mut out, " }");
                proof {
                    assert(views(items@).len() == items@.len());
                }
                out
            },
            Object::Function { parameters, expression } => {
                let mut out = "fn(".to_string();
                parameters_text(&mut out, parameters);
                push_str(&mut out, ") = ");
                let body = expression.to_text();
                push_str(&mut out, body.as_str());
                push_str(&mut out, ";");
                proof {
                    assert(parameter_names(parameters@).len() == parameters@.len());
                    assert(out@ =~= value_text(self.view()));
                }
                out
            },
            Object::BuiltinFunction { .. } => "fn(s) = <builtin-function>;".to_string(),
        }
    }
}

fn write_items(out: &mut String, items: &Vec<Object>)
    requires
        forall|i: int| 0 <= i < items.len() ==> (#[trigger] items@[i]).wf() && orderable(items@[i].view()),
    ensures
        final(out)@ == old(out)@ + items_text(views(items@), items.len() as nat),
    decreases items,
{
    let ghost vs = views(items@);
    proof {
        lemma_views(items@);
    }
    let mut i: usize = 0;
    while i < items.len()
        invariant
            i <= items.len(),
            vs == views(items@),
            vs.len() == items.len(),
            forall|j: int| 0 <= j < items.len() ==> (#[trigger] items@[j]).wf() && orderable(items@[j].view())
                && vs[j] == items@[j].view(),
            out@ == old(out)@ + items_text(vs, i as nat),
        decreases items.len() - i,
    {
        proof {
            assert(decreases_to!(items => items[i as int]));
        }
        let ghost before = out@;
        if i > 0 {
            push_str(out, ", ");
        }
        let t = items[i].to_text();
        push_str(out, t.as_str());
        proof {
            reveal_strlit(", ");
            assert(out@ =~= old(out)@ + items_text(vs, (i + 1) as nat));
        }
        i = i + 1;
    }
}

} // verus!
