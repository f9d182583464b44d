//! The abstract syntax: operators with their fixity and precedence,
//! expressions and statements.
use vstd::prelude::*;
use crate::errors::SyntaxError;
use crate::number::Real;
use crate::token::Token;

verus! {

/// Where an operator stands relative to its operands.
#[derive(Debug, Clone, Copy, PartialEq, Eq, Structural)]
pub enum Location {
    Prefix,
    Infix,
    Postfix,
}

/// Binding strength, from the loosest to the tightest.
#[derive(Debug, Clone, Copy, PartialEq, Eq, Structural)]
pub enum Precedence {
    Lowest,
    AndOrXor,
    LessGreaterEqualCoa,
    PlusMinus,
    MultDivMod,
    As,
    Not,
    Exponent,
    Postfix,
    Call,
    Hightest,
}

impl Precedence {
    pub open spec fn spec_rank(self) -> u8 {
        match self {
            Precedence::Lowest => 0,
            Precedence::AndOrXor => 1,
            Precedence::LessGreaterEqualCoa => 2,
            Precedence::PlusMinus => 3,
            Precedence::MultDivMod => 4,
            Precedence::As => 5,
            Precedence::Not => 6,
            Precedence::Exponent => 7,
            Precedence::Postfix => 8,
            Precedence::Call => 9,
            Precedence::Hightest => 255,
        }
    }

    /// The position of the level in the order of binding strength.
    #[verifier::when_used_as_spec(spec_rank)]
    pub fn rank(self) -> (r: u8)
        ensures
            r == self.spec_rank(),
    {
        match self {
            Precedence::Lowest => 0,
            Precedence::AndOrXor => 1,
            Precedence::LessGreaterEqualCoa => 2,
            Precedence::PlusMinus => 3,
            Precedence::MultDivMod => 4,
            Precedence::As => 5,
            Precedence::Not => 6,
            Precedence::Exponent => 7,
            Precedence::Postfix => 8,
            Precedence::Call => 9,
            Precedence::Hightest => 255,
        }
    }

    /// Whether `self` binds strictly more loosely than `o`.
    pub fn lt(self, o: Precedence) -> (r: bool)
        ensures
            r == (self.spec_rank() < o.spec_rank()),
    {
        self.rank() < o.rank()
    }
}

/// A named parameter of a function.
#[derive(Debug, Clone, PartialEq)]
pub struct Parameter {
    pub name: String,
}

/// A token together with its fixity.
#[derive(Debug, Clone, PartialEq)]
pub struct Operator(pub Token, pub Location);

/// The precedence of a token in a position, for the legal pairs only.
pub open spec fn spec_precedence(t: Token, l: Location) -> Option<Precedence> {
    match (t, l) {
        (Token::Not, Location::Prefix) | (Token::Minus, Location::Prefix) => Some(Precedence::Not),
        (Token::And, Location::Infix) | (Token::Or, Location::Infix) | (
            Token::Xor,
            Location::Infix,
        ) => Some(Precedence::AndOrXor),
        (Token::LessThan, Location::Infix)
        | (Token::LessThanEquals, Location::Infix)
        | (Token::GreaterThan, Location::Infix)
        | (Token::GreaterThanEquals, Location::Infix)
        | (Token::Equals, Location::Infix)
        | (Token::NotEquals, Location::Infix)
        | (Token::Question, Location::Infix)
        | (Token::In, Location::Infix) => Some(Precedence::LessGreaterEqualCoa),
        (Token::Plus, Location::Infix)
        | (Token::Minus, Location::Infix)
        | (Token::PlusMinus, Location::Infix)
        | (Token::MinusPlus, Location::Infix) => Some(Precedence::PlusMinus),
        (Token::Multiply, Location::Infix)
        | (Token::Division, Location::Infix)
        | (Token::Modulo, Location::Infix) => Some(Precedence::MultDivMod),
        (Token::As, Location::Infix) => Some(Precedence::As),
        (Token::Exponent, Location::Infix)
        | (Token::Union, Location::Infix)
        | (Token::Intersection, Location::Infix)
        | (Token::SymmetricDifference, Location::Infix)
        | (Token::SetDifference, Location::Infix) => Some(Precedence::Exponent),
        (Token::LeftParen, Location::Infix) => Some(Precedence::Call),
        (Token::Bang, Location::Postfix) => Some(Precedence::Postfix),
        _ => None,
    }
}

/// The precedence of a token in a position, or `None` for an illegal pair.
pub fn token_precedence(t: &Token, l: Location) -> (r: Option<Precedence>)
    ensures
        r == spec_precedence(*t, l),
{
    match (t, l) {
        (Token::Not, Location::Prefix) | (Token::Minus, Location::Prefix) => Some(Precedence::Not),
        (Token::And, Location::Infix) | (Token::Or, Location::Infix) | (
            Token::Xor,
            Location::Infix,
        ) => Some(Precedence::AndOrXor),
        (Token::LessThan, Location::Infix)
        | (Token::LessThanEquals, Location::Infix)
        | (Token::GreaterThan, Location::Infix)
        | (Token::GreaterThanEquals, Location::Infix)
        | (Token::Equals, Location::Infix)
        | (Token::NotEquals, Location::Infix)
        | (Token::Question, Location::Infix)
        | (Token::In, Location::Infix) => Some(Precedence::LessGreaterEqualCoa),
        (Token::Plus, Location::Infix)
        | (Token::Minus, Location::Infix)
        | (Token::PlusMinus, Location::Infix)
        | (Token::MinusPlus, Location::Infix) => Some(Precedence::PlusMinus),
        (Token::Multiply, Location::Infix)
        | (Token::Division, Location::Infix)
        | (Token::Modulo, Location::Infix) => Some(Precedence::MultDivMod),
        (Token::As, Location::Infix) => Some(Precedence::As),
        (Token::Exponent, Location::Infix)
        | (Token::Union, Location::Infix)
        | (Token::Intersection, Location::Infix)
        | (Token::SymmetricDifference, Location::Infix)
        | (Token::SetDifference, Location::Infix) => Some(Precedence::Exponent),
        (Token::LeftParen, Location::Infix) => Some(Precedence::Call),
        (Token::Bang, Location::Postfix) => Some(Precedence::Postfix),
        _ => None,
    }
}

impl Operator {
    /// The operator for a legal (token, fixity) pair.
    pub fn new(token: Token, location: Location) -> (r: Result<Operator, SyntaxError>)
        ensures
            r is Ok <==> spec_precedence(token, location) is Some,
            r matches Ok(op) ==> op == Operator(token, location),
    {
        match token_precedence(&token, location) {
            Some(_) => Ok(Operator(token, location)),
            None => Err(SyntaxError::new("Invalid location for token.")),
        }
    }

    /// The operator's precedence, or an error for an illegal pair.
    pub fn precedence(&self) -> (r: Result<Precedence, SyntaxError>)
        ensures
            r is Ok <==> spec_precedence(self.0, self.1) is Some,
            r matches Ok(p) ==> spec_precedence(self.0, self.1) == Some(p),
    {
        match token_precedence(&self.0, self.1) {
            Some(p) => Ok(p),
            None => Err(SyntaxError::new("Invalid location for token.")),
        }
    }
}

/// An expression of the language.
#[derive(Debug, PartialEq)]
pub enum Expression {
    Identifier(String),
    IntegerLiteral(i64),
    BooleanLiteral(bool),
    RealLiteral(Real),
    UndefinedLiteral,
    /// A prefix (no `left`), infix, or postfix (no `right`) operation.
    Combination { left: Option<Box<Expression>>, operator: Operator, right: Option<Box<Expression>> },
    Call { function: Box<Expression>, arguments: Vec<Expression> },
    /// Arms of (value, guard), tried in order.
    PiecewiseBlock(Vec<(Expression, Expression)>),
    AbsoluteValue(Box<Expression>),
    SetLiteral(Vec<Expression>),
}

/// A statement of the language.
#[derive(Debug, PartialEq)]
pub enum Statement {
    Assignment { identifier: String, expression: Expression },
    FunctionDeclaration { identifier: String, parameters: Vec<Parameter>, expression: Expression },
    ExpressionStatement { expression: Expression },
}

/// An expression as mathematics sees it: sequences in place of vectors,
/// names as character sequences.
pub enum ExprModel {
    Identifier(Seq<char>),
    IntegerLiteral(i64),
    BooleanLiteral(bool),
    RealLiteral(Real),
    UndefinedLiteral,
    Combination(Option<Box<ExprModel>>, Token, Location, Option<Box<ExprModel>>),
    Call(Box<ExprModel>, Seq<ExprModel>),
    PiecewiseBlock(Seq<(ExprModel, ExprModel)>),
    AbsoluteValue(Box<ExprModel>),
    SetLiteral(Seq<ExprModel>),
}

/// A statement as mathematics sees it.
pub enum StmtModel {
    Assignment(Seq<char>, ExprModel),
    FunctionDeclaration(Seq<char>, Seq<Seq<char>>, ExprModel),
    ExpressionStatement(ExprModel),
}

pub open spec fn model(e: Expression) -> ExprModel
    decreases e,
{
    match e {
        Expression::Identifier(n) => ExprModel::Identifier(n@),
        Expression::IntegerLiteral(i) => ExprModel::IntegerLiteral(i),
        Expression::BooleanLiteral(b) => ExprModel::BooleanLiteral(b),
        Expression::RealLiteral(x) => ExprModel::RealLiteral(x),
        Expression::UndefinedLiteral => ExprModel::UndefinedLiteral,
        Expression::Combination { left, operator, right } => ExprModel::Combination(
            match left {
                Some(l) => Some(Box::new(model(*l))),
                None => None,
            },
            operator.0,
            operator.1,
            match right {
                Some(r) => Some(Box::new(model(*r))),
                None => None,
            },
        ),
        Expression::Call { function, arguments } => ExprModel::Call(
            Box::new(model(*function)),
            models(arguments@, arguments@.len()),
        ),
        Expression::PiecewiseBlock(arms) => ExprModel::PiecewiseBlock(arm_models(arms@, arms@.len())),
        Expression::AbsoluteValue(x) => ExprModel::AbsoluteValue(Box::new(model(*x))),
        Expression::SetLiteral(es) => ExprModel::SetLiteral(models(es@, es@.len())),
    }
}

/// The models of the first `n` expressions.
pub open spec fn models(es: Seq<Expression>, n: nat) -> Seq<ExprModel>
    decreases es, n,
{
    if n == 0 || n > es.len() {
        Seq::empty()
    } else {
        models(es, (n - 1) as nat).push(model(es[n - 1]))
    }
}

/// The models of the first `n` piecewise arms.
pub open spec fn arm_models(arms: Seq<(Expression, Expression)>, n: nat) -> Seq<(ExprModel, ExprModel)>
    decreases arms, n,
{
    if n == 0 || n > arms.len() {
        Seq::empty()
    } else {
        arm_models(arms, (n - 1) as nat).push((model(arms[n - 1].0), model(arms[n - 1].1)))
    }
}

pub open spec fn param_names(ps: Seq<Parameter>) -> Seq<Seq<char>> {
    ps.map_values(|p: Parameter| p.name@)
}

pub open spec fn stmt_model(st: Statement) -> StmtModel {
    match st {
        Statement::Assignment { identifier, expression } => StmtModel::Assignment(identifier@, model(expression)),
        Statement::FunctionDeclaration { identifier, parameters, expression } => StmtModel::FunctionDeclaration(
            identifier@,
            param_names(parameters@),
            model(expression),
        ),
        Statement::ExpressionStatement { expression } => StmtModel::ExpressionStatement(model(expression)),
    }
}

/// The models of the first `n` statements.
pub open spec fn stmt_models(ss: Seq<Statement>, n: nat) -> Seq<StmtModel>
    decreases n,
{
    if n == 0 || n > ss.len() {
        Seq::empty()
    } else {
        stmt_models(ss, (n - 1) as nat).push(stmt_model(ss[n - 1]))
    }
}

pub proof fn lemma_models_index(es: Seq<Expression>, n: nat)
    requires
        n <= es.len(),
    ensures
        models(es, n).len() == n,
        forall|i: int| 0 <= i < n ==> #[trigger] models(es, n)[i] == model(es[i]),
    decreases n,
{
    if n > 0 {
        lemma_models_index(es, (n - 1) as nat);
    }
}

pub proof fn lemma_arm_models_index(arms: Seq<(Expression, Expression)>, n: nat)
    requires
        n <= arms.len(),
    ensures
        arm_models(arms, n).len() == n,
        forall|i: int| 0 <= i < n ==> #[trigger] arm_models(arms, n)[i] == (model(arms[i].0), model(arms[i].1)),
    decreases n,
{
    if n > 0 {
        lemma_arm_models_index(arms, (n - 1) as nat);
    }
}

pub proof fn lemma_models_prefix(a: Seq<Expression>, b: Seq<Expression>, n: nat)
    requires
        n <= a.len(),
        n <= b.len(),
        forall|i: int| 0 <= i < n ==> a[i] == b[i],
    ensures
        models(a, n) == models(b, n),
    decreases n,
{
    if n > 0 {
        lemma_models_prefix(a, b, (n - 1) as nat);
    }
}

pub proof fn lemma_models_push(a: Seq<Expression>, e: Expression)
    ensures
        models(a.push(e), a.len() + 1) == models(a, a.len()).push(model(e)),
{
    lemma_models_prefix(a.push(e), a, a.len());
}

pub proof fn lemma_arm_models_prefix(a: Seq<(Expression, Expression)>, b: Seq<(Expression, Expression)>, n: nat)
    requires
        n <= a.len(),
        n <= b.len(),
        forall|i: int| 0 <= i < n ==> a[i] == b[i],
    ensures
        arm_models(a, n) == arm_models(b, n),
    decreases n,
{
    if n > 0 {
        lemma_arm_models_prefix(a, b, (n - 1) as nat);
    }
}

pub proof fn lemma_arm_models_push(a: Seq<(Expression, Expression)>, e: (Expression, Expression))
    ensures
        arm_models(a.push(e), a.len() + 1) == arm_models(a, a.len()).push((model(e.0), model(e.1))),
{
    lemma_arm_models_prefix(a.push(e), a, a.len());
}

pub proof fn lemma_stmt_models_index(ss: Seq<Statement>, n: nat)
    requires
        n <= ss.len(),
    ensures
        stmt_models(ss, n).len() == n,
        forall|i: int| 0 <= i < n ==> #[trigger] stmt_models(ss, n)[i] == stmt_model(ss[i]),
    decreases n,
{
    if n > 0 {
        lemma_stmt_models_index(ss, (n - 1) as nat);
    }
}

pub proof fn lemma_stmt_models_prefix(a: Seq<Statement>, b: Seq<Statement>, n: nat)
    requires
        n <= a.len(),
        n <= b.len(),
        forall|i: int| 0 <= i < n ==> a[i] == b[i],
    ensures
        stmt_models(a, n) == stmt_models(b, n),
    decreases n,
{
    if n > 0 {
        lemma_stmt_models_prefix(a, b, (n - 1) as nat);
    }
}

/// A deep copy of an expression.
pub fn copy_expression(e: &Expression) -> (r: Expression)
    decreases e,
{
    match e {
        Expression::Identifier(name) => Expression::Identifier(name.clone()),
        Expression::IntegerLiteral(i) => Expression::IntegerLiteral(*i),
        Expression::BooleanLiteral(b) => Expression::BooleanLiteral(*b),
        Expression::RealLiteral(x) => Expression::RealLiteral(*x),
        Expression::UndefinedLiteral => Expression::UndefinedLiteral,
        Expression::Combination { left, operator, right } => {
            let l = match left {
                Some(x) => Some(Box::new(copy_expression(x))),
                None => None,
            };
            let r = match right {
                Some(x) => Some(Box::new(copy_expression(x))),
                None => None,
            };
            Expression::Combination { left: l, operator: Operator(operator.0.clone(), operator.1), right: r }
        },
        Expression::Call { function, arguments } => Expression::Call {
            function: Box::new(copy_expression(function)),
            arguments: copy_expressions(arguments),
        },
        Expression::PiecewiseBlock(arms) => Expression::PiecewiseBlock(copy_arms(arms)),
        Expression::AbsoluteValue(x) => Expression::AbsoluteValue(Box::new(copy_expression(x))),
        Expression::SetLiteral(es) => Expression::SetLiteral(copy_expressions(es)),
    }
}

fn copy_expressions(es: &Vec<Expression>) -> (r: Vec<Expression>)
    decreases es,
{
    let mut out: Vec<Expression> = Vec::new();
    let mut i: usize = 0;
    while i < es.len()
        invariant
            i <= es.len(),
        decreases es.len() - i,
    {
        proof {
            assert(decreases_to!(es => es[i as int]));
        }
        out.push(copy_expression(&es[i]));
        i = i + 1;
    }
    out
}

fn copy_arms(arms: &Vec<(Expression, Expression)>) -> (r: Vec<(Expression, Expression)>)
    decreases arms,
{
    let mut out: Vec<(Expression, Expression)> = Vec::new();
    let mut i: usize = 0;
    while i < arms.len()
        invariant
            i <= arms.len(),
        decreases arms.len() - i,
    {
        proof {
            assert(decreases_to!(arms => arms[i as int]));
        }
        let v = copy_expression(&arms[i].0);
        let g = copy_expression(&arms[i].1);
        out.push((v, g));
        i = i + 1;
    }
    out
}

} // verus!
