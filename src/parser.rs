//! The parser: precedence climbing over the token stream, one token of
//! lookahead, producing statements or the first syntax error. Each
//! function gives exactly what the grammar of `grammar` gives.
use vstd::prelude::*;
use crate::ast::{Expression, Location, Operator, Parameter, Precedence, Statement, token_precedence, model, models,
    arm_models, param_names, stmt_model, stmt_models, lemma_models_push, lemma_arm_models_push,
    lemma_stmt_models_prefix, ExprModel};
use crate::errors::SyntaxError;
use crate::grammar::{parse_expr, parse_prefix, parse_loop, parse_infix, parse_args, parse_set, parse_guard,
    parse_piecewise, parse_arms, parse_params, parse_stmt, parse_fn_body, parse_program as spec_program};
use crate::lexer::LexerIterator;
use crate::token::Token;

verus! {

/// A parser over the tokens of one program.
pub struct Parser {
    pub tokens: Vec<Token>,
    pub pos: usize,
}

/// What an expression parser gives, against the grammar's result `g`.
pub open spec fn parsed_as(r: Result<Expression, SyntaxError>, g: Option<(ExprModel, nat)>, pos: usize) -> bool {
    match g {
        Some((m, end)) => r matches Ok(e) && model(e) == m && pos == end,
        None => r is Err,
    }
}

impl Parser {
    /// The token stream ends with its only `Eof`, and the cursor is on a token.
    pub open spec fn wf(&self) -> bool {
        &&& self.tokens.len() >= 1
        &&& self.tokens@.last() is Eof
        &&& self.pos < self.tokens.len()
    }

    pub open spec fn rest(&self) -> int {
        self.tokens.len() - self.pos
    }

    pub fn new(iterator: LexerIterator) -> (r: Parser)
        requires
            iterator.wf(),
            !iterator.done,
        ensures
            r.wf(),
            r.pos == 0,
            exists|ends: Seq<nat>, q: nat| #![trigger crate::lexer::lexed_run(iterator.chars@, iterator.pos as nat, r.tokens@.drop_last(), ends, q)]
                crate::lexer::lexed_run(iterator.chars@, iterator.pos as nat, r.tokens@.drop_last(), ends, q)
                    && crate::lexer::skip(iterator.chars@, q, false) >= iterator.chars@.len(),
            forall|i: int| 0 <= i < r.tokens.len() - 1 ==> !(#[trigger] r.tokens@[i] is Eof),
    {
        let mut it = iterator;
        let tokens = it.collect_tokens();
        Parser { tokens, pos: 0 }
    }

    fn peek(&self) -> (r: &Token)
        requires
            self.wf(),
        ensures
            *r == self.tokens@[self.pos as int],
    {
        &self.tokens[self.pos]
    }

    fn at_eof(&self) -> (r: bool)
        requires
            self.wf(),
        ensures
            r == (self.tokens@[self.pos as int] is Eof),
    {
        matches!(self.tokens[self.pos], Token::Eof)
    }

    /// Moves past the current token; `Eof` is never passed.
    fn advance(&mut self)
        requires
            old(self).wf(),
        ensures
            final(self).wf(),
            final(self).tokens == old(self).tokens,
            final(self).pos == if old(self).tokens@[old(self).pos as int] is Eof {
                old(self).pos
            } else {
                (old(self).pos + 1) as usize
            },
    {
        if !self.at_eof() {
            self.pos = self.pos + 1;
        }
    }

    /// Consumes the current token when it is of `kind`'s variant.
    fn eat(&mut self, kind: &Token) -> (r: bool)
        requires
            old(self).wf(),
            kind is Semicolon || kind is RightParen || kind is LeftParen || kind is RightBrace || kind is Comma
                || kind is Assign || kind is Bar,
        ensures
            final(self).wf(),
            final(self).tokens == old(self).tokens,
            r == (old(self).tokens@[old(self).pos as int] == *kind),
            final(self).pos == if r { (old(self).pos + 1) as usize } else { old(self).pos },
    {
        let hit = match (self.peek(), kind) {
            (Token::Semicolon, Token::Semicolon) => true,
            (Token::RightParen, Token::RightParen) => true,
            (Token::LeftParen, Token::LeftParen) => true,
            (Token::RightBrace, Token::RightBrace) => true,
            (Token::Comma, Token::Comma) => true,
            (Token::Assign, Token::Assign) => true,
            (Token::Bar, Token::Bar) => true,
            _ => false,
        };
        if hit {
            self.pos = self.pos + 1;
            true
        } else {
            false
        }
    }

    /// Parses statements until `Eof`: the statements exactly when the
    /// tokens form a program, else the first syntax error.
    pub fn parse_program(self) -> (r: Result<Vec<Statement>, SyntaxError>)
        requires
            self.wf(),
        ensures
            match spec_program(self.tokens@, self.pos as nat, Seq::empty()) {
                Some(ms) => r matches Ok(stmts) && stmt_models(stmts@, stmts@.len()) == ms,
                None => r is Err,
            },
    {
        let ghost t = self.tokens@;
        let ghost p0 = self.pos as nat;
        let mut p = self;
        let mut statements: Vec<Statement> = Vec::new();
        while !p.at_eof()
            invariant
                p.wf(),
                p.tokens@ == t,
                t == self.tokens@,
                p0 == self.pos as nat,
                spec_program(t, p0, Seq::empty()) == spec_program(t, p.pos as nat, stmt_models(statements@, statements@.len())),
            decreases p.rest(),
        {
            let ghost before = p.pos as nat;
            let stmt = match p.parse_next_statement() {
                Ok(st) => st,
                Err(e) => {
                    proof {
                        assert(spec_program(t, before, stmt_models(statements@, statements@.len())) is None);
                    }
                    return Err(e);
                },
            };
            proof {
                let prev = statements@;
                lemma_stmt_models_prefix(prev.push(stmt), prev, prev.len());
            }
            statements.push(stmt);
        }
        Ok(statements)
    }

    fn parse_next_statement(&mut self) -> (r: Result<Statement, SyntaxError>)
        requires
            old(self).wf(),
            !(old(self).tokens@[old(self).pos as int] is Eof),
        ensures
            final(self).wf(),
            final(self).tokens == old(self).tokens,
            match parse_stmt(old(self).tokens@, old(self).pos as nat) {
                Some((m, end)) => r matches Ok(st) && stmt_model(st) == m && final(self).pos == end && old(self).pos < end,
                None => r is Err,
            },
    {
        match self.peek() {
            Token::Let => self.parse_assignment_statement(),
            Token::FuncFn => self.parse_function_declaration(),
            _ => self.parse_expression_statement(),
        }
    }

    fn parse_expression_statement(&mut self) -> (r: Result<Statement, SyntaxError>)
        requires
            old(self).wf(),
            !(old(self).tokens@[old(self).pos as int] is Let),
            !(old(self).tokens@[old(self).pos as int] is FuncFn),
        ensures
            final(self).wf(),
            final(self).tokens == old(self).tokens,
            match parse_stmt(old(self).tokens@, old(self).pos as nat) {
                Some((m, end)) => r matches Ok(st) && stmt_model(st) == m && final(self).pos == end && old(self).pos < end,
                None => r is Err,
            },
    {
        let expression = self.parse_expression(Precedence::Lowest)?;
        if !self.eat(&Token::Semicolon) {
            return Err(SyntaxError::new("Missing semicolon after expression statement."));
        }
        Ok(Statement::ExpressionStatement { expression })
    }

    fn parse_assignment_statement(&mut self) -> (r: Result<Statement, SyntaxError>)
        requires
            old(self).wf(),
            old(self).tokens@[old(self).pos as int] is Let,
        ensures
            final(self).wf(),
            final(self).tokens == old(self).tokens,
            match parse_stmt(old(self).tokens@, old(self).pos as nat) {
                Some((m, end)) => r matches Ok(st) && stmt_model(st) == m && final(self).pos == end && old(self).pos < end,
                None => r is Err,
            },
    {
        self.advance();
        let identifier = match self.peek() {
            Token::Identifier(name) => name.clone(),
            _ => {
                return Err(SyntaxError::new("Missing identifier after let statement."));
            },
        };
        self.advance();
        if !self.eat(&Token::Assign) {
            return Err(SyntaxError::new("Missing assignment operator after identifier."));
        }
        let expression = self.parse_expression(Precedence::Lowest)?;
        if !self.eat(&Token::Semicolon) {
            return Err(SyntaxError::new("Missing semicolon after assignment statement."));
        }
        Ok(Statement::Assignment { identifier, expression })
    }

    fn parse_function_declaration(&mut self) -> (r: Result<Statement, SyntaxError>)
        requires
            old(self).wf(),
            old(self).tokens@[old(self).pos as int] is FuncFn,
        ensures
            final(self).wf(),
            final(self).tokens == old(self).tokens,
            match parse_stmt(old(self).tokens@, old(self).pos as nat) {
                Some((m, end)) => r matches Ok(st) && stmt_model(st) == m && final(self).pos == end && old(self).pos < end,
                None => r is Err,
            },
    {
        let ghost t = self.tokens@;
        self.advance();
        let identifier = match self.peek() {
            Token::Identifier(name) => name.clone(),
            _ => {
                return Err(SyntaxError::new("Expected identifier after fn."));
            },
        };
        self.advance();
        if !self.eat(&Token::LeftParen) {
            return Err(SyntaxError::new("Expected '(' after function identifier."));
        }
        let ghost p3 = self.pos as nat;
        let mut parameters: Vec<Parameter> = Vec::new();
        proof {
            assert(param_names(parameters@) =~= Seq::<Seq<char>>::empty());
            assert(parse_stmt(t, old(self).pos as nat) == match parse_params(t, p3, Seq::empty()) {
                Some((ps, q)) => parse_fn_body(t, identifier@, ps, q),
                None => None,
            });
        }
        loop
            invariant_except_break
                parse_params(t, p3, Seq::empty()) == parse_params(t, self.pos as nat, param_names(parameters@)),
            invariant
                self.wf(),
                self.tokens@ == t,
                self.tokens == old(self).tokens,
                self.pos > old(self).pos,
                parse_stmt(t, old(self).pos as nat) == match parse_params(t, p3, Seq::empty()) {
                    Some((ps, q)) => parse_fn_body(t, identifier@, ps, q),
                    None => None,
                },
            ensures
                self.wf(),
                self.tokens == old(self).tokens,
                self.pos > old(self).pos,
                parse_stmt(t, old(self).pos as nat) == match parse_params(t, p3, Seq::empty()) {
                    Some((ps, q)) => parse_fn_body(t, identifier@, ps, q),
                    None => None,
                },
                parse_params(t, p3, Seq::empty()) == Some((param_names(parameters@), self.pos as nat)),
            decreases self.rest(),
        {
            let name = match self.peek() {
                Token::Identifier(name) => name.clone(),
                Token::RightParen => {
                    self.advance();
                    break;
                },
                _ => {
                    return Err(SyntaxError::new("Invalid function declaration syntax."));
                },
            };
            self.advance();
            let ghost before = param_names(parameters@);
            parameters.push(Parameter { name });
            proof {
                assert(param_names(parameters@) =~= before.push(name@));
            }
            if self.eat(&Token::RightParen) {
                break;
            }
            if !self.eat(&Token::Comma) {
                return Err(SyntaxError::new("Invalid function declaration syntax."));
            }
        }
        if !self.eat(&Token::Assign) {
            return Err(SyntaxError::new("Expected '=' after function parameters."));
        }
        let expression = self.parse_expression(Precedence::Lowest)?;
        if !self.eat(&Token::Semicolon) {
            return Err(SyntaxError::new("Missing semicolon after function declaration."));
        }
        Ok(Statement::FunctionDeclaration { identifier, parameters, expression })
    }

    /// An expression whose operators bind more tightly than `precedence`.
    pub fn parse_expression(&mut self, precedence: Precedence) -> (r: Result<Expression, SyntaxError>)
        requires
            old(self).wf(),
        ensures
            final(self).wf(),
            final(self).tokens == old(self).tokens,
            parsed_as(r, parse_expr(old(self).tokens@, old(self).pos as nat, precedence), final(self).pos),
            r is Ok ==> final(self).pos > old(self).pos,
        decreases old(self).rest(), 3nat,
    {
        let ghost t = self.tokens@;
        let mut expression = self.parse_prefix_expression()?;
        loop
            invariant_except_break
                parse_expr(t, old(self).pos as nat, precedence) == parse_loop(t, self.pos as nat, precedence, model(expression)),
            invariant
                self.wf(),
                self.tokens == old(self).tokens,
                self.tokens@ == t,
                self.pos > old(self).pos,
            ensures
                self.wf(),
                self.tokens == old(self).tokens,
                self.pos > old(self).pos,
                parse_expr(t, old(self).pos as nat, precedence) == Some((model(expression), self.pos as nat)),
            decreases self.rest(),
        {
            let t0 = self.peek();
            if matches!(t0, Token::Semicolon) || matches!(t0, Token::RightParen) || matches!(t0, Token::Comma)
                || matches!(t0, Token::If) || matches!(t0, Token::Else) || matches!(t0, Token::RightBrace)
                || matches!(t0, Token::Bar) {
                break;
            }
            if matches!(t0, Token::Bang) {
                self.advance();
                expression = Expression::Combination {
                    left: Some(Box::new(expression)),
                    operator: Operator(Token::Bang, Location::Postfix),
                    right: None,
                };
                continue;
            }
            let peek_precedence = match token_precedence(t0, Location::Infix) {
                Some(p) => p,
                None => {
                    return Err(SyntaxError::new("Invalid token after expression."));
                },
            };
            if precedence.lt(peek_precedence) {
                expression = self.parse_infix_expression(expression)?;
            } else {
                break;
            }
        }
        Ok(expression)
    }

    fn parse_prefix_expression(&mut self) -> (r: Result<Expression, SyntaxError>)
        requires
            old(self).wf(),
        ensures
            final(self).wf(),
            final(self).tokens == old(self).tokens,
            parsed_as(r, parse_prefix(old(self).tokens@, old(self).pos as nat), final(self).pos),
            r is Ok ==> final(self).pos > old(self).pos,
        decreases old(self).rest(), 2nat,
    {
        if self.at_eof() {
            return Err(SyntaxError::new("Unexpected end to expression."));
        }
        let t = self.peek().copy();
        self.advance();
        match t {
            Token::Undefined => Ok(Expression::UndefinedLiteral),
            Token::Identifier(name) => Ok(Expression::Identifier(name)),
            Token::Integer(v) => Ok(Expression::IntegerLiteral(v)),
            Token::Real(v) => Ok(Expression::RealLiteral(v)),
            Token::True => Ok(Expression::BooleanLiteral(true)),
            Token::False => Ok(Expression::BooleanLiteral(false)),
            Token::Not | Token::Minus => {
                let right = self.parse_expression(Precedence::Not)?;
                let op = if matches!(t, Token::Not) {
                    Token::Not
                } else {
                    Token::Minus
                };
                Ok(Expression::Combination { left: None, operator: Operator(op, Location::Prefix), right: Some(Box::new(right)) })
            },
            Token::LeftParen => {
                let expr = self.parse_expression(Precedence::Lowest)?;
                if self.eat(&Token::RightParen) {
                    Ok(expr)
                } else {
                    Err(SyntaxError::new("Missing right parenthesis after grouped expression."))
                }
            },
            Token::Bar => {
                let expr = self.parse_expression(Precedence::Lowest)?;
                if self.eat(&Token::Bar) {
                    Ok(Expression::AbsoluteValue(Box::new(expr)))
                } else {
                    Err(SyntaxError::new("Missing closing absolute value bar."))
                }
            },
            Token::LeftBrace => {
                if self.eat(&Token::RightBrace) {
                    let empty: Vec<Expression> = Vec::new();
                    proof {
                        assert(models(empty@, 0) =~= Seq::<ExprModel>::empty());
                    }
                    return Ok(Expression::SetLiteral(empty));
                }
                let first = self.parse_expression(Precedence::Lowest)?;
                match self.peek() {
                    Token::If | Token::Else => self.parse_piecewise_block_expression(first),
                    Token::Comma | Token::RightBrace => self.parse_set_expression(first),
                    _ => Err(SyntaxError::new("Expected `,` or `if` or `else` after expression.")),
                }
            },
            _ => Err(SyntaxError::new("Invalid syntax: a token that cannot begin an expression.")),
        }
    }

    fn parse_set_expression(&mut self, first: Expression) -> (r: Result<Expression, SyntaxError>)
        requires
            old(self).wf(),
        ensures
            final(self).wf(),
            final(self).tokens == old(self).tokens,
            parsed_as(r, parse_set(old(self).tokens@, old(self).pos as nat, seq![model(first)]), final(self).pos),
            r is Ok ==> final(self).pos > old(self).pos,
        decreases old(self).rest(), 0nat,
    {
        let ghost t = self.tokens@;
        let mut expressions: Vec<Expression> = Vec::new();
        proof {
            lemma_models_push(expressions@, first);
            assert(models(expressions@, 0) =~= Seq::<ExprModel>::empty());
        }
        expressions.push(first);
        loop
            invariant_except_break
                parse_set(t, old(self).pos as nat, seq![model(first)]) == parse_set(t, self.pos as nat, models(expressions@, expressions@.len())),
            invariant
                self.wf(),
                self.tokens == old(self).tokens,
                self.tokens@ == t,
                self.pos >= old(self).pos,
            ensures
                self.wf(),
                self.tokens == old(self).tokens,
                self.pos > old(self).pos,
                parse_set(t, old(self).pos as nat, seq![model(first)]) == Some((ExprModel::SetLiteral(models(expressions@, expressions@.len())), self.pos as nat)),
            decreases self.rest(),
        {
            if self.eat(&Token::RightBrace) {
                break;
            }
            if !self.eat(&Token::Comma) {
                return Err(SyntaxError::new("Missing comma after member in set literal expression."));
            }
            if self.eat(&Token::RightBrace) {
                break;
            }
            let e = self.parse_expression(Precedence::Lowest)?;
            proof {
                lemma_models_push(expressions@, e);
            }
            expressions.push(e);
        }
        Ok(Expression::SetLiteral(expressions))
    }

    /// The guard of a piecewise arm: `if` and an expression, or `else`.
    fn parse_guard(&mut self, has_else: &mut bool) -> (r: Result<Expression, SyntaxError>)
        requires
            old(self).wf(),
        ensures
            final(self).wf(),
            final(self).tokens == old(self).tokens,
            match parse_guard(old(self).tokens@, old(self).pos as nat, *old(has_else)) {
                Some((m, end, he)) => r matches Ok(e) && model(e) == m && final(self).pos == end && *final(has_else) == he,
                None => r is Err,
            },
            r is Ok ==> final(self).pos > old(self).pos,
        decreases old(self).rest(), 0nat,
    {
        match self.peek() {
            Token::Else => {
                if *has_else {
                    return Err(SyntaxError::new("Piecewise block cannot have multiple `else` arms."));
                }
                self.advance();
                *has_else = true;
                Ok(Expression::BooleanLiteral(true))
            },
            Token::If => {
                self.advance();
                self.parse_expression(Precedence::Lowest)
            },
            _ => Err(SyntaxError::new("Expected `if` or `else` after expression in piecewise block.")),
        }
    }

    fn parse_piecewise_block_expression(&mut self, first: Expression) -> (r: Result<Expression, SyntaxError>)
        requires
            old(self).wf(),
        ensures
            final(self).wf(),
            final(self).tokens == old(self).tokens,
            parsed_as(r, parse_piecewise(old(self).tokens@, old(self).pos as nat, model(first)), final(self).pos),
            r is Ok ==> final(self).pos > old(self).pos,
        decreases old(self).rest(), 1nat,
    {
        let ghost t = self.tokens@;
        let mut arms: Vec<(Expression, Expression)> = Vec::new();
        let mut has_else = false;
        let guard = self.parse_guard(&mut has_else)?;
        if !self.eat(&Token::Semicolon) {
            return Err(SyntaxError::new("Missing semicolon at end of piecewise arm."));
        }
        proof {
            lemma_arm_models_push(arms@, (first, guard));
            assert(arm_models(arms@, 0) =~= Seq::<(ExprModel, ExprModel)>::empty());
        }
        arms.push((first, guard));
        loop
            invariant_except_break
                parse_piecewise(t, old(self).pos as nat, model(first)) == parse_arms(t, self.pos as nat, arm_models(arms@, arms@.len()), has_else),
            invariant
                self.wf(),
                self.tokens == old(self).tokens,
                self.tokens@ == t,
                self.pos > old(self).pos,
            ensures
                self.wf(),
                self.tokens == old(self).tokens,
                self.pos > old(self).pos,
                parse_piecewise(t, old(self).pos as nat, model(first)) == Some((ExprModel::PiecewiseBlock(arm_models(arms@, arms@.len())), self.pos as nat)),
            decreases self.rest(),
        {
            if self.eat(&Token::RightBrace) {
                break;
            }
            let value = self.parse_expression(Precedence::Lowest)?;
            let guard = self.parse_guard(&mut has_else)?;
            if !self.eat(&Token::Semicolon) {
                return Err(SyntaxError::new("Missing semicolon at end of piecewise arm."));
            }
            proof {
                lemma_arm_models_push(arms@, (value, guard));
            }
            arms.push((value, guard));
        }
        Ok(Expression::PiecewiseBlock(arms))
    }

    fn parse_infix_expression(&mut self, left: Expression) -> (r: Result<Expression, SyntaxError>)
        requires
            old(self).wf(),
        ensures
            final(self).wf(),
            final(self).tokens == old(self).tokens,
            parsed_as(r, parse_infix(old(self).tokens@, old(self).pos as nat, model(left)), final(self).pos),
            r is Ok ==> final(self).pos > old(self).pos,
        decreases old(self).rest(), 0nat,
    {
        let ghost t = self.tokens@;
        if self.at_eof() {
            return Err(SyntaxError::new("Unexpected end of token stream."));
        }
        let token = self.peek().copy();
        let precedence = match token_precedence(&token, Location::Infix) {
            Some(p) => p,
            None => {
                return Err(SyntaxError::new("Invalid location for token."));
            },
        };
        self.advance();
        if matches!(token, Token::LeftParen) {
            let ghost p1 = self.pos as nat;
            let mut arguments: Vec<Expression> = Vec::new();
            proof {
                assert(models(arguments@, 0) =~= Seq::<ExprModel>::empty());
            }
            loop
                invariant_except_break
                    parse_args(t, p1, model(left), Seq::empty()) == parse_args(t, self.pos as nat, model(left), models(arguments@, arguments@.len())),
                invariant
                    self.wf(),
                    self.tokens == old(self).tokens,
                    self.tokens@ == t,
                    self.pos > old(self).pos,
                    parse_infix(t, old(self).pos as nat, model(left)) == parse_args(t, p1, model(left), Seq::empty()),
                ensures
                    self.wf(),
                    self.tokens == old(self).tokens,
                    self.pos > old(self).pos,
                    parse_args(t, p1, model(left), Seq::empty()) == Some((ExprModel::Call(Box::new(model(left)), models(arguments@, arguments@.len())), self.pos as nat)),
                decreases self.rest(),
            {
                if self.eat(&Token::RightParen) {
                    break;
                }
                if arguments.len() > 0 && !self.eat(&Token::Comma) {
                    return Err(SyntaxError::new("Missing comma after parameter in call expression."));
                }
                if arguments.len() > 0 && self.eat(&Token::RightParen) {
                    break;
                }
                let a = self.parse_expression(Precedence::Lowest)?;
                proof {
                    lemma_models_push(arguments@, a);
                }
                arguments.push(a);
            }
            Ok(Expression::Call { function: Box::new(left), arguments })
        } else {
            let right = self.parse_expression(precedence)?;
            Ok(Expression::Combination {
                left: Some(Box::new(left)),
                operator: Operator(token, Location::Infix),
                right: Some(Box::new(right)),
            })
        }
    }
}

} // verus!
