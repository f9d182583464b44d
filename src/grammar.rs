//! The grammar: what the parser produces from a token sequence, as spec
//! functions over the AST model. Each returns the parsed model and the
//! position after it, or `None` for a syntax error.
use vstd::prelude::*;
use crate::ast::{ExprModel, Location, Precedence, StmtModel, spec_precedence};
use crate::token::Token;

verus! {

/// The token at `p`; `Eof` past the end.
pub open spec fn tok(t: Seq<Token>, p: nat) -> Token {
    if p < t.len() {
        t[p as int]
    } else {
        Token::Eof
    }
}

/// Tokens that end an expression.
pub open spec fn is_stop(k: Token) -> bool {
    k is Semicolon || k is RightParen || k is Comma || k is If || k is Else || k is RightBrace || k is Bar
}

/// An expression whose operators bind more tightly than `prec`.
pub open spec fn parse_expr(t: Seq<Token>, p: nat, prec: Precedence) -> Option<(ExprModel, nat)>
    decreases t.len() - p, 3nat,
{
    if p >= t.len() {
        None
    } else {
        match parse_prefix(t, p) {
            Some((e, q)) => if p < q && q < t.len() {
                parse_loop(t, q, prec, e)
            } else {
                None
            },
            None => None,
        }
    }
}

/// One operand: a literal, a name, a prefix operation, a group, an
/// absolute value, a set literal or a piecewise block.
pub open spec fn parse_prefix(t: Seq<Token>, p: nat) -> Option<(ExprModel, nat)>
    decreases t.len() - p, 2nat,
{
    if p >= t.len() || t[p as int] is Eof {
        None
    } else {
        let q = p + 1;
        match t[p as int] {
            Token::Undefined => Some((ExprModel::UndefinedLiteral, q)),
            Token::Identifier(n) => Some((ExprModel::Identifier(n@), q)),
            Token::Integer(v) => Some((ExprModel::IntegerLiteral(v), q)),
            Token::Real(v) => Some((ExprModel::RealLiteral(v), q)),
            Token::True => Some((ExprModel::BooleanLiteral(true), q)),
            Token::False => Some((ExprModel::BooleanLiteral(false), q)),
            Token::Not | Token::Minus => match parse_expr(t, q, Precedence::Not) {
                Some((r, q2)) => Some(
                    (ExprModel::Combination(None, t[p as int], Location::Prefix, Some(Box::new(r))), q2),
                ),
                None => None,
            },
            Token::LeftParen => match parse_expr(t, q, Precedence::Lowest) {
                Some((e, q2)) => if tok(t, q2) is RightParen {
                    Some((e, q2 + 1))
                } else {
                    None
                },
                None => None,
            },
            Token::Bar => match parse_expr(t, q, Precedence::Lowest) {
                Some((e, q2)) => if tok(t, q2) is Bar {
                    Some((ExprModel::AbsoluteValue(Box::new(e)), q2 + 1))
                } else {
                    None
                },
                None => None,
            },
            Token::LeftBrace => if tok(t, q) is RightBrace {
                Some((ExprModel::SetLiteral(Seq::empty()), q + 1))
            } else {
                match parse_expr(t, q, Precedence::Lowest) {
                    Some((first, q2)) => if q < q2 && q2 < t.len() {
                        if t[q2 as int] is If || t[q2 as int] is Else {
                            parse_piecewise(t, q2, first)
                        } else if t[q2 as int] is Comma || t[q2 as int] is RightBrace {
                            parse_set(t, q2, seq![first])
                        } else {
                            None
                        }
                    } else {
                        None
                    },
                    None => None,
                }
            },
            _ => None,
        }
    }
}

/// After operand `e` at `p`: postfix `!`, and infix operators that bind
/// more tightly than `prec`, left to right; a stop token or a looser
/// operator ends the expression.
pub open spec fn parse_loop(t: Seq<Token>, p: nat, prec: Precedence, e: ExprModel) -> Option<(ExprModel, nat)>
    decreases t.len() - p, 1nat,
{
    if p >= t.len() {
        None
    } else {
        let k = t[p as int];
        if is_stop(k) {
            Some((e, p))
        } else if k is Bang {
            if p + 1 < t.len() {
                parse_loop(t, p + 1, prec, ExprModel::Combination(Some(Box::new(e)), Token::Bang, Location::Postfix, None))
            } else {
                None
            }
        } else {
            match spec_precedence(k, Location::Infix) {
                None => None,
                Some(pp) => if prec.spec_rank() < pp.spec_rank() {
                    match parse_infix(t, p, e) {
                        Some((e2, q)) => if p < q && q < t.len() {
                            parse_loop(t, q, prec, e2)
                        } else {
                            None
                        },
                        None => None,
                    }
                } else {
                    Some((e, p))
                },
            }
        }
    }
}

/// An infix operator at `p` with left operand `left`; `(` starts a call.
pub open spec fn parse_infix(t: Seq<Token>, p: nat, left: ExprModel) -> Option<(ExprModel, nat)>
    decreases t.len() - p, 0nat,
{
    if p >= t.len() || t[p as int] is Eof {
        None
    } else {
        let k = t[p as int];
        match spec_precedence(k, Location::Infix) {
            None => None,
            Some(pp) => if k is LeftParen {
                parse_args(t, p + 1, left, Seq::empty())
            } else {
                match parse_expr(t, p + 1, pp) {
                    Some((r, q)) => Some(
                        (ExprModel::Combination(Some(Box::new(left)), k, Location::Infix, Some(Box::new(r))), q),
                    ),
                    None => None,
                }
            },
        }
    }
}

/// Call arguments from `p` on: comma-separated, a trailing comma allowed,
/// closed by `)`.
pub open spec fn parse_args(t: Seq<Token>, p: nat, f: ExprModel, acc: Seq<ExprModel>) -> Option<(ExprModel, nat)>
    decreases t.len() - p, 4nat,
{
    if p >= t.len() {
        None
    } else if t[p as int] is RightParen {
        Some((ExprModel::Call(Box::new(f), acc), p + 1))
    } else if acc.len() > 0 {
        if t[p as int] is Comma {
            let q = p + 1;
            if tok(t, q) is RightParen {
                Some((ExprModel::Call(Box::new(f), acc), q + 1))
            } else {
                match parse_expr(t, q, Precedence::Lowest) {
                    Some((a, q2)) => if q < q2 && q2 < t.len() {
                        parse_args(t, q2, f, acc.push(a))
                    } else {
                        None
                    },
                    None => None,
                }
            }
        } else {
            None
        }
    } else {
        match parse_expr(t, p, Precedence::Lowest) {
            Some((a, q2)) => if p < q2 && q2 < t.len() {
                parse_args(t, q2, f, acc.push(a))
            } else {
                None
            },
            None => None,
        }
    }
}

/// The rest of a set literal from `p` on, after its first member.
pub open spec fn parse_set(t: Seq<Token>, p: nat, acc: Seq<ExprModel>) -> Option<(ExprModel, nat)>
    decreases t.len() - p, 4nat,
{
    if p >= t.len() {
        None
    } else if t[p as int] is RightBrace {
        Some((ExprModel::SetLiteral(acc), p + 1))
    } else if t[p as int] is Comma {
        let q = p + 1;
        if tok(t, q) is RightBrace {
            Some((ExprModel::SetLiteral(acc), q + 1))
        } else {
            match parse_expr(t, q, Precedence::Lowest) {
                Some((e, q2)) => if q < q2 && q2 < t.len() {
                    parse_set(t, q2, acc.push(e))
                } else {
                    None
                },
                None => None,
            }
        }
    } else {
        None
    }
}

/// A piecewise guard: `if` and an expression, or `else` (as `true`), at
/// most one `else` in a block; `has_else` tells whether one was seen.
pub open spec fn parse_guard(t: Seq<Token>, p: nat, has_else: bool) -> Option<(ExprModel, nat, bool)>
    decreases t.len() - p, 0nat,
{
    if p >= t.len() {
        None
    } else if t[p as int] is Else {
        if has_else {
            None
        } else {
            Some((ExprModel::BooleanLiteral(true), p + 1, true))
        }
    } else if t[p as int] is If {
        match parse_expr(t, p + 1, Precedence::Lowest) {
            Some((e, q)) => Some((e, q, has_else)),
            None => None,
        }
    } else {
        None
    }
}

/// A piecewise block whose first value `first` was read; its guard is at `p`.
pub open spec fn parse_piecewise(t: Seq<Token>, p: nat, first: ExprModel) -> Option<(ExprModel, nat)>
    decreases t.len() - p, 1nat,
{
    match parse_guard(t, p, false) {
        Some((g, q, he)) => if tok(t, q) is Semicolon && p <= q && q + 1 < t.len() {
            parse_arms(t, q + 1, seq![(first, g)], he)
        } else {
            None
        },
        None => None,
    }
}

/// Further piecewise arms `value guard ;` from `p` on, up to `}`.
pub open spec fn parse_arms(t: Seq<Token>, p: nat, acc: Seq<(ExprModel, ExprModel)>, he: bool) -> Option<(ExprModel, nat)>
    decreases t.len() - p, 4nat,
{
    if p >= t.len() {
        None
    } else if t[p as int] is RightBrace {
        Some((ExprModel::PiecewiseBlock(acc), p + 1))
    } else {
        match parse_expr(t, p, Precedence::Lowest) {
            Some((v, q)) => if p < q && q < t.len() {
                match parse_guard(t, q, he) {
                    Some((g, q2, he2)) => if tok(t, q2) is Semicolon && q <= q2 && q2 + 1 < t.len() {
                        parse_arms(t, q2 + 1, acc.push((v, g)), he2)
                    } else {
                        None
                    },
                    None => None,
                }
            } else {
                None
            },
            None => None,
        }
    }
}

/// Function parameters from `p` on: names separated by commas, a trailing
/// comma allowed, closed by `)`.
pub open spec fn parse_params(t: Seq<Token>, p: nat, acc: Seq<Seq<char>>) -> Option<(Seq<Seq<char>>, nat)>
    decreases t.len() - p,
{
    if p >= t.len() {
        None
    } else {
        match t[p as int] {
            Token::Identifier(n) => {
                let q = p + 1;
                if tok(t, q) is RightParen {
                    Some((acc.push(n@), q + 1))
                } else if tok(t, q) is Comma && q + 1 < t.len() {
                    parse_params(t, q + 1, acc.push(n@))
                } else {
                    None
                }
            },
            Token::RightParen => Some((acc, p + 1)),
            _ => None,
        }
    }
}

/// The rest of a function declaration after its parameters: `= EXPR ;`.
pub open spec fn parse_fn_body(t: Seq<Token>, name: Seq<char>, ps: Seq<Seq<char>>, q: nat) -> Option<(StmtModel, nat)> {
    if tok(t, q) is Assign {
        match parse_expr(t, q + 1, Precedence::Lowest) {
            Some((e, q2)) => if tok(t, q2) is Semicolon {
                Some((StmtModel::FunctionDeclaration(name, ps, e), q2 + 1))
            } else {
                None
            },
            None => None,
        }
    } else {
        None
    }
}

/// One statement at `p`: `let NAME = EXPR ;`, `fn NAME ( PARAMS ) = EXPR ;`
/// or `EXPR ;`.
pub open spec fn parse_stmt(t: Seq<Token>, p: nat) -> Option<(StmtModel, nat)> {
    if p >= t.len() {
        None
    } else if t[p as int] is Let {
        match tok(t, p + 1) {
            Token::Identifier(n) => if tok(t, p + 2) is Assign {
                match parse_expr(t, p + 3, Precedence::Lowest) {
                    Some((e, q)) => if tok(t, q) is Semicolon {
                        Some((StmtModel::Assignment(n@, e), q + 1))
                    } else {
                        None
                    },
                    None => None,
                }
            } else {
                None
            },
            _ => None,
        }
    } else if t[p as int] is FuncFn {
        match tok(t, p + 1) {
            Token::Identifier(n) => if tok(t, p + 2) is LeftParen {
                match parse_params(t, p + 3, Seq::empty()) {
                    Some((ps, q)) => parse_fn_body(t, n@, ps, q),
                    None => None,
                }
            } else {
                None
            },
            _ => None,
        }
    } else {
        match parse_expr(t, p, Precedence::Lowest) {
            Some((e, q)) => if tok(t, q) is Semicolon {
                Some((StmtModel::ExpressionStatement(e), q + 1))
            } else {
                None
            },
            None => None,
        }
    }
}

/// Statements from `p` up to `Eof`; a malformed one fails the program.
pub open spec fn parse_program(t: Seq<Token>, p: nat, acc: Seq<StmtModel>) -> Option<Seq<StmtModel>>
    decreases t.len() - p,
{
    if p >= t.len() {
        None
    } else if t[p as int] is Eof {
        Some(acc)
    } else {
        match parse_stmt(t, p) {
            Some((st, q)) => if p < q && q < t.len() {
                parse_program(t, q, acc.push(st))
            } else {
                None
            },
            None => None,
        }
    }
}

} // verus!
