//! Running a program: lex, parse, then execute statement by statement.
use vstd::prelude::*;
use crate::ast::Statement;
use crate::environment::Environment;
use crate::errors::{RuntimeError, SyntaxError};
use crate::lexer::LexerIterator;
use crate::parser::Parser;
use crate::ast::{StmtModel, stmt_models, lemma_stmt_models_index};
use crate::grammar::parse_program as spec_program;
use crate::lexer::{lexed_run, skip};
use crate::render::value_text;
use crate::semantics::{spec_run, lemma_run_len, spec_final_scopes};
use crate::object::{views, lemma_views};
use crate::token::Token;
use crate::value::Value;

verus! {

/// The first error of a program.
#[derive(Debug, Clone, PartialEq)]
pub enum Error {
    Syntax(SyntaxError),
    Runtime(RuntimeError),
}

impl Error {
    /// The error as one line of text.
    pub fn to_text(&self) -> (r: String)
        ensures
            self matches Error::Syntax(e) ==> r@ == "SyntaxError: "@ + e.0@,
            self matches Error::Runtime(e) ==> r@.len() > e.message().len() && r@.subrange(
                r@.len() - e.message().len(),
                r@.len() as int,
            ) == e.message(),
    {
        match self {
            Error::Syntax(e) => e.to_text(),
            Error::Runtime(e) => e.to_text(),
        }
    }
}

/// `toks` are the tokens of the text `cs`, through its one `Eof`.
pub open spec fn tokenizes(cs: Seq<char>, toks: Seq<Token>) -> bool {
    &&& toks.len() >= 1
    &&& toks.last() is Eof
    &&& forall|i: int| 0 <= i < toks.len() - 1 ==> !(#[trigger] toks[i] is Eof)
    &&& exists|ends: Seq<nat>, q: nat| #![trigger lexed_run(cs, 0, toks.drop_last(), ends, q)]
        lexed_run(cs, 0, toks.drop_last(), ends, q) && skip(cs, q, false) >= cs.len()
}

/// Whether a statement's value is printed: an expression statement's
/// always, a declaration's only when it is not `Undefined`.
pub open spec fn shown(m: StmtModel, v: Value) -> bool {
    m is ExpressionStatement || !(v is Undefined)
}

pub open spec fn shown_count(ms: Seq<StmtModel>, vals: Seq<Value>, n: nat) -> nat
    decreases n,
{
    if n == 0 {
        0
    } else {
        shown_count(ms, vals, (n - 1) as nat) + (if shown(ms[n - 1], vals[n - 1]) { 1nat } else { 0nat })
    }
}

/// The output of the first `n` statements: one line per shown value.
pub open spec fn output_text(ms: Seq<StmtModel>, vals: Seq<Value>, n: nat) -> Seq<char>
    decreases n,
{
    if n == 0 {
        Seq::empty()
    } else {
        let prev = output_text(ms, vals, (n - 1) as nat);
        if shown(ms[n - 1], vals[n - 1]) {
            prev + (if shown_count(ms, vals, (n - 1) as nat) > 0 { "\n"@ } else { Seq::empty() }) + value_text(
                vals[n - 1],
            )
        } else {
            prev
        }
    }
}

/// Parses a whole program: the statements exactly when the text's tokens
/// form a program in the grammar, else a syntax error.
pub fn parse(content: &str) -> (r: Result<Vec<Statement>, SyntaxError>)
    ensures
        exists|toks: Seq<Token>| #![trigger tokenizes(content@, toks)]
            tokenizes(content@, toks) && match spec_program(toks, 0, Seq::empty()) {
                Some(ms) => r matches Ok(stmts) && stmt_models(stmts@, stmts@.len()) == ms,
                None => r is Err,
            },
{
    let lexer = LexerIterator::new(content);
    let parser = Parser::new(lexer);
    let ghost toks = parser.tokens@;
    assert(tokenizes(content@, toks));
    parser.parse_program()
}

/// Runs a program in `env`. A text whose tokens form no program is a
/// syntax error, found before anything runs, and leaves `env` as it was.
/// Otherwise the statements run in order: on success the output has one
/// line per shown value and `env` ends as `spec_run` says; the first
/// runtime error ends the run (the effects of the statements before it
/// remain).
pub fn exec(content: &str, env: &mut Environment) -> (r: Result<String, Error>)
    requires
        old(env).wf(),
    ensures
        final(env).wf(),
        exists|toks: Seq<Token>| #![trigger tokenizes(content@, toks)]
            tokenizes(content@, toks) && match spec_program(toks, 0, Seq::empty()) {
                None => r matches Err(Error::Syntax(_)) && final(env).frames@ == old(env).frames@,
                Some(ms) => exists|stmts: Seq<Statement>| #![trigger stmt_models(stmts, stmts.len())]
                    stmt_models(stmts, stmts.len()) == ms && match spec_run(old(env).model(), stmts, 0) {
                        Ok((s2, vals)) => r matches Ok(text) && text@ == output_text(ms, vals, ms.len())
                            && final(env).model() == s2,
                        Err(k) => r matches Err(Error::Runtime(e)) && e.kind() == k && final(env).model()
                            == spec_final_scopes(old(env).model(), stmts, 0),
                    },
            },
{
    let parsed = parse(content);
    let ghost toks = choose|toks: Seq<Token>| #![trigger tokenizes(content@, toks)]
        tokenizes(content@, toks) && match spec_program(toks, 0, Seq::empty()) {
            Some(ms) => parsed matches Ok(stmts) && stmt_models(stmts@, stmts@.len()) == ms,
            None => parsed is Err,
        };
    let stmts = match parsed {
        Ok(s) => s,
        Err(e) => {
            return Err(Error::Syntax(e));
        },
    };
    let ghost ms = stmt_models(stmts@, stmts@.len());
    let ghost all = stmts@;
    let ghost m0 = env.model();
    proof {
        lemma_stmt_models_index(all, all.len());
    }
    let mut shown_flags: Vec<bool> = Vec::new();
    let mut k: usize = 0;
    while k < stmts.len()
        invariant
            k <= stmts.len(),
            shown_flags.len() == k,
            stmts@ == all,
            ms == stmt_models(all, all.len()),
            ms.len() == all.len(),
            forall|j: int| 0 <= j < all.len() ==> #[trigger] ms[j] == crate::ast::stmt_model(all[j]),
            forall|j: int| 0 <= j < k ==> #[trigger] shown_flags@[j] == (ms[j] is ExpressionStatement),
        decreases stmts.len() - k,
    {
        shown_flags.push(matches!(stmts[k], Statement::ExpressionStatement { .. }));
        k = k + 1;
    }
    let values = match env.run_program(stmts) {
        Ok(vs) => vs,
        Err(e) => {
            return Err(Error::Runtime(e));
        },
    };
    let ghost vals = views(values@);
    proof {
        lemma_views(values@);
        lemma_run_len(m0, all, 0);
    }
    let mut response = String::new();
    let mut count: usize = 0;
    let mut i: usize = 0;
    while i < values.len()
        invariant
            i <= values.len(),
            values.len() == ms.len(),
            shown_flags.len() == ms.len(),
            vals == views(values@),
            vals.len() == values.len(),
            forall|j: int| 0 <= j < values.len() ==> (#[trigger] values@[j]).wf() && vals[j] == values@[j].view(),
            forall|j: int| 0 <= j < ms.len() ==> #[trigger] shown_flags@[j] == (ms[j] is ExpressionStatement),
            count == shown_count(ms, vals, i as nat),
            count <= i,
            response@ == output_text(ms, vals, i as nat),
        decreases values.len() - i,
    {
        let show = shown_flags[i];
        if show || !values[i].is_undefined() {
            if count != 0 {
                response.append("\n");
            }
            let t = values[i].to_text();
            response.append(t.as_str());
            count = count + 1;
        }
        proof {
            reveal_strlit("\n");
            assert(response@ =~= output_text(ms, vals, (i + 1) as nat));
        }
        i = i + 1;
    }
    Ok(response)
}

} // verus!
