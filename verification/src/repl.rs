//! One session of the interpreter: what happens to each line of input.
//!
//! Reading lines and printing replies is left to the program around the
//! library; a session only computes.

use vstd::prelude::*;
use crate::primitives;
use crate::env::{Env, EnvRef, SpecStore, Store, define};
use crate::evaluator::eval;
use crate::laws::fresh_store;
use crate::lexer::{lex, tokenize};
use crate::parser::{Expr, SpecExpr, parse, parse_spec, views};
use crate::semantics::eval_spec;
use crate::serr::{SErr, SpecErr};
use crate::text::{digits_of, push_digits, text_of};

verus! {

/// The state that a session keeps between lines: the scopes, the handle of
/// the global scope, the number of results so far, and the depth that each
/// evaluation is given.
#[derive(Debug)]
pub struct Session {
    pub store: Store,
    pub env: EnvRef,
    pub count: usize,
    pub depth: usize,
}

/// What the session says of one top-level expression.
#[derive(Debug, PartialEq)]
pub enum Reply {
    /// The value, and the name under which it was bound.
    Value(String, Expr),
    Failure(SErr),
}

pub ghost struct SpecSession {
    pub store: SpecStore,
    pub env: EnvRef,
    pub count: usize,
    pub depth: usize,
}

pub ghost enum SpecReply {
    Value(Seq<char>, SpecExpr),
    Failure(SpecErr),
}

impl View for Session {
    type V = SpecSession;

    open spec fn view(&self) -> SpecSession {
        SpecSession { store: self.store@, env: self.env, count: self.count, depth: self.depth }
    }
}

impl View for Reply {
    type V = SpecReply;

    open spec fn view(&self) -> SpecReply {
        match self {
            Reply::Value(name, v) => SpecReply::Value(name@, v@),
            Reply::Failure(e) => SpecReply::Failure(e@),
        }
    }
}

pub open spec fn reply_views(rs: Seq<Reply>) -> Seq<SpecReply> {
    Seq::new(rs.len(), |i: int| rs[i]@)
}

/// The name of the result with this number: `$0`, `$1`, and so on.
pub open spec fn result_name(n: usize) -> Seq<char> {
    seq!['$'] + digits_of(n as nat)
}

/// The number of the next result.
pub open spec fn next_count(n: usize) -> usize {
    if n < usize::MAX {
        (n + 1) as usize
    } else {
        n
    }
}

/// The session after the expressions from index `i` on, and the replies,
/// which follow `replies`. Each expression is evaluated in the global
/// scope. A value is bound there under the next result name; a failure
/// binds nothing and uses up no name, and the session goes on.
pub open spec fn run_from(
    s: SpecSession,
    exprs: Seq<SpecExpr>,
    i: int,
    replies: Seq<SpecReply>,
) -> (SpecSession, Seq<SpecReply>)
    decreases exprs.len() - i,
{
    if 0 <= i < exprs.len() {
        let o = eval_spec(s.store, exprs[i], s.env, s.depth as nat);
        match o.result {
            Ok(v) => run_from(
                SpecSession {
                    store: define(o.store, s.env, result_name(s.count), v),
                    env: s.env,
                    count: next_count(s.count),
                    depth: s.depth,
                },
                exprs,
                i + 1,
                replies.push(SpecReply::Value(result_name(s.count), v)),
            ),
            Err(e) => run_from(
                SpecSession { store: o.store, env: s.env, count: s.count, depth: s.depth },
                exprs,
                i + 1,
                replies.push(SpecReply::Failure(e)),
            ),
        }
    } else {
        (s, replies)
    }
}

/// The session after a line of input, and the replies to it. A line that
/// cannot be lexed or parsed changes nothing and has that error as its one
/// reply.
pub open spec fn run_spec(s: SpecSession, line: Seq<char>) -> (SpecSession, Seq<SpecReply>) {
    match lex(line) {
        Err(e) => (s, seq![SpecReply::Failure(SpecErr::Lex(e))]),
        Ok(ts) => match parse_spec(ts) {
            Err(e) => (s, seq![SpecReply::Failure(SpecErr::Parse(e))]),
            Ok(exprs) => run_from(s, exprs, 0, Seq::empty()),
        },
    }
}

impl Session {
    /// A fresh session: one scope, the global one, which binds the
    /// primitives.
    pub fn new(depth: usize) -> (r: Session)
        ensures
            r@ == (SpecSession {
                store: fresh_store(),
                env: EnvRef::Scope(0),
                count: 0,
                depth,
            }),
    {
        let mut store = Store::new();
        let env = Env::with_values(Env::null(), primitives::env()).to_ref(&mut store);
        assert(store@ =~= fresh_store());
        Session { store, env, count: 0, depth }
    }
}

fn name_of(n: usize) -> (s: String)
    ensures
        s@ == result_name(n),
{
    let mut out: Vec<char> = Vec::new();
    out.push('$');
    push_digits(&mut out, n as u64);
    assert(out@ =~= result_name(n));
    text_of(&out, 0, out.len())
}

/// Take one line of input: lex it, parse it, and evaluate its expressions
/// in order in the global scope, binding each value under the next result
/// name. The replies say what became of each expression.
pub fn run(session: &mut Session, line: &str) -> (replies: Vec<Reply>)
    ensures
        (final(session)@, reply_views(replies@)) == run_spec(old(session)@, line@),
{
    let mut replies: Vec<Reply> = Vec::new();
    let tokens = match tokenize(line) {
        Ok(tokens) => tokens,
        Err(e) => {
            replies.push(Reply::Failure(SErr::Lex(e)));
            assert(reply_views(replies@) =~= seq![SpecReply::Failure(SpecErr::Lex(e))]);
            return replies;
        },
    };
    let exprs = match parse(tokens) {
        Ok(exprs) => exprs,
        Err(e) => {
            replies.push(Reply::Failure(SErr::Parse(e)));
            assert(reply_views(replies@) =~= seq![SpecReply::Failure(SpecErr::Parse(e))]);
            return replies;
        },
    };
    let mut i: usize = 0;
    assert(reply_views(replies@) =~= Seq::<SpecReply>::empty());
    while i < exprs.len()
        invariant
            i <= exprs.len(),
            run_from(session@, views(exprs@), i as int, reply_views(replies@)) == run_from(
                old(session)@,
                views(exprs@),
                0,
                Seq::empty(),
            ),
        decreases exprs.len() - i,
    {
        assert(views(exprs@)[i as int] == exprs[i as int]@);
        let ghost before = reply_views(replies@);
        match eval(&exprs[i], session.env, &mut session.store, session.depth) {
            Ok(v) => {
                let name = name_of(session.count);
                session.store.insert(session.env, name.clone(), v.clone());
                if session.count < usize::MAX {
                    session.count += 1;
                }
                let reply = Reply::Value(name, v);
                assert(reply_views(replies@.push(reply)) =~= before.push(reply@));
                replies.push(reply);
            },
            Err(e) => {
                let reply = Reply::Failure(e);
                assert(reply_views(replies@.push(reply)) =~= before.push(reply@));
                replies.push(reply);
            },
        }
        i += 1;
    }
    replies
}

} // verus!
