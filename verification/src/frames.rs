//! The frame property of the machine: what an evaluation does never depends
//! on the contexts that wait below it, and leaves them as they are.

use crate::env::Scope;
use crate::eval::{driven, served, Reply, Request};
use crate::expression::Value;
use crate::semantics::{
    eval, fail, resume, ret, unwind, Answer, Context, Failure, Phase, State,
};
use vstd::prelude::*;

verus! {

/// The state `s` with the contexts `base` waiting below its own.
pub open spec fn under(s: State, base: Seq<Context>) -> State {
    State { control: s.control, env: s.env, stack: base + s.stack }
}

/// What a move makes of a state that has `base` below it, given what the
/// move makes of the state alone: the same, with `base` below it; but a
/// failure drops `base` too and goes back to the environment that `base`
/// holds.
pub open spec fn settled(after: State, base: Seq<Context>) -> State {
    if after.control is Done {
        State { control: after.control, env: unwind(base, after.env), stack: Seq::empty() }
    } else {
        under(after, base)
    }
}

/// Going back through two runs of contexts is going back through the upper
/// and then through the lower.
pub proof fn lemma_unwind_concat(base: Seq<Context>, stack: Seq<Context>, env: Scope)
    ensures
        unwind(base + stack, env) == unwind(base, unwind(stack, env)),
    decreases stack.len(),
{
    if stack.len() == 0 {
        assert(base + stack =~= base);
    } else {
        assert((base + stack).drop_last() =~= base + stack.drop_last());
        assert((base + stack).last() == stack.last());
        lemma_unwind_concat(
            base,
            stack.drop_last(),
            match stack.last().outer() {
                Some(o) => o,
                None => env,
            },
        );
    }
}

/// A failure above `base` is the failure alone, taken back through `base`.
pub proof fn lemma_fail_under(env: Scope, base: Seq<Context>, stack: Seq<Context>, f: Failure)
    ensures
        fail(env, base + stack, f) == settled(fail(env, stack, f), base),
{
    lemma_unwind_concat(base, stack, env);
}

/// Putting a context on top of two runs of contexts puts it on the upper.
pub proof fn lemma_push_under(base: Seq<Context>, stack: Seq<Context>)
    ensures
        forall|c: Context| #[trigger] (base + stack).push(c) == base + stack.push(c),
        forall|env: Scope, f: Failure| #[trigger]
            fail(env, base + stack, f) == settled(fail(env, stack, f), base),
{
    assert forall|c: Context| #[trigger] (base + stack).push(c) == base + stack.push(c) by {
        assert((base + stack).push(c) =~= base + stack.push(c));
    }
    assert forall|env: Scope, f: Failure| #[trigger]
        fail(env, base + stack, f) == settled(fail(env, stack, f), base) by {
        lemma_fail_under(env, base, stack, f);
    }
}

/// Evaluating an expression above `base` is evaluating it alone, with
/// `base` left below.
pub proof fn lemma_eval_under(env: Scope, base: Seq<Context>, stack: Seq<Context>, v: Value)
    ensures
        eval(env, base + stack, v) == settled(eval(env, stack, v), base),
{
    lemma_push_under(base, stack);
}

/// Handing a value to a context above `base` is handing it to the context
/// alone, with `base` left below.
pub proof fn lemma_resume_under(
    env: Scope,
    base: Seq<Context>,
    stack: Seq<Context>,
    top: Context,
    v: Value,
)
    ensures
        resume(env, base + stack, top, v) == settled(resume(env, stack, top, v), base),
{
    lemma_push_under(base, stack);
}

/// A transition above `base` is the transition alone, with `base` left below,
/// as long as the state has something of its own to do.
pub proof fn lemma_step_under(s: State, base: Seq<Context>)
    requires
        s.control is Eval || (s.control is Return && s.stack.len() > 0),
    ensures
        under(s, base).step() == settled(s.step(), base),
        s.step().control is Done ==> s.step().control->Done_0 is Err,
{
    match s.control {
        Phase::Eval(v) => {
            lemma_eval_under(s.env, base, s.stack, v);
        },
        Phase::Return(v) => {
            assert((base + s.stack).drop_last() =~= base + s.stack.drop_last());
            assert((base + s.stack).last() == s.stack.last());
            lemma_resume_under(s.env, base, s.stack.drop_last(), s.stack.last(), v);
        },
        _ => {},
    }
}

/// An answer to a state above `base` is the answer to the state alone, with
/// `base` left below.
pub proof fn lemma_answer_under(s: State, base: Seq<Context>, a: Answer)
    requires
        s.control is Waiting,
    ensures
        under(s, base).answer(a) == settled(s.answer(a), base),
        s.answer(a).control is Done ==> s.answer(a).control->Done_0 is Err,
{
    lemma_push_under(base, s.stack);
}

/// A machine that is done makes no move.
pub proof fn lemma_done_stays<H: Fn(&Request) -> Reply>(host: H, s: State, t: State, n: nat)
    requires
        driven(host, s, t, n),
        s.control is Done,
    ensures
        n == 0,
        t == s,
{
}

/// The frame property of whole evaluations. If a machine gets from `s` to
/// the end of its evaluation in `n` moves, the same moves take it there
/// with `base` waiting below: where the evaluation ends with a value, the
/// machine is then about to hand that value to `base`, in the environment
/// that the evaluation left, one move earlier; where it fails, the failure
/// is the same and the environment is the one that `base` goes back to.
pub proof fn lemma_run_under<H: Fn(&Request) -> Reply>(
    host: H,
    s: State,
    t: State,
    n: nat,
    base: Seq<Context>,
)
    requires
        driven(host, s, t, n),
        t.control is Done,
        !(s.control is Done),
    ensures
        t.control matches Phase::Done(Ok(v)) ==> n >= 1 && driven(
            host,
            under(s, base),
            ret(t.env, base, v),
            (n - 1) as nat,
        ),
        t.control matches Phase::Done(Err(f)) ==> driven(
            host,
            under(s, base),
            settled(t, base),
            n,
        ),
    decreases n,
{
    if n == 0 {
    } else if !s.halted() && driven(host, s.step(), t, (n - 1) as nat) {
        let next = s.step();
        if s.control is Return && s.stack.len() == 0 {
            lemma_done_stays(host, next, t, (n - 1) as nat);
            assert(base + s.stack =~= base);
        } else {
            lemma_step_under(s, base);
            if next.control is Done {
                lemma_done_stays(host, next, t, (n - 1) as nat);
                assert(driven(host, settled(next, base), settled(t, base), 0));
            } else {
                lemma_run_under(host, next, t, (n - 1) as nat, base);
            }
        }
    } else {
        let (q, a) = choose|q: Request, a: Reply|
            served(host, s, q, a) && driven(host, s.answer(a@), t, (n - 1) as nat);
        let next = s.answer(a@);
        lemma_answer_under(s, base, a@);
        assert(served(host, under(s, base), q, a));
        if next.control is Done {
            lemma_done_stays(host, next, t, (n - 1) as nat);
            assert(driven(host, settled(next, base), settled(t, base), 0));
        } else {
            lemma_run_under(host, next, t, (n - 1) as nat, base);
            match t.control {
                Phase::Done(Ok(v)) => {
                    assert(served(host, under(s, base), q, a) && driven(
                        host,
                        under(s, base).answer(a@),
                        ret(t.env, base, v),
                        (n - 2) as nat,
                    ));
                },
                _ => {
                    assert(served(host, under(s, base), q, a) && driven(
                        host,
                        under(s, base).answer(a@),
                        settled(t, base),
                        (n - 1) as nat,
                    ));
                },
            }
        }
    }
}

} // verus!
