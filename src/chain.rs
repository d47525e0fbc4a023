use vstd::prelude::*;
use crate::router::RouterError;

verus! {

/// What a handler makes of a route id: it answers, passes to the next handler, or fails.
pub enum HandlerOutcome<R> {
    Handled(R),
    Pass,
    Failed(RouterError),
}

/// Whether an outcome hands the request on to the next handler. A failure with
/// `NextMiddleware` is the pass signal too.
pub open spec fn passes<R>(o: HandlerOutcome<R>) -> bool {
    match o {
        HandlerOutcome::Pass => true,
        HandlerOutcome::Failed(e) => e == RouterError::NextMiddleware,
        HandlerOutcome::Handled(_) => false,
    }
}

/// What the chain answers when its handlers give `outcomes`, in order: the first outcome that
/// does not pass decides; where every handler passes, `NotFound`.
pub open spec fn chain_outcome<R>(outcomes: Seq<HandlerOutcome<R>>) -> Result<R, RouterError>
    decreases outcomes.len(),
{
    if outcomes.len() == 0 {
        Err(RouterError::NotFound)
    } else {
        match outcomes[0] {
            HandlerOutcome::Handled(r) => Ok(r),
            HandlerOutcome::Failed(e) => if e == RouterError::NextMiddleware {
                chain_outcome(outcomes.drop_first())
            } else {
                Err(e)
            },
            HandlerOutcome::Pass => chain_outcome(outcomes.drop_first()),
        }
    }
}

/// The decision after one handler: `None` to ask the next handler (or, after the last one,
/// to fail with `NotFound`), otherwise the chain's answer.
pub fn dispatch_step<R>(outcome: HandlerOutcome<R>) -> (r: Option<Result<R, RouterError>>)
    ensures
        passes(outcome) <==> r is None,
        !passes(outcome) ==> r == Some(chain_outcome(seq![outcome])),
{
    match outcome {
        HandlerOutcome::Handled(resp) => Some(Ok(resp)),
        HandlerOutcome::Pass => None,
        HandlerOutcome::Failed(e) => if e == RouterError::NextMiddleware {
            None
        } else {
            Some(Err(e))
        },
    }
}

/// The answer of a chain whose handlers have all passed.
pub fn exhausted<R>() -> (r: Result<R, RouterError>)
    ensures
        r == chain_outcome(Seq::<HandlerOutcome<R>>::empty()),
{
    Err(RouterError::NotFound)
}

/// The chain's answer for outcomes already gathered, in handler order.
pub fn chain_outcome_of<R>(outcomes: Vec<HandlerOutcome<R>>) -> (r: Result<R, RouterError>)
    ensures
        r == chain_outcome(outcomes@),
{
    let ghost all = outcomes@;
    let mut rest = outcomes;
    while rest.len() > 0
        invariant
            all == outcomes@,
            chain_outcome(all) == chain_outcome(rest@),
        decreases rest@.len(),
    {
        let ghost before = rest@;
        let o = rest.remove(0);
        proof {
            assert(rest@ =~= before.drop_first());
            assert(before =~= seq![o] + rest@);
            if passes(o) {
                lemma_pass_is_skipped(o, rest@);
            } else {
                lemma_first_answer_wins(o, rest@);
            }
        }
        match dispatch_step(o) {
            Some(answer) => {
                return answer;
            },
            None => {},
        }
    }
    exhausted()
}

/// A handler that passes is skipped: the chain answers as the handlers after it do, so the
/// pass itself never reaches the caller.
pub proof fn lemma_pass_is_skipped<R>(o: HandlerOutcome<R>, rest: Seq<HandlerOutcome<R>>)
    requires
        passes(o),
    ensures
        chain_outcome(seq![o] + rest) == chain_outcome(rest),
{
    assert((seq![o] + rest).drop_first() =~= rest);
}

/// The first handler that does not pass decides: later handlers are never consulted.
pub proof fn lemma_first_answer_wins<R>(o: HandlerOutcome<R>, rest: Seq<HandlerOutcome<R>>)
    requires
        !passes(o),
    ensures
        chain_outcome(seq![o] + rest) == chain_outcome(seq![o]),
{
}

/// Stepping through the outcomes one at a time, as `dispatch_step` does, gives the chain's
/// answer: the prefix of passes is dropped.
pub proof fn lemma_chain_prefix<R>(done: Seq<HandlerOutcome<R>>, rest: Seq<HandlerOutcome<R>>)
    requires
        forall|i: int| 0 <= i < done.len() ==> passes(#[trigger] done[i]),
    ensures
        chain_outcome(done + rest) == chain_outcome(rest),
    decreases done.len(),
{
    if done.len() > 0 {
        assert((done + rest).drop_first() =~= done.drop_first() + rest);
        assert forall|i: int| 0 <= i < done.drop_first().len() implies passes(
            #[trigger] done.drop_first()[i],
        ) by {
            assert(done.drop_first()[i] == done[i + 1]);
        }
        lemma_chain_prefix(done.drop_first(), rest);
    } else {
        assert(done + rest =~= rest);
    }
}

} // verus!
