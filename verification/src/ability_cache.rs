//! Where the abilities of types come from.

use std::collections::VecDeque;

use vstd::prelude::*;

use crate::abilities::AbilitySet;
use crate::errors::{result_model, PartialVMError, PartialVMResult, StatusCode};
use crate::file_format::SignatureToken;
use crate::plan::{Answer, Query, Reply};

verus! {

/// What the cost of a question is charged to.
#[derive(Clone, Copy, Debug, PartialEq, Eq, Structural)]
pub enum Scope {
    Transaction,
    Package,
    Module,
    Function,
}

/// A source of the abilities of types.
///
/// The checker relies on nothing that a source says: what it proves holds whatever the answers
/// are. A source that has more to say of its answers says so in `may_answer`.
pub trait AbilityCache<M>: Sized {
    /// Whether the source, and the meter with it, may go from `before` to `after` by giving
    /// `answer`. A source that says nothing of its answers may give any.
    open spec fn may_answer(
        before: (Self, M),
        scope: Scope,
        query: Query,
        after: (Self, M),
        answer: Answer,
    ) -> bool {
        true
    }

    /// The abilities of `ty`, where the type parameters have the abilities
    /// `type_parameter_abilities`. What it costs to find out is charged to `scope` in `meter`.
    fn abilities(
        &mut self,
        scope: Scope,
        meter: &mut M,
        type_parameter_abilities: &[AbilitySet],
        ty: &SignatureToken,
    ) -> (answer: PartialVMResult<AbilitySet>)
        ensures
            Self::may_answer(
                (*old(self), *old(meter)),
                scope,
                Query { type_parameter_abilities: type_parameter_abilities@, ty: *ty },
                (*final(self), *final(meter)),
                result_model(answer),
            ),
    ;
}

/// Whether a source goes through `states` by giving `replies`, each charged to the module.
pub open spec fn conversation<C: AbilityCache<M>, M>(
    states: Seq<(C, M)>,
    replies: Seq<Reply>,
) -> bool {
    &&& states.len() == replies.len() + 1
    &&& forall|i: int|
        0 <= i < replies.len() ==> C::may_answer(
            states[i],
            Scope::Module,
            (#[trigger] replies[i]).query,
            states[i + 1],
            replies[i].answer,
        )
}

/// A conversation begins with an answer, and goes on from there.
pub proof fn lemma_conversation_goes_on<C: AbilityCache<M>, M>(
    states: Seq<(C, M)>,
    replies: Seq<Reply>,
)
    requires
        conversation(states, replies),
        replies.len() > 0,
    ensures
        C::may_answer(
            states[0],
            Scope::Module,
            replies[0].query,
            states[1],
            replies[0].answer,
        ),
        conversation(states.drop_first(), replies.drop_first()),
{
    let rest = states.drop_first();
    assert forall|i: int| 0 <= i < replies.drop_first().len() implies C::may_answer(
        rest[i],
        Scope::Module,
        (#[trigger] replies.drop_first()[i]).query,
        rest[i + 1],
        replies.drop_first()[i].answer,
    ) by {
        assert(replies.drop_first()[i] == replies[i + 1]);
    }
}

/// A source that gives prepared answers in order, whatever it is asked.
pub struct PreparedAnswers {
    answers: VecDeque<PartialVMResult<AbilitySet>>,
    /// Whether it was asked for more.
    overrun: bool,
}

impl PreparedAnswers {
    /// The answers that are left.
    pub closed spec fn left(self) -> Seq<Answer> {
        self.answers@.map_values(|answer: PartialVMResult<AbilitySet>| result_model(answer))
    }

    /// Whether it was asked for more answers than it had.
    pub closed spec fn was_overrun(self) -> bool {
        self.overrun
    }

    /// A source that gives these answers.
    pub fn new(answers: VecDeque<PartialVMResult<AbilitySet>>) -> (source: Self)
        ensures
            source.left() == answers@.map_values(
                |answer: PartialVMResult<AbilitySet>| result_model(answer),
            ),
            !source.was_overrun(),
    {
        PreparedAnswers { answers, overrun: false }
    }

    /// Whether it was asked for more answers than it had.
    pub fn is_overrun(&self) -> (yes: bool)
        ensures
            yes == self.was_overrun(),
    {
        self.overrun
    }
}

impl<M> AbilityCache<M> for PreparedAnswers {
    /// The next answer is the one that is given; when none is left, the question is refused and
    /// that is remembered. The meter is left alone.
    open spec fn may_answer(
        before: (Self, M),
        scope: Scope,
        query: Query,
        after: (Self, M),
        answer: Answer,
    ) -> bool {
        &&& after.1 == before.1
        &&& if before.0.left().len() > 0 {
            &&& answer == before.0.left()[0]
            &&& after.0.left() == before.0.left().drop_first()
            &&& after.0.was_overrun() == before.0.was_overrun()
        } else {
            &&& answer is Err
            &&& after.0.left() == before.0.left()
            &&& after.0.was_overrun()
        }
    }

    fn abilities(
        &mut self,
        scope: Scope,
        meter: &mut M,
        type_parameter_abilities: &[AbilitySet],
        ty: &SignatureToken,
    ) -> (answer: PartialVMResult<AbilitySet>) {
        match self.answers.pop_front() {
            Some(answer) => {
                assert(self.left() =~= old(self).left().drop_first());
                answer
            },
            None => {
                self.overrun = true;
                Err(PartialVMError::new(StatusCode::OTHER(0)))
            },
        }
    }
}

} // verus!
