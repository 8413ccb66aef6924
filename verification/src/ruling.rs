//! What comes of a plan if the abilities of types are known beforehand.

use vstd::prelude::*;

use crate::abilities::{covers, AbilitySet};
use crate::errors::ErrorModel;
use crate::plan::{
    annotated, annotated_result, joined, judged, lemma_annotated_twice, performs, within, Answer,
    Note, Plan, Query, Reply, Step,
};

verus! {

/// What every question is answered with.
pub type Oracle = spec_fn(Query) -> Answer;

/// Whether the answers are those of the oracle.
pub open spec fn consistent(replies: Seq<Reply>, oracle: Oracle) -> bool {
    forall|i: int|
        0 <= i < replies.len() ==> (#[trigger] replies[i]).answer == oracle(replies[i].query)
}

/// What comes of `plan` if the oracle answers; nothing is said if the plan leads to an index
/// outside of its table.
pub open spec fn ruling(plan: Plan, oracle: Oracle) -> Option<Result<(), ErrorModel>>
    decreases plan.len(),
{
    if plan.len() == 0 {
        Some(Ok(()))
    } else {
        match plan[0] {
            Step::Fail(err) => Some(Err(err)),
            Step::Dangling => None,
            Step::Require { constraint, query, notes } => match judged(
                constraint,
                query.ty,
                oracle(query),
            ) {
                Err(err) => Some(Err(annotated(err, notes))),
                Ok(()) => ruling(plan.drop_first(), oracle),
            },
        }
    }
}

/// Whether every step has the property.
pub open spec fn all_steps(plan: Plan, property: spec_fn(Step) -> bool) -> bool {
    forall|i: int| 0 <= i < plan.len() ==> property(#[trigger] plan[i])
}

/// Whether a step does not refuse what the oracle says.
pub open spec fn passing(oracle: Oracle) -> spec_fn(Step) -> bool {
    |step: Step|
        match step {
            Step::Fail(_) => false,
            Step::Dangling => false,
            Step::Require { constraint, query, notes } => suits(constraint, oracle(query)),
        }
}

/// Whether the answer grants the abilities that are asked for.
pub open spec fn suits(constraint: AbilitySet, answer: Answer) -> bool {
    answer matches Ok(given) && covers(given, constraint)
}

/// Whether a step does not follow an index outside of its table.
pub open spec fn leading_somewhere() -> spec_fn(Step) -> bool {
    |step: Step| !(step is Dangling)
}

/// Carrying out a plan with the oracle's answers ends as the oracle's ruling says.
pub proof fn lemma_performs_ruling(
    plan: Plan,
    replies: Seq<Reply>,
    res: Result<(), ErrorModel>,
    oracle: Oracle,
)
    requires
        performs(plan, replies, res),
        consistent(replies, oracle),
    ensures
        ruling(plan, oracle) == Some(res),
    decreases plan.len(),
{
    if plan.len() > 0 && plan[0] is Require {
        let step = plan[0];
        assert(replies[0].answer == oracle(replies[0].query));
        if judged(step->constraint, step->query.ty, replies[0].answer) is Ok {
            assert forall|i: int| 0 <= i < replies.drop_first().len() implies (
            #[trigger] replies.drop_first()[i]).answer == oracle(
                replies.drop_first()[i].query,
            ) by {
                assert(replies.drop_first()[i] == replies[i + 1]);
            }
            lemma_performs_ruling(plan.drop_first(), replies.drop_first(), res, oracle);
        }
    }
}

/// The ruling on a plan is that on its beginning, unless that goes through.
pub proof fn lemma_ruling_then(first: Plan, second: Plan, oracle: Oracle)
    ensures
        ruling(first + second, oracle) == if ruling(first, oracle) == Some(
            Ok::<(), ErrorModel>(()),
        ) {
            ruling(second, oracle)
        } else {
            ruling(first, oracle)
        },
    decreases first.len(),
{
    if first.len() == 0 {
        assert(first + second =~= second);
    } else {
        assert((first + second).drop_first() =~= first.drop_first() + second);
        lemma_ruling_then(first.drop_first(), second, oracle);
    }
}

/// Notes are added to the error of a ruling, and to nothing else.
pub proof fn lemma_ruling_within(plan: Plan, notes: Seq<Note>, oracle: Oracle)
    ensures
        ruling(within(plan, notes), oracle) == match ruling(plan, oracle) {
            Some(res) => Some(annotated_result(res, notes)),
            None => None,
        },
        ruling(within(plan, notes), oracle) == Some(Ok::<(), ErrorModel>(())) <==> ruling(
            plan,
            oracle,
        ) == Some(Ok::<(), ErrorModel>(())),
    decreases plan.len(),
{
    if let Some(Ok(unit)) = ruling(plan, oracle) {
        assert(unit == ());
    }
    if plan.len() > 0 {
        assert(within(plan, notes)[0] == plan[0].within(notes));
        assert(within(plan, notes).drop_first() =~= within(plan.drop_first(), notes));
        lemma_ruling_within(plan.drop_first(), notes, oracle);
        match plan[0] {
            Step::Require { constraint, query, notes: inner } => {
                match judged(constraint, query.ty, oracle(query)) {
                    Err(err) => {
                        lemma_annotated_twice(err, inner, notes);
                    },
                    Ok(()) => {},
                }
            },
            _ => {},
        }
    }
}

/// A plan goes through if and only if none of its steps refuses.
pub proof fn lemma_ruling_ok(plan: Plan, oracle: Oracle)
    ensures
        ruling(plan, oracle) == Some(Ok::<(), ErrorModel>(())) <==> all_steps(
            plan,
            passing(oracle),
        ),
    decreases plan.len(),
{
    if plan.len() > 0 {
        lemma_ruling_ok(plan.drop_first(), oracle);
        let property = passing(oracle);
        if property(plan[0]) {
            assert(all_steps(plan, property) <==> all_steps(plan.drop_first(), property)) by {
                if all_steps(plan.drop_first(), property) {
                    assert forall|i: int| 0 <= i < plan.len() implies property(
                        #[trigger] plan[i],
                    ) by {
                        if i > 0 {
                            assert(property(plan.drop_first()[i - 1]));
                        }
                    }
                }
                if all_steps(plan, property) {
                    assert forall|i: int| 0 <= i < plan.drop_first().len() implies property(
                        #[trigger] plan.drop_first()[i],
                    ) by {
                        assert(property(plan[i + 1]));
                    }
                }
            }
        }
    }
}

/// Whether the plan goes through if the oracle answers.
pub open spec fn goes_through(plan: Plan, oracle: Oracle) -> bool {
    ruling(plan, oracle) == Some(Ok::<(), ErrorModel>(()))
}

/// The ruling on parts is that on the first of them that does not go through.
pub proof fn lemma_ruling_joined(n: nat, part: spec_fn(int) -> Plan, oracle: Oracle)
    ensures
        goes_through(joined(n, part), oracle) <==> forall|i: int|
            0 <= i < n ==> goes_through(#[trigger] part(i), oracle),
        forall|i: int|
            0 <= i < n && goes_through(joined(i as nat, part), oracle) && !goes_through(
                #[trigger] part(i),
                oracle,
            ) ==> ruling(joined(n, part), oracle) == ruling(part(i), oracle),
    decreases n,
{
    if n > 0 {
        lemma_ruling_joined((n - 1) as nat, part, oracle);
        lemma_ruling_then(joined((n - 1) as nat, part), part(n - 1), oracle);
    }
}

/// A property of every step of two plans.
pub proof fn lemma_all_steps_then(first: Plan, second: Plan, property: spec_fn(Step) -> bool)
    ensures
        all_steps(first + second, property) <==> all_steps(first, property) && all_steps(
            second,
            property,
        ),
{
    let both = first + second;
    if all_steps(both, property) {
        assert forall|i: int| 0 <= i < first.len() implies property(#[trigger] first[i]) by {
            assert(property(both[i]));
        }
        assert forall|i: int| 0 <= i < second.len() implies property(#[trigger] second[i]) by {
            assert(property(both[i + first.len()]));
        }
    }
}

/// A property of every step of every part.
pub proof fn lemma_all_steps_joined(
    n: nat,
    part: spec_fn(int) -> Plan,
    property: spec_fn(Step) -> bool,
)
    ensures
        all_steps(joined(n, part), property) <==> forall|k: int|
            0 <= k < n ==> all_steps(#[trigger] part(k), property),
    decreases n,
{
    if n > 0 {
        lemma_all_steps_joined((n - 1) as nat, part, property);
        lemma_all_steps_then(joined((n - 1) as nat, part), part(n - 1), property);
    }
}

/// Notes do not change what the oracle says of the steps.
pub proof fn lemma_passing_within(plan: Plan, notes: Seq<Note>, oracle: Oracle)
    ensures
        all_steps(within(plan, notes), passing(oracle)) <==> all_steps(plan, passing(oracle)),
{
    let noted = within(plan, notes);
    if all_steps(noted, passing(oracle)) {
        assert forall|i: int| 0 <= i < plan.len() implies passing(oracle)(#[trigger] plan[i]) by {
            assert(passing(oracle)(noted[i]));
        }
    }
}

/// Notes do not change where the indices lead.
pub proof fn lemma_leading_within(plan: Plan, notes: Seq<Note>)
    requires
        all_steps(plan, leading_somewhere()),
    ensures
        all_steps(within(plan, notes), leading_somewhere()),
{
}

} // verus!
