//! What a check does, as a list of steps, and what comes of carrying the steps out.
//!
//! A check of a module is a fixed list of steps. Each step either refuses the module, or asks an
//! ability cache for the abilities of a type and refuses the module unless they are enough. The
//! check ends at the first step that refuses.

use vstd::prelude::*;

use crate::abilities::{covers, AbilitySet};
use crate::errors::{error_saying, ErrorModel, IndexKind, StatusCode, TableIndex};
use crate::file_format::{type_text, SignatureToken};

verus! {

/// A question to an ability cache: the abilities of `ty`, where the type parameters have the
/// abilities `type_parameter_abilities`.
#[verifier::ext_equal]
pub struct Query {
    pub type_parameter_abilities: Seq<AbilitySet>,
    pub ty: SignatureToken,
}

/// What an ability cache says: the abilities, or why it does not tell.
pub type Answer = Result<AbilitySet, ErrorModel>;

/// A question and the answer it got.
#[verifier::ext_equal]
pub struct Reply {
    pub query: Query,
    pub answer: Answer,
}

/// What is added to an error on its way out.
pub enum Note {
    /// One more place that the error points to.
    Place(IndexKind, TableIndex),
    /// Text behind the error's message, after a space.
    Remark(Seq<char>),
}

/// A step of a check.
pub enum Step {
    /// Refuses the module.
    Fail(ErrorModel),
    /// Follows an index that lies outside of its table.
    Dangling,
    /// Asks for the abilities of a type argument and refuses the module unless `constraint` is
    /// among them.
    Require { constraint: AbilitySet, query: Query, notes: Seq<Note> },
}

/// The steps of a check, in order.
pub type Plan = Seq<Step>;

/// The error with a note added.
pub open spec fn noted(err: ErrorModel, note: Note) -> ErrorModel {
    match note {
        Note::Place(kind, index) => err.at(kind, index),
        Note::Remark(text) => err.saying_also(" "@, text),
    }
}

/// The error with the notes added, the first one first.
pub open spec fn annotated(err: ErrorModel, notes: Seq<Note>) -> ErrorModel
    decreases notes.len(),
{
    if notes.len() == 0 {
        err
    } else {
        noted(annotated(err, notes.drop_last()), notes.last())
    }
}

/// The result with the notes added to its error.
pub open spec fn annotated_result(res: Result<(), ErrorModel>, notes: Seq<Note>) -> Result<
    (),
    ErrorModel,
> {
    match res {
        Ok(()) => Ok(()),
        Err(err) => Err(annotated(err, notes)),
    }
}

impl Step {
    /// The step, with the notes added to whatever error it ends in.
    pub open spec fn within(self, notes: Seq<Note>) -> Step {
        match self {
            Step::Fail(err) => Step::Fail(annotated(err, notes)),
            Step::Dangling => Step::Dangling,
            Step::Require { constraint, query, notes: inner } => Step::Require {
                constraint,
                query,
                notes: inner + notes,
            },
        }
    }
}

/// The steps, with the notes added to whatever error they end in.
pub open spec fn within(plan: Plan, notes: Seq<Note>) -> Plan {
    plan.map_values(|step: Step| step.within(notes))
}

/// The steps of `part(0)`, then those of `part(1)`, and so on for `n` parts.
pub open spec fn joined(n: nat, part: spec_fn(int) -> Plan) -> Plan
    decreases n,
{
    if n == 0 {
        Seq::empty()
    } else {
        joined((n - 1) as nat, part) + part(n - 1)
    }
}

/// What is said of a type argument that lacks an ability.
pub open spec fn constraint_text(
    constraint: AbilitySet,
    ty: SignatureToken,
    given: AbilitySet,
) -> Seq<char> {
    "expected type with abilities "@ + constraint.text() + " got type actual "@ + type_text(ty)
        + " with incompatible abilities "@ + given.text()
}

/// What comes of a requirement once it is known what the ability cache says.
pub open spec fn judged(constraint: AbilitySet, ty: SignatureToken, answer: Answer) -> Result<
    (),
    ErrorModel,
> {
    match answer {
        Err(err) => Err(err),
        Ok(given) => if covers(given, constraint) {
            Ok(())
        } else {
            Err(
                error_saying(
                    StatusCode::CONSTRAINT_NOT_SATISFIED,
                    constraint_text(constraint, ty, given),
                ),
            )
        },
    }
}

/// Whether carrying out `plan` asks just the questions in `replies`, gets the answers that stand
/// there, and ends in `res`.
pub open spec fn performs(plan: Plan, replies: Seq<Reply>, res: Result<(), ErrorModel>) -> bool
    decreases plan.len(),
{
    if plan.len() == 0 {
        replies.len() == 0 && res == Ok::<(), ErrorModel>(())
    } else {
        match plan[0] {
            Step::Fail(err) => replies.len() == 0 && res == Err::<(), ErrorModel>(err),
            Step::Dangling => false,
            Step::Require { constraint, query, notes } => {
                &&& replies.len() > 0
                &&& replies[0].query == query
                &&& match judged(constraint, query.ty, replies[0].answer) {
                    Err(err) => replies.len() == 1 && res == Err::<(), ErrorModel>(
                        annotated(err, notes),
                    ),
                    Ok(()) => performs(plan.drop_first(), replies.drop_first(), res),
                }
            },
        }
    }
}

/// What comes of `plan` if the ability cache gives `answers`, in that order; nothing is said if
/// there are fewer answers than questions.
pub open spec fn verdict(plan: Plan, answers: Seq<Answer>) -> Option<Result<(), ErrorModel>>
    decreases plan.len(),
{
    if plan.len() == 0 {
        Some(Ok(()))
    } else {
        match plan[0] {
            Step::Fail(err) => Some(Err(err)),
            Step::Dangling => None,
            Step::Require { constraint, query, notes } => if answers.len() == 0 {
                None
            } else {
                match judged(constraint, query.ty, answers[0]) {
                    Err(err) => Some(Err(annotated(err, notes))),
                    Ok(()) => verdict(plan.drop_first(), answers.drop_first()),
                }
            },
        }
    }
}

/// Whether no step follows an index outside of its table, unless a step before it refuses the
/// module anyway.
pub open spec fn grounded(plan: Plan) -> bool {
    forall|i: int|
        0 <= i < plan.len() && #[trigger] plan[i] is Dangling ==> exists|j: int|
            0 <= j < i && #[trigger] plan[j] is Fail
}

// ---- Errors on their way out ----

/// Adding notes twice is adding them all.
pub proof fn lemma_annotated_twice(err: ErrorModel, first: Seq<Note>, second: Seq<Note>)
    ensures
        annotated(annotated(err, first), second) == annotated(err, first + second),
    decreases second.len(),
{
    if second.len() == 0 {
        assert(first + second =~= first);
    } else {
        lemma_annotated_twice(err, first, second.drop_last());
        assert((first + second).drop_last() =~= first + second.drop_last());
        assert((first + second).last() == second.last());
    }
}

/// A single note.
pub proof fn lemma_annotated_one(err: ErrorModel, a: Note)
    ensures
        annotated(err, seq![a]) == noted(err, a),
{
    assert(seq![a].drop_last() =~= Seq::<Note>::empty());
    assert(annotated(err, Seq::<Note>::empty()) == err);
}

/// Two notes.
pub proof fn lemma_annotated_two(err: ErrorModel, a: Note, b: Note)
    ensures
        annotated(err, seq![a, b]) == noted(noted(err, a), b),
{
    lemma_annotated_one(err, a);
    assert(seq![a, b].drop_last() =~= seq![a]);
}

/// Three notes.
pub proof fn lemma_annotated_three(err: ErrorModel, a: Note, b: Note, c: Note)
    ensures
        annotated(err, seq![a, b, c]) == noted(noted(noted(err, a), b), c),
{
    lemma_annotated_two(err, a, b);
    assert(seq![a, b, c].drop_last() =~= seq![a, b]);
}

// ---- Carrying out plans ----

/// A plan that went through is followed by the next one.
pub proof fn lemma_performs_then(
    first: Plan,
    first_replies: Seq<Reply>,
    second: Plan,
    second_replies: Seq<Reply>,
    res: Result<(), ErrorModel>,
)
    requires
        performs(first, first_replies, Ok(())),
        performs(second, second_replies, res),
    ensures
        performs(first + second, first_replies + second_replies, res),
    decreases first.len(),
{
    if first.len() == 0 {
        assert(first + second =~= second);
        assert(first_replies + second_replies =~= second_replies);
    } else {
        lemma_performs_then(
            first.drop_first(),
            first_replies.drop_first(),
            second,
            second_replies,
            res,
        );
        assert((first + second).drop_first() =~= first.drop_first() + second);
        assert((first_replies + second_replies).drop_first() =~= first_replies.drop_first()
            + second_replies);
        assert((first_replies + second_replies)[0] == first_replies[0]);
    }
}

/// A plan that was refused is refused whatever comes after it.
pub proof fn lemma_performs_cut(first: Plan, replies: Seq<Reply>, err: ErrorModel, second: Plan)
    requires
        performs(first, replies, Err(err)),
    ensures
        performs(first + second, replies, Err(err)),
    decreases first.len(),
{
    if first[0] is Require {
        if replies.len() > 1 {
            lemma_performs_cut(first.drop_first(), replies.drop_first(), err, second);
        } else {
            let step = first[0];
            if judged(step->constraint, step->query.ty, replies[0].answer) is Ok {
                lemma_performs_cut(first.drop_first(), replies.drop_first(), err, second);
            }
        }
        assert((first + second).drop_first() =~= first.drop_first() + second);
    }
}

/// Notes are added to the error that a plan ends in, and to nothing else.
pub proof fn lemma_performs_within(
    plan: Plan,
    replies: Seq<Reply>,
    res: Result<(), ErrorModel>,
    notes: Seq<Note>,
)
    requires
        performs(plan, replies, res),
    ensures
        performs(within(plan, notes), replies, annotated_result(res, notes)),
    decreases plan.len(),
{
    if plan.len() > 0 {
        assert(within(plan, notes)[0] == plan[0].within(notes));
        match plan[0] {
            Step::Require { constraint, query, notes: inner } => {
                match judged(constraint, query.ty, replies[0].answer) {
                    Err(err) => {
                        lemma_annotated_twice(err, inner, notes);
                    },
                    Ok(()) => {
                        lemma_performs_within(
                            plan.drop_first(),
                            replies.drop_first(),
                            res,
                            notes,
                        );
                        assert(within(plan, notes).drop_first() =~= within(
                            plan.drop_first(),
                            notes,
                        ));
                    },
                }
            },
            _ => {},
        }
    }
}

/// What a plan with notes ends in is what the plan ends in, with the notes added.
pub proof fn lemma_performs_without(
    plan: Plan,
    notes: Seq<Note>,
    replies: Seq<Reply>,
    res: Result<(), ErrorModel>,
) -> (inner: Result<(), ErrorModel>)
    requires
        performs(within(plan, notes), replies, res),
    ensures
        performs(plan, replies, inner),
        res == annotated_result(inner, notes),
        res is Ok ==> inner == res,
    decreases plan.len(),
{
    if plan.len() == 0 {
        Ok(())
    } else {
        assert(within(plan, notes)[0] == plan[0].within(notes));
        match plan[0] {
            Step::Fail(err) => Err(err),
            Step::Dangling => Ok(()),
            Step::Require { constraint, query, notes: inner } => {
                match judged(constraint, query.ty, replies[0].answer) {
                    Err(err) => {
                        lemma_annotated_twice(err, inner, notes);
                        Err(annotated(err, inner))
                    },
                    Ok(()) => {
                        assert(within(plan, notes).drop_first() =~= within(
                            plan.drop_first(),
                            notes,
                        ));
                        lemma_performs_without(
                            plan.drop_first(),
                            notes,
                            replies.drop_first(),
                            res,
                        )
                    },
                }
            },
        }
    }
}

/// A plan that went through asks for each of its steps, and every answer is enough.
pub proof fn lemma_performs_ok(plan: Plan, replies: Seq<Reply>)
    requires
        performs(plan, replies, Ok(())),
    ensures
        replies.len() == plan.len(),
        forall|i: int|
            0 <= i < plan.len() ==> {
                let step = #[trigger] plan[i];
                &&& step is Require
                &&& replies[i].query == step->query
                &&& judged(step->constraint, step->query.ty, replies[i].answer) is Ok
            },
    decreases plan.len(),
{
    if plan.len() > 0 {
        let rest = plan.drop_first();
        lemma_performs_ok(rest, replies.drop_first());
        assert forall|i: int| 0 <= i < plan.len() implies {
            let step = #[trigger] plan[i];
            &&& step is Require
            &&& replies[i].query == step->query
            &&& judged(step->constraint, step->query.ty, replies[i].answer) is Ok
        } by {
            if i > 0 {
                assert(rest[i - 1] == plan[i]);
                assert(replies.drop_first()[i - 1] == replies[i]);
            }
        }
    }
}

/// Two ways of carrying out a plan that get the same answers are the same.
pub proof fn lemma_same_answers(
    plan: Plan,
    replies: Seq<Reply>,
    res: Result<(), ErrorModel>,
    other_replies: Seq<Reply>,
    other_res: Result<(), ErrorModel>,
)
    requires
        performs(plan, replies, res),
        performs(plan, other_replies, other_res),
        forall|i: int|
            0 <= i < replies.len() && i < other_replies.len() ==> (#[trigger] replies[i]).answer
                == other_replies[i].answer,
    ensures
        replies == other_replies,
        res == other_res,
    decreases plan.len(),
{
    if plan.len() == 0 || !(plan[0] is Require) {
        assert(replies =~= other_replies);
    } else {
        assert(replies[0].answer == other_replies[0].answer);
        assert(replies[0] =~= other_replies[0]);
        let step = plan[0];
        if judged(step->constraint, step->query.ty, replies[0].answer) is Ok {
            let a = replies.drop_first();
            let b = other_replies.drop_first();
            assert forall|i: int| 0 <= i < a.len() && i < b.len() implies (
            #[trigger] a[i]).answer == b[i].answer by {
                assert(replies[i + 1].answer == other_replies[i + 1].answer);
            }
            lemma_same_answers(plan.drop_first(), a, res, b, other_res);
            assert(replies =~= seq![replies[0]] + a);
            assert(other_replies =~= seq![other_replies[0]] + b);
        } else {
            assert(replies =~= other_replies);
        }
    }
}

/// What is asked and comes out of two plans, one after the other: either the first goes through
/// with the first `k` replies and the second gets the rest, or the first is refused.
pub open spec fn splits_at(
    first: Plan,
    second: Plan,
    replies: Seq<Reply>,
    res: Result<(), ErrorModel>,
    k: int,
) -> bool {
    &&& 0 <= k <= replies.len()
    &&& {
        ||| performs(first, replies.take(k), Ok(())) && performs(second, replies.skip(k), res)
        ||| res is Err && k == replies.len() && performs(first, replies, res)
    }
}

/// Two plans, one after the other.
pub proof fn lemma_performs_split(
    first: Plan,
    second: Plan,
    replies: Seq<Reply>,
    res: Result<(), ErrorModel>,
) -> (k: int)
    requires
        performs(first + second, replies, res),
    ensures
        splits_at(first, second, replies, res, k),
    decreases first.len(),
{
    if first.len() == 0 {
        assert(first + second =~= second);
        assert(replies.skip(0) =~= replies);
        assert(replies.take(0) =~= Seq::<Reply>::empty());
        0
    } else {
        let step = (first + second)[0];
        assert(step == first[0]);
        assert((first + second).drop_first() =~= first.drop_first() + second);
        if step is Require && judged(
            step->constraint,
            step->query.ty,
            replies[0].answer,
        ) is Ok {
            let rest = replies.drop_first();
            let k = lemma_performs_split(first.drop_first(), second, rest, res);
            assert(replies.take(k + 1).drop_first() =~= rest.take(k));
            assert(replies.skip(k + 1) =~= rest.skip(k));
            k + 1
        } else {
            assert(replies.take(replies.len() as int) =~= replies);
            replies.len() as int
        }
    }
}

/// Whether, with the first `k` replies, all parts before the `i`th go through, and the `i`th part
/// is refused with the rest of them.
pub open spec fn refuses_first(
    part: spec_fn(int) -> Plan,
    i: int,
    k: int,
    replies: Seq<Reply>,
    err: ErrorModel,
) -> bool {
    &&& 0 <= k <= replies.len()
    &&& performs(joined(i as nat, part), replies.take(k), Ok(()))
    &&& performs(part(i), replies.skip(k), Err(err))
}

/// Whether carrying out `plan` asks just the questions in `replies`, gets the answers that stand
/// there, and is refused.
pub open spec fn refuses(plan: Plan, replies: Seq<Reply>) -> bool {
    exists|err: ErrorModel| #[trigger] performs(plan, replies, Err(err))
}

/// A plan that went through with the first of the replies is not refused with all of them.
pub proof fn lemma_not_refused(plan: Plan, replies: Seq<Reply>, k: int)
    requires
        0 <= k <= replies.len(),
        performs(plan, replies.take(k), Ok(())),
    ensures
        !refuses(plan, replies),
{
    if refuses(plan, replies) {
        let err = choose|err: ErrorModel| #[trigger] performs(plan, replies, Err(err));
        lemma_same_answers(plan, replies.take(k), Ok(()), replies, Err(err));
    }
}

/// There is but one first part that refuses.
pub proof fn lemma_refuses_first_once(
    part: spec_fn(int) -> Plan,
    i: int,
    k: int,
    err: ErrorModel,
    other_i: int,
    other_k: int,
    other_err: ErrorModel,
    replies: Seq<Reply>,
)
    requires
        0 <= i,
        0 <= other_i,
        refuses_first(part, i, k, replies, err),
        refuses_first(part, other_i, other_k, replies, other_err),
    ensures
        i == other_i,
        k == other_k,
        err == other_err,
{
    if i < other_i {
        lemma_refused_before(part, i, k, err, other_i, replies);
        lemma_not_refused(joined(other_i as nat, part), replies, other_k);
    } else if other_i < i {
        lemma_refused_before(part, other_i, other_k, other_err, i, replies);
        lemma_not_refused(joined(i as nat, part), replies, k);
    } else {
        lemma_same_answers(
            joined(i as nat, part),
            replies.take(k),
            Ok(()),
            replies.take(other_k),
            Ok(()),
        );
        assert(replies.take(k).len() == k);
        assert(replies.take(other_k).len() == other_k);
        lemma_same_answers(part(i), replies.skip(k), Err(err), replies.skip(k), Err(other_err));
    }
}

proof fn lemma_refused_before(
    part: spec_fn(int) -> Plan,
    i: int,
    k: int,
    err: ErrorModel,
    n: int,
    replies: Seq<Reply>,
)
    requires
        0 <= i < n,
        refuses_first(part, i, k, replies, err),
    ensures
        refuses(joined(n as nat, part), replies),
{
    lemma_performs_then(
        joined(i as nat, part),
        replies.take(k),
        part(i),
        replies.skip(k),
        Err(err),
    );
    assert(replies.take(k) + replies.skip(k) =~= replies);
    lemma_performs_cut_joined(n as nat, (i + 1) as nat, part, replies, err);
}

/// If a plan is refused, one of its steps is the first to refuse.
pub proof fn lemma_first_refusing_step(plan: Plan, replies: Seq<Reply>, err: ErrorModel) -> (i: int)
    requires
        performs(plan, replies, Err(err)),
    ensures
        0 <= i < plan.len(),
        forall|j: int|
            0 <= j < i ==> {
                let step = #[trigger] plan[j];
                &&& step is Require
                &&& replies[j].query == step->query
                &&& judged(step->constraint, step->query.ty, replies[j].answer) is Ok
            },
        match plan[i] {
            Step::Fail(said) => replies.len() == i && err == said,
            Step::Dangling => false,
            Step::Require { constraint, query, notes } => {
                &&& replies.len() == i + 1
                &&& replies[i].query == query
                &&& judged(constraint, query.ty, replies[i].answer) matches Err(said) && err
                    == annotated(said, notes)
            },
        },
    decreases plan.len(),
{
    let first = plan[0];
    if first is Require && judged(
        first->constraint,
        first->query.ty,
        replies[0].answer,
    ) is Ok {
        let rest = plan.drop_first();
        let others = replies.drop_first();
        let i = lemma_first_refusing_step(rest, others, err);
        assert forall|j: int| 0 <= j < i + 1 implies {
            let step = #[trigger] plan[j];
            &&& step is Require
            &&& replies[j].query == step->query
            &&& judged(step->constraint, step->query.ty, replies[j].answer) is Ok
        } by {
            if j > 0 {
                assert(rest[j - 1] == plan[j]);
                assert(others[j - 1] == replies[j]);
            }
        }
        assert(rest[i] == plan[i + 1]);
        i + 1
    } else {
        0
    }
}

/// If the parts are refused, one of them is the first to refuse.
pub proof fn lemma_performs_joined_refused(
    n: nat,
    part: spec_fn(int) -> Plan,
    replies: Seq<Reply>,
    err: ErrorModel,
) -> (found: (int, int))
    requires
        performs(joined(n, part), replies, Err(err)),
    ensures
        0 <= found.0 < n,
        refuses_first(part, found.0, found.1, replies, err),
    decreases n,
{
    if n > 0 {
        let before = joined((n - 1) as nat, part);
        let k = lemma_performs_split(before, part(n - 1), replies, Err(err));
        if performs(before, replies, Err(err)) {
            lemma_performs_joined_refused((n - 1) as nat, part, replies, err)
        } else {
            (n - 1, k)
        }
    } else {
        (0, 0)
    }
}

/// Whether the plan goes through with the replies from `from` up to `to`.
pub open spec fn goes_through_between(plan: Plan, replies: Seq<Reply>, from: int, to: int) -> bool {
    0 <= from <= to <= replies.len() && performs(plan, replies.subrange(from, to), Ok(()))
}

/// Whether the plan goes through with some of the replies that stand next to each other.
pub open spec fn goes_through_with_some(plan: Plan, replies: Seq<Reply>) -> bool {
    exists|from: int, to: int| #[trigger] goes_through_between(plan, replies, from, to)
}

/// If the parts go through, each of them does.
pub proof fn lemma_performs_joined_ok(
    n: nat,
    part: spec_fn(int) -> Plan,
    replies: Seq<Reply>,
    i: int,
) -> (between: (int, int))
    requires
        performs(joined(n, part), replies, Ok(())),
        0 <= i < n,
    ensures
        goes_through_between(part(i), replies, between.0, between.1),
    decreases n,
{
    let k = lemma_performs_split(joined((n - 1) as nat, part), part(n - 1), replies, Ok(()));
    if i == n - 1 {
        assert(replies.skip(k) =~= replies.subrange(k, replies.len() as int));
        (k, replies.len() as int)
    } else {
        let found = lemma_performs_joined_ok((n - 1) as nat, part, replies.take(k), i);
        assert(replies.take(k).subrange(found.0, found.1) =~= replies.subrange(found.0, found.1));
        found
    }
}

/// Parts that are the same, joined.
pub proof fn lemma_joined_same(n: nat, part: spec_fn(int) -> Plan, other: spec_fn(int) -> Plan)
    requires
        forall|i: int| 0 <= i < n ==> #[trigger] part(i) == other(i),
    ensures
        joined(n, part) == joined(n, other),
    decreases n,
{
    if n > 0 {
        lemma_joined_same((n - 1) as nat, part, other);
        assert(part(n - 1) == other(n - 1));
    }
}

/// Parts that are all empty, joined.
pub proof fn lemma_joined_nothing(n: nat, part: spec_fn(int) -> Plan)
    requires
        forall|i: int| 0 <= i < n ==> #[trigger] part(i) == Seq::<Step>::empty(),
    ensures
        joined(n, part) == Seq::<Step>::empty(),
    decreases n,
{
    if n > 0 {
        lemma_joined_nothing((n - 1) as nat, part);
        assert(part(n - 1) == Seq::<Step>::empty());
    }
}

/// Parts that are joined begin with the first of them.
pub proof fn lemma_joined_begins(n: nat, part: spec_fn(int) -> Plan) -> (rest: Plan)
    requires
        n > 0,
    ensures
        joined(n, part) == part(0) + rest,
    decreases n,
{
    if n == 1 {
        assert(joined(0, part) =~= Seq::<Step>::empty());
        assert(joined(n, part) =~= part(0) + Seq::<Step>::empty());
        Seq::empty()
    } else {
        let rest = lemma_joined_begins((n - 1) as nat, part);
        assert(joined(n, part) =~= part(0) + (rest + part(n - 1)));
        rest + part(n - 1)
    }
}

/// The empty plan goes through.
pub proof fn lemma_performs_nothing()
    ensures
        performs(Seq::<Step>::empty(), Seq::<Reply>::empty(), Ok(())),
{
}

/// A plan of one step that refuses.
pub proof fn lemma_performs_fail(err: ErrorModel)
    ensures
        performs(seq![Step::Fail(err)], Seq::<Reply>::empty(), Err(err)),
{
}

/// A plan of one requirement.
pub proof fn lemma_performs_require(constraint: AbilitySet, query: Query, answer: Answer)
    ensures
        performs(
            seq![Step::Require { constraint, query, notes: Seq::empty() }],
            seq![Reply { query, answer }],
            judged(constraint, query.ty, answer),
        ),
{
    let plan = seq![Step::Require { constraint, query, notes: Seq::empty() }];
    let replies = seq![Reply { query, answer }];
    assert(plan.drop_first() =~= Seq::<Step>::empty());
    assert(replies.drop_first() =~= Seq::<Reply>::empty());
    assert(forall|err: ErrorModel| #[trigger] annotated(err, Seq::<Note>::empty()) == err);
    lemma_performs_nothing();
}

// ---- Indices that lead somewhere ----

/// The beginning of a grounded plan is grounded.
pub proof fn lemma_grounded_first(first: Plan, second: Plan)
    requires
        grounded(first + second),
    ensures
        grounded(first),
{
    let both = first + second;
    assert forall|i: int| 0 <= i < first.len() && #[trigger] first[i] is Dangling implies exists|
        j: int,
    |
        0 <= j < i && #[trigger] first[j] is Fail by {
        assert(both[i] is Dangling);
        let j = choose|j: int| 0 <= j < i && #[trigger] both[j] is Fail;
        assert(first[j] is Fail);
    }
}

/// What follows a plan that went through is grounded if the whole is.
pub proof fn lemma_grounded_rest(first: Plan, second: Plan, replies: Seq<Reply>)
    requires
        grounded(first + second),
        performs(first, replies, Ok(())),
    ensures
        grounded(second),
{
    let both = first + second;
    lemma_performs_ok(first, replies);
    assert forall|i: int| 0 <= i < second.len() && #[trigger] second[i] is Dangling implies exists|
        j: int,
    |
        0 <= j < i && #[trigger] second[j] is Fail by {
        assert(both[i + first.len()] is Dangling);
        let j = choose|j: int| 0 <= j < i + first.len() && #[trigger] both[j] is Fail;
        if j < first.len() {
            assert(first[j] is Require);
        } else {
            assert(second[j - first.len()] is Fail);
        }
    }
}

/// Notes do not change where the indices lead.
pub proof fn lemma_grounded_within(plan: Plan, notes: Seq<Note>)
    requires
        grounded(within(plan, notes)),
    ensures
        grounded(plan),
{
    let noted = within(plan, notes);
    assert forall|i: int| 0 <= i < plan.len() && #[trigger] plan[i] is Dangling implies exists|
        j: int,
    |
        0 <= j < i && #[trigger] plan[j] is Fail by {
        assert(noted[i] is Dangling);
        let j = choose|j: int| 0 <= j < i && #[trigger] noted[j] is Fail;
        assert(plan[j] is Fail);
    }
}

/// A grounded plan does not begin with an index outside of its table.
pub proof fn lemma_grounded_start(plan: Plan)
    requires
        grounded(plan),
    ensures
        plan.len() > 0 ==> !(plan[0] is Dangling),
{
    if plan.len() > 0 && plan[0] is Dangling {
        let j = choose|j: int| 0 <= j < 0 && #[trigger] plan[j] is Fail;
        assert(false);
    }
}

/// The first parts of a grounded plan are grounded.
pub proof fn lemma_grounded_joined(n: nat, k: nat, part: spec_fn(int) -> Plan)
    requires
        grounded(joined(n, part)),
        k <= n,
    ensures
        grounded(joined(k, part)),
    decreases n,
{
    if k < n {
        lemma_grounded_first(joined((n - 1) as nat, part), part(n - 1));
        lemma_grounded_joined((n - 1) as nat, k, part);
    }
}

/// After the first `k` parts went through, the next one is grounded.
pub proof fn lemma_grounded_part(
    n: nat,
    k: nat,
    part: spec_fn(int) -> Plan,
    replies: Seq<Reply>,
)
    requires
        grounded(joined(n, part)),
        k < n,
        performs(joined(k, part), replies, Ok(())),
    ensures
        grounded(part(k as int)),
{
    lemma_grounded_joined(n, k + 1, part);
    lemma_grounded_rest(joined(k, part), part(k as int), replies);
}

/// If the first `k + 1` parts are refused, so is the whole.
pub proof fn lemma_performs_cut_joined(
    n: nat,
    k: nat,
    part: spec_fn(int) -> Plan,
    replies: Seq<Reply>,
    err: ErrorModel,
)
    requires
        k <= n,
        performs(joined(k, part), replies, Err(err)),
    ensures
        performs(joined(n, part), replies, Err(err)),
    decreases n,
{
    if k < n {
        lemma_performs_cut_joined((n - 1) as nat, k, part, replies, err);
        lemma_performs_cut(joined((n - 1) as nat, part), replies, err, part(n - 1));
    }
}

} // verus!
