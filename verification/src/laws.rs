//! What holds of every check of a module.

use vstd::prelude::*;

use crate::abilities::AbilitySet;
use crate::ability_cache::{conversation, lemma_conversation_goes_on, AbilityCache, Scope};
use crate::acceptance::lemma_module_passes;
use crate::bounds::{lemma_module_leads, module_in_bounds};
use crate::causes::{lemma_annotated_status, lemma_own_module, own_status, refusing_by_itself};
use crate::checked::Instance;
use crate::errors::{outcome_of, result_model, ErrorModel, Location, PartialVMResult, VMResult};
use crate::file_format::{
    has_reference, preorder, CodeUnit, CompiledModule, DatatypeHandle, DatatypeTyParameter,
    FieldDefinition, SignatureToken, StructFieldInformation, VERSION_6,
};
use crate::module_plan::{
    any_bad_signature, any_inner_reference, any_reference, datatype_at, function_type_parameters,
    generic_use, inner_reference, locals_instance, module_plan, parameters_instance,
    reference_error, return_instance, signature_at, signature_pool_plan, GenericUse,
};
use crate::plan::{
    grounded, judged, lemma_performs_ok, lemma_same_answers, performs, Answer, Plan, Query, Reply,
    Step,
};
use crate::ruling::{
    all_steps, consistent, leading_somewhere, lemma_performs_ruling, lemma_ruling_ok, passing,
    ruling, suits, Oracle,
};
use crate::signature::checks;
use crate::well_formed::{
    enum_fits, field_fits, fields_fit, function_fits, handle_fits, instruction_fits,
    lemma_uncached_module, module_fits, outside_fits, phantoms_respected, signature_fits,
    struct_fits, type_fits, uncached_module_plan,
};

verus! {

/// Whether an ability cache, when it tells abilities at all, tells those that the oracle knows.
pub open spec fn honest<C: AbilityCache<M>, M>(oracle: Oracle) -> bool {
    forall|before: (C, M), query: Query, after: (C, M), answer: Answer| #[trigger]
        C::may_answer(before, Scope::Module, query, after, answer) && answer is Ok ==> answer
            == oracle(query)
}

/// Whether an ability cache says just what the oracle says.
pub open spec fn truthful<C: AbilityCache<M>, M>(oracle: Oracle) -> bool {
    forall|before: (C, M), query: Query, after: (C, M), answer: Answer| #[trigger]
        C::may_answer(before, Scope::Module, query, after, answer) ==> answer == oracle(query)
}

/// The oracle that grants every ability to every type.
pub open spec fn generous() -> Oracle {
    |query: Query| Ok(AbilitySet { copy: true, drop: true, store: true, key: true })
}

/// A check that goes through asks for the abilities of each type argument that the module's plan
/// names, in the order of the plan, and every answer grants what is asked for.
pub proof fn law_every_requirement_is_asked_and_met(m: CompiledModule, replies: Seq<Reply>)
    requires
        performs(module_plan(m), replies, Ok(())),
    ensures
        replies.len() == module_plan(m).len(),
        forall|i: int|
            0 <= i < replies.len() ==> {
                let step = #[trigger] module_plan(m)[i];
                &&& step is Require
                &&& replies[i].query == step->query
                &&& suits(step->constraint, replies[i].answer)
            },
{
    lemma_performs_ok(module_plan(m), replies);
}

/// What is asked next, and what comes of it all, depends on the module and on the answers so far
/// and on nothing else: two checks of a module that get the same answers ask the same questions
/// and end alike.
pub proof fn law_same_answers_same_outcome(
    m: CompiledModule,
    replies: Seq<Reply>,
    res: Result<(), ErrorModel>,
    other_replies: Seq<Reply>,
    other_res: Result<(), ErrorModel>,
)
    requires
        performs(module_plan(m), replies, res),
        performs(module_plan(m), other_replies, other_res),
        forall|i: int|
            0 <= i < replies.len() && i < other_replies.len() ==> (#[trigger] replies[i]).answer
                == other_replies[i].answer,
    ensures
        replies == other_replies,
        res == other_res,
{
    lemma_same_answers(module_plan(m), replies, res, other_replies, other_res);
}

/// Whether an ability cache and a meter in a given state can answer a question in one way only.
pub open spec fn deterministic<C: AbilityCache<M>, M>() -> bool {
    forall|
        before: (C, M),
        query: Query,
        after: (C, M),
        answer: Answer,
        other_after: (C, M),
        other_answer: Answer,
    |
        #[trigger] C::may_answer(before, Scope::Module, query, after, answer)
            && #[trigger] C::may_answer(before, Scope::Module, query, other_after, other_answer)
            ==> after == other_after && answer == other_answer
}

/// With an ability cache whose answers depend on its state and the meter's alone, two checks of a
/// module that start alike end alike.
pub proof fn law_same_start_same_end<C: AbilityCache<M>, M>(
    m: CompiledModule,
    before: (C, M),
    after: (C, M),
    res: Result<(), ErrorModel>,
    other_after: (C, M),
    other_res: Result<(), ErrorModel>,
)
    requires
        checks(m, before, after, res),
        checks(m, before, other_after, other_res),
        deterministic::<C, M>(),
    ensures
        after == other_after,
        res == other_res,
{
    let (states, replies) = choose|states: Seq<(C, M)>, replies: Seq<Reply>|
        {
            &&& #[trigger] conversation(states, replies)
            &&& states.first() == before
            &&& states.last() == after
            &&& performs(module_plan(m), replies, res)
        };
    let (other_states, other_replies) = choose|states: Seq<(C, M)>, replies: Seq<Reply>|
        {
            &&& #[trigger] conversation(states, replies)
            &&& states.first() == before
            &&& states.last() == other_after
            &&& performs(module_plan(m), replies, other_res)
        };
    law_same_plan_same_start_same_end(
        module_plan(m),
        states,
        replies,
        res,
        other_states,
        other_replies,
        other_res,
    );
}

/// With an ability cache whose answers depend on its state and the meter's alone, any two ways of
/// carrying out one plan that start alike go through the same states, ask the same and end alike.
/// So parts of a check that have the same plan can stand for each other.
pub proof fn law_same_plan_same_start_same_end<C: AbilityCache<M>, M>(
    plan: Plan,
    states: Seq<(C, M)>,
    replies: Seq<Reply>,
    res: Result<(), ErrorModel>,
    other_states: Seq<(C, M)>,
    other_replies: Seq<Reply>,
    other_res: Result<(), ErrorModel>,
)
    requires
        conversation(states, replies),
        conversation(other_states, other_replies),
        states.first() == other_states.first(),
        performs(plan, replies, res),
        performs(plan, other_replies, other_res),
        deterministic::<C, M>(),
    ensures
        states == other_states,
        replies == other_replies,
        res == other_res,
    decreases plan.len(),
{
    if plan.len() > 0 && plan[0] is Require {
        lemma_conversation_goes_on(states, replies);
        lemma_conversation_goes_on(other_states, other_replies);
        let step = plan[0];
        if judged(step->constraint, step->query.ty, replies[0].answer) is Ok {
            law_same_plan_same_start_same_end(
                plan.drop_first(),
                states.drop_first(),
                replies.drop_first(),
                res,
                other_states.drop_first(),
                other_replies.drop_first(),
                other_res,
            );
        }
        assert(states =~= seq![states[0]] + states.drop_first());
        assert(other_states =~= seq![other_states[0]] + other_states.drop_first());
        assert(replies[0] == other_replies[0]);
        assert(replies =~= seq![replies[0]] + replies.drop_first());
        assert(other_replies =~= seq![other_replies[0]] + other_replies.drop_first());
        if judged(step->constraint, step->query.ty, replies[0].answer) is Err {
            assert(states.drop_first() =~= seq![states[1]]);
            assert(other_states.drop_first() =~= seq![other_states[1]]);
            assert(replies.drop_first() =~= other_replies.drop_first());
        }
    } else {
        assert(states =~= seq![states[0]]);
        assert(other_states =~= seq![other_states[0]]);
        assert(replies =~= other_replies);
    }
}

/// With an ability cache whose answers depend on its state and the meter's alone, the check that
/// names the module (`verify_module`) goes through just when the one that does not
/// (`verify_module_impl`) does, and leaves cache and meter as that does. Otherwise it ends in the
/// same error, found in the module.
pub proof fn law_the_error_is_found_in_the_module<C: AbilityCache<M>, M>(
    m: CompiledModule,
    before: (C, M),
    inner_after: (C, M),
    inner: PartialVMResult<()>,
    after: (C, M),
    res: VMResult<()>,
)
    requires
        checks(m, before, inner_after, result_model(inner)),
        checks(m, before, after, outcome_of(res)),
        res matches Err(err) ==> err.location == Location::Module(m.self_id),
        deterministic::<C, M>(),
    ensures
        after == inner_after,
        match inner {
            Ok(()) => res is Ok,
            Err(found) => res matches Err(err) && err.error@ == found@ && err.location
                == Location::Module(m.self_id),
        },
{
    law_same_start_same_end(
        m,
        before,
        inner_after,
        result_model(inner),
        after,
        outcome_of(res),
    );
}

/// With an ability cache that says what the oracle says, a module is accepted if and only if its
/// signatures are well formed.
pub proof fn law_accepted_if_and_only_if_well_formed<C: AbilityCache<M>, M>(
    m: CompiledModule,
    before: (C, M),
    after: (C, M),
    res: Result<(), ErrorModel>,
    oracle: Oracle,
)
    requires
        checks(m, before, after, res),
        truthful::<C, M>(oracle),
    ensures
        res is Ok <==> module_fits(m, oracle),
{
    lemma_truthful_ruling::<C, M>(m, before, after, res, oracle);
    lemma_module_passes(m, oracle);
    if let Ok(unit) = res {
        assert(unit == ());
    }
}

/// With an ability cache that says what the oracle says, the check ends as it would if the
/// signatures of functions and locals were checked anew each time one is met.
pub proof fn law_remembering_changes_nothing<C: AbilityCache<M>, M>(
    m: CompiledModule,
    before: (C, M),
    after: (C, M),
    res: Result<(), ErrorModel>,
    oracle: Oracle,
)
    requires
        checks(m, before, after, res),
        truthful::<C, M>(oracle),
    ensures
        ruling(uncached_module_plan(m), oracle) == Some(res),
{
    lemma_truthful_ruling::<C, M>(m, before, after, res, oracle);
    lemma_uncached_module(m, oracle);
}

proof fn lemma_truthful_ruling<C: AbilityCache<M>, M>(
    m: CompiledModule,
    before: (C, M),
    after: (C, M),
    res: Result<(), ErrorModel>,
    oracle: Oracle,
)
    requires
        checks(m, before, after, res),
        truthful::<C, M>(oracle),
    ensures
        ruling(module_plan(m), oracle) == Some(res),
{
    let (states, replies) = choose|states: Seq<(C, M)>, replies: Seq<Reply>|
        {
            &&& #[trigger] conversation(states, replies)
            &&& states.first() == before
            &&& states.last() == after
            &&& performs(module_plan(m), replies, res)
        };
    assert(consistent(replies, oracle));
    lemma_performs_ruling(module_plan(m), replies, res, oracle);
}

/// The signatures of an accepted module are well formed, as long as the ability cache grants no
/// type other abilities than it has. It may refuse to tell, for instance when a limit is reached.
pub proof fn law_accepted_modules_are_well_formed<C: AbilityCache<M>, M>(
    m: CompiledModule,
    before: (C, M),
    after: (C, M),
    oracle: Oracle,
)
    requires
        checks(m, before, after, Ok(())),
        honest::<C, M>(oracle),
    ensures
        module_fits(m, oracle),
{
    let (states, replies) = choose|states: Seq<(C, M)>, replies: Seq<Reply>|
        {
            &&& #[trigger] conversation(states, replies)
            &&& states.first() == before
            &&& states.last() == after
            &&& performs(module_plan(m), replies, Ok(()))
        };
    lemma_performs_ok(module_plan(m), replies);
    assert(consistent(replies, oracle)) by {
        assert forall|i: int| 0 <= i < replies.len() implies (#[trigger] replies[i]).answer
            == oracle(replies[i].query) by {
            assert(module_plan(m)[i] is Require);
        }
    }
    lemma_performs_ruling(module_plan(m), replies, Ok(()), oracle);
    lemma_module_passes(m, oracle);
}

/// Whatever the ability cache says, an accepted module fits as far as abilities do not matter.
proof fn lemma_accepted_fits_generously<C: AbilityCache<M>, M>(
    m: CompiledModule,
    before: (C, M),
    after: (C, M),
)
    requires
        checks(m, before, after, Ok(())),
    ensures
        module_fits(m, generous()),
{
    let (states, replies) = choose|states: Seq<(C, M)>, replies: Seq<Reply>|
        {
            &&& #[trigger] conversation(states, replies)
            &&& states.first() == before
            &&& states.last() == after
            &&& performs(module_plan(m), replies, Ok(()))
        };
    lemma_performs_ok(module_plan(m), replies);
    assert forall|i: int| 0 <= i < module_plan(m).len() implies passing(generous())(
        #[trigger] module_plan(m)[i],
    ) by {
        let step = module_plan(m)[i];
        assert(suits(step->constraint, generous()(step->query)));
    }
    lemma_ruling_ok(module_plan(m), generous());
    lemma_module_passes(m, generous());
}

/// In an accepted module, whatever the ability cache says, references occur in signatures only
/// around the whole of a type, and in the types of fields not at all.
pub proof fn law_references_only_around_whole_types<C: AbilityCache<M>, M>(
    m: CompiledModule,
    before: (C, M),
    after: (C, M),
)
    requires
        checks(m, before, after, Ok(())),
    ensures
        forall|i: int, j: int|
            #![trigger m.signatures@[i].0@[j]]
            0 <= i < m.signatures@.len() && i < 0x1_0000 && 0 <= j < m.signatures@[i].0@.len()
                ==> !inner_reference(m.signatures@[i].0@[j]),
        forall|i: int, fields: Vec<FieldDefinition>, j: int|
            #![trigger m.struct_defs@[i], fields@[j]]
            0 <= i < m.struct_defs@.len() && m.struct_defs@[i].field_information
                == StructFieldInformation::Declared(fields) && 0 <= j < fields@.len()
                ==> !has_reference(fields@[j].signature.0),
        forall|i: int, tag: int, j: int|
            #![trigger m.enum_defs@[i].variants@[tag].fields@[j]]
            0 <= i < m.enum_defs@.len() && 0 <= tag < m.enum_defs@[i].variants@.len() && 0 <= j
                < m.enum_defs@[i].variants@[tag].fields@.len() ==> !has_reference(
                m.enum_defs@[i].variants@[tag].fields@[j].signature.0,
            ),
{
    lemma_accepted_fits_generously(m, before, after);
    assert forall|i: int, j: int|
        #![trigger m.signatures@[i].0@[j]]
        0 <= i < m.signatures@.len() && i < 0x1_0000 && 0 <= j
            < m.signatures@[i].0@.len() implies !inner_reference(m.signatures@[i].0@[j]) by {
        assert(!any_inner_reference(m.signatures@[i].0@));
    }
    assert forall|i: int, fields: Vec<FieldDefinition>, j: int|
        #![trigger m.struct_defs@[i], fields@[j]]
        0 <= i < m.struct_defs@.len() && m.struct_defs@[i].field_information
            == StructFieldInformation::Declared(fields) && 0 <= j
            < fields@.len() implies !has_reference(fields@[j].signature.0) by {
        assert(struct_fits(m, m.struct_defs@[i], generous()));
    }
    assert forall|i: int, tag: int, j: int|
        #![trigger m.enum_defs@[i].variants@[tag].fields@[j]]
        0 <= i < m.enum_defs@.len() && 0 <= tag < m.enum_defs@[i].variants@.len() && 0 <= j
            < m.enum_defs@[i].variants@[tag].fields@.len() implies !has_reference(
        m.enum_defs@[i].variants@[tag].fields@[j].signature.0,
    ) by {
        assert(enum_fits(m, m.enum_defs@[i], generous()));
        assert(fields_fit(
            m,
            m.enum_defs@[i].variants@[tag].fields@,
            datatype_at(m, m.enum_defs@[i].enum_handle),
            generous(),
        ));
    }
}

/// In an accepted module, whatever the ability cache says, the phantom type parameters of a
/// struct or an enum are used in the types of its fields only in phantom position.
pub proof fn law_phantom_parameters_only_in_phantom_position<C: AbilityCache<M>, M>(
    m: CompiledModule,
    before: (C, M),
    after: (C, M),
)
    requires
        checks(m, before, after, Ok(())),
    ensures
        forall|i: int, fields: Vec<FieldDefinition>, j: int|
            #![trigger m.struct_defs@[i], fields@[j]]
            0 <= i < m.struct_defs@.len() && m.struct_defs@[i].field_information
                == StructFieldInformation::Declared(fields) && 0 <= j < fields@.len()
                ==> phantoms_respected(
                m,
                fields@[j].signature.0,
                false,
                datatype_at(m, m.struct_defs@[i].struct_handle).type_parameters@,
            ),
        forall|i: int, tag: int, j: int|
            #![trigger m.enum_defs@[i].variants@[tag].fields@[j]]
            0 <= i < m.enum_defs@.len() && 0 <= tag < m.enum_defs@[i].variants@.len() && 0 <= j
                < m.enum_defs@[i].variants@[tag].fields@.len() ==> phantoms_respected(
                m,
                m.enum_defs@[i].variants@[tag].fields@[j].signature.0,
                false,
                datatype_at(m, m.enum_defs@[i].enum_handle).type_parameters@,
            ),
{
    lemma_accepted_fits_generously(m, before, after);
    assert forall|i: int, fields: Vec<FieldDefinition>, j: int|
        #![trigger m.struct_defs@[i], fields@[j]]
        0 <= i < m.struct_defs@.len() && m.struct_defs@[i].field_information
            == StructFieldInformation::Declared(fields) && 0 <= j
            < fields@.len() implies phantoms_respected(
        m,
        fields@[j].signature.0,
        false,
        datatype_at(m, m.struct_defs@[i].struct_handle).type_parameters@,
    ) by {
        assert(struct_fits(m, m.struct_defs@[i], generous()));
    }
    assert forall|i: int, tag: int, j: int|
        #![trigger m.enum_defs@[i].variants@[tag].fields@[j]]
        0 <= i < m.enum_defs@.len() && 0 <= tag < m.enum_defs@[i].variants@.len() && 0 <= j
            < m.enum_defs@[i].variants@[tag].fields@.len() implies phantoms_respected(
        m,
        m.enum_defs@[i].variants@[tag].fields@[j].signature.0,
        false,
        datatype_at(m, m.enum_defs@[i].enum_handle).type_parameters@,
    ) by {
        assert(enum_fits(m, m.enum_defs@[i], generous()));
        assert(fields_fit(
            m,
            m.enum_defs@[i].variants@[tag].fields@,
            datatype_at(m, m.enum_defs@[i].enum_handle),
            generous(),
        ));
    }
}

/// In an accepted module, whatever the ability cache says, every instruction on vectors names one
/// element type, every generic that an instruction uses is given as many type arguments as it
/// declares, and no type argument of an instruction holds a reference.
pub proof fn law_instructions_have_the_type_arguments_they_need<C: AbilityCache<M>, M>(
    m: CompiledModule,
    before: (C, M),
    after: (C, M),
)
    requires
        checks(m, before, after, Ok(())),
    ensures
        forall|i: int, code: CodeUnit, offset: int|
            #![trigger m.function_defs@[i], code.code@[offset]]
            0 <= i < m.function_defs@.len() && m.function_defs@[i].code == Some(code) && 0 <= offset
                < code.code@.len() ==> match generic_use(m, code.code@[offset]) {
                GenericUse::Nothing => true,
                GenericUse::Dangling => false,
                GenericUse::Elements(tys) => tys.len() == 1 && !any_reference(tys),
                GenericUse::Instance { type_arguments, constraints } => type_arguments.len()
                    == constraints.len() && !any_reference(type_arguments),
            },
{
    lemma_accepted_fits_generously(m, before, after);
    assert forall|i: int, code: CodeUnit, offset: int|
        #![trigger m.function_defs@[i], code.code@[offset]]
        0 <= i < m.function_defs@.len() && m.function_defs@[i].code == Some(code) && 0 <= offset
            < code.code@.len() implies match generic_use(m, code.code@[offset]) {
        GenericUse::Nothing => true,
        GenericUse::Dangling => false,
        GenericUse::Elements(tys) => tys.len() == 1 && !any_reference(tys),
        GenericUse::Instance { type_arguments, constraints } => type_arguments.len()
            == constraints.len() && !any_reference(type_arguments),
    } by {
        let def = m.function_defs@[i];
        assert(function_fits(m, def, generous()));
        assert(instruction_fits(
            m,
            code.code@[offset],
            function_type_parameters(m, def),
            generous(),
        ));
    }
}

/// A misplaced reference in a signature is refused before the ability cache is asked anything.
pub proof fn law_misplaced_references_are_refused_unasked(
    m: CompiledModule,
    replies: Seq<Reply>,
    res: Result<(), ErrorModel>,
)
    requires
        any_bad_signature(m.signatures@),
        performs(module_plan(m), replies, res),
    ensures
        replies.len() == 0,
        res == Err::<(), ErrorModel>(reference_error()),
{
    assert(module_plan(m)[0] == signature_pool_plan(m)[0]);
}

/// Every index of a module that is in bounds leads somewhere, so that such a module can be
/// checked.
pub proof fn law_modules_in_bounds_can_be_checked(m: CompiledModule)
    requires
        module_in_bounds(m),
    ensures
        grounded(module_plan(m)),
{
    lemma_module_leads(m);
    assert forall|i: int| 0 <= i < module_plan(m).len() implies !(
    #[trigger] module_plan(m)[i] is Dangling) by {
        assert(leading_somewhere()(module_plan(m)[i]));
    }
}

/// A refusal has one of the four statuses of the checker's own, or else the status that the
/// ability cache gave in answer to the last question.
pub proof fn law_refusals_have_a_known_status(
    m: CompiledModule,
    replies: Seq<Reply>,
    err: ErrorModel,
)
    requires
        performs(module_plan(m), replies, Err(err)),
    ensures
        own_status(err.major_status) || (replies.len() > 0 && (replies.last().answer matches Err(
            given,
        ) && given.major_status == err.major_status)),
{
    lemma_own_module(m);
    lemma_known_status(module_plan(m), replies, err);
}

proof fn lemma_known_status(plan: Plan, replies: Seq<Reply>, err: ErrorModel)
    requires
        performs(plan, replies, Err(err)),
        all_steps(plan, refusing_by_itself()),
    ensures
        own_status(err.major_status) || (replies.len() > 0 && (replies.last().answer matches Err(
            given,
        ) && given.major_status == err.major_status)),
    decreases plan.len(),
{
    assert(refusing_by_itself()(plan[0]));
    if let Step::Require { constraint, query, notes } = plan[0] {
        match judged(constraint, query.ty, replies[0].answer) {
            Err(inner) => {
                lemma_annotated_status(inner, notes);
            },
            Ok(()) => {
                let rest = plan.drop_first();
                assert forall|i: int| 0 <= i < rest.len() implies refusing_by_itself()(
                    #[trigger] rest[i],
                ) by {
                    assert(refusing_by_itself()(plan[i + 1]));
                }
                lemma_known_status(rest, replies.drop_first(), err);
            },
        }
    }
}

/// With an ability cache that says what the oracle says, a module that is accepted under the
/// rules from version 6 on is accepted whatever its version is.
pub proof fn law_accepted_in_every_version<C: AbilityCache<M>, M>(
    m: CompiledModule,
    before: (C, M),
    after: (C, M),
    version: u32,
    other_before: (C, M),
    other_after: (C, M),
    other_res: Result<(), ErrorModel>,
    oracle: Oracle,
)
    requires
        m.version >= VERSION_6,
        checks(m, before, after, Ok(())),
        checks(CompiledModule { version, ..m }, other_before, other_after, other_res),
        truthful::<C, M>(oracle),
    ensures
        other_res is Ok,
{
    let other = CompiledModule { version, ..m };
    law_accepted_if_and_only_if_well_formed::<C, M>(m, before, after, Ok(()), oracle);
    lemma_fits_in_every_version(m, version, oracle);
    law_accepted_if_and_only_if_well_formed::<C, M>(
        other,
        other_before,
        other_after,
        other_res,
        oracle,
    );
}

/// A type that fits from version 6 on fits in every version.
pub proof fn lemma_type_fits_in_every_version(
    m: CompiledModule,
    version: u32,
    ty: SignatureToken,
    type_parameters: Seq<AbilitySet>,
    oracle: Oracle,
)
    requires
        m.version >= VERSION_6,
        type_fits(m, ty, type_parameters, oracle),
    ensures
        type_fits(CompiledModule { version, ..m }, ty, type_parameters, oracle),
{
    let other = CompiledModule { version, ..m };
    assert(preorder(ty)[0] == ty);
    assert forall|i: int| 0 <= i < preorder(ty).len() implies outside_fits(
        other,
        #[trigger] preorder(ty)[i],
        type_parameters,
        oracle,
    ) by {
        assert(outside_fits(m, preorder(ty)[i], type_parameters, oracle));
    }
}

proof fn lemma_signature_fits_in_every_version(
    m: CompiledModule,
    version: u32,
    instance: Instance,
    oracle: Oracle,
)
    requires
        m.version >= VERSION_6,
        signature_fits(m, instance, oracle),
    ensures
        signature_fits(CompiledModule { version, ..m }, instance, oracle),
{
    let other = CompiledModule { version, ..m };
    assert forall|i: int| 0 <= i < signature_at(other, instance.0).len() implies type_fits(
        other,
        #[trigger] signature_at(other, instance.0)[i],
        instance.1,
        oracle,
    ) by {
        assert(type_fits(m, signature_at(m, instance.0)[i], instance.1, oracle));
        lemma_type_fits_in_every_version(
            m,
            version,
            signature_at(m, instance.0)[i],
            instance.1,
            oracle,
        );
    }
}

proof fn lemma_phantoms_in_every_version(
    m: CompiledModule,
    version: u32,
    ty: SignatureToken,
    phantom_position: bool,
    type_parameters: Seq<DatatypeTyParameter>,
)
    requires
        phantoms_respected(m, ty, phantom_position, type_parameters),
    ensures
        phantoms_respected(
            CompiledModule { version, ..m },
            ty,
            phantom_position,
            type_parameters,
        ),
    decreases ty,
{
    let other = CompiledModule { version, ..m };
    match ty {
        SignatureToken::Vector(inner) => {
            lemma_phantoms_in_every_version(m, version, *inner, false, type_parameters);
        },
        SignatureToken::DatatypeInstantiation(inst) => {
            let declared = datatype_at(m, inst.0).type_parameters@;
            assert forall|i: int| 0 <= i < inst.1@.len() implies phantoms_respected(
                other,
                #[trigger] inst.1@[i],
                declared[i].is_phantom,
                type_parameters,
            ) by {
                lemma_phantoms_in_every_version(
                    m,
                    version,
                    inst.1@[i],
                    declared[i].is_phantom,
                    type_parameters,
                );
            }
        },
        _ => {},
    }
}

proof fn lemma_fields_fit_in_every_version(
    m: CompiledModule,
    version: u32,
    fields: Seq<FieldDefinition>,
    handle: DatatypeHandle,
    oracle: Oracle,
)
    requires
        m.version >= VERSION_6,
        fields_fit(m, fields, handle, oracle),
    ensures
        fields_fit(CompiledModule { version, ..m }, fields, handle, oracle),
{
    let other = CompiledModule { version, ..m };
    assert forall|i: int| 0 <= i < fields.len() implies field_fits(
        other,
        (#[trigger] fields[i]).signature.0,
        handle,
        oracle,
    ) by {
        let ty = fields[i].signature.0;
        assert(field_fits(m, ty, handle, oracle));
        lemma_type_fits_in_every_version(m, version, ty, handle.constraints(), oracle);
        lemma_phantoms_in_every_version(m, version, ty, false, handle.type_parameters@);
    }
}

proof fn lemma_fits_in_every_version(m: CompiledModule, version: u32, oracle: Oracle)
    requires
        m.version >= VERSION_6,
        module_fits(m, oracle),
    ensures
        module_fits(CompiledModule { version, ..m }, oracle),
{
    let other = CompiledModule { version, ..m };
    assert forall|i: int| 0 <= i < other.function_handles@.len() implies handle_fits(
        other,
        #[trigger] other.function_handles@[i],
        oracle,
    ) by {
        let handle = m.function_handles@[i];
        assert(handle_fits(m, handle, oracle));
        lemma_signature_fits_in_every_version(m, version, return_instance(handle), oracle);
        lemma_signature_fits_in_every_version(m, version, parameters_instance(handle), oracle);
    }
    assert forall|i: int| 0 <= i < other.struct_defs@.len() implies struct_fits(
        other,
        #[trigger] other.struct_defs@[i],
        oracle,
    ) by {
        let def = m.struct_defs@[i];
        assert(struct_fits(m, def, oracle));
        if let StructFieldInformation::Declared(fields) = def.field_information {
            lemma_fields_fit_in_every_version(
                m,
                version,
                fields@,
                datatype_at(m, def.struct_handle),
                oracle,
            );
        }
    }
    assert forall|i: int| 0 <= i < other.enum_defs@.len() implies enum_fits(
        other,
        #[trigger] other.enum_defs@[i],
        oracle,
    ) by {
        let def = m.enum_defs@[i];
        assert(enum_fits(m, def, oracle));
        assert forall|tag: int| 0 <= tag < def.variants@.len() implies fields_fit(
            other,
            (#[trigger] def.variants@[tag]).fields@,
            datatype_at(m, def.enum_handle),
            oracle,
        ) by {
            lemma_fields_fit_in_every_version(
                m,
                version,
                def.variants@[tag].fields@,
                datatype_at(m, def.enum_handle),
                oracle,
            );
        }
    }
    assert forall|i: int| 0 <= i < other.function_defs@.len() implies function_fits(
        other,
        #[trigger] other.function_defs@[i],
        oracle,
    ) by {
        let def = m.function_defs@[i];
        assert(function_fits(m, def, oracle));
        if let Some(code) = def.code {
            let type_parameters = function_type_parameters(m, def);
            lemma_signature_fits_in_every_version(
                m,
                version,
                locals_instance(code, type_parameters),
                oracle,
            );
            assert forall|offset: int| 0 <= offset < code.code@.len() implies instruction_fits(
                other,
                #[trigger] code.code@[offset],
                type_parameters,
                oracle,
            ) by {
                assert(instruction_fits(m, code.code@[offset], type_parameters, oracle));
                assert(generic_use(other, code.code@[offset]) == generic_use(
                    m,
                    code.code@[offset],
                ));
            }
        }
    }
}

} // verus!
