//! What a refusal says: which fault it is about, where in the module's tables that fault is, and
//! that nothing before it is at fault.

use vstd::prelude::*;

use crate::abilities::{covers, Ability, AbilitySet};
use crate::ability_cache::{conversation, AbilityCache};
use crate::acceptance::lemma_phantom_passes;
use crate::checked::Instance;
use crate::errors::{error_saying, ErrorModel, IndexKind, StatusCode, TableIndex};
use crate::file_format::{
    has_reference, preorder, type_text, Bytecode, CodeUnit, CompiledModule, DatatypeHandle,
    DatatypeTyParameter, FieldDefinition, SignatureIndex, SignatureToken, StructFieldInformation,
    VERSION_6,
};
use crate::laws::{law_misplaced_references_are_refused_unasked, truthful};
use crate::module_plan::{
    any_bad_signature, any_inner_reference, any_reference, arity_error, checked_with_functions,
    checked_with_handles, datatype_at, enum_plan, field_plan, function_notes, function_parts,
    function_type_parameters, generic_instance_plan, generic_use, handle_notes, handle_parts,
    handle_plan, has_datatype, has_handle, has_signature, inner_reference, instantiation_plan,
    instruction_parts, instruction_plan, locals_instance, module_plan, offset_notes, offset_text,
    outer_instantiation_parts, outer_instantiation_plan, parameters_instance, phantom_error,
    phantom_plan, reference_error, requirement, return_instance, signature_at,
    signature_instantiation_plan, struct_field_notes, struct_field_parts, struct_plan, table_index,
    token_plan, tokens_plan, type_instantiation_parts, type_instantiation_plan, variant_field_notes,
    variant_field_parts, variant_parts, vector_arity_error, GenericUse,
};
use crate::part_laws::{code_plan_at, module_passes};
use crate::plan::{
    annotated, constraint_text, joined, judged, lemma_annotated_one, lemma_annotated_three,
    lemma_annotated_two, lemma_first_refusing_step, lemma_performs_joined_refused,
    lemma_performs_split, lemma_performs_without, performs, within, Note, Query, Reply, Step,
};
use crate::ruling::{
    consistent, goes_through, lemma_performs_ruling, lemma_ruling_joined, lemma_ruling_within,
    passing, suits, Oracle,
};
use crate::signature::checks;
use crate::table_laws::{lemma_covers, lemma_refused_where};
use crate::text::decimal;
use crate::type_laws::{
    law_misplaced_references_occur_inside_a_type, law_references_occur_inside_a_list,
    law_references_occur_inside_a_type, law_types_inside_a_type, lemma_misplaced_inside,
    lemma_phantom_disregarded, lemma_phantom_steps,
};
use crate::well_formed::{
    lemma_remembered, lemma_uncached_functions, lemma_uncached_handles, phantoms_respected,
};

verus! {

/// Where in a module a fault is, and what is said of it before the places are added.
#[verifier::ext_equal]
pub struct Fault {
    /// The entry of the table that the pass looks at.
    pub i: int,
    /// The field, and for an enum the variant.
    pub f: int,
    pub tag: int,
    /// The type in its signature.
    pub j: int,
    /// The type inside that type.
    pub n: int,
    /// The type argument.
    pub k: int,
    /// What is said of it.
    pub base: ErrorModel,
}

// ---- Faults of type arguments ----

spec fn arguments_fault(
    type_arguments: Seq<SignatureToken>,
    constraints: Seq<AbilitySet>,
    context: Seq<AbilitySet>,
    oracle: Oracle,
    k: int,
    base: ErrorModel,
) -> bool {
    if type_arguments.len() != constraints.len() {
        base == arity_error(constraints.len(), type_arguments.len())
    } else {
        &&& 0 <= k < type_arguments.len()
        &&& forall|q: int|
            0 <= q < k ==> suits(
                constraints[q],
                oracle(
                    Query { type_parameter_abilities: context, ty: #[trigger] type_arguments[q] },
                ),
            )
        &&& judged(
            constraints[k],
            type_arguments[k],
            oracle(Query { type_parameter_abilities: context, ty: type_arguments[k] }),
        ) == Err::<(), ErrorModel>(base)
    }
}

proof fn lemma_arguments_fault(
    type_arguments: Seq<SignatureToken>,
    constraints: Seq<AbilitySet>,
    context: Seq<AbilitySet>,
    replies: Seq<Reply>,
    err: ErrorModel,
    oracle: Oracle,
) -> (k: int)
    requires
        performs(generic_instance_plan(type_arguments, constraints, context), replies, Err(err)),
        consistent(replies, oracle),
    ensures
        arguments_fault(type_arguments, constraints, context, oracle, k, err),
{
    let plan = generic_instance_plan(type_arguments, constraints, context);
    let k = lemma_first_refusing_step(plan, replies, err);
    if type_arguments.len() == constraints.len() {
        assert(plan[k] == requirement(constraints[k], type_arguments[k], context));
        assert forall|q: int| 0 <= q < k implies suits(
            constraints[q],
            oracle(Query { type_parameter_abilities: context, ty: #[trigger] type_arguments[q] }),
        ) by {
            assert(plan[q] == requirement(constraints[q], type_arguments[q], context));
            assert(replies[q].answer == oracle(replies[q].query));
        }
        assert(replies[k].answer == oracle(replies[k].query));
        let said = judged(constraints[k], type_arguments[k], replies[k].answer)->Err_0;
        assert(annotated(said, Seq::<Note>::empty()) == said);
    }
    k
}

spec fn type_fault(
    m: CompiledModule,
    ty: SignatureToken,
    context: Seq<AbilitySet>,
    oracle: Oracle,
    n: int,
    k: int,
    base: ErrorModel,
) -> bool {
    &&& 0 <= n < preorder(ty).len()
    &&& m.version >= 6 || n == 0
    &&& preorder(ty)[n] matches SignatureToken::DatatypeInstantiation(inst) && has_datatype(
        m,
        inst.0,
    ) && arguments_fault(
        inst.1@,
        datatype_at(m, inst.0).constraints(),
        context,
        oracle,
        k,
        base,
    )
    &&& forall|q: int|
        0 <= q < n && m.version >= 6 ==> goes_through(
            outer_instantiation_plan(m, #[trigger] preorder(ty)[q], context),
            oracle,
        )
}

proof fn lemma_outer_fault(
    m: CompiledModule,
    ty: SignatureToken,
    context: Seq<AbilitySet>,
    replies: Seq<Reply>,
    err: ErrorModel,
    oracle: Oracle,
) -> (k: int)
    requires
        performs(outer_instantiation_plan(m, ty, context), replies, Err(err)),
        consistent(replies, oracle),
    ensures
        ty matches SignatureToken::DatatypeInstantiation(inst) && has_datatype(m, inst.0)
            && arguments_fault(
            inst.1@,
            datatype_at(m, inst.0).constraints(),
            context,
            oracle,
            k,
            err,
        ),
{
    match ty {
        SignatureToken::DatatypeInstantiation(inst) => {
            if has_datatype(m, inst.0) {
                lemma_arguments_fault(
                    inst.1@,
                    datatype_at(m, inst.0).constraints(),
                    context,
                    replies,
                    err,
                    oracle,
                )
            } else {
                assert(outer_instantiation_plan(m, ty, context)[0] is Dangling);
                0
            }
        },
        _ => 0,
    }
}

proof fn lemma_type_fault(
    m: CompiledModule,
    ty: SignatureToken,
    context: Seq<AbilitySet>,
    replies: Seq<Reply>,
    err: ErrorModel,
    oracle: Oracle,
) -> (found: (int, int))
    requires
        performs(type_instantiation_plan(m, ty, context), replies, Err(err)),
        consistent(replies, oracle),
    ensures
        type_fault(m, ty, context, oracle, found.0, found.1, err),
{
    let nodes = preorder(ty);
    law_types_inside_a_type(ty, Set::empty());
    if m.version >= VERSION_6 {
        let parts = outer_instantiation_parts(m, nodes, context);
        let (n, k) = lemma_performs_joined_refused(nodes.len(), parts, replies, err);
        lemma_consistent_parts(replies, k, oracle);
        let arg = lemma_outer_fault(m, nodes[n], context, replies.skip(k), err, oracle);
        lemma_performs_ruling(joined(n as nat, parts), replies.take(k), Ok(()), oracle);
        lemma_ruling_joined(n as nat, parts, oracle);
        assert forall|q: int| 0 <= q < n && m.version >= 6 implies goes_through(
            outer_instantiation_plan(m, #[trigger] preorder(ty)[q], context),
            oracle,
        ) by {
            assert(goes_through(parts(q), oracle));
        }
        (n, arg)
    } else {
        let arg = lemma_outer_fault(m, ty, context, replies, err, oracle);
        (0, arg)
    }
}

proof fn lemma_consistent_parts(replies: Seq<Reply>, k: int, oracle: Oracle)
    requires
        consistent(replies, oracle),
        0 <= k <= replies.len(),
    ensures
        consistent(replies.take(k), oracle),
        consistent(replies.skip(k), oracle),
{
    assert forall|i: int| 0 <= i < replies.skip(k).len() implies (
    #[trigger] replies.skip(k)[i]).answer == oracle(replies.skip(k)[i].query) by {
        assert(replies.skip(k)[i] == replies[i + k]);
    }
}

/// A signature that is refused: the type, the type inside it and the type argument.
proof fn lemma_signature_fault(
    m: CompiledModule,
    checked: Set<Instance>,
    instance: Instance,
    replies: Seq<Reply>,
    err: ErrorModel,
    oracle: Oracle,
) -> (found: (int, int, int))
    requires
        performs(instantiation_plan(m, checked, instance), replies, Err(err)),
        consistent(replies, oracle),
    ensures
        has_signature(m, instance.0),
        0 <= found.0 < signature_at(m, instance.0).len(),
        type_fault(
            m,
            signature_at(m, instance.0)[found.0],
            instance.1,
            oracle,
            found.1,
            found.2,
            err,
        ),
        forall|q: int|
            0 <= q < found.0 ==> goes_through(
                type_instantiation_plan(
                    m,
                    #[trigger] signature_at(m, instance.0)[q],
                    instance.1,
                ),
                oracle,
            ),
{
    if !has_signature(m, instance.0) {
        assert(!checked.contains(instance));
        assert(instantiation_plan(m, checked, instance)[0] is Dangling);
    }
    let tys = signature_at(m, instance.0);
    let parts = type_instantiation_parts(m, tys, instance.1);
    let (j, k) = lemma_performs_joined_refused(tys.len(), parts, replies, err);
    lemma_consistent_parts(replies, k, oracle);
    let (n, arg) = lemma_type_fault(m, tys[j], instance.1, replies.skip(k), err, oracle);
    lemma_performs_ruling(joined(j as nat, parts), replies.take(k), Ok(()), oracle);
    lemma_ruling_joined(j as nat, parts, oracle);
    assert forall|q: int| 0 <= q < j implies goes_through(
        type_instantiation_plan(m, #[trigger] signature_at(m, instance.0)[q], instance.1),
        oracle,
    ) by {
        assert(goes_through(parts(q), oracle));
    }
    (j, n, arg)
}

/// What the fault of type arguments is, ability by ability.
proof fn lemma_fault_told(
    type_arguments: Seq<SignatureToken>,
    declared: Seq<DatatypeTyParameter>,
    constraints: Seq<AbilitySet>,
    context: Seq<AbilitySet>,
    oracle: Oracle,
    k: int,
    base: ErrorModel,
)
    requires
        arguments_fault(type_arguments, constraints, context, oracle, k, base),
        constraints.len() == declared.len(),
        forall|q: int|
            0 <= q < constraints.len() ==> #[trigger] constraints[q] == declared[q].constraints,
    ensures
        type_arguments.len() == declared.len() ==> {
            &&& 0 <= k < type_arguments.len()
            &&& forall|q: int|
                0 <= q < k ==> (oracle(
                    Query { type_parameter_abilities: context, ty: #[trigger] type_arguments[q] },
                ) matches Ok(given) && {
                    &&& declared[q].constraints.copy ==> given.copy
                    &&& declared[q].constraints.drop ==> given.drop
                    &&& declared[q].constraints.store ==> given.store
                    &&& declared[q].constraints.key ==> given.key
                })
            &&& match oracle(
                Query { type_parameter_abilities: context, ty: type_arguments[k] },
            ) {
                Err(given) => base == given,
                Ok(given) => {
                    let asked = declared[k].constraints;
                    &&& (asked.copy && !given.copy) || (asked.drop && !given.drop) || (asked.store
                        && !given.store) || (asked.key && !given.key)
                    &&& base == error_saying(
                        StatusCode::CONSTRAINT_NOT_SATISFIED,
                        constraint_text(asked, type_arguments[k], given),
                    )
                },
            }
        },
{
    if type_arguments.len() == declared.len() {
        assert forall|q: int| 0 <= q < k implies (oracle(
            Query { type_parameter_abilities: context, ty: #[trigger] type_arguments[q] },
        ) matches Ok(given) && {
            &&& declared[q].constraints.copy ==> given.copy
            &&& declared[q].constraints.drop ==> given.drop
            &&& declared[q].constraints.store ==> given.store
            &&& declared[q].constraints.key ==> given.key
        }) by {
            let query = Query { type_parameter_abilities: context, ty: type_arguments[q] };
            assert(suits(constraints[q], oracle(query)));
            lemma_covers(oracle(query)->Ok_0, constraints[q]);
        }
        assert(constraints[k] == declared[k].constraints);
        let query = Query { type_parameter_abilities: context, ty: type_arguments[k] };
        if let Ok(given) = oracle(query) {
            let asked = declared[k].constraints;
            if (asked.copy ==> given.copy) && (asked.drop ==> given.drop) && (asked.store
                ==> given.store) && (asked.key ==> given.key) {
                assert(covers(given, asked));
            }
        }
    }
}

/// The replies of a check with an oracle's answers.
proof fn lemma_oracle_replies<C: AbilityCache<M>, M>(
    m: CompiledModule,
    before: (C, M),
    after: (C, M),
    res: Result<(), ErrorModel>,
    oracle: Oracle,
) -> (replies: Seq<Reply>)
    requires
        checks(m, before, after, res),
        truthful::<C, M>(oracle),
    ensures
        performs(module_plan(m), replies, res),
        consistent(replies, oracle),
{
    let (states, replies) = choose|states: Seq<(C, M)>, replies: Seq<Reply>|
        {
            &&& #[trigger] conversation(states, replies)
            &&& states.first() == before
            &&& states.last() == after
            &&& performs(module_plan(m), replies, res)
        };
    replies
}

// ---- Signatures ----

/// An error that points to no place says that a reference is not allowed, and there is one inside
/// a type of a signature.
pub proof fn law_an_error_without_places_is_about_a_signature<C: AbilityCache<M>, M>(
    m: CompiledModule,
    before: (C, M),
    after: (C, M),
    err: ErrorModel,
) -> (found: (int, int, int))
    requires
        checks(m, before, after, Err(err)),
        err.indices.len() == 0,
    ensures
        0 <= found.0 < m.signatures@.len(),
        found.0 < 0x1_0000,
        0 <= found.1 < m.signatures@[found.0].0@.len(),
        0 < found.2 < preorder(m.signatures@[found.0].0@[found.1]).len(),
        preorder(m.signatures@[found.0].0@[found.1])[found.2] is Reference || preorder(
            m.signatures@[found.0].0@[found.1],
        )[found.2] is MutableReference,
        err.major_status == StatusCode::INVALID_SIGNATURE_TOKEN,
        err.message == Some("reference not allowed"@),
{
    let (states, replies) = choose|states: Seq<(C, M)>, replies: Seq<Reply>|
        {
            &&& #[trigger] conversation(states, replies)
            &&& states.first() == before
            &&& states.last() == after
            &&& performs(module_plan(m), replies, Err(err))
        };
    let (pass, i, a, b) = lemma_refused_where(m, replies, err);
    let i = choose|i: int|
        0 <= i < m.signatures@.len() && i < 0x1_0000 && #[trigger] any_inner_reference(
            m.signatures@[i].0@,
        );
    let tys = m.signatures@[i].0@;
    let j = choose|j: int| 0 <= j < tys.len() && #[trigger] inner_reference(tys[j]);
    let n = lemma_misplaced_inside(tys[j]);
    (i, j, n)
}

/// A reference inside a type of a signature is refused, with an error that points to no place,
/// before anything is asked.
pub proof fn law_a_reference_inside_a_type_of_a_signature_is_refused(
    m: CompiledModule,
    replies: Seq<Reply>,
    res: Result<(), ErrorModel>,
    i: int,
    j: int,
    n: int,
)
    requires
        performs(module_plan(m), replies, res),
        0 <= i < m.signatures@.len(),
        i < 0x1_0000,
        0 <= j < m.signatures@[i].0@.len(),
        0 < n < preorder(m.signatures@[i].0@[j]).len(),
        preorder(m.signatures@[i].0@[j])[n] is Reference || preorder(m.signatures@[i].0@[j])[n]
            is MutableReference,
    ensures
        replies.len() == 0,
        res == Err::<(), ErrorModel>(
            ErrorModel {
                major_status: StatusCode::INVALID_SIGNATURE_TOKEN,
                message: Some("reference not allowed"@),
                indices: Seq::empty(),
            },
        ),
{
    law_misplaced_references_occur_inside_a_type(m.signatures@[i].0@[j]);
    assert(inner_reference(m.signatures@[i].0@[j]));
    assert(any_inner_reference(m.signatures@[i].0@));
    assert(any_bad_signature(m.signatures@));
    law_misplaced_references_are_refused_unasked(m, replies, res);
}

// ---- Function handles ----

/// An error whose last place is a function handle is about a generic type in the return types of
/// that handle, or in its parameter types when the return types are in order: it has the wrong
/// number of type arguments, or its first type argument that is not in order has no known
/// abilities or lacks one that is asked of it. The error is that of this fault, with the position
/// of the handle added as the place of a signature and of a function handle.
pub proof fn law_an_error_at_a_function_handle_is_about_its_types<C: AbilityCache<M>, M>(
    m: CompiledModule,
    before: (C, M),
    after: (C, M),
    err: ErrorModel,
    oracle: Oracle,
) -> (at: (Fault, SignatureIndex))
    requires
        checks(m, before, after, Err(err)),
        truthful::<C, M>(oracle),
        err.indices.len() > 0,
        err.indices.last().0 == IndexKind::FunctionHandle,
    ensures
        ({
            let idx = at.1;
            let at = at.0;
            let context = m.function_handles@[at.i].type_parameters@;
            let ty = m.signatures@[idx.0 as int].0@[at.j];
            &&& 0 <= at.i < m.function_handles@.len()
            &&& idx == m.function_handles@[at.i].return_ || (idx
                == m.function_handles@[at.i].parameters && goes_through(
                signature_instantiation_plan(m, (m.function_handles@[at.i].return_, context)),
                oracle,
            ))
            &&& idx.0 < m.signatures@.len()
            &&& 0 <= at.j < m.signatures@[idx.0 as int].0@.len()
            &&& forall|q: int|
                0 <= q < at.j ==> goes_through(
                    type_instantiation_plan(
                        m,
                        #[trigger] m.signatures@[idx.0 as int].0@[q],
                        context,
                    ),
                    oracle,
                )
            &&& 0 <= at.n < preorder(ty).len()
            &&& m.version >= 6 || at.n == 0
            &&& preorder(ty)[at.n] matches SignatureToken::DatatypeInstantiation(inst)
                && inst.0.0 < m.datatype_handles@.len() && ({
                let declared = m.datatype_handles@[inst.0.0 as int].type_parameters@;
                if inst.1@.len() != declared.len() {
                    at.base == (ErrorModel {
                        major_status: StatusCode::NUMBER_OF_TYPE_ARGUMENTS_MISMATCH,
                        message: Some(
                            "expected "@ + decimal(declared.len()) + " type argument(s), got "@
                                + decimal(inst.1@.len()),
                        ),
                        indices: Seq::empty(),
                    })
                } else {
                    &&& 0 <= at.k < inst.1@.len()
                    &&& forall|q: int|
                        0 <= q < at.k ==> (oracle(
                            Query { type_parameter_abilities: context, ty: #[trigger] inst.1@[q] },
                        ) matches Ok(given) && {
                            &&& declared[q].constraints.copy ==> given.copy
                            &&& declared[q].constraints.drop ==> given.drop
                            &&& declared[q].constraints.store ==> given.store
                            &&& declared[q].constraints.key ==> given.key
                        })
                    &&& match oracle(
                        Query { type_parameter_abilities: context, ty: inst.1@[at.k] },
                    ) {
                        Err(given) => at.base == given,
                        Ok(given) => {
                            let asked = declared[at.k].constraints;
                            &&& (asked.copy && !given.copy) || (asked.drop && !given.drop) || (asked.store
                                && !given.store) || (asked.key && !given.key)
                            &&& at.base == (ErrorModel {
                                major_status: StatusCode::CONSTRAINT_NOT_SATISFIED,
                                message: Some(
                                    "expected type with abilities "@ + asked.text() + " got type actual "@
                                        + type_text(inst.1@[at.k]) + " with incompatible abilities "@
                                        + given.text(),
                                ),
                                indices: Seq::empty(),
                            })
                        },
                    }
                }
            })
            &&& forall|q: int|
                0 <= q < at.n && m.version >= 6 ==> goes_through(
                    outer_instantiation_plan(m, #[trigger] preorder(ty)[q], context),
                    oracle,
                )
            &&& err == (ErrorModel {
                major_status: at.base.major_status,
                message: at.base.message,
                indices: at.base.indices.push(
                    (IndexKind::Signature, (at.i % 0x1_0000) as TableIndex),
                ).push((IndexKind::FunctionHandle, (at.i % 0x1_0000) as TableIndex)),
            })
        }),
{
    let replies = lemma_oracle_replies(m, before, after, Err(err), oracle);
    let (pass, i, a, b) = lemma_refused_where(m, replies, err);
    assert(pass == 1);
    let rest = replies.skip(a).skip(b);
    lemma_consistent_parts(replies, a, oracle);
    lemma_consistent_parts(replies.skip(a), b, oracle);
    let handle = m.function_handles@[i];
    let checked = checked_with_handles(m, i as nat);
    let first = return_instance(handle);
    let second = parameters_instance(handle);
    let plan = handle_plan(m, checked, handle);
    let inner = lemma_performs_without(plan, handle_notes(i), rest, Err(err));
    let base = inner->Err_0;
    lemma_annotated_two(
        base,
        Note::Place(IndexKind::Signature, table_index(i)),
        Note::Place(IndexKind::FunctionHandle, table_index(i)),
    );
    let p = instantiation_plan(m, checked, first);
    let q = instantiation_plan(m, checked.insert(first), second);
    let k = lemma_performs_split(p, q, rest, Err(base));
    lemma_consistent_parts(rest, k, oracle);
    lemma_performs_ruling(
        joined(i as nat, handle_parts(m)),
        replies.skip(a).take(b),
        Ok(()),
        oracle,
    );
    lemma_uncached_handles(m, i as nat, oracle);
    if performs(p, rest, Err(base)) {
        let (j, n, arg) = lemma_signature_fault(m, checked, first, rest, base, oracle);
        let inst = preorder(signature_at(m, first.0)[j])[n]->DatatypeInstantiation_0;
        lemma_fault_told(
            inst.1@,
            datatype_at(m, inst.0).type_parameters@,
            datatype_at(m, inst.0).constraints(),
            handle.type_parameters@,
            oracle,
            arg,
            base,
        );
        (Fault { i, f: 0, tag: 0, j, n, k: arg, base }, handle.return_)
    } else {
        lemma_performs_ruling(p, rest.take(k), Ok(()), oracle);
        lemma_remembered(m, checked, first, oracle);
        let (j, n, arg) = lemma_signature_fault(
            m,
            checked.insert(first),
            second,
            rest.skip(k),
            base,
            oracle,
        );
        let inst = preorder(signature_at(m, second.0)[j])[n]->DatatypeInstantiation_0;
        lemma_fault_told(
            inst.1@,
            datatype_at(m, inst.0).type_parameters@,
            datatype_at(m, inst.0).constraints(),
            handle.type_parameters@,
            oracle,
            arg,
            base,
        );
        (Fault { i, f: 0, tag: 0, j, n, k: arg, base }, handle.parameters)
    }
}

// ---- Fields ----

/// What is wrong with a field.
pub enum FieldFault {
    /// A reference occurs inside its type.
    Reference,
    /// A generic type inside its type has type arguments that do not fit.
    TypeArguments,
    /// A phantom type parameter stands where it may not.
    Phantom,
}

/// A field that is refused.
proof fn lemma_field_fault(
    m: CompiledModule,
    ty: SignatureToken,
    handle: DatatypeHandle,
    replies: Seq<Reply>,
    err: ErrorModel,
    oracle: Oracle,
) -> (found: (FieldFault, int, int))
    requires
        performs(field_plan(m, ty, handle), replies, Err(err)),
        consistent(replies, oracle),
    ensures
        match found.0 {
            FieldFault::Reference => has_reference(ty) && err == reference_error(),
            FieldFault::TypeArguments => !has_reference(ty) && type_fault(
                m,
                ty,
                handle.constraints(),
                oracle,
                found.1,
                found.2,
                err,
            ),
            FieldFault::Phantom => !has_reference(ty) && goes_through(
                type_instantiation_plan(m, ty, handle.constraints()),
                oracle,
            ) && !phantoms_respected(m, ty, false, handle.type_parameters@) && err
                == phantom_error(),
        },
{
    let a = token_plan(ty);
    let b = type_instantiation_plan(m, ty, handle.constraints());
    let c = phantom_plan(m, ty, false, handle.type_parameters@);
    if has_reference(ty) {
        assert((a + b + c)[0] == Step::Fail(reference_error()));
        (FieldFault::Reference, 0, 0)
    } else {
        assert(a + b + c =~= b + c);
        let k = lemma_performs_split(b, c, replies, Err(err));
        lemma_consistent_parts(replies, k, oracle);
        if performs(b, replies, Err(err)) {
            let (n, arg) = lemma_type_fault(m, ty, handle.constraints(), replies, err, oracle);
            (FieldFault::TypeArguments, n, arg)
        } else {
            lemma_performs_ruling(b, replies.take(k), Ok(()), oracle);
            let rest = replies.skip(k);
            let step = lemma_first_refusing_step(c, rest, err);
            lemma_phantom_steps(m, ty, false, handle.type_parameters@, step);
            lemma_phantom_passes(m, ty, false, handle.type_parameters@, oracle);
            assert(!passing(oracle)(c[step]));
            (FieldFault::Phantom, 0, 0)
        }
    }
}

/// An error whose last place is a struct is about the first of its fields that is not in order. If
/// a reference occurs inside the type of that field, it says so; else, if a generic type inside it
/// has type arguments that do not fit, it is the error of that fault; else a phantom type parameter
/// makes up the type, stands directly in a vector, or stands where a parameter is declared that is
/// not phantom, and it says so. The places of the field are added.
pub proof fn law_an_error_at_a_struct_is_about_a_field<C: AbilityCache<M>, M>(
    m: CompiledModule,
    before: (C, M),
    after: (C, M),
    err: ErrorModel,
    oracle: Oracle,
    context: Seq<AbilitySet>,
) -> (at: (Fault, FieldFault, Vec<FieldDefinition>))
    requires
        checks(m, before, after, Err(err)),
        truthful::<C, M>(oracle),
        err.indices.len() > 0,
        err.indices.last().0 == IndexKind::StructDefinition,
    ensures
        ({
            let fields = at.2@;
            let declared = at.2;
            let fault = at.1;
            let at = at.0;
            let type_parameters = m.datatype_handles@[m.struct_defs@[at.i].struct_handle.0 as int].type_parameters@;
            let ty = fields[at.f].signature.0;
            &&& 0 <= at.i < m.struct_defs@.len()
            &&& m.struct_defs@[at.i].field_information == StructFieldInformation::Declared(declared)
            &&& m.struct_defs@[at.i].struct_handle.0 < m.datatype_handles@.len()
            &&& 0 <= at.f < fields.len()
            &&& forall|q: int|
                0 <= q < at.f ==> goes_through(
                    field_plan(
                        m,
                        (#[trigger] fields[q]).signature.0,
                        m.datatype_handles@[m.struct_defs@[at.i].struct_handle.0 as int],
                    ),
                    oracle,
                )
            &&& match fault {
                FieldFault::Reference => {
                    &&& exists|n: int|
                        0 <= n < preorder(ty).len() && (#[trigger] preorder(ty)[n] is Reference
                            || preorder(ty)[n] is MutableReference)
                    &&& at.base == (ErrorModel {
                        major_status: StatusCode::INVALID_SIGNATURE_TOKEN,
                        message: Some("reference not allowed"@),
                        indices: Seq::empty(),
                    })
                },
                FieldFault::TypeArguments => {
                    &&& forall|n: int|
                        0 <= n < preorder(ty).len() ==> !(#[trigger] preorder(ty)[n] is Reference)
                            && !(preorder(ty)[n] is MutableReference)
                    &&& (context.len() == type_parameters.len() && forall|q: int|
                        0 <= q < context.len() ==> #[trigger] context[q]
                            == type_parameters[q].constraints) ==> {
                        &&& 0 <= at.n < preorder(ty).len()
                        &&& m.version >= 6 || at.n == 0
                        &&& preorder(ty)[at.n] matches SignatureToken::DatatypeInstantiation(inst)
                            && inst.0.0 < m.datatype_handles@.len() && ({
                            let declared = m.datatype_handles@[inst.0.0 as int].type_parameters@;
                            if inst.1@.len() != declared.len() {
                                at.base == (ErrorModel {
                                    major_status: StatusCode::NUMBER_OF_TYPE_ARGUMENTS_MISMATCH,
                                    message: Some(
                                        "expected "@ + decimal(declared.len()) + " type argument(s), got "@
                                            + decimal(inst.1@.len()),
                                    ),
                                    indices: Seq::empty(),
                                })
                            } else {
                                &&& 0 <= at.k < inst.1@.len()
                                &&& forall|q: int|
                                    0 <= q < at.k ==> (oracle(
                                        Query { type_parameter_abilities: context, ty: #[trigger] inst.1@[q] },
                                    ) matches Ok(given) && {
                                        &&& declared[q].constraints.copy ==> given.copy
                                        &&& declared[q].constraints.drop ==> given.drop
                                        &&& declared[q].constraints.store ==> given.store
                                        &&& declared[q].constraints.key ==> given.key
                                    })
                                &&& match oracle(
                                    Query { type_parameter_abilities: context, ty: inst.1@[at.k] },
                                ) {
                                    Err(given) => at.base == given,
                                    Ok(given) => {
                                        let asked = declared[at.k].constraints;
                                        &&& (asked.copy && !given.copy) || (asked.drop && !given.drop) || (asked.store
                                            && !given.store) || (asked.key && !given.key)
                                        &&& at.base == (ErrorModel {
                                            major_status: StatusCode::CONSTRAINT_NOT_SATISFIED,
                                            message: Some(
                                                "expected type with abilities "@ + asked.text() + " got type actual "@
                                                    + type_text(inst.1@[at.k]) + " with incompatible abilities "@
                                                    + given.text(),
                                            ),
                                            indices: Seq::empty(),
                                        })
                                    },
                                }
                            }
                        })
                        &&& forall|q: int|
                            0 <= q < at.n && m.version >= 6 ==> goes_through(
                                outer_instantiation_plan(m, #[trigger] preorder(ty)[q], context),
                                oracle,
                            )
                    }
                },
                FieldFault::Phantom => {
                    &&& forall|n: int|
                        0 <= n < preorder(ty).len() ==> !(#[trigger] preorder(ty)[n] is Reference)
                            && !(preorder(ty)[n] is MutableReference)
                    &&& {
                        ||| ty matches SignatureToken::TypeParameter(idx) && (idx
                            >= type_parameters.len() || type_parameters[idx as int].is_phantom)
                        ||| 0 <= at.n < preorder(ty).len() && match preorder(ty)[at.n] {
                            SignatureToken::Vector(
                                inner,
                            ) => *inner matches SignatureToken::TypeParameter(idx) && (idx
                                >= type_parameters.len() || type_parameters[idx as int].is_phantom),
                            SignatureToken::DatatypeInstantiation(inst) => {
                                ||| inst.0.0 >= m.datatype_handles@.len()
                                ||| inst.1@.len() > m.datatype_handles@[
                                    inst.0.0 as int
                                ].type_parameters@.len()
                                ||| exists|j: int|
                                    0 <= j < inst.1@.len() && (#[trigger] inst.1@[
                                        j
                                    ] matches SignatureToken::TypeParameter(idx) && (idx
                                        >= type_parameters.len() || (
                                    type_parameters[idx as int].is_phantom
                                        && !m.datatype_handles@[inst.0.0 as int].type_parameters@[
                                        j
                                    ].is_phantom)))
                            },
                            _ => false,
                        }
                    }
                    &&& (context.len() == type_parameters.len() && forall|q: int|
                        0 <= q < context.len() ==> #[trigger] context[q]
                            == type_parameters[q].constraints) ==> goes_through(
                        type_instantiation_plan(m, ty, context),
                        oracle,
                    )
                    &&& at.base == (ErrorModel {
                        major_status: StatusCode::INVALID_PHANTOM_TYPE_PARAM_POSITION,
                        message: Some(
                            "phantom type parameter cannot be used in non-phantom position"@,
                        ),
                        indices: Seq::empty(),
                    })
                },
            }
            &&& err == (ErrorModel {
                major_status: at.base.major_status,
                message: at.base.message,
                indices: at.base.indices.push(
                    (IndexKind::FieldDefinition, (at.f % 0x1_0000) as TableIndex),
                ).push((IndexKind::StructDefinition, (at.i % 0x1_0000) as TableIndex)),
            })
        }),
{
    let replies = lemma_oracle_replies(m, before, after, Err(err), oracle);
    let (pass, i, a, b) = lemma_refused_where(m, replies, err);
    assert(pass == 2);
    let rest = replies.skip(a).skip(b);
    lemma_consistent_parts(replies, a, oracle);
    lemma_consistent_parts(replies.skip(a), b, oracle);
    let def = m.struct_defs@[i];
    if def.field_information is Native {
        assert(struct_plan(m, i) =~= Seq::<Step>::empty());
    }
    let declared = def.field_information->Declared_0;
    let fields = declared@;
    if !has_datatype(m, def.struct_handle) {
        assert(struct_plan(m, i)[0] is Dangling);
    }
    let handle = datatype_at(m, def.struct_handle);
    let parts = struct_field_parts(m, handle, fields, i);
    let (f, k) = lemma_performs_joined_refused(fields.len(), parts, rest, err);
    let tag: int = 0;
    let last = rest.skip(k);
    lemma_consistent_parts(rest, k, oracle);
    lemma_performs_ruling(joined(f as nat, parts), rest.take(k), Ok(()), oracle);
    lemma_ruling_joined(f as nat, parts, oracle);
    assert forall|q: int| 0 <= q < f implies goes_through(
        field_plan(m, (#[trigger] fields[q]).signature.0, handle),
        oracle,
    ) by {
        assert(goes_through(parts(q), oracle));
        lemma_ruling_within(
            field_plan(m, fields[q].signature.0, handle),
            struct_field_notes(q, i),
            oracle,
        );
    }
    let ty = fields[f].signature.0;
    let plan = field_plan(m, ty, handle);
    let inner = lemma_performs_without(plan, struct_field_notes(f, i), last, Err(err));
    let base = inner->Err_0;
    lemma_annotated_two(
        base,
        Note::Place(IndexKind::FieldDefinition, table_index(f)),
        Note::Place(IndexKind::StructDefinition, table_index(i)),
    );
    let (fault, n, arg) = lemma_field_fault(m, ty, handle, last, base, oracle);
    law_references_occur_inside_a_type(ty);
    match fault {
        FieldFault::Reference => {
            (Fault { i, f, tag, j: 0, n, k: arg, base }, fault, declared)
        },
        FieldFault::TypeArguments => {
            let inst = preorder(ty)[n]->DatatypeInstantiation_0;
            if context.len() == handle.type_parameters@.len() && (forall|q: int|
                0 <= q < context.len() ==> #[trigger] context[q]
                    == handle.type_parameters@[q].constraints) {
                assert(context =~= handle.constraints());
                lemma_fault_told(
                    inst.1@,
                    datatype_at(m, inst.0).type_parameters@,
                    datatype_at(m, inst.0).constraints(),
                    context,
                    oracle,
                    arg,
                    base,
                );
            }
            (Fault { i, f, tag, j: 0, n, k: arg, base }, fault, declared)
        },
        FieldFault::Phantom => {
            let at = lemma_phantom_disregarded(m, ty, handle.type_parameters@);
            if context.len() == handle.type_parameters@.len() && (forall|q: int|
                0 <= q < context.len() ==> #[trigger] context[q]
                    == handle.type_parameters@[q].constraints) {
                assert(context =~= handle.constraints());
            }
            let n = match at {
                None => 0,
                Some(n) => n,
            };
            (Fault { i, f, tag, j: 0, n, k: arg, base }, fault, declared)
        },
    }
}

/// An error whose last place is an enum is about the first of its fields that is not in order. If a
/// reference occurs inside the type of that field, it says so; else, if a generic type inside it
/// has type arguments that do not fit, it is the error of that fault; else a phantom type
/// parameter makes up the type, stands directly in a vector, or stands where a parameter is
/// declared that is not phantom, and it says so. The places of the field are added.
pub proof fn law_an_error_at_an_enum_is_about_a_field<C: AbilityCache<M>, M>(
    m: CompiledModule,
    before: (C, M),
    after: (C, M),
    err: ErrorModel,
    oracle: Oracle,
    context: Seq<AbilitySet>,
) -> (at: (Fault, FieldFault))
    requires
        checks(m, before, after, Err(err)),
        truthful::<C, M>(oracle),
        err.indices.len() > 0,
        err.indices.last().0 == IndexKind::EnumDefinition,
    ensures
        ({
            let fields = m.enum_defs@[at.0.i].variants@[at.0.tag].fields@;
            let fault = at.1;
            let at = at.0;
            let type_parameters = m.datatype_handles@[m.enum_defs@[at.i].enum_handle.0 as int].type_parameters@;
            let ty = fields[at.f].signature.0;
            &&& 0 <= at.i < m.enum_defs@.len()
            &&& 0 <= at.tag < m.enum_defs@[at.i].variants@.len()
            &&& m.enum_defs@[at.i].enum_handle.0 < m.datatype_handles@.len()
            &&& 0 <= at.f < fields.len()
            &&& forall|q: int|
                0 <= q < at.f ==> goes_through(
                    field_plan(
                        m,
                        (#[trigger] fields[q]).signature.0,
                        m.datatype_handles@[m.enum_defs@[at.i].enum_handle.0 as int],
                    ),
                    oracle,
                )
            &&& forall|tag: int, f: int|
                #![trigger m.enum_defs@[at.i].variants@[tag].fields@[f]]
                0 <= tag < at.tag && 0 <= f < m.enum_defs@[at.i].variants@[tag].fields@.len()
                    ==> goes_through(
                    field_plan(
                        m,
                        m.enum_defs@[at.i].variants@[tag].fields@[f].signature.0,
                        m.datatype_handles@[m.enum_defs@[at.i].enum_handle.0 as int],
                    ),
                    oracle,
                )
            &&& match fault {
                FieldFault::Reference => {
                    &&& exists|n: int|
                        0 <= n < preorder(ty).len() && (#[trigger] preorder(ty)[n] is Reference
                            || preorder(ty)[n] is MutableReference)
                    &&& at.base == (ErrorModel {
                        major_status: StatusCode::INVALID_SIGNATURE_TOKEN,
                        message: Some("reference not allowed"@),
                        indices: Seq::empty(),
                    })
                },
                FieldFault::TypeArguments => {
                    &&& forall|n: int|
                        0 <= n < preorder(ty).len() ==> !(#[trigger] preorder(ty)[n] is Reference)
                            && !(preorder(ty)[n] is MutableReference)
                    &&& (context.len() == type_parameters.len() && forall|q: int|
                        0 <= q < context.len() ==> #[trigger] context[q]
                            == type_parameters[q].constraints) ==> {
                        &&& 0 <= at.n < preorder(ty).len()
                        &&& m.version >= 6 || at.n == 0
                        &&& preorder(ty)[at.n] matches SignatureToken::DatatypeInstantiation(inst)
                            && inst.0.0 < m.datatype_handles@.len() && ({
                            let declared = m.datatype_handles@[inst.0.0 as int].type_parameters@;
                            if inst.1@.len() != declared.len() {
                                at.base == (ErrorModel {
                                    major_status: StatusCode::NUMBER_OF_TYPE_ARGUMENTS_MISMATCH,
                                    message: Some(
                                        "expected "@ + decimal(declared.len()) + " type argument(s), got "@
                                            + decimal(inst.1@.len()),
                                    ),
                                    indices: Seq::empty(),
                                })
                            } else {
                                &&& 0 <= at.k < inst.1@.len()
                                &&& forall|q: int|
                                    0 <= q < at.k ==> (oracle(
                                        Query { type_parameter_abilities: context, ty: #[trigger] inst.1@[q] },
                                    ) matches Ok(given) && {
                                        &&& declared[q].constraints.copy ==> given.copy
                                        &&& declared[q].constraints.drop ==> given.drop
                                        &&& declared[q].constraints.store ==> given.store
                                        &&& declared[q].constraints.key ==> given.key
                                    })
                                &&& match oracle(
                                    Query { type_parameter_abilities: context, ty: inst.1@[at.k] },
                                ) {
                                    Err(given) => at.base == given,
                                    Ok(given) => {
                                        let asked = declared[at.k].constraints;
                                        &&& (asked.copy && !given.copy) || (asked.drop && !given.drop) || (asked.store
                                            && !given.store) || (asked.key && !given.key)
                                        &&& at.base == (ErrorModel {
                                            major_status: StatusCode::CONSTRAINT_NOT_SATISFIED,
                                            message: Some(
                                                "expected type with abilities "@ + asked.text() + " got type actual "@
                                                    + type_text(inst.1@[at.k]) + " with incompatible abilities "@
                                                    + given.text(),
                                            ),
                                            indices: Seq::empty(),
                                        })
                                    },
                                }
                            }
                        })
                        &&& forall|q: int|
                            0 <= q < at.n && m.version >= 6 ==> goes_through(
                                outer_instantiation_plan(m, #[trigger] preorder(ty)[q], context),
                                oracle,
                            )
                    }
                },
                FieldFault::Phantom => {
                    &&& forall|n: int|
                        0 <= n < preorder(ty).len() ==> !(#[trigger] preorder(ty)[n] is Reference)
                            && !(preorder(ty)[n] is MutableReference)
                    &&& {
                        ||| ty matches SignatureToken::TypeParameter(idx) && (idx
                            >= type_parameters.len() || type_parameters[idx as int].is_phantom)
                        ||| 0 <= at.n < preorder(ty).len() && match preorder(ty)[at.n] {
                            SignatureToken::Vector(
                                inner,
                            ) => *inner matches SignatureToken::TypeParameter(idx) && (idx
                                >= type_parameters.len() || type_parameters[idx as int].is_phantom),
                            SignatureToken::DatatypeInstantiation(inst) => {
                                ||| inst.0.0 >= m.datatype_handles@.len()
                                ||| inst.1@.len() > m.datatype_handles@[
                                    inst.0.0 as int
                                ].type_parameters@.len()
                                ||| exists|j: int|
                                    0 <= j < inst.1@.len() && (#[trigger] inst.1@[
                                        j
                                    ] matches SignatureToken::TypeParameter(idx) && (idx
                                        >= type_parameters.len() || (
                                    type_parameters[idx as int].is_phantom
                                        && !m.datatype_handles@[inst.0.0 as int].type_parameters@[
                                        j
                                    ].is_phantom)))
                            },
                            _ => false,
                        }
                    }
                    &&& (context.len() == type_parameters.len() && forall|q: int|
                        0 <= q < context.len() ==> #[trigger] context[q]
                            == type_parameters[q].constraints) ==> goes_through(
                        type_instantiation_plan(m, ty, context),
                        oracle,
                    )
                    &&& at.base == (ErrorModel {
                        major_status: StatusCode::INVALID_PHANTOM_TYPE_PARAM_POSITION,
                        message: Some(
                            "phantom type parameter cannot be used in non-phantom position"@,
                        ),
                        indices: Seq::empty(),
                    })
                },
            }
            &&& err == (ErrorModel {
                major_status: at.base.major_status,
                message: at.base.message,
                indices: at.base.indices.push(
                    (IndexKind::FieldDefinition, (at.f % 0x1_0000) as TableIndex),
                ).push((IndexKind::VariantTag, (at.tag % 0x1_0000) as TableIndex)).push(
                    (IndexKind::EnumDefinition, (at.i % 0x1_0000) as TableIndex),
                ),
            })
        }),
{
    let replies = lemma_oracle_replies(m, before, after, Err(err), oracle);
    let (pass, i, a, b) = lemma_refused_where(m, replies, err);
    assert(pass == 3);
    let rest = replies.skip(a).skip(b);
    lemma_consistent_parts(replies, a, oracle);
    lemma_consistent_parts(replies.skip(a), b, oracle);
    let def = m.enum_defs@[i];
    if !has_datatype(m, def.enum_handle) {
        assert(enum_plan(m, i)[0] is Dangling);
    }
    let handle = datatype_at(m, def.enum_handle);
    let variants = variant_parts(m, handle, def.variants@, i);
    let (tag, c) = lemma_performs_joined_refused(def.variants@.len(), variants, rest, err);
    let fields = def.variants@[tag].fields@;
    let parts = variant_field_parts(m, handle, fields, tag, i);
    let within_tag = rest.skip(c);
    lemma_consistent_parts(rest, c, oracle);
    lemma_performs_ruling(joined(tag as nat, variants), rest.take(c), Ok(()), oracle);
    lemma_ruling_joined(tag as nat, variants, oracle);
    assert forall|other: int, f: int|
        #![trigger m.enum_defs@[i].variants@[other].fields@[f]]
        0 <= other < tag && 0 <= f < m.enum_defs@[i].variants@[other].fields@.len() implies
        goes_through(
        field_plan(m, m.enum_defs@[i].variants@[other].fields@[f].signature.0, handle),
        oracle,
    ) by {
        assert(goes_through(variants(other), oracle));
        let earlier = def.variants@[other].fields@;
        let earlier_parts = variant_field_parts(m, handle, earlier, other, i);
        lemma_ruling_joined(earlier.len(), earlier_parts, oracle);
        assert(goes_through(earlier_parts(f), oracle));
        lemma_ruling_within(
            field_plan(m, earlier[f].signature.0, handle),
            variant_field_notes(f, other, i),
            oracle,
        );
    }
    let (f, k) = lemma_performs_joined_refused(fields.len(), parts, within_tag, err);
    let last = within_tag.skip(k);
    lemma_consistent_parts(within_tag, k, oracle);
    lemma_performs_ruling(joined(f as nat, parts), within_tag.take(k), Ok(()), oracle);
    lemma_ruling_joined(f as nat, parts, oracle);
    assert forall|q: int| 0 <= q < f implies goes_through(
        field_plan(m, (#[trigger] fields[q]).signature.0, handle),
        oracle,
    ) by {
        assert(goes_through(parts(q), oracle));
        lemma_ruling_within(
            field_plan(m, fields[q].signature.0, handle),
            variant_field_notes(q, tag, i),
            oracle,
        );
    }
    let ty = fields[f].signature.0;
    let plan = field_plan(m, ty, handle);
    let inner = lemma_performs_without(plan, variant_field_notes(f, tag, i), last, Err(err));
    let base = inner->Err_0;
    lemma_annotated_three(
        base,
        Note::Place(IndexKind::FieldDefinition, table_index(f)),
        Note::Place(IndexKind::VariantTag, table_index(tag)),
        Note::Place(IndexKind::EnumDefinition, table_index(i)),
    );
    let (fault, n, arg) = lemma_field_fault(m, ty, handle, last, base, oracle);
    law_references_occur_inside_a_type(ty);
    match fault {
        FieldFault::Reference => {
            (Fault { i, f, tag, j: 0, n, k: arg, base }, fault)
        },
        FieldFault::TypeArguments => {
            let inst = preorder(ty)[n]->DatatypeInstantiation_0;
            if context.len() == handle.type_parameters@.len() && (forall|q: int|
                0 <= q < context.len() ==> #[trigger] context[q]
                    == handle.type_parameters@[q].constraints) {
                assert(context =~= handle.constraints());
                lemma_fault_told(
                    inst.1@,
                    datatype_at(m, inst.0).type_parameters@,
                    datatype_at(m, inst.0).constraints(),
                    context,
                    oracle,
                    arg,
                    base,
                );
            }
            (Fault { i, f, tag, j: 0, n, k: arg, base }, fault)
        },
        FieldFault::Phantom => {
            let at = lemma_phantom_disregarded(m, ty, handle.type_parameters@);
            if context.len() == handle.type_parameters@.len() && (forall|q: int|
                0 <= q < context.len() ==> #[trigger] context[q]
                    == handle.type_parameters@[q].constraints) {
                assert(context =~= handle.constraints());
            }
            let n = match at {
                None => 0,
                Some(n) => n,
            };
            (Fault { i, f, tag, j: 0, n, k: arg, base }, fault)
        },
    }
}

// ---- Code ----

/// What is wrong with an instruction.
pub enum InstructionFault {
    /// An instruction on vectors does not name one element type.
    VectorArity,
    /// A reference occurs inside the element type of a vector.
    VectorReference,
    /// A reference occurs inside a type argument of a generic.
    Reference,
    /// A generic is given the wrong number of type arguments.
    Arity,
    /// A type argument has no known abilities, or lacks one that is asked of it.
    Ability,
}

/// Where in a function a fault is: at the instruction at `offset`, which gives `type_arguments` to
/// a generic that asks for `asked`; and what is said of it before offset and places are added.
#[verifier::ext_equal]
pub struct CodeFault {
    pub i: int,
    pub code: CodeUnit,
    pub offset: int,
    pub kind: InstructionFault,
    pub type_arguments: Seq<SignatureToken>,
    pub asked: Seq<AbilitySet>,
    pub k: int,
    pub base: ErrorModel,
}

/// Where a function definition was refused: in its local variables, or at an instruction.
proof fn lemma_code_fault(
    m: CompiledModule,
    replies: Seq<Reply>,
    err: ErrorModel,
    oracle: Oracle,
) -> (found: (int, CodeUnit, Option<int>, Seq<Reply>, ErrorModel))
    requires
        performs(module_plan(m), replies, Err(err)),
        consistent(replies, oracle),
        err.indices.len() > 0,
        err.indices.last().0 == IndexKind::FunctionDefinition,
    ensures
        ({
            let (i, code, offset, rest, base) = found;
            let def = m.function_defs@[i];
            let context = m.function_handles@[def.function.0 as int].type_parameters@;
            &&& 0 <= i < m.function_defs@.len()
            &&& def.code == Some(code)
            &&& def.function.0 < m.function_handles@.len()
            &&& consistent(rest, oracle)
            &&& err == base.at(IndexKind::Signature, code.locals.0).at(
                IndexKind::FunctionDefinition,
                table_index(i),
            )
            &&& match offset {
                None => performs(
                    instantiation_plan(
                        m,
                        checked_with_functions(m, i as nat),
                        (code.locals, context),
                    ),
                    rest,
                    Err(base),
                ),
                Some(offset) => {
                    &&& 0 <= offset < code.code@.len()
                    &&& performs(
                        instruction_plan(m, code.code@[offset], offset, context),
                        rest,
                        Err(base),
                    )
                    &&& goes_through(
                        signature_instantiation_plan(m, (code.locals, context)),
                        oracle,
                    )
                    &&& forall|q: int|
                        0 <= q < offset ==> goes_through(
                            instruction_plan(m, #[trigger] code.code@[q], q, context),
                            oracle,
                        )
                },
            }
        }),
{
    let (pass, i, a, b) = lemma_refused_where(m, replies, err);
    assert(pass == 4);
    let rest = replies.skip(a).skip(b);
    lemma_consistent_parts(replies, a, oracle);
    lemma_consistent_parts(replies.skip(a), b, oracle);
    let def = m.function_defs@[i];
    if def.code is None {
        assert(function_parts(m)(i) =~= Seq::<Step>::empty());
    }
    let code = def.code->Some_0;
    if !has_handle(m, def) {
        assert(function_parts(m)(i)[0] is Dangling);
    }
    let context = function_type_parameters(m, def);
    let checked = checked_with_functions(m, i as nat);
    let notes = function_notes(code.locals, i);
    let inner = lemma_performs_without(code_plan_at(m, i, code), notes, rest, Err(err));
    let base = inner->Err_0;
    lemma_annotated_two(
        base,
        Note::Place(IndexKind::Signature, code.locals.0),
        Note::Place(IndexKind::FunctionDefinition, table_index(i)),
    );
    let first = instantiation_plan(m, checked, locals_instance(code, context));
    let parts = instruction_parts(m, code.code@, context);
    let k = lemma_performs_split(first, joined(code.code@.len(), parts), rest, Err(base));
    lemma_consistent_parts(rest, k, oracle);
    if performs(first, rest, Err(base)) {
        (i, code, None, rest, base)
    } else {
        let (offset, c) = lemma_performs_joined_refused(
            code.code@.len(),
            parts,
            rest.skip(k),
            base,
        );
        lemma_consistent_parts(rest.skip(k), c, oracle);
        lemma_performs_ruling(first, rest.take(k), Ok(()), oracle);
        lemma_performs_ruling(joined(4, module_passes(m)), replies.take(a), Ok(()), oracle);
        lemma_ruling_joined(4, module_passes(m), oracle);
        assert(goes_through(module_passes(m)(1), oracle));
        lemma_uncached_handles(m, m.function_handles@.len(), oracle);
        lemma_performs_ruling(
            joined(i as nat, function_parts(m)),
            replies.skip(a).take(b),
            Ok(()),
            oracle,
        );
        lemma_uncached_functions(m, i as nat, oracle);
        lemma_remembered(m, checked, locals_instance(code, context), oracle);
        lemma_performs_ruling(joined(offset as nat, parts), rest.skip(k).take(c), Ok(()), oracle);
        lemma_ruling_joined(offset as nat, parts, oracle);
        assert forall|q: int| 0 <= q < offset implies goes_through(
            instruction_plan(m, #[trigger] code.code@[q], q, context),
            oracle,
        ) by {
            assert(goes_through(parts(q), oracle));
        }
        (i, code, Some(offset), rest.skip(k).skip(c), base)
    }
}

/// An error whose last place is a function definition is either about a generic type in the types
/// of its local variables, or, when those are in order, about the first of its instructions that
/// is not. Of the former it is the error of that fault, of the latter what the instruction is at
/// fault for, with its offset behind it; but the offset is left out where an instruction on
/// vectors does not name one element type, and where a reference occurs in a type argument of a
/// generic. The places are the signature of the local variables and the position of the function.
pub proof fn law_an_error_at_a_function_definition_is_about_its_code<C: AbilityCache<M>, M>(
    m: CompiledModule,
    before: (C, M),
    after: (C, M),
    err: ErrorModel,
    oracle: Oracle,
) -> (at: Result<CodeFault, (Fault, CodeUnit)>)
    requires
        checks(m, before, after, Err(err)),
        truthful::<C, M>(oracle),
        err.indices.len() > 0,
        err.indices.last().0 == IndexKind::FunctionDefinition,
    ensures
        at matches Err(at) ==> {
            let code = at.1;
            let at = at.0;
            let def = m.function_defs@[at.i];
            let context = m.function_handles@[def.function.0 as int].type_parameters@;
            let ty = m.signatures@[code.locals.0 as int].0@[at.j];
            &&& 0 <= at.i < m.function_defs@.len()
            &&& def.code == Some(code)
            &&& def.function.0 < m.function_handles@.len()
            &&& code.locals.0 < m.signatures@.len()
            &&& 0 <= at.j < m.signatures@[code.locals.0 as int].0@.len()
            &&& forall|q: int|
                0 <= q < at.j ==> goes_through(
                    type_instantiation_plan(
                        m,
                        #[trigger] m.signatures@[code.locals.0 as int].0@[q],
                        context,
                    ),
                    oracle,
                )
            &&& 0 <= at.n < preorder(ty).len()
            &&& m.version >= 6 || at.n == 0
            &&& preorder(ty)[at.n] matches SignatureToken::DatatypeInstantiation(inst)
                && inst.0.0 < m.datatype_handles@.len() && ({
                let declared = m.datatype_handles@[inst.0.0 as int].type_parameters@;
                if inst.1@.len() != declared.len() {
                    at.base == (ErrorModel {
                        major_status: StatusCode::NUMBER_OF_TYPE_ARGUMENTS_MISMATCH,
                        message: Some(
                            "expected "@ + decimal(declared.len()) + " type argument(s), got "@
                                + decimal(inst.1@.len()),
                        ),
                        indices: Seq::empty(),
                    })
                } else {
                    &&& 0 <= at.k < inst.1@.len()
                    &&& forall|q: int|
                        0 <= q < at.k ==> (oracle(
                            Query { type_parameter_abilities: context, ty: #[trigger] inst.1@[q] },
                        ) matches Ok(given) && {
                            &&& declared[q].constraints.copy ==> given.copy
                            &&& declared[q].constraints.drop ==> given.drop
                            &&& declared[q].constraints.store ==> given.store
                            &&& declared[q].constraints.key ==> given.key
                        })
                    &&& match oracle(
                        Query { type_parameter_abilities: context, ty: inst.1@[at.k] },
                    ) {
                        Err(given) => at.base == given,
                        Ok(given) => {
                            let asked = declared[at.k].constraints;
                            &&& (asked.copy && !given.copy) || (asked.drop && !given.drop) || (asked.store
                                && !given.store) || (asked.key && !given.key)
                            &&& at.base == (ErrorModel {
                                major_status: StatusCode::CONSTRAINT_NOT_SATISFIED,
                                message: Some(
                                    "expected type with abilities "@ + asked.text() + " got type actual "@
                                        + type_text(inst.1@[at.k]) + " with incompatible abilities "@
                                        + given.text(),
                                ),
                                indices: Seq::empty(),
                            })
                        },
                    }
                }
            })
            &&& forall|q: int|
                0 <= q < at.n && m.version >= 6 ==> goes_through(
                    outer_instantiation_plan(m, #[trigger] preorder(ty)[q], context),
                    oracle,
                )
            &&& err == (ErrorModel {
                major_status: at.base.major_status,
                message: at.base.message,
                indices: at.base.indices.push((IndexKind::Signature, code.locals.0)).push(
                    (IndexKind::FunctionDefinition, (at.i % 0x1_0000) as TableIndex),
                ),
            })
        },
        at matches Ok(at) ==> {
            let code = at.code;
            let def = m.function_defs@[at.i];
            let context = m.function_handles@[def.function.0 as int].type_parameters@;
            let type_arguments = at.type_arguments;
            let asked = at.asked;
            let offset_text = "at offset "@ + decimal(at.offset as nat) + " "@;
            &&& 0 <= at.i < m.function_defs@.len()
            &&& def.code == Some(code)
            &&& def.function.0 < m.function_handles@.len()
            &&& 0 <= at.offset < code.code@.len()
            &&& goes_through(signature_instantiation_plan(m, (code.locals, context)), oracle)
            &&& forall|q: int|
                0 <= q < at.offset ==> goes_through(
                    instruction_plan(m, #[trigger] code.code@[q], q, context),
                    oracle,
                )
            &&& match code.code@[at.offset] {
                Bytecode::CallGeneric(idx) => {
                    &&& idx.0 < m.function_instantiations@.len()
                    &&& m.function_instantiations@[idx.0 as int].handle.0
                        < m.function_handles@.len()
                    &&& m.function_instantiations@[idx.0 as int].type_parameters.0
                        < m.signatures@.len()
                    &&& type_arguments == m.signatures@[
                        m.function_instantiations@[idx.0 as int].type_parameters.0 as int
                    ].0@
                    &&& asked == m.function_handles@[
                        m.function_instantiations@[idx.0 as int].handle.0 as int
                    ].type_parameters@
                },
                Bytecode::PackGeneric(idx)
                | Bytecode::UnpackGeneric(idx)
                | Bytecode::ExistsGenericDeprecated(idx)
                | Bytecode::MoveFromGenericDeprecated(idx)
                | Bytecode::MoveToGenericDeprecated(idx)
                | Bytecode::ImmBorrowGlobalGenericDeprecated(idx)
                | Bytecode::MutBorrowGlobalGenericDeprecated(idx) => {
                    let inst = m.struct_def_instantiations@[idx.0 as int];
                    let def = m.struct_defs@[inst.def.0 as int];
                    &&& idx.0 < m.struct_def_instantiations@.len()
                    &&& inst.def.0 < m.struct_defs@.len()
                    &&& def.struct_handle.0 < m.datatype_handles@.len()
                    &&& inst.type_parameters.0 < m.signatures@.len()
                    &&& type_arguments == m.signatures@[inst.type_parameters.0 as int].0@
                    &&& asked.len() == m.datatype_handles@[
                        def.struct_handle.0 as int
                    ].type_parameters@.len()
                    &&& forall|q: int|
                        0 <= q < asked.len() ==> #[trigger] asked[q] == m.datatype_handles@[
                            def.struct_handle.0 as int
                        ].type_parameters@[q].constraints
                },
                Bytecode::ImmBorrowFieldGeneric(idx) | Bytecode::MutBorrowFieldGeneric(idx) => {
                    let inst = m.field_instantiations@[idx.0 as int];
                    let owner = m.field_handles@[inst.handle.0 as int].owner;
                    let def = m.struct_defs@[owner.0 as int];
                    &&& idx.0 < m.field_instantiations@.len()
                    &&& inst.handle.0 < m.field_handles@.len()
                    &&& owner.0 < m.struct_defs@.len()
                    &&& def.struct_handle.0 < m.datatype_handles@.len()
                    &&& inst.type_parameters.0 < m.signatures@.len()
                    &&& type_arguments == m.signatures@[inst.type_parameters.0 as int].0@
                    &&& asked.len() == m.datatype_handles@[
                        def.struct_handle.0 as int
                    ].type_parameters@.len()
                    &&& forall|q: int|
                        0 <= q < asked.len() ==> #[trigger] asked[q] == m.datatype_handles@[
                            def.struct_handle.0 as int
                        ].type_parameters@[q].constraints
                },
                Bytecode::PackVariantGeneric(idx)
                | Bytecode::UnpackVariantGeneric(idx)
                | Bytecode::UnpackVariantGenericImmRef(idx)
                | Bytecode::UnpackVariantGenericMutRef(idx) => {
                    let of = m.variant_instantiation_handles@[idx.0 as int].enum_def;
                    let inst = m.enum_def_instantiations@[of.0 as int];
                    let def = m.enum_defs@[inst.def.0 as int];
                    &&& idx.0 < m.variant_instantiation_handles@.len()
                    &&& of.0 < m.enum_def_instantiations@.len()
                    &&& inst.def.0 < m.enum_defs@.len()
                    &&& def.enum_handle.0 < m.datatype_handles@.len()
                    &&& inst.type_parameters.0 < m.signatures@.len()
                    &&& type_arguments == m.signatures@[inst.type_parameters.0 as int].0@
                    &&& asked.len() == m.datatype_handles@[
                        def.enum_handle.0 as int
                    ].type_parameters@.len()
                    &&& forall|q: int|
                        0 <= q < asked.len() ==> #[trigger] asked[q] == m.datatype_handles@[
                            def.enum_handle.0 as int
                        ].type_parameters@[q].constraints
                },
                Bytecode::VecPack(idx, _)
                | Bytecode::VecLen(idx)
                | Bytecode::VecImmBorrow(idx)
                | Bytecode::VecMutBorrow(idx)
                | Bytecode::VecPushBack(idx)
                | Bytecode::VecPopBack(idx)
                | Bytecode::VecUnpack(idx, _)
                | Bytecode::VecSwap(idx) => {
                    &&& idx.0 < m.signatures@.len()
                    &&& type_arguments == m.signatures@[idx.0 as int].0@
                },
                _ => false,
            }
            &&& match at.kind {
                InstructionFault::VectorArity => {
                    &&& type_arguments.len() != 1
                    &&& at.base == (ErrorModel {
                        major_status: StatusCode::NUMBER_OF_TYPE_ARGUMENTS_MISMATCH,
                        message: Some(
                            "expected 1 type token for vector operations, got "@ + decimal(
                                type_arguments.len(),
                            ),
                        ),
                        indices: Seq::empty(),
                    })
                },
                InstructionFault::VectorReference | InstructionFault::Reference => {
                    &&& exists|q: int, n: int|
                        0 <= q < type_arguments.len() && 0 <= n < preorder(type_arguments[q]).len()
                            && (#[trigger] preorder(type_arguments[q])[n] is Reference || preorder(
                            type_arguments[q],
                        )[n] is MutableReference)
                    &&& at.kind is VectorReference ==> type_arguments.len() == 1
                    &&& at.base == (ErrorModel {
                        major_status: StatusCode::INVALID_SIGNATURE_TOKEN,
                        message: Some("reference not allowed"@),
                        indices: Seq::empty(),
                    })
                },
                InstructionFault::Arity => {
                    &&& type_arguments.len() != asked.len()
                    &&& at.base == (ErrorModel {
                        major_status: StatusCode::NUMBER_OF_TYPE_ARGUMENTS_MISMATCH,
                        message: Some(
                            "expected "@ + decimal(asked.len()) + " type argument(s), got "@
                                + decimal(type_arguments.len()),
                        ),
                        indices: Seq::empty(),
                    })
                },
                InstructionFault::Ability => {
                    &&& type_arguments.len() == asked.len()
                    &&& 0 <= at.k < type_arguments.len()
                    &&& forall|q: int|
                        0 <= q < at.k ==> (oracle(
                            Query {
                                type_parameter_abilities: context,
                                ty: #[trigger] type_arguments[q],
                            },
                        ) matches Ok(given) && {
                            &&& asked[q].copy ==> given.copy
                            &&& asked[q].drop ==> given.drop
                            &&& asked[q].store ==> given.store
                            &&& asked[q].key ==> given.key
                        })
                    &&& match oracle(
                        Query { type_parameter_abilities: context, ty: type_arguments[at.k] },
                    ) {
                        Err(given) => at.base == given,
                        Ok(given) => {
                            let wanted = asked[at.k];
                            &&& (wanted.copy && !given.copy) || (wanted.drop && !given.drop) || (
                            wanted.store && !given.store) || (wanted.key && !given.key)
                            &&& at.base == (ErrorModel {
                                major_status: StatusCode::CONSTRAINT_NOT_SATISFIED,
                                message: Some(
                                    "expected type with abilities "@ + wanted.text()
                                        + " got type actual "@ + type_text(type_arguments[at.k])
                                        + " with incompatible abilities "@ + given.text(),
                                ),
                                indices: Seq::empty(),
                            })
                        },
                    }
                },
            }
            &&& at.kind is VectorArity || at.kind is VectorReference <==> {
                ||| code.code@[at.offset] is VecPack
                ||| code.code@[at.offset] is VecLen
                ||| code.code@[at.offset] is VecImmBorrow
                ||| code.code@[at.offset] is VecMutBorrow
                ||| code.code@[at.offset] is VecPushBack
                ||| code.code@[at.offset] is VecPopBack
                ||| code.code@[at.offset] is VecUnpack
                ||| code.code@[at.offset] is VecSwap
            }
            &&& at.kind is Arity || at.kind is Ability ==> forall|q: int, n: int|
                #![trigger preorder(type_arguments[q])[n]]
                0 <= q < type_arguments.len() && 0 <= n < preorder(type_arguments[q]).len() ==> !(
                preorder(type_arguments[q])[n] is Reference) && !(preorder(type_arguments[q])[n]
                    is MutableReference)
            &&& err == (ErrorModel {
                major_status: at.base.major_status,
                message: if at.kind is VectorArity || at.kind is Reference {
                    at.base.message
                } else {
                    Some(
                        match at.base.message {
                            None => offset_text,
                            Some(text) => if text.len() == 0 {
                                offset_text
                            } else {
                                text + " "@ + offset_text
                            },
                        },
                    )
                },
                indices: at.base.indices.push((IndexKind::Signature, code.locals.0)).push(
                    (IndexKind::FunctionDefinition, (at.i % 0x1_0000) as TableIndex),
                ),
            })
        },
{
    let replies = lemma_oracle_replies(m, before, after, Err(err), oracle);
    let (i, code, offset, rest, said) = lemma_code_fault(m, replies, err, oracle);
    let def = m.function_defs@[i];
    let context = m.function_handles@[def.function.0 as int].type_parameters@;
    match offset {
        None => {
            let (j, n, arg) = lemma_signature_fault(
                m,
                checked_with_functions(m, i as nat),
                (code.locals, context),
                rest,
                said,
                oracle,
            );
            let inst = preorder(signature_at(m, code.locals)[j])[n]->DatatypeInstantiation_0;
            lemma_fault_told(
                inst.1@,
                datatype_at(m, inst.0).type_parameters@,
                datatype_at(m, inst.0).constraints(),
                context,
                oracle,
                arg,
                said,
            );
            Err((Fault { i, f: 0, tag: 0, j, n, k: arg, base: said }, code))
        },
        Some(offset) => {
            let instr = code.code@[offset];
            let plan = instruction_plan(m, instr, offset, context);
            let notes = offset_notes(offset);
            match generic_use(m, instr) {
                GenericUse::Nothing => {
                    assert(plan =~= Seq::<Step>::empty());
                    arbitrary()
                },
                GenericUse::Dangling => {
                    assert(plan[0] is Dangling);
                    arbitrary()
                },
                GenericUse::Elements(tys) => {
                    law_references_occur_inside_a_list(tys, SignatureToken::Bool);
                    if tys.len() != 1 {
                        assert(plan[0] == Step::Fail(vector_arity_error(tys.len())));
                        Ok(
                            CodeFault {
                                i,
                                code,
                                offset,
                                kind: InstructionFault::VectorArity,
                                type_arguments: tys,
                                asked: Seq::empty(),
                                k: 0,
                                base: said,
                            },
                        )
                    } else {
                        let inner = lemma_performs_without(
                            tokens_plan(tys),
                            notes,
                            rest,
                            Err(said),
                        );
                        let base = inner->Err_0;
                        lemma_annotated_one(base, Note::Remark(offset_text(offset as nat)));
                        assert(any_reference(tys));
                        Ok(
                            CodeFault {
                                i,
                                code,
                                offset,
                                kind: InstructionFault::VectorReference,
                                type_arguments: tys,
                                asked: Seq::empty(),
                                k: 0,
                                base,
                            },
                        )
                    }
                },
                GenericUse::Instance { type_arguments, constraints } => {
                    law_references_occur_inside_a_list(type_arguments, SignatureToken::Bool);
                    let instance = generic_instance_plan(type_arguments, constraints, context);
                    if any_reference(type_arguments) {
                        assert(plan[0] == Step::Fail(reference_error()));
                        Ok(
                            CodeFault {
                                i,
                                code,
                                offset,
                                kind: InstructionFault::Reference,
                                type_arguments,
                                asked: constraints,
                                k: 0,
                                base: said,
                            },
                        )
                    } else {
                        assert(plan =~= within(instance, notes));
                        let inner = lemma_performs_without(instance, notes, rest, Err(said));
                        let base = inner->Err_0;
                        lemma_annotated_one(base, Note::Remark(offset_text(offset as nat)));
                        let k = lemma_arguments_fault(
                            type_arguments,
                            constraints,
                            context,
                            rest,
                            base,
                            oracle,
                        );
                        lemma_abilities_told(
                            type_arguments,
                            constraints,
                            context,
                            oracle,
                            k,
                            base,
                        );
                        Ok(
                            CodeFault {
                                i,
                                code,
                                offset,
                                kind: if type_arguments.len() != constraints.len() {
                                    InstructionFault::Arity
                                } else {
                                    InstructionFault::Ability
                                },
                                type_arguments,
                                asked: constraints,
                                k,
                                base,
                            },
                        )
                    }
                },
            }
        },
    }
}

/// What the fault of type arguments is, ability by ability.
proof fn lemma_abilities_told(
    type_arguments: Seq<SignatureToken>,
    asked: Seq<AbilitySet>,
    context: Seq<AbilitySet>,
    oracle: Oracle,
    k: int,
    base: ErrorModel,
)
    requires
        arguments_fault(type_arguments, asked, context, oracle, k, base),
    ensures
        type_arguments.len() == asked.len() ==> {
            &&& 0 <= k < type_arguments.len()
            &&& forall|q: int|
                0 <= q < k ==> (oracle(
                    Query { type_parameter_abilities: context, ty: #[trigger] type_arguments[q] },
                ) matches Ok(given) && {
                    &&& asked[q].copy ==> given.copy
                    &&& asked[q].drop ==> given.drop
                    &&& asked[q].store ==> given.store
                    &&& asked[q].key ==> given.key
                })
            &&& match oracle(
                Query { type_parameter_abilities: context, ty: type_arguments[k] },
            ) {
                Err(given) => base == given,
                Ok(given) => {
                    let wanted = asked[k];
                    &&& (wanted.copy && !given.copy) || (wanted.drop && !given.drop) || (
                    wanted.store && !given.store) || (wanted.key && !given.key)
                    &&& base == error_saying(
                        StatusCode::CONSTRAINT_NOT_SATISFIED,
                        constraint_text(wanted, type_arguments[k], given),
                    )
                },
            }
        },
{
    let declared = asked.map_values(
        |constraints: AbilitySet| DatatypeTyParameter { constraints, is_phantom: false },
    );
    lemma_fault_told(type_arguments, declared, asked, context, oracle, k, base);
    if type_arguments.len() == asked.len() {
        assert forall|q: int| 0 <= q < k implies (oracle(
            Query { type_parameter_abilities: context, ty: #[trigger] type_arguments[q] },
        ) matches Ok(given) && {
            &&& asked[q].copy ==> given.copy
            &&& asked[q].drop ==> given.drop
            &&& asked[q].store ==> given.store
            &&& asked[q].key ==> given.key
        }) by {
            assert(declared[q].constraints == asked[q]);
        }
    }
}

} // verus!
