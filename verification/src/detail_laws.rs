//! What holds of the small things that checks are made of: text, abilities, errors, what is
//! remembered, and what is asked in which order.

use vstd::prelude::*;

use crate::abilities::{covers, AbilitySet};
use crate::bounds::{
    datatypes_in_bounds, enum_in_bounds, fields_in_bounds, function_in_bounds, lemma_module_leads,
    module_in_bounds, signature_in_bounds, struct_in_bounds, type_parameters_in_bounds,
};
use crate::checked::Instance;
use crate::errors::{
    outcome_of, result_model, ErrorModel, IndexKind, PartialVMError, StatusCode, TableIndex,
    VMError,
};
use crate::file_format::{
    has_reference, preorder, preorder_of_first, type_list_text, type_text, Bytecode, CodeUnit,
    CompiledModule, DatatypeHandle, DatatypeHandleIndex, FieldDefinition, SignatureIndex,
    SignatureToken, StructFieldInformation, TypeParameterIndex,
};
use crate::laws::law_modules_in_bounds_can_be_checked;
use crate::module_plan::{
    any_bad_signature, any_inner_reference, any_reference, checked_with_functions,
    checked_with_handles, code_plan, code_units_plan, datatype_at, enum_fields_plan, enum_parts,
    enum_plan, field_plan, function_notes, function_parts, function_signatures_plan,
    function_type_parameters, generic_instance_plan, generic_use, handle_notes, handle_parts,
    has_datatype, has_handle, inner_reference, instantiation_plan, instruction_parts,
    instruction_plan, locals_instance, module_plan, offset_notes, outer_instantiation_parts,
    outer_instantiation_plan, parameters_instance, phantom_plan, reference_error, requirement,
    return_instance, struct_field_notes, struct_field_parts, struct_fields_plan, struct_parts,
    struct_plan, table_index, token_plan, tokens_plan, type_instantiation_parts,
    type_instantiation_plan, variant_field_notes, variant_field_parts, variant_parts, GenericUse,
};
use crate::part_laws::{instruction_group, InstructionGroup};
use crate::plan::{
    annotated, goes_through_between, goes_through_with_some, grounded, joined, judged,
    lemma_joined_same, lemma_performs_joined_ok, lemma_performs_ok, lemma_performs_split,
    lemma_performs_without, performs, verdict, within, Answer, Note, Plan, Query, Reply, Step,
};
use crate::ruling::{goes_through, leading_somewhere, ruling, Oracle};
use crate::table_laws::lemma_covers;
use crate::text::decimal;
use crate::type_laws::{
    law_misplaced_references_occur_inside_a_type, lemma_misplaced_inside, lemma_phantom_steps,
    lemma_preorder_of_first,
};

verus! {

// ---- Text ----

/// A digit is written as the character that stands for it; a number with more digits is written
/// as the number without its last digit, and that digit behind it.
pub proof fn law_decimals(n: nat, d: nat)
    requires
        d < 10,
    ensures
        decimal(d).len() == 1,
        decimal(d)[0] as int == '0' as int + d,
        n > 0 ==> decimal(10 * n + d) == decimal(n) + decimal(d),
{
    reveal_strlit("0");
    reveal_strlit("1");
    reveal_strlit("2");
    reveal_strlit("3");
    reveal_strlit("4");
    reveal_strlit("5");
    reveal_strlit("6");
    reveal_strlit("7");
    reveal_strlit("8");
    reveal_strlit("9");
    assert((10 * n + d) / 10 == n && (10 * n + d) % 10 == d) by (nonlinear_arith)
        requires
            d < 10,
    ;
}

/// A set of abilities is written in square brackets, as the names of those that belong to it, each
/// with a comma and a space behind it, in the order copy, drop, store, key.
pub proof fn law_text_of_abilities(set: AbilitySet)
    ensures
        set.text() == "["@ + (if set.copy {
            "Copy, "@
        } else {
            Seq::empty()
        }) + (if set.drop {
            "Drop, "@
        } else {
            Seq::empty()
        }) + (if set.store {
            "Store, "@
        } else {
            Seq::empty()
        }) + (if set.key {
            "Key, "@
        } else {
            Seq::empty()
        }) + "]"@,
{
}

/// How types are written: a type with types inside it as its name and those in brackets, the type
/// arguments of a generic type in square brackets with a comma and a space between them.
pub proof fn law_text_of_types(
    inner: Box<SignatureToken>,
    idx: DatatypeHandleIndex,
    parameter: TypeParameterIndex,
    inst: Box<(DatatypeHandleIndex, Vec<SignatureToken>)>,
    longer: Box<(DatatypeHandleIndex, Vec<SignatureToken>)>,
    last: SignatureToken,
)
    requires
        longer.0 == inst.0,
        longer.1@ == inst.1@.push(last),
    ensures
        type_text(SignatureToken::Bool) == "Bool"@,
        type_text(SignatureToken::U8) == "U8"@,
        type_text(SignatureToken::U16) == "U16"@,
        type_text(SignatureToken::U32) == "U32"@,
        type_text(SignatureToken::U64) == "U64"@,
        type_text(SignatureToken::U128) == "U128"@,
        type_text(SignatureToken::U256) == "U256"@,
        type_text(SignatureToken::Address) == "Address"@,
        type_text(SignatureToken::Signer) == "Signer"@,
        type_text(SignatureToken::Vector(inner)) == "Vector("@ + type_text(*inner) + ")"@,
        type_text(SignatureToken::Reference(inner)) == "Reference("@ + type_text(*inner) + ")"@,
        type_text(SignatureToken::MutableReference(inner)) == "MutableReference("@ + type_text(
            *inner,
        ) + ")"@,
        type_text(SignatureToken::TypeParameter(parameter)) == "TypeParameter("@ + decimal(
            parameter as nat,
        ) + ")"@,
        type_text(SignatureToken::Datatype(idx)) == "Datatype(DatatypeHandleIndex("@ + decimal(
            idx.0 as nat,
        ) + "))"@,
        inst.1@.len() == 0 ==> type_text(SignatureToken::DatatypeInstantiation(inst))
            == "DatatypeInstantiation(DatatypeHandleIndex("@ + decimal(inst.0.0 as nat) + "), ["@
            + "])"@,
        ({
            let shorter = type_text(SignatureToken::DatatypeInstantiation(inst));
            &&& shorter.len() >= 2
            &&& shorter.skip(shorter.len() - 2) == "])"@
            &&& type_text(SignatureToken::DatatypeInstantiation(longer)) == shorter.take(
                shorter.len() - 2,
            ) + (if inst.1@.len() == 0 {
                Seq::empty()
            } else {
                ", "@
            }) + type_text(last) + "])"@
        }),
{
    reveal_strlit("])");
    reveal_with_fuel(type_list_text, 2);
    lemma_list_text_of_same(inst.1@, longer.1@, inst.1@.len());
    let start = "DatatypeInstantiation(DatatypeHandleIndex("@ + decimal(inst.0.0 as nat) + "), ["@;
    let listed = type_list_text(inst.1@, inst.1@.len());
    let shorter = type_text(SignatureToken::DatatypeInstantiation(inst));
    assert(shorter =~= start + listed + "])"@);
    assert(shorter.take(shorter.len() - 2) =~= start + listed);
    assert(shorter.skip(shorter.len() - 2) =~= "])"@);
    assert(longer.1@[inst.1@.len() as int] == last);
    let longer_list = type_list_text(longer.1@, longer.1@.len());
    assert(longer.1@.len() == inst.1@.len() + 1);
    if inst.1@.len() == 0 {
        assert(longer_list == type_text(last));
        assert(listed =~= Seq::<char>::empty());
    } else {
        assert(longer_list == type_list_text(longer.1@, inst.1@.len()) + ", "@ + type_text(last));
    }
    assert(type_text(SignatureToken::DatatypeInstantiation(longer)) =~= start + longer_list
        + "])"@);
    assert(type_text(SignatureToken::DatatypeInstantiation(longer)) =~= shorter.take(
        shorter.len() - 2,
    ) + (if inst.1@.len() == 0 {
        Seq::empty()
    } else {
        ", "@
    }) + type_text(last) + "])"@);
}

proof fn lemma_list_text_of_same(a: Seq<SignatureToken>, b: Seq<SignatureToken>, n: nat)
    requires
        n <= a.len(),
        n <= b.len(),
        forall|i: int| 0 <= i < n ==> a[i] == b[i],
    ensures
        type_list_text(a, n) == type_list_text(b, n),
    decreases n,
{
    if n > 0 {
        lemma_list_text_of_same(a, b, (n - 1) as nat);
        assert(a[n - 1] == b[n - 1]);
    }
}

// ---- Abilities ----

/// A set covers another if it has each of the four abilities that the other has.
pub proof fn law_covering_is_ability_by_ability(set: AbilitySet, subset: AbilitySet)
    ensures
        covers(set, subset) <==> (subset.copy ==> set.copy) && (subset.drop ==> set.drop) && (
        subset.store ==> set.store) && (subset.key ==> set.key),
{
    if covers(set, subset) {
        lemma_covers(set, subset);
    }
}

/// What comes of a requirement: the error of the ability cache if it gives one; nothing if every
/// ability asked for is given; otherwise an error that names what was asked for, the type, and
/// what was given.
pub proof fn law_requirements_are_judged_by_the_answer(
    asked: AbilitySet,
    ty: SignatureToken,
    given: AbilitySet,
    err: ErrorModel,
)
    ensures
        judged(asked, ty, Err(err)) == Err::<(), ErrorModel>(err),
        (asked.copy ==> given.copy) && (asked.drop ==> given.drop) && (asked.store ==> given.store)
            && (asked.key ==> given.key) ==> judged(asked, ty, Ok(given)) == Ok::<(), ErrorModel>(
            (),
        ),
        (asked.copy && !given.copy) || (asked.drop && !given.drop) || (asked.store && !given.store)
            || (asked.key && !given.key) ==> judged(asked, ty, Ok(given)) == Err::<(), ErrorModel>(
            ErrorModel {
                major_status: StatusCode::CONSTRAINT_NOT_SATISFIED,
                message: Some(
                    "expected type with abilities "@ + asked.text() + " got type actual "@
                        + type_text(ty) + " with incompatible abilities "@ + given.text(),
                ),
                indices: Seq::empty(),
            },
        ),
{
    law_covering_is_ability_by_ability(given, asked);
}

/// The constraints of a datatype are those of its type parameters, in order.
pub proof fn law_constraints_of_a_datatype(handle: DatatypeHandle, i: int)
    ensures
        handle.constraints().len() == handle.type_parameters@.len(),
        0 <= i < handle.type_parameters@.len() ==> handle.constraints()[i]
            == handle.type_parameters@[i].constraints,
{
}

// ---- Errors ----

/// What is seen of an error is its status, its message and the places it points to, and of a
/// result whether there is one and which.
pub proof fn law_errors_are_seen_as_they_are(
    err: PartialVMError,
    finished: VMError,
    text: String,
    abilities: AbilitySet,
)
    ensures
        err@.major_status == err.major_status,
        err@.indices == err.indices@,
        err.message == None::<String> ==> err@.message == None::<Seq<char>>,
        err.message == Some(text) ==> err@.message == Some(text@),
        result_model::<AbilitySet>(Ok(abilities)) == Ok::<AbilitySet, ErrorModel>(abilities),
        result_model::<AbilitySet>(Err(err)) == Err::<AbilitySet, ErrorModel>(err@),
        result_model::<()>(Ok(())) == Ok::<(), ErrorModel>(()),
        result_model::<()>(Err(err)) == Err::<(), ErrorModel>(err@),
        outcome_of(Ok(())) == Ok::<(), ErrorModel>(()),
        outcome_of(Err(finished)) == Err::<(), ErrorModel>(finished.error@),
{
}

/// What is done to an error adds to it and keeps the rest: a place goes behind the others, text
/// behind the message, with the separator between the two unless there was no text.
pub proof fn law_errors_keep_what_they_hold(
    err: ErrorModel,
    kind: IndexKind,
    index: TableIndex,
    separator: Seq<char>,
    more: Seq<char>,
)
    ensures
        err.at(kind, index) == (ErrorModel {
            major_status: err.major_status,
            message: err.message,
            indices: err.indices.push((kind, index)),
        }),
        err.saying_also(separator, more) == (ErrorModel {
            major_status: err.major_status,
            message: Some(
                match err.message {
                    None => more,
                    Some(text) => if text.len() == 0 {
                        more
                    } else {
                        text + separator + more
                    },
                },
            ),
            indices: err.indices,
        }),
{
}

/// A position is told as the remainder that an index can hold.
pub proof fn law_positions_wrap_around(i: int)
    requires
        0 <= i,
    ensures
        table_index(i) as int == i % 0x1_0000,
        i < 0x1_0000 ==> table_index(i) as int == i,
{
}

// ---- What is remembered ----

/// After `n` function handles, the pairs that are remembered are those of the return types and of
/// the parameter types of these handles with their type parameters; after `n` functions, also
/// those of the local variables of these functions with their type parameters.
pub proof fn law_what_is_remembered(m: CompiledModule, n: nat, instance: Instance)
    ensures
        checked_with_handles(m, n).contains(instance) <==> exists|i: int|
            0 <= i < n && instance.1 == (#[trigger] m.function_handles@[i]).type_parameters@ && (
            instance.0 == m.function_handles@[i].return_ || instance.0
                == m.function_handles@[i].parameters),
        checked_with_functions(m, n).contains(instance) <==> {
            ||| exists|i: int|
                0 <= i < m.function_handles@.len() && instance.1 == (
                #[trigger] m.function_handles@[i]).type_parameters@ && (instance.0
                    == m.function_handles@[i].return_ || instance.0
                    == m.function_handles@[i].parameters)
            ||| exists|i: int|
                0 <= i < n && ((#[trigger] m.function_defs@[i]).code matches Some(code)
                    && instance.0 == code.locals && instance.1 == m.function_handles@[
                    m.function_defs@[i].function.0 as int
                ].type_parameters@)
        },
{
    lemma_remembered_handles(m, n, instance);
    lemma_remembered_handles(m, m.function_handles@.len(), instance);
    lemma_remembered_functions(m, n, instance);
}

spec fn handle_names(m: CompiledModule, i: int, instance: Instance) -> bool {
    instance.1 == m.function_handles@[i].type_parameters@ && (instance.0
        == m.function_handles@[i].return_ || instance.0 == m.function_handles@[i].parameters)
}

proof fn lemma_remembered_handles(m: CompiledModule, n: nat, instance: Instance)
    ensures
        checked_with_handles(m, n).contains(instance) <==> exists|i: int|
            0 <= i < n && instance.1 == (#[trigger] m.function_handles@[i]).type_parameters@ && (
            instance.0 == m.function_handles@[i].return_ || instance.0
                == m.function_handles@[i].parameters),
    decreases n,
{
    if n > 0 {
        lemma_remembered_handles(m, (n - 1) as nat, instance);
        if handle_names(m, n - 1, instance) {
            let handle = m.function_handles@[n - 1];
            assert(instance == return_instance(handle) || instance == parameters_instance(handle));
        }
    }
}

proof fn lemma_remembered_functions(m: CompiledModule, n: nat, instance: Instance)
    ensures
        checked_with_functions(m, n).contains(instance) <==> {
            ||| checked_with_handles(m, m.function_handles@.len()).contains(instance)
            ||| exists|i: int|
                0 <= i < n && ((#[trigger] m.function_defs@[i]).code matches Some(code)
                    && instance.0 == code.locals && instance.1 == m.function_handles@[
                    m.function_defs@[i].function.0 as int
                ].type_parameters@)
        },
    decreases n,
{
    if n > 0 {
        lemma_remembered_functions(m, (n - 1) as nat, instance);
        let def = m.function_defs@[n - 1];
        if let Some(code) = def.code {
            let named = locals_instance(code, function_type_parameters(m, def));
            if instance == named {
                assert(m.function_defs@[n - 1].code == Some(code));
            }
        }
    }
}

/// A signature that is not remembered is checked type by type, in order; one that is remembered
/// is not checked at all.
pub proof fn law_signatures_are_checked_unless_remembered(
    m: CompiledModule,
    checked: Set<Instance>,
    idx: SignatureIndex,
    context: Seq<AbilitySet>,
)
    requires
        idx.0 < m.signatures@.len(),
    ensures
        instantiation_plan(m, checked, (idx, context)) == if checked.contains((idx, context)) {
            Seq::<Step>::empty()
        } else {
            joined(
                m.signatures@[idx.0 as int].0@.len(),
                |j: int| type_instantiation_plan(m, m.signatures@[idx.0 as int].0@[j], context),
            )
        },
{
    let tys = m.signatures@[idx.0 as int].0@;
    lemma_joined_same(
        tys.len(),
        type_instantiation_parts(m, tys, context),
        |j: int| type_instantiation_plan(m, m.signatures@[idx.0 as int].0@[j], context),
    );
}

// ---- What is asked ----

/// The check of type arguments that goes through asks about each of them once, from left to
/// right, in the given context, and about nothing else; and every answer tells abilities among
/// which are those that are asked for.
pub proof fn law_type_arguments_are_asked_about_in_order(
    type_arguments: Seq<SignatureToken>,
    asked: Seq<AbilitySet>,
    context: Seq<AbilitySet>,
    replies: Seq<Reply>,
)
    requires
        performs(generic_instance_plan(type_arguments, asked, context), replies, Ok(())),
    ensures
        type_arguments.len() == asked.len(),
        replies.len() == type_arguments.len(),
        forall|k: int|
            0 <= k < replies.len() ==> {
                &&& (#[trigger] replies[k]).query == (Query {
                    type_parameter_abilities: context,
                    ty: type_arguments[k],
                })
                &&& replies[k].answer matches Ok(given) && (asked[k].copy ==> given.copy) && (
                asked[k].drop ==> given.drop) && (asked[k].store ==> given.store) && (asked[k].key
                    ==> given.key)
            },
{
    let plan = generic_instance_plan(type_arguments, asked, context);
    lemma_performs_ok(plan, replies);
    if type_arguments.len() != asked.len() {
        assert(plan[0] is Fail);
    }
    assert forall|k: int| 0 <= k < replies.len() implies {
        &&& (#[trigger] replies[k]).query == (Query {
            type_parameter_abilities: context,
            ty: type_arguments[k],
        })
        &&& replies[k].answer matches Ok(given) && (asked[k].copy ==> given.copy) && (asked[k].drop
            ==> given.drop) && (asked[k].store ==> given.store) && (asked[k].key ==> given.key)
    } by {
        assert(plan[k] == requirement(asked[k], type_arguments[k], context));
        lemma_covers(replies[k].answer->Ok_0, asked[k]);
    }
}

/// From version 6 on, the check of the type arguments in a vector or a reference, mutable or not,
/// is that of the type it is around. That of a generic type is that of its own type arguments,
/// and then of what is inside each of these, from left to right. Other types have nothing to
/// check.
pub proof fn law_types_are_checked_from_the_outside_in(
    m: CompiledModule,
    inner: Box<SignatureToken>,
    inst: Box<(DatatypeHandleIndex, Vec<SignatureToken>)>,
    other: SignatureToken,
    context: Seq<AbilitySet>,
    asked: Seq<AbilitySet>,
)
    requires
        m.version >= 6,
        inst.0.0 < m.datatype_handles@.len(),
        asked.len() == m.datatype_handles@[inst.0.0 as int].type_parameters@.len(),
        forall|q: int|
            0 <= q < asked.len() ==> #[trigger] asked[q] == m.datatype_handles@[
                inst.0.0 as int
            ].type_parameters@[q].constraints,
    ensures
        type_instantiation_plan(m, SignatureToken::Vector(inner), context)
            == type_instantiation_plan(m, *inner, context),
        type_instantiation_plan(m, SignatureToken::Reference(inner), context)
            == type_instantiation_plan(m, *inner, context),
        type_instantiation_plan(m, SignatureToken::MutableReference(inner), context)
            == type_instantiation_plan(m, *inner, context),
        type_instantiation_plan(m, SignatureToken::DatatypeInstantiation(inst), context)
            == generic_instance_plan(inst.1@, asked, context) + joined(
            inst.1@.len(),
            |j: int| type_instantiation_plan(m, inst.1@[j], context),
        ),
        !(other is Vector) && !(other is Reference) && !(other is MutableReference) && !(
        other is DatatypeInstantiation) ==> type_instantiation_plan(m, other, context) == Seq::<
            Step,
        >::empty(),
{
    let one = |ty: SignatureToken| outer_instantiation_plan(m, ty, context);
    lemma_checked_list(m, SignatureToken::Vector(inner), context);
    lemma_checked_list(m, SignatureToken::Reference(inner), context);
    lemma_checked_list(m, SignatureToken::MutableReference(inner), context);
    lemma_checked_list(m, SignatureToken::DatatypeInstantiation(inst), context);
    lemma_checked_list(m, *inner, context);
    lemma_checked_list(m, other, context);
    lemma_listed_then(seq![SignatureToken::Vector(inner)], preorder(*inner), one);
    lemma_listed_then(seq![SignatureToken::Reference(inner)], preorder(*inner), one);
    lemma_listed_then(seq![SignatureToken::MutableReference(inner)], preorder(*inner), one);
    lemma_listed_one(SignatureToken::Vector(inner), one);
    lemma_listed_one(SignatureToken::Reference(inner), one);
    lemma_listed_one(SignatureToken::MutableReference(inner), one);
    lemma_listed_one(SignatureToken::DatatypeInstantiation(inst), one);
    lemma_listed_one(other, one);
    let nothing = Seq::<Step>::empty();
    let rest = type_instantiation_plan(m, *inner, context);
    assert(nothing + rest =~= rest);
    let tys = inst.1@;
    lemma_listed_then(
        seq![SignatureToken::DatatypeInstantiation(inst)],
        preorder_of_first(tys, tys.len()),
        one,
    );
    lemma_checked_arguments(m, tys, tys.len(), context);
    lemma_joined_same(
        tys.len(),
        |j: int| type_instantiation_plan(m, tys[j], context),
        |j: int| type_instantiation_plan(m, inst.1@[j], context),
    );
    assert(asked =~= datatype_at(m, inst.0).constraints());
}

/// The plans of the types of a list, one after the other.
spec fn listed_plan(tys: Seq<SignatureToken>, one: spec_fn(SignatureToken) -> Plan) -> Plan {
    joined(tys.len(), |i: int| one(tys[i]))
}

proof fn lemma_checked_list(m: CompiledModule, ty: SignatureToken, context: Seq<AbilitySet>)
    requires
        m.version >= 6,
    ensures
        type_instantiation_plan(m, ty, context) == listed_plan(
            preorder(ty),
            |ty: SignatureToken| outer_instantiation_plan(m, ty, context),
        ),
{
    let one = |ty: SignatureToken| outer_instantiation_plan(m, ty, context);
    let nodes = preorder(ty);
    lemma_joined_same(
        nodes.len(),
        outer_instantiation_parts(m, nodes, context),
        |i: int| one(nodes[i]),
    );
}

proof fn lemma_listed_one(ty: SignatureToken, one: spec_fn(SignatureToken) -> Plan)
    ensures
        listed_plan(seq![ty], one) == one(ty),
{
    let tys = seq![ty];
    let part = |i: int| one(tys[i]);
    reveal_with_fuel(joined, 2);
    assert(joined(1, part) =~= part(0));
}

proof fn lemma_listed_then(
    a: Seq<SignatureToken>,
    b: Seq<SignatureToken>,
    one: spec_fn(SignatureToken) -> Plan,
)
    ensures
        listed_plan(a + b, one) == listed_plan(a, one) + listed_plan(b, one),
    decreases b.len(),
{
    if b.len() == 0 {
        assert(a + b =~= a);
        assert(listed_plan(a, one) + listed_plan(b, one) =~= listed_plan(a, one));
    } else {
        let before = b.drop_last();
        lemma_listed_then(a, before, one);
        lemma_listed_push(a + before, b.last(), one);
        lemma_listed_push(before, b.last(), one);
        assert((a + before).push(b.last()) =~= a + b);
        assert(before.push(b.last()) =~= b);
        assert(listed_plan(a, one) + listed_plan(before, one) + one(b.last()) =~= listed_plan(
            a,
            one,
        ) + (listed_plan(before, one) + one(b.last())));
    }
}

proof fn lemma_listed_push(
    tys: Seq<SignatureToken>,
    last: SignatureToken,
    one: spec_fn(SignatureToken) -> Plan,
)
    ensures
        listed_plan(tys.push(last), one) == listed_plan(tys, one) + one(last),
{
    let longer = tys.push(last);
    lemma_joined_same(tys.len(), |i: int| one(longer[i]), |i: int| one(tys[i]));
}

proof fn lemma_checked_arguments(
    m: CompiledModule,
    tys: Seq<SignatureToken>,
    n: nat,
    context: Seq<AbilitySet>,
)
    requires
        m.version >= 6,
        n <= tys.len(),
    ensures
        listed_plan(
            preorder_of_first(tys, n),
            |ty: SignatureToken| outer_instantiation_plan(m, ty, context),
        ) == joined(n, |j: int| type_instantiation_plan(m, tys[j], context)),
    decreases n,
{
    let one = |ty: SignatureToken| outer_instantiation_plan(m, ty, context);
    if n > 0 {
        lemma_checked_arguments(m, tys, (n - 1) as nat, context);
        lemma_listed_then(preorder_of_first(tys, (n - 1) as nat), preorder(tys[n - 1]), one);
        lemma_checked_list(m, tys[n - 1], context);
    }
}

/// Before version 6, only the type arguments of the type itself are checked.
pub proof fn law_types_are_checked_outside_only_before_version_6(
    m: CompiledModule,
    inst: Box<(DatatypeHandleIndex, Vec<SignatureToken>)>,
    other: SignatureToken,
    context: Seq<AbilitySet>,
    asked: Seq<AbilitySet>,
)
    requires
        m.version < 6,
        inst.0.0 < m.datatype_handles@.len(),
        asked.len() == m.datatype_handles@[inst.0.0 as int].type_parameters@.len(),
        forall|q: int|
            0 <= q < asked.len() ==> #[trigger] asked[q] == m.datatype_handles@[
                inst.0.0 as int
            ].type_parameters@[q].constraints,
    ensures
        type_instantiation_plan(m, SignatureToken::DatatypeInstantiation(inst), context)
            == generic_instance_plan(inst.1@, asked, context),
        !(other is DatatypeInstantiation) ==> type_instantiation_plan(m, other, context) == Seq::<
            Step,
        >::empty(),
{
    assert(asked =~= datatype_at(m, inst.0).constraints());
}

/// The check of a field asks what the check of the type arguments in its type asks, and nothing
/// else: looking for references and for phantom type parameters asks nothing. What the context is
/// follows from the type parameters of the datatype.
pub proof fn law_fields_are_asked_about_by_their_types(
    m: CompiledModule,
    ty: SignatureToken,
    handle: DatatypeHandle,
    context: Seq<AbilitySet>,
    replies: Seq<Reply>,
)
    requires
        performs(field_plan(m, ty, handle), replies, Ok(())),
        context.len() == handle.type_parameters@.len(),
        forall|q: int|
            0 <= q < context.len() ==> #[trigger] context[q]
                == handle.type_parameters@[q].constraints,
    ensures
        performs(type_instantiation_plan(m, ty, context), replies, Ok(())),
{
    assert(context =~= handle.constraints());
    let a = token_plan(ty);
    let b = type_instantiation_plan(m, ty, context);
    let c = phantom_plan(m, ty, false, handle.type_parameters@);
    let plan = field_plan(m, ty, handle);
    lemma_performs_ok(plan, replies);
    if has_reference(ty) {
        assert(plan[0] == Step::Fail(reference_error()));
    }
    assert(a + b + c =~= b + c);
    let k = lemma_performs_split(b, c, replies, Ok(()));
    if c.len() > 0 {
        lemma_phantom_steps(m, ty, false, handle.type_parameters@, 0);
    }
    assert(replies.take(k) =~= replies);
}

/// Native structs and functions are asked nothing about.
pub proof fn law_native_entries_are_skipped(m: CompiledModule, i: int)
    ensures
        m.struct_defs@[i].field_information == StructFieldInformation::Native ==> struct_plan(m, i)
            == Seq::<Step>::empty(),
        m.function_defs@[i].code == None::<CodeUnit> ==> function_parts(m)(i) == Seq::<
            Step,
        >::empty(),
{
}

/// A struct that goes through is asked about field by field.
pub proof fn law_structs_are_checked_field_by_field(
    m: CompiledModule,
    i: int,
    replies: Seq<Reply>,
    fields: Vec<FieldDefinition>,
    f: int,
)
    requires
        m.struct_defs@[i].field_information == StructFieldInformation::Declared(fields),
        performs(struct_plan(m, i), replies, Ok(())),
        0 <= f < fields@.len(),
    ensures
        goes_through_with_some(
            field_plan(
                m,
                fields@[f].signature.0,
                m.datatype_handles@[m.struct_defs@[i].struct_handle.0 as int],
            ),
            replies,
        ),
{
    let idx = m.struct_defs@[i].struct_handle;
    if !has_datatype(m, idx) {
        assert(struct_plan(m, i)[0] is Dangling);
    }
    let handle = datatype_at(m, idx);
    let parts = struct_field_parts(m, handle, fields@, i);
    let (from, to) = lemma_performs_joined_ok(fields@.len(), parts, replies, f);
    let plan = field_plan(m, fields@[f].signature.0, handle);
    let inner = lemma_performs_without(
        plan,
        struct_field_notes(f, i),
        replies.subrange(from, to),
        Ok(()),
    );
    assert(goes_through_between(plan, replies, from, to));
}

/// An enum that goes through is asked about field by field of each of its variants.
pub proof fn law_enums_are_checked_field_by_field(
    m: CompiledModule,
    i: int,
    replies: Seq<Reply>,
    tag: int,
    f: int,
)
    requires
        performs(enum_plan(m, i), replies, Ok(())),
        0 <= tag < m.enum_defs@[i].variants@.len(),
        0 <= f < m.enum_defs@[i].variants@[tag].fields@.len(),
    ensures
        goes_through_with_some(
            field_plan(
                m,
                m.enum_defs@[i].variants@[tag].fields@[f].signature.0,
                m.datatype_handles@[m.enum_defs@[i].enum_handle.0 as int],
            ),
            replies,
        ),
{
    let def = m.enum_defs@[i];
    if !has_datatype(m, def.enum_handle) {
        assert(enum_plan(m, i)[0] is Dangling);
    }
    let handle = datatype_at(m, def.enum_handle);
    let variants = variant_parts(m, handle, def.variants@, i);
    let (a, b) = lemma_performs_joined_ok(def.variants@.len(), variants, replies, tag);
    let own = def.variants@[tag].fields@;
    let parts = variant_field_parts(m, handle, own, tag, i);
    let some = replies.subrange(a, b);
    let (from, to) = lemma_performs_joined_ok(own.len(), parts, some, f);
    let plan = field_plan(m, own[f].signature.0, handle);
    let inner = lemma_performs_without(
        plan,
        variant_field_notes(f, tag, i),
        some.subrange(from, to),
        Ok(()),
    );
    assert(some.subrange(from, to) =~= replies.subrange(a + from, a + to));
    assert(goes_through_between(plan, replies, a + from, a + to));
}

/// A function that goes through is asked about the types of its local variables, unless they are
/// remembered, and then instruction by instruction.
pub proof fn law_functions_are_checked_instruction_by_instruction(
    m: CompiledModule,
    i: int,
    replies: Seq<Reply>,
    code: CodeUnit,
    offset: int,
)
    requires
        m.function_defs@[i].code == Some(code),
        performs(function_parts(m)(i), replies, Ok(())),
        0 <= offset < code.code@.len(),
    ensures
        goes_through_with_some(
            instruction_plan(
                m,
                code.code@[offset],
                offset,
                m.function_handles@[m.function_defs@[i].function.0 as int].type_parameters@,
            ),
            replies,
        ),
{
    let def = m.function_defs@[i];
    if !has_handle(m, def) {
        assert(function_parts(m)(i)[0] is Dangling);
    }
    let context = function_type_parameters(m, def);
    let checked = checked_with_functions(m, i as nat);
    let plan = code_plan(m, checked, code, context);
    let inner = lemma_performs_without(plan, function_notes(code.locals, i), replies, Ok(()));
    let first = instantiation_plan(m, checked, locals_instance(code, context));
    let parts = instruction_parts(m, code.code@, context);
    let k = lemma_performs_split(first, joined(code.code@.len(), parts), replies, Ok(()));
    let rest = replies.skip(k);
    let (from, to) = lemma_performs_joined_ok(code.code@.len(), parts, rest, offset);
    assert(rest.subrange(from, to) =~= replies.subrange(k + from, k + to));
    assert(goes_through_between(parts(offset), replies, k + from, k + to));
}

/// An instruction without type arguments, and an instruction on vectors that goes through, asks
/// nothing; one that hands type arguments to a generic asks about each of them once, from left to
/// right, in the context of its function.
pub proof fn law_instructions_are_asked_about_by_their_type_arguments(
    m: CompiledModule,
    instr: Bytecode,
    offset: int,
    context: Seq<AbilitySet>,
    replies: Seq<Reply>,
)
    requires
        performs(instruction_plan(m, instr, offset, context), replies, Ok(())),
    ensures
        match instruction_group(instr) {
            InstructionGroup::Plain => replies.len() == 0,
            InstructionGroup::Vector(_) => replies.len() == 0,
            InstructionGroup::Call(idx) => {
                let tys = m.signatures@[
                    m.function_instantiations@[idx.0 as int].type_parameters.0 as int
                ].0@;
                replies.len() == tys.len() && forall|k: int|
                    0 <= k < tys.len() ==> (#[trigger] replies[k]).query == (Query {
                        type_parameter_abilities: context,
                        ty: tys[k],
                    })
            },
            InstructionGroup::Struct(idx) => {
                let tys = m.signatures@[
                    m.struct_def_instantiations@[idx.0 as int].type_parameters.0 as int
                ].0@;
                replies.len() == tys.len() && forall|k: int|
                    0 <= k < tys.len() ==> (#[trigger] replies[k]).query == (Query {
                        type_parameter_abilities: context,
                        ty: tys[k],
                    })
            },
            InstructionGroup::Field(idx) => {
                let tys = m.signatures@[
                    m.field_instantiations@[idx.0 as int].type_parameters.0 as int
                ].0@;
                replies.len() == tys.len() && forall|k: int|
                    0 <= k < tys.len() ==> (#[trigger] replies[k]).query == (Query {
                        type_parameter_abilities: context,
                        ty: tys[k],
                    })
            },
            InstructionGroup::Variant(idx) => {
                let tys = m.signatures@[
                    m.enum_def_instantiations@[
                        m.variant_instantiation_handles@[idx.0 as int].enum_def.0 as int
                    ].type_parameters.0 as int
                ].0@;
                replies.len() == tys.len() && forall|k: int|
                    0 <= k < tys.len() ==> (#[trigger] replies[k]).query == (Query {
                        type_parameter_abilities: context,
                        ty: tys[k],
                    })
            },
        },
{
    let plan = instruction_plan(m, instr, offset, context);
    lemma_performs_ok(plan, replies);
    match generic_use(m, instr) {
        GenericUse::Nothing => {},
        GenericUse::Dangling => {
            assert(plan[0] is Dangling);
        },
        GenericUse::Elements(tys) => {
            if tys.len() != 1 {
                assert(plan[0] is Fail);
            } else if any_reference(tys) {
                assert(tokens_plan(tys)[0] is Fail);
                assert(plan[0] is Fail);
            }
        },
        GenericUse::Instance { type_arguments, constraints } => {
            let instance = generic_instance_plan(type_arguments, constraints, context);
            if any_reference(type_arguments) {
                assert(plan[0] is Fail);
            }
            assert(plan =~= within(instance, offset_notes(offset)));
            let inner = lemma_performs_without(instance, offset_notes(offset), replies, Ok(()));
            law_type_arguments_are_asked_about_in_order(
                type_arguments,
                constraints,
                context,
                replies,
            );
        },
    }
}

// ---- Prepared answers ----

/// With a list of answers, the outcome is that of asking just as many of them as it takes: if a
/// plan goes that way with the first of the answers, so does the verdict; and if there is a
/// verdict, the plan goes that way.
pub proof fn law_verdicts_are_what_comes_of_the_answers(
    plan: Plan,
    answers: Seq<Answer>,
    replies: Seq<Reply>,
    res: Result<(), ErrorModel>,
) -> (found: Seq<Reply>)
    ensures
        performs(plan, replies, res) && replies.len() <= answers.len() && (forall|i: int|
            0 <= i < replies.len() ==> (#[trigger] replies[i]).answer == answers[i]) ==> verdict(
            plan,
            answers,
        ) == Some(res),
        verdict(plan, answers) matches Some(said) ==> {
            &&& performs(plan, found, said)
            &&& found.len() <= answers.len()
            &&& forall|i: int| 0 <= i < found.len() ==> (#[trigger] found[i]).answer == answers[i]
        },
    decreases plan.len(),
{
    if plan.len() == 0 {
        Seq::empty()
    } else {
        match plan[0] {
            Step::Fail(err) => Seq::empty(),
            Step::Dangling => Seq::empty(),
            Step::Require { constraint, query, notes } => {
                if answers.len() == 0 {
                    Seq::empty()
                } else {
                    let first = Reply { query, answer: answers[0] };
                    match judged(constraint, query.ty, answers[0]) {
                        Err(err) => {
                            assert(seq![first].len() == 1);
                            if performs(plan, replies, res) && replies.len() <= answers.len() && (
                            forall|i: int|
                                0 <= i < replies.len() ==> (#[trigger] replies[i]).answer
                                    == answers[i]) {
                                assert(replies[0].answer == answers[0]);
                            }
                            seq![first]
                        },
                        Ok(()) => {
                            let rest = replies.drop_first();
                            let others = answers.drop_first();
                            let found = law_verdicts_are_what_comes_of_the_answers(
                                plan.drop_first(),
                                others,
                                rest,
                                res,
                            );
                            if performs(plan, replies, res) && replies.len() <= answers.len() && (
                            forall|i: int|
                                0 <= i < replies.len() ==> (#[trigger] replies[i]).answer
                                    == answers[i]) {
                                assert(replies[0].answer == answers[0]);
                                assert forall|i: int| 0 <= i < rest.len() implies (
                                #[trigger] rest[i]).answer == others[i] by {
                                    assert(replies[i + 1].answer == answers[i + 1]);
                                }
                            }
                            let whole = seq![first] + found;
                            assert(whole.drop_first() =~= found);
                            if verdict(plan, answers) is Some {
                                assert forall|i: int| 0 <= i < whole.len() implies (
                                #[trigger] whole[i]).answer == answers[i] by {
                                    if i > 0 {
                                        assert(whole[i] == found[i - 1]);
                                        assert(answers[i] == others[i - 1]);
                                    }
                                }
                            }
                            whole
                        },
                    }
                }
            },
        }
    }
}

// ---- Which modules can be checked ----

proof fn lemma_nodes_in_bounds(m: CompiledModule, ty: SignatureToken)
    requires
        forall|n: int|
            0 <= n < preorder(ty).len() ==> (#[trigger] preorder(
                ty,
            )[n] matches SignatureToken::DatatypeInstantiation(inst) ==> inst.0.0
                < m.datatype_handles@.len() && inst.1@.len() == m.datatype_handles@[
                inst.0.0 as int
            ].type_parameters@.len()),
    ensures
        datatypes_in_bounds(m, ty),
    decreases ty,
{
    let whole = preorder(ty);
    match ty {
        SignatureToken::Vector(inner)
        | SignatureToken::Reference(inner)
        | SignatureToken::MutableReference(inner) => {
            assert forall|n: int| 0 <= n < preorder(*inner).len() implies (#[trigger] preorder(
                *inner,
            )[n] matches SignatureToken::DatatypeInstantiation(inst) ==> inst.0.0
                < m.datatype_handles@.len() && inst.1@.len() == m.datatype_handles@[
                inst.0.0 as int
            ].type_parameters@.len()) by {
                assert(whole[n + 1] == preorder(*inner)[n]);
            }
            lemma_nodes_in_bounds(m, *inner);
        },
        SignatureToken::DatatypeInstantiation(own) => {
            let tys = own.1@;
            assert(whole[0] == ty);
            assert forall|j: int| 0 <= j < tys.len() implies datatypes_in_bounds(
                m,
                #[trigger] tys[j],
            ) by {
                let at = lemma_preorder_of_first(tys, tys.len(), j);
                assert forall|n: int| 0 <= n < preorder(tys[j]).len() implies (#[trigger] preorder(
                    tys[j],
                )[n] matches SignatureToken::DatatypeInstantiation(inst) ==> inst.0.0
                    < m.datatype_handles@.len() && inst.1@.len() == m.datatype_handles@[
                    inst.0.0 as int
                ].type_parameters@.len()) by {
                    assert(whole[at + n + 1] == preorder(tys[j])[n]);
                }
                lemma_nodes_in_bounds(m, tys[j]);
            }
        },
        _ => {},
    }
}

proof fn lemma_parameters_in_bounds(ty: SignatureToken, count: nat)
    requires
        forall|n: int|
            0 <= n < preorder(ty).len() ==> (#[trigger] preorder(
                ty,
            )[n] matches SignatureToken::TypeParameter(idx) ==> idx < count),
    ensures
        type_parameters_in_bounds(ty, count),
    decreases ty,
{
    let whole = preorder(ty);
    match ty {
        SignatureToken::Vector(inner)
        | SignatureToken::Reference(inner)
        | SignatureToken::MutableReference(inner) => {
            assert forall|n: int| 0 <= n < preorder(*inner).len() implies (#[trigger] preorder(
                *inner,
            )[n] matches SignatureToken::TypeParameter(idx) ==> idx < count) by {
                assert(whole[n + 1] == preorder(*inner)[n]);
            }
            lemma_parameters_in_bounds(*inner, count);
        },
        SignatureToken::DatatypeInstantiation(own) => {
            let tys = own.1@;
            assert forall|j: int| 0 <= j < tys.len() implies type_parameters_in_bounds(
                #[trigger] tys[j],
                count,
            ) by {
                let at = lemma_preorder_of_first(tys, tys.len(), j);
                assert forall|n: int| 0 <= n < preorder(tys[j]).len() implies (#[trigger] preorder(
                    tys[j],
                )[n] matches SignatureToken::TypeParameter(idx) ==> idx < count) by {
                    assert(whole[at + n + 1] == preorder(tys[j])[n]);
                }
                lemma_parameters_in_bounds(tys[j], count);
            }
        },
        _ => {
            assert(whole[0] == ty);
        },
    }
}

/// A module can be checked if every index in it leads into its table: those of generic types in
/// signatures and fields, which also have as many type arguments as are declared; those of type
/// parameters in fields; and those in function handles, definitions and instructions.
pub proof fn law_modules_whose_indices_lead_somewhere_can_be_checked(m: CompiledModule)
    requires
        forall|i: int, j: int, n: int|
            #![trigger preorder(m.signatures@[i].0@[j])[n]]
            0 <= i < m.signatures@.len() && 0 <= j < m.signatures@[i].0@.len() && 0 <= n
                < preorder(m.signatures@[i].0@[j]).len() ==> (preorder(m.signatures@[i].0@[j])[
                n
            ] matches SignatureToken::DatatypeInstantiation(inst) ==> inst.0.0
                < m.datatype_handles@.len() && inst.1@.len() == m.datatype_handles@[
                inst.0.0 as int
            ].type_parameters@.len()),
        forall|i: int|
            0 <= i < m.function_handles@.len() ==> (#[trigger] m.function_handles@[i]).return_.0
                < m.signatures@.len() && m.function_handles@[i].parameters.0 < m.signatures@.len(),
        forall|i: int|
            0 <= i < m.struct_defs@.len() ==> (#[trigger] m.struct_defs@[i]).struct_handle.0
                < m.datatype_handles@.len(),
        forall|i: int, fields: Vec<FieldDefinition>, f: int, n: int|
            #![trigger m.struct_defs@[i], preorder(fields@[f].signature.0)[n]]
            0 <= i < m.struct_defs@.len() && m.struct_defs@[i].field_information
                == StructFieldInformation::Declared(fields) && 0 <= f < fields@.len() && 0 <= n
                < preorder(fields@[f].signature.0).len() ==> match preorder(
                fields@[f].signature.0,
            )[n] {
                SignatureToken::DatatypeInstantiation(inst) => inst.0.0 < m.datatype_handles@.len()
                    && inst.1@.len() == m.datatype_handles@[
                    inst.0.0 as int
                ].type_parameters@.len(),
                SignatureToken::TypeParameter(idx) => idx < m.datatype_handles@[
                    m.struct_defs@[i].struct_handle.0 as int
                ].type_parameters@.len(),
                _ => true,
            },
        forall|i: int|
            0 <= i < m.enum_defs@.len() ==> (#[trigger] m.enum_defs@[i]).enum_handle.0
                < m.datatype_handles@.len(),
        forall|i: int, tag: int, f: int, n: int|
            #![trigger preorder(m.enum_defs@[i].variants@[tag].fields@[f].signature.0)[n]]
            0 <= i < m.enum_defs@.len() && 0 <= tag < m.enum_defs@[i].variants@.len() && 0 <= f
                < m.enum_defs@[i].variants@[tag].fields@.len() && 0 <= n < preorder(
                m.enum_defs@[i].variants@[tag].fields@[f].signature.0,
            ).len() ==> match preorder(m.enum_defs@[i].variants@[tag].fields@[f].signature.0)[n] {
                SignatureToken::DatatypeInstantiation(inst) => inst.0.0 < m.datatype_handles@.len()
                    && inst.1@.len() == m.datatype_handles@[
                    inst.0.0 as int
                ].type_parameters@.len(),
                SignatureToken::TypeParameter(idx) => idx < m.datatype_handles@[
                    m.enum_defs@[i].enum_handle.0 as int
                ].type_parameters@.len(),
                _ => true,
            },
        forall|i: int, code: CodeUnit|
            #![trigger m.function_defs@[i], code.locals]
            0 <= i < m.function_defs@.len() && m.function_defs@[i].code == Some(code)
                ==> m.function_defs@[i].function.0 < m.function_handles@.len() && code.locals.0
                < m.signatures@.len(),
        forall|i: int, code: CodeUnit, offset: int|
            #![trigger m.function_defs@[i], code.code@[offset]]
            0 <= i < m.function_defs@.len() && m.function_defs@[i].code == Some(code) && 0 <= offset
                < code.code@.len() ==> match code.code@[offset] {
                Bytecode::CallGeneric(idx) => {
                    let inst = m.function_instantiations@[idx.0 as int];
                    &&& idx.0 < m.function_instantiations@.len()
                    &&& inst.handle.0 < m.function_handles@.len()
                    &&& inst.type_parameters.0 < m.signatures@.len()
                },
                Bytecode::PackGeneric(idx)
                | Bytecode::UnpackGeneric(idx)
                | Bytecode::ExistsGenericDeprecated(idx)
                | Bytecode::MoveFromGenericDeprecated(idx)
                | Bytecode::MoveToGenericDeprecated(idx)
                | Bytecode::ImmBorrowGlobalGenericDeprecated(idx)
                | Bytecode::MutBorrowGlobalGenericDeprecated(idx) => {
                    let inst = m.struct_def_instantiations@[idx.0 as int];
                    &&& idx.0 < m.struct_def_instantiations@.len()
                    &&& inst.def.0 < m.struct_defs@.len()
                    &&& inst.type_parameters.0 < m.signatures@.len()
                },
                Bytecode::ImmBorrowFieldGeneric(idx) | Bytecode::MutBorrowFieldGeneric(idx) => {
                    let inst = m.field_instantiations@[idx.0 as int];
                    &&& idx.0 < m.field_instantiations@.len()
                    &&& inst.handle.0 < m.field_handles@.len()
                    &&& m.field_handles@[inst.handle.0 as int].owner.0 < m.struct_defs@.len()
                    &&& inst.type_parameters.0 < m.signatures@.len()
                },
                Bytecode::PackVariantGeneric(idx)
                | Bytecode::UnpackVariantGeneric(idx)
                | Bytecode::UnpackVariantGenericImmRef(idx)
                | Bytecode::UnpackVariantGenericMutRef(idx) => {
                    let of = m.variant_instantiation_handles@[idx.0 as int].enum_def;
                    let inst = m.enum_def_instantiations@[of.0 as int];
                    &&& idx.0 < m.variant_instantiation_handles@.len()
                    &&& of.0 < m.enum_def_instantiations@.len()
                    &&& inst.def.0 < m.enum_defs@.len()
                    &&& inst.type_parameters.0 < m.signatures@.len()
                },
                Bytecode::VecPack(idx, _)
                | Bytecode::VecLen(idx)
                | Bytecode::VecImmBorrow(idx)
                | Bytecode::VecMutBorrow(idx)
                | Bytecode::VecPushBack(idx)
                | Bytecode::VecPopBack(idx)
                | Bytecode::VecUnpack(idx, _)
                | Bytecode::VecSwap(idx) => idx.0 < m.signatures@.len(),
                _ => true,
            },
    ensures
        grounded(module_plan(m)),
        forall|i: int| 0 <= i < module_plan(m).len() ==> !(#[trigger] module_plan(m)[i] is Dangling),
{
    assert forall|i: int| 0 <= i < m.signatures@.len() implies signature_in_bounds(
        m,
        #[trigger] m.signatures@[i],
    ) by {
        assert forall|j: int| 0 <= j < m.signatures@[i].0@.len() implies datatypes_in_bounds(
            m,
            #[trigger] m.signatures@[i].0@[j],
        ) by {
            lemma_nodes_in_bounds(m, m.signatures@[i].0@[j]);
        }
    }
    assert forall|i: int| 0 <= i < m.struct_defs@.len() implies struct_in_bounds(
        m,
        #[trigger] m.struct_defs@[i],
    ) by {
        let def = m.struct_defs@[i];
        if let StructFieldInformation::Declared(fields) = def.field_information {
            let handle = datatype_at(m, def.struct_handle);
            assert forall|f: int| 0 <= f < fields@.len() implies {
                let ty = (#[trigger] fields@[f]).signature.0;
                datatypes_in_bounds(m, ty) && type_parameters_in_bounds(
                    ty,
                    handle.type_parameters@.len(),
                )
            } by {
                let ty = fields@[f].signature.0;
                assert forall|n: int| 0 <= n < preorder(ty).len() implies match #[trigger] preorder(
                    ty,
                )[n] {
                    SignatureToken::DatatypeInstantiation(inst) => inst.0.0
                        < m.datatype_handles@.len() && inst.1@.len() == m.datatype_handles@[
                        inst.0.0 as int
                    ].type_parameters@.len(),
                    SignatureToken::TypeParameter(idx) => idx < handle.type_parameters@.len(),
                    _ => true,
                } by {
                    assert(m.struct_defs@[i].field_information == StructFieldInformation::Declared(
                        fields,
                    ));
                    assert(preorder(fields@[f].signature.0)[n] == preorder(ty)[n]);
                }
                lemma_nodes_in_bounds(m, ty);
                lemma_parameters_in_bounds(ty, handle.type_parameters@.len());
            }
        }
    }
    assert forall|i: int| 0 <= i < m.enum_defs@.len() implies enum_in_bounds(
        m,
        #[trigger] m.enum_defs@[i],
    ) by {
        let def = m.enum_defs@[i];
        let handle = datatype_at(m, def.enum_handle);
        assert forall|tag: int| 0 <= tag < def.variants@.len() implies fields_in_bounds(
            m,
            (#[trigger] def.variants@[tag]).fields@,
            handle,
        ) by {
            let fields = def.variants@[tag].fields@;
            assert forall|f: int| 0 <= f < fields.len() implies {
                let ty = (#[trigger] fields[f]).signature.0;
                datatypes_in_bounds(m, ty) && type_parameters_in_bounds(
                    ty,
                    handle.type_parameters@.len(),
                )
            } by {
                let ty = m.enum_defs@[i].variants@[tag].fields@[f].signature.0;
                assert forall|n: int| 0 <= n < preorder(ty).len() implies match #[trigger] preorder(
                    ty,
                )[n] {
                    SignatureToken::DatatypeInstantiation(inst) => inst.0.0
                        < m.datatype_handles@.len() && inst.1@.len() == m.datatype_handles@[
                        inst.0.0 as int
                    ].type_parameters@.len(),
                    SignatureToken::TypeParameter(idx) => idx < handle.type_parameters@.len(),
                    _ => true,
                } by {
                    assert(preorder(m.enum_defs@[i].variants@[tag].fields@[f].signature.0)[n]
                        == preorder(ty)[n]);
                }
                lemma_nodes_in_bounds(m, ty);
                lemma_parameters_in_bounds(ty, handle.type_parameters@.len());
            }
        }
    }
    assert forall|i: int| 0 <= i < m.function_defs@.len() implies function_in_bounds(
        m,
        #[trigger] m.function_defs@[i],
    ) by {
        if let Some(code) = m.function_defs@[i].code {
            assert(code.locals.0 < m.signatures@.len());
            assert forall|offset: int| 0 <= offset < code.code@.len() implies !(generic_use(
                m,
                #[trigger] code.code@[offset],
            ) is Dangling) by {
                assert(m.function_defs@[i].code == Some(code));
                lemma_instruction_leads(m, code.code@[offset]);
            }
        }
    }
    assert(module_in_bounds(m));
    law_modules_in_bounds_can_be_checked(m);
    lemma_module_leads(m);
    assert forall|i: int| 0 <= i < module_plan(m).len() implies !(
    #[trigger] module_plan(m)[i] is Dangling) by {
        assert(leading_somewhere()(module_plan(m)[i]));
    }
}

proof fn lemma_instruction_leads(m: CompiledModule, instr: Bytecode)
    requires
        forall|i: int|
            0 <= i < m.struct_defs@.len() ==> (#[trigger] m.struct_defs@[i]).struct_handle.0
                < m.datatype_handles@.len(),
        forall|i: int|
            0 <= i < m.enum_defs@.len() ==> (#[trigger] m.enum_defs@[i]).enum_handle.0
                < m.datatype_handles@.len(),
        match instr {
            Bytecode::CallGeneric(idx) => {
                let inst = m.function_instantiations@[idx.0 as int];
                &&& idx.0 < m.function_instantiations@.len()
                &&& inst.handle.0 < m.function_handles@.len()
                &&& inst.type_parameters.0 < m.signatures@.len()
            },
            Bytecode::PackGeneric(idx)
            | Bytecode::UnpackGeneric(idx)
            | Bytecode::ExistsGenericDeprecated(idx)
            | Bytecode::MoveFromGenericDeprecated(idx)
            | Bytecode::MoveToGenericDeprecated(idx)
            | Bytecode::ImmBorrowGlobalGenericDeprecated(idx)
            | Bytecode::MutBorrowGlobalGenericDeprecated(idx) => {
                let inst = m.struct_def_instantiations@[idx.0 as int];
                &&& idx.0 < m.struct_def_instantiations@.len()
                &&& inst.def.0 < m.struct_defs@.len()
                &&& inst.type_parameters.0 < m.signatures@.len()
            },
            Bytecode::ImmBorrowFieldGeneric(idx) | Bytecode::MutBorrowFieldGeneric(idx) => {
                let inst = m.field_instantiations@[idx.0 as int];
                &&& idx.0 < m.field_instantiations@.len()
                &&& inst.handle.0 < m.field_handles@.len()
                &&& m.field_handles@[inst.handle.0 as int].owner.0 < m.struct_defs@.len()
                &&& inst.type_parameters.0 < m.signatures@.len()
            },
            Bytecode::PackVariantGeneric(idx)
            | Bytecode::UnpackVariantGeneric(idx)
            | Bytecode::UnpackVariantGenericImmRef(idx)
            | Bytecode::UnpackVariantGenericMutRef(idx) => {
                let of = m.variant_instantiation_handles@[idx.0 as int].enum_def;
                let inst = m.enum_def_instantiations@[of.0 as int];
                &&& idx.0 < m.variant_instantiation_handles@.len()
                &&& of.0 < m.enum_def_instantiations@.len()
                &&& inst.def.0 < m.enum_defs@.len()
                &&& inst.type_parameters.0 < m.signatures@.len()
            },
            Bytecode::VecPack(idx, _)
            | Bytecode::VecLen(idx)
            | Bytecode::VecImmBorrow(idx)
            | Bytecode::VecMutBorrow(idx)
            | Bytecode::VecPushBack(idx)
            | Bytecode::VecPopBack(idx)
            | Bytecode::VecUnpack(idx, _)
            | Bytecode::VecSwap(idx) => idx.0 < m.signatures@.len(),
            _ => true,
        },
    ensures
        !(generic_use(m, instr) is Dangling),
{
}

// ---- The whole check ----

/// The check of a module, entry by entry: first whether a reference is misplaced in a signature;
/// then, for each function handle, its return types and its parameter types, unless remembered;
/// then each field of each struct; then each field of each variant of each enum; then, for each
/// function with code, its local variables, unless remembered, and each instruction. To an error
/// are added the places of the entry.
pub proof fn law_the_order_of_a_check(
    m: CompiledModule,
    replies: Seq<Reply>,
    fields: spec_fn(int) -> Vec<FieldDefinition>,
    code: spec_fn(int) -> CodeUnit,
)
    requires
        forall|i: int|
            0 <= i < m.struct_defs@.len() ==> (#[trigger] m.struct_defs@[i]).struct_handle.0
                < m.datatype_handles@.len() && m.struct_defs@[i].field_information
                == StructFieldInformation::Declared(fields(i)),
        forall|i: int|
            0 <= i < m.enum_defs@.len() ==> (#[trigger] m.enum_defs@[i]).enum_handle.0
                < m.datatype_handles@.len(),
        forall|i: int|
            0 <= i < m.function_defs@.len() ==> (#[trigger] m.function_defs@[i]).function.0
                < m.function_handles@.len() && m.function_defs@[i].code == Some(code(i)),
    ensures
        performs(
            joined(
                m.function_handles@.len(),
                |i: int|
                    within(
                        instantiation_plan(
                            m,
                            checked_with_handles(m, i as nat),
                            (
                                m.function_handles@[i].return_,
                                m.function_handles@[i].type_parameters@,
                            ),
                        ) + instantiation_plan(
                            m,
                            checked_with_handles(m, i as nat).insert(
                                (
                                    m.function_handles@[i].return_,
                                    m.function_handles@[i].type_parameters@,
                                ),
                            ),
                            (
                                m.function_handles@[i].parameters,
                                m.function_handles@[i].type_parameters@,
                            ),
                        ),
                        seq![
                            Note::Place(IndexKind::Signature, (i % 0x1_0000) as TableIndex),
                            Note::Place(IndexKind::FunctionHandle, (i % 0x1_0000) as TableIndex),
                        ],
                    ),
            ) + joined(
                m.struct_defs@.len(),
                |i: int|
                    joined(
                        fields(i)@.len(),
                        |f: int|
                            within(
                                field_plan(
                                    m,
                                    fields(i)@[f].signature.0,
                                    m.datatype_handles@[m.struct_defs@[i].struct_handle.0 as int],
                                ),
                                seq![
                                    Note::Place(
                                        IndexKind::FieldDefinition,
                                        (f % 0x1_0000) as TableIndex,
                                    ),
                                    Note::Place(
                                        IndexKind::StructDefinition,
                                        (i % 0x1_0000) as TableIndex,
                                    ),
                                ],
                            ),
                    ),
            ) + joined(
                m.enum_defs@.len(),
                |i: int|
                    joined(
                        m.enum_defs@[i].variants@.len(),
                        |tag: int|
                            joined(
                                m.enum_defs@[i].variants@[tag].fields@.len(),
                                |f: int|
                                    within(
                                        field_plan(
                                            m,
                                            m.enum_defs@[i].variants@[tag].fields@[
                                                f
                                            ].signature.0,
                                            m.datatype_handles@[
                                                m.enum_defs@[i].enum_handle.0 as int
                                            ],
                                        ),
                                        seq![
                                            Note::Place(
                                                IndexKind::FieldDefinition,
                                                (f % 0x1_0000) as TableIndex,
                                            ),
                                            Note::Place(
                                                IndexKind::VariantTag,
                                                (tag % 0x1_0000) as TableIndex,
                                            ),
                                            Note::Place(
                                                IndexKind::EnumDefinition,
                                                (i % 0x1_0000) as TableIndex,
                                            ),
                                        ],
                                    ),
                            ),
                    ),
            ) + joined(
                m.function_defs@.len(),
                |i: int|
                    within(
                        instantiation_plan(
                            m,
                            checked_with_functions(m, i as nat),
                            (
                                code(i).locals,
                                m.function_handles@[
                                    m.function_defs@[i].function.0 as int
                                ].type_parameters@,
                            ),
                        ) + joined(
                            code(i).code@.len(),
                            |offset: int|
                                instruction_plan(
                                    m,
                                    code(i).code@[offset],
                                    offset,
                                    m.function_handles@[
                                        m.function_defs@[i].function.0 as int
                                    ].type_parameters@,
                                ),
                        ),
                        seq![
                            Note::Place(IndexKind::Signature, code(i).locals.0),
                            Note::Place(
                                IndexKind::FunctionDefinition,
                                (i % 0x1_0000) as TableIndex,
                            ),
                        ],
                    ),
            ),
            replies,
            Ok(()),
        ) && (forall|i: int, j: int, n: int|
            #![trigger preorder(m.signatures@[i].0@[j])[n]]
            0 <= i < m.signatures@.len() && i < 0x1_0000 && 0 <= j < m.signatures@[i].0@.len() && 0
                < n < preorder(m.signatures@[i].0@[j]).len() ==> !(preorder(m.signatures@[i].0@[j])[
                n
            ] is Reference) && !(preorder(m.signatures@[i].0@[j])[n] is MutableReference))
            <==> performs(module_plan(m), replies, Ok(())),
{
    let a = |i: int|
        within(
            instantiation_plan(
                m,
                checked_with_handles(m, i as nat),
                (m.function_handles@[i].return_, m.function_handles@[i].type_parameters@),
            ) + instantiation_plan(
                m,
                checked_with_handles(m, i as nat).insert(
                    (m.function_handles@[i].return_, m.function_handles@[i].type_parameters@),
                ),
                (m.function_handles@[i].parameters, m.function_handles@[i].type_parameters@),
            ),
            seq![
                Note::Place(IndexKind::Signature, (i % 0x1_0000) as TableIndex),
                Note::Place(IndexKind::FunctionHandle, (i % 0x1_0000) as TableIndex),
            ],
        );
    let b = |i: int|
        joined(
            fields(i)@.len(),
            |f: int|
                within(
                    field_plan(
                        m,
                        fields(i)@[f].signature.0,
                        m.datatype_handles@[m.struct_defs@[i].struct_handle.0 as int],
                    ),
                    seq![
                        Note::Place(IndexKind::FieldDefinition, (f % 0x1_0000) as TableIndex),
                        Note::Place(IndexKind::StructDefinition, (i % 0x1_0000) as TableIndex),
                    ],
                ),
        );
    let c = |i: int|
        joined(
            m.enum_defs@[i].variants@.len(),
            |tag: int|
                joined(
                    m.enum_defs@[i].variants@[tag].fields@.len(),
                    |f: int|
                        within(
                            field_plan(
                                m,
                                m.enum_defs@[i].variants@[tag].fields@[f].signature.0,
                                m.datatype_handles@[m.enum_defs@[i].enum_handle.0 as int],
                            ),
                            seq![
                                Note::Place(
                                    IndexKind::FieldDefinition,
                                    (f % 0x1_0000) as TableIndex,
                                ),
                                Note::Place(
                                    IndexKind::VariantTag,
                                    (tag % 0x1_0000) as TableIndex,
                                ),
                                Note::Place(
                                    IndexKind::EnumDefinition,
                                    (i % 0x1_0000) as TableIndex,
                                ),
                            ],
                        ),
                ),
        );
    let d = |i: int|
        within(
            instantiation_plan(
                m,
                checked_with_functions(m, i as nat),
                (
                    code(i).locals,
                    m.function_handles@[m.function_defs@[i].function.0 as int].type_parameters@,
                ),
            ) + joined(
                code(i).code@.len(),
                |offset: int|
                    instruction_plan(
                        m,
                        code(i).code@[offset],
                        offset,
                        m.function_handles@[
                            m.function_defs@[i].function.0 as int
                        ].type_parameters@,
                    ),
            ),
            seq![
                Note::Place(IndexKind::Signature, code(i).locals.0),
                Note::Place(IndexKind::FunctionDefinition, (i % 0x1_0000) as TableIndex),
            ],
        );
    assert forall|i: int| 0 <= i < m.function_handles@.len() implies #[trigger] a(i)
        == handle_parts(m)(i) by {
        assert(handle_notes(i) =~= seq![
            Note::Place(IndexKind::Signature, (i % 0x1_0000) as TableIndex),
            Note::Place(IndexKind::FunctionHandle, (i % 0x1_0000) as TableIndex),
        ]);
    }
    lemma_joined_same(m.function_handles@.len(), a, handle_parts(m));
    assert forall|i: int| 0 <= i < m.struct_defs@.len() implies #[trigger] b(i) == struct_parts(m)(
        i,
    ) by {
        let def = m.struct_defs@[i];
        lemma_joined_same(
            fields(i)@.len(),
            |f: int|
                within(
                    field_plan(
                        m,
                        fields(i)@[f].signature.0,
                        m.datatype_handles@[m.struct_defs@[i].struct_handle.0 as int],
                    ),
                    seq![
                        Note::Place(IndexKind::FieldDefinition, (f % 0x1_0000) as TableIndex),
                        Note::Place(IndexKind::StructDefinition, (i % 0x1_0000) as TableIndex),
                    ],
                ),
            struct_field_parts(m, datatype_at(m, def.struct_handle), fields(i)@, i),
        );
    }
    lemma_joined_same(m.struct_defs@.len(), b, struct_parts(m));
    assert forall|i: int| 0 <= i < m.enum_defs@.len() implies #[trigger] c(i) == enum_parts(m)(
        i,
    ) by {
        let def = m.enum_defs@[i];
        let handle = datatype_at(m, def.enum_handle);
        let spelled = |tag: int|
            joined(
                m.enum_defs@[i].variants@[tag].fields@.len(),
                |f: int|
                    within(
                        field_plan(
                            m,
                            m.enum_defs@[i].variants@[tag].fields@[f].signature.0,
                            m.datatype_handles@[m.enum_defs@[i].enum_handle.0 as int],
                        ),
                        seq![
                            Note::Place(IndexKind::FieldDefinition, (f % 0x1_0000) as TableIndex),
                            Note::Place(IndexKind::VariantTag, (tag % 0x1_0000) as TableIndex),
                            Note::Place(IndexKind::EnumDefinition, (i % 0x1_0000) as TableIndex),
                        ],
                    ),
            );
        let variants = variant_parts(m, handle, def.variants@, i);
        assert forall|tag: int| 0 <= tag < def.variants@.len() implies #[trigger] spelled(tag)
            == variants(tag) by {
            lemma_joined_same(
                m.enum_defs@[i].variants@[tag].fields@.len(),
                |f: int|
                    within(
                        field_plan(
                            m,
                            m.enum_defs@[i].variants@[tag].fields@[f].signature.0,
                            m.datatype_handles@[m.enum_defs@[i].enum_handle.0 as int],
                        ),
                        seq![
                            Note::Place(IndexKind::FieldDefinition, (f % 0x1_0000) as TableIndex),
                            Note::Place(IndexKind::VariantTag, (tag % 0x1_0000) as TableIndex),
                            Note::Place(IndexKind::EnumDefinition, (i % 0x1_0000) as TableIndex),
                        ],
                    ),
                variant_field_parts(m, handle, def.variants@[tag].fields@, tag, i),
            );
        }
        lemma_joined_same(def.variants@.len(), spelled, variants);
    }
    lemma_joined_same(m.enum_defs@.len(), c, enum_parts(m));
    assert forall|i: int| 0 <= i < m.function_defs@.len() implies #[trigger] d(i) == function_parts(
        m,
    )(i) by {
        let context = m.function_handles@[
            m.function_defs@[i].function.0 as int
        ].type_parameters@;
        lemma_joined_same(
            code(i).code@.len(),
            |offset: int|
                instruction_plan(
                    m,
                    code(i).code@[offset],
                    offset,
                    m.function_handles@[m.function_defs@[i].function.0 as int].type_parameters@,
                ),
            instruction_parts(m, code(i).code@, context),
        );
    }
    lemma_joined_same(m.function_defs@.len(), d, function_parts(m));
    let rest = function_signatures_plan(m) + struct_fields_plan(m) + enum_fields_plan(m)
        + code_units_plan(m);
    if any_bad_signature(m.signatures@) {
        let i = choose|i: int|
            0 <= i < m.signatures@.len() && i < 0x1_0000 && #[trigger] any_inner_reference(
                m.signatures@[i].0@,
            );
        let j = choose|j: int|
            0 <= j < m.signatures@[i].0@.len() && #[trigger] inner_reference(
                m.signatures@[i].0@[j],
            );
        let n = lemma_misplaced_inside(m.signatures@[i].0@[j]);
        assert(preorder(m.signatures@[i].0@[j])[n] is Reference || preorder(
            m.signatures@[i].0@[j],
        )[n] is MutableReference);
        assert(module_plan(m)[0] is Fail);
    } else {
        assert(module_plan(m) =~= rest);
        assert forall|i: int, j: int, n: int|
            #![trigger preorder(m.signatures@[i].0@[j])[n]]
            0 <= i < m.signatures@.len() && i < 0x1_0000 && 0 <= j < m.signatures@[i].0@.len() && 0
                < n < preorder(m.signatures@[i].0@[j]).len() implies !(preorder(
            m.signatures@[i].0@[j],
        )[n] is Reference) && !(preorder(m.signatures@[i].0@[j])[n] is MutableReference) by {
            law_misplaced_references_occur_inside_a_type(m.signatures@[i].0@[j]);
            assert(!any_inner_reference(m.signatures@[i].0@));
        }
    }
}

/// The plan of a check is carried out step by step: an empty one ends well and asks nothing; one
/// that begins with a refusal ends in it and asks nothing; one that begins with a requirement asks
/// for it, ends if the answer is not enough, and goes on with the rest if it is.
pub proof fn law_plans_are_carried_out_step_by_step(
    rest: Plan,
    err: ErrorModel,
    constraint: AbilitySet,
    query: Query,
    notes: Seq<Note>,
    replies: Seq<Reply>,
    res: Result<(), ErrorModel>,
)
    ensures
        performs(Seq::empty(), replies, res) <==> replies.len() == 0 && res is Ok,
        performs(seq![Step::Fail(err)] + rest, replies, res) <==> replies.len() == 0 && res == Err::<
            (),
            ErrorModel,
        >(err),
        !performs(seq![Step::Dangling] + rest, replies, res),
        performs(
            seq![Step::Require { constraint, query, notes }] + rest,
            replies,
            res,
        ) <==> replies.len() > 0 && replies[0].query == query && match judged(
            constraint,
            query.ty,
            replies[0].answer,
        ) {
            Ok(_) => performs(rest, replies.drop_first(), res),
            Err(said) => replies.len() == 1 && res == Err::<(), ErrorModel>(annotated(said, notes)),
        },
{
    if let Ok(unit) = res {
        assert(unit == ());
    }
    assert((seq![Step::Require { constraint, query, notes }] + rest).drop_first() =~= rest);
}

/// With an oracle, a plan ends as carrying it out with the oracle's answers does, step by step.
pub proof fn law_rulings_are_made_step_by_step(
    rest: Plan,
    err: ErrorModel,
    constraint: AbilitySet,
    query: Query,
    notes: Seq<Note>,
    oracle: Oracle,
)
    ensures
        goes_through(Seq::empty(), oracle),
        ruling(seq![Step::Fail(err)] + rest, oracle) == Some(Err::<(), ErrorModel>(err)),
        ruling(seq![Step::Dangling] + rest, oracle) == None::<Result<(), ErrorModel>>,
        ruling(seq![Step::Require { constraint, query, notes }] + rest, oracle) == match judged(
            constraint,
            query.ty,
            oracle(query),
        ) {
            Ok(_) => ruling(rest, oracle),
            Err(said) => Some(Err::<(), ErrorModel>(annotated(said, notes))),
        },
        goes_through(rest, oracle) <==> ruling(rest, oracle) == Some(Ok::<(), ErrorModel>(())),
{
    assert((seq![Step::Require { constraint, query, notes }] + rest).drop_first() =~= rest);
}

/// Notes are added to an error one after the other: a place behind the other places, a remark
/// behind the message, with a space between the two unless there was no message.
pub proof fn law_notes_are_added_one_after_the_other(
    err: ErrorModel,
    notes: Seq<Note>,
    kind: IndexKind,
    index: TableIndex,
    text: Seq<char>,
)
    ensures
        annotated(err, Seq::empty()) == err,
        annotated(err, notes.push(Note::Place(kind, index))) == ({
            let before = annotated(err, notes);
            ErrorModel {
                major_status: before.major_status,
                message: before.message,
                indices: before.indices.push((kind, index)),
            }
        }),
        annotated(err, notes.push(Note::Remark(text))) == ({
            let before = annotated(err, notes);
            ErrorModel {
                major_status: before.major_status,
                message: Some(
                    match before.message {
                        None => text,
                        Some(said) => if said.len() == 0 {
                            text
                        } else {
                            said + " "@ + text
                        },
                    },
                ),
                indices: before.indices,
            }
        }),
{
    assert(notes.push(Note::Place(kind, index)).drop_last() =~= notes);
    assert(notes.push(Note::Remark(text)).drop_last() =~= notes);
}

} // verus!
