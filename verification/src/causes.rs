//! Why modules are refused.

use vstd::prelude::*;

use crate::abilities::AbilitySet;
use crate::checked::Instance;
use crate::errors::{ErrorModel, StatusCode};
use crate::file_format::{
    preorder, Bytecode, CompiledModule, DatatypeHandle, DatatypeTyParameter, FieldDefinition,
    SignatureToken, StructFieldInformation,
};
use crate::module_plan::{
    checked_with_functions, checked_with_handles, code_plan, code_units_plan, datatype_at,
    enum_fields_plan, enum_parts, field_plan, function_notes, function_parts, function_plan,
    function_signatures_plan, function_type_parameters, generic_instance_plan, generic_use,
    handle_notes, handle_parts, handle_plan, instantiation_plan, instruction_parts,
    instruction_plan, locals_instance, module_plan, offset_notes, outer_instantiation_parts,
    parameters_instance, phantom_arguments_plan, phantom_plan, return_instance, signature_at,
    signature_pool_plan, struct_field_notes, struct_field_parts, struct_fields_plan, struct_parts,
    token_plan, tokens_plan, type_instantiation_parts, type_instantiation_plan, variant_field_notes,
    variant_field_parts, variant_parts, GenericUse,
};
use crate::plan::{annotated, joined, within, Note, Plan, Step};
use crate::ruling::{all_steps, lemma_all_steps_joined, lemma_all_steps_then};

verus! {

/// Whether the status is one that the checker gives by itself.
pub open spec fn own_status(status: StatusCode) -> bool {
    ||| status == StatusCode::INVALID_SIGNATURE_TOKEN
    ||| status == StatusCode::CONSTRAINT_NOT_SATISFIED
    ||| status == StatusCode::NUMBER_OF_TYPE_ARGUMENTS_MISMATCH
    ||| status == StatusCode::INVALID_PHANTOM_TYPE_PARAM_POSITION
}

/// Whether the step refuses, if it does so unasked, with a status of the checker's own.
pub open spec fn refusing_by_itself() -> spec_fn(Step) -> bool {
    |step: Step| step matches Step::Fail(err) ==> own_status(err.major_status)
}

/// Notes do not change the status of an error.
pub proof fn lemma_annotated_status(err: ErrorModel, notes: Seq<Note>)
    ensures
        annotated(err, notes).major_status == err.major_status,
    decreases notes.len(),
{
    if notes.len() > 0 {
        lemma_annotated_status(err, notes.drop_last());
    }
}

proof fn lemma_own_within(plan: Plan, notes: Seq<Note>)
    requires
        all_steps(plan, refusing_by_itself()),
    ensures
        all_steps(within(plan, notes), refusing_by_itself()),
{
    assert forall|i: int| 0 <= i < plan.len() implies refusing_by_itself()(
        #[trigger] within(plan, notes)[i],
    ) by {
        assert(refusing_by_itself()(plan[i]));
        if let Step::Fail(err) = plan[i] {
            lemma_annotated_status(err, notes);
        }
    }
}

proof fn lemma_own_type_instantiation(
    m: CompiledModule,
    ty: SignatureToken,
    type_parameters: Seq<AbilitySet>,
)
    ensures
        all_steps(type_instantiation_plan(m, ty, type_parameters), refusing_by_itself()),
{
    let nodes = preorder(ty);
    lemma_all_steps_joined(
        nodes.len(),
        outer_instantiation_parts(m, nodes, type_parameters),
        refusing_by_itself(),
    );
}

proof fn lemma_own_instantiation(m: CompiledModule, checked: Set<Instance>, instance: Instance)
    ensures
        all_steps(instantiation_plan(m, checked, instance), refusing_by_itself()),
{
    let tys = signature_at(m, instance.0);
    let parts = type_instantiation_parts(m, tys, instance.1);
    lemma_all_steps_joined(tys.len(), parts, refusing_by_itself());
    assert forall|i: int| 0 <= i < tys.len() implies all_steps(
        #[trigger] parts(i),
        refusing_by_itself(),
    ) by {
        lemma_own_type_instantiation(m, tys[i], instance.1);
    }
}

proof fn lemma_own_phantom(
    m: CompiledModule,
    ty: SignatureToken,
    phantom_position: bool,
    type_parameters: Seq<DatatypeTyParameter>,
)
    ensures
        all_steps(
            phantom_plan(m, ty, phantom_position, type_parameters),
            refusing_by_itself(),
        ),
    decreases ty, 0nat,
{
    match ty {
        SignatureToken::Vector(inner) => {
            lemma_own_phantom(m, *inner, false, type_parameters);
        },
        SignatureToken::DatatypeInstantiation(inst) => {
            lemma_own_phantom_arguments(
                m,
                inst.1@,
                inst.1@.len(),
                datatype_at(m, inst.0).type_parameters@,
                type_parameters,
            );
        },
        _ => {},
    }
}

proof fn lemma_own_phantom_arguments(
    m: CompiledModule,
    type_arguments: Seq<SignatureToken>,
    n: nat,
    declared: Seq<DatatypeTyParameter>,
    type_parameters: Seq<DatatypeTyParameter>,
)
    ensures
        all_steps(
            phantom_arguments_plan(m, type_arguments, n, declared, type_parameters),
            refusing_by_itself(),
        ),
    decreases type_arguments, n,
{
    if 0 < n <= type_arguments.len() {
        let k = (n - 1) as nat;
        lemma_own_phantom_arguments(m, type_arguments, k, declared, type_parameters);
        lemma_own_phantom(
            m,
            type_arguments[n - 1],
            declared[n - 1].is_phantom,
            type_parameters,
        );
        let last = if n <= declared.len() {
            phantom_plan(m, type_arguments[n - 1], declared[n - 1].is_phantom, type_parameters)
        } else {
            seq![Step::Dangling]
        };
        lemma_all_steps_then(
            phantom_arguments_plan(m, type_arguments, k, declared, type_parameters),
            last,
            refusing_by_itself(),
        );
    }
}

proof fn lemma_own_fields(
    m: CompiledModule,
    fields: Seq<FieldDefinition>,
    handle: DatatypeHandle,
    notes: spec_fn(int) -> Seq<Note>,
    parts: spec_fn(int) -> Plan,
)
    requires
        forall|i: int|
            0 <= i < fields.len() ==> #[trigger] parts(i) == within(
                field_plan(m, fields[i].signature.0, handle),
                notes(i),
            ),
    ensures
        all_steps(joined(fields.len(), parts), refusing_by_itself()),
{
    lemma_all_steps_joined(fields.len(), parts, refusing_by_itself());
    assert forall|i: int| 0 <= i < fields.len() implies all_steps(
        #[trigger] parts(i),
        refusing_by_itself(),
    ) by {
        let ty = fields[i].signature.0;
        let first = token_plan(ty);
        let second = type_instantiation_plan(m, ty, handle.constraints());
        let third = phantom_plan(m, ty, false, handle.type_parameters@);
        lemma_own_type_instantiation(m, ty, handle.constraints());
        lemma_own_phantom(m, ty, false, handle.type_parameters@);
        lemma_all_steps_then(first, second, refusing_by_itself());
        lemma_all_steps_then(first + second, third, refusing_by_itself());
        lemma_own_within(field_plan(m, ty, handle), notes(i));
    }
}

proof fn lemma_own_instruction(
    m: CompiledModule,
    instr: Bytecode,
    offset: int,
    type_parameters: Seq<AbilitySet>,
)
    ensures
        all_steps(instruction_plan(m, instr, offset, type_parameters), refusing_by_itself()),
{
    let notes = offset_notes(offset);
    match generic_use(m, instr) {
        GenericUse::Elements(tys) => {
            lemma_own_within(tokens_plan(tys), notes);
        },
        GenericUse::Instance { type_arguments, constraints } => {
            let plan = generic_instance_plan(type_arguments, constraints, type_parameters);
            lemma_own_within(plan, notes);
            lemma_all_steps_then(
                tokens_plan(type_arguments),
                within(plan, notes),
                refusing_by_itself(),
            );
        },
        _ => {},
    }
}

proof fn lemma_own_function(m: CompiledModule, checked: Set<Instance>, i: int)
    ensures
        all_steps(function_plan(m, checked, i), refusing_by_itself()),
{
    let def = m.function_defs@[i];
    match def.code {
        None => {},
        Some(code) => {
            let type_parameters = function_type_parameters(m, def);
            let parts = instruction_parts(m, code.code@, type_parameters);
            lemma_own_instantiation(m, checked, locals_instance(code, type_parameters));
            lemma_all_steps_joined(code.code@.len(), parts, refusing_by_itself());
            assert forall|offset: int| 0 <= offset < code.code@.len() implies all_steps(
                #[trigger] parts(offset),
                refusing_by_itself(),
            ) by {
                lemma_own_instruction(m, code.code@[offset], offset, type_parameters);
            }
            lemma_all_steps_then(
                instantiation_plan(m, checked, locals_instance(code, type_parameters)),
                joined(code.code@.len(), parts),
                refusing_by_itself(),
            );
            lemma_own_within(
                code_plan(m, checked, code, type_parameters),
                function_notes(code.locals, i),
            );
        },
    }
}

/// Every step that refuses unasked does so with a status of the checker's own.
pub proof fn lemma_own_module(m: CompiledModule)
    ensures
        all_steps(module_plan(m), refusing_by_itself()),
{
    let p = refusing_by_itself();
    let a = signature_pool_plan(m);
    let b = function_signatures_plan(m);
    let c = struct_fields_plan(m);
    let d = enum_fields_plan(m);
    let e = code_units_plan(m);
    lemma_all_steps_joined(m.function_handles@.len(), handle_parts(m), p);
    assert forall|i: int| 0 <= i < m.function_handles@.len() implies all_steps(
        #[trigger] handle_parts(m)(i),
        p,
    ) by {
        let handle = m.function_handles@[i];
        let checked = checked_with_handles(m, i as nat);
        let after = checked.insert(return_instance(handle));
        lemma_own_instantiation(m, checked, return_instance(handle));
        lemma_own_instantiation(m, after, parameters_instance(handle));
        lemma_all_steps_then(
            instantiation_plan(m, checked, return_instance(handle)),
            instantiation_plan(m, after, parameters_instance(handle)),
            p,
        );
        lemma_own_within(handle_plan(m, checked, handle), handle_notes(i));
    }
    lemma_all_steps_joined(m.struct_defs@.len(), struct_parts(m), p);
    assert forall|i: int| 0 <= i < m.struct_defs@.len() implies all_steps(
        #[trigger] struct_parts(m)(i),
        p,
    ) by {
        let def = m.struct_defs@[i];
        match def.field_information {
            StructFieldInformation::Native => {},
            StructFieldInformation::Declared(fields) => {
                let handle = datatype_at(m, def.struct_handle);
                lemma_own_fields(
                    m,
                    fields@,
                    handle,
                    |f: int| struct_field_notes(f, i),
                    struct_field_parts(m, handle, fields@, i),
                );
            },
        }
    }
    lemma_all_steps_joined(m.enum_defs@.len(), enum_parts(m), p);
    assert forall|i: int| 0 <= i < m.enum_defs@.len() implies all_steps(
        #[trigger] enum_parts(m)(i),
        p,
    ) by {
        let def = m.enum_defs@[i];
        let handle = datatype_at(m, def.enum_handle);
        let parts = variant_parts(m, handle, def.variants@, i);
        lemma_all_steps_joined(def.variants@.len(), parts, p);
        assert forall|tag: int| 0 <= tag < def.variants@.len() implies all_steps(
            #[trigger] parts(tag),
            p,
        ) by {
            lemma_own_fields(
                m,
                def.variants@[tag].fields@,
                handle,
                |f: int| variant_field_notes(f, tag, i),
                variant_field_parts(m, handle, def.variants@[tag].fields@, tag, i),
            );
        }
    }
    lemma_all_steps_joined(m.function_defs@.len(), function_parts(m), p);
    assert forall|i: int| 0 <= i < m.function_defs@.len() implies all_steps(
        #[trigger] function_parts(m)(i),
        p,
    ) by {
        lemma_own_function(m, checked_with_functions(m, i as nat), i);
    }
    lemma_all_steps_then(a, b, p);
    lemma_all_steps_then(a + b, c, p);
    lemma_all_steps_then(a + b + c, d, p);
    lemma_all_steps_then(a + b + c + d, e, p);
}

} // verus!
