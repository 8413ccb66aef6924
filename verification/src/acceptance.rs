//! A module's plan goes through if and only if its signatures are well formed.

use vstd::prelude::*;

use crate::abilities::AbilitySet;
use crate::checked::Instance;
use crate::errors::ErrorModel;
use crate::file_format::{
    has_reference, preorder, Bytecode, CompiledModule, DatatypeHandle, DatatypeTyParameter,
    FieldDefinition, SignatureToken, StructFieldInformation, VERSION_6,
};
use crate::module_plan::{
    any_bad_signature, any_reference, datatype_at, enum_fields_plan, enum_parts, enum_plan,
    field_plan, function_notes, function_type_parameters, generic_instance_plan, generic_use,
    handle_notes, has_datatype, has_handle, has_signature, instruction_parts, instruction_plan,
    locals_instance, module_plan, offset_notes, outer_instantiation_parts, outer_instantiation_plan,
    parameters_instance, phantom_arguments_plan, phantom_error, phantom_plan, reference_error,
    refuse_if, requirement, return_instance, signature_at, signature_instantiation_plan,
    signature_pool_plan, struct_field_notes, struct_field_parts, struct_fields_plan, struct_parts,
    struct_plan, token_plan, tokens_plan, type_instantiation_parts, type_instantiation_plan,
    variant_field_notes, variant_field_parts, variant_parts, vector_arity_error, GenericUse,
};
use crate::plan::{joined, within, Note, Plan, Query, Step};
use crate::ruling::{
    all_steps, lemma_all_steps_joined, lemma_all_steps_then, lemma_passing_within, lemma_ruling_ok,
    passing, ruling, suits, Oracle,
};
use crate::well_formed::{
    arguments_fit, enum_fits, field_fits, fields_fit, function_fits, handle_fits, instruction_fits,
    lemma_uncached_module, module_fits, outside_fits, phantoms_respected, signature_fits,
    struct_fits, type_fits, uncached_code_plan, uncached_function_parts, uncached_handle_parts,
    uncached_module_plan,
};

verus! {

proof fn lemma_refuse_if_passes(bad: bool, err: ErrorModel, oracle: Oracle)
    ensures
        all_steps(refuse_if(bad, err), passing(oracle)) <==> !bad,
{
    if bad {
        assert(!passing(oracle)(refuse_if(bad, err)[0]));
    }
}

proof fn lemma_dangling_passes(oracle: Oracle)
    ensures
        !all_steps(seq![Step::Dangling], passing(oracle)),
{
    assert(!passing(oracle)(seq![Step::Dangling][0]));
}

/// Type arguments go through if and only if they fit.
pub proof fn lemma_generic_instance_passes(
    type_arguments: Seq<SignatureToken>,
    constraints: Seq<AbilitySet>,
    type_parameters: Seq<AbilitySet>,
    oracle: Oracle,
)
    ensures
        all_steps(
            generic_instance_plan(type_arguments, constraints, type_parameters),
            passing(oracle),
        ) <==> arguments_fit(type_arguments, constraints, type_parameters, oracle),
{
    let plan = generic_instance_plan(type_arguments, constraints, type_parameters);
    if type_arguments.len() != constraints.len() {
        assert(!passing(oracle)(plan[0]));
    } else {
        assert forall|i: int| 0 <= i < type_arguments.len() implies passing(oracle)(
            #[trigger] plan[i],
        ) == suits(
            constraints[i],
            oracle(
                Query { type_parameter_abilities: type_parameters, ty: type_arguments[i] },
            ),
        ) by {
            assert(plan[i] == requirement(constraints[i], type_arguments[i], type_parameters));
        }
        if all_steps(plan, passing(oracle)) {
            assert forall|i: int| 0 <= i < type_arguments.len() implies suits(
                constraints[i],
                oracle(
                    Query {
                        type_parameter_abilities: type_parameters,
                        ty: #[trigger] type_arguments[i],
                    },
                ),
            ) by {
                assert(passing(oracle)(plan[i]));
            }
        }
    }
}

proof fn lemma_outer_instantiation_passes(
    m: CompiledModule,
    ty: SignatureToken,
    type_parameters: Seq<AbilitySet>,
    oracle: Oracle,
)
    ensures
        all_steps(outer_instantiation_plan(m, ty, type_parameters), passing(oracle))
            <==> outside_fits(m, ty, type_parameters, oracle),
{
    lemma_dangling_passes(oracle);
    match ty {
        SignatureToken::DatatypeInstantiation(inst) => {
            lemma_generic_instance_passes(
                inst.1@,
                datatype_at(m, inst.0).constraints(),
                type_parameters,
                oracle,
            );
        },
        _ => {},
    }
}

/// A type goes through if and only if it fits.
pub proof fn lemma_type_instantiation_passes(
    m: CompiledModule,
    ty: SignatureToken,
    type_parameters: Seq<AbilitySet>,
    oracle: Oracle,
)
    ensures
        all_steps(type_instantiation_plan(m, ty, type_parameters), passing(oracle)) <==> type_fits(
            m,
            ty,
            type_parameters,
            oracle,
        ),
{
    if m.version >= VERSION_6 {
        let nodes = preorder(ty);
        let parts = outer_instantiation_parts(m, nodes, type_parameters);
        lemma_all_steps_joined(nodes.len(), parts, passing(oracle));
        assert forall|i: int| 0 <= i < nodes.len() implies all_steps(
            #[trigger] parts(i),
            passing(oracle),
        ) == outside_fits(m, nodes[i], type_parameters, oracle) by {
            lemma_outer_instantiation_passes(m, nodes[i], type_parameters, oracle);
        }
        if type_fits(m, ty, type_parameters, oracle) {
            assert forall|i: int| 0 <= i < nodes.len() implies all_steps(
                #[trigger] parts(i),
                passing(oracle),
            ) by {
                assert(outside_fits(m, nodes[i], type_parameters, oracle));
            }
        }
        if forall|i: int|
            0 <= i < nodes.len() ==> all_steps(#[trigger] parts(i), passing(oracle)) {
            assert forall|i: int| 0 <= i < nodes.len() implies outside_fits(
                m,
                #[trigger] nodes[i],
                type_parameters,
                oracle,
            ) by {
                assert(all_steps(parts(i), passing(oracle)));
            }
        }
    } else {
        lemma_outer_instantiation_passes(m, ty, type_parameters, oracle);
    }
}

/// A signature goes through if and only if its types fit.
pub proof fn lemma_signature_instantiation_passes(
    m: CompiledModule,
    instance: Instance,
    oracle: Oracle,
)
    ensures
        all_steps(signature_instantiation_plan(m, instance), passing(oracle)) <==> signature_fits(
            m,
            instance,
            oracle,
        ),
{
    lemma_dangling_passes(oracle);
    if has_signature(m, instance.0) {
        let tys = signature_at(m, instance.0);
        let parts = type_instantiation_parts(m, tys, instance.1);
        lemma_all_steps_joined(tys.len(), parts, passing(oracle));
        assert forall|i: int| 0 <= i < tys.len() implies all_steps(
            #[trigger] parts(i),
            passing(oracle),
        ) == type_fits(m, tys[i], instance.1, oracle) by {
            lemma_type_instantiation_passes(m, tys[i], instance.1, oracle);
        }
        if signature_fits(m, instance, oracle) {
            assert forall|i: int| 0 <= i < tys.len() implies all_steps(
                #[trigger] parts(i),
                passing(oracle),
            ) by {
                assert(type_fits(m, signature_at(m, instance.0)[i], instance.1, oracle));
            }
        }
        if forall|i: int| 0 <= i < tys.len() ==> all_steps(#[trigger] parts(i), passing(oracle)) {
            assert forall|i: int| 0 <= i < tys.len() implies type_fits(
                m,
                #[trigger] signature_at(m, instance.0)[i],
                instance.1,
                oracle,
            ) by {
                assert(all_steps(parts(i), passing(oracle)));
            }
        }
    }
}

/// A type goes through if and only if phantom type parameters are respected in it.
pub proof fn lemma_phantom_passes(
    m: CompiledModule,
    ty: SignatureToken,
    phantom_position: bool,
    type_parameters: Seq<DatatypeTyParameter>,
    oracle: Oracle,
)
    ensures
        all_steps(phantom_plan(m, ty, phantom_position, type_parameters), passing(oracle))
            <==> phantoms_respected(m, ty, phantom_position, type_parameters),
    decreases ty, 0nat,
{
    lemma_dangling_passes(oracle);
    match ty {
        SignatureToken::Vector(inner) => {
            lemma_phantom_passes(m, *inner, false, type_parameters, oracle);
        },
        SignatureToken::DatatypeInstantiation(inst) => {
            let declared = datatype_at(m, inst.0).type_parameters@;
            lemma_phantom_arguments_passes(
                m,
                inst.1@,
                inst.1@.len(),
                declared,
                type_parameters,
                oracle,
            );
            assert(phantoms_respected(m, ty, phantom_position, type_parameters) == (has_datatype(
                m,
                inst.0,
            ) && inst.1@.len() <= declared.len() && forall|i: int|
                0 <= i < inst.1@.len() ==> phantoms_respected(
                    m,
                    #[trigger] inst.1@[i],
                    declared[i].is_phantom,
                    type_parameters,
                )));
        },
        SignatureToken::TypeParameter(idx) => {
            if (idx as int) < type_parameters.len() {
                lemma_refuse_if_passes(
                    type_parameters[idx as int].is_phantom && !phantom_position,
                    phantom_error(),
                    oracle,
                );
            }
        },
        _ => {},
    }
}

proof fn lemma_phantom_arguments_passes(
    m: CompiledModule,
    type_arguments: Seq<SignatureToken>,
    n: nat,
    declared: Seq<DatatypeTyParameter>,
    type_parameters: Seq<DatatypeTyParameter>,
    oracle: Oracle,
)
    requires
        n <= type_arguments.len(),
    ensures
        all_steps(
            phantom_arguments_plan(m, type_arguments, n, declared, type_parameters),
            passing(oracle),
        ) <==> n <= declared.len() && forall|i: int|
            0 <= i < n ==> phantoms_respected(
                m,
                #[trigger] type_arguments[i],
                declared[i].is_phantom,
                type_parameters,
            ),
    decreases type_arguments, n,
{
    lemma_dangling_passes(oracle);
    if n > 0 {
        let k = (n - 1) as nat;
        lemma_phantom_arguments_passes(m, type_arguments, k, declared, type_parameters, oracle);
        let first = phantom_arguments_plan(m, type_arguments, k, declared, type_parameters);
        let last = if n <= declared.len() {
            phantom_plan(m, type_arguments[n - 1], declared[n - 1].is_phantom, type_parameters)
        } else {
            seq![Step::Dangling]
        };
        lemma_all_steps_then(first, last, passing(oracle));
        if n <= declared.len() {
            lemma_phantom_passes(
                m,
                type_arguments[n - 1],
                declared[n - 1].is_phantom,
                type_parameters,
                oracle,
            );
        }
    }
}

proof fn lemma_field_passes(
    m: CompiledModule,
    ty: SignatureToken,
    handle: DatatypeHandle,
    oracle: Oracle,
)
    ensures
        all_steps(field_plan(m, ty, handle), passing(oracle)) <==> field_fits(
            m,
            ty,
            handle,
            oracle,
        ),
{
    let first = token_plan(ty);
    let second = type_instantiation_plan(m, ty, handle.constraints());
    let third = phantom_plan(m, ty, false, handle.type_parameters@);
    lemma_all_steps_then(first + second, third, passing(oracle));
    lemma_all_steps_then(first, second, passing(oracle));
    lemma_refuse_if_passes(has_reference(ty), reference_error(), oracle);
    lemma_type_instantiation_passes(m, ty, handle.constraints(), oracle);
    lemma_phantom_passes(m, ty, false, handle.type_parameters@, oracle);
}

/// The fields of a struct or a variant, whatever places their errors point to.
proof fn lemma_fields_pass(
    m: CompiledModule,
    fields: Seq<FieldDefinition>,
    handle: DatatypeHandle,
    notes: spec_fn(int) -> Seq<Note>,
    parts: spec_fn(int) -> Plan,
    oracle: Oracle,
)
    requires
        forall|i: int|
            0 <= i < fields.len() ==> #[trigger] parts(i) == within(
                field_plan(m, fields[i].signature.0, handle),
                notes(i),
            ),
    ensures
        all_steps(joined(fields.len(), parts), passing(oracle)) <==> fields_fit(
            m,
            fields,
            handle,
            oracle,
        ),
{
    lemma_all_steps_joined(fields.len(), parts, passing(oracle));
    assert forall|i: int| 0 <= i < fields.len() implies all_steps(
        #[trigger] parts(i),
        passing(oracle),
    ) == field_fits(m, fields[i].signature.0, handle, oracle) by {
        lemma_passing_within(field_plan(m, fields[i].signature.0, handle), notes(i), oracle);
        lemma_field_passes(m, fields[i].signature.0, handle, oracle);
    }
    if fields_fit(m, fields, handle, oracle) {
        assert forall|i: int| 0 <= i < fields.len() implies all_steps(
            #[trigger] parts(i),
            passing(oracle),
        ) by {
            assert(field_fits(m, fields[i].signature.0, handle, oracle));
        }
    }
    if forall|i: int| 0 <= i < fields.len() ==> all_steps(#[trigger] parts(i), passing(oracle)) {
        assert forall|i: int| 0 <= i < fields.len() implies field_fits(
            m,
            (#[trigger] fields[i]).signature.0,
            handle,
            oracle,
        ) by {
            assert(all_steps(parts(i), passing(oracle)));
        }
    }
}

/// A struct goes through if and only if its fields fit.
pub proof fn lemma_struct_passes(m: CompiledModule, i: int, oracle: Oracle)
    ensures
        all_steps(struct_plan(m, i), passing(oracle)) <==> struct_fits(
            m,
            m.struct_defs@[i],
            oracle,
        ),
{
    lemma_dangling_passes(oracle);
    let def = m.struct_defs@[i];
    match def.field_information {
        StructFieldInformation::Native => {},
        StructFieldInformation::Declared(fields) => {
            let handle = datatype_at(m, def.struct_handle);
            lemma_fields_pass(
                m,
                fields@,
                handle,
                |f: int| struct_field_notes(f, i),
                struct_field_parts(m, handle, fields@, i),
                oracle,
            );
        },
    }
}

/// An enum goes through if and only if the fields of its variants fit.
pub proof fn lemma_enum_passes(m: CompiledModule, i: int, oracle: Oracle)
    ensures
        all_steps(enum_plan(m, i), passing(oracle)) <==> enum_fits(m, m.enum_defs@[i], oracle),
{
    lemma_dangling_passes(oracle);
    let def = m.enum_defs@[i];
    if has_datatype(m, def.enum_handle) {
        let handle = datatype_at(m, def.enum_handle);
        let parts = variant_parts(m, handle, def.variants@, i);
        lemma_all_steps_joined(def.variants@.len(), parts, passing(oracle));
        assert forall|tag: int| 0 <= tag < def.variants@.len() implies all_steps(
            #[trigger] parts(tag),
            passing(oracle),
        ) == fields_fit(m, def.variants@[tag].fields@, handle, oracle) by {
            lemma_fields_pass(
                m,
                def.variants@[tag].fields@,
                handle,
                |f: int| variant_field_notes(f, tag, i),
                variant_field_parts(m, handle, def.variants@[tag].fields@, tag, i),
                oracle,
            );
        }
        if enum_fits(m, def, oracle) {
            assert forall|tag: int| 0 <= tag < def.variants@.len() implies all_steps(
                #[trigger] parts(tag),
                passing(oracle),
            ) by {
                assert(fields_fit(m, def.variants@[tag].fields@, handle, oracle));
            }
        }
        if forall|tag: int|
            0 <= tag < def.variants@.len() ==> all_steps(#[trigger] parts(tag), passing(oracle)) {
            assert forall|tag: int| 0 <= tag < def.variants@.len() implies fields_fit(
                m,
                (#[trigger] def.variants@[tag]).fields@,
                handle,
                oracle,
            ) by {
                assert(all_steps(parts(tag), passing(oracle)));
            }
        }
    }
}

/// An instruction goes through if and only if its type arguments fit.
pub proof fn lemma_instruction_passes(
    m: CompiledModule,
    instr: Bytecode,
    offset: int,
    type_parameters: Seq<AbilitySet>,
    oracle: Oracle,
)
    ensures
        all_steps(instruction_plan(m, instr, offset, type_parameters), passing(oracle))
            <==> instruction_fits(m, instr, type_parameters, oracle),
{
    lemma_dangling_passes(oracle);
    let notes = offset_notes(offset);
    match generic_use(m, instr) {
        GenericUse::Nothing => {},
        GenericUse::Dangling => {},
        GenericUse::Elements(tys) => {
            if tys.len() != 1 {
                assert(!passing(oracle)(seq![Step::Fail(vector_arity_error(tys.len()))][0]));
            } else {
                lemma_passing_within(tokens_plan(tys), notes, oracle);
                lemma_refuse_if_passes(any_reference(tys), reference_error(), oracle);
            }
        },
        GenericUse::Instance { type_arguments, constraints } => {
            let plan = generic_instance_plan(type_arguments, constraints, type_parameters);
            lemma_all_steps_then(
                tokens_plan(type_arguments),
                within(plan, notes),
                passing(oracle),
            );
            lemma_refuse_if_passes(any_reference(type_arguments), reference_error(), oracle);
            lemma_passing_within(plan, notes, oracle);
            lemma_generic_instance_passes(type_arguments, constraints, type_parameters, oracle);
        },
    }
}

/// A function goes through if and only if its code fits.
pub proof fn lemma_function_passes(m: CompiledModule, i: int, oracle: Oracle)
    ensures
        all_steps(uncached_function_parts(m)(i), passing(oracle)) <==> function_fits(
            m,
            m.function_defs@[i],
            oracle,
        ),
{
    lemma_dangling_passes(oracle);
    let def = m.function_defs@[i];
    match def.code {
        None => {},
        Some(code) => {
            if has_handle(m, def) {
                let type_parameters = function_type_parameters(m, def);
                let instance = locals_instance(code, type_parameters);
                let parts = instruction_parts(m, code.code@, type_parameters);
                lemma_passing_within(
                    uncached_code_plan(m, code, type_parameters),
                    function_notes(code.locals, i),
                    oracle,
                );
                lemma_all_steps_then(
                    signature_instantiation_plan(m, instance),
                    joined(code.code@.len(), parts),
                    passing(oracle),
                );
                lemma_signature_instantiation_passes(m, instance, oracle);
                lemma_all_steps_joined(code.code@.len(), parts, passing(oracle));
                assert forall|offset: int| 0 <= offset < code.code@.len() implies all_steps(
                    #[trigger] parts(offset),
                    passing(oracle),
                ) == instruction_fits(m, code.code@[offset], type_parameters, oracle) by {
                    lemma_instruction_passes(
                        m,
                        code.code@[offset],
                        offset,
                        type_parameters,
                        oracle,
                    );
                }
                if function_fits(m, def, oracle) {
                    assert forall|offset: int| 0 <= offset < code.code@.len() implies all_steps(
                        #[trigger] parts(offset),
                        passing(oracle),
                    ) by {
                        assert(instruction_fits(m, code.code@[offset], type_parameters, oracle));
                    }
                }
                if forall|offset: int|
                    0 <= offset < code.code@.len() ==> all_steps(
                        #[trigger] parts(offset),
                        passing(oracle),
                    ) {
                    assert forall|offset: int|
                        0 <= offset < code.code@.len() implies instruction_fits(
                        m,
                        #[trigger] code.code@[offset],
                        type_parameters,
                        oracle,
                    ) by {
                        assert(all_steps(parts(offset), passing(oracle)));
                    }
                }
            }
        },
    }
}

/// A function handle goes through if and only if its signatures fit.
pub proof fn lemma_handle_passes(m: CompiledModule, i: int, oracle: Oracle)
    ensures
        all_steps(uncached_handle_parts(m)(i), passing(oracle)) <==> handle_fits(
            m,
            m.function_handles@[i],
            oracle,
        ),
{
    let handle = m.function_handles@[i];
    let first = signature_instantiation_plan(m, return_instance(handle));
    let second = signature_instantiation_plan(m, parameters_instance(handle));
    lemma_passing_within(first + second, handle_notes(i), oracle);
    lemma_all_steps_then(first, second, passing(oracle));
    lemma_signature_instantiation_passes(m, return_instance(handle), oracle);
    lemma_signature_instantiation_passes(m, parameters_instance(handle), oracle);
}

/// The plan of a module goes through if and only if its signatures are well formed.
pub proof fn lemma_module_passes(m: CompiledModule, oracle: Oracle)
    ensures
        ruling(module_plan(m), oracle) == Some(Ok::<(), ErrorModel>(())) <==> module_fits(
            m,
            oracle,
        ),
{
    let p = passing(oracle);
    let a = signature_pool_plan(m);
    let b = joined(m.function_handles@.len(), uncached_handle_parts(m));
    let c = struct_fields_plan(m);
    let d = enum_fields_plan(m);
    let e = joined(m.function_defs@.len(), uncached_function_parts(m));
    lemma_uncached_module(m, oracle);
    lemma_ruling_ok(uncached_module_plan(m), oracle);
    lemma_all_steps_then(a + b + c + d, e, p);
    lemma_all_steps_then(a + b + c, d, p);
    lemma_all_steps_then(a + b, c, p);
    lemma_all_steps_then(a, b, p);
    lemma_refuse_if_passes(any_bad_signature(m.signatures@), reference_error(), oracle);
    lemma_all_steps_joined(m.function_handles@.len(), uncached_handle_parts(m), p);
    lemma_all_steps_joined(m.struct_defs@.len(), struct_parts(m), p);
    lemma_all_steps_joined(m.enum_defs@.len(), enum_parts(m), p);
    lemma_all_steps_joined(m.function_defs@.len(), uncached_function_parts(m), p);
    assert forall|i: int| all_steps(#[trigger] uncached_handle_parts(m)(i), p) == handle_fits(
        m,
        m.function_handles@[i],
        oracle,
    ) by {
        lemma_handle_passes(m, i, oracle);
    }
    assert forall|i: int| all_steps(#[trigger] struct_parts(m)(i), p) == struct_fits(
        m,
        m.struct_defs@[i],
        oracle,
    ) by {
        lemma_struct_passes(m, i, oracle);
    }
    assert forall|i: int| all_steps(#[trigger] enum_parts(m)(i), p) == enum_fits(
        m,
        m.enum_defs@[i],
        oracle,
    ) by {
        lemma_enum_passes(m, i, oracle);
    }
    assert forall|i: int| all_steps(#[trigger] uncached_function_parts(m)(i), p) == function_fits(
        m,
        m.function_defs@[i],
        oracle,
    ) by {
        lemma_function_passes(m, i, oracle);
    }
    if module_fits(m, oracle) {
        assert forall|i: int| 0 <= i < m.function_handles@.len() implies all_steps(
            #[trigger] uncached_handle_parts(m)(i),
            p,
        ) by {
            assert(handle_fits(m, m.function_handles@[i], oracle));
        }
        assert forall|i: int| 0 <= i < m.struct_defs@.len() implies all_steps(
            #[trigger] struct_parts(m)(i),
            p,
        ) by {
            assert(struct_fits(m, m.struct_defs@[i], oracle));
        }
        assert forall|i: int| 0 <= i < m.enum_defs@.len() implies all_steps(
            #[trigger] enum_parts(m)(i),
            p,
        ) by {
            assert(enum_fits(m, m.enum_defs@[i], oracle));
        }
        assert forall|i: int| 0 <= i < m.function_defs@.len() implies all_steps(
            #[trigger] uncached_function_parts(m)(i),
            p,
        ) by {
            assert(function_fits(m, m.function_defs@[i], oracle));
        }
    }
    if all_steps(uncached_module_plan(m), p) {
        assert forall|i: int| 0 <= i < m.function_handles@.len() implies handle_fits(
            m,
            #[trigger] m.function_handles@[i],
            oracle,
        ) by {
            assert(all_steps(uncached_handle_parts(m)(i), p));
        }
        assert forall|i: int| 0 <= i < m.struct_defs@.len() implies struct_fits(
            m,
            #[trigger] m.struct_defs@[i],
            oracle,
        ) by {
            assert(all_steps(struct_parts(m)(i), p));
        }
        assert forall|i: int| 0 <= i < m.enum_defs@.len() implies enum_fits(
            m,
            #[trigger] m.enum_defs@[i],
            oracle,
        ) by {
            assert(all_steps(enum_parts(m)(i), p));
        }
        assert forall|i: int| 0 <= i < m.function_defs@.len() implies function_fits(
            m,
            #[trigger] m.function_defs@[i],
            oracle,
        ) by {
            assert(all_steps(uncached_function_parts(m)(i), p));
        }
    }
}

} // verus!
