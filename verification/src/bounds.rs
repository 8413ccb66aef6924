//! Modules whose indices all lead somewhere.

use vstd::prelude::*;

use crate::abilities::AbilitySet;
use crate::checked::Instance;
use crate::file_format::{
    preorder, preorder_of_first, CompiledModule, DatatypeHandle, DatatypeTyParameter,
    EnumDefinition, FieldDefinition, FunctionDefinition, FunctionHandle, Signature, SignatureToken,
    StructDefinition, StructFieldInformation, VERSION_6,
};
use crate::module_plan::{
    checked_with_functions, checked_with_handles, code_plan, code_units_plan, datatype_at,
    enum_fields_plan, enum_parts, field_plan, function_notes, function_parts, function_plan,
    function_signatures_plan, function_type_parameters, generic_use, handle_notes, handle_parts,
    handle_plan, has_datatype, has_handle, has_signature, instantiation_plan, instruction_parts,
    locals_instance, module_plan, outer_instantiation_parts, parameters_instance,
    phantom_arguments_plan, phantom_plan, return_instance, signature_at, signature_pool_plan,
    struct_field_notes, struct_field_parts, struct_fields_plan, struct_parts, token_plan,
    type_instantiation_parts, type_instantiation_plan, variant_field_notes, variant_field_parts,
    variant_parts,
};
use crate::plan::{joined, within, Note, Plan};
use crate::ruling::{
    all_steps, leading_somewhere, lemma_all_steps_joined, lemma_all_steps_then,
    lemma_leading_within,
};

verus! {

/// Whether every datatype instantiation in the type names a datatype of the module and hands it
/// as many type arguments as it declares.
pub open spec fn datatypes_in_bounds(m: CompiledModule, ty: SignatureToken) -> bool
    decreases ty,
{
    match ty {
        SignatureToken::Vector(inner)
        | SignatureToken::Reference(inner)
        | SignatureToken::MutableReference(inner) => datatypes_in_bounds(m, *inner),
        SignatureToken::DatatypeInstantiation(inst) => {
            &&& has_datatype(m, inst.0)
            &&& inst.1@.len() == datatype_at(m, inst.0).type_parameters@.len()
            &&& forall|i: int|
                0 <= i < inst.1@.len() ==> datatypes_in_bounds(m, #[trigger] inst.1@[i])
        },
        _ => true,
    }
}

/// Whether every type parameter in the type is one of the first `n`.
pub open spec fn type_parameters_in_bounds(ty: SignatureToken, n: nat) -> bool
    decreases ty,
{
    match ty {
        SignatureToken::Vector(inner)
        | SignatureToken::Reference(inner)
        | SignatureToken::MutableReference(inner) => type_parameters_in_bounds(*inner, n),
        SignatureToken::DatatypeInstantiation(inst) => forall|i: int|
            0 <= i < inst.1@.len() ==> type_parameters_in_bounds(#[trigger] inst.1@[i], n),
        SignatureToken::TypeParameter(idx) => idx < n,
        _ => true,
    }
}

/// Whether the types of the fields of the datatype are in bounds.
pub open spec fn fields_in_bounds(
    m: CompiledModule,
    fields: Seq<FieldDefinition>,
    handle: DatatypeHandle,
) -> bool {
    forall|i: int|
        0 <= i < fields.len() ==> {
            let ty = (#[trigger] fields[i]).signature.0;
            datatypes_in_bounds(m, ty) && type_parameters_in_bounds(
                ty,
                handle.type_parameters@.len(),
            )
        }
}

/// Whether the types of a signature are in bounds.
pub open spec fn signature_in_bounds(m: CompiledModule, signature: Signature) -> bool {
    forall|i: int|
        0 <= i < signature.0@.len() ==> datatypes_in_bounds(m, #[trigger] signature.0@[i])
}

/// Whether what a struct refers to is in bounds.
pub open spec fn struct_in_bounds(m: CompiledModule, def: StructDefinition) -> bool {
    match def.field_information {
        StructFieldInformation::Native => true,
        StructFieldInformation::Declared(fields) => has_datatype(m, def.struct_handle)
            && fields_in_bounds(m, fields@, datatype_at(m, def.struct_handle)),
    }
}

/// Whether what an enum refers to is in bounds.
pub open spec fn enum_in_bounds(m: CompiledModule, def: EnumDefinition) -> bool {
    &&& has_datatype(m, def.enum_handle)
    &&& forall|tag: int|
        0 <= tag < def.variants@.len() ==> fields_in_bounds(
            m,
            (#[trigger] def.variants@[tag]).fields@,
            datatype_at(m, def.enum_handle),
        )
}

/// Whether what a function refers to is in bounds.
pub open spec fn function_in_bounds(m: CompiledModule, def: FunctionDefinition) -> bool {
    match def.code {
        None => true,
        Some(code) => {
            &&& has_handle(m, def)
            &&& has_signature(m, code.locals)
            &&& forall|offset: int|
                0 <= offset < code.code@.len() ==> !(generic_use(
                    m,
                    #[trigger] code.code@[offset],
                ) is Dangling)
        },
    }
}

/// Whether the signatures of a function handle are in bounds.
pub open spec fn handle_in_bounds(m: CompiledModule, handle: FunctionHandle) -> bool {
    has_signature(m, handle.return_) && has_signature(m, handle.parameters)
}

/// Whether every index in the module lies within its table and every instantiation hands over as
/// many type arguments as are declared.
pub open spec fn module_in_bounds(m: CompiledModule) -> bool {
    &&& forall|i: int|
        0 <= i < m.signatures@.len() ==> signature_in_bounds(m, #[trigger] m.signatures@[i])
    &&& forall|i: int|
        0 <= i < m.function_handles@.len() ==> handle_in_bounds(
            m,
            #[trigger] m.function_handles@[i],
        )
    &&& forall|i: int|
        0 <= i < m.struct_defs@.len() ==> struct_in_bounds(m, #[trigger] m.struct_defs@[i])
    &&& forall|i: int|
        0 <= i < m.enum_defs@.len() ==> enum_in_bounds(m, #[trigger] m.enum_defs@[i])
    &&& forall|i: int|
        0 <= i < m.function_defs@.len() ==> function_in_bounds(m, #[trigger] m.function_defs@[i])
}

// ---- No step follows an index outside of its table ----

/// The types inside a type that is in bounds are in bounds.
proof fn lemma_preorder_in_bounds(m: CompiledModule, ty: SignatureToken)
    requires
        datatypes_in_bounds(m, ty),
    ensures
        forall|i: int|
            0 <= i < preorder(ty).len() ==> datatypes_in_bounds(m, #[trigger] preorder(ty)[i]),
    decreases ty, 0nat,
{
    match ty {
        SignatureToken::Vector(inner)
        | SignatureToken::Reference(inner)
        | SignatureToken::MutableReference(inner) => {
            lemma_preorder_in_bounds(m, *inner);
            assert forall|i: int| 0 <= i < preorder(ty).len() implies datatypes_in_bounds(
                m,
                #[trigger] preorder(ty)[i],
            ) by {
                if i > 0 {
                    assert(preorder(ty)[i] == preorder(*inner)[i - 1]);
                }
            }
        },
        SignatureToken::DatatypeInstantiation(inst) => {
            let rest = preorder_of_first(inst.1@, inst.1@.len());
            lemma_preorder_of_first_in_bounds(m, inst.1@, inst.1@.len());
            assert forall|i: int| 0 <= i < preorder(ty).len() implies datatypes_in_bounds(
                m,
                #[trigger] preorder(ty)[i],
            ) by {
                if i > 0 {
                    assert(preorder(ty)[i] == rest[i - 1]);
                }
            }
        },
        _ => {},
    }
}

proof fn lemma_preorder_of_first_in_bounds(m: CompiledModule, tys: Seq<SignatureToken>, n: nat)
    requires
        n <= tys.len(),
        forall|i: int| 0 <= i < tys.len() ==> datatypes_in_bounds(m, #[trigger] tys[i]),
    ensures
        forall|i: int|
            0 <= i < preorder_of_first(tys, n).len() ==> datatypes_in_bounds(
                m,
                #[trigger] preorder_of_first(tys, n)[i],
            ),
    decreases tys, n,
{
    if n > 0 {
        lemma_preorder_of_first_in_bounds(m, tys, (n - 1) as nat);
        lemma_preorder_in_bounds(m, tys[n - 1]);
        let first = preorder_of_first(tys, (n - 1) as nat);
        assert forall|i: int| 0 <= i < preorder_of_first(tys, n).len() implies datatypes_in_bounds(
            m,
            #[trigger] preorder_of_first(tys, n)[i],
        ) by {
            if i < first.len() {
                assert(preorder_of_first(tys, n)[i] == first[i]);
            } else {
                assert(preorder_of_first(tys, n)[i] == preorder(tys[n - 1])[i - first.len()]);
            }
        }
    }
}

proof fn lemma_type_instantiation_leads(
    m: CompiledModule,
    ty: SignatureToken,
    type_parameters: Seq<AbilitySet>,
)
    requires
        datatypes_in_bounds(m, ty),
    ensures
        all_steps(type_instantiation_plan(m, ty, type_parameters), leading_somewhere()),
{
    if m.version >= VERSION_6 {
        let nodes = preorder(ty);
        let parts = outer_instantiation_parts(m, nodes, type_parameters);
        lemma_preorder_in_bounds(m, ty);
        lemma_all_steps_joined(nodes.len(), parts, leading_somewhere());
        assert forall|i: int| 0 <= i < nodes.len() implies all_steps(
            #[trigger] parts(i),
            leading_somewhere(),
        ) by {
            assert(datatypes_in_bounds(m, nodes[i]));
        }
    }
}

proof fn lemma_signature_leads(m: CompiledModule, checked: Set<Instance>, instance: Instance)
    requires
        module_in_bounds(m),
        has_signature(m, instance.0),
    ensures
        all_steps(instantiation_plan(m, checked, instance), leading_somewhere()),
{
    let tys = signature_at(m, instance.0);
    let parts = type_instantiation_parts(m, tys, instance.1);
    assert(signature_in_bounds(m, m.signatures@[instance.0.0 as int]));
    lemma_all_steps_joined(tys.len(), parts, leading_somewhere());
    assert forall|i: int| 0 <= i < tys.len() implies all_steps(
        #[trigger] parts(i),
        leading_somewhere(),
    ) by {
        assert(datatypes_in_bounds(m, m.signatures@[instance.0.0 as int].0@[i]));
        lemma_type_instantiation_leads(m, tys[i], instance.1);
    }
}

proof fn lemma_phantom_leads(
    m: CompiledModule,
    ty: SignatureToken,
    phantom_position: bool,
    type_parameters: Seq<DatatypeTyParameter>,
)
    requires
        datatypes_in_bounds(m, ty),
        type_parameters_in_bounds(ty, type_parameters.len()),
    ensures
        all_steps(
            phantom_plan(m, ty, phantom_position, type_parameters),
            leading_somewhere(),
        ),
    decreases ty, 0nat,
{
    match ty {
        SignatureToken::Vector(inner) => {
            lemma_phantom_leads(m, *inner, false, type_parameters);
        },
        SignatureToken::DatatypeInstantiation(inst) => {
            lemma_phantom_arguments_lead(
                m,
                inst.1@,
                inst.1@.len(),
                datatype_at(m, inst.0).type_parameters@,
                type_parameters,
            );
        },
        _ => {},
    }
}

proof fn lemma_phantom_arguments_lead(
    m: CompiledModule,
    type_arguments: Seq<SignatureToken>,
    n: nat,
    declared: Seq<DatatypeTyParameter>,
    type_parameters: Seq<DatatypeTyParameter>,
)
    requires
        n <= type_arguments.len(),
        type_arguments.len() == declared.len(),
        forall|i: int|
            0 <= i < type_arguments.len() ==> datatypes_in_bounds(m, #[trigger] type_arguments[i]),
        forall|i: int|
            0 <= i < type_arguments.len() ==> type_parameters_in_bounds(
                #[trigger] type_arguments[i],
                type_parameters.len(),
            ),
    ensures
        all_steps(
            phantom_arguments_plan(m, type_arguments, n, declared, type_parameters),
            leading_somewhere(),
        ),
    decreases type_arguments, n,
{
    if n > 0 {
        let k = (n - 1) as nat;
        lemma_phantom_arguments_lead(m, type_arguments, k, declared, type_parameters);
        lemma_phantom_leads(
            m,
            type_arguments[n - 1],
            declared[n - 1].is_phantom,
            type_parameters,
        );
        lemma_all_steps_then(
            phantom_arguments_plan(m, type_arguments, k, declared, type_parameters),
            phantom_plan(m, type_arguments[n - 1], declared[n - 1].is_phantom, type_parameters),
            leading_somewhere(),
        );
    }
}

proof fn lemma_fields_lead(
    m: CompiledModule,
    fields: Seq<FieldDefinition>,
    handle: DatatypeHandle,
    notes: spec_fn(int) -> Seq<Note>,
    parts: spec_fn(int) -> Plan,
)
    requires
        fields_in_bounds(m, fields, handle),
        forall|i: int|
            0 <= i < fields.len() ==> #[trigger] parts(i) == within(
                field_plan(m, fields[i].signature.0, handle),
                notes(i),
            ),
    ensures
        all_steps(joined(fields.len(), parts), leading_somewhere()),
{
    lemma_all_steps_joined(fields.len(), parts, leading_somewhere());
    assert forall|i: int| 0 <= i < fields.len() implies all_steps(
        #[trigger] parts(i),
        leading_somewhere(),
    ) by {
        let ty = fields[i].signature.0;
        let first = token_plan(ty);
        let second = type_instantiation_plan(m, ty, handle.constraints());
        let third = phantom_plan(m, ty, false, handle.type_parameters@);
        lemma_type_instantiation_leads(m, ty, handle.constraints());
        lemma_phantom_leads(m, ty, false, handle.type_parameters@);
        lemma_all_steps_then(first, second, leading_somewhere());
        lemma_all_steps_then(first + second, third, leading_somewhere());
        lemma_leading_within(field_plan(m, ty, handle), notes(i));
    }
}

proof fn lemma_code_leads(m: CompiledModule, checked: Set<Instance>, i: int)
    requires
        module_in_bounds(m),
        0 <= i < m.function_defs@.len(),
    ensures
        all_steps(function_plan(m, checked, i), leading_somewhere()),
{
    let def = m.function_defs@[i];
    assert(function_in_bounds(m, def));
    match def.code {
        None => {},
        Some(code) => {
            let type_parameters = function_type_parameters(m, def);
            let parts = instruction_parts(m, code.code@, type_parameters);
            lemma_signature_leads(m, checked, locals_instance(code, type_parameters));
            lemma_all_steps_joined(code.code@.len(), parts, leading_somewhere());
            assert forall|offset: int| 0 <= offset < code.code@.len() implies all_steps(
                #[trigger] parts(offset),
                leading_somewhere(),
            ) by {
                assert(!(generic_use(m, code.code@[offset]) is Dangling));
            }
            lemma_all_steps_then(
                instantiation_plan(m, checked, locals_instance(code, type_parameters)),
                joined(code.code@.len(), parts),
                leading_somewhere(),
            );
            lemma_leading_within(
                code_plan(m, checked, code, type_parameters),
                function_notes(code.locals, i),
            );
        },
    }
}

/// No step of the check of a module that is in bounds follows an index outside of its table.
pub proof fn lemma_module_leads(m: CompiledModule)
    requires
        module_in_bounds(m),
    ensures
        all_steps(module_plan(m), leading_somewhere()),
{
    let p = leading_somewhere();
    let a = signature_pool_plan(m);
    let b = function_signatures_plan(m);
    let c = struct_fields_plan(m);
    let d = enum_fields_plan(m);
    let e = code_units_plan(m);
    lemma_all_steps_joined(m.function_handles@.len(), handle_parts(m), p);
    assert forall|i: int| 0 <= i < m.function_handles@.len() implies all_steps(
        #[trigger] handle_parts(m)(i),
        p,
    ) by {
        let handle = m.function_handles@[i];
        let checked = checked_with_handles(m, i as nat);
        assert(handle_in_bounds(m, handle));
        lemma_signature_leads(m, checked, return_instance(handle));
        lemma_signature_leads(
            m,
            checked.insert(return_instance(handle)),
            parameters_instance(handle),
        );
        lemma_all_steps_then(
            instantiation_plan(m, checked, return_instance(handle)),
            instantiation_plan(
                m,
                checked.insert(return_instance(handle)),
                parameters_instance(handle),
            ),
            p,
        );
        lemma_leading_within(handle_plan(m, checked, handle), handle_notes(i));
    }
    lemma_all_steps_joined(m.struct_defs@.len(), struct_parts(m), p);
    assert forall|i: int| 0 <= i < m.struct_defs@.len() implies all_steps(
        #[trigger] struct_parts(m)(i),
        p,
    ) by {
        let def = m.struct_defs@[i];
        assert(struct_in_bounds(m, def));
        match def.field_information {
            StructFieldInformation::Native => {},
            StructFieldInformation::Declared(fields) => {
                let handle = datatype_at(m, def.struct_handle);
                lemma_fields_lead(
                    m,
                    fields@,
                    handle,
                    |f: int| struct_field_notes(f, i),
                    struct_field_parts(m, handle, fields@, i),
                );
            },
        }
    }
    lemma_all_steps_joined(m.enum_defs@.len(), enum_parts(m), p);
    assert forall|i: int| 0 <= i < m.enum_defs@.len() implies all_steps(
        #[trigger] enum_parts(m)(i),
        p,
    ) by {
        let def = m.enum_defs@[i];
        assert(enum_in_bounds(m, def));
        let handle = datatype_at(m, def.enum_handle);
        let parts = variant_parts(m, handle, def.variants@, i);
        lemma_all_steps_joined(def.variants@.len(), parts, p);
        assert forall|tag: int| 0 <= tag < def.variants@.len() implies all_steps(
            #[trigger] parts(tag),
            p,
        ) by {
            assert(fields_in_bounds(m, def.variants@[tag].fields@, handle));
            lemma_fields_lead(
                m,
                def.variants@[tag].fields@,
                handle,
                |f: int| variant_field_notes(f, tag, i),
                variant_field_parts(m, handle, def.variants@[tag].fields@, tag, i),
            );
        }
    }
    lemma_all_steps_joined(m.function_defs@.len(), function_parts(m), p);
    assert forall|i: int| 0 <= i < m.function_defs@.len() implies all_steps(
        #[trigger] function_parts(m)(i),
        p,
    ) by {
        lemma_code_leads(m, checked_with_functions(m, i as nat), i);
    }
    lemma_all_steps_then(a, b, p);
    lemma_all_steps_then(a + b, c, p);
    lemma_all_steps_then(a + b + c, d, p);
    lemma_all_steps_then(a + b + c + d, e, p);
}

} // verus!
