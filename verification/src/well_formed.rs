//! What it means for a module's signatures to be well formed, said without regard to the order
//! in which they are checked.

use vstd::prelude::*;

use crate::abilities::AbilitySet;
use crate::checked::Instance;
use crate::errors::ErrorModel;
use crate::file_format::{
    has_reference, preorder, Bytecode, CodeUnit, CompiledModule, DatatypeHandle,
    DatatypeTyParameter, EnumDefinition, FieldDefinition, FunctionDefinition, FunctionHandle,
    SignatureToken, StructDefinition, StructFieldInformation, VERSION_6,
};
use crate::module_plan::{
    any_bad_signature, any_reference, checked_with_functions, checked_with_handles, code_plan,
    code_units_plan, datatype_at, enum_fields_plan, function_notes, function_parts,
    function_signatures_plan, function_type_parameters, generic_use, handle_notes, handle_parts,
    has_datatype, has_handle, has_signature, instantiation_plan, instruction_parts, locals_instance,
    module_plan, parameters_instance, return_instance, signature_at, signature_instantiation_plan,
    signature_pool_plan, struct_fields_plan, GenericUse,
};
use crate::plan::{joined, within, Plan, Query, Step};
use crate::ruling::{lemma_ruling_then, lemma_ruling_within, ruling, suits, Oracle};

verus! {

// ---- Type arguments ----

/// Whether the type arguments are as many as are asked for and have the abilities that are asked
/// of them.
pub open spec fn arguments_fit(
    type_arguments: Seq<SignatureToken>,
    constraints: Seq<AbilitySet>,
    type_parameters: Seq<AbilitySet>,
    oracle: Oracle,
) -> bool {
    &&& type_arguments.len() == constraints.len()
    &&& forall|i: int|
        0 <= i < type_arguments.len() ==> suits(
            constraints[i],
            oracle(
                Query {
                    type_parameter_abilities: type_parameters,
                    ty: #[trigger] type_arguments[i],
                },
            ),
        )
}

/// Whether the type arguments of the type itself fit.
pub open spec fn outside_fits(
    m: CompiledModule,
    ty: SignatureToken,
    type_parameters: Seq<AbilitySet>,
    oracle: Oracle,
) -> bool {
    match ty {
        SignatureToken::DatatypeInstantiation(inst) => has_datatype(m, inst.0) && arguments_fit(
            inst.1@,
            datatype_at(m, inst.0).constraints(),
            type_parameters,
            oracle,
        ),
        _ => true,
    }
}

/// Whether the type arguments of the type fit and, from version 6 on, those of the types inside
/// it.
pub open spec fn type_fits(
    m: CompiledModule,
    ty: SignatureToken,
    type_parameters: Seq<AbilitySet>,
    oracle: Oracle,
) -> bool {
    if m.version >= VERSION_6 {
        forall|i: int|
            0 <= i < preorder(ty).len() ==> outside_fits(
                m,
                #[trigger] preorder(ty)[i],
                type_parameters,
                oracle,
            )
    } else {
        outside_fits(m, ty, type_parameters, oracle)
    }
}

/// Whether there is such a signature and all its types fit.
pub open spec fn signature_fits(m: CompiledModule, instance: Instance, oracle: Oracle) -> bool {
    &&& has_signature(m, instance.0)
    &&& forall|i: int|
        0 <= i < signature_at(m, instance.0).len() ==> type_fits(
            m,
            #[trigger] signature_at(m, instance.0)[i],
            instance.1,
            oracle,
        )
}

/// Whether the signatures of a function handle fit.
pub open spec fn handle_fits(m: CompiledModule, handle: FunctionHandle, oracle: Oracle) -> bool {
    &&& signature_fits(m, return_instance(handle), oracle)
    &&& signature_fits(m, parameters_instance(handle), oracle)
}

// ---- Fields ----

/// Whether phantom type parameters are used only where a phantom type argument is wanted.
/// `phantom_position` says whether the type itself stands in such a place.
pub open spec fn phantoms_respected(
    m: CompiledModule,
    ty: SignatureToken,
    phantom_position: bool,
    type_parameters: Seq<DatatypeTyParameter>,
) -> bool
    decreases ty,
{
    match ty {
        SignatureToken::Vector(inner) => phantoms_respected(m, *inner, false, type_parameters),
        SignatureToken::DatatypeInstantiation(inst) => {
            let declared = datatype_at(m, inst.0).type_parameters@;
            &&& has_datatype(m, inst.0)
            &&& inst.1@.len() <= declared.len()
            &&& forall|i: int|
                0 <= i < inst.1@.len() ==> phantoms_respected(
                    m,
                    #[trigger] inst.1@[i],
                    declared[i].is_phantom,
                    type_parameters,
                )
        },
        SignatureToken::TypeParameter(idx) => {
            &&& (idx as int) < type_parameters.len()
            &&& type_parameters[idx as int].is_phantom ==> phantom_position
        },
        _ => true,
    }
}

/// Whether the type may be that of a field of the datatype.
pub open spec fn field_fits(
    m: CompiledModule,
    ty: SignatureToken,
    handle: DatatypeHandle,
    oracle: Oracle,
) -> bool {
    &&& !has_reference(ty)
    &&& type_fits(m, ty, handle.constraints(), oracle)
    &&& phantoms_respected(m, ty, false, handle.type_parameters@)
}

/// Whether the types may be those of the fields of the datatype.
pub open spec fn fields_fit(
    m: CompiledModule,
    fields: Seq<FieldDefinition>,
    handle: DatatypeHandle,
    oracle: Oracle,
) -> bool {
    forall|i: int|
        0 <= i < fields.len() ==> field_fits(
            m,
            (#[trigger] fields[i]).signature.0,
            handle,
            oracle,
        )
}

/// Whether the fields of a struct fit.
pub open spec fn struct_fits(m: CompiledModule, def: StructDefinition, oracle: Oracle) -> bool {
    match def.field_information {
        StructFieldInformation::Native => true,
        StructFieldInformation::Declared(fields) => has_datatype(m, def.struct_handle)
            && fields_fit(m, fields@, datatype_at(m, def.struct_handle), oracle),
    }
}

/// Whether the fields of the variants of an enum fit.
pub open spec fn enum_fits(m: CompiledModule, def: EnumDefinition, oracle: Oracle) -> bool {
    &&& has_datatype(m, def.enum_handle)
    &&& forall|tag: int|
        0 <= tag < def.variants@.len() ==> fields_fit(
            m,
            (#[trigger] def.variants@[tag]).fields@,
            datatype_at(m, def.enum_handle),
            oracle,
        )
}

// ---- Code ----

/// Whether the type arguments of an instruction fit.
pub open spec fn instruction_fits(
    m: CompiledModule,
    instr: Bytecode,
    type_parameters: Seq<AbilitySet>,
    oracle: Oracle,
) -> bool {
    match generic_use(m, instr) {
        GenericUse::Nothing => true,
        GenericUse::Dangling => false,
        GenericUse::Elements(tys) => tys.len() == 1 && !any_reference(tys),
        GenericUse::Instance { type_arguments, constraints } => !any_reference(type_arguments)
            && arguments_fit(type_arguments, constraints, type_parameters, oracle),
    }
}

/// Whether the code of a function fits.
pub open spec fn function_fits(m: CompiledModule, def: FunctionDefinition, oracle: Oracle) -> bool {
    match def.code {
        None => true,
        Some(code) => {
            &&& has_handle(m, def)
            &&& signature_fits(m, locals_instance(code, function_type_parameters(m, def)), oracle)
            &&& forall|offset: int|
                0 <= offset < code.code@.len() ==> instruction_fits(
                    m,
                    #[trigger] code.code@[offset],
                    function_type_parameters(m, def),
                    oracle,
                )
        },
    }
}

// ---- The whole module ----

/// Whether the signatures of a module are well formed, where the oracle knows the abilities of
/// types.
pub open spec fn module_fits(m: CompiledModule, oracle: Oracle) -> bool {
    &&& !any_bad_signature(m.signatures@)
    &&& forall|i: int|
        0 <= i < m.function_handles@.len() ==> handle_fits(
            m,
            #[trigger] m.function_handles@[i],
            oracle,
        )
    &&& forall|i: int|
        0 <= i < m.struct_defs@.len() ==> struct_fits(m, #[trigger] m.struct_defs@[i], oracle)
    &&& forall|i: int|
        0 <= i < m.enum_defs@.len() ==> enum_fits(m, #[trigger] m.enum_defs@[i], oracle)
    &&& forall|i: int|
        0 <= i < m.function_defs@.len() ==> function_fits(
            m,
            #[trigger] m.function_defs@[i],
            oracle,
        )
}

// ---- The check that remembers nothing ----

/// The check of each function handle, if nothing were remembered.
pub open spec fn uncached_handle_parts(m: CompiledModule) -> spec_fn(int) -> Plan {
    |i: int|
        within(
            signature_instantiation_plan(m, return_instance(m.function_handles@[i]))
                + signature_instantiation_plan(m, parameters_instance(m.function_handles@[i])),
            handle_notes(i),
        )
}

/// The check of the code of a function, if nothing were remembered.
pub open spec fn uncached_code_plan(
    m: CompiledModule,
    code: CodeUnit,
    type_parameters: Seq<AbilitySet>,
) -> Plan {
    signature_instantiation_plan(m, locals_instance(code, type_parameters)) + joined(
        code.code@.len(),
        instruction_parts(m, code.code@, type_parameters),
    )
}

/// The check of each function, if nothing were remembered.
pub open spec fn uncached_function_parts(m: CompiledModule) -> spec_fn(int) -> Plan {
    |i: int|
        {
            let def = m.function_defs@[i];
            match def.code {
                None => Seq::empty(),
                Some(code) => if has_handle(m, def) {
                    within(
                        uncached_code_plan(m, code, function_type_parameters(m, def)),
                        function_notes(code.locals, i),
                    )
                } else {
                    seq![Step::Dangling]
                },
            }
        }
}

/// The check of a module, if it were not remembered which signatures were checked.
pub open spec fn uncached_module_plan(m: CompiledModule) -> Plan {
    signature_pool_plan(m) + joined(m.function_handles@.len(), uncached_handle_parts(m))
        + struct_fields_plan(m) + enum_fields_plan(m) + joined(
        m.function_defs@.len(),
        uncached_function_parts(m),
    )
}

// ---- Remembering changes nothing ----

/// Whether every instance in the set goes through.
pub open spec fn all_go_through(m: CompiledModule, checked: Set<Instance>, oracle: Oracle) -> bool {
    forall|instance: Instance| #[trigger]
        checked.contains(instance) ==> ruling(signature_instantiation_plan(m, instance), oracle)
            == Some(Ok::<(), ErrorModel>(()))
}

/// An instance that is remembered would go through if it were checked again.
pub proof fn lemma_remembered(
    m: CompiledModule,
    checked: Set<Instance>,
    instance: Instance,
    oracle: Oracle,
)
    requires
        all_go_through(m, checked, oracle),
    ensures
        ruling(instantiation_plan(m, checked, instance), oracle) == ruling(
            signature_instantiation_plan(m, instance),
            oracle,
        ),
{
}

/// One more instance that goes through.
proof fn lemma_remember(
    m: CompiledModule,
    checked: Set<Instance>,
    instance: Instance,
    oracle: Oracle,
)
    requires
        all_go_through(m, checked, oracle),
        ruling(signature_instantiation_plan(m, instance), oracle) == Some(
            Ok::<(), ErrorModel>(()),
        ),
    ensures
        all_go_through(m, checked.insert(instance), oracle),
{
    assert forall|other: Instance| #[trigger] checked.insert(instance).contains(other) implies ruling(
        signature_instantiation_plan(m, other),
        oracle,
    ) == Some(Ok::<(), ErrorModel>(())) by {
        if other != instance {
            assert(checked.contains(other));
        }
    }
}

/// Remembering what the function handles name changes nothing.
pub proof fn lemma_uncached_handles(m: CompiledModule, n: nat, oracle: Oracle)
    requires
        n <= m.function_handles@.len(),
    ensures
        ruling(joined(n, handle_parts(m)), oracle) == ruling(
            joined(n, uncached_handle_parts(m)),
            oracle,
        ),
        ruling(joined(n, handle_parts(m)), oracle) == Some(Ok::<(), ErrorModel>(()))
            ==> all_go_through(m, checked_with_handles(m, n), oracle),
    decreases n,
{
    if n > 0 {
        let k = (n - 1) as nat;
        lemma_uncached_handles(m, k, oracle);
        let handle = m.function_handles@[k as int];
        let checked = checked_with_handles(m, k);
        let notes = handle_notes(k as int);
        let first = return_instance(handle);
        let second = parameters_instance(handle);
        let a = instantiation_plan(m, checked, first);
        let b = instantiation_plan(m, checked.insert(first), second);
        let ua = signature_instantiation_plan(m, first);
        let ub = signature_instantiation_plan(m, second);
        lemma_ruling_then(joined(k, handle_parts(m)), handle_parts(m)(k as int), oracle);
        lemma_ruling_then(
            joined(k, uncached_handle_parts(m)),
            uncached_handle_parts(m)(k as int),
            oracle,
        );
        lemma_ruling_within(a + b, notes, oracle);
        lemma_ruling_within(ua + ub, notes, oracle);
        lemma_ruling_then(a, b, oracle);
        lemma_ruling_then(ua, ub, oracle);
        if ruling(joined(k, handle_parts(m)), oracle) == Some(Ok::<(), ErrorModel>(())) {
            lemma_remembered(m, checked, first, oracle);
            if ruling(ua, oracle) == Some(Ok::<(), ErrorModel>(())) {
                lemma_remember(m, checked, first, oracle);
                lemma_remembered(m, checked.insert(first), second, oracle);
                if ruling(ub, oracle) == Some(Ok::<(), ErrorModel>(())) {
                    lemma_remember(m, checked.insert(first), second, oracle);
                }
            }
        }
    }
}

/// Remembering what the functions name changes nothing.
pub proof fn lemma_uncached_functions(m: CompiledModule, n: nat, oracle: Oracle)
    requires
        n <= m.function_defs@.len(),
        all_go_through(m, checked_with_handles(m, m.function_handles@.len()), oracle),
    ensures
        ruling(joined(n, function_parts(m)), oracle) == ruling(
            joined(n, uncached_function_parts(m)),
            oracle,
        ),
        ruling(joined(n, function_parts(m)), oracle) == Some(Ok::<(), ErrorModel>(()))
            ==> all_go_through(m, checked_with_functions(m, n), oracle),
    decreases n,
{
    if n > 0 {
        let k = (n - 1) as nat;
        lemma_uncached_functions(m, k, oracle);
        let def = m.function_defs@[k as int];
        let checked = checked_with_functions(m, k);
        lemma_ruling_then(joined(k, function_parts(m)), function_parts(m)(k as int), oracle);
        lemma_ruling_then(
            joined(k, uncached_function_parts(m)),
            uncached_function_parts(m)(k as int),
            oracle,
        );
        if ruling(joined(k, function_parts(m)), oracle) == Some(Ok::<(), ErrorModel>(())) {
            match def.code {
                None => {},
                Some(code) => {
                    let type_parameters = function_type_parameters(m, def);
                    let instance = locals_instance(code, type_parameters);
                    let rest = joined(
                        code.code@.len(),
                        instruction_parts(m, code.code@, type_parameters),
                    );
                    let notes = function_notes(code.locals, k as int);
                    lemma_remembered(m, checked, instance, oracle);
                    lemma_ruling_then(instantiation_plan(m, checked, instance), rest, oracle);
                    lemma_ruling_then(signature_instantiation_plan(m, instance), rest, oracle);
                    lemma_ruling_within(
                        code_plan(m, checked, code, type_parameters),
                        notes,
                        oracle,
                    );
                    lemma_ruling_within(
                        uncached_code_plan(m, code, type_parameters),
                        notes,
                        oracle,
                    );
                    if ruling(signature_instantiation_plan(m, instance), oracle) == Some(
                        Ok::<(), ErrorModel>(()),
                    ) {
                        lemma_remember(m, checked, instance, oracle);
                    }
                },
            }
        }
    }
}

/// Remembering which signatures were checked changes nothing.
pub proof fn lemma_uncached_module(m: CompiledModule, oracle: Oracle)
    ensures
        ruling(module_plan(m), oracle) == ruling(uncached_module_plan(m), oracle),
{
    let a = signature_pool_plan(m);
    let b = function_signatures_plan(m);
    let c = struct_fields_plan(m);
    let d = enum_fields_plan(m);
    let e = code_units_plan(m);
    let ub = joined(m.function_handles@.len(), uncached_handle_parts(m));
    let ue = joined(m.function_defs@.len(), uncached_function_parts(m));
    lemma_uncached_handles(m, m.function_handles@.len(), oracle);
    lemma_ruling_then(a, b, oracle);
    lemma_ruling_then(a + b, c, oracle);
    lemma_ruling_then(a + b + c, d, oracle);
    lemma_ruling_then(a + b + c + d, e, oracle);
    lemma_ruling_then(a, ub, oracle);
    lemma_ruling_then(a + ub, c, oracle);
    lemma_ruling_then(a + ub + c, d, oracle);
    lemma_ruling_then(a + ub + c + d, ue, oracle);
    if ruling(b, oracle) == Some(Ok::<(), ErrorModel>(())) {
        lemma_uncached_functions(m, m.function_defs@.len(), oracle);
    }
}

} // verus!
