//! The steps by which a module's signatures are checked.

use vstd::prelude::*;

use crate::abilities::AbilitySet;
use crate::checked::Instance;
use crate::errors::{error_saying, ErrorModel, IndexKind, StatusCode, TableIndex};
use crate::file_format::{
    has_reference, preorder, Bytecode, CodeUnit, CompiledModule, DatatypeHandle,
    DatatypeHandleIndex, DatatypeTyParameter, FieldDefinition, FunctionDefinition, FunctionHandle,
    Signature, SignatureIndex, SignatureToken, StructFieldInformation, VariantDefinition, VERSION_6,
};
use crate::plan::{
    grounded, joined, lemma_grounded_first, lemma_performs_cut, lemma_performs_fail,
    lemma_performs_nothing, performs, refuses, within, Note, Plan, Query, Reply, Step,
};
use crate::text::decimal;

verus! {

/// A position, as far as a table index can hold it.
pub open spec fn table_index(i: int) -> TableIndex {
    (i % 0x1_0000) as TableIndex
}

// ---- Errors ----

/// A reference stands where a type may hold none.
pub open spec fn reference_error() -> ErrorModel {
    error_saying(StatusCode::INVALID_SIGNATURE_TOKEN, "reference not allowed"@)
}

/// A phantom type parameter is used in a position that is not phantom.
pub open spec fn phantom_error() -> ErrorModel {
    error_saying(
        StatusCode::INVALID_PHANTOM_TYPE_PARAM_POSITION,
        "phantom type parameter cannot be used in non-phantom position"@,
    )
}

/// A generic is given `got` type arguments where it declares `expected`.
pub open spec fn arity_error(expected: nat, got: nat) -> ErrorModel {
    error_saying(
        StatusCode::NUMBER_OF_TYPE_ARGUMENTS_MISMATCH,
        "expected "@ + decimal(expected) + " type argument(s), got "@ + decimal(got),
    )
}

/// A vector instruction names `got` element types.
pub open spec fn vector_arity_error(got: nat) -> ErrorModel {
    error_saying(
        StatusCode::NUMBER_OF_TYPE_ARGUMENTS_MISMATCH,
        "expected 1 type token for vector operations, got "@ + decimal(got),
    )
}

/// What is said of an error found at an instruction.
pub open spec fn offset_text(offset: nat) -> Seq<char> {
    "at offset "@ + decimal(offset) + " "@
}

// ---- References ----

/// Whether a reference occurs in one of the types.
pub open spec fn any_reference(tys: Seq<SignatureToken>) -> bool {
    exists|i: int| 0 <= i < tys.len() && has_reference(#[trigger] tys[i])
}

/// Whether a reference occurs in the type other than around the whole of it.
pub open spec fn inner_reference(ty: SignatureToken) -> bool {
    match ty {
        SignatureToken::Reference(inner) | SignatureToken::MutableReference(inner) => has_reference(
            *inner,
        ),
        _ => has_reference(ty),
    }
}

/// Whether one of the types holds a reference other than around the whole of it.
pub open spec fn any_inner_reference(tys: Seq<SignatureToken>) -> bool {
    exists|i: int| 0 <= i < tys.len() && #[trigger] inner_reference(tys[i])
}

/// Refuses the module if something is bad about it.
pub open spec fn refuse_if(bad: bool, err: ErrorModel) -> Plan {
    if bad {
        seq![Step::Fail(err)]
    } else {
        Seq::empty()
    }
}

/// What comes of refusing the module if something is bad about it.
pub open spec fn refused_if(bad: bool, err: ErrorModel) -> Result<(), ErrorModel> {
    if bad {
        Err(err)
    } else {
        Ok(())
    }
}

/// Carrying out such a refusal.
pub proof fn lemma_performs_refuse_if(bad: bool, err: ErrorModel)
    ensures
        performs(refuse_if(bad, err), Seq::empty(), refused_if(bad, err)),
{
    lemma_performs_nothing();
    lemma_performs_fail(err);
}

/// Checks that no reference occurs in the type.
pub open spec fn token_plan(ty: SignatureToken) -> Plan {
    refuse_if(has_reference(ty), reference_error())
}

/// Checks that no reference occurs in the types.
pub open spec fn tokens_plan(tys: Seq<SignatureToken>) -> Plan {
    refuse_if(any_reference(tys), reference_error())
}

/// Whether a signature that a table index can name holds a misplaced reference.
pub open spec fn any_bad_signature(signatures: Seq<Signature>) -> bool {
    exists|i: int|
        0 <= i < signatures.len() && i < 0x1_0000 && #[trigger] any_inner_reference(
            signatures[i].0@,
        )
}

/// Checks every signature that a table index can name.
pub open spec fn signature_pool_plan(m: CompiledModule) -> Plan {
    refuse_if(any_bad_signature(m.signatures@), reference_error())
}

// ---- Type arguments ----

/// The requirement that a type argument has the abilities that its type parameter asks for.
pub open spec fn requirement(
    constraint: AbilitySet,
    ty: SignatureToken,
    type_parameters: Seq<AbilitySet>,
) -> Step {
    Step::Require {
        constraint,
        query: Query { type_parameter_abilities: type_parameters, ty },
        notes: Seq::empty(),
    }
}

/// Checks type arguments against what is asked of them, in a context whose type parameters have
/// the abilities `type_parameters`.
pub open spec fn generic_instance_plan(
    type_arguments: Seq<SignatureToken>,
    constraints: Seq<AbilitySet>,
    type_parameters: Seq<AbilitySet>,
) -> Plan {
    if type_arguments.len() != constraints.len() {
        seq![Step::Fail(arity_error(constraints.len(), type_arguments.len()))]
    } else {
        Seq::new(
            type_arguments.len(),
            |i: int| requirement(constraints[i], type_arguments[i], type_parameters),
        )
    }
}

/// Whether the index leads to a datatype.
pub open spec fn has_datatype(m: CompiledModule, idx: DatatypeHandleIndex) -> bool {
    (idx.0 as int) < m.datatype_handles@.len()
}

/// The datatype that the index leads to.
pub open spec fn datatype_at(m: CompiledModule, idx: DatatypeHandleIndex) -> DatatypeHandle {
    m.datatype_handles@[idx.0 as int]
}

/// Checks the type arguments of the type itself.
pub open spec fn outer_instantiation_plan(
    m: CompiledModule,
    ty: SignatureToken,
    type_parameters: Seq<AbilitySet>,
) -> Plan {
    match ty {
        SignatureToken::DatatypeInstantiation(inst) => if has_datatype(m, inst.0) {
            generic_instance_plan(
                inst.1@,
                datatype_at(m, inst.0).constraints(),
                type_parameters,
            )
        } else {
            seq![Step::Dangling]
        },
        _ => Seq::empty(),
    }
}

/// The check of the type arguments of each of the types.
pub open spec fn outer_instantiation_parts(
    m: CompiledModule,
    tys: Seq<SignatureToken>,
    type_parameters: Seq<AbilitySet>,
) -> spec_fn(int) -> Plan {
    |i: int| outer_instantiation_plan(m, tys[i], type_parameters)
}

/// Checks the type arguments of the type and, from version 6 on, those of the types inside it.
pub open spec fn type_instantiation_plan(
    m: CompiledModule,
    ty: SignatureToken,
    type_parameters: Seq<AbilitySet>,
) -> Plan {
    if m.version >= VERSION_6 {
        joined(
            preorder(ty).len(),
            outer_instantiation_parts(m, preorder(ty), type_parameters),
        )
    } else {
        outer_instantiation_plan(m, ty, type_parameters)
    }
}

/// The check of the type arguments within each of the types.
pub open spec fn type_instantiation_parts(
    m: CompiledModule,
    tys: Seq<SignatureToken>,
    type_parameters: Seq<AbilitySet>,
) -> spec_fn(int) -> Plan {
    |i: int| type_instantiation_plan(m, tys[i], type_parameters)
}

/// Whether the index leads to a signature.
pub open spec fn has_signature(m: CompiledModule, idx: SignatureIndex) -> bool {
    (idx.0 as int) < m.signatures@.len()
}

/// The types of the signature that the index leads to.
pub open spec fn signature_at(m: CompiledModule, idx: SignatureIndex) -> Seq<SignatureToken> {
    m.signatures@[idx.0 as int].0@
}

/// Checks the type arguments within every type of a signature.
pub open spec fn signature_instantiation_plan(m: CompiledModule, instance: Instance) -> Plan {
    if has_signature(m, instance.0) {
        let tys = signature_at(m, instance.0);
        joined(tys.len(), type_instantiation_parts(m, tys, instance.1))
    } else {
        seq![Step::Dangling]
    }
}

/// Checks the type arguments within every type of a signature, unless that was done before.
pub open spec fn instantiation_plan(
    m: CompiledModule,
    checked: Set<Instance>,
    instance: Instance,
) -> Plan {
    if checked.contains(instance) {
        Seq::empty()
    } else {
        signature_instantiation_plan(m, instance)
    }
}

// ---- Functions ----

/// What the return types of a function are checked as.
pub open spec fn return_instance(handle: FunctionHandle) -> Instance {
    (handle.return_, handle.type_parameters@)
}

/// What the parameter types of a function are checked as.
pub open spec fn parameters_instance(handle: FunctionHandle) -> Instance {
    (handle.parameters, handle.type_parameters@)
}

/// What was checked once the first `n` function handles were.
pub open spec fn checked_with_handles(m: CompiledModule, n: nat) -> Set<Instance>
    decreases n,
{
    if n == 0 {
        Set::empty()
    } else {
        let handle = m.function_handles@[n - 1];
        checked_with_handles(m, (n - 1) as nat).insert(return_instance(handle)).insert(
            parameters_instance(handle),
        )
    }
}

/// What is remembered after a function handle was refused, when `replies` is what was asked for
/// it: the return types are, unless it was they that were refused.
pub open spec fn checked_with_refused_handle(
    m: CompiledModule,
    checked: Set<Instance>,
    handle: FunctionHandle,
    replies: Seq<Reply>,
) -> Set<Instance> {
    if refuses(instantiation_plan(m, checked, return_instance(handle)), replies) {
        checked
    } else {
        checked.insert(return_instance(handle))
    }
}

/// What was checked with some function handles is checked with more of them.
pub proof fn lemma_checked_with_handles_grows(m: CompiledModule, a: nat, b: nat)
    requires
        a <= b,
    ensures
        checked_with_handles(m, a).subset_of(checked_with_handles(m, b)),
    decreases b,
{
    if a < b {
        lemma_checked_with_handles_grows(m, a, (b - 1) as nat);
    }
}

/// The places that an error in the `i`th function handle points to.
pub open spec fn handle_notes(i: int) -> Seq<Note> {
    seq![
        Note::Place(IndexKind::Signature, table_index(i)),
        Note::Place(IndexKind::FunctionHandle, table_index(i)),
    ]
}

/// Checks the signatures of a function handle, the return types first.
pub open spec fn handle_plan(
    m: CompiledModule,
    checked: Set<Instance>,
    handle: FunctionHandle,
) -> Plan {
    instantiation_plan(m, checked, return_instance(handle)) + instantiation_plan(
        m,
        checked.insert(return_instance(handle)),
        parameters_instance(handle),
    )
}

/// The check of each function handle.
pub open spec fn handle_parts(m: CompiledModule) -> spec_fn(int) -> Plan {
    |i: int|
        within(
            handle_plan(m, checked_with_handles(m, i as nat), m.function_handles@[i]),
            handle_notes(i),
        )
}

/// Checks the signatures of every function handle.
pub open spec fn function_signatures_plan(m: CompiledModule) -> Plan {
    joined(m.function_handles@.len(), handle_parts(m))
}

// ---- Phantom type parameters ----

/// Checks that phantom type parameters are used only where a phantom type argument is wanted.
/// `phantom_position` says whether the type itself stands in such a place.
pub open spec fn phantom_plan(
    m: CompiledModule,
    ty: SignatureToken,
    phantom_position: bool,
    type_parameters: Seq<DatatypeTyParameter>,
) -> Plan
    decreases ty, 0nat,
{
    match ty {
        SignatureToken::Vector(inner) => phantom_plan(m, *inner, false, type_parameters),
        SignatureToken::DatatypeInstantiation(inst) => if has_datatype(m, inst.0) {
            phantom_arguments_plan(
                m,
                inst.1@,
                inst.1@.len(),
                datatype_at(m, inst.0).type_parameters@,
                type_parameters,
            )
        } else {
            seq![Step::Dangling]
        },
        SignatureToken::TypeParameter(idx) => if (idx as int) < type_parameters.len() {
            refuse_if(
                type_parameters[idx as int].is_phantom && !phantom_position,
                phantom_error(),
            )
        } else {
            seq![Step::Dangling]
        },
        _ => Seq::empty(),
    }
}

/// Checks the first `n` type arguments of a datatype that declares `declared`.
pub open spec fn phantom_arguments_plan(
    m: CompiledModule,
    type_arguments: Seq<SignatureToken>,
    n: nat,
    declared: Seq<DatatypeTyParameter>,
    type_parameters: Seq<DatatypeTyParameter>,
) -> Plan
    decreases type_arguments, n,
{
    if n == 0 || n > type_arguments.len() {
        Seq::empty()
    } else {
        phantom_arguments_plan(m, type_arguments, (n - 1) as nat, declared, type_parameters) + if n
            <= declared.len() {
            phantom_plan(
                m,
                type_arguments[n - 1],
                declared[n - 1].is_phantom,
                type_parameters,
            )
        } else {
            seq![Step::Dangling]
        }
    }
}

/// The checks of the first type arguments are grounded if all of them are.
pub proof fn lemma_phantom_arguments_grounded(
    m: CompiledModule,
    type_arguments: Seq<SignatureToken>,
    n: nat,
    k: nat,
    declared: Seq<DatatypeTyParameter>,
    type_parameters: Seq<DatatypeTyParameter>,
)
    requires
        k <= n <= type_arguments.len(),
        grounded(phantom_arguments_plan(m, type_arguments, n, declared, type_parameters)),
    ensures
        grounded(phantom_arguments_plan(m, type_arguments, k, declared, type_parameters)),
    decreases n,
{
    if k < n {
        let first = phantom_arguments_plan(
            m,
            type_arguments,
            (n - 1) as nat,
            declared,
            type_parameters,
        );
        let last = if n <= declared.len() {
            phantom_plan(m, type_arguments[n - 1], declared[n - 1].is_phantom, type_parameters)
        } else {
            seq![Step::Dangling]
        };
        lemma_grounded_first(first, last);
        lemma_phantom_arguments_grounded(
            m,
            type_arguments,
            (n - 1) as nat,
            k,
            declared,
            type_parameters,
        );
    }
}

/// If the first type arguments are refused, all of them are.
pub proof fn lemma_phantom_arguments_cut(
    m: CompiledModule,
    type_arguments: Seq<SignatureToken>,
    n: nat,
    k: nat,
    declared: Seq<DatatypeTyParameter>,
    type_parameters: Seq<DatatypeTyParameter>,
    err: ErrorModel,
)
    requires
        k <= n <= type_arguments.len(),
        performs(
            phantom_arguments_plan(m, type_arguments, k, declared, type_parameters),
            Seq::empty(),
            Err(err),
        ),
    ensures
        performs(
            phantom_arguments_plan(m, type_arguments, n, declared, type_parameters),
            Seq::empty(),
            Err(err),
        ),
    decreases n,
{
    if k < n {
        lemma_phantom_arguments_cut(
            m,
            type_arguments,
            (n - 1) as nat,
            k,
            declared,
            type_parameters,
            err,
        );
        let first = phantom_arguments_plan(
            m,
            type_arguments,
            (n - 1) as nat,
            declared,
            type_parameters,
        );
        let last = if n <= declared.len() {
            phantom_plan(m, type_arguments[n - 1], declared[n - 1].is_phantom, type_parameters)
        } else {
            seq![Step::Dangling]
        };
        lemma_performs_cut(first, Seq::empty(), err, last);
    }
}

// ---- Fields ----

/// Checks the type of a field of a datatype.
pub open spec fn field_plan(m: CompiledModule, ty: SignatureToken, handle: DatatypeHandle) -> Plan {
    token_plan(ty) + type_instantiation_plan(m, ty, handle.constraints()) + phantom_plan(
        m,
        ty,
        false,
        handle.type_parameters@,
    )
}

/// The places that an error in the `i`th field of a struct points to.
pub open spec fn struct_field_notes(i: int, struct_def: int) -> Seq<Note> {
    seq![
        Note::Place(IndexKind::FieldDefinition, table_index(i)),
        Note::Place(IndexKind::StructDefinition, table_index(struct_def)),
    ]
}

/// The check of each field of the struct at `struct_def`.
pub open spec fn struct_field_parts(
    m: CompiledModule,
    handle: DatatypeHandle,
    fields: Seq<FieldDefinition>,
    struct_def: int,
) -> spec_fn(int) -> Plan {
    |i: int|
        within(field_plan(m, fields[i].signature.0, handle), struct_field_notes(i, struct_def))
}

/// Checks the fields of a struct.
pub open spec fn struct_plan(m: CompiledModule, struct_def: int) -> Plan {
    let def = m.struct_defs@[struct_def];
    match def.field_information {
        StructFieldInformation::Native => Seq::empty(),
        StructFieldInformation::Declared(fields) => if has_datatype(m, def.struct_handle) {
            joined(
                fields@.len(),
                struct_field_parts(
                    m,
                    datatype_at(m, def.struct_handle),
                    fields@,
                    struct_def,
                ),
            )
        } else {
            seq![Step::Dangling]
        },
    }
}

/// The check of each struct.
pub open spec fn struct_parts(m: CompiledModule) -> spec_fn(int) -> Plan {
    |i: int| struct_plan(m, i)
}

/// Checks the fields of every struct.
pub open spec fn struct_fields_plan(m: CompiledModule) -> Plan {
    joined(m.struct_defs@.len(), struct_parts(m))
}

/// The places that an error in the `i`th field of a variant points to.
pub open spec fn variant_field_notes(i: int, tag: int, enum_def: int) -> Seq<Note> {
    seq![
        Note::Place(IndexKind::FieldDefinition, table_index(i)),
        Note::Place(IndexKind::VariantTag, table_index(tag)),
        Note::Place(IndexKind::EnumDefinition, table_index(enum_def)),
    ]
}

/// The check of each field of the variant `tag` of the enum at `enum_def`.
pub open spec fn variant_field_parts(
    m: CompiledModule,
    handle: DatatypeHandle,
    fields: Seq<FieldDefinition>,
    tag: int,
    enum_def: int,
) -> spec_fn(int) -> Plan {
    |i: int|
        within(
            field_plan(m, fields[i].signature.0, handle),
            variant_field_notes(i, tag, enum_def),
        )
}

/// The check of each variant of the enum at `enum_def`.
pub open spec fn variant_parts(
    m: CompiledModule,
    handle: DatatypeHandle,
    variants: Seq<VariantDefinition>,
    enum_def: int,
) -> spec_fn(int) -> Plan {
    |tag: int|
        joined(
            variants[tag].fields@.len(),
            variant_field_parts(m, handle, variants[tag].fields@, tag, enum_def),
        )
}

/// Checks the fields of the variants of an enum.
pub open spec fn enum_plan(m: CompiledModule, enum_def: int) -> Plan {
    let def = m.enum_defs@[enum_def];
    if has_datatype(m, def.enum_handle) {
        joined(
            def.variants@.len(),
            variant_parts(m, datatype_at(m, def.enum_handle), def.variants@, enum_def),
        )
    } else {
        seq![Step::Dangling]
    }
}

/// The check of each enum.
pub open spec fn enum_parts(m: CompiledModule) -> spec_fn(int) -> Plan {
    |i: int| enum_plan(m, i)
}

/// Checks the fields of every enum.
pub open spec fn enum_fields_plan(m: CompiledModule) -> Plan {
    joined(m.enum_defs@.len(), enum_parts(m))
}

// ---- Code ----

/// What an instruction does with type arguments.
pub enum GenericUse {
    /// It has none.
    Nothing,
    /// It leads to them by an index that lies outside of its table.
    Dangling,
    /// They are the element types of a vector.
    Elements(Seq<SignatureToken>),
    /// They are handed to a generic that asks for `constraints`.
    Instance { type_arguments: Seq<SignatureToken>, constraints: Seq<AbilitySet> },
}

/// The use of the type arguments at `idx` for the datatype at `handle`.
pub open spec fn datatype_use(
    m: CompiledModule,
    handle: DatatypeHandleIndex,
    idx: SignatureIndex,
) -> GenericUse {
    if has_datatype(m, handle) && has_signature(m, idx) {
        GenericUse::Instance {
            type_arguments: signature_at(m, idx),
            constraints: datatype_at(m, handle).constraints(),
        }
    } else {
        GenericUse::Dangling
    }
}

/// What the instruction does with type arguments.
pub open spec fn generic_use(m: CompiledModule, instr: Bytecode) -> GenericUse {
    match instr {
        Bytecode::CallGeneric(idx) => {
            let inst = m.function_instantiations@[idx.0 as int];
            if idx.0 < m.function_instantiations@.len() && inst.handle.0 < m.function_handles@.len()
                && has_signature(m, inst.type_parameters) {
                GenericUse::Instance {
                    type_arguments: signature_at(m, inst.type_parameters),
                    constraints: m.function_handles@[inst.handle.0 as int].type_parameters@,
                }
            } else {
                GenericUse::Dangling
            }
        },
        Bytecode::PackGeneric(idx)
        | Bytecode::UnpackGeneric(idx)
        | Bytecode::ExistsGenericDeprecated(idx)
        | Bytecode::MoveFromGenericDeprecated(idx)
        | Bytecode::MoveToGenericDeprecated(idx)
        | Bytecode::ImmBorrowGlobalGenericDeprecated(idx)
        | Bytecode::MutBorrowGlobalGenericDeprecated(idx) => {
            let inst = m.struct_def_instantiations@[idx.0 as int];
            if idx.0 < m.struct_def_instantiations@.len() && inst.def.0 < m.struct_defs@.len() {
                datatype_use(
                    m,
                    m.struct_defs@[inst.def.0 as int].struct_handle,
                    inst.type_parameters,
                )
            } else {
                GenericUse::Dangling
            }
        },
        Bytecode::ImmBorrowFieldGeneric(idx) | Bytecode::MutBorrowFieldGeneric(idx) => {
            let inst = m.field_instantiations@[idx.0 as int];
            let field = m.field_handles@[inst.handle.0 as int];
            if idx.0 < m.field_instantiations@.len() && inst.handle.0 < m.field_handles@.len()
                && field.owner.0 < m.struct_defs@.len() {
                datatype_use(
                    m,
                    m.struct_defs@[field.owner.0 as int].struct_handle,
                    inst.type_parameters,
                )
            } else {
                GenericUse::Dangling
            }
        },
        Bytecode::PackVariantGeneric(idx)
        | Bytecode::UnpackVariantGeneric(idx)
        | Bytecode::UnpackVariantGenericImmRef(idx)
        | Bytecode::UnpackVariantGenericMutRef(idx) => {
            let variant = m.variant_instantiation_handles@[idx.0 as int];
            let inst = m.enum_def_instantiations@[variant.enum_def.0 as int];
            if idx.0 < m.variant_instantiation_handles@.len() && variant.enum_def.0
                < m.enum_def_instantiations@.len() && inst.def.0 < m.enum_defs@.len() {
                datatype_use(
                    m,
                    m.enum_defs@[inst.def.0 as int].enum_handle,
                    inst.type_parameters,
                )
            } else {
                GenericUse::Dangling
            }
        },
        Bytecode::VecPack(idx, _)
        | Bytecode::VecLen(idx)
        | Bytecode::VecImmBorrow(idx)
        | Bytecode::VecMutBorrow(idx)
        | Bytecode::VecPushBack(idx)
        | Bytecode::VecPopBack(idx)
        | Bytecode::VecUnpack(idx, _)
        | Bytecode::VecSwap(idx) => if has_signature(m, idx) {
            GenericUse::Elements(signature_at(m, idx))
        } else {
            GenericUse::Dangling
        },
        _ => GenericUse::Nothing,
    }
}

/// What is added to an error found at an instruction.
pub open spec fn offset_notes(offset: int) -> Seq<Note> {
    seq![Note::Remark(offset_text(offset as nat))]
}

/// Checks the type arguments of an instruction.
pub open spec fn instruction_plan(
    m: CompiledModule,
    instr: Bytecode,
    offset: int,
    type_parameters: Seq<AbilitySet>,
) -> Plan {
    match generic_use(m, instr) {
        GenericUse::Nothing => Seq::empty(),
        GenericUse::Dangling => seq![Step::Dangling],
        GenericUse::Elements(tys) => if tys.len() != 1 {
            seq![Step::Fail(vector_arity_error(tys.len()))]
        } else {
            within(tokens_plan(tys), offset_notes(offset))
        },
        GenericUse::Instance { type_arguments, constraints } => tokens_plan(type_arguments)
            + within(
            generic_instance_plan(type_arguments, constraints, type_parameters),
            offset_notes(offset),
        ),
    }
}

/// The check of each instruction.
pub open spec fn instruction_parts(
    m: CompiledModule,
    code: Seq<Bytecode>,
    type_parameters: Seq<AbilitySet>,
) -> spec_fn(int) -> Plan {
    |offset: int| instruction_plan(m, code[offset], offset, type_parameters)
}

/// What the local variables of a function are checked as.
pub open spec fn locals_instance(code: CodeUnit, type_parameters: Seq<AbilitySet>) -> Instance {
    (code.locals, type_parameters)
}

/// Checks the local variables and the instructions of a function.
pub open spec fn code_plan(
    m: CompiledModule,
    checked: Set<Instance>,
    code: CodeUnit,
    type_parameters: Seq<AbilitySet>,
) -> Plan {
    instantiation_plan(m, checked, locals_instance(code, type_parameters)) + joined(
        code.code@.len(),
        instruction_parts(m, code.code@, type_parameters),
    )
}

/// Whether the index leads to a function handle.
pub open spec fn has_handle(m: CompiledModule, def: FunctionDefinition) -> bool {
    (def.function.0 as int) < m.function_handles@.len()
}

/// The abilities of the type parameters of a function.
pub open spec fn function_type_parameters(m: CompiledModule, def: FunctionDefinition) -> Seq<
    AbilitySet,
> {
    m.function_handles@[def.function.0 as int].type_parameters@
}

/// What was checked once the first `n` functions were, after all function handles.
pub open spec fn checked_with_functions(m: CompiledModule, n: nat) -> Set<Instance>
    decreases n,
{
    if n == 0 {
        checked_with_handles(m, m.function_handles@.len())
    } else {
        let def = m.function_defs@[n - 1];
        let checked = checked_with_functions(m, (n - 1) as nat);
        match def.code {
            Some(code) => checked.insert(
                locals_instance(code, function_type_parameters(m, def)),
            ),
            None => checked,
        }
    }
}

/// What is remembered after the code of a function was refused, when `replies` is what was asked
/// for it: the local variables are, unless it was they that were refused.
pub open spec fn checked_with_refused_code(
    m: CompiledModule,
    checked: Set<Instance>,
    code: CodeUnit,
    type_parameters: Seq<AbilitySet>,
    replies: Seq<Reply>,
) -> Set<Instance> {
    if refuses(
        instantiation_plan(m, checked, locals_instance(code, type_parameters)),
        replies,
    ) {
        checked
    } else {
        checked.insert(locals_instance(code, type_parameters))
    }
}

/// What was checked with some functions is checked with more of them.
pub proof fn lemma_checked_with_functions_grows(m: CompiledModule, a: nat, b: nat)
    requires
        a <= b,
    ensures
        checked_with_functions(m, a).subset_of(checked_with_functions(m, b)),
    decreases b,
{
    if a < b {
        lemma_checked_with_functions_grows(m, a, (b - 1) as nat);
    }
}

/// The places that an error in the code of the `i`th function points to.
pub open spec fn function_notes(locals: SignatureIndex, i: int) -> Seq<Note> {
    seq![
        Note::Place(IndexKind::Signature, locals.0),
        Note::Place(IndexKind::FunctionDefinition, table_index(i)),
    ]
}

/// Checks the code of a function.
pub open spec fn function_plan(m: CompiledModule, checked: Set<Instance>, i: int) -> Plan {
    let def = m.function_defs@[i];
    match def.code {
        None => Seq::empty(),
        Some(code) => if has_handle(m, def) {
            within(
                code_plan(m, checked, code, function_type_parameters(m, def)),
                function_notes(code.locals, i),
            )
        } else {
            seq![Step::Dangling]
        },
    }
}

/// The check of each function.
pub open spec fn function_parts(m: CompiledModule) -> spec_fn(int) -> Plan {
    |i: int| function_plan(m, checked_with_functions(m, i as nat), i)
}

/// Checks the code of every function.
pub open spec fn code_units_plan(m: CompiledModule) -> Plan {
    joined(m.function_defs@.len(), function_parts(m))
}

// ---- The whole module ----

/// The check of a module.
pub open spec fn module_plan(m: CompiledModule) -> Plan {
    signature_pool_plan(m) + function_signatures_plan(m) + struct_fields_plan(m)
        + enum_fields_plan(m) + code_units_plan(m)
}

} // verus!
