//! What is accepted, what is refused, and how a refusal reads.

use std::collections::VecDeque;

use move_signature_checker::abilities::AbilitySet;
use move_signature_checker::errors::{
    IndexKind, Location, ModuleId, PartialVMError, PartialVMResult, StatusCode, VMError, VMResult,
};
use move_signature_checker::file_format::{
    Bytecode, CodeUnit, CompiledModule, ConstantPoolIndex, DatatypeHandle, DatatypeHandleIndex,
    DatatypeTyParameter, EnumDefInstantiation, EnumDefInstantiationIndex, EnumDefinition,
    EnumDefinitionIndex, FieldDefinition, FieldHandle, FieldHandleIndex, FieldInstantiation,
    FieldInstantiationIndex, FunctionDefinition, FunctionHandle, FunctionHandleIndex,
    FunctionInstantiation, FunctionInstantiationIndex, Signature, SignatureIndex, SignatureToken,
    StructDefInstantiation, StructDefInstantiationIndex, StructDefinition, StructDefinitionIndex,
    StructFieldInformation, TypeSignature, VariantDefinition, VariantHandleIndex,
    VariantInstantiationHandle, VariantInstantiationHandleIndex, VariantJumpTableIndex,
};
use move_signature_checker::signature::verify_module_with_answers;

fn set(copy: bool, drop: bool, store: bool, key: bool) -> AbilitySet {
    AbilitySet { copy, drop, store, key }
}

fn none() -> AbilitySet {
    set(false, false, false, false)
}

fn copy() -> AbilitySet {
    set(true, false, false, false)
}

fn drop() -> AbilitySet {
    set(false, true, false, false)
}

fn all() -> AbilitySet {
    set(true, true, true, true)
}

fn self_id() -> ModuleId {
    ModuleId { address: [0xA; 32], name: "example".to_string() }
}

/// A module of version 6 with nothing in it.
fn module() -> CompiledModule {
    CompiledModule {
        version: 6,
        self_id: self_id(),
        datatype_handles: vec![],
        function_handles: vec![],
        field_handles: vec![],
        function_instantiations: vec![],
        struct_def_instantiations: vec![],
        field_instantiations: vec![],
        enum_def_instantiations: vec![],
        variant_instantiation_handles: vec![],
        signatures: vec![],
        struct_defs: vec![],
        enum_defs: vec![],
        function_defs: vec![],
    }
}

/// A datatype whose type parameters are not phantom.
fn datatype(constraints: Vec<AbilitySet>) -> DatatypeHandle {
    DatatypeHandle {
        type_parameters: constraints
            .into_iter()
            .map(|constraints| DatatypeTyParameter { constraints, is_phantom: false })
            .collect(),
    }
}

/// A datatype whose type parameters ask for nothing and are phantom as told.
fn phantoms(are_phantom: Vec<bool>) -> DatatypeHandle {
    DatatypeHandle {
        type_parameters: are_phantom
            .into_iter()
            .map(|is_phantom| DatatypeTyParameter { constraints: none(), is_phantom })
            .collect(),
    }
}

fn vector(ty: SignatureToken) -> SignatureToken {
    SignatureToken::Vector(Box::new(ty))
}

fn reference(ty: SignatureToken) -> SignatureToken {
    SignatureToken::Reference(Box::new(ty))
}

fn instance(idx: u16, tys: Vec<SignatureToken>) -> SignatureToken {
    SignatureToken::DatatypeInstantiation(Box::new((DatatypeHandleIndex(idx), tys)))
}

fn handle(parameters: u16, return_: u16, type_parameters: Vec<AbilitySet>) -> FunctionHandle {
    FunctionHandle {
        parameters: SignatureIndex(parameters),
        return_: SignatureIndex(return_),
        type_parameters,
    }
}

fn struct_of(struct_handle: u16, tys: Vec<SignatureToken>) -> StructDefinition {
    StructDefinition {
        struct_handle: DatatypeHandleIndex(struct_handle),
        field_information: StructFieldInformation::Declared(fields(tys)),
    }
}

fn fields(tys: Vec<SignatureToken>) -> Vec<FieldDefinition> {
    tys.into_iter().map(|ty| FieldDefinition { signature: TypeSignature(ty) }).collect()
}

fn function(function: u16, locals: u16, code: Vec<Bytecode>) -> FunctionDefinition {
    FunctionDefinition {
        function: FunctionHandleIndex(function),
        code: Some(CodeUnit { locals: SignatureIndex(locals), code }),
    }
}

fn check(
    module: &CompiledModule,
    answers: Vec<PartialVMResult<AbilitySet>>,
) -> Option<VMResult<()>> {
    verify_module_with_answers(module, VecDeque::from(answers))
}

fn accepted() -> Option<VMResult<()>> {
    Some(Ok(()))
}

fn refused(
    major_status: StatusCode,
    message: &str,
    indices: Vec<(IndexKind, u16)>,
) -> Option<VMResult<()>> {
    Some(Err(VMError {
        error: PartialVMError { major_status, message: Some(message.to_string()), indices },
        location: Location::Module(self_id()),
    }))
}

const NO_REFERENCE: &str = "reference not allowed";

const NO_PHANTOM: &str = "phantom type parameter cannot be used in non-phantom position";

fn at_field(i: u16, struct_def: u16) -> Vec<(IndexKind, u16)> {
    vec![(IndexKind::FieldDefinition, i), (IndexKind::StructDefinition, struct_def)]
}

fn at_function(locals: u16, i: u16) -> Vec<(IndexKind, u16)> {
    vec![(IndexKind::Signature, locals), (IndexKind::FunctionDefinition, i)]
}

// ---- The signature pool ----

#[test]
fn the_empty_module_is_accepted() {
    assert_eq!(check(&module(), vec![]), accepted());
}

#[test]
fn references_around_whole_types_are_accepted() {
    let mut m = module();
    m.signatures = vec![
        Signature(vec![]),
        Signature(vec![
            reference(SignatureToken::U8),
            SignatureToken::MutableReference(Box::new(vector(SignatureToken::Address))),
            SignatureToken::Signer,
        ]),
    ];
    assert_eq!(check(&m, vec![]), accepted());
}

#[test]
fn references_inside_types_are_refused() {
    let inside = vec![
        reference(reference(SignatureToken::U8)),
        reference(SignatureToken::MutableReference(Box::new(SignatureToken::U8))),
        SignatureToken::MutableReference(Box::new(reference(SignatureToken::U8))),
        vector(reference(SignatureToken::U8)),
        vector(vector(SignatureToken::MutableReference(Box::new(SignatureToken::U8)))),
        instance(0, vec![SignatureToken::U8, reference(SignatureToken::U8)]),
        reference(instance(0, vec![vector(reference(SignatureToken::U8))])),
    ];
    for ty in inside {
        let mut m = module();
        m.signatures = vec![Signature(vec![]), Signature(vec![SignatureToken::Bool, ty])];
        assert_eq!(
            check(&m, vec![]),
            refused(StatusCode::INVALID_SIGNATURE_TOKEN, NO_REFERENCE, vec![])
        );
    }
}

#[test]
fn the_pool_is_checked_as_far_as_an_index_reaches() {
    let mut m = module();
    for _ in 0..65535 {
        m.signatures.push(Signature(vec![]));
    }
    m.signatures.push(Signature(vec![vector(SignatureToken::U8)]));
    m.signatures.push(Signature(vec![vector(reference(SignatureToken::U8))]));
    assert_eq!(m.signatures.len(), 65537);
    assert_eq!(check(&m, vec![]), accepted());
    m.signatures[65535] = Signature(vec![vector(reference(SignatureToken::U8))]);
    assert_eq!(
        check(&m, vec![]),
        refused(StatusCode::INVALID_SIGNATURE_TOKEN, NO_REFERENCE, vec![])
    );
}

// ---- Function handles ----

/// A module with a datatype that asks for `copy`, used as the parameter of the second function.
fn with_parameter(argument: SignatureToken) -> CompiledModule {
    let mut m = module();
    m.datatype_handles = vec![datatype(vec![copy()])];
    m.signatures = vec![Signature(vec![]), Signature(vec![instance(0, vec![argument])])];
    m.function_handles = vec![handle(0, 0, vec![]), handle(1, 0, vec![drop()])];
    m
}

#[test]
fn type_arguments_with_enough_abilities_are_accepted() {
    let m = with_parameter(SignatureToken::U64);
    assert_eq!(check(&m, vec![Ok(copy())]), accepted());
    assert_eq!(check(&m, vec![Ok(all())]), accepted());
}

#[test]
fn type_arguments_that_lack_an_ability_are_refused() {
    let m = with_parameter(vector(SignatureToken::TypeParameter(0)));
    assert_eq!(
        check(&m, vec![Ok(set(false, true, true, true))]),
        refused(
            StatusCode::CONSTRAINT_NOT_SATISFIED,
            "expected type with abilities [Copy, ] got type actual Vector(TypeParameter(0)) with \
             incompatible abilities [Drop, Store, Key, ]",
            vec![(IndexKind::Signature, 1), (IndexKind::FunctionHandle, 1)],
        )
    );
}

#[test]
fn the_wrong_number_of_type_arguments_is_refused() {
    let mut m = with_parameter(SignatureToken::U64);
    m.datatype_handles = vec![datatype(vec![copy(), drop()])];
    let places = vec![(IndexKind::Signature, 1), (IndexKind::FunctionHandle, 1)];
    assert_eq!(
        check(&m, vec![]),
        refused(
            StatusCode::NUMBER_OF_TYPE_ARGUMENTS_MISMATCH,
            "expected 2 type argument(s), got 1",
            places.clone(),
        )
    );
    m.datatype_handles = vec![datatype(vec![])];
    assert_eq!(
        check(&m, vec![]),
        refused(
            StatusCode::NUMBER_OF_TYPE_ARGUMENTS_MISMATCH,
            "expected 0 type argument(s), got 1",
            places,
        )
    );
}

#[test]
fn return_types_come_before_parameter_types() {
    let mut m = module();
    m.datatype_handles = vec![datatype(vec![copy()]), datatype(vec![drop()])];
    m.signatures = vec![
        Signature(vec![instance(0, vec![SignatureToken::U8])]),
        Signature(vec![instance(1, vec![SignatureToken::U16])]),
    ];
    m.function_handles = vec![handle(0, 1, vec![])];
    let places = vec![(IndexKind::Signature, 0), (IndexKind::FunctionHandle, 0)];
    assert_eq!(
        check(&m, vec![Ok(copy()), Ok(copy())]),
        refused(
            StatusCode::CONSTRAINT_NOT_SATISFIED,
            "expected type with abilities [Drop, ] got type actual U16 with incompatible \
             abilities [Copy, ]",
            places.clone(),
        )
    );
    assert_eq!(
        check(&m, vec![Ok(drop()), Ok(drop())]),
        refused(
            StatusCode::CONSTRAINT_NOT_SATISFIED,
            "expected type with abilities [Copy, ] got type actual U8 with incompatible \
             abilities [Drop, ]",
            places,
        )
    );
    assert_eq!(check(&m, vec![Ok(drop()), Ok(copy())]), accepted());
}

#[test]
fn positions_wrap_around_where_an_index_cannot_hold_them() {
    let mut m = module();
    m.datatype_handles = vec![datatype(vec![copy()])];
    m.signatures =
        vec![Signature(vec![]), Signature(vec![instance(0, vec![SignatureToken::U64])])];
    for _ in 0..65537 {
        m.function_handles.push(handle(0, 0, vec![]));
    }
    m.function_handles.push(handle(1, 0, vec![]));
    assert_eq!(
        check(&m, vec![Ok(none())]),
        refused(
            StatusCode::CONSTRAINT_NOT_SATISFIED,
            "expected type with abilities [Copy, ] got type actual U64 with incompatible \
             abilities []",
            vec![(IndexKind::Signature, 1), (IndexKind::FunctionHandle, 1)],
        )
    );
}

// ---- Versions ----

#[test]
fn types_inside_types_are_checked_from_version_6_on() {
    let mut m = with_parameter(SignatureToken::U64);
    m.signatures[1] = Signature(vec![vector(instance(0, vec![SignatureToken::U64]))]);
    for version in [0, 5] {
        m.version = version;
        assert_eq!(check(&m, vec![]), accepted());
    }
    for version in [6, 7, u32::MAX] {
        m.version = version;
        assert_eq!(check(&m, vec![]), None);
        assert_eq!(check(&m, vec![Ok(copy())]), accepted());
        assert!(matches!(check(&m, vec![Ok(drop())]), Some(Err(_))));
    }
}

#[test]
fn the_type_itself_is_checked_in_every_version() {
    let mut m = with_parameter(SignatureToken::U64);
    for version in [0, 5, 6] {
        m.version = version;
        assert_eq!(check(&m, vec![]), None);
        assert_eq!(check(&m, vec![Ok(copy())]), accepted());
        assert!(matches!(check(&m, vec![Ok(drop())]), Some(Err(_))));
    }
}

// ---- Fields of structs ----

#[test]
fn references_in_fields_are_refused() {
    for ty in [reference(SignatureToken::U8), vector(reference(SignatureToken::U8))] {
        let mut m = module();
        m.datatype_handles = vec![datatype(vec![])];
        m.struct_defs = vec![struct_of(0, vec![]), struct_of(0, vec![SignatureToken::U8, ty])];
        assert_eq!(
            check(&m, vec![]),
            refused(StatusCode::INVALID_SIGNATURE_TOKEN, NO_REFERENCE, at_field(1, 1))
        );
    }
}

#[test]
fn fields_are_checked_against_the_constraints_of_the_types_they_use() {
    let mut m = module();
    m.datatype_handles = vec![datatype(vec![drop()]), datatype(vec![copy()])];
    m.struct_defs =
        vec![struct_of(0, vec![instance(1, vec![SignatureToken::TypeParameter(0)])])];
    assert_eq!(check(&m, vec![Ok(copy())]), accepted());
    assert_eq!(
        check(&m, vec![Ok(drop())]),
        refused(
            StatusCode::CONSTRAINT_NOT_SATISFIED,
            "expected type with abilities [Copy, ] got type actual TypeParameter(0) with \
             incompatible abilities [Drop, ]",
            at_field(0, 0),
        )
    );
}

#[test]
fn native_structs_have_no_fields_to_check() {
    let mut m = module();
    m.struct_defs = vec![StructDefinition {
        struct_handle: DatatypeHandleIndex(9),
        field_information: StructFieldInformation::Native,
    }];
    assert_eq!(check(&m, vec![]), accepted());
}

#[test]
fn phantom_parameters_outside_phantom_position_are_refused() {
    let uses = vec![
        SignatureToken::TypeParameter(1),
        vector(SignatureToken::TypeParameter(1)),
        instance(1, vec![SignatureToken::TypeParameter(1), SignatureToken::U8]),
        instance(1, vec![SignatureToken::U8, vector(SignatureToken::TypeParameter(1))]),
        instance(
            1,
            vec![
                SignatureToken::U8,
                instance(1, vec![SignatureToken::TypeParameter(1), SignatureToken::U8]),
            ],
        ),
    ];
    for ty in uses {
        let mut m = module();
        m.datatype_handles = vec![phantoms(vec![false, true]), phantoms(vec![false, true])];
        m.struct_defs = vec![struct_of(0, vec![ty])];
        assert_eq!(
            check(&m, vec![Ok(none()), Ok(none()), Ok(none()), Ok(none())]),
            refused(
                StatusCode::INVALID_PHANTOM_TYPE_PARAM_POSITION,
                NO_PHANTOM,
                at_field(0, 0),
            )
        );
    }
}

#[test]
fn phantom_parameters_in_phantom_position_are_accepted() {
    let uses = vec![
        SignatureToken::TypeParameter(0),
        vector(SignatureToken::TypeParameter(0)),
        instance(1, vec![SignatureToken::TypeParameter(0), SignatureToken::TypeParameter(1)]),
        instance(
            1,
            vec![
                SignatureToken::U8,
                instance(1, vec![SignatureToken::U8, SignatureToken::TypeParameter(1)]),
            ],
        ),
    ];
    for ty in uses {
        let mut m = module();
        m.datatype_handles = vec![phantoms(vec![false, true]), phantoms(vec![false, true])];
        m.struct_defs = vec![struct_of(0, vec![ty])];
        assert_eq!(check(&m, vec![Ok(none()), Ok(none()), Ok(none()), Ok(none())]), accepted());
    }
}

#[test]
fn fields_are_checked_for_references_then_abilities_then_phantoms() {
    let mut m = module();
    m.datatype_handles = vec![phantoms(vec![true]), datatype(vec![copy(), none()])];
    m.struct_defs = vec![struct_of(
        0,
        vec![instance(1, vec![SignatureToken::TypeParameter(0), reference(SignatureToken::U8)])],
    )];
    assert_eq!(
        check(&m, vec![]),
        refused(StatusCode::INVALID_SIGNATURE_TOKEN, NO_REFERENCE, at_field(0, 0))
    );
    m.struct_defs = vec![struct_of(
        0,
        vec![instance(1, vec![SignatureToken::TypeParameter(0), SignatureToken::U8])],
    )];
    assert_eq!(
        check(&m, vec![Ok(none())]),
        refused(
            StatusCode::CONSTRAINT_NOT_SATISFIED,
            "expected type with abilities [Copy, ] got type actual TypeParameter(0) with \
             incompatible abilities []",
            at_field(0, 0),
        )
    );
    assert_eq!(
        check(&m, vec![Ok(all()), Ok(all())]),
        refused(StatusCode::INVALID_PHANTOM_TYPE_PARAM_POSITION, NO_PHANTOM, at_field(0, 0))
    );
}

// ---- Fields of enums ----

/// A module whose second enum has a second variant with the type as its third field.
fn with_variant(ty: SignatureToken) -> CompiledModule {
    let mut m = module();
    m.datatype_handles = vec![phantoms(vec![true]), datatype(vec![copy()])];
    m.enum_defs = vec![
        EnumDefinition { enum_handle: DatatypeHandleIndex(0), variants: vec![] },
        EnumDefinition {
            enum_handle: DatatypeHandleIndex(0),
            variants: vec![
                VariantDefinition { fields: fields(vec![SignatureToken::U8]) },
                VariantDefinition {
                    fields: fields(vec![SignatureToken::U8, SignatureToken::U16, ty]),
                },
            ],
        },
    ];
    m
}

#[test]
fn fields_of_enums_are_checked_like_those_of_structs() {
    let places = vec![
        (IndexKind::FieldDefinition, 2),
        (IndexKind::VariantTag, 1),
        (IndexKind::EnumDefinition, 1),
    ];
    assert_eq!(check(&with_variant(SignatureToken::U8), vec![]), accepted());
    assert_eq!(
        check(&with_variant(reference(SignatureToken::U8)), vec![]),
        refused(StatusCode::INVALID_SIGNATURE_TOKEN, NO_REFERENCE, places.clone())
    );
    assert_eq!(
        check(&with_variant(SignatureToken::TypeParameter(0)), vec![]),
        refused(StatusCode::INVALID_PHANTOM_TYPE_PARAM_POSITION, NO_PHANTOM, places.clone())
    );
    let generic = with_variant(instance(1, vec![SignatureToken::Bool]));
    assert_eq!(check(&generic, vec![Ok(copy())]), accepted());
    assert_eq!(
        check(&generic, vec![Ok(drop())]),
        refused(
            StatusCode::CONSTRAINT_NOT_SATISFIED,
            "expected type with abilities [Copy, ] got type actual Bool with incompatible \
             abilities [Drop, ]",
            places.clone(),
        )
    );
    assert_eq!(
        check(&with_variant(instance(1, vec![])), vec![]),
        refused(
            StatusCode::NUMBER_OF_TYPE_ARGUMENTS_MISMATCH,
            "expected 1 type argument(s), got 0",
            places,
        )
    );
}

// ---- Code ----

/// A module with one of each generic thing, all of them asking for `copy`, whose second function
/// has the instruction at offset 2. The type arguments of generic things are those of the third
/// signature.
fn with_instruction(instr: Bytecode, type_arguments: Vec<SignatureToken>) -> CompiledModule {
    let mut m = module();
    m.datatype_handles = vec![datatype(vec![copy()])];
    m.signatures = vec![Signature(vec![]), Signature(vec![]), Signature(type_arguments)];
    m.function_handles = vec![handle(0, 0, vec![]), handle(0, 0, vec![copy()])];
    m.struct_defs = vec![struct_of(0, vec![])];
    m.enum_defs =
        vec![EnumDefinition { enum_handle: DatatypeHandleIndex(0), variants: vec![] }];
    m.field_handles = vec![FieldHandle { owner: StructDefinitionIndex(0) }];
    m.function_instantiations = vec![FunctionInstantiation {
        handle: FunctionHandleIndex(1),
        type_parameters: SignatureIndex(2),
    }];
    m.struct_def_instantiations = vec![StructDefInstantiation {
        def: StructDefinitionIndex(0),
        type_parameters: SignatureIndex(2),
    }];
    m.field_instantiations = vec![FieldInstantiation {
        handle: FieldHandleIndex(0),
        type_parameters: SignatureIndex(2),
    }];
    m.enum_def_instantiations = vec![EnumDefInstantiation {
        def: EnumDefinitionIndex(0),
        type_parameters: SignatureIndex(2),
    }];
    m.variant_instantiation_handles =
        vec![VariantInstantiationHandle { enum_def: EnumDefInstantiationIndex(0) }];
    m.function_defs = vec![
        FunctionDefinition { function: FunctionHandleIndex(0), code: None },
        function(0, 1, vec![Bytecode::Nop, Bytecode::LdTrue, instr, Bytecode::Ret]),
    ];
    m
}

fn generic_instructions() -> Vec<Bytecode> {
    vec![
        Bytecode::CallGeneric(FunctionInstantiationIndex(0)),
        Bytecode::PackGeneric(StructDefInstantiationIndex(0)),
        Bytecode::UnpackGeneric(StructDefInstantiationIndex(0)),
        Bytecode::ExistsGenericDeprecated(StructDefInstantiationIndex(0)),
        Bytecode::MoveFromGenericDeprecated(StructDefInstantiationIndex(0)),
        Bytecode::MoveToGenericDeprecated(StructDefInstantiationIndex(0)),
        Bytecode::ImmBorrowGlobalGenericDeprecated(StructDefInstantiationIndex(0)),
        Bytecode::MutBorrowGlobalGenericDeprecated(StructDefInstantiationIndex(0)),
        Bytecode::ImmBorrowFieldGeneric(FieldInstantiationIndex(0)),
        Bytecode::MutBorrowFieldGeneric(FieldInstantiationIndex(0)),
        Bytecode::PackVariantGeneric(VariantInstantiationHandleIndex(0)),
        Bytecode::UnpackVariantGeneric(VariantInstantiationHandleIndex(0)),
        Bytecode::UnpackVariantGenericImmRef(VariantInstantiationHandleIndex(0)),
        Bytecode::UnpackVariantGenericMutRef(VariantInstantiationHandleIndex(0)),
    ]
}

fn vector_instructions() -> Vec<Bytecode> {
    vec![
        Bytecode::VecPack(SignatureIndex(2), 3),
        Bytecode::VecLen(SignatureIndex(2)),
        Bytecode::VecImmBorrow(SignatureIndex(2)),
        Bytecode::VecMutBorrow(SignatureIndex(2)),
        Bytecode::VecPushBack(SignatureIndex(2)),
        Bytecode::VecPopBack(SignatureIndex(2)),
        Bytecode::VecUnpack(SignatureIndex(2), 3),
        Bytecode::VecSwap(SignatureIndex(2)),
    ]
}

fn plain_instructions() -> Vec<Bytecode> {
    vec![
        Bytecode::Pop,
        Bytecode::Ret,
        Bytecode::Branch(0),
        Bytecode::BrTrue(0),
        Bytecode::BrFalse(0),
        Bytecode::LdU8(0),
        Bytecode::LdU16(0),
        Bytecode::LdU32(0),
        Bytecode::LdU64(0),
        Bytecode::LdU128(Box::new(0)),
        Bytecode::LdU256(Box::new([0; 32])),
        Bytecode::LdConst(ConstantPoolIndex(9)),
        Bytecode::CastU8,
        Bytecode::CastU16,
        Bytecode::CastU32,
        Bytecode::CastU64,
        Bytecode::CastU128,
        Bytecode::CastU256,
        Bytecode::LdTrue,
        Bytecode::LdFalse,
        Bytecode::Call(FunctionHandleIndex(9)),
        Bytecode::Pack(StructDefinitionIndex(9)),
        Bytecode::Unpack(StructDefinitionIndex(9)),
        Bytecode::ReadRef,
        Bytecode::WriteRef,
        Bytecode::FreezeRef,
        Bytecode::Add,
        Bytecode::Sub,
        Bytecode::Mul,
        Bytecode::Mod,
        Bytecode::Div,
        Bytecode::BitOr,
        Bytecode::BitAnd,
        Bytecode::Xor,
        Bytecode::Shl,
        Bytecode::Shr,
        Bytecode::Or,
        Bytecode::And,
        Bytecode::Not,
        Bytecode::Eq,
        Bytecode::Neq,
        Bytecode::Lt,
        Bytecode::Gt,
        Bytecode::Le,
        Bytecode::Ge,
        Bytecode::CopyLoc(9),
        Bytecode::MoveLoc(9),
        Bytecode::StLoc(9),
        Bytecode::MutBorrowLoc(9),
        Bytecode::ImmBorrowLoc(9),
        Bytecode::MutBorrowField(FieldHandleIndex(9)),
        Bytecode::ImmBorrowField(FieldHandleIndex(9)),
        Bytecode::MutBorrowGlobalDeprecated(StructDefinitionIndex(9)),
        Bytecode::ImmBorrowGlobalDeprecated(StructDefinitionIndex(9)),
        Bytecode::ExistsDeprecated(StructDefinitionIndex(9)),
        Bytecode::MoveToDeprecated(StructDefinitionIndex(9)),
        Bytecode::MoveFromDeprecated(StructDefinitionIndex(9)),
        Bytecode::Abort,
        Bytecode::Nop,
        Bytecode::VariantSwitch(VariantJumpTableIndex(9)),
        Bytecode::PackVariant(VariantHandleIndex(9)),
        Bytecode::UnpackVariant(VariantHandleIndex(9)),
        Bytecode::UnpackVariantImmRef(VariantHandleIndex(9)),
        Bytecode::UnpackVariantMutRef(VariantHandleIndex(9)),
    ]
}

#[test]
fn instructions_without_type_arguments_are_accepted() {
    for instr in plain_instructions() {
        assert_eq!(check(&with_instruction(instr, vec![]), vec![]), accepted());
    }
}

#[test]
fn generic_instructions_with_fitting_type_arguments_are_accepted() {
    for instr in generic_instructions() {
        let m = with_instruction(instr, vec![vector(SignatureToken::U8)]);
        assert_eq!(check(&m, vec![]), None);
        assert_eq!(check(&m, vec![Ok(copy())]), accepted());
    }
}

#[test]
fn generic_instructions_whose_type_argument_lacks_an_ability_are_refused() {
    for instr in generic_instructions() {
        let m = with_instruction(instr, vec![vector(SignatureToken::U8)]);
        assert_eq!(
            check(&m, vec![Ok(drop())]),
            refused(
                StatusCode::CONSTRAINT_NOT_SATISFIED,
                "expected type with abilities [Copy, ] got type actual Vector(U8) with \
                 incompatible abilities [Drop, ] at offset 2 ",
                at_function(1, 1),
            )
        );
    }
}

#[test]
fn generic_instructions_with_the_wrong_number_of_type_arguments_are_refused() {
    for instr in generic_instructions() {
        let m = with_instruction(instr, vec![SignatureToken::U8, SignatureToken::U16]);
        assert_eq!(
            check(&m, vec![]),
            refused(
                StatusCode::NUMBER_OF_TYPE_ARGUMENTS_MISMATCH,
                "expected 1 type argument(s), got 2 at offset 2 ",
                at_function(1, 1),
            )
        );
    }
}

#[test]
fn generic_instructions_with_a_reference_are_refused_without_their_offset() {
    for instr in generic_instructions() {
        let m = with_instruction(instr, vec![reference(SignatureToken::U8)]);
        assert_eq!(
            check(&m, vec![]),
            refused(StatusCode::INVALID_SIGNATURE_TOKEN, NO_REFERENCE, at_function(1, 1))
        );
    }
}

#[test]
fn vector_instructions_ask_for_no_abilities() {
    for instr in vector_instructions() {
        let m = with_instruction(instr, vec![instance(0, vec![SignatureToken::U8])]);
        assert_eq!(check(&m, vec![]), accepted());
    }
}

#[test]
fn vector_instructions_with_a_reference_are_refused_with_their_offset() {
    for instr in vector_instructions() {
        let m = with_instruction(instr, vec![reference(SignatureToken::U8)]);
        assert_eq!(
            check(&m, vec![]),
            refused(
                StatusCode::INVALID_SIGNATURE_TOKEN,
                "reference not allowed at offset 2 ",
                at_function(1, 1),
            )
        );
    }
}

#[test]
fn vector_instructions_without_one_element_type_are_refused_without_their_offset() {
    for instr in vector_instructions() {
        let m = with_instruction(instr, vec![]);
        assert_eq!(
            check(&m, vec![]),
            refused(
                StatusCode::NUMBER_OF_TYPE_ARGUMENTS_MISMATCH,
                "expected 1 type token for vector operations, got 0",
                at_function(1, 1),
            )
        );
    }
    for instr in vector_instructions() {
        let m = with_instruction(instr, vec![reference(SignatureToken::U8), SignatureToken::U8]);
        assert_eq!(
            check(&m, vec![]),
            refused(
                StatusCode::NUMBER_OF_TYPE_ARGUMENTS_MISMATCH,
                "expected 1 type token for vector operations, got 2",
                at_function(1, 1),
            )
        );
    }
}

#[test]
fn local_variables_are_checked_before_instructions() {
    let mut m = with_instruction(Bytecode::VecLen(SignatureIndex(0)), vec![]);
    m.signatures[1] = Signature(vec![SignatureToken::U8, instance(0, vec![SignatureToken::Bool])]);
    assert_eq!(
        check(&m, vec![Ok(none())]),
        refused(
            StatusCode::CONSTRAINT_NOT_SATISFIED,
            "expected type with abilities [Copy, ] got type actual Bool with incompatible \
             abilities []",
            at_function(1, 1),
        )
    );
    assert_eq!(
        check(&m, vec![Ok(all())]),
        refused(
            StatusCode::NUMBER_OF_TYPE_ARGUMENTS_MISMATCH,
            "expected 1 type token for vector operations, got 0",
            at_function(1, 1),
        )
    );
}

#[test]
fn native_functions_have_no_code_to_check() {
    let mut m = module();
    m.function_defs = vec![FunctionDefinition { function: FunctionHandleIndex(9), code: None }];
    assert_eq!(check(&m, vec![]), accepted());
}

// ---- Errors of the ability cache ----

#[test]
fn errors_of_the_ability_cache_are_passed_on_with_places() {
    let m = with_parameter(SignatureToken::U64);
    let given = PartialVMError::new(StatusCode::OTHER(1234))
        .with_message("too costly".to_string())
        .at_index(IndexKind::StructDefinition, 40);
    assert_eq!(
        check(&m, vec![Err(given)]),
        refused(
            StatusCode::OTHER(1234),
            "too costly",
            vec![
                (IndexKind::StructDefinition, 40),
                (IndexKind::Signature, 1),
                (IndexKind::FunctionHandle, 1),
            ],
        )
    );
}

#[test]
fn errors_of_the_ability_cache_at_an_instruction_name_the_offset() {
    let cases = [
        (PartialVMError::new(StatusCode::OTHER(1)), "at offset 2 "),
        (
            PartialVMError::new(StatusCode::OTHER(1)).with_message(String::new()),
            "at offset 2 ",
        ),
        (
            PartialVMError::new(StatusCode::OTHER(1)).with_message("too costly".to_string()),
            "too costly at offset 2 ",
        ),
    ];
    for (given, message) in cases {
        let m = with_instruction(
            Bytecode::CallGeneric(FunctionInstantiationIndex(0)),
            vec![SignatureToken::U8],
        );
        assert_eq!(
            check(&m, vec![Err(given)]),
            refused(StatusCode::OTHER(1), message, at_function(1, 1))
        );
    }
}

#[test]
fn an_error_of_the_ability_cache_may_have_no_message() {
    let m = with_parameter(SignatureToken::U64);
    assert_eq!(
        check(&m, vec![Err(PartialVMError::new(StatusCode::OTHER(2)))]),
        Some(Err(VMError {
            error: PartialVMError {
                major_status: StatusCode::OTHER(2),
                message: None,
                indices: vec![(IndexKind::Signature, 1), (IndexKind::FunctionHandle, 1)],
            },
            location: Location::Module(self_id()),
        }))
    );
}

#[test]
fn answers_that_are_not_asked_for_do_not_matter() {
    let m = with_parameter(SignatureToken::U64);
    assert_eq!(check(&m, vec![Ok(copy()), Ok(none())]), accepted());
    let err = PartialVMError::new(StatusCode::OTHER(3));
    assert_eq!(check(&m, vec![Ok(copy()), Err(err)]), accepted());
}
