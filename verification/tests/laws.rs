//! What holds of every check, on examples, and what an ability cache is asked.

use std::collections::VecDeque;

use move_signature_checker::abilities::AbilitySet;
use move_signature_checker::ability_cache::{AbilityCache, Scope};
use move_signature_checker::errors::{
    IndexKind, Location, ModuleId, PartialVMError, PartialVMResult, StatusCode, VMError, VMResult,
};
use move_signature_checker::file_format::{
    Bytecode, CodeUnit, CompiledModule, DatatypeHandle, DatatypeHandleIndex, DatatypeTyParameter,
    EnumDefinition, FieldDefinition, FunctionDefinition, FunctionHandle, FunctionHandleIndex,
    FunctionInstantiation, FunctionInstantiationIndex, Signature, SignatureIndex, SignatureToken,
    StructDefinition, StructFieldInformation, TypeSignature, VariantDefinition,
};
use move_signature_checker::signature::{verify_module_with_answers, SignatureChecker};

fn set(copy: bool, drop: bool, store: bool, key: bool) -> AbilitySet {
    AbilitySet { copy, drop, store, key }
}

fn none() -> AbilitySet {
    set(false, false, false, false)
}

fn copy() -> AbilitySet {
    set(true, false, false, false)
}

fn drop() -> AbilitySet {
    set(false, true, false, false)
}

fn all() -> AbilitySet {
    set(true, true, true, true)
}

fn self_id() -> ModuleId {
    ModuleId { address: [0xA; 32], name: "example".to_string() }
}

/// A module of version 6 with nothing in it.
fn module() -> CompiledModule {
    CompiledModule {
        version: 6,
        self_id: self_id(),
        datatype_handles: vec![],
        function_handles: vec![],
        field_handles: vec![],
        function_instantiations: vec![],
        struct_def_instantiations: vec![],
        field_instantiations: vec![],
        enum_def_instantiations: vec![],
        variant_instantiation_handles: vec![],
        signatures: vec![],
        struct_defs: vec![],
        enum_defs: vec![],
        function_defs: vec![],
    }
}

/// A datatype whose type parameters are not phantom.
fn datatype(constraints: Vec<AbilitySet>) -> DatatypeHandle {
    DatatypeHandle {
        type_parameters: constraints
            .into_iter()
            .map(|constraints| DatatypeTyParameter { constraints, is_phantom: false })
            .collect(),
    }
}

/// A datatype whose type parameters ask for nothing and are phantom as told.
fn phantoms(are_phantom: Vec<bool>) -> DatatypeHandle {
    DatatypeHandle {
        type_parameters: are_phantom
            .into_iter()
            .map(|is_phantom| DatatypeTyParameter { constraints: none(), is_phantom })
            .collect(),
    }
}

fn vector(ty: SignatureToken) -> SignatureToken {
    SignatureToken::Vector(Box::new(ty))
}

fn reference(ty: SignatureToken) -> SignatureToken {
    SignatureToken::Reference(Box::new(ty))
}

fn instance(idx: u16, tys: Vec<SignatureToken>) -> SignatureToken {
    SignatureToken::DatatypeInstantiation(Box::new((DatatypeHandleIndex(idx), tys)))
}

fn handle(parameters: u16, return_: u16, type_parameters: Vec<AbilitySet>) -> FunctionHandle {
    FunctionHandle {
        parameters: SignatureIndex(parameters),
        return_: SignatureIndex(return_),
        type_parameters,
    }
}

fn struct_of(struct_handle: u16, tys: Vec<SignatureToken>) -> StructDefinition {
    StructDefinition {
        struct_handle: DatatypeHandleIndex(struct_handle),
        field_information: StructFieldInformation::Declared(fields(tys)),
    }
}

fn fields(tys: Vec<SignatureToken>) -> Vec<FieldDefinition> {
    tys.into_iter().map(|ty| FieldDefinition { signature: TypeSignature(ty) }).collect()
}

fn function(function: u16, locals: u16, code: Vec<Bytecode>) -> FunctionDefinition {
    FunctionDefinition {
        function: FunctionHandleIndex(function),
        code: Some(CodeUnit { locals: SignatureIndex(locals), code }),
    }
}

fn check(
    module: &CompiledModule,
    answers: Vec<PartialVMResult<AbilitySet>>,
) -> Option<VMResult<()>> {
    verify_module_with_answers(module, VecDeque::from(answers))
}

fn accepted() -> Option<VMResult<()>> {
    Some(Ok(()))
}

fn refused(
    major_status: StatusCode,
    message: &str,
    indices: Vec<(IndexKind, u16)>,
) -> Option<VMResult<()>> {
    Some(Err(VMError {
        error: PartialVMError { major_status, message: Some(message.to_string()), indices },
        location: Location::Module(self_id()),
    }))
}

/// An ability cache that grants what a type is made of allows, and keeps a record of what it was
/// asked.
struct Recorder {
    asked: Vec<(Scope, Vec<AbilitySet>, String)>,
}

fn text_of(ty: &SignatureToken) -> String {
    let mut out = String::new();
    ty.push_text(&mut out);
    out
}

/// Numbers may be copied and dropped, a type parameter does what it was declared with, a vector
/// what its elements do, and other types nothing.
fn abilities_of(type_parameters: &[AbilitySet], ty: &SignatureToken) -> AbilitySet {
    match ty {
        SignatureToken::U8 | SignatureToken::U16 | SignatureToken::U64 => {
            set(true, true, false, false)
        }
        SignatureToken::TypeParameter(idx) => type_parameters[*idx as usize],
        SignatureToken::Vector(inner) => abilities_of(type_parameters, inner),
        _ => none(),
    }
}

impl AbilityCache<u64> for Recorder {
    fn abilities(
        &mut self,
        scope: Scope,
        meter: &mut u64,
        type_parameter_abilities: &[AbilitySet],
        ty: &SignatureToken,
    ) -> PartialVMResult<AbilitySet> {
        self.asked.push((scope, type_parameter_abilities.to_vec(), text_of(ty)));
        if *meter == 0 {
            return Err(PartialVMError::new(StatusCode::OTHER(4016)));
        }
        *meter -= 1;
        Ok(abilities_of(type_parameter_abilities, ty))
    }
}

/// Checks the module; says what was asked, and what is left of the budget.
fn record(m: &CompiledModule, budget: u64) -> (VMResult<()>, Vec<String>, u64) {
    let mut cache = Recorder { asked: vec![] };
    let mut meter = budget;
    let res = SignatureChecker::verify_module(m, &mut cache, &mut meter);
    (res, cache.asked.into_iter().map(|(_, _, text)| text).collect(), meter)
}

/// A module with generic things all over, all of which fit.
fn busy() -> CompiledModule {
    let mut m = module();
    m.datatype_handles = vec![datatype(vec![copy()]), datatype(vec![copy(), drop()])];
    m.signatures = vec![
        Signature(vec![]),
        Signature(vec![instance(0, vec![SignatureToken::U8])]),
        Signature(vec![reference(instance(
            1,
            vec![SignatureToken::TypeParameter(0), SignatureToken::U16],
        ))]),
        Signature(vec![SignatureToken::TypeParameter(0)]),
    ];
    m.function_handles = vec![handle(2, 1, vec![copy()]), handle(1, 0, vec![])];
    m.struct_defs = vec![struct_of(0, vec![instance(0, vec![SignatureToken::U64])])];
    m.enum_defs = vec![EnumDefinition {
        enum_handle: DatatypeHandleIndex(0),
        variants: vec![VariantDefinition {
            fields: fields(vec![instance(0, vec![vector(SignatureToken::TypeParameter(0))])]),
        }],
    }];
    m.function_instantiations = vec![FunctionInstantiation {
        handle: FunctionHandleIndex(0),
        type_parameters: SignatureIndex(3),
    }];
    m.function_defs = vec![
        function(0, 1, vec![Bytecode::CallGeneric(FunctionInstantiationIndex(0)), Bytecode::Ret]),
        function(1, 1, vec![Bytecode::Ret]),
    ];
    m
}

#[test]
fn questions_come_in_the_order_of_the_module() {
    let (res, asked, left) = record(&busy(), 100);
    assert_eq!(res, Ok(()));
    assert_eq!(
        asked,
        vec![
            "U8",
            "TypeParameter(0)",
            "U16",
            "U8",
            "U64",
            "Vector(TypeParameter(0))",
            "TypeParameter(0)",
        ]
    );
    assert_eq!(left, 93);
}

#[test]
fn questions_are_charged_to_the_module_and_say_what_type_parameters_can_do() {
    let mut cache = Recorder { asked: vec![] };
    let mut meter = 100u64;
    let m = busy();
    assert_eq!(SignatureChecker::verify_module(&m, &mut cache, &mut meter), Ok(()));
    assert!(cache.asked.iter().all(|(scope, _, _)| *scope == Scope::Module));
    let contexts: Vec<Vec<AbilitySet>> =
        cache.asked.into_iter().map(|(_, context, _)| context).collect();
    assert_eq!(
        contexts,
        vec![
            vec![copy()],
            vec![copy()],
            vec![copy()],
            vec![],
            vec![copy()],
            vec![copy()],
            vec![copy()],
        ]
    );
}

#[test]
fn every_requirement_of_an_accepted_module_is_asked_for() {
    let m = busy();
    let granted = all();
    for n in 0..7 {
        assert_eq!(check(&m, (0..n).map(|_| Ok(granted)).collect()), None);
    }
    assert_eq!(check(&m, (0..7).map(|_| Ok(granted)).collect()), accepted());
    for bad in 0..7 {
        let answers = (0..7).map(|i| Ok(if i == bad { none() } else { granted })).collect();
        assert!(matches!(check(&m, answers), Some(Err(_))));
    }
}

#[test]
fn the_same_answers_give_the_same_outcome() {
    let m = busy();
    assert_eq!(record(&m, 100), record(&m, 100));
    let (res, asked, left) = record(&m, 3);
    assert_eq!(left, 0);
    assert_eq!(asked, vec!["U8", "TypeParameter(0)", "U16", "U8"]);
    let answers = vec![
        Ok(set(true, true, false, false)),
        Ok(copy()),
        Ok(set(true, true, false, false)),
        Err(PartialVMError::new(StatusCode::OTHER(4016))),
    ];
    assert_eq!(check(&m, answers), Some(res));
}

#[test]
fn a_module_that_fits_is_accepted_and_one_that_does_not_is_not() {
    assert_eq!(record(&busy(), 100).0, Ok(()));
    let mut m = busy();
    m.function_handles[0].type_parameters = vec![drop()];
    assert_eq!(
        record(&m, 100).0,
        Err(VMError {
            error: PartialVMError {
                major_status: StatusCode::CONSTRAINT_NOT_SATISFIED,
                message: Some(
                    "expected type with abilities [Copy, ] got type actual TypeParameter(0) with \
                     incompatible abilities [Drop, ]"
                        .to_string()
                ),
                indices: vec![(IndexKind::Signature, 0), (IndexKind::FunctionHandle, 0)],
            },
            location: Location::Module(self_id()),
        })
    );
}

#[test]
fn a_signature_is_asked_about_once_for_each_list_of_type_parameters() {
    let mut m = module();
    m.datatype_handles = vec![datatype(vec![copy()])];
    m.signatures = vec![Signature(vec![instance(0, vec![SignatureToken::U8])])];
    m.function_handles = vec![
        handle(0, 0, vec![]),
        handle(0, 0, vec![]),
        handle(0, 0, vec![copy()]),
        handle(0, 0, vec![drop()]),
        handle(0, 0, vec![copy()]),
    ];
    m.function_defs = vec![function(0, 0, vec![]), function(3, 0, vec![])];
    let (res, asked, _) = record(&m, 100);
    assert_eq!(res, Ok(()));
    assert_eq!(asked, vec!["U8", "U8", "U8"]);
}

#[test]
fn remembering_changes_no_outcome() {
    let mut m = busy();
    let once = record(&m, 100).0;
    // The same signatures under other indices are asked about again, to the same effect.
    m.signatures.push(Signature(vec![instance(0, vec![SignatureToken::U8])]));
    m.function_handles[1].parameters = SignatureIndex(4);
    m.function_defs[0] = function(0, 4, vec![]);
    let (again, asked, _) = record(&m, 100);
    assert_eq!(again, once);
    assert_eq!(asked[asked.len() - 2..], ["U8".to_string(), "U8".to_string()]);
}

#[test]
fn a_cache_that_gives_up_does_not_get_a_module_accepted() {
    for budget in 0..7 {
        let (res, asked, left) = record(&busy(), budget);
        assert_eq!(res.unwrap_err().error.major_status, StatusCode::OTHER(4016));
        assert_eq!(asked.len() as u64, budget + 1);
        assert_eq!(left, 0);
    }
    assert_eq!(record(&busy(), 7).0, Ok(()));
}

#[test]
fn misplaced_references_are_refused_unasked() {
    let mut m = busy();
    m.signatures.push(Signature(vec![vector(reference(SignatureToken::U8))]));
    let (res, asked, left) = record(&m, 100);
    assert_eq!(Some(res), refused(
        StatusCode::INVALID_SIGNATURE_TOKEN,
        "reference not allowed",
        vec![],
    ));
    assert_eq!(asked, Vec::<String>::new());
    assert_eq!(left, 100);
}

#[test]
fn whatever_the_cache_says_references_stay_out_of_fields() {
    let mut m = busy();
    m.struct_defs.push(struct_of(0, vec![instance(0, vec![reference(SignatureToken::U8)])]));
    assert_eq!(
        check(&m, (0..7).map(|_| Ok(all())).collect()),
        refused(
            StatusCode::INVALID_SIGNATURE_TOKEN,
            "reference not allowed",
            vec![(IndexKind::FieldDefinition, 0), (IndexKind::StructDefinition, 1)],
        )
    );
}

#[test]
fn whatever_the_cache_says_phantoms_stay_in_phantom_position() {
    let mut m = busy();
    m.datatype_handles.push(phantoms(vec![true]));
    m.struct_defs.push(struct_of(2, vec![vector(SignatureToken::TypeParameter(0))]));
    assert_eq!(
        check(&m, (0..7).map(|_| Ok(all())).collect()),
        refused(
            StatusCode::INVALID_PHANTOM_TYPE_PARAM_POSITION,
            "phantom type parameter cannot be used in non-phantom position",
            vec![(IndexKind::FieldDefinition, 0), (IndexKind::StructDefinition, 1)],
        )
    );
}

#[test]
fn whatever_the_cache_says_instructions_need_their_type_arguments() {
    let mut m = busy();
    m.function_instantiations[0].type_parameters = SignatureIndex(0);
    assert_eq!(
        check(&m, (0..7).map(|_| Ok(all())).collect()),
        refused(
            StatusCode::NUMBER_OF_TYPE_ARGUMENTS_MISMATCH,
            "expected 1 type argument(s), got 0 at offset 0 ",
            vec![(IndexKind::Signature, 1), (IndexKind::FunctionDefinition, 0)],
        )
    );
}

#[test]
fn a_module_accepted_in_version_6_is_accepted_in_earlier_ones() {
    let mut m = busy();
    assert_eq!(record(&m, 100).0, Ok(()));
    for version in 0..8 {
        m.version = version;
        assert_eq!(record(&m, 100).0, Ok(()));
    }
}

#[test]
fn a_module_accepted_in_version_5_may_be_refused_in_version_6() {
    let mut m = busy();
    m.signatures[1] = Signature(vec![vector(instance(0, vec![SignatureToken::Signer]))]);
    m.version = 5;
    assert_eq!(record(&m, 100).0, Ok(()));
    m.version = 6;
    assert_eq!(
        record(&m, 100).0.unwrap_err().error.major_status,
        StatusCode::CONSTRAINT_NOT_SATISFIED
    );
}

#[test]
fn a_dangling_index_behind_a_refusal_is_not_followed() {
    let mut m = busy();
    m.signatures[0] = Signature(vec![vector(reference(SignatureToken::U8))]);
    m.struct_defs.push(struct_of(77, vec![SignatureToken::U8]));
    assert_eq!(
        check(&m, vec![]),
        refused(StatusCode::INVALID_SIGNATURE_TOKEN, "reference not allowed", vec![])
    );
}

#[test]
fn the_first_pass_that_refuses_decides() {
    let mut m = busy();
    m.signatures.push(Signature(vec![vector(reference(SignatureToken::U8))]));
    m.function_handles[1].type_parameters = vec![];
    m.datatype_handles.push(datatype(vec![none(), none()]));
    m.signatures.push(Signature(vec![instance(2, vec![])]));
    m.function_handles.push(handle(5, 0, vec![]));
    m.struct_defs.push(struct_of(0, vec![reference(SignatureToken::U8)]));
    m.enum_defs.push(EnumDefinition {
        enum_handle: DatatypeHandleIndex(0),
        variants: vec![VariantDefinition { fields: fields(vec![reference(SignatureToken::U8)]) }],
    });
    m.function_defs.push(function(1, 0, vec![Bytecode::VecLen(SignatureIndex(0))]));
    let pool = record(&m, 100).0.unwrap_err().error;
    assert_eq!(pool.indices, vec![]);
    m.signatures[4] = Signature(vec![]);
    let handles = record(&m, 100).0.unwrap_err().error;
    assert_eq!(handles.message, Some("expected 2 type argument(s), got 0".to_string()));
    assert_eq!(handles.indices, vec![(IndexKind::Signature, 2), (IndexKind::FunctionHandle, 2)]);
    m.signatures[5] = Signature(vec![]);
    let structs = record(&m, 100).0.unwrap_err().error;
    assert_eq!(
        structs.indices,
        vec![(IndexKind::FieldDefinition, 0), (IndexKind::StructDefinition, 1)]
    );
    m.struct_defs.pop();
    let enums = record(&m, 100).0.unwrap_err().error;
    assert_eq!(
        enums.indices,
        vec![
            (IndexKind::FieldDefinition, 0),
            (IndexKind::VariantTag, 0),
            (IndexKind::EnumDefinition, 1),
        ]
    );
    m.enum_defs.pop();
    let code = record(&m, 100).0.unwrap_err().error;
    assert_eq!(
        code.indices,
        vec![(IndexKind::Signature, 0), (IndexKind::FunctionDefinition, 2)]
    );
    m.function_defs.pop();
    assert_eq!(record(&m, 100).0, Ok(()));
}

#[test]
fn a_struct_and_an_enum_of_one_variant_are_judged_alike() {
    let uses: Vec<fn() -> SignatureToken> = vec![
        || SignatureToken::U8,
        || reference(SignatureToken::U8),
        || SignatureToken::TypeParameter(0),
        || instance(1, vec![SignatureToken::U8]),
        || instance(1, vec![SignatureToken::Signer]),
        || instance(1, vec![]),
    ];
    for ty in uses {
        let mut a = module();
        a.datatype_handles = vec![phantoms(vec![true]), datatype(vec![copy()])];
        a.struct_defs = vec![struct_of(0, vec![SignatureToken::Bool, ty()])];
        let mut b = module();
        b.datatype_handles = vec![phantoms(vec![true]), datatype(vec![copy()])];
        b.enum_defs = vec![EnumDefinition {
            enum_handle: DatatypeHandleIndex(0),
            variants: vec![VariantDefinition { fields: fields(vec![SignatureToken::Bool, ty()]) }],
        }];
        let (res, asked, _) = record(&a, 100);
        let (other, other_asked, _) = record(&b, 100);
        assert_eq!(asked, other_asked);
        match (res, other) {
            (Ok(()), Ok(())) => {}
            (Err(x), Err(y)) => {
                assert_eq!(x.error.major_status, y.error.major_status);
                assert_eq!(x.error.message, y.error.message);
                let field = (IndexKind::FieldDefinition, 1);
                assert_eq!(x.error.indices, vec![field, (IndexKind::StructDefinition, 0)]);
                assert_eq!(
                    y.error.indices,
                    vec![field, (IndexKind::VariantTag, 0), (IndexKind::EnumDefinition, 0)]
                );
            }
            _ => panic!("judged differently"),
        }
    }
}

/// A module with three functions: the first and the third with the code, the second native.
fn with_code(locals: Vec<SignatureToken>, code: fn() -> Vec<Bytecode>) -> CompiledModule {
    let mut m = busy();
    m.signatures.push(Signature(locals));
    m.signatures.push(Signature(vec![SignatureToken::U8, SignatureToken::U8]));
    m.function_defs = vec![
        function(0, 4, code()),
        FunctionDefinition { function: FunctionHandleIndex(1), code: None },
        function(0, 4, code()),
    ];
    m
}

#[test]
fn code_units_are_accepted_if_each_is() {
    let m = with_code(vec![], || vec![Bytecode::CallGeneric(FunctionInstantiationIndex(0))]);
    assert_eq!(record(&m, 100).0, Ok(()));
    let mut m = with_code(vec![], || vec![Bytecode::Nop]);
    m.function_defs[2] = function(0, 4, vec![Bytecode::Nop, Bytecode::VecLen(SignatureIndex(2))]);
    m.function_defs.push(function(0, 4, vec![Bytecode::VecLen(SignatureIndex(0))]));
    let err = record(&m, 100).0.unwrap_err().error;
    assert_eq!(err.message, Some("reference not allowed at offset 1 ".to_string()));
    assert_eq!(
        err.indices,
        vec![(IndexKind::Signature, 4), (IndexKind::FunctionDefinition, 2)]
    );
}

#[test]
fn refused_locals_decide_whatever_the_instructions_are() {
    let codes: Vec<fn() -> Vec<Bytecode>> = vec![
        || vec![],
        || vec![Bytecode::Ret],
        || vec![Bytecode::VecLen(SignatureIndex(0))],
        || vec![Bytecode::CallGeneric(FunctionInstantiationIndex(0))],
    ];
    for code in codes {
        let m = with_code(vec![instance(0, vec![SignatureToken::Signer])], code);
        let err = record(&m, 100).0.unwrap_err().error;
        assert_eq!(
            err.message,
            Some(
                "expected type with abilities [Copy, ] got type actual Signer with incompatible \
                 abilities []"
                    .to_string()
            )
        );
        assert_eq!(
            err.indices,
            vec![(IndexKind::Signature, 4), (IndexKind::FunctionDefinition, 0)]
        );
    }
}

#[test]
fn plain_code_asks_about_its_locals_only() {
    let locals = || vec![instance(0, vec![SignatureToken::U64])];
    let plain = with_code(locals(), || vec![Bytecode::LdTrue, Bytecode::Pop, Bytecode::Ret]);
    let nothing = with_code(locals(), || vec![]);
    assert_eq!(record(&plain, 100), record(&nothing, 100));
    let (res, asked, _) = record(&plain, 100);
    assert_eq!(res, Ok(()));
    assert_eq!(asked.last(), Some(&"U64".to_string()));
    assert_eq!(asked.len(), 7);
}

#[test]
fn instructions_of_one_group_are_interchangeable() {
    for idx in [0u16, 2, 3, 5] {
        let mut outcomes = Vec::new();
        for instr in [
            Bytecode::VecPack(SignatureIndex(idx), 7),
            Bytecode::VecLen(SignatureIndex(idx)),
            Bytecode::VecUnpack(SignatureIndex(idx), 1),
            Bytecode::VecSwap(SignatureIndex(idx)),
        ] {
            let mut m = with_code(vec![], || vec![]);
            m.function_defs[0] = function(0, 4, vec![Bytecode::Nop, instr]);
            outcomes.push(record(&m, 100));
        }
        for outcome in &outcomes[1..] {
            assert_eq!(outcome, &outcomes[0]);
        }
    }
}

#[test]
fn the_order_of_instructions_does_not_matter_to_acceptance() {
    let orders: Vec<fn() -> Vec<Bytecode>> = vec![
        || vec![Bytecode::Ret, Bytecode::VecLen(SignatureIndex(2)), Bytecode::Nop],
        || vec![Bytecode::VecLen(SignatureIndex(2)), Bytecode::Nop, Bytecode::Ret],
        || {
            vec![
                Bytecode::Nop,
                Bytecode::Nop,
                Bytecode::Ret,
                Bytecode::VecLen(SignatureIndex(2)),
            ]
        },
    ];
    for code in orders {
        assert!(record(&with_code(vec![], code), 100).0.is_err());
    }
    let orders: Vec<fn() -> Vec<Bytecode>> = vec![
        || vec![Bytecode::Ret, Bytecode::VecLen(SignatureIndex(1))],
        || vec![Bytecode::VecLen(SignatureIndex(1)), Bytecode::Ret, Bytecode::Ret],
    ];
    for code in orders {
        assert!(record(&with_code(vec![], code), 100).0.is_ok());
    }
}

#[test]
fn phantom_position_matters_to_type_parameters_only() {
    // The argument stands in phantom position in the first datatype, and not in the second.
    let uses: Vec<(fn() -> SignatureToken, bool, bool)> = vec![
        (|| SignatureToken::TypeParameter(0), true, false),
        (|| vector(SignatureToken::TypeParameter(0)), false, false),
        (|| vector(SignatureToken::U8), true, true),
        (|| instance(1, vec![SignatureToken::TypeParameter(0)]), true, true),
        (|| instance(2, vec![SignatureToken::TypeParameter(0)]), false, false),
    ];
    for (ty, inside, outside) in uses {
        for (idx, expected) in [(1, inside), (2, outside)] {
            let mut m = module();
            m.datatype_handles =
                vec![phantoms(vec![true]), phantoms(vec![true]), phantoms(vec![false])];
            m.struct_defs = vec![struct_of(0, vec![instance(idx, vec![ty()])])];
            assert_eq!(record(&m, 100).0.is_ok(), expected);
        }
    }
}

#[test]
fn a_reference_in_a_list_is_found_wherever_it_stands() {
    let lists: Vec<(Vec<SignatureToken>, bool)> = vec![
        (vec![SignatureToken::U8, SignatureToken::U16], true),
        (vec![reference(SignatureToken::U8), SignatureToken::U16], false),
        (vec![SignatureToken::U8, vector(reference(SignatureToken::U16))], false),
        (vec![SignatureToken::U8, instance(1, vec![reference(SignatureToken::U8)])], false),
    ];
    for (tys, expected) in lists {
        let mut m = module();
        m.datatype_handles = vec![datatype(vec![none(), none()]), datatype(vec![none()])];
        m.struct_defs = vec![struct_of(0, vec![instance(0, tys)])];
        assert_eq!(record(&m, 100).0.is_ok(), expected);
    }
}

#[test]
fn what_is_accepted_is_accepted_when_less_is_asked() {
    let sets = [none(), copy(), drop(), set(true, true, false, false), all()];
    for strong in sets {
        for weak in sets {
            if weak.is_subset(strong) {
                let mut m = module();
                m.signatures = vec![Signature(vec![instance(0, vec![SignatureToken::U8])])];
                m.function_handles = vec![handle(0, 0, vec![])];
                m.datatype_handles = vec![datatype(vec![strong])];
                let accepted_before = record(&m, 100).0.is_ok();
                m.datatype_handles = vec![datatype(vec![weak])];
                assert!(!accepted_before || record(&m, 100).0.is_ok());
            }
        }
    }
}

#[test]
fn an_error_is_found_in_the_module_it_was_found_in() {
    let mut m = busy();
    m.self_id = ModuleId { address: [7; 32], name: "another".to_string() };
    assert_eq!(record(&m, 100).0, Ok(()));
    let err = record(&m, 0).0.unwrap_err();
    assert_eq!(
        err.location,
        Location::Module(ModuleId { address: [7; 32], name: "another".to_string() })
    );
    assert_eq!(err.error.major_status, StatusCode::OTHER(4016));
    assert_eq!(err.error.message, None);
    assert_eq!(err.error.indices, record(&busy(), 0).0.unwrap_err().error.indices);
}

#[test]
fn the_wrong_number_of_type_arguments_costs_nothing() {
    let mut m = busy();
    m.signatures[2] = Signature(vec![instance(1, vec![SignatureToken::U16])]);
    let (res, asked, left) = record(&m, 100);
    assert_eq!(
        res.unwrap_err().error.message,
        Some("expected 2 type argument(s), got 1".to_string())
    );
    assert_eq!(asked, vec!["U8"]);
    assert_eq!(left, 99);
}

#[test]
fn the_order_of_type_arguments_does_not_hide_a_reference() {
    let orders: Vec<fn() -> Vec<SignatureToken>> = vec![
        || vec![reference(SignatureToken::U8), SignatureToken::U8, SignatureToken::U8],
        || vec![SignatureToken::U8, reference(SignatureToken::U8), reference(SignatureToken::U8)],
        || vec![SignatureToken::U8, SignatureToken::U8, reference(SignatureToken::U8)],
    ];
    for tys in orders {
        let mut m = module();
        m.datatype_handles = vec![datatype(vec![none(), none(), none()])];
        m.struct_defs = vec![struct_of(0, vec![instance(0, tys())])];
        assert_eq!(
            Some(record(&m, 100).0),
            refused(
                StatusCode::INVALID_SIGNATURE_TOKEN,
                "reference not allowed",
                vec![(IndexKind::FieldDefinition, 0), (IndexKind::StructDefinition, 0)],
            )
        );
    }
}

#[test]
fn of_two_functions_that_would_be_refused_the_first_is() {
    let mut m = with_code(vec![], || vec![]);
    m.function_defs = vec![
        function(0, 4, vec![Bytecode::Nop]),
        function(0, 4, vec![Bytecode::VecLen(SignatureIndex(0))]),
        function(0, 4, vec![Bytecode::VecLen(SignatureIndex(5))]),
    ];
    let err = record(&m, 100).0.unwrap_err().error;
    assert_eq!(
        err.message,
        Some("expected 1 type token for vector operations, got 0".to_string())
    );
    assert_eq!(
        err.indices,
        vec![(IndexKind::Signature, 4), (IndexKind::FunctionDefinition, 1)]
    );
}
