//! The parts that the check of a module is made of.

use std::collections::VecDeque;

use move_signature_checker::abilities::AbilitySet;
use move_signature_checker::ability_cache::{AbilityCache, PreparedAnswers, Scope};
use move_signature_checker::checked::CheckedInstances;
use move_signature_checker::errors::{
    IndexKind, Location, ModuleId, PartialVMError, StatusCode, VMError,
};
use move_signature_checker::file_format::{
    DatatypeHandle, DatatypeHandleIndex, DatatypeTyParameter, SignatureIndex, SignatureToken,
};
use move_signature_checker::signature::check_constraint;
use move_signature_checker::text::push_decimal;

fn set(copy: bool, drop: bool, store: bool, key: bool) -> AbilitySet {
    AbilitySet { copy, drop, store, key }
}

fn every_set() -> Vec<AbilitySet> {
    let mut sets = Vec::new();
    for bits in 0..16u8 {
        sets.push(set(bits & 1 != 0, bits & 2 != 0, bits & 4 != 0, bits & 8 != 0));
    }
    sets
}

fn text_of(ty: &SignatureToken) -> String {
    let mut out = String::new();
    ty.push_text(&mut out);
    out
}

fn vector(ty: SignatureToken) -> SignatureToken {
    SignatureToken::Vector(Box::new(ty))
}

fn instance(idx: u16, tys: Vec<SignatureToken>) -> SignatureToken {
    SignatureToken::DatatypeInstantiation(Box::new((DatatypeHandleIndex(idx), tys)))
}

#[test]
fn decimals_are_written_without_leading_zeros() {
    for n in [0usize, 1, 9, 10, 11, 99, 100, 101, 65535, 65536, 1234567890, usize::MAX] {
        let mut out = String::from("n = ");
        push_decimal(&mut out, n);
        assert_eq!(out, format!("n = {}", n));
    }
}

#[test]
fn types_are_written_by_their_names() {
    let cases = [
        (SignatureToken::Bool, "Bool"),
        (SignatureToken::U8, "U8"),
        (SignatureToken::U16, "U16"),
        (SignatureToken::U32, "U32"),
        (SignatureToken::U64, "U64"),
        (SignatureToken::U128, "U128"),
        (SignatureToken::U256, "U256"),
        (SignatureToken::Address, "Address"),
        (SignatureToken::Signer, "Signer"),
        (SignatureToken::TypeParameter(12), "TypeParameter(12)"),
        (
            SignatureToken::Datatype(DatatypeHandleIndex(305)),
            "Datatype(DatatypeHandleIndex(305))",
        ),
    ];
    for (ty, text) in cases {
        assert_eq!(text_of(&ty), text);
    }
}

#[test]
fn types_inside_types_are_written_in_brackets() {
    assert_eq!(text_of(&vector(vector(SignatureToken::U8))), "Vector(Vector(U8))");
    assert_eq!(
        text_of(&SignatureToken::Reference(Box::new(vector(SignatureToken::Bool)))),
        "Reference(Vector(Bool))"
    );
    assert_eq!(
        text_of(&SignatureToken::MutableReference(Box::new(SignatureToken::Signer))),
        "MutableReference(Signer)"
    );
    assert_eq!(
        text_of(&instance(3, vec![])),
        "DatatypeInstantiation(DatatypeHandleIndex(3), [])"
    );
    assert_eq!(
        text_of(&instance(3, vec![SignatureToken::U8, vector(SignatureToken::TypeParameter(0))])),
        "DatatypeInstantiation(DatatypeHandleIndex(3), [U8, Vector(TypeParameter(0))])"
    );
}

#[test]
fn ability_sets_are_written_with_a_comma_behind_each() {
    let cases = [
        (set(false, false, false, false), "[]"),
        (set(true, false, false, false), "[Copy, ]"),
        (set(false, true, true, false), "[Drop, Store, ]"),
        (set(false, false, false, true), "[Key, ]"),
        (set(true, true, true, true), "[Copy, Drop, Store, Key, ]"),
    ];
    for (abilities, text) in cases {
        let mut out = String::new();
        abilities.push_text(&mut out);
        assert_eq!(out, text);
    }
}

#[test]
fn subsets_are_decided_ability_by_ability() {
    for a in every_set() {
        for b in every_set() {
            let expected = (!a.copy || b.copy)
                && (!a.drop || b.drop)
                && (!a.store || b.store)
                && (!a.key || b.key);
            assert_eq!(a.is_subset(b), expected);
        }
    }
}

#[test]
fn a_type_comes_before_the_types_inside_it() {
    let ty = SignatureToken::Reference(Box::new(instance(
        1,
        vec![
            instance(2, vec![SignatureToken::U8]),
            vector(SignatureToken::U16),
            SignatureToken::U32,
        ],
    )));
    let texts: Vec<String> = ty.preorder_traversal().into_iter().map(text_of).collect();
    assert_eq!(
        texts,
        vec![
            text_of(&ty),
            "DatatypeInstantiation(DatatypeHandleIndex(1), \
             [DatatypeInstantiation(DatatypeHandleIndex(2), [U8]), Vector(U16), U32])"
                .to_string(),
            "DatatypeInstantiation(DatatypeHandleIndex(2), [U8])".to_string(),
            "U8".to_string(),
            "Vector(U16)".to_string(),
            "U16".to_string(),
            "U32".to_string(),
        ]
    );
}

#[test]
fn constraints_of_a_datatype_are_those_of_its_parameters() {
    let handle = DatatypeHandle {
        type_parameters: vec![
            DatatypeTyParameter { constraints: set(true, false, false, false), is_phantom: false },
            DatatypeTyParameter { constraints: set(false, false, true, false), is_phantom: true },
        ],
    };
    assert_eq!(
        handle.type_param_constraints(),
        vec![set(true, false, false, false), set(false, false, true, false)]
    );
}

#[test]
fn errors_gather_places_and_text() {
    let err = PartialVMError::new(StatusCode::INVALID_SIGNATURE_TOKEN);
    assert_eq!(err.message, None);
    assert_eq!(err.indices, vec![]);
    let err = err
        .with_message("first".to_string())
        .at_index(IndexKind::Signature, 7)
        .append_message_with_separator(" ", "second")
        .at_index(IndexKind::FunctionDefinition, 2);
    assert_eq!(err.major_status, StatusCode::INVALID_SIGNATURE_TOKEN);
    assert_eq!(err.message, Some("first second".to_string()));
    assert_eq!(
        err.indices,
        vec![(IndexKind::Signature, 7), (IndexKind::FunctionDefinition, 2)]
    );
}

#[test]
fn nothing_separates_text_from_nothing() {
    let bare = PartialVMError::new(StatusCode::OTHER(1));
    assert_eq!(bare.append_message_with_separator(" ", "text").message, Some("text".to_string()));
    let empty = PartialVMError::new(StatusCode::OTHER(1)).with_message(String::new());
    assert_eq!(empty.append_message_with_separator(" ", "text").message, Some("text".to_string()));
}

#[test]
fn a_finished_error_says_where_it_was_found() {
    let id = ModuleId { address: [3; 32], name: "m".to_string() };
    let err = PartialVMError::new(StatusCode::OTHER(9)).at_index(IndexKind::EnumDefinition, 1);
    assert_eq!(
        err.finish(Location::Module(id.clone())),
        VMError {
            error: PartialVMError {
                major_status: StatusCode::OTHER(9),
                message: None,
                indices: vec![(IndexKind::EnumDefinition, 1)],
            },
            location: Location::Module(id),
        }
    );
}

#[test]
fn a_requirement_is_met_by_a_set_that_covers_it() {
    let asked = set(true, true, false, false);
    let ty = SignatureToken::U64;
    assert_eq!(check_constraint(asked, &ty, Ok(set(true, true, true, false))), Ok(()));
    assert_eq!(check_constraint(asked, &ty, Ok(asked)), Ok(()));
    let err = check_constraint(asked, &ty, Ok(set(false, true, true, false))).unwrap_err();
    assert_eq!(err.major_status, StatusCode::CONSTRAINT_NOT_SATISFIED);
    assert_eq!(
        err.message,
        Some(
            "expected type with abilities [Copy, Drop, ] got type actual U64 with incompatible \
             abilities [Drop, Store, ]"
                .to_string()
        )
    );
    assert_eq!(err.indices, vec![]);
}

#[test]
fn a_requirement_passes_on_the_error_of_the_cache() {
    let given = PartialVMError::new(StatusCode::OTHER(77)).with_message("limit".to_string());
    let err = check_constraint(set(false, false, false, false), &SignatureToken::U8, Err(given))
        .unwrap_err();
    assert_eq!(err.major_status, StatusCode::OTHER(77));
    assert_eq!(err.message, Some("limit".to_string()));
}

#[test]
fn instances_are_told_apart_by_signature_and_abilities() {
    let a = [set(true, false, false, false)];
    let b = [set(false, true, false, false)];
    let mut checked = CheckedInstances::new();
    assert!(!checked.contains(SignatureIndex(4), &a));
    checked.insert(SignatureIndex(4), &a);
    assert!(checked.contains(SignatureIndex(4), &a));
    assert!(!checked.contains(SignatureIndex(4), &b));
    assert!(!checked.contains(SignatureIndex(4), &[]));
    assert!(!checked.contains(SignatureIndex(5), &a));
    checked.insert(SignatureIndex(4), &b);
    checked.insert(SignatureIndex(4), &[]);
    assert!(checked.contains(SignatureIndex(4), &a));
    assert!(checked.contains(SignatureIndex(4), &b));
    assert!(checked.contains(SignatureIndex(4), &[]));
    assert!(!checked.contains(SignatureIndex(4), &[a[0], b[0]]));
}

#[test]
fn prepared_answers_come_in_order_and_run_out() {
    let first = set(true, false, false, false);
    let mut source = PreparedAnswers::new(VecDeque::from(vec![
        Ok(first),
        Err(PartialVMError::new(StatusCode::OTHER(5))),
    ]));
    let mut meter = 31u64;
    let ty = SignatureToken::U8;
    assert_eq!(source.abilities(Scope::Module, &mut meter, &[], &ty), Ok(first));
    assert_eq!(
        source.abilities(Scope::Module, &mut meter, &[], &ty),
        Err(PartialVMError::new(StatusCode::OTHER(5)))
    );
    assert!(!source.is_overrun());
    assert!(source.abilities(Scope::Module, &mut meter, &[], &ty).is_err());
    assert!(source.is_overrun());
    assert_eq!(meter, 31);
}
