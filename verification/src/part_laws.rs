//! What holds of the parts of every check: of its passes, and of the checks of single functions,
//! fields, instructions and types.

use vstd::prelude::*;

use crate::abilities::{covers, AbilitySet};
use crate::acceptance::{
    lemma_generic_instance_passes, lemma_instruction_passes, lemma_type_instantiation_passes,
};
use crate::checked::Instance;
use crate::errors::{ErrorModel, IndexKind, TableIndex};
use crate::file_format::{
    has_reference, preorder, Bytecode, CodeUnit, CompiledModule, DatatypeHandle,
    DatatypeTyParameter, FieldDefinition, FieldInstantiationIndex, FunctionInstantiationIndex,
    SignatureIndex, SignatureToken, StructDefInstantiationIndex, StructFieldInformation,
    VariantInstantiationHandleIndex, VERSION_6,
};
use crate::laws::lemma_type_fits_in_every_version;
use crate::module_plan::{
    any_inner_reference, any_reference, checked_with_functions, checked_with_handles,
    checked_with_refused_code, code_plan, code_units_plan, datatype_at, enum_fields_plan,
    enum_parts, enum_plan, field_plan, function_notes, function_parts, function_signatures_plan,
    function_type_parameters, generic_instance_plan, generic_use, handle_parts, has_datatype,
    has_handle, inner_reference, instantiation_plan, instruction_parts, instruction_plan,
    lemma_checked_with_functions_grows, lemma_checked_with_handles_grows, locals_instance,
    module_plan, outer_instantiation_parts, outer_instantiation_plan, phantom_plan, reference_error,
    signature_pool_plan, struct_field_notes, struct_field_parts, struct_fields_plan, struct_parts,
    struct_plan, table_index, token_plan, tokens_plan, type_instantiation_plan, variant_field_notes,
    variant_field_parts, variant_parts, GenericUse,
};
use crate::plan::{
    annotated, goes_through_between, goes_through_with_some, joined, judged, lemma_annotated_three,
    lemma_annotated_twice, lemma_annotated_two, lemma_joined_begins, lemma_joined_nothing,
    lemma_joined_same, lemma_performs_cut, lemma_performs_joined_ok, lemma_performs_joined_refused,
    lemma_performs_nothing, lemma_performs_split, lemma_performs_without, lemma_refuses_first_once,
    lemma_same_answers, performs, refuses, refuses_first, within, Note, Plan, Query, Reply, Step,
};
use crate::ruling::{
    goes_through, lemma_ruling_joined, lemma_ruling_ok, lemma_ruling_then, lemma_ruling_within,
    ruling, suits, Oracle,
};
use crate::well_formed::{
    all_go_through, arguments_fit, instruction_fits, lemma_remembered, lemma_uncached_functions,
    lemma_uncached_handles, uncached_code_plan, uncached_function_parts,
};

verus! {

// ---- The five passes ----

/// The passes of the check of a module, in order: the signatures, the function handles, the
/// fields of structs, the fields of enums, the code.
pub open spec fn module_passes(m: CompiledModule) -> spec_fn(int) -> Plan {
    |i: int|
        if i == 0 {
            signature_pool_plan(m)
        } else if i == 1 {
            function_signatures_plan(m)
        } else if i == 2 {
            struct_fields_plan(m)
        } else if i == 3 {
            enum_fields_plan(m)
        } else {
            code_units_plan(m)
        }
}

/// The plan of a module is that of its passes.
pub proof fn lemma_module_passes_joined(m: CompiledModule)
    ensures
        module_plan(m) == joined(5, module_passes(m)),
{
    let passes = module_passes(m);
    reveal_with_fuel(joined, 6);
    assert(joined(0, passes) =~= Seq::<Step>::empty());
    assert(joined(1, passes) =~= signature_pool_plan(m));
}

/// A check of a module that is refused ends in the error of the first pass that refuses, as that
/// pass gave it; in a check that goes through, each pass goes through.
pub proof fn law_first_refusing_pass_decides(
    m: CompiledModule,
    replies: Seq<Reply>,
    res: Result<(), ErrorModel>,
)
    requires
        performs(module_plan(m), replies, res),
    ensures
        res matches Err(err) ==> exists|i: int, k: int|
            0 <= i < 5 && #[trigger] refuses_first(module_passes(m), i, k, replies, err),
        res is Ok ==> forall|i: int|
            0 <= i < 5 ==> goes_through_with_some(#[trigger] module_passes(m)(i), replies),
{
    let passes = module_passes(m);
    lemma_module_passes_joined(m);
    match res {
        Err(err) => {
            let found = lemma_performs_joined_refused(5, passes, replies, err);
            assert(refuses_first(passes, found.0, found.1, replies, err));
        },
        Ok(unit) => {
            assert(unit == ());
            assert forall|i: int| 0 <= i < 5 implies goes_through_with_some(
                #[trigger] passes(i),
                replies,
            ) by {
                let found = lemma_performs_joined_ok(5, passes, replies, i);
                assert(goes_through_between(passes(i), replies, found.0, found.1));
            }
        },
    }
}

/// There is but one first part that refuses: which part it is, with which of the replies, and
/// with which error, follows from the replies.
pub proof fn law_one_part_is_the_first_to_refuse(
    part: spec_fn(int) -> Plan,
    i: int,
    k: int,
    err: ErrorModel,
    other_i: int,
    other_k: int,
    other_err: ErrorModel,
    replies: Seq<Reply>,
)
    requires
        0 <= i,
        0 <= other_i,
        refuses_first(part, i, k, replies, err),
        refuses_first(part, other_i, other_k, replies, other_err),
    ensures
        i == other_i,
        k == other_k,
        err == other_err,
{
    lemma_refuses_first_once(part, i, k, err, other_i, other_k, other_err, replies);
}

/// If the abilities of types are known beforehand, a module is accepted if and only if each of
/// the five passes accepts it; otherwise the outcome is that of the first pass that does not.
pub proof fn law_accepted_if_and_only_if_every_pass_accepts(m: CompiledModule, oracle: Oracle)
    ensures
        goes_through(module_plan(m), oracle) <==> {
            &&& goes_through(signature_pool_plan(m), oracle)
            &&& goes_through(function_signatures_plan(m), oracle)
            &&& goes_through(struct_fields_plan(m), oracle)
            &&& goes_through(enum_fields_plan(m), oracle)
            &&& goes_through(code_units_plan(m), oracle)
        },
        ruling(module_plan(m), oracle) == if !goes_through(signature_pool_plan(m), oracle) {
            ruling(signature_pool_plan(m), oracle)
        } else if !goes_through(function_signatures_plan(m), oracle) {
            ruling(function_signatures_plan(m), oracle)
        } else if !goes_through(struct_fields_plan(m), oracle) {
            ruling(struct_fields_plan(m), oracle)
        } else if !goes_through(enum_fields_plan(m), oracle) {
            ruling(enum_fields_plan(m), oracle)
        } else {
            ruling(code_units_plan(m), oracle)
        },
{
    let a = signature_pool_plan(m);
    let b = function_signatures_plan(m);
    let c = struct_fields_plan(m);
    let d = enum_fields_plan(m);
    let e = code_units_plan(m);
    lemma_ruling_then(a, b, oracle);
    lemma_ruling_then(a + b, c, oracle);
    lemma_ruling_then(a + b + c, d, oracle);
    lemma_ruling_then(a + b + c + d, e, oracle);
}

/// If the abilities of types are known beforehand, the function handles go through if and only if
/// each of them does, the structs if and only if each struct does, and the enums if and only if
/// each enum does; otherwise the outcome is that of the first one that does not.
pub proof fn law_a_pass_goes_through_if_and_only_if_its_parts_do(m: CompiledModule, oracle: Oracle)
    ensures
        goes_through(function_signatures_plan(m), oracle) <==> forall|i: int|
            0 <= i < m.function_handles@.len() ==> goes_through(
                #[trigger] handle_parts(m)(i),
                oracle,
            ),
        goes_through(struct_fields_plan(m), oracle) <==> forall|i: int|
            0 <= i < m.struct_defs@.len() ==> goes_through(#[trigger] struct_plan(m, i), oracle),
        goes_through(enum_fields_plan(m), oracle) <==> forall|i: int|
            0 <= i < m.enum_defs@.len() ==> goes_through(#[trigger] enum_plan(m, i), oracle),
        forall|i: int|
            0 <= i < m.function_handles@.len() && goes_through(
                joined(i as nat, handle_parts(m)),
                oracle,
            ) && !goes_through(#[trigger] handle_parts(m)(i), oracle) ==> ruling(
                function_signatures_plan(m),
                oracle,
            ) == ruling(handle_parts(m)(i), oracle),
        forall|i: int|
            0 <= i < m.struct_defs@.len() && goes_through(
                joined(i as nat, struct_parts(m)),
                oracle,
            ) && !goes_through(#[trigger] struct_plan(m, i), oracle) ==> ruling(
                struct_fields_plan(m),
                oracle,
            ) == ruling(struct_plan(m, i), oracle),
        forall|i: int|
            0 <= i < m.enum_defs@.len() && goes_through(joined(i as nat, enum_parts(m)), oracle)
                && !goes_through(#[trigger] enum_plan(m, i), oracle) ==> ruling(
                enum_fields_plan(m),
                oracle,
            ) == ruling(enum_plan(m, i), oracle),
{
    lemma_ruling_joined(m.function_handles@.len(), handle_parts(m), oracle);
    lemma_ruling_joined(m.struct_defs@.len(), struct_parts(m), oracle);
    lemma_ruling_joined(m.enum_defs@.len(), enum_parts(m), oracle);
    assert(forall|i: int| struct_plan(m, i) == #[trigger] struct_parts(m)(i));
    assert(forall|i: int| #[trigger] struct_plan(m, i) == struct_parts(m)(i));
    assert(forall|i: int| enum_plan(m, i) == #[trigger] enum_parts(m)(i));
    assert(forall|i: int| #[trigger] enum_plan(m, i) == enum_parts(m)(i));
}

// ---- Structs and enums ----

/// Whether a struct and an enum are judged alike: both go through, or both are refused with the
/// same status and message, and the same places up to the field, which is in the struct at
/// `struct_def` there and in the first variant of the enum at `enum_def` here.
pub open spec fn judged_alike(
    struct_res: Result<(), ErrorModel>,
    enum_res: Result<(), ErrorModel>,
    struct_def: int,
    enum_def: int,
) -> bool {
    match (struct_res, enum_res) {
        (Ok(_), Ok(_)) => true,
        (Err(a), Err(b)) => {
            &&& a.major_status == b.major_status
            &&& a.message == b.message
            &&& exists|places: Seq<(IndexKind, TableIndex)>, field: TableIndex|
                #![trigger places.push((IndexKind::FieldDefinition, field))]
                {
                    let to_field = places.push((IndexKind::FieldDefinition, field));
                    &&& a.indices == to_field.push(
                        (IndexKind::StructDefinition, table_index(struct_def)),
                    )
                    &&& b.indices == to_field.push((IndexKind::VariantTag, 0)).push(
                        (IndexKind::EnumDefinition, table_index(enum_def)),
                    )
                }
        },
        _ => false,
    }
}

/// Whether two steps are the same but for the places: one is that of a field of the struct at
/// `struct_def`, the other that of the same field of the first variant of the enum at `enum_def`.
spec fn alike(a: Step, b: Step, struct_def: int, enum_def: int) -> bool {
    exists|base: Step, field: int|
        a == #[trigger] base.within(struct_field_notes(field, struct_def)) && b == base.within(
            variant_field_notes(field, 0, enum_def),
        )
}

spec fn all_alike(a: Plan, b: Plan, struct_def: int, enum_def: int) -> bool {
    &&& a.len() == b.len()
    &&& forall|i: int| 0 <= i < a.len() ==> alike(#[trigger] a[i], b[i], struct_def, enum_def)
}

proof fn lemma_judged_alike(err: ErrorModel, field: int, struct_def: int, enum_def: int)
    ensures
        judged_alike(
            Err(annotated(err, struct_field_notes(field, struct_def))),
            Err(annotated(err, variant_field_notes(field, 0, enum_def))),
            struct_def,
            enum_def,
        ),
{
    let at_field = Note::Place(IndexKind::FieldDefinition, table_index(field));
    lemma_annotated_two(
        err,
        at_field,
        Note::Place(IndexKind::StructDefinition, table_index(struct_def)),
    );
    lemma_annotated_three(
        err,
        at_field,
        Note::Place(IndexKind::VariantTag, table_index(0)),
        Note::Place(IndexKind::EnumDefinition, table_index(enum_def)),
    );
}

proof fn lemma_performs_alike(
    a: Plan,
    b: Plan,
    replies: Seq<Reply>,
    res: Result<(), ErrorModel>,
    struct_def: int,
    enum_def: int,
) -> (other: Result<(), ErrorModel>)
    requires
        all_alike(a, b, struct_def, enum_def),
        performs(a, replies, res),
    ensures
        performs(b, replies, other),
        judged_alike(res, other, struct_def, enum_def),
    decreases a.len(),
{
    if a.len() == 0 {
        res
    } else {
        assert(alike(a[0], b[0], struct_def, enum_def));
        let (base, field) = choose|base: Step, field: int|
            a[0] == #[trigger] base.within(struct_field_notes(field, struct_def)) && b[0]
                == base.within(variant_field_notes(field, 0, enum_def));
        let struct_notes = struct_field_notes(field, struct_def);
        let enum_notes = variant_field_notes(field, 0, enum_def);
        match base {
            Step::Fail(err) => {
                lemma_judged_alike(err, field, struct_def, enum_def);
                Err(annotated(err, enum_notes))
            },
            Step::Dangling => res,
            Step::Require { constraint, query, notes } => {
                match judged(constraint, query.ty, replies[0].answer) {
                    Err(err) => {
                        lemma_annotated_twice(err, notes, struct_notes);
                        lemma_annotated_twice(err, notes, enum_notes);
                        lemma_judged_alike(annotated(err, notes), field, struct_def, enum_def);
                        Err(annotated(err, notes + enum_notes))
                    },
                    Ok(()) => {
                        let rest = a.drop_first();
                        let other_rest = b.drop_first();
                        assert forall|i: int| 0 <= i < rest.len() implies alike(
                            #[trigger] rest[i],
                            other_rest[i],
                            struct_def,
                            enum_def,
                        ) by {
                            assert(alike(a[i + 1], b[i + 1], struct_def, enum_def));
                        }
                        lemma_performs_alike(
                            rest,
                            other_rest,
                            replies.drop_first(),
                            res,
                            struct_def,
                            enum_def,
                        )
                    },
                }
            },
        }
    }
}

proof fn lemma_fields_alike(
    m: CompiledModule,
    handle: DatatypeHandle,
    fields: Seq<FieldDefinition>,
    n: nat,
    struct_def: int,
    enum_def: int,
)
    requires
        n <= fields.len(),
    ensures
        all_alike(
            joined(n, struct_field_parts(m, handle, fields, struct_def)),
            joined(n, variant_field_parts(m, handle, fields, 0, enum_def)),
            struct_def,
            enum_def,
        ),
    decreases n,
{
    if n > 0 {
        let k = (n - 1) as nat;
        lemma_fields_alike(m, handle, fields, k, struct_def, enum_def);
        let a = joined(k, struct_field_parts(m, handle, fields, struct_def));
        let b = joined(k, variant_field_parts(m, handle, fields, 0, enum_def));
        let base = field_plan(m, fields[k as int].signature.0, handle);
        let last = within(base, struct_field_notes(k as int, struct_def));
        let other_last = within(base, variant_field_notes(k as int, 0, enum_def));
        assert forall|i: int| 0 <= i < (a + last).len() implies alike(
            #[trigger] (a + last)[i],
            (b + other_last)[i],
            struct_def,
            enum_def,
        ) by {
            if i < a.len() {
                assert(alike(a[i], b[i], struct_def, enum_def));
            } else {
                let step = base[i - a.len()];
                assert((a + last)[i] == step.within(struct_field_notes(k as int, struct_def)));
                assert((b + other_last)[i] == step.within(
                    variant_field_notes(k as int, 0, enum_def),
                ));
            }
        }
    }
}

/// A struct, and an enum of the same handle with one variant that has the same fields, are judged
/// alike: with the same answers the same is asked, and both go through, or both are refused with
/// the same status and message and at the same field.
pub proof fn law_structs_and_enums_of_one_variant_are_judged_alike(
    m: CompiledModule,
    struct_def: int,
    enum_def: int,
    fields: Vec<FieldDefinition>,
    replies: Seq<Reply>,
    res: Result<(), ErrorModel>,
    enum_replies: Seq<Reply>,
    enum_res: Result<(), ErrorModel>,
)
    requires
        0 <= struct_def < m.struct_defs@.len(),
        0 <= enum_def < m.enum_defs@.len(),
        m.struct_defs@[struct_def].field_information == StructFieldInformation::Declared(fields),
        m.enum_defs@[enum_def].enum_handle == m.struct_defs@[struct_def].struct_handle,
        m.enum_defs@[enum_def].variants@.len() == 1,
        m.enum_defs@[enum_def].variants@[0].fields@ == fields@,
        performs(struct_plan(m, struct_def), replies, res),
        performs(enum_plan(m, enum_def), enum_replies, enum_res),
        forall|i: int|
            0 <= i < replies.len() && i < enum_replies.len() ==> (#[trigger] replies[i]).answer
                == enum_replies[i].answer,
    ensures
        replies == enum_replies,
        judged_alike(res, enum_res, struct_def, enum_def),
        m.struct_defs@.len() == 1 ==> struct_fields_plan(m) == struct_plan(m, struct_def),
        m.enum_defs@.len() == 1 ==> enum_fields_plan(m) == enum_plan(m, enum_def),
{
    let idx = m.struct_defs@[struct_def].struct_handle;
    if !has_datatype(m, idx) {
        assert(struct_plan(m, struct_def)[0] is Dangling);
    }
    let handle = datatype_at(m, idx);
    let variants = m.enum_defs@[enum_def].variants@;
    let parts = variant_parts(m, handle, variants, enum_def);
    reveal_with_fuel(joined, 2);
    assert(joined(1, parts) =~= parts(0));
    lemma_fields_alike(m, handle, fields@, fields@.len(), struct_def, enum_def);
    let other = lemma_performs_alike(
        struct_plan(m, struct_def),
        enum_plan(m, enum_def),
        replies,
        res,
        struct_def,
        enum_def,
    );
    lemma_same_answers(enum_plan(m, enum_def), replies, other, enum_replies, enum_res);
    assert(joined(1, struct_parts(m)) =~= struct_parts(m)(0));
    assert(joined(1, enum_parts(m)) =~= enum_parts(m)(0));
}

// ---- Code ----

/// The check of the code of the `i`th function.
pub open spec fn code_plan_at(m: CompiledModule, i: int, code: CodeUnit) -> Plan {
    code_plan(
        m,
        checked_with_functions(m, i as nat),
        code,
        function_type_parameters(m, m.function_defs@[i]),
    )
}

/// The code of all functions goes through if and only if that of each function does. Functions
/// without code are skipped.
pub proof fn law_code_units_go_through_if_and_only_if_each_does(m: CompiledModule, oracle: Oracle)
    ensures
        goes_through(code_units_plan(m), oracle) <==> forall|i: int|
            0 <= i < m.function_defs@.len() ==> ((#[trigger] m.function_defs@[i]).code matches Some(
                code,
            ) ==> has_handle(m, m.function_defs@[i]) && goes_through(
                code_plan_at(m, i, code),
                oracle,
            )),
{
    let n = m.function_defs@.len();
    let parts = function_parts(m);
    lemma_ruling_joined(n, parts, oracle);
    assert forall|i: int| 0 <= i < n implies goes_through(#[trigger] parts(i), oracle) == (
    m.function_defs@[i].code matches Some(code) ==> has_handle(m, m.function_defs@[i])
        && goes_through(code_plan_at(m, i, code), oracle)) by {
        if let Some(code) = m.function_defs@[i].code {
            lemma_ruling_within(
                code_plan_at(m, i, code),
                function_notes(code.locals, i),
                oracle,
            );
        }
    }
    if goes_through(code_units_plan(m), oracle) {
        assert forall|i: int| 0 <= i < n implies ((
        #[trigger] m.function_defs@[i]).code matches Some(code) ==> has_handle(
            m,
            m.function_defs@[i],
        ) && goes_through(code_plan_at(m, i, code), oracle)) by {
            assert(goes_through(parts(i), oracle));
        }
    }
}

/// Whether, with the first `k` replies, all functions before the `i`th go through, and the code
/// of the `i`th is refused with the rest of them; the error gets the signature of its locals and
/// the position of the function as places.
pub open spec fn function_refuses_first(
    m: CompiledModule,
    i: int,
    k: int,
    replies: Seq<Reply>,
    err: ErrorModel,
) -> bool {
    &&& 0 <= i < m.function_defs@.len()
    &&& 0 <= k <= replies.len()
    &&& performs(joined(i as nat, function_parts(m)), replies.take(k), Ok(()))
    &&& m.function_defs@[i].code matches Some(code) && has_handle(m, m.function_defs@[i])
        && exists|inner: ErrorModel| #[trigger]
        performs(code_plan_at(m, i, code), replies.skip(k), Err(inner)) && err == inner.at(
            IndexKind::Signature,
            code.locals.0,
        ).at(IndexKind::FunctionDefinition, table_index(i))
}

/// If the code of the functions is refused, the error is that of the first function whose code is
/// refused, with the signature of its locals and then its position added to the places.
pub proof fn law_first_refused_function_decides(
    m: CompiledModule,
    replies: Seq<Reply>,
    err: ErrorModel,
)
    requires
        performs(code_units_plan(m), replies, Err(err)),
    ensures
        exists|i: int, k: int| #[trigger] function_refuses_first(m, i, k, replies, err),
{
    let parts = function_parts(m);
    let (i, k) = lemma_performs_joined_refused(m.function_defs@.len(), parts, replies, err);
    let def = m.function_defs@[i];
    match def.code {
        None => {},
        Some(code) => {
            if !has_handle(m, def) {
                assert(parts(i)[0] is Dangling);
            } else {
                let notes = function_notes(code.locals, i);
                let res = lemma_performs_without(
                    code_plan_at(m, i, code),
                    notes,
                    replies.skip(k),
                    Err(err),
                );
                lemma_annotated_two(
                    res->Err_0,
                    Note::Place(IndexKind::Signature, code.locals.0),
                    Note::Place(IndexKind::FunctionDefinition, table_index(i)),
                );
                assert(function_refuses_first(m, i, k, replies, err));
            }
        },
    }
}

/// Once the function handles went through, the code of all functions goes through if and only if
/// that of each function does when nothing is remembered.
pub proof fn law_code_units_go_through_if_and_only_if_each_does_alone(
    m: CompiledModule,
    oracle: Oracle,
)
    requires
        goes_through(function_signatures_plan(m), oracle),
    ensures
        goes_through(code_units_plan(m), oracle) <==> forall|i: int|
            0 <= i < m.function_defs@.len() ==> ((#[trigger] m.function_defs@[i]).code matches Some(
                code,
            ) ==> has_handle(m, m.function_defs@[i]) && goes_through(
                code_plan(
                    m,
                    Set::empty(),
                    code,
                    function_type_parameters(m, m.function_defs@[i]),
                ),
                oracle,
            )),
{
    let n = m.function_defs@.len();
    let parts = uncached_function_parts(m);
    lemma_uncached_handles(m, m.function_handles@.len(), oracle);
    lemma_uncached_functions(m, n, oracle);
    lemma_ruling_joined(n, parts, oracle);
    assert forall|i: int| 0 <= i < n implies goes_through(#[trigger] parts(i), oracle) == (
    m.function_defs@[i].code matches Some(code) ==> has_handle(m, m.function_defs@[i])
        && goes_through(
        code_plan(m, Set::empty(), code, function_type_parameters(m, m.function_defs@[i])),
        oracle,
    )) by {
        if let Some(code) = m.function_defs@[i].code {
            let type_parameters = function_type_parameters(m, m.function_defs@[i]);
            lemma_ruling_within(
                uncached_code_plan(m, code, type_parameters),
                function_notes(code.locals, i),
                oracle,
            );
            assert(uncached_code_plan(m, code, type_parameters) == code_plan(
                m,
                Set::empty(),
                code,
                type_parameters,
            ));
        }
    }
    if goes_through(code_units_plan(m), oracle) {
        assert forall|i: int| 0 <= i < n implies ((
        #[trigger] m.function_defs@[i]).code matches Some(code) ==> has_handle(
            m,
            m.function_defs@[i],
        ) && goes_through(
            code_plan(m, Set::empty(), code, function_type_parameters(m, m.function_defs@[i])),
            oracle,
        )) by {
            assert(goes_through(parts(i), oracle));
        }
    }
}

/// If the local variables of a function are refused, so is its code, with the same error and
/// nothing asked beyond, whatever its instructions are; and they are not remembered.
pub proof fn law_refused_locals_decide(
    m: CompiledModule,
    checked: Set<Instance>,
    code: CodeUnit,
    type_parameters: Seq<AbilitySet>,
    replies: Seq<Reply>,
    err: ErrorModel,
)
    requires
        performs(
            instantiation_plan(m, checked, locals_instance(code, type_parameters)),
            replies,
            Err(err),
        ),
    ensures
        performs(code_plan(m, checked, code, type_parameters), replies, Err(err)),
        checked_with_refused_code(m, checked, code, type_parameters, replies) == checked,
        forall|other_replies: Seq<Reply>, res: Result<(), ErrorModel>|
            #![trigger performs(code_plan(m, checked, code, type_parameters), other_replies, res)]
            performs(code_plan(m, checked, code, type_parameters), other_replies, res) && (forall|
                i: int,
            |
                0 <= i < replies.len() && i < other_replies.len() ==> (
                #[trigger] replies[i]).answer == other_replies[i].answer) ==> res == Err::<
                (),
                ErrorModel,
            >(err) && other_replies == replies,
{
    let plan = code_plan(m, checked, code, type_parameters);
    lemma_performs_cut(
        instantiation_plan(m, checked, locals_instance(code, type_parameters)),
        replies,
        err,
        joined(code.code@.len(), instruction_parts(m, code.code@, type_parameters)),
    );
    assert forall|other_replies: Seq<Reply>, res: Result<(), ErrorModel>|
        #![trigger performs(code_plan(m, checked, code, type_parameters), other_replies, res)]
        performs(code_plan(m, checked, code, type_parameters), other_replies, res) && (forall|
            i: int,
        |
            0 <= i < replies.len() && i < other_replies.len() ==> (#[trigger] replies[i]).answer
                == other_replies[i].answer) implies res == Err::<(), ErrorModel>(err)
        && other_replies == replies by {
        lemma_same_answers(plan, replies, Err(err), other_replies, res);
    }
}

/// A group of instructions that use type arguments in the same way, and how they lead to them.
pub enum InstructionGroup {
    /// They have none.
    Plain,
    /// A call of a generic function.
    Call(FunctionInstantiationIndex),
    /// Something done with a generic struct.
    Struct(StructDefInstantiationIndex),
    /// A borrow of a field of a generic struct.
    Field(FieldInstantiationIndex),
    /// Something done with a variant of a generic enum.
    Variant(VariantInstantiationHandleIndex),
    /// Something done with a vector.
    Vector(SignatureIndex),
}

/// The group of an instruction.
pub open spec fn instruction_group(instr: Bytecode) -> InstructionGroup {
    match instr {
        Bytecode::CallGeneric(idx) => InstructionGroup::Call(idx),
        Bytecode::PackGeneric(idx)
        | Bytecode::UnpackGeneric(idx)
        | Bytecode::ExistsGenericDeprecated(idx)
        | Bytecode::MoveFromGenericDeprecated(idx)
        | Bytecode::MoveToGenericDeprecated(idx)
        | Bytecode::ImmBorrowGlobalGenericDeprecated(idx)
        | Bytecode::MutBorrowGlobalGenericDeprecated(idx) => InstructionGroup::Struct(idx),
        Bytecode::ImmBorrowFieldGeneric(idx) | Bytecode::MutBorrowFieldGeneric(idx) => {
            InstructionGroup::Field(idx)
        },
        Bytecode::PackVariantGeneric(idx)
        | Bytecode::UnpackVariantGeneric(idx)
        | Bytecode::UnpackVariantGenericImmRef(idx)
        | Bytecode::UnpackVariantGenericMutRef(idx) => InstructionGroup::Variant(idx),
        Bytecode::VecPack(idx, _)
        | Bytecode::VecLen(idx)
        | Bytecode::VecImmBorrow(idx)
        | Bytecode::VecMutBorrow(idx)
        | Bytecode::VecPushBack(idx)
        | Bytecode::VecPopBack(idx)
        | Bytecode::VecUnpack(idx, _)
        | Bytecode::VecSwap(idx) => InstructionGroup::Vector(idx),
        _ => InstructionGroup::Plain,
    }
}

/// Instructions of one group with the same index are checked in the same way.
pub proof fn law_instructions_of_one_group_are_checked_alike(
    m: CompiledModule,
    instr: Bytecode,
    other: Bytecode,
    offset: int,
    type_parameters: Seq<AbilitySet>,
)
    requires
        instruction_group(instr) == instruction_group(other),
    ensures
        instruction_plan(m, instr, offset, type_parameters) == instruction_plan(
            m,
            other,
            offset,
            type_parameters,
        ),
{
    assert(generic_use(m, instr) == generic_use(m, other));
}

/// Exchanging instructions for others of their group changes nothing about the check of a
/// function.
pub proof fn law_instructions_of_one_group_are_interchangeable(
    m: CompiledModule,
    checked: Set<Instance>,
    code: CodeUnit,
    other: CodeUnit,
    type_parameters: Seq<AbilitySet>,
)
    requires
        code.locals == other.locals,
        code.code@.len() == other.code@.len(),
        forall|offset: int|
            0 <= offset < code.code@.len() ==> instruction_group(#[trigger] code.code@[offset])
                == instruction_group(other.code@[offset]),
    ensures
        code_plan(m, checked, code, type_parameters) == code_plan(
            m,
            checked,
            other,
            type_parameters,
        ),
{
    let parts = instruction_parts(m, code.code@, type_parameters);
    let other_parts = instruction_parts(m, other.code@, type_parameters);
    assert forall|offset: int| 0 <= offset < code.code@.len() implies #[trigger] parts(offset)
        == other_parts(offset) by {
        law_instructions_of_one_group_are_checked_alike(
            m,
            code.code@[offset],
            other.code@[offset],
            offset,
            type_parameters,
        );
    }
    lemma_joined_same(code.code@.len(), parts, other_parts);
}

/// Code in which no instruction has type arguments is checked by checking its local variables,
/// and nothing else. If it is refused, nothing more is remembered.
pub proof fn law_plain_code_is_checked_by_its_locals(
    m: CompiledModule,
    checked: Set<Instance>,
    code: CodeUnit,
    type_parameters: Seq<AbilitySet>,
)
    requires
        forall|offset: int|
            0 <= offset < code.code@.len() ==> instruction_group(#[trigger] code.code@[offset])
                == InstructionGroup::Plain,
    ensures
        code_plan(m, checked, code, type_parameters) == instantiation_plan(
            m,
            checked,
            locals_instance(code, type_parameters),
        ),
        forall|replies: Seq<Reply>| #[trigger]
            refuses(code_plan(m, checked, code, type_parameters), replies)
                ==> checked_with_refused_code(m, checked, code, type_parameters, replies)
                == checked,
{
    let parts = instruction_parts(m, code.code@, type_parameters);
    assert forall|offset: int| 0 <= offset < code.code@.len() implies #[trigger] parts(offset)
        == Seq::<Step>::empty() by {
        assert(instruction_group(code.code@[offset]) == InstructionGroup::Plain);
        assert(generic_use(m, code.code@[offset]) == GenericUse::Nothing);
    }
    lemma_joined_nothing(code.code@.len(), parts);
    let first = instantiation_plan(m, checked, locals_instance(code, type_parameters));
    assert(first + Seq::<Step>::empty() =~= first);
}

proof fn lemma_code_goes_through(
    m: CompiledModule,
    checked: Set<Instance>,
    code: CodeUnit,
    type_parameters: Seq<AbilitySet>,
    oracle: Oracle,
)
    ensures
        goes_through(code_plan(m, checked, code, type_parameters), oracle) <==> {
            &&& goes_through(
                instantiation_plan(m, checked, locals_instance(code, type_parameters)),
                oracle,
            )
            &&& forall|offset: int|
                0 <= offset < code.code@.len() ==> instruction_fits(
                    m,
                    #[trigger] code.code@[offset],
                    type_parameters,
                    oracle,
                )
        },
{
    let n = code.code@.len();
    let parts = instruction_parts(m, code.code@, type_parameters);
    lemma_ruling_then(
        instantiation_plan(m, checked, locals_instance(code, type_parameters)),
        joined(n, parts),
        oracle,
    );
    lemma_ruling_joined(n, parts, oracle);
    assert forall|offset: int| 0 <= offset < n implies goes_through(
        #[trigger] parts(offset),
        oracle,
    ) == instruction_fits(m, code.code@[offset], type_parameters, oracle) by {
        lemma_ruling_ok(parts(offset), oracle);
        lemma_instruction_passes(m, code.code@[offset], offset, type_parameters, oracle);
    }
    if goes_through(joined(n, parts), oracle) {
        assert forall|offset: int| 0 <= offset < n implies instruction_fits(
            m,
            #[trigger] code.code@[offset],
            type_parameters,
            oracle,
        ) by {
            assert(goes_through(parts(offset), oracle));
        }
    }
}

/// Whether the code of a function is accepted depends on which instructions occur in it, and not
/// on their order or on how often they do.
pub proof fn law_the_order_of_instructions_does_not_matter(
    m: CompiledModule,
    checked: Set<Instance>,
    code: CodeUnit,
    other: CodeUnit,
    type_parameters: Seq<AbilitySet>,
    oracle: Oracle,
)
    requires
        code.locals == other.locals,
        forall|instr: Bytecode| #[trigger]
            code.code@.contains(instr) <==> other.code@.contains(instr),
    ensures
        goes_through(code_plan(m, checked, code, type_parameters), oracle) <==> goes_through(
            code_plan(m, checked, other, type_parameters),
            oracle,
        ),
{
    lemma_code_goes_through(m, checked, code, type_parameters, oracle);
    lemma_code_goes_through(m, checked, other, type_parameters, oracle);
    lemma_instructions_carry_over(m, code.code@, other.code@, type_parameters, oracle);
    lemma_instructions_carry_over(m, other.code@, code.code@, type_parameters, oracle);
}

proof fn lemma_instructions_carry_over(
    m: CompiledModule,
    code: Seq<Bytecode>,
    other: Seq<Bytecode>,
    type_parameters: Seq<AbilitySet>,
    oracle: Oracle,
)
    requires
        forall|instr: Bytecode| #[trigger] code.contains(instr) ==> other.contains(instr),
    ensures
        (forall|offset: int|
            0 <= offset < other.len() ==> instruction_fits(
                m,
                #[trigger] other[offset],
                type_parameters,
                oracle,
            )) ==> forall|offset: int|
            0 <= offset < code.len() ==> instruction_fits(
                m,
                #[trigger] code[offset],
                type_parameters,
                oracle,
            ),
{
    assert forall|offset: int|
        0 <= offset < code.len() && (forall|i: int|
            0 <= i < other.len() ==> instruction_fits(
                m,
                #[trigger] other[i],
                type_parameters,
                oracle,
            )) implies instruction_fits(m, #[trigger] code[offset], type_parameters, oracle) by {
        assert(code.contains(code[offset]));
        let i = choose|i: int| 0 <= i < other.len() && other[i] == code[offset];
        assert(instruction_fits(m, other[i], type_parameters, oracle));
    }
}

// ---- Phantom type parameters ----

/// A type that is accepted outside phantom position is accepted in it; and unless the type is a
/// type parameter, its position does not matter.
pub proof fn law_phantom_position_matters_to_type_parameters_only(
    m: CompiledModule,
    ty: SignatureToken,
    type_parameters: Seq<DatatypeTyParameter>,
)
    ensures
        performs(phantom_plan(m, ty, false, type_parameters), Seq::empty(), Ok(())) ==> performs(
            phantom_plan(m, ty, true, type_parameters),
            Seq::empty(),
            Ok(()),
        ),
        !(ty is TypeParameter) ==> phantom_plan(m, ty, false, type_parameters) == phantom_plan(
            m,
            ty,
            true,
            type_parameters,
        ),
{
    lemma_performs_nothing();
}

// ---- References ----

/// A reference occurs in two lists of types, one behind the other, if it occurs in one of them.
pub proof fn law_references_in_lists(a: Seq<SignatureToken>, b: Seq<SignatureToken>)
    ensures
        any_reference(a + b) == (any_reference(a) || any_reference(b)),
{
    let both = a + b;
    if any_reference(both) {
        let i = choose|i: int| 0 <= i < both.len() && has_reference(#[trigger] both[i]);
        if i < a.len() {
            assert(has_reference(a[i]));
        } else {
            assert(has_reference(b[i - a.len()]));
        }
    }
    if any_reference(a) {
        let i = choose|i: int| 0 <= i < a.len() && has_reference(#[trigger] a[i]);
        assert(has_reference(both[i]));
    }
    if any_reference(b) {
        let i = choose|i: int| 0 <= i < b.len() && has_reference(#[trigger] b[i]);
        assert(has_reference(both[i + a.len()]));
    }
}

/// Whether a reference occurs in types does not depend on their order, or on how often one is
/// listed.
pub proof fn law_references_in_lists_of_the_same_types(
    a: Seq<SignatureToken>,
    b: Seq<SignatureToken>,
)
    requires
        forall|ty: SignatureToken| #[trigger] a.contains(ty) <==> b.contains(ty),
    ensures
        any_reference(a) == any_reference(b),
        tokens_plan(a) == tokens_plan(b),
{
    if any_reference(a) {
        let i = choose|i: int| 0 <= i < a.len() && has_reference(#[trigger] a[i]);
        assert(a.contains(a[i]));
        let j = choose|j: int| 0 <= j < b.len() && b[j] == a[i];
        assert(has_reference(b[j]));
    }
    if any_reference(b) {
        let i = choose|i: int| 0 <= i < b.len() && has_reference(#[trigger] b[i]);
        assert(b.contains(b[i]));
        assert(a.contains(b[i]));
        let j = choose|j: int| 0 <= j < a.len() && a[j] == b[i];
        assert(has_reference(a[j]));
    }
}

/// A reference occurs in a vector if it does in its element type, in a generic type if it does in
/// one of the type arguments, in a reference in any case, and in other types not at all. The
/// check for references goes accordingly.
pub proof fn law_references_in_types(ty: SignatureToken)
    ensures
        has_reference(ty) == match ty {
            SignatureToken::Reference(_) | SignatureToken::MutableReference(_) => true,
            SignatureToken::Vector(inner) => has_reference(*inner),
            SignatureToken::DatatypeInstantiation(inst) => any_reference(inst.1@),
            _ => false,
        },
        token_plan(ty) == match ty {
            SignatureToken::Reference(_) | SignatureToken::MutableReference(_) => seq![
                Step::Fail(reference_error()),
            ],
            SignatureToken::Vector(inner) => token_plan(*inner),
            SignatureToken::DatatypeInstantiation(inst) => tokens_plan(inst.1@),
            _ => Seq::empty(),
        },
{
}

/// Types in which no reference occurs may stand in a signature; and a type may stand there with a
/// reference around it if no reference occurs in it.
pub proof fn law_types_without_references_may_stand_in_signatures(
    tys: Seq<SignatureToken>,
    inner: Box<SignatureToken>,
)
    ensures
        !any_reference(tys) ==> !any_inner_reference(tys),
        inner_reference(SignatureToken::Reference(inner)) == has_reference(*inner),
        inner_reference(SignatureToken::MutableReference(inner)) == has_reference(*inner),
{
    if any_inner_reference(tys) {
        let i = choose|i: int| 0 <= i < tys.len() && #[trigger] inner_reference(tys[i]);
        assert(has_reference(tys[i]));
    }
}

// ---- Remembering ----

/// What is remembered stays remembered: after more function handles, and after more functions.
/// What is remembered is not checked again.
pub proof fn law_remembered_signatures_are_not_checked_again(
    m: CompiledModule,
    a: nat,
    b: nat,
    checked: Set<Instance>,
    instance: Instance,
)
    requires
        a <= b,
    ensures
        checked_with_handles(m, a).subset_of(checked_with_handles(m, b)),
        checked_with_functions(m, a).subset_of(checked_with_functions(m, b)),
        checked_with_handles(m, m.function_handles@.len()).subset_of(checked_with_functions(m, a)),
        checked.contains(instance) ==> instantiation_plan(m, checked, instance) == Seq::<
            Step,
        >::empty(),
{
    lemma_checked_with_handles_grows(m, a, b);
    lemma_checked_with_functions_grows(m, a, b);
    lemma_checked_with_functions_grows(m, 0, a);
}

/// If the abilities of types are known beforehand, and only signatures that go through are
/// remembered, the check of a signature ends as it would if nothing were remembered.
pub proof fn law_remembering_changes_no_signature(
    m: CompiledModule,
    checked: Set<Instance>,
    instance: Instance,
    oracle: Oracle,
)
    requires
        all_go_through(m, checked, oracle),
    ensures
        ruling(instantiation_plan(m, checked, instance), oracle) == ruling(
            instantiation_plan(m, Set::empty(), instance),
            oracle,
        ),
{
    lemma_remembered(m, checked, instance, oracle);
}

// ---- Type arguments ----

/// A type that goes through under the rules from version 6 on goes through whatever the version
/// is; under the earlier rules, with the first of the same replies.
pub proof fn law_types_accepted_in_every_version(
    m: CompiledModule,
    version: u32,
    ty: SignatureToken,
    type_parameters: Seq<AbilitySet>,
    replies: Seq<Reply>,
)
    requires
        m.version >= VERSION_6,
        performs(type_instantiation_plan(m, ty, type_parameters), replies, Ok(())),
    ensures
        exists|k: int|
            0 <= k <= replies.len() && #[trigger] performs(
                type_instantiation_plan(CompiledModule { version, ..m }, ty, type_parameters),
                replies.take(k),
                Ok(()),
            ),
{
    let other = CompiledModule { version, ..m };
    let nodes = preorder(ty);
    let parts = outer_instantiation_parts(m, nodes, type_parameters);
    if version >= VERSION_6 {
        let other_parts = outer_instantiation_parts(other, nodes, type_parameters);
        assert forall|i: int| 0 <= i < nodes.len() implies #[trigger] parts(i) == other_parts(
            i,
        ) by {}
        lemma_joined_same(nodes.len(), parts, other_parts);
        assert(replies.take(replies.len() as int) =~= replies);
        assert(performs(
            type_instantiation_plan(other, ty, type_parameters),
            replies.take(replies.len() as int),
            Ok(()),
        ));
    } else {
        assert(nodes[0] == ty);
        let rest = lemma_joined_begins(nodes.len(), parts);
        let k = lemma_performs_split(parts(0), rest, replies, Ok(()));
        assert(performs(
            type_instantiation_plan(other, ty, type_parameters),
            replies.take(k),
            Ok(()),
        ));
    }
}

/// If the abilities of types are known beforehand, a type that is accepted under the rules from
/// version 6 on is accepted whatever the version is.
pub proof fn law_types_that_go_through_do_so_in_every_version(
    m: CompiledModule,
    version: u32,
    ty: SignatureToken,
    type_parameters: Seq<AbilitySet>,
    oracle: Oracle,
)
    requires
        m.version >= VERSION_6,
        goes_through(type_instantiation_plan(m, ty, type_parameters), oracle),
    ensures
        goes_through(
            type_instantiation_plan(CompiledModule { version, ..m }, ty, type_parameters),
            oracle,
        ),
{
    let other = CompiledModule { version, ..m };
    lemma_ruling_ok(type_instantiation_plan(m, ty, type_parameters), oracle);
    lemma_ruling_ok(type_instantiation_plan(other, ty, type_parameters), oracle);
    lemma_type_instantiation_passes(m, ty, type_parameters, oracle);
    lemma_type_instantiation_passes(other, ty, type_parameters, oracle);
    lemma_type_fits_in_every_version(m, version, ty, type_parameters, oracle);
}

/// The type itself is checked by checking its type arguments against what its datatype asks of
/// them, if it is a generic type; otherwise there is nothing to check.
pub proof fn law_a_type_is_checked_by_its_type_arguments(
    m: CompiledModule,
    ty: SignatureToken,
    type_parameters: Seq<AbilitySet>,
)
    ensures
        match ty {
            SignatureToken::DatatypeInstantiation(inst) => has_datatype(m, inst.0)
                ==> outer_instantiation_plan(m, ty, type_parameters) == generic_instance_plan(
                inst.1@,
                datatype_at(m, inst.0).constraints(),
                type_parameters,
            ),
            _ => outer_instantiation_plan(m, ty, type_parameters) == Seq::<Step>::empty(),
        },
{
}

/// Type arguments that have the abilities asked of them have them if less is asked.
pub proof fn law_type_arguments_fit_weaker_constraints(
    type_arguments: Seq<SignatureToken>,
    constraints: Seq<AbilitySet>,
    weaker: Seq<AbilitySet>,
    type_parameters: Seq<AbilitySet>,
    oracle: Oracle,
)
    requires
        constraints.len() == weaker.len(),
        forall|i: int| 0 <= i < constraints.len() ==> covers(constraints[i], #[trigger] weaker[i]),
    ensures
        arguments_fit(type_arguments, constraints, type_parameters, oracle) ==> arguments_fit(
            type_arguments,
            weaker,
            type_parameters,
            oracle,
        ),
        goes_through(generic_instance_plan(type_arguments, constraints, type_parameters), oracle)
            ==> goes_through(
            generic_instance_plan(type_arguments, weaker, type_parameters),
            oracle,
        ),
{
    lemma_ruling_ok(
        generic_instance_plan(type_arguments, constraints, type_parameters),
        oracle,
    );
    lemma_ruling_ok(generic_instance_plan(type_arguments, weaker, type_parameters), oracle);
    lemma_generic_instance_passes(type_arguments, constraints, type_parameters, oracle);
    lemma_generic_instance_passes(type_arguments, weaker, type_parameters, oracle);
    if arguments_fit(type_arguments, constraints, type_parameters, oracle) {
        assert forall|i: int| 0 <= i < type_arguments.len() implies suits(
            weaker[i],
            oracle(
                Query {
                    type_parameter_abilities: type_parameters,
                    ty: #[trigger] type_arguments[i],
                },
            ),
        ) by {
            assert(covers(constraints[i], weaker[i]));
        }
    }
}

} // verus!
