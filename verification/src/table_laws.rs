//! What a module is like whose check goes through, or gets past a place, said over the tables of
//! the module.
//!
//! Each law takes a place in the module and says what holds there. It does so when the module is
//! accepted, and also when it is refused because of a later place, which the last place that the
//! error points to tells: so a fault is never passed over for one that comes after it.

use vstd::prelude::*;

use crate::abilities::{covers, Ability, AbilitySet};
use crate::ability_cache::{conversation, AbilityCache};
use crate::acceptance::{
    lemma_enum_passes, lemma_function_passes, lemma_handle_passes, lemma_struct_passes,
};
use crate::errors::{ErrorModel, IndexKind, TableIndex};
use crate::file_format::{
    has_reference, preorder, Bytecode, CodeUnit, CompiledModule, DatatypeHandleIndex,
    DatatypeTyParameter, FieldDefinition, FieldInstantiationIndex, FunctionInstantiationIndex,
    SignatureIndex, SignatureToken, StructDefInstantiationIndex, StructFieldInformation,
    VariantInstantiationHandleIndex,
};
use crate::laws::{generous, honest, law_misplaced_references_are_refused_unasked};
use crate::module_plan::{
    any_bad_signature, any_inner_reference, checked_with_handles, datatype_at, enum_parts,
    enum_plan, field_plan, function_notes, function_parts, handle_notes, handle_parts, handle_plan,
    has_datatype, has_handle, inner_reference, module_plan, reference_error, signature_at,
    struct_field_notes, struct_field_parts, struct_parts, struct_plan, table_index,
    variant_field_notes, variant_field_parts, variant_parts,
};
use crate::part_laws::{code_plan_at, lemma_module_passes_joined, module_passes};
use crate::plan::{
    joined, lemma_performs_joined_refused, lemma_performs_ok, lemma_performs_without, performs,
    within, Note, Plan, Query, Reply, Step,
};
use crate::ruling::{goes_through, lemma_ruling_joined, lemma_ruling_ok, passing, suits, Oracle};
use crate::signature::checks;
use crate::type_laws::{
    law_misplaced_references_occur_inside_a_type, law_references_occur_inside_a_type,
    lemma_phantoms_respected_inside,
};
use crate::well_formed::{
    enum_fits, field_fits, fields_fit, function_fits, handle_fits, instruction_fits,
    lemma_uncached_functions, lemma_uncached_handles, outside_fits, signature_fits, struct_fits,
    type_fits, uncached_function_parts, uncached_handle_parts,
};

verus! {

// ---- Getting past a place ----

/// The passes that look at one table each: the parts of one, for each entry of its table.
pub open spec fn pass_parts(m: CompiledModule, pass: int) -> spec_fn(int) -> Plan {
    if pass == 1 {
        handle_parts(m)
    } else if pass == 2 {
        struct_parts(m)
    } else if pass == 3 {
        enum_parts(m)
    } else {
        function_parts(m)
    }
}

/// The length of the table that a pass looks at.
pub open spec fn pass_len(m: CompiledModule, pass: int) -> nat {
    if pass == 1 {
        m.function_handles@.len()
    } else if pass == 2 {
        m.struct_defs@.len()
    } else if pass == 3 {
        m.enum_defs@.len()
    } else {
        m.function_defs@.len()
    }
}

/// What an entry of the table that a pass looks at is.
pub open spec fn pass_kind(pass: int) -> IndexKind {
    if pass == 1 {
        IndexKind::FunctionHandle
    } else if pass == 2 {
        IndexKind::StructDefinition
    } else if pass == 3 {
        IndexKind::EnumDefinition
    } else {
        IndexKind::FunctionDefinition
    }
}

/// Whether a check that ended in `res` got past the `i`th entry in the pass.
spec fn got_past(m: CompiledModule, res: Result<(), ErrorModel>, pass: int, i: int) -> bool {
    res matches Err(err) ==> err.indices.len() > 0 && ({
        ||| exists|later: int|
            pass < later <= 4 && err.indices.last().0 == #[trigger] pass_kind(later)
        ||| err.indices.last().0 == pass_kind(pass) && i < err.indices.last().1 && pass_len(m, pass)
            <= 0x1_0000
    })
}

proof fn lemma_pass(m: CompiledModule, pass: int)
    requires
        1 <= pass <= 4,
    ensures
        module_passes(m)(pass) == joined(pass_len(m, pass), pass_parts(m, pass)),
{
}

/// The place that the notes of a part end with is what its error ends with.
proof fn lemma_last_place(
    plan: Plan,
    notes: Seq<Note>,
    kind: IndexKind,
    index: TableIndex,
    replies: Seq<Reply>,
    err: ErrorModel,
)
    requires
        performs(within(plan, notes), replies, Err(err)),
        notes.len() > 0,
        notes.last() == Note::Place(kind, index),
    ensures
        err.indices.len() > 0,
        err.indices.last() == (kind, index),
{
    let inner = lemma_performs_without(plan, notes, replies, Err(err));
}

proof fn lemma_part_place(
    m: CompiledModule,
    pass: int,
    i: int,
    replies: Seq<Reply>,
    err: ErrorModel,
)
    requires
        1 <= pass <= 4,
        0 <= i < pass_len(m, pass),
        performs(pass_parts(m, pass)(i), replies, Err(err)),
    ensures
        err.indices.len() > 0,
        err.indices.last() == (pass_kind(pass), table_index(i)),
{
    if pass == 1 {
        lemma_last_place(
            handle_plan(m, checked_with_handles(m, i as nat), m.function_handles@[i]),
            handle_notes(i),
            pass_kind(pass),
            table_index(i),
            replies,
            err,
        );
    } else if pass == 2 {
        let def = m.struct_defs@[i];
        match def.field_information {
            StructFieldInformation::Native => {},
            StructFieldInformation::Declared(fields) => {
                let handle = datatype_at(m, def.struct_handle);
                let parts = struct_field_parts(m, handle, fields@, i);
                if has_datatype(m, def.struct_handle) {
                    let (f, k) = lemma_performs_joined_refused(fields@.len(), parts, replies, err);
                    lemma_last_place(
                        field_plan(m, fields@[f].signature.0, handle),
                        struct_field_notes(f, i),
                        pass_kind(pass),
                        table_index(i),
                        replies.skip(k),
                        err,
                    );
                } else {
                    assert(struct_plan(m, i)[0] is Dangling);
                }
            },
        }
    } else if pass == 3 {
        let def = m.enum_defs@[i];
        let handle = datatype_at(m, def.enum_handle);
        if has_datatype(m, def.enum_handle) {
            let parts = variant_parts(m, handle, def.variants@, i);
            let (tag, k) = lemma_performs_joined_refused(def.variants@.len(), parts, replies, err);
            let fields = def.variants@[tag].fields@;
            let inner_parts = variant_field_parts(m, handle, fields, tag, i);
            let (f, inner_k) = lemma_performs_joined_refused(
                fields.len(),
                inner_parts,
                replies.skip(k),
                err,
            );
            lemma_last_place(
                field_plan(m, fields[f].signature.0, handle),
                variant_field_notes(f, tag, i),
                pass_kind(pass),
                table_index(i),
                replies.skip(k).skip(inner_k),
                err,
            );
        } else {
            assert(enum_plan(m, i)[0] is Dangling);
        }
    } else {
        let def = m.function_defs@[i];
        match def.code {
            None => {},
            Some(code) => {
                if has_handle(m, def) {
                    lemma_last_place(
                        code_plan_at(m, i, code),
                        function_notes(code.locals, i),
                        pass_kind(pass),
                        table_index(i),
                        replies,
                        err,
                    );
                } else {
                    assert(function_parts(m)(i)[0] is Dangling);
                }
            },
        }
    }
}

/// Where a check was refused: in which pass, at which entry, and after how many replies of the
/// pass before and within it.
pub proof fn lemma_refused_where(
    m: CompiledModule,
    replies: Seq<Reply>,
    err: ErrorModel,
) -> (found: (int, int, int, int))
    requires
        performs(module_plan(m), replies, Err(err)),
    ensures
        0 <= found.0 <= 4,
        0 <= found.2 <= replies.len(),
        performs(joined(found.0 as nat, module_passes(m)), replies.take(found.2), Ok(())),
        found.0 == 0 ==> any_bad_signature(m.signatures@) && err == reference_error()
            && replies.len() == 0,
        found.0 > 0 ==> {
            let rest = replies.skip(found.2);
            &&& 0 <= found.1 < pass_len(m, found.0)
            &&& 0 <= found.3 <= rest.len()
            &&& performs(
                joined(found.1 as nat, pass_parts(m, found.0)),
                rest.take(found.3),
                Ok(()),
            )
            &&& performs(pass_parts(m, found.0)(found.1), rest.skip(found.3), Err(err))
            &&& err.indices.len() > 0
            &&& err.indices.last() == (pass_kind(found.0), table_index(found.1))
        },
{
    lemma_module_passes_joined(m);
    let (pass, k) = lemma_performs_joined_refused(5, module_passes(m), replies, err);
    if pass == 0 {
        assert(joined(0, module_passes(m)) =~= Seq::<Step>::empty());
        assert(replies.skip(k).len() == 0);
        assert(replies.take(k).len() == 0);
        (0, 0, k, 0)
    } else {
        lemma_pass(m, pass);
        let rest = replies.skip(k);
        let (i, inner_k) = lemma_performs_joined_refused(
            pass_len(m, pass),
            pass_parts(m, pass),
            rest,
            err,
        );
        lemma_part_place(m, pass, i, rest.skip(inner_k), err);
        (pass, i, k, inner_k)
    }
}

/// Whether the answers that tell abilities are those of the oracle, or the oracle grants
/// everything anyway.
spec fn agrees(replies: Seq<Reply>, oracle: Oracle) -> bool {
    ||| oracle == generous()
    ||| forall|i: int|
        0 <= i < replies.len() && (#[trigger] replies[i]).answer is Ok ==> replies[i].answer
            == oracle(replies[i].query)
}

proof fn lemma_goes_through_as_performed(plan: Plan, replies: Seq<Reply>, oracle: Oracle)
    requires
        performs(plan, replies, Ok(())),
        agrees(replies, oracle),
    ensures
        goes_through(plan, oracle),
{
    lemma_performs_ok(plan, replies);
    lemma_ruling_ok(plan, oracle);
    assert forall|i: int| 0 <= i < plan.len() implies passing(oracle)(#[trigger] plan[i]) by {
        let step = plan[i];
        assert(replies[i].query == step->query);
    }
}

/// What got past an entry went through, with all that came before.
proof fn lemma_got_past(
    m: CompiledModule,
    replies: Seq<Reply>,
    res: Result<(), ErrorModel>,
    pass: int,
    i: int,
    oracle: Oracle,
)
    requires
        performs(module_plan(m), replies, res),
        agrees(replies, oracle),
        1 <= pass <= 4,
        0 <= i < pass_len(m, pass),
        got_past(m, res, pass, i),
    ensures
        goes_through(joined(pass as nat, module_passes(m)), oracle),
        goes_through(joined((i + 1) as nat, pass_parts(m, pass)), oracle),
{
    let passes = module_passes(m);
    let parts = pass_parts(m, pass);
    lemma_module_passes_joined(m);
    lemma_pass(m, pass);
    match res {
        Ok(unit) => {
            assert(unit == ());
            lemma_goes_through_as_performed(module_plan(m), replies, oracle);
            lemma_all_passed(m, 5, pass, i, oracle);
        },
        Err(err) => {
            let (at, entry, k, inner_k) = lemma_refused_where(m, replies, err);
            assert(at > 0);
            lemma_goes_through_as_performed(joined(at as nat, passes), replies.take(k), oracle);
            if at > pass {
                lemma_all_passed(m, at, pass, i, oracle);
            } else {
                assert(at == pass);
                let rest = replies.skip(k);
                lemma_goes_through_as_performed(
                    joined(entry as nat, parts),
                    rest.take(inner_k),
                    oracle,
                );
                assert(i < entry);
                lemma_ruling_joined(entry as nat, parts, oracle);
                lemma_ruling_joined((i + 1) as nat, parts, oracle);
            }
        },
    }
}

proof fn lemma_all_passed(m: CompiledModule, n: int, pass: int, i: int, oracle: Oracle)
    requires
        1 <= pass < n <= 5,
        0 <= i < pass_len(m, pass),
        goes_through(joined(n as nat, module_passes(m)), oracle),
    ensures
        goes_through(joined(pass as nat, module_passes(m)), oracle),
        goes_through(joined((i + 1) as nat, pass_parts(m, pass)), oracle),
{
    let passes = module_passes(m);
    let parts = pass_parts(m, pass);
    lemma_pass(m, pass);
    lemma_ruling_joined(n as nat, passes, oracle);
    lemma_ruling_joined(pass as nat, passes, oracle);
    assert(goes_through(passes(pass), oracle));
    lemma_ruling_joined(pass_len(m, pass), parts, oracle);
    lemma_ruling_joined((i + 1) as nat, parts, oracle);
}

proof fn lemma_handle_got_past(
    m: CompiledModule,
    replies: Seq<Reply>,
    res: Result<(), ErrorModel>,
    i: int,
    oracle: Oracle,
)
    requires
        performs(module_plan(m), replies, res),
        agrees(replies, oracle),
        0 <= i < m.function_handles@.len(),
        got_past(m, res, 1, i),
    ensures
        handle_fits(m, m.function_handles@[i], oracle),
{
    let n = (i + 1) as nat;
    lemma_got_past(m, replies, res, 1, i, oracle);
    lemma_uncached_handles(m, n, oracle);
    lemma_ruling_joined(n, uncached_handle_parts(m), oracle);
    assert(goes_through(uncached_handle_parts(m)(i), oracle));
    lemma_ruling_ok(uncached_handle_parts(m)(i), oracle);
    lemma_handle_passes(m, i, oracle);
}

proof fn lemma_struct_got_past(
    m: CompiledModule,
    replies: Seq<Reply>,
    res: Result<(), ErrorModel>,
    i: int,
    oracle: Oracle,
)
    requires
        performs(module_plan(m), replies, res),
        agrees(replies, oracle),
        0 <= i < m.struct_defs@.len(),
        got_past(m, res, 2, i),
    ensures
        struct_fits(m, m.struct_defs@[i], oracle),
{
    lemma_got_past(m, replies, res, 2, i, oracle);
    lemma_ruling_joined((i + 1) as nat, struct_parts(m), oracle);
    assert(goes_through(struct_parts(m)(i), oracle));
    lemma_ruling_ok(struct_plan(m, i), oracle);
    lemma_struct_passes(m, i, oracle);
}

proof fn lemma_enum_got_past(
    m: CompiledModule,
    replies: Seq<Reply>,
    res: Result<(), ErrorModel>,
    i: int,
    oracle: Oracle,
)
    requires
        performs(module_plan(m), replies, res),
        agrees(replies, oracle),
        0 <= i < m.enum_defs@.len(),
        got_past(m, res, 3, i),
    ensures
        enum_fits(m, m.enum_defs@[i], oracle),
{
    lemma_got_past(m, replies, res, 3, i, oracle);
    lemma_ruling_joined((i + 1) as nat, enum_parts(m), oracle);
    assert(goes_through(enum_parts(m)(i), oracle));
    lemma_ruling_ok(enum_plan(m, i), oracle);
    lemma_enum_passes(m, i, oracle);
}

proof fn lemma_function_got_past(
    m: CompiledModule,
    replies: Seq<Reply>,
    res: Result<(), ErrorModel>,
    i: int,
    oracle: Oracle,
)
    requires
        performs(module_plan(m), replies, res),
        agrees(replies, oracle),
        0 <= i < m.function_defs@.len(),
        got_past(m, res, 4, i),
    ensures
        function_fits(m, m.function_defs@[i], oracle),
{
    let n = (i + 1) as nat;
    lemma_got_past(m, replies, res, 4, i, oracle);
    lemma_ruling_joined(4, module_passes(m), oracle);
    assert(goes_through(module_passes(m)(1), oracle));
    lemma_uncached_handles(m, m.function_handles@.len(), oracle);
    lemma_uncached_functions(m, n, oracle);
    lemma_ruling_joined(n, uncached_function_parts(m), oracle);
    assert(goes_through(uncached_function_parts(m)(i), oracle));
    lemma_ruling_ok(uncached_function_parts(m)(i), oracle);
    lemma_function_passes(m, i, oracle);
}

/// The replies of a check.
proof fn lemma_replies<C: AbilityCache<M>, M>(
    m: CompiledModule,
    before: (C, M),
    after: (C, M),
    res: Result<(), ErrorModel>,
    oracle: Oracle,
) -> (replies: Seq<Reply>)
    requires
        checks(m, before, after, res),
        honest::<C, M>(oracle) || oracle == generous(),
    ensures
        performs(module_plan(m), replies, res),
        agrees(replies, oracle),
{
    let (states, replies) = choose|states: Seq<(C, M)>, replies: Seq<Reply>|
        {
            &&& #[trigger] conversation(states, replies)
            &&& states.first() == before
            &&& states.last() == after
            &&& performs(module_plan(m), replies, res)
        };
    replies
}

/// The type arguments of the `n`th type inside a type that fits.
proof fn lemma_type_fits_inside(
    m: CompiledModule,
    ty: SignatureToken,
    type_parameters: Seq<AbilitySet>,
    oracle: Oracle,
    n: int,
    inst: Box<(DatatypeHandleIndex, Vec<SignatureToken>)>,
    k: int,
)
    requires
        type_fits(m, ty, type_parameters, oracle),
        0 <= n < preorder(ty).len(),
        m.version >= 6 || n == 0,
        preorder(ty)[n] == SignatureToken::DatatypeInstantiation(inst),
    ensures
        inst.0.0 < m.datatype_handles@.len(),
        inst.1@.len() == m.datatype_handles@[inst.0.0 as int].type_parameters@.len(),
        0 <= k < inst.1@.len() ==> (oracle(
            Query { type_parameter_abilities: type_parameters, ty: inst.1@[k] },
        ) matches Ok(given) && {
            let asked = m.datatype_handles@[inst.0.0 as int].type_parameters@[k].constraints;
            &&& asked.copy ==> given.copy
            &&& asked.drop ==> given.drop
            &&& asked.store ==> given.store
            &&& asked.key ==> given.key
        }),
{
    assert(preorder(ty)[0] == ty);
    assert(outside_fits(m, preorder(ty)[n], type_parameters, oracle));
    let declared = datatype_at(m, inst.0);
    if 0 <= k < inst.1@.len() {
        assert(suits(
            declared.constraints()[k],
            oracle(Query { type_parameter_abilities: type_parameters, ty: inst.1@[k] }),
        ));
        let given = oracle(
            Query { type_parameter_abilities: type_parameters, ty: inst.1@[k] },
        )->Ok_0;
        lemma_covers(given, declared.constraints()[k]);
    }
}

/// A set that covers another has each of its abilities.
pub proof fn lemma_covers(set: AbilitySet, subset: AbilitySet)
    requires
        covers(set, subset),
    ensures
        subset.copy ==> set.copy,
        subset.drop ==> set.drop,
        subset.store ==> set.store,
        subset.key ==> set.key,
{
    assert(subset.has(Ability::Copy) ==> set.has(Ability::Copy));
    assert(subset.has(Ability::Drop) ==> set.has(Ability::Drop));
    assert(subset.has(Ability::Store) ==> set.has(Ability::Store));
    assert(subset.has(Ability::Key) ==> set.has(Ability::Key));
}

// ---- Where an error points ----

/// An error points to no place, or the last place it points to is a function handle, a struct, an
/// enum or a function definition.
pub proof fn law_errors_point_to_an_entry<C: AbilityCache<M>, M>(
    m: CompiledModule,
    before: (C, M),
    after: (C, M),
    err: ErrorModel,
)
    requires
        checks(m, before, after, Err(err)),
    ensures
        err.indices.len() > 0 ==> ({
            ||| err.indices.last().0 == IndexKind::FunctionHandle
            ||| err.indices.last().0 == IndexKind::StructDefinition
            ||| err.indices.last().0 == IndexKind::EnumDefinition
            ||| err.indices.last().0 == IndexKind::FunctionDefinition
        }),
{
    let replies = lemma_replies(m, before, after, Err(err), generous());
    let (pass, i, a, b) = lemma_refused_where(m, replies, err);
}

// ---- Signatures ----

/// Inside a type of a signature there is no reference, other than the type itself.
pub proof fn law_signatures_hold_references_outside_only<C: AbilityCache<M>, M>(
    m: CompiledModule,
    before: (C, M),
    after: (C, M),
    res: Result<(), ErrorModel>,
    i: int,
    j: int,
    n: int,
)
    requires
        checks(m, before, after, res),
        res matches Err(err) ==> err.indices.len() > 0,
        0 <= i < m.signatures@.len(),
        i < 0x1_0000,
        0 <= j < m.signatures@[i].0@.len(),
        0 < n < preorder(m.signatures@[i].0@[j]).len(),
    ensures
        !(preorder(m.signatures@[i].0@[j])[n] is Reference),
        !(preorder(m.signatures@[i].0@[j])[n] is MutableReference),
{
    let replies = lemma_replies(m, before, after, res, generous());
    let ty = m.signatures@[i].0@[j];
    if preorder(ty)[n] is Reference || preorder(ty)[n] is MutableReference {
        law_misplaced_references_occur_inside_a_type(ty);
        assert(inner_reference(m.signatures@[i].0@[j]));
        assert(any_inner_reference(m.signatures@[i].0@));
        assert(any_bad_signature(m.signatures@));
        law_misplaced_references_are_refused_unasked(m, replies, res);
    }
}

/// Every generic type in the parameter and return types of a function handle, and from version 6
/// on every one inside those, has as many type arguments as its datatype declares, and each has
/// the abilities that are asked of it, where the type parameters are those of the handle.
pub proof fn law_types_of_function_handles_fit<C: AbilityCache<M>, M>(
    m: CompiledModule,
    before: (C, M),
    after: (C, M),
    res: Result<(), ErrorModel>,
    oracle: Oracle,
    i: int,
    idx: SignatureIndex,
    j: int,
    n: int,
    inst: Box<(DatatypeHandleIndex, Vec<SignatureToken>)>,
    k: int,
)
    requires
        checks(m, before, after, res),
        honest::<C, M>(oracle),
        0 <= i < m.function_handles@.len(),
        res matches Err(err) ==> err.indices.len() > 0 && ({
            ||| err.indices.last().0 == IndexKind::StructDefinition
            ||| err.indices.last().0 == IndexKind::EnumDefinition
            ||| err.indices.last().0 == IndexKind::FunctionDefinition
            ||| err.indices.last().0 == IndexKind::FunctionHandle && i < err.indices.last().1
                && m.function_handles@.len() <= 0x1_0000
        }),
        idx == m.function_handles@[i].return_ || idx == m.function_handles@[i].parameters,
    ensures
        idx.0 < m.signatures@.len(),
        0 <= j < m.signatures@[idx.0 as int].0@.len() && 0 <= n < preorder(
            m.signatures@[idx.0 as int].0@[j],
        ).len() && (m.version >= 6 || n == 0) && preorder(m.signatures@[idx.0 as int].0@[j])[n]
            == SignatureToken::DatatypeInstantiation(inst) ==> {
            &&& inst.0.0 < m.datatype_handles@.len()
            &&& inst.1@.len() == m.datatype_handles@[inst.0.0 as int].type_parameters@.len()
            &&& 0 <= k < inst.1@.len() ==> (oracle(
                Query {
                    type_parameter_abilities: m.function_handles@[i].type_parameters@,
                    ty: inst.1@[k],
                },
            ) matches Ok(given) && {
                let asked = m.datatype_handles@[inst.0.0 as int].type_parameters@[k].constraints;
                &&& asked.copy ==> given.copy
                &&& asked.drop ==> given.drop
                &&& asked.store ==> given.store
                &&& asked.key ==> given.key
            })
        },
{
    let replies = lemma_replies(m, before, after, res, oracle);
    assert(pass_kind(2) == IndexKind::StructDefinition);
    assert(pass_kind(3) == IndexKind::EnumDefinition);
    assert(pass_kind(4) == IndexKind::FunctionDefinition);
    lemma_handle_got_past(m, replies, res, i, oracle);
    let handle = m.function_handles@[i];
    let tys = signature_at(m, idx);
    assert(signature_fits(m, (idx, handle.type_parameters@), oracle));
    if 0 <= j < tys.len() && 0 <= n < preorder(tys[j]).len() && (m.version >= 6 || n == 0)
        && preorder(tys[j])[n] == SignatureToken::DatatypeInstantiation(inst) {
        assert(type_fits(m, signature_at(m, idx)[j], handle.type_parameters@, oracle));
        lemma_type_fits_inside(m, tys[j], handle.type_parameters@, oracle, n, inst, k);
    }
}

/// Every generic type in the types of the local variables of a function, and from version 6 on
/// every one inside those, has as many type arguments as its datatype declares, and each has the
/// abilities that are asked of it, where the type parameters are those of the function.
pub proof fn law_types_of_locals_fit<C: AbilityCache<M>, M>(
    m: CompiledModule,
    before: (C, M),
    after: (C, M),
    res: Result<(), ErrorModel>,
    oracle: Oracle,
    i: int,
    code: CodeUnit,
    j: int,
    n: int,
    inst: Box<(DatatypeHandleIndex, Vec<SignatureToken>)>,
    k: int,
)
    requires
        checks(m, before, after, res),
        honest::<C, M>(oracle),
        0 <= i < m.function_defs@.len(),
        res matches Err(err) ==> err.indices.len() > 0 && ({
            ||| err.indices.last().0 == IndexKind::FunctionDefinition && i < err.indices.last().1
                && m.function_defs@.len() <= 0x1_0000
        }),
        m.function_defs@[i].code == Some(code),
    ensures
        m.function_defs@[i].function.0 < m.function_handles@.len(),
        code.locals.0 < m.signatures@.len(),
        0 <= j < m.signatures@[code.locals.0 as int].0@.len() && 0 <= n < preorder(
            m.signatures@[code.locals.0 as int].0@[j],
        ).len() && (m.version >= 6 || n == 0) && preorder(m.signatures@[code.locals.0 as int].0@[j])[n]
            == SignatureToken::DatatypeInstantiation(inst) ==> {
            &&& inst.0.0 < m.datatype_handles@.len()
            &&& inst.1@.len() == m.datatype_handles@[inst.0.0 as int].type_parameters@.len()
            &&& 0 <= k < inst.1@.len() ==> (oracle(
                Query {
                    type_parameter_abilities: m.function_handles@[m.function_defs@[i].function.0 as int].type_parameters@,
                    ty: inst.1@[k],
                },
            ) matches Ok(given) && {
                let asked = m.datatype_handles@[inst.0.0 as int].type_parameters@[k].constraints;
                &&& asked.copy ==> given.copy
                &&& asked.drop ==> given.drop
                &&& asked.store ==> given.store
                &&& asked.key ==> given.key
            })
        },
{
    let replies = lemma_replies(m, before, after, res, oracle);
    lemma_function_got_past(m, replies, res, i, oracle);
    let context = m.function_handles@[m.function_defs@[i].function.0 as int].type_parameters@;
    let tys = signature_at(m, code.locals);
    assert(signature_fits(m, (code.locals, context), oracle));
    if 0 <= j < tys.len() && 0 <= n < preorder(tys[j]).len() && (m.version >= 6 || n == 0)
        && preorder(tys[j])[n] == SignatureToken::DatatypeInstantiation(inst) {
        assert(type_fits(m, signature_at(m, code.locals)[j], context, oracle));
        lemma_type_fits_inside(m, tys[j], context, oracle, n, inst, k);
    }
}

// ---- Fields ----

/// Every generic type that is the type of a field of a struct, and from version 6 on every one
/// inside it, has as many type arguments as its datatype declares, and each has the abilities
/// that are asked of it, where the type parameters are those of the struct, with the abilities it
/// asks of them.
pub proof fn law_types_of_fields_of_structs_fit<C: AbilityCache<M>, M>(
    m: CompiledModule,
    before: (C, M),
    after: (C, M),
    res: Result<(), ErrorModel>,
    oracle: Oracle,
    i: int,
    fields: Vec<FieldDefinition>,
    f: int,
    ty: SignatureToken,
    n: int,
    inst: Box<(DatatypeHandleIndex, Vec<SignatureToken>)>,
    k: int,
    context: Seq<AbilitySet>,
)
    requires
        checks(m, before, after, res),
        honest::<C, M>(oracle),
        0 <= i < m.struct_defs@.len(),
        res matches Err(err) ==> err.indices.len() > 0 && ({
            ||| err.indices.last().0 == IndexKind::EnumDefinition
            ||| err.indices.last().0 == IndexKind::FunctionDefinition
            ||| err.indices.last().0 == IndexKind::StructDefinition && i < err.indices.last().1
                && m.struct_defs@.len() <= 0x1_0000
        }),
        m.struct_defs@[i].field_information == StructFieldInformation::Declared(fields),
        0 <= f < fields@.len(),
        ty == fields@[f].signature.0,
        0 <= n < preorder(ty).len(),
        m.version >= 6 || n == 0,
        preorder(ty)[n] == SignatureToken::DatatypeInstantiation(inst),
        context.len() == m.datatype_handles@[m.struct_defs@[i].struct_handle.0 as int].type_parameters@.len(),
        forall|q: int|
            0 <= q < context.len() ==> #[trigger] context[q]
                == m.datatype_handles@[m.struct_defs@[i].struct_handle.0 as int].type_parameters@[q].constraints,
    ensures
        m.struct_defs@[i].struct_handle.0 < m.datatype_handles@.len(),
        inst.0.0 < m.datatype_handles@.len(),
        inst.1@.len() == m.datatype_handles@[inst.0.0 as int].type_parameters@.len(),
        0 <= k < inst.1@.len() ==> (oracle(
            Query { type_parameter_abilities: context, ty: inst.1@[k] },
        ) matches Ok(given) && {
            let asked = m.datatype_handles@[inst.0.0 as int].type_parameters@[k].constraints;
            &&& asked.copy ==> given.copy
            &&& asked.drop ==> given.drop
            &&& asked.store ==> given.store
            &&& asked.key ==> given.key
        }),
{
    let replies = lemma_replies(m, before, after, res, oracle);
    assert(pass_kind(3) == IndexKind::EnumDefinition);
    assert(pass_kind(4) == IndexKind::FunctionDefinition);
    lemma_struct_got_past(m, replies, res, i, oracle);
    let handle = datatype_at(m, m.struct_defs@[i].struct_handle);
    assert(field_fits(m, fields@[f].signature.0, handle, oracle));
    assert(context =~= handle.constraints());
    lemma_type_fits_inside(m, ty, context, oracle, n, inst, k);
}

/// Whatever the ability cache says, inside the type of a field of a struct there is no
/// reference, not even the type itself; and no phantom type parameter of the struct makes up the
/// whole type, stands directly in a vector, or stands directly as a type argument where a
/// parameter is declared that is not phantom.
pub proof fn law_fields_of_structs_hold_no_references_and_respect_phantoms<C: AbilityCache<M>, M>(
    m: CompiledModule,
    before: (C, M),
    after: (C, M),
    res: Result<(), ErrorModel>,
    i: int,
    fields: Vec<FieldDefinition>,
    f: int,
    ty: SignatureToken,
    n: int,
    type_parameters: Seq<DatatypeTyParameter>,
)
    requires
        checks(m, before, after, res),
        0 <= i < m.struct_defs@.len(),
        res matches Err(err) ==> err.indices.len() > 0 && ({
            ||| err.indices.last().0 == IndexKind::EnumDefinition
            ||| err.indices.last().0 == IndexKind::FunctionDefinition
            ||| err.indices.last().0 == IndexKind::StructDefinition && i < err.indices.last().1
                && m.struct_defs@.len() <= 0x1_0000
        }),
        m.struct_defs@[i].field_information == StructFieldInformation::Declared(fields),
        0 <= f < fields@.len(),
        ty == fields@[f].signature.0,
        0 <= n < preorder(ty).len(),
        type_parameters == m.datatype_handles@[m.struct_defs@[i].struct_handle.0 as int].type_parameters@,
    ensures
        m.struct_defs@[i].struct_handle.0 < m.datatype_handles@.len(),
        !(preorder(ty)[n] is Reference),
        !(preorder(ty)[n] is MutableReference),
        ty matches SignatureToken::TypeParameter(idx) ==> idx
            < type_parameters.len() && !type_parameters[idx as int].is_phantom,
        match preorder(ty)[n] {
            SignatureToken::Vector(inner) => *inner matches SignatureToken::TypeParameter(idx)
                ==> idx < type_parameters.len() && !type_parameters[idx as int].is_phantom,
            SignatureToken::DatatypeInstantiation(inst) => {
                &&& inst.0.0 < m.datatype_handles@.len()
                &&& inst.1@.len() <= m.datatype_handles@[inst.0.0 as int].type_parameters@.len()
                &&& forall|j: int|
                    0 <= j < inst.1@.len() ==> (#[trigger] inst.1@[
                        j
                    ] matches SignatureToken::TypeParameter(idx) ==> {
                        &&& idx < type_parameters.len()
                        &&& type_parameters[idx as int].is_phantom
                            ==> m.datatype_handles@[inst.0.0 as int].type_parameters@[j].is_phantom
                    })
            },
            _ => true,
        },
{
    let oracle = generous();
    let replies = lemma_replies(m, before, after, res, oracle);
    assert(pass_kind(3) == IndexKind::EnumDefinition);
    assert(pass_kind(4) == IndexKind::FunctionDefinition);
    lemma_struct_got_past(m, replies, res, i, oracle);
    let handle = datatype_at(m, m.struct_defs@[i].struct_handle);
    assert(field_fits(m, fields@[f].signature.0, handle, oracle));
    law_references_occur_inside_a_type(ty);
    lemma_phantoms_respected_inside(m, ty, type_parameters, n);
}

/// Every generic type that is the type of a field of a variant of an enum, and from version 6 on
/// every one inside it, has as many type arguments as its datatype declares, and each has the
/// abilities that are asked of it, where the type parameters are those of the enum, with the
/// abilities it asks of them.
pub proof fn law_types_of_fields_of_enums_fit<C: AbilityCache<M>, M>(
    m: CompiledModule,
    before: (C, M),
    after: (C, M),
    res: Result<(), ErrorModel>,
    oracle: Oracle,
    i: int,
    tag: int,
    f: int,
    ty: SignatureToken,
    n: int,
    inst: Box<(DatatypeHandleIndex, Vec<SignatureToken>)>,
    k: int,
    context: Seq<AbilitySet>,
)
    requires
        checks(m, before, after, res),
        honest::<C, M>(oracle),
        0 <= i < m.enum_defs@.len(),
        res matches Err(err) ==> err.indices.len() > 0 && ({
            ||| err.indices.last().0 == IndexKind::FunctionDefinition
            ||| err.indices.last().0 == IndexKind::EnumDefinition && i < err.indices.last().1
                && m.enum_defs@.len() <= 0x1_0000
        }),
        0 <= tag < m.enum_defs@[i].variants@.len(),
        0 <= f < m.enum_defs@[i].variants@[tag].fields@.len(),
        ty == m.enum_defs@[i].variants@[tag].fields@[f].signature.0,
        0 <= n < preorder(ty).len(),
        m.version >= 6 || n == 0,
        preorder(ty)[n] == SignatureToken::DatatypeInstantiation(inst),
        context.len() == m.datatype_handles@[m.enum_defs@[i].enum_handle.0 as int].type_parameters@.len(),
        forall|q: int|
            0 <= q < context.len() ==> #[trigger] context[q]
                == m.datatype_handles@[m.enum_defs@[i].enum_handle.0 as int].type_parameters@[q].constraints,
    ensures
        m.enum_defs@[i].enum_handle.0 < m.datatype_handles@.len(),
        inst.0.0 < m.datatype_handles@.len(),
        inst.1@.len() == m.datatype_handles@[inst.0.0 as int].type_parameters@.len(),
        0 <= k < inst.1@.len() ==> (oracle(
            Query { type_parameter_abilities: context, ty: inst.1@[k] },
        ) matches Ok(given) && {
            let asked = m.datatype_handles@[inst.0.0 as int].type_parameters@[k].constraints;
            &&& asked.copy ==> given.copy
            &&& asked.drop ==> given.drop
            &&& asked.store ==> given.store
            &&& asked.key ==> given.key
        }),
{
    let replies = lemma_replies(m, before, after, res, oracle);
    assert(pass_kind(4) == IndexKind::FunctionDefinition);
    lemma_enum_got_past(m, replies, res, i, oracle);
    let handle = datatype_at(m, m.enum_defs@[i].enum_handle);
    assert(fields_fit(m, m.enum_defs@[i].variants@[tag].fields@, handle, oracle));
    assert(field_fits(
        m,
        m.enum_defs@[i].variants@[tag].fields@[f].signature.0,
        handle,
        oracle,
    ));
    assert(context =~= handle.constraints());
    lemma_type_fits_inside(m, ty, context, oracle, n, inst, k);
}

/// Whatever the ability cache says, inside the type of a field of a variant of an enum there is no
/// reference, not even the type itself; and no phantom type parameter of the enum makes up the
/// whole type, stands directly in a vector, or stands directly as a type argument where a
/// parameter is declared that is not phantom.
pub proof fn law_fields_of_enums_hold_no_references_and_respect_phantoms<C: AbilityCache<M>, M>(
    m: CompiledModule,
    before: (C, M),
    after: (C, M),
    res: Result<(), ErrorModel>,
    i: int,
    tag: int,
    f: int,
    ty: SignatureToken,
    n: int,
    type_parameters: Seq<DatatypeTyParameter>,
)
    requires
        checks(m, before, after, res),
        0 <= i < m.enum_defs@.len(),
        res matches Err(err) ==> err.indices.len() > 0 && ({
            ||| err.indices.last().0 == IndexKind::FunctionDefinition
            ||| err.indices.last().0 == IndexKind::EnumDefinition && i < err.indices.last().1
                && m.enum_defs@.len() <= 0x1_0000
        }),
        0 <= tag < m.enum_defs@[i].variants@.len(),
        0 <= f < m.enum_defs@[i].variants@[tag].fields@.len(),
        ty == m.enum_defs@[i].variants@[tag].fields@[f].signature.0,
        0 <= n < preorder(ty).len(),
        type_parameters == m.datatype_handles@[m.enum_defs@[i].enum_handle.0 as int].type_parameters@,
    ensures
        m.enum_defs@[i].enum_handle.0 < m.datatype_handles@.len(),
        !(preorder(ty)[n] is Reference),
        !(preorder(ty)[n] is MutableReference),
        ty matches SignatureToken::TypeParameter(idx) ==> idx
            < type_parameters.len() && !type_parameters[idx as int].is_phantom,
        match preorder(ty)[n] {
            SignatureToken::Vector(inner) => *inner matches SignatureToken::TypeParameter(idx)
                ==> idx < type_parameters.len() && !type_parameters[idx as int].is_phantom,
            SignatureToken::DatatypeInstantiation(inst) => {
                &&& inst.0.0 < m.datatype_handles@.len()
                &&& inst.1@.len() <= m.datatype_handles@[inst.0.0 as int].type_parameters@.len()
                &&& forall|j: int|
                    0 <= j < inst.1@.len() ==> (#[trigger] inst.1@[
                        j
                    ] matches SignatureToken::TypeParameter(idx) ==> {
                        &&& idx < type_parameters.len()
                        &&& type_parameters[idx as int].is_phantom
                            ==> m.datatype_handles@[inst.0.0 as int].type_parameters@[j].is_phantom
                    })
            },
            _ => true,
        },
{
    let oracle = generous();
    let replies = lemma_replies(m, before, after, res, oracle);
    assert(pass_kind(4) == IndexKind::FunctionDefinition);
    lemma_enum_got_past(m, replies, res, i, oracle);
    let handle = datatype_at(m, m.enum_defs@[i].enum_handle);
    assert(fields_fit(m, m.enum_defs@[i].variants@[tag].fields@, handle, oracle));
    assert(field_fits(
        m,
        m.enum_defs@[i].variants@[tag].fields@[f].signature.0,
        handle,
        oracle,
    ));
    law_references_occur_inside_a_type(ty);
    lemma_phantoms_respected_inside(m, ty, type_parameters, n);
}

// ---- Instructions ----

/// The type arguments that a call gives a generic function are as many as that function declares,
/// no reference occurs in them, and each has the abilities that are asked of it, where the type
/// parameters are those of the function that holds the instruction.
pub proof fn law_type_arguments_of_generic_calls_fit<C: AbilityCache<M>, M>(
    m: CompiledModule,
    before: (C, M),
    after: (C, M),
    res: Result<(), ErrorModel>,
    oracle: Oracle,
    i: int,
    code: CodeUnit,
    offset: int,
    idx: FunctionInstantiationIndex,
    k: int,
    n: int,
)
    requires
        checks(m, before, after, res),
        honest::<C, M>(oracle),
        0 <= i < m.function_defs@.len(),
        res matches Err(err) ==> err.indices.len() > 0 && ({
            ||| err.indices.last().0 == IndexKind::FunctionDefinition && i < err.indices.last().1
                && m.function_defs@.len() <= 0x1_0000
        }),
        m.function_defs@[i].code == Some(code),
        0 <= offset < code.code@.len(),
        ({
            ||| code.code@[offset] == Bytecode::CallGeneric(idx)
        }),
    ensures
        ({
            let inst = m.function_instantiations@[idx.0 as int];
            let declared = m.function_handles@[inst.handle.0 as int].type_parameters@;
            let tys = m.signatures@[inst.type_parameters.0 as int].0@;
            let context = m.function_handles@[
                m.function_defs@[i].function.0 as int
            ].type_parameters@;
            &&& m.function_defs@[i].function.0 < m.function_handles@.len()
            &&& idx.0 < m.function_instantiations@.len()
            &&& inst.handle.0 < m.function_handles@.len()
            &&& inst.type_parameters.0 < m.signatures@.len()
            &&& tys.len() == declared.len()
            &&& 0 <= k < tys.len() ==> (oracle(
                Query { type_parameter_abilities: context, ty: tys[k] },
            ) matches Ok(given) && {
                let asked = declared[k];
                &&& asked.copy ==> given.copy
                &&& asked.drop ==> given.drop
                &&& asked.store ==> given.store
                &&& asked.key ==> given.key
            })
            &&& 0 <= k < tys.len() && 0 <= n < preorder(tys[k]).len() ==> !(preorder(tys[k])[n]
                is Reference) && !(preorder(tys[k])[n] is MutableReference)
        }),
{
    let replies = lemma_replies(m, before, after, res, oracle);
    lemma_function_got_past(m, replies, res, i, oracle);
    let context = m.function_handles@[m.function_defs@[i].function.0 as int].type_parameters@;
    assert(instruction_fits(m, code.code@[offset], context, oracle));
    let inst = m.function_instantiations@[idx.0 as int];
    let declared = m.function_handles@[inst.handle.0 as int].type_parameters@;
    let tys = m.signatures@[inst.type_parameters.0 as int].0@;
    let constraints = declared;
    if 0 <= k < tys.len() {
        let query = Query { type_parameter_abilities: context, ty: tys[k] };
        assert(suits(constraints[k], oracle(query)));
        lemma_covers(oracle(query)->Ok_0, constraints[k]);
    }
    if 0 <= k < tys.len() && 0 <= n < preorder(tys[k]).len() {
        assert(!has_reference(tys[k]));
        law_references_occur_inside_a_type(tys[k]);
    }
}

/// The type arguments that an instruction gives a generic struct are as many as that struct
/// declares, no reference occurs in them, and each has the abilities that are asked of it, where
/// the type parameters are those of the function that holds the instruction.
pub proof fn law_type_arguments_of_generic_structs_fit<C: AbilityCache<M>, M>(
    m: CompiledModule,
    before: (C, M),
    after: (C, M),
    res: Result<(), ErrorModel>,
    oracle: Oracle,
    i: int,
    code: CodeUnit,
    offset: int,
    idx: StructDefInstantiationIndex,
    k: int,
    n: int,
)
    requires
        checks(m, before, after, res),
        honest::<C, M>(oracle),
        0 <= i < m.function_defs@.len(),
        res matches Err(err) ==> err.indices.len() > 0 && ({
            ||| err.indices.last().0 == IndexKind::FunctionDefinition && i < err.indices.last().1
                && m.function_defs@.len() <= 0x1_0000
        }),
        m.function_defs@[i].code == Some(code),
        0 <= offset < code.code@.len(),
        ({
            ||| code.code@[offset] == Bytecode::PackGeneric(idx)
            ||| code.code@[offset] == Bytecode::UnpackGeneric(idx)
            ||| code.code@[offset] == Bytecode::ExistsGenericDeprecated(idx)
            ||| code.code@[offset] == Bytecode::MoveFromGenericDeprecated(idx)
            ||| code.code@[offset] == Bytecode::MoveToGenericDeprecated(idx)
            ||| code.code@[offset] == Bytecode::ImmBorrowGlobalGenericDeprecated(idx)
            ||| code.code@[offset] == Bytecode::MutBorrowGlobalGenericDeprecated(idx)
        }),
    ensures
        ({
            let inst = m.struct_def_instantiations@[idx.0 as int];
            let handle = m.struct_defs@[inst.def.0 as int].struct_handle;
            let declared = m.datatype_handles@[handle.0 as int].type_parameters@;
            let tys = m.signatures@[inst.type_parameters.0 as int].0@;
            let context = m.function_handles@[
                m.function_defs@[i].function.0 as int
            ].type_parameters@;
            &&& m.function_defs@[i].function.0 < m.function_handles@.len()
            &&& idx.0 < m.struct_def_instantiations@.len()
            &&& inst.def.0 < m.struct_defs@.len()
            &&& handle.0 < m.datatype_handles@.len()
            &&& inst.type_parameters.0 < m.signatures@.len()
            &&& tys.len() == declared.len()
            &&& 0 <= k < tys.len() ==> (oracle(
                Query { type_parameter_abilities: context, ty: tys[k] },
            ) matches Ok(given) && {
                let asked = declared[k].constraints;
                &&& asked.copy ==> given.copy
                &&& asked.drop ==> given.drop
                &&& asked.store ==> given.store
                &&& asked.key ==> given.key
            })
            &&& 0 <= k < tys.len() && 0 <= n < preorder(tys[k]).len() ==> !(preorder(tys[k])[n]
                is Reference) && !(preorder(tys[k])[n] is MutableReference)
        }),
{
    let replies = lemma_replies(m, before, after, res, oracle);
    lemma_function_got_past(m, replies, res, i, oracle);
    let context = m.function_handles@[m.function_defs@[i].function.0 as int].type_parameters@;
    assert(instruction_fits(m, code.code@[offset], context, oracle));
    let inst = m.struct_def_instantiations@[idx.0 as int];
    let handle = m.struct_defs@[inst.def.0 as int].struct_handle;
    let declared = m.datatype_handles@[handle.0 as int].type_parameters@;
    let tys = m.signatures@[inst.type_parameters.0 as int].0@;
    let constraints = datatype_at(m, handle).constraints();
    if 0 <= k < tys.len() {
        let query = Query { type_parameter_abilities: context, ty: tys[k] };
        assert(suits(constraints[k], oracle(query)));
        lemma_covers(oracle(query)->Ok_0, constraints[k]);
    }
    if 0 <= k < tys.len() && 0 <= n < preorder(tys[k]).len() {
        assert(!has_reference(tys[k]));
        law_references_occur_inside_a_type(tys[k]);
    }
}

/// The type arguments that a borrow of a field gives the struct that owns it are as many as that
/// struct declares, no reference occurs in them, and each has the abilities that are asked of it,
/// where the type parameters are those of the function that holds the instruction.
pub proof fn law_type_arguments_of_generic_fields_fit<C: AbilityCache<M>, M>(
    m: CompiledModule,
    before: (C, M),
    after: (C, M),
    res: Result<(), ErrorModel>,
    oracle: Oracle,
    i: int,
    code: CodeUnit,
    offset: int,
    idx: FieldInstantiationIndex,
    k: int,
    n: int,
)
    requires
        checks(m, before, after, res),
        honest::<C, M>(oracle),
        0 <= i < m.function_defs@.len(),
        res matches Err(err) ==> err.indices.len() > 0 && ({
            ||| err.indices.last().0 == IndexKind::FunctionDefinition && i < err.indices.last().1
                && m.function_defs@.len() <= 0x1_0000
        }),
        m.function_defs@[i].code == Some(code),
        0 <= offset < code.code@.len(),
        ({
            ||| code.code@[offset] == Bytecode::ImmBorrowFieldGeneric(idx)
            ||| code.code@[offset] == Bytecode::MutBorrowFieldGeneric(idx)
        }),
    ensures
        ({
            let inst = m.field_instantiations@[idx.0 as int];
            let owner = m.field_handles@[inst.handle.0 as int].owner;
            let handle = m.struct_defs@[owner.0 as int].struct_handle;
            let declared = m.datatype_handles@[handle.0 as int].type_parameters@;
            let tys = m.signatures@[inst.type_parameters.0 as int].0@;
            let context = m.function_handles@[
                m.function_defs@[i].function.0 as int
            ].type_parameters@;
            &&& m.function_defs@[i].function.0 < m.function_handles@.len()
            &&& idx.0 < m.field_instantiations@.len()
            &&& inst.handle.0 < m.field_handles@.len()
            &&& owner.0 < m.struct_defs@.len()
            &&& handle.0 < m.datatype_handles@.len()
            &&& inst.type_parameters.0 < m.signatures@.len()
            &&& tys.len() == declared.len()
            &&& 0 <= k < tys.len() ==> (oracle(
                Query { type_parameter_abilities: context, ty: tys[k] },
            ) matches Ok(given) && {
                let asked = declared[k].constraints;
                &&& asked.copy ==> given.copy
                &&& asked.drop ==> given.drop
                &&& asked.store ==> given.store
                &&& asked.key ==> given.key
            })
            &&& 0 <= k < tys.len() && 0 <= n < preorder(tys[k]).len() ==> !(preorder(tys[k])[n]
                is Reference) && !(preorder(tys[k])[n] is MutableReference)
        }),
{
    let replies = lemma_replies(m, before, after, res, oracle);
    lemma_function_got_past(m, replies, res, i, oracle);
    let context = m.function_handles@[m.function_defs@[i].function.0 as int].type_parameters@;
    assert(instruction_fits(m, code.code@[offset], context, oracle));
    let inst = m.field_instantiations@[idx.0 as int];
    let owner = m.field_handles@[inst.handle.0 as int].owner;
    let handle = m.struct_defs@[owner.0 as int].struct_handle;
    let declared = m.datatype_handles@[handle.0 as int].type_parameters@;
    let tys = m.signatures@[inst.type_parameters.0 as int].0@;
    let constraints = datatype_at(m, handle).constraints();
    if 0 <= k < tys.len() {
        let query = Query { type_parameter_abilities: context, ty: tys[k] };
        assert(suits(constraints[k], oracle(query)));
        lemma_covers(oracle(query)->Ok_0, constraints[k]);
    }
    if 0 <= k < tys.len() && 0 <= n < preorder(tys[k]).len() {
        assert(!has_reference(tys[k]));
        law_references_occur_inside_a_type(tys[k]);
    }
}

/// The type arguments that an instruction on a variant gives its generic enum are as many as that
/// enum declares, no reference occurs in them, and each has the abilities that are asked of it,
/// where the type parameters are those of the function that holds the instruction.
pub proof fn law_type_arguments_of_generic_variants_fit<C: AbilityCache<M>, M>(
    m: CompiledModule,
    before: (C, M),
    after: (C, M),
    res: Result<(), ErrorModel>,
    oracle: Oracle,
    i: int,
    code: CodeUnit,
    offset: int,
    idx: VariantInstantiationHandleIndex,
    k: int,
    n: int,
)
    requires
        checks(m, before, after, res),
        honest::<C, M>(oracle),
        0 <= i < m.function_defs@.len(),
        res matches Err(err) ==> err.indices.len() > 0 && ({
            ||| err.indices.last().0 == IndexKind::FunctionDefinition && i < err.indices.last().1
                && m.function_defs@.len() <= 0x1_0000
        }),
        m.function_defs@[i].code == Some(code),
        0 <= offset < code.code@.len(),
        ({
            ||| code.code@[offset] == Bytecode::PackVariantGeneric(idx)
            ||| code.code@[offset] == Bytecode::UnpackVariantGeneric(idx)
            ||| code.code@[offset] == Bytecode::UnpackVariantGenericImmRef(idx)
            ||| code.code@[offset] == Bytecode::UnpackVariantGenericMutRef(idx)
        }),
    ensures
        ({
            let of = m.variant_instantiation_handles@[idx.0 as int].enum_def;
            let inst = m.enum_def_instantiations@[of.0 as int];
            let handle = m.enum_defs@[inst.def.0 as int].enum_handle;
            let declared = m.datatype_handles@[handle.0 as int].type_parameters@;
            let tys = m.signatures@[inst.type_parameters.0 as int].0@;
            let context = m.function_handles@[
                m.function_defs@[i].function.0 as int
            ].type_parameters@;
            &&& m.function_defs@[i].function.0 < m.function_handles@.len()
            &&& idx.0 < m.variant_instantiation_handles@.len()
            &&& of.0 < m.enum_def_instantiations@.len()
            &&& inst.def.0 < m.enum_defs@.len()
            &&& handle.0 < m.datatype_handles@.len()
            &&& inst.type_parameters.0 < m.signatures@.len()
            &&& tys.len() == declared.len()
            &&& 0 <= k < tys.len() ==> (oracle(
                Query { type_parameter_abilities: context, ty: tys[k] },
            ) matches Ok(given) && {
                let asked = declared[k].constraints;
                &&& asked.copy ==> given.copy
                &&& asked.drop ==> given.drop
                &&& asked.store ==> given.store
                &&& asked.key ==> given.key
            })
            &&& 0 <= k < tys.len() && 0 <= n < preorder(tys[k]).len() ==> !(preorder(tys[k])[n]
                is Reference) && !(preorder(tys[k])[n] is MutableReference)
        }),
{
    let replies = lemma_replies(m, before, after, res, oracle);
    lemma_function_got_past(m, replies, res, i, oracle);
    let context = m.function_handles@[m.function_defs@[i].function.0 as int].type_parameters@;
    assert(instruction_fits(m, code.code@[offset], context, oracle));
    let of = m.variant_instantiation_handles@[idx.0 as int].enum_def;
    let inst = m.enum_def_instantiations@[of.0 as int];
    let handle = m.enum_defs@[inst.def.0 as int].enum_handle;
    let declared = m.datatype_handles@[handle.0 as int].type_parameters@;
    let tys = m.signatures@[inst.type_parameters.0 as int].0@;
    let constraints = datatype_at(m, handle).constraints();
    if 0 <= k < tys.len() {
        let query = Query { type_parameter_abilities: context, ty: tys[k] };
        assert(suits(constraints[k], oracle(query)));
        lemma_covers(oracle(query)->Ok_0, constraints[k]);
    }
    if 0 <= k < tys.len() && 0 <= n < preorder(tys[k]).len() {
        assert(!has_reference(tys[k]));
        law_references_occur_inside_a_type(tys[k]);
    }
}

/// Whatever the ability cache says, an instruction on vectors names one element type, in which no
/// reference occurs.
pub proof fn law_type_arguments_of_vector_instructions_fit<C: AbilityCache<M>, M>(
    m: CompiledModule,
    before: (C, M),
    after: (C, M),
    res: Result<(), ErrorModel>,
    i: int,
    code: CodeUnit,
    offset: int,
    idx: SignatureIndex,
    count: u64,
    k: int,
    n: int,
)
    requires
        checks(m, before, after, res),
        0 <= i < m.function_defs@.len(),
        res matches Err(err) ==> err.indices.len() > 0 && ({
            ||| err.indices.last().0 == IndexKind::FunctionDefinition && i < err.indices.last().1
                && m.function_defs@.len() <= 0x1_0000
        }),
        m.function_defs@[i].code == Some(code),
        0 <= offset < code.code@.len(),
        ({
            ||| code.code@[offset] == Bytecode::VecPack(idx, count)
            ||| code.code@[offset] == Bytecode::VecLen(idx)
            ||| code.code@[offset] == Bytecode::VecImmBorrow(idx)
            ||| code.code@[offset] == Bytecode::VecMutBorrow(idx)
            ||| code.code@[offset] == Bytecode::VecPushBack(idx)
            ||| code.code@[offset] == Bytecode::VecPopBack(idx)
            ||| code.code@[offset] == Bytecode::VecUnpack(idx, count)
            ||| code.code@[offset] == Bytecode::VecSwap(idx)
        }),
    ensures
        ({
            let tys = m.signatures@[idx.0 as int].0@;
            &&& m.function_defs@[i].function.0 < m.function_handles@.len()
            &&& idx.0 < m.signatures@.len()
            &&& tys.len() == 1
            &&& 0 <= k < tys.len() && 0 <= n < preorder(tys[k]).len() ==> !(preorder(tys[k])[n]
                is Reference) && !(preorder(tys[k])[n] is MutableReference)
        }),
{
    let oracle = generous();
    let replies = lemma_replies(m, before, after, res, oracle);
    lemma_function_got_past(m, replies, res, i, oracle);
    let context = m.function_handles@[m.function_defs@[i].function.0 as int].type_parameters@;
    assert(instruction_fits(m, code.code@[offset], context, oracle));
    let tys = m.signatures@[idx.0 as int].0@;
    if 0 <= k < tys.len() && 0 <= n < preorder(tys[k]).len() {
        assert(!has_reference(tys[k]));
        law_references_occur_inside_a_type(tys[k]);
    }
}

} // verus!
