//! What holds of the types inside types, of references in them, and of phantom type parameters.

use vstd::prelude::*;

use crate::acceptance::lemma_phantom_passes;
use crate::errors::ErrorModel;
use crate::file_format::{
    has_reference, preorder, preorder_of_first, CompiledModule, DatatypeHandleIndex,
    DatatypeTyParameter, SignatureToken, TypeParameterIndex,
};
use crate::laws::generous;
use crate::module_plan::{
    any_reference, datatype_at, has_datatype, inner_reference, phantom_arguments_plan,
    phantom_error, phantom_plan,
};
use crate::plan::{lemma_performs_nothing, lemma_performs_ok, performs, Step};
use crate::ruling::{all_steps, passing};
use crate::well_formed::phantoms_respected;

verus! {

// ---- The types inside a type ----

spec fn closed_list(tys: Seq<SignatureToken>) -> bool {
    forall|n: int|
        0 <= n < tys.len() ==> match #[trigger] tys[n] {
            SignatureToken::Vector(inner) => tys.contains(*inner),
            SignatureToken::Reference(inner) => tys.contains(*inner),
            SignatureToken::MutableReference(inner) => tys.contains(*inner),
            SignatureToken::DatatypeInstantiation(inst) => forall|j: int|
                0 <= j < inst.1@.len() ==> tys.contains(#[trigger] inst.1@[j]),
            _ => true,
        }
}

spec fn closed_set(set: Set<SignatureToken>) -> bool {
    &&& forall|inner: Box<SignatureToken>| #[trigger]
        set.contains(SignatureToken::Vector(inner)) ==> set.contains(*inner)
    &&& forall|inner: Box<SignatureToken>| #[trigger]
        set.contains(SignatureToken::Reference(inner)) ==> set.contains(*inner)
    &&& forall|inner: Box<SignatureToken>| #[trigger]
        set.contains(SignatureToken::MutableReference(inner)) ==> set.contains(*inner)
    &&& forall|inst: Box<(DatatypeHandleIndex, Vec<SignatureToken>)>, j: int|
        #![trigger set.contains(SignatureToken::DatatypeInstantiation(inst)), inst.1@[j]]
        set.contains(SignatureToken::DatatypeInstantiation(inst)) && 0 <= j < inst.1@.len()
            ==> set.contains(inst.1@[j])
}

/// Where the types inside the first `n` types stand.
pub proof fn lemma_preorder_of_first(tys: Seq<SignatureToken>, n: nat, a: int) -> (at: int)
    requires
        0 <= a < n <= tys.len(),
    ensures
        0 <= at,
        at + preorder(tys[a]).len() <= preorder_of_first(tys, n).len(),
        forall|i: int|
            0 <= i < preorder(tys[a]).len() ==> #[trigger] preorder(tys[a])[i]
                == preorder_of_first(tys, n)[at + i],
    decreases n,
{
    let before = preorder_of_first(tys, (n - 1) as nat);
    if a == n - 1 {
        before.len() as int
    } else {
        let at = lemma_preorder_of_first(tys, (n - 1) as nat, a);
        assert forall|i: int| 0 <= i < preorder(tys[a]).len() implies #[trigger] preorder(tys[a])[i]
            == preorder_of_first(tys, n)[at + i] by {
            assert(before[at + i] == preorder_of_first(tys, n)[at + i]);
        }
        at
    }
}

/// Which of the first `n` types a type inside them is inside of.
proof fn lemma_inside_of_first(tys: Seq<SignatureToken>, n: nat, i: int) -> (found: (int, int))
    requires
        n <= tys.len(),
        0 <= i < preorder_of_first(tys, n).len(),
    ensures
        0 <= found.0 < n,
        0 <= found.1 < preorder(tys[found.0]).len(),
        preorder(tys[found.0])[found.1] == preorder_of_first(tys, n)[i],
    decreases n,
{
    let before = preorder_of_first(tys, (n - 1) as nat);
    if i < before.len() {
        lemma_inside_of_first(tys, (n - 1) as nat, i)
    } else {
        (n - 1, i - before.len())
    }
}

/// The types inside a list that are among others, as far as a list of types goes.
proof fn lemma_among(part: Seq<SignatureToken>, whole: Seq<SignatureToken>, ty: SignatureToken)
    requires
        part.contains(ty),
        forall|i: int| 0 <= i < part.len() ==> whole.contains(#[trigger] part[i]),
    ensures
        whole.contains(ty),
{
    let i = choose|i: int| 0 <= i < part.len() && part[i] == ty;
    assert(whole.contains(part[i]));
}

proof fn lemma_closed_within(part: Seq<SignatureToken>, whole: Seq<SignatureToken>, i: int)
    requires
        closed_list(part),
        0 <= i < part.len(),
        forall|k: int| 0 <= k < part.len() ==> whole.contains(#[trigger] part[k]),
    ensures
        match part[i] {
            SignatureToken::Vector(inner) => whole.contains(*inner),
            SignatureToken::Reference(inner) => whole.contains(*inner),
            SignatureToken::MutableReference(inner) => whole.contains(*inner),
            SignatureToken::DatatypeInstantiation(inst) => forall|j: int|
                0 <= j < inst.1@.len() ==> whole.contains(#[trigger] inst.1@[j]),
            _ => true,
        },
{
    match part[i] {
        SignatureToken::Vector(inner) => lemma_among(part, whole, *inner),
        SignatureToken::Reference(inner) => lemma_among(part, whole, *inner),
        SignatureToken::MutableReference(inner) => lemma_among(part, whole, *inner),
        SignatureToken::DatatypeInstantiation(inst) => {
            assert forall|j: int| 0 <= j < inst.1@.len() implies whole.contains(
                #[trigger] inst.1@[j],
            ) by {
                lemma_among(part, whole, inst.1@[j]);
            }
        },
        _ => {},
    }
}

/// A type, and the types inside one that is directly inside it, belong to the types inside it.
proof fn lemma_preorder_wrapped(ty: SignatureToken, inner: SignatureToken)
    requires
        preorder(ty) == seq![ty] + preorder(inner),
        closed_list(preorder(inner)),
        preorder(inner).len() > 0,
        preorder(inner)[0] == inner,
        match ty {
            SignatureToken::Vector(t) => *t == inner,
            SignatureToken::Reference(t) => *t == inner,
            SignatureToken::MutableReference(t) => *t == inner,
            _ => false,
        },
    ensures
        closed_list(preorder(ty)),
{
    let whole = preorder(ty);
    let part = preorder(inner);
    assert forall|k: int| 0 <= k < part.len() implies whole.contains(#[trigger] part[k]) by {
        assert(whole[k + 1] == part[k]);
    }
    assert forall|n: int| 0 <= n < whole.len() implies match #[trigger] whole[n] {
        SignatureToken::Vector(inner) => whole.contains(*inner),
        SignatureToken::Reference(inner) => whole.contains(*inner),
        SignatureToken::MutableReference(inner) => whole.contains(*inner),
        SignatureToken::DatatypeInstantiation(inst) => forall|j: int|
            0 <= j < inst.1@.len() ==> whole.contains(#[trigger] inst.1@[j]),
        _ => true,
    } by {
        if n == 0 {
            assert(whole.contains(part[0]));
        } else {
            assert(whole[n] == part[n - 1]);
            lemma_closed_within(part, whole, n - 1);
        }
    }
}

proof fn lemma_preorder_closed(ty: SignatureToken)
    ensures
        preorder(ty).len() > 0,
        preorder(ty)[0] == ty,
        closed_list(preorder(ty)),
    decreases ty,
{
    let whole = preorder(ty);
    match ty {
        SignatureToken::Vector(inner) => {
            lemma_preorder_closed(*inner);
            lemma_preorder_wrapped(ty, *inner);
        },
        SignatureToken::Reference(inner) => {
            lemma_preorder_closed(*inner);
            lemma_preorder_wrapped(ty, *inner);
        },
        SignatureToken::MutableReference(inner) => {
            lemma_preorder_closed(*inner);
            lemma_preorder_wrapped(ty, *inner);
        },
        SignatureToken::DatatypeInstantiation(inst) => {
            let tys = inst.1@;
            let rest = preorder_of_first(tys, tys.len());
            assert(whole == seq![ty] + rest);
            assert forall|a: int| 0 <= a < tys.len() implies {
                &&& closed_list(preorder(#[trigger] tys[a]))
                &&& preorder(tys[a]).len() > 0
                &&& preorder(tys[a])[0] == tys[a]
                &&& forall|k: int|
                    0 <= k < preorder(tys[a]).len() ==> whole.contains(
                        #[trigger] preorder(tys[a])[k],
                    )
            } by {
                lemma_preorder_closed(tys[a]);
                let at = lemma_preorder_of_first(tys, tys.len(), a);
                assert forall|k: int| 0 <= k < preorder(tys[a]).len() implies whole.contains(
                    #[trigger] preorder(tys[a])[k],
                ) by {
                    assert(whole[at + k + 1] == rest[at + k]);
                }
            }
            assert forall|n: int| 0 <= n < whole.len() implies match #[trigger] whole[n] {
                SignatureToken::Vector(inner) => whole.contains(*inner),
                SignatureToken::Reference(inner) => whole.contains(*inner),
                SignatureToken::MutableReference(inner) => whole.contains(*inner),
                SignatureToken::DatatypeInstantiation(inst) => forall|j: int|
                    0 <= j < inst.1@.len() ==> whole.contains(#[trigger] inst.1@[j]),
                _ => true,
            } by {
                if n == 0 {
                    assert forall|j: int| 0 <= j < tys.len() implies whole.contains(
                        #[trigger] tys[j],
                    ) by {
                        assert(whole.contains(preorder(tys[j])[0]));
                    }
                } else {
                    assert(whole[n] == rest[n - 1]);
                    let (a, k) = lemma_inside_of_first(tys, tys.len(), n - 1);
                    assert(closed_list(preorder(tys[a])));
                    lemma_closed_within(preorder(tys[a]), whole, k);
                }
            }
        },
        _ => {},
    }
}

proof fn lemma_preorder_least(ty: SignatureToken, set: Set<SignatureToken>, n: int)
    requires
        closed_set(set),
        set.contains(ty),
        0 <= n < preorder(ty).len(),
    ensures
        set.contains(preorder(ty)[n]),
    decreases ty,
{
    match ty {
        SignatureToken::Vector(inner) => {
            if n > 0 {
                lemma_preorder_least(*inner, set, n - 1);
            }
        },
        SignatureToken::Reference(inner) => {
            if n > 0 {
                lemma_preorder_least(*inner, set, n - 1);
            }
        },
        SignatureToken::MutableReference(inner) => {
            if n > 0 {
                lemma_preorder_least(*inner, set, n - 1);
            }
        },
        SignatureToken::DatatypeInstantiation(inst) => {
            if n > 0 {
                let (a, k) = lemma_inside_of_first(inst.1@, inst.1@.len(), n - 1);
                assert(set.contains(inst.1@[a]));
                lemma_preorder_least(inst.1@[a], set, k);
            }
        },
        _ => {},
    }
}

/// The types inside a type are the type itself, and with each of them the element type of a
/// vector, what a reference refers to, mutable or not, and the type arguments of a generic type;
/// and nothing else: they belong to every set of types that holds the type and what is inside the
/// types it holds.
pub proof fn law_types_inside_a_type(ty: SignatureToken, set: Set<SignatureToken>)
    ensures
        preorder(ty).len() > 0,
        preorder(ty)[0] == ty,
        forall|n: int|
            0 <= n < preorder(ty).len() ==> match #[trigger] preorder(ty)[n] {
                SignatureToken::Vector(inner) => preorder(ty).contains(*inner),
                SignatureToken::Reference(inner) => preorder(ty).contains(*inner),
                SignatureToken::MutableReference(inner) => preorder(ty).contains(*inner),
                SignatureToken::DatatypeInstantiation(inst) => forall|j: int|
                    0 <= j < inst.1@.len() ==> preorder(ty).contains(#[trigger] inst.1@[j]),
                _ => true,
            },
        ({
            &&& set.contains(ty)
            &&& forall|inner: Box<SignatureToken>| #[trigger]
                set.contains(SignatureToken::Vector(inner)) ==> set.contains(*inner)
            &&& forall|inner: Box<SignatureToken>| #[trigger]
                set.contains(SignatureToken::Reference(inner)) ==> set.contains(*inner)
            &&& forall|inner: Box<SignatureToken>| #[trigger]
                set.contains(SignatureToken::MutableReference(inner)) ==> set.contains(*inner)
            &&& forall|inst: Box<(DatatypeHandleIndex, Vec<SignatureToken>)>, j: int|
                #![trigger set.contains(SignatureToken::DatatypeInstantiation(inst)), inst.1@[j]]
                set.contains(SignatureToken::DatatypeInstantiation(inst)) && 0 <= j < inst.1@.len()
                    ==> set.contains(inst.1@[j])
        }) ==> forall|n: int|
            0 <= n < preorder(ty).len() ==> set.contains(#[trigger] preorder(ty)[n]),
{
    lemma_preorder_closed(ty);
    assert(closed_list(preorder(ty)));
    if closed_set(set) && set.contains(ty) {
        assert forall|n: int| 0 <= n < preorder(ty).len() implies set.contains(
            #[trigger] preorder(ty)[n],
        ) by {
            lemma_preorder_least(ty, set, n);
        }
    }
}

/// A type comes before the types inside it, and the type arguments of a generic type come from
/// left to right, each with the types inside it.
pub proof fn law_order_of_types_inside_a_type(
    inner: Box<SignatureToken>,
    inst: Box<(DatatypeHandleIndex, Vec<SignatureToken>)>,
    longer: Box<(DatatypeHandleIndex, Vec<SignatureToken>)>,
    last: SignatureToken,
    idx: DatatypeHandleIndex,
    parameter: TypeParameterIndex,
)
    requires
        longer.1@ == inst.1@.push(last),
    ensures
        preorder(SignatureToken::Vector(inner)) == seq![SignatureToken::Vector(inner)] + preorder(
            *inner,
        ),
        preorder(SignatureToken::Reference(inner)) == seq![SignatureToken::Reference(inner)]
            + preorder(*inner),
        preorder(SignatureToken::MutableReference(inner)) == seq![
            SignatureToken::MutableReference(inner),
        ] + preorder(*inner),
        inst.1@.len() == 0 ==> preorder(SignatureToken::DatatypeInstantiation(inst)) == seq![
            SignatureToken::DatatypeInstantiation(inst),
        ],
        preorder(SignatureToken::DatatypeInstantiation(longer)).drop_first() == preorder(
            SignatureToken::DatatypeInstantiation(inst),
        ).drop_first() + preorder(last),
        preorder(SignatureToken::Datatype(idx)) == seq![SignatureToken::Datatype(idx)],
        preorder(SignatureToken::TypeParameter(parameter)) == seq![
            SignatureToken::TypeParameter(parameter),
        ],
        preorder(SignatureToken::Bool) == seq![SignatureToken::Bool],
        preorder(SignatureToken::U8) == seq![SignatureToken::U8],
        preorder(SignatureToken::U16) == seq![SignatureToken::U16],
        preorder(SignatureToken::U32) == seq![SignatureToken::U32],
        preorder(SignatureToken::U64) == seq![SignatureToken::U64],
        preorder(SignatureToken::U128) == seq![SignatureToken::U128],
        preorder(SignatureToken::U256) == seq![SignatureToken::U256],
        preorder(SignatureToken::Address) == seq![SignatureToken::Address],
        preorder(SignatureToken::Signer) == seq![SignatureToken::Signer],
{
    let a = preorder_of_first(inst.1@, inst.1@.len());
    let b = preorder_of_first(longer.1@, longer.1@.len());
    lemma_preorder_of_same(inst.1@, longer.1@, inst.1@.len());
    assert(b == a + preorder(last));
    assert(preorder(SignatureToken::DatatypeInstantiation(inst)).drop_first() =~= a);
    assert(preorder(SignatureToken::DatatypeInstantiation(longer)).drop_first() =~= b);
}

proof fn lemma_preorder_of_same(a: Seq<SignatureToken>, b: Seq<SignatureToken>, n: nat)
    requires
        n <= a.len(),
        n <= b.len(),
        forall|i: int| 0 <= i < n ==> a[i] == b[i],
    ensures
        preorder_of_first(a, n) == preorder_of_first(b, n),
    decreases n,
{
    if n > 0 {
        lemma_preorder_of_same(a, b, (n - 1) as nat);
        assert(a[n - 1] == b[n - 1]);
    }
}

// ---- References ----

proof fn lemma_reference_inside(ty: SignatureToken) -> (found: int)
    requires
        has_reference(ty),
    ensures
        0 <= found < preorder(ty).len(),
        preorder(ty)[found] is Reference || preorder(ty)[found] is MutableReference,
    decreases ty,
{
    match ty {
        SignatureToken::Vector(inner) => {
            let n = lemma_reference_inside(*inner);
            n + 1
        },
        SignatureToken::DatatypeInstantiation(inst) => {
            let tys = inst.1@;
            let a = choose|a: int| 0 <= a < tys.len() && has_reference(#[trigger] tys[a]);
            let n = lemma_reference_inside(tys[a]);
            let at = lemma_preorder_of_first(tys, tys.len(), a);
            assert(preorder(tys[a])[n] == preorder_of_first(tys, tys.len())[at + n]);
            at + n + 1
        },
        _ => 0,
    }
}

proof fn lemma_inside_a_reference(ty: SignatureToken, n: int)
    requires
        0 <= n < preorder(ty).len(),
        preorder(ty)[n] is Reference || preorder(ty)[n] is MutableReference,
    ensures
        has_reference(ty),
    decreases ty,
{
    match ty {
        SignatureToken::Vector(inner) => {
            if n > 0 {
                lemma_inside_a_reference(*inner, n - 1);
            }
        },
        SignatureToken::DatatypeInstantiation(inst) => {
            if n > 0 {
                let (a, k) = lemma_inside_of_first(inst.1@, inst.1@.len(), n - 1);
                lemma_inside_a_reference(inst.1@[a], k);
                assert(has_reference(inst.1@[a]));
            }
        },
        _ => {},
    }
}

/// A reference occurs in a type if and only if one of the types inside it, itself included, is a
/// reference, mutable or not.
pub proof fn law_references_occur_inside_a_type(ty: SignatureToken)
    ensures
        has_reference(ty) <==> exists|n: int|
            0 <= n < preorder(ty).len() && (#[trigger] preorder(ty)[n] is Reference || preorder(
                ty,
            )[n] is MutableReference),
{
    if has_reference(ty) {
        let n = lemma_reference_inside(ty);
        assert(preorder(ty)[n] is Reference || preorder(ty)[n] is MutableReference);
    }
    if exists|n: int|
        0 <= n < preorder(ty).len() && (#[trigger] preorder(ty)[n] is Reference || preorder(
            ty,
        )[n] is MutableReference) {
        let n = choose|n: int|
            0 <= n < preorder(ty).len() && (#[trigger] preorder(ty)[n] is Reference || preorder(
                ty,
            )[n] is MutableReference);
        lemma_inside_a_reference(ty, n);
    }
}

/// A reference occurs in a list of types if and only if one of the types inside a type of the
/// list is a reference, mutable or not; so in a list of one type, if it occurs in the type.
pub proof fn law_references_occur_inside_a_list(tys: Seq<SignatureToken>, ty: SignatureToken)
    ensures
        any_reference(tys) <==> exists|i: int, n: int|
            0 <= i < tys.len() && 0 <= n < preorder(tys[i]).len() && (#[trigger] preorder(
                tys[i],
            )[n] is Reference || preorder(tys[i])[n] is MutableReference),
        any_reference(seq![ty]) == has_reference(ty),
        forall|i: int|
            0 <= i < tys.len() && (#[trigger] tys[i] is Reference || tys[i] is MutableReference)
                ==> any_reference(tys),
{
    if any_reference(tys) {
        let i = choose|i: int| 0 <= i < tys.len() && has_reference(#[trigger] tys[i]);
        let n = lemma_reference_inside(tys[i]);
        assert(preorder(tys[i])[n] is Reference || preorder(tys[i])[n] is MutableReference);
    }
    if exists|i: int, n: int|
        0 <= i < tys.len() && 0 <= n < preorder(tys[i]).len() && (#[trigger] preorder(
            tys[i],
        )[n] is Reference || preorder(tys[i])[n] is MutableReference) {
        let (i, n) = choose|i: int, n: int|
            0 <= i < tys.len() && 0 <= n < preorder(tys[i]).len() && (#[trigger] preorder(
                tys[i],
            )[n] is Reference || preorder(tys[i])[n] is MutableReference);
        lemma_inside_a_reference(tys[i], n);
        assert(has_reference(tys[i]));
    }
    let one = seq![ty];
    assert(one[0] == ty);
    if any_reference(one) {
        let i = choose|i: int| 0 <= i < one.len() && has_reference(#[trigger] one[i]);
    }
    if has_reference(ty) {
        assert(has_reference(one[0]));
    }
    assert forall|i: int|
        0 <= i < tys.len() && (#[trigger] tys[i] is Reference || tys[i] is MutableReference) implies
        any_reference(tys) by {
        assert(has_reference(tys[i]));
    }
}

/// A reference is misplaced in a type if and only if one of the types inside it, other than
/// itself, is a reference, mutable or not.
pub proof fn law_misplaced_references_occur_inside_a_type(ty: SignatureToken)
    ensures
        inner_reference(ty) <==> exists|n: int|
            0 < n < preorder(ty).len() && (#[trigger] preorder(ty)[n] is Reference || preorder(
                ty,
            )[n] is MutableReference),
{
    lemma_preorder_closed(ty);
    if inner_reference(ty) {
        let n = lemma_misplaced_inside(ty);
        assert(preorder(ty)[n] is Reference || preorder(ty)[n] is MutableReference);
    }
    if exists|n: int|
        0 < n < preorder(ty).len() && (#[trigger] preorder(ty)[n] is Reference || preorder(
            ty,
        )[n] is MutableReference) {
        let n = choose|n: int|
            0 < n < preorder(ty).len() && (#[trigger] preorder(ty)[n] is Reference || preorder(
                ty,
            )[n] is MutableReference);
        match ty {
            SignatureToken::Reference(inner) => lemma_inside_a_reference(*inner, n - 1),
            SignatureToken::MutableReference(inner) => lemma_inside_a_reference(*inner, n - 1),
            _ => lemma_inside_a_reference(ty, n),
        }
    }
}

/// Where a misplaced reference stands.
pub proof fn lemma_misplaced_inside(ty: SignatureToken) -> (found: int)
    requires
        inner_reference(ty),
    ensures
        0 < found < preorder(ty).len(),
        preorder(ty)[found] is Reference || preorder(ty)[found] is MutableReference,
{
    lemma_preorder_closed(ty);
    match ty {
        SignatureToken::Reference(inner) => {
            let n = lemma_reference_inside(*inner);
            n + 1
        },
        SignatureToken::MutableReference(inner) => {
            let n = lemma_reference_inside(*inner);
            n + 1
        },
        _ => {
            let n = lemma_reference_inside(ty);
            assert(n != 0) by {
                assert(preorder(ty)[0] == ty);
            }
            n
        },
    }
}

// ---- Phantom type parameters ----

spec fn phantom_node(
    m: CompiledModule,
    node: SignatureToken,
    type_parameters: Seq<DatatypeTyParameter>,
) -> bool {
    match node {
        SignatureToken::Vector(inner) => *inner matches SignatureToken::TypeParameter(idx) ==> {
            &&& idx < type_parameters.len()
            &&& !type_parameters[idx as int].is_phantom
        },
        SignatureToken::DatatypeInstantiation(inst) => {
            &&& inst.0.0 < m.datatype_handles@.len()
            &&& inst.1@.len() <= m.datatype_handles@[inst.0.0 as int].type_parameters@.len()
            &&& forall|j: int|
                0 <= j < inst.1@.len() ==> (#[trigger] inst.1@[
                    j
                ] matches SignatureToken::TypeParameter(idx) ==> {
                    &&& idx < type_parameters.len()
                    &&& type_parameters[idx as int].is_phantom
                        ==> m.datatype_handles@[inst.0.0 as int].type_parameters@[j].is_phantom
                })
        },
        _ => true,
    }
}

spec fn phantom_nodes(
    m: CompiledModule,
    ty: SignatureToken,
    type_parameters: Seq<DatatypeTyParameter>,
) -> bool {
    forall|n: int|
        0 <= n < preorder(ty).len() ==> phantom_node(m, #[trigger] preorder(ty)[n], type_parameters)
}

spec fn phantom_outside(
    ty: SignatureToken,
    phantom_position: bool,
    type_parameters: Seq<DatatypeTyParameter>,
) -> bool {
    ty matches SignatureToken::TypeParameter(idx) ==> {
        &&& idx < type_parameters.len()
        &&& type_parameters[idx as int].is_phantom ==> phantom_position
    }
}

proof fn lemma_phantom_nodes(
    m: CompiledModule,
    ty: SignatureToken,
    phantom_position: bool,
    type_parameters: Seq<DatatypeTyParameter>,
)
    requires
        !has_reference(ty),
    ensures
        phantoms_respected(m, ty, phantom_position, type_parameters) <==> phantom_nodes(
            m,
            ty,
            type_parameters,
        ) && phantom_outside(ty, phantom_position, type_parameters),
    decreases ty,
{
    let whole = preorder(ty);
    match ty {
        SignatureToken::Vector(inner) => {
            lemma_phantom_nodes(m, *inner, false, type_parameters);
            let part = preorder(*inner);
            assert(whole == seq![ty] + part);
            if phantom_nodes(m, ty, type_parameters) {
                assert forall|n: int| 0 <= n < part.len() implies phantom_node(
                    m,
                    #[trigger] part[n],
                    type_parameters,
                ) by {
                    assert(phantom_node(m, whole[n + 1], type_parameters));
                }
                assert(phantom_node(m, whole[0], type_parameters));
            }
            if phantoms_respected(m, *inner, false, type_parameters) {
                assert forall|n: int| 0 <= n < whole.len() implies phantom_node(
                    m,
                    #[trigger] whole[n],
                    type_parameters,
                ) by {
                    if n > 0 {
                        assert(whole[n] == part[n - 1]);
                    }
                }
            }
        },
        SignatureToken::DatatypeInstantiation(inst) => {
            let tys = inst.1@;
            let rest = preorder_of_first(tys, tys.len());
            let declared = datatype_at(m, inst.0).type_parameters@;
            assert(whole == seq![ty] + rest);
            assert(whole[0] == ty);
            assert forall|j: int| 0 <= j < tys.len() implies phantoms_respected(
                m,
                #[trigger] tys[j],
                declared[j].is_phantom,
                type_parameters,
            ) == (phantom_nodes(m, tys[j], type_parameters) && phantom_outside(
                tys[j],
                declared[j].is_phantom,
                type_parameters,
            )) by {
                assert(!has_reference(tys[j]));
                lemma_phantom_nodes(m, tys[j], declared[j].is_phantom, type_parameters);
            }
            if phantom_nodes(m, ty, type_parameters) {
                assert(phantom_node(m, whole[0], type_parameters));
                assert forall|j: int| 0 <= j < tys.len() implies phantoms_respected(
                    m,
                    #[trigger] tys[j],
                    declared[j].is_phantom,
                    type_parameters,
                ) by {
                    let at = lemma_preorder_of_first(tys, tys.len(), j);
                    assert forall|n: int| 0 <= n < preorder(tys[j]).len() implies phantom_node(
                        m,
                        #[trigger] preorder(tys[j])[n],
                        type_parameters,
                    ) by {
                        assert(whole[at + n + 1] == rest[at + n]);
                        assert(phantom_node(m, whole[at + n + 1], type_parameters));
                    }
                }
            }
            if phantoms_respected(m, ty, phantom_position, type_parameters) {
                assert forall|n: int| 0 <= n < whole.len() implies phantom_node(
                    m,
                    #[trigger] whole[n],
                    type_parameters,
                ) by {
                    if n > 0 {
                        assert(whole[n] == rest[n - 1]);
                        let (a, k) = lemma_inside_of_first(tys, tys.len(), n - 1);
                        assert(phantoms_respected(
                            m,
                            tys[a],
                            declared[a].is_phantom,
                            type_parameters,
                        ));
                        assert(phantom_node(m, preorder(tys[a])[k], type_parameters));
                    } else {
                        assert forall|j: int| 0 <= j < tys.len() implies (#[trigger] tys[
                            j
                        ] matches SignatureToken::TypeParameter(idx) ==> {
                            &&& idx < type_parameters.len()
                            &&& type_parameters[idx as int].is_phantom
                                ==> m.datatype_handles@[inst.0.0 as int].type_parameters@[j].is_phantom
                        }) by {
                            assert(phantoms_respected(
                                m,
                                tys[j],
                                declared[j].is_phantom,
                                type_parameters,
                            ));
                        }
                    }
                }
            }
        },
        _ => {
            assert(whole.len() == 1 && whole[0] == ty);
            assert(phantom_nodes(m, ty, type_parameters));
        },
    }
}

/// In a type without references, phantom type parameters are respected if and only if no
/// occurrence of one stands directly in a vector, or directly as a type argument where the
/// datatype declares a parameter that is not phantom, however deep inside the type; nor makes up
/// the whole type, unless that stands in phantom position. The datatypes are those that the
/// generic types inside the type name, and none is given more type arguments than it declares.
pub proof fn law_phantom_parameters_inside_a_type(
    m: CompiledModule,
    ty: SignatureToken,
    phantom_position: bool,
    type_parameters: Seq<DatatypeTyParameter>,
)
    requires
        forall|n: int|
            0 <= n < preorder(ty).len() ==> !(#[trigger] preorder(ty)[n] is Reference)
                && !(preorder(ty)[n] is MutableReference),
    ensures
        performs(
            phantom_plan(m, ty, phantom_position, type_parameters),
            Seq::empty(),
            Ok(()),
        ) <==> {
            &&& ty matches SignatureToken::TypeParameter(idx) ==> {
                &&& idx < type_parameters.len()
                &&& type_parameters[idx as int].is_phantom ==> phantom_position
            }
            &&& forall|n: int|
                0 <= n < preorder(ty).len() ==> match #[trigger] preorder(ty)[n] {
                    SignatureToken::Vector(inner) => *inner matches SignatureToken::TypeParameter(
                        idx,
                    ) ==> {
                        &&& idx < type_parameters.len()
                        &&& !type_parameters[idx as int].is_phantom
                    },
                    SignatureToken::DatatypeInstantiation(inst) => {
                        &&& inst.0.0 < m.datatype_handles@.len()
                        &&& inst.1@.len()
                            <= m.datatype_handles@[inst.0.0 as int].type_parameters@.len()
                        &&& forall|j: int|
                            0 <= j < inst.1@.len() ==> (#[trigger] inst.1@[
                                j
                            ] matches SignatureToken::TypeParameter(idx) ==> {
                                &&& idx < type_parameters.len()
                                &&& type_parameters[idx as int].is_phantom
                                    ==> m.datatype_handles@[inst.0.0 as int].type_parameters@[
                                    j
                                ].is_phantom
                            })
                    },
                    _ => true,
                }
        },
{
    let plan = phantom_plan(m, ty, phantom_position, type_parameters);
    law_references_occur_inside_a_type(ty);
    lemma_phantom_nodes(m, ty, phantom_position, type_parameters);
    lemma_phantom_passes(m, ty, phantom_position, type_parameters, generous());
    if performs(plan, Seq::empty(), Ok(())) {
        lemma_performs_ok(plan, Seq::empty());
        assert(all_steps(plan, passing(generous())));
    }
    if all_steps(plan, passing(generous())) {
        if plan.len() > 0 {
            lemma_phantom_steps(m, ty, phantom_position, type_parameters, 0);
            assert(passing(generous())(plan[0]));
        }
        lemma_performs_nothing();
        assert(plan =~= Seq::<Step>::empty());
    }
    assert(phantoms_respected(m, ty, phantom_position, type_parameters) == (phantom_nodes(
        m,
        ty,
        type_parameters,
    ) && phantom_outside(ty, phantom_position, type_parameters)));
    assert(phantom_nodes(m, ty, type_parameters) == forall|n: int|
        0 <= n < preorder(ty).len() ==> phantom_node(
            m,
            #[trigger] preorder(ty)[n],
            type_parameters,
        ));
}

/// Each step of the check of phantom type parameters that refuses says that one is misplaced.
pub proof fn lemma_phantom_steps(
    m: CompiledModule,
    ty: SignatureToken,
    phantom_position: bool,
    type_parameters: Seq<DatatypeTyParameter>,
    i: int,
)
    requires
        0 <= i < phantom_plan(m, ty, phantom_position, type_parameters).len(),
    ensures
        match phantom_plan(m, ty, phantom_position, type_parameters)[i] {
            Step::Fail(err) => err == phantom_error(),
            Step::Dangling => true,
            Step::Require { .. } => false,
        },
    decreases ty, 0nat,
{
    match ty {
        SignatureToken::Vector(inner) => {
            lemma_phantom_steps(m, *inner, false, type_parameters, i);
        },
        SignatureToken::DatatypeInstantiation(inst) => {
            if has_datatype(m, inst.0) {
                lemma_phantom_arguments_steps(
                    m,
                    inst.1@,
                    inst.1@.len(),
                    datatype_at(m, inst.0).type_parameters@,
                    type_parameters,
                    i,
                );
            }
        },
        _ => {},
    }
}

proof fn lemma_phantom_arguments_steps(
    m: CompiledModule,
    type_arguments: Seq<SignatureToken>,
    n: nat,
    declared: Seq<DatatypeTyParameter>,
    type_parameters: Seq<DatatypeTyParameter>,
    i: int,
)
    requires
        0 <= i < phantom_arguments_plan(m, type_arguments, n, declared, type_parameters).len(),
    ensures
        match phantom_arguments_plan(m, type_arguments, n, declared, type_parameters)[i] {
            Step::Fail(err) => err == phantom_error(),
            Step::Dangling => true,
            Step::Require { .. } => false,
        },
    decreases type_arguments, n,
{
    let before = phantom_arguments_plan(
        m,
        type_arguments,
        (n - 1) as nat,
        declared,
        type_parameters,
    );
    if i < before.len() {
        lemma_phantom_arguments_steps(
            m,
            type_arguments,
            (n - 1) as nat,
            declared,
            type_parameters,
            i,
        );
    } else if n <= declared.len() {
        lemma_phantom_steps(
            m,
            type_arguments[n - 1],
            declared[n - 1].is_phantom,
            type_parameters,
            i - before.len(),
        );
    }
}

/// Whatever the element type is, a vector of it is accepted if and only if it is accepted outside
/// phantom position, wherever the vector stands, and refused with the same error otherwise.
pub proof fn law_phantom_parameters_in_vectors(
    m: CompiledModule,
    inner: Box<SignatureToken>,
    phantom_position: bool,
    type_parameters: Seq<DatatypeTyParameter>,
    res: Result<(), ErrorModel>,
)
    ensures
        performs(
            phantom_plan(m, SignatureToken::Vector(inner), phantom_position, type_parameters),
            Seq::empty(),
            res,
        ) <==> performs(phantom_plan(m, *inner, false, type_parameters), Seq::empty(), res),
{
}

/// Where phantom type parameters stand in a type in which they are respected.
pub proof fn lemma_phantoms_respected_inside(
    m: CompiledModule,
    ty: SignatureToken,
    type_parameters: Seq<DatatypeTyParameter>,
    n: int,
)
    requires
        !has_reference(ty),
        phantoms_respected(m, ty, false, type_parameters),
        0 <= n < preorder(ty).len(),
    ensures
        ty matches SignatureToken::TypeParameter(idx) ==> idx < type_parameters.len()
            && !type_parameters[idx as int].is_phantom,
        match preorder(ty)[n] {
            SignatureToken::Vector(inner) => *inner matches SignatureToken::TypeParameter(idx)
                ==> idx < type_parameters.len() && !type_parameters[idx as int].is_phantom,
            SignatureToken::DatatypeInstantiation(inst) => {
                &&& inst.0.0 < m.datatype_handles@.len()
                &&& inst.1@.len() <= m.datatype_handles@[inst.0.0 as int].type_parameters@.len()
                &&& forall|j: int|
                    0 <= j < inst.1@.len() ==> (#[trigger] inst.1@[
                        j
                    ] matches SignatureToken::TypeParameter(idx) ==> {
                        &&& idx < type_parameters.len()
                        &&& type_parameters[idx as int].is_phantom
                            ==> m.datatype_handles@[inst.0.0 as int].type_parameters@[j].is_phantom
                    })
            },
            _ => true,
        },
{
    lemma_phantom_nodes(m, ty, false, type_parameters);
    assert(phantom_node(m, preorder(ty)[n], type_parameters));
}

/// Where a phantom type parameter stands that is not respected.
pub proof fn lemma_phantom_disregarded(
    m: CompiledModule,
    ty: SignatureToken,
    type_parameters: Seq<DatatypeTyParameter>,
) -> (found: Option<int>)
    requires
        !has_reference(ty),
        !phantoms_respected(m, ty, false, type_parameters),
    ensures
        match found {
            None => ty matches SignatureToken::TypeParameter(idx) && (idx
                >= type_parameters.len() || type_parameters[idx as int].is_phantom),
            Some(n) => 0 <= n < preorder(ty).len() && match preorder(ty)[n] {
                SignatureToken::Vector(inner) => *inner matches SignatureToken::TypeParameter(idx)
                    && (idx >= type_parameters.len() || type_parameters[idx as int].is_phantom),
                SignatureToken::DatatypeInstantiation(inst) => {
                    ||| inst.0.0 >= m.datatype_handles@.len()
                    ||| inst.1@.len() > m.datatype_handles@[inst.0.0 as int].type_parameters@.len()
                    ||| exists|j: int|
                        0 <= j < inst.1@.len() && (#[trigger] inst.1@[
                            j
                        ] matches SignatureToken::TypeParameter(idx) && (idx
                            >= type_parameters.len() || (type_parameters[idx as int].is_phantom
                            && !m.datatype_handles@[inst.0.0 as int].type_parameters@[j].is_phantom)))
                },
                _ => false,
            },
        },
{
    lemma_phantom_nodes(m, ty, false, type_parameters);
    if !phantom_outside(ty, false, type_parameters) {
        None
    } else {
        let n = choose|n: int|
            0 <= n < preorder(ty).len() && !phantom_node(
                m,
                #[trigger] preorder(ty)[n],
                type_parameters,
            );
        Some(n)
    }
}

} // verus!
