//! Checks that the types that a module's functions, locals and fields are made of are well
//! formed. References occur only around the whole of a type, and not at all in field types.

use std::collections::VecDeque;

use vstd::prelude::*;

use crate::abilities::AbilitySet;
use crate::ability_cache::{
    conversation, lemma_conversation_goes_on, AbilityCache, PreparedAnswers, Scope,
};
use crate::checked::CheckedInstances;
use crate::errors::{
    outcome_of, result_model, ErrorModel, IndexKind, Location, PartialVMError, PartialVMResult,
    StatusCode, TableIndex, VMResult,
};
use crate::file_format::{
    has_reference, preorder, Bytecode, CodeUnit, CompiledModule, DatatypeHandle,
    DatatypeTyParameter, EnumDefinition, FieldDefinition, FunctionDefinition, FunctionHandle,
    Signature, SignatureIndex, SignatureToken, StructDefinition, StructFieldInformation,
    VariantDefinition, VERSION_6,
};
use crate::module_plan::{
    any_bad_signature, any_inner_reference, any_reference, arity_error, checked_with_functions,
    checked_with_handles, checked_with_refused_code, checked_with_refused_handle, code_plan,
    code_units_plan, enum_fields_plan, enum_parts, enum_plan, field_plan, function_notes,
    function_parts, function_plan, function_signatures_plan, function_type_parameters,
    generic_instance_plan, handle_notes, handle_parts, handle_plan, has_handle, has_signature,
    inner_reference, instantiation_plan, instruction_parts, instruction_plan,
    lemma_checked_with_functions_grows, lemma_checked_with_handles_grows, lemma_performs_refuse_if,
    lemma_phantom_arguments_cut, lemma_phantom_arguments_grounded, locals_instance, module_plan,
    offset_notes, offset_text, outer_instantiation_parts, outer_instantiation_plan,
    parameters_instance, phantom_arguments_plan, phantom_error, phantom_plan, reference_error,
    refused_if, return_instance, signature_at, signature_instantiation_plan, signature_pool_plan,
    struct_field_notes, struct_field_parts, struct_fields_plan, struct_parts, struct_plan,
    table_index, token_plan, tokens_plan, type_instantiation_parts, type_instantiation_plan,
    variant_field_notes, variant_field_parts, variant_parts, vector_arity_error,
};
use crate::plan::{
    annotated_result, constraint_text, grounded, joined, judged, lemma_annotated_one,
    lemma_annotated_three, lemma_annotated_two, lemma_grounded_first, lemma_grounded_part,
    lemma_grounded_rest, lemma_grounded_start, lemma_grounded_within, lemma_not_refused,
    lemma_performs_cut, lemma_performs_cut_joined, lemma_performs_fail, lemma_performs_nothing,
    lemma_performs_require, lemma_performs_then, lemma_performs_within, performs, refuses,
    refuses_first, verdict, within, Note, Plan, Query, Reply, Step,
};
use crate::text::push_decimal;

verus! {

/// A position, as far as a table index can hold it.
fn to_table_index(i: usize) -> (index: TableIndex)
    ensures
        index == table_index(i as int),
{
    let index = i as TableIndex;
    assert(index == i % 0x1_0000) by (bit_vector)
        requires
            index == i as u16,
    ;
    index
}

/// The result, with the instruction at `offset` named in its error.
fn name_offset(res: PartialVMResult<()>, offset: usize) -> (named: PartialVMResult<()>)
    ensures
        result_model(named) == annotated_result(result_model(res), offset_notes(offset as int)),
{
    match res {
        Err(err) => {
            proof {
                lemma_annotated_one(err@, Note::Remark(offset_text(offset as nat)));
            }
            let mut text = String::new();
            text.append("at offset ");
            push_decimal(&mut text, offset);
            text.append(" ");
            assert(text@ =~= offset_text(offset as nat));
            Err(err.append_message_with_separator(" ", text.as_str()))
        },
        Ok(()) => Ok(()),
    }
}

/// Judges a requirement, once it is known what the ability cache says.
pub fn check_constraint(
    constraint: AbilitySet,
    ty: &SignatureToken,
    given: PartialVMResult<AbilitySet>,
) -> (res: PartialVMResult<()>)
    ensures
        result_model(res) == judged(constraint, *ty, result_model(given)),
{
    match given {
        Err(err) => Err(err),
        Ok(given) => {
            if constraint.is_subset(given) {
                Ok(())
            } else {
                let mut message = String::new();
                message.append("expected type with abilities ");
                constraint.push_text(&mut message);
                message.append(" got type actual ");
                ty.push_text(&mut message);
                message.append(" with incompatible abilities ");
                given.push_text(&mut message);
                assert(message@ =~= constraint_text(constraint, *ty, given));
                Err(
                    PartialVMError::new(StatusCode::CONSTRAINT_NOT_SATISFIED).with_message(message),
                )
            }
        },
    }
}

/// Checks the signatures of one module.
pub struct SignatureChecker<'env, 'a, 'b, C, M> {
    module: &'env CompiledModule,
    module_ability_cache: &'a mut C,
    meter: &'b mut M,
    /// The signatures that were found well instantiated.
    abilities_cache: CheckedInstances,
    /// What the ability cache and the meter were before the first question and after each.
    states: Ghost<Seq<(C, M)>>,
    /// The questions so far and the answers to them.
    replies: Ghost<Seq<Reply>>,
}

impl<'env, 'a, 'b, C: AbilityCache<M>, M> SignatureChecker<'env, 'a, 'b, C, M> {
    /// Whether the record of questions and answers is in order.
    spec fn well_formed(self) -> bool {
        &&& conversation(self.states@, self.replies@)
        &&& self.states@.last() == (*self.module_ability_cache, *self.meter)
        &&& self.abilities_cache.well_formed()
    }

    /// Whether the checker went from `before` to `after` by carrying out `plan`, with the outcome
    /// `res`.
    spec fn went(before: Self, after: Self, plan: Plan, res: Result<(), ErrorModel>) -> bool {
        &&& after.well_formed()
        &&& after.module == before.module
        &&& before.states@.len() <= after.states@.len()
        &&& after.states@.take(before.states@.len() as int) == before.states@
        &&& before.replies@.len() <= after.replies@.len()
        &&& after.replies@.take(before.replies@.len() as int) == before.replies@
        &&& performs(plan, after.replies@.skip(before.replies@.len() as int), res)
    }

    /// What was asked between `before` and `after`.
    spec fn asked(before: Self, after: Self) -> Seq<Reply> {
        after.replies@.skip(before.replies@.len() as int)
    }

    proof fn lemma_went_nowhere(at: Self)
        requires
            at.well_formed(),
        ensures
            Self::went(at, at, Seq::empty(), Ok(())),
    {
        lemma_performs_nothing();
        assert(at.states@.take(at.states@.len() as int) =~= at.states@);
        assert(at.replies@.take(at.replies@.len() as int) =~= at.replies@);
        assert(at.replies@.skip(at.replies@.len() as int) =~= Seq::<Reply>::empty());
    }

    proof fn lemma_went_on(
        start: Self,
        middle: Self,
        end: Self,
        first: Plan,
        second: Plan,
        res: Result<(), ErrorModel>,
    )
        requires
            Self::went(start, middle, first, Ok(())),
            Self::went(middle, end, second, res),
        ensures
            Self::went(start, end, first + second, res),
    {
        let a = start.replies@.len() as int;
        let b = middle.replies@.len() as int;
        lemma_performs_then(first, middle.replies@.skip(a), second, end.replies@.skip(b), res);
        assert(end.states@.take(start.states@.len() as int) =~= end.states@.take(
            middle.states@.len() as int,
        ).take(start.states@.len() as int));
        assert(end.replies@.take(a) =~= end.replies@.take(b).take(a));
        assert(end.replies@.skip(a) =~= middle.replies@.skip(a) + end.replies@.skip(b)) by {
            assert(end.replies@.take(b) == middle.replies@);
            assert forall|i: int| 0 <= i < b - a implies end.replies@[a + i]
                == #[trigger] middle.replies@[a + i] by {
                assert(end.replies@.take(b)[a + i] == middle.replies@[a + i]);
            }
        }
    }

    proof fn lemma_went_cut(start: Self, end: Self, first: Plan, second: Plan, err: ErrorModel)
        requires
            Self::went(start, end, first, Err(err)),
        ensures
            Self::went(start, end, first + second, Err(err)),
    {
        lemma_performs_cut(first, end.replies@.skip(start.replies@.len() as int), err, second);
    }

    proof fn lemma_went_within(
        start: Self,
        end: Self,
        plan: Plan,
        res: Result<(), ErrorModel>,
        notes: Seq<Note>,
    )
        requires
            Self::went(start, end, plan, res),
        ensures
            Self::went(start, end, within(plan, notes), annotated_result(res, notes)),
    {
        lemma_performs_within(plan, end.replies@.skip(start.replies@.len() as int), res, notes);
    }

    /// A check that asks nothing.
    proof fn lemma_went_unasked(at: Self, plan: Plan, res: Result<(), ErrorModel>)
        requires
            at.well_formed(),
            performs(plan, Seq::empty(), res),
        ensures
            Self::went(at, at, plan, res),
    {
        Self::lemma_went_nowhere(at);
        assert(at.replies@.skip(at.replies@.len() as int) =~= Seq::<Reply>::empty());
    }

    /// After the first `k` of `n` parts, the next one.
    proof fn lemma_went_part(
        start: Self,
        middle: Self,
        end: Self,
        n: nat,
        k: nat,
        part: spec_fn(int) -> Plan,
        res: Result<(), ErrorModel>,
    )
        requires
            k < n,
            Self::went(start, middle, joined(k, part), Ok(())),
            Self::went(middle, end, part(k as int), res),
        ensures
            Self::went(start, end, joined(k + 1, part), res),
            res matches Err(err) ==> Self::went(start, end, joined(n, part), Err(err)),
    {
        Self::lemma_went_on(start, middle, end, joined(k, part), part(k as int), res);
        if let Err(err) = res {
            lemma_performs_cut_joined(
                n,
                k + 1,
                part,
                end.replies@.skip(start.replies@.len() as int),
                err,
            );
        }
    }

    /// What went through before is not refused by what is asked later.
    proof fn lemma_went_unrefused(
        start: Self,
        middle: Self,
        end: Self,
        first: Plan,
        second: Plan,
        res: Result<(), ErrorModel>,
    )
        requires
            Self::went(start, middle, first, Ok(())),
            Self::went(middle, end, second, res),
        ensures
            !refuses(first, Self::asked(start, end)),
    {
        let k = middle.replies@.len() - start.replies@.len();
        assert(Self::asked(start, end).take(k) =~= Self::asked(start, middle)) by {
            assert(end.replies@.take(middle.replies@.len() as int) == middle.replies@);
        }
        lemma_not_refused(first, Self::asked(start, end), k);
    }

    /// After the first `i` parts, the next one refuses.
    proof fn lemma_went_refused(
        start: Self,
        middle: Self,
        end: Self,
        i: int,
        part: spec_fn(int) -> Plan,
        err: ErrorModel,
    )
        requires
            Self::went(start, middle, joined(i as nat, part), Ok(())),
            Self::went(middle, end, part(i), Err(err)),
        ensures
            refuses_first(
                part,
                i,
                middle.replies@.len() - start.replies@.len(),
                Self::asked(start, end),
                err,
            ),
            Self::asked(start, end).skip(middle.replies@.len() - start.replies@.len())
                == Self::asked(middle, end),
    {
        let k = middle.replies@.len() - start.replies@.len();
        assert(Self::asked(start, end).take(k) =~= Self::asked(start, middle)) by {
            assert(end.replies@.take(middle.replies@.len() as int) == middle.replies@);
        }
        assert(Self::asked(start, end).skip(k) =~= Self::asked(middle, end));
    }

    /// Asks the ability cache for the abilities of a type.
    fn ask(&mut self, type_parameters: &[AbilitySet], ty: &SignatureToken) -> (answer:
        PartialVMResult<AbilitySet>)
        requires
            old(self).well_formed(),
        ensures
            final(self).well_formed(),
            final(self).module == old(self).module,
            *final(final(self).module_ability_cache) == *final(old(self).module_ability_cache),
            *final(final(self).meter) == *final(old(self).meter),
            final(self).abilities_cache == old(self).abilities_cache,
            final(self).states@.drop_last() == old(self).states@,
            final(self).replies@ == old(self).replies@.push(
                Reply {
                    query: Query { type_parameter_abilities: type_parameters@, ty: *ty },
                    answer: result_model(answer),
                },
            ),
    {
        let answer = self.module_ability_cache.abilities(
            Scope::Module,
            self.meter,
            type_parameters,
            ty,
        );
        proof {
            let query = Query { type_parameter_abilities: type_parameters@, ty: *ty };
            self.states@ = self.states@.push((*self.module_ability_cache, *self.meter));
            self.replies@ = self.replies@.push(Reply { query, answer: result_model(answer) });
            let n = old(self).replies@.len() as int;
            assert(self.states@.drop_last() =~= old(self).states@);
            assert forall|i: int| 0 <= i < self.replies@.len() implies C::may_answer(
                self.states@[i],
                Scope::Module,
                (#[trigger] self.replies@[i]).query,
                self.states@[i + 1],
                self.replies@[i].answer,
            ) by {
                if i < n {
                    assert(self.replies@[i] == old(self).replies@[i]);
                    assert(self.states@[i] == old(self).states@[i]);
                    assert(self.states@[i + 1] == old(self).states@[i + 1]);
                } else {
                    assert(self.states@[i] == old(self).states@.last());
                }
            }
        }
        answer
    }

    /// Checks that type arguments are as many as are asked for and have the abilities that are
    /// asked of them.
    fn check_generic_instance(
        &mut self,
        type_arguments: &[SignatureToken],
        constraints: &[AbilitySet],
        global_abilities: &[AbilitySet],
    ) -> (res: PartialVMResult<()>)
        requires
            old(self).well_formed(),
        ensures
            Self::went(
                *old(self),
                *final(self),
                generic_instance_plan(type_arguments@, constraints@, global_abilities@),
                result_model(res),
            ),
            *final(final(self).module_ability_cache) == *final(old(self).module_ability_cache),
            *final(final(self).meter) == *final(old(self).meter),
            final(self).abilities_cache == old(self).abilities_cache,
            type_arguments@.len() != constraints@.len() ==> {
                &&& *final(self).module_ability_cache == *old(self).module_ability_cache
                &&& *final(self).meter == *old(self).meter
            },
    {
        let ghost plan = generic_instance_plan(type_arguments@, constraints@, global_abilities@);
        proof {
            Self::lemma_went_nowhere(*self);
        }
        if type_arguments.len() != constraints.len() {
            let mut message = String::new();
            message.append("expected ");
            push_decimal(&mut message, constraints.len());
            message.append(" type argument(s), got ");
            push_decimal(&mut message, type_arguments.len());
            let err = PartialVMError::new(
                StatusCode::NUMBER_OF_TYPE_ARGUMENTS_MISMATCH,
            ).with_message(message);
            proof {
                let model = arity_error(constraints@.len(), type_arguments@.len());
                assert(err@.message->Some_0 =~= model.message->Some_0);
                assert(err@ =~= model);
                lemma_performs_fail(model);
            }
            return Err(err);
        }
        let mut i: usize = 0;
        assert(plan.take(0) =~= Seq::<Step>::empty());
        while i < constraints.len()
            invariant
                i <= constraints@.len(),
                type_arguments@.len() == constraints@.len(),
                plan == generic_instance_plan(type_arguments@, constraints@, global_abilities@),
                Self::went(*old(self), *self, plan.take(i as int), Ok(())),
                *final(self.module_ability_cache) == *final(old(self).module_ability_cache),
                *final(self.meter) == *final(old(self).meter),
                self.abilities_cache == old(self).abilities_cache,
            decreases constraints@.len() - i,
        {
            let ghost before = *self;
            let answer = self.ask(global_abilities, &type_arguments[i]);
            let ghost said = result_model(answer);
            let res = check_constraint(constraints[i], &type_arguments[i], answer);
            proof {
                let n = before.replies@.len() as int;
                let query = Query {
                    type_parameter_abilities: global_abilities@,
                    ty: type_arguments@[i as int],
                };
                let step = seq![plan[i as int]];
                assert(self.replies@.skip(n) =~= seq![Reply { query, answer: said }]);
                assert(self.replies@.take(n) =~= before.replies@);
                assert(self.states@.take(before.states@.len() as int) =~= before.states@);
                lemma_performs_require(constraints@[i as int], query, said);
                assert(step =~= seq![
                    Step::Require {
                        constraint: constraints@[i as int],
                        query,
                        notes: Seq::<Note>::empty(),
                    },
                ]);
                assert(Self::went(before, *self, step, result_model(res)));
                Self::lemma_went_on(
                    *old(self),
                    before,
                    *self,
                    plan.take(i as int),
                    step,
                    result_model(res),
                );
                assert(plan.take(i as int) + step =~= plan.take(i + 1));
                assert(plan.take(i + 1) + plan.skip(i + 1) =~= plan);
            }
            match res {
                Err(err) => {
                    proof {
                        lemma_performs_cut(
                            plan.take(i + 1),
                            self.replies@.skip(old(self).replies@.len() as int),
                            err@,
                            plan.skip(i + 1),
                        );
                    }
                    return Err(err);
                },
                Ok(()) => {},
            }
            i = i + 1;
        }
        assert(plan.take(i as int) =~= plan);
        Ok(())
    }

    /// Checks the type arguments of the type itself.
    fn check_type_instantiation_(
        &mut self,
        s: &SignatureToken,
        type_parameters: &[AbilitySet],
    ) -> (res: PartialVMResult<()>)
        requires
            old(self).well_formed(),
            grounded(outer_instantiation_plan(*old(self).module, *s, type_parameters@)),
        ensures
            Self::went(
                *old(self),
                *final(self),
                outer_instantiation_plan(*old(self).module, *s, type_parameters@),
                result_model(res),
            ),
            *final(final(self).module_ability_cache) == *final(old(self).module_ability_cache),
            *final(final(self).meter) == *final(old(self).meter),
            final(self).abilities_cache == old(self).abilities_cache,
    {
        match s {
            SignatureToken::DatatypeInstantiation(inst) => {
                proof {
                    lemma_grounded_start(
                        outer_instantiation_plan(*self.module, *s, type_parameters@),
                    );
                }
                let handle = &self.module.datatype_handles[inst.0.0 as usize];
                let constraints = handle.type_param_constraints();
                self.check_generic_instance(
                    inst.1.as_slice(),
                    constraints.as_slice(),
                    type_parameters,
                )
            },
            SignatureToken::Reference(_)
            | SignatureToken::MutableReference(_)
            | SignatureToken::Vector(_)
            | SignatureToken::TypeParameter(_)
            | SignatureToken::Datatype(_)
            | SignatureToken::Bool
            | SignatureToken::U8
            | SignatureToken::U16
            | SignatureToken::U32
            | SignatureToken::U64
            | SignatureToken::U128
            | SignatureToken::U256
            | SignatureToken::Address
            | SignatureToken::Signer => {
                proof {
                    Self::lemma_went_nowhere(*self);
                }
                Ok(())
            },
        }
    }

    /// Checks the type arguments of the type and, from version 6 on, those of the types inside
    /// it.
    fn check_type_instantiation(
        &mut self,
        s: &SignatureToken,
        type_parameters: &[AbilitySet],
    ) -> (res: PartialVMResult<()>)
        requires
            old(self).well_formed(),
            grounded(type_instantiation_plan(*old(self).module, *s, type_parameters@)),
        ensures
            Self::went(
                *old(self),
                *final(self),
                type_instantiation_plan(*old(self).module, *s, type_parameters@),
                result_model(res),
            ),
            *final(final(self).module_ability_cache) == *final(old(self).module_ability_cache),
            *final(final(self).meter) == *final(old(self).meter),
            final(self).abilities_cache == old(self).abilities_cache,
    {
        if self.module.version >= VERSION_6 {
            let tys = s.preorder_traversal();
            let ghost nodes = preorder(*s);
            let ghost parts = outer_instantiation_parts(*self.module, nodes, type_parameters@);
            let ghost view = tys@.map_values(|ty: &SignatureToken| *ty);
            assert(view.len() == tys@.len());
            let mut i: usize = 0;
            proof {
                Self::lemma_went_nowhere(*self);
            }
            while i < tys.len()
                invariant
                    i <= tys@.len(),
                    tys@.len() == nodes.len(),
                    view == nodes,
                    view == tys@.map_values(|ty: &SignatureToken| *ty),
                    parts == outer_instantiation_parts(*old(self).module, nodes, type_parameters@),
                    type_instantiation_plan(*old(self).module, *s, type_parameters@) == joined(
                        nodes.len(),
                        parts,
                    ),
                    grounded(joined(nodes.len(), parts)),
                    Self::went(*old(self), *self, joined(i as nat, parts), Ok(())),
                    *final(self.module_ability_cache) == *final(old(self).module_ability_cache),
                    *final(self.meter) == *final(old(self).meter),
                    self.abilities_cache == old(self).abilities_cache,
                decreases tys@.len() - i,
            {
                let ghost before = *self;
                proof {
                    assert(view[i as int] == *tys@[i as int]);
                    lemma_grounded_part(
                        nodes.len(),
                        i as nat,
                        parts,
                        self.replies@.skip(old(self).replies@.len() as int),
                    );
                }
                let res = self.check_type_instantiation_(tys[i], type_parameters);
                proof {
                    Self::lemma_went_part(
                        *old(self),
                        before,
                        *self,
                        nodes.len(),
                        i as nat,
                        parts,
                        result_model(res),
                    );
                }
                match res {
                    Err(err) => {
                        return Err(err);
                    },
                    Ok(()) => {},
                }
                i = i + 1;
            }
            Ok(())
        } else {
            // Types inside the type went unchecked in earlier versions, and modules of those
            // versions are still accepted.
            self.check_type_instantiation_(s, type_parameters)
        }
    }

    /// Checks the type arguments within every type of a signature, unless that was done before.
    fn check_instantiation(
        &mut self,
        idx: SignatureIndex,
        type_parameters: &[AbilitySet],
    ) -> (res: PartialVMResult<()>)
        requires
            old(self).well_formed(),
            grounded(
                instantiation_plan(
                    *old(self).module,
                    old(self).abilities_cache@,
                    (idx, type_parameters@),
                ),
            ),
        ensures
            Self::went(
                *old(self),
                *final(self),
                instantiation_plan(
                    *old(self).module,
                    old(self).abilities_cache@,
                    (idx, type_parameters@),
                ),
                result_model(res),
            ),
            *final(final(self).module_ability_cache) == *final(old(self).module_ability_cache),
            *final(final(self).meter) == *final(old(self).meter),
            res is Ok ==> final(self).abilities_cache@ == old(self).abilities_cache@.insert(
                (idx, type_parameters@),
            ),
            res is Err ==> final(self).abilities_cache == old(self).abilities_cache,
    {
        proof {
            Self::lemma_went_nowhere(*self);
        }
        if self.abilities_cache.contains(idx, type_parameters) {
            assert(self.abilities_cache@ =~= self.abilities_cache@.insert(
                (idx, type_parameters@),
            ));
            return Ok(());
        }
        proof {
            lemma_grounded_start(
                signature_instantiation_plan(*self.module, (idx, type_parameters@)),
            );
        }
        let tys = &self.module.signatures[idx.0 as usize].0;
        let ghost parts = type_instantiation_parts(*self.module, tys@, type_parameters@);
        let mut i: usize = 0;
        while i < tys.len()
            invariant
                i <= tys@.len(),
                parts == type_instantiation_parts(*old(self).module, tys@, type_parameters@),
                instantiation_plan(
                    *old(self).module,
                    old(self).abilities_cache@,
                    (idx, type_parameters@),
                ) == joined(tys@.len(), parts),
                grounded(joined(tys@.len(), parts)),
                Self::went(*old(self), *self, joined(i as nat, parts), Ok(())),
                *final(self.module_ability_cache) == *final(old(self).module_ability_cache),
                *final(self.meter) == *final(old(self).meter),
                self.abilities_cache == old(self).abilities_cache,
            decreases tys@.len() - i,
        {
            let ghost before = *self;
            proof {
                lemma_grounded_part(
                    tys@.len(),
                    i as nat,
                    parts,
                    self.replies@.skip(old(self).replies@.len() as int),
                );
            }
            let res = self.check_type_instantiation(&tys[i], type_parameters);
            proof {
                Self::lemma_went_part(
                    *old(self),
                    before,
                    *self,
                    tys@.len(),
                    i as nat,
                    parts,
                    result_model(res),
                );
            }
            match res {
                Err(err) => {
                    return Err(err);
                },
                Ok(()) => {},
            }
            i = i + 1;
        }
        self.abilities_cache.insert(idx, type_parameters);
        Ok(())
    }

    /// Checks that the type is well defined. No references are permitted.
    fn check_signature_token(&self, ty: &SignatureToken) -> (res: PartialVMResult<()>)
        ensures
            result_model(res) == refused_if(has_reference(*ty), reference_error()),
        decreases *ty, 0nat,
    {
        match ty {
            SignatureToken::U8
            | SignatureToken::U16
            | SignatureToken::U32
            | SignatureToken::U64
            | SignatureToken::U128
            | SignatureToken::U256
            | SignatureToken::Bool
            | SignatureToken::Address
            | SignatureToken::Signer
            | SignatureToken::Datatype(_)
            | SignatureToken::TypeParameter(_) => Ok(()),
            SignatureToken::Reference(_) | SignatureToken::MutableReference(_) => {
                Err(
                    PartialVMError::new(StatusCode::INVALID_SIGNATURE_TOKEN).with_message(
                        "reference not allowed".to_owned(),
                    ),
                )
            },
            SignatureToken::Vector(inner) => self.check_signature_token(inner),
            SignatureToken::DatatypeInstantiation(inst) => {
                assert(decreases_to!(*ty => ty->DatatypeInstantiation_0.1@));
                assert(has_reference(*ty) == any_reference(inst.1@));
                self.check_signature_tokens(inst.1.as_slice())
            },
        }
    }

    /// Checks that the types are well defined. No references are permitted.
    fn check_signature_tokens(&self, tys: &[SignatureToken]) -> (res: PartialVMResult<()>)
        ensures
            result_model(res) == refused_if(any_reference(tys@), reference_error()),
        decreases tys@, 1nat,
    {
        let mut i: usize = 0;
        while i < tys.len()
            invariant
                i <= tys@.len(),
                forall|j: int| 0 <= j < i ==> !has_reference(#[trigger] tys@[j]),
            decreases tys@.len() - i,
        {
            assert(decreases_to!(tys@ => tys@[i as int]));
            match self.check_signature_token(&tys[i]) {
                Err(err) => {
                    assert(has_reference(tys@[i as int]));
                    return Err(err);
                },
                Ok(()) => {},
            }
            i = i + 1;
        }
        Ok(())
    }

    /// Checks that the types of a signature are well defined. References are only permitted
    /// around the whole of a type.
    fn check_signature(&self, idx: SignatureIndex) -> (res: PartialVMResult<()>)
        requires
            has_signature(*self.module, idx),
        ensures
            result_model(res) == refused_if(
                any_inner_reference(signature_at(*self.module, idx)),
                reference_error(),
            ),
    {
        let tys = &self.module.signatures[idx.0 as usize].0;
        let mut i: usize = 0;
        while i < tys.len()
            invariant
                i <= tys@.len(),
                tys@ == signature_at(*self.module, idx),
                forall|j: int| 0 <= j < i ==> !#[trigger] inner_reference(tys@[j]),
            decreases tys@.len() - i,
        {
            let res = match &tys[i] {
                SignatureToken::Reference(inner) | SignatureToken::MutableReference(inner) => {
                    self.check_signature_token(inner)
                },
                token => self.check_signature_token(token),
            };
            match res {
                Err(err) => {
                    assert(inner_reference(tys@[i as int]));
                    return Err(err);
                },
                Ok(()) => {},
            }
            i = i + 1;
        }
        Ok(())
    }

    /// Checks every signature that a table index can name.
    fn verify_signature_pool(&self, signatures: &[Signature]) -> (res: PartialVMResult<()>)
        requires
            signatures@ == self.module.signatures@,
        ensures
            performs(signature_pool_plan(*self.module), Seq::empty(), result_model(res)),
    {
        proof {
            lemma_performs_refuse_if(any_bad_signature(signatures@), reference_error());
        }
        let mut i: usize = 0;
        while i < signatures.len()
            invariant
                i <= signatures@.len(),
                signatures@ == self.module.signatures@,
                performs(
                    signature_pool_plan(*self.module),
                    Seq::empty(),
                    refused_if(any_bad_signature(signatures@), reference_error()),
                ),
                forall|j: int|
                    0 <= j < i && j < 0x1_0000 ==> !#[trigger] any_inner_reference(
                        signatures@[j].0@,
                    ),
            decreases signatures@.len() - i,
        {
            let idx = SignatureIndex(to_table_index(i));
            match self.check_signature(idx) {
                Err(err) => {
                    assert(any_inner_reference(signatures@[idx.0 as int].0@));
                    return Err(err);
                },
                Ok(()) => {},
            }
            i = i + 1;
        }
        Ok(())
    }

    /// Checks that phantom type parameters are only used in phantom position.
    fn check_phantom_params(
        &self,
        ty: &SignatureToken,
        is_phantom_pos: bool,
        type_parameters: &[DatatypeTyParameter],
    ) -> (res: PartialVMResult<()>)
        requires
            grounded(phantom_plan(*self.module, *ty, is_phantom_pos, type_parameters@)),
        ensures
            performs(
                phantom_plan(*self.module, *ty, is_phantom_pos, type_parameters@),
                Seq::empty(),
                result_model(res),
            ),
        decreases *ty,
    {
        proof {
            lemma_performs_nothing();
            lemma_grounded_start(
                phantom_plan(*self.module, *ty, is_phantom_pos, type_parameters@),
            );
        }
        match ty {
            SignatureToken::Vector(inner) => {
                self.check_phantom_params(inner, false, type_parameters)
            },
            SignatureToken::DatatypeInstantiation(inst) => {
                let ghost m = *self.module;
                let sh = &self.module.datatype_handles[inst.0.0 as usize];
                let ghost args = inst.1@;
                let ghost declared = sh.type_parameters@;
                let mut i: usize = 0;
                while i < inst.1.len()
                    invariant
                        i <= inst.1@.len(),
                        *ty == SignatureToken::DatatypeInstantiation(*inst),
                        args == inst.1@,
                        m == *self.module,
                        declared == sh.type_parameters@,
                        phantom_plan(m, *ty, is_phantom_pos, type_parameters@)
                            == phantom_arguments_plan(
                            m,
                            args,
                            args.len(),
                            declared,
                            type_parameters@,
                        ),
                        grounded(
                            phantom_arguments_plan(
                                m,
                                args,
                                args.len(),
                                declared,
                                type_parameters@,
                            ),
                        ),
                        performs(
                            phantom_arguments_plan(
                                m,
                                args,
                                i as nat,
                                declared,
                                type_parameters@,
                            ),
                            Seq::empty(),
                            Ok(()),
                        ),
                    decreases inst.1@.len() - i,
                {
                    let ghost done = phantom_arguments_plan(
                        m,
                        args,
                        i as nat,
                        declared,
                        type_parameters@,
                    );
                    let ghost next = if i < declared.len() {
                        phantom_plan(
                            m,
                            args[i as int],
                            declared[i as int].is_phantom,
                            type_parameters@,
                        )
                    } else {
                        seq![Step::Dangling]
                    };
                    proof {
                        lemma_phantom_arguments_grounded(
                            m,
                            args,
                            args.len(),
                            i as nat + 1,
                            declared,
                            type_parameters@,
                        );
                        lemma_grounded_rest(done, next, Seq::empty());
                        lemma_grounded_start(next);
                        assert(decreases_to!(*ty => ty->DatatypeInstantiation_0.1@[i as int]));
                    }
                    let res = self.check_phantom_params(
                        &inst.1[i],
                        sh.type_parameters[i].is_phantom,
                        type_parameters,
                    );
                    proof {
                        lemma_performs_then(
                            done,
                            Seq::empty(),
                            next,
                            Seq::empty(),
                            result_model(res),
                        );
                        assert(Seq::<Reply>::empty() + Seq::<Reply>::empty()
                            =~= Seq::<Reply>::empty());
                    }
                    match res {
                        Err(err) => {
                            proof {
                                lemma_phantom_arguments_cut(
                                    m,
                                    args,
                                    args.len(),
                                    i as nat + 1,
                                    declared,
                                    type_parameters@,
                                    err@,
                                );
                            }
                            return Err(err);
                        },
                        Ok(()) => {},
                    }
                    i = i + 1;
                }
                Ok(())
            },
            SignatureToken::TypeParameter(idx) => {
                proof {
                    lemma_performs_refuse_if(
                        type_parameters@[*idx as int].is_phantom && !is_phantom_pos,
                        phantom_error(),
                    );
                }
                if type_parameters[*idx as usize].is_phantom && !is_phantom_pos {
                    return Err(
                        PartialVMError::new(
                            StatusCode::INVALID_PHANTOM_TYPE_PARAM_POSITION,
                        ).with_message(
                            "phantom type parameter cannot be used in non-phantom position".to_owned(),
                        ),
                    );
                }
                Ok(())
            },
            SignatureToken::Datatype(_)
            | SignatureToken::Reference(_)
            | SignatureToken::MutableReference(_)
            | SignatureToken::Bool
            | SignatureToken::U8
            | SignatureToken::U16
            | SignatureToken::U32
            | SignatureToken::U64
            | SignatureToken::U128
            | SignatureToken::U256
            | SignatureToken::Address
            | SignatureToken::Signer => Ok(()),
        }
    }

    /// Checks the signatures of every function handle.
    fn verify_function_signatures(&mut self, function_handles: &[FunctionHandle]) -> (res:
        PartialVMResult<()>)
        requires
            old(self).well_formed(),
            function_handles@ == old(self).module.function_handles@,
            old(self).abilities_cache@ == checked_with_handles(*old(self).module, 0),
            grounded(function_signatures_plan(*old(self).module)),
        ensures
            Self::went(
                *old(self),
                *final(self),
                function_signatures_plan(*old(self).module),
                result_model(res),
            ),
            *final(final(self).module_ability_cache) == *final(old(self).module_ability_cache),
            *final(final(self).meter) == *final(old(self).meter),
            res is Ok ==> final(self).abilities_cache@ == checked_with_handles(
                *old(self).module,
                function_handles@.len(),
            ),
            old(self).abilities_cache@.subset_of(final(self).abilities_cache@),
            res matches Err(err) ==> exists|i: int, k: int|
                {
                    &&& 0 <= i < function_handles@.len()
                    &&& #[trigger] refuses_first(
                        handle_parts(*old(self).module),
                        i,
                        k,
                        Self::asked(*old(self), *final(self)),
                        err@,
                    )
                    &&& final(self).abilities_cache@ == checked_with_refused_handle(
                        *old(self).module,
                        checked_with_handles(*old(self).module, i as nat),
                        function_handles@[i],
                        Self::asked(*old(self), *final(self)).skip(k),
                    )
                },
    {
        let ghost m = *self.module;
        let ghost parts = handle_parts(m);
        let mut idx: usize = 0;
        proof {
            Self::lemma_went_nowhere(*self);
        }
        while idx < function_handles.len()
            invariant
                idx <= function_handles@.len(),
                m == *old(self).module,
                function_handles@ == m.function_handles@,
                parts == handle_parts(m),
                grounded(joined(function_handles@.len(), parts)),
                Self::went(*old(self), *self, joined(idx as nat, parts), Ok(())),
                *final(self.module_ability_cache) == *final(old(self).module_ability_cache),
                *final(self.meter) == *final(old(self).meter),
                self.abilities_cache@ == checked_with_handles(m, idx as nat),
                old(self).abilities_cache@ == checked_with_handles(m, 0),
            decreases function_handles@.len() - idx,
        {
            let ghost before = *self;
            let fh = &function_handles[idx];
            let ghost plan = handle_plan(m, self.abilities_cache@, *fh);
            proof {
                lemma_grounded_part(
                    function_handles@.len(),
                    idx as nat,
                    parts,
                    self.replies@.skip(old(self).replies@.len() as int),
                );
                lemma_grounded_within(plan, handle_notes(idx as int));
            }
            let res = self.check_function_handle(fh);
            let ghost inner = result_model(res);
            let res = match res {
                Err(err) => {
                    proof {
                        lemma_annotated_two(
                            err@,
                            Note::Place(IndexKind::Signature, table_index(idx as int)),
                            Note::Place(IndexKind::FunctionHandle, table_index(idx as int)),
                        );
                    }
                    let at = to_table_index(idx);
                    Err(
                        err.at_index(IndexKind::Signature, at).at_index(
                            IndexKind::FunctionHandle,
                            at,
                        ),
                    )
                },
                Ok(()) => Ok(()),
            };
            proof {
                Self::lemma_went_within(before, *self, plan, inner, handle_notes(idx as int));
                Self::lemma_went_part(
                    *old(self),
                    before,
                    *self,
                    function_handles@.len(),
                    idx as nat,
                    parts,
                    result_model(res),
                );
            }
            match res {
                Err(err) => {
                    proof {
                        lemma_checked_with_handles_grows(m, 0, idx as nat);
                        Self::lemma_went_refused(
                            *old(self),
                            before,
                            *self,
                            idx as int,
                            parts,
                            err@,
                        );
                    }
                    return Err(err);
                },
                Ok(()) => {},
            }
            idx = idx + 1;
        }
        proof {
            lemma_checked_with_handles_grows(m, 0, idx as nat);
        }
        Ok(())
    }

    /// Checks the signatures of a function handle, the return types first.
    fn check_function_handle(&mut self, fh: &FunctionHandle) -> (res: PartialVMResult<()>)
        requires
            old(self).well_formed(),
            grounded(handle_plan(*old(self).module, old(self).abilities_cache@, *fh)),
        ensures
            Self::went(
                *old(self),
                *final(self),
                handle_plan(*old(self).module, old(self).abilities_cache@, *fh),
                result_model(res),
            ),
            *final(final(self).module_ability_cache) == *final(old(self).module_ability_cache),
            *final(final(self).meter) == *final(old(self).meter),
            res is Ok ==> final(self).abilities_cache@ == old(self).abilities_cache@.insert(
                return_instance(*fh),
            ).insert(parameters_instance(*fh)),
            res is Err ==> final(self).abilities_cache@ == checked_with_refused_handle(
                *old(self).module,
                old(self).abilities_cache@,
                *fh,
                Self::asked(*old(self), *final(self)),
            ),
    {
        let ghost first = instantiation_plan(
            *self.module,
            self.abilities_cache@,
            return_instance(*fh),
        );
        let ghost second = instantiation_plan(
            *self.module,
            self.abilities_cache@.insert(return_instance(*fh)),
            parameters_instance(*fh),
        );
        proof {
            lemma_grounded_first(first, second);
        }
        match self.check_instantiation(fh.return_, fh.type_parameters.as_slice()) {
            Err(err) => {
                proof {
                    Self::lemma_went_cut(*old(self), *self, first, second, err@);
                }
                return Err(err);
            },
            Ok(()) => {},
        }
        let ghost middle = *self;
        proof {
            lemma_grounded_rest(
                first,
                second,
                self.replies@.skip(old(self).replies@.len() as int),
            );
        }
        let res = self.check_instantiation(fh.parameters, fh.type_parameters.as_slice());
        proof {
            Self::lemma_went_unrefused(
                *old(self),
                middle,
                *self,
                first,
                second,
                result_model(res),
            );
            Self::lemma_went_on(*old(self), middle, *self, first, second, result_model(res));
        }
        res
    }

    /// Checks the type of a field.
    fn check_field(
        &mut self,
        ty: &SignatureToken,
        handle: &DatatypeHandle,
        type_param_constraints: &[AbilitySet],
    ) -> (res: PartialVMResult<()>)
        requires
            old(self).well_formed(),
            type_param_constraints@ == handle.constraints(),
            grounded(field_plan(*old(self).module, *ty, *handle)),
        ensures
            Self::went(
                *old(self),
                *final(self),
                field_plan(*old(self).module, *ty, *handle),
                result_model(res),
            ),
            *final(final(self).module_ability_cache) == *final(old(self).module_ability_cache),
            *final(final(self).meter) == *final(old(self).meter),
            final(self).abilities_cache == old(self).abilities_cache,
    {
        let ghost first = token_plan(*ty);
        let ghost second = type_instantiation_plan(*self.module, *ty, handle.constraints());
        let ghost third = phantom_plan(*self.module, *ty, false, handle.type_parameters@);
        proof {
            lemma_performs_refuse_if(has_reference(*ty), reference_error());
            Self::lemma_went_unasked(
                *self,
                first,
                refused_if(has_reference(*ty), reference_error()),
            );
            lemma_grounded_first(first + second, third);
        }
        match self.check_signature_token(ty) {
            Err(err) => {
                proof {
                    Self::lemma_went_cut(*old(self), *self, first, second, err@);
                    Self::lemma_went_cut(*old(self), *self, first + second, third, err@);
                }
                return Err(err);
            },
            Ok(()) => {},
        }
        proof {
            lemma_grounded_rest(first, second, Seq::empty());
        }
        match self.check_type_instantiation(ty, type_param_constraints) {
            Err(err) => {
                proof {
                    Self::lemma_went_on(*old(self), *old(self), *self, first, second, Err(err@));
                    Self::lemma_went_cut(*old(self), *self, first + second, third, err@);
                }
                return Err(err);
            },
            Ok(()) => {},
        }
        proof {
            Self::lemma_went_on(*old(self), *old(self), *self, first, second, Ok(()));
            lemma_grounded_rest(
                first + second,
                third,
                self.replies@.skip(old(self).replies@.len() as int),
            );
        }
        let res = self.check_phantom_params(ty, false, handle.type_parameters.as_slice());
        proof {
            Self::lemma_went_unasked(*self, third, result_model(res));
            Self::lemma_went_on(
                *old(self),
                *self,
                *self,
                first + second,
                third,
                result_model(res),
            );
        }
        res
    }

    /// Checks the fields of the struct at `struct_def_idx`.
    fn check_struct_fields_of(
        &mut self,
        fields: &[FieldDefinition],
        handle: &DatatypeHandle,
        type_param_constraints: &[AbilitySet],
        struct_def_idx: usize,
    ) -> (res: PartialVMResult<()>)
        requires
            old(self).well_formed(),
            type_param_constraints@ == handle.constraints(),
            grounded(
                joined(
                    fields@.len(),
                    struct_field_parts(
                        *old(self).module,
                        *handle,
                        fields@,
                        struct_def_idx as int,
                    ),
                ),
            ),
        ensures
            Self::went(
                *old(self),
                *final(self),
                joined(
                    fields@.len(),
                    struct_field_parts(
                        *old(self).module,
                        *handle,
                        fields@,
                        struct_def_idx as int,
                    ),
                ),
                result_model(res),
            ),
            *final(final(self).module_ability_cache) == *final(old(self).module_ability_cache),
            *final(final(self).meter) == *final(old(self).meter),
            final(self).abilities_cache == old(self).abilities_cache,
    {
        let ghost m = *self.module;
        let ghost parts = struct_field_parts(m, *handle, fields@, struct_def_idx as int);
        let mut i: usize = 0;
        proof {
            Self::lemma_went_nowhere(*self);
        }
        while i < fields.len()
            invariant
                i <= fields@.len(),
                m == *old(self).module,
                type_param_constraints@ == handle.constraints(),
                parts == struct_field_parts(m, *handle, fields@, struct_def_idx as int),
                grounded(joined(fields@.len(), parts)),
                Self::went(*old(self), *self, joined(i as nat, parts), Ok(())),
                *final(self.module_ability_cache) == *final(old(self).module_ability_cache),
                *final(self.meter) == *final(old(self).meter),
                self.abilities_cache == old(self).abilities_cache,
            decreases fields@.len() - i,
        {
            let ghost before = *self;
            let ty = &fields[i].signature.0;
            let ghost plan = field_plan(m, *ty, *handle);
            let ghost notes = struct_field_notes(i as int, struct_def_idx as int);
            proof {
                lemma_grounded_part(
                    fields@.len(),
                    i as nat,
                    parts,
                    self.replies@.skip(old(self).replies@.len() as int),
                );
                lemma_grounded_within(plan, notes);
            }
            let res = self.check_field(ty, handle, type_param_constraints);
            let ghost inner = result_model(res);
            let res = match res {
                Err(err) => {
                    proof {
                        lemma_annotated_two(
                            err@,
                            Note::Place(IndexKind::FieldDefinition, table_index(i as int)),
                            Note::Place(
                                IndexKind::StructDefinition,
                                table_index(struct_def_idx as int),
                            ),
                        );
                    }
                    Err(
                        err.at_index(IndexKind::FieldDefinition, to_table_index(i)).at_index(
                            IndexKind::StructDefinition,
                            to_table_index(struct_def_idx),
                        ),
                    )
                },
                Ok(()) => Ok(()),
            };
            proof {
                Self::lemma_went_within(before, *self, plan, inner, notes);
                Self::lemma_went_part(
                    *old(self),
                    before,
                    *self,
                    fields@.len(),
                    i as nat,
                    parts,
                    result_model(res),
                );
            }
            match res {
                Err(err) => {
                    return Err(err);
                },
                Ok(()) => {},
            }
            i = i + 1;
        }
        Ok(())
    }

    /// Checks the fields of the variant `tag` of the enum at `enum_def_idx`.
    fn check_variant_fields_of(
        &mut self,
        fields: &[FieldDefinition],
        handle: &DatatypeHandle,
        type_param_constraints: &[AbilitySet],
        tag: usize,
        enum_def_idx: usize,
    ) -> (res: PartialVMResult<()>)
        requires
            old(self).well_formed(),
            type_param_constraints@ == handle.constraints(),
            grounded(
                joined(
                    fields@.len(),
                    variant_field_parts(
                        *old(self).module,
                        *handle,
                        fields@,
                        tag as int,
                        enum_def_idx as int,
                    ),
                ),
            ),
        ensures
            Self::went(
                *old(self),
                *final(self),
                joined(
                    fields@.len(),
                    variant_field_parts(
                        *old(self).module,
                        *handle,
                        fields@,
                        tag as int,
                        enum_def_idx as int,
                    ),
                ),
                result_model(res),
            ),
            *final(final(self).module_ability_cache) == *final(old(self).module_ability_cache),
            *final(final(self).meter) == *final(old(self).meter),
            final(self).abilities_cache == old(self).abilities_cache,
    {
        let ghost m = *self.module;
        let ghost parts = variant_field_parts(m, *handle, fields@, tag as int, enum_def_idx as int);
        let mut i: usize = 0;
        proof {
            Self::lemma_went_nowhere(*self);
        }
        while i < fields.len()
            invariant
                i <= fields@.len(),
                m == *old(self).module,
                type_param_constraints@ == handle.constraints(),
                parts == variant_field_parts(m, *handle, fields@, tag as int, enum_def_idx as int),
                grounded(joined(fields@.len(), parts)),
                Self::went(*old(self), *self, joined(i as nat, parts), Ok(())),
                *final(self.module_ability_cache) == *final(old(self).module_ability_cache),
                *final(self.meter) == *final(old(self).meter),
                self.abilities_cache == old(self).abilities_cache,
            decreases fields@.len() - i,
        {
            let ghost before = *self;
            let ty = &fields[i].signature.0;
            let ghost plan = field_plan(m, *ty, *handle);
            let ghost notes = variant_field_notes(i as int, tag as int, enum_def_idx as int);
            proof {
                lemma_grounded_part(
                    fields@.len(),
                    i as nat,
                    parts,
                    self.replies@.skip(old(self).replies@.len() as int),
                );
                lemma_grounded_within(plan, notes);
            }
            let res = self.check_field(ty, handle, type_param_constraints);
            let ghost inner = result_model(res);
            let res = match res {
                Err(err) => {
                    proof {
                        lemma_annotated_three(
                            err@,
                            Note::Place(IndexKind::FieldDefinition, table_index(i as int)),
                            Note::Place(IndexKind::VariantTag, table_index(tag as int)),
                            Note::Place(
                                IndexKind::EnumDefinition,
                                table_index(enum_def_idx as int),
                            ),
                        );
                    }
                    Err(
                        err.at_index(IndexKind::FieldDefinition, to_table_index(i)).at_index(
                            IndexKind::VariantTag,
                            to_table_index(tag),
                        ).at_index(IndexKind::EnumDefinition, to_table_index(enum_def_idx)),
                    )
                },
                Ok(()) => Ok(()),
            };
            proof {
                Self::lemma_went_within(before, *self, plan, inner, notes);
                Self::lemma_went_part(
                    *old(self),
                    before,
                    *self,
                    fields@.len(),
                    i as nat,
                    parts,
                    result_model(res),
                );
            }
            match res {
                Err(err) => {
                    return Err(err);
                },
                Ok(()) => {},
            }
            i = i + 1;
        }
        Ok(())
    }

    /// Checks the fields of every struct.
    fn verify_struct_fields(&mut self, struct_defs: &[StructDefinition]) -> (res: PartialVMResult<
        (),
    >)
        requires
            old(self).well_formed(),
            struct_defs@ == old(self).module.struct_defs@,
            grounded(struct_fields_plan(*old(self).module)),
        ensures
            Self::went(
                *old(self),
                *final(self),
                struct_fields_plan(*old(self).module),
                result_model(res),
            ),
            *final(final(self).module_ability_cache) == *final(old(self).module_ability_cache),
            *final(final(self).meter) == *final(old(self).meter),
            final(self).abilities_cache == old(self).abilities_cache,
    {
        let ghost m = *self.module;
        let ghost parts = struct_parts(m);
        let mut struct_def_idx: usize = 0;
        proof {
            Self::lemma_went_nowhere(*self);
        }
        while struct_def_idx < struct_defs.len()
            invariant
                struct_def_idx <= struct_defs@.len(),
                m == *old(self).module,
                struct_defs@ == m.struct_defs@,
                parts == struct_parts(m),
                grounded(joined(struct_defs@.len(), parts)),
                Self::went(*old(self), *self, joined(struct_def_idx as nat, parts), Ok(())),
                *final(self.module_ability_cache) == *final(old(self).module_ability_cache),
                *final(self.meter) == *final(old(self).meter),
                self.abilities_cache == old(self).abilities_cache,
            decreases struct_defs@.len() - struct_def_idx,
        {
            let ghost before = *self;
            let struct_def = &struct_defs[struct_def_idx];
            proof {
                lemma_grounded_part(
                    struct_defs@.len(),
                    struct_def_idx as nat,
                    parts,
                    self.replies@.skip(old(self).replies@.len() as int),
                );
                lemma_grounded_start(struct_plan(m, struct_def_idx as int));
                Self::lemma_went_nowhere(*self);
            }
            let res = match &struct_def.field_information {
                StructFieldInformation::Native => Ok(()),
                StructFieldInformation::Declared(fields) => {
                    let module = self.module;
                    let handle = &module.datatype_handles[struct_def.struct_handle.0 as usize];
                    let constraints = handle.type_param_constraints();
                    self.check_struct_fields_of(
                        fields.as_slice(),
                        handle,
                        constraints.as_slice(),
                        struct_def_idx,
                    )
                },
            };
            proof {
                Self::lemma_went_part(
                    *old(self),
                    before,
                    *self,
                    struct_defs@.len(),
                    struct_def_idx as nat,
                    parts,
                    result_model(res),
                );
            }
            match res {
                Err(err) => {
                    return Err(err);
                },
                Ok(()) => {},
            }
            struct_def_idx = struct_def_idx + 1;
        }
        Ok(())
    }

    /// Checks the fields of the variants of the enum at `enum_def_idx`.
    fn check_variants_of(
        &mut self,
        variants: &[VariantDefinition],
        handle: &DatatypeHandle,
        type_param_constraints: &[AbilitySet],
        enum_def_idx: usize,
    ) -> (res: PartialVMResult<()>)
        requires
            old(self).well_formed(),
            type_param_constraints@ == handle.constraints(),
            grounded(
                joined(
                    variants@.len(),
                    variant_parts(*old(self).module, *handle, variants@, enum_def_idx as int),
                ),
            ),
        ensures
            Self::went(
                *old(self),
                *final(self),
                joined(
                    variants@.len(),
                    variant_parts(*old(self).module, *handle, variants@, enum_def_idx as int),
                ),
                result_model(res),
            ),
            *final(final(self).module_ability_cache) == *final(old(self).module_ability_cache),
            *final(final(self).meter) == *final(old(self).meter),
            final(self).abilities_cache == old(self).abilities_cache,
    {
        let ghost m = *self.module;
        let ghost parts = variant_parts(m, *handle, variants@, enum_def_idx as int);
        let mut tag: usize = 0;
        proof {
            Self::lemma_went_nowhere(*self);
        }
        while tag < variants.len()
            invariant
                tag <= variants@.len(),
                m == *old(self).module,
                type_param_constraints@ == handle.constraints(),
                parts == variant_parts(m, *handle, variants@, enum_def_idx as int),
                grounded(joined(variants@.len(), parts)),
                Self::went(*old(self), *self, joined(tag as nat, parts), Ok(())),
                *final(self.module_ability_cache) == *final(old(self).module_ability_cache),
                *final(self.meter) == *final(old(self).meter),
                self.abilities_cache == old(self).abilities_cache,
            decreases variants@.len() - tag,
        {
            let ghost before = *self;
            proof {
                lemma_grounded_part(
                    variants@.len(),
                    tag as nat,
                    parts,
                    self.replies@.skip(old(self).replies@.len() as int),
                );
            }
            let res = self.check_variant_fields_of(
                variants[tag].fields.as_slice(),
                handle,
                type_param_constraints,
                tag,
                enum_def_idx,
            );
            proof {
                Self::lemma_went_part(
                    *old(self),
                    before,
                    *self,
                    variants@.len(),
                    tag as nat,
                    parts,
                    result_model(res),
                );
            }
            match res {
                Err(err) => {
                    return Err(err);
                },
                Ok(()) => {},
            }
            tag = tag + 1;
        }
        Ok(())
    }

    /// Checks the fields of every enum.
    fn verify_enum_fields(&mut self, enum_defs: &[EnumDefinition]) -> (res: PartialVMResult<()>)
        requires
            old(self).well_formed(),
            enum_defs@ == old(self).module.enum_defs@,
            grounded(enum_fields_plan(*old(self).module)),
        ensures
            Self::went(
                *old(self),
                *final(self),
                enum_fields_plan(*old(self).module),
                result_model(res),
            ),
            *final(final(self).module_ability_cache) == *final(old(self).module_ability_cache),
            *final(final(self).meter) == *final(old(self).meter),
            final(self).abilities_cache == old(self).abilities_cache,
    {
        let ghost m = *self.module;
        let ghost parts = enum_parts(m);
        let mut enum_def_idx: usize = 0;
        proof {
            Self::lemma_went_nowhere(*self);
        }
        while enum_def_idx < enum_defs.len()
            invariant
                enum_def_idx <= enum_defs@.len(),
                m == *old(self).module,
                enum_defs@ == m.enum_defs@,
                parts == enum_parts(m),
                grounded(joined(enum_defs@.len(), parts)),
                Self::went(*old(self), *self, joined(enum_def_idx as nat, parts), Ok(())),
                *final(self.module_ability_cache) == *final(old(self).module_ability_cache),
                *final(self.meter) == *final(old(self).meter),
                self.abilities_cache == old(self).abilities_cache,
            decreases enum_defs@.len() - enum_def_idx,
        {
            let ghost before = *self;
            let enum_def = &enum_defs[enum_def_idx];
            proof {
                lemma_grounded_part(
                    enum_defs@.len(),
                    enum_def_idx as nat,
                    parts,
                    self.replies@.skip(old(self).replies@.len() as int),
                );
                lemma_grounded_start(enum_plan(m, enum_def_idx as int));
            }
            let module = self.module;
            let handle = &module.datatype_handles[enum_def.enum_handle.0 as usize];
            let constraints = handle.type_param_constraints();
            let res = self.check_variants_of(
                enum_def.variants.as_slice(),
                handle,
                constraints.as_slice(),
                enum_def_idx,
            );
            proof {
                Self::lemma_went_part(
                    *old(self),
                    before,
                    *self,
                    enum_defs@.len(),
                    enum_def_idx as nat,
                    parts,
                    result_model(res),
                );
            }
            match res {
                Err(err) => {
                    return Err(err);
                },
                Ok(()) => {},
            }
            enum_def_idx = enum_def_idx + 1;
        }
        Ok(())
    }

    /// Checks that the type arguments of an instruction are well defined and have the abilities
    /// that are asked of them. That no reference is among them is checked first, and an error
    /// found by that does not name the instruction.
    fn check_instance_at(
        &mut self,
        type_arguments: &[SignatureToken],
        constraints: &[AbilitySet],
        offset: usize,
        type_parameters: &[AbilitySet],
    ) -> (res: PartialVMResult<()>)
        requires
            old(self).well_formed(),
        ensures
            Self::went(
                *old(self),
                *final(self),
                tokens_plan(type_arguments@) + within(
                    generic_instance_plan(type_arguments@, constraints@, type_parameters@),
                    offset_notes(offset as int),
                ),
                result_model(res),
            ),
            *final(final(self).module_ability_cache) == *final(old(self).module_ability_cache),
            *final(final(self).meter) == *final(old(self).meter),
            final(self).abilities_cache == old(self).abilities_cache,
    {
        let ghost first = tokens_plan(type_arguments@);
        let ghost plan = generic_instance_plan(type_arguments@, constraints@, type_parameters@);
        let ghost notes = offset_notes(offset as int);
        proof {
            lemma_performs_refuse_if(any_reference(type_arguments@), reference_error());
            Self::lemma_went_unasked(
                *self,
                first,
                refused_if(any_reference(type_arguments@), reference_error()),
            );
        }
        match self.check_signature_tokens(type_arguments) {
            Err(err) => {
                proof {
                    Self::lemma_went_cut(*old(self), *self, first, within(plan, notes), err@);
                }
                return Err(err);
            },
            Ok(()) => {},
        }
        let res = self.check_generic_instance(type_arguments, constraints, type_parameters);
        let ghost inner = result_model(res);
        let res = name_offset(res, offset);
        proof {
            Self::lemma_went_within(*old(self), *self, plan, inner, notes);
            Self::lemma_went_on(
                *old(self),
                *old(self),
                *self,
                first,
                within(plan, notes),
                result_model(res),
            );
        }
        res
    }

    /// Checks the type arguments of an instruction.
    fn check_instruction(
        &mut self,
        instr: &Bytecode,
        offset: usize,
        type_parameters: &[AbilitySet],
    ) -> (res: PartialVMResult<()>)
        requires
            old(self).well_formed(),
            grounded(
                instruction_plan(*old(self).module, *instr, offset as int, type_parameters@),
            ),
        ensures
            Self::went(
                *old(self),
                *final(self),
                instruction_plan(*old(self).module, *instr, offset as int, type_parameters@),
                result_model(res),
            ),
            *final(final(self).module_ability_cache) == *final(old(self).module_ability_cache),
            *final(final(self).meter) == *final(old(self).meter),
            final(self).abilities_cache == old(self).abilities_cache,
    {
        let module = self.module;
        proof {
            lemma_grounded_start(
                instruction_plan(*module, *instr, offset as int, type_parameters@),
            );
            Self::lemma_went_nowhere(*self);
        }
        match instr {
            Bytecode::CallGeneric(idx) => {
                let func_inst = &module.function_instantiations[idx.0 as usize];
                let func_handle = &module.function_handles[func_inst.handle.0 as usize];
                let type_arguments = &module.signatures[func_inst.type_parameters.0 as usize].0;
                self.check_instance_at(
                    type_arguments.as_slice(),
                    func_handle.type_parameters.as_slice(),
                    offset,
                    type_parameters,
                )
            },
            Bytecode::PackGeneric(idx)
            | Bytecode::UnpackGeneric(idx)
            | Bytecode::ExistsGenericDeprecated(idx)
            | Bytecode::MoveFromGenericDeprecated(idx)
            | Bytecode::MoveToGenericDeprecated(idx)
            | Bytecode::ImmBorrowGlobalGenericDeprecated(idx)
            | Bytecode::MutBorrowGlobalGenericDeprecated(idx) => {
                let struct_inst = &module.struct_def_instantiations[idx.0 as usize];
                let struct_def = &module.struct_defs[struct_inst.def.0 as usize];
                let struct_handle = &module.datatype_handles[struct_def.struct_handle.0 as usize];
                let type_arguments = &module.signatures[struct_inst.type_parameters.0 as usize].0;
                let constraints = struct_handle.type_param_constraints();
                self.check_instance_at(
                    type_arguments.as_slice(),
                    constraints.as_slice(),
                    offset,
                    type_parameters,
                )
            },
            Bytecode::ImmBorrowFieldGeneric(idx) | Bytecode::MutBorrowFieldGeneric(idx) => {
                let field_inst = &module.field_instantiations[idx.0 as usize];
                let field_handle = &module.field_handles[field_inst.handle.0 as usize];
                let struct_def = &module.struct_defs[field_handle.owner.0 as usize];
                let struct_handle = &module.datatype_handles[struct_def.struct_handle.0 as usize];
                let type_arguments = &module.signatures[field_inst.type_parameters.0 as usize].0;
                let constraints = struct_handle.type_param_constraints();
                self.check_instance_at(
                    type_arguments.as_slice(),
                    constraints.as_slice(),
                    offset,
                    type_parameters,
                )
            },
            Bytecode::VecPack(idx, _)
            | Bytecode::VecLen(idx)
            | Bytecode::VecImmBorrow(idx)
            | Bytecode::VecMutBorrow(idx)
            | Bytecode::VecPushBack(idx)
            | Bytecode::VecPopBack(idx)
            | Bytecode::VecUnpack(idx, _)
            | Bytecode::VecSwap(idx) => {
                let type_arguments = &module.signatures[idx.0 as usize].0;
                if type_arguments.len() != 1 {
                    let mut message = String::new();
                    message.append("expected 1 type token for vector operations, got ");
                    push_decimal(&mut message, type_arguments.len());
                    let err = PartialVMError::new(
                        StatusCode::NUMBER_OF_TYPE_ARGUMENTS_MISMATCH,
                    ).with_message(message);
                    proof {
                        let model = vector_arity_error(type_arguments@.len());
                        assert(err@.message->Some_0 =~= model.message->Some_0);
                        assert(err@ =~= model);
                        lemma_performs_fail(model);
                        Self::lemma_went_unasked(*self, seq![Step::Fail(model)], Err(model));
                    }
                    return Err(err);
                }
                let res = self.check_signature_tokens(type_arguments.as_slice());
                let ghost inner = result_model(res);
                let res = name_offset(res, offset);
                proof {
                    lemma_performs_refuse_if(any_reference(type_arguments@), reference_error());
                    Self::lemma_went_unasked(*self, tokens_plan(type_arguments@), inner);
                    Self::lemma_went_within(
                        *self,
                        *self,
                        tokens_plan(type_arguments@),
                        inner,
                        offset_notes(offset as int),
                    );
                }
                res
            },
            Bytecode::PackVariantGeneric(vidx)
            | Bytecode::UnpackVariantGeneric(vidx)
            | Bytecode::UnpackVariantGenericImmRef(vidx)
            | Bytecode::UnpackVariantGenericMutRef(vidx) => {
                let handle = &module.variant_instantiation_handles[vidx.0 as usize];
                let enum_inst = &module.enum_def_instantiations[handle.enum_def.0 as usize];
                let enum_def = &module.enum_defs[enum_inst.def.0 as usize];
                let enum_handle = &module.datatype_handles[enum_def.enum_handle.0 as usize];
                let type_arguments = &module.signatures[enum_inst.type_parameters.0 as usize].0;
                let constraints = enum_handle.type_param_constraints();
                self.check_instance_at(
                    type_arguments.as_slice(),
                    constraints.as_slice(),
                    offset,
                    type_parameters,
                )
            },
            // The other instructions are listed one by one, so that a new one has to be
            // considered here.
            Bytecode::Pop
            | Bytecode::Ret
            | Bytecode::Branch(_)
            | Bytecode::BrTrue(_)
            | Bytecode::BrFalse(_)
            | Bytecode::LdU8(_)
            | Bytecode::LdU16(_)
            | Bytecode::LdU32(_)
            | Bytecode::LdU64(_)
            | Bytecode::LdU128(_)
            | Bytecode::LdU256(_)
            | Bytecode::LdConst(_)
            | Bytecode::CastU8
            | Bytecode::CastU16
            | Bytecode::CastU32
            | Bytecode::CastU64
            | Bytecode::CastU128
            | Bytecode::CastU256
            | Bytecode::LdTrue
            | Bytecode::LdFalse
            | Bytecode::Call(_)
            | Bytecode::Pack(_)
            | Bytecode::Unpack(_)
            | Bytecode::ReadRef
            | Bytecode::WriteRef
            | Bytecode::FreezeRef
            | Bytecode::Add
            | Bytecode::Sub
            | Bytecode::Mul
            | Bytecode::Mod
            | Bytecode::Div
            | Bytecode::BitOr
            | Bytecode::BitAnd
            | Bytecode::Xor
            | Bytecode::Shl
            | Bytecode::Shr
            | Bytecode::Or
            | Bytecode::And
            | Bytecode::Not
            | Bytecode::Eq
            | Bytecode::Neq
            | Bytecode::Lt
            | Bytecode::Gt
            | Bytecode::Le
            | Bytecode::Ge
            | Bytecode::CopyLoc(_)
            | Bytecode::MoveLoc(_)
            | Bytecode::StLoc(_)
            | Bytecode::MutBorrowLoc(_)
            | Bytecode::ImmBorrowLoc(_)
            | Bytecode::MutBorrowField(_)
            | Bytecode::ImmBorrowField(_)
            | Bytecode::MutBorrowGlobalDeprecated(_)
            | Bytecode::ImmBorrowGlobalDeprecated(_)
            | Bytecode::ExistsDeprecated(_)
            | Bytecode::MoveToDeprecated(_)
            | Bytecode::MoveFromDeprecated(_)
            | Bytecode::Abort
            | Bytecode::Nop
            | Bytecode::VariantSwitch(_)
            | Bytecode::PackVariant(_)
            | Bytecode::UnpackVariant(_)
            | Bytecode::UnpackVariantImmRef(_)
            | Bytecode::UnpackVariantMutRef(_) => Ok(()),
        }
    }

    /// Checks the local variables of a function, and the type arguments of its instructions.
    fn verify_code(&mut self, code: &CodeUnit, type_parameters: &[AbilitySet]) -> (res:
        PartialVMResult<()>)
        requires
            old(self).well_formed(),
            grounded(
                code_plan(
                    *old(self).module,
                    old(self).abilities_cache@,
                    *code,
                    type_parameters@,
                ),
            ),
        ensures
            Self::went(
                *old(self),
                *final(self),
                code_plan(
                    *old(self).module,
                    old(self).abilities_cache@,
                    *code,
                    type_parameters@,
                ),
                result_model(res),
            ),
            *final(final(self).module_ability_cache) == *final(old(self).module_ability_cache),
            *final(final(self).meter) == *final(old(self).meter),
            res is Ok ==> final(self).abilities_cache@ == old(self).abilities_cache@.insert(
                locals_instance(*code, type_parameters@),
            ),
            res is Err ==> final(self).abilities_cache@ == checked_with_refused_code(
                *old(self).module,
                old(self).abilities_cache@,
                *code,
                type_parameters@,
                Self::asked(*old(self), *final(self)),
            ),
    {
        let ghost m = *self.module;
        let ghost parts = instruction_parts(m, code.code@, type_parameters@);
        let ghost first = instantiation_plan(
            m,
            self.abilities_cache@,
            locals_instance(*code, type_parameters@),
        );
        let ghost second = joined(code.code@.len(), parts);
        proof {
            lemma_grounded_first(first, second);
        }
        match self.check_instantiation(code.locals, type_parameters) {
            Err(err) => {
                proof {
                    Self::lemma_went_cut(*old(self), *self, first, second, err@);
                }
                return Err(err);
            },
            Ok(()) => {},
        }
        let ghost middle = *self;
        proof {
            lemma_grounded_rest(
                first,
                second,
                self.replies@.skip(old(self).replies@.len() as int),
            );
            Self::lemma_went_nowhere(*self);
        }
        let mut offset: usize = 0;
        while offset < code.code.len()
            invariant
                offset <= code.code@.len(),
                m == *old(self).module,
                m == *middle.module,
                parts == instruction_parts(m, code.code@, type_parameters@),
                second == joined(code.code@.len(), parts),
                first == instantiation_plan(
                    m,
                    old(self).abilities_cache@,
                    locals_instance(*code, type_parameters@),
                ),
                code_plan(m, old(self).abilities_cache@, *code, type_parameters@) == first + second,
                grounded(second),
                Self::went(*old(self), middle, first, Ok(())),
                Self::went(middle, *self, joined(offset as nat, parts), Ok(())),
                *final(self.module_ability_cache) == *final(old(self).module_ability_cache),
                *final(self.meter) == *final(old(self).meter),
                self.abilities_cache == middle.abilities_cache,
                middle.abilities_cache@ == old(self).abilities_cache@.insert(
                    locals_instance(*code, type_parameters@),
                ),
            decreases code.code@.len() - offset,
        {
            let ghost before = *self;
            proof {
                lemma_grounded_part(
                    code.code@.len(),
                    offset as nat,
                    parts,
                    self.replies@.skip(middle.replies@.len() as int),
                );
            }
            let res = self.check_instruction(&code.code[offset], offset, type_parameters);
            proof {
                Self::lemma_went_part(
                    middle,
                    before,
                    *self,
                    code.code@.len(),
                    offset as nat,
                    parts,
                    result_model(res),
                );
            }
            match res {
                Err(err) => {
                    proof {
                        Self::lemma_went_on(*old(self), middle, *self, first, second, Err(err@));
                        Self::lemma_went_unrefused(
                            *old(self),
                            middle,
                            *self,
                            first,
                            second,
                            Err(err@),
                        );
                    }
                    return Err(err);
                },
                Ok(()) => {},
            }
            offset = offset + 1;
        }
        proof {
            Self::lemma_went_on(*old(self), middle, *self, first, second, Ok(()));
        }
        Ok(())
    }

    /// Checks the code of every function that has some.
    fn verify_code_units(
        &mut self,
        function_handles: &[FunctionHandle],
        function_defs: &[FunctionDefinition],
    ) -> (res: PartialVMResult<()>)
        requires
            old(self).well_formed(),
            function_handles@ == old(self).module.function_handles@,
            function_defs@ == old(self).module.function_defs@,
            old(self).abilities_cache@ == checked_with_functions(*old(self).module, 0),
            grounded(code_units_plan(*old(self).module)),
        ensures
            Self::went(
                *old(self),
                *final(self),
                code_units_plan(*old(self).module),
                result_model(res),
            ),
            *final(final(self).module_ability_cache) == *final(old(self).module_ability_cache),
            *final(final(self).meter) == *final(old(self).meter),
            res is Ok ==> final(self).abilities_cache@ == checked_with_functions(
                *old(self).module,
                function_defs@.len(),
            ),
            old(self).abilities_cache@.subset_of(final(self).abilities_cache@),
            res matches Err(err) ==> exists|i: int, k: int|
                {
                    &&& 0 <= i < function_defs@.len()
                    &&& #[trigger] refuses_first(
                        function_parts(*old(self).module),
                        i,
                        k,
                        Self::asked(*old(self), *final(self)),
                        err@,
                    )
                    &&& function_defs@[i].code matches Some(code)
                    &&& final(self).abilities_cache@ == checked_with_refused_code(
                        *old(self).module,
                        checked_with_functions(*old(self).module, i as nat),
                        code,
                        function_type_parameters(*old(self).module, function_defs@[i]),
                        Self::asked(*old(self), *final(self)).skip(k),
                    )
                },
    {
        let ghost m = *self.module;
        let ghost parts = function_parts(m);
        let mut func_def_idx: usize = 0;
        proof {
            Self::lemma_went_nowhere(*self);
        }
        while func_def_idx < function_defs.len()
            invariant
                func_def_idx <= function_defs@.len(),
                m == *old(self).module,
                function_handles@ == m.function_handles@,
                function_defs@ == m.function_defs@,
                parts == function_parts(m),
                grounded(joined(function_defs@.len(), parts)),
                Self::went(*old(self), *self, joined(func_def_idx as nat, parts), Ok(())),
                *final(self.module_ability_cache) == *final(old(self).module_ability_cache),
                *final(self.meter) == *final(old(self).meter),
                self.abilities_cache@ == checked_with_functions(m, func_def_idx as nat),
                old(self).abilities_cache@ == checked_with_functions(m, 0),
            decreases function_defs@.len() - func_def_idx,
        {
            let ghost before = *self;
            let func_def = &function_defs[func_def_idx];
            proof {
                lemma_grounded_part(
                    function_defs@.len(),
                    func_def_idx as nat,
                    parts,
                    self.replies@.skip(old(self).replies@.len() as int),
                );
                lemma_grounded_start(
                    function_plan(m, self.abilities_cache@, func_def_idx as int),
                );
                Self::lemma_went_nowhere(*self);
            }
            let res = match &func_def.code {
                // Native functions have no code to check.
                None => Ok(()),
                Some(code) => {
                    let ghost plan = code_plan(
                        m,
                        self.abilities_cache@,
                        *code,
                        function_type_parameters(m, *func_def),
                    );
                    let ghost notes = function_notes(code.locals, func_def_idx as int);
                    proof {
                        if has_handle(m, *func_def) {
                            lemma_grounded_within(plan, notes);
                        }
                    }
                    let func_handle = &function_handles[func_def.function.0 as usize];
                    let res = self.verify_code(code, func_handle.type_parameters.as_slice());
                    proof {
                        Self::lemma_went_within(before, *self, plan, result_model(res), notes);
                    }
                    match res {
                        Err(err) => {
                            proof {
                                lemma_annotated_two(
                                    err@,
                                    Note::Place(IndexKind::Signature, code.locals.0),
                                    Note::Place(
                                        IndexKind::FunctionDefinition,
                                        table_index(func_def_idx as int),
                                    ),
                                );
                            }
                            Err(
                                err.at_index(IndexKind::Signature, code.locals.0).at_index(
                                    IndexKind::FunctionDefinition,
                                    to_table_index(func_def_idx),
                                ),
                            )
                        },
                        Ok(()) => Ok(()),
                    }
                },
            };
            proof {
                Self::lemma_went_part(
                    *old(self),
                    before,
                    *self,
                    function_defs@.len(),
                    func_def_idx as nat,
                    parts,
                    result_model(res),
                );
            }
            match res {
                Err(err) => {
                    proof {
                        lemma_checked_with_functions_grows(m, 0, func_def_idx as nat);
                        Self::lemma_went_refused(
                            *old(self),
                            before,
                            *self,
                            func_def_idx as int,
                            parts,
                            err@,
                        );
                    }
                    return Err(err);
                },
                Ok(()) => {},
            }
            func_def_idx = func_def_idx + 1;
        }
        proof {
            lemma_checked_with_functions_grows(m, 0, func_def_idx as nat);
        }
        Ok(())
    }

    /// Checks the signatures of a module.
    fn verify_module_impl(
        module: &'env CompiledModule,
        module_ability_cache: &'a mut C,
        meter: &'b mut M,
    ) -> (res: PartialVMResult<()>)
        requires
            grounded(module_plan(*module)),
        ensures
            checks(
                *module,
                (*old(module_ability_cache), *old(meter)),
                (*final(module_ability_cache), *final(meter)),
                result_model(res),
            ),
    {
        let ghost m = *module;
        let ghost a = signature_pool_plan(m);
        let ghost b = function_signatures_plan(m);
        let ghost c = struct_fields_plan(m);
        let ghost d = enum_fields_plan(m);
        let ghost e = code_units_plan(m);
        let ghost before = (*module_ability_cache, *meter);
        proof {
            lemma_grounded_first(a + b + c + d, e);
            lemma_grounded_first(a + b + c, d);
            lemma_grounded_first(a + b, c);
            lemma_grounded_first(a, b);
        }
        let mut sig_check = SignatureChecker {
            module,
            module_ability_cache,
            meter,
            abilities_cache: CheckedInstances::new(),
            states: Ghost(Seq::empty().push(before)),
            replies: Ghost(Seq::empty()),
        };
        let ghost start = sig_check;
        let res = sig_check.verify_signature_pool(module.signatures.as_slice());
        proof {
            Self::lemma_went_unasked(sig_check, a, result_model(res));
        }
        match res {
            Err(err) => {
                proof {
                    Self::lemma_went_cut(start, sig_check, a, b, err@);
                    Self::lemma_went_cut(start, sig_check, a + b, c, err@);
                    Self::lemma_went_cut(start, sig_check, a + b + c, d, err@);
                    Self::lemma_went_cut(start, sig_check, a + b + c + d, e, err@);
                    Self::lemma_checks(m, start, sig_check, Err(err@));
                }
                return Err(err);
            },
            Ok(()) => {},
        }
        proof {
            lemma_grounded_rest(a, b, sig_check.replies@.skip(0));
        }
        let ghost middle = sig_check;
        let res = sig_check.verify_function_signatures(module.function_handles.as_slice());
        proof {
            Self::lemma_went_on(start, middle, sig_check, a, b, result_model(res));
        }
        match res {
            Err(err) => {
                proof {
                    Self::lemma_went_cut(start, sig_check, a + b, c, err@);
                    Self::lemma_went_cut(start, sig_check, a + b + c, d, err@);
                    Self::lemma_went_cut(start, sig_check, a + b + c + d, e, err@);
                    Self::lemma_checks(m, start, sig_check, Err(err@));
                }
                return Err(err);
            },
            Ok(()) => {},
        }
        proof {
            lemma_grounded_rest(a + b, c, sig_check.replies@.skip(0));
        }
        let ghost middle = sig_check;
        let res = sig_check.verify_struct_fields(module.struct_defs.as_slice());
        proof {
            Self::lemma_went_on(start, middle, sig_check, a + b, c, result_model(res));
        }
        match res {
            Err(err) => {
                proof {
                    Self::lemma_went_cut(start, sig_check, a + b + c, d, err@);
                    Self::lemma_went_cut(start, sig_check, a + b + c + d, e, err@);
                    Self::lemma_checks(m, start, sig_check, Err(err@));
                }
                return Err(err);
            },
            Ok(()) => {},
        }
        proof {
            lemma_grounded_rest(a + b + c, d, sig_check.replies@.skip(0));
        }
        let ghost middle = sig_check;
        let res = sig_check.verify_enum_fields(module.enum_defs.as_slice());
        proof {
            Self::lemma_went_on(start, middle, sig_check, a + b + c, d, result_model(res));
        }
        match res {
            Err(err) => {
                proof {
                    Self::lemma_went_cut(start, sig_check, a + b + c + d, e, err@);
                    Self::lemma_checks(m, start, sig_check, Err(err@));
                }
                return Err(err);
            },
            Ok(()) => {},
        }
        proof {
            lemma_grounded_rest(a + b + c + d, e, sig_check.replies@.skip(0));
        }
        let ghost middle = sig_check;
        let res = sig_check.verify_code_units(
            module.function_handles.as_slice(),
            module.function_defs.as_slice(),
        );
        proof {
            Self::lemma_went_on(start, middle, sig_check, a + b + c + d, e, result_model(res));
            Self::lemma_checks(m, start, sig_check, result_model(res));
        }
        res
    }

    proof fn lemma_checks(m: CompiledModule, start: Self, end: Self, res: Result<(), ErrorModel>)
        requires
            Self::went(start, end, module_plan(m), res),
            start.replies@.len() == 0,
            start.states@.len() == 1,
        ensures
            checks(m, start.states@[0], end.states@.last(), res),
    {
        assert(end.replies@.skip(0) =~= end.replies@);
        assert(end.states@.first() == end.states@.take(1)[0]);
        assert(conversation(end.states@, end.replies@));
    }

    /// Checks the signatures of a module. What the ability cache is asked, and what comes of its
    /// answers, is what `module_plan` says.
    pub fn verify_module(
        module: &'env CompiledModule,
        module_ability_cache: &'a mut C,
        meter: &'b mut M,
    ) -> (res: VMResult<()>)
        requires
            grounded(module_plan(*module)),
        ensures
            checks(
                *module,
                (*old(module_ability_cache), *old(meter)),
                (*final(module_ability_cache), *final(meter)),
                outcome_of(res),
            ),
            res matches Err(err) ==> err.location == Location::Module(module.self_id),
    {
        match Self::verify_module_impl(module, module_ability_cache, meter) {
            Err(err) => Err(err.finish(Location::Module(module.self_id.clone()))),
            Ok(()) => Ok(()),
        }
    }
}

/// Whether the check of a module may take the ability cache and the meter from `before` to
/// `after` and end in `res`: the questions are those of the module's plan, in its order, up to
/// the first step that refuses; each is charged to the module; and `res` is what comes of the
/// answers.
pub open spec fn checks<C: AbilityCache<M>, M>(
    m: CompiledModule,
    before: (C, M),
    after: (C, M),
    res: Result<(), ErrorModel>,
) -> bool {
    exists|states: Seq<(C, M)>, replies: Seq<Reply>|
        {
            &&& #[trigger] conversation(states, replies)
            &&& states.first() == before
            &&& states.last() == after
            &&& performs(module_plan(m), replies, res)
        }
}

/// A prepared source gives the answers that it was prepared with.
proof fn lemma_prepared(
    plan: Plan,
    states: Seq<(PreparedAnswers, ())>,
    replies: Seq<Reply>,
    res: Result<(), ErrorModel>,
)
    requires
        conversation(states, replies),
        performs(plan, replies, res),
        !states.first().0.was_overrun(),
    ensures
        verdict(plan, states.first().0.left()) == if states.last().0.was_overrun() {
            None
        } else {
            Some(res)
        },
    decreases plan.len(),
{
    if replies.len() > 0 {
        lemma_conversation_goes_on(states, replies);
        let step = plan[0];
        if judged(step->constraint, step->query.ty, replies[0].answer) is Ok {
            lemma_prepared(plan.drop_first(), states.drop_first(), replies.drop_first(), res);
        }
    }
}

/// Checks the signatures of a module, where `answers` is what an ability cache would say, in the
/// order in which it would be asked. Says nothing if there are fewer answers than questions.
pub fn verify_module_with_answers(
    module: &CompiledModule,
    answers: VecDeque<PartialVMResult<AbilitySet>>,
) -> (res: Option<VMResult<()>>)
    requires
        grounded(module_plan(*module)),
    ensures
        verdict(
            module_plan(*module),
            answers@.map_values(|answer: PartialVMResult<AbilitySet>| result_model(answer)),
        ) == match res {
            Some(res) => Some(outcome_of(res)),
            None => None,
        },
        res matches Some(Err(err)) ==> err.location == Location::Module(module.self_id),
{
    let mut source = PreparedAnswers::new(answers);
    let mut meter = ();
    let ghost before = (source, meter);
    let res = SignatureChecker::verify_module(module, &mut source, &mut meter);
    proof {
        let (states, replies) = choose|states: Seq<(PreparedAnswers, ())>, replies: Seq<Reply>|
            {
                &&& #[trigger] conversation(states, replies)
                &&& states.first() == before
                &&& states.last() == (source, meter)
                &&& performs(module_plan(*module), replies, outcome_of(res))
            };
        lemma_prepared(module_plan(*module), states, replies, outcome_of(res));
    }
    if source.is_overrun() {
        None
    } else {
        Some(res)
    }
}

} // verus!
