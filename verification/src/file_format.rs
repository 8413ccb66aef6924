//! The tables of a compiled module, as far as signature checking reads them.

use vstd::prelude::*;

use crate::abilities::AbilitySet;
use crate::errors::{ModuleId, TableIndex};
use crate::text::{decimal, push_decimal};

verus! {

/// The index of a datatype handle.
#[derive(Clone, Copy, Debug, PartialEq, Eq, Structural)]
pub struct DatatypeHandleIndex(pub TableIndex);

/// The index of a function handle.
#[derive(Clone, Copy, Debug, PartialEq, Eq, Structural)]
pub struct FunctionHandleIndex(pub TableIndex);

/// The index of a field handle.
#[derive(Clone, Copy, Debug, PartialEq, Eq, Structural)]
pub struct FieldHandleIndex(pub TableIndex);

/// The index of a signature.
#[derive(Clone, Copy, Debug, PartialEq, Eq, Structural)]
pub struct SignatureIndex(pub TableIndex);

/// The index of a struct definition.
#[derive(Clone, Copy, Debug, PartialEq, Eq, Structural)]
pub struct StructDefinitionIndex(pub TableIndex);

/// The index of an enum definition.
#[derive(Clone, Copy, Debug, PartialEq, Eq, Structural)]
pub struct EnumDefinitionIndex(pub TableIndex);

/// The index of a function instantiation.
#[derive(Clone, Copy, Debug, PartialEq, Eq, Structural)]
pub struct FunctionInstantiationIndex(pub TableIndex);

/// The index of a struct instantiation.
#[derive(Clone, Copy, Debug, PartialEq, Eq, Structural)]
pub struct StructDefInstantiationIndex(pub TableIndex);

/// The index of a field instantiation.
#[derive(Clone, Copy, Debug, PartialEq, Eq, Structural)]
pub struct FieldInstantiationIndex(pub TableIndex);

/// The index of an enum instantiation.
#[derive(Clone, Copy, Debug, PartialEq, Eq, Structural)]
pub struct EnumDefInstantiationIndex(pub TableIndex);

/// The index of a variant handle.
#[derive(Clone, Copy, Debug, PartialEq, Eq, Structural)]
pub struct VariantHandleIndex(pub TableIndex);

/// The index of a variant instantiation handle.
#[derive(Clone, Copy, Debug, PartialEq, Eq, Structural)]
pub struct VariantInstantiationHandleIndex(pub TableIndex);

/// The index of a variant jump table.
#[derive(Clone, Copy, Debug, PartialEq, Eq, Structural)]
pub struct VariantJumpTableIndex(pub TableIndex);

/// The index of a constant.
#[derive(Clone, Copy, Debug, PartialEq, Eq, Structural)]
pub struct ConstantPoolIndex(pub TableIndex);

/// The index of a type parameter of the enclosing declaration.
pub type TypeParameterIndex = u16;

/// The index of a local variable.
pub type LocalIndex = u8;

/// The position of an instruction in its function.
pub type CodeOffset = u16;

/// The first version in which the types inside a type are instantiated with care too.
pub const VERSION_6: u32 = 6;

/// A type.
#[derive(PartialEq, Eq)]
pub enum SignatureToken {
    Bool,
    U8,
    U64,
    U128,
    Address,
    Signer,
    Vector(Box<SignatureToken>),
    Datatype(DatatypeHandleIndex),
    DatatypeInstantiation(Box<(DatatypeHandleIndex, Vec<SignatureToken>)>),
    Reference(Box<SignatureToken>),
    MutableReference(Box<SignatureToken>),
    TypeParameter(TypeParameterIndex),
    U16,
    U32,
    U256,
}

/// The type of a field.
#[derive(PartialEq, Eq)]
pub struct TypeSignature(pub SignatureToken);

/// A list of types.
#[derive(PartialEq, Eq)]
pub struct Signature(pub Vec<SignatureToken>);

/// A type parameter of a datatype.
#[derive(Clone, Copy, Debug, PartialEq, Eq, Structural)]
pub struct DatatypeTyParameter {
    /// The abilities that a type argument must have.
    pub constraints: AbilitySet,
    /// Whether the parameter is declared phantom.
    pub is_phantom: bool,
}

/// A struct or an enum, of this module or another.
#[derive(Debug, PartialEq, Eq)]
pub struct DatatypeHandle {
    pub type_parameters: Vec<DatatypeTyParameter>,
}

/// A function, of this module or another.
#[derive(Debug, PartialEq, Eq)]
pub struct FunctionHandle {
    pub parameters: SignatureIndex,
    pub return_: SignatureIndex,
    /// The abilities that each type argument must have.
    pub type_parameters: Vec<AbilitySet>,
}

/// A field of a struct of this module.
#[derive(Clone, Copy, Debug, PartialEq, Eq, Structural)]
pub struct FieldHandle {
    pub owner: StructDefinitionIndex,
}

/// A function with type arguments for it.
#[derive(Clone, Copy, Debug, PartialEq, Eq, Structural)]
pub struct FunctionInstantiation {
    pub handle: FunctionHandleIndex,
    pub type_parameters: SignatureIndex,
}

/// A struct of this module with type arguments for it.
#[derive(Clone, Copy, Debug, PartialEq, Eq, Structural)]
pub struct StructDefInstantiation {
    pub def: StructDefinitionIndex,
    pub type_parameters: SignatureIndex,
}

/// An enum of this module with type arguments for it.
#[derive(Clone, Copy, Debug, PartialEq, Eq, Structural)]
pub struct EnumDefInstantiation {
    pub def: EnumDefinitionIndex,
    pub type_parameters: SignatureIndex,
}

/// A field with type arguments for its struct.
#[derive(Clone, Copy, Debug, PartialEq, Eq, Structural)]
pub struct FieldInstantiation {
    pub handle: FieldHandleIndex,
    pub type_parameters: SignatureIndex,
}

/// A variant of an enum that has type arguments.
#[derive(Clone, Copy, Debug, PartialEq, Eq, Structural)]
pub struct VariantInstantiationHandle {
    pub enum_def: EnumDefInstantiationIndex,
}

/// A field of a struct or of a variant.
#[derive(PartialEq, Eq)]
pub struct FieldDefinition {
    pub signature: TypeSignature,
}

/// The fields of a struct, unless it is native.
#[derive(PartialEq, Eq)]
pub enum StructFieldInformation {
    Native,
    Declared(Vec<FieldDefinition>),
}

/// A struct of this module.
#[derive(PartialEq, Eq)]
pub struct StructDefinition {
    pub struct_handle: DatatypeHandleIndex,
    pub field_information: StructFieldInformation,
}

/// A variant of an enum of this module.
#[derive(PartialEq, Eq)]
pub struct VariantDefinition {
    pub fields: Vec<FieldDefinition>,
}

/// An enum of this module.
#[derive(PartialEq, Eq)]
pub struct EnumDefinition {
    pub enum_handle: DatatypeHandleIndex,
    pub variants: Vec<VariantDefinition>,
}

/// The body of a function.
#[derive(Debug, PartialEq, Eq)]
pub struct CodeUnit {
    /// The types of the local variables.
    pub locals: SignatureIndex,
    pub code: Vec<Bytecode>,
}

/// A function of this module; a native one has no code.
#[derive(Debug, PartialEq, Eq)]
pub struct FunctionDefinition {
    pub function: FunctionHandleIndex,
    pub code: Option<CodeUnit>,
}

/// An instruction.
#[derive(Debug, PartialEq, Eq)]
pub enum Bytecode {
    Pop,
    Ret,
    BrTrue(CodeOffset),
    BrFalse(CodeOffset),
    Branch(CodeOffset),
    LdU8(u8),
    LdU16(u16),
    LdU32(u32),
    LdU64(u64),
    LdU128(Box<u128>),
    LdU256(Box<[u8; 32]>),
    CastU8,
    CastU16,
    CastU32,
    CastU64,
    CastU128,
    CastU256,
    LdConst(ConstantPoolIndex),
    LdTrue,
    LdFalse,
    CopyLoc(LocalIndex),
    MoveLoc(LocalIndex),
    StLoc(LocalIndex),
    Call(FunctionHandleIndex),
    CallGeneric(FunctionInstantiationIndex),
    Pack(StructDefinitionIndex),
    PackGeneric(StructDefInstantiationIndex),
    Unpack(StructDefinitionIndex),
    UnpackGeneric(StructDefInstantiationIndex),
    ReadRef,
    WriteRef,
    FreezeRef,
    MutBorrowLoc(LocalIndex),
    ImmBorrowLoc(LocalIndex),
    MutBorrowField(FieldHandleIndex),
    MutBorrowFieldGeneric(FieldInstantiationIndex),
    ImmBorrowField(FieldHandleIndex),
    ImmBorrowFieldGeneric(FieldInstantiationIndex),
    Add,
    Sub,
    Mul,
    Mod,
    Div,
    BitOr,
    BitAnd,
    Xor,
    Or,
    And,
    Not,
    Eq,
    Neq,
    Lt,
    Gt,
    Le,
    Ge,
    Abort,
    Nop,
    Shl,
    Shr,
    VecPack(SignatureIndex, u64),
    VecLen(SignatureIndex),
    VecImmBorrow(SignatureIndex),
    VecMutBorrow(SignatureIndex),
    VecPushBack(SignatureIndex),
    VecPopBack(SignatureIndex),
    VecUnpack(SignatureIndex, u64),
    VecSwap(SignatureIndex),
    PackVariant(VariantHandleIndex),
    PackVariantGeneric(VariantInstantiationHandleIndex),
    UnpackVariant(VariantHandleIndex),
    UnpackVariantImmRef(VariantHandleIndex),
    UnpackVariantMutRef(VariantHandleIndex),
    UnpackVariantGeneric(VariantInstantiationHandleIndex),
    UnpackVariantGenericImmRef(VariantInstantiationHandleIndex),
    UnpackVariantGenericMutRef(VariantInstantiationHandleIndex),
    VariantSwitch(VariantJumpTableIndex),
    ExistsDeprecated(StructDefinitionIndex),
    ExistsGenericDeprecated(StructDefInstantiationIndex),
    MoveFromDeprecated(StructDefinitionIndex),
    MoveFromGenericDeprecated(StructDefInstantiationIndex),
    MoveToDeprecated(StructDefinitionIndex),
    MoveToGenericDeprecated(StructDefInstantiationIndex),
    MutBorrowGlobalDeprecated(StructDefinitionIndex),
    MutBorrowGlobalGenericDeprecated(StructDefInstantiationIndex),
    ImmBorrowGlobalDeprecated(StructDefinitionIndex),
    ImmBorrowGlobalGenericDeprecated(StructDefInstantiationIndex),
}

/// A compiled module.
#[derive(PartialEq, Eq)]
pub struct CompiledModule {
    pub version: u32,
    pub self_id: ModuleId,
    pub datatype_handles: Vec<DatatypeHandle>,
    pub function_handles: Vec<FunctionHandle>,
    pub field_handles: Vec<FieldHandle>,
    pub function_instantiations: Vec<FunctionInstantiation>,
    pub struct_def_instantiations: Vec<StructDefInstantiation>,
    pub field_instantiations: Vec<FieldInstantiation>,
    pub enum_def_instantiations: Vec<EnumDefInstantiation>,
    pub variant_instantiation_handles: Vec<VariantInstantiationHandle>,
    pub signatures: Vec<Signature>,
    pub struct_defs: Vec<StructDefinition>,
    pub enum_defs: Vec<EnumDefinition>,
    pub function_defs: Vec<FunctionDefinition>,
}

impl DatatypeHandle {
    /// The abilities that each type argument must have.
    pub open spec fn constraints(self) -> Seq<AbilitySet> {
        self.type_parameters@.map_values(|param: DatatypeTyParameter| param.constraints)
    }

    /// The abilities that each type argument must have.
    pub fn type_param_constraints(&self) -> (constraints: Vec<AbilitySet>)
        ensures
            constraints@ == self.constraints(),
    {
        let mut constraints: Vec<AbilitySet> = Vec::new();
        let mut i: usize = 0;
        while i < self.type_parameters.len()
            invariant
                i <= self.type_parameters@.len(),
                constraints@ == self.constraints().take(i as int),
            decreases self.type_parameters@.len() - i,
        {
            constraints.push(self.type_parameters[i].constraints);
            i = i + 1;
            assert(constraints@ =~= self.constraints().take(i as int));
        }
        assert(self.constraints().take(i as int) =~= self.constraints());
        constraints
    }
}

/// Whether a reference occurs in the type.
pub open spec fn has_reference(ty: SignatureToken) -> bool
    decreases ty,
{
    match ty {
        SignatureToken::Reference(_) | SignatureToken::MutableReference(_) => true,
        SignatureToken::Vector(inner) => has_reference(*inner),
        SignatureToken::DatatypeInstantiation(inst) => exists|i: int|
            0 <= i < inst.1@.len() && has_reference(#[trigger] inst.1@[i]),
        _ => false,
    }
}

/// The type and the types inside it: each before the types inside it, those from left to right.
pub open spec fn preorder(ty: SignatureToken) -> Seq<SignatureToken>
    decreases ty, 0nat,
{
    match ty {
        SignatureToken::Reference(inner)
        | SignatureToken::MutableReference(inner)
        | SignatureToken::Vector(inner) => seq![ty] + preorder(*inner),
        SignatureToken::DatatypeInstantiation(inst) => seq![ty] + preorder_of_first(
            inst.1@,
            inst.1@.len(),
        ),
        _ => seq![ty],
    }
}

/// The first `n` of the types, each followed by the types inside it.
pub open spec fn preorder_of_first(tys: Seq<SignatureToken>, n: nat) -> Seq<SignatureToken>
    decreases tys, n,
{
    if n == 0 || n > tys.len() {
        Seq::empty()
    } else {
        preorder_of_first(tys, (n - 1) as nat) + preorder(tys[n - 1])
    }
}

/// The type as messages write it.
pub open spec fn type_text(ty: SignatureToken) -> Seq<char>
    decreases ty, 0nat,
{
    match ty {
        SignatureToken::Bool => "Bool"@,
        SignatureToken::U8 => "U8"@,
        SignatureToken::U16 => "U16"@,
        SignatureToken::U32 => "U32"@,
        SignatureToken::U64 => "U64"@,
        SignatureToken::U128 => "U128"@,
        SignatureToken::U256 => "U256"@,
        SignatureToken::Address => "Address"@,
        SignatureToken::Signer => "Signer"@,
        SignatureToken::Vector(inner) => "Vector("@ + type_text(*inner) + ")"@,
        SignatureToken::Reference(inner) => "Reference("@ + type_text(*inner) + ")"@,
        SignatureToken::MutableReference(inner) => "MutableReference("@ + type_text(*inner) + ")"@,
        SignatureToken::TypeParameter(idx) => "TypeParameter("@ + decimal(idx as nat) + ")"@,
        SignatureToken::Datatype(idx) => "Datatype(DatatypeHandleIndex("@ + decimal(idx.0 as nat)
            + "))"@,
        SignatureToken::DatatypeInstantiation(inst) => {
            "DatatypeInstantiation(DatatypeHandleIndex("@ + decimal(inst.0.0 as nat) + "), ["@
                + type_list_text(inst.1@, inst.1@.len()) + "])"@
        },
    }
}

/// The first `n` of the types as messages write them, with commas between them.
pub open spec fn type_list_text(tys: Seq<SignatureToken>, n: nat) -> Seq<char>
    decreases tys, n,
{
    if n == 0 || n > tys.len() {
        Seq::empty()
    } else if n == 1 {
        type_text(tys[0])
    } else {
        type_list_text(tys, (n - 1) as nat) + ", "@ + type_text(tys[n - 1])
    }
}

impl SignatureToken {
    /// The type and the types inside it: each before the types inside it, those from left to
    /// right.
    pub fn preorder_traversal(&self) -> (tys: Vec<&SignatureToken>)
        ensures
            tys@.map_values(|ty: &SignatureToken| *ty) == preorder(*self),
    {
        let mut tys: Vec<&SignatureToken> = Vec::new();
        self.push_preorder(&mut tys);
        assert(tys@.map_values(|ty: &SignatureToken| *ty) =~= preorder(*self));
        tys
    }

    fn push_preorder<'a>(&'a self, out: &mut Vec<&'a SignatureToken>)
        ensures
            final(out)@.map_values(|ty: &SignatureToken| *ty) == old(out)@.map_values(
                |ty: &SignatureToken| *ty,
            ) + preorder(*self),
        decreases self,
    {
        out.push(self);
        match self {
            SignatureToken::Reference(inner)
            | SignatureToken::MutableReference(inner)
            | SignatureToken::Vector(inner) => inner.push_preorder(out),
            SignatureToken::DatatypeInstantiation(inst) => {
                let mut i: usize = 0;
                while i < inst.1.len()
                    invariant
                        i <= inst.1@.len(),
                        *self == SignatureToken::DatatypeInstantiation(*inst),
                        out@.map_values(|ty: &SignatureToken| *ty) == old(out)@.map_values(
                            |ty: &SignatureToken| *ty,
                        ) + (seq![*self] + preorder_of_first(inst.1@, i as nat)),
                    decreases inst.1@.len() - i,
                {
                    assert(decreases_to!(*self => self->DatatypeInstantiation_0.1@[i as int]));
                    inst.1[i].push_preorder(out);
                    i = i + 1;
                }
            },
            _ => {},
        }
    }

    /// Appends the type as messages write it.
    pub fn push_text(&self, out: &mut String)
        ensures
            final(out)@ == old(out)@ + type_text(*self),
        decreases self,
    {
        match self {
            SignatureToken::Bool => out.append("Bool"),
            SignatureToken::U8 => out.append("U8"),
            SignatureToken::U16 => out.append("U16"),
            SignatureToken::U32 => out.append("U32"),
            SignatureToken::U64 => out.append("U64"),
            SignatureToken::U128 => out.append("U128"),
            SignatureToken::U256 => out.append("U256"),
            SignatureToken::Address => out.append("Address"),
            SignatureToken::Signer => out.append("Signer"),
            SignatureToken::Vector(inner) => {
                out.append("Vector(");
                inner.push_text(out);
                out.append(")");
            },
            SignatureToken::Reference(inner) => {
                out.append("Reference(");
                inner.push_text(out);
                out.append(")");
            },
            SignatureToken::MutableReference(inner) => {
                out.append("MutableReference(");
                inner.push_text(out);
                out.append(")");
            },
            SignatureToken::TypeParameter(idx) => {
                out.append("TypeParameter(");
                push_decimal(out, *idx as usize);
                out.append(")");
            },
            SignatureToken::Datatype(idx) => {
                out.append("Datatype(DatatypeHandleIndex(");
                push_decimal(out, idx.0 as usize);
                out.append("))");
            },
            SignatureToken::DatatypeInstantiation(inst) => {
                out.append("DatatypeInstantiation(DatatypeHandleIndex(");
                push_decimal(out, inst.0.0 as usize);
                out.append("), [");
                let ghost before = out@;
                let mut i: usize = 0;
                assert(out@ =~= before + type_list_text(inst.1@, 0));
                while i < inst.1.len()
                    invariant
                        i <= inst.1@.len(),
                        *self == SignatureToken::DatatypeInstantiation(*inst),
                        out@ == before + type_list_text(inst.1@, i as nat),
                    decreases inst.1@.len() - i,
                {
                    if i > 0 {
                        out.append(", ");
                    }
                    assert(decreases_to!(*self => self->DatatypeInstantiation_0.1@[i as int]));
                    inst.1[i].push_text(out);
                    i = i + 1;
                    assert(out@ =~= before + type_list_text(inst.1@, i as nat));
                }
                out.append("])");
            },
        }
        assert(out@ =~= old(out)@ + type_text(*self));
    }
}

} // verus!
