//! Errors of the signature checker and the places they point to.

use vstd::prelude::*;

verus! {

/// An index into one of a module's tables.
pub type TableIndex = u16;

/// Why a module is refused.
#[allow(non_camel_case_types)]
#[derive(Clone, Copy, Debug, PartialEq, Eq, Structural)]
pub enum StatusCode {
    /// A reference stands where a type may hold none.
    INVALID_SIGNATURE_TOKEN,
    /// A type argument lacks an ability that its type parameter asks for.
    CONSTRAINT_NOT_SATISFIED,
    /// A generic is given more or fewer type arguments than it declares.
    NUMBER_OF_TYPE_ARGUMENTS_MISMATCH,
    /// A phantom type parameter is used in a position that is not phantom.
    INVALID_PHANTOM_TYPE_PARAM_POSITION,
    /// A status that an ability cache reports, by its number.
    OTHER(u64),
}

/// The kind of thing that an index in an error counts.
#[derive(Clone, Copy, Debug, PartialEq, Eq, Structural)]
pub enum IndexKind {
    Signature,
    FunctionHandle,
    FunctionDefinition,
    StructDefinition,
    EnumDefinition,
    VariantTag,
    FieldDefinition,
}

/// The identity of a module: the address it is published at and its name.
#[derive(Debug, PartialEq, Eq)]
pub struct ModuleId {
    pub address: [u8; 32],
    pub name: String,
}

impl Clone for ModuleId {
    fn clone(&self) -> (copy: Self)
        ensures
            copy == *self,
    {
        ModuleId { address: self.address, name: self.name.clone() }
    }
}

/// Where an error was found.
#[derive(Debug, PartialEq, Eq)]
pub enum Location {
    Module(ModuleId),
}

/// An error that does not yet say which module it was found in.
#[derive(Debug, PartialEq, Eq)]
pub struct PartialVMError {
    pub major_status: StatusCode,
    pub message: Option<String>,
    /// The places the error points to, the innermost first.
    pub indices: Vec<(IndexKind, TableIndex)>,
}

/// An error together with where it was found.
#[derive(Debug, PartialEq, Eq)]
pub struct VMError {
    pub error: PartialVMError,
    pub location: Location,
}

pub type PartialVMResult<T> = Result<T, PartialVMError>;

pub type VMResult<T> = Result<T, VMError>;

/// What an error holds.
#[verifier::ext_equal]
pub struct ErrorModel {
    pub major_status: StatusCode,
    pub message: Option<Seq<char>>,
    pub indices: Seq<(IndexKind, TableIndex)>,
}

/// The error with nothing but a status.
pub open spec fn bare_error(major_status: StatusCode) -> ErrorModel {
    ErrorModel { major_status, message: None, indices: Seq::empty() }
}

/// The error with a status and a message.
pub open spec fn error_saying(major_status: StatusCode, message: Seq<char>) -> ErrorModel {
    ErrorModel { major_status, message: Some(message), indices: Seq::empty() }
}

impl ErrorModel {
    /// The error, pointing to one more place.
    pub open spec fn at(self, kind: IndexKind, index: TableIndex) -> ErrorModel {
        ErrorModel { indices: self.indices.push((kind, index)), ..self }
    }

    /// The error with `more` behind its message, `separator` between the two where there was
    /// something to separate.
    pub open spec fn saying_also(self, separator: Seq<char>, more: Seq<char>) -> ErrorModel {
        let message = match self.message {
            Some(text) => if text.len() == 0 {
                more
            } else {
                text + separator + more
            },
            None => more,
        };
        ErrorModel { message: Some(message), ..self }
    }
}

impl View for PartialVMError {
    type V = ErrorModel;

    open spec fn view(&self) -> ErrorModel {
        ErrorModel {
            major_status: self.major_status,
            message: match self.message {
                Some(text) => Some(text@),
                None => None,
            },
            indices: self.indices@,
        }
    }
}

/// A result with its error seen as a model.
pub open spec fn result_model<T>(result: PartialVMResult<T>) -> Result<T, ErrorModel> {
    match result {
        Ok(value) => Ok(value),
        Err(err) => Err(err@),
    }
}

/// A result with its error seen as a model, without where it was found.
pub open spec fn outcome_of(result: VMResult<()>) -> Result<(), ErrorModel> {
    match result {
        Ok(()) => Ok(()),
        Err(err) => Err(err.error@),
    }
}

impl PartialVMError {
    /// An error with nothing but a status.
    pub fn new(major_status: StatusCode) -> (err: Self)
        ensures
            err@ == bare_error(major_status),
    {
        PartialVMError { major_status, message: None, indices: Vec::new() }
    }

    /// The error with this message in place of any it had.
    pub fn with_message(self, message: String) -> (err: Self)
        ensures
            err@ == (ErrorModel { message: Some(message@), ..self@ }),
    {
        PartialVMError {
            major_status: self.major_status,
            message: Some(message),
            indices: self.indices,
        }
    }

    /// The error, pointing to one more place.
    pub fn at_index(self, kind: IndexKind, index: TableIndex) -> (err: Self)
        ensures
            err@ == self@.at(kind, index),
    {
        let mut indices = self.indices;
        indices.push((kind, index));
        PartialVMError { major_status: self.major_status, message: self.message, indices }
    }

    /// The error with more text behind its message, and the separator between the two unless
    /// there was no text before.
    pub fn append_message_with_separator(self, separator: &str, additional_message: &str) -> (err:
        Self)
        ensures
            err@ == self@.saying_also(separator@, additional_message@),
    {
        let message = match self.message {
            Some(text) => {
                let mut text = text;
                if !text.as_str().is_empty() {
                    text.append(separator);
                }
                text.append(additional_message);
                text
            },
            None => additional_message.to_owned(),
        };
        assert(match self.message {
            Some(text) => message@ =~= self@.saying_also(
                separator@,
                additional_message@,
            ).message->Some_0,
            None => true,
        });
        PartialVMError {
            major_status: self.major_status,
            message: Some(message),
            indices: self.indices,
        }
    }

    /// The error, found at `location`.
    pub fn finish(self, location: Location) -> (err: VMError)
        ensures
            err.error@ == self@,
            err.location == location,
    {
        VMError { error: self, location }
    }
}

} // verus!
