//! Receipts: immutable, content-addressed records of completed instructions.

use vstd::prelude::*;
use crate::workflow::Cid;
use crate::workflow::clone_bytes;

verus! {

/// A plain argument value, as instructions produce and consume them.
#[derive(Debug, PartialEq, Eq)]
pub enum Val {
    /// No value.
    Null,
    /// A boolean.
    Bool(bool),
    /// A signed integer.
    Integer(i64),
    /// A text value.
    Text(String),
    /// A raw byte string.
    Bytes(Vec<u8>),
}

/// The mathematical content of a [`Val`].
pub enum ValModel {
    /// No value.
    Null,
    /// A boolean.
    Bool(bool),
    /// A signed integer.
    Integer(i64),
    /// A text value.
    Text(Seq<char>),
    /// A raw byte string.
    Bytes(Seq<u8>),
}

impl View for Val {
    type V = ValModel;

    open spec fn view(&self) -> ValModel {
        match self {
            Val::Null => ValModel::Null,
            Val::Bool(b) => ValModel::Bool(*b),
            Val::Integer(i) => ValModel::Integer(*i),
            Val::Text(s) => ValModel::Text(s@),
            Val::Bytes(b) => ValModel::Bytes(b@),
        }
    }
}

impl Val {
    /// A copy with the same content.
    pub fn clone_val(&self) -> (r: Val)
        ensures
            r@ == self@,
    {
        match self {
            Val::Null => Val::Null,
            Val::Bool(b) => Val::Bool(*b),
            Val::Integer(i) => Val::Integer(*i),
            Val::Text(s) => Val::Text(s.clone()),
            Val::Bytes(b) => Val::Bytes(clone_bytes(b)),
        }
    }
}

/// The outcome a completed instruction recorded: a success or a failure,
/// each carrying a value.
#[derive(Debug, PartialEq, Eq)]
pub enum InstructionResult {
    /// The instruction succeeded with this value.
    Success(Val),
    /// The instruction failed with this value.
    Failure(Val),
}

/// The mathematical content of an [`InstructionResult`].
pub enum InstructionResultModel {
    /// A success.
    Success(ValModel),
    /// A failure.
    Failure(ValModel),
}

impl View for InstructionResult {
    type V = InstructionResultModel;

    open spec fn view(&self) -> InstructionResultModel {
        match self {
            InstructionResult::Success(v) => InstructionResultModel::Success(v@),
            InstructionResult::Failure(v) => InstructionResultModel::Failure(v@),
        }
    }
}

impl InstructionResult {
    /// A copy with the same content.
    pub fn clone_result(&self) -> (r: InstructionResult)
        ensures
            r@ == self@,
    {
        match self {
            InstructionResult::Success(v) => InstructionResult::Success(v.clone_val()),
            InstructionResult::Failure(v) => InstructionResult::Failure(v.clone_val()),
        }
    }
}

/// The mathematical content of a [`Receipt`].
pub struct ReceiptModel {
    /// The identifier of the completed instruction.
    pub instruction: Seq<u8>,
    /// The recorded outcome.
    pub output: InstructionResultModel,
    /// The recorded metadata.
    pub meta: ValModel,
    /// The proof under which the instruction ran, if any.
    pub prf: Option<Seq<char>>,
}

/// A verifiable record of one completed instruction: the instruction's
/// identifier, its outcome, metadata and the proof it ran under.
#[derive(Debug, PartialEq, Eq)]
pub struct Receipt {
    /// The identifier of the completed instruction.
    pub instruction: Cid,
    /// The recorded outcome.
    pub output: InstructionResult,
    /// The recorded metadata.
    pub meta: Val,
    /// The proof under which the instruction ran, if any.
    pub prf: Option<String>,
}

impl View for Receipt {
    type V = ReceiptModel;

    open spec fn view(&self) -> ReceiptModel {
        ReceiptModel {
            instruction: self.instruction@,
            output: self.output@,
            meta: self.meta@,
            prf: match self.prf {
                Some(s) => Some(s@),
                None => None,
            },
        }
    }
}

impl Receipt {
    /// The identifier of the instruction this receipt records.
    pub fn instruction_cid(&self) -> (r: &Cid)
        ensures
            r@ == self@.instruction,
    {
        &self.instruction
    }

    /// The recorded outcome, rendered as an argument value.
    pub fn output_as_arg(&self) -> (r: InstructionResult)
        ensures
            r@ == self@.output,
    {
        self.output.clone_result()
    }

    /// A copy with the same content.
    pub fn clone_receipt(&self) -> (r: Receipt)
        ensures
            r@ == self@,
    {
        Receipt {
            instruction: self.instruction.clone_cid(),
            output: self.output.clone_result(),
            meta: self.meta.clone_val(),
            prf: match &self.prf {
                Some(s) => Some(s.clone()),
                None => None,
            },
        }
    }
}

} // verus!
