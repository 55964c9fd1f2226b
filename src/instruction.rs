//! Instructions whose register operands are checked against the register
//! tables that their mnemonic admits.
use vstd::prelude::*;

use crate::registers::{lemma_table_code_in_table, lookup, table_code, table_has_code, RegisterTable};
use crate::text::chars_of;
use crate::value::{parse_number, read_number};

verus! {

/// Width in bits of the opcode field of an instruction word.
pub const OPCODE_WIDTH: u8 = 10;

/// Why an operand could not be stored in an instruction.
#[derive(Clone, Debug, PartialEq, Eq)]
pub enum InstructionError {
    /// `name` is not in the register table of that operand of `mnemonic`.
    InvalidRegister { mnemonic: String, name: String },
    /// The immediate is not a numeric literal.
    MalformedNumber,
    /// The immediate does not fit the 32-bit immediate field.
    ImmediateOutOfRange,
}

/// An instruction whose operand fields are filled in by checked setters.
pub struct Instruction {
    inst_type: String,
    inst_name: String,
    op_code: u16,
    op_code_width: u8,
    source_register: Option<u8>,
    target_register: Option<u8>,
    immediate: Option<u32>,
    source_table: RegisterTable,
    target_table: RegisterTable,
}

/// The content of an [`Instruction`].
pub struct InstructionView {
    pub class: Seq<char>,
    pub mnemonic: Seq<char>,
    pub op_code: u16,
    pub op_code_width: u8,
    pub source: Option<u8>,
    pub target: Option<u8>,
    pub immediate: Option<u32>,
    pub source_table: RegisterTable,
    pub target_table: RegisterTable,
}

impl View for Instruction {
    type V = InstructionView;

    closed spec fn view(&self) -> InstructionView {
        InstructionView {
            class: self.inst_type@,
            mnemonic: self.inst_name@,
            op_code: self.op_code,
            op_code_width: self.op_code_width,
            source: self.source_register,
            target: self.target_register,
            immediate: self.immediate,
            source_table: self.source_table,
            target_table: self.target_table,
        }
    }
}

/// The immediate that the text `s` gives: a numeric literal that fits 32 bits.
pub open spec fn immediate_of(s: Seq<char>) -> Result<u32, InstructionError> {
    match parse_number(s) {
        Some(n) => if n <= u32::MAX {
            Ok(n as u32)
        } else {
            Err(InstructionError::ImmediateOutOfRange)
        },
        None => Err(InstructionError::MalformedNumber),
    }
}

impl Instruction {
    /// Every stored register code came from the table of its operand, and the
    /// opcode field has the fixed width.
    pub open spec fn wf(&self) -> bool {
        &&& self@.op_code_width == OPCODE_WIDTH
        &&& self@.source matches Some(c) ==> table_has_code(self@.source_table, c)
        &&& self@.target matches Some(c) ==> table_has_code(self@.target_table, c)
    }

    /// A new instruction of class `inst_type` with no operand set yet.
    pub fn new(
        inst_type: String,
        inst_name: String,
        op_code: u16,
        source_table: RegisterTable,
        target_table: RegisterTable,
    ) -> (r: Instruction)
        ensures
            r.wf(),
            r@ == (InstructionView {
                class: inst_type@,
                mnemonic: inst_name@,
                op_code,
                op_code_width: OPCODE_WIDTH,
                source: None,
                target: None,
                immediate: None,
                source_table,
                target_table,
            }),
    {
        Instruction {
            inst_type,
            inst_name,
            op_code,
            op_code_width: OPCODE_WIDTH,
            source_register: None,
            target_register: None,
            immediate: None,
            source_table,
            target_table,
        }
    }

    /// Stores the code of register `name` as the source operand, if the
    /// source table holds it; otherwise leaves the instruction as it was.
    pub fn set_source_register(&mut self, name: String) -> (r: Result<(), InstructionError>)
        requires
            old(self).wf(),
        ensures
            final(self).wf(),
            table_code(old(self)@.source_table, name@) matches Some(c) ==> r is Ok && final(self)@
                == (InstructionView { source: Some(c), ..old(self)@ }),
            table_code(old(self)@.source_table, name@) is None ==> final(self)@ == old(self)@
                && (r matches Err(e) && is_invalid_register(e, old(self)@.mnemonic, name@)),
    {
        match lookup(self.source_table, name.as_str()) {
            Some(c) => {
                proof {
                    lemma_table_code_in_table(self.source_table, name@);
                }
                self.source_register = Some(c);
                Ok(())
            },
            None => Err(InstructionError::InvalidRegister { mnemonic: self.inst_name.clone(), name }),
        }
    }

    /// Stores the code of register `name` as the target operand, if the
    /// target table holds it; otherwise leaves the instruction as it was.
    pub fn set_target_register(&mut self, name: String) -> (r: Result<(), InstructionError>)
        requires
            old(self).wf(),
        ensures
            final(self).wf(),
            table_code(old(self)@.target_table, name@) matches Some(c) ==> r is Ok && final(self)@
                == (InstructionView { target: Some(c), ..old(self)@ }),
            table_code(old(self)@.target_table, name@) is None ==> final(self)@ == old(self)@
                && (r matches Err(e) && is_invalid_register(e, old(self)@.mnemonic, name@)),
    {
        match lookup(self.target_table, name.as_str()) {
            Some(c) => {
                proof {
                    lemma_table_code_in_table(self.target_table, name@);
                }
                self.target_register = Some(c);
                Ok(())
            },
            None => Err(InstructionError::InvalidRegister { mnemonic: self.inst_name.clone(), name }),
        }
    }

    /// Stores the immediate written as `text`, a numeric literal with an
    /// optional radix suffix that must fit 32 bits; on failure leaves the
    /// instruction as it was.
    pub fn set_immediate(&mut self, text: String) -> (r: Result<(), InstructionError>)
        requires
            old(self).wf(),
        ensures
            final(self).wf(),
            immediate_of(text@) matches Ok(v) ==> r is Ok && final(self)@ == (InstructionView {
                immediate: Some(v),
                ..old(self)@
            }),
            immediate_of(text@) matches Err(e) ==> r == Err::<(), InstructionError>(e)
                && final(self)@ == old(self)@,
    {
        match read_number(&chars_of(text.as_str())) {
            Some(n) => if n <= u32::MAX as usize {
                self.immediate = Some(n as u32);
                Ok(())
            } else {
                Err(InstructionError::ImmediateOutOfRange)
            },
            None => Err(InstructionError::MalformedNumber),
        }
    }

    pub fn mnemonic(&self) -> (r: &String)
        ensures
            r@ == self@.mnemonic,
    {
        &self.inst_name
    }

    pub fn class(&self) -> (r: &String)
        ensures
            r@ == self@.class,
    {
        &self.inst_type
    }

    pub fn op_code(&self) -> (r: u16)
        ensures
            r == self@.op_code,
    {
        self.op_code
    }

    pub fn op_code_width(&self) -> (r: u8)
        ensures
            r == self@.op_code_width,
    {
        self.op_code_width
    }

    pub fn source_register(&self) -> (r: Option<u8>)
        ensures
            r == self@.source,
    {
        self.source_register
    }

    pub fn target_register(&self) -> (r: Option<u8>)
        ensures
            r == self@.target,
    {
        self.target_register
    }

    pub fn immediate(&self) -> (r: Option<u32>)
        ensures
            r == self@.immediate,
    {
        self.immediate
    }
}

/// `e` reports that register `name` is not valid for the operand of `mnemonic`.
pub open spec fn is_invalid_register(e: InstructionError, mnemonic: Seq<char>, name: Seq<char>) -> bool {
    e matches InstructionError::InvalidRegister { mnemonic: m, name: n } && m@ == mnemonic && n@
        == name
}

/// A memory-class instruction: both operands may name any register.
pub struct Load {
    pub instruction: Instruction,
    pub first_source: Option<String>,
    pub second_source: Option<String>,
}

impl Load {
    pub fn new(inst_name: String, op_code: u16) -> (r: Load)
        ensures
            r.instruction.wf(),
            r.instruction@.class == "memory"@,
            r.instruction@.mnemonic == inst_name@,
            r.instruction@.op_code == op_code,
            r.instruction@.source_table == RegisterTable::All,
            r.instruction@.target_table == RegisterTable::All,
            r.instruction@.source is None,
            r.instruction@.target is None,
            r.instruction@.immediate is None,
            r.first_source is None,
            r.second_source is None,
    {
        Load {
            instruction: Instruction::new(
                "memory".to_owned(),
                inst_name,
                op_code,
                RegisterTable::All,
                RegisterTable::All,
            ),
            first_source: None,
            second_source: None,
        }
    }
}

} // verus!
