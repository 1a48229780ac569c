//! The constant pool in the form the engine reads it.

use crate::engine::opcode_handler::ExecutionError;
use crate::engine::stack::StackFrame;
use crate::loader::parser::{EntryModel, Table, TableEntry};
use vstd::prelude::*;

verus! {

/// Index of an entry in the constant table.
pub type ConstantTableIndex = u32;

/// A constant of the pool. Floating-point constants are held as their
/// IEEE-754 bit patterns; a string is held with the reference that stands for
/// it on the operand stack.
#[derive(Debug, Clone, Copy)]
pub enum Constant<'a> {
    /// A 32-bit pattern; widened with zeros when pushed.
    Unsigned32(u32),
    /// A 64-bit pattern.
    Unsigned64(u64),
    /// The bits of a single-precision number; widened with zeros when pushed.
    Float32(u32),
    /// The bits of a double-precision number.
    Float64(u64),
    /// The bytes of a string, and the reference that is pushed for it.
    String(&'a [u8], u64),
}

/// A constant with its string as a sequence of bytes.
pub enum ConstantModel {
    Unsigned32(u32),
    Unsigned64(u64),
    Float32(u32),
    Float64(u64),
    String(Seq<u8>, u64),
}

impl<'a> View for Constant<'a> {
    type V = ConstantModel;

    open spec fn view(&self) -> ConstantModel {
        match self {
            Constant::Unsigned32(value) => ConstantModel::Unsigned32(*value),
            Constant::Unsigned64(value) => ConstantModel::Unsigned64(*value),
            Constant::Float32(bits) => ConstantModel::Float32(*bits),
            Constant::Float64(bits) => ConstantModel::Float64(*bits),
            Constant::String(text, reference) => ConstantModel::String(text@, *reference),
        }
    }
}

impl ConstantModel {
    /// The word that is pushed for this constant: 32-bit patterns widened with
    /// zeros, 64-bit patterns as they are, a string's reference.
    pub open spec fn word(self) -> u64 {
        match self {
            ConstantModel::Unsigned32(value) => value as u64,
            ConstantModel::Unsigned64(value) => value,
            ConstantModel::Float32(bits) => bits as u64,
            ConstantModel::Float64(bits) => bits,
            ConstantModel::String(_, reference) => reference,
        }
    }

    /// This constant holds what `entry` holds; for a string, the same bytes
    /// under a reference that is not zero.
    pub open spec fn matches(self, entry: EntryModel) -> bool {
        match entry {
            EntryModel::Integer(value) => self == ConstantModel::Unsigned32(value),
            EntryModel::Long(value) => self == ConstantModel::Unsigned64(value),
            EntryModel::Float(bits) => self == ConstantModel::Float32(bits),
            EntryModel::Double(bits) => self == ConstantModel::Float64(bits),
            EntryModel::String(text) => self is String && self->String_0 == text
                && self->String_1 != 0,
        }
    }
}

/// The word of a constant holds the constant's bits: a 32-bit pattern in the
/// low half under a high half of zeros, a 64-bit pattern as it is.
pub proof fn lemma_word_keeps_bits(constant: ConstantModel)
    ensures
        match constant {
            ConstantModel::Unsigned32(value) => constant.word() & 0xFFFF_FFFF == value
                && constant.word() >> 32 == 0,
            ConstantModel::Unsigned64(value) => constant.word() == value,
            ConstantModel::Float32(bits) => constant.word() & 0xFFFF_FFFF == bits
                && constant.word() >> 32 == 0,
            ConstantModel::Float64(bits) => constant.word() == bits,
            ConstantModel::String(_, reference) => constant.word() == reference,
        },
{
    match constant {
        ConstantModel::Unsigned32(value) => {
            assert((value as u64) & 0xFFFF_FFFF == value && (value as u64) >> 32 == 0)
                by (bit_vector);
        },
        ConstantModel::Float32(bits) => {
            assert((bits as u64) & 0xFFFF_FFFF == bits && (bits as u64) >> 32 == 0)
                by (bit_vector);
        },
        _ => {},
    }
}

/// The address at which the bytes of `text` lie, as a stack word.
///
/// Calls `<[u8]>::as_ptr`. The address is whatever the allocator chose, so
/// nothing but this is claimed of it: a reference is never null, hence the
/// word is not zero.
#[verifier::external_body]
fn address_of(text: &[u8]) -> (reference: u64)
    ensures
        reference != 0,
{
    text.as_ptr() as usize as u64
}

impl<'a> Constant<'a> {
    /// The constant for a decoded table entry.
    pub fn from_parsed_entry(entry: &'a TableEntry) -> (constant: Self)
        ensures
            constant@.matches(entry@),
    {
        match entry {
            TableEntry::Integer(value) => Constant::Unsigned32(*value),
            TableEntry::Long(value) => Constant::Unsigned64(*value),
            TableEntry::Float(bits) => Constant::Float32(*bits),
            TableEntry::Double(bits) => Constant::Float64(*bits),
            TableEntry::String(text) => {
                let bytes = text.as_slice();
                Constant::String(bytes, address_of(bytes))
            },
        }
    }

    /// The word that is pushed for this constant.
    pub fn word(&self) -> (word: u64)
        ensures
            word == self@.word(),
    {
        match self {
            Constant::Unsigned32(value) => *value as u64,
            Constant::Unsigned64(value) => *value,
            Constant::Float32(bits) => *bits as u64,
            Constant::Float64(bits) => *bits,
            Constant::String(_, reference) => *reference,
        }
    }
}

/// The constant pool of a loaded image.
#[derive(Debug)]
pub struct ConstantTable<'a> {
    entries: Vec<Constant<'a>>,
}

impl<'a> View for ConstantTable<'a> {
    type V = Seq<ConstantModel>;

    closed spec fn view(&self) -> Seq<ConstantModel> {
        Seq::new(self.entries@.len(), |i: int| self.entries@[i]@)
    }
}

/// What pushing the constant at `index` does to a frame with the given live
/// operands and operand capacity: the word to push, or the error.
pub open spec fn constant_word(
    constants: Seq<ConstantModel>,
    index: u32,
    operands: nat,
    capacity: nat,
) -> Result<u64, ExecutionError> {
    if index >= constants.len() {
        Err(ExecutionError::IndexOutOfBounds)
    } else if operands >= capacity {
        Err(ExecutionError::StackOverflow)
    } else {
        Ok(constants[index as int].word())
    }
}

impl<'a> ConstantTable<'a> {
    /// The pool for a decoded table: one constant per entry, in order.
    pub fn from_parsed_table(table: &'a Table) -> (constants: Self)
        ensures
            constants@.len() == table@.len(),
            forall|i: int| 0 <= i < table@.len() ==> (#[trigger] constants@[i]).matches(table@[i]),
    {
        let mut entries: Vec<Constant<'a>> = Vec::new();
        let mut at: usize = 0;
        while at < table.len()
            invariant
                at <= table@.len(),
                entries@.len() == at,
                forall|i: int| 0 <= i < at ==> (#[trigger] entries@[i])@.matches(table@[i]),
            decreases table@.len() - at,
        {
            match table.get(at) {
                Some(entry) => {
                    entries.push(Constant::from_parsed_entry(entry));
                },
                None => {},
            }
            at += 1;
        }
        ConstantTable { entries }
    }

    /// A pool of the given constants.
    pub fn from_constants(entries: Vec<Constant<'a>>) -> (constants: Self)
        ensures
            constants@ == Seq::new(entries@.len(), |i: int| entries@[i]@),
    {
        ConstantTable { entries }
    }

    /// The constant at `index`, if the pool has one.
    pub fn get_entry(&self, index: ConstantTableIndex) -> (entry: Option<&Constant<'a>>)
        ensures
            entry is Some <==> index < self@.len(),
            entry is Some ==> entry.unwrap()@ == self@[index as int],
    {
        if (index as usize) < self.entries.len() {
            Some(&self.entries[index as usize])
        } else {
            None
        }
    }

    /// Pushes the constant at `index` onto the operand stack of `stack`.
    /// Without such a constant the frame is left alone and the error is
    /// `IndexOutOfBounds`; on a full operand stack it is `StackOverflow`.
    pub fn push_entry(&self, stack: &mut StackFrame, index: ConstantTableIndex) -> (outcome: Result<
        (),
        ExecutionError,
    >)
        requires
            old(stack).wf(),
        ensures
            final(stack).steps_from(old(stack)),
            *final(final(stack).origin) == *final(old(stack).origin),
            final(stack).locals() == old(stack).locals(),
            match constant_word(
                self@,
                index,
                old(stack).operands().len(),
                old(stack).size() as nat,
            ) {
                Ok(word) => outcome is Ok && final(stack).operands() == old(stack).operands().push(
                    word,
                ) && final(stack).storage() == old(stack).storage().update(
                    old(stack).stack_base() + old(stack).stack_pointer(),
                    word,
                ),
                Err(error) => outcome == Err::<(), ExecutionError>(error) && final(stack).operands()
                    == old(stack).operands() && final(stack).storage() == old(stack).storage(),
            },
    {
        match self.get_entry(index) {
            None => Err(ExecutionError::IndexOutOfBounds),
            Some(constant) => {
                let word = constant.word();
                if stack.push(word) {
                    Ok(())
                } else {
                    Err(ExecutionError::StackOverflow)
                }
            },
        }
    }
}

} // verus!
