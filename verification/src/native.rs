//! A native module: functions made of blocks of instructions, with every
//! local variable in a stack slot.
use vstd::prelude::*;
use crate::ast::{Located, Type};

verus! {

/// The types of native values.
#[derive(Debug, Clone, Copy, PartialEq, Eq, Structural)]
pub enum NativeType {
    /// No value.
    Void,
    /// An integer of one bit.
    Bit,
    /// A floating-point number of 64 bits.
    Number,
    /// A pointer to an opaque qubit.
    Qubit,
}

impl NativeType {
    /// The native type of a value of a type of the language.
    pub open spec fn spec_of(type_sig: Type) -> NativeType {
        match type_sig {
            Type::Bit => NativeType::Bit,
            Type::Number => NativeType::Number,
            Type::Qubit => NativeType::Qubit,
        }
    }

    /// The native type of a value of a type of the language.
    #[verifier::when_used_as_spec(spec_of)]
    pub fn of(type_sig: Type) -> (native: NativeType)
        ensures
            native == Self::spec_of(type_sig),
    {
        match type_sig {
            Type::Bit => NativeType::Bit,
            Type::Number => NativeType::Number,
            Type::Qubit => NativeType::Qubit,
        }
    }

    /// The native type of what a function returns: nothing, where it
    /// declares no return type.
    pub open spec fn spec_of_return(return_type: Option<Located<Type>>) -> NativeType {
        match return_type {
            None => NativeType::Void,
            Some(type_sig) => Self::spec_of(type_sig.value),
        }
    }

    /// The native type of what a function returns: nothing, where it
    /// declares no return type.
    pub fn of_return(return_type: &Option<Located<Type>>) -> (native: NativeType)
        ensures
            native == Self::spec_of_return(*return_type),
    {
        match return_type {
            None => NativeType::Void,
            Some(type_sig) => NativeType::of(type_sig.value),
        }
    }

    /// The name of the type, as errors print it.
    pub open spec fn spec_name(self) -> Seq<char> {
        match self {
            NativeType::Void => "Void"@,
            NativeType::Bit => "Bit"@,
            NativeType::Number => "Number"@,
            NativeType::Qubit => "Qubit"@,
        }
    }

    /// The name of the type, as errors print it.
    pub fn name(self) -> (name: &'static str)
        ensures
            name@ == self.spec_name(),
    {
        match self {
            NativeType::Void => "Void",
            NativeType::Bit => "Bit",
            NativeType::Number => "Number",
            NativeType::Qubit => "Qubit",
        }
    }
}

/// A named, typed place: a parameter of a function, or a stack slot.
#[derive(Debug, PartialEq, Eq)]
pub struct Slot {
    pub name: String,
    pub ty: NativeType,
}

/// The view of a slot.
pub struct SlotView {
    pub name: Seq<char>,
    pub ty: NativeType,
}

impl View for Slot {
    type V = SlotView;

    open spec fn view(&self) -> SlotView {
        SlotView { name: self.name@, ty: self.ty }
    }
}

/// The value of an instruction, named by the place of the instruction: its
/// block, and its index in the block.
#[derive(Debug, Clone, Copy, PartialEq, Eq, Structural)]
pub struct ValueRef {
    pub block: usize,
    pub index: usize,
}

/// A value together with its type.
#[derive(Debug, Clone, Copy, PartialEq, Eq, Structural)]
pub struct Operand {
    pub value: ValueRef,
    pub ty: NativeType,
}

/// An instruction. The value of an instruction that has one is named by
/// the place of the instruction.
#[derive(Debug, PartialEq, Eq)]
pub enum Instruction {
    /// The constant bit.
    ConstBit(bool),
    /// The constant number with this IEEE 754 bit pattern.
    ConstNumber(u64),
    /// The pointer that stands for the qubit of this index.
    ConstQubit(usize),
    /// The value in a stack slot of the function.
    Load { slot: usize },
    /// Puts a value into a stack slot.
    Store { slot: usize, value: ValueRef },
    /// Puts the parameter of this index into a stack slot.
    StoreParameter { slot: usize, parameter: usize },
    /// Calls a function of the module by name.
    Call { callee: String, arguments: Vec<ValueRef> },
    /// Returns a value from the function.
    Return { value: ValueRef },
    /// Goes on in one of two blocks, as a bit decides.
    ConditionalBranch { condition: ValueRef, then_block: usize, else_block: usize },
    /// Goes on in a block.
    Branch { target: usize },
}

/// The view of an instruction.
pub enum InstructionView {
    ConstBit(bool),
    ConstNumber(u64),
    ConstQubit(usize),
    Load { slot: usize },
    Store { slot: usize, value: ValueRef },
    StoreParameter { slot: usize, parameter: usize },
    Call { callee: Seq<char>, arguments: Seq<ValueRef> },
    Return { value: ValueRef },
    ConditionalBranch { condition: ValueRef, then_block: usize, else_block: usize },
    Branch { target: usize },
}

impl View for Instruction {
    type V = InstructionView;

    open spec fn view(&self) -> InstructionView {
        match self {
            Instruction::ConstBit(bit) => InstructionView::ConstBit(*bit),
            Instruction::ConstNumber(bits) => InstructionView::ConstNumber(*bits),
            Instruction::ConstQubit(index) => InstructionView::ConstQubit(*index),
            Instruction::Load { slot } => InstructionView::Load { slot: *slot },
            Instruction::Store { slot, value } => InstructionView::Store {
                slot: *slot,
                value: *value,
            },
            Instruction::StoreParameter { slot, parameter } => InstructionView::StoreParameter {
                slot: *slot,
                parameter: *parameter,
            },
            Instruction::Call { callee, arguments } => InstructionView::Call {
                callee: callee@,
                arguments: arguments@,
            },
            Instruction::Return { value } => InstructionView::Return { value: *value },
            Instruction::ConditionalBranch { condition, then_block, else_block } => {
                InstructionView::ConditionalBranch {
                    condition: *condition,
                    then_block: *then_block,
                    else_block: *else_block,
                }
            },
            Instruction::Branch { target } => InstructionView::Branch { target: *target },
        }
    }
}

/// What a block is for.
#[derive(Debug, Clone, Copy, PartialEq, Eq, Structural)]
pub enum Label {
    Entry,
    Then,
    Else,
    IfCont,
    LoopCond,
    LoopBody,
    LoopExit,
}

/// A block: instructions that run in order.
#[derive(Debug, PartialEq, Eq)]
pub struct Block {
    pub label: Label,
    pub instructions: Vec<Instruction>,
}

/// The view of a block.
pub struct BlockView {
    pub label: Label,
    pub instructions: Seq<InstructionView>,
}

impl View for Block {
    type V = BlockView;

    open spec fn view(&self) -> BlockView {
        BlockView {
            label: self.label,
            instructions: Seq::new(
                self.instructions.len() as nat,
                |i: int| self.instructions[i]@,
            ),
        }
    }
}

/// A function of the native module. A function that is only declared has no
/// blocks.
#[derive(Debug, PartialEq, Eq)]
pub struct NativeFunction {
    pub name: String,
    pub parameters: Vec<Slot>,
    pub return_type: NativeType,
    pub slots: Vec<Slot>,
    pub blocks: Vec<Block>,
}

/// The view of a function.
pub struct FunctionView {
    pub name: Seq<char>,
    pub parameters: Seq<SlotView>,
    pub return_type: NativeType,
    pub slots: Seq<SlotView>,
    pub blocks: Seq<BlockView>,
}

/// The views of the slots, one for one.
pub open spec fn slots_view(slots: Seq<Slot>) -> Seq<SlotView> {
    Seq::new(slots.len(), |i: int| slots[i]@)
}

/// The views of the blocks, one for one.
pub open spec fn blocks_view(blocks: Seq<Block>) -> Seq<BlockView> {
    Seq::new(blocks.len(), |i: int| blocks[i]@)
}

impl View for NativeFunction {
    type V = FunctionView;

    open spec fn view(&self) -> FunctionView {
        FunctionView {
            name: self.name@,
            parameters: slots_view(self.parameters@),
            return_type: self.return_type,
            slots: slots_view(self.slots@),
            blocks: blocks_view(self.blocks@),
        }
    }
}

/// A native module: its functions, in the order of the elements of the
/// program.
#[derive(Debug, PartialEq, Eq)]
pub struct NativeModule {
    pub functions: Vec<NativeFunction>,
}

impl View for NativeModule {
    type V = Seq<FunctionView>;

    open spec fn view(&self) -> Seq<FunctionView> {
        Seq::new(self.functions.len() as nat, |i: int| self.functions[i]@)
    }
}

} // verus!
