//! The state of the interpreter that a debugger can observe: the call stack
//! with each frame's program and locals, and the memory behind the values.

use crate::render::memory::Memory;
use crate::render::value::OpTy;
use vstd::prelude::*;

verus! {

/// One statement of a basic block.
pub struct Statement {
    /// Whether single-stepping passes over the statement without stopping.
    /// Which statements are hidden is the choice of whoever takes the
    /// snapshot.
    pub hidden: bool,
}

/// How a basic block ends.
pub enum Terminator {
    Return,
    Other,
}

/// A straight run of statements and the terminator that ends it.
pub struct BasicBlock {
    pub statements: Vec<Statement>,
    pub terminator: Terminator,
}

/// The state of one local of a frame.
pub enum LocalValue {
    Dead,
    /// The local holds a value. The value is there where the interpreter
    /// could read the local, and absent where it could not or was not asked.
    Live(Option<OpTy>),
}

/// A local as the function declares it, with its state in the frame.
pub struct LocalDecl {
    /// The name in source; compiler temporaries have none.
    pub name: Option<String>,
    /// The declared type, with the function's generics filled in.
    pub ty: String,
    pub value: LocalValue,
}

/// One activation of a function.
pub struct Frame {
    /// The identity of the function.
    pub function: u64,
    pub blocks: Vec<BasicBlock>,
    /// The index of the current block.
    pub block: usize,
    /// The index of the next statement in the current block; the number of
    /// statements when the terminator is next.
    pub stmt: usize,
    /// The locals in declaration order: the return slot, the arguments, the
    /// user variables, the temporaries.
    pub locals: Vec<LocalDecl>,
    /// The value of the return slot, where the frame has one.
    pub return_place: Option<OpTy>,
    pub arg_count: usize,
    pub var_count: usize,
    pub tmp_count: usize,
}

/// The interpreter at rest between two steps.
pub struct Machine {
    /// The call stack, the executing frame last.
    pub stack: Vec<Frame>,
    pub memory: Memory,
}

impl Frame {
    /// The current location lies within the function's program.
    pub open spec fn wf(&self) -> bool {
        &&& self.block < self.blocks.len()
        &&& self.stmt <= self.blocks[self.block as int].statements.len()
    }
}

impl Machine {
    /// The executing frame. Arbitrary where the stack is empty.
    pub open spec fn top(&self) -> Frame {
        self.stack[self.stack.len() - 1]
    }

    /// The executing frame, when there is one, is at a location of its
    /// program.
    pub open spec fn wf(&self) -> bool {
        self.stack.len() > 0 ==> self.top().wf()
    }
}

} // verus!
