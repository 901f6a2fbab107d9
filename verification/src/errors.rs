//! Structured run errors: what failed, where, and through which nested
//! macro invocations and counted loops the failure surfaced.

use vstd::prelude::*;
use crate::instruction::ArithErr;

verus! {

/// What went wrong at the failing token.
#[derive(Clone, Copy, Debug, PartialEq, Eq, Structural)]
pub enum ErrorKind {
    /// The stack held fewer nodes than the operation needs on its side.
    StackUnderflow,
    /// The token is neither a number, an instruction, nor a known function.
    ParseError,
    /// A definition with an empty name or an empty body.
    DefinitionEmpty,
    /// A definition whose name is already taken.
    DefinitionDuplicate,
    /// A single-token definition whose terminating colon is missing.
    DefinitionUnterminated,
    /// Evaluating a node failed, at duplication or when a loop count was read.
    Arithmetic(ArithErr),
    /// Nested invocations went past the interpreter's depth limit.
    RecursionLimit,
}

/// One step of the context trail: the failure surfaced through this
/// invocation.  Positions are 1-based, in the text that made the call.
#[derive(Clone, Debug, PartialEq)]
pub enum Frame {
    /// A stored function was invoked here and its body failed.
    InFunction { line: usize, token: usize, name: Vec<u8> },
    /// A counted loop was opened here and one of its rounds failed.
    InForLoop { line: usize, token: usize },
}

/// A failed run: the failing position (1-based line and token index in the
/// innermost replayed text), the kind of failure, and the context trail
/// from the innermost enclosing invocation outward.
#[derive(Clone, Debug, PartialEq)]
pub struct RunError {
    pub context: Vec<Frame>,
    pub line: usize,
    pub token: usize,
    pub kind: ErrorKind,
}

/// The mathematical image of a context frame.
pub enum FrameV {
    InFunction { line: int, token: int, name: Seq<u8> },
    InForLoop { line: int, token: int },
}

/// The mathematical image of a run error.
pub struct ErrV {
    pub context: Seq<FrameV>,
    pub line: int,
    pub token: int,
    pub kind: ErrorKind,
}

impl ErrV {
    /// A fresh failure with an empty context trail.
    pub open spec fn leaf(line: int, token: int, kind: ErrorKind) -> ErrV {
        ErrV { context: Seq::empty(), line: line, token: token, kind: kind }
    }

    /// The same failure seen through one more enclosing invocation.
    pub open spec fn wrap(self, f: FrameV) -> ErrV {
        ErrV { context: self.context.push(f), ..self }
    }
}

impl View for Frame {
    type V = FrameV;

    open spec fn view(&self) -> FrameV {
        match self {
            Frame::InFunction { line, token, name } => FrameV::InFunction {
                line: *line as int,
                token: *token as int,
                name: name@,
            },
            Frame::InForLoop { line, token } => FrameV::InForLoop {
                line: *line as int,
                token: *token as int,
            },
        }
    }
}

impl View for RunError {
    type V = ErrV;

    open spec fn view(&self) -> ErrV {
        ErrV {
            context: Seq::new(self.context@.len(), |i: int| self.context@[i]@),
            line: self.line as int,
            token: self.token as int,
            kind: self.kind,
        }
    }
}

impl RunError {
    /// A fresh failure at the given 1-based position.
    pub fn leaf(line: usize, token: usize, kind: ErrorKind) -> (r: RunError)
        ensures
            r@ == ErrV::leaf(line as int, token as int, kind),
    {
        let r = RunError { context: Vec::new(), line, token, kind };
        proof {
            assert(r@.context =~= Seq::<FrameV>::empty());
        }
        r
    }

    /// The same failure with one more enclosing invocation recorded.
    pub fn wrap(self, f: Frame) -> (r: RunError)
        ensures
            r@ == self@.wrap(f@),
    {
        let ghost pre = self@;
        let mut r = self;
        r.context.push(f);
        proof {
            assert(r@.context =~= pre.context.push(f@));
        }
        r
    }
}

} // verus!
