//! The mathematical semantics of the language: what one token does to the
//! stack, and what a whole text does to the interpreter state.
//!
//! Nested invocations (stored functions, counted loops) re-run the text
//! driver on stored body text.  Such recursion has no bound of its own in
//! the language, so the driver carries an explicit remaining-depth budget;
//! exhausting it is reported as a distinct failure.

use vstd::prelude::*;
use crate::errors::{ErrV, ErrorKind, FrameV};
use crate::instruction::{eval, EsianolopInstruction};
use crate::textops::{
    find_byte, lemma_find_byte_from, lower, parse_num, split_lines, strip_comment, tokenize, trim,
};

verus! {

/// The interpreter state: the working stack of expression trees, front at
/// index zero, and the table of stored functions in definition order.
pub struct State {
    pub values: Seq<EsianolopInstruction>,
    pub functions: Seq<(Seq<u8>, Seq<u8>)>,
}

/// The body stored under `name`, by first match.  Names are compared on
/// their exact bytes; the driver folds text to lower case beforehand.
pub open spec fn lookup(fns: Seq<(Seq<u8>, Seq<u8>)>, name: Seq<u8>) -> Option<Seq<u8>>
    decreases fns.len(),
{
    if fns.len() == 0 {
        None
    } else if fns[0].0 == name {
        Some(fns[0].1)
    } else {
        lookup(fns.skip(1), name)
    }
}

/// A binary combinator opcode.
#[derive(Clone, Copy, Debug, PartialEq, Eq, Structural)]
pub enum BinOp {
    Add,
    Sub,
    Mul,
    Div,
    Pow,
}

/// A duplication opcode: `dup`/`~` follows the direction, `dpl`/`<` always
/// prepends, `dpr`/`>` always appends.
#[derive(Clone, Copy, Debug, PartialEq, Eq, Structural)]
pub enum DupOp {
    Dup,
    DpL,
    DpR,
}

/// The instruction class of a token.
#[derive(Clone, Copy, Debug, PartialEq, Eq, Structural)]
pub enum TokClass {
    Bin(BinOp),
    Dupl(DupOp),
    SqrOp,
    DelOp,
    Other,
}

/// Which instruction a token names, if any.
pub open spec fn classify(t: Seq<u8>) -> TokClass {
    if t == seq![0x2bu8] || t == seq![0x61u8, 0x64, 0x64] {
        TokClass::Bin(BinOp::Add)
    } else if t == seq![0x2du8] || t == seq![0x73u8, 0x75, 0x62] {
        TokClass::Bin(BinOp::Sub)
    } else if t == seq![0x2au8] || t == seq![0x6du8, 0x75, 0x6c] {
        TokClass::Bin(BinOp::Mul)
    } else if t == seq![0x2fu8] || t == seq![0x64u8, 0x69, 0x76] {
        TokClass::Bin(BinOp::Div)
    } else if t == seq![0x5eu8] || t == seq![0x70u8, 0x6f, 0x77] {
        TokClass::Bin(BinOp::Pow)
    } else if t == seq![0x7eu8] || t == seq![0x64u8, 0x75, 0x70] {
        TokClass::Dupl(DupOp::Dup)
    } else if t == seq![0x3cu8] || t == seq![0x64u8, 0x70, 0x6c] {
        TokClass::Dupl(DupOp::DpL)
    } else if t == seq![0x3eu8] || t == seq![0x64u8, 0x70, 0x72] {
        TokClass::Dupl(DupOp::DpR)
    } else if t == seq![0x24u8] || t == seq![0x73u8, 0x71, 0x72] {
        TokClass::SqrOp
    } else if t == seq![0x21u8] || t == seq![0x64u8, 0x65, 0x6c] {
        TokClass::DelOp
    } else {
        TokClass::Other
    }
}

/// The combinator node an opcode builds from two operands.
pub open spec fn mk_bin(
    op: BinOp,
    l: EsianolopInstruction,
    r: EsianolopInstruction,
) -> EsianolopInstruction {
    match op {
        BinOp::Add => EsianolopInstruction::Add(Box::new(l), Box::new(r)),
        BinOp::Sub => EsianolopInstruction::Sub(Box::new(l), Box::new(r)),
        BinOp::Mul => EsianolopInstruction::Mul(Box::new(l), Box::new(r)),
        BinOp::Div => EsianolopInstruction::Div(Box::new(l), Box::new(r)),
        BinOp::Pow => EsianolopInstruction::Pow(Box::new(l), Box::new(r)),
    }
}

/// What dispatching one resolved token does: a new stack, an invocation of
/// a stored function, or a failure that leaves the stack as it was.
pub enum Step {
    Next(Seq<EsianolopInstruction>),
    Invoke { name: Seq<u8>, body: Seq<u8> },
    Fail(ErrorKind),
}

/// One resolved token against the stack.
///
/// * Binary opcodes need two nodes on their side: at the front, the front
///   node is the left operand and the combinator replaces both at the
///   front; at the back, the second-to-last is the left operand and the
///   combinator is appended.
/// * Duplication evaluates the source node at once and pushes a snapshot
///   node holding the value; the live subtree is never shared.
/// * The square root wraps the node on the chosen side in place.
/// * Deletion removes the node on the chosen side.
/// * A numeric literal is appended by default, prepended only under an
///   explicit front modifier.
/// * Anything else is a stored function's name, or a parse failure.
pub open spec fn dispatch(
    stack: Seq<EsianolopInstruction>,
    fns: Seq<(Seq<u8>, Seq<u8>)>,
    from_front: bool,
    specified: bool,
    tok: Seq<u8>,
) -> Step {
    match classify(tok) {
        TokClass::Bin(op) => if stack.len() < 2 {
            Step::Fail(ErrorKind::StackUnderflow)
        } else if from_front {
            Step::Next(seq![mk_bin(op, stack[0], stack[1])] + stack.skip(2))
        } else {
            let n = stack.len() as int;
            Step::Next(stack.take(n - 2) + seq![mk_bin(op, stack[n - 2], stack[n - 1])])
        },
        TokClass::Dupl(op) => if stack.len() == 0 {
            Step::Fail(ErrorKind::StackUnderflow)
        } else {
            let src = if from_front {
                stack[0]
            } else {
                stack.last()
            };
            match eval(src) {
                Err(e) => Step::Fail(ErrorKind::Arithmetic(e)),
                Ok(v) => {
                    let to_front = op == DupOp::DpL || (op == DupOp::Dup && from_front);
                    if to_front {
                        Step::Next(seq![EsianolopInstruction::Dup(v)] + stack)
                    } else {
                        Step::Next(stack.push(EsianolopInstruction::Dup(v)))
                    }
                },
            }
        },
        TokClass::SqrOp => if stack.len() == 0 {
            Step::Fail(ErrorKind::StackUnderflow)
        } else if from_front {
            Step::Next(stack.update(0, EsianolopInstruction::Sqr(Box::new(stack[0]))))
        } else {
            let n = stack.len() as int;
            Step::Next(stack.update(n - 1, EsianolopInstruction::Sqr(Box::new(stack[n - 1]))))
        },
        TokClass::DelOp => if stack.len() == 0 {
            Step::Fail(ErrorKind::StackUnderflow)
        } else if from_front {
            Step::Next(stack.skip(1))
        } else {
            Step::Next(stack.drop_last())
        },
        TokClass::Other => match parse_num(tok) {
            Some(v) => if specified && from_front {
                Step::Next(seq![EsianolopInstruction::Num(v)] + stack)
            } else {
                Step::Next(stack.push(EsianolopInstruction::Num(v)))
            },
            None => match lookup(fns, tok) {
                Some(body) => Step::Invoke { name: tok, body: body },
                None => Step::Fail(ErrorKind::ParseError),
            },
        },
    }
}

/// Whether a definition name is the reserved repetition construct,
/// optionally carrying its own direction prefix.
pub open spec fn is_for_name(name: Seq<u8>) -> bool {
    name == seq![0x66u8, 0x6f, 0x72] || name == seq![0x3cu8, 0x66, 0x6f, 0x72] || name == seq![
        0x3eu8,
        0x66,
        0x6f,
        0x72,
    ]
}

/// The rest of a definition body gathered from the following tokens, up to
/// the terminating colon.
///
/// Tokens are reconstituted with single spaces, each piece preceded by the
/// space that separated it from the previous token.  When a token holds the
/// terminating colon, the piece before the colon ends the body and the
/// remainder of that token resumes normal dispatch at the next index.  With
/// no terminator on the line, the body runs to the line's end.
pub open spec fn collect_body(toks: Seq<Seq<u8>>, i: int) -> (Seq<u8>, Option<(Seq<u8>, int)>)
    decreases toks.len() - i,
{
    if i < 0 || i >= toks.len() {
        (Seq::empty(), None)
    } else {
        match find_byte(toks[i], 0x3a) {
            Some(p) => (
                seq![0x20u8] + toks[i].take(p),
                Some((toks[i].skip(p + 1), i + 1)),
            ),
            None => {
                let (rest, cont) = collect_body(toks, i + 1);
                (seq![0x20u8] + toks[i] + rest, cont)
            },
        }
    }
}

pub proof fn lemma_collect_body(toks: Seq<Seq<u8>>, i: int)
    ensures
        match collect_body(toks, i).1 {
            Some(k) => i < k.1 <= toks.len(),
            None => true,
        },
    decreases toks.len() - i,
{
    if 0 <= i < toks.len() {
        if find_byte(toks[i], 0x3a) is None {
            lemma_collect_body(toks, i + 1);
        }
    }
}

/// A whole text against the state: fold to lower case, split into lines,
/// and run them in order until the first failure.
pub open spec fn run_text(st: State, text: Seq<u8>, depth: nat) -> (State, Option<ErrV>)
    decreases depth, 5nat, 0nat, 0nat, 0nat,
{
    run_lines(st, split_lines(lower(text)), 0, depth)
}

/// The lines from index `i` on, in order, stopping at the first failure.
/// Within each line the comment region is dropped first.
pub open spec fn run_lines(st: State, lines: Seq<Seq<u8>>, i: int, depth: nat) -> (
    State,
    Option<ErrV>,
)
    decreases depth, 4nat, lines.len() - i, 0nat, 0nat,
{
    if i < 0 || i >= lines.len() {
        (st, None)
    } else {
        let toks = tokenize(strip_comment(lines[i]));
        let stepped = if toks.len() == 0 {
            (st, None)
        } else {
            run_tokens(st, toks[0], toks, 1, i + 1, depth)
        };
        match stepped.1 {
            Some(err) => (stepped.0, Some(err)),
            None => run_lines(stepped.0, lines, i + 1, depth),
        }
    }
}

/// The repetition construct: the body text, `n` times in order, each run
/// with the remaining depth budget `avail`; the first failing round stops
/// the loop and records the loop's position.
pub open spec fn run_for(
    st: State,
    body: Seq<u8>,
    n: nat,
    line: int,
    token: int,
    avail: nat,
) -> (State, Option<ErrV>)
    decreases avail, 6nat, n, 0nat, 0nat,
{
    if n == 0 {
        (st, None)
    } else {
        let ran = run_text(st, body, avail);
        match ran.1 {
            Some(err) => (ran.0, Some(err.wrap(FrameV::InForLoop { line: line, token: token }))),
            None => run_for(ran.0, body, (n - 1) as nat, line, token, avail),
        }
    }
}

/// The tokens of one line from the current one on.
///
/// `cur` is the token under consideration and `r` its 1-based index; the
/// tokens at indices `r, r+1, ...` of `toks` (0-based) follow it.  After a
/// definition, the remainder of the token holding the terminating colon
/// takes `cur`'s place under the terminator's own index.
pub open spec fn run_tokens(
    st: State,
    cur: Seq<u8>,
    toks: Seq<Seq<u8>>,
    r: int,
    line: int,
    depth: nat,
) -> (State, Option<ErrV>)
    decreases depth, 3nat, toks.len() - r, cur.len(), 1nat,
{
    if r < 0 || r > toks.len() {
        (st, None)
    } else if cur.len() == 0 {
        if r < toks.len() {
            run_tokens(st, toks[r], toks, r + 1, line, depth)
        } else {
            (st, None)
        }
    } else {
        match find_byte(cur, 0x3a) {
            Some(c1) => run_definition(st, cur, c1, toks, r, line, depth),
            None => {
                let resolved = if cur.len() >= 2 && (cur[0] == 0x3c || cur[0] == 0x3e) {
                    (cur[0] == 0x3c, true, cur.skip(1))
                } else {
                    (true, false, cur)
                };
                match dispatch(st.values, st.functions, resolved.0, resolved.1, resolved.2) {
                    Step::Fail(k) => (st, Some(ErrV::leaf(line, r, k))),
                    Step::Next(stack) => {
                        let st1 = State { values: stack, ..st };
                        if r < toks.len() {
                            run_tokens(st1, toks[r], toks, r + 1, line, depth)
                        } else {
                            (st1, None)
                        }
                    },
                    Step::Invoke { name, body } => if depth == 0 {
                        (st, Some(ErrV::leaf(line, r, ErrorKind::RecursionLimit)))
                    } else {
                        let ran = run_text(st, body, (depth - 1) as nat);
                        match ran.1 {
                            Some(err) => (
                                ran.0,
                                Some(
                                    err.wrap(
                                        FrameV::InFunction { line: line, token: r, name: name },
                                    ),
                                ),
                            ),
                            None => if r < toks.len() {
                                run_tokens(ran.0, toks[r], toks, r + 1, line, depth)
                            } else {
                                (ran.0, None)
                            },
                        }
                    },
                }
            },
        }
    }
}

/// A token that opens a definition: `name:body`, whose body may span the
/// following tokens up to the terminating colon.
///
/// An empty name or body, a name already stored, and a terminator missing
/// past a lone final token each fail.  The reserved name `for` is not
/// stored: it takes a count from the chosen end of the stack and replays
/// the body that many times.  Any other name stores the body verbatim.
pub open spec fn run_definition(
    st: State,
    cur: Seq<u8>,
    c1: int,
    toks: Seq<Seq<u8>>,
    r: int,
    line: int,
    depth: nat,
) -> (State, Option<ErrV>)
    decreases depth, 3nat, toks.len() - r, cur.len(), 0nat,
    via run_definition_decreases
{
    if !(0 <= c1 < cur.len() && 0 <= r <= toks.len()) {
        (st, None)
    } else {
        let name = cur.take(c1);
        let tail = cur.skip(c1 + 1);
        let gathered: (Seq<u8>, Option<(Seq<u8>, int)>) = match find_byte(tail, 0x3a) {
            Some(c2) => (tail.take(c2), Some((tail.skip(c2 + 1), r))),
            None => {
                let (rest, cont) = collect_body(toks, r);
                match cont {
                    Some(k) => (tail + rest, Some(k)),
                    None => if r < toks.len() {
                        (tail + rest, Some((Seq::empty(), toks.len() as int)))
                    } else {
                        (tail.push(0x20), None)
                    },
                }
            },
        };
        let body = trim(gathered.0);
        if name.len() == 0 || body.len() == 0 {
            (st, Some(ErrV::leaf(line, r, ErrorKind::DefinitionEmpty)))
        } else if lookup(st.functions, name) is Some {
            (st, Some(ErrV::leaf(line, r, ErrorKind::DefinitionDuplicate)))
        } else {
            match gathered.1 {
                None => (st, Some(ErrV::leaf(line, r, ErrorKind::DefinitionUnterminated))),
                Some((cur2, r2)) => if is_for_name(name) {
                    if st.values.len() == 0 {
                        (st, Some(ErrV::leaf(line, r, ErrorKind::StackUnderflow)))
                    } else {
                        let idx: int = if name[0] == 0x3c {
                            0
                        } else {
                            st.values.len() - 1
                        };
                        match eval(st.values[idx]) {
                            Err(ae) => (st, Some(ErrV::leaf(line, r, ErrorKind::Arithmetic(ae)))),
                            Ok(n) => {
                                let st1 = State { values: st.values.remove(idx), ..st };
                                if n == 0 {
                                    run_tokens(st1, cur2, toks, r2, line, depth)
                                } else if depth == 0 {
                                    (st1, Some(ErrV::leaf(line, r, ErrorKind::RecursionLimit)))
                                } else {
                                    let ran = run_for(
                                        st1,
                                        body,
                                        n as nat,
                                        line,
                                        r,
                                        (depth - 1) as nat,
                                    );
                                    match ran.1 {
                                        Some(err) => (ran.0, Some(err)),
                                        None => run_tokens(ran.0, cur2, toks, r2, line, depth),
                                    }
                                }
                            },
                        }
                    }
                } else {
                    let st1 = State { functions: st.functions.push((name, body)), ..st };
                    run_tokens(st1, cur2, toks, r2, line, depth)
                },
            }
        }
    }
}

#[via_fn]
proof fn run_definition_decreases(
    st: State,
    cur: Seq<u8>,
    c1: int,
    toks: Seq<Seq<u8>>,
    r: int,
    line: int,
    depth: nat,
) {
    if 0 <= c1 < cur.len() && 0 <= r <= toks.len() {
        lemma_find_byte_from(cur.skip(c1 + 1), 0x3a, 0);
        lemma_collect_body(toks, r);
    }
}

} // verus!
