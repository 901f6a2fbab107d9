//! The interpreter: a working stack of expression trees and a table of
//! stored functions, mutated token by token.

use vstd::prelude::*;
use vstd::slice::slice_to_vec;
use vstd::string::StringSliceAdditionalSpecFns;
use crate::errors::{ErrorKind, Frame, RunError};
use crate::instruction::{eval, ArithErr, EsianolopInstruction};
use crate::semantics::{
    classify, dispatch, is_for_name, lookup, mk_bin, run_definition, run_for, run_lines,
    run_text, run_tokens, BinOp, DupOp, State, Step, TokClass,
};
use crate::textops::{
    cut_comment, find_byte, find_colon, parse_num, split_into_lines, split_tokens, subvec,
    to_lower, trim_bytes, views,
};

verus! {

/// How many nested invocations (stored functions, counted loops) one call
/// may open.  The language itself puts no bound on such nesting; this
/// explicit budget stands in for the host's call-stack limit, and running
/// past it is reported as a distinct failure rather than a crash.
pub const MAX_DEPTH: usize = 64;

/// The interpreter: the working stack (front at index zero) and the table
/// of stored functions, in definition order with names unique.
pub struct Esianolop {
    pub values: Vec<EsianolopInstruction>,
    pub functions: Vec<(Vec<u8>, Vec<u8>)>,
}

/// The mathematical image of the function table.
pub open spec fn fns_views(fns: Seq<(Vec<u8>, Vec<u8>)>) -> Seq<(Seq<u8>, Seq<u8>)> {
    fns.map_values(|p: (Vec<u8>, Vec<u8>)| (p.0@, p.1@))
}

impl View for Esianolop {
    type V = State;

    open spec fn view(&self) -> State {
        State { values: self.values@, functions: fns_views(self.functions@) }
    }
}

/// What dispatching one token did: the stack was mutated in place, or a
/// stored function must now be invoked.
pub(crate) enum Invoked {
    Done,
    Call { name: Vec<u8>, body: Vec<u8> },
}

/// A copy of a byte vector.
fn copy_bytes(v: &Vec<u8>) -> (r: Vec<u8>)
    ensures
        r@ == v@,
{
    let r = subvec(v, 0, v.len());
    proof {
        assert(v@.subrange(0, v@.len() as int) =~= v@);
    }
    r
}

/// Whether two byte vectors hold the same bytes.
fn bytes_eq(a: &Vec<u8>, b: &Vec<u8>) -> (r: bool)
    ensures
        r == (a@ == b@),
{
    if a.len() != b.len() {
        return false;
    }
    let mut i: usize = 0;
    while i < a.len()
        invariant
            i <= a@.len(),
            a@.len() == b@.len(),
            forall|k: int| 0 <= k < i ==> a@[k] == b@[k],
        decreases a@.len() - i,
    {
        if a[i] != b[i] {
            return false;
        }
        i = i + 1;
    }
    proof {
        assert(a@ =~= b@);
    }
    true
}

/// The executable image of `classify`.
fn classify_tok(t: &Vec<u8>) -> (c: TokClass)
    ensures
        c == classify(t@),
{
    if t.len() == 1 {
        let b = t[0];
        proof {
            assert(t@ =~= seq![t@[0]]);
        }
        if b == 0x2b {
            TokClass::Bin(BinOp::Add)
        } else if b == 0x2d {
            TokClass::Bin(BinOp::Sub)
        } else if b == 0x2a {
            TokClass::Bin(BinOp::Mul)
        } else if b == 0x2f {
            TokClass::Bin(BinOp::Div)
        } else if b == 0x5e {
            TokClass::Bin(BinOp::Pow)
        } else if b == 0x7e {
            TokClass::Dupl(DupOp::Dup)
        } else if b == 0x3c {
            TokClass::Dupl(DupOp::DpL)
        } else if b == 0x3e {
            TokClass::Dupl(DupOp::DpR)
        } else if b == 0x24 {
            TokClass::SqrOp
        } else if b == 0x21 {
            TokClass::DelOp
        } else {
            TokClass::Other
        }
    } else if t.len() == 3 {
        let b0 = t[0];
        let b1 = t[1];
        let b2 = t[2];
        proof {
            assert(t@ =~= seq![t@[0], t@[1], t@[2]]);
        }
        if b0 == 0x61 && b1 == 0x64 && b2 == 0x64 {
            TokClass::Bin(BinOp::Add)
        } else if b0 == 0x73 && b1 == 0x75 && b2 == 0x62 {
            TokClass::Bin(BinOp::Sub)
        } else if b0 == 0x6d && b1 == 0x75 && b2 == 0x6c {
            TokClass::Bin(BinOp::Mul)
        } else if b0 == 0x64 && b1 == 0x69 && b2 == 0x76 {
            TokClass::Bin(BinOp::Div)
        } else if b0 == 0x70 && b1 == 0x6f && b2 == 0x77 {
            TokClass::Bin(BinOp::Pow)
        } else if b0 == 0x64 && b1 == 0x75 && b2 == 0x70 {
            TokClass::Dupl(DupOp::Dup)
        } else if b0 == 0x64 && b1 == 0x70 && b2 == 0x6c {
            TokClass::Dupl(DupOp::DpL)
        } else if b0 == 0x64 && b1 == 0x70 && b2 == 0x72 {
            TokClass::Dupl(DupOp::DpR)
        } else if b0 == 0x73 && b1 == 0x71 && b2 == 0x72 {
            TokClass::SqrOp
        } else if b0 == 0x64 && b1 == 0x65 && b2 == 0x6c {
            TokClass::DelOp
        } else {
            TokClass::Other
        }
    } else {
        TokClass::Other
    }
}

/// The executable image of `mk_bin`.
fn mk_bin_node(
    op: BinOp,
    l: EsianolopInstruction,
    r: EsianolopInstruction,
) -> (node: EsianolopInstruction)
    ensures
        node == mk_bin(op, l, r),
{
    match op {
        BinOp::Add => EsianolopInstruction::Add(Box::new(l), Box::new(r)),
        BinOp::Sub => EsianolopInstruction::Sub(Box::new(l), Box::new(r)),
        BinOp::Mul => EsianolopInstruction::Mul(Box::new(l), Box::new(r)),
        BinOp::Div => EsianolopInstruction::Div(Box::new(l), Box::new(r)),
        BinOp::Pow => EsianolopInstruction::Pow(Box::new(l), Box::new(r)),
    }
}

/// The executable image of `is_for_name`.
fn is_for_tok(name: &Vec<u8>) -> (r: bool)
    ensures
        r == is_for_name(name@),
{
    if name.len() == 3 {
        proof {
            assert(name@ =~= seq![name@[0], name@[1], name@[2]]);
        }
        name[0] == 0x66 && name[1] == 0x6f && name[2] == 0x72
    } else if name.len() == 4 {
        proof {
            assert(name@ =~= seq![name@[0], name@[1], name@[2], name@[3]]);
        }
        (name[0] == 0x3c || name[0] == 0x3e) && name[1] == 0x66 && name[2] == 0x6f && name[3]
            == 0x72
    } else {
        false
    }
}

impl Esianolop {
    /// A fresh interpreter: empty stack, empty function table.
    pub fn new() -> (r: Esianolop)
        ensures
            r@.values == Seq::<EsianolopInstruction>::empty(),
            r@.functions == Seq::<(Seq<u8>, Seq<u8>)>::empty(),
    {
        let r = Esianolop { values: Vec::new(), functions: Vec::new() };
        proof {
            assert(r@.functions =~= Seq::<(Seq<u8>, Seq<u8>)>::empty());
        }
        r
    }

    /// The hard reset: drops the stack and the stored functions.
    pub fn clear(&mut self)
        ensures
            final(self)@.values == Seq::<EsianolopInstruction>::empty(),
            final(self)@.functions == Seq::<(Seq<u8>, Seq<u8>)>::empty(),
    {
        self.values.clear();
        self.functions.clear();
        proof {
            assert(final(self)@.functions =~= Seq::<(Seq<u8>, Seq<u8>)>::empty());
        }
    }

    /// The soft reset: drops the stack alone; stored functions persist.
    pub fn reset_stack(&mut self)
        ensures
            final(self)@.values == Seq::<EsianolopInstruction>::empty(),
            final(self)@.functions == old(self)@.functions,
    {
        self.values.clear();
    }

    /// Every stack node evaluated, front to back.  The result always has
    /// exactly one entry per stack node.
    pub fn get_result(&self) -> (r: Vec<Result<usize, ArithErr>>)
        ensures
            r@.len() == self@.values.len(),
            forall|i: int| 0 <= i < r@.len() ==> r@[i] == eval(self@.values[i]),
    {
        let mut r: Vec<Result<usize, ArithErr>> = Vec::new();
        let mut i: usize = 0;
        while i < self.values.len()
            invariant
                i <= self@.values.len(),
                r@.len() == i,
                forall|k: int| 0 <= k < i ==> r@[k] == eval(self@.values[k]),
            decreases self@.values.len() - i,
        {
            r.push(self.values[i].execute());
            i = i + 1;
        }
        r
    }

    /// The body stored under `name`, by first match.
    fn lookup_fn(&self, name: &Vec<u8>) -> (r: Option<Vec<u8>>)
        ensures
            match r {
                Some(b) => lookup(self@.functions, name@) == Some(b@),
                None => lookup(self@.functions, name@) is None,
            },
    {
        let mut i: usize = 0;
        proof {
            assert(self@.functions.skip(0) =~= self@.functions);
        }
        while i < self.functions.len()
            invariant
                i <= self@.functions.len(),
                self@.functions.len() == self.functions@.len(),
                lookup(self@.functions, name@) == lookup(self@.functions.skip(i as int), name@),
            decreases self@.functions.len() - i,
        {
            proof {
                assert(self@.functions.skip(i as int)[0] == self@.functions[i as int]);
                assert(self@.functions[i as int] == (self.functions@[i as int].0@, self.functions@[
                    i as int
                ].1@));
                assert(self@.functions.skip(i as int).skip(1) =~= self@.functions.skip(i + 1));
            }
            if bytes_eq(&self.functions[i].0, name) {
                return Some(copy_bytes(&self.functions[i].1));
            }
            i = i + 1;
        }
        proof {
            assert(self@.functions.skip(i as int) =~= Seq::<(Seq<u8>, Seq<u8>)>::empty());
        }
        None
    }

    /// One resolved token against the stack: mutates the stack in place
    /// per `dispatch`, or hands back the stored function to invoke.
    fn execute_instruction(&mut self, from_front: bool, specified: bool, tok: &Vec<u8>) -> (r:
        Result<Invoked, ErrorKind>)
        ensures
            final(self)@.functions == old(self)@.functions,
            ({
                let step = dispatch(
                    old(self)@.values,
                    old(self)@.functions,
                    from_front,
                    specified,
                    tok@,
                );
                match step {
                    Step::Next(ns) => r matches Ok(Invoked::Done) && final(self)@.values == ns,
                    Step::Fail(k) => r == Err::<Invoked, ErrorKind>(k) && final(self)@.values
                        == old(self)@.values,
                    Step::Invoke { name, body } => final(self)@.values == old(self)@.values && (
                    r matches Ok(Invoked::Call { name: n, body: b }) && n@ == name && b@ == body),
                }
            }),
    {
        match classify_tok(tok) {
            TokClass::Bin(op) => {
                if self.values.len() < 2 {
                    return Err(ErrorKind::StackUnderflow);
                }
                let ghost pre = self@.values;
                if from_front {
                    let l = self.values[0].clone();
                    let rt = self.values[1].clone();
                    let node = mk_bin_node(op, l, rt);
                    self.values.remove(0);
                    self.values.remove(0);
                    self.values.insert(0, node);
                    proof {
                        assert(self@.values =~= seq![mk_bin(op, pre[0], pre[1])] + pre.skip(2));
                    }
                } else {
                    let n = self.values.len();
                    let l = self.values[n - 2].clone();
                    let rt = self.values[n - 1].clone();
                    let node = mk_bin_node(op, l, rt);
                    self.values.pop();
                    self.values.pop();
                    self.values.push(node);
                    proof {
                        let m = pre.len() as int;
                        assert(self@.values =~= pre.take(m - 2) + seq![
                            mk_bin(op, pre[m - 2], pre[m - 1]),
                        ]);
                    }
                }
                Ok(Invoked::Done)
            },
            TokClass::Dupl(op) => {
                if self.values.len() == 0 {
                    return Err(ErrorKind::StackUnderflow);
                }
                let ghost pre = self@.values;
                let src_idx = if from_front {
                    0
                } else {
                    self.values.len() - 1
                };
                let v = match self.values[src_idx].execute() {
                    Ok(v) => v,
                    Err(e) => {
                        return Err(ErrorKind::Arithmetic(e));
                    },
                };
                let to_front = match op {
                    DupOp::DpL => true,
                    DupOp::DpR => false,
                    DupOp::Dup => from_front,
                };
                if to_front {
                    self.values.insert(0, EsianolopInstruction::Dup(v));
                    proof {
                        assert(self@.values =~= seq![EsianolopInstruction::Dup(v)] + pre);
                    }
                } else {
                    self.values.push(EsianolopInstruction::Dup(v));
                }
                Ok(Invoked::Done)
            },
            TokClass::SqrOp => {
                if self.values.len() == 0 {
                    return Err(ErrorKind::StackUnderflow);
                }
                let ghost pre = self@.values;
                if from_front {
                    let node = EsianolopInstruction::Sqr(Box::new(self.values[0].clone()));
                    self.values.remove(0);
                    self.values.insert(0, node);
                    proof {
                        assert(self@.values =~= pre.update(
                            0,
                            EsianolopInstruction::Sqr(Box::new(pre[0])),
                        ));
                    }
                } else {
                    let n = self.values.len();
                    let node = EsianolopInstruction::Sqr(Box::new(self.values[n - 1].clone()));
                    self.values.pop();
                    self.values.push(node);
                    proof {
                        let m = pre.len() as int;
                        assert(self@.values =~= pre.update(
                            m - 1,
                            EsianolopInstruction::Sqr(Box::new(pre[m - 1])),
                        ));
                    }
                }
                Ok(Invoked::Done)
            },
            TokClass::DelOp => {
                if self.values.len() == 0 {
                    return Err(ErrorKind::StackUnderflow);
                }
                let ghost pre = self@.values;
                if from_front {
                    self.values.remove(0);
                    proof {
                        assert(self@.values =~= pre.skip(1));
                    }
                } else {
                    self.values.pop();
                    proof {
                        assert(self@.values =~= pre.drop_last());
                    }
                }
                Ok(Invoked::Done)
            },
            TokClass::Other => {
                match crate::textops::parse_literal(tok) {
                    Some(v) => {
                        let ghost pre = self@.values;
                        if specified && from_front {
                            self.values.insert(0, EsianolopInstruction::Num(v));
                            proof {
                                assert(self@.values =~= seq![EsianolopInstruction::Num(v)] + pre);
                            }
                        } else {
                            self.values.push(EsianolopInstruction::Num(v));
                        }
                        Ok(Invoked::Done)
                    },
                    None => {
                        match self.lookup_fn(tok) {
                            Some(body) => Ok(Invoked::Call { name: copy_bytes(tok), body }),
                            None => Err(ErrorKind::ParseError),
                        }
                    },
                }
            },
        }
    }
}

/// The executable image of `collect_body`: the rest of a definition body
/// gathered from the following tokens, up to the terminating colon.
fn collect_to_colon(toks: &Vec<Vec<u8>>, i: usize) -> (r: (Vec<u8>, Option<(Vec<u8>, usize)>))
    requires
        i <= toks@.len(),
    ensures
        ({
            let gathered = crate::semantics::collect_body(views(toks@), i as int);
            &&& r.0@ == gathered.0
            &&& match (r.1, gathered.1) {
                (None, None) => true,
                (Some(p), Some(sp)) => p.0@ == sp.0 && p.1 == sp.1,
                _ => false,
            }
        }),
    decreases toks@.len() - i,
{
    if i == toks.len() {
        (Vec::new(), None)
    } else {
        proof {
            assert(views(toks@)[i as int] == toks@[i as int]@);
        }
        match find_colon(&toks[i]) {
            Some(p) => {
                proof {
                    crate::textops::lemma_find_byte_from(toks@[i as int]@, 0x3a, 0);
                }
                let mut c: Vec<u8> = Vec::new();
                c.push(0x20);
                let mut piece = subvec(&toks[i], 0, p);
                c.append(&mut piece);
                let tok_len = toks[i].len();
                let cur2 = subvec(&toks[i], p + 1, tok_len);
                proof {
                    assert(c@ =~= seq![0x20u8] + toks@[i as int]@.take(p as int));
                    assert(cur2@ =~= toks@[i as int]@.skip(p + 1));
                }
                (c, Some((cur2, i + 1)))
            },
            None => {
                let gathered = collect_to_colon(toks, i + 1);
                let mut c: Vec<u8> = Vec::new();
                c.push(0x20);
                let mut piece = copy_bytes(&toks[i]);
                c.append(&mut piece);
                let mut rest = gathered.0;
                let ghost rest_v = rest@;
                c.append(&mut rest);
                proof {
                    assert(c@ =~= seq![0x20u8] + toks@[i as int]@ + rest_v);
                }
                (c, gathered.1)
            },
        }
    }
}

impl Esianolop {
    /// Runs a lower-cased body text: splits it into lines and runs them.
    fn run_bytes(&mut self, text: &Vec<u8>, depth: usize) -> (r: Result<(), RunError>)
        ensures
            ({
                let sr = run_text(old(self)@, text@, depth as nat);
                &&& final(self)@ == sr.0
                &&& match r {
                    Ok(()) => sr.1 is None,
                    Err(e) => sr.1 == Some(e@),
                }
            }),
        decreases depth, 5nat, 0nat, 0nat, 0nat,
    {
        let lowered = to_lower(text);
        let lines = split_into_lines(&lowered);
        self.run_lines_from(&lines, 0, depth)
    }

    /// Runs the lines from index `i` on, stopping at the first failure.
    fn run_lines_from(&mut self, lines: &Vec<Vec<u8>>, i: usize, depth: usize) -> (r: Result<
        (),
        RunError,
    >)
        requires
            i <= lines@.len(),
        ensures
            ({
                let sr = run_lines(old(self)@, views(lines@), i as int, depth as nat);
                &&& final(self)@ == sr.0
                &&& match r {
                    Ok(()) => sr.1 is None,
                    Err(e) => sr.1 == Some(e@),
                }
            }),
        decreases depth, 4nat, lines@.len() - i, 0nat, 0nat,
    {
        if i == lines.len() {
            return Ok(());
        }
        proof {
            assert(views(lines@)[i as int] == lines@[i as int]@);
        }
        let clean = cut_comment(&lines[i]);
        let toks = split_tokens(&clean);
        if toks.len() == 0 {
            self.run_lines_from(lines, i + 1, depth)
        } else {
            proof {
                assert(views(toks@)[0] == toks@[0]@);
            }
            let cur = copy_bytes(&toks[0]);
            match self.run_tokens_from(cur, &toks, 1, i + 1, depth) {
                Err(e) => Err(e),
                Ok(()) => self.run_lines_from(lines, i + 1, depth),
            }
        }
    }

    /// Runs one line's tokens from the current one on.
    fn run_tokens_from(
        &mut self,
        cur: Vec<u8>,
        toks: &Vec<Vec<u8>>,
        r: usize,
        line: usize,
        depth: usize,
    ) -> (res: Result<(), RunError>)
        requires
            r <= toks@.len(),
        ensures
            ({
                let sr = run_tokens(old(self)@, cur@, views(toks@), r as int, line as int,
                    depth as nat);
                &&& final(self)@ == sr.0
                &&& match res {
                    Ok(()) => sr.1 is None,
                    Err(e) => sr.1 == Some(e@),
                }
            }),
        decreases depth, 3nat, toks@.len() - r, cur@.len(), 1nat,
    {
        if cur.len() == 0 {
            if r < toks.len() {
                proof {
                    assert(views(toks@)[r as int] == toks@[r as int]@);
                }
                let next = copy_bytes(&toks[r]);
                self.run_tokens_from(next, toks, r + 1, line, depth)
            } else {
                Ok(())
            }
        } else {
            match find_colon(&cur) {
                Some(c1) => {
                    proof {
                        crate::textops::lemma_find_byte_from(cur@, 0x3a, 0);
                    }
                    self.run_definition(cur, c1, toks, r, line, depth)
                },
                None => {
                    let has_mod = cur.len() >= 2 && (cur[0] == 0x3c || cur[0] == 0x3e);
                    let from_front = if has_mod {
                        cur[0] == 0x3c
                    } else {
                        true
                    };
                    let specified = has_mod;
                    let tok = if has_mod {
                        let t = subvec(&cur, 1, cur.len());
                        proof {
                            assert(t@ =~= cur@.skip(1));
                        }
                        t
                    } else {
                        cur
                    };
                    match self.execute_instruction(from_front, specified, &tok) {
                        Err(k) => Err(RunError::leaf(line, r, k)),
                        Ok(Invoked::Done) => {
                            if r < toks.len() {
                                proof {
                                    assert(views(toks@)[r as int] == toks@[r as int]@);
                                }
                                let next = copy_bytes(&toks[r]);
                                self.run_tokens_from(next, toks, r + 1, line, depth)
                            } else {
                                Ok(())
                            }
                        },
                        Ok(Invoked::Call { name, body }) => {
                            if depth == 0 {
                                Err(RunError::leaf(line, r, ErrorKind::RecursionLimit))
                            } else {
                                match self.run_bytes(&body, depth - 1) {
                                    Err(e) => Err(e.wrap(Frame::InFunction {
                                        line,
                                        token: r,
                                        name,
                                    })),
                                    Ok(()) => {
                                        if r < toks.len() {
                                            proof {
                                                assert(views(toks@)[r as int] == toks@[
                                                    r as int
                                                ]@);
                                            }
                                            let next = copy_bytes(&toks[r]);
                                            self.run_tokens_from(next, toks, r + 1, line, depth)
                                        } else {
                                            Ok(())
                                        }
                                    },
                                }
                            }
                        },
                    }
                },
            }
        }
    }

    /// Runs a token that opens a definition.
    fn run_definition(
        &mut self,
        cur: Vec<u8>,
        c1: usize,
        toks: &Vec<Vec<u8>>,
        r: usize,
        line: usize,
        depth: usize,
    ) -> (res: Result<(), RunError>)
        requires
            r <= toks@.len(),
            c1 < cur@.len(),
            find_byte(cur@, 0x3a) == Some(c1 as int),
        ensures
            ({
                let sr = run_definition(old(self)@, cur@, c1 as int, views(toks@), r as int,
                    line as int, depth as nat);
                &&& final(self)@ == sr.0
                &&& match res {
                    Ok(()) => sr.1 is None,
                    Err(e) => sr.1 == Some(e@),
                }
            }),
        decreases depth, 3nat, toks@.len() - r, cur@.len(), 0nat,
    {
        let name = subvec(&cur, 0, c1);
        let tail = subvec(&cur, c1 + 1, cur.len());
        proof {
            assert(name@ =~= cur@.take(c1 as int));
            assert(tail@ =~= cur@.skip(c1 + 1));
        }
        let code: Vec<u8>;
        let cont: Option<(Vec<u8>, usize)>;
        match find_colon(&tail) {
            Some(c2) => {
                proof {
                    crate::textops::lemma_find_byte_from(tail@, 0x3a, 0);
                }
                code = subvec(&tail, 0, c2);
                let cur2 = subvec(&tail, c2 + 1, tail.len());
                proof {
                    assert(code@ =~= tail@.take(c2 as int));
                    assert(cur2@ =~= tail@.skip(c2 + 1));
                }
                cont = Some((cur2, r));
            },
            None => {
                let gathered = collect_to_colon(toks, r);
                proof {
                    crate::semantics::lemma_collect_body(views(toks@), r as int);
                }
                match gathered.1 {
                    Some(pair) => {
                        let mut c = tail;
                        let mut rest = gathered.0;
                        c.append(&mut rest);
                        code = c;
                        cont = Some(pair);
                    },
                    None => {
                        if r < toks.len() {
                            let mut c = tail;
                            let mut rest = gathered.0;
                            c.append(&mut rest);
                            code = c;
                            cont = Some((Vec::new(), toks.len()));
                        } else {
                            let mut c = tail;
                            c.push(0x20);
                            code = c;
                            cont = None;
                        }
                    },
                }
            },
        }
        let body = trim_bytes(&code);
        if name.len() == 0 || body.len() == 0 {
            return Err(RunError::leaf(line, r, ErrorKind::DefinitionEmpty));
        }
        if self.lookup_fn(&name).is_some() {
            return Err(RunError::leaf(line, r, ErrorKind::DefinitionDuplicate));
        }
        match cont {
            None => Err(RunError::leaf(line, r, ErrorKind::DefinitionUnterminated)),
            Some((cur2, r2)) => {
                if is_for_tok(&name) {
                    if self.values.len() == 0 {
                        return Err(RunError::leaf(line, r, ErrorKind::StackUnderflow));
                    }
                    let idx = if name[0] == 0x3c {
                        0
                    } else {
                        self.values.len() - 1
                    };
                    let cnt = match self.values[idx].execute() {
                        Ok(v) => v,
                        Err(ae) => {
                            return Err(RunError::leaf(line, r, ErrorKind::Arithmetic(ae)));
                        },
                    };
                    self.values.remove(idx);
                    if cnt == 0 {
                        self.run_tokens_from(cur2, toks, r2, line, depth)
                    } else if depth == 0 {
                        Err(RunError::leaf(line, r, ErrorKind::RecursionLimit))
                    } else {
                        match self.run_for_iters(&body, cnt, line, r, depth - 1) {
                            Err(e) => Err(e),
                            Ok(()) => self.run_tokens_from(cur2, toks, r2, line, depth),
                        }
                    }
                } else {
                    let ghost pre = self@.functions;
                    self.functions.push((name, body));
                    proof {
                        assert(self@.functions =~= pre.push((name@, body@)));
                    }
                    self.run_tokens_from(cur2, toks, r2, line, depth)
                }
            },
        }
    }

    /// The repetition construct's rounds: the body, `n` times in order.
    fn run_for_iters(
        &mut self,
        body: &Vec<u8>,
        n: usize,
        line: usize,
        token: usize,
        avail: usize,
    ) -> (res: Result<(), RunError>)
        ensures
            ({
                let sr = run_for(old(self)@, body@, n as nat, line as int, token as int,
                    avail as nat);
                &&& final(self)@ == sr.0
                &&& match res {
                    Ok(()) => sr.1 is None,
                    Err(e) => sr.1 == Some(e@),
                }
            }),
        decreases avail, 6nat, n, 0nat, 0nat,
    {
        if n == 0 {
            return Ok(());
        }
        match self.run_bytes(body, avail) {
            Err(e) => Err(e.wrap(Frame::InForLoop { line, token })),
            Ok(()) => self.run_for_iters(body, n - 1, line, token, avail),
        }
    }

    /// Runs a whole text, mutating the stack and the function table token
    /// by token.  The first failure anywhere stops the run; mutations
    /// already performed stay in place.
    pub fn parse_text(&mut self, text: &str) -> (r: Result<(), RunError>)
        ensures
            ({
                let sr = run_text(old(self)@, text.spec_bytes(), MAX_DEPTH as nat);
                &&& final(self)@ == sr.0
                &&& match r {
                    Ok(()) => sr.1 is None,
                    Err(e) => sr.1 == Some(e@),
                }
            }),
    {
        let bytes = slice_to_vec(text.as_bytes());
        self.run_bytes(&bytes, MAX_DEPTH)
    }
}

} // verus!
