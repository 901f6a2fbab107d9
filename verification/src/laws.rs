//! Laws of the dispatcher, stated over the specification semantics.

use vstd::prelude::*;
use crate::instruction::{eval, ArithErr, EsianolopInstruction};
use crate::semantics::{classify, dispatch, Step, TokClass};
use crate::textops::parse_num;

verus! {

/// A token that parses as a numeric literal never names an instruction:
/// dispatching it always pushes a `Num` node.
pub proof fn lemma_literal_is_not_instruction(t: Seq<u8>)
    requires
        parse_num(t) is Some,
    ensures
        classify(t) == TokClass::Other,
{
    if t == seq![0x2bu8] {
        assert(t.skip(1) =~= Seq::<u8>::empty());
        assert(false);
    }
    if t == seq![0x61u8, 0x64, 0x64] || t == seq![0x73u8, 0x75, 0x62] || t == seq![
        0x6du8,
        0x75,
        0x6c,
    ] || t == seq![0x64u8, 0x69, 0x76] || t == seq![0x70u8, 0x6f, 0x77] || t == seq![
        0x64u8,
        0x75,
        0x70,
    ] || t == seq![0x64u8, 0x70, 0x6c] || t == seq![0x64u8, 0x70, 0x72] || t == seq![
        0x73u8,
        0x71,
        0x72,
    ] || t == seq![0x64u8, 0x65, 0x6c] || t == seq![0x2du8] || t == seq![0x2au8] || t == seq![
        0x2fu8,
    ] || t == seq![0x5eu8] || t == seq![0x7eu8] || t == seq![0x3cu8] || t == seq![0x3eu8]
        || t == seq![0x24u8] || t == seq![0x21u8] {
        assert(t[0] != 0x2b);
        assert(!(0x30 <= t[0] <= 0x39));
        assert(false);
    }
}

/// Two literal tokens and a front addition, from the empty stack: the
/// literals are appended in order, the addition replaces both by the one
/// combinator `Add(a, b)`, and that node evaluates to the checked sum
/// `a + b`.
pub proof fn lemma_literals_then_add_front(
    ta: Seq<u8>,
    tb: Seq<u8>,
    a: usize,
    b: usize,
    fns: Seq<(Seq<u8>, Seq<u8>)>,
)
    requires
        parse_num(ta) == Some(a),
        parse_num(tb) == Some(b),
    ensures
        dispatch(Seq::empty(), fns, true, false, ta) == Step::Next(
            seq![EsianolopInstruction::Num(a)],
        ),
        dispatch(seq![EsianolopInstruction::Num(a)], fns, true, false, tb) == Step::Next(
            seq![EsianolopInstruction::Num(a), EsianolopInstruction::Num(b)],
        ),
        dispatch(
            seq![EsianolopInstruction::Num(a), EsianolopInstruction::Num(b)],
            fns,
            true,
            false,
            seq![0x61u8, 0x64, 0x64],
        ) == Step::Next(
            seq![
                EsianolopInstruction::Add(
                    Box::new(EsianolopInstruction::Num(a)),
                    Box::new(EsianolopInstruction::Num(b)),
                ),
            ],
        ),
        a + b <= usize::MAX ==> eval(
            EsianolopInstruction::Add(
                Box::new(EsianolopInstruction::Num(a)),
                Box::new(EsianolopInstruction::Num(b)),
            ),
        ) == Ok::<usize, ArithErr>((a + b) as usize),
        a + b > usize::MAX ==> eval(
            EsianolopInstruction::Add(
                Box::new(EsianolopInstruction::Num(a)),
                Box::new(EsianolopInstruction::Num(b)),
            ),
        ) == Err::<usize, ArithErr>(ArithErr::AddOverflow),
{
    reveal_with_fuel(eval, 2);
    lemma_literal_is_not_instruction(ta);
    lemma_literal_is_not_instruction(tb);
    assert(Seq::<EsianolopInstruction>::empty().push(EsianolopInstruction::Num(a)) =~= seq![
        EsianolopInstruction::Num(a),
    ]);
    assert(seq![EsianolopInstruction::Num(a)].push(EsianolopInstruction::Num(b)) =~= seq![
        EsianolopInstruction::Num(a),
        EsianolopInstruction::Num(b),
    ]);
    let two = seq![EsianolopInstruction::Num(a), EsianolopInstruction::Num(b)];
    let node = EsianolopInstruction::Add(
        Box::new(EsianolopInstruction::Num(a)),
        Box::new(EsianolopInstruction::Num(b)),
    );
    assert(seq![node] + two.skip(2) =~= seq![node]);
}

/// Three literals and a back addition: the two back nodes are replaced by
/// the one combinator appended at the back, the front node stays, and the
/// combinator evaluates to the checked sum `b + c`.
pub proof fn lemma_literals_then_add_back(
    a: usize,
    b: usize,
    c: usize,
    fns: Seq<(Seq<u8>, Seq<u8>)>,
)
    ensures
        dispatch(
            seq![
                EsianolopInstruction::Num(a),
                EsianolopInstruction::Num(b),
                EsianolopInstruction::Num(c),
            ],
            fns,
            false,
            true,
            seq![0x61u8, 0x64, 0x64],
        ) == Step::Next(
            seq![
                EsianolopInstruction::Num(a),
                EsianolopInstruction::Add(
                    Box::new(EsianolopInstruction::Num(b)),
                    Box::new(EsianolopInstruction::Num(c)),
                ),
            ],
        ),
        b + c <= usize::MAX ==> eval(
            EsianolopInstruction::Add(
                Box::new(EsianolopInstruction::Num(b)),
                Box::new(EsianolopInstruction::Num(c)),
            ),
        ) == Ok::<usize, ArithErr>((b + c) as usize),
{
    reveal_with_fuel(eval, 2);
    let three = seq![
        EsianolopInstruction::Num(a),
        EsianolopInstruction::Num(b),
        EsianolopInstruction::Num(c),
    ];
    let node = EsianolopInstruction::Add(
        Box::new(EsianolopInstruction::Num(b)),
        Box::new(EsianolopInstruction::Num(c)),
    );
    assert(three.take(1) + seq![node] =~= seq![EsianolopInstruction::Num(a), node]);
}

} // verus!
