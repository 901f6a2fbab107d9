//! The expression-tree node type and its checked evaluator.

use vstd::prelude::*;
use vstd::arithmetic::power::pow;

verus! {

/// A reason an evaluation can fail.  Every failure of the checked unsigned
/// arithmetic is reported with a distinct reason.
#[derive(Clone, Copy, Debug, PartialEq, Eq, Structural)]
pub enum ArithErr {
    /// Addition would exceed the unsigned range.
    AddOverflow,
    /// Subtraction would produce a negative value.
    SubUnderflow,
    /// Multiplication would exceed the unsigned range.
    MulOverflow,
    /// Division by zero.
    DivByZero,
    /// Exponentiation would exceed the unsigned range.
    PowOverflow,
}

/// A node of the deferred expression tree.
///
/// Binary combinators own their two children; `Sqr` owns one child.
/// `Dup`, `DpL` and `DpR` hold a value that was already evaluated when the
/// duplication was performed, not a subtree.
#[derive(Debug, PartialEq)]
pub enum EsianolopInstruction {
    Nul,
    Add(Box<EsianolopInstruction>, Box<EsianolopInstruction>),
    Mul(Box<EsianolopInstruction>, Box<EsianolopInstruction>),
    Sub(Box<EsianolopInstruction>, Box<EsianolopInstruction>),
    Div(Box<EsianolopInstruction>, Box<EsianolopInstruction>),
    Pow(Box<EsianolopInstruction>, Box<EsianolopInstruction>),
    Dup(usize),
    DpL(usize),
    DpR(usize),
    Sqr(Box<EsianolopInstruction>),
    Num(usize),
}

/// The largest integer whose square is at most `x`.
pub open spec fn sqrt_floor(x: nat) -> nat
    decreases x,
{
    if x == 0 {
        0
    } else {
        let s = sqrt_floor((x - 1) as nat);
        if (s + 1) * (s + 1) <= x {
            s + 1
        } else {
            s
        }
    }
}

/// The exponent actually used by `Pow`: the right operand reduced to the
/// 32-bit range, as the checked exponentiation of the execution takes it.
pub open spec fn pow_exponent(y: usize) -> nat {
    (y as nat) % 0x1_0000_0000
}

/// The value of an expression tree, or the reason it has none.
///
/// Evaluation is pure and never mutates the tree; the left child is
/// evaluated first, so its failure wins over the right child's.
pub open spec fn eval(n: EsianolopInstruction) -> Result<usize, ArithErr>
    decreases n,
{
    match n {
        EsianolopInstruction::Nul => Ok(0),
        EsianolopInstruction::Num(v) => Ok(v),
        EsianolopInstruction::Dup(v) => Ok(v),
        EsianolopInstruction::DpL(v) => Ok(v),
        EsianolopInstruction::DpR(v) => Ok(v),
        EsianolopInstruction::Add(a, b) => match (eval(*a), eval(*b)) {
            (Err(e), _) => Err(e),
            (Ok(_), Err(e)) => Err(e),
            (Ok(x), Ok(y)) => if x + y > usize::MAX {
                Err(ArithErr::AddOverflow)
            } else {
                Ok((x + y) as usize)
            },
        },
        EsianolopInstruction::Sub(a, b) => match (eval(*a), eval(*b)) {
            (Err(e), _) => Err(e),
            (Ok(_), Err(e)) => Err(e),
            (Ok(x), Ok(y)) => if x - y < 0 {
                Err(ArithErr::SubUnderflow)
            } else {
                Ok((x - y) as usize)
            },
        },
        EsianolopInstruction::Mul(a, b) => match (eval(*a), eval(*b)) {
            (Err(e), _) => Err(e),
            (Ok(_), Err(e)) => Err(e),
            (Ok(x), Ok(y)) => if x * y > usize::MAX {
                Err(ArithErr::MulOverflow)
            } else {
                Ok((x * y) as usize)
            },
        },
        EsianolopInstruction::Div(a, b) => match (eval(*a), eval(*b)) {
            (Err(e), _) => Err(e),
            (Ok(_), Err(e)) => Err(e),
            (Ok(x), Ok(y)) => if y == 0 {
                Err(ArithErr::DivByZero)
            } else {
                Ok((x / y) as usize)
            },
        },
        EsianolopInstruction::Pow(a, b) => match (eval(*a), eval(*b)) {
            (Err(e), _) => Err(e),
            (Ok(_), Err(e)) => Err(e),
            (Ok(x), Ok(y)) => if pow(x as int, pow_exponent(y)) > usize::MAX {
                Err(ArithErr::PowOverflow)
            } else {
                Ok(pow(x as int, pow_exponent(y)) as usize)
            },
        },
        EsianolopInstruction::Sqr(a) => match eval(*a) {
            Err(e) => Err(e),
            Ok(x) => Ok(sqrt_floor(x as nat) as usize),
        },
    }
}

proof fn lemma_sqrt_floor_bounds(x: nat)
    ensures
        sqrt_floor(x) * sqrt_floor(x) <= x,
        x < (sqrt_floor(x) + 1) * (sqrt_floor(x) + 1),
    decreases x,
{
    if x == 0 {
        assert(sqrt_floor(0) == 0);
        assert(sqrt_floor(x) * sqrt_floor(x) <= x);
        assert(x < (sqrt_floor(x) + 1) * (sqrt_floor(x) + 1)) by (nonlinear_arith)
            requires x == 0, sqrt_floor(x) == 0,
        ;
    } else {
        lemma_sqrt_floor_bounds((x - 1) as nat);
        let s = sqrt_floor((x - 1) as nat);
        assert(s * s <= x - 1);
        assert(x - 1 < (s + 1) * (s + 1));
        if (s + 1) * (s + 1) <= x {
            assert(sqrt_floor(x) == s + 1);
            assert(x < (s + 2) * (s + 2)) by (nonlinear_arith)
                requires x <= (s + 1) * (s + 1),
            ;
            assert(sqrt_floor(x) * sqrt_floor(x) <= x);
            assert(x < (sqrt_floor(x) + 1) * (sqrt_floor(x) + 1));
        } else {
            assert(sqrt_floor(x) == s);
            assert(sqrt_floor(x) * sqrt_floor(x) <= x);
            assert(x < (sqrt_floor(x) + 1) * (sqrt_floor(x) + 1));
        }
    }
}

proof fn lemma_sqrt_floor_unique(x: nat, r: nat)
    requires
        r * r <= x,
        x < (r + 1) * (r + 1),
    ensures
        r == sqrt_floor(x),
{
    lemma_sqrt_floor_bounds(x);
    let s = sqrt_floor(x);
    assert(r == s) by (nonlinear_arith)
        requires
            r * r <= x,
            x < (r + 1) * (r + 1),
            s * s <= x,
            x < (s + 1) * (s + 1),
    ;
}

/// The largest `r: usize` with `r * r <= x`.
fn isqrt(x: usize) -> (r: usize)
    ensures
        r as nat == sqrt_floor(x as nat),
{
    proof {
        assert(x <= u64::MAX);
    }
    let xw = x as u128;
    let mut lo: u128 = 0;
    let mut hi: u128 = xw + 1;
    proof {
        assert(xw < hi * hi) by (nonlinear_arith)
            requires hi == xw + 1,
        ;
    }
    while lo + 1 < hi
        invariant
            lo < hi,
            hi <= xw + 1,
            lo * lo <= xw,
            xw < hi * hi,
            lo <= xw,
            xw == x as nat,
            xw <= u64::MAX,
        decreases hi - lo,
    {
        let mid = lo + (hi - lo) / 2;
        proof {
            assert(mid * mid <= u64::MAX * u64::MAX) by (nonlinear_arith)
                requires mid <= u64::MAX,
            ;
        }
        if mid * mid <= xw {
            proof {
                assert(mid <= mid * mid) by (nonlinear_arith)
                    requires mid >= 1,
                ;
            }
            lo = mid;
        } else {
            hi = mid;
        }
    }
    proof {
        lemma_sqrt_floor_unique(x as nat, lo as nat);
    }
    lo as usize
}

/// Checked exponentiation: `base` to the power `exp`, or the overflow error.
fn pow_checked(base: usize, exp: u32) -> (r: Result<usize, ArithErr>)
    ensures
        pow(base as int, exp as nat) > usize::MAX ==> r == Err::<usize, ArithErr>(ArithErr::PowOverflow),
        pow(base as int, exp as nat) <= usize::MAX ==> r == Ok::<usize, ArithErr>(pow(base as int, exp as nat) as usize),
{
    if base == 0 {
        if exp == 0 {
            proof { vstd::arithmetic::power::lemma_pow0(0); }
            Ok(1)
        } else {
            proof { vstd::arithmetic::power::lemma0_pow(exp as nat); }
            Ok(0)
        }
    } else if base == 1 {
        proof { vstd::arithmetic::power::lemma1_pow(exp as nat); }
        Ok(1)
    } else {
        let mut acc: usize = 1;
        let mut i: u32 = 0;
        proof { vstd::arithmetic::power::lemma_pow0(base as int); }
        while i < exp
            invariant
                base >= 2,
                i <= exp,
                acc == pow(base as int, i as nat),
            decreases exp - i,
        {
            match acc.checked_mul(base) {
                Some(next) => {
                    proof {
                        vstd::arithmetic::power::lemma_pow_adds(base as int, i as nat, 1);
                        vstd::arithmetic::power::lemma_pow1(base as int);
                    }
                    acc = next;
                    i = i + 1;
                },
                None => {
                    proof {
                        vstd::arithmetic::power::lemma_pow_adds(base as int, i as nat, 1);
                        vstd::arithmetic::power::lemma_pow1(base as int);
                        vstd::arithmetic::power::lemma_pow_increases(base as nat, (i + 1) as nat, exp as nat);
                    }
                    return Err(ArithErr::PowOverflow);
                },
            }
        }
        Ok(acc)
    }
}

impl Clone for EsianolopInstruction {
    /// A clone is the same tree.
    fn clone(&self) -> (r: Self)
        ensures
            r == *self,
        decreases *self,
    {
        match self {
            EsianolopInstruction::Nul => EsianolopInstruction::Nul,
            EsianolopInstruction::Add(a, b) => EsianolopInstruction::Add(
                Box::new((**a).clone()),
                Box::new((**b).clone()),
            ),
            EsianolopInstruction::Mul(a, b) => EsianolopInstruction::Mul(
                Box::new((**a).clone()),
                Box::new((**b).clone()),
            ),
            EsianolopInstruction::Sub(a, b) => EsianolopInstruction::Sub(
                Box::new((**a).clone()),
                Box::new((**b).clone()),
            ),
            EsianolopInstruction::Div(a, b) => EsianolopInstruction::Div(
                Box::new((**a).clone()),
                Box::new((**b).clone()),
            ),
            EsianolopInstruction::Pow(a, b) => EsianolopInstruction::Pow(
                Box::new((**a).clone()),
                Box::new((**b).clone()),
            ),
            EsianolopInstruction::Dup(v) => EsianolopInstruction::Dup(*v),
            EsianolopInstruction::DpL(v) => EsianolopInstruction::DpL(*v),
            EsianolopInstruction::DpR(v) => EsianolopInstruction::DpR(*v),
            EsianolopInstruction::Sqr(a) => EsianolopInstruction::Sqr(Box::new((**a).clone())),
            EsianolopInstruction::Num(v) => EsianolopInstruction::Num(*v),
        }
    }
}

impl EsianolopInstruction {
    /// The result of the deferred computation this tree stands for.
    ///
    /// Recursive and pure: calling it twice on the same node gives the same
    /// result, and the tree is never mutated.
    #[verifier::rlimit(60)]
    pub fn execute(&self) -> (r: Result<usize, ArithErr>)
        ensures
            r == eval(*self),
        decreases *self,
    {
        match self {
            EsianolopInstruction::Nul => Ok(0),
            EsianolopInstruction::Num(v) => Ok(*v),
            EsianolopInstruction::Dup(v) => Ok(*v),
            EsianolopInstruction::DpL(v) => Ok(*v),
            EsianolopInstruction::DpR(v) => Ok(*v),
            EsianolopInstruction::Add(a, b) => {
                let x = match a.execute() {
                    Ok(x) => x,
                    Err(e) => { return Err(e); },
                };
                let y = match b.execute() {
                    Ok(y) => y,
                    Err(e) => { return Err(e); },
                };
                match x.checked_add(y) {
                    Some(v) => Ok(v),
                    None => Err(ArithErr::AddOverflow),
                }
            },
            EsianolopInstruction::Sub(a, b) => {
                let x = match a.execute() {
                    Ok(x) => x,
                    Err(e) => { return Err(e); },
                };
                let y = match b.execute() {
                    Ok(y) => y,
                    Err(e) => { return Err(e); },
                };
                match x.checked_sub(y) {
                    Some(v) => Ok(v),
                    None => Err(ArithErr::SubUnderflow),
                }
            },
            EsianolopInstruction::Mul(a, b) => {
                let x = match a.execute() {
                    Ok(x) => x,
                    Err(e) => { return Err(e); },
                };
                let y = match b.execute() {
                    Ok(y) => y,
                    Err(e) => { return Err(e); },
                };
                match x.checked_mul(y) {
                    Some(v) => Ok(v),
                    None => Err(ArithErr::MulOverflow),
                }
            },
            EsianolopInstruction::Div(a, b) => {
                let x = match a.execute() {
                    Ok(x) => x,
                    Err(e) => { return Err(e); },
                };
                let y = match b.execute() {
                    Ok(y) => y,
                    Err(e) => { return Err(e); },
                };
                if y == 0 {
                    Err(ArithErr::DivByZero)
                } else {
                    Ok(x / y)
                }
            },
            EsianolopInstruction::Pow(a, b) => {
                let x = match a.execute() {
                    Ok(x) => x,
                    Err(e) => { return Err(e); },
                };
                let y = match b.execute() {
                    Ok(y) => y,
                    Err(e) => { return Err(e); },
                };
                let e = #[verifier::truncate] (y as u32);
                proof {
                    assert(e as u64 == (y as u64) % 0x1_0000_0000u64) by (bit_vector)
                        requires e == #[verifier::truncate] (y as u32),
                    ;
                    assert(e as nat == pow_exponent(y));
                }
                pow_checked(x, e)
            },
            EsianolopInstruction::Sqr(a) => {
                let x = match a.execute() {
                    Ok(x) => x,
                    Err(e) => { return Err(e); },
                };
                Ok(isqrt(x))
            },
        }
    }
}

} // verus!
