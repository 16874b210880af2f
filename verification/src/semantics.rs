//! The mathematical meaning of an expression: a recursive specification of
//! the left-to-right fold with parenthesized groups, written over `Seq<char>`.

use vstd::prelude::*;

use crate::token::{
    is_whitespace_char, spec_parse, Operand, ADDITION, CLOSE_PAREN, DIVISION, MULTIPLICATION,
    OPEN_PAREN, SUBTRACTION,
};

verus! {

/// Why an evaluation failed.
#[derive(Clone, Copy, PartialEq, Eq, Debug)]
pub enum EvalError {
    /// A character outside the recognized token set was read.
    InvalidCharacter,
    /// The input ended while a parenthesized group was still open.
    UnclosedParenthesis,
    /// An opening parenthesis followed a bare number with no operator
    /// between them, or digits followed a negative parenthesized result.
    MalformedExpression,
    /// A division met a zero operand.
    DivisionByZero,
    /// An intermediate value left the range of the numeric type.
    Overflow,
}

/// The integer a sequence of decimal digits stands for, most significant
/// digit first; the empty sequence stands for zero.
pub open spec fn spec_combine(digits: Seq<u32>) -> int
    decreases digits.len(),
{
    if digits.len() == 0 {
        0
    } else {
        spec_combine(digits.drop_last()) * 10 + digits.last()
    }
}

/// Integer division truncating toward zero, as the `/` of the executable
/// numeric type behaves.
pub open spec fn trunc_div(x: int, d: int) -> int
    recommends
        d != 0,
{
    if x == 0 {
        0
    } else if x > 0 && d > 0 {
        x / d
    } else if x < 0 && d < 0 {
        (x * -1) / (d * -1)
    } else if x < 0 {
        ((x * -1) / d) * -1
    } else {
        (x / (d * -1)) * -1
    }
}

/// `Ok` if the value fits the numeric type, `Err(Overflow)` otherwise.
pub open spec fn in_range(v: int) -> Result<i128, EvalError> {
    if i128::MIN <= v <= i128::MAX {
        Ok(v as i128)
    } else {
        Err(EvalError::Overflow)
    }
}

/// One step of the fold: apply an operator letter to the running result and
/// an operand. Division by zero and results outside the numeric type fail;
/// so does a letter that is no arithmetic operator.
pub open spec fn spec_apply(acc: i128, op: char, x: i128) -> Result<i128, EvalError> {
    if op == ADDITION {
        in_range(acc + x)
    } else if op == SUBTRACTION {
        in_range(acc - x)
    } else if op == MULTIPLICATION {
        in_range(acc * x)
    } else if op == DIVISION {
        if x == 0 {
            Err(EvalError::DivisionByZero)
        } else {
            in_range(trunc_div(acc as int, x as int))
        }
    } else {
        Err(EvalError::MalformedExpression)
    }
}

/// The operand that is due when an operator (or the end of the input) is
/// reached: a parenthesized result carried directly, or the combined digit
/// buffer, which must fit the numeric type.
pub open spec fn spec_finish_operand(buf: Seq<u32>, pv: Option<i128>) -> Result<i128, EvalError> {
    match pv {
        Some(v) => Ok(v),
        None => in_range(spec_combine(buf)),
    }
}

/// The index of the closing parenthesis that brings `depth` back to zero,
/// scanning `s` from `i`; `None` if the input ends first.
pub open spec fn find_close(s: Seq<char>, i: int, depth: int) -> Option<int>
    decreases s.len() - i,
{
    if i < 0 || i >= s.len() {
        None
    } else {
        let d2 = if s[i] == OPEN_PAREN {
            depth + 1
        } else if s[i] == CLOSE_PAREN {
            depth - 1
        } else {
            depth
        };
        if d2 == 0 {
            Some(i)
        } else {
            find_close(s, i + 1, d2)
        }
    }
}

/// The result of evaluating `s` from position `i` onward, out of a state
/// made of the running result `acc`, the digit buffer `buf`, a parenthesized
/// result `pv` not yet consumed, and the pending operator `op`.
pub open spec fn spec_eval_from(
    s: Seq<char>,
    i: int,
    acc: i128,
    buf: Seq<u32>,
    pv: Option<i128>,
    op: char,
) -> Result<i128, EvalError>
    decreases s.len() - i, 0int,
{
    if i < 0 || i >= s.len() {
        match spec_finish_operand(buf, pv) {
            Ok(x) => spec_apply(acc, op, x),
            Err(e) => Err(e),
        }
    } else {
        match spec_parse(s[i]) {
            None => Err(EvalError::InvalidCharacter),
            Some(Operand::Whitespace) => spec_eval_from(s, i + 1, acc, buf, pv, op),
            Some(Operand::Digit(d)) => match pv {
                None => spec_eval_from(s, i + 1, acc, buf.push(d), pv, op),
                Some(v) => if v < 0 {
                    Err(EvalError::MalformedExpression)
                } else if v * 10 + d > i128::MAX {
                    Err(EvalError::Overflow)
                } else {
                    spec_eval_from(s, i + 1, acc, buf, Some((v * 10 + d) as i128), op)
                },
            },
            Some(Operand::Operator(t)) => if t == OPEN_PAREN {
                if buf.len() != 0 || pv is Some {
                    Err(EvalError::MalformedExpression)
                } else {
                    match find_close(s, i + 1, 1) {
                        None => Err(EvalError::UnclosedParenthesis),
                        Some(j) => if i + 1 <= j < s.len() {
                            match spec_eval(s.subrange(i + 1, j)) {
                                Ok(v) => spec_eval_from(s, j + 1, acc, buf, Some(v), op),
                                Err(e) => Err(e),
                            }
                        } else {
                            Err(EvalError::UnclosedParenthesis)
                        },
                    }
                }
            } else if t == CLOSE_PAREN {
                spec_eval_from(s, i + 1, acc, buf, pv, op)
            } else {
                match spec_finish_operand(buf, pv) {
                    Err(e) => Err(e),
                    Ok(x) => match spec_apply(acc, op, x) {
                        Err(e) => Err(e),
                        Ok(r2) => spec_eval_from(s, i + 1, r2, Seq::empty(), None, t),
                    },
                }
            },
        }
    }
}

/// What one evaluator step does with the character at `i - 1`, the cursor
/// already standing at `i`: on success, the new cursor position and the new
/// state (running result, digit buffer, carried group value, pending
/// operator); on failure, the cursor position where the step stops and the
/// error. Whitespace and a stray closing parenthesis change nothing; a digit
/// extends the buffer or the carried group value; an opening parenthesis
/// moves the cursor to just past its matching close and installs the group's
/// value; an arithmetic operator commits the pending one. The cursor moves
/// beyond `i` only in the opening-parenthesis case.
pub open spec fn spec_step(
    s: Seq<char>,
    i: int,
    acc: i128,
    buf: Seq<u32>,
    pv: Option<i128>,
    op: char,
) -> Result<(int, i128, Seq<u32>, Option<i128>, char), (int, EvalError)>
    recommends
        0 <= i < s.len(),
{
    match spec_parse(s[i]) {
        None => Err((i + 1, EvalError::InvalidCharacter)),
        Some(Operand::Whitespace) => Ok((i + 1, acc, buf, pv, op)),
        Some(Operand::Digit(d)) => match pv {
            None => Ok((i + 1, acc, buf.push(d), None, op)),
            Some(v) => if v < 0 {
                Err((i + 1, EvalError::MalformedExpression))
            } else if v * 10 + d > i128::MAX {
                Err((i + 1, EvalError::Overflow))
            } else {
                Ok((i + 1, acc, buf, Some((v * 10 + d) as i128), op))
            },
        },
        Some(Operand::Operator(t)) => if t == OPEN_PAREN {
            if buf.len() != 0 || pv is Some {
                Err((i + 1, EvalError::MalformedExpression))
            } else {
                match find_close(s, i + 1, 1) {
                    None => Err((s.len() as int, EvalError::UnclosedParenthesis)),
                    Some(j) => match spec_eval(s.subrange(i + 1, j)) {
                        Ok(v) => Ok((j + 1, acc, buf, Some(v), op)),
                        Err(e) => Err((j + 1, e)),
                    },
                }
            }
        } else if t == CLOSE_PAREN {
            Ok((i + 1, acc, buf, pv, op))
        } else {
            match spec_finish_operand(buf, pv) {
                Err(e) => Err((i + 1, e)),
                Ok(x) => match spec_apply(acc, op, x) {
                    Err(e) => Err((i + 1, e)),
                    Ok(r2) => Ok((i + 1, r2, Seq::empty(), None, t)),
                },
            }
        },
    }
}

/// The value of a whole expression: the fold started on a zero result, an
/// empty digit buffer, and a pending addition.
pub open spec fn spec_eval(s: Seq<char>) -> Result<i128, EvalError>
    decreases s.len(), 1int,
{
    spec_eval_from(s, 0, 0, Seq::empty(), None, ADDITION)
}

/// A digit sequence never stands for a negative integer.
pub proof fn lemma_combine_nonneg(s: Seq<u32>)
    ensures
        spec_combine(s) >= 0,
    decreases s.len(),
{
    if s.len() == 0 {
    } else {
        lemma_combine_nonneg(s.drop_last());
    }
}

/// Reading one more digit multiplies the value so far by ten and adds it.
pub proof fn lemma_combine_take_step(s: Seq<u32>, i: int)
    requires
        0 <= i < s.len(),
    ensures
        spec_combine(s.take(i + 1)) == spec_combine(s.take(i)) * 10 + s[i],
{
    assert(s.take(i + 1).drop_last() =~= s.take(i));
    assert(s.take(i + 1).last() == s[i]);
}

/// A prefix of a digit sequence stands for at most the whole sequence's value.
pub proof fn lemma_combine_prefix_le(s: Seq<u32>, i: int)
    requires
        0 <= i <= s.len(),
    ensures
        spec_combine(s.take(i)) <= spec_combine(s),
    decreases s.len() - i,
{
    if i == s.len() {
        assert(s.take(i) =~= s);
    } else {
        lemma_combine_take_step(s, i);
        lemma_combine_nonneg(s.take(i));
        lemma_combine_prefix_le(s, i + 1);
    }
}

/// A successful scan stops inside the input, at or after where it started.
pub proof fn lemma_find_close_bounds(s: Seq<char>, i: int, depth: int, j: int)
    requires
        find_close(s, i, depth) == Some(j),
    ensures
        i <= j < s.len(),
    decreases s.len() - i,
{
    if i < 0 || i >= s.len() {
    } else {
        let d2 = if s[i] == OPEN_PAREN {
            depth + 1
        } else if s[i] == CLOSE_PAREN {
            depth - 1
        } else {
            depth
        };
        if d2 == 0 {
        } else {
            lemma_find_close_bounds(s, i + 1, d2, j);
        }
    }
}

} // verus!
