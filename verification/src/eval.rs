//! The executable evaluator: a single left-to-right pass over the characters
//! with recursive descent into parenthesized groups, proved to return exactly
//! what `spec_eval` says.

use vstd::prelude::*;
use vstd::slice::{slice_index_get, slice_subrange};

use crate::semantics::{
    find_close, lemma_combine_nonneg, lemma_combine_prefix_le, lemma_combine_take_step,
    spec_apply, spec_combine, spec_eval, spec_eval_from, spec_finish_operand, spec_step,
    EvalError,
};
use crate::token::{Operand, ADDITION, CLOSE_PAREN, DIVISION, MULTIPLICATION, OPEN_PAREN, SUBTRACTION};

verus! {

/// The mutable state threaded through one evaluation pass: the running
/// result, the digits collected since the last operator, a parenthesized
/// result not yet consumed, and the operator whose application is pending.
pub struct State {
    pub result: i128,
    pub digits_buf: Vec<u32>,
    pub paren_value: Option<i128>,
    pub last_operator: char,
}

/// Well-formedness of an evaluator state: every buffered digit is a decimal
/// digit, and the pending operator is one of the four arithmetic letters.
pub open spec fn wf_state(st: State) -> bool {
    &&& forall|k: int| 0 <= k < st.digits_buf@.len() ==> #[trigger] st.digits_buf@[k] <= 9
    &&& (st.last_operator == ADDITION || st.last_operator == SUBTRACTION
        || st.last_operator == MULTIPLICATION || st.last_operator == DIVISION)
}

/// The step out of state `st`, with the character at `i` already read,
/// succeeds and leaves the cursor at `i2` and the given state parts.
pub open spec fn spec_step_ok(
    s: Seq<char>,
    i: int,
    st: State,
    i2: int,
    res2: i128,
    buf2: Seq<u32>,
    pv2: Option<i128>,
    op2: char,
) -> bool {
    spec_step(s, i, st.result, st.digits_buf@, st.paren_value, st.last_operator) == Ok::<
        _,
        (int, EvalError),
    >((i2, res2, buf2, pv2, op2))
}

/// The step out of state `st`, with the character at `i` already read,
/// stops with the cursor at `i2` and the error `e`.
pub open spec fn spec_step_err(s: Seq<char>, i: int, st: State, i2: int, e: EvalError) -> bool {
    spec_step(s, i, st.result, st.digits_buf@, st.paren_value, st.last_operator) == Err::<
        (int, i128, Seq<u32>, Option<i128>, char),
        _,
    >((i2, e))
}

/// Combine an ordered sequence of decimal digits, most significant first,
/// into the integer they stand for; the empty sequence combines to zero.
/// Returns `None` when the value does not fit the numeric type.
pub fn combine_digit(digits: &[u32]) -> (r: Option<i128>)
    ensures
        match r {
            Some(v) => v as int == spec_combine(digits@) && v >= 0,
            None => spec_combine(digits@) > i128::MAX as int,
        },
{
    let mut res: i128 = 0;
    let mut idx: usize = 0;
    while idx < digits.len()
        invariant
            0 <= idx <= digits@.len(),
            0 <= res,
            res as int == spec_combine(digits@.take(idx as int)),
        decreases digits@.len() - idx,
    {
        let d = *slice_index_get(digits, idx);
        proof {
            lemma_combine_take_step(digits@, idx as int);
            lemma_combine_prefix_le(digits@, idx as int + 1);
        }
        let m = match res.checked_mul(10) {
            Some(m) => m,
            None => {
                return None;
            },
        };
        let res2 = match m.checked_add(d as i128) {
            Some(u) => u,
            None => {
                return None;
            },
        };
        res = res2;
        idx = idx + 1;
    }
    proof {
        assert(digits@.take(digits@.len() as int) =~= digits@);
    }
    Some(res)
}

/// Apply one operator letter to the running result and an operand, exactly
/// as `spec_apply` says.
fn apply_op(acc: i128, op: char, x: i128) -> (r: Result<i128, EvalError>)
    ensures
        r == spec_apply(acc, op, x),
{
    if op == ADDITION {
        match acc.checked_add(x) {
            Some(v) => Ok(v),
            None => Err(EvalError::Overflow),
        }
    } else if op == SUBTRACTION {
        match acc.checked_sub(x) {
            Some(v) => Ok(v),
            None => Err(EvalError::Overflow),
        }
    } else if op == MULTIPLICATION {
        match acc.checked_mul(x) {
            Some(v) => Ok(v),
            None => Err(EvalError::Overflow),
        }
    } else if op == DIVISION {
        if x == 0 {
            Err(EvalError::DivisionByZero)
        } else {
            match acc.checked_div(x) {
                Some(v) => Ok(v),
                None => Err(EvalError::Overflow),
            }
        }
    } else {
        Err(EvalError::MalformedExpression)
    }
}

/// The operand that is due at an operator or at the end of the input.
fn current_operand(state: &State) -> (r: Result<i128, EvalError>)
    ensures
        r == spec_finish_operand(state.digits_buf@, state.paren_value),
{
    match state.paren_value {
        Some(v) => Ok(v),
        None => {
            proof {
                lemma_combine_nonneg(state.digits_buf@);
            }
            match combine_digit(state.digits_buf.as_slice()) {
                Some(v) => Ok(v),
                None => Err(EvalError::Overflow),
            }
        },
    }
}

/// Process one already-read character: skip whitespace, buffer a digit,
/// evaluate a parenthesized group through the shared cursor, or commit the
/// pending operator. The contract pins the step operationally — `spec_step`
/// fixes the new cursor and every field of the new state, and on an error
/// the state is left untouched — and states that the meaning of the
/// remaining input out of the old state equals the meaning out of the new
/// one.
#[verifier::loop_isolation(false)]
pub fn process_char(chars: &[char], cursor: &mut usize, input_char: char, state: &mut State) -> (r:
    Result<(), EvalError>)
    requires
        1 <= *old(cursor) <= chars@.len(),
        input_char == chars@[*old(cursor) - 1],
    ensures
        match r {
            Ok(()) => {
                &&& *old(cursor) <= *final(cursor) <= chars@.len()
                &&& spec_step_ok(
                    chars@,
                    *old(cursor) - 1,
                    *old(state),
                    *final(cursor) as int,
                    final(state).result,
                    final(state).digits_buf@,
                    final(state).paren_value,
                    final(state).last_operator,
                )
                &&& spec_eval_from(
                    chars@,
                    *old(cursor) - 1,
                    old(state).result,
                    old(state).digits_buf@,
                    old(state).paren_value,
                    old(state).last_operator,
                ) == spec_eval_from(
                    chars@,
                    *final(cursor) as int,
                    final(state).result,
                    final(state).digits_buf@,
                    final(state).paren_value,
                    final(state).last_operator,
                )
            },
            Err(e) => {
                &&& spec_step_err(chars@, *old(cursor) - 1, *old(state), *final(cursor) as int, e)
                &&& final(state).result == old(state).result
                &&& final(state).digits_buf@ == old(state).digits_buf@
                &&& final(state).paren_value == old(state).paren_value
                &&& final(state).last_operator == old(state).last_operator
                &&& spec_eval_from(
                    chars@,
                    *old(cursor) - 1,
                    old(state).result,
                    old(state).digits_buf@,
                    old(state).paren_value,
                    old(state).last_operator,
                ) == Err::<i128, EvalError>(e)
            },
        },
        wf_state(*old(state)) && r is Ok ==> wf_state(*final(state)),
    decreases chars@.len(), 0int,
{
    match Operand::parse(input_char) {
        None => Err(EvalError::InvalidCharacter),
        Some(Operand::Whitespace) => Ok(()),
        Some(Operand::Digit(d)) => {
            match state.paren_value {
                None => {
                    state.digits_buf.push(d);
                    Ok(())
                },
                Some(v) => {
                    if v < 0 {
                        Err(EvalError::MalformedExpression)
                    } else {
                        match v.checked_mul(10) {
                            None => Err(EvalError::Overflow),
                            Some(m) => match m.checked_add(d as i128) {
                                None => Err(EvalError::Overflow),
                                Some(nv) => {
                                    state.paren_value = Some(nv);
                                    Ok(())
                                },
                            },
                        }
                    }
                },
            }
        },
        Some(Operand::Operator(t)) => {
            if t == OPEN_PAREN {
                if state.digits_buf.len() > 0 || state.paren_value.is_some() {
                    return Err(EvalError::MalformedExpression);
                }
                let start = *cursor;
                let mut depth: usize = 1;
                while depth != 0
                    invariant
                        start == *old(cursor),
                        start <= *cursor <= chars@.len(),
                        depth <= *cursor - start + 1,
                        depth == 0 ==> *cursor >= start + 1 && find_close(chars@, start as int, 1)
                            == Some(*cursor - 1),
                        depth != 0 ==> find_close(chars@, start as int, 1) == find_close(
                            chars@,
                            *cursor as int,
                            depth as int,
                        ),
                    decreases chars@.len() - *cursor,
                {
                    if *cursor == chars.len() {
                        proof {
                            assert(find_close(chars@, *cursor as int, depth as int) is None);
                        }
                        return Err(EvalError::UnclosedParenthesis);
                    }
                    let c2 = *slice_index_get(chars, *cursor);
                    *cursor = *cursor + 1;
                    if c2 == OPEN_PAREN {
                        depth = depth + 1;
                    } else if c2 == CLOSE_PAREN {
                        depth = depth - 1;
                    }
                }
                let sub = slice_subrange(chars, start, *cursor - 1);
                match eval_chars(sub) {
                    Ok(v) => {
                        state.paren_value = Some(v);
                        Ok(())
                    },
                    Err(e) => Err(e),
                }
            } else if t == CLOSE_PAREN {
                Ok(())
            } else {
                let x = match current_operand(state) {
                    Ok(x) => x,
                    Err(e) => {
                        return Err(e);
                    },
                };
                let r2 = match apply_op(state.result, state.last_operator, x) {
                    Ok(v) => v,
                    Err(e) => {
                        return Err(e);
                    },
                };
                state.result = r2;
                state.digits_buf = Vec::new();
                state.paren_value = None;
                state.last_operator = t;
                Ok(())
            }
        },
    }
}

/// Evaluate a whole character sequence: drive `process_char` over the input
/// and commit the last pending operator at the end.
#[verifier::loop_isolation(false)]
pub fn eval_chars(chars: &[char]) -> (r: Result<i128, EvalError>)
    ensures
        r == spec_eval(chars@),
    decreases chars@.len(), 1int,
{
    let mut state = State {
        result: 0,
        digits_buf: Vec::new(),
        paren_value: None,
        last_operator: ADDITION,
    };
    let mut cursor: usize = 0;
    while cursor < chars.len()
        invariant
            cursor <= chars@.len(),
            spec_eval(chars@) == spec_eval_from(
                chars@,
                cursor as int,
                state.result,
                state.digits_buf@,
                state.paren_value,
                state.last_operator,
            ),
        decreases chars@.len() - cursor,
    {
        let c = *slice_index_get(chars, cursor);
        cursor = cursor + 1;
        let res = process_char(chars, &mut cursor, c, &mut state);
        match res {
            Ok(()) => {},
            Err(e) => {
                return Err(e);
            },
        }
    }
    let x = match current_operand(&state) {
        Ok(x) => x,
        Err(e) => {
            return Err(e);
        },
    };
    apply_op(state.result, state.last_operator, x)
}

/// Relies on `str::chars`: yields exactly the characters of the string, in
/// order, which is what the string's view holds.
#[verifier::external_body]
fn chars_of(s: &str) -> (r: Vec<char>)
    ensures
        r@ == s@,
{
    s.chars().collect()
}

/// Evaluate an expression given as text. Returns exactly what `spec_eval`
/// says of the text's characters: the folded numeric result, or the error
/// the input runs into first.
pub fn compute(raw_expression: String) -> (r: Result<i128, EvalError>)
    ensures
        r == spec_eval(raw_expression@),
{
    let chars = chars_of(raw_expression.as_str());
    eval_chars(chars.as_slice())
}

} // verus!
