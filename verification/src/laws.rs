//! General properties of the evaluator, stated over the specification and
//! proved once for all inputs.

use vstd::prelude::*;

use crate::semantics::{
    find_close, in_range, lemma_combine_nonneg, spec_apply, spec_combine, spec_eval,
    spec_eval_from, spec_finish_operand, EvalError,
};
use crate::token::{spec_parse, Operand, ADDITION, CLOSE_PAREN, DIVISION, OPEN_PAREN};

verus! {

/// The empty expression evaluates to zero: the initial pending addition is
/// applied to an empty digit buffer, which combines to zero.
pub proof fn lemma_empty_evaluates_to_zero()
    ensures
        spec_eval(Seq::<char>::empty()) == Ok::<i128, EvalError>(0),
{
    let s = Seq::<char>::empty();
    assert(spec_eval(s) == spec_eval_from(s, 0, 0, Seq::empty(), None, ADDITION));
    assert(spec_combine(Seq::<u32>::empty()) == 0);
    assert(spec_finish_operand(Seq::empty(), None) == Ok::<i128, EvalError>(0));
    assert(spec_apply(0, ADDITION, 0) == Ok::<i128, EvalError>(0));
}

/// Whether every character of the sequence is a decimal digit.
pub open spec fn all_digit_chars(s: Seq<char>) -> bool {
    forall|k: int| 0 <= k < s.len() ==> '0' <= #[trigger] s[k] <= '9'
}

/// The digit values of a sequence of digit characters, in order.
pub open spec fn digit_values(s: Seq<char>) -> Seq<u32> {
    s.map(|_k: int, c: char| (c as u32 - '0' as u32) as u32)
}

proof fn lemma_literal_from(s: Seq<char>, i: int, buf: Seq<u32>)
    requires
        all_digit_chars(s),
        0 <= i <= s.len(),
    ensures
        spec_eval_from(s, i, 0, buf, None, ADDITION) == in_range(
            spec_combine(buf + digit_values(s).skip(i)),
        ),
    decreases s.len() - i,
{
    if i == s.len() {
        assert(buf + digit_values(s).skip(i) =~= buf);
        lemma_combine_nonneg(buf);
    } else {
        let d = (s[i] as u32 - '0' as u32) as u32;
        assert(spec_parse(s[i]) == Some(Operand::Digit(d)));
        lemma_literal_from(s, i + 1, buf.push(d));
        assert(buf.push(d) + digit_values(s).skip(i + 1) =~= buf + digit_values(s).skip(i));
    }
}

/// A bare literal number, a nonempty run of digits with no operators,
/// evaluates to exactly the integer its digits stand for, whenever that
/// integer fits the numeric type.
pub proof fn lemma_literal_value(s: Seq<char>)
    requires
        all_digit_chars(s),
        spec_combine(digit_values(s)) <= i128::MAX,
    ensures
        spec_eval(s) == Ok::<i128, EvalError>(spec_combine(digit_values(s)) as i128),
{
    lemma_literal_from(s, 0, Seq::empty());
    assert(Seq::empty() + digit_values(s).skip(0) =~= digit_values(s));
    lemma_combine_nonneg(digit_values(s));
}

/// An index into a sequence, corrected for one insertion at position `k`:
/// positions before `k` stay, positions at or after `k` move right by one.
spec fn shifted(o: Option<int>, k: int) -> Option<int> {
    match o {
        None => None,
        Some(j) => if j < k {
            Some(j)
        } else {
            Some(j + 1)
        },
    }
}

proof fn lemma_ws_find_close_after(s: Seq<char>, k: int, c: char, i: int, d: int)
    requires
        0 <= k <= i <= s.len(),
        d != 0,
        spec_parse(c) == Some(Operand::Whitespace),
    ensures
        find_close(s.insert(k, c), i + 1, d) == shifted(find_close(s, i, d), k),
    decreases s.len() - i, 0int,
{
    let t = s.insert(k, c);
    s.insert_ensures(k, c);
    if i == s.len() {
    } else {
        assert(t[i + 1] == s[i]);
        let d2 = if s[i] == OPEN_PAREN {
            d + 1
        } else if s[i] == CLOSE_PAREN {
            d - 1
        } else {
            d
        };
        if d2 == 0 {
        } else {
            lemma_ws_find_close_after(s, k, c, i + 1, d2);
        }
    }
}

proof fn lemma_ws_find_close_before(s: Seq<char>, k: int, c: char, i: int, d: int)
    requires
        0 <= i <= k <= s.len(),
        d != 0,
        spec_parse(c) == Some(Operand::Whitespace),
    ensures
        find_close(s.insert(k, c), i, d) == shifted(find_close(s, i, d), k),
    decreases s.len() - i, 1int,
{
    let t = s.insert(k, c);
    s.insert_ensures(k, c);
    if i == k {
        assert(t[i] == c);
        assert(c != OPEN_PAREN && c != CLOSE_PAREN);
        lemma_ws_find_close_after(s, k, c, i, d);
    } else {
        assert(t[i] == s[i]);
        let d2 = if s[i] == OPEN_PAREN {
            d + 1
        } else if s[i] == CLOSE_PAREN {
            d - 1
        } else {
            d
        };
        if d2 == 0 {
        } else {
            lemma_ws_find_close_before(s, k, c, i + 1, d2);
        }
    }
}

#[verifier::rlimit(100)]
proof fn lemma_ws_eval_after(
    s: Seq<char>,
    k: int,
    c: char,
    i: int,
    acc: i128,
    buf: Seq<u32>,
    pv: Option<i128>,
    op: char,
)
    requires
        0 <= k <= i <= s.len(),
        spec_parse(c) == Some(Operand::Whitespace),
    ensures
        spec_eval_from(s.insert(k, c), i + 1, acc, buf, pv, op) == spec_eval_from(
            s,
            i,
            acc,
            buf,
            pv,
            op,
        ),
    decreases s.len(), s.len() - i, 0int,
{
    let t = s.insert(k, c);
    s.insert_ensures(k, c);
    if i == s.len() {
    } else {
        assert(t[i + 1] == s[i]);
        match spec_parse(s[i]) {
            None => {},
            Some(Operand::Whitespace) => {
                lemma_ws_eval_after(s, k, c, i + 1, acc, buf, pv, op);
            },
            Some(Operand::Digit(d)) => {
                match pv {
                    None => {
                        lemma_ws_eval_after(s, k, c, i + 1, acc, buf.push(d), pv, op);
                    },
                    Some(v) => {
                        if v < 0 {
                        } else if v * 10 + d > i128::MAX {
                        } else {
                            lemma_ws_eval_after(
                                s,
                                k,
                                c,
                                i + 1,
                                acc,
                                buf,
                                Some((v * 10 + d) as i128),
                                op,
                            );
                        }
                    },
                }
            },
            Some(Operand::Operator(letter)) => {
                if letter == OPEN_PAREN {
                    if buf.len() != 0 || pv is Some {
                    } else {
                        lemma_ws_find_close_after(s, k, c, i + 1, 1);
                        match find_close(s, i + 1, 1) {
                            None => {},
                            Some(j) => {
                                crate::semantics::lemma_find_close_bounds(s, i + 1, 1, j);
                                assert(t.subrange(i + 2, j + 1) =~= s.subrange(i + 1, j));
                                match spec_eval(s.subrange(i + 1, j)) {
                                    Ok(v) => {
                                        lemma_ws_eval_after(s, k, c, j + 1, acc, buf, Some(v), op);
                                    },
                                    Err(_) => {},
                                }
                            },
                        }
                    }
                } else if letter == CLOSE_PAREN {
                    lemma_ws_eval_after(s, k, c, i + 1, acc, buf, pv, op);
                } else {
                    match spec_finish_operand(buf, pv) {
                        Err(_) => {},
                        Ok(x) => match spec_apply(acc, op, x) {
                            Err(_) => {},
                            Ok(r2) => {
                                lemma_ws_eval_after(s, k, c, i + 1, r2, Seq::empty(), None, letter);
                            },
                        },
                    }
                }
            },
        }
    }
}

#[verifier::rlimit(100)]
proof fn lemma_ws_eval_before(
    s: Seq<char>,
    k: int,
    c: char,
    i: int,
    acc: i128,
    buf: Seq<u32>,
    pv: Option<i128>,
    op: char,
)
    requires
        0 <= i <= k <= s.len(),
        spec_parse(c) == Some(Operand::Whitespace),
    ensures
        spec_eval_from(s.insert(k, c), i, acc, buf, pv, op) == spec_eval_from(
            s,
            i,
            acc,
            buf,
            pv,
            op,
        ),
    decreases s.len(), s.len() - i, 1int,
{
    let t = s.insert(k, c);
    s.insert_ensures(k, c);
    if i == k {
        assert(t[i] == c);
        lemma_ws_eval_after(s, k, c, i, acc, buf, pv, op);
    } else {
        assert(t[i] == s[i]);
        match spec_parse(s[i]) {
            None => {},
            Some(Operand::Whitespace) => {
                lemma_ws_eval_before(s, k, c, i + 1, acc, buf, pv, op);
            },
            Some(Operand::Digit(d)) => {
                match pv {
                    None => {
                        lemma_ws_eval_before(s, k, c, i + 1, acc, buf.push(d), pv, op);
                    },
                    Some(v) => {
                        if v < 0 {
                        } else if v * 10 + d > i128::MAX {
                        } else {
                            lemma_ws_eval_before(
                                s,
                                k,
                                c,
                                i + 1,
                                acc,
                                buf,
                                Some((v * 10 + d) as i128),
                                op,
                            );
                        }
                    },
                }
            },
            Some(Operand::Operator(letter)) => {
                if letter == OPEN_PAREN {
                    if buf.len() != 0 || pv is Some {
                    } else {
                        lemma_ws_find_close_before(s, k, c, i + 1, 1);
                        match find_close(s, i + 1, 1) {
                            None => {},
                            Some(j) => {
                                crate::semantics::lemma_find_close_bounds(s, i + 1, 1, j);
                                if j < k {
                                    assert(t.subrange(i + 1, j) =~= s.subrange(i + 1, j));
                                    match spec_eval(s.subrange(i + 1, j)) {
                                        Ok(v) => {
                                            lemma_ws_eval_before(
                                                s,
                                                k,
                                                c,
                                                j + 1,
                                                acc,
                                                buf,
                                                Some(v),
                                                op,
                                            );
                                        },
                                        Err(_) => {},
                                    }
                                } else {
                                    let sub = s.subrange(i + 1, j);
                                    let ksub = k - (i + 1);
                                    sub.insert_ensures(ksub, c);
                                    assert(t.subrange(i + 1, j + 1) =~= sub.insert(ksub, c));
                                    assert(find_close(t, i + 1, 1) == Some(j + 1));
                                    lemma_ws_eval_before(
                                        sub,
                                        ksub,
                                        c,
                                        0,
                                        0,
                                        Seq::empty(),
                                        None,
                                        ADDITION,
                                    );
                                    assert(spec_eval(sub.insert(ksub, c)) == spec_eval_from(
                                        sub.insert(ksub, c),
                                        0,
                                        0,
                                        Seq::empty(),
                                        None,
                                        ADDITION,
                                    ));
                                    assert(spec_eval(sub) == spec_eval_from(
                                        sub,
                                        0,
                                        0,
                                        Seq::empty(),
                                        None,
                                        ADDITION,
                                    ));
                                    assert(spec_eval(t.subrange(i + 1, j + 1)) == spec_eval(sub));
                                    match spec_eval(sub) {
                                        Ok(v) => {
                                            lemma_ws_eval_after(s, k, c, j + 1, acc, buf, Some(v), op);
                                            assert(spec_eval_from(t, i, acc, buf, pv, op)
                                                == spec_eval_from(t, j + 2, acc, buf, Some(v), op));
                                            assert(spec_eval_from(t, i, acc, buf, pv, op) == spec_eval_from(s, i, acc, buf, pv, op));
                                        },
                                        Err(_) => {},
                                    }
                                }
                            },
                        }
                    }
                } else if letter == CLOSE_PAREN {
                    lemma_ws_eval_before(s, k, c, i + 1, acc, buf, pv, op);
                } else {
                    match spec_finish_operand(buf, pv) {
                        Err(_) => {},
                        Ok(x) => match spec_apply(acc, op, x) {
                            Err(_) => {},
                            Ok(r2) => {
                                lemma_ws_eval_before(s, k, c, i + 1, r2, Seq::empty(), None, letter);
                            },
                        },
                    }
                }
            },
        }
    }
}

/// Whitespace insensitivity: inserting a whitespace character at any
/// position of an expression does not change its result.
pub proof fn lemma_whitespace_insensitive(s: Seq<char>, k: int, c: char)
    requires
        0 <= k <= s.len(),
        spec_parse(c) == Some(Operand::Whitespace),
    ensures
        spec_eval(s.insert(k, c)) == spec_eval(s),
{
    lemma_ws_eval_before(s, k, c, 0, 0, Seq::empty(), None, ADDITION);
}

/// The other direction of whitespace insensitivity: removing a whitespace
/// character from any position of an expression does not change its result.
pub proof fn lemma_whitespace_removal(s: Seq<char>, k: int)
    requires
        0 <= k < s.len(),
        spec_parse(s[k]) == Some(Operand::Whitespace),
    ensures
        spec_eval(s.remove(k)) == spec_eval(s),
{
    let shorter = s.remove(k);
    s.remove_ensures(k);
    shorter.insert_ensures(k, s[k]);
    assert(shorter.insert(k, s[k]) =~= s);
    lemma_whitespace_insensitive(shorter, k, s[k]);
}

/// Applying the division operator to a zero operand fails as
/// `DivisionByZero`, whatever the running result is; no number is returned.
pub proof fn lemma_division_by_zero(acc: i128)
    ensures
        spec_apply(acc, DIVISION, 0) == Err::<i128, EvalError>(EvalError::DivisionByZero),
{
}

/// A scan that starts at a positive depth stops on a closing parenthesis.
proof fn lemma_find_close_closes(s: Seq<char>, i: int, d: int, j: int)
    requires
        find_close(s, i, d) == Some(j),
        d >= 1,
    ensures
        s[j] == CLOSE_PAREN,
    decreases s.len() - i,
{
    if i < 0 || i >= s.len() {
    } else {
        let d2 = if s[i] == OPEN_PAREN {
            d + 1
        } else if s[i] == CLOSE_PAREN {
            d - 1
        } else {
            d
        };
        if d2 == 0 {
        } else {
            lemma_find_close_closes(s, i + 1, d2, j);
        }
    }
}

proof fn lemma_ok_from(s: Seq<char>, i: int, acc: i128, buf: Seq<u32>, pv: Option<i128>, op: char)
    requires
        0 <= i <= s.len(),
        spec_eval_from(s, i, acc, buf, pv, op) is Ok,
    ensures
        forall|k: int| i <= k < s.len() ==> (#[trigger] spec_parse(s[k])) is Some,
    decreases s.len(), s.len() - i,
{
    if i == s.len() {
    } else {
        match spec_parse(s[i]) {
            None => {},
            Some(Operand::Whitespace) => {
                lemma_ok_from(s, i + 1, acc, buf, pv, op);
            },
            Some(Operand::Digit(d)) => {
                match pv {
                    None => {
                        lemma_ok_from(s, i + 1, acc, buf.push(d), pv, op);
                    },
                    Some(v) => {
                        if 0 <= v && v * 10 + d <= i128::MAX {
                            lemma_ok_from(s, i + 1, acc, buf, Some((v * 10 + d) as i128), op);
                        }
                    },
                }
            },
            Some(Operand::Operator(letter)) => {
                if letter == OPEN_PAREN {
                    if buf.len() == 0 && pv is None {
                        match find_close(s, i + 1, 1) {
                            None => {},
                            Some(j) => {
                                crate::semantics::lemma_find_close_bounds(s, i + 1, 1, j);
                                lemma_find_close_closes(s, i + 1, 1, j);
                                let sub = s.subrange(i + 1, j);
                                match spec_eval(sub) {
                                    Ok(v) => {
                                        lemma_ok_from(sub, 0, 0, Seq::empty(), None, ADDITION);
                                        assert forall|k: int|
                                            i + 1 <= k < j implies (#[trigger] spec_parse(
                                            s[k],
                                        )) is Some by {
                                            assert(sub[k - (i + 1)] == s[k]);
                                        }
                                        lemma_ok_from(s, j + 1, acc, buf, Some(v), op);
                                    },
                                    Err(_) => {},
                                }
                            },
                        }
                    }
                } else if letter == CLOSE_PAREN {
                    lemma_ok_from(s, i + 1, acc, buf, pv, op);
                } else {
                    match spec_finish_operand(buf, pv) {
                        Err(_) => {},
                        Ok(x) => match spec_apply(acc, op, x) {
                            Err(_) => {},
                            Ok(r2) => {
                                lemma_ok_from(s, i + 1, r2, Seq::empty(), None, letter);
                            },
                        },
                    }
                }
            },
        }
    }
}

/// Success never silently skips an unrecognized character: when an
/// expression evaluates to a number, every one of its characters is a
/// recognized token.
pub proof fn lemma_success_reads_every_character(s: Seq<char>)
    requires
        spec_eval(s) is Ok,
    ensures
        forall|k: int| 0 <= k < s.len() ==> (#[trigger] spec_parse(s[k])) is Some,
{
    lemma_ok_from(s, 0, 0, Seq::empty(), None, ADDITION);
}

/// An input whose first character lies outside the recognized token set
/// fails as `InvalidCharacter`.
pub proof fn lemma_leading_invalid_character(s: Seq<char>)
    requires
        s.len() > 0,
        spec_parse(s[0]) is None,
    ensures
        spec_eval(s) == Err::<i128, EvalError>(EvalError::InvalidCharacter),
{
}

/// An opening parenthesis that the rest of the input never closes fails as
/// `UnclosedParenthesis`.
pub proof fn lemma_unmatched_open(s: Seq<char>)
    requires
        s.len() > 0,
        s[0] == OPEN_PAREN,
        find_close(s, 1, 1) is None,
    ensures
        spec_eval(s) == Err::<i128, EvalError>(EvalError::UnclosedParenthesis),
{
    assert(spec_parse(s[0]) == Some(Operand::Operator(OPEN_PAREN)));
}

} // verus!
