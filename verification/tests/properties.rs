use parser_rs::eval::{combine_digit, compute, process_char, State};
use parser_rs::semantics::EvalError;
use parser_rs::token::Operand;

#[test]
fn parse_classifies_characters() {
    assert_eq!(Operand::parse('7'), Some(Operand::Digit(7)));
    assert_eq!(Operand::parse('0'), Some(Operand::Digit(0)));
    assert_eq!(Operand::parse('a'), Some(Operand::Operator('a')));
    assert_eq!(Operand::parse('b'), Some(Operand::Operator('b')));
    assert_eq!(Operand::parse('c'), Some(Operand::Operator('c')));
    assert_eq!(Operand::parse('d'), Some(Operand::Operator('d')));
    assert_eq!(Operand::parse('e'), Some(Operand::Operator('e')));
    assert_eq!(Operand::parse('f'), Some(Operand::Operator('f')));
    assert_eq!(Operand::parse(' '), Some(Operand::Whitespace));
    assert_eq!(Operand::parse('\t'), Some(Operand::Whitespace));
    assert_eq!(Operand::parse('z'), None);
    assert_eq!(Operand::parse(';'), None);
    assert_eq!(Operand::parse('+'), None);
}

#[test]
fn invalid_character_is_reported() {
    assert_eq!(compute("3 z 4".to_string()), Err(EvalError::InvalidCharacter));
    assert_eq!(compute("!".to_string()), Err(EvalError::InvalidCharacter));
    assert_eq!(compute("3 + 4".to_string()), Err(EvalError::InvalidCharacter));
}

#[test]
fn unclosed_parenthesis_is_reported() {
    assert_eq!(
        compute("e 1 a 2".to_string()),
        Err(EvalError::UnclosedParenthesis)
    );
    assert_eq!(compute("e".to_string()), Err(EvalError::UnclosedParenthesis));
    assert_eq!(
        compute("1 a ee 2 f".to_string()),
        Err(EvalError::UnclosedParenthesis)
    );
}

#[test]
fn division_by_zero_is_reported() {
    assert_eq!(compute("1 d 0".to_string()), Err(EvalError::DivisionByZero));
    assert_eq!(
        compute("5 d e 3 b 3 f".to_string()),
        Err(EvalError::DivisionByZero)
    );
}

#[test]
fn open_parenthesis_after_digits_is_malformed() {
    assert_eq!(
        compute("3 e 4 f".to_string()),
        Err(EvalError::MalformedExpression)
    );
}

#[test]
fn overflow_is_reported() {
    // Forty nines do not fit a 128-bit signed integer.
    assert_eq!(compute("9".repeat(40)), Err(EvalError::Overflow));
}

#[test]
fn division_truncates_toward_zero() {
    assert_eq!(compute("7 d 2".to_string()).unwrap(), 3);
    // 7 / (-2) truncates to -3, it does not round down to -4.
    assert_eq!(compute("7 d e b 2 f".to_string()).unwrap(), -3);
}

#[test]
fn negative_group_result_is_carried() {
    // The original digit round-trip could not represent a negative group
    // result; here the value is carried directly: 1 + (-2) = -1.
    assert_eq!(compute("1 a e b 2 f".to_string()).unwrap(), -1);
    // Digits may not extend a negative group result.
    assert_eq!(
        compute("e b 2 f 3".to_string()),
        Err(EvalError::MalformedExpression)
    );
}

#[test]
fn digits_extend_a_nonnegative_group_result() {
    // (1) followed by the digit 2 reads as the literal 12.
    assert_eq!(compute("e 1 f 2".to_string()).unwrap(), 12);
}

#[test]
fn empty_group_counts_as_zero() {
    assert_eq!(compute("ef".to_string()).unwrap(), 0);
    assert_eq!(compute("5 a ef".to_string()).unwrap(), 5);
}

#[test]
fn whitespace_never_changes_the_result() {
    assert_eq!(
        compute("3a2c4".to_string()).unwrap(),
        compute("  3 a 2 c 4  ".to_string()).unwrap()
    );
    assert_eq!(compute("\t10\na 5 ".to_string()).unwrap(), 15);
    // Whitespace between two digits does not split the number.
    assert_eq!(compute("1 2".to_string()).unwrap(), 12);
}

#[test]
fn invalid_character_inside_group_fails_the_whole_expression() {
    assert_eq!(
        compute("1 a e 2 c x f".to_string()),
        Err(EvalError::InvalidCharacter)
    );
}

#[test]
fn trailing_operator_commits_an_implicit_zero() {
    // The final apply commits the empty digit buffer, which combines to 0.
    assert_eq!(compute("3 a".to_string()).unwrap(), 3);
    assert_eq!(compute("3 b".to_string()).unwrap(), 3);
}

#[test]
fn stray_close_parenthesis_is_a_no_op() {
    assert_eq!(compute("f 3".to_string()).unwrap(), 3);
    assert_eq!(compute("3 f".to_string()).unwrap(), 3);
}

#[test]
fn process_char_commits_pending_operator() {
    let chars: Vec<char> = vec!['3', 'a'];
    let mut state = State {
        result: 0,
        digits_buf: vec![3],
        paren_value: None,
        last_operator: 'a',
    };
    let mut cursor = 2usize;
    let r = process_char(&chars, &mut cursor, 'a', &mut state);
    assert!(r.is_ok());
    assert_eq!(state.result, 3);
    assert_eq!(state.last_operator, 'a');
    assert!(state.digits_buf.is_empty());
    assert_eq!(cursor, 2);
}

#[test]
fn process_char_leaves_state_alone_on_whitespace_and_stray_close() {
    for ch in [' ', 'f'] {
        let chars: Vec<char> = vec!['1', ch, '2'];
        let mut state = State {
            result: 7,
            digits_buf: vec![1],
            paren_value: None,
            last_operator: 'b',
        };
        let mut cursor = 2usize;
        let r = process_char(&chars, &mut cursor, ch, &mut state);
        assert!(r.is_ok());
        assert_eq!(cursor, 2);
        assert_eq!(state.result, 7);
        assert_eq!(state.digits_buf, vec![1]);
        assert_eq!(state.paren_value, None);
        assert_eq!(state.last_operator, 'b');
    }
}

#[test]
fn process_char_appends_a_digit_and_changes_nothing_else() {
    let chars: Vec<char> = vec!['1', '4'];
    let mut state = State {
        result: 3,
        digits_buf: vec![1],
        paren_value: None,
        last_operator: 'c',
    };
    let mut cursor = 2usize;
    let r = process_char(&chars, &mut cursor, '4', &mut state);
    assert!(r.is_ok());
    assert_eq!(cursor, 2);
    assert_eq!(state.result, 3);
    assert_eq!(state.digits_buf, vec![1, 4]);
    assert_eq!(state.paren_value, None);
    assert_eq!(state.last_operator, 'c');
}

#[test]
fn process_char_lands_just_past_the_matched_close() {
    // "a e e 1 f 2 f 9": the group starts after the 'e' at index 1 and its
    // matching close is the 'f' at index 6; the step must leave the cursor
    // at 7, on the '9', with the group's value (1 extended by the digit 2,
    // so 12) installed.
    let chars: Vec<char> = vec!['a', 'e', 'e', '1', 'f', '2', 'f', '9'];
    let mut state = State {
        result: 0,
        digits_buf: vec![],
        paren_value: None,
        last_operator: 'a',
    };
    let mut cursor = 2usize;
    let r = process_char(&chars, &mut cursor, 'e', &mut state);
    assert!(r.is_ok());
    assert_eq!(cursor, 7);
    assert_eq!(state.paren_value, Some(12));
    assert_eq!(state.result, 0);
    assert!(state.digits_buf.is_empty());
    assert_eq!(state.last_operator, 'a');
}

#[test]
fn process_char_leaves_state_alone_on_an_error() {
    // An opening parenthesis right after buffered digits fails, and the
    // state and cursor stay exactly as they were.
    let chars: Vec<char> = vec!['3', 'e', '1', 'f'];
    let mut state = State {
        result: 5,
        digits_buf: vec![3],
        paren_value: None,
        last_operator: 'a',
    };
    let mut cursor = 2usize;
    let r = process_char(&chars, &mut cursor, 'e', &mut state);
    assert_eq!(r, Err(EvalError::MalformedExpression));
    assert_eq!(cursor, 2);
    assert_eq!(state.result, 5);
    assert_eq!(state.digits_buf, vec![3]);
    assert_eq!(state.paren_value, None);
    assert_eq!(state.last_operator, 'a');
}

#[test]
fn process_char_exhausts_the_cursor_on_an_unclosed_group() {
    let chars: Vec<char> = vec!['e', '1', 'a', '2'];
    let mut state = State {
        result: 0,
        digits_buf: vec![],
        paren_value: None,
        last_operator: 'a',
    };
    let mut cursor = 1usize;
    let r = process_char(&chars, &mut cursor, 'e', &mut state);
    assert_eq!(r, Err(EvalError::UnclosedParenthesis));
    assert_eq!(cursor, 4);
    assert_eq!(state.result, 0);
    assert!(state.digits_buf.is_empty());
}

#[test]
fn combine_digit_rejects_values_too_wide() {
    let digits: Vec<u32> = vec![9; 40];
    assert_eq!(combine_digit(&digits), None);
}
