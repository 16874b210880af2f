use parser_rs::eval::{combine_digit, compute};

#[test]
fn assignment_test() {
    // 3 + 2 * 4 = 5*4 = 20
    assert_eq!(compute("3a2c4".to_string()).unwrap(), 20);
    // 32 + 2 / 2 = 34/2 = 17
    assert_eq!(compute("32a2d2".to_string()).unwrap(), 17);
    // 500 + 10 - 66 * 32 = 510-66*32 = 444*32 = 14208
    assert_eq!(compute("500a10b66c32".to_string()).unwrap(), 14208);
    // 3 + (4 * 66) - 32 = 3+264-32 = 267-32 = 235
    assert_eq!(compute("3ae4c66fb32".to_string()).unwrap(), 235);

    // 3 * 4 / 2 + ((2 + 4 * 41) * 4)
    // = 12/2+((2+4*41)*4) = 6+(246*4)
    // = 6+984 = 990
    assert_eq!(compute("3c4d2aee2a4c41fc4f".to_string()).unwrap(), 990);
}

#[test]
fn empty_string() {
    assert_eq!(compute("".to_string()).unwrap(), 0);
}

#[test]
fn single_expression() {
    assert_eq!(compute("9".to_string()).unwrap(), 9);
    assert_eq!(compute(" 0 ".to_string()).unwrap(), 0);
}

#[test]
fn two_expression() {
    // 9 - 9 = 0
    assert_eq!(compute("9 b 9".to_string()).unwrap(), 0);
    // 9 + 9 = 18
    assert_eq!(compute("9 a 9".to_string()).unwrap(), 18);
    // 5 * 4 = 20
    assert_eq!(compute("5 c 4".to_string()).unwrap(), 20);
    // 100 / 10 10
    assert_eq!(compute("100 d 10".to_string()).unwrap(), 10);
}

#[test]
fn multi_expression() {
    // 9 - 9 * 10 = 0 * 10 = 0
    assert_eq!(compute("9 b 9 c 10".to_string()).unwrap(), 0);
    // 10 + 10 - 10 * 10 / 10 = 20-10*10/10 = 10*10/10 = 100/10 = 10
    assert_eq!(compute("10 a 10 b 10 c 10 d 10".to_string()).unwrap(), 10);
}

#[test]
fn can_start_with_operator() {
    // - 10 + 50 = 0 - 10 + 50 = -10 + 50 = 40
    assert_eq!(compute("b 10 a 50".to_string()).unwrap(), 40);
}

#[test]
fn parenthesis_emphasize() {
    // 10 + 5 * 3 - 1 = 15*3-1 = 45-1 = 44
    assert_eq!(compute("10 a 5 c 3 b 1".to_string()).unwrap(), 44);
    // 10 + (5*3) - 1 = 10+15-1 = 25-1 = 24
    assert_eq!(compute("10 a e 5 c 3 b 1 f".to_string()).unwrap(), 24);
    // 10 + ( 5 * (3 - 1) ) - (10 - 5) + 5 = 10+(5*2)-(10-5)+5 = 10+10-(10-5)+5
    // = 10+10-5+5 = 20-5+5 = 15+5 = 20
    assert_eq!(
        compute("10 a e5 c e3 b 1 ff b e 10 b 5f a 5".to_string()).unwrap(),
        20
    );
}

#[test]
fn test_combine_digit() {
    assert_eq!(combine_digit(&[]), Some(0));
    assert_eq!(combine_digit(&[9]), Some(9));
    assert_eq!(combine_digit(&[1, 2]), Some(12));
    assert_eq!(combine_digit(&[9, 8, 6, 6]), Some(9866));
}
