use interpreter::error::{Error, Interrupt};
use interpreter::evaluator::{apply, index_value, Environment};
use interpreter::expr_tokenizer::{check_remaining_cases, classify_captures, unescape, BinaryOp, ExprToken};
use interpreter::host::{Answers, NumOp, Reply, Request};
use interpreter::number::{
    equal_bits, is_nan_bits, less_bits, less_or_equal_bits, negate_bits, to_index,
};
use interpreter::text::{chars_of, find_char, is_digit_char, is_space_char, same_text, trim};
use interpreter::val::{arithmetic, Val};

fn number(x: f64) -> Val {
    Val::Number(x.to_bits())
}

fn bits(x: f64) -> u64 {
    x.to_bits()
}

#[test]
fn doubles_are_compared_by_their_bits() {
    let values = [
        f64::NEG_INFINITY,
        -1.0e300,
        -2.5,
        -1.0,
        -f64::MIN_POSITIVE,
        -5e-324,
        -0.0,
        0.0,
        5e-324,
        f64::MIN_POSITIVE,
        0.1,
        1.0,
        1.0000000000000002,
        2.5,
        1.0e300,
        f64::INFINITY,
        f64::NAN,
        -f64::NAN,
    ];
    for x in values {
        for y in values {
            assert_eq!(equal_bits(bits(x), bits(y)), x == y, "{x} == {y}");
            assert_eq!(less_bits(bits(x), bits(y)), x < y, "{x} < {y}");
            assert_eq!(less_or_equal_bits(bits(x), bits(y)), x <= y, "{x} <= {y}");
        }
        assert_eq!(is_nan_bits(bits(x)), x.is_nan());
        assert_eq!(negate_bits(bits(x)), bits(-x));
    }
}

#[test]
fn the_whole_part_of_a_double_is_its_index() {
    assert_eq!(to_index(bits(0.0)), Some(0));
    assert_eq!(to_index(bits(-0.0)), Some(0));
    assert_eq!(to_index(bits(0.999)), Some(0));
    assert_eq!(to_index(bits(-0.999)), Some(0));
    assert_eq!(to_index(bits(5e-324)), Some(0));
    assert_eq!(to_index(bits(1.0)), Some(1));
    assert_eq!(to_index(bits(1.5)), Some(1));
    assert_eq!(to_index(bits(2.0)), Some(2));
    assert_eq!(to_index(bits(2.999999)), Some(2));
    assert_eq!(to_index(bits(1234567.89)), Some(1234567));
    assert_eq!(to_index(bits(4503599627370496.0)), Some(4503599627370496));
    assert_eq!(to_index(bits(9007199254740993.0)), Some(9007199254740992));
    assert_eq!(to_index(bits(9223372036854775808.0)), Some(9223372036854775808));
    assert_eq!(to_index(bits(18446744073709549568.0)), Some(18446744073709549568));
    assert_eq!(to_index(bits(18446744073709551616.0)), None);
    assert_eq!(to_index(bits(1.0e300)), None);
    assert_eq!(to_index(bits(-1.0)), None);
    assert_eq!(to_index(bits(-1.5)), None);
    assert_eq!(to_index(bits(-1.0e300)), None);
    assert_eq!(to_index(bits(f64::INFINITY)), None);
    assert_eq!(to_index(bits(f64::NEG_INFINITY)), None);
    assert_eq!(to_index(bits(f64::NAN)), None);
    for i in 0..2000usize {
        assert_eq!(to_index(bits(i as f64)), Some(i));
        assert_eq!(to_index(bits(i as f64 + 0.75)), Some(i));
    }
    assert_eq!(index_value(&number(3.9)), Ok(3));
    assert_eq!(index_value(&number(-3.9)), Err(Error::IndexOutOfRange));
    assert_eq!(index_value(&Val::Null), Err(Error::TypeMismatch));
    assert_eq!(index_value(&Val::Str("1".to_string())), Err(Error::TypeMismatch));
}

#[test]
fn arithmetic_is_the_host_s_answer() {
    let mut host = Answers::new();
    assert_eq!(
        arithmetic(NumOp::Mul, 2, 3, &host),
        Err(Interrupt::Ask(Request::Arith(NumOp::Mul, 2, 3)))
    );
    host.record(Request::Arith(NumOp::Mul, 2, 3), Reply::Number(77));
    assert_eq!(arithmetic(NumOp::Mul, 2, 3, &host), Ok(Val::Number(77)));
    assert_eq!(
        arithmetic(NumOp::Mul, 3, 2, &host),
        Err(Interrupt::Ask(Request::Arith(NumOp::Mul, 3, 2)))
    );
    assert_eq!(
        arithmetic(NumOp::Div, 2, 3, &host),
        Err(Interrupt::Ask(Request::Arith(NumOp::Div, 2, 3)))
    );
    // an answer of the wrong kind is no answer
    host.record(Request::Arith(NumOp::Div, 2, 3), Reply::Text("x".to_string()));
    assert_eq!(
        arithmetic(NumOp::Div, 2, 3, &host),
        Err(Interrupt::Ask(Request::Arith(NumOp::Div, 2, 3)))
    );
    assert_eq!(
        Val::Number(2).sub(Val::Number(3), &host),
        Err(Interrupt::Ask(Request::Arith(NumOp::Sub, 2, 3)))
    );
    assert_eq!(Val::Number(2).mul(Val::Number(3), &host), Ok(Val::Number(77)));
    assert_eq!(
        Val::Number(2).rem(Val::Number(3), &host),
        Err(Interrupt::Ask(Request::Arith(NumOp::Rem, 2, 3)))
    );
    assert_eq!(
        Val::Number(2).add(Val::Number(3), &host),
        Err(Interrupt::Ask(Request::Arith(NumOp::Add, 2, 3)))
    );
    assert_eq!(
        Val::Number(2).div(Val::Bool(true), &host),
        Err(Interrupt::Fail(Error::TypeMismatch))
    );
    assert_eq!(
        apply(BinaryOp::Mul, Val::Number(2), Val::Number(3), &host),
        Ok(Val::Number(77))
    );
    assert_eq!(
        apply(BinaryOp::Gt, number(2.0), number(1.0), &host),
        Ok(Val::Bool(true))
    );
    assert_eq!(
        apply(BinaryOp::Gtoe, number(1.0), number(1.0), &host),
        Ok(Val::Bool(true))
    );
    assert_eq!(
        apply(BinaryOp::Ltoe, number(2.0), number(1.0), &host),
        Ok(Val::Bool(false))
    );
}

#[test]
fn operators_on_values() {
    assert_eq!(Val::Bool(true).not(), Ok(Val::Bool(false)));
    assert_eq!(Val::Null.not(), Err(Error::TypeMismatch));
    assert_eq!(number(2.5).minus(), Ok(number(-2.5)));
    assert_eq!(number(0.0).minus(), Ok(number(-0.0)));
    assert_eq!(Val::Bool(true).minus(), Err(Error::TypeMismatch));
    assert_eq!(Val::Bool(true).and(Val::Bool(false)), Ok(Val::Bool(false)));
    assert_eq!(Val::Bool(true).and(Val::Bool(true)), Ok(Val::Bool(true)));
    assert_eq!(Val::Bool(false).or(Val::Bool(false)), Ok(Val::Bool(false)));
    assert_eq!(Val::Bool(false).or(Val::Bool(true)), Ok(Val::Bool(true)));
    assert_eq!(Val::Bool(false).or(Val::Null), Err(Error::TypeMismatch));
    assert_eq!(number(1.0).and(Val::Bool(true)), Err(Error::TypeMismatch));
    assert!(number(1.0).less_than(&number(2.0)));
    assert!(!number(2.0).less_than(&number(2.0)));
    assert!(number(2.0).less_or_equal(&number(2.0)));
    assert!(!Val::Null.less_or_equal(&Val::Null));
    assert!(Val::Null.equals(&Val::Null));
    assert!(!Val::Null.equals(&Val::Bool(false)));
    assert!(number(0.0).equals(&number(-0.0)));
    assert!(!number(f64::NAN).equals(&number(f64::NAN)));
    assert!(Val::Str("a".to_string()).equals(&Val::Str("a".to_string())));
    assert!(!Val::Str("a".to_string()).equals(&Val::Str("b".to_string())));
    let nested = Val::Vec(vec![number(1.0), Val::Vec(vec![Val::Null])]);
    assert!(nested.equals(&nested.clone()));
    assert!(!nested.equals(&Val::Vec(vec![number(1.0), Val::Vec(vec![])])));
    assert!(!Val::Vec(vec![number(f64::NAN)]).equals(&Val::Vec(vec![number(f64::NAN)])));
    assert_eq!(nested.clone(), nested);
}

#[test]
fn vectors_are_read_grown_and_rewritten() {
    let v = Val::Vec(vec![number(1.0), number(2.0)]);
    assert_eq!(v.index(0), Ok(&number(1.0)));
    assert_eq!(v.index(1), Ok(&number(2.0)));
    assert_eq!(v.index(2), Err(Error::IndexOutOfRange));
    assert_eq!(Val::Null.index(0), Err(Error::TypeMismatch));
    let v = v.push(Val::Null).unwrap();
    assert_eq!(v, Val::Vec(vec![number(1.0), number(2.0), Val::Null]));
    assert_eq!(Val::Null.push(Val::Null), Err(Error::TypeMismatch));
    let (last, rest) = v.pop().unwrap();
    assert_eq!(last, Val::Null);
    assert_eq!(rest, Val::Vec(vec![number(1.0), number(2.0)]));
    assert_eq!(Val::Vec(vec![]).pop(), Err(Error::IndexOutOfRange));
    assert_eq!(Val::Bool(true).pop(), Err(Error::TypeMismatch));
    let grid = Val::Vec(vec![
        Val::Vec(vec![number(1.0), number(2.0)]),
        Val::Vec(vec![number(3.0), number(4.0)]),
    ]);
    assert_eq!(
        grid.clone().write(&vec![1, 0], Val::Null),
        Ok(Val::Vec(vec![
            Val::Vec(vec![number(1.0), number(2.0)]),
            Val::Vec(vec![Val::Null, number(4.0)]),
        ]))
    );
    assert_eq!(
        grid.clone().write(&vec![0], Val::Null),
        Ok(Val::Vec(vec![Val::Null, Val::Vec(vec![number(3.0), number(4.0)])]))
    );
    assert_eq!(grid.clone().write(&vec![2, 0], Val::Null), Err(Error::IndexOutOfRange));
    assert_eq!(grid.clone().write(&vec![0, 2], Val::Null), Err(Error::IndexOutOfRange));
    assert_eq!(grid.clone().write(&vec![0, 0, 0], Val::Null), Err(Error::TypeMismatch));
    assert_eq!(grid.clone().write(&vec![], Val::Null), Err(Error::MalformedVectorWrite));
    assert_eq!(Val::Null.write(&vec![0], Val::Null), Err(Error::TypeMismatch));
}

#[test]
fn the_text_of_a_value() {
    let mut host = Answers::new();
    assert_eq!(Val::Bool(true).to_text(&host), Ok("true".to_string()));
    assert_eq!(Val::Bool(false).to_text(&host), Ok("false".to_string()));
    assert_eq!(Val::Null.to_text(&host), Ok("Null".to_string()));
    assert_eq!(Val::Str("a b".to_string()).to_text(&host), Ok("a b".to_string()));
    assert_eq!(Val::Vec(vec![]).to_text(&host), Ok("[]".to_string()));
    assert_eq!(
        Val::Vec(vec![Val::Null, Val::Vec(vec![Val::Bool(true)])]).to_text(&host),
        Ok("[Null, [true]]".to_string())
    );
    assert_eq!(
        Val::Number(5).to_text(&host),
        Err(Interrupt::Ask(Request::Format(5)))
    );
    let pair = Val::Vec(vec![Val::Number(5), Val::Number(6)]);
    assert_eq!(pair.to_text(&host), Err(Interrupt::Ask(Request::Format(5))));
    host.record(Request::Format(5), Reply::Text("five".to_string()));
    assert_eq!(pair.to_text(&host), Err(Interrupt::Ask(Request::Format(6))));
    host.record(Request::Format(6), Reply::Text("six".to_string()));
    assert_eq!(pair.to_text(&host), Ok("[five, six]".to_string()));
    assert_eq!(
        Val::Str("n=".to_string()).add(Val::Number(5), &host),
        Ok(Val::Str("n=five".to_string()))
    );
}

#[test]
fn the_environment_maps_names_to_values() {
    let mut env = Environment::new();
    assert_eq!(env.get_ref("a"), Err(Error::UndeclaredVariable));
    env.insert("a".to_string(), number(1.0));
    env.insert("b".to_string(), number(2.0));
    env.insert("".to_string(), Val::Null);
    assert_eq!(env.get_ref("a"), Ok(&number(1.0)));
    assert_eq!(env.get_ref("b"), Ok(&number(2.0)));
    assert_eq!(env.get_ref(""), Ok(&Val::Null));
    env.insert("a".to_string(), number(3.0));
    assert_eq!(env.get_ref("a"), Ok(&number(3.0)));
    assert_eq!(env.get_ref("b"), Ok(&number(2.0)));
    assert_eq!(env.get_ref("A"), Err(Error::UndeclaredVariable));
    match env.get_mut_ref("b") {
        Ok(value) => *value = Val::Bool(true),
        Err(_) => panic!("b is bound"),
    }
    assert_eq!(env.get_ref("b"), Ok(&Val::Bool(true)));
    assert_eq!(env.get_ref("a"), Ok(&number(3.0)));
    assert!(matches!(env.get_mut_ref("zz"), Err(Error::UndeclaredVariable)));
}

#[test]
fn pieces_of_text() {
    assert_eq!(trim("  a b \t\n"), "a b");
    assert_eq!(trim("\u{a0}\u{2003}x\u{3000}"), "x");
    assert_eq!(trim(" \n "), "");
    assert_eq!(trim(""), "");
    assert_eq!(trim("abc"), "abc");
    assert_eq!(chars_of("añb"), vec!['a', 'ñ', 'b']);
    assert!(same_text("añb", "añb"));
    assert!(!same_text("ab", "abc"));
    assert!(!same_text("abc", "abd"));
    assert_eq!(find_char("a=b=c", '='), 1);
    assert_eq!(find_char("abc", '='), 3);
    assert_eq!(find_char("", '='), 0);
    for c in (0u32..0x3100).filter_map(char::from_u32) {
        assert_eq!(is_space_char(c), c.is_whitespace(), "{:?}", c);
        assert_eq!(is_digit_char(c), c.is_ascii_digit(), "{:?}", c);
    }
}

#[test]
fn a_capture_is_one_token_or_none() {
    assert_eq!(check_remaining_cases("12"), Some(ExprToken::Number("12".to_string())));
    assert_eq!(check_remaining_cases("12."), Some(ExprToken::Number("12.".to_string())));
    assert_eq!(check_remaining_cases("1.25"), Some(ExprToken::Number("1.25".to_string())));
    assert_eq!(check_remaining_cases("1.2.3"), Some(ExprToken::VarName("1.2.3".to_string())));
    assert_eq!(check_remaining_cases(".5"), Some(ExprToken::VarName(".5".to_string())));
    assert_eq!(check_remaining_cases("1e5"), Some(ExprToken::VarName("1e5".to_string())));
    assert_eq!(check_remaining_cases("x1"), Some(ExprToken::VarName("x1".to_string())));
    assert_eq!(check_remaining_cases("x["), Some(ExprToken::VecAccessStart("x".to_string())));
    assert_eq!(check_remaining_cases("["), Some(ExprToken::OpenSBrackets));
    assert_eq!(check_remaining_cases("\"\""), Some(ExprToken::String("".to_string())));
    assert_eq!(check_remaining_cases("\"a\""), Some(ExprToken::String("a".to_string())));
    assert_eq!(check_remaining_cases("\""), None);
    assert_eq!(check_remaining_cases("a b"), None);
    assert_eq!(check_remaining_cases("a+"), None);
    assert_eq!(check_remaining_cases("=="), Some(ExprToken::Operator(BinaryOp::Eq)));
    assert_eq!(check_remaining_cases("="), None);
    assert_eq!(check_remaining_cases("=>"), None);
    assert_eq!(check_remaining_cases(""), None);
    assert_eq!(check_remaining_cases("true"), Some(ExprToken::Bool(true)));
    assert_eq!(check_remaining_cases("True"), Some(ExprToken::VarName("True".to_string())));
    assert_eq!(check_remaining_cases("null"), Some(ExprToken::Null));
    assert_eq!(
        classify_captures(&vec![" 1 ".to_string(), "  ".to_string(), "+".to_string()]),
        Ok(vec![
            ExprToken::Number("1".to_string()),
            ExprToken::Operator(BinaryOp::Add)
        ])
    );
    assert_eq!(
        classify_captures(&vec!["1".to_string(), "&".to_string(), "(".to_string()]),
        Err(Error::UnrecognizedToken)
    );
    assert_eq!(unescape("a\\nb\\"), "a\nb\\");
    assert_eq!(unescape("\\n\\n"), "\n\n");
    assert_eq!(unescape("\\\\n"), "\\\n");
    assert_eq!(ExprToken::Comma.clone(), ExprToken::Comma);
}
