use interpreter::error::{Error, Interrupt};
use interpreter::evaluator::Environment;
use interpreter::host::{Answers, NumOp, Reply, Request};
use interpreter::expr_parser::ParseExprNode;
use interpreter::parser::{
    check_result, find_matching_bracket, parse, parse_assignation, parse_expression, ParseNode,
};
use interpreter::runtime::{
    execute, execute_assignation, execute_expression, execute_print, execute_vector_write, Action,
    Cursor,
};
use interpreter::tokenizer::{classify, is_assignation, tokenize, Token};
use interpreter::val::Val;

fn answer(request: &Request) -> Reply {
    match request {
        Request::Arith(op, a, b) => {
            let x = f64::from_bits(*a);
            let y = f64::from_bits(*b);
            let r = match op {
                NumOp::Add => x + y,
                NumOp::Sub => x - y,
                NumOp::Mul => x * y,
                NumOp::Div => x / y,
                NumOp::Rem => x % y,
            };
            Reply::Number(r.to_bits())
        }
        Request::Parse(text) => Reply::Number(text.parse::<f64>().unwrap().to_bits()),
        Request::Format(bits) => Reply::Text(f64::from_bits(*bits).to_string()),
    }
}

fn run(code: &str, env: &mut Environment) -> Result<Vec<String>, Error> {
    let instructions = tokenize(code)?;
    let ast = parse(&instructions)?;
    let mut cursor = Cursor::new();
    let mut host = Answers::new();
    let mut lines = Vec::new();
    loop {
        match execute(&ast, env, &mut cursor, &mut host) {
            Action::Continue => {}
            Action::Print(line) => lines.push(line),
            Action::Ask(request) => {
                let reply = answer(&request);
                host.record(request, reply);
            }
            Action::Finished => return Ok(lines),
            Action::Failed(e) => return Err(e),
        }
    }
}

fn number(x: f64) -> Val {
    Val::Number(x.to_bits())
}

#[test]
fn while_loop() {
    let mut env = Environment::new();
    let code = "a=0
        while a <10 {
            a = a + 1
        }";
    run(code, &mut env).unwrap();
    assert_eq!(env.get_ref("a"), Ok(&number(10.0)));
}

#[test]
fn vector_declaration() {
    let mut env = Environment::new();
    let code = r#"a = [1+2,3*4,true,[1,2,3],"hello"]"#;
    run(code, &mut env).unwrap();
    assert_eq!(
        env.get_ref("a"),
        Ok(&Val::Vec(vec![
            number(3.0),
            number(12.0),
            Val::Bool(true),
            Val::Vec(vec![number(1.0), number(2.0), number(3.0)]),
            Val::Str("hello".to_owned())
        ]))
    );
}

#[test]
fn vector_read() {
    let mut env = Environment::new();
    let code = "a = [1,2,3]
        b = a[1]";
    run(code, &mut env).unwrap();
    assert_eq!(env.get_ref("b"), Ok(&number(2.0)));
}

#[test]
fn vector_write() {
    let mut env = Environment::new();
    let code = "a=0
        b=[0,0,0]
        while a < 3 {
           b[a]=a
           a = a + 1
        }";
    run(code, &mut env).unwrap();
    assert_eq!(
        env.get_ref("b"),
        Ok(&Val::Vec(vec![number(0.0), number(1.0), number(2.0)]))
    );
}

#[test]
fn vector_2d_read() {
    let mut env = Environment::new();
    let code = "a=[[1,2,3],[4,5,6],[7,8,9]]
        b=a[1][1]";
    run(code, &mut env).unwrap();
    assert_eq!(env.get_ref("b"), Ok(&number(5.0)));
}

#[test]
fn vector_3d_read() {
    let mut env = Environment::new();
    let code = "a=[[[5]]]
        b=a[0][0][0]";
    run(code, &mut env).unwrap();
    assert_eq!(env.get_ref("b"), Ok(&number(5.0)));
}

#[test]
fn vector_2d_write() {
    let mut env = Environment::new();
    let code = "a=[[1,2,3],[4,5,6],[7,8,9]]
        a[1][1]=0";
    run(code, &mut env).unwrap();
    assert_eq!(
        env.get_ref("a"),
        Ok(&Val::Vec(vec![
            Val::Vec(vec![number(1.0), number(2.0), number(3.0),]),
            Val::Vec(vec![number(4.0), number(0.0), number(6.0),]),
            Val::Vec(vec![number(7.0), number(8.0), number(9.0),])
        ]))
    );
}

#[test]
fn vector_copy() {
    let mut env = Environment::new();
    let code = "a=0
        b=[1,2,3]
        c=[0,0,0]
        while a < 3 {
            c[a]=b[a]
            a = a + 1
        }";
    run(code, &mut env).unwrap();
    assert_eq!(
        env.get_ref("c"),
        Ok(&Val::Vec(vec![number(1.0), number(2.0), number(3.0)]))
    );
}

#[test]
fn empty_vector() {
    let mut env = Environment::new();
    let code = "a=[]";
    run(code, &mut env).unwrap();
    assert_eq!(env.get_ref("a"), Ok(&Val::Vec(vec![])));
}

fn run_fresh(code: &str) -> Result<(Environment, Vec<String>), Error> {
    let mut env = Environment::new();
    let lines = run(code, &mut env)?;
    Ok((env, lines))
}

fn failure(code: &str) -> Error {
    match run_fresh(code) {
        Ok(_) => panic!("the program ran"),
        Err(e) => e,
    }
}

#[test]
fn a_loop_runs_until_its_condition_fails() {
    let (env, lines) = run_fresh("a=0\nb=30\nwhile a<b { \n a=a+1 \n}").unwrap();
    assert_eq!(env.get_ref("a"), Ok(&number(30.0)));
    assert_eq!(env.get_ref("b"), Ok(&number(30.0)));
    assert!(lines.is_empty());
}

#[test]
fn a_vector_is_read_and_written() {
    let (env, _) = run_fresh("a=[1,2,3]\nb=a[1]").unwrap();
    assert_eq!(env.get_ref("b"), Ok(&number(2.0)));
    let (env, _) = run_fresh("a=[[1,2,3],[4,5,6],[7,8,9]]\na[1][1]=0").unwrap();
    assert_eq!(
        env.get_ref("a"),
        Ok(&Val::Vec(vec![
            Val::Vec(vec![number(1.0), number(2.0), number(3.0)]),
            Val::Vec(vec![number(4.0), number(0.0), number(6.0)]),
            Val::Vec(vec![number(7.0), number(8.0), number(9.0)]),
        ]))
    );
}

#[test]
fn print_writes_the_text_of_a_value() {
    let code = "print 1+1\nprint \"a b\"\nprint [1, \"x\", [true, null]]\nprint 0.5\nprint true\nprint null\nprint []";
    let (_, lines) = run_fresh(code).unwrap();
    assert_eq!(
        lines,
        vec!["2", "a b", "[1, x, [true, Null]]", "0.5", "true", "Null", "[]"]
    );
}

#[test]
fn the_benchmark_program_prints_the_multiples_of_five() {
    let code = r#"a=0
        b=12
        c=""
        while a < b {
            a = a + 1
            if a % 5 == 0 {
                print a
                print "multiple of 5"
                c = c + a + "\n" + "multiple of 5" + "\n"
            }
        }"#;
    let (env, lines) = run_fresh(code).unwrap();
    assert_eq!(lines, vec!["5", "multiple of 5", "10", "multiple of 5"]);
    assert_eq!(
        env.get_ref("c"),
        Ok(&Val::Str("5\nmultiple of 5\n10\nmultiple of 5\n".to_string()))
    );
    assert_eq!(env.get_ref("a"), Ok(&number(12.0)));
}

#[test]
fn if_takes_one_of_its_blocks() {
    let code = "a = 1\nif a == 1 {\n b = 2\n} else {\n b = 3\n}\nc = 4";
    let (env, _) = run_fresh(code).unwrap();
    assert_eq!(env.get_ref("b"), Ok(&number(2.0)));
    assert_eq!(env.get_ref("c"), Ok(&number(4.0)));
    let code = "a = 5\nif a == 1 {\n b = 2\n} else {\n b = 3\n}\nc = 4";
    let (env, _) = run_fresh(code).unwrap();
    assert_eq!(env.get_ref("b"), Ok(&number(3.0)));
    assert_eq!(env.get_ref("c"), Ok(&number(4.0)));
    let code = "a = 5\nif a == 1 {\n b = 2\n}\nc = 4";
    let (env, _) = run_fresh(code).unwrap();
    assert_eq!(env.get_ref("b"), Err(Error::UndeclaredVariable));
    assert_eq!(env.get_ref("c"), Ok(&number(4.0)));
}

#[test]
fn blocks_nest() {
    let code = "n = 0
        i = 0
        while i < 3 {
            j = 0
            while j < 4 {
                if j > i {
                    if true {
                        n = n + 1
                    } else {
                        n = n - 100
                    }
                } else {
                    n = n + 10
                }
                j = j + 1
            }
            i = i + 1
        }
        print n";
    let (env, lines) = run_fresh(code).unwrap();
    // i=0: j=0 adds 10, j=1,2,3 add 1 each; i=1: 20 + 2; i=2: 30 + 1
    assert_eq!(env.get_ref("n"), Ok(&number(66.0)));
    assert_eq!(lines, vec!["66"]);
}

#[test]
fn an_empty_block_is_a_block() {
    let (env, _) = run_fresh("a = 1\nif true {\n}\nwhile false {\n}\nif false {\n} else {\n}\nb = 2").unwrap();
    assert_eq!(env.get_ref("b"), Ok(&number(2.0)));
    let (_, lines) = run_fresh("").unwrap();
    assert!(lines.is_empty());
}

#[test]
fn a_condition_has_to_be_a_boolean() {
    assert_eq!(failure("if 1 {\n a = 1\n}"), Error::ConditionTypeError);
    assert_eq!(failure("while \"x\" {\n a = 1\n}"), Error::ConditionTypeError);
    assert_eq!(failure("if null {\n}"), Error::ConditionTypeError);
    assert_eq!(failure("if x {\n}"), Error::UndeclaredVariable);
}

#[test]
fn a_vector_write_can_fail() {
    assert_eq!(failure("b=[0,0,0]\nb[5]=1"), Error::IndexOutOfRange);
    assert_eq!(failure("b=[0,0,0]\nb[-1]=1"), Error::IndexOutOfRange);
    assert_eq!(failure("b=[0,0,0]\nb[0][0]=1"), Error::TypeMismatch);
    assert_eq!(failure("b=1\nb[0]=1"), Error::TypeMismatch);
    assert_eq!(failure("b[0]=1"), Error::UndeclaredVariable);
    assert_eq!(failure("b=[0]\nb[true]=1"), Error::TypeMismatch);
    assert_eq!(failure("b=[0]\nb[0]=x"), Error::UndeclaredVariable);
    let (env, _) = run_fresh("b=[0,0,0]\nb[1.7]=5").unwrap();
    assert_eq!(
        env.get_ref("b"),
        Ok(&Val::Vec(vec![number(0.0), number(5.0), number(0.0)]))
    );
    // a failed write leaves the vector as it was
    let mut env = Environment::new();
    assert_eq!(run("b=[1,2]\nb[2]=0", &mut env), Err(Error::IndexOutOfRange));
    assert_eq!(env.get_ref("b"), Ok(&Val::Vec(vec![number(1.0), number(2.0)])));
}

#[test]
fn an_assignment_overwrites() {
    let (env, _) = run_fresh("a = 1\na = \"x\"\nb = a\na = [a]").unwrap();
    assert_eq!(env.get_ref("a"), Ok(&Val::Vec(vec![Val::Str("x".to_string())])));
    assert_eq!(env.get_ref("b"), Ok(&Val::Str("x".to_string())));
    assert_eq!(failure("a = b"), Error::UndeclaredVariable);
}

#[test]
fn a_copy_of_a_vector_is_its_own() {
    let (env, _) = run_fresh("a = [1,2]\nb = a\nb[0] = 9").unwrap();
    assert_eq!(env.get_ref("a"), Ok(&Val::Vec(vec![number(1.0), number(2.0)])));
    assert_eq!(env.get_ref("b"), Ok(&Val::Vec(vec![number(9.0), number(2.0)])));
}

#[test]
fn tokens_of_a_program() {
    let code = "a=0\nwhile a <10 {\n  a = a + 1\n  print a\n}\nif a == 10 {\n} else {\n  a\n}";
    assert_eq!(
        tokenize(code),
        Ok(vec![
            Token::Assignation("a=0".to_string()),
            Token::While,
            Token::Expression("a <10".to_string()),
            Token::OpenCBrackets,
            Token::Assignation("a = a + 1".to_string()),
            Token::Print,
            Token::Expression("a".to_string()),
            Token::CloseCBrackets,
            Token::If,
            Token::Expression("a == 10".to_string()),
            Token::OpenCBrackets,
            Token::CloseCBrackets,
            Token::Else,
            Token::OpenCBrackets,
            Token::Expression("a".to_string()),
            Token::CloseCBrackets,
        ])
    );
    assert_eq!(tokenize(""), Ok(vec![]));
    assert_eq!(tokenize("\n  \n"), Ok(vec![]));
}

#[test]
fn a_keyword_needs_white_space_behind_it() {
    assert_eq!(
        tokenize("iffy\nprinter + 1\nwhiled"),
        Ok(vec![
            Token::Expression("iffy".to_string()),
            Token::Expression("printer + 1".to_string()),
            Token::Expression("whiled".to_string()),
        ])
    );
}

#[test]
fn a_line_with_one_equals_sign_is_an_assignment() {
    assert!(is_assignation("a = 1"));
    assert!(is_assignation("a[0]=b"));
    assert!(is_assignation("a <= 3"));
    assert!(!is_assignation("a == 1"));
    assert!(!is_assignation("a + 1"));
    assert!(!is_assignation("= 1"));
    assert_eq!(
        tokenize("a <= 3"),
        Ok(vec![Token::Assignation("a <= 3".to_string())])
    );
    assert_eq!(
        tokenize("a == 3"),
        Ok(vec![Token::Expression("a == 3".to_string())])
    );
}

#[test]
fn a_text_is_classified_by_what_it_says() {
    assert_eq!(classify("if", false), Token::If);
    assert_eq!(classify("if", true), Token::If);
    assert_eq!(classify("else", false), Token::Else);
    assert_eq!(classify("while", false), Token::While);
    assert_eq!(classify("print", false), Token::Print);
    assert_eq!(classify("{", false), Token::OpenCBrackets);
    assert_eq!(classify("}", false), Token::CloseCBrackets);
    assert_eq!(classify("a = 1", true), Token::Assignation("a = 1".to_string()));
    assert_eq!(classify("a = 1", false), Token::Expression("a = 1".to_string()));
}

#[test]
fn statements_of_a_program() {
    let tokens = tokenize("a = 1\nif a {\n print a\n} else {\n a[0] = 2\n}\nwhile b {\n c\n}").unwrap();
    let a = || ParseExprNode::VarName("a".to_string());
    assert_eq!(
        parse(&tokens),
        Ok(vec![
            ParseNode::Assignation("a".to_string(), ParseExprNode::Number("1".to_string())),
            ParseNode::If(
                a(),
                vec![ParseNode::Print(a())],
                Some(vec![ParseNode::VecWrite(
                    "a".to_string(),
                    vec![ParseExprNode::Number("0".to_string())],
                    ParseExprNode::Number("2".to_string())
                )])
            ),
            ParseNode::While(
                ParseExprNode::VarName("b".to_string()),
                vec![ParseNode::Expression(ParseExprNode::VarName("c".to_string()))]
            ),
        ])
    );
    assert_eq!(parse(&[]), Ok(vec![]));
}

#[test]
fn braces_have_to_match() {
    assert_eq!(failure("if a {\n b = 1"), Error::UnmatchedBrace);
    assert_eq!(failure("while a {\n"), Error::UnmatchedBrace);
    assert_eq!(failure("}"), Error::UnmatchedBrace);
    assert_eq!(failure("{"), Error::UnmatchedBrace);
    assert_eq!(failure("a = 1\n}\nb = 2"), Error::UnmatchedBrace);
    assert_eq!(failure("if true {\n} else \n a = 1"), Error::UnmatchedBrace);
    assert_eq!(failure("if true \n a = 1"), Error::UnmatchedBrace);
    assert_eq!(failure("if true {\n if true {\n } \n"), Error::UnmatchedBrace);
}

#[test]
fn else_needs_an_if() {
    assert_eq!(failure("a = 1\nelse "), Error::UnmatchedElse);
    assert_eq!(failure("while false {\n}\nelse "), Error::UnmatchedElse);
    // the stray token that is met last decides
    assert_eq!(failure("else {\n}"), Error::UnmatchedBrace);
}

#[test]
fn a_statement_needs_its_expression() {
    assert_eq!(failure("print \n"), Error::EmptyOperand);
    assert_eq!(failure("if {\n}"), Error::EmptyOperand);
    assert_eq!(failure("while {\n}"), Error::EmptyOperand);
    assert_eq!(failure("while "), Error::EmptyOperand);
    // without a right side the line is no assignment
    assert_eq!(failure("a = "), Error::UnrecognizedToken);
    assert_eq!(failure("a = 1 +"), Error::EmptyOperand);
    // a condition with one `=` in it is an assignment line, not an expression
    assert_eq!(failure("if a <= 3 {\n}"), Error::EmptyOperand);
}

#[test]
fn an_error_of_an_expression_fails_the_program() {
    assert_eq!(failure("a = (1"), Error::UnmatchedParenthesis);
    assert_eq!(failure("a = [1"), Error::UnmatchedBracket);
    assert_eq!(failure("print 1 & 2"), Error::UnrecognizedToken);
    assert_eq!(failure("if (1 {\n}"), Error::UnmatchedParenthesis);
    assert_eq!(failure("a = true + 1"), Error::TypeMismatch);
    assert_eq!(failure("print [1,]"), Error::EmptyOperand);
}

#[test]
fn an_assignment_line_is_cut_at_its_first_equals_sign() {
    assert_eq!(
        parse_assignation("  abc  =  1 "),
        Ok(ParseNode::Assignation(
            "abc".to_string(),
            ParseExprNode::Number("1".to_string())
        ))
    );
    assert_eq!(
        parse_assignation("a[1][2]=b"),
        Ok(ParseNode::VecWrite(
            "a".to_string(),
            vec![
                ParseExprNode::Number("1".to_string()),
                ParseExprNode::Number("2".to_string())
            ],
            ParseExprNode::VarName("b".to_string())
        ))
    );
    assert_eq!(parse_assignation("abc"), Err(Error::MalformedAssignment));
    assert_eq!(parse_assignation(""), Err(Error::MalformedAssignment));
    assert_eq!(parse_assignation("[1] = 2"), Err(Error::MalformedVectorWrite));
    assert_eq!(parse_assignation("[a[1]] = 2"), Err(Error::MalformedVectorWrite));
    assert_eq!(parse_assignation("a[1 = 2"), Ok(ParseNode::Assignation(
        "a[1".to_string(),
        ParseExprNode::Number("2".to_string())
    )));
    assert_eq!(parse_assignation("a = b = c"), Err(Error::UnrecognizedToken));
    assert_eq!(parse_assignation("a[ = 1"), Ok(ParseNode::Assignation(
        "a[".to_string(),
        ParseExprNode::Number("1".to_string())
    )));
    assert_eq!(
        parse(&[Token::Assignation("abc".to_string())]),
        Err(Error::MalformedAssignment)
    );
    assert_eq!(failure("[1] = 2"), Error::MalformedVectorWrite);
}

#[test]
fn the_text_of_an_expression_is_parsed() {
    assert_eq!(
        parse_expression(" a "),
        Ok(ParseExprNode::VarName("a".to_string()))
    );
    assert_eq!(parse_expression(""), Err(Error::EmptyOperand));
    assert_eq!(parse_expression("a = 1"), Err(Error::UnrecognizedToken));
}

#[test]
fn a_closing_brace_is_found() {
    let tokens = tokenize("if a {\n if b {\n }\n c\n}\n d").unwrap();
    // If, a, {, If, b, {, }, c, }, d
    assert_eq!(find_matching_bracket(&tokens, 3, tokens.len()), Ok(8));
    assert_eq!(find_matching_bracket(&tokens, 6, tokens.len()), Ok(6));
    assert_eq!(find_matching_bracket(&tokens, 3, 8), Err(Error::UnmatchedBrace));
    assert_eq!(find_matching_bracket(&tokens, 9, tokens.len()), Err(Error::UnmatchedBrace));
}

#[test]
fn check_result_chooses() {
    assert_eq!(check_result(true, 5, Error::UnmatchedBrace), Ok(5));
    assert_eq!(
        check_result(false, 5, Error::UnmatchedElse),
        Err(Error::UnmatchedElse)
    );
}

#[test]
fn a_step_asks_and_changes_nothing_until_it_is_answered() {
    let tokens = tokenize("a = 1\nprint a").unwrap();
    let ast = parse(&tokens).unwrap();
    let mut env = Environment::new();
    let mut cursor = Cursor::new();
    let mut host = Answers::new();
    assert_eq!(
        execute(&ast, &mut env, &mut cursor, &mut host),
        Action::Ask(Request::Parse("1".to_string()))
    );
    assert_eq!(env.get_ref("a"), Err(Error::UndeclaredVariable));
    // asking again changes nothing
    assert_eq!(
        execute(&ast, &mut env, &mut cursor, &mut host),
        Action::Ask(Request::Parse("1".to_string()))
    );
    host.record(Request::Parse("1".to_string()), Reply::Number(1.0f64.to_bits()));
    assert_eq!(execute(&ast, &mut env, &mut cursor, &mut host), Action::Continue);
    assert_eq!(env.get_ref("a"), Ok(&number(1.0)));
    // the answers of a finished statement are dropped
    assert_eq!(host.number(&Request::Parse("1".to_string())), None);
    assert_eq!(
        execute(&ast, &mut env, &mut cursor, &mut host),
        Action::Ask(Request::Format(1.0f64.to_bits()))
    );
    host.record(Request::Format(1.0f64.to_bits()), Reply::Text("1".to_string()));
    assert_eq!(
        execute(&ast, &mut env, &mut cursor, &mut host),
        Action::Print("1".to_string())
    );
    assert_eq!(execute(&ast, &mut env, &mut cursor, &mut host), Action::Finished);
    assert_eq!(execute(&ast, &mut env, &mut cursor, &mut host), Action::Finished);
}

#[test]
fn a_failed_step_stays_failed() {
    let tokens = tokenize("a = b\nc = 1").unwrap();
    let ast = parse(&tokens).unwrap();
    let mut env = Environment::new();
    let mut cursor = Cursor::new();
    let mut host = Answers::new();
    assert_eq!(
        execute(&ast, &mut env, &mut cursor, &mut host),
        Action::Failed(Error::UndeclaredVariable)
    );
    assert_eq!(
        execute(&ast, &mut env, &mut cursor, &mut host),
        Action::Failed(Error::UndeclaredVariable)
    );
}

#[test]
fn a_cursor_of_another_program_finishes() {
    let long = parse(&tokenize("if true {\n a = true\n}").unwrap()).unwrap();
    let short = parse(&tokenize("a = true").unwrap()).unwrap();
    let mut env = Environment::new();
    let mut cursor = Cursor::new();
    let mut host = Answers::new();
    // into the block of the `if`
    assert_eq!(execute(&long, &mut env, &mut cursor, &mut host), Action::Continue);
    // the other program has no block there
    assert_eq!(execute(&short, &mut env, &mut cursor, &mut host), Action::Finished);
    assert_eq!(env.get_ref("a"), Err(Error::UndeclaredVariable));
}

#[test]
fn statements_run_on_their_own() {
    let mut env = Environment::new();
    let host = Answers::new();
    let yes = ParseExprNode::Bool(true);
    assert_eq!(execute_assignation("a", &yes, &mut env, &host), Ok(()));
    assert_eq!(env.get_ref("a"), Ok(&Val::Bool(true)));
    assert_eq!(execute_expression(&yes, &env, &host), Ok(()));
    assert_eq!(
        execute_expression(&ParseExprNode::VarName("zz".to_string()), &env, &host),
        Err(Interrupt::Fail(Error::UndeclaredVariable))
    );
    assert_eq!(
        execute_assignation("b", &ParseExprNode::Number("2".to_string()), &mut env, &host),
        Err(Interrupt::Ask(Request::Parse("2".to_string())))
    );
    assert_eq!(env.get_ref("b"), Err(Error::UndeclaredVariable));
    assert_eq!(execute_print(&yes, &env, &host), Ok("true".to_string()));
    env.insert("v".to_string(), Val::Vec(vec![Val::Null, Val::Null]));
    let mut host = Answers::new();
    host.record(Request::Parse("1".to_string()), Reply::Number(1.0f64.to_bits()));
    assert_eq!(
        execute_vector_write(
            "v",
            &vec![ParseExprNode::Number("1".to_string())],
            &yes,
            &mut env,
            &host
        ),
        Ok(())
    );
    assert_eq!(env.get_ref("v"), Ok(&Val::Vec(vec![Val::Null, Val::Bool(true)])));
    assert_eq!(
        execute_vector_write("v", &vec![], &yes, &mut env, &host),
        Err(Interrupt::Fail(Error::MalformedVectorWrite))
    );
}
