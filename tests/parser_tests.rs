use monkey::ast::{ExpressionType, Node, Program, StatementType};
use monkey::lexer::Lexer;
use monkey::parser::{parse_integer, Parser};

fn parse(input: &str) -> (Program, Vec<String>) {
    let lexer = Lexer::new(input);
    let mut parser = Parser::new(lexer);
    let program = parser.parse_program();
    let errors = parser.errors();
    (program, errors)
}

// check errors stored in the parser struct
fn check_parse_errors(parser: &Parser) {
    let errors = parser.errors();
    if errors.len() == 0 {
        return;
    }
    println!("parser has {} errors", errors.len());
    for message in errors {
        println!("parser error: {}", message);
    }
}

fn rendered(input: &str) -> String {
    let (program, errors) = parse(input);
    assert!(errors.is_empty(), "errors for {:?}: {:?}", input, errors);
    program.string()
}

#[test]
fn let_statement() {
    let input = "
let x = 5;
let y = 10;
let foobar = 838383;
";
    let lexer = Lexer::new(input);
    let mut parser = Parser::new(lexer);

    let program: Program = parser.parse_program();
    check_parse_errors(&parser);

    assert_eq!(program.len(), 3, "program does not contain 3 statements. got={}", program.len());

    let tests = vec!["x", "y", "foobar"];
    for (expected_identifier, statement) in tests.into_iter().zip(program.iter()) {
        assert_eq!(
            statement.token_literal(),
            "let",
            "statement.token_literal not 'let'. got={}",
            statement.token_literal()
        );
        let statement = match statement {
            StatementType::LetStatement(statement) => statement,
            _ => panic!("fail"),
        };
        assert_eq!(statement.name.value, expected_identifier);
        assert_eq!(statement.name.token_literal(), expected_identifier);
    }
}

#[test]
fn return_statement() {
    let input = "
return 5;
return 10;
return 993322;
";
    let lexer = Lexer::new(input);
    let mut parser = Parser::new(lexer);

    let program = parser.parse_program();
    check_parse_errors(&parser);

    assert_eq!(program.len(), 3, "program does not contain 3 statements. got={}", program.len());

    for statement in program {
        let statement = match statement {
            StatementType::ReturnStatement(v) => v,
            _ => panic!("fail"),
        };
        assert_eq!(statement.token_literal(), "return");
    }
}

#[test]
fn identifier_expression_statement() {
    let (program, errors) = parse("foobar;");
    assert!(errors.is_empty());
    assert_eq!(program.len(), 1);
    let expression = match &program[0] {
        StatementType::ExpressionStatement(statement) => &statement.expression,
        _ => panic!("not an expression statement"),
    };
    let ident = match expression {
        ExpressionType::Identifer(ident) => ident,
        _ => panic!("not an identifier"),
    };
    assert_eq!(&ident.value, "foobar");
    assert_eq!(ident.token_literal(), "foobar");
}

#[test]
fn three_let_statements_without_errors() {
    let (program, errors) = parse("let x = 5;\nlet y = 10;\nlet foobar = 838383;");
    assert!(errors.is_empty());
    assert_eq!(program.len(), 3);
    let names: Vec<String> = program
        .iter()
        .map(|s| match s {
            StatementType::LetStatement(l) => l.name.value.clone(),
            _ => panic!("not a let statement"),
        })
        .collect();
    assert_eq!(names, vec!["x", "y", "foobar"]);
    match &program[2] {
        StatementType::LetStatement(l) => match &l.value {
            ExpressionType::IntegerLiteral(n) => assert_eq!(n.value, 838383),
            _ => panic!("value is not an integer"),
        },
        _ => panic!("not a let statement"),
    }
}

#[test]
fn two_return_statements_without_errors() {
    let (program, errors) = parse("return 5;\nreturn 10;");
    assert!(errors.is_empty());
    assert_eq!(program.len(), 2);
    for s in &program {
        assert!(matches!(s, StatementType::ReturnStatement(_)));
    }
    assert_eq!(program.string(), "return 5;return 10;");
}

#[test]
fn let_without_assign_is_rejected() {
    let (program, errors) = parse("let x 5;");
    assert_eq!(program.len(), 0);
    assert_eq!(errors, vec!["expected next token to be Assign, got Int instead".to_string()]);
}

#[test]
fn let_without_name_is_rejected() {
    let (program, errors) = parse("let = 5; let y = 2;");
    assert_eq!(errors, vec!["expected next token to be Ident, got Assign instead".to_string()]);
    assert_eq!(program.len(), 1);
    assert_eq!(program.string(), "let y = 2;");
}

#[test]
fn missing_prefix_rule_is_reported() {
    let (program, errors) = parse("@;");
    assert_eq!(program.len(), 0);
    assert_eq!(errors, vec!["no prefix parse function for Illegal found".to_string()]);
}

#[test]
fn integer_out_of_range_is_reported() {
    let (program, errors) = parse("9223372036854775808;");
    assert_eq!(program.len(), 0);
    assert_eq!(errors, vec!["could not parse 9223372036854775808 as integer".to_string()]);
    let (program, errors) = parse("9223372036854775807;");
    assert!(errors.is_empty());
    match &program[0] {
        StatementType::ExpressionStatement(s) => match &s.expression {
            ExpressionType::IntegerLiteral(n) => assert_eq!(n.value, i64::MAX),
            _ => panic!("not an integer"),
        },
        _ => panic!("not an expression statement"),
    }
}

#[test]
fn integer_literal_values() {
    assert_eq!(parse_integer("0"), Some(0));
    assert_eq!(parse_integer("0042"), Some(42));
    assert_eq!(parse_integer("838383"), Some(838383));
    assert_eq!(parse_integer(""), None);
    assert_eq!(parse_integer("12a"), None);
    assert_eq!(parse_integer("99999999999999999999"), None);
}

#[test]
fn missing_closing_paren_is_reported() {
    let (program, errors) = parse("(1 + 2;");
    assert_eq!(program.len(), 0);
    assert_eq!(errors, vec!["expected next token to be Rparen, got Semicolon instead".to_string()]);
}

#[test]
fn errors_accumulate_and_parsing_resumes() {
    let (program, errors) = parse("let x 5; let = 1; let ok = 3; return @;");
    assert_eq!(errors.len(), 3);
    assert_eq!(program.len(), 1);
    assert_eq!(program.string(), "let ok = 3;");
}

#[test]
fn operator_precedence_rendering() {
    assert_eq!(rendered("-a * b"), "((-a) * b)");
    assert_eq!(rendered("!-a"), "(!(-a))");
    assert_eq!(rendered("a + b + c"), "((a + b) + c)");
    assert_eq!(rendered("a + b * c + d / e - f"), "(((a + (b * c)) + (d / e)) - f)");
    assert_eq!(rendered("5 > 4 == 3 < 4"), "((5 > 4) == (3 < 4))");
    assert_eq!(rendered("3 + 4 * 5 == 3 * 1 + 4 * 5"), "((3 + (4 * 5)) == ((3 * 1) + (4 * 5)))");
    assert_eq!(rendered("(5 + 5) * 2"), "((5 + 5) * 2)");
    assert_eq!(rendered("-(5 + 5)"), "(-(5 + 5))");
    assert_eq!(rendered("!(true == true)"), "(!(true == true))");
    assert_eq!(rendered("a + add(b * c) + d"), "((a + add((b * c))) + d)");
    assert_eq!(rendered("add(a, b, 1, 2 * 3, 4 + 5, add(6, 7 * 8))"), "add(a, b, 1, (2 * 3), (4 + 5), add(6, (7 * 8)))");
}

#[test]
fn arithmetic_round_trip() {
    for input in ["1 + 2 * 3", "1 - 2 - 3", "8 / 4 / 2", "1 * (2 + 3) - 4 / 5", "42"] {
        let first = rendered(input);
        let second = rendered(&first);
        assert_eq!(first, second);
        let (p1, _) = parse(input);
        let (p2, _) = parse(&first);
        match (&p1[0], &p2[0]) {
            (StatementType::ExpressionStatement(a), StatementType::ExpressionStatement(b)) => {
                assert_eq!(a.expression.string(), b.expression.string());
                assert_eq!(a.expression.token_literal(), b.expression.token_literal());
            },
            _ => panic!("not expression statements"),
        }
    }
    assert_eq!(rendered("1 + 2 * 3"), "(1 + (2 * 3))");
    assert_eq!(rendered("(1 + (2 * 3))"), "(1 + (2 * 3))");
}

#[test]
fn if_and_function_and_call() {
    let (program, errors) = parse("if (x < y) { x } else { y }");
    assert!(errors.is_empty());
    assert_eq!(program.len(), 1);
    match &program[0] {
        StatementType::ExpressionStatement(s) => match &s.expression {
            ExpressionType::If(e) => {
                assert_eq!(e.condition.string(), "(x < y)");
                assert_eq!(e.consequence.statements.len(), 1);
                assert!(e.alternative.is_some());
            },
            _ => panic!("not an if expression"),
        },
        _ => panic!("not an expression statement"),
    }
    assert_eq!(program.string(), "if(x < y) xelse y");

    let (program, errors) = parse("fn(x, y) { x + y; }");
    assert!(errors.is_empty());
    match &program[0] {
        StatementType::ExpressionStatement(s) => match &s.expression {
            ExpressionType::Function(f) => {
                assert_eq!(f.parameters.len(), 2);
                assert_eq!(f.parameters[1].value, "y");
                assert_eq!(f.body.statements.len(), 1);
            },
            _ => panic!("not a function literal"),
        },
        _ => panic!("not an expression statement"),
    }
    assert_eq!(program.string(), "fn(x, y) (x + y)");
    assert_eq!(rendered("fn() {}"), "fn() ");

    let (program, errors) = parse("add(1, 2 * 3, 4 + 5);");
    assert!(errors.is_empty());
    match &program[0] {
        StatementType::ExpressionStatement(s) => match &s.expression {
            ExpressionType::Call(c) => {
                assert_eq!(c.function.string(), "add");
                assert_eq!(c.arguments.len(), 3);
            },
            _ => panic!("not a call"),
        },
        _ => panic!("not an expression statement"),
    }
}

#[test]
fn bad_parameter_list_is_reported() {
    let (program, errors) = parse("fn(x, 1) { x }");
    assert_eq!(program.len(), 0);
    assert_eq!(errors[0], "expected next token to be Ident, got Int instead");
}

#[test]
fn empty_program() {
    let (program, errors) = parse("");
    assert!(program.is_empty());
    assert!(errors.is_empty());
    assert_eq!(program.token_literal(), "");
    assert_eq!(program.string(), "");
}

#[test]
fn statement_rendering() {
    assert_eq!(rendered("let myVar = anotherVar;"), "let myVar = anotherVar;");
    assert_eq!(rendered("return x"), "return x;");
    let (program, _) = parse("let a = 1; b");
    assert_eq!(program.token_literal(), "let");
    assert_eq!(program[1].token_literal(), "b");
}
