use pratt::ast::{Node, Program, Statement};
use pratt::lexer::Lexer;
use pratt::parser::Parser;

fn check_parser_errors(parser: &mut Parser) {
    let errors = parser.errors();
    if errors.is_empty() {
        return;
    }
    println!("Parser has {} error(s).", errors.len());
    for msg in errors {
        println!("Parser error: {}", msg);
    }
    panic!();
}

fn test_statement(s: &Statement, string: &str) {
    assert_eq!(s.to_string(), string);
}

fn test_statements(program: &Program, expects: &[&str]) {
    assert_eq!(program.statements.len(), expects.len());
    for (index, statement) in program.statements.iter().enumerate() {
        assert_eq!(expects[index], statement.to_string());
    }
}

#[test]
fn test_let_statements() {
    let input = r"
let x = 5;
let y = 10;
let foobar = 838383;
";

    let lexer = Lexer::new(input);
    let mut parser = Parser::new(lexer);
    let program = parser.parse_program();
    check_parser_errors(&mut parser);

    assert_eq!(program.statements.len(), 3);
    test_statement(&program.statements[0], "let x = \"no-op\";");
    test_statement(&program.statements[1], "let y = \"no-op\";");
    test_statement(&program.statements[2], "let foobar = \"no-op\";");
}

#[test]
#[should_panic]
fn test_illegal_let_statements() {
    let input = r"
let x 5;
let y;
";

    let lexer = Lexer::new(input);
    let mut parser = Parser::new(lexer);
    let _program = parser.parse_program();
    check_parser_errors(&mut parser);
}

#[test]
fn test_return_statement() {
    let input = r"
return 5;
return 10;
return 993 322;
";
    let lexer = Lexer::new(input);
    let mut parser = Parser::new(lexer);
    let program = parser.parse_program();
    check_parser_errors(&mut parser);

    assert_eq!(program.statements.len(), 3);
    for statement in &program.statements {
        assert_eq!(statement.to_string(), "return \"no-op\";");
    }
}

#[test]
fn test_identifier_expression() {
    let input = r"
foobar;
";
    let lexer = Lexer::new(input);
    let mut parser = Parser::new(lexer);
    let program = parser.parse_program();
    check_parser_errors(&mut parser);

    assert_eq!(program.statements.len(), 1);
    assert_eq!(program.statements[0].to_string(), "foobar;");
}

#[test]
fn test_number_literal() {
    let input = r"
5; 012; 034; 0; 042;
0x12; 0xff; 0Xfd; 0x42;
12.2; 2.4e8;
";
    let lexer = Lexer::new(input);
    let mut parser = Parser::new(lexer);
    let program = parser.parse_program();
    check_parser_errors(&mut parser);

    let expects = [
        "5;",
        "10;",
        "28;",
        "0;",
        "34;",
        "18;",
        "255;",
        "253;",
        "66;",
        "12.2;",
        "240000000;",
    ];

    test_statements(&program, &expects);
}

#[test]
fn test_prefix_expression() {
    let input = r"
-5;
!5;
";
    let lexer = Lexer::new(input);
    let mut parser = Parser::new(lexer);
    let program = parser.parse_program();
    check_parser_errors(&mut parser);

    let expects = [
        "-(5);",
        "!(5);",
    ];

    test_statements(&program, &expects);
}

#[test]
fn test_precedence_and_associativity() {
    let lexer = Lexer::new("a + b * c;");
    let mut parser = Parser::new(lexer);
    let program = parser.parse_program();
    check_parser_errors(&mut parser);
    test_statements(&program, &["(a + (b * c));"]);

    let lexer = Lexer::new("a - b - c;");
    let mut parser = Parser::new(lexer);
    let program = parser.parse_program();
    check_parser_errors(&mut parser);
    test_statements(&program, &["((a - b) - c);"]);
}

#[test]
fn test_comparison_operators() {
    let input = r"
a < b;
a > b;
a == b;
a != b;
a === b;
a !== b;
a / b;
";
    let lexer = Lexer::new(input);
    let mut parser = Parser::new(lexer);
    let program = parser.parse_program();
    check_parser_errors(&mut parser);
    test_statements(
        &program,
        &[
            "(a < b);",
            "(a > b);",
            "(a == b);",
            "(a != b);",
            "(a === b);",
            "(a !== b);",
            "(a / b);",
        ],
    );
}

#[test]
fn test_mixed_precedence_levels() {
    let lexer = Lexer::new("a + b < c * d == e;");
    let mut parser = Parser::new(lexer);
    let program = parser.parse_program();
    check_parser_errors(&mut parser);
    test_statements(&program, &["(((a + b) < (c * d)) == e);"]);
}

#[test]
fn test_prefix_binds_tighter_than_infix() {
    let lexer = Lexer::new("-a * b;");
    let mut parser = Parser::new(lexer);
    let program = parser.parse_program();
    check_parser_errors(&mut parser);
    test_statements(&program, &["(-(a) * b);"]);
}

#[test]
fn test_program_rendering_joins_statements() {
    let lexer = Lexer::new("a; b;");
    let mut parser = Parser::new(lexer);
    let program = parser.parse_program();
    check_parser_errors(&mut parser);
    assert_eq!(program.to_string(), "a;\nb;");
}

#[test]
fn test_empty_program() {
    let lexer = Lexer::new("   ");
    let mut parser = Parser::new(lexer);
    let program = parser.parse_program();
    check_parser_errors(&mut parser);
    assert_eq!(program.statements.len(), 0);
    assert_eq!(program.to_string(), "");
}

#[test]
fn test_missing_final_semicolon_is_tolerated() {
    let lexer = Lexer::new("a + b");
    let mut parser = Parser::new(lexer);
    let program = parser.parse_program();
    check_parser_errors(&mut parser);
    test_statements(&program, &["(a + b);"]);
}

#[test]
fn test_let_without_semicolon_stops_at_end_of_input() {
    let lexer = Lexer::new("let x = 5");
    let mut parser = Parser::new(lexer);
    let program = parser.parse_program();
    check_parser_errors(&mut parser);
    test_statements(&program, &["let x = \"no-op\";"]);
}

#[test]
fn test_return_without_semicolon_stops_at_end_of_input() {
    let lexer = Lexer::new("return 5");
    let mut parser = Parser::new(lexer);
    let program = parser.parse_program();
    check_parser_errors(&mut parser);
    test_statements(&program, &["return \"no-op\";"]);
}

#[test]
fn test_no_prefix_handler_error() {
    let lexer = Lexer::new("+ 5;");
    let mut parser = Parser::new(lexer);
    let program = parser.parse_program();
    assert_eq!(program.statements.len(), 1);
    assert_eq!(
        parser.errors()[0],
        "no prefix parse function for Plus found"
    );
}

#[test]
fn test_expected_token_errors() {
    let lexer = Lexer::new("let x 5;");
    let mut parser = Parser::new(lexer);
    let program = parser.parse_program();
    assert!(!parser.errors().is_empty());
    assert_eq!(
        parser.errors()[0],
        "expected next token to be Assign, got Number instead"
    );
    // the failed statement is omitted; parsing went on past it
    assert!(program.statements.len() <= 1);
}

#[test]
fn test_bad_number_literal_reports_and_continues() {
    let lexer = Lexer::new("1.2.9; 7;");
    let mut parser = Parser::new(lexer);
    let program = parser.parse_program();
    // one error for the literal, one for the orphaned semicolon
    assert_eq!(parser.errors().len(), 2);
    assert_eq!(
        parser.errors()[0],
        "fail to parse [1.2.9]: invalid float literal"
    );
    assert_eq!(
        parser.errors()[1],
        "no prefix parse function for Semicolon found"
    );
    test_statements(&program, &["7;"]);
}
