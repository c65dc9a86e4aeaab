use qsim::lexer::{Token, TokenType};
use qsim::parser::{
    parse, parse_ass_dual_token_group, parse_ass_single_token_group, parse_dual_token_group,
    parse_param, parse_quat_token_group, parse_token_group, parse_vector_init, ASTNode,
    MemoryLocation, ParseError,
};
use std::rc::Rc;

fn token(token_type: TokenType, value: &str) -> Token {
    Token {
        token_type,
        value: value.to_string(),
    }
}

fn syntax_error(reason: &str) -> ParseError {
    ParseError::SyntaxError(reason.to_string())
}

#[test]
fn test_parse_basic() {
    let input = "INITIALIZE R 2
        U TENSOR G_H G_H
        APPLY U R
        MEASURE R RES"
        .to_string();
    let res = parse(input);

    assert!(res.is_ok());
    assert_eq!(
        res.unwrap(),
        vec![
            ASTNode::VariableAssignment(
                "R".to_string(),
                MemoryLocation::Heap,
                Rc::new(ASTNode::FunctionApplication(
                    "INITIALIZE".to_string(),
                    vec![ASTNode::Literal("2".to_string())]
                ))
            ),
            ASTNode::VariableAssignment(
                "U".to_string(),
                MemoryLocation::Heap,
                Rc::new(ASTNode::FunctionApplication(
                    "TENSOR".to_string(),
                    vec![
                        ASTNode::Literal("G_H".to_string()),
                        ASTNode::Literal("G_H".to_string())
                    ]
                ))
            ),
            ASTNode::VariableAssignment(
                "R".to_string(),
                MemoryLocation::Heap,
                Rc::new(ASTNode::FunctionApplication(
                    "APPLY".to_string(),
                    vec![
                        ASTNode::Identifier("U".to_string()),
                        ASTNode::Identifier("R".to_string())
                    ]
                ))
            ),
            ASTNode::VariableAssignment(
                "RES".to_string(),
                MemoryLocation::Measurement,
                Rc::new(ASTNode::FunctionApplication(
                    "MEASURE".to_string(),
                    vec![ASTNode::Identifier("R".to_string())]
                )),
            )
        ]
    );
}

#[test]
fn test_parse_init_vec() {
    let input = "INITIALIZE R [1 2 3]
        INITIALIZE R []
        INITIALIZE R [1]"
        .to_string();
    let res = parse(input);

    assert!(res.is_ok());
    assert_eq!(
        res.unwrap(),
        vec![
            ASTNode::VariableAssignment(
                "R".to_string(),
                MemoryLocation::Heap,
                Rc::new(ASTNode::FunctionApplication(
                    "INITIALIZE".to_string(),
                    vec![ASTNode::FunctionApplication(
                        "VECTOR".to_string(),
                        vec![
                            ASTNode::Literal("1".to_string()),
                            ASTNode::Literal("2".to_string()),
                            ASTNode::Literal("3".to_string())
                        ]
                    )]
                ))
            ),
            ASTNode::VariableAssignment(
                "R".to_string(),
                MemoryLocation::Heap,
                Rc::new(ASTNode::FunctionApplication(
                    "INITIALIZE".to_string(),
                    vec![ASTNode::FunctionApplication("VECTOR".to_string(), vec![])]
                ))
            ),
            ASTNode::VariableAssignment(
                "R".to_string(),
                MemoryLocation::Heap,
                Rc::new(ASTNode::FunctionApplication(
                    "INITIALIZE".to_string(),
                    vec![ASTNode::FunctionApplication(
                        "VECTOR".to_string(),
                        vec![ASTNode::Literal("1".to_string()),]
                    )]
                ))
            ),
        ]
    );
}

#[test]
fn quantum_assembler_parser_test_select() {
    let input = "SELECT S1 R1 2 3
        SELECT S2 R2 4 5"
        .to_string();
    let res = parse(input);

    assert!(res.is_ok());
    assert_eq!(
        res.unwrap(),
        vec![
            ASTNode::VariableAssignment(
                "S1".to_string(),
                MemoryLocation::Heap,
                Rc::new(ASTNode::FunctionApplication(
                    "SELECT".to_string(),
                    vec![
                        ASTNode::Identifier("R1".to_string()),
                        ASTNode::Literal("2".to_string()),
                        ASTNode::Literal("3".to_string())
                    ]
                ))
            ),
            ASTNode::VariableAssignment(
                "S2".to_string(),
                MemoryLocation::Heap,
                Rc::new(ASTNode::FunctionApplication(
                    "SELECT".to_string(),
                    vec![
                        ASTNode::Identifier("R2".to_string()),
                        ASTNode::Literal("4".to_string()),
                        ASTNode::Literal("5".to_string())
                    ]
                ))
            ),
        ]
    );
}

#[test]
fn test_empty_lines() {
    let input = "

        INITIALIZE R 2


        MEASURE R RES

        "
    .to_string();
    let res = parse(input);

    assert!(res.is_ok());

    let res = res.unwrap();
    assert_eq!(
        res,
        vec![
            ASTNode::VariableAssignment(
                "R".to_string(),
                MemoryLocation::Heap,
                Rc::new(ASTNode::FunctionApplication(
                    "INITIALIZE".to_string(),
                    vec![ASTNode::Literal("2".to_string())]
                ))
            ),
            ASTNode::VariableAssignment(
                "RES".to_string(),
                MemoryLocation::Measurement,
                Rc::new(ASTNode::FunctionApplication(
                    "MEASURE".to_string(),
                    vec![ASTNode::Identifier("R".to_string())]
                )),
            ),
        ]
    );
}

#[test]
fn operands_become_literals_or_identifiers() {
    assert_eq!(
        parse_param(&token(TokenType::Literal, "7")),
        Ok(ASTNode::Literal("7".to_string()))
    );
    assert_eq!(
        parse_param(&token(TokenType::Prefabs, "G_H")),
        Ok(ASTNode::Literal("G_H".to_string()))
    );
    assert_eq!(
        parse_param(&token(TokenType::Identifier, "R")),
        Ok(ASTNode::Identifier("R".to_string()))
    );
    assert_eq!(
        parse_param(&token(TokenType::OpenBracket, "[")),
        Err(syntax_error("Invalid paramater [ - OpenBracket"))
    );
    assert_eq!(
        parse_param(&token(TokenType::Action, "APPLY")),
        Err(syntax_error("Invalid paramater APPLY - Action"))
    );
}

#[test]
fn inverse_and_concat_statements() {
    let res = parse("V INVERSE U\nW CONCAT V G_CNOT".to_string());
    assert_eq!(
        res,
        Ok(vec![
            ASTNode::VariableAssignment(
                "V".to_string(),
                MemoryLocation::Heap,
                Rc::new(ASTNode::FunctionApplication(
                    "INVERSE".to_string(),
                    vec![ASTNode::Identifier("U".to_string())]
                ))
            ),
            ASTNode::VariableAssignment(
                "W".to_string(),
                MemoryLocation::Heap,
                Rc::new(ASTNode::FunctionApplication(
                    "CONCAT".to_string(),
                    vec![
                        ASTNode::Identifier("V".to_string()),
                        ASTNode::Literal("G_CNOT".to_string())
                    ]
                ))
            ),
        ])
    );
}

#[test]
fn a_line_of_unknown_shape_is_quoted() {
    assert_eq!(
        parse("INITIALIZE R 2\nR R R\nMEASURE R RES".to_string()),
        Err(syntax_error("Invalid action pattern: R R R"))
    );
    assert_eq!(
        parse("APPLY U".to_string()),
        Err(syntax_error("Invalid action pattern: APPLY U"))
    );
    assert_eq!(
        parse("SELECT S [ 1 ]".to_string()),
        Err(syntax_error("Invalid action pattern: SELECT S [ 1 ]"))
    );
}

#[test]
fn the_first_bad_line_gives_the_error() {
    assert_eq!(
        parse("TENSOR A B\nX Y Z".to_string()),
        Err(syntax_error("Invalid dual action TENSOR - Action"))
    );
}

#[test]
fn wrong_operation_for_a_shape() {
    let apply = token(TokenType::Action, "APPLY");
    let select = token(TokenType::Action, "SELECT");
    let a = token(TokenType::Identifier, "A");
    let b = token(TokenType::Identifier, "B");
    let one = token(TokenType::Literal, "1");
    assert_eq!(
        parse_dual_token_group(&select, &a, &b),
        Err(syntax_error("Invalid dual action SELECT - Action"))
    );
    assert_eq!(
        parse_quat_token_group(&apply, &a, &b, &one, &one),
        Err(syntax_error("Invalid quat action APPLY - Action"))
    );
    assert_eq!(
        parse_ass_single_token_group(&apply, &a, &b),
        Err(syntax_error("Invalid single assign action APPLY - Action"))
    );
    assert_eq!(
        parse_ass_dual_token_group(&apply, &a, &b, &b),
        Err(syntax_error("Invalid dual assign action APPLY - Action"))
    );
}

#[test]
fn operands_of_the_wrong_kind_are_errors() {
    assert_eq!(
        parse("INITIALIZE R G_H".to_string()),
        Err(syntax_error("Invalid paramater G_H - Prefabs"))
    );
    assert_eq!(
        parse("INITIALIZE 2 3".to_string()),
        Err(syntax_error("Invalid paramater 2 - Literal"))
    );
    assert_eq!(
        parse("APPLY U 5".to_string()),
        Err(syntax_error("Invalid paramater 5 - Literal"))
    );
    assert_eq!(
        parse("MEASURE ] R".to_string()),
        Err(syntax_error("Invalid paramater ] - CloseBracket"))
    );
    assert_eq!(
        parse("SELECT S R 1 x".to_string()),
        Err(syntax_error("Invalid paramater x - Identifier"))
    );
    assert_eq!(
        parse("U TENSOR G_H [".to_string()),
        Err(syntax_error("Invalid paramater [ - OpenBracket"))
    );
    assert_eq!(
        parse("INITIALIZE R [1 x 3]".to_string()),
        Err(syntax_error("Invalid paramater x - Identifier"))
    );
}

#[test]
fn vector_statement_from_tokens() {
    let name = token(TokenType::Identifier, "R");
    let res = parse_vector_init(&name, &vec![token(TokenType::Literal, "4")]);
    assert_eq!(
        res,
        Ok(ASTNode::VariableAssignment(
            "R".to_string(),
            MemoryLocation::Heap,
            Rc::new(ASTNode::FunctionApplication(
                "INITIALIZE".to_string(),
                vec![ASTNode::FunctionApplication(
                    "VECTOR".to_string(),
                    vec![ASTNode::Literal("4".to_string())]
                )]
            ))
        ))
    );
}

#[test]
fn a_group_of_no_tokens_is_no_statement() {
    assert_eq!(
        parse_token_group(vec![]),
        Err(syntax_error("Invalid action pattern: "))
    );
}

#[test]
fn parse_errors_as_text() {
    assert_eq!(
        syntax_error("bad line").to_string(),
        "Syntax error: bad line"
    );
    assert_eq!(ParseError::NotImplemented.to_string(), "Not implemented");
}
