use qsim::lexer::{tokenize, Token, TokenType};
use qsim::parser::{parse, ASTNode, MemoryLocation};
use qsim::printer::{pretty_print, print_tokens, program_tokens, push_statement_tokens};
use std::rc::Rc;

fn without_empty_lines(tokens: Vec<Token>) -> Vec<Token> {
    let mut out = Vec::new();
    let mut line = Vec::new();
    for token in tokens {
        if token.token_type == TokenType::NewLine {
            if !line.is_empty() {
                out.append(&mut line);
                out.push(token);
            }
        } else {
            line.push(token);
        }
    }
    if !line.is_empty() {
        out.append(&mut line);
        out.push(Token {
            token_type: TokenType::NewLine,
            value: "\n".to_string(),
        });
    }
    out
}

#[test]
fn every_kind_of_statement_is_printed_as_it_is_written() {
    let text = "INITIALIZE R 2
U TENSOR G_H G_I_2
V CONCAT U U
W INVERSE V
APPLY U R
APPLY G_CNOT R
SELECT S R 0 1
MEASURE S RES1
MEASURE R RES2
INITIALIZE X [1 0 0 1]
INITIALIZE Y []
";
    let ast = parse(text.to_string()).unwrap();
    assert_eq!(
        pretty_print(&ast),
        "INITIALIZE R 2 \n U TENSOR G_H G_I_2 \n V CONCAT U U \n W INVERSE V \n APPLY U R \n \
         APPLY G_CNOT R \n SELECT S R 0 1 \n MEASURE S RES1 \n MEASURE R RES2 \n \
         INITIALIZE X [ 1 0 0 1 ] \n INITIALIZE Y [ ] \n "
    );
}

#[test]
fn lexing_the_printed_program_gives_its_tokens_without_empty_lines() {
    for text in [
        "INITIALIZE R 2\nMEASURE R RES",
        "\n\n   INITIALIZE R 2\n\n\n  U TENSOR G_H   G_H\nAPPLY U R\n\n MEASURE R RES\n\n",
        "INITIALIZE R [1 2 3]\nINITIALIZE R[]\nINITIALIZE R [1]",
        "A INVERSE G_Uf_2_15\nSELECT S1 R1 2 3",
        "",
        "\n  \n",
    ] {
        let ast = parse(text.to_string()).unwrap();
        let printed = pretty_print(&ast);
        assert_eq!(
            tokenize(printed.clone()),
            without_empty_lines(tokenize(text.to_string()))
        );
        // and the printed program is the same program
        assert_eq!(parse(printed), Ok(ast));
    }
}

#[test]
fn a_quoted_operation_name_does_not_come_back_as_a_name() {
    let text = "MEASURE R 'APPLY'";
    let ast = parse(text.to_string()).unwrap();
    let printed = pretty_print(&ast);
    assert_eq!(printed, "MEASURE R APPLY \n ");
    assert_eq!(tokenize(text.to_string())[2].token_type, TokenType::Identifier);
    assert_eq!(tokenize(printed)[2].token_type, TokenType::Action);
}

#[test]
fn the_text_of_tokens() {
    let tokens = tokenize("A [1]\nB".to_string());
    assert_eq!(print_tokens(&tokens), "A [ 1 ] \n B ");
    assert_eq!(print_tokens(&vec![]), "");
    assert_eq!(tokenize(print_tokens(&tokens)), tokens);
}

#[test]
fn nodes_that_are_no_statements_have_no_tokens() {
    let mut out = vec![];
    push_statement_tokens(&ASTNode::Literal("4".to_string()), &mut out);
    push_statement_tokens(
        &ASTNode::FunctionApplication("APPLY".to_string(), vec![]),
        &mut out,
    );
    push_statement_tokens(
        &ASTNode::VariableAssignment(
            "X".to_string(),
            MemoryLocation::Heap,
            Rc::new(ASTNode::Identifier("Y".to_string())),
        ),
        &mut out,
    );
    push_statement_tokens(
        &ASTNode::VariableAssignment(
            "X".to_string(),
            MemoryLocation::Heap,
            Rc::new(ASTNode::FunctionApplication("SELECT".to_string(), vec![])),
        ),
        &mut out,
    );
    assert_eq!(out, vec![]);
    let ast = vec![ASTNode::Literal("4".to_string())];
    assert_eq!(program_tokens(&ast).len(), 1);
    assert_eq!(pretty_print(&ast), "\n ");
}
