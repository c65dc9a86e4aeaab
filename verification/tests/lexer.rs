use qsim::lexer::{match_token_type, push_current_token, tokenize, Token, TokenType};

fn token(token_type: TokenType, value: &str) -> Token {
    Token {
        token_type,
        value: value.to_string(),
    }
}

#[test]
fn test_basic_lexer() {
    let inp = "INITIALIZE R 2
        MEASURE R 'RES'";

    let tokens = tokenize(inp.to_string());
    assert_eq!(tokens.len(), 7);
    assert_eq!(
        tokens,
        vec![
            Token {
                token_type: TokenType::Action,
                value: "INITIALIZE".to_string()
            },
            Token {
                token_type: TokenType::Identifier,
                value: "R".to_string()
            },
            Token {
                token_type: TokenType::Literal,
                value: "2".to_string()
            },
            Token {
                token_type: TokenType::NewLine,
                value: "\n".to_string()
            },
            Token {
                token_type: TokenType::Action,
                value: "MEASURE".to_string()
            },
            Token {
                token_type: TokenType::Identifier,
                value: "R".to_string()
            },
            Token {
                token_type: TokenType::Identifier,
                value: "RES".to_string()
            },
        ]
    )
}

#[test]
fn test_literals() {
    let inp = "INITIALIZE 2 3";
    let tokens = tokenize(inp.to_string());
    assert_eq!(tokens.len(), 3);
    assert_eq!(
        tokens[1],
        Token {
            token_type: TokenType::Literal,
            value: "2".to_string()
        }
    );
    assert_eq!(
        tokens[2],
        Token {
            token_type: TokenType::Literal,
            value: "3".to_string()
        }
    );
}

#[test]
fn test_bit_array() {
    let inp = "INITIALIZE R2 [0 0 ]";
    let tokens = tokenize(inp.to_string());
    assert_eq!(tokens.len(), 6);
    assert_eq!(
        tokens[2],
        Token {
            token_type: TokenType::OpenBracket,
            value: "[".to_string()
        }
    );
    assert_eq!(
        tokens[3],
        Token {
            token_type: TokenType::Literal,
            value: "0".to_string()
        }
    );
    assert_eq!(
        tokens[5],
        Token {
            token_type: TokenType::CloseBracket,
            value: "]".to_string()
        }
    );
}

#[test]
fn every_action_name_is_an_action() {
    for name in [
        "INITIALIZE",
        "MEASURE",
        "SELECT",
        "APPLY",
        "CONCAT",
        "TENSOR",
        "INVERSE",
    ] {
        assert_eq!(match_token_type(&name.to_string()), TokenType::Action);
    }
    assert_eq!(match_token_type(&"initialize".to_string()), TokenType::Identifier);
    assert_eq!(match_token_type(&"APPLYX".to_string()), TokenType::Identifier);
}

#[test]
fn gate_names_begin_with_g_underscore() {
    for name in ["G_H", "G_CNOT", "G_I_16", "G_R_8", "G_Uf_2_15", "G_QFTI_3", "G_"] {
        assert_eq!(match_token_type(&name.to_string()), TokenType::Prefabs);
    }
    assert_eq!(match_token_type(&"G".to_string()), TokenType::Identifier);
    assert_eq!(match_token_type(&"g_H".to_string()), TokenType::Identifier);
}

#[test]
fn numbers_are_runs_of_digits() {
    assert_eq!(match_token_type(&"0".to_string()), TokenType::Literal);
    assert_eq!(match_token_type(&"0042".to_string()), TokenType::Literal);
    assert_eq!(
        match_token_type(&"99999999999999999999".to_string()),
        TokenType::Literal
    );
    assert_eq!(match_token_type(&"-5".to_string()), TokenType::Identifier);
    assert_eq!(match_token_type(&"+5".to_string()), TokenType::Identifier);
    assert_eq!(match_token_type(&"5a".to_string()), TokenType::Identifier);
}

#[test]
fn quotes_are_stripped_after_the_kind_is_found() {
    let tokens = tokenize("'2' 'APPLY' it's '".to_string());
    assert_eq!(
        tokens,
        vec![
            token(TokenType::Identifier, "2"),
            token(TokenType::Identifier, "APPLY"),
            token(TokenType::Identifier, "its"),
            token(TokenType::Identifier, ""),
        ]
    );
}

#[test]
fn blank_lines_give_line_break_tokens() {
    let tokens = tokenize("\n\n A\n".to_string());
    assert_eq!(
        tokens,
        vec![
            token(TokenType::NewLine, "\n"),
            token(TokenType::NewLine, "\n"),
            token(TokenType::Identifier, "A"),
            token(TokenType::NewLine, "\n"),
        ]
    );
    assert_eq!(tokenize(String::new()), vec![]);
    assert_eq!(tokenize("    ".to_string()), vec![]);
}

#[test]
fn brackets_end_words_without_spaces() {
    let tokens = tokenize("R[1]]X".to_string());
    assert_eq!(
        tokens,
        vec![
            token(TokenType::Identifier, "R"),
            token(TokenType::OpenBracket, "["),
            token(TokenType::Literal, "1"),
            token(TokenType::CloseBracket, "]"),
            token(TokenType::CloseBracket, "]"),
            token(TokenType::Identifier, "X"),
        ]
    );
}

#[test]
fn tabs_do_not_separate() {
    let tokens = tokenize("A\tB".to_string());
    assert_eq!(tokens, vec![token(TokenType::Identifier, "A\tB")]);
}

#[test]
fn pushing_the_current_token_empties_it() {
    let mut tokens = vec![];
    let mut current = "G_H".to_string();
    push_current_token(&mut tokens, &mut current);
    assert_eq!(tokens, vec![token(TokenType::Prefabs, "G_H")]);
    assert_eq!(current, "");
    push_current_token(&mut tokens, &mut current);
    assert_eq!(tokens.len(), 1);
}

#[test]
fn printing_the_tokens_and_lexing_again_gives_the_same_tokens() {
    let text = "INITIALIZE R 2\n\n  U   TENSOR G_H   G_I_4\nINITIALIZE V [1 0 ]\nMEASURE R RES";
    let tokens = tokenize(text.to_string());
    let printed: Vec<String> = tokens.iter().map(|t| t.value.clone()).collect();
    let again = tokenize(printed.join(" "));
    assert_eq!(again, tokens);
}
