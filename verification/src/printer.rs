//! The printer: from statements back to program text.
//!
//! A program is printed one statement to a line, with one space after every
//! token. Lexing the printed text of a parsed program gives the tokens of
//! the program as it was written, without its empty lines.

use crate::lexer::{
    classify, is_separator, is_word, lex, separator_tokens, strip_quotes, word_len, word_token,
    TokenType, TokenView,
};
use crate::parser::{
    after_line, is_arg, line_len, param_node, spec_parse_token_group, spec_parse_tokens, AstView,
};
use vstd::prelude::*;

verus! {

/// No character of `s` is a single quote.
pub open spec fn no_quote(s: Seq<char>) -> bool {
    forall|i: int| 0 <= i < s.len() ==> #[trigger] s[i] != '\''
}

/// The token has the text that lexing gives a token of its kind: a line
/// break or a bracket has its one character, and a word is not empty, holds
/// no separator and no quote, and is of the kind of the token.
pub open spec fn is_plain(t: TokenView) -> bool {
    match t.token_type {
        TokenType::NewLine => t.value == "\n"@,
        TokenType::OpenBracket => t.value == "["@,
        TokenType::CloseBracket => t.value == "]"@,
        _ => t.value.len() > 0 && is_word(t.value) && no_quote(t.value) && classify(t.value)
            == t.token_type,
    }
}

/// All tokens are plain.
pub open spec fn all_plain(ts: Seq<TokenView>) -> bool {
    forall|i: int| 0 <= i < ts.len() ==> is_plain(#[trigger] ts[i])
}

/// The text of a token stream: the text of every token, each followed by a space.
pub open spec fn token_text(ts: Seq<TokenView>) -> Seq<char>
    decreases ts.len(),
{
    if ts.len() == 0 {
        Seq::empty()
    } else {
        ts[0].value + " "@ + token_text(ts.drop_first())
    }
}

/// The token of a line break.
pub open spec fn newline_token() -> TokenView {
    TokenView { token_type: TokenType::NewLine, value: "\n"@ }
}

/// The token of a word, of the kind of the word.
pub open spec fn word_of(v: Seq<char>) -> TokenView {
    TokenView { token_type: classify(v), value: v }
}

/// The token of a name.
pub open spec fn name_token(v: Seq<char>) -> TokenView {
    TokenView { token_type: TokenType::Identifier, value: v }
}

/// The token of an operation.
pub open spec fn action_token(v: Seq<char>) -> TokenView {
    TokenView { token_type: TokenType::Action, value: v }
}

/// The token of an operand.
pub open spec fn operand_token(node: AstView) -> TokenView {
    match node {
        AstView::Identifier(v) => name_token(v),
        AstView::Literal(v) => word_of(v),
        _ => word_of(Seq::empty()),
    }
}

/// The tokens of the operands of a list in brackets.
pub open spec fn operand_tokens(items: Seq<AstView>) -> Seq<TokenView> {
    Seq::new(items.len(), |i: int| operand_token(items[i]))
}

/// The tokens of the application `op args` that binds `name`.
pub open spec fn application_tokens(name: Seq<char>, op: Seq<char>, args: Seq<AstView>) -> Seq<
    TokenView,
> {
    if (op == "APPLY"@ || op == "MEASURE"@) && args.len() >= 1 {
        seq![action_token(op), operand_token(args[0]), name_token(name)]
    } else if op == "INITIALIZE"@ && args.len() == 1 {
        match args[0] {
            AstView::FunctionApplication(list, items) => seq![
                action_token(op),
                name_token(name),
                TokenView { token_type: TokenType::OpenBracket, value: "["@ },
            ] + operand_tokens(items) + seq![
                TokenView { token_type: TokenType::CloseBracket, value: "]"@ },
            ],
            operand => seq![action_token(op), name_token(name), operand_token(operand)],
        }
    } else if op == "SELECT"@ && args.len() == 3 {
        seq![
            action_token(op),
            name_token(name),
            operand_token(args[0]),
            operand_token(args[1]),
            operand_token(args[2]),
        ]
    } else if op == "INVERSE"@ && args.len() == 1 {
        seq![name_token(name), action_token(op), operand_token(args[0])]
    } else if args.len() == 2 {
        seq![name_token(name), action_token(op), operand_token(args[0]), operand_token(args[1])]
    } else {
        Seq::empty()
    }
}

/// The tokens of a statement, in the order in which the statement is written.
pub open spec fn spec_statement_tokens(node: AstView) -> Seq<TokenView> {
    match node {
        AstView::VariableAssignment(name, region, body) => match *body {
            AstView::FunctionApplication(op, args) => application_tokens(name, op, args),
            _ => Seq::empty(),
        },
        _ => Seq::empty(),
    }
}

/// The tokens of a program: those of every statement, each followed by a
/// line break.
pub open spec fn spec_program_tokens(nodes: Seq<AstView>) -> Seq<TokenView>
    decreases nodes.len(),
{
    if nodes.len() == 0 {
        Seq::empty()
    } else {
        spec_statement_tokens(nodes[0]) + seq![newline_token()] + spec_program_tokens(
            nodes.drop_first(),
        )
    }
}

/// The lines of a token stream that are not empty, each followed by a line
/// break.
pub open spec fn without_empty_lines(tokens: Seq<TokenView>) -> Seq<TokenView>
    decreases tokens.len(),
{
    if tokens.len() == 0 {
        Seq::empty()
    } else {
        let n = line_len(tokens);
        if n > tokens.len() {
            Seq::empty()
        } else if n == 0 {
            without_empty_lines(after_line(tokens))
        } else {
            tokens.take(n as int) + seq![newline_token()] + without_empty_lines(after_line(tokens))
        }
    }
}

/// The printed text of a program.
pub open spec fn spec_pretty_print(nodes: Seq<AstView>) -> Seq<char> {
    token_text(spec_program_tokens(nodes))
}

/// A word without quotes keeps all its characters when its quotes are stripped.
pub proof fn lemma_strip_no_quote(w: Seq<char>)
    requires
        no_quote(w),
    ensures
        strip_quotes(w) == w,
    decreases w.len(),
{
    if w.len() > 0 {
        assert(no_quote(w.drop_last())) by {
            assert forall|i: int| 0 <= i < w.drop_last().len() implies #[trigger] w.drop_last()[i]
                != '\'' by {
                assert(w.drop_last()[i] == w[i]);
            }
        }
        lemma_strip_no_quote(w.drop_last());
        assert(w[w.len() - 1] != '\'');
        assert(w.drop_last().push(w.last()) =~= w);
    } else {
        assert(w =~= Seq::<char>::empty());
    }
}

/// The longest prefix without a separator is a word, and what follows it is
/// the end of the text or a separator.
proof fn lemma_word_prefix(s: Seq<char>)
    ensures
        word_len(s) <= s.len(),
        is_word(s.take(word_len(s) as int)),
        crate::lexer::at_word_end(s.skip(word_len(s) as int)),
        s.len() > 0 && !is_separator(s[0]) ==> word_len(s) > 0,
    decreases s.len(),
{
    if s.len() > 0 && !is_separator(s[0]) {
        let rest = s.drop_first();
        lemma_word_prefix(rest);
        let n = word_len(s) as int;
        assert(s.skip(n) =~= rest.skip(n - 1));
        assert forall|i: int| 0 <= i < n implies !is_separator(#[trigger] s.take(n)[i]) by {
            if i > 0 {
                assert(s.take(n)[i] == rest.take(n - 1)[i - 1]);
            }
        }
    } else {
        assert(s.skip(0) =~= s);
    }
}

/// Lexing a text without quotes gives plain tokens.
pub proof fn lemma_lex_plain(s: Seq<char>)
    requires
        no_quote(s),
    ensures
        all_plain(lex(s)),
    decreases s.len(),
{
    if s.len() > 0 {
        if is_separator(s[0]) {
            let rest = s.drop_first();
            assert(no_quote(rest)) by {
                assert forall|i: int| 0 <= i < rest.len() implies #[trigger] rest[i] != '\'' by {
                    assert(rest[i] == s[i + 1]);
                }
            }
            lemma_lex_plain(rest);
            let head = separator_tokens(s[0]);
            let tail = lex(rest);
            assert forall|i: int| 0 <= i < (head + tail).len() implies is_plain(
                #[trigger] (head + tail)[i],
            ) by {
                if i >= head.len() {
                    assert((head + tail)[i] == tail[i - head.len()]);
                }
            }
        } else {
            lemma_word_prefix(s);
            let n = word_len(s) as int;
            let w = s.take(n);
            let rest = s.skip(n);
            assert(no_quote(w)) by {
                assert forall|i: int| 0 <= i < w.len() implies #[trigger] w[i] != '\'' by {
                    assert(w[i] == s[i]);
                }
            }
            assert(no_quote(rest)) by {
                assert forall|i: int| 0 <= i < rest.len() implies #[trigger] rest[i] != '\'' by {
                    assert(rest[i] == s[i + n]);
                }
            }
            lemma_strip_no_quote(w);
            lemma_lex_plain(rest);
            let tail = lex(rest);
            let all = seq![word_token(w)] + tail;
            assert forall|i: int| 0 <= i < all.len() implies is_plain(#[trigger] all[i]) by {
                if i >= 1 {
                    assert(all[i] == tail[i - 1]);
                }
            }
        }
    }
}

/// Lexing the text of one plain token, followed by a space and more text,
/// gives the token and then the tokens of the text that follows.
proof fn lemma_lex_token(t: TokenView, more: Seq<char>)
    requires
        is_plain(t),
    ensures
        lex(t.value + " "@ + more) == seq![t] + lex(more),
{
    reveal_strlit(" ");
    reveal_strlit("\n");
    reveal_strlit("[");
    reveal_strlit("]");
    let s = t.value + " "@ + more;
    let spaced = " "@ + more;
    assert(spaced[0] == ' ');
    assert(spaced.drop_first() =~= more);
    assert(lex(spaced) == separator_tokens(' ') + lex(more));
    assert(separator_tokens(' ') + lex(more) =~= lex(more));
    match t.token_type {
        TokenType::NewLine | TokenType::OpenBracket | TokenType::CloseBracket => {
            assert(t.value.len() == 1);
            assert(s[0] == t.value[0]);
            assert(s.drop_first() =~= spaced);
            assert(separator_tokens(s[0]) =~= seq![t]);
        },
        _ => {
            assert(s =~= t.value + spaced);
            crate::lexer::lemma_lex_word(t.value, spaced);
            lemma_strip_no_quote(t.value);
            assert(word_token(t.value) == t);
        },
    }
}

/// Lexing the text of plain tokens gives the tokens.
pub proof fn lemma_lex_of_text(ts: Seq<TokenView>)
    requires
        all_plain(ts),
    ensures
        lex(token_text(ts)) == ts,
    decreases ts.len(),
{
    if ts.len() > 0 {
        let rest = ts.drop_first();
        assert(all_plain(rest)) by {
            assert forall|i: int| 0 <= i < rest.len() implies is_plain(#[trigger] rest[i]) by {
                assert(rest[i] == ts[i + 1]);
            }
        }
        lemma_lex_of_text(rest);
        lemma_lex_token(ts[0], token_text(rest));
        assert(seq![ts[0]] + rest =~= ts);
    } else {
        assert(ts =~= Seq::<TokenView>::empty());
    }
}

/// The token of the node of a plain operand is the operand.
proof fn lemma_operand_token(t: TokenView)
    requires
        is_plain(t),
        is_arg(t),
    ensures
        operand_token(param_node(t)) == t,
{
}

/// The tokens of the statement of a line of plain tokens are the tokens of
/// the line.
pub proof fn lemma_statement_tokens(g: Seq<TokenView>, node: AstView)
    requires
        all_plain(g),
        spec_parse_token_group(g) == Ok::<AstView, crate::parser::ParseErrorView>(node),
    ensures
        spec_statement_tokens(node) == g,
{
    reveal_strlit("APPLY");
    reveal_strlit("MEASURE");
    reveal_strlit("INITIALIZE");
    reveal_strlit("SELECT");
    reveal_strlit("INVERSE");
    reveal_strlit("TENSOR");
    reveal_strlit("CONCAT");
    reveal_strlit("VECTOR");
    reveal_strlit("[");
    reveal_strlit("]");
    // names of one length differ in their first letter
    assert("INVERSE"@[0] == 'I' && "MEASURE"@[0] == 'M');
    assert("TENSOR"@[0] == 'T' && "SELECT"@[0] == 'S' && "CONCAT"@[0] == 'C');
    let printed = spec_statement_tokens(node);
    if g.len() == 3 && g[0].token_type == TokenType::Action {
        lemma_operand_token(g[1]);
        lemma_operand_token(g[2]);
        assert(printed =~= g);
    } else if crate::parser::is_vector_shape(g) {
        let params = g.subrange(3, g.len() - 1);
        let items = Seq::new(params.len(), |i: int| param_node(params[i]));
        assert(crate::parser::first_non_literal(params) >= params.len()) by {
            lemma_first_non_literal_bound(params);
        }
        assert forall|i: int| 0 <= i < params.len() implies operand_token(#[trigger] items[i])
            == params[i] by {
            lemma_all_literal(params, i);
            assert(params[i] == g[i + 3]);
        }
        assert(operand_tokens(items) =~= params);
        let head = seq![
            action_token(g[0].value),
            name_token(g[1].value),
            TokenView { token_type: TokenType::OpenBracket, value: "["@ },
        ];
        let tail = seq![TokenView { token_type: TokenType::CloseBracket, value: "]"@ }];
        assert(printed == head + params + tail);
        assert(g[g.len() - 1] == tail[0]);
        let all = head + params + tail;
        assert(all.len() == g.len());
        assert forall|i: int| 0 <= i < g.len() implies all[i] == g[i] by {
            if 3 <= i < g.len() - 1 {
                assert(params[i - 3] == g[i]);
            }
        }
        assert(all =~= g);
    } else if g.len() == 5 && g[0].token_type == TokenType::Action {
        lemma_operand_token(g[2]);
        lemma_operand_token(g[3]);
        lemma_operand_token(g[4]);
        assert(printed =~= g);
    } else if g.len() == 3 && g[0].token_type == TokenType::Identifier && g[1].token_type
        == TokenType::Action {
        lemma_operand_token(g[2]);
        assert(printed =~= g);
    } else if g.len() == 4 && g[0].token_type == TokenType::Identifier && g[1].token_type
        == TokenType::Action {
        lemma_operand_token(g[2]);
        lemma_operand_token(g[3]);
        assert(printed =~= g);
    }
}

proof fn lemma_first_non_literal_bound(params: Seq<TokenView>)
    ensures
        0 <= crate::parser::first_non_literal(params) <= params.len(),
    decreases params.len(),
{
    if params.len() > 0 && params[0].token_type == TokenType::Literal {
        lemma_first_non_literal_bound(params.drop_first());
    }
}

/// Before the first token that is no number, all tokens are numbers.
proof fn lemma_all_literal(params: Seq<TokenView>, i: int)
    requires
        0 <= i < crate::parser::first_non_literal(params),
    ensures
        i < params.len(),
        params[i].token_type == TokenType::Literal,
    decreases params.len(),
{
    lemma_first_non_literal_bound(params);
    if i > 0 {
        lemma_all_literal(params.drop_first(), i - 1);
        assert(params.drop_first()[i - 1] == params[i]);
    }
}

/// The tokens of a parsed program are its tokens as written, without the
/// empty lines.
pub proof fn lemma_program_tokens(tokens: Seq<TokenView>, nodes: Seq<AstView>)
    requires
        all_plain(tokens),
        spec_parse_tokens(tokens) == Ok::<Seq<AstView>, crate::parser::ParseErrorView>(nodes),
    ensures
        spec_program_tokens(nodes) == without_empty_lines(tokens),
    decreases tokens.len(),
{
    if tokens.len() > 0 {
        let n = line_len(tokens);
        crate::parser::lemma_line_len_bound(tokens);
        let rest = after_line(tokens);
        assert(all_plain(rest)) by {
            assert forall|i: int| 0 <= i < rest.len() implies is_plain(#[trigger] rest[i]) by {
                assert(rest[i] == tokens[i + n + 1]);
            }
        }
        if n == 0 {
            lemma_program_tokens(rest, nodes);
        } else {
            let line = tokens.take(n as int);
            assert(all_plain(line)) by {
                assert forall|i: int| 0 <= i < line.len() implies is_plain(#[trigger] line[i]) by {
                    assert(line[i] == tokens[i]);
                }
            }
            let node = spec_parse_token_group(line)->Ok_0;
            let more = spec_parse_tokens(rest)->Ok_0;
            assert(nodes == seq![node] + more);
            assert(nodes[0] == node);
            assert(nodes.drop_first() =~= more);
            lemma_statement_tokens(line, node);
            lemma_program_tokens(rest, more);
        }
    } else {
        assert(nodes =~= Seq::<AstView>::empty());
    }
}

/// The lines of plain tokens without the empty lines are plain tokens.
proof fn lemma_without_empty_lines_plain(tokens: Seq<TokenView>)
    requires
        all_plain(tokens),
    ensures
        all_plain(without_empty_lines(tokens)),
    decreases tokens.len(),
{
    reveal_strlit("\n");
    if tokens.len() > 0 {
        let n = line_len(tokens);
        crate::parser::lemma_line_len_bound(tokens);
        let rest = after_line(tokens);
        assert(all_plain(rest)) by {
            assert forall|i: int| 0 <= i < rest.len() implies is_plain(#[trigger] rest[i]) by {
                assert(rest[i] == tokens[i + n + 1]);
            }
        }
        lemma_without_empty_lines_plain(rest);
        if n > 0 {
            let line = tokens.take(n as int);
            let tail = without_empty_lines(rest);
            let all = line + seq![newline_token()] + tail;
            assert forall|i: int| 0 <= i < all.len() implies is_plain(#[trigger] all[i]) by {
                if i < n {
                    assert(all[i] == tokens[i]);
                } else if i == n {
                    assert(all[i] == newline_token());
                } else {
                    assert(all[i] == tail[i - n - 1]);
                }
            }
        }
    }
}

/// Printing a parsed program and lexing the printed text gives the tokens
/// of the program as it was written, without its empty lines. This holds of
/// every program text without single quotes.
pub proof fn lemma_print_round_trip(text: Seq<char>, nodes: Seq<AstView>)
    requires
        no_quote(text),
        crate::parser::spec_parse(text) == Ok::<Seq<AstView>, crate::parser::ParseErrorView>(nodes),
    ensures
        lex(spec_pretty_print(nodes)) == without_empty_lines(lex(text)),
{
    let tokens = lex(text);
    lemma_lex_plain(text);
    lemma_program_tokens(tokens, nodes);
    lemma_without_empty_lines_plain(tokens);
    lemma_lex_of_text(without_empty_lines(tokens));
}

fn word_token_of(v: &String) -> (t: crate::lexer::Token)
    ensures
        t@ == word_of(v@),
{
    crate::lexer::Token { token_type: crate::lexer::match_token_type(v), value: v.clone() }
}

fn token_of(token_type: TokenType, v: &str) -> (t: crate::lexer::Token)
    ensures
        t@ == (TokenView { token_type, value: v@ }),
{
    crate::lexer::Token { token_type, value: String::from_str(v) }
}

fn operand_token_of(node: &crate::parser::ASTNode) -> (t: crate::lexer::Token)
    ensures
        t@ == operand_token(node@),
{
    match node {
        crate::parser::ASTNode::Identifier(v) => token_of(TokenType::Identifier, v.as_str()),
        crate::parser::ASTNode::Literal(v) => word_token_of(v),
        _ => word_token_of(&String::new()),
    }
}

/// Appends the tokens of the application `op args` that binds `name`.
fn push_application_tokens(
    name: &String,
    op: &String,
    args: &Vec<crate::parser::ASTNode>,
    out: &mut Vec<crate::lexer::Token>,
)
    ensures
        crate::lexer::tokens_view(final(out)@) == crate::lexer::tokens_view(old(out)@)
            + application_tokens(name@, op@, crate::parser::ast_view(args@)),
{
    let ghost before = crate::lexer::tokens_view(out@);
    let ghost views = crate::parser::ast_view(args@);
    let ghost action = action_token(op@);
    let ghost target = name_token(name@);
    proof {
        assert forall|i: int| 0 <= i < args.len() implies #[trigger] views[i] == args@[i]@ by {}
    }
    let apply = crate::parser::text_is(op, "APPLY");
    let measure = crate::parser::text_is(op, "MEASURE");
    if (apply || measure) && args.len() >= 1 {
        out.push(token_of(TokenType::Action, op.as_str()));
        out.push(operand_token_of(&args[0]));
        out.push(token_of(TokenType::Identifier, name.as_str()));
        assert(crate::lexer::tokens_view(out@) =~= before + seq![
            action,
            operand_token(views[0]),
            target,
        ]);
    } else if crate::parser::text_is(op, "INITIALIZE") && args.len() == 1 {
        match &args[0] {
            crate::parser::ASTNode::FunctionApplication(list, items) => {
                let ghost item_views = crate::parser::ast_view(items@);
                let ghost all = operand_tokens(item_views);
                let ghost open = TokenView { token_type: TokenType::OpenBracket, value: "["@ };
                let ghost close = TokenView { token_type: TokenType::CloseBracket, value: "]"@ };
                proof {
                    assert(args@[0]@->FunctionApplication_1 =~= item_views);
                }
                out.push(token_of(TokenType::Action, op.as_str()));
                out.push(token_of(TokenType::Identifier, name.as_str()));
                out.push(token_of(TokenType::OpenBracket, "["));
                let ghost head = before + seq![action, target, open];
                assert(crate::lexer::tokens_view(out@) =~= head + all.take(0));
                let mut i: usize = 0;
                while i < items.len()
                    invariant
                        i <= items.len(),
                        item_views == crate::parser::ast_view(items@),
                        all == operand_tokens(item_views),
                        crate::lexer::tokens_view(out@) == head + all.take(i as int),
                    decreases items.len() - i,
                {
                    let ghost so_far = crate::lexer::tokens_view(out@);
                    out.push(operand_token_of(&items[i]));
                    proof {
                        assert(all[i as int] == operand_token(items@[i as int]@));
                        assert(all.take(i + 1) =~= all.take(i as int).push(all[i as int]));
                        assert(crate::lexer::tokens_view(out@) =~= so_far.push(all[i as int]));
                        assert(so_far.push(all[i as int]) =~= head + all.take(i + 1));
                    }
                    i = i + 1;
                }
                let ghost filled = crate::lexer::tokens_view(out@);
                out.push(token_of(TokenType::CloseBracket, "]"));
                proof {
                    assert(all.take(items.len() as int) =~= all);
                    assert(crate::lexer::tokens_view(out@) =~= filled.push(close));
                    assert(filled.push(close) =~= before + (seq![action, target, open] + all
                        + seq![close]));
                }
            },
            operand => {
                out.push(token_of(TokenType::Action, op.as_str()));
                out.push(token_of(TokenType::Identifier, name.as_str()));
                out.push(operand_token_of(operand));
                assert(crate::lexer::tokens_view(out@) =~= before + seq![
                    action,
                    target,
                    operand_token(views[0]),
                ]);
            },
        }
    } else if crate::parser::text_is(op, "SELECT") && args.len() == 3 {
        out.push(token_of(TokenType::Action, op.as_str()));
        out.push(token_of(TokenType::Identifier, name.as_str()));
        out.push(operand_token_of(&args[0]));
        out.push(operand_token_of(&args[1]));
        out.push(operand_token_of(&args[2]));
        assert(crate::lexer::tokens_view(out@) =~= before + seq![
            action,
            target,
            operand_token(views[0]),
            operand_token(views[1]),
            operand_token(views[2]),
        ]);
    } else if crate::parser::text_is(op, "INVERSE") && args.len() == 1 {
        out.push(token_of(TokenType::Identifier, name.as_str()));
        out.push(token_of(TokenType::Action, op.as_str()));
        out.push(operand_token_of(&args[0]));
        assert(crate::lexer::tokens_view(out@) =~= before + seq![
            target,
            action,
            operand_token(views[0]),
        ]);
    } else if args.len() == 2 {
        out.push(token_of(TokenType::Identifier, name.as_str()));
        out.push(token_of(TokenType::Action, op.as_str()));
        out.push(operand_token_of(&args[0]));
        out.push(operand_token_of(&args[1]));
        assert(crate::lexer::tokens_view(out@) =~= before + seq![
            target,
            action,
            operand_token(views[0]),
            operand_token(views[1]),
        ]);
    } else {
        assert(before + Seq::<TokenView>::empty() =~= before);
    }
}

/// Appends the tokens of a statement, in the order in which the statement
/// is written. A node that is no statement has no tokens.
pub fn push_statement_tokens(node: &crate::parser::ASTNode, out: &mut Vec<crate::lexer::Token>)
    ensures
        crate::lexer::tokens_view(final(out)@) == crate::lexer::tokens_view(old(out)@)
            + spec_statement_tokens(node@),
{
    let ghost before = crate::lexer::tokens_view(out@);
    match node {
        crate::parser::ASTNode::VariableAssignment(name, region, body) => {
            match &**body {
                crate::parser::ASTNode::FunctionApplication(op, args) => {
                    proof {
                        assert((**body)@->FunctionApplication_1 =~= crate::parser::ast_view(args@));
                    }
                    push_application_tokens(name, op, args, out);
                },
                _ => {
                    assert(before + Seq::<TokenView>::empty() =~= before);
                },
            }
        },
        _ => {
            assert(before + Seq::<TokenView>::empty() =~= before);
        },
    }
}

/// The tokens of a program: those of every statement, each followed by a
/// line break.
pub fn program_tokens(ast: &Vec<crate::parser::ASTNode>) -> (out: Vec<crate::lexer::Token>)
    ensures
        crate::lexer::tokens_view(out@) == spec_program_tokens(crate::parser::ast_view(ast@)),
{
    let ghost nodes = crate::parser::ast_view(ast@);
    let mut out: Vec<crate::lexer::Token> = Vec::new();
    let mut i: usize = 0;
    proof {
        assert(nodes.skip(0) =~= nodes);
        assert(crate::lexer::tokens_view(out@) + spec_program_tokens(nodes) =~= spec_program_tokens(
            nodes,
        ));
    }
    while i < ast.len()
        invariant
            i <= ast.len(),
            nodes == crate::parser::ast_view(ast@),
            crate::lexer::tokens_view(out@) + spec_program_tokens(nodes.skip(i as int))
                == spec_program_tokens(nodes),
        decreases ast.len() - i,
    {
        let ghost before = crate::lexer::tokens_view(out@);
        let ghost rest = nodes.skip(i as int);
        proof {
            assert(rest[0] == ast@[i as int]@);
            assert(rest.drop_first() =~= nodes.skip(i + 1));
        }
        push_statement_tokens(&ast[i], &mut out);
        let ghost with_statement = crate::lexer::tokens_view(out@);
        out.push(token_of(TokenType::NewLine, "\n"));
        proof {
            let statement = spec_statement_tokens(rest[0]);
            let tail = spec_program_tokens(nodes.skip(i + 1));
            assert(crate::lexer::tokens_view(out@) =~= with_statement.push(newline_token()));
            assert(with_statement.push(newline_token()) + tail =~= before + (statement + seq![
                newline_token(),
            ] + tail));
        }
        i = i + 1;
    }
    proof {
        assert(nodes.skip(ast.len() as int) =~= Seq::<AstView>::empty());
        assert(crate::lexer::tokens_view(out@) + Seq::<TokenView>::empty()
            =~= crate::lexer::tokens_view(out@));
    }
    out
}

/// The text of a token stream: the text of every token, each followed by a
/// space.
pub fn print_tokens(tokens: &Vec<crate::lexer::Token>) -> (s: String)
    ensures
        s@ == token_text(crate::lexer::tokens_view(tokens@)),
{
    let ghost ts = crate::lexer::tokens_view(tokens@);
    let mut s = String::new();
    let mut i: usize = 0;
    proof {
        assert(ts.skip(0) =~= ts);
        assert(s@ + token_text(ts) =~= token_text(ts));
    }
    while i < tokens.len()
        invariant
            i <= tokens.len(),
            ts == crate::lexer::tokens_view(tokens@),
            s@ + token_text(ts.skip(i as int)) == token_text(ts),
        decreases tokens.len() - i,
    {
        let ghost before = s@;
        let ghost rest = ts.skip(i as int);
        proof {
            assert(rest[0] == tokens@[i as int]@);
            assert(rest.drop_first() =~= ts.skip(i + 1));
        }
        s.append(tokens[i].value.as_str());
        s.append(" ");
        proof {
            let tail = token_text(ts.skip(i + 1));
            assert(before + rest[0].value + " "@ + tail =~= before + (rest[0].value + " "@ + tail));
        }
        i = i + 1;
    }
    proof {
        assert(ts.skip(tokens.len() as int) =~= Seq::<TokenView>::empty());
        assert(s@ + Seq::<char>::empty() =~= s@);
    }
    s
}

/// Prints a program: one statement to a line, with one space after every
/// token.
pub fn pretty_print(ast: &Vec<crate::parser::ASTNode>) -> (s: String)
    ensures
        s@ == spec_pretty_print(crate::parser::ast_view(ast@)),
{
    let tokens = program_tokens(ast);
    print_tokens(&tokens)
}

} // verus!
