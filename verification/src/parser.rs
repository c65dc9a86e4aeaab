//! The parser of the assembly language: token stream to statements.

use crate::lexer::{Token, TokenType, TokenView};
use std::rc::Rc;
use vstd::prelude::*;

verus! {

/// The two regions of the simulator's memory.
#[derive(Debug, Copy, Clone, PartialEq, Eq, Structural)]
pub enum MemoryLocation {
    Heap,
    Measurement,
}

/// A node of the syntax tree.
#[derive(Debug, PartialEq)]
pub enum ASTNode {
    Literal(String),
    Identifier(String),
    VariableAssignment(String, MemoryLocation, Rc<ASTNode>),
    FunctionApplication(String, Vec<ASTNode>),
}

/// A program: its statements in textual order.
pub type AST = Vec<ASTNode>;

/// Why a text is not a program.
#[derive(Debug, PartialEq)]
pub enum ParseError {
    SyntaxError(String),
    NotImplemented,
}

/// What a syntax tree says, with texts as character sequences.
pub enum AstView {
    Literal(Seq<char>),
    Identifier(Seq<char>),
    VariableAssignment(Seq<char>, MemoryLocation, Box<AstView>),
    FunctionApplication(Seq<char>, Seq<AstView>),
}

/// What a parse error says.
pub enum ParseErrorView {
    SyntaxError(Seq<char>),
    NotImplemented,
}

impl View for ASTNode {
    type V = AstView;

    open spec fn view(&self) -> AstView
        decreases self,
    {
        match self {
            ASTNode::Literal(text) => AstView::Literal(text@),
            ASTNode::Identifier(name) => AstView::Identifier(name@),
            ASTNode::VariableAssignment(name, region, body) => AstView::VariableAssignment(
                name@,
                *region,
                Box::new((**body)@),
            ),
            ASTNode::FunctionApplication(op, args) => AstView::FunctionApplication(
                op@,
                Seq::new(
                    args@.len(),
                    |i: int|
                        if 0 <= i < args@.len() {
                            args@[i]@
                        } else {
                            AstView::Literal(Seq::empty())
                        },
                ),
            ),
        }
    }
}

impl View for ParseError {
    type V = ParseErrorView;

    open spec fn view(&self) -> ParseErrorView {
        match self {
            ParseError::SyntaxError(reason) => ParseErrorView::SyntaxError(reason@),
            ParseError::NotImplemented => ParseErrorView::NotImplemented,
        }
    }
}

impl ParseError {
    /// The error as a line of text.
    pub fn to_string(&self) -> (s: String)
        ensures
            s@ == match self@ {
                ParseErrorView::SyntaxError(reason) => "Syntax error: "@ + reason,
                ParseErrorView::NotImplemented => "Not implemented"@,
            },
    {
        match self {
            ParseError::SyntaxError(reason) => {
                let mut s = String::from_str("Syntax error: ");
                s.append(reason.as_str());
                s
            },
            ParseError::NotImplemented => String::from_str("Not implemented"),
        }
    }
}

/// The views of a sequence of nodes.
pub open spec fn ast_view(nodes: Seq<ASTNode>) -> Seq<AstView> {
    Seq::new(nodes.len(), |i: int| nodes[i]@)
}

/// The view of the outcome of parsing one statement.
pub open spec fn node_result_view(r: Result<ASTNode, ParseError>) -> Result<
    AstView,
    ParseErrorView,
> {
    match r {
        Ok(node) => Ok(node@),
        Err(e) => Err(e@),
    }
}

/// The view of the outcome of parsing a program.
pub open spec fn ast_result_view(r: Result<Vec<ASTNode>, ParseError>) -> Result<
    Seq<AstView>,
    ParseErrorView,
> {
    match r {
        Ok(nodes) => Ok(ast_view(nodes@)),
        Err(e) => Err(e@),
    }
}

/// The name of a token kind.
pub open spec fn kind_name(t: TokenType) -> Seq<char> {
    match t {
        TokenType::Action => "Action"@,
        TokenType::Prefabs => "Prefabs"@,
        TokenType::Identifier => "Identifier"@,
        TokenType::Literal => "Literal"@,
        TokenType::OpenBracket => "OpenBracket"@,
        TokenType::CloseBracket => "CloseBracket"@,
        TokenType::NewLine => "NewLine"@,
    }
}

/// A token that can stand as an operand: a number, a gate name or an identifier.
pub open spec fn is_arg(t: TokenView) -> bool {
    t.token_type == TokenType::Literal || t.token_type == TokenType::Prefabs || t.token_type
        == TokenType::Identifier
}

/// The node of an operand: an identifier refers to a variable, a number or a
/// gate name is kept as literal text.
pub open spec fn param_node(t: TokenView) -> AstView {
    if t.token_type == TokenType::Identifier {
        AstView::Identifier(t.value)
    } else {
        AstView::Literal(t.value)
    }
}

/// The error for a token, with a headline that says what was wrong with it.
pub open spec fn token_error(headline: Seq<char>, t: TokenView) -> ParseErrorView {
    ParseErrorView::SyntaxError(headline + t.value + " - "@ + kind_name(t.token_type))
}

/// The error for a token that cannot stand where it is.
pub open spec fn param_error(t: TokenView) -> ParseErrorView {
    token_error("Invalid paramater "@, t)
}

/// The statement that binds `name` in `region` to the result of `op` on `args`.
pub open spec fn assignment(
    name: Seq<char>,
    region: MemoryLocation,
    op: Seq<char>,
    args: Seq<AstView>,
) -> AstView {
    AstView::VariableAssignment(name, region, Box::new(AstView::FunctionApplication(op, args)))
}

/// The outcome for one operand.
pub open spec fn spec_parse_param(t: TokenView) -> Result<AstView, ParseErrorView> {
    if is_arg(t) {
        Ok(param_node(t))
    } else {
        Err(param_error(t))
    }
}

/// The outcome for `APPLY a b`, `INITIALIZE name n` and `MEASURE a name`.
pub open spec fn spec_parse_dual(action: TokenView, p0: TokenView, p1: TokenView) -> Result<
    AstView,
    ParseErrorView,
> {
    if action.value == "APPLY"@ {
        if !is_arg(p0) {
            Err(param_error(p0))
        } else if p1.token_type != TokenType::Identifier {
            Err(param_error(p1))
        } else {
            Ok(
                assignment(
                    p1.value,
                    MemoryLocation::Heap,
                    action.value,
                    seq![param_node(p0), param_node(p1)],
                ),
            )
        }
    } else if action.value == "INITIALIZE"@ {
        if p0.token_type != TokenType::Identifier {
            Err(param_error(p0))
        } else if p1.token_type != TokenType::Literal {
            Err(param_error(p1))
        } else {
            Ok(assignment(p0.value, MemoryLocation::Heap, action.value, seq![param_node(p1)]))
        }
    } else if action.value == "MEASURE"@ {
        if !is_arg(p0) {
            Err(param_error(p0))
        } else if p1.token_type != TokenType::Identifier {
            Err(param_error(p1))
        } else {
            Ok(
                assignment(
                    p1.value,
                    MemoryLocation::Measurement,
                    action.value,
                    seq![param_node(p0)],
                ),
            )
        }
    } else {
        Err(token_error("Invalid dual action "@, action))
    }
}

/// The outcome for `SELECT name source from to`.
pub open spec fn spec_parse_quat(
    action: TokenView,
    p0: TokenView,
    p1: TokenView,
    p2: TokenView,
    p3: TokenView,
) -> Result<AstView, ParseErrorView> {
    if action.value == "SELECT"@ {
        if p0.token_type != TokenType::Identifier {
            Err(param_error(p0))
        } else if p1.token_type != TokenType::Identifier {
            Err(param_error(p1))
        } else if p2.token_type != TokenType::Literal {
            Err(param_error(p2))
        } else if p3.token_type != TokenType::Literal {
            Err(param_error(p3))
        } else {
            Ok(
                assignment(
                    p0.value,
                    MemoryLocation::Heap,
                    action.value,
                    seq![param_node(p1), param_node(p2), param_node(p3)],
                ),
            )
        }
    } else {
        Err(token_error("Invalid quat action "@, action))
    }
}

/// The outcome for `name INVERSE a`.
pub open spec fn spec_parse_ass_single(action: TokenView, ass: TokenView, p1: TokenView) -> Result<
    AstView,
    ParseErrorView,
> {
    if action.value == "INVERSE"@ {
        if ass.token_type != TokenType::Identifier {
            Err(param_error(ass))
        } else if !is_arg(p1) {
            Err(param_error(p1))
        } else {
            Ok(assignment(ass.value, MemoryLocation::Heap, action.value, seq![param_node(p1)]))
        }
    } else {
        Err(token_error("Invalid single assign action "@, action))
    }
}

/// The outcome for `name TENSOR a b` and `name CONCAT a b`.
pub open spec fn spec_parse_ass_dual(
    action: TokenView,
    ass: TokenView,
    p1: TokenView,
    p2: TokenView,
) -> Result<AstView, ParseErrorView> {
    if action.value == "TENSOR"@ || action.value == "CONCAT"@ {
        if ass.token_type != TokenType::Identifier {
            Err(param_error(ass))
        } else if !is_arg(p1) {
            Err(param_error(p1))
        } else if !is_arg(p2) {
            Err(param_error(p2))
        } else {
            Ok(
                assignment(
                    ass.value,
                    MemoryLocation::Heap,
                    action.value,
                    seq![param_node(p1), param_node(p2)],
                ),
            )
        }
    } else {
        Err(token_error("Invalid dual assign action "@, action))
    }
}

/// The position of the first token of `params` that is no number, or the
/// length of `params` if all are numbers.
pub open spec fn first_non_literal(params: Seq<TokenView>) -> int
    decreases params.len(),
{
    if params.len() == 0 {
        0
    } else if params[0].token_type != TokenType::Literal {
        0
    } else {
        1 + first_non_literal(params.drop_first())
    }
}

/// The outcome for `INITIALIZE name [ n ... ]`, given the name and the
/// tokens between the brackets.
pub open spec fn spec_parse_vector_init(ass: TokenView, params: Seq<TokenView>) -> Result<
    AstView,
    ParseErrorView,
> {
    let bad = first_non_literal(params);
    if ass.token_type != TokenType::Identifier {
        Err(param_error(ass))
    } else if 0 <= bad < params.len() {
        Err(param_error(params[bad]))
    } else {
        Ok(
            assignment(
                ass.value,
                MemoryLocation::Heap,
                "INITIALIZE"@,
                seq![
                    AstView::FunctionApplication(
                        "VECTOR"@,
                        Seq::new(params.len(), |i: int| param_node(params[i])),
                    ),
                ],
            ),
        )
    }
}

/// The texts of the tokens, with one space between neighbours.
pub open spec fn join_values(g: Seq<TokenView>) -> Seq<char>
    decreases g.len(),
{
    if g.len() == 0 {
        Seq::empty()
    } else if g.len() == 1 {
        g[0].value
    } else {
        join_values(g.drop_last()) + " "@ + g.last().value
    }
}

/// The error for a line of no known shape: it quotes the line.
pub open spec fn pattern_error(g: Seq<TokenView>) -> ParseErrorView {
    ParseErrorView::SyntaxError("Invalid action pattern: "@ + join_values(g))
}

/// The line has the shape `action name [ ... ]`.
pub open spec fn is_vector_shape(g: Seq<TokenView>) -> bool {
    &&& g.len() >= 4
    &&& g[0].token_type == TokenType::Action
    &&& g[1].token_type == TokenType::Identifier
    &&& g[2].token_type == TokenType::OpenBracket
    &&& g.last().token_type == TokenType::CloseBracket
}

/// The outcome for one line, by its shape.
pub open spec fn spec_parse_token_group(g: Seq<TokenView>) -> Result<AstView, ParseErrorView> {
    if g.len() == 3 && g[0].token_type == TokenType::Action {
        spec_parse_dual(g[0], g[1], g[2])
    } else if is_vector_shape(g) {
        if g[0].value == "INITIALIZE"@ {
            spec_parse_vector_init(g[1], g.subrange(3, g.len() - 1))
        } else {
            Err(pattern_error(g))
        }
    } else if g.len() == 5 && g[0].token_type == TokenType::Action {
        spec_parse_quat(g[0], g[1], g[2], g[3], g[4])
    } else if g.len() == 3 && g[0].token_type == TokenType::Identifier && g[1].token_type
        == TokenType::Action {
        spec_parse_ass_single(g[1], g[0], g[2])
    } else if g.len() == 4 && g[0].token_type == TokenType::Identifier && g[1].token_type
        == TokenType::Action {
        spec_parse_ass_dual(g[1], g[0], g[2], g[3])
    } else {
        Err(pattern_error(g))
    }
}

/// The number of tokens before the first line break.
pub open spec fn line_len(tokens: Seq<TokenView>) -> nat
    decreases tokens.len(),
{
    if tokens.len() == 0 || tokens[0].token_type == TokenType::NewLine {
        0
    } else {
        1 + line_len(tokens.drop_first())
    }
}

/// The tokens after the first line break.
pub open spec fn after_line(tokens: Seq<TokenView>) -> Seq<TokenView> {
    let n = line_len(tokens);
    if n < tokens.len() {
        tokens.skip(n as int + 1)
    } else {
        Seq::empty()
    }
}

/// `nodes` followed by what `rest` gives, or the error of `rest`.
pub open spec fn prepend_nodes(
    nodes: Seq<AstView>,
    rest: Result<Seq<AstView>, ParseErrorView>,
) -> Result<Seq<AstView>, ParseErrorView> {
    match rest {
        Ok(more) => Ok(nodes + more),
        Err(e) => Err(e),
    }
}

/// The outcome for a token stream: every line that is not empty gives one
/// statement, and the first line that is no statement gives the error.
pub open spec fn spec_parse_tokens(tokens: Seq<TokenView>) -> Result<Seq<AstView>, ParseErrorView>
    decreases tokens.len(),
{
    if tokens.len() == 0 {
        Ok(Seq::empty())
    } else {
        let n = line_len(tokens);
        if n > tokens.len() {
            Ok(Seq::empty())
        } else if n == 0 {
            spec_parse_tokens(after_line(tokens))
        } else {
            match spec_parse_token_group(tokens.take(n as int)) {
                Err(e) => Err(e),
                Ok(node) => prepend_nodes(seq![node], spec_parse_tokens(after_line(tokens))),
            }
        }
    }
}

/// The outcome for a program text.
pub open spec fn spec_parse(text: Seq<char>) -> Result<Seq<AstView>, ParseErrorView> {
    spec_parse_tokens(crate::lexer::lex(text))
}

/// No token of `g` is a line break.
pub open spec fn is_line(g: Seq<TokenView>) -> bool {
    forall|i: int| 0 <= i < g.len() ==> (#[trigger] g[i]).token_type != TokenType::NewLine
}

/// `rest` is empty or begins with a line break.
pub open spec fn at_line_end(rest: Seq<TokenView>) -> bool {
    rest.len() == 0 || rest[0].token_type == TokenType::NewLine
}

/// The first line is not longer than the token stream.
pub proof fn lemma_line_len_bound(tokens: Seq<TokenView>)
    ensures
        line_len(tokens) <= tokens.len(),
    decreases tokens.len(),
{
    if tokens.len() > 0 && tokens[0].token_type != TokenType::NewLine {
        lemma_line_len_bound(tokens.drop_first());
    }
}

proof fn lemma_line_len(g: Seq<TokenView>, rest: Seq<TokenView>)
    requires
        is_line(g),
        at_line_end(rest),
    ensures
        line_len(g + rest) == g.len(),
    decreases g.len(),
{
    let s = g + rest;
    if g.len() == 0 {
        assert(s =~= rest);
    } else {
        assert(s[0] == g[0]);
        assert(s.drop_first() =~= g.drop_first() + rest);
        assert(is_line(g.drop_first())) by {
            assert forall|i: int| 0 <= i < g.drop_first().len() implies (
            #[trigger] g.drop_first()[i]).token_type != TokenType::NewLine by {
                assert(g.drop_first()[i] == g[i + 1]);
            }
        }
        lemma_line_len(g.drop_first(), rest);
    }
}

/// A finished line followed by a line break: the line is parsed, and the
/// text after the break follows.
proof fn lemma_parse_line(g: Seq<TokenView>, rest: Seq<TokenView>)
    requires
        is_line(g),
        rest.len() > 0,
        rest[0].token_type == TokenType::NewLine,
    ensures
        spec_parse_tokens(g + rest) == (if g.len() == 0 {
            spec_parse_tokens(rest.drop_first())
        } else {
            match spec_parse_token_group(g) {
                Err(e) => Err(e),
                Ok(node) => prepend_nodes(seq![node], spec_parse_tokens(rest.drop_first())),
            }
        }),
{
    let s = g + rest;
    lemma_line_len(g, rest);
    assert(s.take(g.len() as int) =~= g);
    assert(s.skip(g.len() as int + 1) =~= rest.drop_first());
}

/// A finished line at the end of the text.
proof fn lemma_parse_last_line(g: Seq<TokenView>)
    requires
        is_line(g),
    ensures
        spec_parse_tokens(g) == (if g.len() == 0 {
            Ok(Seq::<AstView>::empty())
        } else {
            match spec_parse_token_group(g) {
                Err(e) => Err(e),
                Ok(node) => Ok(seq![node]),
            }
        }),
{
    if g.len() > 0 {
        lemma_line_len(g, Seq::empty());
        assert(g + Seq::<TokenView>::empty() =~= g);
        assert(g.take(g.len() as int) =~= g);
        assert(spec_parse_tokens(Seq::<TokenView>::empty()) == Ok::<
            Seq<AstView>,
            ParseErrorView,
        >(Seq::empty()));
        match spec_parse_token_group(g) {
            Err(e) => {},
            Ok(node) => {
                assert(seq![node] + Seq::<AstView>::empty() =~= seq![node]);
            },
        }
    }
}

/// Whether a string holds exactly the characters of `text`.
pub fn text_is(s: &String, text: &str) -> (r: bool)
    ensures
        r == (s@ == text@),
{
    let other = String::from_str(text);
    *s == other
}

/// The name of a token kind.
pub fn token_type_name(t: TokenType) -> (name: &'static str)
    ensures
        name@ == kind_name(t),
{
    match t {
        TokenType::Action => "Action",
        TokenType::Prefabs => "Prefabs",
        TokenType::Identifier => "Identifier",
        TokenType::Literal => "Literal",
        TokenType::OpenBracket => "OpenBracket",
        TokenType::CloseBracket => "CloseBracket",
        TokenType::NewLine => "NewLine",
    }
}

fn token_error_of(headline: &str, t: &Token) -> (e: ParseError)
    ensures
        e@ == token_error(headline@, t@),
{
    let mut m = String::from_str(headline);
    m.append(t.value.as_str());
    m.append(" - ");
    m.append(token_type_name(t.token_type));
    ParseError::SyntaxError(m)
}

fn is_arg_token(t: &Token) -> (r: bool)
    ensures
        r == is_arg(t@),
{
    t.token_type == TokenType::Literal || t.token_type == TokenType::Prefabs || t.token_type
        == TokenType::Identifier
}

fn node_of(t: &Token) -> (node: ASTNode)
    ensures
        node@ == param_node(t@),
{
    if t.token_type == TokenType::Identifier {
        ASTNode::Identifier(t.value.clone())
    } else {
        ASTNode::Literal(t.value.clone())
    }
}

fn assignment_of(name: &String, region: MemoryLocation, op: &str, args: Vec<ASTNode>) -> (node:
    ASTNode)
    ensures
        node@ == assignment(name@, region, op@, ast_view(args@)),
{
    let call = ASTNode::FunctionApplication(String::from_str(op), args);
    assert(call@ == AstView::FunctionApplication(op@, ast_view(args@))) by {
        assert(call@->FunctionApplication_1 =~= ast_view(args@));
    }
    ASTNode::VariableAssignment(name.clone(), region, Rc::new(call))
}

/// The node of an operand. A number or a gate name is kept as literal text,
/// an identifier refers to a variable; any other token is an error.
pub fn parse_param(param: &Token) -> (r: Result<ASTNode, ParseError>)
    ensures
        node_result_view(r) == spec_parse_param(param@),
{
    if is_arg_token(param) {
        Ok(node_of(param))
    } else {
        Err(token_error_of("Invalid paramater ", param))
    }
}

/// A statement of an operation name and two operands: `APPLY a b` rebinds
/// `b`, `INITIALIZE name n` binds `name`, `MEASURE a name` records under
/// `name` in the measurement region.
pub fn parse_dual_token_group(action: &Token, param0: &Token, param1: &Token) -> (r: Result<
    ASTNode,
    ParseError,
>)
    ensures
        node_result_view(r) == spec_parse_dual(action@, param0@, param1@),
{
    proof {
        reveal_strlit("APPLY");
        reveal_strlit("INITIALIZE");
        reveal_strlit("MEASURE");
    }
    let apply = text_is(&action.value, "APPLY");
    let measure = text_is(&action.value, "MEASURE");
    if apply || measure {
        if !is_arg_token(param0) {
            return Err(token_error_of("Invalid paramater ", param0));
        }
        if param1.token_type != TokenType::Identifier {
            return Err(token_error_of("Invalid paramater ", param1));
        }
        let mut args: Vec<ASTNode> = Vec::new();
        args.push(node_of(param0));
        if apply {
            args.push(node_of(param1));
            assert(ast_view(args@) =~= seq![param_node(param0@), param_node(param1@)]);
            Ok(assignment_of(&param1.value, MemoryLocation::Heap, "APPLY", args))
        } else {
            assert(ast_view(args@) =~= seq![param_node(param0@)]);
            Ok(assignment_of(&param1.value, MemoryLocation::Measurement, "MEASURE", args))
        }
    } else if text_is(&action.value, "INITIALIZE") {
        if param0.token_type != TokenType::Identifier {
            return Err(token_error_of("Invalid paramater ", param0));
        }
        if param1.token_type != TokenType::Literal {
            return Err(token_error_of("Invalid paramater ", param1));
        }
        let mut args: Vec<ASTNode> = Vec::new();
        args.push(node_of(param1));
        assert(ast_view(args@) =~= seq![param_node(param1@)]);
        Ok(assignment_of(&param0.value, MemoryLocation::Heap, "INITIALIZE", args))
    } else {
        Err(token_error_of("Invalid dual action ", action))
    }
}

/// The statement `SELECT name source from to`.
pub fn parse_quat_token_group(
    action: &Token,
    param0: &Token,
    param1: &Token,
    param2: &Token,
    param3: &Token,
) -> (r: Result<ASTNode, ParseError>)
    ensures
        node_result_view(r) == spec_parse_quat(action@, param0@, param1@, param2@, param3@),
{
    if text_is(&action.value, "SELECT") {
        if param0.token_type != TokenType::Identifier {
            return Err(token_error_of("Invalid paramater ", param0));
        }
        if param1.token_type != TokenType::Identifier {
            return Err(token_error_of("Invalid paramater ", param1));
        }
        if param2.token_type != TokenType::Literal {
            return Err(token_error_of("Invalid paramater ", param2));
        }
        if param3.token_type != TokenType::Literal {
            return Err(token_error_of("Invalid paramater ", param3));
        }
        let mut args: Vec<ASTNode> = Vec::new();
        args.push(node_of(param1));
        args.push(node_of(param2));
        args.push(node_of(param3));
        assert(ast_view(args@) =~= seq![
            param_node(param1@),
            param_node(param2@),
            param_node(param3@),
        ]);
        Ok(assignment_of(&param0.value, MemoryLocation::Heap, "SELECT", args))
    } else {
        Err(token_error_of("Invalid quat action ", action))
    }
}

/// The statement `name INVERSE a`.
pub fn parse_ass_single_token_group(action: &Token, ass: &Token, param1: &Token) -> (r: Result<
    ASTNode,
    ParseError,
>)
    ensures
        node_result_view(r) == spec_parse_ass_single(action@, ass@, param1@),
{
    if text_is(&action.value, "INVERSE") {
        if ass.token_type != TokenType::Identifier {
            return Err(token_error_of("Invalid paramater ", ass));
        }
        if !is_arg_token(param1) {
            return Err(token_error_of("Invalid paramater ", param1));
        }
        let mut args: Vec<ASTNode> = Vec::new();
        args.push(node_of(param1));
        assert(ast_view(args@) =~= seq![param_node(param1@)]);
        Ok(assignment_of(&ass.value, MemoryLocation::Heap, "INVERSE", args))
    } else {
        Err(token_error_of("Invalid single assign action ", action))
    }
}

/// The statements `name TENSOR a b` and `name CONCAT a b`.
pub fn parse_ass_dual_token_group(
    action: &Token,
    ass: &Token,
    param1: &Token,
    param2: &Token,
) -> (r: Result<ASTNode, ParseError>)
    ensures
        node_result_view(r) == spec_parse_ass_dual(action@, ass@, param1@, param2@),
{
    let tensor = text_is(&action.value, "TENSOR");
    if tensor || text_is(&action.value, "CONCAT") {
        if ass.token_type != TokenType::Identifier {
            return Err(token_error_of("Invalid paramater ", ass));
        }
        if !is_arg_token(param1) {
            return Err(token_error_of("Invalid paramater ", param1));
        }
        if !is_arg_token(param2) {
            return Err(token_error_of("Invalid paramater ", param2));
        }
        let mut args: Vec<ASTNode> = Vec::new();
        args.push(node_of(param1));
        args.push(node_of(param2));
        assert(ast_view(args@) =~= seq![param_node(param1@), param_node(param2@)]);
        if tensor {
            Ok(assignment_of(&ass.value, MemoryLocation::Heap, "TENSOR", args))
        } else {
            Ok(assignment_of(&ass.value, MemoryLocation::Heap, "CONCAT", args))
        }
    } else {
        Err(token_error_of("Invalid dual assign action ", action))
    }
}

/// The statement `INITIALIZE name [ n ... ]`, given the name and the tokens
/// between the brackets, which must all be numbers.
pub fn parse_vector_init(ass: &Token, params: &Vec<Token>) -> (r: Result<ASTNode, ParseError>)
    ensures
        node_result_view(r) == spec_parse_vector_init(ass@, crate::lexer::tokens_view(params@)),
{
    let ghost views = crate::lexer::tokens_view(params@);
    if ass.token_type != TokenType::Identifier {
        return Err(token_error_of("Invalid paramater ", ass));
    }
    let mut items: Vec<ASTNode> = Vec::new();
    let mut i: usize = 0;
    proof {
        assert(views.skip(0) =~= views);
    }
    while i < params.len()
        invariant
            i <= params.len(),
            views == crate::lexer::tokens_view(params@),
            items.len() == i,
            ass.token_type == TokenType::Identifier,
            forall|j: int| 0 <= j < i ==> (#[trigger] items@[j])@ == param_node(views[j]),
            first_non_literal(views) == i + first_non_literal(views.skip(i as int)),
        decreases params.len() - i,
    {
        proof {
            assert(views.skip(i as int)[0] == views[i as int]);
            assert(views[i as int] == params@[i as int]@);
            assert(views.skip(i as int).drop_first() =~= views.skip(i + 1));
        }
        if params[i].token_type != TokenType::Literal {
            return Err(token_error_of("Invalid paramater ", &params[i]));
        }
        items.push(node_of(&params[i]));
        i = i + 1;
    }
    proof {
        assert(views.skip(params.len() as int).len() == 0);
    }
    let inner = ASTNode::FunctionApplication(String::from_str("VECTOR"), items);
    assert(inner@ == AstView::FunctionApplication(
        "VECTOR"@,
        Seq::new(views.len(), |i: int| param_node(views[i])),
    )) by {
        assert(inner@->FunctionApplication_1 =~= Seq::new(
            views.len(),
            |i: int| param_node(views[i]),
        ));
    }
    let mut args: Vec<ASTNode> = Vec::new();
    args.push(inner);
    assert(ast_view(args@) =~= seq![inner@]);
    Ok(assignment_of(&ass.value, MemoryLocation::Heap, "INITIALIZE", args))
}

/// The texts of the tokens with one space between neighbours.
fn join_token_values(inp: &Vec<Token>) -> (s: String)
    ensures
        s@ == join_values(crate::lexer::tokens_view(inp@)),
{
    let ghost views = crate::lexer::tokens_view(inp@);
    let mut s = String::new();
    let mut i: usize = 0;
    while i < inp.len()
        invariant
            i <= inp.len(),
            views == crate::lexer::tokens_view(inp@),
            s@ == join_values(views.take(i as int)),
        decreases inp.len() - i,
    {
        proof {
            assert(views.take(i + 1).drop_last() =~= views.take(i as int));
            assert(views.take(i + 1).last() == views[i as int]);
        }
        if i > 0 {
            s.append(" ");
            s.append(inp[i].value.as_str());
        } else {
            s.append(inp[i].value.as_str());
            assert(Seq::<char>::empty() + inp@[0].value@ =~= inp@[0].value@);
        }
        i = i + 1;
    }
    proof {
        assert(views.take(views.len() as int) =~= views);
    }
    s
}

fn pattern_error_of(inp: &Vec<Token>) -> (e: ParseError)
    ensures
        e@ == pattern_error(crate::lexer::tokens_view(inp@)),
{
    let mut m = String::from_str("Invalid action pattern: ");
    let line = join_token_values(inp);
    m.append(line.as_str());
    ParseError::SyntaxError(m)
}

/// The statement of one line, found by the kinds of its tokens.
pub fn parse_token_group(inp: Vec<Token>) -> (r: Result<ASTNode, ParseError>)
    ensures
        node_result_view(r) == spec_parse_token_group(crate::lexer::tokens_view(inp@)),
{
    let ghost g = crate::lexer::tokens_view(inp@);
    let n = inp.len();
    if n == 3 && inp[0].token_type == TokenType::Action {
        parse_dual_token_group(&inp[0], &inp[1], &inp[2])
    } else if n >= 4 && inp[0].token_type == TokenType::Action && inp[1].token_type
        == TokenType::Identifier && inp[2].token_type == TokenType::OpenBracket && inp[n
        - 1].token_type == TokenType::CloseBracket {
        if text_is(&inp[0].value, "INITIALIZE") {
            let mut params: Vec<Token> = Vec::new();
            let mut i: usize = 3;
            while i < n - 1
                invariant
                    3 <= i <= n - 1,
                    n == inp.len(),
                    g == crate::lexer::tokens_view(inp@),
                    crate::lexer::tokens_view(params@) == g.subrange(3, i as int),
                decreases n - i,
            {
                let ghost before = crate::lexer::tokens_view(params@);
                let token = Token {
                    token_type: inp[i].token_type,
                    value: inp[i].value.clone(),
                };
                params.push(token);
                assert(crate::lexer::tokens_view(params@) =~= g.subrange(3, i + 1)) by {
                    assert(crate::lexer::tokens_view(params@) =~= before.push(g[i as int]));
                }
                i = i + 1;
            }
            parse_vector_init(&inp[1], &params)
        } else {
            Err(pattern_error_of(&inp))
        }
    } else if n == 5 && inp[0].token_type == TokenType::Action {
        parse_quat_token_group(&inp[0], &inp[1], &inp[2], &inp[3], &inp[4])
    } else if n == 3 && inp[0].token_type == TokenType::Identifier && inp[1].token_type
        == TokenType::Action {
        parse_ass_single_token_group(&inp[1], &inp[0], &inp[2])
    } else if n == 4 && inp[0].token_type == TokenType::Identifier && inp[1].token_type
        == TokenType::Action {
        parse_ass_dual_token_group(&inp[1], &inp[0], &inp[2], &inp[3])
    } else {
        Err(pattern_error_of(&inp))
    }
}

/// The statements of a token stream.
pub fn parse_tokens(tokens: &Vec<Token>) -> (r: Result<Vec<ASTNode>, ParseError>)
    ensures
        ast_result_view(r) == spec_parse_tokens(crate::lexer::tokens_view(tokens@)),
{
    let ghost all = crate::lexer::tokens_view(tokens@);
    let mut nodes: Vec<ASTNode> = Vec::new();
    let mut group: Vec<Token> = Vec::new();
    let mut i: usize = 0;
    proof {
        assert(crate::lexer::tokens_view(group@) + all.skip(0) =~= all);
        match spec_parse_tokens(all) {
            Ok(more) => {
                assert(ast_view(nodes@) + more =~= more);
            },
            Err(e) => {},
        }
    }
    while i < tokens.len()
        invariant
            i <= tokens.len(),
            all == crate::lexer::tokens_view(tokens@),
            is_line(crate::lexer::tokens_view(group@)),
            prepend_nodes(
                ast_view(nodes@),
                spec_parse_tokens(crate::lexer::tokens_view(group@) + all.skip(i as int)),
            ) == spec_parse_tokens(all),
        decreases tokens.len() - i,
    {
        let ghost g = crate::lexer::tokens_view(group@);
        let ghost rest = all.skip(i as int);
        let ghost done = ast_view(nodes@);
        proof {
            assert(rest[0] == all[i as int]);
            assert(rest.drop_first() =~= all.skip(i + 1));
        }
        if tokens[i].token_type == TokenType::NewLine {
            proof {
                lemma_parse_line(g, rest);
            }
            if group.len() > 0 {
                let mut line: Vec<Token> = Vec::new();
                std::mem::swap(&mut line, &mut group);
                match parse_token_group(line) {
                    Err(e) => {
                        return Err(e);
                    },
                    Ok(node) => {
                        nodes.push(node);
                        proof {
                            let next = all.skip(i + 1);
                            assert(crate::lexer::tokens_view(group@) + next =~= next);
                            assert(ast_view(nodes@) =~= done + seq![node@]);
                            match spec_parse_tokens(next) {
                                Ok(more) => {
                                    assert(done + (seq![node@] + more) =~= done + seq![node@]
                                        + more);
                                },
                                Err(e) => {},
                            }
                        }
                    },
                }
            } else {
                proof {
                    let next = all.skip(i + 1);
                    assert(crate::lexer::tokens_view(group@) + next =~= next);
                }
            }
        } else {
            let token = Token { token_type: tokens[i].token_type, value: tokens[i].value.clone() };
            group.push(token);
            proof {
                assert(crate::lexer::tokens_view(group@) =~= g.push(all[i as int]));
                assert(crate::lexer::tokens_view(group@) + all.skip(i + 1) =~= g + rest);
            }
        }
        i = i + 1;
    }
    let ghost g = crate::lexer::tokens_view(group@);
    let ghost done = ast_view(nodes@);
    proof {
        assert(all.skip(tokens.len() as int) =~= Seq::<TokenView>::empty());
        assert(g + Seq::<TokenView>::empty() =~= g);
        lemma_parse_last_line(g);
    }
    if group.len() > 0 {
        match parse_token_group(group) {
            Err(e) => {
                return Err(e);
            },
            Ok(node) => {
                nodes.push(node);
                proof {
                    assert(ast_view(nodes@) =~= done + seq![node@]);
                }
            },
        }
    } else {
        proof {
            assert(done + Seq::<AstView>::empty() =~= done);
        }
    }
    Ok(nodes)
}

/// Parses a program text: one statement for every line that is not empty.
/// The first line that is no statement gives the error, which quotes it.
pub fn parse(inp: String) -> (r: Result<Vec<ASTNode>, ParseError>)
    ensures
        ast_result_view(r) == spec_parse(inp@),
{
    let tokens = crate::lexer::tokenize(inp);
    parse_tokens(&tokens)
}

} // verus!
