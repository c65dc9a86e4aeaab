//! The lexer of the assembly language: program text to a flat token stream.

use vstd::prelude::*;

verus! {

/// The kinds of token.
#[derive(Debug, Copy, Clone, PartialEq, Eq, Structural)]
pub enum TokenType {
    Action,
    Prefabs,
    Identifier,
    Literal,
    OpenBracket,
    CloseBracket,
    NewLine,
}

/// One token: its kind and its text, with single quotes removed.
#[derive(Debug, Clone, PartialEq)]
pub struct Token {
    pub token_type: TokenType,
    pub value: String,
}

/// What a token says: its kind and the characters of its text.
pub struct TokenView {
    pub token_type: TokenType,
    pub value: Seq<char>,
}

impl View for Token {
    type V = TokenView;

    open spec fn view(&self) -> TokenView {
        TokenView { token_type: self.token_type, value: self.value@ }
    }
}

/// The views of a sequence of tokens.
pub open spec fn tokens_view(tokens: Seq<Token>) -> Seq<TokenView> {
    Seq::new(tokens.len(), |i: int| tokens[i]@)
}

/// The characters that end a word.
pub open spec fn is_separator(c: char) -> bool {
    c == ' ' || c == '\n' || c == '[' || c == ']'
}

/// No character of `w` ends a word.
pub open spec fn is_word(w: Seq<char>) -> bool {
    forall|i: int| 0 <= i < w.len() ==> !is_separator(#[trigger] w[i])
}

/// The names of the built-in operations.
pub open spec fn is_action(w: Seq<char>) -> bool {
    w == "INITIALIZE"@ || w == "MEASURE"@ || w == "SELECT"@ || w == "APPLY"@ || w == "CONCAT"@
        || w == "TENSOR"@ || w == "INVERSE"@
}

/// `w` begins with `prefix`.
pub open spec fn has_prefix(w: Seq<char>, prefix: Seq<char>) -> bool {
    prefix.len() <= w.len() && w.take(prefix.len() as int) == prefix
}

/// A decimal digit.
pub open spec fn is_digit(c: char) -> bool {
    '0' <= c && c <= '9'
}

/// A non-empty run of decimal digits.
pub open spec fn is_number(w: Seq<char>) -> bool {
    w.len() > 0 && forall|i: int| 0 <= i < w.len() ==> is_digit(#[trigger] w[i])
}

/// The kind of a word: an operation name, else a gate name (anything that
/// begins with `G_`), else a number, else an identifier.
pub open spec fn classify(w: Seq<char>) -> TokenType {
    if is_action(w) {
        TokenType::Action
    } else if has_prefix(w, "G_"@) {
        TokenType::Prefabs
    } else if is_number(w) {
        TokenType::Literal
    } else {
        TokenType::Identifier
    }
}

/// `w` without its single quotes.
pub open spec fn strip_quotes(w: Seq<char>) -> Seq<char>
    decreases w.len(),
{
    if w.len() == 0 {
        Seq::empty()
    } else if w.last() == '\'' {
        strip_quotes(w.drop_last())
    } else {
        strip_quotes(w.drop_last()).push(w.last())
    }
}

/// The token of a word. The kind is that of the word as written; the text
/// is the word without single quotes.
pub open spec fn word_token(w: Seq<char>) -> TokenView {
    TokenView { token_type: classify(w), value: strip_quotes(w) }
}

/// The tokens that a separator stands for: none for a space, one for a line
/// break or a bracket.
pub open spec fn separator_tokens(c: char) -> Seq<TokenView> {
    if c == '\n' {
        seq![TokenView { token_type: TokenType::NewLine, value: "\n"@ }]
    } else if c == '[' {
        seq![TokenView { token_type: TokenType::OpenBracket, value: "["@ }]
    } else if c == ']' {
        seq![TokenView { token_type: TokenType::CloseBracket, value: "]"@ }]
    } else {
        Seq::empty()
    }
}

/// The length of the longest prefix of `s` that holds no separator.
pub open spec fn word_len(s: Seq<char>) -> nat
    decreases s.len(),
{
    if s.len() == 0 || is_separator(s[0]) {
        0
    } else {
        1 + word_len(s.drop_first())
    }
}

/// The token stream of a text: separators give their own tokens, and every
/// maximal run of other characters gives one word token.
pub open spec fn lex(s: Seq<char>) -> Seq<TokenView>
    decreases s.len(),
{
    if s.len() == 0 {
        Seq::empty()
    } else if is_separator(s[0]) {
        separator_tokens(s[0]) + lex(s.drop_first())
    } else {
        let n = word_len(s);
        if 0 < n <= s.len() {
            seq![word_token(s.take(n as int))] + lex(s.skip(n as int))
        } else {
            Seq::empty()
        }
    }
}

/// The tokens of a word that has come to its end: none if it is empty.
pub open spec fn pending_tokens(w: Seq<char>) -> Seq<TokenView> {
    if w.len() == 0 {
        Seq::empty()
    } else {
        seq![word_token(w)]
    }
}

/// `rest` is empty or begins with a separator.
pub open spec fn at_word_end(rest: Seq<char>) -> bool {
    rest.len() == 0 || is_separator(rest[0])
}

proof fn lemma_word_len(w: Seq<char>, rest: Seq<char>)
    requires
        is_word(w),
        at_word_end(rest),
    ensures
        word_len(w + rest) == w.len(),
    decreases w.len(),
{
    let s = w + rest;
    if w.len() == 0 {
        assert(s =~= rest);
    } else {
        assert(s[0] == w[0]);
        assert(s.drop_first() =~= w.drop_first() + rest);
        assert(is_word(w.drop_first())) by {
            assert forall|i: int| 0 <= i < w.drop_first().len() implies !is_separator(
                #[trigger] w.drop_first()[i],
            ) by {
                assert(w.drop_first()[i] == w[i + 1]);
            }
        }
        lemma_word_len(w.drop_first(), rest);
    }
}

/// A word followed by the end of the text or by a separator is lexed as one
/// token, and the rest follows.
pub proof fn lemma_lex_word(w: Seq<char>, rest: Seq<char>)
    requires
        is_word(w),
        at_word_end(rest),
    ensures
        lex(w + rest) == pending_tokens(w) + lex(rest),
{
    let s = w + rest;
    if w.len() == 0 {
        assert(s =~= rest);
        assert(pending_tokens(w) + lex(rest) =~= lex(rest));
    } else {
        lemma_word_len(w, rest);
        assert(s[0] == w[0]);
        assert(s.take(w.len() as int) =~= w);
        assert(s.skip(w.len() as int) =~= rest);
    }
}

/// Whether the characters of `w` are exactly those of `text`.
pub fn chars_are(w: &Vec<char>, text: &str) -> (r: bool)
    ensures
        r == (w@ == text@),
{
    let n = text.unicode_len();
    if w.len() != n {
        return false;
    }
    let mut i: usize = 0;
    while i < n
        invariant
            i <= n,
            n == w.len(),
            n == text@.len(),
            forall|j: int| 0 <= j < i ==> w@[j] == text@[j],
        decreases n - i,
    {
        if w[i] != text.get_char(i) {
            return false;
        }
        i = i + 1;
    }
    assert(w@ =~= text@);
    true
}

/// Whether `w` begins with the characters of `text`.
pub fn chars_start_with(w: &Vec<char>, text: &str) -> (r: bool)
    ensures
        r == has_prefix(w@, text@),
{
    let n = text.unicode_len();
    if w.len() < n {
        return false;
    }
    let mut i: usize = 0;
    while i < n
        invariant
            i <= n,
            n <= w.len(),
            n == text@.len(),
            forall|j: int| 0 <= j < i ==> w@[j] == text@[j],
        decreases n - i,
    {
        if w[i] != text.get_char(i) {
            assert(w@.take(n as int)[i as int] != text@[i as int]);
            return false;
        }
        i = i + 1;
    }
    assert(w@.take(n as int) =~= text@);
    true
}

/// Whether `w` is a non-empty run of decimal digits.
pub fn chars_are_number(w: &Vec<char>) -> (r: bool)
    ensures
        r == is_number(w@),
{
    if w.len() == 0 {
        return false;
    }
    let mut i: usize = 0;
    while i < w.len()
        invariant
            i <= w.len(),
            forall|j: int| 0 <= j < i ==> is_digit(#[trigger] w@[j]),
        decreases w.len() - i,
    {
        let c = w[i];
        if !('0' <= c && c <= '9') {
            return false;
        }
        i = i + 1;
    }
    true
}

/// The kind of a word given by its characters.
pub fn classify_chars(w: &Vec<char>) -> (t: TokenType)
    ensures
        t == classify(w@),
{
    if chars_are(w, "INITIALIZE") || chars_are(w, "MEASURE") || chars_are(w, "SELECT")
        || chars_are(w, "APPLY") || chars_are(w, "CONCAT") || chars_are(w, "TENSOR") || chars_are(
        w,
        "INVERSE",
    ) {
        TokenType::Action
    } else if chars_start_with(w, "G_") {
        TokenType::Prefabs
    } else if chars_are_number(w) {
        TokenType::Literal
    } else {
        TokenType::Identifier
    }
}

/// The kind of a word.
pub fn match_token_type(token: &String) -> (t: TokenType)
    ensures
        t == classify(token@),
{
    let w = crate::text::chars_of(token.as_str());
    classify_chars(&w)
}

/// The word without its single quotes.
pub fn without_quotes(token: &String) -> (r: String)
    ensures
        r@ == strip_quotes(token@),
{
    let w = crate::text::chars_of(token.as_str());
    let mut out = String::new();
    let mut i: usize = 0;
    while i < w.len()
        invariant
            i <= w.len(),
            w@ == token@,
            out@ == strip_quotes(w@.take(i as int)),
        decreases w.len() - i,
    {
        proof {
            assert(w@.take(i + 1).drop_last() =~= w@.take(i as int));
        }
        if w[i] != '\'' {
            crate::text::push_char(&mut out, w[i]);
        }
        i = i + 1;
    }
    proof {
        assert(w@.take(w@.len() as int) =~= w@);
    }
    out
}

/// Ends the word in progress: if it is not empty, its token is appended and
/// the word is emptied.
pub fn push_current_token(tokens: &mut Vec<Token>, current_token: &mut String)
    ensures
        tokens_view(final(tokens)@) == tokens_view(old(tokens)@) + pending_tokens(
            old(current_token)@,
        ),
        final(current_token)@ == Seq::<char>::empty(),
{
    if !current_token.as_str().is_empty() {
        let token_type = match_token_type(current_token);
        let value = without_quotes(current_token);
        let ghost before = tokens@;
        let token = Token { token_type, value };
        tokens.push(token);
        *current_token = String::new();
        assert(tokens_view(tokens@) =~= tokens_view(before) + seq![token@]);
    } else {
        assert(tokens_view(tokens@) =~= tokens_view(tokens@) + Seq::<TokenView>::empty());
    }
}

/// Appends the token of a line break or a bracket.
fn push_separator_token(tokens: &mut Vec<Token>, c: char)
    requires
        c == '\n' || c == '[' || c == ']',
    ensures
        tokens_view(final(tokens)@) == tokens_view(old(tokens)@) + separator_tokens(c),
{
    let ghost before = tokens@;
    let token = if c == '\n' {
        Token { token_type: TokenType::NewLine, value: String::from_str("\n") }
    } else if c == '[' {
        Token { token_type: TokenType::OpenBracket, value: String::from_str("[") }
    } else {
        Token { token_type: TokenType::CloseBracket, value: String::from_str("]") }
    };
    tokens.push(token);
    assert(tokens_view(tokens@) =~= tokens_view(before) + seq![token@]);
}

/// Splits a program text into tokens.
///
/// Spaces, line breaks and the two square brackets end a word; a line break
/// and each bracket is a token of its own. A word is an operation name, a
/// gate name, a number or an identifier, and loses its single quotes.
pub fn tokenize(inp: String) -> (tokens: Vec<Token>)
    ensures
        tokens_view(tokens@) == lex(inp@),
{
    let chars = crate::text::chars_of(inp.as_str());
    let mut tokens: Vec<Token> = Vec::new();
    let mut current_token = String::new();
    let mut i: usize = 0;
    proof {
        assert(current_token@ + chars@.skip(0) =~= chars@);
        assert(tokens_view(tokens@) + lex(chars@) =~= lex(chars@));
    }
    while i < chars.len()
        invariant
            i <= chars.len(),
            chars@ == inp@,
            is_word(current_token@),
            tokens_view(tokens@) + lex(current_token@ + chars@.skip(i as int)) == lex(chars@),
        decreases chars.len() - i,
    {
        let c = chars[i];
        let ghost word = current_token@;
        let ghost rest = chars@.skip(i as int);
        let ghost emitted = tokens_view(tokens@);
        proof {
            assert(rest[0] == c);
            assert(rest.drop_first() =~= chars@.skip(i + 1));
        }
        if c == ' ' || c == '\n' || c == '[' || c == ']' {
            proof {
                lemma_lex_word(word, rest);
            }
            push_current_token(&mut tokens, &mut current_token);
            if c != ' ' {
                push_separator_token(&mut tokens, c);
            }
            proof {
                let next = chars@.skip(i + 1);
                assert(current_token@ + next =~= next);
                assert(tokens_view(tokens@) =~= emitted + pending_tokens(word) + separator_tokens(
                    c,
                ));
                assert(lex(rest) == separator_tokens(c) + lex(next));
                assert(emitted + (pending_tokens(word) + (separator_tokens(c) + lex(next)))
                    =~= emitted + pending_tokens(word) + separator_tokens(c) + lex(next));
            }
        } else {
            crate::text::push_char(&mut current_token, c);
            proof {
                assert(current_token@ + chars@.skip(i + 1) =~= word + rest);
            }
        }
        i = i + 1;
    }
    let ghost word = current_token@;
    let ghost emitted = tokens_view(tokens@);
    proof {
        assert(chars@.skip(chars@.len() as int) =~= Seq::<char>::empty());
        lemma_lex_word(word, Seq::empty());
        assert(lex(Seq::<char>::empty()) =~= Seq::<TokenView>::empty());
        assert(emitted + (pending_tokens(word) + Seq::<TokenView>::empty()) =~= emitted
            + pending_tokens(word));
    }
    push_current_token(&mut tokens, &mut current_token);
    tokens
}

} // verus!
