use fsm_graph::model::{FromState, StateMachineDef, Transition};
use fsm_graph::parser::{parse, Expected, Found, ParseError};
use fsm_graph::token::{Delimiter, Spacing, Token};
use proc_macro2::{TokenStream, TokenTree};

fn ident(name: &str) -> Token {
    Token::Ident(name.to_string())
}

fn paren(inner: Vec<Token>) -> Token {
    Token::Group(Delimiter::Parenthesis, inner)
}

fn brace(inner: Vec<Token>) -> Token {
    Token::Group(Delimiter::Brace, inner)
}

fn bracket(inner: Vec<Token>) -> Token {
    Token::Group(Delimiter::Bracket, inner)
}

fn eq() -> Token {
    Token::Punct('=', Spacing::Joint)
}

fn gt() -> Token {
    Token::Punct('>', Spacing::Alone)
}

fn comma() -> Token {
    Token::Punct(',', Spacing::Alone)
}

fn tokens_of(stream: TokenStream) -> Vec<Token> {
    stream
        .into_iter()
        .map(|tree| match tree {
            TokenTree::Group(group) => Token::Group(
                match group.delimiter() {
                    proc_macro2::Delimiter::Parenthesis => Delimiter::Parenthesis,
                    proc_macro2::Delimiter::Brace => Delimiter::Brace,
                    proc_macro2::Delimiter::Bracket => Delimiter::Bracket,
                    proc_macro2::Delimiter::None => Delimiter::Invisible,
                },
                tokens_of(group.stream()),
            ),
            TokenTree::Ident(word) => Token::Ident(word.to_string()),
            TokenTree::Punct(punct) => Token::Punct(
                punct.as_char(),
                match punct.spacing() {
                    proc_macro2::Spacing::Alone => Spacing::Alone,
                    proc_macro2::Spacing::Joint => Spacing::Joint,
                },
            ),
            TokenTree::Literal(literal) => Token::Literal(literal.to_string()),
        })
        .collect()
}

fn lex(text: &str) -> Vec<Token> {
    tokens_of(text.parse::<TokenStream>().unwrap())
}

fn transition(input: &str, to: &str, output: Option<&str>) -> Transition {
    Transition {
        input_value: input.to_string(),
        final_state: to.to_string(),
        output: output.map(|o| o.to_string()),
    }
}

fn from_state(state: &str, transitions: Vec<Transition>) -> FromState {
    FromState { initial_state: state.to_string(), transitions }
}

fn error(expected: Expected, found: Found) -> ParseError {
    ParseError { expected, found }
}

#[test]
fn parses_inline_and_braced_groups() {
    // Name(A) A(x) => B, B => { y => A, z => B }
    let tokens = vec![
        ident("Name"),
        paren(vec![ident("A")]),
        ident("A"),
        paren(vec![ident("x")]),
        eq(),
        gt(),
        ident("B"),
        comma(),
        ident("B"),
        eq(),
        gt(),
        brace(vec![
            ident("y"),
            eq(),
            gt(),
            ident("A"),
            comma(),
            ident("z"),
            eq(),
            gt(),
            ident("B"),
        ]),
    ];
    let def = parse(&tokens).unwrap();
    assert_eq!(def.name, "Name");
    assert_eq!(def.initial_state, "A");
    assert_eq!(def.transitions.len(), 2);
    assert_eq!(def.transitions[0], from_state("A", vec![transition("x", "B", None)]));
    assert_eq!(
        def.transitions[1],
        from_state("B", vec![transition("y", "A", None), transition("z", "B", None)])
    );
}

#[test]
fn parses_the_same_block_from_text() {
    let def = parse(&lex("Name(A) A(x) => B, B => { y => A, z => B }")).unwrap();
    assert_eq!(
        def,
        StateMachineDef {
            name: "Name".to_string(),
            initial_state: "A".to_string(),
            transitions: vec![
                from_state("A", vec![transition("x", "B", None)]),
                from_state("B", vec![transition("y", "A", None), transition("z", "B", None)]),
            ],
        }
    );
}

#[test]
fn parses_circuit_breaker_with_attribute_and_outputs() {
    let text = "derive(Debug)
        CircuitBreaker(Closed)

        Closed(Unsuccessful) => Open [SetupTimer],
        Open(TimerTriggered) => HalfOpen,
        HalfOpen => {
            Successful => Closed,
            Unsuccessful => Open [SetupTimer],
        }";
    let def = parse(&lex(text)).unwrap();
    assert_eq!(
        def,
        StateMachineDef {
            name: "CircuitBreaker".to_string(),
            initial_state: "Closed".to_string(),
            transitions: vec![
                from_state("Closed", vec![transition("Unsuccessful", "Open", Some("SetupTimer"))]),
                from_state("Open", vec![transition("TimerTriggered", "HalfOpen", None)]),
                from_state(
                    "HalfOpen",
                    vec![
                        transition("Successful", "Closed", None),
                        transition("Unsuccessful", "Open", Some("SetupTimer")),
                    ]
                ),
            ],
        }
    );
}

#[test]
fn parses_a_block_without_transitions() {
    let def = parse(&lex("Lonely(Only)")).unwrap();
    assert_eq!(def.name, "Lonely");
    assert_eq!(def.initial_state, "Only");
    assert!(def.transitions.is_empty());
}

#[test]
fn skips_visibility_and_derive_attributes() {
    let def = parse(&lex("derive(Debug, Clone) pub(crate) Door(Shut) Shut(push) => Open")).unwrap();
    assert_eq!(def.name, "Door");
    assert_eq!(def.initial_state, "Shut");
    assert_eq!(def.transitions, vec![from_state("Shut", vec![transition("push", "Open", None)])]);
    let bare = parse(&lex("pub Door(Shut)")).unwrap();
    assert_eq!(bare.name, "Door");
}

#[test]
fn commas_between_groups_and_entries_are_optional() {
    let with = parse(&lex("M(A) A(x) => B, B => { y => A, z => B, },")).unwrap();
    let without = parse(&lex("M(A) A(x) => B B => { y => A z => B }")).unwrap();
    assert_eq!(with, without);
    assert_eq!(with.transitions.len(), 2);
    assert_eq!(with.transitions[1].transitions.len(), 2);
}

#[test]
fn braced_group_may_be_empty() {
    let def = parse(&lex("M(A) A => { }")).unwrap();
    assert_eq!(def.transitions, vec![from_state("A", vec![])]);
}

#[test]
fn same_final_state_may_come_twice() {
    let def = parse(&lex("M(A) A => { x => B, y => B [Ring], z => B }")).unwrap();
    assert_eq!(
        def.transitions,
        vec![from_state(
            "A",
            vec![
                transition("x", "B", None),
                transition("y", "B", Some("Ring")),
                transition("z", "B", None),
            ]
        )]
    );
}

#[test]
fn missing_arrow_after_from_state_is_rejected() {
    let err = parse(&lex("Name(A) A { x => B }")).unwrap_err();
    assert_eq!(err, error(Expected::FatArrow, Found::Group(Delimiter::Brace)));
    assert_eq!(err.message(), "expected `=>`, found curly braces");
    let err = parse(&lex("Name(A) A B")).unwrap_err();
    assert_eq!(err, error(Expected::FatArrow, Found::Ident("B".to_string())));
    assert_eq!(err.message(), "expected `=>`, found identifier `B`");
    let err = parse(&lex("Name(A) A")).unwrap_err();
    assert_eq!(err, error(Expected::FatArrow, Found::End));
    assert_eq!(err.message(), "expected `=>`, found end of input");
}

#[test]
fn missing_arrow_in_inline_group_is_rejected() {
    let err = parse(&lex("Name(A) A(x) B")).unwrap_err();
    assert_eq!(err, error(Expected::FatArrow, Found::Ident("B".to_string())));
    let err = parse(&lex("Name(A) A(x) -> B")).unwrap_err();
    assert_eq!(err, error(Expected::FatArrow, Found::Punct('-')));
    assert_eq!(err.message(), "expected `=>`, found `-`");
}

#[test]
fn arrow_must_be_glued() {
    let err = parse(&lex("Name(A) A(x) = > B")).unwrap_err();
    assert_eq!(err, error(Expected::FatArrow, Found::Punct('=')));
    let tokens = vec![
        ident("Name"),
        paren(vec![ident("A")]),
        ident("A"),
        paren(vec![ident("x")]),
        eq(),
        ident("B"),
    ];
    assert_eq!(parse(&tokens).unwrap_err(), error(Expected::FatArrow, Found::Punct('=')));
}

#[test]
fn missing_arrow_in_entry_is_rejected() {
    let err = parse(&lex("Name(A) A => { x B }")).unwrap_err();
    assert_eq!(err, error(Expected::FatArrow, Found::Ident("B".to_string())));
}

#[test]
fn empty_block_is_rejected() {
    let err = parse(&Vec::new()).unwrap_err();
    assert_eq!(err, error(Expected::Ident, Found::End));
    assert_eq!(err.message(), "expected identifier, found end of input");
}

#[test]
fn name_must_be_an_identifier() {
    let err = parse(&lex("\"Name\"(A)")).unwrap_err();
    assert_eq!(err, error(Expected::Ident, Found::Literal("\"Name\"".to_string())));
    assert_eq!(err.message(), "expected identifier, found literal `\"Name\"`");
    let err = parse(&lex("derive(Debug)")).unwrap_err();
    assert_eq!(err, error(Expected::Ident, Found::End));
}

#[test]
fn initial_state_must_be_parenthesized() {
    let err = parse(&lex("Name")).unwrap_err();
    assert_eq!(err, error(Expected::Parenthesized, Found::End));
    assert_eq!(err.message(), "expected parentheses, found end of input");
    let err = parse(&lex("Name [A]")).unwrap_err();
    assert_eq!(err, error(Expected::Parenthesized, Found::Group(Delimiter::Bracket)));
    assert_eq!(err.message(), "expected parentheses, found square brackets");
    let err = parse(&lex("Name = (A)")).unwrap_err();
    assert_eq!(err, error(Expected::Parenthesized, Found::Punct('=')));
}

#[test]
fn attributes_after_the_name_are_skipped() {
    let def = parse(&lex("Name plain repr(C, packed) (A) A(x) => B")).unwrap();
    assert_eq!(def.name, "Name");
    assert_eq!(def.initial_state, "A");
    assert_eq!(def.transitions, vec![from_state("A", vec![transition("x", "B", None)])]);
}

#[test]
fn attribute_takes_the_group_that_follows_it() {
    let err = parse(&lex("Name plain(A)")).unwrap_err();
    assert_eq!(err, error(Expected::Parenthesized, Found::End));
    let err = parse(&lex("Name A")).unwrap_err();
    assert_eq!(err, error(Expected::Parenthesized, Found::End));
}

#[test]
fn initial_state_must_be_one_identifier() {
    let err = parse(&lex("Name()")).unwrap_err();
    assert_eq!(err, error(Expected::Ident, Found::End));
    let err = parse(&lex("Name(A B)")).unwrap_err();
    assert_eq!(err, error(Expected::End, Found::Ident("B".to_string())));
    assert_eq!(err.message(), "expected end of input, found identifier `B`");
    let err = parse(&lex("Name(1)")).unwrap_err();
    assert_eq!(err, error(Expected::Ident, Found::Literal("1".to_string())));
}

#[test]
fn braces_must_follow_the_arrow() {
    let err = parse(&lex("Name(A) A => B")).unwrap_err();
    assert_eq!(err, error(Expected::Braced, Found::Ident("B".to_string())));
    assert_eq!(err.message(), "expected curly braces, found identifier `B`");
    let err = parse(&lex("Name(A) A => (x)")).unwrap_err();
    assert_eq!(err, error(Expected::Braced, Found::Group(Delimiter::Parenthesis)));
    assert_eq!(err.message(), "expected curly braces, found parentheses");
}

#[test]
fn target_must_be_an_identifier() {
    let err = parse(&lex("Name(A) A(x) => ")).unwrap_err();
    assert_eq!(err, error(Expected::Ident, Found::End));
    let err = parse(&lex("Name(A) A(x) => [Out]")).unwrap_err();
    assert_eq!(err, error(Expected::Ident, Found::Group(Delimiter::Bracket)));
    let err = parse(&lex("Name(A) A => { x => , }")).unwrap_err();
    assert_eq!(err, error(Expected::Ident, Found::Punct(',')));
    assert_eq!(err.message(), "expected identifier, found `,`");
}

#[test]
fn output_must_be_one_identifier() {
    let err = parse(&lex("Name(A) A(x) => B []")).unwrap_err();
    assert_eq!(err, error(Expected::Ident, Found::End));
    let err = parse(&lex("Name(A) A(x) => B [Out Extra]")).unwrap_err();
    assert_eq!(err, error(Expected::End, Found::Ident("Extra".to_string())));
}

#[test]
fn leftover_tokens_are_rejected() {
    let err = parse(&lex("Name(A) A(x) => B ;")).unwrap_err();
    assert_eq!(err, error(Expected::Ident, Found::Punct(';')));
    let err = parse(&lex("Name(A) A(x) => B , ,")).unwrap_err();
    assert_eq!(err, error(Expected::Ident, Found::Punct(',')));
    let err = parse(&lex("Name(A) A => { x => B ; }")).unwrap_err();
    assert_eq!(err, error(Expected::Ident, Found::Punct(';')));
}

#[test]
fn invisible_group_is_named_in_message() {
    let err = parse(&vec![ident("Name"), Token::Group(Delimiter::Invisible, vec![])]).unwrap_err();
    assert_eq!(err, error(Expected::Parenthesized, Found::Group(Delimiter::Invisible)));
    assert_eq!(err.message(), "expected parentheses, found invisible group");
}

#[test]
fn output_in_brackets_is_attached_to_the_transition() {
    // Door(Shut) Shut(push) => Open [Creak]
    let tokens = vec![
        ident("Door"),
        paren(vec![ident("Shut")]),
        ident("Shut"),
        paren(vec![ident("push")]),
        eq(),
        gt(),
        ident("Open"),
        bracket(vec![ident("Creak")]),
    ];
    let def = parse(&tokens).unwrap();
    assert_eq!(
        def.transitions,
        vec![from_state("Shut", vec![transition("push", "Open", Some("Creak"))])]
    );
}
