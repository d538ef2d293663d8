//! Reads the tokens of one state-machine block into a
//! [`StateMachineDef`].
//!
//! The grammar, over the tokens of the block:
//!
//! ```text
//! block      := decoration* IDENT attribute* '(' IDENT ')' group*
//! decoration := ('derive' | 'pub') ('(' ANY* ')')?
//! attribute  := IDENT ('(' ANY* ')')?
//! group      := IDENT '(' IDENT ')' '=>' target ','?
//!             | IDENT '=>' '{' entry* '}' ','?
//! entry      := IDENT '=>' target ','?
//! target     := IDENT ('[' IDENT ']')?
//! ```
//!
//! The first identifier that is not a decoration is the machine's name. The
//! identifier in the parentheses that close the head is the initial state.
//! Decorations and attributes carry no meaning and are skipped, each with
//! the parenthesized group that directly follows it, if any. `=>` is the
//! character `=` glued to a following `>`. Parsing reads left to right and
//! stops at the first token that does not fit.

use vstd::prelude::*;
use crate::model::{
    FromState,
    FromStateView,
    StateMachineDef,
    StateMachineDefView,
    Transition,
    TransitionView,
};
use crate::text::{push_char, push_str};
use crate::token::{Delimiter, Spacing, Token};

verus! {

/// What the parser was looking for when it stopped.
#[derive(Clone, Copy, Debug, PartialEq, Eq)]
pub enum Expected {
    /// An identifier.
    Ident,
    /// The arrow `=>`.
    FatArrow,
    /// A group in parentheses.
    Parenthesized,
    /// A group in braces.
    Braced,
    /// The end of the tokens of the block or of a group.
    End,
}

/// What the parser found instead.
#[derive(Clone, Debug, PartialEq, Eq)]
pub enum Found {
    /// A group with the given brackets.
    Group(Delimiter),
    /// An identifier.
    Ident(String),
    /// A punctuation character.
    Punct(char),
    /// A literal.
    Literal(String),
    /// Nothing: the tokens had run out.
    End,
}

/// A grammar error: the construct that was expected and the token found.
#[derive(Clone, Debug, PartialEq, Eq)]
pub struct ParseError {
    pub expected: Expected,
    pub found: Found,
}

/// Mathematical content of a [`Found`].
pub enum FoundView {
    Group(Delimiter),
    Ident(Seq<char>),
    Punct(char),
    Literal(Seq<char>),
    End,
}

/// Mathematical content of a [`ParseError`].
pub struct ParseErrorView {
    pub expected: Expected,
    pub found: FoundView,
}

impl View for Found {
    type V = FoundView;

    open spec fn view(&self) -> FoundView {
        match self {
            Found::Group(d) => FoundView::Group(*d),
            Found::Ident(s) => FoundView::Ident(s@),
            Found::Punct(c) => FoundView::Punct(*c),
            Found::Literal(s) => FoundView::Literal(s@),
            Found::End => FoundView::End,
        }
    }
}

impl View for ParseError {
    type V = ParseErrorView;

    open spec fn view(&self) -> ParseErrorView {
        ParseErrorView { expected: self.expected, found: self.found@ }
    }
}

/// How an expected construct is named in a message.
pub open spec fn expected_text(expected: Expected) -> Seq<char> {
    match expected {
        Expected::Ident => "identifier"@,
        Expected::FatArrow => "`=>`"@,
        Expected::Parenthesized => "parentheses"@,
        Expected::Braced => "curly braces"@,
        Expected::End => "end of input"@,
    }
}

/// How a group is named in a message.
pub open spec fn delimiter_text(delimiter: Delimiter) -> Seq<char> {
    match delimiter {
        Delimiter::Parenthesis => "parentheses"@,
        Delimiter::Brace => "curly braces"@,
        Delimiter::Bracket => "square brackets"@,
        Delimiter::Invisible => "invisible group"@,
    }
}

/// How a found token is named in a message.
pub open spec fn found_text(found: FoundView) -> Seq<char> {
    match found {
        FoundView::Group(d) => delimiter_text(d),
        FoundView::Ident(s) => "identifier `"@ + s + "`"@,
        FoundView::Punct(c) => "`"@.push(c) + "`"@,
        FoundView::Literal(s) => "literal `"@ + s + "`"@,
        FoundView::End => "end of input"@,
    }
}

/// The message of an error: `expected X, found Y`.
pub open spec fn message_text(error: ParseErrorView) -> Seq<char> {
    "expected "@ + expected_text(error.expected) + ", found "@ + found_text(error.found)
}

impl ParseError {
    /// The error as a sentence that names what was expected and what was
    /// found.
    pub fn message(&self) -> (text: String)
        ensures
            text@ == message_text(self@),
    {
        let mut text = String::new();
        push_str(&mut text, "expected ");
        match self.expected {
            Expected::Ident => push_str(&mut text, "identifier"),
            Expected::FatArrow => push_str(&mut text, "`=>`"),
            Expected::Parenthesized => push_str(&mut text, "parentheses"),
            Expected::Braced => push_str(&mut text, "curly braces"),
            Expected::End => push_str(&mut text, "end of input"),
        }
        push_str(&mut text, ", found ");
        let ghost head = text@;
        assert(head == "expected "@ + expected_text(self.expected) + ", found "@);
        match &self.found {
            Found::Group(d) => {
                match d {
                    Delimiter::Parenthesis => push_str(&mut text, "parentheses"),
                    Delimiter::Brace => push_str(&mut text, "curly braces"),
                    Delimiter::Bracket => push_str(&mut text, "square brackets"),
                    Delimiter::Invisible => push_str(&mut text, "invisible group"),
                }
            },
            Found::Ident(s) => {
                push_str(&mut text, "identifier `");
                push_str(&mut text, s.as_str());
                push_str(&mut text, "`");
                assert(text@ == head + ("identifier `"@ + s@ + "`"@));
            },
            Found::Punct(c) => {
                push_str(&mut text, "`");
                push_char(&mut text, *c);
                push_str(&mut text, "`");
                assert(text@ == head + ("`"@.push(*c) + "`"@));
            },
            Found::Literal(s) => {
                push_str(&mut text, "literal `");
                push_str(&mut text, s.as_str());
                push_str(&mut text, "`");
                assert(text@ == head + ("literal `"@ + s@ + "`"@));
            },
            Found::End => push_str(&mut text, "end of input"),
        }
        text
    }
}

/// What stands at position `pos`, as an error reports it.
pub open spec fn found_at(toks: Seq<Token>, pos: int) -> FoundView {
    if 0 <= pos < toks.len() {
        match toks[pos] {
            Token::Group(d, _) => FoundView::Group(d),
            Token::Ident(s) => FoundView::Ident(s@),
            Token::Punct(c, _) => FoundView::Punct(c),
            Token::Literal(s) => FoundView::Literal(s@),
        }
    } else {
        FoundView::End
    }
}

/// The error for `expected` missing at position `pos`.
pub open spec fn failure(expected: Expected, toks: Seq<Token>, pos: int) -> ParseErrorView {
    ParseErrorView { expected, found: found_at(toks, pos) }
}

/// An identifier stands at `pos`.
pub open spec fn is_ident_at(toks: Seq<Token>, pos: int) -> bool {
    0 <= pos < toks.len() && toks[pos] is Ident
}

/// The text of the identifier at `pos`.
pub open spec fn ident_text(toks: Seq<Token>, pos: int) -> Seq<char> {
    match toks[pos] {
        Token::Ident(s) => s@,
        _ => Seq::empty(),
    }
}

/// A group with brackets `delimiter` stands at `pos`.
pub open spec fn is_group_at(toks: Seq<Token>, pos: int, delimiter: Delimiter) -> bool {
    0 <= pos < toks.len() && match toks[pos] {
        Token::Group(d, _) => d == delimiter,
        _ => false,
    }
}

/// The tokens inside the group at `pos`.
pub open spec fn group_body(toks: Seq<Token>, pos: int) -> Seq<Token> {
    match toks[pos] {
        Token::Group(_, inner) => inner@,
        _ => Seq::empty(),
    }
}

/// The punctuation character `c` stands at `pos`.
pub open spec fn is_punct_at(toks: Seq<Token>, pos: int, c: char) -> bool {
    0 <= pos < toks.len() && match toks[pos] {
        Token::Punct(p, _) => p == c,
        _ => false,
    }
}

/// The arrow `=>` stands at `pos`: a `=` glued to the `>` after it.
pub open spec fn is_fat_arrow_at(toks: Seq<Token>, pos: int) -> bool {
    0 <= pos < toks.len() && toks[pos] == Token::Punct('=', Spacing::Joint) && is_punct_at(
        toks,
        pos + 1,
        '>',
    )
}

/// The position after an optional comma at `pos`.
pub open spec fn skip_comma(toks: Seq<Token>, pos: int) -> int {
    if is_punct_at(toks, pos, ',') {
        pos + 1
    } else {
        pos
    }
}

/// The words that open a decoration in front of the machine's name.
pub open spec fn is_decoration_word(word: Seq<char>) -> bool {
    word == "derive"@ || word == "pub"@
}

/// The position after the decorations that start at `pos`.
pub open spec fn skip_decorations(toks: Seq<Token>, pos: int) -> int
    decreases toks.len() - pos,
{
    if is_ident_at(toks, pos) && is_decoration_word(ident_text(toks, pos)) {
        if is_group_at(toks, pos + 1, Delimiter::Parenthesis) {
            skip_decorations(toks, pos + 2)
        } else {
            skip_decorations(toks, pos + 1)
        }
    } else {
        pos
    }
}

/// The position after the attributes that start at `pos`.
pub open spec fn skip_attributes(toks: Seq<Token>, pos: int) -> int
    decreases toks.len() - pos,
{
    if is_ident_at(toks, pos) {
        if is_group_at(toks, pos + 1, Delimiter::Parenthesis) {
            skip_attributes(toks, pos + 2)
        } else {
            skip_attributes(toks, pos + 1)
        }
    } else {
        pos
    }
}

/// The identifier that is all a group holds.
pub open spec fn parsed_single_ident(inner: Seq<Token>) -> Result<Seq<char>, ParseErrorView> {
    if !is_ident_at(inner, 0) {
        Err(failure(Expected::Ident, inner, 0))
    } else if inner.len() > 1 {
        Err(failure(Expected::End, inner, 1))
    } else {
        Ok(ident_text(inner, 0))
    }
}

/// A parsed target: the final state, the output, and the position after it.
pub struct TargetView {
    pub final_state: Seq<char>,
    pub output: Option<Seq<char>>,
    pub next: int,
}

/// The target that starts at `pos`.
pub open spec fn parsed_target(toks: Seq<Token>, pos: int) -> Result<TargetView, ParseErrorView> {
    if !is_ident_at(toks, pos) {
        Err(failure(Expected::Ident, toks, pos))
    } else if is_group_at(toks, pos + 1, Delimiter::Bracket) {
        match parsed_single_ident(group_body(toks, pos + 1)) {
            Err(e) => Err(e),
            Ok(output) => Ok(
                TargetView {
                    final_state: ident_text(toks, pos),
                    output: Some(output),
                    next: pos + 2,
                },
            ),
        }
    } else {
        Ok(TargetView { final_state: ident_text(toks, pos), output: None, next: pos + 1 })
    }
}

/// The entry `IDENT => target ,?` that starts at `pos`, and the position
/// after it.
pub open spec fn parsed_entry(toks: Seq<Token>, pos: int) -> Result<
    (TransitionView, int),
    ParseErrorView,
> {
    if !is_ident_at(toks, pos) {
        Err(failure(Expected::Ident, toks, pos))
    } else if !is_fat_arrow_at(toks, pos + 1) {
        Err(failure(Expected::FatArrow, toks, pos + 1))
    } else {
        match parsed_target(toks, pos + 3) {
            Err(e) => Err(e),
            Ok(target) => Ok(
                (
                    TransitionView {
                        input_value: ident_text(toks, pos),
                        final_state: target.final_state,
                        output: target.output,
                    },
                    skip_comma(toks, target.next),
                ),
            ),
        }
    }
}

/// The entries from `pos` to the end of `toks`.
pub open spec fn parsed_entries(toks: Seq<Token>, pos: int) -> Result<
    Seq<TransitionView>,
    ParseErrorView,
>
    decreases toks.len() - pos,
{
    if pos >= toks.len() {
        Ok(Seq::empty())
    } else {
        match parsed_entry(toks, pos) {
            Err(e) => Err(e),
            Ok((entry, next)) => match parsed_entries(toks, next) {
                Err(e) => Err(e),
                Ok(rest) => Ok(seq![entry] + rest),
            },
        }
    }
}

/// The transition group that starts at `pos`, and the position after it.
pub open spec fn parsed_group(toks: Seq<Token>, pos: int) -> Result<
    (FromStateView, int),
    ParseErrorView,
> {
    if !is_ident_at(toks, pos) {
        Err(failure(Expected::Ident, toks, pos))
    } else if is_group_at(toks, pos + 1, Delimiter::Parenthesis) {
        match parsed_single_ident(group_body(toks, pos + 1)) {
            Err(e) => Err(e),
            Ok(input_value) => {
                if !is_fat_arrow_at(toks, pos + 2) {
                    Err(failure(Expected::FatArrow, toks, pos + 2))
                } else {
                    match parsed_target(toks, pos + 4) {
                        Err(e) => Err(e),
                        Ok(target) => Ok(
                            (
                                FromStateView {
                                    initial_state: ident_text(toks, pos),
                                    transitions: seq![
                                        TransitionView {
                                            input_value,
                                            final_state: target.final_state,
                                            output: target.output,
                                        },
                                    ],
                                },
                                skip_comma(toks, target.next),
                            ),
                        ),
                    }
                }
            },
        }
    } else if !is_fat_arrow_at(toks, pos + 1) {
        Err(failure(Expected::FatArrow, toks, pos + 1))
    } else if !is_group_at(toks, pos + 3, Delimiter::Brace) {
        Err(failure(Expected::Braced, toks, pos + 3))
    } else {
        match parsed_entries(group_body(toks, pos + 3), 0) {
            Err(e) => Err(e),
            Ok(transitions) => Ok(
                (
                    FromStateView { initial_state: ident_text(toks, pos), transitions },
                    skip_comma(toks, pos + 4),
                ),
            ),
        }
    }
}

/// The transition groups from `pos` to the end of `toks`.
pub open spec fn parsed_groups(toks: Seq<Token>, pos: int) -> Result<
    Seq<FromStateView>,
    ParseErrorView,
>
    decreases toks.len() - pos,
{
    if pos >= toks.len() {
        Ok(Seq::empty())
    } else {
        match parsed_group(toks, pos) {
            Err(e) => Err(e),
            Ok((group, next)) => match parsed_groups(toks, next) {
                Err(e) => Err(e),
                Ok(rest) => Ok(seq![group] + rest),
            },
        }
    }
}

/// What a block of tokens means: the state machine it describes, or the
/// first grammar error in it.
pub open spec fn parsed_block(toks: Seq<Token>) -> Result<StateMachineDefView, ParseErrorView> {
    let name = skip_decorations(toks, 0);
    let head = skip_attributes(toks, name + 1);
    if !is_ident_at(toks, name) {
        Err(failure(Expected::Ident, toks, name))
    } else if !is_group_at(toks, head, Delimiter::Parenthesis) {
        Err(failure(Expected::Parenthesized, toks, head))
    } else {
        match parsed_single_ident(group_body(toks, head)) {
            Err(e) => Err(e),
            Ok(initial_state) => match parsed_groups(toks, head + 1) {
                Err(e) => Err(e),
                Ok(transitions) => Ok(
                    StateMachineDefView {
                        name: ident_text(toks, name),
                        initial_state,
                        transitions,
                    },
                ),
            },
        }
    }
}

/// A parsed item never ends before it starts: an entry takes at least four
/// tokens, a group at least four.
pub proof fn lemma_items_advance(toks: Seq<Token>, pos: int)
    ensures
        parsed_entry(toks, pos) matches Ok((_, next)) ==> pos + 4 <= next <= toks.len(),
        parsed_group(toks, pos) matches Ok((_, next)) ==> pos + 4 <= next <= toks.len(),
        parsed_target(toks, pos) matches Ok(target) ==> pos + 1 <= target.next <= toks.len(),
        pos <= skip_comma(toks, pos) <= pos + 1,
        pos <= toks.len() ==> skip_comma(toks, pos) <= toks.len(),
{
}

/// A transition group without its arrow is rejected. Where a source state
/// is followed neither by a parenthesized input nor by `=>`, the group is
/// an error that names `=>` as expected and the token after the source
/// state as found; a block whose first group is such a group is that same
/// error.
pub proof fn lemma_missing_arrow_rejected(toks: Seq<Token>, pos: int)
    requires
        is_ident_at(toks, pos),
        !is_group_at(toks, pos + 1, Delimiter::Parenthesis),
        !is_fat_arrow_at(toks, pos + 1),
    ensures
        parsed_group(toks, pos) == Err::<(FromStateView, int), ParseErrorView>(
            failure(Expected::FatArrow, toks, pos + 1),
        ),
        parsed_groups(toks, pos) == Err::<Seq<FromStateView>, ParseErrorView>(
            failure(Expected::FatArrow, toks, pos + 1),
        ),
        ({
            let name = skip_decorations(toks, 0);
            let head = skip_attributes(toks, name + 1);
            &&& is_ident_at(toks, name)
            &&& is_group_at(toks, head, Delimiter::Parenthesis)
            &&& parsed_single_ident(group_body(toks, head)) is Ok
            &&& pos == head + 1
        }) ==> parsed_block(toks) == Err::<StateMachineDefView, ParseErrorView>(
            failure(Expected::FatArrow, toks, pos + 1),
        ),
{
}

fn found_here(toks: &Vec<Token>, pos: usize) -> (found: Found)
    ensures
        found@ == found_at(toks@, pos as int),
{
    if pos < toks.len() {
        match &toks[pos] {
            Token::Group(d, _) => Found::Group(*d),
            Token::Ident(s) => Found::Ident(s.clone()),
            Token::Punct(c, _) => Found::Punct(*c),
            Token::Literal(s) => Found::Literal(s.clone()),
        }
    } else {
        Found::End
    }
}

fn fail(expected: Expected, toks: &Vec<Token>, pos: usize) -> (error: ParseError)
    ensures
        error@ == failure(expected, toks@, pos as int),
{
    ParseError { expected, found: found_here(toks, pos) }
}

fn ident_here(toks: &Vec<Token>, pos: usize) -> (ident: Option<String>)
    ensures
        ident.is_some() == is_ident_at(toks@, pos as int),
        ident matches Some(s) ==> s@ == ident_text(toks@, pos as int),
{
    if pos < toks.len() {
        match &toks[pos] {
            Token::Ident(s) => Some(s.clone()),
            _ => None,
        }
    } else {
        None
    }
}

fn same_delimiter(a: Delimiter, b: Delimiter) -> (same: bool)
    ensures
        same == (a == b),
{
    match (a, b) {
        (Delimiter::Parenthesis, Delimiter::Parenthesis) => true,
        (Delimiter::Brace, Delimiter::Brace) => true,
        (Delimiter::Bracket, Delimiter::Bracket) => true,
        (Delimiter::Invisible, Delimiter::Invisible) => true,
        _ => false,
    }
}

fn group_here<'a>(toks: &'a Vec<Token>, pos: usize, delimiter: Delimiter) -> (body: Option<
    &'a Vec<Token>,
>)
    ensures
        body.is_some() == is_group_at(toks@, pos as int, delimiter),
        body matches Some(inner) ==> inner@ == group_body(toks@, pos as int),
{
    if pos < toks.len() {
        match &toks[pos] {
            Token::Group(d, inner) => {
                if same_delimiter(*d, delimiter) {
                    Some(inner)
                } else {
                    None
                }
            },
            _ => None,
        }
    } else {
        None
    }
}

fn punct_here(toks: &Vec<Token>, pos: usize, c: char) -> (here: bool)
    ensures
        here == is_punct_at(toks@, pos as int, c),
{
    if pos < toks.len() {
        match &toks[pos] {
            Token::Punct(p, _) => *p == c,
            _ => false,
        }
    } else {
        false
    }
}

fn fat_arrow_here(toks: &Vec<Token>, pos: usize) -> (here: bool)
    ensures
        here == is_fat_arrow_at(toks@, pos as int),
        here ==> pos + 2 <= toks.len(),
{
    if pos < toks.len() {
        match &toks[pos] {
            Token::Punct(p, Spacing::Joint) => *p == '=' && punct_here(toks, pos + 1, '>'),
            _ => false,
        }
    } else {
        false
    }
}

fn after_comma(toks: &Vec<Token>, pos: usize) -> (next: usize)
    requires
        pos <= toks.len(),
    ensures
        next == skip_comma(toks@, pos as int),
        next <= toks.len(),
{
    if punct_here(toks, pos, ',') {
        pos + 1
    } else {
        pos
    }
}

fn is_decoration(word: &String) -> (yes: bool)
    ensures
        yes == is_decoration_word(word@),
{
    *word == "derive".to_owned() || *word == "pub".to_owned()
}

fn after_decorations(toks: &Vec<Token>) -> (next: usize)
    ensures
        next == skip_decorations(toks@, 0),
        next <= toks.len(),
{
    let mut pos: usize = 0;
    loop
        invariant
            pos <= toks.len(),
            skip_decorations(toks@, 0) == skip_decorations(toks@, pos as int),
        ensures
            pos <= toks.len(),
            pos == skip_decorations(toks@, 0),
        decreases toks.len() - pos,
    {
        match ident_here(toks, pos) {
            Some(word) => {
                if is_decoration(&word) {
                    if group_here(toks, pos + 1, Delimiter::Parenthesis).is_some() {
                        pos = pos + 2;
                    } else {
                        pos = pos + 1;
                    }
                } else {
                    break ;
                }
            },
            None => {
                break ;
            },
        }
    }
    pos
}

fn after_attributes(toks: &Vec<Token>, start: usize) -> (next: usize)
    requires
        start <= toks.len(),
    ensures
        next == skip_attributes(toks@, start as int),
        next <= toks.len(),
{
    let mut pos: usize = start;
    loop
        invariant
            pos <= toks.len(),
            skip_attributes(toks@, start as int) == skip_attributes(toks@, pos as int),
        ensures
            pos <= toks.len(),
            pos == skip_attributes(toks@, start as int),
        decreases toks.len() - pos,
    {
        if ident_here(toks, pos).is_none() {
            break ;
        }
        if group_here(toks, pos + 1, Delimiter::Parenthesis).is_some() {
            pos = pos + 2;
        } else {
            pos = pos + 1;
        }
    }
    pos
}

fn parse_single_ident(inner: &Vec<Token>) -> (ident: Result<String, ParseError>)
    ensures
        match ident {
            Ok(s) => parsed_single_ident(inner@) == Ok::<Seq<char>, ParseErrorView>(s@),
            Err(e) => parsed_single_ident(inner@) == Err::<Seq<char>, ParseErrorView>(e@),
        },
{
    match ident_here(inner, 0) {
        None => Err(fail(Expected::Ident, inner, 0)),
        Some(s) => {
            if inner.len() > 1 {
                Err(fail(Expected::End, inner, 1))
            } else {
                Ok(s)
            }
        },
    }
}

/// A parsed target, as the parser hands it on.
struct Target {
    final_state: String,
    output: Option<String>,
    next: usize,
}

spec fn target_view(target: Target) -> TargetView {
    TargetView {
        final_state: target.final_state@,
        output: target.output.deep_view(),
        next: target.next as int,
    }
}

fn parse_target(toks: &Vec<Token>, pos: usize) -> (target: Result<Target, ParseError>)
    requires
        pos <= toks.len(),
    ensures
        match target {
            Ok(t) => parsed_target(toks@, pos as int) == Ok::<TargetView, ParseErrorView>(
                target_view(t),
            ),
            Err(e) => parsed_target(toks@, pos as int) == Err::<TargetView, ParseErrorView>(e@),
        },
{
    match ident_here(toks, pos) {
        None => Err(fail(Expected::Ident, toks, pos)),
        Some(final_state) => {
            match group_here(toks, pos + 1, Delimiter::Bracket) {
                Some(inner) => {
                    match parse_single_ident(inner) {
                        Err(e) => Err(e),
                        Ok(output) => Ok(
                            Target { final_state, output: Some(output), next: pos + 2 },
                        ),
                    }
                },
                None => Ok(Target { final_state, output: None, next: pos + 1 }),
            }
        },
    }
}

fn parse_entry(toks: &Vec<Token>, pos: usize) -> (entry: Result<(Transition, usize), ParseError>)
    requires
        pos <= toks.len(),
    ensures
        match entry {
            Ok((t, next)) => parsed_entry(toks@, pos as int) == Ok::<
                (TransitionView, int),
                ParseErrorView,
            >((t@, next as int)),
            Err(e) => parsed_entry(toks@, pos as int) == Err::<
                (TransitionView, int),
                ParseErrorView,
            >(e@),
        },
{
    match ident_here(toks, pos) {
        None => Err(fail(Expected::Ident, toks, pos)),
        Some(input_value) => {
            if !fat_arrow_here(toks, pos + 1) {
                Err(fail(Expected::FatArrow, toks, pos + 1))
            } else {
                match parse_target(toks, pos + 3) {
                    Err(e) => Err(e),
                    Ok(target) => {
                        proof {
                            lemma_items_advance(toks@, pos + 3);
                        }
                        let next = after_comma(toks, target.next);
                        Ok(
                            (
                                Transition {
                                    input_value,
                                    final_state: target.final_state,
                                    output: target.output,
                                },
                                next,
                            ),
                        )
                    },
                }
            }
        },
    }
}

/// `head` put in front of the items of `tail`, or the error of `tail`.
pub open spec fn prepend<T>(head: Seq<T>, tail: Result<Seq<T>, ParseErrorView>) -> Result<
    Seq<T>,
    ParseErrorView,
> {
    match tail {
        Ok(rest) => Ok(head + rest),
        Err(e) => Err(e),
    }
}

fn parse_entries(toks: &Vec<Token>) -> (entries: Result<Vec<Transition>, ParseError>)
    ensures
        match entries {
            Ok(ts) => parsed_entries(toks@, 0) == Ok::<Seq<TransitionView>, ParseErrorView>(
                ts@.map_values(|t: Transition| t@),
            ),
            Err(e) => parsed_entries(toks@, 0) == Err::<Seq<TransitionView>, ParseErrorView>(e@),
        },
{
    let mut done: Vec<Transition> = Vec::new();
    let mut pos: usize = 0;
    assert(prepend(done@.map_values(|t: Transition| t@), parsed_entries(toks@, 0))
        == parsed_entries(toks@, 0)) by {
        assert(done@.map_values(|t: Transition| t@) =~= Seq::empty());
        match parsed_entries(toks@, 0) {
            Ok(rest) => assert(Seq::<TransitionView>::empty() + rest =~= rest),
            Err(_) => {},
        }
    }
    while pos < toks.len()
        invariant
            pos <= toks.len(),
            parsed_entries(toks@, 0) == prepend(
                done@.map_values(|t: Transition| t@),
                parsed_entries(toks@, pos as int),
            ),
        decreases toks.len() - pos,
    {
        proof {
            lemma_items_advance(toks@, pos as int);
        }
        match parse_entry(toks, pos) {
            Err(e) => {
                return Err(e);
            },
            Ok((entry, next)) => {
                let ghost before = done@.map_values(|t: Transition| t@);
                let ghost view = entry@;
                done.push(entry);
                proof {
                    let after = done@.map_values(|t: Transition| t@);
                    assert(after =~= before.push(view));
                    match parsed_entries(toks@, next as int) {
                        Ok(rest) => assert(before + (seq![view] + rest) =~= after + rest),
                        Err(_) => {},
                    }
                }
                pos = next;
            },
        }
    }
    proof {
        assert(done@.map_values(|t: Transition| t@) + Seq::<TransitionView>::empty()
            =~= done@.map_values(|t: Transition| t@));
    }
    Ok(done)
}

fn parse_group(toks: &Vec<Token>, pos: usize) -> (group: Result<(FromState, usize), ParseError>)
    requires
        pos <= toks.len(),
    ensures
        match group {
            Ok((g, next)) => parsed_group(toks@, pos as int) == Ok::<
                (FromStateView, int),
                ParseErrorView,
            >((g@, next as int)),
            Err(e) => parsed_group(toks@, pos as int) == Err::<
                (FromStateView, int),
                ParseErrorView,
            >(e@),
        },
{
    match ident_here(toks, pos) {
        None => Err(fail(Expected::Ident, toks, pos)),
        Some(initial_state) => {
            match group_here(toks, pos + 1, Delimiter::Parenthesis) {
                Some(inner) => {
                    match parse_single_ident(inner) {
                        Err(e) => Err(e),
                        Ok(input_value) => {
                            if !fat_arrow_here(toks, pos + 2) {
                                Err(fail(Expected::FatArrow, toks, pos + 2))
                            } else {
                                match parse_target(toks, pos + 4) {
                                    Err(e) => Err(e),
                                    Ok(target) => {
                                        proof {
                                            lemma_items_advance(toks@, pos + 4);
                                        }
                                        let next = after_comma(toks, target.next);
                                        let mut transitions: Vec<Transition> = Vec::new();
                                        let only = Transition {
                                            input_value,
                                            final_state: target.final_state,
                                            output: target.output,
                                        };
                                        let ghost view = only@;
                                        transitions.push(only);
                                        assert(transitions@.map_values(|t: Transition| t@)
                                            =~= seq![view]);
                                        Ok((FromState { initial_state, transitions }, next))
                                    },
                                }
                            }
                        },
                    }
                },
                None => {
                    if !fat_arrow_here(toks, pos + 1) {
                        Err(fail(Expected::FatArrow, toks, pos + 1))
                    } else {
                        match group_here(toks, pos + 3, Delimiter::Brace) {
                            None => Err(fail(Expected::Braced, toks, pos + 3)),
                            Some(inner) => {
                                match parse_entries(inner) {
                                    Err(e) => Err(e),
                                    Ok(transitions) => {
                                        let next = after_comma(toks, pos + 4);
                                        Ok((FromState { initial_state, transitions }, next))
                                    },
                                }
                            },
                        }
                    }
                },
            }
        },
    }
}

fn parse_groups(toks: &Vec<Token>, start: usize) -> (groups: Result<Vec<FromState>, ParseError>)
    requires
        start <= toks.len(),
    ensures
        match groups {
            Ok(gs) => parsed_groups(toks@, start as int) == Ok::<
                Seq<FromStateView>,
                ParseErrorView,
            >(gs@.map_values(|g: FromState| g@)),
            Err(e) => parsed_groups(toks@, start as int) == Err::<
                Seq<FromStateView>,
                ParseErrorView,
            >(e@),
        },
{
    let mut done: Vec<FromState> = Vec::new();
    let mut pos: usize = start;
    assert(prepend(done@.map_values(|g: FromState| g@), parsed_groups(toks@, start as int))
        == parsed_groups(toks@, start as int)) by {
        assert(done@.map_values(|g: FromState| g@) =~= Seq::empty());
        match parsed_groups(toks@, start as int) {
            Ok(rest) => assert(Seq::<FromStateView>::empty() + rest =~= rest),
            Err(_) => {},
        }
    }
    while pos < toks.len()
        invariant
            pos <= toks.len(),
            parsed_groups(toks@, start as int) == prepend(
                done@.map_values(|g: FromState| g@),
                parsed_groups(toks@, pos as int),
            ),
        decreases toks.len() - pos,
    {
        proof {
            lemma_items_advance(toks@, pos as int);
        }
        match parse_group(toks, pos) {
            Err(e) => {
                return Err(e);
            },
            Ok((group, next)) => {
                let ghost before = done@.map_values(|g: FromState| g@);
                let ghost view = group@;
                done.push(group);
                proof {
                    let after = done@.map_values(|g: FromState| g@);
                    assert(after =~= before.push(view));
                    match parsed_groups(toks@, next as int) {
                        Ok(rest) => assert(before + (seq![view] + rest) =~= after + rest),
                        Err(_) => {},
                    }
                }
                pos = next;
            },
        }
    }
    proof {
        assert(done@.map_values(|g: FromState| g@) + Seq::<FromStateView>::empty()
            =~= done@.map_values(|g: FromState| g@));
    }
    Ok(done)
}

/// Parses the tokens of one block.
///
/// Returns the state machine the block describes, with its transition
/// groups and their transitions in the order they are written, or the
/// first grammar error: what was expected and what stood there instead.
pub fn parse(tokens: &Vec<Token>) -> (block: Result<StateMachineDef, ParseError>)
    ensures
        match block {
            Ok(def) => parsed_block(tokens@) == Ok::<StateMachineDefView, ParseErrorView>(def@),
            Err(e) => parsed_block(tokens@) == Err::<StateMachineDefView, ParseErrorView>(e@),
        },
{
    let pos = after_decorations(tokens);
    match ident_here(tokens, pos) {
        None => Err(fail(Expected::Ident, tokens, pos)),
        Some(name) => {
            let head = after_attributes(tokens, pos + 1);
            match group_here(tokens, head, Delimiter::Parenthesis) {
                None => Err(fail(Expected::Parenthesized, tokens, head)),
                Some(inner) => {
                    match parse_single_ident(inner) {
                        Err(e) => Err(e),
                        Ok(initial_state) => {
                            match parse_groups(tokens, head + 1) {
                                Err(e) => Err(e),
                                Ok(transitions) => Ok(
                                    StateMachineDef { name, initial_state, transitions },
                                ),
                            }
                        },
                    }
                },
            }
        },
    }
}

} // verus!
