//! The parser module defines user sentence structure and parsing.
pub mod command;
pub mod grammar;
pub mod tokens;

use vstd::prelude::*;
use crate::errors::{ParseError, ParseErrorView};
use crate::parser::command::CommandView;
use crate::parser::grammar::{
    command_result, not_parseable_only, phrase_of, preposition_in, preposition_index, verb_of,
};
use crate::util::lemma_first_index;
use crate::parser::tokens::{token_texts, tokenized};

pub use command::Command;
pub use grammar::{parse_phrase, parse_preposition, parse_verb, NounPhrase, Preposition, Verb};
pub use tokens::{tokenize, Token};

verus! {

/// What parsing an input gives: the command, or the error.
pub open spec fn parsed(input: Seq<char>) -> Result<CommandView, ParseErrorView> {
    let ts = tokenized(input);
    if ts.len() == 0 {
        Err(ParseErrorView::EmptyInput)
    } else {
        match verb_of(ts[0]) {
            None => Err(ParseErrorView::UnknownVerb(ts[0])),
            Some(v) => match phrase_of(v, ts.drop_first()) {
                Some(c) => Ok(c),
                None => Err(ParseErrorView::NotParseable),
            },
        }
    }
}

/// The command has the parts that its verb's grammar gives it.
pub open spec fn well_shaped(c: CommandView) -> bool {
    let bare = c.preposition is None && c.indirect is None;
    match c.verb {
        Verb::Move { dir } => dir is Some && c.direct.len() == 0 && bare,
        Verb::Get | Verb::Drop => c.direct.len() >= 1 && bare,
        Verb::Put => c.direct.len() == 1 && c.indirect is Some && (c.preposition == Some(
            Preposition::In,
        ) || c.preposition == Some(Preposition::On)),
        Verb::Look => c.direct.len() <= 1 && bare,
        Verb::Read | Verb::Open | Verb::Close => c.direct.len() == 1 && bare,
        Verb::Attack => c.direct.len() == 1 && (bare || (c.preposition == Some(Preposition::With)
            && c.indirect is Some)),
        Verb::Unlock => c.direct.len() == 1 && c.preposition == Some(Preposition::With)
            && c.indirect is Some,
    }
}

/// Every command that the grammar accepts has the parts its verb calls for: a move
/// carries its direction and nothing else, "get" and "drop" name at least one item,
/// "put" names one item, "in" or "on", and a second item, "look" at most one item,
/// "unlock" one item "with" another, and so on.
pub proof fn lemma_phrase_well_shaped(verb: Verb, ts: Seq<Seq<char>>)
    ensures
        phrase_of(verb, ts) matches Some(c) ==> well_shaped(c),
{
    let with = seq![Preposition::With];
    let inon = seq![Preposition::In, Preposition::On];
    lemma_first_index(ts, preposition_in(with));
    lemma_first_index(ts, preposition_in(inon));
    if verb is Put && preposition_index(ts, inon) >= 0 {
        let i = preposition_index(ts, inon);
        assert(preposition_in(inon)(ts[i]));
    }
}

/// A command that `parse` returns has the parts its verb calls for.
pub proof fn lemma_parsed_well_shaped(input: Seq<char>)
    ensures
        parsed(input) matches Ok(c) ==> well_shaped(c),
{
    let ts = tokenized(input);
    if ts.len() > 0 {
        if let Some(v) = verb_of(ts[0]) {
            lemma_phrase_well_shaped(v, ts.drop_first());
        }
    }
}

/// No noun phrase of a command that `parse` returns has a determiner among its words.
pub proof fn lemma_parsed_without_determiners(input: Seq<char>)
    ensures
        parsed(input) matches Ok(c) ==> (forall|i: int| 0 <= i < c.direct.len() ==> grammar::without_determiners(
            #[trigger] c.direct[i],
        )) && (c.indirect matches Some(np) ==> grammar::without_determiners(np)),
{
    let ts = tokenized(input);
    if ts.len() > 0 {
        if let Some(v) = verb_of(ts[0]) {
            grammar::lemma_phrase_has_no_determiners(v, ts.drop_first());
        }
    }
}

/// The view of a parse outcome.
pub open spec fn parse_view(r: Result<Command, ParseError>) -> Result<CommandView, ParseErrorView> {
    match r {
        Ok(c) => Ok(c@),
        Err(e) => Err(e@),
    }
}

/// Attempts to convert user input from a string into a [`Command`]
pub fn parse(input: &str) -> (r: Result<Command, ParseError>)
    ensures
        parse_view(r) == parsed(input@),
{
    let tokens = tokenize(input);
    if tokens.len() == 0 {
        return Err(ParseError::EmptyInput);
    }
    let ghost ts = token_texts(tokens@);
    assert(ts[0] == tokens@[0].text@);
    let verb = match parse_verb(tokens[0].text.as_str()) {
        Some(v) => v,
        None => return Err(ParseError::UnknownVerb(tokens[0].text.clone())),
    };
    let remaining = &tokens.as_slice()[1..tokens.len()];
    assert(token_texts(remaining@) =~= ts.drop_first());
    let r = parse_phrase(verb, remaining);
    proof {
        if r is Err {
            assert(not_parseable_only(r));
        }
        if r is Ok {
            assert(command_result(r) == Some(r->Ok_0@));
        }
    }
    r
}

} // verus!
