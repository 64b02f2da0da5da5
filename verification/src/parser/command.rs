//! Commands: what the player said, before it is tied to the game world.
use vstd::prelude::*;
use crate::parser::grammar::{NounPhrase, NounPhraseView, Preposition, Verb};

verus! {

/// A command is an action intent stated by the player.
///
/// A command does not have context to the game world, meaning
/// invalid actions can be defined.
#[derive(Debug, Clone, PartialEq)]
pub struct Command {
    /// The intended action.
    pub verb: Verb,
    /// The target(s) to execute the action against.
    pub direct: Vec<NounPhrase>,
    /// The relation between the direct and indirect targets.
    pub preposition: Option<Preposition>,
    /// The secondary target for an action.
    pub indirect: Option<NounPhrase>,
}

/// A command with its texts as sequences.
pub struct CommandView {
    pub verb: Verb,
    pub direct: Seq<NounPhraseView>,
    pub preposition: Option<Preposition>,
    pub indirect: Option<NounPhraseView>,
}

/// The views of a list of noun phrases.
pub open spec fn phrase_views(s: Seq<NounPhrase>) -> Seq<NounPhraseView> {
    s.map_values(|n: NounPhrase| n@)
}

impl View for Command {
    type V = CommandView;

    open spec fn view(&self) -> CommandView {
        CommandView {
            verb: self.verb,
            direct: phrase_views(self.direct@),
            preposition: self.preposition,
            indirect: match self.indirect {
                Some(n) => Some(n@),
                None => None,
            },
        }
    }
}

} // verus!
