//! Errors that can occur during the game, and the in-game messages shown for them.
use vstd::prelude::*;
use vstd::string::StringExecFns;
use rand::seq::IndexedRandom;
use crate::models::world::{Direction, direction_name, direction_word};
use crate::util::{cat, cat3, owned};

verus! {

/// Creates an in-game error message to display to users when something goes wrong.
pub trait UserFriendlyError {
    fn get_user_error(&self) -> String;
}

/// All errors that can occur in the game
#[derive(Debug, PartialEq)]
pub enum GameError {
    Parse(ParseError),
    Action(ActionError),
    World(WorldError),
    Unknown,
}

/// Errors when attempting to create an [`Action`](crate::engine::action::Action)
#[derive(Debug, PartialEq)]
pub enum ActionError {
    ItemNotFound(String),
    ItemNotFoundInventory(String),
    DirectionNotFound(String),
    AmbiguousItem(String),
    NoExit(Direction),
    ItemNotVisible(i32),
    ItemNotTakeable(i32),
    InvalidCommand(String),
}

/// Errors when parsing input from the user
#[derive(Debug, PartialEq)]
pub enum ParseError {
    /// Player did not provide a direction
    NoDirection,
    /// Player attempted to move somewhere that is not a direction
    NotADirection(String),
    /// Player provided no input
    EmptyInput,
    /// Player tried to use action without an invalid target.
    InvalidTarget(String),
    /// Player tried to use action without a target; the field names the action.
    NoTarget(String),
    /// Player attempted to reference multiple nouns incorrectly
    InvalidList,
    /// Player entered a phrase that is not understood by the game engine.
    UnknownPhrase(String),
    UnexpectedArticlePosition,
    /// Player entered a first word that is not a verb.
    UnknownVerb(String),
    /// Player entered something that could not be parsed
    NotParseable,
}

/// Errors when interacting with the game world
#[derive(Debug, PartialEq)]
pub enum WorldError {
    /// No entity has the id.
    NoSuchEntity(i32),
    /// Player attempted to grab an item they are holding
    AlreadyHeld,
    /// No entity has the name.
    NoSuchNamedEntity(String),
    /// A direction that a user cannot traverse to
    InvalidDirection(Direction),
    /// An error when interacting with an item
    ItemError(ItemError),
}

/// Errors that can occur when interacting with items
#[derive(Debug, PartialEq, Eq, Clone, Copy, Structural)]
pub enum ItemError {
    /// Attempted to use an item as a container
    NotAContainer,
    /// Player attempted open
    NotOpenable,
    /// Attempted to pick up a non-holdable item
    NotAHoldable,
    /// An item was to be removed from a location that is the game world.
    RemoveFromGame,
}

// ---------------------------------------------------------------------------
// Views: the errors with their texts as character sequences
// ---------------------------------------------------------------------------
pub enum ParseErrorView {
    NoDirection,
    NotADirection(Seq<char>),
    EmptyInput,
    InvalidTarget(Seq<char>),
    NoTarget(Seq<char>),
    InvalidList,
    UnknownPhrase(Seq<char>),
    UnexpectedArticlePosition,
    UnknownVerb(Seq<char>),
    NotParseable,
}

pub enum ActionErrorView {
    ItemNotFound(Seq<char>),
    ItemNotFoundInventory(Seq<char>),
    DirectionNotFound(Seq<char>),
    AmbiguousItem(Seq<char>),
    NoExit(Direction),
    ItemNotVisible(i32),
    ItemNotTakeable(i32),
    InvalidCommand(Seq<char>),
}

pub enum WorldErrorView {
    NoSuchEntity(i32),
    AlreadyHeld,
    NoSuchNamedEntity(Seq<char>),
    InvalidDirection(Direction),
    ItemError(ItemError),
}

pub enum GameErrorView {
    Parse(ParseErrorView),
    Action(ActionErrorView),
    World(WorldErrorView),
    Unknown,
}

impl View for ParseError {
    type V = ParseErrorView;

    open spec fn view(&self) -> ParseErrorView {
        match self {
            ParseError::NoDirection => ParseErrorView::NoDirection,
            ParseError::NotADirection(s) => ParseErrorView::NotADirection(s@),
            ParseError::EmptyInput => ParseErrorView::EmptyInput,
            ParseError::InvalidTarget(s) => ParseErrorView::InvalidTarget(s@),
            ParseError::NoTarget(s) => ParseErrorView::NoTarget(s@),
            ParseError::InvalidList => ParseErrorView::InvalidList,
            ParseError::UnknownPhrase(s) => ParseErrorView::UnknownPhrase(s@),
            ParseError::UnexpectedArticlePosition => ParseErrorView::UnexpectedArticlePosition,
            ParseError::UnknownVerb(s) => ParseErrorView::UnknownVerb(s@),
            ParseError::NotParseable => ParseErrorView::NotParseable,
        }
    }
}

impl View for ActionError {
    type V = ActionErrorView;

    open spec fn view(&self) -> ActionErrorView {
        match self {
            ActionError::ItemNotFound(s) => ActionErrorView::ItemNotFound(s@),
            ActionError::ItemNotFoundInventory(s) => ActionErrorView::ItemNotFoundInventory(s@),
            ActionError::DirectionNotFound(s) => ActionErrorView::DirectionNotFound(s@),
            ActionError::AmbiguousItem(s) => ActionErrorView::AmbiguousItem(s@),
            ActionError::NoExit(d) => ActionErrorView::NoExit(*d),
            ActionError::ItemNotVisible(i) => ActionErrorView::ItemNotVisible(*i),
            ActionError::ItemNotTakeable(i) => ActionErrorView::ItemNotTakeable(*i),
            ActionError::InvalidCommand(s) => ActionErrorView::InvalidCommand(s@),
        }
    }
}

impl View for WorldError {
    type V = WorldErrorView;

    open spec fn view(&self) -> WorldErrorView {
        match self {
            WorldError::NoSuchEntity(i) => WorldErrorView::NoSuchEntity(*i),
            WorldError::AlreadyHeld => WorldErrorView::AlreadyHeld,
            WorldError::NoSuchNamedEntity(s) => WorldErrorView::NoSuchNamedEntity(s@),
            WorldError::InvalidDirection(d) => WorldErrorView::InvalidDirection(*d),
            WorldError::ItemError(e) => WorldErrorView::ItemError(*e),
        }
    }
}

impl View for GameError {
    type V = GameErrorView;

    open spec fn view(&self) -> GameErrorView {
        match self {
            GameError::Parse(e) => GameErrorView::Parse(e@),
            GameError::Action(e) => GameErrorView::Action(e@),
            GameError::World(e) => GameErrorView::World(e@),
            GameError::Unknown => GameErrorView::Unknown,
        }
    }
}

impl ParseError {
    /// If `self` is [`ParseError::NoTarget`], replaces the contents of the inner field with the given string.
    pub fn specify_target_action(&mut self, act: String)
        ensures
            match *old(self) {
                ParseError::NoTarget(_) => final(self)@ == ParseErrorView::NoTarget(act@),
                _ => *final(self) == *old(self),
            },
    {
        if let ParseError::NoTarget(s) = self {
            *s = act;
        }
    }
}

impl From<ItemError> for GameError {
    fn from(err: ItemError) -> (r: Self) {
        GameError::World(WorldError::ItemError(err))
    }
}

impl vstd::std_specs::convert::FromSpecImpl<ItemError> for GameError {
    open spec fn obeys_from_spec() -> bool {
        true
    }

    open spec fn from_spec(err: ItemError) -> GameError {
        GameError::World(WorldError::ItemError(err))
    }
}

impl From<ParseError> for GameError {
    fn from(err: ParseError) -> (r: Self) {
        GameError::Parse(err)
    }
}

impl vstd::std_specs::convert::FromSpecImpl<ParseError> for GameError {
    open spec fn obeys_from_spec() -> bool {
        true
    }

    open spec fn from_spec(err: ParseError) -> GameError {
        GameError::Parse(err)
    }
}

impl From<ActionError> for GameError {
    fn from(err: ActionError) -> (r: Self) {
        GameError::Action(err)
    }
}

impl vstd::std_specs::convert::FromSpecImpl<ActionError> for GameError {
    open spec fn obeys_from_spec() -> bool {
        true
    }

    open spec fn from_spec(err: ActionError) -> GameError {
        GameError::Action(err)
    }
}

impl From<WorldError> for GameError {
    fn from(err: WorldError) -> (r: Self) {
        GameError::World(err)
    }
}

impl vstd::std_specs::convert::FromSpecImpl<WorldError> for GameError {
    open spec fn obeys_from_spec() -> bool {
        true
    }

    open spec fn from_spec(err: WorldError) -> GameError {
        GameError::World(err)
    }
}

// ---------------------------------------------------------------------------
// User friendly messages
// ---------------------------------------------------------------------------
/// The phrases from which a refusal is drawn.
pub open spec fn refusal_phrases() -> Seq<Seq<char>> {
    seq![
        "Not a prayer."@,
        "An interesting idea..."@,
        "You can't be serious."@,
        "Not likely."@,
        "A valiant attmept."@,
        "What a concept!"@,
    ]
}

/// `s` is one of the refusal phrases.
pub open spec fn is_refusal(s: Seq<char>) -> bool {
    refusal_phrases().contains(s)
}

/// Calls `IndexedRandom::choose` of `rand` on `phrases` with the thread-local
/// generator: `None` for an empty slice, else one of the phrases, drawn at random.
#[verifier::external_body]
fn choose_phrase<'a>(phrases: &[&'a str]) -> (r: Option<&'a str>)
    ensures
        r is Some <==> phrases@.len() > 0,
        r matches Some(p) ==> phrases@.contains(p),
{
    phrases.choose(&mut rand::rng()).copied()
}

/// Returns a random message telling the user they cannot do that action
pub fn cant_do_that() -> (r: String)
    ensures
        is_refusal(r@),
{
    let phrases = [
        "Not a prayer.",
        "An interesting idea...",
        "You can't be serious.",
        "Not likely.",
        "A valiant attmept.",
        "What a concept!",
    ];
    let chosen = choose_phrase(&phrases).unwrap();
    let r = owned(chosen);
    assert(is_refusal(r@)) by {
        let i = choose|i: int| 0 <= i < phrases@.len() && phrases@[i] == chosen;
        assert(refusal_phrases()[i] == phrases@[i]@);
    }
    r
}

/// The message shown for a parse error.
pub open spec fn parse_error_message(e: ParseErrorView) -> Seq<char> {
    match e {
        ParseErrorView::UnknownPhrase(p) => "I understood what you meant until "@ + p,
        ParseErrorView::NoTarget(a) => "What do you want to "@ + a + "?"@,
        ParseErrorView::InvalidTarget(_) => "You can't see any such thing"@,
        ParseErrorView::NoDirection => "You'll have to say which compass direction to go in..."@,
        ParseErrorView::NotADirection(w) => "You cannot go '"@ + w + "'..."@,
        ParseErrorView::EmptyInput => "I beg your pardon?"@,
        ParseErrorView::NotParseable => "I dont understand what you mean..."@,
        ParseErrorView::InvalidList => "..."@,
        ParseErrorView::UnknownVerb(_) => "That is not a verb I recognise."@,
        ParseErrorView::UnexpectedArticlePosition => "I dont think that's how you refer to that."@,
    }
}

/// The message shown for an action error.
pub open spec fn action_error_message(e: ActionErrorView) -> Seq<char> {
    match e {
        ActionErrorView::ItemNotFound(n) => "I don't see a '"@ + n + "' here"@,
        ActionErrorView::ItemNotFoundInventory(n) => "You don't have a '"@ + n + "'"@,
        ActionErrorView::DirectionNotFound(d) => "I don't understand the direction '"@ + d + "'"@,
        ActionErrorView::AmbiguousItem(n) => "Which "@ + n + "?"@,
        ActionErrorView::NoExit(d) => "you can't go "@ + direction_word(d),
        ActionErrorView::ItemNotVisible(_) => "You can't see that"@,
        ActionErrorView::ItemNotTakeable(_) => "You can't take that"@,
        ActionErrorView::InvalidCommand(m) => m,
    }
}

/// The message shown for an item error; `None` where it is a random refusal.
pub open spec fn item_error_message(e: ItemError) -> Option<Seq<char>> {
    match e {
        ItemError::NotOpenable => Some("That is not something you can open"@),
        ItemError::NotAContainer => Some("You cant put that in there..."@),
        ItemError::NotAHoldable => None,
        ItemError::RemoveFromGame => Some("..."@),
    }
}

/// The message shown for a world error; `None` where it is a random refusal.
pub open spec fn world_error_message(e: WorldErrorView) -> Option<Seq<char>> {
    match e {
        WorldErrorView::NoSuchEntity(_) => Some("You cant see any such thing."@),
        WorldErrorView::NoSuchNamedEntity(_) => Some("You cant see any such thing."@),
        WorldErrorView::InvalidDirection(d) => Some("You cannot go "@ + direction_name(d)),
        WorldErrorView::ItemError(e) => item_error_message(e),
        WorldErrorView::AlreadyHeld => Some("You already have that."@),
    }
}

/// The message shown for a game error; `None` where it is a random refusal.
pub open spec fn game_error_message(e: GameErrorView) -> Option<Seq<char>> {
    match e {
        GameErrorView::Parse(e) => Some(parse_error_message(e)),
        GameErrorView::Action(e) => Some(action_error_message(e)),
        GameErrorView::World(e) => world_error_message(e),
        GameErrorView::Unknown => Some("That wasn't supposed to happen..."@),
    }
}

/// `m` is a message that may be shown for the game error `e`.
pub open spec fn is_message_for(e: GameErrorView, m: Seq<char>) -> bool {
    match game_error_message(e) {
        Some(t) => m == t,
        None => is_refusal(m),
    }
}

impl UserFriendlyError for GameError {
    fn get_user_error(&self) -> (r: String)
        ensures
            is_message_for(self@, r@),
    {
        match self {
            GameError::Parse(e) => e.get_user_error(),
            GameError::Action(e) => e.get_user_error(),
            GameError::World(e) => e.get_user_error(),
            GameError::Unknown => owned("That wasn't supposed to happen..."),
        }
    }
}

impl UserFriendlyError for ActionError {
    fn get_user_error(&self) -> (r: String)
        ensures
            r@ == action_error_message(self@),
    {
        match self {
            ActionError::ItemNotFound(name) => cat3("I don't see a '", name.as_str(), "' here"),
            ActionError::ItemNotFoundInventory(name) => cat3("You don't have a '", name.as_str(), "'"),
            ActionError::DirectionNotFound(dir) => cat3(
                "I don't understand the direction '",
                dir.as_str(),
                "'",
            ),
            ActionError::AmbiguousItem(name) => cat3("Which ", name.as_str(), "?"),
            ActionError::NoExit(dir) => cat("you can't go ", dir.to_word().as_str()),
            ActionError::ItemNotVisible(_) => owned("You can't see that"),
            ActionError::ItemNotTakeable(_) => owned("You can't take that"),
            ActionError::InvalidCommand(msg) => msg.clone(),
        }
    }
}

impl UserFriendlyError for ParseError {
    fn get_user_error(&self) -> (r: String)
        ensures
            r@ == parse_error_message(self@),
    {
        match self {
            ParseError::UnknownPhrase(phrase) => cat("I understood what you meant until ", phrase.as_str()),
            ParseError::NoTarget(act) => cat3("What do you want to ", act.as_str(), "?"),
            ParseError::InvalidTarget(_) => owned("You can't see any such thing"),
            ParseError::NoDirection => owned("You'll have to say which compass direction to go in..."),
            ParseError::NotADirection(word) => cat3("You cannot go '", word.as_str(), "'..."),
            ParseError::EmptyInput => owned("I beg your pardon?"),
            ParseError::NotParseable => owned("I dont understand what you mean..."),
            ParseError::InvalidList => owned("..."),
            ParseError::UnknownVerb(_v) => owned("That is not a verb I recognise."),
            ParseError::UnexpectedArticlePosition => owned("I dont think that's how you refer to that."),
        }
    }
}

impl UserFriendlyError for WorldError {
    fn get_user_error(&self) -> (r: String)
        ensures
            match world_error_message(self@) {
                Some(t) => r@ == t,
                None => is_refusal(r@),
            },
    {
        match self {
            WorldError::NoSuchEntity(_) => owned("You cant see any such thing."),
            WorldError::NoSuchNamedEntity(_) => owned("You cant see any such thing."),
            WorldError::InvalidDirection(dir) => cat("You cannot go ", dir.to_string().as_str()),
            WorldError::ItemError(err) => err.get_user_error(),
            WorldError::AlreadyHeld => owned("You already have that."),
        }
    }
}

impl UserFriendlyError for ItemError {
    fn get_user_error(&self) -> (r: String)
        ensures
            match item_error_message(*self) {
                Some(t) => r@ == t,
                None => is_refusal(r@),
            },
    {
        match self {
            ItemError::NotOpenable => owned("That is not something you can open"),
            ItemError::NotAContainer => owned("You cant put that in there..."),
            ItemError::NotAHoldable => cant_do_that(),
            ItemError::RemoveFromGame => owned("..."),
        }
    }
}

} // verus!
