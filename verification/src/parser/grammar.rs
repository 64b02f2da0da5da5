//! The grammar module defines how phrases are properly structured for each verb.
//!
//! For example, to get an item a player may type "Get foo", "Get foo and bar",
//! "Get foo, bar and baz", or "Get all".
//!
//! Some phrases may only have 1 correct grammatical structure and some may have many.
use vstd::prelude::*;
use crate::errors::ParseError;
use crate::models::item::{determiner_of, Determiner};
use crate::models::world::{direction_of, Direction};
use crate::parser::command::{phrase_views, Command, CommandView};
use crate::parser::tokens::{token_texts, Token};
use crate::util::{first_index, lemma_first_index, text_is, texts};

verus! {

/// A noun with the adjectives that narrow it down.
#[derive(Debug, Clone, PartialEq)]
pub struct NounPhrase {
    pub adjectives: Vec<String>,
    pub noun: String,
}

/// A noun phrase with its words as sequences.
pub struct NounPhraseView {
    pub adjectives: Seq<Seq<char>>,
    pub noun: Seq<char>,
}

impl View for NounPhrase {
    type V = NounPhraseView;

    open spec fn view(&self) -> NounPhraseView {
        NounPhraseView { adjectives: texts(self.adjectives@), noun: self.noun@ }
    }
}

/// A verb the player is attempting to execute.
///
/// Move can be written as "go north" or just "north", so the verb of moving
/// may or may not carry its direction.
#[derive(Debug, Clone, Copy, PartialEq, Eq, Structural)]
pub enum Verb {
    Move { dir: Option<Direction> },
    Get,
    Drop,
    Put,
    Look,
    Read,
    Open,
    Close,
    Attack,
    Unlock,
}

/// Grammatically defines the relation between two interacting nouns.
#[derive(Debug, Clone, Copy, PartialEq, Eq, Structural)]
pub enum Preposition {
    At,
    In,
    On,
    With,
    To,
    Through,
}

// ---------------------------------------------------------------------------
// The grammar, on token texts
// ---------------------------------------------------------------------------
/// The verb that a first word names.
pub open spec fn verb_of(w: Seq<char>) -> Option<Verb> {
    if w == "move"@ || w == "go"@ || w == "walk"@ {
        Some(Verb::Move { dir: None })
    } else if w == "get"@ || w == "take"@ || w == "grab"@ {
        Some(Verb::Get)
    } else if w == "drop"@ || w == "release"@ {
        Some(Verb::Drop)
    } else if w == "put"@ || w == "place"@ {
        Some(Verb::Put)
    } else if w == "look"@ || w == "examine"@ || w == "inspect"@ || w == "l"@ {
        Some(Verb::Look)
    } else if w == "open"@ {
        Some(Verb::Open)
    } else if w == "close"@ || w == "shut"@ {
        Some(Verb::Close)
    } else if w == "attack"@ || w == "hit"@ || w == "fight"@ || w == "kill"@ {
        Some(Verb::Attack)
    } else if w == "unlock"@ {
        Some(Verb::Unlock)
    } else if w == "read"@ {
        Some(Verb::Read)
    } else {
        match direction_of(w) {
            Some(d) => Some(Verb::Move { dir: Some(d) }),
            None => None,
        }
    }
}

/// The preposition that a word is.
pub open spec fn preposition_of(w: Seq<char>) -> Option<Preposition> {
    if w == "at"@ {
        Some(Preposition::At)
    } else if w == "in"@ {
        Some(Preposition::In)
    } else if w == "on"@ {
        Some(Preposition::On)
    } else if w == "with"@ {
        Some(Preposition::With)
    } else if w == "to"@ {
        Some(Preposition::To)
    } else if w == "through"@ {
        Some(Preposition::Through)
    } else {
        None
    }
}

/// The words of `ts` that are not determiners.
pub open spec fn non_determiners(ts: Seq<Seq<char>>) -> Seq<Seq<char>>
    decreases ts.len(),
{
    if ts.len() == 0 {
        ts
    } else if determiner_of(ts.last()) is Some {
        non_determiners(ts.drop_last())
    } else {
        non_determiners(ts.drop_last()).push(ts.last())
    }
}

/// The noun phrase of some words: the last word that is not a determiner is the noun,
/// the others before it are adjectives.
pub open spec fn noun_phrase_of(ts: Seq<Seq<char>>) -> Option<NounPhraseView> {
    let f = non_determiners(ts);
    if f.len() == 0 {
        None
    } else {
        Some(NounPhraseView { adjectives: f.drop_last(), noun: f.last() })
    }
}

/// The word is not a determiner.
pub open spec fn not_determiner() -> spec_fn(Seq<char>) -> bool {
    |w: Seq<char>| determiner_of(w) is None
}

/// No word of the noun phrase, its noun or an adjective, is a determiner.
pub open spec fn without_determiners(np: NounPhraseView) -> bool {
    &&& determiner_of(np.noun) is None
    &&& forall|i: int| 0 <= i < np.adjectives.len() ==> determiner_of(#[trigger] np.adjectives[i]) is None
}

/// The words kept from a noun phrase are exactly its words that are not determiners,
/// in their order.
pub proof fn lemma_non_determiners_filter(ts: Seq<Seq<char>>)
    ensures
        non_determiners(ts) == ts.filter(not_determiner()),
    decreases ts.len(),
{
    reveal(Seq::filter);
    if ts.len() > 0 {
        lemma_non_determiners_filter(ts.drop_last());
    }
}

/// A noun phrase is made of the words that are not determiners: none of its words is
/// one, and a determiner anywhere among the words changes nothing, so "the sword"
/// names what "sword" names.
pub proof fn lemma_determiners_ignored(a: Seq<Seq<char>>, d: Seq<char>, b: Seq<Seq<char>>)
    ensures
        noun_phrase_of(a) matches Some(np) ==> without_determiners(np),
        determiner_of(d) is Some ==> noun_phrase_of(a + seq![d] + b) == noun_phrase_of(a + b),
{
    let p = not_determiner();
    lemma_non_determiners_filter(a);
    lemma_non_determiners_filter(a + seq![d] + b);
    lemma_non_determiners_filter(a + b);
    let f = a.filter(p);
    if f.len() > 0 {
        assert forall|i: int| 0 <= i < f.len() implies p(#[trigger] f[i]) by {
            a.lemma_filter_pred(p, i);
        }
        assert(p(f[f.len() - 1]));
        assert forall|i: int| 0 <= i < f.drop_last().len() implies determiner_of(#[trigger] f.drop_last()[i]) is None by {
            assert(p(f[i]));
        }
    }
    if determiner_of(d) is Some {
        Seq::filter_distributes_over_add(a + seq![d], b, p);
        Seq::filter_distributes_over_add(a, seq![d], p);
        Seq::filter_distributes_over_add(a, b, p);
        reveal_with_fuel(Seq::filter, 2);
        assert(seq![d].drop_last() =~= Seq::<Seq<char>>::empty());
        assert(seq![d].filter(p) =~= Seq::<Seq<char>>::empty());
        assert(a.filter(p) + Seq::<Seq<char>>::empty() =~= a.filter(p));
    }
}

/// A noun phrase made of some words has no determiner among its words.
proof fn lemma_phrase_plain(ts: Seq<Seq<char>>)
    ensures
        noun_phrase_of(ts) matches Some(np) ==> without_determiners(np),
{
    lemma_determiners_ignored(ts, seq![], seq![]);
}

/// Every noun phrase of a command the grammar accepts, direct or indirect, has no
/// determiner among its words.
pub proof fn lemma_phrase_has_no_determiners(verb: Verb, ts: Seq<Seq<char>>)
    ensures
        phrase_of(verb, ts) matches Some(c) ==> (forall|i: int| 0 <= i < c.direct.len() ==> without_determiners(
            #[trigger] c.direct[i],
        )) && (c.indirect matches Some(np) ==> without_determiners(np)),
{
    match phrase_of(verb, ts) {
        Some(c) => {
            lemma_phrase_plain(ts);
            if ts.len() > 0 {
                lemma_phrase_plain(ts.drop_first());
            }
            let segs = segments(ts);
            assert forall|i: int| 0 <= i < segs.len() implies (noun_phrase_of(#[trigger] segs[i]) matches Some(np)
                ==> without_determiners(np)) by {
                lemma_phrase_plain(segs[i]);
            }
            let with = seq![Preposition::With];
            let inon = seq![Preposition::In, Preposition::On];
            let iw = preposition_index(ts, with);
            let ip = preposition_index(ts, inon);
            if 0 < iw < ts.len() {
                lemma_phrase_plain(ts.subrange(0, iw));
                lemma_phrase_plain(ts.subrange(iw + 1, ts.len() as int));
            }
            if 0 < ip < ts.len() {
                lemma_phrase_plain(ts.subrange(0, ip));
                lemma_phrase_plain(ts.subrange(ip + 1, ts.len() as int));
            }
        },
        None => {},
    }
}

/// The word is one of the prepositions in `valid`.
pub open spec fn preposition_in(valid: Seq<Preposition>) -> spec_fn(Seq<char>) -> bool {
    |w: Seq<char>| preposition_of(w) matches Some(p) && valid.contains(p)
}

/// Index of the first word that is a preposition in `valid`, or -1.
pub open spec fn preposition_index(ts: Seq<Seq<char>>, valid: Seq<Preposition>) -> int {
    first_index(ts, preposition_in(valid))
}

/// One step of splitting a noun list: "and" and "," end the current phrase.
pub open spec fn segment_step(
    st: (Seq<Seq<Seq<char>>>, Seq<Seq<char>>),
    t: Seq<char>,
) -> (Seq<Seq<Seq<char>>>, Seq<Seq<char>>) {
    if t == "and"@ || t == ","@ {
        if st.1.len() > 0 {
            (st.0.push(st.1), Seq::empty())
        } else {
            st
        }
    } else {
        (st.0, st.1.push(t))
    }
}

pub open spec fn segment_scan(ts: Seq<Seq<char>>) -> (Seq<Seq<Seq<char>>>, Seq<Seq<char>>)
    decreases ts.len(),
{
    if ts.len() == 0 {
        (Seq::empty(), Seq::empty())
    } else {
        segment_step(segment_scan(ts.drop_last()), ts.last())
    }
}

/// The phrases of a list separated by "and" or commas, empty phrases left out.
pub open spec fn segments(ts: Seq<Seq<char>>) -> Seq<Seq<Seq<char>>> {
    let st = segment_scan(ts);
    if st.1.len() > 0 {
        st.0.push(st.1)
    } else {
        st.0
    }
}

/// The noun phrases of a list, if there is at least one and each of them parses.
pub open spec fn noun_list_of(ts: Seq<Seq<char>>) -> Option<Seq<NounPhraseView>> {
    let segs = segments(ts);
    if segs.len() > 0 && forall|i: int| 0 <= i < segs.len() ==> noun_phrase_of(#[trigger] segs[i]) is Some {
        Some(segs.map_values(|s: Seq<Seq<char>>| noun_phrase_of(s)->0))
    } else {
        None
    }
}

/// A command with the given parts.
pub open spec fn command(
    verb: Verb,
    direct: Seq<NounPhraseView>,
    preposition: Option<Preposition>,
    indirect: Option<NounPhraseView>,
) -> CommandView {
    CommandView { verb, direct, preposition, indirect }
}

/// "north", "go north"
pub open spec fn move_phrase(verb: Verb, ts: Seq<Seq<char>>) -> Option<CommandView> {
    if verb matches Verb::Move { dir: Some(_) } {
        if ts.len() > 0 {
            None
        } else {
            Some(command(verb, Seq::empty(), None, None))
        }
    } else if ts.len() != 1 {
        None
    } else {
        match direction_of(ts[0]) {
            Some(d) => Some(command(Verb::Move { dir: Some(d) }, Seq::empty(), None, None)),
            None => None,
        }
    }
}

/// "get sword", "drop sword and shield"
pub open spec fn list_phrase(verb: Verb, ts: Seq<Seq<char>>) -> Option<CommandView> {
    if ts.len() == 0 {
        None
    } else {
        match noun_list_of(ts) {
            Some(l) => Some(command(verb, l, None, None)),
            None => None,
        }
    }
}

/// A noun phrase, a preposition at index `i`, and a second noun phrase.
pub open spec fn split_phrase(
    verb: Verb,
    ts: Seq<Seq<char>>,
    i: int,
    prep: Option<Preposition>,
) -> Option<CommandView> {
    if i == 0 || i >= ts.len() - 1 {
        None
    } else {
        match (noun_phrase_of(ts.subrange(0, i)), noun_phrase_of(ts.subrange(i + 1, ts.len() as int))) {
            (Some(d), Some(ind)) => Some(command(verb, seq![d], prep, Some(ind))),
            _ => None,
        }
    }
}

/// "put sword in bag", "put key on table"
pub open spec fn put_phrase(ts: Seq<Seq<char>>) -> Option<CommandView> {
    if ts.len() < 3 {
        None
    } else {
        let i = preposition_index(ts, seq![Preposition::In, Preposition::On]);
        if i < 0 {
            None
        } else {
            split_phrase(Verb::Put, ts, i, preposition_of(ts[i]))
        }
    }
}

/// A command with one noun phrase made of all of `ts`.
pub open spec fn single_phrase(verb: Verb, ts: Seq<Seq<char>>) -> Option<CommandView> {
    match noun_phrase_of(ts) {
        Some(n) => Some(command(verb, seq![n], None, None)),
        None => None,
    }
}

/// "look", "look at sword", "look sword"
pub open spec fn look_phrase(ts: Seq<Seq<char>>) -> Option<CommandView> {
    if ts.len() == 0 {
        Some(command(Verb::Look, Seq::empty(), None, None))
    } else if ts[0] == "at"@ {
        if ts.len() == 1 {
            None
        } else {
            single_phrase(Verb::Look, ts.drop_first())
        }
    } else {
        single_phrase(Verb::Look, ts)
    }
}

/// "read book", "close door"
pub open spec fn simple_phrase(verb: Verb, ts: Seq<Seq<char>>) -> Option<CommandView> {
    if ts.len() == 0 {
        None
    } else {
        single_phrase(verb, ts)
    }
}

/// "unlock door with key"
pub open spec fn unlock_phrase(ts: Seq<Seq<char>>) -> Option<CommandView> {
    if ts.len() == 0 {
        None
    } else {
        let i = preposition_index(ts, seq![Preposition::With]);
        if i >= 0 {
            split_phrase(Verb::Unlock, ts, i, Some(Preposition::With))
        } else {
            None
        }
    }
}

/// "open door"; "open door with key" is an unlock
pub open spec fn open_phrase(ts: Seq<Seq<char>>) -> Option<CommandView> {
    if ts.len() == 0 {
        None
    } else if preposition_index(ts, seq![Preposition::With]) >= 0 {
        unlock_phrase(ts)
    } else {
        single_phrase(Verb::Open, ts)
    }
}

/// "attack goblin", "attack goblin with sword"
pub open spec fn attack_phrase(ts: Seq<Seq<char>>) -> Option<CommandView> {
    if ts.len() == 0 {
        None
    } else {
        let i = preposition_index(ts, seq![Preposition::With]);
        if i >= 0 {
            split_phrase(Verb::Attack, ts, i, Some(Preposition::With))
        } else {
            single_phrase(Verb::Attack, ts)
        }
    }
}

/// The command that the words after the verb make, if they fit the verb's grammar.
pub open spec fn phrase_of(verb: Verb, ts: Seq<Seq<char>>) -> Option<CommandView> {
    match verb {
        Verb::Move { .. } => move_phrase(verb, ts),
        Verb::Get => list_phrase(Verb::Get, ts),
        Verb::Drop => list_phrase(Verb::Drop, ts),
        Verb::Put => put_phrase(ts),
        Verb::Look => look_phrase(ts),
        Verb::Open => open_phrase(ts),
        Verb::Close => simple_phrase(Verb::Close, ts),
        Verb::Attack => attack_phrase(ts),
        Verb::Unlock => unlock_phrase(ts),
        Verb::Read => simple_phrase(Verb::Read, ts),
    }
}

/// The outcome of a parse, as an optional view.
pub open spec fn command_result(r: Result<Command, ParseError>) -> Option<CommandView> {
    match r {
        Ok(c) => Some(c@),
        Err(_) => None,
    }
}

/// A parse failure is always `NotParseable`.
pub open spec fn not_parseable_only<T>(r: Result<T, ParseError>) -> bool {
    r matches Err(e) ==> e == ParseError::NotParseable
}

// ---------------------------------------------------------------------------
// The parser
// ---------------------------------------------------------------------------
fn word_is(t: &Token, a: &str) -> (r: bool)
    ensures
        r == (t.text@ == a@),
{
    text_is(t.text.as_str(), a)
}

pub fn parse_verb(word: &str) -> (r: Option<Verb>)
    ensures
        r == verb_of(word@),
{
    if text_is(word, "move") || text_is(word, "go") || text_is(word, "walk") {
        Some(Verb::Move { dir: None })
    } else if text_is(word, "get") || text_is(word, "take") || text_is(word, "grab") {
        Some(Verb::Get)
    } else if text_is(word, "drop") || text_is(word, "release") {
        Some(Verb::Drop)
    } else if text_is(word, "put") || text_is(word, "place") {
        Some(Verb::Put)
    } else if text_is(word, "look") || text_is(word, "examine") || text_is(word, "inspect")
        || text_is(word, "l") {
        Some(Verb::Look)
    } else if text_is(word, "open") {
        Some(Verb::Open)
    } else if text_is(word, "close") || text_is(word, "shut") {
        Some(Verb::Close)
    } else if text_is(word, "attack") || text_is(word, "hit") || text_is(word, "fight")
        || text_is(word, "kill") {
        Some(Verb::Attack)
    } else if text_is(word, "unlock") {
        Some(Verb::Unlock)
    } else if text_is(word, "read") {
        Some(Verb::Read)
    } else {
        // If the player specified the direction only
        match Direction::try_from(word) {
            Ok(dir) => Some(Verb::Move { dir: Some(dir) }),
            Err(_) => None,
        }
    }
}

pub fn parse_preposition(word: &str) -> (r: Option<Preposition>)
    ensures
        r == preposition_of(word@),
{
    if text_is(word, "at") {
        Some(Preposition::At)
    } else if text_is(word, "in") {
        Some(Preposition::In)
    } else if text_is(word, "on") {
        Some(Preposition::On)
    } else if text_is(word, "with") {
        Some(Preposition::With)
    } else if text_is(word, "to") {
        Some(Preposition::To)
    } else if text_is(word, "through") {
        Some(Preposition::Through)
    } else {
        None
    }
}

/// Main dispatcher for parsing tokens based on verb-specific grammar rules.
pub fn parse_phrase(verb: Verb, tokens: &[Token]) -> (r: Result<Command, ParseError>)
    ensures
        command_result(r) == phrase_of(verb, token_texts(tokens@)),
        not_parseable_only(r),
{
    match verb {
        Verb::Move { .. } => parse_move(verb, tokens),
        Verb::Get => parse_get(tokens),
        Verb::Drop => parse_drop(tokens),
        Verb::Put => parse_put(tokens),
        Verb::Look => parse_look(tokens),
        Verb::Open => parse_open(tokens),
        Verb::Close => parse_close(tokens),
        Verb::Attack => parse_attack(tokens),
        Verb::Unlock => parse_unlock(tokens),
        Verb::Read => parse_read(tokens),
    }
}

/// Parses a noun phrase from a slice of tokens.
/// The last token is treated as the noun, all preceding tokens as adjectives.
fn parse_noun_phrase(tokens: &[Token]) -> (r: Result<NounPhrase, ParseError>)
    ensures
        match r {
            Ok(n) => noun_phrase_of(token_texts(tokens@)) == Some(n@),
            Err(e) => noun_phrase_of(token_texts(tokens@)) is None && e == ParseError::NotParseable,
        },
{
    let ghost ts = token_texts(tokens@);
    // exclude "the", "some", etc
    let mut filtered: Vec<String> = Vec::new();
    let mut i: usize = 0;
    while i < tokens.len()
        invariant
            i <= tokens@.len(),
            ts == token_texts(tokens@),
            texts(filtered@) == non_determiners(ts.take(i as int)),
        decreases tokens@.len() - i,
    {
        proof {
            assert(ts.take(i + 1).drop_last() == ts.take(i as int));
            assert(ts.take(i + 1).last() == tokens@[i as int].text@);
        }
        if Determiner::try_from(tokens[i].text.as_str()).is_err() {
            let w = tokens[i].text.clone();
            let ghost prev = filtered@;
            filtered.push(w);
            assert(texts(filtered@) =~= texts(prev).push(w@));
        }
        i = i + 1;
    }
    assert(ts.take(i as int) == ts);
    if filtered.len() == 0 {
        return Err(ParseError::NotParseable);
    }
    let ghost before = filtered@;
    let noun = filtered.pop().unwrap();
    assert(texts(filtered@) =~= texts(before).drop_last());
    Ok(NounPhrase { adjectives: filtered, noun })
}

/// Finds a preposition in tokens that matches one of the valid prepositions.
/// Returns the index of the first matching preposition, or None if not found.
fn find_preposition(tokens: &[Token], valid_preps: &[Preposition]) -> (r: Option<usize>)
    ensures
        match r {
            Some(i) => i as int == preposition_index(token_texts(tokens@), valid_preps@) && i
                < tokens@.len(),
            None => preposition_index(token_texts(tokens@), valid_preps@) == -1,
        },
{
    let ghost ts = token_texts(tokens@);
    let ghost p = preposition_in(valid_preps@);
    proof {
        lemma_first_index(ts, p);
    }
    let mut i: usize = 0;
    while i < tokens.len()
        invariant
            i <= tokens@.len(),
            ts == token_texts(tokens@),
            p == preposition_in(valid_preps@),
            forall|j: int| 0 <= j < i ==> !p(#[trigger] ts[j]),
            -1 <= first_index(ts, p) < ts.len(),
            first_index(ts, p) >= 0 ==> p(ts[first_index(ts, p)]),
            forall|j: int| 0 <= j < first_index(ts, p) ==> !p(#[trigger] ts[j]),
            first_index(ts, p) == -1 ==> forall|j: int| 0 <= j < ts.len() ==> !p(#[trigger] ts[j]),
        decreases tokens@.len() - i,
    {
        assert(ts[i as int] == tokens@[i as int].text@);
        if let Some(prep) = parse_preposition(tokens[i].text.as_str()) {
            let mut k: usize = 0;
            let mut found = false;
            while k < valid_preps.len()
                invariant
                    k <= valid_preps@.len(),
                    found == (exists|j: int| 0 <= j < k && valid_preps@[j] == prep),
                decreases valid_preps@.len() - k,
            {
                if valid_preps[k] == prep {
                    found = true;
                }
                k = k + 1;
            }
            if found {
                return Some(i);
            }
        }
        i = i + 1;
    }
    None
}

/// The tokens of `tokens` from `lo` up to `hi`.
fn sub_tokens(tokens: &[Token], lo: usize, hi: usize) -> (r: &[Token])
    requires
        lo <= hi <= tokens@.len(),
    ensures
        token_texts(r@) == token_texts(tokens@).subrange(lo as int, hi as int),
{
    let r = &tokens[lo..hi];
    assert(token_texts(r@) =~= token_texts(tokens@).subrange(lo as int, hi as int));
    r
}

/// The texts of lists of tokens.
pub open spec fn segment_texts(s: Seq<Vec<Token>>) -> Seq<Seq<Seq<char>>> {
    s.map_values(|v: Vec<Token>| token_texts(v@))
}

/// Parses a list of noun phrases separated by "and" or commas.
/// Examples: "sword", "sword and shield", "sword, shield and helmet"
fn parse_noun_list(tokens: &[Token]) -> (r: Result<Vec<NounPhrase>, ParseError>)
    ensures
        match r {
            Ok(l) => noun_list_of(token_texts(tokens@)) == Some(phrase_views(l@)),
            Err(e) => noun_list_of(token_texts(tokens@)) is None && e == ParseError::NotParseable,
        },
{
    let ghost ts = token_texts(tokens@);
    // Split the list at "and" and commas
    let mut segs: Vec<Vec<Token>> = Vec::new();
    let mut current: Vec<Token> = Vec::new();
    let mut i: usize = 0;
    while i < tokens.len()
        invariant
            i <= tokens@.len(),
            ts == token_texts(tokens@),
            (segment_texts(segs@), token_texts(current@)) == segment_scan(ts.take(i as int)),
        decreases tokens@.len() - i,
    {
        proof {
            assert(ts.take(i + 1).drop_last() == ts.take(i as int));
            assert(ts.take(i + 1).last() == tokens@[i as int].text@);
        }
        if word_is(&tokens[i], "and") || word_is(&tokens[i], ",") {
            if current.len() > 0 {
                let ghost prev = segs@;
                let seg = current;
                segs.push(seg);
                current = Vec::new();
                assert(segment_texts(segs@) =~= segment_texts(prev).push(token_texts(seg@)));
                assert(token_texts(current@) =~= Seq::<Seq<char>>::empty());
            }
        } else {
            let t = tokens[i].clone();
            let ghost prev = current@;
            current.push(t);
            assert(token_texts(current@) =~= token_texts(prev).push(t.text@));
        }
        i = i + 1;
    }
    assert(ts.take(i as int) == ts);
    if current.len() > 0 {
        let ghost prev = segs@;
        let seg = current;
        segs.push(seg);
        assert(segment_texts(segs@) =~= segment_texts(prev).push(token_texts(seg@)));
    }
    let ghost all = segments(ts);
    assert(segment_texts(segs@) == all);
    if segs.len() == 0 {
        return Err(ParseError::NotParseable);
    }
    // Parse each phrase
    let mut nouns: Vec<NounPhrase> = Vec::new();
    let mut k: usize = 0;
    while k < segs.len()
        invariant
            k <= segs@.len(),
            segment_texts(segs@) == all,
            all == segments(ts),
            ts == token_texts(tokens@),
            forall|j: int| 0 <= j < k ==> noun_phrase_of(#[trigger] all[j]) is Some,
            phrase_views(nouns@) == all.take(k as int).map_values(
                |s: Seq<Seq<char>>| noun_phrase_of(s)->0,
            ),
        decreases segs@.len() - k,
    {
        assert(all[k as int] == token_texts(segs@[k as int]@));
        match parse_noun_phrase(segs[k].as_slice()) {
            Ok(n) => {
                let ghost prev = nouns@;
                nouns.push(n);
                proof {
                    let f = |s: Seq<Seq<char>>| noun_phrase_of(s)->0;
                    assert(all.take(k + 1) == all.take(k as int).push(all[k as int]));
                    assert(all.take(k + 1).map_values(f) =~= all.take(k as int).map_values(f).push(f(all[k as int])));
                    assert(phrase_views(nouns@) =~= phrase_views(prev).push(n@));
                }
            },
            Err(e) => {
                assert(noun_phrase_of(all[k as int]) is None);
                return Err(e);
            },
        }
        k = k + 1;
    }
    assert(all.take(k as int) == all);
    Ok(nouns)
}

// Move: "north", "go north"
fn parse_move(verb: Verb, tokens: &[Token]) -> (r: Result<Command, ParseError>)
    ensures
        command_result(r) == move_phrase(verb, token_texts(tokens@)),
        not_parseable_only(r),
{
    // If direction was already captured (e.g., just "north"), remaining should be empty
    if let Verb::Move { dir: Some(_) } = verb {
        if tokens.len() > 0 {
            return Err(ParseError::NotParseable);
        }
        let r = Command { verb, direct: Vec::new(), preposition: None, indirect: None };
        assert(r@.direct =~= Seq::<NounPhraseView>::empty());
        return Ok(r);
    }
    // Otherwise parse "go north", needs exactly one token that is a direction
    if tokens.len() != 1 {
        return Err(ParseError::NotParseable);
    }
    assert(token_texts(tokens@)[0] == tokens@[0].text@);
    match Direction::try_from(tokens[0].text.as_str()) {
        Ok(dir) => {
            let r = Command {
                verb: Verb::Move { dir: Some(dir) },
                direct: Vec::new(),
                preposition: None,
                indirect: None,
            };
            assert(r@.direct =~= Seq::<NounPhraseView>::empty());
            Ok(r)
        },
        Err(_) => Err(ParseError::NotParseable),
    }
}

// Get: "get sword", "get sword and shield", "get red sword, blue shield and helmet"
// Drop: "drop sword", "drop sword and shield"
fn parse_list(verb: Verb, tokens: &[Token]) -> (r: Result<Command, ParseError>)
    ensures
        command_result(r) == list_phrase(verb, token_texts(tokens@)),
        not_parseable_only(r),
{
    if tokens.len() == 0 {
        return Err(ParseError::NotParseable);
    }
    let direct = parse_noun_list(tokens)?;
    Ok(Command { verb, direct, preposition: None, indirect: None })
}

// Get: "get sword", "get sword and shield", "get red sword, blue shield and helmet"
fn parse_get(tokens: &[Token]) -> (r: Result<Command, ParseError>)
    ensures
        command_result(r) == list_phrase(Verb::Get, token_texts(tokens@)),
        not_parseable_only(r),
{
    parse_list(Verb::Get, tokens)
}

// Drop: "drop sword", "drop sword and shield"
fn parse_drop(tokens: &[Token]) -> (r: Result<Command, ParseError>)
    ensures
        command_result(r) == list_phrase(Verb::Drop, token_texts(tokens@)),
        not_parseable_only(r),
{
    parse_list(Verb::Drop, tokens)
}

fn one_phrase(n: NounPhrase) -> (r: Vec<NounPhrase>)
    ensures
        phrase_views(r@) == seq![n@],
{
    let mut v: Vec<NounPhrase> = Vec::new();
    v.push(n);
    assert(phrase_views(v@) =~= seq![n@]);
    v
}

/// Noun phrase, the preposition at `idx`, noun phrase.
fn parse_split(verb: Verb, tokens: &[Token], idx: usize, prep: Option<Preposition>) -> (r: Result<
    Command,
    ParseError,
>)
    requires
        idx < tokens@.len(),
    ensures
        command_result(r) == split_phrase(verb, token_texts(tokens@), idx as int, prep),
        not_parseable_only(r),
{
    // Preposition can't be at start or end
    if idx == 0 || idx >= tokens.len() - 1 {
        return Err(ParseError::NotParseable);
    }
    let direct = parse_noun_phrase(sub_tokens(tokens, 0, idx))?;
    let indirect = parse_noun_phrase(sub_tokens(tokens, idx + 1, tokens.len()))?;
    Ok(Command { verb, direct: one_phrase(direct), preposition: prep, indirect: Some(indirect) })
}

// Put: "put sword in bag", "put key on table"
fn parse_put(tokens: &[Token]) -> (r: Result<Command, ParseError>)
    ensures
        command_result(r) == put_phrase(token_texts(tokens@)),
        not_parseable_only(r),
{
    // Need at least: direct_noun preposition indirect_noun (minimum 3 tokens)
    if tokens.len() < 3 {
        return Err(ParseError::NotParseable);
    }
    // Find preposition - only "in" or "on" are valid for put
    let valid_preps = [Preposition::In, Preposition::On];
    assert(valid_preps@ == seq![Preposition::In, Preposition::On]);
    let prep_idx = match find_preposition(tokens, &valid_preps) {
        Some(i) => i,
        None => return Err(ParseError::NotParseable),
    };
    assert(token_texts(tokens@)[prep_idx as int] == tokens@[prep_idx as int].text@);
    let preposition = parse_preposition(tokens[prep_idx].text.as_str());
    parse_split(Verb::Put, tokens, prep_idx, preposition)
}

fn parse_single(verb: Verb, tokens: &[Token]) -> (r: Result<Command, ParseError>)
    ensures
        command_result(r) == single_phrase(verb, token_texts(tokens@)),
        not_parseable_only(r),
{
    let direct = parse_noun_phrase(tokens)?;
    Ok(Command { verb, direct: one_phrase(direct), preposition: None, indirect: None })
}

// Look: "look", "look at sword", "look sword"
fn parse_look(tokens: &[Token]) -> (r: Result<Command, ParseError>)
    ensures
        command_result(r) == look_phrase(token_texts(tokens@)),
        not_parseable_only(r),
{
    // Empty tokens means just "look" at surroundings
    if tokens.len() == 0 {
        let r = Command { verb: Verb::Look, direct: Vec::new(), preposition: None, indirect: None };
        assert(r@.direct =~= Seq::<NounPhraseView>::empty());
        return Ok(r);
    }
    assert(token_texts(tokens@)[0] == tokens@[0].text@);
    // Check if first token is "at" and skip it
    if word_is(&tokens[0], "at") {
        if tokens.len() == 1 {
            // Just "look at" with nothing after is invalid
            return Err(ParseError::NotParseable);
        }
        let rest = sub_tokens(tokens, 1, tokens.len());
        assert(token_texts(tokens@).drop_first() =~= token_texts(tokens@).subrange(1, tokens@.len() as int));
        parse_single(Verb::Look, rest)
    } else {
        parse_single(Verb::Look, tokens)
    }
}

// Read: "read book"; Close: "close door"
fn parse_simple(verb: Verb, tokens: &[Token]) -> (r: Result<Command, ParseError>)
    ensures
        command_result(r) == simple_phrase(verb, token_texts(tokens@)),
        not_parseable_only(r),
{
    if tokens.len() == 0 {
        return Err(ParseError::NotParseable);
    }
    parse_single(verb, tokens)
}

// Read: "read book"
fn parse_read(tokens: &[Token]) -> (r: Result<Command, ParseError>)
    ensures
        command_result(r) == simple_phrase(Verb::Read, token_texts(tokens@)),
        not_parseable_only(r),
{
    parse_simple(Verb::Read, tokens)
}

// Close: "close door"
fn parse_close(tokens: &[Token]) -> (r: Result<Command, ParseError>)
    ensures
        command_result(r) == simple_phrase(Verb::Close, token_texts(tokens@)),
        not_parseable_only(r),
{
    parse_simple(Verb::Close, tokens)
}

// Open: "open door", "open red door", "open door with key"
fn parse_open(tokens: &[Token]) -> (r: Result<Command, ParseError>)
    ensures
        command_result(r) == open_phrase(token_texts(tokens@)),
        not_parseable_only(r),
{
    if tokens.len() == 0 {
        return Err(ParseError::NotParseable);
    }
    // Look for "with" preposition. If found, redirect to unlock
    let valid_preps = [Preposition::With];
    assert(valid_preps@ == seq![Preposition::With]);
    if let Some(_prep_idx) = find_preposition(tokens, &valid_preps) {
        return parse_unlock(tokens);
    }
    parse_single(Verb::Open, tokens)
}

// Attack: "attack goblin", "attack goblin with sword"
fn parse_attack(tokens: &[Token]) -> (r: Result<Command, ParseError>)
    ensures
        command_result(r) == attack_phrase(token_texts(tokens@)),
        not_parseable_only(r),
{
    if tokens.len() == 0 {
        return Err(ParseError::NotParseable);
    }
    // Look for "with" preposition
    let valid_preps = [Preposition::With];
    assert(valid_preps@ == seq![Preposition::With]);
    if let Some(prep_idx) = find_preposition(tokens, &valid_preps) {
        // "attack goblin with sword"
        parse_split(Verb::Attack, tokens, prep_idx, Some(Preposition::With))
    } else {
        // "attack goblin" with no weapon specified
        parse_single(Verb::Attack, tokens)
    }
}

// Unlock: "unlock door with key", "unlock chest with rusty key"
fn parse_unlock(tokens: &[Token]) -> (r: Result<Command, ParseError>)
    ensures
        command_result(r) == unlock_phrase(token_texts(tokens@)),
        not_parseable_only(r),
{
    if tokens.len() == 0 {
        return Err(ParseError::NotParseable);
    }
    // Look for "with" preposition
    let valid_preps = [Preposition::With];
    assert(valid_preps@ == seq![Preposition::With]);
    if let Some(prep_idx) = find_preposition(tokens, &valid_preps) {
        parse_split(Verb::Unlock, tokens, prep_idx, Some(Preposition::With))
    } else {
        Err(ParseError::NotParseable)
    }
}

} // verus!
