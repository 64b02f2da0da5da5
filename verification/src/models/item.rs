//! Items: things in the world the player can refer to.
use vstd::prelude::*;
use crate::errors::ParseError;
use crate::models::behavior::{BehaviorView, ItemBehavior};
use crate::tables::{inserted, IdMap, NameMap};
use crate::util::{key_is, lemma_first_index, lemma_same_keys};
use crate::util::{
    capitalized, cat, cat3, join_spaced, join_with_spaces, lookup, owned, text_is, texts, capitalize,
};

verus! {

/// Represents a single item in the game
#[derive(Debug)]
pub struct Item {
    /// Name of the item
    pub name: String,
    /// Rules for printing item
    pub determiner: Determiner,
    /// Descriptive words for item
    pub adjectives: Vec<String>,
    /// Determines additional functionality an item might have
    pub behaviors: Vec<ItemBehavior>,
    /// Whether the item has been moved from its initial starting location
    pub moved: bool,
    /// Unique print events an item might have: the event the text is printed on, and the text.
    pub print: NameMap<String>,
}

/// A determiner explains how to verbalize an item's name
#[derive(Debug, Clone, Copy, PartialEq, Eq, Structural)]
pub enum Determiner {
    Singular,  // Singular item (a/an)
    ProperNoun,  // Proper noun (The)
    Plural,  // Plural (some)
    Bare,  // No prefix
}

/// An item with its texts as character sequences.
pub struct ItemView {
    pub name: Seq<char>,
    pub determiner: Determiner,
    pub adjectives: Seq<Seq<char>>,
    pub behaviors: Seq<BehaviorView>,
    pub moved: bool,
    pub print: Seq<(Seq<char>, Seq<char>)>,
}

/// The print events of a table, each text as its characters.
pub open spec fn print_texts(s: Seq<(Seq<char>, String)>) -> Seq<(Seq<char>, Seq<char>)> {
    s.map_values(|e: (Seq<char>, String)| (e.0, e.1@))
}

/// Viewing the texts of a table after an insertion inserts the viewed text.
pub proof fn lemma_print_texts_inserted(s: Seq<(Seq<char>, String)>, k: Seq<char>, v: String)
    ensures
        print_texts(inserted(s, k, v)) == inserted(print_texts(s), k, v@),
{
    let t = print_texts(s);
    assert forall|j: int| 0 <= j < s.len() implies #[trigger] s[j].0 == t[j].0 by {}
    lemma_same_keys(s, t);
    lemma_first_index(s, key_is::<Seq<char>, String>(k));
    assert(print_texts(inserted(s, k, v)) =~= inserted(print_texts(s), k, v@));
}

/// The behaviors of a list, each as its view.
pub open spec fn behavior_views(s: Seq<ItemBehavior>) -> Seq<BehaviorView> {
    s.map_values(|b: ItemBehavior| b@)
}

impl View for Item {
    type V = ItemView;

    open spec fn view(&self) -> ItemView {
        ItemView {
            name: self.name@,
            determiner: self.determiner,
            adjectives: texts(self.adjectives@),
            behaviors: behavior_views(self.behaviors@),
            moved: self.moved,
            print: print_texts(self.print@),
        }
    }
}

/// The determiner that a word is, if any.
pub open spec fn determiner_of(w: Seq<char>) -> Option<Determiner> {
    if w == "a"@ || w == "an"@ {
        Some(Determiner::Singular)
    } else if w == "some"@ {
        Some(Determiner::Plural)
    } else if w == "the"@ {
        Some(Determiner::ProperNoun)
    } else {
        None
    }
}

impl Determiner {
    /// Reads a determiner ("a", "an", "some", "the") from a word.
    pub fn try_from(word: &str) -> (r: Result<Determiner, ParseError>)
        ensures
            match determiner_of(word@) {
                Some(d) => r == Ok::<Determiner, ParseError>(d),
                None => r == Err::<Determiner, ParseError>(ParseError::NotParseable),
            },
    {
        if text_is(word, "a") || text_is(word, "an") {
            Ok(Determiner::Singular)
        } else if text_is(word, "some") {
            Ok(Determiner::Plural)
        } else if text_is(word, "the") {
            Ok(Determiner::ProperNoun)
        } else {
            Err(ParseError::NotParseable)
        }
    }
}

/// The article written before an item's name.
pub open spec fn article(d: Determiner) -> Seq<char> {
    match d {
        Determiner::Singular => "a "@,
        Determiner::ProperNoun => "the "@,
        Determiner::Plural => "some "@,
        Determiner::Bare => ""@,
    }
}

/// The canonical name of an item: determiner, adjectives and name.
pub open spec fn canonical_name(v: ItemView) -> Seq<char> {
    let adjectives = if v.adjectives.len() == 0 {
        Seq::empty()
    } else {
        join_spaced(v.adjectives) + " "@
    };
    article(v.determiner) + adjectives + v.name
}

/// The line that describes an item lying in a room.
pub open spec fn room_description(v: ItemView) -> Seq<char> {
    if !v.moved && lookup(v.print, "initial"@) is Some {
        lookup(v.print, "initial"@)->0
    } else {
        capitalized(canonical_name(v)) + " is here."@
    }
}

/// The lines that list the contents of a container; empty when it is not one or holds nothing.
pub open spec fn container_lines(v: ItemView, items: Seq<(i32, ItemView)>) -> Seq<Seq<char>> {
    match crate::models::behavior::container_of(v.behaviors) {
        Some(contents) => if contents.len() == 0 {
            Seq::empty()
        } else {
            seq!["Inside the "@ + v.name + " you see:"@] + content_names(contents, items)
        },
        None => Seq::empty(),
    }
}

/// An item that has left its starting place is described by its canonical name, never by
/// its "initial" text.
pub proof fn lemma_moved_item_described_by_name(v: ItemView)
    ensures
        room_description(crate::models::behavior::with_moved(v)) == capitalized(canonical_name(v)) + " is here."@,
{
}

/// One indented line for each id of `ids` that names an item of `items`.
pub open spec fn content_names(ids: Seq<i32>, items: Seq<(i32, ItemView)>) -> Seq<Seq<char>>
    decreases ids.len(),
{
    if ids.len() == 0 {
        Seq::empty()
    } else {
        let rest = content_names(ids.drop_last(), items);
        match lookup(items, ids.last()) {
            Some(it) => rest.push("  "@ + it.name),
            None => rest,
        }
    }
}

/// The items of a table, each as its view.
pub open spec fn item_views(s: Seq<(i32, Item)>) -> Seq<(i32, ItemView)> {
    s.map_values(|e: (i32, Item)| (e.0, e.1@))
}

/// Looking an id up in the viewed table gives the view of the item looked up.
pub proof fn lemma_lookup_item_views(s: Seq<(i32, Item)>, id: i32)
    ensures
        lookup(item_views(s), id) == match lookup(s, id) {
            Some(it) => Some(it@),
            None => None::<ItemView>,
        },
        crate::util::key_index(item_views(s), id) == crate::util::key_index(s, id),
{
    crate::util::lemma_first_index(s, crate::util::key_is::<i32, Item>(id));
    crate::util::lemma_first_index(item_views(s), crate::util::key_is::<i32, ItemView>(id));
    let a = crate::util::key_index(s, id);
    let b = crate::util::key_index(item_views(s), id);
    if a >= 0 {
        assert(crate::util::key_is::<i32, ItemView>(id)(item_views(s)[a]));
    }
    if b >= 0 {
        assert(crate::util::key_is::<i32, Item>(id)(s[b]));
    }
}

impl Item {
    /// Gets the canonical name for this item (determiner + adjectives + name)
    /// Example: "a red sword", "the treasure", "some coins"
    pub fn get_canonical_name(&self) -> (r: String)
        ensures
            r@ == canonical_name(self@),
    {
        let art = match self.determiner {
            Determiner::Singular => "a ",
            Determiner::ProperNoun => "the ",
            Determiner::Plural => "some ",
            Determiner::Bare => "",
        };
        if self.adjectives.len() == 0 {
            assert(self@.adjectives.len() == 0);
            cat(art, self.name.as_str())
        } else {
            let adj = join_with_spaces(&self.adjectives);
            let r = cat3(art, adj.as_str(), " ").concat(self.name.as_str());
            assert(r@ == article(self.determiner) + (join_spaced(self@.adjectives) + " "@) + self@.name);
            r
        }
    }

    /// Gets the printed description for this item.
    /// Uses "initial" print if unmoved, otherwise constructs from canonical name
    pub fn get_room_description(&self) -> (r: String)
        ensures
            r@ == room_description(self@),
    {
        proof {
            lemma_lookup_print(self.print@, "initial"@);
        }
        if !self.moved {
            if let Some(initial) = self.print.get("initial") {
                return initial.clone();
            }
        }
        let canonical = capitalize(self.get_canonical_name().as_str());
        canonical.concat(" is here.")
    }

    /// The text printed for the event `event`, if the item has one.
    pub fn get_print(&self, event: &str) -> (r: Option<&String>)
        ensures
            match r {
                Some(t) => lookup(self@.print, event@) == Some(t@),
                None => lookup(self@.print, event@) is None,
            },
    {
        proof {
            lemma_lookup_print(self.print@, event@);
        }
        self.print.get(event)
    }

    /// Formats the contents of a container for display.
    /// Returns empty Vec if not a container.
    ///
    /// `items` is the table of all items in the world, used to determine the names of contained items.
    pub fn format_container_contents(&self, items: &IdMap<Item>) -> (r: Vec<String>)
        ensures
            texts(r@) == container_lines(self@, item_views(items@)),
    {
        let mut output: Vec<String> = Vec::new();
        if let Some(contents) = self.get_container() {
            if contents.len() > 0 {
                output.push(cat3("Inside the ", self.name.as_str(), " you see:"));
                let mut i: usize = 0;
                while i < contents.len()
                    invariant
                        i <= contents@.len(),
                        texts(output@) == seq!["Inside the "@ + self@.name + " you see:"@]
                            + content_names(contents@.take(i as int), item_views(items@)),
                    decreases contents@.len() - i,
                {
                    let id = contents[i];
                    let ghost prev = output@;
                    proof {
                        assert(contents@.take(i + 1).drop_last() == contents@.take(i as int));
                        assert(contents@.take(i + 1).last() == id);
                        lemma_lookup_item_views(items@, id);
                    }
                    match items.get(&id) {
                        Some(item) => {
                            let line = cat("  ", item.name.as_str());
                            output.push(line);
                            assert(texts(output@) =~= texts(prev).push(line@));
                        },
                        None => {},
                    }
                    i = i + 1;
                }
                assert(contents@.take(i as int) == contents@);
            } else {
                assert(texts(output@) =~= Seq::<Seq<char>>::empty());
            }
        } else {
            assert(texts(output@) =~= Seq::<Seq<char>>::empty());
        }
        output
    }
}

/// Looking an event up among the viewed texts gives the view of the text looked up.
pub proof fn lemma_lookup_print(s: Seq<(Seq<char>, String)>, k: Seq<char>)
    ensures
        lookup(print_texts(s), k) == match lookup(s, k) {
            Some(t) => Some(t@),
            None => None::<Seq<char>>,
        },
{
    crate::util::lemma_first_index(s, crate::util::key_is::<Seq<char>, String>(k));
    crate::util::lemma_first_index(print_texts(s), crate::util::key_is::<Seq<char>, Seq<char>>(k));
    let a = crate::util::key_index(s, k);
    let b = crate::util::key_index(print_texts(s), k);
    if a >= 0 {
        assert(crate::util::key_is::<Seq<char>, Seq<char>>(k)(print_texts(s)[a]));
    }
    if b >= 0 {
        assert(crate::util::key_is::<Seq<char>, String>(k)(s[b]));
    }
}

} // verus!
