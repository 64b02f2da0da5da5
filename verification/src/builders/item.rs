//! Building items.
use vstd::prelude::*;
use crate::models::behavior::{BehaviorView, ItemBehavior};
use crate::models::item::{behavior_views, lemma_print_texts_inserted, print_texts, Determiner, Item, ItemView};
use crate::tables::{inserted, NameMap};
use crate::util::{owned, texts};

verus! {

/// An item builder object, used to create items
pub struct ItemBuilder {
    name: String,
    determiner: Option<Determiner>,
    adjectives: Vec<String>,
    behaviors: Vec<ItemBehavior>,
    print: NameMap<String>,
}

/// What an item builder holds so far.
pub struct ItemBuilderView {
    pub name: Seq<char>,
    pub determiner: Option<Determiner>,
    pub adjectives: Seq<Seq<char>>,
    pub behaviors: Seq<BehaviorView>,
    pub print: Seq<(Seq<char>, Seq<char>)>,
}

impl View for ItemBuilder {
    type V = ItemBuilderView;

    closed spec fn view(&self) -> ItemBuilderView {
        ItemBuilderView {
            name: self.name@,
            determiner: self.determiner,
            adjectives: texts(self.adjectives@),
            behaviors: behavior_views(self.behaviors@),
            print: print_texts(self.print@),
        }
    }
}

impl ItemBuilder {
    /// Creates a new item builder
    pub fn new(name: &str) -> (b: Self)
        ensures
            b@ == (ItemBuilderView {
                name: name@,
                determiner: None,
                adjectives: Seq::empty(),
                behaviors: Seq::empty(),
                print: Seq::empty(),
            }),
    {
        let b = ItemBuilder {
            name: owned(name),
            determiner: None,
            adjectives: Vec::new(),
            behaviors: Vec::new(),
            print: NameMap::new(),
        };
        assert(b@.adjectives =~= Seq::<Seq<char>>::empty());
        assert(b@.behaviors =~= Seq::<BehaviorView>::empty());
        assert(b@.print =~= Seq::<(Seq<char>, Seq<char>)>::empty());
        b
    }

    /// Creates a new "regular" item builder.
    /// Regular items are Holdable and have a default size of 1.
    pub fn new_regular(name: &str) -> (b: Self)
        ensures
            b@ == (ItemBuilderView {
                name: name@,
                determiner: None,
                adjectives: Seq::empty(),
                behaviors: seq![BehaviorView::Holdable, BehaviorView::Size { value: 1 }],
                print: Seq::empty(),
            }),
    {
        // Behaviors expected for most items
        let default_behaviors = vec![
            ItemBehavior::Holdable,
            ItemBehavior::Size { value: 1 },  // Small by default
        ];
        let b = ItemBuilder {
            name: owned(name),
            determiner: None,
            behaviors: default_behaviors,
            adjectives: Vec::new(),
            print: NameMap::new(),
        };
        assert(b@.adjectives =~= Seq::<Seq<char>>::empty());
        assert(b@.behaviors =~= seq![BehaviorView::Holdable, BehaviorView::Size { value: 1 }]);
        assert(b@.print =~= Seq::<(Seq<char>, Seq<char>)>::empty());
        b
    }

    /// Adds the given determiner to the item
    pub fn with_determiner(self, d: Determiner) -> (b: Self)
        ensures
            b@ == (ItemBuilderView { determiner: Some(d), ..self@ }),
    {
        let mut b = self;
        b.determiner = Some(d);
        b
    }

    /// Adds the given adjective to the item
    pub fn with_adjective(self, a: String) -> (b: Self)
        ensures
            b@ == (ItemBuilderView { adjectives: self@.adjectives.push(a@), ..self@ }),
    {
        let mut b = self;
        b.adjectives.push(a);
        assert(texts(b.adjectives@) =~= texts(self.adjectives@).push(a@));
        b
    }

    /// Adds the given item behavior to the item
    pub fn with_behavior(self, bh: ItemBehavior) -> (b: Self)
        ensures
            b@ == (ItemBuilderView { behaviors: self@.behaviors.push(bh@), ..self@ }),
    {
        let mut b = self;
        b.behaviors.push(bh);
        assert(behavior_views(b.behaviors@) =~= behavior_views(self.behaviors@).push(bh@));
        b
    }

    /// Adds multiple behaviors at once
    pub fn with_behaviors(self, behaviors: Vec<ItemBehavior>) -> (b: Self)
        ensures
            b@ == (ItemBuilderView { behaviors: self@.behaviors + behavior_views(behaviors@), ..self@ }),
    {
        let mut b = self;
        let mut more = behaviors;
        let ghost added = more@;
        b.behaviors.append(&mut more);
        assert(behavior_views(b.behaviors@) =~= behavior_views(self.behaviors@) + behavior_views(added));
        b
    }

    /// Adds a print to the item: the text printed on the event `event`
    pub fn with_print(self, event: &str, print: &str) -> (b: Self)
        ensures
            b@ == (ItemBuilderView { print: inserted(self@.print, event@, print@), ..self@ }),
    {
        let mut b = self;
        let text = owned(print);
        proof {
            lemma_print_texts_inserted(b.print@, event@, text);
        }
        b.print.insert(owned(event), text);
        b
    }

    /// Constructs the item object
    pub fn build(self) -> (item: Item)
        ensures
            item@ == (ItemView {
                name: self@.name,
                determiner: match self@.determiner {
                    Some(d) => d,
                    None => Determiner::Bare,
                },
                adjectives: self@.adjectives,
                behaviors: self@.behaviors,
                moved: false,
                print: self@.print,
            }),
    {
        let determiner = match self.determiner {
            Some(d) => d,
            None => Determiner::Bare,
        };
        Item {
            name: self.name,
            determiner,
            adjectives: self.adjectives,
            behaviors: self.behaviors,
            moved: false,
            print: self.print,
        }
    }
}

} // verus!
