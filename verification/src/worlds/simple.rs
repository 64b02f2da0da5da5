//! A two-room sample game.
use vstd::prelude::*;
use crate::builders::{ItemBuilder, RoomBuilder, WorldBuilder};
use crate::engine::game::{item_of, lemma_well_formed_intro, well_formed, Game};
use crate::models::behavior::{
    container_of, is_container_b, is_open_state, is_openable_b, is_readable_b, readable_text, ItemBehavior,
};
use crate::models::item::{Determiner, ItemView};
use crate::models::player::Player;
use crate::models::room::RoomView;
use crate::models::behavior::BehaviorView;
use crate::models::world::Direction;
use crate::tables::{lemma_has_key_at, lemma_insert_fresh, lemma_key_index_at};
use crate::util::{lemma_first_index, lookup, owned};

verus! {

/// The sample game's items, by id: a stick, a newspaper and a big chest that holds it.
pub open spec fn simple_items() -> Seq<(i32, ItemView)> {
    seq![
        (0i32, ItemView {
            name: "stick"@,
            determiner: Determiner::Bare,
            adjectives: Seq::empty(),
            behaviors: seq![BehaviorView::Holdable, BehaviorView::Size { value: 1 }, BehaviorView::Weapon { damage: 5 }],
            moved: false,
            print: seq![("initial"@, "On the ground lies a short pointy stick."@)],
        }),
        (2i32, ItemView {
            name: "newspaper"@,
            determiner: Determiner::Bare,
            adjectives: Seq::empty(),
            behaviors: seq![
                BehaviorView::Holdable,
                BehaviorView::Size { value: 1 },
                BehaviorView::Readable {
                    text: "The newspaper headline reads: \"Local Hero Saves Village!\"\nFull story on page 3..."@,
                },
            ],
            moved: false,
            print: Seq::empty(),
        }),
        (1i32, ItemView {
            name: "chest"@,
            determiner: Determiner::Bare,
            adjectives: seq!["big"@],
            behaviors: seq![
                BehaviorView::Container { contents: seq![2i32], capacity: Some(10usize) },
                BehaviorView::Openable { is_open: false },
                BehaviorView::Size { value: 3 },
            ],
            moved: false,
            print: seq![("look"@, "A sturdy wooden chest with iron bands."@)],
        }),
    ]
}

/// The sample game's rooms, by id: the entry and, east of it, the hallway.
pub open spec fn simple_rooms() -> Seq<(i32, RoomView)> {
    seq![
        (0i32, RoomView {
            name: "Entry"@,
            desc: Some("You stand in the entry room. There is a door to the east."@),
            long_desc: None,
            exits: seq![(Direction::East, 1i32)],
            entered: false,
            items: seq![0i32, 1i32],
            conditions: Seq::empty(),
            conditional_descriptions: Seq::empty(),
        }),
        (1i32, RoomView {
            name: "Hallway"@,
            desc: Some("You stand in a large hallway. There is a door to the west."@),
            long_desc: None,
            exits: seq![(Direction::West, 0i32)],
            entered: false,
            items: Seq::empty(),
            conditions: Seq::empty(),
            conditional_descriptions: Seq::empty(),
        }),
    ]
}

/// Creates the sample game: an entry with a stick and a closed chest holding a
/// newspaper, and a hallway to the east.
pub fn create_simple_game() -> (g: Game)
    ensures
        well_formed(g@),
        g@.current_room == 0,
        g@.turn == 0,
        !g@.game_over,
        g@.inventory.len() == 0,
        g@.world.rooms.len() == 2,
        g@.world.items.len() == 3,
        lookup(g@.world.rooms, 0)->0.name == "Entry"@,
        lookup(g@.world.rooms, 1)->0.name == "Hallway"@,
        item_of(g@, 0).name == "stick"@,
        item_of(g@, 1).name == "chest"@,
        item_of(g@, 2).name == "newspaper"@,
        g@.world.rooms[0].1.items == seq![0i32, 1i32],
        g@.world.rooms[0].1.exits == seq![(Direction::East, 1i32)],
        g@.world.rooms[1].1.items == Seq::<i32>::empty(),
        g@.world.rooms[1].1.exits == seq![(Direction::West, 0i32)],
        container_of(item_of(g@, 1).behaviors) == Some(seq![2i32]),
        !is_open_state(item_of(g@, 1)),
        readable_text(item_of(g@, 2)) is Some,
        g@.world.items =~~= simple_items(),
        g@.world.rooms =~~= simple_rooms(),
        g@.world.initial_prints matches Some(p) && p =~~= seq!["This is a simple adventure game sample!"@],
        g@.world.global_conditions.len() == 0,
        g@.world.flags.len() == 0,
{
    let player = Player::new();
    let stick = ItemBuilder::new_regular("stick")
        .with_print("initial", "On the ground lies a short pointy stick.")
        .with_behavior(ItemBehavior::Weapon { damage: 5 })
        .build();
    let newspaper = ItemBuilder::new_regular("newspaper")
        .with_behavior(ItemBehavior::Readable {
            text: owned("The newspaper headline reads: \"Local Hero Saves Village!\"\nFull story on page 3..."),
        })
        .build();
    let chest = ItemBuilder::new("chest")
        .with_behavior(ItemBehavior::Container {
            contents: vec![2],  // contains newspaper
            capacity: Some(10),
        })
        .with_behavior(ItemBehavior::Openable { is_open: false })
        .with_behavior(ItemBehavior::Size { value: 3 })  // Large
        .with_adjective(owned("big"))
        .with_print("look", "A sturdy wooden chest with iron bands.")
        .build();
    let entry = RoomBuilder::new("Entry")
        .with_desc("You stand in the entry room. There is a door to the east.")
        .with_item(0)  // stick
        .with_item(1)  // chest
        .with_exit(Direction::East, 1)  // hallway
        .build();
    let hallway = RoomBuilder::new("Hallway")
        .with_desc("You stand in a large hallway. There is a door to the west.")
        .with_exit(Direction::West, 0)  // entry
        .build();
    let b0 = WorldBuilder::new();
    proof {
        lemma_insert_fresh(b0.items@, 0, stick);
    }
    let b1 = b0.with_item(0, stick);
    proof {
        lemma_insert_fresh(b1.items@, 2, newspaper);
    }
    let b2 = b1.with_item(2, newspaper);
    proof {
        lemma_insert_fresh(b2.items@, 1, chest);
    }
    let b3 = b2.with_item(1, chest);
    proof {
        lemma_insert_fresh(b3.rooms@, 0, entry);
    }
    let b4 = b3.with_room(0, entry);
    proof {
        lemma_insert_fresh(b4.rooms@, 1, hallway);
    }
    let b5 = b4.with_room(1, hallway);
    let mut prints: Vec<String> = Vec::new();
    prints.push(owned("This is a simple adventure game sample!"));
    let world = b5.with_initial_prints(prints).build();
    let ghost rooms = world@.rooms;
    let ghost items = world@.items;
    assert(rooms.len() == 2 && items.len() == 3);
    assert(rooms[0].0 == 0 && rooms[1].0 == 1);
    assert(items[0].0 == 0 && items[1].0 == 2 && items[2].0 == 1);
    proof {
        lemma_has_key_at(rooms, 0);
        lemma_has_key_at(rooms, 1);
        lemma_has_key_at(items, 0);
        lemma_has_key_at(items, 1);
        lemma_has_key_at(items, 2);
        lemma_key_index_at(rooms, 0);
        lemma_key_index_at(rooms, 1);
        lemma_key_index_at(items, 0);
        lemma_key_index_at(items, 1);
        lemma_key_index_at(items, 2);
    }
    let game = Game::new(player, world);
    let g = game.unwrap();
    proof {
        let v = g@;
        assert(v.world.rooms[0].1.exits =~= seq![(Direction::East, 1i32)]);
        assert(v.world.rooms[1].1.exits =~= seq![(Direction::West, 0i32)]);
        assert(v.world.rooms[0].1.items =~= seq![0i32, 1i32]);
        assert(v.world.rooms[1].1.items =~= Seq::<i32>::empty());
        assert(v.world.items[2].1.behaviors[0] is Container);
        assert(v.world.items[2].1.behaviors[0]->contents =~= seq![2i32]);
        lemma_well_formed_intro(v);
        let e = Seq::<(Seq<char>, Seq<char>)>::empty();
        lemma_insert_fresh(e, "initial"@, "On the ground lies a short pointy stick."@);
        lemma_insert_fresh(e, "look"@, "A sturdy wooden chest with iron bands."@);
        assert(v.world.items[0].1.print =~~= simple_items()[0].1.print);
        assert(v.world.items[0].1.behaviors =~~= simple_items()[0].1.behaviors);
        assert(v.world.items[0].1 =~~= simple_items()[0].1);
        assert(v.world.items[1].1.behaviors =~~= simple_items()[1].1.behaviors);
        assert(v.world.items[1].1 =~~= simple_items()[1].1);
        assert(v.world.items[2].1.behaviors =~~= simple_items()[2].1.behaviors);
        assert(v.world.items[2].1.adjectives =~~= simple_items()[2].1.adjectives);
        assert(v.world.items[2].1 =~~= simple_items()[2].1);
        let chest_b = v.world.items[2].1.behaviors;
        lemma_first_index(chest_b, is_container_b());
        lemma_first_index(chest_b, is_openable_b());
        assert(is_openable_b()(chest_b[1]));
        let paper_b = v.world.items[1].1.behaviors;
        lemma_first_index(paper_b, is_readable_b());
        assert(is_readable_b()(paper_b[2]));
    }
    g
}

} // verus!
