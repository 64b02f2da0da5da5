//! A small dungeon to explore: an entrance, a prison cell, a guard room with a bedroom
//! above it, and a secret chamber below the entrance.
use vstd::prelude::*;
use crate::builders::{ItemBuilder, RoomBuilder, WorldBuilder};
use crate::engine::game::{lemma_well_formed_intro, well_formed, GameView};
use crate::models::behavior::{
    container_of, hidden, is_container_b, is_engaged_lock_b, is_keyed_lock_b, is_open_state,
    is_openable_b, is_unrevealed_b, key_of, locked, ItemBehavior,
};
use crate::models::condition::{ConditionEffect, ConditionPredicate, ConditionTrigger, ItemRole};
use crate::models::item::{Determiner, ItemView};
use crate::models::behavior::BehaviorView;
use crate::models::world::Direction;
use crate::parser::grammar::Verb;
use crate::tables::{lemma_has_key_at, lemma_insert_fresh, lemma_key_index_at};
use crate::util::{has_key, lemma_first_index, owned};

verus! {

/// The names of the dungeon's rooms, by id.
pub open spec fn dungeon_room_names() -> Seq<Seq<char>> {
    seq!["Dungeon Entrance"@, "Prison Cell"@, "Guard Room"@, "Guard Bedroom"@, "Secret Chamber"@]
}

/// The names of the dungeon's items, by id.
pub open spec fn dungeon_item_names() -> Seq<Seq<char>> {
    seq![
        "torch"@,
        "key"@,
        "letter"@,
        "dagger"@,
        "coins"@,
        "ruby"@,
        "chest"@,
        "rack"@,
        "skeleton"@,
        "scroll"@,
        "orb"@,
        "table"@,
        "diary"@,
    ]
}

/// The dungeon's items, by id.
pub open spec fn dungeon_items() -> Seq<(i32, ItemView)> {
    seq![
        (0i32, ItemView {
            name: "torch"@,
            determiner: Determiner::Singular,
            adjectives: Seq::empty(),
            behaviors: seq![BehaviorView::Holdable, BehaviorView::Size { value: 1 }],
            moved: false,
            print: seq![("initial"@, "A flickering torch rests in a wall sconce."@)],
        }),
        (1i32, ItemView {
            name: "key"@,
            determiner: Determiner::Singular,
            adjectives: seq!["rusty"@],
            behaviors: seq![BehaviorView::Holdable, BehaviorView::Size { value: 0 }],
            moved: false,
            print: seq![("initial"@, "A rusty iron key lies forgotten in the corner."@)],
        }),
        (2i32, ItemView {
            name: "letter"@,
            determiner: Determiner::Singular,
            adjectives: Seq::empty(),
            behaviors: seq![BehaviorView::Holdable, BehaviorView::Readable { text: "Dear Brother,\nThe treasure is hidden in the locked chest. The key?\nI dropped it somewhere in the cell. Good luck!\n- Marcus"@ }, BehaviorView::Size { value: 0 }],
            moved: false,
            print: Seq::empty(),
        }),
        (3i32, ItemView {
            name: "dagger"@,
            determiner: Determiner::Singular,
            adjectives: Seq::empty(),
            behaviors: seq![BehaviorView::Holdable, BehaviorView::Weapon { damage: 5 }, BehaviorView::Size { value: 1 }],
            moved: false,
            print: Seq::empty(),
        }),
        (4i32, ItemView {
            name: "coins"@,
            determiner: Determiner::Plural,
            adjectives: seq!["gold"@],
            behaviors: seq![BehaviorView::Holdable, BehaviorView::Size { value: 0 }],
            moved: false,
            print: seq![("initial"@, "A pile of gleaming gold coins catches your eye."@)],
        }),
        (5i32, ItemView {
            name: "ruby"@,
            determiner: Determiner::Singular,
            adjectives: seq!["red"@],
            behaviors: seq![BehaviorView::Holdable, BehaviorView::Size { value: 0 }],
            moved: false,
            print: Seq::empty(),
        }),
        (6i32, ItemView {
            name: "chest"@,
            determiner: Determiner::Singular,
            adjectives: seq!["wooden"@],
            behaviors: seq![BehaviorView::Container { contents: seq![4i32, 5i32], capacity: Some(10usize) }, BehaviorView::Openable { is_open: false }, BehaviorView::Locked { is_locked: true, key_id: Some(1i32) }, BehaviorView::Size { value: 3 }],
            moved: false,
            print: seq![("initial"@, "A heavy wooden chest bound with iron sits against the wall, secured with a rusty lock."@)],
        }),
        (7i32, ItemView {
            name: "rack"@,
            determiner: Determiner::Singular,
            adjectives: seq!["weapon"@],
            behaviors: seq![BehaviorView::Container { contents: seq![3i32], capacity: Some(5usize) }, BehaviorView::Openable { is_open: true }, BehaviorView::Size { value: 4 }],
            moved: false,
            print: seq![("initial"@, "A wooden weapon rack stands against the east wall."@)],
        }),
        (8i32, ItemView {
            name: "skeleton"@,
            determiner: Determiner::Singular,
            adjectives: Seq::empty(),
            behaviors: seq![BehaviorView::Size { value: 2 }],
            moved: false,
            print: seq![("initial"@, "The skeletal remains of a prisoner lie crumpled in the corner, still wearing tattered rags."@), ("look"@, "The skeleton has been here for years. Nothing remains but bones and rotting cloth."@)],
        }),
        (9i32, ItemView {
            name: "scroll"@,
            determiner: Determiner::Singular,
            adjectives: seq!["ancient"@],
            behaviors: seq![BehaviorView::Holdable, BehaviorView::Readable { text: "The secret chamber reveals itself only to those who possess the torch's light and have explored every corner of this forsaken place, even beneath their own feet."@ }, BehaviorView::Size { value: 0 }, BehaviorView::Hidden { revealed: false }],
            moved: false,
            print: seq![("initial"@, "A mysteriously glowing scroll lies on the ground."@)],
        }),
        (10i32, ItemView {
            name: "orb"@,
            determiner: Determiner::Singular,
            adjectives: seq!["glowing"@],
            behaviors: seq![BehaviorView::Holdable, BehaviorView::Size { value: 1 }],
            moved: false,
            print: seq![("initial"@, "A mystical orb pulses with ethereal blue light on a stone pedestal."@), ("look"@, "The orb's light swirls hypnotically. You sense ancient magic within."@)],
        }),
        (11i32, ItemView {
            name: "table"@,
            determiner: Determiner::Bare,
            adjectives: seq!["wooden"@],
            behaviors: seq![BehaviorView::Hidden { revealed: false }],
            moved: false,
            print: Seq::empty(),
        }),
        (12i32, ItemView {
            name: "diary"@,
            determiner: Determiner::Singular,
            adjectives: Seq::empty(),
            behaviors: seq![BehaviorView::Holdable, BehaviorView::Size { value: 1 }],
            moved: false,
            print: Seq::empty(),
        }),
    ]
}

/// `p` checks that the flag `name` has the value `v`.
pub open spec fn is_flag_check(p: ConditionPredicate, name: Seq<char>, v: bool) -> bool {
    p matches ConditionPredicate::GameFlag { flag_name, value } && flag_name@ == name && value == v
}

/// The dungeon's rooms by id: name, short description and long description.
pub open spec fn dungeon_room_texts() -> Seq<(Seq<char>, Seq<char>, Seq<char>)> {
    seq![
        ("Dungeon Entrance"@, "A dark stone corridor stretches before you."@, "You stand at the entrance to an ancient dungeon. The air is damp and cold, and the flickering torchlight barely penetrates the darkness ahead.\nStone walls, slick with moisture, stretch into the gloom. Two passages lead deeper: one north into what sounds like a guardroom, and another east toward the prison cells."@),
        ("Prison Cell"@, "A cramped stone cell."@, "This cramped prison cell reeks of despair and decay. The walls are covered in scratch marks and illegible writings.\nA single barred window high above lets in a shaft of pale light. The cell door stands open to the west."@),
        ("Guard Room"@, "An abandoned guard room."@, "This was once a guard post, but it's long since been abandoned. A simple wooden table sits in the center, covered with dust and old parchment.\nA ladder can be seen in the corner leading up. The south exit leads back to the entrance.\n"@),
        ("Guard Bedroom"@, "A guard bedroom."@, "A guard bedroom. A moldy straw mattress lies in one corner. Nearby lies a leather bound booklet, seemingly a diary.\nA ladder leads back down to the guard post."@),
        ("Secret Chamber"@, "A hidden chamber filled with mystical energy."@, "You have discovered a secret chamber! The walls are lined with ancient runes that glow faintly in the torchlight.\nThe air hums with magical energy. Stone stairs lead back up to the entrance."@),
    ]
}

/// Builds the dungeon. Its rooms are numbered 0 to 4 and its items 0 to 12, each once
/// and in that order; a game started in room 0 of it, with nothing carried, is well
/// formed.
pub fn create_world() -> (b: WorldBuilder)
    ensures
        b@.rooms.len() == 5,
        forall|i: int| 0 <= i < 5 ==> #[trigger] b@.rooms[i].0 == i && b@.rooms[i].1.name == dungeon_room_names()[i]
            && !b@.rooms[i].1.entered,
        b@.items.len() == 13,
        forall|i: int| 0 <= i < 13 ==> #[trigger] b@.items[i].0 == i && b@.items[i].1.name == dungeon_item_names()[i]
            && !b@.items[i].1.moved,
        b@.rooms[0].1.items == seq![0i32, 9i32],
        b@.rooms[0].1.exits == seq![(Direction::North, 2i32), (Direction::East, 1i32), (Direction::Down, 4i32)],
        b@.rooms[1].1.items == seq![1i32, 6i32, 8i32],
        b@.rooms[1].1.exits == seq![(Direction::West, 0i32)],
        b@.rooms[2].1.items == seq![2i32, 7i32, 11i32],
        b@.rooms[2].1.exits == seq![(Direction::South, 0i32), (Direction::Up, 3i32)],
        b@.rooms[3].1.items == seq![12i32],
        b@.rooms[3].1.exits == seq![(Direction::Down, 2i32)],
        b@.rooms[4].1.items == seq![10i32],
        b@.rooms[4].1.exits == seq![(Direction::Up, 0i32)],
        container_of(b@.items[6].1.behaviors) == Some(seq![4i32, 5i32]),
        locked(b@.items[6].1),
        key_of(b@.items[6].1) == Some(1i32),
        container_of(b@.items[7].1.behaviors) == Some(seq![3i32]),
        is_open_state(b@.items[7].1),
        hidden(b@.items[9].1),
        hidden(b@.items[11].1),
        b@.items =~~= dungeon_items(),
        forall|i: int| 0 <= i < 5 ==> #[trigger] b@.rooms[i].1.desc == Some(dungeon_room_texts()[i].1)
            && b@.rooms[i].1.long_desc == Some(dungeon_room_texts()[i].2),
        b@.rooms[0].1.conditions.len() == 2,
        forall|i: int| 1 <= i < 5 ==> #[trigger] b@.rooms[i].1.conditions.len() == 0
            && b@.rooms[i].1.conditional_descriptions.len() == 0,
        b@.rooms[0].1.conditional_descriptions.len() == 1,
        b@.rooms[0].1.conditional_descriptions[0].text@ == "The torchlght flickers strangely against the floor."@,
        !b@.rooms[0].1.conditional_descriptions[0].show_in_short,
        b@.global_conditions.len() == 2,
        b@.global_conditions[0].effects@.len() == 3,
        b@.global_conditions[0].effects@[0] == (ConditionEffect::RevealItem { item_id: 9 }),
        b@.global_conditions[0].effects@[1] matches ConditionEffect::PrintMessage { text }
            && text@ == "The torch's light flickers strangely, revealing something hidden..."@,
        b@.global_conditions[0].effects@[2] matches ConditionEffect::SetFlag { flag_name, value }
            && flag_name@ == "scroll_spawned"@ && value,
        b@.global_conditions[1].effects@.len() == 1,
        b@.global_conditions[1].effects@[0] matches ConditionEffect::BlockAction { message: Some(m) }
            && m@ == "That would be rude..."@,
        b@.global_conditions[1].predicates matches ConditionPredicate::And { predicates }
            && predicates@.len() == 2
            && predicates@[0] == (ConditionPredicate::UsingVerb { verb: Verb::Read })
            && predicates@[1] == (ConditionPredicate::TargetingItem { item_id: 12, role: Some(ItemRole::Direct) }),
        b@.global_conditions[0].predicates matches ConditionPredicate::And { predicates }
            && predicates@.len() == 4
            && predicates@[0] == (ConditionPredicate::HasItem { item_id: 0 })
            && predicates@[1] == (ConditionPredicate::RoomVisited { room_id: 1 })
            && predicates@[2] == (ConditionPredicate::RoomVisited { room_id: 2 })
            && is_flag_check(predicates@[3], "scroll_spawned"@, false),
        b@.rooms[0].1.conditions[0].predicates matches ConditionPredicate::And { predicates }
            && predicates@.len() == 2
            && predicates@[1] == (ConditionPredicate::UsingVerb { verb: Verb::Move { dir: Some(Direction::Down) } })
            && is_flag_check(predicates@[0], "scroll_spawned"@, false),
        b@.rooms[0].1.conditions[1].predicates matches ConditionPredicate::And { predicates }
            && predicates@.len() == 3
            && predicates@[1] == (ConditionPredicate::LacksItem { item_id: 0 })
            && predicates@[2] == (ConditionPredicate::UsingVerb { verb: Verb::Move { dir: Some(Direction::Down) } })
            && is_flag_check(predicates@[0], "scroll_spawned"@, true),
        b@.rooms[0].1.conditional_descriptions[0].predicate matches ConditionPredicate::And { predicates }
            && predicates@.len() == 2
            && predicates@[1] == (ConditionPredicate::HasItem { item_id: 0 })
            && is_flag_check(predicates@[0], "scroll_spawned"@, true),
        b@.rooms[0].1.conditions[0].effects@.len() == 1,
        b@.rooms[0].1.conditions[0].effects@[0] matches ConditionEffect::BlockAction { message: Some(m) }
            && m@ == "You cant go down"@,
        b@.rooms[0].1.conditions[1].effects@.len() == 1,
        b@.rooms[0].1.conditions[1].effects@[0] matches ConditionEffect::BlockAction { message: Some(m) }
            && m@ == "The passage is too dark to enter without a light source."@,
        b@.initial_prints matches Some(p) && p.len() == 1,
        b@.flags == seq![("scroll_spawned"@, false)],
        well_formed(
            GameView { inventory: Seq::empty(), world: b@, current_room: 0, turn: 0, game_over: false },
        ),
{
    let torch = ItemBuilder::new("torch")  // 0
        .with_determiner(Determiner::Singular)
        .with_behavior(ItemBehavior::Holdable)
        .with_behavior(ItemBehavior::Size { value: 1 })
        .with_print("initial", "A flickering torch rests in a wall sconce.")
        .build();
    let key = ItemBuilder::new("key")  // 1
        .with_determiner(Determiner::Singular)
        .with_adjective(owned("rusty"))
        .with_behavior(ItemBehavior::Holdable)
        .with_behavior(ItemBehavior::Size { value: 0 })
        .with_print("initial", "A rusty iron key lies forgotten in the corner.")
        .build();
    let letter = ItemBuilder::new("letter")  // 2
        .with_determiner(Determiner::Singular)
        .with_behavior(ItemBehavior::Holdable)
        .with_behavior(ItemBehavior::Readable {
            text: owned("Dear Brother,\nThe treasure is hidden in the locked chest. The key?\nI dropped it somewhere in the cell. Good luck!\n- Marcus"),
        })
        .with_behavior(ItemBehavior::Size { value: 0 })
        .build();
    let dagger = ItemBuilder::new("dagger")  // 3
        .with_determiner(Determiner::Singular)
        .with_behavior(ItemBehavior::Holdable)
        .with_behavior(ItemBehavior::Weapon { damage: 5 })
        .with_behavior(ItemBehavior::Size { value: 1 })
        .build();
    let coins = ItemBuilder::new("coins")  // 4
        .with_determiner(Determiner::Plural)
        .with_adjective(owned("gold"))
        .with_behavior(ItemBehavior::Holdable)
        .with_behavior(ItemBehavior::Size { value: 0 })
        .with_print("initial", "A pile of gleaming gold coins catches your eye.")
        .build();
    let ruby = ItemBuilder::new("ruby")  // 5
        .with_determiner(Determiner::Singular)
        .with_adjective(owned("red"))
        .with_behavior(ItemBehavior::Holdable)
        .with_behavior(ItemBehavior::Size { value: 0 })
        .build();
    let chest = ItemBuilder::new("chest")  // 6
        .with_determiner(Determiner::Singular)
        .with_adjective(owned("wooden"))
        .with_behaviors(
            vec![
                ItemBehavior::Container {
                    contents: vec![4, 5],
                    capacity: Some(10),  // coins and ruby
                },
                ItemBehavior::Openable { is_open: false },
                ItemBehavior::Locked { is_locked: true, key_id: Some(1) },
                ItemBehavior::Size { value: 3 },
            ],
        )
        .with_print(
            "initial",
            "A heavy wooden chest bound with iron sits against the wall, secured with a rusty lock.",
        )
        .build();
    let rack = ItemBuilder::new("rack")  // 7
        .with_determiner(Determiner::Singular)
        .with_adjective(owned("weapon"))
        .with_behaviors(
            vec![
                ItemBehavior::Container {
                    contents: vec![3],  // dagger
                    capacity: Some(5),
                },
                ItemBehavior::Openable { is_open: true },
                ItemBehavior::Size { value: 4 },
            ],
        )
        .with_print("initial", "A wooden weapon rack stands against the east wall.")
        .build();
    let skeleton = ItemBuilder::new("skeleton")  // 8
        .with_determiner(Determiner::Singular)
        .with_behavior(ItemBehavior::Size { value: 2 })
        .with_print(
            "initial",
            "The skeletal remains of a prisoner lie crumpled in the corner, still wearing tattered rags.",
        )
        .with_print(
            "look",
            "The skeleton has been here for years. Nothing remains but bones and rotting cloth.",
        )
        .build();
    let scroll = ItemBuilder::new("scroll")  // 9
        .with_determiner(Determiner::Singular)
        .with_adjective(owned("ancient"))
        .with_behavior(ItemBehavior::Holdable)
        .with_behavior(ItemBehavior::Readable {
            text: owned("The secret chamber reveals itself only to those who possess the torch's light and have explored every corner of this forsaken place, even beneath their own feet."),
        })
        .with_behavior(ItemBehavior::Size { value: 0 })
        .with_behavior(ItemBehavior::Hidden { revealed: false })
        .with_print("initial", "A mysteriously glowing scroll lies on the ground.")
        .build();
    let orb = ItemBuilder::new("orb")  // 10
        .with_determiner(Determiner::Singular)
        .with_adjective(owned("glowing"))
        .with_behavior(ItemBehavior::Holdable)
        .with_behavior(ItemBehavior::Size { value: 1 })
        .with_print("initial", "A mystical orb pulses with ethereal blue light on a stone pedestal.")
        .with_print("look", "The orb's light swirls hypnotically. You sense ancient magic within.")
        .build();
    let guard_table = ItemBuilder::new("table")  // 11
        .with_adjective(owned("wooden"))
        .with_behavior(ItemBehavior::Hidden { revealed: false })
        .build();
    let guard_diary = ItemBuilder::new_regular("diary")  // 12
        .with_determiner(Determiner::Singular)
        .build();

    // Reveal scroll after visiting all rooms with torch
    let reveal_scroll_condition = ConditionTrigger {
        predicates: ConditionPredicate::And {
            predicates: vec![
                ConditionPredicate::HasItem { item_id: 0 },  // has torch
                ConditionPredicate::RoomVisited { room_id: 1 },  // visited cell
                ConditionPredicate::RoomVisited { room_id: 2 },  // visited guard room
                ConditionPredicate::GameFlag { flag_name: owned("scroll_spawned"), value: false },  // Scroll has not been "spawned"
            ],
        },
        effects: vec![
            ConditionEffect::RevealItem { item_id: 9 },
            ConditionEffect::PrintMessage {
                text: owned("The torch's light flickers strangely, revealing something hidden..."),
            },
            ConditionEffect::SetFlag { flag_name: owned("scroll_spawned"), value: true },
        ],
    };
    // Block entrance to secret chamber before scroll spawned
    let secret_chamber_block_pre = ConditionTrigger {
        predicates: ConditionPredicate::And {
            predicates: vec![
                ConditionPredicate::GameFlag { flag_name: owned("scroll_spawned"), value: false },
                ConditionPredicate::UsingVerb { verb: Verb::Move { dir: Some(Direction::Down) } },
            ],
        },
        effects: vec![ConditionEffect::BlockAction { message: Some(owned("You cant go down")) }],
    };
    // Block entrance to secret chamber without torch
    let secret_chamber_block_post = ConditionTrigger {
        predicates: ConditionPredicate::And {
            predicates: vec![
                ConditionPredicate::GameFlag { flag_name: owned("scroll_spawned"), value: true },
                ConditionPredicate::LacksItem { item_id: 0 },
                ConditionPredicate::UsingVerb { verb: Verb::Move { dir: Some(Direction::Down) } },
            ],
        },
        effects: vec![
            ConditionEffect::BlockAction {
                message: Some(owned("The passage is too dark to enter without a light source.")),
            },
        ],
    };
    let no_peeping = ConditionTrigger {
        predicates: ConditionPredicate::And {
            predicates: vec![
                ConditionPredicate::UsingVerb { verb: Verb::Read },
                ConditionPredicate::TargetingItem { item_id: 12, role: Some(ItemRole::Direct) },
            ],
        },
        effects: vec![ConditionEffect::BlockAction { message: Some(owned("That would be rude...")) }],
    };

    let entrance = RoomBuilder::new("Dungeon Entrance")
        .with_desc("A dark stone corridor stretches before you.")
        .with_long_desc("You stand at the entrance to an ancient dungeon. The air is damp and cold, and the flickering torchlight barely penetrates the darkness ahead.\nStone walls, slick with moisture, stretch into the gloom. Two passages lead deeper: one north into what sounds like a guardroom, and another east toward the prison cells.")
        .with_item(0)  // torch
        .with_item(9)  // hidden scroll (revealed by condition)
        .with_exit(Direction::North, 2)
        .with_exit(Direction::East, 1)
        .with_exit(Direction::Down, 4)  // secret chamber
        .with_condition(secret_chamber_block_pre)  // Block entry without torch
        .with_condition(secret_chamber_block_post)  // Block entry without torch
        .with_conditional_desc(
            ConditionPredicate::And {
                predicates: vec![
                    ConditionPredicate::GameFlag { flag_name: owned("scroll_spawned"), value: true },
                    ConditionPredicate::HasItem { item_id: 0 },
                ],
            },
            "The torchlght flickers strangely against the floor.",
            false,
        )
        .build();
    let cell = RoomBuilder::new("Prison Cell")
        .with_desc("A cramped stone cell.")
        .with_long_desc("This cramped prison cell reeks of despair and decay. The walls are covered in scratch marks and illegible writings.\nA single barred window high above lets in a shaft of pale light. The cell door stands open to the west.")
        .with_item(1)  // key
        .with_item(6)  // chest
        .with_item(8)  // skeleton
        .with_exit(Direction::West, 0)
        .build();
    let guard_room = RoomBuilder::new("Guard Room")
        .with_desc("An abandoned guard room.")
        .with_long_desc("This was once a guard post, but it's long since been abandoned. A simple wooden table sits in the center, covered with dust and old parchment.\nA ladder can be seen in the corner leading up. The south exit leads back to the entrance.\n")
        .with_item(2)  // letter
        .with_item(7)  // rack
        .with_item(11)  // table
        .with_exit(Direction::South, 0)
        .with_exit(Direction::Up, 3)
        .build();
    let bedroom = RoomBuilder::new("Guard Bedroom")
        .with_desc("A guard bedroom.")
        .with_long_desc("A guard bedroom. A moldy straw mattress lies in one corner. Nearby lies a leather bound booklet, seemingly a diary.\nA ladder leads back down to the guard post.")
        .with_item(12)
        .with_exit(Direction::Down, 2)
        .build();
    let chamber = RoomBuilder::new("Secret Chamber")
        .with_desc("A hidden chamber filled with mystical energy.")
        .with_long_desc("You have discovered a secret chamber! The walls are lined with ancient runes that glow faintly in the torchlight.\nThe air hums with magical energy. Stone stairs lead back up to the entrance.")
        .with_item(10)  // orb
        .with_exit(Direction::Up, 0)
        .build();

    // Items
    let b = WorldBuilder::new();
    proof { lemma_insert_fresh(b.items@, 0, torch); }
    let b = b.with_item(0, torch);
    proof { lemma_insert_fresh(b.items@, 1, key); }
    let b = b.with_item(1, key);
    proof { lemma_insert_fresh(b.items@, 2, letter); }
    let b = b.with_item(2, letter);
    proof { lemma_insert_fresh(b.items@, 3, dagger); }
    let b = b.with_item(3, dagger);
    proof { lemma_insert_fresh(b.items@, 4, coins); }
    let b = b.with_item(4, coins);
    proof { lemma_insert_fresh(b.items@, 5, ruby); }
    let b = b.with_item(5, ruby);
    proof { lemma_insert_fresh(b.items@, 6, chest); }
    let b = b.with_item(6, chest);
    proof { lemma_insert_fresh(b.items@, 7, rack); }
    let b = b.with_item(7, rack);
    proof { lemma_insert_fresh(b.items@, 8, skeleton); }
    let b = b.with_item(8, skeleton);
    proof { lemma_insert_fresh(b.items@, 9, scroll); }
    let b = b.with_item(9, scroll);
    proof { lemma_insert_fresh(b.items@, 10, orb); }
    let b = b.with_item(10, orb);
    proof { lemma_insert_fresh(b.items@, 11, guard_table); }
    let b = b.with_item(11, guard_table);
    proof { lemma_insert_fresh(b.items@, 12, guard_diary); }
    let b = b.with_item(12, guard_diary);
    // Rooms
    proof { lemma_insert_fresh(b.rooms@, 0, entrance); }
    let b = b.with_room(0, entrance);
    proof { lemma_insert_fresh(b.rooms@, 1, cell); }
    let b = b.with_room(1, cell);
    proof { lemma_insert_fresh(b.rooms@, 2, guard_room); }
    let b = b.with_room(2, guard_room);
    proof { lemma_insert_fresh(b.rooms@, 3, bedroom); }
    let b = b.with_room(3, bedroom);
    proof { lemma_insert_fresh(b.rooms@, 4, chamber); }
    let b = b.with_room(4, chamber);
    // Other game elements
    let mut prints: Vec<String> = Vec::new();
    prints.push(owned("You descend the stone stairs into the darkness below...\n"));
    let b = b
        .with_global_condition(reveal_scroll_condition)  // Reveal scroll after exploration
        .with_global_condition(no_peeping)
        .with_initial_prints(prints)
        .with_flag("scroll_spawned", false);
    proof {
        let w = b@;
        let g = GameView { inventory: Seq::empty(), world: w, current_room: 0, turn: 0, game_over: false };
        assert forall|i: i32| 0 <= i < 13 implies #[trigger] has_key(w.items, i) by {
            lemma_has_key_at(w.items, i as int);
        }
        assert forall|i: i32| 0 <= i < 5 implies #[trigger] has_key(w.rooms, i) by {
            lemma_has_key_at(w.rooms, i as int);
        }
        let e0 = Seq::<(Direction, i32)>::empty();
        lemma_insert_fresh(e0, Direction::North, 2i32);
        lemma_insert_fresh(e0.push((Direction::North, 2i32)), Direction::East, 1i32);
        lemma_insert_fresh(e0.push((Direction::North, 2i32)).push((Direction::East, 1i32)), Direction::Down, 4i32);
        lemma_insert_fresh(e0, Direction::South, 0i32);
        lemma_insert_fresh(e0.push((Direction::South, 0i32)), Direction::Up, 3i32);
        assert forall|i: int, j: int| 0 <= i < w.rooms.len() && 0 <= j < w.rooms[i].1.exits.len() implies has_key(
            w.rooms,
            #[trigger] w.rooms[i].1.exits[j].1,
        ) by {
            assert(0 <= w.rooms[i].1.exits[j].1 < 5);
        }
        lemma_well_formed_intro(g);
        assert(w.rooms[0].1.exits =~= seq![(Direction::North, 2i32), (Direction::East, 1i32), (Direction::Down, 4i32)]);
        assert(w.rooms[2].1.exits =~= seq![(Direction::South, 0i32), (Direction::Up, 3i32)]);
        let chest_b = w.items[6].1.behaviors;
        lemma_first_index(chest_b, is_container_b());
        lemma_first_index(chest_b, is_engaged_lock_b());
        lemma_first_index(chest_b, is_keyed_lock_b());
        assert(is_keyed_lock_b()(chest_b[2]));
        assert(chest_b[0]->contents =~= seq![4i32, 5i32]);
        let rack_b = w.items[7].1.behaviors;
        lemma_first_index(rack_b, is_container_b());
        lemma_first_index(rack_b, is_openable_b());
        assert(rack_b[0]->contents =~= seq![3i32]);
        assert(is_openable_b()(rack_b[1]));
        lemma_first_index(w.items[9].1.behaviors, is_unrevealed_b());
        assert(is_unrevealed_b()(w.items[9].1.behaviors[3]));
        lemma_first_index(w.items[11].1.behaviors, is_unrevealed_b());
        assert(is_unrevealed_b()(w.items[11].1.behaviors[0]));
        reveal_strlit("look");
        reveal_strlit("initial");
        assert("initial"@.len() == 7 && "look"@.len() == 4);
        assert("initial"@ != "look"@);
        let e = Seq::<(Seq<char>, Seq<char>)>::empty();
        let d = dungeon_items();
        assert forall|i: int| 0 <= i < 13 implies w.items[i].1 =~~= #[trigger] d[i].1 by {
            if d[i].1.print.len() > 0 {
                lemma_insert_fresh(e, d[i].1.print[0].0, d[i].1.print[0].1);
            }
            if d[i].1.print.len() > 1 {
                assert(d[i].1.print[0].0 == "initial"@ && d[i].1.print[1].0 == "look"@);
                lemma_insert_fresh(e.push(d[i].1.print[0]), d[i].1.print[1].0, d[i].1.print[1].1);
            }
            assert(w.items[i].1.print =~~= d[i].1.print);
            assert(w.items[i].1.behaviors =~~= d[i].1.behaviors);
            assert(w.items[i].1.adjectives =~~= d[i].1.adjectives);
        }
    }
    b
}

} // verus!
