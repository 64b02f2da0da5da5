use adventure::builders::{ItemBuilder, RoomBuilder, WorldBuilder};
use adventure::engine::action::Action;
use adventure::engine::Game;
use adventure::errors::{ActionError, GameError};
use adventure::models::condition::ConditionTrigger;
use adventure::models::{ConditionEffect, ConditionPredicate, Direction, ItemBehavior, Player};
use adventure::parser::Verb;
use adventure::worlds::dungeon::create_world;
use adventure::worlds::simple::create_simple_game;

const REFUSALS: [&str; 6] = [
    "Not a prayer.",
    "An interesting idea...",
    "You can't be serious.",
    "Not likely.",
    "A valiant attmept.",
    "What a concept!",
];

fn lines(v: &[&str]) -> Vec<String> {
    v.iter().map(|s| s.to_string()).collect()
}

fn dungeon() -> Game {
    let world = create_world().build();
    Game::new(Player::new(), world).unwrap()
}

#[test]
fn simple_start_lists_the_entry() {
    let mut game = create_simple_game();
    let out = game.start();
    assert_eq!(
        out,
        lines(&[
            "This is a simple adventure game sample!",
            "Entry",
            "You stand in the entry room. There is a door to the east.",
            "On the ground lies a short pointy stick.",
            "Big chest is here.",
            "",
        ])
    );
    // the opening text is printed once
    let again = game.start();
    assert_eq!(again[0], "Entry");
}

#[test]
fn get_moves_item_into_inventory() {
    let mut game = create_simple_game();
    game.start();
    assert_eq!(game.execute_str("get stick"), lines(&["You grab the stick.", ""]));
    assert_eq!(game.player.inventory, vec![0]);
    assert_eq!(game.turn, 1);
    // the stick has left the room, and lost its initial print
    assert_eq!(game.execute_str("look"), lines(&[
        "Entry",
        "You stand in the entry room. There is a door to the east.",
        "Big chest is here.",
        "",
    ]));
    assert_eq!(game.execute_str("drop stick"), lines(&["Dropped: stick", ""]));
    assert!(game.player.inventory.is_empty());
    assert_eq!(game.execute_str("look"), lines(&[
        "Entry",
        "You stand in the entry room. There is a door to the east.",
        "Big chest is here.",
        "Stick is here.",
        "",
    ]));
    assert_eq!(game.turn, 2);
}

#[test]
fn open_get_from_container_and_read() {
    let mut game = create_simple_game();
    game.start();
    assert_eq!(
        game.execute_str("look at chest"),
        lines(&["A sturdy wooden chest with iron bands.", ""])
    );
    assert_eq!(game.execute_str("get newspaper"), lines(&["I don't see a 'newspaper' here", ""]));
    assert_eq!(game.execute_str("put stick in chest"), lines(&["You don't have a 'stick'", ""]));
    assert_eq!(
        game.execute_str("open chest"),
        lines(&["You open the chest.", "Inside the chest you see:", "  newspaper", ""])
    );
    assert_eq!(game.execute_str("open chest"), lines(&["The chest is already open.", ""]));
    assert_eq!(game.execute_str("get newspaper"), lines(&["You grab the newspaper.", ""]));
    assert_eq!(
        game.execute_str("read newspaper"),
        lines(&[
            "The newspaper headline reads: \"Local Hero Saves Village!\"\nFull story on page 3...",
            "",
        ])
    );
    assert_eq!(game.execute_str("read chest"), lines(&["You cannot read that...", ""]));
    assert_eq!(game.execute_str("close chest"), lines(&["You close the chest.", ""]));
    assert_eq!(game.execute_str("close chest"), lines(&["The chest is already closed.", ""]));
    assert_eq!(game.execute_str("put newspaper in chest"), lines(&["The chest is closed.", ""]));
    assert_eq!(game.execute_str("open big chest"), lines(&["You open the chest.", ""]));
    assert_eq!(
        game.execute_str("put newspaper in chest"),
        lines(&["You put the newspaper in the chest.", ""])
    );
    assert!(game.player.inventory.is_empty());
}

#[test]
fn moving_between_rooms() {
    let mut game = create_simple_game();
    game.start();
    assert_eq!(game.execute_str("north"), lines(&["you can't go north", ""]));
    assert_eq!(
        game.execute_str("go east"),
        lines(&["Hallway", "You stand in a large hallway. There is a door to the west.", ""])
    );
    assert_eq!(game.current_room, 1);
    assert_eq!(
        game.execute_str("w"),
        lines(&["Entry", "You stand in the entry room. There is a door to the east.", ""])
    );
    assert_eq!(game.current_room, 0);
    assert_eq!(game.turn, 2);
}

#[test]
fn errors_leave_the_game_unchanged() {
    let mut game = create_simple_game();
    game.start();
    assert_eq!(game.execute_str("dance around"), lines(&["That is not a verb I recognise.", ""]));
    assert_eq!(game.execute_str(""), lines(&["I beg your pardon?", ""]));
    assert_eq!(game.execute_str("get"), lines(&["I dont understand what you mean...", ""]));
    assert_eq!(game.execute_str("attack stick"), lines(&["What good is violence?", ""]));
    assert_eq!(game.execute_str("unlock chest with stick"), lines(&["You don't have a 'stick'", ""]));
    assert_eq!(game.turn, 0);
    assert_eq!(game.current_room, 0);
}

#[test]
fn unholdable_items_are_refused() {
    let mut game = create_simple_game();
    game.start();
    let out = game.execute_str("take chest");
    assert_eq!(out.len(), 2);
    assert!(REFUSALS.contains(&out[0].as_str()));
    assert_eq!(out[1], "");
    // still in the room; a turn passed
    assert_eq!(game.turn, 1);
    let out = game.execute_str("get stick and chest");
    assert_eq!(out[0], "stick: taken.");
    assert!(out[1].starts_with("chest: "));
    assert!(REFUSALS.contains(&&out[1]["chest: ".len()..]));
    assert_eq!(out[2], "");
}

#[test]
fn dungeon_start_hides_the_scroll() {
    let mut game = dungeon();
    let out = game.start();
    assert_eq!(out[0], "You descend the stone stairs into the darkness below...\n");
    assert_eq!(out[1], "Dungeon Entrance");
    assert!(out[2].starts_with("You stand at the entrance to an ancient dungeon."));
    assert_eq!(out[3], "A flickering torch rests in a wall sconce.");
    assert_eq!(out[4], "");
    assert_eq!(out.len(), 5);
}

#[test]
fn dungeon_unlock_and_loot_the_chest() {
    let mut game = dungeon();
    game.start();
    let out = game.execute_str("east");
    assert_eq!(out[0], "Prison Cell");
    assert_eq!(out[2], "A rusty iron key lies forgotten in the corner.");
    assert_eq!(
        out[3],
        "A heavy wooden chest bound with iron sits against the wall, secured with a rusty lock."
    );
    assert_eq!(out.len(), 6);
    assert_eq!(game.execute_str("open chest"), lines(&["The chest is locked.", ""]));
    assert_eq!(game.execute_str("unlock chest with key"), lines(&["You don't have a 'key'", ""]));
    assert_eq!(game.execute_str("get rusty key"), lines(&["You grab the key.", ""]));
    assert_eq!(
        game.execute_str("unlock wooden chest with key"),
        lines(&["You unlock a wooden chest with a rusty key.", ""])
    );
    assert_eq!(
        game.execute_str("unlock chest with key"),
        lines(&["A wooden chest is not locked.", ""])
    );
    assert_eq!(
        game.execute_str("open chest"),
        lines(&["You open the chest.", "Inside the chest you see:", "  coins", "  ruby", ""])
    );
    assert_eq!(
        game.execute_str("get ruby and coins"),
        lines(&["coins: taken.", "ruby: taken.", ""])
    );
    assert_eq!(game.player.inventory, vec![1, 4, 5]);
}

#[test]
fn dungeon_wrong_key_is_refused() {
    let mut game = dungeon();
    game.start();
    game.execute_str("north");
    assert_eq!(game.execute_str("get letter"), lines(&["You grab the letter.", ""]));
    game.execute_str("south");
    game.execute_str("east");
    assert_eq!(
        game.execute_str("unlock chest with letter"),
        lines(&["A letter doesn't seem to work.", ""])
    );
}

#[test]
fn dungeon_visible_items_in_open_rack() {
    let mut game = dungeon();
    game.start();
    let out = game.execute_str("n");
    assert_eq!(out[0], "Guard Room");
    assert!(out.contains(&"A wooden weapon rack stands against the east wall.".to_string()));
    assert!(out.contains(&"Inside the rack you see:".to_string()));
    assert!(out.contains(&"  dagger".to_string()));
    // the table is hidden
    assert_eq!(game.execute_str("look at table"), lines(&["You don't have a 'table'", ""]));
    assert_eq!(game.execute_str("get dagger"), lines(&["You grab the dagger.", ""]));
    assert_eq!(game.execute_str("look at dagger"), lines(&["It's a dagger.", ""]));
}

#[test]
fn new_game_needs_room_zero() {
    let world = WorldBuilder::new()
        .with_room(1, RoomBuilder::new("Nowhere").build())
        .build();
    assert!(Game::new(Player::new(), world).is_none());
}

#[test]
fn naming_an_item_twice_takes_it_once() {
    let mut game = create_simple_game();
    game.start();
    assert_eq!(game.execute_str("get stick and stick"), lines(&["You grab the stick.", ""]));
    assert_eq!(game.player.inventory, vec![0]);
}

#[test]
fn looking_and_reading_take_no_turn() {
    let mut game = create_simple_game();
    game.start();
    game.execute_str("look");
    game.execute_str("look at stick");
    game.execute_str("read stick");
    assert_eq!(game.turn, 0);
    assert_eq!(game.execute_str("look at stick"), lines(&["It's stick.", ""]));
}

#[test]
fn well_formedness_is_checked() {
    assert!(create_simple_game().is_well_formed());
    assert!(dungeon().is_well_formed());
    let missing_item = WorldBuilder::new()
        .with_room(0, RoomBuilder::new("Void").with_item(3).build())
        .build();
    assert!(!Game::new(Player::new(), missing_item).unwrap().is_well_formed());
    let missing_room = WorldBuilder::new()
        .with_room(0, RoomBuilder::new("Edge").with_exit(adventure::models::Direction::Up, 7).build())
        .build();
    assert!(!Game::new(Player::new(), missing_room).unwrap().is_well_formed());
}

#[test]
fn adjectives_tell_items_apart() {
    let world = WorldBuilder::new()
        .with_item(0, ItemBuilder::new_regular("sword").with_adjective("red".to_string()).build())
        .with_item(1, ItemBuilder::new_regular("sword").with_adjective("blue".to_string()).build())
        .with_room(0, RoomBuilder::new("Armory").with_item(0).with_item(1).build())
        .build();
    let mut game = Game::new(Player::new(), world).unwrap();
    assert_eq!(game.execute_str("get sword"), lines(&["Which sword?", ""]));
    assert_eq!(game.execute_str("get green sword"), lines(&["I don't see a 'sword' here", ""]));
    assert_eq!(game.execute_str("get RED sword"), lines(&["You grab the sword.", ""]));
    assert_eq!(game.player.inventory, vec![0]);
    assert_eq!(game.execute_str("get sword"), lines(&["You grab the sword.", ""]));
    assert_eq!(game.execute_str("drop sword"), lines(&["Which sword?", ""]));
    assert_eq!(game.execute_str("drop blue sword"), lines(&["Dropped: sword", ""]));
    assert_eq!(game.player.inventory, vec![0]);
    assert_eq!(game.get_current_room().items, vec![1]);
}

#[test]
fn which_inputs_take_a_turn() {
    let mut game = create_simple_game();
    game.start();
    game.execute_str("look");
    game.execute_str("north");
    game.execute_str("dance");
    game.execute_str("close chest");
    game.execute_str("put stick in chest");
    assert_eq!(game.turn, 0);
    game.execute_str("take chest");
    assert_eq!(game.turn, 1);
    game.execute_str("get stick");
    assert_eq!(game.turn, 2);
    game.execute_str("open chest");
    assert_eq!(game.turn, 3);
    game.execute_str("open chest");
    assert_eq!(game.turn, 3);
    game.execute_str("put stick in chest");
    assert_eq!(game.turn, 4);
    game.execute_str("close chest");
    assert_eq!(game.turn, 5);
    game.execute_str("east");
    assert_eq!(game.turn, 6);
}

fn stick_world() -> WorldBuilder {
    WorldBuilder::new()
        .with_item(0, ItemBuilder::new_regular("stick").build())
        .with_room(0, RoomBuilder::new("A").with_item(0).with_exit(Direction::East, 1).build())
        .with_room(1, RoomBuilder::new("B").build())
}

#[test]
fn a_global_condition_blocks_get() {
    let world = stick_world()
        .with_global_condition(ConditionTrigger {
            predicates: ConditionPredicate::UsingVerb { verb: Verb::Get },
            effects: vec![ConditionEffect::BlockAction { message: Some("No.".into()) }],
        })
        .build();
    let mut g = Game::new(Player::new(), world).unwrap();
    let out = g.execute_str("get stick");
    assert!(out.contains(&"No.".to_string()));
    assert_eq!(out, lines(&["No.", ""]));
    assert!(g.player.inventory.is_empty());
    assert_eq!(g.world.rooms.get(&0).unwrap().items, vec![0]);
    assert!(!g.world.items.get(&0).unwrap().moved);
    assert_eq!(g.turn, 0);
    // other verbs are not blocked
    assert_eq!(g.execute_str("look at stick"), lines(&["It's stick.", ""]));
}

#[test]
fn condition_lines_frame_the_action() {
    let world = stick_world()
        .with_global_condition(ConditionTrigger {
            predicates: ConditionPredicate::TargetingItem { item_id: 0, role: None },
            effects: vec![
                ConditionEffect::PrintMessageBefore { text: "You reach down.".into() },
                ConditionEffect::PrintMessage { text: "It feels light.".into() },
            ],
        })
        .build();
    let mut g = Game::new(Player::new(), world).unwrap();
    assert_eq!(
        g.execute_str("get stick"),
        lines(&["You reach down.", "You grab the stick.", "", "It feels light."])
    );
    assert_eq!(g.player.inventory, vec![0]);
    assert_eq!(g.turn, 1);
    // a command that names no item fires nothing
    let out = g.execute_str("look");
    assert!(!out.contains(&"You reach down.".to_string()));
    assert!(!out.contains(&"It feels light.".to_string()));
}

#[test]
fn room_conditions_fire_only_in_their_room() {
    let world = WorldBuilder::new()
        .with_item(0, ItemBuilder::new_regular("stick").build())
        .with_room(
            0,
            RoomBuilder::new("A")
                .with_item(0)
                .with_exit(Direction::East, 1)
                .with_condition(ConditionTrigger {
                    predicates: ConditionPredicate::EnteringRoom,
                    effects: vec![
                        ConditionEffect::BlockAction { message: Some("The door is stuck.".into()) },
                        ConditionEffect::SetFlag { flag_name: "tried".into(), value: true },
                    ],
                })
                .build(),
        )
        .with_room(1, RoomBuilder::new("B").build())
        .build();
    let mut g = Game::new(Player::new(), world).unwrap();
    assert_eq!(g.execute_str("east"), lines(&["The door is stuck.", ""]));
    assert_eq!(g.current_room, 0);
    assert_eq!(g.world.flags.get("tried"), Some(&true));
    assert_eq!(g.execute_str("get stick"), lines(&["You grab the stick.", ""]));
}

#[test]
fn a_condition_can_move_the_player_first() {
    let world = stick_world()
        .with_global_condition(ConditionTrigger {
            predicates: ConditionPredicate::And {
                predicates: vec![
                    ConditionPredicate::UsingVerb { verb: Verb::Look },
                    ConditionPredicate::InRoom { room_id: 0 },
                ],
            },
            effects: vec![ConditionEffect::MovePlayer { to_room: 1 }],
        })
        .build();
    let mut g = Game::new(Player::new(), world).unwrap();
    assert_eq!(g.execute_str("look"), lines(&["B", ""]));
    assert_eq!(g.current_room, 1);
}

#[test]
fn a_full_container_refuses_more() {
    let world = WorldBuilder::new()
        .with_item(0, ItemBuilder::new_regular("stick").build())
        .with_item(1, ItemBuilder::new_regular("stone").build())
        .with_item(
            2,
            ItemBuilder::new("box")
                .with_behavior(ItemBehavior::Container { contents: vec![1], capacity: Some(1) })
                .build(),
        )
        .with_room(0, RoomBuilder::new("A").with_item(0).with_item(2).build())
        .build();
    let mut g = Game::new(Player::new(), world).unwrap();
    g.execute_str("get stick");
    assert_eq!(g.execute_str("put stick in box"), lines(&["The box is full.", ""]));
    assert_eq!(g.player.inventory, vec![0]);
    assert_eq!(g.world.items.get(&2).unwrap().get_container(), Some(&vec![1]));
    assert_eq!(g.turn, 1);
}

#[test]
fn what_the_world_must_hold() {
    let game = create_simple_game();
    assert!(game.can_start());
    assert!(game.can_resolve_input("get stick"));
    assert!(game.can_resolve_input("dance"));
    let dangling = WorldBuilder::new()
        .with_room(0, RoomBuilder::new("Void").with_item(3).build())
        .build();
    let g = Game::new(Player::new(), dangling).unwrap();
    assert!(!g.can_start());
    assert!(!g.can_resolve_input("get stick"));
    assert!(g.can_resolve_input("north"));
    assert!(g.can_resolve_input("dance"));
    assert!(g.can_resolve_input("inventory"));
    assert!(!g.is_ready(&Action::Look { target: None }));
    assert!(g.is_ready(&Action::Attack { target: 3, weapon: None }));
    assert!(game.is_ready(&Action::Look { target: None }));
    assert!(!game.is_ready(&Action::Read { target: 7 }));
}

#[test]
fn a_condition_reveals_a_hidden_item() {
    let world = WorldBuilder::new()
        .with_item(
            0,
            ItemBuilder::new_regular("coin").with_behavior(ItemBehavior::Hidden { revealed: false }).build(),
        )
        .with_room(0, RoomBuilder::new("Cellar").with_item(0).build())
        .with_global_condition(ConditionTrigger {
            predicates: ConditionPredicate::UsingVerb { verb: Verb::Look },
            effects: vec![ConditionEffect::RevealItem { item_id: 0 }],
        })
        .build();
    let mut g = Game::new(Player::new(), world).unwrap();
    assert_eq!(g.execute_str("get coin"), lines(&["I don't see a 'coin' here", ""]));
    assert!(g.world.items.get(&0).unwrap().is_hidden());
    g.execute_str("look");
    assert!(!g.world.items.get(&0).unwrap().is_hidden());
    assert_eq!(g.execute_str("get coin"), lines(&["You grab the coin.", ""]));
}

#[test]
fn executing_an_action_counts_at_most_one_turn() {
    let mut g = create_simple_game();
    let r = g.execute_action(Action::Attack { target: 0, weapon: None });
    assert_eq!(r, Err(GameError::Action(ActionError::InvalidCommand("What good is violence?".to_string()))));
    assert_eq!(g.turn, 0);
    // the chest is not locked, so unlocking it fails and changes nothing
    assert!(g.execute_action(Action::Unlock { target: 1, key: 0 }).is_err());
    assert_eq!(g.turn, 0);
    assert!(g.world.items.get(&1).unwrap().is_open() == false);
    assert!(g.execute_action(Action::Open { target: 1 }).is_ok());
    assert_eq!(g.turn, 1);
    assert!(g.execute_action(Action::Open { target: 1 }).is_ok());
    assert_eq!(g.turn, 1);
    assert!(g.execute_action(Action::Look { target: None }).is_ok());
    assert_eq!(g.turn, 1);
    assert!(g.execute_action(Action::Get { items: vec![0] }).is_ok());
    assert_eq!(g.turn, 2);
}

#[test]
fn play_refuses_what_cannot_be_played() {
    let dangling = WorldBuilder::new()
        .with_room(0, RoomBuilder::new("Void").with_item(3).build())
        .build();
    let mut g = Game::new(Player::new(), dangling).unwrap();
    assert_eq!(g.play("get stick"), None);
    // an input that does not parse reads nothing of the world
    assert!(g.play("dance").is_some());
    let mut game = create_simple_game();
    assert_eq!(game.play("look at stick"), Some(lines(&["It's stick.", ""])));
    game.turn = u32::MAX;
    assert_eq!(game.play("look at stick"), None);
}
