use adventure::builders::{ItemBuilder, RoomBuilder, WorldBuilder};
use adventure::engine::action::Action;
use adventure::engine::Game;
use adventure::errors::{cant_do_that, ActionError, GameError, ItemError, ParseError, UserFriendlyError, WorldError};
use adventure::models::{
    ConditionEffect, ConditionPredicate, Determiner, Direction, Item, ItemBehavior, Player, World,
};
use adventure::models::condition::ItemRole;
use adventure::parser::{parse_preposition, parse_verb, tokenize, Preposition, Verb};
use adventure::tables::{IdMap, NameMap};
use adventure::util::{capitalize, eq_ignore_ascii_case};
use adventure::worlds::simple::create_simple_game;

const REFUSALS: [&str; 6] = [
    "Not a prayer.",
    "An interesting idea...",
    "You can't be serious.",
    "Not likely.",
    "A valiant attmept.",
    "What a concept!",
];

fn words(input: &str) -> Vec<String> {
    tokenize(input).into_iter().map(|t| t.text).collect()
}

#[test]
fn tokenize_lowercases_and_splits() {
    assert_eq!(words("Get the RED Sword, Shield"), vec!["get", "the", "red", "sword", ",", "shield"]);
    assert_eq!(words("  look\tat   it!  "), vec!["look", "at", "it"]);
    assert!(words("   ").is_empty());
    assert_eq!(words("ÉPÉE"), vec!["épée"]);
}

#[test]
fn parse_is_case_insensitive() {
    let cmd = adventure::parser::parse("GET Red SWORD").unwrap();
    assert_eq!(cmd.verb, Verb::Get);
    assert_eq!(cmd.direct[0].noun, "sword");
    assert_eq!(cmd.direct[0].adjectives, vec!["red".to_string()]);
}

#[test]
fn verbs_and_prepositions() {
    assert_eq!(parse_verb("ne"), Some(Verb::Move { dir: Some(Direction::NorthEast) }));
    assert_eq!(parse_verb("walk"), Some(Verb::Move { dir: None }));
    assert_eq!(parse_verb("inspect"), Some(Verb::Look));
    assert_eq!(parse_verb("dance"), None);
    assert_eq!(parse_preposition("with"), Some(Preposition::With));
    assert_eq!(parse_preposition("under"), None);
}

#[test]
fn directions_read_and_written() {
    assert_eq!(Direction::try_from("south-west"), Ok(Direction::SouthWest));
    assert_eq!(Direction::try_from("u"), Ok(Direction::Up));
    assert_eq!(Direction::try_from("sideways"), Err(ParseError::NotADirection("sideways".to_string())));
    assert_eq!(Direction::NorthEast.to_string(), "north-east");
    assert_eq!(Direction::NorthEast.to_word(), "northeast");
    assert_eq!(Determiner::try_from("an"), Ok(Determiner::Singular));
    assert_eq!(Determiner::try_from("many"), Err(ParseError::NotParseable));
}

#[test]
fn capitalize_first_letter() {
    assert_eq!(capitalize("a red sword"), "A red sword");
    assert_eq!(capitalize("ßeta"), "SSeta");
    assert_eq!(capitalize(""), "");
    assert!(eq_ignore_ascii_case("Sword", "sWORD"));
    assert!(!eq_ignore_ascii_case("sword", "swords"));
}

#[test]
fn error_messages() {
    assert_eq!(ActionError::NoExit(Direction::North).get_user_error(), "you can't go north");
    assert_eq!(ActionError::AmbiguousItem("key".to_string()).get_user_error(), "Which key?");
    assert_eq!(ActionError::ItemNotFound("key".to_string()).get_user_error(), "I don't see a 'key' here");
    assert_eq!(ParseError::NoTarget("take".to_string()).get_user_error(), "What do you want to take?");
    assert_eq!(ParseError::NotADirection("up-ish".to_string()).get_user_error(), "You cannot go 'up-ish'...");
    assert_eq!(ParseError::UnknownPhrase("foo".to_string()).get_user_error(), "I understood what you meant until foo");
    assert_eq!(WorldError::InvalidDirection(Direction::SouthEast).get_user_error(), "You cannot go south-east");
    assert_eq!(WorldError::AlreadyHeld.get_user_error(), "You already have that.");
    assert_eq!(GameError::Unknown.get_user_error(), "That wasn't supposed to happen...");
    assert_eq!(GameError::from(ItemError::NotOpenable).get_user_error(), "That is not something you can open");
    assert!(REFUSALS.contains(&ItemError::NotAHoldable.get_user_error().as_str()));
    let mut e = ParseError::NoTarget(String::new());
    e.specify_target_action("open".to_string());
    assert_eq!(e, ParseError::NoTarget("open".to_string()));
    let mut e = ParseError::EmptyInput;
    e.specify_target_action("open".to_string());
    assert_eq!(e, ParseError::EmptyInput);
}

#[test]
fn refusals_are_drawn_from_the_phrases() {
    for _ in 0..100 {
        let r = cant_do_that();
        assert!(REFUSALS.contains(&r.as_str()), "{}", r);
    }
}

#[test]
fn item_names_and_descriptions() {
    let sword = ItemBuilder::new_regular("sword")
        .with_determiner(Determiner::Singular)
        .with_adjective("red".to_string())
        .with_adjective("sharp".to_string())
        .build();
    assert_eq!(sword.get_canonical_name(), "a red sharp sword");
    assert_eq!(sword.get_room_description(), "A red sharp sword is here.");
    let coins = ItemBuilder::new("coins").with_determiner(Determiner::Plural).with_print("initial", "Coins glitter.").build();
    assert_eq!(coins.get_canonical_name(), "some coins");
    assert_eq!(coins.get_room_description(), "Coins glitter.");
    let mut moved = ItemBuilder::new("crown").with_determiner(Determiner::ProperNoun).with_print("initial", "x").build();
    moved.moved = true;
    assert_eq!(moved.get_room_description(), "The crown is here.");
    assert_eq!(moved.get_print("initial").map(|s| s.as_str()), Some("x"));
    assert_eq!(moved.get_print("look"), None);
}

#[test]
fn item_behaviors_query_and_set() {
    let mut chest = ItemBuilder::new("chest")
        .with_behaviors(vec![
            ItemBehavior::Container { contents: vec![3], capacity: None },
            ItemBehavior::Openable { is_open: false },
            ItemBehavior::Locked { is_locked: true, key_id: Some(7) },
            ItemBehavior::Hidden { revealed: false },
        ])
        .build();
    assert!(chest.has_container() && chest.has_openable() && !chest.is_holdable());
    assert!(chest.is_locked() && !chest.is_open() && chest.is_hidden());
    assert!(!chest.should_list_in_room());
    assert_eq!(chest.get_key_id(), Some(7));
    assert!(chest.set_locked(false));
    assert!(!chest.is_locked());
    assert_eq!(chest.get_key_id(), Some(7));
    assert!(chest.set_open(true));
    assert!(chest.is_open());
    assert!(chest.uncover());
    assert!(!chest.is_hidden());
    assert!(chest.conceal());
    assert!(chest.is_hidden());
    assert!(chest.container_push(4));
    assert_eq!(chest.get_container(), Some(&vec![3, 4]));
    assert!(chest.container_remove(3));
    assert!(!chest.container_remove(3));
    if let Some(c) = chest.get_container_mut() {
        c.push(9);
    }
    assert_eq!(chest.get_container(), Some(&vec![4, 9]));

    let mut rock = ItemBuilder::new_regular("rock")
        .with_behavior(ItemBehavior::Weapon { damage: 3 })
        .with_behavior(ItemBehavior::Readable { text: "Rock on".to_string() })
        .with_behavior(ItemBehavior::Scenery)
        .build();
    assert!(rock.is_holdable() && rock.has_weapon() && rock.has_readable() && rock.is_scenery());
    assert_eq!(rock.get_weapon_damage(), Some(3));
    assert_eq!(rock.get_size(), Some(1));
    assert_eq!(rock.get_readable_text(), Some("Rock on"));
    assert!(rock.is_open());
    assert!(!rock.set_open(false));
    assert!(!rock.set_locked(true));
    assert!(!rock.uncover());
    assert!(!rock.container_push(1));
    assert!(rock.get_container_mut().is_none());
    assert_eq!(rock.get_container(), None);
}

#[test]
fn container_contents_listing() {
    let mut items: IdMap<Item> = IdMap::new();
    items.insert(1, ItemBuilder::new("apple").build());
    items.insert(2, ItemBuilder::new("pear").build());
    let bag = ItemBuilder::new("bag")
        .with_behavior(ItemBehavior::Container { contents: vec![2, 5, 1], capacity: None })
        .build();
    assert_eq!(
        bag.format_container_contents(&items),
        vec!["Inside the bag you see:".to_string(), "  pear".to_string(), "  apple".to_string()]
    );
    let empty = ItemBuilder::new("box").with_behavior(ItemBehavior::Container { contents: vec![], capacity: None }).build();
    assert!(empty.format_container_contents(&items).is_empty());
    assert!(ItemBuilder::new("rock").build().format_container_contents(&items).is_empty());
}

#[test]
fn tables_read_back_what_was_written() {
    let mut m: IdMap<u8> = IdMap::new();
    assert_eq!(m.insert(5, 1), None);
    assert_eq!(m.insert(2, 7), None);
    assert_eq!(m.insert(5, 3), Some(1));
    assert_eq!(m.get(&5), Some(&3));
    assert_eq!(m.get(&2), Some(&7));
    assert_eq!(m.get(&9), None);
    assert!(m.contains_key(&2) && !m.contains_key(&4));
    assert_eq!(m.entries.len(), 2);
    let mut f: NameMap<bool> = NameMap::new();
    f.insert("door".to_string(), true);
    assert_eq!(f.insert("door".to_string(), false), Some(true));
    assert_eq!(f.get("door"), Some(&false));
    assert!(!f.contains_key("gate"));
}

#[test]
fn rooms_and_worlds_from_builders() {
    let room = RoomBuilder::new("Hall")
        .with_desc("A hall.")
        .with_long_desc("A long hall.")
        .with_exit(Direction::North, 1)
        .with_exit(Direction::North, 2)
        .with_item(4)
        .build();
    assert_eq!(room.name, "Hall");
    assert_eq!(room.exits.get(&Direction::North), Some(2));
    assert_eq!(room.exits.entries.len(), 1);
    assert_eq!(room.items, vec![4]);
    assert!(!room.entered);
    let world = WorldBuilder::new()
        .with_room(0, room)
        .with_flag("lit", true)
        .with_initial_prints(vec!["Hello".to_string()])
        .build();
    assert!(world.rooms.contains_key(&0));
    assert_eq!(world.flags.get("lit"), Some(&true));
    assert_eq!(world.initial_prints, Some(vec!["Hello".to_string()]));
    let empty = World::empty();
    assert!(empty.rooms.entries.is_empty() && empty.items.entries.is_empty());
}

#[test]
fn predicates_against_the_game() {
    let mut game = create_simple_game();
    game.start();
    assert!(game.evaluate_predicate(&ConditionPredicate::InRoom { room_id: 0 }));
    assert!(!game.evaluate_predicate(&ConditionPredicate::NotInRoom { room_id: 0 }));
    assert!(game.evaluate_predicate(&ConditionPredicate::LacksItem { item_id: 0 }));
    assert!(game.evaluate_predicate(&ConditionPredicate::RoomVisited { room_id: 0 }));
    assert!(!game.evaluate_predicate(&ConditionPredicate::RoomVisited { room_id: 1 }));
    assert!(!game.evaluate_predicate(&ConditionPredicate::RoomVisited { room_id: 9 }));
    game.execute_str("get stick");
    assert!(game.evaluate_predicate(&ConditionPredicate::HasItem { item_id: 0 }));
    assert!(game.evaluate_predicate(&ConditionPredicate::InventoryCount { min: Some(1), max: Some(1) }));
    assert!(!game.evaluate_predicate(&ConditionPredicate::InventoryCount { min: Some(2), max: None }));
    assert!(game.evaluate_predicate(&ConditionPredicate::TurnCount { min: Some(1), max: None }));
    assert!(game.evaluate_predicate(&ConditionPredicate::ItemState {
        item_id: 1,
        is_open: Some(false),
        is_locked: Some(false),
        moved: Some(false),
    }));
    assert!(game.evaluate_predicate(&ConditionPredicate::ItemState { item_id: 0, is_open: None, is_locked: None, moved: Some(true) }));
    assert!(!game.evaluate_predicate(&ConditionPredicate::ItemState { item_id: 42, is_open: None, is_locked: None, moved: None }));
    assert!(!game.evaluate_predicate(&ConditionPredicate::GameFlag { flag_name: "x".to_string(), value: false }));
    let p = ConditionPredicate::And {
        predicates: vec![
            ConditionPredicate::Always,
            ConditionPredicate::Or { predicates: vec![ConditionPredicate::Never, ConditionPredicate::HasItem { item_id: 0 }] },
        ],
    };
    assert!(game.evaluate_predicate(&p));
    let not_not = ConditionPredicate::Not { predicate: Box::new(ConditionPredicate::Not { predicate: Box::new(p) }) };
    assert!(game.evaluate_predicate(&not_not));
    assert!(!game.evaluate_predicate(&ConditionPredicate::And { predicates: vec![ConditionPredicate::Never] }));
    assert!(game.evaluate_predicate(&ConditionPredicate::And { predicates: vec![] }));
    assert!(!game.evaluate_predicate(&ConditionPredicate::Or { predicates: vec![] }));
    // action predicates are false without an action
    assert!(!game.evaluate_predicate(&ConditionPredicate::EnteringRoom));
    assert!(!game.evaluate_predicate(&ConditionPredicate::UsingVerb { verb: Verb::Get }));
}

#[test]
fn predicates_with_an_action() {
    let game = create_simple_game();
    let go_down = Action::Move { dir: Direction::Down };
    let any_move = ConditionPredicate::UsingVerb { verb: Verb::Move { dir: None } };
    assert!(game.evaluate_predicate_with_action(&any_move, &go_down));
    assert!(game.evaluate_predicate_with_action(&ConditionPredicate::UsingVerb { verb: Verb::Move { dir: Some(Direction::Down) } }, &go_down));
    assert!(!game.evaluate_predicate_with_action(&ConditionPredicate::UsingVerb { verb: Verb::Move { dir: Some(Direction::Up) } }, &go_down));
    assert!(game.evaluate_predicate_with_action(&ConditionPredicate::EnteringRoom, &go_down));
    let unlock = Action::Unlock { target: 6, key: 1 };
    assert!(game.evaluate_predicate_with_action(&ConditionPredicate::TargetingItem { item_id: 1, role: Some(ItemRole::Indirect) }, &unlock));
    assert!(!game.evaluate_predicate_with_action(&ConditionPredicate::TargetingItem { item_id: 1, role: Some(ItemRole::Direct) }, &unlock));
    assert!(game.evaluate_predicate_with_action(&ConditionPredicate::TargetingItem { item_id: 6, role: None }, &unlock));
    let get = Action::Get { items: vec![2, 3] };
    assert!(game.evaluate_predicate_with_action(&ConditionPredicate::TargetingItem { item_id: 3, role: None }, &get));
    assert!(!game.evaluate_predicate_with_action(&ConditionPredicate::EnteringRoom, &get));
    // predicates about the state agree with the plain evaluation
    assert!(game.evaluate_predicate_with_action(&ConditionPredicate::InRoom { room_id: 0 }, &get));
    let both = ConditionPredicate::And { predicates: vec![any_move, ConditionPredicate::Not { predicate: Box::new(ConditionPredicate::Never) }] };
    assert!(game.evaluate_predicate_with_action(&both, &go_down));
    assert!(!game.evaluate_predicate_with_action(&both, &get));
}

#[test]
fn effects_change_the_game_in_order() {
    let mut game = create_simple_game();
    game.start();
    let effects = vec![
        ConditionEffect::PrintMessageBefore { text: "before".to_string() },
        ConditionEffect::PrintMessage { text: "first".to_string() },
        ConditionEffect::LockItem { item_id: 1 },
        ConditionEffect::OpenItem { item_id: 1 },
        ConditionEffect::MoveItem { item_id: 0, to_room: 1 },
        ConditionEffect::MovePlayer { to_room: 1 },
        ConditionEffect::MovePlayer { to_room: 8 },
        ConditionEffect::SetFlag { flag_name: "seen".to_string(), value: true },
        ConditionEffect::RevealItem { item_id: 99 },
        ConditionEffect::BlockAction { message: Some("blocked".to_string()) },
        ConditionEffect::EndGame { message: None },
    ];
    let r = game.execute_effect(&effects);
    assert_eq!(r.output, vec!["first".to_string(), "blocked".to_string()]);
    assert_eq!(r.output_before, vec!["before".to_string()]);
    assert!(r.blocked);
    assert_eq!(game.current_room, 1);
    assert!(game.game_over);
    assert_eq!(game.world.flags.get("seen"), Some(&true));
    assert_eq!(game.world.rooms.get(&1).unwrap().items, vec![0]);
    assert_eq!(game.world.rooms.get(&0).unwrap().items, vec![1]);
    let chest = game.world.items.get(&1).unwrap();
    assert!(chest.is_open());
    assert!(!chest.is_locked());
    // moving an item out of a container; nothing blocks here
    let r = game.execute_effect(&[ConditionEffect::MoveItem { item_id: 2, to_room: 0 }, ConditionEffect::HideItem { item_id: 2 }]);
    assert!(!r.blocked && r.output.is_empty());
    assert_eq!(game.world.rooms.get(&0).unwrap().items, vec![1, 2]);
    assert_eq!(game.world.items.get(&1).unwrap().get_container(), Some(&vec![]));
    assert!(!game.world.items.get(&2).unwrap().is_hidden());
}

#[test]
fn effects_in_two_runs_equal_one_run() {
    let list = vec![
        ConditionEffect::MovePlayer { to_room: 1 },
        ConditionEffect::PrintMessage { text: "a".to_string() },
        ConditionEffect::CloseItem { item_id: 1 },
        ConditionEffect::PrintMessage { text: "b".to_string() },
    ];
    let mut one = create_simple_game();
    let r = one.execute_effect(&list);
    let mut two = create_simple_game();
    let r1 = two.execute_effect(&list[..2]);
    let r2 = two.execute_effect(&list[2..]);
    let mut joined = r1.output.clone();
    joined.extend(r2.output.clone());
    assert_eq!(r.output, joined);
    assert_eq!(one.current_room, two.current_room);
    assert_eq!(r.blocked, r1.blocked || r2.blocked);
}

#[test]
fn full_room_description_with_conditions() {
    let game = create_simple_game();
    let room = RoomBuilder::new("Cave")
        .with_desc("short")
        .with_long_desc("long")
        .with_conditional_desc(ConditionPredicate::Always, "always shown", true)
        .with_conditional_desc(ConditionPredicate::Always, "long only", false)
        .with_conditional_desc(ConditionPredicate::Never, "never", true)
        .build();
    assert_eq!(room.get_full_description(&game, true), vec!["Cave", "long", "always shown", "long only"]);
    assert_eq!(room.get_full_description(&game, false), vec!["Cave", "short", "always shown"]);
}

#[test]
fn player_and_current_room() {
    let p = Player::new();
    assert!(p.inventory.is_empty());
    let mut game = create_simple_game();
    assert_eq!(game.get_current_room().name, "Entry");
    game.get_current_room_mut().entered = true;
    assert!(game.get_current_room().entered);
    let out = game.execute_action(Action::Look { target: None }).unwrap();
    assert_eq!(out[0], "Entry");
    assert_eq!(
        game.execute_action(Action::Attack { target: 0, weapon: None }),
        Err(GameError::Action(ActionError::InvalidCommand("What good is violence?".to_string())))
    );
    assert_eq!(game.execute_action(Action::Put { item: 50, container: 1 }), Err(GameError::Unknown));
    assert_eq!(game.execute_action(Action::Open { target: 50 }), Err(GameError::Unknown));
}

#[test]
fn effects_move_on_the_sample_game() {
    let mut g1 = create_simple_game();
    g1.execute_effect(&[ConditionEffect::MovePlayer { to_room: 1 }]);
    assert_eq!(g1.current_room, 1);
    let mut g2 = create_simple_game();
    g2.execute_effect(&[ConditionEffect::MovePlayer { to_room: 9 }]);
    assert_eq!(g2.current_room, 0);
    let mut g3 = create_simple_game();
    g3.execute_effect(&[ConditionEffect::MoveItem { item_id: 2, to_room: 1 }]);
    assert_eq!(g3.world.rooms.get(&1).unwrap().items, vec![2]);
    assert_eq!(g3.world.items.get(&1).unwrap().get_container(), Some(&vec![]));
    assert_eq!(g3.world.rooms.get(&0).unwrap().items, vec![0, 1]);
}

#[test]
fn a_later_exit_or_room_replaces_the_earlier() {
    let room = RoomBuilder::new("Hall")
        .with_exit(Direction::East, 1)
        .with_exit(Direction::West, 2)
        .with_exit(Direction::East, 3)
        .build();
    assert_eq!(room.exits.get(&Direction::East), Some(3));
    assert_eq!(room.exits.get(&Direction::West), Some(2));
    let world = WorldBuilder::new()
        .with_room(0, RoomBuilder::new("Old").build())
        .with_room(1, RoomBuilder::new("Other").build())
        .with_room(0, RoomBuilder::new("New").build())
        .build();
    assert_eq!(world.rooms.get(&0).unwrap().name, "New");
    assert_eq!(world.rooms.get(&1).unwrap().name, "Other");
}

#[test]
fn targeting_without_a_role_means_either_role() {
    let game = create_simple_game();
    let put = Action::Put { item: 0, container: 1 };
    let either = |id: i32| ConditionPredicate::TargetingItem { item_id: id, role: None };
    let direct = |id: i32| ConditionPredicate::TargetingItem { item_id: id, role: Some(ItemRole::Direct) };
    let indirect = |id: i32| ConditionPredicate::TargetingItem { item_id: id, role: Some(ItemRole::Indirect) };
    assert!(game.evaluate_predicate_with_action(&either(0), &put));
    assert!(game.evaluate_predicate_with_action(&either(1), &put));
    assert!(!game.evaluate_predicate_with_action(&either(2), &put));
    assert!(game.evaluate_predicate_with_action(&direct(0), &put));
    assert!(!game.evaluate_predicate_with_action(&direct(1), &put));
    assert!(game.evaluate_predicate_with_action(&indirect(1), &put));
    let open = Action::Open { target: 1 };
    assert!(game.evaluate_predicate_with_action(&either(1), &open));
    assert!(!game.evaluate_predicate_with_action(&indirect(1), &open));
}

#[test]
fn splitting_words_again_gives_the_same_words() {
    for input in ["Get the BIG, red apple!", "  put  sword,shield in   chest ", ",,", "look"] {
        let words = words(input);
        let spaced: String = words.iter().map(|w| format!("{} ", w)).collect();
        assert_eq!(self::words(&spaced), words);
    }
}

#[test]
fn ascii_tokens_are_lower_case_and_stable() {
    for input in ["Get sword, Shield!", "PUT the Red BALL in box", "  a,b ,, C  "] {
        let texts = words(input);
        for t in &texts {
            assert!(!t.is_empty());
            assert!(t == "," || t.chars().all(|c| c.is_alphanumeric()));
            assert_eq!(t, &t.to_lowercase());
        }
        assert_eq!(words(&texts.join(" ")), texts);
    }
    assert_eq!(words("Get sword, Shield!"), vec!["get", "sword", ",", "shield"]);
}

#[test]
fn capitalizing_ascii_raises_only_a_small_first_letter() {
    assert_eq!(capitalize("red sword"), "Red sword");
    assert_eq!(capitalize("Red sword"), "Red sword");
    assert_eq!(capitalize("1 coin"), "1 coin");
    assert_eq!(capitalize(""), "");
}
