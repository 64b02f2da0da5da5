use adventure::parser::{parse, NounPhrase, Preposition, Verb};

// Helper to create a NounPhrase easily
fn noun(word: &str) -> NounPhrase {
    NounPhrase {
        adjectives: vec![],
        noun: word.to_string(),
    }
}

fn noun_with_adj(adj: &str, word: &str) -> NounPhrase {
    NounPhrase {
        adjectives: vec![adj.to_string()],
        noun: word.to_string(),
    }
}

// ===== MOVE Tests =====

#[test]
fn move_direction_only() {
    let inputs = ["north", "south", "east", "west", "up", "down"];
    for input in inputs {
        let result = parse(input);
        assert!(result.is_ok(), "Failed to parse: {}", input);
        let cmd = result.unwrap();
        assert!(matches!(cmd.verb, Verb::Move { dir: Some(_) }));
        assert!(cmd.direct.is_empty());
    }
}

#[test]
fn move_with_go() {
    let strs = ["go north", "move north", "walk south"];
    for input in strs {
        let result = parse(input);
        assert!(result.is_ok(), "Failed to parse: {}", input);
        let cmd = result.unwrap();
        assert!(matches!(cmd.verb, Verb::Move { dir: Some(_) }));
    }
}

#[test]
fn move_invalid() {
    let invalid = ["go", "north extra", "move up down"];
    for input in invalid {
        let result = parse(input);
        assert!(result.is_err(), "Should fail to parse: {}", input);
    }
}

// ===== GET Tests =====

#[test]
fn get_single_item() {
    let result = parse("get sword");
    assert!(result.is_ok());
    let cmd = result.unwrap();
    assert_eq!(cmd.verb, Verb::Get);
    assert_eq!(cmd.direct.len(), 1);
    assert_eq!(cmd.direct[0], noun("sword"));
}

#[test]
fn get_with_adjective() {
    let result = parse("get red sword");
    assert!(result.is_ok());
    let cmd = result.unwrap();
    assert_eq!(cmd.direct[0], noun_with_adj("red", "sword"));
}

#[test]
fn get_multiple_items() {
    let result = parse("get sword and shield");
    assert!(result.is_ok());
    let cmd = result.unwrap();
    assert_eq!(cmd.verb, Verb::Get);
    assert_eq!(cmd.direct.len(), 2);
    assert_eq!(cmd.direct[0], noun("sword"));
    assert_eq!(cmd.direct[1], noun("shield"));
}

#[test]
fn get_list_with_commas() {
    let result = parse("get sword, shield and helmet");
    assert!(result.is_ok());
    let cmd = result.unwrap();
    assert_eq!(cmd.direct.len(), 3);
}

#[test]
fn get_invalid() {
    assert!(parse("get").is_err());
}

// ===== DROP Tests =====

#[test]
fn drop_single_item() {
    let result = parse("drop sword");
    assert!(result.is_ok());
    let cmd = result.unwrap();
    assert_eq!(cmd.verb, Verb::Drop);
    assert_eq!(cmd.direct.len(), 1);
}

#[test]
fn drop_multiple_items() {
    let result = parse("drop sword and shield");
    assert!(result.is_ok());
    let cmd = result.unwrap();
    assert_eq!(cmd.direct.len(), 2);
}

#[test]
fn drop_invalid() {
    assert!(parse("drop").is_err());
}

// ===== PUT Tests =====

#[test]
fn put_in_container() {
    let result = parse("put sword in bag");
    assert!(result.is_ok());
    let cmd = result.unwrap();
    assert_eq!(cmd.verb, Verb::Put);
    assert_eq!(cmd.direct[0], noun("sword"));
    assert_eq!(cmd.preposition, Some(Preposition::In));
    assert_eq!(cmd.indirect, Some(noun("bag")));
}

#[test]
fn put_on_surface() {
    let result = parse("put key on table");
    assert!(result.is_ok());
    let cmd = result.unwrap();
    assert_eq!(cmd.preposition, Some(Preposition::On));
}

#[test]
fn put_with_adjectives() {
    let result = parse("put red sword in wooden chest");
    assert!(result.is_ok());
    let cmd = result.unwrap();
    assert_eq!(cmd.direct[0], noun_with_adj("red", "sword"));
    assert_eq!(cmd.indirect, Some(noun_with_adj("wooden", "chest")));
}

#[test]
fn put_invalid_preposition() {
    // "with", "at", "to" are not valid for put
    assert!(parse("put sword with bag").is_err());
    assert!(parse("put sword at table").is_err());
}

#[test]
fn put_missing_parts() {
    assert!(parse("put sword").is_err());
    assert!(parse("put sword in").is_err());
    assert!(parse("put in bag").is_err());
}

// ===== LOOK Tests =====

#[test]
fn look_no_target() {
    let result = parse("look");
    assert!(result.is_ok());
    let cmd = result.unwrap();
    assert_eq!(cmd.verb, Verb::Look);
    assert!(cmd.direct.is_empty());
}

#[test]
fn look_at_target() {
    let result = parse("look at sword");
    assert!(result.is_ok());
    let cmd = result.unwrap();
    assert_eq!(cmd.direct.len(), 1);
    assert_eq!(cmd.direct[0], noun("sword"));
}

#[test]
fn look_without_at() {
    let result = parse("look sword");
    assert!(result.is_ok());
    let cmd = result.unwrap();
    assert_eq!(cmd.direct[0], noun("sword"));
}

#[test]
fn look_at_nothing() {
    // "look at" with nothing after is invalid
    assert!(parse("look at").is_err());
}

// ===== OPEN Tests =====

#[test]
fn open_door() {
    let result = parse("open door");
    assert!(result.is_ok());
    let cmd = result.unwrap();
    assert_eq!(cmd.verb, Verb::Open);
    assert_eq!(cmd.direct[0], noun("door"));
}

#[test]
fn open_with_adjective() {
    let result = parse("open red door");
    assert!(result.is_ok());
    let cmd = result.unwrap();
    assert_eq!(cmd.direct[0], noun_with_adj("red", "door"));
}

#[test]
fn open_invalid() {
    assert!(parse("open").is_err());
}

// ===== CLOSE Tests =====

#[test]
fn close_door() {
    let result = parse("close door");
    assert!(result.is_ok());
    let cmd = result.unwrap();
    assert_eq!(cmd.verb, Verb::Close);
    assert_eq!(cmd.direct[0], noun("door"));
}

#[test]
fn close_invalid() {
    assert!(parse("close").is_err());
}

// ===== ATTACK Tests =====

#[test]
fn attack_target_only() {
    let result = parse("attack goblin");
    assert!(result.is_ok());
    let cmd = result.unwrap();
    assert_eq!(cmd.verb, Verb::Attack);
    assert_eq!(cmd.direct[0], noun("goblin"));
    assert_eq!(cmd.preposition, None);
    assert_eq!(cmd.indirect, None);
}

#[test]
fn attack_with_weapon() {
    let result = parse("attack goblin with sword");
    assert!(result.is_ok());
    let cmd = result.unwrap();
    assert_eq!(cmd.direct[0], noun("goblin"));
    assert_eq!(cmd.preposition, Some(Preposition::With));
    assert_eq!(cmd.indirect, Some(noun("sword")));
}

#[test]
fn attack_with_adjectives() {
    let result = parse("attack big goblin with magic sword");
    assert!(result.is_ok());
    let cmd = result.unwrap();
    assert_eq!(cmd.direct[0], noun_with_adj("big", "goblin"));
    assert_eq!(cmd.indirect, Some(noun_with_adj("magic", "sword")));
}

#[test]
fn attack_invalid() {
    assert!(parse("attack").is_err());
    assert!(parse("attack goblin with").is_err());
    assert!(parse("attack with sword").is_err());
}

// ===== VERB ALIASES Tests =====

#[test]
fn test_verb_aliases() {
    // Test various aliases work
    assert!(parse("take sword").is_ok());
    assert!(parse("grab sword").is_ok());
    assert!(parse("release sword").is_ok());
    assert!(parse("place sword in bag").is_ok());
    assert!(parse("examine sword").is_ok());
    assert!(parse("l").is_ok()); // shorthand for look
    assert!(parse("shut door").is_ok());
    assert!(parse("hit goblin").is_ok());
    assert!(parse("kill goblin with sword").is_ok());
}

// ===== EDGE CASES =====

#[test]
fn test_empty_input() {
    assert!(parse("").is_err());
    assert!(parse("   ").is_err());
}

#[test]
fn test_unknown_verb() {
    assert!(parse("dance around").is_err());
    assert!(parse("xyz foo bar").is_err());
}
