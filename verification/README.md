# adventure

A text adventure engine in the manner of Zork, verified with Verus.

- `src/parser`: turns a player's sentence into a command (tokens, verbs, noun
  phrases, prepositions).
- `src/models`: rooms, items and their behaviors, the player, the world, and the
  condition system (predicates over the game state, effects that change it).
- `src/engine`: the game itself; a command is resolved against the world into an
  action, the conditions that apply fire, and the action is executed unless one of
  them blocks it.
- `src/builders`: builders for items, rooms and worlds.
- `src/worlds`: two sample worlds, a small dungeon and a two-room game.
- `src/tables.rs`: the keyed tables the world keeps its rooms, items, exits and flags in.
- `app/main.rs`: a terminal loop that plays the dungeon.

Every executable function in `src/` carries a contract: what the parser accepts, what
resolving and executing an action prints and how it changes the game, and that a well
formed game stays well formed. A function asks of the world only what it reads: the
items it names, the player's room and the items lying there.

## Conditions

Each input that names an action fires, in order, the world's global conditions and
then those of the player's room. A condition whose predicate holds in the game as the
conditions before it left it applies its effects. When one of them blocks the action,
the action is not executed; the lines the effects print before the action come first,
then the action's own lines, then the rest of theirs.

A predicate or an effect is data: there are no `Custom` predicates or effects that
carry a function, since a contract cannot speak of what an arbitrary function does.

## Tables

Rooms and items are kept in tables keyed by integer ids, and exits in a table keyed
by direction, each a `Vec` of entries searched in order. The first entry with a key
is the one that counts, so what a lookup gives back is a plain function of the
entries, and walking a table gives its entries in the order they were added. The
engine changes rooms and items in place, through a mutable reference into its table;
`HashMap::get_mut` has no specification that the verifier accepts, and a map keyed by
a direction or a flag name has no specified key model, so the tables are the
library's own.

`ConditionPredicate` cannot be cloned: the verifier refuses a derived `Clone` on an
enum that holds itself in a `Box` and a `Vec`.
