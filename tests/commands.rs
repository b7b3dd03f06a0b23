use greiderbot::bot::GreiderbotBuilder;
use greiderbot::registry::{BotError, Command, CommandRegistry, Dispatch, HandlerFault, InteractionEvent};
use greiderbot::roles::GuildRole;
use greiderbot::spela::{parse_selection, SpelaCommand};

fn role(id: u64, name: &str) -> GuildRole {
    GuildRole { id, name: name.to_string() }
}

fn scenario_roles() -> Vec<GuildRole> {
    vec![role(1, "spela A"), role(2, "spela B"), role(3, "spela C"), role(9, "other X")]
}

#[test]
fn spela_names_itself() {
    assert_eq!(SpelaCommand.name(), "spela");
    let d = SpelaCommand.register();
    assert_eq!(d.name, "spela");
    assert_eq!(d.description, "Join a \"spela\" role ");
    assert_eq!(d.localized_names, vec![("sv-SE".to_string(), "spela".to_string())]);
    assert_eq!(d.localized_descriptions, vec![("sv-SE".to_string(), "Gå med i en spela-roll".to_string())]);
}

#[test]
fn lookup_finds_registered_command() {
    let mut registry = CommandRegistry::new();
    assert!(registry.lookup("spela").is_none());
    registry.register(SpelaCommand);
    assert!(registry.lookup("spela").is_some());
    assert_eq!(registry.lookup("spela").unwrap().name(), "spela");
    assert!(registry.lookup("spel").is_none());
    assert!(registry.lookup("spelar").is_none());
    assert!(registry.lookup("").is_none());
    assert_eq!(registry.len(), 1);
}

#[test]
fn registering_a_name_twice_keeps_one_entry() {
    let mut registry = CommandRegistry::new();
    registry.register(SpelaCommand);
    registry.register(SpelaCommand);
    assert_eq!(registry.len(), 1);
    let registry = CommandRegistry::from_commands(vec![SpelaCommand, SpelaCommand]);
    assert_eq!(registry.len(), 1);
}

#[test]
fn routing_ignores_pings_and_other_events() {
    let bot = GreiderbotBuilder::new().add_command(SpelaCommand).build();
    assert!(matches!(bot.interaction_create(&InteractionEvent::Ping), Ok(Dispatch::Ignore)));
    assert!(matches!(bot.interaction_create(&InteractionEvent::Other), Ok(Dispatch::Ignore)));
}

#[test]
fn routing_sends_events_to_their_command() {
    let bot = GreiderbotBuilder::new().add_command(SpelaCommand).build();
    let run = bot.interaction_create(&InteractionEvent::Invocation { command_name: "spela".to_string() });
    assert!(matches!(run, Ok(Dispatch::Run(_))));
    let follow = bot.interaction_create(&InteractionEvent::ComponentFollowUp { custom_id: "spela".to_string() });
    assert!(matches!(follow, Ok(Dispatch::Component(_))));
}

#[test]
fn routing_miss_invokes_no_handler() {
    let bot = GreiderbotBuilder::new().add_command(SpelaCommand).build();
    let miss = bot.interaction_create(&InteractionEvent::ComponentFollowUp { custom_id: "dansa".to_string() });
    match miss {
        Err(BotError::UnknownCorrelationId(id)) => assert_eq!(id, "dansa"),
        _ => panic!("a follow-up with an unknown id must not be dispatched"),
    }
    let miss = bot.interaction_create(&InteractionEvent::Invocation { command_name: "dansa".to_string() });
    match miss {
        Err(BotError::UnknownCommand(name)) => assert_eq!(name, "dansa"),
        _ => panic!("an invocation of an unknown command must not be dispatched"),
    }
}

#[test]
fn empty_bot_routes_nothing() {
    let bot: greiderbot::bot::Greiderbot<SpelaCommand> = GreiderbotBuilder::new().build();
    assert!(bot.catalog().is_empty());
    let miss = bot.interaction_create(&InteractionEvent::Invocation { command_name: "spela".to_string() });
    assert!(matches!(miss, Err(BotError::UnknownCommand(_))));
}

#[test]
fn catalog_lists_each_command_once() {
    let bot = GreiderbotBuilder::new().add_command(SpelaCommand).add_command(SpelaCommand).build();
    let catalog = bot.catalog();
    assert_eq!(catalog.len(), 1);
    assert_eq!(catalog[0].name, "spela");
}

#[test]
fn prompt_preselects_held_play_roles() {
    let member = Some(vec![1, 9]);
    let prompt = SpelaCommand.run(&scenario_roles(), &member).unwrap();
    assert_eq!(prompt.custom_id, "spela");
    assert_eq!(prompt.content, "Gå med i roll");
    assert_eq!(prompt.title, "Spela");
    assert_eq!(prompt.placeholder, "Inga roller valda");
    assert_eq!(prompt.min_values, 0);
    assert_eq!(prompt.max_values, 3);
    let labels: Vec<&str> = prompt.options.iter().map(|o| o.label.as_str()).collect();
    assert_eq!(labels, vec!["spela A", "spela B", "spela C"]);
    let values: Vec<u64> = prompt.options.iter().map(|o| o.value).collect();
    assert_eq!(values, vec![1, 2, 3]);
    let picked: Vec<bool> = prompt.options.iter().map(|o| o.default_selected).collect();
    assert_eq!(picked, vec![true, false, false]);
}

#[test]
fn prompt_refused_without_member() {
    let r = SpelaCommand.run(&scenario_roles(), &None);
    assert!(matches!(r, Err(BotError::Handler(HandlerFault::NotGuildMember))));
}

#[test]
fn follow_up_swaps_play_roles() {
    let member = Some(vec![1, 9]);
    let d = SpelaCommand
        .component_interaction(&scenario_roles(), &member, &vec!["2".to_string()])
        .unwrap();
    assert_eq!(d.to_add, vec![2]);
    assert_eq!(d.to_remove, vec![1]);
}

#[test]
fn follow_up_with_nothing_held_and_nothing_chosen() {
    let member = Some(vec![9]);
    let d = SpelaCommand.component_interaction(&scenario_roles(), &member, &vec![]).unwrap();
    assert!(d.to_add.is_empty());
    assert!(d.to_remove.is_empty());
}

#[test]
fn follow_up_reconciles_only_the_first_twenty_five() {
    let mut roles = Vec::new();
    for i in 0..30u64 {
        roles.push(role(100 + i, &format!("spela {}", i)));
    }
    let prompt = SpelaCommand.run(&roles, &Some(vec![])).unwrap();
    assert_eq!(prompt.options.len(), 25);
    assert_eq!(prompt.max_values, 25);
    assert_eq!(prompt.options[24].value, 124);
    // the member holds one offered role and one beyond the cap, and picks
    // one beyond the cap: only the offered role is touched
    let member = Some(vec![100, 128]);
    let d = SpelaCommand
        .component_interaction(&roles, &member, &vec!["129".to_string()])
        .unwrap();
    assert!(d.to_add.is_empty());
    assert_eq!(d.to_remove, vec![100]);
}

#[test]
fn follow_up_refuses_malformed_values() {
    let member = Some(vec![1]);
    let r = SpelaCommand.component_interaction(
        &scenario_roles(),
        &member,
        &vec!["2".to_string(), "x3".to_string(), "y".to_string()],
    );
    match r {
        Err(BotError::Handler(HandlerFault::MalformedRoleValue(v))) => assert_eq!(v, "x3"),
        _ => panic!("a malformed value must be refused"),
    }
}

#[test]
fn follow_up_refused_without_member() {
    let r = SpelaCommand.component_interaction(&scenario_roles(), &None, &vec!["2".to_string()]);
    assert!(matches!(r, Err(BotError::Handler(HandlerFault::NotGuildMember))));
}

#[test]
fn selection_parses_in_order() {
    let r = parse_selection(&vec!["3".to_string(), "+1".to_string()]).unwrap();
    assert_eq!(r, vec![3, 1]);
    assert!(parse_selection(&vec![]).unwrap().is_empty());
}

#[test]
fn catalog_pushed_twice_is_the_same() {
    let bot = GreiderbotBuilder::new().add_command(SpelaCommand).build();
    let first = bot.catalog();
    let second = bot.catalog();
    assert_eq!(first.len(), 1);
    assert_eq!(first[0].name, second[0].name);
    assert_eq!(first[0].description, second[0].description);
    assert_eq!(first[0].localized_names, second[0].localized_names);
    assert_eq!(first[0].localized_descriptions, second[0].localized_descriptions);
    assert_eq!(first[0].description, "Join a \"spela\" role ");
}

#[test]
fn held_role_beyond_cap_is_never_removed() {
    let mut roles = Vec::new();
    for i in 1..=30u64 {
        roles.push(role(i, &format!("spela {}", i)));
    }
    let member = Some(vec![27]);
    let d = SpelaCommand.component_interaction(&roles, &member, &vec![]).unwrap();
    assert!(d.to_add.is_empty());
    assert!(d.to_remove.is_empty());
}

#[test]
fn handlers_run_through_the_routed_command() {
    let bot = GreiderbotBuilder::new().add_command(SpelaCommand).build();
    let event = InteractionEvent::ComponentFollowUp { custom_id: "spela".to_string() };
    match bot.interaction_create(&event) {
        Ok(Dispatch::Component(command)) => {
            let d = command
                .component_interaction(&scenario_roles(), &Some(vec![1, 9]), &vec!["2".to_string()])
                .unwrap();
            assert_eq!(d.to_add, vec![2]);
            assert_eq!(d.to_remove, vec![1]);
        }
        _ => panic!("the follow-up must reach its command"),
    }
}
