use shelf::shelf::{
    add_tag, delete_command, edit_command_string, edit_description, get_next_id, list_commands,
    mark_templates, remove_tag, save_command, SavedCommand, ShelfData, TagOutcome,
};
use shelf::Config;

fn saved(id: u32, command: &str) -> SavedCommand {
    SavedCommand {
        id,
        command: command.to_string(),
        description: "No description.".to_string(),
        tags: None,
        is_template: false,
    }
}

#[test]
fn test_save_and_list_command() {
    let mut commands: Vec<SavedCommand> = Vec::new();
    let is_template = save_command(
        &mut commands,
        "echo hello".to_string(),
        Some("Test command".to_string()),
        Some(vec!["test".to_string()]),
    );
    assert!(!is_template);
    assert_eq!(commands.len(), 1);
    assert_eq!(commands[0].command, "echo hello");
    assert_eq!(commands[0].description, "Test command");
    assert_eq!(commands[0].tags, Some(vec!["test".to_string()]));
}

#[test]
fn test_template_detection() {
    let mut commands: Vec<SavedCommand> = Vec::new();
    let is_template = save_command(
        &mut commands,
        "ssh {{user}}@{{host}}".to_string(),
        Some("SSH template".to_string()),
        None,
    );
    assert!(is_template);
    assert_eq!(commands.len(), 1);
    assert!(commands[0].is_template);
    let params = shelf::template::extract_parameters(&commands[0].command);
    assert_eq!(params, vec!["user", "host"]);
}

#[test]
fn test_escaped_template() {
    let mut commands: Vec<SavedCommand> = Vec::new();
    let is_template = save_command(
        &mut commands,
        "echo \\{{literal}}".to_string(),
        Some("Escaped template".to_string()),
        None,
    );
    assert!(!is_template);
    assert_eq!(commands.len(), 1);
    assert!(!commands[0].is_template);
    let params = shelf::template::extract_parameters(&commands[0].command);
    assert!(params.is_empty());
}

#[test]
fn test_add_and_remove_tag() {
    let mut commands: Vec<SavedCommand> = Vec::new();
    save_command(
        &mut commands,
        "echo test".to_string(),
        Some("Test".to_string()),
        Some(vec!["initial".to_string()]),
    );
    let id = commands[0].id;

    assert_eq!(add_tag(&mut commands, id, "newtag".to_string()), TagOutcome::Applied);
    let tags = commands[0].tags.as_ref().unwrap();
    assert!(tags.contains(&"newtag".to_string()));
    assert!(tags.contains(&"initial".to_string()));

    assert_eq!(remove_tag(&mut commands, id, &"initial".to_string()), TagOutcome::Applied);
    let tags = commands[0].tags.as_ref().unwrap();
    assert!(tags.contains(&"newtag".to_string()));
    assert!(!tags.contains(&"initial".to_string()));
}

#[test]
fn test_edit_description_and_command() {
    let mut commands: Vec<SavedCommand> = Vec::new();
    save_command(&mut commands, "echo old".to_string(), Some("Old desc".to_string()), None);
    let id = commands[0].id;

    assert!(edit_description(&mut commands, id, "New desc".to_string()));
    assert_eq!(commands[0].description, "New desc");

    assert!(edit_command_string(&mut commands, id, "echo new".to_string()));
    assert_eq!(commands[0].command, "echo new");
}

#[test]
fn test_delete_command() {
    let mut commands: Vec<SavedCommand> = Vec::new();
    save_command(&mut commands, "echo test".to_string(), None, None);
    assert_eq!(commands.len(), 1);
    let id = commands[0].id;
    assert!(delete_command(&mut commands, id));
    assert_eq!(commands.len(), 0);
    assert!(!delete_command(&mut commands, id));
}

#[test]
fn test_default_description_applied() {
    let mut commands: Vec<SavedCommand> = Vec::new();
    save_command(&mut commands, "echo test".to_string(), None, None);
    assert_eq!(commands[0].description, "No description.");
}

#[test]
fn test_get_next_id_is_one_past_max() {
    let commands = vec![saved(1, "a"), saved(5, "b"), saved(2, "c")];
    assert_eq!(get_next_id(&commands), 6);
    let empty: Vec<SavedCommand> = Vec::new();
    assert_eq!(get_next_id(&empty), 1);
}

#[test]
fn test_tag_edit_outcomes() {
    let mut commands = vec![saved(1, "a")];
    assert_eq!(remove_tag(&mut commands, 2, &"x".to_string()), TagOutcome::NotFound);
    assert_eq!(remove_tag(&mut commands, 1, &"x".to_string()), TagOutcome::NoTags);
    assert_eq!(add_tag(&mut commands, 1, "x".to_string()), TagOutcome::Applied);
    assert_eq!(add_tag(&mut commands, 1, "x".to_string()), TagOutcome::TagExists);
    assert_eq!(remove_tag(&mut commands, 1, &"y".to_string()), TagOutcome::TagMissing);
    assert_eq!(remove_tag(&mut commands, 1, &"x".to_string()), TagOutcome::Applied);
    assert_eq!(commands[0].tags, None, "removing the last tag drops the list");
}

#[test]
fn test_mark_templates_flags_placeholders() {
    let mut commands = vec![saved(1, "echo {{x}}"), saved(2, "echo plain")];
    mark_templates(&mut commands);
    assert!(commands[0].is_template);
    assert!(!commands[1].is_template);
}

#[test]
fn test_list_commands_reverse_and_limit() {
    let commands = vec![saved(1, "a"), saved(2, "b"), saved(3, "c")];
    let out = list_commands(commands, true, Some(2));
    assert_eq!(out.len(), 2);
    assert_eq!(out[0].id, 3);
    assert_eq!(out[1].id, 2);

    let commands = vec![saved(1, "a"), saved(2, "b"), saved(3, "c")];
    let out = list_commands(commands, false, None);
    assert_eq!(out.len(), 3);
    assert_eq!(out[0].id, 1);
}

#[test]
fn test_shelf_data_and_config_hold_their_values() {
    let data = ShelfData { commands: vec![saved(1, "a")] };
    assert_eq!(data.commands.len(), 1);
    let config = Config::new("/tmp/cmds.toml".to_string());
    assert_eq!(config.storage_path, "/tmp/cmds.toml");
}
