use command_argus_logic::{Command, CommandArgusError, CommandStorage, Timestamp};

fn temp_storage() -> CommandStorage {
    CommandStorage::new()
}

fn at(secs: i64) -> Timestamp {
    Timestamp { secs, nanos: 0 }
}

fn named(id: u128, name: &str, program: &str) -> Command {
    Command::new_at(id, at(5), name.to_string(), program.to_string())
}

fn names(commands: &[Command]) -> Vec<String> {
    commands.iter().map(|command| command.name.clone()).collect()
}

#[test]
fn test_create_and_read() {
    let mut storage = temp_storage();

    let cmd = Command::new("Test Command".to_string(), "echo".to_string())
        .with_args(vec!["hello".to_string()]);

    let created = storage.create(cmd.clone()).unwrap();
    assert_eq!(created.name, "Test Command");

    let read = storage.read(created.id).unwrap();
    assert_eq!(read.name, "Test Command");
    assert_eq!(read.command, "echo");
}

#[test]
fn test_duplicate_name() {
    let mut storage = temp_storage();

    let cmd1 = Command::new("Duplicate".to_string(), "echo".to_string());
    let cmd2 = Command::new("Duplicate".to_string(), "ls".to_string());

    storage.create(cmd1).unwrap();
    let result = storage.create(cmd2);

    assert!(matches!(result, Err(CommandArgusError::DuplicateName(_))));
}

#[test]
fn test_update() {
    let mut storage = temp_storage();

    let cmd = Command::new("Original".to_string(), "echo".to_string());
    let created = storage.create(cmd).unwrap();

    let updated = storage
        .update(created.id, |c| {
            c.name = "Updated".to_string();
            c.add_tag("test".to_string());
        })
        .unwrap();

    assert_eq!(updated.name, "Updated");
    assert_eq!(updated.tags, vec!["test"]);
}

#[test]
fn test_delete() {
    let mut storage = temp_storage();

    let cmd = Command::new("To Delete".to_string(), "echo".to_string());
    let created = storage.create(cmd).unwrap();

    storage.delete(created.id).unwrap();

    let result = storage.read(created.id);
    assert!(matches!(result, Err(CommandArgusError::NotFound(_))));
}

#[test]
fn test_list_and_search() {
    let mut storage = temp_storage();

    let cmd1 = Command::new("First Command".to_string(), "echo".to_string());
    let mut cmd2 = Command::new("Second Command".to_string(), "ls".to_string());
    cmd2.add_tag("filesystem".to_string());

    storage.create(cmd1).unwrap();
    storage.create(cmd2).unwrap();

    let all = storage.list();
    assert_eq!(all.len(), 2);

    let by_name = storage.search_by_name("First");
    assert_eq!(by_name.len(), 1);
    assert_eq!(by_name[0].name, "First Command");

    let by_tag = storage.search_by_tags(&["filesystem".to_string()]);
    assert_eq!(by_tag.len(), 1);
    assert_eq!(by_tag[0].name, "Second Command");
}

#[test]
fn a_new_store_is_empty() {
    let storage = CommandStorage::new();
    assert!(storage.list().is_empty());
    assert!(storage.search_by_name("").is_empty());
    assert!(storage.search_by_tags(&[]).is_empty());
}

#[test]
fn created_commands_are_listed_as_they_were_and_in_order() {
    let mut storage = temp_storage();
    let mut first = named(1, "one", "echo").with_args(vec!["1".to_string()]);
    first.add_tag("a".to_string());
    first.add_environment_variable("K".to_string(), "V".to_string());
    let second = named(2, "two", "ls").with_description("lists".to_string());
    let mut third = named(3, "three", "pwd").with_working_directory("/tmp".to_string());
    third.mark_as_used_at(at(9));

    let handed_in = vec![first.clone(), second.clone(), third.clone()];
    assert_eq!(storage.create(first).unwrap(), handed_in[0]);
    assert_eq!(storage.create(second).unwrap(), handed_in[1]);
    assert_eq!(storage.create(third).unwrap(), handed_in[2]);

    assert_eq!(storage.list(), handed_in);
    assert_eq!(storage.commands, handed_in);
}

#[test]
fn a_duplicate_name_is_refused_with_the_name_and_changes_nothing() {
    let mut storage = temp_storage();
    storage.create(named(1, "Build", "make")).unwrap();
    let other = named(2, "Build", "ninja").with_description("another way".to_string());
    assert_eq!(
        storage.create(other),
        Err(CommandArgusError::DuplicateName("Build".to_string()))
    );
    assert_eq!(names(&storage.list()), vec!["Build"]);
    assert_eq!(storage.list()[0].command, "make");
}

#[test]
fn names_are_compared_exactly() {
    let mut storage = temp_storage();
    storage.create(named(1, "Build", "make")).unwrap();
    storage.create(named(2, "build", "make")).unwrap();
    storage.create(named(3, "Build ", "make")).unwrap();
    assert_eq!(names(&storage.list()), vec!["Build", "build", "Build "]);
}

#[test]
fn same_program_under_another_name_is_accepted() {
    let mut storage = temp_storage();
    storage.create(named(1, "Build", "make")).unwrap();
    storage.create(named(1, "Build again", "make")).unwrap();
    assert_eq!(storage.list().len(), 2);
}

#[test]
fn read_reports_a_missing_identifier() {
    let mut storage = temp_storage();
    storage.create(named(1, "one", "echo")).unwrap();
    assert_eq!(storage.read(7), Err(CommandArgusError::NotFound(7)));
    assert_eq!(storage.read(1).unwrap().name, "one");
}

#[test]
fn read_gives_the_first_of_an_identifier() {
    let mut storage = temp_storage();
    storage.create(named(1, "one", "echo")).unwrap();
    storage.create(named(1, "uno", "echo")).unwrap();
    assert_eq!(storage.read(1).unwrap().name, "one");
}

#[test]
fn read_by_name_matches_exactly() {
    let mut storage = temp_storage();
    storage.create(named(1, "one", "echo")).unwrap();
    storage.create(named(2, "two", "ls")).unwrap();
    assert_eq!(storage.read_by_name("two").unwrap().id, 2);
    assert_eq!(
        storage.read_by_name("Two"),
        Err(CommandArgusError::Storage("Command with name 'Two' not found".to_string()))
    );
    assert_eq!(
        storage.read_by_name(""),
        Err(CommandArgusError::Storage("Command with name '' not found".to_string()))
    );
}

#[test]
fn update_changes_one_entry_and_marks_it_changed() {
    let mut storage = temp_storage();
    storage.create(named(1, "one", "echo")).unwrap();
    storage.create(named(2, "two", "ls")).unwrap();
    storage.create(named(3, "three", "pwd")).unwrap();

    let updated = storage.update(2, |c| c.command = "dir".to_string()).unwrap();
    assert_eq!(updated.command, "dir");
    assert_eq!(updated.id, 2);
    assert_eq!(updated.created_at, at(5));
    assert!(updated.updated_at.secs > 1_577_836_800);

    let all = storage.list();
    assert_eq!(names(&all), vec!["one", "two", "three"]);
    assert_eq!(all[1], updated);
    assert_eq!(all[0], named(1, "one", "echo"));
    assert_eq!(all[2], named(3, "three", "pwd"));
}

#[test]
fn update_keeps_the_identifier_whatever_the_change() {
    let mut storage = temp_storage();
    storage.create(named(1, "one", "echo")).unwrap();
    storage.create(named(2, "two", "ls")).unwrap();

    let updated = storage
        .update(1, |c| {
            c.id = 77;
            c.name = "changed".to_string();
        })
        .unwrap();
    assert_eq!(updated.id, 1);
    assert_eq!(updated.name, "changed");

    assert_eq!(storage.read(1).unwrap(), updated);
    assert_eq!(storage.read(77), Err(CommandArgusError::NotFound(77)));
    assert_eq!(storage.list()[1], named(2, "two", "ls"));
}

#[test]
fn update_at_marks_the_entry_as_changed_at_the_given_time() {
    let mut storage = temp_storage();
    storage.create(named(1, "one", "echo")).unwrap();
    storage.create(named(2, "two", "ls")).unwrap();

    // Also where the change does nothing, and where it sets a time itself.
    let unchanged = storage.update_at(2, |_| {}, at(40)).unwrap();
    let mut expected = named(2, "two", "ls");
    expected.updated_at = at(40);
    assert_eq!(unchanged, expected);

    let updated = storage
        .update_at(
            2,
            |c| {
                c.id = 9;
                c.add_tag("t".to_string());
                c.update_at(at(1000));
            },
            at(50),
        )
        .unwrap();
    expected.tags = vec!["t".to_string()];
    expected.updated_at = at(50);
    assert_eq!(updated, expected);
    assert_eq!(storage.list(), vec![named(1, "one", "echo"), expected]);

    assert_eq!(storage.update_at(3, |_| {}, at(60)), Err(CommandArgusError::NotFound(3)));
    assert_eq!(storage.list().len(), 2);
}

#[test]
fn update_refreshes_the_time_of_change_even_without_a_change() {
    let mut storage = temp_storage();
    let mut stale = named(1, "one", "echo");
    stale.updated_at = Timestamp { secs: 7, nanos: 4_000_000_000 };
    storage.create(stale).unwrap();
    let updated = storage.update(1, |_| {}).unwrap();
    assert!(updated.updated_at.secs > 1_577_836_800);
    assert!(updated.updated_at.nanos < 1_000_000_000);
    assert_eq!(storage.read(1).unwrap().updated_at, updated.updated_at);
}

#[test]
fn update_can_record_a_use() {
    let mut storage = temp_storage();
    storage.create(named(1, "one", "echo")).unwrap();
    storage.update(1, |c| c.mark_as_used()).unwrap();
    let updated = storage.update(1, |c| c.mark_as_used()).unwrap();
    assert_eq!(updated.use_count, 2);
    assert!(updated.last_used_at.is_some());
    assert_eq!(storage.read(1).unwrap().use_count, 2);
}

#[test]
fn update_reports_a_missing_identifier_and_changes_nothing() {
    let mut storage = temp_storage();
    storage.create(named(1, "one", "echo")).unwrap();
    let result = storage.update(2, |c| c.name = "changed".to_string());
    assert_eq!(result, Err(CommandArgusError::NotFound(2)));
    assert_eq!(storage.list(), vec![named(1, "one", "echo")]);
}

#[test]
fn delete_reports_a_missing_identifier_and_changes_nothing() {
    let mut storage = temp_storage();
    assert_eq!(storage.delete(1), Err(CommandArgusError::NotFound(1)));
    storage.create(named(1, "one", "echo")).unwrap();
    assert_eq!(storage.delete(2), Err(CommandArgusError::NotFound(2)));
    assert_eq!(storage.list(), vec![named(1, "one", "echo")]);
}

#[test]
fn delete_removes_that_entry_and_no_other() {
    let mut storage = temp_storage();
    storage.create(named(1, "one", "echo")).unwrap();
    storage.create(named(2, "two", "ls")).unwrap();
    storage.create(named(3, "three", "pwd")).unwrap();
    assert_eq!(storage.delete(2), Ok(()));
    assert_eq!(storage.list(), vec![named(1, "one", "echo"), named(3, "three", "pwd")]);
    assert_eq!(storage.delete(2), Err(CommandArgusError::NotFound(2)));
}

#[test]
fn a_deleted_name_can_be_stored_again() {
    let mut storage = temp_storage();
    storage.create(named(1, "one", "echo")).unwrap();
    storage.delete(1).unwrap();
    storage.create(named(2, "one", "ls")).unwrap();
    assert_eq!(storage.list(), vec![named(2, "one", "ls")]);
}

#[test]
fn search_by_tags_finds_any_of_the_tags() {
    let mut storage = temp_storage();
    let mut files = named(1, "files", "ls");
    files.add_tag("filesystem".to_string());
    files.add_tag("daily".to_string());
    let mut net = named(2, "net", "ping");
    net.add_tag("network".to_string());
    let untagged = named(3, "plain", "true");
    let mut disk = named(4, "disk", "df");
    disk.add_tag("filesystem".to_string());
    for command in [files, net, untagged, disk] {
        storage.create(command).unwrap();
    }

    assert_eq!(names(&storage.search_by_tags(&["filesystem".to_string()])), vec!["files", "disk"]);
    assert_eq!(
        names(&storage.search_by_tags(&["network".to_string(), "daily".to_string()])),
        vec!["files", "net"]
    );
    assert!(storage.search_by_tags(&["Filesystem".to_string()]).is_empty());
    assert!(storage.search_by_tags(&["file".to_string()]).is_empty());
    assert!(storage.search_by_tags(&[]).is_empty());
}

#[test]
fn search_by_name_ignores_letter_case() {
    let mut storage = temp_storage();
    storage.create(named(1, "First Command", "echo")).unwrap();
    storage.create(named(2, "Second Command", "ls")).unwrap();
    storage.create(named(3, "ÉCOLE", "true")).unwrap();

    assert_eq!(names(&storage.search_by_name("FIRST")), vec!["First Command"]);
    assert_eq!(names(&storage.search_by_name("command")), vec!["First Command", "Second Command"]);
    assert_eq!(names(&storage.search_by_name("d c")), vec!["Second Command"]);
    assert_eq!(names(&storage.search_by_name("école")), vec!["ÉCOLE"]);
    assert_eq!(storage.search_by_name("").len(), 3);
    assert!(storage.search_by_name("third").is_empty());
}

#[test]
fn search_by_key_reads_the_keys_as_given() {
    let mut storage = temp_storage();
    storage.create(named(1, "One", "echo")).unwrap();
    storage.create(named(2, "Two", "ls")).unwrap();
    storage.create(named(3, "Three", "pwd")).unwrap();

    assert_eq!(storage.lowered_names(), vec!["one", "two", "three"]);

    let keys = vec!["xa".to_string(), "b".to_string(), "ax".to_string()];
    assert_eq!(names(&storage.search_by_key(&keys, "a")), vec!["One", "Three"]);
    assert_eq!(names(&storage.search_by_key(&keys, "A")), Vec::<String>::new());
    assert_eq!(names(&storage.search_by_key(&keys, "")), vec!["One", "Two", "Three"]);
    // An entry without a key is left out.
    let short = vec!["a".to_string()];
    assert_eq!(names(&storage.search_by_key(&short, "")), vec!["One"]);
}

#[test]
fn the_default_store_is_empty() {
    assert!(CommandStorage::default().list().is_empty());
}

#[test]
fn what_a_store_hands_out_is_a_copy() {
    let mut storage = temp_storage();
    storage.create(named(1, "one", "echo")).unwrap();
    let mut read = storage.read(1).unwrap();
    read.name = "changed".to_string();
    read.add_tag("t".to_string());
    assert_eq!(storage.read(1).unwrap(), named(1, "one", "echo"));
}
