use chat_linker::commands::{complete_link, handle_command, Caller, Command, Reply, Step};
use chat_linker::registry::{Registry, RegistryError};
use chat_linker::relay::{dispatch, others, relay_targets, InboundMessage};

fn message(source: u64, from_automated: bool, author: &str, body: &str) -> InboundMessage {
    InboundMessage {
        source_channel: source,
        from_automated,
        author_name: author.to_string(),
        avatar_url: "https://cdn.example/avatar.png".to_string(),
        body: body.to_string(),
    }
}

fn admin() -> Caller {
    Caller { user: 7, in_guild: true, may_manage_channels: true }
}

#[test]
fn create_group_rejects_repeated_id() {
    let mut reg = Registry::new();
    assert_eq!(reg.create_group("a".to_string(), "A".to_string(), "first".to_string(), 1), Ok(()));
    assert_eq!(
        reg.create_group("a".to_string(), "Other".to_string(), "second".to_string(), 2),
        Err(RegistryError::AlreadyExists)
    );
    assert_eq!(reg.create_group("b".to_string(), "B".to_string(), "".to_string(), 2), Ok(()));
    assert_eq!(
        reg.create_group("b".to_string(), "B".to_string(), "".to_string(), 2),
        Err(RegistryError::AlreadyExists)
    );
    let g = reg.get_group(&"a".to_string()).unwrap();
    assert_eq!(g.title, "A");
    assert_eq!(g.description, "first");
    assert_eq!(g.owner, 1);
    assert_eq!(g.member_count(), 0);
    assert_eq!(reg.list_groups().len(), 2);
}

#[test]
fn link_is_visible_through_both_reads() {
    let mut reg = Registry::new();
    reg.create_group("g".to_string(), "G".to_string(), "d".to_string(), 1).unwrap();
    assert_eq!(reg.link_channel(&"g".to_string(), 10, 110), Ok(()));
    assert_eq!(reg.lookup_group_for_channel(10), Some("g".to_string()));
    assert_eq!(reg.get_group(&"g".to_string()).unwrap().members, vec![(10, 110)]);
    reg.create_group("h".to_string(), "H".to_string(), "d".to_string(), 1).unwrap();
    reg.link_channel(&"h".to_string(), 20, 120).unwrap();
    assert_eq!(reg.lookup_group_for_channel(10), Some("g".to_string()));
    assert_eq!(reg.get_group(&"g".to_string()).unwrap().members, vec![(10, 110)]);
    assert_eq!(reg.lookup_group_for_channel(20), Some("h".to_string()));
}

#[test]
fn link_to_missing_group_is_not_found() {
    let mut reg = Registry::new();
    assert_eq!(reg.link_channel(&"nope".to_string(), 1, 2), Err(RegistryError::NotFound));
    assert_eq!(reg.lookup_group_for_channel(1), None);
}

#[test]
fn linking_a_linked_channel_is_refused() {
    let mut reg = Registry::new();
    reg.create_group("g".to_string(), "G".to_string(), "d".to_string(), 1).unwrap();
    reg.create_group("h".to_string(), "H".to_string(), "d".to_string(), 1).unwrap();
    reg.link_channel(&"g".to_string(), 5, 50).unwrap();
    assert_eq!(reg.link_channel(&"h".to_string(), 5, 51), Err(RegistryError::AlreadyLinked));
    assert_eq!(reg.link_channel(&"g".to_string(), 5, 52), Err(RegistryError::AlreadyLinked));
    assert_eq!(reg.lookup_group_for_channel(5), Some("g".to_string()));
    assert_eq!(reg.get_group(&"g".to_string()).unwrap().members, vec![(5, 50)]);
    assert_eq!(reg.get_group(&"h".to_string()).unwrap().member_count(), 0);
}

#[test]
fn snapshot_does_not_follow_later_links() {
    let mut reg = Registry::new();
    reg.create_group("g".to_string(), "G".to_string(), "d".to_string(), 1).unwrap();
    reg.link_channel(&"g".to_string(), 1, 11).unwrap();
    let before = reg.get_group(&"g".to_string()).unwrap();
    reg.link_channel(&"g".to_string(), 2, 12).unwrap();
    assert_eq!(before.members, vec![(1, 11)]);
    assert_eq!(reg.get_group(&"g".to_string()).unwrap().members, vec![(1, 11), (2, 12)]);
}

#[test]
fn fan_out_reaches_every_other_member() {
    let mut reg = Registry::new();
    reg.create_group("g".to_string(), "G".to_string(), "d".to_string(), 1).unwrap();
    reg.link_channel(&"g".to_string(), 1, 101).unwrap();
    reg.link_channel(&"g".to_string(), 2, 102).unwrap();
    reg.link_channel(&"g".to_string(), 3, 103).unwrap();
    let msg = message(1, false, "alice", "hi");
    let targets = relay_targets(&reg, &msg);
    assert_eq!(targets, vec![(2, 102), (3, 103)]);
    let out = dispatch(&targets, &vec![true, true], &msg);
    let endpoints: Vec<u64> = out.iter().map(|d| d.endpoint).collect();
    assert_eq!(endpoints, vec![102, 103]);
    assert!(out.iter().all(|d| d.username == "alice" && d.body == "hi"));
}

#[test]
fn failed_endpoint_does_not_stop_others() {
    let targets = vec![(2, 102), (3, 103), (4, 104)];
    let msg = message(1, false, "alice", "hi");
    let out = dispatch(&targets, &vec![false, true, true], &msg);
    let endpoints: Vec<u64> = out.iter().map(|d| d.endpoint).collect();
    assert_eq!(endpoints, vec![103, 104]);
    let out = dispatch(&targets, &vec![true, false, true], &msg);
    let endpoints: Vec<u64> = out.iter().map(|d| d.endpoint).collect();
    assert_eq!(endpoints, vec![102, 104]);
    assert_eq!(dispatch(&targets, &vec![false, false, false], &msg).len(), 0);
}

#[test]
fn unlinked_channel_relays_nowhere() {
    let mut reg = Registry::new();
    reg.create_group("g".to_string(), "G".to_string(), "d".to_string(), 1).unwrap();
    reg.link_channel(&"g".to_string(), 1, 101).unwrap();
    reg.link_channel(&"g".to_string(), 2, 102).unwrap();
    assert!(relay_targets(&reg, &message(99, false, "x", "y")).is_empty());
    assert!(relay_targets(&Registry::new(), &message(1, false, "x", "y")).is_empty());
}

#[test]
fn automated_message_relays_nowhere() {
    let mut reg = Registry::new();
    reg.create_group("g".to_string(), "G".to_string(), "d".to_string(), 1).unwrap();
    reg.link_channel(&"g".to_string(), 1, 101).unwrap();
    reg.link_channel(&"g".to_string(), 2, 102).unwrap();
    assert!(relay_targets(&reg, &message(1, true, "bot", "echo")).is_empty());
}

#[test]
fn lone_member_relays_nowhere() {
    let mut reg = Registry::new();
    reg.create_group("g".to_string(), "G".to_string(), "d".to_string(), 1).unwrap();
    reg.link_channel(&"g".to_string(), 1, 101).unwrap();
    assert!(relay_targets(&reg, &message(1, false, "x", "y")).is_empty());
}

#[test]
fn others_drops_only_the_source() {
    assert_eq!(others(&vec![(1, 2), (3, 4), (5, 6)], 3), vec![(1, 2), (5, 6)]);
    assert_eq!(others(&vec![], 3), vec![]);
}

#[test]
fn listing_twice_gives_equal_snapshots() {
    let mut reg = Registry::new();
    reg.create_group("g".to_string(), "G".to_string(), "d".to_string(), 4).unwrap();
    reg.create_group("h".to_string(), "H".to_string(), "e".to_string(), 5).unwrap();
    reg.link_channel(&"h".to_string(), 9, 19).unwrap();
    let first = reg.list_groups();
    let second = reg.list_groups();
    assert_eq!(first.len(), second.len());
    for (a, b) in first.iter().zip(second.iter()) {
        assert_eq!(a.id, b.id);
        assert_eq!(a.title, b.title);
        assert_eq!(a.description, b.description);
        assert_eq!(a.owner, b.owner);
        assert_eq!(a.members, b.members);
    }
    assert_eq!(first[0].id, "g");
    assert_eq!(first[1].members, vec![(9, 19)]);
}

#[test]
fn lounge_scenario() {
    let mut reg = Registry::new();
    assert_eq!(
        reg.create_group("lounge".to_string(), "Lounge".to_string(), "chat".to_string(), 1),
        Ok(())
    );
    assert_eq!(reg.link_channel(&"lounge".to_string(), 100, 1100), Ok(()));
    assert_eq!(reg.link_channel(&"lounge".to_string(), 200, 1200), Ok(()));
    let msg = InboundMessage {
        source_channel: 100,
        from_automated: false,
        author_name: "bob".to_string(),
        avatar_url: "https://cdn.example/bob.png".to_string(),
        body: "hello world".to_string(),
    };
    let targets = relay_targets(&reg, &msg);
    let out = dispatch(&targets, &vec![true; targets.len()], &msg);
    assert_eq!(out.len(), 1);
    assert_eq!(out[0].endpoint, 1200);
    assert_eq!(out[0].channel, 200);
    assert_eq!(out[0].body, "hello world");
    assert_eq!(out[0].username, "bob");
    assert_eq!(out[0].avatar_url, "https://cdn.example/bob.png");
    assert_eq!(reg.link_channel(&"missing".to_string(), 300, 1300), Err(RegistryError::NotFound));
    assert_eq!(reg.list_groups().len(), 1);
}

#[test]
fn command_outside_a_server_is_refused() {
    let mut reg = Registry::new();
    let caller = Caller { user: 1, in_guild: false, may_manage_channels: true };
    let step = handle_command(&mut reg, Command::List, &caller);
    assert!(matches!(step, Step::Answer(Reply::ServerOnly)));
    let step = handle_command(
        &mut reg,
        Command::Create { id: "a".to_string(), title: "A".to_string(), description: "d".to_string() },
        &caller,
    );
    assert!(matches!(step, Step::Answer(Reply::ServerOnly)));
    assert_eq!(reg.list_groups().len(), 0);
}

#[test]
fn create_command_creates_then_reports_taken_name() {
    let mut reg = Registry::new();
    let cmd = || Command::Create { id: "a".to_string(), title: "A".to_string(), description: "d".to_string() };
    match handle_command(&mut reg, cmd(), &admin()) {
        Step::Answer(Reply::Created(id)) => assert_eq!(id, "a"),
        _ => panic!("expected a creation"),
    }
    assert_eq!(reg.get_group(&"a".to_string()).unwrap().owner, 7);
    match handle_command(&mut reg, cmd(), &admin()) {
        Step::Answer(Reply::NameTaken(id)) => assert_eq!(id, "a"),
        _ => panic!("expected a taken name"),
    }
}

#[test]
fn link_command_checks_before_provisioning() {
    let mut reg = Registry::new();
    let link = |g: &str, c: u64| Command::Link { group_id: g.to_string(), channel: c };
    let no_perm = Caller { user: 2, in_guild: true, may_manage_channels: false };
    assert!(matches!(
        handle_command(&mut reg, link("g", 4), &no_perm),
        Step::Answer(Reply::InsufficientPermission)
    ));
    match handle_command(&mut reg, link("g", 4), &admin()) {
        Step::Answer(Reply::GroupNotFound(id)) => assert_eq!(id, "g"),
        _ => panic!("expected a missing group"),
    }
    reg.create_group("g".to_string(), "G".to_string(), "d".to_string(), 1).unwrap();
    match handle_command(&mut reg, link("g", 4), &admin()) {
        Step::ProvisionEndpoint { group_id, channel } => {
            assert_eq!(group_id, "g");
            assert_eq!(channel, 4);
        }
        _ => panic!("expected a request for an endpoint"),
    }
    assert_eq!(reg.lookup_group_for_channel(4), None);
    match complete_link(&mut reg, "g".to_string(), 4, 44) {
        Reply::Linked { channel, group_id } => {
            assert_eq!(channel, 4);
            assert_eq!(group_id, "g");
        }
        _ => panic!("expected a link"),
    }
    assert_eq!(reg.lookup_group_for_channel(4), Some("g".to_string()));
    assert!(matches!(
        handle_command(&mut reg, link("g", 4), &admin()),
        Step::Answer(Reply::AlreadyLinked(4))
    ));
    assert!(matches!(complete_link(&mut reg, "g".to_string(), 4, 45), Reply::AlreadyLinked(4)));
    assert!(matches!(
        complete_link(&mut reg, "zz".to_string(), 8, 88),
        Reply::GroupNotFound(_)
    ));
}

#[test]
fn list_and_unknown_commands() {
    let mut reg = Registry::new();
    reg.create_group("g".to_string(), "G".to_string(), "d".to_string(), 1).unwrap();
    reg.link_channel(&"g".to_string(), 3, 33).unwrap();
    match handle_command(&mut reg, Command::List, &admin()) {
        Step::Answer(Reply::Listing(groups)) => {
            assert_eq!(groups.len(), 1);
            assert_eq!(groups[0].id, "g");
            assert_eq!(groups[0].member_count(), 1);
        }
        _ => panic!("expected a listing"),
    }
    assert!(matches!(handle_command(&mut reg, Command::Unknown, &admin()), Step::Answer(Reply::Unknown)));
}
