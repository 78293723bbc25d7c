use rz::registry::{
    cleanup_stale, deregister, is_stale, list_all, lookup, nats_list, nats_lookup, register, touch,
    AgentEntry, Found, Registry, NATS_KV_BUCKET, STALE_THRESHOLD_MS,
};

fn agent(name: &str, permanent: bool, last_seen: u64) -> AgentEntry {
    AgentEntry {
        name: name.to_string(),
        id: format!("id-{name}"),
        transport: "nats".to_string(),
        endpoint: name.to_string(),
        capabilities: vec!["code".to_string()],
        permanent,
        registered_at: 1,
        last_seen,
    }
}

fn names(agents: &[AgentEntry]) -> Vec<String> {
    let mut all: Vec<String> = agents.iter().map(|a| a.name.clone()).collect();
    all.sort();
    all
}

#[test]
fn agents_are_found_by_name() {
    let mut reg = Registry::new();
    assert!(lookup(&reg, "a").is_none());
    register(&mut reg, agent("a", false, 5));
    register(&mut reg, agent("b", false, 6));
    let found = lookup(&reg, "a").unwrap();
    assert_eq!(found.id, "id-a");
    assert_eq!(found.capabilities, vec!["code"]);
    assert_eq!(names(&list_all(&reg)), vec!["a", "b"]);
    // An agent that registers again takes the place of its entry.
    register(&mut reg, agent("a", true, 7));
    assert_eq!(lookup(&reg, "a").unwrap().last_seen, 7);
    assert_eq!(list_all(&reg).len(), 2);
    deregister(&mut reg, "a");
    assert!(lookup(&reg, "a").is_none());
    deregister(&mut reg, "a");
    assert_eq!(names(&list_all(&reg)), vec!["b"]);
}

#[test]
fn entries_are_filed_under_their_keys() {
    let mut reg = Registry::new();
    reg.file("key".to_string(), agent("a", false, 5));
    assert_eq!(lookup(&reg, "key").unwrap().name, "a");
    assert!(lookup(&reg, "a").is_none());
    let entries = reg.into_entries();
    assert_eq!(entries.len(), 1);
    assert_eq!(entries[0].0, "key");
}

#[test]
fn old_entries_are_cleaned_up() {
    let mut reg = Registry::new();
    register(&mut reg, agent("old", false, 4_999));
    register(&mut reg, agent("edge", false, 5_000));
    register(&mut reg, agent("new", false, 9_000));
    assert_eq!(cleanup_stale(&mut reg, 5, 10_000), 1);
    assert_eq!(names(&list_all(&reg)), vec!["edge", "new"]);
    assert_eq!(cleanup_stale(&mut reg, 5, 10_000), 0);
    // A time before the first cut-off keeps everything.
    assert_eq!(cleanup_stale(&mut reg, 11, 10_000), 0);
}

#[test]
fn permanent_entries_are_not_cleaned_up() {
    let mut reg = Registry::new();
    register(&mut reg, agent("server", true, 0));
    register(&mut reg, agent("old", false, 0));
    assert_eq!(cleanup_stale(&mut reg, 5, 10_000), 1);
    assert_eq!(names(&list_all(&reg)), vec!["server"]);
    let kept = lookup(&reg, "server").unwrap();
    assert_eq!((kept.permanent, kept.registered_at, kept.last_seen), (true, 1, 0));
    assert_eq!(cleanup_stale(&mut reg, 0, u64::MAX), 0);
    deregister(&mut reg, "server");
    assert!(list_all(&reg).is_empty());
}

#[test]
fn signs_of_life_are_recorded() {
    let mut reg = Registry::new();
    register(&mut reg, agent("a", false, 5));
    assert!(touch(&mut reg, "a", 77));
    let found = lookup(&reg, "a").unwrap();
    assert_eq!((found.registered_at, found.last_seen), (1, 77));
    assert!(!touch(&mut reg, "b", 77));
    assert!(lookup(&reg, "b").is_none());
    let refreshed = found.refreshed(99);
    assert_eq!((refreshed.registered_at, refreshed.last_seen), (1, 99));
    assert_eq!(refreshed.name, "a");
}

#[test]
fn temporary_agents_are_stale_after_ten_minutes() {
    assert_eq!(STALE_THRESHOLD_MS, 10 * 60 * 1000);
    assert_eq!(NATS_KV_BUCKET, "rz-agents");
    let now = 1_000_000;
    assert!(!is_stale(&agent("a", false, now - 600_000), now));
    assert!(is_stale(&agent("a", false, now - 600_001), now));
    assert!(!is_stale(&agent("a", true, 0), now));
    // A clock that runs ahead makes nobody stale.
    assert!(!is_stale(&agent("a", false, now + 1), now));
}

#[test]
fn shared_agents_are_listed_without_the_stale() {
    let now = 1_000_000;
    let found = vec![
        agent("live", false, now),
        agent("gone", false, 0),
        agent("server", true, 0),
        agent("lost", false, 5),
    ];
    let (kept, pruned) = nats_list(found, now);
    assert_eq!(kept.iter().map(|a| a.name.as_str()).collect::<Vec<&str>>(), vec!["live", "server"]);
    assert_eq!(pruned, vec!["gone", "lost"]);
    assert!(matches!(nats_lookup(None, now), Found::Missing));
    assert!(matches!(nats_lookup(Some(agent("gone", false, 0)), now), Found::Stale));
    assert!(matches!(
        nats_lookup(Some(agent("server", true, 0)), now),
        Found::Live(a) if a.name == "server"
    ));
}

#[test]
fn processes_have_entries() {
    let e = AgentEntry::of_process("pty", 12, "w", true, 34);
    assert_eq!(e.id, "pty-12");
    assert_eq!(e.name, "w");
    assert_eq!(e.endpoint, "w");
    assert_eq!(e.transport, "nats");
    assert!(e.capabilities.is_empty());
    assert!(e.permanent);
    assert_eq!((e.registered_at, e.last_seen), (34, 34));
}
