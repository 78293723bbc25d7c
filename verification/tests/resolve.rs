use rz::backend::Surface;
use rz::registry::AgentEntry;
use rz::resolve::{
    is_uuid, registry_target, resolve_step, resolve_target_cmux, same_ignoring_case, Finding,
    Resolve, Target,
};

const UUID: &str = "123e4567-e89b-12d3-a456-426614174000";

fn entry(id: &str, transport: &str) -> AgentEntry {
    AgentEntry {
        name: "worker".to_string(),
        id: id.to_string(),
        transport: transport.to_string(),
        endpoint: "there".to_string(),
        capabilities: vec![],
        permanent: false,
        registered_at: 0,
        last_seen: 0,
    }
}

fn surface(id: &str, title: &str) -> Surface {
    Surface {
        id: id.to_string(),
        title: title.to_string(),
        surface_type: "terminal".to_string(),
        is_focused: false,
    }
}

/// Resolves a name that neither directory knows.
fn resolved(target: &str, names: &[(&str, &str)], surfaces: Vec<Surface>, hub: bool) -> Resolve {
    let names = names.iter().map(|(n, i)| (n.to_string(), i.to_string())).collect();
    let mut step = resolve_step(target, Resolve::LookUpLocal, Finding::Local(None));
    assert!(matches!(step, Resolve::LookUpShared));
    step = resolve_step(target, step, Finding::Shared(None));
    assert!(matches!(step, Resolve::LoadNames));
    step = resolve_step(target, step, Finding::Names(names));
    if matches!(step, Resolve::ListSurfaces) {
        step = resolve_step(target, step, Finding::Surfaces(surfaces));
    }
    if matches!(step, Resolve::CheckHub) {
        step = resolve_step(target, step, Finding::Hub(hub));
    }
    step
}

#[test]
fn uuids_are_recognized() {
    assert!(is_uuid(UUID));
    assert!(is_uuid(&UUID.to_uppercase()));
    assert!(!is_uuid("worker"));
    assert!(!is_uuid(&UUID[1..]));
    assert!(!is_uuid(&UUID.replace('1', "g")));
    assert!(!is_uuid(&UUID.replace('-', "0")));
}

#[test]
fn case_is_ignored_for_ascii_only() {
    assert!(same_ignoring_case("Build WORKER", "bUILD worker"));
    assert!(!same_ignoring_case("é", "É"));
    assert!(!same_ignoring_case("a", "ab"));
    assert!(!same_ignoring_case("[", "{"));
}

#[test]
fn transports_lead_to_targets() {
    let target = |transport: &str| registry_target(&entry("x", transport));
    assert!(matches!(target("http"), Target::Http(u) if u == "there"));
    assert!(matches!(target("file"), Target::File(n) if n == "worker"));
    assert!(matches!(target("nats"), Target::Nats(n) if n == "worker"));
    assert!(matches!(target("cmux"), Target::Cmux(i) if i == "there"));
    assert!(matches!(target("pigeon"), Target::Cmux(i) if i == "there"));
    assert_eq!(target("http").id(), "there");
    assert_eq!(target("nats").id(), "worker");
}

#[test]
fn the_local_directory_comes_first() {
    let step = resolve_step(
        "worker",
        Resolve::LookUpLocal,
        Finding::Local(Some(entry("bridge-3", "nats"))),
    );
    assert!(matches!(step, Resolve::Found(Target::Nats(n)) if n == "worker"));
}

#[test]
fn agents_in_a_terminal_must_be_alive() {
    let check = || {
        let step = resolve_step(
            "worker",
            Resolve::LookUpLocal,
            Finding::Local(Some(entry("pty-31", "nats"))),
        );
        assert!(matches!(&step, Resolve::CheckProcess(pid, _) if pid == "31"));
        step
    };
    let alive = resolve_step("worker", check(), Finding::Alive(true));
    assert!(matches!(alive, Resolve::Found(Target::Nats(n)) if n == "worker"));
    let dead = resolve_step("worker", check(), Finding::Alive(false));
    assert!(matches!(dead, Resolve::Forget));
    let next = resolve_step("worker", dead, Finding::Forgotten);
    assert!(matches!(next, Resolve::LookUpShared));
}

#[test]
fn permanent_agents_are_reached_without_their_process() {
    let mut server = entry("pty-31", "nats");
    server.permanent = true;
    let step = resolve_step("worker", Resolve::LookUpLocal, Finding::Local(Some(server)));
    let found = resolve_step("worker", step, Finding::Alive(false));
    assert!(matches!(found, Resolve::Found(Target::Nats(n)) if n == "worker"));
}

#[test]
fn the_shared_directory_comes_second() {
    let step = resolve_step(
        "worker",
        Resolve::LookUpShared,
        Finding::Shared(Some(entry("pty-31", "http"))),
    );
    assert!(matches!(step, Resolve::Found(Target::Http(u)) if u == "there"));
}

#[test]
fn names_come_before_uuids_and_titles() {
    let found = resolved(UUID, &[(UUID, "pane-1")], vec![], false);
    assert!(matches!(found, Resolve::Found(Target::Cmux(i)) if i == "pane-1"));
    let found = resolved(UUID, &[("other", "pane-1")], vec![surface("s", UUID)], false);
    assert!(matches!(found, Resolve::Found(Target::Cmux(i)) if i == UUID));
}

#[test]
fn titles_are_searched() {
    let surfaces = || vec![surface("s1", "build"), surface("s2", "my worker"), surface("s3", "WORKER")];
    let found = resolved("worker", &[], surfaces(), true);
    assert!(matches!(found, Resolve::Found(Target::Cmux(i)) if i == "s2"));
    let found = resolved("Worker", &[], surfaces(), true);
    assert!(matches!(found, Resolve::Found(Target::Cmux(i)) if i == "s3"));
}

#[test]
fn the_hub_is_the_last_resort() {
    let found = resolved("worker", &[], vec![surface("s1", "build")], true);
    assert!(matches!(found, Resolve::Found(Target::Nats(n)) if n == "worker"));
    let unknown = resolved("worker", &[], vec![], false);
    assert!(matches!(
        unknown,
        Resolve::Unknown(why)
            if why == "unknown agent 'worker' — use a UUID, a name from `rz run --name`, or `rz register`"
    ));
}

#[test]
fn some_commands_need_a_surface() {
    assert_eq!(resolve_target_cmux("w", &Target::Cmux("s".to_string())), Ok("s".to_string()));
    for other in [
        Target::File("w".to_string()),
        Target::Http("w".to_string()),
        Target::Nats("w".to_string()),
    ] {
        assert_eq!(
            resolve_target_cmux("w", &other),
            Err("agent 'w' is not a cmux terminal".to_string())
        );
    }
}
