use rz::hub::registry::{
    AgentRegistry, AgentStatus, PaneInfo, PaneManifest, RegistryError, IDLE_THRESHOLD,
    PRUNE_AFTER_TICKS,
};

fn pane(id: u32) -> PaneInfo {
    PaneInfo {
        id,
        is_plugin: false,
        is_selectable: true,
        title: format!("pane {id}"),
        terminal_command: Some("sh".to_string()),
        is_floating: false,
        exited: false,
        exit_status: None,
    }
}

fn shows(panes: Vec<PaneInfo>) -> PaneManifest {
    PaneManifest { panes: vec![(2, panes)] }
}

fn status_of(registry: &AgentRegistry, pane_id: u32) -> Option<AgentStatus> {
    registry.get_all().iter().find(|e| e.pane_id == pane_id).map(|e| e.status)
}

#[test]
fn registering_creates_a_pending_agent() {
    let mut registry = AgentRegistry::default();
    let entry = registry.register(3, "worker".to_string(), vec!["code".to_string()]).unwrap();
    assert_eq!(entry.pane_id, 3);
    assert_eq!(entry.name, Some("worker".to_string()));
    assert_eq!(entry.capabilities, vec!["code"]);
    assert_eq!(entry.status, AgentStatus::Pending);
    assert!(entry.registered);
    assert_eq!((entry.created_at, entry.last_seen, entry.last_message), (0, 0, 0));
    assert_eq!(entry.command, None);
    assert_eq!(entry.title, "");
    assert_eq!(entry.tab, 0);
    let found = registry.lookup_by_name("worker").unwrap();
    assert_eq!(found.pane_id, 3);
    assert!(registry.lookup_by_name("lead").is_none());
    assert_eq!(registry.get_active().len(), 0);
}

#[test]
fn names_are_taken_once() {
    let mut registry = AgentRegistry::default();
    assert!(registry.register(3, "worker".to_string(), vec![]).is_ok());
    match registry.register(4, "worker".to_string(), vec![]) {
        Err(e) => {
            assert_eq!(e.to_string(), "name 'worker' already taken by terminal_3");
            assert!(matches!(
                e,
                RegistryError::NameConflict { name, existing_pane: 3 } if name == "worker"
            ));
        }
        _ => panic!("a name was given twice"),
    }
    assert_eq!(registry.get_all().len(), 1);
    // The same agent may take its name again.
    assert!(registry.register(3, "worker".to_string(), vec!["x".to_string()]).is_ok());
    assert_eq!(registry.lookup_by_name("worker").unwrap().capabilities, vec!["x"]);
}

#[test]
fn renaming_frees_the_old_name() {
    let mut registry = AgentRegistry::default();
    assert!(registry.register(3, "old".to_string(), vec![]).is_ok());
    assert!(registry.register(3, "new".to_string(), vec![]).is_ok());
    assert!(registry.lookup_by_name("old").is_none());
    assert_eq!(registry.lookup_by_name("new").unwrap().pane_id, 3);
    assert!(registry.register(4, "old".to_string(), vec![]).is_ok());
}

#[test]
fn unregistering_reverts_an_agent_that_lives() {
    let mut registry = AgentRegistry::default();
    registry.update_from_pane_manifest(&shows(vec![pane(3)]));
    assert!(registry.register(3, "worker".to_string(), vec!["x".to_string()]).is_ok());
    assert!(registry.unregister(3).is_ok());
    let all = registry.get_all();
    assert_eq!(all.len(), 1);
    assert_eq!(all[0].name, None);
    assert!(all[0].capabilities.is_empty());
    assert!(!all[0].registered);
    assert_eq!(all[0].status, AgentStatus::Active);
    assert!(registry.lookup_by_name("worker").is_none());
}

#[test]
fn unregistering_removes_an_agent_that_is_dead() {
    let mut registry = AgentRegistry::default();
    assert!(registry.register(3, "worker".to_string(), vec![]).is_ok());
    registry.update_from_pane_manifest(&shows(vec![]));
    assert!(matches!(status_of(&registry, 3), Some(AgentStatus::Dead { .. })));
    assert!(registry.unregister(3).is_ok());
    assert_eq!(registry.get_all().len(), 0);
    match registry.unregister(3) {
        Err(e) => {
            assert_eq!(e.to_string(), "no agent with pane_id terminal_3");
            assert!(matches!(e, RegistryError::NotFound { pane_id: 3 }));
        }
        Ok(()) => panic!("an unknown agent was unregistered"),
    }
}

#[test]
fn panes_are_discovered() {
    let mut registry = AgentRegistry::default();
    let mut plugin = pane(1);
    plugin.is_plugin = true;
    let mut hidden = pane(2);
    hidden.is_selectable = false;
    let mut gone = pane(4);
    gone.exited = true;
    registry.update_from_pane_manifest(&shows(vec![plugin, hidden, pane(9), pane(3), gone]));
    assert_eq!(registry.tick(), 1);
    let all = registry.get_all();
    assert_eq!(all.iter().map(|e| e.pane_id).collect::<Vec<u32>>(), vec![3, 9]);
    assert_eq!(all[0].status, AgentStatus::Active);
    assert_eq!(all[0].name, None);
    assert!(!all[0].registered);
    assert_eq!(all[0].title, "pane 3");
    assert_eq!(all[0].command, Some("sh".to_string()));
    assert_eq!(all[0].tab, 2);
    assert_eq!((all[0].created_at, all[0].last_seen), (1, 1));
}

#[test]
fn pending_agents_become_active_and_keep_their_name() {
    let mut registry = AgentRegistry::default();
    assert!(registry.register(3, "worker".to_string(), vec!["x".to_string()]).is_ok());
    registry.update_from_pane_manifest(&shows(vec![pane(3)]));
    let found = registry.lookup_by_name("worker").unwrap();
    assert_eq!(found.status, AgentStatus::Active);
    assert_eq!(found.title, "pane 3");
    assert_eq!(found.capabilities, vec!["x"]);
    assert_eq!((found.created_at, found.last_seen), (0, 1));
}

#[test]
fn exited_panes_are_dead_with_their_status() {
    let mut registry = AgentRegistry::default();
    registry.update_from_pane_manifest(&shows(vec![pane(3)]));
    let mut gone = pane(3);
    gone.exited = true;
    gone.exit_status = Some(7);
    registry.update_from_pane_manifest(&shows(vec![gone]));
    assert_eq!(
        status_of(&registry, 3),
        Some(AgentStatus::Dead { exit_status: Some(7), died_at: 2 })
    );
    registry.update_from_pane_manifest(&shows(vec![pane(3)]));
    assert_eq!(status_of(&registry, 3), Some(AgentStatus::Active));
}

#[test]
fn missing_panes_are_dead_and_forgotten_in_time() {
    let mut registry = AgentRegistry::default();
    assert!(registry.register(3, "worker".to_string(), vec![]).is_ok());
    registry.update_from_pane_manifest(&shows(vec![]));
    let dead = AgentStatus::Dead { exit_status: None, died_at: 1 };
    assert_eq!(status_of(&registry, 3), Some(dead));
    for _ in 0..PRUNE_AFTER_TICKS {
        registry.update_from_pane_manifest(&shows(vec![]));
    }
    assert_eq!(registry.tick(), 1 + PRUNE_AFTER_TICKS);
    assert_eq!(status_of(&registry, 3), Some(dead));
    assert!(registry.lookup_by_name("worker").is_some());
    registry.update_from_pane_manifest(&shows(vec![]));
    assert_eq!(status_of(&registry, 3), None);
    assert!(registry.lookup_by_name("worker").is_none());
    assert!(registry.register(4, "worker".to_string(), vec![]).is_ok());
}

#[test]
fn silent_agents_are_idle_until_a_message() {
    let mut registry = AgentRegistry::default();
    registry.update_from_pane_manifest(&shows(vec![pane(3), pane(4)]));
    registry.touch_message(3);
    for _ in 0..IDLE_THRESHOLD {
        registry.update_from_pane_manifest(&shows(vec![pane(3), pane(4)]));
    }
    assert_eq!(status_of(&registry, 3), Some(AgentStatus::Active));
    registry.update_from_pane_manifest(&shows(vec![pane(3), pane(4)]));
    assert_eq!(status_of(&registry, 3), Some(AgentStatus::Idle));
    // An agent without any message is never idle.
    assert_eq!(status_of(&registry, 4), Some(AgentStatus::Active));
    assert_eq!(registry.get_active().len(), 2);
    registry.touch_message(3);
    assert_eq!(status_of(&registry, 3), Some(AgentStatus::Active));
    let touched = registry.get_all()[0].last_message;
    assert_eq!(touched, registry.tick());
    // A message to an unknown pane changes nothing.
    registry.touch_message(99);
    assert_eq!(registry.get_all().len(), 2);
}

#[test]
fn panes_that_do_not_matter_change_nothing() {
    let both = || {
        let mut registry = AgentRegistry::default();
        registry.update_from_pane_manifest(&shows(vec![pane(3), pane(4)]));
        assert!(registry.register(3, "worker".to_string(), vec![]).is_ok());
        registry
    };
    let mut with = both();
    let mut without = both();
    // A plugin with the number of a terminal, one that cannot be selected, and
    // one that has exited and is unknown.
    let mut plugin = pane(3);
    plugin.is_plugin = true;
    plugin.title = "plugin".to_string();
    let mut hidden = pane(3);
    hidden.is_selectable = false;
    let mut gone = pane(9);
    gone.exited = true;
    with.update_from_pane_manifest(&shows(vec![plugin, hidden, pane(4), gone]));
    without.update_from_pane_manifest(&shows(vec![pane(4)]));
    assert_eq!(with.tick(), without.tick());
    assert_eq!(format!("{:?}", with.get_all()), format!("{:?}", without.get_all()));
    assert_eq!(
        status_of(&with, 3),
        Some(AgentStatus::Dead { exit_status: None, died_at: 2 })
    );
    assert_eq!(with.lookup_by_name("worker").unwrap().title, "pane 3");
}
