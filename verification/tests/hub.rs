use rz::hub::registry::{PaneInfo, PaneManifest};
use rz::hub::router::{PaneId, PipeMessage, PipeSource, Stamp};
use rz::hub::{hides_itself, HubEvent, RzHub};

fn request(name: &str, args: &[(&str, &str)], payload: Option<&str>) -> PipeMessage {
    PipeMessage {
        source: PipeSource::Cli("p".to_string()),
        name: name.to_string(),
        payload: payload.map(|p| p.to_string()),
        args: args.iter().map(|(k, v)| (k.to_string(), v.to_string())).collect(),
    }
}

fn stamp() -> Stamp {
    Stamp { id: "m1".to_string(), ts: 0 }
}

fn set_timer(hub: &mut RzHub, seconds: u64, label: &str) {
    let msg = request(
        "rz",
        &[("action", "timer"), ("target", "4"), ("seconds", "1")],
        Some(label),
    );
    let (outcome, draw) = hub.pipe(&msg, stamp(), Some(seconds));
    assert_eq!(outcome.unwrap().timeout, Some(seconds));
    assert!(!draw);
}

#[test]
fn a_new_hub_is_empty() {
    let hub = RzHub::default();
    assert_eq!(hub.tick(), 0);
    assert_eq!(hub.next_timer_id(), 1);
    assert!(hub.timers().is_empty());
}

#[test]
fn the_hub_hides_unless_it_is_to_be_seen() {
    let conf = |v: &str| vec![("visible".to_string(), v.to_string())];
    assert!(hides_itself(&vec![]));
    assert!(hides_itself(&conf("false")));
    assert!(!hides_itself(&conf("true")));
}

#[test]
fn requests_to_others_are_left_alone() {
    let mut hub = RzHub::default();
    let (outcome, draw) = hub.pipe(&request("other", &[("action", "list")], None), stamp(), None);
    assert!(outcome.is_none());
    assert!(!draw);
}

#[test]
fn manifests_make_the_hub_draw_until_it_is_rendered() {
    let mut hub = RzHub::default();
    let pane = PaneInfo {
        id: 4,
        is_plugin: false,
        is_selectable: true,
        title: "t".to_string(),
        terminal_command: None,
        is_floating: false,
        exited: false,
        exit_status: None,
    };
    let event = HubEvent::PaneUpdate(PaneManifest { panes: vec![(0, vec![pane])] });
    let (delivery, draw) = hub.update(&event, stamp());
    assert!(delivery.is_none());
    assert!(draw);
    assert_eq!(hub.tick(), 1);
    assert!(hub.update(&HubEvent::Other, stamp()).1);
    hub.render();
    assert!(!hub.update(&HubEvent::Other, stamp()).1);
}

#[test]
fn registrations_make_the_hub_draw() {
    let mut hub = RzHub::default();
    let register = request("rz", &[("action", "register"), ("pane_id", "4")], None);
    assert!(hub.pipe(&register, stamp(), None).1);
    let list = request("rz", &[("action", "list")], None);
    assert!(!hub.pipe(&list, stamp(), None).1);
    let unregister = request("rz", &[("action", "unregister"), ("pane_id", "4")], None);
    assert!(hub.pipe(&unregister, stamp(), None).1);
}

#[test]
fn one_timer_goes_off_at_a_time() {
    let mut hub = RzHub::default();
    set_timer(&mut hub, 10, "first");
    set_timer(&mut hub, 20, "second");
    set_timer(&mut hub, 30, "third");
    assert_eq!(hub.next_timer_id(), 4);
    let (delivery, draw) = hub.update(&HubEvent::Timer(Some(0)), stamp());
    let delivery = delivery.unwrap();
    assert_eq!(delivery.target, PaneId::Terminal(4));
    assert!(delivery.text.contains("first"));
    assert!(!draw);
    // The last timer takes the place of the one that went off.
    let left: Vec<&str> = hub.timers().iter().map(|t| t.label.as_str()).collect();
    assert_eq!(left, vec!["third", "second"]);
    let (delivery, _) = hub.update(&HubEvent::Timer(None), stamp());
    assert!(delivery.is_none());
    assert_eq!(hub.timers().len(), 2);
}
