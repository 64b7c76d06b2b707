use std::cell::RefCell;
use std::rc::Rc;

use transit_hub::lobby::{HubEvent, Lobby, PollSchedule, DEFAULT_POLL_PERIOD_SECS};
use transit_hub::outbox::SessionHandle;
use transit_hub::registry::{Delivery, Registry};
use transit_hub::snapshot::{build_snapshot, FeedEntity, FeedVehicle, Vehicle, VehicleSnapshot};

#[derive(Debug, Clone, PartialEq)]
struct Pos {
    latitude: f64,
    longitude: f64,
}

#[derive(Clone)]
struct Inbox {
    received: Rc<RefCell<Vec<String>>>,
    broken: bool,
}

impl Inbox {
    fn new() -> Self {
        Inbox { received: Rc::new(RefCell::new(Vec::new())), broken: false }
    }

    fn broken() -> Self {
        Inbox { received: Rc::new(RefCell::new(Vec::new())), broken: true }
    }

    fn messages(&self) -> Vec<String> {
        self.received.borrow().clone()
    }
}

impl SessionHandle for Inbox {
    fn push(&mut self, payload: &str) -> bool {
        if self.broken {
            return false;
        }
        self.received.borrow_mut().push(payload.to_string());
        true
    }
}

fn pos(latitude: f64, longitude: f64) -> Pos {
    Pos { latitude, longitude }
}

fn entity(id: &str, position: Option<Pos>) -> FeedEntity<Pos> {
    FeedEntity { id: id.to_string(), vehicle: Some(FeedVehicle { position }) }
}

fn encode(snapshot: &VehicleSnapshot<Pos>) -> String {
    let mut positions = Vec::new();
    for v in &snapshot.vehicles {
        let mut p = serde_json::Map::new();
        p.insert("latitude".to_string(), serde_json::Value::from(v.position.latitude));
        p.insert("longitude".to_string(), serde_json::Value::from(v.position.longitude));
        let mut item = serde_json::Map::new();
        item.insert("id".to_string(), serde_json::Value::from(v.id.clone()));
        item.insert("position".to_string(), serde_json::Value::Object(p));
        positions.push(serde_json::Value::Object(item));
    }
    let mut out = serde_json::Map::new();
    out.insert("type".to_string(), serde_json::Value::from("VehiclePositions"));
    out.insert("timestamp".to_string(), serde_json::Value::from(snapshot.timestamp));
    out.insert("positions".to_string(), serde_json::Value::Array(positions));
    serde_json::Value::Object(out).to_string()
}

fn decode(payload: &str) -> VehicleSnapshot<Pos> {
    let v: serde_json::Value = serde_json::from_str(payload).unwrap();
    assert_eq!(v["type"], "VehiclePositions");
    let mut vehicles = Vec::new();
    for item in v["positions"].as_array().unwrap() {
        vehicles.push(Vehicle {
            id: item["id"].as_str().unwrap().to_string(),
            position: pos(
                item["position"]["latitude"].as_f64().unwrap(),
                item["position"]["longitude"].as_f64().unwrap(),
            ),
        });
    }
    VehicleSnapshot { timestamp: v["timestamp"].as_u64().unwrap(), vehicles }
}

fn lobby() -> Lobby<Inbox, Pos> {
    Lobby::new(DEFAULT_POLL_PERIOD_SECS, 0)
}

#[test]
fn connect_then_disconnect_membership() {
    let mut hub = lobby();
    let a = Inbox::new();
    hub.handle_events(vec![
        HubEvent::Connect { id: 1, handle: a.clone() },
        HubEvent::Connect { id: 2, handle: a.clone() },
        HubEvent::Disconnect { id: 1 },
        HubEvent::Connect { id: 3, handle: a.clone() },
        HubEvent::Disconnect { id: 3 },
        HubEvent::Connect { id: 3, handle: a.clone() },
    ]);
    assert!(!hub.is_connected(1));
    assert!(hub.is_connected(2));
    assert!(hub.is_connected(3));
    assert_eq!(hub.session_count(), 2);
}

#[test]
fn reconnect_keeps_one_record_and_clears_position() {
    let mut hub = lobby();
    hub.handle_connect(7, Inbox::new());
    assert!(hub.handle_position_update(7, pos(1.5, 2.5)));
    assert_eq!(hub.last_position(7), Some(&pos(1.5, 2.5)));
    hub.handle_connect(7, Inbox::new());
    assert_eq!(hub.session_count(), 1);
    assert_eq!(hub.last_position(7), None);
}

#[test]
fn disconnect_unknown_is_noop() {
    let mut hub = lobby();
    hub.handle_connect(1, Inbox::new());
    assert!(!hub.handle_disconnect(42));
    assert_eq!(hub.session_count(), 1);
    assert!(hub.handle_disconnect(1));
    assert!(!hub.handle_disconnect(1));
    assert_eq!(hub.session_count(), 0);
}

#[test]
fn position_update_unknown_creates_nothing() {
    let mut hub = lobby();
    assert!(!hub.handle_position_update(9, pos(3.0, 4.0)));
    assert_eq!(hub.session_count(), 0);
    assert!(!hub.is_connected(9));
    hub.handle(HubEvent::PositionUpdate { id: 9, position: pos(3.0, 4.0) });
    assert_eq!(hub.session_count(), 0);
}

#[test]
fn broadcast_skips_broken_handle() {
    let mut hub = lobby();
    let a = Inbox::new();
    let b = Inbox::broken();
    let c = Inbox::new();
    hub.handle_connect(1, a.clone());
    hub.handle_connect(2, b.clone());
    hub.handle_connect(3, c.clone());
    let report = hub.send_to_everyone("hello");
    assert_eq!(a.messages(), vec!["hello".to_string()]);
    assert_eq!(c.messages(), vec!["hello".to_string()]);
    assert!(b.messages().is_empty());
    let mut delivered = report.delivered.clone();
    delivered.sort();
    assert_eq!(delivered, vec![1, 3]);
    assert_eq!(report.failed, vec![2]);
}

#[test]
fn broadcast_except_self() {
    let mut hub = lobby();
    let a = Inbox::new();
    let b = Inbox::new();
    hub.handle_connect(1, a.clone());
    hub.handle_connect(2, b.clone());
    let report = hub.send_to_everyone_except_self("x", 1);
    assert!(a.messages().is_empty());
    assert_eq!(b.messages(), vec!["x".to_string()]);
    assert_eq!(report.delivered, vec![2]);
    assert!(report.failed.is_empty());
}

#[test]
fn send_message_outcomes() {
    let mut hub = lobby();
    let a = Inbox::new();
    hub.handle_connect(1, a.clone());
    hub.handle_connect(2, Inbox::broken());
    assert_eq!(hub.send_message("m", 1), Delivery::Sent);
    assert_eq!(hub.send_message("m", 2), Delivery::Failed);
    assert_eq!(hub.send_message("m", 3), Delivery::UnknownSession);
    assert_eq!(a.messages(), vec!["m".to_string()]);
}

#[test]
fn failed_fetch_gives_no_snapshot_and_keeps_cadence() {
    let mut hub = lobby();
    let a = Inbox::new();
    hub.handle_connect(1, a.clone());
    assert_eq!(hub.schedule(), PollSchedule { period_secs: 5, next_due: 5 });
    let failed: Result<Vec<FeedEntity<Pos>>, String> = Err("feed down".to_string());
    assert!(hub.on_tick(5, failed).is_none());
    assert_eq!(hub.schedule(), PollSchedule { period_secs: 5, next_due: 10 });
    let ok: Result<Vec<FeedEntity<Pos>>, String> = Ok(vec![entity("v1", Some(pos(1.0, 2.0)))]);
    assert!(hub.on_tick(10, ok).is_some());
    assert_eq!(hub.schedule(), PollSchedule { period_secs: 5, next_due: 15 });
    assert!(a.messages().is_empty());
    assert_eq!(hub.session_count(), 1);
}

#[test]
fn snapshot_leaves_out_entities_without_position() {
    let entities = vec![
        entity("a", Some(pos(1.0, 1.0))),
        entity("b", None),
        FeedEntity { id: "c".to_string(), vehicle: None },
        entity("d", Some(pos(4.0, 5.0))),
    ];
    let s = build_snapshot(77, entities);
    assert_eq!(s.timestamp, 77);
    assert_eq!(s.vehicles.len(), 2);
    assert_eq!(s.vehicles[0].id, "a");
    assert_eq!(s.vehicles[0].position, pos(1.0, 1.0));
    assert_eq!(s.vehicles[1].id, "d");
    assert_eq!(s.vehicles[1].position, pos(4.0, 5.0));
}

#[test]
fn snapshot_of_empty_feed() {
    let s: VehicleSnapshot<Pos> = build_snapshot(3, Vec::new());
    assert_eq!(s.timestamp, 3);
    assert!(s.vehicles.is_empty());
}

#[test]
fn tick_broadcast_example() {
    let mut hub = lobby();
    let a = Inbox::new();
    let b = Inbox::new();
    hub.handle_connect(0xA, a.clone());
    hub.handle_connect(0xB, b.clone());
    let fetched: Result<Vec<FeedEntity<Pos>>, String> = Ok(vec![entity("v1", Some(pos(1.0, 2.0)))]);
    let snapshot = hub.on_tick(100, fetched).unwrap();
    let payload = encode(&snapshot);
    hub.send_to_everyone(&payload);
    let expected: serde_json::Value = serde_json::from_str(
        r#"{"type":"VehiclePositions","timestamp":100,"positions":[{"id":"v1","position":{"latitude":1.0,"longitude":2.0}}]}"#,
    )
    .unwrap();
    assert_eq!(a.messages().len(), 1);
    assert_eq!(b.messages().len(), 1);
    let got_a: serde_json::Value = serde_json::from_str(&a.messages()[0]).unwrap();
    let got_b: serde_json::Value = serde_json::from_str(&b.messages()[0]).unwrap();
    assert_eq!(got_a, expected);
    assert_eq!(got_b, expected);

    hub.handle_disconnect(0xA);
    let fetched: Result<Vec<FeedEntity<Pos>>, String> = Ok(vec![entity("v1", Some(pos(1.0, 2.0)))]);
    let snapshot = hub.on_tick(105, fetched).unwrap();
    hub.send_to_everyone(&encode(&snapshot));
    assert_eq!(a.messages().len(), 1);
    assert_eq!(b.messages().len(), 2);
}

#[test]
fn registry_operations() {
    let mut r: Registry<Inbox, Pos> = Registry::new();
    r.insert(5, Inbox::new());
    r.insert(6, Inbox::new());
    r.insert(5, Inbox::new());
    assert_eq!(r.len(), 2);
    let mut ids = r.all_ids();
    ids.sort();
    assert_eq!(ids, vec![5, 6]);
    assert!(r.update_position(6, pos(0.5, 0.25)));
    assert_eq!(r.get(6).unwrap().last_position, Some(pos(0.5, 0.25)));
    assert!(!r.update_position(8, pos(0.5, 0.25)));
    assert!(r.remove(5));
    assert!(!r.remove(5));
    assert_eq!(r.all_ids(), vec![6]);
    assert!(r.get(5).is_none());
}

#[test]
fn payload_round_trip() {
    let entities = vec![entity("v1", Some(pos(59.33, 18.06))), entity("v\"2", Some(pos(-1.25, 0.5)))];
    let s = build_snapshot(1_700_000_000, entities);
    let back = decode(&encode(&s));
    assert_eq!(back.timestamp, s.timestamp);
    assert_eq!(back.vehicles.len(), s.vehicles.len());
    for (a, b) in back.vehicles.iter().zip(s.vehicles.iter()) {
        assert_eq!(a.id, b.id);
        assert_eq!(a.position, b.position);
    }
}

#[test]
fn except_self_with_absent_id_reaches_everyone() {
    let mut hub = lobby();
    let a = Inbox::new();
    let b = Inbox::broken();
    hub.handle_connect(1, a.clone());
    hub.handle_connect(2, b.clone());
    let report = hub.send_to_everyone_except_self("y", 99);
    assert_eq!(a.messages(), vec!["y".to_string()]);
    assert_eq!(report.delivered, vec![1]);
    assert_eq!(report.failed, vec![2]);
}
