use log_shipper::discovery::{
    container_subscription, enlist, enlist_container, enlist_event, event_subscription, startup_subscriptions,
    ContainerSummary, Enlisted,
    EventActor, Skip, StartEvent,
};
use log_shipper::registry::Registry;
use std::cell::Cell;

fn pairs(items: &[(&str, &str)]) -> Vec<(String, String)> {
    items.iter().map(|(k, v)| (k.to_string(), v.to_string())).collect()
}

fn listed(id: Option<&str>, labels: Option<&[(&str, &str)]>, names: Option<&[&str]>) -> ContainerSummary {
    ContainerSummary {
        id: id.map(|s| s.to_string()),
        labels: labels.map(pairs),
        names: names.map(|n| n.iter().map(|s| s.to_string()).collect()),
    }
}

fn event(id: Option<&str>, attrs: Option<&[(&str, &str)]>) -> StartEvent {
    StartEvent {
        actor: Some(EventActor { id: id.map(|s| s.to_string()), attributes: attrs.map(pairs) }),
    }
}

const LABEL: &str = "dev.plane.backend";

fn tag<F>(r: Enlisted<F>) -> Result<bool, Skip> {
    match r {
        Enlisted::Started => Ok(true),
        Enlisted::Known(_) => Ok(false),
        Enlisted::Skipped(skip, _) => Err(skip),
    }
}

#[test]
fn labelled_container_with_prefixed_name_is_eligible() {
    let c = listed(Some("c1"), Some(&[(LABEL, "x")]), Some(&["/plane-foo"]));
    let s = container_subscription(&c).unwrap();
    assert_eq!(s.container_id, "c1");
    assert_eq!(s.backend_id, "foo");
}

#[test]
fn first_prefixed_name_wins() {
    let c = listed(Some("c1"), Some(&[("a", "b"), (LABEL, "")]), Some(&["/other", "/plane-bar", "/plane-baz"]));
    assert_eq!(container_subscription(&c).unwrap().backend_id, "bar");
}

#[test]
fn container_skips_in_order() {
    let names: &[&str] = &["/plane-foo"];
    let lab: &[(&str, &str)] = &[(LABEL, "v")];
    assert_eq!(container_subscription(&listed(Some("c"), None, Some(names))).unwrap_err(), Skip::NoLabels);
    assert_eq!(
        container_subscription(&listed(Some("c"), Some(&[("other", "v")]), Some(names))).unwrap_err(),
        Skip::NotBackend
    );
    assert_eq!(container_subscription(&listed(Some("c"), Some(lab), None)).unwrap_err(), Skip::NoNames);
    assert_eq!(
        container_subscription(&listed(Some("c"), Some(lab), Some(&["plane-foo", "/foo"]))).unwrap_err(),
        Skip::NoBackendName
    );
    assert_eq!(container_subscription(&listed(None, Some(lab), Some(names))).unwrap_err(), Skip::NoId);
    assert_eq!(container_subscription(&listed(None, None, None)).unwrap_err(), Skip::NoLabels);
}

#[test]
fn start_event_with_label_and_name_is_eligible() {
    let e = event(Some("c9"), Some(&[(LABEL, "x"), ("name", "plane-foo")]));
    let s = event_subscription(&e).unwrap();
    assert_eq!(s.container_id, "c9");
    assert_eq!(s.backend_id, "foo");
}

#[test]
fn start_event_skips_in_order() {
    assert_eq!(event_subscription(&StartEvent { actor: None }).unwrap_err(), Skip::NoActor);
    assert_eq!(event_subscription(&event(Some("c"), None)).unwrap_err(), Skip::NoAttributes);
    assert_eq!(
        event_subscription(&event(Some("c"), Some(&[("name", "plane-foo")]))).unwrap_err(),
        Skip::NotBackend
    );
    assert_eq!(event_subscription(&event(Some("c"), Some(&[(LABEL, "")]))).unwrap_err(), Skip::NoNameAttribute);
    assert_eq!(
        event_subscription(&event(Some("c"), Some(&[(LABEL, ""), ("name", "/plane-foo")]))).unwrap_err(),
        Skip::BadName
    );
    assert_eq!(
        event_subscription(&event(None, Some(&[(LABEL, ""), ("name", "plane-foo")]))).unwrap_err(),
        Skip::NoId
    );
}

#[test]
fn event_without_label_starts_nothing() {
    let rt = tokio::runtime::Builder::new_current_thread().build().unwrap();
    let mut reg = Registry::new();
    let calls = Cell::new(0u32);
    let e = event(Some("c1"), Some(&[("name", "plane-foo")]));
    let r = enlist_event(&mut reg, &e, |_| {
        calls.set(calls.get() + 1);
        rt.spawn(async {})
    });
    assert_eq!(tag(r), Err(Skip::NotBackend));
    assert_eq!(calls.get(), 0);
    assert!(!reg.contains(&"c1".to_string()));
}

#[test]
fn register_if_absent_calls_factory_once() {
    let rt = tokio::runtime::Builder::new_current_thread().build().unwrap();
    let mut reg = Registry::new();
    let calls = Cell::new(0u32);
    let mut created = 0;
    for _ in 0..10 {
        let unused = reg.register_if_absent("same".to_string(), || {
            calls.set(calls.get() + 1);
            rt.spawn(async {})
        });
        if unused.is_none() {
            created += 1;
        }
    }
    assert_eq!(calls.get(), 1);
    assert_eq!(created, 1);
    assert!(reg.contains(&"same".to_string()));
    assert!(!reg.contains(&"other".to_string()));
}

#[test]
fn startup_container_seen_again_in_events_starts_once() {
    let rt = tokio::runtime::Builder::new_current_thread().build().unwrap();
    let mut reg = Registry::new();
    let started: std::cell::RefCell<Vec<(String, String)>> = std::cell::RefCell::new(Vec::new());
    let containers = vec![
        listed(Some("a"), Some(&[(LABEL, "")]), Some(&["/plane-one"])),
        listed(Some("b"), Some(&[(LABEL, "")]), Some(&["/plane-two"])),
        listed(Some("c"), None, Some(&["/plane-three"])),
    ];
    for c in &containers {
        let _ = enlist_container(&mut reg, c, |s: log_shipper::discovery::Subscription| {
            started.borrow_mut().push((s.container_id, s.backend_id));
            rt.spawn(async {})
        });
    }
    let events = vec![
        event(Some("a"), Some(&[(LABEL, ""), ("name", "plane-one")])),
        event(Some("d"), Some(&[(LABEL, ""), ("name", "plane-four")])),
        event(Some("b"), Some(&[(LABEL, ""), ("name", "plane-two")])),
    ];
    let mut results = Vec::new();
    for e in &events {
        results.push(tag(enlist_event(&mut reg, e, |s| {
            started.borrow_mut().push((s.container_id, s.backend_id));
            rt.spawn(async {})
        })));
    }
    assert_eq!(results, vec![Ok(false), Ok(true), Ok(false)]);
    let got = started.into_inner();
    let want: Vec<(String, String)> = vec![
        ("a".into(), "one".into()),
        ("b".into(), "two".into()),
        ("d".into(), "four".into()),
    ];
    assert_eq!(got, want);
}

#[test]
fn startup_list_starts_one_reader_per_container() {
    let rt = tokio::runtime::Builder::new_current_thread().build().unwrap();
    let mut reg = Registry::new();
    let started: std::cell::RefCell<Vec<String>> = std::cell::RefCell::new(Vec::new());
    let containers = vec![
        listed(Some("a"), Some(&[(LABEL, "")]), Some(&["/plane-one"])),
        listed(Some("x"), Some(&[("other", "")]), Some(&["/plane-two"])),
        listed(Some("a"), Some(&[(LABEL, "")]), Some(&["/plane-one"])),
        listed(Some("b"), Some(&[(LABEL, "")]), Some(&["/plane-two"])),
    ];
    let planned = startup_subscriptions(&reg, &containers);
    let shape: Vec<Result<Option<(String, String)>, Skip>> = planned
        .iter()
        .map(|e| e.clone().map(|o| o.map(|s| (s.container_id, s.backend_id))))
        .collect();
    assert_eq!(
        shape,
        vec![Ok(Some(("a".to_string(), "one".to_string()))), Err(Skip::NotBackend), Ok(None), Ok(Some(("b".to_string(), "two".to_string())))]
    );
    for entry in planned {
        if let Ok(Some(sub)) = entry {
            assert!(enlist(&mut reg, sub, |s| {
                started.borrow_mut().push(s.container_id);
                rt.spawn(async {})
            })
            .is_none());
        }
    }
    assert_eq!(started.into_inner(), vec!["a".to_string(), "b".to_string()]);
    assert!(reg.contains(&"a".to_string()));
    assert!(!reg.contains(&"x".to_string()));
}

#[test]
fn startup_pass_skips_ids_already_registered() {
    let rt = tokio::runtime::Builder::new_current_thread().build().unwrap();
    let mut reg = Registry::new();
    assert!(reg.register_if_absent("a".to_string(), || rt.spawn(async {})).is_none());
    let containers = vec![
        listed(Some("a"), Some(&[(LABEL, "")]), Some(&["/plane-one"])),
        listed(None, Some(&[(LABEL, "")]), Some(&["/plane-two"])),
        listed(Some("c"), Some(&[(LABEL, "")]), Some(&["/x", "/plane-three"])),
    ];
    let planned = startup_subscriptions(&reg, &containers);
    assert!(matches!(planned[0], Ok(None)));
    assert!(matches!(planned[1], Err(Skip::NoId)));
    match &planned[2] {
        Ok(Some(s)) => {
            assert_eq!(s.container_id, "c");
            assert_eq!(s.backend_id, "three");
        }
        other => panic!("expected a subscription, got {:?}", other),
    }
}

#[test]
fn known_container_hands_spawn_back() {
    let rt = tokio::runtime::Builder::new_current_thread().build().unwrap();
    let mut reg = Registry::new();
    let c = listed(Some("c1"), Some(&[(LABEL, "foo")]), Some(&["/plane-foo"]));
    let started: std::cell::RefCell<Vec<(String, String)>> = std::cell::RefCell::new(Vec::new());
    let first = enlist_container(&mut reg, &c, |s| {
        started.borrow_mut().push((s.container_id, s.backend_id));
        rt.spawn(async {})
    });
    assert!(matches!(first, Enlisted::Started));
    let again = enlist_container(&mut reg, &c, |s| {
        started.borrow_mut().push((s.container_id, s.backend_id));
        rt.spawn(async {})
    });
    assert!(matches!(again, Enlisted::Known(_)));
    assert_eq!(started.into_inner(), vec![("c1".to_string(), "foo".to_string())]);
}
