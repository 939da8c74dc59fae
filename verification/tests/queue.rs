use cerberus_flex_gateway::event::CerberusEvent;
use cerberus_flex_gateway::queue::EventQueue;

fn evt(method: &str) -> CerberusEvent {
    CerberusEvent {
        remote_addr: None,
        endpoint: "/x".to_string(),
        scheme: true,
        method: method.to_string(),
        timestamp: "2026-01-01T00:00:00Z".to_string(),
        headers: Some(Vec::new()),
        query_params: None,
        body: None,
        user_agent: None,
        user_id: None,
        status_code: None,
        latency_ms: None,
        response_headers: None,
        response_body: None,
        session_id: None,
        sample_rate: None,
        sample_key: None,
    }
}

#[test]
fn push_and_drain() {
    let mut q = EventQueue::new(10);
    q.push(evt("GET")).unwrap();
    q.push(evt("POST")).unwrap();
    let drained = q.drain(10);
    assert_eq!(drained.len(), 2);
    assert_eq!(drained[0].method, "GET");
    assert_eq!(drained[1].method, "POST");
}

#[test]
fn drop_when_full() {
    let mut q = EventQueue::new(2);
    assert!(q.push(evt("A")).is_ok());
    assert!(q.push(evt("B")).is_ok());
    assert!(q.push(evt("C")).is_err());
    assert!(q.push(evt("D")).is_err());
    assert_eq!(q.take_dropped(), 2);
    assert_eq!(q.take_dropped(), 0);
}

#[test]
fn drain_capped_at_max() {
    let mut q = EventQueue::new(10);
    for _ in 0..5 {
        q.push(evt("GET")).unwrap();
    }
    let first = q.drain(2);
    assert_eq!(first.len(), 2);
    let rest = q.drain(10);
    assert_eq!(rest.len(), 3);
}
