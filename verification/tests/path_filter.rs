use cerberus_flex_gateway::path_filter::PathFilter;

fn pf(capture: &[&str], exclude: &[&str]) -> PathFilter {
    let cap: Vec<String> = capture.iter().map(|s| s.to_string()).collect();
    let exc: Vec<String> = exclude.iter().map(|s| s.to_string()).collect();
    PathFilter::compile(&cap, &exc).unwrap()
}

#[test]
fn empty_filters_capture_everything() {
    let f = pf(&[], &[]);
    assert!(f.should_capture("/anything"));
    assert!(f.should_capture("/api/v1/users/42"));
}

#[test]
fn allowlist_match() {
    let f = pf(&["/api/**"], &[]);
    assert!(f.should_capture("/api/v1/users"));
    assert!(!f.should_capture("/admin/dashboard"));
}

#[test]
fn denylist_match() {
    let f = pf(&[], &["/internal/**"]);
    assert!(f.should_capture("/api/v1/users"));
    assert!(!f.should_capture("/internal/debug"));
}

#[test]
fn exclude_wins_over_capture() {
    let f = pf(&["/api/**"], &["/api/internal/**"]);
    assert!(f.should_capture("/api/v1/users"));
    assert!(!f.should_capture("/api/internal/secret"));
}
