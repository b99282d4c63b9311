use matmul::{AmapMetrics, Metrics, MetricsError};

#[test]
fn test_metrics_inc_dec_snapshot() {
    let mut m = Metrics::new();
    m.inc(String::from("req"));
    m.inc(String::from("req"));
    m.dec(String::from("err"));
    m.inc(String::from("err"));
    let snap = m.snapshot();
    assert_eq!(
        snap,
        vec![(String::from("req"), 2), (String::from("err"), 0)]
    );
}

#[test]
fn test_metrics_display() {
    let mut m = Metrics::new();
    m.inc(String::from("calls"));
    m.dec(String::from("open"));
    assert_eq!(m.display_string(), "calls: 1\nopen: -1\n");
}

#[test]
fn test_amap_inc_known_key() {
    let mut m = AmapMetrics::new(&["req.page", "req.api"]);
    assert!(m.inc("req.page").is_ok());
    assert!(m.inc("req.page").is_ok());
    assert!(m.inc("req.api").is_ok());
    assert_eq!(m.display_string(), "req.page: 2\nreq.api: 1\n");
}

#[test]
fn test_amap_unknown_key() {
    let mut m = AmapMetrics::new(&["req.page"]);
    assert!(matches!(m.inc("missing"), Err(MetricsError::KeyNotFound)));
    assert_eq!(m.display_string(), "req.page: 0\n");
}

#[test]
fn test_amap_duplicate_names_collapse() {
    let mut m = AmapMetrics::new(&["a", "a", "b"]);
    assert!(m.inc("a").is_ok());
    assert_eq!(m.display_string(), "a: 1\nb: 0\n");
}
