use bluetooth_applet::ConnectRetry;

#[test]
fn five_attempts_with_doubling_backoff() {
    let mut retry = ConnectRetry::new();
    let mut delays: Vec<u32> = Vec::new();
    let mut attempts: u32 = 0;
    loop {
        // One (failing) connect attempt happens here.
        attempts += 1;
        delays.push(retry.on_failure());
        if !retry.should_retry() {
            break;
        }
    }
    assert_eq!(attempts, 5);
    assert_eq!(delays, vec![500, 1000, 2000, 4000, 8000]);
    assert!(delays.iter().all(|d| *d <= 10_000));
}

#[test]
fn success_midway_stops_the_flow() {
    let mut retry = ConnectRetry::new();
    assert_eq!(retry.on_failure(), 500);
    assert!(retry.should_retry());
    assert_eq!(retry.on_failure(), 1000);
    assert!(retry.should_retry());
    // The third attempt succeeds: the caller simply stops consulting the
    // policy. Only two failures were recorded.
    assert_eq!(retry.attempts, 2);
}
