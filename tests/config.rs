use radar_link::{LinkConfig, SYNC_TOLERANCE_US};

#[test]
fn standard_config_values() {
    let c = LinkConfig::standard();
    assert_eq!((c.port_a, c.port_b), (8080, 8081));
    assert_eq!(c.sweep_rate_hz, 1);
    assert_eq!(c.window_capacity, 10);
    assert_eq!(c.sync_tolerance_us, SYNC_TOLERANCE_US);
    assert_eq!(c.buffer_capacity, 20);
    assert_eq!(c.startup_delay_b_ms, 5000);
}

#[test]
fn tick_interval_and_ports() {
    let mut c = LinkConfig::standard();
    assert_eq!(c.tick_interval_ms(), 1000);
    c.sweep_rate_hz = 3;
    assert_eq!(c.tick_interval_ms(), 333);
    assert_eq!(c.port_of(0), 8080);
    assert_eq!(c.port_of(1), 8081);
}
