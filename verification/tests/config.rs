use tk_listen::Config;

#[test]
fn config_defaults() {
    let c = Config::new();
    assert_eq!(c.retry_interval, 200);
    assert_eq!(c.max_connections, 1000);
}

#[test]
fn config_setters_chain() {
    let mut c = Config::new();
    c.fatal_error_retry_interval(50).max_connections(32);
    assert_eq!(c.retry_interval, 50);
    assert_eq!(c.max_connections, 32);
}

#[test]
fn config_done_freezes_values() {
    let mut c = Config::new();
    let frozen = c.fatal_error_retry_interval(75).max_connections(8).done();
    assert_eq!(frozen.retry_interval, 75);
    assert_eq!(frozen.max_connections, 8);
    // The builder itself is unchanged by `done`.
    assert_eq!(c.retry_interval, 75);
    assert_eq!(c.max_connections, 8);
}
