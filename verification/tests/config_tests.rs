use rkazumi_core::config::HttpClientConfig;

#[test]
fn default_config() {
    let c = HttpClientConfig::default();
    assert_eq!(c.timeout_secs, 30);
    assert_eq!(c.connect_timeout_secs, 10);
    assert_eq!(c.user_agent, "Mozilla/5.0 (Linux; Android 14)");
    assert_eq!(c.max_retries, 3);
}
