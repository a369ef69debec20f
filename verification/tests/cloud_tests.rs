use voice2text::cloud::{CloudApiClient, CloudApiConfig, CloudError};

fn config(key: &str, enabled: bool) -> CloudApiConfig {
    CloudApiConfig { api_key: key.to_string(), resource_id: "r".to_string(), enabled }
}

#[test]
fn default_client_is_disabled() {
    let c = CloudApiConfig::default();
    assert_eq!(c.api_key, "");
    assert_eq!(c.resource_id, "");
    assert!(!c.enabled);
    let client = CloudApiClient::new(c);
    assert!(!client.is_enabled());
    assert_eq!(client.streaming_placeholder(10), Err(CloudError::Disabled));
    assert_eq!(CloudError::Disabled.message(), "云端 API 未启用，请配置 api_key");
}

#[test]
fn enabled_needs_switch_and_key() {
    assert!(!CloudApiClient::new(config("", true)).is_enabled());
    assert!(!CloudApiClient::new(config("k", false)).is_enabled());
    let mut client = CloudApiClient::new(config("k", true));
    assert!(client.is_enabled());
    client.update_config(config("k", false));
    assert!(!client.is_enabled());
}

#[test]
fn placeholder_names_the_sample_count() {
    let client = CloudApiClient::new(config("key", true));
    assert_eq!(
        client.streaming_placeholder(16000),
        Ok("[云端识别] 豆包 API 集成开发中 — 收到 16000 采样音频".to_string())
    );
}
