use crate::text::{decimal, decimal_string};
use vstd::prelude::*;

verus! {

/// Settings of the cloud speech service.
#[derive(Clone, Debug)]
pub struct CloudApiConfig {
    /// The API key.
    pub api_key: String,
    /// The resource id.
    pub resource_id: String,
    /// Whether cloud recognition is switched on.
    pub enabled: bool,
}

impl Default for CloudApiConfig {
    /// No key, no resource, switched off.
    fn default() -> (r: Self)
        ensures
            r.api_key@ == Seq::<char>::empty(),
            r.resource_id@ == Seq::<char>::empty(),
            !r.enabled,
    {
        CloudApiConfig { api_key: String::new(), resource_id: String::new(), enabled: false }
    }
}

/// Why the cloud service refused a request.
#[derive(Clone, Copy, Debug, PartialEq, Eq, Structural)]
pub enum CloudError {
    /// The service is switched off or has no API key.
    Disabled,
}

impl CloudError {
    /// The message shown to the user.
    pub fn message(&self) -> (r: String)
        ensures
            r@ == "云端 API 未启用，请配置 api_key"@,
    {
        String::from_str("云端 API 未启用，请配置 api_key")
    }
}

/// The text the cloud service answers with while its streaming protocol
/// is not wired up, for a recording of `n` samples.
pub open spec fn placeholder_text(n: nat) -> Seq<char> {
    "[云端识别] 豆包 API 集成开发中 — 收到 "@ + decimal(n) + " 采样音频"@
}

/// A client of the cloud speech service.
pub struct CloudApiClient {
    config: CloudApiConfig,
}

impl CloudApiClient {
    /// The client's settings.
    pub closed spec fn configuration(&self) -> CloudApiConfig {
        self.config
    }

    /// Whether requests may go out: switched on and with an API key.
    pub open spec fn enabled_spec(&self) -> bool {
        self.configuration().enabled && self.configuration().api_key@.len() > 0
    }

    /// A client with the given settings.
    pub fn new(config: CloudApiConfig) -> (r: Self)
        ensures
            r.configuration() == config,
    {
        CloudApiClient { config }
    }

    /// Whether the client is switched on and has an API key.
    pub fn is_enabled(&self) -> (r: bool)
        ensures
            r == self.enabled_spec(),
            r == (self.configuration().enabled && self.configuration().api_key@.len() > 0),
    {
        self.config.enabled && !self.config.api_key.as_str().is_empty()
    }

    /// Replaces the settings.
    pub fn update_config(&mut self, config: CloudApiConfig)
        ensures
            final(self).configuration() == config,
    {
        self.config = config;
    }

    /// The answer to a streaming request of `n_samples` samples: refused
    /// when the client is not enabled, else the placeholder text.
    pub fn streaming_placeholder(&self, n_samples: usize) -> (r: Result<String, CloudError>)
        ensures
            !self.enabled_spec() ==> r == Err::<String, CloudError>(CloudError::Disabled),
            self.enabled_spec() ==> (r matches Ok(t) && t@ == placeholder_text(n_samples as nat)),
            (r is Ok) == (self.configuration().enabled && self.configuration().api_key@.len() > 0),
    {
        if !self.is_enabled() {
            return Err(CloudError::Disabled);
        }
        let mut text = String::from_str("[云端识别] 豆包 API 集成开发中 — 收到 ");
        let count = decimal_string(n_samples);
        text.append(count.as_str());
        text.append(" 采样音频");
        Ok(text)
    }
}

/// A client is enabled exactly when its settings switch it on and hold a
/// non-empty API key; the resource id plays no part.
pub proof fn law_enabled_by_switch_and_key(c: CloudApiClient)
    ensures
        c.enabled_spec() <==> (c.configuration().enabled && c.configuration().api_key@.len() > 0),
{
}

/// Two clients whose settings differ only in the resource id are both
/// enabled or both not.
pub proof fn law_resource_id_irrelevant(a: CloudApiClient, b: CloudApiClient)
    requires
        a.configuration().enabled == b.configuration().enabled,
        a.configuration().api_key@ == b.configuration().api_key@,
    ensures
        a.enabled_spec() == b.enabled_spec(),
{
}

} // verus!
