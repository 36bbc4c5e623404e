//! The float-free slices of the persisted application configuration that the
//! three components read and update: the strategy flags, the fingerprint
//! method's enrolled-finger cache, and the model catalog entries.

use vstd::prelude::*;
use vstd::string::*;

verus! {

/// The strategy section: how authentication methods are tried, and whether
/// the PAM module is meant to be registered.
#[derive(Debug, Clone)]
pub struct StrategyConfig {
    pub execution_mode: String,
    pub order: Vec<String>,
    pub retries: u32,
    pub retry_delay: u32,
    pub pam_enabled: bool,
}

/// The infrared-camera options of the face method.
#[derive(Debug, Clone, Copy, PartialEq, Eq, Structural)]
pub struct IRCameraConfig {
    pub enable: bool,
    pub device_id: i32,
}

/// One enrolled finger as cached in the configuration file; the native
/// library remains the authoritative store.
#[derive(Debug, Clone)]
pub struct FingerConfig {
    pub name: String,
    pub created_at: u64,
}

/// The fingerprint method section: its enable flag and the cached fingers.
#[derive(Debug, Clone)]
pub struct FingerprintMethodConfig {
    pub enable: bool,
    pub fingers: Vec<FingerConfig>,
}

/// One model catalog entry.
#[derive(Debug, Clone)]
pub struct ModelConfig {
    pub path: String,
    pub name: Option<String>,
    pub model_type: String,
}

/// The default strategy: sequential, face then fingerprint then voice, three
/// retries half a second apart, PAM registration off.
pub fn default_strategy_config() -> (c: StrategyConfig)
    ensures
        c.execution_mode@ == "sequential"@,
        c.order.deep_view() =~= seq!["face"@, "fingerprint"@, "voice"@],
        c.retries == 3,
        c.retry_delay == 500,
        !c.pam_enabled,
{
    let mut order: Vec<String> = Vec::new();
    order.push(String::from_str("face"));
    order.push(String::from_str("fingerprint"));
    order.push(String::from_str("voice"));
    proof {
        assert(order.deep_view() =~= seq!["face"@, "fingerprint"@, "voice"@]);
    }
    StrategyConfig {
        execution_mode: String::from_str("sequential"),
        order,
        retries: 3,
        retry_delay: 500,
        pam_enabled: false,
    }
}

/// The default fingerprint method section: enabled, nothing enrolled yet.
pub fn default_fingerprint_method_config() -> (c: FingerprintMethodConfig)
    ensures
        c.enable,
        c.fingers@.len() == 0,
{
    FingerprintMethodConfig { enable: true, fingers: Vec::new() }
}

/// The default model catalog: one entry per authentication method.
pub fn default_model_configs() -> (v: Vec<ModelConfig>)
    ensures
        v@.len() == 3,
        v@[0].path@ == "models/face.onnx"@ && (v@[0].name matches Some(n) && n@ == "Onnx"@)
            && v@[0].model_type@ == "face"@,
        v@[1].path@ == "models/fingerprint.onnx"@ && v@[1].name is None && v@[1].model_type@
            == "fingerprint"@,
        v@[2].path@ == "models/voice.onnx"@ && v@[2].name is None && v@[2].model_type@
            == "voice"@,
{
    let mut v: Vec<ModelConfig> = Vec::new();
    v.push(
        ModelConfig {
            path: String::from_str("models/face.onnx"),
            name: Some(String::from_str("Onnx")),
            model_type: String::from_str("face"),
        },
    );
    v.push(
        ModelConfig {
            path: String::from_str("models/fingerprint.onnx"),
            name: None,
            model_type: String::from_str("fingerprint"),
        },
    );
    v.push(
        ModelConfig {
            path: String::from_str("models/voice.onnx"),
            name: None,
            model_type: String::from_str("voice"),
        },
    );
    v
}

} // verus!
