//! The values that pass between the application and the biometric unlock of
//! the operating system.

use vstd::prelude::*;

verus! {

/// The two parts from which the key that protects a biometric secret is
/// made: one kept by the operating system, one that the client may add.
/// Both are base64 text.
#[derive(Clone, Debug)]
pub struct KeyMaterial {
    pub os_key_part_b64: String,
    pub client_key_part_b64: Option<String>,
}

/// A key derived by the operating system, and the challenge that it was
/// derived with. Both are base64 text.
#[derive(Clone, Debug)]
pub struct OsDerivedKey {
    pub key_b64: String,
    pub iv_b64: String,
}

impl KeyMaterial {
    /// Key material from its two parts.
    pub fn new(os_key_part_b64: String, client_key_part_b64: Option<String>) -> (material:
        KeyMaterial)
        ensures
            material.os_key_part_b64 == os_key_part_b64,
            material.client_key_part_b64 == client_key_part_b64,
    {
        KeyMaterial { os_key_part_b64, client_key_part_b64 }
    }

    /// Whether the client added a part of its own.
    pub fn has_client_part(&self) -> (present: bool)
        ensures
            present == self.client_key_part_b64 is Some,
    {
        self.client_key_part_b64.is_some()
    }
}

impl OsDerivedKey {
    /// A derived key and the challenge that it was derived with.
    pub fn new(key_b64: String, iv_b64: String) -> (key: OsDerivedKey)
        ensures
            key.key_b64 == key_b64,
            key.iv_b64 == iv_b64,
    {
        OsDerivedKey { key_b64, iv_b64 }
    }

    /// The key and its challenge in one text, separated by a bar.
    pub fn joined(&self) -> (text: String)
        ensures
            text@ == self.key_b64@ + "|"@ + self.iv_b64@,
    {
        let mut text = self.key_b64.clone();
        text.append("|");
        text.append(self.iv_b64.as_str());
        text
    }
}

} // verus!
