use vstd::prelude::*;

verus! {

/// A single message in a conversation. Identifiers are 128-bit values (the
/// textual form used on the wire and in storage is produced by the
/// surrounding application); timestamps are Unix seconds.
#[derive(Debug)]
pub struct Message {
    pub id: u128,
    pub conversation_id: u128,
    pub role: String,
    pub content: String,
    pub timestamp: i64,
    pub metadata: Option<String>,
}

impl Clone for Message {
    fn clone(&self) -> (r: Self)
        ensures
            r == *self,
    {
        Message {
            id: self.id,
            conversation_id: self.conversation_id,
            role: self.role.clone(),
            content: self.content.clone(),
            timestamp: self.timestamp,
            metadata: match &self.metadata {
                Some(m) => Some(m.clone()),
                None => None,
            },
        }
    }
}

/// The metadata of a conversation thread.
#[derive(Debug)]
pub struct Conversation {
    pub id: u128,
    pub title: String,
    pub created_at: i64,
    pub last_updated_at: i64,
    pub model_config_id: u128,
}

impl Clone for Conversation {
    fn clone(&self) -> (r: Self)
        ensures
            r == *self,
    {
        Conversation {
            id: self.id,
            title: self.title.clone(),
            created_at: self.created_at,
            last_updated_at: self.last_updated_at,
            model_config_id: self.model_config_id,
        }
    }
}

/// A configured remote endpoint and model. `api_key_ref` names where the
/// credential lives — never the credential itself; `provider_options` is a
/// JSON document with provider-specific settings, among them the wire name
/// of the model.
#[derive(Debug)]
pub struct ModelConfig {
    pub id: u128,
    pub name: String,
    pub provider: String,
    pub api_url: String,
    pub api_key_ref: Option<String>,
    pub provider_options: Option<String>,
}

impl Clone for ModelConfig {
    fn clone(&self) -> (r: Self)
        ensures
            r == *self,
    {
        ModelConfig {
            id: self.id,
            name: self.name.clone(),
            provider: self.provider.clone(),
            api_url: self.api_url.clone(),
            api_key_ref: match &self.api_key_ref {
                Some(k) => Some(k.clone()),
                None => None,
            },
            provider_options: match &self.provider_options {
                Some(o) => Some(o.clone()),
                None => None,
            },
        }
    }
}

} // verus!
