use vstd::prelude::*;
use vstd::utf8::encode_utf8;

use crate::json::{as_text, get_field, json_doc, parse_document, JsonModel};
use crate::models::{Message, ModelConfig};
use crate::text::{slash_pred, tail_count, take_chars, trimmed_empty, truncate_chars, trim_chars, ws_pred};

verus! {

/// Why a turn could not be set up from its model configuration.
#[derive(Clone, Copy, PartialEq, Eq, Structural, Debug)]
pub enum TurnSetupError {
    /// `provider_options` is not a JSON document.
    OptionsNotJson,
    /// The options carry no `model` string.
    ModelNameMissing,
}

/// The outbound remote call of one turn, ready for the transport: the
/// endpoint, the wire name of the model, and the role/content pairs to send,
/// system prompt first.
#[derive(Debug)]
pub struct TurnRequest {
    pub url: String,
    pub model: String,
    pub messages: Vec<(String, String)>,
}

/// The options text a configuration is read under: absent options mean an
/// empty document.
pub open spec fn options_text(opts: Option<String>) -> Seq<char> {
    match opts {
        Some(s) => s@,
        None => "{}"@,
    }
}

/// The wire name of the model, as the options decide it: the `model` string
/// of the options document, or the error that hides it.
pub open spec fn spec_model_name(opts: Option<String>) -> Result<Seq<char>, TurnSetupError> {
    match json_doc(encode_utf8(options_text(opts))) {
        None => Err(TurnSetupError::OptionsNotJson),
        Some(m) => match m {
            JsonModel::Obj(fields) => if fields.contains_key("model"@) && fields["model"@] is Str {
                Ok(fields["model"@]->Str_0)
            } else {
                Err(TurnSetupError::ModelNameMissing)
            },
            _ => Err(TurnSetupError::ModelNameMissing),
        },
    }
}

/// Read the wire name of the model out of a configuration's options.
pub fn model_name_of_options(options: &Option<String>) -> (r: Result<String, TurnSetupError>)
    ensures
        match spec_model_name(*options) {
            Ok(n) => r matches Ok(s) && s@ == n,
            Err(e) => r matches Err(e2) && e2 == e,
        },
{
    let text: &str = match options {
        Some(s) => s.as_str(),
        None => "{}",
    };
    let doc = match parse_document(text.as_bytes()) {
        Some(d) => d,
        None => {
            return Err(TurnSetupError::OptionsNotJson);
        },
    };
    match get_field(&doc, "model") {
        Some(v) => match as_text(v) {
            Some(name) => Ok(name.to_owned()),
            None => Err(TurnSetupError::ModelNameMissing),
        },
        None => Err(TurnSetupError::ModelNameMissing),
    }
}

/// The leading system message of every turn.
pub fn system_prompt_content(model_name: &str) -> (r: String)
    ensures
        r@ == "You are "@ + model_name@ + "."@,
{
    let mut s = String::from_str("You are ");
    s.append(model_name);
    s.append(".");
    s
}

/// Assemble the outbound remote call of one turn: the chat-completions
/// endpoint under the configuration's base URL, the wire name of the model
/// from its options, and the synthesized system message followed by the
/// prior turns in order.
pub fn prepare_turn_request(config: &ModelConfig, history: &Vec<Message>) -> (r: Result<
    TurnRequest,
    TurnSetupError,
>)
    ensures
        match spec_model_name(config.provider_options) {
            Err(e) => r matches Err(e2) && e2 == e,
            Ok(model_name) => r matches Ok(req) && {
                &&& req.model@ == model_name
                &&& req.url@ == config.api_url@.take(
                    config.api_url@.len() - tail_count(config.api_url@, slash_pred()),
                ) + "/chat/completions"@
                &&& req.messages@.len() == 1 + history@.len()
                &&& req.messages@[0].0@ == "system"@
                &&& req.messages@[0].1@ == "You are "@ + config.name@ + "."@
                &&& forall|i: int|
                    0 <= i < history@.len() ==> (#[trigger] req.messages@[i + 1]).0@
                        == history@[i].role@ && req.messages@[i + 1].1@ == history@[i].content@
            },
        },
{
    let model = match model_name_of_options(&config.provider_options) {
        Ok(m) => m,
        Err(e) => {
            return Err(e);
        },
    };
    let url = crate::text::chat_completions_url(config.api_url.as_str());
    let mut messages: Vec<(String, String)> = Vec::new();
    messages.push((String::from_str("system"), system_prompt_content(config.name.as_str())));
    let mut i: usize = 0;
    while i < history.len()
        invariant
            i <= history@.len(),
            messages@.len() == 1 + i,
            messages@[0].0@ == "system"@,
            messages@[0].1@ == "You are "@ + config.name@ + "."@,
            forall|k: int|
                0 <= k < i ==> (#[trigger] messages@[k + 1]).0@ == history@[k].role@
                    && messages@[k + 1].1@ == history@[k].content@,
        decreases history@.len() - i,
    {
        messages.push((history[i].role.clone(), history[i].content.clone()));
        i = i + 1;
    }
    Ok(TurnRequest { url, model, messages })
}

/// The position of the last assistant message, if any.
pub open spec fn last_assistant(msgs: Seq<Message>) -> Option<int>
    decreases msgs.len(),
{
    if msgs.len() == 0 {
        None
    } else if msgs.last().role@ == "assistant"@ {
        Some(msgs.len() - 1)
    } else {
        last_assistant(msgs.drop_last())
    }
}

/// Cut a conversation back for regeneration: the history strictly before
/// the last assistant message, and that message's id — to be deleted and
/// replaced. `None` when no assistant message exists to regenerate.
pub fn truncate_for_regenerate(messages: &Vec<Message>) -> (r: Option<(Vec<Message>, u128)>)
    ensures
        match r {
            None => last_assistant(messages@) is None,
            Some(pair) => {
                &&& last_assistant(messages@) matches Some(j)
                &&& pair.1 == messages@[j].id
                &&& pair.0@.len() == j
                &&& forall|k: int| 0 <= k < j ==> pair.0@[k] == messages@[k]
            },
        },
{
    let assistant = String::from_str("assistant");
    proof {
        assert(messages@.take(messages@.len() as int) =~= messages@);
    }
    let mut j = messages.len();
    while j > 0
        invariant
            j <= messages@.len(),
            assistant@ == "assistant"@,
            last_assistant(messages@.take(j as int)) == last_assistant(messages@),
        decreases j,
    {
        if messages[j - 1].role == assistant {
            proof {
                assert(messages@.take(j as int).last() == messages@[j - 1]);
                assert(last_assistant(messages@) == Some(j - 1));
            }
            let mut hist: Vec<Message> = Vec::new();
            let mut k: usize = 0;
            while k < j - 1
                invariant
                    k <= j - 1 < messages@.len(),
                    hist@.len() == k,
                    forall|t: int| 0 <= t < k ==> hist@[t] == messages@[t],
                decreases j - 1 - k,
            {
                hist.push(messages[k].clone());
                k = k + 1;
            }
            return Some((hist, messages[j - 1].id));
        }
        proof {
            assert(messages@.take(j as int).last() == messages@[j - 1]);
            assert(messages@.take(j as int).drop_last() =~= messages@.take(j - 1));
        }
        j = j - 1;
    }
    proof {
        assert(messages@.take(0) =~= Seq::<Message>::empty());
    }
    None
}

/// The position of the first configuration with this id, if any.
pub open spec fn first_config(configs: Seq<ModelConfig>, id: u128) -> Option<int>
    decreases configs.len(),
{
    if configs.len() == 0 {
        None
    } else if configs[0].id == id {
        Some(0)
    } else {
        match first_config(configs.drop_first(), id) {
            None => None,
            Some(i) => Some(i + 1),
        }
    }
}

proof fn lemma_first_config(configs: Seq<ModelConfig>, id: u128)
    ensures
        match first_config(configs, id) {
            None => forall|j: int| 0 <= j < configs.len() ==> (#[trigger] configs[j]).id != id,
            Some(i) => 0 <= i < configs.len() && configs[i].id == id && forall|j: int|
                0 <= j < i ==> (#[trigger] configs[j]).id != id,
        },
    decreases configs.len(),
{
    if configs.len() > 0 && configs[0].id != id {
        lemma_first_config(configs.drop_first(), id);
        match first_config(configs.drop_first(), id) {
            None => {
                assert forall|j: int| 0 <= j < configs.len() implies (#[trigger] configs[j]).id
                    != id by {
                    if j > 0 {
                        assert(configs.drop_first()[j - 1] == configs[j]);
                    }
                }
            },
            Some(i) => {
                assert(configs.drop_first()[i] == configs[i + 1]);
                assert forall|j: int| 0 <= j < i + 1 implies (#[trigger] configs[j]).id != id by {
                    if j > 0 {
                        assert(configs.drop_first()[j - 1] == configs[j]);
                    }
                }
            },
        }
    }
}

/// The first configuration carrying this id, as the storage order lists
/// them.
pub fn find_model_config<'a>(configs: &'a Vec<ModelConfig>, id: u128) -> (r: Option<
    &'a ModelConfig,
>)
    ensures
        match r {
            None => first_config(configs@, id) is None,
            Some(c) => first_config(configs@, id) matches Some(i) && *c == configs@[i],
        },
{
    proof {
        lemma_first_config(configs@, id);
    }
    let mut i: usize = 0;
    while i < configs.len()
        invariant
            i <= configs@.len(),
            forall|j: int| 0 <= j < i ==> (#[trigger] configs@[j]).id != id,
        decreases configs@.len() - i,
    {
        if configs[i].id == id {
            proof {
                lemma_first_config(configs@, id);
                match first_config(configs@, id) {
                    None => {
                        assert(false);
                    },
                    Some(f) => {
                        if f < i {
                            assert(configs@[f].id != id);
                        }
                        if i < f {
                            assert(configs@[i as int].id != id);
                        }
                    },
                }
            }
            return Some(&configs[i]);
        }
        i = i + 1;
    }
    proof {
        lemma_first_config(configs@, id);
        match first_config(configs@, id) {
            None => {},
            Some(f) => {
                assert(configs@[f].id != id);
            },
        }
    }
    None
}

/// A configuration is accepted only when its name, base URL and provider
/// all hold something beyond whitespace.
pub fn validate_model_config(config: &ModelConfig) -> (r: bool)
    ensures
        r == (trim_chars(config.name@, ws_pred()).len() > 0 && trim_chars(
            config.api_url@,
            ws_pred(),
        ).len() > 0 && trim_chars(config.provider@, ws_pred()).len() > 0),
{
    !trimmed_empty(config.name.as_str()) && !trimmed_empty(config.api_url.as_str())
        && !trimmed_empty(config.provider.as_str())
}

/// The configuration seeded on first run, under a fresh id: an
/// OpenAI-compatible endpoint whose credential is read from the
/// `OPENAI_API_KEY` environment variable.
pub fn default_model_config(id: u128) -> (r: ModelConfig)
    ensures
        r.id == id,
        r.name@ == "Default OpenAI Compatible"@,
        r.provider@ == "openai_compatible"@,
        r.api_url@ == "https://api.openai.com/v1"@,
        r.api_key_ref matches Some(k) && k@ == "env:OPENAI_API_KEY"@,
        r.provider_options matches Some(o) && o@ == "{\"model\": \"gpt-4o-mini\"}"@,
{
    ModelConfig {
        id,
        name: String::from_str("Default OpenAI Compatible"),
        provider: String::from_str("openai_compatible"),
        api_url: String::from_str("https://api.openai.com/v1"),
        api_key_ref: Some(String::from_str("env:OPENAI_API_KEY")),
        provider_options: Some(String::from_str("{\"model\": \"gpt-4o-mini\"}")),
    }
}

/// The fixed instruction under which a conversation title is generated.
pub fn title_system_prompt() -> (r: String)
    ensures
        r@ == "You are an expert conversation summarizer. Generate a concise, relevant title for the following conversation exchange. The title must be lowercase except for proper nouns, maximum 30 characters long, and contain only the title itself with no extra text or quotes."@,
{
    String::from_str(
        "You are an expert conversation summarizer. Generate a concise, relevant title for the following conversation exchange. The title must be lowercase except for proper nouns, maximum 30 characters long, and contain only the title itself with no extra text or quotes.",
    )
}

/// The user prompt of a title-generation call: the conversation's first
/// exchange, each side cut to 1000 characters.
pub fn title_user_prompt(user_content: &str, assistant_content: &str) -> (r: String)
    ensures
        r@ == "User: "@ + take_chars(user_content@, 1000) + "\nAssistant: "@ + take_chars(
            assistant_content@,
            1000,
        ) + "\n\nTitle:"@,
{
    let mut s = String::from_str("User: ");
    s.append(truncate_chars(user_content, 1000));
    s.append("\nAssistant: ");
    s.append(truncate_chars(assistant_content, 1000));
    s.append("\n\nTitle:");
    s
}

/// A fresh conversation as first created: the default title, both
/// timestamps at creation time, and the model configuration it will use.
pub fn new_conversation(id: u128, model_config_id: u128, now: i64) -> (r: crate::models::Conversation)
    ensures
        r.id == id,
        r.title@ == "New Chat"@,
        r.created_at == now,
        r.last_updated_at == now,
        r.model_config_id == model_config_id,
{
    crate::models::Conversation {
        id,
        title: String::from_str("New Chat"),
        created_at: now,
        last_updated_at: now,
        model_config_id,
    }
}

/// A user message as the turn-initiating command persists it.
pub fn user_message(conversation_id: u128, id: u128, content: String, timestamp: i64) -> (r:
    Message)
    ensures
        r.id == id,
        r.conversation_id == conversation_id,
        r.role@ == "user"@,
        r.content@ == content@,
        r.timestamp == timestamp,
        r.metadata is None,
{
    Message {
        id,
        conversation_id,
        role: String::from_str("user"),
        content,
        timestamp,
        metadata: None,
    }
}

} // verus!
