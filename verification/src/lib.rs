//! A streaming completion orchestrator: it turns a chunked, provider-shaped
//! event stream into an ordered sequence of content fragments, accumulates
//! them into a durable message, and offers cooperative cancellation and
//! lifecycle notifications to a caller that must never block.
//!
//! The layers, leaf first: `sse` splits raw bytes into frame payloads;
//! `delta` interprets one payload as a content fragment, the terminal
//! sentinel, an ignorable control frame, or a fault; `cancel` is the
//! concurrency-safe registry of turns marked for early termination;
//! `session` is the per-turn state machine that accumulates fragments and
//! decides the terminal outcome; `pipeline` composes extractor and session
//! over whole payload sequences; `turn` assembles the outbound request of a
//! turn; `keys` and `text` hold the credential-reference and string rules.

use vstd::prelude::*;

mod cancel;
mod delta;
mod json;
mod keys;
mod models;
mod pipeline;
mod session;
mod sse;
mod text;
mod turn;

pub use cancel::CancelRegistry;
pub use delta::{extract_delta, ChunkFault, ChunkParseError, DeltaEvent};
pub use keys::{classify_key_ref, keyring_service_name, KeyRefKind};
pub use models::{Conversation, Message, ModelConfig};
pub use pipeline::run_turn_frames;
pub use session::{
    run_session, Notification, SessionEvent, SessionOutcome, SessionRun, StepAction,
    StreamingSession,
};
pub use sse::{FrameDecodeError, FrameDecoder};
pub use text::{chat_completions_url, sanitize_title, trim_ws, trimmed_empty, truncate_chars};
pub use turn::{
    default_model_config, find_model_config, model_name_of_options, new_conversation,
    prepare_turn_request,
    system_prompt_content, title_system_prompt, title_user_prompt, truncate_for_regenerate,
    user_message, validate_model_config, TurnRequest, TurnSetupError,
};
