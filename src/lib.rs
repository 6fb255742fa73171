//! Inline edit prediction: a bounded history of buffer changes, prompts built around
//! the cursor, replies read back into minimal edits, predictions carried over the
//! user's typing, and the per-editor request lifecycle.

pub mod buffer;
pub mod edit;
pub mod engine;
pub mod events;
pub mod excerpt;
pub mod interpolate;
pub mod parse;
pub mod pending;
pub mod prediction;
pub mod prompt;
pub mod provider;
pub mod request;
pub mod text;

pub use buffer::BufferSnapshot;
pub use edit::{Edit, UserEdit};
pub use engine::Zeta;
pub use events::{Event, EventRing};
pub use excerpt::{InputExcerpt, excerpt_for_cursor_position};
pub use interpolate::interpolate;
pub use parse::{ParseError, common_prefix, parse_region};
pub use prediction::{CurrentInlineCompletion, InlineCompletion, InlineCompletionId};
pub use prompt::{OutlineItem, event_to_prompt, prompt_for_events, prompt_for_outline, tokens_for_bytes};
pub use provider::{EditPredictionSuggestion, ZetaInlineCompletionProvider};
pub use request::{
    HttpStep, PredictEditsBody, PreparedRequest, RefreshLlmTokenEvent, RequestError, SilentError,
    ZedlessSettings, collect_diagnostic_groups, upsell_dismissed, http_step, prepare_request,
    process_completion_response,
};
pub use text::{chars_of, string_of};
