use vstd::prelude::*;

use crate::buffer::{BufferSnapshot, path_view};
use crate::edit::{Edit, UserEdit, edits_view};
use crate::excerpt::{
    MAX_CONTEXT_TOKENS, MAX_REWRITE_TOKENS, excerpt_for_cursor_position, excerpt_prompt, grown,
    grown_up, line_end, line_start, region_block,
};
use crate::prediction::{InlineCompletion, InlineCompletionId};
use crate::prompt::{
    MAX_EVENT_TOKENS, OutlineItem, UNTITLED, events_text, outline_prompt, path_or_untitled,
    prompt_for_events, prompt_for_outline, texts_view,
};

verus! {

/// The settings of edit prediction.
#[derive(Clone, Debug, Default, PartialEq, Eq)]
pub struct ZedlessSettings {
    /// Where the prediction server is.
    pub zeta_url: Option<String>,
    /// Where path prompts start.
    pub projects_base_path: Option<String>,
}

/// Why no prediction could be requested.
#[derive(Clone, Copy, Debug, PartialEq, Eq, Structural)]
pub enum RequestError {
    /// No prediction server is configured.
    ConfigMissing,
}

/// What is sent to the prediction service.
#[derive(Debug)]
pub struct PredictEditsBody {
    pub input_events: Vec<char>,
    pub input_excerpt: Vec<char>,
    pub speculated_output: Option<Vec<char>>,
    pub outline: Option<Vec<char>>,
    pub can_collect_data: bool,
}

/// A request ready to send: where to, what, and which part of the buffer the model may
/// rewrite.
#[derive(Debug)]
pub struct PreparedRequest {
    pub server_url: String,
    pub body: PredictEditsBody,
    pub editable_start: usize,
    pub editable_end: usize,
}

/// Assembles the request for a prediction at `cursor` in `snapshot`: the cursor excerpt
/// (named by the buffer's full path, `full_path`), the rendered history (`event_prompts`,
/// oldest first) and the outline. Fails when no server is configured.
pub fn prepare_request(
    settings: &ZedlessSettings,
    snapshot: &BufferSnapshot,
    full_path: &Option<Vec<char>>,
    cursor: usize,
    event_prompts: &Vec<Vec<char>>,
    outline: &Option<Vec<OutlineItem>>,
) -> (r: Result<PreparedRequest, RequestError>)
    requires
        cursor <= snapshot.text.len(),
        crate::text::fits_in_memory(snapshot.text@),
        forall|i: int|
            0 <= i < event_prompts@.len() ==> crate::text::fits_in_memory(#[trigger] event_prompts@[i]@),
    ensures
        settings.zeta_url is None <==> r == Err::<PreparedRequest, RequestError>(
            RequestError::ConfigMissing,
        ),
        r matches Ok(p) ==> {
            let t = snapshot.text@;
            let path = path_or_untitled(path_view(*full_path));
            &&& settings.zeta_url matches Some(u) && p.server_url@ == u@
            &&& (p.editable_start as int, p.editable_end as int) == grown(
                t,
                line_start(t, cursor as int),
                line_end(t, cursor as int),
                MAX_REWRITE_TOKENS as nat,
            )
            &&& p.body.input_excerpt@ == excerpt_prompt(
                t,
                path,
                cursor as int,
                grown_up(t, p.editable_start as int, MAX_CONTEXT_TOKENS as nat),
                p.editable_start as int,
                p.editable_end as int,
            )
            &&& p.body.speculated_output matches Some(s) && s@ == region_block(
                t.subrange(p.editable_start as int, p.editable_end as int),
            )
            &&& p.body.input_events@ == events_text(
                texts_view(event_prompts@),
                MAX_EVENT_TOKENS as nat,
                Seq::empty(),
            )
            &&& p.body.outline matches Some(o) && o@ == outline_prompt(
                path_or_untitled(path_view(snapshot.path)),
                match outline {
                    Some(v) => Some(v@),
                    None => None,
                },
            )
            &&& !p.body.can_collect_data
        },
{
    let url = match &settings.zeta_url {
        Some(u) => u.clone(),
        None => {
            return Err(RequestError::ConfigMissing);
        },
    };
    let path = match full_path {
        Some(p) => p.clone(),
        None => crate::text::chars_of(UNTITLED),
    };
    let excerpt = excerpt_for_cursor_position(
        cursor,
        &path,
        &snapshot.text,
        MAX_REWRITE_TOKENS,
        MAX_CONTEXT_TOKENS,
    );
    let input_events = prompt_for_events(event_prompts, MAX_EVENT_TOKENS);
    let input_outline = prompt_for_outline(&snapshot.path, outline);
    Ok(
        PreparedRequest {
            server_url: url,
            body: PredictEditsBody {
                input_events,
                input_excerpt: excerpt.prompt,
                speculated_output: Some(excerpt.speculated_output),
                outline: Some(input_outline),
                can_collect_data: false,
            },
            editable_start: excerpt.editable_start,
            editable_end: excerpt.editable_end,
        },
    )
}

/// What to do with an answer of the prediction service.
#[derive(Clone, Copy, Debug, PartialEq, Eq, Structural)]
pub enum HttpStep {
    /// Success: read the body as the prediction.
    ReadBody,
    /// The access token expired: refresh it and send the request again.
    RetryWithFreshToken,
    /// The request failed.
    Fail,
}

/// Decides on an answer with HTTP status `status`, where `token_expired` says whether it
/// carries the token-expired header and `did_retry` whether the request was already
/// sent again once.
pub fn http_step(status: u16, token_expired: bool, did_retry: bool) -> (r: HttpStep)
    ensures
        200 <= status < 300 ==> r == HttpStep::ReadBody,
        !(200 <= status < 300) && token_expired && !did_retry ==> r == HttpStep::RetryWithFreshToken,
        !(200 <= status < 300) && !(token_expired && !did_retry) ==> r == HttpStep::Fail,
{
    if 200 <= status && status < 300 {
        HttpStep::ReadBody
    } else if !did_retry && token_expired {
        HttpStep::RetryWithFreshToken
    } else {
        HttpStep::Fail
    }
}

/// Turns the edits of a reply, computed against `request_snapshot`, into a prediction for
/// the buffer as it is now, `current`, which the user's edits `user_edits` reached from
/// the request's snapshot. `None` when the user's typing invalidated the prediction.
pub fn process_completion_response(
    id: InlineCompletionId,
    path: Vec<char>,
    edits: Vec<Edit>,
    request_snapshot: BufferSnapshot,
    current: BufferSnapshot,
    user_edits: &Vec<UserEdit>,
) -> (r: Option<InlineCompletion>)
    ensures
        ({
            let asked = InlineCompletion { id, path, edits, snapshot: request_snapshot };
            match asked.interpolated_to(current.text@, user_edits@) {
                None => r is None,
                Some(es) => r matches Some(c) && c.id == id && c.path == path && edits_view(
                    c.edits@,
                ) == es && c.snapshot == current && c.wf(),
            }
        }),
{
    let asked = InlineCompletion { id, path, edits, snapshot: request_snapshot };
    match asked.interpolate(&current.text, user_edits) {
        Some(rebased) => Some(
            InlineCompletion { id, path: asked.path, edits: rebased, snapshot: current },
        ),
        None => None,
    }
}

/// Key of the flag that records that the user dismissed the edit prediction upsell.
pub const DISMISSED_UPSELL_KEY: &'static str = "dismissed-edit-predict-upsell";

/// Key under which older versions recorded the user's data collection choice, made
/// when accepting edit prediction.
pub const DATA_COLLECTION_CHOICE_KEY: &'static str = "zed_predict_data_collection_choice";

/// Whether the upsell counts as dismissed, given whether each key holds a value (a key
/// that could not be read holds none): a recorded data collection choice means the user
/// already went through the onboarding.
pub fn upsell_dismissed(data_collection_choice_present: bool, dismissed_flag_present: bool) -> (r:
    bool)
    ensures
        r == (data_collection_choice_present || dismissed_flag_present),
{
    if data_collection_choice_present {
        return true;
    }
    dismissed_flag_present
}

/// Announces that the server asked for a fresh access token.
#[derive(Clone, Copy, Debug, PartialEq, Eq)]
pub struct RefreshLlmTokenEvent;

#[verifier::external_type_specification]
#[verifier::external_body]
pub struct ExAnyhowError(anyhow::Error);

/// An error that may be passed over in silence, or one to handle as usual.
#[derive(Debug)]
pub enum SilentError {
    /// The operation failed, but the failure is to be ignored.
    Silent,
    /// The operation failed, and the error is to be handled as usual.
    Error { error: anyhow::Error },
}

impl From<anyhow::Error> for SilentError {
    fn from(err: anyhow::Error) -> (r: SilentError) {
        SilentError::Error { error: err }
    }
}

impl vstd::std_specs::convert::FromSpecImpl<anyhow::Error> for SilentError {
    open spec fn obeys_from_spec() -> bool {
        true
    }

    open spec fn from_spec(err: anyhow::Error) -> SilentError {
        SilentError::Error { error: err }
    }
}

/// The diagnostic groups to send: all of them where every one could be serialized,
/// none otherwise.
pub fn collect_diagnostic_groups<T>(groups: Vec<Option<T>>) -> (r: Option<Vec<T>>)
    ensures
        (forall|i: int| 0 <= i < groups@.len() ==> #[trigger] groups@[i] is Some) <==> r is Some,
        r matches Some(v) ==> v@.len() == groups@.len() && forall|i: int|
            0 <= i < v@.len() ==> groups@[i] == Some(#[trigger] v@[i]),
{
    let ghost all = groups@;
    let mut rest = groups;
    let mut out: Vec<T> = Vec::new();
    let mut reversed: Vec<T> = Vec::new();
    // Taken from the back, then put back in order.
    while rest.len() > 0
        invariant
            all == groups@,
            rest@ == all.take(rest@.len() as int),
            reversed@.len() == all.len() - rest@.len(),
            forall|i: int|
                0 <= i < reversed@.len() ==> all[all.len() - 1 - i] == Some(#[trigger] reversed@[i]),
        decreases rest@.len(),
    {
        let item = rest.pop();
        match item {
            Some(Some(v)) => {
                reversed.push(v);
            },
            Some(None) => {
                assert(all[rest@.len() as int] is None);
                assert(groups@[rest@.len() as int] is None);
                return None;
            },
            None => {},
        }
        assert(rest@ =~= all.take(rest@.len() as int));
    }
    while reversed.len() > 0
        invariant
            all == groups@,
            out@.len() + reversed@.len() == all.len(),
            forall|i: int|
                0 <= i < reversed@.len() ==> all[all.len() - 1 - i] == Some(#[trigger] reversed@[i]),
            forall|i: int| 0 <= i < out@.len() ==> all[i] == Some(#[trigger] out@[i]),
        decreases reversed@.len(),
    {
        let k = reversed.len() - 1;
        assert(all[all.len() - 1 - k] == Some(reversed@[k as int]));
        match reversed.pop() {
            Some(v) => {
                out.push(v);
            },
            None => {},
        }
    }
    assert forall|i: int| 0 <= i < all.len() implies #[trigger] all[i] is Some by {
        assert(all[i] == Some(out@[i]));
    }
    Some(out)
}

} // verus!
