//! Threads: their per-user defaults, the checks on a new thread or an
//! update, and the thread that is created.
use vstd::prelude::*;
use crate::error::{ApiError, ordinary};
use crate::inputs::{
    label, model_id, optional_title, reasoning_effort, valid_label,
    valid_model_id, valid_reasoning_effort,
};
use crate::text::trim;
use crate::clock::now;
use crate::ids::new_uuid;

verus! {

/// The settings a new thread takes when its creator names none.
pub struct ThreadDefaults {
    pub model: String,
    pub reasoning_effort: String,
    pub service_tier_fast: bool,
}

/// The defaults of a user who saved none.
pub fn default_thread_defaults() -> (d: ThreadDefaults)
    ensures
        d.model@ == "gpt-5.6-terra"@,
        d.reasoning_effort@ == "medium"@,
        !d.service_tier_fast,
{
    ThreadDefaults {
        model: "gpt-5.6-terra".to_owned(),
        reasoning_effort: "medium".to_owned(),
        service_tier_fast: false,
    }
}

/// Saved defaults must name a valid model and reasoning effort; the model is
/// stored trimmed.
pub fn checked_defaults(input: ThreadDefaults) -> (r: Result<ThreadDefaults, ApiError>)
    ensures
        r is Ok <==> valid_model_id(trim(input.model@)) && valid_reasoning_effort(
            input.reasoning_effort@,
        ),
        r matches Ok(d) ==> d.model@ == trim(input.model@) && d.reasoning_effort@
            == input.reasoning_effort@ && d.service_tier_fast == input.service_tier_fast,
        r matches Err(e) ==> e.status == 400,
{
    let model = model_id(input.model)?;
    let effort = reasoning_effort(input.reasoning_effort)?;
    Ok(ThreadDefaults { model, reasoning_effort: effort, service_tier_fast: input.service_tier_fast })
}

/// A thread as the API answers it.
#[derive(Debug)]
pub struct ThreadView {
    pub id: String,
    pub title: String,
    pub model: String,
    pub reasoning_effort: String,
    pub service_tier_fast: bool,
    pub status: String,
    pub created_at: i64,
    pub updated_at: i64,
}

/// What a user asks of a new thread or of a change to one.
pub struct ThreadSettings {
    pub title: Option<String>,
    pub model: Option<String>,
    pub reasoning_effort: Option<String>,
    pub service_tier_fast: Option<bool>,
}

pub open spec fn opt_view(o: Option<String>) -> Option<Seq<char>> {
    match o {
        Some(s) => Some(s@),
        None => None,
    }
}

/// Each given setting is valid: a title of 1-160 visible characters, a model
/// identifier, a reasoning effort.
pub open spec fn settings_valid(s: ThreadSettings) -> bool {
    &&& (opt_view(s.title) matches Some(t) ==> valid_label(trim(t), 160))
    &&& (opt_view(s.model) matches Some(m) ==> valid_model_id(trim(m)))
    &&& (opt_view(s.reasoning_effort) matches Some(e) ==> valid_reasoning_effort(e))
}

/// The settings as stored: title and model trimmed.
pub open spec fn normalized(s: ThreadSettings, n: ThreadSettings) -> bool {
    &&& opt_view(n.title) == (match opt_view(s.title) {
        Some(t) => Some(trim(t)),
        None => None,
    })
    &&& opt_view(n.model) == (match opt_view(s.model) {
        Some(m) => Some(trim(m)),
        None => None,
    })
    &&& opt_view(n.reasoning_effort) == opt_view(s.reasoning_effort)
    &&& n.service_tier_fast == s.service_tier_fast
}

fn checked_settings(s: ThreadSettings) -> (r: Result<ThreadSettings, ApiError>)
    ensures
        r is Ok <==> settings_valid(s),
        r matches Ok(n) ==> normalized(s, n),
        r matches Err(e) ==> e.status == 400,
{
    let title = match s.title {
        Some(t) => Some(label(t.as_str(), "title", 160)?),
        None => None,
    };
    let model = match s.model {
        Some(m) => Some(model_id(m)?),
        None => None,
    };
    let effort = match s.reasoning_effort {
        Some(e) => Some(reasoning_effort(e)?),
        None => None,
    };
    Ok(ThreadSettings {
        title,
        model,
        reasoning_effort: effort,
        service_tier_fast: s.service_tier_fast,
    })
}

/// The thread that `settings` create over `defaults`, with id `id` at `now`.
pub open spec fn created_thread(
    t: ThreadView,
    settings: ThreadSettings,
    defaults: ThreadDefaults,
    id: Seq<char>,
    now: i64,
) -> bool {
    &&& t.id@ == id
    &&& t.title@ == (match opt_view(settings.title) {
        Some(x) => trim(x),
        None => "Untitled thread"@,
    })
    &&& t.model@ == (match opt_view(settings.model) {
        Some(m) => trim(m),
        None => defaults.model@,
    })
    &&& t.reasoning_effort@ == (match opt_view(settings.reasoning_effort) {
        Some(e) => e,
        None => defaults.reasoning_effort@,
    })
    &&& t.service_tier_fast == (match settings.service_tier_fast {
        Some(f) => f,
        None => defaults.service_tier_fast,
    })
    &&& t.status@ == "idle"@
    &&& t.created_at == now && t.updated_at == now
}

/// A new idle thread: the given settings, checked, over the creator's
/// defaults; an unnamed thread is "Untitled thread".
pub fn new_thread(id: String, settings: ThreadSettings, defaults: ThreadDefaults, now: i64) -> (r:
    Result<ThreadView, ApiError>)
    ensures
        r is Ok <==> settings_valid(settings),
        r matches Ok(t) ==> created_thread(t, settings, defaults, id@, now),
        r matches Err(e) ==> e.status == 400,
{
    let title = optional_title(settings.title)?;
    let model = match settings.model {
        Some(m) => Some(model_id(m)?),
        None => None,
    };
    let effort = match settings.reasoning_effort {
        Some(e) => Some(reasoning_effort(e)?),
        None => None,
    };
    Ok(ThreadView {
        id,
        title,
        model: match model {
            Some(m) => m,
            None => defaults.model,
        },
        reasoning_effort: match effort {
            Some(e) => e,
            None => defaults.reasoning_effort,
        },
        service_tier_fast: match settings.service_tier_fast {
            Some(f) => f,
            None => defaults.service_tier_fast,
        },
        status: "idle".to_owned(),
        created_at: now,
        updated_at: now,
    })
}

/// A new idle thread with a fresh random id, created now.
pub fn create_thread(settings: ThreadSettings, defaults: ThreadDefaults) -> (r: Result<
    ThreadView,
    ApiError,
>)
    ensures
        r is Ok <==> settings_valid(settings),
        r matches Ok(t) ==> t.id@.len() == 36 && 0 <= t.created_at <= 10_000_000_000_000
            && created_thread(
            t,
            settings,
            defaults,
            t.id@,
            t.created_at,
        ),
        r matches Err(e) ==> e.status == 400,
{
    let id = new_uuid();
    let now = now();
    new_thread(id, settings, defaults, now)
}

/// A change to a thread: each given setting checked, and at least one given.
pub fn checked_update(settings: ThreadSettings) -> (r: Result<ThreadSettings, ApiError>)
    ensures
        r is Ok <==> settings_valid(settings) && !(settings.title is None && settings.model is None
            && settings.reasoning_effort is None && settings.service_tier_fast is None),
        r matches Ok(n) ==> normalized(settings, n),
        r matches Err(e) ==> e.status == 400,
        settings_valid(settings) && settings.title is None && settings.model is None
            && settings.reasoning_effort is None && settings.service_tier_fast is None ==> (r matches Err(
            e,
        ) && ordinary(e, 400, "thread update is empty"@)),
{
    let s = checked_settings(settings)?;
    if s.title.is_none() && s.model.is_none() && s.reasoning_effort.is_none()
        && s.service_tier_fast.is_none() {
        return Err(ApiError::bad_request("thread update is empty".to_owned()));
    }
    Ok(s)
}

} // verus!
