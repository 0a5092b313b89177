//! Reading Responses API results: the visible text of an answer, the token
//! usage it reports, context-window overflow and upstream error details.
use vstd::prelude::*;
use crate::json::{
    get_spec, lemma_array_view, lemma_get_at, member_index, pointer_spec, str_member, views, Json,
    JsonV,
};
use crate::text::{chars_of, extend_chars, string_of, trim};

verus! {

/// Text of the `output_text` parts of a message's content.
pub open spec fn content_text(cs: Seq<JsonV>) -> Seq<char>
    decreases cs.len(),
{
    if cs.len() == 0 {
        Seq::empty()
    } else {
        content_text(cs.drop_last()) + (if str_member(cs.last(), "type"@) == Some("output_text"@)
            && str_member(cs.last(), "text"@) is Some {
            str_member(cs.last(), "text"@)->0
        } else {
            Seq::empty()
        })
    }
}

/// Visible text of one output item: the content text of a message.
pub open spec fn item_text(v: JsonV) -> Seq<char> {
    if str_member(v, "type"@) == Some("message"@) {
        match get_spec(v, "content"@) {
            Some(JsonV::Array(cs)) => content_text(cs),
            _ => Seq::empty(),
        }
    } else {
        Seq::empty()
    }
}

/// Visible text of a list of output items, concatenated.
pub open spec fn output_text_spec(items: Seq<JsonV>) -> Seq<char>
    decreases items.len(),
{
    if items.len() == 0 {
        Seq::empty()
    } else {
        output_text_spec(items.drop_last()) + item_text(items.last())
    }
}

/// The text of output items read together is the text of the first ones
/// followed by the text of the rest: no item's text is lost, repeated or
/// reordered.
pub proof fn lemma_output_text_concat(a: Seq<JsonV>, b: Seq<JsonV>)
    ensures
        output_text_spec(a + b) == output_text_spec(a) + output_text_spec(b),
    decreases b.len(),
{
    if b.len() == 0 {
        assert(a + b =~= a);
    } else {
        lemma_output_text_concat(a, b.drop_last());
        assert((a + b).drop_last() =~= a + b.drop_last());
        assert((a + b).last() == b.last());
    }
}

/// The text of a single output item is that item's text.
pub proof fn lemma_output_text_single(x: JsonV)
    ensures
        output_text_spec(seq![x]) == item_text(x),
{
    let one = seq![x];
    assert(one.drop_last() =~= Seq::<JsonV>::empty());
    assert(one.last() == x);
    assert(output_text_spec(one.drop_last()) == Seq::<char>::empty());
    assert(Seq::<char>::empty() + item_text(x) =~= item_text(x));
}

/// The text of message content read together is the text of the first parts
/// followed by the text of the rest.
pub proof fn lemma_content_text_concat(a: Seq<JsonV>, b: Seq<JsonV>)
    ensures
        content_text(a + b) == content_text(a) + content_text(b),
    decreases b.len(),
{
    if b.len() == 0 {
        assert(a + b =~= a);
    } else {
        lemma_content_text_concat(a, b.drop_last());
        assert((a + b).drop_last() =~= a + b.drop_last());
        assert((a + b).last() == b.last());
    }
}

/// An `output_text` content part holding `text`.
pub open spec fn output_text_part(text: Seq<char>) -> JsonV {
    JsonV::Object(seq![("type"@, JsonV::Str("output_text"@)), ("text"@, JsonV::Str(text))])
}

/// A message item whose content is the given parts.
pub open spec fn message_item(parts: Seq<JsonV>) -> JsonV {
    JsonV::Object(seq![("type"@, JsonV::Str("message"@)), ("content"@, JsonV::Array(parts))])
}

/// A message shows the text of each of its `output_text` parts, in order: a
/// message with one such part shows exactly its text, and one with several
/// shows the texts one after another. An item that is not a message shows
/// nothing.
pub proof fn lemma_message_text(parts: Seq<JsonV>, text: Seq<char>, x: JsonV)
    ensures
        content_text(seq![output_text_part(text)]) == text,
        item_text(message_item(parts)) == content_text(parts),
        item_text(message_item(seq![output_text_part(text)])) == text,
        str_member(x, "type"@) != Some("message"@) ==> item_text(x) == Seq::<char>::empty(),
        str_member(x, "type"@) != Some("output_text"@) ==> content_text(seq![x]) == Seq::<
            char,
        >::empty(),
{
    assert(seq![x].drop_last() =~= Seq::<JsonV>::empty());
    assert(seq![x].last() == x);
    assert(Seq::<char>::empty() + Seq::<char>::empty() =~= Seq::<char>::empty());
    reveal_strlit("type");
    reveal_strlit("text");
    reveal_strlit("content");
    reveal_strlit("output_text");
    reveal_strlit("message");
    assert("type"@ != "text"@) by {
        assert("type"@[1] != "text"@[1]);
    }
    assert("type"@ != "content"@) by {
        assert("type"@.len() != "content"@.len());
    }
    let pm = seq![("type"@, JsonV::Str("output_text"@)), ("text"@, JsonV::Str(text))];
    assert(member_index(pm, "type"@, 0));
    assert(member_index(pm, "text"@, 1));
    lemma_get_at(pm, "type"@, 0);
    lemma_get_at(pm, "text"@, 1);
    assert(str_member(output_text_part(text), "type"@) == Some("output_text"@));
    assert(str_member(output_text_part(text), "text"@) == Some(text));
    let one = seq![output_text_part(text)];
    assert(one.drop_last() =~= Seq::<JsonV>::empty());
    assert(one.last() == output_text_part(text));
    assert(content_text(one.drop_last()) == Seq::<char>::empty());
    assert(Seq::<char>::empty() + text =~= text);
    assert(content_text(one) =~= text);
    let mm = seq![("type"@, JsonV::Str("message"@)), ("content"@, JsonV::Array(parts))];
    assert(member_index(mm, "type"@, 0));
    assert(member_index(mm, "content"@, 1));
    lemma_get_at(mm, "type"@, 0);
    lemma_get_at(mm, "content"@, 1);
    let mo = seq![("type"@, JsonV::Str("message"@)), ("content"@, JsonV::Array(one))];
    assert(member_index(mo, "type"@, 0));
    assert(member_index(mo, "content"@, 1));
    lemma_get_at(mo, "type"@, 0);
    lemma_get_at(mo, "content"@, 1);
}

fn content_text_of(cs: &[Json]) -> (r: Vec<char>)
    ensures
        r@ == content_text(views(cs@)),
{
    let ghost cv = views(cs@);
    let mut out: Vec<char> = Vec::new();
    let mut i: usize = 0;
    assert(cv.take(0) =~= Seq::<JsonV>::empty());
    while i < cs.len()
        invariant
            i <= cs@.len(),
            cv == views(cs@),
            out@ == content_text(cv.take(i as int)),
        decreases cs@.len() - i,
    {
        assert(cv.take(i + 1).drop_last() =~= cv.take(i as int));
        assert(cv.take(i + 1).last() == cs@[i as int]@);
        if cs[i].str_member_is("type", "output_text") {
            match cs[i].str_member("text") {
                Some(t) => {
                    let tc = chars_of(t.as_str());
                    extend_chars(&mut out, tc.as_slice());
                },
                None => {},
            }
        }
        i += 1;
        assert(out@ =~= content_text(cv.take(i as int)));
    }
    assert(cv.take(i as int) =~= cv);
    out
}

fn item_text_of(item: &Json) -> (r: Vec<char>)
    ensures
        r@ == item_text(item@),
{
    if !item.str_member_is("type", "message") {
        return Vec::new();
    }
    match item.get("content") {
        Some(Json::Array(cs)) => {
            proof {
                lemma_array_view(*cs);
            }
            content_text_of(cs.as_slice())
        },
        _ => Vec::new(),
    }
}

/// The visible assistant text of the output items.
pub fn output_text(items: &[Json]) -> (r: String)
    ensures
        r@ == output_text_spec(views(items@)),
{
    let ghost iv = views(items@);
    let mut out: Vec<char> = Vec::new();
    let mut i: usize = 0;
    assert(iv.take(0) =~= Seq::<JsonV>::empty());
    while i < items.len()
        invariant
            i <= items@.len(),
            iv == views(items@),
            out@ == output_text_spec(iv.take(i as int)),
        decreases items@.len() - i,
    {
        assert(iv.take(i + 1).drop_last() =~= iv.take(i as int));
        assert(iv.take(i + 1).last() == items@[i as int]@);
        let t = item_text_of(&items[i]);
        extend_chars(&mut out, t.as_slice());
        i += 1;
    }
    assert(iv.take(i as int) =~= iv);
    string_of(out.as_slice())
}

/// The text of a response: its `output_text` when present, otherwise the
/// visible text of its `output` items when that is not empty.
pub open spec fn response_text_spec(v: JsonV) -> Option<Seq<char>> {
    match str_member(v, "output_text"@) {
        Some(t) => Some(t),
        None => match get_spec(v, "output"@) {
            Some(JsonV::Array(items)) => if output_text_spec(items).len() > 0 {
                Some(output_text_spec(items))
            } else {
                None
            },
            _ => None,
        },
    }
}

pub fn response_text(response: &Json) -> (r: Option<String>)
    ensures
        match (r, response_text_spec(response@)) {
            (None, None) => true,
            (Some(x), Some(y)) => x@ == y,
            _ => false,
        },
{
    match response.str_member("output_text") {
        Some(t) => {
            return Some(t.clone());
        },
        None => {},
    }
    match response.get("output") {
        Some(Json::Array(items)) => {
            proof {
                lemma_array_view(*items);
            }
            let text = output_text(items.as_slice());
            let c = chars_of(text.as_str());
            if c.len() > 0 {
                Some(text)
            } else {
                None
            }
        },
        _ => None,
    }
}

/// An integer at a path of object keys.
pub open spec fn int_at(v: JsonV, path: Seq<Seq<char>>) -> Option<i64> {
    match pointer_spec(v, path) {
        Some(JsonV::Int(n)) => Some(n),
        _ => None,
    }
}

/// Input, output and cached input tokens that a response reports.
pub open spec fn usage_spec(v: JsonV) -> (Option<i64>, Option<i64>, Option<i64>) {
    (
        int_at(v, seq!["usage"@, "input_tokens"@]),
        int_at(v, seq!["usage"@, "output_tokens"@]),
        int_at(v, seq!["usage"@, "input_tokens_details"@, "cached_tokens"@]),
    )
}

fn int_at_path(v: &Json, path: &[&str]) -> (r: Option<i64>)
    ensures
        r == int_at(v@, path@.map_values(|s: &str| s@)),
{
    match v.pointer(path) {
        Some(Json::Int(n)) => Some(*n),
        _ => None,
    }
}

pub fn response_usage(response: &Json) -> (r: (Option<i64>, Option<i64>, Option<i64>))
    ensures
        r == usage_spec(response@),
{
    let a = ["usage", "input_tokens"];
    let b = ["usage", "output_tokens"];
    let c = ["usage", "input_tokens_details", "cached_tokens"];
    proof {
        assert(a@.map_values(|s: &str| s@) =~= seq!["usage"@, "input_tokens"@]);
        assert(b@.map_values(|s: &str| s@) =~= seq!["usage"@, "output_tokens"@]);
        assert(c@.map_values(|s: &str| s@) =~= seq![
            "usage"@,
            "input_tokens_details"@,
            "cached_tokens"@,
        ]);
    }
    (int_at_path(response, &a), int_at_path(response, &b), int_at_path(response, &c))
}

/// The overflow code of a failure: the first of `error.code`,
/// `response.error.code`, `response.incomplete_details.reason` and `code`
/// that exists, if it is a string.
pub open spec fn overflow_code(v: JsonV) -> Option<Seq<char>> {
    let first = if pointer_spec(v, seq!["error"@, "code"@]) is Some {
        pointer_spec(v, seq!["error"@, "code"@])
    } else if pointer_spec(v, seq!["response"@, "error"@, "code"@]) is Some {
        pointer_spec(v, seq!["response"@, "error"@, "code"@])
    } else if pointer_spec(v, seq!["response"@, "incomplete_details"@, "reason"@]) is Some {
        pointer_spec(v, seq!["response"@, "incomplete_details"@, "reason"@])
    } else {
        get_spec(v, "code"@)
    };
    match first {
        Some(JsonV::Str(s)) => Some(s),
        _ => None,
    }
}

/// A failure that reports an exhausted context window.
pub open spec fn context_overflow_spec(v: JsonV) -> bool {
    overflow_code(v) == Some("context_length_exceeded"@) || overflow_code(v) == Some(
        "context_window_exceeded"@,
    )
}

pub fn context_overflow_value(value: &Json) -> (r: bool)
    ensures
        r == context_overflow_spec(value@),
{
    let p1 = ["error", "code"];
    let p2 = ["response", "error", "code"];
    let p3 = ["response", "incomplete_details", "reason"];
    proof {
        assert(p1@.map_values(|s: &str| s@) =~= seq!["error"@, "code"@]);
        assert(p2@.map_values(|s: &str| s@) =~= seq!["response"@, "error"@, "code"@]);
        assert(p3@.map_values(|s: &str| s@) =~= seq![
            "response"@,
            "incomplete_details"@,
            "reason"@,
        ]);
    }
    let first = match value.pointer(&p1) {
        Some(x) => Some(x),
        None => match value.pointer(&p2) {
            Some(x) => Some(x),
            None => match value.pointer(&p3) {
                Some(x) => Some(x),
                None => value.get("code"),
            },
        },
    };
    match first {
        Some(Json::Str(s)) => {
            let c = chars_of(s.as_str());
            let a = chars_of("context_length_exceeded");
            let b = chars_of("context_window_exceeded");
            crate::text::seq_equals(c.as_slice(), a.as_slice()) || crate::text::seq_equals(
                c.as_slice(),
                b.as_slice(),
            )
        },
        _ => false,
    }
}

/// Whether an upstream failure body reports context overflow: the body
/// parsed as one JSON document, or any event payload in it.
pub fn context_overflow_found(body: Option<&Json>, events: &[Json]) -> (r: bool)
    ensures
        r == ((body matches Some(b) && context_overflow_spec(b@)) || exists|i: int|
            0 <= i < events@.len() && context_overflow_spec(#[trigger] events@[i]@)),
{
    if let Some(b) = body {
        if context_overflow_value(b) {
            return true;
        }
    }
    let mut i: usize = 0;
    while i < events.len()
        invariant
            i <= events@.len(),
            forall|j: int| 0 <= j < i ==> !context_overflow_spec(#[trigger] events@[j]@),
        decreases events@.len() - i,
    {
        if context_overflow_value(&events[i]) {
            return true;
        }
        i += 1;
    }
    false
}

/// The message of an upstream failure: `error.message`, else `detail`,
/// else `message` (the first that exists, if it is a non-blank string),
/// else the trimmed body.
pub open spec fn error_detail_spec(body: Seq<char>, parsed: Option<JsonV>) -> Seq<char> {
    let picked = match parsed {
        Some(v) => {
            let first = if pointer_spec(v, seq!["error"@, "message"@]) is Some {
                pointer_spec(v, seq!["error"@, "message"@])
            } else if get_spec(v, "detail"@) is Some {
                get_spec(v, "detail"@)
            } else {
                get_spec(v, "message"@)
            };
            match first {
                Some(JsonV::Str(s)) => if trim(s).len() > 0 {
                    Some(s)
                } else {
                    None
                },
                _ => None,
            }
        },
        None => None,
    };
    match picked {
        Some(s) => s,
        None => trim(body),
    }
}

/// Picks the human-readable detail of an upstream failure; `parsed` is the
/// body read as JSON, when it is JSON.
pub fn upstream_error_detail(body: &str, parsed: Option<&Json>) -> (r: String)
    ensures
        r@ == error_detail_spec(body@, match parsed {
            Some(v) => Some(v@),
            None => None,
        }),
{
    let p1 = ["error", "message"];
    proof {
        assert(p1@.map_values(|s: &str| s@) =~= seq!["error"@, "message"@]);
    }
    if let Some(v) = parsed {
        let first = match v.pointer(&p1) {
            Some(x) => Some(x),
            None => match v.get("detail") {
                Some(x) => Some(x),
                None => v.get("message"),
            },
        };
        if let Some(Json::Str(s)) = first {
            let t = crate::text::trimmed_chars(s.as_str());
            if t.len() > 0 {
                return s.clone();
            }
        }
    }
    let t = crate::text::trimmed_chars(body);
    string_of(t.as_slice())
}

} // verus!
