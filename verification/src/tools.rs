//! The tools offered to the model, the Responses request payload, the
//! developer message that lists the Workers, and the checks on a Worker tool
//! call before it is queued.
use vstd::prelude::*;
use crate::context::{
    lemma_replay_positions, replay_pos, replayable, replayable_at, sanitize_item_spec,
    sanitize_responses_input, sanitize_spec, tool_pair_spec,
};
use crate::error::ApiError;
use crate::json::{
    Json, JsonV, get_spec, lemma_array_view, lemma_get_absent, lemma_get_at, lemma_get_update_other,
    lemma_member_index_unique, lemma_object_view, member_index, member_views, views,
};
use crate::protocol::join_lines;
use crate::text::{chars_of, decimal, decimal_u64, extend_str, str_equals, string_of, trim, trimmed_chars};

verus! {

pub open spec fn typed(t: Seq<char>) -> JsonV {
    JsonV::Object(seq![("type"@, JsonV::Str(t))])
}

pub open spec fn described(t: Seq<char>, d: Seq<char>) -> JsonV {
    JsonV::Object(seq![("type"@, JsonV::Str(t)), ("description"@, JsonV::Str(d))])
}

pub open spec fn strs(s: Seq<Seq<char>>) -> Seq<JsonV> {
    s.map_values(|x: Seq<char>| JsonV::Str(x))
}

/// A function tool whose parameters are an object with exactly the given
/// properties, of which `required` must be present.
pub open spec fn function_tool(
    name: Seq<char>,
    description: Seq<char>,
    properties: Seq<(Seq<char>, JsonV)>,
    required: Seq<Seq<char>>,
) -> JsonV {
    JsonV::Object(
        seq![
            ("type"@, JsonV::Str("function"@)),
            ("name"@, JsonV::Str(name)),
            ("description"@, JsonV::Str(description)),
            (
                "parameters"@,
                JsonV::Object(
                    seq![
                        ("type"@, JsonV::Str("object"@)),
                        ("properties"@, JsonV::Object(properties)),
                        ("required"@, JsonV::Array(strs(required))),
                        ("additionalProperties"@, JsonV::Bool(false)),
                    ],
                ),
            ),
        ],
    )
}

pub open spec fn worker_id_property() -> (Seq<char>, JsonV) {
    ("worker_id"@, described("string"@, "Exact available Worker ID."@))
}

pub open spec fn bash_tool() -> JsonV {
    function_tool(
        "bash"@,
        "Run a shell command on the user's selected Cybion Worker."@,
        seq![worker_id_property(), ("command"@, typed("string"@))],
        seq!["worker_id"@, "command"@],
    )
}

pub open spec fn browser_tool() -> JsonV {
    function_tool(
        "browser_control"@,
        "Control an isolated browser on the user's Cybion Worker."@,
        seq![
            worker_id_property(),
            ("action"@, typed("string"@)),
            ("url"@, typed("string"@)),
            ("selector"@, typed("string"@)),
            ("text"@, typed("string"@)),
        ],
        seq!["worker_id"@, "action"@],
    )
}

pub open spec fn computer_tool() -> JsonV {
    function_tool(
        "computer_use"@,
        "Perform a user-device computer action through the Cybion Worker."@,
        seq![
            worker_id_property(),
            ("action"@, typed("string"@)),
            ("x"@, typed("number"@)),
            ("y"@, typed("number"@)),
            ("text"@, typed("string"@)),
        ],
        seq!["worker_id"@, "action"@],
    )
}

/// The tools that run on a Worker.
pub open spec fn worker_tools_spec() -> Seq<JsonV> {
    seq![bash_tool(), browser_tool(), computer_tool()]
}

/// The tools that the upstream runs itself.
pub open spec fn native_tools_spec() -> Seq<JsonV> {
    seq![typed("web_search"@), typed("image_generation"@)]
}

pub open spec fn responses_tools_spec(include_worker_tools: bool, include_native_tools: bool) -> Seq<
    JsonV,
> {
    (if include_worker_tools {
        worker_tools_spec()
    } else {
        Seq::empty()
    }) + (if include_native_tools {
        native_tools_spec()
    } else {
        Seq::empty()
    })
}

fn text(s: &str) -> (r: Json)
    ensures
        r@ == JsonV::Str(s@),
{
    Json::Str(s.to_owned())
}

fn object(members: Vec<(String, Json)>) -> (r: Json)
    ensures
        r@ == JsonV::Object(member_views(members@)),
{
    proof {
        lemma_object_view(members);
    }
    Json::Object(members)
}

fn typed_exec(t: &str) -> (r: Json)
    ensures
        r@ == typed(t@),
{
    let mut m: Vec<(String, Json)> = Vec::new();
    m.push(("type".to_owned(), text(t)));
    assert(member_views(m@) =~= seq![("type"@, JsonV::Str(t@))]);
    object(m)
}

fn described_exec(t: &str, d: &str) -> (r: Json)
    ensures
        r@ == described(t@, d@),
{
    let mut m: Vec<(String, Json)> = Vec::new();
    m.push(("type".to_owned(), text(t)));
    m.push(("description".to_owned(), text(d)));
    assert(member_views(m@) =~= seq![("type"@, JsonV::Str(t@)), ("description"@, JsonV::Str(d@))]);
    object(m)
}

fn string_list(items: &[&str]) -> (r: Json)
    ensures
        r@ == JsonV::Array(strs(items@.map_values(|s: &str| s@))),
{
    let mut v: Vec<Json> = Vec::new();
    let mut i: usize = 0;
    while i < items.len()
        invariant
            i <= items@.len(),
            views(v@) == strs(items@.map_values(|s: &str| s@)).take(i as int),
        decreases items@.len() - i,
    {
        let ghost before = views(v@);
        v.push(text(items[i]));
        assert(views(v@) =~= before.push(JsonV::Str(items@[i as int]@)));
        assert(strs(items@.map_values(|s: &str| s@)).take(i + 1) =~= strs(
            items@.map_values(|s: &str| s@),
        ).take(i as int).push(JsonV::Str(items@[i as int]@)));
        i += 1;
    }
    assert(strs(items@.map_values(|s: &str| s@)).take(i as int) =~= strs(
        items@.map_values(|s: &str| s@),
    ));
    proof {
        lemma_array_view(v);
    }
    Json::Array(v)
}

fn function_tool_exec(
    name: &str,
    description: &str,
    properties: Vec<(String, Json)>,
    required: &[&str],
) -> (r: Json)
    ensures
        r@ == function_tool(
            name@,
            description@,
            member_views(properties@),
            required@.map_values(|s: &str| s@),
        ),
{
    let ghost pv = member_views(properties@);
    let props = object(properties);
    let req = string_list(required);
    let mut p: Vec<(String, Json)> = Vec::new();
    p.push(("type".to_owned(), text("object")));
    p.push(("properties".to_owned(), props));
    p.push(("required".to_owned(), req));
    p.push(("additionalProperties".to_owned(), Json::Bool(false)));
    assert(member_views(p@) =~= seq![
        ("type"@, JsonV::Str("object"@)),
        ("properties"@, JsonV::Object(pv)),
        ("required"@, JsonV::Array(strs(required@.map_values(|s: &str| s@)))),
        ("additionalProperties"@, JsonV::Bool(false)),
    ]);
    let params = object(p);
    let ghost parv = params@;
    let mut t: Vec<(String, Json)> = Vec::new();
    t.push(("type".to_owned(), text("function")));
    t.push(("name".to_owned(), text(name)));
    t.push(("description".to_owned(), text(description)));
    t.push(("parameters".to_owned(), params));
    assert(member_views(t@) =~= seq![
        ("type"@, JsonV::Str("function"@)),
        ("name"@, JsonV::Str(name@)),
        ("description"@, JsonV::Str(description@)),
        ("parameters"@, parv),
    ]);
    object(t)
}

fn worker_id_property_exec() -> (r: (String, Json))
    ensures
        (r.0@, r.1@) == worker_id_property(),
{
    ("worker_id".to_owned(), described_exec("string", "Exact available Worker ID."))
}

fn bash_tool_exec() -> (r: Json)
    ensures
        r@ == bash_tool(),
{
    let mut props: Vec<(String, Json)> = Vec::new();
    props.push(worker_id_property_exec());
    props.push(("command".to_owned(), typed_exec("string")));
    assert(member_views(props@) =~= seq![worker_id_property(), ("command"@, typed("string"@))]);
    let required = ["worker_id", "command"];
    assert(required@.map_values(|s: &str| s@) =~= seq!["worker_id"@, "command"@]);
    function_tool_exec(
        "bash",
        "Run a shell command on the user's selected Cybion Worker.",
        props,
        &required,
    )
}

fn browser_tool_exec() -> (r: Json)
    ensures
        r@ == browser_tool(),
{
    let mut props: Vec<(String, Json)> = Vec::new();
    props.push(worker_id_property_exec());
    props.push(("action".to_owned(), typed_exec("string")));
    props.push(("url".to_owned(), typed_exec("string")));
    props.push(("selector".to_owned(), typed_exec("string")));
    props.push(("text".to_owned(), typed_exec("string")));
    assert(member_views(props@) =~= seq![
        worker_id_property(),
        ("action"@, typed("string"@)),
        ("url"@, typed("string"@)),
        ("selector"@, typed("string"@)),
        ("text"@, typed("string"@)),
    ]);
    let required = ["worker_id", "action"];
    assert(required@.map_values(|s: &str| s@) =~= seq!["worker_id"@, "action"@]);
    function_tool_exec(
        "browser_control",
        "Control an isolated browser on the user's Cybion Worker.",
        props,
        &required,
    )
}

fn computer_tool_exec() -> (r: Json)
    ensures
        r@ == computer_tool(),
{
    let mut props: Vec<(String, Json)> = Vec::new();
    props.push(worker_id_property_exec());
    props.push(("action".to_owned(), typed_exec("string")));
    props.push(("x".to_owned(), typed_exec("number")));
    props.push(("y".to_owned(), typed_exec("number")));
    props.push(("text".to_owned(), typed_exec("string")));
    assert(member_views(props@) =~= seq![
        worker_id_property(),
        ("action"@, typed("string"@)),
        ("x"@, typed("number"@)),
        ("y"@, typed("number"@)),
        ("text"@, typed("string"@)),
    ]);
    let required = ["worker_id", "action"];
    assert(required@.map_values(|s: &str| s@) =~= seq!["worker_id"@, "action"@]);
    function_tool_exec(
        "computer_use",
        "Perform a user-device computer action through the Cybion Worker.",
        props,
        &required,
    )
}

fn push_worker_tools(v: &mut Vec<Json>)
    ensures
        views(final(v)@) == views(old(v)@) + worker_tools_spec(),
{
    let ghost before = views(v@);
    v.push(bash_tool_exec());
    v.push(browser_tool_exec());
    v.push(computer_tool_exec());
    assert(views(v@) =~= before + worker_tools_spec());
}

fn push_native_tools(v: &mut Vec<Json>)
    ensures
        views(final(v)@) == views(old(v)@) + native_tools_spec(),
{
    let ghost before = views(v@);
    v.push(typed_exec("web_search"));
    v.push(typed_exec("image_generation"));
    assert(views(v@) =~= before + native_tools_spec());
}

/// The Worker tools: `bash`, `browser_control` and `computer_use`, each
/// requiring the exact `worker_id`.
pub fn worker_tools() -> (r: Json)
    ensures
        r@ == JsonV::Array(worker_tools_spec()),
{
    let mut v: Vec<Json> = Vec::new();
    push_worker_tools(&mut v);
    assert(views(v@) =~= worker_tools_spec());
    proof {
        lemma_array_view(v);
    }
    Json::Array(v)
}

/// The upstream's own tools: web search and image generation.
pub fn native_tools() -> (r: Json)
    ensures
        r@ == JsonV::Array(native_tools_spec()),
{
    let mut v: Vec<Json> = Vec::new();
    push_native_tools(&mut v);
    assert(views(v@) =~= native_tools_spec());
    proof {
        lemma_array_view(v);
    }
    Json::Array(v)
}

/// The tools of a request: the Worker tools when a Worker is available,
/// then the native tools when they are enabled.
pub fn responses_tools(include_worker_tools: bool, include_native_tools: bool) -> (r: Json)
    ensures
        r@ == JsonV::Array(responses_tools_spec(include_worker_tools, include_native_tools)),
{
    let mut v: Vec<Json> = Vec::new();
    if include_worker_tools {
        push_worker_tools(&mut v);
    }
    let ghost mid = views(v@);
    if include_native_tools {
        push_native_tools(&mut v);
    }
    assert(views(v@) =~= responses_tools_spec(include_worker_tools, include_native_tools));
    proof {
        lemma_array_view(v);
    }
    Json::Array(v)
}

pub open spec fn opt_json(o: Option<Json>) -> Option<JsonV> {
    match o {
        Some(p) => Some(p@),
        None => None,
    }
}

/// The request input: the developer prefix, when there is one, goes first;
/// a single non-array input becomes the second element of an array.
pub open spec fn prefixed_input(prefix: Option<JsonV>, input: JsonV) -> JsonV {
    match prefix {
        Some(p) => match input {
            JsonV::Array(items) => JsonV::Array(seq![p] + items),
            other => JsonV::Array(seq![p, other]),
        },
        None => input,
    }
}

/// `max_output_tokens` as JSON: an integer, written out when it exceeds `i64`.
pub open spec fn count_json(n: usize) -> JsonV {
    if n <= i64::MAX {
        JsonV::Int(n as i64)
    } else {
        JsonV::Number(decimal(n as nat))
    }
}

/// The members of a Responses request before its input is sanitized.
pub open spec fn payload_members(
    model: Seq<char>,
    reasoning_effort: Option<Seq<char>>,
    service_tier_fast: bool,
    input: JsonV,
    include_worker_tools: bool,
    include_native_tools: bool,
    max_output_tokens: Option<usize>,
    prefix: Option<JsonV>,
) -> Seq<(Seq<char>, JsonV)> {
    seq![
        ("model"@, JsonV::Str(model)),
        ("input"@, prefixed_input(prefix, input)),
        ("store"@, JsonV::Bool(false)),
        ("stream"@, JsonV::Bool(true)),
    ] + (match reasoning_effort {
        Some(e) => seq![
            (
                "reasoning"@,
                JsonV::Object(seq![("effort"@, JsonV::Str(e)), ("summary"@, JsonV::Str("auto"@))]),
            ),
            ("include"@, JsonV::Array(seq![JsonV::Str("reasoning.encrypted_content"@)])),
        ],
        None => Seq::empty(),
    }) + (if service_tier_fast {
        seq![("service_tier"@, JsonV::Str("priority"@))]
    } else {
        Seq::empty()
    }) + (if include_worker_tools || include_native_tools {
        seq![
            (
                "tools"@,
                JsonV::Array(responses_tools_spec(include_worker_tools, include_native_tools)),
            ),
            ("tool_choice"@, JsonV::Str("auto"@)),
        ]
    } else {
        seq![("tool_choice"@, JsonV::Str("none"@))]
    }) + (match max_output_tokens {
        Some(n) => seq![("max_output_tokens"@, count_json(n))],
        None => Seq::empty(),
    })
}

/// The member list of a payload, cut into its five parts.
pub open spec fn payload_parts(
    model: Seq<char>,
    reasoning_effort: Option<Seq<char>>,
    service_tier_fast: bool,
    input: JsonV,
    include_worker_tools: bool,
    include_native_tools: bool,
    max_output_tokens: Option<usize>,
    prefix: Option<JsonV>,
) -> Seq<Seq<(Seq<char>, JsonV)>> {
    seq![
        seq![
            ("model"@, JsonV::Str(model)),
            ("input"@, prefixed_input(prefix, input)),
            ("store"@, JsonV::Bool(false)),
            ("stream"@, JsonV::Bool(true)),
        ],
        match reasoning_effort {
            Some(e) => seq![
                (
                    "reasoning"@,
                    JsonV::Object(seq![("effort"@, JsonV::Str(e)), ("summary"@, JsonV::Str("auto"@))]),
                ),
                ("include"@, JsonV::Array(seq![JsonV::Str("reasoning.encrypted_content"@)])),
            ],
            None => Seq::empty(),
        },
        if service_tier_fast {
            seq![("service_tier"@, JsonV::Str("priority"@))]
        } else {
            Seq::empty()
        },
        if include_worker_tools || include_native_tools {
            seq![
                (
                    "tools"@,
                    JsonV::Array(responses_tools_spec(include_worker_tools, include_native_tools)),
                ),
                ("tool_choice"@, JsonV::Str("auto"@)),
            ]
        } else {
            seq![("tool_choice"@, JsonV::Str("none"@))]
        },
        match max_output_tokens {
            Some(n) => seq![("max_output_tokens"@, count_json(n))],
            None => Seq::empty(),
        },
    ]
}

/// Where each key of a payload stands.
spec fn key_layout(m: Seq<(Seq<char>, JsonV)>, rl: int, sl: int, tl: int) -> bool {
    &&& m.len() >= 5 + rl + sl + tl - 1
    &&& m[0].0 == "model"@ && m[1].0 == "input"@ && m[2].0 == "store"@ && m[3].0 == "stream"@
    &&& forall|i: int|
        4 <= i < 4 + rl ==> (#[trigger] m[i]).0 == "reasoning"@ || m[i].0 == "include"@
    &&& forall|i: int| 4 + rl <= i < 4 + rl + sl ==> (#[trigger] m[i]).0 == "service_tier"@
    &&& 0 <= rl && 0 <= sl <= 1 && 1 <= tl <= 2
    &&& (tl == 2 ==> m[4 + rl + sl].0 == "tools"@)
    &&& m[4 + rl + sl + tl - 1].0 == "tool_choice"@
    &&& forall|i: int| 4 + rl + sl + tl <= i < m.len() ==> (#[trigger] m[i]).0 == "max_output_tokens"@
}

proof fn lemma_payload_layout(
    model: Seq<char>,
    reasoning_effort: Option<Seq<char>>,
    service_tier_fast: bool,
    input: JsonV,
    include_worker_tools: bool,
    include_native_tools: bool,
    max_output_tokens: Option<usize>,
    prefix: Option<JsonV>,
)
    ensures
        ({
            let parts = payload_parts(
                model,
                reasoning_effort,
                service_tier_fast,
                input,
                include_worker_tools,
                include_native_tools,
                max_output_tokens,
                prefix,
            );
            let m = payload_members(
                model,
                reasoning_effort,
                service_tier_fast,
                input,
                include_worker_tools,
                include_native_tools,
                max_output_tokens,
                prefix,
            );
            &&& m == parts[0] + parts[1] + parts[2] + parts[3] + parts[4]
            &&& key_layout(m, parts[1].len() as int, parts[2].len() as int, parts[3].len() as int)
            &&& m[1].1 == prefixed_input(prefix, input)
        }),
{
    let parts = payload_parts(
        model,
        reasoning_effort,
        service_tier_fast,
        input,
        include_worker_tools,
        include_native_tools,
        max_output_tokens,
        prefix,
    );
    let m = payload_members(
        model,
        reasoning_effort,
        service_tier_fast,
        input,
        include_worker_tools,
        include_native_tools,
        max_output_tokens,
        prefix,
    );
    assert(m =~= parts[0] + parts[1] + parts[2] + parts[3] + parts[4]);
}

/// The distinct lengths and first letters that tell the keys apart.
proof fn lemma_key_literals()
    ensures
        "model"@.len() == 5 && "input"@.len() == 5 && "store"@.len() == 5 && "tools"@.len() == 5,
        "stream"@.len() == 6 && "reasoning"@.len() == 9 && "include"@.len() == 7,
        "service_tier"@.len() == 12 && "tool_choice"@.len() == 11 && "max_output_tokens"@.len() == 17,
        "model"@ != "input"@ && "model"@ != "store"@ && "input"@ != "store"@,
        "model"@ != "tools"@ && "input"@ != "tools"@ && "store"@ != "tools"@,
{
    reveal_strlit("model");
    reveal_strlit("input");
    reveal_strlit("store");
    reveal_strlit("stream");
    reveal_strlit("reasoning");
    reveal_strlit("include");
    reveal_strlit("service_tier");
    reveal_strlit("tools");
    reveal_strlit("tool_choice");
    reveal_strlit("max_output_tokens");
    assert("model"@[0] != "input"@[0] && "model"@[0] != "store"@[0] && "input"@[0] != "store"@[0]);
    assert("model"@[0] != "tools"@[0] && "input"@[0] != "tools"@[0] && "store"@[1] != "tools"@[1]);
}

/// The member `key` of a payload, read where its layout puts it.
proof fn lemma_payload_get(m: Seq<(Seq<char>, JsonV)>, rl: int, sl: int, tl: int)
    requires
        key_layout(m, rl, sl, tl),
        0 <= rl,
        0 <= sl <= 1,
        1 <= tl <= 2,
    ensures
        get_spec(JsonV::Object(m), "model"@) == Some(m[0].1),
        get_spec(JsonV::Object(m), "store"@) == Some(m[2].1),
        get_spec(JsonV::Object(m), "stream"@) == Some(m[3].1),
        get_spec(JsonV::Object(m), "tool_choice"@) == Some(m[4 + rl + sl + tl - 1].1),
        tl == 2 ==> get_spec(JsonV::Object(m), "tools"@) == Some(m[4 + rl + sl].1),
        sl == 1 ==> get_spec(JsonV::Object(m), "service_tier"@) == Some(m[4 + rl].1),
        m.len() > 4 + rl + sl + tl ==> get_spec(JsonV::Object(m), "max_output_tokens"@) == Some(
            m[4 + rl + sl + tl].1,
        ),
{
    lemma_key_literals();
    let tc = 4 + rl + sl + tl - 1;
    assert(member_index(m, "model"@, 0));
    lemma_get_at(m, "model"@, 0);
    assert(member_index(m, "store"@, 2));
    lemma_get_at(m, "store"@, 2);
    assert(member_index(m, "stream"@, 3));
    lemma_get_at(m, "stream"@, 3);
    assert forall|j: int| 0 <= j < tc implies (#[trigger] m[j]).0 != "tool_choice"@ by {
        if j < 4 + rl + sl {
        } else {
            assert(j == 4 + rl + sl && tl == 2);
        }
    }
    assert(member_index(m, "tool_choice"@, tc));
    lemma_get_at(m, "tool_choice"@, tc);
    if tl == 2 {
        assert(member_index(m, "tools"@, 4 + rl + sl));
        lemma_get_at(m, "tools"@, 4 + rl + sl);
    }
    if sl == 1 {
        assert(member_index(m, "service_tier"@, 4 + rl));
        lemma_get_at(m, "service_tier"@, 4 + rl);
    }
    if m.len() > 4 + rl + sl + tl {
        assert(member_index(m, "max_output_tokens"@, 4 + rl + sl + tl));
        lemma_get_at(m, "max_output_tokens"@, 4 + rl + sl + tl);
    }
}

/// Keys that a payload leaves out.
proof fn lemma_payload_absent(m: Seq<(Seq<char>, JsonV)>, rl: int, sl: int, tl: int)
    requires
        key_layout(m, rl, sl, tl),
    ensures
        tl == 1 ==> get_spec(JsonV::Object(m), "tools"@) is None,
        sl == 0 ==> get_spec(JsonV::Object(m), "service_tier"@) is None,
{
    lemma_key_literals();
    if tl == 1 {
        assert forall|i: int| 0 <= i < m.len() implies #[trigger] m[i].0 != "tools"@ by {
            if i < 4 {
            } else if i < 4 + rl {
            } else if i < 4 + rl + sl {
            } else if i == 4 + rl + sl {
            } else {
            }
        }
        lemma_get_absent(m, "tools"@);
    }
    if sl == 0 {
        assert forall|i: int| 0 <= i < m.len() implies #[trigger] m[i].0 != "service_tier"@ by {
            if i < 4 {
            } else if i < 4 + rl {
            } else if i < 4 + rl + tl - 1 {
                assert(tl == 2 && i == 4 + rl);
            } else if i == 4 + rl + tl - 1 {
            } else {
            }
        }
        lemma_get_absent(m, "service_tier"@);
    }
}

/// Sanitizing a payload whose `input` is its second member changes no other
/// member.
proof fn lemma_sanitize_other(m: Seq<(Seq<char>, JsonV)>, key: Seq<char>)
    requires
        m.len() >= 2,
        m[0].0 != "input"@,
        m[1].0 == "input"@,
        key != "input"@,
    ensures
        get_spec(sanitize_spec(JsonV::Object(m)), key) == get_spec(JsonV::Object(m), key),
{
    assert(member_index(m, "input"@, 1));
    let k = choose|k: int| member_index(m, "input"@, k);
    lemma_member_index_unique(m, "input"@, k, 1);
    match m[1].1 {
        JsonV::Array(items) => {
            lemma_get_update_other(
                m,
                1,
                ("input"@, JsonV::Array(replayable(items).map_values(|v: JsonV| sanitize_item_spec(v)))),
                key,
            );
        },
        _ => {},
    }
}

/// A developer prefix that is no tool item stays first in a sanitized input.
proof fn lemma_sanitize_prefix(m: Seq<(Seq<char>, JsonV)>, d: JsonV, xs: Seq<JsonV>)
    requires
        m.len() >= 2,
        m[0].0 != "input"@,
        m[1].0 == "input"@,
        m[1].1 == JsonV::Array(seq![d] + xs),
        tool_pair_spec(d) is None,
    ensures
        get_spec(sanitize_spec(JsonV::Object(m)), "input"@) matches Some(JsonV::Array(items))
            && items.len() > 0 && items[0] == sanitize_item_spec(d),
{
    let items = seq![d] + xs;
    assert(member_index(m, "input"@, 1));
    let k = choose|k: int| member_index(m, "input"@, k);
    lemma_member_index_unique(m, "input"@, k, 1);
    let out = replayable(items).map_values(|v: JsonV| sanitize_item_spec(v));
    let u = m.update(1, ("input"@, JsonV::Array(out)));
    assert(sanitize_spec(JsonV::Object(m)) == JsonV::Object(u));
    assert(member_index(u, "input"@, 1));
    lemma_get_at(u, "input"@, 1);
    assert(items[0] == d);
    assert(replayable_at(items, 0));
    let n = items.len() as int;
    lemma_replay_positions(items, n);
    let k0 = choose|k0: int| 0 <= k0 < replayable(items).len() && replay_pos(items, n, k0) == 0;
    if k0 > 0 {
        assert(replay_pos(items, n, 0) < replay_pos(items, n, k0));
    }
    assert(replayable(items)[0] == items[0]);
}

/// What a Responses request asks for: the model, never stored, streamed;
/// tools offered exactly when Workers or native tools are included, and
/// `tool_choice` `none` otherwise; the output budget when one is given; the
/// priority tier exactly when the fast tier is asked for; and a developer
/// prefix that is no tool item comes first in the input.
pub proof fn lemma_payload_members(
    model: Seq<char>,
    reasoning_effort: Option<Seq<char>>,
    service_tier_fast: bool,
    input: JsonV,
    include_worker_tools: bool,
    include_native_tools: bool,
    max_output_tokens: Option<usize>,
    prefix: Option<JsonV>,
)
    ensures
        ({
            let p = sanitize_spec(
                JsonV::Object(
                    payload_members(
                        model,
                        reasoning_effort,
                        service_tier_fast,
                        input,
                        include_worker_tools,
                        include_native_tools,
                        max_output_tokens,
                        prefix,
                    ),
                ),
            );
            &&& get_spec(p, "model"@) == Some(JsonV::Str(model))
            &&& get_spec(p, "store"@) == Some(JsonV::Bool(false))
            &&& get_spec(p, "stream"@) == Some(JsonV::Bool(true))
            &&& (get_spec(p, "tool_choice"@) == Some(JsonV::Str("none"@)) <==> !(
            include_worker_tools || include_native_tools))
            &&& (include_worker_tools || include_native_tools ==> get_spec(p, "tools"@) == Some(
                JsonV::Array(responses_tools_spec(include_worker_tools, include_native_tools)),
            ))
            &&& (!(include_worker_tools || include_native_tools) ==> get_spec(p, "tools"@) is None)
            &&& (max_output_tokens matches Some(n) ==> get_spec(p, "max_output_tokens"@) == Some(
                count_json(n),
            ))
            &&& (get_spec(p, "service_tier"@) == Some(JsonV::Str("priority"@))
                <==> service_tier_fast)
            &&& (match prefix {
                Some(d) => input is Array && tool_pair_spec(d) is None ==> (get_spec(p, "input"@) matches Some(
                    JsonV::Array(items),
                ) && items.len() > 0 && items[0] == sanitize_item_spec(d)),
                None => true,
            })
        }),
{
    let parts = payload_parts(
        model,
        reasoning_effort,
        service_tier_fast,
        input,
        include_worker_tools,
        include_native_tools,
        max_output_tokens,
        prefix,
    );
    let m = payload_members(
        model,
        reasoning_effort,
        service_tier_fast,
        input,
        include_worker_tools,
        include_native_tools,
        max_output_tokens,
        prefix,
    );
    lemma_payload_layout(
        model,
        reasoning_effort,
        service_tier_fast,
        input,
        include_worker_tools,
        include_native_tools,
        max_output_tokens,
        prefix,
    );
    let rl = parts[1].len() as int;
    let sl = parts[2].len() as int;
    let tl = parts[3].len() as int;
    lemma_key_literals();
    reveal_strlit("none");
    reveal_strlit("auto");
    reveal_strlit("priority");
    reveal_strlit("stream");
    reveal_strlit("tool_choice");
    reveal_strlit("service_tier");
    reveal_strlit("max_output_tokens");
    reveal_strlit("input");
    assert("input"@ != "stream"@ && "input"@ != "tool_choice"@ && "input"@ != "service_tier"@);
    assert("input"@ != "max_output_tokens"@);
    assert("none"@ != "auto"@) by {
        assert("none"@[0] != "auto"@[0]);
    }
    lemma_payload_get(m, rl, sl, tl);
    lemma_payload_absent(m, rl, sl, tl);
    let p = sanitize_spec(JsonV::Object(m));
    lemma_sanitize_other(m, "model"@);
    lemma_sanitize_other(m, "store"@);
    lemma_sanitize_other(m, "stream"@);
    lemma_sanitize_other(m, "tool_choice"@);
    lemma_sanitize_other(m, "tools"@);
    lemma_sanitize_other(m, "service_tier"@);
    lemma_sanitize_other(m, "max_output_tokens"@);
    let c = m[4 + rl + sl + tl - 1].1;
    assert(m == parts[0] + parts[1] + parts[2] + parts[3] + parts[4]);
    if include_worker_tools || include_native_tools {
        assert(c == JsonV::Str("auto"@));
        assert(m[4 + rl + sl].1 == JsonV::Array(
            responses_tools_spec(include_worker_tools, include_native_tools),
        ));
    } else {
        assert(c == JsonV::Str("none"@));
    }
    if service_tier_fast {
        assert(m[4 + rl].1 == JsonV::Str("priority"@));
    }
    if let Some(n) = max_output_tokens {
        assert(m[4 + rl + sl + tl].1 == count_json(n));
    }
    if let Some(d) = prefix {
        if let JsonV::Array(xs) = input {
            if tool_pair_spec(d) is None {
                lemma_sanitize_prefix(m, d, xs);
            }
        }
    }
}

fn count_exec(n: usize) -> (r: Json)
    ensures
        r@ == count_json(n),
{
    let w = n as u64;
    if w <= i64::MAX as u64 {
        Json::Int(w as i64)
    } else {
        Json::Number(string_of(decimal_u64(w).as_slice()))
    }
}

fn prefixed_exec(prefix: Option<Json>, input: Json) -> (r: Json)
    ensures
        r@ == prefixed_input(
            match prefix {
                Some(p) => Some(p@),
                None => None,
            },
            input@,
        ),
{
    match prefix {
        Some(p) => {
            let ghost pv = p@;
            match input {
                Json::Array(items) => {
                    let ghost iv = views(items@);
                    proof {
                        lemma_array_view(items);
                    }
                    let mut v: Vec<Json> = Vec::new();
                    v.push(p);
                    let mut rest = items;
                    let mut k: usize = 0;
                    let ghost orig = rest@;
                    while k < rest.len()
                        invariant
                            k <= rest@.len(),
                            rest@ == orig,
                            views(orig) == iv,
                            views(v@) == seq![pv] + iv.take(k as int),
                        decreases rest@.len() - k,
                    {
                        let item = rest[k].copy();
                        let ghost before = views(v@);
                        v.push(item);
                        assert(views(v@) =~= before.push(iv[k as int]));
                        assert(iv.take(k + 1) =~= iv.take(k as int).push(iv[k as int]));
                        k += 1;
                    }
                    assert(iv.take(k as int) =~= iv);
                    proof {
                        lemma_array_view(v);
                    }
                    Json::Array(v)
                },
                other => {
                    let ghost ov = other@;
                    let mut v: Vec<Json> = Vec::new();
                    v.push(p);
                    v.push(other);
                    assert(views(v@) =~= seq![pv, ov]);
                    proof {
                        lemma_array_view(v);
                    }
                    Json::Array(v)
                },
            }
        },
        None => input,
    }
}

/// The body of a Responses request: model, input (developer prefix first),
/// never stored, streamed; reasoning with summaries when an effort is set;
/// the priority tier on request; the tools, or `tool_choice` `none` so that
/// replayed history never becomes a tool call; the output budget; and the
/// input sanitized for replay.
pub fn responses_payload_with_prefix(
    model: &str,
    reasoning_effort: Option<&str>,
    service_tier_fast: bool,
    input: Json,
    include_worker_tools: bool,
    include_native_tools: bool,
    max_output_tokens: Option<usize>,
    developer_prefix: Option<Json>,
) -> (r: Json)
    ensures
        r@ == sanitize_spec(
            JsonV::Object(
                payload_members(
                    model@,
                    match reasoning_effort {
                        Some(e) => Some(e@),
                        None => None,
                    },
                    service_tier_fast,
                    input@,
                    include_worker_tools,
                    include_native_tools,
                    max_output_tokens,
                    match developer_prefix {
                        Some(p) => Some(p@),
                        None => None,
                    },
                ),
            ),
        ),
{
    let ghost iv = input@;
    let ghost pv = opt_json(developer_prefix);
    let ghost ev = match reasoning_effort {
        Some(e) => Some(e@),
        None => None,
    };
    let full_input = prefixed_exec(developer_prefix, input);
    let mut m: Vec<(String, Json)> = Vec::new();
    m.push(("model".to_owned(), text(model)));
    m.push(("input".to_owned(), full_input));
    m.push(("store".to_owned(), Json::Bool(false)));
    m.push(("stream".to_owned(), Json::Bool(true)));
    let ghost base = member_views(m@);
    assert(base =~= seq![
        ("model"@, JsonV::Str(model@)),
        ("input"@, prefixed_input(pv, iv)),
        ("store"@, JsonV::Bool(false)),
        ("stream"@, JsonV::Bool(true)),
    ]);
    if let Some(e) = reasoning_effort {
        let mut r: Vec<(String, Json)> = Vec::new();
        r.push(("effort".to_owned(), text(e)));
        r.push(("summary".to_owned(), text("auto")));
        assert(member_views(r@) =~= seq![("effort"@, JsonV::Str(e@)), ("summary"@, JsonV::Str("auto"@))]);
        let reasoning = object(r);
        let mut inc: Vec<Json> = Vec::new();
        inc.push(text("reasoning.encrypted_content"));
        assert(views(inc@) =~= seq![JsonV::Str("reasoning.encrypted_content"@)]);
        proof {
            lemma_array_view(inc);
        }
        let ghost b = member_views(m@);
        let ghost rv = reasoning@;
        m.push(("reasoning".to_owned(), reasoning));
        m.push(("include".to_owned(), Json::Array(inc)));
        assert(member_views(m@) =~= b + seq![
            ("reasoning"@, rv),
            ("include"@, JsonV::Array(seq![JsonV::Str("reasoning.encrypted_content"@)])),
        ]);
    }
    let ghost m1 = member_views(m@);
    if service_tier_fast {
        m.push(("service_tier".to_owned(), text("priority")));
        assert(member_views(m@) =~= m1 + seq![("service_tier"@, JsonV::Str("priority"@))]);
    }
    let ghost m2 = member_views(m@);
    if include_worker_tools || include_native_tools {
        let tools = responses_tools(include_worker_tools, include_native_tools);
        let ghost tv = tools@;
        m.push(("tools".to_owned(), tools));
        m.push(("tool_choice".to_owned(), text("auto")));
        assert(member_views(m@) =~= m2 + seq![("tools"@, tv), ("tool_choice"@, JsonV::Str("auto"@))]);
    } else {
        m.push(("tool_choice".to_owned(), text("none")));
        assert(member_views(m@) =~= m2 + seq![("tool_choice"@, JsonV::Str("none"@))]);
    }
    let ghost m3 = member_views(m@);
    if let Some(n) = max_output_tokens {
        let c = count_exec(n);
        let ghost cv = c@;
        m.push(("max_output_tokens".to_owned(), c));
        assert(member_views(m@) =~= m3 + seq![("max_output_tokens"@, cv)]);
    }
    assert(member_views(m@) =~= payload_members(
        model@,
        ev,
        service_tier_fast,
        iv,
        include_worker_tools,
        include_native_tools,
        max_output_tokens,
        pv,
    ));
    let mut payload = object(m);
    sanitize_responses_input(&mut payload);
    payload
}

/// A request without reasoning options, tier or prefix; the tools are all
/// offered or none.
pub fn responses_payload(model: &str, input: Json, include_tools: bool, max_output_tokens: Option<
    usize,
>) -> (r: Json)
    ensures
        r@ == sanitize_spec(
            JsonV::Object(
                payload_members(
                    model@,
                    None,
                    false,
                    input@,
                    include_tools,
                    include_tools,
                    max_output_tokens,
                    None,
                ),
            ),
        ),
{
    responses_payload_with_prefix(
        model,
        None,
        false,
        input,
        include_tools,
        include_tools,
        max_output_tokens,
        None,
    )
}

/// A Worker that is online, as the model is told of it.
pub struct WorkerSnapshot {
    pub id: String,
    pub label: String,
    pub status: String,
    pub last_seen_at: Option<i64>,
    pub resource: Option<Json>,
}

pub open spec fn worker_line(id: Seq<char>, label: Seq<char>) -> Seq<char> {
    "- worker_id: "@ + id + " ("@ + label + ")"@
}

pub open spec fn worker_lines(workers: Seq<WorkerSnapshot>) -> Seq<Seq<char>> {
    workers.map_values(|w: WorkerSnapshot| worker_line(w.id@, w.label@))
}

/// The developer message listing the available Workers by id and label.
pub open spec fn worker_prefix_content(workers: Seq<WorkerSnapshot>) -> Seq<char> {
    "Cybion Workers:\n"@ + join_lines(worker_lines(workers))
        + "\n\nEvery Worker tool call must include the exact worker_id from this list; never choose a Worker implicitly."@
}

pub fn worker_developer_prefix(workers: &[WorkerSnapshot]) -> (r: Json)
    ensures
        r@ == JsonV::Object(
            seq![
                ("role"@, JsonV::Str("developer"@)),
                ("content"@, JsonV::Str(worker_prefix_content(workers@))),
            ],
        ),
{
    let ghost lines = worker_lines(workers@);
    let mut body: Vec<char> = Vec::new();
    let mut i: usize = 0;
    while i < workers.len()
        invariant
            i <= workers@.len(),
            lines == worker_lines(workers@),
            body@ == join_lines(lines.take(i as int)),
        decreases workers@.len() - i,
    {
        if i > 0 {
            body.push('\n');
        }
        let ghost before = body@;
        extend_str(&mut body, "- worker_id: ");
        extend_str(&mut body, workers[i].id.as_str());
        extend_str(&mut body, " (");
        extend_str(&mut body, workers[i].label.as_str());
        extend_str(&mut body, ")");
        proof {
            let t = lines.take(i + 1);
            assert(t.drop_last() =~= lines.take(i as int));
            assert(t.last() == worker_line(workers@[i as int].id@, workers@[i as int].label@));
            if i == 0 {
                assert(body@ =~= join_lines(t));
            } else {
                assert(body@ =~= join_lines(t));
            }
        }
        i += 1;
    }
    assert(lines.take(i as int) =~= lines);
    let mut content = chars_of("Cybion Workers:\n");
    let ghost c0 = content@;
    let mut k: usize = 0;
    while k < body.len()
        invariant
            k <= body@.len(),
            content@ == c0 + body@.take(k as int),
        decreases body@.len() - k,
    {
        content.push(body[k]);
        assert(body@.take(k + 1) =~= body@.take(k as int).push(body@[k as int]));
        k += 1;
    }
    assert(body@.take(k as int) =~= body@);
    extend_str(
        &mut content,
        "\n\nEvery Worker tool call must include the exact worker_id from this list; never choose a Worker implicitly.",
    );
    let text_value = string_of(content.as_slice());
    let ghost cv = text_value@;
    let mut m: Vec<(String, Json)> = Vec::new();
    m.push(("role".to_owned(), text("developer")));
    m.push(("content".to_owned(), Json::Str(text_value)));
    assert(member_views(m@) =~= seq![("role"@, JsonV::Str("developer"@)), ("content"@, JsonV::Str(cv))]);
    object(m)
}

pub open spec fn worker_tool_name(name: Seq<char>) -> bool {
    name == "bash"@ || name == "browser_control"@ || name == "computer_use"@
}

/// The checks on a Worker tool call before it is queued. `worker_id` is the
/// call's arguments read as an object with a `worker_id` string and
/// `arguments` the arguments read as JSON, each with the parser's message
/// when reading failed.
pub open spec fn prepare_spec(
    name: Seq<char>,
    namespace: Option<Seq<char>>,
    worker_id: Result<Seq<char>, Seq<char>>,
    arguments: Result<JsonV, Seq<char>>,
) -> Result<(Seq<char>, JsonV), Seq<char>> {
    if (namespace matches Some(n) && n != "functions"@ && n.len() != 0) || !worker_tool_name(name) {
        Err("unsupported Worker tool: "@ + name)
    } else {
        match worker_id {
            Err(m) => Err("Worker tool arguments must contain an explicit worker_id: "@ + m),
            Ok(w) => if trim(w).len() == 0 {
                Err("Worker tool arguments must include worker_id"@)
            } else {
                match arguments {
                    Err(m) => Err("invalid Worker arguments: "@ + m),
                    Ok(a) => Ok((w, a)),
                }
            },
        }
    }
}

fn prefixed(prefix: &str, rest: &str) -> (r: String)
    ensures
        r@ == prefix@ + rest@,
{
    let mut v = chars_of(prefix);
    extend_str(&mut v, rest);
    string_of(v.as_slice())
}

pub fn prepare_worker_arguments(
    name: &str,
    namespace: Option<&str>,
    worker_id: Result<String, String>,
    arguments: Result<Json, String>,
) -> (r: Result<(String, Json), String>)
    ensures
        (match r {
            Ok((w, a)) => prepare_spec(
                name@,
                match namespace {
                    Some(n) => Some(n@),
                    None => None,
                },
                match worker_id {
                    Ok(x) => Ok(x@),
                    Err(m) => Err(m@),
                },
                match arguments {
                    Ok(x) => Ok(x@),
                    Err(m) => Err(m@),
                },
            ) == Ok::<(Seq<char>, JsonV), Seq<char>>((w@, a@)),
            Err(m) => prepare_spec(
                name@,
                match namespace {
                    Some(n) => Some(n@),
                    None => None,
                },
                match worker_id {
                    Ok(x) => Ok(x@),
                    Err(m) => Err(m@),
                },
                match arguments {
                    Ok(x) => Ok(x@),
                    Err(m) => Err(m@),
                },
            ) == Err::<(Seq<char>, JsonV), Seq<char>>(m@),
        }),
{
    let foreign = match namespace {
        Some(n) => !str_equals(n, "functions") && n.unicode_len() != 0,
        None => false,
    };
    if foreign || !(str_equals(name, "bash") || str_equals(name, "browser_control") || str_equals(
        name,
        "computer_use",
    )) {
        return Err(prefixed("unsupported Worker tool: ", name));
    }
    let w = match worker_id {
        Err(m) => {
            return Err(
                prefixed("Worker tool arguments must contain an explicit worker_id: ", m.as_str()),
            );
        },
        Ok(w) => w,
    };
    if trimmed_chars(w.as_str()).len() == 0 {
        return Err("Worker tool arguments must include worker_id".to_owned());
    }
    match arguments {
        Err(m) => Err(prefixed("invalid Worker arguments: ", m.as_str())),
        Ok(a) => Ok((w, a)),
    }
}

/// The output item type that answers a tool call of type `item_type`; other
/// items call no Worker tool.
pub fn tool_output_type(item_type: &str) -> (r: Option<String>)
    ensures
        (match r {
            Some(t) => (item_type@ == "function_call"@ && t@ == "function_call_output"@) || (
            item_type@ == "custom_tool_call"@ && t@ == "custom_tool_call_output"@),
            None => item_type@ != "function_call"@ && item_type@ != "custom_tool_call"@,
        }),
{
    if str_equals(item_type, "function_call") {
        Some("function_call_output".to_owned())
    } else if str_equals(item_type, "custom_tool_call") {
        Some("custom_tool_call_output".to_owned())
    } else {
        None
    }
}

/// A tool search the client must run is answered at once with the Worker
/// tools.
pub fn answers_tool_search(execution: &str, call_id: Option<&str>) -> (r: bool)
    ensures
        r == (execution@ == "client"@ && call_id is Some),
{
    str_equals(execution, "client") && call_id.is_some()
}

/// A failure to queue a Worker call is answered to the model, so that it can
/// correct the call, when it is a client error other than a cancellation;
/// anything else ends the turn.
pub fn answered_to_model(error: &ApiError) -> (r: bool)
    ensures
        r == (400 <= error.status < 500 && error.kind != crate::error::ApiErrorKind::Cancelled),
{
    error.is_client_error() && !error.is_cancelled()
}

} // verus!
