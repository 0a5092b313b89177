//! Selection of the protocol items that may be replayed to the model: a
//! tool call and its output are replayed only as a unique, ordered pair, and
//! replayed tool output is bounded.
use vstd::prelude::*;
use crate::json::{
    as_str_spec, get_spec, lemma_array_view, lemma_member_index_unique, lemma_object_view,
    member_index, member_views, str_member, views, Json, JsonV,
};
use crate::text::str_equals;
use crate::protocol::{context_tool_output, context_tool_output_spec};

verus! {

/// The family of a tool call / tool output pair.
#[derive(PartialEq, Eq, Structural, Clone, Copy, Debug)]
pub enum ToolKind {
    Function,
    Custom,
    Search,
}

/// The pair family of an item and whether it is the output side.
pub open spec fn tool_pair_spec(v: JsonV) -> Option<(ToolKind, bool)> {
    let t = str_member(v, "type"@);
    let client = str_member(v, "execution"@) == Some("client"@);
    if t == Some("function_call"@) {
        Some((ToolKind::Function, false))
    } else if t == Some("function_call_output"@) {
        Some((ToolKind::Function, true))
    } else if t == Some("custom_tool_call"@) {
        Some((ToolKind::Custom, false))
    } else if t == Some("custom_tool_call_output"@) {
        Some((ToolKind::Custom, true))
    } else if t == Some("tool_search_call"@) && client {
        Some((ToolKind::Search, false))
    } else if t == Some("tool_search_output"@) && client {
        Some((ToolKind::Search, true))
    } else {
        None
    }
}

/// Classifies an item as one side of a tool call pair.
pub fn tool_pair(item: &Json) -> (r: Option<(ToolKind, bool)>)
    ensures
        r == tool_pair_spec(item@),
{
    let client = item.str_member_is("execution", "client");
    if item.str_member_is("type", "function_call") {
        Some((ToolKind::Function, false))
    } else if item.str_member_is("type", "function_call_output") {
        Some((ToolKind::Function, true))
    } else if item.str_member_is("type", "custom_tool_call") {
        Some((ToolKind::Custom, false))
    } else if item.str_member_is("type", "custom_tool_call_output") {
        Some((ToolKind::Custom, true))
    } else if item.str_member_is("type", "tool_search_call") && client {
        Some((ToolKind::Search, false))
    } else if item.str_member_is("type", "tool_search_output") && client {
        Some((ToolKind::Search, true))
    } else {
        None
    }
}

/// `v` is the `out` side of a `kind` pair with the non-empty call ID `id`.
pub open spec fn pair_side(v: JsonV, kind: ToolKind, out: bool, id: Seq<char>) -> bool {
    &&& tool_pair_spec(v) == Some((kind, out))
    &&& str_member(v, "call_id"@) == Some(id)
    &&& id.len() > 0
}

/// Exactly one call and exactly one output share the pair, the call first.
pub open spec fn unique_ordered_pair(items: Seq<JsonV>, kind: ToolKind, id: Seq<char>) -> bool {
    exists|c: int, o: int|
        0 <= c < o < items.len() && pair_side(items[c], kind, false, id) && pair_side(
            items[o],
            kind,
            true,
            id,
        ) && (forall|j: int|
            0 <= j < items.len() && pair_side(#[trigger] items[j], kind, false, id) ==> j == c)
            && (forall|j: int|
            0 <= j < items.len() && pair_side(#[trigger] items[j], kind, true, id) ==> j == o)
}

/// Whether item `i` may be replayed: every non-tool item may; a tool item
/// only when its call ID names a unique call followed by a unique output.
pub open spec fn replayable_at(items: Seq<JsonV>, i: int) -> bool {
    match tool_pair_spec(items[i]) {
        None => true,
        Some((kind, _)) => match str_member(items[i], "call_id"@) {
            None => false,
            Some(id) => unique_ordered_pair(items, kind, id),
        },
    }
}

/// The replayable items among the first `n`, in order.
pub open spec fn replayable_prefix(items: Seq<JsonV>, n: int) -> Seq<JsonV>
    decreases n,
{
    if n <= 0 {
        Seq::empty()
    } else if replayable_at(items, n - 1) {
        replayable_prefix(items, n - 1).push(items[n - 1])
    } else {
        replayable_prefix(items, n - 1)
    }
}

pub open spec fn replayable(items: Seq<JsonV>) -> Seq<JsonV> {
    replayable_prefix(items, items.len() as int)
}

/// Whether `item` is the `out` side of a `kind` pair with call ID `id`.
fn is_pair_side(item: &Json, kind: ToolKind, out: bool, id: &String) -> (r: bool)
    ensures
        r == pair_side(item@, kind, out, id@),
{
    if id.as_str().is_empty() {
        return false;
    }
    match tool_pair(item) {
        Some((k, o)) => k == kind && o == out && item.str_member_is("call_id", id.as_str()),
        None => false,
    }
}

/// How many items (0, 1, or 2 for "more") are the given pair side, and the
/// position of the first.
fn pair_positions(items: &[Json], kind: ToolKind, out: bool, id: &String) -> (r: (u8, usize))
    ensures
        r.0 <= 2,
        r.0 == 0 <==> forall|j: int|
            0 <= j < items@.len() ==> !pair_side(#[trigger] items@[j]@, kind, out, id@),
        r.0 >= 1 ==> r.1 < items@.len() && pair_side(items@[r.1 as int]@, kind, out, id@),
        r.0 == 1 ==> forall|j: int|
            0 <= j < items@.len() && pair_side(#[trigger] items@[j]@, kind, out, id@) ==> j
                == r.1,
        r.0 == 2 ==> exists|a: int, b: int|
            0 <= a < b < items@.len() && pair_side(items@[a]@, kind, out, id@) && pair_side(
                items@[b]@,
                kind,
                out,
                id@,
            ),
{
    let mut count: u8 = 0;
    let mut pos: usize = 0;
    let mut j: usize = 0;
    while j < items.len()
        invariant
            j <= items@.len(),
            count <= 2,
            count == 0 <==> forall|k: int| 0 <= k < j ==> !pair_side(#[trigger] items@[k]@, kind, out, id@),
            count >= 1 ==> pos < j && pair_side(items@[pos as int]@, kind, out, id@),
            count == 1 ==> forall|k: int|
                0 <= k < j && pair_side(#[trigger] items@[k]@, kind, out, id@) ==> k == pos,
            count == 2 ==> exists|a: int, b: int|
                0 <= a < b < j && pair_side(items@[a]@, kind, out, id@) && pair_side(
                    items@[b]@,
                    kind,
                    out,
                    id@,
                ),
        decreases items@.len() - j,
    {
        if is_pair_side(&items[j], kind, out, id) {
            if count == 0 {
                pos = j;
                count = 1;
            } else if count == 1 {
                assert(pair_side(items@[pos as int]@, kind, out, id@));
                count = 2;
            }
        }
        j += 1;
    }
    (count, pos)
}

/// Whether item `i` of `items` may be replayed.
fn replayable_item(items: &[Json], i: usize) -> (r: bool)
    requires
        i < items@.len(),
    ensures
        r == replayable_at(views(items@), i as int),
{
    let ghost vs = views(items@);
    assert(vs[i as int] == items@[i as int]@);
    assert forall|j: int| 0 <= j < items@.len() implies vs[j] == (#[trigger] items@[j])@ by {}
    match tool_pair(&items[i]) {
        None => true,
        Some((kind, _)) => match items[i].str_member("call_id") {
            None => false,
            Some(id) => {
                let (calls, call) = pair_positions(items, kind, false, id);
                let (outputs, output) = pair_positions(items, kind, true, id);
                let keep = calls == 1 && outputs == 1 && call < output;
                proof {
                    if keep {
                        assert(unique_ordered_pair(vs, kind, id@)) by {
                            assert forall|j: int|
                                0 <= j < vs.len() && pair_side(#[trigger] vs[j], kind, false, id@)
                                implies j == call by {
                                assert(vs[j] == items@[j]@);
                            }
                            assert forall|j: int|
                                0 <= j < vs.len() && pair_side(#[trigger] vs[j], kind, true, id@)
                                implies j == output by {
                                assert(vs[j] == items@[j]@);
                            }
                        }
                    } else if unique_ordered_pair(vs, kind, id@) {
                        let (c, o) = choose|c: int, o: int|
                            0 <= c < o < vs.len() && pair_side(vs[c], kind, false, id@)
                                && pair_side(vs[o], kind, true, id@) && (forall|j: int|
                                0 <= j < vs.len() && pair_side(#[trigger] vs[j], kind, false, id@)
                                ==> j == c) && (forall|j: int|
                                0 <= j < vs.len() && pair_side(#[trigger] vs[j], kind, true, id@)
                                ==> j == o);
                        assert(vs[c] == items@[c]@);
                        assert(vs[o] == items@[o]@);
                        if calls == 2 {
                            let (a, b) = choose|a: int, b: int|
                                0 <= a < b < items@.len() && pair_side(items@[a]@, kind, false, id@)
                                    && pair_side(items@[b]@, kind, false, id@);
                            assert(vs[a] == items@[a]@);
                            assert(vs[b] == items@[b]@);
                        }
                        if outputs == 2 {
                            let (a, b) = choose|a: int, b: int|
                                0 <= a < b < items@.len() && pair_side(items@[a]@, kind, true, id@)
                                    && pair_side(items@[b]@, kind, true, id@);
                            assert(vs[a] == items@[a]@);
                            assert(vs[b] == items@[b]@);
                        }
                        if calls == 1 && outputs == 1 {
                            assert(vs[call as int] == items@[call as int]@);
                            assert(vs[output as int] == items@[output as int]@);
                        }
                    }
                }
                keep
            },
        },
    }
}

/// The items that may be replayed to the model, in order.
pub fn replayable_context_items(items: &[Json]) -> (r: Vec<Json>)
    ensures
        views(r@) == replayable(views(items@)),
{
    let ghost vs = views(items@);
    let mut out: Vec<Json> = Vec::new();
    let mut i: usize = 0;
    while i < items.len()
        invariant
            i <= items@.len(),
            vs == views(items@),
            views(out@) == replayable_prefix(vs, i as int),
        decreases items@.len() - i,
    {
        let ghost before = views(out@);
        if replayable_item(items, i) {
            let c = items[i].copy();
            out.push(c);
            assert(views(out@) =~= before.push(vs[i as int]));
        }
        i += 1;
    }
    out
}

/// A replayed tool output item with its output bounded for the context.
pub open spec fn context_item_spec(v: JsonV) -> JsonV {
    let t = str_member(v, "type"@);
    match (v, str_member(v, "output"@)) {
        (JsonV::Object(members), Some(o)) => if t == Some("function_call_output"@) || t == Some(
            "custom_tool_call_output"@,
        ) {
            JsonV::Object(
                members.update(
                    choose|k: int| member_index(members, "output"@, k),
                    ("output"@, JsonV::Str(context_tool_output_spec(o))),
                ),
            )
        } else {
            v
        },
        _ => v,
    }
}

/// Bounds the output of a function or custom tool output item for replay;
/// every other item is unchanged.
pub fn context_tool_output_item(item: &Json) -> (r: Json)
    ensures
        r@ == context_item_spec(item@),
{
    let is_output = item.str_member_is("type", "function_call_output") || item.str_member_is(
        "type",
        "custom_tool_call_output",
    );
    if !is_output {
        return item.copy();
    }
    match item {
        Json::Object(members) => {
            let ghost mv = match item@ {
                JsonV::Object(m) => m,
                _ => Seq::empty(),
            };
            let mut out: Vec<(String, Json)> = Vec::new();
            let mut found: bool = false;
            let mut i: usize = 0;
            let ghost pos: int = 0;
            while i < members.len()
                invariant
                    i <= members@.len(),
                    mv.len() == members@.len(),
                    item@ == JsonV::Object(mv),
                    forall|j: int|
                        0 <= j < members@.len() ==> mv[j] == (#[trigger] members@[j].0@, members@[j].1@),
                    out@.len() == i,
                    !found ==> forall|j: int| 0 <= j < i ==> mv[j].0 != "output"@,
                    found ==> member_index(mv, "output"@, pos) && pos < i,
                    forall|j: int|
                        0 <= j < i ==> (#[trigger] out@[j]).0@ == mv[j].0 && out@[j].1@ == (if found
                            && j == pos && as_str_spec(mv[j].1) is Some {
                            JsonV::Str(context_tool_output_spec(as_str_spec(mv[j].1)->0))
                        } else {
                            mv[j].1
                        }),
                decreases members@.len() - i,
            {
                let is_key = crate::text::str_equals(members[i].0.as_str(), "output");
                let value = if is_key && !found {
                    proof {
                        pos = i as int;
                    }
                    found = true;
                    match &members[i].1 {
                        Json::Str(s) => Json::Str(context_tool_output(s.as_str())),
                        other => other.copy(),
                    }
                } else {
                    members[i].1.copy()
                };
                out.push((members[i].0.clone(), value));
                i += 1;
            }
            let r = Json::Object(out);
            proof {
                if found {
                    let k = choose|k: int| member_index(mv, "output"@, k);
                    crate::json::lemma_member_index_unique(mv, "output"@, k, pos);
                    assert(get_spec(item@, "output"@) == Some(mv[pos].1));
                } else {
                    assert(!exists|k: int| member_index(mv, "output"@, k));
                }
                let rv = match r@ {
                    JsonV::Object(m) => m,
                    _ => Seq::empty(),
                };
                if found && as_str_spec(mv[pos].1) is Some {
                    assert(rv =~= mv.update(
                        pos,
                        ("output"@, JsonV::Str(context_tool_output_spec(as_str_spec(mv[pos].1)->0))),
                    ));
                } else {
                    assert(rv =~= mv);
                }
            }
            r
        },
        _ => item.copy(),
    }
}

/// Members without the ones named `key`.
pub open spec fn without_key(m: Seq<(Seq<char>, JsonV)>, key: Seq<char>) -> Seq<(Seq<char>, JsonV)>
    decreases m.len(),
{
    if m.len() == 0 {
        m
    } else if m.last().0 == key {
        without_key(m.drop_last(), key)
    } else {
        without_key(m.drop_last(), key).push(m.last())
    }
}

/// A replayed item without the fields that the upstream rejects on input:
/// a web search call loses `action`, an image generation call `action` and
/// `size`.
pub open spec fn sanitize_item_spec(v: JsonV) -> JsonV {
    match v {
        JsonV::Object(m) => if str_member(v, "type"@) == Some("web_search_call"@) {
            JsonV::Object(without_key(m, "action"@))
        } else if str_member(v, "type"@) == Some("image_generation_call"@) {
            JsonV::Object(without_key(without_key(m, "action"@), "size"@))
        } else {
            v
        },
        _ => v,
    }
}

/// The payload with its `input` array replaced by the replayable, sanitized
/// items; a payload without an `input` array is unchanged.
pub open spec fn sanitize_spec(p: JsonV) -> JsonV {
    match p {
        JsonV::Object(m) => if exists|k: int| member_index(m, "input"@, k) {
            let k = choose|k: int| member_index(m, "input"@, k);
            match m[k].1 {
                JsonV::Array(items) => JsonV::Object(
                    m.update(
                        k,
                        (
                            "input"@,
                            JsonV::Array(
                                replayable(items).map_values(|v: JsonV| sanitize_item_spec(v)),
                            ),
                        ),
                    ),
                ),
                _ => p,
            }
        } else {
            p
        },
        _ => p,
    }
}

/// Copies the members other than the ones named `key`.
pub fn remove_key(members: &[(String, Json)], key: &str) -> (r: Vec<(String, Json)>)
    ensures
        member_views(r@) == without_key(member_views(members@), key@),
{
    let ghost all = member_views(members@);
    let mut out: Vec<(String, Json)> = Vec::new();
    let mut i: usize = 0;
    assert(all.take(0) =~= Seq::<(Seq<char>, JsonV)>::empty());
    while i < members.len()
        invariant
            i <= members@.len(),
            all == member_views(members@),
            member_views(out@) == without_key(all.take(i as int), key@),
        decreases members@.len() - i,
    {
        let ghost before = member_views(out@);
        assert(all.take(i + 1).drop_last() =~= all.take(i as int));
        assert(all.take(i + 1).last() == all[i as int]);
        assert(all[i as int] == (members@[i as int].0@, members@[i as int].1@));
        if !str_equals(members[i].0.as_str(), key) {
            let e = (members[i].0.clone(), members[i].1.copy());
            out.push(e);
            assert(member_views(out@) =~= before.push(all[i as int]));
        }
        i += 1;
    }
    assert(all.take(i as int) =~= all);
    out
}

/// Removes the input fields that the upstream rejects from one item.
pub fn sanitize_item(item: &Json) -> (r: Json)
    ensures
        r@ == sanitize_item_spec(item@),
{
    let web = item.str_member_is("type", "web_search_call");
    let image = item.str_member_is("type", "image_generation_call");
    match item {
        Json::Object(members) => {
            proof {
                lemma_object_view(*members);
            }
            if web {
                let r = remove_key(members.as_slice(), "action");
                proof {
                    lemma_object_view(r);
                }
                Json::Object(r)
            } else if image {
                let once = remove_key(members.as_slice(), "action");
                let r = remove_key(once.as_slice(), "size");
                proof {
                    lemma_object_view(r);
                }
                Json::Object(r)
            } else {
                item.copy()
            }
        },
        _ => item.copy(),
    }
}

/// The replayable items of `items`, each sanitized.
pub fn sanitize_items(items: &[Json]) -> (r: Vec<Json>)
    ensures
        views(r@) == replayable(views(items@)).map_values(|v: JsonV| sanitize_item_spec(v)),
{
    let kept = replayable_context_items(items);
    let ghost kv = views(kept@);
    let mut out: Vec<Json> = Vec::new();
    let mut k: usize = 0;
    while k < kept.len()
        invariant
            k <= kept@.len(),
            kv == views(kept@),
            out@.len() == k,
            forall|j: int| 0 <= j < k ==> (#[trigger] out@[j])@ == sanitize_item_spec(kv[j]),
        decreases kept@.len() - k,
    {
        assert(kv[k as int] == kept@[k as int]@);
        out.push(sanitize_item(&kept[k]));
        k += 1;
    }
    assert(views(out@) =~= kv.map_values(|v: JsonV| sanitize_item_spec(v)));
    out
}

/// Restricts the `input` of a Responses payload to replayable items and
/// removes the input fields that the upstream rejects.
pub fn sanitize_responses_input(payload: &mut Json)
    ensures
        final(payload)@ == sanitize_spec(old(payload)@),
{
    let result = sanitized(payload);
    *payload = result;
}

fn sanitized(payload: &Json) -> (r: Json)
    ensures
        r@ == sanitize_spec(payload@),
{
    match payload {
        Json::Object(members) => {
            let ghost all = member_views(members@);
            proof {
                lemma_object_view(*members);
            }
            let mut out: Vec<(String, Json)> = Vec::new();
            let mut found = false;
            let ghost pos: int = 0;
            let mut i: usize = 0;
            while i < members.len()
                invariant
                    i <= members@.len(),
                    all == member_views(members@),
                    out@.len() == i,
                    !found ==> forall|j: int| 0 <= j < i ==> all[j].0 != "input"@,
                    found ==> member_index(all, "input"@, pos) && pos < i,
                    forall|j: int|
                        0 <= j < i ==> (#[trigger] member_views(out@)[j]) == (if found && j == pos
                            && all[j].1 is Array {
                            (
                                "input"@,
                                JsonV::Array(
                                    replayable(all[j].1->Array_0).map_values(
                                        |v: JsonV| sanitize_item_spec(v),
                                    ),
                                ),
                            )
                        } else {
                            all[j]
                        }),
                decreases members@.len() - i,
            {
                assert(all[i as int] == (members@[i as int].0@, members@[i as int].1@));
                let is_input = str_equals(members[i].0.as_str(), "input");
                let entry = if is_input && !found {
                    proof {
                        pos = i as int;
                    }
                    found = true;
                    match &members[i].1 {
                        Json::Array(items) => {
                            proof {
                                lemma_array_view(*items);
                            }
                            let cleaned = sanitize_items(items.as_slice());
                            proof {
                                lemma_array_view(cleaned);
                            }
                            Json::Array(cleaned)
                        },
                        other => other.copy(),
                    }
                } else {
                    members[i].1.copy()
                };
                let ghost before_out = member_views(out@);
                out.push((members[i].0.clone(), entry));
                assert(member_views(out@) =~= before_out.push(member_views(out@)[i as int]));
                i += 1;
            }
            proof {
                lemma_object_view(out);
            }
            let r = Json::Object(out);
            proof {
                let rv = member_views(out@);
                if found {
                    let k = choose|k: int| member_index(all, "input"@, k);
                    lemma_member_index_unique(all, "input"@, k, pos);
                    if all[pos].1 is Array {
                        assert(rv =~= all.update(
                            pos,
                            (
                                "input"@,
                                JsonV::Array(
                                    replayable(all[pos].1->Array_0).map_values(
                                        |v: JsonV| sanitize_item_spec(v),
                                    ),
                                ),
                            ),
                        ));
                    } else {
                        assert(rv =~= all);
                    }
                } else {
                    assert(!exists|k: int| member_index(all, "input"@, k));
                    assert(rv =~= all);
                }
            }
            r
        },
        _ => payload.copy(),
    }
}

/// A protocol item as it is replayed: tool outputs are bounded, the rest is
/// replayed unchanged.
pub fn context_protocol_item(item: &Json) -> (r: Json)
    ensures
        r@ == context_item_spec(item@),
{
    context_tool_output_item(item)
}

/// Position, among the first `n` items, of the `k`-th replayed one.
pub open spec fn replay_pos(items: Seq<JsonV>, n: int, k: int) -> int
    decreases n,
{
    if n <= 0 {
        0
    } else if replayable_at(items, n - 1) && k == replayable_prefix(items, n - 1).len() {
        n - 1
    } else {
        replay_pos(items, n - 1, k)
    }
}

/// The replayed items are exactly the replayable ones, in their original
/// order: each kept item is replayable, kept items keep their order, and
/// every replayable item is kept.
pub proof fn lemma_replay_positions(items: Seq<JsonV>, n: int)
    requires
        0 <= n <= items.len(),
    ensures
        forall|k: int|
            0 <= k < replayable_prefix(items, n).len() ==> {
                &&& 0 <= #[trigger] replay_pos(items, n, k) < n
                &&& replayable_at(items, replay_pos(items, n, k))
                &&& replayable_prefix(items, n)[k] == items[replay_pos(items, n, k)]
            },
        forall|a: int, b: int|
            0 <= a < b < replayable_prefix(items, n).len() ==> #[trigger] replay_pos(items, n, a)
                < #[trigger] replay_pos(items, n, b),
        forall|i: int|
            0 <= i < n && #[trigger] replayable_at(items, i) ==> exists|k: int|
                0 <= k < replayable_prefix(items, n).len() && replay_pos(items, n, k) == i,
    decreases n,
{
    if n > 0 {
        lemma_replay_positions(items, n - 1);
        let p = replayable_prefix(items, n - 1);
        if replayable_at(items, n - 1) {
            assert(replayable_prefix(items, n) == p.push(items[n - 1]));
            assert forall|k: int| 0 <= k < replayable_prefix(items, n).len() implies {
                &&& 0 <= #[trigger] replay_pos(items, n, k) < n
                &&& replayable_at(items, replay_pos(items, n, k))
                &&& replayable_prefix(items, n)[k] == items[replay_pos(items, n, k)]
            } by {
                if k < p.len() {
                    assert(replay_pos(items, n, k) == replay_pos(items, n - 1, k));
                } else {
                    assert(replay_pos(items, n, k) == n - 1);
                }
            }
            assert forall|a: int, b: int| 0 <= a < b < replayable_prefix(items, n).len() implies #[trigger] replay_pos(items, n, a)
                < #[trigger] replay_pos(items, n, b) by {
                assert(replay_pos(items, n, a) == replay_pos(items, n - 1, a));
                if b < p.len() {
                    assert(replay_pos(items, n, b) == replay_pos(items, n - 1, b));
                } else {
                    assert(replay_pos(items, n, b) == n - 1);
                }
            }
            assert forall|i: int|
                0 <= i < n && #[trigger] replayable_at(items, i) implies exists|k: int|
                    0 <= k < replayable_prefix(items, n).len() && replay_pos(items, n, k) == i by {
                if i == n - 1 {
                    assert(replay_pos(items, n, p.len() as int) == i);
                } else {
                    let k = choose|k: int| 0 <= k < p.len() && #[trigger] replay_pos(items, n - 1, k) == i;
                    assert(replay_pos(items, n, k) == i);
                }
            }
        } else {
            assert(replayable_prefix(items, n) == p);
            assert forall|k: int| #![all_triggers] replay_pos(items, n, k) == replay_pos(items, n - 1, k) by {}
            assert forall|i: int|
                0 <= i < n && #[trigger] replayable_at(items, i) implies exists|k: int|
                    0 <= k < replayable_prefix(items, n).len() && replay_pos(items, n, k) == i by {
                let k = choose|k: int| 0 <= k < p.len() && #[trigger] replay_pos(items, n - 1, k) == i;
                assert(replay_pos(items, n, k) == i);
            }
        }
    }
}

/// What is replayed is complete: every replayed tool call or output has a
/// call ID, and among the replayed items that ID names exactly one call and
/// exactly one output, the call first.
pub proof fn lemma_replayed_pairs_are_complete(items: Seq<JsonV>, k: int)
    requires
        0 <= k < replayable(items).len(),
        tool_pair_spec(replayable(items)[k]) is Some,
    ensures
        str_member(replayable(items)[k], "call_id"@) is Some,
        unique_ordered_pair(
            replayable(items),
            (tool_pair_spec(replayable(items)[k])->0).0,
            str_member(replayable(items)[k], "call_id"@)->0,
        ),
{
    let n = items.len() as int;
    let r = replayable(items);
    lemma_replay_positions(items, n);
    let i = replay_pos(items, n, k);
    assert(r[k] == items[i]);
    let kind = (tool_pair_spec(items[i])->0).0;
    let id = str_member(items[i], "call_id"@)->0;
    assert(replayable_at(items, i));
    assert(unique_ordered_pair(items, kind, id));
    let (c, o) = choose|c: int, o: int|
        0 <= c < o < items.len() && pair_side(items[c], kind, false, id) && pair_side(
            items[o],
            kind,
            true,
            id,
        ) && (forall|j: int|
            0 <= j < items.len() && pair_side(#[trigger] items[j], kind, false, id) ==> j == c)
            && (forall|j: int|
            0 <= j < items.len() && pair_side(#[trigger] items[j], kind, true, id) ==> j == o);
    assert(replayable_at(items, c));
    assert(replayable_at(items, o));
    let kc = choose|kc: int| 0 <= kc < r.len() && #[trigger] replay_pos(items, n, kc) == c;
    let ko = choose|ko: int| 0 <= ko < r.len() && #[trigger] replay_pos(items, n, ko) == o;
    assert(r[kc] == items[c]);
    assert(r[ko] == items[o]);
    if ko <= kc {
        if ko < kc {
            assert(replay_pos(items, n, ko) < replay_pos(items, n, kc));
        }
    }
    assert(kc < ko);
    assert forall|j: int| 0 <= j < r.len() && pair_side(#[trigger] r[j], kind, false, id) implies j
        == kc by {
        let pj = replay_pos(items, n, j);
        assert(r[j] == items[pj]);
        assert(pj == c);
        if j < kc {
            assert(replay_pos(items, n, j) < replay_pos(items, n, kc));
        } else if j > kc {
            assert(replay_pos(items, n, kc) < replay_pos(items, n, j));
        }
    }
    assert forall|j: int| 0 <= j < r.len() && pair_side(#[trigger] r[j], kind, true, id) implies j
        == ko by {
        let pj = replay_pos(items, n, j);
        assert(r[j] == items[pj]);
        assert(pj == o);
        if j < ko {
            assert(replay_pos(items, n, j) < replay_pos(items, n, ko));
        } else if j > ko {
            assert(replay_pos(items, n, ko) < replay_pos(items, n, j));
        }
    }
}

/// `call` is the call side and `output` the output side of one pair family.
pub open spec fn pairs_with(call: JsonV, output: JsonV) -> bool {
    &&& tool_pair_spec(call) is Some
    &&& tool_pair_spec(output) is Some
    &&& !(tool_pair_spec(call)->0).1
    &&& (tool_pair_spec(output)->0).1
    &&& (tool_pair_spec(call)->0).0 == (tool_pair_spec(output)->0).0
}

/// A function call pairs with a function call output and a custom tool call
/// with a custom tool call output, whatever else the items hold; a call of
/// one family never pairs with an output of the other.
pub proof fn lemma_tool_families(call: JsonV, output: JsonV)
    ensures
        str_member(call, "type"@) == Some("function_call"@) && str_member(output, "type"@) == Some(
            "function_call_output"@,
        ) ==> pairs_with(call, output),
        str_member(call, "type"@) == Some("custom_tool_call"@) && str_member(output, "type"@)
            == Some("custom_tool_call_output"@) ==> pairs_with(call, output),
        str_member(call, "type"@) == Some("function_call"@) && str_member(output, "type"@) == Some(
            "custom_tool_call_output"@,
        ) ==> !pairs_with(call, output),
        str_member(call, "type"@) == Some("custom_tool_call"@) && str_member(output, "type"@)
            == Some("function_call_output"@) ==> !pairs_with(call, output),
        str_member(call, "type"@) == Some("tool_search_call"@) && str_member(output, "type"@)
            == Some("tool_search_output"@) && str_member(call, "execution"@) == Some("client"@)
            && str_member(output, "execution"@) == Some("client"@) ==> pairs_with(call, output),
        str_member(call, "type"@) == Some("tool_search_call"@) && str_member(call, "execution"@)
            != Some("client"@) ==> tool_pair_spec(call) is None,
        str_member(output, "type"@) == Some("tool_search_output"@) && str_member(output, "execution"@)
            != Some("client"@) ==> tool_pair_spec(output) is None,
{
    reveal_strlit("tool_search_call");
    reveal_strlit("tool_search_output");
    reveal_strlit("function_call");
    reveal_strlit("function_call_output");
    reveal_strlit("custom_tool_call");
    reveal_strlit("custom_tool_call_output");
    let f = "function_call"@;
    let fo = "function_call_output"@;
    let c = "custom_tool_call"@;
    let co = "custom_tool_call_output"@;
    assert(f.len() == 13 && fo.len() == 20 && c.len() == 16 && co.len() == 23);
    assert(f != fo && f != c && f != co && fo != c && fo != co && c != co);
    let sc = "tool_search_call"@;
    let so = "tool_search_output"@;
    assert(sc.len() == 16 && so.len() == 18);
    assert(sc != c) by {
        assert(sc[0] != c[0]);
    }
    assert(sc != so && sc != f && sc != fo && sc != co && so != f && so != fo && so != c && so != co);
}

/// A function or custom tool call followed by its output, with one non-empty
/// call ID, is replayed whole; the same two items in the other order are
/// both dropped.
pub proof fn lemma_lone_pair_replayed(call: JsonV, output: JsonV, id: Seq<char>)
    requires
        id.len() > 0,
        str_member(call, "call_id"@) == Some(id),
        str_member(output, "call_id"@) == Some(id),
        (str_member(call, "type"@) == Some("function_call"@) && str_member(output, "type"@) == Some(
            "function_call_output"@,
        )) || (str_member(call, "type"@) == Some("custom_tool_call"@) && str_member(
            output,
            "type"@,
        ) == Some("custom_tool_call_output"@)),
    ensures
        replayable(seq![call, output]) == seq![call, output],
        replayable(seq![output, call]) == Seq::<JsonV>::empty(),
{
    lemma_tool_families(call, output);
    let k = (tool_pair_spec(call)->0).0;
    assert(pair_side(call, k, false, id));
    assert(pair_side(output, k, true, id));
    assert(!pair_side(call, k, true, id));
    assert(!pair_side(output, k, false, id));
    let s = seq![call, output];
    assert(unique_ordered_pair(s, k, id)) by {
        assert forall|j: int| 0 <= j < s.len() && pair_side(#[trigger] s[j], k, false, id) implies j
            == 0 by {
            if j == 1 {
                assert(s[1] == output);
            }
        }
        assert forall|j: int| 0 <= j < s.len() && pair_side(#[trigger] s[j], k, true, id) implies j
            == 1 by {
            if j == 0 {
                assert(s[0] == call);
            }
        }
        assert(0 <= 0int < 1int < s.len() && pair_side(s[0], k, false, id) && pair_side(s[1], k, true, id));
    }
    assert(replayable_at(s, 0));
    assert(replayable_at(s, 1));
    assert(replayable_prefix(s, 0) == Seq::<JsonV>::empty());
    assert(replayable_prefix(s, 1) == seq![call]);
    assert(replayable_prefix(s, 2) == seq![call, output]);
    let r = seq![output, call];
    assert(!unique_ordered_pair(r, k, id)) by {
        if unique_ordered_pair(r, k, id) {
            let (c, o) = choose|c: int, o: int|
                0 <= c < o < r.len() && pair_side(r[c], k, false, id) && pair_side(r[o], k, true, id)
                    && (forall|j: int|
                    0 <= j < r.len() && pair_side(#[trigger] r[j], k, false, id) ==> j == c) && (
                forall|j: int| 0 <= j < r.len() && pair_side(#[trigger] r[j], k, true, id) ==> j == o);
            assert(c == 0 && o == 1);
            assert(r[0] == output);
        }
    }
    assert(!replayable_at(r, 0));
    assert(!replayable_at(r, 1));
    assert(replayable_prefix(r, 0) == Seq::<JsonV>::empty());
    assert(replayable_prefix(r, 1) == Seq::<JsonV>::empty());
    assert(replayable_prefix(r, 2) == Seq::<JsonV>::empty());
}

/// Items that are no tool call or output are always replayed: a context
/// without tool items is replayed whole.
pub proof fn lemma_plain_items_replayed(items: Seq<JsonV>)
    requires
        forall|i: int| 0 <= i < items.len() ==> #[trigger] tool_pair_spec(items[i]) is None,
    ensures
        replayable(items) == items,
{
    let n = items.len() as int;
    assert forall|m: int| 0 <= m <= n implies #[trigger] replayable_prefix(items, m) == items.take(m) by {
        lemma_plain_prefix(items, m);
    }
    assert(items.take(n) =~= items);
}

proof fn lemma_plain_prefix(items: Seq<JsonV>, m: int)
    requires
        0 <= m <= items.len(),
        forall|i: int| 0 <= i < items.len() ==> #[trigger] tool_pair_spec(items[i]) is None,
    ensures
        replayable_prefix(items, m) == items.take(m),
    decreases m,
{
    if m > 0 {
        lemma_plain_prefix(items, m - 1);
        assert(tool_pair_spec(items[m - 1]) is None);
        assert(replayable_at(items, m - 1));
        assert(items.take(m) =~= items.take(m - 1).push(items[m - 1]));
    } else {
        assert(items.take(0) =~= Seq::<JsonV>::empty());
    }
}

} // verus!
