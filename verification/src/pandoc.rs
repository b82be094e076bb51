use vstd::prelude::*;

use crate::json::{
    Json, JsonV, key, key_opt, idx, lemma_view_items, lemma_view_members, view_json, str_eq,
    find_key, set_first, lemma_set_first_at, lemma_member_value_first, lemma_member_value_at,
};
use crate::text::{hex_fixed, hex_digits};
use crate::renderer::{BlockOutcome, outcome_views};
use crate::filter::{plan_outcomes, apply_replacements, planned_reps, file_paths, string_views, is_plan};

verus! {

/// Whether `v` is an array holding the string `c`.
pub open spec fn has_class(v: JsonV, c: Seq<char>) -> bool {
    match v {
        JsonV::Array(cls) => exists|i: int| 0 <= i < cls.len() && cls[i] == JsonV::Str(c),
        _ => false,
    }
}

/// A Mermaid block: a `CodeBlock` whose attribute classes (`c[0][1]`)
/// include `mermaid`.
pub open spec fn is_mermaid(b: JsonV) -> bool {
    &&& key(b, "t"@) == JsonV::Str("CodeBlock"@)
    &&& has_class(idx(idx(key(b, "c"@), 0), 1), "mermaid"@)
}

/// The diagram source of a Mermaid block: `c[1]` when it is a string, else empty.
pub open spec fn source_of(b: JsonV) -> Seq<char> {
    match idx(key(b, "c"@), 1) {
        JsonV::Str(s) => s,
        _ => Seq::empty(),
    }
}

/// The Mermaid blocks of `j`, in depth-first order. A Mermaid block is not
/// searched further; every other array and object is.
pub open spec fn blocks(j: JsonV) -> Seq<JsonV>
    decreases j,
{
    if is_mermaid(j) {
        seq![j]
    } else {
        match j {
            JsonV::Array(s) => blocks_items(s),
            JsonV::Object(m) => blocks_members(m),
            _ => Seq::empty(),
        }
    }
}

/// The Mermaid blocks of a sequence of values, in order.
pub open spec fn blocks_items(s: Seq<JsonV>) -> Seq<JsonV>
    decreases s,
{
    if s.len() == 0 {
        Seq::empty()
    } else {
        blocks_items(s.drop_last()) + blocks(s.last())
    }
}

/// The Mermaid blocks of the values of a sequence of object members, in order.
pub open spec fn blocks_members(m: Seq<(Seq<char>, JsonV)>) -> Seq<JsonV>
    decreases m,
{
    if m.len() == 0 {
        Seq::empty()
    } else {
        blocks_members(m.drop_last()) + blocks(m.last().1)
    }
}

/// The views of a sequence of borrowed values.
pub open spec fn views(s: Seq<&Json>) -> Seq<JsonV> {
    Seq::new(s.len(), |i: int| s[i]@)
}

/// Whether `block` is a Mermaid `CodeBlock`.
pub fn is_mermaid_block(block: &Json) -> (r: bool)
    ensures
        r == is_mermaid(block@),
{
    let t_ok = match block.get("t") {
        Some(t) => t.is_str("CodeBlock"),
        None => false,
    };
    if !t_ok {
        return false;
    }
    let classes = match block.get("c") {
        Some(c) => match c.at(0) {
            Some(attr) => attr.at(1),
            None => None,
        },
        None => None,
    };
    match classes {
        Some(Json::Array(items)) => {
            proof {
                lemma_view_items(items@);
            }
            let ghost cls = crate::json::view_items(items@);
            assert(idx(idx(key(block@, "c"@), 0), 1) == JsonV::Array(cls));
            let mut i: usize = 0;
            while i < items.len()
                invariant
                    i <= items@.len(),
                    key(block@, "t"@) == JsonV::Str("CodeBlock"@),
                    idx(idx(key(block@, "c"@), 0), 1) == JsonV::Array(cls),
                    cls.len() == items@.len(),
                    forall|j: int| 0 <= j < items@.len() ==> #[trigger] cls[j] == view_json(items@[j]),
                    forall|j: int| 0 <= j < i ==> cls[j] != JsonV::Str("mermaid"@),
                decreases items@.len() - i,
            {
                if items[i].is_str("mermaid") {
                    assert(cls[i as int] == JsonV::Str("mermaid"@));
                    return true;
                }
                i = i + 1;
            }
            false
        },
        _ => false,
    }
}

/// The source text of a Mermaid `CodeBlock` (empty when `c[1]` is not a string).
pub fn mermaid_source(block: &Json) -> (r: String)
    ensures
        r@ == source_of(block@),
{
    let text = match block.get("c") {
        Some(c) => match c.at(1) {
            Some(x) => x.as_str(),
            None => None,
        },
        None => None,
    };
    match text {
        Some(s) => s.to_owned(),
        None => String::new(),
    }
}

/// The Mermaid `CodeBlock`s anywhere in `value`, in depth-first order.
pub fn collect_mermaid(value: &Json) -> (r: Vec<&Json>)
    ensures
        views(r@) == blocks(value@),
    decreases value,
{
    if is_mermaid_block(value) {
        let r = vec![value];
        assert(views(r@) =~= blocks(value@));
        return r;
    }
    match value {
        Json::Array(items) => {
            proof {
                lemma_view_items(items@);
            }
            let ghost vs = crate::json::view_items(items@);
            let mut out: Vec<&Json> = Vec::new();
            let mut i: usize = 0;
            while i < items.len()
                invariant
                    i <= items@.len(),
                    *value == Json::Array(*items),
                    vs.len() == items@.len(),
                    forall|j: int| 0 <= j < items@.len() ==> #[trigger] vs[j] == view_json(items@[j]),
                    views(out@) == blocks_items(vs.take(i as int)),
                decreases items@.len() - i,
            {
                proof {
                    assert(decreases_to!(*value => (*value)->Array_0));
                    assert(decreases_to!(*items => items[i as int]));
                    assert(decreases_to!(*value => items[i as int]));
                }
                let mut sub = collect_mermaid(&items[i]);
                let ghost before = out@;
                let ghost added = sub@;
                out.append(&mut sub);
                proof {
                    assert(vs.take(i + 1).drop_last() =~= vs.take(i as int));
                    assert(vs.take(i + 1).last() == vs[i as int]);
                    assert(views(out@) =~= views(before) + views(added));
                }
                i = i + 1;
            }
            assert(vs.take(items@.len() as int) =~= vs);
            out
        },
        Json::Object(members) => {
            proof {
                lemma_view_members(members@);
            }
            let ghost ms = crate::json::view_members(members@);
            let mut out: Vec<&Json> = Vec::new();
            let mut i: usize = 0;
            while i < members.len()
                invariant
                    i <= members@.len(),
                    *value == Json::Object(*members),
                    ms.len() == members@.len(),
                    forall|j: int|
                        0 <= j < members@.len() ==> #[trigger] ms[j] == (
                            members@[j].0@,
                            view_json(members@[j].1),
                        ),
                    views(out@) == blocks_members(ms.take(i as int)),
                decreases members@.len() - i,
            {
                proof {
                    assert(decreases_to!(*value => (*value)->Object_0));
                    assert(decreases_to!(*members => members[i as int]));
                    assert(decreases_to!(members[i as int] => members[i as int].1));
                    assert(decreases_to!(*value => members[i as int].1));
                }
                let mut sub = collect_mermaid(&members[i].1);
                let ghost before = out@;
                let ghost added = sub@;
                out.append(&mut sub);
                proof {
                    assert(ms.take(i + 1).drop_last() =~= ms.take(i as int));
                    assert(ms.take(i + 1).last() == ms[i as int]);
                    assert(views(out@) =~= views(before) + views(added));
                }
                i = i + 1;
            }
            assert(ms.take(members@.len() as int) =~= ms);
            out
        },
        _ => Vec::new(),
    }
}


/// The replacement planned for the `i`-th Mermaid block: none past the end.
pub open spec fn rep_at(reps: Seq<Option<JsonV>>, i: int) -> Option<JsonV> {
    if 0 <= i < reps.len() {
        reps[i]
    } else {
        None
    }
}

/// `j` with its `k`-th Mermaid block (in depth-first order) replaced by the
/// value of `rep_at(reps, off + k)` where that is `Some`, and kept otherwise.
/// Nothing else changes.
pub open spec fn replaced(j: JsonV, reps: Seq<Option<JsonV>>, off: int) -> JsonV
    decreases j,
{
    if is_mermaid(j) {
        match rep_at(reps, off) {
            Some(v) => v,
            None => j,
        }
    } else {
        match j {
            JsonV::Array(s) => JsonV::Array(replaced_items(s, reps, off)),
            JsonV::Object(m) => JsonV::Object(replaced_members(m, reps, off)),
            _ => j,
        }
    }
}

/// `replaced` applied along a sequence, each element offset by the Mermaid
/// blocks before it.
pub open spec fn replaced_items(s: Seq<JsonV>, reps: Seq<Option<JsonV>>, off: int) -> Seq<JsonV>
    decreases s,
{
    if s.len() == 0 {
        Seq::empty()
    } else {
        replaced_items(s.drop_last(), reps, off).push(
            replaced(s.last(), reps, off + blocks_items(s.drop_last()).len()),
        )
    }
}

/// `replaced` applied to the values of object members, keys kept.
pub open spec fn replaced_members(
    m: Seq<(Seq<char>, JsonV)>,
    reps: Seq<Option<JsonV>>,
    off: int,
) -> Seq<(Seq<char>, JsonV)>
    decreases m,
{
    if m.len() == 0 {
        Seq::empty()
    } else {
        replaced_members(m.drop_last(), reps, off).push(
            (m.last().0, replaced(m.last().1, reps, off + blocks_members(m.drop_last()).len())),
        )
    }
}

/// The views of a sequence of optional values.
pub open spec fn opt_views(s: Seq<Option<Json>>) -> Seq<Option<JsonV>> {
    Seq::new(
        s.len(),
        |i: int|
            match s[i] {
                Some(x) => Some(x@),
                None => None,
            },
    )
}

/// The smaller of two integers.
pub open spec fn min_int(a: int, b: int) -> int {
    if a <= b {
        a
    } else {
        b
    }
}

/// Each element of `replaced_items` is its element replaced, offset by the
/// Mermaid blocks before it.
pub proof fn lemma_replaced_items_index(s: Seq<JsonV>, reps: Seq<Option<JsonV>>, off: int)
    ensures
        replaced_items(s, reps, off).len() == s.len(),
        forall|j: int|
            0 <= j < s.len() ==> #[trigger] replaced_items(s, reps, off)[j] == replaced(
                s[j],
                reps,
                off + blocks_items(s.take(j)).len(),
            ),
    decreases s.len(),
{
    if s.len() > 0 {
        let p = s.drop_last();
        lemma_replaced_items_index(p, reps, off);
        assert(s.take(s.len() - 1) =~= p);
        assert forall|j: int| 0 <= j < s.len() implies #[trigger] replaced_items(s, reps, off)[j]
            == replaced(s[j], reps, off + blocks_items(s.take(j)).len()) by {
            if j < s.len() - 1 {
                assert(p.take(j) =~= s.take(j));
            }
        }
    }
}

/// Each member of `replaced_members` keeps its key and has its value
/// replaced, offset by the Mermaid blocks before it.
pub proof fn lemma_replaced_members_index(m: Seq<(Seq<char>, JsonV)>, reps: Seq<Option<JsonV>>, off: int)
    ensures
        replaced_members(m, reps, off).len() == m.len(),
        forall|j: int|
            0 <= j < m.len() ==> #[trigger] replaced_members(m, reps, off)[j] == (
                m[j].0,
                replaced(m[j].1, reps, off + blocks_members(m.take(j)).len()),
            ),
    decreases m.len(),
{
    if m.len() > 0 {
        let p = m.drop_last();
        lemma_replaced_members_index(p, reps, off);
        assert(m.take(m.len() - 1) =~= p);
        assert forall|j: int| 0 <= j < m.len() implies #[trigger] replaced_members(m, reps, off)[j]
            == (m[j].0, replaced(m[j].1, reps, off + blocks_members(m.take(j)).len())) by {
            if j < m.len() - 1 {
                assert(p.take(j) =~= m.take(j));
            }
        }
    }
}

/// Replaces, in depth-first order, the Mermaid blocks of `node` whose
/// numbers start at `off`, taking each replacement out of `reps`.
/// `next` is `off` clamped to the number of replacements.
pub(crate) fn replace_in(
    node: &mut Json,
    reps: &mut Vec<Option<Json>>,
    next: usize,
    Ghost(orig): Ghost<Seq<Option<JsonV>>>,
    Ghost(off): Ghost<int>,
) -> (r: usize)
    requires
        old(reps)@.len() == orig.len(),
        0 <= off,
        next == min_int(off, orig.len() as int),
        forall|i: int| next <= i < orig.len() ==> #[trigger] opt_views(old(reps)@)[i] == orig[i],
    ensures
        final(node)@ == replaced(old(node)@, orig, off),
        r == min_int(off + blocks(old(node)@).len(), orig.len() as int),
        final(reps)@.len() == orig.len(),
        forall|i: int| r <= i < orig.len() ==> #[trigger] final(reps)@[i] == old(reps)@[i],
    decreases *old(node),
{
    if is_mermaid_block(node) {
        if next < reps.len() {
            let ghost before = reps@;
            let taken = reps[next].take();
            assert(opt_views(before)[next as int] == orig[next as int]);
            match taken {
                Some(v) => {
                    *node = v;
                },
                None => {},
            }
            return next + 1;
        } else {
            return next;
        }
    }
    let mut tmp = Json::Null;
    std::mem::swap(node, &mut tmp);
    match tmp {
        Json::Array(mut items) => {
            proof {
                lemma_view_items(items@);
            }
            let ghost s0 = items@;
            let ghost sv = crate::json::view_items(s0);
            proof {
                assert(decreases_to!(*old(node) => (*old(node))->Array_0));
                assert forall|j: int| 0 <= j < s0.len() implies decreases_to!(*old(node) => #[trigger] s0[j]) by {
                    assert(decreases_to!((*old(node))->Array_0 => (*old(node))->Array_0[j]));
                }
            }
            let mut cur = next;
            let mut i: usize = 0;
            while i < items.len()
                invariant
                    i <= items@.len(),
                    items@.len() == s0.len(),
                    sv.len() == s0.len(),
                    forall|j: int| 0 <= j < s0.len() ==> #[trigger] sv[j] == view_json(s0[j]),
                    forall|j: int| i <= j < s0.len() ==> #[trigger] items@[j] == s0[j],
                    forall|j: int|
                        0 <= j < i ==> #[trigger] view_json(items@[j]) == replaced(
                            sv[j],
                            orig,
                            off + blocks_items(sv.take(j)).len(),
                        ),
                    0 <= off,
                    cur == min_int(off + blocks_items(sv.take(i as int)).len(), orig.len() as int),
                    reps@.len() == orig.len(),
                    forall|k: int| cur <= k < orig.len() ==> #[trigger] opt_views(reps@)[k] == orig[k],
                    forall|k: int| cur <= k < orig.len() ==> #[trigger] reps@[k] == old(reps)@[k],
                    forall|j: int| 0 <= j < s0.len() ==> decreases_to!(*old(node) => #[trigger] s0[j]),
                decreases s0.len() - i,
            {
                let ghost rb = reps@;
                let ghost ib = items@;
                proof {
                    assert(decreases_to!(*old(node) => s0[i as int]));
                    assert(forall|k: int|
                        cur <= k < orig.len() ==> #[trigger] opt_views(rb)[k] == orig[k]);
                }
                cur = replace_in(&mut items[i], reps, cur, Ghost(orig), Ghost(off + blocks_items(sv.take(i as int)).len()));
                proof {
                    assert(sv.take(i + 1).drop_last() =~= sv.take(i as int));
                    assert(sv.take(i + 1).last() == sv[i as int]);
                    assert forall|k: int| cur <= k < orig.len() implies #[trigger] opt_views(reps@)[k] == orig[k] by {
                        assert(reps@[k] == rb[k]);
                        assert(opt_views(rb)[k] == orig[k]);
                    }
                    assert forall|k: int| cur <= k < orig.len() implies #[trigger] reps@[k] == old(reps)@[k] by {
                        assert(reps@[k] == rb[k]);
                    }
                }
                i = i + 1;
            }
            proof {
                lemma_view_items(items@);
                lemma_replaced_items_index(sv, orig, off);
                assert(crate::json::view_items(items@) =~= replaced_items(sv, orig, off));
                assert(sv.take(s0.len() as int) =~= sv);
            }
            *node = Json::Array(items);
            cur
        },
        Json::Object(mut items) => {
            proof {
                lemma_view_members(items@);
            }
            let ghost s0 = items@;
            let ghost sv = crate::json::view_members(s0);
            proof {
                assert(decreases_to!(*old(node) => (*old(node))->Object_0));
                assert forall|j: int| 0 <= j < s0.len() implies decreases_to!(*old(node) => #[trigger] s0[j].1) by {
                    assert(decreases_to!((*old(node))->Object_0 => (*old(node))->Object_0[j]));
                    assert(decreases_to!((*old(node))->Object_0[j] => (*old(node))->Object_0[j].1));
                }
            }
            let mut cur = next;
            let mut i: usize = 0;
            while i < items.len()
                invariant
                    i <= items@.len(),
                    items@.len() == s0.len(),
                    sv.len() == s0.len(),
                    forall|j: int| 0 <= j < s0.len() ==> #[trigger] sv[j] == (s0[j].0@, view_json(s0[j].1)),
                    forall|j: int| i <= j < s0.len() ==> #[trigger] items@[j] == s0[j],
                    forall|j: int| 0 <= j < s0.len() ==> #[trigger] items@[j].0 == s0[j].0,
                    forall|j: int|
                        0 <= j < i ==> #[trigger] view_json(items@[j].1) == replaced(
                            sv[j].1,
                            orig,
                            off + blocks_members(sv.take(j)).len(),
                        ),
                    0 <= off,
                    cur == min_int(off + blocks_members(sv.take(i as int)).len(), orig.len() as int),
                    reps@.len() == orig.len(),
                    forall|k: int| cur <= k < orig.len() ==> #[trigger] opt_views(reps@)[k] == orig[k],
                    forall|k: int| cur <= k < orig.len() ==> #[trigger] reps@[k] == old(reps)@[k],
                    forall|j: int| 0 <= j < s0.len() ==> decreases_to!(*old(node) => #[trigger] s0[j].1),
                decreases s0.len() - i,
            {
                let ghost rb = reps@;
                let ghost ib = items@;
                proof {
                    assert(decreases_to!(*old(node) => s0[i as int].1));
                    assert(forall|k: int|
                        cur <= k < orig.len() ==> #[trigger] opt_views(rb)[k] == orig[k]);
                }
                cur = replace_in(&mut items[i].1, reps, cur, Ghost(orig), Ghost(off + blocks_members(sv.take(i as int)).len()));
                proof {
                    assert(sv.take(i + 1).drop_last() =~= sv.take(i as int));
                    assert(sv.take(i + 1).last() == sv[i as int]);
                    assert forall|k: int| cur <= k < orig.len() implies #[trigger] opt_views(reps@)[k] == orig[k] by {
                        assert(reps@[k] == rb[k]);
                        assert(opt_views(rb)[k] == orig[k]);
                    }
                    assert forall|k: int| cur <= k < orig.len() implies #[trigger] reps@[k] == old(reps)@[k] by {
                        assert(reps@[k] == rb[k]);
                    }
                }
                i = i + 1;
            }
            proof {
                lemma_view_members(items@);
                lemma_replaced_members_index(sv, orig, off);
                assert(crate::json::view_members(items@) =~= replaced_members(sv, orig, off));
                assert(sv.take(s0.len() as int) =~= sv);
            }
            *node = Json::Object(items);
            cur
        },
        _ => {
            *node = tmp;
            next
        }
    }
}


/// A Pandoc node `{"t": t, "c": c}`.
pub open spec fn node_v(t: Seq<char>, c: JsonV) -> JsonV {
    JsonV::Object(seq![("t"@, JsonV::Str(t)), ("c"@, c)])
}

/// `RawBlock("html", svg)`: the SVG passed through as raw HTML.
pub open spec fn raw_block_v(svg: Seq<char>) -> JsonV {
    node_v("RawBlock"@, JsonV::Array(seq![JsonV::Str("html"@), JsonV::Str(svg)]))
}

/// `Para[Image]` whose image target is `path`, with empty attributes,
/// caption and title.
pub open spec fn image_block_v(path: Seq<char>) -> JsonV {
    let empty_attr = JsonV::Array(
        seq![JsonV::Str(Seq::empty()), JsonV::Array(Seq::empty()), JsonV::Array(Seq::empty())],
    );
    let target = JsonV::Array(seq![JsonV::Str(path), JsonV::Str(Seq::empty())]);
    let image = node_v("Image"@, JsonV::Array(seq![empty_attr, JsonV::Array(Seq::empty()), target]));
    node_v("Para"@, JsonV::Array(seq![image]))
}

/// `name` joined under `dir` as a relative path, with `/` as separator (as
/// `Path::join` does on Unix for a relative name): a `/` goes between them
/// unless `dir` is empty or already ends with one. On Windows `Path::join`
/// would put `\` there; this function always uses `/`, which Windows
/// programs, pandoc among them, also accept as a separator.
pub open spec fn join_path(dir: Seq<char>, name: Seq<char>) -> Seq<char> {
    if dir.len() == 0 {
        name
    } else if dir.last() == '/' {
        dir + name
    } else {
        dir + seq!['/'] + name
    }
}

/// The file an SVG with hash `digest` is written to: `<dir>/<16 hex digits>.svg`.
pub open spec fn image_path(dir: Seq<char>, digest: u64) -> Seq<char> {
    join_path(dir, hex_fixed(digest as nat, 16) + ".svg"@)
}

fn json_str(s: &str) -> (r: Json)
    ensures
        r@ == JsonV::Str(s@),
{
    Json::Str(s.to_owned())
}

fn json_array(v: Vec<Json>) -> (r: Json)
    ensures
        r@ == JsonV::Array(Seq::new(v@.len(), |i: int| v@[i]@)),
{
    proof {
        lemma_view_items(v@);
        assert(crate::json::view_items(v@) =~= Seq::new(v@.len(), |i: int| v@[i]@));
    }
    Json::Array(v)
}

fn empty_array() -> (r: Json)
    ensures
        r@ == JsonV::Array(Seq::empty()),
{
    let v: Vec<Json> = Vec::new();
    proof {
        lemma_view_items(v@);
        assert(crate::json::view_items(v@) =~= Seq::<JsonV>::empty());
    }
    Json::Array(v)
}

fn node(t: &str, c: Json) -> (r: Json)
    ensures
        r@ == node_v(t@, c@),
{
    let ghost cv = c@;
    let mut members: Vec<(String, Json)> = Vec::new();
    members.push((String::from_str("t"), json_str(t)));
    members.push((String::from_str("c"), c));
    proof {
        lemma_view_members(members@);
        assert(crate::json::view_members(members@) =~= seq![("t"@, JsonV::Str(t@)), ("c"@, cv)]);
    }
    Json::Object(members)
}

/// The `RawBlock("html", svg)` node.
pub fn raw_block(svg: String) -> (r: Json)
    ensures
        r@ == raw_block_v(svg@),
{
    let ghost sv = svg@;
    let mut items: Vec<Json> = Vec::new();
    items.push(json_str("html"));
    items.push(Json::Str(svg));
    let c = json_array(items);
    assert(c@ == JsonV::Array(seq![JsonV::Str("html"@), JsonV::Str(sv)])) by {
        assert(Seq::new(items@.len(), |i: int| items@[i]@) =~= seq![JsonV::Str("html"@), JsonV::Str(sv)]);
    }
    node("RawBlock", c)
}

/// `name` joined under `dir`, as [`join_path`] says.
pub fn join(dir: &str, name: &str) -> (r: String)
    ensures
        r@ == join_path(dir@, name@),
{
    let n = dir.unicode_len();
    if n == 0 {
        return name.to_owned();
    }
    let mut r = dir.to_owned();
    if dir.get_char(n - 1) != '/' {
        proof {
            reveal_strlit("/");
        }
        r.append("/");
    }
    r.append(name);
    r
}

/// The `Para[Image]` node pointing at `path`.
pub fn image_node(path: String) -> (r: Json)
    ensures
        r@ == image_block_v(path@),
{
    let ghost pv = path@;
    proof {
        reveal_strlit("");
    }
    let e1 = empty_array();
    let e2 = empty_array();
    let e3 = empty_array();
    let mut attr: Vec<Json> = Vec::new();
    attr.push(json_str(""));
    attr.push(e1);
    attr.push(e2);
    let ghost attr_s = Seq::new(attr@.len(), |i: int| attr@[i]@);
    assert(attr_s =~~= seq![JsonV::Str(Seq::empty()), JsonV::Array(Seq::empty()), JsonV::Array(Seq::empty())]);
    let attr = json_array(attr);
    let mut target: Vec<Json> = Vec::new();
    target.push(Json::Str(path));
    target.push(json_str(""));
    let ghost target_s = Seq::new(target@.len(), |i: int| target@[i]@);
    assert(target_s =~~= seq![JsonV::Str(pv), JsonV::Str(Seq::empty())]);
    let target = json_array(target);
    let ghost attr_v = attr@;
    let ghost target_v = target@;
    let mut parts: Vec<Json> = Vec::new();
    parts.push(attr);
    parts.push(e3);
    parts.push(target);
    let ghost parts_s = Seq::new(parts@.len(), |i: int| parts@[i]@);
    assert(parts_s =~= seq![attr_v, JsonV::Array(Seq::empty()), target_v]);
    let image = node("Image", json_array(parts));
    let ghost image_v = image@;
    let mut para: Vec<Json> = Vec::new();
    para.push(image);
    let ghost para_s = Seq::new(para@.len(), |i: int| para@[i]@);
    assert(para_s =~= seq![image_v]);
    node("Para", json_array(para))
}

/// The path and `Para[Image]` node for an SVG whose hash is `digest`.
pub fn image_block_for(dir: &str, digest: u64) -> (r: (String, Json))
    ensures
        r.0@ == image_path(dir@, digest),
        r.1@ == image_block_v(r.0@),
{
    let mut name = hex_digits(digest, 16);
    proof {
        reveal_strlit(".svg");
    }
    name.append(".svg");
    let path = join(dir, name.as_str());
    let block = image_node(path.clone());
    (path, block)
}


/// The hash that std's `DefaultHasher` gives a string's text. std documents
/// that every `DefaultHasher` made by `new`/`default` is the same hasher (it
/// is not seeded per process), so the hash is a function of the text alone;
/// the algorithm itself is not documented and is left unstated here.
pub uninterp spec fn svg_hash(svg: Seq<char>) -> u64;

/// Hashes `svg` with std's `DefaultHasher`, through `BuildHasher::hash_one`
/// on `BuildHasherDefault<DefaultHasher>` (the same as `DefaultHasher::new`,
/// `str::hash`, `finish`). Claims only that the result is `svg_hash` of the
/// text: equal texts hash alike. Nothing is claimed of which value it is,
/// nor that distinct texts hash apart.
#[verifier::external_body]
fn svg_digest(svg: &str) -> (r: u64)
    ensures
        r == svg_hash(svg@),
{
    std::hash::BuildHasher::hash_one(
        &std::hash::BuildHasherDefault::<std::collections::hash_map::DefaultHasher>::default(),
        svg,
    )
}

/// The path under `dir` for `svg`, named by its hash, and the `Para[Image]`
/// node that references it.
pub fn image_block(dir: &str, svg: &str) -> (r: (String, Json))
    ensures
        r.0@ == image_path(dir@, svg_hash(svg@)),
        r.1@ == image_block_v(r.0@),
{
    let digest = svg_digest(svg);
    image_block_for(dir, digest)
}

/// Formats that pass `RawBlock("html", svg)` through as-is (or translate it
/// into the format's own raw-HTML syntax), as measured against pandoc 3.7.
/// For all other formats (typst, latex, etc.) the SVG is written to a file
/// and converted to an `Image`. `chunkedhtml` is left out: it is a
/// multi-file writer.
pub open spec fn html_formats() -> Seq<Seq<char>> {
    seq![
        "html"@,
        "html4"@,
        "html5"@,
        "s5"@,
        "slidy"@,
        "slideous"@,
        "dzslides"@,
        "revealjs"@,
        "markdown"@,
        "markdown_github"@,
        "markdown_mmd"@,
        "markdown_phpextra"@,
        "markdown_strict"@,
        "commonmark"@,
        "commonmark_x"@,
        "gfm"@,
        "org"@,
        "rst"@,
        "mediawiki"@,
        "muse"@,
        "textile"@,
        "docbook4"@,
    ]
}

/// The views of a sequence of string slices.
pub open spec fn str_views(s: Seq<&str>) -> Seq<Seq<char>> {
    Seq::new(s.len(), |k: int| s[k]@)
}

fn html_format_list() -> (r: Vec<&'static str>)
    ensures
        str_views(r@) == html_formats(),
{
    let r = vec![
        "html",
        "html4",
        "html5",
        "s5",
        "slidy",
        "slideous",
        "dzslides",
        "revealjs",
        "markdown",
        "markdown_github",
        "markdown_mmd",
        "markdown_phpextra",
        "markdown_strict",
        "commonmark",
        "commonmark_x",
        "gfm",
        "org",
        "rst",
        "mediawiki",
        "muse",
        "textile",
        "docbook4",
    ];
    assert(str_views(r@) =~= html_formats());
    r
}

/// Whether `format` passes raw HTML through.
pub fn is_html_format(format: &str) -> (r: bool)
    ensures
        r == html_formats().contains(format@),
        r <==> (format@ == "html"@
            || format@ == "html4"@
            || format@ == "html5"@
            || format@ == "s5"@
            || format@ == "slidy"@
            || format@ == "slideous"@
            || format@ == "dzslides"@
            || format@ == "revealjs"@
            || format@ == "markdown"@
            || format@ == "markdown_github"@
            || format@ == "markdown_mmd"@
            || format@ == "markdown_phpextra"@
            || format@ == "markdown_strict"@
            || format@ == "commonmark"@
            || format@ == "commonmark_x"@
            || format@ == "gfm"@
            || format@ == "org"@
            || format@ == "rst"@
            || format@ == "mediawiki"@
            || format@ == "muse"@
            || format@ == "textile"@
            || format@ == "docbook4"@),
{
    let formats = html_format_list();
    let mut i: usize = 0;
    while i < formats.len()
        invariant
            i <= formats@.len(),
            str_views(formats@) == html_formats(),
            forall|j: int| 0 <= j < i ==> html_formats()[j] != format@,
        decreases formats@.len() - i,
    {
        if str_eq(formats[i], format) {
            assert(html_formats()[i as int] == format@);
            proof {
                crate::laws::law_html_formats_are_the_named_ones(format@);
            }
            return true;
        }
        i = i + 1;
    }
    proof {
        crate::laws::law_html_formats_are_the_named_ones(format@);
    }
    false
}

/// The directory, relative to pandoc's working directory, that SVG files
/// for non-HTML formats are written to.
pub fn output_dir() -> (r: &'static str)
    ensures
        r@ == "gazu"@,
{
    "gazu"
}

/// The output directory that `format` calls for: none for a format that
/// passes raw HTML through, else [`output_dir`].
pub open spec fn dir_for(format: Seq<char>, dir: Seq<char>) -> Option<Seq<char>> {
    if html_formats().contains(format) {
        None
    } else {
        Some(dir)
    }
}

/// What applying render outcomes left to do: warnings to print and SVG
/// files to write, as `(path, content)` pairs.
pub struct Applied {
    pub warnings: Vec<String>,
    pub files: Vec<(String, String)>,
}

/// Applies `outcomes` 1:1, in order, to the Mermaid blocks of `blocks`
/// (outcomes or blocks beyond the shorter of the two are ignored).
///
/// A rendered block becomes `RawBlock("html", svg)` if `format` passes raw
/// HTML through; otherwise it becomes `Para[Image]` pointing at a file under
/// `dir`, which is returned to be written. A failed block is left as the
/// original `CodeBlock`, and a warning is returned for it.
pub fn apply_outcomes(dir: &str, format: &str, blocks: &mut Json, outcomes: Vec<BlockOutcome>) -> (r: Applied)
    ensures
        ({
            let n = min_int(crate::pandoc::blocks(old(blocks)@).len() as int, outcomes@.len() as int);
            let outs = outcome_views(outcomes@).take(n);
            let odir = dir_for(format@, dir@);
            let reps = planned_reps(outs, odir, file_paths(r.files@));
            &&& is_plan(outs, odir, reps, r.files@, string_views(r.warnings@))
            &&& final(blocks)@ == replaced(old(blocks)@, reps, 0)
        }),
{
    let n = collect_mermaid(blocks).len();
    let ghost all = outcome_views(outcomes@);
    let mut outcomes = outcomes;
    if outcomes.len() > n {
        outcomes.truncate(n);
    }
    let ghost outs = outcome_views(outcomes@);
    assert(outs =~= all.take(min_int(crate::pandoc::blocks(old(blocks)@).len() as int, all.len() as int)));
    let odir = if is_html_format(format) {
        None
    } else {
        Some(dir)
    };
    let plan = plan_outcomes(odir, outcomes);
    let ghost fp = file_paths(plan.files@);
    apply_replacements(blocks, plan.replacements);
    Applied { warnings: plan.warnings, files: plan.files }
}


/// Why a document cannot be filtered.
#[derive(Debug)]
pub enum FilterError {
    /// The input is not JSON.
    InvalidAst,
    /// The AST has no `blocks` array.
    NoBlocks,
}

impl FilterError {
    /// The message for this error.
    pub fn message(&self) -> (r: String)
        ensures
            r@ == match self {
                FilterError::InvalidAst => "invalid Pandoc AST"@,
                FilterError::NoBlocks => "no blocks in Pandoc AST"@,
            },
    {
        match self {
            FilterError::InvalidAst => String::from_str("invalid Pandoc AST"),
            FilterError::NoBlocks => String::from_str("no blocks in Pandoc AST"),
        }
    }
}

/// What a document needs, once its Mermaid blocks are known.
#[derive(Debug)]
pub enum FilterStart {
    /// No Mermaid block: the input goes out as it came in.
    Unchanged,
    /// The sources of the Mermaid blocks, in depth-first order, to render.
    Render(Vec<String>),
}

/// The document's top-level block list: `ast["blocks"]`.
pub open spec fn doc_blocks(ast: JsonV) -> JsonV {
    key(ast, "blocks"@)
}

/// The sources of the Mermaid blocks of a document.
pub open spec fn sources(ast: JsonV) -> Seq<Seq<char>> {
    blocks(doc_blocks(ast)).map_values(|b: JsonV| source_of(b))
}

/// Looks at a Pandoc AST before any rendering: fails when it has no
/// `blocks` array; otherwise tells whether it has Mermaid blocks and, if so,
/// their sources.
pub fn filter_start(ast: &Json) -> (r: Result<FilterStart, FilterError>)
    ensures
        match r {
            Err(FilterError::NoBlocks) => !(doc_blocks(ast@) is Array),
            Err(FilterError::InvalidAst) => false,
            Ok(FilterStart::Unchanged) => doc_blocks(ast@) is Array && blocks(doc_blocks(ast@)).len() == 0,
            Ok(FilterStart::Render(srcs)) => {
                &&& doc_blocks(ast@) is Array
                &&& blocks(doc_blocks(ast@)).len() > 0
                &&& crate::filter::string_views(srcs@) == sources(ast@)
            },
        },
{
    let list = match ast.get("blocks") {
        Some(b) => b,
        None => {
            return Err(FilterError::NoBlocks);
        },
    };
    match list {
        Json::Array(_) => {},
        _ => {
            return Err(FilterError::NoBlocks);
        },
    }
    let found = collect_mermaid(list);
    if found.len() == 0 {
        return Ok(FilterStart::Unchanged);
    }
    let ghost bs = blocks(doc_blocks(ast@));
    let mut srcs: Vec<String> = Vec::new();
    let mut i: usize = 0;
    while i < found.len()
        invariant
            i <= found@.len(),
            views(found@) == bs,
            srcs@.len() == i,
            forall|j: int| 0 <= j < i ==> #[trigger] srcs@[j]@ == source_of(bs[j]),
        decreases found@.len() - i,
    {
        srcs.push(mermaid_source(found[i]));
        i = i + 1;
    }
    assert(crate::filter::string_views(srcs@) =~= bs.map_values(|b: JsonV| source_of(b)));
    Ok(FilterStart::Render(srcs))
}

/// `ast` with its `blocks` value set to `v` (the first member of that name).
pub open spec fn with_doc_blocks(ast: JsonV, v: JsonV) -> JsonV {
    match ast {
        JsonV::Object(m) => JsonV::Object(set_first(m, "blocks"@, v)),
        _ => ast,
    }
}

/// Applies render outcomes to the Mermaid blocks under `ast["blocks"]`,
/// with SVG files under [`output_dir`] for formats that do not pass raw
/// HTML through; see [`apply_outcomes`]. Returns the warnings to print and
/// the files to write. An AST without `blocks` is left as it is.
pub fn filter_finish(ast: &mut Json, format: &str, outcomes: Vec<BlockOutcome>) -> (r: Applied)
    ensures
        match key_opt(old(ast)@, "blocks"@) {
            None => final(ast)@ == old(ast)@ && r.warnings@.len() == 0 && r.files@.len() == 0,
            Some(b) => {
                let n = min_int(blocks(b).len() as int, outcomes@.len() as int);
                let outs = outcome_views(outcomes@).take(n);
                let odir = dir_for(format@, "gazu"@);
                let reps = planned_reps(outs, odir, file_paths(r.files@));
                &&& is_plan(outs, odir, reps, r.files@, string_views(r.warnings@))
                &&& final(ast)@ == with_doc_blocks(old(ast)@, replaced(b, reps, 0))
            },
        },
{
    let mut tmp = Json::Null;
    std::mem::swap(ast, &mut tmp);
    match tmp {
        Json::Object(mut members) => {
            proof {
                lemma_view_members(members@);
            }
            let ghost m0 = crate::json::view_members(members@);
            match find_key(&members, "blocks") {
                Some(j) => {
                    let ghost bv = view_json(members@[j as int].1);
                    proof {
                        lemma_member_value_at(m0, "blocks"@, j as int);
                    }
                    let applied = apply_outcomes(output_dir(), format, &mut members[j].1, outcomes);
                    proof {
                        lemma_view_members(members@);
                        lemma_set_first_at(m0, "blocks"@, view_json(members@[j as int].1), j as int);
                        assert(crate::json::view_members(members@) =~= m0.update(
                            j as int,
                            ("blocks"@, view_json(members@[j as int].1)),
                        ));
                    }
                    *ast = Json::Object(members);
                    applied
                },
                None => {
                    proof {
                        lemma_member_value_first(m0, "blocks"@);
                        if crate::json::member_value(m0, "blocks"@) is Some {
                            let k = choose|k: int|
                                0 <= k < m0.len() && #[trigger] m0[k].0 == "blocks"@
                                    && crate::json::member_value(m0, "blocks"@) == Some(m0[k].1)
                                    && (forall|i: int| 0 <= i < k ==> #[trigger] m0[i].0 != "blocks"@);
                            assert(members@[k].0@ == "blocks"@);
                        }
                    }
                    *ast = Json::Object(members);
                    Applied { warnings: Vec::new(), files: Vec::new() }
                },
            }
        },
        _ => {
            *ast = tmp;
            Applied { warnings: Vec::new(), files: Vec::new() }
        },
    }
}


/// What [`filter_start`] says of a parsed AST `ast`.
pub open spec fn start_of(ast: JsonV, r: Result<FilterStart, FilterError>) -> bool {
    match r {
        Err(FilterError::NoBlocks) => !(doc_blocks(ast) is Array),
        Err(FilterError::InvalidAst) => false,
        Ok(FilterStart::Unchanged) => doc_blocks(ast) is Array && blocks(doc_blocks(ast)).len() == 0,
        Ok(FilterStart::Render(srcs)) => {
            &&& doc_blocks(ast) is Array
            &&& blocks(doc_blocks(ast)).len() > 0
            &&& crate::filter::string_views(srcs@) == sources(ast)
        },
    }
}

/// Reads the filter's input text: parses it as a Pandoc AST and looks at it
/// as [`filter_start`] does. Fails with `InvalidAst` exactly when the text is
/// not JSON, and with `NoBlocks` when it has no `blocks` array.
pub fn filter_input(input: &str) -> (r: Result<(Json, FilterStart), FilterError>)
    ensures
        match r {
            Err(FilterError::InvalidAst) => crate::json::parsed_json(input@) is None,
            Err(FilterError::NoBlocks) => match crate::json::parsed_json(input@) {
                Some(ast) => !(doc_blocks(ast) is Array),
                None => false,
            },
            Ok((ast, start)) => {
                &&& crate::json::parsed_json(input@) == Some(ast@)
                &&& start_of(ast@, Ok(start))
            },
        },
{
    let ast = match crate::json::parse_json(input) {
        Some(ast) => ast,
        None => {
            return Err(FilterError::InvalidAst);
        },
    };
    match filter_start(&ast) {
        Ok(start) => Ok((ast, start)),
        Err(e) => Err(e),
    }
}

/// The filter's output text: the AST written as compact JSON.
pub fn filter_output(ast: &Json) -> (r: String)
    ensures
        r@ == crate::json::json_text(ast@),
{
    crate::json::json_text_of(ast)
}

} // verus!
