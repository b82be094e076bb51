use vstd::prelude::*;

use crate::json::{JsonV, key, idx, member_value, lemma_member_value_first, lemma_member_value_at};
use crate::pandoc::{source_of, html_formats};
use crate::pandoc::{
    is_mermaid, has_class, blocks, blocks_items, blocks_members, rep_at, replaced,
    replaced_items, replaced_members, node_v, raw_block_v, image_block_v,
};
use crate::filter::{planned_reps, warnings_of, rendered_svgs, is_plan, file_paths};
use crate::renderer::OutcomeV;
use crate::cli::{
    command_for, is_flag, first_flag, lemma_first_flag, is_positional, last_positional,
};

verus! {

/// Every planned replacement is an object holding no Mermaid block.
pub open spec fn inert_reps(reps: Seq<Option<JsonV>>) -> bool {
    forall|i: int|
        0 <= i < reps.len() ==> match #[trigger] reps[i] {
            Some(v) => v is Object && blocks(v).len() == 0,
            None => true,
        }
}

/// The blocks of `bs` (numbered from `off`) that have no replacement, in order.
pub open spec fn kept(bs: Seq<JsonV>, reps: Seq<Option<JsonV>>, off: int) -> Seq<JsonV>
    decreases bs.len(),
{
    if bs.len() == 0 {
        Seq::empty()
    } else {
        kept(bs.drop_last(), reps, off) + if rep_at(reps, off + bs.len() - 1) is None {
            seq![bs.last()]
        } else {
            Seq::empty()
        }
    }
}

/// `y` is `x` after some replacement pass over `reps`.
pub open spec fn rel(x: JsonV, y: JsonV, reps: Seq<Option<JsonV>>) -> bool {
    exists|o: int| y == #[trigger] replaced(x, reps, o)
}

proof fn lemma_mermaid_is_object(j: JsonV)
    ensures
        is_mermaid(j) ==> j is Object,
{
}

/// Replacement keeps the kind of a value, and keeps strings as they are.
proof fn lemma_kind(x: JsonV, reps: Seq<Option<JsonV>>, o: int)
    requires
        inert_reps(reps),
    ensures
        (replaced(x, reps, o) is Str) <==> (x is Str),
        (x is Str) ==> replaced(x, reps, o) == x,
        (replaced(x, reps, o) is Array) <==> (x is Array),
        (replaced(x, reps, o) is Object) <==> (x is Object),
{
    lemma_mermaid_is_object(x);
    if is_mermaid(x) {
        let i = o;
        if 0 <= i < reps.len() {
            assert(match reps[i] {
                Some(v) => v is Object && blocks(v).len() == 0,
                None => true,
            });
        }
    }
}

/// Looking a key up commutes with replacement.
proof fn lemma_key_rel(x: JsonV, k: Seq<char>, reps: Seq<Option<JsonV>>, o: int)
    requires
        inert_reps(reps),
        !is_mermaid(x),
    ensures
        rel(key(x, k), key(replaced(x, reps, o), k), reps),
{
    match x {
        JsonV::Object(m) => {
            let rm = replaced_members(m, reps, o);
            crate::pandoc::lemma_replaced_members_index(m, reps, o);
            lemma_member_value_first(m, k);
            if member_value(m, k) is None {
                assert forall|j: int| 0 <= j < rm.len() implies #[trigger] rm[j].0 != k by {
                    assert(m[j].0 != k);
                }
                lemma_member_value_first(rm, k);
                assert(replaced(JsonV::Null, reps, 0) == JsonV::Null);
            } else {
                let j = choose|j: int|
                    0 <= j < m.len() && #[trigger] m[j].0 == k && member_value(m, k) == Some(m[j].1)
                        && (forall|i: int| 0 <= i < j ==> #[trigger] m[i].0 != k);
                assert forall|i: int| 0 <= i < j implies #[trigger] rm[i].0 != k by {
                    assert(rm[i].0 == m[i].0);
                }
                assert(rm[j].0 == k);
                lemma_member_value_at(rm, k, j);
                let oj = o + blocks_members(m.take(j)).len();
                assert(key(replaced(x, reps, o), k) == replaced(key(x, k), reps, oj));
            }
        },
        _ => {
            lemma_kind(x, reps, o);
            assert(replaced(JsonV::Null, reps, 0) == JsonV::Null);
        },
    }
}

/// Indexing by position commutes with replacement.
proof fn lemma_idx_rel(x: JsonV, y: JsonV, i: int, reps: Seq<Option<JsonV>>)
    requires
        inert_reps(reps),
        rel(x, y, reps),
    ensures
        rel(idx(x, i), idx(y, i), reps),
{
    let o = choose|o: int| y == #[trigger] replaced(x, reps, o);
    lemma_kind(x, reps, o);
    assert(replaced(JsonV::Null, reps, 0) == JsonV::Null);
    match x {
        JsonV::Array(s) => {
            crate::pandoc::lemma_replaced_items_index(s, reps, o);
            if 0 <= i < s.len() {
                let oi = o + blocks_items(s.take(i)).len();
                assert(idx(y, i) == replaced(idx(x, i), reps, oi));
            }
        },
        _ => {},
    }
}

/// Whether a value is an array holding a string is unchanged by replacement.
proof fn lemma_class_rel(x: JsonV, y: JsonV, c: Seq<char>, reps: Seq<Option<JsonV>>)
    requires
        inert_reps(reps),
        rel(x, y, reps),
    ensures
        has_class(y, c) == has_class(x, c),
{
    let o = choose|o: int| y == #[trigger] replaced(x, reps, o);
    lemma_kind(x, reps, o);
    match x {
        JsonV::Array(s) => {
            let rs = replaced_items(s, reps, o);
            crate::pandoc::lemma_replaced_items_index(s, reps, o);
            assert forall|i: int| 0 <= i < s.len() implies (#[trigger] rs[i] == JsonV::Str(c)) == (
            s[i] == JsonV::Str(c)) by {
                lemma_kind(s[i], reps, o + blocks_items(s.take(i)).len());
            }
            if has_class(x, c) {
                let i = choose|i: int| 0 <= i < s.len() && s[i] == JsonV::Str(c);
                assert(rs[i] == JsonV::Str(c));
            }
            if has_class(y, c) {
                let i = choose|i: int| 0 <= i < rs.len() && rs[i] == JsonV::Str(c);
                assert(s[i] == JsonV::Str(c));
            }
        },
        _ => {},
    }
}

/// A value that is not a Mermaid block does not become one.
proof fn lemma_stays_plain(x: JsonV, reps: Seq<Option<JsonV>>, o: int)
    requires
        inert_reps(reps),
        !is_mermaid(x),
    ensures
        !is_mermaid(replaced(x, reps, o)),
{
    let y = replaced(x, reps, o);
    lemma_kind(x, reps, o);
    lemma_key_rel(x, "t"@, reps, o);
    lemma_key_rel(x, "c"@, reps, o);
    let t = key(x, "t"@);
    let ot = choose|ot: int| key(y, "t"@) == #[trigger] replaced(t, reps, ot);
    lemma_kind(t, reps, ot);
    let c = key(x, "c"@);
    lemma_idx_rel(c, key(y, "c"@), 0, reps);
    lemma_idx_rel(idx(c, 0), idx(key(y, "c"@), 0), 1, reps);
    lemma_class_rel(idx(idx(c, 0), 1), idx(idx(key(y, "c"@), 0), 1), "mermaid"@, reps);
}

proof fn lemma_kept_concat(a: Seq<JsonV>, b: Seq<JsonV>, reps: Seq<Option<JsonV>>, off: int)
    ensures
        kept(a + b, reps, off) == kept(a, reps, off) + kept(b, reps, off + a.len()),
    decreases b.len(),
{
    if b.len() == 0 {
        assert(a + b =~= a);
        assert(kept(a, reps, off) + Seq::<JsonV>::empty() =~= kept(a, reps, off));
    } else {
        lemma_kept_concat(a, b.drop_last(), reps, off);
        assert((a + b).drop_last() =~= a + b.drop_last());
        assert((a + b).last() == b.last());
        assert(kept(a + b, reps, off) =~= kept(a, reps, off) + kept(b, reps, off + a.len()));
    }
}

/// Replacement keeps exactly the Mermaid blocks that have no replacement,
/// in their order; the replacements themselves add none.
pub proof fn lemma_blocks_after_replacement(j: JsonV, reps: Seq<Option<JsonV>>, off: int)
    requires
        inert_reps(reps),
    ensures
        blocks(replaced(j, reps, off)) == kept(blocks(j), reps, off),
    decreases j,
{
    if is_mermaid(j) {
        assert(seq![j].drop_last() =~= Seq::<JsonV>::empty());
        assert(kept(seq![j], reps, off) =~= kept(Seq::<JsonV>::empty(), reps, off) + if rep_at(
            reps,
            off,
        ) is None {
            seq![j]
        } else {
            Seq::empty()
        });
        if 0 <= off < reps.len() {
            assert(match reps[off] {
                Some(v) => v is Object && blocks(v).len() == 0,
                None => true,
            });
        }
        match rep_at(reps, off) {
            Some(v) => {
                assert(blocks(v) =~= Seq::<JsonV>::empty());
            },
            None => {},
        }
    } else {
        lemma_stays_plain(j, reps, off);
        match j {
            JsonV::Array(s) => {
                lemma_blocks_items_after(s, reps, off);
            },
            JsonV::Object(m) => {
                lemma_blocks_members_after(m, reps, off);
            },
            _ => {},
        }
    }
}

proof fn lemma_blocks_items_after(s: Seq<JsonV>, reps: Seq<Option<JsonV>>, off: int)
    requires
        inert_reps(reps),
    ensures
        blocks_items(replaced_items(s, reps, off)) == kept(blocks_items(s), reps, off),
    decreases s,
{
    if s.len() > 0 {
        let p = s.drop_last();
        let o2 = off + blocks_items(p).len();
        lemma_blocks_items_after(p, reps, off);
        lemma_blocks_after_replacement(s.last(), reps, o2);
        let rs = replaced_items(s, reps, off);
        assert(rs.drop_last() =~= replaced_items(p, reps, off));
        assert(rs.last() == replaced(s.last(), reps, o2));
        lemma_kept_concat(blocks_items(p), blocks(s.last()), reps, off);
    }
}

proof fn lemma_blocks_members_after(m: Seq<(Seq<char>, JsonV)>, reps: Seq<Option<JsonV>>, off: int)
    requires
        inert_reps(reps),
    ensures
        blocks_members(replaced_members(m, reps, off)) == kept(blocks_members(m), reps, off),
    decreases m,
{
    if m.len() > 0 {
        let p = m.drop_last();
        let o2 = off + blocks_members(p).len();
        lemma_blocks_members_after(p, reps, off);
        lemma_blocks_after_replacement(m.last().1, reps, o2);
        let rm = replaced_members(m, reps, off);
        assert(rm.drop_last() =~= replaced_members(p, reps, off));
        assert(rm.last().1 == replaced(m.last().1, reps, o2));
        lemma_kept_concat(blocks_members(p), blocks(m.last().1), reps, off);
    }
}


/// The blocks of `bs` whose outcome in `outs` is not a rendering (it failed,
/// or there is none), in order.
pub open spec fn unrendered(bs: Seq<JsonV>, outs: Seq<OutcomeV>) -> Seq<JsonV>
    decreases bs.len(),
{
    if bs.len() == 0 {
        Seq::empty()
    } else {
        unrendered(bs.drop_last(), outs) + if bs.len() - 1 < outs.len() && outs[bs.len() - 1] is Rendered {
            Seq::empty()
        } else {
            seq![bs.last()]
        }
    }
}

proof fn lemma_no_blocks_str(s: Seq<char>)
    ensures
        blocks(JsonV::Str(s)).len() == 0,
{
}

proof fn lemma_no_blocks_items(s: Seq<JsonV>)
    requires
        forall|i: int| 0 <= i < s.len() ==> blocks(#[trigger] s[i]).len() == 0,
    ensures
        blocks(JsonV::Array(s)).len() == 0,
        blocks_items(s).len() == 0,
    decreases s.len(),
{
    if s.len() > 0 {
        let p = s.drop_last();
        assert forall|i: int| 0 <= i < p.len() implies blocks(#[trigger] p[i]).len() == 0 by {
            assert(p[i] == s[i]);
        }
        lemma_no_blocks_items(p);
        assert(blocks(s.last()).len() == 0);
    }
}

proof fn lemma_no_blocks_node(t: Seq<char>, c: JsonV)
    requires
        t != "CodeBlock"@,
        blocks(c).len() == 0,
    ensures
        blocks(node_v(t, c)).len() == 0,
        node_v(t, c) is Object,
{
    let m = seq![("t"@, JsonV::Str(t)), ("c"@, c)];
    assert(m[0].0 == "t"@);
    assert(key(node_v(t, c), "t"@) == JsonV::Str(t));
    assert(m.drop_last() =~= seq![("t"@, JsonV::Str(t))]);
    assert(m.drop_last().drop_last() =~= Seq::<(Seq<char>, JsonV)>::empty());
    assert(!is_mermaid(node_v(t, c)));
    assert(blocks(JsonV::Str(t)).len() == 0);
    assert(blocks_members(m.drop_last().drop_last()).len() == 0);
    assert(blocks_members(m.drop_last()).len() == 0);
    assert(blocks_members(m).len() == 0);
}

/// The nodes that replace rendered blocks hold no Mermaid block.
pub proof fn lemma_replacements_inert(svg: Seq<char>, path: Seq<char>)
    ensures
        raw_block_v(svg) is Object,
        blocks(raw_block_v(svg)).len() == 0,
        image_block_v(path) is Object,
        blocks(image_block_v(path)).len() == 0,
{
    reveal_strlit("CodeBlock");
    reveal_strlit("RawBlock");
    reveal_strlit("Para");
    reveal_strlit("Image");
    assert("RawBlock"@.len() != "CodeBlock"@.len());
    assert("Image"@.len() != "CodeBlock"@.len());
    assert("Para"@.len() != "CodeBlock"@.len());
    let raw_c = seq![JsonV::Str("html"@), JsonV::Str(svg)];
    lemma_no_blocks_items(raw_c);
    lemma_no_blocks_node("RawBlock"@, JsonV::Array(raw_c));
    let e = JsonV::Array(Seq::empty());
    lemma_no_blocks_items(Seq::empty());
    let attr_s = seq![JsonV::Str(Seq::empty()), e, e];
    lemma_no_blocks_items(attr_s);
    let target_s = seq![JsonV::Str(path), JsonV::Str(Seq::empty())];
    lemma_no_blocks_items(target_s);
    let parts = seq![JsonV::Array(attr_s), e, JsonV::Array(target_s)];
    lemma_no_blocks_items(parts);
    lemma_no_blocks_node("Image"@, JsonV::Array(parts));
    let image = node_v("Image"@, JsonV::Array(parts));
    lemma_no_blocks_items(seq![image]);
    lemma_no_blocks_node("Para"@, JsonV::Array(seq![image]));
}

/// Planned replacements are objects that hold no Mermaid block.
pub proof fn lemma_planned_inert(outs: Seq<OutcomeV>, dir: Option<Seq<char>>, paths: Seq<Seq<char>>)
    ensures
        inert_reps(planned_reps(outs, dir, paths)),
{
    let reps = planned_reps(outs, dir, paths);
    assert forall|i: int| 0 <= i < reps.len() implies match #[trigger] reps[i] {
        Some(v) => v is Object && blocks(v).len() == 0,
        None => true,
    } by {
        match outs[i] {
            OutcomeV::Rendered(svg) => {
                lemma_replacements_inert(svg, paths[crate::filter::rank(outs, i)]);
            },
            _ => {},
        }
    }
}

proof fn lemma_kept_planned(bs: Seq<JsonV>, outs: Seq<OutcomeV>, dir: Option<Seq<char>>, paths: Seq<Seq<char>>)
    ensures
        kept(bs, planned_reps(outs, dir, paths), 0) == unrendered(bs, outs),
    decreases bs.len(),
{
    if bs.len() > 0 {
        lemma_kept_planned(bs.drop_last(), outs, dir, paths);
    }
}

/// Applying render outcomes leaves exactly the Mermaid blocks whose
/// rendering failed (or that had no outcome), unchanged and in their order;
/// every rendered block is gone and no new one appears.
pub proof fn law_unrendered_blocks_remain(
    tree: JsonV,
    outs: Seq<OutcomeV>,
    dir: Option<Seq<char>>,
    paths: Seq<Seq<char>>,
)
    ensures
        blocks(replaced(tree, planned_reps(outs, dir, paths), 0)) == unrendered(blocks(tree), outs),
{
    lemma_planned_inert(outs, dir, paths);
    lemma_blocks_after_replacement(tree, planned_reps(outs, dir, paths), 0);
    lemma_kept_planned(blocks(tree), outs, dir, paths);
}

proof fn lemma_unrendered_all(bs: Seq<JsonV>, outs: Seq<OutcomeV>)
    requires
        bs.len() <= outs.len(),
        forall|i: int| 0 <= i < outs.len() ==> #[trigger] outs[i] is Rendered,
    ensures
        unrendered(bs, outs).len() == 0,
    decreases bs.len(),
{
    if bs.len() > 0 {
        lemma_unrendered_all(bs.drop_last(), outs);
    }
}

/// When every Mermaid block rendered, none is left: filtering the output
/// again finds nothing to render.
pub proof fn law_all_rendered_leaves_none(
    tree: JsonV,
    outs: Seq<OutcomeV>,
    dir: Option<Seq<char>>,
    paths: Seq<Seq<char>>,
)
    requires
        blocks(tree).len() <= outs.len(),
        forall|i: int| 0 <= i < outs.len() ==> #[trigger] outs[i] is Rendered,
    ensures
        blocks(replaced(tree, planned_reps(outs, dir, paths), 0)).len() == 0,
{
    law_unrendered_blocks_remain(tree, outs, dir, paths);
    lemma_unrendered_all(blocks(tree), outs);
}

/// With no replacement at all, replacing changes nothing.
pub proof fn law_no_replacement_keeps_tree(j: JsonV, reps: Seq<Option<JsonV>>, off: int)
    requires
        forall|i: int| 0 <= i < reps.len() ==> #[trigger] reps[i] is None,
    ensures
        replaced(j, reps, off) == j,
    decreases j,
{
    if is_mermaid(j) {
        if 0 <= off < reps.len() {
            assert(reps[off] is None);
        }
    } else {
        match j {
            JsonV::Array(s) => {
                lemma_no_replacement_items(s, reps, off);
            },
            JsonV::Object(m) => {
                lemma_no_replacement_members(m, reps, off);
            },
            _ => {},
        }
    }
}

proof fn lemma_no_replacement_items(s: Seq<JsonV>, reps: Seq<Option<JsonV>>, off: int)
    requires
        forall|i: int| 0 <= i < reps.len() ==> #[trigger] reps[i] is None,
    ensures
        replaced_items(s, reps, off) == s,
    decreases s,
{
    if s.len() > 0 {
        lemma_no_replacement_items(s.drop_last(), reps, off);
        law_no_replacement_keeps_tree(s.last(), reps, off + blocks_items(s.drop_last()).len());
        assert(s.drop_last().push(s.last()) =~= s);
    }
}

proof fn lemma_no_replacement_members(m: Seq<(Seq<char>, JsonV)>, reps: Seq<Option<JsonV>>, off: int)
    requires
        forall|i: int| 0 <= i < reps.len() ==> #[trigger] reps[i] is None,
    ensures
        replaced_members(m, reps, off) == m,
    decreases m,
{
    if m.len() > 0 {
        lemma_no_replacement_members(m.drop_last(), reps, off);
        law_no_replacement_keeps_tree(m.last().1, reps, off + blocks_members(m.drop_last()).len());
        assert(m.drop_last().push((m.last().0, m.last().1)) =~= m);
    }
}

/// When every render failed, the document is left exactly as it was.
pub proof fn law_all_failed_keeps_tree(
    tree: JsonV,
    outs: Seq<OutcomeV>,
    dir: Option<Seq<char>>,
    paths: Seq<Seq<char>>,
)
    requires
        forall|i: int| 0 <= i < outs.len() ==> #[trigger] outs[i] is Failed,
    ensures
        replaced(tree, planned_reps(outs, dir, paths), 0) == tree,
{
    let reps = planned_reps(outs, dir, paths);
    assert forall|i: int| 0 <= i < reps.len() implies #[trigger] reps[i] is None by {
        assert(outs[i] is Failed);
    }
    law_no_replacement_keeps_tree(tree, reps, 0);
}

/// Each outcome yields exactly one of a rendering or a warning.
pub proof fn law_warning_or_rendering(outs: Seq<OutcomeV>)
    ensures
        warnings_of(outs).len() + rendered_svgs(outs).len() == outs.len(),
    decreases outs.len(),
{
    if outs.len() > 0 {
        law_warning_or_rendering(outs.drop_last());
    }
}


proof fn lemma_last_positional_skip(a: Seq<Seq<char>>, u: Seq<char>, b: Seq<Seq<char>>)
    requires
        !is_positional(u),
    ensures
        last_positional(a + seq![u] + b) == last_positional(a + b),
    decreases b.len(),
{
    if b.len() == 0 {
        assert(a + seq![u] + b =~= a.push(u));
        assert(a.push(u).drop_last() =~= a);
        assert(a + b =~= a);
    } else {
        lemma_last_positional_skip(a, u, b.drop_last());
        assert((a + seq![u] + b).drop_last() =~= a + seq![u] + b.drop_last());
        assert((a + b).drop_last() =~= a + b.drop_last());
        assert((a + seq![u] + b).last() == b.last());
        assert((a + b).last() == b.last());
    }
}

/// An unknown flag (one that starts with `-` and is none of `--help`, `-h`,
/// `--version`, `-v`) is ignored wherever it stands.
pub proof fn law_unknown_flag_ignored(a: Seq<Seq<char>>, u: Seq<char>, b: Seq<Seq<char>>)
    requires
        !is_positional(u),
        !is_flag(u),
    ensures
        command_for(a + seq![u] + b) == command_for(a + b),
{
    let x = a + seq![u] + b;
    let y = a + b;
    lemma_first_flag(x);
    lemma_first_flag(y);
    let fy = first_flag(y);
    let fx = first_flag(x);
    // the first flag of `x` is that of `y`, shifted past `u`
    let shifted = if fy < a.len() {
        fy
    } else {
        fy + 1
    };
    assert forall|j: int| 0 <= j < shifted && j < x.len() implies !is_flag(#[trigger] x[j]) by {
        if j < a.len() {
            assert(x[j] == y[j]);
        } else if j > a.len() {
            assert(x[j] == y[j - 1]);
        }
    }
    if fy < y.len() {
        assert(x[shifted] == y[fy]);
        crate::cli::lemma_first_flag_at(x, shifted);
    } else {
        crate::cli::lemma_first_flag_none_before(x, x.len() as int);
        lemma_last_positional_skip(a, u, b);
    }
}


/// The paths and contents of planned files.
pub open spec fn file_views(files: Seq<(String, String)>) -> Seq<(Seq<char>, Seq<char>)> {
    Seq::new(files.len(), |k: int| (files[k].0@, files[k].1@))
}

/// A plan is a function of its outcomes and output directory: two plans for
/// the same outcomes and directory have the same replacements, the same
/// files (paths and contents) and the same warnings.
pub proof fn law_plan_determined(
    outs: Seq<OutcomeV>,
    dir: Option<Seq<char>>,
    reps1: Seq<Option<JsonV>>,
    files1: Seq<(String, String)>,
    warnings1: Seq<Seq<char>>,
    reps2: Seq<Option<JsonV>>,
    files2: Seq<(String, String)>,
    warnings2: Seq<Seq<char>>,
)
    requires
        is_plan(outs, dir, reps1, files1, warnings1),
        is_plan(outs, dir, reps2, files2, warnings2),
    ensures
        reps1 == reps2,
        file_views(files1) == file_views(files2),
        warnings1 == warnings2,
{
    match dir {
        None => {},
        Some(d) => {
            assert forall|k: int| 0 <= k < files1.len() implies files1[k].0@ == files2[k].0@
                && files1[k].1@ == files2[k].1@ by {
                assert(crate::filter::file_ok(files1[k], rendered_svgs(outs)[k], d));
                assert(crate::filter::file_ok(files2[k], rendered_svgs(outs)[k], d));
            }
        },
    }
    assert(file_views(files1) =~= file_views(files2));
    assert(file_paths(files1) =~= file_paths(files2));
    assert(planned_reps(outs, dir, file_paths(files1)) =~= planned_reps(outs, dir, file_paths(files2)));
}


/// The formats that get inline SVG are exactly these twenty-two; every other
/// format name (odt, beamer, context, ...) gets an SVG file.
pub proof fn law_html_formats_are_the_named_ones(f: Seq<char>)
    ensures
        html_formats().contains(f) <==> (f == "html"@
            || f == "html4"@
            || f == "html5"@
            || f == "s5"@
            || f == "slidy"@
            || f == "slideous"@
            || f == "dzslides"@
            || f == "revealjs"@
            || f == "markdown"@
            || f == "markdown_github"@
            || f == "markdown_mmd"@
            || f == "markdown_phpextra"@
            || f == "markdown_strict"@
            || f == "commonmark"@
            || f == "commonmark_x"@
            || f == "gfm"@
            || f == "org"@
            || f == "rst"@
            || f == "mediawiki"@
            || f == "muse"@
            || f == "textile"@
            || f == "docbook4"@),
{
    let h = html_formats();
    if h.contains(f) {
        let i = choose|i: int| 0 <= i < h.len() && h[i] == f;
        assert(0 <= i < 22);
    }
    if f == "html"@ {
        assert(h[0] == f);
    }
    if f == "html4"@ {
        assert(h[1] == f);
    }
    if f == "html5"@ {
        assert(h[2] == f);
    }
    if f == "s5"@ {
        assert(h[3] == f);
    }
    if f == "slidy"@ {
        assert(h[4] == f);
    }
    if f == "slideous"@ {
        assert(h[5] == f);
    }
    if f == "dzslides"@ {
        assert(h[6] == f);
    }
    if f == "revealjs"@ {
        assert(h[7] == f);
    }
    if f == "markdown"@ {
        assert(h[8] == f);
    }
    if f == "markdown_github"@ {
        assert(h[9] == f);
    }
    if f == "markdown_mmd"@ {
        assert(h[10] == f);
    }
    if f == "markdown_phpextra"@ {
        assert(h[11] == f);
    }
    if f == "markdown_strict"@ {
        assert(h[12] == f);
    }
    if f == "commonmark"@ {
        assert(h[13] == f);
    }
    if f == "commonmark_x"@ {
        assert(h[14] == f);
    }
    if f == "gfm"@ {
        assert(h[15] == f);
    }
    if f == "org"@ {
        assert(h[16] == f);
    }
    if f == "rst"@ {
        assert(h[17] == f);
    }
    if f == "mediawiki"@ {
        assert(h[18] == f);
    }
    if f == "muse"@ {
        assert(h[19] == f);
    }
    if f == "textile"@ {
        assert(h[20] == f);
    }
    if f == "docbook4"@ {
        assert(h[21] == f);
    }
}

/// `b` agrees with `a` everywhere outside the Mermaid blocks of `a`: same
/// kinds, same array lengths, same keys in the same order, and the same
/// leaves (null, booleans, numbers, strings); only a Mermaid block of `a`
/// may stand for anything in `b`.
pub open spec fn same_outside_blocks(a: JsonV, b: JsonV) -> bool
    decreases a,
{
    if is_mermaid(a) {
        true
    } else {
        match a {
            JsonV::Array(s) => match b {
                JsonV::Array(t) => same_outside_items(s, t),
                _ => false,
            },
            JsonV::Object(m) => match b {
                JsonV::Object(n) => same_outside_members(m, n),
                _ => false,
            },
            _ => b == a,
        }
    }
}

/// [`same_outside_blocks`] element by element.
pub open spec fn same_outside_items(s: Seq<JsonV>, t: Seq<JsonV>) -> bool
    decreases s,
{
    &&& s.len() == t.len()
    &&& s.len() > 0 ==> {
        &&& same_outside_items(s.drop_last(), t.drop_last())
        &&& same_outside_blocks(s.last(), t.last())
    }
}

/// [`same_outside_blocks`] member by member, keys equal.
pub open spec fn same_outside_members(m: Seq<(Seq<char>, JsonV)>, n: Seq<(Seq<char>, JsonV)>) -> bool
    decreases m,
{
    &&& m.len() == n.len()
    &&& m.len() > 0 ==> {
        &&& same_outside_members(m.drop_last(), n.drop_last())
        &&& m.last().0 == n.last().0
        &&& same_outside_blocks(m.last().1, n.last().1)
    }
}

/// Replacing Mermaid blocks changes nothing outside them: whatever the
/// replacements, every other value of the document (every number, string,
/// key, array length) is kept exactly.
pub proof fn law_replacement_keeps_the_rest(j: JsonV, reps: Seq<Option<JsonV>>, off: int)
    ensures
        same_outside_blocks(j, replaced(j, reps, off)),
    decreases j,
{
    if !is_mermaid(j) {
        match j {
            JsonV::Array(s) => {
                lemma_items_keep_rest(s, reps, off);
            },
            JsonV::Object(m) => {
                lemma_members_keep_rest(m, reps, off);
            },
            _ => {},
        }
    }
}

proof fn lemma_items_keep_rest(s: Seq<JsonV>, reps: Seq<Option<JsonV>>, off: int)
    ensures
        same_outside_items(s, replaced_items(s, reps, off)),
    decreases s,
{
    if s.len() > 0 {
        let p = s.drop_last();
        let r = replaced_items(s, reps, off);
        lemma_items_keep_rest(p, reps, off);
        law_replacement_keeps_the_rest(s.last(), reps, off + blocks_items(p).len());
        assert(r.drop_last() =~= replaced_items(p, reps, off));
    }
}

proof fn lemma_members_keep_rest(m: Seq<(Seq<char>, JsonV)>, reps: Seq<Option<JsonV>>, off: int)
    ensures
        same_outside_members(m, replaced_members(m, reps, off)),
    decreases m,
{
    if m.len() > 0 {
        let p = m.drop_last();
        let r = replaced_members(m, reps, off);
        lemma_members_keep_rest(p, reps, off);
        law_replacement_keeps_the_rest(m.last().1, reps, off + blocks_members(p).len());
        assert(r.drop_last() =~= replaced_members(p, reps, off));
    }
}

/// A leaf (null, boolean, number, string) is never a Mermaid block and is
/// kept by any replacement.
pub proof fn law_leaves_are_kept(x: JsonV, reps: Seq<Option<JsonV>>, off: int)
    requires
        !(x is Array) && !(x is Object),
    ensures
        replaced(x, reps, off) == x,
{
}

proof fn lemma_two_members(a: (Seq<char>, JsonV), b: (Seq<char>, JsonV), k: Seq<char>)
    ensures
        member_value(seq![a, b], k) == if a.0 == k {
            Some(a.1)
        } else if b.0 == k {
            Some(b.1)
        } else {
            None
        },
{
    assert(seq![a, b].drop_first() =~= seq![b]);
    assert(seq![b].drop_first() =~= Seq::<(Seq<char>, JsonV)>::empty());
    assert(member_value(Seq::<(Seq<char>, JsonV)>::empty(), k) is None);
    assert(member_value(seq![b], k) == if b.0 == k {
        Some(b.1)
    } else {
        None
    });
}

proof fn lemma_t_c_differ()
    ensures
        "t"@ != "c"@,
{
    reveal_strlit("t");
    reveal_strlit("c");
    assert("t"@[0] == 't' && "c"@[0] == 'c');
}

/// A Pandoc `CodeBlock` node, `{"t": "CodeBlock", "c": [[id, classes, kvs], src]}`,
/// members in the order given by `t_first`.
pub open spec fn code_block(t: Seq<char>, id: JsonV, classes: Seq<JsonV>, kvs: JsonV, src: JsonV, t_first: bool) -> JsonV {
    let tv = ("t"@, JsonV::Str(t));
    let cv = ("c"@, JsonV::Array(seq![JsonV::Array(seq![id, JsonV::Array(classes), kvs]), src]));
    JsonV::Object(if t_first { seq![tv, cv] } else { seq![cv, tv] })
}

proof fn lemma_code_block_fields(t: Seq<char>, id: JsonV, classes: Seq<JsonV>, kvs: JsonV, src: JsonV, t_first: bool)
    ensures
        key(code_block(t, id, classes, kvs, src, t_first), "t"@) == JsonV::Str(t),
        idx(idx(key(code_block(t, id, classes, kvs, src, t_first), "c"@), 0), 1) == JsonV::Array(classes),
        idx(key(code_block(t, id, classes, kvs, src, t_first), "c"@), 1) == src,
{
    lemma_t_c_differ();
    let tv = ("t"@, JsonV::Str(t));
    let cv = ("c"@, JsonV::Array(seq![JsonV::Array(seq![id, JsonV::Array(classes), kvs]), src]));
    lemma_two_members(tv, cv, "t"@);
    lemma_two_members(tv, cv, "c"@);
    lemma_two_members(cv, tv, "t"@);
    lemma_two_members(cv, tv, "c"@);
}

/// A `CodeBlock` is a Mermaid block exactly when `mermaid` is one of its
/// classes, at any position and whatever the other classes; a node of any
/// other type never is.
pub proof fn law_mermaid_class_anywhere(
    t: Seq<char>,
    id: JsonV,
    classes: Seq<JsonV>,
    kvs: JsonV,
    src: JsonV,
    t_first: bool,
)
    ensures
        is_mermaid(code_block(t, id, classes, kvs, src, t_first)) <==> (t == "CodeBlock"@ && exists|i: int|
            0 <= i < classes.len() && classes[i] == JsonV::Str("mermaid"@)),
{
    lemma_code_block_fields(t, id, classes, kvs, src, t_first);
}

/// The class test on any value: whenever `b` is a `CodeBlock` whose class
/// list (`c[0][1]`) holds the string `mermaid` at some position, `b` is a
/// Mermaid block.
pub proof fn law_mermaid_class_at(b: JsonV, classes: Seq<JsonV>, i: int)
    requires
        key(b, "t"@) == JsonV::Str("CodeBlock"@),
        idx(idx(key(b, "c"@), 0), 1) == JsonV::Array(classes),
        0 <= i < classes.len(),
        classes[i] == JsonV::Str("mermaid"@),
    ensures
        is_mermaid(b),
{
}

/// The source handed to the renderer is the block's `c[1]` string, whole.
pub proof fn law_source_is_whole(
    id: JsonV,
    classes: Seq<JsonV>,
    kvs: JsonV,
    src: Seq<char>,
    t_first: bool,
)
    ensures
        source_of(code_block("CodeBlock"@, id, classes, kvs, JsonV::Str(src), t_first)) == src,
{
    lemma_code_block_fields("CodeBlock"@, id, classes, kvs, JsonV::Str(src), t_first);
}

/// The source of any block is its `c[1]` when that is a string.
pub proof fn law_source_is_c1(b: JsonV, src: Seq<char>)
    requires
        idx(key(b, "c"@), 1) == JsonV::Str(src),
    ensures
        source_of(b) == src,
{
}

/// The inline node is `RawBlock` with format `html` and the SVG text whole.
pub proof fn law_raw_block_holds_svg(svg: Seq<char>)
    ensures
        key(raw_block_v(svg), "t"@) == JsonV::Str("RawBlock"@),
        idx(key(raw_block_v(svg), "c"@), 0) == JsonV::Str("html"@),
        idx(key(raw_block_v(svg), "c"@), 1) == JsonV::Str(svg),
        idx(key(raw_block_v(svg), "c"@), 1)->Str_0.len() == svg.len(),
{
    lemma_t_c_differ();
    let v = raw_block_v(svg);
    let m = v->Object_0;
    lemma_two_members(m[0], m[1], "t"@);
    lemma_two_members(m[0], m[1], "c"@);
    assert(m =~= seq![m[0], m[1]]);
}

/// The image node is a `Para` holding one `Image` whose target is `path`.
pub proof fn law_image_block_targets_path(path: Seq<char>)
    ensures
        key(image_block_v(path), "t"@) == JsonV::Str("Para"@),
        key(idx(key(image_block_v(path), "c"@), 0), "t"@) == JsonV::Str("Image"@),
        idx(idx(key(idx(key(image_block_v(path), "c"@), 0), "c"@), 2), 0) == JsonV::Str(path),
{
    lemma_t_c_differ();
    let m = image_block_v(path)->Object_0;
    lemma_two_members(m[0], m[1], "t"@);
    lemma_two_members(m[0], m[1], "c"@);
    assert(m =~= seq![m[0], m[1]]);
    let image = idx(key(image_block_v(path), "c"@), 0);
    let n = image->Object_0;
    lemma_two_members(n[0], n[1], "t"@);
    lemma_two_members(n[0], n[1], "c"@);
    assert(n =~= seq![n[0], n[1]]);
}
} // verus!
