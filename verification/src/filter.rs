use vstd::prelude::*;

use crate::json::{Json, JsonV};
use crate::pandoc::{
    raw_block, raw_block_v, image_block, image_block_v, image_path, opt_views, replaced,
    replace_in, is_html_format, html_formats, output_dir, svg_hash,
};
use crate::renderer::{BlockOutcome, OutcomeV, outcome_views};
use crate::text::{decimal, decimal_string};

verus! {

/// The warning for the failed block at position `i` (counted from 0; the
/// message counts from 1).
pub open spec fn warning_text(i: nat, err: Seq<char>) -> Seq<char> {
    "warning: gazu: mermaid block "@ + decimal(i + 1) + " failed to render:\n"@ + err
}

/// One warning per failed outcome, in order.
pub open spec fn warnings_of(outs: Seq<OutcomeV>) -> Seq<Seq<char>>
    decreases outs.len(),
{
    if outs.len() == 0 {
        Seq::empty()
    } else {
        warnings_of(outs.drop_last()) + match outs.last() {
            OutcomeV::Failed(e) => seq![warning_text((outs.len() - 1) as nat, e)],
            OutcomeV::Rendered(_) => Seq::empty(),
        }
    }
}

/// The SVG of each rendered outcome, in order.
pub open spec fn rendered_svgs(outs: Seq<OutcomeV>) -> Seq<Seq<char>>
    decreases outs.len(),
{
    if outs.len() == 0 {
        Seq::empty()
    } else {
        rendered_svgs(outs.drop_last()) + match outs.last() {
            OutcomeV::Rendered(svg) => seq![svg],
            OutcomeV::Failed(_) => Seq::empty(),
        }
    }
}

/// How many outcomes before position `i` rendered.
pub open spec fn rank(outs: Seq<OutcomeV>, i: int) -> int {
    rendered_svgs(outs.take(i)).len() as int
}

/// The replacement planned for outcome `i`: none for a failure; for a
/// rendered SVG, the SVG as raw HTML when there is no output directory, else
/// an image of the `rank`-th written file.
pub open spec fn planned_rep(
    outs: Seq<OutcomeV>,
    i: int,
    dir: Option<Seq<char>>,
    paths: Seq<Seq<char>>,
) -> Option<JsonV> {
    match outs[i] {
        OutcomeV::Failed(_) => None,
        OutcomeV::Rendered(svg) => Some(
            match dir {
                None => raw_block_v(svg),
                Some(_) => image_block_v(paths[rank(outs, i)]),
            },
        ),
    }
}

/// The replacements planned for all outcomes.
pub open spec fn planned_reps(
    outs: Seq<OutcomeV>,
    dir: Option<Seq<char>>,
    paths: Seq<Seq<char>>,
) -> Seq<Option<JsonV>> {
    Seq::new(outs.len(), |i: int| planned_rep(outs, i, dir, paths))
}

/// A planned file holds `svg` and is named by the hash of `svg` under `dir`.
pub open spec fn file_ok(f: (String, String), svg: Seq<char>, dir: Seq<char>) -> bool {
    &&& f.1@ == svg
    &&& f.0@ == image_path(dir, svg_hash(svg))
}

/// The paths of planned files.
pub open spec fn file_paths(files: Seq<(String, String)>) -> Seq<Seq<char>> {
    Seq::new(files.len(), |k: int| files[k].0@)
}

/// The views of a sequence of strings.
pub open spec fn string_views(s: Seq<String>) -> Seq<Seq<char>> {
    Seq::new(s.len(), |k: int| s[k]@)
}

/// What a plan for `outs` is: replacements as `planned_reps`, one warning per
/// failure, and, with an output directory, one file per rendered SVG, named
/// by the hash of that SVG under that directory and holding it.
pub open spec fn is_plan(
    outs: Seq<OutcomeV>,
    dir: Option<Seq<char>>,
    reps: Seq<Option<JsonV>>,
    files: Seq<(String, String)>,
    warnings: Seq<Seq<char>>,
) -> bool {
    &&& reps == planned_reps(outs, dir, file_paths(files))
    &&& warnings == warnings_of(outs)
    &&& match dir {
        None => files.len() == 0,
        Some(d) => {
            &&& files.len() == rendered_svgs(outs).len()
            &&& forall|k: int|
                0 <= k < files.len() ==> #[trigger] file_ok(files[k], rendered_svgs(outs)[k], d)
        },
    }
}

/// The warning for the failed block at position `i`.
pub fn warning_message(i: usize, err: &str) -> (r: String)
    requires
        i < usize::MAX,
    ensures
        r@ == warning_text(i as nat, err@),
{
    let mut r = String::from_str("warning: gazu: mermaid block ");
    let n = decimal_string(i + 1);
    r.append(n.as_str());
    r.append(" failed to render:\n");
    r.append(err);
    r
}

proof fn lemma_take_step<T>(s: Seq<T>, i: int)
    requires
        0 <= i < s.len(),
    ensures
        s.take(i + 1).drop_last() == s.take(i),
        s.take(i + 1).last() == s[i],
        s.take(i + 1).len() == i + 1,
{
    assert(s.take(i + 1).drop_last() =~= s.take(i));
}

proof fn lemma_rendered_prefix(outs: Seq<OutcomeV>, i: int, j: int)
    requires
        0 <= j <= i <= outs.len(),
    ensures
        rendered_svgs(outs.take(i)).len() >= rendered_svgs(outs.take(j)).len(),
        rendered_svgs(outs.take(j)) == rendered_svgs(outs.take(i)).take(rendered_svgs(outs.take(j)).len() as int),
    decreases i - j,
{
    if j < i {
        lemma_rendered_prefix(outs, i - 1, j);
        lemma_take_step(outs, i - 1);
        let a = rendered_svgs(outs.take(i - 1));
        let b = rendered_svgs(outs.take(i));
        let n = rendered_svgs(outs.take(j)).len() as int;
        assert(b.take(n) =~= a.take(n));
    } else {
        assert(rendered_svgs(outs.take(i)).take(rendered_svgs(outs.take(i)).len() as int) =~= rendered_svgs(outs.take(i)));
    }
}

/// Plans the result of each render outcome: the node that replaces its block
/// (none for a failure), the SVG files to write when `output_dir` is given,
/// and one warning per failure. Computes only; writes nothing.
pub fn plan_outcomes(output_dir: Option<&str>, outcomes: Vec<BlockOutcome>) -> (plan: Plan)
    ensures
        is_plan(
            outcome_views(outcomes@),
            match output_dir {
                Some(d) => Some(d@),
                None => None,
            },
            opt_views(plan.replacements@),
            plan.files@,
            string_views(plan.warnings@),
        ),
{
    let ghost outs = outcome_views(outcomes@);
    let ghost dir: Option<Seq<char>> = match output_dir {
        Some(d) => Some(d@),
        None => None,
    };
    let mut replacements: Vec<Option<Json>> = Vec::new();
    let mut files: Vec<(String, String)> = Vec::new();
    let mut warnings: Vec<String> = Vec::new();
    let mut i: usize = 0;
    while i < outcomes.len()
        invariant
            i <= outcomes@.len(),
            outs == outcome_views(outcomes@),
            dir == match output_dir {
                Some(d) => Some(d@),
                None => None,
            },
            replacements@.len() == i,
            forall|j: int|
                0 <= j < i ==> #[trigger] opt_views(replacements@)[j] == planned_rep(
                    outs,
                    j,
                    dir,
                    file_paths(files@),
                ),
            forall|j: int|
                0 <= j < i ==> (outs[j] is Rendered && dir is Some) ==> rank(outs, j) < files@.len(),
            string_views(warnings@) == warnings_of(outs.take(i as int)),
            dir is None ==> files@.len() == 0,
            dir is Some ==> files@.len() == rendered_svgs(outs.take(i as int)).len(),
            dir is Some ==> forall|k: int|
                0 <= k < files@.len() ==> #[trigger] file_ok(files@[k], rendered_svgs(outs.take(i as int))[k], dir->0),
        decreases outcomes@.len() - i,
    {
        let ghost old_files = files@;
        let ghost old_reps = replacements@;
        let ghost old_warnings = warnings@;
        proof {
            lemma_take_step(outs, i as int);
        }
        match &outcomes[i] {
            BlockOutcome::Rendered(svg) => {
                match output_dir {
                    None => {
                        replacements.push(Some(raw_block(svg.clone())));
                    },
                    Some(d) => {
                        let (path, block) = image_block(d, svg.as_str());
                        let ghost pv = path@;
                        replacements.push(Some(block));
                        files.push((path, svg.clone()));
                        proof {
                            assert(file_ok(files@[old_files.len() as int], svg@, dir->0));
                            assert(rendered_svgs(outs.take(i + 1)) == rendered_svgs(outs.take(i as int)) + seq![svg@]);
                        }
                    },
                }
            },
            BlockOutcome::Failed(err) => {
                replacements.push(None);
                warnings.push(warning_message(i, err.as_str()));
                assert(rendered_svgs(outs.take(i + 1)) =~= rendered_svgs(outs.take(i as int)));
            },
        }
        proof {
            assert(outs[i as int] == outcomes@[i as int]@);
            assert forall|j: int|
                0 <= j < i + 1 implies #[trigger] opt_views(replacements@)[j] == planned_rep(
                outs,
                j,
                dir,
                file_paths(files@),
            ) by {
                if j < i {
                    assert(opt_views(replacements@)[j] == opt_views(old_reps)[j]);
                    if outs[j] is Rendered && dir is Some {
                        assert(file_paths(files@)[rank(outs, j)] == file_paths(old_files)[rank(outs, j)]);
                    }
                } else {
                    assert(outs.take(j) == outs.take(i as int));
                }
            }
            assert(string_views(warnings@) =~= warnings_of(outs.take(i + 1)));
            if dir is Some {
                assert forall|k: int|
                    0 <= k < files@.len() implies #[trigger] file_ok(files@[k], rendered_svgs(outs.take(i + 1))[k], dir->0) by {
                    if k < old_files.len() {
                        assert(files@[k] == old_files[k]);
                    }
                }
            }
        }
        i = i + 1;
    }
    proof {
        assert(outs.take(outcomes@.len() as int) =~= outs);
        assert(opt_views(replacements@) =~= planned_reps(outs, dir, file_paths(files@)));
    }
    Plan { replacements, files, warnings }
}

/// The replacements, files to write and warnings for a list of outcomes.
pub struct Plan {
    /// `Some(v)` replaces the block with `v`; `None` leaves it unchanged.
    pub replacements: Vec<Option<Json>>,
    /// SVG files to write, as `(path, content)` pairs.
    pub files: Vec<(String, String)>,
    /// One entry per failed block.
    pub warnings: Vec<String>,
}


/// Replaces the Mermaid blocks of `root`, in depth-first order, with the
/// given replacements: `Some(v)` replaces the block with `v`, `None` keeps
/// it. Blocks past the end of `replacements` are kept.
pub fn apply_replacements(root: &mut Json, replacements: Vec<Option<Json>>)
    ensures
        final(root)@ == replaced(old(root)@, opt_views(replacements@), 0),
{
    let ghost orig = opt_views(replacements@);
    let mut reps = replacements;
    replace_in(root, &mut reps, 0, Ghost(orig), Ghost(0));
}


/// The output directory for `format`: none when it passes raw HTML
/// through, else [`output_dir`].
pub fn output_dir_for(format: &str) -> (r: Option<&'static str>)
    ensures
        match r {
            None => html_formats().contains(format@),
            Some(d) => !html_formats().contains(format@) && d@ == "gazu"@,
        },
{
    if is_html_format(format) {
        None
    } else {
        Some(output_dir())
    }
}

} // verus!
