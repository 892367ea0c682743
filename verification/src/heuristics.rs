//! Feature-driven primitive selection: a structural profile of the
//! first example pair, and a curated subset of the catalog chosen
//! from it. Selection is a heuristic pruning pass — it never removes
//! `Identity`, but makes no completeness promise.

use vstd::prelude::*;
use crate::grid::{Grid, grid_view, grid_wf, rows_of, cols_of, grid_eq};
use crate::analysis::{unique_colors, is_symmetric_h, is_symmetric_v, detect_period_h,
    detect_period_v, sym_h_s, sym_v_s, unique_colors_s, period_h_spec, period_v_spec};
use crate::objects::{connected_components, comp_roots};
use crate::dsl::Prim;
use crate::compression::exs_wf;

verus! {

/// How the grid's shape changes from input to output.
#[derive(Debug, Clone, PartialEq)]
pub enum DimChange {
    Same,
    Scaled(usize, usize),
    Transposed,
    Cropped,
    Padded,
    Arbitrary,
}

/// How the set of used colors changes from input to output.
#[derive(Debug, Clone, PartialEq)]
pub enum ColorChange {
    Same,
    Bijection,
    Reduction,
    Expansion,
    Complex,
}

/// Structural facts about a task's first example pair.
#[derive(Debug)]
pub struct FeatureProfile {
    pub dim_change: DimChange,
    pub color_change: ColorChange,
    pub object_delta: i64,
    pub input_symmetric_h: bool,
    pub input_symmetric_v: bool,
    pub output_symmetric_h: bool,
    pub output_symmetric_v: bool,
    pub input_period_h: Option<usize>,
    pub input_period_v: Option<usize>,
    pub output_period_h: Option<usize>,
    pub output_period_v: Option<usize>,
    pub same_grid: bool,
    pub input_colors: Vec<u8>,
    pub output_colors: Vec<u8>,
    pub input_dims: (usize, usize),
    pub output_dims: (usize, usize),
}

/// The shape classification, as a function of the two dimensions.
pub open spec fn dim_change_s(ir: int, ic: int, or: int, oc: int) -> DimChange {
    if ir == or && ic == oc {
        DimChange::Same
    } else if ir == oc && ic == or {
        DimChange::Transposed
    } else if or > 0 && oc > 0 && ir > 0 && ic > 0 && or % ir == 0 && oc % ic == 0 && (or / ir > 1
        || oc / ic > 1) {
        DimChange::Scaled((or / ir) as usize, (oc / ic) as usize)
    } else if or < ir || oc < ic {
        DimChange::Cropped
    } else if or > ir || oc > ic {
        DimChange::Padded
    } else {
        DimChange::Arbitrary
    }
}

fn classify_dim_change(in_d: (usize, usize), out_d: (usize, usize)) -> (r: DimChange)
    ensures
        r == dim_change_s(in_d.0 as int, in_d.1 as int, out_d.0 as int, out_d.1 as int),
{
    let (ir, ic) = in_d;
    let (or_, oc) = out_d;
    if ir == or_ && ic == oc {
        return DimChange::Same;
    }
    if ir == oc && ic == or_ {
        return DimChange::Transposed;
    }
    if or_ > 0 && oc > 0 && ir > 0 && ic > 0 {
        if or_ % ir == 0 && oc % ic == 0 {
            let rf = or_ / ir;
            let cf = oc / ic;
            if rf > 1 || cf > 1 {
                return DimChange::Scaled(rf, cf);
            }
        }
    }
    if or_ < ir || oc < ic {
        return DimChange::Cropped;
    }
    if or_ > ir || oc > ic {
        return DimChange::Padded;
    }
    DimChange::Arbitrary
}

/// The color classification, as a function of the distinct-color
/// counts (the inventories hold each color once).
pub open spec fn color_change_s(inc: Seq<u8>, outc: Seq<u8>) -> ColorChange {
    if inc == outc {
        ColorChange::Same
    } else if inc.len() == outc.len() {
        ColorChange::Bijection
    } else if outc.len() < inc.len() {
        ColorChange::Reduction
    } else {
        ColorChange::Expansion
    }
}

fn classify_color_change(in_c: &Vec<u8>, out_c: &Vec<u8>) -> (r: ColorChange)
    ensures
        r == color_change_s(in_c@, out_c@),
{
    let mut same = in_c.len() == out_c.len();
    if same {
        let mut i: usize = 0;
        while same && i < in_c.len()
            invariant
                0 <= i <= in_c.len(),
                in_c.len() == out_c.len(),
                same ==> forall|k: int| 0 <= k < i ==> in_c@[k] == out_c@[k],
                !same ==> i < in_c@.len() && in_c@[i as int] != out_c@[i as int],
            decreases in_c.len() - i + (if same { 1int } else { 0int }),
        {
            if in_c[i] != out_c[i] {
                same = false;
            } else {
                i += 1;
            }
        }
        if same {
            assert(in_c@ =~= out_c@);
            return ColorChange::Same;
        }
    }
    if in_c.len() == out_c.len() {
        return ColorChange::Bijection;
    }
    if out_c.len() < in_c.len() {
        return ColorChange::Reduction;
    }
    ColorChange::Expansion
}

/// Profiles the first example pair of a task. The shape and color
/// classifications, symmetry flags, periods and inventories are each
/// exact functions of that pair.
pub fn analyze_features(examples: &Vec<(Grid, Grid)>) -> (p: FeatureProfile)
    requires
        exs_wf(examples),
    ensures
        examples@.len() > 0 ==> {
            let a = grid_view(&examples@[0].0);
            let b = grid_view(&examples@[0].1);
            &&& p.dim_change == dim_change_s(
                rows_of(a) as int,
                cols_of(a) as int,
                rows_of(b) as int,
                cols_of(b) as int,
            )
            &&& p.color_change == color_change_s(unique_colors_s(a), unique_colors_s(b))
            &&& p.object_delta == crate::objects::comp_roots(b, false, true).len()
                - crate::objects::comp_roots(a, false, true).len()
            &&& p.input_symmetric_h == sym_h_s(a)
            &&& p.input_symmetric_v == sym_v_s(a)
            &&& p.output_symmetric_h == sym_h_s(b)
            &&& p.output_symmetric_v == sym_v_s(b)
            &&& period_h_spec(a, p.input_period_h)
            &&& period_v_spec(a, p.input_period_v)
            &&& period_h_spec(b, p.output_period_h)
            &&& period_v_spec(b, p.output_period_v)
            &&& p.same_grid == (a =~~= b)
            &&& p.input_colors@ == unique_colors_s(a)
            &&& p.output_colors@ == unique_colors_s(b)
            &&& p.input_dims.0 == rows_of(a) && p.input_dims.1 == cols_of(a)
            &&& p.output_dims.0 == rows_of(b) && p.output_dims.1 == cols_of(b)
        },
        examples@.len() == 0 ==> p.dim_change == DimChange::Same && p.color_change
            == ColorChange::Same && p.object_delta == 0 && p.same_grid && p.input_period_h
            is None && p.input_period_v is None && p.output_period_h is None && p.output_period_v
            is None && p.input_colors@.len() == 0 && p.output_colors@.len() == 0 && p.input_dims
            == (0usize, 0usize) && p.output_dims == (0usize, 0usize),
{
    if examples.is_empty() {
        return FeatureProfile {
            dim_change: DimChange::Same,
            color_change: ColorChange::Same,
            object_delta: 0,
            input_symmetric_h: false,
            input_symmetric_v: false,
            output_symmetric_h: false,
            output_symmetric_v: false,
            input_period_h: None,
            input_period_v: None,
            output_period_h: None,
            output_period_v: None,
            same_grid: true,
            input_colors: Vec::new(),
            output_colors: Vec::new(),
            input_dims: (0, 0),
            output_dims: (0, 0),
        };
    }
    let input = &examples[0].0;
    let output = &examples[0].1;
    let in_dims = crate::grid::grid_dimensions(input);
    let out_dims = crate::grid::grid_dimensions(output);
    let in_colors = unique_colors(input);
    let out_colors = unique_colors(output);
    let in_objs = connected_components(input, true);
    let out_objs = connected_components(output, true);
    let dim_change = classify_dim_change(in_dims, out_dims);
    let color_change = classify_color_change(&in_colors, &out_colors);
    assert(in_objs@.len() <= 0xFFFF_FFFF_FFFFu64 && out_objs@.len() <= 0xFFFF_FFFF_FFFFu64) by {
        assert(in_objs@.len() == comp_roots(grid_view(input), false, true).len());
        crate::objects::lemma_roots_len_bound(grid_view(input));
        crate::objects::lemma_roots_len_bound(grid_view(output));
    }
    let object_delta: i64 = out_objs.len() as i64 - in_objs.len() as i64;
    FeatureProfile {
        dim_change,
        color_change,
        object_delta,
        input_symmetric_h: is_symmetric_h(input),
        input_symmetric_v: is_symmetric_v(input),
        output_symmetric_h: is_symmetric_h(output),
        output_symmetric_v: is_symmetric_v(output),
        input_period_h: detect_period_h(input),
        input_period_v: detect_period_v(input),
        output_period_h: detect_period_h(output),
        output_period_v: detect_period_v(output),
        same_grid: grid_eq(input, output),
        input_colors: in_colors,
        output_colors: out_colors,
        input_dims: in_dims,
        output_dims: out_dims,
    }
}

/// The memberships the profile owes the selection: `Identity` stays;
/// a same-shape profile keeps the rotations and flips; a transposed
/// one keeps `Transpose`; and a scaled one keeps the sized transforms.
pub open spec fn selection_core(ps: Seq<Prim>, profile: &FeatureProfile) -> bool {
    &&& ps.len() > 0
    &&& ps[0] == Prim::Identity
    &&& profile.dim_change is Same ==> ps.contains(Prim::RotateCW) && ps.contains(
        Prim::RotateCCW,
    ) && ps.contains(Prim::Rotate180) && ps.contains(Prim::FlipH) && ps.contains(Prim::FlipV)
    &&& profile.dim_change is Transposed ==> ps.contains(Prim::Transpose)
    &&& profile.dim_change is Scaled ==> ps.contains(Prim::Scale(2)) && ps.contains(
        Prim::Scale(3),
    ) && ps.contains(Prim::Scale(4)) && ps.contains(Prim::RepeatH(2)) && ps.contains(
        Prim::RepeatH(3),
    ) && ps.contains(Prim::RepeatH(4)) && ps.contains(Prim::RepeatV(2)) && ps.contains(
        Prim::RepeatV(3),
    ) && ps.contains(Prim::RepeatV(4))
}

/// The cross-pair replacements a color bijection owes the selection.
pub open spec fn selection_bijection(ps: Seq<Prim>, profile: &FeatureProfile) -> bool {
    profile.color_change is Bijection ==> forall|x: int, y: int|
        0 <= x < profile.input_colors@.len() && 0 <= y < profile.output_colors@.len()
            && profile.input_colors@[x] != profile.output_colors@[y] ==> #[trigger] ps.contains(
            Prim::ReplaceColor(profile.input_colors@[x], profile.output_colors@[y]),
        )
}

/// Extending a sequence on the right keeps everything it contains.
pub(crate) proof fn lemma_extend_contains(pre: Seq<Prim>, cur: Seq<Prim>)
    requires
        pre.len() <= cur.len(),
        forall|k: int| 0 <= k < pre.len() ==> cur[k] == pre[k],
    ensures
        forall|p: Prim| pre.contains(p) ==> #[trigger] cur.contains(p),
{
    assert forall|p: Prim| pre.contains(p) implies cur.contains(p) by {
        let ix = choose|ix: int| 0 <= ix < pre.len() && pre[ix] == p;
        assert(cur[ix] == p);
    }
}

/// `selection_core` survives extending the list on the right.
pub(crate) proof fn lemma_core_step(pre: Seq<Prim>, cur: Seq<Prim>, profile: &FeatureProfile)
    requires
        selection_core(pre, profile),
        pre.len() <= cur.len(),
        forall|k: int| 0 <= k < pre.len() ==> cur[k] == pre[k],
    ensures
        selection_core(cur, profile),
{
    lemma_extend_contains(pre, cur);
    assert(cur[0] == pre[0]);
}

/// Selects the primitives a profile makes plausible. `Identity` is
/// always the first entry; the list is structurally deduplicated;
/// and it keeps the memberships the profile owes.
pub fn select_primitives(profile: &FeatureProfile) -> (r: Vec<Prim>)
    ensures
        r@.len() > 0,
        r@[0] == Prim::Identity,
        selection_core(r@, profile),
        selection_bijection(r@, profile),
        forall|i: int, j: int| 0 <= i < j < r@.len() ==> r@[i] != r@[j],
{
    let mut prims: Vec<Prim> = Vec::new();
    prims.push(Prim::Identity);
    match &profile.dim_change {
        DimChange::Same => {
            prims.push(Prim::RotateCW);
            prims.push(Prim::RotateCCW);
            prims.push(Prim::Rotate180);
            prims.push(Prim::FlipH);
            prims.push(Prim::FlipV);
            prims.push(Prim::GravityDown);
            prims.push(Prim::GravityUp);
            prims.push(Prim::GravityLeft);
            prims.push(Prim::GravityRight);
            prims.push(Prim::Invert);
            prims.push(Prim::SortRowsByColor);
            prims.push(Prim::SortColsByColor);
            prims.push(Prim::KeepLargestObject);
            prims.push(Prim::KeepSmallestObject);
            prims.push(Prim::ExtendHLines);
            prims.push(Prim::ExtendVLines);
            prims.push(Prim::ExtendCross);
            prims.push(Prim::DiagFillTL);
            prims.push(Prim::DiagFillTR);
            prims.push(Prim::Translate(-2, 0));
            prims.push(Prim::Translate(-1, 0));
            prims.push(Prim::Translate(1, 0));
            prims.push(Prim::Translate(2, 0));
            prims.push(Prim::Translate(0, -2));
            prims.push(Prim::Translate(0, -1));
            prims.push(Prim::Translate(0, 1));
            prims.push(Prim::Translate(0, 2));
            proof {
                assert(prims@[1] == Prim::RotateCW);
                assert(prims@[2] == Prim::RotateCCW);
                assert(prims@[3] == Prim::Rotate180);
                assert(prims@[4] == Prim::FlipH);
                assert(prims@[5] == Prim::FlipV);
                assert(selection_core(prims@, profile));
            }
            add_color_ops(&mut prims, &profile.input_colors, &profile.output_colors);
        },
        DimChange::Transposed => {
            prims.push(Prim::Transpose);
            prims.push(Prim::RotateCW);
            prims.push(Prim::RotateCCW);
            proof {
                assert(prims@[1] == Prim::Transpose);
            }
        },
        DimChange::Scaled(rf, cf) => {
            let mut k: usize = 2;
            while k <= 4
                invariant
                    2 <= k <= 5,
                    prims@.len() > 0,
                    prims@[0] == Prim::Identity,
                    forall|f: usize| 2 <= f < k ==> #[trigger] prims@.contains(Prim::Scale(f))
                        && prims@.contains(Prim::RepeatH(f)) && prims@.contains(Prim::RepeatV(f)),
                decreases 5 - k,
            {
                let ghost pre = prims@;
                prims.push(Prim::Scale(k));
                prims.push(Prim::RepeatH(k));
                prims.push(Prim::RepeatV(k));
                proof {
                    lemma_extend_contains(pre, prims@);
                    assert(prims@[prims@.len() - 3] == Prim::Scale(k));
                    assert(prims@[prims@.len() - 2] == Prim::RepeatH(k));
                    assert(prims@[prims@.len() - 1] == Prim::RepeatV(k));
                    assert forall|f: usize| 2 <= f < k + 1 implies #[trigger] prims@.contains(
                        Prim::Scale(f),
                    ) && prims@.contains(Prim::RepeatH(f)) && prims@.contains(
                        Prim::RepeatV(f),
                    ) by {
                        if f < k {
                            assert(pre.contains(Prim::Scale(f)));
                            assert(pre.contains(Prim::RepeatH(f)));
                            assert(pre.contains(Prim::RepeatV(f)));
                        } else {
                            assert(prims@.contains(Prim::Scale(k)));
                            assert(prims@.contains(Prim::RepeatH(k)));
                            assert(prims@.contains(Prim::RepeatV(k)));
                        }
                    }
                }
                k += 1;
            }
            let ghost after_loop = prims@;
            if rf == cf {
                prims.push(Prim::Scale(*rf));
            }
            prims.push(Prim::MirrorH);
            prims.push(Prim::MirrorV);
            proof {
                lemma_extend_contains(after_loop, prims@);
                assert(after_loop.contains(Prim::Scale(2)));
                assert(after_loop.contains(Prim::Scale(3)));
                assert(after_loop.contains(Prim::Scale(4)));
                assert(after_loop.contains(Prim::RepeatH(2)));
                assert(after_loop.contains(Prim::RepeatH(3)));
                assert(after_loop.contains(Prim::RepeatH(4)));
                assert(after_loop.contains(Prim::RepeatV(2)));
                assert(after_loop.contains(Prim::RepeatV(3)));
                assert(after_loop.contains(Prim::RepeatV(4)));
                assert(selection_core(prims@, profile));
            }
        },
        DimChange::Cropped => {
            prims.push(Prim::KeepLargestObject);
            prims.push(Prim::KeepSmallestObject);
            prims.push(Prim::CropToBBox);
            let mut i: usize = 0;
            while i < 5
                invariant
                    0 <= i <= 5,
                    prims@.len() > 0,
                    prims@[0] == Prim::Identity,
                decreases 5 - i,
            {
                prims.push(Prim::ExtractObject(i));
                i += 1;
            }
        },
        DimChange::Padded => {
            let mut c: u8 = 0;
            while c < 10
                invariant
                    0 <= c <= 10,
                    prims@.len() > 0,
                    prims@[0] == Prim::Identity,
                decreases 10 - c,
            {
                prims.push(Prim::Pad(1, c));
                prims.push(Prim::BorderFill(c));
                c += 1;
            }
            prims.push(Prim::MirrorH);
            prims.push(Prim::MirrorV);
        },
        DimChange::Arbitrary => {
            prims.push(Prim::KeepLargestObject);
            prims.push(Prim::KeepSmallestObject);
            prims.push(Prim::Transpose);
            let mut i: usize = 0;
            while i < 3
                invariant
                    0 <= i <= 3,
                    prims@.len() > 0,
                    prims@[0] == Prim::Identity,
                decreases 3 - i,
            {
                prims.push(Prim::ExtractObject(i));
                i += 1;
            }
        },
    }
    assert(selection_core(prims@, profile));
    if profile.output_symmetric_h && !profile.input_symmetric_h {
        let ghost pre = prims@;
        prims.push(Prim::MirrorH);
        prims.push(Prim::FlipH);
        proof {
            lemma_core_step(pre, prims@, profile);
        }
    }
    if profile.output_symmetric_v && !profile.input_symmetric_v {
        let ghost pre = prims@;
        prims.push(Prim::MirrorV);
        prims.push(Prim::FlipV);
        proof {
            lemma_core_step(pre, prims@, profile);
        }
    }
    if profile.object_delta < 0 {
        let ghost pre = prims@;
        prims.push(Prim::KeepLargestObject);
        prims.push(Prim::KeepSmallestObject);
        proof {
            lemma_core_step(pre, prims@, profile);
        }
        let mut c: u8 = 0;
        while c < 10
            invariant
                0 <= c <= 10,
                selection_core(prims@, profile),
            decreases 10 - c,
        {
            let ghost pre2 = prims@;
            prims.push(Prim::RemoveColor(c));
            proof {
                lemma_core_step(pre2, prims@, profile);
            }
            c += 1;
        }
    }
    if profile.object_delta > 0 {
        let mut c: u8 = 0;
        while c < 10
            invariant
                0 <= c <= 10,
                selection_core(prims@, profile),
            decreases 10 - c,
        {
            let ghost pre = prims@;
            prims.push(Prim::OutlineObjects(c));
            prims.push(Prim::FillInsideObjects(c));
            proof {
                lemma_core_step(pre, prims@, profile);
            }
            c += 1;
        }
    }
    match &profile.color_change {
        ColorChange::Bijection => {
            let mut i: usize = 0;
            while i < profile.input_colors.len()
                invariant
                    0 <= i <= profile.input_colors@.len(),
                    selection_core(prims@, profile),
                    forall|x: int, y: int|
                        0 <= x < i && 0 <= y < profile.output_colors@.len()
                            && profile.input_colors@[x] != profile.output_colors@[y]
                            ==> #[trigger] prims@.contains(
                            Prim::ReplaceColor(
                                profile.input_colors@[x],
                                profile.output_colors@[y],
                            ),
                        ),
                decreases profile.input_colors@.len() - i,
            {
                let ic = profile.input_colors[i];
                let mut j: usize = 0;
                while j < profile.output_colors.len()
                    invariant
                        0 <= j <= profile.output_colors@.len(),
                        0 <= i < profile.input_colors@.len(),
                        ic == profile.input_colors@[i as int],
                        selection_core(prims@, profile),
                        forall|x: int, y: int|
                            0 <= x < i && 0 <= y < profile.output_colors@.len()
                                && profile.input_colors@[x] != profile.output_colors@[y]
                                ==> #[trigger] prims@.contains(
                                Prim::ReplaceColor(
                                    profile.input_colors@[x],
                                    profile.output_colors@[y],
                                ),
                            ),
                        forall|y: int|
                            0 <= y < j && ic != profile.output_colors@[y]
                                ==> #[trigger] prims@.contains(
                                Prim::ReplaceColor(ic, profile.output_colors@[y]),
                            ),
                    decreases profile.output_colors@.len() - j,
                {
                    let oc = profile.output_colors[j];
                    let ghost pre = prims@;
                    if ic != oc {
                        prims.push(Prim::ReplaceColor(ic, oc));
                    }
                    proof {
                        lemma_core_step(pre, prims@, profile);
                        lemma_extend_contains(pre, prims@);
                        if ic != oc {
                            assert(prims@[prims@.len() - 1] == Prim::ReplaceColor(ic, oc));
                            assert(prims@.contains(Prim::ReplaceColor(ic, oc)));
                        }
                    }
                    j += 1;
                }
                proof {
                    assert forall|x: int, y: int|
                        0 <= x < i + 1 && 0 <= y < profile.output_colors@.len()
                            && profile.input_colors@[x] != profile.output_colors@[y]
                            implies #[trigger] prims@.contains(
                        Prim::ReplaceColor(profile.input_colors@[x], profile.output_colors@[y]),
                    ) by {
                        if x == i {
                            assert(profile.input_colors@[x] == ic);
                        }
                    }
                }
                i += 1;
            }
        },
        ColorChange::Reduction => {
            let mut i: usize = 0;
            while i < profile.input_colors.len()
                invariant
                    0 <= i <= profile.input_colors@.len(),
                    selection_core(prims@, profile),
                decreases profile.input_colors@.len() - i,
            {
                let c = profile.input_colors[i];
                if !crate::analysis::colors_contain(&profile.output_colors, c) {
                    let ghost pre = prims@;
                    prims.push(Prim::RemoveColor(c));
                    proof {
                        lemma_core_step(pre, prims@, profile);
                    }
                    let mut j: usize = 0;
                    while j < profile.output_colors.len()
                        invariant
                            0 <= j <= profile.output_colors@.len(),
                            selection_core(prims@, profile),
                        decreases profile.output_colors@.len() - j,
                    {
                        let ghost pre2 = prims@;
                        prims.push(Prim::ReplaceColor(c, profile.output_colors[j]));
                        proof {
                            lemma_core_step(pre2, prims@, profile);
                        }
                        j += 1;
                    }
                }
                i += 1;
            }
        },
        ColorChange::Expansion => {
            let mut i: usize = 0;
            while i < profile.output_colors.len()
                invariant
                    0 <= i <= profile.output_colors@.len(),
                    selection_core(prims@, profile),
                decreases profile.output_colors@.len() - i,
            {
                let c = profile.output_colors[i];
                if !crate::analysis::colors_contain(&profile.input_colors, c) {
                    let ghost pre = prims@;
                    prims.push(Prim::FillColor(c));
                    prims.push(Prim::BorderFill(c));
                    prims.push(Prim::OutlineObjects(c));
                    prims.push(Prim::FillInsideObjects(c));
                    proof {
                        lemma_core_step(pre, prims@, profile);
                    }
                }
                i += 1;
            }
            let mut i2: usize = 0;
            while i2 < profile.input_colors.len()
                invariant
                    0 <= i2 <= profile.input_colors@.len(),
                    selection_core(prims@, profile),
                decreases profile.input_colors@.len() - i2,
            {
                let ghost pre = prims@;
                prims.push(Prim::FillEnclosed(profile.input_colors[i2]));
                proof {
                    lemma_core_step(pre, prims@, profile);
                }
                i2 += 1;
            }
        },
        _ => {},
    }
    assert(selection_core(prims@, profile));
    assert(selection_bijection(prims@, profile));
    let deduped = dedup_prims(prims);
    deduped
}

fn add_color_ops(prims: &mut Vec<Prim>, in_colors: &Vec<u8>, out_colors: &Vec<u8>)
    requires
        old(prims)@.len() > 0,
        old(prims)@[0] == Prim::Identity,
    ensures
        final(prims)@.len() > 0,
        final(prims)@[0] == Prim::Identity,
        forall|p: Prim| old(prims)@.contains(p) ==> #[trigger] final(prims)@.contains(p),
{
    let ghost start = prims@;
    let mut i: usize = 0;
    while i < in_colors.len()
        invariant
            0 <= i <= in_colors@.len(),
            prims@.len() > 0,
            prims@[0] == Prim::Identity,
            forall|p: Prim| start.contains(p) ==> #[trigger] prims@.contains(p),
        decreases in_colors@.len() - i,
    {
        let ic = in_colors[i];
        let mut j: usize = 0;
        while j < out_colors.len()
            invariant
                0 <= j <= out_colors@.len(),
                prims@.len() > 0,
                prims@[0] == Prim::Identity,
                forall|p: Prim| start.contains(p) ==> #[trigger] prims@.contains(p),
            decreases out_colors@.len() - j,
        {
            let oc = out_colors[j];
            let ghost pre = prims@;
            if ic != oc {
                prims.push(Prim::ReplaceColor(ic, oc));
            }
            proof {
                lemma_extend_contains(pre, prims@);
            }
            j += 1;
        }
        let ghost pre2 = prims@;
        prims.push(Prim::FilterColor(ic));
        prims.push(Prim::FillColor(ic));
        proof {
            lemma_extend_contains(pre2, prims@);
        }
        i += 1;
    }
}

/// Structural deduplication: first occurrences survive in order, so
/// membership is kept exactly and `Identity` stays first.
fn dedup_prims(prims: Vec<Prim>) -> (r: Vec<Prim>)
    requires
        prims@.len() > 0,
        prims@[0] == Prim::Identity,
    ensures
        r@.len() > 0,
        r@[0] == Prim::Identity,
        forall|p: Prim| #[trigger] r@.contains(p) <==> prims@.contains(p),
        forall|i: int, j: int| 0 <= i < j < r@.len() ==> r@[i] != r@[j],
{
    let mut out: Vec<Prim> = Vec::new();
    let mut i: usize = 0;
    while i < prims.len()
        invariant
            0 <= i <= prims@.len(),
            prims@.len() > 0,
            prims@[0] == Prim::Identity,
            i == 0 ==> out@.len() == 0,
            i > 0 ==> out@.len() > 0 && out@[0] == Prim::Identity,
            forall|p: Prim| #[trigger] out@.contains(p) ==> prims@.contains(p),
            forall|k: int| 0 <= k < i ==> out@.contains(#[trigger] prims@[k]),
            forall|p: int, q: int| 0 <= p < q < out@.len() ==> out@[p] != out@[q],
        decreases prims@.len() - i,
    {
        let p = &prims[i];
        let mut seen = false;
        let mut j: usize = 0;
        while j < out.len()
            invariant_except_break
                0 <= j <= out@.len(),
                0 <= i < prims@.len(),
                *p == prims@[i as int],
                seen == false,
                forall|q: int| 0 <= q < j ==> out@[q] != prims@[i as int],
            ensures
                0 <= i < prims@.len(),
                seen ==> out@.contains(prims@[i as int]),
                !seen ==> forall|q: int| 0 <= q < out@.len() ==> out@[q] != prims@[i as int],
            decreases out@.len() - j,
        {
            if crate::dsl::prim_eq(&out[j], p) {
                seen = true;
                assert(out@[j as int] == prims@[i as int]);
                assert(out@.contains(prims@[i as int]));
                break;
            }
            j += 1;
        }
        let ghost pre_out = out@;
        if !seen {
            let copy = p.clone();
            out.push(copy);
            proof {
                assert(out@[out@.len() - 1] == prims@[i as int]);
                if i == 0 {
                    assert(out@[0] == prims@[0]);
                }
                assert forall|x: int, y: int| 0 <= x < y < out@.len() implies out@[x]
                    != out@[y] by {
                    if y < out@.len() - 1 {
                        assert(out@[x] == pre_out[x] && out@[y] == pre_out[y]);
                    } else {
                        assert(out@[y] == prims@[i as int]);
                        assert(pre_out[x] != prims@[i as int]);
                    }
                }
            }
        }
        proof {
            lemma_extend_contains(pre_out, out@);
            assert(out@.contains(prims@[i as int])) by {
                if !seen {
                    assert(out@[out@.len() - 1] == prims@[i as int]);
                }
            }
            assert forall|p2: Prim| #[trigger] out@.contains(p2) implies prims@.contains(p2) by {
                let ix = choose|ix: int| 0 <= ix < out@.len() && out@[ix] == p2;
                if ix < pre_out.len() {
                    assert(pre_out[ix] == p2);
                    assert(pre_out.contains(p2));
                } else {
                    assert(out@[ix] == prims@[i as int]);
                }
            }
        }
        i += 1;
    }
    proof {
        assert forall|p: Prim| prims@.contains(p) implies out@.contains(p) by {
            let k = choose|k: int| 0 <= k < prims@.len() && prims@[k] == p;
            assert(out@.contains(prims@[k]));
        }
    }
    out
}

} // verus!
