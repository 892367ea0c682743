//! The DSL of grid programs: a closed set of leaf primitives plus
//! sequencing and a data-dependent conditional. `apply` is total on
//! well-formed grids and returns exactly the grid `prim_apply_s`
//! describes, so applying a program is a pure mathematical function of
//! the program and the grid — two calls on the same input always
//! agree.

use vstd::prelude::*;
use crate::grid::{Grid, grid_view, grid_wf, grid_eq};
use crate::model::{
    rotate_cw_s, rotate_ccw_s, rotate180_s, flip_h_s, flip_v_s, transpose_s, fill_color_s,
    replace_color_s, filter_color_s, border_fill_s, outline_objects_s, crop_s, pad_s, scale_s,
    upscale_objects_s, repeat_h_s, repeat_v_s, mirror_h_s, mirror_v_s, translate_s, invert_s,
    most_frequent_fill_s, gravity_down_s, sort_rows_by_color_s, sort_cols_by_color_s,
    extend_h_lines_s, extend_v_lines_s, extend_cross_s, diag_fill_tl_s, diag_fill_tr_s,
    crop_to_bbox_s, flood_fill_s, fill_enclosed_s, fill_inside_objects_s,
};
use crate::objects::{keep_largest_s, keep_smallest_s, extract_object_s};
use crate::prims_basic::{
    clone_grid, rotate_cw, rotate_ccw, rotate180, flip_h, flip_v, transpose, fill_color,
    replace_color, filter_color, border_fill, outline_objects, crop, pad, scale, upscale_objects,
    repeat_h, repeat_v, mirror_h, mirror_v, translate,
};
use crate::prims_scan::{
    invert, most_frequent_fill, gravity_down, sort_rows_by_color, sort_cols_by_color,
    extend_h_lines, extend_v_lines, extend_cross, diag_fill_tl, diag_fill_tr, crop_to_bbox,
};
use crate::reach::{flood_fill, fill_enclosed, fill_inside_objects};
use crate::objects::{keep_largest_object, keep_smallest_object, extract_object};

verus! {

/// A program over grids: one leaf transform, or a composition.
#[derive(Debug, PartialEq, Eq, Hash)]
pub enum Prim {
    Identity,
    RotateCW,
    RotateCCW,
    Rotate180,
    FlipH,
    FlipV,
    Transpose,
    FillColor(u8),
    ReplaceColor(u8, u8),
    Crop(usize, usize, usize, usize),
    Pad(usize, u8),
    Scale(usize),
    FilterColor(u8),
    GravityDown,
    GravityUp,
    GravityLeft,
    GravityRight,
    MostFrequentColor,
    BorderFill(u8),
    FloodFill(usize, usize, u8),
    ExtractObject(usize),
    Overlay,
    MirrorH,
    MirrorV,
    RepeatH(usize),
    RepeatV(usize),
    Invert,
    SortRowsByColor,
    SortColsByColor,
    RemoveColor(u8),
    KeepLargestObject,
    KeepSmallestObject,
    OutlineObjects(u8),
    FillInsideObjects(u8),
    Translate(i32, i32),
    CropToBBox,
    ExtendHLines,
    ExtendVLines,
    ExtendCross,
    DiagFillTL,
    DiagFillTR,
    FillEnclosed(u8),
    UpscaleObjects(usize),
    Compose(Box<Prim>, Box<Prim>),
    Conditional(Box<Prim>, Box<Prim>, Box<Prim>),
}

/// The grid a program produces from `s` — the complete model of
/// `Prim::apply`.
pub open spec fn prim_apply_s(p: Prim, s: Seq<Seq<u8>>) -> Seq<Seq<u8>>
    decreases p,
{
    match p {
        Prim::Identity => s,
        Prim::RotateCW => rotate_cw_s(s),
        Prim::RotateCCW => rotate_ccw_s(s),
        Prim::Rotate180 => rotate180_s(s),
        Prim::FlipH => flip_h_s(s),
        Prim::FlipV => flip_v_s(s),
        Prim::Transpose => transpose_s(s),
        Prim::FillColor(c) => fill_color_s(s, c),
        Prim::ReplaceColor(from, to) => replace_color_s(s, from, to),
        Prim::Crop(r, c, h, w) => crop_s(s, r as int, c as int, h as int, w as int),
        Prim::Pad(n, c) => pad_s(s, n as int, c),
        Prim::Scale(k) => scale_s(s, k as int),
        Prim::FilterColor(c) => filter_color_s(s, c),
        Prim::GravityDown => gravity_down_s(s),
        Prim::GravityUp => flip_v_s(gravity_down_s(flip_v_s(s))),
        Prim::GravityLeft => transpose_s(gravity_down_s(transpose_s(s))),
        Prim::GravityRight => transpose_s(flip_v_s(gravity_down_s(flip_v_s(transpose_s(s))))),
        Prim::MostFrequentColor => most_frequent_fill_s(s),
        Prim::BorderFill(c) => border_fill_s(s, c),
        Prim::FloodFill(r, c, color) => flood_fill_s(s, r as int, c as int, color),
        Prim::ExtractObject(idx) => extract_object_s(s, idx as int),
        Prim::Overlay => s,
        Prim::MirrorH => mirror_h_s(s),
        Prim::MirrorV => mirror_v_s(s),
        Prim::RepeatH(k) => repeat_h_s(s, k as int),
        Prim::RepeatV(k) => repeat_v_s(s, k as int),
        Prim::Invert => invert_s(s),
        Prim::SortRowsByColor => sort_rows_by_color_s(s),
        Prim::SortColsByColor => sort_cols_by_color_s(s),
        Prim::RemoveColor(c) => replace_color_s(s, c, 0),
        Prim::KeepLargestObject => keep_largest_s(s),
        Prim::KeepSmallestObject => keep_smallest_s(s),
        Prim::OutlineObjects(c) => outline_objects_s(s, c),
        Prim::FillInsideObjects(c) => fill_inside_objects_s(s, c),
        Prim::Translate(dr, dc) => translate_s(s, dr as int, dc as int),
        Prim::CropToBBox => crop_to_bbox_s(s),
        Prim::ExtendHLines => extend_h_lines_s(s),
        Prim::ExtendVLines => extend_v_lines_s(s),
        Prim::ExtendCross => extend_cross_s(s),
        Prim::DiagFillTL => diag_fill_tl_s(s),
        Prim::DiagFillTR => diag_fill_tr_s(s),
        Prim::FillEnclosed(wall) => fill_enclosed_s(s, wall),
        Prim::UpscaleObjects(k) => upscale_objects_s(s, k as int),
        Prim::Compose(a, b) => prim_apply_s(*b, prim_apply_s(*a, s)),
        Prim::Conditional(cond, then_p, else_p) => {
            if prim_apply_s(*cond, s) != s {
                prim_apply_s(*then_p, s)
            } else {
                prim_apply_s(*else_p, s)
            }
        },
    }
}

/// Node count of a program tree.
pub open spec fn prim_size_s(p: Prim) -> nat
    decreases p,
{
    match p {
        Prim::Compose(a, b) => 1 + prim_size_s(*a) + prim_size_s(*b),
        Prim::Conditional(a, b, c) => 1 + prim_size_s(*a) + prim_size_s(*b) + prim_size_s(*c),
        _ => 1,
    }
}

/// Addition that sticks at `usize::MAX` instead of wrapping.
fn sat_add(a: usize, b: usize) -> (r: usize)
    ensures
        r == if a + b <= usize::MAX {
            a + b
        } else {
            usize::MAX as int
        },
{
    if a <= usize::MAX - b {
        a + b
    } else {
        usize::MAX
    }
}

impl Prim {
    /// Applies the program to a grid. Total and deterministic: the
    /// result is exactly `prim_apply_s(*self, grid_view(grid))`, a
    /// function of the arguments alone.
    pub fn apply(&self, grid: &Grid) -> (r: Grid)
        requires
            grid_wf(grid),
        ensures
            grid_view(&r) == prim_apply_s(*self, grid_view(grid)),
            grid_wf(&r),
        decreases *self,
    {
        match self {
            Prim::Identity => clone_grid(grid),
            Prim::RotateCW => rotate_cw(grid),
            Prim::RotateCCW => rotate_ccw(grid),
            Prim::Rotate180 => rotate180(grid),
            Prim::FlipH => flip_h(grid),
            Prim::FlipV => flip_v(grid),
            Prim::Transpose => transpose(grid),
            Prim::FillColor(c) => fill_color(grid, *c),
            Prim::ReplaceColor(from, to) => replace_color(grid, *from, *to),
            Prim::Crop(r, c, h, w) => crop(grid, *r, *c, *h, *w),
            Prim::Pad(n, c) => pad(grid, *n, *c),
            Prim::Scale(k) => scale(grid, *k),
            Prim::FilterColor(c) => filter_color(grid, *c),
            Prim::GravityDown => gravity_down(grid),
            Prim::GravityUp => {
                let t1 = flip_v(grid);
                let t2 = gravity_down(&t1);
                flip_v(&t2)
            },
            Prim::GravityLeft => {
                let t1 = transpose(grid);
                let t2 = gravity_down(&t1);
                transpose(&t2)
            },
            Prim::GravityRight => {
                let t1 = transpose(grid);
                let t2 = flip_v(&t1);
                let t3 = gravity_down(&t2);
                let t4 = flip_v(&t3);
                transpose(&t4)
            },
            Prim::MostFrequentColor => most_frequent_fill(grid),
            Prim::BorderFill(c) => border_fill(grid, *c),
            Prim::FloodFill(r, c, color) => flood_fill(grid, *r, *c, *color),
            Prim::ExtractObject(idx) => extract_object(grid, *idx),
            Prim::Overlay => clone_grid(grid),
            Prim::MirrorH => mirror_h(grid),
            Prim::MirrorV => mirror_v(grid),
            Prim::RepeatH(k) => repeat_h(grid, *k),
            Prim::RepeatV(k) => repeat_v(grid, *k),
            Prim::Invert => invert(grid),
            Prim::SortRowsByColor => sort_rows_by_color(grid),
            Prim::SortColsByColor => sort_cols_by_color(grid),
            Prim::RemoveColor(c) => replace_color(grid, *c, 0),
            Prim::KeepLargestObject => keep_largest_object(grid),
            Prim::KeepSmallestObject => keep_smallest_object(grid),
            Prim::OutlineObjects(c) => outline_objects(grid, *c),
            Prim::FillInsideObjects(c) => fill_inside_objects(grid, *c),
            Prim::Translate(dr, dc) => translate(grid, *dr, *dc),
            Prim::CropToBBox => crop_to_bbox(grid),
            Prim::ExtendHLines => extend_h_lines(grid),
            Prim::ExtendVLines => extend_v_lines(grid),
            Prim::ExtendCross => extend_cross(grid),
            Prim::DiagFillTL => diag_fill_tl(grid),
            Prim::DiagFillTR => diag_fill_tr(grid),
            Prim::FillEnclosed(wall) => fill_enclosed(grid, *wall),
            Prim::UpscaleObjects(k) => upscale_objects(grid, *k),
            Prim::Compose(a, b) => {
                let t = a.apply(grid);
                b.apply(&t)
            },
            Prim::Conditional(cond, then_p, else_p) => {
                let result = cond.apply(grid);
                if !grid_eq(&result, grid) {
                    then_p.apply(grid)
                } else {
                    else_p.apply(grid)
                }
            },
        }
    }

    /// Node count, saturating at `usize::MAX` for unrepresentably
    /// large trees.
    pub fn size(&self) -> (n: usize)
        ensures
            n == if prim_size_s(*self) <= usize::MAX {
                prim_size_s(*self) as int
            } else {
                usize::MAX as int
            },
            n >= 1,
        decreases *self,
    {
        match self {
            Prim::Compose(a, b) => {
                let sa = a.size();
                let sb = b.size();
                sat_add(1, sat_add(sa, sb))
            },
            Prim::Conditional(a, b, c) => {
                let sa = a.size();
                let sb = b.size();
                let sc = c.size();
                sat_add(1, sat_add(sa, sat_add(sb, sc)))
            },
            _ => 1,
        }
    }

    /// The full leaf catalog: every parameterless transform, the
    /// parameterized ones over their small parameter ranges, and the
    /// common translation offsets. The result is exactly
    /// `all_primitives_s()`, the same fixed catalog on every call,
    /// with `Identity` first and no composite node anywhere.
    pub fn all_primitives() -> (r: Vec<Prim>)
        ensures
            r@ == all_primitives_s(),
            r@.len() == 208,
            r@[0] == Prim::Identity,
    {
        let mut prims: Vec<Prim> = Vec::new();
        prims.push(Prim::Identity);
        prims.push(Prim::RotateCW);
        prims.push(Prim::RotateCCW);
        prims.push(Prim::Rotate180);
        prims.push(Prim::FlipH);
        prims.push(Prim::FlipV);
        prims.push(Prim::Transpose);
        prims.push(Prim::GravityDown);
        prims.push(Prim::GravityUp);
        prims.push(Prim::GravityLeft);
        prims.push(Prim::GravityRight);
        prims.push(Prim::MirrorH);
        prims.push(Prim::MirrorV);
        prims.push(Prim::Invert);
        prims.push(Prim::SortRowsByColor);
        prims.push(Prim::SortColsByColor);
        prims.push(Prim::KeepLargestObject);
        prims.push(Prim::KeepSmallestObject);
        prims.push(Prim::CropToBBox);
        prims.push(Prim::ExtendHLines);
        prims.push(Prim::ExtendVLines);
        prims.push(Prim::ExtendCross);
        prims.push(Prim::DiagFillTL);
        prims.push(Prim::DiagFillTR);
        assert(prims@ =~= base_prims_s());
        let mut c: u8 = 0;
        while c < 10
            invariant
                0 <= c <= 10,
                prims@ =~= with_colors_s(base_prims_s(), c as int),
                prims@.len() == 24 + 16 * (c as int),
            decreases 10 - c,
        {
            let ghost acc0 = prims@;
            prims.push(Prim::FillColor(c));
            prims.push(Prim::FilterColor(c));
            prims.push(Prim::BorderFill(c));
            prims.push(Prim::RemoveColor(c));
            prims.push(Prim::OutlineObjects(c));
            prims.push(Prim::FillInsideObjects(c));
            prims.push(Prim::FillEnclosed(c));
            let ghost head = prims@;
            let mut c2: u8 = 0;
            while c2 < 10
                invariant
                    0 <= c2 <= 10,
                    prims@ =~= with_replace_s(head, c, c2 as int),
                    head.len() == 24 + 16 * (c as int) + 7,
                    prims@.len() == head.len() + c2 - (if c2 > c {
                        1int
                    } else {
                        0int
                    }),
                decreases 10 - c2,
            {
                if c != c2 {
                    prims.push(Prim::ReplaceColor(c, c2));
                }
                c2 += 1;
            }
            assert(prims@ =~= color_block_s(acc0, c));
            assert(prims@ =~= with_colors_s(base_prims_s(), c as int + 1));
            c += 1;
        }
        let ghost colored = prims@;
        assert(colored =~= with_colors_s(base_prims_s(), 10));
        let mut k: usize = 2;
        while k <= 4
            invariant
                2 <= k <= 5,
                colored == with_colors_s(base_prims_s(), 10),
                colored.len() == 184,
                prims@ =~= with_scales_s(colored, k as int - 1),
                prims@.len() == 184 + 4 * (k as int - 2),
            decreases 5 - k,
        {
            prims.push(Prim::Scale(k));
            prims.push(Prim::RepeatH(k));
            prims.push(Prim::RepeatV(k));
            prims.push(Prim::UpscaleObjects(k));
            k += 1;
        }
        let ghost scaled = prims@;
        assert(scaled =~= with_scales_s(colored, 4));
        let mut d: i32 = -3;
        while d <= 3
            invariant
                -3 <= d <= 4,
                scaled == with_scales_s(with_colors_s(base_prims_s(), 10), 4),
                scaled.len() == 196,
                prims@ =~= with_shifts_s(scaled, d as int - 1),
                prims@.len() == 196 + 2 * ((d as int + 3) - (if d > 0 {
                    1int
                } else {
                    0int
                })),
            decreases 4 - d,
        {
            if d != 0 {
                prims.push(Prim::Translate(d, 0));
                prims.push(Prim::Translate(0, d));
            }
            d += 1;
        }
        assert(prims@ =~= all_primitives_s());
        proof {
            lemma_catalog_contents();
        }
        prims
    }
}

/// The first, parameterless segment of the catalog.
pub open spec fn base_prims_s() -> Seq<Prim> {
    seq![
        Prim::Identity,
        Prim::RotateCW,
        Prim::RotateCCW,
        Prim::Rotate180,
        Prim::FlipH,
        Prim::FlipV,
        Prim::Transpose,
        Prim::GravityDown,
        Prim::GravityUp,
        Prim::GravityLeft,
        Prim::GravityRight,
        Prim::MirrorH,
        Prim::MirrorV,
        Prim::Invert,
        Prim::SortRowsByColor,
        Prim::SortColsByColor,
        Prim::KeepLargestObject,
        Prim::KeepSmallestObject,
        Prim::CropToBBox,
        Prim::ExtendHLines,
        Prim::ExtendVLines,
        Prim::ExtendCross,
        Prim::DiagFillTL,
        Prim::DiagFillTR,
    ]
}

/// `acc` extended by the color swaps from `c` to each color below `n`.
pub open spec fn with_replace_s(acc: Seq<Prim>, c: u8, n: int) -> Seq<Prim>
    decreases n,
{
    if n <= 0 {
        acc
    } else {
        let rest = with_replace_s(acc, c, n - 1);
        if c != (n - 1) as u8 {
            rest.push(Prim::ReplaceColor(c, (n - 1) as u8))
        } else {
            rest
        }
    }
}

/// `acc` extended by every transform parameterized by color `c`.
pub open spec fn color_block_s(acc: Seq<Prim>, c: u8) -> Seq<Prim> {
    with_replace_s(
        acc.push(Prim::FillColor(c)).push(Prim::FilterColor(c)).push(Prim::BorderFill(c)).push(
            Prim::RemoveColor(c),
        ).push(Prim::OutlineObjects(c)).push(Prim::FillInsideObjects(c)).push(
            Prim::FillEnclosed(c),
        ),
        c,
        10,
    )
}

/// `acc` extended by the color blocks of every color below `n`.
pub open spec fn with_colors_s(acc: Seq<Prim>, n: int) -> Seq<Prim>
    decreases n,
{
    if n <= 0 {
        acc
    } else {
        color_block_s(with_colors_s(acc, n - 1), (n - 1) as u8)
    }
}

/// `acc` extended by the sized transforms for factors 2 through `k`.
pub open spec fn with_scales_s(acc: Seq<Prim>, k: int) -> Seq<Prim>
    decreases k,
{
    if k < 2 {
        acc
    } else {
        with_scales_s(acc, k - 1).push(Prim::Scale(k as usize)).push(
            Prim::RepeatH(k as usize),
        ).push(Prim::RepeatV(k as usize)).push(Prim::UpscaleObjects(k as usize))
    }
}

/// `acc` extended by the translation offsets from -3 through `d`,
/// skipping zero.
pub open spec fn with_shifts_s(acc: Seq<Prim>, d: int) -> Seq<Prim>
    decreases d + 4,
{
    if d < -3 {
        acc
    } else {
        let rest = with_shifts_s(acc, d - 1);
        if d != 0 {
            rest.push(Prim::Translate(d as i32, 0)).push(Prim::Translate(0, d as i32))
        } else {
            rest
        }
    }
}

/// The whole catalog, as one fixed sequence.
pub open spec fn all_primitives_s() -> Seq<Prim> {
    with_shifts_s(with_scales_s(with_colors_s(base_prims_s(), 10), 4), 3)
}

/// A leaf program: anything but a sequence or a conditional.
pub open spec fn prim_is_leaf(p: Prim) -> bool {
    !(p is Compose) && !(p is Conditional)
}

/// Extending by color swaps keeps the prefix, adds only leaves, and
/// makes every swap from `c` to a smaller color present.
proof fn lemma_with_replace_props(acc: Seq<Prim>, c: u8, n: int)
    requires
        0 <= n <= 10,
    ensures
        with_replace_s(acc, c, n).len() >= acc.len(),
        forall|i: int| 0 <= i < acc.len() ==> #[trigger] with_replace_s(acc, c, n)[i] == acc[i],
        forall|i: int|
            acc.len() <= i < with_replace_s(acc, c, n).len() ==> (#[trigger] with_replace_s(
                acc,
                c,
                n,
            )[i]) is ReplaceColor,
        forall|b: u8| b < n && b != c ==> #[trigger] with_replace_s(acc, c, n).contains(
            Prim::ReplaceColor(c, b),
        ),
        forall|p: Prim| acc.contains(p) ==> with_replace_s(acc, c, n).contains(p),
    decreases n,
{
    if n > 0 {
        lemma_with_replace_props(acc, c, n - 1);
        let rest = with_replace_s(acc, c, n - 1);
        let cur = with_replace_s(acc, c, n);
        assert forall|p: Prim| rest.contains(p) implies cur.contains(p) by {
            let i = choose|i: int| 0 <= i < rest.len() && rest[i] == p;
            assert(cur[i] == p);
        }
        if c != (n - 1) as u8 {
            assert(cur.last() == Prim::ReplaceColor(c, (n - 1) as u8));
            assert(cur.contains(Prim::ReplaceColor(c, (n - 1) as u8)));
        }
    }
}

/// One color block keeps the prefix, adds only leaves, and holds all
/// of its color's transforms.
proof fn lemma_color_block_props(acc: Seq<Prim>, c: u8)
    ensures
        color_block_s(acc, c).len() >= acc.len(),
        forall|i: int| 0 <= i < acc.len() ==> #[trigger] color_block_s(acc, c)[i] == acc[i],
        forall|i: int|
            acc.len() <= i < color_block_s(acc, c).len() ==> prim_is_leaf(
                #[trigger] color_block_s(acc, c)[i],
            ),
        forall|b: u8| b < 10 && b != c ==> #[trigger] color_block_s(acc, c).contains(
            Prim::ReplaceColor(c, b),
        ),
        color_block_s(acc, c).contains(Prim::FillColor(c)),
        color_block_s(acc, c).contains(Prim::FilterColor(c)),
        color_block_s(acc, c).contains(Prim::RemoveColor(c)),
        color_block_s(acc, c).contains(Prim::BorderFill(c)),
        color_block_s(acc, c).contains(Prim::FillEnclosed(c)),
        forall|p: Prim| acc.contains(p) ==> color_block_s(acc, c).contains(p),
{
    let head = acc.push(Prim::FillColor(c)).push(Prim::FilterColor(c)).push(
        Prim::BorderFill(c),
    ).push(Prim::RemoveColor(c)).push(Prim::OutlineObjects(c)).push(
        Prim::FillInsideObjects(c),
    ).push(Prim::FillEnclosed(c));
    lemma_with_replace_props(head, c, 10);
    assert(head[acc.len() as int] == Prim::FillColor(c));
    assert(head[acc.len() as int + 1] == Prim::FilterColor(c));
    assert(head[acc.len() as int + 2] == Prim::BorderFill(c));
    assert(head[acc.len() as int + 3] == Prim::RemoveColor(c));
    assert(head[acc.len() as int + 6] == Prim::FillEnclosed(c));
    assert(head.contains(Prim::FillColor(c)));
    assert(head.contains(Prim::FilterColor(c)));
    assert(head.contains(Prim::RemoveColor(c)));
    assert(head.contains(Prim::BorderFill(c)));
    assert(head.contains(Prim::FillEnclosed(c)));
    assert forall|p: Prim| acc.contains(p) implies head.contains(p) by {
        let i = choose|i: int| 0 <= i < acc.len() && acc[i] == p;
        assert(head[i] == p);
    }
}

/// The colored catalog keeps the base prefix, adds only leaves, and
/// holds every color transform below `n`.
proof fn lemma_with_colors_props(acc: Seq<Prim>, n: int)
    requires
        0 <= n <= 10,
    ensures
        with_colors_s(acc, n).len() >= acc.len(),
        forall|i: int| 0 <= i < acc.len() ==> #[trigger] with_colors_s(acc, n)[i] == acc[i],
        forall|i: int|
            acc.len() <= i < with_colors_s(acc, n).len() ==> prim_is_leaf(
                #[trigger] with_colors_s(acc, n)[i],
            ),
        forall|a: u8, b: u8| a < n && b < 10 && a != b ==> #[trigger] with_colors_s(
            acc,
            n,
        ).contains(Prim::ReplaceColor(a, b)),
        forall|a: u8| a < n ==> #[trigger] with_colors_s(acc, n).contains(Prim::FillColor(a)),
        forall|a: u8| a < n ==> #[trigger] with_colors_s(acc, n).contains(Prim::FillEnclosed(a)),
        forall|p: Prim| acc.contains(p) ==> with_colors_s(acc, n).contains(p),
    decreases n,
{
    if n > 0 {
        lemma_with_colors_props(acc, n - 1);
        let prev = with_colors_s(acc, n - 1);
        let cur = with_colors_s(acc, n);
        lemma_color_block_props(prev, (n - 1) as u8);
        assert forall|a: u8, b: u8| a < n && b < 10 && a != b implies #[trigger] cur.contains(
            Prim::ReplaceColor(a, b),
        ) by {
            if (a as int) < n - 1 {
                assert(prev.contains(Prim::ReplaceColor(a, b)));
            } else {
                assert(a == (n - 1) as u8);
            }
        }
        assert forall|a: u8| a < n implies #[trigger] cur.contains(Prim::FillColor(a)) by {
            if (a as int) < n - 1 {
                assert(prev.contains(Prim::FillColor(a)));
            } else {
                assert(a == (n - 1) as u8);
            }
        }
        assert forall|a: u8| a < n implies #[trigger] cur.contains(Prim::FillEnclosed(a)) by {
            if (a as int) < n - 1 {
                assert(prev.contains(Prim::FillEnclosed(a)));
            } else {
                assert(a == (n - 1) as u8);
            }
        }
    }
}

/// The sized segment keeps the prefix, adds only leaves, and holds
/// every factor from 2 through `k`.
proof fn lemma_with_scales_props(acc: Seq<Prim>, k: int)
    requires
        1 <= k <= 4,
    ensures
        with_scales_s(acc, k).len() >= acc.len(),
        forall|i: int| 0 <= i < acc.len() ==> #[trigger] with_scales_s(acc, k)[i] == acc[i],
        forall|i: int|
            acc.len() <= i < with_scales_s(acc, k).len() ==> prim_is_leaf(
                #[trigger] with_scales_s(acc, k)[i],
            ),
        forall|f: usize| 2 <= f <= k ==> #[trigger] with_scales_s(acc, k).contains(Prim::Scale(f))
            && with_scales_s(acc, k).contains(Prim::RepeatH(f)) && with_scales_s(acc, k).contains(
            Prim::RepeatV(f),
        ) && with_scales_s(acc, k).contains(Prim::UpscaleObjects(f)),
        forall|p: Prim| acc.contains(p) ==> with_scales_s(acc, k).contains(p),
    decreases k,
{
    if k >= 2 {
        lemma_with_scales_props(acc, k - 1);
        let rest = with_scales_s(acc, k - 1);
        let cur = with_scales_s(acc, k);
        assert forall|p: Prim| rest.contains(p) implies cur.contains(p) by {
            let i = choose|i: int| 0 <= i < rest.len() && rest[i] == p;
            assert(cur[i] == p);
        }
        assert(cur[rest.len() as int] == Prim::Scale(k as usize));
        assert(cur[rest.len() as int + 1] == Prim::RepeatH(k as usize));
        assert(cur[rest.len() as int + 2] == Prim::RepeatV(k as usize));
        assert(cur[rest.len() as int + 3] == Prim::UpscaleObjects(k as usize));
        assert(cur.contains(Prim::Scale(k as usize)));
        assert(cur.contains(Prim::RepeatH(k as usize)));
        assert(cur.contains(Prim::RepeatV(k as usize)));
        assert(cur.contains(Prim::UpscaleObjects(k as usize)));
        assert forall|f: usize| 2 <= f <= k implies #[trigger] cur.contains(Prim::Scale(f))
            && cur.contains(Prim::RepeatH(f)) && cur.contains(Prim::RepeatV(f)) && cur.contains(
            Prim::UpscaleObjects(f),
        ) by {
            if (f as int) < k {
                assert(rest.contains(Prim::Scale(f)));
                assert(rest.contains(Prim::RepeatH(f)));
                assert(rest.contains(Prim::RepeatV(f)));
                assert(rest.contains(Prim::UpscaleObjects(f)));
            }
        }
    }
}

/// The shift segment keeps the prefix and adds only leaves.
proof fn lemma_with_shifts_props(acc: Seq<Prim>, d: int)
    requires
        -4 <= d <= 3,
    ensures
        with_shifts_s(acc, d).len() >= acc.len(),
        forall|i: int| 0 <= i < acc.len() ==> #[trigger] with_shifts_s(acc, d)[i] == acc[i],
        forall|i: int|
            acc.len() <= i < with_shifts_s(acc, d).len() ==> (#[trigger] with_shifts_s(acc, d)[
                i]) is Translate,
        forall|p: Prim| acc.contains(p) ==> with_shifts_s(acc, d).contains(p),
    decreases d + 4,
{
    if d >= -3 {
        lemma_with_shifts_props(acc, d - 1);
        let rest = with_shifts_s(acc, d - 1);
        let cur = with_shifts_s(acc, d);
        assert forall|p: Prim| rest.contains(p) implies cur.contains(p) by {
            let i = choose|i: int| 0 <= i < rest.len() && rest[i] == p;
            assert(cur[i] == p);
        }
    }
}

/// What the catalog holds: `Identity` first; every color swap between
/// two distinct colors 0 through 9; every fill, filter, removal,
/// border and enclosure fill of a color 0 through 9; every scale,
/// repeat and object upscale of a factor 2 through 4; and not one
/// composite node anywhere.
pub proof fn lemma_catalog_contents()
    ensures
        all_primitives_s()[0] == Prim::Identity,
        forall|a: u8, b: u8| a < 10 && b < 10 && a != b ==> #[trigger] all_primitives_s().contains(
            Prim::ReplaceColor(a, b),
        ),
        forall|a: u8| a < 10 ==> #[trigger] all_primitives_s().contains(Prim::FillColor(a)),
        forall|a: u8| a < 10 ==> #[trigger] all_primitives_s().contains(Prim::FillEnclosed(a)),
        forall|f: usize| 2 <= f <= 4 ==> #[trigger] all_primitives_s().contains(Prim::Scale(f))
            && all_primitives_s().contains(Prim::RepeatH(f)) && all_primitives_s().contains(
            Prim::RepeatV(f),
        ) && all_primitives_s().contains(Prim::UpscaleObjects(f)),
        all_primitives_s().contains(Prim::RotateCW),
        all_primitives_s().contains(Prim::RotateCCW),
        all_primitives_s().contains(Prim::Rotate180),
        all_primitives_s().contains(Prim::FlipH),
        all_primitives_s().contains(Prim::FlipV),
        all_primitives_s().contains(Prim::Transpose),
        all_primitives_s().contains(Prim::GravityDown),
        all_primitives_s().contains(Prim::Invert),
        forall|i: int| 0 <= i < all_primitives_s().len() ==> prim_is_leaf(
            #[trigger] all_primitives_s()[i],
        ),
{
    let base = base_prims_s();
    let colored = with_colors_s(base, 10);
    let scaled = with_scales_s(colored, 4);
    let full = with_shifts_s(scaled, 3);
    lemma_with_colors_props(base, 10);
    lemma_with_scales_props(colored, 4);
    lemma_with_shifts_props(scaled, 3);
    assert(base[0] == Prim::Identity);
    assert(base.contains(Prim::RotateCW)) by {
        assert(base[1] == Prim::RotateCW);
    }
    assert(base.contains(Prim::RotateCCW)) by {
        assert(base[2] == Prim::RotateCCW);
    }
    assert(base.contains(Prim::Rotate180)) by {
        assert(base[3] == Prim::Rotate180);
    }
    assert(base.contains(Prim::FlipH)) by {
        assert(base[4] == Prim::FlipH);
    }
    assert(base.contains(Prim::FlipV)) by {
        assert(base[5] == Prim::FlipV);
    }
    assert(base.contains(Prim::Transpose)) by {
        assert(base[6] == Prim::Transpose);
    }
    assert(base.contains(Prim::GravityDown)) by {
        assert(base[7] == Prim::GravityDown);
    }
    assert(base.contains(Prim::Invert)) by {
        assert(base[13] == Prim::Invert);
    }
    assert forall|p: Prim| base.contains(p) implies full.contains(p) by {
        assert(colored.contains(p));
        assert(scaled.contains(p));
    }
    assert forall|a: u8, b: u8| a < 10 && b < 10 && a != b implies #[trigger] full.contains(
        Prim::ReplaceColor(a, b),
    ) by {
        assert(colored.contains(Prim::ReplaceColor(a, b)));
        assert(scaled.contains(Prim::ReplaceColor(a, b)));
    }
    assert forall|a: u8| a < 10 implies #[trigger] full.contains(Prim::FillColor(a)) by {
        assert(colored.contains(Prim::FillColor(a)));
        assert(scaled.contains(Prim::FillColor(a)));
    }
    assert forall|a: u8| a < 10 implies #[trigger] full.contains(Prim::FillEnclosed(a)) by {
        assert(colored.contains(Prim::FillEnclosed(a)));
        assert(scaled.contains(Prim::FillEnclosed(a)));
    }
    assert forall|f: usize| 2 <= f <= 4 implies #[trigger] full.contains(Prim::Scale(f))
        && full.contains(Prim::RepeatH(f)) && full.contains(Prim::RepeatV(f)) && full.contains(
        Prim::UpscaleObjects(f),
    ) by {
        assert(scaled.contains(Prim::Scale(f)));
        assert(scaled.contains(Prim::RepeatH(f)));
        assert(scaled.contains(Prim::RepeatV(f)));
        assert(scaled.contains(Prim::UpscaleObjects(f)));
    }
    assert forall|i: int| 0 <= i < full.len() implies prim_is_leaf(#[trigger] full[i]) by {
        if i < base.len() {
            assert(full[i] == base[i]);
        } else if i < colored.len() {
            assert(full[i] == colored[i]);
        } else if i < scaled.len() {
            assert(full[i] == scaled[i]);
        }
    }
}

impl Clone for Prim {
    /// An exact copy of the program tree.
    fn clone(&self) -> (r: Self)
        ensures
            r == *self,
        decreases *self,
    {
        match self {
            Prim::Identity => Prim::Identity,
            Prim::RotateCW => Prim::RotateCW,
            Prim::RotateCCW => Prim::RotateCCW,
            Prim::Rotate180 => Prim::Rotate180,
            Prim::FlipH => Prim::FlipH,
            Prim::FlipV => Prim::FlipV,
            Prim::Transpose => Prim::Transpose,
            Prim::FillColor(c) => Prim::FillColor(*c),
            Prim::ReplaceColor(a, b) => Prim::ReplaceColor(*a, *b),
            Prim::Crop(a, b, c, d) => Prim::Crop(*a, *b, *c, *d),
            Prim::Pad(a, b) => Prim::Pad(*a, *b),
            Prim::Scale(k) => Prim::Scale(*k),
            Prim::FilterColor(c) => Prim::FilterColor(*c),
            Prim::GravityDown => Prim::GravityDown,
            Prim::GravityUp => Prim::GravityUp,
            Prim::GravityLeft => Prim::GravityLeft,
            Prim::GravityRight => Prim::GravityRight,
            Prim::MostFrequentColor => Prim::MostFrequentColor,
            Prim::BorderFill(c) => Prim::BorderFill(*c),
            Prim::FloodFill(a, b, c) => Prim::FloodFill(*a, *b, *c),
            Prim::ExtractObject(i) => Prim::ExtractObject(*i),
            Prim::Overlay => Prim::Overlay,
            Prim::MirrorH => Prim::MirrorH,
            Prim::MirrorV => Prim::MirrorV,
            Prim::RepeatH(k) => Prim::RepeatH(*k),
            Prim::RepeatV(k) => Prim::RepeatV(*k),
            Prim::Invert => Prim::Invert,
            Prim::SortRowsByColor => Prim::SortRowsByColor,
            Prim::SortColsByColor => Prim::SortColsByColor,
            Prim::RemoveColor(c) => Prim::RemoveColor(*c),
            Prim::KeepLargestObject => Prim::KeepLargestObject,
            Prim::KeepSmallestObject => Prim::KeepSmallestObject,
            Prim::OutlineObjects(c) => Prim::OutlineObjects(*c),
            Prim::FillInsideObjects(c) => Prim::FillInsideObjects(*c),
            Prim::Translate(a, b) => Prim::Translate(*a, *b),
            Prim::CropToBBox => Prim::CropToBBox,
            Prim::ExtendHLines => Prim::ExtendHLines,
            Prim::ExtendVLines => Prim::ExtendVLines,
            Prim::ExtendCross => Prim::ExtendCross,
            Prim::DiagFillTL => Prim::DiagFillTL,
            Prim::DiagFillTR => Prim::DiagFillTR,
            Prim::FillEnclosed(c) => Prim::FillEnclosed(*c),
            Prim::UpscaleObjects(k) => Prim::UpscaleObjects(*k),
            Prim::Compose(a, b) => Prim::Compose(Box::new((**a).clone()), Box::new((**b).clone())),
            Prim::Conditional(a, b, c) => Prim::Conditional(
                Box::new((**a).clone()),
                Box::new((**b).clone()),
                Box::new((**c).clone()),
            ),
        }
    }
}

/// Applying any program to a well-formed grid model yields a
/// well-formed grid model.
pub proof fn lemma_prim_apply_wf(p: Prim, s: Seq<Seq<u8>>)
    requires
        crate::grid::wf(s),
    ensures
        crate::grid::wf(prim_apply_s(p, s)),
    decreases p,
{
    let rows = crate::grid::rows_of(s) as int;
    let cols = crate::grid::cols_of(s) as int;
    match p {
        Prim::Identity => {},
        Prim::Overlay => {},
        Prim::RotateCW => crate::model::lemma_rotate_cw_wf(s),
        Prim::RotateCCW => crate::model::lemma_rotate_ccw_wf(s),
        Prim::Rotate180 => {
            crate::model::lemma_rotate_cw_wf(s);
            crate::model::lemma_rotate_cw_wf(rotate_cw_s(s));
        },
        Prim::FlipH => crate::model::lemma_same_shape_wf(s, flip_h_s(s)),
        Prim::FlipV => crate::model::lemma_same_shape_wf(s, flip_v_s(s)),
        Prim::Transpose => crate::model::lemma_transpose_wf(s),
        Prim::FillColor(c) => crate::model::lemma_same_shape_wf(s, fill_color_s(s, c)),
        Prim::ReplaceColor(a, b) => crate::model::lemma_same_shape_wf(s, replace_color_s(s, a, b)),
        Prim::Crop(r, c, h, w) => crate::model::lemma_crop_wf(
            s,
            r as int,
            c as int,
            h as int,
            w as int,
        ),
        Prim::Pad(n, c) => crate::model::lemma_pad_wf(s, n as int, c),
        Prim::Scale(k) => crate::model::lemma_scale_wf(s, k as int),
        Prim::UpscaleObjects(k) => crate::model::lemma_scale_wf(s, k as int),
        Prim::FilterColor(c) => crate::model::lemma_same_shape_wf(s, filter_color_s(s, c)),
        Prim::GravityDown => crate::model::lemma_same_shape_wf(s, gravity_down_s(s)),
        Prim::GravityUp => {
            crate::model::lemma_same_shape_wf(s, flip_v_s(s));
            crate::model::lemma_same_shape_wf(flip_v_s(s), gravity_down_s(flip_v_s(s)));
            crate::model::lemma_same_shape_wf(
                gravity_down_s(flip_v_s(s)),
                flip_v_s(gravity_down_s(flip_v_s(s))),
            );
        },
        Prim::GravityLeft => {
            crate::model::lemma_transpose_wf(s);
            let t = transpose_s(s);
            crate::model::lemma_same_shape_wf(t, gravity_down_s(t));
            crate::model::lemma_transpose_wf(gravity_down_s(t));
        },
        Prim::GravityRight => {
            crate::model::lemma_transpose_wf(s);
            let t = transpose_s(s);
            crate::model::lemma_same_shape_wf(t, flip_v_s(t));
            crate::model::lemma_same_shape_wf(flip_v_s(t), gravity_down_s(flip_v_s(t)));
            crate::model::lemma_same_shape_wf(
                gravity_down_s(flip_v_s(t)),
                flip_v_s(gravity_down_s(flip_v_s(t))),
            );
            crate::model::lemma_transpose_wf(flip_v_s(gravity_down_s(flip_v_s(t))));
        },
        Prim::MostFrequentColor => crate::model::lemma_same_shape_wf(s, most_frequent_fill_s(s)),
        Prim::BorderFill(c) => crate::model::lemma_same_shape_wf(s, border_fill_s(s, c)),
        Prim::FloodFill(r, c, color) => {
            let m = flood_fill_s(s, r as int, c as int, color);
            if m != s {
                crate::model::lemma_same_shape_wf(s, m);
            }
        },
        Prim::ExtractObject(idx) => crate::objects::lemma_extract_wf(s, idx as int),
        Prim::MirrorH => crate::model::lemma_mirror_wf(s),
        Prim::MirrorV => crate::model::lemma_mirror_wf(s),
        Prim::RepeatH(k) => crate::model::lemma_repeat_h_wf(s, k as int),
        Prim::RepeatV(k) => crate::model::lemma_repeat_v_wf(s, k as int),
        Prim::Invert => crate::model::lemma_same_shape_wf(s, invert_s(s)),
        Prim::SortRowsByColor => lemma_sort_rows_wf_grid(s),
        Prim::SortColsByColor => {
            crate::model::lemma_transpose_wf(s);
            lemma_sort_rows_wf_grid(transpose_s(s));
            crate::model::lemma_transpose_wf(sort_rows_by_color_s(transpose_s(s)));
        },
        Prim::RemoveColor(c) => crate::model::lemma_same_shape_wf(s, replace_color_s(s, c, 0)),
        Prim::KeepLargestObject => crate::objects::lemma_keep_wf(s),
        Prim::KeepSmallestObject => crate::objects::lemma_keep_wf(s),
        Prim::OutlineObjects(c) => crate::model::lemma_same_shape_wf(s, outline_objects_s(s, c)),
        Prim::FillInsideObjects(c) => {
            let m = fill_inside_objects_s(s, c);
            if m != s {
                crate::model::lemma_same_shape_wf(s, m);
            }
        },
        Prim::FillEnclosed(c) => {
            let m = fill_enclosed_s(s, c);
            if m != s {
                crate::model::lemma_same_shape_wf(s, m);
            }
        },
        Prim::Translate(dr, dc) => crate::model::lemma_same_shape_wf(
            s,
            translate_s(s, dr as int, dc as int),
        ),
        Prim::CropToBBox => crate::model::lemma_crop_to_bbox_wf(s),
        Prim::ExtendHLines => crate::model::lemma_same_shape_wf(s, extend_h_lines_s(s)),
        Prim::ExtendVLines => crate::model::lemma_same_shape_wf(s, extend_v_lines_s(s)),
        Prim::ExtendCross => crate::model::lemma_same_shape_wf(s, extend_cross_s(s)),
        Prim::DiagFillTL => crate::model::lemma_same_shape_wf(s, diag_fill_tl_s(s)),
        Prim::DiagFillTR => crate::model::lemma_same_shape_wf(s, diag_fill_tr_s(s)),
        Prim::Compose(a, b) => {
            lemma_prim_apply_wf(*a, s);
            lemma_prim_apply_wf(*b, prim_apply_s(*a, s));
        },
        Prim::Conditional(cond, then_p, else_p) => {
            lemma_prim_apply_wf(*then_p, s);
            lemma_prim_apply_wf(*else_p, s);
        },
    }
}

/// Sorted rows keep the grid well formed.
proof fn lemma_sort_rows_wf_grid(s: Seq<Seq<u8>>)
    requires
        crate::grid::wf(s),
    ensures
        crate::grid::wf(sort_rows_by_color_s(s)),
{
    crate::prims_scan::lemma_sort_rows_wf(
        s,
        crate::grid::rows_of(s) as int,
        crate::grid::cols_of(s) as int,
    );
}

/// Exact structural program equality.
pub fn prim_eq(a: &Prim, b: &Prim) -> (r: bool)
    ensures
        r == (a == b),
    decreases *a,
{
    match (a, b) {
        (Prim::Identity, Prim::Identity) => true,
        (Prim::RotateCW, Prim::RotateCW) => true,
        (Prim::RotateCCW, Prim::RotateCCW) => true,
        (Prim::Rotate180, Prim::Rotate180) => true,
        (Prim::FlipH, Prim::FlipH) => true,
        (Prim::FlipV, Prim::FlipV) => true,
        (Prim::Transpose, Prim::Transpose) => true,
        (Prim::FillColor(x), Prim::FillColor(y)) => x == y,
        (Prim::ReplaceColor(x1, x2), Prim::ReplaceColor(y1, y2)) => x1 == y1 && x2 == y2,
        (Prim::Crop(x1, x2, x3, x4), Prim::Crop(y1, y2, y3, y4)) => x1 == y1 && x2 == y2 && x3
            == y3 && x4 == y4,
        (Prim::Pad(x1, x2), Prim::Pad(y1, y2)) => x1 == y1 && x2 == y2,
        (Prim::Scale(x), Prim::Scale(y)) => x == y,
        (Prim::FilterColor(x), Prim::FilterColor(y)) => x == y,
        (Prim::GravityDown, Prim::GravityDown) => true,
        (Prim::GravityUp, Prim::GravityUp) => true,
        (Prim::GravityLeft, Prim::GravityLeft) => true,
        (Prim::GravityRight, Prim::GravityRight) => true,
        (Prim::MostFrequentColor, Prim::MostFrequentColor) => true,
        (Prim::BorderFill(x), Prim::BorderFill(y)) => x == y,
        (Prim::FloodFill(x1, x2, x3), Prim::FloodFill(y1, y2, y3)) => x1 == y1 && x2 == y2 && x3
            == y3,
        (Prim::ExtractObject(x), Prim::ExtractObject(y)) => x == y,
        (Prim::Overlay, Prim::Overlay) => true,
        (Prim::MirrorH, Prim::MirrorH) => true,
        (Prim::MirrorV, Prim::MirrorV) => true,
        (Prim::RepeatH(x), Prim::RepeatH(y)) => x == y,
        (Prim::RepeatV(x), Prim::RepeatV(y)) => x == y,
        (Prim::Invert, Prim::Invert) => true,
        (Prim::SortRowsByColor, Prim::SortRowsByColor) => true,
        (Prim::SortColsByColor, Prim::SortColsByColor) => true,
        (Prim::RemoveColor(x), Prim::RemoveColor(y)) => x == y,
        (Prim::KeepLargestObject, Prim::KeepLargestObject) => true,
        (Prim::KeepSmallestObject, Prim::KeepSmallestObject) => true,
        (Prim::OutlineObjects(x), Prim::OutlineObjects(y)) => x == y,
        (Prim::FillInsideObjects(x), Prim::FillInsideObjects(y)) => x == y,
        (Prim::Translate(x1, x2), Prim::Translate(y1, y2)) => x1 == y1 && x2 == y2,
        (Prim::CropToBBox, Prim::CropToBBox) => true,
        (Prim::ExtendHLines, Prim::ExtendHLines) => true,
        (Prim::ExtendVLines, Prim::ExtendVLines) => true,
        (Prim::ExtendCross, Prim::ExtendCross) => true,
        (Prim::DiagFillTL, Prim::DiagFillTL) => true,
        (Prim::DiagFillTR, Prim::DiagFillTR) => true,
        (Prim::FillEnclosed(x), Prim::FillEnclosed(y)) => x == y,
        (Prim::UpscaleObjects(x), Prim::UpscaleObjects(y)) => x == y,
        (Prim::Compose(a1, a2), Prim::Compose(b1, b2)) => prim_eq(a1, b1) && prim_eq(a2, b2),
        (Prim::Conditional(a1, a2, a3), Prim::Conditional(b1, b2, b3)) => prim_eq(a1, b1)
            && prim_eq(a2, b2) && prim_eq(a3, b3),
        _ => {
            proof {
                assert(a != b);
            }
            false
        },
    }
}

} // verus!
