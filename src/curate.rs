//! Curation of the scanned palette: against the complements of the scanned
//! colors, then against the dominant colors of the image.
use vstd::prelude::*;

use crate::color::{inverted, lemma_distance_bounds, sq_distance, tagged, Color, PureColor, Rgb};
use crate::quantize::{dominant_colors_of, quantize, MAX_COLORS, MAX_PIXEL_BYTES, QUALITY};
use crate::scan::{anchors, find_closest_palette, scanned};
use crate::Error;

verus! {

/// Squared distance below which a color counts as a match for an anchor.
pub const MAX_COLOR_DISTANCE: u32 = 10_000;

/// No two colors of the palette are tagged with the same anchor.
pub open spec fn distinct_hues(p: Seq<Color>) -> bool {
    forall|i: int, j: int|
        0 <= i < p.len() && 0 <= j < p.len() && i != j ==> (#[trigger] p[i]).associated_pure_color
            != (#[trigger] p[j]).associated_pure_color
}

/// `j` is the first color of `p` tagged with `hue`.
pub open spec fn is_first_with_hue(p: Seq<Color>, hue: PureColor, j: int) -> bool {
    &&& 0 <= j < p.len()
    &&& p[j].associated_pure_color == hue
    &&& forall|k: int| 0 <= k < j ==> (#[trigger] p[k]).associated_pure_color != hue
}

pub open spec fn has_hue(p: Seq<Color>, hue: PureColor) -> bool {
    exists|j: int| 0 <= j < p.len() && (#[trigger] p[j]).associated_pure_color == hue
}

/// The directly scanned color is kept when it is no good match on its own
/// yet closer than its inverted counterpart.
pub open spec fn keeps_direct(direct: Color, other: Color) -> bool {
    direct.distance > MAX_COLOR_DISTANCE && direct.distance < other.distance
}

/// The color for `c`'s anchor after comparing it with the color of the same
/// anchor in `inverse`.
pub open spec fn inverse_choice(c: Color, inverse: Seq<Color>) -> Color {
    if has_hue(inverse, c.associated_pure_color) {
        let j = choose|j: int| is_first_with_hue(inverse, c.associated_pure_color, j);
        if keeps_direct(c, inverse[j]) {
            c
        } else {
            inverse[j]
        }
    } else {
        c
    }
}

pub proof fn lemma_first_with_hue_unique(p: Seq<Color>, hue: PureColor, i: int, j: int)
    requires
        is_first_with_hue(p, hue, i),
        is_first_with_hue(p, hue, j),
    ensures
        i == j,
{
    if i < j {
        assert(p[i].associated_pure_color != hue);
    } else if j < i {
        assert(p[j].associated_pure_color != hue);
    }
}

fn find_hue(colors: &Vec<Color>, hue: PureColor) -> (r: Option<usize>)
    ensures
        match r {
            Some(j) => is_first_with_hue(colors@, hue, j as int),
            None => !has_hue(colors@, hue),
        },
{
    let mut j: usize = 0;
    while j < colors.len()
        invariant
            j <= colors.len(),
            forall|k: int| 0 <= k < j ==> (#[trigger] colors@[k]).associated_pure_color != hue,
        decreases colors.len() - j,
    {
        if colors[j].associated_pure_color == hue {
            return Some(j);
        }
        j = j + 1;
    }
    None
}

/// For each color, the color of the same anchor in `inverse_palette` unless
/// the direct color is both a poor match and closer than that one.
pub fn create_palette_with_inverse_colors(palette: &Vec<Color>, inverse_palette: &Vec<Color>) -> (r:
    Vec<Color>)
    ensures
        r.len() == palette.len(),
        forall|i: int|
            0 <= i < palette.len() ==> #[trigger] r@[i] == inverse_choice(
                palette@[i],
                inverse_palette@,
            ),
        forall|i: int|
            0 <= i < palette.len() ==> (#[trigger] r@[i]).associated_pure_color
                == palette@[i].associated_pure_color,
{
    let mut curated: Vec<Color> = Vec::new();
    let mut i: usize = 0;
    while i < palette.len()
        invariant
            i <= palette.len(),
            curated.len() == i,
            forall|t: int|
                0 <= t < i ==> #[trigger] curated@[t] == inverse_choice(
                    palette@[t],
                    inverse_palette@,
                ),
            forall|t: int|
                0 <= t < i ==> (#[trigger] curated@[t]).associated_pure_color
                    == palette@[t].associated_pure_color,
        decreases palette.len() - i,
    {
        let color = palette[i];
        match find_hue(inverse_palette, color.associated_pure_color) {
            Some(j) => {
                let other = inverse_palette[j];
                proof {
                    let hue = color.associated_pure_color;
                    let c = choose|c: int| is_first_with_hue(inverse_palette@, hue, c);
                    lemma_first_with_hue_unique(inverse_palette@, hue, c, j as int);
                }
                if color.distance > MAX_COLOR_DISTANCE && color.distance < other.distance {
                    curated.push(color);
                } else {
                    curated.push(other);
                }
            },
            None => {
                curated.push(color);
            },
        }
        i = i + 1;
    }
    curated
}

/// Distance of `d` from the anchor of the palette's color `j`.
pub open spec fn tag_distance(p: Seq<Color>, j: int, d: Rgb) -> int {
    sq_distance(p[j].associated_pure_color.canonical(), d)
}

/// Among the first `n` colors of the palette, `j` is the first whose anchor
/// is closest to `d`, and that anchor is a match for `d`.
pub open spec fn is_best_in(p: Seq<Color>, d: Rgb, j: int, n: int) -> bool {
    &&& 0 <= j < n
    &&& tag_distance(p, j, d) < MAX_COLOR_DISTANCE
    &&& forall|k: int| 0 <= k < n ==> tag_distance(p, j, d) <= #[trigger] tag_distance(p, k, d)
    &&& forall|k: int| 0 <= k < j ==> tag_distance(p, j, d) < #[trigger] tag_distance(p, k, d)
}

/// The palette color whose anchor the dominant color `d` is matched to.
pub open spec fn is_best_entry(p: Seq<Color>, d: Rgb, j: int) -> bool {
    is_best_in(p, d, j, p.len() as int)
}

/// Among the first `n` dominant colors, `m` is the first of those matched to
/// the palette's color `i` that lies closest to its anchor.
pub open spec fn is_winner(p: Seq<Color>, dom: Seq<Rgb>, i: int, m: int, n: int) -> bool {
    &&& 0 <= m < n
    &&& is_best_entry(p, dom[m], i)
    &&& forall|k: int|
        0 <= k < n && is_best_entry(p, #[trigger] dom[k], i) ==> tag_distance(p, i, dom[m])
            <= tag_distance(p, i, dom[k])
    &&& forall|k: int|
        0 <= k < m && is_best_entry(p, #[trigger] dom[k], i) ==> tag_distance(p, i, dom[k])
            > tag_distance(p, i, dom[m])
}

pub open spec fn has_winner(p: Seq<Color>, dom: Seq<Rgb>, i: int) -> bool {
    exists|m: int| is_winner(p, dom, i, m, dom.len() as int)
}

/// The palette's color `i` after reconciliation: the winning dominant color
/// tagged with its anchor, or the color itself when no dominant color matched.
pub open spec fn reconciled(p: Seq<Color>, dom: Seq<Rgb>, i: int) -> Color {
    if has_winner(p, dom, i) {
        tagged(
            p[i].associated_pure_color,
            dom[choose|m: int| is_winner(p, dom, i, m, dom.len() as int)],
        )
    } else {
        p[i]
    }
}

/// The whole palette after reconciliation with the dominant colors.
pub open spec fn reconciled_palette(p: Seq<Color>, dom: Seq<Rgb>) -> Seq<Color> {
    Seq::new(p.len(), |i: int| reconciled(p, dom, i))
}

pub proof fn lemma_best_unique(p: Seq<Color>, d: Rgb, j1: int, j2: int, n: int)
    requires
        is_best_in(p, d, j1, n),
        is_best_in(p, d, j2, n),
    ensures
        j1 == j2,
{
    if j1 < j2 {
        assert(tag_distance(p, j2, d) < tag_distance(p, j1, d));
        assert(tag_distance(p, j1, d) <= tag_distance(p, j2, d));
    } else if j2 < j1 {
        assert(tag_distance(p, j1, d) < tag_distance(p, j2, d));
        assert(tag_distance(p, j2, d) <= tag_distance(p, j1, d));
    }
}

pub proof fn lemma_winner_unique(p: Seq<Color>, dom: Seq<Rgb>, i: int, m1: int, m2: int, n: int)
    requires
        is_winner(p, dom, i, m1, n),
        is_winner(p, dom, i, m2, n),
    ensures
        m1 == m2,
{
    if m1 < m2 {
        assert(tag_distance(p, i, dom[m1]) > tag_distance(p, i, dom[m2]));
        assert(tag_distance(p, i, dom[m1]) <= tag_distance(p, i, dom[m2]));
    } else if m2 < m1 {
        assert(tag_distance(p, i, dom[m2]) > tag_distance(p, i, dom[m1]));
        assert(tag_distance(p, i, dom[m2]) <= tag_distance(p, i, dom[m1]));
    }
}

/// The palette entry that a dominant color is matched to, with the color
/// tagged with that entry's anchor.
fn best_entry(palette: &Vec<Color>, d: Rgb) -> (r: Option<(usize, Color)>)
    ensures
        match r {
            Some((j, c)) => is_best_entry(palette@, d, j as int) && c == tagged(
                palette@[j as int].associated_pure_color,
                d,
            ) && c.is_consistent(),
            None => forall|j: int| !is_best_entry(palette@, d, j),
        },
{
    let ghost p = palette@;
    let mut best: Option<(usize, Color)> = None;
    let mut j: usize = 0;
    while j < palette.len()
        invariant
            p == palette@,
            j <= palette.len(),
            match best {
                Some((b, c)) => is_best_in(p, d, b as int, j as int) && c == tagged(
                    p[b as int].associated_pure_color,
                    d,
                ) && c.is_consistent(),
                None => forall|k: int| 0 <= k < j ==> #[trigger] tag_distance(p, k, d) >= MAX_COLOR_DISTANCE,
            },
        decreases palette.len() - j,
    {
        let attempted = Color::new(palette[j].associated_pure_color, d);
        assert(attempted.distance == tag_distance(p, j as int, d));
        let better = match best {
            Some((_, c)) => attempted.distance < c.distance,
            None => true,
        };
        if attempted.distance < MAX_COLOR_DISTANCE && better {
            best = Some((j, attempted));
        }
        j = j + 1;
    }
    best
}

/// Reconciles the palette with the image's dominant colors: each dominant
/// color is matched to the palette entry whose anchor it lies closest to,
/// provided it is a match at all; each entry then takes the closest dominant
/// color matched to it, the earliest on a tie, and keeps its own color when
/// none was. Without any dominant color there is nothing to reconcile with,
/// and the result is `NoColors`.
pub fn create_palette_with_color_thief_colors(palette: &Vec<Color>, color_thief_palette: &Vec<Rgb>) -> (r:
    Result<Vec<Color>, Error>)
    requires
        distinct_hues(palette@),
    ensures
        color_thief_palette.len() == 0 ==> (r matches Err(Error::NoColors(_))),
        color_thief_palette.len() > 0 ==> (r matches Ok(v) && v@ == reconciled_palette(
            palette@,
            color_thief_palette@,
        )),
{
    if color_thief_palette.len() == 0 {
        return Err(Error::NoColors(String::from_str("no dominant colors to curate the palette with")));
    }
    let ghost p = palette@;
    let ghost dom = color_thief_palette@;
    let mut winners: Vec<Option<Color>> = Vec::new();
    let mut i: usize = 0;
    while i < palette.len()
        invariant
            i <= palette.len(),
            winners.len() == i,
            forall|t: int| 0 <= t < i ==> #[trigger] winners@[t] is None,
        decreases palette.len() - i,
    {
        winners.push(None);
        i = i + 1;
    }
    let ghost mut win: Seq<int> = Seq::new(palette.len() as nat, |t: int| 0);
    let mut m: usize = 0;
    while m < color_thief_palette.len()
        invariant
            p == palette@,
            dom == color_thief_palette@,
            m <= dom.len(),
            winners.len() == p.len(),
            win.len() == p.len(),
            forall|t: int|
                0 <= t < p.len() ==> match #[trigger] winners@[t] {
                    Some(w) => is_winner(p, dom, t, win[t], m as int) && w == tagged(
                        p[t].associated_pure_color,
                        dom[win[t]],
                    ),
                    None => forall|k: int| 0 <= k < m ==> !is_best_entry(p, #[trigger] dom[k], t),
                },
        decreases dom.len() - m,
    {
        let d = color_thief_palette[m];
        let ghost winners_before = winners@;
        let ghost win_before = win;
        match best_entry(palette, d) {
            Some((j, c)) => {
                let replace = match winners[j] {
                    Some(w) => {
                        proof {
                            lemma_distance_bounds(
                                p[j as int].associated_pure_color.canonical(),
                                dom[win[j as int]],
                            );
                        }
                        c.distance < w.distance
                    },
                    None => true,
                };
                if replace {
                    winners.set(j, Some(c));
                    proof {
                        win = win.update(j as int, m as int);
                    }
                }
                proof {
                    assert forall|t: int| 0 <= t < p.len() implies match #[trigger] winners@[t] {
                        Some(w) => is_winner(p, dom, t, win[t], m + 1) && w == tagged(
                            p[t].associated_pure_color,
                            dom[win[t]],
                        ),
                        None => forall|k: int|
                            0 <= k < m + 1 ==> !is_best_entry(p, #[trigger] dom[k], t),
                    } by {
                        if t != j {
                            if is_best_entry(p, dom[m as int], t) {
                                lemma_best_unique(p, d, t, j as int, p.len() as int);
                            }
                            assert(winners@[t] == winners_before[t]);
                        }
                    }
                }
            },
            None => {
                assert forall|t: int| 0 <= t < p.len() implies match #[trigger] winners@[t] {
                    Some(w) => is_winner(p, dom, t, win[t], m + 1) && w == tagged(
                        p[t].associated_pure_color,
                        dom[win[t]],
                    ),
                    None => forall|k: int| 0 <= k < m + 1 ==> !is_best_entry(p, #[trigger] dom[k], t),
                } by {
                    assert(!is_best_entry(p, dom[m as int], t));
                }
            },
        }
        m = m + 1;
    }
    let mut result: Vec<Color> = Vec::new();
    let mut i: usize = 0;
    while i < palette.len()
        invariant
            p == palette@,
            dom == color_thief_palette@,
            i <= p.len(),
            result.len() == i,
            winners.len() == p.len(),
            win.len() == p.len(),
            forall|t: int|
                0 <= t < p.len() ==> match #[trigger] winners@[t] {
                    Some(w) => is_winner(p, dom, t, win[t], dom.len() as int) && w == tagged(
                        p[t].associated_pure_color,
                        dom[win[t]],
                    ),
                    None => forall|k: int|
                        0 <= k < dom.len() ==> !is_best_entry(p, #[trigger] dom[k], t),
                },
            forall|t: int| 0 <= t < i ==> #[trigger] result@[t] == reconciled(p, dom, t),
        decreases p.len() - i,
    {
        let chosen = match winners[i] {
            Some(w) => w,
            None => palette[i],
        };
        proof {
            let t = i as int;
            match winners@[t] {
                Some(w) => {
                    let k = choose|k: int| is_winner(p, dom, t, k, dom.len() as int);
                    lemma_winner_unique(p, dom, t, k, win[t], dom.len() as int);
                },
                None => {
                    if has_winner(p, dom, t) {
                        let k = choose|k: int| is_winner(p, dom, t, k, dom.len() as int);
                        assert(is_best_entry(p, dom[k], t));
                    }
                },
            }
        }
        result.push(chosen);
        i = i + 1;
    }
    assert(result@ =~= reconciled_palette(p, dom));
    Ok(result)
}

proof fn lemma_same_hues_same_best(p: Seq<Color>, q: Seq<Color>, d: Rgb, j: int)
    requires
        p.len() == q.len(),
        forall|i: int|
            0 <= i < p.len() ==> (#[trigger] q[i]).associated_pure_color
                == p[i].associated_pure_color,
    ensures
        is_best_entry(q, d, j) == is_best_entry(p, d, j),
{
    let n = p.len() as int;
    if 0 <= j < n {
        assert(q[j].associated_pure_color == p[j].associated_pure_color);
        if is_best_entry(q, d, j) {
            assert forall|k: int| 0 <= k < n implies tag_distance(p, j, d)
                <= #[trigger] tag_distance(p, k, d) by {
                assert(q[k].associated_pure_color == p[k].associated_pure_color);
                assert(tag_distance(q, j, d) <= tag_distance(q, k, d));
            }
            assert forall|k: int| 0 <= k < j implies tag_distance(p, j, d)
                < #[trigger] tag_distance(p, k, d) by {
                assert(q[k].associated_pure_color == p[k].associated_pure_color);
                assert(tag_distance(q, j, d) < tag_distance(q, k, d));
            }
        }
        if is_best_entry(p, d, j) {
            assert forall|k: int| 0 <= k < n implies tag_distance(q, j, d)
                <= #[trigger] tag_distance(q, k, d) by {
                assert(q[k].associated_pure_color == p[k].associated_pure_color);
                assert(tag_distance(p, j, d) <= tag_distance(p, k, d));
            }
            assert forall|k: int| 0 <= k < j implies tag_distance(q, j, d)
                < #[trigger] tag_distance(q, k, d) by {
                assert(q[k].associated_pure_color == p[k].associated_pure_color);
                assert(tag_distance(p, j, d) < tag_distance(p, k, d));
            }
        }
    }
}

proof fn lemma_same_hues_same_winner(p: Seq<Color>, q: Seq<Color>, dom: Seq<Rgb>, i: int, m: int, n: int)
    requires
        p.len() == q.len(),
        forall|t: int|
            0 <= t < p.len() ==> (#[trigger] q[t]).associated_pure_color
                == p[t].associated_pure_color,
    ensures
        is_winner(q, dom, i, m, n) == is_winner(p, dom, i, m, n),
{
    assert forall|d: Rgb| #[trigger] is_best_entry(q, d, i) == is_best_entry(p, d, i) by {
        lemma_same_hues_same_best(p, q, d, i);
    }
    if 0 <= i < p.len() {
        assert(q[i].associated_pure_color == p[i].associated_pure_color);
        assert forall|d: Rgb| #[trigger] tag_distance(q, i, d) == tag_distance(p, i, d) by {}
    }
    if is_winner(q, dom, i, m, n) || is_winner(p, dom, i, m, n) {
        assert(0 <= i < p.len());
    }
}

/// Reconciling an already reconciled palette with the same dominant colors
/// changes nothing.
pub proof fn lemma_reconcile_idempotent(p: Seq<Color>, dom: Seq<Rgb>)
    ensures
        reconciled_palette(reconciled_palette(p, dom), dom) == reconciled_palette(p, dom),
{
    let r = reconciled_palette(p, dom);
    assert forall|i: int| 0 <= i < p.len() implies (#[trigger] r[i]).associated_pure_color
        == p[i].associated_pure_color by {}
    let n = dom.len() as int;
    assert forall|i: int| 0 <= i < r.len() implies #[trigger] reconciled(r, dom, i) == r[i] by {
        if has_winner(p, dom, i) {
            let m = choose|m: int| is_winner(p, dom, i, m, n);
            lemma_same_hues_same_winner(p, r, dom, i, m, n);
            assert(is_winner(r, dom, i, m, n));
            let m2 = choose|m2: int| is_winner(r, dom, i, m2, n);
            lemma_same_hues_same_winner(p, r, dom, i, m2, n);
            lemma_winner_unique(p, dom, i, m, m2, n);
        } else if has_winner(r, dom, i) {
            let m = choose|m: int| is_winner(r, dom, i, m, n);
            lemma_same_hues_same_winner(p, r, dom, i, m, n);
            assert(is_winner(p, dom, i, m, n));
        }
    }
    assert(reconciled_palette(r, dom) =~= r);
}

/// The scanned palette: the best match for each anchor, in anchor order.
pub open spec fn scanned_palette(bytes: Seq<u8>) -> Seq<Color> {
    Seq::new(12, |i: int| scanned(bytes, anchors()[i]))
}

/// The scanned palette after comparison with its own inverted colors.
pub open spec fn inverse_curated(bytes: Seq<u8>) -> Seq<Color> {
    let s = scanned_palette(bytes);
    let inverse = Seq::new(12, |i: int| inverted(s[i]));
    Seq::new(12, |i: int| inverse_choice(s[i], inverse))
}

/// The outcome of curation: one color per anchor, and the dominant colors
/// of the image, most dominant first.
pub struct CuratedPalette {
    pub palette: Vec<Color>,
    pub dominant: Vec<Rgb>,
}

proof fn lemma_anchors_distinct()
    ensures
        forall|i: int, j: int|
            0 <= i < 12 && 0 <= j < 12 && i != j ==> #[trigger] anchors()[i] != #[trigger] anchors()[j],
{
    assert forall|i: int, j: int|
        0 <= i < 12 && 0 <= j < 12 && i != j implies #[trigger] anchors()[i] != #[trigger] anchors()[j] by {
        assert(0 <= i < 12);
    }
}

/// Scans the pixels, curates the scan against its inverted colors, and
/// reconciles the result with the dominant colors of the image. An image
/// larger than the quantizer takes is refused; a quantizer that reports an
/// error or no colors gives `NoColors`.
pub fn curate_image_palette(pixels: &Vec<u8>) -> (r: Result<CuratedPalette, Error>)
    ensures
        pixels.len() > MAX_PIXEL_BYTES ==> (r matches Err(Error::Other(_))),
        pixels.len() <= MAX_PIXEL_BYTES ==> match dominant_colors_of(pixels@, QUALITY, MAX_COLORS) {
            None => r matches Err(Error::NoColors(_)),
            Some(d) => {
                &&& d.len() == 0 ==> (r matches Err(Error::NoColors(_)))
                &&& d.len() > 0 ==> (r matches Ok(c) && c.dominant@ == d && c.palette@
                    == reconciled_palette(inverse_curated(pixels@), d))
            },
        },
{
    if pixels.len() > MAX_PIXEL_BYTES {
        return Err(Error::Other(String::from_str("the image has more pixels than the quantizer takes")));
    }
    let closest = find_closest_palette(pixels);
    let mut inverse: Vec<Color> = Vec::new();
    let mut i: usize = 0;
    while i < closest.len()
        invariant
            closest.len() == 12,
            i <= 12,
            inverse.len() == i,
            forall|t: int| 0 <= t < i ==> #[trigger] inverse@[t] == inverted(closest@[t]),
        decreases 12 - i,
    {
        inverse.push(closest[i].get_inverse());
        i = i + 1;
    }
    let curated = create_palette_with_inverse_colors(&closest, &inverse);
    proof {
        let s = scanned_palette(pixels@);
        assert(closest@ =~= s);
        assert(inverse@ =~= Seq::new(12, |i: int| inverted(s[i])));
        assert(curated@ =~= inverse_curated(pixels@));
        lemma_anchors_distinct();
        assert forall|t: int| 0 <= t < 12 implies (#[trigger] curated@[t]).associated_pure_color
            == anchors()[t] by {
            assert(closest@[t] == scanned(pixels@, anchors()[t]));
        }
        assert(distinct_hues(curated@));
    }
    let dominant = match quantize(pixels, QUALITY, MAX_COLORS) {
        Ok(v) => v,
        Err(e) => {
            return Err(Error::NoColors(e.to_string()));
        },
    };
    let palette = create_palette_with_color_thief_colors(&curated, &dominant)?;
    Ok(CuratedPalette { palette, dominant })
}

} // verus!
