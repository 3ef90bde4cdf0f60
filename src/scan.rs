//! The full-image scan for the pixel closest to each hue anchor.
//!
//! Pixels come as raw RGBA bytes in row-major order, four bytes to a pixel;
//! alpha is ignored and a trailing partial pixel is not read.
use vstd::prelude::*;

use crate::color::{lemma_distance_bounds, sq_distance, tagged, Color, PureColor, Rgb};

verus! {

pub open spec fn pixel_count(bytes: Seq<u8>) -> int {
    bytes.len() as int / 4
}

/// The color of pixel `k`.
pub open spec fn pixel_at(bytes: Seq<u8>, k: int) -> Rgb {
    Rgb { red: bytes[4 * k], green: bytes[4 * k + 1], blue: bytes[4 * k + 2] }
}

/// The twelve anchors, in the order of a scanned palette.
pub open spec fn anchors() -> Seq<PureColor> {
    seq![
        PureColor::Red,
        PureColor::Yellow,
        PureColor::Orange,
        PureColor::Green,
        PureColor::Cyan,
        PureColor::Blue,
        PureColor::Purple,
        PureColor::Brown,
        PureColor::Magenta,
        PureColor::Azure,
        PureColor::SpringGreen,
        PureColor::LightCyan,
    ]
}

/// Among the first `n` pixels, `k` is the first one at the smallest distance from `target`.
pub open spec fn is_nearest_among(bytes: Seq<u8>, target: Rgb, k: int, n: int) -> bool {
    &&& 0 <= k < n
    &&& forall|j: int|
        0 <= j < n ==> sq_distance(target, pixel_at(bytes, k)) <= sq_distance(
            target,
            #[trigger] pixel_at(bytes, j),
        )
    &&& forall|j: int|
        0 <= j < k ==> sq_distance(target, #[trigger] pixel_at(bytes, j)) > sq_distance(
            target,
            pixel_at(bytes, k),
        )
}

/// The best match for an anchor: the first pixel closest to its canonical
/// color, or the canonical color itself when there are no pixels.
pub open spec fn scanned(bytes: Seq<u8>, hue: PureColor) -> Color {
    if pixel_count(bytes) == 0 {
        tagged(hue, hue.canonical())
    } else {
        tagged(
            hue,
            pixel_at(
                bytes,
                choose|k: int| is_nearest_among(bytes, hue.canonical(), k, pixel_count(bytes)),
            ),
        )
    }
}

pub proof fn lemma_nearest_unique(bytes: Seq<u8>, target: Rgb, k1: int, k2: int, n: int)
    requires
        is_nearest_among(bytes, target, k1, n),
        is_nearest_among(bytes, target, k2, n),
    ensures
        k1 == k2,
{
    if k1 < k2 {
        assert(sq_distance(target, pixel_at(bytes, k1)) > sq_distance(target, pixel_at(bytes, k2)));
        assert(sq_distance(target, pixel_at(bytes, k1)) <= sq_distance(target, pixel_at(bytes, k2)));
    } else if k2 < k1 {
        assert(sq_distance(target, pixel_at(bytes, k2)) > sq_distance(target, pixel_at(bytes, k1)));
        assert(sq_distance(target, pixel_at(bytes, k2)) <= sq_distance(target, pixel_at(bytes, k1)));
    }
}

fn anchor_colors() -> (v: Vec<Color>)
    ensures
        v.len() == 12,
        forall|i: int| 0 <= i < 12 ==> #[trigger] v@[i] == tagged(anchors()[i], anchors()[i].canonical()),
{
    let mut v: Vec<Color> = Vec::new();
    v.push(Color::from(PureColor::Red));
    v.push(Color::from(PureColor::Yellow));
    v.push(Color::from(PureColor::Orange));
    v.push(Color::from(PureColor::Green));
    v.push(Color::from(PureColor::Cyan));
    v.push(Color::from(PureColor::Blue));
    v.push(Color::from(PureColor::Purple));
    v.push(Color::from(PureColor::Brown));
    v.push(Color::from(PureColor::Magenta));
    v.push(Color::from(PureColor::Azure));
    v.push(Color::from(PureColor::SpringGreen));
    v.push(Color::from(PureColor::LightCyan));
    v
}

fn read_pixel(pixels: &Vec<u8>, k: usize) -> (c: Rgb)
    requires
        k < pixel_count(pixels@),
    ensures
        c == pixel_at(pixels@, k as int),
{
    assert(4 * k + 3 < pixels.len()) by (nonlinear_arith)
        requires
            k < pixels.len() / 4,
    ;
    Rgb::new(pixels[4 * k], pixels[4 * k + 1], pixels[4 * k + 2])
}

/// For each of the twelve anchors, the first pixel closest to its canonical
/// color, in one pass over the image.
pub fn find_closest_palette(pixels: &Vec<u8>) -> (r: Vec<Color>)
    ensures
        r.len() == 12,
        forall|i: int| 0 <= i < 12 ==> #[trigger] r@[i] == scanned(pixels@, anchors()[i]),
        forall|i: int| 0 <= i < 12 ==> (#[trigger] r@[i]).is_consistent(),
{
    let targets = anchor_colors();
    let mut closest = anchor_colors();
    let n: usize = pixels.len() / 4;
    let ghost bytes = pixels@;
    let ghost mut idx: Seq<int> = Seq::new(12, |i: int| 0);
    let mut p: usize = 0;
    while p < n
        invariant
            n == pixel_count(bytes),
            bytes == pixels@,
            p <= n,
            targets.len() == 12,
            closest.len() == 12,
            idx.len() == 12,
            forall|i: int|
                0 <= i < 12 ==> #[trigger] targets@[i] == tagged(
                    anchors()[i],
                    anchors()[i].canonical(),
                ),
            p == 0 ==> forall|i: int|
                0 <= i < 12 ==> #[trigger] closest@[i] == tagged(
                    anchors()[i],
                    anchors()[i].canonical(),
                ),
            p > 0 ==> forall|i: int|
                0 <= i < 12 ==> {
                    &&& is_nearest_among(bytes, anchors()[i].canonical(), #[trigger] idx[i], p as int)
                    &&& closest@[i] == tagged(anchors()[i], pixel_at(bytes, idx[i]))
                },
        decreases n - p,
    {
        let px = read_pixel(pixels, p);
        let ghost before = closest@;
        let ghost idx_before = idx;
        let mut i: usize = 0;
        while i < 12
            invariant
                n == pixel_count(bytes),
                bytes == pixels@,
                p < n,
                px == pixel_at(bytes, p as int),
                i <= 12,
                targets.len() == 12,
                closest.len() == 12,
                idx.len() == 12,
                before.len() == 12,
                idx_before.len() == 12,
                forall|t: int|
                    0 <= t < 12 ==> #[trigger] targets@[t] == tagged(
                        anchors()[t],
                        anchors()[t].canonical(),
                    ),
                forall|t: int| i <= t < 12 ==> closest@[t] == #[trigger] before[t],
                forall|t: int| i <= t < 12 ==> idx[t] == #[trigger] idx_before[t],
                p == 0 ==> forall|t: int|
                    0 <= t < 12 ==> #[trigger] before[t] == tagged(
                        anchors()[t],
                        anchors()[t].canonical(),
                    ),
                p > 0 ==> forall|t: int|
                    0 <= t < 12 ==> {
                        &&& is_nearest_among(
                            bytes,
                            anchors()[t].canonical(),
                            #[trigger] idx_before[t],
                            p as int,
                        )
                        &&& before[t] == tagged(anchors()[t], pixel_at(bytes, idx_before[t]))
                    },
                forall|t: int|
                    0 <= t < i ==> {
                        &&& is_nearest_among(
                            bytes,
                            anchors()[t].canonical(),
                            #[trigger] idx[t],
                            p + 1,
                        )
                        &&& closest@[t] == tagged(anchors()[t], pixel_at(bytes, idx[t]))
                    },
            decreases 12 - i,
        {
            let hue = targets[i].associated_pure_color;
            let candidate = Color::new(hue, px);
            let ghost target = anchors()[i as int].canonical();
            proof {
                lemma_distance_bounds(target, pixel_at(bytes, idx[i as int]));
                lemma_distance_bounds(target, px);
            }
            if p == 0 || candidate.distance < closest[i].distance {
                closest.set(i, candidate);
                proof {
                    idx = idx.update(i as int, p as int);
                }
            }
            assert(is_nearest_among(bytes, target, idx[i as int], p + 1)) by {
                assert forall|j: int| 0 <= j < p + 1 implies sq_distance(
                    target,
                    pixel_at(bytes, idx[i as int]),
                ) <= sq_distance(target, #[trigger] pixel_at(bytes, j)) by {
                    if p > 0 && j < p {
                        assert(is_nearest_among(bytes, target, idx_before[i as int], p as int));
                    }
                }
                assert forall|j: int| 0 <= j < idx[i as int] implies sq_distance(
                    target,
                    #[trigger] pixel_at(bytes, j),
                ) > sq_distance(target, pixel_at(bytes, idx[i as int])) by {
                    assert(is_nearest_among(bytes, target, idx_before[i as int], p as int));
                }
            }
            i = i + 1;
        }
        p = p + 1;
    }
    proof {
        assert forall|i: int| 0 <= i < 12 implies #[trigger] closest@[i] == scanned(
            bytes,
            anchors()[i],
        ) && closest@[i].is_consistent() by {
            let target = anchors()[i].canonical();
            if n > 0 {
                assert(is_nearest_among(bytes, target, idx[i], n as int));
                let k = choose|k: int| is_nearest_among(bytes, target, k, n as int);
                lemma_nearest_unique(bytes, target, k, idx[i], n as int);
                lemma_distance_bounds(target, pixel_at(bytes, idx[i]));
            } else {
                lemma_distance_bounds(target, target);
            }
        }
    }
    closest
}

} // verus!
