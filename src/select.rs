//! Staged searches for a light and a dark anchor among the dominant colors,
//! and the adjustments that turn the pair into a background and foreground.
//!
//! Luma and saturation are measured in millionths: 1_000_000 stands for 1.0.
use vstd::prelude::*;

use crate::color::Rgb;
use crate::{Error, SchemeVariant};

verus! {

/// A dominant color with its perceptual measures, in millionths.
#[derive(Clone, Copy, Debug, PartialEq, Eq, Structural)]
pub struct Candidate {
    pub value: Rgb,
    pub saturation: u32,
    pub luma: u32,
}

/// Optional inclusive bounds on luma and saturation; a missing bound admits all.
#[derive(Clone, Copy, Debug, PartialEq, Eq, Structural)]
pub struct PassBounds {
    pub min_luma: Option<u32>,
    pub max_luma: Option<u32>,
    pub min_saturation: Option<u32>,
    pub max_saturation: Option<u32>,
}

pub open spec fn within(x: u32, lo: Option<u32>, hi: Option<u32>) -> bool {
    &&& (lo matches Some(l) ==> l <= x)
    &&& (hi matches Some(h) ==> x <= h)
}

/// The candidate satisfies every bound of the pass.
pub open spec fn passes(c: Candidate, b: PassBounds) -> bool {
    within(c.luma, b.min_luma, b.max_luma) && within(c.saturation, b.min_saturation, b.max_saturation)
}

/// `i` is the first candidate, in dominance order, that the pass admits.
pub open spec fn is_first_passing(cs: Seq<Candidate>, b: PassBounds, i: int) -> bool {
    &&& 0 <= i < cs.len()
    &&& passes(cs[i], b)
    &&& forall|j: int| 0 <= j < i ==> !passes(#[trigger] cs[j], b)
}

pub open spec fn any_passing(cs: Seq<Candidate>, b: PassBounds) -> bool {
    exists|i: int| 0 <= i < cs.len() && passes(#[trigger] cs[i], b)
}

/// The index chosen by a staged search: the first candidate admitted by the
/// first pass that admits any, or the most dominant candidate when no pass does.
pub open spec fn staged_pick(cs: Seq<Candidate>, ps: Seq<PassBounds>) -> int
    decreases ps.len(),
{
    if ps.len() == 0 {
        0
    } else if any_passing(cs, ps[0]) {
        choose|i: int| is_first_passing(cs, ps[0], i)
    } else {
        staged_pick(cs, ps.drop_first())
    }
}

pub open spec fn bounds(
    min_luma: Option<u32>,
    max_luma: Option<u32>,
    min_saturation: Option<u32>,
    max_saturation: Option<u32>,
) -> PassBounds {
    PassBounds { min_luma, max_luma, min_saturation, max_saturation }
}

/// The passes of the light search, from strict to permissive.
pub open spec fn light_passes() -> Seq<PassBounds> {
    seq![
        bounds(Some(600_000), None, None, Some(400_000)),
        bounds(Some(700_000), None, None, Some(850_000)),
        bounds(Some(500_000), None, None, Some(500_000)),
        bounds(Some(600_000), None, None, Some(850_000)),
        bounds(Some(320_000), None, None, Some(400_000)),
        bounds(Some(400_000), None, None, None),
        bounds(Some(300_000), None, None, None),
    ]
}

/// The passes of the dark search, from strict to permissive.
pub open spec fn dark_passes() -> Seq<PassBounds> {
    seq![
        bounds(Some(12_000), Some(100_000), Some(180_000), Some(900_000)),
        bounds(Some(12_000), Some(100_000), None, None),
        bounds(None, Some(100_000), None, None),
    ]
}

fn pass(
    min_luma: Option<u32>,
    max_luma: Option<u32>,
    min_saturation: Option<u32>,
    max_saturation: Option<u32>,
) -> (b: PassBounds)
    ensures
        b == bounds(min_luma, max_luma, min_saturation, max_saturation),
{
    PassBounds { min_luma, max_luma, min_saturation, max_saturation }
}

fn light_pass_table() -> (v: Vec<PassBounds>)
    ensures
        v@ == light_passes(),
{
    let mut v: Vec<PassBounds> = Vec::new();
    // A pale color with little saturation.
    v.push(pass(Some(600_000), None, None, Some(400_000)));
    // A saturated color, provided it is very bright.
    v.push(pass(Some(700_000), None, None, Some(850_000)));
    // As the first, a little more permissive.
    v.push(pass(Some(500_000), None, None, Some(500_000)));
    // More saturated colors.
    v.push(pass(Some(600_000), None, None, Some(850_000)));
    // Darker colors, provided they are not saturated.
    v.push(pass(Some(320_000), None, None, Some(400_000)));
    // Any saturation.
    v.push(pass(Some(400_000), None, None, None));
    // Darker still.
    v.push(pass(Some(300_000), None, None, None));
    assert(v@ =~= light_passes());
    v
}

fn dark_pass_table() -> (v: Vec<PassBounds>)
    ensures
        v@ == dark_passes(),
{
    let mut v: Vec<PassBounds> = Vec::new();
    // A darkish color with at least a bit of color.
    v.push(pass(Some(12_000), Some(100_000), Some(180_000), Some(900_000)));
    // Any saturation, dark but not very dark.
    v.push(pass(Some(12_000), Some(100_000), None, None));
    // Darker colors too.
    v.push(pass(None, Some(100_000), None, None));
    assert(v@ =~= dark_passes());
    v
}

fn within_bounds(x: u32, lo: Option<u32>, hi: Option<u32>) -> (r: bool)
    ensures
        r == within(x, lo, hi),
{
    let above = match lo {
        Some(l) => l <= x,
        None => true,
    };
    let below = match hi {
        Some(h) => x <= h,
        None => true,
    };
    above && below
}

/// The first candidate, in dominance order, within all the given bounds.
pub fn color_pass(
    colors: &Vec<Candidate>,
    min_luma: Option<u32>,
    max_luma: Option<u32>,
    min_saturation: Option<u32>,
    max_saturation: Option<u32>,
) -> (r: Option<Candidate>)
    ensures
        ({
            let b = bounds(min_luma, max_luma, min_saturation, max_saturation);
            match r {
                Some(c) => exists|i: int| is_first_passing(colors@, b, i) && colors@[i] == c,
                None => !any_passing(colors@, b),
            }
        }),
{
    let ghost b = bounds(min_luma, max_luma, min_saturation, max_saturation);
    let mut i: usize = 0;
    while i < colors.len()
        invariant
            i <= colors.len(),
            b == bounds(min_luma, max_luma, min_saturation, max_saturation),
            forall|j: int| 0 <= j < i ==> !passes(#[trigger] colors@[j], b),
        decreases colors.len() - i,
    {
        let c = colors[i];
        if within_bounds(c.luma, min_luma, max_luma) && within_bounds(
            c.saturation,
            min_saturation,
            max_saturation,
        ) {
            assert(is_first_passing(colors@, b, i as int));
            return Some(c);
        }
        i = i + 1;
    }
    None
}

pub proof fn lemma_first_passing_unique(cs: Seq<Candidate>, b: PassBounds, i: int, j: int)
    requires
        is_first_passing(cs, b, i),
        is_first_passing(cs, b, j),
    ensures
        i == j,
{
    if i < j {
        assert(!passes(cs[i], b));
    } else if j < i {
        assert(!passes(cs[j], b));
    }
}

/// Runs the passes in order and stops at the first that admits a candidate;
/// falls back to the most dominant candidate.
fn staged_search(colors: &Vec<Candidate>, table: &Vec<PassBounds>) -> (r: Result<Candidate, Error>)
    ensures
        colors.len() == 0 ==> r matches Err(Error::NoColors(_)),
        colors.len() > 0 ==> r == Ok::<Candidate, Error>(colors@[staged_pick(colors@, table@)]),
{
    if colors.len() == 0 {
        return Err(Error::NoColors(String::from_str("failed to find colors in the image")));
    }
    let ghost cs = colors@;
    let mut k: usize = 0;
    assert(table@.skip(0) =~= table@);
    while k < table.len()
        invariant
            k <= table.len(),
            colors@ == cs,
            cs.len() > 0,
            staged_pick(cs, table@) == staged_pick(cs, table@.skip(k as int)),
        decreases table.len() - k,
    {
        let b = table[k];
        assert(table@.skip(k as int)[0] == b);
        match color_pass(colors, b.min_luma, b.max_luma, b.min_saturation, b.max_saturation) {
            Some(c) => {
                proof {
                    let i = choose|i: int| is_first_passing(cs, b, i) && cs[i] == c;
                    assert(any_passing(cs, b));
                    let p = staged_pick(cs, table@.skip(k as int));
                    assert(is_first_passing(cs, b, p));
                    lemma_first_passing_unique(cs, b, i, p);
                }
                return Ok(c);
            },
            None => {
                assert(table@.skip(k as int).drop_first() =~= table@.skip(k + 1));
            },
        }
        k = k + 1;
    }
    assert(table@.skip(k as int).len() == 0);
    Ok(colors[0])
}

/// The index of the first pass that admits any candidate, or the number of
/// passes when none does and the search falls back to the most dominant color.
pub open spec fn first_pass(cs: Seq<Candidate>, ps: Seq<PassBounds>) -> int
    decreases ps.len(),
{
    if ps.len() == 0 {
        0
    } else if any_passing(cs, ps[0]) {
        0
    } else {
        1 + first_pass(cs, ps.drop_first())
    }
}

fn passes_taken(colors: &Vec<Candidate>, table: &Vec<PassBounds>) -> (r: usize)
    requires
        table.len() < usize::MAX,
    ensures
        r == first_pass(colors@, table@) + 1,
{
    let ghost cs = colors@;
    let mut k: usize = 0;
    assert(table@.skip(0) =~= table@);
    while k < table.len()
        invariant
            k <= table.len(),
            table.len() < usize::MAX,
            colors@ == cs,
            first_pass(cs, table@) == k + first_pass(cs, table@.skip(k as int)),
        decreases table.len() - k,
    {
        let b = table[k];
        assert(table@.skip(k as int)[0] == b);
        match color_pass(colors, b.min_luma, b.max_luma, b.min_saturation, b.max_saturation) {
            Some(c) => {
                assert(any_passing(cs, b));
                return k + 1;
            },
            None => {
                assert(table@.skip(k as int).drop_first() =~= table@.skip(k + 1));
            },
        }
        k = k + 1;
    }
    assert(table@.skip(k as int).len() == 0);
    k + 1
}

/// How many passes the light search runs, the fallback to the most dominant
/// color counting as the last.
pub fn light_passes_taken(colors: &Vec<Candidate>) -> (r: usize)
    ensures
        r == first_pass(colors@, light_passes()) + 1,
{
    passes_taken(colors, &light_pass_table())
}

/// How many passes the dark search runs, the fallback to the most dominant
/// color counting as the last.
pub fn dark_passes_taken(colors: &Vec<Candidate>) -> (r: usize)
    ensures
        r == first_pass(colors@, dark_passes()) + 1,
{
    passes_taken(colors, &dark_pass_table())
}

/// The light anchor: the first dominant color admitted by the first light pass
/// that admits any, else the most dominant color.
pub fn light_color(colors: &Vec<Candidate>) -> (r: Result<Candidate, Error>)
    ensures
        colors.len() == 0 ==> r matches Err(Error::NoColors(_)),
        colors.len() > 0 ==> r == Ok::<Candidate, Error>(
            colors@[staged_pick(colors@, light_passes())],
        ),
{
    staged_search(colors, &light_pass_table())
}

/// The dark anchor: the first dominant color admitted by the first dark pass
/// that admits any, else the most dominant color.
pub fn dark_color(colors: &Vec<Candidate>) -> (r: Result<Candidate, Error>)
    ensures
        colors.len() == 0 ==> r matches Err(Error::NoColors(_)),
        colors.len() > 0 ==> r == Ok::<Candidate, Error>(
            colors@[staged_pick(colors@, dark_passes())],
        ),
{
    staged_search(colors, &dark_pass_table())
}

/// Largest luma of a dark-variant background.
pub const DARK_BACKGROUND_MAX_LUMA: u32 = 20_000;
/// Largest saturation of a dark-variant background.
pub const DARK_BACKGROUND_MAX_SATURATION: u32 = 600_000;
/// Smallest luma of a dark-variant foreground.
pub const DARK_FOREGROUND_MIN_LUMA: u32 = 600_000;
/// Largest saturation of a dark-variant foreground.
pub const DARK_FOREGROUND_MAX_SATURATION: u32 = 150_000;
/// Smallest luma of a light-variant background.
pub const LIGHT_BACKGROUND_MIN_LUMA: u32 = 750_000;
/// Largest saturation of a light-variant background.
pub const LIGHT_BACKGROUND_MAX_SATURATION: u32 = 120_000;
/// Largest luma of a light-variant foreground.
pub const LIGHT_FOREGROUND_MAX_LUMA: u32 = 15_000;
/// Largest saturation of a light-variant foreground.
pub const LIGHT_FOREGROUND_MAX_SATURATION: u32 = 650_000;

/// A color and the measures it is to be moved to. A missing target leaves
/// that measure as it is; luma is set first, keeping chromaticity, then
/// saturation, keeping hue and lightness.
#[derive(Clone, Copy, Debug, PartialEq, Eq, Structural)]
pub struct Adjustment {
    pub source: Candidate,
    pub luma: Option<u32>,
    pub saturation: Option<u32>,
}

/// The background and foreground of a scheme, before their adjustment is applied.
#[derive(Clone, Copy, Debug, PartialEq, Eq, Structural)]
pub struct Fixup {
    pub background: Adjustment,
    pub foreground: Adjustment,
}

/// The floor, when the measure lies below it.
pub open spec fn raise_to(x: u32, floor: u32) -> Option<u32> {
    if x < floor {
        Some(floor)
    } else {
        None
    }
}

/// The ceiling, when the measure lies above it.
pub open spec fn lower_to(x: u32, ceiling: u32) -> Option<u32> {
    if x > ceiling {
        Some(ceiling)
    } else {
        None
    }
}

/// An adjustment of `c` to the given targets.
pub open spec fn boxed(c: Candidate, luma: Option<u32>, saturation: Option<u32>) -> Adjustment {
    Adjustment { source: c, luma, saturation }
}

/// The background and foreground for a variant: the dark anchor is the
/// background of a dark scheme and the foreground of a light one.
pub open spec fn fixup_of(dark: Candidate, light: Candidate, variant: SchemeVariant) -> Fixup {
    match variant {
        SchemeVariant::Dark => Fixup {
            background: boxed(
                dark,
                lower_to(dark.luma, DARK_BACKGROUND_MAX_LUMA),
                lower_to(dark.saturation, DARK_BACKGROUND_MAX_SATURATION),
            ),
            foreground: boxed(
                light,
                raise_to(light.luma, DARK_FOREGROUND_MIN_LUMA),
                lower_to(light.saturation, DARK_FOREGROUND_MAX_SATURATION),
            ),
        },
        SchemeVariant::Light => Fixup {
            background: boxed(
                light,
                raise_to(light.luma, LIGHT_BACKGROUND_MIN_LUMA),
                lower_to(light.saturation, LIGHT_BACKGROUND_MAX_SATURATION),
            ),
            foreground: boxed(
                dark,
                lower_to(dark.luma, LIGHT_FOREGROUND_MAX_LUMA),
                lower_to(dark.saturation, LIGHT_FOREGROUND_MAX_SATURATION),
            ),
        },
    }
}

/// The luma an adjustment ends with.
pub open spec fn final_luma(a: Adjustment) -> u32 {
    match a.luma {
        Some(l) => l,
        None => a.source.luma,
    }
}

/// The saturation an adjustment ends with.
pub open spec fn final_saturation(a: Adjustment) -> u32 {
    match a.saturation {
        Some(s) => s,
        None => a.source.saturation,
    }
}

fn raise(x: u32, floor: u32) -> (r: Option<u32>)
    ensures
        r == raise_to(x, floor),
{
    if x < floor {
        Some(floor)
    } else {
        None
    }
}

fn lower(x: u32, ceiling: u32) -> (r: Option<u32>)
    ensures
        r == lower_to(x, ceiling),
{
    if x > ceiling {
        Some(ceiling)
    } else {
        None
    }
}

/// Assigns background and foreground for the variant and moves each into the
/// variant's box of luma and saturation.
pub fn fix_colors(dark: Candidate, light: Candidate, mode: SchemeVariant) -> (r: Fixup)
    ensures
        r == fixup_of(dark, light, mode),
        mode == SchemeVariant::Dark ==> {
            &&& final_luma(r.background) <= DARK_BACKGROUND_MAX_LUMA
            &&& final_saturation(r.background) <= DARK_BACKGROUND_MAX_SATURATION
            &&& final_luma(r.foreground) >= DARK_FOREGROUND_MIN_LUMA
            &&& final_saturation(r.foreground) <= DARK_FOREGROUND_MAX_SATURATION
        },
        mode == SchemeVariant::Light ==> {
            &&& final_luma(r.background) >= LIGHT_BACKGROUND_MIN_LUMA
            &&& final_saturation(r.background) <= LIGHT_BACKGROUND_MAX_SATURATION
            &&& final_luma(r.foreground) <= LIGHT_FOREGROUND_MAX_LUMA
            &&& final_saturation(r.foreground) <= LIGHT_FOREGROUND_MAX_SATURATION
        },
{
    match mode {
        SchemeVariant::Dark => Fixup {
            background: Adjustment {
                source: dark,
                luma: lower(dark.luma, DARK_BACKGROUND_MAX_LUMA),
                saturation: lower(dark.saturation, DARK_BACKGROUND_MAX_SATURATION),
            },
            foreground: Adjustment {
                source: light,
                luma: raise(light.luma, DARK_FOREGROUND_MIN_LUMA),
                saturation: lower(light.saturation, DARK_FOREGROUND_MAX_SATURATION),
            },
        },
        SchemeVariant::Light => Fixup {
            background: Adjustment {
                source: light,
                luma: raise(light.luma, LIGHT_BACKGROUND_MIN_LUMA),
                saturation: lower(light.saturation, LIGHT_BACKGROUND_MAX_SATURATION),
            },
            foreground: Adjustment {
                source: dark,
                luma: lower(dark.luma, LIGHT_FOREGROUND_MAX_LUMA),
                saturation: lower(dark.saturation, LIGHT_FOREGROUND_MAX_SATURATION),
            },
        },
    }
}

/// Finds the light and the dark anchor among the dominant colors and plans
/// the background and foreground for the variant.
pub fn select_anchors(colors: &Vec<Candidate>, variant: SchemeVariant) -> (r: Result<Fixup, Error>)
    ensures
        colors.len() == 0 ==> r matches Err(Error::NoColors(_)),
        colors.len() > 0 ==> r == Ok::<Fixup, Error>(
            fixup_of(
                colors@[staged_pick(colors@, dark_passes())],
                colors@[staged_pick(colors@, light_passes())],
                variant,
            ),
        ),
{
    let light = light_color(colors)?;
    let dark = dark_color(colors)?;
    Ok(fix_colors(dark, light, variant))
}

} // verus!
