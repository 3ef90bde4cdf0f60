//! The neutral gradient, the named slots of a scheme, and their assembly.
use vstd::prelude::*;

use crate::color::{hex_byte, hex_of, push_hex_byte, rgb_to_hex, PureColor, Rgb};
use crate::{Error, SchemeSystem, SchemeVariant};

verus! {

/// Linear interpolation from `a` (at 0) to `b` (at `n`), rounded down.
pub open spec fn lerp(a: u8, b: u8, i: int, n: int) -> int {
    (a * (n - i) + b * i) / n
}

/// Step `i` of `n` of the gradient from `start` to `end`.
pub open spec fn gradient_step(start: Rgb, end: Rgb, i: int, n: int) -> Rgb {
    Rgb {
        red: lerp(start.red, end.red, i, n) as u8,
        green: lerp(start.green, end.green, i, n) as u8,
        blue: lerp(start.blue, end.blue, i, n) as u8,
    }
}

/// The number of intervals between `steps` evenly spaced steps.
pub open spec fn intervals(steps: int) -> int {
    if steps > 1 {
        steps - 1
    } else {
        1
    }
}

proof fn lemma_lerp_bounds(a: u8, b: u8, i: int, n: int)
    requires
        1 <= n,
        0 <= i <= n,
    ensures
        0 <= lerp(a, b, i, n) <= 255,
        i == 0 ==> lerp(a, b, i, n) == a,
        i == n ==> lerp(a, b, i, n) == b,
{
    let (x, y) = (a as int, b as int);
    assert(0 <= x * (n - i) + y * i <= 255 * n) by (nonlinear_arith)
        requires
            0 <= x <= 255,
            0 <= y <= 255,
            0 <= i <= n,
    ;
    assert((x * (n - i) + y * i) / n <= 255) by (nonlinear_arith)
        requires
            0 <= x * (n - i) + y * i <= 255 * n,
            1 <= n,
    ;
    assert((x * (n - i) + y * i) / n >= 0) by (nonlinear_arith)
        requires
            0 <= x * (n - i) + y * i,
            1 <= n,
    ;
    if i == 0 {
        assert((x * (n - 0) + y * 0) / n == x) by (nonlinear_arith)
            requires
                1 <= n,
        ;
    }
    if i == n {
        assert((x * (n - n) + y * n) / n == y) by (nonlinear_arith)
            requires
                1 <= n,
        ;
    }
}

fn lerp_channel(a: u8, b: u8, i: usize, n: usize) -> (r: u8)
    requires
        1 <= n,
        i <= n,
    ensures
        r == lerp(a, b, i as int, n as int),
{
    proof {
        lemma_lerp_bounds(a, b, i as int, n as int);
    }
    let x = a as u128;
    let y = b as u128;
    let left = (n - i) as u128;
    let right = i as u128;
    assert(x * left <= 255 * 0x1_0000_0000_0000_0000 && y * right <= 255 * 0x1_0000_0000_0000_0000)
        by (nonlinear_arith)
        requires
            x <= 255,
            y <= 255,
            left < 0x1_0000_0000_0000_0000,
            right < 0x1_0000_0000_0000_0000,
    ;
    let num = x * left + y * right;
    (num / (n as u128)) as u8
}

/// The color at step `i` of `n` between `start` and `end`.
pub fn interpolate_color(start: Rgb, end: Rgb, i: usize, n: usize) -> (r: Rgb)
    requires
        1 <= n,
        i <= n,
    ensures
        r == gradient_step(start, end, i as int, n as int),
{
    Rgb {
        red: lerp_channel(start.red, end.red, i, n),
        green: lerp_channel(start.green, end.green, i, n),
        blue: lerp_channel(start.blue, end.blue, i, n),
    }
}

/// `steps` evenly spaced colors from `darkest` to `lightest`, both ends included.
pub fn generate_gradient(darkest: Rgb, lightest: Rgb, steps: usize) -> (r: Vec<Rgb>)
    ensures
        r.len() == steps,
        forall|i: int|
            0 <= i < steps ==> #[trigger] r@[i] == gradient_step(
                darkest,
                lightest,
                i,
                intervals(steps as int),
            ),
        steps > 0 ==> r@[0] == darkest,
        steps > 1 ==> r@[steps - 1] == lightest,
{
    let n: usize = if steps > 1 {
        steps - 1
    } else {
        1
    };
    let mut r: Vec<Rgb> = Vec::new();
    let mut i: usize = 0;
    while i < steps
        invariant
            n == intervals(steps as int),
            i <= steps,
            r.len() == i,
            forall|t: int|
                0 <= t < i ==> #[trigger] r@[t] == gradient_step(darkest, lightest, t, n as int),
        decreases steps - i,
    {
        let step = if i < n {
            i
        } else {
            n
        };
        assert(step == i || steps <= 1);
        r.push(interpolate_color(darkest, lightest, step, n));
        i = i + 1;
    }
    proof {
        if steps > 0 {
            lemma_lerp_bounds(darkest.red, lightest.red, 0, n as int);
            lemma_lerp_bounds(darkest.green, lightest.green, 0, n as int);
            lemma_lerp_bounds(darkest.blue, lightest.blue, 0, n as int);
        }
        if steps > 1 {
            lemma_lerp_bounds(darkest.red, lightest.red, n as int, n as int);
            lemma_lerp_bounds(darkest.green, lightest.green, n as int, n as int);
            lemma_lerp_bounds(darkest.blue, lightest.blue, n as int, n as int);
        }
    }
    r
}

/// From a lower to a higher channel value the steps never decrease, and they
/// strictly increase when the two values lie at least `n` apart.
pub proof fn lemma_lerp_monotonic(a: u8, b: u8, i: int, n: int)
    requires
        1 <= n,
        0 <= i < n,
        a <= b,
    ensures
        lerp(a, b, i, n) <= lerp(a, b, i + 1, n),
        b - a >= n ==> lerp(a, b, i, n) < lerp(a, b, i + 1, n),
{
    let (x, y) = (a as int, b as int);
    let lo = x * (n - i) + y * i;
    let hi = x * (n - (i + 1)) + y * (i + 1);
    assert(hi == lo + (y - x)) by (nonlinear_arith)
        requires
            lo == x * (n - i) + y * i,
            hi == x * (n - (i + 1)) + y * (i + 1),
    ;
    assert(lo / n <= hi / n) by (nonlinear_arith)
        requires
            lo <= hi,
            1 <= n,
    ;
    if y - x >= n {
        assert(lo / n < hi / n) by (nonlinear_arith)
            requires
                lo + n <= hi,
                1 <= n,
        ;
    }
}

/// The number of named slots: sixteen base slots and eight companions.
pub const SLOT_COUNT: usize = 24;

/// The number of neutral gradient slots, `base00` to `base07`.
pub const GRADIENT_STEPS: usize = 8;

/// The slot of the accent for an anchor, `base08` to `base0F`; the other
/// anchors have none.
pub open spec fn accent_slot(hue: PureColor) -> Option<int> {
    match hue {
        PureColor::Red => Some(8),
        PureColor::Orange => Some(9),
        PureColor::Yellow => Some(10),
        PureColor::Green => Some(11),
        PureColor::Cyan => Some(12),
        PureColor::Blue => Some(13),
        PureColor::Purple => Some(14),
        PureColor::Brown => Some(15),
        _ => None,
    }
}

/// The accent slot of an anchor, if it has one.
pub fn accent_slot_of(hue: PureColor) -> (r: Option<usize>)
    ensures
        match r {
            Some(s) => accent_slot(hue) == Some(s as int),
            None => accent_slot(hue) is None,
        },
{
    match hue {
        PureColor::Red => Some(8),
        PureColor::Orange => Some(9),
        PureColor::Yellow => Some(10),
        PureColor::Green => Some(11),
        PureColor::Cyan => Some(12),
        PureColor::Blue => Some(13),
        PureColor::Purple => Some(14),
        PureColor::Brown => Some(15),
        _ => None,
    }
}

/// The name of a slot: `base` and two upper-case hex digits of its index.
pub open spec fn slot_name_of(slot: u8) -> Seq<char> {
    "base"@ + hex_byte(slot)
}

pub fn slot_name(slot: u8) -> (r: String)
    ensures
        r@ == slot_name_of(slot),
{
    let mut s = String::from_str("base");
    push_hex_byte(&mut s, slot);
    s
}

/// The slot with its color set, unless it already held one.
pub open spec fn with_slot(p: Seq<Option<Rgb>>, slot: int, c: Rgb) -> Seq<Option<Rgb>> {
    if p[slot] is None {
        p.update(slot, Some(c))
    } else {
        p
    }
}

/// Once a slot holds a color, later writes to it change nothing.
pub proof fn lemma_first_write_wins(p: Seq<Option<Rgb>>, slot: int, a: Rgb, b: Rgb)
    requires
        0 <= slot < p.len(),
    ensures
        with_slot(with_slot(p, slot, a), slot, b) == with_slot(p, slot, a),
        p[slot] is None ==> with_slot(with_slot(p, slot, a), slot, b)[slot] == Some(a),
{
}

/// The named slots of a scheme, each empty or holding one color.
pub struct SchemePalette {
    slots: Vec<Option<Rgb>>,
}

impl View for SchemePalette {
    type V = Seq<Option<Rgb>>;

    closed spec fn view(&self) -> Seq<Option<Rgb>> {
        self.slots@
    }
}

impl SchemePalette {
    pub open spec fn wf(&self) -> bool {
        self@.len() == SLOT_COUNT
    }

    /// A palette with every slot empty.
    pub fn new() -> (p: SchemePalette)
        ensures
            p@ == Seq::new(SLOT_COUNT as nat, |s: int| None::<Rgb>),
            p.wf(),
    {
        let mut slots: Vec<Option<Rgb>> = Vec::new();
        let mut i: usize = 0;
        while i < SLOT_COUNT
            invariant
                i <= SLOT_COUNT,
                slots.len() == i,
                forall|t: int| 0 <= t < i ==> #[trigger] slots@[t] is None,
            decreases SLOT_COUNT - i,
        {
            slots.push(None);
            i = i + 1;
        }
        let p = SchemePalette { slots };
        assert(p@ =~= Seq::new(SLOT_COUNT as nat, |s: int| None::<Rgb>));
        p
    }

    /// Sets the slot unless it already holds a color.
    pub fn insert_if_absent(&mut self, slot: usize, c: Rgb)
        requires
            old(self).wf(),
            slot < SLOT_COUNT,
        ensures
            final(self)@ == with_slot(old(self)@, slot as int, c),
            final(self).wf(),
    {
        if self.slots[slot].is_none() {
            self.slots.set(slot, Some(c));
        }
    }

    pub fn get(&self, slot: usize) -> (r: Option<Rgb>)
        requires
            self.wf(),
            slot < SLOT_COUNT,
        ensures
            r == self@[slot as int],
    {
        self.slots[slot]
    }

    /// The hex digits of the slot's color, if it holds one.
    pub fn slot_hex(&self, slot: usize) -> (r: Option<String>)
        requires
            self.wf(),
            slot < SLOT_COUNT,
        ensures
            match self@[slot as int] {
                Some(c) => r matches Some(h) && h@ == hex_of(c),
                None => r is None,
            },
    {
        match self.slots[slot] {
            Some(c) => Some(rgb_to_hex(c)),
            None => None,
        }
    }
}

/// An accent color as it enters the scheme: its anchor, its color for the
/// accent slot, and its muted companion for the extended system.
#[derive(Clone, Copy, Debug, PartialEq, Eq, Structural)]
pub struct Accent {
    pub hue: PureColor,
    pub value: Rgb,
    pub muted: Rgb,
}

/// `i` is the first accent whose anchor has the accent slot `slot`.
pub open spec fn is_first_for_slot(acc: Seq<Accent>, slot: int, i: int) -> bool {
    &&& 0 <= i < acc.len()
    &&& accent_slot(acc[i].hue) == Some(slot)
    &&& forall|j: int| 0 <= j < i ==> accent_slot((#[trigger] acc[j]).hue) != Some(slot)
}

pub open spec fn slot_claimed(acc: Seq<Accent>, slot: int) -> bool {
    exists|i: int| 0 <= i < acc.len() && accent_slot((#[trigger] acc[i]).hue) == Some(slot)
}

/// The first accent written to an accent slot, which is the one it keeps.
pub open spec fn first_for_slot(acc: Seq<Accent>, slot: int) -> Accent {
    acc[choose|i: int| is_first_for_slot(acc, slot, i)]
}

/// The slots of an assembled scheme: the gradient from background to
/// foreground in the first eight, each accent in its slot, and under the
/// extended system each muted companion eight slots further.
pub open spec fn assembled(system: SchemeSystem, background: Rgb, foreground: Rgb, acc: Seq<Accent>) -> Seq<
    Option<Rgb>,
> {
    Seq::new(
        SLOT_COUNT as nat,
        |s: int|
            if s < 8 {
                Some(gradient_step(background, foreground, s, 7))
            } else if s < 16 {
                if slot_claimed(acc, s) {
                    Some(first_for_slot(acc, s).value)
                } else {
                    None
                }
            } else if system == SchemeSystem::Base24 && slot_claimed(acc, s - 8) {
                Some(first_for_slot(acc, s - 8).muted)
            } else {
                None
            },
    )
}

pub proof fn lemma_first_for_slot_unique(acc: Seq<Accent>, slot: int, i: int, j: int)
    requires
        is_first_for_slot(acc, slot, i),
        is_first_for_slot(acc, slot, j),
    ensures
        i == j,
{
    if i < j {
        assert(accent_slot(acc[i].hue) != Some(slot));
    } else if j < i {
        assert(accent_slot(acc[j].hue) != Some(slot));
    }
}

proof fn lemma_first_for_slot_exists(acc: Seq<Accent>, slot: int, i: int)
    requires
        0 <= i < acc.len(),
        accent_slot(acc[i].hue) == Some(slot),
    ensures
        exists|k: int| 0 <= k <= i && is_first_for_slot(acc, slot, k),
    decreases i,
{
    if forall|k: int| 0 <= k < i ==> accent_slot((#[trigger] acc[k]).hue) != Some(slot) {
        assert(is_first_for_slot(acc, slot, i));
    } else {
        let k = choose|k: int| 0 <= k < i && accent_slot((#[trigger] acc[k]).hue) == Some(slot);
        lemma_first_for_slot_exists(acc, slot, k);
    }
}

/// When two accents share an accent slot, the later one never overwrites the
/// earlier: the slot, and under the extended system its companion, hold the
/// first accent with that slot, which comes no later than the earlier of the
/// two; when nothing before the earlier one shares the slot, they hold it.
pub proof fn lemma_earlier_accent_kept(
    system: SchemeSystem,
    background: Rgb,
    foreground: Rgb,
    acc: Seq<Accent>,
    i: int,
    j: int,
)
    requires
        0 <= i < j < acc.len(),
        accent_slot(acc[i].hue) is Some,
        accent_slot(acc[j].hue) == accent_slot(acc[i].hue),
    ensures
        ({
            let slot = accent_slot(acc[i].hue)->0;
            let p = assembled(system, background, foreground, acc);
            exists|k: int|
                0 <= k <= i && is_first_for_slot(acc, slot, k) && p[slot] == Some(acc[k].value) && (
                system == SchemeSystem::Base24 ==> p[slot + 8] == Some(acc[k].muted))
        }),
        (forall|k: int| 0 <= k < i ==> accent_slot((#[trigger] acc[k]).hue) != accent_slot(acc[i].hue))
            ==> {
            let slot = accent_slot(acc[i].hue)->0;
            let p = assembled(system, background, foreground, acc);
            &&& p[slot] == Some(acc[i].value)
            &&& system == SchemeSystem::Base24 ==> p[slot + 8] == Some(acc[i].muted)
        },
{
    let slot = accent_slot(acc[i].hue)->0;
    let p = assembled(system, background, foreground, acc);
    assert(8 <= slot < 16);
    assert(slot_claimed(acc, slot));
    lemma_first_for_slot_exists(acc, slot, i);
    let k = choose|k: int| 0 <= k <= i && is_first_for_slot(acc, slot, k);
    let c = choose|c: int| is_first_for_slot(acc, slot, c);
    lemma_first_for_slot_unique(acc, slot, k, c);
    assert(p[slot] == Some(acc[k].value));
    assert(system == SchemeSystem::Base24 ==> p[slot + 8] == Some(acc[k].muted)) by {
        assert(slot + 8 - 8 == slot);
    }
    if forall|t: int| 0 <= t < i ==> accent_slot((#[trigger] acc[t]).hue) != accent_slot(acc[i].hue) {
        assert(is_first_for_slot(acc, slot, i));
        lemma_first_for_slot_unique(acc, slot, k, i);
    }
}

/// Writes the gradient and then the accents into the slots; each slot keeps
/// the first color written to it.
pub fn assemble_palette(
    system: SchemeSystem,
    background: Rgb,
    foreground: Rgb,
    accents: &Vec<Accent>,
) -> (p: SchemePalette)
    ensures
        p.wf(),
        p@ == assembled(system, background, foreground, accents@),
{
    let mut p = SchemePalette::new();
    let gradient = generate_gradient(background, foreground, GRADIENT_STEPS);
    let mut i: usize = 0;
    while i < GRADIENT_STEPS
        invariant
            i <= GRADIENT_STEPS,
            p.wf(),
            gradient.len() == GRADIENT_STEPS,
            forall|t: int|
                0 <= t < GRADIENT_STEPS ==> #[trigger] gradient@[t] == gradient_step(
                    background,
                    foreground,
                    t,
                    7,
                ),
            forall|t: int| 0 <= t < i ==> #[trigger] p@[t] == Some(gradient@[t]),
            forall|t: int| i <= t < SLOT_COUNT ==> #[trigger] p@[t] is None,
        decreases GRADIENT_STEPS - i,
    {
        p.insert_if_absent(i, gradient[i]);
        i = i + 1;
    }
    let ghost acc = accents@;
    let ghost mut w: Seq<int> = Seq::new(SLOT_COUNT as nat, |t: int| 0);
    let mut k: usize = 0;
    while k < accents.len()
        invariant
            acc == accents@,
            k <= acc.len(),
            p.wf(),
            w.len() == SLOT_COUNT,
            forall|t: int|
                0 <= t < 8 ==> #[trigger] p@[t] == Some(gradient_step(background, foreground, t, 7)),
            forall|t: int|
                8 <= t < 16 ==> match #[trigger] p@[t] {
                    Some(c) => 0 <= w[t] < k && is_first_for_slot(acc, t, w[t]) && c == acc[w[t]].value,
                    None => forall|j: int| 0 <= j < k ==> accent_slot((#[trigger] acc[j]).hue) != Some(t),
                },
            forall|t: int|
                16 <= t < SLOT_COUNT ==> #[trigger] p@[t] == (if system == SchemeSystem::Base24
                    && p@[t - 8] is Some {
                    Some(acc[w[t - 8]].muted)
                } else {
                    None
                }),
        decreases acc.len() - k,
    {
        let a = accents[k];
        let ghost before = p@;
        match accent_slot_of(a.hue) {
            Some(slot) => {
                p.insert_if_absent(slot, a.value);
                if system == SchemeSystem::Base24 {
                    p.insert_if_absent(slot + 8, a.muted);
                }
                proof {
                    if before[slot as int] is None {
                        w = w.update(slot as int, k as int);
                    }
                }
            },
            None => {},
        }
        k = k + 1;
    }
    proof {
        assert forall|t: int| 8 <= t < 16 implies #[trigger] p@[t] == (if slot_claimed(acc, t) {
            Some(first_for_slot(acc, t).value)
        } else {
            None::<Rgb>
        }) && p@[t + 8] == (if system == SchemeSystem::Base24 && slot_claimed(acc, t) {
            Some(first_for_slot(acc, t).muted)
        } else {
            None::<Rgb>
        }) by {
            assert(p@[t + 8] == (if system == SchemeSystem::Base24 && p@[t] is Some {
                Some(acc[w[t]].muted)
            } else {
                None
            }));
            if p@[t] is Some {
                assert(slot_claimed(acc, t));
                let i = choose|i: int| is_first_for_slot(acc, t, i);
                lemma_first_for_slot_unique(acc, t, i, w[t]);
            } else if slot_claimed(acc, t) {
                let i = choose|i: int| 0 <= i < acc.len() && accent_slot((#[trigger] acc[i]).hue) == Some(t);
                assert(accent_slot(acc[i].hue) != Some(t));
            }
        }
        assert forall|t: int| 16 <= t < SLOT_COUNT implies #[trigger] p@[t] == assembled(
            system,
            background,
            foreground,
            acc,
        )[t] by {
            let u = t - 8;
            assert(8 <= u < 16);
            assert(p@[u + 8] == p@[t]);
        }
        assert(p@ =~= assembled(system, background, foreground, acc));
    }
    p
}

/// What a scheme is called and which system and variant it is made for.
pub struct SchemeParams {
    pub author: String,
    pub description: Option<String>,
    pub name: String,
    pub slug: String,
    pub system: SchemeSystem,
    pub variant: SchemeVariant,
}

/// A finished scheme: its metadata and its named slots.
pub struct Scheme {
    pub author: String,
    pub description: Option<String>,
    pub name: String,
    pub slug: String,
    pub system: SchemeSystem,
    pub variant: SchemeVariant,
    pub palette: SchemePalette,
}

/// Assembles a scheme from its background, foreground and accents. A system
/// without base16 or base24 slots is refused before any slot is written.
pub fn create_scheme(params: SchemeParams, background: Rgb, foreground: Rgb, accents: &Vec<Accent>) -> (r:
    Result<Scheme, Error>)
    ensures
        params.system == SchemeSystem::Tinted8 ==> (r matches Err(
            Error::UnsupportedSchemeVariant(_),
        )),
        params.system != SchemeSystem::Tinted8 ==> (r matches Ok(s) && {
            &&& s.palette.wf()
            &&& s.palette@ == assembled(params.system, background, foreground, accents@)
            &&& s.author == params.author
            &&& s.description == params.description
            &&& s.name == params.name
            &&& s.slug == params.slug
            &&& s.system == params.system
            &&& s.variant == params.variant
        }),
{
    if params.system == SchemeSystem::Tinted8 {
        return Err(Error::UnsupportedSchemeVariant(String::from_str(params.system.as_str())));
    }
    let palette = assemble_palette(params.system, background, foreground, accents);
    Ok(
        Scheme {
            author: params.author,
            description: params.description,
            name: params.name,
            slug: params.slug,
            system: params.system,
            variant: params.variant,
            palette,
        },
    )
}

} // verus!
