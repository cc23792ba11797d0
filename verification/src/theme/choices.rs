//! Decisions of the theme builder over measured colors.

use crate::palette::{is_mode, ResolvedPalette};
use crate::scalar::Scalar;
use crate::text::{
    comes_before, lemma_text_order_total, lemma_text_order_transitive, same_text, text_before,
    views,
};
use crate::theme::style::SemanticColors;
use vstd::prelude::*;

verus! {

/// The color under a key that the palette has.
pub fn color<'a>(palette: &'a ResolvedPalette, key: &str) -> (value: &'a str)
    requires
        palette.colors@.contains_key(key@),
    ensures
        value@ == palette.colors@[key@]@,
{
    match palette.colors.get(key) {
        Some(value) => value.as_str(),
        None => "",
    }
}

/// Whether a known mode is the dark one.
pub fn is_dark_mode(mode: &str) -> (dark: bool)
    requires
        is_mode(mode@),
    ensures
        dark == (mode@ == "dark"@),
{
    same_text(mode, "dark")
}

/// The least of the measurements, or `start` if that is less.
pub open spec fn minimum_of(values: Seq<Scalar>, start: Scalar) -> Scalar
    decreases values.len(),
{
    if values.len() == 0 {
        start
    } else {
        minimum_of(values.drop_last(), start).smaller(values.last())
    }
}

/// The least of the measurements, or `start` if that is less.
pub fn minimum(values: &Vec<Scalar>, start: Scalar) -> (found: Scalar)
    ensures
        found == minimum_of(values@, start),
{
    let mut found = start;
    let mut index: usize = 0;
    assert(values@.take(0) =~= Seq::empty());
    while index < values.len()
        invariant
            index <= values@.len(),
            found == minimum_of(values@.take(index as int), start),
        decreases values@.len() - index,
    {
        assert(values@.take(index + 1).drop_last() =~= values@.take(index as int));
        found = found.min(values[index]);
        index += 1;
    }
    assert(values@.take(index as int) =~= values@);
    found
}

/// Whether the frame of the window tells an active tab from an inactive one: both
/// measurements reach their floors.
pub fn chrome_separates_active_tab(
    contrast: Scalar,
    distance: Scalar,
    contrast_floor: Scalar,
    distance_floor: Scalar,
) -> (separates: bool)
    ensures
        separates == (contrast_floor.at_most(contrast) && distance_floor.at_most(distance)),
{
    contrast_floor.is_at_most(contrast) && distance_floor.is_at_most(distance)
}

/// Whether a text color keeps its contrast on every background: the least contrast
/// reaches the floor. `unbounded` is the contrast on no background.
pub fn stays_readable(contrasts: &Vec<Scalar>, unbounded: Scalar, floor: Scalar) -> (readable: bool)
    ensures
        readable == floor.at_most(minimum_of(contrasts@, unbounded)),
{
    floor.is_at_most(minimum(contrasts, unbounded))
}

/// On which side of its limits each measurement must be.
#[derive(Clone, Copy, Debug, PartialEq, Eq, Structural)]
pub enum Side {
    AtMost,
    AtLeast,
}

/// Whether a measurement is on the right side of its limit.
pub open spec fn satisfies(side: Side, actual: Scalar, limit: Scalar) -> bool {
    match side {
        Side::AtMost => actual.at_most(limit),
        Side::AtLeast => limit.at_most(actual),
    }
}

/// Whether every contrast is on the right side of its limit.
pub fn contrasts_satisfy(actual: &Vec<Scalar>, limits: &Vec<Scalar>, side: Side) -> (all: bool)
    requires
        actual@.len() == limits@.len(),
    ensures
        all == (forall|i: int|
            0 <= i < actual@.len() ==> #[trigger] satisfies(side, actual@[i], limits@[i])),
{
    let mut index: usize = 0;
    while index < actual.len()
        invariant
            actual@.len() == limits@.len(),
            index <= actual@.len(),
            forall|i: int|
                0 <= i < index ==> #[trigger] satisfies(side, actual@[i], limits@[i]),
        decreases actual@.len() - index,
    {
        let passes = match side {
            Side::AtMost => actual[index].is_at_most(limits[index]),
            Side::AtLeast => limits[index].is_at_most(actual[index]),
        };
        if !passes {
            assert(!satisfies(side, actual@[index as int], limits@[index as int]));
            return false;
        }
        index += 1;
    }
    true
}

/// What a strength of a terminal color is fitted from.
#[derive(Clone, Copy, Debug, PartialEq, Eq, Structural)]
pub enum TerminalSeed {
    /// Its own color in the palette.
    Own,
    /// The normal strength.
    Normal,
    /// The normal strength itself is taken.
    Fallback,
}

/// What a strength is fitted from after a fit that did or did not keep its place
/// beside the normal strength; nothing if the fit is taken. The normal strength
/// itself always keeps its place.
pub open spec fn next_seed(tried: TerminalSeed, respects: bool) -> Option<TerminalSeed> {
    if respects {
        None
    } else {
        match tried {
            TerminalSeed::Own => Some(TerminalSeed::Normal),
            TerminalSeed::Normal => Some(TerminalSeed::Fallback),
            TerminalSeed::Fallback => None,
        }
    }
}

/// What a strength of a terminal color is fitted from next.
pub fn next_terminal_seed(tried: TerminalSeed, respects: bool) -> (next: Option<TerminalSeed>)
    ensures
        next == next_seed(tried, respects),
{
    if respects {
        None
    } else {
        match tried {
            TerminalSeed::Own => Some(TerminalSeed::Normal),
            TerminalSeed::Normal => Some(TerminalSeed::Fallback),
            TerminalSeed::Fallback => None,
        }
    }
}

/// The attempts end: with the first fit that keeps its place, after at most two, or
/// else with the normal strength itself.
pub proof fn lemma_terminal_attempts_end(own: bool, refit: bool, fallback: bool)
    ensures
        own <==> next_seed(TerminalSeed::Own, own) is None,
        !own ==> next_seed(TerminalSeed::Own, own) == Some(TerminalSeed::Normal),
        !refit ==> next_seed(TerminalSeed::Normal, refit) == Some(TerminalSeed::Fallback),
        refit <==> next_seed(TerminalSeed::Normal, refit) is None,
        next_seed(TerminalSeed::Fallback, fallback) is None,
{
}

/// Which candidate has the least penalty in the total order; the first of several.
pub fn least_penalty(penalties: &Vec<Scalar>) -> (found: Option<usize>)
    ensures
        found is None <==> penalties@.len() == 0,
        found matches Some(position) ==> {
            &&& position < penalties@.len()
            &&& forall|i: int|
                0 <= i < penalties@.len() ==> penalties@[position as int].place()
                    <= (#[trigger] penalties@[i]).place()
            &&& forall|i: int|
                0 <= i < position ==> penalties@[position as int].place() < (
                #[trigger] penalties@[i]).place()
        },
{
    if penalties.len() == 0 {
        return None;
    }
    let mut best: usize = 0;
    let mut index: usize = 1;
    while index < penalties.len()
        invariant
            best < index <= penalties@.len(),
            forall|i: int|
                0 <= i < index ==> penalties@[best as int].place() <= (
                #[trigger] penalties@[i]).place(),
            forall|i: int|
                0 <= i < best ==> penalties@[best as int].place() < (
                #[trigger] penalties@[i]).place(),
        decreases penalties@.len() - index,
    {
        if penalties[index].key() < penalties[best].key() {
            best = index;
        }
        index += 1;
    }
    Some(best)
}

/// A surface color of the palette.
#[derive(Clone, Debug)]
pub struct AuthoredSurface {
    pub key: &'static str,
    pub value: String,
    pub lightness: Scalar,
    /// How far the lightness is from the one wanted.
    pub gap: Scalar,
}

/// What a surface must be like.
#[derive(Clone, Copy, Debug)]
pub struct SurfaceNeed {
    /// The lightness wanted and that of the canvas.
    pub target: Scalar,
    pub canvas: Scalar,
    /// How far a color of the palette may be from the lightness wanted.
    pub tolerance: Scalar,
    /// The lightness that the surface must exceed.
    pub floor: Scalar,
}

impl SurfaceNeed {
    /// Whether a color of the palette can be the surface as it is: it is not used
    /// yet, close enough, on the right side of the canvas and above the surface
    /// before.
    pub open spec fn admits(self, surface: AuthoredSurface, used: Seq<Seq<char>>) -> bool {
        &&& !used.contains(surface.value@)
        &&& !self.tolerance.less(surface.gap)
        &&& if self.target.less(self.canvas) {
            surface.lightness.less(self.canvas)
        } else {
            self.canvas.less(surface.lightness)
        }
        &&& !surface.lightness.at_most(self.floor)
    }
}

/// Whether `first` is closer than `second`, or as close and earlier by its key.
pub open spec fn is_closer(first: AuthoredSurface, second: AuthoredSurface) -> bool {
    ||| first.gap.place() < second.gap.place()
    ||| first.gap.place() == second.gap.place() && text_before(first.key@, second.key@)
}

/// Where a surface comes from.
#[derive(Clone, Copy, Debug, PartialEq, Eq, Structural)]
pub enum SurfaceChoice {
    /// A color of the palette as it is.
    Authored(usize),
    /// A color of the palette in the lightness wanted.
    Toned(usize),
}

/// Whether the surface at `index` may be chosen: every one if none is admitted.
pub open spec fn is_candidate(
    need: SurfaceNeed,
    authored: Seq<AuthoredSurface>,
    used: Seq<Seq<char>>,
    strict: bool,
    index: int,
) -> bool {
    &&& 0 <= index < authored.len()
    &&& strict ==> need.admits(authored[index], used)
}

/// Whether no candidate is closer than the one at `index`, nor as close before it.
pub open spec fn is_closest(
    need: SurfaceNeed,
    authored: Seq<AuthoredSurface>,
    used: Seq<Seq<char>>,
    strict: bool,
    index: int,
) -> bool {
    &&& is_candidate(need, authored, used, strict, index)
    &&& forall|other: int| #[trigger]
        is_candidate(need, authored, used, strict, other) ==> !is_closer(
            authored[other],
            authored[index],
        ) && (other < index ==> is_closer(authored[index], authored[other]))
}

fn closer(first: &AuthoredSurface, second: &AuthoredSurface) -> (closer: bool)
    ensures
        closer == is_closer(*first, *second),
{
    let one = first.gap.key();
    let other = second.gap.key();
    one < other || (one == other && comes_before(first.key, second.key))
}

fn is_used(used: &Vec<String>, value: &str) -> (found: bool)
    ensures
        found == views(used@).contains(value@),
{
    let mut index: usize = 0;
    while index < used.len()
        invariant
            index <= used@.len(),
            forall|i: int| 0 <= i < index ==> (#[trigger] used@[i])@ != value@,
        decreases used@.len() - index,
    {
        if same_text(used[index].as_str(), value) {
            assert(views(used@)[index as int] == value@);
            return true;
        }
        index += 1;
    }
    assert(!views(used@).contains(value@)) by {
        if views(used@).contains(value@) {
            let i = choose|i: int| 0 <= i < used@.len() && views(used@)[i] == value@;
            assert(used@[i]@ == value@);
        }
    }
    false
}

fn admits(need: SurfaceNeed, surface: &AuthoredSurface, used: &Vec<String>) -> (admitted: bool)
    ensures
        admitted == need.admits(*surface, views(used@)),
{
    let on_side = if need.target.is_below(need.canvas) {
        surface.lightness.is_below(need.canvas)
    } else {
        need.canvas.is_below(surface.lightness)
    };
    !is_used(used, surface.value.as_str()) && !need.tolerance.is_below(surface.gap) && on_side
        && !surface.lightness.is_at_most(need.floor)
}

/// Being closer is a strict order.
proof fn lemma_closer_order(first: AuthoredSurface, second: AuthoredSurface, third: AuthoredSurface)
    ensures
        is_closer(first, second) ==> !is_closer(second, first),
        is_closer(first, second) && is_closer(second, third) ==> is_closer(first, third),
        is_closer(first, second) && !is_closer(third, second) ==> is_closer(first, third),
{
    lemma_text_order_total(first.key@, second.key@);
    lemma_text_order_total(third.key@, second.key@);
    if text_before(first.key@, second.key@) && text_before(second.key@, third.key@) {
        lemma_text_order_transitive(first.key@, second.key@, third.key@);
    }
}

fn closest(
    need: SurfaceNeed,
    authored: &Vec<AuthoredSurface>,
    used: &Vec<String>,
    strict: bool,
) -> (found: Option<usize>)
    ensures
        found is None <==> forall|i: int|
            !#[trigger] is_candidate(need, authored@, views(used@), strict, i),
        found matches Some(index) ==> is_closest(
            need,
            authored@,
            views(used@),
            strict,
            index as int,
        ),
{
    let ghost taken = views(used@);
    let mut found: Option<usize> = None;
    let mut index: usize = 0;
    while index < authored.len()
        invariant
            taken == views(used@),
            index <= authored@.len(),
            found is None ==> forall|i: int|
                i < index ==> !#[trigger] is_candidate(need, authored@, taken, strict, i),
            found matches Some(best) ==> {
                &&& best < index
                &&& is_candidate(need, authored@, taken, strict, best as int)
                &&& forall|other: int|
                    other < index && #[trigger] is_candidate(need, authored@, taken, strict, other)
                        ==> !is_closer(authored@[other], authored@[best as int]) && (other < best
                        ==> is_closer(authored@[best as int], authored@[other]))
            },
        decreases authored@.len() - index,
    {
        if !strict || admits(need, &authored[index], used) {
            assert(is_candidate(need, authored@, taken, strict, index as int));
            match found {
                None => {
                    found = Some(index);
                },
                Some(best) => {
                    if closer(&authored[index], &authored[best]) {
                        proof {
                            assert forall|other: int|
                                other < index && #[trigger] is_candidate(
                                    need,
                                    authored@,
                                    taken,
                                    strict,
                                    other,
                                ) implies is_closer(authored@[index as int], authored@[other]) by {
                                lemma_closer_order(
                                    authored@[index as int],
                                    authored@[best as int],
                                    authored@[other],
                                );
                            }
                            assert forall|other: int|
                                other < index && #[trigger] is_candidate(
                                    need,
                                    authored@,
                                    taken,
                                    strict,
                                    other,
                                ) implies !is_closer(authored@[other], authored@[index as int]) by {
                                lemma_closer_order(
                                    authored@[index as int],
                                    authored@[other],
                                    authored@[other],
                                );
                            }
                            lemma_closer_order(
                                authored@[index as int],
                                authored@[index as int],
                                authored@[index as int],
                            );
                        }
                        found = Some(index);
                    }
                },
            }
            proof {
                lemma_closer_order(
                    authored@[index as int],
                    authored@[index as int],
                    authored@[index as int],
                );
            }
        }
        index += 1;
    }
    found
}

/// Chooses a surface: the closest color of the palette that can be taken as it is,
/// or else the closest of all, to be toned.
pub fn choose_surface(
    need: SurfaceNeed,
    authored: &Vec<AuthoredSurface>,
    used: &Vec<String>,
) -> (choice: Option<SurfaceChoice>)
    ensures
        choice is None <==> authored@.len() == 0,
        choice matches Some(SurfaceChoice::Authored(index)) ==> is_closest(
            need,
            authored@,
            views(used@),
            true,
            index as int,
        ),
        choice matches Some(SurfaceChoice::Toned(index)) ==> is_closest(
            need,
            authored@,
            views(used@),
            false,
            index as int,
        ) && forall|i: int| !#[trigger] is_candidate(need, authored@, views(used@), true, i),
{
    match closest(need, authored, used, true) {
        Some(index) => Some(SurfaceChoice::Authored(index)),
        None => match closest(need, authored, used, false) {
            Some(index) => Some(SurfaceChoice::Toned(index)),
            None => {
                proof {
                    if authored@.len() > 0 {
                        assert(is_candidate(need, authored@, views(used@), false, 0));
                    }
                }
                None
            },
        },
    }
}

/// The colors that editing modes are told apart by, in the order of the modes.
pub open spec fn mode_seeds_view(semantic: SemanticColors) -> Seq<Seq<char>> {
    seq![
        semantic.accent@,
        semantic.green@,
        semantic.red@,
        semantic.magenta@,
        semantic.blue@,
        semantic.yellow@,
        semantic.cyan@,
        semantic.accent@,
    ]
}

/// The colors that editing modes are told apart by, in the order of the modes.
pub fn mode_seeds(semantic: &SemanticColors) -> (seeds: Vec<String>)
    ensures
        views(seeds@) == mode_seeds_view(*semantic),
{
    let seeds = vec![
        semantic.accent.clone(),
        semantic.green.clone(),
        semantic.red.clone(),
        semantic.magenta.clone(),
        semantic.blue.clone(),
        semantic.yellow.clone(),
        semantic.cyan.clone(),
        semantic.accent.clone(),
    ];
    assert(views(seeds@) =~= seq![
        semantic.accent@,
        semantic.green@,
        semantic.red@,
        semantic.magenta@,
        semantic.blue@,
        semantic.yellow@,
        semantic.cyan@,
        semantic.accent@,
    ]);
    seeds
}

/// The colors that players are told apart by; the first stays first.
pub open spec fn player_seeds_view(semantic: SemanticColors) -> Seq<Seq<char>> {
    seq![
        semantic.accent@,
        semantic.orange@,
        semantic.magenta@,
        semantic.green@,
        semantic.blue@,
        semantic.yellow@,
        semantic.cyan@,
        semantic.red@,
    ]
}

/// The colors that players are told apart by; the first stays first.
pub fn player_seeds(semantic: &SemanticColors) -> (seeds: Vec<String>)
    ensures
        views(seeds@) == player_seeds_view(*semantic),
{
    let seeds = vec![
        semantic.accent.clone(),
        semantic.orange.clone(),
        semantic.magenta.clone(),
        semantic.green.clone(),
        semantic.blue.clone(),
        semantic.yellow.clone(),
        semantic.cyan.clone(),
        semantic.red.clone(),
    ];
    assert(views(seeds@) =~= seq![
        semantic.accent@,
        semantic.orange@,
        semantic.magenta@,
        semantic.green@,
        semantic.blue@,
        semantic.yellow@,
        semantic.cyan@,
        semantic.red@,
    ]);
    seeds
}

/// The colors that accents are fitted from: those of the players and four more of
/// the palette.
pub open spec fn accent_seeds_view(semantic: SemanticColors, palette: ResolvedPalette) -> Seq<Seq<char>> {
    seq![
        semantic.accent@,
        semantic.orange@,
        semantic.magenta@,
        semantic.green@,
        semantic.blue@,
        semantic.yellow@,
        semantic.cyan@,
        semantic.red@,
        palette.colors@["brown"@]@,
        palette.colors@["bright_blue"@]@,
        palette.colors@["bright_magenta"@]@,
        palette.colors@["bright_green"@]@,
    ]
}

/// The colors that accents are fitted from: those of the players and four more of
/// the palette.
pub fn accent_seeds(semantic: &SemanticColors, palette: &ResolvedPalette) -> (seeds: Vec<String>)
    requires
        palette.colors@.contains_key("brown"@),
        palette.colors@.contains_key("bright_blue"@),
        palette.colors@.contains_key("bright_magenta"@),
        palette.colors@.contains_key("bright_green"@),
    ensures
        views(seeds@) == accent_seeds_view(*semantic, *palette),
{
    let mut seeds = player_seeds(semantic);
    let ghost players = seeds@;
    assert(players.len() == views(players).len());
    seeds.push(color(palette, "brown").to_owned());
    seeds.push(color(palette, "bright_blue").to_owned());
    seeds.push(color(palette, "bright_magenta").to_owned());
    seeds.push(color(palette, "bright_green").to_owned());
    let ghost expected = seq![
        semantic.accent@,
        semantic.orange@,
        semantic.magenta@,
        semantic.green@,
        semantic.blue@,
        semantic.yellow@,
        semantic.cyan@,
        semantic.red@,
        palette.colors@["brown"@]@,
        palette.colors@["bright_blue"@]@,
        palette.colors@["bright_magenta"@]@,
        palette.colors@["bright_green"@]@,
    ];
    assert forall|i: int| 0 <= i < 12 implies views(seeds@)[i] == expected[i] by {
        if i < 8 {
            assert(views(seeds@)[i] == views(players)[i]);
        }
    }
    assert(views(seeds@) =~= expected);
    seeds
}

} // verus!
