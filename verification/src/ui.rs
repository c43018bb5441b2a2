//! Presentation rules shared by every terminal front end: how each map
//! cell is drawn, the threat line, and the terminal size limits.

use crate::game::{
    actor_at, AbilitySlot, AbilityTargeting, ActorKind, ExplorationGame, GroundItem, ItemEffect, Telegraph,
    TargetValidity,
};
use crate::session::Intent;
use crate::text::{decimal, push_decimal, push_digits, text};
use crate::world::{cheb, Position, Tile};
use vstd::prelude::*;

verus! {

/// Smallest terminal width that shows the game.
pub const MIN_WIDTH: u16 = 40;
/// Smallest terminal height that shows the game.
pub const MIN_HEIGHT: u16 = 12;
/// Widest terminal area drawn.
pub const MAX_WIDTH: u16 = 300;
/// Tallest terminal area drawn.
pub const MAX_HEIGHT: u16 = 120;

/// How the game is drawn: plain ASCII glyphs, and whether to use color.
#[derive(Clone, Copy, Debug, Default, PartialEq, Eq, Structural)]
pub struct DisplayProfile {
    pub ascii: bool,
    pub no_color: bool,
}

/// The meaning a drawn cell carries, which a front end turns into a style.
#[derive(Clone, Copy, Debug, PartialEq, Eq, Structural)]
pub enum SemanticTone {
    Plain,
    Border,
    Player,
    Wall,
    Floor,
    Memory,
    Door,
    Exit,
    Skeleton,
    Ghoul,
    Cultist,
    Lunge,
    Hex,
    Health,
    Danger,
    Ready,
    Cooldown,
    Event,
    Help,
    Victory,
    Death,
    Title,
    Muted,
    Target,
    Candidate,
    Range,
    Item,
}

/// The first ground item at or after index `i` lying at `p`.
pub open spec fn ground_item_at(items: Seq<GroundItem>, p: Position, i: int) -> Option<GroundItem>
    decreases items.len() - i,
{
    if i < 0 || i >= items.len() {
        None
    } else if items[i].position == p {
        Some(items[i])
    } else {
        ground_item_at(items, p, i + 1)
    }
}

/// How terrain in view is drawn.
pub open spec fn terrain_cell(t: Option<Tile>, ascii: bool) -> (char, SemanticTone) {
    match t {
        Some(Tile::Wall) => (if ascii { '#' } else { '█' }, SemanticTone::Wall),
        Some(Tile::Floor) => (if ascii { '.' } else { '·' }, SemanticTone::Floor),
        Some(Tile::ClosedDoor) => (if ascii { '+' } else { '╬' }, SemanticTone::Door),
        Some(Tile::OpenDoor) => (if ascii { '/' } else { '╱' }, SemanticTone::Door),
        Some(Tile::Exit) => (if ascii { '>' } else { '▾' }, SemanticTone::Exit),
        None => (' ', SemanticTone::Plain),
    }
}

/// How remembered terrain out of view is drawn.
pub open spec fn memory_cell(t: Option<Tile>, ascii: bool) -> (char, SemanticTone) {
    match t {
        Some(Tile::Wall) => (if ascii { '%' } else { '░' }, SemanticTone::Memory),
        Some(_) => (',', SemanticTone::Memory),
        None => (' ', SemanticTone::Plain),
    }
}

/// How a hostile is drawn: a capital letter while it holds a telegraph.
pub open spec fn hostile_cell(kind: ActorKind, telegraphing: bool) -> (char, SemanticTone) {
    match kind {
        ActorKind::Skeleton => ('s', SemanticTone::Skeleton),
        ActorKind::Ghoul => if telegraphing { ('G', SemanticTone::Lunge) } else { ('g', SemanticTone::Ghoul) },
        ActorKind::Cultist => if telegraphing { ('C', SemanticTone::Hex) } else { ('c', SemanticTone::Cultist) },
    }
}

/// A cell without cursor highlights: in view, the player, then a marked
/// tile, then a hostile, then an item, then terrain; out of view,
/// remembered terrain; otherwise blank.
pub open spec fn base_cell(g: ExplorationGame, p: Position, profile: DisplayProfile) -> (char, SemanticTone) {
    if g.visible@.contains(p) {
        if p == g.player.position {
            ('@', SemanticTone::Player)
        } else if g.telegraph_aimed_at(p) is Some {
            match g.telegraph_aimed_at(p).unwrap() {
                Telegraph::GhoulLunge { .. } => ('!', SemanticTone::Lunge),
                Telegraph::CultistHex { .. } => ('*', SemanticTone::Hex),
            }
        } else if actor_at(g.hostiles@, p, 0) is Some {
            let a = actor_at(g.hostiles@, p, 0).unwrap();
            hostile_cell(a.kind, a.telegraph is Some)
        } else if ground_item_at(g.ground_items@, p, 0) is Some {
            let d = g.item_catalog.spec_item(ground_item_at(g.ground_items@, p, 0).unwrap().item.item_id).unwrap();
            (if profile.ascii { d.glyph_ascii } else { d.glyph_unicode }, SemanticTone::Item)
        } else {
            terrain_cell(g.map.tile_at(p), profile.ascii)
        }
    } else if g.explored@.contains(p) {
        memory_cell(g.map.tile_at(p), profile.ascii)
    } else {
        (' ', SemanticTone::Plain)
    }
}

/// A cell with cursor highlights: the inspection cursor and the targeting
/// cursor are marked as the target, reachable foes as candidates, and the
/// visible tiles at exactly the ability's range as its reach.
pub open spec fn cell(g: ExplorationGame, p: Position, profile: DisplayProfile) -> (char, SemanticTone) {
    let glyph = base_cell(g, p, profile).0;
    if g.inspecting matches Some(s) && s.cursor == p {
        (glyph, SemanticTone::Target)
    } else if g.targeting is Some {
        let t = g.targeting.unwrap();
        if p == t.cursor {
            (glyph, SemanticTone::Target)
        } else if g.spec_target_validity(t.ability_slot, p) is Valid {
            (glyph, SemanticTone::Candidate)
        } else if g.visible@.contains(p) && (g.targeted_ability(t).targeting matches AbilityTargeting::HostileSingle { range, .. }
            && cheb(g.player.position, p) == range) {
            (glyph, SemanticTone::Range)
        } else {
            base_cell(g, p, profile)
        }
    } else {
        base_cell(g, p, profile)
    }
}

/// How many hostiles among the first `n` hold a ghoul lunge, and how many a
/// cultist hex.
pub open spec fn threat_counts(hostiles: Seq<crate::game::Actor>, n: int) -> (int, int)
    decreases n,
{
    if n <= 0 {
        (0, 0)
    } else {
        let prev = threat_counts(hostiles, n - 1);
        match hostiles[n - 1].telegraph {
            Some(Telegraph::GhoulLunge { .. }) => (prev.0 + 1, prev.1),
            Some(Telegraph::CultistHex { .. }) => (prev.0, prev.1 + 1),
            None => prev,
        }
    }
}

/// The threat line of the status panel.
pub open spec fn threat_text(lunges: int, hexes: int) -> Seq<char> {
    if lunges == 0 && hexes == 0 {
        "Threat  None"@
    } else {
        "Threat  !"@ + decimal(lunges) + " *"@ + decimal(hexes) + " on @"@
    }
}

/// The glyph and meaning of the cell at `position`, before highlights.
pub fn exploration_base_cell(game: &ExplorationGame, position: Position, profile: DisplayProfile) -> (r: (char, SemanticTone))
    requires
        game.wf(),
    ensures
        r == base_cell(*game, position, profile),
{
    if game.is_visible(position) {
        if position == game.player.position {
            return ('@', SemanticTone::Player);
        }
        match game.telegraph_at(position) {
            Some(Telegraph::GhoulLunge { .. }) => {
                return ('!', SemanticTone::Lunge);
            },
            Some(Telegraph::CultistHex { .. }) => {
                return ('*', SemanticTone::Hex);
            },
            None => {},
        }
        match game.hostile_at(position) {
            Some(i) => {
                let a = game.hostiles[i];
                return match a.kind {
                    ActorKind::Skeleton => ('s', SemanticTone::Skeleton),
                    ActorKind::Ghoul => if a.telegraph.is_some() {
                        ('G', SemanticTone::Lunge)
                    } else {
                        ('g', SemanticTone::Ghoul)
                    },
                    ActorKind::Cultist => if a.telegraph.is_some() {
                        ('C', SemanticTone::Hex)
                    } else {
                        ('c', SemanticTone::Cultist)
                    },
                };
            },
            None => {},
        }
        let mut k: usize = 0;
        while k < game.ground_items.len()
            invariant
                game.wf(),
                game.visible@.contains(position),
                position != game.player.position,
                game.telegraph_aimed_at(position) is None,
                actor_at(game.hostiles@, position, 0) is None,
                k <= game.ground_items@.len(),
                ground_item_at(game.ground_items@, position, 0) == ground_item_at(game.ground_items@, position, k as int),
            decreases game.ground_items@.len() - k,
        {
            let ground = game.ground_items[k];
            if ground.position == position {
                assert(game.items_wf());
                assert(game.item_catalog.spec_item(game.ground_items@[k as int].item.item_id) is Some);
                return match game.item_definition(ground.item.item_id) {
                    Some(d) => (if profile.ascii { d.glyph_ascii } else { d.glyph_unicode }, SemanticTone::Item),
                    None => (' ', SemanticTone::Plain),
                };
            }
            k = k + 1;
        }
        return match game.map.tile(position) {
            Some(Tile::Wall) => (if profile.ascii { '#' } else { '█' }, SemanticTone::Wall),
            Some(Tile::Floor) => (if profile.ascii { '.' } else { '·' }, SemanticTone::Floor),
            Some(Tile::ClosedDoor) => (if profile.ascii { '+' } else { '╬' }, SemanticTone::Door),
            Some(Tile::OpenDoor) => (if profile.ascii { '/' } else { '╱' }, SemanticTone::Door),
            Some(Tile::Exit) => (if profile.ascii { '>' } else { '▾' }, SemanticTone::Exit),
            None => (' ', SemanticTone::Plain),
        };
    }
    if game.is_explored(position) {
        return match game.map.tile(position) {
            Some(Tile::Wall) => (if profile.ascii { '%' } else { '░' }, SemanticTone::Memory),
            Some(_) => (',', SemanticTone::Memory),
            None => (' ', SemanticTone::Plain),
        };
    }
    (' ', SemanticTone::Plain)
}

/// The glyph and meaning of the cell at `position`, with cursor highlights.
pub fn exploration_cell(game: &ExplorationGame, position: Position, profile: DisplayProfile) -> (r: (char, SemanticTone))
    requires
        game.wf(),
    ensures
        r == cell(*game, position, profile),
{
    match game.inspecting {
        Some(state) => {
            if state.cursor == position {
                let (glyph, _) = exploration_base_cell(game, position, profile);
                return (glyph, SemanticTone::Target);
            }
        },
        None => {},
    }
    match game.targeting {
        Some(targeting) => {
            if position == targeting.cursor {
                let (glyph, _) = exploration_base_cell(game, position, profile);
                return (glyph, SemanticTone::Target);
            }
            match game.target_validity(targeting.ability_slot, position) {
                TargetValidity::Valid(_) => {
                    let (glyph, _) = exploration_base_cell(game, position, profile);
                    return (glyph, SemanticTone::Candidate);
                },
                _ => {},
            }
            if game.is_visible(position) {
                let state = game.ability_state(targeting.ability_slot).unwrap();
                let definition = game.ability_definition(state.ability_id).unwrap();
                match definition.targeting {
                    AbilityTargeting::HostileSingle { range, .. } => {
                        proof {
                            crate::world::lemma_grid_index_bounds(game.map.width as int, game.map.height as int, position);
                        }
                        if game.player.position.chebyshev_distance(position) == range {
                            let (glyph, _) = exploration_base_cell(game, position, profile);
                            return (glyph, SemanticTone::Range);
                        }
                    },
                    _ => {},
                }
            }
        },
        None => {},
    }
    exploration_base_cell(game, position, profile)
}

/// The glyph drawn at `position`.
pub fn exploration_glyph(game: &ExplorationGame, position: Position, profile: DisplayProfile) -> (c: char)
    requires
        game.wf(),
    ensures
        c == cell(*game, position, profile).0,
{
    exploration_cell(game, position, profile).0
}

/// The threat line: how many lunges and hexes are aimed at the player.
pub fn threat_summary(game: &ExplorationGame) -> (s: String)
    ensures
        ({
            let counts = threat_counts(game.hostiles@, game.hostiles@.len() as int);
            s@ == threat_text(counts.0, counts.1)
        }),
{
    let mut lunges: u64 = 0;
    let mut hexes: u64 = 0;
    let mut i: usize = 0;
    while i < game.hostiles.len()
        invariant
            i <= game.hostiles@.len(),
            (lunges as int, hexes as int) == threat_counts(game.hostiles@, i as int),
            lunges + hexes <= i,
        decreases game.hostiles@.len() - i,
    {
        match game.hostiles[i].telegraph {
            Some(Telegraph::GhoulLunge { .. }) => {
                lunges = lunges + 1;
            },
            Some(Telegraph::CultistHex { .. }) => {
                hexes = hexes + 1;
            },
            None => {},
        }
        i = i + 1;
    }
    if lunges == 0 && hexes == 0 {
        return text("Threat  None");
    }
    let mut s = text("Threat  !");
    push_digits(&mut s, lunges);
    s.append(" *");
    push_digits(&mut s, hexes);
    s.append(" on @");
    proof {
        reveal_strlit(" *");
        reveal_strlit(" on @");
        reveal_strlit("Threat  !");
    }
    s
}

/// The drawable area for a terminal of the given size: each side clamped
/// to between one cell and the maximum.
pub fn capped_area(width: u32, height: u32) -> (r: (u16, u16))
    ensures
        r.0 == if width < 1 { 1 } else if width > MAX_WIDTH { MAX_WIDTH as int } else { width as int },
        r.1 == if height < 1 { 1 } else if height > MAX_HEIGHT { MAX_HEIGHT as int } else { height as int },
{
    let w: u16 = if width > MAX_WIDTH as u32 {
        MAX_WIDTH
    } else if width < 1 {
        1
    } else {
        width as u16
    };
    let h: u16 = if height > MAX_HEIGHT as u32 {
        MAX_HEIGHT
    } else if height < 1 {
        1
    } else {
        height as u16
    };
    (w, h)
}

/// Whether an intent is honoured at a terminal size: quitting always is,
/// play only at the minimum size or larger.
pub fn intent_allowed_at_size(intent: Intent, width: u16, height: u16) -> (b: bool)
    ensures
        b == (intent == Intent::Quit || (width >= MIN_WIDTH && height >= MIN_HEIGHT)),
{
    match intent {
        Intent::Quit => true,
        _ => width >= MIN_WIDTH && height >= MIN_HEIGHT,
    }
}


/// A resource's maximum as drawn: never negative.
pub open spec fn shown_maximum(maximum: int) -> int {
    if maximum < 0 { 0 } else { maximum }
}

/// A resource's current value as drawn: between zero and the drawn maximum.
pub open spec fn shown_current(current: int, maximum: int) -> int {
    let m = shown_maximum(maximum);
    if current < 0 { 0 } else if current > m { m } else { current }
}

/// How many of the ten bar cells are filled.
pub open spec fn filled_cells(current: int, maximum: int) -> int {
    let m = shown_maximum(maximum);
    if m == 0 { 0 } else { shown_current(current, maximum) * 10 / m }
}

/// Ten bar cells, the first `filled` of them full.
pub open spec fn bar_cells(filled: int, ascii: bool) -> Seq<char> {
    Seq::new(10, |i: int| if i < filled { if ascii { '#' } else { '\u{2588}' } } else { if ascii { '-' } else { '\u{2591}' } })
}

/// "`label` [bar] `current`/`maximum`", the bar bracketed in ASCII.
pub open spec fn resource_bar(label: Seq<char>, current: int, maximum: int, ascii: bool) -> Seq<char> {
    let cells = bar_cells(filled_cells(current, maximum), ascii);
    label + " "@ + if ascii { "["@ + cells + "]"@ } else { cells } + " "@
        + decimal(shown_current(current, maximum)) + "/"@ + decimal(shown_maximum(maximum))
}

/// A labelled ten-cell resource bar with its clamped value.
pub fn resource_bar_text(label: &str, current: i32, maximum: i32, ascii: bool) -> (s: String)
    ensures
        s@ == resource_bar(label@, current as int, maximum as int, ascii),
{
    let maximum: i32 = if maximum < 0 { 0 } else { maximum };
    let current: i32 = if current < 0 { 0 } else if current > maximum { maximum } else { current };
    let filled: i64 = if maximum == 0 {
        0
    } else {
        proof {
            assert(0 <= (current * 10) / (maximum as int) <= 10) by (nonlinear_arith)
                requires 0 <= current <= maximum, maximum > 0;
        }
        (current as i64 * 10) / maximum as i64
    };
    let mut s = String::from_str(label);
    s.append(" ");
    if ascii {
        s.append("[");
    }
    let ghost start = s@;
    let mut i: i64 = 0;
    while i < 10
        invariant
            0 <= i <= 10,
            0 <= filled <= 10,
            s@ == start + bar_cells(filled as int, ascii).subrange(0, i as int),
        decreases 10 - i,
    {
        let cell: &str = if i < filled {
            if ascii { "#" } else { "\u{2588}" }
        } else {
            if ascii { "-" } else { "\u{2591}" }
        };
        proof {
            reveal_strlit("#");
            reveal_strlit("-");
            reveal_strlit("\u{2588}");
            reveal_strlit("\u{2591}");
            assert(cell@ == seq![bar_cells(filled as int, ascii)[i as int]]);
        }
        s.append(cell);
        proof {
            assert(bar_cells(filled as int, ascii).subrange(0, i + 1) == bar_cells(filled as int, ascii).subrange(0, i as int)
                + seq![bar_cells(filled as int, ascii)[i as int]]);
        }
        i = i + 1;
    }
    if ascii {
        s.append("]");
    }
    s.append(" ");
    push_decimal(&mut s, current as i64);
    s.append("/");
    push_decimal(&mut s, maximum as i64);
    proof {
        reveal_strlit(" ");
        reveal_strlit("[");
        reveal_strlit("]");
        reveal_strlit("/");
        assert(bar_cells(filled as int, ascii).subrange(0, 10) == bar_cells(filled as int, ascii));
    }
    s
}

/// The first map column (or row) in view: the focus centred, then kept
/// within the map so that no space past its edge shows when it fits.
pub open spec fn view_origin(focus: int, map_side: int, view_side: int) -> int {
    let max = if map_side - view_side < 0 { 0 } else { map_side - view_side };
    let centred = focus - view_side / 2;
    if centred < 0 { 0 } else if centred > max { max } else { centred }
}

/// The first map column (or row) drawn in a view of `view_side` cells.
pub fn viewport_origin(focus: i32, map_side: u16, view_side: u16) -> (o: i32)
    ensures
        o == view_origin(focus as int, map_side as int, view_side as int),
{
    let max: i32 = if (map_side as i32) < (view_side as i32) { 0 } else { map_side as i32 - view_side as i32 };
    let half: i32 = view_side as i32 / 2;
    let centred: i64 = focus as i64 - half as i64;
    if centred < 0 {
        0
    } else if centred > max as i64 {
        max
    } else {
        centred as i32
    }
}


/// One side of a popup: the content plus a border, at least two cells and
/// at most one cell short of the area.
pub open spec fn popup_side(content: int, available: int) -> int {
    let wanted = if content + 2 > u16::MAX { u16::MAX as int } else { content + 2 };
    if wanted < 2 { 2 } else if wanted > available - 1 { available - 1 } else { wanted }
}

/// A popup fitted to `content_width` by `content_height` cells and centred
/// in the area at (`x`, `y`) of `width` by `height` cells; returns its
/// column, row, width and height.
pub fn centered_popup_area(x: u16, y: u16, width: u16, height: u16, content_width: u16, content_height: u16)
    -> (r: (u16, u16, u16, u16))
    requires
        width >= 3,
        height >= 3,
        x + width <= u16::MAX,
        y + height <= u16::MAX,
    ensures
        r.2 == popup_side(content_width as int, width as int),
        r.3 == popup_side(content_height as int, height as int),
        r.0 == x + (width - r.2) / 2,
        r.1 == y + (height - r.3) / 2,
{
    let w: u16 = clamp_side(content_width, width);
    let h: u16 = clamp_side(content_height, height);
    (x + (width - w) / 2, y + (height - h) / 2, w, h)
}

fn clamp_side(content: u16, available: u16) -> (side: u16)
    requires
        available >= 3,
    ensures
        side == popup_side(content as int, available as int),
{
    let wanted: u16 = if content > u16::MAX - 2 { u16::MAX } else { content + 2 };
    if wanted < 2 {
        2
    } else if wanted > available - 1 {
        available - 1
    } else {
        wanted
    }
}


/// How an equipped ability stands in the status panel.
#[derive(Clone, Copy, Debug, PartialEq, Eq, Structural)]
pub enum SlotReadiness {
    /// Turns left before it can be used again.
    Cooling(u8),
    /// Off cooldown and affordable.
    Ready,
    /// Off cooldown but costing more mana than the player has.
    Unaffordable,
}

/// The readiness of the ability in `slot`, if one is equipped.
pub open spec fn readiness(g: ExplorationGame, slot: AbilitySlot) -> Option<SlotReadiness> {
    match g.spec_ability_state(slot) {
        None => None,
        Some(st) => if st.cooldown_remaining != 0 {
            Some(SlotReadiness::Cooling(st.cooldown_remaining))
        } else if g.catalog.spec_ability(st.ability_id) matches Some(d) && g.player.mana >= d.mana_cost {
            Some(SlotReadiness::Ready)
        } else {
            Some(SlotReadiness::Unaffordable)
        },
    }
}

/// The status the panel shows for a slot: `C` and the turns left while
/// cooling, `Ready`, or `Low` when the mana falls short.
pub open spec fn slot_status(r: SlotReadiness) -> Seq<char> {
    match r {
        SlotReadiness::Cooling(turns) => seq!['C'] + decimal(turns as int),
        SlotReadiness::Ready => "Ready"@,
        SlotReadiness::Unaffordable => "Low"@,
    }
}

/// The status text for a slot's readiness.
pub fn slot_status_text(r: SlotReadiness) -> (s: String)
    ensures
        s@ == slot_status(r),
{
    proof {
        reveal_strlit("C");
        reveal_strlit("Ready");
        reveal_strlit("Low");
    }
    match r {
        SlotReadiness::Cooling(turns) => {
            let mut s = text("C");
            push_decimal(&mut s, turns as i64);
            s
        },
        SlotReadiness::Ready => text("Ready"),
        SlotReadiness::Unaffordable => text("Low"),
    }
}

/// Whether the ability in `slot` is cooling down, ready or unaffordable.
pub fn slot_readiness(game: &ExplorationGame, slot: AbilitySlot) -> (r: Option<SlotReadiness>)
    ensures
        r == readiness(*game, slot),
{
    match game.ability_state(slot) {
        None => None,
        Some(state) => if state.cooldown_remaining != 0 {
            Some(SlotReadiness::Cooling(state.cooldown_remaining))
        } else if game.can_afford_ability(slot) {
            Some(SlotReadiness::Ready)
        } else {
            Some(SlotReadiness::Unaffordable)
        },
    }
}

/// The health bar warns at a third of the maximum or less.
pub fn health_tone(health: i32, max_health: i32) -> (t: SemanticTone)
    ensures
        t == if 3 * health <= max_health { SemanticTone::Danger } else { SemanticTone::Health },
{
    if 3 * (health as i64) <= max_health as i64 {
        SemanticTone::Danger
    } else {
        SemanticTone::Health
    }
}

/// The foes line warns while any hostile has an attack telegraphed.
pub fn foes_tone(game: &ExplorationGame) -> (t: SemanticTone)
    ensures
        t == if exists|i: int| 0 <= i < game.hostiles@.len() && (#[trigger] game.hostiles@[i]).telegraph is Some {
            SemanticTone::Danger
        } else {
            SemanticTone::Muted
        },
{
    let mut i: usize = 0;
    while i < game.hostiles.len()
        invariant
            i <= game.hostiles@.len(),
            forall|j: int| 0 <= j < i ==> (#[trigger] game.hostiles@[j]).telegraph is None,
        decreases game.hostiles@.len() - i,
    {
        if game.hostiles[i].telegraph.is_some() {
            return SemanticTone::Danger;
        }
        i = i + 1;
    }
    SemanticTone::Muted
}

/// How a carried item shows in item mode: a torch works passively, a
/// potion can be drunk, anything else cannot be used.
pub fn item_effect_label(effect: ItemEffect) -> (s: &'static str)
    ensures
        s@ == match effect {
            ItemEffect::TorchVision { .. } => "Passive"@,
            ItemEffect::Heal { .. } => "Usable"@,
            ItemEffect::Unsupported(_) => "Unavailable"@,
        },
{
    proof {
        reveal_strlit("Passive");
        reveal_strlit("Usable");
        reveal_strlit("Unavailable");
    }
    match effect {
        ItemEffect::TorchVision { .. } => "Passive",
        ItemEffect::Heal { .. } => "Usable",
        ItemEffect::Unsupported(_) => "Unavailable",
    }
}


/// An item catalog whose ASCII glyphs are all ASCII characters, as the
/// built-in catalog's are.
pub open spec fn ascii_item_glyphs(c: crate::game::ItemCatalog) -> bool {
    forall|i: int| 0 <= i < c.spec_definitions().len() ==> (#[trigger] c.spec_definitions()[i]).glyph_ascii as u32 <= 127
}

/// The item `ground_item_at` finds lies on the floor.
proof fn lemma_ground_item_found(items: Seq<GroundItem>, p: Position, i: int)
    requires
        ground_item_at(items, p, i) is Some,
    ensures
        exists|j: int| 0 <= j < items.len() && #[trigger] items[j] == ground_item_at(items, p, i).unwrap(),
    decreases items.len() - i,
{
    if !(i < 0 || i >= items.len()) && items[i].position != p {
        lemma_ground_item_found(items, p, i + 1);
    }
}

/// The built-in item catalog draws its items with ASCII glyphs.
pub proof fn lemma_builtin_items_have_ascii_glyphs(c: crate::game::ItemCatalog)
    requires
        crate::game::builtin_items(c),
    ensures
        ascii_item_glyphs(c),
{
}

/// With the ASCII profile every map cell of a run is drawn with an ASCII
/// character (given an item catalog with ASCII glyphs, as the built-in one).
pub proof fn lemma_ascii_profile_draws_ascii(g: ExplorationGame, p: Position, profile: DisplayProfile)
    requires
        g.wf(),
        profile.ascii,
        ascii_item_glyphs(g.item_catalog),
    ensures
        cell(g, p, profile).0 as u32 <= 127,
{
    if g.visible@.contains(p) && p != g.player.position && g.telegraph_aimed_at(p) is None
        && actor_at(g.hostiles@, p, 0) is None && ground_item_at(g.ground_items@, p, 0) is Some {
        lemma_ground_item_found(g.ground_items@, p, 0);
        let j = choose|j: int| 0 <= j < g.ground_items@.len()
            && #[trigger] g.ground_items@[j] == ground_item_at(g.ground_items@, p, 0).unwrap();
        let id = g.ground_items@[j].item.item_id;
        crate::game::lemma_found_item_listed(g.item_catalog, id);
    }
}

} // verus!
