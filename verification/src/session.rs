//! Transport-neutral input decoding and game-session commands.

use crate::game::{log_push, populated_run, AbilitySlot, Command, CommandOutcome, Direction, ExplorationGame, RunStatus};
use crate::game::{applied, has_headroom};
use crate::world::GenerationError;
use std::collections::VecDeque;
use vstd::prelude::*;

pub use crate::game::AbilitySlot as SkillSlot;

verus! {

/// Most bytes one feed reads.
pub const MAX_INPUT_BYTES_PER_FEED: usize = 4096;
/// Most intents one feed yields.
pub const MAX_INTENTS_PER_FEED: usize = 4;

/// The escape byte.
pub const ESCAPE: u8 = 0x1b;

/// What a player asked for, independent of the keyboard.
#[derive(Clone, Copy, Debug, PartialEq, Eq, Structural)]
pub enum Intent {
    Start,
    Move(Direction),
    Wait,
    UseSkill(SkillSlot),
    CycleTarget { backwards: bool },
    Confirm,
    CancelMode,
    ToggleInspect,
    PickupItem,
    ToggleItemUse,
    ToggleHelp,
    ToggleGodmode,
    ToggleCharacterInfo,
    Restart,
    Quit,
}

/// The intent a single key byte stands for.
pub open spec fn byte_intent(byte: u8) -> Option<Intent> {
    if byte == 13 || byte == 10 {
        Some(Intent::Confirm)
    } else if byte == 9 {
        Some(Intent::CycleTarget { backwards: false })
    } else if byte == 113 {
        Some(Intent::Move(Direction::NorthWest))
    } else if byte == 119 {
        Some(Intent::Move(Direction::North))
    } else if byte == 101 {
        Some(Intent::Move(Direction::NorthEast))
    } else if byte == 97 {
        Some(Intent::Move(Direction::West))
    } else if byte == 115 {
        Some(Intent::Wait)
    } else if byte == 100 {
        Some(Intent::Move(Direction::East))
    } else if byte == 122 {
        Some(Intent::Move(Direction::SouthWest))
    } else if byte == 120 {
        Some(Intent::Move(Direction::South))
    } else if byte == 99 {
        Some(Intent::Move(Direction::SouthEast))
    } else if 49 <= byte <= 57 || byte == 48 {
        None
    } else if byte == 105 {
        Some(Intent::ToggleInspect)
    } else if byte == 103 {
        Some(Intent::PickupItem)
    } else if byte == 117 {
        Some(Intent::ToggleItemUse)
    } else if byte == 63 {
        Some(Intent::ToggleHelp)
    } else if byte == 71 {
        Some(Intent::ToggleGodmode)
    } else if byte == 114 {
        Some(Intent::Restart)
    } else if byte == 81 {
        Some(Intent::Quit)
    } else {
        None
    }
}

/// The skill slot a digit key names: `1` to `9`, and `0` for slot ten.
pub open spec fn digit_slot(byte: u8) -> Option<int> {
    if 49 <= byte <= 57 {
        Some(byte - 48)
    } else if byte == 48 {
        Some(10)
    } else {
        None
    }
}

/// The intent an arrow or back-tab sequence `ESC [ c` stands for.
pub open spec fn csi_intent(c: u8) -> Option<Intent> {
    if c == 65 {
        Some(Intent::Move(Direction::North))
    } else if c == 66 {
        Some(Intent::Move(Direction::South))
    } else if c == 67 {
        Some(Intent::Move(Direction::East))
    } else if c == 68 {
        Some(Intent::Move(Direction::West))
    } else if c == 90 {
        Some(Intent::CycleTarget { backwards: true })
    } else {
        None
    }
}

/// Decoding pending bytes: complete escape sequences and plain keys are
/// consumed from the front until only an incomplete escape prefix remains,
/// the bytes run out, or a plain key brings the intents to the limit.
/// Returns the pending bytes left and the intents after decoding.
pub open spec fn decoded(pending: Seq<u8>, intents: Seq<Intent>) -> (Seq<u8>, Seq<Intent>)
    decreases pending.len(),
{
    if pending.len() == 0 {
        (pending, intents)
    } else if pending[0] == ESCAPE {
        if pending.len() == 1 || (pending.len() == 2 && pending[1] == 91) {
            (pending, intents)
        } else if pending.len() >= 3 && pending[1] == 91 {
            let next = match csi_intent(pending[2]) {
                Some(i) => intents.push(i),
                None => intents,
            };
            decoded(pending.subrange(3, pending.len() as int), next)
        } else {
            decoded(pending.subrange(1, pending.len() as int), intents)
        }
    } else {
        let rest = pending.subrange(1, pending.len() as int);
        match keyed(pending[0]) {
            Some(i) => if intents.len() + 1 == MAX_INTENTS_PER_FEED {
                (rest, intents.push(i))
            } else {
                decoded(rest, intents.push(i))
            },
            None => decoded(rest, intents),
        }
    }
}

/// The intent a plain key byte decodes to.
pub open spec fn keyed(b: u8) -> Option<Intent> {
    match digit_slot(b) {
        Some(n) => Some(Intent::UseSkill(slot_numbered(n))),
        None => byte_intent(b),
    }
}

/// The skill slot with number `n` (one through ten).
pub open spec fn slot_numbered(n: int) -> SkillSlot {
    choose|s: SkillSlot| s.spec_number() == n
}

/// The decoder after it reads bytes `i..` of `bytes` (at most the per-feed
/// limit in all), with `intents` decoded so far. Each escape byte advances
/// the escape generation; reaching the intent limit drops pending input.
pub open spec fn fed(pending: Seq<u8>, generation: u64, bytes: Seq<u8>, i: int, intents: Seq<Intent>)
    -> (Seq<u8>, u64, Seq<Intent>)
    decreases bytes.len() - i,
{
    if i < 0 || i >= bytes.len() || i >= MAX_INPUT_BYTES_PER_FEED {
        (pending, generation, intents)
    } else {
        let b = bytes[i];
        let g = if b == ESCAPE { (if generation == u64::MAX { 0 } else { generation + 1 }) as u64 } else { generation };
        let (p, ints) = decoded(pending.push(b), intents);
        if ints.len() == MAX_INTENTS_PER_FEED {
            (Seq::empty(), g, ints)
        } else {
            fed(p, g, bytes, i + 1, ints)
        }
    }
}

/// The escape generation `k` escape bytes after `generation`, wrapping
/// around (for `k` below 2^64).
pub open spec fn generation_after(generation: u64, k: int) -> int {
    if generation + k <= u64::MAX { generation + k } else { generation + k - 0x1_0000_0000_0000_0000 }
}

/// What decoding leaves pending is a suffix of its input.
pub proof fn lemma_decoded_leaves_suffix(pending: Seq<u8>, intents: Seq<Intent>)
    ensures
        exists|j: int| 0 <= j <= pending.len() && #[trigger] pending.subrange(j, pending.len() as int)
            == decoded(pending, intents).0,
    decreases pending.len(),
{
    if pending.len() == 0 {
        assert(pending.subrange(0, 0) == pending);
    } else if pending[0] == ESCAPE {
        if pending.len() == 1 || (pending.len() == 2 && pending[1] == 91) {
            assert(pending.subrange(0, pending.len() as int) == pending);
        } else if pending.len() >= 3 && pending[1] == 91 {
            let rest = pending.subrange(3, pending.len() as int);
            let next = match csi_intent(pending[2]) {
                Some(i) => intents.push(i),
                None => intents,
            };
            lemma_decoded_leaves_suffix(rest, next);
            let j = choose|j: int| 0 <= j <= rest.len() && #[trigger] rest.subrange(j, rest.len() as int)
                == decoded(rest, next).0;
            assert(pending.subrange(j + 3, pending.len() as int) == rest.subrange(j, rest.len() as int));
        } else {
            let rest = pending.subrange(1, pending.len() as int);
            lemma_decoded_leaves_suffix(rest, intents);
            let j = choose|j: int| 0 <= j <= rest.len() && #[trigger] rest.subrange(j, rest.len() as int)
                == decoded(rest, intents).0;
            assert(pending.subrange(j + 1, pending.len() as int) == rest.subrange(j, rest.len() as int));
        }
    } else {
        let rest = pending.subrange(1, pending.len() as int);
        match keyed(pending[0]) {
            Some(i) => if intents.len() + 1 == MAX_INTENTS_PER_FEED {
                assert(pending.subrange(1, pending.len() as int) == rest);
            } else {
                lemma_decoded_leaves_suffix(rest, intents.push(i));
                let j = choose|j: int| 0 <= j <= rest.len() && #[trigger] rest.subrange(j, rest.len() as int)
                    == decoded(rest, intents.push(i)).0;
                assert(pending.subrange(j + 1, pending.len() as int) == rest.subrange(j, rest.len() as int));
            },
            None => {
                lemma_decoded_leaves_suffix(rest, intents);
                let j = choose|j: int| 0 <= j <= rest.len() && #[trigger] rest.subrange(j, rest.len() as int)
                    == decoded(rest, intents).0;
                assert(pending.subrange(j + 1, pending.len() as int) == rest.subrange(j, rest.len() as int));
            },
        }
    }
}

/// Reading bytes `i..` that leaves a lone escape pending reads at least one
/// escape byte, and at most one per byte read.
proof fn lemma_fed_escape_count(pending: Seq<u8>, generation: u64, bytes: Seq<u8>, i: int, intents: Seq<Intent>)
    requires
        0 <= i < bytes.len(),
        i < MAX_INPUT_BYTES_PER_FEED,
        fed(pending, generation, bytes, i, intents).0 == seq![ESCAPE],
    ensures
        exists|k: int| 1 <= k <= MAX_INPUT_BYTES_PER_FEED - i
            && #[trigger] generation_after(generation, k) == fed(pending, generation, bytes, i, intents).1,
    decreases bytes.len() - i,
{
    let b = bytes[i];
    let g = if b == ESCAPE { (if generation == u64::MAX { 0 } else { generation + 1 }) as u64 } else { generation };
    let e: int = if b == ESCAPE { 1 } else { 0 };
    let (q, ints) = decoded(pending.push(b), intents);
    assert(g == generation_after(generation, e));
    if ints.len() == MAX_INTENTS_PER_FEED {
        assert(fed(pending, generation, bytes, i, intents).0 == Seq::<u8>::empty());
        assert(seq![ESCAPE].len() == 1);
    } else if i + 1 < bytes.len() && i + 1 < MAX_INPUT_BYTES_PER_FEED {
        lemma_fed_escape_count(q, g, bytes, i + 1, ints);
        let k = choose|k: int| 1 <= k <= MAX_INPUT_BYTES_PER_FEED - (i + 1)
            && #[trigger] generation_after(g, k) == fed(q, g, bytes, i + 1, ints).1;
        assert(generation_after(generation, k + e) == generation_after(g, k));
    } else {
        assert(fed(q, g, bytes, i + 1, ints) == (q, g, ints));
        assert(q == seq![ESCAPE]);
        lemma_decoded_leaves_suffix(pending.push(b), intents);
        let s = pending.push(b);
        let j = choose|j: int| 0 <= j <= s.len() && #[trigger] s.subrange(j, s.len() as int) == decoded(s, intents).0;
        assert(s.subrange(j, s.len() as int)[0] == s[s.len() - 1]);
        assert(b == ESCAPE);
        assert(generation_after(generation, 1) == g);
    }
}

/// A read that ends with a lone escape pending gives it a new generation:
/// a timeout armed for the generation before the read cannot settle the
/// escape read now (`flush_pending_escape_generation` with the earlier
/// generation leaves it pending).
pub proof fn lemma_new_escape_has_new_generation(pending: Seq<u8>, generation: u64, bytes: Seq<u8>)
    requires
        bytes.len() > 0,
        fed(pending, generation, bytes, 0, Seq::empty()).0 == seq![ESCAPE],
    ensures
        fed(pending, generation, bytes, 0, Seq::empty()).1 != generation,
{
    lemma_fed_escape_count(pending, generation, bytes, 0, Seq::empty());
}

/// What may stay pending between reads: nothing, or an escape sequence
/// still waiting for its last byte.
pub open spec fn settled(pending: Seq<u8>) -> bool {
    pending.len() == 0 || pending == seq![ESCAPE] || pending == seq![ESCAPE, 91u8]
}

/// From a settled state, decoding one more byte yields at most one intent
/// and leaves a settled state.
proof fn lemma_decode_one_byte(pending: Seq<u8>, b: u8, intents: Seq<Intent>)
    requires
        settled(pending),
    ensures
        settled(decoded(pending.push(b), intents).0),
        decoded(pending.push(b), intents).1.len() <= intents.len() + 1,
{
    let s = pending.push(b);
    if pending.len() == 0 {
        assert(s == seq![b]);
        lemma_decode_single(b, intents);
    } else if pending == seq![ESCAPE] {
        assert(s == seq![ESCAPE, b]);
        if b != 91 {
            assert(s.subrange(1, 2) == seq![b]);
            lemma_decode_single(b, intents);
        }
    } else {
        assert(s == seq![ESCAPE, 91u8, b]);
        let next = match csi_intent(b) {
            Some(i) => intents.push(i),
            None => intents,
        };
        assert(s.subrange(3, 3) == Seq::<u8>::empty());
        assert(decoded(Seq::<u8>::empty(), next) == (Seq::<u8>::empty(), next));
    }
}

/// Decoding a lone byte yields at most one intent and leaves at most a lone
/// escape pending.
proof fn lemma_decode_single(b: u8, intents: Seq<Intent>)
    ensures
        settled(decoded(seq![b], intents).0),
        decoded(seq![b], intents).1.len() <= intents.len() + 1,
{
    let s = seq![b];
    let rest = s.subrange(1, 1);
    assert(rest == Seq::<u8>::empty());
    if b != ESCAPE {
        match keyed(b) {
            Some(i) => {
                assert(decoded(rest, intents.push(i)) == (rest, intents.push(i)));
            },
            None => {
                assert(decoded(rest, intents) == (rest, intents));
            },
        }
    }
}

/// From a settled state with fewer than the limit of intents, reading bytes
/// `i..` yields at most the limit and leaves a settled state.
proof fn lemma_fed_bounded(pending: Seq<u8>, generation: u64, bytes: Seq<u8>, i: int, intents: Seq<Intent>)
    requires
        settled(pending),
        intents.len() < MAX_INTENTS_PER_FEED,
    ensures
        settled(fed(pending, generation, bytes, i, intents).0),
        fed(pending, generation, bytes, i, intents).2.len() <= MAX_INTENTS_PER_FEED,
        fed(pending, generation, bytes, i, intents).2.len() == MAX_INTENTS_PER_FEED
            ==> fed(pending, generation, bytes, i, intents).0 == Seq::<u8>::empty(),
    decreases bytes.len() - i,
{
    if !(i < 0 || i >= bytes.len() || i >= MAX_INPUT_BYTES_PER_FEED) {
        let b = bytes[i];
        let g = if b == ESCAPE { (if generation == u64::MAX { 0 } else { generation + 1 }) as u64 } else { generation };
        lemma_decode_one_byte(pending, b, intents);
        let (p, ints) = decoded(pending.push(b), intents);
        if ints.len() != MAX_INTENTS_PER_FEED {
            lemma_fed_bounded(p, g, bytes, i + 1, ints);
        }
    }
}

/// A read from a settled decoder (every decoder is: `InputDecoder` keeps
/// this as its type invariant) yields at most four intents, however many
/// bytes arrive; at four it drops what is pending; and it leaves the
/// decoder settled.
pub proof fn lemma_feed_is_bounded(pending: Seq<u8>, generation: u64, bytes: Seq<u8>)
    requires
        settled(pending),
    ensures
        fed(pending, generation, bytes, 0, Seq::empty()).2.len() <= MAX_INTENTS_PER_FEED,
        fed(pending, generation, bytes, 0, Seq::empty()).2.len() == MAX_INTENTS_PER_FEED
            ==> fed(pending, generation, bytes, 0, Seq::empty()).0 == Seq::<u8>::empty(),
        settled(fed(pending, generation, bytes, 0, Seq::empty()).0),
{
    lemma_fed_bounded(pending, generation, bytes, 0, Seq::empty());
}

/// Turns raw terminal bytes into intents, holding back an incomplete escape
/// sequence until more bytes, or a timeout, settle it.
#[derive(Debug)]
pub struct InputDecoder {
    pending: VecDeque<u8>,
    escape_generation: u64,
}

impl InputDecoder {
    /// Only a settled state is ever pending between reads.
    #[verifier::type_invariant]
    spec fn pending_settled(&self) -> bool {
        settled(self.pending@)
    }
}

impl Clone for InputDecoder {
    fn clone(&self) -> (c: Self)
        ensures
            c.spec_pending() == self.spec_pending(),
            c.spec_generation() == self.spec_generation(),
    {
        proof {
            use_type_invariant(self);
        }
        let pending = self.pending.clone();
        assert(pending@ =~= self.pending@);
        InputDecoder { pending, escape_generation: self.escape_generation }
    }
}

impl Default for InputDecoder {
    fn default() -> (d: Self)
        ensures
            d.spec_pending() == Seq::<u8>::empty(),
            d.spec_generation() == 0,
    {
        InputDecoder { pending: VecDeque::new(), escape_generation: 0 }
    }
}

impl InputDecoder {
    /// Bytes read but not yet decoded.
    pub closed spec fn spec_pending(&self) -> Seq<u8> {
        self.pending@
    }

    /// How many escape bytes have been read, wrapping around.
    pub closed spec fn spec_generation(&self) -> u64 {
        self.escape_generation
    }

    /// Only a lone escape byte is pending.
    pub open spec fn spec_has_pending_escape(&self) -> bool {
        self.spec_pending() == seq![ESCAPE]
    }

    /// Whether only a lone escape byte is pending.
    pub fn has_pending_escape(&self) -> (b: bool)
        ensures
            b == self.spec_has_pending_escape(),
    {
        let b = self.pending.len() == 1 && self.pending[0] == ESCAPE;
        proof {
            if b {
                assert(self.pending@ =~= seq![ESCAPE]);
            }
        }
        b
    }

    /// The generation of a lone pending escape byte.
    pub fn pending_escape_generation(&self) -> (g: Option<u64>)
        ensures
            g == if self.spec_has_pending_escape() { Some(self.spec_generation()) } else { None },
    {
        if self.has_pending_escape() {
            Some(self.escape_generation)
        } else {
            None
        }
    }

    /// Settle a lone pending escape byte as a cancel.
    pub fn flush_pending_escape(&mut self) -> (r: Option<Intent>)
        ensures
            old(self).spec_has_pending_escape() ==> r == Some(Intent::CancelMode)
                && final(self).spec_pending() == Seq::<u8>::empty()
                && final(self).spec_generation() == old(self).spec_generation(),
            !old(self).spec_has_pending_escape() ==> r is None && *final(self) == *old(self),
    {
        if self.has_pending_escape() {
            self.pending = VecDeque::new();
            Some(Intent::CancelMode)
        } else {
            None
        }
    }

    /// Settle a lone pending escape byte as a cancel, but only when it is
    /// still the escape of the given generation.
    pub fn flush_pending_escape_generation(&mut self, generation: u64) -> (r: Option<Intent>)
        ensures
            old(self).spec_has_pending_escape() && old(self).spec_generation() == generation
                ==> r == Some(Intent::CancelMode)
                && final(self).spec_pending() == Seq::<u8>::empty()
                && final(self).spec_generation() == old(self).spec_generation(),
            !(old(self).spec_has_pending_escape() && old(self).spec_generation() == generation)
                ==> r is None && *final(self) == *old(self),
    {
        if self.pending_escape_generation() == Some(generation) {
            self.flush_pending_escape()
        } else {
            None
        }
    }

    /// Read terminal bytes (at most 4096) and return the intents they
    /// complete (at most four; pending input is dropped at the limit).
    pub fn feed(&mut self, bytes: &[u8]) -> (intents: Vec<Intent>)
        ensures
            ({
                let r = fed(old(self).spec_pending(), old(self).spec_generation(), bytes@, 0, Seq::empty());
                &&& final(self).spec_pending() == r.0
                &&& final(self).spec_generation() == r.1
                &&& intents@ == r.2
            }),
            intents@.len() <= MAX_INTENTS_PER_FEED,
            intents@.len() == MAX_INTENTS_PER_FEED ==> final(self).spec_pending() == Seq::<u8>::empty(),
            settled(final(self).spec_pending()),
    {
        proof {
            use_type_invariant(&*self);
            lemma_feed_is_bounded(self.pending@, self.escape_generation, bytes@);
        }
        let mut pending: VecDeque<u8> = VecDeque::new();
        std::mem::swap(&mut pending, &mut self.pending);
        let mut generation = self.escape_generation;
        let mut intents: Vec<Intent> = Vec::new();
        let mut i: usize = 0;
        while i < bytes.len() && i < MAX_INPUT_BYTES_PER_FEED
            invariant
                i <= bytes@.len(),
                fed(old(self).spec_pending(), old(self).spec_generation(), bytes@, 0, Seq::empty())
                    == fed(pending@, generation, bytes@, i as int, intents@),
                settled(pending@),
                intents@.len() < MAX_INTENTS_PER_FEED,
                self.pending@ == Seq::<u8>::empty(),
            decreases bytes@.len() - i,
        {
            let byte = bytes[i];
            if byte == ESCAPE {
                generation = generation.wrapping_add(1);
            }
            proof {
                lemma_decode_one_byte(pending@, byte, intents@);
            }
            pending.push_back(byte);
            decode_pending(&mut pending, &mut intents);
            if intents.len() == MAX_INTENTS_PER_FEED {
                self.escape_generation = generation;
                return intents;
            }
            i = i + 1;
        }
        self.pending = pending;
        self.escape_generation = generation;
        intents
    }
}

/// Decode what `pending` holds, appending to `intents`, until it runs out,
/// an escape sequence waits for more bytes, or the intent limit is reached.
fn decode_pending(pending: &mut VecDeque<u8>, intents: &mut Vec<Intent>)
    ensures
        (final(pending)@, final(intents)@) == decoded(old(pending)@, old(intents)@),
{
    loop
        invariant
            decoded(old(pending)@, old(intents)@) == decoded(pending@, intents@),
        decreases pending@.len(),
    {
        if pending.len() == 0 {
            return;
        }
        if pending[0] == ESCAPE {
            if pending.len() == 1 || (pending.len() == 2 && pending[1] == 91) {
                return;
            }
            if pending.len() >= 3 && pending[1] == 91 {
                let intent = match pending[2] {
                    65 => Some(Intent::Move(Direction::North)),
                    66 => Some(Intent::Move(Direction::South)),
                    67 => Some(Intent::Move(Direction::East)),
                    68 => Some(Intent::Move(Direction::West)),
                    90 => Some(Intent::CycleTarget { backwards: true }),
                    _ => None,
                };
                let ghost before = pending@;
                pending.pop_front();
                pending.pop_front();
                pending.pop_front();
                assert(pending@ =~= before.subrange(3, before.len() as int));
                match intent {
                    Some(it) => {
                        intents.push(it);
                    },
                    None => {},
                }
            } else {
                pending.pop_front();
            }
        } else {
            let byte = match pending.pop_front() {
                Some(b) => b,
                None => {
                    return;
                },
            };
            match intent_from_byte(byte) {
                Some(it) => {
                    intents.push(it);
                    if intents.len() == MAX_INTENTS_PER_FEED {
                        return;
                    }
                },
                None => {},
            }
        }
    }
}

/// The intent a plain key byte stands for.
pub fn intent_from_byte(byte: u8) -> (r: Option<Intent>)
    ensures
        r == keyed(byte),
{
    if byte >= 49 && byte <= 57 {
        let slot = AbilitySlot::new(byte - 48);
        return match slot {
            Some(s) => {
                proof { lemma_slot_numbered(s); }
                Some(Intent::UseSkill(s))
            },
            None => None,
        };
    }
    if byte == 48 {
        let slot = AbilitySlot::new(10);
        return match slot {
            Some(s) => {
                proof { lemma_slot_numbered(s); }
                Some(Intent::UseSkill(s))
            },
            None => None,
        };
    }
    match byte {
        13 | 10 => Some(Intent::Confirm),
        9 => Some(Intent::CycleTarget { backwards: false }),
        113 => Some(Intent::Move(Direction::NorthWest)),
        119 => Some(Intent::Move(Direction::North)),
        101 => Some(Intent::Move(Direction::NorthEast)),
        97 => Some(Intent::Move(Direction::West)),
        115 => Some(Intent::Wait),
        100 => Some(Intent::Move(Direction::East)),
        122 => Some(Intent::Move(Direction::SouthWest)),
        120 => Some(Intent::Move(Direction::South)),
        99 => Some(Intent::Move(Direction::SouthEast)),
        105 => Some(Intent::ToggleInspect),
        103 => Some(Intent::PickupItem),
        117 => Some(Intent::ToggleItemUse),
        63 => Some(Intent::ToggleHelp),
        71 => Some(Intent::ToggleGodmode),
        114 => Some(Intent::Restart),
        81 => Some(Intent::Quit),
        _ => None,
    }
}

/// Two slots with the same number are the same slot.
proof fn lemma_slot_numbered(s: SkillSlot)
    ensures
        slot_numbered(s.spec_number()) == s,
{
    let c = slot_numbered(s.spec_number());
    AbilitySlot::lemma_number_injective(c, s);
}

/// What an intent does to a game session: help blocks most play; the
/// remaining intents map onto commands for the current mode, toggles,
/// start, restart, or quit.
pub open spec fn intent_effect(pre: ExplorationGame, post: ExplorationGame, intent: Intent, r: Result<bool, GenerationError>) -> bool {
    match intent {
        Intent::Quit => r == Ok::<bool, GenerationError>(false) && post == pre,
        Intent::Restart => match r {
            Ok(b) => b && populated_run(post, post.map.seed, pre.fixed_seed, RunStatus::Active, pre.class_id)
                && post.catalog == pre.catalog && post.debug_godmode_enabled == pre.debug_godmode_enabled
                && (pre.fixed_seed matches Some(s) ==> post.map.seed == s),
            Err(e) => e is Exhausted && post == pre,
        },
        _ => r == Ok::<bool, GenerationError>(true) && match intent {
            Intent::ToggleHelp => post == if !pre.using_item { ExplorationGame { help: !pre.help, ..pre } } else { pre },
            Intent::ToggleGodmode => if pre.help || !pre.debug_godmode_enabled {
                post == pre
            } else {
                post == (ExplorationGame { godmode: !pre.godmode, events: post.events, ..pre })
                    && post.log() == log_push(pre.log(), if post.godmode { "GODMODE enabled."@ } else { "GODMODE disabled."@ })
            },
            Intent::ToggleCharacterInfo => post == if !pre.help {
                ExplorationGame { character_info: !pre.character_info, ..pre }
            } else {
                pre
            },
            Intent::Start => if pre.targeting is Some && !pre.help {
                runs(pre, post, Command::ConfirmTarget)
            } else {
                started(pre, post)
            },
            Intent::Confirm => if pre.targeting is Some && !pre.help {
                runs(pre, post, Command::ConfirmTarget)
            } else {
                started(pre, post)
            },
            Intent::Move(d) => if pre.help {
                post == pre
            } else if pre.targeting is Some || pre.inspecting is Some {
                runs(pre, post, Command::MoveCursor(d))
            } else {
                runs(pre, post, Command::Move(d))
            },
            Intent::Wait => if pre.help { post == pre } else { runs(pre, post, Command::Wait) },
            Intent::UseSkill(slot) => if pre.help {
                post == pre
            } else if pre.using_item {
                runs(pre, post, Command::UseItemSlot(slot.spec_number() as u8))
            } else {
                runs(pre, post, Command::UseAbility(slot))
            },
            Intent::CycleTarget { backwards } => if pre.help {
                post == pre
            } else if pre.targeting is Some {
                runs(pre, post, Command::CycleTarget { backwards })
            } else {
                post == (ExplorationGame { character_info: !pre.character_info, ..pre })
            },
            Intent::CancelMode => if pre.help { post == pre } else { runs(pre, post, Command::CancelMode) },
            Intent::ToggleInspect => if pre.help { post == pre } else { runs(pre, post, Command::ToggleInspect) },
            Intent::PickupItem => if pre.help { post == pre } else { runs(pre, post, Command::PickupItem) },
            Intent::ToggleItemUse => if pre.help { post == pre } else { runs(pre, post, Command::ToggleItemUse) },
            _ => true,
        },
    }
}

/// Applying `c` to `pre` gives `post`, whatever the outcome.
pub open spec fn runs(pre: ExplorationGame, post: ExplorationGame, c: Command) -> bool {
    exists|o: CommandOutcome| #[trigger] applied(pre, post, c, o)
}

/// Starting: a title-screen run becomes active with a message; otherwise
/// nothing changes.
pub open spec fn started(pre: ExplorationGame, post: ExplorationGame) -> bool {
    if pre.status == RunStatus::Title {
        post == (ExplorationGame { status: RunStatus::Active, events: post.events, ..pre })
            && post.log() == log_push(pre.log(), "You descend into the ossuary."@)
    } else {
        post == pre
    }
}

/// Apply an intent to a game session. Returns `Ok(false)` when the
/// transport should close; a failed restart leaves the session as it was.
#[verifier::spinoff_prover]
#[verifier::rlimit(100)]
pub fn apply_game_intent(game: &mut ExplorationGame, intent: Intent) -> (r: Result<bool, GenerationError>)
    requires
        old(game).wf(),
        old(game).status == RunStatus::Active ==> has_headroom(*old(game)),
    ensures
        final(game).wf(),
        intent_effect(*old(game), *final(game), intent, r),
        old(game).visible@.subset_of(old(game).explored@) ==> final(game).visible@.subset_of(final(game).explored@),
{
    match intent {
        Intent::Quit => {
            return Ok(false);
        },
        Intent::ToggleHelp => {
            if !game.using_item {
                game.toggle_help();
            }
        },
        Intent::ToggleGodmode => {
            if !game.help {
                game.toggle_godmode();
            }
        },
        Intent::ToggleCharacterInfo => {
            if !game.help {
                game.toggle_character_info();
            }
        },
        Intent::Restart => {
            match game.restart() {
                Ok(()) => {},
                Err(e) => {
                    return Err(e);
                },
            }
        },
        Intent::Start | Intent::Confirm => {
            if game.targeting.is_some() && !game.help {
                game.apply(Command::ConfirmTarget);
            } else {
                game.start();
            }
        },
        Intent::Move(direction) => {
            if !game.help {
                let command = if game.targeting.is_some() || game.inspecting.is_some() {
                    Command::MoveCursor(direction)
                } else {
                    Command::Move(direction)
                };
                game.apply(command);
            }
        },
        Intent::Wait => {
            if !game.help {
                game.apply(Command::Wait);
            }
        },
        Intent::UseSkill(slot) => {
            if !game.help {
                let command = if game.using_item {
                    Command::UseItemSlot(slot.number())
                } else {
                    Command::UseAbility(slot)
                };
                game.apply(command);
            }
        },
        Intent::CycleTarget { backwards } => {
            if !game.help {
                if game.targeting.is_some() {
                    game.apply(Command::CycleTarget { backwards });
                } else {
                    game.toggle_character_info();
                }
            }
        },
        Intent::CancelMode => {
            if !game.help {
                game.apply(Command::CancelMode);
            }
        },
        Intent::ToggleInspect => {
            if !game.help {
                game.apply(Command::ToggleInspect);
            }
        },
        Intent::PickupItem => {
            if !game.help {
                game.apply(Command::PickupItem);
            }
        },
        Intent::ToggleItemUse => {
            if !game.help {
                game.apply(Command::ToggleItemUse);
            }
        },
    }
    Ok(true)
}

} // verus!
