//! The browser session's decisions: what each client message does to the
//! run, the input decoder and the terminal size, and what the transport
//! must send back. The transport performs the returned actions.

use crate::game::{has_headroom, ExplorationGame, RunStatus};
use crate::protocol::{command_version, ClientCommand, PROTOCOL_VERSION};
use crate::session::{apply_game_intent, fed, intent_effect, started, InputDecoder, Intent};
use crate::ui::{capped_area, intent_allowed_at_size, MAX_HEIGHT, MAX_WIDTH, MIN_HEIGHT, MIN_WIDTH};
use vstd::prelude::*;
use vstd::string::StrSliceExecFns;

verus! {

/// Why the server ends a browser session.
#[derive(Clone, Copy, Debug, PartialEq, Eq, Structural)]
pub enum ProtocolError {
    HelloFirst,
    ValidHelloFirst,
    UnsupportedVersion,
    HelloOnlyOnce,
    BinaryUnsupported,
    MessageTooLarge,
    Malformed,
    InputTooLarge,
    GameCommandFailed,
    CountersExhausted,
}

/// The text sent to the client for each refusal.
pub open spec fn error_text(e: ProtocolError) -> Seq<char> {
    match e {
        ProtocolError::HelloFirst => "hello must be the first message"@,
        ProtocolError::ValidHelloFirst => "valid hello must be the first message"@,
        ProtocolError::UnsupportedVersion => "unsupported protocol version"@,
        ProtocolError::HelloOnlyOnce => "hello is only valid once"@,
        ProtocolError::BinaryUnsupported => "binary client messages are unsupported"@,
        ProtocolError::MessageTooLarge => "message is too large"@,
        ProtocolError::Malformed => "malformed message"@,
        ProtocolError::InputTooLarge => "input is too large"@,
        ProtocolError::GameCommandFailed => "game command failed"@,
        ProtocolError::CountersExhausted => "the run's counters are exhausted"@,
    }
}

impl ProtocolError {
    /// The text sent to the client.
    pub fn message(&self) -> (m: &'static str)
        ensures
            m@ == error_text(*self),
    {
        proof {
            reveal_strlit("hello must be the first message");
            reveal_strlit("valid hello must be the first message");
            reveal_strlit("unsupported protocol version");
            reveal_strlit("hello is only valid once");
            reveal_strlit("binary client messages are unsupported");
            reveal_strlit("message is too large");
            reveal_strlit("malformed message");
            reveal_strlit("input is too large");
            reveal_strlit("game command failed");
            reveal_strlit("the run's counters are exhausted");
        }
        match self {
            ProtocolError::HelloFirst => "hello must be the first message",
            ProtocolError::ValidHelloFirst => "valid hello must be the first message",
            ProtocolError::UnsupportedVersion => "unsupported protocol version",
            ProtocolError::HelloOnlyOnce => "hello is only valid once",
            ProtocolError::BinaryUnsupported => "binary client messages are unsupported",
            ProtocolError::MessageTooLarge => "message is too large",
            ProtocolError::Malformed => "malformed message",
            ProtocolError::InputTooLarge => "input is too large",
            ProtocolError::GameCommandFailed => "game command failed",
            ProtocolError::CountersExhausted => "the run's counters are exhausted",
        }
    }
}

/// What the transport must do, in order.
#[derive(Clone, Copy, Debug, PartialEq, Eq, Structural)]
pub enum SessionAction {
    /// Tell the client the run is ready, with its seed.
    Ready { seed: u64 },
    /// Send the refusal's text.
    SendError(ProtocolError),
    /// Resize the terminal to the given cells.
    Resize { cols: u16, rows: u16 },
    /// Draw the run.
    Draw,
    /// Close the session.
    Close,
}

/// A requested side clamped to between one cell and `max`.
pub open spec fn clamped_side(v: u32, max: u16) -> int {
    if v < 1 {
        1
    } else if v > max {
        max as int
    } else {
        v as int
    }
}

/// Refusing a message: its text, then closing.
pub open spec fn refusal(e: ProtocolError) -> Seq<SessionAction> {
    seq![SessionAction::SendError(e), SessionAction::Close]
}

/// Whether an intent is honoured at a terminal of `cols` by `rows` cells.
pub open spec fn allowed_at(intent: Intent, cols: u16, rows: u16) -> bool {
    intent == Intent::Quit || (cols >= MIN_WIDTH && rows >= MIN_HEIGHT)
}

/// One intent's effect on the run, as `apply_game_intent` states it; kept
/// folded so that proofs about sequences of intents stay small.
#[verifier::opaque]
pub open spec fn intent_step(pre: ExplorationGame, post: ExplorationGame, intent: Intent, r: Result<bool, crate::world::GenerationError>) -> bool {
    intent_effect(pre, post, intent, r)
}

/// Applying decoded intents in order to the run `pre` at a terminal size
/// ends in `post` with `actions` to perform: intents the size does not allow
/// are skipped; quitting closes; an active run whose counters are spent is
/// refused; a failed command is refused; a session that survives every
/// intent is redrawn.
pub open spec fn input_outcome(
    pre: ExplorationGame,
    intents: Seq<Intent>,
    cols: u16,
    rows: u16,
    post: ExplorationGame,
    actions: Seq<SessionAction>,
) -> bool
    decreases intents.len(),
{
    if intents.len() == 0 {
        post == pre && actions == seq![SessionAction::Draw]
    } else {
        let intent = intents[0];
        let rest = intents.drop_first();
        if !allowed_at(intent, cols, rows) {
            input_outcome(pre, rest, cols, rows, post, actions)
        } else if intent == Intent::Quit {
            post == pre && actions == seq![SessionAction::Close]
        } else if pre.status == RunStatus::Active && !has_headroom(pre) {
            post == pre && actions == refusal(ProtocolError::CountersExhausted)
        } else {
            exists|mid: ExplorationGame, r: Result<bool, crate::world::GenerationError>|
                #[trigger] intent_step(pre, mid, intent, r) && mid.wf() && match r {
                    Err(_) => post == mid && actions == refusal(ProtocolError::GameCommandFailed),
                    Ok(false) => post == mid && actions == seq![SessionAction::Close],
                    Ok(true) => input_outcome(mid, rest, cols, rows, post, actions),
                }
        }
    }
}

/// Whether the run's counters can take one more command and every strike
/// it provokes.
pub fn headroom(game: &ExplorationGame) -> (b: bool)
    ensures
        b == has_headroom(*game),
{
    let strikes: u128 = 2 * (game.hostiles.len() as u128) + 1;
    game.turn < u64::MAX && (game.combat_roll_count as u128) + strikes <= (u64::MAX as u128)
}

/// The answer to a message the session cannot use: its refusal, then close.
pub fn refuse(e: ProtocolError) -> (actions: Vec<SessionAction>)
    ensures
        actions@ == refusal(e),
{
    vec![SessionAction::SendError(e), SessionAction::Close]
}

/// Feed input bytes to the decoder and apply what they decode to.
#[verifier::spinoff_prover]
#[verifier::rlimit(60)]
fn apply_input(game: &mut ExplorationGame, decoder: &mut InputDecoder, bytes: &Vec<u8>, cols: u16, rows: u16)
    -> (actions: Vec<SessionAction>)
    requires
        old(game).wf(),
    ensures
        final(game).wf(),
        ({
            let r = fed(old(decoder).spec_pending(), old(decoder).spec_generation(), bytes@, 0, Seq::empty());
            &&& final(decoder).spec_pending() == r.0
            &&& final(decoder).spec_generation() == r.1
            &&& input_outcome(*old(game), r.2, cols, rows, *final(game), actions@)
        }),
{
    let intents = decoder.feed(bytes.as_slice());
    let ghost start = *game;
    assert(intents@.skip(0) =~= intents@);
    let mut k: usize = 0;
    while k < intents.len()
        invariant
            game.wf(),
            k <= intents@.len(),
            start == *old(game),
            ({
                let r = fed(old(decoder).spec_pending(), old(decoder).spec_generation(), bytes@, 0, Seq::empty());
                &&& decoder.spec_pending() == r.0
                &&& decoder.spec_generation() == r.1
                &&& intents@ == r.2
            }),
            forall|post: ExplorationGame, acts: Seq<SessionAction>|
                #[trigger] input_outcome(*game, intents@.skip(k as int), cols, rows, post, acts)
                    ==> input_outcome(start, intents@, cols, rows, post, acts),
        decreases intents@.len() - k,
    {
        let intent = intents[k];
        let ghost here = intents@.skip(k as int);
        proof {
            assert(here.len() > 0);
            assert(here[0] == intent);
            assert(here.drop_first() =~= intents@.skip(k + 1));
        }
        if intent_allowed_at_size(intent, cols, rows) {
            if matches!(intent, Intent::Quit) {
                let actions = vec![SessionAction::Close];
                proof {
                    assert(intent == Intent::Quit);
                    assert(actions@ =~= seq![SessionAction::Close]);
                    assert(input_outcome(*game, here, cols, rows, *game, actions@));
                }
                return actions;
            }
            if game.status == RunStatus::Active && !headroom(game) {
                let actions = refuse(ProtocolError::CountersExhausted);
                proof {
                    assert(input_outcome(*game, here, cols, rows, *game, actions@));
                }
                return actions;
            }
            let ghost before = *game;
            let r = apply_game_intent(game, intent);
            match r {
                Err(e) => {
                    let actions = refuse(ProtocolError::GameCommandFailed);
                    proof {
                        assert(intent_step(before, *game, intent, r)) by { reveal(intent_step); }
                        assert(input_outcome(before, here, cols, rows, *game, actions@));
                    }
                    return actions;
                },
                Ok(false) => {
                    let actions = vec![SessionAction::Close];
                    proof {
                        assert(intent_step(before, *game, intent, r)) by { reveal(intent_step); }
                        assert(input_outcome(before, here, cols, rows, *game, actions@));
                    }
                    return actions;
                },
                Ok(true) => {
                    proof {
                        assert forall|post: ExplorationGame, acts: Seq<SessionAction>|
                            input_outcome(*game, intents@.skip(k + 1), cols, rows, post, acts)
                                implies input_outcome(start, intents@, cols, rows, post, acts) by {
                            assert(intent_step(before, *game, intent, r)) by { reveal(intent_step); }
                            assert(input_outcome(before, here, cols, rows, post, acts));
                        }
                    }
                },
            }
        } else {
            proof {
                assert forall|post: ExplorationGame, acts: Seq<SessionAction>|
                    input_outcome(*game, intents@.skip(k + 1), cols, rows, post, acts)
                        implies input_outcome(start, intents@, cols, rows, post, acts) by {
                    assert(input_outcome(*game, here, cols, rows, post, acts));
                }
            }
        }
        k = k + 1;
    }
    let actions = vec![SessionAction::Draw];
    proof {
        assert(intents@.skip(k as int).len() == 0);
        assert(actions@ =~= seq![SessionAction::Draw]);
        assert(input_outcome(*game, intents@.skip(k as int), cols, rows, *game, actions@));
    }
    actions
}

/// One step of a browser session: the client message `cmd` arrives at a
/// session that has (`greeted`) or has not yet been greeted, with a run,
/// an input decoder and a terminal of `area` cells. The first message must
/// be a hello of the supported version, which starts the run; afterwards a
/// message of another version, or a second hello, ends the session; a
/// resize clamps and redraws; quit closes; input is decoded and applied.
pub fn web_session_step(
    game: &mut ExplorationGame,
    decoder: &mut InputDecoder,
    area: &mut (u16, u16),
    greeted: bool,
    cmd: ClientCommand,
) -> (actions: Vec<SessionAction>)
    requires
        old(game).wf(),
        !greeted ==> old(game).events@.len() <= 5,
    ensures
        final(game).wf(),
        !greeted ==> *final(decoder) == *old(decoder) && match cmd {
            ClientCommand::Hello { v, cols, rows } => if v != PROTOCOL_VERSION {
                &&& actions@ == refusal(ProtocolError::UnsupportedVersion)
                &&& *final(game) == *old(game)
                &&& *final(area) == *old(area)
            } else {
                &&& final(area).0 == clamped_side(cols, MAX_WIDTH)
                &&& final(area).1 == clamped_side(rows, MAX_HEIGHT)
                &&& started(*old(game), *final(game))
                &&& actions@ == seq![SessionAction::Ready { seed: final(game).map.seed.0 }, SessionAction::Draw]
            },
            _ => {
                &&& actions@ == refusal(ProtocolError::ValidHelloFirst)
                &&& *final(game) == *old(game)
                &&& *final(area) == *old(area)
            },
        },
        greeted && command_version(cmd) != PROTOCOL_VERSION ==> {
            &&& actions@ == refusal(ProtocolError::UnsupportedVersion)
            &&& *final(game) == *old(game)
            &&& *final(decoder) == *old(decoder)
            &&& *final(area) == *old(area)
        },
        greeted && command_version(cmd) == PROTOCOL_VERSION ==> match cmd {
            ClientCommand::Hello { .. } => {
                &&& actions@ == refusal(ProtocolError::HelloOnlyOnce)
                &&& *final(game) == *old(game)
                &&& *final(decoder) == *old(decoder)
                &&& *final(area) == *old(area)
            },
            ClientCommand::Resize { cols, rows, .. } => {
                &&& final(area).0 == clamped_side(cols, MAX_WIDTH)
                &&& final(area).1 == clamped_side(rows, MAX_HEIGHT)
                &&& actions@ == seq![SessionAction::Resize { cols: final(area).0, rows: final(area).1 }, SessionAction::Draw]
                &&& *final(game) == *old(game)
                &&& *final(decoder) == *old(decoder)
            },
            ClientCommand::Quit { .. } => {
                &&& actions@ == seq![SessionAction::Close]
                &&& *final(game) == *old(game)
                &&& *final(decoder) == *old(decoder)
                &&& *final(area) == *old(area)
            },
            ClientCommand::Input { data, .. } => {
                let r = fed(old(decoder).spec_pending(), old(decoder).spec_generation(), vstd::utf8::encode_utf8(data@), 0, Seq::empty());
                &&& final(decoder).spec_pending() == r.0
                &&& final(decoder).spec_generation() == r.1
                &&& *final(area) == *old(area)
                &&& input_outcome(*old(game), r.2, old(area).0, old(area).1, *final(game), actions@)
            },
        },
{
    if !greeted {
        match cmd {
            ClientCommand::Hello { v, cols, rows } => {
                if v != PROTOCOL_VERSION {
                    return refuse(ProtocolError::UnsupportedVersion);
                }
                *area = capped_area(cols, rows);
                game.start();
                return vec![SessionAction::Ready { seed: game.map.seed.0 }, SessionAction::Draw];
            },
            _ => {
                return refuse(ProtocolError::ValidHelloFirst);
            },
        }
    }
    if cmd.version() != PROTOCOL_VERSION {
        return refuse(ProtocolError::UnsupportedVersion);
    }
    match cmd {
        ClientCommand::Hello { .. } => refuse(ProtocolError::HelloOnlyOnce),
        ClientCommand::Resize { cols, rows, .. } => {
            *area = capped_area(cols, rows);
            vec![SessionAction::Resize { cols: area.0, rows: area.1 }, SessionAction::Draw]
        },
        ClientCommand::Quit { .. } => vec![SessionAction::Close],
        ClientCommand::Input { data, .. } => {
            let bytes = data.as_str().as_bytes_vec();
            apply_input(game, decoder, &bytes, area.0, area.1)
        },
    }
}

} // verus!
