use vstd::prelude::*;
use crate::msg::{log_push, MessageLog, Msg};

verus! {

/// The run's state machine: Title leads to Playing; GameOver and Won are
/// terminal for the run.
#[derive(Clone, Copy, Debug, PartialEq, Eq, Structural)]
pub enum GameStage {
    Title,
    Playing,
    GameOver,
    Won,
}

/// Open the chest: the stage becomes Won. The caller owes the external win
/// hook exactly one firing for this transition.
pub fn open_chest(messages: &mut MessageLog, stage: &mut GameStage)
    ensures
        *final(stage) == GameStage::Won,
        final(messages).entries@ == log_push(
            log_push(old(messages).entries@, Msg::ChestOpening),
            Msg::PressStartGift,
        ),
{
    messages.print_message(Msg::ChestOpening);
    messages.print_message(Msg::PressStartGift);
    *stage = GameStage::Won;
}

} // verus!
