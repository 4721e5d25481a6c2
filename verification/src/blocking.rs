//! What a command that waits does between two looks at the database.

use crate::resp::{lemma_array_view, views, Value, ValueView};
use vstd::prelude::*;

verus! {

/// The pause between two looks of a `BLPOP`, in milliseconds.
pub const POP_PAUSE_MS: u64 = 50;

/// The pause between two looks of an `XREAD`, in milliseconds.
pub const READ_PAUSE_MS: u64 = 20;

/// What follows a look at the database.
#[derive(Debug)]
pub enum Step {
    /// The command is answered.
    Reply(Value),
    /// Another look after a pause of this many milliseconds.
    Pause(u64),
}

/// What a [`Step`] holds.
pub enum StepView {
    Reply(ValueView),
    Pause(u64),
}

impl View for Step {
    type V = StepView;

    open spec fn view(&self) -> StepView {
        match self {
            Step::Reply(v) => StepView::Reply(v@),
            Step::Pause(ms) => StepView::Pause(*ms),
        }
    }
}

/// What follows a look of a `BLPOP`: what it found is the answer; where it found
/// nothing the answer is none once the time is up.
pub open spec fn pop_step(found: Option<ValueView>, time_is_up: bool) -> StepView {
    match found {
        Some(v) => StepView::Reply(v),
        None => if time_is_up {
            StepView::Reply(ValueView::NullArray)
        } else {
            StepView::Pause(POP_PAUSE_MS)
        },
    }
}

/// What follows a look of a `BLPOP`.
pub fn after_pop(found: Option<Value>, time_is_up: bool) -> (r: Step)
    ensures
        r@ == pop_step(
            match found {
                Some(v) => Some(v@),
                None => None,
            },
            time_is_up,
        ),
{
    match found {
        Some(v) => Step::Reply(v),
        None => if time_is_up {
            Step::Reply(Value::NullArray)
        } else {
            Step::Pause(POP_PAUSE_MS)
        },
    }
}

/// What follows a look of an `XREAD`, `elapsed_ms` after the first one. What it
/// found is the answer, and so is finding nothing where the client does not wait.
/// A client that waits gets no answer once its time is up; a time of zero is
/// never up.
pub open spec fn read_step(
    found: Seq<ValueView>,
    block_ms: Option<u64>,
    elapsed_ms: u64,
) -> StepView {
    match block_ms {
        Some(ms) => if found.len() > 0 {
            StepView::Reply(ValueView::Array(found))
        } else if ms > 0 && elapsed_ms >= ms {
            StepView::Reply(ValueView::NullArray)
        } else {
            StepView::Pause(READ_PAUSE_MS)
        },
        None => StepView::Reply(ValueView::Array(found)),
    }
}

/// What follows a look of an `XREAD`.
pub fn after_read(found: Vec<Value>, block_ms: Option<u64>, elapsed_ms: u64) -> (r: Step)
    ensures
        r@ == read_step(views(found@), block_ms, elapsed_ms),
{
    proof {
        lemma_array_view(found);
    }
    match block_ms {
        Some(ms) => if found.len() > 0 {
            Step::Reply(Value::Array(found))
        } else if ms > 0 && elapsed_ms >= ms {
            Step::Reply(Value::NullArray)
        } else {
            Step::Pause(READ_PAUSE_MS)
        },
        None => Step::Reply(Value::Array(found)),
    }
}

} // verus!
