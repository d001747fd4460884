//! The slot through which a running search publishes its best movement so
//! far: one fixed-size record, written whole and read whole.

use vstd::prelude::*;
use crate::movement::Movement;

verus! {

/// What a reader finds in the slot.
#[derive(Clone, Copy, Debug, PartialEq, Eq, Structural)]
pub enum Published {
    /// No search has finished yet: nothing was ever stored.
    Nothing,
    /// A search has finished and found no movement to play.
    NoMove,
    /// A search has finished and selected this movement.
    Move(Movement),
}

/// The record of a slot that was never written. A segment filled with zeros
/// reads as such a slot.
pub const EMPTY_RECORD: u32 = 0;

/// The record that says a search found no movement.
pub const NO_MOVE_RECORD: u32 = 0x1_0000;

/// The record of the movement from cell 0 to cell 0. The record of any other
/// movement adds 256 times its origin and once its target.
pub const MOVE_RECORD: u32 = 0x2_0000;

/// What storing the result of a search publishes.
pub open spec fn publication(chosen: Option<Movement>) -> Published {
    match chosen {
        None => Published::NoMove,
        Some(movement) => Published::Move(movement),
    }
}

/// The record that stands for `published`: a tag in the third byte, the
/// origin in the second and the target in the first.
pub open spec fn record_of(published: Published) -> u32 {
    match published {
        Published::Nothing => EMPTY_RECORD,
        Published::NoMove => NO_MOVE_RECORD,
        Published::Move(movement) => (MOVE_RECORD + 256 * movement.origin + movement.target) as u32,
    }
}

/// What `record` stands for, or nothing when no slot ever holds it.
pub open spec fn reading_of(record: u32) -> Option<Published> {
    if record == EMPTY_RECORD {
        Some(Published::Nothing)
    } else if record == NO_MOVE_RECORD {
        Some(Published::NoMove)
    } else if MOVE_RECORD <= record < MOVE_RECORD + 0x1_0000 {
        Some(
            Published::Move(
                Movement {
                    origin: ((record - MOVE_RECORD) / 256) as u8,
                    target: ((record - MOVE_RECORD) % 256) as u8,
                },
            ),
        )
    } else {
        None
    }
}

/// Reading a record gives back what it was made from.
pub proof fn lemma_record_round_trip(published: Published)
    ensures
        reading_of(record_of(published)) == Some(published),
{
}

/// Each thing that can be published has one record only.
pub proof fn lemma_record_is_canonical(record: u32)
    requires
        reading_of(record) is Some,
    ensures
        record_of(reading_of(record).unwrap()) == record,
{
}

/// Writes `published` down as a record.
pub fn encode(published: Published) -> (record: u32)
    ensures
        record == record_of(published),
        reading_of(record) == Some(published),
{
    match published {
        Published::Nothing => EMPTY_RECORD,
        Published::NoMove => NO_MOVE_RECORD,
        Published::Move(movement) => MOVE_RECORD + 256 * (movement.origin as u32)
            + movement.target as u32,
    }
}

/// Reads a record, or refuses it when no slot ever holds it.
pub fn decode(record: u32) -> (published: Option<Published>)
    ensures
        published == reading_of(record),
{
    if record == EMPTY_RECORD {
        Some(Published::Nothing)
    } else if record == NO_MOVE_RECORD {
        Some(Published::NoMove)
    } else if MOVE_RECORD <= record && record < MOVE_RECORD + 0x1_0000 {
        let fields = record - MOVE_RECORD;
        Some(Published::Move(Movement { origin: (fields / 256) as u8, target: (fields % 256) as u8 }))
    } else {
        None
    }
}

/// The slot that holds the most recently published result of a search. It
/// has one writer. Each store replaces the whole record, so a reader sees
/// either the record before the store or the one after it.
pub struct SharedSlot {
    record: u32,
}

impl View for SharedSlot {
    type V = Published;

    closed spec fn view(&self) -> Published {
        reading_of(self.record).unwrap()
    }
}

impl SharedSlot {
    #[verifier::type_invariant]
    spec fn holds_a_record(self) -> bool {
        reading_of(self.record) is Some
    }

    /// A slot that nothing was stored in yet.
    pub fn new() -> (slot: Self)
        ensures
            slot@ == Published::Nothing,
    {
        SharedSlot { record: EMPTY_RECORD }
    }

    /// Replaces what the slot holds by the result of a search.
    pub fn store(&mut self, chosen: Option<Movement>)
        ensures
            final(self)@ == publication(chosen),
    {
        let published = match chosen {
            None => Published::NoMove,
            Some(movement) => Published::Move(movement),
        };
        self.record = encode(published);
    }

    /// The movement that the slot holds, if it holds one. A slot that was
    /// never written and one that holds the result "no movement" both give
    /// none: [`SharedSlot::published`] tells them apart.
    pub fn load(&self) -> (chosen: Option<Movement>)
        ensures
            chosen == (match self@ {
                Published::Move(movement) => Some(movement),
                _ => None,
            }),
    {
        match self.published() {
            Published::Move(movement) => Some(movement),
            _ => None,
        }
    }

    /// What the slot holds.
    pub fn published(&self) -> (published: Published)
        ensures
            published == self@,
    {
        proof {
            use_type_invariant(self);
        }
        match decode(self.record) {
            Some(published) => published,
            None => Published::Nothing,
        }
    }

    /// The record that the slot holds, as it goes over the wire.
    pub fn record(&self) -> (record: u32)
        ensures
            record == record_of(self@),
            reading_of(record) == Some(self@),
    {
        proof {
            use_type_invariant(self);
        }
        self.record
    }

    /// The slot that holds `record`, or nothing when the record is corrupt.
    pub fn from_record(record: u32) -> (slot: Option<Self>)
        ensures
            slot is Some <==> reading_of(record) is Some,
            slot matches Some(s) ==> Some(s@) == reading_of(record),
    {
        match decode(record) {
            Some(_) => Some(SharedSlot { record }),
            None => None,
        }
    }
}

} // verus!
