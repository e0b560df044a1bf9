use vstd::prelude::*;
use crate::strategy::{OrderFill, Side};

verus! {

/// The position after a fill: a buy adds its size and a sell takes it off.
/// The position stays within the numbers that it can hold.
pub open spec fn position_after(position: int, side: Side, size: int) -> int {
    let moved = match side {
        Side::Buy => position + size,
        Side::Sell => position - size,
    };
    if moved > i64::MAX {
        i64::MAX as int
    } else if moved < i64::MIN {
        i64::MIN as int
    } else {
        moved
    }
}

/// Signed net position, moved by fills alone.
#[derive(Debug, Clone, Copy, PartialEq, Eq, Structural)]
pub struct InventoryTracker {
    pub position: i64,
}

impl InventoryTracker {
    /// A flat position.
    pub fn new() -> (t: Self)
        ensures
            t.position == 0,
    {
        InventoryTracker { position: 0 }
    }

    /// Moves the position by a fill.
    pub fn on_fill(&mut self, fill: &OrderFill)
        ensures
            final(self).position == position_after(
                old(self).position as int,
                fill.side,
                fill.size as int,
            ),
    {
        let moved: i128 = match fill.side {
            Side::Buy => self.position as i128 + fill.size as i128,
            Side::Sell => self.position as i128 - fill.size as i128,
        };
        if moved > i64::MAX as i128 {
            self.position = i64::MAX;
        } else if moved < i64::MIN as i128 {
            self.position = i64::MIN;
        } else {
            self.position = moved as i64;
        }
    }
}

} // verus!
