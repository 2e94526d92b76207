//! The radar of an agent: in which quarter around it the exit lies.

use vstd::prelude::*;

verus! {

/// Which of the four quarters around the agent holds the exit; at most
/// one of them does.
#[derive(Debug, Clone, Copy, PartialEq, Eq, Structural)]
pub struct RadarValues {
    pub forward: bool,
    pub right: bool,
    pub back: bool,
    pub left: bool,
}

/// Half a right angle, in thousandths of a degree.
pub const EIGHTH_TURN: u32 = 45_000;

/// The radar for an exit that lies `difference` thousandths of a degree
/// to the left of the heading: forward within half a right angle to
/// either side, then left, back and right by quarters; nothing from a
/// full turn on.
pub open spec fn radar_for(difference: u32) -> RadarValues {
    RadarValues {
        forward: difference < 45_000 || 315_000 <= difference < 360_000,
        left: 45_000 <= difference < 135_000,
        back: 135_000 <= difference < 225_000,
        right: 225_000 <= difference < 315_000,
    }
}

impl RadarValues {
    /// The radar that shows the exit nowhere.
    pub fn new() -> (values: RadarValues)
        ensures
            values == (RadarValues { forward: false, right: false, back: false, left: false }),
    {
        RadarValues { forward: false, right: false, back: false, left: false }
    }

    /// The radar for an exit that lies `difference` thousandths of a
    /// degree to the left of the heading.
    pub fn from_difference(difference: u32) -> (values: RadarValues)
        ensures
            values == radar_for(difference),
    {
        let mut radar_values = RadarValues::new();
        if difference < EIGHTH_TURN {
            radar_values.forward = true;
        } else if difference < 3 * EIGHTH_TURN {
            radar_values.left = true;
        } else if difference < 5 * EIGHTH_TURN {
            radar_values.back = true;
        } else if difference < 7 * EIGHTH_TURN {
            radar_values.right = true;
        } else if difference < 8 * EIGHTH_TURN {
            radar_values.forward = true;
        }
        radar_values
    }

    /// The four values in the order forward, right, back, left.
    pub fn to_vector(&self) -> (values: Vec<bool>)
        ensures
            values@ == seq![self.forward, self.right, self.back, self.left],
    {
        let mut values: Vec<bool> = Vec::new();
        values.push(self.forward);
        values.push(self.right);
        values.push(self.back);
        values.push(self.left);
        assert(values@ =~= seq![self.forward, self.right, self.back, self.left]);
        values
    }
}

} // verus!
