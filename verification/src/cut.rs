//! The description of one cut across a tube.

use vstd::prelude::*;
use crate::gcode::{calculate_end_pos, end_position, end_x, end_y, CutAngle, Pos2D, CUT_OVERSHOOT};

verus! {

/// One cut: where it starts, how wide the tube is, at which angle and speed
/// the tool crosses it, and how long the tool waits after each pierce.
/// Lengths are in thousandths of a millimetre, the feedrate in thousandths of
/// a millimetre per minute, delays in thousandths of a second.
#[derive(Clone, Copy, PartialEq, Eq, Structural, Debug)]
pub struct Cut {
    pub start_position: Pos2D,
    pub tube_width: i64,
    pub end_position: Pos2D,
    pub cut_angle: CutAngle,
    pub cut_feedrate: i64,
    pub pierce_delay: i64,
    pub pierce_delay_2: i64,
}

impl Cut {
    /// A square cut from the origin across a tube of 25 mm, at 1000 mm per
    /// minute, with pierce delays of 0.5 s and 0.25 s.
    pub fn new() -> (r: Self)
        ensures
            r.start_position == (Pos2D { x: 0, y: 0 }),
            r.tube_width == 25_000,
            r.end_position == (Pos2D { x: 0, y: 0 }),
            r.cut_angle == (CutAngle { degrees: 90_000, cotangent: 0 }),
            r.cut_feedrate == 1_000_000,
            r.pierce_delay == 500,
            r.pierce_delay_2 == 250,
    {
        Self {
            start_position: Pos2D::new(0, 0),
            tube_width: 25_000,
            end_position: Pos2D::new(0, 0),
            cut_angle: CutAngle::new(90_000, 0),
            cut_feedrate: 1_000_000,
            pierce_delay: 500,
            pierce_delay_2: 250,
        }
    }

    /// Sets the width of the tube.
    pub fn set_tube_width(&mut self, new_width: i64)
        ensures
            *final(self) == (Cut { tube_width: new_width, ..*old(self) }),
    {
        self.tube_width = new_width;
    }

    /// Sets the angle of the cut.
    pub fn set_cut_angle(&mut self, new_angle: CutAngle)
        ensures
            *final(self) == (Cut { cut_angle: new_angle, ..*old(self) }),
    {
        self.cut_angle = new_angle;
    }

    /// Sets the feedrate of the cut.
    pub fn set_cut_feedrate(&mut self, new_feedrate: i64)
        ensures
            *final(self) == (Cut { cut_feedrate: new_feedrate, ..*old(self) }),
    {
        self.cut_feedrate = new_feedrate;
    }

    /// Sets the delay after the first pierce.
    pub fn set_pierce_delay(&mut self, new_delay: i64)
        ensures
            *final(self) == (Cut { pierce_delay: new_delay, ..*old(self) }),
    {
        self.pierce_delay = new_delay;
    }

    /// Sets the delay after the second pierce.
    pub fn set_pierce_delay_2(&mut self, new_delay: i64)
        ensures
            *final(self) == (Cut { pierce_delay_2: new_delay, ..*old(self) }),
    {
        self.pierce_delay_2 = new_delay;
    }

    /// Where the cut ends when it is made to the right from its start, with
    /// the usual overshoot.
    pub fn get_end_pos(&self) -> (r: (i64, i64))
        ensures
            r.0 == end_position(
                self.start_position,
                self.tube_width as int,
                self.cut_angle,
                CUT_OVERSHOOT as int,
                true,
            ).x,
            r.0 == end_x(
                self.start_position.x as int,
                self.tube_width as int,
                CUT_OVERSHOOT as int,
                true,
            ),
            r.1 == end_y(
                self.start_position.y as int,
                self.tube_width as int,
                self.cut_angle,
                CUT_OVERSHOOT as int,
            ),
    {
        let end_pos = calculate_end_pos(
            &self.start_position,
            self.tube_width,
            &self.cut_angle,
            CUT_OVERSHOOT,
            true,
        );
        (end_pos.x, end_pos.y)
    }
}

} // verus!
