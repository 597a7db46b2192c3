//! Geometry of a cut and the builder of G-code programs.
//!
//! A program is a list of lines in the order in which the machine runs them.
//! The builder only ever appends: no line is removed, merged or moved.

use vstd::prelude::*;
use vstd::utf8::is_ascii_chars;
use crate::cut::Cut;
use crate::fixed::{
    half, half_of, is_decimal_char, lemma_milli_text_chars, mean, mean_of, milli_text, push_milli,
    sat_add, sat_sub, saturating_difference, saturating_sum, scale_by_factor, scale_by_ratio,
    scaled_by_factor, scaled_by_ratio,
};

verus! {

/// Distance along X from the position the operator sets to the tool, in
/// thousandths of a millimetre.
pub const MOUNT_OFFSET: i64 = 40_000;

/// How far a cut runs past the far wall of the tube, in thousandths of a
/// millimetre.
pub const CUT_OVERSHOOT: i64 = 1_000;

/// The pause after the first half of a cut, in thousandths of a second.
pub const SETTLE_TIME: i64 = 2_000;

/// The angle of a square cut, in thousandths of a degree.
pub const SQUARE_ANGLE: i64 = 90_000;

/// Units of distance.
#[derive(Clone, Copy, PartialEq, Eq, Structural, Debug)]
pub enum DistUnit {
    /// Millimetres.
    Metric,
    /// Inches.
    Imperial,
}

/// How the machine reads the coordinates of a move.
#[derive(Clone, Copy, PartialEq, Eq, Structural, Debug)]
pub enum PositioningMode {
    Absolute,
    Relative,
}

/// A position in machine space, each coordinate in thousandths of a
/// millimetre.
#[derive(Clone, Copy, PartialEq, Eq, Structural, Debug)]
pub struct Pos2D {
    pub x: i64,
    pub y: i64,
}

impl Pos2D {
    /// The position with the given coordinates.
    pub fn new(x: i64, y: i64) -> (r: Self)
        ensures
            r.x == x,
            r.y == y,
    {
        Self { x, y }
    }

    /// The position on a screen that shows the tube upright and centred:
    /// both coordinates times the scale factor, and X shifted to the left
    /// by half the width of the tube, scaled likewise. The scale factor is in
    /// thousandths.
    pub fn to_screen_space(&self, tube_width: &i64, scale_factor: &i64) -> (r: Pos2D)
        ensures
            r.x == screen_x(self.x as int, *tube_width as int, *scale_factor as int),
            r.y == scale_by_factor(self.y as int, *scale_factor as int),
    {
        let origin_x = scaled_by_factor(-half_of(*tube_width), *scale_factor);
        Pos2D::new(
            saturating_sum(scaled_by_factor(self.x, *scale_factor), origin_x),
            scaled_by_factor(self.y, *scale_factor),
        )
    }
}

/// The X coordinate on the screen of a position in machine space.
pub open spec fn screen_x(x: int, tube_width: int, scale_factor: int) -> int {
    sat_add(scale_by_factor(x, scale_factor), scale_by_factor(-half(tube_width), scale_factor))
}

/// The angle of a cut: the angle itself in thousandths of a degree, and its
/// cotangent in millionths. The cotangent is not read for an angle of zero,
/// where the cut keeps its height, nor for a square cut of 90 degrees to
/// either side, where the tangent has no value and the cut has no vertical
/// drift.
#[derive(Clone, Copy, PartialEq, Eq, Structural, Debug)]
pub struct CutAngle {
    pub degrees: i64,
    pub cotangent: i64,
}

impl CutAngle {
    /// The angle of the given thousandths of a degree, with its cotangent
    /// in millionths.
    pub fn new(degrees: i64, cotangent: i64) -> (r: Self)
        ensures
            r.degrees == degrees,
            r.cotangent == cotangent,
    {
        Self { degrees, cotangent }
    }

    /// The angle of zero: a straight cut.
    pub fn straight() -> (r: Self)
        ensures
            r.degrees == 0,
            r.cotangent == 0,
    {
        Self { degrees: 0, cotangent: 0 }
    }
}

/// The X coordinate at which a cut ends.
pub open spec fn end_x(start_x: int, tube_width: int, overshoot: int, cut_right: bool) -> int {
    let run = sat_add(tube_width, overshoot);
    if cut_right {
        sat_add(start_x, run)
    } else {
        sat_sub(start_x, run)
    }
}

/// Whether an angle is that of a square cut: 90 degrees to either side.
pub open spec fn is_square(angle: CutAngle) -> bool {
    angle.degrees == SQUARE_ANGLE || angle.degrees == -SQUARE_ANGLE
}

/// The Y coordinate at which a cut ends: that of the start for a straight
/// cut; zero for a square cut, whatever cotangent is given; else the run of
/// the cut times the cotangent of its angle. But for the straight cut the
/// height is counted from zero and not from the start.
pub open spec fn end_y(start_y: int, tube_width: int, angle: CutAngle, overshoot: int) -> int {
    if angle.degrees == 0 {
        start_y
    } else if is_square(angle) {
        0
    } else {
        scale_by_ratio(sat_add(tube_width, overshoot), angle.cotangent as int)
    }
}

/// Where a cut ends that starts at `start` and crosses a tube of the given
/// width, running on by `overshoot` past its far wall.
pub open spec fn end_position(
    start: Pos2D,
    tube_width: int,
    angle: CutAngle,
    overshoot: int,
    cut_right: bool,
) -> Pos2D {
    Pos2D {
        x: end_x(start.x as int, tube_width, overshoot, cut_right) as i64,
        y: end_y(start.y as int, tube_width, angle, overshoot) as i64,
    }
}

/// The point halfway between two positions, each coordinate rounded toward
/// zero.
pub open spec fn midpoint(a: Pos2D, b: Pos2D) -> Pos2D {
    Pos2D { x: mean(a.x as int, b.x as int) as i64, y: mean(a.y as int, b.y as int) as i64 }
}

/// Where a cut that starts at `start_pos` ends. A cut at an angle of zero
/// ends at the height at which it starts, and a square cut, of 90 degrees
/// to either side, at the height of zero.
pub fn calculate_end_pos(
    start_pos: &Pos2D,
    tube_width: i64,
    cut_angle: &CutAngle,
    overshoot_amount: i64,
    cut_right: bool,
) -> (r: Pos2D)
    ensures
        r == end_position(
            *start_pos,
            tube_width as int,
            *cut_angle,
            overshoot_amount as int,
            cut_right,
        ),
        r.x == end_x(start_pos.x as int, tube_width as int, overshoot_amount as int, cut_right),
        r.y == end_y(start_pos.y as int, tube_width as int, *cut_angle, overshoot_amount as int),
        cut_angle.degrees == 0 ==> r.y == start_pos.y,
        cut_angle.degrees == SQUARE_ANGLE || cut_angle.degrees == -SQUARE_ANGLE ==> r.y == 0,
{
    let run = saturating_sum(tube_width, overshoot_amount);
    let end_x = if cut_right {
        saturating_sum(start_pos.x, run)
    } else {
        saturating_difference(start_pos.x, run)
    };
    let end_y = if cut_angle.degrees == 0 {
        start_pos.y
    } else if cut_angle.degrees == SQUARE_ANGLE || cut_angle.degrees == -SQUARE_ANGLE {
        0
    } else {
        scaled_by_ratio(run, cut_angle.cotangent)
    };
    Pos2D::new(end_x, end_y)
}

/// The point halfway between two positions.
pub fn get_midpoint(start_pos: &Pos2D, end_pos: &Pos2D) -> (r: Pos2D)
    ensures
        r == midpoint(*start_pos, *end_pos),
        r.x == mean(start_pos.x as int, end_pos.x as int),
        r.y == mean(start_pos.y as int, end_pos.y as int),
{
    Pos2D::new(mean_of(start_pos.x, end_pos.x), mean_of(start_pos.y, end_pos.y))
}

/// The midpoint of two positions does not depend on their order.
pub proof fn lemma_midpoint_commutes(a: Pos2D, b: Pos2D)
    ensures
        midpoint(a, b) == midpoint(b, a),
{
}

/// A cut at an angle of zero ends at the height at which it starts,
/// whatever its start, its direction, the width of the tube and the
/// overshoot.
pub proof fn lemma_straight_cut_keeps_height(
    start: Pos2D,
    tube_width: int,
    angle: CutAngle,
    overshoot: int,
    cut_right: bool,
)
    requires
        angle.degrees == 0,
    ensures
        end_position(start, tube_width, angle, overshoot, cut_right).y == start.y,
{
}

/// A square cut, of 90 degrees to either side, ends at the height of zero,
/// whatever its start, its direction, the width of the tube, the overshoot
/// and the cotangent that is given with the angle.
pub proof fn lemma_square_cut_has_no_drift(
    start: Pos2D,
    tube_width: int,
    angle: CutAngle,
    overshoot: int,
    cut_right: bool,
)
    requires
        is_square(angle),
    ensures
        end_position(start, tube_width, angle, overshoot, cut_right).y == 0,
        end_position(start, tube_width, angle, overshoot, cut_right).x == end_x(
            start.x as int,
            tube_width,
            overshoot,
            cut_right,
        ),
{
    let x = end_x(start.x as int, tube_width, overshoot, cut_right);
    assert(i64::MIN <= x <= i64::MAX);
}

/// The midpoint lies between the two positions, in each coordinate.
pub proof fn lemma_midpoint_between(a: Pos2D, b: Pos2D)
    ensures
        a.x <= b.x ==> a.x <= midpoint(a, b).x <= b.x,
        b.x <= a.x ==> b.x <= midpoint(a, b).x <= a.x,
        a.y <= b.y ==> a.y <= midpoint(a, b).y <= b.y,
        b.y <= a.y ==> b.y <= midpoint(a, b).y <= a.y,
{
}

/// One line of a program: the command, and the comment that goes behind it
/// in brackets, if it has one.
#[derive(Debug)]
pub struct GcodeLine {
    pub command: String,
    pub comment: Option<String>,
}

/// What a line holds, as plain text.
pub ghost struct LineView {
    pub command: Seq<char>,
    pub comment: Option<Seq<char>>,
}

impl View for GcodeLine {
    type V = LineView;

    open spec fn view(&self) -> LineView {
        LineView {
            command: self.command@,
            comment: match self.comment {
                Some(c) => Some(c@),
                None => None,
            },
        }
    }
}

/// A line without a comment.
pub open spec fn bare(command: Seq<char>) -> LineView {
    LineView { command, comment: None }
}

/// A line with a comment.
pub open spec fn commented(command: Seq<char>, comment: Seq<char>) -> LineView {
    LineView { command, comment: Some(comment) }
}

/// A line as it is written out, without the newline that ends it.
pub open spec fn line_text(l: LineView) -> Seq<char> {
    match l.comment {
        None => l.command,
        Some(c) => l.command + "       ("@ + c + ") "@,
    }
}

/// A program as it is written out: its lines in order, a newline behind
/// each.
pub open spec fn program_text(lines: Seq<LineView>) -> Seq<char>
    decreases lines.len(),
{
    if lines.len() == 0 {
        Seq::empty()
    } else {
        program_text(lines.drop_last()) + line_text(lines.last()) + seq!['\n']
    }
}

/// The line that sets the units to millimetres.
pub open spec fn units_line() -> LineView {
    commented("G21"@, "set units to mm"@)
}

/// The line that sets the positioning mode.
pub open spec fn positioning_line(mode: PositioningMode) -> LineView {
    match mode {
        PositioningMode::Absolute => commented("G90"@, "set positioning to absolute"@),
        PositioningMode::Relative => commented("G91"@, "set positioning to relative"@),
    }
}

/// The command of a move.
pub open spec fn move_command(x: int, y: int, feedrate: int) -> Seq<char> {
    "G1 X"@ + milli_text(x) + " Y"@ + milli_text(y) + " F"@ + milli_text(feedrate)
}

/// The comment of a move.
pub open spec fn move_comment(x: int, y: int, feedrate: int) -> Seq<char> {
    "move to X: "@ + milli_text(x) + ", Y: "@ + milli_text(y) + " with feedrate: "@ + milli_text(
        feedrate,
    )
}

/// The line that moves the tool to `pos` in a straight line.
pub open spec fn move_line(pos: Pos2D, feedrate: int) -> LineView {
    commented(
        move_command(pos.x as int, pos.y as int, feedrate),
        move_comment(pos.x as int, pos.y as int, feedrate),
    )
}

/// The command of a pause.
pub open spec fn dwell_command(time: int) -> Seq<char> {
    "G4 P"@ + milli_text(time)
}

/// The comment of a pause.
pub open spec fn dwell_comment(time: int) -> Seq<char> {
    "wait "@ + milli_text(time) + " seconds"@
}

/// The line that makes the machine wait.
pub open spec fn dwell_line(time: int) -> LineView {
    commented(dwell_command(time), dwell_comment(time))
}

/// The line that switches the cutting tool on or off.
pub open spec fn tool_line(enabled: bool) -> LineView {
    if enabled {
        commented("M3"@, "set plasma enabled"@)
    } else {
        commented("M5"@, "set plasma disabled"@)
    }
}

/// The line that makes the present position the machine's origin.
pub open spec fn zero_line() -> LineView {
    commented("G10 P0 L20 X0 Y0 Z0"@, "set machine zero"@)
}

/// The text of a jog by the given distances.
pub open spec fn jog_text(x_dist: int, y_dist: int) -> Seq<char> {
    "$J=G91 G21 X"@ + milli_text(x_dist) + " Y"@ + milli_text(y_dist) + " F600"@
}

/// The start of a cut, shifted by the mount offset.
pub open spec fn cut_real_start(cut: Cut) -> Pos2D {
    Pos2D {
        x: sat_add(cut.start_position.x as int, MOUNT_OFFSET as int) as i64,
        y: cut.start_position.y,
    }
}

/// The far end of a cut: where a cut to the right ends that starts at the
/// shifted start and runs on past the tube by the usual overshoot.
pub open spec fn cut_end(cut: Cut) -> Pos2D {
    end_position(
        cut_real_start(cut),
        cut.tube_width as int,
        cut.cut_angle,
        CUT_OVERSHOOT as int,
        true,
    )
}

/// The point from which both halves of a cut are made: halfway between the
/// shifted start and the far end.
pub open spec fn cut_mid(cut: Cut) -> Pos2D {
    midpoint(cut_real_start(cut), cut_end(cut))
}

/// The lines of a split cut. The tool goes to the shifted start and on to
/// the midpoint; it pierces there and cuts to the far end; after the settle
/// time it returns to the midpoint, pierces again and cuts back to the
/// shifted start; then it returns to the start that was given.
pub open spec fn cut_lines(cut: Cut) -> Seq<LineView> {
    let feed = cut.cut_feedrate as int;
    Seq::empty().push(move_line(cut_real_start(cut), feed)).push(
        move_line(cut_mid(cut), feed),
    ).push(tool_line(true)).push(dwell_line(cut.pierce_delay as int)).push(
        move_line(cut_end(cut), feed),
    ).push(tool_line(false)).push(dwell_line(SETTLE_TIME as int)).push(
        move_line(cut_mid(cut), feed),
    ).push(tool_line(true)).push(dwell_line(cut.pierce_delay_2 as int)).push(
        move_line(cut_real_start(cut), feed),
    ).push(tool_line(false)).push(move_line(cut.start_position, feed))
}

/// A G-code program under construction.
#[derive(Debug)]
pub struct Gcode {
    pub lines: Vec<GcodeLine>,
}

impl View for Gcode {
    type V = Seq<LineView>;

    open spec fn view(&self) -> Seq<LineView> {
        self.lines@.map_values(|l: GcodeLine| l@)
    }
}

impl Gcode {
    /// A program that holds the two header lines: millimetres, and absolute
    /// positioning.
    pub fn new() -> (r: Self)
        ensures
            r@ == seq![units_line(), positioning_line(PositioningMode::Absolute)],
    {
        let mut gcode = Gcode { lines: Vec::new() };
        assert(gcode@ =~= Seq::empty());
        gcode.set_units_to_mm();
        gcode.set_positioning_mode(PositioningMode::Absolute);
        assert(gcode@ =~= seq![units_line(), positioning_line(PositioningMode::Absolute)]);
        gcode
    }

    /// The program's text: every line in order, each ended by a newline.
    pub fn get_gcode_string(&self) -> (r: String)
        ensures
            r@ == program_text(self@),
    {
        let mut out = String::new();
        let mut i: usize = 0;
        proof {
            reveal_strlit("\n");
            assert(self@.take(0) =~= Seq::empty());
            assert(out@ =~= program_text(self@.take(0)));
        }
        while i < self.lines.len()
            invariant
                i <= self.lines.len(),
                self.lines.len() == self@.len(),
                out@ == program_text(self@.take(i as int)),
                "\n"@ == seq!['\n'],
            decreases self.lines.len() - i,
        {
            let line = &self.lines[i];
            let ghost before = out@;
            out.append(line.command.as_str());
            match &line.comment {
                Some(c) => {
                    out.append("       (");
                    out.append(c.as_str());
                    out.append(") ");
                },
                None => {},
            }
            out.append("\n");
            proof {
                let next = self@.take(i as int + 1);
                assert(next.drop_last() =~= self@.take(i as int));
                assert(next.last() == line@);
                assert(out@ =~= before + line_text(line@) + seq!['\n']);
            }
            i += 1;
        }
        assert(self@.take(i as int) =~= self@);
        out
    }

    /// The number of lines in the program.
    pub fn line_count(&self) -> (r: usize)
        ensures
            r == self@.len(),
    {
        self.lines.len()
    }

    /// Appends a line without a comment.
    pub fn add_command(&mut self, g_command: String)
        ensures
            final(self)@ == old(self)@.push(bare(g_command@)),
    {
        self.lines.push(GcodeLine { command: g_command, comment: None });
        assert(final(self)@ =~= old(self)@.push(bare(g_command@)));
    }

    /// Appends a line with a comment.
    pub fn add_command_comment(&mut self, g_command: String, g_comment: String)
        ensures
            final(self)@ == old(self)@.push(commented(g_command@, g_comment@)),
    {
        self.lines.push(GcodeLine { command: g_command, comment: Some(g_comment) });
        assert(final(self)@ =~= old(self)@.push(commented(g_command@, g_comment@)));
    }

    /// Appends the line that sets the units to millimetres.
    pub fn set_units_to_mm(&mut self)
        ensures
            final(self)@ == old(self)@.push(units_line()),
    {
        self.add_command_comment("G21".to_owned(), "set units to mm".to_owned());
    }

    /// Appends the line that sets the positioning mode.
    pub fn set_positioning_mode(&mut self, positioning_mode: PositioningMode)
        ensures
            final(self)@ == old(self)@.push(positioning_line(positioning_mode)),
    {
        match positioning_mode {
            PositioningMode::Absolute => {
                self.add_command_comment(
                    "G90".to_owned(),
                    "set positioning to absolute".to_owned(),
                );
            },
            PositioningMode::Relative => {
                self.add_command_comment(
                    "G91".to_owned(),
                    "set positioning to relative".to_owned(),
                );
            },
        }
    }

    /// Appends a move in a straight line to `new_pos`.
    pub fn move_xy(&mut self, new_pos: &Pos2D, feedrate: i64)
        ensures
            final(self)@ == old(self)@.push(move_line(*new_pos, feedrate as int)),
    {
        let mut g_command = String::new();
        g_command.append("G1 X");
        push_milli(&mut g_command, new_pos.x);
        g_command.append(" Y");
        push_milli(&mut g_command, new_pos.y);
        g_command.append(" F");
        push_milli(&mut g_command, feedrate);
        let mut g_comment = String::new();
        g_comment.append("move to X: ");
        push_milli(&mut g_comment, new_pos.x);
        g_comment.append(", Y: ");
        push_milli(&mut g_comment, new_pos.y);
        g_comment.append(" with feedrate: ");
        push_milli(&mut g_comment, feedrate);
        assert(g_command@ =~= move_command(new_pos.x as int, new_pos.y as int, feedrate as int));
        assert(g_comment@ =~= move_comment(new_pos.x as int, new_pos.y as int, feedrate as int));
        self.add_command_comment(g_command, g_comment);
    }

    /// Appends a move to the origin.
    pub fn home2D(&mut self, feedrate: i64)
        ensures
            final(self)@ == old(self)@.push(move_line(Pos2D { x: 0, y: 0 }, feedrate as int)),
    {
        self.move_xy(&Pos2D::new(0, 0), feedrate);
    }

    /// Appends a pause of `dwell_time` thousandths of a second.
    pub fn dwell(&mut self, dwell_time: i64)
        ensures
            final(self)@ == old(self)@.push(dwell_line(dwell_time as int)),
    {
        let mut g_command = String::new();
        g_command.append("G4 P");
        push_milli(&mut g_command, dwell_time);
        let mut g_comment = String::new();
        g_comment.append("wait ");
        push_milli(&mut g_comment, dwell_time);
        g_comment.append(" seconds");
        assert(g_command@ =~= dwell_command(dwell_time as int));
        assert(g_comment@ =~= dwell_comment(dwell_time as int));
        self.add_command_comment(g_command, g_comment);
    }

    /// Appends the line that switches the cutting tool on or off.
    pub fn set_plasma_enabled(&mut self, enabled: bool)
        ensures
            final(self)@ == old(self)@.push(tool_line(enabled)),
    {
        if enabled {
            self.add_command_comment("M3".to_owned(), "set plasma enabled".to_owned());
        } else {
            self.add_command_comment("M5".to_owned(), "set plasma disabled".to_owned());
        }
    }

    /// Appends the line that makes the present position the machine's
    /// origin.
    pub fn set_zero(&mut self)
        ensures
            final(self)@ == old(self)@.push(zero_line()),
    {
        self.add_command_comment("G10 P0 L20 X0 Y0 Z0".to_owned(), "set machine zero".to_owned());
    }

    /// Appends a split cut: the lines of `cut_lines`, in that order.
    pub fn add_cut(&mut self, tube_cut: Cut)
        ensures
            final(self)@ == old(self)@ + cut_lines(tube_cut),
    {
        let feed = tube_cut.cut_feedrate;
        let real_start = Pos2D::new(
            saturating_sum(tube_cut.start_position.x, MOUNT_OFFSET),
            tube_cut.start_position.y,
        );
        let end_position = calculate_end_pos(
            &real_start,
            tube_cut.tube_width,
            &tube_cut.cut_angle,
            CUT_OVERSHOOT,
            true,
        );
        let midpoint = get_midpoint(&real_start, &end_position);
        assert(real_start == cut_real_start(tube_cut));
        assert(end_position == cut_end(tube_cut));
        assert(midpoint == cut_mid(tube_cut));

        self.move_xy(&real_start, feed);
        self.move_xy(&midpoint, feed);

        self.set_plasma_enabled(true);
        self.dwell(tube_cut.pierce_delay);
        self.move_xy(&end_position, feed);
        self.set_plasma_enabled(false);

        self.dwell(SETTLE_TIME);
        self.move_xy(&midpoint, feed);

        self.set_plasma_enabled(true);
        self.dwell(tube_cut.pierce_delay_2);
        self.move_xy(&real_start, feed);
        self.set_plasma_enabled(false);

        self.move_xy(&tube_cut.start_position, feed);
        assert(final(self)@ =~= old(self)@ + cut_lines(tube_cut));
    }
}

/// The command that jogs the tool by the given distances, relative to where
/// it stands.
pub fn jog(x_dist: i64, y_dist: i64) -> (r: String)
    ensures
        r@ == jog_text(x_dist as int, y_dist as int),
{
    let mut out = String::new();
    out.append("$J=G91 G21 X");
    push_milli(&mut out, x_dist);
    out.append(" Y");
    push_milli(&mut out, y_dist);
    out.append(" F600");
    assert(out@ =~= jog_text(x_dist as int, y_dist as int));
    out
}

/// What a line does to the cutting tool: switches it on, switches it off,
/// or neither.
pub open spec fn tool_event(l: LineView) -> Option<bool> {
    if l.command == "M3"@ {
        Some(true)
    } else if l.command == "M5"@ {
        Some(false)
    } else {
        None
    }
}

/// The switchings of the cutting tool in a run of lines, in order: `true`
/// for on, `false` for off.
pub open spec fn tool_events(lines: Seq<LineView>) -> Seq<bool>
    decreases lines.len(),
{
    if lines.len() == 0 {
        Seq::empty()
    } else {
        match tool_event(lines.last()) {
            Some(e) => tool_events(lines.drop_last()).push(e),
            None => tool_events(lines.drop_last()),
        }
    }
}

/// The number of newlines in a text.
pub open spec fn newline_count(text: Seq<char>) -> nat
    decreases text.len(),
{
    if text.len() == 0 {
        0
    } else if text.last() == '\n' {
        newline_count(text.drop_last()) + 1
    } else {
        newline_count(text.drop_last())
    }
}

/// Whether a text is free of newlines.
pub open spec fn no_newline(text: Seq<char>) -> bool {
    forall|i: int| 0 <= i < text.len() ==> text[i] != '\n'
}

/// Whether a line is written out as a single line of text: neither its
/// command nor its comment holds a newline.
pub open spec fn single_line(l: LineView) -> bool {
    &&& no_newline(l.command)
    &&& match l.comment {
        Some(c) => no_newline(c),
        None => true,
    }
}

proof fn lemma_tool_events_push(lines: Seq<LineView>, l: LineView)
    ensures
        tool_events(lines.push(l)) == match tool_event(l) {
            Some(e) => tool_events(lines).push(e),
            None => tool_events(lines),
        },
{
    assert(lines.push(l).drop_last() =~= lines);
}

/// The switchings in two runs of lines, one after the other, are those of
/// the first followed by those of the second.
pub proof fn lemma_tool_events_concat(a: Seq<LineView>, b: Seq<LineView>)
    ensures
        tool_events(a + b) == tool_events(a) + tool_events(b),
    decreases b.len(),
{
    if b.len() == 0 {
        assert(a + b =~= a);
        assert(tool_events(a) + tool_events(b) =~= tool_events(a));
    } else {
        lemma_tool_events_concat(a, b.drop_last());
        assert((a + b).drop_last() =~= a + b.drop_last());
        assert((a + b).last() == b.last());
        match tool_event(b.last()) {
            Some(e) => {
                assert(tool_events(a + b) =~= tool_events(a) + tool_events(b));
            },
            None => {},
        }
    }
}

proof fn lemma_motion_is_no_tool_event()
    ensures
        forall|p: Pos2D, f: int| tool_event(#[trigger] move_line(p, f)) is None,
        forall|t: int| tool_event(#[trigger] dwell_line(t)) is None,
        tool_event(tool_line(true)) == Some(true),
        tool_event(tool_line(false)) == Some(false),
{
    reveal_strlit("M3");
    reveal_strlit("M5");
    reveal_strlit("G1 X");
    reveal_strlit("G4 P");
    assert("M3"@[1] != "M5"@[1]);
    assert forall|p: Pos2D, f: int| tool_event(#[trigger] move_line(p, f)) is None by {
        let c = move_line(p, f).command;
        assert(c[0] == 'G');
        assert("M3"@[0] == 'M' && "M5"@[0] == 'M');
    }
    assert forall|t: int| tool_event(#[trigger] dwell_line(t)) is None by {
        let c = dwell_line(t).command;
        assert(c[0] == 'G');
        assert("M3"@[0] == 'M' && "M5"@[0] == 'M');
    }
}

/// In the lines of a cut the tool is switched on, off, on and off again, and
/// nothing else: two switchings on, each followed by its switching off.
pub proof fn lemma_cut_tool_events(cut: Cut)
    ensures
        tool_events(cut_lines(cut)) == seq![true, false, true, false],
{
    lemma_motion_is_no_tool_event();
    let feed = cut.cut_feedrate as int;
    let l0 = Seq::<LineView>::empty();
    let l1 = l0.push(move_line(cut_real_start(cut), feed));
    let l2 = l1.push(move_line(cut_mid(cut), feed));
    let l3 = l2.push(tool_line(true));
    let l4 = l3.push(dwell_line(cut.pierce_delay as int));
    let l5 = l4.push(move_line(cut_end(cut), feed));
    let l6 = l5.push(tool_line(false));
    let l7 = l6.push(dwell_line(SETTLE_TIME as int));
    let l8 = l7.push(move_line(cut_mid(cut), feed));
    let l9 = l8.push(tool_line(true));
    let l10 = l9.push(dwell_line(cut.pierce_delay_2 as int));
    let l11 = l10.push(move_line(cut_real_start(cut), feed));
    let l12 = l11.push(tool_line(false));
    let l13 = l12.push(move_line(cut.start_position, feed));
    lemma_tool_events_push(l0, move_line(cut_real_start(cut), feed));
    lemma_tool_events_push(l1, move_line(cut_mid(cut), feed));
    lemma_tool_events_push(l2, tool_line(true));
    lemma_tool_events_push(l3, dwell_line(cut.pierce_delay as int));
    lemma_tool_events_push(l4, move_line(cut_end(cut), feed));
    lemma_tool_events_push(l5, tool_line(false));
    lemma_tool_events_push(l6, dwell_line(SETTLE_TIME as int));
    lemma_tool_events_push(l7, move_line(cut_mid(cut), feed));
    lemma_tool_events_push(l8, tool_line(true));
    lemma_tool_events_push(l9, dwell_line(cut.pierce_delay_2 as int));
    lemma_tool_events_push(l10, move_line(cut_real_start(cut), feed));
    lemma_tool_events_push(l11, tool_line(false));
    lemma_tool_events_push(l12, move_line(cut.start_position, feed));
    assert(l13 == cut_lines(cut));
    assert(tool_events(l13) =~= seq![true, false, true, false]);
}

/// Adding a cut to a program adds the four switchings of a cut to those the
/// program already held.
pub proof fn lemma_add_cut_tool_events(program: Seq<LineView>, cut: Cut)
    ensures
        tool_events(program + cut_lines(cut)) == tool_events(program) + seq![
            true,
            false,
            true,
            false,
        ],
{
    lemma_tool_events_concat(program, cut_lines(cut));
    lemma_cut_tool_events(cut);
}

proof fn lemma_newline_count_concat(a: Seq<char>, b: Seq<char>)
    ensures
        newline_count(a + b) == newline_count(a) + newline_count(b),
    decreases b.len(),
{
    if b.len() == 0 {
        assert(a + b =~= a);
    } else {
        lemma_newline_count_concat(a, b.drop_last());
        assert((a + b).drop_last() =~= a + b.drop_last());
        assert((a + b).last() == b.last());
    }
}

proof fn lemma_no_newline_count(text: Seq<char>)
    requires
        no_newline(text),
    ensures
        newline_count(text) == 0,
    decreases text.len(),
{
    if text.len() > 0 {
        assert(text.last() == text[text.len() - 1]);
        lemma_no_newline_count(text.drop_last());
    }
}

proof fn lemma_line_text_no_newline(l: LineView)
    requires
        single_line(l),
    ensures
        newline_count(line_text(l)) == 0,
{
    match l.comment {
        None => {
            lemma_no_newline_count(l.command);
        },
        Some(c) => {
            reveal_strlit("       (");
            reveal_strlit(") ");
            let open = "       ("@;
            let close = ") "@;
            assert(no_newline(open));
            assert(no_newline(close));
            lemma_no_newline_count(l.command);
            lemma_no_newline_count(open);
            lemma_no_newline_count(c);
            lemma_no_newline_count(close);
            lemma_newline_count_concat(l.command, open);
            lemma_newline_count_concat(l.command + open, c);
            lemma_newline_count_concat(l.command + open + c, close);
        },
    }
}

/// A program whose lines each hold no newline is written out as a text of
/// exactly as many lines as were appended to it: the text holds one newline
/// for each line of the program.
pub proof fn lemma_line_count(lines: Seq<LineView>)
    requires
        forall|i: int| 0 <= i < lines.len() ==> single_line(#[trigger] lines[i]),
    ensures
        newline_count(program_text(lines)) == lines.len(),
    decreases lines.len(),
{
    if lines.len() > 0 {
        let rest = lines.drop_last();
        assert forall|i: int| 0 <= i < rest.len() implies single_line(#[trigger] rest[i]) by {
            assert(rest[i] == lines[i]);
        }
        lemma_line_count(rest);
        assert(single_line(lines[lines.len() - 1]));
        lemma_line_text_no_newline(lines.last());
        let nl = seq!['\n'];
        assert(nl.last() == '\n');
        assert(nl.drop_last().len() == 0);
        assert(newline_count(nl.drop_last()) == 0);
        assert(newline_count(nl) == 1);
        lemma_newline_count_concat(program_text(rest), line_text(lines.last()));
        lemma_newline_count_concat(program_text(rest) + line_text(lines.last()), nl);
    }
}

/// Whether a text is free of newlines and in ASCII.
pub open spec fn plain(text: Seq<char>) -> bool {
    no_newline(text) && is_ascii_chars(text)
}

/// Whether a line is written out as a single line of ASCII text.
pub open spec fn plain_line(l: LineView) -> bool {
    single_line(l) && is_ascii_chars(line_text(l))
}

proof fn lemma_plain_concat(a: Seq<char>, b: Seq<char>)
    requires
        plain(a),
        plain(b),
    ensures
        plain(a + b),
{
    let text = a + b;
    assert forall|i: int| 0 <= i < text.len() implies text[i] != '\n' && '\0' <= #[trigger] text[i]
        <= '\u{7f}' by {
        if i < a.len() {
            assert(text[i] == a[i]);
        } else {
            assert(text[i] == b[i - a.len()]);
        }
    }
}

proof fn lemma_milli_text_plain(v: int)
    ensures
        plain(milli_text(v)),
{
    lemma_milli_text_chars(v);
    assert forall|i: int| 0 <= i < milli_text(v).len() implies milli_text(v)[i] != '\n' by {
        assert(is_decimal_char(milli_text(v)[i]));
    }
}

proof fn lemma_commented_plain(command: Seq<char>, comment: Seq<char>)
    requires
        plain(command),
        plain(comment),
    ensures
        plain_line(commented(command, comment)),
{
    reveal_strlit("       (");
    reveal_strlit(") ");
    assert(plain("       ("@));
    assert(plain(") "@));
    lemma_plain_concat(command, "       ("@);
    lemma_plain_concat(command + "       ("@, comment);
    lemma_plain_concat(command + "       ("@ + comment, ") "@);
}

proof fn lemma_move_line_plain(p: Pos2D, f: int)
    ensures
        plain_line(move_line(p, f)),
{
    let x = milli_text(p.x as int);
    let y = milli_text(p.y as int);
    let feed = milli_text(f);
    lemma_milli_text_plain(p.x as int);
    lemma_milli_text_plain(p.y as int);
    lemma_milli_text_plain(f);
    assert(plain("G1 X"@ + x + " Y"@ + y + " F"@ + feed)) by {
        reveal_strlit("G1 X");
        reveal_strlit(" Y");
        reveal_strlit(" F");
        assert(plain("G1 X"@) && plain(" Y"@) && plain(" F"@));
        lemma_plain_concat("G1 X"@, x);
        lemma_plain_concat("G1 X"@ + x, " Y"@);
        lemma_plain_concat("G1 X"@ + x + " Y"@, y);
        lemma_plain_concat("G1 X"@ + x + " Y"@ + y, " F"@);
        lemma_plain_concat("G1 X"@ + x + " Y"@ + y + " F"@, feed);
    }
    assert(plain("move to X: "@ + x + ", Y: "@ + y + " with feedrate: "@ + feed)) by {
        reveal_strlit("move to X: ");
        reveal_strlit(", Y: ");
        reveal_strlit(" with feedrate: ");
        assert(plain("move to X: "@) && plain(", Y: "@) && plain(" with feedrate: "@));
        lemma_plain_concat("move to X: "@, x);
        lemma_plain_concat("move to X: "@ + x, ", Y: "@);
        lemma_plain_concat("move to X: "@ + x + ", Y: "@, y);
        lemma_plain_concat("move to X: "@ + x + ", Y: "@ + y, " with feedrate: "@);
        lemma_plain_concat("move to X: "@ + x + ", Y: "@ + y + " with feedrate: "@, feed);
    }
    lemma_commented_plain(
        move_command(p.x as int, p.y as int, f),
        move_comment(p.x as int, p.y as int, f),
    );
}

proof fn lemma_dwell_line_plain(t: int)
    ensures
        plain_line(dwell_line(t)),
{
    let time = milli_text(t);
    lemma_milli_text_plain(t);
    reveal_strlit("G4 P");
    reveal_strlit("wait ");
    reveal_strlit(" seconds");
    assert(plain("G4 P"@) && plain("wait "@) && plain(" seconds"@));
    lemma_plain_concat("G4 P"@, time);
    lemma_plain_concat("wait "@, time);
    lemma_plain_concat("wait "@ + time, " seconds"@);
    lemma_commented_plain(dwell_command(t), dwell_comment(t));
}

proof fn lemma_units_line_plain()
    ensures
        plain_line(units_line()),
{
    reveal_strlit("G21");
    reveal_strlit("set units to mm");
    assert(plain("G21"@) && plain("set units to mm"@));
    lemma_commented_plain("G21"@, "set units to mm"@);
}

proof fn lemma_absolute_line_plain()
    ensures
        plain_line(positioning_line(PositioningMode::Absolute)),
{
    reveal_strlit("G90");
    reveal_strlit("set positioning to absolute");
    assert(plain("G90"@) && plain("set positioning to absolute"@));
    lemma_commented_plain("G90"@, "set positioning to absolute"@);
}

proof fn lemma_relative_line_plain()
    ensures
        plain_line(positioning_line(PositioningMode::Relative)),
{
    reveal_strlit("G91");
    reveal_strlit("set positioning to relative");
    assert(plain("G91"@) && plain("set positioning to relative"@));
    lemma_commented_plain("G91"@, "set positioning to relative"@);
}

proof fn lemma_tool_on_line_plain()
    ensures
        plain_line(tool_line(true)),
{
    reveal_strlit("M3");
    reveal_strlit("set plasma enabled");
    assert(plain("M3"@) && plain("set plasma enabled"@));
    lemma_commented_plain("M3"@, "set plasma enabled"@);
}

proof fn lemma_tool_off_line_plain()
    ensures
        plain_line(tool_line(false)),
{
    reveal_strlit("M5");
    reveal_strlit("set plasma disabled");
    assert(plain("M5"@) && plain("set plasma disabled"@));
    lemma_commented_plain("M5"@, "set plasma disabled"@);
}

proof fn lemma_zero_line_plain()
    ensures
        plain_line(zero_line()),
{
    reveal_strlit("G10 P0 L20 X0 Y0 Z0");
    reveal_strlit("set machine zero");
    assert(plain("G10 P0 L20 X0 Y0 Z0"@) && plain("set machine zero"@));
    lemma_commented_plain("G10 P0 L20 X0 Y0 Z0"@, "set machine zero"@);
}

/// Every line that the builder writes by itself is a single line of ASCII
/// text.
pub proof fn lemma_built_lines_plain()
    ensures
        plain_line(units_line()),
        forall|m: PositioningMode| plain_line(#[trigger] positioning_line(m)),
        forall|p: Pos2D, f: int| plain_line(#[trigger] move_line(p, f)),
        forall|t: int| plain_line(#[trigger] dwell_line(t)),
        forall|e: bool| plain_line(#[trigger] tool_line(e)),
        plain_line(zero_line()),
{
    lemma_units_line_plain();
    lemma_zero_line_plain();
    assert forall|m: PositioningMode| plain_line(#[trigger] positioning_line(m)) by {
        match m {
            PositioningMode::Absolute => lemma_absolute_line_plain(),
            PositioningMode::Relative => lemma_relative_line_plain(),
        }
    }
    assert forall|e: bool| plain_line(#[trigger] tool_line(e)) by {
        if e {
            lemma_tool_on_line_plain();
        } else {
            lemma_tool_off_line_plain();
        }
    }
    assert forall|p: Pos2D, f: int| plain_line(#[trigger] move_line(p, f)) by {
        lemma_move_line_plain(p, f);
    }
    assert forall|t: int| plain_line(#[trigger] dwell_line(t)) by {
        lemma_dwell_line_plain(t);
    }
}

/// The lines of a fresh program to which one cut was added: the two header
/// lines and the thirteen lines of the cut.
pub open spec fn cut_program(cut: Cut) -> Seq<LineView> {
    seq![units_line(), positioning_line(PositioningMode::Absolute)] + cut_lines(cut)
}

/// Every line of a fresh program to which one cut was added is a single
/// line of ASCII text.
pub proof fn lemma_cut_program_plain(cut: Cut)
    ensures
        cut_program(cut).len() == 15,
        forall|i: int| 0 <= i < cut_program(cut).len() ==> plain_line(#[trigger] cut_program(cut)[i]),
{
    lemma_built_lines_plain();
    let lines = cut_program(cut);
    assert(cut_lines(cut).len() == 13);
    assert forall|i: int| 0 <= i < lines.len() implies plain_line(#[trigger] lines[i]) by {
        if i >= 2 {
            assert(lines[i] == cut_lines(cut)[i - 2]);
        }
    }
}

/// A fresh program to which one cut was added is written out as fifteen
/// lines of text.
pub proof fn lemma_cut_program_line_count(cut: Cut)
    ensures
        newline_count(program_text(cut_program(cut))) == 15,
{
    lemma_cut_program_plain(cut);
    lemma_line_count(cut_program(cut));
}

} // verus!
