//! The machine's status reports.
//!
//! A report is one line such as
//! `<Idle|MPos:12.500,-3.250,0.000|Bf:35,1023|FS:0,0|Pn:XYZ>`: between angle
//! brackets the name of the machine's state, then fields set apart by bars.
//! Of the fields only the first that begins with `MPos:` is read, and of it
//! only the first two coordinates.

use vstd::prelude::*;
use vstd::slice::slice_subrange;
use vstd::string::StringSliceAdditionalSpecFns;
use vstd::utf8::encode_utf8;
use crate::fixed::{parse_decimal, parsed_decimal};
use crate::gcode::Pos2D;
use crate::scan::{find_byte, first_index, same_bytes, starts_with, strip_prefix};

verus! {

/// The byte `<`, which opens a report.
pub const REPORT_OPEN: u8 = 60;

/// The byte `>`, which closes a report.
pub const REPORT_CLOSE: u8 = 62;

/// The byte `|`, which sets the fields of a report apart.
pub const BAR: u8 = 124;

/// The byte `,`, which sets coordinates apart.
pub const COMMA: u8 = 44;

/// What the machine is doing.
#[derive(Clone, Copy, PartialEq, Eq, Structural, Debug)]
pub enum MachineState {
    Idle,
    Run,
    Hold,
    Jog,
    Alarm,
    Door,
    Check,
    Home,
    Sleep,
    Tool,
}

/// The machine's state and the position of its tool, as last reported.
#[derive(Clone, Copy, PartialEq, Eq, Structural, Debug)]
pub struct MachineStatus {
    pub position: Pos2D,
    pub machine_state: MachineState,
}

/// Why a line could not be read as a status report.
#[derive(Clone, Copy, PartialEq, Eq, Structural, Debug)]
pub enum StatusError {
    /// The line does not stand between angle brackets: it is no report.
    NotStatus,
    /// The line stands between angle brackets, and what is between them
    /// is not what a report holds.
    Malformed,
}

impl StatusError {
    /// What went wrong, in words.
    pub fn message(&self) -> (r: String)
        ensures
            r@ == error_text(*self),
    {
        match self {
            StatusError::NotStatus => "not a status report".to_owned(),
            StatusError::Malformed => "malformed status report".to_owned(),
        }
    }
}

/// The words for an error.
pub open spec fn error_text(e: StatusError) -> Seq<char> {
    match e {
        StatusError::NotStatus => "not a status report"@,
        StatusError::Malformed => "malformed status report"@,
    }
}

impl MachineStatus {
    /// An idle machine with its tool at the origin.
    pub fn new() -> (r: MachineStatus)
        ensures
            r == idle_at_origin(),
    {
        MachineStatus { position: Pos2D::new(0, 0), machine_state: MachineState::Idle }
    }
}

/// The status of an idle machine with its tool at the origin.
pub open spec fn idle_at_origin() -> MachineStatus {
    MachineStatus { position: Pos2D { x: 0, y: 0 }, machine_state: MachineState::Idle }
}

/// Whether a byte is a letter of the Latin alphabet.
pub open spec fn is_letter(b: u8) -> bool {
    (65 <= b && b <= 90) || (97 <= b && b <= 122)
}

/// Whether a text is a name: one or more letters.
pub open spec fn is_name(s: Seq<u8>) -> bool {
    s.len() > 0 && forall|i: int| 0 <= i < s.len() ==> is_letter(#[trigger] s[i])
}

/// The state that a name stands for. The match is exact, capitals
/// included; a name that is none of the ten stands for `Idle`.
pub open spec fn state_of(name: Seq<u8>) -> MachineState {
    if name == "Run".spec_bytes() {
        MachineState::Run
    } else if name == "Hold".spec_bytes() {
        MachineState::Hold
    } else if name == "Jog".spec_bytes() {
        MachineState::Jog
    } else if name == "Alarm".spec_bytes() {
        MachineState::Alarm
    } else if name == "Door".spec_bytes() {
        MachineState::Door
    } else if name == "Check".spec_bytes() {
        MachineState::Check
    } else if name == "Home".spec_bytes() {
        MachineState::Home
    } else if name == "Sleep".spec_bytes() {
        MachineState::Sleep
    } else if name == "Tool".spec_bytes() {
        MachineState::Tool
    } else {
        MachineState::Idle
    }
}

/// The coordinates of the first position field among the fields of a
/// report: what follows `MPos:` in the first field that begins so.
/// `fields` is what follows the state's name: nothing, or a bar and a
/// field, any number of times.
pub open spec fn position_field(fields: Seq<u8>) -> Option<Seq<u8>>
    decreases fields.len(),
{
    if fields.len() == 0 {
        None
    } else {
        let tail = fields.skip(1);
        let end = first_index(tail, BAR);
        let field = tail.take(end);
        if starts_with(field, "MPos:".spec_bytes()) {
            Some(field.skip("MPos:".spec_bytes().len() as int))
        } else if 0 <= end < tail.len() {
            position_field(tail.skip(end))
        } else {
            None
        }
    }
}

/// The text of the first coordinate: what stands before the first comma.
pub open spec fn x_text(coords: Seq<u8>) -> Seq<u8> {
    coords.take(first_index(coords, COMMA))
}

/// The text of the second coordinate: what stands between the first comma
/// and the second, or the end.
pub open spec fn y_text(coords: Seq<u8>) -> Seq<u8> {
    let after = coords.skip(first_index(coords, COMMA) + 1);
    after.take(first_index(after, COMMA))
}

/// The position that the coordinates of a position field give: two
/// decimals with a comma between them. What follows a second comma is not
/// read.
pub open spec fn position_of(coords: Seq<u8>) -> Option<Pos2D> {
    if first_index(coords, COMMA) >= coords.len() {
        None
    } else {
        match (parsed_decimal(x_text(coords)), parsed_decimal(y_text(coords))) {
            (Some(x), Some(y)) => Some(Pos2D { x, y }),
            _ => None,
        }
    }
}

/// Whether a line stands between angle brackets.
pub open spec fn is_bracketed(line: Seq<u8>) -> bool {
    line.len() >= 2 && line[0] == REPORT_OPEN && line.last() == REPORT_CLOSE
}

/// What stands between the brackets of a line.
pub open spec fn report_body(line: Seq<u8>) -> Seq<u8> {
    line.subrange(1, line.len() - 1)
}

/// The name of the state in the body of a report: what stands before the
/// first bar.
pub open spec fn state_name(body: Seq<u8>) -> Seq<u8> {
    body.take(first_index(body, BAR))
}

/// What a line holds when it is read as a status report.
pub open spec fn status_of(line: Seq<u8>) -> Result<MachineStatus, StatusError> {
    if !is_bracketed(line) {
        Err(StatusError::NotStatus)
    } else {
        let body = report_body(line);
        let name = state_name(body);
        if !is_name(name) {
            Err(StatusError::Malformed)
        } else {
            match position_field(body.skip(first_index(body, BAR))) {
                None => Err(StatusError::Malformed),
                Some(coords) => match position_of(coords) {
                    None => Err(StatusError::Malformed),
                    Some(position) => Ok(
                        MachineStatus { position, machine_state: state_of(name) },
                    ),
                },
            }
        }
    }
}

fn check_name(s: &[u8]) -> (r: bool)
    ensures
        r == is_name(s@),
{
    if s.len() == 0 {
        return false;
    }
    let mut i: usize = 0;
    while i < s.len()
        invariant
            i <= s@.len(),
            forall|j: int| 0 <= j < i ==> is_letter(#[trigger] s@[j]),
        decreases s@.len() - i,
    {
        let b = s[i];
        if !((65 <= b && b <= 90) || (97 <= b && b <= 122)) {
            assert(!is_letter(s@[i as int]));
            return false;
        }
        i += 1;
    }
    true
}

fn state_from_name(name: &[u8]) -> (r: MachineState)
    ensures
        r == state_of(name@),
{
    if same_bytes(name, "Run".as_bytes()) {
        MachineState::Run
    } else if same_bytes(name, "Hold".as_bytes()) {
        MachineState::Hold
    } else if same_bytes(name, "Jog".as_bytes()) {
        MachineState::Jog
    } else if same_bytes(name, "Alarm".as_bytes()) {
        MachineState::Alarm
    } else if same_bytes(name, "Door".as_bytes()) {
        MachineState::Door
    } else if same_bytes(name, "Check".as_bytes()) {
        MachineState::Check
    } else if same_bytes(name, "Home".as_bytes()) {
        MachineState::Home
    } else if same_bytes(name, "Sleep".as_bytes()) {
        MachineState::Sleep
    } else if same_bytes(name, "Tool".as_bytes()) {
        MachineState::Tool
    } else {
        MachineState::Idle
    }
}

fn find_position_field(fields: &[u8]) -> (r: Option<&[u8]>)
    ensures
        r is Some == position_field(fields@) is Some,
        r matches Some(coords) ==> position_field(fields@) == Some(coords@),
{
    let mut rest: &[u8] = fields;
    loop
        invariant
            position_field(rest@) == position_field(fields@),
        decreases rest@.len(),
    {
        if rest.len() == 0 {
            return None;
        }
        let tail = slice_subrange(rest, 1, rest.len());
        let end = find_byte(tail, BAR);
        let field = slice_subrange(tail, 0, end);
        assert(tail@ =~= rest@.skip(1));
        assert(field@ =~= tail@.take(end as int));
        match strip_prefix(field, "MPos:".as_bytes()) {
            Some(coords) => {
                return Some(coords);
            },
            None => {},
        }
        if end >= tail.len() {
            return None;
        }
        let next = slice_subrange(tail, end, tail.len());
        assert(next@ =~= tail@.skip(end as int));
        rest = next;
    }
}

fn read_position(coords: &[u8]) -> (r: Option<Pos2D>)
    ensures
        r == position_of(coords@),
{
    let comma = find_byte(coords, COMMA);
    if comma >= coords.len() {
        return None;
    }
    let x_part = slice_subrange(coords, 0, comma);
    let after = slice_subrange(coords, comma + 1, coords.len());
    let second = find_byte(after, COMMA);
    let y_part = slice_subrange(after, 0, second);
    assert(x_part@ =~= x_text(coords@));
    assert(after@ =~= coords@.skip(comma as int + 1));
    assert(y_part@ =~= y_text(coords@));
    match (parse_decimal(x_part), parse_decimal(y_part)) {
        (Some(x), Some(y)) => Some(Pos2D::new(x, y)),
        _ => None,
    }
}

/// Reads one trimmed line as a status report.
pub fn parse_status_line(line: &[u8]) -> (r: Result<MachineStatus, StatusError>)
    ensures
        r == status_of(line@),
{
    let n = line.len();
    if n < 2 || line[0] != REPORT_OPEN || line[n - 1] != REPORT_CLOSE {
        return Err(StatusError::NotStatus);
    }
    let body = slice_subrange(line, 1, n - 1);
    let bar = find_byte(body, BAR);
    let name = slice_subrange(body, 0, bar);
    assert(name@ =~= state_name(body@));
    if !check_name(name) {
        return Err(StatusError::Malformed);
    }
    let fields = slice_subrange(body, bar, body.len());
    assert(fields@ =~= body@.skip(bar as int));
    let coords = match find_position_field(fields) {
        Some(c) => c,
        None => {
            return Err(StatusError::Malformed);
        },
    };
    match read_position(coords) {
        Some(position) => Ok(MachineStatus { position, machine_state: state_from_name(name) }),
        None => Err(StatusError::Malformed),
    }
}

/// Reads one trimmed line, given as a string, as a status report. The line
/// is read by its bytes.
pub fn parse_status(status_string: String) -> (r: Result<MachineStatus, StatusError>)
    ensures
        r == status_of(encode_utf8(status_string@)),
{
    parse_status_line(status_string.as_str().as_bytes())
}

} // verus!
