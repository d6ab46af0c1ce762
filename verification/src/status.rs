//! What the screen says about itself.

use crate::json::{
    as_number, as_text, json_member, json_quote, law_quoting_loses_nothing, member, value_text,
    write_value,
};
use crate::text::{decimal, lemma_decimal_injective, words};
use vstd::prelude::*;

verus! {

/// What the window shows of the screen.
#[derive(Debug, Clone, PartialEq, Eq)]
pub struct Snapshot {
    pub serial: String,
    pub firmware: String,
    pub brightness: u8,
    pub rotation: u16,
    pub free_space: String,
}

/// A `Snapshot` with its texts as character sequences.
pub struct SnapshotView {
    pub serial: Seq<char>,
    pub firmware: Seq<char>,
    pub brightness: u8,
    pub rotation: u16,
    pub free_space: Seq<char>,
}

impl View for Snapshot {
    type V = SnapshotView;

    open spec fn view(&self) -> SnapshotView {
        SnapshotView {
            serial: self.serial@,
            firmware: self.firmware@,
            brightness: self.brightness,
            rotation: self.rotation,
            free_space: self.free_space@,
        }
    }
}

/// The text, or `unknown` where there is none.
pub open spec fn or_unknown(text: Option<Seq<char>>) -> Seq<char> {
    match text {
        Some(s) => s,
        None => "unknown"@,
    }
}

/// The number, or zero where there is none.
pub open spec fn or_zero(number: Option<u64>) -> u64 {
    match number {
        Some(n) => n,
        None => 0,
    }
}

/// A text as a character sequence.
pub open spec fn text_view(text: Option<&str>) -> Option<Seq<char>> {
    match text {
        Some(s) => Some(s@),
        None => None,
    }
}

/// What the fields of the device's answers make a snapshot of: a brightness over 100 counts as
/// 100, and of the rotation the low 16 bits are kept.
pub open spec fn snapshot_of(
    serial: Option<Seq<char>>,
    firmware: Option<Seq<char>>,
    brightness: Option<u64>,
    degree: Option<u64>,
    space: Seq<char>,
) -> SnapshotView {
    SnapshotView {
        serial: or_unknown(serial),
        firmware: or_unknown(firmware),
        brightness: if or_zero(brightness) > 100 {
            100
        } else {
            or_zero(brightness) as u8
        },
        rotation: (or_zero(degree) as nat % 65536) as u16,
        free_space: space,
    }
}

impl Snapshot {
    /// Puts a snapshot together from the fields that were found.
    pub fn from_fields(
        serial: Option<&str>,
        firmware: Option<&str>,
        brightness: Option<u64>,
        degree: Option<u64>,
        space: String,
    ) -> (r: Snapshot)
        ensures
            r@ == snapshot_of(
                text_view(serial),
                text_view(firmware),
                brightness,
                degree,
                space@,
            ),
    {
        let brightness: u64 = brightness.unwrap_or(0);
        let degree: u64 = degree.unwrap_or(0);
        Snapshot {
            serial: known(serial),
            firmware: known(firmware),
            brightness: if brightness > 100 {
                100
            } else {
                brightness as u8
            },
            rotation: (degree % 65536) as u16,
            free_space: space,
        }
    }
}

fn known(text: Option<&str>) -> (r: String)
    ensures
        r@ == or_unknown(text_view(text)),
{
    match text {
        Some(s) => s.to_owned(),
        None => "unknown".to_owned(),
    }
}

/// The text that a document holds, where its own text is that of a JSON string.
pub open spec fn text_in(document: Seq<char>) -> Option<Seq<char>> {
    if exists|s: Seq<char>| document == json_quote(s) {
        Some(choose|s: Seq<char>| document == json_quote(s))
    } else {
        None
    }
}

/// The number that a document holds, where its own text is that of a whole number.
pub open spec fn number_in(document: Seq<char>) -> Option<u64> {
    if exists|n: u64| document == decimal(n as nat) {
        Some(choose|n: u64| document == decimal(n as nat))
    } else {
        None
    }
}

/// A document that holds a text gives that text, and one that holds a number gives that number.
pub proof fn law_documents_give_what_they_hold(s: Seq<char>, n: u64)
    ensures
        text_in(json_quote(s)) == Some(s),
        number_in(decimal(n as nat)) == Some(n),
{
    assert(exists|t: Seq<char>| json_quote(s) == json_quote(t));
    let t = choose|t: Seq<char>| json_quote(s) == json_quote(t);
    law_quoting_loses_nothing(s, t);
    assert(exists|m: u64| decimal(n as nat) == decimal(m as nat));
    let m = choose|m: u64| decimal(n as nat) == decimal(m as nat);
    lemma_decimal_injective(n as nat, m as nat);
}

fn text_of(value: &serde_json::Value) -> (r: Option<&str>)
    ensures
        text_view(r) == text_in(value_text(*value)),
{
    let r: Option<&str> = as_text(value);
    proof {
        if let Some(s) = r {
            law_documents_give_what_they_hold(s@, 0);
        }
    }
    r
}

fn number_of(value: &serde_json::Value) -> (r: Option<u64>)
    ensures
        r == number_in(value_text(*value)),
{
    let r: Option<u64> = as_number(value);
    proof {
        if let Some(n) = r {
            law_documents_give_what_they_hold(seq![], n);
        }
    }
    r
}

/// What a snapshot says of the screen's identity and state, each given by its compact text.
pub open spec fn snapshot_in(identity: Seq<char>, state: Seq<char>) -> SnapshotView {
    snapshot_of(
        text_in(json_member(identity, "sn"@)),
        text_in(json_member(json_member(identity, "version"@), "firmware"@)),
        number_in(json_member(state, "brightness"@)),
        number_in(json_member(state, "degree"@)),
        json_member(state, "space"@),
    )
}

/// Reads a snapshot out of the screen's identity and state.
pub fn read_snapshot(identity: &serde_json::Value, state: &serde_json::Value) -> (r: Snapshot)
    ensures
        r@ == snapshot_in(value_text(*identity), value_text(*state)),
{
    Snapshot::from_fields(
        text_of(member(identity, "sn")),
        text_of(member(member(identity, "version"), "firmware")),
        number_of(member(state, "brightness")),
        number_of(member(state, "degree")),
        write_value(member(state, "space")),
    )
}

fn labelled(label: &str, text: &str) -> (r: String)
    ensures
        r@ == label@ + text@,
{
    let mut out: String = label.to_owned();
    out.append(text);
    out
}

/// The lines of a status report: what is known of the screen, and what its state holds.
pub open spec fn status_lines(
    serial: Option<Seq<char>>,
    firmware: Option<Seq<char>>,
    hardware: Option<Seq<char>>,
    brightness: Seq<char>,
    degree: Seq<char>,
    space: Seq<char>,
    sleep: Seq<char>,
) -> Seq<Seq<char>> {
    seq![
        "serial:     "@ + or_unknown(serial),
        "firmware:   "@ + or_unknown(firmware),
        "hardware:   "@ + or_unknown(hardware),
        "brightness: "@ + brightness,
        "rotation:   "@ + degree,
        "free space: "@ + space,
        "sleep show: "@ + sleep,
    ]
}

/// Puts a status report together from the fields that were found.
pub fn status_from_fields(
    serial: Option<&str>,
    firmware: Option<&str>,
    hardware: Option<&str>,
    brightness: &str,
    degree: &str,
    space: &str,
    sleep: &str,
) -> (r: Vec<String>)
    ensures
        words(r@) == status_lines(
            text_view(serial),
            text_view(firmware),
            text_view(hardware),
            brightness@,
            degree@,
            space@,
            sleep@,
        ),
{
    let lines: Vec<String> = vec![
        labelled("serial:     ", known(serial).as_str()),
        labelled("firmware:   ", known(firmware).as_str()),
        labelled("hardware:   ", known(hardware).as_str()),
        labelled("brightness: ", brightness),
        labelled("rotation:   ", degree),
        labelled("free space: ", space),
        labelled("sleep show: ", sleep),
    ];
    assert(words(lines@) =~= status_lines(
        text_view(serial),
        text_view(firmware),
        text_view(hardware),
        brightness@,
        degree@,
        space@,
        sleep@,
    ));
    lines
}

/// The status report on the screen's identity and state.
pub fn print_state(identity: &serde_json::Value, state: &serde_json::Value) -> (r: Vec<String>)
    ensures
        ({
            let id = value_text(*identity);
            let version = json_member(id, "version"@);
            let st = value_text(*state);
            words(r@) == status_lines(
                text_in(json_member(id, "sn"@)),
                text_in(json_member(version, "firmware"@)),
                text_in(json_member(version, "hardware"@)),
                json_member(st, "brightness"@),
                json_member(st, "degree"@),
                json_member(st, "space"@),
                json_member(st, "displayInSleep"@),
            )
        }),
{
    let version: &serde_json::Value = member(identity, "version");
    let brightness: String = write_value(member(state, "brightness"));
    let degree: String = write_value(member(state, "degree"));
    let space: String = write_value(member(state, "space"));
    let sleep: String = write_value(member(state, "displayInSleep"));
    status_from_fields(
        text_of(member(identity, "sn")),
        text_of(member(version, "firmware")),
        text_of(member(version, "hardware")),
        brightness.as_str(),
        degree.as_str(),
        space.as_str(),
        sleep.as_str(),
    )
}

/// What is printed after the brightness was set: what the state now says of it.
pub fn brightness_line(state: &serde_json::Value) -> (r: String)
    ensures
        r@ == "brightness is "@ + json_member(value_text(*state), "brightness"@),
{
    let text: String = write_value(member(state, "brightness"));
    labelled("brightness is ", text.as_str())
}

/// What is printed after the picture was rotated: what the state now says of it.
pub fn rotation_line(state: &serde_json::Value) -> (r: String)
    ensures
        r@ == "rotation is "@ + json_member(value_text(*state), "degree"@) + " degrees"@,
{
    let text: String = write_value(member(state, "degree"));
    let mut out: String = labelled("rotation is ", text.as_str());
    out.append(" degrees");
    out
}

/// A snapshot is made of the fields as they are: what is missing is `unknown` or 0, a brightness
/// over 100 is 100, and the rotation keeps its low 16 bits.
pub proof fn law_snapshot_keeps_the_fields(
    serial: Option<&str>,
    firmware: Option<&str>,
    brightness: Option<u64>,
    degree: Option<u64>,
    space: String,
    r: Snapshot,
)
    requires
        call_ensures(Snapshot::from_fields, (serial, firmware, brightness, degree, space), r),
    ensures
        serial matches Some(s) ==> r.serial@ == s@,
        serial is None ==> r.serial@ == "unknown"@,
        firmware matches Some(s) ==> r.firmware@ == s@,
        firmware is None ==> r.firmware@ == "unknown"@,
        brightness matches Some(n) ==> r.brightness == if n <= 100 {
            n as int
        } else {
            100
        },
        brightness is None ==> r.brightness == 0,
        degree matches Some(n) ==> r.rotation == n as int % 65536,
        degree is None ==> r.rotation == 0,
        r.free_space@ == space@,
{
    assert(r@.serial == r.serial@);
    assert(r@.firmware == r.firmware@);
    assert(r@.free_space == r.free_space@);
    assert(r@.brightness == r.brightness);
    assert(r@.rotation == r.rotation);
}

/// The snapshot of the screen's two documents has its serial number under `sn`, its firmware under
/// `version` and `firmware`, its brightness and rotation under `brightness` and `degree`, and its
/// free space as `space` spells it. Texts and whole numbers are taken, and nothing else is.
pub proof fn law_snapshot_is_read_from_the_documents(
    identity: &serde_json::Value,
    state: &serde_json::Value,
    s: Seq<char>,
    n: u64,
    r: Snapshot,
)
    requires
        call_ensures(read_snapshot, (identity, state), r),
    ensures
        ({
            let id = value_text(*identity);
            let st = value_text(*state);
            let serial = json_member(id, "sn"@);
            let firmware = json_member(json_member(id, "version"@), "firmware"@);
            let brightness = json_member(st, "brightness"@);
            let degree = json_member(st, "degree"@);
            &&& serial == json_quote(s) ==> r.serial@ == s
            &&& firmware == json_quote(s) ==> r.firmware@ == s
            &&& (forall|t: Seq<char>| serial != #[trigger] json_quote(t)) ==> r.serial@
                == "unknown"@
            &&& (forall|t: Seq<char>| firmware != #[trigger] json_quote(t)) ==> r.firmware@
                == "unknown"@
            &&& brightness == decimal(n as nat) ==> r.brightness == if n <= 100 {
                n as int
            } else {
                100
            }
            &&& (forall|m: u64| brightness != #[trigger] decimal(m as nat)) ==> r.brightness == 0
            &&& degree == decimal(n as nat) ==> r.rotation == n as int % 65536
            &&& (forall|m: u64| degree != #[trigger] decimal(m as nat)) ==> r.rotation == 0
            &&& r.free_space@ == json_member(st, "space"@)
        }),
{
    law_documents_give_what_they_hold(s, n);
    assert(r@.serial == r.serial@);
    assert(r@.firmware == r.firmware@);
    assert(r@.free_space == r.free_space@);
    assert(r@.brightness == r.brightness);
    assert(r@.rotation == r.rotation);
}

/// The status report has seven lines, each with its label and its own field.
pub proof fn law_status_report_lines(
    identity: &serde_json::Value,
    state: &serde_json::Value,
    s: Seq<char>,
    r: Vec<String>,
    bright: String,
    turned: String,
)
    requires
        call_ensures(print_state, (identity, state), r),
        call_ensures(brightness_line, (state,), bright),
        call_ensures(rotation_line, (state,), turned),
    ensures
        ({
            let id = value_text(*identity);
            let st = value_text(*state);
            let version = json_member(id, "version"@);
            &&& r@.len() == 7
            &&& json_member(id, "sn"@) == json_quote(s) ==> r@[0]@ == "serial:     "@ + s
            &&& json_member(version, "firmware"@) == json_quote(s) ==> r@[1]@ == "firmware:   "@ + s
            &&& json_member(version, "hardware"@) == json_quote(s) ==> r@[2]@ == "hardware:   "@ + s
            &&& (forall|t: Seq<char>| json_member(id, "sn"@) != #[trigger] json_quote(t))
                ==> r@[0]@ == "serial:     "@ + "unknown"@
            &&& (forall|t: Seq<char>| json_member(version, "firmware"@) != #[trigger] json_quote(t))
                ==> r@[1]@ == "firmware:   "@ + "unknown"@
            &&& (forall|t: Seq<char>| json_member(version, "hardware"@) != #[trigger] json_quote(t))
                ==> r@[2]@ == "hardware:   "@ + "unknown"@
            &&& r@[3]@ == "brightness: "@ + json_member(st, "brightness"@)
            &&& r@[4]@ == "rotation:   "@ + json_member(st, "degree"@)
            &&& r@[5]@ == "free space: "@ + json_member(st, "space"@)
            &&& r@[6]@ == "sleep show: "@ + json_member(st, "displayInSleep"@)
            &&& bright@ == "brightness is "@ + json_member(st, "brightness"@)
            &&& turned@ == "rotation is "@ + json_member(st, "degree"@) + " degrees"@
        }),
{
    law_documents_give_what_they_hold(s, 0);
    let w = words(r@);
    assert(w.len() == r@.len());
    assert(w[0] == r@[0]@ && w[1] == r@[1]@ && w[2] == r@[2]@ && w[3] == r@[3]@ && w[4] == r@[4]@
        && w[5] == r@[5]@ && w[6] == r@[6]@);
}

/// A status report has seven lines, in this order, and each says what was found: a name that was
/// not found is `unknown`, and everything else is told as it stands.
pub proof fn law_status_report_of_fields(
    serial: Option<&str>,
    firmware: Option<&str>,
    hardware: Option<&str>,
    brightness: &str,
    degree: &str,
    space: &str,
    sleep: &str,
    r: Vec<String>,
)
    requires
        call_ensures(
            status_from_fields,
            (serial, firmware, hardware, brightness, degree, space, sleep),
            r,
        ),
    ensures
        r@.len() == 7,
        r@[0]@ == "serial:     "@ + match serial {
            Some(s) => s@,
            None => "unknown"@,
        },
        r@[1]@ == "firmware:   "@ + match firmware {
            Some(s) => s@,
            None => "unknown"@,
        },
        r@[2]@ == "hardware:   "@ + match hardware {
            Some(s) => s@,
            None => "unknown"@,
        },
        r@[3]@ == "brightness: "@ + brightness@,
        r@[4]@ == "rotation:   "@ + degree@,
        r@[5]@ == "free space: "@ + space@,
        r@[6]@ == "sleep show: "@ + sleep@,
{
    let w = words(r@);
    assert(w.len() == r@.len());
    assert(w[0] == r@[0]@ && w[1] == r@[1]@ && w[2] == r@[2]@ && w[3] == r@[3]@ && w[4] == r@[4]@
        && w[5] == r@[5]@ && w[6] == r@[6]@);
}

} // verus!
