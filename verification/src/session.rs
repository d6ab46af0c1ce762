//! One HID session with the pump screen: which device it is, what is written to it, and how its
//! replies are read.

use crate::frame::{
    big_endian, decode, decoded, encode, law_decode_undoes_encode,
    law_part_of_a_frame_is_incomplete, wire, FrameError,
};
use crate::json::{
    json_object, json_quote, json_text, law_plain_text_is_quoted_as_it_stands, number_value,
    object_value, string_value, value_text, write_value,
};
use crate::msg::{
    body_view, header_value, law_response_reads_back, parse_response, parsed, request,
    request_bytes, response_bytes, well_formed, MsgError, MsgErrorView, Response, ResponseView,
};
use crate::text::{decimal, decimal_text, lemma_decimal_injective, lossy_text, utf8_text_lossy};
use vstd::arithmetic::div_mod::lemma_mod_multiples_vanish;
use vstd::prelude::*;
use vstd::slice::slice_subrange;
use vstd::utf8::encode_utf8;

verus! {

/// The screen's USB vendor.
pub const VENDOR: u16 = 0x0b05;

/// The screen's USB product.
pub const PRODUCT: u16 = 0x1de7;

/// The usage page of the screen's own interface.
pub const USAGE_PAGE: u16 = 0xff00;

/// The usage of the screen's own interface.
pub const USAGE: u16 = 0x0001;

/// How long a reply is waited for, in milliseconds.
pub const REPLY_WAIT: u64 = 2000;

/// How long one read may take, in milliseconds.
pub const READ_WAIT: i32 = 200;

/// What a listed HID interface says about itself.
#[derive(Debug, Clone, Copy, PartialEq, Eq, Structural)]
pub struct DeviceEntry {
    pub vendor_id: u16,
    pub product_id: u16,
    pub usage_page: u16,
    pub usage: u16,
    pub interface_number: i32,
}

/// What can go wrong in a session.
#[derive(Debug)]
pub enum SessionError {
    NoScreen,
    EmptyPicture,
    PictureRefused { body: String },
    PictureNotTaken,
    ShortWrite { cmd: String, wrote: usize, len: usize },
    BadReply { cmd: String, why: MsgError },
    BadFrame { cmd: String, cause: FrameError },
    NoReply { cmd: String },
    Rejected { cmd: String, code: u16, body: String },
    NotJson { what: String, words: String },
}

/// A `SessionError` with its texts as character sequences.
pub enum SessionErrorView {
    NoScreen,
    EmptyPicture,
    PictureRefused { body: Seq<char> },
    PictureNotTaken,
    ShortWrite { cmd: Seq<char>, wrote: nat, len: nat },
    BadReply { cmd: Seq<char>, why: MsgErrorView },
    BadFrame { cmd: Seq<char>, cause: FrameError },
    NoReply { cmd: Seq<char> },
    Rejected { cmd: Seq<char>, code: u16, body: Seq<char> },
    NotJson { what: Seq<char>, words: Seq<char> },
}

impl View for SessionError {
    type V = SessionErrorView;

    open spec fn view(&self) -> SessionErrorView {
        match self {
            SessionError::NoScreen => SessionErrorView::NoScreen,
            SessionError::EmptyPicture => SessionErrorView::EmptyPicture,
            SessionError::PictureRefused { body } => SessionErrorView::PictureRefused {
                body: body@,
            },
            SessionError::PictureNotTaken => SessionErrorView::PictureNotTaken,
            SessionError::ShortWrite { cmd, wrote, len } => SessionErrorView::ShortWrite {
                cmd: cmd@,
                wrote: *wrote as nat,
                len: *len as nat,
            },
            SessionError::BadReply { cmd, why } => SessionErrorView::BadReply {
                cmd: cmd@,
                why: why@,
            },
            SessionError::BadFrame { cmd, cause } => SessionErrorView::BadFrame {
                cmd: cmd@,
                cause: *cause,
            },
            SessionError::NoReply { cmd } => SessionErrorView::NoReply { cmd: cmd@ },
            SessionError::Rejected { cmd, code, body } => SessionErrorView::Rejected {
                cmd: cmd@,
                code: *code,
                body: body@,
            },
            SessionError::NotJson { what, words } => SessionErrorView::NotJson {
                what: what@,
                words: words@,
            },
        }
    }
}

impl SessionErrorView {
    /// What the error says.
    pub open spec fn text(self) -> Seq<char> {
        match self {
            SessionErrorView::NoScreen =>
                "no ROG Strix LC IV screen found (USB 0B05:1DE7 interface 0)"@,
            SessionErrorView::EmptyPicture => "picture is empty"@,
            SessionErrorView::PictureRefused { body } =>
                "the screen refused the picture channel: "@ + body,
            SessionErrorView::PictureNotTaken => "the pump did not accept the picture"@,
            SessionErrorView::ShortWrite { cmd, wrote, len } => cmd + " wrote "@ + decimal(wrote)
                + " of "@ + decimal(len) + " bytes"@,
            SessionErrorView::BadReply { cmd, why } => cmd
                + " response was not a text message"@,
            SessionErrorView::BadFrame { cmd, cause } => cmd + " returned a bad frame"@,
            SessionErrorView::NoReply { cmd } => cmd
                + " got no matching reply within 2 seconds"@,
            SessionErrorView::Rejected { cmd, code, body } => cmd + " was rejected with status "@
                + decimal(code as nat) + ": "@ + body,
            SessionErrorView::NotJson { what, words } => what + " response was not JSON"@,
        }
    }

    /// What the error behind the error says, where there is one.
    pub open spec fn cause_text(self) -> Option<Seq<char>> {
        match self {
            SessionErrorView::BadReply { cmd, why } => Some(why.text()),
            SessionErrorView::BadFrame { cmd, cause } => Some(cause.text()),
            SessionErrorView::NotJson { what, words } => Some(words),
            _ => None,
        }
    }
}

impl SessionError {
    /// The error in words.
    pub fn message(&self) -> (r: String)
        ensures
            r@ == self@.text(),
    {
        match self {
            SessionError::NoScreen =>
                "no ROG Strix LC IV screen found (USB 0B05:1DE7 interface 0)".to_owned(),
            SessionError::EmptyPicture => "picture is empty".to_owned(),
            SessionError::PictureRefused { body } => {
                let mut out: String = "the screen refused the picture channel: ".to_owned();
                out.append(body.as_str());
                out
            },
            SessionError::PictureNotTaken => "the pump did not accept the picture".to_owned(),
            SessionError::ShortWrite { cmd, wrote, len } => {
                let mut out: String = cmd.clone();
                out.append(" wrote ");
                out.append(decimal_text(*wrote as u128).as_str());
                out.append(" of ");
                out.append(decimal_text(*len as u128).as_str());
                out.append(" bytes");
                out
            },
            SessionError::BadReply { cmd, why } => {
                let mut out: String = cmd.clone();
                out.append(" response was not a text message");
                out
            },
            SessionError::BadFrame { cmd, cause } => {
                let mut out: String = cmd.clone();
                out.append(" returned a bad frame");
                out
            },
            SessionError::NoReply { cmd } => {
                let mut out: String = cmd.clone();
                out.append(" got no matching reply within 2 seconds");
                out
            },
            SessionError::Rejected { cmd, code, body } => {
                let mut out: String = cmd.clone();
                out.append(" was rejected with status ");
                out.append(decimal_text(*code as u128).as_str());
                out.append(": ");
                out.append(body.as_str());
                out
            },
            SessionError::NotJson { what, words } => {
                let mut out: String = what.clone();
                out.append(" response was not JSON");
                out
            },
        }
    }

    /// The error behind the error in words, where there is one.
    pub fn cause_message(&self) -> (r: Option<String>)
        ensures
            match r {
                Some(words) => self@.cause_text() == Some(words@),
                None => self@.cause_text() is None,
            },
    {
        match self {
            SessionError::BadReply { cmd, why } => Some(why.message()),
            SessionError::BadFrame { cmd, cause } => Some(cause.message()),
            SessionError::NotJson { what, words } => Some(words.clone()),
            _ => None,
        }
    }
}

/// The entry belongs to the pump screen's own interface.
pub open spec fn is_screen(device: DeviceEntry) -> bool {
    &&& device.vendor_id == VENDOR
    &&& device.product_id == PRODUCT
    &&& device.usage_page == USAGE_PAGE
    &&& device.usage == USAGE
}

/// `i` is the entry to open: the screen with the lowest interface number, and the first of those.
pub open spec fn is_chosen_screen(devices: Seq<DeviceEntry>, i: int) -> bool {
    &&& 0 <= i < devices.len()
    &&& is_screen(devices[i])
    &&& forall|j: int|
        0 <= j < devices.len() && is_screen(#[trigger] devices[j]) ==> {
            &&& devices[i].interface_number <= devices[j].interface_number
            &&& j < i ==> devices[i].interface_number < devices[j].interface_number
        }
}

/// No entry belongs to the pump screen's own interface.
pub open spec fn has_no_screen(devices: Seq<DeviceEntry>) -> bool {
    forall|j: int| 0 <= j < devices.len() ==> !is_screen(#[trigger] devices[j])
}

/// Finds the screen in the list of HID interfaces.
pub fn find_screen(devices: &[DeviceEntry]) -> (r: Result<usize, SessionError>)
    ensures
        match r {
            Ok(i) => is_chosen_screen(devices@, i as int),
            Err(error) => error@ is NoScreen && has_no_screen(devices@),
        },
{
    let mut found: Option<usize> = None;
    let mut i: usize = 0;
    while i < devices.len()
        invariant
            i <= devices@.len(),
            match found {
                Some(best) => best < i && is_chosen_screen(devices@.take(i as int), best as int),
                None => forall|j: int| 0 <= j < i ==> !is_screen(#[trigger] devices@[j]),
            },
        decreases devices@.len() - i,
    {
        let ghost seen = devices@.take(i as int);
        let ghost longer = devices@.take(i + 1);
        let ghost before = found;
        proof {
            assert(forall|j: int| 0 <= j < i ==> #[trigger] longer[j] == seen[j]);
            assert(longer[i as int] == devices@[i as int]);
        }
        let device: DeviceEntry = devices[i];
        if device.vendor_id == VENDOR && device.product_id == PRODUCT && device.usage_page
            == USAGE_PAGE && device.usage == USAGE {
            match found {
                Some(best) => {
                    if device.interface_number < devices[best].interface_number {
                        found = Some(i);
                    }
                },
                None => {
                    found = Some(i);
                },
            }
        }
        proof {
            if let Some(best) = found {
                assert forall|j: int|
                    0 <= j < longer.len() && is_screen(#[trigger] longer[j]) implies {
                    &&& longer[best as int].interface_number <= longer[j].interface_number
                    &&& j < best ==> longer[best as int].interface_number
                        < longer[j].interface_number
                } by {
                    if j < i {
                        assert(longer[j] == seen[j]);
                        assert(is_screen(seen[j]));
                        assert(is_screen(devices@[j]));
                    }
                }
            }
        }
        i += 1;
    }
    assert(devices@.take(i as int) =~= devices@);
    match found {
        Some(best) => Ok(best),
        None => Err(SessionError::NoScreen),
    }
}

/// A session with the screen: the number of the next request.
pub struct Panel {
    pub seq: u32,
}

/// One request on its way: what is written, and what has come back so far.
pub struct Exchange {
    pub cmd: String,
    pub seq: u32,
    /// The HID report that carries the request.
    pub report: Vec<u8>,
    /// Bytes that were read and not yet taken up.
    pub pending: Vec<u8>,
}

/// The number after `n`; numbers start over at zero.
pub open spec fn next_number(n: u32) -> u32 {
    if n == u32::MAX {
        0
    } else {
        (n + 1) as u32
    }
}

/// What the reply to request `seq` carries as its `AckNumber`.
pub open spec fn ack_text(seq: u32) -> Seq<char> {
    decimal(next_number(seq) as nat)
}

/// The report that carries a request: report number zero, then the frame.
pub open spec fn call_report(
    cmd: Seq<char>,
    seq: u32,
    date_ms: u128,
    body: Option<Seq<u8>>,
) -> Seq<u8> {
    seq![0u8] + wire(
        request_bytes(cmd, seq as nat, date_ms as nat, seq![], "json"@, body),
    )
}

/// A request that was just made: number `seq`, nothing read yet.
pub open spec fn is_call(
    exchange: Exchange,
    cmd: Seq<char>,
    seq: u32,
    date_ms: u128,
    body: Option<Seq<u8>>,
) -> bool {
    &&& exchange.cmd@ == cmd
    &&& exchange.seq == seq
    &&& exchange.report@ == call_report(cmd, seq, date_ms, body)
    &&& exchange.pending@.len() == 0
}

/// The JSON body that asks for power event `event`.
pub open spec fn power_body(event: Seq<char>) -> Seq<char> {
    json_object("event"@, json_quote(event))
}

/// The JSON body that sets the brightness.
pub open spec fn brightness_body(value: u8) -> Seq<char> {
    json_object("value"@, decimal(value as nat))
}

/// The JSON body that sets the rotation.
pub open spec fn rotate_body(degrees: u16) -> Seq<char> {
    json_object("degree"@, decimal(degrees as nat))
}

impl Panel {
    /// A fresh session: requests count from zero.
    pub fn new() -> (r: Panel)
        ensures
            r.seq == 0,
    {
        Panel { seq: 0 }
    }

    /// Makes the next request.
    pub fn call(&mut self, cmd: &str, date_ms: u128, body: Option<&[u8]>) -> (r: Exchange)
        ensures
            final(self).seq == next_number(old(self).seq),
            is_call(r, cmd@, old(self).seq, date_ms, body_view(body)),
    {
        let seq: u32 = self.seq;
        self.seq = self.seq.wrapping_add(1);
        let payload: Vec<u8> = request(cmd, seq, date_ms, body);
        let mut report: Vec<u8> = Vec::new();
        report.push(0x00);
        let framed: Vec<u8> = encode(payload.as_slice());
        report.extend_from_slice(framed.as_slice());
        assert(report@ =~= call_report(cmd@, seq, date_ms, body_view(body)));
        Exchange { cmd: cmd.to_owned(), seq, report, pending: Vec::new() }
    }

    /// Lets a number go by: the request that it was for could not be made.
    pub fn skip(&mut self)
        ensures
            final(self).seq == next_number(old(self).seq),
    {
        self.seq = self.seq.wrapping_add(1);
    }

    /// Asks the screen who it is.
    pub fn connect(&mut self, date_ms: u128) -> (r: Exchange)
        ensures
            final(self).seq == next_number(old(self).seq),
            is_call(r, "conn"@, old(self).seq, date_ms, None),
    {
        self.call("conn", date_ms, None)
    }

    /// Asks the screen for its state.
    pub fn state(&mut self, date_ms: u128) -> (r: Exchange)
        ensures
            final(self).seq == next_number(old(self).seq),
            is_call(r, "devStateGet"@, old(self).seq, date_ms, None),
    {
        self.call("devStateGet", date_ms, None)
    }

    /// Wakes the screen (`resume`) or puts it to sleep (`suspend`).
    pub fn power(&mut self, event: &str, date_ms: u128) -> (r: Exchange)
        ensures
            final(self).seq == next_number(old(self).seq),
            is_call(
                r,
                "power"@,
                old(self).seq,
                date_ms,
                Some(encode_utf8(power_body(event@))),
            ),
    {
        let body: String = write_value(&object_value("event", string_value(event)));
        self.call("power", date_ms, Some(body.as_str().as_bytes()))
    }

    /// Sets the brightness.
    pub fn brightness(&mut self, value: u8, date_ms: u128) -> (r: Exchange)
        ensures
            final(self).seq == next_number(old(self).seq),
            is_call(
                r,
                "brightness"@,
                old(self).seq,
                date_ms,
                Some(encode_utf8(brightness_body(value))),
            ),
    {
        let body: String = write_value(&object_value("value", number_value(value as u64)));
        self.call("brightness", date_ms, Some(body.as_str().as_bytes()))
    }

    /// Sets the rotation.
    pub fn rotate(&mut self, degrees: u16, date_ms: u128) -> (r: Exchange)
        ensures
            final(self).seq == next_number(old(self).seq),
            is_call(
                r,
                "rotate"@,
                old(self).seq,
                date_ms,
                Some(encode_utf8(rotate_body(degrees))),
            ),
    {
        let body: String = write_value(&object_value("degree", number_value(degrees as u64)));
        self.call("rotate", date_ms, Some(body.as_str().as_bytes()))
    }

    /// Turns on the live picture channel.
    pub fn open_channel(&mut self, date_ms: u128) -> (r: Exchange)
        ensures
            final(self).seq == next_number(old(self).seq),
            is_call(
                r,
                "realtimeDisplay"@,
                old(self).seq,
                date_ms,
                Some(encode_utf8("{\"enable\":true}"@)),
            ),
    {
        self.call("realtimeDisplay", date_ms, Some("{\"enable\":true}".as_bytes()))
    }

    /// Begins to show a picture. An empty picture is refused; a cancelled one needs nothing; for
    /// any other the first thing to do is to wake the screen, whose answer does not matter.
    pub fn show_jpeg(&mut self, jpeg: &[u8], cancelled: bool, date_ms: u128) -> (r: Result<
        Option<Exchange>,
        SessionError,
    >)
        ensures
            jpeg@.len() == 0 ==> {
                &&& r matches Err(error)
                &&& error@ is EmptyPicture
                &&& final(self).seq == old(self).seq
            },
            jpeg@.len() > 0 && cancelled ==> r == Ok::<Option<Exchange>, SessionError>(None)
                && final(self).seq == old(self).seq,
            jpeg@.len() > 0 && !cancelled ==> {
                &&& r matches Ok(Some(exchange))
                &&& is_call(
                    exchange,
                    "power"@,
                    old(self).seq,
                    date_ms,
                    Some(encode_utf8(power_body("resume"@))),
                )
                &&& final(self).seq == next_number(old(self).seq)
            },
    {
        if jpeg.len() == 0 {
            return Err(SessionError::EmptyPicture);
        }
        if cancelled {
            return Ok(None);
        }
        Ok(Some(self.power("resume", date_ms)))
    }

    /// Begins to send a picture once the screen has answered that its channel is open. Where it is
    /// not, nothing is sent.
    pub fn channel_opened<'a>(
        &self,
        response: &Response,
        jpeg: &'a [u8],
        clock_secs: Option<u64>,
    ) -> (r: Result<Transfer<'a>, SessionError>)
        ensures
            match r {
                Ok(transfer) => {
                    &&& response.code == 200
                    &&& transfer.jpeg@ == jpeg@
                    &&& transfer.id == transfer_id(clock_secs)
                    &&& transfer.sent() == 0
                    &&& transfer.wf()
                },
                Err(error) => response.code != 200 && error@ == (
                SessionErrorView::PictureRefused { body: lossy_text(response.body@) }),
            },
    {
        match channel_reply(response) {
            Ok(_) => Ok(self.push_jpeg(jpeg, clock_secs)),
            Err(error) => Err(error),
        }
    }

    /// Takes the next step in showing a picture. `stage` tells what was asked last, and `answer`
    /// what the screen answered, if it did. `date_ms` is the time, if there is a clock.
    pub fn show_step<'a>(
        &mut self,
        stage: ShowStage,
        answer: Option<&Response>,
        jpeg: &'a [u8],
        date_ms: Option<u128>,
        clock_secs: Option<u64>,
    ) -> (r: (ShowStage, ShowAct<'a>))
        ensures
            r.0 == next_stage(stage, date_ms is Some, answer_code(answer)),
            final(self).seq == if stage == ShowStage::Waking {
                next_number(old(self).seq)
            } else {
                old(self).seq
            },
            stage == ShowStage::Waking ==> match date_ms {
                Some(date_ms) => r.1 matches ShowAct::Ask { exchange } && is_call(
                    exchange,
                    "realtimeDisplay"@,
                    old(self).seq,
                    date_ms,
                    Some(encode_utf8("{\"enable\":true}"@)),
                ),
                None => r.1 is GiveUp,
            },
            stage == ShowStage::Opening ==> match answer {
                Some(response) => if response.code == 200 {
                    r.1 matches ShowAct::Send { transfer } && {
                        &&& transfer.jpeg@ == jpeg@
                        &&& transfer.id == transfer_id(clock_secs)
                        &&& transfer.sent() == 0
                        &&& transfer.wf()
                    }
                } else {
                    r.1 matches ShowAct::Refuse { error } && error@ == (
                    SessionErrorView::PictureRefused { body: lossy_text(response.body@) })
                },
                None => r.1 is GiveUp,
            },
            stage == ShowStage::Sending || stage == ShowStage::Failed ==> r.1 is GiveUp,
    {
        match stage {
            ShowStage::Waking => match date_ms {
                Some(date_ms) => {
                    let exchange: Exchange = self.open_channel(date_ms);
                    (ShowStage::Opening, ShowAct::Ask { exchange })
                },
                None => {
                    self.skip();
                    (ShowStage::Failed, ShowAct::GiveUp)
                },
            },
            ShowStage::Opening => match answer {
                Some(response) => match self.channel_opened(response, jpeg, clock_secs) {
                    Ok(transfer) => (ShowStage::Sending, ShowAct::Send { transfer }),
                    Err(error) => (ShowStage::Failed, ShowAct::Refuse { error }),
                },
                None => (ShowStage::Failed, ShowAct::GiveUp),
            },
            ShowStage::Sending => (ShowStage::Sending, ShowAct::GiveUp),
            ShowStage::Failed => (ShowStage::Failed, ShowAct::GiveUp),
        }
    }

    /// Begins to send a picture over the channel that is already open.
    pub fn push_jpeg<'a>(&self, jpeg: &'a [u8], clock_secs: Option<u64>) -> (r: Transfer<'a>)
        ensures
            r.jpeg@ == jpeg@,
            r.id == transfer_id(clock_secs),
            r.sent() == 0,
            r.wf(),
    {
        Transfer::new(jpeg, clock_secs)
    }
}

/// How far showing a picture has come.
#[derive(Debug, Clone, Copy, PartialEq, Eq, Structural)]
pub enum ShowStage {
    /// The screen was asked to wake.
    Waking,
    /// The screen was asked to open its picture channel.
    Opening,
    /// The picture is sent.
    Sending,
    /// The picture cannot be shown.
    Failed,
}

/// What is done next to show a picture.
pub enum ShowAct<'a> {
    /// The screen is asked something.
    Ask { exchange: Exchange },
    /// The picture is sent.
    Send { transfer: Transfer<'a> },
    /// The screen refused the picture.
    Refuse { error: SessionError },
    /// Nothing more: where something went wrong before, that stands.
    GiveUp,
}

/// The status code of an answer, where there is one.
pub open spec fn answer_code(answer: Option<&Response>) -> Option<u16> {
    match answer {
        Some(response) => Some(response.code),
        None => None,
    }
}

/// What follows a stage. The channel is asked for whatever came of waking the screen, as long as
/// there is a clock to date the request by; the picture follows only a channel that was opened.
pub open spec fn next_stage(stage: ShowStage, clock: bool, code: Option<u16>) -> ShowStage {
    match stage {
        ShowStage::Waking => if clock {
            ShowStage::Opening
        } else {
            ShowStage::Failed
        },
        ShowStage::Opening => if code == Some(200u16) {
            ShowStage::Sending
        } else {
            ShowStage::Failed
        },
        other => other,
    }
}

/// The stage after a picture's answers, one after the other.
pub open spec fn stage_after(stage: ShowStage, clock: bool, codes: Seq<Option<u16>>) -> ShowStage
    decreases codes.len(),
{
    if codes.len() == 0 {
        stage
    } else {
        next_stage(stage_after(stage, clock, codes.drop_last()), clock, codes.last())
    }
}

/// A picture is sent if and only if the screen opened its channel when it was asked for that,
/// right after it was asked to wake. What came of waking makes no difference.
pub proof fn law_picture_follows_an_open_channel(clock: bool, codes: Seq<Option<u16>>)
    ensures
        stage_after(ShowStage::Waking, clock, codes) == ShowStage::Sending <==> clock && codes.len()
            >= 2 && codes[1] == Some(200u16),
        codes.len() == 1 && clock ==> stage_after(ShowStage::Waking, clock, codes)
            == ShowStage::Opening,
    decreases codes.len(),
{
    reveal_with_fuel(stage_after, 3);
    if codes.len() > 2 {
        law_picture_follows_an_open_channel(clock, codes.drop_last());
        lemma_stage_settles(clock, codes.drop_last());
    } else if codes.len() == 2 {
        assert(codes.drop_last().drop_last().len() == 0);
    }
}

/// Once two answers have come, the picture is sent or cannot be shown.
proof fn lemma_stage_settles(clock: bool, codes: Seq<Option<u16>>)
    requires
        codes.len() >= 2,
    ensures
        ({
            let stage = stage_after(ShowStage::Waking, clock, codes);
            stage == ShowStage::Sending || stage == ShowStage::Failed
        }),
    decreases codes.len(),
{
    reveal_with_fuel(stage_after, 3);
    if codes.len() > 2 {
        lemma_stage_settles(clock, codes.drop_last());
    } else {
        assert(codes.drop_last().drop_last().len() == 0);
    }
}

/// What the bytes read so far amount to.
pub enum Step {
    /// No reply yet.
    Wait,
    Reply(ResponseView),
    BadReply(MsgErrorView),
    BadFrame(FrameError),
}

/// Drops the report number in front of a frame.
pub open spec fn without_report_number(bytes: Seq<u8>) -> Seq<u8> {
    if bytes.len() >= 2 && bytes[0] == 0x00 && bytes[1] == 0x5a {
        bytes.skip(1)
    } else {
        bytes
    }
}

/// Takes up the frame at the front of `bytes`: what it amounts to, and the bytes behind it. A
/// reply to another request is passed over; a frame that has not arrived whole is left where it
/// is.
pub open spec fn taken_up(bytes: Seq<u8>, ack: Seq<char>) -> (Step, Seq<u8>) {
    match decoded(bytes) {
        Ok((payload, used)) => (
            match parsed(payload) {
                Ok(response) => if header_value(response.headers, "AckNumber"@) == Some(ack) {
                    Step::Reply(response)
                } else {
                    Step::Wait
                },
                Err(error) => Step::BadReply(error),
            },
            bytes.skip(used as int),
        ),
        Err(error) => (
            if error == FrameError::Truncated || error == FrameError::BadEscape {
                Step::Wait
            } else {
                Step::BadFrame(error)
            },
            bytes,
        ),
    }
}

/// What becomes of an exchange with `pending` bytes when `bytes` are read.
pub open spec fn received(pending: Seq<u8>, bytes: Seq<u8>, ack: Seq<char>) -> (Step, Seq<u8>) {
    if bytes.len() == 0 {
        (Step::Wait, pending)
    } else {
        taken_up(without_report_number(pending + bytes), ack)
    }
}

impl Exchange {
    /// Checks that the whole report was written.
    pub fn check_write(&self, wrote: usize) -> (r: Result<(), SessionError>)
        ensures
            match r {
                Ok(_) => wrote >= self.report@.len(),
                Err(error) => wrote < self.report@.len() && error@ == (
                SessionErrorView::ShortWrite {
                    cmd: self.cmd@,
                    wrote: wrote as nat,
                    len: self.report@.len(),
                }),
            },
    {
        if wrote < self.report.len() {
            return Err(
                SessionError::ShortWrite { cmd: self.cmd.clone(), wrote, len: self.report.len() },
            );
        }
        Ok(())
    }

    /// Takes bytes that were read. Gives the reply once it is there, and nothing while it is not.
    pub fn receive(&mut self, bytes: &[u8]) -> (r: Result<Option<Response>, SessionError>)
        ensures
            final(self).cmd == old(self).cmd,
            final(self).seq == old(self).seq,
            final(self).report == old(self).report,
            final(self).pending@ == received(
                old(self).pending@,
                bytes@,
                ack_text(old(self).seq),
            ).1,
            match received(old(self).pending@, bytes@, ack_text(old(self).seq)).0 {
                Step::Wait => r == Ok::<Option<Response>, SessionError>(None),
                Step::Reply(response) => r matches Ok(Some(reply)) && reply@ == response,
                Step::BadReply(why) => r matches Err(error) && error@ == (
                SessionErrorView::BadReply { cmd: old(self).cmd@, why }),
                Step::BadFrame(cause) => r matches Err(error) && error@ == (
                SessionErrorView::BadFrame { cmd: old(self).cmd@, cause }),
            },
    {
        if bytes.len() == 0 {
            return Ok(None);
        }
        self.pending.extend_from_slice(bytes);
        if self.pending.len() >= 2 && self.pending[0] == 0x00 && self.pending[1] == 0x5a {
            let _ = self.pending.remove(0);
        }
        let ghost all = self.pending@;
        assert(all =~= without_report_number(old(self).pending@ + bytes@));
        match decode(self.pending.as_slice()) {
            Ok((frame, used)) => {
                let rest: Vec<u8> = vstd::slice::slice_to_vec(
                    slice_subrange(self.pending.as_slice(), used, self.pending.len()),
                );
                assert(rest@ =~= all.skip(used as int));
                self.pending = rest;
                let response: Response = match parse_response(frame.payload.as_slice()) {
                    Ok(response) => response,
                    Err(why) => {
                        return Err(SessionError::BadReply { cmd: self.cmd.clone(), why });
                    },
                };
                let expected: String = decimal_text(self.seq.wrapping_add(1) as u128);
                let matches_ack: bool = match response.header("AckNumber") {
                    Some(value) => value.to_owned() == expected,
                    None => false,
                };
                if matches_ack {
                    Ok(Some(response))
                } else {
                    Ok(None)
                }
            },
            Err(cause) => {
                if cause == FrameError::Truncated || cause == FrameError::BadEscape {
                    Ok(None)
                } else {
                    Err(SessionError::BadFrame { cmd: self.cmd.clone(), cause })
                }
            },
        }
    }

    /// What to report when the time for a reply has passed.
    pub fn no_reply(&self) -> (r: SessionError)
        ensures
            r@ == (SessionErrorView::NoReply { cmd: self.cmd@ }),
    {
        SessionError::NoReply { cmd: self.cmd.clone() }
    }
}

/// A reply is good when its status is 200.
pub fn expect_ok(response: &Response, cmd: &str) -> (r: Result<(), SessionError>)
    ensures
        match r {
            Ok(_) => response.code == 200,
            Err(error) => response.code != 200 && error@ == (SessionErrorView::Rejected {
                cmd: cmd@,
                code: response.code,
                body: lossy_text(response.body@),
            }),
        },
{
    if response.code == 200 {
        return Ok(());
    }
    Err(
        SessionError::Rejected {
            cmd: cmd.to_owned(),
            code: response.code,
            body: utf8_text_lossy(response.body.as_slice()),
        },
    )
}

/// What a reply document must be for `cmd`: status 200 and a body that is JSON or empty. `what`
/// names the reply in the error.
pub open spec fn is_document(
    response: ResponseView,
    cmd: Seq<char>,
    what: Seq<char>,
    r: Result<serde_json::Value, SessionError>,
) -> bool {
    if response.code != 200 {
        r matches Err(error) && error@ == (SessionErrorView::Rejected {
            cmd,
            code: response.code,
            body: lossy_text(response.body),
        })
    } else if response.body.len() == 0 {
        r matches Ok(value) && value_text(value) == "null"@
    } else {
        match json_text(response.body) {
            Ok(text) => r matches Ok(value) && value_text(value) == text,
            Err(words) => r matches Err(error) && error@ == (SessionErrorView::NotJson {
                what,
                words,
            }),
        }
    }
}

fn document(response: &Response, cmd: &str, what: &str) -> (r: Result<
    serde_json::Value,
    SessionError,
>)
    ensures
        is_document(response@, cmd@, what@, r),
{
    match expect_ok(response, cmd) {
        Ok(_) => match response.json() {
            Ok(value) => Ok(value),
            Err(error) => Err(
                SessionError::NotJson { what: what.to_owned(), words: error.words },
            ),
        },
        Err(error) => Err(error),
    }
}

/// The screen's identity, out of the reply to `connect`.
pub fn connect_reply(response: &Response) -> (r: Result<serde_json::Value, SessionError>)
    ensures
        is_document(response@, "conn"@, "connect"@, r),
{
    document(response, "conn", "connect")
}

/// The screen's state, out of the reply to `state`.
pub fn state_reply(response: &Response) -> (r: Result<serde_json::Value, SessionError>)
    ensures
        is_document(response@, "devStateGet"@, "state"@, r),
{
    document(response, "devStateGet", "state")
}

/// Whether the screen opened its picture channel.
pub fn channel_reply(response: &Response) -> (r: Result<(), SessionError>)
    ensures
        match r {
            Ok(_) => response.code == 200,
            Err(error) => response.code != 200 && error@ == (SessionErrorView::PictureRefused {
                body: lossy_text(response.body@),
            }),
        },
{
    if response.code != 200 {
        return Err(
            SessionError::PictureRefused { body: utf8_text_lossy(response.body.as_slice()) },
        );
    }
    Ok(())
}

/// How many picture bytes one report carries.
pub const CHUNK: usize = 1000;

/// How long a picture report is.
pub const REPORT: usize = 1025;

/// How many reports a picture of `len` bytes takes.
pub open spec fn report_count(len: nat) -> nat {
    (len + 999) / 1000
}

/// The block count that the reports announce. It is at least one.
pub open spec fn announced_blocks(len: nat) -> nat {
    if len == 0 {
        1
    } else {
        report_count(len)
    }
}

/// The bytes that report `i` carries.
pub open spec fn chunk_at(jpeg: Seq<u8>, i: nat) -> Seq<u8> {
    let from = 1000 * i as int;
    jpeg.subrange(
        from,
        if from + 1000 < jpeg.len() {
            from + 1000
        } else {
            jpeg.len() as int
        },
    )
}

/// `n` zero bytes.
pub open spec fn zeros(n: nat) -> Seq<u8> {
    Seq::new(n, |i: int| 0u8)
}

/// A picture report: report number zero, tag `5C`, the length of the value, then the value: a
/// 21-byte header (picture number, block count, block index, flag 1, 15 zero bytes) and the
/// picture bytes. Zeros fill it up to 1025 bytes.
pub open spec fn picture_report(id: u8, blocks: nat, index: nat, chunk: Seq<u8>) -> Seq<u8> {
    seq![0x00u8, 0x5cu8] + big_endian(21 + chunk.len()) + seq![id] + big_endian(blocks)
        + big_endian(index) + seq![0x01u8] + zeros(15) + chunk + zeros(
        (1000 - chunk.len()) as nat,
    )
}

/// The block index of report `i`: it stops at the largest that its field holds.
pub open spec fn block_index(i: nat) -> nat {
    if i > 0xffff {
        0xffff
    } else {
        i
    }
}

/// Report `i` of a picture.
pub open spec fn nth_report(jpeg: Seq<u8>, id: u8, i: nat) -> Seq<u8> {
    picture_report(id, announced_blocks(jpeg.len()), block_index(i), chunk_at(jpeg, i))
}

/// The picture number: the low 8 bits of the clock's seconds, or 1 without a clock.
pub open spec fn transfer_id(clock_secs: Option<u64>) -> u8 {
    match clock_secs {
        Some(secs) => (secs % 256) as u8,
        None => 1,
    }
}

/// A picture on its way.
pub struct Transfer<'a> {
    pub jpeg: &'a [u8],
    pub id: u8,
    pub blocks: u16,
    pub offset: usize,
    pub index: u16,
}

impl<'a> Transfer<'a> {
    /// How many reports have been made.
    pub open spec fn sent(self) -> nat {
        report_count(self.offset as nat)
    }

    /// Whole reports have been made, and the fields go with them.
    pub open spec fn wf(self) -> bool {
        &&& self.offset <= self.jpeg@.len()
        &&& self.offset < self.jpeg@.len() ==> self.offset as nat % 1000 == 0
        &&& self.index as nat == block_index(self.sent())
        &&& self.blocks as nat == announced_blocks(self.jpeg@.len()) % 65536
    }

    /// A picture of which nothing has been sent.
    pub fn new(jpeg: &'a [u8], clock_secs: Option<u64>) -> (r: Transfer<'a>)
        ensures
            r.jpeg@ == jpeg@,
            r.id == transfer_id(clock_secs),
            r.sent() == 0,
            r.wf(),
    {
        let len: usize = jpeg.len();
        let whole: usize = len / 1000;
        let count: usize = if len % 1000 == 0 {
            whole
        } else {
            whole + 1
        };
        let blocks: usize = if count == 0 {
            1
        } else {
            count
        };
        assert(blocks as nat == announced_blocks(jpeg@.len()));
        let id: u8 = match clock_secs {
            Some(secs) => (secs % 256) as u8,
            None => 1,
        };
        Transfer { jpeg, id, blocks: (blocks % 65536) as u16, offset: 0, index: 0 }
    }

    /// Fills `report` with the next report of the picture. There is none once every byte has been
    /// sent, or when the transfer is cancelled; `report` then stays as it is.
    pub fn next_report(&mut self, report: &mut Vec<u8>, cancelled: bool) -> (r: bool)
        requires
            old(self).wf(),
        ensures
            final(self).wf(),
            final(self).jpeg == old(self).jpeg,
            final(self).id == old(self).id,
            r == (!cancelled && old(self).sent() < report_count(old(self).jpeg@.len())),
            r ==> final(report)@ == nth_report(old(self).jpeg@, old(self).id, old(self).sent())
                && final(self).sent() == old(self).sent() + 1,
            !r ==> final(report)@ == old(report)@ && *final(self) == *old(self),
    {
        if self.offset >= self.jpeg.len() || cancelled {
            return false;
        }
        let len: usize = self.jpeg.len();
        let ghost i = self.sent();
        proof {
            lemma_one_more_report(self.offset as nat, self.offset as nat, len as nat);
        }
        let end: usize = if len - self.offset > CHUNK {
            self.offset + CHUNK
        } else {
            len
        };
        let chunk: &[u8] = slice_subrange(self.jpeg, self.offset, end);
        assert(chunk@ == chunk_at(self.jpeg@, i));
        fill_report(report, self.id, self.blocks, self.index, chunk);
        self.offset = end;
        if self.index < 0xffff {
            self.index = self.index + 1;
        }
        proof {
            lemma_two_bytes_of(announced_blocks(self.jpeg@.len()));
            lemma_one_more_report(old(self).offset as nat, end as nat, len as nat);
        }
        true
    }
}

proof fn lemma_two_bytes_of(n: nat)
    ensures
        big_endian(n % 65536) == big_endian(n),
{
    let q = n as int / 65536;
    let r = n as int % 65536;
    let k = r / 256;
    assert(n == 65536 * q + r);
    assert(n as int / 256 == 256 * q + k);
    lemma_mod_multiples_vanish(q, k, 256);
    lemma_mod_multiples_vanish(256 * q, r, 256);
}

proof fn lemma_one_more_report(offset: nat, end: nat, len: nat)
    requires
        offset < len,
        offset % 1000 == 0,
    ensures
        offset == 1000 * report_count(offset),
        report_count(offset) < report_count(len),
        end == offset + 1000 ==> report_count(end) == report_count(offset) + 1 && end % 1000 == 0,
        end == len && len - offset <= 1000 ==> report_count(end) == report_count(offset) + 1,
{
}

/// Adds zeros up to `len` bytes.
fn pad(report: &mut Vec<u8>, len: usize)
    requires
        old(report)@.len() <= len,
    ensures
        final(report)@ == old(report)@ + zeros((len - old(report)@.len()) as nat),
{
    let ghost before = report@;
    report.resize(len, 0);
    assert forall|i: int| 0 <= i < before.len() implies #[trigger] report@[i] == before[i] by {
        assert(report@.subrange(0, before.len() as int)[i] == report@[i]);
    }
    assert(report@ =~= before + zeros((len - before.len()) as nat));
}

/// Writes a picture report over `report`.
fn fill_report(report: &mut Vec<u8>, id: u8, blocks: u16, index: u16, chunk: &[u8])
    requires
        chunk@.len() <= 1000,
    ensures
        final(report)@ == picture_report(id, blocks as nat, index as nat, chunk@),
{
    report.clear();
    report.push(0x00);
    report.push(0x5c);
    let value_len: u16 = 21 + chunk.len() as u16;
    report.push((value_len / 256) as u8);
    report.push((value_len % 256) as u8);
    report.push(id);
    report.push((blocks / 256) as u8);
    report.push((blocks % 256) as u8);
    report.push((index / 256) as u8);
    report.push((index % 256) as u8);
    report.push(0x01);
    let ghost head = seq![0x00u8, 0x5cu8] + big_endian(21 + chunk@.len()) + seq![id] + big_endian(
        blocks as nat,
    ) + big_endian(index as nat) + seq![0x01u8];
    assert(report@ =~= head);
    pad(report, 25);
    report.extend_from_slice(chunk);
    assert(report@ =~= head + zeros(15) + chunk@);
    pad(report, REPORT);
    assert(report@ =~= picture_report(id, blocks as nat, index as nat, chunk@));
}

/// Checks that the device took a picture report.
pub fn check_picture_write(wrote: usize) -> (r: Result<(), SessionError>)
    ensures
        match r {
            Ok(_) => wrote > 0,
            Err(error) => wrote == 0 && error@ is PictureNotTaken,
        },
{
    if wrote == 0 {
        return Err(SessionError::PictureNotTaken);
    }
    Ok(())
}

/// A request goes out as one report from which the device reads the same request back.
pub proof fn law_call_report_carries_the_request(
    cmd: Seq<char>,
    seq: u32,
    date_ms: u128,
    body: Option<Seq<u8>>,
)
    requires
        request_bytes(cmd, seq as nat, date_ms as nat, seq![], "json"@, body).len() + 5 <= 0xffff,
    ensures
        ({
            let report = call_report(cmd, seq, date_ms, body);
            &&& report[0] == 0
            &&& decoded(report.skip(1)) == Ok::<_, FrameError>(
                (
                    request_bytes(cmd, seq as nat, date_ms as nat, seq![], "json"@, body),
                    (report.len() - 1) as nat,
                ),
            )
        }),
{
    let payload = request_bytes(cmd, seq as nat, date_ms as nat, seq![], "json"@, body);
    let report = call_report(cmd, seq, date_ms, body);
    law_decode_undoes_encode(payload, seq![]);
    assert(report.skip(1) =~= wire(payload) + seq![]);
}

/// A power event without quotes, backslashes and control characters, as both are that the screen
/// knows, is sent as plain JSON with the event in it.
pub proof fn law_plain_power_body(event: Seq<char>)
    requires
        forall|i: int|
            0 <= i < event.len() ==> #[trigger] event[i] != '"' && event[i] != '\\'
                && event[i] as u32 >= 0x20,
    ensures
        power_body(event) == "{\"event\":\""@ + event + "\"}"@,
{
    reveal_strlit("event");
    reveal_strlit("{\"event\":\"");
    reveal_strlit("\"}");
    law_plain_text_is_quoted_as_it_stands("event"@);
    law_plain_text_is_quoted_as_it_stands(event);
    assert(power_body(event) =~= "{\"event\":\""@ + event + "\"}"@);
}

/// The brightness and the rotation are sent as plain JSON with one number in it.
pub proof fn law_number_bodies(value: u8, degrees: u16)
    ensures
        brightness_body(value) == "{\"value\":"@ + decimal(value as nat) + "}"@,
        rotate_body(degrees) == "{\"degree\":"@ + decimal(degrees as nat) + "}"@,
{
    reveal_strlit("value");
    reveal_strlit("degree");
    reveal_strlit("{\"value\":");
    reveal_strlit("{\"degree\":");
    reveal_strlit("}");
    law_plain_text_is_quoted_as_it_stands("value"@);
    law_plain_text_is_quoted_as_it_stands("degree"@);
    assert(brightness_body(value) =~= "{\"value\":"@ + decimal(value as nat) + "}"@);
    assert(rotate_body(degrees) =~= "{\"degree\":"@ + decimal(degrees as nat) + "}"@);
}

/// The bytes of all the pieces, one after the other.
pub open spec fn all_bytes(pieces: Seq<Seq<u8>>) -> Seq<u8>
    decreases pieces.len(),
{
    if pieces.len() == 0 {
        seq![]
    } else {
        pieces[0] + all_bytes(pieces.skip(1))
    }
}

/// What becomes of an exchange with `pending` bytes when the pieces are read one after the other,
/// until something comes of them.
pub open spec fn received_all(
    pending: Seq<u8>,
    pieces: Seq<Seq<u8>>,
    ack: Seq<char>,
) -> (Step, Seq<u8>)
    decreases pieces.len(),
{
    if pieces.len() == 0 {
        (Step::Wait, pending)
    } else {
        match received(pending, pieces[0], ack) {
            (Step::Wait, rest) => received_all(rest, pieces.skip(1), ack),
            outcome => outcome,
        }
    }
}

/// The frame of a response.
pub open spec fn reply_frame(response: ResponseView) -> Seq<u8> {
    wire(response_bytes(response))
}

/// A response that one frame can carry and that reads back as it was written.
pub open spec fn is_sendable(response: ResponseView) -> bool {
    &&& well_formed(response)
    &&& response_bytes(response).len() + 5 <= 0xffff
}

proof fn lemma_whole_reply(response: ResponseView, rest: Seq<u8>, ack: Seq<char>)
    requires
        is_sendable(response),
    ensures
        taken_up(reply_frame(response) + rest, ack) == (
            if header_value(response.headers, "AckNumber"@) == Some(ack) {
                Step::Reply(response)
            } else {
                Step::Wait
            },
            rest,
        ),
{
    law_response_reads_back(response);
    law_decode_undoes_encode(response_bytes(response), rest);
    assert((reply_frame(response) + rest).skip(reply_frame(response).len() as int) =~= rest);
}

/// However a reply is cut into pieces, the exchange waits until it is whole and then gives it.
pub proof fn law_reply_arrives_in_pieces(
    response: ResponseView,
    pending: Seq<u8>,
    pieces: Seq<Seq<u8>>,
    ack: Seq<char>,
)
    requires
        is_sendable(response),
        header_value(response.headers, "AckNumber"@) == Some(ack),
        pending.len() < reply_frame(response).len(),
        pending + all_bytes(pieces) == reply_frame(response),
    ensures
        received_all(pending, pieces, ack) == (Step::Reply(response), Seq::<u8>::empty()),
    decreases pieces.len(),
{
    let frame = reply_frame(response);
    if pieces.len() == 0 {
        assert(pending + all_bytes(pieces) =~= pending);
    } else {
        let piece = pieces[0];
        let rest = pieces.skip(1);
        let arrived = pending + piece;
        assert(arrived + all_bytes(rest) =~= frame);
        if piece.len() == 0 {
            assert(pending + all_bytes(rest) =~= frame);
            law_reply_arrives_in_pieces(response, pending, rest, ack);
        } else {
            assert(arrived =~= frame.take(arrived.len() as int));
            assert(arrived[0] == frame[0]);
            assert(frame[0] == 0x5a);
            if arrived.len() < frame.len() {
                law_part_of_a_frame_is_incomplete(response_bytes(response), arrived.len() as int);
                law_reply_arrives_in_pieces(response, arrived, rest, ack);
            } else {
                assert(arrived =~= frame + Seq::<u8>::empty());
                lemma_whole_reply(response, Seq::empty(), ack);
            }
        }
    }
}

/// The report number that may stand in front of a reply makes no difference.
pub proof fn law_report_number_is_dropped(response: ResponseView, k: int, ack: Seq<char>)
    requires
        1 <= k <= reply_frame(response).len(),
    ensures
        received(
            Seq::<u8>::empty(),
            seq![0u8] + reply_frame(response).take(k),
            ack,
        ) == received(Seq::<u8>::empty(), reply_frame(response).take(k), ack),
{
    let part = reply_frame(response).take(k);
    assert(part[0] == 0x5a);
    assert(Seq::<u8>::empty() + part =~= part);
    assert((Seq::<u8>::empty() + (seq![0u8] + part)).skip(1) =~= part);
}

/// A reply to another request is passed over, and what follows it is kept.
pub proof fn law_other_replies_are_passed_over(
    other: ResponseView,
    rest: Seq<u8>,
    ack: Seq<char>,
)
    requires
        is_sendable(other),
        header_value(other.headers, "AckNumber"@) != Some(ack),
    ensures
        received(Seq::<u8>::empty(), reply_frame(other) + rest, ack) == (Step::Wait, rest),
{
    let bytes = reply_frame(other) + rest;
    assert(bytes[0] == 0x5a);
    assert(Seq::<u8>::empty() + bytes =~= bytes);
    lemma_whole_reply(other, rest, ack);
}

/// An exchange never gives a reply that does not carry its own number.
pub proof fn law_replies_carry_the_number(pending: Seq<u8>, bytes: Seq<u8>, seq: u32)
    ensures
        match received(pending, bytes, ack_text(seq)).0 {
            Step::Reply(response) => header_value(response.headers, "AckNumber"@) == Some(
                ack_text(seq),
            ),
            _ => true,
        },
{
}

/// Requests with different numbers never wait for the same reply.
pub proof fn law_numbers_tell_requests_apart(a: u32, b: u32)
    requires
        a != b,
    ensures
        ack_text(a) != ack_text(b),
{
    if ack_text(a) == ack_text(b) {
        lemma_decimal_injective(next_number(a) as nat, next_number(b) as nat);
    }
}

/// What a picture report carries, as its length field tells.
pub open spec fn carried_bytes(report: Seq<u8>) -> Seq<u8> {
    report.subrange(25, 25 + (report[2] as int * 256 + report[3] as int - 21))
}

/// The fields of a picture report can be read back from its 1025 bytes.
pub proof fn law_picture_report_reads_back(id: u8, blocks: u16, index: u16, chunk: Seq<u8>)
    requires
        chunk.len() <= 1000,
    ensures
        ({
            let report = picture_report(id, blocks as nat, index as nat, chunk);
            &&& report.len() == 1025
            &&& report[0] == 0x00
            &&& report[1] == 0x5c
            &&& report[4] == id
            &&& report[5] as nat * 256 + report[6] as nat == blocks
            &&& report[7] as nat * 256 + report[8] as nat == index
            &&& report[9] == 0x01
            &&& carried_bytes(report) == chunk
        }),
{
    let report = picture_report(id, blocks as nat, index as nat, chunk);
    assert(report[2] as int * 256 + report[3] as int == 21 + chunk.len());
    assert(carried_bytes(report) =~= chunk);
}

/// What the first `n` reports of a picture carry, one after the other, as a device reads them.
pub open spec fn carried(jpeg: Seq<u8>, id: u8, n: nat) -> Seq<u8>
    decreases n,
{
    if n == 0 {
        seq![]
    } else {
        carried(jpeg, id, (n - 1) as nat) + carried_bytes(nth_report(jpeg, id, (n - 1) as nat))
    }
}

proof fn lemma_report_carries_its_chunk(jpeg: Seq<u8>, id: u8, i: nat)
    requires
        i < report_count(jpeg.len()),
    ensures
        1 <= chunk_at(jpeg, i).len() <= 1000,
        nth_report(jpeg, id, i).len() == 1025,
        carried_bytes(nth_report(jpeg, id, i)) == chunk_at(jpeg, i),
{
    let chunk = chunk_at(jpeg, i);
    let report = nth_report(jpeg, id, i);
    assert(report[2] as int * 256 + report[3] as int == 21 + chunk.len());
    assert(carried_bytes(report) =~= chunk);
}

proof fn lemma_carried(jpeg: Seq<u8>, id: u8, n: nat)
    requires
        n <= report_count(jpeg.len()),
    ensures
        carried(jpeg, id, n) == jpeg.take(
            if 1000 * n < jpeg.len() {
                1000 * n as int
            } else {
                jpeg.len() as int
            },
        ),
    decreases n,
{
    if n == 0 {
        assert(carried(jpeg, id, n) =~= jpeg.take(0));
    } else {
        let m = (n - 1) as nat;
        lemma_carried(jpeg, id, m);
        lemma_report_carries_its_chunk(jpeg, id, m);
        assert(1000 * m < jpeg.len());
        let to = if 1000 * n < jpeg.len() {
            1000 * n as int
        } else {
            jpeg.len() as int
        };
        assert(carried(jpeg, id, n) =~= jpeg.take(to));
    }
}

/// The reports of a picture carry the whole picture: each is 1025 bytes long and carries at least
/// one byte and at most 1000, and what they carry, put together in order, is the picture.
pub proof fn law_reports_carry_the_picture(jpeg: Seq<u8>, id: u8)
    ensures
        carried(jpeg, id, report_count(jpeg.len())) == jpeg,
        forall|i: nat|
            i < report_count(jpeg.len()) ==> {
                let report = #[trigger] nth_report(jpeg, id, i);
                report.len() == 1025 && 1 <= carried_bytes(report).len() <= 1000
            },
{
    lemma_carried(jpeg, id, report_count(jpeg.len()));
    assert(jpeg.take(jpeg.len() as int) =~= jpeg);
    assert forall|i: nat| i < report_count(jpeg.len()) implies {
        let report = #[trigger] nth_report(jpeg, id, i);
        report.len() == 1025 && 1 <= carried_bytes(report).len() <= 1000
    } by {
        lemma_report_carries_its_chunk(jpeg, id, i);
    }
}

/// The screen is the interface of vendor `0B05`, product `1DE7`, usage page `FF00` and usage 1
/// that has the lowest number, and the first of those; where there is none, none is found.
pub proof fn law_screen_is_the_lowest_interface(
    devices: &[DeviceEntry],
    k: int,
    r: Result<usize, SessionError>,
)
    requires
        call_ensures(find_screen, (devices,), r),
        0 <= k < devices@.len(),
        devices@[k].vendor_id == 0x0b05,
        devices@[k].product_id == 0x1de7,
        devices@[k].usage_page == 0xff00,
        devices@[k].usage == 1,
    ensures
        r is Ok,
        r->Ok_0 < devices@.len(),
        devices@[r->Ok_0 as int].vendor_id == 0x0b05,
        devices@[r->Ok_0 as int].product_id == 0x1de7,
        devices@[r->Ok_0 as int].usage_page == 0xff00,
        devices@[r->Ok_0 as int].usage == 1,
        devices@[r->Ok_0 as int].interface_number <= devices@[k].interface_number,
        k < r->Ok_0 ==> devices@[r->Ok_0 as int].interface_number < devices@[k].interface_number,
{
    assert(is_screen(devices@[k]));
    match r {
        Ok(i) => {
            assert(is_chosen_screen(devices@, i as int));
        },
        Err(error) => {
            assert(has_no_screen(devices@));
        },
    }
}

/// Where no interface has all four, no screen is found.
pub proof fn law_other_devices_are_no_screen(
    devices: &[DeviceEntry],
    r: Result<usize, SessionError>,
)
    requires
        call_ensures(find_screen, (devices,), r),
        forall|i: int|
            0 <= i < devices@.len() ==> (#[trigger] devices@[i]).vendor_id != 0x0b05
                || devices@[i].product_id != 0x1de7 || devices@[i].usage_page != 0xff00
                || devices@[i].usage != 1,
    ensures
        r matches Err(error) && error@.text()
            == "no ROG Strix LC IV screen found (USB 0B05:1DE7 interface 0)"@,
{
    if let Ok(i) = r {
        assert(is_chosen_screen(devices@, i as int));
    }
}

/// A request is one report: a zero, and the frame of the request with the number that was next.
/// Nothing has been read for it yet. Numbers count up and start over after `FFFF_FFFF`.
pub proof fn law_request_goes_out_with_the_next_number(
    panel: &mut Panel,
    cmd: &str,
    date_ms: u128,
    body: Option<&[u8]>,
    payload: Vec<u8>,
    bytes: &[u8],
    frame: Vec<u8>,
    r: Exchange,
)
    requires
        call_ensures(Panel::call, (panel, cmd, date_ms, body), r),
        call_ensures(request, (cmd, old(panel).seq, date_ms, body), payload),
        call_ensures(encode, (bytes,), frame),
        bytes@ == payload@,
    ensures
        final(panel).seq == (old(panel).seq + 1) % 0x1_0000_0000,
        r.cmd@ == cmd@,
        r.seq == old(panel).seq,
        r.pending@.len() == 0,
        r.report@ == seq![0u8] + frame@,
{
}

/// Connecting and reading the state are requests without a body, and opening the channel is one
/// with a fixed body.
pub proof fn law_plain_requests(
    a: &mut Panel,
    b: &mut Panel,
    c: &mut Panel,
    d: &mut Panel,
    date_ms: u128,
    connect: Exchange,
    state: Exchange,
    channel: Exchange,
    skipped: (),
)
    requires
        call_ensures(Panel::connect, (a, date_ms), connect),
        call_ensures(Panel::state, (b, date_ms), state),
        call_ensures(Panel::open_channel, (c, date_ms), channel),
        call_ensures(Panel::skip, (d,), skipped),
    ensures
        is_plain_call(connect, "conn"@, old(a).seq, final(a).seq, date_ms, None),
        is_plain_call(state, "devStateGet"@, old(b).seq, final(b).seq, date_ms, None),
        is_plain_call(
            channel,
            "realtimeDisplay"@,
            old(c).seq,
            final(c).seq,
            date_ms,
            Some("{\"enable\":true}"@),
        ),
        final(d).seq == (old(d).seq + 1) % 0x1_0000_0000,
{
}

/// A power request carries the event that is asked for.
pub proof fn law_power_request_carries_the_event(
    panel: &mut Panel,
    event: &str,
    date_ms: u128,
    r: Exchange,
)
    requires
        call_ensures(Panel::power, (panel, event, date_ms), r),
        forall|i: int|
            0 <= i < event@.len() ==> #[trigger] event@[i] != '"' && event@[i] != '\\'
                && event@[i] as u32 >= 0x20,
    ensures
        is_plain_call(
            r,
            "power"@,
            old(panel).seq,
            final(panel).seq,
            date_ms,
            Some("{\"event\":\""@ + event@ + "\"}"@),
        ),
{
    law_plain_power_body(event@);
}

/// A brightness request carries the value that is asked for.
pub proof fn law_brightness_request_carries_the_value(
    panel: &mut Panel,
    value: u8,
    date_ms: u128,
    r: Exchange,
)
    requires
        call_ensures(Panel::brightness, (panel, value, date_ms), r),
    ensures
        is_plain_call(
            r,
            "brightness"@,
            old(panel).seq,
            final(panel).seq,
            date_ms,
            Some("{\"value\":"@ + decimal(value as nat) + "}"@),
        ),
{
    law_number_bodies(value, 0);
}

/// A rotation request carries the degrees that are asked for.
pub proof fn law_rotation_request_carries_the_degrees(
    panel: &mut Panel,
    degrees: u16,
    date_ms: u128,
    r: Exchange,
)
    requires
        call_ensures(Panel::rotate, (panel, degrees, date_ms), r),
    ensures
        is_plain_call(
            r,
            "rotate"@,
            old(panel).seq,
            final(panel).seq,
            date_ms,
            Some("{\"degree\":"@ + decimal(degrees as nat) + "}"@),
        ),
{
    law_number_bodies(0, degrees);
}

/// The exchange is request `seq` with this command and body, and the next one is the number after
/// it.
pub open spec fn is_plain_call(
    exchange: Exchange,
    cmd: Seq<char>,
    seq: u32,
    next: u32,
    date_ms: u128,
    body: Option<Seq<char>>,
) -> bool {
    &&& exchange.cmd@ == cmd
    &&& exchange.seq == seq
    &&& next == (seq + 1) % 0x1_0000_0000
    &&& exchange.pending@.len() == 0
    &&& exchange.report@ == seq![0u8] + wire(
        request_bytes(
            cmd,
            seq as nat,
            date_ms as nat,
            seq![],
            "json"@,
            match body {
                Some(text) => Some(encode_utf8(text)),
                None => None,
            },
        ),
    )
}

/// What comes of the bytes that are read for a request: they join those that wait, without the
/// report number that may stand before a frame; a whole frame leaves the rest behind it; only the
/// response that acknowledges this very request is the reply; an incomplete frame waits; any other
/// frame is an error that names the command.
pub proof fn law_reply_is_the_acknowledged_response(
    exchange: &mut Exchange,
    bytes: &[u8],
    r: Result<Option<Response>, SessionError>,
)
    requires
        call_ensures(Exchange::receive, (exchange, bytes), r),
    ensures
        final(exchange).cmd == old(exchange).cmd,
        final(exchange).seq == old(exchange).seq,
        final(exchange).report == old(exchange).report,
        bytes@.len() == 0 ==> r == Ok::<Option<Response>, SessionError>(None) && final(exchange).pending@
            == old(exchange).pending@,
        bytes@.len() > 0 ==> {
            let all = old(exchange).pending@ + bytes@;
            let here = if all.len() >= 2 && all[0] == 0 && all[1] == 0x5a {
                all.skip(1)
            } else {
                all
            };
            let ack = decimal(((old(exchange).seq + 1) % 0x1_0000_0000) as nat);
            match decoded(here) {
                Ok((payload, used)) => {
                    &&& final(exchange).pending@ == here.skip(used as int)
                    &&& match parsed(payload) {
                        Ok(response) => if header_value(response.headers, "AckNumber"@) == Some(
                            ack,
                        ) {
                            r matches Ok(Some(reply)) && reply@ == response
                        } else {
                            r == Ok::<Option<Response>, SessionError>(None)
                        },
                        Err(why) => r matches Err(error) && error@.text() == old(exchange).cmd@
                            + " response was not a text message"@ && error@.cause_text() == Some(
                            why.text(),
                        ),
                    }
                },
                Err(error) => {
                    &&& final(exchange).pending@ == here
                    &&& if error == FrameError::Truncated || error == FrameError::BadEscape {
                        r == Ok::<Option<Response>, SessionError>(None)
                    } else {
                        r matches Err(wrong) && wrong@.text() == old(exchange).cmd@
                            + " returned a bad frame"@ && wrong@.cause_text() == Some(error.text())
                    }
                },
            }
        },
{
}

/// A request must be written whole, a picture report must be taken, a reply must have status 200,
/// and each failure says what it is about.
pub proof fn law_failures_say_what_they_are_about(
    exchange: &Exchange,
    wrote: usize,
    response: &Response,
    cmd: &str,
    written: Result<(), SessionError>,
    taken: Result<(), SessionError>,
    late: SessionError,
    ok: Result<(), SessionError>,
    opened: Result<(), SessionError>,
)
    requires
        call_ensures(Exchange::check_write, (exchange, wrote), written),
        call_ensures(check_picture_write, (wrote,), taken),
        call_ensures(Exchange::no_reply, (exchange,), late),
        call_ensures(expect_ok, (response, cmd), ok),
        call_ensures(channel_reply, (response,), opened),
    ensures
        written is Ok <==> wrote >= exchange.report@.len(),
        written matches Err(error) ==> error@.text() == exchange.cmd@ + " wrote "@ + decimal(
            wrote as nat,
        ) + " of "@ + decimal(exchange.report@.len()) + " bytes"@,
        taken is Ok <==> wrote > 0,
        taken matches Err(error) ==> error@.text() == "the pump did not accept the picture"@,
        late@.text() == exchange.cmd@ + " got no matching reply within 2 seconds"@,
        ok is Ok <==> response.code == 200,
        ok matches Err(error) ==> error@.text() == cmd@ + " was rejected with status "@ + decimal(
            response.code as nat,
        ) + ": "@ + lossy_text(response.body@),
        opened is Ok <==> response.code == 200,
        opened matches Err(error) ==> error@.text() == "the screen refused the picture channel: "@
            + lossy_text(response.body@),
{
}

/// A document is read from a reply with status 200: an empty body is `null`, and any other body is
/// the JSON that it spells, or a complaint that names the reply and says why it is none.
pub proof fn law_documents_come_from_good_replies(
    response: &Response,
    connect: Result<serde_json::Value, SessionError>,
    state: Result<serde_json::Value, SessionError>,
)
    requires
        call_ensures(connect_reply, (response,), connect),
        call_ensures(state_reply, (response,), state),
    ensures
        response.code != 200 ==> connect is Err && state is Err,
        response.code != 200 ==> connect->Err_0@.text() == "conn was rejected with status "@
            + decimal(response.code as nat) + ": "@ + lossy_text(response.body@),
        response.code != 200 ==> state->Err_0@.text() == "devStateGet was rejected with status "@
            + decimal(response.code as nat) + ": "@ + lossy_text(response.body@),
        response.code == 200 && response.body@.len() == 0 ==> connect is Ok && state is Ok
            && value_text(connect->Ok_0) == "null"@ && value_text(state->Ok_0) == "null"@,
        response.code == 200 && response.body@.len() > 0 ==> match json_text(response.body@) {
            Ok(text) => connect is Ok && state is Ok && value_text(connect->Ok_0) == text
                && value_text(state->Ok_0) == text,
            Err(words) => connect is Err && state is Err && connect->Err_0@.text()
                == "connect response was not JSON"@ && state->Err_0@.text()
                == "state response was not JSON"@ && connect->Err_0@.cause_text() == Some(words)
                && state->Err_0@.cause_text() == Some(words),
        },
{
    reveal_strlit("conn");
    reveal_strlit("devStateGet");
    reveal_strlit("connect");
    reveal_strlit("state");
    reveal_strlit(" was rejected with status ");
    reveal_strlit("conn was rejected with status ");
    reveal_strlit("devStateGet was rejected with status ");
    reveal_strlit(" response was not JSON");
    reveal_strlit("connect response was not JSON");
    reveal_strlit("state response was not JSON");
    assert("conn"@ + " was rejected with status "@ =~= "conn was rejected with status "@);
    assert("devStateGet"@ + " was rejected with status "@
        =~= "devStateGet was rejected with status "@);
    assert("connect"@ + " response was not JSON"@ =~= "connect response was not JSON"@);
    assert("state"@ + " response was not JSON"@ =~= "state response was not JSON"@);
}

/// An empty picture is refused, a cancelled one needs nothing, and any other begins by waking the
/// screen. The channel is asked for next, whatever came of that; only where it is answered with
/// 200 is the picture sent, from its first byte, under a number from the clock.
pub proof fn law_showing_a_picture(
    a: &mut Panel,
    b: &mut Panel,
    c: &mut Panel,
    d: &Panel,
    jpeg: &[u8],
    cancelled: bool,
    date_ms: u128,
    clock_secs: Option<u64>,
    answer: Option<&Response>,
    begun: Result<Option<Exchange>, SessionError>,
    woken: (ShowStage, ShowAct),
    opened: (ShowStage, ShowAct),
    pushed: Transfer,
)
    requires
        call_ensures(Panel::show_jpeg, (a, jpeg, cancelled, date_ms), begun),
        call_ensures(
            Panel::show_step,
            (b, ShowStage::Waking, answer, jpeg, Some(date_ms), clock_secs),
            woken,
        ),
        call_ensures(
            Panel::show_step,
            (c, ShowStage::Opening, answer, jpeg, Some(date_ms), clock_secs),
            opened,
        ),
        call_ensures(Panel::push_jpeg, (d, jpeg, clock_secs), pushed),
    ensures
        jpeg@.len() == 0 ==> begun is Err && begun->Err_0@.text() == "picture is empty"@,
        jpeg@.len() > 0 && cancelled ==> begun == Ok::<Option<Exchange>, SessionError>(None),
        jpeg@.len() == 0 || cancelled ==> final(a).seq == old(a).seq,
        jpeg@.len() > 0 && !cancelled ==> (begun matches Ok(Some(exchange)) && is_plain_call(
            exchange,
            "power"@,
            old(a).seq,
            final(a).seq,
            date_ms,
            Some("{\"event\":\"resume\"}"@),
        )),
        woken.0 == ShowStage::Opening,
        woken.1 matches ShowAct::Ask { exchange } && is_plain_call(
            exchange,
            "realtimeDisplay"@,
            old(b).seq,
            final(b).seq,
            date_ms,
            Some("{\"enable\":true}"@),
        ),
        opened.1 is Send <==> (answer matches Some(response) && response.code == 200),
        opened.1 is Send <==> opened.0 == ShowStage::Sending,
        opened.1 matches ShowAct::Send { transfer } ==> begins(transfer, jpeg@, clock_secs),
        opened.1 is Refuse <==> (answer matches Some(response) && response.code != 200),
        opened.1 matches ShowAct::Refuse { error } ==> error@.text()
            == "the screen refused the picture channel: "@ + lossy_text(answer->0.body@),
        begins(pushed, jpeg@, clock_secs),
{
    reveal_strlit("resume");
    reveal_strlit("{\"event\":\"");
    reveal_strlit("\"}");
    reveal_strlit("{\"event\":\"resume\"}");
    law_plain_power_body("resume"@);
    assert("{\"event\":\""@ + "resume"@ + "\"}"@ =~= "{\"event\":\"resume\"}"@);
}

/// Nothing of the picture has been sent, and its number is the low 8 bits of the clock's seconds,
/// or 1 without a clock.
pub open spec fn begins(transfer: Transfer, jpeg: Seq<u8>, clock_secs: Option<u64>) -> bool {
    &&& transfer.jpeg@ == jpeg
    &&& transfer.offset == 0
    &&& transfer.wf()
    &&& transfer.id == match clock_secs {
        Some(secs) => secs as int % 256,
        None => 1,
    }
}

/// As long as bytes are left and nothing is cancelled, there is a next report. It takes up to 1000
/// bytes from where the last one ended. Byte by byte: a zero, the tag `5C`, the length of what
/// follows, the picture's number, how many reports the picture takes, the index of this one, a 1,
/// 15 zeros, the bytes, and zeros up to 1025.
#[verifier::spinoff_prover]
#[verifier::rlimit(40)]
pub proof fn law_report_byte_by_byte(
    transfer: &mut Transfer,
    report: &mut Vec<u8>,
    cancelled: bool,
    i: int,
    r: bool,
)
    requires
        call_ensures(Transfer::next_report, (transfer, report, cancelled), r),
        old(transfer).wf(),
        0 <= i < 1025,
    ensures
        final(transfer).wf(),
        final(transfer).jpeg == old(transfer).jpeg,
        final(transfer).id == old(transfer).id,
        r <==> !cancelled && old(transfer).offset < old(transfer).jpeg@.len(),
        !r ==> final(report)@ == old(report)@ && final(transfer).offset == old(transfer).offset,
        r ==> {
            let jpeg = old(transfer).jpeg@;
            let from = old(transfer).offset as int;
            let left = jpeg.len() - from;
            let n: int = if left < 1000 {
                left
            } else {
                1000
            };
            let reports = (jpeg.len() as int + 999) / 1000;
            let index = if from / 1000 < 65536 {
                from / 1000
            } else {
                65535
            };
            let b = final(report)@;
            &&& from % 1000 == 0
            &&& final(transfer).offset == from + n
            &&& b.len() == 1025
            &&& b[0] == 0 && b[1] == 0x5c && b[9] == 1
            &&& b[2] * 256 + b[3] == n + 21
            &&& b[4] == old(transfer).id
            &&& b[5] * 256 + b[6] == reports % 65536
            &&& b[7] * 256 + b[8] == index
            &&& 10 <= i < 25 ==> b[i] == 0
            &&& 25 <= i < 25 + n ==> b[i] == jpeg[from + i - 25]
            &&& 25 + n <= i ==> b[i] == 0
        },
{
    if r {
        let jpeg = old(transfer).jpeg@;
        let from = old(transfer).offset as nat;
        let k = report_count(from);
        lemma_one_more_report(from, from, jpeg.len());
        lemma_two_bytes_of(announced_blocks(jpeg.len()));
        let chunk = chunk_at(jpeg, k);
        let b = final(report)@;
        let to = final(transfer).offset as nat;
        assert(to == from + chunk.len()) by {
            if jpeg.len() - from > 1000 {
                lemma_one_more_report(from, from + 1000, jpeg.len());
            } else {
                lemma_one_more_report(from, jpeg.len(), jpeg.len());
            }
        }
    }
}

proof fn lemma_two_bytes_spell(n: nat)
    ensures
        big_endian(n).len() == 2,
        big_endian(n)[0] as int * 256 + big_endian(n)[1] as int == n as int % 65536,
{
    lemma_two_bytes_of(n);
    let r = n as int % 65536;
    assert(r / 256 < 256);
    assert(big_endian(n % 65536)[0] as int == r / 256);
    assert(big_endian(n % 65536)[1] as int == r % 256);
}

proof fn lemma_report_fields(id: u8, blocks: nat, index: nat, chunk: Seq<u8>)
    ensures
        ({
            let report = picture_report(id, blocks, index, chunk);
            &&& report[2] == big_endian(21 + chunk.len())[0]
            &&& report[3] == big_endian(21 + chunk.len())[1]
            &&& report[4] == id
            &&& report[5] == big_endian(blocks)[0]
            &&& report[6] == big_endian(blocks)[1]
            &&& report[7] == big_endian(index)[0]
            &&& report[8] == big_endian(index)[1]
        }),
{
}

/// Report `i` of a picture holds `i` in its index field, as far as the field goes, and the number
/// of reports in its count field.
#[verifier::spinoff_prover]
pub proof fn law_reports_are_numbered(jpeg: Seq<u8>, id: u8, i: nat)
    requires
        1000 * i < jpeg.len(),
    ensures
        ({
            let report = nth_report(jpeg, id, i);
            let reports = (jpeg.len() as int + 999) / 1000;
            &&& i < 65536 ==> report[7] * 256 + report[8] == i
            &&& i >= 65536 ==> report[7] * 256 + report[8] == 65535
            &&& report[5] * 256 + report[6] == reports % 65536
            &&& report[4] == id
            &&& report[2] * 256 + report[3] == 21 + if jpeg.len() - 1000 * i < 1000 {
                jpeg.len() - 1000 * i
            } else {
                1000
            }
        }),
{
    let chunk = chunk_at(jpeg, i);
    lemma_report_fields(id, announced_blocks(jpeg.len()), block_index(i), chunk);
    lemma_two_bytes_spell(announced_blocks(jpeg.len()));
    lemma_two_bytes_spell(block_index(i));
    lemma_two_bytes_spell(21 + chunk.len());
}

/// What the device is waited for, and how large a report is.
pub proof fn law_session_numbers()
    ensures
        VENDOR == 0x0b05,
        PRODUCT == 0x1de7,
        USAGE_PAGE == 0xff00,
        USAGE == 1,
        CHUNK == 1000,
        REPORT == 1025,
        REPLY_WAIT == 2000,
        READ_WAIT == 200,
{
}

/// Each error has its own words: those about a request begin with the request's name, those about
/// an answer end with what was answered, and a request that was cut short says how much of it was
/// written.
pub proof fn law_session_errors_in_words(error: &SessionError, r: String)
    requires
        call_ensures(SessionError::message, (error,), r),
    ensures
        *error is NoScreen ==> r@ == "no ROG Strix LC IV screen found (USB 0B05:1DE7 interface 0)"@,
        *error is EmptyPicture ==> r@ == "picture is empty"@,
        *error matches SessionError::PictureRefused { body } ==> r@
            == "the screen refused the picture channel: "@ + body@,
        *error is PictureNotTaken ==> r@ == "the pump did not accept the picture"@,
        *error matches SessionError::ShortWrite { cmd, wrote, len } ==> r@ == cmd@ + " wrote "@
            + decimal(wrote as nat) + " of "@ + decimal(len as nat) + " bytes"@,
        *error matches SessionError::BadReply { cmd, why } ==> r@ == cmd@
            + " response was not a text message"@,
        *error matches SessionError::BadFrame { cmd, cause } ==> r@ == cmd@
            + " returned a bad frame"@,
        *error matches SessionError::NoReply { cmd } ==> r@ == cmd@
            + " got no matching reply within 2 seconds"@,
        *error matches SessionError::Rejected { cmd, code, body } ==> r@ == cmd@
            + " was rejected with status "@ + decimal(code as nat) + ": "@ + body@,
        *error matches SessionError::NotJson { what, words } ==> r@ == what@
            + " response was not JSON"@,
{
}

/// A bad reply, a bad frame and a body that is no document each have an error behind them, told in
/// that error's own words. No other error has one.
pub proof fn law_causes_in_words(
    error: &SessionError,
    why: &MsgError,
    cause: &FrameError,
    r: Option<String>,
    why_words: String,
    cause_words: String,
)
    requires
        call_ensures(SessionError::cause_message, (error,), r),
        call_ensures(MsgError::message, (why,), why_words),
        call_ensures(FrameError::message, (cause,), cause_words),
    ensures
        r is Some <==> *error is BadReply || *error is BadFrame || *error is NotJson,
        *error matches SessionError::BadReply { cmd, why: behind } ==> behind == *why ==> r->0@
            == why_words@,
        *error matches SessionError::BadFrame { cmd, cause: behind } ==> behind == *cause ==> r->0@
            == cause_words@,
        *error matches SessionError::NotJson { what, words } ==> r->0@ == words@,
{
}

/// Where the screen has opened its channel, the picture begins from its first byte; where it has
/// not, nothing is sent, and what it answered is told.
pub proof fn law_open_channel_begins_the_picture<'a>(
    panel: &Panel,
    response: &Response,
    jpeg: &'a [u8],
    clock_secs: Option<u64>,
    r: Result<Transfer<'a>, SessionError>,
)
    requires
        call_ensures(Panel::channel_opened, (panel, response, jpeg, clock_secs), r),
    ensures
        r is Ok <==> response.code == 200,
        r matches Ok(transfer) ==> begins(transfer, jpeg@, clock_secs),
        r matches Err(error) ==> error@.text() == "the screen refused the picture channel: "@
            + lossy_text(response.body@),
{
}

/// Requests are numbered from 0 on, and a picture begins from its first byte.
pub proof fn law_numbers_and_pictures_begin<'a>(
    jpeg: &'a [u8],
    clock_secs: Option<u64>,
    panel: Panel,
    transfer: Transfer<'a>,
)
    requires
        call_ensures(Panel::new, (), panel),
        call_ensures(Transfer::<'a>::new, (jpeg, clock_secs), transfer),
    ensures
        panel.seq == 0,
        begins(transfer, jpeg@, clock_secs),
{
}

} // verus!
