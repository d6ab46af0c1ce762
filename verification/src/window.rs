//! The window's state, and what clicks and results do to it.
//!
//! Times are nanoseconds on the clock of the program. `F` is the type of the crop and speed
//! numbers, which the window only passes on.

use crate::command::PowerEvent;
use crate::media::{is_video, video_answer, Clip, Crop, Preview};
use crate::picture::{came_back, decode_picture, is_picture_of, Picture};
use crate::playback::Job;
use crate::settings::{is_loaded, Settings};
use crate::status::Snapshot;
use crate::text::{chars_of, decimal, decimal_text, same_chars, words};
use crate::tray::{step_for, tray_step, TrayAction, TrayStep};
use vstd::prelude::*;
use vstd::slice::slice_subrange;

verus! {

/// What the window holds.
pub struct App<F> {
    pub snapshot: Option<Snapshot>,
    pub brightness: u8,
    /// The line at the bottom of the window.
    pub status: String,
    /// A job is under way, and buttons do nothing.
    pub busy: bool,
    pub chosen: Option<String>,
    pub shows_preview: bool,
    pub source_width: u32,
    pub source_height: u32,
    pub zoom: F,
    pub pan_x: F,
    pub pan_y: F,
    pub speed: F,
    /// The result of a job is waited for.
    pub pending: bool,
    /// A preview is waited for.
    pub preview_pending: bool,
    /// The official program runs.
    pub asus_running: bool,
    /// When that was last looked up.
    pub asus_checked: u64,
    pub settings: Settings<F>,
    pub quit: bool,
    pub hide_once: bool,
    pub resume_when_ready: bool,
}

/// What comes back from a job: what it gave, or what it complains about.
pub enum JobResult {
    Snapshot { shot: Result<Snapshot, String> },
    Done { done: Result<(), String> },
    Frames { clip: Result<Clip, String> },
}

/// What comes of a preview.
pub enum PreviewResult {
    /// It can be shown; the picture it was made of has this size.
    Shown { width: u32, height: u32 },
    /// It cannot be decoded, and this is why.
    Unreadable { error: String },
    /// There is none, and this is why.
    Failed { message: String },
}

/// A file on its way to the screen.
pub struct Shipment<F> {
    pub path: String,
    pub crop: Crop<F>,
    pub video: bool,
}

/// What follows from a result.
pub enum Follow<F> {
    Nothing,
    /// The screen's state is read again.
    Refresh,
    /// The clip is handed to the worker.
    Play { clip: Clip },
    /// A file is sent.
    Send { shipment: Shipment<F> },
}

/// What to do to the startup entry: put it there or take it out, and whether the window then
/// stays hidden at sign-in.
#[derive(Debug, Clone, Copy, PartialEq, Eq, Structural)]
pub struct SignIn {
    pub enable: bool,
    pub hidden: bool,
}

/// A button that asks something of the screen.
#[derive(Debug, Clone, Copy, PartialEq, Eq, Structural)]
pub enum Press {
    /// The brightness slider was let go.
    Brightness,
    Rotate { degrees: u16 },
    Power { event: PowerEvent },
    Refresh,
}

/// How long the word on the official program is good for, in nanoseconds.
pub const ASUS_CHECK: u64 = 3_000_000_000;

/// How old that word is at the start, in nanoseconds.
pub const ASUS_STALE: u64 = 10_000_000_000;

/// A text as a character sequence.
pub open spec fn option_text(text: Option<String>) -> Option<Seq<char>> {
    match text {
        Some(s) => Some(s@),
        None => None,
    }
}

/// `after` is `before` with its crop, speed and file taken into the settings.
pub open spec fn is_persisted<F>(before: App<F>, after: App<F>) -> bool {
    &&& after == (App {
        settings: Settings {
            zoom: before.zoom,
            pan_x: before.pan_x,
            pan_y: before.pan_y,
            speed: before.speed,
            last_path: after.settings.last_path,
            ..before.settings
        },
        ..before
    })
    &&& option_text(after.settings.last_path) == option_text(before.chosen)
}

/// `after` is `before` with another status line.
pub open spec fn is_told<F>(before: App<F>, after: App<F>, line: Seq<char>) -> bool {
    &&& after == (App { status: after.status, ..before })
    &&& after.status@ == line
}

/// `after` is `before` with a job under way and another status line.
pub open spec fn is_busied<F>(before: App<F>, after: App<F>, line: Seq<char>) -> bool {
    is_told(App { busy: true, pending: true, ..before }, after, line)
}

/// The complaint that the official program runs.
pub open spec fn quit_first() -> Seq<char> {
    "Quit the ROG STRIX LC app first."@
}

/// A job was asked for: it is under way, unless the official program runs.
pub open spec fn is_asked<F>(
    before: App<F>,
    after: App<F>,
    line: Seq<char>,
    job: Job,
    r: Option<Job>,
) -> bool {
    if before.asus_running {
        is_told(before, after, quit_first()) && r is None
    } else {
        is_busied(before, after, line) && r == Some(job)
    }
}

/// What the status line says when a power event is asked for.
pub open spec fn power_line(event: PowerEvent) -> Seq<char> {
    match event {
        PowerEvent::Resume => "Waking the screen…"@,
        PowerEvent::Suspend => "Putting the screen to sleep…"@,
    }
}

/// The chosen file was to be sent. Without a file nothing happens, and while the official program
/// runs nothing but a complaint.
pub open spec fn is_sent<F>(before: App<F>, after: App<F>, r: Option<Shipment<F>>) -> bool {
    if before.asus_running {
        is_told(before, after, quit_first()) && r is None
    } else {
        match before.chosen {
            None => after == before && r is None,
            Some(path) => r matches Some(shipment) && {
                &&& shipment.path@ == path@
                &&& shipment.crop == (Crop {
                    zoom: before.zoom,
                    pan_x: before.pan_x,
                    pan_y: before.pan_y,
                })
                &&& video_answer(path@, shipment.video)
                &&& is_busied(
                    before,
                    after,
                    if shipment.video {
                        "Preparing the video…"@
                    } else {
                        "Sending the photo…"@
                    },
                )
            },
        }
    }
}

/// The file of last time was to be sent, once: only where that was asked for and the file is
/// still there.
pub open spec fn is_resumed<F>(
    before: App<F>,
    after: App<F>,
    file_exists: bool,
    r: Option<Shipment<F>>,
) -> bool {
    let ready = App { resume_when_ready: false, ..before };
    if !before.resume_when_ready {
        after == before && r is None
    } else if before.asus_running {
        is_told(
            ready,
            after,
            "Quit the ROG STRIX LC app first. The last file was not sent."@,
        ) && r is None
    } else if before.chosen is Some && file_exists {
        is_sent(ready, after, r)
    } else {
        after == ready && r is None
    }
}

/// What follows from a shipment, where there is one.
pub open spec fn follows<F>(shipment: Option<Shipment<F>>) -> Follow<F> {
    match shipment {
        Some(shipment) => Follow::Send { shipment },
        None => Follow::Nothing,
    }
}

/// What a result does to the window.
pub open spec fn is_polled<F>(
    before: App<F>,
    after: App<F>,
    result: JobResult,
    file_exists: bool,
    r: Follow<F>,
) -> bool {
    let free = App { pending: false, busy: false, ..before };
    match result {
        JobResult::Snapshot { shot: Ok(shot) } => {
            let read = App { brightness: shot.brightness, snapshot: Some(shot), ..free };
            if before.resume_when_ready {
                exists|shipment: Option<Shipment<F>>|
                    #[trigger] is_resumed(read, after, file_exists, shipment) && r == follows(shipment)
            } else if "Reading the pump"@.is_prefix_of(before.status@) {
                is_told(read, after, "Ready."@) && r is Nothing
            } else {
                after == read && r is Nothing
            }
        },
        JobResult::Snapshot { shot: Err(message) } => exists|shipment: Option<Shipment<F>>|
            #[trigger] is_resumed(App { status: message, ..free }, after, file_exists, shipment) && r
                == follows(shipment),
        JobResult::Done { done: Ok(_) } => is_busied(before, after, "On the pump."@)
            && r is Refresh,
        JobResult::Done { done: Err(message) } => is_told(free, after, message@) && r is Nothing,
        JobResult::Frames { clip: Ok(clip) } => after == free && r == (Follow::<F>::Play { clip }),
        JobResult::Frames { clip: Err(message) } => is_told(free, after, message@) && r is Nothing,
    }
}

/// What a preview does to the window.
pub open spec fn is_previewed<F>(before: App<F>, after: App<F>, result: PreviewResult) -> bool {
    let free = App { preview_pending: false, ..before };
    match result {
        PreviewResult::Shown { width, height } => is_told(
            App { shows_preview: true, source_width: width, source_height: height, ..free },
            after,
            "Drag the square to crop, then show it on the pump."@,
        ),
        PreviewResult::Unreadable { error } => is_told(
            free,
            after,
            "could not show a preview: "@ + error@,
        ),
        PreviewResult::Failed { message } => is_told(free, after, message@),
    }
}

/// What a preview that arrived does to the window, and the picture that is drawn of it: the one
/// that the decoder came back with for the preview's bytes, or none where the decoder failed on
/// them, and the window then says why.
pub open spec fn is_drawn<F>(
    before: App<F>,
    after: App<F>,
    preview: Preview,
    r: Option<Picture>,
) -> bool {
    exists|
        loaded: Result<image::DynamicImage, image::ImageError>,
        decoded: Result<Picture, String>,
    | #[trigger]
        came_back(preview.jpeg@, loaded) && #[trigger] is_picture_of(loaded, decoded) && match decoded {
            Ok(picture) => r == Some(picture) && is_previewed(
                before,
                after,
                PreviewResult::Shown { width: preview.width, height: preview.height },
            ),
            Err(error) => r is None && is_previewed(
                before,
                after,
                PreviewResult::Unreadable { error },
            ),
        }
}

/// A window that has just been opened with saved settings.
pub open spec fn is_opened<F>(
    app: App<F>,
    saved: Settings<F>,
    last_exists: bool,
    start_in_tray: bool,
    now: u64,
) -> bool {
    let last = saved.last_path is Some && last_exists;
    &&& app.snapshot is None
    &&& app.brightness == 100
    &&& app.status@ == "Reading the pump…"@
    &&& app.busy
    &&& app.pending
    &&& option_text(app.chosen) == if last_exists {
        option_text(saved.last_path)
    } else {
        None
    }
    &&& !app.shows_preview
    &&& app.source_width == 0
    &&& app.source_height == 0
    &&& app.preview_pending == last
    &&& !app.asus_running
    &&& app.asus_checked == if now >= ASUS_STALE {
        now - ASUS_STALE
    } else {
        now as int
    }
    &&& app.settings == saved
    &&& !app.quit
    &&& app.hide_once == start_in_tray
    &&& app.resume_when_ready == (last && saved.resume_last)
}

/// The lines on the screen's state at the top of the window.
pub open spec fn state_labels(snapshot: Option<Snapshot>) -> Seq<Seq<char>> {
    match snapshot {
        Some(shot) => seq![
            "Serial "@ + shot.serial@,
            "Firmware "@ + shot.firmware@,
            "On screen: brightness "@ + decimal(shot.brightness as nat) + ", rotation "@ + decimal(
                shot.rotation as nat,
            ) + "°, free "@ + shot.free_space@,
        ],
        None => seq!["Not connected yet."@],
    }
}

fn is_reading(status: &str) -> (r: bool)
    ensures
        r == "Reading the pump"@.is_prefix_of(status@),
{
    let line: Vec<char> = chars_of(status);
    let start: Vec<char> = chars_of("Reading the pump");
    if line.len() < start.len() {
        return false;
    }
    let front: &[char] = slice_subrange(line.as_slice(), 0, start.len());
    let r: bool = same_chars(front, start.as_slice());
    assert("Reading the pump"@.is_prefix_of(status@) == (front@ =~= start@));
    r
}

impl<F: Copy> App<F> {
    /// The buttons are dead exactly while a result is waited for.
    pub open spec fn wf(self) -> bool {
        self.busy == self.pending
    }

    /// Opens the window. `zoom`, `pan_x`, `pan_y` and `speed` are the saved ones, kept within
    /// their limits; `last_exists` says whether the file of last time is still there.
    pub fn new(
        saved: Settings<F>,
        last_exists: bool,
        start_in_tray: bool,
        zoom: F,
        pan_x: F,
        pan_y: F,
        speed: F,
        now: u64,
    ) -> (r: App<F>)
        ensures
            is_opened(r, saved, last_exists, start_in_tray, now),
            r.zoom == zoom,
            r.pan_x == pan_x,
            r.pan_y == pan_y,
            r.speed == speed,
            r.wf(),
    {
        let mut chosen: Option<String> = None;
        let mut resume_when_ready: bool = false;
        if let Some(path) = &saved.last_path {
            if last_exists {
                resume_when_ready = saved.resume_last;
                chosen = Some(path.clone());
            }
        }
        let preview_pending: bool = chosen.is_some();
        let asus_checked: u64 = if now >= ASUS_STALE {
            now - ASUS_STALE
        } else {
            now
        };
        App {
            snapshot: None,
            brightness: 100,
            status: "Reading the pump…".to_owned(),
            busy: true,
            chosen,
            shows_preview: false,
            source_width: 0,
            source_height: 0,
            zoom,
            pan_x,
            pan_y,
            speed,
            pending: true,
            preview_pending,
            asus_running: false,
            asus_checked,
            settings: saved,
            quit: false,
            hide_once: start_in_tray,
            resume_when_ready,
        }
    }

    /// What to do to the startup entry as the window opens: it is written again where there is to
    /// be one.
    pub fn entry_at_start(&self) -> (r: Option<SignIn>)
        ensures
            r == if self.settings.start_with_windows {
                Some(SignIn { enable: true, hidden: self.settings.start_in_tray })
            } else {
                None
            },
    {
        if self.settings.start_with_windows {
            Some(SignIn { enable: true, hidden: self.settings.start_in_tray })
        } else {
            None
        }
    }

    /// Takes crop, speed and file into the settings, which are then to be saved.
    pub fn persist(&mut self)
        ensures
            is_persisted(*old(self), *final(self)),
            old(self).wf() ==> final(self).wf(),
    {
        self.settings.zoom = self.zoom;
        self.settings.pan_x = self.pan_x;
        self.settings.pan_y = self.pan_y;
        self.settings.speed = self.speed;
        self.settings.last_path = match &self.chosen {
            Some(path) => Some(path.clone()),
            None => None,
        };
    }

    /// Puts a complaint into the status line.
    pub fn complain(&mut self, message: String)
        ensures
            *final(self) == (App { status: message, ..*old(self) }),
            old(self).wf() ==> final(self).wf(),
    {
        self.status = message;
    }

    /// Does what was chosen at the tray as far as the window's state goes.
    pub fn poll_tray(&mut self, action: &TrayAction) -> (r: TrayStep)
        ensures
            r == step_for(*action),
            match r {
                TrayStep::StopVideo => is_told(
                    *old(self),
                    *final(self),
                    "Stopped. The pump keeps the last frame."@,
                ),
                TrayStep::Quit => *final(self) == (App { quit: true, ..*old(self) }),
                _ => *final(self) == *old(self),
            },
            old(self).wf() ==> final(self).wf(),
    {
        let step: TrayStep = tray_step(action);
        match step {
            TrayStep::StopVideo => {
                self.stop_video();
            },
            TrayStep::Quit => {
                self.quit = true;
            },
            _ => {},
        }
        step
    }

    /// Playback was stopped.
    pub fn stop_video(&mut self)
        ensures
            is_told(*old(self), *final(self), "Stopped. The pump keeps the last frame."@),
            old(self).wf() ==> final(self).wf(),
    {
        self.status = "Stopped. The pump keeps the last frame.".to_owned();
    }

    /// Whether the window hides as it opens. It does so once.
    pub fn hides(&mut self) -> (r: bool)
        ensures
            r == old(self).hide_once,
            *final(self) == (App { hide_once: false, ..*old(self) }),
            old(self).wf() ==> final(self).wf(),
    {
        let r: bool = self.hide_once;
        self.hide_once = false;
        r
    }

    /// Whether the window hides where it was asked to close: it does where it is to keep running
    /// in the tray, unless the program quits.
    pub fn stays_in_tray(&self, close_requested: bool) -> (r: bool)
        ensures
            r == (close_requested && !self.quit && self.settings.close_to_tray),
    {
        close_requested && !self.quit && self.settings.close_to_tray
    }

    /// After how many milliseconds the window is drawn again: sooner while something is waited
    /// for.
    pub fn repaint_after(&self) -> (r: u64)
        ensures
            r == if self.pending || self.preview_pending {
                200u64
            } else {
                500u64
            },
    {
        if self.pending || self.preview_pending {
            200
        } else {
            500
        }
    }

    /// Whether the button that sends the chosen file can be pressed.
    pub fn can_send(&self) -> (r: bool)
        ensures
            r == (self.chosen is Some && !self.busy),
    {
        self.chosen.is_some() && !self.busy
    }

    /// The lines on the screen's state at the top of the window.
    pub fn labels(&self) -> (r: Vec<String>)
        ensures
            words(r@) == state_labels(self.snapshot),
    {
        match &self.snapshot {
            Some(shot) => {
                let mut serial: String = "Serial ".to_owned();
                serial.append(shot.serial.as_str());
                let mut firmware: String = "Firmware ".to_owned();
                firmware.append(shot.firmware.as_str());
                let mut screen: String = "On screen: brightness ".to_owned();
                screen.append(decimal_text(shot.brightness as u128).as_str());
                screen.append(", rotation ");
                screen.append(decimal_text(shot.rotation as u128).as_str());
                screen.append("°, free ");
                screen.append(shot.free_space.as_str());
                let lines: Vec<String> = vec![serial, firmware, screen];
                assert(words(lines@) =~= state_labels(self.snapshot));
                lines
            },
            None => {
                let lines: Vec<String> = vec!["Not connected yet.".to_owned()];
                assert(words(lines@) =~= state_labels(self.snapshot));
                lines
            },
        }
    }

    /// Whether it is time to look again whether the official program runs.
    pub fn asus_check_due(&self, now: u64) -> (r: bool)
        ensures
            r == (now - self.asus_checked >= ASUS_CHECK),
    {
        now >= self.asus_checked && now - self.asus_checked >= ASUS_CHECK
    }

    /// It was looked up at `now` whether the official program runs.
    pub fn refresh_asus_flag(&mut self, running: bool, now: u64)
        ensures
            *final(self) == (App { asus_running: running, asus_checked: now, ..*old(self) }),
            old(self).wf() ==> final(self).wf(),
    {
        self.asus_running = running;
        self.asus_checked = now;
    }

    /// Asks for the brightness that the slider is at.
    pub fn apply_brightness(&mut self) -> (r: Option<Job>)
        ensures
            is_asked(
                *old(self),
                *final(self),
                "Setting brightness…"@,
                (Job::Brightness { value: old(self).brightness }),
                r,
            ),
            old(self).wf() ==> final(self).wf(),
    {
        if self.asus_running {
            self.status = "Quit the ROG STRIX LC app first.".to_owned();
            return None;
        }
        self.busy = true;
        self.pending = true;
        self.status = "Setting brightness…".to_owned();
        Some(Job::Brightness { value: self.brightness })
    }

    /// Asks for a rotation.
    pub fn apply_rotation(&mut self, degrees: u16) -> (r: Option<Job>)
        ensures
            is_asked(
                *old(self),
                *final(self),
                "Rotating to "@ + decimal(degrees as nat) + "°…"@,
                (Job::Rotate { degrees }),
                r,
            ),
            old(self).wf() ==> final(self).wf(),
    {
        if self.asus_running {
            self.status = "Quit the ROG STRIX LC app first.".to_owned();
            return None;
        }
        self.busy = true;
        self.pending = true;
        let mut line: String = "Rotating to ".to_owned();
        line.append(decimal_text(degrees as u128).as_str());
        line.append("°…");
        self.status = line;
        Some(Job::Rotate { degrees })
    }

    /// Asks for a power event.
    pub fn apply_power(&mut self, event: PowerEvent) -> (r: Option<Job>)
        ensures
            is_asked(*old(self), *final(self), power_line(event), (Job::Power { event }), r),
            old(self).wf() ==> final(self).wf(),
    {
        if self.asus_running {
            self.status = "Quit the ROG STRIX LC app first.".to_owned();
            return None;
        }
        self.busy = true;
        self.pending = true;
        self.status = match event {
            PowerEvent::Resume => "Waking the screen…".to_owned(),
            PowerEvent::Suspend => "Putting the screen to sleep…".to_owned(),
        };
        Some(Job::Power { event })
    }

    /// A button was pressed. While a job is under way it does nothing. The screen's state can be
    /// read even while the official program runs.
    pub fn press(&mut self, press: Press) -> (r: Option<Job>)
        ensures
            if old(self).busy {
                *final(self) == *old(self) && r is None
            } else {
                match press {
                    Press::Brightness => is_asked(
                        *old(self),
                        *final(self),
                        "Setting brightness…"@,
                        (Job::Brightness { value: old(self).brightness }),
                        r,
                    ),
                    Press::Rotate { degrees } => is_asked(
                        *old(self),
                        *final(self),
                        "Rotating to "@ + decimal(degrees as nat) + "°…"@,
                        (Job::Rotate { degrees }),
                        r,
                    ),
                    Press::Power { event } => is_asked(
                        *old(self),
                        *final(self),
                        power_line(event),
                        (Job::Power { event }),
                        r,
                    ),
                    Press::Refresh => is_busied(*old(self), *final(self), "Reading the pump…"@)
                        && r == Some(Job::Refresh),
                }
            },
            old(self).wf() ==> final(self).wf(),
    {
        if self.busy {
            return None;
        }
        match press {
            Press::Brightness => self.apply_brightness(),
            Press::Rotate { degrees } => self.apply_rotation(degrees),
            Press::Power { event } => self.apply_power(event),
            Press::Refresh => {
                self.busy = true;
                self.pending = true;
                self.status = "Reading the pump…".to_owned();
                Some(Job::Refresh)
            },
        }
    }

    /// A file was chosen. The crop starts over, and the file is remembered.
    pub fn choose_file(&mut self, path: String, one: F, zero: F)
        ensures
            is_persisted(
                (App {
                    shows_preview: false,
                    source_width: 0,
                    source_height: 0,
                    zoom: one,
                    pan_x: zero,
                    pan_y: zero,
                    chosen: Some(path),
                    status: final(self).status,
                    preview_pending: true,
                    ..*old(self)
                }),
                *final(self),
            ),
            final(self).status@ == "Loading preview…"@,
            old(self).wf() ==> final(self).wf(),
    {
        self.shows_preview = false;
        self.source_width = 0;
        self.source_height = 0;
        self.zoom = one;
        self.pan_x = zero;
        self.pan_y = zero;
        self.chosen = Some(path);
        self.status = "Loading preview…".to_owned();
        self.preview_pending = true;
        self.persist();
    }

    /// The crop was put back to all of the picture.
    pub fn reset_crop(&mut self, one: F, zero: F)
        ensures
            is_persisted(
                (App { zoom: one, pan_x: zero, pan_y: zero, ..*old(self) }),
                *final(self),
            ),
            old(self).wf() ==> final(self).wf(),
    {
        self.zoom = one;
        self.pan_x = zero;
        self.pan_y = zero;
        self.persist();
    }

    /// Sends the chosen file.
    pub fn send_chosen(&mut self) -> (r: Option<Shipment<F>>)
        ensures
            is_sent(*old(self), *final(self), r),
            old(self).wf() ==> final(self).wf(),
    {
        if self.asus_running {
            self.status = "Quit the ROG STRIX LC app first.".to_owned();
            return None;
        }
        let path: String = match &self.chosen {
            Some(path) => path.clone(),
            None => {
                return None;
            },
        };
        self.busy = true;
        let crop: Crop<F> = Crop { zoom: self.zoom, pan_x: self.pan_x, pan_y: self.pan_y };
        let video: bool = is_video(path.as_str());
        if video {
            self.status = "Preparing the video…".to_owned();
        } else {
            self.status = "Sending the photo…".to_owned();
        }
        self.pending = true;
        Some(Shipment { path, crop, video })
    }

    /// Sends the file of last time, once the screen was first heard of. `file_exists` says whether it
    /// is still there.
    pub fn maybe_resume(&mut self, file_exists: bool) -> (r: Option<Shipment<F>>)
        ensures
            is_resumed(*old(self), *final(self), file_exists, r),
            !final(self).resume_when_ready,
            old(self).wf() ==> final(self).wf(),
    {
        if !self.resume_when_ready {
            return None;
        }
        self.resume_when_ready = false;
        if self.asus_running {
            self.status =
                "Quit the ROG STRIX LC app first. The last file was not sent.".to_owned();
            return None;
        }
        if self.chosen.is_some() && file_exists {
            return self.send_chosen();
        }
        None
    }

    /// Takes the result of a job. `file_exists` says whether the chosen file is still there.
    pub fn poll(&mut self, result: JobResult, file_exists: bool) -> (r: Follow<F>)
        ensures
            is_polled(*old(self), *final(self), result, file_exists, r),
            final(self).wf(),
    {
        self.pending = false;
        self.busy = false;
        match result {
            JobResult::Snapshot { shot: Ok(shot) } => {
                self.brightness = shot.brightness;
                self.snapshot = Some(shot);
                if self.resume_when_ready {
                    match self.maybe_resume(file_exists) {
                        Some(shipment) => Follow::Send { shipment },
                        None => Follow::Nothing,
                    }
                } else {
                    if is_reading(self.status.as_str()) {
                        self.status = "Ready.".to_owned();
                    }
                    Follow::Nothing
                }
            },
            JobResult::Snapshot { shot: Err(message) } => {
                self.status = message;
                match self.maybe_resume(file_exists) {
                    Some(shipment) => Follow::Send { shipment },
                    None => Follow::Nothing,
                }
            },
            JobResult::Done { done: Ok(_) } => {
                self.status = "On the pump.".to_owned();
                self.pending = true;
                self.busy = true;
                Follow::Refresh
            },
            JobResult::Done { done: Err(message) } => {
                self.status = message;
                Follow::Nothing
            },
            JobResult::Frames { clip: Ok(clip) } => Follow::Play { clip },
            JobResult::Frames { clip: Err(message) } => {
                self.status = message;
                Follow::Nothing
            },
        }
    }

    /// A clip of `count` frames was handed to the worker at the speed that `speed` spells.
    pub fn plays(&mut self, count: usize, speed: &str)
        ensures
            is_told(
                *old(self),
                *final(self),
                "Playing "@ + decimal(count as nat) + " frames at "@ + speed@ + "×. "@ + (
                if old(self).settings.close_to_tray {
                    "Closing the window leaves it running in the tray."@
                } else {
                    "The window has to stay open."@
                }),
            ),
            old(self).wf() ==> final(self).wf(),
    {
        let mut line: String = "Playing ".to_owned();
        line.append(decimal_text(count as u128).as_str());
        line.append(" frames at ");
        line.append(speed);
        line.append("×. ");
        if self.settings.close_to_tray {
            line.append("Closing the window leaves it running in the tray.");
        } else {
            line.append("The window has to stay open.");
        }
        self.status = line;
    }

    /// Takes a preview, or why there is none. Gives the picture to draw where the preview can be
    /// decoded. Whether it can, and the words where it cannot, are up to the decoder.
    pub fn poll_preview(&mut self, preview: Result<Preview, String>) -> (r: Option<Picture>)
        ensures
            match preview {
                Ok(preview) => is_drawn(*old(self), *final(self), preview, r),
                Err(message) => r is None && is_previewed(
                    *old(self),
                    *final(self),
                    (PreviewResult::Failed { message }),
                ),
            },
            r matches Some(picture) ==> picture.wf(),
            old(self).wf() ==> final(self).wf(),
    {
        match preview {
            Ok(preview) => {
                let decoded: Result<Picture, String> = decode_picture(preview.jpeg.as_slice());
                let ghost loaded = choose|loaded: Result<image::DynamicImage, image::ImageError>| #[trigger]
                    came_back(preview.jpeg@, loaded) && is_picture_of(loaded, decoded);
                assert(came_back(preview.jpeg@, loaded) && is_picture_of(loaded, decoded));
                match decoded {
                    Ok(picture) => {
                        self.take_preview(
                            PreviewResult::Shown { width: preview.width, height: preview.height },
                        );
                        Some(picture)
                    },
                    Err(error) => {
                        self.take_preview(PreviewResult::Unreadable { error });
                        None
                    },
                }
            },
            Err(message) => {
                self.take_preview(PreviewResult::Failed { message });
                None
            },
        }
    }

    /// Takes what came of a preview.
    pub fn take_preview(&mut self, result: PreviewResult)
        ensures
            is_previewed(*old(self), *final(self), result),
            old(self).wf() ==> final(self).wf(),
    {
        self.preview_pending = false;
        match result {
            PreviewResult::Shown { width, height } => {
                self.shows_preview = true;
                self.source_width = width;
                self.source_height = height;
                self.status = "Drag the square to crop, then show it on the pump.".to_owned();
            },
            PreviewResult::Unreadable { error } => {
                let mut line: String = "could not show a preview: ".to_owned();
                line.append(error.as_str());
                self.status = line;
            },
            PreviewResult::Failed { message } => {
                self.status = message;
            },
        }
    }

    /// The box on running in the tray was ticked or cleared.
    pub fn set_close_to_tray(&mut self, value: bool)
        ensures
            is_persisted(
                (App {
                    settings: Settings { close_to_tray: value, ..old(self).settings },
                    ..*old(self)
                }),
                *final(self),
            ),
            old(self).wf() ==> final(self).wf(),
    {
        self.settings.close_to_tray = value;
        self.persist();
    }

    /// The box on sending the last file again was ticked or cleared.
    pub fn set_resume_last(&mut self, value: bool)
        ensures
            is_persisted(
                (App {
                    settings: Settings { resume_last: value, ..old(self).settings },
                    ..*old(self)
                }),
                *final(self),
            ),
            old(self).wf() ==> final(self).wf(),
    {
        self.settings.resume_last = value;
        self.persist();
    }

    /// The box on starting at sign-in was ticked or cleared: the startup entry is to be changed.
    pub fn set_start_with_windows(&mut self, value: bool) -> (r: SignIn)
        ensures
            *final(self) == (App {
                settings: Settings { start_with_windows: value, ..old(self).settings },
                ..*old(self)
            }),
            r == (SignIn { enable: value, hidden: old(self).settings.start_in_tray }),
            old(self).wf() ==> final(self).wf(),
    {
        self.settings.start_with_windows = value;
        SignIn { enable: value, hidden: self.settings.start_in_tray }
    }

    /// The startup entry was changed, or failed to be; then the box goes back to what it was.
    /// Tells whether the settings are to be saved.
    pub fn start_with_windows_done(&mut self, done: Result<(), String>) -> (r: bool)
        ensures
            match done {
                Ok(_) => r && is_persisted(*old(self), *final(self)),
                Err(message) => !r && is_told(
                    (App {
                        settings: Settings {
                            start_with_windows: !old(self).settings.start_with_windows,
                            ..old(self).settings
                        },
                        ..*old(self)
                    }),
                    *final(self),
                    message@,
                ),
            },
            old(self).wf() ==> final(self).wf(),
    {
        match done {
            Ok(_) => {
                self.persist();
                true
            },
            Err(message) => {
                self.settings.start_with_windows = !self.settings.start_with_windows;
                self.status = message;
                false
            },
        }
    }

    /// The box on hiding at sign-in was ticked or cleared: where there is a startup entry, it is
    /// to be changed.
    pub fn set_start_in_tray(&mut self, value: bool) -> (r: Option<SignIn>)
        ensures
            *final(self) == (App {
                settings: Settings { start_in_tray: value, ..old(self).settings },
                ..*old(self)
            }),
            r == if old(self).settings.start_with_windows {
                Some(SignIn { enable: true, hidden: value })
            } else {
                None
            },
            old(self).wf() ==> final(self).wf(),
    {
        self.settings.start_in_tray = value;
        if self.settings.start_with_windows {
            Some(SignIn { enable: true, hidden: value })
        } else {
            None
        }
    }

    /// The startup entry was changed, or did not need to be, or failed to be. The settings are to
    /// be saved in any case.
    pub fn start_in_tray_done(&mut self, done: Result<(), String>)
        ensures
            match done {
                Ok(_) => is_persisted(*old(self), *final(self)),
                Err(message) => is_persisted(
                    (App { status: message, ..*old(self) }),
                    *final(self),
                ),
            },
            old(self).wf() ==> final(self).wf(),
    {
        if let Err(message) = done {
            self.status = message;
        }
        self.persist();
    }
}

/// What the window saves comes back when it is opened again with what was saved: every option, the
/// same file where it is still there, and it is sent again exactly where that was asked for.
pub proof fn law_saved_window_comes_back<F>(
    before: App<F>,
    saved: App<F>,
    loaded: Settings<F>,
    opened: App<F>,
    one: F,
    zero: F,
    last_exists: bool,
    start_in_tray: bool,
    now: u64,
)
    requires
        is_persisted(before, saved),
        is_loaded(loaded, Some(saved.settings), one, zero),
        is_opened(opened, loaded, last_exists, start_in_tray, now),
    ensures
        opened.settings == saved.settings,
        opened.settings.close_to_tray == before.settings.close_to_tray,
        opened.settings.start_with_windows == before.settings.start_with_windows,
        opened.settings.start_in_tray == before.settings.start_in_tray,
        opened.settings.resume_last == before.settings.resume_last,
        last_exists ==> option_text(opened.chosen) == option_text(before.chosen),
        !last_exists ==> opened.chosen is None,
        opened.resume_when_ready == (before.settings.resume_last && opened.chosen is Some),
        opened.settings.zoom == before.zoom,
        opened.settings.pan_x == before.pan_x,
        opened.settings.pan_y == before.pan_y,
        opened.settings.speed == before.speed,
{
}

/// The last file is sent again once at most: whatever the first word from the screen brings,
/// after it nothing is left to resume, and the next word resumes nothing.
pub proof fn law_last_file_is_sent_once<F>(
    before: App<F>,
    after: App<F>,
    last: App<F>,
    first: Result<Snapshot, String>,
    second: Result<Snapshot, String>,
    file_exists: bool,
    r: Follow<F>,
    s: Follow<F>,
)
    requires
        is_polled(before, after, (JobResult::Snapshot { shot: first }), file_exists, r),
        is_polled(after, last, (JobResult::Snapshot { shot: second }), file_exists, s),
    ensures
        !after.resume_when_ready,
        s is Nothing,
{
}

/// While the official program runs, nothing that changes what the screen shows is ever asked of
/// it: no button, no file and no resuming.
pub proof fn law_official_program_is_left_alone<F>(
    before: App<F>,
    after: App<F>,
    line: Seq<char>,
    job: Job,
    asked: Option<Job>,
    file_exists: bool,
    sent: Option<Shipment<F>>,
)
    requires
        before.asus_running,
    ensures
        is_asked(before, after, line, job, asked) ==> asked is None && after.busy == before.busy,
        is_sent(before, after, sent) ==> sent is None && after.busy == before.busy,
        is_resumed(before, after, file_exists, sent) ==> sent is None && after.busy
            == before.busy,
{
}

/// A window that opens reads the screen first: its buttons are dead until the answer is there, and
/// it shows full brightness until then. It shows the file of last time where that is still there,
/// and sends it again where that is wanted too. The crop and the speed are those that are given.
pub proof fn law_window_opens_with_what_was_saved<F: Copy>(
    saved: Settings<F>,
    last_exists: bool,
    start_in_tray: bool,
    zoom: F,
    pan_x: F,
    pan_y: F,
    speed: F,
    now: u64,
    r: App<F>,
)
    requires
        call_ensures(
            App::<F>::new,
            (saved, last_exists, start_in_tray, zoom, pan_x, pan_y, speed, now),
            r,
        ),
    ensures
        r.settings == saved,
        r.zoom == zoom && r.pan_x == pan_x && r.pan_y == pan_y && r.speed == speed,
        r.snapshot is None && r.brightness == 100 && r.status@ == "Reading the pump…"@,
        r.busy && r.pending && !r.quit && !r.asus_running,
        !r.shows_preview && r.source_width == 0 && r.source_height == 0,
        r.hide_once == start_in_tray,
        saved.last_path matches Some(path) ==> last_exists ==> (r.chosen matches Some(chosen)
            && chosen@ == path@ && r.preview_pending && r.resume_when_ready
            == saved.resume_last),
        !last_exists || saved.last_path is None ==> r.chosen is None && !r.preview_pending
            && !r.resume_when_ready,
        now >= 10_000_000_000 ==> r.asus_checked + 10_000_000_000 == now,
        now < 10_000_000_000 ==> r.asus_checked == now,
{
}

/// The word on the official program is good for three seconds. Looking it up notes the answer and
/// the time, and changes nothing else.
pub proof fn law_official_program_is_looked_up<F: Copy>(
    app: &App<F>,
    looked: &mut App<F>,
    running: bool,
    now: u64,
    due: bool,
    done: (),
)
    requires
        call_ensures(App::<F>::asus_check_due, (app, now), due),
        call_ensures(App::<F>::refresh_asus_flag, (looked, running, now), done),
    ensures
        due <==> now >= app.asus_checked + 3_000_000_000,
        final(looked).asus_running == running,
        final(looked).asus_checked == now,
        *final(looked) == (App {
            asus_running: final(looked).asus_running,
            asus_checked: final(looked).asus_checked,
            ..*old(looked)
        }),
        ASUS_CHECK == 3_000_000_000,
        ASUS_STALE == 10_000_000_000,
{
}

/// A button that is pressed while nothing is under way asks for the very thing it stands for: the
/// brightness that the slider is at, the degrees or the event of the button, or the screen's
/// state. The window then waits for the result, and nothing else of it changes but the status
/// line.
pub proof fn law_button_asks_for_its_job<F: Copy>(app: &mut App<F>, press: Press, r: Option<Job>)
    requires
        call_ensures(App::<F>::press, (app, press), r),
        !old(app).busy,
        !old(app).asus_running || press == Press::Refresh,
    ensures
        press == Press::Brightness ==> r == Some(Job::Brightness { value: old(app).brightness })
            && final(app).status@ == "Setting brightness…"@,
        press matches Press::Rotate { degrees } ==> r == Some(Job::Rotate { degrees }) && final(app).status@ == "Rotating to "@ + decimal(degrees as nat) + "°…"@,
        press matches Press::Power { event } ==> r == Some(Job::Power { event }),
        press == (Press::Power { event: PowerEvent::Resume }) ==> final(app).status@
            == "Waking the screen…"@,
        press == (Press::Power { event: PowerEvent::Suspend }) ==> final(app).status@
            == "Putting the screen to sleep…"@,
        press == Press::Refresh ==> r == Some(Job::Refresh) && final(app).status@
            == "Reading the pump…"@,
        final(app).busy && final(app).pending,
        *final(app) == (App {
            busy: final(app).busy,
            pending: final(app).pending,
            status: final(app).status,
            ..*old(app)
        }),
{
}

/// A button that is pressed while something is under way does nothing. While the official program
/// runs, one that would change something says so and does nothing else.
pub proof fn law_dead_buttons_ask_for_nothing<F: Copy>(
    app: &mut App<F>,
    press: Press,
    r: Option<Job>,
)
    requires
        call_ensures(App::<F>::press, (app, press), r),
        old(app).busy || (old(app).asus_running && press != Press::Refresh),
    ensures
        r is None,
        old(app).busy ==> *final(app) == *old(app),
        !old(app).busy ==> final(app).status@ == "Quit the ROG STRIX LC app first."@,
        *final(app) == (App { status: final(app).status, ..*old(app) }),
{
}

/// What a button asks for does not hang on how it is reached: the three that change something ask
/// for their job alike when they are called outright.
pub proof fn law_jobs_are_asked_for_alike<F: Copy>(
    a: &mut App<F>,
    b: &mut App<F>,
    c: &mut App<F>,
    degrees: u16,
    event: PowerEvent,
    brightness: Option<Job>,
    rotation: Option<Job>,
    power: Option<Job>,
)
    requires
        call_ensures(App::<F>::apply_brightness, (a,), brightness),
        call_ensures(App::<F>::apply_rotation, (b, degrees), rotation),
        call_ensures(App::<F>::apply_power, (c, event), power),
    ensures
        brightness is None <==> old(a).asus_running,
        rotation is None <==> old(b).asus_running,
        power is None <==> old(c).asus_running,
        brightness matches Some(job) ==> job == (Job::Brightness { value: old(a).brightness })
            && final(a).busy && final(a).pending && final(a).status@ == "Setting brightness…"@,
        rotation matches Some(job) ==> job == (Job::Rotate { degrees }) && final(b).busy
            && final(b).pending && final(b).status@ == "Rotating to "@ + decimal(degrees as nat)
            + "°…"@,
        power matches Some(job) ==> job == (Job::Power { event }) && final(c).busy
            && final(c).pending,
        old(a).asus_running ==> *final(a) == (App { status: final(a).status, ..*old(a) }),
        old(b).asus_running ==> *final(b) == (App { status: final(b).status, ..*old(b) }),
        old(c).asus_running ==> *final(c) == (App { status: final(c).status, ..*old(c) }),
        old(a).asus_running ==> final(a).status@ == "Quit the ROG STRIX LC app first."@,
        old(b).asus_running ==> final(b).status@ == "Quit the ROG STRIX LC app first."@,
        old(c).asus_running ==> final(c).status@ == "Quit the ROG STRIX LC app first."@,
{
}

/// Saving takes the crop, the speed and the file as they stand into the settings. No box changes,
/// and nothing of the window but its settings does.
pub proof fn law_saving_takes_what_is_shown<F: Copy>(app: &mut App<F>, done: ())
    requires
        call_ensures(App::<F>::persist, (app,), done),
    ensures
        final(app).settings.zoom == old(app).zoom,
        final(app).settings.pan_x == old(app).pan_x,
        final(app).settings.pan_y == old(app).pan_y,
        final(app).settings.speed == old(app).speed,
        old(app).chosen is None <==> final(app).settings.last_path is None,
        old(app).chosen matches Some(path) ==> (final(app).settings.last_path matches Some(kept)
            && kept@ == path@),
        final(app).settings.close_to_tray == old(app).settings.close_to_tray,
        final(app).settings.start_with_windows == old(app).settings.start_with_windows,
        final(app).settings.start_in_tray == old(app).settings.start_in_tray,
        final(app).settings.resume_last == old(app).settings.resume_last,
        *final(app) == (App { settings: final(app).settings, ..*old(app) }),
{
}

/// A file that is chosen is shown and remembered under its own path, uncropped, and its preview is
/// waited for; the preview that was there is gone. Putting the crop back keeps the file and its
/// preview.
pub proof fn law_chosen_file_starts_uncropped<F: Copy>(
    a: &mut App<F>,
    b: &mut App<F>,
    path: String,
    one: F,
    zero: F,
    chosen: (),
    reset: (),
)
    requires
        call_ensures(App::<F>::choose_file, (a, path, one, zero), chosen),
        call_ensures(App::<F>::reset_crop, (b, one, zero), reset),
    ensures
        final(a).chosen matches Some(file) && file@ == path@,
        final(a).settings.last_path matches Some(file) && file@ == path@,
        final(a).zoom == one && final(a).pan_x == zero && final(a).pan_y == zero,
        final(a).settings.zoom == one && final(a).settings.pan_x == zero
            && final(a).settings.pan_y == zero,
        final(a).speed == old(a).speed && final(a).settings.speed == old(a).speed,
        !final(a).shows_preview && final(a).source_width == 0 && final(a).source_height == 0,
        final(a).preview_pending,
        final(a).status@ == "Loading preview…"@,
        final(a).busy == old(a).busy && final(a).pending == old(a).pending,
        final(a).brightness == old(a).brightness && final(a).snapshot == old(a).snapshot,
        final(b).zoom == one && final(b).pan_x == zero && final(b).pan_y == zero,
        final(b).settings.zoom == one && final(b).settings.pan_x == zero
            && final(b).settings.pan_y == zero,
        final(b).settings.speed == old(b).speed,
        *final(b) == (App {
            zoom: final(b).zoom,
            pan_x: final(b).pan_x,
            pan_y: final(b).pan_y,
            settings: final(b).settings,
            ..*old(b)
        }),
{
}

/// Sending takes the file that is chosen, under its own path and with the crop that is set, and
/// the window waits for the result. Without a file nothing happens, and while the official program
/// runs it only says so.
pub proof fn law_chosen_file_is_what_is_sent<F: Copy>(
    app: &mut App<F>,
    r: Option<Shipment<F>>,
)
    requires
        call_ensures(App::<F>::send_chosen, (app,), r),
    ensures
        r is Some <==> old(app).chosen is Some && !old(app).asus_running,
        r matches Some(shipment) ==> shipment.path@ == old(app).chosen->Some_0@
            && shipment.crop.zoom == old(app).zoom && shipment.crop.pan_x == old(app).pan_x
            && shipment.crop.pan_y == old(app).pan_y && video_answer(shipment.path@, shipment.video)
            && final(app).busy && final(app).pending && (shipment.video ==> final(app).status@ == "Preparing the video…"@) && (
        !shipment.video ==> final(app).status@ == "Sending the photo…"@),
        r is None && !old(app).asus_running ==> *final(app) == *old(app),
        old(app).asus_running ==> final(app).status@ == "Quit the ROG STRIX LC app first."@
            && final(app).busy == old(app).busy && final(app).pending == old(app).pending,
        *final(app) == (App {
            busy: final(app).busy,
            pending: final(app).pending,
            status: final(app).status,
            ..*old(app)
        }),
{
}

/// The file of last time is sent again where it is still there, where that was put off until the
/// screen is known, and where the official program does not run; it is never put off twice.
pub proof fn law_last_file_is_sent_again<F: Copy>(
    app: &mut App<F>,
    file_exists: bool,
    r: Option<Shipment<F>>,
)
    requires
        call_ensures(App::<F>::maybe_resume, (app, file_exists), r),
    ensures
        r is Some <==> old(app).resume_when_ready && old(app).chosen is Some && file_exists
            && !old(app).asus_running,
        r matches Some(shipment) ==> shipment.path@ == old(app).chosen->Some_0@
            && shipment.crop.zoom == old(app).zoom && shipment.crop.pan_x == old(app).pan_x
            && shipment.crop.pan_y == old(app).pan_y && video_answer(shipment.path@, shipment.video)
            && final(app).busy && final(app).pending,
        !final(app).resume_when_ready,
        old(app).resume_when_ready && old(app).asus_running ==> final(app).status@
            == "Quit the ROG STRIX LC app first. The last file was not sent."@,
        r is None && !(old(app).resume_when_ready && old(app).asus_running) ==> final(app).status
            == old(app).status,
        r is None ==> final(app).busy == old(app).busy && final(app).pending
            == old(app).pending,
        *final(app) == (App {
            busy: final(app).busy,
            pending: final(app).pending,
            status: final(app).status,
            resume_when_ready: final(app).resume_when_ready,
            ..*old(app)
        }),
{
}

/// Once the screen's state is read, the window holds it and the slider goes to its brightness.
/// The buttons come back unless a file is sent at once, which is the one that was put off; where
/// nothing was put off the status line says `Ready.`, if all it said was that the screen is read.
pub proof fn law_state_that_was_read_is_shown<F: Copy>(
    app: &mut App<F>,
    shot: Snapshot,
    file_exists: bool,
    r: Follow<F>,
)
    requires
        call_ensures(
            App::<F>::poll,
            (app, (JobResult::Snapshot { shot: Ok(shot) }), file_exists),
            r,
        ),
    ensures
        final(app).snapshot == Some(shot),
        final(app).brightness == shot.brightness,
        r is Send <==> old(app).resume_when_ready && old(app).chosen is Some && file_exists
            && !old(app).asus_running,
        r is Send || r is Nothing,
        r matches Follow::Send { shipment } ==> shipment.path@ == old(app).chosen->Some_0@
            && shipment.crop.zoom == old(app).zoom && shipment.crop.pan_x == old(app).pan_x
            && shipment.crop.pan_y == old(app).pan_y && video_answer(
            shipment.path@,
            shipment.video,
        ),
        final(app).busy == (r is Send) && final(app).pending == (r is Send),
        !final(app).resume_when_ready,
        !old(app).resume_when_ready && old(app).status@.len() >= 16 && old(app).status@.take(16)
            == "Reading the pump"@ ==> final(app).status@ == "Ready."@,
        !old(app).resume_when_ready && (old(app).status@.len() < 16 || old(app).status@.take(16)
            != "Reading the pump"@) ==> final(app).status == old(app).status,
        *final(app) == (App {
            snapshot: final(app).snapshot,
            brightness: final(app).brightness,
            busy: final(app).busy,
            pending: final(app).pending,
            status: final(app).status,
            resume_when_ready: final(app).resume_when_ready,
            ..*old(app)
        }),
{
    reveal_strlit("Reading the pump");
    let start = "Reading the pump"@;
    let line = old(app).status@;
    assert(start.is_prefix_of(line) <==> line.len() >= 16 && line.take(16) == start) by {
        if line.len() >= 16 {
            assert(line.take(16) =~= line.subrange(0, 16));
        }
    }
}

/// Where the screen's state could not be read, the window keeps the one it holds. It says why,
/// unless the file that was put off has more to say.
pub proof fn law_state_that_was_not_read_is_kept<F: Copy>(
    app: &mut App<F>,
    message: String,
    file_exists: bool,
    r: Follow<F>,
)
    requires
        call_ensures(
            App::<F>::poll,
            (app, (JobResult::Snapshot { shot: Err(message) }), file_exists),
            r,
        ),
    ensures
        final(app).snapshot == old(app).snapshot,
        final(app).brightness == old(app).brightness,
        r is Send <==> old(app).resume_when_ready && old(app).chosen is Some && file_exists
            && !old(app).asus_running,
        r is Send || r is Nothing,
        r matches Follow::Send { shipment } ==> shipment.path@ == old(app).chosen->Some_0@
            && shipment.crop.zoom == old(app).zoom && shipment.crop.pan_x == old(app).pan_x
            && shipment.crop.pan_y == old(app).pan_y && video_answer(
            shipment.path@,
            shipment.video,
        ),
        final(app).busy == (r is Send) && final(app).pending == (r is Send),
        !final(app).resume_when_ready,
        r is Nothing && !(old(app).resume_when_ready && old(app).asus_running) ==> final(app).status@
            == message@,
        old(app).resume_when_ready && old(app).asus_running ==> final(app).status@
            == "Quit the ROG STRIX LC app first. The last file was not sent."@,
{
}

/// After a job that changed something, the screen's state is read again, and the window waits on.
/// Frames are handed to the worker as they are. A job that failed leaves its words in the status
/// line, and the buttons come back.
pub proof fn law_results_are_followed_up<F: Copy>(
    a: &mut App<F>,
    b: &mut App<F>,
    c: &mut App<F>,
    d: &mut App<F>,
    clip: Clip,
    message: String,
    file_exists: bool,
    done: Follow<F>,
    failed: Follow<F>,
    frames: Follow<F>,
    unread: Follow<F>,
)
    requires
        call_ensures(App::<F>::poll, (a, (JobResult::Done { done: Ok(()) }), file_exists), done),
        call_ensures(
            App::<F>::poll,
            (b, (JobResult::Done { done: Err(message) }), file_exists),
            failed,
        ),
        call_ensures(
            App::<F>::poll,
            (c, (JobResult::Frames { clip: Ok(clip) }), file_exists),
            frames,
        ),
        call_ensures(
            App::<F>::poll,
            (d, (JobResult::Frames { clip: Err(message) }), file_exists),
            unread,
        ),
    ensures
        done is Refresh && failed is Nothing && unread is Nothing,
        frames == (Follow::<F>::Play { clip }),
        final(a).status@ == "On the pump."@ && final(a).busy && final(a).pending,
        final(b).status@ == message@ && !final(b).busy && !final(b).pending,
        final(c).status == old(c).status && !final(c).busy && !final(c).pending,
        final(d).status@ == message@ && !final(d).busy && !final(d).pending,
        *final(a) == (App { status: final(a).status, busy: true, pending: true, ..*old(a) }),
        *final(b) == (App { status: final(b).status, busy: false, pending: false, ..*old(b) }),
        *final(c) == (App { busy: false, pending: false, ..*old(c) }),
        *final(d) == (App { status: final(d).status, busy: false, pending: false, ..*old(d) }),
{
}

/// A preview that can be drawn is shown with the size of its source, and one that cannot leaves
/// what is shown and says why. Either way it is waited for no longer.
pub proof fn law_previews_are_shown_or_complained_of<F: Copy>(
    a: &mut App<F>,
    b: &mut App<F>,
    c: &mut App<F>,
    width: u32,
    height: u32,
    error: String,
    shown: (),
    unreadable: (),
    failed: (),
)
    requires
        call_ensures(
            App::<F>::take_preview,
            (a, (PreviewResult::Shown { width, height })),
            shown,
        ),
        call_ensures(
            App::<F>::take_preview,
            (b, (PreviewResult::Unreadable { error })),
            unreadable,
        ),
        call_ensures(
            App::<F>::take_preview,
            (c, (PreviewResult::Failed { message: error })),
            failed,
        ),
    ensures
        final(a).shows_preview && final(a).source_width == width && final(a).source_height
            == height,
        final(a).status@ == "Drag the square to crop, then show it on the pump."@,
        final(b).status@ == "could not show a preview: "@ + error@,
        final(c).status@ == error@,
        *final(a) == (App {
            preview_pending: false,
            shows_preview: true,
            source_width: final(a).source_width,
            source_height: final(a).source_height,
            status: final(a).status,
            ..*old(a)
        }),
        *final(b) == (App { preview_pending: false, status: final(b).status, ..*old(b) }),
        *final(c) == (App { preview_pending: false, status: final(c).status, ..*old(c) }),
{
}

/// A preview gives a picture to draw exactly where the window then shows one, with the size of the
/// preview's source; where it gives none the window says so and keeps what it shows.
pub proof fn law_drawn_previews_are_shown<F: Copy>(
    a: &mut App<F>,
    b: &mut App<F>,
    preview: Preview,
    message: String,
    drawn: Option<Picture>,
    none: Option<Picture>,
)
    requires
        call_ensures(App::<F>::poll_preview, (a, Ok(preview)), drawn),
        call_ensures(App::<F>::poll_preview, (b, Err(message)), none),
    ensures
        !final(a).preview_pending && !final(b).preview_pending,
        drawn is Some ==> final(a).shows_preview && final(a).source_width == preview.width
            && final(a).source_height == preview.height && final(a).status@
            == "Drag the square to crop, then show it on the pump."@,
        drawn is None ==> final(a).shows_preview == old(a).shows_preview && final(a).source_width
            == old(a).source_width && final(a).source_height == old(a).source_height
            && "could not show a preview: "@.is_prefix_of(final(a).status@),
        none is None,
        final(b).status@ == message@,
        *final(b) == (App { preview_pending: false, status: final(b).status, ..*old(b) }),
        final(a).busy == old(a).busy && final(a).pending == old(a).pending,
        final(a).chosen == old(a).chosen && final(a).settings == old(a).settings,
{
    let start = "could not show a preview: "@;
    assert forall|words: Seq<char>| start.is_prefix_of(#[trigger] (start + words)) by {
        assert((start + words).subrange(0, start.len() as int) =~= start);
    }
}

/// Each box changes its own setting, and no other box.
pub proof fn law_boxes_set_what_they_say<F: Copy>(
    a: &mut App<F>,
    b: &mut App<F>,
    value: bool,
    tray: (),
    resume: (),
)
    requires
        call_ensures(App::<F>::set_close_to_tray, (a, value), tray),
        call_ensures(App::<F>::set_resume_last, (b, value), resume),
    ensures
        final(a).settings.close_to_tray == value,
        final(a).settings.start_with_windows == old(a).settings.start_with_windows,
        final(a).settings.start_in_tray == old(a).settings.start_in_tray,
        final(a).settings.resume_last == old(a).settings.resume_last,
        final(a).settings.zoom == old(a).zoom && final(a).settings.speed == old(a).speed,
        *final(a) == (App { settings: final(a).settings, ..*old(a) }),
        final(b).settings.resume_last == value,
        final(b).settings.close_to_tray == old(b).settings.close_to_tray,
        final(b).settings.start_with_windows == old(b).settings.start_with_windows,
        final(b).settings.start_in_tray == old(b).settings.start_in_tray,
        final(b).settings.zoom == old(b).zoom && final(b).settings.speed == old(b).speed,
        *final(b) == (App { settings: final(b).settings, ..*old(b) }),
{
}

/// The startup entry is put there or taken out as the first box says, and hides the window as the
/// second does; the second changes it only where there is one. A window that opens writes it again
/// where there is one.
pub proof fn law_startup_boxes_change_the_entry<F: Copy>(
    a: &mut App<F>,
    b: &mut App<F>,
    app: &App<F>,
    value: bool,
    entry: SignIn,
    hidden: Option<SignIn>,
    start: Option<SignIn>,
)
    requires
        call_ensures(App::<F>::set_start_with_windows, (a, value), entry),
        call_ensures(App::<F>::set_start_in_tray, (b, value), hidden),
        call_ensures(App::<F>::entry_at_start, (app,), start),
    ensures
        entry.enable == value && entry.hidden == old(a).settings.start_in_tray,
        final(a).settings.start_with_windows == value,
        *final(a) == (App {
            settings: Settings { start_with_windows: value, ..old(a).settings },
            ..*old(a)
        }),
        hidden is Some <==> old(b).settings.start_with_windows,
        hidden matches Some(entry) ==> entry.enable && entry.hidden == value,
        final(b).settings.start_in_tray == value,
        *final(b) == (App {
            settings: Settings { start_in_tray: value, ..old(b).settings },
            ..*old(b)
        }),
        start is Some <==> app.settings.start_with_windows,
        start matches Some(entry) ==> entry.enable && entry.hidden == app.settings.start_in_tray,
{
}

/// Where the startup entry could not be changed, the first box goes back to what it was and
/// nothing is saved; the second box stays and is saved. Both times the window says why.
pub proof fn law_failed_entry_is_told<F: Copy>(
    a: &mut App<F>,
    b: &mut App<F>,
    c: &mut App<F>,
    d: &mut App<F>,
    message: String,
    failed: bool,
    done: bool,
    hidden_failed: (),
    hidden_done: (),
)
    requires
        call_ensures(App::<F>::start_with_windows_done, (a, Err(message)), failed),
        call_ensures(App::<F>::start_with_windows_done, (b, Ok(())), done),
        call_ensures(App::<F>::start_in_tray_done, (c, Err(message)), hidden_failed),
        call_ensures(App::<F>::start_in_tray_done, (d, Ok(())), hidden_done),
    ensures
        !failed && done,
        final(a).settings.start_with_windows == !old(a).settings.start_with_windows,
        final(a).settings.last_path == old(a).settings.last_path,
        final(a).settings.zoom == old(a).settings.zoom,
        final(a).status@ == message@,
        final(b).settings.start_with_windows == old(b).settings.start_with_windows,
        final(b).settings.zoom == old(b).zoom,
        final(b).status == old(b).status,
        final(c).settings.start_in_tray == old(c).settings.start_in_tray,
        final(c).settings.zoom == old(c).zoom,
        final(c).status@ == message@,
        final(d).settings.start_in_tray == old(d).settings.start_in_tray,
        final(d).settings.zoom == old(d).zoom,
        final(d).status == old(d).status,
        *final(a) == (App {
            settings: Settings {
                start_with_windows: final(a).settings.start_with_windows,
                ..old(a).settings
            },
            status: final(a).status,
            ..*old(a)
        }),
        *final(b) == (App { settings: final(b).settings, ..*old(b) }),
        *final(c) == (App { settings: final(c).settings, status: final(c).status, ..*old(c) }),
        *final(d) == (App { settings: final(d).settings, ..*old(d) }),
{
}

/// What is chosen at the tray: to stop leaves word of it, to quit is remembered, and showing the
/// window changes nothing. A window that quits is never kept in the tray, and one that is asked to
/// close is, where that is wanted.
pub proof fn law_tray_choices<F: Copy>(
    app: &mut App<F>,
    action: &TrayAction,
    window: &App<F>,
    close_requested: bool,
    r: TrayStep,
    stays: bool,
)
    requires
        call_ensures(App::<F>::poll_tray, (app, action), r),
        call_ensures(App::<F>::stays_in_tray, (window, close_requested), stays),
    ensures
        *action == TrayAction::Show ==> r == TrayStep::ShowWindow,
        *action matches TrayAction::Menu { id } ==> id@ == "quit"@ ==> r == TrayStep::Quit,
        *action matches TrayAction::Menu { id } ==> id@ == "stop"@ ==> r == TrayStep::StopVideo,
        r == TrayStep::Quit ==> *final(app) == (App { quit: true, ..*old(app) }),
        r == TrayStep::StopVideo ==> final(app).status@
            == "Stopped. The pump keeps the last frame."@ && final(app).quit == old(app).quit,
        r != TrayStep::Quit && r != TrayStep::StopVideo ==> *final(app) == *old(app),
        *final(app) == (App { quit: final(app).quit, status: final(app).status, ..*old(app) }),
        stays <==> close_requested && window.settings.close_to_tray && !window.quit,
{
    reveal_strlit("show");
    reveal_strlit("stop");
    reveal_strlit("quit");
    assert("show"@[1] == 'h');
    assert("stop"@[1] == 't');
    assert("quit"@[1] == 'u');
}

/// The window hides once, is drawn again sooner while something is waited for, and lets a file be
/// sent only where there is one and nothing is under way.
pub proof fn law_window_timing<F: Copy>(
    a: &mut App<F>,
    app: &App<F>,
    hid: bool,
    millis: u64,
    sends: bool,
)
    requires
        call_ensures(App::<F>::hides, (a,), hid),
        call_ensures(App::<F>::repaint_after, (app,), millis),
        call_ensures(App::<F>::can_send, (app,), sends),
    ensures
        hid == old(a).hide_once,
        *final(a) == (App { hide_once: false, ..*old(a) }),
        app.pending || app.preview_pending ==> millis == 200,
        !app.pending && !app.preview_pending ==> millis == 500,
        sends <==> app.chosen is Some && !app.busy,
{
}

/// The lines at the top name the screen's serial number, firmware, brightness, rotation and free
/// space, each from its own field.
pub proof fn law_labels_name_the_state<F: Copy>(app: &App<F>, r: Vec<String>)
    requires
        call_ensures(App::<F>::labels, (app,), r),
    ensures
        app.snapshot is None ==> r@.len() == 1 && r@[0]@ == "Not connected yet."@,
        app.snapshot matches Some(shot) ==> r@.len() == 3 && r@[0]@ == "Serial "@ + shot.serial@
            && r@[1]@ == "Firmware "@ + shot.firmware@ && r@[2]@ == "On screen: brightness "@
            + decimal(shot.brightness as nat) + ", rotation "@ + decimal(shot.rotation as nat)
            + "°, free "@ + shot.free_space@,
{
    let w = words(r@);
    assert(w.len() == r@.len());
    assert(w[0] == r@[0]@);
    if app.snapshot is Some {
        assert(w[1] == r@[1]@);
        assert(w[2] == r@[2]@);
    }
}

/// While a clip plays the status line counts its frames, names the speed and says what closing the
/// window does. Stopping and complaining change the status line alone.
pub proof fn law_status_line_says_what_goes_on<F: Copy>(
    a: &mut App<F>,
    b: &mut App<F>,
    c: &mut App<F>,
    count: usize,
    speed: &str,
    message: String,
    played: (),
    stopped: (),
    complained: (),
)
    requires
        call_ensures(App::<F>::plays, (a, count, speed), played),
        call_ensures(App::<F>::stop_video, (b,), stopped),
        call_ensures(App::<F>::complain, (c, message), complained),
    ensures
        old(a).settings.close_to_tray ==> final(a).status@ == "Playing "@ + decimal(count as nat)
            + " frames at "@ + speed@ + "×. "@
            + "Closing the window leaves it running in the tray."@,
        !old(a).settings.close_to_tray ==> final(a).status@ == "Playing "@ + decimal(count as nat)
            + " frames at "@ + speed@ + "×. "@ + "The window has to stay open."@,
        final(b).status@ == "Stopped. The pump keeps the last frame."@,
        final(c).status@ == message@,
        *final(a) == (App { status: final(a).status, ..*old(a) }),
        *final(b) == (App { status: final(b).status, ..*old(b) }),
        *final(c) == (App { status: final(c).status, ..*old(c) }),
{
}

} // verus!
