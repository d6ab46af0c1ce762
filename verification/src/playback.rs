//! What the screen worker does: it plays a clip frame by frame and takes up other work in between.
//!
//! Times are nanoseconds on the clock of the program.

use crate::command::PowerEvent;
use vstd::prelude::*;

verus! {

/// How long to wait before the screen is looked for again, in nanoseconds.
pub const RETRY: u64 = 500_000_000;

/// One piece of work for the screen that is answered.
#[derive(Debug, Clone, PartialEq, Eq)]
pub enum Job {
    Refresh,
    Brightness { value: u8 },
    Rotate { degrees: u16 },
    Power { event: PowerEvent },
    ShowStill { jpeg: Vec<u8> },
}

/// What the worker is asked for.
#[derive(Debug, Clone, PartialEq, Eq)]
pub enum Request {
    Job { job: Job },
    Play { frames: Vec<Vec<u8>>, frame_ms: u64 },
    Stop,
}

/// A clip that is being played.
#[derive(Debug, Clone, PartialEq, Eq)]
pub struct Playing {
    pub frames: Vec<Vec<u8>>,
    pub frame_ms: u64,
    /// The frame that comes next.
    pub index: usize,
    /// When it is due.
    pub next_at: u128,
}

impl Playing {
    /// There is a frame that comes next, unless there are no frames at all, and a frame lasts.
    pub open spec fn wf(self) -> bool {
        &&& self.frames@.len() == 0 ==> self.index == 0
        &&& self.frames@.len() > 0 ==> self.index < self.frames@.len()
        &&& self.frame_ms >= 1
    }
}

/// The worker's own state: the clip that is being played.
#[derive(Debug, Clone, PartialEq, Eq)]
pub struct Playback {
    pub playing: Option<Playing>,
}

/// How long the worker waits for a request.
#[derive(Debug, Clone, Copy, PartialEq, Eq, Structural)]
pub enum Wait {
    /// Until one comes.
    ForRequest,
    /// Until one comes, or this many nanoseconds have passed.
    AtMost(u128),
}

/// What the worker does next.
#[derive(Debug, Clone, Copy, PartialEq, Eq, Structural)]
pub enum Turn {
    /// Nothing: it waits again.
    Idle,
    /// It looks for the screen.
    Connect,
    /// It sends frame `index`; where `prepare` is set, it opens the picture channel first.
    Send { index: usize, prepare: bool },
}

/// A clip that starts now, from its first frame. A frame lasts a millisecond at least.
pub open spec fn started(frames: Vec<Vec<u8>>, frame_ms: u64, now: u64) -> Playing {
    Playing {
        frames,
        frame_ms: if frame_ms == 0 {
            1
        } else {
            frame_ms
        },
        index: 0,
        next_at: now as u128,
    }
}

/// What is being played after a request.
pub open spec fn after_request(request: Request, now: u64) -> Option<Playing> {
    match request {
        Request::Job { job } => None,
        Request::Play { frames, frame_ms } => Some(started(frames, frame_ms, now)),
        Request::Stop => None,
    }
}

/// What is still being played when the worker's turn comes: nothing that was cancelled, and no
/// clip without frames.
pub open spec fn still_playing(playing: Option<Playing>, cancelled: bool) -> Option<Playing> {
    match playing {
        Some(play) => if cancelled || play.frames@.len() == 0 {
            None
        } else {
            Some(play)
        },
        None => None,
    }
}

/// What the worker does with a clip: nothing before the next frame is due, and nothing without the
/// screen. The first frame of each round opens the picture channel.
pub open spec fn turn_for(playing: Option<Playing>, now: u64, connected: bool) -> Turn {
    match playing {
        Some(play) => if now < play.next_at {
            Turn::Idle
        } else if !connected {
            Turn::Connect
        } else {
            Turn::Send { index: play.index, prepare: play.index == 0 }
        },
        None => Turn::Idle,
    }
}

/// When the next frame is due: `gap` after the last one began, or at once where that has passed.
/// `spent` is how long the last one took.
pub open spec fn due(now: u64, gap: u64, spent: u64) -> u128 {
    if gap > spent {
        (now + (gap - spent)) as u128
    } else {
        now as u128
    }
}

/// The clip after a frame was sent: the next frame, or the first one again.
pub open spec fn after_frame(play: Playing, now: u64, gap: u64, spent: u64) -> Playing {
    Playing {
        index: ((play.index + 1) % play.frames@.len() as int) as usize,
        next_at: due(now, gap, spent),
        ..play
    }
}

/// What is being played when the screen was not found: the same frame, a little later.
pub open spec fn put_off(playing: Option<Playing>, now: u64) -> Option<Playing> {
    match playing {
        Some(play) => Some(Playing { next_at: (now + RETRY) as u128, ..play }),
        None => None,
    }
}

/// What is being played after a frame was sent, or failed to be.
pub open spec fn after_sending(
    playing: Option<Playing>,
    ok: bool,
    now: u64,
    gap: u64,
    spent: u64,
) -> Option<Playing> {
    match playing {
        Some(play) => if ok && play.frames@.len() > 0 {
            Some(after_frame(play, now, gap, spent))
        } else {
            None
        },
        None => None,
    }
}

impl Playback {
    /// What is being played has a frame that comes next.
    pub open spec fn wf(self) -> bool {
        match self.playing {
            Some(play) => play.wf(),
            None => true,
        }
    }

    /// A worker that plays nothing.
    pub fn new() -> (r: Playback)
        ensures
            r.playing is None,
            r.wf(),
    {
        Playback { playing: None }
    }

    /// How long to wait for a request. A clip is waited for until its next frame is due.
    pub fn wait(&self, now: u64) -> (r: Wait)
        ensures
            r == match self.playing {
                Some(play) => Wait::AtMost(
                    if play.next_at > now {
                        (play.next_at - now) as u128
                    } else {
                        0
                    },
                ),
                None => Wait::ForRequest,
            },
    {
        match &self.playing {
            Some(play) => {
                if play.next_at > now as u128 {
                    Wait::AtMost(play.next_at - now as u128)
                } else {
                    Wait::AtMost(0)
                }
            },
            None => Wait::ForRequest,
        }
    }

    /// Takes up a request. Whatever it is, it ends what was being played; what is left to do for
    /// it is handed back.
    pub fn take_up(&mut self, request: Request, now: u64) -> (r: Option<Job>)
        ensures
            final(self).playing == after_request(request, now),
            final(self).wf(),
            r == match request {
                Request::Job { job } => Some(job),
                _ => None,
            },
    {
        match request {
            Request::Job { job } => {
                self.playing = None;
                Some(job)
            },
            Request::Play { frames, frame_ms } => {
                let frame_ms: u64 = if frame_ms == 0 {
                    1
                } else {
                    frame_ms
                };
                self.playing = Some(
                    Playing { frames, frame_ms, index: 0, next_at: now as u128 },
                );
                None
            },
            Request::Stop => {
                self.playing = None;
                None
            },
        }
    }

    /// The worker's turn. `cancelled` says whether playback was cancelled, and `connected` whether
    /// there is a screen.
    pub fn turn(&mut self, cancelled: bool, now: u64, connected: bool) -> (r: Turn)
        ensures
            final(self).playing == still_playing(old(self).playing, cancelled),
            r == turn_for(final(self).playing, now, connected),
            old(self).wf() ==> final(self).wf(),
    {
        if cancelled {
            self.playing = None;
            return Turn::Idle;
        }
        let empty: bool = match &self.playing {
            Some(play) => play.frames.len() == 0,
            None => false,
        };
        if empty {
            self.playing = None;
            return Turn::Idle;
        }
        match &self.playing {
            Some(play) => {
                if (now as u128) < play.next_at {
                    Turn::Idle
                } else if !connected {
                    Turn::Connect
                } else {
                    Turn::Send { index: play.index, prepare: play.index == 0 }
                }
            },
            None => Turn::Idle,
        }
    }

    /// The screen was not found: the same frame is tried again a little later.
    pub fn not_connected(&mut self, now: u64)
        ensures
            final(self).playing == put_off(old(self).playing, now),
            old(self).wf() ==> final(self).wf(),
    {
        let playing: Option<Playing> = self.playing.take();
        self.playing = match playing {
            Some(play) => Some(
                Playing {
                    frames: play.frames,
                    frame_ms: play.frame_ms,
                    index: play.index,
                    next_at: now as u128 + RETRY as u128,
                },
            ),
            None => None,
        };
    }

    /// A frame was sent, or sending it failed, which ends the clip. `gap` is how long a frame
    /// lasts at the speed that is set, and `spent` how long this one took to send.
    pub fn sent(&mut self, ok: bool, now: u64, gap: u64, spent: u64)
        requires
            old(self).wf(),
        ensures
            final(self).playing == after_sending(old(self).playing, ok, now, gap, spent),
            final(self).wf(),
    {
        if !ok {
            self.playing = None;
            return ;
        }
        let playing: Option<Playing> = self.playing.take();
        self.playing = match playing {
            Some(play) => {
                let count: usize = play.frames.len();
                if count == 0 {
                    None
                } else {
                    let index: usize = if play.index + 1 == count {
                        0
                    } else {
                        play.index + 1
                    };
                    assert(index == (play.index + 1) % count as int) by {
                        if play.index + 1 < count {
                            vstd::arithmetic::div_mod::lemma_small_mod(
                                (play.index + 1) as nat,
                                count as nat,
                            );
                        } else {
                            vstd::arithmetic::div_mod::lemma_mod_self_0(count as int);
                        }
                    }
                    let next_at: u128 = if gap > spent {
                        now as u128 + (gap - spent) as u128
                    } else {
                        now as u128
                    };
                    Some(Playing { frames: play.frames, frame_ms: play.frame_ms, index, next_at })
                }
            },
            None => None,
        };
    }
}

/// The playback speed in thousandths that is kept: a quarter at least.
pub fn kept_speed(thousandths: u32) -> (r: u32)
    ensures
        r == if thousandths < 250 {
            250
        } else {
            thousandths
        },
{
    if thousandths < 250 {
        250
    } else {
        thousandths
    }
}

/// The playback speed in thousandths that is used: from a quarter to double.
pub fn used_speed(thousandths: u32) -> (r: u32)
    ensures
        250 <= r <= 2000,
        250 <= thousandths <= 2000 ==> r == thousandths,
        thousandths < 250 ==> r == 250,
        thousandths > 2000 ==> r == 2000,
{
    if thousandths < 250 {
        250
    } else if thousandths > 2000 {
        2000
    } else {
        thousandths
    }
}

/// What is done about a job before anything else.
#[derive(Debug, Clone, Copy, PartialEq, Eq, Structural)]
pub enum JobStep {
    /// The screen is looked for.
    Connect,
    /// The job is run.
    Run,
}

/// What is done about a job: without a screen, one is looked for once; then the job is run,
/// whether one was found or not.
pub fn job_step(connected: bool, looked: bool) -> (r: JobStep)
    ensures
        r == if !connected && !looked {
            JobStep::Connect
        } else {
            JobStep::Run
        },
{
    if !connected && !looked {
        JobStep::Connect
    } else {
        JobStep::Run
    }
}

/// One thing done with the screen for a job.
#[derive(Debug, Clone, Copy, PartialEq, Eq, Structural)]
pub enum Call {
    /// Find the screen and open it.
    Open,
    /// Ask the screen who it is.
    Connect,
    /// Ask the screen for its state.
    State,
    Brightness { value: u8 },
    Rotate { degrees: u16 },
    Power { event: PowerEvent },
    /// Show the picture of the job.
    Show,
}

/// What is done for a job, in this order and up to the first thing that fails, or nothing where
/// the job needs a screen that is not there. Only a refresh looks for the screen itself.
pub open spec fn calls_for(job: Job, connected: bool) -> Option<Seq<Call>> {
    match job {
        Job::Refresh => Some(
            if connected {
                seq![Call::Connect, Call::State]
            } else {
                seq![Call::Open, Call::Connect, Call::Connect, Call::State]
            },
        ),
        Job::Brightness { value } => if connected {
            Some(seq![Call::Brightness { value }, Call::Connect, Call::State])
        } else {
            None
        },
        Job::Rotate { degrees } => if connected {
            Some(seq![Call::Rotate { degrees }, Call::Connect, Call::State])
        } else {
            None
        },
        Job::Power { event } => if connected {
            Some(seq![Call::Power { event }, Call::Connect, Call::State])
        } else {
            None
        },
        Job::ShowStill { jpeg } => if connected {
            Some(seq![Call::Show])
        } else {
            None
        },
    }
}

/// There is no screen for a job that needs one.
#[derive(Debug, Clone, Copy, PartialEq, Eq, Structural)]
pub struct NotConnected;

impl NotConnected {
    /// The complaint in words.
    pub fn message(&self) -> (r: String)
        ensures
            r@ == "pump screen is not connected"@,
    {
        "pump screen is not connected".to_owned()
    }
}

/// Plans what is done for a job.
pub fn dispatch(job: &Job, connected: bool) -> (r: Result<Vec<Call>, NotConnected>)
    ensures
        match r {
            Ok(calls) => calls_for(*job, connected) == Some(calls@),
            Err(_) => calls_for(*job, connected) is None,
        },
{
    let mut calls: Vec<Call> = Vec::new();
    if !connected {
        match job {
            Job::Refresh => {
                calls.push(Call::Open);
                calls.push(Call::Connect);
            },
            _ => {
                return Err(NotConnected);
            },
        }
    }
    match job {
        Job::Refresh => {},
        Job::Brightness { value } => {
            calls.push(Call::Brightness { value: *value });
        },
        Job::Rotate { degrees } => {
            calls.push(Call::Rotate { degrees: *degrees });
        },
        Job::Power { event } => {
            calls.push(Call::Power { event: *event });
        },
        Job::ShowStill { jpeg } => {
            calls.push(Call::Show);
            assert(calls@ =~= calls_for(*job, connected)->0);
            return Ok(calls);
        },
    }
    calls.push(Call::Connect);
    calls.push(Call::State);
    assert(calls@ =~= calls_for(*job, connected)->0);
    Ok(calls)
}

/// Something that happens to the worker.
pub enum Event {
    /// It is asked for something.
    Asked { request: Request, at: u64 },
    /// Its turn comes.
    Turned { cancelled: bool },
    /// It finds no screen.
    Unconnected { at: u64 },
    /// It has sent a frame, or failed to.
    Sent { ok: bool, at: u64, gap: u64, spent: u64 },
}

/// What is being played after something has happened.
pub open spec fn after_event(playing: Option<Playing>, event: Event) -> Option<Playing> {
    match event {
        Event::Asked { request, at } => after_request(request, at),
        Event::Turned { cancelled } => still_playing(playing, cancelled),
        Event::Unconnected { at } => put_off(playing, at),
        Event::Sent { ok, at, gap, spent } => after_sending(playing, ok, at, gap, spent),
    }
}

/// What is being played after all of `events`.
pub open spec fn after_events(playing: Option<Playing>, events: Seq<Event>) -> Option<Playing>
    decreases events.len(),
{
    if events.len() == 0 {
        playing
    } else {
        after_event(after_events(playing, events.drop_last()), events.last())
    }
}

/// The worker is asked to play a clip.
pub open spec fn starts_a_clip(event: Event) -> bool {
    event matches Event::Asked { request, .. } && request is Play
}

/// The worker is asked for something, or is cancelled, or fails to send a frame.
pub open spec fn ends_a_clip(event: Event) -> bool {
    match event {
        Event::Asked { .. } => true,
        Event::Turned { cancelled } => cancelled,
        Event::Unconnected { .. } => false,
        Event::Sent { ok, .. } => !ok,
    }
}

/// How many frames were sent.
pub open spec fn frames_sent(events: Seq<Event>) -> nat
    decreases events.len(),
{
    if events.len() == 0 {
        0
    } else {
        frames_sent(events.drop_last()) + if events.last() is Sent {
            1nat
        } else {
            0
        }
    }
}

/// Once playback is stopped or cancelled, or anything but a clip is asked for, nothing is played
/// and no frame is sent, whatever happens, until a clip is asked for.
pub proof fn law_nothing_plays_after_a_stop(
    playing: Option<Playing>,
    stop: Event,
    events: Seq<Event>,
    now: u64,
    connected: bool,
)
    requires
        ends_a_clip(stop) && !starts_a_clip(stop),
        forall|i: int| 0 <= i < events.len() ==> !starts_a_clip(#[trigger] events[i]),
    ensures
        after_events(after_event(playing, stop), events) is None,
        turn_for(after_events(after_event(playing, stop), events), now, connected) == Turn::Idle,
    decreases events.len(),
{
    if events.len() > 0 {
        assert forall|i: int| 0 <= i < events.drop_last().len() implies !starts_a_clip(
            #[trigger] events.drop_last()[i],
        ) by {
            assert(events.drop_last()[i] == events[i]);
        }
        assert(!starts_a_clip(events[events.len() - 1]));
        law_nothing_plays_after_a_stop(playing, stop, events.drop_last(), now, connected);
    }
}

/// A clip plays its frames in order and starts over after the last one, as long as nothing ends
/// it: after `n` frames were sent, frame `n`, counted round and round, comes next. Neither the
/// pace nor a screen that is away for a while changes that, and the frames stay what they are.
pub proof fn law_frames_play_round_and_round(
    frames: Vec<Vec<u8>>,
    frame_ms: u64,
    start: u64,
    events: Seq<Event>,
)
    requires
        frames@.len() > 0,
        forall|i: int| 0 <= i < events.len() ==> !ends_a_clip(#[trigger] events[i]),
    ensures
        after_events(Some(started(frames, frame_ms, start)), events) matches Some(play) && {
            &&& play.frames == frames
            &&& play.frame_ms == started(frames, frame_ms, start).frame_ms
            &&& play.index == frames_sent(events) % frames@.len()
            &&& play.wf()
        },
    decreases events.len(),
{
    let count = frames@.len();
    vstd::std_specs::vec::axiom_spec_len(&frames);
    if events.len() == 0 {
        vstd::arithmetic::div_mod::lemma_small_mod(0, count);
    } else {
        let earlier = events.drop_last();
        assert forall|i: int| 0 <= i < earlier.len() implies !ends_a_clip(
            #[trigger] earlier[i],
        ) by {
            assert(earlier[i] == events[i]);
        }
        assert(!ends_a_clip(events[events.len() - 1]));
        law_frames_play_round_and_round(frames, frame_ms, start, earlier);
        let before = after_events(Some(started(frames, frame_ms, start)), earlier)->0;
        let n = frames_sent(earlier);
        assert((before.index + 1) % count as int == (n + 1) % count) by {
            vstd::arithmetic::div_mod::lemma_add_mod_noop(n as int, 1, count as int);
            vstd::arithmetic::div_mod::lemma_add_mod_noop(before.index as int, 1, count as int);
            vstd::arithmetic::div_mod::lemma_small_mod(before.index as nat, count);
        }
        vstd::arithmetic::div_mod::lemma_mod_bound((n + 1) as int, count as int);
    }
}

/// The first frame of every round opens the picture channel, and no other frame does.
pub proof fn law_first_frame_opens_the_channel(
    frames: Vec<Vec<u8>>,
    frame_ms: u64,
    start: u64,
    events: Seq<Event>,
    now: u64,
)
    requires
        frames@.len() > 0,
        forall|i: int| 0 <= i < events.len() ==> !ends_a_clip(#[trigger] events[i]),
    ensures
        ({
            let playing = after_events(Some(started(frames, frame_ms, start)), events);
            turn_for(playing, now, true) == if now < playing->0.next_at {
                Turn::Idle
            } else {
                Turn::Send {
                    index: (frames_sent(events) % frames@.len()) as usize,
                    prepare: frames_sent(events) % frames@.len() == 0,
                }
            }
        }),
{
    law_frames_play_round_and_round(frames, frame_ms, start, events);
}

/// A frame begins a whole gap after the one before it, or at once where sending took longer: the
/// pace does not depend on how long sending takes until it takes longer than a frame lasts.
pub proof fn law_pace_is_kept(began: u64, spent: u64, gap: u64)
    requires
        began + spent <= u64::MAX,
    ensures
        due((began + spent) as u64, gap, spent) == if spent <= gap {
            began + gap
        } else {
            began + spent
        },
{
}

/// A clip is waited for until its next frame is due, and without one the worker waits for a
/// request.
pub proof fn law_worker_waits_for_the_next_frame(playback: &Playback, now: u64, r: Wait)
    requires
        call_ensures(Playback::wait, (playback, now), r),
    ensures
        playback.playing is None ==> r == Wait::ForRequest,
        playback.playing matches Some(play) ==> (r matches Wait::AtMost(nanos) && (play.next_at
            >= now ==> now + nanos == play.next_at) && (play.next_at < now ==> nanos == 0)),
{
}

/// A clip that is asked for starts with its first frame at once, its frames and their length are
/// those that are asked for, and a frame lasts a millisecond at least. Everything else stops what
/// plays, and a job is handed back as it is.
pub proof fn law_requests_are_taken_up_as_they_are(
    a: &mut Playback,
    b: &mut Playback,
    c: &mut Playback,
    frames: Vec<Vec<u8>>,
    frame_ms: u64,
    job: Job,
    now: u64,
    played: Option<Job>,
    stopped: Option<Job>,
    handed: Option<Job>,
)
    requires
        call_ensures(Playback::take_up, (a, Request::Play { frames, frame_ms }, now), played),
        call_ensures(Playback::take_up, (b, Request::Stop, now), stopped),
        call_ensures(Playback::take_up, (c, Request::Job { job }, now), handed),
    ensures
        played is None && stopped is None && handed == Some(job),
        final(a).playing matches Some(play) && play.frames == frames && play.index == 0
            && play.next_at == now && (frame_ms >= 1 ==> play.frame_ms == frame_ms) && (frame_ms
            == 0 ==> play.frame_ms == 1),
        final(b).playing is None,
        final(c).playing is None,
{
}

/// When the worker's turn comes: nothing is left of a clip that was cancelled or has no frames. A
/// frame is sent once it is due and there is a screen, it is the frame that comes next, and the
/// first one of a clip opens the channel. Without a screen one is looked for.
pub proof fn law_due_frames_are_sent(
    playback: &mut Playback,
    cancelled: bool,
    now: u64,
    connected: bool,
    r: Turn,
)
    requires
        call_ensures(Playback::turn, (playback, cancelled, now, connected), r),
    ensures
        match old(playback).playing {
            Some(play) => if cancelled || play.frames@.len() == 0 {
                final(playback).playing is None && r == Turn::Idle
            } else {
                &&& final(playback).playing == Some(play)
                &&& r == Turn::Idle <==> now < play.next_at
                &&& r == Turn::Connect <==> now >= play.next_at && !connected
                &&& now >= play.next_at && connected ==> r == (Turn::Send {
                    index: play.index,
                    prepare: play.index == 0,
                })
            },
            None => final(playback).playing is None && r == Turn::Idle,
        },
{
}

/// Without a screen the same frame is tried again half a second later. A frame that was sent is
/// followed by the next, and the last by the first; a frame that failed ends the clip. The next
/// frame is due when this one has lasted, counted from when it began.
pub proof fn law_next_frame_comes_after_a_gap(
    a: &mut Playback,
    b: &mut Playback,
    ok: bool,
    now: u64,
    gap: u64,
    spent: u64,
    put_off: (),
    sent: (),
)
    requires
        call_ensures(Playback::not_connected, (a, now), put_off),
        call_ensures(Playback::sent, (b, ok, now, gap, spent), sent),
        old(b).wf(),
    ensures
        old(a).playing is None ==> final(a).playing is None,
        old(a).playing matches Some(play) ==> (final(a).playing matches Some(later) && later.frames
            == play.frames && later.frame_ms == play.frame_ms && later.index == play.index
            && later.next_at == now + 500_000_000),
        !ok || old(b).playing is None ==> final(b).playing is None,
        old(b).playing matches Some(play) ==> play.frames@.len() == 0 ==> final(b).playing is None,
        old(b).playing matches Some(play) ==> play.frames@.len() > 0 && ok ==> (
        final(b).playing matches Some(next) && next.frames == play.frames && next.frame_ms
            == play.frame_ms && (play.index + 1 < play.frames@.len() ==> next.index == play.index
            + 1) && (play.index + 1 == play.frames@.len() ==> next.index == 0) && (gap >= spent
            ==> next.next_at == now + gap - spent) && (gap < spent ==> next.next_at == now)),
{
    if let Some(play) = old(b).playing {
        if play.frames@.len() > 0 {
            assert(play.frames@.len() == play.frames.len());
            if play.index + 1 < play.frames@.len() {
                vstd::arithmetic::div_mod::lemma_small_mod(
                    (play.index + 1) as nat,
                    play.frames@.len(),
                );
            } else {
                vstd::arithmetic::div_mod::lemma_mod_self_0(play.frames@.len() as int);
            }
        }
    }
}

/// The speed is kept from a quarter on and used up to double; in between it is what was set. A
/// screen that was not found is looked for again after half a second.
pub proof fn law_speed_is_a_quarter_to_double(set: u32, kept: u32, used: u32)
    requires
        call_ensures(kept_speed, (set,), kept),
        call_ensures(used_speed, (set,), used),
    ensures
        set >= 250 ==> kept == set,
        set < 250 ==> kept == 250 && used == 250,
        250 <= set <= 2000 ==> used == set,
        set > 2000 ==> used == 2000,
        RETRY == 500_000_000,
{
}

/// Without a screen, one is looked for once before a job is run.
pub proof fn law_job_looks_for_the_screen_once(connected: bool, looked: bool, r: JobStep)
    requires
        call_ensures(job_step, (connected, looked), r),
    ensures
        connected || looked ==> r == JobStep::Run,
        !connected && !looked ==> r == JobStep::Connect,
{
}

/// With a screen, a job begins with the very thing that it asks for: its brightness, its degrees,
/// its power event or its picture. A picture is all of it; after anything else the screen is asked
/// who it is and how it is, and a refresh asks nothing but that.
pub proof fn law_job_does_what_it_asks_for(job: &Job, r: Result<Vec<Call>, NotConnected>)
    requires
        call_ensures(dispatch, (job, true), r),
    ensures
        r is Ok,
        *job matches Job::Brightness { value } ==> r->Ok_0@[0] == (Call::Brightness { value }),
        *job matches Job::Rotate { degrees } ==> r->Ok_0@[0] == (Call::Rotate { degrees }),
        *job matches Job::Power { event } ==> r->Ok_0@[0] == (Call::Power { event }),
        *job is ShowStill ==> r->Ok_0@.len() == 1 && r->Ok_0@[0] == Call::Show,
        *job is Refresh ==> r->Ok_0@.len() == 2,
        *job is Brightness || *job is Rotate || *job is Power ==> r->Ok_0@.len() == 3,
        !(*job is ShowStill) ==> r->Ok_0@[r->Ok_0@.len() - 2] == Call::Connect && r->Ok_0@[
            r->Ok_0@.len() - 1] == Call::State,
{
}

/// Without a screen, only a refresh is done: it opens the screen first and then does what it does
/// with one. Any other job says that there is no screen.
pub proof fn law_only_a_refresh_opens_the_screen(
    job: &Job,
    r: Result<Vec<Call>, NotConnected>,
    q: Result<Vec<Call>, NotConnected>,
)
    requires
        call_ensures(dispatch, (job, false), r),
        call_ensures(dispatch, (job, true), q),
    ensures
        r is Ok <==> *job is Refresh,
        r matches Ok(calls) ==> calls@ == seq![Call::Open, Call::Connect] + q->Ok_0@,
{
    if r is Ok {
        assert(r->Ok_0@ =~= seq![Call::Open, Call::Connect] + q->Ok_0@);
    }
}

/// What is said where there is no screen, and a worker that has just begun plays nothing.
pub proof fn law_worker_begins_idle(error: &NotConnected, words: String, idle: Playback)
    requires
        call_ensures(NotConnected::message, (error,), words),
        call_ensures(Playback::new, (), idle),
    ensures
        words@ == "pump screen is not connected"@,
        idle.playing is None,
{
}

} // verus!
