use strix_lc_screen::command::PowerEvent;
use strix_lc_screen::playback::{
    dispatch, job_step, kept_speed, used_speed, Call, Job, JobStep, Playback, Request, Turn, Wait,
    RETRY,
};

fn frames(count: u8) -> Vec<Vec<u8>> {
    (0..count).map(|n| vec![n]).collect()
}

fn playing(count: u8, now: u64) -> Playback {
    let mut playback = Playback::new();
    let job = playback.take_up(Request::Play { frames: frames(count), frame_ms: 125 }, now);
    assert_eq!(job, None);
    playback
}

#[test]
fn frames_play_round_and_round() {
    let mut playback = playing(3, 0);
    let mut order = Vec::new();
    for now in 0..7u64 {
        match playback.turn(false, now, true) {
            Turn::Send { index, prepare } => order.push((index, prepare)),
            other => panic!("{other:?}"),
        }
        playback.sent(true, now, 1, 1);
    }
    assert_eq!(
        order,
        [(0, true), (1, false), (2, false), (0, true), (1, false), (2, false), (0, true)]
    );
}

#[test]
fn pace_is_kept() {
    let mut playback = playing(2, 1000);
    assert_eq!(playback.wait(400), Wait::AtMost(600));
    assert_eq!(playback.turn(false, 999, true), Turn::Idle);
    assert_eq!(playback.turn(false, 1000, true), Turn::Send { index: 0, prepare: true });
    playback.sent(true, 1030, 100, 30);
    assert_eq!(playback.wait(1030), Wait::AtMost(70));
    assert_eq!(playback.turn(false, 1099, true), Turn::Idle);
    assert_eq!(playback.turn(false, 1100, true), Turn::Send { index: 1, prepare: false });
    playback.sent(true, 1350, 100, 250);
    assert_eq!(playback.wait(1350), Wait::AtMost(0));
    assert_eq!(playback.turn(false, 1350, true), Turn::Send { index: 0, prepare: true });
}

#[test]
fn missing_screen_is_looked_for_again() {
    let mut playback = playing(2, 10);
    assert_eq!(playback.turn(false, 10, false), Turn::Connect);
    playback.not_connected(10);
    assert_eq!(playback.turn(false, 10, true), Turn::Idle);
    assert_eq!(playback.wait(10), Wait::AtMost(RETRY as u128));
    assert_eq!(
        playback.turn(false, 10 + RETRY, true),
        Turn::Send { index: 0, prepare: true }
    );
}

#[test]
fn nothing_plays_after_a_stop() {
    let mut playback = playing(2, 0);
    assert_eq!(playback.take_up(Request::Stop, 1), None);
    assert_eq!(playback.turn(false, 5, true), Turn::Idle);
    assert_eq!(playback.wait(5), Wait::ForRequest);
    let mut playback = playing(2, 0);
    assert_eq!(playback.turn(true, 5, true), Turn::Idle);
    assert_eq!(playback.turn(false, 6, true), Turn::Idle);
    let mut playback = playing(2, 0);
    let job = playback.take_up(Request::Job { job: Job::Refresh }, 1);
    assert_eq!(job, Some(Job::Refresh));
    assert!(playback.playing.is_none());
    let mut playback = playing(2, 0);
    playback.sent(false, 1, 1, 1);
    assert!(playback.playing.is_none());
    playback.not_connected(9);
    playback.sent(true, 9, 9, 9);
    assert!(playback.playing.is_none());
}

#[test]
fn clips_start_over_with_a_frame_of_a_millisecond_at_least() {
    let mut playback = playing(2, 0);
    playback.sent(true, 1, 1, 1);
    playback.take_up(Request::Play { frames: frames(4), frame_ms: 0 }, 77);
    let play = playback.playing.as_ref().unwrap();
    assert_eq!((play.frame_ms, play.index, play.next_at), (1, 0, 77));
    let mut empty = playing(0, 0);
    assert_eq!(empty.turn(false, 0, true), Turn::Idle);
    assert!(empty.playing.is_none());
}

#[test]
fn speed_stays_within_its_limits() {
    assert_eq!((kept_speed(0), kept_speed(250), kept_speed(9000)), (250, 250, 9000));
    assert_eq!(
        (used_speed(249), used_speed(250), used_speed(1000), used_speed(2001)),
        (250, 250, 1000, 2000)
    );
}

#[test]
fn jobs_look_for_the_screen_once() {
    assert_eq!(job_step(false, false), JobStep::Connect);
    assert_eq!(job_step(false, true), JobStep::Run);
    assert_eq!(job_step(true, false), JobStep::Run);
    assert_eq!(job_step(true, true), JobStep::Run);
}

#[test]
fn jobs_and_their_calls() {
    assert_eq!(dispatch(&Job::Refresh, true), Ok(vec![Call::Connect, Call::State]));
    assert_eq!(
        dispatch(&Job::Refresh, false),
        Ok(vec![Call::Open, Call::Connect, Call::Connect, Call::State])
    );
    assert_eq!(
        dispatch(&Job::Brightness { value: 7 }, true),
        Ok(vec![Call::Brightness { value: 7 }, Call::Connect, Call::State])
    );
    assert_eq!(
        dispatch(&Job::Rotate { degrees: 90 }, true),
        Ok(vec![Call::Rotate { degrees: 90 }, Call::Connect, Call::State])
    );
    let event = PowerEvent::Suspend;
    assert_eq!(
        dispatch(&Job::Power { event }, true),
        Ok(vec![Call::Power { event }, Call::Connect, Call::State])
    );
    assert_eq!(dispatch(&Job::ShowStill { jpeg: vec![1] }, true), Ok(vec![Call::Show]));
    for job in [
        Job::Brightness { value: 7 },
        Job::Rotate { degrees: 90 },
        Job::Power { event },
        Job::ShowStill { jpeg: vec![1] },
    ] {
        let error = dispatch(&job, false).unwrap_err();
        assert_eq!(error.message(), "pump screen is not connected");
    }
}
