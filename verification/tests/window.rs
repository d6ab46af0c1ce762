use strix_lc_screen::command::PowerEvent;
use strix_lc_screen::media::{Clip, Preview};
use strix_lc_screen::picture::picture_of;
use strix_lc_screen::playback::Job;
use strix_lc_screen::settings::Settings;
use strix_lc_screen::status::Snapshot;
use strix_lc_screen::tray::{TrayAction, TrayStep};
use strix_lc_screen::window::{
    App, Follow, JobResult, Press, PreviewResult, SignIn, ASUS_CHECK, ASUS_STALE,
};

const NOW: u64 = 100 * ASUS_STALE;

fn saved(last_path: Option<&str>) -> Settings<f32> {
    Settings { last_path: last_path.map(str::to_string), ..Settings::initial(1.0, 0.0) }
}

fn open(settings: Settings<f32>, last_exists: bool) -> App<f32> {
    App::new(settings, last_exists, false, 1.5, -0.5, 0.5, 2.0, NOW)
}

fn shot(brightness: u8) -> Snapshot {
    Snapshot {
        serial: "S".to_string(),
        firmware: "F".to_string(),
        brightness,
        rotation: 180,
        free_space: "9".to_string(),
    }
}

/// A window that has heard of the screen.
fn ready() -> App<f32> {
    let mut app = open(saved(None), false);
    let follow = app.poll(JobResult::Snapshot { shot: Ok(shot(40)) }, false);
    assert!(matches!(follow, Follow::Nothing));
    app
}

#[test]
fn window_opens_reading() {
    let app = App::new(saved(None), true, true, 1.0, 0.0, 0.0, 1.0, 5);
    assert_eq!(app.status, "Reading the pump…");
    assert!(app.busy && app.pending && app.hide_once && !app.preview_pending);
    assert_eq!((app.brightness, app.asus_checked), (100, 5));
    assert_eq!(app.labels(), ["Not connected yet."]);
    assert_eq!(open(saved(None), false).asus_checked, NOW - ASUS_STALE);
}

#[test]
fn first_snapshot_makes_it_ready() {
    let mut app = ready();
    assert_eq!((app.status.as_str(), app.brightness, app.busy), ("Ready.", 40, false));
    assert_eq!(
        app.labels(),
        ["Serial S", "Firmware F", "On screen: brightness 40, rotation 180°, free 9"]
    );
    app.status = "On the pump.".to_string();
    app.poll(JobResult::Snapshot { shot: Ok(shot(41)) }, false);
    assert_eq!((app.status.as_str(), app.brightness), ("On the pump.", 41));
    app.poll(JobResult::Snapshot { shot: Err("gone".to_string()) }, false);
    assert_eq!((app.status.as_str(), app.brightness), ("gone", 41));
}

#[test]
fn last_file_is_sent_once() {
    for first in [Ok(shot(1)), Err("gone".to_string())] {
        let mut app = open(saved(Some("dir/clip.mp4")), true);
        assert!(app.resume_when_ready && app.preview_pending);
        let Follow::Send { shipment } = app.poll(JobResult::Snapshot { shot: first }, true) else {
            panic!("not sent");
        };
        assert_eq!((shipment.path.as_str(), shipment.video), ("dir/clip.mp4", true));
        assert_eq!(
            (shipment.crop.zoom, shipment.crop.pan_x, shipment.crop.pan_y),
            (1.5, -0.5, 0.5)
        );
        assert_eq!(app.status, "Preparing the video…");
        assert!(app.busy && app.pending && !app.resume_when_ready);
        let again = app.poll(JobResult::Snapshot { shot: Ok(shot(1)) }, true);
        assert!(matches!(again, Follow::Nothing));
    }
}

#[test]
fn last_file_is_not_always_sent() {
    let mut gone = open(saved(Some("a.png")), true);
    assert!(matches!(
        gone.poll(JobResult::Snapshot { shot: Ok(shot(1)) }, false),
        Follow::Nothing
    ));
    assert_eq!(gone.status, "Reading the pump…");
    let missing = open(saved(Some("a.png")), false);
    assert!(missing.chosen.is_none() && !missing.resume_when_ready);
    let off = open(Settings { resume_last: false, ..saved(Some("a.png")) }, true);
    assert!(off.chosen.is_some() && !off.resume_when_ready);
    let mut held = open(saved(Some("a.png")), true);
    held.refresh_asus_flag(true, NOW);
    assert!(held.maybe_resume(true).is_none());
    assert_eq!(
        held.status,
        "Quit the ROG STRIX LC app first. The last file was not sent."
    );
}

#[test]
fn saved_window_comes_back() {
    let mut app = ready();
    app.choose_file("photo.png".to_string(), 1.0, 0.0);
    app.zoom = 2.5;
    app.persist();
    let again = open(app.settings.clone(), true);
    assert_eq!(again.chosen, app.chosen);
    assert_eq!(again.settings.zoom, 2.5);
    assert_eq!(again.settings.speed, 2.0);
    assert!(again.resume_when_ready);
}

#[test]
fn choosing_a_file_starts_over() {
    let mut app = ready();
    app.take_preview(PreviewResult::Shown { width: 6, height: 8 });
    assert_eq!((app.source_width, app.source_height, app.shows_preview), (6, 8, true));
    assert_eq!(app.status, "Drag the square to crop, then show it on the pump.");
    app.choose_file("b.jpg".to_string(), 1.0, 0.0);
    assert_eq!((app.source_width, app.source_height, app.shows_preview), (0, 0, false));
    assert_eq!((app.zoom, app.pan_x, app.pan_y), (1.0, 0.0, 0.0));
    assert_eq!(app.status, "Loading preview…");
    assert_eq!(app.settings.last_path, Some("b.jpg".to_string()));
    assert_eq!(app.repaint_after(), 200);
    app.take_preview(PreviewResult::Unreadable { error: "bits".to_string() });
    assert_eq!(app.status, "could not show a preview: bits");
    app.take_preview(PreviewResult::Failed { message: "no".to_string() });
    assert_eq!(app.status, "no");
    assert_eq!(app.repaint_after(), 500);
}

#[test]
fn decoded_pictures_are_taken_whole() {
    let pixels = [9u8, 8, 7, 6, 5, 4];
    let buffer = image::RgbImage::from_raw(1, 2, pixels.to_vec()).unwrap();
    let picture = picture_of(Ok(image::DynamicImage::ImageRgb8(buffer))).unwrap();
    assert_eq!((picture.width, picture.height), (1, 2));
    assert_eq!(picture.rgb, pixels);
    let gray = image::GrayImage::from_raw(2, 1, vec![3, 200]).unwrap();
    let picture = picture_of(Ok(image::DynamicImage::ImageLuma8(gray))).unwrap();
    assert_eq!((picture.width, picture.height), (2, 1));
    assert_eq!(picture.rgb, [3, 3, 3, 200, 200, 200]);
    let error = image::load_from_memory(&[]).unwrap_err();
    let words = error.to_string();
    assert_eq!(picture_of(Err(error)).unwrap_err(), words);
}

#[test]
fn previews_are_decoded() {
    let mut jpeg = Vec::new();
    let pixels = [250u8; 2 * 3 * 3];
    image::codecs::jpeg::JpegEncoder::new(&mut jpeg)
        .encode(&pixels, 2, 3, image::ExtendedColorType::Rgb8)
        .unwrap();
    let mut app = ready();
    app.choose_file("c.jpg".to_string(), 1.0, 0.0);
    let preview = Preview { width: 200, height: 300, jpeg };
    let picture = app.poll_preview(Ok(preview)).unwrap();
    assert_eq!((picture.width, picture.height, picture.rgb.len()), (2, 3, 18));
    assert!(picture.rgb.iter().all(|byte| byte.abs_diff(250) < 8));
    assert_eq!((app.source_width, app.source_height, app.shows_preview), (200, 300, true));
    assert!(!app.preview_pending);
    let broken = Preview { width: 1, height: 1, jpeg: vec![0xff, 0xd8, 0, 0] };
    assert!(app.poll_preview(Ok(broken)).is_none());
    assert!(app.status.starts_with("could not show a preview: "));
    assert!(app.status.len() > "could not show a preview: ".len());
    assert_eq!(app.poll_preview(Err("gone".to_string())), None);
    assert_eq!(app.status, "gone");
}

#[test]
fn crop_is_reset() {
    let mut app = ready();
    app.reset_crop(1.0, 0.0);
    assert_eq!((app.zoom, app.pan_x, app.pan_y, app.settings.zoom), (1.0, 0.0, 0.0, 1.0));
}

#[test]
fn buttons_ask_for_jobs() {
    let mut app = ready();
    assert_eq!(app.press(Press::Brightness), Some(Job::Brightness { value: 40 }));
    assert_eq!(app.status, "Setting brightness…");
    assert_eq!(app.press(Press::Refresh), None);
    assert_eq!(app.status, "Setting brightness…");
    let mut app = ready();
    assert_eq!(app.press(Press::Rotate { degrees: 270 }), Some(Job::Rotate { degrees: 270 }));
    assert_eq!(app.status, "Rotating to 270°…");
    let mut app = ready();
    let event = PowerEvent::Resume;
    assert_eq!(app.press(Press::Power { event }), Some(Job::Power { event }));
    assert_eq!(app.status, "Waking the screen…");
    let mut app = ready();
    app.press(Press::Power { event: PowerEvent::Suspend });
    assert_eq!(app.status, "Putting the screen to sleep…");
    assert!(app.busy && app.pending);
}

#[test]
fn official_program_is_left_alone() {
    let mut app = ready();
    app.chosen = Some("a.png".to_string());
    app.refresh_asus_flag(true, NOW);
    for press in [
        Press::Brightness,
        Press::Rotate { degrees: 0 },
        Press::Power { event: PowerEvent::Resume },
    ] {
        app.status = String::new();
        assert_eq!(app.press(press), None);
        assert_eq!(app.status, "Quit the ROG STRIX LC app first.");
    }
    assert!(app.send_chosen().is_none());
    assert!(!app.busy);
    assert_eq!(app.press(Press::Refresh), Some(Job::Refresh));
}

#[test]
fn sending_the_chosen_file() {
    let mut app = ready();
    assert!(!app.can_send());
    assert!(app.send_chosen().is_none());
    app.chosen = Some("a.png".to_string());
    assert!(app.can_send());
    assert!(!app.send_chosen().unwrap().video);
    assert_eq!(app.status, "Sending the photo…");
    assert!(!app.can_send());
    assert!(matches!(app.poll(JobResult::Done { done: Ok(()) }, true), Follow::Refresh));
    assert_eq!(app.status, "On the pump.");
    assert!(app.busy && app.pending);
    app.poll(JobResult::Done { done: Err("bad".to_string()) }, true);
    assert_eq!((app.status.as_str(), app.busy), ("bad", false));
}

#[test]
fn playing_a_clip() {
    let mut app = ready();
    let clip = Clip { frames: vec![vec![1], vec![2]], frame_ms: 125 };
    let Follow::Play { clip } = app.poll(JobResult::Frames { clip: Ok(clip) }, true) else {
        panic!("not played");
    };
    app.plays(clip.frames.len(), "1.00");
    assert_eq!(
        app.status,
        "Playing 2 frames at 1.00×. Closing the window leaves it running in the tray."
    );
    app.set_close_to_tray(false);
    app.plays(3, "0.25");
    assert_eq!(app.status, "Playing 3 frames at 0.25×. The window has to stay open.");
    app.poll(JobResult::Frames { clip: Err("none".to_string()) }, true);
    assert_eq!(app.status, "none");
    app.complain("worker gone".to_string());
    assert_eq!(app.status, "worker gone");
}

#[test]
fn closing_and_quitting() {
    let mut app = App::new(saved(None), false, true, 1.0, 0.0, 0.0, 1.0, NOW);
    assert!(app.hides());
    assert!(!app.hides());
    assert!(app.stays_in_tray(true));
    assert!(!app.stays_in_tray(false));
    let stop = TrayAction::Menu { id: "stop".to_string() };
    assert_eq!(app.poll_tray(&stop), TrayStep::StopVideo);
    assert_eq!(app.status, "Stopped. The pump keeps the last frame.");
    assert_eq!(app.poll_tray(&TrayAction::Show), TrayStep::ShowWindow);
    let quit = TrayAction::Menu { id: "quit".to_string() };
    assert_eq!(app.poll_tray(&quit), TrayStep::Quit);
    assert!(!app.stays_in_tray(true));
    let mut other = ready();
    other.stop_video();
    assert_eq!(other.status, "Stopped. The pump keeps the last frame.");
    other.set_close_to_tray(false);
    assert!(!other.stays_in_tray(true));
}

#[test]
fn official_program_is_looked_up_now_and_again() {
    let mut app = open(saved(None), false);
    assert!(app.asus_check_due(NOW));
    app.refresh_asus_flag(true, NOW);
    assert!(app.asus_running);
    assert!(!app.asus_check_due(NOW + ASUS_CHECK - 1));
    assert!(app.asus_check_due(NOW + ASUS_CHECK));
    assert!(!app.asus_check_due(0));
}

#[test]
fn boxes_on_startup() {
    let mut app = ready();
    assert_eq!(app.entry_at_start(), None);
    assert_eq!(app.set_start_in_tray(false), None);
    app.start_in_tray_done(Ok(()));
    assert_eq!(app.set_start_with_windows(true), SignIn { enable: true, hidden: false });
    assert!(!app.start_with_windows_done(Err("denied".to_string())));
    assert!(!app.settings.start_with_windows);
    assert_eq!(app.status, "denied");
    app.set_start_with_windows(true);
    assert!(app.start_with_windows_done(Ok(())));
    assert!(app.settings.start_with_windows);
    assert_eq!(app.entry_at_start(), Some(SignIn { enable: true, hidden: false }));
    assert_eq!(app.set_start_in_tray(true), Some(SignIn { enable: true, hidden: true }));
    app.start_in_tray_done(Err("denied again".to_string()));
    assert!(app.settings.start_in_tray);
    assert_eq!(app.status, "denied again");
    app.set_resume_last(false);
    assert!(!app.settings.resume_last);
}
