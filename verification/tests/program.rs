use strix_lc_screen::command::{
    check_brightness, launch, plan, sending_line, Act, Command, Launch, PowerEvent,
};
use strix_lc_screen::process::{
    ensure_official_app_is_closed, is_official_entry, official_app_runs, process_matches,
};
use strix_lc_screen::settings::{
    claim_single_instance, entry_is_gone, must_attach_input, set_run_at_logon, show_command,
    startup_command, Removal, RunEntry, Settings,
};
use strix_lc_screen::status::{
    brightness_line, print_state, read_snapshot, rotation_line, Snapshot,
};
use strix_lc_screen::tray::{
    tray_click_shows_window, tray_icon_image, tray_step, MouseButton, TrayAction, TrayEvent,
    TrayStep, ICON_SIZE,
};

fn json(text: &str) -> serde_json::Value {
    serde_json::from_str(text).unwrap()
}

fn field(name: &str) -> [u16; 260] {
    let mut units = [0u16; 260];
    for (slot, unit) in units.iter_mut().zip(name.encode_utf16()) {
        *slot = unit;
    }
    units
}

#[test]
fn hidden_startup_adds_the_tray_flag() {
    let command = startup_command(r"C:\Pump\strix-lc-screen.exe", true);
    assert_eq!(command, r#""C:\Pump\strix-lc-screen.exe" --tray"#);
}

#[test]
fn open_startup_is_the_quoted_path() {
    assert_eq!(startup_command("a b", false), "\"a b\"");
}

#[test]
fn startup_entry_is_written_or_removed() {
    assert_eq!(
        set_run_at_logon(true, true, "x"),
        RunEntry::Write {
            name: "strix-lc-screen".to_string(),
            command: "\"x\" --tray".to_string()
        }
    );
    assert_eq!(
        set_run_at_logon(false, true, "x"),
        RunEntry::Remove { entry: "strix-lc-screen".to_string() }
    );
    assert!(entry_is_gone(Removal::Removed));
    assert!(entry_is_gone(Removal::NotThere));
    assert!(!entry_is_gone(Removal::Failed));
}

#[test]
fn settings_of_a_first_start() {
    let first = Settings::load(None, 1.0f32, 0.0);
    assert!(first.close_to_tray && !first.start_with_windows);
    assert!(first.start_in_tray && first.resume_last);
    assert_eq!(first.last_path, None);
    assert_eq!((first.zoom, first.pan_x, first.pan_y, first.speed), (1.0, 0.0, 0.0, 1.0));
    let read = Settings::load(Some(Settings { zoom: 3.0, ..first }), 1.0, 0.0);
    assert_eq!(read.zoom, 3.0);
}

#[test]
fn one_window_at_a_time() {
    assert!(claim_single_instance(true, false));
    assert!(!claim_single_instance(true, true));
    assert!(claim_single_instance(false, true));
    assert_eq!((show_command(true), show_command(false)), (9, 5));
    assert!(must_attach_input(3, 4));
    assert!(!must_attach_input(3, 3));
    assert!(!must_attach_input(0, 3));
}

#[test]
fn arguments_pick_the_mode() {
    let args = |list: &[&str]| list.iter().map(|arg| arg.to_string()).collect::<Vec<_>>();
    assert_eq!(launch(&args(&[])), Launch::Window);
    assert_eq!(launch(&args(&["--tray"])), Launch::Tray);
    assert_eq!(launch(&args(&["--tray", "x"])), Launch::Command);
    assert_eq!(launch(&args(&["status"])), Launch::Command);
}

#[test]
fn brightness_is_up_to_100() {
    assert!(check_brightness(0).is_ok());
    assert!(check_brightness(100).is_ok());
    assert_eq!(
        check_brightness(101).unwrap_err().message(),
        "brightness must be from 0 to 100"
    );
}

#[test]
fn commands_are_careful() {
    assert_eq!(plan(Command::Status), [Act::Connect, Act::ReadState, Act::PrintStatus]);
    assert_eq!(
        plan(Command::Brightness { value: 100 }),
        [
            Act::Connect,
            Act::EnsureClosed,
            Act::SetBrightness { value: 100 },
            Act::ReadState,
            Act::PrintBrightness,
        ]
    );
    assert_eq!(
        plan(Command::Brightness { value: 101 }),
        [Act::Connect, Act::EnsureClosed, Act::RefuseBrightness]
    );
    assert_eq!(
        plan(Command::Rotate { degrees: 90 }),
        [
            Act::Connect,
            Act::EnsureClosed,
            Act::SetRotation { degrees: 90 },
            Act::ReadState,
            Act::PrintRotation,
        ]
    );
    let event = PowerEvent::Resume;
    assert_eq!(
        plan(Command::Power { event }),
        [
            Act::Connect,
            Act::EnsureClosed,
            Act::SendPower { event },
            Act::PrintPower { event },
        ]
    );
    assert_eq!(plan(Command::Show), [Act::Connect, Act::EnsureClosed, Act::ShowPicture]);
}

#[test]
fn lines_after_a_command() {
    assert_eq!(PowerEvent::Resume.name(), "resume");
    assert_eq!(PowerEvent::Suspend.sent_line(), "power suspend sent");
    assert_eq!(sending_line(1024), "sending 1024 bytes");
    let state = json(r#"{"brightness": 80, "degree": null}"#);
    assert_eq!(brightness_line(&state), "brightness is 80");
    assert_eq!(rotation_line(&state), "rotation is null degrees");
}

#[test]
fn official_program_in_the_process_list() {
    assert!(ensure_official_app_is_closed(b"\"explorer.exe\",\"1\"\r\n").is_ok());
    let listing = b"\xff\"Rog Strix LC & SLC IV Series.exe\",\"7\"";
    let error = ensure_official_app_is_closed(listing).unwrap_err();
    assert_eq!(
        error.message(),
        "Quit \"ROG STRIX LC & SLC IV Series\" first. It uses the same USB connection, so the two programs would mix up each other's replies."
    );
}

#[test]
fn official_program_in_a_process_entry() {
    assert!(is_official_entry(&field("rog strix lc & slc iv series.EXE")));
    assert!(!is_official_entry(&field("ROG STRIX LC & SLC IV Series")));
    assert!(!is_official_entry(&[]));
    let full: Vec<u16> = "ab".encode_utf16().collect();
    assert!(process_matches(&full, "AB"));
    assert!(process_matches(&[0xd800, 0, 5], "\u{fffd}"));
    assert!(process_matches(&[0xd834, 0xdd1e, 0x6d], "\u{1d11e}m"));
    assert!(process_matches(&[0xd834, 0xd834, 0xdd1e], "\u{fffd}\u{1d11e}"));
    assert!(process_matches(&[0xdd1e, 0xd834, 0x6d], "\u{fffd}\u{fffd}m"));
    assert!(process_matches(&[0, 5], ""));
}

#[test]
fn official_program_among_the_processes() {
    let other = field("explorer.exe").to_vec();
    let official = field("rog strix lc & slc iv series.exe").to_vec();
    assert!(official_app_runs(Some(&vec![other.clone(), official])));
    assert!(!official_app_runs(Some(&vec![other])));
    assert!(!official_app_runs(Some(&Vec::new())));
    assert!(!official_app_runs(None));
}

#[test]
fn snapshot_of_a_screen() {
    let identity = json(r#"{"sn": "A\"1", "version": {"firmware": "2.0", "hardware": 3}}"#);
    let state = json(r#"{"brightness": 250, "degree": 65626, "space": 65896, "displayInSleep": 1}"#);
    let shot = read_snapshot(&identity, &state);
    assert_eq!(
        shot,
        Snapshot {
            serial: "A\"1".to_string(),
            firmware: "2.0".to_string(),
            brightness: 100,
            rotation: 90,
            free_space: "65896".to_string(),
        }
    );
    assert_eq!(
        print_state(&identity, &state),
        [
            "serial:     A\"1",
            "firmware:   2.0",
            "hardware:   unknown",
            "brightness: 250",
            "rotation:   65626",
            "free space: 65896",
            "sleep show: 1",
        ]
    );
}

#[test]
fn snapshot_of_a_silent_screen() {
    let shot = read_snapshot(&json("null"), &json(r#"{"brightness": -1, "degree": 90.0}"#));
    assert_eq!(
        shot,
        Snapshot {
            serial: "unknown".to_string(),
            firmware: "unknown".to_string(),
            brightness: 0,
            rotation: 0,
            free_space: "null".to_string(),
        }
    );
}

#[test]
fn snapshot_of_found_fields() {
    let shot =
        Snapshot::from_fields(Some("s"), None, Some(100), Some(u64::MAX), "7".to_string());
    assert_eq!((shot.brightness, shot.rotation), (100, 65535));
    assert_eq!((shot.serial.as_str(), shot.firmware.as_str()), ("s", "unknown"));
}

#[test]
fn clicks_on_the_tray_icon() {
    let left = MouseButton::Left;
    assert!(tray_click_shows_window(&TrayEvent::Click { button: left, up: true }));
    assert!(!tray_click_shows_window(&TrayEvent::Click { button: left, up: false }));
    assert!(tray_click_shows_window(&TrayEvent::DoubleClick { button: left }));
    let right = MouseButton::Right;
    assert!(!tray_click_shows_window(&TrayEvent::Click { button: right, up: true }));
    assert!(!tray_click_shows_window(&TrayEvent::DoubleClick { button: MouseButton::Middle }));
    assert!(!tray_click_shows_window(&TrayEvent::Pointer));
}

#[test]
fn choices_at_the_tray() {
    let menu = |id: &str| tray_step(&TrayAction::Menu { id: id.to_string() });
    assert_eq!(tray_step(&TrayAction::Show), TrayStep::ShowWindow);
    assert_eq!(menu("show"), TrayStep::ShowWindow);
    assert_eq!(menu("stop"), TrayStep::StopVideo);
    assert_eq!(menu("quit"), TrayStep::Quit);
    assert_eq!(menu("Quit"), TrayStep::Nothing);
}

#[test]
fn tray_icon_is_a_disc() {
    let rgba = tray_icon_image();
    let size = ICON_SIZE as usize;
    assert_eq!(rgba.len(), size * size * 4);
    let pixel = |x: usize, y: usize| &rgba[(y * size + x) * 4..(y * size + x) * 4 + 4];
    assert_eq!(pixel(15, 15), [214, 64, 38, 255]);
    assert_eq!(pixel(28, 15), [214, 64, 38, 255]);
    assert_eq!(pixel(15, 2), [214, 64, 38, 255]);
    assert_eq!(pixel(29, 15), [0, 0, 0, 0]);
    assert_eq!(pixel(3, 30), [0, 0, 0, 0]);
    assert_eq!(pixel(0, 0), [0, 0, 0, 0]);
}
