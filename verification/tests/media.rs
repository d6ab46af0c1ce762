use strix_lc_screen::media::{
    bundled_ffmpeg_path, find_ffmpeg, find_size, is_video, is_video_extension, parse_probe,
    photo_args, photo_jpeg, preview_args, preview_jpeg, preview_name, probe_media, require_ffmpeg,
    run_ffmpeg, still_name, video_args, video_jpegs, which, Crop, MediaError, Probe, Square,
    VideoFrames, MAX_FRAMES,
};

/// The square of a crop in a source of `width` by `height` pixels.
fn square(crop: &Crop<f32>, width: u32, height: u32) -> Square {
    let zoom = crop.zoom.clamp(1.0, 4.0);
    let side = Square::side(
        ((width.min(height) as f32) / zoom).floor() as u32,
        width,
        height,
    );
    let along = |edge: u32, pan: f32| {
        ((Square::room(edge, side) as f32) * (pan.clamp(-1.0, 1.0) + 1.0) / 2.0).round() as u32
    };
    Square::placed(side, width, height, along(width, crop.pan_x), along(height, crop.pan_y))
}

fn chars(text: &str) -> Vec<char> {
    text.chars().collect()
}

#[test]
fn center_crop_uses_the_short_side() {
    let crop = Crop::full(1.0, 0.0);
    let Square { side, x, y } = square(&crop, 1280, 720);
    assert_eq!((side, x, y), (720, 280, 0));
    assert_eq!(
        square(&crop, 1280, 720).ffmpeg_filter(),
        "crop=720:720:280:0,scale=720:720"
    );
}

#[test]
fn zoom_and_pan_stay_inside_the_frame() {
    let crop = Crop {
        zoom: 2.0,
        pan_x: -1.0,
        pan_y: 1.0,
    };
    let Square { side, x, y } = square(&crop, 1280, 720);
    assert_eq!(side, 360);
    assert_eq!(x, 0);
    assert_eq!(y, 360);
}

#[test]
fn probe_line_reads_size_and_fps() {
    let text = "Stream #0:0: Video: h264, yuv420p, 1280x720 [SAR 1:1 DAR 16:9], 30 fps, 30 tbr";
    let probe = parse_probe(text).unwrap();
    let fps: Vec<f32> = probe.rates.iter().map(|rate| rate.parse().unwrap()).collect();
    assert_eq!((probe.width, probe.height, fps), (1280, 720, vec![30.0]));
}

#[test]
fn crop_is_even_and_inside() {
    for (width, height) in [(2, 2), (3, 2), (7, 1001), (641, 361), (u32::MAX, u32::MAX)] {
        for scaled in [0, 1, 3, 360, u32::MAX] {
            let side = Square::side(scaled, width, height);
            let placed = Square::placed(side, width, height, 5, u32::MAX);
            assert_eq!(placed.side % 2, 0);
            assert!(placed.side >= 2);
            assert!(placed.x <= width - placed.side);
            assert_eq!(placed.y, (height - placed.side).min(u32::MAX - 1));
        }
    }
    assert_eq!(Square::side(9, 1, 50), 0);
    assert_eq!(Square::room(1, 2), 0);
}

#[test]
fn crop_of_a_tiny_source_is_inside() {
    let crop = Crop::full(1.0, 0.0);
    for (width, height) in [(1, 1), (0, 0), (1, 5), (5, 1)] {
        let Square { side, x, y } = square(&crop, width, height);
        assert_eq!(side % 2, 0);
        assert!(x + side <= width && y + side <= height);
    }
}

#[test]
fn probe_takes_the_first_video_line() {
    let text = "Audio: 1x1\r\n  Video: a, 99999999999, 1x9 8x, 64x48, 12.5 fps,  7 fps , x fps\nVideo: b, 2x2";
    let probe = parse_probe(text).unwrap();
    assert_eq!((probe.width, probe.height), (64, 48));
    assert_eq!(probe.rates, ["12.5", "7", "x"]);
    assert!(parse_probe("Video: none\nVideo: b, 2x2").is_none());
    assert!(parse_probe("Audio: 640x480").is_none());
    assert!(parse_probe("").is_none());
}

#[test]
fn sizes_in_a_line() {
    assert_eq!(find_size(&chars("é 640x480")), Some((640, 480)));
    assert_eq!(find_size(&chars("0x7f 12x34x56")), Some((12, 34)));
    assert_eq!(find_size(&chars("1x1 x5 5x")), None);
    assert_eq!(find_size(&chars("4294967296x2 3x3")), None);
    assert_eq!(find_size(&chars("4294967295x2")), Some((4294967295, 2)));
}

#[test]
fn probe_reads_both_outputs() {
    let probe = probe_media(b"\xffVideo: 4x6", b", 5 fps", "a.mp4").unwrap();
    assert_eq!((probe.width, probe.height), (4, 6));
    assert_eq!(probe.rates, ["5"]);
    let error = probe_media(b"", b"no such file", "a.mp4").unwrap_err();
    assert_eq!(error, MediaError::NoSize { path: "a.mp4".to_string() });
    assert_eq!(error.message(), "could not read the size of a.mp4");
}

#[test]
fn videos_are_told_by_their_extension() {
    for path in [
        "a.mp4",
        "dir/b.MOV",
        "c.x.Avi",
        "d.mkv",
        "e.webm",
        "f.GIF",
        "\\\\server\\share\\clip.mp4",
        "//server/share/dir/clip.mp4",
    ] {
        assert!(is_video(path), "{path}");
    }
    for path in [
        "a.png",
        "mp4",
        ".mp4",
        "a.mp4.jpg",
        "dir.mp4/photo",
        "",
        "a.",
        "a.mp4/b",
        "dir/.gif",
        "a.mp4/..",
    ] {
        assert!(!is_video(path), "{path}");
    }
    assert!(is_video_extension(Some("WebM")));
    assert!(!is_video_extension(Some("mp")));
    assert!(!is_video_extension(None));
}

#[test]
fn pictures_must_be_jpegs() {
    let jpeg = vec![0xff, 0xd8, 0, 0];
    assert_eq!(photo_jpeg(jpeg.clone(), "p").unwrap(), jpeg);
    let error = photo_jpeg(vec![0xff, 0xd8, 0], "p").unwrap_err();
    assert_eq!(error.message(), "ffmpeg did not produce a JPEG for p");
    assert!(photo_jpeg(vec![0xff, 0xd9, 0, 0], "p").is_err());
    let probe = Probe { width: 3, height: 5, rates: Vec::new() };
    let preview = preview_jpeg(&probe, jpeg.clone(), "p").unwrap();
    assert_eq!((preview.width, preview.height, preview.jpeg), (3, 5, jpeg));
    let error = preview_jpeg(&probe, Vec::new(), "p").unwrap_err();
    assert_eq!(error.message(), "ffmpeg did not produce a preview for p");
}

#[test]
fn arguments_for_ffmpeg() {
    assert_eq!(
        photo_args("in", "f", "out").join(" "),
        "-y -i in -an -vf f -frames:v 1 -pix_fmt yuvj420p -q:v 5 -update 1 out"
    );
    assert_eq!(
        preview_args(false, "in", "out").join(" "),
        "-y -i in -an -vf scale=480:480:force_original_aspect_ratio=decrease -frames:v 1 -pix_fmt yuvj420p -q:v 6 -update 1 out"
    );
    assert!(preview_args(true, "in", "out").join(" ").starts_with("-y -ss 0.2 -i in -an"));
    assert_eq!(
        video_args("in", "f", "8.000", "p").join(" "),
        "-y -i in -an -t 20 -vf f -r 8.000 -pix_fmt yuvj420p -q:v 5 p"
    );
}

#[test]
fn temporary_names() {
    assert_eq!(still_name(0), "strix-lc-screen-still-0.jpg");
    assert_eq!(preview_name(4321), "strix-lc-screen-preview-4321.jpg");
}

#[test]
fn frames_are_read_one_by_one() {
    let mut read = VideoFrames::new();
    assert_eq!(read.next_name().unwrap(), "frame_0001.jpg");
    for n in 0..MAX_FRAMES {
        assert_eq!(read.next_name().unwrap(), format!("frame_{:04}.jpg", n + 1));
        read.add_frame(vec![n as u8]);
    }
    assert_eq!(read.next_name(), None);
    let clip = video_jpegs(read, 125, "v").unwrap();
    assert_eq!((clip.frames.len(), clip.frame_ms), (160, 125));
    let error = video_jpegs(VideoFrames::new(), 125, "v").unwrap_err();
    assert_eq!(error.message(), "ffmpeg did not produce any frames from v");
}

#[test]
fn ffmpeg_is_found_on_the_path_first() {
    let found = which(true, b" C:\\bin\\ffmpeg.exe \r\nC:\\other.exe\r\n").unwrap();
    assert_eq!(found, "C:\\bin\\ffmpeg.exe");
    assert_eq!(which(false, b"C:\\bin\\ffmpeg.exe"), None);
    assert_eq!(which(true, b""), None);
    assert_eq!(which(true, b"  \r\nC:\\other.exe"), None);
    assert_eq!(find_ffmpeg(Some(found.clone()), true), Some(found));
    let bundled = "C:\\Program Files\\rog_strix_lc_iv\\bin\\ffmpeg.exe";
    assert_eq!(bundled_ffmpeg_path(), bundled);
    assert_eq!(require_ffmpeg(None, true).unwrap(), bundled);
    assert_eq!(
        require_ffmpeg(None, false).unwrap_err().message(),
        "this needs ffmpeg.exe on PATH, or the copy that shipped inside the ROG app folder"
    );
    assert!(run_ffmpeg(true).is_ok());
    assert_eq!(
        run_ffmpeg(false).unwrap_err().message(),
        "ffmpeg could not read the file"
    );
}
