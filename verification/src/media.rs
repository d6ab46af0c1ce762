//! Turning a photo or a short video into 720×720 JPEG frames: the crop, what `ffmpeg` is asked to
//! do, and how its output is read.

use crate::text::{
    all_digits, chars_of, copy_chars, decimal, decimal_text, find, find_chars, is_digit,
    is_digit_run, law_numbers_are_read_in_base_ten, law_numbers_are_written_in_base_ten,
    lemma_decimal_reads_back, lines, lines_of, lossy_text, lower_chars, lower_text, occurs_at,
    padded_decimal, padded_decimal_text, parse_number, parse_unsigned, same_chars, spelled, split,
    split_chars, string_of, texts, trim, trim_chars, utf8_text_lossy, white_space, words,
};
use vstd::prelude::*;

verus! {

/// Square region of the source. `zoom` 1 keeps the largest square, higher zoom crops tighter.
/// `pan_x` and `pan_y` are -1 (top/left) through 1 (bottom/right), 0 centered.
/// `F` is the type of these numbers.
#[derive(Clone, Copy, Debug)]
pub struct Crop<F> {
    pub zoom: F,
    pub pan_x: F,
    pub pan_y: F,
}

impl<F: Copy> Crop<F> {
    /// The largest square, centered. `one` and `zero` are those numbers in `F`.
    pub fn full(one: F, zero: F) -> (r: Self)
        ensures
            r == (Crop { zoom: one, pan_x: zero, pan_y: zero }),
    {
        Crop { zoom: one, pan_x: zero, pan_y: zero }
    }
}

/// A square in the source's own pixels: its side and its upper left corner.
#[derive(Clone, Copy, Debug, PartialEq, Eq, Structural)]
pub struct Square {
    pub side: u32,
    pub x: u32,
    pub y: u32,
}

/// The largest even number up to `n`.
pub open spec fn even_floor(n: int) -> int {
    n - n % 2
}

/// The smaller of two numbers.
pub open spec fn smaller(a: int, b: int) -> int {
    if a < b {
        a
    } else {
        b
    }
}

/// The larger of two numbers.
pub open spec fn larger(a: int, b: int) -> int {
    if a > b {
        a
    } else {
        b
    }
}

/// The side of the crop: even, no longer than either edge of the source, and at least 2 where
/// both edges are.
pub open spec fn side_of(scaled: int, width: int, height: int) -> int {
    smaller(even_floor(larger(scaled, 2)), smaller(even_floor(width), even_floor(height)))
}

/// How far a crop with this side can move along an edge.
pub open spec fn room_of(edge: int, side: int) -> int {
    larger(0, edge - side)
}

/// Where the crop begins along an edge: at an even pixel, as far as there is room.
pub open spec fn offset_of(wanted: int, room: int) -> int {
    smaller(even_floor(wanted), room)
}

impl Square {
    /// The side for a source of `width` by `height` pixels. `scaled` is the shorter edge divided
    /// by the zoom.
    pub fn side(scaled: u32, width: u32, height: u32) -> (r: u32)
        ensures
            r as int == side_of(scaled as int, width as int, height as int),
    {
        let mut side: u32 = if scaled < 2 {
            2
        } else {
            scaled
        };
        side = side - side % 2;
        if side > width {
            side = width - width % 2;
        }
        if side > height {
            side = height - height % 2;
        }
        side
    }

    /// How far a crop with this side can move along an edge of the source.
    pub fn room(edge: u32, side: u32) -> (r: u32)
        ensures
            r as int == room_of(edge as int, side as int),
    {
        edge.saturating_sub(side)
    }

    /// The square with this side, moved as far as `wanted_x` and `wanted_y` ask and the source
    /// allows.
    pub fn placed(side: u32, width: u32, height: u32, wanted_x: u32, wanted_y: u32) -> (r: Square)
        ensures
            r.side == side,
            r.x as int == offset_of(wanted_x as int, room_of(width as int, side as int)),
            r.y as int == offset_of(wanted_y as int, room_of(height as int, side as int)),
    {
        let max_x: u32 = Self::room(width, side);
        let max_y: u32 = Self::room(height, side);
        let mut x: u32 = wanted_x - wanted_x % 2;
        let mut y: u32 = wanted_y - wanted_y % 2;
        if x > max_x {
            x = max_x;
        }
        if y > max_y {
            y = max_y;
        }
        Square { side, x, y }
    }

    /// The filter that makes `ffmpeg` cut this square out and scale it to the screen.
    pub fn ffmpeg_filter(&self) -> (r: String)
        ensures
            r@ == filter_text(*self),
    {
        let mut out: String = "crop=".to_owned();
        out.append(decimal_text(self.side as u128).as_str());
        out.append(":");
        out.append(decimal_text(self.side as u128).as_str());
        out.append(":");
        out.append(decimal_text(self.x as u128).as_str());
        out.append(":");
        out.append(decimal_text(self.y as u128).as_str());
        out.append(",scale=720:720");
        out
    }
}

/// The filter that cuts a square out and scales it to the screen.
pub open spec fn filter_text(square: Square) -> Seq<char> {
    "crop="@ + decimal(square.side as nat) + ":"@ + decimal(square.side as nat) + ":"@ + decimal(
        square.x as nat,
    ) + ":"@ + decimal(square.y as nat) + ",scale=720:720"@
}

/// Whatever zoom and pan ask for, the crop is an even square that stays inside the source.
pub proof fn law_crop_stays_inside(
    scaled: u32,
    width: u32,
    height: u32,
    wanted_x: u32,
    wanted_y: u32,
)
    ensures
        ({
            let side = side_of(scaled as int, width as int, height as int);
            let x = offset_of(wanted_x as int, room_of(width as int, side));
            let y = offset_of(wanted_y as int, room_of(height as int, side));
            &&& side % 2 == 0
            &&& 0 <= side
            &&& width >= 2 && height >= 2 ==> 2 <= side
            &&& 0 <= x && x + side <= width
            &&& 0 <= y && y + side <= height
            &&& x % 2 == 0 || x == width - side
            &&& y % 2 == 0 || y == height - side
        }),
{
}

/// What `ffmpeg` says about a media file: its size, and the frame rates that its line gives, as
/// they are written.
#[derive(Clone, Debug)]
pub struct Probe {
    pub width: u32,
    pub height: u32,
    pub rates: Vec<String>,
}

#[derive(Clone, Debug)]
pub struct Preview {
    pub width: u32,
    pub height: u32,
    pub jpeg: Vec<u8>,
}

#[derive(Clone, Debug)]
pub struct Clip {
    pub frames: Vec<Vec<u8>>,
    /// How long one frame lasts at 1× speed.
    pub frame_ms: u64,
}

/// Why there is no picture.
#[derive(Debug, Clone, PartialEq, Eq)]
pub enum MediaError {
    NoFfmpeg,
    FfmpegFailed,
    NoSize { path: String },
    NoJpeg { path: String },
    NoPreview { path: String },
    NoFrames { path: String },
}

/// A `MediaError` with its texts as character sequences.
pub enum MediaErrorView {
    NoFfmpeg,
    FfmpegFailed,
    NoSize { path: Seq<char> },
    NoJpeg { path: Seq<char> },
    NoPreview { path: Seq<char> },
    NoFrames { path: Seq<char> },
}

impl View for MediaError {
    type V = MediaErrorView;

    open spec fn view(&self) -> MediaErrorView {
        match self {
            MediaError::NoFfmpeg => MediaErrorView::NoFfmpeg,
            MediaError::FfmpegFailed => MediaErrorView::FfmpegFailed,
            MediaError::NoSize { path } => MediaErrorView::NoSize { path: path@ },
            MediaError::NoJpeg { path } => MediaErrorView::NoJpeg { path: path@ },
            MediaError::NoPreview { path } => MediaErrorView::NoPreview { path: path@ },
            MediaError::NoFrames { path } => MediaErrorView::NoFrames { path: path@ },
        }
    }
}

impl MediaErrorView {
    /// What the error says.
    pub open spec fn text(self) -> Seq<char> {
        match self {
            MediaErrorView::NoFfmpeg =>
                "this needs ffmpeg.exe on PATH, or the copy that shipped inside the ROG app folder"@,
            MediaErrorView::FfmpegFailed => "ffmpeg could not read the file"@,
            MediaErrorView::NoSize { path } => "could not read the size of "@ + path,
            MediaErrorView::NoJpeg { path } => "ffmpeg did not produce a JPEG for "@ + path,
            MediaErrorView::NoPreview { path } => "ffmpeg did not produce a preview for "@ + path,
            MediaErrorView::NoFrames { path } => "ffmpeg did not produce any frames from "@
                + path,
        }
    }
}

impl MediaError {
    /// The error in words.
    pub fn message(&self) -> (r: String)
        ensures
            r@ == self@.text(),
    {
        match self {
            MediaError::NoFfmpeg =>
                "this needs ffmpeg.exe on PATH, or the copy that shipped inside the ROG app folder".to_owned(),
            MediaError::FfmpegFailed => "ffmpeg could not read the file".to_owned(),
            MediaError::NoSize { path } => {
                let mut out: String = "could not read the size of ".to_owned();
                out.append(path.as_str());
                out
            },
            MediaError::NoJpeg { path } => {
                let mut out: String = "ffmpeg did not produce a JPEG for ".to_owned();
                out.append(path.as_str());
                out
            },
            MediaError::NoPreview { path } => {
                let mut out: String = "ffmpeg did not produce a preview for ".to_owned();
                out.append(path.as_str());
                out
            },
            MediaError::NoFrames { path } => {
                let mut out: String = "ffmpeg did not produce any frames from ".to_owned();
                out.append(path.as_str());
                out
            },
        }
    }
}

/// The end of the run of digits that begins at `i`.
pub open spec fn digits_end(s: Seq<char>, i: int) -> int
    decreases s.len() - i,
{
    if 0 <= i < s.len() && is_digit(s[i]) {
        digits_end(s, i + 1)
    } else {
        i
    }
}

/// A run of digits ends inside the text, behind at least one digit where there is one.
pub proof fn lemma_digits_end(s: Seq<char>, i: int)
    requires
        0 <= i <= s.len(),
    ensures
        i <= digits_end(s, i) <= s.len(),
        i < s.len() && is_digit(s[i]) ==> i < digits_end(s, i),
    decreases s.len() - i,
{
    if i < s.len() && is_digit(s[i]) {
        lemma_digits_end(s, i + 1);
    }
}

/// Looks for a size from position `i` on: digits, an `x`, digits, with both numbers at least 2.
/// A number too large for a size ends the search.
pub open spec fn size_from(s: Seq<char>, i: int) -> Option<(nat, nat)>
    decreases s.len() - i,
{
    if i < 0 || i >= s.len() {
        None
    } else if !is_digit(s[i]) {
        size_from(s, i + 1)
    } else {
        proof {
            lemma_digits_end(s, i);
            if digits_end(s, i) < s.len() {
                lemma_digits_end(s, digits_end(s, i) + 1);
            }
        }
        let end = digits_end(s, i);
        if end < s.len() && s[end] == 'x' {
            let last = digits_end(s, end + 1);
            match parse_unsigned(s.subrange(i, end), u32::MAX as nat) {
                None => None,
                Some(width) => if last == end + 1 {
                    size_from(s, last)
                } else {
                    match parse_unsigned(s.subrange(end + 1, last), u32::MAX as nat) {
                        None => None,
                        Some(height) => if width >= 2 && height >= 2 {
                            Some((width, height))
                        } else {
                            size_from(s, last)
                        },
                    }
                },
            }
        } else {
            size_from(s, end)
        }
    }
}

fn digits_end_from(s: &[char], i: usize) -> (r: usize)
    requires
        i <= s@.len(),
    ensures
        r as int == digits_end(s@, i as int),
        i <= r <= s@.len(),
{
    let mut at: usize = i;
    while at < s.len() && '0' <= s[at] && s[at] <= '9'
        invariant
            i <= at <= s@.len(),
            digits_end(s@, i as int) == digits_end(s@, at as int),
        decreases s@.len() - at,
    {
        at += 1;
    }
    at
}

/// The first size in a line, such as `1280x720`.
pub fn find_size(line: &[char]) -> (r: Option<(u32, u32)>)
    ensures
        match r {
            Some((width, height)) => size_from(line@, 0) == Some((width as nat, height as nat))
                && width >= 2 && height >= 2,
            None => size_from(line@, 0) is None,
        },
{
    let mut index: usize = 0;
    while index < line.len()
        invariant
            index <= line@.len(),
            size_from(line@, 0) == size_from(line@, index as int),
        decreases line@.len() - index,
    {
        proof {
            lemma_digits_end(line@, index as int);
        }
        if '0' <= line[index] && line[index] <= '9' {
            let start: usize = index;
            index = digits_end_from(line, index);
            if index < line.len() && line[index] == 'x' {
                let width: u64 = match parse_number(line, start, index, u32::MAX as u64) {
                    Some(width) => width,
                    None => {
                        return None;
                    },
                };
                let height_start: usize = index + 1;
                index = digits_end_from(line, height_start);
                if index > height_start {
                    let height: u64 = match parse_number(
                        line,
                        height_start,
                        index,
                        u32::MAX as u64,
                    ) {
                        Some(height) => height,
                        None => {
                            return None;
                        },
                    };
                    if width >= 2 && height >= 2 {
                        return Some((width as u32, height as u32));
                    }
                }
            }
        } else {
            index += 1;
        }
    }
    None
}

/// The text without `suffix` at its end, where it ends so.
pub open spec fn without_suffix(s: Seq<char>, suffix: Seq<char>) -> Option<Seq<char>> {
    if s.len() >= suffix.len() && s.skip(s.len() - suffix.len()) == suffix {
        Some(s.take(s.len() - suffix.len()))
    } else {
        None
    }
}

/// The frame rates among the parts of a line, as they are written: what stands before ` fps`.
pub open spec fn rates_in(parts: Seq<Seq<char>>) -> Seq<Seq<char>>
    decreases parts.len(),
{
    if parts.len() == 0 {
        seq![]
    } else {
        let before = rates_in(parts.drop_last());
        match without_suffix(trim(parts.last()), " fps"@) {
            Some(rate) => before.push(trim(rate)),
            None => before,
        }
    }
}

/// The first of the lines that speaks of a video stream.
pub open spec fn video_line(rows: Seq<Seq<char>>) -> Option<Seq<char>>
    decreases rows.len(),
{
    if rows.len() == 0 {
        None
    } else if find(rows[0], "Video:"@, 0) is Some {
        Some(rows[0])
    } else {
        video_line(rows.skip(1))
    }
}

/// What `ffmpeg`'s words about a file say of its size and frame rates.
pub open spec fn probed(text: Seq<char>) -> Option<(nat, nat, Seq<Seq<char>>)> {
    match video_line(lines(text)) {
        None => None,
        Some(line) => match size_from(line, 0) {
            None => None,
            Some((width, height)) => Some((width, height, rates_in(split(line, seq![','])))),
        },
    }
}

fn strip_fps(part: &[char]) -> (r: Option<String>)
    ensures
        match r {
            Some(rate) => without_suffix(trim(part@), " fps"@) matches Some(s) && rate@ == trim(s),
            None => without_suffix(trim(part@), " fps"@) is None,
        },
{
    let trimmed: Vec<char> = trim_chars(part);
    let suffix: Vec<char> = chars_of(" fps");
    if trimmed.len() < suffix.len() {
        return None;
    }
    let at: usize = trimmed.len() - suffix.len();
    let tail: Vec<char> = copy_chars(trimmed.as_slice(), at, trimmed.len());
    assert(tail@ =~= trimmed@.skip(at as int));
    if !same_chars(tail.as_slice(), suffix.as_slice()) {
        return None;
    }
    let head: Vec<char> = copy_chars(trimmed.as_slice(), 0, at);
    assert(head@ =~= trimmed@.take(at as int));
    let rate: Vec<char> = trim_chars(head.as_slice());
    let out: String = string_of(rate.as_slice(), 0, rate.len());
    assert(out@ =~= rate@);
    Some(out)
}

fn read_rates(parts: &Vec<Vec<char>>) -> (r: Vec<String>)
    ensures
        words(r@) == rates_in(texts(parts@)),
{
    let mut rates: Vec<String> = Vec::new();
    let ghost all = texts(parts@);
    let mut i: usize = 0;
    assert(all.take(0) =~= Seq::<Seq<char>>::empty());
    assert(words(rates@) =~= Seq::<Seq<char>>::empty());
    while i < parts.len()
        invariant
            i <= parts@.len(),
            all == texts(parts@),
            words(rates@) == rates_in(all.take(i as int)),
        decreases parts@.len() - i,
    {
        let ghost before = words(rates@);
        proof {
            let longer = all.take(i + 1);
            assert(longer.drop_last() =~= all.take(i as int));
            assert(longer.last() == parts@[i as int]@);
        }
        if let Some(rate) = strip_fps(parts[i].as_slice()) {
            rates.push(rate);
            assert(words(rates@) =~= before.push(rate@));
        }
        i += 1;
    }
    assert(all.take(i as int) =~= all);
    rates
}

/// Reads size and frame rates out of `ffmpeg`'s words about a file.
pub fn parse_probe(text: &str) -> (r: Option<Probe>)
    ensures
        match r {
            Some(probe) => probed(text@) == Some(
                (probe.width as nat, probe.height as nat, words(probe.rates@)),
            ) && probe.width >= 2 && probe.height >= 2,
            None => probed(text@) is None,
        },
{
    let rows: Vec<Vec<char>> = lines_of(chars_of(text).as_slice());
    let video: Vec<char> = chars_of("Video:");
    let comma: Vec<char> = vec![','];
    assert(comma@ =~= seq![',']);
    let ghost all = texts(rows@);
    let mut i: usize = 0;
    assert(all.skip(0) =~= all);
    while i < rows.len()
        invariant
            i <= rows@.len(),
            all == texts(rows@),
            all == lines(text@),
            video@ == "Video:"@,
            comma@ == seq![','],
            video_line(all) == video_line(all.skip(i as int)),
        decreases rows@.len() - i,
    {
        assert(all.skip(i as int)[0] == rows@[i as int]@);
        assert(all.skip(i as int).skip(1) =~= all.skip(i + 1));
        if find_chars(rows[i].as_slice(), video.as_slice(), 0).is_some() {
            let (width, height) = match find_size(rows[i].as_slice()) {
                Some(size) => size,
                None => {
                    return None;
                },
            };
            let parts: Vec<Vec<char>> = split_chars(rows[i].as_slice(), comma.as_slice());
            return Some(Probe { width, height, rates: read_rates(&parts) });
        }
        i += 1;
    }
    None
}

/// Reads size and frame rates out of what `ffmpeg` printed about `path`.
pub fn probe_media(stdout: &[u8], stderr: &[u8], path: &str) -> (r: Result<Probe, MediaError>)
    ensures
        match r {
            Ok(probe) => probed(lossy_text(stdout@) + lossy_text(stderr@)) == Some(
                (probe.width as nat, probe.height as nat, words(probe.rates@)),
            ) && probe.width >= 2 && probe.height >= 2,
            Err(error) => probed(lossy_text(stdout@) + lossy_text(stderr@)) is None && error@ == (
            MediaErrorView::NoSize { path: path@ }),
        },
{
    let mut text: String = utf8_text_lossy(stdout);
    text.append(utf8_text_lossy(stderr).as_str());
    match parse_probe(text.as_str()) {
        Some(probe) => Ok(probe),
        None => Err(MediaError::NoSize { path: path.to_owned() }),
    }
}

/// Whether a character separates the parts of a path, on any system.
pub open spec fn separates(c: char) -> bool {
    c == '/' || c == '\\'
}

/// Where the last part of a path begins: behind the last separator before `j`.
pub open spec fn name_start(path: Seq<char>, j: int) -> int
    decreases j,
{
    if 0 < j <= path.len() && !separates(path[j - 1]) {
        name_start(path, j - 1)
    } else {
        j
    }
}

/// The last dot before `j`, or -1.
pub open spec fn last_dot(name: Seq<char>, j: int) -> int
    decreases j,
{
    if 0 < j <= name.len() && name[j - 1] != '.' {
        last_dot(name, j - 1)
    } else {
        j - 1
    }
}

/// The first separator from `i` on, or the end of the path.
pub open spec fn part_end(path: Seq<char>, i: int) -> int
    decreases path.len() - i,
{
    if 0 <= i < path.len() && !separates(path[i]) {
        part_end(path, i + 1)
    } else {
        i
    }
}

/// The path begins with two separators.
pub open spec fn begins_doubly(path: Seq<char>) -> bool {
    path.len() >= 2 && separates(path[0]) && separates(path[1])
}

/// The path leads into a network share: two separators, the server, a separator, the share, a
/// separator, and what lies in the share.
pub open spec fn in_a_share(path: Seq<char>) -> bool {
    let server_end = part_end(path, 2);
    let share_end = part_end(path, server_end + 1);
    let server = path.subrange(2, server_end);
    &&& begins_doubly(path)
    &&& server.len() > 0
    &&& server != seq!['.']
    &&& server != seq!['?']
    &&& server_end + 1 < share_end < path.len()
}

/// The extension that a path has on every system: `Some(Some(..))` with the extension,
/// `Some(None)` where it has none, and `None` where systems read the path in different ways.
pub open spec fn sure_extension(path: Seq<char>) -> Option<Option<Seq<char>>> {
    let name = path.skip(name_start(path, path.len() as int));
    let dot = last_dot(name, name.len() as int);
    if !path.contains('.') {
        Some(None)
    } else if dot > 0 && name != seq!['.', '.'] && !name.contains(':') && (!begins_doubly(path)
        || in_a_share(path)) {
        Some(Some(name.skip(dot + 1)))
    } else if !path.contains('\\') && !path.contains(':') && !begins_doubly(path) && name.len()
        > 0 && name != seq!['.'] {
        Some(None)
    } else if !path.contains('/') && !path.contains('\\') && !path.contains(':') {
        Some(None)
    } else {
        None
    }
}

/// The text is the extension of a video file, in upper or lower case.
pub open spec fn video_extension(extension: Seq<char>) -> bool {
    let lower = lower_text(extension);
    ||| lower == "mp4"@
    ||| lower == "mov"@
    ||| lower == "avi"@
    ||| lower == "mkv"@
    ||| lower == "webm"@
    ||| lower == "gif"@
}

/// `Path::extension`: what stands behind the last dot of a path's file name, where something
/// stands before that dot too. What the file name is depends on the system: which characters
/// separate the parts, and what the path may begin with. So the result is stated for the paths
/// that every system reads alike. Of any other path only this is said: an extension stands in the
/// path behind a dot, and holds no dot itself.
#[verifier::external_body]
fn path_extension(path: &str) -> (r: Option<String>)
    ensures
        sure_extension(path@) matches Some(known) ==> match r {
            Some(extension) => known == Some(extension@),
            None => known is None,
        },
        r matches Some(extension) ==> !extension@.contains('.') && exists|i: int|
            occurs_at(path@, seq!['.'] + extension@, i),
{
    std::path::Path::new(path).extension().and_then(|e| e.to_str()).map(|e| e.to_owned())
}

/// Whether a file with this extension is played as a video. A file without one is not.
pub fn is_video_extension(extension: Option<&str>) -> (r: bool)
    ensures
        r == (extension matches Some(e) && video_extension(e@)),
{
    match extension {
        Some(e) => {
            let lower: Vec<char> = lower_chars(chars_of(e).as_slice());
            let text: String = string_of(lower.as_slice(), 0, lower.len());
            assert(text@ =~= lower_text(e@));
            text == "mp4".to_owned() || text == "mov".to_owned() || text == "avi".to_owned()
                || text == "mkv".to_owned() || text == "webm".to_owned() || text
                == "gif".to_owned()
        },
        None => false,
    }
}

/// What is said of whether the file at `path` is played as a video: its extension decides, where
/// every system reads the path alike, and a video has the extension of one in any case.
pub open spec fn video_answer(path: Seq<char>, video: bool) -> bool {
    &&& sure_extension(path) matches Some(known) ==> video == (known matches Some(e)
        && video_extension(e))
    &&& video ==> exists|i: int, e: Seq<char>|
        #[trigger] occurs_at(path, seq!['.'] + e, i) && video_extension(e)
}

/// Whether the file at `path` is played as a video: its extension decides.
pub fn is_video(path: &str) -> (r: bool)
    ensures
        video_answer(path@, r),
{
    let extension: Option<String> = path_extension(path);
    match &extension {
        Some(e) => {
            let r: bool = is_video_extension(Some(e.as_str()));
            proof {
                let i = choose|i: int| occurs_at(path@, seq!['.'] + e@, i);
                assert(occurs_at(path@, seq!['.'] + e@, i));
            }
            r
        },
        None => is_video_extension(None),
    }
}

/// The bytes begin as a JPEG does and are more than its first marker.
pub open spec fn looks_like_jpeg(bytes: Seq<u8>) -> bool {
    bytes.len() >= 4 && bytes[0] == 0xff && bytes[1] == 0xd8
}

fn is_jpeg(bytes: &Vec<u8>) -> (r: bool)
    ensures
        r == looks_like_jpeg(bytes@),
{
    bytes.len() >= 4 && bytes[0] == 0xff && bytes[1] == 0xd8
}

/// Takes the picture that `ffmpeg` wrote for the photo at `path`.
pub fn photo_jpeg(bytes: Vec<u8>, path: &str) -> (r: Result<Vec<u8>, MediaError>)
    ensures
        match r {
            Ok(jpeg) => looks_like_jpeg(bytes@) && jpeg@ == bytes@,
            Err(error) => !looks_like_jpeg(bytes@) && error@ == (MediaErrorView::NoJpeg {
                path: path@,
            }),
        },
{
    if !is_jpeg(&bytes) {
        return Err(MediaError::NoJpeg { path: path.to_owned() });
    }
    Ok(bytes)
}

/// Takes the preview that `ffmpeg` wrote for the file at `path`.
pub fn preview_jpeg(probe: &Probe, jpeg: Vec<u8>, path: &str) -> (r: Result<Preview, MediaError>)
    ensures
        match r {
            Ok(preview) => looks_like_jpeg(jpeg@) && preview.jpeg@ == jpeg@ && preview.width
                == probe.width && preview.height == probe.height,
            Err(error) => !looks_like_jpeg(jpeg@) && error@ == (MediaErrorView::NoPreview {
                path: path@,
            }),
        },
{
    if !is_jpeg(&jpeg) {
        return Err(MediaError::NoPreview { path: path.to_owned() });
    }
    Ok(Preview { width: probe.width, height: probe.height, jpeg })
}

/// How `ffmpeg` is asked for one still picture.
pub open spec fn photo_words(
    input: Seq<char>,
    filter: Seq<char>,
    out: Seq<char>,
) -> Seq<Seq<char>> {
    seq![
        "-y"@,
        "-i"@,
        input,
        "-an"@,
        "-vf"@,
        filter,
        "-frames:v"@,
        "1"@,
        "-pix_fmt"@,
        "yuvj420p"@,
        "-q:v"@,
        "5"@,
        "-update"@,
        "1"@,
        out,
    ]
}

/// The arguments that make `ffmpeg` write one still picture.
pub fn photo_args(input: &str, filter: &str, out: &str) -> (r: Vec<String>)
    ensures
        words(r@) == photo_words(input@, filter@, out@),
{
    let args: Vec<String> = vec![
        "-y".to_owned(),
        "-i".to_owned(),
        input.to_owned(),
        "-an".to_owned(),
        "-vf".to_owned(),
        filter.to_owned(),
        "-frames:v".to_owned(),
        "1".to_owned(),
        "-pix_fmt".to_owned(),
        "yuvj420p".to_owned(),
        "-q:v".to_owned(),
        "5".to_owned(),
        "-update".to_owned(),
        "1".to_owned(),
        out.to_owned(),
    ];
    assert(words(args@) =~= photo_words(input@, filter@, out@));
    args
}

/// How `ffmpeg` is asked for a preview. Of a video it is taken a little after the start.
pub open spec fn preview_words(video: bool, input: Seq<char>, out: Seq<char>) -> Seq<Seq<char>> {
    seq!["-y"@] + (if video {
        seq!["-ss"@, "0.2"@]
    } else {
        seq![]
    }) + seq![
        "-i"@,
        input,
        "-an"@,
        "-vf"@,
        "scale=480:480:force_original_aspect_ratio=decrease"@,
        "-frames:v"@,
        "1"@,
        "-pix_fmt"@,
        "yuvj420p"@,
        "-q:v"@,
        "6"@,
        "-update"@,
        "1"@,
        out,
    ]
}

/// The arguments that make `ffmpeg` write a preview.
pub fn preview_args(video: bool, input: &str, out: &str) -> (r: Vec<String>)
    ensures
        words(r@) == preview_words(video, input@, out@),
{
    let mut args: Vec<String> = vec!["-y".to_owned()];
    if video {
        args.push("-ss".to_owned());
        args.push("0.2".to_owned());
    }
    args.push("-i".to_owned());
    args.push(input.to_owned());
    args.push("-an".to_owned());
    args.push("-vf".to_owned());
    args.push("scale=480:480:force_original_aspect_ratio=decrease".to_owned());
    args.push("-frames:v".to_owned());
    args.push("1".to_owned());
    args.push("-pix_fmt".to_owned());
    args.push("yuvj420p".to_owned());
    args.push("-q:v".to_owned());
    args.push("6".to_owned());
    args.push("-update".to_owned());
    args.push("1".to_owned());
    args.push(out.to_owned());
    assert(words(args@) =~= preview_words(video, input@, out@));
    args
}

/// How `ffmpeg` is asked for the frames of the first 20 seconds of a video.
pub open spec fn video_words(
    input: Seq<char>,
    filter: Seq<char>,
    fps: Seq<char>,
    pattern: Seq<char>,
) -> Seq<Seq<char>> {
    seq![
        "-y"@,
        "-i"@,
        input,
        "-an"@,
        "-t"@,
        "20"@,
        "-vf"@,
        filter,
        "-r"@,
        fps,
        "-pix_fmt"@,
        "yuvj420p"@,
        "-q:v"@,
        "5"@,
        pattern,
    ]
}

/// The arguments that make `ffmpeg` write the frames of a video.
pub fn video_args(input: &str, filter: &str, fps: &str, pattern: &str) -> (r: Vec<String>)
    ensures
        words(r@) == video_words(input@, filter@, fps@, pattern@),
{
    let args: Vec<String> = vec![
        "-y".to_owned(),
        "-i".to_owned(),
        input.to_owned(),
        "-an".to_owned(),
        "-t".to_owned(),
        "20".to_owned(),
        "-vf".to_owned(),
        filter.to_owned(),
        "-r".to_owned(),
        fps.to_owned(),
        "-pix_fmt".to_owned(),
        "yuvj420p".to_owned(),
        "-q:v".to_owned(),
        "5".to_owned(),
        pattern.to_owned(),
    ];
    assert(words(args@) =~= video_words(input@, filter@, fps@, pattern@));
    args
}

/// The name of the temporary still picture of process `pid`.
pub fn still_name(pid: u32) -> (r: String)
    ensures
        r@ == "strix-lc-screen-still-"@ + decimal(pid as nat) + ".jpg"@,
{
    let mut out: String = "strix-lc-screen-still-".to_owned();
    out.append(decimal_text(pid as u128).as_str());
    out.append(".jpg");
    out
}

/// The name of the temporary preview of process `pid`.
pub fn preview_name(pid: u32) -> (r: String)
    ensures
        r@ == "strix-lc-screen-preview-"@ + decimal(pid as nat) + ".jpg"@,
{
    let mut out: String = "strix-lc-screen-preview-".to_owned();
    out.append(decimal_text(pid as u128).as_str());
    out.append(".jpg");
    out
}

/// The file that `ffmpeg` writes frame `index` to; frames count from 1.
pub open spec fn frame_name(index: nat) -> Seq<char> {
    "frame_"@ + padded_decimal(index, 4) + ".jpg"@
}

/// How many frames of a video are kept: 20 seconds at 8 frames each.
pub const MAX_FRAMES: usize = 160;

/// The frames of a video, as they are read one after the other.
pub struct VideoFrames {
    pub frames: Vec<Vec<u8>>,
}

impl VideoFrames {
    /// No frames yet.
    pub fn new() -> (r: VideoFrames)
        ensures
            r.frames@.len() == 0,
    {
        VideoFrames { frames: Vec::new() }
    }

    /// The file to read next. There is none once enough frames have been read.
    pub fn next_name(&self) -> (r: Option<String>)
        ensures
            match r {
                Some(name) => self.frames@.len() < 160 && name@ == frame_name(
                    self.frames@.len() + 1,
                ),
                None => self.frames@.len() >= 160,
            },
    {
        if self.frames.len() >= MAX_FRAMES {
            return None;
        }
        let mut out: String = "frame_".to_owned();
        out.append(padded_decimal_text(self.frames.len() as u32 + 1).as_str());
        out.append(".jpg");
        Some(out)
    }

    /// Takes the frame that was read out of the file that `next_name` gave.
    pub fn add_frame(&mut self, frame: Vec<u8>)
        ensures
            final(self).frames@ == old(self).frames@.push(frame),
    {
        self.frames.push(frame);
    }
}

/// The clip made of the frames that were read out of the video at `path`.
pub fn video_jpegs(read: VideoFrames, frame_ms: u64, path: &str) -> (r: Result<Clip, MediaError>)
    ensures
        match r {
            Ok(clip) => clip.frames@ == read.frames@ && clip.frames@.len() > 0 && clip.frame_ms
                == frame_ms,
            Err(error) => read.frames@.len() == 0 && error@ == (MediaErrorView::NoFrames {
                path: path@,
            }),
        },
{
    if read.frames.len() == 0 {
        return Err(MediaError::NoFrames { path: path.to_owned() });
    }
    Ok(Clip { frames: read.frames, frame_ms })
}

/// Whether `ffmpeg` did its work.
pub fn run_ffmpeg(success: bool) -> (r: Result<(), MediaError>)
    ensures
        match r {
            Ok(_) => success,
            Err(error) => !success && error@ is FfmpegFailed,
        },
{
    if success {
        Ok(())
    } else {
        Err(MediaError::FfmpegFailed)
    }
}

/// The first line of a text without the white space around it.
pub open spec fn first_line(text: Seq<char>) -> Seq<char> {
    if lines(text).len() > 0 {
        trim(lines(text)[0])
    } else {
        seq![]
    }
}

/// The program that `where` found: the first line that it printed, if it found any.
pub fn which(success: bool, stdout: &[u8]) -> (r: Option<String>)
    ensures
        match r {
            Some(path) => success && path@.len() > 0 && path@ == first_line(lossy_text(stdout@)),
            None => !success || first_line(lossy_text(stdout@)).len() == 0,
        },
{
    if !success {
        return None;
    }
    let text: String = utf8_text_lossy(stdout);
    let rows: Vec<Vec<char>> = lines_of(chars_of(text.as_str()).as_slice());
    if rows.len() == 0 {
        assert(texts(rows@).len() == 0);
        return None;
    }
    assert(texts(rows@)[0] == rows@[0]@);
    let first: Vec<char> = trim_chars(rows[0].as_slice());
    if first.len() == 0 {
        return None;
    }
    let path: String = string_of(first.as_slice(), 0, first.len());
    assert(path@ =~= first@);
    Some(path)
}

/// The copy of `ffmpeg` that ships with the official program.
pub open spec fn bundled_ffmpeg() -> Seq<char> {
    "C:\\Program Files\\rog_strix_lc_iv\\bin\\ffmpeg.exe"@
}

/// Where the copy of `ffmpeg` that ships with the official program is kept.
pub fn bundled_ffmpeg_path() -> (r: String)
    ensures
        r@ == bundled_ffmpeg(),
{
    "C:\\Program Files\\rog_strix_lc_iv\\bin\\ffmpeg.exe".to_owned()
}

/// Which `ffmpeg` to run: the one on the path, or else the bundled one where it exists.
pub fn find_ffmpeg(on_path: Option<String>, bundled_exists: bool) -> (r: Option<String>)
    ensures
        on_path is Some ==> r == on_path,
        on_path is None ==> match r {
            Some(path) => bundled_exists && path@ == bundled_ffmpeg(),
            None => !bundled_exists,
        },
{
    match on_path {
        Some(path) => Some(path),
        None => {
            if bundled_exists {
                Some(bundled_ffmpeg_path())
            } else {
                None
            }
        },
    }
}

/// Which `ffmpeg` to run, or the complaint that there is none.
pub fn require_ffmpeg(on_path: Option<String>, bundled_exists: bool) -> (r: Result<
    String,
    MediaError,
>)
    ensures
        match r {
            Ok(path) => match on_path {
                Some(found) => path == found,
                None => bundled_exists && path@ == bundled_ffmpeg(),
            },
            Err(error) => on_path is None && !bundled_exists && error@ is NoFfmpeg,
        },
{
    match find_ffmpeg(on_path, bundled_exists) {
        Some(path) => Ok(path),
        None => Err(MediaError::NoFfmpeg),
    }
}

/// The crop's side is the largest even number that fits: no longer than either edge, and no longer
/// than what the zoom asks for, or 2 where it asks for less. A crop can move as far as the edge is
/// longer than it, and it begins at the even pixel that is asked for or right after, but no
/// further than it can move.
pub proof fn law_crop_is_the_largest_even_square(
    scaled: u32,
    width: u32,
    height: u32,
    side: u32,
    room: u32,
    wanted_x: u32,
    wanted_y: u32,
    square: Square,
)
    requires
        call_ensures(Square::side, (scaled, width, height), side),
        call_ensures(Square::room, (width, side), room),
        call_ensures(Square::placed, (side, width, height, wanted_x, wanted_y), square),
    ensures
        side % 2 == 0 && side <= width && side <= height && (side <= scaled || side == 2),
        side + 2 > width || side + 2 > height || (side + 2 > scaled && side + 2 > 2),
        side == 0 ==> width < 2 || height < 2,
        room == width - side,
        square.side == side,
        square.x == width - side || square.x == wanted_x - wanted_x % 2,
        square.x <= width - side && square.x <= wanted_x,
        square.x < width - side ==> square.x + 1 >= wanted_x,
        square.y == height - side || square.y == wanted_y - wanted_y % 2,
        square.y <= height - side && square.y <= wanted_y,
        square.y < height - side ==> square.y + 1 >= wanted_y,
{
}

proof fn lemma_fields_end_alike(a: Seq<char>, s: Seq<char>, b: Seq<char>, t: Seq<char>, c: char)
    requires
        !a.contains(c),
        !b.contains(c),
        a + seq![c] + s == b + seq![c] + t,
    ensures
        a == b,
        s == t,
{
    let x = a + seq![c] + s;
    let y = b + seq![c] + t;
    if a.len() < b.len() {
        assert(x[a.len() as int] == c);
        assert(y[a.len() as int] == b[a.len() as int]);
        assert(b.contains(b[a.len() as int]));
    } else if b.len() < a.len() {
        assert(y[b.len() as int] == c);
        assert(x[b.len() as int] == a[b.len() as int]);
        assert(a.contains(a[b.len() as int]));
    } else {
        assert(a =~= x.take(a.len() as int));
        assert(b =~= y.take(a.len() as int));
        assert(s =~= x.skip(a.len() as int + 1));
        assert(t =~= y.skip(a.len() as int + 1));
    }
}

proof fn lemma_number_holds_no(n: nat, c: char)
    requires
        !is_digit(c),
    ensures
        !decimal(n).contains(c),
{
    lemma_decimal_reads_back(n, n);
    if decimal(n).contains(c) {
        let i = choose|i: int| 0 <= i < decimal(n).len() && decimal(n)[i] == c;
        assert(is_digit(decimal(n)[i]));
    }
}

/// The filter's four numbers, read back between `crop=` and `,scale=720:720` and split at the
/// colons, are the square's side twice, its column and its row.
pub proof fn law_filter_names_side_column_and_row(
    square: &Square,
    r: String,
    a: Seq<char>,
    b: Seq<char>,
    c: Seq<char>,
    d: Seq<char>,
)
    requires
        call_ensures(Square::ffmpeg_filter, (square,), r),
        !a.contains(':') && !b.contains(':') && !c.contains(':') && !d.contains(','),
    ensures
        r@ == "crop="@ + a + ":"@ + b + ":"@ + c + ":"@ + d + ",scale=720:720"@ ==> {
            &&& is_digit_run(a) && spelled(a) == square.side
            &&& is_digit_run(b) && spelled(b) == square.side
            &&& is_digit_run(c) && spelled(c) == square.x
            &&& is_digit_run(d) && spelled(d) == square.y
        },
        exists|p: Seq<char>, q: Seq<char>, s: Seq<char>, t: Seq<char>|
            r@ == #[trigger] crop_filter(p, q, s, t) && spelled(p) == square.side && spelled(q)
                == square.side && spelled(s) == square.x && spelled(t) == square.y,
{
    let p = decimal(square.side as nat);
    let s = decimal(square.x as nat);
    let t = decimal(square.y as nat);
    law_numbers_are_written_in_base_ten(square.side as nat);
    law_numbers_are_written_in_base_ten(square.x as nat);
    law_numbers_are_written_in_base_ten(square.y as nat);
    assert(r@ == crop_filter(p, p, s, t));
    if r@ == "crop="@ + a + ":"@ + b + ":"@ + c + ":"@ + d + ",scale=720:720"@ {
        assert(r@ == crop_filter(a, b, c, d));
        lemma_number_holds_no(square.side as nat, ':');
        lemma_number_holds_no(square.x as nat, ':');
        lemma_number_holds_no(square.y as nat, ',');
        lemma_filter_fields(p, p, s, t, a, b, c, d);
    }
}

proof fn lemma_filter_from_the_front(a: Seq<char>, b: Seq<char>, c: Seq<char>, d: Seq<char>)
    ensures
        crop_filter(a, b, c, d).skip("crop="@.len() as int) == a + seq![':'] + (b + seq![':'] + (c
            + seq![':'] + (d + seq![','] + ",scale=720:720"@.skip(1)))),
{
    reveal_strlit(":");
    reveal_strlit(",scale=720:720");
    assert(":"@ =~= seq![':']);
    let scale = ",scale=720:720"@.skip(1);
    assert(",scale=720:720"@ =~= seq![','] + scale);
    assert(crop_filter(a, b, c, d).skip("crop="@.len() as int) =~= a + seq![':'] + (b + seq![':']
        + (c + seq![':'] + (d + seq![','] + scale))));
}

proof fn lemma_filter_fields(
    p: Seq<char>,
    q: Seq<char>,
    s: Seq<char>,
    t: Seq<char>,
    a: Seq<char>,
    b: Seq<char>,
    c: Seq<char>,
    d: Seq<char>,
)
    requires
        crop_filter(p, q, s, t) == crop_filter(a, b, c, d),
        !p.contains(':') && !q.contains(':') && !s.contains(':') && !t.contains(','),
        !a.contains(':') && !b.contains(':') && !c.contains(':') && !d.contains(','),
    ensures
        p == a && q == b && s == c && t == d,
{
    let scale = ",scale=720:720"@.skip(1);
    let x4 = t + seq![','] + scale;
    let y4 = d + seq![','] + scale;
    let x3 = s + seq![':'] + x4;
    let y3 = c + seq![':'] + y4;
    let x2 = q + seq![':'] + x3;
    let y2 = b + seq![':'] + y3;
    lemma_filter_from_the_front(p, q, s, t);
    lemma_filter_from_the_front(a, b, c, d);
    lemma_fields_end_alike(p, x2, a, y2, ':');
    lemma_fields_end_alike(q, x3, b, y3, ':');
    lemma_fields_end_alike(s, x4, c, y4, ':');
    lemma_fields_end_alike(t, scale, d, scale, ',');
}

/// A crop filter with these four fields.
pub open spec fn crop_filter(a: Seq<char>, b: Seq<char>, c: Seq<char>, d: Seq<char>) -> Seq<char> {
    "crop="@ + a + ":"@ + b + ":"@ + c + ":"@ + d + ",scale=720:720"@
}

/// Squares that differ in side, column or row never have the same filter.
pub proof fn law_filters_tell_squares_apart(a: &Square, b: &Square, r: String, q: String)
    requires
        call_ensures(Square::ffmpeg_filter, (a,), r),
        call_ensures(Square::ffmpeg_filter, (b,), q),
        r@ == q@,
    ensures
        a.side == b.side,
        a.x == b.x,
        a.y == b.y,
{
    let p = decimal(b.side as nat);
    let s = decimal(b.x as nat);
    let t = decimal(b.y as nat);
    lemma_number_holds_no(b.side as nat, ':');
    lemma_number_holds_no(b.x as nat, ':');
    lemma_number_holds_no(b.y as nat, ',');
    law_numbers_are_written_in_base_ten(b.side as nat);
    law_numbers_are_written_in_base_ten(b.x as nat);
    law_numbers_are_written_in_base_ten(b.y as nat);
    law_filter_names_side_column_and_row(a, r, p, p, s, t);
}

proof fn lemma_run_end(s: Seq<char>, i: int, e: int)
    requires
        0 <= i <= e <= s.len(),
        forall|k: int| i <= k < e ==> is_digit(#[trigger] s[k]),
        e < s.len() ==> !is_digit(s[e]),
    ensures
        digits_end(s, i) == e,
    decreases e - i,
{
    if i < e {
        assert(is_digit(s[i]));
        lemma_run_end(s, i + 1, e);
    }
}

proof fn lemma_run_end_moves(s: Seq<char>, i: int, t: Seq<char>, j: int)
    requires
        0 <= i <= s.len(),
        0 <= j <= t.len(),
        s.skip(i) == t.skip(j),
    ensures
        digits_end(s, i) - i == digits_end(t, j) - j,
    decreases s.len() - i,
{
    assert(s.skip(i).len() == s.len() - i);
    assert(t.skip(j).len() == t.len() - j);
    if i < s.len() {
        assert(s.skip(i)[0] == s[i]);
        assert(t.skip(j)[0] == t[j]);
        assert(s.skip(i + 1) =~= s.skip(i).skip(1));
        assert(t.skip(j + 1) =~= t.skip(j).skip(1));
        lemma_run_end_moves(s, i + 1, t, j + 1);
    }
}

proof fn lemma_size_moves(s: Seq<char>, i: int, t: Seq<char>, j: int)
    requires
        0 <= i <= s.len(),
        0 <= j <= t.len(),
        s.skip(i) == t.skip(j),
    ensures
        size_from(s, i) == size_from(t, j),
    decreases s.len() - i,
{
    assert(s.skip(i).len() == t.skip(j).len());
    if i < s.len() {
        assert(s.skip(i)[0] == s[i]);
        assert(t.skip(j)[0] == t[j]);
        if !is_digit(s[i]) {
            assert(s.skip(i + 1) =~= s.skip(i).skip(1));
            assert(t.skip(j + 1) =~= t.skip(j).skip(1));
            lemma_size_moves(s, i + 1, t, j + 1);
        } else {
            lemma_digits_end(s, i);
            lemma_digits_end(t, j);
            lemma_run_end_moves(s, i, t, j);
            let e = digits_end(s, i);
            let f = digits_end(t, j);
            assert(s.skip(e) =~= s.skip(i).skip(e - i));
            assert(t.skip(f) =~= t.skip(j).skip(f - j));
            assert(s.subrange(i, e) =~= s.skip(i).take(e - i));
            assert(t.subrange(j, f) =~= t.skip(j).take(f - j));
            if e < s.len() {
                assert(s.skip(e)[0] == s[e]);
                assert(t.skip(f)[0] == t[f]);
                assert(s.skip(e + 1) =~= s.skip(e).skip(1));
                assert(t.skip(f + 1) =~= t.skip(f).skip(1));
                lemma_run_end_moves(s, e + 1, t, f + 1);
                lemma_digits_end(s, e + 1);
                lemma_digits_end(t, f + 1);
                let g = digits_end(s, e + 1);
                let h = digits_end(t, f + 1);
                assert(s.subrange(e + 1, g) =~= s.skip(e + 1).take(g - e - 1));
                assert(t.subrange(f + 1, h) =~= t.skip(f + 1).take(h - f - 1));
                assert(s.skip(g) =~= s.skip(e + 1).skip(g - e - 1));
                assert(t.skip(h) =~= t.skip(f + 1).skip(h - f - 1));
                lemma_size_moves(s, g, t, h);
            }
            lemma_size_moves(s, e, t, f);
        }
    }
}

proof fn lemma_size_behind_plain(s: Seq<char>, n: int)
    requires
        0 <= n <= s.len(),
        forall|k: int| 0 <= k < n ==> !is_digit(#[trigger] s[k]),
    ensures
        size_from(s, 0) == size_from(s, n),
    decreases n,
{
    if n > 0 {
        lemma_size_behind_plain(s, n - 1);
        assert(!is_digit(s[n - 1]));
    }
}

proof fn lemma_run_is_digits(a: Seq<char>)
    requires
        is_digit_run(a),
    ensures
        all_digits(a),
        a[0] != '+',
{
    assert forall|i: int| 0 <= i < a.len() implies is_digit(#[trigger] a[i]) by {
        assert(48 <= a[i] as int <= 57);
    }
    assert(is_digit(a[0]));
}

/// How a line is searched for a size, piece by piece from the left: text without digits is passed
/// over, and so are digits without an `x` behind them, an `x` without digits behind it, and two
/// numbers of which one is under 2, however large the other is. Two numbers of at least 2 are the
/// size. Only a number that does not fit 32 bits ends the search, where an `x` stands behind it or
/// before it.
pub proof fn law_size_is_searched_from_the_left(
    line: &[char],
    rest: &[char],
    before: Seq<char>,
    a: Seq<char>,
    b: Seq<char>,
    r: Option<(u32, u32)>,
    q: Option<(u32, u32)>,
)
    requires
        call_ensures(find_size, (line,), r),
        call_ensures(find_size, (rest,), q),
        forall|i: int|
            0 <= i < before.len() ==> !(48 <= (#[trigger] before[i]) as int <= 57),
        is_digit_run(a),
        is_digit_run(b),
        rest@.len() > 0 ==> !(48 <= rest@[0] as int <= 57),
    ensures
        line@ == before ==> r is None,
        line@ == before + a + rest@ && (rest@.len() == 0 || rest@[0] != 'x') ==> r == q,
        line@ == before + a + seq!['x'] + rest@ ==> r == if spelled(a) > 0xffff_ffff {
            None
        } else {
            q
        },
        line@ == before + a + seq!['x'] + b + rest@ ==> r == if spelled(a) > 0xffff_ffff || spelled(
            b,
        ) > 0xffff_ffff {
            None
        } else if spelled(a) >= 2 && spelled(b) >= 2 {
            Some((spelled(a) as u32, spelled(b) as u32))
        } else {
            q
        },
{
    let s = line@;
    let n = before.len() as int;
    let e = n + a.len();
    let x = seq!['x'];
    lemma_run_is_digits(a);
    lemma_run_is_digits(b);
    law_numbers_are_read_in_base_ten(a, 0xffff_ffff);
    law_numbers_are_read_in_base_ten(b, 0xffff_ffff);
    if s == before || s == before + a + rest@ || s == before + a + x + rest@ || s == before + a + x
        + b + rest@ {
        assert forall|k: int| 0 <= k < n implies !is_digit(#[trigger] s[k]) by {
            assert(s[k] == before[k]);
        }
        lemma_size_behind_plain(s, n);
    }
    if s == before + a + rest@ || s == before + a + x + rest@ || s == before + a + x + b + rest@ {
        assert forall|k: int| n <= k < e implies is_digit(#[trigger] s[k]) by {
            assert(s[k] == a[k - n]);
        }
        assert(s[n] == a[0]);
        assert(s.subrange(n, e) =~= a);
        if e < s.len() && s == before + a + rest@ {
            assert(s[e] == rest@[0]);
        }
        lemma_run_end(s, n, e);
        lemma_digits_end(s, n);
    }
    if s == before + a + rest@ && (rest@.len() == 0 || rest@[0] != 'x') {
        assert(s.skip(e) =~= rest@.skip(0));
        lemma_size_moves(s, e, rest@, 0);
    }
    if s == before + a + x + rest@ {
        if e + 1 < s.len() {
            assert(s[e + 1] == rest@[0]);
        }
        lemma_run_end(s, e + 1, e + 1);
        assert(s.skip(e + 1) =~= rest@.skip(0));
        lemma_size_moves(s, e + 1, rest@, 0);
    }
    if s == before + a + x + b + rest@ {
        let f = e + 1 + b.len();
        assert forall|k: int| e + 1 <= k < f implies is_digit(#[trigger] s[k]) by {
            assert(s[k] == b[k - e - 1]);
        }
        if f < s.len() {
            assert(s[f] == rest@[0]);
        }
        lemma_run_end(s, e + 1, f);
        assert(s.subrange(e + 1, f) =~= b);
        assert(s.skip(f) =~= rest@.skip(0));
        lemma_size_moves(s, f, rest@, 0);
    }
}

/// Two numbers with an `x` between them, behind text without digits.
pub open spec fn size_text(part: (Seq<char>, Seq<char>, Seq<char>)) -> Seq<char> {
    part.0 + part.1 + seq!['x'] + part.2
}

/// The part is text without digits, and two numbers that fit 32 bits.
pub open spec fn is_size_part(part: (Seq<char>, Seq<char>, Seq<char>)) -> bool {
    &&& forall|i: int| 0 <= i < part.0.len() ==> !(48 <= (#[trigger] part.0[i]) as int <= 57)
    &&& is_digit_run(part.1)
    &&& is_digit_run(part.2)
    &&& spelled(part.1) <= 0xffff_ffff
    &&& spelled(part.2) <= 0xffff_ffff
}

proof fn lemma_pairs_passed_over(
    parts: Seq<(Seq<char>, Seq<char>, Seq<char>)>,
    rest: Seq<char>,
)
    requires
        forall|i: int|
            0 <= i < parts.len() ==> is_size_part(#[trigger] parts[i]) && (spelled(parts[i].1) < 2
                || spelled(parts[i].2) < 2),
        forall|i: int| 0 < i < parts.len() ==> (#[trigger] parts[i]).0.len() > 0,
        rest.len() > 0 ==> !(48 <= rest[0] as int <= 57),
    ensures
        size_from(
            parts.map_values(|part: (Seq<char>, Seq<char>, Seq<char>)| size_text(part)).flatten()
                + rest,
            0,
        ) == size_from(rest, 0),
    decreases parts.len(),
{
    let f = |part: (Seq<char>, Seq<char>, Seq<char>)| size_text(part);
    let m = parts.map_values(f);
    if parts.len() == 0 {
        assert(m.flatten() + rest =~= rest);
    } else {
        let tail = parts.skip(1);
        assert(m.drop_first() =~= tail.map_values(f));
        assert forall|i: int| 0 <= i < tail.len() implies is_size_part(#[trigger] tail[i]) && (
        spelled(tail[i].1) < 2 || spelled(tail[i].2) < 2) by {
            assert(tail[i] == parts[i + 1]);
        }
        assert forall|i: int| 0 < i < tail.len() implies (#[trigger] tail[i]).0.len() > 0 by {
            assert(tail[i] == parts[i + 1]);
        }
        lemma_pairs_passed_over(tail, rest);
        let behind = tail.map_values(f).flatten() + rest;
        let part = parts[0];
        let s = m.flatten() + rest;
        assert(m.flatten() == m.first() + m.drop_first().flatten());
        assert(m.first() == size_text(part));
        assert(s =~= part.0 + part.1 + seq!['x'] + part.2 + behind);
        if tail.len() > 0 {
            let next = tail.map_values(f);
            assert(next.flatten() == next.first() + next.drop_first().flatten());
            assert(next.first() == size_text(tail[0]));
            assert(tail[0] == parts[1]);
            assert(behind[0] == tail[0].0[0]);
        } else {
            assert(tail.map_values(f).flatten() =~= Seq::<char>::empty());
            assert(behind =~= rest);
        }
        lemma_one_pair_passed_over(part, behind);
    }
}

proof fn lemma_one_pair_passed_over(part: (Seq<char>, Seq<char>, Seq<char>), rest: Seq<char>)
    requires
        is_size_part(part),
        rest.len() > 0 ==> !(48 <= rest[0] as int <= 57),
    ensures
        size_from(part.0 + part.1 + seq!['x'] + part.2 + rest, 0) == if spelled(part.1) >= 2
            && spelled(part.2) >= 2 {
            Some((spelled(part.1) as nat, spelled(part.2) as nat))
        } else {
            size_from(rest, 0)
        },
{
    let (before, a, b) = part;
    let s = before + a + seq!['x'] + b + rest;
    let n = before.len() as int;
    let e = n + a.len();
    let f = e + 1 + b.len();
    lemma_run_is_digits(a);
    lemma_run_is_digits(b);
    law_numbers_are_read_in_base_ten(a, 0xffff_ffff);
    law_numbers_are_read_in_base_ten(b, 0xffff_ffff);
    assert forall|k: int| 0 <= k < n implies !is_digit(#[trigger] s[k]) by {
        assert(s[k] == before[k]);
    }
    lemma_size_behind_plain(s, n);
    assert forall|k: int| n <= k < e implies is_digit(#[trigger] s[k]) by {
        assert(s[k] == a[k - n]);
    }
    assert(s[n] == a[0]);
    assert(s.subrange(n, e) =~= a);
    lemma_run_end(s, n, e);
    lemma_digits_end(s, n);
    assert forall|k: int| e + 1 <= k < f implies is_digit(#[trigger] s[k]) by {
        assert(s[k] == b[k - e - 1]);
    }
    if f < s.len() {
        assert(s[f] == rest[0]);
    }
    lemma_run_end(s, e + 1, f);
    assert(s.subrange(e + 1, f) =~= b);
    assert(s.skip(f) =~= rest.skip(0));
    lemma_size_moves(s, f, rest, 0);
}

/// The first pair of numbers of at least 2 is the size, however many pairs with a smaller number
/// stand before it and however large their other numbers are.
pub proof fn law_first_full_pair_is_the_size(
    line: &[char],
    parts: Seq<(Seq<char>, Seq<char>, Seq<char>)>,
    size: (Seq<char>, Seq<char>, Seq<char>),
    rest: Seq<char>,
    r: Option<(u32, u32)>,
)
    requires
        call_ensures(find_size, (line,), r),
        forall|i: int|
            0 <= i < parts.len() ==> is_size_part(#[trigger] parts[i]) && (spelled(parts[i].1) < 2
                || spelled(parts[i].2) < 2),
        forall|i: int| 0 < i < parts.len() ==> (#[trigger] parts[i]).0.len() > 0,
        is_size_part(size),
        parts.len() > 0 ==> size.0.len() > 0,
        spelled(size.1) >= 2,
        spelled(size.2) >= 2,
        rest.len() > 0 ==> !(48 <= rest[0] as int <= 57),
        line@ == parts.map_values(
            |part: (Seq<char>, Seq<char>, Seq<char>)| size_text(part),
        ).flatten() + size_text(size) + rest,
    ensures
        r == Some((spelled(size.1) as u32, spelled(size.2) as u32)),
{
    let f = |part: (Seq<char>, Seq<char>, Seq<char>)| size_text(part);
    let m = parts.map_values(f).flatten();
    let tail = size_text(size) + rest;
    assert(line@ =~= m + tail);
    if parts.len() > 0 {
        assert(tail[0] == size.0[0]);
        lemma_pairs_passed_over(parts, tail);
    } else {
        assert(m =~= Seq::<char>::empty());
        assert(line@ =~= tail);
    }
    assert(tail =~= size.0 + size.1 + seq!['x'] + size.2 + rest);
    lemma_one_pair_passed_over(size, rest);
}

/// The first line that speaks of a video stream counts, and no other: its first size is the size,
/// and its frame rates are the rates.
pub proof fn law_first_video_line_counts(text: &str, k: int, r: Option<Probe>)
    requires
        call_ensures(parse_probe, (text,), r),
        0 <= k <= lines(text@).len(),
        forall|i: int| 0 <= i < k ==> find(#[trigger] lines(text@)[i], "Video:"@, 0) is None,
        k < lines(text@).len() ==> find(lines(text@)[k], "Video:"@, 0) is Some,
    ensures
        k == lines(text@).len() ==> r is None,
        k < lines(text@).len() ==> match r {
            Some(probe) => {
                &&& size_from(lines(text@)[k], 0) == Some((probe.width as nat, probe.height as nat))
                &&& words(probe.rates@) == rates_in(split(lines(text@)[k], seq![',']))
            },
            None => size_from(lines(text@)[k], 0) is None,
        },
{
    lemma_video_line(lines(text@), k);
}

proof fn lemma_video_line(rows: Seq<Seq<char>>, k: int)
    requires
        0 <= k <= rows.len(),
        forall|i: int| 0 <= i < k ==> find(#[trigger] rows[i], "Video:"@, 0) is None,
        k < rows.len() ==> find(rows[k], "Video:"@, 0) is Some,
    ensures
        video_line(rows) == if k < rows.len() {
            Some(rows[k])
        } else {
            None
        },
    decreases rows.len(),
{
    if rows.len() > 0 && k > 0 {
        assert(find(rows[0], "Video:"@, 0) is None);
        assert forall|i: int| 0 <= i < k - 1 implies find(
            #[trigger] rows.skip(1)[i],
            "Video:"@,
            0,
        ) is None by {
            assert(rows.skip(1)[i] == rows[i + 1]);
        }
        lemma_video_line(rows.skip(1), k - 1);
    }
}

/// The frame rates of a line are those of its parts in order, each without the white space around
/// it; a part without ` fps` at its end gives none.
pub proof fn law_rates_stand_before_fps(
    parts: Seq<Seq<char>>,
    before: Seq<char>,
    rate: Seq<char>,
    after: Seq<char>,
    other: Seq<char>,
)
    requires
        forall|i: int| 0 <= i < before.len() ==> white_space(#[trigger] before[i]),
        forall|i: int| 0 <= i < after.len() ==> white_space(#[trigger] after[i]),
        rate.len() > 0 ==> !white_space(rate[0]),
        trim(other).len() < 4 || trim(other).skip(trim(other).len() - 4) != " fps"@,
    ensures
        rates_in(Seq::<Seq<char>>::empty()) == Seq::<Seq<char>>::empty(),
        rate.len() > 0 ==> rates_in(parts.push(before + rate + " fps"@ + after)) == rates_in(
            parts,
        ).push(trim(rate)),
        rates_in(parts.push(other)) == rates_in(parts),
{
    reveal_strlit(" fps");
    let fps = " fps"@;
    assert(parts.push(other).drop_last() =~= parts);
    if rate.len() > 0 {
        let part = before + rate + fps + after;
        let middle = rate + fps;
        assert(middle[0] == rate[0]);
        assert(middle[middle.len() - 1] == 's');
        crate::text::law_trimming_takes_white_space_only(before, middle, after);
        assert(part =~= before + middle + after);
        assert(middle.skip(middle.len() - 4) =~= fps);
        assert(middle.take(middle.len() - 4) =~= rate);
        assert(parts.push(part).drop_last() =~= parts);
    }
}

/// What `ffmpeg` printed is read as one text, its regular output first; without a size in it the
/// file is named in the complaint.
pub proof fn law_probe_reads_all_output(
    stdout: &[u8],
    stderr: &[u8],
    path: &str,
    text: &str,
    r: Result<Probe, MediaError>,
    q: Option<Probe>,
)
    requires
        call_ensures(probe_media, (stdout, stderr, path), r),
        call_ensures(parse_probe, (text,), q),
        text@ == lossy_text(stdout@) + lossy_text(stderr@),
    ensures
        q matches Some(p) ==> (r matches Ok(probe) && probe.width == p.width && probe.height
            == p.height && words(probe.rates@) == words(p.rates@)),
        q is None ==> (r matches Err(error) && error@.text() == "could not read the size of "@
            + path@),
{
}

/// These six extensions are those of videos, in any mix of upper and lower case.
pub proof fn law_video_extensions(extension: &str, r: bool, none: bool)
    requires
        call_ensures(is_video_extension, (Some(extension),), r),
        call_ensures(is_video_extension, (None,), none),
    ensures
        r <==> seq!["mp4"@, "mov"@, "avi"@, "mkv"@, "webm"@, "gif"@].contains(
            lower_text(extension@),
        ),
        !none,
{
    let all = seq!["mp4"@, "mov"@, "avi"@, "mkv"@, "webm"@, "gif"@];
    let lower = lower_text(extension@);
    if r {
        if lower == "mp4"@ {
            assert(all[0] == lower);
        } else if lower == "mov"@ {
            assert(all[1] == lower);
        } else if lower == "avi"@ {
            assert(all[2] == lower);
        } else if lower == "mkv"@ {
            assert(all[3] == lower);
        } else if lower == "webm"@ {
            assert(all[4] == lower);
        } else {
            assert(all[5] == lower);
        }
    }
}

proof fn lemma_name_start(path: Seq<char>, n: int, j: int)
    requires
        0 <= n <= j <= path.len(),
        n > 0 ==> separates(path[n - 1]),
        forall|k: int| n <= k < j ==> !separates(#[trigger] path[k]),
    ensures
        name_start(path, j) == n,
    decreases j,
{
    if j > n {
        assert(!separates(path[j - 1]));
        lemma_name_start(path, n, j - 1);
    }
}

proof fn lemma_last_dot(name: Seq<char>, n: int, j: int)
    requires
        0 <= n < j <= name.len(),
        name[n] == '.',
        forall|k: int| n < k < j ==> #[trigger] name[k] != '.',
    ensures
        last_dot(name, j) == n,
    decreases j,
{
    if j > n + 1 {
        assert(name[j - 1] != '.');
        lemma_last_dot(name, n, j - 1);
    }
}

/// A file is a video where what stands behind the last dot of its name is the extension of one,
/// whatever directory it lies in; a name without a dot is never that of a video.
pub proof fn law_extension_decides(
    path: &str,
    extension: &str,
    directory: Seq<char>,
    stem: Seq<char>,
    r: bool,
    q: bool,
)
    requires
        call_ensures(is_video, (path,), r),
        call_ensures(is_video_extension, (Some(extension),), q),
        directory.len() > 0 ==> directory[directory.len() - 1] == '/' || directory[directory.len()
            - 1] == '\\',
        directory.len() > 1 ==> directory[0] != '/' && directory[0] != '\\',
        stem.len() > 0 && stem != seq!['.'],
        forall|i: int|
            0 <= i < stem.len() ==> #[trigger] stem[i] != '/' && stem[i] != '\\' && stem[i] != ':',
        forall|i: int|
            0 <= i < extension@.len() ==> #[trigger] extension@[i] != '/' && extension@[i] != '\\'
                && extension@[i] != ':' && extension@[i] != '.',
    ensures
        path@ == directory + stem + "."@ + extension@ ==> r == q,
        path@ == stem && !stem.contains('.') ==> !r,
{
    reveal_strlit(".");
    assert("."@ =~= seq!['.']);
    if path@ == directory + stem + "."@ + extension@ {
        lemma_extension_behind_the_dot(path@, directory, stem, extension@);
    }
}

proof fn lemma_extension_behind_the_dot(
    p: Seq<char>,
    directory: Seq<char>,
    stem: Seq<char>,
    extension: Seq<char>,
)
    requires
        p == directory + stem + seq!['.'] + extension,
        directory.len() > 0 ==> separates(directory[directory.len() - 1]),
        directory.len() > 1 ==> !separates(directory[0]),
        stem.len() > 0 && stem != seq!['.'],
        forall|i: int| 0 <= i < stem.len() ==> !separates(#[trigger] stem[i]) && stem[i] != ':',
        forall|i: int|
            0 <= i < extension.len() ==> !separates(#[trigger] extension[i]) && extension[i] != ':'
                && extension[i] != '.',
    ensures
        sure_extension(p) == Some(Some(extension)),
{
    let n = directory.len() as int;
    let d = stem.len() as int;
    let name = stem + seq!['.'] + extension;
    assert(p.skip(n) =~= name);
    assert forall|k: int| 0 <= k < name.len() implies !separates(#[trigger] name[k]) && name[k]
        != ':' by {
        if k < d {
            assert(name[k] == stem[k]);
        } else if k > d {
            assert(name[k] == extension[k - d - 1]);
        }
    }
    assert forall|k: int| n <= k < p.len() implies !separates(#[trigger] p[k]) by {
        assert(p[k] == name[k - n]);
    }
    lemma_name_start(p, n, p.len() as int);
    assert forall|k: int| d < k < name.len() implies #[trigger] name[k] != '.' by {
        assert(name[k] == extension[k - d - 1]);
    }
    lemma_last_dot(name, d, name.len() as int);
    assert(p[n + d] == '.');
    assert(name != seq!['.', '.']) by {
        if name == seq!['.', '.'] {
            assert(name.len() == 2);
            assert(name[1] == '.' && name[0] == '.');
            assert(stem =~= seq!['.']);
        }
    }
    assert(!begins_doubly(p)) by {
        if begins_doubly(p) {
            if n > 1 {
                assert(p[0] == directory[0]);
            } else if n == 1 {
                assert(p[1] == name[0]);
            } else {
                assert(p[0] == name[0]);
            }
        }
    }
    assert(name.skip(d + 1) =~= extension);
}

/// A picture is taken where it has at least four bytes and begins with `FF D8`, and it is taken as
/// it is; a preview keeps the size of its source.
pub proof fn law_pictures_must_begin_as_jpegs(
    probe: &Probe,
    bytes: Vec<u8>,
    path: &str,
    r: Result<Vec<u8>, MediaError>,
    q: Result<Preview, MediaError>,
)
    requires
        call_ensures(photo_jpeg, (bytes, path), r),
        call_ensures(preview_jpeg, (probe, bytes, path), q),
    ensures
        ({
            let good = bytes@.len() >= 4 && bytes@[0] == 0xff && bytes@[1] == 0xd8;
            &&& r is Ok <==> good
            &&& q is Ok <==> good
            &&& good ==> r->Ok_0@ == bytes@ && q->Ok_0.jpeg@ == bytes@ && q->Ok_0.width
                == probe.width && q->Ok_0.height == probe.height
            &&& !good ==> r->Err_0@.text() == "ffmpeg did not produce a JPEG for "@ + path@
                && q->Err_0@.text() == "ffmpeg did not produce a preview for "@ + path@
        }),
{
}

/// What `ffmpeg` is told: where to read, what to cut out, where to write, and, of a video, for how
/// long and how often; a preview of a video is taken a little behind its start.
pub proof fn law_ffmpeg_is_told(
    input: &str,
    filter: &str,
    fps: &str,
    out: &str,
    photo: Vec<String>,
    still: Vec<String>,
    moving: Vec<String>,
    video: Vec<String>,
)
    requires
        call_ensures(photo_args, (input, filter, out), photo),
        call_ensures(preview_args, (false, input, out), still),
        call_ensures(preview_args, (true, input, out), moving),
        call_ensures(video_args, (input, filter, fps, out), video),
    ensures
        words(photo@) == seq!["-y"@, "-i"@, input@, "-an"@, "-vf"@, filter@] + seq![
            "-frames:v"@,
            "1"@,
            "-pix_fmt"@,
            "yuvj420p"@,
            "-q:v"@,
            "5"@,
        ] + seq!["-update"@, "1"@, out@],
        words(still@) == seq!["-y"@, "-i"@, input@, "-an"@, "-vf"@] + seq![
            "scale=480:480:force_original_aspect_ratio=decrease"@,
            "-frames:v"@,
            "1"@,
            "-pix_fmt"@,
            "yuvj420p"@,
            "-q:v"@,
            "6"@,
        ] + seq!["-update"@, "1"@, out@],
        words(moving@) == seq!["-y"@, "-ss"@, "0.2"@] + words(still@).skip(1),
        words(video@) == seq!["-y"@, "-i"@, input@, "-an"@, "-t"@, "20"@, "-vf"@, filter@] + seq![
            "-r"@,
            fps@,
            "-pix_fmt"@,
            "yuvj420p"@,
            "-q:v"@,
            "5"@,
            out@,
        ],
{
    assert(words(photo@) =~= seq!["-y"@, "-i"@, input@, "-an"@, "-vf"@, filter@] + seq![
        "-frames:v"@,
        "1"@,
        "-pix_fmt"@,
        "yuvj420p"@,
        "-q:v"@,
        "5"@,
    ] + seq!["-update"@, "1"@, out@]);
    assert(words(still@) =~= seq!["-y"@, "-i"@, input@, "-an"@, "-vf"@] + seq![
        "scale=480:480:force_original_aspect_ratio=decrease"@,
        "-frames:v"@,
        "1"@,
        "-pix_fmt"@,
        "yuvj420p"@,
        "-q:v"@,
        "6"@,
    ] + seq!["-update"@, "1"@, out@]);
    assert(words(moving@) =~= seq!["-y"@, "-ss"@, "0.2"@] + words(still@).skip(1));
}

/// Temporary files are named by the process, and frames by their number, from 1 on and in four
/// digits; after 160 frames no further one is read. What was read is the clip.
pub proof fn law_frames_are_read_in_order(
    pid: u32,
    still: String,
    preview: String,
    read: &VideoFrames,
    name: Option<String>,
    frames: VideoFrames,
    frame_ms: u64,
    path: &str,
    clip: Result<Clip, MediaError>,
)
    requires
        call_ensures(still_name, (pid,), still),
        call_ensures(preview_name, (pid,), preview),
        call_ensures(VideoFrames::next_name, (read,), name),
        call_ensures(video_jpegs, (frames, frame_ms, path), clip),
    ensures
        still@ == "strix-lc-screen-still-"@ + decimal(pid as nat) + ".jpg"@,
        preview@ == "strix-lc-screen-preview-"@ + decimal(pid as nat) + ".jpg"@,
        name is Some <==> read.frames@.len() < 160,
        name matches Some(name) ==> exists|number: Seq<char>|
            name@ == "frame_"@ + number + ".jpg"@ && #[trigger] spelled(number)
                == read.frames@.len() + 1 && number.len() == 4 && is_digit_run(number),
        clip is Ok <==> frames.frames@.len() > 0,
        clip matches Ok(made) ==> made.frames@ == frames.frames@ && made.frame_ms == frame_ms,
        clip matches Err(error) ==> error@.text() == "ffmpeg did not produce any frames from "@
            + path@,
{
    if let Some(n) = name {
        let number = padded_decimal(read.frames@.len() + 1, 4);
        crate::text::law_padding_is_zeros_in_front(read.frames@.len() + 1, 4);
        reveal_with_fuel(decimal, 4);
        assert(number.len() == 4);
        assert(is_digit_run(number));
        assert(spelled(number) == read.frames@.len() + 1);
    }
}

/// There are no frames at first, and a frame that was read is added behind the others.
pub proof fn law_frames_are_added_behind(
    none: VideoFrames,
    read: &mut VideoFrames,
    frame: Vec<u8>,
    r: (),
)
    requires
        call_ensures(VideoFrames::new, (), none),
        call_ensures(VideoFrames::add_frame, (read, frame), r),
    ensures
        none.frames@.len() == 0,
        final(read).frames@.len() == old(read).frames@.len() + 1,
        final(read).frames@[old(read).frames@.len() as int] == frame,
        forall|i: int|
            0 <= i < old(read).frames@.len() ==> #[trigger] final(read).frames@[i] == old(
                read,
            ).frames@[i],
{
}

/// The program that is run is the first line that `where` printed, without the white space around
/// it; where it found none, it is the bundled copy, if that exists.
pub proof fn law_ffmpeg_on_the_path_comes_first(
    success: bool,
    stdout: &[u8],
    found: Option<String>,
    on_path: Option<String>,
    bundled: bool,
    r: Result<String, MediaError>,
    q: Option<String>,
    ran: Result<(), MediaError>,
)
    requires
        call_ensures(which, (success, stdout), found),
        call_ensures(find_ffmpeg, (on_path, bundled), q),
        call_ensures(require_ffmpeg, (on_path, bundled), r),
        call_ensures(run_ffmpeg, (success,), ran),
    ensures
        found is Some <==> success && lines(lossy_text(stdout@)).len() > 0 && trim(
            lines(lossy_text(stdout@))[0],
        ).len() > 0,
        found matches Some(path) ==> path@ == trim(lines(lossy_text(stdout@))[0]),
        on_path matches Some(path) ==> q == Some(path) && r == Ok::<_, MediaError>(path),
        on_path is None ==> (q is Some <==> bundled) && (r is Ok <==> bundled),
        on_path is None && bundled ==> q->0@
            == "C:\\Program Files\\rog_strix_lc_iv\\bin\\ffmpeg.exe"@ && r->Ok_0@ == q->0@,
        on_path is None && !bundled ==> r->Err_0@.text()
            == "this needs ffmpeg.exe on PATH, or the copy that shipped inside the ROG app folder"@,
        ran is Ok <==> success,
        ran matches Err(error) ==> error@.text() == "ffmpeg could not read the file"@,
{
}

/// Each error has its own words, and those about a file end with its path.
pub proof fn law_media_errors_in_words(error: &MediaError, r: String)
    requires
        call_ensures(MediaError::message, (error,), r),
    ensures
        *error is NoFfmpeg ==> r@
            == "this needs ffmpeg.exe on PATH, or the copy that shipped inside the ROG app folder"@,
        *error is FfmpegFailed ==> r@ == "ffmpeg could not read the file"@,
        *error matches MediaError::NoSize { path } ==> r@ == "could not read the size of "@ + path@,
        *error matches MediaError::NoJpeg { path } ==> r@ == "ffmpeg did not produce a JPEG for "@
            + path@,
        *error matches MediaError::NoPreview { path } ==> r@
            == "ffmpeg did not produce a preview for "@ + path@,
        *error matches MediaError::NoFrames { path } ==> r@
            == "ffmpeg did not produce any frames from "@ + path@,
{
}

/// The whole picture is shown without zoom and not moved, the bundled program is kept in the folder
/// of the official one, and 160 frames of a video are kept at most.
pub proof fn law_whole_picture_and_bundled_program<F: Copy>(
    one: F,
    zero: F,
    whole: Crop<F>,
    path: String,
)
    requires
        call_ensures(Crop::<F>::full, (one, zero), whole),
        call_ensures(bundled_ffmpeg_path, (), path),
    ensures
        whole.zoom == one && whole.pan_x == zero && whole.pan_y == zero,
        path@ == "C:\\Program Files\\rog_strix_lc_iv\\bin\\ffmpeg.exe"@,
        MAX_FRAMES == 160,
{
}

} // verus!
