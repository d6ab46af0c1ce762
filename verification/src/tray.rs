//! The tray icon: what it looks like, and what clicks on it and its menu mean.

use vstd::prelude::*;

verus! {

/// A mouse button.
#[derive(Debug, Clone, Copy, PartialEq, Eq, Structural)]
pub enum MouseButton {
    Left,
    Right,
    Middle,
}

/// What happened to the tray icon.
#[derive(Debug, Clone, Copy, PartialEq, Eq, Structural)]
pub enum TrayEvent {
    /// A button was let go (`up`) or pressed.
    Click { button: MouseButton, up: bool },
    DoubleClick { button: MouseButton },
    /// The pointer came, moved or left.
    Pointer,
}

/// Whether the event brings the window up: the left button was let go, or clicked twice.
pub fn tray_click_shows_window(event: &TrayEvent) -> (r: bool)
    ensures
        r == (*event == (TrayEvent::Click { button: MouseButton::Left, up: true }) || *event == (
        TrayEvent::DoubleClick { button: MouseButton::Left })),
{
    match event {
        TrayEvent::Click { button, up } => *button == MouseButton::Left && *up,
        TrayEvent::DoubleClick { button } => *button == MouseButton::Left,
        TrayEvent::Pointer => false,
    }
}

/// What was chosen at the tray.
#[derive(Debug, Clone, PartialEq, Eq)]
pub enum TrayAction {
    /// The icon was clicked.
    Show,
    /// A menu item was chosen.
    Menu { id: String },
}

/// What is done about it.
#[derive(Debug, Clone, Copy, PartialEq, Eq, Structural)]
pub enum TrayStep {
    ShowWindow,
    StopVideo,
    Quit,
    Nothing,
}

/// What is done about what was chosen at the tray.
pub open spec fn step_for(action: TrayAction) -> TrayStep {
    match action {
        TrayAction::Show => TrayStep::ShowWindow,
        TrayAction::Menu { id } => if id@ == "show"@ {
            TrayStep::ShowWindow
        } else if id@ == "stop"@ {
            TrayStep::StopVideo
        } else if id@ == "quit"@ {
            TrayStep::Quit
        } else {
            TrayStep::Nothing
        },
    }
}

/// Tells what is done about what was chosen at the tray.
pub fn tray_step(action: &TrayAction) -> (r: TrayStep)
    ensures
        r == step_for(*action),
{
    match action {
        TrayAction::Show => TrayStep::ShowWindow,
        TrayAction::Menu { id } => {
            if *id == "show".to_owned() {
                TrayStep::ShowWindow
            } else if *id == "stop".to_owned() {
                TrayStep::StopVideo
            } else if *id == "quit".to_owned() {
                TrayStep::Quit
            } else {
                TrayStep::Nothing
            }
        },
    }
}

/// The edge of the tray icon in pixels.
pub const ICON_SIZE: u32 = 32;

/// Red, green, blue and opacity of the icon at column `x` and row `y`: a disc on nothing.
pub open spec fn icon_pixel(x: int, y: int) -> Seq<u8> {
    if (x - 15) * (x - 15) + (y - 15) * (y - 15) <= 13 * 13 {
        seq![214, 64, 38, 255]
    } else {
        seq![0, 0, 0, 0]
    }
}

/// The icon's first `n` pixels, row by row.
pub open spec fn icon_bytes(n: nat) -> Seq<u8>
    decreases n,
{
    if n == 0 {
        seq![]
    } else {
        icon_bytes((n - 1) as nat) + icon_pixel((n - 1) % 32, (n - 1) / 32)
    }
}

/// Draws the tray icon, four bytes to a pixel.
pub fn tray_icon_image() -> (r: Vec<u8>)
    ensures
        r@ == icon_bytes(1024),
{
    let mut rgba: Vec<u8> = Vec::new();
    let mut n: u32 = 0;
    while n < 1024
        invariant
            n <= 1024,
            rgba@ == icon_bytes(n as nat),
        decreases 1024 - n,
    {
        let dx: i32 = (n % ICON_SIZE) as i32 - 15;
        let dy: i32 = (n / ICON_SIZE) as i32 - 15;
        assert(dx * dx <= 256 && dy * dy <= 256 && dx * dx >= 0 && dy * dy >= 0)
            by (nonlinear_arith)
            requires
                -15 <= dx <= 16,
                -15 <= dy <= 16,
        ;
        let ghost before = rgba@;
        if dx * dx + dy * dy <= 13 * 13 {
            rgba.push(214);
            rgba.push(64);
            rgba.push(38);
            rgba.push(255);
        } else {
            rgba.push(0);
            rgba.push(0);
            rgba.push(0);
            rgba.push(0);
        }
        assert(rgba@ =~= before + icon_pixel(n as int % 32, n as int / 32));
        n += 1;
    }
    rgba
}

/// The icon holds four bytes for each pixel, and byte `i` of the pixel at column `x` and row `y`
/// stands where pixel readers look for it.
pub proof fn law_icon_is_laid_out_in_rows(x: int, y: int, i: int)
    requires
        0 <= x < 32,
        0 <= y < 32,
        0 <= i < 4,
    ensures
        icon_bytes(1024).len() == 32 * 32 * 4,
        icon_bytes(1024)[(y * 32 + x) * 4 + i] == icon_pixel(x, y)[i],
{
    lemma_icon_byte(1024, x, y, i);
}

proof fn lemma_icon_byte(n: nat, x: int, y: int, i: int)
    requires
        0 <= x < 32,
        0 <= y,
        0 <= i < 4,
    ensures
        icon_bytes(n).len() == n * 4,
        y * 32 + x < n ==> icon_bytes(n)[(y * 32 + x) * 4 + i] == icon_pixel(x, y)[i],
    decreases n,
{
    if n > 0 {
        lemma_icon_byte((n - 1) as nat, x, y, i);
        if y * 32 + x == n - 1 {
            assert((n - 1) % 32 == x);
            assert((n - 1) / 32 == y);
        }
    }
}

/// The window comes up when the left button is let go or clicked twice, and for no other button
/// and nothing else.
pub proof fn law_left_clicks_show_the_window(
    button: MouseButton,
    pressed: &TrayEvent,
    released: &TrayEvent,
    twice: &TrayEvent,
    pointer: &TrayEvent,
    a: bool,
    b: bool,
    c: bool,
    d: bool,
)
    requires
        *pressed == (TrayEvent::Click { button, up: false }),
        *released == (TrayEvent::Click { button, up: true }),
        *twice == (TrayEvent::DoubleClick { button }),
        *pointer == TrayEvent::Pointer,
        call_ensures(tray_click_shows_window, (pressed,), a),
        call_ensures(tray_click_shows_window, (released,), b),
        call_ensures(tray_click_shows_window, (twice,), c),
        call_ensures(tray_click_shows_window, (pointer,), d),
    ensures
        !a && !d,
        b <==> button == MouseButton::Left,
        c <==> button == MouseButton::Left,
{
}

/// A click shows the window, and the menu shows it, stops the video or quits; no other item does
/// anything.
pub proof fn law_menu_items(action: &TrayAction, r: TrayStep)
    requires
        call_ensures(tray_step, (action,), r),
    ensures
        *action == TrayAction::Show ==> r == TrayStep::ShowWindow,
        *action matches TrayAction::Menu { id } ==> {
            &&& r == TrayStep::ShowWindow <==> id@ == "show"@
            &&& r == TrayStep::StopVideo <==> id@ == "stop"@
            &&& r == TrayStep::Quit <==> id@ == "quit"@
        },
{
    reveal_strlit("show");
    reveal_strlit("stop");
    reveal_strlit("quit");
    assert("show"@[1] == 'h');
    assert("stop"@[1] == 't');
    assert("quit"@[1] == 'u');
}

/// The icon is 32 by 32 pixels: a disc of this colour, 13 pixels around column and row 15, and
/// nothing outside it.
pub proof fn law_icon_is_a_disc(x: int, y: int, r: Vec<u8>)
    requires
        call_ensures(tray_icon_image, (), r),
        0 <= x < 32,
        0 <= y < 32,
    ensures
        ICON_SIZE == 32,
        r@.len() == 4096,
        ({
            let inside = (x - 15) * (x - 15) + (y - 15) * (y - 15) <= 169;
            let at = (y * 32 + x) * 4;
            &&& r@[at] == if inside {
                214int
            } else {
                0
            }
            &&& r@[at + 1] == if inside {
                64int
            } else {
                0
            }
            &&& r@[at + 2] == if inside {
                38int
            } else {
                0
            }
            &&& r@[at + 3] == if inside {
                255int
            } else {
                0
            }
        }),
{
    law_icon_is_laid_out_in_rows(x, y, 0);
    law_icon_is_laid_out_in_rows(x, y, 1);
    law_icon_is_laid_out_in_rows(x, y, 2);
    law_icon_is_laid_out_in_rows(x, y, 3);
}

} // verus!
