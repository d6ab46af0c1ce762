//! Saved options, the Windows sign-in startup entry, and the single window.

use vstd::prelude::*;

verus! {

/// The saved options. `F` is the type of the crop and speed numbers.
#[derive(Clone, Debug)]
pub struct Settings<F> {
    pub close_to_tray: bool,
    pub start_with_windows: bool,
    /// Sign-in launches the program with `--tray`, so the window stays hidden.
    pub start_in_tray: bool,
    pub resume_last: bool,
    pub last_path: Option<String>,
    pub zoom: F,
    pub pan_x: F,
    pub pan_y: F,
    pub speed: F,
}

/// The options of a first start, in a type where `one` and `zero` are those numbers.
pub open spec fn is_default<F>(settings: Settings<F>, one: F, zero: F) -> bool {
    &&& settings.close_to_tray
    &&& !settings.start_with_windows
    &&& settings.start_in_tray
    &&& settings.resume_last
    &&& settings.last_path is None
    &&& settings.zoom == one
    &&& settings.pan_x == zero
    &&& settings.pan_y == zero
    &&& settings.speed == one
}

/// The options that come of what was read from the settings file: those that it holds, or those
/// of a first start where it holds none.
pub open spec fn is_loaded<F>(
    loaded: Settings<F>,
    read: Option<Settings<F>>,
    one: F,
    zero: F,
) -> bool {
    match read {
        Some(settings) => loaded == settings,
        None => is_default(loaded, one, zero),
    }
}

impl<F: Copy> Settings<F> {
    /// The options of a first start. `one` and `zero` are those numbers in `F`.
    pub fn initial(one: F, zero: F) -> (r: Self)
        ensures
            is_default(r, one, zero),
    {
        Settings {
            close_to_tray: true,
            start_with_windows: false,
            start_in_tray: true,
            resume_last: true,
            last_path: None,
            zoom: one,
            pan_x: zero,
            pan_y: zero,
            speed: one,
        }
    }

    /// The options that were read from the settings file, or those of a first start where the
    /// file is not there or does not hold any.
    pub fn load(read: Option<Settings<F>>, one: F, zero: F) -> (r: Self)
        ensures
            is_loaded(r, read, one, zero),
    {
        match read {
            Some(settings) => settings,
            None => Settings::initial(one, zero),
        }
    }
}

/// The command that starts the program at sign-in.
pub open spec fn startup_text(exe: Seq<char>, hidden: bool) -> Seq<char> {
    seq!['"'] + exe + seq!['"'] + (if hidden {
        " --tray"@
    } else {
        seq![]
    })
}

/// The command that starts the program at sign-in: its path in quotes, and `--tray` where the
/// window stays hidden.
pub fn startup_command(exe: &str, hidden: bool) -> (r: String)
    ensures
        r@ == startup_text(exe@, hidden),
{
    let mut out: String = String::new();
    out.push('"');
    out.append(exe);
    out.push('"');
    if hidden {
        out.append(" --tray");
    }
    assert(out@ =~= startup_text(exe@, hidden));
    out
}

/// The name of the program's entry in the Windows startup list.
pub open spec fn run_value() -> Seq<char> {
    "strix-lc-screen"@
}

/// What to do to the Windows startup list.
#[derive(Debug, Clone, PartialEq, Eq)]
pub enum RunEntry {
    /// Write `command` under `name`.
    Write { name: String, command: String },
    /// Remove the entry called `name`.
    Remove { entry: String },
}

/// Puts the program into the Windows startup list, or takes it out.
pub fn set_run_at_logon(enable: bool, hidden: bool, exe: &str) -> (r: RunEntry)
    ensures
        match r {
            RunEntry::Write { name, command } => enable && name@ == run_value() && command@
                == startup_text(exe@, hidden),
            RunEntry::Remove { entry } => !enable && entry@ == run_value(),
        },
{
    let name: String = "strix-lc-screen".to_owned();
    if enable {
        RunEntry::Write { name, command: startup_command(exe, hidden) }
    } else {
        RunEntry::Remove { entry: name }
    }
}

/// How removing the startup entry went.
#[derive(Debug, Clone, Copy, PartialEq, Eq, Structural)]
pub enum Removal {
    Removed,
    NotThere,
    Failed,
}

/// Whether the startup entry is gone. One that was never there is.
pub fn entry_is_gone(removal: Removal) -> (r: bool)
    ensures
        r == (removal != Removal::Failed),
{
    match removal {
        Removal::Removed => true,
        Removal::NotThere => true,
        Removal::Failed => false,
    }
}

/// Whether this process is the one that opens the window. `mutex_created` says whether the
/// system gave a mutex at all, `existed_before` whether another process already held it. Without
/// a mutex nothing speaks against the window.
pub fn claim_single_instance(mutex_created: bool, existed_before: bool) -> (r: bool)
    ensures
        r == (!mutex_created || !existed_before),
{
    if !mutex_created {
        return true;
    }
    !existed_before
}

/// The `ShowWindow` command that brings the window back: restore it where it is minimized, show
/// it otherwise.
pub fn show_command(minimized: bool) -> (r: i32)
    ensures
        r == if minimized {
            9i32
        } else {
            5i32
        },
{
    if minimized {
        9
    } else {
        5
    }
}

/// Whether input has to be attached to the thread in the foreground before the window can come to
/// the front: there is one, and it is not this one.
pub fn must_attach_input(foreground_thread: u32, this_thread: u32) -> (r: bool)
    ensures
        r == (foreground_thread != 0 && foreground_thread != this_thread),
{
    foreground_thread != 0 && foreground_thread != this_thread
}

/// A first start keeps running in the tray, hides at sign-in if it starts there, sends the last
/// file again, and shows all of a picture at normal speed. Options that were read are kept.
pub proof fn law_options_of_a_first_start<F: Copy>(
    read: Settings<F>,
    one: F,
    zero: F,
    fresh: Settings<F>,
    none: Settings<F>,
    kept: Settings<F>,
)
    requires
        call_ensures(Settings::<F>::initial, (one, zero), fresh),
        call_ensures(Settings::<F>::load, (None, one, zero), none),
        call_ensures(Settings::<F>::load, (Some(read), one, zero), kept),
    ensures
        kept == read,
        none == fresh,
        fresh.close_to_tray && !fresh.start_with_windows && fresh.start_in_tray
            && fresh.resume_last,
        fresh.last_path is None,
        fresh.zoom == one && fresh.pan_x == zero && fresh.pan_y == zero && fresh.speed == one,
{
}

/// The startup command is the program's path between quotes, and hidden startup adds `--tray`. It
/// is written under the program's name where startup is wanted, and the entry of that name is
/// removed where it is not; only a failed removal leaves the entry there.
pub proof fn law_startup_entry(
    exe: &str,
    hidden: bool,
    shown_command: String,
    hidden_command: String,
    on: RunEntry,
    off: RunEntry,
    removed: bool,
    not_there: bool,
    failed: bool,
)
    requires
        call_ensures(startup_command, (exe, false), shown_command),
        call_ensures(startup_command, (exe, true), hidden_command),
        call_ensures(set_run_at_logon, (true, hidden, exe), on),
        call_ensures(set_run_at_logon, (false, hidden, exe), off),
        call_ensures(entry_is_gone, (Removal::Removed,), removed),
        call_ensures(entry_is_gone, (Removal::NotThere,), not_there),
        call_ensures(entry_is_gone, (Removal::Failed,), failed),
    ensures
        shown_command@.len() == exe@.len() + 2,
        shown_command@[0] == '"' && shown_command@[exe@.len() as int + 1] == '"',
        shown_command@.subrange(1, exe@.len() as int + 1) == exe@,
        hidden_command@ == shown_command@ + " --tray"@,
        on matches RunEntry::Write { name, command } && name@ == "strix-lc-screen"@ && command@
            == if hidden {
            hidden_command@
        } else {
            shown_command@
        },
        off matches RunEntry::Remove { entry } && entry@ == "strix-lc-screen"@,
        removed && not_there && !failed,
{
    assert(shown_command@.subrange(1, exe@.len() as int + 1) =~= exe@);
    assert(hidden_command@ =~= shown_command@ + " --tray"@);
}

/// A second window is refused only where another process holds the mutex; a minimized window is
/// restored and any other shown; input is attached to another thread in the foreground only.
pub proof fn law_one_window(
    created: bool,
    existed: bool,
    claimed: bool,
    restore: i32,
    show: i32,
    foreground: u32,
    this: u32,
    attach: bool,
)
    requires
        call_ensures(claim_single_instance, (created, existed), claimed),
        call_ensures(show_command, (true,), restore),
        call_ensures(show_command, (false,), show),
        call_ensures(must_attach_input, (foreground, this), attach),
    ensures
        !claimed <==> created && existed,
        restore == 9 && show == 5,
        attach <==> foreground != 0 && foreground != this,
{
}

} // verus!
