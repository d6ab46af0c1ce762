//! Commands given on the command line.

use crate::text::{decimal, decimal_text, words};
use vstd::prelude::*;

verus! {

/// What the arguments ask for.
#[derive(Debug, Clone, Copy, PartialEq, Eq, Structural)]
pub enum Launch {
    /// The window.
    Window,
    /// The window, hidden in the tray.
    Tray,
    /// A command.
    Command,
}

/// What the arguments ask for. None open the window, and `--tray` alone opens it hidden.
pub open spec fn launch_of(args: Seq<Seq<char>>) -> Launch {
    if args.len() == 0 {
        Launch::Window
    } else if args.len() == 1 && args[0] == "--tray"@ {
        Launch::Tray
    } else {
        Launch::Command
    }
}

/// Tells what the arguments ask for.
pub fn launch(args: &Vec<String>) -> (r: Launch)
    ensures
        r == launch_of(words(args@)),
{
    if args.len() == 0 {
        return Launch::Window;
    }
    if args.len() == 1 && args[0] == "--tray".to_owned() {
        return Launch::Tray;
    }
    Launch::Command
}

/// What to do with the screen's power.
#[derive(Debug, Clone, Copy, PartialEq, Eq, Structural)]
pub enum PowerEvent {
    Resume,
    Suspend,
}

impl PowerEvent {
    /// The event's name on the wire.
    pub open spec fn text(self) -> Seq<char> {
        match self {
            PowerEvent::Resume => "resume"@,
            PowerEvent::Suspend => "suspend"@,
        }
    }

    /// The event's name on the wire.
    pub fn name(&self) -> (r: &'static str)
        ensures
            r@ == self.text(),
    {
        match self {
            PowerEvent::Resume => "resume",
            PowerEvent::Suspend => "suspend",
        }
    }

    /// What is printed once the event was sent.
    pub fn sent_line(&self) -> (r: String)
        ensures
            r@ == "power "@ + self.text() + " sent"@,
    {
        let mut out: String = "power ".to_owned();
        out.append(self.name());
        out.append(" sent");
        out
    }
}

/// A brightness that the screen does not have.
#[derive(Debug, Clone, Copy, PartialEq, Eq, Structural)]
pub struct BadBrightness;

impl BadBrightness {
    /// The complaint in words.
    pub fn message(&self) -> (r: String)
        ensures
            r@ == "brightness must be from 0 to 100"@,
    {
        "brightness must be from 0 to 100".to_owned()
    }
}

/// A brightness is from 0 to 100.
pub fn check_brightness(value: u8) -> (r: Result<(), BadBrightness>)
    ensures
        r is Ok <==> value <= 100,
{
    if value > 100 {
        return Err(BadBrightness);
    }
    Ok(())
}

/// A command.
#[derive(Debug, Clone, Copy, PartialEq, Eq, Structural)]
pub enum Command {
    /// Tell what is known of the screen.
    Status,
    Brightness { value: u8 },
    Rotate { degrees: u16 },
    Power { event: PowerEvent },
    /// Send one picture.
    Show,
}

/// One thing done for a command.
#[derive(Debug, Clone, Copy, PartialEq, Eq, Structural)]
pub enum Act {
    /// Open the screen and ask who it is.
    Connect,
    /// Fail where the official program runs.
    EnsureClosed,
    /// Fail for the brightness.
    RefuseBrightness,
    SetBrightness { value: u8 },
    SetRotation { degrees: u16 },
    SendPower { event: PowerEvent },
    /// Make the picture, tell its size and show it.
    ShowPicture,
    /// Ask for the screen's state.
    ReadState,
    /// Print the status report.
    PrintStatus,
    /// Print the brightness that the state tells.
    PrintBrightness,
    /// Print the rotation that the state tells.
    PrintRotation,
    /// Print that the power event was sent.
    PrintPower { event: PowerEvent },
}

/// What is done for a command, in this order and up to the first thing that fails.
pub open spec fn acts_for(command: Command) -> Seq<Act> {
    match command {
        Command::Status => seq![Act::Connect, Act::ReadState, Act::PrintStatus],
        Command::Brightness { value } => if value > 100 {
            seq![Act::Connect, Act::EnsureClosed, Act::RefuseBrightness]
        } else {
            seq![
                Act::Connect,
                Act::EnsureClosed,
                Act::SetBrightness { value },
                Act::ReadState,
                Act::PrintBrightness,
            ]
        },
        Command::Rotate { degrees } => seq![
            Act::Connect,
            Act::EnsureClosed,
            Act::SetRotation { degrees },
            Act::ReadState,
            Act::PrintRotation,
        ],
        Command::Power { event } => seq![
            Act::Connect,
            Act::EnsureClosed,
            Act::SendPower { event },
            Act::PrintPower { event },
        ],
        Command::Show => seq![Act::Connect, Act::EnsureClosed, Act::ShowPicture],
    }
}

/// Plans what is done for a command.
pub fn plan(command: Command) -> (r: Vec<Act>)
    ensures
        r@ == acts_for(command),
{
    let mut acts: Vec<Act> = vec![Act::Connect];
    match command {
        Command::Status => {
            acts.push(Act::ReadState);
            acts.push(Act::PrintStatus);
        },
        Command::Brightness { value } => {
            acts.push(Act::EnsureClosed);
            if check_brightness(value).is_err() {
                acts.push(Act::RefuseBrightness);
            } else {
                acts.push(Act::SetBrightness { value });
                acts.push(Act::ReadState);
                acts.push(Act::PrintBrightness);
            }
        },
        Command::Rotate { degrees } => {
            acts.push(Act::EnsureClosed);
            acts.push(Act::SetRotation { degrees });
            acts.push(Act::ReadState);
            acts.push(Act::PrintRotation);
        },
        Command::Power { event } => {
            acts.push(Act::EnsureClosed);
            acts.push(Act::SendPower { event });
            acts.push(Act::PrintPower { event });
        },
        Command::Show => {
            acts.push(Act::EnsureClosed);
            acts.push(Act::ShowPicture);
        },
    }
    assert(acts@ =~= acts_for(command));
    acts
}

/// The act changes what the screen does.
pub open spec fn changes_the_screen(act: Act) -> bool {
    act is SetBrightness || act is SetRotation || act is SendPower || act is ShowPicture
}

/// A command changes the screen only after it was made sure that the official program is closed,
/// and never to a brightness over 100.
pub proof fn law_commands_are_careful(command: Command, i: int)
    requires
        0 <= i < acts_for(command).len(),
        changes_the_screen(acts_for(command)[i]),
    ensures
        exists|j: int| 0 <= j < i && #[trigger] acts_for(command)[j] == Act::EnsureClosed,
        acts_for(command)[i] matches Act::SetBrightness { value } ==> value <= 100,
{
    assert(acts_for(command)[1] == Act::EnsureClosed);
}

/// What is printed before a picture is sent.
pub fn sending_line(len: usize) -> (r: String)
    ensures
        r@ == "sending "@ + decimal(len as nat) + " bytes"@,
{
    let mut out: String = "sending ".to_owned();
    out.append(decimal_text(len as u128).as_str());
    out.append(" bytes");
    out
}

/// Without arguments the window opens, with `--tray` alone it opens hidden, and anything else is a
/// command.
pub proof fn law_arguments_pick_the_launch(args: &Vec<String>, r: Launch)
    requires
        call_ensures(launch, (args,), r),
    ensures
        r == Launch::Window <==> args@.len() == 0,
        r == Launch::Tray <==> args@.len() == 1 && args@[0]@ == "--tray"@,
        r == Launch::Command <==> args@.len() > 1 || (args@.len() == 1 && args@[0]@ != "--tray"@),
{
    if args@.len() > 0 {
        assert(words(args@)[0] == args@[0]@);
    }
}

/// Each command connects first. Then it does the very thing that it asks for, with the value, the
/// degrees and the event that are given, and it prints what came of it last.
pub proof fn law_command_does_what_it_asks_for(command: Command, r: Vec<Act>)
    requires
        call_ensures(plan, (command,), r),
    ensures
        r@.len() >= 3,
        r@[0] == Act::Connect,
        command == Command::Status ==> r@.len() == 3 && r@[1] == Act::ReadState && r@[2]
            == Act::PrintStatus,
        command != Command::Status ==> r@[1] == Act::EnsureClosed,
        command matches Command::Brightness { value } ==> if value <= 100 {
            r@.len() == 5 && r@[2] == (Act::SetBrightness { value }) && r@[3] == Act::ReadState
                && r@[4] == Act::PrintBrightness
        } else {
            r@.len() == 3 && r@[2] == Act::RefuseBrightness
        },
        command matches Command::Rotate { degrees } ==> r@.len() == 5 && r@[2] == (
        Act::SetRotation { degrees }) && r@[3] == Act::ReadState && r@[4] == Act::PrintRotation,
        command matches Command::Power { event } ==> r@.len() == 4 && r@[2] == (Act::SendPower {
            event,
        }) && r@[3] == (Act::PrintPower { event }),
        command == Command::Show ==> r@.len() == 3 && r@[2] == Act::ShowPicture,
{
}

/// The two events go over the wire as `resume` and `suspend`, a brightness is good from 0 to 100,
/// and what is printed names the event and counts the bytes.
pub proof fn law_words_of_commands(
    event: &PowerEvent,
    name: &'static str,
    sent: String,
    value: u8,
    good: Result<(), BadBrightness>,
    len: usize,
    sending: String,
)
    requires
        call_ensures(PowerEvent::name, (event,), name),
        call_ensures(PowerEvent::sent_line, (event,), sent),
        call_ensures(check_brightness, (value,), good),
        call_ensures(sending_line, (len,), sending),
    ensures
        *event == PowerEvent::Resume ==> name@ == "resume"@,
        *event == PowerEvent::Suspend ==> name@ == "suspend"@,
        sent@ == "power "@ + name@ + " sent"@,
        good is Ok <==> value <= 100,
        sending@ == "sending "@ + decimal(len as nat) + " bytes"@,
{
}

/// What is said of a brightness over 100.
pub proof fn law_brightness_limit_in_words(error: &BadBrightness, r: String)
    requires
        call_ensures(BadBrightness::message, (error,), r),
    ensures
        r@ == "brightness must be from 0 to 100"@,
{
}

} // verus!
