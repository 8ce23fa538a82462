//! What the buttons and menus of the application do.

use vstd::prelude::*;
use vstd::string::*;

use crate::runtime::{Command, CommandModel};
use crate::text::{all_digits, copy_of, digits_value, same_text, Text};

verus! {

/// What a click on the tray icon does.
#[derive(Clone, Copy, Debug, PartialEq, Eq, Structural)]
pub enum TrayToggleAction {
    Show,
    Activate,
    Hide,
}

/// What a click on the tray icon does: a hidden window is shown, a window that is behind others
/// comes to the front, and only a window that has the focus is hidden.
pub fn tray_toggle_action(visible: bool, focused: bool) -> (action: TrayToggleAction)
    ensures
        action == (if !visible {
            TrayToggleAction::Show
        } else if !focused {
            TrayToggleAction::Activate
        } else {
            TrayToggleAction::Hide
        }),
{
    match (visible, focused) {
        (false, _) => TrayToggleAction::Show,
        (true, false) => TrayToggleAction::Activate,
        (true, true) => TrayToggleAction::Hide,
    }
}

/// How many seconds an entry of the snooze menu stands for.
pub open spec fn menu_seconds(value: Text) -> Option<i64> {
    if value == "15m"@ {
        Some(900)
    } else if value == "30m"@ {
        Some(1_800)
    } else if value == "1h"@ {
        Some(3_600)
    } else if value == "4h"@ {
        Some(14_400)
    } else if value == "6h"@ {
        Some(21_600)
    } else if value == "12h"@ {
        Some(43_200)
    } else if value == "1d"@ {
        Some(86_400)
    } else if value == "2d"@ {
        Some(172_800)
    } else if value == "7d"@ {
        Some(604_800)
    } else {
        None
    }
}

/// How many seconds an entry of the snooze menu stands for.
pub fn parse_snooze_duration(value: &str) -> (seconds: Option<i64>)
    ensures
        seconds == menu_seconds(value@),
{
    if same_text(value, "15m") {
        Some(15 * 60)
    } else if same_text(value, "30m") {
        Some(30 * 60)
    } else if same_text(value, "1h") {
        Some(60 * 60)
    } else if same_text(value, "4h") {
        Some(4 * 60 * 60)
    } else if same_text(value, "6h") {
        Some(6 * 60 * 60)
    } else if same_text(value, "12h") {
        Some(12 * 60 * 60)
    } else if same_text(value, "1d") {
        Some(24 * 60 * 60)
    } else if same_text(value, "2d") {
        Some(2 * 24 * 60 * 60)
    } else if same_text(value, "7d") {
        Some(7 * 24 * 60 * 60)
    } else {
        None
    }
}

/// The command for an action on an incident, if there is one.
pub open spec fn action_command(key: Text, action: Text, argument: Text) -> Option<CommandModel> {
    if action == "snooze"@ {
        match menu_seconds(argument) {
            Some(seconds) => Some(CommandModel::Snooze { key, seconds }),
            None => None,
        }
    } else if action == "unsnooze"@ {
        Some(CommandModel::Unsnooze { key })
    } else if action == "forget"@ {
        Some(CommandModel::ForgetStale { key })
    } else {
        None
    }
}

/// The command for an action on an incident, if there is one.
pub fn incident_command(key: &str, action: &str, argument: &str) -> (command: Option<Command>)
    ensures
        command is Some <==> action_command(key@, action@, argument@) is Some,
        command matches Some(command) ==> action_command(key@, action@, argument@) == Some(
            command@,
        ),
{
    proof {
        reveal_strlit("snooze");
        reveal_strlit("unsnooze");
        reveal_strlit("forget");
    }
    if same_text(action, "snooze") {
        match parse_snooze_duration(argument) {
            Some(seconds) => Some(Command::Snooze { key: copy_of(key), seconds }),
            None => None,
        }
    } else if same_text(action, "unsnooze") {
        Some(Command::Unsnooze { key: copy_of(key) })
    } else if same_text(action, "forget") {
        Some(Command::ForgetStale { key: copy_of(key) })
    } else {
        None
    }
}

/// The title and the text of the notification for a configuration that could not be loaded again.
pub fn reload_failure(error: &str) -> (notification: (String, String))
    ensures
        notification.0@ == "Configuration reload failed"@,
        notification.1@ == error@,
{
    ("Configuration reload failed".to_owned(), copy_of(error))
}

/// Tests whether the window stays hidden at the start, because the user asked for it now or
/// always.
pub fn starts_hidden(asked: bool, launch_minimized: bool) -> (hidden: bool)
    ensures
        hidden == (asked || launch_minimized),
{
    asked || launch_minimized
}

// ---------------------------------------------------------------------------------------------
// Laws
// ---------------------------------------------------------------------------------------------

/// How many seconds the unit at the end of an entry of the snooze menu has.
pub open spec fn unit_seconds(unit: char) -> int {
    if unit == 'm' {
        60
    } else if unit == 'h' {
        3_600
    } else {
        86_400
    }
}

/// An entry of the snooze menu is a number and a unit, minutes, hours or days, and stands for that
/// many of them.
pub proof fn menu_entries_stand_for_what_they_say(value: Text)
    requires
        menu_seconds(value) is Some,
    ensures
        value.len() >= 2,
        value.last() == 'm' || value.last() == 'h' || value.last() == 'd',
        all_digits(value.drop_last()),
        menu_seconds(value)->0 == digits_value(value.drop_last()) * unit_seconds(value.last()),
        menu_seconds(value)->0 > 0,
{
    reveal_strlit("15m");
    reveal_strlit("30m");
    reveal_strlit("1h");
    reveal_strlit("4h");
    reveal_strlit("6h");
    reveal_strlit("12h");
    reveal_strlit("1d");
    reveal_strlit("2d");
    reveal_strlit("7d");
    reveal_with_fuel(digits_value, 3);
    let number = value.drop_last();
    if number.len() == 2 {
        assert(number.drop_last().drop_last().len() == 0);
    }
}

/// The snooze menu has the entries that it shows: a quarter and half an hour, one, four, six and
/// twelve hours, and one, two and seven days.
pub proof fn menu_entries_are_known(value: Text)
    ensures
        menu_seconds(value) is Some <==> {
            ||| value == "15m"@
            ||| value == "30m"@
            ||| value == "1h"@
            ||| value == "4h"@
            ||| value == "6h"@
            ||| value == "12h"@
            ||| value == "1d"@
            ||| value == "2d"@
            ||| value == "7d"@
        },
{
}

/// An action on an incident is carried out on that incident and no other. Snoozing is for as long
/// as the entry of the menu says, and an entry that is unknown snoozes nothing.
pub proof fn actions_concern_their_incident(key: Text, argument: Text, action: Text)
    ensures
        action_command(key, "unsnooze"@, argument) == Some(CommandModel::Unsnooze { key }),
        action_command(key, "forget"@, argument) == Some(CommandModel::ForgetStale { key }),
        match menu_seconds(argument) {
            Some(seconds) => action_command(key, "snooze"@, argument) == Some(
                CommandModel::Snooze { key, seconds },
            ),
            None => action_command(key, "snooze"@, argument) is None,
        },
        action != "snooze"@ && action != "unsnooze"@ && action != "forget"@ ==> action_command(
            key,
            action,
            argument,
        ) is None,
{
    reveal_strlit("snooze");
    reveal_strlit("unsnooze");
    reveal_strlit("forget");
    assert("unsnooze"@.len() != "snooze"@.len());
    assert("forget"@.len() != "unsnooze"@.len());
    assert("forget"@[0] != "snooze"@[0]);
}

} // verus!
