//! The settings window.

use vstd::prelude::*;
use vstd::string::*;

use crate::config::{config_error, errors_speak_of_existing_servers, Config};
use crate::persistence::{Preferences, SectionPreferences, Theme};
use crate::text::joined;

verus! {

/// Which entry of the list of themes is chosen.
pub open spec fn theme_at(index: i32) -> Theme {
    if index == 0 {
        Theme::Dark
    } else {
        Theme::Light
    }
}

/// The theme that an entry of the list of themes stands for.
pub fn theme_of_index(index: i32) -> (theme: Theme)
    ensures
        theme == theme_at(index),
{
    if index == 0 {
        Theme::Dark
    } else {
        Theme::Light
    }
}

/// The entry of the list of themes for a theme.
pub fn index_of_theme(theme: Theme) -> (index: i32)
    ensures
        theme_at(index) == theme,
        index == 0 || index == 1,
{
    match theme {
        Theme::Dark => 0,
        Theme::Light => 1,
    }
}

/// What the settings window shows when it opens.
#[derive(Clone, Copy, Debug, PartialEq, Eq, Structural)]
pub struct SettingsForm {
    pub theme: Theme,
    pub launch_minimized: bool,
}

/// The settings window, which shows a theme at once and takes it back when it is cancelled.
#[derive(Clone, Copy, Debug, PartialEq, Eq, Structural)]
pub struct SettingsSession {
    /// The theme to go back to.
    pub initial_theme: Theme,
}

impl SettingsSession {
    /// The session before the window was first opened.
    pub fn new() -> (session: Self)
        ensures
            session.initial_theme == Theme::Dark,
    {
        SettingsSession { initial_theme: Theme::Dark }
    }

    /// Opens the window with what was saved. If that cannot be read, the theme is the one that the
    /// main window has.
    pub fn open_with(
        &mut self,
        saved: Option<SettingsForm>,
        window_is_dark: bool,
    ) -> (form: SettingsForm)
        ensures
            form == (match saved {
                Some(form) => form,
                None => SettingsForm {
                    theme: if window_is_dark {
                        Theme::Dark
                    } else {
                        Theme::Light
                    },
                    launch_minimized: false,
                },
            }),
            final(self).initial_theme == form.theme,
    {
        let form = match saved {
            Some(form) => form,
            None => {
                let theme = if window_is_dark {
                    Theme::Dark
                } else {
                    Theme::Light
                };
                SettingsForm { theme, launch_minimized: false }
            },
        };
        self.initial_theme = form.theme;
        form
    }

    /// The theme to go back to when the window is cancelled or closed.
    pub fn cancelled(&self) -> (theme: Theme)
        ensures
            theme == self.initial_theme,
    {
        self.initial_theme
    }

    /// Notes that a theme was saved.
    pub fn applied(&mut self, theme: Theme)
        ensures
            final(self).initial_theme == theme,
    {
        self.initial_theme = theme;
    }
}

/// What the settings window tells of a configuration that it does not save: the text is no YAML
/// for one, or the configuration is refused. It is `None` where the configuration is saved.
pub fn apply_status(parsed: &Result<Config, String>) -> (status: Option<String>)
    ensures
        status is Some <==> match parsed {
            Err(_) => true,
            Ok(config) => config_error(*config) is Some,
        },
        status matches Some(message) ==> match parsed {
            Err(words) => message@ == "YAML syntax error: "@ + words@,
            Ok(config) => message@ == "Configuration error: "@ + config_error(*config)->0.words(
                *config,
            ),
        },
{
    match parsed {
        Err(words) => Some(joined("YAML syntax error: ", words.as_str())),
        Ok(config) => match config.validate() {
            Ok(()) => None,
            Err(error) => {
                assert(config.ws_client.servers.len() <= usize::MAX);
                proof {
                    errors_speak_of_existing_servers(*config);
                }
                Some(joined("Configuration error: ", error.message(config).as_str()))
            },
        },
    }
}

/// Takes over what was chosen in the settings window, and nothing else.
pub fn apply_choices(preferences: &mut Preferences, theme: Theme, launch_minimized: bool)
    ensures
        *final(preferences) == (Preferences { theme, launch_minimized, ..*old(preferences) }),
{
    preferences.theme = theme;
    preferences.launch_minimized = launch_minimized;
}

/// Takes over how the main window looks, and nothing else.
pub fn apply_presentation(
    preferences: &mut Preferences,
    dark: bool,
    servers_expanded: bool,
    active_incidents_expanded: bool,
    snoozed_incidents_expanded: bool,
)
    ensures
        *final(preferences) == (Preferences {
            theme: if dark {
                Theme::Dark
            } else {
                Theme::Light
            },
            sections: SectionPreferences {
                servers_expanded,
                active_incidents_expanded,
                snoozed_incidents_expanded,
                ..old(preferences).sections
            },
            ..*old(preferences)
        }),
{
    preferences.theme = if dark {
        Theme::Dark
    } else {
        Theme::Light
    };
    preferences.sections.servers_expanded = servers_expanded;
    preferences.sections.active_incidents_expanded = active_incidents_expanded;
    preferences.sections.snoozed_incidents_expanded = snoozed_incidents_expanded;
}

} // verus!
