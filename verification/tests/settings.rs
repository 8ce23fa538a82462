use salmon_watch::config::{Config, ServerConfig, WsClientConfig};
use salmon_watch::persistence::{Preferences, Theme};
use salmon_watch::settings::{
    apply_choices, apply_presentation, apply_status, index_of_theme, theme_of_index, SettingsForm,
    SettingsSession,
};

#[test]
fn the_first_theme_is_dark() {
    assert_eq!(theme_of_index(0), Theme::Dark);
    assert_eq!(theme_of_index(1), Theme::Light);
    assert_eq!(theme_of_index(-1), Theme::Light);
    assert_eq!(index_of_theme(Theme::Light), 1);
    assert_eq!(index_of_theme(Theme::Dark), 0);
}

#[test]
fn cancelling_goes_back_to_the_theme_at_the_start() {
    let mut session = SettingsSession::new();
    let saved = SettingsForm { theme: Theme::Light, launch_minimized: true };
    assert_eq!(session.open_with(Some(saved), true), saved);
    assert_eq!(session.cancelled(), Theme::Light);
    session.applied(Theme::Dark);
    assert_eq!(session.cancelled(), Theme::Dark);
    let form = session.open_with(None, false);
    assert_eq!(form, SettingsForm { theme: Theme::Light, launch_minimized: false });
}

#[test]
fn configurations_are_tested_before_they_are_saved() {
    let server = ServerConfig {
        id: "local".into(),
        addr: "localhost:1".into(),
        tls: None,
        auth: None,
        tunnel: None,
    };
    let valid = Config { ws_client: WsClientConfig { servers: vec![server.clone()] } };
    assert_eq!(apply_status(&Ok(valid)), None);
    let refused = Config {
        ws_client: WsClientConfig { servers: vec![ServerConfig { addr: String::new(), ..server }] },
    };
    assert_eq!(
        apply_status(&Ok(refused)).unwrap(),
        "Configuration error: wsClient.servers[0].addr is required"
    );
    assert_eq!(
        apply_status(&Err("line 1".into())).unwrap(),
        "YAML syntax error: line 1"
    );
}

#[test]
fn choices_change_only_what_was_chosen() {
    let mut preferences = Preferences::default();
    preferences.extra.insert("future".into(), "1".into());
    apply_choices(&mut preferences, Theme::Light, true);
    assert_eq!(preferences.theme, Theme::Light);
    assert!(preferences.launch_minimized);
    apply_presentation(&mut preferences, true, false, false, true);
    assert_eq!(preferences.theme, Theme::Dark);
    assert!(!preferences.sections.servers_expanded);
    assert!(!preferences.sections.active_incidents_expanded);
    assert!(preferences.sections.snoozed_incidents_expanded);
    assert!(preferences.launch_minimized);
    assert_eq!(preferences.extra.get("future").unwrap(), "1");
}
