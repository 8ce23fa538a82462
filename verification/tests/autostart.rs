use salmon_watch::autostart::{
    absolute_config_path, config_path_outcome, launch_agent, plist_xml_text, registry_value,
    APP_NAME,
};
use std::path::Path;

#[test]
fn relative_config_paths_are_resolved_without_touching_real_autostart() {
    let resolved = absolute_config_path("config/salmon-watch.yml").unwrap();
    assert!(Path::new(&resolved).is_absolute());
    assert!(Path::new(&resolved).ends_with("config/salmon-watch.yml"));
}

#[test]
fn an_empty_config_path_is_refused() {
    assert!(absolute_config_path("").unwrap_err().starts_with("resolve autostart config path: "));
}

#[test]
fn refusals_of_config_paths_tell_what_was_attempted() {
    assert_eq!(config_path_outcome(Ok("/a/b.yml".to_owned())), Ok("/a/b.yml".to_owned()));
    assert_eq!(
        config_path_outcome(Err("no directory".to_owned())),
        Err("resolve autostart config path: no directory".to_owned())
    );
}

#[test]
fn registry_values_are_quoted() {
    assert_eq!(APP_NAME, "Salmon Watch");
    assert_eq!(registry_value("C:\\a b.exe", "C:\\c.yml", true), "\"C:\\a b.exe\"");
    assert_eq!(
        registry_value("C:\\a b.exe", "C:\\c.yml", false),
        "\"C:\\a b.exe\" --config \"C:\\c.yml\""
    );
}

#[test]
fn xml_is_escaped() {
    assert_eq!(plist_xml_text("a&b<c>d\"e'f"), "a&amp;b&lt;c&gt;d&quot;e&apos;f");
    assert_eq!(plist_xml_text("&amp;"), "&amp;amp;");
}

#[test]
fn launch_agents_hold_the_program_and_its_configuration() {
    let agent = launch_agent("/opt/a&b", "/etc/c.yml", false);
    assert!(agent.starts_with("<?xml version=\"1.0\" encoding=\"UTF-8\"?>\n<!DOCTYPE plist "));
    assert!(agent.contains(
        "    <array>\n        <string>/opt/a&amp;b</string>\n        <string>--config</string>\n        <string>/etc/c.yml</string>\n    </array>\n"
    ));
    assert!(agent.ends_with("    <true/>\n</dict>\n</plist>\n"));
    assert!(!launch_agent("/opt/a", "/etc/c.yml", true).contains("--config"));
}
