use freedom_network::browser::{FreedomBrowser, Message, Tab};
use freedom_network::vpn::{
    VpnSettings, enforcement_should_enable, escape_ps_single_quoted, location_profiles,
    parse_node_config,
};

#[test]
fn tabs_have_labels_and_icons() {
    assert_eq!(Tab::all(), vec![Tab::Home, Tab::ChatSite, Tab::ExampleSite]);
    assert_eq!(Tab::Home.label(), "Home");
    assert_eq!(Tab::ChatSite.label(), "Chat");
    assert_eq!(Tab::ExampleSite.label(), "Example");
    let browser = FreedomBrowser::new();
    assert_eq!(browser.get_icon(&Tab::Home), "\u{1F3E0}");
}

#[test]
fn addresses_pick_tabs() {
    let mut browser = FreedomBrowser::new();
    assert_eq!(browser.current_tab, Tab::Home);

    browser.update(Message::AddressChanged("freedom://CHAT.room".to_string()));
    browser.update(Message::NavigateTo);
    assert_eq!(browser.current_tab, Tab::ChatSite);
    assert_eq!(browser.input_value, "");

    browser.update(Message::AddressChanged("an Example site".to_string()));
    browser.update(Message::NavigateTo);
    assert_eq!(browser.current_tab, Tab::ExampleSite);

    browser.update(Message::AddressChanged("somewhere else".to_string()));
    browser.update(Message::NavigateTo);
    assert_eq!(browser.current_tab, Tab::Home);

    browser.update(Message::SwitchTab(Tab::ChatSite));
    assert_eq!(browser.current_tab, Tab::ChatSite);
    browser.update(Message::Refresh);
    assert_eq!(browser.current_tab, Tab::ChatSite);
}

#[test]
fn empty_address_navigates_nowhere() {
    let mut browser = FreedomBrowser::new();
    browser.update(Message::SwitchTab(Tab::ExampleSite));
    browser.update(Message::NavigateTo);
    assert_eq!(browser.current_tab, Tab::ExampleSite);
}

#[test]
fn page_text_follows_the_tab() {
    let mut browser = FreedomBrowser::new();
    assert_eq!(browser.page_text().0, "\u{1F3E0} Home");
    browser.update(Message::SwitchTab(Tab::ChatSite));
    assert_eq!(browser.page_text().0, "\u{1F4AC} Freedom Chat");
}

#[test]
fn default_settings_are_the_full_profile() {
    let s = VpnSettings::default();
    assert_eq!(s.mode, "full");
    assert_eq!(s.protocol, "auto");
    assert_eq!(s.location, "fastest");
    assert!(!s.strict_enforcement);
    assert!(s.kill_switch);
    assert!(s.threat_protection);
    assert!(s.dns_protection);
    assert!(!s.auto_connect);
    assert_eq!(s.auto_connect_rule, "startup");
    assert!(s.split_tunnel_apps.is_empty());
}

#[test]
fn location_table_is_fixed() {
    let profiles = location_profiles();
    assert_eq!(profiles.len(), 6);
    assert_eq!(profiles[0].id, "fastest");
    assert!(profiles[0].recommended);
    assert_eq!(profiles[5].id, "asia-sg");
    assert_eq!(profiles[5].region, "Asia");
    assert_eq!(profiles.iter().filter(|p| p.recommended).count(), 1);
}

#[test]
fn powershell_escaping_drops_and_doubles_quotes() {
    assert_eq!(escape_ps_single_quoted(r#"C:\a "b" c'd"#), r#"C:\a b c''d"#);
    assert_eq!(escape_ps_single_quoted(""), "");
}

#[test]
fn enforcement_rule_truth_table() {
    assert!(!enforcement_should_enable(false, true, true, true));
    assert!(enforcement_should_enable(true, true, true, false));
    assert!(enforcement_should_enable(true, true, false, true));
    assert!(!enforcement_should_enable(true, true, false, false));
    assert!(enforcement_should_enable(true, false, true, true));
    assert!(!enforcement_should_enable(true, false, false, true));
}

#[test]
fn node_config_reads_the_environment_values() {
    let c = parse_node_config(Some("1"), Some("0"), Some("/bin/a;;/bin/b;"), Some("eu-central"));
    assert!(c.threat_protection);
    assert!(!c.dns_protection);
    assert_eq!(c.split_tunnel_apps, vec!["/bin/a".to_string(), "/bin/b".to_string()]);
    assert_eq!(c.location, "eu-central");

    let d = parse_node_config(None, Some("1"), None, None);
    assert!(!d.threat_protection);
    assert!(d.dns_protection);
    assert!(d.split_tunnel_apps.is_empty());
    assert_eq!(d.location, "fastest");
}
