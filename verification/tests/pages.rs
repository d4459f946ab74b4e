use itmo_terminal::nav::{is_active, link_style, ACTIVE_LINK_STYLE, IDLE_LINK_STYLE};
use itmo_terminal::records::{telegram_url, Achievement, Player};

#[test]
fn home_link_is_active_on_root_and_home() {
    assert!(is_active("/home", "/"));
    assert!(is_active("/home", "/home"));
    assert!(is_active("/home", "/home/x"));
    assert!(!is_active("/home", "/players"));
}

#[test]
fn other_links_match_by_prefix() {
    assert!(is_active("/players", "/players"));
    assert!(is_active("/players", "/playersx"));
    assert!(!is_active("/players", "/"));
    assert!(!is_active("/achievements", "/home"));
}

#[test]
fn link_styles() {
    assert_eq!(link_style("/home", "/"), "color: #55aaff; text-decoration: none;");
    assert_eq!(link_style("/players", "/home"), "color: #00ff00; text-decoration: none;");
    assert_eq!(ACTIVE_LINK_STYLE, link_style("/achievements", "/achievements"));
    assert_eq!(IDLE_LINK_STYLE, link_style("/achievements", "/players"));
}

#[test]
fn telegram_addresses() {
    assert_eq!(telegram_url("@team"), "https://t.me/team");
    assert_eq!(telegram_url("team"), "https://t.me/team");
    assert_eq!(telegram_url("@@a@b"), "https://t.me/a@b");
    assert_eq!(telegram_url(""), "https://t.me/");
    assert_eq!(telegram_url("@"), "https://t.me/");
}

#[test]
fn records_hold_their_fields() {
    let p = Player { id: 1, name: "Ann".to_string(), tg_username: "@ann".to_string(), rank: "captain".to_string() };
    assert_eq!(p.clone(), p);
    assert_eq!(telegram_url(&p.tg_username), "https://t.me/ann");
    let a = Achievement { id: 2, date: "2025-01-01".to_string(), event: "CTF".to_string(), rating: 3, link: None };
    assert_eq!(a.clone(), a);
    assert!(a.link.is_none());
}
