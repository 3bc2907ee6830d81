//! Messages and where their catalogs are.

use winctrl_config::i18n::{interpolate, locale_candidates, locale_dir, tr, tr_f, trn, trn_f};
use winctrl_config::message::Message;

#[test]
fn marks_are_filled_in_order() {
    assert_eq!(interpolate("{} of {}".to_string(), &["1", "2"]), "1 of 2");
    assert_eq!(interpolate("{}".to_string(), &["a", "b"]), "a");
    assert_eq!(interpolate("{} {}".to_string(), &["x"]), "x {}");
    assert_eq!(interpolate("none".to_string(), &["x"]), "none");
    assert_eq!(interpolate("{}!".to_string(), &["{}", "y"]), "{}!");
    assert_eq!(interpolate("{} {}".to_string(), &["{}", "x"]), "{} x");
    assert_eq!(interpolate("{{}}{}".to_string(), &["a", "b"]), "{a}b");
    assert_eq!(interpolate("{".to_string(), &["a"]), "{");
}

#[test]
fn without_a_catalog_messages_are_the_source() {
    assert_eq!(tr("Select a joystick from the list."), "Select a joystick from the list.");
    assert_eq!(tr_f("Reading {} …", &["x"]), "Reading x …");
    assert_eq!(tr_f("{} {}", &["{}", "x"]), "{} x");
    assert_eq!(trn("{} button", "{} buttons", 1), "{} button");
    assert_eq!(trn_f("{} button", "{} buttons", 3, &["3"]), "3 buttons");
}

#[test]
fn messages_are_said() {
    let m = Message::about_both("{} and {}", "a", "b");
    assert_eq!((m.id(), m.args().len()), ("{} and {}", 2));
    assert_eq!(m.text(), "a and b");
    assert_eq!(Message::counted("{} axis", "{} axes", 1).text(), "1 axis");
    assert_eq!(Message::counted("{} axis", "{} axes", 2).text(), "2 axes");
    assert_eq!(Message::plain("plain").text(), "plain");
}

#[test]
fn the_first_base_with_a_catalog_is_taken() {
    let c = locale_candidates(Some("/home/u"));
    assert_eq!(c[0], "/home/u/.local/share/locale");
    assert_eq!(c.len(), 4);
    assert_eq!(locale_candidates(None).len(), 3);
    assert_eq!(locale_dir(None, &c, &vec![false, false, true, true]), "/usr/local/share/locale");
    assert_eq!(locale_dir(None, &c, &vec![false; 4]), "/usr/share/locale");
    assert_eq!(locale_dir(Some("/x".to_string()), &c, &vec![true; 4]), "/x");
}
