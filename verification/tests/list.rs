use rum::config::{Style, StyleType};
use rum::errors::Error;
use rum::list::{print, print_verbose};
use rum::settings::Settings;
use rum::userstyle::display_options;

fn listed_style(id: i32, name: &str, path: &str, enabled: bool) -> Style {
    Style {
        css: String::new(),
        id,
        uri: String::from("/tmp/a.css"),
        name: String::from(name),
        path: String::from(path),
        enabled,
        style_type: StyleType::Local,
        domain: None,
        settings: Settings::new(),
    }
}

#[test]
fn print_pads_the_id_to_five_characters() {
    let content = listed_style(3, "dark", "/c/userContent.css", true);
    let chrome = listed_style(1234, "n", "/c/userChrome.css", true);
    let disabled = listed_style(12, "x", "/c/userChrome.css", false);

    assert_eq!(print(&content), "(3)   [CONTENT]  dark");
    assert_eq!(print(&content), format!("{:5} [CONTENT]  {}", "(3)", "dark"));
    assert_eq!(print(&chrome), "(1234) [CHROME]   n");
    assert_eq!(print(&disabled), "(12)  [DISABLED] x");
}

#[test]
fn print_verbose_tells_every_field() {
    let mut style = listed_style(7, "dark", "/c/userChrome.css", false);
    style.style_type = StyleType::Userstyle;
    style.uri = String::from("146771");
    style.domain = Some(String::from("domain(\"a.b\")"));

    assert_eq!(
        print_verbose(&style),
        "dark\n    ID: 7\n    URI: 146771\n    TARGET: userChrome\n    TYPE: Userstyle\n    \
         DOMAIN: domain(\"a.b\")\n    ENABLED: false\n"
    );
    assert_eq!(
        print_verbose(&listed_style(0, "", "/c/userContent.css", true)),
        "\n    ID: 0\n    URI: /tmp/a.css\n    TARGET: userContent\n    TYPE: Local\n    \
         DOMAIN: \n    ENABLED: true\n"
    );
}

#[test]
fn display_options_numbers_the_options_and_names_the_default() {
    let options = vec![String::from("a"), String::from("b")];

    assert_eq!(
        display_options(&options, 1, true),
        "    (0) a\n    (1) b\n    (2) Custom\n[Default 1] > "
    );
    assert_eq!(
        display_options(&options, 0, false),
        "    (0) a\n    (1) b\n[Default 0] > "
    );
    assert_eq!(display_options(&Vec::new(), 0, true), "    (0) Custom\n[Default 0] > ");
    let twelve: Vec<String> = (0..12).map(|i| format!("o{}", i)).collect();
    assert!(display_options(&twelve, 11, false).ends_with("    (11) o11\n[Default 11] > "));
}

#[test]
fn message_is_the_text_that_an_error_carries() {
    assert_eq!(Error::NotFound.message(), "Invalid style id or name");
    assert_eq!(Error::Config(String::from("c")).message(), "c");
    assert_eq!(Error::Io(String::from("i")).message(), "i");
    assert_eq!(Error::Network(String::from("n")).message(), "n");
    assert_eq!(Error::Parse(String::from("p")).message(), "p");
    assert_eq!(Error::Recovery(String::from("r")).message(), "r");
}
