use rum::add::{
    add_style, generic_style, read_domain, read_name, read_text, style_kind, target_path,
    targets_user_chrome,
};
use rum::config::{Config, Style, StyleType};
use rum::input::Input;
use rum::region::install_style_in_str;
use rum::settings::Settings;

fn local_record(id: i32, css: &str, domain: Option<&str>) -> Style {
    Style {
        css: String::from(css),
        id,
        uri: String::from("/tmp/a.css"),
        name: String::from("a"),
        path: String::from("/chrome/userContent.css"),
        enabled: true,
        style_type: StyleType::Local,
        domain: domain.map(String::from),
        settings: Settings::new(),
    }
}

#[test]
#[allow(non_snake_case)]
fn add_read_domain__with_add_domain_true_and_domain_input__returns_input() {
    let mut input = Input::from_text("y\ninput");

    let result = read_domain(&mut input);

    assert_eq!(result, Some(String::from("input")));
}

#[test]
#[allow(non_snake_case)]
fn add_read_domain__with_add_domain_false__returns_none() {
    let mut input = Input::from_text("n");

    let result = read_domain(&mut input);

    assert_eq!(result, None);
}

#[test]
#[allow(non_snake_case)]
fn mod_read_domain__with_add_domain_true_and_domain_input__returns_input() {
    let mut input = Input::new(vec![Some(String::from("y\n")), Some(String::from("input"))]);

    let result = read_domain(&mut input);

    assert_eq!(result, Some(String::from("input")));
}

#[test]
#[allow(non_snake_case)]
fn mod_read_domain__with_add_domain_false__returns_none() {
    let mut input = Input::new(vec![Some(String::from("n"))]);

    let result = read_domain(&mut input);

    assert_eq!(result, None);
}

#[test]
#[allow(non_snake_case)]
fn read_text__with_invalid_bytes__return_next_valid_input() {
    let mut input = Input::new(vec![None, Some(String::from("b"))]);

    let result = read_text(&mut input);

    assert_eq!(result, "b");
}

#[test]
fn read_domain_takes_an_upper_case_answer_and_nothing_else() {
    let mut upper = Input::from_text("  Y \n domain(\"kernel.org\") \nrest");
    let mut word = Input::from_text("yes\nrest");
    let mut unreadable = Input::new(vec![None, Some(String::from("y")), Some(String::from("d"))]);

    assert_eq!(read_domain(&mut upper), Some(String::from("domain(\"kernel.org\")")));
    assert_eq!(read_text(&mut upper), "rest");
    assert_eq!(read_domain(&mut word), None);
    assert_eq!(read_text(&mut word), "rest");
    assert_eq!(read_domain(&mut unreadable), None);
    assert_eq!(read_domain(&mut unreadable), Some(String::from("d")));
}

#[test]
fn read_name_trims_the_line_and_is_empty_at_the_end_of_the_input() {
    let mut input = Input::from_text("\t my style \r\n");

    assert_eq!(read_name(&mut input), "my style");
    assert_eq!(read_name(&mut input), "");
}

#[test]
fn style_kind_goes_by_the_shape_of_the_uri() {
    assert_eq!(style_kind("/tmp/a.css"), StyleType::Local);
    assert_eq!(style_kind("/tmp/a"), StyleType::Local);
    assert_eq!(style_kind("example.org/a.css"), StyleType::Remote);
    assert_eq!(style_kind("146771"), StyleType::Userstyle);
    assert_eq!(style_kind(""), StyleType::Userstyle);
}

#[test]
fn target_path_names_one_of_the_two_style_sheets() {
    assert_eq!(target_path("/p/chrome", false), "/p/chrome/userContent.css");
    assert_eq!(target_path("/p/chrome", true), "/p/chrome/userChrome.css");
    assert_eq!(target_path("/p/chrome/", true), "/p/chrome/userChrome.css");
    assert_eq!(target_path("", false), "userContent.css");
    assert!(targets_user_chrome("/p/chrome/userChrome.css"));
    assert!(!targets_user_chrome("/p/chrome/userContent.css"));
    assert!(!targets_user_chrome("Chrome.css"));
}

#[test]
fn generic_style_of_an_existing_record_replaces_only_the_css() {
    let current = local_record(4, "old", Some("domain(\"a.b\")"));
    let mut input = Input::from_text("unused");

    let record = generic_style(
        "/other",
        9,
        String::from("new"),
        Some(current),
        String::from("/elsewhere"),
        &mut input,
    );

    assert_eq!(record.css, "new");
    assert_eq!(record.id, 4);
    assert_eq!(record.name, "a");
    assert_eq!(record.uri, "/tmp/a.css");
    assert_eq!(record.path, "/chrome/userContent.css");
    assert_eq!(record.domain, Some(String::from("domain(\"a.b\")")));
    assert_eq!(read_text(&mut input), "unused");
}

#[test]
fn generic_style_of_a_chrome_style_has_the_fixed_domain() {
    let mut input = Input::from_text("name\nnot asked");

    let record = generic_style(
        "example.org/a.css",
        2,
        String::from("css"),
        None,
        String::from("/p/userChrome.css"),
        &mut input,
    );

    assert_eq!(record.name, "name");
    assert_eq!(
        record.domain,
        Some(String::from("url(chrome://browser/content/browser.xul)"))
    );
    assert_eq!(record.style_type, StyleType::Remote);
    assert!(record.enabled);
    assert_eq!(record.settings.len(), 0);
    assert_eq!(read_text(&mut input), "not asked");
}

#[test]
fn add_style_wraps_the_css_of_a_style_with_a_domain() {
    let mut config = Config::new(String::from("/chrome"));

    let region = add_style(&mut config, local_record(0, "a{}", Some("domain(\"a.b\")")), false);

    assert_eq!(
        region,
        Some(String::from(
            "\n/* RUM START 0 */\n@-moz-document domain(\"a.b\") {\na{}\n}\n/* RUM END 0 */\n"
        ))
    );
    assert_eq!(config.styles[0].css, "@-moz-document domain(\"a.b\") {\na{}\n}");
    assert_eq!(config.styles[0].domain, Some(String::from("domain(\"a.b\")")));
}

#[test]
fn add_style_for_the_catalogue_only_gives_no_region() {
    let mut config = Config::new(String::from("/chrome"));

    let region = add_style(&mut config, local_record(0, "a{}", None), true);

    assert_eq!(region, None);
    assert_eq!(config.styles.len(), 1);
}

#[test]
fn adding_a_local_style_gives_a_local_record_and_one_region() {
    let mut config = Config::new(String::from("/chrome"));
    let earlier = add_style(&mut config, local_record(0, "x", None), false).unwrap();
    let sheet = install_style_in_str("", 0, "x");
    assert_eq!(sheet, earlier);

    let id = config.next_style_id();
    let path = target_path(&config.chrome_path, false);
    let mut input = Input::from_text("my style\nn\n");
    let record = generic_style(
        "/tmp/a.css",
        id,
        String::from("body{color:red}"),
        None,
        path,
        &mut input,
    );
    let region = add_style(&mut config, record, false).unwrap();
    let sheet = [sheet, region].concat();

    assert_eq!(id, 1);
    assert_eq!(config.styles.len(), 2);
    assert_eq!(config.styles[1].id, 1);
    assert_eq!(config.styles[1].style_type, StyleType::Local);
    assert_eq!(config.styles[1].name, "my style");
    assert_eq!(config.styles[1].domain, None);
    assert_eq!(config.styles[1].uri, "/tmp/a.css");
    assert_eq!(config.styles[1].path, "/chrome/userContent.css");
    assert_eq!(
        sheet,
        "\n/* RUM START 0 */\nx\n/* RUM END 0 */\n\n/* RUM START 1 */\nbody{color:red}\n/* RUM END 1 */\n"
    );
    assert_eq!(sheet.matches("/* RUM START 1 */").count(), 1);
    assert_eq!(sheet, install_style_in_str(&earlier, 1, "body{color:red}"));
}
