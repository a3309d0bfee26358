use rum::config::{get_profile_selection, get_profiles, Config, Style, StyleType};
use rum::errors::Error;
use rum::input::Input;
use rum::settings::Settings;

fn dummy_style() -> Style {
    Style {
        id: 0,
        domain: None,
        enabled: true,
        uri: String::new(),
        name: String::new(),
        path: String::new(),
        style_type: StyleType::Local,
        settings: Settings::new(),
        css: String::new(),
    }
}

fn dummy_config(styles: Vec<Style>) -> Config {
    Config {
        chrome_path: String::new(),
        styles,
    }
}

fn style_with_id(id: i32) -> Style {
    let mut style = dummy_style();
    style.id = id;
    style
}

#[test]
#[allow(non_snake_case)]
fn get_profiles__with_one_profile__returns_profile_name() {
    let profiles = get_profiles("Path=MyProfile");

    assert_eq!(profiles[0], "MyProfile");
}

#[test]
#[allow(non_snake_case)]
fn get_profiles__with_empty_ini__returns_empty_vec() {
    let profiles = get_profiles("");

    assert_eq!(profiles.len(), 0);
}

#[test]
#[allow(non_snake_case)]
fn get_profiles__with_multiple_profiles__returns_correct_default() {
    let content = "Path=nondefault\nName=default\nPath=default\nPath=nondefault";

    let profiles = get_profiles(content);

    assert_eq!(profiles[0], "default");
}

#[test]
#[allow(non_snake_case)]
fn get_profiles__with_multiple_profiles__returns_all_profiles() {
    let profiles = get_profiles("Path=one\nPath=two");

    assert_eq!(profiles[0], "one");
    assert_eq!(profiles[1], "two");
}

#[test]
fn get_profiles_strips_carriage_returns_before_line_feeds() {
    let profiles = get_profiles("[Profile0]\r\nName=default\r\nPath=abc.default\r\nPath=x\r");

    assert_eq!(profiles, vec![String::from("abc.default"), String::from("x\r")]);
}

#[test]
fn get_profiles_keeps_order_around_the_default() {
    let profiles = get_profiles("Path=a\nPath=b\nName=default\nIsRelative=1\nPath=c\nPath=d\n");

    assert_eq!(
        profiles,
        vec![String::from("c"), String::from("a"), String::from("b"), String::from("d")]
    );
}

#[test]
#[allow(non_snake_case)]
fn get_profile_selection__with_no_user_input__returns_first_profile() {
    let mut input = Input::from_text("");
    let profiles = vec![String::from("0"), String::from("1"), String::from("2")];

    let profile = get_profile_selection(&profiles, &mut input).unwrap();

    assert_eq!(profile, "0");
}

#[test]
#[allow(non_snake_case)]
fn get_profile_selection__with_user_input_one__returns_second_profile() {
    let mut input = Input::from_text("1");
    let profiles = vec![String::from("0"), String::from("1"), String::from("2")];

    let profile = get_profile_selection(&profiles, &mut input).unwrap();

    assert_eq!(profile, "1");
}

#[test]
#[allow(non_snake_case)]
fn get_profile_selection__with_user_input_letters__returns_error() {
    let mut input = Input::from_text("aoeu");
    let profiles = vec![String::from("0"), String::from("1"), String::from("2")];

    let result = get_profile_selection(&profiles, &mut input);

    assert!(result.is_err());
    assert!(matches!(result, Err(Error::Parse(_))));
}

#[test]
#[allow(non_snake_case)]
fn get_profile_selection__with_user_input_out_of_range__returns_error() {
    let mut input = Input::from_text("99");
    let profiles = vec![String::from("0"), String::from("1"), String::from("2")];

    let result = get_profile_selection(&profiles, &mut input);

    assert!(result.is_err());
    assert!(matches!(result, Err(Error::Config(_))));
}

#[test]
#[allow(non_snake_case)]
fn get_profile_selection__with_empty_vec__returns_error() {
    let mut input = Input::from_text("");

    let result = get_profile_selection(&Vec::new(), &mut input);

    assert!(result.is_err());
}

#[test]
fn get_profile_selection_with_unreadable_line_is_an_io_error() {
    let mut input = Input::new(vec![None, Some(String::from("1"))]);
    let profiles = vec![String::from("0"), String::from("1")];

    let result = get_profile_selection(&profiles, &mut input);

    assert!(matches!(result, Err(Error::Io(_))));
}

#[test]
#[allow(non_snake_case)]
fn next_style_id__with_two_styles__returns_minimal_id() {
    let mut style_zero = dummy_style();
    let mut style_two = dummy_style();
    style_zero.id = 0;
    style_two.id = 2;
    let config = dummy_config(vec![style_zero, style_two]);

    let id = config.next_style_id();

    assert_eq!(id, 1);
}

#[test]
fn next_style_id_without_styles_is_zero() {
    let config = dummy_config(Vec::new());

    assert_eq!(config.next_style_id(), 0);
}

#[test]
fn next_style_id_without_gap_is_one_past_the_largest() {
    let config = dummy_config(vec![style_with_id(0), style_with_id(1), style_with_id(2)]);

    assert_eq!(config.next_style_id(), 3);
}

#[test]
fn next_style_id_does_not_depend_on_the_order_of_the_styles() {
    let config = dummy_config(vec![style_with_id(2), style_with_id(0), style_with_id(1), style_with_id(4)]);

    assert_eq!(config.next_style_id(), 3);
}

#[test]
fn next_style_id_is_never_an_id_in_use() {
    let config = dummy_config(vec![style_with_id(-1), style_with_id(0), style_with_id(0), style_with_id(1)]);

    let id = config.next_style_id();

    assert_eq!(id, 2);
    assert!(!config.contains_style(id));
}

#[test]
#[allow(non_snake_case)]
fn remove_style__with_id_one__removes_style_one() {
    let mut style_zero = dummy_style();
    let mut style_one = dummy_style();
    let mut style_two = dummy_style();
    style_zero.id = 0;
    style_one.id = 1;
    style_two.id = 2;
    let mut config = dummy_config(vec![style_zero, style_one, style_two]);

    config.remove_style(1);

    assert_eq!(config.styles.len(), 2);
    assert_eq!(config.styles[0].id, 0);
    assert_eq!(config.styles[1].id, 2);
}

#[test]
#[allow(non_snake_case)]
fn remove_style__with_id_one__returns_style_one() {
    let mut style_zero = dummy_style();
    let mut style_one = dummy_style();
    let mut style_two = dummy_style();
    style_zero.id = 0;
    style_one.id = 1;
    style_two.id = 2;
    let mut config = dummy_config(vec![style_zero, style_one, style_two]);

    let result = config.remove_style(1).unwrap();

    assert_eq!(result.id, 1);
}

#[test]
fn remove_style_moves_the_last_style_into_the_gap() {
    let mut config = dummy_config(vec![
        style_with_id(5),
        style_with_id(6),
        style_with_id(7),
        style_with_id(8),
    ]);

    let removed = config.remove_style(5).unwrap();

    assert_eq!(removed.id, 5);
    let ids: Vec<i32> = config.styles.iter().map(|s| s.id).collect();
    assert_eq!(ids, vec![8, 6, 7]);
}

#[test]
fn remove_style_with_unknown_id_changes_nothing() {
    let mut config = dummy_config(vec![style_with_id(0), style_with_id(1)]);

    assert!(config.remove_style(7).is_none());

    assert_eq!(config.styles.len(), 2);
    assert_eq!(config.styles[0].id, 0);
    assert_eq!(config.styles[1].id, 1);
}

#[test]
#[allow(non_snake_case)]
fn style_id_by_name__with_name_one__returns_one() {
    let mut style_zero = dummy_style();
    let mut style_one = dummy_style();
    let mut style_two = dummy_style();
    style_zero.name = String::from("zero");
    style_one.name = String::from("one");
    style_two.name = String::from("two");
    style_zero.id = 0;
    style_one.id = 1;
    style_two.id = 2;
    let config = dummy_config(vec![style_zero, style_one, style_two]);

    let id = config.style_id_from_str("one").unwrap();

    assert_eq!(id, 1);
}

#[test]
fn style_id_from_str_prefers_an_existing_id() {
    let mut named = style_with_id(7);
    named.name = String::from("3");
    let config = dummy_config(vec![named, style_with_id(3)]);

    assert_eq!(config.style_id_from_str("3"), Some(3));
    assert_eq!(config.style_id_from_str("+3"), Some(3));
    assert_eq!(config.style_id_from_str("7"), Some(7));
}

#[test]
fn style_id_from_str_falls_back_to_the_name_of_a_number_without_style() {
    let mut named = style_with_id(7);
    named.name = String::from("12");
    let config = dummy_config(vec![style_with_id(3), named]);

    assert_eq!(config.style_id_from_str("12"), Some(7));
}

#[test]
fn style_id_from_str_takes_the_first_of_equal_names_and_is_case_sensitive() {
    let mut first = style_with_id(4);
    first.name = String::from("dark");
    let mut second = style_with_id(2);
    second.name = String::from("dark");
    let config = dummy_config(vec![first, second]);

    assert_eq!(config.style_id_from_str("dark"), Some(4));
    assert_eq!(config.style_id_from_str("Dark"), None);
    assert_eq!(config.style_id_from_str("9"), None);
    assert_eq!(config.style_id_from_str(""), None);
}

#[test]
#[allow(non_snake_case)]
fn contains_style__with_style__returns_true() {
    let mut style_zero = dummy_style();
    style_zero.id = 0;
    let config = dummy_config(vec![style_zero]);

    let contains_style = config.contains_style(0);

    assert!(contains_style);
}

#[test]
#[allow(non_snake_case)]
fn contains_style__without_style__returns_false() {
    let config = dummy_config(Vec::new());

    let contains_style = config.contains_style(0);

    assert!(!contains_style);
}

#[test]
#[allow(non_snake_case)]
fn toggle_style__with_style_enabled__disables_style() {
    let mut style = dummy_style();
    style.enabled = true;
    style.id = 0;
    let mut config = dummy_config(vec![style]);

    config.toggle_style(0).unwrap();

    assert!(!config.styles[0].enabled);
}

#[test]
#[allow(non_snake_case)]
fn toggle_style__with_style_disabled__enables_style() {
    let mut style = dummy_style();
    style.enabled = false;
    style.id = 3;
    let mut config = dummy_config(vec![style]);

    config.toggle_style(3).unwrap();

    assert!(config.styles[0].enabled);
}

#[test]
#[should_panic]
#[allow(non_snake_case)]
fn toggle_style__with_invalid_id__returns_error() {
    let mut config = dummy_config(Vec::new());

    config.toggle_style(15).unwrap();
}

#[test]
fn toggle_style_with_unknown_id_is_not_found_and_changes_nothing() {
    let mut config = dummy_config(vec![style_with_id(1)]);

    let result = config.toggle_style(15);

    assert!(matches!(result, Err(Error::NotFound)));
    assert!(config.styles[0].enabled);
}

#[test]
fn toggle_style_twice_restores_the_flag_and_touches_no_other_style() {
    let mut config = dummy_config(vec![style_with_id(1), style_with_id(2)]);

    config.toggle_style(2).unwrap();
    assert!(config.styles[0].enabled);
    assert!(!config.styles[1].enabled);
    config.toggle_style(2).unwrap();
    assert!(config.styles[1].enabled);
}

#[test]
#[allow(non_snake_case)]
fn new__with_path__returns_config_with_path() {
    let path = String::from("aoeuaoeu");

    let config = Config::new(path.clone());

    assert_eq!(config.chrome_path, path);
}

#[test]
fn settings_insert_replaces_the_value_of_a_key() {
    let mut settings = Settings::new();
    settings.insert(String::from("A"), String::from("1"));
    settings.insert(String::from("B"), String::from("2"));
    settings.insert(String::from("A"), String::from("3"));

    assert_eq!(settings.len(), 2);
    assert_eq!(settings.get("A"), Some(String::from("3")));
    assert_eq!(settings.get("B"), Some(String::from("2")));
    assert_eq!(settings.get("C"), None);
    assert_eq!(settings.entry(0).key, "A");
    assert_eq!(settings.entry(1).value, "2");
}
