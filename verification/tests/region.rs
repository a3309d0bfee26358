use rum::region::{install_style_in_str, region_text, remove_style_from_str, wrap_domain};

#[test]
#[allow(non_snake_case)]
fn remove_style_from_str__with_id_zero__removes_style_zero() {
    let user_content = "foobar\n\n/* RUM START 0 */\nstyle\n\
                        /* RUM END 0 */\n\n/* RUM START 1 */\n\n/* RUM END 1 */\n";

    let result = remove_style_from_str(user_content, 0);

    assert_eq!(result, "foobar\n\n/* RUM START 1 */\n\n/* RUM END 1 */\n");
}

#[test]
#[allow(non_snake_case)]
fn remove_style_from_str__with_start_before_end__returns_original() {
    let user_content = "foobar\n\n/* RUM END 0 */\nstyle\n\
                        /* RUM START 0 */\n\n/* RUM START 1 */\n\n/* RUM END 1 */\n";

    let result = remove_style_from_str(user_content, 0);

    assert_eq!(result, user_content);
}

#[test]
#[allow(non_snake_case)]
fn remove_style_from_str__with_tags_missing__returns_original() {
    let user_content = "no tags";

    let result = remove_style_from_str(user_content, 0);

    assert_eq!(result, user_content);
}

#[test]
fn remove_style_from_str_without_end_marker_returns_original() {
    let user_content = "a\n/* RUM START 4 */\nbody";

    assert_eq!(remove_style_from_str(user_content, 4), user_content);
}

#[test]
fn remove_style_from_str_without_start_marker_returns_original() {
    let user_content = "a\n/* RUM END 4 */\nbody";

    assert_eq!(remove_style_from_str(user_content, 4), user_content);
}

#[test]
fn remove_style_from_str_does_not_take_the_marker_of_a_longer_id() {
    let user_content = "x\n/* RUM START 12 */\ncss\n/* RUM END 12 */\n";

    assert_eq!(remove_style_from_str(user_content, 1), user_content);
    assert_eq!(remove_style_from_str(user_content, 12), "x");
}

#[test]
fn remove_style_from_str_uses_the_first_occurrence_of_each_marker() {
    let user_content = "a\n/* RUM START 2 */\nb\n/* RUM END 2 */\nc\n/* RUM START 2 */\nd\n/* RUM END 2 */\ne";

    let result = remove_style_from_str(user_content, 2);

    assert_eq!(result, "ac\n/* RUM START 2 */\nd\n/* RUM END 2 */\ne");
}

#[test]
fn remove_style_from_str_keeps_text_that_is_not_ascii() {
    let user_content = "/* grün */\n/* RUM START 0 */\n.a::after { content: \"→\"; }\n/* RUM END 0 */\n/* fin ✓ */";

    assert_eq!(remove_style_from_str(user_content, 0), "/* grün *//* fin ✓ */");
}

#[test]
fn region_text_holds_the_css_between_the_markers_of_the_id() {
    assert_eq!(
        region_text(3, "body{color:red}"),
        "\n/* RUM START 3 */\nbody{color:red}\n/* RUM END 3 */\n"
    );
    assert_eq!(region_text(0, ""), "\n/* RUM START 0 */\n\n/* RUM END 0 */\n");
    assert_eq!(
        region_text(1207, "x"),
        "\n/* RUM START 1207 */\nx\n/* RUM END 1207 */\n"
    );
}

#[test]
fn region_text_writes_the_sign_of_a_negative_id() {
    assert_eq!(region_text(-15, "x"), "\n/* RUM START -15 */\nx\n/* RUM END -15 */\n");
    assert_eq!(
        region_text(i32::MIN, ""),
        "\n/* RUM START -2147483648 */\n\n/* RUM END -2147483648 */\n"
    );
    assert_eq!(
        region_text(i32::MAX, ""),
        "\n/* RUM START 2147483647 */\n\n/* RUM END 2147483647 */\n"
    );
}

#[test]
fn install_style_in_str_appends_the_region() {
    let result = install_style_in_str("a{}\n", 10, "b{}");

    assert_eq!(result, "a{}\n\n/* RUM START 10 */\nb{}\n/* RUM END 10 */\n");
}

#[test]
fn install_style_in_str_appends_after_regions_of_larger_ids() {
    let first = install_style_in_str("", 5, "five");
    let second = install_style_in_str(&first, 2, "two");

    assert_eq!(
        second,
        "\n/* RUM START 5 */\nfive\n/* RUM END 5 */\n\n/* RUM START 2 */\ntwo\n/* RUM END 2 */\n"
    );
}

#[test]
fn install_then_remove_gives_back_the_content() {
    let content = "html { margin: 0 }\n\n/* RUM START 1 */\nold\n/* RUM END 1 */\n";

    let installed = install_style_in_str(content, 0, "body{color:red}");

    assert_ne!(installed, content);
    assert_eq!(remove_style_from_str(&installed, 0), content);
    assert_eq!(remove_style_from_str("", 7), "");
    assert_eq!(remove_style_from_str(&install_style_in_str("", 7, ""), 7), "");
}

#[test]
fn install_then_remove_fails_where_content_completes_a_start_marker() {
    let content = "x\n/* RUM START 1 */";

    let installed = install_style_in_str(content, 1, "css");

    assert_eq!(remove_style_from_str(&installed, 1), "x");
}

#[test]
fn wrap_domain_puts_the_css_into_a_document_block() {
    assert_eq!(
        wrap_domain("a{}", "domain(\"kernel.org\")"),
        "@-moz-document domain(\"kernel.org\") {\na{}\n}"
    );
}
