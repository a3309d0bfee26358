//! Adding a style: where it comes from, where it goes, its record and the text
//! that goes into the style sheet.

use vstd::prelude::*;
use crate::config::{has_id, ids_unique, Config, Style, StyleType};
use crate::input::{after_line, after_text, first_line, text_read, Input};
use crate::region::{domain_wrapped, region_of, region_text, wrap_domain};
use crate::settings::Settings;
use crate::text::{
    append_str, chars_of, ends_with, find, occurs, occurs_at, same_chars, string_of, trim,
    trimmed,
};

verus! {

/// The name of the style sheet for the browser's own interface.
pub open spec fn chrome_sheet() -> Seq<char> {
    "userChrome.css"@
}

/// The name of the style sheet for web content.
pub open spec fn content_sheet() -> Seq<char> {
    "userContent.css"@
}

/// The domain that a style for the browser's own interface is restricted to.
pub open spec fn chrome_domain() -> Seq<char> {
    "url(chrome://browser/content/browser.xul)"@
}

/// The file `name` in the directory `dir`.
pub open spec fn joined(dir: Seq<char>, name: Seq<char>) -> Seq<char> {
    if dir.len() == 0 || dir.last() == '/' {
        dir + name
    } else {
        dir + seq!['/'] + name
    }
}

/// Whether `path` is a style sheet for the browser's own interface.
pub open spec fn is_user_chrome(path: Seq<char>) -> bool {
    occurs_at(path, chrome_sheet(), path.len() - chrome_sheet().len())
}

/// Where the CSS of `uri` comes from: a local file where `uri` begins with a
/// slash, else a URL where it holds a dot, else the remote catalogue.
pub open spec fn kind_of(uri: Seq<char>) -> StyleType {
    if uri.len() > 0 && uri[0] == '/' {
        StyleType::Local
    } else if occurs(uri, seq!['.']) {
        StyleType::Remote
    } else {
        StyleType::Userstyle
    }
}

/// Whether `line` asks for a domain: it reads `y`, in either case, once trimmed.
pub open spec fn wants_domain(line: Option<Seq<char>>) -> bool {
    match line {
        Some(text) => trimmed(text) == seq!['y'] || trimmed(text) == seq!['Y'],
        None => false,
    }
}

/// The CSS that is written for `style`: its CSS, wrapped where it has a domain.
pub open spec fn written_css(style: Style) -> Seq<char> {
    match style.domain {
        Some(domain) => domain_wrapped(style.css@, domain@),
        None => style.css@,
    }
}

/// Where the CSS of `uri` comes from.
pub fn style_kind(uri: &str) -> (kind: StyleType)
    ensures
        kind == kind_of(uri@),
{
    let chars = chars_of(uri);
    if chars.len() > 0 && chars[0] == '/' {
        return StyleType::Local;
    }
    let mut dot: Vec<char> = Vec::new();
    dot.push('.');
    proof {
        assert(dot@ =~= seq!['.']);
    }
    if find(&chars, &dot).is_some() {
        StyleType::Remote
    } else {
        StyleType::Userstyle
    }
}

/// The style sheet under `chrome_path` that a style goes into.
pub fn target_path(chrome_path: &str, user_chrome: bool) -> (path: String)
    ensures
        path@ == joined(
            chrome_path@,
            if user_chrome {
                chrome_sheet()
            } else {
                content_sheet()
            },
        ),
{
    let mut out = chars_of(chrome_path);
    if out.len() > 0 && out[out.len() - 1] != '/' {
        out.push('/');
    }
    if user_chrome {
        append_str(&mut out, "userChrome.css");
    } else {
        append_str(&mut out, "userContent.css");
    }
    string_of(&out)
}

/// Whether `path` is a style sheet for the browser's own interface.
pub fn targets_user_chrome(path: &str) -> (yes: bool)
    ensures
        yes == is_user_chrome(path@),
{
    let chars = chars_of(path);
    let name = chars_of("userChrome.css");
    ends_with(&chars, &name)
}

/// Reads a line of text from the user: the first readable line, trimmed.
pub fn read_text(input: &mut Input) -> (text: String)
    ensures
        text@ == text_read(old(input).pending()),
        final(input).pending() == after_text(old(input).pending()),
{
    input.read_trimmed()
}

/// Reads the name of a new style.
pub fn read_name(input: &mut Input) -> (name: String)
    ensures
        name@ == text_read(old(input).pending()),
        final(input).pending() == after_text(old(input).pending()),
{
    read_text(input)
}

/// Asks whether the style is restricted to a domain, and reads the domain where
/// the answer is yes.
pub fn read_domain(input: &mut Input) -> (domain: Option<String>)
    ensures
        domain is Some <==> wants_domain(first_line(old(input).pending())),
        domain matches Some(text) ==> text@ == text_read(after_line(old(input).pending())),
        final(input).pending() == if wants_domain(first_line(old(input).pending())) {
            after_text(after_line(old(input).pending()))
        } else {
            after_line(old(input).pending())
        },
{
    let answer = match input.read_line() {
        Some(line) => line,
        None => {
            return None;
        },
    };
    let chars = chars_of(answer.as_str());
    let kept = trim(&chars);
    let mut lower: Vec<char> = Vec::new();
    lower.push('y');
    let mut upper: Vec<char> = Vec::new();
    upper.push('Y');
    proof {
        assert(lower@ =~= seq!['y']);
        assert(upper@ =~= seq!['Y']);
    }
    if !same_chars(&kept, &lower) && !same_chars(&kept, &upper) {
        return None;
    }
    Some(read_text(input))
}

/// The record of a style whose CSS was fetched as it is. An existing record only
/// gets the new CSS. A new one gets its name from the user, and its domain too,
/// unless it targets the browser's own interface, whose domain is fixed.
pub fn generic_style(
    uri: &str,
    id: i32,
    css: String,
    style: Option<Style>,
    path: String,
    input: &mut Input,
) -> (record: Style)
    ensures
        record.css == css,
        match style {
            Some(current) => record == (Style { css, ..current }) && final(input).pending() == old(
                input,
            ).pending(),
            None => {
                let after_name = after_text(old(input).pending());
                &&& record.id == id
                &&& record.uri@ == uri@
                &&& record.path == path
                &&& record.enabled
                &&& record.style_type == if kind_of(uri@) == StyleType::Local {
                    StyleType::Local
                } else {
                    StyleType::Remote
                }
                &&& record.settings@ == Map::<Seq<char>, Seq<char>>::empty()
                &&& record.settings.wf()
                &&& record.name@ == text_read(old(input).pending())
                &&& if is_user_chrome(path@) {
                    &&& record.domain matches Some(domain)
                    &&& domain@ == chrome_domain()
                    &&& final(input).pending() == after_name
                } else if wants_domain(first_line(after_name)) {
                    &&& record.domain matches Some(domain)
                    &&& domain@ == text_read(after_line(after_name))
                    &&& final(input).pending() == after_text(after_line(after_name))
                } else {
                    &&& record.domain is None
                    &&& final(input).pending() == after_line(after_name)
                }
            },
        },
{
    if let Some(current) = style {
        return Style {
            css,
            id: current.id,
            uri: current.uri,
            name: current.name,
            path: current.path,
            enabled: current.enabled,
            style_type: current.style_type,
            domain: current.domain,
            settings: current.settings,
        };
    }
    let name = read_name(input);
    let domain = if targets_user_chrome(path.as_str()) {
        Some("url(chrome://browser/content/browser.xul)".to_owned())
    } else {
        read_domain(input)
    };
    let style_type = match style_kind(uri) {
        StyleType::Local => StyleType::Local,
        _ => StyleType::Remote,
    };
    Style {
        id,
        name,
        domain,
        path,
        enabled: true,
        uri: uri.to_owned(),
        style_type,
        settings: Settings::new(),
        css,
    }
}

/// Adds `style` to the catalogue, its CSS wrapped in its domain where it has
/// one. Returns the region to append to the style's target, unless only the
/// catalogue is to change.
pub fn add_style(config: &mut Config, style: Style, config_only: bool) -> (region: Option<String>)
    ensures
        final(config).chrome_path == old(config).chrome_path,
        final(config).styles@.len() == old(config).styles@.len() + 1,
        final(config).styles@.drop_last() == old(config).styles@,
        final(config).styles@.last() == (Style { css: final(config).styles@.last().css, ..style }),
        final(config).styles@.last().css@ == written_css(style),
        region is None <==> config_only,
        region matches Some(text) ==> text@ == region_of(style.id as int, written_css(style)),
        ids_unique(old(config).styles@) && !has_id(old(config).styles@, style.id as int)
            ==> ids_unique(final(config).styles@),
{
    let css = match &style.domain {
        Some(domain) => wrap_domain(style.css.as_str(), domain.as_str()),
        None => style.css.clone(),
    };
    let region = if config_only {
        None
    } else {
        Some(region_text(style.id, css.as_str()))
    };
    let record = Style {
        css,
        id: style.id,
        uri: style.uri,
        name: style.name,
        path: style.path,
        enabled: style.enabled,
        style_type: style.style_type,
        domain: style.domain,
        settings: style.settings,
    };
    config.styles.push(record);
    proof {
        assert(config.styles@.drop_last() =~= old(config).styles@);
        if ids_unique(old(config).styles@) && !has_id(old(config).styles@, style.id as int) {
            assert forall|i: int, j: int| 0 <= i < j < config.styles@.len() implies config.styles@[i].id
                != config.styles@[j].id by {
                if j == config.styles@.len() - 1 {
                    assert(old(config).styles@[i].id != style.id);
                }
            }
        }
    }
    region
}

} // verus!
