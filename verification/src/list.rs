//! How the styles of the catalogue are listed.

use vstd::prelude::*;
use crate::add::{is_user_chrome, targets_user_chrome};
use crate::config::{Style, StyleType};
use crate::text::{append_str, decimal, push_decimal, string_of};

verus! {

/// `count` spaces.
pub open spec fn spaces(count: nat) -> Seq<char> {
    Seq::new(count, |i: int| ' ')
}

/// `text`, filled up with spaces at its end to at least `width` characters.
pub open spec fn padded(text: Seq<char>, width: nat) -> Seq<char> {
    if text.len() < width {
        text + spaces((width - text.len()) as nat)
    } else {
        text
    }
}

/// What a listing says of the state and target of `style`.
pub open spec fn state_tag(style: Style) -> Seq<char> {
    if !style.enabled {
        " [DISABLED] "@
    } else if is_user_chrome(style.path@) {
        " [CHROME]   "@
    } else {
        " [CONTENT]  "@
    }
}

/// The line that lists `style`: its id in brackets, its state or target, its name.
pub open spec fn listed(style: Style) -> Seq<char> {
    padded(seq!['('] + decimal(style.id as int) + seq![')'], 5) + state_tag(style) + style.name@
}

/// The style sheet of `style`, named without its extension.
pub open spec fn target_name(style: Style) -> Seq<char> {
    if is_user_chrome(style.path@) {
        "userChrome"@
    } else {
        "userContent"@
    }
}

/// The name of a kind of style.
pub open spec fn kind_name(kind: StyleType) -> Seq<char> {
    match kind {
        StyleType::Userstyle => "Userstyle"@,
        StyleType::Local => "Local"@,
        StyleType::Remote => "Remote"@,
    }
}

/// The domain of `style`, empty where it has none.
pub open spec fn domain_text(style: Style) -> Seq<char> {
    match style.domain {
        Some(domain) => domain@,
        None => Seq::empty(),
    }
}

/// The lines that tell everything of `style`.
pub open spec fn listed_verbose(style: Style) -> Seq<char> {
    style.name@ + "\n    ID: "@ + decimal(style.id as int) + "\n    URI: "@ + style.uri@
        + "\n    TARGET: "@ + target_name(style) + "\n    TYPE: "@ + kind_name(style.style_type)
        + "\n    DOMAIN: "@ + domain_text(style) + "\n    ENABLED: "@ + (if style.enabled {
        "true"@
    } else {
        "false"@
    }) + "\n"@
}

/// The line that lists `style`.
pub fn print(style: &Style) -> (line: String)
    ensures
        line@ == listed(*style),
{
    let mut out: Vec<char> = Vec::new();
    out.push('(');
    push_decimal(&mut out, style.id);
    out.push(')');
    let ghost id_str = out@;
    proof {
        assert(id_str =~= seq!['('] + decimal(style.id as int) + seq![')']);
    }
    while out.len() < 5
        invariant
            id_str.len() <= out@.len(),
            out@.len() <= 5 || out@ == id_str,
            out@ == id_str + spaces((out@.len() - id_str.len()) as nat),
        decreases 5 - out@.len(),
    {
        let ghost before = out@;
        out.push(' ');
        proof {
            assert(out@ =~= id_str + spaces((out@.len() - id_str.len()) as nat));
        }
    }
    proof {
        assert(out@ =~= padded(id_str, 5));
    }
    if !style.enabled {
        append_str(&mut out, " [DISABLED] ");
    } else if targets_user_chrome(style.path.as_str()) {
        append_str(&mut out, " [CHROME]   ");
    } else {
        append_str(&mut out, " [CONTENT]  ");
    }
    append_str(&mut out, style.name.as_str());
    string_of(&out)
}

/// The lines that tell everything of `style`.
pub fn print_verbose(style: &Style) -> (lines: String)
    ensures
        lines@ == listed_verbose(*style),
{
    let mut out: Vec<char> = Vec::new();
    append_str(&mut out, style.name.as_str());
    append_str(&mut out, "\n    ID: ");
    push_decimal(&mut out, style.id);
    append_str(&mut out, "\n    URI: ");
    append_str(&mut out, style.uri.as_str());
    append_str(&mut out, "\n    TARGET: ");
    if targets_user_chrome(style.path.as_str()) {
        append_str(&mut out, "userChrome");
    } else {
        append_str(&mut out, "userContent");
    }
    append_str(&mut out, "\n    TYPE: ");
    match style.style_type {
        StyleType::Userstyle => append_str(&mut out, "Userstyle"),
        StyleType::Local => append_str(&mut out, "Local"),
        StyleType::Remote => append_str(&mut out, "Remote"),
    }
    append_str(&mut out, "\n    DOMAIN: ");
    match &style.domain {
        Some(domain) => append_str(&mut out, domain.as_str()),
        None => {},
    }
    append_str(&mut out, "\n    ENABLED: ");
    if style.enabled {
        append_str(&mut out, "true");
    } else {
        append_str(&mut out, "false");
    }
    append_str(&mut out, "\n");
    proof {
        assert(out@ =~= listed_verbose(*style));
    }
    string_of(&out)
}

} // verus!
