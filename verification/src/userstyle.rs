//! Resolution of a catalogue style's settings into concrete values.
//!
//! A style of the remote catalogue comes with a schema: an ordered list of
//! settings, each with a type, an install key and a list of options. Resolving
//! gives every install key a value: the one chosen earlier, where there is one,
//! and otherwise the answer that the input source gives to a prompt.

use vstd::prelude::*;
use crate::config::{Style, StyleType};
use crate::errors::Error;
use crate::input::{after_line, after_text, first_line, text_read, Input};
use crate::settings::Settings;
use crate::text::{
    append_range, append_str, chars_of, digits, occurs_at, parse_usize, parsed_usize,
    push_digits, same_text, starts_with, string_of, trim, trimmed,
};

verus! {

/// One option of a setting.
#[derive(Clone, Debug)]
pub struct StyleSettingOption {
    /// The name shown to the user.
    pub label: String,
    /// The text that the option puts into the CSS.
    pub value: String,
    /// Whether this is the option taken when the user picks none.
    pub default: bool,
}

/// One setting of a style.
#[derive(Clone, Debug)]
pub struct StyleSetting {
    /// The key under which the resolved value is stored.
    pub install_key: String,
    /// The name shown to the user.
    pub label: String,
    /// One of `color`, `image`, `text` and `dropdown`.
    pub setting_type: String,
    /// The options to choose from.
    pub style_setting_options: Vec<StyleSettingOption>,
}

/// What the remote catalogue tells of a style: its name and its settings.
#[derive(Clone, Debug)]
pub struct StyleSchema {
    pub name: String,
    pub style_settings: Vec<StyleSetting>,
}

/// An image to store in the temporary directory, so that the user can look at it.
#[derive(Clone, Debug)]
pub struct TmpImage {
    pub path: String,
    pub data: Vec<u8>,
}

impl Default for StyleSettingOption {
    fn default() -> (option: StyleSettingOption)
        ensures
            option.label@.len() == 0,
            option.value@.len() == 0,
            !option.default,
    {
        StyleSettingOption { label: String::new(), value: String::new(), default: false }
    }
}

impl Default for StyleSetting {
    fn default() -> (setting: StyleSetting)
        ensures
            setting.install_key@.len() == 0,
            setting.label@.len() == 0,
            setting.setting_type@.len() == 0,
            setting.style_setting_options@.len() == 0,
    {
        StyleSetting {
            install_key: String::new(),
            label: String::new(),
            setting_type: String::new(),
            style_setting_options: Vec::new(),
        }
    }
}

impl Default for StyleSchema {
    fn default() -> (schema: StyleSchema)
        ensures
            schema.name@.len() == 0,
            schema.style_settings@.len() == 0,
    {
        StyleSchema { name: String::new(), style_settings: Vec::new() }
    }
}

/// What `base64::decode` makes of `input`: the bytes that it encodes in the
/// standard alphabet, or nothing where it is not such an encoding.
pub uninterp spec fn base64_decoded(input: Seq<char>) -> Option<Seq<u8>>;

/// Calls `base64::decode`, which decodes standard base64 text into bytes and
/// fails on text that is no such encoding. The result is taken as a function of
/// the text alone. The call panics only where the length of the text, plus a
/// few bytes, overflows `usize`, which no string in memory reaches.
#[verifier::external_body]
fn decode_base64(input: &str) -> (bytes: Option<Vec<u8>>)
    ensures
        match bytes {
            Some(data) => base64_decoded(input@) == Some(data@),
            None => base64_decoded(input@) is None,
        },
{
    match base64::decode(input) {
        Ok(data) => Some(data),
        Err(_) => None,
    }
}

/// The directory in which images are stored for viewing.
pub open spec fn tmp_dir() -> Seq<char> {
    "/tmp/rum/"@
}

/// What an inline PNG image begins with.
pub open spec fn png_prefix() -> Seq<char> {
    "data:image/png;base64,"@
}

/// Whether `value` is an inline PNG image.
pub open spec fn is_inline_png(value: Seq<char>) -> bool {
    occurs_at(value, png_prefix(), 0)
}

/// Where the image of an option labelled `label` is stored.
pub open spec fn tmp_path(label: Seq<char>) -> Seq<char> {
    tmp_dir() + label
}

/// The bytes to store for `option` of a setting of type `setting_type`: those of
/// its inline PNG image, where the setting is an image setting and the option
/// holds one that decodes.
pub open spec fn image_bytes(setting_type: Seq<char>, option: StyleSettingOption) -> Option<
    Seq<u8>,
> {
    if setting_type == "image"@ && is_inline_png(option.value@) {
        base64_decoded(option.value@.skip(png_prefix().len() as int))
    } else {
        None
    }
}

/// How `option` of a setting of type `setting_type` is shown. Text and colour
/// options show their value. An image option shows its label and the place of its
/// stored image, where it holds an inline PNG image that was stored, and its
/// value otherwise. Any other option shows its label.
pub open spec fn option_label(
    setting_type: Seq<char>,
    option: StyleSettingOption,
    stored: bool,
) -> Seq<char> {
    if setting_type == "text"@ || setting_type == "color"@ {
        option.value@
    } else if setting_type == "image"@ {
        if is_inline_png(option.value@) && stored {
            option.label@ + " ("@ + tmp_path(option.label@) + ")"@
        } else {
            option.value@
        }
    } else {
        option.label@
    }
}

/// Whether the image of option `at` was stored, going by `stored`; an option
/// without an entry there counts as not stored.
pub open spec fn stored_at(stored: Seq<bool>, at: int) -> bool {
    0 <= at < stored.len() && stored[at]
}

/// The image to store for each option of `setting`, in the order of the options.
pub fn tmp_images(setting: &StyleSetting) -> (images: Vec<Option<TmpImage>>)
    ensures
        images@.len() == setting.style_setting_options@.len(),
        forall|i: int|
            0 <= i < images@.len() ==> match #[trigger] images@[i] {
                Some(image) => image_bytes(
                    setting.setting_type@,
                    setting.style_setting_options@[i],
                ) == Some(image.data@) && image.path@ == tmp_path(
                    setting.style_setting_options@[i].label@,
                ),
                None => image_bytes(setting.setting_type@, setting.style_setting_options@[i])
                    is None,
            },
{
    let is_image = same_text(setting.setting_type.as_str(), "image");
    let prefix = chars_of("data:image/png;base64,");
    let mut images: Vec<Option<TmpImage>> = Vec::new();
    let mut i: usize = 0;
    while i < setting.style_setting_options.len()
        invariant
            i <= setting.style_setting_options@.len(),
            images@.len() == i,
            prefix@ == png_prefix(),
            is_image == (setting.setting_type@ == "image"@),
            forall|j: int|
                0 <= j < i ==> match #[trigger] images@[j] {
                    Some(image) => image_bytes(
                        setting.setting_type@,
                        setting.style_setting_options@[j],
                    ) == Some(image.data@) && image.path@ == tmp_path(
                        setting.style_setting_options@[j].label@,
                    ),
                    None => image_bytes(setting.setting_type@, setting.style_setting_options@[j])
                        is None,
                },
        decreases setting.style_setting_options@.len() - i,
    {
        let option = &setting.style_setting_options[i];
        let value = chars_of(option.value.as_str());
        let mut image: Option<TmpImage> = None;
        if is_image && starts_with(&value, &prefix) {
            let mut payload: Vec<char> = Vec::new();
            append_range(&mut payload, &value, prefix.len(), value.len());
            proof {
                assert(payload@ =~= option.value@.skip(png_prefix().len() as int));
            }
            let encoded = string_of(&payload);
            if let Some(data) = decode_base64(encoded.as_str()) {
                let mut path: Vec<char> = Vec::new();
                append_str(&mut path, "/tmp/rum/");
                append_str(&mut path, option.label.as_str());
                proof {
                    assert(path@ =~= tmp_path(option.label@));
                }
                image = Some(TmpImage { path: string_of(&path), data });
            }
        }
        images.push(image);
        i += 1;
    }
    images
}

/// How `option` of a setting of type `setting_type` is shown; `stored` says
/// whether its image was stored.
pub fn style_option(setting_type: &str, option: &StyleSettingOption, stored: bool) -> (label:
    String)
    ensures
        label@ == option_label(setting_type@, *option, stored),
{
    if same_text(setting_type, "text") || same_text(setting_type, "color") {
        option.value.clone()
    } else if same_text(setting_type, "image") {
        let value = chars_of(option.value.as_str());
        let prefix = chars_of("data:image/png;base64,");
        if starts_with(&value, &prefix) && stored {
            let mut out: Vec<char> = Vec::new();
            append_str(&mut out, option.label.as_str());
            append_str(&mut out, " (");
            append_str(&mut out, "/tmp/rum/");
            append_str(&mut out, option.label.as_str());
            append_str(&mut out, ")");
            proof {
                assert(out@ =~= option.label@ + " ("@ + tmp_path(option.label@) + ")"@);
            }
            string_of(&out)
        } else {
            option.value.clone()
        }
    } else {
        option.label.clone()
    }
}

/// How the options of `setting` are shown, in order. `stored[i]` says whether
/// the image of option `i` was stored.
pub fn style_options(setting: &StyleSetting, stored: &Vec<bool>) -> (labels: Vec<String>)
    ensures
        labels@.len() == setting.style_setting_options@.len(),
        forall|i: int|
            0 <= i < labels@.len() ==> (#[trigger] labels@[i])@ == option_label(
                setting.setting_type@,
                setting.style_setting_options@[i],
                stored_at(stored@, i),
            ),
{
    let mut labels: Vec<String> = Vec::new();
    let mut i: usize = 0;
    while i < setting.style_setting_options.len()
        invariant
            i <= setting.style_setting_options@.len(),
            labels@.len() == i,
            forall|j: int|
                0 <= j < i ==> (#[trigger] labels@[j])@ == option_label(
                    setting.setting_type@,
                    setting.style_setting_options@[j],
                    stored_at(stored@, j),
                ),
        decreases setting.style_setting_options@.len() - i,
    {
        let was_stored = i < stored.len() && stored[i];
        labels.push(
            style_option(
                setting.setting_type.as_str(),
                &setting.style_setting_options[i],
                was_stored,
            ),
        );
        i += 1;
    }
    labels
}

/// Whether `options[at]` is the first option flagged as the default.
pub open spec fn is_first_default(options: Seq<StyleSettingOption>, at: int) -> bool {
    &&& 0 <= at < options.len()
    &&& options[at].default
    &&& forall|earlier: int| 0 <= earlier < at ==> !options[earlier].default
}

/// The position of the first option flagged as the default; 0 where none is.
pub open spec fn default_index(options: Seq<StyleSettingOption>) -> int {
    if exists|at: int| is_first_default(options, at) {
        choose|at: int| is_first_default(options, at)
    } else {
        0
    }
}

/// The first option flagged as the default is the one that `default_index` names.
pub proof fn lemma_default_index_is(options: Seq<StyleSettingOption>, at: int)
    requires
        is_first_default(options, at),
    ensures
        default_index(options) == at,
{
    let chosen = choose|c: int| is_first_default(options, c);
    if chosen < at {
        assert(!options[chosen].default);
    }
    if at < chosen {
        assert(!options[at].default);
    }
}

/// The position of the default option of `setting`.
pub fn style_default(setting: &StyleSetting) -> (index: usize)
    ensures
        index == default_index(setting.style_setting_options@),
        index == 0 || index < setting.style_setting_options@.len(),
{
    let mut i: usize = 0;
    while i < setting.style_setting_options.len()
        invariant
            i <= setting.style_setting_options@.len(),
            forall|earlier: int| 0 <= earlier < i ==> !setting.style_setting_options@[earlier].default,
        decreases setting.style_setting_options@.len() - i,
    {
        if setting.style_setting_options[i].default {
            proof {
                lemma_default_index_is(setting.style_setting_options@, i as int);
            }
            return i;
        }
        i += 1;
    }
    proof {
        if exists|at: int| is_first_default(setting.style_setting_options@, at) {
            let at = choose|at: int| is_first_default(setting.style_setting_options@, at);
            assert(setting.style_setting_options@[at].default);
        }
    }
    0
}

/// What one line answers to a prompt for a choice among the positions 0 to
/// `max`: the default where the trimmed line is empty, the number that it writes
/// where this is at most `max`, and nothing otherwise, nor where the line is
/// unreadable.
pub open spec fn answer(line: Option<Seq<char>>, max: int, default: int) -> Option<int> {
    match line {
        Some(text) => if trimmed(text).len() == 0 {
            Some(default)
        } else {
            match parsed_usize(trimmed(text)) {
                Some(index) => if index <= max {
                    Some(index as int)
                } else {
                    None
                },
                None => None,
            }
        },
        None => None,
    }
}

/// The choice that `pending` makes: the answer of its first line that gives one.
/// The end of the input answers with the default.
pub open spec fn choice_read(pending: Seq<Option<Seq<char>>>, max: int, default: int) -> int
    decreases pending.len(),
{
    match answer(first_line(pending), max, default) {
        Some(choice) => choice,
        None => if pending.len() > 0 {
            choice_read(pending.skip(1), max, default)
        } else {
            default
        },
    }
}

/// What is left of `pending` after `choice_read`.
pub open spec fn after_choice(pending: Seq<Option<Seq<char>>>, max: int, default: int) -> Seq<
    Option<Seq<char>>,
>
    decreases pending.len(),
{
    match answer(first_line(pending), max, default) {
        Some(_) => after_line(pending),
        None => if pending.len() > 0 {
            after_choice(pending.skip(1), max, default)
        } else {
            pending
        },
    }
}

/// A choice is the default or a position up to `max`.
pub proof fn lemma_choice_in_range(pending: Seq<Option<Seq<char>>>, max: int, default: int)
    ensures
        choice_read(pending, max, default) == default || 0 <= choice_read(pending, max, default)
            <= max,
    decreases pending.len(),
{
    if answer(first_line(pending), max, default) is None && pending.len() > 0 {
        lemma_choice_in_range(pending.skip(1), max, default);
    }
}

/// What the readable line `line` answers to a prompt for a choice among the
/// positions 0 to `max`.
pub fn choice_from_line(line: &str, max: usize, default: usize) -> (choice: Option<usize>)
    ensures
        match choice {
            Some(index) => answer(Some(line@), max as int, default as int) == Some(index as int),
            None => answer(Some(line@), max as int, default as int) is None,
        },
{
    let chars = chars_of(line);
    let kept = trim(&chars);
    if kept.len() == 0 {
        Some(default)
    } else {
        match parse_usize(&kept) {
            Some(index) => if index <= max {
                Some(index)
            } else {
                None
            },
            None => None,
        }
    }
}

/// The highest position that may be chosen among `allowed_max` options: one past
/// the last option where a custom value is allowed, the last option where not.
pub open spec fn highest_choice(allow_custom: bool, allowed_max: int) -> int {
    if allow_custom {
        allowed_max
    } else {
        allowed_max - 1
    }
}

/// Reads lines until one answers the prompt, and returns the choice.
pub fn read_user_choice(
    allow_custom: bool,
    allowed_max: usize,
    default: usize,
    input: &mut Input,
) -> (choice: usize)
    requires
        allow_custom || allowed_max > 0,
    ensures
        choice == choice_read(
            old(input).pending(),
            highest_choice(allow_custom, allowed_max as int),
            default as int,
        ),
        final(input).pending() == after_choice(
            old(input).pending(),
            highest_choice(allow_custom, allowed_max as int),
            default as int,
        ),
        choice == default || choice <= highest_choice(allow_custom, allowed_max as int),
{
    let max: usize = if allow_custom {
        allowed_max
    } else {
        allowed_max - 1
    };
    proof {
        lemma_choice_in_range(old(input).pending(), max as int, default as int);
    }
    loop
        invariant
            max == highest_choice(allow_custom, allowed_max as int),
            choice_read(input.pending(), max as int, default as int) == choice_read(
                old(input).pending(),
                max as int,
                default as int,
            ),
            after_choice(input.pending(), max as int, default as int) == after_choice(
                old(input).pending(),
                max as int,
                default as int,
            ),
        decreases input.pending().len(),
    {
        let ghost before = input.pending();
        let line = input.read_line();
        if let Some(text) = line {
            if let Some(index) = choice_from_line(text.as_str(), max, default) {
                return index;
            }
        }
        proof {
            assert(answer(first_line(before), max as int, default as int) is None);
            assert(before.len() > 0);
        }
    }
}

/// Reads the custom value of a setting: the first readable line, trimmed.
pub fn read_custom_setting(input: &mut Input) -> (value: String)
    ensures
        value@ == text_read(old(input).pending()),
        final(input).pending() == after_text(old(input).pending()),
{
    input.read_trimmed()
}

/// Whether `setting` lets the user enter a value of their own: every setting
/// but a dropdown does.
pub open spec fn allows_custom(setting: StyleSetting) -> bool {
    setting.setting_type@ != "dropdown"@
}

/// The highest position that may be chosen for `setting`.
pub open spec fn highest_of(setting: StyleSetting) -> int {
    highest_choice(allows_custom(setting), setting.style_setting_options@.len() as int)
}

/// The choice that `pending` makes for `setting`.
pub open spec fn choice_for(setting: StyleSetting, pending: Seq<Option<Seq<char>>>) -> int {
    choice_read(pending, highest_of(setting), default_index(setting.style_setting_options@))
}

/// The value that `pending` gives `setting`: the value of the chosen option, or,
/// where the position after the last option is chosen, the custom text that
/// follows.
pub open spec fn value_read(setting: StyleSetting, pending: Seq<Option<Seq<char>>>) -> Seq<char> {
    let choice = choice_for(setting, pending);
    let rest = after_choice(
        pending,
        highest_of(setting),
        default_index(setting.style_setting_options@),
    );
    if choice == setting.style_setting_options@.len() {
        text_read(rest)
    } else {
        setting.style_setting_options@[choice].value@
    }
}

/// What is left of `pending` after `value_read`.
pub open spec fn after_value(setting: StyleSetting, pending: Seq<Option<Seq<char>>>) -> Seq<
    Option<Seq<char>>,
> {
    let choice = choice_for(setting, pending);
    let rest = after_choice(
        pending,
        highest_of(setting),
        default_index(setting.style_setting_options@),
    );
    if choice == setting.style_setting_options@.len() {
        after_text(rest)
    } else {
        rest
    }
}

/// Whether every setting that is asked can be answered: a dropdown whose key
/// has no value in `current` has at least one option.
pub open spec fn answerable(settings: Seq<StyleSetting>, current: Map<Seq<char>, Seq<char>>) -> bool {
    forall|i: int|
        0 <= i < settings.len() ==> allows_custom(#[trigger] settings[i])
            || settings[i].style_setting_options@.len() > 0 || current.contains_key(
            settings[i].install_key@,
        )
}

/// The values that resolving `settings` in order gives, with what is left of
/// `pending`. A key with a value in `current` keeps it and reads nothing; any
/// other key gets the value that is read for it. Where two settings share a key,
/// the later one decides.
pub open spec fn resolved(
    settings: Seq<StyleSetting>,
    current: Map<Seq<char>, Seq<char>>,
    pending: Seq<Option<Seq<char>>>,
) -> (Map<Seq<char>, Seq<char>>, Seq<Option<Seq<char>>>)
    decreases settings.len(),
{
    if settings.len() == 0 {
        (Map::empty(), pending)
    } else {
        let before = resolved(settings.drop_last(), current, pending);
        let setting = settings.last();
        if current.contains_key(setting.install_key@) {
            (before.0.insert(setting.install_key@, current[setting.install_key@]), before.1)
        } else {
            (
                before.0.insert(setting.install_key@, value_read(setting, before.1)),
                after_value(setting, before.1),
            )
        }
    }
}

/// Whether `setting` lets the user enter a value of their own.
pub fn allow_custom(setting: &StyleSetting) -> (allowed: bool)
    ensures
        allowed == allows_custom(*setting),
{
    !same_text(setting.setting_type.as_str(), "dropdown")
}

/// The text that shows `options`, one numbered line each, then a line for the
/// custom value where one is offered, then the prompt with the default.
pub open spec fn options_shown(options: Seq<String>, default: nat, show_custom: bool) -> Seq<char> {
    option_lines(options) + (if show_custom {
        "    ("@ + digits(options.len()) + ") Custom\n"@
    } else {
        Seq::empty()
    }) + "[Default "@ + digits(default) + "] > "@
}

/// The numbered lines of `options`.
pub open spec fn option_lines(options: Seq<String>) -> Seq<char>
    decreases options.len(),
{
    if options.len() == 0 {
        Seq::empty()
    } else {
        option_lines(options.drop_last()) + "    ("@ + digits((options.len() - 1) as nat)
            + ") "@ + options.last()@ + "\n"@
    }
}

/// The text that shows `options` to the user and names the default.
pub fn display_options(options: &Vec<String>, default: usize, show_custom: bool) -> (shown: String)
    ensures
        shown@ == options_shown(options@, default as nat, show_custom),
{
    let mut out: Vec<char> = Vec::new();
    let mut i: usize = 0;
    proof {
        assert(options@.take(0) =~= Seq::<String>::empty());
    }
    while i < options.len()
        invariant
            i <= options@.len(),
            out@ == option_lines(options@.take(i as int)),
        decreases options@.len() - i,
    {
        let ghost before = out@;
        append_str(&mut out, "    (");
        push_digits(&mut out, i as u64);
        append_str(&mut out, ") ");
        append_str(&mut out, options[i].as_str());
        append_str(&mut out, "\n");
        proof {
            assert(options@.take(i + 1).drop_last() =~= options@.take(i as int));
            assert(options@.take(i + 1).last() == options@[i as int]);
            assert(out@ =~= before + "    ("@ + digits(i as nat) + ") "@ + options@[i as int]@
                + "\n"@);
        }
        i += 1;
    }
    proof {
        assert(options@.take(i as int) =~= options@);
    }
    let ghost lines = out@;
    if show_custom {
        append_str(&mut out, "    (");
        push_digits(&mut out, options.len() as u64);
        append_str(&mut out, ") Custom\n");
    }
    append_str(&mut out, "[Default ");
    push_digits(&mut out, default as u64);
    append_str(&mut out, "] > ");
    proof {
        assert(out@ =~= options_shown(options@, default as nat, show_custom));
    }
    string_of(&out)
}

/// Whether resolving asks for `setting`: it does where the setting's key has no
/// value in `current`.
pub fn is_asked(setting: &StyleSetting, current: &Settings) -> (asked: bool)
    requires
        current.wf(),
    ensures
        asked == !current@.contains_key(setting.install_key@),
{
    current.get(setting.install_key.as_str()).is_none()
}

/// What the readable line `line` answers to the prompt for `setting`.
pub fn setting_choice(setting: &StyleSetting, line: &str) -> (choice: Option<usize>)
    requires
        allows_custom(*setting) || setting.style_setting_options@.len() > 0,
    ensures
        match choice {
            Some(index) => answer(
                Some(line@),
                highest_of(*setting),
                default_index(setting.style_setting_options@),
            ) == Some(index as int),
            None => answer(
                Some(line@),
                highest_of(*setting),
                default_index(setting.style_setting_options@),
            ) is None,
        },
{
    let count = setting.style_setting_options.len();
    let max: usize = if allow_custom(setting) {
        count
    } else {
        count - 1
    };
    choice_from_line(line, max, style_default(setting))
}

/// Whether the choice `choice` for `setting` asks for a custom value: the
/// position after the last option does.
pub fn is_custom(setting: &StyleSetting, choice: usize) -> (custom: bool)
    ensures
        custom == (choice == setting.style_setting_options@.len()),
{
    choice == setting.style_setting_options.len()
}

/// Resolves one setting from the input.
pub fn read_setting(setting: &StyleSetting, input: &mut Input) -> (value: String)
    requires
        allows_custom(*setting) || setting.style_setting_options@.len() > 0,
    ensures
        value@ == value_read(*setting, old(input).pending()),
        final(input).pending() == after_value(*setting, old(input).pending()),
{
    let allow_custom = !same_text(setting.setting_type.as_str(), "dropdown");
    let count = setting.style_setting_options.len();
    let default = style_default(setting);
    let choice = read_user_choice(allow_custom, count, default, input);
    if choice == count {
        read_custom_setting(input)
    } else {
        setting.style_setting_options[choice].value.clone()
    }
}

/// Resolves the settings of `style`. A key with a value in `current_settings`
/// keeps it; the others are asked of `input`.
pub fn settings(style: &StyleSchema, current_settings: &Settings, input: &mut Input) -> (map:
    Settings)
    requires
        current_settings.wf(),
        answerable(style.style_settings@, current_settings@),
    ensures
        map.wf(),
        map@ == resolved(style.style_settings@, current_settings@, old(input).pending()).0,
        final(input).pending() == resolved(
            style.style_settings@,
            current_settings@,
            old(input).pending(),
        ).1,
{
    let mut map = Settings::new();
    let mut i: usize = 0;
    proof {
        assert(style.style_settings@.take(0) =~= Seq::<StyleSetting>::empty());
    }
    while i < style.style_settings.len()
        invariant
            i <= style.style_settings@.len(),
            current_settings.wf(),
            answerable(style.style_settings@, current_settings@),
            map.wf(),
            (map@, input.pending()) == resolved(
                style.style_settings@.take(i as int),
                current_settings@,
                old(input).pending(),
            ),
        decreases style.style_settings@.len() - i,
    {
        let setting = &style.style_settings[i];
        proof {
            assert(style.style_settings@.take(i + 1).drop_last() =~= style.style_settings@.take(
                i as int,
            ));
            assert(style.style_settings@.take(i + 1).last() == *setting);
        }
        let value = match current_settings.get(setting.install_key.as_str()) {
            Some(kept) => kept,
            None => read_setting(setting, input),
        };
        map.insert(setting.install_key.clone(), value);
        i += 1;
    }
    proof {
        assert(style.style_settings@.take(i as int) =~= style.style_settings@);
    }
    map
}

/// The settings that a style brings to a new resolution: its own, or none where
/// there is no style yet.
pub open spec fn settings_of(current_style: Option<Style>) -> Map<Seq<char>, Seq<char>> {
    match current_style {
        Some(current) => current.settings@,
        None => Map::empty(),
    }
}

/// The number of the catalogue style that `userstyle_id` writes.
pub fn userstyle_number(userstyle_id: &str) -> (number: Result<u32, Error>)
    ensures
        match number {
            Ok(value) => crate::text::parsed_u32(userstyle_id@) == Some(value),
            Err(error) => crate::text::parsed_u32(userstyle_id@) is None && error is Parse,
        },
{
    let chars = chars_of(userstyle_id);
    match crate::text::parse_u32(&chars) {
        Some(value) => Ok(value),
        None => Err(Error::Parse("invalid digit found in string".to_owned())),
    }
}

/// The record of the catalogue style `userstyle_id` with schema `schema`, its
/// settings resolved. An existing record keeps its id, name, target, domain and
/// state, and its settings serve as the values chosen earlier; a new one gets the
/// id `id`, the schema's name and the target `path`. The CSS is left empty: it
/// comes from the catalogue's template, applied to the settings.
pub fn style(
    schema: &StyleSchema,
    userstyle_id: &str,
    id: i32,
    current_style: Option<Style>,
    path: String,
    input: &mut Input,
) -> (record: Style)
    requires
        answerable(schema.style_settings@, settings_of(current_style)),
        current_style matches Some(current) ==> current.settings.wf(),
    ensures
        record.settings.wf(),
        record.settings@ == resolved(
            schema.style_settings@,
            settings_of(current_style),
            old(input).pending(),
        ).0,
        final(input).pending() == resolved(
            schema.style_settings@,
            settings_of(current_style),
            old(input).pending(),
        ).1,
        record.css@.len() == 0,
        record.style_type == StyleType::Userstyle,
        match current_style {
            Some(current) => {
                &&& record.id == current.id
                &&& record.name == current.name
                &&& record.path == current.path
                &&& record.uri == current.uri
                &&& record.domain == current.domain
                &&& record.enabled == current.enabled
            },
            None => {
                &&& record.id == id
                &&& record.name@ == schema.name@
                &&& record.path == path
                &&& record.uri@ == userstyle_id@
                &&& record.domain is None
                &&& record.enabled
            },
        },
{
    match current_style {
        Some(current) => {
            let map = settings(schema, &current.settings, input);
            Style {
                css: String::new(),
                id: current.id,
                uri: current.uri,
                name: current.name,
                path: current.path,
                enabled: current.enabled,
                style_type: StyleType::Userstyle,
                domain: current.domain,
                settings: map,
            }
        },
        None => {
            let none = Settings::new();
            let map = settings(schema, &none, input);
            Style {
                css: String::new(),
                id,
                uri: userstyle_id.to_owned(),
                name: schema.name.clone(),
                path,
                enabled: true,
                style_type: StyleType::Userstyle,
                domain: None,
                settings: map,
            }
        },
    }
}

/// Resolving keeps every value chosen earlier: a setting whose key has a value in
/// `current` gets that value, whatever the input holds.
pub proof fn lemma_resolved_keeps_current(
    settings: Seq<StyleSetting>,
    current: Map<Seq<char>, Seq<char>>,
    pending: Seq<Option<Seq<char>>>,
    at: int,
)
    requires
        0 <= at < settings.len(),
        current.contains_key(settings[at].install_key@),
    ensures
        resolved(settings, current, pending).0.contains_key(settings[at].install_key@),
        resolved(settings, current, pending).0[settings[at].install_key@]
            == current[settings[at].install_key@],
    decreases settings.len(),
{
    if at < settings.len() - 1 {
        lemma_resolved_keeps_current(settings.drop_last(), current, pending, at);
        assert(settings.drop_last()[at] == settings[at]);
    }
}

/// Where every setting's key has a value in `current`, resolving reads nothing
/// from the input.
pub proof fn lemma_resolved_reads_nothing(
    settings: Seq<StyleSetting>,
    current: Map<Seq<char>, Seq<char>>,
    pending: Seq<Option<Seq<char>>>,
)
    requires
        forall|at: int|
            0 <= at < settings.len() ==> current.contains_key(
                (#[trigger] settings[at]).install_key@,
            ),
    ensures
        resolved(settings, current, pending).1 == pending,
    decreases settings.len(),
{
    if settings.len() > 0 {
        assert forall|at: int| 0 <= at < settings.drop_last().len() implies current.contains_key(
            (#[trigger] settings.drop_last()[at]).install_key@,
        ) by {
            assert(settings.drop_last()[at] == settings[at]);
        }
        lemma_resolved_reads_nothing(settings.drop_last(), current, pending);
    }
}

/// Resolving without earlier values asks for every setting: each one gets the
/// value that is read for it from what the settings before it left of the input.
pub proof fn lemma_resolved_afresh(
    settings: Seq<StyleSetting>,
    pending: Seq<Option<Seq<char>>>,
    at: int,
)
    requires
        0 <= at < settings.len(),
    ensures
        resolved(settings.take(at + 1), Map::empty(), pending).0 == resolved(
            settings.take(at),
            Map::empty(),
            pending,
        ).0.insert(
            settings[at].install_key@,
            value_read(settings[at], resolved(settings.take(at), Map::empty(), pending).1),
        ),
        resolved(settings.take(at + 1), Map::empty(), pending).1 == after_value(
            settings[at],
            resolved(settings.take(at), Map::empty(), pending).1,
        ),
{
    assert(settings.take(at + 1).drop_last() =~= settings.take(at));
    assert(settings.take(at + 1).last() == settings[at]);
}

/// Resolving gives a value to the install key of every setting, and to no other
/// key.
pub proof fn lemma_resolved_keys(
    settings: Seq<StyleSetting>,
    current: Map<Seq<char>, Seq<char>>,
    pending: Seq<Option<Seq<char>>>,
    key: Seq<char>,
)
    ensures
        resolved(settings, current, pending).0.contains_key(key) <==> exists|at: int|
            0 <= at < settings.len() && (#[trigger] settings[at]).install_key@ == key,
    decreases settings.len(),
{
    if settings.len() > 0 {
        let shorter = settings.drop_last();
        lemma_resolved_keys(shorter, current, pending, key);
        if resolved(settings, current, pending).0.contains_key(key) {
            if settings.last().install_key@ == key {
                assert(settings[settings.len() - 1].install_key@ == key);
            } else {
                let at = choose|at: int|
                    0 <= at < shorter.len() && (#[trigger] shorter[at]).install_key@ == key;
                assert(settings[at].install_key@ == key);
            }
        }
        if exists|at: int|
            0 <= at < settings.len() && (#[trigger] settings[at]).install_key@ == key {
            let at = choose|at: int|
                0 <= at < settings.len() && (#[trigger] settings[at]).install_key@ == key;
            if at < settings.len() - 1 {
                assert(shorter[at].install_key@ == key);
            }
        }
    }
}

} // verus!
