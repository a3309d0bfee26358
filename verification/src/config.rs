//! The catalogue of installed styles.

use vstd::prelude::*;
use vstd::set_lib::{lemma_int_range, lemma_len_subset, set_int_range};
use crate::errors::{both, message_of, Error};
use crate::input::{after_line, first_line, Input};
use crate::settings::Settings;
use crate::text::{
    append_range, chars_of, lines_of, occurs_at, parse_i32, parse_usize, parsed_i32,
    parsed_usize, same_chars, split_lines, starts_with, string_of, trim, trimmed, views_of,
};

verus! {

/// Where a style's CSS comes from.
#[derive(Clone, Copy, Debug, PartialEq, Eq, Structural)]
pub enum StyleType {
    /// An entry of the remote style catalogue, with a settings schema.
    Userstyle,
    /// A file on this machine.
    Local,
    /// A URL.
    Remote,
}

/// One installed style.
#[derive(Clone, Debug)]
pub struct Style {
    /// The resolved CSS. It is recomputed for every write and never persisted.
    pub css: String,
    /// The id, unique within the catalogue.
    pub id: i32,
    /// The path, URL or catalogue identifier that the style came from.
    pub uri: String,
    /// The display name.
    pub name: String,
    /// The style sheet that holds the style's region.
    pub path: String,
    /// Whether the style's region is present in its style sheet.
    pub enabled: bool,
    /// Where the CSS comes from.
    pub style_type: StyleType,
    /// The domain that the CSS is restricted to, if any.
    pub domain: Option<String>,
    /// The resolved settings.
    pub settings: Settings,
}

/// The installed styles and the directory of the style sheets.
#[derive(Clone, Debug)]
pub struct Config {
    pub chrome_path: String,
    pub styles: Vec<Style>,
}

/// Whether `styles[at]` is the first style with id `id`.
pub open spec fn is_first_with_id(styles: Seq<Style>, id: int, at: int) -> bool {
    &&& 0 <= at < styles.len()
    &&& styles[at].id == id
    &&& forall|earlier: int| 0 <= earlier < at ==> styles[earlier].id != id
}

/// Whether `styles[at]` is the first style named `name`.
pub open spec fn is_first_with_name(styles: Seq<Style>, name: Seq<char>, at: int) -> bool {
    &&& 0 <= at < styles.len()
    &&& styles[at].name@ == name
    &&& forall|earlier: int| 0 <= earlier < at ==> styles[earlier].name@ != name
}

/// Whether some style has id `id`.
pub open spec fn has_id(styles: Seq<Style>, id: int) -> bool {
    exists|at: int| 0 <= at < styles.len() && styles[at].id == id
}

/// Whether some style is named `name`.
pub open spec fn has_name(styles: Seq<Style>, name: Seq<char>) -> bool {
    exists|at: int| 0 <= at < styles.len() && styles[at].name@ == name
}

/// The position of the first style with id `id`, where there is one.
pub open spec fn first_with_id(styles: Seq<Style>, id: int) -> int {
    choose|at: int| is_first_with_id(styles, id, at)
}

/// The position of the first style named `name`, where there is one.
pub open spec fn first_named(styles: Seq<Style>, name: Seq<char>) -> int {
    choose|at: int| is_first_with_name(styles, name, at)
}

/// The first style with an id is the one that `first_with_id` names.
pub proof fn lemma_first_with_id(styles: Seq<Style>, id: int, at: int)
    requires
        is_first_with_id(styles, id, at),
    ensures
        first_with_id(styles, id) == at,
        has_id(styles, id),
{
    let chosen = first_with_id(styles, id);
    if chosen < at {
        assert(styles[chosen].id != id);
    }
    if at < chosen {
        assert(styles[at].id != id);
    }
}

/// The first style with a name is the one that `first_named` names.
pub proof fn lemma_first_named(styles: Seq<Style>, name: Seq<char>, at: int)
    requires
        is_first_with_name(styles, name, at),
    ensures
        first_named(styles, name) == at,
        has_name(styles, name),
{
    let chosen = first_named(styles, name);
    if chosen < at {
        assert(styles[chosen].name@ != name);
    }
    if at < chosen {
        assert(styles[at].name@ != name);
    }
}

/// The id of the style that `token` names: the number that it writes, where a
/// style has that id; otherwise the id of the first style with exactly that name.
pub open spec fn named_id(styles: Seq<Style>, token: Seq<char>) -> Option<i32> {
    match id_by_number(styles, token) {
        Some(id) => Some(id),
        None => if has_name(styles, token) {
            Some(styles[first_named(styles, token)].id)
        } else {
            None
        },
    }
}

/// `styles` without the style at `at`, whose place the last style takes.
pub open spec fn without(styles: Seq<Style>, at: int) -> Seq<Style> {
    styles.update(at, styles.last()).drop_last()
}

/// Whether no two styles share an id.
pub open spec fn ids_unique(styles: Seq<Style>) -> bool {
    forall|i: int, j: int| 0 <= i < j < styles.len() ==> styles[i].id != styles[j].id
}

/// `style` with its `enabled` flag flipped.
pub open spec fn toggled(style: Style) -> Style {
    Style { enabled: !style.enabled, ..style }
}

/// Toggling a style twice gives back the style.
pub proof fn lemma_toggled_twice(style: Style)
    ensures
        toggled(toggled(style)) == style,
{
}

/// The id that a token names by its number: the token read as a decimal `i32`,
/// where a style has that id.
pub open spec fn id_by_number(styles: Seq<Style>, token: Seq<char>) -> Option<i32> {
    match parsed_i32(token) {
        Some(id) => if has_id(styles, id as int) {
            Some(id)
        } else {
            None
        },
        None => None,
    }
}

/// Taking a style out of a catalogue with unique ids leaves the ids unique, and
/// leaves no style with the id that was taken out.
pub proof fn lemma_without_keeps_unique(styles: Seq<Style>, at: int)
    requires
        ids_unique(styles),
        0 <= at < styles.len(),
    ensures
        ids_unique(without(styles, at)),
        !has_id(without(styles, at), styles[at].id as int),
{
    let rest = without(styles, at);
    let last = styles.len() - 1;
    assert forall|i: int| 0 <= i < rest.len() implies #[trigger] rest[i] == styles[if i == at {
        last
    } else {
        i
    }] by {}
    assert forall|i: int, j: int| 0 <= i < j < rest.len() implies rest[i].id != rest[j].id by {
        let from_i = if i == at { last } else { i };
        let from_j = if j == at { last } else { j };
        assert(rest[i] == styles[from_i]);
        assert(rest[j] == styles[from_j]);
        if from_i < from_j {
            assert(styles[from_i].id != styles[from_j].id);
        } else {
            assert(styles[from_j].id != styles[from_i].id);
        }
    }
    assert forall|i: int| 0 <= i < rest.len() implies rest[i].id != styles[at].id by {
        let from_i = if i == at { last } else { i };
        assert(rest[i] == styles[from_i]);
        if from_i < at {
            assert(styles[from_i].id != styles[at].id);
        } else {
            assert(styles[at].id != styles[from_i].id);
        }
    }
}

/// If every number below `bound` is the id of a style, there are at least `bound`
/// styles.
proof fn lemma_ids_below(styles: Seq<Style>, bound: int)
    requires
        0 <= bound,
        forall|id: int| 0 <= id < bound ==> has_id(styles, id),
    ensures
        bound <= styles.len(),
{
    let ids = styles.map_values(|style: Style| style.id as int);
    let range = set_int_range(0, bound);
    assert forall|id: int| range.contains(id) implies ids.to_set().contains(id) by {
        assert(has_id(styles, id));
        let at = choose|at: int| 0 <= at < styles.len() && styles[at].id == id;
        assert(ids[at] == id);
    }
    lemma_int_range(0, bound);
    ids.lemma_cardinality_of_set();
    lemma_len_subset(range, ids.to_set());
}

impl Config {
    /// A catalogue without styles, for the style sheets under `chrome_path`.
    pub fn new(chrome_path: String) -> (config: Config)
        ensures
            config.chrome_path == chrome_path,
            config.styles@.len() == 0,
    {
        Config { chrome_path, styles: Vec::new() }
    }

    /// The position of the first style with id `id`.
    pub fn position_of_id(&self, id: i32) -> (found: Option<usize>)
        ensures
            match found {
                Some(at) => is_first_with_id(self.styles@, id as int, at as int) && at
                    == first_with_id(self.styles@, id as int) && has_id(self.styles@, id as int),
                None => !has_id(self.styles@, id as int),
            },
    {
        let mut at: usize = 0;
        while at < self.styles.len()
            invariant
                at <= self.styles@.len(),
                forall|earlier: int| 0 <= earlier < at ==> self.styles@[earlier].id != id,
            decreases self.styles@.len() - at,
        {
            if self.styles[at].id == id {
                proof {
                    lemma_first_with_id(self.styles@, id as int, at as int);
                }
                return Some(at);
            }
            at += 1;
        }
        None
    }

    /// Whether a style with id `id` exists.
    pub fn contains_style(&self, id: i32) -> (found: bool)
        ensures
            found == has_id(self.styles@, id as int),
    {
        self.position_of_id(id).is_some()
    }

    /// The smallest id, counted from zero, that no style has.
    pub fn next_style_id(&self) -> (id: i32)
        requires
            self.styles@.len() <= i32::MAX,
        ensures
            0 <= id <= self.styles@.len(),
            !has_id(self.styles@, id as int),
            forall|smaller: int| 0 <= smaller < id ==> has_id(self.styles@, smaller),
    {
        let mut id: i32 = 0;
        while self.contains_style(id)
            invariant
                0 <= id,
                self.styles@.len() <= i32::MAX,
                forall|smaller: int| 0 <= smaller < id ==> has_id(self.styles@, smaller),
            decreases i32::MAX - id,
        {
            proof {
                lemma_ids_below(self.styles@, id + 1);
            }
            id += 1;
        }
        proof {
            lemma_ids_below(self.styles@, id as int);
        }
        id
    }

    /// Removes the first style with id `id` and returns it; the last style takes
    /// its place. Without such a style nothing changes.
    pub fn remove_style(&mut self, id: i32) -> (removed: Option<Style>)
        ensures
            final(self).chrome_path == old(self).chrome_path,
            match removed {
                Some(style) => {
                    &&& has_id(old(self).styles@, id as int)
                    &&& is_first_with_id(
                        old(self).styles@,
                        id as int,
                        first_with_id(old(self).styles@, id as int),
                    )
                    &&& style == old(self).styles@[first_with_id(old(self).styles@, id as int)]
                    &&& final(self).styles@ == without(
                        old(self).styles@,
                        first_with_id(old(self).styles@, id as int),
                    )
                },
                None => !has_id(old(self).styles@, id as int) && *final(self) == *old(self),
            },
            ids_unique(old(self).styles@) ==> ids_unique(final(self).styles@) && !has_id(
                final(self).styles@,
                id as int,
            ),
    {
        match self.position_of_id(id) {
            Some(at) => {
                proof {
                    if ids_unique(self.styles@) {
                        lemma_without_keeps_unique(self.styles@, at as int);
                    }
                }
                Some(self.styles.swap_remove(at))
            },
            None => None,
        }
    }

    /// The id of the first style named `name`.
    pub fn style_id_by_name(&self, name: &str) -> (found: Option<i32>)
        ensures
            found == if has_name(self.styles@, name@) {
                Some(self.styles@[first_named(self.styles@, name@)].id)
            } else {
                None
            },
            found matches Some(id) ==> has_id(self.styles@, id as int),
    {
        let wanted = name.to_owned();
        let mut at: usize = 0;
        while at < self.styles.len()
            invariant
                at <= self.styles@.len(),
                wanted@ == name@,
                forall|earlier: int| 0 <= earlier < at ==> self.styles@[earlier].name@ != name@,
            decreases self.styles@.len() - at,
        {
            if self.styles[at].name == wanted {
                proof {
                    lemma_first_named(self.styles@, name@, at as int);
                }
                return Some(self.styles[at].id);
            }
            at += 1;
        }
        None
    }

    /// The id that `name_or_id` names: the number it writes, where a style has
    /// that id; otherwise the id of the first style with exactly that name.
    pub fn style_id_from_str(&self, name_or_id: &str) -> (found: Option<i32>)
        ensures
            found == named_id(self.styles@, name_or_id@),
            found matches Some(id) ==> has_id(self.styles@, id as int),
    {
        let token = chars_of(name_or_id);
        if let Some(id) = parse_i32(&token) {
            if self.contains_style(id) {
                return Some(id);
            }
        }
        self.style_id_by_name(name_or_id)
    }

    /// Flips the `enabled` flag of the first style with id `id`.
    pub fn toggle_style(&mut self, id: i32) -> (done: Result<(), Error>)
        ensures
            final(self).chrome_path == old(self).chrome_path,
            match done {
                Ok(_) => {
                    &&& has_id(old(self).styles@, id as int)
                    &&& final(self).styles@ == old(self).styles@.update(
                        first_with_id(old(self).styles@, id as int),
                        toggled(old(self).styles@[first_with_id(old(self).styles@, id as int)]),
                    )
                },
                Err(error) => {
                    &&& !has_id(old(self).styles@, id as int)
                    &&& error is NotFound
                    &&& *final(self) == *old(self)
                },
            },
            ids_unique(old(self).styles@) ==> ids_unique(final(self).styles@),
    {
        match self.position_of_id(id) {
            Some(at) => {
                let enabled = self.styles[at].enabled;
                self.styles[at].enabled = !enabled;
                proof {
                    assert(self.styles@ =~= old(self).styles@.update(
                        at as int,
                        toggled(old(self).styles@[at as int]),
                    ));
                }
                Ok(())
            },
            None => Err(Error::NotFound),
        }
    }
}

/// The lines of a profile list: the lines of `text`, each without the carriage
/// return before the line feed that ends it.
pub open spec fn ini_lines(text: Seq<char>) -> Seq<Seq<char>> {
    Seq::new(
        lines_of(text).len(),
        |i: int|
            {
                let line = lines_of(text)[i];
                if (i < lines_of(text).len() - 1 || text.last() == '\n') && line.len() > 0
                    && line.last() == '\r' {
                    line.drop_last()
                } else {
                    line
                }
            },
    )
}

/// The profiles that `lines` name, and whether the next one named is the
/// default. A line `Path=` and a name is a profile. The one that follows a line
/// `Name=default` is the default and goes to the front; any other goes to the
/// end.
pub open spec fn profiles_in(lines: Seq<Seq<char>>) -> (Seq<Seq<char>>, bool)
    decreases lines.len(),
{
    if lines.len() == 0 {
        (Seq::empty(), false)
    } else {
        let before = profiles_in(lines.drop_last());
        let line = lines.last();
        if line == "Name=default"@ {
            (before.0, true)
        } else if occurs_at(line, "Path="@, 0) {
            let profile = line.skip("Path="@.len() as int);
            if before.1 {
                (seq![profile] + before.0, false)
            } else {
                (before.0.push(profile), false)
            }
        } else {
            before
        }
    }
}

/// The character sequences that the strings of `texts` hold.
pub open spec fn texts_of(texts: Seq<String>) -> Seq<Seq<char>> {
    Seq::new(texts.len(), |i: int| texts[i]@)
}

/// The names of the profiles that the profile list `content` holds, the default
/// profile first.
pub fn get_profiles(content: &str) -> (profiles: Vec<String>)
    ensures
        texts_of(profiles@) == profiles_in(ini_lines(content@)).0,
{
    let chars = chars_of(content);
    let lines = split_lines(&chars);
    let ends_in_feed = chars.len() > 0 && chars[chars.len() - 1] == '\n';
    let name_default = chars_of("Name=default");
    let path_is = chars_of("Path=");
    let mut profiles: Vec<String> = Vec::new();
    let mut default = false;
    let mut i: usize = 0;
    proof {
        assert(views_of(lines@).len() == lines@.len());
        assert(ini_lines(content@).take(0) =~= Seq::<Seq<char>>::empty());
        assert(texts_of(profiles@) =~= Seq::<Seq<char>>::empty());
    }
    while i < lines.len()
        invariant
            i <= lines@.len(),
            chars@ == content@,
            views_of(lines@) == lines_of(content@),
            lines@.len() == lines_of(content@).len(),
            ends_in_feed == (content@.len() > 0 && content@.last() == '\n'),
            name_default@ == "Name=default"@,
            path_is@ == "Path="@,
            (texts_of(profiles@), default) == profiles_in(ini_lines(content@).take(i as int)),
        decreases lines@.len() - i,
    {
        let raw = &lines[i];
        let mut line: Vec<char> = Vec::new();
        let strip = (i + 1 < lines.len() || ends_in_feed) && raw.len() > 0 && raw[raw.len() - 1]
            == '\r';
        let keep: usize = if strip {
            raw.len() - 1
        } else {
            raw.len()
        };
        append_range(&mut line, raw, 0, keep);
        proof {
            assert(views_of(lines@)[i as int] == raw@);
            assert(line@ =~= ini_lines(content@)[i as int]);
            assert(ini_lines(content@).take(i + 1).drop_last() =~= ini_lines(content@).take(
                i as int,
            ));
            assert(ini_lines(content@).take(i + 1).last() == line@);
        }
        let ghost before = profiles@;
        if same_chars(&line, &name_default) {
            default = true;
        } else if starts_with(&line, &path_is) {
            let mut name: Vec<char> = Vec::new();
            append_range(&mut name, &line, path_is.len(), line.len());
            proof {
                assert(name@ =~= line@.skip("Path="@.len() as int));
            }
            let profile = string_of(&name);
            if default {
                default = false;
                profiles.insert(0, profile);
                proof {
                    assert(texts_of(profiles@) =~= seq![name@] + texts_of(before));
                }
            } else {
                profiles.push(profile);
                proof {
                    assert(texts_of(profiles@) =~= texts_of(before).push(name@));
                }
            }
        }
        i += 1;
    }
    proof {
        assert(ini_lines(content@).take(i as int) =~= ini_lines(content@));
    }
    profiles
}

/// The position that the answer `line` selects among the profiles: 0 where it
/// is empty once trimmed, else the number that it writes, if it writes one.
pub open spec fn selected_position(line: Seq<char>) -> Option<usize> {
    if trimmed(line).len() == 0 {
        Some(0usize)
    } else {
        parsed_usize(trimmed(line))
    }
}

/// Reads the user's choice among `profiles` from one line of `input`. An
/// unreadable line is an I/O error, a line that writes no number a parse error,
/// and a number that is no position of `profiles` a catalogue error.
pub fn get_profile_selection(profiles: &Vec<String>, input: &mut Input) -> (profile: Result<
    String,
    Error,
>)
    ensures
        final(input).pending() == after_line(old(input).pending()),
        match first_line(old(input).pending()) {
            None => profile is Err && profile->Err_0 is Io,
            Some(line) => match selected_position(line) {
                None => profile is Err && profile->Err_0 is Parse,
                Some(at) => if at < profiles@.len() {
                    profile is Ok && profile->Ok_0 == profiles@[at as int]
                } else {
                    profile is Err && profile->Err_0 is Config
                },
            },
        },
{
    let line = match input.read_line() {
        Some(line) => line,
        None => {
            return Err(Error::Io("Unable to read the profile number.".to_owned()));
        },
    };
    let chars = chars_of(line.as_str());
    let kept = trim(&chars);
    let at: usize = if kept.len() == 0 {
        0
    } else {
        match parse_usize(&kept) {
            Some(at) => at,
            None => {
                return Err(Error::Parse("invalid digit found in string".to_owned()));
            },
        }
    };
    if at < profiles.len() {
        Ok(profiles[at].clone())
    } else {
        Err(Error::Config("Profile number out of range.".to_owned()))
    }
}

/// What an operation reports after the failure `failure`, when the backup of the
/// catalogue has been written back with the result `restored`: success where the
/// backup was written, since the state from before the operation stands again;
/// both failures, joined, where it was not.
pub fn restore_config(failure: &Error, restored: Result<(), Error>) -> (outcome: Result<
    (),
    Error,
>)
    ensures
        restored is Ok ==> outcome is Ok,
        restored is Err ==> outcome is Err && outcome->Err_0 is Recovery && message_of(
            outcome->Err_0,
        ) == message_of(*failure) + message_of(restored->Err_0),
{
    match restored {
        Ok(()) => Ok(()),
        Err(again) => Err(both(failure, &again)),
    }
}

} // verus!
