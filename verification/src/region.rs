//! Marker-delimited regions inside a style sheet's text.
//!
//! A style's CSS lives between a start marker and an end marker that carry the
//! style's id in decimal. Installing appends such a region to the end of the
//! text; excising removes the span from the first start marker through the first
//! end marker, and leaves the text alone where that pair is missing or inverted.

use vstd::prelude::*;
use crate::text::{
    append_all, append_range, append_str, chars_of, decimal, digits, find, first_index,
    is_first_occurrence, lemma_first_index_is, lemma_first_index_none, occurs, occurs_at,
    push_decimal, string_of,
};

verus! {

/// The comment that tags the start of the region of style `id`.
pub open spec fn start_tag(id: int) -> Seq<char> {
    "/* RUM START "@ + decimal(id) + " */"@
}

/// The comment that tags the end of the region of style `id`.
pub open spec fn end_tag(id: int) -> Seq<char> {
    "/* RUM END "@ + decimal(id) + " */"@
}

/// The marker that opens the region of style `id`: its start tag on a line of
/// its own.
pub open spec fn start_marker(id: int) -> Seq<char> {
    seq!['\n'] + start_tag(id) + seq!['\n']
}

/// The marker that closes the region of style `id`: its end tag on a line of its
/// own.
pub open spec fn end_marker(id: int) -> Seq<char> {
    seq!['\n'] + end_tag(id) + seq!['\n']
}

/// The region of style `id` with payload `css`: start marker, payload, end marker.
pub open spec fn region_of(id: int, css: Seq<char>) -> Seq<char> {
    start_marker(id) + css + end_marker(id)
}

/// `content` with the region of style `id` appended to its end.
pub open spec fn installed(content: Seq<char>, id: int, css: Seq<char>) -> Seq<char> {
    content + region_of(id, css)
}

/// `content` without the span from its first start marker of `id` through its
/// first end marker of `id`; `content` itself where one of them is missing or the
/// start marker does not come first.
pub open spec fn excised(content: Seq<char>, id: int) -> Seq<char> {
    match (first_index(content, start_marker(id)), first_index(content, end_marker(id))) {
        (Some(start), Some(end)) => if start < end {
            content.take(start) + content.skip(end + end_marker(id).len())
        } else {
            content
        },
        _ => content,
    }
}

/// `css` restricted to the pages that `domain` selects.
pub open spec fn domain_wrapped(css: Seq<char>, domain: Seq<char>) -> Seq<char> {
    "@-moz-document "@ + domain + " {\n"@ + css + "\n}"@
}

/// The marker that opens the region of style `id`.
pub fn start_marker_chars(id: i32) -> (marker: Vec<char>)
    ensures
        marker@ == start_marker(id as int),
{
    let mut marker: Vec<char> = Vec::new();
    marker.push('\n');
    append_str(&mut marker, "/* RUM START ");
    push_decimal(&mut marker, id);
    append_str(&mut marker, " */");
    marker.push('\n');
    proof {
        assert(marker@ =~= start_marker(id as int));
    }
    marker
}

/// The marker that closes the region of style `id`.
pub fn end_marker_chars(id: i32) -> (marker: Vec<char>)
    ensures
        marker@ == end_marker(id as int),
{
    let mut marker: Vec<char> = Vec::new();
    marker.push('\n');
    append_str(&mut marker, "/* RUM END ");
    push_decimal(&mut marker, id);
    append_str(&mut marker, " */");
    marker.push('\n');
    proof {
        assert(marker@ =~= end_marker(id as int));
    }
    marker
}

/// The text that installing style `id` with payload `css` appends to a style sheet.
pub fn region_text(id: i32, css: &str) -> (region: String)
    ensures
        region@ == region_of(id as int, css@),
{
    let mut out = start_marker_chars(id);
    append_str(&mut out, css);
    let end = end_marker_chars(id);
    append_all(&mut out, &end);
    string_of(&out)
}

/// Installs style `id` with payload `css` by appending its region to `content`.
pub fn install_style_in_str(content: &str, id: i32, css: &str) -> (out: String)
    ensures
        out@ == installed(content@, id as int, css@),
{
    let mut out = chars_of(content);
    let start = start_marker_chars(id);
    append_all(&mut out, &start);
    append_str(&mut out, css);
    let end = end_marker_chars(id);
    append_all(&mut out, &end);
    proof {
        assert(out@ =~= installed(content@, id as int, css@));
    }
    string_of(&out)
}

/// Removes the region of style `id` from `user_content`, which comes back
/// unchanged where no well-formed region of `id` is found.
pub fn remove_style_from_str(user_content: &str, id: i32) -> (out: String)
    ensures
        out@ == excised(user_content@, id as int),
{
    let content = chars_of(user_content);
    let start_str = start_marker_chars(id);
    let end_str = end_marker_chars(id);
    if let Some(start) = find(&content, &start_str) {
        if let Some(end) = find(&content, &end_str) {
            if start < end {
                let mut result: Vec<char> = Vec::new();
                append_range(&mut result, &content, 0, start);
                let total = content.len();
                append_range(&mut result, &content, end + end_str.len(), total);
                proof {
                    assert(content@.subrange(0, start as int) =~= content@.take(start as int));
                    assert(content@.subrange(end + end_str@.len(), total as int) =~= content@.skip(
                        end + end_str@.len(),
                    ));
                }
                return string_of(&result);
            }
        }
    }
    string_of(&content)
}

/// Wraps `css` in a block that restricts it to `domain`.
pub fn wrap_domain(css: &str, domain: &str) -> (out: String)
    ensures
        out@ == domain_wrapped(css@, domain@),
{
    let mut out: Vec<char> = Vec::new();
    append_str(&mut out, "@-moz-document ");
    append_str(&mut out, domain);
    append_str(&mut out, " {\n");
    append_str(&mut out, css);
    append_str(&mut out, "\n}");
    proof {
        assert(out@ =~= domain_wrapped(css@, domain@));
    }
    string_of(&out)
}

/// Installing leaves the text that was there as it is, and puts after it the
/// start marker, the payload and the end marker, in this order and with nothing
/// between or after them.
pub proof fn lemma_installed_holds_region(content: Seq<char>, id: int, css: Seq<char>)
    ensures
        installed(content, id, css).take(content.len() as int) == content,
        occurs_at(installed(content, id, css), start_marker(id), content.len() as int),
        occurs_at(
            installed(content, id, css),
            css,
            (content.len() + start_marker(id).len()) as int,
        ),
        occurs_at(
            installed(content, id, css),
            end_marker(id),
            (content.len() + start_marker(id).len() + css.len()) as int,
        ),
        installed(content, id, css).len() == content.len() + start_marker(id).len() + css.len()
            + end_marker(id).len(),
{
    let text = installed(content, id, css);
    let start = content.len() as int;
    let payload = start + start_marker(id).len();
    let end = payload + css.len();
    assert(text.take(start) =~= content);
    assert(text.subrange(start, payload) =~= start_marker(id));
    assert(text.subrange(payload, end) =~= css);
    assert(text.subrange(end, end + end_marker(id).len()) =~= end_marker(id));
}

/// Excising is a no-op where the start marker or the end marker is absent, and
/// where both are present but the first start marker does not stand before the
/// first end marker.
pub proof fn lemma_excise_without_region(content: Seq<char>, id: int)
    requires
        !occurs(content, start_marker(id)) || !occurs(content, end_marker(id)) || first_index(
            content,
            start_marker(id),
        )->Some_0 >= first_index(content, end_marker(id))->Some_0,
    ensures
        excised(content, id) == content,
{
    if !occurs(content, start_marker(id)) {
        lemma_first_index_none(content, start_marker(id));
    }
    if !occurs(content, end_marker(id)) {
        lemma_first_index_none(content, end_marker(id));
    }
}

/// Excising removes exactly the span from the first start marker through the end
/// of the first end marker, where the former stands before the latter.
pub proof fn lemma_excise_region(content: Seq<char>, id: int, start: int, end: int)
    requires
        is_first_occurrence(content, start_marker(id), start),
        is_first_occurrence(content, end_marker(id), end),
        start < end,
    ensures
        excised(content, id) == content.take(start) + content.skip(end + end_marker(id).len()),
        excised(content, id).len() == content.len() - (end + end_marker(id).len() - start),
{
    lemma_first_index_is(content, start_marker(id), start);
    lemma_first_index_is(content, end_marker(id), end);
}

/// Installing a style and excising it again gives back the text that was there
/// before, provided that the markers which installing appends are the first of
/// their kind: no start marker of `id` begins inside `content`, and no end marker
/// of `id` begins before the appended one.
pub proof fn lemma_install_then_excise(content: Seq<char>, id: int, body: Seq<char>)
    requires
        forall|at: int|
            0 <= at < content.len() ==> !occurs_at(
                installed(content, id, body),
                start_marker(id),
                at,
            ),
        forall|at: int|
            0 <= at < content.len() + start_marker(id).len() + body.len() ==> !occurs_at(
                installed(content, id, body),
                end_marker(id),
                at,
            ),
    ensures
        excised(installed(content, id, body), id) == content,
{
    let text = installed(content, id, body);
    let start = content.len() as int;
    let end = start + start_marker(id).len() + body.len();
    assert(start_marker(id).len() >= 2);
    assert(text.subrange(start, start + start_marker(id).len()) =~= start_marker(id));
    assert(text.subrange(end, end + end_marker(id).len()) =~= end_marker(id));
    lemma_excise_region(text, id, start, end);
    assert(text.take(start) + text.skip(end + end_marker(id).len()) =~= content);
}

/// Whether `text` holds no line feed.
pub open spec fn no_feed(text: Seq<char>) -> bool {
    forall|i: int| 0 <= i < text.len() ==> #[trigger] text[i] != '\n'
}

/// A number in decimal holds no line feed.
proof fn lemma_digits_no_feed(n: nat)
    ensures
        no_feed(digits(n)),
    decreases n,
{
    if n >= 10 {
        lemma_digits_no_feed(n / 10);
    }
}

/// The tags of a style hold no line feed.
proof fn lemma_tags_no_feed(id: int)
    ensures
        no_feed(start_tag(id)),
        no_feed(end_tag(id)),
{
    reveal_strlit("/* RUM START ");
    reveal_strlit("/* RUM END ");
    reveal_strlit(" */");
    if id < 0 {
        lemma_digits_no_feed((-id) as nat);
    } else {
        lemma_digits_no_feed(id as nat);
    }
    assert(no_feed(decimal(id)));
}

/// The end tag of a style stands nowhere in its start tag.
proof fn lemma_end_tag_not_in_start_tag(id: int, at: int)
    ensures
        !occurs_at(start_tag(id), end_tag(id), at),
{
    reveal_strlit("/* RUM START ");
    reveal_strlit("/* RUM END ");
    reveal_strlit(" */");
    if occurs_at(start_tag(id), end_tag(id), at) {
        let found = start_tag(id).subrange(at, at + end_tag(id).len());
        assert(start_tag(id).len() == end_tag(id).len() + 2);
        assert(found[0] == start_tag(id)[at]);
        assert(end_tag(id)[0] == '/');
        assert(start_tag(id)[1] == '*');
        assert(start_tag(id)[2] == ' ');
        assert(at == 0);
        assert(found[7] == start_tag(id)[7]);
        assert(end_tag(id)[7] == 'E');
        assert(start_tag(id)[7] == 'S');
    }
}

/// Installing a style and excising it again gives back the text that was there
/// before, where that text holds neither tag of the style and the payload does
/// not hold its end tag.
pub proof fn lemma_install_then_excise_untagged(content: Seq<char>, id: int, body: Seq<char>)
    requires
        !occurs(content, start_tag(id)),
        !occurs(content, end_tag(id)),
        !occurs(body, end_tag(id)),
    ensures
        excised(installed(content, id, body), id) == content,
{
    let text = installed(content, id, body);
    let open = start_marker(id);
    let close = end_marker(id);
    let first = content.len() as int;
    let second = first + open.len() - 1;
    let third = first + open.len() + body.len();
    lemma_tags_no_feed(id);
    assert(text[first] == '\n');
    assert(text[second] == '\n');
    assert(text[third] == '\n');
    assert forall|at: int| 0 <= at < first implies !occurs_at(text, open, at) by {
        if occurs_at(text, open, at) {
            let found = text.subrange(at, at + open.len());
            let tag = start_tag(id);
            assert forall|j: int| 0 <= j < tag.len() implies text[at + 1 + j] == tag[j] by {
                assert(found[1 + j] == text[at + 1 + j]);
                assert(open[1 + j] == tag[j]);
            }
            if at + 1 + tag.len() <= first {
                assert(content.subrange(at + 1, at + 1 + tag.len()) =~= tag);
                assert(occurs_at(content, tag, at + 1));
            } else {
                assert(text[at + 1 + (first - at - 1)] == tag[first - at - 1]);
            }
        }
    }
    assert forall|at: int| 0 <= at < third implies !occurs_at(text, close, at) by {
        if occurs_at(text, close, at) {
            let found = text.subrange(at, at + close.len());
            let tag = end_tag(id);
            let from = at + 1;
            assert forall|j: int| 0 <= j < tag.len() implies text[from + j] == tag[j] by {
                assert(found[1 + j] == text[from + j]);
                assert(close[1 + j] == tag[j]);
            }
            reveal_strlit("/* RUM END ");
            assert(tag.len() > 0);
            if from <= first < from + tag.len() {
                assert(text[from + (first - from)] == tag[first - from]);
            } else if from <= second < from + tag.len() {
                assert(text[from + (second - from)] == tag[second - from]);
            } else if from <= third < from + tag.len() {
                assert(text[from + (third - from)] == tag[third - from]);
            } else if from + tag.len() <= first {
                assert(content.subrange(from, from + tag.len()) =~= tag);
                assert(occurs_at(content, tag, from));
            } else if from + tag.len() <= second {
                let inner = from - first - 1;
                assert(start_tag(id).subrange(inner, inner + tag.len()) =~= tag) by {
                    assert forall|j: int| 0 <= j < tag.len() implies start_tag(id)[inner + j]
                        == tag[j] by {
                        assert(text[from + j] == open[1 + inner + j]);
                    }
                }
                lemma_end_tag_not_in_start_tag(id, inner);
            } else {
                let inner = from - second - 1;
                assert(body.subrange(inner, inner + tag.len()) =~= tag) by {
                    assert forall|j: int| 0 <= j < tag.len() implies body[inner + j] == tag[j] by {
                        assert(text[from + j] == body[inner + j]);
                    }
                }
                assert(occurs_at(body, tag, inner));
            }
        }
    }
    lemma_install_then_excise(content, id, body);
}

} // verus!
