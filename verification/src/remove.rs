//! Removing a style: its record leaves the catalogue, its region the style sheet.

use vstd::prelude::*;
use crate::config::{first_with_id, named_id, without, Config, Style};
use crate::errors::Error;
use crate::region::{excised, remove_style_from_str};

verus! {

/// Removes the style that `style` names, by id or by name, from the catalogue
/// and returns its record. Where it names none, the catalogue stays as it is.
pub fn remove_style(config: &mut Config, style: &str) -> (removed: Result<Style, Error>)
    ensures
        final(config).chrome_path == old(config).chrome_path,
        match removed {
            Ok(record) => {
                &&& named_id(old(config).styles@, style@) matches Some(id)
                &&& record == old(config).styles@[first_with_id(old(config).styles@, id as int)]
                &&& record.id == id
                &&& final(config).styles@ == without(
                    old(config).styles@,
                    first_with_id(old(config).styles@, id as int),
                )
            },
            Err(error) => {
                &&& named_id(old(config).styles@, style@) is None
                &&& error is NotFound
                &&& *final(config) == *old(config)
            },
        },
{
    let id = match config.style_id_from_str(style) {
        Some(id) => id,
        None => {
            return Err(Error::NotFound);
        },
    };
    match config.remove_style(id) {
        Some(record) => Ok(record),
        None => Err(Error::NotFound),
    }
}

/// The new content of a style's target after the removal of style `id`.
/// `content` is what the target holds, or nothing where it cannot be opened:
/// then there is no region to remove and nothing to write.
pub fn remove_from_file(id: i32, content: Option<&str>) -> (written: Option<String>)
    ensures
        match content {
            Some(text) => written matches Some(out) && out@ == excised(text@, id as int),
            None => written is None,
        },
{
    match content {
        Some(text) => Some(remove_style_from_str(text, id)),
        None => None,
    }
}

} // verus!
