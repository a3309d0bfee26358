//! Updating and toggling a style, and what is reported when an update fails.

use vstd::prelude::*;
use crate::add::{is_user_chrome, targets_user_chrome};
use crate::config::{first_with_id, named_id, toggled, without, Config, Style};
use crate::errors::{message_of, Error};
use crate::settings::Settings;

verus! {

/// What updating a style takes: the record to add again, and how.
pub struct Update {
    /// The record as it goes into the new resolution. It keeps its settings,
    /// unless they are to be asked anew: then it has none.
    pub style: Style,
    /// Whether the style targets the browser's own interface.
    pub user_chrome: bool,
    /// Whether only the catalogue gets the style back, since it is disabled.
    pub config_only: bool,
}

/// What is reported where the catalogue could not be restored.
pub open spec fn config_lost() -> Seq<char> {
    "Unable to recover config\nPlease ensure the config is not corrupted"@
}

/// What is reported where the style sheet could not be restored.
pub open spec fn file_lost() -> Seq<char> {
    "Unable to recover target file\nPlease ensure the file is not corrupted"@
}

/// Flips the `enabled` flag of the style that `style` names, and returns its id.
pub fn toggle_style(config: &mut Config, style: &str) -> (toggled_id: Result<i32, Error>)
    ensures
        final(config).chrome_path == old(config).chrome_path,
        match toggled_id {
            Ok(id) => {
                &&& named_id(old(config).styles@, style@) == Some(id)
                &&& final(config).styles@ == old(config).styles@.update(
                    first_with_id(old(config).styles@, id as int),
                    toggled(old(config).styles@[first_with_id(old(config).styles@, id as int)]),
                )
            },
            Err(error) => {
                &&& named_id(old(config).styles@, style@) is None
                &&& error is NotFound
                &&& *final(config) == *old(config)
            },
        },
{
    let id = match config.style_id_from_str(style) {
        Some(id) => id,
        None => {
            return Err(Error::NotFound);
        },
    };
    match config.toggle_style(id) {
        Ok(()) => Ok(id),
        Err(error) => Err(error),
    }
}

/// Takes the style that `style` names out of the catalogue, to be added again.
/// With `edit` its settings are dropped, so that every one is asked anew;
/// without, it keeps them, and none of them is asked again.
pub fn update_style(config: &mut Config, style: &str, edit: bool) -> (plan: Result<Update, Error>)
    ensures
        final(config).chrome_path == old(config).chrome_path,
        match plan {
            Ok(update) => {
                &&& named_id(old(config).styles@, style@) matches Some(id)
                &&& final(config).styles@ == without(
                    old(config).styles@,
                    first_with_id(old(config).styles@, id as int),
                )
                &&& update.style == (Style {
                    settings: update.style.settings,
                    ..old(config).styles@[first_with_id(old(config).styles@, id as int)]
                })
                &&& update.style.id == id
                &&& update.style.settings@ == if edit {
                    Map::<Seq<char>, Seq<char>>::empty()
                } else {
                    old(config).styles@[first_with_id(old(config).styles@, id as int)].settings@
                }
                &&& old(config).styles@[first_with_id(old(config).styles@, id as int)].settings.wf()
                    ==> update.style.settings.wf()
                &&& update.user_chrome == is_user_chrome(update.style.path@)
                &&& update.config_only == !update.style.enabled
            },
            Err(error) => {
                &&& named_id(old(config).styles@, style@) is None
                &&& error is NotFound
                &&& *final(config) == *old(config)
            },
        },
{
    let id = match config.style_id_from_str(style) {
        Some(id) => id,
        None => {
            return Err(Error::NotFound);
        },
    };
    let current = match config.remove_style(id) {
        Some(current) => current,
        None => {
            return Err(Error::NotFound);
        },
    };
    let user_chrome = targets_user_chrome(current.path.as_str());
    let config_only = !current.enabled;
    let settings = if edit {
        Settings::new()
    } else {
        current.settings
    };
    Ok(
        Update {
            style: Style {
                css: current.css,
                id: current.id,
                uri: current.uri,
                name: current.name,
                path: current.path,
                enabled: current.enabled,
                style_type: current.style_type,
                domain: current.domain,
                settings,
            },
            user_chrome,
            config_only,
        },
    )
}

/// What is reported after the attempt to restore the catalogue and the style
/// sheet of a failed update: nothing where both were restored, the loss of the
/// one that was not, and both losses, one after the other, where neither was.
pub fn recover_failure(config_result: Result<(), Error>, file_result: Result<(), Error>) -> (outcome:
    Result<(), Error>)
    ensures
        match (config_result, file_result) {
            (Ok(_), Ok(_)) => outcome is Ok,
            (Err(_), Ok(_)) => outcome is Err && outcome->Err_0 is Config && message_of(
                outcome->Err_0,
            ) == config_lost(),
            (Ok(_), Err(_)) => outcome is Err && outcome->Err_0 is Io && message_of(
                outcome->Err_0,
            ) == file_lost(),
            (Err(_), Err(_)) => outcome is Err && outcome->Err_0 is Recovery && message_of(
                outcome->Err_0,
            ) == config_lost() + file_lost(),
        },
{
    let config_error = Error::Config(
        "Unable to recover config\nPlease ensure the config is not corrupted".to_owned(),
    );
    let file_error = Error::Io(
        "Unable to recover target file\nPlease ensure the file is not corrupted".to_owned(),
    );
    match (config_result, file_result) {
        (Err(_), Err(_)) => Err(crate::errors::both(&config_error, &file_error)),
        (Err(_), Ok(_)) => Err(config_error),
        (Ok(_), Err(_)) => Err(file_error),
        (Ok(_), Ok(_)) => Ok(()),
    }
}

} // verus!
