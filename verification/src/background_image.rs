//! The window's background image: which one was chosen, and what becomes of a choice from before
//! there were settings.

use crate::model::text_of;
use crate::paths::{config_file, file_in_config, ConfigEnv};
use crate::text::{trim, trimmed};
use vstd::prelude::*;

verus! {

/// The setting that holds the path of the chosen image; empty if none was chosen.
#[derive(Debug)]
pub struct BackgroundSetting {
    pub path: String,
}

/// The file that held the choice before there were settings.
pub fn legacy_path(env: &ConfigEnv) -> (r: String)
    ensures
        r@ == config_file(*env, "background-image-path"@),
{
    file_in_config(env, "background-image-path")
}

/// The chosen image, if one was chosen and there is a file at its path.
pub open spec fn loaded(path: Seq<char>, is_file: bool) -> Option<Seq<char>> {
    if path.len() > 0 && is_file {
        Some(path)
    } else {
        None
    }
}

/// The chosen image, if one was chosen and there is a file at its path.
pub fn load(store: &BackgroundSetting, is_file: bool) -> (r: Option<String>)
    ensures
        text_of(r) == loaded(store.path@, is_file),
{
    if is_file && !store.path.as_str().is_empty() {
        Some(store.path.clone())
    } else {
        None
    }
}

/// Chooses an image.
pub fn save(store: &mut BackgroundSetting, path: &str)
    ensures
        final(store).path@ == path@,
        path@.len() > 0 ==> loaded(final(store).path@, true) == Some(path@),
{
    store.path = path.to_owned();
}

/// Chooses no image. None is loaded from then on, whatever files there are.
pub fn clear(store: &mut BackgroundSetting)
    ensures
        final(store).path@ == Seq::<char>::empty(),
        forall|is_file: bool| #[trigger] loaded(final(store).path@, is_file) is None,
{
    store.path = String::new();
}

/// The path that an old choice has, if it is still to be taken over: only where no image was chosen
/// since.
pub open spec fn old_choice(path: Seq<char>, text: Option<Seq<char>>) -> Option<Seq<char>> {
    if path.len() > 0 {
        None
    } else {
        match text {
            Some(t) => Some(trimmed(t)),
            None => None,
        }
    }
}

/// The path that an old choice has, if it is still to be taken over. The text is that of the old
/// file, if it can be read.
pub fn legacy_choice(store: &BackgroundSetting, text: Option<&str>) -> (r: Option<String>)
    ensures
        text_of(r) == old_choice(
            store.path@,
            match text {
                Some(t) => Some(t@),
                None => None,
            },
        ),
{
    if !store.path.as_str().is_empty() {
        return None;
    }
    match text {
        Some(t) => Some(trim(t).to_owned()),
        None => None,
    }
}

/// Takes an old choice over, if it is still to be taken over and there is a file at its path. What is
/// returned is whether it was; the old file is dropped either way.
pub fn migrate_legacy(store: &mut BackgroundSetting, text: Option<&str>, is_file: bool) -> (r: bool)
    ensures
        ({
            let choice = old_choice(
                old(store).path@,
                match text {
                    Some(t) => Some(t@),
                    None => None,
                },
            );
            &&& r == (choice is Some && is_file)
            &&& final(store).path@ == (if r {
                choice->0
            } else {
                old(store).path@
            })
        }),
{
    match legacy_choice(store, text) {
        Some(path) => if is_file {
            save(store, &path);
            true
        } else {
            false
        },
        None => false,
    }
}

/// An image that was chosen is never replaced by an old choice.
pub proof fn lemma_newer_choice_stays(path: Seq<char>, text: Option<Seq<char>>)
    requires
        path.len() > 0,
    ensures
        old_choice(path, text) is None,
{
}

} // verus!
