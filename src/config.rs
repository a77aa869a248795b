use vstd::prelude::*;
use crate::selection::{submitted, FolderSelection};
use crate::text::views;

verus! {

/// The JSON text that serde_json writes for a list of strings.
pub uninterp spec fn json_of_list(v: Seq<Seq<char>>) -> Seq<char>;

/// The list of strings that serde_json reads from a text, if it reads one.
pub uninterp spec fn list_of_json(s: Seq<char>) -> Option<Seq<Seq<char>>>;

#[verifier::external_type_specification]
#[verifier::external_body]
pub struct ExJsonError(serde_json::Error);

/// Relies on serde_json::to_string for a `Vec<String>`: it fails only where a
/// `Serialize` impl fails or a map has non-string keys, neither of which a
/// list of strings has, so it returns the JSON array text of the strings.
#[verifier::external_body]
fn encode_json(v: &Vec<String>) -> (r: Result<String, serde_json::Error>)
    ensures
        r is Ok,
        r is Ok ==> r->Ok_0@ == json_of_list(views(v@)),
{
    serde_json::to_string(v)
}

/// Relies on serde_json::from_str::<Vec<String>>: succeeds exactly when the
/// text holds a JSON array of strings, which it returns.
#[verifier::external_body]
fn decode_json(s: &str) -> (r: Result<Vec<String>, serde_json::Error>)
    ensures
        r is Ok <==> list_of_json(s@) is Some,
        r is Ok ==> views(r->Ok_0@) == list_of_json(s@)->0,
{
    serde_json::from_str(s)
}

/// Why a stored selection could not be written or read.
#[derive(Debug, Clone, Copy, PartialEq, Eq, Structural)]
pub enum ConfigError {
    /// The selection could not be turned into JSON.
    Encode,
    /// The stored text is not a JSON array of strings.
    Decode,
}

/// The text under which a selection is stored.
pub fn selection_to_json(folders: &Vec<String>) -> (r: Result<String, ConfigError>)
    ensures
        r is Ok && r->Ok_0@ == json_of_list(views(folders@)),
{
    match encode_json(folders) {
        Ok(s) => Ok(s),
        Err(_) => Err(ConfigError::Encode),
    }
}

/// The selection a stored text holds; a blank stored list selects the root.
pub fn selection_from_json(text: &str, root: String) -> (r: Result<FolderSelection, ConfigError>)
    ensures
        r is Ok <==> list_of_json(text@) is Some,
        r is Ok ==> r->Ok_0.wf() && r->Ok_0.root_view() == root@ && r->Ok_0@ == submitted(
            root@,
            list_of_json(text@)->0,
        ),
        r is Err ==> r->Err_0 == ConfigError::Decode,
{
    match decode_json(text) {
        Ok(folders) => Ok(FolderSelection::from_folders(root, folders)),
        Err(_) => Err(ConfigError::Decode),
    }
}

/// The selection at startup: the stored one when there is a stored text,
/// else the root alone.
pub fn initial_selection(stored: Option<&str>, root: String) -> (r: Result<
    FolderSelection,
    ConfigError,
>)
    ensures
        stored is None ==> r is Ok && r->Ok_0@ == seq![root@],
        stored is Some ==> (r is Ok <==> list_of_json(stored->0@) is Some),
        stored is Some && r is Ok ==> r->Ok_0@ == submitted(root@, list_of_json(stored->0@)->0),
        r is Ok ==> r->Ok_0.wf() && r->Ok_0.root_view() == root@,
        r is Err ==> r->Err_0 == ConfigError::Decode,
{
    match stored {
        None => Ok(FolderSelection::new(root)),
        Some(text) => selection_from_json(text, root),
    }
}

} // verus!
