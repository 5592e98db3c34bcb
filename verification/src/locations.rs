//! Where files are kept: a directory that the system knows, and the way from there.

use vstd::prelude::*;

use crate::text;
use crate::wsl;

verus! {

/// A directory that the system knows.
#[derive(Clone, Copy, Debug, PartialEq, Eq, Structural)]
pub enum BaseDir {
    /// The home directory of the user.
    Home,
    /// The directory that the variable `CODEX_HOME` names.
    CodexHome,
    /// The directory that the variable `LOCALAPPDATA` names.
    LocalAppData,
    /// The directory for temporary files.
    Temp,
}

/// A file: a directory, and the names that lead from it to the file.
#[derive(Clone, Debug)]
pub struct Location {
    pub base: BaseDir,
    pub parts: Vec<String>,
}

/// The model of a [`Location`].
#[verifier::ext_equal]
pub struct Place {
    pub base: BaseDir,
    pub parts: Seq<Seq<char>>,
}

impl View for Location {
    type V = Place;

    open spec fn view(&self) -> Place {
        Place { base: self.base, parts: wsl::string_views(self.parts@) }
    }
}

/// A file directly in a directory.
fn file_in(base: BaseDir, name: &str) -> (location: Location)
    ensures
        location@ == (Place { base, parts: seq![name@] }),
{
    let mut parts: Vec<String> = Vec::new();
    parts.push(text::copy(name));
    let location = Location { base, parts };
    assert(location@.parts =~= seq![name@]);
    location
}

/// A file in a subdirectory of a directory.
fn file_below(base: BaseDir, dir: &str, name: &str) -> (location: Location)
    ensures
        location@ == (Place { base, parts: seq![dir@, name@] }),
{
    let mut parts: Vec<String> = Vec::new();
    parts.push(text::copy(dir));
    parts.push(text::copy(name));
    let location = Location { base, parts };
    assert(location@.parts =~= seq![dir@, name@]);
    location
}

/// Where Anthropic's command line tool, which goes by the name `tool`, keeps the credentials
/// of the Windows user. There is no place if the home directory is not known.
pub fn windows_credential_location(tool: &str, home_known: bool) -> (location: Option<Location>)
    ensures
        location is Some == home_known,
        location matches Some(l) ==> l@ == (Place {
            base: BaseDir::Home,
            parts: seq!["."@ + tool@, ".credentials.json"@],
        }),
{
    if !home_known {
        return None;
    }
    let mut dir = text::copy(".");
    text::append(&mut dir, tool);
    Some(file_below(BaseDir::Home, dir.as_str(), ".credentials.json"))
}

/// Where the Codex command line tool keeps its credentials: in the directory that it was
/// told to use, else below the home directory.
pub open spec fn codex_auth_place(codex_home_set: bool, home_known: bool) -> Option<Place> {
    if codex_home_set {
        Some(Place { base: BaseDir::CodexHome, parts: seq!["auth.json"@] })
    } else if home_known {
        Some(Place { base: BaseDir::Home, parts: seq![".codex"@, "auth.json"@] })
    } else {
        None
    }
}

/// Finds where the Codex command line tool keeps its credentials.
pub fn codex_auth_path(codex_home_set: bool, home_known: bool) -> (location: Option<Location>)
    ensures
        location is Some == codex_auth_place(codex_home_set, home_known) is Some,
        location matches Some(l) ==> codex_auth_place(codex_home_set, home_known) == Some(l@),
{
    if codex_home_set {
        return Some(file_in(BaseDir::CodexHome, "auth.json"));
    }
    if !home_known {
        return None;
    }
    Some(file_below(BaseDir::Home, ".codex", "auth.json"))
}

/// Where the diagnostic log is written: in the user's own directory for application data
/// rather than one for temporary files, which may be shared. The name of Anthropic's command
/// line tool is part of the file's name.
pub fn log_location(tool: &str, local_app_data_set: bool) -> (location: Location)
    ensures
        location@ == (Place {
            base: if local_app_data_set {
                BaseDir::LocalAppData
            } else {
                BaseDir::Temp
            },
            parts: seq![tool@ + "-code-usage-monitor.log"@],
        }),
{
    let mut name = text::copy(tool);
    text::append(&mut name, "-code-usage-monitor.log");
    if local_app_data_set {
        file_in(BaseDir::LocalAppData, name.as_str())
    } else {
        file_in(BaseDir::Temp, name.as_str())
    }
}

/// The Codex credentials are in the directory that the tool was told to use, else below the
/// home directory; there is no place exactly if neither is known.
pub proof fn law_codex_place(codex_home_set: bool, home_known: bool)
    ensures
        codex_auth_place(codex_home_set, home_known) is None <==> !codex_home_set && !home_known,
        codex_home_set ==> codex_auth_place(codex_home_set, home_known) == Some(
            Place { base: BaseDir::CodexHome, parts: seq!["auth.json"@] },
        ),
        !codex_home_set && home_known ==> codex_auth_place(codex_home_set, home_known) == Some(
            Place { base: BaseDir::Home, parts: seq![".codex"@, "auth.json"@] },
        ),
{
}

} // verus!
