//! Credentials of Anthropic's command line tool: where they are kept, and what is
//! accepted as one.

use vstd::prelude::*;
use vstd::utf8::*;

use crate::json;
use crate::json::JsonMember;
use crate::text;
use crate::wsl;

verus! {

/// Where credentials are kept: in a file of the Windows user, or in a distribution of
/// the Windows Subsystem for Linux.
#[derive(Clone, Debug)]
pub enum CredentialSource {
    Windows(String),
    Wsl { distro: String },
}

/// The model of a [`CredentialSource`].
pub enum Source {
    Windows(Seq<char>),
    Wsl(Seq<char>),
}

impl View for CredentialSource {
    type V = Source;

    open spec fn view(&self) -> Source {
        match self {
            CredentialSource::Windows(path) => Source::Windows(path@),
            CredentialSource::Wsl { distro } => Source::Wsl(distro@),
        }
    }
}

/// An access token, when it expires (milliseconds since the epoch), and where it is
/// from.
#[derive(Clone, Debug)]
pub struct Credentials {
    pub access_token: String,
    pub expires_at: Option<i64>,
    pub source: CredentialSource,
}

/// The longest access token that is accepted.
pub const MAX_TOKEN_LEN: usize = 8192;

/// What is accepted as an access token: printable ASCII, not empty and not too long.
pub open spec fn acceptable_token(token: Seq<char>) -> bool {
    &&& 0 < token.len() <= MAX_TOKEN_LEN
    &&& forall|i: int| 0 <= i < token.len() ==> ' ' <= #[trigger] token[i] <= '~'
}

/// The access token and its expiry in a credentials document: the string `accessToken`
/// and the integer `expiresAt`, if there is one, of the object `claudeAiOauth`.
pub open spec fn written_token(members: Seq<json::Member>) -> Option<(Seq<char>, Option<i64>)> {
    match json::member_named(members, "claudeAiOauth"@) {
        None => None,
        Some(oauth) => match oauth.fields {
            None => None,
            Some(fields) => match json::field_named(fields, "accessToken"@) {
                None => None,
                Some(field) => match field.text {
                    None => None,
                    Some(token) => Some(
                        (
                            token,
                            match json::field_named(fields, "expiresAt"@) {
                                None => None,
                                Some(expiry) => expiry.integer,
                            },
                        ),
                    ),
                },
            },
        },
    }
}

/// The token and expiry that a credentials document is accepted with.
pub open spec fn accepted_token(members: Seq<json::Member>) -> Option<(Seq<char>, Option<i64>)> {
    match written_token(members) {
        None => None,
        Some(token) => if acceptable_token(token.0) {
            Some(token)
        } else {
            None
        },
    }
}

/// Tests a token (see [`acceptable_token`]).
fn is_acceptable(token: &str) -> (yes: bool)
    ensures
        yes == acceptable_token(token@),
{
    let chars = text::chars_of(token);
    if chars.len() == 0 || chars.len() > MAX_TOKEN_LEN {
        return false;
    }
    let mut i: usize = 0;
    while i < chars.len()
        invariant
            i <= chars@.len(),
            chars@ == token@,
            forall|j: int| 0 <= j < i ==> ' ' <= #[trigger] chars@[j] <= '~',
        decreases chars@.len() - i,
    {
        if !(' ' <= chars[i] && chars[i] <= '~') {
            return false;
        }
        i += 1;
    }
    true
}

/// Takes the credentials out of a credentials document.
pub fn credentials_from_members(
    members: &Vec<JsonMember>,
    source: CredentialSource,
) -> (credentials: Option<Credentials>)
    ensures
        credentials is Some == accepted_token(json::members_view(members@)) is Some,
        credentials matches Some(c) ==> c.source == source && accepted_token(
            json::members_view(members@),
        ) == Some((c.access_token@, c.expires_at)),
{
    let oauth = match json::find_member(members, "claudeAiOauth") {
        Some(oauth) => oauth,
        None => return None,
    };
    let fields = match &oauth.fields {
        Some(fields) => fields,
        None => return None,
    };
    let token = match json::find_field(fields, "accessToken") {
        Some(field) => match &field.text {
            Some(token) => token,
            None => return None,
        },
        None => return None,
    };
    let expires_at = match json::find_field(fields, "expiresAt") {
        Some(field) => field.integer,
        None => None,
    };
    // Reject obviously invalid tokens.
    if !is_acceptable(token.as_str()) {
        return None;
    }
    Some(Credentials { access_token: token.clone(), expires_at, source })
}

/// Reads credentials from the text of a credentials file.
pub fn parse_credentials(content: &str, source: CredentialSource) -> (credentials: Option<
    Credentials,
>)
    ensures
        match json::json_members(content@) {
            None => credentials is None,
            Some(members) => {
                &&& credentials is Some == accepted_token(members) is Some
                &&& credentials matches Some(c) ==> c.source == source && accepted_token(members)
                    == Some((c.access_token@, c.expires_at))
            },
        },
        credentials matches Some(c) ==> acceptable_token(c.access_token@),
{
    match json::read_members(content) {
        Some(members) => credentials_from_members(&members, source),
        None => None,
    }
}

/// What was found out so far about the credentials file of the Windows user.
#[derive(Clone, Copy, Debug, PartialEq, Eq, Structural)]
pub enum WindowsFile {
    /// The home directory is not known, so that there is no file.
    NoHome,
    /// Nothing yet.
    Unseen,
    /// Whether the file, and whether the directory that it is in, is a symbolic link.
    Seen { file_is_link: bool, dir_is_link: bool },
}

/// What is done next to read the credentials of the Windows user.
#[derive(Clone, Copy, Debug, PartialEq, Eq, Structural)]
pub enum WindowsReadStep {
    /// There is nothing to read.
    Nothing,
    /// Look for symbolic links.
    CheckLinks,
    /// Refuse to read: a symbolic link was found.
    Refuse,
    /// Read the file and parse it.
    Read,
}

/// Decides what is done next to read the credentials of the Windows user. Symbolic links
/// are not followed: one could redirect the read to a place that someone else controls.
pub fn read_windows_credentials(file: WindowsFile) -> (step: WindowsReadStep)
    ensures
        step == match file {
            WindowsFile::NoHome => WindowsReadStep::Nothing,
            WindowsFile::Unseen => WindowsReadStep::CheckLinks,
            WindowsFile::Seen { file_is_link, dir_is_link } => if file_is_link || dir_is_link {
                WindowsReadStep::Refuse
            } else {
                WindowsReadStep::Read
            },
        },
{
    match file {
        WindowsFile::NoHome => WindowsReadStep::Nothing,
        WindowsFile::Unseen => WindowsReadStep::CheckLinks,
        WindowsFile::Seen { file_is_link, dir_is_link } => {
            if file_is_link || dir_is_link {
                WindowsReadStep::Refuse
            } else {
                WindowsReadStep::Read
            }
        },
    }
}

/// `credentials` are what is accepted of the text of a credentials file, if it could be
/// read.
pub open spec fn read_from(
    content: Option<Seq<char>>,
    source: Source,
    credentials: Option<Credentials>,
) -> bool {
    let token = match content {
        None => None,
        Some(text) => match json::json_members(text) {
            None => None,
            Some(members) => accepted_token(members),
        },
    };
    match credentials {
        None => token is None,
        Some(c) => c.source@ == source && token == Some((c.access_token@, c.expires_at)),
    }
}

/// `String::from_utf8` takes bytes that are valid UTF-8 for the text that they encode, and
/// fails on all others.
#[verifier::external_body]
fn decode_utf8_strict(bytes: Vec<u8>) -> (s: Option<String>)
    ensures
        s is Some == valid_utf8(bytes@),
        s matches Some(text) ==> text@ == decode_utf8(bytes@),
{
    String::from_utf8(bytes).ok()
}

/// The text that a program printed, if it succeeded and printed UTF-8.
pub open spec fn printed_text(output: Option<(bool, Seq<u8>)>) -> Option<Seq<char>> {
    match output {
        Some((true, bytes)) => if valid_utf8(bytes) {
            Some(decode_utf8(bytes))
        } else {
            None
        },
        _ => None,
    }
}

/// Reads the credentials in a distribution from what printing them there came to: whether
/// the command succeeded, and its output.
pub fn read_wsl_credentials(distro: &str, output: Option<(bool, Vec<u8>)>) -> (credentials: Option<
    Credentials,
>)
    ensures
        read_from(
            printed_text(
                match output {
                    Some((success, bytes)) => Some((success, bytes@)),
                    None => None,
                },
            ),
            Source::Wsl(distro@),
            credentials,
        ),
        credentials matches Some(c) ==> acceptable_token(c.access_token@),
{
    let bytes = match output {
        Some((true, bytes)) => bytes,
        _ => return None,
    };
    let content = match decode_utf8_strict(bytes) {
        Some(content) => content,
        None => return None,
    };
    parse_credentials(content.as_str(), CredentialSource::Wsl { distro: text::copy(distro) })
}

/// Reads the credentials of the Windows user from the text of their file, if it could be
/// read.
pub fn read_file_credentials(path: &str, content: Option<&str>) -> (credentials: Option<
    Credentials,
>)
    ensures
        read_from(
            match content {
                Some(text) => Some(text@),
                None => None,
            },
            Source::Windows(path@),
            credentials,
        ),
        credentials matches Some(c) ==> acceptable_token(c.access_token@),
{
    match content {
        Some(text) => parse_credentials(text, CredentialSource::Windows(text::copy(path))),
        None => None,
    }
}

/// What reading a source came to.
pub enum SourceContent {
    /// The text of the file of the Windows user, if it could be read.
    File(Option<String>),
    /// Whether the command in the distribution succeeded, and its output, if it could be
    /// run.
    Printed(Option<(bool, Vec<u8>)>),
}

impl SourceContent {
    /// The text of the credentials file, if there is one.
    pub open spec fn content(self) -> Option<Seq<char>> {
        match self {
            SourceContent::File(Some(text)) => Some(text@),
            SourceContent::File(None) => None,
            SourceContent::Printed(Some((success, bytes))) => printed_text(Some((success, bytes@))),
            SourceContent::Printed(None) => None,
        }
    }

    /// The content is of the given source.
    pub open spec fn is_of(self, source: CredentialSource) -> bool {
        match source {
            CredentialSource::Windows(_) => self is File,
            CredentialSource::Wsl { .. } => self is Printed,
        }
    }
}

/// Reads the credentials that a source was found to hold.
pub fn read_credentials_from_source(source: &CredentialSource, content: SourceContent) -> (credentials:
    Option<Credentials>)
    requires
        content.is_of(*source),
    ensures
        read_from(content.content(), source@, credentials),
        credentials matches Some(c) ==> acceptable_token(c.access_token@),
{
    match (source, content) {
        (CredentialSource::Windows(path), SourceContent::File(text)) => match text {
            Some(text) => read_file_credentials(path.as_str(), Some(text.as_str())),
            None => None,
        },
        (CredentialSource::Wsl { distro }, SourceContent::Printed(output)) => read_wsl_credentials(
            distro.as_str(),
            output,
        ),
        _ => None,
    }
}

/// The tokens of the Codex command line tool.
#[derive(Clone, Debug)]
pub struct CodexTokenData {
    pub access_token: String,
    pub account_id: Option<String>,
}

/// The Codex tokens that are used: those of the credentials file, if it has some and the
/// access token is not empty.
pub fn read_codex_credentials(tokens: Option<CodexTokenData>) -> (used: Option<CodexTokenData>)
    ensures
        used == match tokens {
            Some(t) => if t.access_token@.len() > 0 {
                tokens
            } else {
                None
            },
            None => None,
        },
{
    match tokens {
        Some(t) => {
            if t.access_token.as_str().is_empty() {
                None
            } else {
                Some(t)
            }
        },
        None => None,
    }
}

/// The sources that credentials may be in: the file of the Windows user, if its place is
/// known, and every distribution.
pub open spec fn known_sources(windows: Option<Seq<char>>, distros: Seq<Seq<char>>) -> Seq<Source> {
    let of_wsl = distros.map_values(|distro: Seq<char>| Source::Wsl(distro));
    match windows {
        Some(path) => seq![Source::Windows(path)] + of_wsl,
        None => of_wsl,
    }
}

/// The models of a list of sources.
pub open spec fn source_views(sources: Seq<CredentialSource>) -> Seq<Source> {
    sources.map_values(|source: CredentialSource| source@)
}

/// Lists the sources that credentials may be in.
pub fn all_known_credential_sources(windows: Option<&str>, distros: &Vec<String>) -> (sources: Vec<
    CredentialSource,
>)
    ensures
        source_views(sources@) == known_sources(
            match windows {
                Some(path) => Some(path@),
                None => None,
            },
            wsl::string_views(distros@),
        ),
{
    let mut sources: Vec<CredentialSource> = Vec::new();
    if let Some(path) = windows {
        sources.push(CredentialSource::Windows(text::copy(path)));
    }
    let ghost first = source_views(sources@);
    let ghost of_wsl = wsl::string_views(distros@).map_values(
        |distro: Seq<char>| Source::Wsl(distro),
    );
    let mut i: usize = 0;
    while i < distros.len()
        invariant
            i <= distros@.len(),
            of_wsl == wsl::string_views(distros@).map_values(
                |distro: Seq<char>| Source::Wsl(distro),
            ),
            source_views(sources@) == first + of_wsl.take(i as int),
        decreases distros@.len() - i,
    {
        let ghost before = sources@;
        sources.push(CredentialSource::Wsl { distro: text::copy(distros[i].as_str()) });
        proof {
            let last = sources@.last();
            assert(source_views(sources@) =~= source_views(before).push(last@));
            assert(of_wsl.take(i + 1) =~= of_wsl.take(i as int).push(of_wsl[i as int]));
        }
        i += 1;
    }
    assert(of_wsl.take(distros@.len() as int) =~= of_wsl);
    assert(windows matches Some(path) ==> first =~= seq![Source::Windows(path@)]);
    assert(windows is None ==> first + of_wsl =~= of_wsl);
    sources
}

/// What is accepted of a credentials document with the object `claudeAiOauth` at `at`, whose
/// first `accessToken` is the field at `token` and whose first `expiresAt` is the one at
/// `expiry`, or beyond the end if there is none. It is accepted exactly if the token is a
/// string of 1 to 8192 characters from the space to the tilde; then the token is that string,
/// and the expiry the integer that is written for it, if there is one.
pub proof fn law_token_is_accepted(
    members: Seq<json::Member>,
    fields: Seq<json::Field>,
    at: int,
    token: int,
    expiry: int,
)
    requires
        0 <= at < members.len(),
        members[at] == (json::Member { name: "claudeAiOauth"@, fields: Some(fields) }),
        forall|j: int| 0 <= j < at ==> (#[trigger] members[j]).name != "claudeAiOauth"@,
        0 <= token < fields.len(),
        fields[token].name == "accessToken"@,
        forall|j: int| 0 <= j < token ==> (#[trigger] fields[j]).name != "accessToken"@,
        0 <= expiry <= fields.len(),
        expiry < fields.len() ==> fields[expiry].name == "expiresAt"@,
        forall|j: int| 0 <= j < expiry ==> (#[trigger] fields[j]).name != "expiresAt"@,
    ensures
        accepted_token(members) is Some <==> (fields[token].text matches Some(s) && 1 <= s.len()
            <= 8192 && forall|i: int|
            0 <= i < s.len() ==> 0x20 <= (#[trigger] s[i]) as int && s[i] as int <= 0x7E),
        accepted_token(members) matches Some(accepted) ==> {
            &&& fields[token].text == Some(accepted.0)
            &&& expiry < fields.len() ==> accepted.1 == fields[expiry].integer
            &&& expiry == fields.len() ==> accepted.1 is None
        },
{
    json::law_member_named_is_the_first(members, "claudeAiOauth"@, at);
    json::law_field_named_is_the_first(fields, "accessToken"@, token);
    json::law_field_named_is_the_first(fields, "expiresAt"@, expiry);
    if let Some(s) = fields[token].text {
        if acceptable_token(s) {
            assert forall|i: int| 0 <= i < s.len() implies 0x20 <= (#[trigger] s[i]) as int
                && s[i] as int <= 0x7E by {
                assert(' ' <= s[i] <= '~');
            }
        } else if 1 <= s.len() <= 8192 {
            let i = choose|i: int| 0 <= i < s.len() && !(' ' <= #[trigger] s[i] <= '~');
            assert(!(0x20 <= s[i] as int && s[i] as int <= 0x7E));
        }
    }
}

/// Nothing is accepted of a document without the object `claudeAiOauth`, or whose object has
/// no `accessToken`.
pub proof fn law_document_without_token_is_refused(members: Seq<json::Member>)
    requires
        forall|j: int|
            0 <= j < members.len() && (#[trigger] members[j]).name == "claudeAiOauth"@ ==> (
            members[j].fields matches Some(fields) ==> forall|k: int|
                0 <= k < fields.len() ==> (#[trigger] fields[k]).name != "accessToken"@),
    ensures
        accepted_token(members) is None,
{
    lemma_member_is_there(members, "claudeAiOauth"@);
    if let Some(member) = json::member_named(members, "claudeAiOauth"@) {
        if let Some(fields) = member.fields {
            json::law_field_named_is_the_first(fields, "accessToken"@, fields.len() as int);
        }
    }
}

/// A member that is found by a name is there and has the name.
proof fn lemma_member_is_there(members: Seq<json::Member>, name: Seq<char>)
    ensures
        json::member_named(members, name) matches Some(member) ==> exists|j: int|
            0 <= j < members.len() && #[trigger] members[j] == member && member.name == name,
    decreases members.len(),
{
    if members.len() > 0 && members[0].name != name {
        let rest = members.drop_first();
        lemma_member_is_there(rest, name);
        if let Some(member) = json::member_named(rest, name) {
            let j = choose|j: int|
                0 <= j < rest.len() && #[trigger] rest[j] == member && member.name == name;
            assert(members[j + 1] == member);
        }
    }
}

/// What is printed counts exactly if the program succeeded and printed UTF-8, and credentials
/// that are read have the token and the expiry that their text is accepted with.
pub proof fn law_read_credentials_are_the_written_ones(
    content: Option<Seq<char>>,
    source: Source,
    credentials: Option<Credentials>,
    success: bool,
    bytes: Seq<u8>,
)
    requires
        read_from(content, source, credentials),
    ensures
        printed_text(Some((success, bytes))) is Some <==> success && valid_utf8(bytes),
        printed_text(Some((success, bytes))) matches Some(s) ==> s == decode_utf8(bytes),
        printed_text(None) is None,
        credentials is Some <==> (content matches Some(s) && (json::json_members(
            s,
        ) matches Some(members) && accepted_token(members) is Some)),
        credentials matches Some(c) ==> c.source@ == source && accepted_token(
            json::json_members(content.unwrap()).unwrap(),
        ) == Some((c.access_token@, c.expires_at)),
{
}

/// The known sources are the file of the Windows user first, if its place is known, and then
/// the distributions in their order, each once.
pub proof fn law_known_sources_in_order(windows: Option<Seq<char>>, distros: Seq<Seq<char>>, i: int)
    requires
        0 <= i < distros.len(),
    ensures
        known_sources(windows, distros).len() == distros.len() + (if windows is Some {
            1int
        } else {
            0
        }),
        windows matches Some(path) ==> {
            &&& known_sources(windows, distros)[0] == Source::Windows(path)
            &&& known_sources(windows, distros)[i + 1] == Source::Wsl(distros[i])
        },
        windows is None ==> known_sources(windows, distros)[i] == Source::Wsl(distros[i]),
{
}

/// The file of the Windows user is read only when it was found out that neither it nor its
/// directory is a symbolic link, and it is read then; nothing is read without a home
/// directory.
pub proof fn law_links_are_not_followed(file: WindowsFile, step: WindowsReadStep)
    requires
        call_ensures(read_windows_credentials, (file,), step),
    ensures
        step is Read <==> file == (WindowsFile::Seen { file_is_link: false, dir_is_link: false }),
        step is CheckLinks <==> file is Unseen,
        step is Nothing <==> file is NoHome,
{
}

/// The Codex tokens are used exactly if there is an access token that is not empty, and then
/// as they are.
pub proof fn law_codex_tokens_are_used_as_they_are(
    tokens: Option<CodexTokenData>,
    used: Option<CodexTokenData>,
)
    requires
        call_ensures(read_codex_credentials, (tokens,), used),
    ensures
        used is Some <==> (tokens matches Some(t) && t.access_token@.len() >= 1),
        used is Some ==> used == tokens,
{
}

} // verus!
