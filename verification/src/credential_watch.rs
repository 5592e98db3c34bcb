//! Watching credentials for changes: a snapshot of what can be seen of them from outside,
//! which is compared with an earlier one.

use vstd::prelude::*;

use crate::credentials::CredentialSource;
use crate::text;
use crate::wsl;

verus! {

/// Which credentials are watched.
#[derive(Clone, Copy, Debug, PartialEq, Eq, Structural)]
pub enum CredentialWatchMode {
    /// The first ones that are found.
    ActiveSource,
    /// Every source that there may be.
    AllSources,
}

/// What can be seen of the watched credentials: one signature per source, sorted.
pub type CredentialWatchSnapshot = Vec<String>;

/// What is done next to find the sources that are watched.
#[derive(Clone, Copy, Debug, PartialEq, Eq, Structural)]
pub enum WatchStep {
    /// Look for the first credentials.
    FindFirst,
    /// Watch the source of the credentials that were found.
    WatchActive,
    /// Watch all known sources.
    WatchAll,
}

/// Decides which sources are watched. `active_found` tells whether credentials were found,
/// once they were looked for. Where the active source is to be watched and there is none,
/// all are, so that new credentials are noticed wherever they appear.
pub fn watched_sources(mode: CredentialWatchMode, active_found: Option<bool>) -> (step: WatchStep)
    ensures
        step == match (mode, active_found) {
            (CredentialWatchMode::ActiveSource, None) => WatchStep::FindFirst,
            (CredentialWatchMode::ActiveSource, Some(true)) => WatchStep::WatchActive,
            (CredentialWatchMode::ActiveSource, Some(false)) => WatchStep::WatchAll,
            (CredentialWatchMode::AllSources, _) => WatchStep::WatchAll,
        },
{
    match mode {
        CredentialWatchMode::ActiveSource => match active_found {
            None => WatchStep::FindFirst,
            Some(true) => WatchStep::WatchActive,
            Some(false) => WatchStep::WatchAll,
        },
        CredentialWatchMode::AllSources => WatchStep::WatchAll,
    }
}

/// What can be seen of a file: its size, and when it was modified in seconds since the
/// epoch, if that is known and not before it.
#[derive(Clone, Copy, Debug, PartialEq, Eq, Structural)]
pub struct FileState {
    pub len: u64,
    pub modified_secs: Option<u64>,
}

/// The signature of the credentials file of the Windows user.
pub open spec fn windows_signature(path: Seq<char>, file: Option<FileState>) -> Seq<char> {
    let key = "win:"@ + path;
    match file {
        None => key + "|missing"@,
        Some(state) => key + "|present|"@ + text::decimal(state.len as nat) + "|"@ + text::decimal(
            match state.modified_secs {
                Some(secs) => secs as nat,
                None => 0,
            },
        ),
    }
}

/// Makes the signature of the credentials file of the Windows user at `path`.
pub fn windows_credential_watch_signature(path: &str, file: Option<FileState>) -> (signature: String)
    ensures
        signature@ == windows_signature(path@, file),
{
    let mut signature = text::copy("win:");
    text::append(&mut signature, path);
    match file {
        None => text::append(&mut signature, "|missing"),
        Some(state) => {
            let modified: u64 = match state.modified_secs {
                Some(secs) => secs,
                None => 0,
            };
            text::append(&mut signature, "|present|");
            text::append(&mut signature, text::decimal_text(state.len).as_str());
            text::append(&mut signature, "|");
            text::append(&mut signature, text::decimal_text(modified).as_str());
        },
    }
    signature
}

/// What the command that looks at the credentials file in a distribution came to.
pub enum WatchOutput {
    /// It succeeded and printed this.
    Printed(Vec<u8>),
    /// It failed with the exit status that is written like this.
    Failed(String),
}

/// The signature of the credentials file in a distribution.
pub open spec fn wsl_signature(distro: Seq<char>, output: WatchOutput) -> Seq<char> {
    "wsl:"@ + distro + "|"@ + match output {
        WatchOutput::Printed(bytes) => text::trimmed(wsl::wsl_text(bytes@)),
        WatchOutput::Failed(status) => "status-"@ + status@,
    }
}

/// Makes the signature of the credentials file in a distribution. There is none if the
/// command could not be run, or not in time.
pub fn wsl_credential_watch_signature(distro: &str, output: Option<WatchOutput>) -> (signature:
    Option<String>)
    ensures
        match output {
            None => signature is None,
            Some(o) => signature matches Some(s) && s@ == wsl_signature(distro@, o),
        },
{
    let output = output?;
    let state = match output {
        WatchOutput::Printed(bytes) => {
            let printed = wsl::decode_wsl_text(&bytes);
            text::text_of(&text::trim(&text::chars_of(printed.as_str())))
        },
        WatchOutput::Failed(status) => {
            let mut state = text::copy("status-");
            text::append(&mut state, status.as_str());
            state
        },
    };
    let mut signature = text::copy("wsl:");
    text::append(&mut signature, distro);
    text::append(&mut signature, "|");
    text::append(&mut signature, state.as_str());
    Some(signature)
}

/// What was seen of the credentials in a source.
pub enum SeenState {
    /// The file of the Windows user, if there is one.
    File(Option<FileState>),
    /// What the command in the distribution came to, if it could be run.
    Command(Option<WatchOutput>),
}

impl SeenState {
    /// The state is of the given source.
    pub open spec fn is_of(self, source: CredentialSource) -> bool {
        match source {
            CredentialSource::Windows(_) => self is File,
            CredentialSource::Wsl { .. } => self is Command,
        }
    }
}

/// Makes the signature of a source.
pub fn credential_watch_signature(source: &CredentialSource, seen: SeenState) -> (signature: Option<
    String,
>)
    requires
        seen.is_of(*source),
    ensures
        match (*source, seen) {
            (CredentialSource::Windows(path), SeenState::File(file)) => signature matches Some(s)
                && s@ == windows_signature(path@, file),
            (CredentialSource::Wsl { distro }, SeenState::Command(Some(output))) =>
                signature matches Some(s) && s@ == wsl_signature(distro@, output),
            _ => signature is None,
        },
{
    match (source, seen) {
        (CredentialSource::Windows(path), SeenState::File(file)) => Some(
            windows_credential_watch_signature(path.as_str(), file),
        ),
        (CredentialSource::Wsl { distro }, SeenState::Command(output)) =>
            wsl_credential_watch_signature(distro.as_str(), output),
        _ => None,
    }
}

/// A change of the file is noticed: two states with the same signature are both of no file,
/// or of the same size and the same known time.
pub proof fn law_file_change_is_noticed(
    path: Seq<char>,
    before: Option<FileState>,
    after: Option<FileState>,
)
    requires
        windows_signature(path, before) == windows_signature(path, after),
    ensures
        before is Some == after is Some,
        before matches Some(a) ==> (after matches Some(b) ==> {
            &&& a.len == b.len
            &&& a.modified_secs is Some && b.modified_secs is Some ==> a.modified_secs
                == b.modified_secs
        }),
{
    reveal_strlit("|present|");
    reveal_strlit("|missing");
    reveal_strlit("|");
    let key = "win:"@ + path;
    let mark = key.len() as int + 1;
    assert(before is None ==> windows_signature(path, before)[mark] == 'm');
    assert(after is None ==> windows_signature(path, after)[mark] == 'm');
    assert(before is Some ==> windows_signature(path, before)[mark] == 'p');
    assert(after is Some ==> windows_signature(path, after)[mark] == 'p');
    if before is Some && after is Some {
        lemma_present_change(path, before->0, after->0);
    }
}

/// The time in a signature.
spec fn signed_time(state: FileState) -> nat {
    match state.modified_secs {
        Some(secs) => secs as nat,
        None => 0,
    }
}

/// The size and the time can be read off a signature.
proof fn lemma_present_change(path: Seq<char>, a: FileState, b: FileState)
    requires
        windows_signature(path, Some(a)) == windows_signature(path, Some(b)),
    ensures
        a.len == b.len,
        signed_time(a) == signed_time(b),
{
    reveal_strlit("|");
    let head = "win:"@ + path + "|present|"@;
    let la = text::decimal(a.len as nat);
    let lb = text::decimal(b.len as nat);
    let ta = text::decimal(signed_time(a));
    let tb = text::decimal(signed_time(b));
    let ra = la.push('|') + ta;
    let rb = lb.push('|') + tb;
    let whole = windows_signature(path, Some(a));
    assert(whole =~= head + ra);
    assert(whole =~= head + rb);
    assert(ra =~= whole.skip(head.len() as int));
    assert(rb =~= whole.skip(head.len() as int));
    lemma_no_bar(a.len as nat);
    lemma_no_bar(b.len as nat);
    text::lemma_first_joined(la, ta, '|');
    text::lemma_first_joined(lb, tb, '|');
    text::law_decimal_reads_back(a.len as nat);
    text::law_decimal_reads_back(b.len as nat);
    text::law_decimal_reads_back(signed_time(a));
    text::law_decimal_reads_back(signed_time(b));
}

/// A decimal numeral holds no vertical bar.
proof fn lemma_no_bar(n: nat)
    ensures
        !text::decimal(n).contains('|'),
{
    text::law_decimal_reads_back(n);
    let s = text::decimal(n);
    if s.contains('|') {
        let i = choose|i: int| 0 <= i < s.len() && s[i] == '|';
        assert(text::digit(s[i]) < 10);
    }
}

/// The signatures that there are.
pub open spec fn present(signatures: Seq<Option<String>>) -> Set<Seq<char>> {
    Set::new(
        |s: Seq<char>|
            exists|i: int|
                0 <= i < signatures.len() && ((#[trigger] signatures[i]) matches Some(t) && t@ == s),
    )
}

/// The texts of a list, as a set.
pub open spec fn texts(list: Seq<String>) -> Set<Seq<char>> {
    Set::new(|s: Seq<char>| exists|i: int| 0 <= i < list.len() && (#[trigger] list[i])@ == s)
}

/// A list is sorted, and nothing stands in it twice.
pub open spec fn strictly_sorted(list: Seq<String>) -> bool {
    forall|i: int, j: int|
        0 <= i < j < list.len() ==> text::precedes((#[trigger] list[i])@, (#[trigger] list[j])@)
}

/// Puts a signature into a sorted list, unless it is there already.
fn insert_sorted(list: &mut Vec<String>, signature: String)
    requires
        strictly_sorted(old(list)@),
    ensures
        strictly_sorted(final(list)@),
        texts(final(list)@) == texts(old(list)@).insert(signature@),
{
    let mut at: usize = 0;
    while at < list.len() && text::text_precedes(list[at].as_str(), signature.as_str())
        invariant
            at <= list@.len(),
            list@ == old(list)@,
            forall|j: int| 0 <= j < at ==> text::precedes((#[trigger] list@[j])@, signature@),
        decreases list@.len() - at,
    {
        at += 1;
    }
    let ghost before = list@;
    if at < list.len() && text::same_text(list[at].as_str(), signature.as_str()) {
        assert(texts(before).contains(signature@));
        assert(texts(before) =~= texts(before).insert(signature@));
        return;
    }
    proof {
        if at < before.len() {
            text::lemma_precedes_total(before[at as int]@, signature@);
        }
        assert forall|j: int| at <= j < before.len() implies text::precedes(
            signature@,
            (#[trigger] before[j])@,
        ) by {
            if j > at {
                text::lemma_precedes_transitive(signature@, before[at as int]@, before[j]@);
            }
        }
    }
    list.insert(at, signature);
    proof {
        let after = list@;
        assert(after == before.insert(at as int, signature));
        assert forall|i: int, j: int| 0 <= i < j < after.len() implies text::precedes(
            (#[trigger] after[i])@,
            (#[trigger] after[j])@,
        ) by {
            let oi = if i < at {
                i
            } else {
                i - 1
            };
            let oj = if j < at {
                j
            } else {
                j - 1
            };
            if i != at && j != at {
                assert(after[i] == before[oi] && after[j] == before[oj]);
            } else if i == at {
                assert(after[j] == before[oj]);
            } else {
                assert(after[i] == before[oi]);
            }
        }
        assert forall|s: Seq<char>| texts(after).contains(s) == texts(before).insert(
            signature@,
        ).contains(s) by {
            if texts(before).contains(s) {
                let i = choose|i: int| 0 <= i < before.len() && (#[trigger] before[i])@ == s;
                let k = if i < at {
                    i
                } else {
                    i + 1
                };
                assert(after[k] == before[i]);
            }
            if s == signature@ {
                assert(after[at as int]@ == s);
            }
            if texts(after).contains(s) && s != signature@ {
                let i = choose|i: int| 0 <= i < after.len() && (#[trigger] after[i])@ == s;
                let k = if i < at {
                    i
                } else {
                    i - 1
                };
                assert(before[k] == after[i]);
            }
        }
        assert(texts(after) =~= texts(before).insert(signature@));
    }
}

/// Makes a snapshot of the signatures that there are: sorted, each once.
pub fn credential_watch_snapshot(signatures: &Vec<Option<String>>) -> (snapshot:
    CredentialWatchSnapshot)
    ensures
        strictly_sorted(snapshot@),
        texts(snapshot@) == present(signatures@),
{
    let mut snapshot: Vec<String> = Vec::new();
    let mut i: usize = 0;
    assert(texts(snapshot@) =~= present(signatures@.take(0)));
    while i < signatures.len()
        invariant
            i <= signatures@.len(),
            strictly_sorted(snapshot@),
            texts(snapshot@) == present(signatures@.take(i as int)),
        decreases signatures@.len() - i,
    {
        let ghost seen = signatures@.take(i as int);
        let ghost more = signatures@.take(i + 1);
        if let Some(signature) = &signatures[i] {
            insert_sorted(&mut snapshot, text::copy(signature.as_str()));
        }
        proof {
            assert(more =~= seen.push(signatures@[i as int]));
            assert forall|s: Seq<char>| present(more).contains(s) == (present(seen).contains(s) || (
            signatures@[i as int] matches Some(t) && t@ == s)) by {
                if present(seen).contains(s) {
                    let j = choose|j: int|
                        0 <= j < seen.len() && ((#[trigger] seen[j]) matches Some(t) && t@ == s);
                    assert(more[j] == seen[j]);
                }
                if signatures@[i as int] matches Some(t) && t@ == s {
                    assert(more[i as int] == signatures@[i as int]);
                }
            }
            assert(texts(snapshot@) =~= present(more));
        }
        i += 1;
    }
    assert(signatures@.take(signatures@.len() as int) =~= signatures@);
    snapshot
}

/// A snapshot depends on nothing but which signatures there are: two sorted lists of the
/// same texts are the same, so that sources in another order, or seen twice, are no change.
pub proof fn law_snapshot_is_determined(a: Seq<String>, b: Seq<String>)
    requires
        strictly_sorted(a),
        strictly_sorted(b),
        texts(a) == texts(b),
    ensures
        wsl::string_views(a) == wsl::string_views(b),
    decreases a.len(),
{
    if a.len() == 0 {
        if b.len() > 0 {
            assert(texts(b).contains(b[0]@));
            assert(texts(a).contains(b[0]@));
        }
        assert(wsl::string_views(a) =~= wsl::string_views(b));
    } else {
        assert(texts(a).contains(a.last()@)) by {
            assert(a[a.len() - 1]@ == a.last()@);
        }
        let i = choose|i: int| 0 <= i < b.len() && (#[trigger] b[i])@ == a.last()@;
        assert(texts(b).contains(b.last()@)) by {
            assert(b[b.len() - 1]@ == b.last()@);
        }
        let k = choose|k: int| 0 <= k < a.len() && (#[trigger] a[k])@ == b.last()@;
        text::lemma_precedes_total(a.last()@, b.last()@);
        if i < b.len() - 1 {
            assert(text::precedes(b[i]@, b[b.len() - 1]@));
            if k < a.len() - 1 {
                assert(text::precedes(a[k]@, a[a.len() - 1]@));
            }
        }
        assert(a.last()@ == b.last()@);
        let ra = a.drop_last();
        let rb = b.drop_last();
        lemma_without_last(a);
        lemma_without_last(b);
        law_snapshot_is_determined(ra, rb);
        assert(wsl::string_views(a) =~= wsl::string_views(ra).push(a.last()@));
        assert(wsl::string_views(b) =~= wsl::string_views(rb).push(b.last()@));
    }
}

/// The last text of a sorted list stands in it nowhere else.
proof fn lemma_without_last(list: Seq<String>)
    requires
        strictly_sorted(list),
        list.len() > 0,
    ensures
        strictly_sorted(list.drop_last()),
        texts(list.drop_last()) == texts(list).remove(list.last()@),
{
    let rest = list.drop_last();
    assert forall|i: int, j: int| 0 <= i < j < rest.len() implies text::precedes(
        (#[trigger] rest[i])@,
        (#[trigger] rest[j])@,
    ) by {
        assert(rest[i] == list[i] && rest[j] == list[j]);
    }
    assert forall|s: Seq<char>| texts(rest).contains(s) == texts(list).remove(
        list.last()@,
    ).contains(s) by {
        if texts(rest).contains(s) {
            let i = choose|i: int| 0 <= i < rest.len() && (#[trigger] rest[i])@ == s;
            assert(list[i] == rest[i]);
            assert(text::precedes(list[i]@, list[list.len() - 1]@));
            text::lemma_precedes_total(list[i]@, list.last()@);
        }
        if texts(list).contains(s) && s != list.last()@ {
            let i = choose|i: int| 0 <= i < list.len() && (#[trigger] list[i])@ == s;
            assert(rest[i] == list[i]);
        }
    }
    assert(texts(rest) =~= texts(list).remove(list.last()@));
}

/// A signature begins with the kind and the name of its source.
pub proof fn law_signature_names_its_source(
    name: Seq<char>,
    file: Option<FileState>,
    output: WatchOutput,
)
    ensures
        windows_signature(name, file).take(4 + name.len() as int) == "win:"@ + name,
        wsl_signature(name, output).take(5 + name.len() as int) == "wsl:"@ + name + "|"@,
        windows_signature(name, file) != wsl_signature(name, output),
{
    reveal_strlit("win:");
    reveal_strlit("wsl:");
    reveal_strlit("|");
    assert(windows_signature(name, file).take(4 + name.len() as int) =~= "win:"@ + name);
    assert(wsl_signature(name, output).take(5 + name.len() as int) =~= "wsl:"@ + name + "|"@);
    assert(windows_signature(name, file)[1] == 'i');
    assert(wsl_signature(name, output)[1] == 's');
}

/// A change in a distribution is noticed: two outcomes with the same signature that printed
/// something printed the same but for whitespace around it, and two that failed did so with
/// the same status.
pub proof fn law_change_in_a_distro_is_noticed(distro: Seq<char>, a: WatchOutput, b: WatchOutput)
    requires
        wsl_signature(distro, a) == wsl_signature(distro, b),
    ensures
        a matches WatchOutput::Printed(x) ==> (b matches WatchOutput::Printed(y) ==> text::trimmed(
            wsl::wsl_text(x@),
        ) == text::trimmed(wsl::wsl_text(y@))),
        a matches WatchOutput::Failed(x) ==> (b matches WatchOutput::Failed(y) ==> x@ == y@),
{
    let head = "wsl:"@ + distro + "|"@;
    let n = head.len() as int;
    match (a, b) {
        (WatchOutput::Printed(x), WatchOutput::Printed(y)) => {
            assert(text::trimmed(wsl::wsl_text(x@)) =~= wsl_signature(distro, a).skip(n));
            assert(text::trimmed(wsl::wsl_text(y@)) =~= wsl_signature(distro, b).skip(n));
        },
        (WatchOutput::Failed(x), WatchOutput::Failed(y)) => {
            let m = n + "status-"@.len();
            assert(x@ =~= wsl_signature(distro, a).skip(m));
            assert(y@ =~= wsl_signature(distro, b).skip(m));
        },
        _ => {},
    }
}

/// All sources are watched if that is asked for or if no credentials were found; else the
/// source of those that were found; and they are looked for first.
pub proof fn law_watched_sources(
    mode: CredentialWatchMode,
    active_found: Option<bool>,
    step: WatchStep,
)
    requires
        call_ensures(watched_sources, (mode, active_found), step),
    ensures
        step is WatchAll <==> mode is AllSources || active_found == Some(false),
        step is WatchActive <==> mode is ActiveSource && active_found == Some(true),
        step is FindFirst <==> mode is ActiveSource && active_found is None,
{
}

/// A source has a signature unless its command could not be run.
pub proof fn law_every_source_that_was_seen_has_a_signature(
    source: &CredentialSource,
    seen: SeenState,
    signature: Option<String>,
)
    requires
        seen.is_of(*source),
        call_ensures(credential_watch_signature, (source, seen), signature),
    ensures
        signature is None <==> seen == SeenState::Command(None),
{
}

} // verus!
