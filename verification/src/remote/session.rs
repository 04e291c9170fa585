//! The sessions this machine has started elsewhere.
//!
//! A session is a record of what was started where, with the credential that
//! guards it in a file beside it. Both are named after the machine and the port,
//! so serving the same machine and port again meets the same name.

use vstd::prelude::*;
use crate::failure::{headline_of, plain, told, within, Failure};
use crate::order::{ascending, sort, sorted};
use crate::text::{
    ascii_alphanumeric, chars_of, comes_before, contains, dec, ends_with, has_text,
    is_ascii_alphanumeric, join, joined, lemma_has_text, lower, lower_char, occurs_at, push_number,
    same, same_ignoring_case, text_before, text_of, texts, to_lower, to_lower_char, trim_of,
    trimmed_end_of, trimmed_start_of,
};

verus! {

#[derive(Debug, PartialEq, Eq)]
pub struct RemoteSessionRecord {
    pub session_id: String,
    /// What the user named the machine.
    pub target: String,
    /// The machine's name on the tailnet.
    pub peer_host: String,
    pub ssh_port: Option<u16>,
    pub model: String,
    pub remote_service_id: String,
    /// How the tool is invoked there.
    pub remote_cli: String,
    pub remote_port: u16,
    pub tailnet_port: u16,
    pub base_url: String,
    pub created_at_unix_ms: u128,
}

pub struct SessionView {
    pub session_id: Seq<char>,
    pub target: Seq<char>,
    pub peer_host: Seq<char>,
    pub ssh_port: Option<u16>,
    pub model: Seq<char>,
    pub remote_service_id: Seq<char>,
    pub remote_cli: Seq<char>,
    pub remote_port: u16,
    pub tailnet_port: u16,
    pub base_url: Seq<char>,
    pub created_at_unix_ms: u128,
}

impl View for RemoteSessionRecord {
    type V = SessionView;

    open spec fn view(&self) -> SessionView {
        SessionView {
            session_id: self.session_id@,
            target: self.target@,
            peer_host: self.peer_host@,
            ssh_port: self.ssh_port,
            model: self.model@,
            remote_service_id: self.remote_service_id@,
            remote_cli: self.remote_cli@,
            remote_port: self.remote_port,
            tailnet_port: self.tailnet_port,
            base_url: self.base_url@,
            created_at_unix_ms: self.created_at_unix_ms,
        }
    }
}

impl Clone for RemoteSessionRecord {
    fn clone(&self) -> (r: RemoteSessionRecord)
        ensures
            r@ == self@,
    {
        RemoteSessionRecord {
            session_id: self.session_id.clone(),
            target: self.target.clone(),
            peer_host: self.peer_host.clone(),
            ssh_port: self.ssh_port,
            model: self.model.clone(),
            remote_service_id: self.remote_service_id.clone(),
            remote_cli: self.remote_cli.clone(),
            remote_port: self.remote_port,
            tailnet_port: self.tailnet_port,
            base_url: self.base_url.clone(),
            created_at_unix_ms: self.created_at_unix_ms,
        }
    }
}

pub open spec fn session_views(s: Seq<RemoteSessionRecord>) -> Seq<SessionView> {
    s.map_values(|r: RemoteSessionRecord| r@)
}

// ---------------------------------------------------------------------------
// Names
// ---------------------------------------------------------------------------

/// A character as it stands in a session's name: small letters, digits and
/// hyphens stay, everything else becomes a hyphen.
pub open spec fn name_char(c: char) -> char {
    if ascii_alphanumeric(c) || c == '-' {
        lower_char(c)
    } else {
        '-'
    }
}

/// A host as it stands in a session's name, without hyphens at either end.
pub open spec fn name_host(host: Seq<char>) -> Seq<char> {
    trimmed_end_of(trimmed_start_of(host.map_values(|c: char| name_char(c)), '-'), '-')
}

pub open spec fn session_name(peer_host: Seq<char>, remote_port: u16) -> Seq<char> {
    "remote-"@ + name_host(peer_host) + "-"@ + dec(remote_port as nat)
}

/// The name of the file a session is recorded in.
pub open spec fn record_file(session_id: Seq<char>) -> Seq<char> {
    session_id + ".json"@
}

/// The name of the file a session's credential is kept in.
pub open spec fn key_file(session_id: Seq<char>) -> Seq<char> {
    session_id + ".endpoint-key"@
}

impl RemoteSessionRecord {
    /// The name of the session on a machine and port: the same one each time.
    pub fn id_for(peer_host: &str, remote_port: u16) -> (r: String)
        ensures
            r@ == session_name(peer_host@, remote_port),
    {
        let chars = chars_of(peer_host);
        let mut host = String::new();
        let mut i: usize = 0;
        while i < chars.len()
            invariant
                i <= chars@.len(),
                host@ == chars@.subrange(0, i as int).map_values(|c: char| name_char(c)),
            decreases chars@.len() - i,
        {
            let c = chars[i];
            host.push(
                if is_ascii_alphanumeric(c) || c == '-' {
                    to_lower_char(c)
                } else {
                    '-'
                },
            );
            i += 1;
            assert(host@ =~= chars@.subrange(0, i as int).map_values(|c: char| name_char(c)));
        }
        assert(chars@.subrange(0, chars@.len() as int) =~= chars@);
        let mut out = "remote-".to_owned();
        out.push_str(trim_of(host.as_str(), '-').as_str());
        out.push_str("-");
        push_number(&mut out, remote_port as u128);
        out
    }

    /// What a session name that was checked and found unusable is reported as.
    pub fn validate_id(session_id: &str, verdict: Result<(), Failure>) -> (r: Result<(), Failure>)
        ensures
            told(r) == (match verdict {
                Ok(_) => Ok::<(), Seq<Seq<char>>>(()),
                Err(e) => Err(unusable_id(session_id@, e@)),
            }),
    {
        match verdict {
            Ok(_) => Ok(()),
            Err(e) => {
                let mut message = "unusable remote session id `".to_owned();
                message.push_str(session_id);
                message.push_str("`");
                Err(e.context(message))
            },
        }
    }

    pub fn record_file_name(session_id: &str) -> (r: String)
        ensures
            r@ == record_file(session_id@),
    {
        let mut out = session_id.to_owned();
        out.push_str(".json");
        out
    }

    pub fn key_file_name(session_id: &str) -> (r: String)
        ensures
            r@ == key_file(session_id@),
    {
        let mut out = session_id.to_owned();
        out.push_str(".endpoint-key");
        out
    }
}

/// What is already on disk under a session's name.
#[derive(Debug, Clone, Copy, PartialEq, Eq)]
pub struct NameOnDisk {
    pub record: bool,
    pub key: bool,
}

/// Whether anything sits under the name: a record, or a credential alone.
pub fn name_taken(name: NameOnDisk) -> (r: bool)
    ensures
        r == (name.record || name.key),
{
    name.record || name.key
}

/// What came of writing a credential under a name nothing may hold yet.
pub enum KeyClaim {
    Stored,
    /// Something already holds the name.
    Held,
    Failed(Failure),
}

// ---------------------------------------------------------------------------
// The recorded sessions
// ---------------------------------------------------------------------------

/// A file of the sessions folder: what reading a record from it came to, and
/// whether the id in that record may be part of a path.
pub struct RecordFile {
    pub name: String,
    pub path: String,
    pub read: Result<RemoteSessionRecord, Failure>,
    pub verdict: Result<(), Failure>,
}

/// Whether a file of that name holds a record: what an interrupted write leaves
/// behind, and a credential, are called otherwise.
pub open spec fn names_a_record(name: Seq<char>) -> bool {
    name.len() > 5 && occurs_at(name, ".json"@, name.len() - 5)
}

pub fn is_record_name(name: &str) -> (r: bool)
    ensures
        r == names_a_record(name@),
{
    let chars = chars_of(name);
    let n: usize = chars.len();
    proof {
        reveal_strlit(".json");
    }
    if n <= 5 {
        return false;
    }
    let tail = text_of(&chars, n - 5, n);
    same(tail.as_str(), ".json")
}

pub open spec fn unusable_id(session_id: Seq<char>, why: Seq<Seq<char>>) -> Seq<Seq<char>> {
    within("unusable remote session id `"@ + session_id + "`"@, why)
}

/// The record a file gives: one whose id may not be part of a path is refused,
/// since a session's files are deleted by that id.
pub open spec fn record_given(file: RecordFile) -> Result<SessionView, Seq<Seq<char>>> {
    match file.read {
        Err(e) => Err(e@),
        Ok(record) => match file.verdict {
            Ok(_) => Ok(record@),
            Err(why) => Err(
                within("refusing to act on "@ + file.path@, unusable_id(record@.session_id, why@)),
            ),
        },
    }
}

/// Takes the record out of a file.
pub fn read_one(file: RecordFile) -> (r: Result<RemoteSessionRecord, Failure>)
    ensures
        (match r {
            Ok(record) => Ok(record@),
            Err(e) => Err(e@),
        }) == record_given(file),
{
    match file.read {
        Err(e) => Err(e),
        Ok(record) => match RemoteSessionRecord::validate_id(
            record.session_id.as_str(),
            file.verdict,
        ) {
            Ok(_) => Ok(record),
            Err(e) => {
                let mut message = "refusing to act on ".to_owned();
                message.push_str(file.path.as_str());
                Err(e.context(message))
            },
        },
    }
}

/// The records that the files give, in order.
pub open spec fn readable(files: Seq<RecordFile>) -> Seq<SessionView>
    decreases files.len(),
{
    if files.len() == 0 {
        seq![]
    } else {
        let before = readable(files.drop_last());
        if !names_a_record(files.last().name@) {
            before
        } else {
            match record_given(files.last()) {
                Ok(record) => before.push(record),
                Err(_) => before,
            }
        }
    }
}

/// What is said of each record that could not be read.
pub open spec fn unreadable_warnings(files: Seq<RecordFile>) -> Seq<Seq<char>>
    decreases files.len(),
{
    if files.len() == 0 {
        seq![]
    } else {
        let before = unreadable_warnings(files.drop_last());
        if !names_a_record(files.last().name@) {
            before
        } else {
            match record_given(files.last()) {
                Ok(_) => before,
                Err(e) => before.push(
                    "warning: ignoring unreadable remote session "@ + files.last().path@ + ": "@
                        + headline_of(e),
                ),
            }
        }
    }
}

pub open spec fn session_order() -> spec_fn(SessionView, SessionView) -> bool {
    |a: SessionView, b: SessionView| !text_before(b.session_id, a.session_id)
}

/// The sessions whose records can be read and acted on, by name, and a warning for
/// each of the others: one broken record must not hide a session that is still up.
/// Files that hold no record are passed over.
pub fn load_all(files: Vec<RecordFile>) -> (r: (Vec<RemoteSessionRecord>, Vec<String>))
    ensures
        session_views(r.0@) == sorted(readable(files@), session_order()),
        texts(r.1@) == unreadable_warnings(files@),
{
    let mut rest = files;
    let ghost all = files@;
    let n: usize = rest.len();
    let mut records: Vec<RemoteSessionRecord> = Vec::new();
    let mut warnings: Vec<String> = Vec::new();
    let mut i: usize = 0;
    assert(all.subrange(0, all.len() as int) =~= all);
    assert(all.subrange(0, 0) =~= seq![]);
    assert(session_views(records@) =~= seq![]);
    assert(texts(warnings@) =~= seq![]);
    while i < n
        invariant
            i <= n,
            n == all.len(),
            rest@ == all.subrange(i as int, n as int),
            session_views(records@) == readable(all.subrange(0, i as int)),
            texts(warnings@) == unreadable_warnings(all.subrange(0, i as int)),
        decreases n - i,
    {
        let file = rest.remove(0);
        assert(rest@ =~= all.subrange(i + 1, n as int));
        assert(all.subrange(0, i + 1).drop_last() =~= all.subrange(0, i as int));
        assert(all.subrange(0, i + 1).last() == file);
        if !is_record_name(file.name.as_str()) {
            i += 1;
            continue;
        }
        let path = file.path.clone();
        match read_one(file) {
            Ok(record) => {
                let ghost before = session_views(records@);
                records.push(record);
                assert(session_views(records@) =~= before.push(record@));
            },
            Err(e) => {
                let mut message = "warning: ignoring unreadable remote session ".to_owned();
                message.push_str(path.as_str());
                message.push_str(": ");
                message.push_str(e.headline().as_str());
                let ghost before = texts(warnings@);
                warnings.push(message);
                assert(texts(warnings@) =~= before.push(message@));
            },
        }
        i += 1;
    }
    let ghost le = |a: RemoteSessionRecord, b: RemoteSessionRecord|
        !text_before(b@.session_id, a@.session_id);
    let ghost unsorted = records@;
    let no_later = |a: &RemoteSessionRecord, b: &RemoteSessionRecord| -> (o: bool)
        ensures
            o == !text_before(b@.session_id, a@.session_id),
    {
        !comes_before(b.session_id.as_str(), a.session_id.as_str())
    };
    let records = sort(records, no_later, Ghost(le));
    proof {
        crate::order::lemma_sorted_map(
            unsorted,
            le,
            |r: RemoteSessionRecord| r@,
            session_order(),
        );
    }
    (records, warnings)
}

/// How closely a text has to fit a session to mean it.
#[derive(Debug, Clone, Copy, PartialEq, Eq, Structural)]
pub enum Fit {
    /// It is the session's name.
    Name,
    /// It is the session's name but for the case of its letters.
    NameInAnyCase,
    /// It stands in the session's target, machine or name.
    Fragment,
}

pub open spec fn fits(s: SessionView, needle: Seq<char>, how: Fit) -> bool {
    match how {
        Fit::Name => s.session_id == needle,
        Fit::NameInAnyCase => lower(s.session_id) == lower(needle),
        Fit::Fragment => has_text(lower(s.target), lower(needle)) || has_text(
            lower(s.peer_host),
            lower(needle),
        ) || has_text(lower(s.session_id), lower(needle)),
    }
}

fn does_fit(s: &RemoteSessionRecord, needle: &str, how: Fit) -> (r: bool)
    ensures
        r == fits(s@, needle@, how),
{
    match how {
        Fit::Name => same(s.session_id.as_str(), needle),
        Fit::NameInAnyCase => same_ignoring_case(s.session_id.as_str(), needle),
        Fit::Fragment => {
            let lowered = to_lower(needle);
            contains(to_lower(s.target.as_str()).as_str(), lowered.as_str()) || contains(
                to_lower(s.peer_host.as_str()).as_str(),
                lowered.as_str(),
            ) || contains(to_lower(s.session_id.as_str()).as_str(), lowered.as_str())
        },
    }
}

pub open spec fn fitting(sessions: Seq<SessionView>, needle: Seq<char>, how: Fit) -> Seq<
    SessionView,
>
    decreases sessions.len(),
{
    if sessions.len() == 0 {
        seq![]
    } else if fits(sessions.last(), needle, how) {
        fitting(sessions.drop_last(), needle, how).push(sessions.last())
    } else {
        fitting(sessions.drop_last(), needle, how)
    }
}

pub open spec fn ids(sessions: Seq<SessionView>) -> Seq<Seq<char>> {
    sessions.map_values(|s: SessionView| s.session_id)
}

/// The sessions a text can mean: those of that name, else those of that name in
/// another case, else those it stands in.
pub open spec fn meant(sessions: Seq<SessionView>, needle: Seq<char>) -> Seq<SessionView> {
    if fitting(sessions, needle, Fit::Name).len() > 0 {
        fitting(sessions, needle, Fit::Name)
    } else if fitting(sessions, needle, Fit::NameInAnyCase).len() > 0 {
        fitting(sessions, needle, Fit::NameInAnyCase)
    } else {
        fitting(sessions, needle, Fit::Fragment)
    }
}

/// The session a text means. One that can mean several is refused.
pub open spec fn chosen(sessions: Seq<SessionView>, needle: Seq<char>) -> Result<
    SessionView,
    Seq<Seq<char>>,
> {
    let several = meant(sessions, needle);
    if sessions.len() == 0 {
        Err(plain("no remote sessions are recorded on this machine"@))
    } else if several.len() == 0 {
        Err(
            plain(
                "no remote session matches `"@ + needle + "`. Recorded sessions: "@ + joined(
                    ids(sessions),
                    ", "@,
                ),
            ),
        )
    } else if several.len() == 1 {
        Ok(several[0])
    } else {
        Err(
            plain(
                "`"@ + needle + "` matches more than one remote session: "@ + joined(
                    ids(several),
                    ", "@,
                ) + "\nName one of them exactly."@,
            ),
        )
    }
}

fn find_fitting(sessions: &Vec<RemoteSessionRecord>, needle: &str, how: Fit) -> (r: Vec<usize>)
    ensures
        r@.len() == fitting(session_views(sessions@), needle@, how).len(),
        forall|j: int|
            0 <= j < r@.len() ==> {
                &&& (#[trigger] r@[j]) < sessions@.len()
                &&& fitting(session_views(sessions@), needle@, how)[j]
                    == sessions@[r@[j] as int]@
            },
{
    let ghost all = session_views(sessions@);
    let mut found: Vec<usize> = Vec::new();
    let mut i: usize = 0;
    assert(all.subrange(0, 0) =~= seq![]);
    while i < sessions.len()
        invariant
            i <= sessions@.len(),
            all == session_views(sessions@),
            found@.len() == fitting(all.subrange(0, i as int), needle@, how).len(),
            forall|j: int|
                0 <= j < found@.len() ==> {
                    &&& (#[trigger] found@[j]) < sessions@.len()
                    &&& fitting(all.subrange(0, i as int), needle@, how)[j]
                        == sessions@[found@[j] as int]@
                },
        decreases sessions@.len() - i,
    {
        assert(all.subrange(0, i + 1).drop_last() =~= all.subrange(0, i as int));
        assert(all.subrange(0, i + 1).last() == sessions@[i as int]@);
        if does_fit(&sessions[i], needle, how) {
            found.push(i);
        }
        i += 1;
    }
    assert(all.subrange(0, all.len() as int) =~= all);
    found
}

fn list_ids(sessions: &Vec<RemoteSessionRecord>) -> (r: Vec<String>)
    ensures
        texts(r@) == ids(session_views(sessions@)),
{
    let mut every: Vec<String> = Vec::new();
    let mut i: usize = 0;
    while i < sessions.len()
        invariant
            i <= sessions@.len(),
            every@.len() == i,
            forall|j: int| 0 <= j < i ==> (#[trigger] every@[j])@ == sessions@[j]@.session_id,
        decreases sessions@.len() - i,
    {
        every.push(sessions[i].session_id.clone());
        i += 1;
    }
    assert(texts(every@) =~= ids(session_views(sessions@)));
    every
}

/// Finds the session meant by a name or a fragment. A text that could mean
/// several is refused: stopping the wrong one takes down a running model.
pub fn resolve(sessions: &Vec<RemoteSessionRecord>, needle: &str) -> (r: Result<
    RemoteSessionRecord,
    Failure,
>)
    ensures
        (match r {
            Ok(s) => Ok(s@),
            Err(e) => Err(e@),
        }) == chosen(session_views(sessions@), needle@),
{
    if sessions.len() == 0 {
        return Err(
            Failure::new("no remote sessions are recorded on this machine".to_owned()),
        );
    }
    let ghost all = session_views(sessions@);
    let mut found = find_fitting(sessions, needle, Fit::Name);
    if found.len() == 0 {
        found = find_fitting(sessions, needle, Fit::NameInAnyCase);
    }
    if found.len() == 0 {
        found = find_fitting(sessions, needle, Fit::Fragment);
    }
    let ghost several = meant(all, needle@);
    assert(found@.len() == several.len());
    assert forall|j: int| 0 <= j < found@.len() implies (#[trigger] found@[j]) < sessions@.len()
        && several[j] == sessions@[found@[j] as int]@ by {}
    if found.len() == 0 {
        let mut message = "no remote session matches `".to_owned();
        message.push_str(needle);
        message.push_str("`. Recorded sessions: ");
        message.push_str(join(&list_ids(sessions), ", ").as_str());
        return Err(Failure::new(message));
    }
    if found.len() == 1 {
        assert(found@[0] < sessions@.len());
        return Ok(sessions[found[0]].clone());
    }
    let mut names: Vec<String> = Vec::new();
    let mut i: usize = 0;
    while i < found.len()
        invariant
            i <= found@.len(),
            found@.len() == several.len(),
            names@.len() == i,
            forall|j: int|
                0 <= j < found@.len() ==> (#[trigger] found@[j]) < sessions@.len() && several[j]
                    == sessions@[found@[j] as int]@,
            forall|j: int| 0 <= j < i ==> (#[trigger] names@[j])@ == several[j].session_id,
        decreases found@.len() - i,
    {
        assert(found@[i as int] < sessions@.len());
        names.push(sessions[found[i]].session_id.clone());
        i += 1;
    }
    assert(texts(names@) =~= ids(several));
    let mut message = "`".to_owned();
    message.push_str(needle);
    message.push_str("` matches more than one remote session: ");
    message.push_str(join(&names, ", ").as_str());
    message.push_str("\nName one of them exactly.");
    Err(Failure::new(message))
}

// ---------------------------------------------------------------------------
// Laws
// ---------------------------------------------------------------------------

/// A character that may stand in a session's name.
pub open spec fn safe(c: char) -> bool {
    'a' <= c <= 'z' || '0' <= c <= '9' || c == '-'
}

pub open spec fn all_safe(s: Seq<char>) -> bool {
    forall|i: int| 0 <= i < s.len() ==> safe(#[trigger] s[i])
}

proof fn lemma_safe_start(s: Seq<char>)
    requires
        all_safe(s),
    ensures
        all_safe(trimmed_start_of(s, '-')),
    decreases s.len(),
{
    if s.len() > 0 && s[0] == '-' {
        let rest = s.subrange(1, s.len() as int);
        assert forall|i: int| 0 <= i < rest.len() implies safe(#[trigger] rest[i]) by {
            assert(s[i + 1] == rest[i]);
        }
        lemma_safe_start(rest);
    }
}

proof fn lemma_safe_end(s: Seq<char>)
    requires
        all_safe(s),
    ensures
        all_safe(trimmed_end_of(s, '-')),
    decreases s.len(),
{
    if s.len() > 0 && s.last() == '-' {
        let rest = s.drop_last();
        assert forall|i: int| 0 <= i < rest.len() implies safe(#[trigger] rest[i]) by {
            assert(s[i] == rest[i]);
        }
        lemma_safe_end(rest);
    }
}

proof fn lemma_safe_dec(n: nat)
    ensures
        all_safe(dec(n)),
    decreases n,
{
    if n >= 10 {
        lemma_safe_dec(n / 10);
        let all = dec(n);
        assert forall|i: int| 0 <= i < all.len() implies safe(#[trigger] all[i]) by {
            if i < dec(n / 10).len() {
                assert(all[i] == dec(n / 10)[i]);
            }
        }
    }
}

/// Whatever a machine is called, its sessions' names are made of small letters,
/// digits and hyphens alone, so they can name a file anywhere.
pub proof fn law_a_session_name_is_safe(peer_host: Seq<char>, remote_port: u16)
    ensures
        all_safe(session_name(peer_host, remote_port)),
{
    reveal_strlit("remote-");
    reveal_strlit("-");
    let mapped = peer_host.map_values(|c: char| name_char(c));
    assert(all_safe(mapped));
    lemma_safe_start(mapped);
    lemma_safe_end(trimmed_start_of(mapped, '-'));
    lemma_safe_dec(remote_port as nat);
}

proof fn lemma_fitting(sessions: Seq<SessionView>, needle: Seq<char>, how: Fit)
    ensures
        forall|i: int|
            0 <= i < fitting(sessions, needle, how).len() ==> sessions.contains(
                #[trigger] fitting(sessions, needle, how)[i],
            ) && fits(fitting(sessions, needle, how)[i], needle, how),
    decreases sessions.len(),
{
    if sessions.len() > 0 {
        let front = sessions.drop_last();
        lemma_fitting(front, needle, how);
        let all = fitting(sessions, needle, how);
        assert forall|i: int| 0 <= i < all.len() implies sessions.contains(#[trigger] all[i])
            && fits(all[i], needle, how) by {
            if i < fitting(front, needle, how).len() {
                assert(all[i] == fitting(front, needle, how)[i]);
                let k = choose|k: int| 0 <= k < front.len() && front[k] == all[i];
                assert(sessions[k] == all[i]);
            } else {
                assert(sessions[sessions.len() - 1] == all[i]);
            }
        }
    }
}

proof fn lemma_fitting_has(sessions: Seq<SessionView>, needle: Seq<char>, how: Fit, i: int)
    requires
        0 <= i < sessions.len(),
        fits(sessions[i], needle, how),
    ensures
        fitting(sessions, needle, how).len() >= 1,
        fitting(sessions, needle, how).contains(sessions[i]),
    decreases sessions.len(),
{
    let all = fitting(sessions, needle, how);
    if i == sessions.len() - 1 {
        assert(all.last() == sessions[i]);
        assert(all[all.len() - 1] == sessions[i]);
    } else {
        let front = sessions.drop_last();
        lemma_fitting_has(front, needle, how, i);
        let before = fitting(front, needle, how);
        let k = choose|k: int| 0 <= k < before.len() && before[k] == sessions[i];
        assert(all[k] == before[k]);
    }
}

/// A session resolved to is a recorded one and the only one of the name that was
/// given; where no session has that name, the only one that has it in another
/// case; and where none has, the only one the fragment fits.
pub proof fn law_a_resolved_session_is_unambiguous(
    sessions: Seq<SessionView>,
    needle: Seq<char>,
    i: int,
)
    requires
        chosen(sessions, needle) is Ok,
        0 <= i < sessions.len(),
    ensures
        ({
            let s = chosen(sessions, needle)->Ok_0;
            &&& sessions.contains(s)
            &&& fits(s, needle, Fit::Name) || fits(s, needle, Fit::NameInAnyCase) || fits(
                s,
                needle,
                Fit::Fragment,
            )
            &&& sessions[i].session_id == needle ==> sessions[i] == s
            &&& lower(sessions[i].session_id) == lower(needle) && s.session_id != needle
                ==> sessions[i] == s
            &&& fits(sessions[i], needle, Fit::Fragment) && lower(s.session_id) != lower(needle)
                ==> sessions[i] == s
        }),
{
    let s = chosen(sessions, needle)->Ok_0;
    lemma_fitting(sessions, needle, Fit::Name);
    lemma_fitting(sessions, needle, Fit::NameInAnyCase);
    lemma_fitting(sessions, needle, Fit::Fragment);
    assert(meant(sessions, needle).len() == 1 && meant(sessions, needle)[0] == s);
    if sessions[i].session_id == needle {
        lemma_fitting_has(sessions, needle, Fit::Name, i);
    }
    if lower(sessions[i].session_id) == lower(needle) {
        lemma_fitting_has(sessions, needle, Fit::NameInAnyCase, i);
    }
    if fits(sessions[i], needle, Fit::Fragment) {
        lemma_fitting_has(sessions, needle, Fit::Fragment, i);
    }
}

/// Two sessions of one name are never resolved to either of them.
pub proof fn law_a_shared_session_name_is_refused(
    sessions: Seq<SessionView>,
    needle: Seq<char>,
    i: int,
    j: int,
)
    requires
        0 <= i < j < sessions.len(),
        sessions[i].session_id == needle,
        sessions[j].session_id == needle,
    ensures
        chosen(sessions, needle) is Err,
{
    lemma_two_fit(sessions, needle, i, j);
}

proof fn lemma_two_fit(sessions: Seq<SessionView>, needle: Seq<char>, i: int, j: int)
    requires
        0 <= i < j < sessions.len(),
        sessions[i].session_id == needle,
        sessions[j].session_id == needle,
    ensures
        fitting(sessions, needle, Fit::Name).len() >= 2,
    decreases sessions.len(),
{
    if j == sessions.len() - 1 {
        lemma_fitting_has(sessions.drop_last(), needle, Fit::Name, i);
    } else {
        lemma_two_fit(sessions.drop_last(), needle, i, j);
    }
}

proof fn lemma_readable_from(files: Seq<RecordFile>, k: int)
    requires
        0 <= k < readable(files).len(),
    ensures
        exists|i: int|
            0 <= i < files.len() && names_a_record((#[trigger] files[i]).name@)
                && files[i].verdict is Ok && record_given(files[i]) == Ok::<
                SessionView,
                Seq<Seq<char>>,
            >(readable(files)[k]),
    decreases files.len(),
{
    if files.len() > 0 {
        let front = files.drop_last();
        if k < readable(front).len() {
            lemma_readable_from(front, k);
            let i = choose|i: int|
                0 <= i < front.len() && names_a_record((#[trigger] front[i]).name@)
                    && front[i].verdict is Ok && record_given(front[i]) == Ok::<
                    SessionView,
                    Seq<Seq<char>>,
                >(readable(front)[k]);
            assert(files[i] == front[i]);
        } else {
            assert(files[files.len() - 1] == files.last());
        }
    }
}

/// No session is listed whose id may not be part of a path.
pub proof fn law_an_unusable_id_is_never_listed(files: Seq<RecordFile>, k: int)
    requires
        0 <= k < sorted(readable(files), session_order()).len(),
    ensures
        exists|i: int|
            0 <= i < files.len() && names_a_record((#[trigger] files[i]).name@)
                && files[i].verdict is Ok && record_given(files[i]) == Ok::<
                SessionView,
                Seq<Seq<char>>,
            >(sorted(readable(files), session_order())[k]),
{
    broadcast use vstd::seq_lib::group_to_multiset_ensures;

    let s = sorted(readable(files), session_order());
    let g = readable(files);
    law_sessions_are_listed_by_name(files);
    assert(s.to_multiset().contains(s[k]));
    assert(g.to_multiset().contains(s[k]));
    let j = choose|j: int| 0 <= j < g.len() && g[j] == s[k];
    lemma_readable_from(files, j);
}

/// The sessions come out by name, and every record that can be read comes out.
pub proof fn law_sessions_are_listed_by_name(files: Seq<RecordFile>)
    ensures
        ascending(sorted(readable(files), session_order()), session_order()),
        sorted(readable(files), session_order()).to_multiset() == readable(files).to_multiset(),
{
    let le = session_order();
    let tle = crate::order::text_le();
    crate::order::lemma_text_le_ranks();
    assert forall|a: SessionView, b: SessionView| #[trigger] le(a, b) || le(b, a) by {
        assert(tle(a.session_id, b.session_id) || tle(b.session_id, a.session_id));
    }
    assert forall|a: SessionView, b: SessionView, c: SessionView| #[trigger]
        le(a, b) && #[trigger] le(b, c) implies le(a, c) by {
        assert(tle(a.session_id, b.session_id) && tle(b.session_id, c.session_id));
        assert(tle(a.session_id, c.session_id));
    }
    crate::order::lemma_sorted(readable(files), session_order());
}

proof fn lemma_fitting_none(sessions: Seq<SessionView>, needle: Seq<char>, how: Fit)
    requires
        forall|k: int| 0 <= k < sessions.len() ==> !fits(#[trigger] sessions[k], needle, how),
    ensures
        fitting(sessions, needle, how).len() == 0,
    decreases sessions.len(),
{
    if sessions.len() > 0 {
        assert(!fits(sessions[sessions.len() - 1], needle, how));
        lemma_fitting_none(sessions.drop_last(), needle, how);
    }
}

proof fn lemma_fitting_only(sessions: Seq<SessionView>, needle: Seq<char>, how: Fit, i: int)
    requires
        0 <= i < sessions.len(),
        fits(sessions[i], needle, how),
        forall|k: int|
            0 <= k < sessions.len() && k != i ==> !fits(#[trigger] sessions[k], needle, how),
    ensures
        fitting(sessions, needle, how) == seq![sessions[i]],
    decreases sessions.len(),
{
    let front = sessions.drop_last();
    if i == sessions.len() - 1 {
        lemma_fitting_none(front, needle, how);
        assert(fitting(sessions, needle, how) =~= seq![sessions[i]]);
    } else {
        assert(!fits(sessions[sessions.len() - 1], needle, how));
        lemma_fitting_only(front, needle, how, i);
    }
}

proof fn lemma_fitting_two(
    sessions: Seq<SessionView>,
    needle: Seq<char>,
    how: Fit,
    i: int,
    j: int,
)
    requires
        0 <= i < j < sessions.len(),
        fits(sessions[i], needle, how),
        fits(sessions[j], needle, how),
    ensures
        fitting(sessions, needle, how).len() >= 2,
    decreases sessions.len(),
{
    if j == sessions.len() - 1 {
        lemma_fitting_has(sessions.drop_last(), needle, how, i);
    } else {
        lemma_fitting_two(sessions.drop_last(), needle, how, i, j);
    }
}

/// Whether a text stands in what a session is known by: the target it was started
/// under, its machine, or its name, in any case of the letters.
pub open spec fn known_by(s: SessionView, text: Seq<char>) -> bool {
    ||| has_text(lower(s.target), lower(text))
    ||| has_text(lower(s.peer_host), lower(text))
    ||| has_text(lower(s.session_id), lower(text))
}

/// A text finds its session: the only one of that name; where none has that name, the
/// only one that has it in another case; and where none has, the only one that is
/// known by it. Where several are, or none is, it is refused.
pub proof fn law_a_text_finds_its_session(
    sessions: Seq<SessionView>,
    text: Seq<char>,
    i: int,
    j: int,
)
    requires
        0 <= i < sessions.len(),
        0 <= j < sessions.len(),
    ensures
        ({
            let found = chosen(sessions, text);
            let this = Ok::<SessionView, Seq<Seq<char>>>(sessions[i]);
            let no_name = forall|k: int|
                0 <= k < sessions.len() ==> (#[trigger] sessions[k]).session_id != text;
            let no_case = forall|k: int|
                0 <= k < sessions.len() ==> lower((#[trigger] sessions[k]).session_id) != lower(text);
            &&& sessions[i].session_id == text && (forall|k: int|
                0 <= k < sessions.len() && k != i ==> (#[trigger] sessions[k]).session_id != text)
                ==> found == this
            &&& i != j && sessions[i].session_id == text && sessions[j].session_id == text ==> found
                is Err
            &&& no_name && lower(sessions[i].session_id) == lower(text) && (forall|k: int|
                0 <= k < sessions.len() && k != i ==> lower((#[trigger] sessions[k]).session_id)
                    != lower(text)) ==> found == this
            &&& no_case && known_by(sessions[i], text) && (forall|k: int|
                0 <= k < sessions.len() && k != i ==> !known_by(#[trigger] sessions[k], text))
                ==> found == this
            &&& no_case && i != j && known_by(sessions[i], text) && known_by(sessions[j], text)
                ==> found is Err
            &&& no_case && (forall|k: int|
                0 <= k < sessions.len() ==> !known_by(#[trigger] sessions[k], text)) ==> found
                is Err
        }),
{
    let no_name = forall|k: int|
        0 <= k < sessions.len() ==> (#[trigger] sessions[k]).session_id != text;
    let no_case = forall|k: int|
        0 <= k < sessions.len() ==> lower((#[trigger] sessions[k]).session_id) != lower(text);
    assert forall|s: SessionView| #[trigger] fits(s, text, Fit::Fragment) == known_by(s, text) by {}
    if sessions[i].session_id == text {
        if forall|k: int|
            0 <= k < sessions.len() && k != i ==> (#[trigger] sessions[k]).session_id != text {
            assert forall|k: int| 0 <= k < sessions.len() && k != i implies !fits(
                #[trigger] sessions[k],
                text,
                Fit::Name,
            ) by {}
            lemma_fitting_only(sessions, text, Fit::Name, i);
        }
        if i != j && sessions[j].session_id == text {
            if i < j {
                lemma_fitting_two(sessions, text, Fit::Name, i, j);
            } else {
                lemma_fitting_two(sessions, text, Fit::Name, j, i);
            }
        }
    }
    if no_name {
        assert forall|k: int| 0 <= k < sessions.len() implies !fits(
            #[trigger] sessions[k],
            text,
            Fit::Name,
        ) by {}
        lemma_fitting_none(sessions, text, Fit::Name);
        if lower(sessions[i].session_id) == lower(text) && (forall|k: int|
            0 <= k < sessions.len() && k != i ==> lower((#[trigger] sessions[k]).session_id)
                != lower(text)) {
            assert forall|k: int| 0 <= k < sessions.len() && k != i implies !fits(
                #[trigger] sessions[k],
                text,
                Fit::NameInAnyCase,
            ) by {}
            lemma_fitting_only(sessions, text, Fit::NameInAnyCase, i);
        }
    }
    if no_case {
        assert forall|k: int| 0 <= k < sessions.len() implies !fits(
            #[trigger] sessions[k],
            text,
            Fit::Name,
        ) && !fits(sessions[k], text, Fit::NameInAnyCase) by {
            assert(lower(sessions[k].session_id) != lower(text));
        }
        lemma_fitting_none(sessions, text, Fit::Name);
        lemma_fitting_none(sessions, text, Fit::NameInAnyCase);
        if known_by(sessions[i], text) && (forall|k: int|
            0 <= k < sessions.len() && k != i ==> !known_by(#[trigger] sessions[k], text)) {
            assert forall|k: int| 0 <= k < sessions.len() && k != i implies !fits(
                #[trigger] sessions[k],
                text,
                Fit::Fragment,
            ) by {
                assert(!known_by(sessions[k], text));
            }
            lemma_fitting_only(sessions, text, Fit::Fragment, i);
        }
        if i != j && known_by(sessions[i], text) && known_by(sessions[j], text) {
            if i < j {
                lemma_fitting_two(sessions, text, Fit::Fragment, i, j);
            } else {
                lemma_fitting_two(sessions, text, Fit::Fragment, j, i);
            }
        }
        if forall|k: int| 0 <= k < sessions.len() ==> !known_by(#[trigger] sessions[k], text) {
            assert forall|k: int| 0 <= k < sessions.len() implies !fits(
                #[trigger] sessions[k],
                text,
                Fit::Fragment,
            ) by {
                assert(!known_by(sessions[k], text));
            }
            lemma_fitting_none(sessions, text, Fit::Fragment);
        }
    }
}

/// Whether a file gives a session: it is called as a record is, a record could be read
/// from it, and its id may be used.
spec fn gives(file: RecordFile) -> bool {
    file.name@.len() > 5 && ends_with(file.name@, ".json"@) && file.read is Ok && file.verdict is Ok
}

proof fn lemma_readable(files: Seq<RecordFile>)
    ensures
        readable(files) == files.filter(|f: RecordFile| gives(f)).map_values(
            |f: RecordFile| f.read->Ok_0@,
        ),
        unreadable_warnings(files).len() == files.filter(
            |f: RecordFile|
                f.name@.len() > 5 && ends_with(f.name@, ".json"@) && (f.read is Err || f.verdict
                    is Err),
        ).len(),
    decreases files.len(),
{
    reveal(Seq::filter);
    reveal_strlit(".json");
    let p = |f: RecordFile| gives(f);
    let q = |f: RecordFile|
        f.name@.len() > 5 && ends_with(f.name@, ".json"@) && (f.read is Err || f.verdict is Err);
    let m = |f: RecordFile| f.read->Ok_0@;
    if files.len() > 0 {
        let front = files.drop_last();
        lemma_readable(front);
        if p(files.last()) {
            assert(files.filter(p).map_values(m) =~= front.filter(p).map_values(m).push(
                m(files.last()),
            ));
        }
    } else {
        assert(files.filter(p).map_values(m) =~= seq![]);
    }
}

/// Every record that can be read and whose id may be used is a session, and nothing
/// else is; and each of the other records is warned of once. A file is a record where
/// it is called so: a name and `.json` behind it.
pub proof fn law_every_usable_record_is_a_session(files: Seq<RecordFile>)
    ensures
        readable(files) == files.filter(
            |f: RecordFile|
                f.name@.len() > 5 && ends_with(f.name@, ".json"@) && f.read is Ok && f.verdict
                    is Ok,
        ).map_values(|f: RecordFile| f.read->Ok_0@),
        unreadable_warnings(files).len() == files.filter(
            |f: RecordFile|
                f.name@.len() > 5 && ends_with(f.name@, ".json"@) && (f.read is Err || f.verdict
                    is Err),
        ).len(),
{
    lemma_readable(files);
    assert((|f: RecordFile| gives(f)) =~= (|f: RecordFile|
        f.name@.len() > 5 && ends_with(f.name@, ".json"@) && f.read is Ok && f.verdict is Ok));
}

/// A session is named after its machine and its port: it begins with `remote-`, ends
/// with a hyphen and the port, and has the machine's name between them, which stays as
/// it is where it is of small letters, digits and hyphens, none of them at its ends.
/// Two sessions on ports of one machine have different names.
pub proof fn law_a_session_is_named_after_its_machine_and_port(
    host: Seq<char>,
    port: u16,
    other: u16,
)
    ensures
        occurs_at(session_name(host, port), "remote-"@, 0),
        ends_with(session_name(host, port), "-"@ + dec(port as nat)),
        all_safe(host) && host.len() > 0 && host[0] != '-' && host.last() != '-' ==> session_name(
            host,
            port,
        ) == "remote-"@ + host + "-"@ + dec(port as nat),
        session_name(host, port) == session_name(host, other) ==> port == other,
        session_name(lower(host), port) == session_name(host, port),
{
    let mapped = host.map_values(|c: char| name_char(c));
    let name = session_name(host, port);
    let middle = name_host(host);
    let tail = "-"@ + dec(port as nat);
    assert(name.subrange(0, "remote-"@.len() as int) =~= "remote-"@);
    assert(name.subrange(name.len() - tail.len(), name.len() as int) =~= tail);
    if all_safe(host) && host.len() > 0 && host[0] != '-' && host.last() != '-' {
        assert(mapped =~= host) by {
            assert forall|i: int| 0 <= i < host.len() implies mapped[i] == host[i] by {
                assert(safe(host[i]));
            }
        }
        assert(middle == host);
    }
    if session_name(host, port) == session_name(host, other) {
        let two = session_name(host, other);
        let n = ("remote-"@ + middle + "-"@).len() as int;
        assert(name.subrange(n, name.len() as int) =~= dec(port as nat));
        assert(two.subrange(n, two.len() as int) =~= dec(other as nat));
        crate::text::lemma_dec_injective(port as nat, other as nat);
    }
    assert(lower(host).map_values(|c: char| name_char(c)) =~= mapped);
}

/// A session's record and its credential are kept under its name, apart from each
/// other and from those of every other session.
pub proof fn law_each_session_has_its_own_files(a: Seq<char>, b: Seq<char>)
    ensures
        record_file(a) != key_file(b),
        record_file(a) == record_file(b) ==> a == b,
        key_file(a) == key_file(b) ==> a == b,
        a.len() > 0 ==> names_a_record(record_file(a)),
        !names_a_record(key_file(a)),
{
    reveal_strlit(".json");
    reveal_strlit(".endpoint-key");
    let (ra, rb, ka, kb) = (record_file(a), record_file(b), key_file(a), key_file(b));
    assert(ra.last() == 'n' && kb.last() == 'y');
    assert(ra.subrange(0, ra.len() - 5) =~= a && rb.subrange(0, rb.len() - 5) =~= b);
    assert(ka.subrange(0, ka.len() - 13) =~= a && kb.subrange(0, kb.len() - 13) =~= b);
    assert(ra.subrange(ra.len() - 5, ra.len() as int) =~= ".json"@);
    if names_a_record(ka) {
        assert(ka.subrange(ka.len() - 5, ka.len() as int)[4] == ka.last());
        assert(ka.last() == 'y');
    }
}

/// A session id that cannot be used is repeated, and why it cannot is kept.
pub proof fn law_an_unusable_id_is_repeated(session_id: Seq<char>, why: Seq<Seq<char>>)
    ensures
        has_text(unusable_id(session_id, why)[0], "`"@ + session_id + "`"@),
        unusable_id(session_id, why).drop_first() == why,
{
    let s0 = "unusable remote session id `"@;
    let s1 = session_id;
    let s2 = "`"@;
    let x1 = s0 + s1;
    let x2 = x1 + s2;
    assert(unusable_id(session_id, why)[0] == x2);
    let part = "`"@ + s1 + s2;
    assert(has_text(x2, part)) by {
        let h = s0.subrange(0, 27);
        assert(s0 =~= h + "`"@) by {
            reveal_strlit("unusable remote session id `");
            reveal_strlit("`");
        }
        assert(x2 =~= h + part + Seq::<char>::empty());
        lemma_has_text(h, part, Seq::<char>::empty());
    }
    assert(unusable_id(session_id, why).drop_first() =~= why);
}

} // verus!
