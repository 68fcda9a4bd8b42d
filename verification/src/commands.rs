//! The decisions and texts of the session commands: list lines, selection
//! labels, status archiving and inference, export and import choices, and
//! the names of the files they write.

use vstd::prelude::*;
use vstd::string::*;

use crate::conversation::Conversation;
use crate::mentions::latest_mentions;
use crate::pr_status::{
    conversation_pr_mentions, find_conversation_pr_refs, pr_state_status, pr_views,
    status_from_github_pr_state, GitHubPrRef,
};
use crate::session::{
    activity_at, instant_text, status_name, status_named, utc_instant_text, SessionStatus,
    SessionSummary,
};
use crate::text::{chars_of, decimal_digits, safe_truncate, truncated, u64_to_decimal};

verus! {

/// How many characters of a session's name a selection label shows.
pub const TRUNCATED_DESC_LENGTH: usize = 60;

// ---------------------------------------------------------------------------
// Texts shown for sessions
/// ` [status]` after a session's name, nothing for an active session.
pub open spec fn status_tag(s: SessionStatus) -> Seq<char> {
    if s == SessionStatus::Active {
        Seq::empty()
    } else {
        " ["@ + status_name(s) + "]"@
    }
}

/// One line of the session list: `id - name[ [status]] - activity - location`.
pub open spec fn list_line(
    id: Seq<char>,
    name: Seq<char>,
    status: SessionStatus,
    activity: Seq<char>,
    location: Seq<char>,
) -> Seq<char> {
    id + " - "@ + name + status_tag(status) + " - "@ + activity + " - "@ + location
}

/// The line the list command prints for a session; `activity` and
/// `location` are its last activity and working directory as displayed.
pub fn session_list_line(
    id: &str,
    name: &str,
    status: SessionStatus,
    activity: &str,
    location: &str,
) -> (r: String)
    ensures
        r@ == list_line(id@, name@, status, activity@, location@),
{
    let mut s = id.to_owned();
    s.append(" - ");
    s.append(name);
    if status != SessionStatus::Active {
        s.append(" [");
        s.append(status.name());
        s.append("]");
    }
    s.append(" - ");
    s.append(activity);
    s.append(" - ");
    s.append(location);
    s
}

/// The list line of a session, its last activity shown as a UTC time and
/// `location` as its working directory; `None` when the time cannot be
/// shown.
pub fn session_list_line_of(s: &SessionSummary, location: &str) -> (r: Option<String>)
    ensures
        r is Some <==> utc_instant_text(activity_at(*s).secs, activity_at(*s).nanos) is Some,
        r matches Some(line) ==> line@ == list_line(
            s.id@,
            s.name@,
            s.status,
            utc_instant_text(activity_at(*s).secs, activity_at(*s).nanos)->0,
            location@,
        ),
{
    let when = instant_text(&s.activity_at())?;
    Some(session_list_line(s.id.as_str(), s.name.as_str(), s.status, when.as_str(), location))
}

/// What a session is called in a selection list: its name, or `(no name)`.
pub open spec fn shown_name(name: Seq<char>) -> Seq<char> {
    if name.len() == 0 {
        "(no name)"@
    } else {
        name
    }
}

/// A selection entry: `when - name ([id])`, the name cut to
/// `TRUNCATED_DESC_LENGTH` characters.
pub open spec fn choice_label(when: Seq<char>, name: Seq<char>, id: Seq<char>) -> Seq<char> {
    when + " - "@ + truncated(shown_name(name), TRUNCATED_DESC_LENGTH as nat) + " ("@ + id + ")"@
}

/// The entry that stands for a session when the user picks sessions;
/// `when` is the time shown for it.
pub fn session_choice_label(when: &str, name: &str, id: &str) -> (r: String)
    ensures
        r@ == choice_label(when@, name@, id@),
{
    let desc = if name.is_empty() {
        safe_truncate("(no name)", TRUNCATED_DESC_LENGTH)
    } else {
        safe_truncate(name, TRUNCATED_DESC_LENGTH)
    };
    let mut s = when.to_owned();
    s.append(" - ");
    s.append(desc.as_str());
    s.append(" (");
    s.append(id);
    s.append(")");
    s
}

/// The selection entry of a session dated by its last activity; `None`
/// when the time cannot be shown.
pub fn activity_choice_label(s: &SessionSummary) -> (r: Option<String>)
    ensures
        r is Some <==> utc_instant_text(activity_at(*s).secs, activity_at(*s).nanos) is Some,
        r matches Some(label) ==> label@ == choice_label(
            utc_instant_text(activity_at(*s).secs, activity_at(*s).nanos)->0,
            s.name@,
            s.id@,
        ),
{
    let when = instant_text(&s.activity_at())?;
    Some(session_choice_label(when.as_str(), s.name.as_str(), s.id.as_str()))
}

/// The selection entry of a session dated by its last update; `None` when
/// the time cannot be shown.
pub fn updated_choice_label(s: &SessionSummary) -> (r: Option<String>)
    ensures
        r is Some <==> utc_instant_text(s.updated_at.secs, s.updated_at.nanos) is Some,
        r matches Some(label) ==> label@ == choice_label(
            utc_instant_text(s.updated_at.secs, s.updated_at.nanos)->0,
            s.name@,
            s.id@,
        ),
{
    let when = instant_text(&s.updated_at)?;
    Some(session_choice_label(when.as_str(), s.name.as_str(), s.id.as_str()))
}

/// A path shown relative to the home directory: `~/rest` when the path lies
/// under it (`under_home` is the rest), else the path as it is.
pub fn home_relative_display(path: &str, under_home: Option<&str>) -> (r: String)
    ensures
        r@ == match under_home {
            Some(rest) => "~/"@ + rest@,
            None => path@,
        },
{
    match under_home {
        Some(rest) => {
            let mut s = "~/".to_owned();
            s.append(rest);
            s
        },
        None => path.to_owned(),
    }
}

// ---------------------------------------------------------------------------
// Archiving
/// Why a status cannot be set by the archive command.
#[derive(Debug, Clone, Copy, PartialEq, Eq, Structural)]
pub enum ArchiveStatusError {
    /// The text names no status.
    UnknownStatus,
    /// The status is `active`, which the unarchive command sets.
    UseUnarchive,
}

/// The status the archive command sets for the text `input`: any named
/// status but `active`.
pub fn archive_status(input: &str) -> (r: Result<SessionStatus, ArchiveStatusError>)
    ensures
        r == match status_named(input@) {
            None => Err(ArchiveStatusError::UnknownStatus),
            Some(SessionStatus::Active) => Err(ArchiveStatusError::UseUnarchive),
            Some(s) => Ok(s),
        },
{
    match SessionStatus::parse(input) {
        None => Err(ArchiveStatusError::UnknownStatus),
        Some(SessionStatus::Active) => Err(ArchiveStatusError::UseUnarchive),
        Some(s) => Ok(s),
    }
}

/// The archive command takes exactly the words its error message lists:
/// `archived`, `completed`, `superseded`, `pending` and `rejected`; the word
/// `active` names the status it refuses; no other text names a status.
pub proof fn law_archive_accepts_listed_words(name: Seq<char>)
    ensures
        (status_named(name) matches Some(s) && s != SessionStatus::Active) <==> (name
            == "archived"@ || name == "completed"@ || name == "superseded"@ || name == "pending"@
            || name == "rejected"@),
        (status_named(name) == Some(SessionStatus::Active)) <==> name == "active"@,
{
    reveal_strlit("active");
    reveal_strlit("pending");
    reveal_strlit("completed");
    reveal_strlit("rejected");
    reveal_strlit("superseded");
    reveal_strlit("archived");
    assert("active"@.len() == 6 && "active"@[1] == 'c');
    assert("pending"@.len() == 7);
    assert("completed"@.len() == 9);
    assert("rejected"@.len() == 8 && "rejected"@[0] == 'r');
    assert("superseded"@.len() == 10);
    assert("archived"@.len() == 8 && "archived"@[0] == 'a');
}

// ---------------------------------------------------------------------------
// Inferring a status from a PR
/// The PR whose state decides a conversation's status: the most recently
/// mentioned one.
pub fn pr_for_status_inference(conversation: &Conversation) -> (r: Option<GitHubPrRef>)
    ensures
        match r {
            Some(pr) => latest_mentions(conversation_pr_mentions(*conversation)).len() > 0 && pr@
                == latest_mentions(conversation_pr_mentions(*conversation)).last(),
            None => latest_mentions(conversation_pr_mentions(*conversation)).len() == 0,
        },
{
    let mut refs = find_conversation_pr_refs(conversation);
    let ghost all = pr_views(refs@);
    let last = refs.pop();
    proof {
        if all.len() > 0 {
            assert(all.last() == refs@.push(last->0).last()@);
        }
    }
    last
}

/// The arguments of `gh` that print a PR's state:
/// `pr view NUMBER --repo OWNER/REPO --json state --jq .state`.
pub open spec fn pr_state_query(pr: (Seq<char>, Seq<char>, u64)) -> Seq<Seq<char>> {
    seq![
        "pr"@,
        "view"@,
        decimal_digits(pr.2 as nat),
        "--repo"@,
        pr.0 + seq!['/'] + pr.1,
        "--json"@,
        "state"@,
        "--jq"@,
        ".state"@,
    ]
}

/// The arguments of `gh` that print the state of `pr`.
pub fn pr_state_query_args(pr: &GitHubPrRef) -> (r: Vec<String>)
    ensures
        r@.map_values(|a: String| a@) == pr_state_query(pr@),
{
    let v = vec![
        "pr".to_owned(),
        "view".to_owned(),
        u64_to_decimal(pr.number),
        "--repo".to_owned(),
        pr.repo_slug(),
        "--json".to_owned(),
        "state".to_owned(),
        "--jq".to_owned(),
        ".state".to_owned(),
    ];
    assert(v@.map_values(|a: String| a@) =~= pr_state_query(pr@));
    v
}

/// What a PR's state means for a session.
#[derive(Debug, Clone, Copy, PartialEq, Eq, Structural)]
pub enum StatusInference {
    /// The state is none the inference knows; the session is left alone.
    Unrecognized,
    /// The state confirms the session's current status.
    Unchanged,
    /// The session should take this status.
    Changed(SessionStatus),
}

/// What the PR state `pr_state` means for a session now in `current`.
pub open spec fn status_inference(current: SessionStatus, pr_state: Seq<char>) -> StatusInference {
    match pr_state_status(pr_state) {
        None => StatusInference::Unrecognized,
        Some(s) => if s == current {
            StatusInference::Unchanged
        } else {
            StatusInference::Changed(s)
        },
    }
}

/// A session is left unchanged exactly when its PR's state stands for the
/// status it already has; a state standing for another status changes it
/// to that status; a state standing for none is unrecognized.
pub proof fn law_status_inference_cases(current: SessionStatus, pr_state: Seq<char>)
    ensures
        (status_inference(current, pr_state) == StatusInference::Unchanged) <==> pr_state_status(
            pr_state,
        ) == Some(current),
        (status_inference(current, pr_state) == StatusInference::Unrecognized) <==> pr_state_status(
            pr_state,
        ) is None,
        forall|t: SessionStatus|
            pr_state_status(pr_state) == Some(t) && t != current ==> status_inference(
                current,
                pr_state,
            ) == StatusInference::Changed(t),
{
}

/// What the PR state `pr_state` (the text `gh` printed) means for a
/// session now in `current`.
pub fn infer_status(current: SessionStatus, pr_state: &str) -> (r: StatusInference)
    ensures
        r == status_inference(current, pr_state@),
{
    match status_from_github_pr_state(pr_state) {
        None => StatusInference::Unrecognized,
        Some(s) => if s == current {
            StatusInference::Unchanged
        } else {
            StatusInference::Changed(s)
        },
    }
}

/// What status inference came to for one session.
#[derive(Debug, Clone, Copy, PartialEq, Eq, Structural)]
pub enum InferenceOutcome {
    /// The session has no conversation, or its conversation names no PR.
    NoPr,
    /// The PR's state could not be read.
    StateUnread,
    /// The PR's state was read and means this for the session.
    Inferred(StatusInference),
}

/// The outcome for a session now in `current` whose latest PR was looked
/// up: `pr_state` is the state `gh` printed, `None` when it could not be
/// read.
pub fn outcome_of_pr_state(current: SessionStatus, pr_state: Option<&str>) -> (r:
    InferenceOutcome)
    ensures
        r == match pr_state {
            None => InferenceOutcome::StateUnread,
            Some(s) => InferenceOutcome::Inferred(status_inference(current, s@)),
        },
{
    match pr_state {
        None => InferenceOutcome::StateUnread,
        Some(s) => InferenceOutcome::Inferred(infer_status(current, s)),
    }
}

/// Whether an outcome counts as a session checked against a PR.
pub open spec fn counts_checked(o: InferenceOutcome) -> bool {
    o != InferenceOutcome::NoPr
}

/// Whether an outcome counts as a session updated.
pub open spec fn counts_updated(o: InferenceOutcome) -> bool {
    o matches InferenceOutcome::Inferred(StatusInference::Changed(_))
}

/// How many of the outcomes count as checked.
pub open spec fn checked_count(os: Seq<InferenceOutcome>) -> nat
    decreases os.len(),
{
    if os.len() == 0 {
        0
    } else {
        checked_count(os.drop_last()) + if counts_checked(os.last()) {
            1nat
        } else {
            0nat
        }
    }
}

/// How many of the outcomes count as updated.
pub open spec fn updated_count(os: Seq<InferenceOutcome>) -> nat
    decreases os.len(),
{
    if os.len() == 0 {
        0
    } else {
        updated_count(os.drop_last()) + if counts_updated(os.last()) {
            1nat
        } else {
            0nat
        }
    }
}

/// Never more sessions are updated than checked.
pub proof fn law_updated_at_most_checked(os: Seq<InferenceOutcome>)
    ensures
        updated_count(os) <= checked_count(os),
    decreases os.len(),
{
    if os.len() > 0 {
        law_updated_at_most_checked(os.drop_last());
    }
}

/// The counts of status inference: sessions checked against a PR, and
/// sessions updated; never more updated than checked.
#[derive(Debug, Clone, Copy, PartialEq, Eq)]
pub struct InferenceTally {
    checked: usize,
    updated: usize,
}

/// The closing line of status inference.
pub open spec fn tally_summary(checked: usize, updated: usize) -> Seq<char> {
    "Inferred status for "@ + decimal_digits(checked as nat) + " session(s) with PRs, "@
        + decimal_digits(updated as nat) + " updated"@
}

impl InferenceTally {
    #[verifier::type_invariant]
    spec fn updated_within_checked(self) -> bool {
        self.updated <= self.checked
    }

    /// The number of sessions checked against a PR.
    pub closed spec fn checked_spec(self) -> usize {
        self.checked
    }

    /// The number of sessions updated.
    pub closed spec fn updated_spec(self) -> usize {
        self.updated
    }

    /// Nothing checked yet.
    pub fn new() -> (r: InferenceTally)
        ensures
            r.checked_spec() == 0,
            r.updated_spec() == 0,
    {
        InferenceTally { checked: 0, updated: 0 }
    }

    /// The number of sessions checked against a PR.
    pub fn checked(&self) -> (r: usize)
        ensures
            r == self.checked_spec(),
            self.updated_spec() <= r,
    {
        proof {
            use_type_invariant(self);
        }
        self.checked
    }

    /// The number of sessions updated.
    pub fn updated(&self) -> (r: usize)
        ensures
            r == self.updated_spec(),
            r <= self.checked_spec(),
    {
        proof {
            use_type_invariant(self);
        }
        self.updated
    }

    /// Counts one session's outcome.
    pub fn record(&mut self, outcome: InferenceOutcome)
        requires
            counts_checked(outcome) ==> old(self).checked_spec() < usize::MAX,
        ensures
            final(self).checked_spec() == old(self).checked_spec() + if counts_checked(outcome) {
                1int
            } else {
                0int
            },
            final(self).updated_spec() == old(self).updated_spec() + if counts_updated(outcome) {
                1int
            } else {
                0int
            },
            final(self).updated_spec() <= final(self).checked_spec(),
    {
        proof {
            use_type_invariant(&*self);
        }
        match outcome {
            InferenceOutcome::NoPr => {},
            InferenceOutcome::StateUnread => {
                self.checked = self.checked + 1;
            },
            InferenceOutcome::Inferred(StatusInference::Changed(_)) => {
                self.checked = self.checked + 1;
                self.updated = self.updated + 1;
            },
            InferenceOutcome::Inferred(_) => {
                self.checked = self.checked + 1;
            },
        }
        proof {
            use_type_invariant(&*self);
        }
    }

    /// `Inferred status for N session(s) with PRs, M updated`.
    pub fn summary(&self) -> (r: String)
        ensures
            r@ == tally_summary(self.checked_spec(), self.updated_spec()),
    {
        let mut s = "Inferred status for ".to_owned();
        s.append(u64_to_decimal(self.checked as u64).as_str());
        s.append(" session(s) with PRs, ");
        s.append(u64_to_decimal(self.updated as u64).as_str());
        s.append(" updated");
        s
    }
}

/// The counts after the outcomes `os`, one session after another, from
/// nothing: they are the numbers of outcomes that count as checked and as
/// updated.
pub fn tally_outcomes(os: &Vec<InferenceOutcome>) -> (r: Option<InferenceTally>)
    ensures
        checked_count(os@) < usize::MAX ==> r is Some,
        r matches Some(t) ==> t.checked_spec() == checked_count(os@) && t.updated_spec()
            == updated_count(os@),
{
    let mut t = InferenceTally::new();
    let mut i: usize = 0;
    while i < os.len()
        invariant
            i <= os.len(),
            t.checked_spec() == checked_count(os@.take(i as int)),
            t.updated_spec() == updated_count(os@.take(i as int)),
        decreases os.len() - i,
    {
        assert(os@.take(i + 1).drop_last() =~= os@.take(i as int));
        assert(os@.take(i + 1).last() == os@[i as int]);
        if os[i] != InferenceOutcome::NoPr && t.checked() == usize::MAX {
            proof {
                lemma_checked_count_prefix(os@, i + 1);
            }
            return None;
        }
        t.record(os[i]);
        i += 1;
    }
    assert(os@.take(os.len() as int) =~= os@);
    Some(t)
}

proof fn lemma_checked_count_prefix(os: Seq<InferenceOutcome>, n: int)
    requires
        0 <= n <= os.len(),
    ensures
        checked_count(os.take(n)) <= checked_count(os),
    decreases os.len() - n,
{
    if n < os.len() {
        lemma_checked_count_prefix(os, n + 1);
        assert(os.take(n + 1).drop_last() =~= os.take(n));
    } else {
        assert(os.take(n) =~= os);
    }
}

/// What a line write ended in.
#[derive(Debug, Clone, Copy, PartialEq, Eq, Structural)]
pub enum LineWrite {
    Written,
    /// The reader went away.
    BrokenPipe,
    /// Any other failure.
    Failed,
}

/// Whether output goes on after a line write: yes after a write, no (and
/// no error) when the reader went away, and `None` (an error to pass on)
/// otherwise.
pub fn keep_writing(w: LineWrite) -> (r: Option<bool>)
    ensures
        r == match w {
            LineWrite::Written => Some(true),
            LineWrite::BrokenPipe => Some(false),
            LineWrite::Failed => None,
        },
{
    match w {
        LineWrite::Written => Some(true),
        LineWrite::BrokenPipe => Some(false),
        LineWrite::Failed => None,
    }
}

// ---------------------------------------------------------------------------
// Finding the session a command names
/// How a command finds the session it acts on.
#[derive(Debug, Clone, Copy, PartialEq, Eq, Structural)]
pub enum SessionLookup {
    ById,
    ByPath,
    ByName,
}

/// Which of the given ways a command finds its session by: an id first,
/// then a path, then a name; `None` when none is given.
pub fn session_lookup(has_id: bool, has_path: bool, has_name: bool) -> (r: Option<SessionLookup>)
    ensures
        r == if has_id {
            Some(SessionLookup::ById)
        } else if has_path {
            Some(SessionLookup::ByPath)
        } else if has_name {
            Some(SessionLookup::ByName)
        } else {
            None
        },
{
    if has_id {
        Some(SessionLookup::ById)
    } else if has_path {
        Some(SessionLookup::ByPath)
    } else if has_name {
        Some(SessionLookup::ByName)
    } else {
        None
    }
}

// ---------------------------------------------------------------------------
// Export and import
/// A format a session can be exported in.
#[derive(Debug, Clone, Copy, PartialEq, Eq, Structural)]
pub enum ExportFormat {
    Json,
    Yaml,
    Markdown,
}

/// The export format a name stands for.
pub open spec fn export_format_named(name: Seq<char>) -> Option<ExportFormat> {
    if name == "json"@ {
        Some(ExportFormat::Json)
    } else if name == "yaml"@ {
        Some(ExportFormat::Yaml)
    } else if name == "markdown"@ {
        Some(ExportFormat::Markdown)
    } else {
        None
    }
}

impl ExportFormat {
    /// The export format `name` stands for: `json`, `yaml` or `markdown`.
    pub fn parse(name: &str) -> (r: Option<ExportFormat>)
        ensures
            r == export_format_named(name@),
    {
        if crate::session::same_text(name, "json") {
            Some(ExportFormat::Json)
        } else if crate::session::same_text(name, "yaml") {
            Some(ExportFormat::Yaml)
        } else if crate::session::same_text(name, "markdown") {
            Some(ExportFormat::Markdown)
        } else {
            None
        }
    }
}

/// The link prefix of a session shared over Nostr.
pub open spec fn nostr_link_prefix() -> Seq<char> {
    "goose://sessions/nostr"@
}

/// Whether an import reads a session shared over Nostr: when asked to, or
/// when the input is a Nostr session link.
pub fn is_nostr_import(input: &str, nostr: bool) -> (r: bool)
    ensures
        r == (nostr || input@.len() >= nostr_link_prefix().len() && input@.take(
            nostr_link_prefix().len() as int,
        ) == nostr_link_prefix()),
{
    if nostr {
        return true;
    }
    let chars = chars_of(input);
    let prefix = chars_of("goose://sessions/nostr");
    if chars.len() < prefix.len() {
        return false;
    }
    let mut i: usize = 0;
    while i < prefix.len()
        invariant
            i <= prefix.len() <= chars.len(),
            !nostr,
            chars@ == input@,
            prefix@ == nostr_link_prefix(),
            forall|k: int| 0 <= k < i ==> chars@[k] == prefix@[k],
        decreases prefix.len() - i,
    {
        if chars[i] != prefix[i] {
            assert(input@.take(prefix.len() as int)[i as int] != prefix@[i as int]);
            return false;
        }
        i += 1;
    }
    assert(input@.take(prefix.len() as int) =~= prefix@);
    true
}

/// The file a diagnostics report goes to when none is given:
/// `diagnostics_ID.json`.
pub fn diagnostics_file_name(session_id: &str) -> (r: String)
    ensures
        r@ == "diagnostics_"@ + session_id@ + ".json"@,
{
    let mut s = "diagnostics_".to_owned();
    s.append(session_id);
    s.append(".json");
    s
}

} // verus!
