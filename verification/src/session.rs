//! Sessions as the session commands see them, and the rules by which those
//! commands pick and order them.

use vstd::prelude::*;
use vstd::string::*;

use crate::mentions::lemma_push_contains;
use crate::text::{contains_chars, contains_str, law_contains_prefix, lowercase_of, to_lowercase};

verus! {

/// The lifecycle status of a session.
#[derive(Debug, Clone, Copy, PartialEq, Eq, Structural)]
pub enum SessionStatus {
    Active,
    Pending,
    Completed,
    Rejected,
    Superseded,
    Archived,
}

/// The name a status is shown and typed by.
pub open spec fn status_name(s: SessionStatus) -> Seq<char> {
    match s {
        SessionStatus::Active => "active"@,
        SessionStatus::Pending => "pending"@,
        SessionStatus::Completed => "completed"@,
        SessionStatus::Rejected => "rejected"@,
        SessionStatus::Superseded => "superseded"@,
        SessionStatus::Archived => "archived"@,
    }
}

/// The status a name stands for, if any.
pub open spec fn status_named(name: Seq<char>) -> Option<SessionStatus> {
    if name == status_name(SessionStatus::Active) {
        Some(SessionStatus::Active)
    } else if name == status_name(SessionStatus::Pending) {
        Some(SessionStatus::Pending)
    } else if name == status_name(SessionStatus::Completed) {
        Some(SessionStatus::Completed)
    } else if name == status_name(SessionStatus::Rejected) {
        Some(SessionStatus::Rejected)
    } else if name == status_name(SessionStatus::Superseded) {
        Some(SessionStatus::Superseded)
    } else if name == status_name(SessionStatus::Archived) {
        Some(SessionStatus::Archived)
    } else {
        None
    }
}

/// Whether a session is still open: active, or pending on a PR.
pub open spec fn is_open_status(s: SessionStatus) -> bool {
    s == SessionStatus::Active || s == SessionStatus::Pending
}

/// Whether two strings have the same characters.
pub(crate) fn same_text(a: &str, b: &str) -> (r: bool)
    ensures
        r == (a@ == b@),
{
    a.to_owned() == b.to_owned()
}

impl SessionStatus {
    /// The name this status is shown by.
    pub fn name(&self) -> (r: &'static str)
        ensures
            r@ == status_name(*self),
    {
        match self {
            SessionStatus::Active => "active",
            SessionStatus::Pending => "pending",
            SessionStatus::Completed => "completed",
            SessionStatus::Rejected => "rejected",
            SessionStatus::Superseded => "superseded",
            SessionStatus::Archived => "archived",
        }
    }

    /// The status named `name`, if any.
    pub fn parse(name: &str) -> (r: Option<SessionStatus>)
        ensures
            r == status_named(name@),
    {
        if same_text(name, "active") {
            Some(SessionStatus::Active)
        } else if same_text(name, "pending") {
            Some(SessionStatus::Pending)
        } else if same_text(name, "completed") {
            Some(SessionStatus::Completed)
        } else if same_text(name, "rejected") {
            Some(SessionStatus::Rejected)
        } else if same_text(name, "superseded") {
            Some(SessionStatus::Superseded)
        } else if same_text(name, "archived") {
            Some(SessionStatus::Archived)
        } else {
            None
        }
    }

    /// Whether the session is still open: active, or pending on a PR.
    pub fn is_open(&self) -> (r: bool)
        ensures
            r == is_open_status(*self),
    {
        match self {
            SessionStatus::Active | SessionStatus::Pending => true,
            _ => false,
        }
    }
}

/// Naming a status and reading the name back gives the status.
pub proof fn law_status_name_roundtrip(s: SessionStatus)
    ensures
        status_named(status_name(s)) == Some(s),
{
    reveal_strlit("active");
    reveal_strlit("pending");
    reveal_strlit("completed");
    reveal_strlit("rejected");
    reveal_strlit("superseded");
    reveal_strlit("archived");
    assert("active"@.len() == 6 && "active"@[1] == 'c');
    assert("pending"@.len() == 7);
    assert("completed"@.len() == 9);
    assert("rejected"@.len() == 8 && "rejected"@[0] == 'r');
    assert("superseded"@.len() == 10);
    assert("archived"@.len() == 8 && "archived"@[0] == 'a');
}

// ---------------------------------------------------------------------------
// Times
/// An instant: whole seconds since the Unix epoch and the nanoseconds past
/// them.
#[derive(Debug, Clone, Copy, PartialEq, Eq, Structural)]
pub struct Timestamp {
    pub secs: i64,
    pub nanos: u32,
}

/// Whether `a` is strictly earlier than `b`.
pub open spec fn earlier(a: Timestamp, b: Timestamp) -> bool {
    a.secs < b.secs || (a.secs == b.secs && a.nanos < b.nanos)
}

impl Timestamp {
    /// Whether `self` is strictly earlier than `other`.
    pub fn is_before(&self, other: &Timestamp) -> (r: bool)
        ensures
            r == earlier(*self, *other),
    {
        self.secs < other.secs || (self.secs == other.secs && self.nanos < other.nanos)
    }
}

/// What `chrono::DateTime::<Utc>::from_timestamp(secs, nanos)` displays;
/// `None` when chrono refuses the instant.
pub uninterp spec fn utc_instant_text(secs: i64, nanos: u32) -> Option<Seq<char>>;

/// The instant as `chrono` shows a UTC time (`2024-01-01 00:00:00 UTC`).
/// Calls `chrono::DateTime::<Utc>::from_timestamp` and the `Display` of the
/// result; the text is named `utc_instant_text`, the calendar arithmetic
/// and format are not restated.
#[verifier::external_body]
pub(crate) fn instant_text(t: &Timestamp) -> (r: Option<String>)
    ensures
        r is Some <==> utc_instant_text(t.secs, t.nanos) is Some,
        r matches Some(s) ==> utc_instant_text(t.secs, t.nanos) == Some(s@),
{
    chrono::DateTime::<chrono::Utc>::from_timestamp(t.secs, t.nanos).map(|d| d.to_string())
}

// ---------------------------------------------------------------------------
// Sessions
/// What the session commands read of a stored session.
#[derive(Debug, Clone)]
pub struct SessionSummary {
    pub id: String,
    pub name: String,
    pub status: SessionStatus,
    /// The working directory, as text.
    pub working_dir: String,
    pub updated_at: Timestamp,
    pub last_message_at: Option<Timestamp>,
}

/// When a session was last active: its last message, else its last update.
pub open spec fn activity_at(s: SessionSummary) -> Timestamp {
    match s.last_message_at {
        Some(t) => t,
        None => s.updated_at,
    }
}

impl SessionSummary {
    /// When the session was last active: its last message, else its last
    /// update.
    pub fn activity_at(&self) -> (r: Timestamp)
        ensures
            r == activity_at(*self),
    {
        match self.last_message_at {
            Some(t) => t,
            None => self.updated_at,
        }
    }
}

// ---------------------------------------------------------------------------
// Listing
/// Whether a session is listed under a working-directory filter: its
/// directory, lower-cased, contains the lower-cased filter.
pub open spec fn in_directory(s: SessionSummary, filter: Option<Seq<char>>) -> bool {
    match filter {
        None => true,
        Some(p) => contains_chars(lowercase_of(s.working_dir@), lowercase_of(p)),
    }
}

/// Whether session `i` is listed before session `j`: by activity, oldest
/// first when `ascending`, newest first otherwise, and in their given
/// order when equally recent.
pub open spec fn listed_before(ss: Seq<SessionSummary>, ascending: bool, i: int, j: int) -> bool {
    let a = activity_at(ss[i]);
    let b = activity_at(ss[j]);
    if ascending {
        earlier(a, b) || (a == b && i < j)
    } else {
        earlier(b, a) || (a == b && i < j)
    }
}

/// Which sessions are in the directory `filter`.
pub open spec fn directory_matches(ss: Seq<SessionSummary>, filter: Option<Seq<char>>) -> Seq<bool> {
    Seq::new(ss.len(), |j: int| in_directory(ss[j], filter))
}

/// The list of sessions `order` (positions in `ss`) is what the list
/// command shows: the sessions `keep` selects, in listing order, cut to
/// `limit` entries.
pub open spec fn is_listing(
    ss: Seq<SessionSummary>,
    keep: Seq<bool>,
    ascending: bool,
    limit: Option<usize>,
    order: Seq<usize>,
) -> bool {
    &&& forall|k: int|
        0 <= k < order.len() ==> #[trigger] order[k] < ss.len() && keep[order[k] as int]
    &&& forall|k: int, l: int|
        0 <= k < l < order.len() ==> listed_before(
            ss,
            ascending,
            #[trigger] order[k] as int,
            #[trigger] order[l] as int,
        )
    &&& forall|j: int, k: int|
        0 <= j < ss.len() && keep[j] && !order.contains(j as usize) && 0 <= k
            < order.len() ==> #[trigger] listed_before(ss, ascending, order[k] as int, j)
    &&& match limit {
        Some(m) => order.len() <= m,
        None => true,
    }
    &&& (match limit {
        Some(m) => order.len() < m,
        None => true,
    }) ==> forall|j: int|
        0 <= j < ss.len() && #[trigger] keep[j] ==> order.contains(j as usize)
}

proof fn lemma_listed_before_order(ss: Seq<SessionSummary>, ascending: bool, i: int, j: int, k: int)
    ensures
        i != j ==> (listed_before(ss, ascending, i, j) || listed_before(ss, ascending, j, i)),
        !(listed_before(ss, ascending, i, j) && listed_before(ss, ascending, j, i)),
        listed_before(ss, ascending, i, j) && listed_before(ss, ascending, j, k) ==> listed_before(
            ss,
            ascending,
            i,
            k,
        ),
        !listed_before(ss, ascending, i, i),
{
}

fn comes_before(ss: &Vec<SessionSummary>, ascending: bool, i: usize, j: usize) -> (r: bool)
    requires
        i < ss.len(),
        j < ss.len(),
    ensures
        r == listed_before(ss@, ascending, i as int, j as int),
{
    let a = ss[i].activity_at();
    let b = ss[j].activity_at();
    let same = a.secs == b.secs && a.nanos == b.nanos;
    if ascending {
        a.is_before(&b) || (same && i < j)
    } else {
        b.is_before(&a) || (same && i < j)
    }
}

/// The sessions `keep` selects, as positions in `sessions`, sorted by last
/// activity (oldest first when `ascending`, newest first otherwise, keeping
/// the given order among equally recent ones), and cut to `limit`.
pub fn order_sessions(
    sessions: &Vec<SessionSummary>,
    keep: &Vec<bool>,
    ascending: bool,
    limit: Option<usize>,
) -> (r: Vec<usize>)
    requires
        keep.len() == sessions.len(),
    ensures
        is_listing(sessions@, keep@, ascending, limit, r@),
{
    let ghost ss = sessions@;
    let mut order: Vec<usize> = Vec::new();
    let mut i: usize = 0;
    while i < sessions.len()
        invariant
            i <= sessions.len(),
            ss == sessions@,
            keep.len() == sessions.len(),
            forall|k: int| 0 <= k < order.len() ==> #[trigger] order[k] < i,
            forall|k: int, l: int|
                0 <= k < l < order.len() ==> listed_before(
                    ss,
                    ascending,
                    #[trigger] order[k] as int,
                    #[trigger] order[l] as int,
                ),
            forall|j: int|
                0 <= j < i ==> (#[trigger] keep[j] <==> order@.contains(
                    j as usize,
                )),
        decreases sessions.len() - i,
    {
        if keep[i] {
            let mut p: usize = 0;
            while p < order.len() && comes_before(sessions, ascending, order[p], i)
                invariant
                    p <= order.len(),
                    i < sessions.len(),
                    ss == sessions@,
                    keep.len() == sessions.len(),
                    forall|k: int| 0 <= k < order.len() ==> #[trigger] order[k] < i,
                    forall|k: int| 0 <= k < p ==> listed_before(ss, ascending, #[trigger] order[k] as int, i as int),
                decreases order.len() - p,
            {
                p += 1;
            }
            let ghost old_order = order@;
            proof {
                assert forall|k: int| p <= k < old_order.len() implies listed_before(
                    ss,
                    ascending,
                    i as int,
                    #[trigger] old_order[k] as int,
                ) by {
                    lemma_listed_before_order(ss, ascending, i as int, old_order[p as int] as int, old_order[k] as int);
                    lemma_listed_before_order(ss, ascending, old_order[p as int] as int, i as int, old_order[k] as int);
                    if k > p {
                        assert(listed_before(ss, ascending, old_order[p as int] as int, old_order[k] as int));
                    }
                }
            }
            order.insert(p, i);
            proof {
                let n = order@;
                assert forall|k: int, l: int| 0 <= k < l < n.len() implies listed_before(
                    ss,
                    ascending,
                    #[trigger] n[k] as int,
                    #[trigger] n[l] as int,
                ) by {
                    if k < p && l == p {
                    } else if k < p && l > p {
                        assert(n[l] == old_order[l - 1]);
                        lemma_listed_before_order(ss, ascending, n[k] as int, i as int, n[l] as int);
                    } else if k == p {
                        assert(n[l] == old_order[l - 1]);
                    } else if l < p {
                        assert(n[k] == old_order[k] && n[l] == old_order[l]);
                    } else {
                        assert(n[k] == old_order[k - 1] && n[l] == old_order[l - 1]);
                    }
                }
                assert forall|j: int| 0 <= j < i + 1 implies (#[trigger] keep[j]
                    <==> n.contains(j as usize)) by {
                    if j < i {
                        if old_order.contains(j as usize) {
                            let k = choose|k: int| 0 <= k < old_order.len() && old_order[k] == j as usize;
                            if k < p {
                                assert(n[k] == j as usize);
                            } else {
                                assert(n[k + 1] == j as usize);
                            }
                        }
                        if n.contains(j as usize) {
                            let k = choose|k: int| 0 <= k < n.len() && n[k] == j as usize;
                            if k < p {
                                assert(old_order[k] == j as usize);
                            } else if k > p {
                                assert(old_order[k - 1] == j as usize);
                            }
                        }
                    } else {
                        assert(n[p as int] == i);
                    }
                }
            }
        } else {
            proof {
                assert forall|j: int| 0 <= j < i + 1 implies (#[trigger] keep[j]
                    <==> order@.contains(j as usize)) by {
                    if j == i {
                        if order@.contains(j as usize) {
                            let k = choose|k: int| 0 <= k < order.len() && order@[k] == j as usize;
                            assert(order[k] < i);
                        }
                    }
                }
            }
        }
        i += 1;
    }
    let ghost full = order@;
    match limit {
        Some(m) => {
            order.truncate(m);
        },
        None => {},
    }
    proof {
        let r = order@;
        assert forall|j: int, k: int|
            0 <= j < ss.len() && keep[j] && !r.contains(j as usize) && 0 <= k
                < r.len() implies #[trigger] listed_before(ss, ascending, r[k] as int, j) by {
            assert(full.contains(j as usize));
            let q = choose|q: int| 0 <= q < full.len() && full[q] == j as usize;
            if q < r.len() {
                assert(r[q] == j as usize);
            }
            assert(r[k] == full[k]);
        }
        assert forall|j: int|
            0 <= j < ss.len() && #[trigger] keep[j] && r.len() == full.len()
                implies r.contains(j as usize) by {
            assert(r =~= full);
        }
    }
    order
}

/// The sessions the list command shows, as positions in `sessions`: those
/// whose working directory contains `dir_filter` (both lower-cased), sorted
/// by last activity (oldest first when `ascending`, newest first otherwise,
/// keeping the given order among equally recent ones), and cut to `limit`.
pub fn listed_session_order(
    sessions: &Vec<SessionSummary>,
    dir_filter: Option<&str>,
    ascending: bool,
    limit: Option<usize>,
) -> (r: Vec<usize>)
    ensures
        is_listing(
            sessions@,
            directory_matches(
                sessions@,
                match dir_filter {
                    Some(p) => Some(p@),
                    None => None,
                },
            ),
            ascending,
            limit,
            r@,
        ),
{
    let ghost filter = match dir_filter {
        Some(p) => Some(p@),
        None => None::<Seq<char>>,
    };
    let pattern: Option<String> = match dir_filter {
        Some(p) => Some(to_lowercase(p)),
        None => None,
    };
    let mut keep: Vec<bool> = Vec::new();
    let mut i: usize = 0;
    while i < sessions.len()
        invariant
            i <= sessions.len(),
            keep.len() == i,
            match pattern {
                Some(p) => filter matches Some(f) && p@ == lowercase_of(f),
                None => filter is None,
            },
            forall|j: int| 0 <= j < i ==> #[trigger] keep@[j] == in_directory(sessions@[j], filter),
        decreases sessions.len() - i,
    {
        let k = match &pattern {
            Some(p) => {
                let dir = to_lowercase(sessions[i].working_dir.as_str());
                contains_str(dir.as_str(), p.as_str())
            },
            None => true,
        };
        keep.push(k);
        i += 1;
    }
    assert(keep@ =~= directory_matches(sessions@, filter));
    order_sessions(sessions, &keep, ascending, limit)
}

// ---------------------------------------------------------------------------
// Looking sessions up
/// Which sessions a lookup by name considers: all (`None`), the open ones
/// (`Some(true)`), or the closed ones (`Some(false)`).
pub open spec fn in_scope(s: SessionStatus, open_only: Option<bool>) -> bool {
    match open_only {
        None => true,
        Some(true) => is_open_status(s),
        Some(false) => !is_open_status(s),
    }
}

/// Whether session `k` answers a lookup by `name` within `open_only`.
pub open spec fn named_in_scope(
    ss: Seq<SessionSummary>,
    name: Seq<char>,
    open_only: Option<bool>,
    k: int,
) -> bool {
    ss[k].name@ == name && in_scope(ss[k].status, open_only)
}

/// The first session named `name` among those `open_only` selects, as a
/// position in `sessions`.
pub fn first_session_named(sessions: &Vec<SessionSummary>, name: &str, open_only: Option<bool>) -> (r:
    Option<usize>)
    ensures
        match r {
            Some(k) => k < sessions.len() && named_in_scope(sessions@, name@, open_only, k as int)
                && forall|j: int| 0 <= j < k ==> !named_in_scope(sessions@, name@, open_only, j),
            None => forall|j: int|
                0 <= j < sessions.len() ==> !named_in_scope(sessions@, name@, open_only, j),
        },
{
    let mut k: usize = 0;
    while k < sessions.len()
        invariant
            k <= sessions.len(),
            forall|j: int| 0 <= j < k ==> !named_in_scope(sessions@, name@, open_only, j),
        decreases sessions.len() - k,
    {
        let s = &sessions[k];
        let scoped = match open_only {
            None => true,
            Some(true) => s.status.is_open(),
            Some(false) => !s.status.is_open(),
        };
        if scoped && same_text(s.name.as_str(), name) {
            return Some(k);
        }
        k += 1;
    }
    None
}

// ---------------------------------------------------------------------------
// Selecting sessions by a pattern on their ids
/// `regex::Regex::new` accepts the pattern.
pub uninterp spec fn regex_accepts(pattern: Seq<char>) -> bool;

/// `regex::Regex::is_match` of the compiled pattern finds a match in the
/// text.
pub uninterp spec fn regex_finds(pattern: Seq<char>, text: Seq<char>) -> bool;

/// Calls `regex::Regex::new` on the pattern and, when it compiles,
/// `regex::Regex::is_match` on each text. Compilation is named
/// `regex_accepts`, each answer `regex_finds`; the regular-expression
/// language is not restated. The error is the compiler's message.
#[verifier::external_body]
fn regex_matches_each(pattern: &str, texts: &Vec<String>) -> (r: Result<Vec<bool>, String>)
    ensures
        r is Ok <==> regex_accepts(pattern@),
        r matches Ok(v) ==> v.len() == texts.len() && forall|k: int|
            0 <= k < texts.len() ==> v[k] == regex_finds(pattern@, #[trigger] texts[k]@),
{
    match regex::Regex::new(pattern) {
        Ok(re) => Ok(texts.iter().map(|t| re.is_match(t)).collect()),
        Err(e) => Err(e.to_string()),
    }
}

/// The positions among the first `n` of `flags` that are set, in order.
pub open spec fn set_positions(flags: Seq<bool>, n: int) -> Seq<usize>
    decreases n,
{
    if n <= 0 {
        Seq::empty()
    } else if flags[n - 1] {
        set_positions(flags, n - 1).push((n - 1) as usize)
    } else {
        set_positions(flags, n - 1)
    }
}

/// Exactly the set flags are picked, each once, in increasing order: for
/// every position `k` below `n`, `k` is picked when and only when its flag
/// is set, the first position included.
pub proof fn law_set_positions_exact(flags: Seq<bool>, n: int)
    requires
        0 <= n <= flags.len() <= usize::MAX,
    ensures
        forall|k: int| 0 <= k < n ==> (set_positions(flags, n).contains(k as usize) <==> flags[k]),
        forall|q: int|
            0 <= q < set_positions(flags, n).len() ==> (#[trigger] set_positions(flags, n)[q]) < n,
        forall|p: int, q: int|
            0 <= p < q < set_positions(flags, n).len() ==> (#[trigger] set_positions(flags, n)[p])
                < (#[trigger] set_positions(flags, n)[q]),
    decreases n,
{
    if n > 0 {
        law_set_positions_exact(flags, n - 1);
        let r = set_positions(flags, n - 1);
        assert forall|k: int| 0 <= k < n implies (set_positions(flags, n).contains(k as usize)
            <==> flags[k]) by {
            if flags[n - 1] {
                lemma_push_contains(r, (n - 1) as usize, k as usize);
            }
            if k == n - 1 && r.contains(k as usize) {
                let q = choose|q: int| 0 <= q < r.len() && r[q] == k as usize;
                assert(r[q] < n - 1);
            }
            if k < n - 1 && !flags[n - 1] {
                assert(set_positions(flags, n) == r);
            }
        }
        if flags[n - 1] {
            let w = r.push((n - 1) as usize);
            assert(set_positions(flags, n) == w);
            assert forall|p: int, q: int| 0 <= p < q < w.len() implies (#[trigger] w[p]) < (
            #[trigger] w[q]) by {
                if q == w.len() - 1 {
                    assert(w[p] == r[p]);
                } else {
                    assert(w[p] == r[p] && w[q] == r[q]);
                }
            }
            assert forall|q: int| 0 <= q < w.len() implies (#[trigger] w[q]) < n by {
                if q < r.len() {
                    assert(w[q] == r[q]);
                }
            }
        }
    }
}

/// A session whose lower-cased working directory starts with (or is) the
/// lower-cased filter is listed under that filter.
pub proof fn law_directory_prefix_listed(ss: Seq<SessionSummary>, filter: Seq<char>, j: int)
    requires
        0 <= j < ss.len(),
        lowercase_of(filter).len() <= lowercase_of(ss[j].working_dir@).len(),
        lowercase_of(ss[j].working_dir@).take(lowercase_of(filter).len() as int) == lowercase_of(
            filter,
        ),
    ensures
        directory_matches(ss, Some(filter))[j],
{
    let d = lowercase_of(ss[j].working_dir@);
    law_contains_prefix(d, lowercase_of(filter).len() as int);
}

/// For each session, whether `pattern` matches its id.
pub open spec fn id_matches(ss: Seq<SessionSummary>, pattern: Seq<char>) -> Seq<bool> {
    Seq::new(ss.len(), |k: int| regex_finds(pattern, ss[k].id@))
}

/// The positions of the set flags, in order.
pub fn positions_of_set(flags: &Vec<bool>) -> (r: Vec<usize>)
    ensures
        r@ == set_positions(flags@, flags.len() as int),
{
    let mut r: Vec<usize> = Vec::new();
    let mut k: usize = 0;
    while k < flags.len()
        invariant
            k <= flags.len(),
            r@ == set_positions(flags@, k as int),
        decreases flags.len() - k,
    {
        if flags[k] {
            r.push(k);
        }
        k += 1;
    }
    r
}

/// The sessions whose id `pattern` matches, as positions in `sessions`, in
/// order; the compiler's message when the pattern is not a valid regular
/// expression.
pub fn sessions_with_id_matching(sessions: &Vec<SessionSummary>, pattern: &str) -> (r: Result<
    Vec<usize>,
    String,
>)
    ensures
        r is Ok <==> regex_accepts(pattern@),
        r matches Ok(v) ==> v@ == set_positions(
            id_matches(sessions@, pattern@),
            sessions.len() as int,
        ),
{
    let mut ids: Vec<String> = Vec::new();
    let mut i: usize = 0;
    while i < sessions.len()
        invariant
            i <= sessions.len(),
            ids.len() == i,
            forall|k: int| 0 <= k < i ==> #[trigger] ids@[k]@ == sessions@[k].id@,
        decreases sessions.len() - i,
    {
        ids.push(sessions[i].id.clone());
        i += 1;
    }
    let found = match regex_matches_each(pattern, &ids) {
        Ok(v) => v,
        Err(e) => {
            return Err(e);
        },
    };
    assert forall|j: int| 0 <= j < found.len() implies found[j] == #[trigger] id_matches(
        sessions@,
        pattern@,
    )[j] by {
        assert(ids@[j]@ == sessions@[j].id@);
    }
    assert(found@ =~= id_matches(sessions@, pattern@));
    Ok(positions_of_set(&found))
}

} // verus!
