//! Infer a session's lifecycle status from GitHub pull requests referenced in
//! its conversation. A session that produced a PR is pending while the PR is
//! open, completed when it merges, and rejected when it is closed unmerged.

use vstd::prelude::*;
use vstd::string::*;

use crate::conversation::{
    content_texts, contents_texts, law_contents_texts_in_order, law_contents_texts_single,
    law_messages_texts_in_order, lemma_contents_texts_insert, lemma_messages_texts_same,
    messages_texts, strings_view, texts_of_content, Conversation, Message, MessageContent,
};
use crate::mentions::{
    absorb, latest_mentions, law_latest_mentions_idempotent, law_latest_mentions_in_parts,
    law_latest_mentions_last, lemma_absorb_concat, lemma_move_to_end_no_duplicates,
    lemma_remove_is_without, lemma_without_absent, move_to_end, without,
};
use crate::session::SessionStatus;
use crate::text::{
    ascii_lower, ascii_lower_char, ascii_upper_char, is_white_space, lemma_ascii_upper_absorbs,
    lemma_trim_map, lemma_trim_padding, ascii_upper, chars_of, parse_decimal_u64, parse_u64, trim_whitespace, trimmed_bounds,
    upper_equals,
};

verus! {

/// A pull request on GitHub: `owner/repo#number`.
#[derive(Debug, Clone, PartialEq, Eq)]
pub struct GitHubPrRef {
    pub owner: String,
    pub repo: String,
    pub number: u64,
}

/// A pull request reference as plain values: owner, repository, number.
pub type PrRefView = (Seq<char>, Seq<char>, u64);

impl View for GitHubPrRef {
    type V = PrRefView;

    open spec fn view(&self) -> PrRefView {
        (self.owner@, self.repo@, self.number)
    }
}

/// The plain values of a list of references.
pub open spec fn pr_views(v: Seq<GitHubPrRef>) -> Seq<PrRefView> {
    v.map_values(|r: GitHubPrRef| r@)
}

impl GitHubPrRef {
    /// `owner/repo`, the form `gh --repo` takes.
    pub fn repo_slug(&self) -> (r: String)
        ensures
            r@ == self.owner@ + seq!['/'] + self.repo@,
    {
        let mut s = self.owner.clone();
        s.push('/');
        s.append(self.repo.as_str());
        s
    }

    fn same_ref(&self, other: &GitHubPrRef) -> (r: bool)
        ensures
            r == (self@ == other@),
    {
        self.number == other.number && self.owner == other.owner && self.repo == other.repo
    }
}

// ---------------------------------------------------------------------------
// PR states
/// The status a GitHub PR state (as `gh pr view --json state` reports it)
/// stands for, read without surrounding whitespace and without regard to
/// ASCII case.
pub open spec fn pr_state_status(state: Seq<char>) -> Option<SessionStatus> {
    let s = ascii_upper(trim_whitespace(state));
    if s == seq!['O', 'P', 'E', 'N'] {
        Some(SessionStatus::Pending)
    } else if s == seq!['M', 'E', 'R', 'G', 'E', 'D'] {
        Some(SessionStatus::Completed)
    } else if s == seq!['C', 'L', 'O', 'S', 'E', 'D'] {
        Some(SessionStatus::Rejected)
    } else {
        None
    }
}

/// Map a GitHub PR state (as reported by `gh pr view --json state`) to a
/// session lifecycle status.
pub fn status_from_github_pr_state(state: &str) -> (r: Option<SessionStatus>)
    ensures
        r == pr_state_status(state@),
{
    let chars = chars_of(state);
    let (a, b) = trimmed_bounds(&chars);
    let open = vec!['O', 'P', 'E', 'N'];
    let merged = vec!['M', 'E', 'R', 'G', 'E', 'D'];
    let closed = vec!['C', 'L', 'O', 'S', 'E', 'D'];
    assert(open@ == seq!['O', 'P', 'E', 'N']);
    assert(merged@ == seq!['M', 'E', 'R', 'G', 'E', 'D']);
    assert(closed@ == seq!['C', 'L', 'O', 'S', 'E', 'D']);
    if upper_equals(&chars, a, b, &open) {
        Some(SessionStatus::Pending)
    } else if upper_equals(&chars, a, b, &merged) {
        Some(SessionStatus::Completed)
    } else if upper_equals(&chars, a, b, &closed) {
        Some(SessionStatus::Rejected)
    } else {
        None
    }
}

/// The state is read without regard to ASCII case and surrounding
/// whitespace: lower-casing, upper-casing or padding it changes nothing.
pub proof fn law_pr_state_ignores_case_and_padding(state: Seq<char>)
    ensures
        pr_state_status(ascii_lower(state)) == pr_state_status(state),
        pr_state_status(ascii_upper(state)) == pr_state_status(state),
        pr_state_status(seq![' ', '\t'] + state + seq!['\n']) == pr_state_status(state),
{
    let lower = |c: char| ascii_lower_char(c);
    let upper = |c: char| ascii_upper_char(c);
    assert forall|c: char| #[trigger] is_white_space(lower(c)) == is_white_space(c) by {
        lemma_ascii_upper_absorbs(c);
    }
    assert forall|c: char| #[trigger] is_white_space(upper(c)) == is_white_space(c) by {
        lemma_ascii_upper_absorbs(c);
    }
    lemma_trim_map(state, lower);
    lemma_trim_map(state, upper);
    let t = trim_whitespace(state);
    assert(ascii_upper(trim_whitespace(ascii_lower(state))) =~= ascii_upper(t)) by {
        assert forall|k: int| 0 <= k < t.len() implies ascii_upper_char(
            #[trigger] t.map_values(lower)[k],
        ) == ascii_upper_char(t[k]) by {
            lemma_ascii_upper_absorbs(t[k]);
        }
    }
    assert(ascii_upper(trim_whitespace(ascii_upper(state))) =~= ascii_upper(t)) by {
        assert forall|k: int| 0 <= k < t.len() implies ascii_upper_char(
            #[trigger] t.map_values(upper)[k],
        ) == ascii_upper_char(t[k]) by {
            lemma_ascii_upper_absorbs(t[k]);
        }
    }
    lemma_trim_padding(state);
}

// ---------------------------------------------------------------------------
// PR links in text
/// The captures of `github\.com/([A-Za-z0-9_.-]+)/([A-Za-z0-9_.-]+)/pull/(\d+)`
/// over its successive non-overlapping matches in a text: owner, repository
/// and number text of each.
pub uninterp spec fn pr_url_matches(text: Seq<char>) -> Seq<(Seq<char>, Seq<char>, Seq<char>)>;

/// Calls `regex::Regex::new` on the PR link pattern and
/// `regex::Regex::captures_iter` on the text. The result is named
/// `pr_url_matches` of the text; what the pattern matches is not restated.
#[verifier::external_body]
fn pr_url_captures(text: &str) -> (r: Vec<(String, String, String)>)
    ensures
        r@.map_values(|c: (String, String, String)| (c.0@, c.1@, c.2@)) == pr_url_matches(text@),
{
    let pattern = regex::Regex::new(r"github\.com/([A-Za-z0-9_.-]+)/([A-Za-z0-9_.-]+)/pull/(\d+)")
        .unwrap();
    pattern.captures_iter(text).map(|c| (c[1].to_string(), c[2].to_string(), c[3].to_string())).collect()
}

/// The PR number a link's digits give: their `u64` value, or 0 when they do
/// not read as one.
pub open spec fn pr_number_from_digits(digits: Seq<char>) -> u64 {
    match parse_u64(digits) {
        Some(n) => n,
        None => 0,
    }
}

/// The characters of each capture.
pub open spec fn capture_views(c: Seq<(String, String, String)>) -> Seq<
    (Seq<char>, Seq<char>, Seq<char>),
> {
    c.map_values(|x: (String, String, String)| (x.0@, x.1@, x.2@))
}

/// The PR references that link captures stand for, in order.
pub open spec fn refs_of_captures(c: Seq<(Seq<char>, Seq<char>, Seq<char>)>) -> Seq<PrRefView> {
    c.map_values(|m: (Seq<char>, Seq<char>, Seq<char>)| (m.0, m.1, pr_number_from_digits(m.2)))
}

/// The PR references a text mentions, in order, repeats included.
pub open spec fn text_pr_mentions(text: Seq<char>) -> Seq<PrRefView> {
    refs_of_captures(pr_url_matches(text))
}

fn pr_number(digits: &str) -> (n: u64)
    ensures
        n == pr_number_from_digits(digits@),
{
    match parse_decimal_u64(digits) {
        Some(n) => n,
        None => 0,
    }
}

fn position_of(refs: &Vec<GitHubPrRef>, pr: &GitHubPrRef) -> (r: Option<usize>)
    ensures
        match r {
            Some(i) => i < refs.len() && refs@[i as int]@ == pr@,
            None => !pr_views(refs@).contains(pr@),
        },
{
    let mut i: usize = 0;
    while i < refs.len()
        invariant
            i <= refs.len(),
            forall|k: int| 0 <= k < i ==> refs@[k]@ != pr@,
        decreases refs.len() - i,
    {
        if refs[i].same_ref(pr) {
            return Some(i);
        }
        i += 1;
    }
    None
}

/// Records one mention of `pr`: an earlier entry for it is removed and it
/// goes last.
fn mention(refs: &mut Vec<GitHubPrRef>, pr: GitHubPrRef)
    requires
        pr_views(old(refs)@).no_duplicates(),
    ensures
        pr_views(final(refs)@) == move_to_end(pr_views(old(refs)@), pr@),
        pr_views(final(refs)@).no_duplicates(),
{
    let ghost before = pr_views(refs@);
    match position_of(refs, &pr) {
        Some(idx) => {
            refs.remove(idx);
            proof {
                lemma_remove_is_without(before, idx as int);
                assert(pr_views(refs@) =~= before.remove(idx as int));
            }
        },
        None => {
            proof {
                lemma_without_absent(before, pr@);
            }
        },
    }
    let ghost pv = pr@;
    refs.push(pr);
    proof {
        assert(pr_views(refs@) =~= without(before, pv).push(pv));
        lemma_move_to_end_no_duplicates(before, pv);
    }
}

/// Records the mentions `prs`, in order.
fn mention_all(refs: &mut Vec<GitHubPrRef>, prs: Vec<GitHubPrRef>)
    requires
        pr_views(old(refs)@).no_duplicates(),
    ensures
        pr_views(final(refs)@) == absorb(pr_views(old(refs)@), pr_views(prs@)),
        pr_views(final(refs)@).no_duplicates(),
{
    let ghost start = pr_views(refs@);
    let ghost all = pr_views(prs@);
    for pr in it: prs.into_iter()
        invariant
            pr_views(refs@).no_duplicates(),
            it.seq() == prs@,
            all == pr_views(prs@),
            pr_views(refs@) == absorb(start, all.take(it.index() as int)),
    {
        let ghost k = it.index() as int;
        assert(all.take(k + 1).drop_last() =~= all.take(k));
        assert(all.take(k + 1).last() == pr@);
        mention(refs, pr);
    }
    assert(all.take(all.len() as int) =~= all);
}

/// The PRs that link captures (owner, repository, number text) stand for,
/// each once, ordered by their last mention.
pub fn pr_refs_from_captures(captures: Vec<(String, String, String)>) -> (r: Vec<GitHubPrRef>)
    ensures
        pr_views(r@) == latest_mentions(refs_of_captures(capture_views(captures@))),
{
    let ghost found = refs_of_captures(capture_views(captures@));
    let mut refs: Vec<GitHubPrRef> = Vec::new();
    assert(pr_views(refs@) =~= Seq::<PrRefView>::empty());
    for cap in it: captures.into_iter()
        invariant
            it.seq() == captures@,
            found == refs_of_captures(capture_views(captures@)),
            pr_views(refs@).no_duplicates(),
            pr_views(refs@) == latest_mentions(found.take(it.index() as int)),
    {
        let ghost k = it.index() as int;
        let (owner, repo, digits) = cap;
        let number = pr_number(digits.as_str());
        let pr = GitHubPrRef { owner, repo, number };
        proof {
            assert(capture_views(captures@)[k] == (owner@, repo@, digits@));
            assert(found[k] == pr@);
            assert(found.take(k + 1).drop_last() =~= found.take(k));
        }
        mention(&mut refs, pr);
    }
    assert(found.take(found.len() as int) =~= found);
    refs
}

/// The PRs a text links to, each once, ordered by their last mention: a PR
/// linked again moves to the end.
pub fn extract_github_pr_refs(text: &str) -> (r: Vec<GitHubPrRef>)
    ensures
        pr_views(r@) == latest_mentions(text_pr_mentions(text@)),
{
    pr_refs_from_captures(pr_url_captures(text))
}

/// When the links found in `a`, a space and `b` are those of `a` followed
/// by those of `b`, the PRs of the joined text are the fold of the PRs of
/// `a` followed by those of `b`.
pub proof fn law_extract_of_joined_texts(a: Seq<char>, b: Seq<char>)
    requires
        pr_url_matches(a + seq![' '] + b) == pr_url_matches(a) + pr_url_matches(b),
    ensures
        latest_mentions(text_pr_mentions(a + seq![' '] + b)) == latest_mentions(
            latest_mentions(text_pr_mentions(a)) + latest_mentions(text_pr_mentions(b)),
        ),
{
    let ma = text_pr_mentions(a);
    let mb = text_pr_mentions(b);
    assert(text_pr_mentions(a + seq![' '] + b) =~= ma + mb);
    law_latest_mentions_in_parts(ma, mb);
    lemma_absorb_concat(Seq::<PrRefView>::empty(), latest_mentions(ma), latest_mentions(mb));
    law_latest_mentions_idempotent(ma);
}

// ---------------------------------------------------------------------------
// PR links in a conversation
/// The PR references a run of texts mentions, text after text.
pub open spec fn texts_pr_mentions(texts: Seq<Seq<char>>) -> Seq<PrRefView>
    decreases texts.len(),
{
    if texts.len() == 0 {
        Seq::empty()
    } else {
        texts_pr_mentions(texts.drop_last()) + text_pr_mentions(texts.last())
    }
}

/// The PR references a conversation mentions, in the order of its texts.
pub open spec fn conversation_pr_mentions(conversation: Conversation) -> Seq<PrRefView> {
    texts_pr_mentions(messages_texts(conversation@))
}

/// Texts are read first to last: the PR mentions of two runs of texts, one
/// after the other, are those of the first run followed by those of the
/// second.
pub proof fn law_texts_pr_mentions_in_order(a: Seq<Seq<char>>, b: Seq<Seq<char>>)
    ensures
        texts_pr_mentions(a + b) == texts_pr_mentions(a) + texts_pr_mentions(b),
    decreases b.len(),
{
    if b.len() == 0 {
        assert(a + b =~= a);
        assert(texts_pr_mentions(a) + texts_pr_mentions(b) =~= texts_pr_mentions(a));
    } else {
        law_texts_pr_mentions_in_order(a, b.drop_last());
        assert((a + b).drop_last() =~= a + b.drop_last());
        assert((a + b).last() == b.last());
        assert(texts_pr_mentions(a) + texts_pr_mentions(b.drop_last()) + text_pr_mentions(b.last())
            =~= texts_pr_mentions(a) + (texts_pr_mentions(b.drop_last()) + text_pr_mentions(
            b.last(),
        )));
    }
}

/// Within one message, a later piece of content is read after an earlier
/// one: for a conversation whose only message holds the contents `cs` and
/// then `c`, the PR list is the fold of the mentions in `cs` followed by
/// those in `c`; when `c` mentions a PR, the last entry is the last PR `c`
/// mentions.
pub proof fn law_later_content_mentioned_later(
    conversation: Conversation,
    cs: Seq<MessageContent>,
    c: MessageContent,
)
    requires
        conversation@.len() == 1,
        conversation@[0].content@ == cs.push(c),
    ensures
        latest_mentions(conversation_pr_mentions(conversation)) == latest_mentions(
            texts_pr_mentions(contents_texts(cs)) + texts_pr_mentions(content_texts(c)),
        ),
        texts_pr_mentions(content_texts(c)).len() > 0 ==> latest_mentions(
            conversation_pr_mentions(conversation),
        ).last() == texts_pr_mentions(content_texts(c)).last(),
{
    let ms = conversation@;
    assert(ms =~= Seq::<Message>::empty() + seq![ms[0]]);
    law_messages_texts_in_order(Seq::<Message>::empty(), seq![ms[0]]);
    assert(seq![ms[0]].drop_last() =~= Seq::<Message>::empty());
    assert(messages_texts(seq![ms[0]]) =~= contents_texts(cs.push(c)));
    assert(cs.push(c) =~= cs + seq![c]);
    law_contents_texts_in_order(cs, seq![c]);
    law_contents_texts_single(c);
    assert(messages_texts(ms) =~= contents_texts(cs) + content_texts(c));
    law_texts_pr_mentions_in_order(contents_texts(cs), content_texts(c));
    let all = texts_pr_mentions(contents_texts(cs)) + texts_pr_mentions(content_texts(c));
    if texts_pr_mentions(content_texts(c)).len() > 0 {
        assert(all.last() == texts_pr_mentions(content_texts(c)).last());
        law_latest_mentions_last(all);
    }
}

/// The last entry for a conversation is the PR mentioned last in it.
pub proof fn law_last_ref_is_most_recent_mention(conversation: Conversation)
    requires
        conversation_pr_mentions(conversation).len() > 0,
    ensures
        latest_mentions(conversation_pr_mentions(conversation)).len() > 0,
        latest_mentions(conversation_pr_mentions(conversation)).last() == conversation_pr_mentions(
            conversation,
        ).last(),
{
    law_latest_mentions_last(conversation_pr_mentions(conversation));
}

/// Content that carries no text for PR links (a failed tool call, a tool
/// request, an image, or tool output without text), put anywhere in a
/// message, whatever it holds, leaves the conversation's PR list as it was.
pub proof fn law_textless_content_changes_no_refs(
    c1: Conversation,
    c2: Conversation,
    i: int,
    j: int,
    extra: MessageContent,
)
    requires
        c2@.len() == c1@.len(),
        0 <= i < c1@.len(),
        forall|k: int| 0 <= k < c1@.len() && k != i ==> #[trigger] c2@[k] == c1@[k],
        0 <= j <= c1@[i].content@.len(),
        c2@[i].content@ == c1@[i].content@.insert(j, extra),
        content_texts(extra) == Seq::<Seq<char>>::empty(),
    ensures
        latest_mentions(conversation_pr_mentions(c2)) == latest_mentions(
            conversation_pr_mentions(c1),
        ),
{
    lemma_contents_texts_insert(c1@[i].content@, j, extra);
    assert forall|k: int| 0 <= k < c1@.len() implies contents_texts(#[trigger] c1@[k].content@)
        == contents_texts(c2@[k].content@) by {
        if k != i {
            assert(c2@[k] == c1@[k]);
        }
    }
    lemma_messages_texts_same(c1@, c2@);
}

/// All PRs referenced by a conversation, each once, ordered by their last
/// mention. The last entry is the most recently mentioned PR and the best
/// candidate for status inference.
pub fn find_conversation_pr_refs(conversation: &Conversation) -> (r: Vec<GitHubPrRef>)
    ensures
        pr_views(r@) == latest_mentions(conversation_pr_mentions(*conversation)),
{
    let messages = conversation.messages();
    let mut refs: Vec<GitHubPrRef> = Vec::new();
    assert(pr_views(refs@) =~= Seq::<PrRefView>::empty());
    let mut i: usize = 0;
    while i < messages.len()
        invariant
            i <= messages.len(),
            messages@ == conversation@,
            pr_views(refs@).no_duplicates(),
            pr_views(refs@) == latest_mentions(
                texts_pr_mentions(messages_texts(messages@.take(i as int))),
            ),
        decreases messages.len() - i,
    {
        let contents = &messages[i].content;
        let ghost done = messages_texts(messages@.take(i as int));
        let mut j: usize = 0;
        while j < contents.len()
            invariant
                j <= contents.len(),
                i < messages.len(),
                contents@ == messages@[i as int].content@,
                done == messages_texts(messages@.take(i as int)),
                pr_views(refs@).no_duplicates(),
                pr_views(refs@) == latest_mentions(
                    texts_pr_mentions(done + contents_texts(contents@.take(j as int))),
                ),
            decreases contents.len() - j,
        {
            let texts = texts_of_content(&contents[j]);
            let ghost before = done + contents_texts(contents@.take(j as int));
            let mut k: usize = 0;
            while k < texts.len()
                invariant
                    k <= texts.len(),
                    pr_views(refs@).no_duplicates(),
                    pr_views(refs@) == latest_mentions(
                        texts_pr_mentions(before + strings_view(texts@).take(k as int)),
                    ),
                decreases texts.len() - k,
            {
                let prs = extract_github_pr_refs(texts[k].as_str());
                let ghost so_far = before + strings_view(texts@).take(k as int);
                mention_all(&mut refs, prs);
                proof {
                    law_latest_mentions_in_parts(
                        texts_pr_mentions(so_far),
                        text_pr_mentions(texts@[k as int]@),
                    );
                    let next = before + strings_view(texts@).take(k + 1);
                    assert(next =~= so_far.push(texts@[k as int]@));
                    assert(next.drop_last() =~= so_far);
                }
                k += 1;
            }
            proof {
                assert(strings_view(texts@).take(texts.len() as int) =~= strings_view(texts@));
                let cs = contents@.take(j + 1);
                assert(cs.drop_last() =~= contents@.take(j as int));
                assert(cs.last() == contents@[j as int]);
                assert(done + contents_texts(cs) =~= before + content_texts(contents@[j as int]));
            }
            j += 1;
        }
        proof {
            assert(contents@.take(contents.len() as int) =~= contents@);
            let ms = messages@.take(i + 1);
            assert(ms.drop_last() =~= messages@.take(i as int));
            assert(ms.last() == messages@[i as int]);
        }
        i += 1;
    }
    assert(messages@.take(messages.len() as int) =~= messages@);
    refs
}

} // verus!
