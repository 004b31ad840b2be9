//! Dismissed mentions: which of them may have come up again, and which stay out of the list.
use crate::dismiss::{contains_mention, is_mentioned, DismissStore};
use crate::github::query::{alias, alias_text};
use crate::github::types::{CommentReply, CommentsReply};
use crate::ids::{id_views, unique_keys, IdMap, IdSet};
use crate::merge::time_or_epoch;
use crate::pr_map::{keep_prs, pr_at, pr_count, pr_entries};
use crate::text::{decimal, eq_ignore_ascii_case, same_ignoring_case};
use crate::timestamp::{parse_utc, rfc3339_value, Timestamp};
use crate::types::{PrId, PrIdView, PrRole, PullRequest};
use indexmap::IndexMap;
use vstd::prelude::*;
use vstd::string::*;

verus! {

/// A recent comment on a pull request.
#[derive(Debug)]
pub struct RecentComment {
    pub body_text: String,
    pub created_at: Timestamp,
    pub author_login: Option<String>,
}

/// Whether the comment was written by `username`.
pub open spec fn is_own(comment: RecentComment, username: Seq<char>) -> bool {
    comment.author_login matches Some(login) && same_ignoring_case(login@, username)
}

/// Whether a comment mentions `username` after the given time, and is by somebody else.
pub open spec fn is_new_mention(
    comment: RecentComment,
    dismissed_at: Timestamp,
    username: Seq<char>,
) -> bool {
    &&& comment.created_at.after(dismissed_at)
    &&& !is_own(comment, username)
    &&& is_mentioned(comment.body_text@, username)
}

/// Whether one of the comments mentions `username` after the given time, and is by somebody else.
pub open spec fn has_new_mention(
    comments: Seq<RecentComment>,
    dismissed_at: Timestamp,
    username: Seq<char>,
) -> bool {
    exists|i: int|
        0 <= i < comments.len() && is_new_mention(
            #[trigger] comments[i],
            dismissed_at,
            username,
        )
}

/// Whether one of the comments mentions `username` after the given time, and is by somebody else.
pub fn mentioned_again(
    comments: &Vec<RecentComment>,
    dismissed_at: Timestamp,
    username: &str,
) -> (r: bool)
    ensures
        r == has_new_mention(comments@, dismissed_at, username@),
{
    for i in 0..comments.len()
        invariant
            forall|j: int|
                0 <= j < i ==> !is_new_mention(#[trigger] comments@[j], dismissed_at, username@),
    {
        let comment = &comments[i];
        let own = match &comment.author_login {
            Some(login) => eq_ignore_ascii_case(login.as_str(), username),
            None => false,
        };
        if comment.created_at.is_after(&dismissed_at) && !own && contains_mention(
            comment.body_text.as_str(),
            username,
        ) {
            assert(is_new_mention(comments@[i as int], dismissed_at, username@));
            return true;
        }
    }
    false
}

/// Whether a dismissed mention is to be looked at again through the given token: it was updated
/// after it was dismissed, and the token found it.
pub open spec fn needs_recheck(
    entry: (PrId, PullRequest),
    dismissed: Map<PrIdView, Timestamp>,
    owners: Map<PrIdView, usize>,
    token: usize,
) -> bool {
    &&& entry.1.role is Mentioned
    &&& dismissed.contains_key(entry.0@)
    &&& entry.1.updated_at.after(dismissed[entry.0@])
    &&& owners.contains_key(entry.0@)
    &&& owners[entry.0@] == token
}

/// The dismissed mentions that are to be looked at again through a token, and when each was
/// dismissed.
pub fn recheck_candidates(
    prs: &IndexMap<PrId, PullRequest>,
    dismissed: &IdMap<Timestamp>,
    owners: &IdMap<usize>,
    token: usize,
) -> (r: Vec<(PrId, Timestamp)>)
    requires
        dismissed.wf(),
        owners.wf(),
    ensures
        r@ == pr_entries(*prs).filter(
            |entry: (PrId, PullRequest)| needs_recheck(entry, dismissed@, owners@, token),
        ).map_values(|entry: (PrId, PullRequest)| (entry.0, dismissed@[entry.0@])),
{
    let mut out: Vec<(PrId, Timestamp)> = Vec::new();
    let ghost entries = pr_entries(*prs);
    let ghost wanted = |entry: (PrId, PullRequest)|
        needs_recheck(entry, dismissed@, owners@, token);
    let ghost dated = |entry: (PrId, PullRequest)| (entry.0, dismissed@[entry.0@]);
    assert(entries.take(0).filter(wanted).map_values(dated) =~= Seq::empty());
    let count = pr_count(prs);
    for i in 0..count
        invariant
            dismissed.wf(),
            owners.wf(),
            entries == pr_entries(*prs),
            count == entries.len(),
            wanted == |entry: (PrId, PullRequest)|
                needs_recheck(entry, dismissed@, owners@, token),
            dated == |entry: (PrId, PullRequest)| (entry.0, dismissed@[entry.0@]),
            out@ == entries.take(i as int).filter(wanted).map_values(dated),
    {
        let ghost entry = entries[i as int];
        let ghost seen = entries.take(i as int).filter(wanted);
        proof {
            assert(entries.take(i + 1) =~= entries.take(i as int).push(entry));
            entries.take(i as int).lemma_filter_push(entry, wanted);
            assert(seen.push(entry).map_values(dated) =~= seen.map_values(dated).push(
                dated(entry),
            ));
        }
        if let Some((id, pr)) = pr_at(prs, i) {
            if pr.role == PrRole::Mentioned {
                if let Some(at) = dismissed.get(id) {
                    let through = match owners.get(id) {
                        Some(owner) => *owner == token,
                        None => false,
                    };
                    if pr.updated_at.is_after(at) && through {
                        out.push((id.clone(), *at));
                    }
                }
            }
        }
        assert(out@ =~= entries.take(i + 1).filter(wanted).map_values(dated));
    }
    assert(entries.take(entries.len() as int) =~= entries);
    out
}

/// Whether the pull request is one of the candidates and was mentioned again.
pub open spec fn has_come_up(
    candidates: Seq<(PrId, Timestamp)>,
    comments: Map<PrIdView, Vec<RecentComment>>,
    username: Seq<char>,
    id: PrIdView,
) -> bool {
    exists|i: int|
        0 <= i < candidates.len() && (#[trigger] candidates[i]).0@ == id && comments.contains_key(
            id,
        ) && has_new_mention(comments[id]@, candidates[i].1, username)
}

/// Takes the dismissal of every candidate back that was mentioned again.
pub fn undismiss_mentioned(
    store: &mut DismissStore,
    candidates: &Vec<(PrId, Timestamp)>,
    comments: &IdMap<Vec<RecentComment>>,
    username: &str,
)
    requires
        old(store).wf(),
        comments.wf(),
    ensures
        final(store).wf(),
        forall|id: PrIdView| #[trigger]
            final(store)@.dismissed.contains_key(id) <==> old(store)@.dismissed.contains_key(id)
                && !has_come_up(candidates@, comments@, username@, id),
        forall|id: PrIdView| #[trigger]
            final(store)@.dismissed.contains_key(id) ==> final(store)@.dismissed[id] == old(
                store,
            )@.dismissed[id],
        final(store)@.dirty == (old(store)@.dirty || final(store)@.dismissed != old(
            store,
        )@.dismissed),
{
    for i in 0..candidates.len()
        invariant
            store.wf(),
            comments.wf(),
            forall|id: PrIdView| #[trigger]
                store@.dismissed.contains_key(id) <==> old(store)@.dismissed.contains_key(id)
                    && !has_come_up(candidates@.take(i as int), comments@, username@, id),
            forall|id: PrIdView| #[trigger]
                store@.dismissed.contains_key(id) ==> store@.dismissed[id] == old(
                    store,
                )@.dismissed[id],
            store@.dirty == (old(store)@.dirty || store@.dismissed != old(store)@.dismissed),
    {
        let ghost before = store@;
        let ghost seen = candidates@.take(i as int);
        let ghost grown = candidates@.take(i + 1);
        let id = &candidates[i].0;
        let again = match comments.get(id) {
            Some(list) => mentioned_again(list, candidates[i].1, username),
            None => false,
        };
        if again {
            store.undismiss(id);
        }
        proof {
            assert(grown =~= seen.push(candidates@[i as int]));
            assert forall|x: PrIdView| has_come_up(grown, comments@, username@, x) <==> has_come_up(
                seen,
                comments@,
                username@,
                x,
            ) || (x == id@ && again) by {
                if has_come_up(seen, comments@, username@, x) {
                    let j = choose|j: int|
                        0 <= j < seen.len() && (#[trigger] seen[j]).0@ == x
                            && comments@.contains_key(x) && has_new_mention(
                            comments@[x]@,
                            seen[j].1,
                            username@,
                        );
                    assert(grown[j].0@ == x);
                }
                if x == id@ && again {
                    assert(grown[i as int].0@ == x);
                }
                if has_come_up(grown, comments@, username@, x) {
                    let j = choose|j: int|
                        0 <= j < grown.len() && (#[trigger] grown[j]).0@ == x
                            && comments@.contains_key(x) && has_new_mention(
                            comments@[x]@,
                            grown[j].1,
                            username@,
                        );
                    if j < i {
                        assert(seen[j].0@ == x);
                    }
                }
            }
            if again && before.dismissed.contains_key(id@) {
                assert(old(store)@.dismissed.contains_key(id@));
                assert(!store@.dismissed.contains_key(id@));
            }
            if again && !before.dismissed.contains_key(id@) {
                assert(before.dismissed.remove(id@) =~= before.dismissed);
            }
        }
    }
    assert(candidates@.take(candidates@.len() as int) =~= candidates@);
}

/// Whether an entry is not a dismissed mention.
pub open spec fn is_not_dismissed(entry: (PrId, PullRequest), dismissed: Set<PrIdView>) -> bool {
    !(entry.1.role is Mentioned) || !dismissed.contains(entry.0@)
}

/// Takes the dismissed mentions out.
pub fn drop_dismissed(prs: &mut IndexMap<PrId, PullRequest>, dismissed: &IdSet)
    ensures
        pr_entries(*final(prs)) == pr_entries(*old(prs)).filter(
            |entry: (PrId, PullRequest)| is_not_dismissed(entry, dismissed@),
        ),
{
    let ghost entries = pr_entries(*prs);
    let shown = |id: &PrId, pr: &PullRequest| -> (r: bool)
        ensures
            r == is_not_dismissed((*id, *pr), dismissed@),
    { pr.role != PrRole::Mentioned || !dismissed.contains(id) };
    keep_prs(prs, shown);
    let ghost kept = |entry: (PrId, PullRequest)| is_not_dismissed(entry, dismissed@);
    assert(pr_entries(*prs) == entries.filter(kept));
}

/// What is known of the recent comments of the pull requests that each token found; nothing where
/// the question failed or was not put.
pub type Answers = Vec<Option<IdMap<Vec<RecentComment>>>>;

/// Whether a dismissed mention has come up again: it was to be looked at through its token, and the
/// answer there holds a new mention.
pub open spec fn comes_back(
    entries: Seq<(PrId, PullRequest)>,
    dismissed: Map<PrIdView, Timestamp>,
    owners: Map<PrIdView, usize>,
    answers: Seq<Option<IdMap<Vec<RecentComment>>>>,
    username: Seq<char>,
    id: PrIdView,
) -> bool {
    exists|i: int|
        0 <= i < entries.len() && (#[trigger] entries[i]).0@ == id && comes_back_by(
            entries[i],
            dismissed,
            owners,
            answers,
            username,
        )
}

/// Whether an entry is a dismissed mention that has come up again.
pub open spec fn comes_back_by(
    entry: (PrId, PullRequest),
    dismissed: Map<PrIdView, Timestamp>,
    owners: Map<PrIdView, usize>,
    answers: Seq<Option<IdMap<Vec<RecentComment>>>>,
    username: Seq<char>,
) -> bool {
    let id = entry.0@;
    &&& owners.contains_key(id)
    &&& owners[id] < answers.len()
    &&& needs_recheck(entry, dismissed, owners, owners[id])
    &&& answers[owners[id] as int] matches Some(comments) && comments@.contains_key(id)
        && has_new_mention(comments@[id]@, dismissed[id], username)
}

proof fn lemma_candidates_come_up(
    entries: Seq<(PrId, PullRequest)>,
    dismissed: Map<PrIdView, Timestamp>,
    owners: Map<PrIdView, usize>,
    token: usize,
    comments: Map<PrIdView, Vec<RecentComment>>,
    username: Seq<char>,
    id: PrIdView,
)
    ensures
        has_come_up(
            entries.filter(
                |entry: (PrId, PullRequest)| needs_recheck(entry, dismissed, owners, token),
            ).map_values(|entry: (PrId, PullRequest)| (entry.0, dismissed[entry.0@])),
            comments,
            username,
            id,
        ) <==> exists|i: int|
            0 <= i < entries.len() && (#[trigger] entries[i]).0@ == id && needs_recheck(
                entries[i],
                dismissed,
                owners,
                token,
            ) && comments.contains_key(id) && has_new_mention(
                comments[id]@,
                dismissed[id],
                username,
            ),
{
    let wanted = |entry: (PrId, PullRequest)| needs_recheck(entry, dismissed, owners, token);
    let dated = |entry: (PrId, PullRequest)| (entry.0, dismissed[entry.0@]);
    let part = entries.filter(wanted);
    let candidates = part.map_values(dated);
    if has_come_up(candidates, comments, username, id) {
        let k = choose|k: int|
            0 <= k < candidates.len() && (#[trigger] candidates[k]).0@ == id
                && comments.contains_key(id) && has_new_mention(
                comments[id]@,
                candidates[k].1,
                username,
            );
        entries.lemma_filter_pred(wanted, k);
        assert(part.contains(part[k]));
        entries.lemma_filter_contains_rev(wanted, part[k]);
        let i = choose|i: int| 0 <= i < entries.len() && entries[i] == part[k];
        assert(entries[i].0@ == id);
    }
    if exists|i: int|
        0 <= i < entries.len() && (#[trigger] entries[i]).0@ == id && needs_recheck(
            entries[i],
            dismissed,
            owners,
            token,
        ) && comments.contains_key(id) && has_new_mention(comments[id]@, dismissed[id], username) {
        let i = choose|i: int|
            0 <= i < entries.len() && (#[trigger] entries[i]).0@ == id && needs_recheck(
                entries[i],
                dismissed,
                owners,
                token,
            ) && comments.contains_key(id) && has_new_mention(
                comments[id]@,
                dismissed[id],
                username,
            );
        entries.lemma_filter_contains(wanted, i);
        let k = choose|k: int| 0 <= k < part.len() && part[k] == entries[i];
        assert(candidates[k].0@ == id);
    }
}

/// Forgets the dismissals of pull requests that are not found as mentions any more, and gives those
/// that are left.
pub fn begin_dismissals(store: &mut DismissStore, mention_ids: &IdSet) -> (r: IdMap<Timestamp>)
    requires
        old(store).wf(),
    ensures
        final(store).wf(),
        final(store)@.dismissed == old(store)@.dismissed.restrict(mention_ids@),
        final(store)@.dirty == (old(store)@.dirty || !old(store)@.dismissed.dom().subset_of(
            mention_ids@,
        )),
        r.wf(),
        r@ == final(store)@.dismissed,
{
    store.retain_ids(mention_ids);
    store.snapshot()
}

/// Takes the dismissals back that the answers call for, and then the dismissed mentions out.
/// `dismissed` is what was dismissed when the questions were put.
pub fn apply_dismissals(
    store: &mut DismissStore,
    username: &str,
    prs: &mut IndexMap<PrId, PullRequest>,
    dismissed: &IdMap<Timestamp>,
    owners: &IdMap<usize>,
    answers: &Answers,
)
    requires
        old(store).wf(),
        dismissed.wf(),
        owners.wf(),
        forall|t: int|
            0 <= t < answers@.len() ==> ((#[trigger] answers@[t]) matches Some(comments)
                ==> comments.wf()),
    ensures
        final(store).wf(),
        forall|id: PrIdView| #[trigger]
            final(store)@.dismissed.contains_key(id) <==> old(store)@.dismissed.contains_key(id)
                && !comes_back(
                pr_entries(*old(prs)),
                dismissed@,
                owners@,
                answers@,
                username@,
                id,
            ),
        forall|id: PrIdView| #[trigger]
            final(store)@.dismissed.contains_key(id) ==> final(store)@.dismissed[id] == old(
                store,
            )@.dismissed[id],
        final(store)@.dirty == (old(store)@.dirty || final(store)@.dismissed != old(
            store,
        )@.dismissed),
        pr_entries(*final(prs)) == pr_entries(*old(prs)).filter(
            |entry: (PrId, PullRequest)|
                is_not_dismissed(entry, final(store)@.dismissed.dom()),
        ),
{
    let ghost entries = pr_entries(*prs);
    let ghost start = store@;
    assert forall|id: PrIdView|
        !comes_back(entries, dismissed@, owners@, answers@.take(0), username@, id) by {}
    for t in 0..answers.len()
        invariant
            store.wf(),
            dismissed.wf(),
            owners.wf(),
            entries == pr_entries(*prs),
            *prs == *old(prs),
            forall|t: int|
                0 <= t < answers@.len() ==> ((#[trigger] answers@[t]) matches Some(comments)
                    ==> comments.wf()),
            forall|id: PrIdView| #[trigger]
                store@.dismissed.contains_key(id) <==> start.dismissed.contains_key(id)
                    && !comes_back(
                    entries,
                    dismissed@,
                    owners@,
                    answers@.take(t as int),
                    username@,
                    id,
                ),
            forall|id: PrIdView| #[trigger]
                store@.dismissed.contains_key(id) ==> store@.dismissed[id] == start.dismissed[id],
            store@.dirty == (start.dirty || store@.dismissed != start.dismissed),
    {
        let ghost before = store@;
        let ghost seen = answers@.take(t as int);
        let ghost grown = answers@.take(t + 1);
        assert(grown =~= seen.push(answers@[t as int]));
        proof {
            assert forall|id: PrIdView|
                comes_back(entries, dismissed@, owners@, grown, username@, id) <==> comes_back(
                    entries,
                    dismissed@,
                    owners@,
                    seen,
                    username@,
                    id,
                ) || (answers@[t as int] matches Some(comments) && exists|i: int|
                    0 <= i < entries.len() && (#[trigger] entries[i]).0@ == id && needs_recheck(
                        entries[i],
                        dismissed@,
                        owners@,
                        t,
                    ) && comments@.contains_key(id) && has_new_mention(
                        comments@[id]@,
                        dismissed@[id],
                        username@,
                    )) by {
                if comes_back(entries, dismissed@, owners@, grown, username@, id) {
                    let i = choose|i: int|
                        0 <= i < entries.len() && (#[trigger] entries[i]).0@ == id && comes_back_by(
                            entries[i],
                            dismissed@,
                            owners@,
                            grown,
                            username@,
                        );
                    if owners@[id] < t {
                        assert(comes_back_by(entries[i], dismissed@, owners@, seen, username@));
                    }
                }
                if comes_back(entries, dismissed@, owners@, seen, username@, id) {
                    let i = choose|i: int|
                        0 <= i < entries.len() && (#[trigger] entries[i]).0@ == id && comes_back_by(
                            entries[i],
                            dismissed@,
                            owners@,
                            seen,
                            username@,
                        );
                    assert(comes_back_by(entries[i], dismissed@, owners@, grown, username@));
                }
                if let Some(comments) = answers@[t as int] {
                    if exists|i: int|
                        0 <= i < entries.len() && (#[trigger] entries[i]).0@ == id && needs_recheck(
                            entries[i],
                            dismissed@,
                            owners@,
                            t,
                        ) && comments@.contains_key(id) && has_new_mention(
                            comments@[id]@,
                            dismissed@[id],
                            username@,
                        ) {
                        let i = choose|i: int|
                            0 <= i < entries.len() && (#[trigger] entries[i]).0@ == id
                                && needs_recheck(entries[i], dismissed@, owners@, t)
                                && comments@.contains_key(id) && has_new_mention(
                                comments@[id]@,
                                dismissed@[id],
                                username@,
                            );
                        assert(comes_back_by(entries[i], dismissed@, owners@, grown, username@));
                    }
                }
            }
        }
        if let Some(comments) = &answers[t] {
            let candidates = recheck_candidates(prs, dismissed, owners, t);
            undismiss_mentioned(store, &candidates, comments, username);
            proof {
                assert forall|id: PrIdView| #[trigger] store@.dismissed.contains_key(id) <==> (
                before.dismissed.contains_key(id) && !exists|i: int|
                    0 <= i < entries.len() && (#[trigger] entries[i]).0@ == id && needs_recheck(
                        entries[i],
                        dismissed@,
                        owners@,
                        t,
                    ) && comments@.contains_key(id) && has_new_mention(
                        comments@[id]@,
                        dismissed@[id],
                        username@,
                    )) by {
                    lemma_candidates_come_up(
                        entries,
                        dismissed@,
                        owners@,
                        t,
                        comments@,
                        username@,
                        id,
                    );
                }
                if store@.dismissed != before.dismissed {
                    assert(store@.dismissed != start.dismissed) by {
                        if store@.dismissed == start.dismissed {
                            assert(store@.dismissed =~= before.dismissed);
                        }
                    }
                }
            }
        }
    }
    assert(answers@.take(answers@.len() as int) =~= answers@);
    let still = store.dismissed_ids();
    drop_dismissed(prs, &still);
}

/// A dismissed mention is not shown; in another role the pull request stays.
pub proof fn dismissed_mentions_are_not_shown(
    entries: Seq<(PrId, PullRequest)>,
    dismissed: Set<PrIdView>,
    i: int,
)
    requires
        0 <= i < entries.len(),
    ensures
        entries.filter(
            |entry: (PrId, PullRequest)| is_not_dismissed(entry, dismissed),
        ).contains(entries[i]) <==> !(entries[i].1.role is Mentioned && dismissed.contains(
            entries[i].0@,
        )),
{
    let kept = |entry: (PrId, PullRequest)| is_not_dismissed(entry, dismissed);
    let shown = entries.filter(kept);
    if shown.contains(entries[i]) {
        let k = choose|k: int| 0 <= k < shown.len() && shown[k] == entries[i];
        entries.lemma_filter_pred(kept, k);
    }
    if kept(entries[i]) {
        entries.lemma_filter_contains(kept, i);
    }
}

/// A comment is a new mention only where somebody else wrote it, after the dismissal.
pub proof fn own_and_old_comments_do_not_count(
    comment: RecentComment,
    dismissed_at: Timestamp,
    username: Seq<char>,
)
    requires
        is_own(comment, username) || !comment.created_at.after(dismissed_at),
    ensures
        !is_new_mention(comment, dismissed_at, username),
{
}

// ---------------------------------------------------------------------------
// The answers about comments

/// Whether a comment is what GitHub gives. A time that cannot be read is the start of the count.
pub open spec fn is_comment_of(comment: RecentComment, reply: CommentReply) -> bool {
    &&& comment.body_text == reply.body_text
    &&& comment.created_at == time_or_epoch(rfc3339_value(reply.created_at@))
    &&& comment.author_login == reply.author_login
}

pub open spec fn are_comments_of(comments: Seq<RecentComment>, replies: Seq<CommentReply>) -> bool {
    comments.len() == replies.len() && forall|i: int|
        0 <= i < comments.len() ==> is_comment_of(#[trigger] comments[i], replies[i])
}

fn read_comments(replies: &Vec<CommentReply>) -> (r: Vec<RecentComment>)
    ensures
        are_comments_of(r@, replies@),
{
    let mut out: Vec<RecentComment> = Vec::new();
    for i in 0..replies.len()
        invariant
            out@.len() == i,
            forall|j: int| 0 <= j < i ==> is_comment_of(#[trigger] out@[j], replies@[j]),
    {
        let reply = &replies[i];
        let created_at = match parse_utc(reply.created_at.as_str()) {
            Some(at) => at,
            None => Timestamp::default(),
        };
        out.push(
            RecentComment {
                body_text: reply.body_text.clone(),
                created_at,
                author_login: reply.author_login.clone(),
            },
        );
    }
    out
}

/// Whether the answer at `k` is the first one under the alias of the pull request at `i`.
pub open spec fn is_answer_for(replies: Seq<CommentsReply>, i: int, k: int) -> bool {
    &&& 0 <= k < replies.len()
    &&& replies[k].alias@ == alias_text(i)
    &&& forall|j: int| 0 <= j < k ==> (#[trigger] replies[j]).alias@ != alias_text(i)
}

fn answer_for(replies: &Vec<CommentsReply>, i: usize) -> (r: Option<usize>)
    ensures
        r matches Some(k) ==> is_answer_for(replies@, i as int, k as int),
        r is None ==> forall|k: int| !is_answer_for(replies@, i as int, k),
{
    let name = alias(i);
    for k in 0..replies.len()
        invariant
            name@ == alias_text(i as int),
            forall|j: int| 0 <= j < k ==> (#[trigger] replies@[j]).alias@ != alias_text(i as int),
    {
        if replies[k].alias == name {
            return Some(k);
        }
    }
    None
}

/// The comments of each pull request that was asked of and answered for.
pub fn comments_by_pr(ids: &Vec<PrId>, replies: &Vec<CommentsReply>) -> (r: IdMap<
    Vec<RecentComment>,
>)
    requires
        id_views(ids@).no_duplicates(),
    ensures
        r.wf(),
        forall|i: int|
            #![trigger ids@[i]]
            0 <= i < ids@.len() ==> (r@.contains_key(ids@[i]@) <==> exists|k: int|
                is_answer_for(replies@, i, k)),
        forall|i: int, k: int|
            #![trigger ids@[i], is_answer_for(replies@, i, k)]
            0 <= i < ids@.len() && is_answer_for(replies@, i, k) ==> are_comments_of(
                r@[ids@[i]@]@,
                replies@[k].comments@,
            ),
        forall|id: PrIdView| #[trigger]
            r@.contains_key(id) ==> exists|i: int| 0 <= i < ids@.len() && (#[trigger] ids@[i])@ == id,
{
    let mut out: IdMap<Vec<RecentComment>> = IdMap::new();
    for i in 0..ids.len()
        invariant
            id_views(ids@).no_duplicates(),
            out.wf(),
            forall|j: int|
                #![trigger ids@[j]]
                0 <= j < i ==> (out@.contains_key(ids@[j]@) <==> exists|k: int|
                    is_answer_for(replies@, j, k)),
            forall|j: int, k: int|
                #![trigger ids@[j], is_answer_for(replies@, j, k)]
                0 <= j < i && is_answer_for(replies@, j, k) ==> are_comments_of(
                    out@[ids@[j]@]@,
                    replies@[k].comments@,
                ),
            forall|id: PrIdView| #[trigger]
                out@.contains_key(id) ==> exists|j: int|
                    0 <= j < i && (#[trigger] ids@[j])@ == id,
    {
        let ghost before = out@;
        proof {
            assert forall|j: int|
                #![trigger ids@[j]]
                0 <= j < i implies ids@[j]@ != ids@[i as int]@ by {
                assert(id_views(ids@)[j] != id_views(ids@)[i as int]);
            }
            assert(!before.contains_key(ids@[i as int]@));
        }
        if let Some(k) = answer_for(replies, i) {
            let comments = read_comments(&replies[k].comments);
            out.insert(ids[i].clone(), comments);
            proof {
                assert(is_answer_for(replies@, i as int, k as int));
                assert forall|m: int| is_answer_for(replies@, i as int, m) implies m == k by {
                    if m < k {
                        assert(replies@[m].alias@ != alias_text(i as int));
                    } else if k < m {
                        assert(replies@[k as int].alias@ != alias_text(i as int));
                    }
                }
                assert forall|id: PrIdView| #[trigger] out@.contains_key(id) implies exists|j: int|
                    0 <= j < i + 1 && (#[trigger] ids@[j])@ == id by {
                    if id == ids@[i as int]@ {
                        assert(ids@[i as int]@ == id);
                    } else {
                        assert(before.contains_key(id));
                        let j = choose|j: int| 0 <= j < i && (#[trigger] ids@[j])@ == id;
                        assert(ids@[j]@ == id);
                    }
                }
            }
        }
    }
    out
}

// ---------------------------------------------------------------------------
// What brings a dismissed mention back

/// One comment after the dismissal, by somebody else, that mentions the user is enough, at whatever
/// place of the list it stands.
pub proof fn any_comment_can_bring_a_mention_back(
    comments: Seq<RecentComment>,
    dismissed_at: Timestamp,
    username: Seq<char>,
    i: int,
)
    requires
        0 <= i < comments.len(),
        comments[i].created_at.secs > dismissed_at.secs || (comments[i].created_at.secs
            == dismissed_at.secs && comments[i].created_at.nanos > dismissed_at.nanos),
        comments[i].author_login is None || !same_ignoring_case(
            comments[i].author_login->0@,
            username,
        ),
        is_mentioned(comments[i].body_text@, username),
    ensures
        has_new_mention(comments, dismissed_at, username),
{
    assert(is_new_mention(comments[i], dismissed_at, username));
}

/// Where a mention is brought back, one of the comments does it: it was written after the dismissal,
/// not by the user, and mentions the user.
pub proof fn a_comment_brings_a_mention_back(
    comments: Seq<RecentComment>,
    dismissed_at: Timestamp,
    username: Seq<char>,
) -> (i: int)
    requires
        has_new_mention(comments, dismissed_at, username),
    ensures
        0 <= i < comments.len(),
        comments[i].created_at.secs > dismissed_at.secs || (comments[i].created_at.secs
            == dismissed_at.secs && comments[i].created_at.nanos > dismissed_at.nanos),
        comments[i].author_login is None || !same_ignoring_case(
            comments[i].author_login->0@,
            username,
        ),
        is_mentioned(comments[i].body_text@, username),
{
    choose|i: int|
        0 <= i < comments.len() && is_new_mention(#[trigger] comments[i], dismissed_at, username)
}

/// Of two lists of comments, one behind the other, either can bring a mention back.
pub proof fn lists_of_comments_add_up(
    one: Seq<RecentComment>,
    other: Seq<RecentComment>,
    dismissed_at: Timestamp,
    username: Seq<char>,
)
    ensures
        has_new_mention(one + other, dismissed_at, username) == (has_new_mention(
            one,
            dismissed_at,
            username,
        ) || has_new_mention(other, dismissed_at, username)),
        !has_new_mention(Seq::empty(), dismissed_at, username),
{
    let both = one + other;
    if has_new_mention(one, dismissed_at, username) {
        let i = a_comment_brings_a_mention_back(one, dismissed_at, username);
        assert(both[i] == one[i]);
        any_comment_can_bring_a_mention_back(both, dismissed_at, username, i);
    }
    if has_new_mention(other, dismissed_at, username) {
        let i = a_comment_brings_a_mention_back(other, dismissed_at, username);
        assert(both[one.len() + i] == other[i]);
        any_comment_can_bring_a_mention_back(both, dismissed_at, username, one.len() + i);
    }
    if has_new_mention(both, dismissed_at, username) {
        let i = a_comment_brings_a_mention_back(both, dismissed_at, username);
        if i < one.len() {
            assert(both[i] == one[i]);
            any_comment_can_bring_a_mention_back(one, dismissed_at, username, i);
        } else {
            assert(both[i] == other[i - one.len()]);
            any_comment_can_bring_a_mention_back(other, dismissed_at, username, i - one.len());
        }
    }
}

/// The pull requests that are looked at again through a token are the mentions that were dismissed,
/// were updated after that, and were found by the token; each with the time of its dismissal.
pub proof fn dismissed_mentions_with_news_are_looked_at(
    entries: Seq<(PrId, PullRequest)>,
    dismissed: Map<PrIdView, Timestamp>,
    owners: Map<PrIdView, usize>,
    token: usize,
    i: int,
)
    requires
        unique_keys(entries),
        0 <= i < entries.len(),
    ensures
        ({
            let looked_at = entries.filter(
                |entry: (PrId, PullRequest)| needs_recheck(entry, dismissed, owners, token),
            ).map_values(|entry: (PrId, PullRequest)| (entry.0, dismissed[entry.0@]));
            let (id, pr) = entries[i];
            (exists|k: int| 0 <= k < looked_at.len() && (#[trigger] looked_at[k]).0@ == id@) <==> (
            pr.role == PrRole::Mentioned && dismissed.contains_key(id@) && (pr.updated_at.secs
                > dismissed[id@].secs || (pr.updated_at.secs == dismissed[id@].secs
                && pr.updated_at.nanos > dismissed[id@].nanos)) && owners.contains_key(id@)
                && owners[id@] == token)
        }),
{
    let wanted = |entry: (PrId, PullRequest)| needs_recheck(entry, dismissed, owners, token);
    let dated = |entry: (PrId, PullRequest)| (entry.0, dismissed[entry.0@]);
    let part = entries.filter(wanted);
    let looked_at = part.map_values(dated);
    let id = entries[i].0@;
    if wanted(entries[i]) {
        entries.lemma_filter_contains(wanted, i);
        let k = choose|k: int| 0 <= k < part.len() && part[k] == entries[i];
        assert(looked_at[k].0@ == id);
    }
    if exists|k: int| 0 <= k < looked_at.len() && (#[trigger] looked_at[k]).0@ == id {
        let k = choose|k: int| 0 <= k < looked_at.len() && (#[trigger] looked_at[k]).0@ == id;
        entries.lemma_filter_pred(wanted, k);
        assert(part.contains(part[k]));
        entries.lemma_filter_contains_rev(wanted, part[k]);
        let j = choose|j: int| 0 <= j < entries.len() && entries[j] == part[k];
        assert(entries[j].0@ == entries[i].0@);
        assert(j == i);
    }
}

/// A dismissed mention comes back where it was updated after the dismissal and the answer of the
/// token that found it holds a comment after the dismissal, by somebody else, that mentions the
/// user.
pub proof fn a_new_mention_comes_back(
    entries: Seq<(PrId, PullRequest)>,
    dismissed: Map<PrIdView, Timestamp>,
    owners: Map<PrIdView, usize>,
    answers: Seq<Option<IdMap<Vec<RecentComment>>>>,
    username: Seq<char>,
    i: int,
    k: int,
)
    requires
        0 <= i < entries.len(),
        entries[i].1.role == PrRole::Mentioned,
        dismissed.contains_key(entries[i].0@),
        entries[i].1.updated_at.secs > dismissed[entries[i].0@].secs || (
        entries[i].1.updated_at.secs == dismissed[entries[i].0@].secs
            && entries[i].1.updated_at.nanos > dismissed[entries[i].0@].nanos),
        owners.contains_key(entries[i].0@),
        owners[entries[i].0@] < answers.len(),
        answers[owners[entries[i].0@] as int] is Some,
        answers[owners[entries[i].0@] as int]->0@.contains_key(entries[i].0@),
        ({
            let comments = answers[owners[entries[i].0@] as int]->0@[entries[i].0@]@;
            let at = dismissed[entries[i].0@];
            &&& 0 <= k < comments.len()
            &&& comments[k].created_at.secs > at.secs || (comments[k].created_at.secs == at.secs
                && comments[k].created_at.nanos > at.nanos)
            &&& comments[k].author_login is None || !same_ignoring_case(
                comments[k].author_login->0@,
                username,
            )
            &&& is_mentioned(comments[k].body_text@, username)
        }),
    ensures
        comes_back(entries, dismissed, owners, answers, username, entries[i].0@),
{
    let comments = answers[owners[entries[i].0@] as int]->0@[entries[i].0@]@;
    any_comment_can_bring_a_mention_back(comments, dismissed[entries[i].0@], username, k);
    assert(comes_back_by(entries[i], dismissed, owners, answers, username));
}

/// Nothing else comes back: there is such an entry and such a comment wherever one does.
pub proof fn only_a_new_mention_comes_back(
    entries: Seq<(PrId, PullRequest)>,
    dismissed: Map<PrIdView, Timestamp>,
    owners: Map<PrIdView, usize>,
    answers: Seq<Option<IdMap<Vec<RecentComment>>>>,
    username: Seq<char>,
    id: PrIdView,
) -> (r: (int, int))
    requires
        comes_back(entries, dismissed, owners, answers, username, id),
    ensures
        0 <= r.0 < entries.len(),
        entries[r.0].0@ == id,
        entries[r.0].1.role == PrRole::Mentioned,
        dismissed.contains_key(id),
        entries[r.0].1.updated_at.secs > dismissed[id].secs || (entries[r.0].1.updated_at.secs
            == dismissed[id].secs && entries[r.0].1.updated_at.nanos > dismissed[id].nanos),
        owners.contains_key(id),
        owners[id] < answers.len(),
        answers[owners[id] as int] is Some,
        answers[owners[id] as int]->0@.contains_key(id),
        ({
            let comments = answers[owners[id] as int]->0@[id]@;
            &&& 0 <= r.1 < comments.len()
            &&& comments[r.1].created_at.secs > dismissed[id].secs || (
            comments[r.1].created_at.secs == dismissed[id].secs && comments[r.1].created_at.nanos
                > dismissed[id].nanos)
            &&& comments[r.1].author_login is None || !same_ignoring_case(
                comments[r.1].author_login->0@,
                username,
            )
            &&& is_mentioned(comments[r.1].body_text@, username)
        }),
{
    let i = choose|i: int|
        0 <= i < entries.len() && (#[trigger] entries[i]).0@ == id && comes_back_by(
            entries[i],
            dismissed,
            owners,
            answers,
            username,
        );
    let comments = answers[owners[id] as int]->0@[id]@;
    let k = a_comment_brings_a_mention_back(comments, dismissed[id], username);
    (i, k)
}

/// A candidate has come up again exactly where one of the comments on it was written after its
/// dismissal, by somebody else, and mentions the user.
pub proof fn candidates_come_up_by_a_comment(
    candidates: Seq<(PrId, Timestamp)>,
    comments: Map<PrIdView, Vec<RecentComment>>,
    username: Seq<char>,
    id: PrIdView,
)
    ensures
        has_come_up(candidates, comments, username, id) <==> comments.contains_key(id) && exists|
            i: int,
            k: int,
        |
            #![trigger candidates[i], comments[id]@[k]]
            0 <= i < candidates.len() && candidates[i].0@ == id && 0 <= k < comments[id]@.len() && (
            comments[id]@[k].created_at.secs > candidates[i].1.secs || (
            comments[id]@[k].created_at.secs == candidates[i].1.secs
                && comments[id]@[k].created_at.nanos > candidates[i].1.nanos)) && (
            comments[id]@[k].author_login is None || !same_ignoring_case(
                comments[id]@[k].author_login->0@,
                username,
            )) && is_mentioned(comments[id]@[k].body_text@, username),
{
    if has_come_up(candidates, comments, username, id) {
        let i = choose|i: int|
            0 <= i < candidates.len() && (#[trigger] candidates[i]).0@ == id
                && comments.contains_key(id) && has_new_mention(
                comments[id]@,
                candidates[i].1,
                username,
            );
        let k = a_comment_brings_a_mention_back(comments[id]@, candidates[i].1, username);
        assert(candidates[i].0@ == id && comments[id]@[k] == comments[id]@[k]);
    }
    if comments.contains_key(id) {
        assert forall|i: int, k: int|
            #![trigger candidates[i], comments[id]@[k]]
            0 <= i < candidates.len() && candidates[i].0@ == id && 0 <= k < comments[id]@.len() && (
            comments[id]@[k].created_at.secs > candidates[i].1.secs || (
            comments[id]@[k].created_at.secs == candidates[i].1.secs
                && comments[id]@[k].created_at.nanos > candidates[i].1.nanos)) && (
            comments[id]@[k].author_login is None || !same_ignoring_case(
                comments[id]@[k].author_login->0@,
                username,
            )) && is_mentioned(comments[id]@[k].body_text@, username) implies has_come_up(
            candidates,
            comments,
            username,
            id,
        ) by {
            any_comment_can_bring_a_mention_back(
                comments[id]@,
                candidates[i].1,
                username,
                k,
            );
        }
    }
}

/// The comments are read one by one: each has the text and the author of its reply, and its time, or
/// the start of the count where that cannot be read.
pub proof fn comments_are_read_one_by_one(
    comments: Seq<RecentComment>,
    replies: Seq<CommentReply>,
    i: int,
)
    requires
        are_comments_of(comments, replies),
        0 <= i < replies.len(),
    ensures
        comments.len() == replies.len(),
        comments[i].body_text@ == replies[i].body_text@,
        comments[i].author_login == replies[i].author_login,
        comments[i].created_at == (match rfc3339_value(replies[i].created_at@) {
            Some(at) => at,
            None => Timestamp { secs: 0, nanos: 0 },
        }),
{
    assert(is_comment_of(comments[i], replies[i]));
}

/// The answer for the pull request at `i` is the first one under the name `pr` and the number `i`,
/// and there is one wherever an answer has that name.
pub proof fn answers_go_by_their_names(replies: Seq<CommentsReply>, i: int, k: int)
    requires
        0 <= k < replies.len(),
        replies[k].alias@ == "pr"@ + decimal(i as nat),
        forall|j: int| 0 <= j < k ==> (#[trigger] replies[j]).alias@ != "pr"@ + decimal(i as nat),
    ensures
        is_answer_for(replies, i, k),
        forall|m: int| is_answer_for(replies, i, m) ==> m == k,
{
    assert forall|m: int| is_answer_for(replies, i, m) implies m == k by {
        if m < k {
            assert(replies[m].alias@ != "pr"@ + decimal(i as nat));
        } else if k < m {
            assert(replies[k].alias@ != "pr"@ + decimal(i as nat));
        }
    }
}

} // verus!
