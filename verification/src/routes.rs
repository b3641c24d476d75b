//! What the server decides for each kind of request, apart from reading
//! files and rendering pages: which episode comes next, whether a
//! submission counts, what is remembered and what is appended to a log.

use vstd::prelude::*;

use crate::catalog::{keys_of, Catalog};
use crate::errors::ErrorKind;
use crate::event_log::{
    lemma_rating_row_read_back, lemma_report_row_read_back, line_of, rating_fields, rating_line,
    read_row, report_fields, report_line, LogKind,
};
use crate::selector::{lemma_pick_avoids_seen, pick};
use crate::session::{
    lemma_replay_rebuilds_seen, marked_seen, rate_error_put, record_of, referred,
    replayed_into, report_error_put, ActiveUsers, Reports, UserInfo, Users,
};
use crate::structs::{EpisodeKey, Likert, User};
use crate::surface::{answer_in, Report, SurfaceData};

verus! {

/// The greeting served at the site root.
pub fn index() -> (greeting: &'static str)
    ensures
        greeting@ == "It works!"@,
{
    "It works!"
}

// ---------------------------------------------------------------------------
// Showing an episode
// ---------------------------------------------------------------------------

/// What the page of an episode tells the user about the last submission.
#[derive(Copy, Clone, PartialEq, Eq, Debug)]
pub struct Flash {
    /// The complaint about the last ratings, or the empty text.
    pub rate_error: &'static str,
    /// The complaint about the last report, or the empty text.
    pub report_error: &'static str,
}

/// The complaint that is shown for a raised flag of ratings.
pub open spec fn rate_complaint(raised: bool) -> Seq<char> {
    if raised {
        "All ratings are required"@
    } else {
        ""@
    }
}

/// The complaint that is shown for a raised flag of reports.
pub open spec fn report_complaint(raised: bool) -> Seq<char> {
    if raised {
        "At least one reason is required"@
    } else {
        ""@
    }
}

/// What the page of an episode tells `user` about the last submission: a
/// complaint for each of the two flags that is raised. Both flags are
/// lowered, so that each complaint is shown once.
pub fn episode(users: &mut ActiveUsers, user: &User) -> (flash: Flash)
    requires
        old(users).wf(),
    ensures
        final(users).wf(),
        flash.rate_error@ == rate_complaint(record_of(old(users)@, user@).rate_error),
        flash.report_error@ == report_complaint(record_of(old(users)@, user@).report_error),
        final(users)@ == report_error_put(rate_error_put(old(users)@, user@, false), user@, false),
{
    let info: &mut UserInfo = users.get_or_create(user);
    let rate_error: &'static str = if info.take_rate_error() {
        "All ratings are required"
    } else {
        ""
    };
    let report_error: &'static str = if info.take_report_error() {
        "At least one reason is required"
    } else {
        ""
    };
    assert(final(users)@ =~= report_error_put(
        rate_error_put(old(users)@, user@, false),
        user@,
        false,
    ));
    Flash { rate_error, report_error }
}

// ---------------------------------------------------------------------------
// The next episode
// ---------------------------------------------------------------------------

/// Picks, at random, the next episode for `user`: one of the catalog that
/// the user has not seen. Fails with `Exhausted` when the user has seen them
/// all. The user is referred to, and nothing else is remembered.
pub fn random(users: &mut ActiveUsers, catalog: &Catalog, user: &User) -> (r: Result<
    EpisodeKey,
    ErrorKind,
>)
    requires
        old(users).wf(),
    ensures
        final(users).wf(),
        final(users)@ == referred(old(users)@, user@),
        exists|draw: nat|
            r == #[trigger] pick(keys_of(catalog@), record_of(old(users)@, user@).seen, draw),
        r matches Ok(key) ==> keys_of(catalog@).contains(key) && !record_of(
            old(users)@,
            user@,
        ).seen.contains(key),
        r matches Err(e) ==> e == ErrorKind::Exhausted,
        r.is_err() <==> forall|i: int|
            0 <= i < catalog@.len() ==> record_of(old(users)@, user@).seen.contains(
                #[trigger] keys_of(catalog@)[i],
            ),
{
    let info: &mut UserInfo = users.get_or_create(user);
    let ghost seen = info.seen@;
    assert(seen == record_of(old(users)@, user@).seen);
    let r = catalog.pick_unseen(&info.seen);
    proof {
        let draw = choose|draw: nat| r == #[trigger] pick(keys_of(catalog@), seen, draw);
        assert(r == pick(keys_of(catalog@), record_of(old(users)@, user@).seen, draw));
    }
    assert(final(users)@ =~= referred(old(users)@, user@));
    r
}

/// Nobody is shown an episode twice. Once an episode is remembered as seen
/// by a rater, no draw picks it for that rater again; and the same holds
/// after a restart of every episode that a replayed log names for the
/// rater.
pub proof fn lemma_no_repeats(
    users: Users,
    entries: Seq<(Seq<char>, EpisodeKey)>,
    name: Seq<char>,
    key: EpisodeKey,
    keys: Seq<EpisodeKey>,
    draw: nat,
)
    ensures
        pick(keys, record_of(marked_seen(users, name, key), name).seen, draw) != Ok::<
            EpisodeKey,
            ErrorKind,
        >(key),
        entries.contains((name, key)) ==> pick(
            keys,
            record_of(replayed_into(users, entries), name).seen,
            draw,
        ) != Ok::<EpisodeKey, ErrorKind>(key),
{
    let marked = record_of(marked_seen(users, name, key), name).seen;
    assert(marked[marked.len() - 1] == key);
    lemma_pick_avoids_seen(keys, marked, draw);
    lemma_replay_rebuilds_seen(users, entries, name, key);
    lemma_pick_avoids_seen(keys, record_of(replayed_into(users, entries), name).seen, draw);
}

// ---------------------------------------------------------------------------
// Submissions
// ---------------------------------------------------------------------------

/// The four answers that make a submission of ratings complete: those for
/// `warm`, `hard`, `rough` and `sticky`, if they are all there and each is on
/// the scale from 1 to 5.
pub open spec fn complete_ratings(ratings: Seq<(Seq<char>, u8)>) -> Option<
    (Likert, Likert, Likert, Likert),
> {
    match (
        answer_in(ratings, "warm"@),
        answer_in(ratings, "hard"@),
        answer_in(ratings, "rough"@),
        answer_in(ratings, "sticky"@),
    ) {
        (Some(warm), Some(hard), Some(rough), Some(sticky)) => if Likert(warm).wf() && Likert(
            hard,
        ).wf() && Likert(rough).wf() && Likert(sticky).wf() {
            Some((Likert(warm), Likert(hard), Likert(rough), Likert(sticky)))
        } else {
            None
        },
        _ => None,
    }
}

/// Takes a submission of ratings by `user`.
///
/// A submission with an answer from 1 to 5 for each of `warm`, `hard`,
/// `rough` and `sticky` counts: the episode is remembered as seen by the
/// user, and the line to append to the ratings log is returned. The row that
/// the line holds is read back as this user and this episode when the log is
/// replayed. Any other submission does not count: the user's flag for
/// ratings is raised, nothing else changes, and there is no line.
pub fn rate(users: &mut ActiveUsers, user: &User, form: &SurfaceData) -> (line: Option<String>)
    requires
        old(users).wf(),
    ensures
        final(users).wf(),
        match complete_ratings(form@.ratings) {
            Some((warm, hard, rough, sticky)) => {
                &&& line matches Some(text) && text@ == line_of(
                    rating_fields(user@, form@.key, warm, hard, rough, sticky),
                )
                &&& read_row(
                    LogKind::Ratings,
                    rating_fields(user@, form@.key, warm, hard, rough, sticky),
                ) == Some((user@, form@.key))
                &&& final(users)@ == marked_seen(old(users)@, user@, form@.key)
            },
            None => line.is_none() && final(users)@ == rate_error_put(old(users)@, user@, true),
        },
{
    match (form.rating("warm"), form.rating("hard"), form.rating("rough"), form.rating("sticky")) {
        (Some(warm), Some(hard), Some(rough), Some(sticky)) => {
            if warm.on_scale() && hard.on_scale() && rough.on_scale() && sticky.on_scale() {
                let key: EpisodeKey = form.key();
                proof {
                    lemma_rating_row_read_back(user@, key, warm, hard, rough, sticky);
                }
                users.mark_seen(user, key);
                Some(rating_line(user, &key, warm, hard, rough, sticky))
            } else {
                users.set_rate_error(user);
                None
            }
        },
        _ => {
            users.set_rate_error(user);
            None
        },
    }
}

/// Takes a report by `user` that the image of an episode is bad.
///
/// A report that gives at least one reason counts: the episode is
/// remembered as seen by the user and as reported, and the line to append
/// to the reports log is returned. The row that the line holds is read back
/// as this user and this episode when the log is replayed. A report without
/// a reason does not count: the user's flag for reports is raised, nothing
/// else changes, and there is no line.
pub fn report(users: &mut ActiveUsers, reports: &mut Reports, user: &User, filed: &Report) -> (line:
    Option<String>)
    requires
        old(users).wf(),
        old(reports).wf(),
    ensures
        final(users).wf(),
        final(reports).wf(),
        if filed.dark || filed.bright || filed.blurry || filed.grainy {
            &&& line matches Some(text) && text@ == line_of(report_fields(user@, *filed))
            &&& read_row(LogKind::Reports, report_fields(user@, *filed)) == Some(
                (user@, (filed.date, filed.flow, filed.num)),
            )
            &&& final(users)@ == marked_seen(
                old(users)@,
                user@,
                (filed.date, filed.flow, filed.num),
            )
            &&& final(reports)@ == old(reports)@.insert((filed.date, filed.flow, filed.num))
        } else {
            &&& line.is_none()
            &&& final(users)@ == report_error_put(old(users)@, user@, true)
            &&& final(reports)@ == old(reports)@
        },
{
    if filed.has_reason() {
        let key: EpisodeKey = filed.key();
        proof {
            lemma_report_row_read_back(user@, *filed);
        }
        users.mark_seen(user, key);
        let _ = reports.insert(key);
        Some(report_line(user, filed))
    } else {
        users.set_report_error(user);
        None
    }
}

} // verus!
