//! What the server remembers while it runs: for each rater the episodes
//! already seen and two flags for failed submissions, and the set of
//! episodes that somebody has reported.
//!
//! An `ActiveUsers` is one value that the server owns; whoever shares it
//! between requests guards it with one lock, and every method here is one
//! step under that lock.

use vstd::hash_map::StringHashMap;
use vstd::prelude::*;

use crate::event_log::{
    entry_views, lemma_rating_row_read_back, lemma_rows_read_back, rating_fields, read_rows,
    LogEntry, LogKind,
};
use crate::structs::{holds_key, EpisodeKey, Likert, User};

verus! {

// ---------------------------------------------------------------------------
// One rater
// ---------------------------------------------------------------------------

/// What the server remembers about one rater.
#[derive(Debug)]
pub struct UserInfo {
    /// Episodes already rated or reported by this user, oldest first. An
    /// episode may occur more than once.
    pub seen: Vec<EpisodeKey>,
    /// Whether the last submission of ratings was incomplete and the user
    /// has not been told yet.
    pub rate_error: bool,
    /// Whether the last report gave no reason and the user has not been told
    /// yet.
    pub report_error: bool,
}

/// The mathematical content of a `UserInfo`.
pub struct UserRecord {
    /// Episodes seen, oldest first.
    pub seen: Seq<EpisodeKey>,
    /// The flag for an incomplete submission of ratings.
    pub rate_error: bool,
    /// The flag for a report without a reason.
    pub report_error: bool,
}

impl UserRecord {
    /// The record of a rater of whom nothing is known yet.
    pub open spec fn fresh() -> UserRecord {
        UserRecord { seen: Seq::empty(), rate_error: false, report_error: false }
    }

    /// The record after one more episode has been seen.
    pub open spec fn with_seen(self, key: EpisodeKey) -> UserRecord {
        UserRecord { seen: self.seen.push(key), ..self }
    }

    /// The record with the flag for ratings set to `flag`.
    pub open spec fn with_rate_error(self, flag: bool) -> UserRecord {
        UserRecord { rate_error: flag, ..self }
    }

    /// The record with the flag for reports set to `flag`.
    pub open spec fn with_report_error(self, flag: bool) -> UserRecord {
        UserRecord { report_error: flag, ..self }
    }
}

impl View for UserInfo {
    type V = UserRecord;

    open spec fn view(&self) -> UserRecord {
        UserRecord {
            seen: self.seen@,
            rate_error: self.rate_error,
            report_error: self.report_error,
        }
    }
}

impl Default for UserInfo {
    fn default() -> (info: UserInfo)
        ensures
            info@ == UserRecord::fresh(),
    {
        UserInfo { seen: Vec::new(), rate_error: false, report_error: false }
    }
}

impl UserInfo {
    /// Remembers that the user has seen the episode `key`. The episode is
    /// added at the end, whether or not it is there already.
    pub fn mark_seen(&mut self, key: EpisodeKey)
        ensures
            final(self)@ == old(self)@.with_seen(key),
    {
        self.seen.push(key);
    }

    /// Whether the user has seen the episode `key`.
    pub fn has_seen(&self, key: &EpisodeKey) -> (r: bool)
        ensures
            r == self@.seen.contains(*key),
    {
        holds_key(&self.seen, key)
    }

    /// Raises the flag for an incomplete submission of ratings.
    pub fn set_rate_error(&mut self)
        ensures
            final(self)@ == old(self)@.with_rate_error(true),
    {
        self.rate_error = true;
    }

    /// Raises the flag for a report without a reason.
    pub fn set_report_error(&mut self)
        ensures
            final(self)@ == old(self)@.with_report_error(true),
    {
        self.report_error = true;
    }

    /// Reads the flag for ratings and lowers it.
    pub fn take_rate_error(&mut self) -> (was_set: bool)
        ensures
            was_set == old(self)@.rate_error,
            final(self)@ == old(self)@.with_rate_error(false),
    {
        let was_set: bool = self.rate_error;
        self.rate_error = false;
        was_set
    }

    /// Reads the flag for reports and lowers it.
    pub fn take_report_error(&mut self) -> (was_set: bool)
        ensures
            was_set == old(self)@.report_error,
            final(self)@ == old(self)@.with_report_error(false),
    {
        let was_set: bool = self.report_error;
        self.report_error = false;
        was_set
    }
}

// ---------------------------------------------------------------------------
// All raters: the model
// ---------------------------------------------------------------------------

/// What is remembered about everybody: a record for each name that has been
/// referred to.
pub type Users = Map<Seq<char>, UserRecord>;

/// The record of `name`: the one that is kept, or a fresh one for a name
/// that has not been referred to yet.
pub open spec fn record_of(users: Users, name: Seq<char>) -> UserRecord {
    if users.contains_key(name) {
        users[name]
    } else {
        UserRecord::fresh()
    }
}

/// `users` after `name` has been referred to.
pub open spec fn referred(users: Users, name: Seq<char>) -> Users {
    users.insert(name, record_of(users, name))
}

/// `users` after `name` has seen `key`.
pub open spec fn marked_seen(users: Users, name: Seq<char>, key: EpisodeKey) -> Users {
    users.insert(name, record_of(users, name).with_seen(key))
}

/// `users` after the flag for ratings of `name` has been set to `flag`.
pub open spec fn rate_error_put(users: Users, name: Seq<char>, flag: bool) -> Users {
    users.insert(name, record_of(users, name).with_rate_error(flag))
}

/// `users` after the flag for reports of `name` has been set to `flag`.
pub open spec fn report_error_put(users: Users, name: Seq<char>, flag: bool) -> Users {
    users.insert(name, record_of(users, name).with_report_error(flag))
}

/// `users` after every entry of a log has been marked as seen, in order.
pub open spec fn replayed_into(users: Users, entries: Seq<(Seq<char>, EpisodeKey)>) -> Users
    decreases entries.len(),
{
    if entries.len() == 0 {
        users
    } else {
        marked_seen(
            replayed_into(users, entries.drop_last()),
            entries.last().0,
            entries.last().1,
        )
    }
}

/// A flag that has been raised is read as raised exactly once: the first
/// reading after raising it finds it raised and lowers it, and the reading
/// after that finds it lowered. This holds of the flag for ratings and of the
/// flag for reports, and neither flag is touched by what happens to the
/// other.
pub proof fn lemma_error_flags_are_one_shot(users: Users, name: Seq<char>)
    ensures
        record_of(rate_error_put(users, name, true), name).rate_error,
        !record_of(rate_error_put(rate_error_put(users, name, true), name, false), name).rate_error,
        record_of(report_error_put(users, name, true), name).report_error,
        !record_of(
            report_error_put(report_error_put(users, name, true), name, false),
            name,
        ).report_error,
        record_of(rate_error_put(users, name, true), name).report_error == record_of(
            users,
            name,
        ).report_error,
        record_of(rate_error_put(users, name, false), name).report_error == record_of(
            users,
            name,
        ).report_error,
        record_of(report_error_put(users, name, true), name).rate_error == record_of(
            users,
            name,
        ).rate_error,
        record_of(report_error_put(users, name, false), name).rate_error == record_of(
            users,
            name,
        ).rate_error,
{
}

/// Nothing that is remembered as seen is ever forgotten: marking an episode
/// and putting a flag keep, for every name, all that it had seen before, in
/// the same order.
pub proof fn lemma_seen_only_grows(
    users: Users,
    name: Seq<char>,
    key: EpisodeKey,
    flag: bool,
    other: Seq<char>,
)
    ensures
        record_of(marked_seen(users, name, key), other).seen == if other == name {
            record_of(users, other).seen.push(key)
        } else {
            record_of(users, other).seen
        },
        record_of(referred(users, name), other).seen == record_of(users, other).seen,
        record_of(rate_error_put(users, name, flag), other).seen == record_of(users, other).seen,
        record_of(report_error_put(users, name, flag), other).seen == record_of(users, other).seen,
{
}

/// After a log has been replayed, a rater has seen an episode exactly if the
/// rater had seen it before or the log has an entry of that rater for it.
pub proof fn lemma_replay_rebuilds_seen(
    users: Users,
    entries: Seq<(Seq<char>, EpisodeKey)>,
    name: Seq<char>,
    key: EpisodeKey,
)
    ensures
        record_of(replayed_into(users, entries), name).seen.contains(key) <==> (record_of(
            users,
            name,
        ).seen.contains(key) || entries.contains((name, key))),
    decreases entries.len(),
{
    if entries.len() > 0 {
        let init = entries.drop_last();
        let last = entries.last();
        lemma_replay_rebuilds_seen(users, init, name, key);
        let before = replayed_into(users, init);
        let seen_before = record_of(before, name).seen;
        let seen_after = record_of(replayed_into(users, entries), name).seen;
        if last.0 == name {
            assert(seen_after == seen_before.push(last.1));
            if seen_after.contains(key) {
                let i = choose|i: int| 0 <= i < seen_after.len() && seen_after[i] == key;
                if i < seen_before.len() {
                    assert(seen_before[i] == key);
                } else {
                    assert(last == (name, key));
                }
            }
            if seen_before.contains(key) {
                let i = choose|i: int| 0 <= i < seen_before.len() && seen_before[i] == key;
                assert(seen_after[i] == key);
            }
            if last.1 == key {
                assert(seen_after[seen_before.len() as int] == key);
            }
        } else {
            assert(seen_after == seen_before);
        }
        assert(entries.contains((name, key)) <==> (init.contains((name, key)) || last == (
            name,
            key,
        ))) by {
            if entries.contains((name, key)) {
                let i = choose|i: int| 0 <= i < entries.len() && entries[i] == (name, key);
                if i < init.len() {
                    assert(init[i] == (name, key));
                }
            }
            if init.contains((name, key)) {
                let i = choose|i: int| 0 <= i < init.len() && init[i] == (name, key);
                assert(entries[i] == (name, key));
            }
            if last == (name, key) {
                assert(entries[entries.len() - 1] == (name, key));
            }
        }
    }
}

/// One set of ratings that was written to the log: who rated which episode,
/// and the four answers.
pub struct Submission {
    /// The name of the rater.
    pub name: Seq<char>,
    /// The episode that was rated.
    pub key: EpisodeKey,
    /// The answers for warm, hard, rough and sticky.
    pub answers: (Likert, Likert, Likert, Likert),
}

/// The rows that a list of submissions leaves in the ratings log.
pub open spec fn submitted_rows(submissions: Seq<Submission>) -> Seq<Seq<Seq<char>>> {
    Seq::new(
        submissions.len(),
        |i: int|
            rating_fields(
                submissions[i].name,
                submissions[i].key,
                submissions[i].answers.0,
                submissions[i].answers.1,
                submissions[i].answers.2,
                submissions[i].answers.3,
            ),
    )
}

/// Who rated what in a list of submissions.
pub open spec fn submitted_keys(submissions: Seq<Submission>) -> Seq<(Seq<char>, EpisodeKey)> {
    Seq::new(submissions.len(), |i: int| (submissions[i].name, submissions[i].key))
}

/// What was rated before a restart is known as seen after it. The rows that
/// any list of submissions leaves in the ratings log are read back as who
/// rated what, in order; and a server that starts with nobody known and
/// replays them knows an episode as seen by a rater exactly if that rater
/// has submitted ratings for it. The answers have to be on the scale from 1
/// to 5, as every answer that `Likert::from_str` gives is.
pub proof fn lemma_ratings_survive_restart(
    submissions: Seq<Submission>,
    name: Seq<char>,
    key: EpisodeKey,
)
    requires
        forall|i: int|
            0 <= i < submissions.len() ==> {
                let answers = (#[trigger] submissions[i]).answers;
                answers.0.wf() && answers.1.wf() && answers.2.wf() && answers.3.wf()
            },
    ensures
        read_rows(LogKind::Ratings, submitted_rows(submissions)) == Some(
            submitted_keys(submissions),
        ),
        record_of(
            replayed_into(Map::<Seq<char>, UserRecord>::empty(), submitted_keys(submissions)),
            name,
        ).seen.contains(key) <==> submitted_keys(submissions).contains((name, key)),
{
    let rows = submitted_rows(submissions);
    let entries = submitted_keys(submissions);
    assert forall|i: int| 0 <= i < rows.len() implies crate::event_log::read_row(
        LogKind::Ratings,
        #[trigger] rows[i],
    ) == Some(entries[i]) by {
        let s = submissions[i];
        lemma_rating_row_read_back(
            s.name,
            s.key,
            s.answers.0,
            s.answers.1,
            s.answers.2,
            s.answers.3,
        );
    }
    lemma_rows_read_back(LogKind::Ratings, rows, entries);
    let nobody = Map::<Seq<char>, UserRecord>::empty();
    lemma_replay_rebuilds_seen(nobody, entries, name, key);
    assert(record_of(nobody, name).seen =~= Seq::<EpisodeKey>::empty());
}

// ---------------------------------------------------------------------------
// All raters: the table
// ---------------------------------------------------------------------------

/// The table of all raters that have been referred to since the server
/// started. A record is made when a name is first referred to and is kept
/// from then on.
pub struct ActiveUsers {
    /// Where in `infos` the record of each name stands.
    slots: StringHashMap<usize>,
    /// The records, in the order in which they were made.
    infos: Vec<UserInfo>,
}

/// The records that a table holds, given where the record of each name
/// stands.
pub open spec fn table(slots: Map<Seq<char>, usize>, infos: Seq<UserInfo>) -> Users {
    Map::new(|name: Seq<char>| slots.contains_key(name), |name: Seq<char>| infos[slots[name] as int]@)
}

/// Whether every name has a record of its own among `len` records.
pub open spec fn sound(slots: Map<Seq<char>, usize>, len: nat) -> bool {
    &&& forall|name: Seq<char>| slots.contains_key(name) ==> (#[trigger] slots[name]) < len
    &&& forall|a: Seq<char>, b: Seq<char>|
        slots.contains_key(a) && slots.contains_key(b) && #[trigger] slots[a] == #[trigger] slots[b]
            ==> a == b
}

impl View for ActiveUsers {
    type V = Users;

    closed spec fn view(&self) -> Users {
        table(self.slots@, self.infos@)
    }
}

impl ActiveUsers {
    /// Whether the table is sound: every name has a record of its own.
    pub closed spec fn wf(&self) -> bool {
        sound(self.slots@, self.infos@.len())
    }

    /// The table in which nobody is known.
    pub fn new() -> (users: ActiveUsers)
        ensures
            users.wf(),
            users@ == Map::<Seq<char>, UserRecord>::empty(),
    {
        let users = ActiveUsers { slots: StringHashMap::new(), infos: Vec::new() };
        assert(users@ =~= Map::<Seq<char>, UserRecord>::empty());
        users
    }

    /// The place of the record of `user`, which is made if there is none.
    fn slot_of(&mut self, user: &User) -> (slot: usize)
        requires
            old(self).wf(),
        ensures
            final(self).wf(),
            final(self)@ == referred(old(self)@, user@),
            final(self).slots@.contains_key(user@),
            final(self).slots@[user@] == slot,
            slot < final(self).infos.len(),
    {
        let found: Option<usize> = match self.slots.get(user.name.as_str()) {
            Some(slot) => Some(*slot),
            None => None,
        };
        match found {
            Some(slot) => {
                assert(self@ =~= referred(old(self)@, user@));
                slot
            },
            None => {
                let slot: usize = self.infos.len();
                self.infos.push(UserInfo::default());
                self.slots.insert(user.name.clone(), slot);
                assert(self@ =~= referred(old(self)@, user@));
                slot
            },
        }
    }

    /// Whether `user` has been referred to before.
    pub fn is_known(&self, user: &User) -> (r: bool)
        requires
            self.wf(),
        ensures
            r == self@.contains_key(user@),
    {
        self.slots.contains_key(user.name.as_str())
    }

    /// The record of `user`, to read and to change. A fresh record is made
    /// for a user who has none. What the table holds afterwards is what it
    /// held before, with the record of `user` as the caller leaves it.
    pub fn get_or_create(&mut self, user: &User) -> (info: &mut UserInfo)
        requires
            old(self).wf(),
        ensures
            info@ == record_of(old(self)@, user@),
            final(self).wf(),
            final(self)@ == old(self)@.insert(user@, final(info)@),
    {
        let slot: usize = self.slot_of(user);
        let ghost slots = self.slots@;
        let ghost infos = self.infos@;
        let ghost mid = self@;
        proof {
            assert(mid == table(slots, infos));
            assert(mid == referred(old(self)@, user@));
            assert(mid[user@] == infos[slot as int]@);
            assert forall|put: UserInfo| #[trigger]
                table(slots, infos.update(slot as int, put)) == old(self)@.insert(user@, put@) by {
                let after = infos.update(slot as int, put);
                let wanted = old(self)@.insert(user@, put@);
                assert forall|name: Seq<char>| slots.contains_key(name) == wanted.contains_key(name) by {
                    assert(mid.contains_key(name) == slots.contains_key(name));
                }
                assert forall|name: Seq<char>| slots.contains_key(name) implies after[slots[name] as int]@
                    == wanted[name] by {
                    assert(mid.contains_key(name));
                    if name != user@ {
                        assert(slots[name] != slots[user@]);
                        assert(mid[name] == infos[slots[name] as int]@);
                    }
                }
                assert(table(slots, after) =~= wanted);
            }
        }
        let info: &mut UserInfo = &mut self.infos[slot];
        info
    }

    /// The episodes that `user` has seen, oldest first: none for a user who
    /// has not been referred to.
    pub fn seen(&self, user: &User) -> (seen: Vec<EpisodeKey>)
        requires
            self.wf(),
        ensures
            seen@ == record_of(self@, user@).seen,
    {
        match self.slots.get(user.name.as_str()) {
            Some(slot) => {
                let kept: &Vec<EpisodeKey> = &self.infos[*slot].seen;
                let mut seen: Vec<EpisodeKey> = Vec::new();
                let mut i: usize = 0;
                while i < kept.len()
                    invariant
                        i <= kept.len(),
                        seen@ == kept@.take(i as int),
                    decreases kept.len() - i,
                {
                    seen.push(kept[i]);
                    assert(kept@.take(i + 1) =~= kept@.take(i as int).push(kept@[i as int]));
                    i += 1;
                }
                assert(kept@.take(kept.len() as int) =~= kept@);
                seen
            },
            None => Vec::new(),
        }
    }

    /// Remembers that `user` has seen the episode `key`. The episode is
    /// added at the end of what the user has seen, whether or not it is
    /// there already.
    pub fn mark_seen(&mut self, user: &User, key: EpisodeKey)
        requires
            old(self).wf(),
        ensures
            final(self).wf(),
            final(self)@ == marked_seen(old(self)@, user@, key),
    {
        let info: &mut UserInfo = self.get_or_create(user);
        info.mark_seen(key);
    }

    /// Whether `user` has seen the episode `key`. A user who has not been
    /// referred to has seen nothing.
    pub fn has_seen(&self, user: &User, key: &EpisodeKey) -> (r: bool)
        requires
            self.wf(),
        ensures
            r == record_of(self@, user@).seen.contains(*key),
    {
        match self.slots.get(user.name.as_str()) {
            Some(slot) => self.infos[*slot].has_seen(key),
            None => false,
        }
    }

    /// Raises the flag of `user` for an incomplete submission of ratings.
    pub fn set_rate_error(&mut self, user: &User)
        requires
            old(self).wf(),
        ensures
            final(self).wf(),
            final(self)@ == rate_error_put(old(self)@, user@, true),
    {
        let info: &mut UserInfo = self.get_or_create(user);
        info.set_rate_error();
    }

    /// Raises the flag of `user` for a report without a reason.
    pub fn set_report_error(&mut self, user: &User)
        requires
            old(self).wf(),
        ensures
            final(self).wf(),
            final(self)@ == report_error_put(old(self)@, user@, true),
    {
        let info: &mut UserInfo = self.get_or_create(user);
        info.set_report_error();
    }

    /// Reads the flag of `user` for ratings and lowers it, in one step.
    pub fn take_rate_error(&mut self, user: &User) -> (was_set: bool)
        requires
            old(self).wf(),
        ensures
            final(self).wf(),
            was_set == record_of(old(self)@, user@).rate_error,
            final(self)@ == rate_error_put(old(self)@, user@, false),
    {
        let info: &mut UserInfo = self.get_or_create(user);
        info.take_rate_error()
    }

    /// Reads the flag of `user` for reports and lowers it, in one step.
    pub fn take_report_error(&mut self, user: &User) -> (was_set: bool)
        requires
            old(self).wf(),
        ensures
            final(self).wf(),
            was_set == record_of(old(self)@, user@).report_error,
            final(self)@ == report_error_put(old(self)@, user@, false),
    {
        let info: &mut UserInfo = self.get_or_create(user);
        info.take_report_error()
    }

    /// Marks every entry of a log as seen by its rater, in the order of the
    /// log. This is how a server that has just started learns what was
    /// rated and reported before it stopped.
    pub fn replay(&mut self, entries: &Vec<LogEntry>)
        requires
            old(self).wf(),
        ensures
            final(self).wf(),
            final(self)@ == replayed_into(old(self)@, entry_views(entries@)),
    {
        let ghost all = entry_views(entries@);
        let mut i: usize = 0;
        assert(all.take(0) =~= Seq::<(Seq<char>, EpisodeKey)>::empty());
        while i < entries.len()
            invariant
                i <= entries.len(),
                all == entry_views(entries@),
                self.wf(),
                self@ == replayed_into(old(self)@, all.take(i as int)),
            decreases entries.len() - i,
        {
            let ghost upto = all.take(i + 1);
            assert(upto.drop_last() =~= all.take(i as int));
            assert(upto.last() == entries@[i as int]@);
            self.mark_seen(&entries[i].user, entries[i].key());
            i += 1;
        }
        assert(all.take(entries.len() as int) =~= all);
    }
}

// ---------------------------------------------------------------------------
// Reported episodes
// ---------------------------------------------------------------------------

/// The set of episodes whose image somebody has reported as bad.
pub struct Reports {
    /// The reported episodes, each once.
    keys: Vec<EpisodeKey>,
}

impl View for Reports {
    type V = Set<EpisodeKey>;

    closed spec fn view(&self) -> Set<EpisodeKey> {
        self.keys@.to_set()
    }
}

impl Reports {
    /// Whether the set is sound: no episode is kept twice.
    pub closed spec fn wf(&self) -> bool {
        self.keys@.no_duplicates()
    }

    /// The empty set.
    pub fn new() -> (reports: Reports)
        ensures
            reports.wf(),
            reports@ == Set::<EpisodeKey>::empty(),
    {
        let reports = Reports { keys: Vec::new() };
        assert(reports@ =~= Set::<EpisodeKey>::empty());
        reports
    }

    /// Adds an episode to the set. Says whether it was new.
    pub fn insert(&mut self, key: EpisodeKey) -> (added: bool)
        requires
            old(self).wf(),
        ensures
            final(self).wf(),
            final(self)@ == old(self)@.insert(key),
            added == !old(self)@.contains(key),
    {
        if holds_key(&self.keys, &key) {
            assert(self@ =~= old(self)@.insert(key));
            false
        } else {
            self.keys.push(key);
            assert(self@ =~= old(self)@.insert(key)) by {
                old(self).keys@.lemma_push_to_set_commute(key);
            }
            true
        }
    }

    /// Whether an episode is in the set.
    pub fn contains(&self, key: &EpisodeKey) -> (r: bool)
        requires
            self.wf(),
        ensures
            r == self@.contains(*key),
    {
        holds_key(&self.keys, key)
    }

    /// How many episodes are in the set.
    pub fn len(&self) -> (n: usize)
        requires
            self.wf(),
        ensures
            n == self@.len(),
    {
        proof {
            self.keys@.unique_seq_to_set();
        }
        self.keys.len()
    }
}

} // verus!
