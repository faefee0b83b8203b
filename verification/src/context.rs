//! The session: every task the user recorded plus the process-wide pomodoro
//! bookkeeping — the running streak, the last-pomodoro instant, the active
//! timer marker and the pause flag — with the prefix resolver and the
//! state-machine transitions that the scheduler drives.

use vstd::prelude::*;
use crate::digits::{parse_u16_spec, parse_u16, u64_to_dec};
use crate::errors::{IdentificationError, ParseError, StartError};
use crate::tasks::{Task, TaskView, parse_task_line, bool_field, bool_string, opt_date_string};
use crate::tasks::lemma_dec_field_ok;
use crate::text::{free_of, is_prefix_of, join_strings, split_on, split_str, str_eq, views_of};
use crate::text::{lemma_join_free, lemma_split_join, push_char};
use crate::time::{
    date_field, is_recent_at, minutes_between, elapsed_minutes, parse_maybe_local_date,
    MAX_TIMESTAMP_MS,
};

verus! {

/// The whole session.
pub struct Context {
    /// Should OS-level notification be used?
    pub use_notification: bool,
    /// Should sounds be played?
    pub use_sound: bool,
    /// Every task recorded by the user, in insertion order.
    pub tasks: Vec<Task>,
    /// When was the last pomodoro completed?
    pub last_pomodoro: Option<i64>,
    /// How many consecutive recent pomodori were run? Always at most 4.
    pub pomodori_count: u16,
    /// When the running pomodoro or pause began; absent while idle.
    pub timer: Option<i64>,
    /// Are we currently inside a pause?
    pub pause: bool,
}

/// The mathematical model of a session.
#[verifier::ext_equal]
pub ghost struct ContextView {
    pub use_notification: bool,
    pub use_sound: bool,
    pub tasks: Seq<TaskView>,
    pub last_pomodoro: Option<i64>,
    pub pomodori_count: u16,
    pub timer: Option<i64>,
    pub pause: bool,
}

/// The models of a sequence of tasks.
pub open spec fn task_views(tasks: Seq<Task>) -> Seq<TaskView> {
    Seq::new(tasks.len(), |i: int| tasks[i]@)
}

impl View for Context {
    type V = ContextView;

    open spec fn view(&self) -> ContextView {
        ContextView {
            use_notification: self.use_notification,
            use_sound: self.use_sound,
            tasks: task_views(self.tasks@),
            last_pomodoro: self.last_pomodoro,
            pomodori_count: self.pomodori_count,
            timer: self.timer,
            pause: self.pause,
        }
    }
}

/// The task answers to the identifier prefix.
pub open spec fn matches_prefix(t: TaskView, prefix: Seq<char>) -> bool {
    is_prefix_of(prefix, t.uuid)
}

/// How many tasks answer to the prefix.
pub open spec fn match_count(tasks: Seq<TaskView>, prefix: Seq<char>) -> nat
    decreases tasks.len(),
{
    if tasks.len() == 0 {
        0
    } else {
        match_count(tasks.drop_last(), prefix) + if matches_prefix(tasks.last(), prefix) {
            1nat
        } else {
            0nat
        }
    }
}

/// The index of the first task that answers to the prefix.
pub open spec fn first_match(tasks: Seq<TaskView>, prefix: Seq<char>) -> Option<int>
    decreases tasks.len(),
{
    if tasks.len() == 0 {
        None
    } else if matches_prefix(tasks[0], prefix) {
        Some(0)
    } else {
        match first_match(tasks.drop_first(), prefix) {
            Some(i) => Some(i + 1),
            None => None,
        }
    }
}

/// No task answers to the prefix exactly when the count is zero.
pub proof fn lemma_match_count_zero(tasks: Seq<TaskView>, prefix: Seq<char>)
    ensures
        match_count(tasks, prefix) == 0 <==> forall|i: int|
            0 <= i < tasks.len() ==> !matches_prefix(#[trigger] tasks[i], prefix),
    decreases tasks.len(),
{
    if tasks.len() > 0 {
        lemma_match_count_zero(tasks.drop_last(), prefix);
        if match_count(tasks, prefix) == 0 {
            assert forall|i: int| 0 <= i < tasks.len() implies !matches_prefix(
                #[trigger] tasks[i],
                prefix,
            ) by {
                if i < tasks.len() - 1 {
                    assert(tasks.drop_last()[i] == tasks[i]);
                }
            }
        } else {
            if match_count(tasks.drop_last(), prefix) > 0 {
                let i = choose|i: int|
                    0 <= i < tasks.drop_last().len() && matches_prefix(
                        #[trigger] tasks.drop_last()[i],
                        prefix,
                    );
                assert(matches_prefix(tasks[i], prefix));
            }
        }
    }
}

/// What the first-match index means.
pub proof fn lemma_first_match(tasks: Seq<TaskView>, prefix: Seq<char>)
    ensures
        first_match(tasks, prefix) matches Some(i) ==> 0 <= i < tasks.len() && matches_prefix(
            tasks[i],
            prefix,
        ) && forall|j: int| 0 <= j < i ==> !matches_prefix(#[trigger] tasks[j], prefix),
        first_match(tasks, prefix) is None ==> forall|j: int|
            0 <= j < tasks.len() ==> !matches_prefix(#[trigger] tasks[j], prefix),
    decreases tasks.len(),
{
    if tasks.len() == 0 {
    } else if matches_prefix(tasks[0], prefix) {
    } else {
        let rest = tasks.drop_first();
        lemma_first_match(rest, prefix);
        match first_match(rest, prefix) {
            Some(i) => {
                assert(tasks[i + 1] == rest[i]);
                assert forall|j: int| 0 <= j < i + 1 implies !matches_prefix(
                    #[trigger] tasks[j],
                    prefix,
                ) by {
                    if j > 0 {
                        assert(rest[j - 1] == tasks[j]);
                    }
                }
            },
            None => {
                assert forall|j: int| 0 <= j < tasks.len() implies !matches_prefix(
                    #[trigger] tasks[j],
                    prefix,
                ) by {
                    if j > 0 {
                        assert(rest[j - 1] == tasks[j]);
                    }
                }
            },
        }
    }
}

/// The first match is pinned: nothing matches before `i` and `tasks[i]`
/// matches, so the first match is `i`.
pub proof fn lemma_first_match_at(tasks: Seq<TaskView>, prefix: Seq<char>, i: int)
    requires
        0 <= i < tasks.len(),
        matches_prefix(tasks[i], prefix),
        forall|j: int| 0 <= j < i ==> !matches_prefix(#[trigger] tasks[j], prefix),
    ensures
        first_match(tasks, prefix) == Some(i),
{
    lemma_first_match(tasks, prefix);
    match first_match(tasks, prefix) {
        Some(f) => {
            if f < i {
                assert(matches_prefix(tasks[f], prefix));
            } else if f > i {
                assert(!matches_prefix(tasks[i], prefix));
            }
        },
        None => {
            assert(!matches_prefix(tasks[i], prefix));
        },
    }
}

/// A task that answers to a prefix naming exactly one task is the only one
/// that answers to it: the resolver never misidentifies.
pub proof fn lemma_unique_match(tasks: Seq<TaskView>, prefix: Seq<char>, i: int)
    requires
        0 <= i < tasks.len(),
        matches_prefix(tasks[i], prefix),
        match_count(tasks, prefix) == 1,
    ensures
        forall|j: int|
            0 <= j < tasks.len() && j != i ==> !matches_prefix(#[trigger] tasks[j], prefix),
    decreases tasks.len(),
{
    let pre = tasks.drop_last();
    if i == tasks.len() - 1 {
        lemma_match_count_zero(pre, prefix);
        assert forall|j: int|
            0 <= j < tasks.len() && j != i implies !matches_prefix(
            #[trigger] tasks[j],
            prefix,
        ) by {
            assert(pre[j] == tasks[j]);
        }
    } else {
        assert(pre[i] == tasks[i]);
        if matches_prefix(tasks.last(), prefix) {
            lemma_match_count_nonneg(pre, prefix, i);
            assert(false);
        }
        lemma_unique_match(pre, prefix, i);
        assert forall|j: int|
            0 <= j < tasks.len() && j != i implies !matches_prefix(
            #[trigger] tasks[j],
            prefix,
        ) by {
            if j < tasks.len() - 1 {
                assert(pre[j] == tasks[j]);
            }
        }
    }
}

/// A prefix that names exactly one task resolves to that task and no other:
/// whichever task is known to match is the one the first-match scan finds.
pub proof fn lemma_resolver_returns_unique_match(
    tasks: Seq<TaskView>,
    prefix: Seq<char>,
    i: int,
)
    requires
        0 <= i < tasks.len(),
        matches_prefix(tasks[i], prefix),
        match_count(tasks, prefix) == 1,
    ensures
        first_match(tasks, prefix) == Some(i),
{
    lemma_unique_match(tasks, prefix, i);
    lemma_first_match_at(tasks, prefix, i);
}

/// A sequence with a match somewhere counts at least one.
pub proof fn lemma_match_count_nonneg(tasks: Seq<TaskView>, prefix: Seq<char>, i: int)
    requires
        0 <= i < tasks.len(),
        matches_prefix(tasks[i], prefix),
    ensures
        match_count(tasks, prefix) >= 1,
    decreases tasks.len(),
{
    if i < tasks.len() - 1 {
        assert(tasks.drop_last()[i] == tasks[i]);
        lemma_match_count_nonneg(tasks.drop_last(), prefix, i);
    }
}

/// The streak value after completing a pomodoro at `now`: one more while the
/// last pomodoro is recent, wrapping past four back to zero; a fresh count
/// of one otherwise.
pub open spec fn next_streak(c: ContextView, now: i64) -> u16 {
    if is_recent_at(c.last_pomodoro, now) {
        if c.pomodori_count >= 4 {
            0
        } else {
            (c.pomodori_count + 1) as u16
        }
    } else {
        1
    }
}

/// The streak never leaves `[0, 4]` after a completion, whatever it was
/// before.
pub proof fn lemma_streak_bounded(c: ContextView, now: i64)
    ensures
        next_streak(c, now) <= 4,
{
}

/// A completion more than 40 whole minutes after the last one resets the
/// streak to one, regardless of its prior value.
pub proof fn lemma_stale_completion_resets(c: ContextView, now: i64)
    requires
        !is_recent_at(c.last_pomodoro, now),
    ensures
        next_streak(c, now) == 1,
{
}

impl ContextView {
    /// At most one task is ongoing.
    pub open spec fn at_most_one_ongoing(self) -> bool {
        forall|i: int, j: int|
            0 <= i < self.tasks.len() && 0 <= j < self.tasks.len()
                && #[trigger] self.tasks[i].is_ongoing && #[trigger] self.tasks[j].is_ongoing
                ==> i == j
    }
}

impl Context {
    /// A fresh idle session with no tasks and both collaborator flags on.
    pub fn default() -> (c: Context)
        ensures
            c@ == (ContextView {
                use_notification: true,
                use_sound: true,
                tasks: Seq::<TaskView>::empty(),
                last_pomodoro: None,
                pomodori_count: 0,
                timer: None,
                pause: false,
            }),
    {
        let c = Context {
            use_notification: true,
            use_sound: true,
            tasks: Vec::new(),
            last_pomodoro: None,
            pomodori_count: 0,
            timer: None,
            pause: false,
        };
        proof {
            assert(c@ =~= (ContextView {
                use_notification: true,
                use_sound: true,
                tasks: Seq::<TaskView>::empty(),
                last_pomodoro: None,
                pomodori_count: 0,
                timer: None,
                pause: false,
            }));
        }
        c
    }

    /// Records one more task at the end of the listing order.
    pub fn add_task(&mut self, task: Task)
        ensures
            final(self)@ == (ContextView {
                tasks: old(self)@.tasks.push(task@),
                ..old(self)@
            }),
            old(self)@.at_most_one_ongoing() && !task@.is_ongoing
                ==> final(self)@.at_most_one_ongoing(),
    {
        let ghost t = task@;
        self.tasks.push(task);
        proof {
            assert(task_views(self.tasks@) =~= old(self)@.tasks.push(t));
            assert(final(self)@ =~= (ContextView { tasks: old(self)@.tasks.push(t), ..old(self)@ }));
        }
    }

    /// Is some task currently ongoing?
    pub fn has_ongoing_task(&self) -> (r: bool)
        ensures
            r == exists|i: int| 0 <= i < self@.tasks.len() && #[trigger] self@.tasks[i].is_ongoing,
    {
        let mut i: usize = 0;
        while i < self.tasks.len()
            invariant
                0 <= i <= self@.tasks.len(),
                self@.tasks.len() == self.tasks@.len(),
                forall|j: int| 0 <= j < i ==> !(#[trigger] self@.tasks[j].is_ongoing),
            decreases self.tasks@.len() - i,
        {
            if self.tasks[i].is_ongoing {
                proof {
                    assert(self@.tasks[i as int].is_ongoing);
                }
                return true;
            }
            i += 1;
        }
        false
    }

    /// The index of the first ongoing task.
    fn get_ongoing_task(&self) -> (r: Option<usize>)
        ensures
            r matches Some(i) ==> i < self@.tasks.len() && self@.tasks[i as int].is_ongoing,
            r is None ==> forall|j: int|
                0 <= j < self@.tasks.len() ==> !(#[trigger] self@.tasks[j].is_ongoing),
    {
        let mut i: usize = 0;
        while i < self.tasks.len()
            invariant
                0 <= i <= self@.tasks.len(),
                self@.tasks.len() == self.tasks@.len(),
                forall|j: int| 0 <= j < i ==> !(#[trigger] self@.tasks[j].is_ongoing),
            decreases self.tasks@.len() - i,
        {
            if self.tasks[i].is_ongoing {
                return Some(i);
            }
            i += 1;
        }
        None
    }

    /// Does the identifier name one and only one task? Exactly one match
    /// succeeds; zero matches fail with `NoMatch`; two or more fail with
    /// `AmbiguousMatch`, never silently picking one.
    pub fn is_valid_identifier(&self, identifier: &str) -> (r: Result<(), IdentificationError>)
        ensures
            r is Ok <==> match_count(self@.tasks, identifier@) == 1,
            r == Err::<(), IdentificationError>(IdentificationError::NoMatch) <==> match_count(
                self@.tasks,
                identifier@,
            ) == 0,
            r == Err::<(), IdentificationError>(IdentificationError::AmbiguousMatch) <==>
                match_count(self@.tasks, identifier@) >= 2,
    {
        let mut c: usize = 0;
        let mut i: usize = 0;
        while i < self.tasks.len()
            invariant
                0 <= i <= self@.tasks.len(),
                self@.tasks.len() == self.tasks@.len(),
                c as nat == match_count(self@.tasks.take(i as int), identifier@),
                c <= i,
            decreases self.tasks@.len() - i,
        {
            let m = self.tasks[i].can_be_identified_by(identifier);
            proof {
                let pre = self@.tasks.take(i as int);
                let cur = self@.tasks.take(i + 1);
                assert(cur.drop_last() =~= pre);
                assert(cur.last() == self@.tasks[i as int]);
            }
            if m {
                c += 1;
            }
            i += 1;
        }
        proof {
            assert(self@.tasks.take(self@.tasks.len() as int) =~= self@.tasks);
        }
        if c == 0 {
            Err(IdentificationError::NoMatch)
        } else if c == 1 {
            Ok(())
        } else {
            Err(IdentificationError::AmbiguousMatch)
        }
    }

    /// The index of the first task answering to the identifier.
    pub fn get_task(&self, identifier: &str) -> (r: Option<usize>)
        ensures
            match r {
                Some(i) => first_match(self@.tasks, identifier@) == Some(i as int),
                None => first_match(self@.tasks, identifier@) is None,
            },
    {
        let mut i: usize = 0;
        while i < self.tasks.len()
            invariant
                0 <= i <= self@.tasks.len(),
                self@.tasks.len() == self.tasks@.len(),
                forall|j: int| 0 <= j < i ==> !matches_prefix(#[trigger] self@.tasks[j], identifier@),
            decreases self.tasks@.len() - i,
        {
            if self.tasks[i].can_be_identified_by(identifier) {
                proof {
                    lemma_first_match_at(self@.tasks, identifier@, i as int);
                }
                return Some(i);
            }
            i += 1;
        }
        proof {
            lemma_first_match(self@.tasks, identifier@);
            match first_match(self@.tasks, identifier@) {
                Some(f) => {
                    assert(matches_prefix(self@.tasks[f], identifier@));
                },
                None => {},
            }
        }
        None
    }

    /// The listing-order indices of the tasks not yet finished.
    pub fn get_current_tasks(&self) -> (r: Vec<usize>)
        ensures
            r@.map_values(|x: usize| x as int) == current_indices(self@.tasks),
    {
        let mut r: Vec<usize> = Vec::new();
        let mut i: usize = 0;
        while i < self.tasks.len()
            invariant
                0 <= i <= self@.tasks.len(),
                self@.tasks.len() == self.tasks@.len(),
                r@.map_values(|x: usize| x as int) == current_indices(self@.tasks.take(i as int)),
            decreases self.tasks@.len() - i,
        {
            let ghost pre = self@.tasks.take(i as int);
            let ghost cur = self@.tasks.take(i + 1);
            proof {
                assert(cur.drop_last() =~= pre);
                assert(cur.last() == self@.tasks[i as int]);
            }
            if !self.tasks[i].is_finished() {
                let ghost before = r@;
                r.push(i);
                proof {
                    assert(r@.map_values(|x: usize| x as int) =~= before.map_values(
                        |x: usize| x as int,
                    ).push(i as int));
                }
            }
            i += 1;
        }
        proof {
            assert(self@.tasks.take(self@.tasks.len() as int) =~= self@.tasks);
        }
        r
    }

    /// Was the last pomodoro completed within the streak window?
    pub fn last_pomodoro_was_recent(&self, now: i64) -> (r: bool)
        requires
            0 <= now <= MAX_TIMESTAMP_MS,
        ensures
            r == is_recent_at(self@.last_pomodoro, now),
    {
        match self.last_pomodoro {
            None => false,
            Some(t) => t > now - crate::time::RECENT_WINDOW_MS,
        }
    }

    /// Records one completed pomodoro at `now`: the streak advances by the
    /// recency rule and the last-pomodoro instant becomes `now`.
    pub fn increment_pomodoro_count(&mut self, now: i64)
        requires
            0 <= now <= MAX_TIMESTAMP_MS,
        ensures
            final(self)@ == (ContextView {
                pomodori_count: next_streak(old(self)@, now),
                last_pomodoro: Some(now),
                ..old(self)@
            }),
    {
        if self.last_pomodoro_was_recent(now) {
            // one more, wrapping past four back to zero
            if self.pomodori_count >= 4 {
                self.pomodori_count = 0;
            } else {
                self.pomodori_count += 1;
            }
        } else {
            self.pomodori_count = 1;
        }
        self.last_pomodoro = Some(now);
        proof {
            assert(final(self)@ =~= (ContextView {
                pomodori_count: next_streak(old(self)@, now),
                last_pomodoro: Some(now),
                ..old(self)@
            }));
        }
    }

    /// A long pause is owed exactly when the streak is still recent and has
    /// just reached four.
    pub fn should_be_long_pause(&self, now: i64) -> (r: bool)
        requires
            0 <= now <= MAX_TIMESTAMP_MS,
        ensures
            r == (is_recent_at(self@.last_pomodoro, now) && self@.pomodori_count == 4),
    {
        self.last_pomodoro_was_recent(now) && self.pomodori_count == 4
    }
}

/// A session's status for the user: idle, working on a task, or on a break.
pub enum Status {
    Idle,
    Working { description: String, minutes: i64 },
    OnBreak { minutes: i64 },
}

impl Context {
    /// Starts a work interval against the task the identifier names.
    /// Refused without any mutation while another task is ongoing, or when
    /// the identifier does not name exactly one task; on success the task
    /// becomes the only ongoing one and the timer starts at `now`.
    pub fn start_task(&mut self, identifier: &str, now: i64) -> (r: Result<usize, StartError>)
        requires
            0 <= now <= MAX_TIMESTAMP_MS,
        ensures
            r == Err::<usize, StartError>(StartError::AlreadyWorking) <==> exists|i: int|
                0 <= i < old(self)@.tasks.len() && #[trigger] old(self)@.tasks[i].is_ongoing,
            r matches Err(_) ==> final(self)@ == old(self)@,
            !(exists|i: int| 0 <= i < old(self)@.tasks.len() && #[trigger] old(
                self,
            )@.tasks[i].is_ongoing) ==> {
                &&& r is Ok <==> match_count(old(self)@.tasks, identifier@) == 1
                &&& r == Err::<usize, StartError>(
                    StartError::Identification(IdentificationError::NoMatch),
                ) <==> match_count(old(self)@.tasks, identifier@) == 0
                &&& r == Err::<usize, StartError>(
                    StartError::Identification(IdentificationError::AmbiguousMatch),
                ) <==> match_count(old(self)@.tasks, identifier@) >= 2
            },
            r matches Ok(i) ==> {
                &&& 0 <= i < old(self)@.tasks.len()
                &&& matches_prefix(old(self)@.tasks[i as int], identifier@)
                &&& match_count(old(self)@.tasks, identifier@) == 1
                &&& final(self)@ == (ContextView {
                    tasks: old(self)@.tasks.update(
                        i as int,
                        TaskView {
                            is_ongoing: true,
                            start_date: if old(self)@.tasks[i as int].start_date is None {
                                Some(now)
                            } else {
                                old(self)@.tasks[i as int].start_date
                            },
                            ..old(self)@.tasks[i as int]
                        },
                    ),
                    timer: Some(now),
                    ..old(self)@
                })
                &&& final(self)@.at_most_one_ongoing()
            },
    {
        if self.has_ongoing_task() {
            return Err(StartError::AlreadyWorking);
        }
        match self.is_valid_identifier(identifier) {
            Err(e) => Err(StartError::Identification(e)),
            Ok(()) => {
                match self.get_task(identifier) {
                    None => {
                        proof {
                            lemma_first_match(self@.tasks, identifier@);
                            lemma_match_count_zero(self@.tasks, identifier@);
                            assert(false);
                        }
                        Err(StartError::Identification(IdentificationError::NoMatch))
                    },
                    Some(i) => {
                        proof {
                            lemma_first_match(self@.tasks, identifier@);
                        }
                        let mut t = self.tasks.remove(i);
                        t.start(now);
                        self.tasks.insert(i, t);
                        self.timer = Some(now);
                        proof {
                            let updated = old(self)@.tasks.update(
                                i as int,
                                TaskView {
                                    is_ongoing: true,
                                    start_date: if old(self)@.tasks[i as int].start_date
                                        is None {
                                        Some(now)
                                    } else {
                                        old(self)@.tasks[i as int].start_date
                                    },
                                    ..old(self)@.tasks[i as int]
                                },
                            );
                            assert(task_views(self.tasks@) =~= updated);
                            assert(final(self)@ =~= (ContextView {
                                tasks: updated,
                                timer: Some(now),
                                ..old(self)@
                            }));
                            assert forall|a: int, b: int|
                                0 <= a < updated.len() && 0 <= b < updated.len()
                                    && #[trigger] updated[a].is_ongoing
                                    && #[trigger] updated[b].is_ongoing implies a == b by {
                                if a != i as int {
                                    assert(updated[a] == old(self)@.tasks[a]);
                                }
                                if b != i as int {
                                    assert(updated[b] == old(self)@.tasks[b]);
                                }
                            }
                        }
                        Ok(i)
                    },
                }
            },
        }
    }

    /// Records a completed work interval against the first task the
    /// identifier names: that task gains one pomodoro and stops being
    /// ongoing, the streak advances by the recency rule, and the session
    /// enters its pause at `now`. Returns whether the pause owed is the
    /// long one; fails without mutation when nothing matches.
    pub fn complete_pomodoro(&mut self, identifier: &str, now: i64) -> (r: Result<
        bool,
        IdentificationError,
    >)
        requires
            0 <= now <= MAX_TIMESTAMP_MS,
            first_match(old(self)@.tasks, identifier@) matches Some(i) ==> old(
                self,
            )@.tasks[i].pomodori_count < u16::MAX,
        ensures
            r is Err <==> first_match(old(self)@.tasks, identifier@) is None,
            r matches Err(e) ==> e == IdentificationError::NoMatch && final(self)@ == old(self)@,
            r matches Ok(is_long) ==> {
                let i = first_match(old(self)@.tasks, identifier@)->Some_0;
                &&& final(self)@ == (ContextView {
                    tasks: old(self)@.tasks.update(
                        i,
                        TaskView {
                            pomodori_count: (old(self)@.tasks[i].pomodori_count + 1) as u16,
                            is_ongoing: false,
                            ..old(self)@.tasks[i]
                        },
                    ),
                    pomodori_count: next_streak(old(self)@, now),
                    last_pomodoro: Some(now),
                    timer: Some(now),
                    pause: true,
                    ..old(self)@
                })
                &&& is_long == (next_streak(old(self)@, now) == 4)
            },
            old(self)@.at_most_one_ongoing() ==> final(self)@.at_most_one_ongoing(),
    {
        match self.get_task(identifier) {
            None => Err(IdentificationError::NoMatch),
            Some(i) => {
                proof {
                    lemma_first_match(self@.tasks, identifier@);
                }
                let mut t = self.tasks.remove(i);
                t.do_one_pomodoro();
                self.tasks.insert(i, t);
                self.increment_pomodoro_count(now);
                self.pause = true;
                self.timer = Some(now);
                let is_long = self.should_be_long_pause(now);
                proof {
                    let gi = i as int;
                    let updated = old(self)@.tasks.update(
                        gi,
                        TaskView {
                            pomodori_count: (old(self)@.tasks[gi].pomodori_count + 1) as u16,
                            is_ongoing: false,
                            ..old(self)@.tasks[gi]
                        },
                    );
                    assert(task_views(self.tasks@) =~= updated);
                    assert(final(self)@ =~= (ContextView {
                        tasks: updated,
                        pomodori_count: next_streak(old(self)@, now),
                        last_pomodoro: Some(now),
                        timer: Some(now),
                        pause: true,
                        ..old(self)@
                    }));
                }
                Ok(is_long)
            },
        }
    }

    /// Marks the task the identifier names as done at `now`. The task then
    /// leaves the default listing while staying in the store for the full
    /// listing. Fails without mutation unless the identifier names exactly
    /// one task.
    pub fn mark_as_done(&mut self, identifier: &str, now: i64) -> (r: Result<
        usize,
        IdentificationError,
    >)
        ensures
            r is Ok <==> match_count(old(self)@.tasks, identifier@) == 1,
            r == Err::<usize, IdentificationError>(IdentificationError::NoMatch) <==> match_count(
                old(self)@.tasks,
                identifier@,
            ) == 0,
            r == Err::<usize, IdentificationError>(IdentificationError::AmbiguousMatch) <==>
                match_count(old(self)@.tasks, identifier@) >= 2,
            r matches Err(_) ==> final(self)@ == old(self)@,
            r matches Ok(i) ==> {
                &&& 0 <= i < old(self)@.tasks.len()
                &&& matches_prefix(old(self)@.tasks[i as int], identifier@)
                &&& final(self)@ == (ContextView {
                    tasks: old(self)@.tasks.update(
                        i as int,
                        TaskView { end_date: Some(now), ..old(self)@.tasks[i as int] },
                    ),
                    ..old(self)@
                })
                &&& !current_indices(final(self)@.tasks).contains(i as int)
            },
            old(self)@.at_most_one_ongoing() ==> final(self)@.at_most_one_ongoing(),
    {
        match self.is_valid_identifier(identifier) {
            Err(e) => Err(e),
            Ok(()) => {
                match self.get_task(identifier) {
                    None => {
                        proof {
                            lemma_first_match(self@.tasks, identifier@);
                            lemma_match_count_zero(self@.tasks, identifier@);
                            assert(false);
                        }
                        Err(IdentificationError::NoMatch)
                    },
                    Some(i) => {
                        proof {
                            lemma_first_match(self@.tasks, identifier@);
                        }
                        let mut t = self.tasks.remove(i);
                        t.finish(now);
                        self.tasks.insert(i, t);
                        proof {
                            let gi = i as int;
                            let updated = old(self)@.tasks.update(
                                gi,
                                TaskView { end_date: Some(now), ..old(self)@.tasks[gi] },
                            );
                            assert(task_views(self.tasks@) =~= updated);
                            assert(final(self)@ =~= (ContextView {
                                tasks: updated,
                                ..old(self)@
                            }));
                            lemma_current_indices(updated, gi);
                        }
                        Ok(i)
                    },
                }
            },
        }
    }

    /// Ends the pause: the session is idle again.
    pub fn end_break(&mut self)
        ensures
            final(self)@ == (ContextView { timer: None, pause: false, ..old(self)@ }),
    {
        self.timer = None;
        self.pause = false;
        proof {
            assert(final(self)@ =~= (ContextView { timer: None, pause: false, ..old(self)@ }));
        }
    }

    /// What the session is doing at `now`: idle when no timer runs; on a
    /// break when paused; otherwise working on the first ongoing task, with
    /// the elapsed whole minutes either way.
    pub fn status(&self, now: i64) -> (r: Status)
        requires
            0 <= now <= MAX_TIMESTAMP_MS,
            self@.timer matches Some(t) ==> 0 <= t <= MAX_TIMESTAMP_MS,
            self@.timer is Some && !self@.pause ==> exists|i: int|
                0 <= i < self@.tasks.len() && #[trigger] self@.tasks[i].is_ongoing,
        ensures
            match r {
                Status::Idle => self@.timer is None,
                Status::OnBreak { minutes } => {
                    &&& self@.timer matches Some(t)
                    &&& self@.pause
                    &&& minutes == minutes_between(t as int, now as int)
                },
                Status::Working { description, minutes } => {
                    &&& self@.timer matches Some(t)
                    &&& !self@.pause
                    &&& minutes == minutes_between(t as int, now as int)
                    &&& exists|i: int|
                        0 <= i < self@.tasks.len() && #[trigger] self@.tasks[i].is_ongoing
                            && description@ == self@.tasks[i].description
                },
            },
    {
        match self.timer {
            None => Status::Idle,
            Some(t) => {
                let minutes = elapsed_minutes(t, now);
                if self.pause {
                    Status::OnBreak { minutes }
                } else {
                    match self.get_ongoing_task() {
                        None => {
                            proof {
                                assert(false);
                            }
                            Status::Idle
                        },
                        Some(i) => {
                            let description = self.tasks[i].description.clone();
                            proof {
                                assert(description@ == self@.tasks[i as int].description);
                            }
                            Status::Working { description, minutes }
                        },
                    }
                }
            },
        }
    }
}

/// The option a listing runs under: only the unfinished tasks by default,
/// or every task.
pub struct ListingOption {
    pub only_current: bool,
}

/// The listing-order indices of the unfinished tasks.
pub open spec fn current_indices(tasks: Seq<TaskView>) -> Seq<int>
    decreases tasks.len(),
{
    if tasks.len() == 0 {
        Seq::empty()
    } else {
        current_indices(tasks.drop_last()) + if tasks.last().end_date is None {
            seq![tasks.len() - 1]
        } else {
            Seq::empty()
        }
    }
}

/// Every listed index is a real index.
pub proof fn lemma_current_indices_range(tasks: Seq<TaskView>)
    ensures
        forall|k: int|
            0 <= k < current_indices(tasks).len() ==> 0 <= #[trigger] current_indices(tasks)[k]
                < tasks.len(),
    decreases tasks.len(),
{
    if tasks.len() > 0 {
        lemma_current_indices_range(tasks.drop_last());
        let pv = current_indices(tasks.drop_last());
        let full = current_indices(tasks);
        assert forall|k: int| 0 <= k < full.len() implies 0 <= #[trigger] full[k] < tasks.len() by {
            if k < pv.len() {
                assert(full[k] == pv[k]);
            } else {
                assert(full[k] == tasks.len() - 1);
            }
        }
    }
}

/// A task stands in the default listing exactly while it is unfinished.
pub proof fn lemma_current_indices(tasks: Seq<TaskView>, i: int)
    requires
        0 <= i < tasks.len(),
    ensures
        current_indices(tasks).contains(i) <==> tasks[i].end_date is None,
    decreases tasks.len(),
{
    let pre = tasks.drop_last();
    let full = current_indices(tasks);
    if i == tasks.len() - 1 {
        if tasks.last().end_date is None {
            assert(full[full.len() - 1] == i);
        } else {
            lemma_current_indices_range(pre);
            assert(full =~= current_indices(pre));
            if full.contains(i) {
                let k = choose|k: int| 0 <= k < full.len() && full[k] == i;
                assert(0 <= full[k] < pre.len());
            }
        }
    } else {
        lemma_current_indices(pre, i);
        assert(pre[i] == tasks[i]);
        let pv = current_indices(pre);
        if pv.contains(i) {
            let k = choose|k: int| 0 <= k < pv.len() && pv[k] == i;
            assert(full[k] == i);
            assert(full.contains(i));
        }
        if full.contains(i) {
            let k = choose|k: int| 0 <= k < full.len() && full[k] == i;
            if k < pv.len() {
                assert(pv[k] == i);
                assert(pv.contains(i));
            } else {
                assert(full[k] == tasks.len() - 1);
            }
        }
    }
}

/// The session a header line's fields describe — tasks come from the other
/// lines, the collaborator flags from configuration — or the first fatal
/// parse failure.
pub open spec fn parse_context_fields(fields: Seq<Seq<char>>) -> Result<ContextView, ParseError> {
    if fields.len() != 4 {
        Err(ParseError::MissingField)
    } else {
        match date_field(fields[0]) {
            Err(e) => Err(e),
            Ok(last_pomodoro) => match parse_u16_spec(fields[1]) {
                None => Err(ParseError::BadNumber),
                Some(count) => match date_field(fields[2]) {
                    Err(e) => Err(e),
                    Ok(timer) => Ok(
                        ContextView {
                            use_notification: true,
                            use_sound: true,
                            tasks: Seq::empty(),
                            last_pomodoro,
                            pomodori_count: count,
                            timer,
                            pause: bool_field(fields[3]),
                        },
                    ),
                },
            },
        }
    }
}

/// The session the store's header line describes.
pub open spec fn parse_context_line(line: Seq<char>) -> Result<ContextView, ParseError> {
    parse_context_fields(split_on(line, ';'))
}

/// The tasks the store's remaining lines describe; empty lines are skipped.
pub open spec fn parse_tasks_lines(lines: Seq<Seq<char>>) -> Result<Seq<TaskView>, ParseError>
    decreases lines.len(),
{
    if lines.len() == 0 {
        Ok(Seq::empty())
    } else if lines[0].len() == 0 {
        parse_tasks_lines(lines.drop_first())
    } else {
        match parse_task_line(lines[0]) {
            Err(e) => Err(e),
            Ok(t) => match parse_tasks_lines(lines.drop_first()) {
                Err(e) => Err(e),
                Ok(rest) => Ok(seq![t] + rest),
            },
        }
    }
}

/// The session a whole store text describes: the first line is the header,
/// every further non-empty line one task.
pub open spec fn parse_context_file(s: Seq<char>) -> Result<ContextView, ParseError> {
    let lines = split_on(s, '\n');
    match parse_context_line(lines[0]) {
        Err(e) => Err(e),
        Ok(c) => match parse_tasks_lines(lines.drop_first()) {
            Err(e) => Err(e),
            Ok(ts) => Ok(ContextView { tasks: ts, ..c }),
        },
    }
}

impl ContextView {
    /// The session can be written to the store and read back unchanged.
    pub open spec fn encodable(self) -> bool {
        &&& (self.last_pomodoro matches Some(t) ==> 0 <= t <= MAX_TIMESTAMP_MS)
        &&& (self.timer matches Some(t) ==> 0 <= t <= MAX_TIMESTAMP_MS)
        &&& forall|i: int| 0 <= i < self.tasks.len() ==> (#[trigger] self.tasks[i]).encodable()
    }

    /// The session as the header line alone describes it: no tasks yet, and
    /// the collaborator flags at their defaults.
    pub open spec fn header(self) -> ContextView {
        ContextView {
            use_notification: true,
            use_sound: true,
            tasks: Seq::<TaskView>::empty(),
            ..self
        }
    }

    /// The session with the collaborator flags at their defaults, as a
    /// round trip through the store yields it.
    pub open spec fn with_default_flags(self) -> ContextView {
        ContextView { use_notification: true, use_sound: true, ..self }
    }
}

impl Context {
    /// The header line without its terminating line break.
    fn header_body(&self) -> (r: String)
        requires
            self@.last_pomodoro matches Some(t) ==> 0 <= t <= MAX_TIMESTAMP_MS,
            self@.timer matches Some(t) ==> 0 <= t <= MAX_TIMESTAMP_MS,
        ensures
            parse_context_line(r@) == Ok::<ContextView, ParseError>(self@.header()),
            free_of(r@, '\n'),
    {
        let mut fields: Vec<String> = Vec::new();
        fields.push(opt_date_string(&self.last_pomodoro));
        fields.push(u64_to_dec(self.pomodori_count as u64));
        fields.push(opt_date_string(&self.timer));
        fields.push(bool_string(self.pause));
        let r = join_strings(&fields, ';');
        proof {
            let fv = views_of(fields@);
            lemma_dec_field_ok(self@.pomodori_count as nat);
            assert forall|i: int| 0 <= i < fv.len() implies free_of(#[trigger] fv[i], ';')
                && free_of(fv[i], '\n') by {
                assert(crate::tasks::text_field_ok(fv[i]));
            }
            lemma_split_join(fv, ';');
            lemma_join_free(fv, ';', '\n');
            assert(parse_context_fields(fv) matches Ok(v) && v =~= self@.header());
        }
        r
    }

    /// The header line of the store: the session-level fields in their
    /// fixed order, terminated by a line break. Reading the line back
    /// yields the same session fields.
    pub fn metadata_to_csv_line(&self) -> (r: String)
        requires
            self@.last_pomodoro matches Some(t) ==> 0 <= t <= MAX_TIMESTAMP_MS,
            self@.timer matches Some(t) ==> 0 <= t <= MAX_TIMESTAMP_MS,
        ensures
            r@.len() > 0,
            r@.last() == '\n',
            free_of(r@.drop_last(), '\n'),
            parse_context_line(r@.drop_last()) == Ok::<ContextView, ParseError>(self@.header()),
    {
        let mut r = self.header_body();
        let ghost body = r@;
        push_char(&mut r, '\n');
        proof {
            assert(r@.drop_last() =~= body);
        }
        r
    }

    /// Reads the session-level fields from the store's header line (without
    /// its line break); the exact inverse of the encoding, with a fatal
    /// error for any required field that does not parse. Tasks stay empty
    /// and the collaborator flags default on: neither lives in this line.
    pub fn from_csv_line(line: &str) -> (r: Result<Context, ParseError>)
        ensures
            r matches Ok(c) ==> parse_context_line(line@) == Ok::<ContextView, ParseError>(c@),
            r matches Err(e) ==> parse_context_line(line@) == Err::<ContextView, ParseError>(e),
    {
        let fields = split_str(line, ';');
        if fields.len() != 4 {
            return Err(ParseError::MissingField);
        }
        let last_pomodoro = match parse_maybe_local_date(fields[0].as_str()) {
            Ok(d) => d,
            Err(e) => {
                return Err(e);
            },
        };
        let pomodori_count = match parse_u16(fields[1].as_str()) {
            Some(c) => c,
            None => {
                return Err(ParseError::BadNumber);
            },
        };
        let timer = match parse_maybe_local_date(fields[2].as_str()) {
            Ok(d) => d,
            Err(e) => {
                return Err(e);
            },
        };
        let pause = str_eq(fields[3].as_str(), "true");
        let c = Context {
            use_notification: true,
            use_sound: true,
            tasks: Vec::new(),
            last_pomodoro,
            pomodori_count,
            timer,
            pause,
        };
        proof {
            assert(task_views(c.tasks@) =~= Seq::<TaskView>::empty());
            let fv = views_of(fields@);
            assert(parse_context_fields(fv) matches Ok(v) && v =~= c@);
        }
        Ok(c)
    }
}

/// Lines that hold exactly the given tasks, closed by one empty line, parse
/// back to those tasks.
proof fn lemma_parse_task_bodies(lines: Seq<Seq<char>>, ts: Seq<TaskView>)
    requires
        lines.len() == ts.len() + 1,
        forall|i: int|
            0 <= i < ts.len() ==> (#[trigger] lines[i]).len() > 0 && parse_task_line(lines[i])
                == Ok::<TaskView, ParseError>(ts[i]),
        lines[ts.len() as int].len() == 0,
    ensures
        parse_tasks_lines(lines) == Ok::<Seq<TaskView>, ParseError>(ts),
    decreases ts.len(),
{
    if ts.len() == 0 {
        assert(lines[0].len() == 0);
        assert(lines.drop_first() =~= Seq::<Seq<char>>::empty());
        assert(ts =~= Seq::<TaskView>::empty());
    } else {
        let lrest = lines.drop_first();
        let trest = ts.drop_first();
        assert(lines[0].len() > 0 && parse_task_line(lines[0]) == Ok::<TaskView, ParseError>(
            ts[0],
        ));
        assert forall|i: int|
            0 <= i < trest.len() implies (#[trigger] lrest[i]).len() > 0 && parse_task_line(
            lrest[i],
        ) == Ok::<TaskView, ParseError>(trest[i]) by {
            assert(lrest[i] == lines[i + 1]);
            assert(trest[i] == ts[i + 1]);
        }
        assert(lrest[trest.len() as int] == lines[ts.len() as int]);
        lemma_parse_task_bodies(lrest, trest);
        assert(seq![ts[0]] + trest =~= ts);
    }
}

/// Reads tasks from `lines[from..]`; mirrors `parse_tasks_lines`.
fn parse_task_vec(lines: &Vec<String>, from: usize) -> (r: Result<Vec<Task>, ParseError>)
    requires
        from <= lines@.len(),
    ensures
        r matches Ok(v) ==> parse_tasks_lines(views_of(lines@).skip(from as int)) == Ok::<
            Seq<TaskView>,
            ParseError,
        >(task_views(v@)),
        r matches Err(e) ==> parse_tasks_lines(views_of(lines@).skip(from as int)) == Err::<
            Seq<TaskView>,
            ParseError,
        >(e),
    decreases lines@.len() - from,
{
    let ghost rest_lines = views_of(lines@).skip(from as int);
    if from == lines.len() {
        let v: Vec<Task> = Vec::new();
        proof {
            assert(rest_lines =~= Seq::<Seq<char>>::empty());
            assert(task_views(v@) =~= Seq::<TaskView>::empty());
        }
        return Ok(v);
    }
    proof {
        assert(rest_lines[0] == lines@[from as int]@);
        assert(rest_lines.drop_first() =~= views_of(lines@).skip(from as int + 1));
    }
    if lines[from].as_str().unicode_len() == 0 {
        parse_task_vec(lines, from + 1)
    } else {
        match Task::from_csv(lines[from].as_str()) {
            Err(e) => Err(e),
            Ok(t) => {
                let ghost tv = t@;
                match parse_task_vec(lines, from + 1) {
                    Err(e) => Err(e),
                    Ok(mut v) => {
                        let ghost prev = v@;
                        v.insert(0, t);
                        proof {
                            assert(task_views(v@) =~= seq![tv] + task_views(prev));
                        }
                        Ok(v)
                    },
                }
            },
        }
    }
}

impl Context {
    /// The whole store text: the header line, then one line per task in
    /// listing order. Reading the text back yields the same session — the
    /// round-trip law of the persistence codec — with the collaborator
    /// flags at their defaults, since those live in configuration, not in
    /// the store.
    pub fn to_file_string(&self) -> (r: String)
        requires
            self@.encodable(),
        ensures
            parse_context_file(r@) == Ok::<ContextView, ParseError>(self@.with_default_flags()),
    {
        let mut parts: Vec<String> = Vec::new();
        let h = self.header_body();
        parts.push(h);
        let mut i: usize = 0;
        while i < self.tasks.len()
            invariant
                0 <= i <= self.tasks@.len(),
                self@.encodable(),
                self@.tasks.len() == self.tasks@.len(),
                parts@.len() == i + 1,
                parse_context_line(parts@[0]@) == Ok::<ContextView, ParseError>(self@.header()),
                free_of(parts@[0]@, '\n'),
                forall|j: int|
                    1 <= j <= i ==> free_of(#[trigger] parts@[j]@, '\n') && parts@[j]@.len() > 0
                        && parse_task_line(parts@[j]@) == Ok::<TaskView, ParseError>(
                        self@.tasks[j - 1],
                    ),
            decreases self.tasks@.len() - i,
        {
            proof {
                assert(self@.tasks[i as int].encodable());
            }
            let b = self.tasks[i].task_line_body();
            parts.push(b);
            i += 1;
        }
        parts.push(String::new());
        let r = join_strings(&parts, '\n');
        proof {
            let pv = views_of(parts@);
            let n = self@.tasks.len() as int;
            assert forall|k: int| 0 <= k < pv.len() implies free_of(#[trigger] pv[k], '\n') by {
                assert(pv[k] == parts@[k]@);
            }
            lemma_split_join(pv, '\n');
            let body_lines = pv.drop_first();
            assert forall|k: int|
                0 <= k < n implies (#[trigger] body_lines[k]).len() > 0 && parse_task_line(
                body_lines[k],
            ) == Ok::<TaskView, ParseError>(self@.tasks[k]) by {
                assert(body_lines[k] == parts@[k + 1]@);
            }
            assert(body_lines[n] == parts@[n + 1]@);
            lemma_parse_task_bodies(body_lines, self@.tasks);
            assert(parse_context_file(r@) matches Ok(v) && v =~= self@.with_default_flags());
        }
        r
    }

    /// Reads a whole session back from the store text; the exact inverse of
    /// `to_file_string`, with a fatal error for any required field that
    /// does not parse.
    pub fn from_file_string(s: &str) -> (r: Result<Context, ParseError>)
        ensures
            r matches Ok(c) ==> parse_context_file(s@) == Ok::<ContextView, ParseError>(c@),
            r matches Err(e) ==> parse_context_file(s@) == Err::<ContextView, ParseError>(e),
    {
        let lines = split_str(s, '\n');
        proof {
            assert(views_of(lines@)[0] == lines@[0]@);
            assert(views_of(lines@).drop_first() =~= views_of(lines@).skip(1));
        }
        let mut header = match Context::from_csv_line(lines[0].as_str()) {
            Ok(c) => c,
            Err(e) => {
                return Err(e);
            },
        };
        match parse_task_vec(&lines, 1) {
            Err(e) => Err(e),
            Ok(tasks) => {
                let ghost hv = header@;
                header.tasks = tasks;
                proof {
                    assert(header@ =~= (ContextView { tasks: task_views(header.tasks@), ..hv }));
                }
                Ok(header)
            },
        }
    }
}

} // verus!
