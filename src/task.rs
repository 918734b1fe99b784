use vstd::prelude::*;

use crate::error::AppError;
use crate::text::str_eq;

verus! {

/// How far ahead a task lies; ordered `ShortTerm < MidTerm < LongTerm`.
#[derive(Debug, Clone, Copy, PartialEq, Eq, Structural, PartialOrd, Ord, Hash)]
pub enum TimeHorizon {
    ShortTerm,
    MidTerm,
    LongTerm,
}

/// How urgent a task is; ordered `Low < Medium < High`.
#[derive(Debug, Clone, Copy, PartialEq, Eq, Structural, PartialOrd, Ord, Hash)]
pub enum Priority {
    Low,
    Medium,
    High,
}

/// The position of a horizon in its total order.
pub open spec fn horizon_rank(h: TimeHorizon) -> nat {
    match h {
        TimeHorizon::ShortTerm => 0,
        TimeHorizon::MidTerm => 1,
        TimeHorizon::LongTerm => 2,
    }
}

/// The position of a priority in its total order.
pub open spec fn priority_rank(p: Priority) -> nat {
    match p {
        Priority::Low => 0,
        Priority::Medium => 1,
        Priority::High => 2,
    }
}

/// The horizon that a lower-cased word names, if any.
pub open spec fn horizon_word(w: Seq<char>) -> Option<TimeHorizon> {
    if w == "short"@ || w == "shortterm"@ || w == "short-term"@ {
        Some(TimeHorizon::ShortTerm)
    } else if w == "mid"@ || w == "midterm"@ || w == "mid-term"@ {
        Some(TimeHorizon::MidTerm)
    } else if w == "long"@ || w == "longterm"@ || w == "long-term"@ {
        Some(TimeHorizon::LongTerm)
    } else {
        None
    }
}

/// The priority that a lower-cased word names, if any.
pub open spec fn priority_word(w: Seq<char>) -> Option<Priority> {
    if w == "low"@ || w == "l"@ {
        Some(Priority::Low)
    } else if w == "medium"@ || w == "med"@ || w == "m"@ {
        Some(Priority::Medium)
    } else if w == "high"@ || w == "hi"@ || w == "h"@ {
        Some(Priority::High)
    } else {
        None
    }
}

/// What lower-casing makes of a text.
pub uninterp spec fn lower_of(s: Seq<char>) -> Seq<char>;

/// Relies on `str::to_lowercase`: the result is the lower-case mapping of the
/// characters of `s`, which depends on those characters alone.
#[verifier::external_body]
fn lowercase(s: &str) -> (r: String)
    ensures
        r@ == lower_of(s@),
{
    s.to_lowercase()
}

impl TimeHorizon {
    /// The position of this horizon in its total order.
    pub fn rank(&self) -> (r: u8)
        ensures
            r as nat == horizon_rank(*self),
    {
        match self {
            TimeHorizon::ShortTerm => 0,
            TimeHorizon::MidTerm => 1,
            TimeHorizon::LongTerm => 2,
        }
    }

    /// Reads a horizon from a word that is already lower-cased; `raw` is
    /// the text as the user gave it, which an error names.
    pub fn from_lowercase(lowered: &str, raw: &str) -> (r: Result<TimeHorizon, AppError>)
        ensures
            horizon_word(lowered@) is Some ==> r == Ok::<TimeHorizon, AppError>(
                horizon_word(lowered@)->0,
            ),
            horizon_word(lowered@) is None ==> (r matches Err(AppError::InvalidTimeHorizon(m))
                && m@ == raw@),
    {
        if str_eq(lowered, "short") || str_eq(lowered, "shortterm") || str_eq(lowered, "short-term") {
            Ok(TimeHorizon::ShortTerm)
        } else if str_eq(lowered, "mid") || str_eq(lowered, "midterm") || str_eq(lowered, "mid-term") {
            Ok(TimeHorizon::MidTerm)
        } else if str_eq(lowered, "long") || str_eq(lowered, "longterm") || str_eq(lowered, "long-term") {
            Ok(TimeHorizon::LongTerm)
        } else {
            Err(AppError::InvalidTimeHorizon(raw.to_owned()))
        }
    }

    /// Reads a horizon from user text, ignoring case.
    pub fn parse(s: &str) -> (r: Result<TimeHorizon, AppError>)
        ensures
            horizon_word(lower_of(s@)) is Some ==> r == Ok::<TimeHorizon, AppError>(
                horizon_word(lower_of(s@))->0,
            ),
            horizon_word(lower_of(s@)) is None ==> (r matches Err(AppError::InvalidTimeHorizon(m))
                && m@ == s@),
    {
        let lowered = lowercase(s);
        TimeHorizon::from_lowercase(lowered.as_str(), s)
    }
}

impl Priority {
    /// The position of this priority in its total order.
    pub fn rank(&self) -> (r: u8)
        ensures
            r as nat == priority_rank(*self),
    {
        match self {
            Priority::Low => 0,
            Priority::Medium => 1,
            Priority::High => 2,
        }
    }

    /// Reads a priority from a word that is already lower-cased; `raw` is
    /// the text as the user gave it, which an error names.
    pub fn from_lowercase(lowered: &str, raw: &str) -> (r: Result<Priority, AppError>)
        ensures
            priority_word(lowered@) is Some ==> r == Ok::<Priority, AppError>(
                priority_word(lowered@)->0,
            ),
            priority_word(lowered@) is None ==> (r matches Err(AppError::InvalidPriority(m))
                && m@ == raw@),
    {
        if str_eq(lowered, "low") || str_eq(lowered, "l") {
            Ok(Priority::Low)
        } else if str_eq(lowered, "medium") || str_eq(lowered, "med") || str_eq(lowered, "m") {
            Ok(Priority::Medium)
        } else if str_eq(lowered, "high") || str_eq(lowered, "hi") || str_eq(lowered, "h") {
            Ok(Priority::High)
        } else {
            Err(AppError::InvalidPriority(raw.to_owned()))
        }
    }

    /// Reads a priority from user text, ignoring case.
    pub fn parse(s: &str) -> (r: Result<Priority, AppError>)
        ensures
            priority_word(lower_of(s@)) is Some ==> r == Ok::<Priority, AppError>(
                priority_word(lower_of(s@))->0,
            ),
            priority_word(lower_of(s@)) is None ==> (r matches Err(AppError::InvalidPriority(m))
                && m@ == s@),
    {
        let lowered = lowercase(s);
        Priority::from_lowercase(lowered.as_str(), s)
    }
}

impl core::str::FromStr for TimeHorizon {
    type Err = AppError;

    fn from_str(s: &str) -> Result<TimeHorizon, AppError> {
        TimeHorizon::parse(s)
    }
}

impl core::str::FromStr for Priority {
    type Err = AppError;

    fn from_str(s: &str) -> Result<Priority, AppError> {
        Priority::parse(s)
    }
}

/// A single to-do item.
#[derive(Debug, Clone)]
pub struct Task {
    /// Unique token, fixed at creation.
    pub id: String,
    pub description: String,
    pub time_horizon: TimeHorizon,
    pub priority: Priority,
    pub completed: bool,
    /// ISO-8601 UTC time of creation, fixed at creation.
    pub created_at: String,
}

/// `s` ends with the zero UTC offset "+00:00".
pub open spec fn is_utc_suffix(s: Seq<char>) -> bool {
    s.len() >= 6 && s.subrange(s.len() - 6, s.len() as int) == "+00:00"@
}

/// Relies on `uuid::Uuid::new_v4` and its `Display`: a random version-4 id
/// in hyphenated form, 36 characters long with hyphens at positions 8, 13,
/// 18 and 23.
#[verifier::external_body]
fn fresh_task_id() -> (r: String)
    ensures
        r@.len() == 36,
        r@[8] == '-',
        r@[13] == '-',
        r@[18] == '-',
        r@[23] == '-',
{
    uuid::Uuid::new_v4().to_string()
}

/// Relies on `chrono::Utc::now` and `DateTime::to_rfc3339`: the current UTC
/// time as an RFC 3339 text, which holds the date-time separator 'T' and
/// ends with the zero offset "+00:00".
#[verifier::external_body]
fn utc_now_rfc3339() -> (r: String)
    ensures
        r@.contains('T'),
        is_utc_suffix(r@),
{
    chrono::Utc::now().to_rfc3339()
}

impl Task {
    /// The task after it has been marked complete.
    pub open spec fn marked_complete(self) -> Task {
        Task { completed: true, ..self }
    }

    /// The task after an update with the given optional values.
    pub open spec fn updated(
        self,
        description: Option<String>,
        time_horizon: Option<TimeHorizon>,
        priority: Option<Priority>,
    ) -> Task {
        Task {
            description: match description {
                Some(d) => d,
                None => self.description,
            },
            time_horizon: match time_horizon {
                Some(h) => h,
                None => self.time_horizon,
            },
            priority: match priority {
                Some(p) => p,
                None => self.priority,
            },
            ..self
        }
    }

    /// A new, incomplete task with a fresh id and the current time.
    pub fn new(description: String, time_horizon: TimeHorizon, priority: Priority) -> (t: Task)
        ensures
            t.description == description,
            t.time_horizon == time_horizon,
            t.priority == priority,
            !t.completed,
            t.id@.len() == 36,
            t.id@[8] == '-' && t.id@[13] == '-' && t.id@[18] == '-' && t.id@[23] == '-',
            t.created_at@.contains('T'),
            is_utc_suffix(t.created_at@),
    {
        let id = fresh_task_id();
        let created_at = utc_now_rfc3339();
        Task { id, description, time_horizon, priority, completed: false, created_at }
    }

    /// Marks the task complete; marking it again changes nothing.
    pub fn mark_complete(&mut self)
        ensures
            *final(self) == old(self).marked_complete(),
    {
        self.completed = true;
    }

    /// Replaces each field for which a value is given; the id, the creation
    /// time and the completion state are never touched.
    pub fn update(
        &mut self,
        description: Option<String>,
        time_horizon: Option<TimeHorizon>,
        priority: Option<Priority>,
    )
        ensures
            *final(self) == old(self).updated(description, time_horizon, priority),
    {
        if let Some(d) = description {
            self.description = d;
        }
        if let Some(h) = time_horizon {
            self.time_horizon = h;
        }
        if let Some(p) = priority {
            self.priority = p;
        }
    }
}

/// A new task is incomplete, and marking a task complete twice leaves it as
/// marking it once does: complete, with every other field unchanged.
pub proof fn lemma_mark_complete_idempotent(t: Task)
    ensures
        t.marked_complete().completed,
        t.marked_complete().marked_complete() == t.marked_complete(),
        t.marked_complete().id == t.id,
        t.marked_complete().description == t.description,
        t.marked_complete().created_at == t.created_at,
{
}

/// An update that gives no value leaves every field of the task as it was.
pub proof fn lemma_update_nothing_is_identity(t: Task)
    ensures
        t.updated(None, None, None) == t,
{
}

} // verus!
