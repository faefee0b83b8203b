//! A task: one trackable unit of work, with an opaque generated id, progress
//! counters and lifecycle timestamps, and its line in the durable store.

use vstd::prelude::*;
use crate::digits::{dec_digits, is_digit, parse_u16_spec, parse_u16, u64_to_dec};
use crate::digits::{lemma_dec_digits_are_digits, lemma_dec_val_of_digits};
use crate::errors::ParseError;
use crate::text::{free_of, is_prefix_of, join_strings, split_on, split_str, views_of};
use crate::text::{lemma_join_free, lemma_split_join, push_char};
use crate::time::{date_field, format_timestamp, parse_maybe_local_date, MAX_TIMESTAMP_MS};

verus! {

/// One trackable unit of work.
pub struct Task {
    /// Main description for the task.
    pub description: String,
    /// Generated identifier, unique for the task's lifetime; canonical
    /// hyphenated text form, the basis of prefix matching.
    pub uuid: String,
    /// Number of completed pomodori spent on the task.
    pub pomodori_count: u16,
    /// Number of pomodori the user estimates the task needs.
    pub pomodori_estimate: u16,
    /// Is a pomodoro currently running against the task?
    pub is_ongoing: bool,
    /// Free-text annotation.
    pub comment: String,
    /// A general idea of what kind of activity the task is.
    pub kind: Option<String>,
    /// When (and if) the task was first started.
    pub start_date: Option<i64>,
    /// When (and if) the task was finished.
    pub end_date: Option<i64>,
}

/// The mathematical model of a task.
#[verifier::ext_equal]
pub ghost struct TaskView {
    pub description: Seq<char>,
    pub uuid: Seq<char>,
    pub pomodori_count: u16,
    pub pomodori_estimate: u16,
    pub is_ongoing: bool,
    pub comment: Seq<char>,
    pub kind: Option<Seq<char>>,
    pub start_date: Option<i64>,
    pub end_date: Option<i64>,
}

impl View for Task {
    type V = TaskView;

    open spec fn view(&self) -> TaskView {
        TaskView {
            description: self.description@,
            uuid: self.uuid@,
            pomodori_count: self.pomodori_count,
            pomodori_estimate: self.pomodori_estimate,
            is_ongoing: self.is_ongoing,
            comment: self.comment@,
            kind: match self.kind {
                Some(k) => Some(k@),
                None => None,
            },
            start_date: self.start_date,
            end_date: self.end_date,
        }
    }
}

/// A position that holds a hyphen in the canonical id form.
pub open spec fn uuid_hyphen_pos(i: int) -> bool {
    i == 8 || i == 13 || i == 18 || i == 23
}

pub open spec fn is_lower_hex(c: char) -> bool {
    (48 <= c as int && c as int <= 57) || (97 <= c as int && c as int <= 102)
}

/// The canonical text form of a generated id: 36 characters, lowercase hex
/// digits with hyphens at the four fixed positions.
pub open spec fn is_uuid_text(s: Seq<char>) -> bool {
    s.len() == 36 && forall|i: int|
        0 <= i < 36 ==> if uuid_hyphen_pos(i) {
            #[trigger] s[i] == '-'
        } else {
            is_lower_hex(s[i])
        }
}

/// An id never holds a delimiter of the store's format.
pub proof fn lemma_uuid_text_field(s: Seq<char>)
    requires
        is_uuid_text(s),
    ensures
        free_of(s, ';'),
        free_of(s, '\n'),
        s.len() > 0,
{
    assert forall|i: int| 0 <= i < s.len() implies s[i] != ';' && s[i] != '\n' by {
        if !uuid_hyphen_pos(i) {
            assert(is_lower_hex(s[i]));
        }
    }
}

/// Relies on uuid's `Uuid::new_v4().to_string()`: a fresh random id in the
/// canonical hyphenated form, 36 ASCII characters, lowercase hex with
/// hyphens at positions 8, 13, 18 and 23. Nothing more is promised of a
/// random value.
#[verifier::external_body]
fn fresh_uuid_text() -> (r: String)
    ensures
        is_uuid_text(r@),
{
    uuid::Uuid::new_v4().to_string()
}

/// Checks the canonical id form; mirrors `is_uuid_text`.
pub fn check_uuid_text(s: &str) -> (r: bool)
    ensures
        r == is_uuid_text(s@),
{
    let n = s.unicode_len();
    if n != 36 {
        return false;
    }
    let mut i: usize = 0;
    while i < 36
        invariant
            0 <= i <= 36,
            s@.len() == 36,
            forall|j: int|
                0 <= j < i ==> if uuid_hyphen_pos(j) {
                    #[trigger] s@[j] == '-'
                } else {
                    is_lower_hex(s@[j])
                },
        decreases 36 - i,
    {
        let c = s.get_char(i);
        if i == 8 || i == 13 || i == 18 || i == 23 {
            if c != '-' {
                return false;
            }
        } else {
            let u = c as u32;
            if !((48 <= u && u <= 57) || (97 <= u && u <= 102)) {
                return false;
            }
        }
        i += 1;
    }
    true
}

impl Task {
    /// A fresh task: new unique id, zeroed counters, no timestamps.
    pub fn new(desc: &str, estimate: u16, kind: Option<String>) -> (t: Task)
        ensures
            t@.description == desc@,
            is_uuid_text(t@.uuid),
            t@.pomodori_count == 0,
            t@.pomodori_estimate == estimate,
            !t@.is_ongoing,
            t@.comment == Seq::<char>::empty(),
            t@.kind == match kind {
                Some(k) => Some(k@),
                None => None::<Seq<char>>,
            },
            t@.start_date is None,
            t@.end_date is None,
    {
        Task {
            description: desc.to_owned(),
            uuid: fresh_uuid_text(),
            pomodori_count: 0,
            pomodori_estimate: estimate,
            is_ongoing: false,
            comment: String::new(),
            kind,
            start_date: None,
            end_date: None,
        }
    }

    /// Begin a work interval: the task becomes ongoing; the start timestamp
    /// is set on the first start only and never overwritten.
    pub fn start(&mut self, now: i64)
        ensures
            final(self)@ == (TaskView {
                is_ongoing: true,
                start_date: if old(self)@.start_date is None {
                    Some(now)
                } else {
                    old(self)@.start_date
                },
                ..old(self)@
            }),
    {
        if self.start_date.is_none() {
            self.start_date = Some(now);
        }
        self.is_ongoing = true;
    }

    /// Complete a work interval: exactly one more pomodoro done, no longer
    /// ongoing.
    pub fn do_one_pomodoro(&mut self)
        requires
            old(self)@.pomodori_count < u16::MAX,
        ensures
            final(self)@ == (TaskView {
                pomodori_count: (old(self)@.pomodori_count + 1) as u16,
                is_ongoing: false,
                ..old(self)@
            }),
    {
        self.pomodori_count += 1;
        self.is_ongoing = false;
    }

    /// Mark the task done at `now`; a second call overwrites the timestamp.
    pub fn finish(&mut self, now: i64)
        ensures
            final(self)@ == (TaskView { end_date: Some(now), ..old(self)@ }),
    {
        self.end_date = Some(now);
    }

    /// The task answers to `identifier` when its id starts with it.
    pub fn can_be_identified_by(&self, identifier: &str) -> (r: bool)
        ensures
            r == is_prefix_of(identifier@, self@.uuid),
    {
        let n = identifier.unicode_len();
        let m = self.uuid.as_str().unicode_len();
        if n > m {
            return false;
        }
        let mut i: usize = 0;
        while i < n
            invariant
                0 <= i <= n,
                n == identifier@.len(),
                n <= self.uuid@.len(),
                forall|j: int| 0 <= j < i ==> identifier@[j] == self.uuid@[j],
            decreases n - i,
        {
            if identifier.get_char(i) != self.uuid.as_str().get_char(i) {
                proof {
                    assert(self@.uuid.subrange(0, n as int)[i as int] != identifier@[i as int]);
                }
                return false;
            }
            i += 1;
        }
        proof {
            assert(self@.uuid.subrange(0, n as int) =~= identifier@);
        }
        true
    }

    pub fn is_finished(&self) -> (r: bool)
        ensures
            r == (self@.end_date is Some),
    {
        self.end_date.is_some()
    }
}

/// A free-text field the store can hold: it must not contain the field or
/// line delimiter.
pub open spec fn text_field_ok(s: Seq<char>) -> bool {
    free_of(s, ';') && free_of(s, '\n')
}

/// What a boolean field holds: exactly the text `true` stands for true,
/// anything else for false.
pub open spec fn bool_field(s: Seq<char>) -> bool {
    s == "true"@
}

impl TaskView {
    /// The task can be written to the store and read back unchanged: free
    /// text avoids the delimiters, the kind is never the empty text, and
    /// timestamps are in the range the store renders.
    pub open spec fn encodable(self) -> bool {
        &&& text_field_ok(self.description)
        &&& is_uuid_text(self.uuid)
        &&& text_field_ok(self.comment)
        &&& (self.kind matches Some(k) ==> k.len() > 0 && text_field_ok(k))
        &&& (self.start_date matches Some(t) ==> 0 <= t <= MAX_TIMESTAMP_MS)
        &&& (self.end_date matches Some(t) ==> 0 <= t <= MAX_TIMESTAMP_MS)
    }
}

/// The task a line's fields describe, or the first fatal parse failure.
pub open spec fn parse_task_fields(fields: Seq<Seq<char>>) -> Result<TaskView, ParseError> {
    if fields.len() != 9 {
        Err(ParseError::MissingField)
    } else if !is_uuid_text(fields[1]) {
        Err(ParseError::BadUuid)
    } else {
        match (parse_u16_spec(fields[2]), parse_u16_spec(fields[3])) {
            (Some(count), Some(estimate)) => match (date_field(fields[7]), date_field(
                fields[8],
            )) {
                (Ok(sd), Ok(ed)) => Ok(
                    TaskView {
                        description: fields[0],
                        uuid: fields[1],
                        pomodori_count: count,
                        pomodori_estimate: estimate,
                        is_ongoing: bool_field(fields[5]),
                        comment: fields[4],
                        kind: if fields[6].len() == 0 {
                            None
                        } else {
                            Some(fields[6])
                        },
                        start_date: sd,
                        end_date: ed,
                    },
                ),
                _ => Err(ParseError::BadDate),
            },
            _ => Err(ParseError::BadNumber),
        }
    }
}

/// The task one store line describes; fields are separated by `;`.
pub open spec fn parse_task_line(line: Seq<char>) -> Result<TaskView, ParseError> {
    parse_task_fields(split_on(line, ';'))
}

/// The text of a boolean field.
pub(crate) fn bool_string(b: bool) -> (r: String)
    ensures
        bool_field(r@) == b,
        b ==> r@ == "true"@,
        !b ==> r@ == "false"@,
        text_field_ok(r@),
{
    proof {
        reveal_strlit("true");
        reveal_strlit("false");
    }
    if b {
        let r = "true".to_owned();
        proof {
            assert(r@ == "true"@);
            assert(bool_field(r@));
        }
        r
    } else {
        let r = "false".to_owned();
        proof {
            assert(r@ == "false"@);
            assert("false"@.len() == 5);
            assert("true"@.len() == 4);
            assert(!bool_field(r@));
        }
        r
    }
}

/// The text of an optional date field: empty when absent.
pub(crate) fn opt_date_string(d: &Option<i64>) -> (r: String)
    requires
        d matches Some(t) ==> 0 <= *t <= MAX_TIMESTAMP_MS,
    ensures
        date_field(r@) == Ok::<Option<i64>, ParseError>(*d),
        text_field_ok(r@),
{
    match d {
        None => String::new(),
        Some(t) => format_timestamp(*t),
    }
}

/// The rendering of a counter field never holds a delimiter.
pub(crate) proof fn lemma_dec_field_ok(n: nat)
    ensures
        text_field_ok(dec_digits(n)),
        parse_u16_spec(dec_digits(n)) == Some(n as u16) <== n <= u16::MAX,
{
    lemma_dec_digits_are_digits(n);
    lemma_dec_val_of_digits(n);
    assert forall|i: int| 0 <= i < dec_digits(n).len() implies dec_digits(n)[i] != ';'
        && dec_digits(n)[i] != '\n' by {
        assert(is_digit(dec_digits(n)[i]));
    }
}

impl Task {
    /// The task's store line without its terminating line break.
    pub(crate) fn task_line_body(&self) -> (r: String)
        requires
            self@.encodable(),
        ensures
            parse_task_line(r@) == Ok::<TaskView, ParseError>(self@),
            free_of(r@, '\n'),
            r@.len() > 0,
    {
        let mut fields: Vec<String> = Vec::new();
        fields.push(self.description.clone());
        fields.push(self.uuid.clone());
        fields.push(u64_to_dec(self.pomodori_count as u64));
        fields.push(u64_to_dec(self.pomodori_estimate as u64));
        fields.push(self.comment.clone());
        fields.push(bool_string(self.is_ongoing));
        fields.push(
            match &self.kind {
                Some(k) => k.clone(),
                None => String::new(),
            },
        );
        fields.push(opt_date_string(&self.start_date));
        fields.push(opt_date_string(&self.end_date));
        let r = join_strings(&fields, ';');
        proof {
            let fv = views_of(fields@);
            lemma_uuid_text_field(self@.uuid);
            lemma_dec_field_ok(self@.pomodori_count as nat);
            lemma_dec_field_ok(self@.pomodori_estimate as nat);
            assert forall|i: int| 0 <= i < fv.len() implies free_of(#[trigger] fv[i], ';')
                && free_of(fv[i], '\n') by {
                assert(text_field_ok(fv[i]));
            }
            lemma_split_join(fv, ';');
            lemma_join_free(fv, ';', '\n');
            let parsed = parse_task_fields(fv);
            assert(bool_field(fv[5]) == self@.is_ongoing);
            assert(parsed matches Ok(v) && v =~= self@);
        }
        r
    }

    /// One line of the store holding every field of the task, in the fixed
    /// order, terminated by a line break. Reading the line back yields the
    /// same task: the codec's round-trip law.
    pub fn to_csv(&self) -> (r: String)
        requires
            self@.encodable(),
        ensures
            r@.len() > 1,
            r@.last() == '\n',
            free_of(r@.drop_last(), '\n'),
            r@.drop_last().len() > 0,
            parse_task_line(r@.drop_last()) == Ok::<TaskView, ParseError>(self@),
    {
        let mut r = self.task_line_body();
        let ghost body = r@;
        push_char(&mut r, '\n');
        proof {
            assert(r@.drop_last() =~= body);
        }
        r
    }

    /// Reads a task from one store line (without its line break); the exact
    /// inverse of the encoding, with a fatal error for any required field
    /// that does not parse.
    pub fn from_csv(line: &str) -> (r: Result<Task, ParseError>)
        ensures
            r matches Ok(t) ==> parse_task_line(line@) == Ok::<TaskView, ParseError>(t@),
            r matches Err(e) ==> parse_task_line(line@) == Err::<TaskView, ParseError>(e),
    {
        let fields = split_str(line, ';');
        proof {
            assert(views_of(fields@) == split_on(line@, ';'));
        }
        if fields.len() != 9 {
            return Err(ParseError::MissingField);
        }
        if !check_uuid_text(fields[1].as_str()) {
            return Err(ParseError::BadUuid);
        }
        let pomodori_count = match parse_u16(fields[2].as_str()) {
            Some(c) => c,
            None => {
                return Err(ParseError::BadNumber);
            },
        };
        let pomodori_estimate = match parse_u16(fields[3].as_str()) {
            Some(c) => c,
            None => {
                return Err(ParseError::BadNumber);
            },
        };
        let is_ongoing = crate::text::str_eq(fields[5].as_str(), "true");
        let kind = crate::utils::parse_maybe_string(fields[6].as_str());
        let start_date = match parse_maybe_local_date(fields[7].as_str()) {
            Ok(d) => d,
            Err(e) => {
                return Err(e);
            },
        };
        let end_date = match parse_maybe_local_date(fields[8].as_str()) {
            Ok(d) => d,
            Err(e) => {
                return Err(e);
            },
        };
        let t = Task {
            description: fields[0].clone(),
            uuid: fields[1].clone(),
            pomodori_count,
            pomodori_estimate,
            is_ongoing,
            comment: fields[4].clone(),
            kind,
            start_date,
            end_date,
        };
        proof {
            let fv = views_of(fields@);
            assert(parse_task_fields(fv) matches Ok(v) && v =~= t@);
        }
        Ok(t)
    }
}

/// `s` padded on the right with `fill` up to `width`; longer text is kept
/// whole.
pub open spec fn pad_right(s: Seq<char>, width: int, fill: char) -> Seq<char> {
    if s.len() >= width {
        s
    } else {
        s + Seq::new((width - s.len()) as nat, |i: int| fill)
    }
}

fn pad_right_str(s: &str, width: usize, fill: char) -> (r: String)
    ensures
        r@ == pad_right(s@, width as int, fill),
{
    let mut r = s.to_owned();
    let n = s.unicode_len();
    if n >= width {
        proof {
            assert(r@ == pad_right(s@, width as int, fill));
        }
        return r;
    }
    let mut i = n;
    while i < width
        invariant
            n <= i <= width,
            n == s@.len(),
            r@ == s@ + Seq::new((i - n) as nat, |k: int| fill),
        decreases width - i,
    {
        push_char(&mut r, fill);
        proof {
            assert((s@ + Seq::new((i - n) as nat, |k: int| fill)).push(fill) =~= s@ + Seq::new(
                (i + 1 - n) as nat,
                |k: int| fill,
            ));
        }
        i += 1;
    }
    r
}

/// The marker in front of a listed task: ongoing, finished, or open.
pub open spec fn list_sign(t: TaskView) -> char {
    if t.is_ongoing {
        '!'
    } else if t.end_date is Some {
        '-'
    } else {
        '+'
    }
}

/// One human-readable listing line: marker, id padded to a fixed column,
/// description padded with dots, then done and estimated counts.
pub open spec fn list_line(t: TaskView) -> Seq<char> {
    seq![list_sign(t)] + seq![' '] + pad_right(t.uuid, 38, ' ') + seq![' '] + pad_right(
        t.description,
        80,
        '.',
    ) + seq![' '] + dec_digits(t.pomodori_count as nat) + " / "@ + dec_digits(
        t.pomodori_estimate as nat,
    )
}

impl Task {
    /// Renders the task for the listing; mirrors `list_line`.
    pub fn to_list_line(&self) -> (r: String)
        ensures
            r@ == list_line(self@),
    {
        let mut r = String::new();
        let sign: char = if self.is_ongoing {
            '!'
        } else if self.end_date.is_some() {
            '-'
        } else {
            '+'
        };
        push_char(&mut r, sign);
        push_char(&mut r, ' ');
        let u = pad_right_str(self.uuid.as_str(), 38, ' ');
        r.append(u.as_str());
        push_char(&mut r, ' ');
        let d = pad_right_str(self.description.as_str(), 80, '.');
        r.append(d.as_str());
        push_char(&mut r, ' ');
        let c = u64_to_dec(self.pomodori_count as u64);
        r.append(c.as_str());
        r.append(" / ");
        let e = u64_to_dec(self.pomodori_estimate as u64);
        r.append(e.as_str());
        proof {
            assert(r@ =~= list_line(self@));
        }
        r
    }
}

} // verus!
