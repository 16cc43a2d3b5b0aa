//! Daily rotation of the output file: which file receives the spots, when a
//! new file is started, and which finished file is compressed.
//!
//! The writing itself is done by the caller; this module decides, from the
//! date of each write, what has to happen to the files.

use chrono::Datelike;
use vstd::prelude::*;

use crate::text::{
    chars_of, insert_before_extension, insert_before_extension_chars, push_char,
    push_signed_zero_padded, push_zero_padded, replace_all, replace_all_chars,
    signed_zero_padded, string_of, zero_padded, decimal_value, lemma_decimal_digits_len,
    lemma_zero_padded_value, pow10, is_ascii_digit, all_ascii_digits, lemma_replace_absent,
    lemma_replace_after_plain_prefix, last_index_before, lemma_last_index_before_is,
    lemma_last_index_before_bounds,
};

verus! {

#[verifier::external_type_specification]
#[verifier::external_body]
pub struct ExSystemTime(std::time::SystemTime);

/// A day of the (proleptic Gregorian) calendar, in UTC.
#[derive(Clone, Copy, PartialEq, Eq, Structural, Debug)]
pub struct CalendarDate {
    pub year: i32,
    pub month: u32,
    pub day: u32,
}

/// `a` is an earlier day than `b`.
pub open spec fn date_before(a: CalendarDate, b: CalendarDate) -> bool {
    a.year < b.year || (a.year == b.year && (a.month < b.month || (a.month == b.month && a.day
        < b.day)))
}

/// The date as it appears in a file name: `YYYYMMDD`, each part zero-filled.
pub open spec fn date_stamp(d: CalendarDate) -> Seq<char> {
    signed_zero_padded(d.year as int, 4) + zero_padded(d.month as nat, 2) + zero_padded(
        d.day as nat,
        2,
    )
}

/// The placeholder for the date in a configured file name.
pub open spec fn date_placeholder() -> Seq<char> {
    seq!['{', 'D', 'A', 'T', 'E', '}']
}

/// The file name for day `d`: the configured name with every `{DATE}`
/// replaced by the date stamp of `d` and, when `add_date` is set, the date
/// stamp also put directly in front of the extension (appended when there is
/// no extension).
pub open spec fn file_name_for(template: Seq<char>, add_date: bool, d: CalendarDate) -> Seq<char> {
    let base = replace_all(template, date_placeholder(), date_stamp(d));
    if add_date {
        insert_before_extension(base, date_stamp(d))
    } else {
        base
    }
}

/// The name of the compressed copy of file `name`.
pub open spec fn compressed_name(name: Seq<char>) -> Seq<char> {
    name + seq!['.', 'g', 'z']
}

/// The UTC date of the instant `secs` seconds after the Unix epoch, as
/// `chrono::DateTime::from_timestamp` computes it (`None` out of its range).
pub uninterp spec fn utc_date_of_timestamp(secs: i64) -> Option<CalendarDate>;

/// What the rotation logic knows of the output file.
pub struct RotationState {
    /// The configured file name.
    pub template: Seq<char>,
    /// The file currently written to.
    pub current: Option<Seq<char>>,
    /// The day of the last write (or of the creation).
    pub last_write: CalendarDate,
    /// Daily rotation enabled.
    pub rotate: bool,
    /// The date is added in front of the file name's extension.
    pub add_date: bool,
    /// Compression of rotated files enabled.
    pub compress: bool,
}

/// The steps of a rotation, in the order they are carried out: flush and
/// close the current file, compress it in the background (source, target),
/// and open the new file for appending.
pub struct RotationPlan {
    pub flush_previous: bool,
    pub compress: Option<(String, String)>,
    pub open: String,
}

/// What is written for one write request: the rotation to carry out first,
/// if any, and the line to append.
pub struct WritePlan {
    pub rotation: Option<RotationPlan>,
    pub line: String,
}

impl View for RotationPlan {
    type V = (bool, Option<(Seq<char>, Seq<char>)>, Seq<char>);

    open spec fn view(&self) -> (bool, Option<(Seq<char>, Seq<char>)>, Seq<char>) {
        (
            self.flush_previous,
            match self.compress {
                Some((a, b)) => Some((a@, b@)),
                None => None,
            },
            self.open@,
        )
    }
}

/// The rotation that state `s` carries out for day `d`. A file is compressed
/// only when it is rotated out: compression is enabled, a file is open, and
/// the new file has another name.
pub open spec fn rotation_plan(s: RotationState, d: CalendarDate) -> (
    bool,
    Option<(Seq<char>, Seq<char>)>,
    Seq<char>,
) {
    let next = file_name_for(s.template, s.add_date, d);
    (
        s.current is Some,
        if s.compress && s.current is Some && s.current.unwrap() != next {
            Some((s.current.unwrap(), compressed_name(s.current.unwrap())))
        } else {
            None
        },
        next,
    )
}

/// The state after a rotation for day `d`.
pub open spec fn rotated(s: RotationState, d: CalendarDate) -> RotationState {
    RotationState { current: Some(file_name_for(s.template, s.add_date, d)), ..s }
}

/// A write on day `today` first rotates the file: rotation is enabled and
/// the day has changed since the last write.
pub open spec fn needs_rotation(s: RotationState, today: CalendarDate) -> bool {
    s.rotate && date_before(s.last_write, today)
}

/// The state after a write on day `today`.
pub open spec fn after_write(s: RotationState, today: CalendarDate) -> RotationState {
    let r = if needs_rotation(s, today) {
        rotated(s, today)
    } else {
        s
    };
    RotationState { last_write: today, ..r }
}

/// The state after writes on the days `days`, in order.
pub open spec fn after_writes(s: RotationState, days: Seq<CalendarDate>) -> RotationState
    decreases days.len(),
{
    if days.len() == 0 {
        s
    } else {
        after_writes(after_write(s, days[0]), days.skip(1))
    }
}

/// The days never go backwards.
pub open spec fn days_in_order(days: Seq<CalendarDate>) -> bool {
    forall|i: int, j: int| 0 <= i < j < days.len() ==> !date_before(days[j], days[i])
}

/// The state right after creation on day `today`.
pub open spec fn initial_state(
    template: Seq<char>,
    rotate: bool,
    add_date: bool,
    compress: bool,
    today: CalendarDate,
) -> RotationState {
    RotationState {
        template,
        current: Some(file_name_for(template, add_date, today)),
        last_write: today,
        rotate,
        add_date,
        compress,
    }
}

/// Rotation decisions for a file written with a date in its name.
pub struct FileRotation {
    config_filename: String,
    current_filename: Option<String>,
    last_modification: CalendarDate,
    rotate: bool,
    add_date: bool,
    compress: bool,
}

impl View for FileRotation {
    type V = RotationState;

    closed spec fn view(&self) -> RotationState {
        RotationState {
            template: self.config_filename@,
            current: match self.current_filename {
                Some(f) => Some(f@),
                None => None,
            },
            last_write: self.last_modification,
            rotate: self.rotate,
            add_date: self.add_date,
            compress: self.compress,
        }
    }
}

/// The current time, read from the system clock.
///
/// Trusted: calls `std::time::SystemTime::now`. The result depends on the
/// clock, so the contract states nothing of it.
#[verifier::external_body]
fn system_time_now() -> std::time::SystemTime {
    std::time::SystemTime::now()
}

/// Whole seconds from the Unix epoch to `t`, or `None` when `t` lies before
/// the epoch.
///
/// Trusted: calls `SystemTime::duration_since(UNIX_EPOCH)`, which std
/// documents to fail exactly for a time before the epoch, and takes the whole
/// seconds (`Duration::as_secs`) of the result. `t` is opaque here, so the
/// contract states nothing of the result.
#[verifier::external_body]
fn seconds_since_epoch(t: &std::time::SystemTime) -> Option<u64> {
    t.duration_since(std::time::UNIX_EPOCH).ok().map(|d| d.as_secs())
}

/// The UTC date of the instant `secs` seconds after the Unix epoch.
///
/// Trusted: calls `chrono::DateTime::from_timestamp(secs, 0)`, which returns
/// `None` out of chrono's date range, and takes the `year`, `month` and `day`
/// of the result; chrono documents a month from 1 to 12 and a day from 1 to 31.
#[verifier::external_body]
fn date_of_timestamp(secs: i64) -> (r: Option<CalendarDate>)
    ensures
        r == utc_date_of_timestamp(secs),
        r matches Some(d) ==> 1 <= d.month <= 12 && 1 <= d.day <= 31,
{
    chrono::DateTime::from_timestamp(secs, 0).map(
        |t| CalendarDate { year: t.year(), month: t.month(), day: t.day() },
    )
}

/// The UTC date of the instant `secs` seconds after the Unix epoch, or
/// `None` when that instant is beyond what a date can hold.
pub fn date_of_unix_seconds(secs: u64) -> (r: Option<CalendarDate>)
    ensures
        r == date_of_unix_seconds_spec(secs),
        r matches Some(d) ==> 1 <= d.month <= 12 && 1 <= d.day <= 31,
{
    if secs <= 9_223_372_036_854_775_807u64 {
        let s: i64 = secs as i64;
        date_of_timestamp(s)
    } else {
        None
    }
}

/// Today's date in UTC by the system clock: the whole seconds the clock
/// reads since the Unix epoch (`None` when it reads a time before the epoch),
/// and the date of exactly those seconds.
pub fn today_utc() -> (r: (Option<u64>, Option<CalendarDate>))
    ensures
        r.1 == match r.0 {
            Some(secs) => date_of_unix_seconds_spec(secs),
            None => None,
        },
        r.1 matches Some(d) ==> 1 <= d.month <= 12 && 1 <= d.day <= 31,
{
    let now = system_time_now();
    let reading = seconds_since_epoch(&now);
    match reading {
        None => (reading, None),
        Some(secs) => (reading, date_of_unix_seconds(secs)),
    }
}

/// What `date_of_unix_seconds` gives for `secs`.
pub open spec fn date_of_unix_seconds_spec(secs: u64) -> Option<CalendarDate> {
    if secs <= 9_223_372_036_854_775_807u64 {
        utc_date_of_timestamp(secs as i64)
    } else {
        None
    }
}

/// Whether day `a` comes before day `b`.
pub fn is_before(a: &CalendarDate, b: &CalendarDate) -> (r: bool)
    ensures
        r == date_before(*a, *b),
{
    a.year < b.year || (a.year == b.year && (a.month < b.month || (a.month == b.month && a.day
        < b.day)))
}

/// The date stamp `YYYYMMDD` of day `d`.
pub fn format_date(d: &CalendarDate) -> (r: Vec<char>)
    ensures
        r@ == date_stamp(*d),
{
    let mut out: Vec<char> = Vec::new();
    push_signed_zero_padded(&mut out, d.year, 4);
    push_zero_padded(&mut out, d.month, 2);
    push_zero_padded(&mut out, d.day, 2);
    assert(out@ =~= date_stamp(*d));
    out
}

/// The file name for day `d` from the configured name `template`, with the
/// date also put in front of the extension when `add_date` is set.
pub fn file_name(template: &String, add_date: bool, d: &CalendarDate) -> (r: String)
    ensures
        r@ == file_name_for(template@, add_date, *d),
{
    let chars = chars_of(template.as_str());
    let placeholder: Vec<char> = vec!['{', 'D', 'A', 'T', 'E', '}'];
    let stamp = format_date(d);
    let replaced = replace_all_chars(&chars, &placeholder, &stamp);
    if add_date {
        let dated = insert_before_extension_chars(&replaced, &stamp);
        string_of(&dated)
    } else {
        string_of(&replaced)
    }
}

/// The name of the compressed copy of file `name`.
pub fn compressed_file_name(name: &String) -> (r: String)
    ensures
        r@ == compressed_name(name@),
{
    let mut out = name.clone();
    push_char(&mut out, '.');
    push_char(&mut out, 'g');
    push_char(&mut out, 'z');
    assert(out@ =~= compressed_name(name@));
    out
}

impl FileRotation {
    /// Starts writing to file `fname` on day `today`, with daily rotation,
    /// the date in front of the extension, and compression of rotated files
    /// as given; returns the rotation logic and the opening of the first file.
    pub fn new(
        fname: String,
        rotate: bool,
        add_date: bool,
        compress: bool,
        today: CalendarDate,
    ) -> (r: (Self, RotationPlan))
        ensures
            r.0@ == initial_state(fname@, rotate, add_date, compress, today),
            r.1@ == (false, None::<(Seq<char>, Seq<char>)>, file_name_for(fname@, add_date, today)),
    {
        let mut rotation = FileRotation {
            config_filename: fname,
            current_filename: None,
            last_modification: today,
            rotate,
            add_date,
            compress,
        };
        let plan = rotation.rotate(today);
        (rotation, plan)
    }

    /// Closes the current file (if any), compresses it if enabled and it is
    /// rotated out, and switches to the file for day `date`.
    fn rotate(&mut self, date: CalendarDate) -> (r: RotationPlan)
        ensures
            final(self)@ == rotated(old(self)@, date),
            r@ == rotation_plan(old(self)@, date),
    {
        let fname = file_name(&self.config_filename, self.add_date, &date);
        let flush_previous = self.current_filename.is_some();
        let compress = match &self.current_filename {
            Some(current) => {
                if self.compress && *current != fname {
                    Some((current.clone(), compressed_file_name(current)))
                } else {
                    None
                }
            },
            None => None,
        };
        self.current_filename = Some(fname.clone());
        RotationPlan { flush_previous, compress, open: fname }
    }

    /// Prepares the write of `data` on day `today`: rotates the file first if
    /// rotation is enabled and the day has changed since the last write, and
    /// gives the line to append (`data` and a line break).
    pub fn write(&mut self, today: CalendarDate, data: &str) -> (r: WritePlan)
        ensures
            final(self)@ == after_write(old(self)@, today),
            r.rotation is Some <==> needs_rotation(old(self)@, today),
            r.rotation matches Some(p) ==> p@ == rotation_plan(old(self)@, today),
            r.line@ == data@.push('\n'),
    {
        let rotation = if is_before(&self.last_modification, &today) && self.rotate {
            Some(self.rotate(today))
        } else {
            None
        };
        let mut line = string_of(&chars_of(data));
        push_char(&mut line, '\n');
        self.last_modification = today;
        WritePlan { rotation, line }
    }

    /// Starts writing to file `fname` today by the system clock; returns the
    /// rotation logic, the opening of the first file, and the date used, or
    /// `None` when the clock gives no date.
    pub fn new_today(fname: String, rotate: bool, add_date: bool, compress: bool) -> (r: Option<
        (Self, RotationPlan, CalendarDate),
    >)
        ensures
            r matches Some((w, p, d)) ==> w@ == initial_state(fname@, rotate, add_date, compress, d)
                && p@ == (false, None::<(Seq<char>, Seq<char>)>, file_name_for(fname@, add_date, d))
                && 1 <= d.month <= 12 && 1 <= d.day <= 31 && exists|secs: u64|
                #[trigger] date_of_unix_seconds_spec(secs) == Some(d),
    {
        match today_utc().1 {
            Some(today) => {
                let (rotation, plan) = FileRotation::new(fname, rotate, add_date, compress, today);
                Some((rotation, plan, today))
            },
            None => None,
        }
    }

    /// Prepares the write of `data` today by the system clock; returns the
    /// plan and the date used, or `None` (changing nothing) when the clock
    /// gives no date.
    pub fn write_now(&mut self, data: &str) -> (r: Option<(WritePlan, CalendarDate)>)
        ensures
            r is None ==> final(self)@ == old(self)@,
            r matches Some((w, d)) ==> final(self)@ == after_write(old(self)@, d) && (w.rotation is Some
                <==> needs_rotation(old(self)@, d)) && (w.rotation matches Some(p) ==> p@
                == rotation_plan(old(self)@, d)) && w.line@ == data@.push('\n') && 1 <= d.month
                <= 12 && 1 <= d.day <= 31 && exists|secs: u64|
                #[trigger] date_of_unix_seconds_spec(secs) == Some(d),
    {
        match today_utc().1 {
            Some(today) => {
                let plan = self.write(today, data);
                Some((plan, today))
            },
            None => None,
        }
    }

    /// The file currently written to.
    pub fn current_file(&self) -> (r: Option<String>)
        ensures
            r.deep_view() == self@.current,
    {
        match &self.current_filename {
            Some(f) => Some(f.clone()),
            None => None,
        }
    }
}

/// A second write on the same day never rotates the file again.
pub proof fn lemma_one_rotation_per_day(s: RotationState, today: CalendarDate)
    ensures
        !needs_rotation(after_write(s, today), today),
{
}

/// Without daily rotation the file never changes.
pub proof fn lemma_no_rotation_keeps_file(s: RotationState, today: CalendarDate)
    requires
        !s.rotate,
    ensures
        after_write(s, today).current == s.current,
        after_write(s, today).template == s.template,
{
}

/// One write keeps the file in use the one for the day of the last write:
/// with daily rotation, a write on the same or a later day switches to the
/// file of its day.
pub proof fn lemma_file_follows_day(s: RotationState, today: CalendarDate)
    requires
        s.rotate,
        s.current == Some(file_name_for(s.template, s.add_date, s.last_write)),
        !date_before(today, s.last_write),
    ensures
        after_write(s, today).current == Some(file_name_for(s.template, s.add_date, today)),
        after_write(s, today).last_write == today,
        after_write(s, today).rotate,
        after_write(s, today).template == s.template,
        after_write(s, today).add_date == s.add_date,
{
    if !date_before(s.last_write, today) {
        assert(s.last_write == today);
    }
}

/// With daily rotation, after any run of writes whose days never go
/// backwards (and start no earlier than the last write), the file in use is
/// the one for the day of the last write.
pub proof fn lemma_file_follows_day_over_writes(s: RotationState, days: Seq<CalendarDate>)
    requires
        s.rotate,
        s.current == Some(file_name_for(s.template, s.add_date, s.last_write)),
        days.len() > 0,
        !date_before(days[0], s.last_write),
        days_in_order(days),
    ensures
        after_writes(s, days).current == Some(
            file_name_for(s.template, s.add_date, days[days.len() - 1]),
        ),
        after_writes(s, days).last_write == days[days.len() - 1],
    decreases days.len(),
{
    lemma_file_follows_day(s, days[0]);
    let s1 = after_write(s, days[0]);
    let rest = days.skip(1);
    if days.len() == 1 {
        assert(rest.len() == 0);
    } else {
        assert(rest[0] == days[1]);
        assert(days_in_order(rest)) by {
            assert forall|i: int, j: int| 0 <= i < j < rest.len() implies !date_before(
                rest[j],
                rest[i],
            ) by {
                assert(rest[i] == days[i + 1]);
                assert(rest[j] == days[j + 1]);
            }
        }
        lemma_file_follows_day_over_writes(s1, rest);
        assert(rest[rest.len() - 1] == days[days.len() - 1]);
    }
}

/// From creation on, with daily rotation, every write whose day is no earlier
/// than the previous one leaves the file of its own day in use.
pub proof fn lemma_file_follows_day_from_creation(
    template: Seq<char>,
    add_date: bool,
    compress: bool,
    created: CalendarDate,
    days: Seq<CalendarDate>,
)
    requires
        days.len() > 0,
        !date_before(days[0], created),
        days_in_order(days),
    ensures
        after_writes(initial_state(template, true, add_date, compress, created), days).current
            == Some(file_name_for(template, add_date, days[days.len() - 1])),
{
    lemma_file_follows_day_over_writes(initial_state(template, true, add_date, compress, created), days);
}

/// Right after creation, the file in use is the one for the day of creation.
pub proof fn lemma_initial_file(
    template: Seq<char>,
    rotate: bool,
    add_date: bool,
    compress: bool,
    today: CalendarDate,
)
    ensures
        initial_state(template, rotate, add_date, compress, today).current == Some(
            file_name_for(template, add_date, today),
        ),
        initial_state(template, rotate, add_date, compress, today).last_write == today,
{
}

/// A rotation compresses exactly the file that was written before it, into
/// that name with `.gz` appended, only when compression is enabled and that
/// file is rotated out (the new file has another name); the file compressed
/// is never the one opened next.
pub proof fn lemma_rotation_compresses_previous(s: RotationState, d: CalendarDate)
    ensures
        rotation_plan(s, d).1 is Some <==> (s.compress && s.current is Some && s.current.unwrap()
            != rotation_plan(s, d).2),
        rotation_plan(s, d).1 matches Some((src, dst)) ==> Some(src) == s.current && dst == src
            + seq!['.', 'g', 'z'] && src != rotation_plan(s, d).2,
        rotated(s, d).current == Some(rotation_plan(s, d).2),
{
}

/// Distinct days have distinct date stamps, so each day has a file of its
/// own (for valid months and days; the year may be any, negative too).
pub proof fn lemma_date_stamp_injective(a: CalendarDate, b: CalendarDate)
    requires
        1 <= a.month <= 12,
        1 <= b.month <= 12,
        1 <= a.day <= 31,
        1 <= b.day <= 31,
        date_stamp(a) == date_stamp(b),
    ensures
        a == b,
{
    lemma_stamp_parts(a);
    lemma_stamp_parts(b);
    let sa = date_stamp(a);
    let ya = signed_zero_padded(a.year as int, 4);
    let yb = signed_zero_padded(b.year as int, 4);
    let n: int = sa.len() as int;
    assert(ya.len() == yb.len());
    assert(sa.subrange(0, n - 4) == ya);
    assert(date_stamp(b).subrange(0, n - 4) == yb);
    assert(ya == yb);
    assert(sa.subrange(n - 4, n - 2) == date_stamp(b).subrange(n - 4, n - 2));
    assert(sa.subrange(n - 2, n) == date_stamp(b).subrange(n - 2, n));
    lemma_signed_zero_padded_injective(a.year as int, b.year as int, 4);
}

/// A signed zero-filled number determines the number.
proof fn lemma_signed_zero_padded_injective(x: int, y: int, width: nat)
    requires
        signed_zero_padded(x, width) == signed_zero_padded(y, width),
    ensures
        x == y,
{
    let w1: nat = if width > 0 { (width - 1) as nat } else { 0 };
    let sx = signed_zero_padded(x, width);
    if x < 0 {
        lemma_zero_padded_value((-x) as nat, w1);
        assert(sx[0] == '-');
    } else {
        lemma_zero_padded_value(x as nat, width);
        assert(is_ascii_digit(sx[0]));
    }
    if y < 0 {
        lemma_zero_padded_value((-y) as nat, w1);
        assert(signed_zero_padded(y, width)[0] == '-');
    } else {
        lemma_zero_padded_value(y as nat, width);
        assert(is_ascii_digit(signed_zero_padded(y, width)[0]));
    }
    if x < 0 && y < 0 {
        assert(sx.skip(1) =~= zero_padded((-x) as nat, w1));
        assert(signed_zero_padded(y, width).skip(1) =~= zero_padded((-y) as nat, w1));
    }
}

proof fn lemma_stamp_parts(d: CalendarDate)
    requires
        1 <= d.month <= 12,
        1 <= d.day <= 31,
    ensures
        date_stamp(d).len() == signed_zero_padded(d.year as int, 4).len() + 4,
        date_stamp(d).subrange(0, date_stamp(d).len() - 4) == signed_zero_padded(d.year as int, 4),
        decimal_value(date_stamp(d).subrange(date_stamp(d).len() - 4, date_stamp(d).len() - 2))
            == d.month,
        decimal_value(date_stamp(d).subrange(date_stamp(d).len() - 2, date_stamp(d).len() as int))
            == d.day,
{
    assert(pow10(2) == 100) by {
        assert(pow10(0) == 1);
        assert(pow10(1) == 10);
    }
    lemma_decimal_digits_len(d.month as nat, 2);
    lemma_decimal_digits_len(d.day as nat, 2);
    lemma_zero_padded_value(d.month as nat, 2);
    lemma_zero_padded_value(d.day as nat, 2);
    let y = signed_zero_padded(d.year as int, 4);
    let m = zero_padded(d.month as nat, 2);
    let dd = zero_padded(d.day as nat, 2);
    let st = y + m + dd;
    let yl: int = y.len() as int;
    assert(date_stamp(d) == st);
    assert(st.subrange(0, yl) =~= y);
    assert(st.subrange(yl, yl + 2) =~= m);
    assert(st.subrange(yl + 2, yl + 4) =~= dd);
}

/// Days are totally ordered by `date_before`: of two days, exactly one comes
/// first, unless they are the same day; and the order is transitive.
pub proof fn lemma_date_order(a: CalendarDate, b: CalendarDate, c: CalendarDate)
    ensures
        a == b ==> !date_before(a, b),
        a != b ==> (date_before(a, b) != date_before(b, a)),
        date_before(a, b) && date_before(b, c) ==> date_before(a, c),
        date_before(a, b) <==> (a.year < b.year || (a.year == b.year && a.month < b.month) || (a.year
            == b.year && a.month == b.month && a.day < b.day)),
{
}

/// The date stamp of a day of a year from 0 on is made of ASCII digits only:
/// the year in at least four digits, then the month and the day in exactly
/// two digits each, every part with its value.
pub proof fn lemma_date_stamp_digits(d: CalendarDate)
    requires
        0 <= d.year,
        1 <= d.month <= 12,
        1 <= d.day <= 31,
    ensures
        date_stamp(d).len() >= 8,
        d.year <= 9999 ==> date_stamp(d).len() == 8,
        all_ascii_digits(date_stamp(d)),
        decimal_value(date_stamp(d).subrange(0, date_stamp(d).len() - 4)) == d.year,
        decimal_value(date_stamp(d).subrange(date_stamp(d).len() - 4, date_stamp(d).len() - 2))
            == d.month,
        decimal_value(date_stamp(d).subrange(date_stamp(d).len() - 2, date_stamp(d).len() as int))
            == d.day,
        all_ascii_digits(date_stamp(d).subrange(date_stamp(d).len() - 2, date_stamp(d).len() as int)),
        all_ascii_digits(date_stamp(d).subrange(date_stamp(d).len() - 4, date_stamp(d).len() - 2)),
{
    assert(pow10(2) == 100) by {
        assert(pow10(0) == 1);
        assert(pow10(1) == 10);
    }
    assert(pow10(4) == 10000) by {
        assert(pow10(0) == 1);
        assert(pow10(1) == 10);
        assert(pow10(2) == 100);
        assert(pow10(3) == 1000);
    }
    lemma_decimal_digits_len(d.month as nat, 2);
    lemma_decimal_digits_len(d.day as nat, 2);
    if d.year <= 9999 {
        lemma_decimal_digits_len(d.year as nat, 4);
    }
    lemma_zero_padded_value(d.year as nat, 4);
    lemma_zero_padded_value(d.month as nat, 2);
    lemma_zero_padded_value(d.day as nat, 2);
    let y = zero_padded(d.year as nat, 4);
    let m = zero_padded(d.month as nat, 2);
    let dd = zero_padded(d.day as nat, 2);
    let st = y + m + dd;
    let yl: int = y.len() as int;
    assert(date_stamp(d) == st);
    assert(st.subrange(0, yl) =~= y);
    assert(st.subrange(yl, yl + 2) =~= m);
    assert(st.subrange(yl + 2, yl + 4) =~= dd);
    assert forall|i: int| 0 <= i < st.len() implies is_ascii_digit(#[trigger] st[i]) by {
        if i < yl {
            assert(st[i] == y[i]);
        } else if i < yl + 2 {
            assert(st[i] == m[i - yl]);
        } else {
            assert(st[i] == dd[i - yl - 2]);
        }
    }
}

/// A rotation flushes and closes the previous file exactly when one is open,
/// whatever the options.
pub proof fn lemma_rotation_flushes_open_file(s: RotationState, d: CalendarDate)
    ensures
        rotation_plan(s, d).0 <==> s.current is Some,
        needs_rotation(s, d) && s.current is Some ==> rotation_plan(s, d).0,
{
}

/// A write always records its day and keeps the configured name and
/// options; the file changes only by a rotation, which needs rotation enabled
/// and a day later than the last write. A write on an earlier day (the clock
/// went back) never rotates.
pub proof fn lemma_write_effects(s: RotationState, d: CalendarDate)
    ensures
        after_write(s, d).last_write == d,
        after_write(s, d).template == s.template,
        after_write(s, d).rotate == s.rotate,
        after_write(s, d).add_date == s.add_date,
        after_write(s, d).compress == s.compress,
        !needs_rotation(s, d) ==> after_write(s, d).current == s.current,
        needs_rotation(s, d) ==> s.rotate && s.last_write != d && !date_before(d, s.last_write),
        s.rotate && date_before(s.last_write, d) ==> needs_rotation(s, d),
        date_before(d, s.last_write) || d == s.last_write ==> !needs_rotation(s, d),
{
}

/// Without the date option, a configured name without `{` is used as it is,
/// every day.
pub proof fn lemma_plain_name_kept(template: Seq<char>, d: CalendarDate)
    requires
        !template.contains('{'),
    ensures
        file_name_for(template, false, d) == template,
{
    lemma_replace_absent(template, date_placeholder(), date_stamp(d));
}

/// A name of the form `prefix{DATE}rest`, where `prefix` holds no `{`, is
/// the prefix, the date stamp, and the rest with its own placeholders
/// replaced.
pub proof fn lemma_placeholder_replaced(prefix: Seq<char>, rest: Seq<char>, d: CalendarDate)
    requires
        !prefix.contains('{'),
    ensures
        file_name_for(prefix + date_placeholder() + rest, false, d) == prefix + date_stamp(d)
            + replace_all(rest, date_placeholder(), date_stamp(d)),
{
    lemma_replace_after_plain_prefix(prefix, date_placeholder(), date_stamp(d), rest);
}

/// With the date option, a plain file name `base.ext` (no `/`, no `{`, no
/// other `.` in `ext`, a nonempty `base`) becomes `base`, the date stamp,
/// `.ext`.
pub proof fn lemma_date_before_extension(base: Seq<char>, ext: Seq<char>, d: CalendarDate)
    requires
        base.len() > 0,
        !base.contains('/'),
        !base.contains('{'),
        !ext.contains('/'),
        !ext.contains('.'),
        !ext.contains('{'),
    ensures
        file_name_for(base + seq!['.'] + ext, true, d) == base + date_stamp(d) + seq!['.'] + ext,
{
    let name = base + seq!['.'] + ext;
    assert(!name.contains('{')) by {
        if name.contains('{') {
            let j = choose|j: int| 0 <= j < name.len() && name[j] == '{';
            if j < base.len() {
                assert(base[j] == '{');
            } else if j > base.len() {
                assert(ext[j - base.len() - 1] == '{');
            }
        }
    }
    lemma_replace_absent(name, date_placeholder(), date_stamp(d));
    let k = base.len() as int;
    assert(name[k] == '.');
    assert forall|j: int| k < j < name.len() implies name[j] != '.' by {
        assert(name[j] == ext[j - k - 1]);
    }
    lemma_last_index_before_is(name, '.', name.len() as int, k);
    lemma_last_index_before_bounds(name, '/', name.len() as int);
    if last_index_before(name, '/', name.len() as int) >= 0 {
        let j = last_index_before(name, '/', name.len() as int);
        if j < k {
            assert(base[j] == '/');
        } else if j > k {
            assert(ext[j - k - 1] == '/');
        }
    }
    assert(name.take(k) =~= base);
    assert(name.skip(k) =~= seq!['.'] + ext);
    assert(base + date_stamp(d) + (seq!['.'] + ext) =~= base + date_stamp(d) + seq!['.'] + ext);
}

} // verus!
