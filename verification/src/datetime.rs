//! Dates, times of day and datetimes, and the RFC 3339 text of each.

use crate::ascii::{ascii_chars, ascii_string, is_ascii_bytes};
use crate::buffer::{DateTimeBuffer, CAPACITY};
use crate::digits::{
    decimal, fraction, lemma_decimal_digits, lemma_decimal_len, lemma_zero_padded,
    signed_decimal, write_double_digit, write_integer, write_microsecond, zero_padded, COLON,
    HYPHEN, LETTER_T, PLUS, Z, ZERO,
};
use crate::opt::{enabled, is_set, Opt, NAIVE_UTC, OMIT_MICROSECONDS, UTC_Z};
use vstd::prelude::*;

verus! {

/// Seconds in a day: the bound of the seconds part of an offset.
pub const DAY_SECONDS: i32 = 86_400;

/// `YYYY-MM-DD`: the year in its natural width, month and day in two
/// digits.
pub open spec fn date_text(year: int, month: nat, day: nat) -> Seq<u8> {
    signed_decimal(year) + seq![HYPHEN] + zero_padded(month, 2) + seq![HYPHEN] + zero_padded(
        day,
        2,
    )
}

/// `HH:MM:SS`, each field in two digits.
pub open spec fn clock_text(hour: nat, minute: nat, second: nat) -> Seq<u8> {
    zero_padded(hour, 2) + seq![COLON] + zero_padded(minute, 2) + seq![COLON] + zero_padded(
        second,
        2,
    )
}

/// The fraction of a second as `opts` asks for it: nothing when the
/// microseconds are to be left out or are zero, else a period and six digits.
pub open spec fn fraction_text(microsecond: nat, opts: Opt) -> Seq<u8> {
    if enabled(opts, OMIT_MICROSECONDS) {
        Seq::<u8>::empty()
    } else {
        fraction(microsecond)
    }
}

/// `+00:00`.
pub open spec fn zero_offset_text() -> Seq<u8> {
    seq![PLUS, ZERO, ZERO, COLON, ZERO, ZERO]
}

/// A calendar date.
#[derive(Clone, Copy, Debug, PartialEq, Eq)]
pub struct Date {
    year: i32,
    month: u8,
    day: u8,
}

/// What a [`Date`] holds.
pub struct DateView {
    pub year: int,
    pub month: nat,
    pub day: nat,
}

impl View for Date {
    type V = DateView;

    closed spec fn view(&self) -> DateView {
        DateView { year: self.year as int, month: self.month as nat, day: self.day as nat }
    }
}

impl Date {
    /// The text of this date.
    pub open spec fn text(&self) -> Seq<u8> {
        date_text(self@.year, self@.month, self@.day)
    }

    /// True for a date of the calendar: a year from 1 to 9999, a month from
    /// 1 to 12 and a day from 1 to 31.
    pub open spec fn valid(&self) -> bool {
        &&& 1 <= self@.year <= 9999
        &&& 1 <= self@.month <= 12
        &&& 1 <= self@.day <= 31
    }

    /// A date from its fields, which are taken as they are.
    pub fn new(year: i32, month: u8, day: u8) -> (date: Date)
        ensures
            date@ == (DateView { year: year as int, month: month as nat, day: day as nat }),
    {
        Date { year, month, day }
    }

    /// Tells whether this is a date of the calendar.
    pub fn is_valid(&self) -> (valid: bool)
        ensures
            valid == self.valid(),
    {
        1 <= self.year && self.year <= 9999 && 1 <= self.month && self.month <= 12 && 1
            <= self.day && self.day <= 31
    }

    /// Appends the text of this date to `buf`, which must have room for it.
    pub fn write_buf(&self, buf: &mut DateTimeBuffer)
        requires
            old(buf)@.len() + self.text().len() <= CAPACITY,
        ensures
            final(buf)@ == old(buf)@ + self.text(),
    {
        write_date(buf, self.year, self.month, self.day);
    }

    /// The text of this date as a string. The date must fit an empty
    /// buffer, as every date of the calendar does.
    pub fn serialize(&self) -> (text: String)
        requires
            self.text().len() <= CAPACITY,
        ensures
            text@ == ascii_chars(self.text()),
    {
        let mut buf = DateTimeBuffer::new();
        self.write_buf(&mut buf);
        proof {
            lemma_date_text_ascii(self@.year, self@.month, self@.day);
            assert(buf@ =~= self.text());
        }
        ascii_string(buf.as_slice())
    }
}

/// Why a time of day cannot be formatted.
#[derive(Clone, Copy, Debug, PartialEq, Eq)]
pub enum TimeError {
    /// The time of day carries a timezone.
    HasTimezone,
}

impl TimeError {
    /// The fixed message of this error.
    pub open spec fn spec_message(&self) -> Seq<char> {
        "a time of day must not carry a timezone"@
    }

    /// The fixed message of this error.
    pub fn message(&self) -> (message: String)
        ensures
            message@ == self.spec_message(),
    {
        String::from_str("a time of day must not carry a timezone")
    }
}

/// A time of day without a timezone, and the switches to format it by.
#[derive(Clone, Copy, Debug, PartialEq, Eq)]
pub struct Time {
    hour: u8,
    minute: u8,
    second: u8,
    microsecond: u32,
    opts: Opt,
}

/// What a [`Time`] holds.
pub struct TimeView {
    pub hour: nat,
    pub minute: nat,
    pub second: nat,
    pub microsecond: nat,
    pub opts: Opt,
}

impl View for Time {
    type V = TimeView;

    closed spec fn view(&self) -> TimeView {
        TimeView {
            hour: self.hour as nat,
            minute: self.minute as nat,
            second: self.second as nat,
            microsecond: self.microsecond as nat,
            opts: self.opts,
        }
    }
}

impl Time {
    /// The text of this time of day.
    pub open spec fn text(&self) -> Seq<u8> {
        clock_text(self@.hour, self@.minute, self@.second) + fraction_text(
            self@.microsecond,
            self@.opts,
        )
    }

    /// True when the microseconds, where they are written, are below one
    /// million.
    pub open spec fn printable(&self) -> bool {
        !enabled(self@.opts, OMIT_MICROSECONDS) ==> self@.microsecond < 1_000_000
    }

    /// True for a time of the clock: an hour below 24, minute and second
    /// below 60 and microseconds below one million.
    pub open spec fn valid(&self) -> bool {
        &&& self@.hour <= 23
        &&& self@.minute <= 59
        &&& self@.second <= 59
        &&& self@.microsecond <= 999_999
    }

    /// A time of day from its fields. A time that carries a timezone
    /// (`has_tzinfo`) is refused: it stands for no instant without a date.
    pub fn new(
        hour: u8,
        minute: u8,
        second: u8,
        microsecond: u32,
        has_tzinfo: bool,
        opts: Opt,
    ) -> (made: Result<Time, TimeError>)
        ensures
            has_tzinfo <==> made is Err,
            made matches Err(error) ==> error is HasTimezone,
            made matches Ok(time) ==> time@ == (TimeView {
                hour: hour as nat,
                minute: minute as nat,
                second: second as nat,
                microsecond: microsecond as nat,
                opts,
            }),
    {
        if has_tzinfo {
            return Err(TimeError::HasTimezone);
        }
        Ok(Time { hour, minute, second, microsecond, opts })
    }

    /// Tells whether this is a time of the clock.
    pub fn is_valid(&self) -> (valid: bool)
        ensures
            valid == self.valid(),
    {
        self.hour <= 23 && self.minute <= 59 && self.second <= 59 && self.microsecond <= 999_999
    }

    /// Appends the text of this time of day to `buf`, which must have room
    /// for it.
    pub fn write_buf(&self, buf: &mut DateTimeBuffer)
        requires
            self.printable(),
            old(buf)@.len() + self.text().len() <= CAPACITY,
        ensures
            final(buf)@ == old(buf)@ + self.text(),
    {
        write_clock(buf, self.hour, self.minute, self.second);
        if !is_set(self.opts, OMIT_MICROSECONDS) {
            write_microsecond(buf, self.microsecond);
        }
        assert(final(buf)@ =~= old(buf)@ + self.text());
    }

    /// The text of this time of day as a string. The time must fit an
    /// empty buffer, as every time of the clock does.
    pub fn serialize(&self) -> (text: String)
        requires
            self.printable(),
            self.text().len() <= CAPACITY,
        ensures
            text@ == ascii_chars(self.text()),
    {
        let mut buf = DateTimeBuffer::new();
        self.write_buf(&mut buf);
        proof {
            lemma_clock_text_ascii(self@.hour, self@.minute, self@.second);
            lemma_fraction_text_ascii(self@.microsecond, self@.opts);
            assert(buf@ =~= self.text());
        }
        ascii_string(buf.as_slice())
    }
}

/// Appends `YYYY-MM-DD`.
fn write_date(buf: &mut DateTimeBuffer, year: i32, month: u8, day: u8)
    requires
        old(buf)@.len() + date_text(year as int, month as nat, day as nat).len() <= CAPACITY,
    ensures
        final(buf)@ == old(buf)@ + date_text(year as int, month as nat, day as nat),
{
    write_integer(buf, year);
    buf.push(HYPHEN).unwrap();
    write_double_digit(buf, month);
    buf.push(HYPHEN).unwrap();
    write_double_digit(buf, day);
    assert(final(buf)@ =~= old(buf)@ + date_text(year as int, month as nat, day as nat));
}

/// Appends `HH:MM:SS`.
fn write_clock(buf: &mut DateTimeBuffer, hour: u8, minute: u8, second: u8)
    requires
        old(buf)@.len() + clock_text(hour as nat, minute as nat, second as nat).len() <= CAPACITY,
    ensures
        final(buf)@ == old(buf)@ + clock_text(hour as nat, minute as nat, second as nat),
{
    write_double_digit(buf, hour);
    buf.push(COLON).unwrap();
    write_double_digit(buf, minute);
    buf.push(COLON).unwrap();
    write_double_digit(buf, second);
    assert(final(buf)@ =~= old(buf)@ + clock_text(hour as nat, minute as nat, second as nat));
}

/// Why a datetime cannot be formatted.
#[derive(Clone, Copy, Debug, PartialEq, Eq)]
pub enum DateTimeError {
    /// The timezone of the datetime offers none of the known ways to its
    /// UTC offset.
    LibraryUnsupported,
}

impl DateTimeError {
    /// The fixed message of this error.
    pub open spec fn spec_message(&self) -> Seq<char> {
        "the timezone of the datetime offers no known way to its UTC offset"@
    }

    /// The fixed message of this error.
    pub fn message(&self) -> (message: String)
        ensures
            message@ == self.spec_message(),
    {
        String::from_str("the timezone of the datetime offers no known way to its UTC offset")
    }
}

/// An offset from UTC as a pair of days and seconds. The seconds are
/// counted from the start of the day, so an offset west of Greenwich is one
/// day back and a large count of seconds forward: five hours west is
/// `days == -1`, `seconds == 68400`.
#[derive(Clone, Copy, Debug, PartialEq, Eq)]
pub struct UtcOffset {
    pub days: i32,
    pub seconds: i32,
}

impl UtcOffset {
    /// True when the seconds lie within one day.
    pub open spec fn normalized(&self) -> bool {
        0 <= self.seconds < DAY_SECONDS
    }

    /// True for an offset west of Greenwich.
    pub open spec fn negative(&self) -> bool {
        self.days == -1
    }

    /// The distance from UTC in seconds, without its sign.
    pub open spec fn magnitude(&self) -> int {
        if self.negative() {
            DAY_SECONDS - self.seconds
        } else {
            self.seconds as int
        }
    }

    /// The whole hours of the distance from UTC.
    pub open spec fn hours(&self) -> int {
        self.magnitude() / 3600
    }

    /// The minutes that are written: the whole minutes past the hour, and
    /// one more when thirty seconds or more are left over. The hours are not
    /// touched, so from 59 minutes 30 seconds on the minutes read `60`.
    pub open spec fn minutes(&self) -> int {
        (self.magnitude() / 60) % 60 + if self.magnitude() % 60 >= 30 {
            1int
        } else {
            0int
        }
    }

    /// The sign of the offset: a hyphen west of Greenwich, else a plus.
    pub open spec fn sign(&self) -> u8 {
        if self.negative() {
            HYPHEN
        } else {
            PLUS
        }
    }

    /// The text of this offset: for zero seconds `Z` where `opts` asks for
    /// it and `+00:00` else; for any other offset the sign, the hours, a
    /// colon and the minutes.
    pub open spec fn text(&self, opts: Opt) -> Seq<u8> {
        if self.seconds == 0 {
            if enabled(opts, UTC_Z) {
                seq![Z]
            } else {
                zero_offset_text()
            }
        } else {
            seq![self.sign()] + zero_padded(self.hours() as nat, 2) + seq![COLON] + zero_padded(
                self.minutes() as nat,
                2,
            )
        }
    }

    /// Appends the text of this offset to `buf`, which must have room for
    /// it.
    pub fn write_buf(&self, buf: &mut DateTimeBuffer, opts: Opt)
        requires
            self.normalized(),
            old(buf)@.len() + self.text(opts).len() <= CAPACITY,
        ensures
            final(buf)@ == old(buf)@ + self.text(opts),
    {
        let mut offset_second: i32 = self.seconds;
        if offset_second == 0 {
            if is_set(opts, UTC_Z) {
                buf.push(Z).unwrap();
            } else {
                let zero: [u8; 6] = [PLUS, ZERO, ZERO, COLON, ZERO, ZERO];
                assert(zero@ =~= zero_offset_text());
                buf.extend_from_slice(zero.as_slice()).unwrap();
            }
        } else {
            if self.days == -1 {
                buf.push(HYPHEN).unwrap();
                offset_second = DAY_SECONDS - offset_second;
            } else {
                buf.push(PLUS).unwrap();
            }
            let offset_minute: i32 = offset_second / 60;
            let offset_hour: i32 = offset_minute / 60;
            assert(offset_hour == self.hours());
            write_double_digit(buf, offset_hour as u8);
            buf.push(COLON).unwrap();
            let mut offset_minute_print: i32 = offset_minute % 60;
            let offset_excess_second: i32 = offset_second - (offset_minute_print * 60 + offset_hour
                * 3600);
            if offset_excess_second >= 30 {
                offset_minute_print = offset_minute_print + 1;
            }
            assert(offset_minute_print == self.minutes());
            write_double_digit(buf, offset_minute_print as u8);
        }
        assert(final(buf)@ =~= old(buf)@ + self.text(opts));
    }
}

/// How the UTC offset of a datetime is asked for. Timezone libraries differ
/// in what their timezone objects can do; each of the three ways below is
/// told by one capability.
#[derive(Clone, Copy, Debug, PartialEq, Eq)]
pub enum OffsetProtocol {
    /// The timezone can convert: the datetime itself is asked for its
    /// offset.
    Datetime,
    /// The timezone can normalize: it normalizes the datetime, and the
    /// result is asked for its offset.
    Normalized,
    /// The timezone knows of daylight saving: it is asked for the offset of
    /// the datetime.
    Timezone,
}

/// The timezone attached to a datetime: what it is capable of, and the
/// offset that was obtained from it.
#[derive(Clone, Copy, Debug, PartialEq, Eq)]
pub struct TzInfo {
    /// The timezone can convert a datetime.
    pub convert: bool,
    /// The timezone can normalize a datetime.
    pub normalize: bool,
    /// The timezone can be asked about daylight saving.
    pub dst: bool,
    /// The offset obtained in the way that [`TzInfo::protocol`] selects. It
    /// is not read where no way is selected.
    pub offset: UtcOffset,
}

impl TzInfo {
    /// The way to the offset: the first of convert, normalize and daylight
    /// saving that the timezone is capable of, if any.
    pub open spec fn spec_protocol(&self) -> Option<OffsetProtocol> {
        if self.convert {
            Some(OffsetProtocol::Datetime)
        } else if self.normalize {
            Some(OffsetProtocol::Normalized)
        } else if self.dst {
            Some(OffsetProtocol::Timezone)
        } else {
            None
        }
    }

    /// Selects the way to the offset.
    pub fn protocol(&self) -> (selected: Option<OffsetProtocol>)
        ensures
            selected == self.spec_protocol(),
    {
        if self.convert {
            Some(OffsetProtocol::Datetime)
        } else if self.normalize {
            Some(OffsetProtocol::Normalized)
        } else if self.dst {
            Some(OffsetProtocol::Timezone)
        } else {
            None
        }
    }
}

/// A date with a time of day, the timezone attached to it if any, and the
/// switches to format it by.
#[derive(Clone, Copy, Debug, PartialEq, Eq)]
pub struct DateTime {
    year: i32,
    month: u8,
    day: u8,
    hour: u8,
    minute: u8,
    second: u8,
    microsecond: u32,
    tzinfo: Option<TzInfo>,
    opts: Opt,
}

/// What a [`DateTime`] holds.
pub struct DateTimeView {
    pub year: int,
    pub month: nat,
    pub day: nat,
    pub hour: nat,
    pub minute: nat,
    pub second: nat,
    pub microsecond: nat,
    pub tzinfo: Option<TzInfo>,
    pub opts: Opt,
}

impl View for DateTime {
    type V = DateTimeView;

    closed spec fn view(&self) -> DateTimeView {
        DateTimeView {
            year: self.year as int,
            month: self.month as nat,
            day: self.day as nat,
            hour: self.hour as nat,
            minute: self.minute as nat,
            second: self.second as nat,
            microsecond: self.microsecond as nat,
            tzinfo: self.tzinfo,
            opts: self.opts,
        }
    }
}

impl DateTime {
    /// True when a timezone is attached that offers no way to its offset.
    pub open spec fn unsupported(&self) -> bool {
        self@.tzinfo matches Some(tz) && tz.spec_protocol() is None
    }

    /// The offset of this datetime from UTC: that of its timezone, and zero
    /// without one.
    pub open spec fn offset(&self) -> UtcOffset {
        match self@.tzinfo {
            Some(tz) => tz.offset,
            None => UtcOffset { days: 0, seconds: 0 },
        }
    }

    /// What follows the time: the offset where a timezone is attached or
    /// `opts` has a datetime without one taken as UTC, else nothing.
    pub open spec fn suffix(&self) -> Seq<u8> {
        if self@.tzinfo is Some || enabled(self@.opts, NAIVE_UTC) {
            self.offset().text(self@.opts)
        } else {
            Seq::<u8>::empty()
        }
    }

    /// The text of this datetime: date, `T`, time of day, fraction and
    /// offset, all from its own fields.
    pub open spec fn text(&self) -> Seq<u8> {
        date_text(self@.year, self@.month, self@.day) + seq![LETTER_T] + clock_text(
            self@.hour,
            self@.minute,
            self@.second,
        ) + fraction_text(self@.microsecond, self@.opts) + self.suffix()
    }

    /// True when the microseconds, where they are written, are below one
    /// million, and the seconds of the offset lie within one day.
    pub open spec fn printable(&self) -> bool {
        &&& !enabled(self@.opts, OMIT_MICROSECONDS) ==> self@.microsecond < 1_000_000
        &&& self.offset().normalized()
    }

    /// True for a datetime of calendar and clock, whose offset is less than
    /// a day.
    pub open spec fn valid(&self) -> bool {
        &&& 1 <= self@.year <= 9999
        &&& 1 <= self@.month <= 12
        &&& 1 <= self@.day <= 31
        &&& self@.hour <= 23
        &&& self@.minute <= 59
        &&& self@.second <= 59
        &&& self@.microsecond <= 999_999
        &&& self.offset().normalized()
    }

    /// A datetime from its fields, which are taken as they are: `tzinfo`
    /// is the timezone attached to it, if any, and `opts` the switches to
    /// format it by.
    pub fn new(
        year: i32,
        month: u8,
        day: u8,
        hour: u8,
        minute: u8,
        second: u8,
        microsecond: u32,
        tzinfo: Option<TzInfo>,
        opts: Opt,
    ) -> (datetime: DateTime)
        ensures
            datetime@ == (DateTimeView {
                year: year as int,
                month: month as nat,
                day: day as nat,
                hour: hour as nat,
                minute: minute as nat,
                second: second as nat,
                microsecond: microsecond as nat,
                tzinfo,
                opts,
            }),
    {
        DateTime { year, month, day, hour, minute, second, microsecond, tzinfo, opts }
    }

    /// Tells whether this is a datetime of calendar and clock whose offset
    /// is less than a day.
    pub fn is_valid(&self) -> (valid: bool)
        ensures
            valid == self.valid(),
    {
        let offset_second: i32 = match self.tzinfo {
            Some(tz) => tz.offset.seconds,
            None => 0,
        };
        1 <= self.year && self.year <= 9999 && 1 <= self.month && self.month <= 12 && 1
            <= self.day && self.day <= 31 && self.hour <= 23 && self.minute <= 59 && self.second
            <= 59 && self.microsecond <= 999_999 && 0 <= offset_second && offset_second
            < DAY_SECONDS
    }

    /// Appends the text of this datetime to `buf`. A datetime whose
    /// timezone offers no way to its offset is refused, and `buf` is left as
    /// it was; for any other, `buf` must have room for the text.
    pub fn write_buf(&self, buf: &mut DateTimeBuffer) -> (written: Result<(), DateTimeError>)
        requires
            !self.unsupported() ==> self.printable() && old(buf)@.len() + self.text().len()
                <= CAPACITY,
        ensures
            self.unsupported() <==> written is Err,
            written matches Err(error) ==> error is LibraryUnsupported && final(buf)@ == old(
                buf,
            )@,
            written is Ok ==> final(buf)@ == old(buf)@ + self.text(),
    {
        let has_tz: bool;
        let offset: UtcOffset;
        match self.tzinfo {
            None => {
                has_tz = false;
                offset = UtcOffset { days: 0, seconds: 0 };
            },
            Some(tz) => {
                if tz.protocol().is_none() {
                    return Err(DateTimeError::LibraryUnsupported);
                }
                has_tz = true;
                offset = tz.offset;
            },
        }
        let ghost date = date_text(self@.year, self@.month, self@.day);
        let ghost clock = clock_text(self@.hour, self@.minute, self@.second);
        let ghost fraction = fraction_text(self@.microsecond, self@.opts);
        let ghost suffix = self.suffix();
        assert(offset == self.offset());
        assert(self.text().len() == date.len() + 1 + clock.len() + fraction.len() + suffix.len());
        write_date(buf, self.year, self.month, self.day);
        buf.push(LETTER_T).unwrap();
        write_clock(buf, self.hour, self.minute, self.second);
        assert(buf@ == old(buf)@ + date + seq![LETTER_T] + clock);
        if !is_set(self.opts, OMIT_MICROSECONDS) {
            write_microsecond(buf, self.microsecond);
        }
        assert(buf@ =~= old(buf)@ + date + seq![LETTER_T] + clock + fraction);
        if has_tz || is_set(self.opts, NAIVE_UTC) {
            offset.write_buf(buf, self.opts);
        }
        assert(buf@ =~= old(buf)@ + date + seq![LETTER_T] + clock + fraction + suffix);
        assert(final(buf)@ =~= old(buf)@ + self.text());
        Ok(())
    }

    /// The text of this datetime as a string, or the error of a timezone
    /// that offers no way to its offset. Any other datetime must fit an
    /// empty buffer, as every datetime of calendar and clock does.
    pub fn serialize(&self) -> (text: Result<String, DateTimeError>)
        requires
            !self.unsupported() ==> self.printable() && self.text().len() <= CAPACITY,
        ensures
            self.unsupported() <==> text is Err,
            text matches Err(error) ==> error is LibraryUnsupported,
            text matches Ok(s) ==> s@ == ascii_chars(self.text()),
    {
        let mut buf = DateTimeBuffer::new();
        match self.write_buf(&mut buf) {
            Err(error) => Err(error),
            Ok(()) => {
                proof {
                    lemma_datetime_text_ascii(*self);
                    assert(buf@ =~= self.text());
                }
                Ok(ascii_string(buf.as_slice()))
            },
        }
    }
}

/// The text of an integer is ASCII.
pub proof fn lemma_signed_decimal_ascii(i: int)
    ensures
        is_ascii_bytes(signed_decimal(i)),
        signed_decimal(i).len() >= 1,
{
    if i < 0 {
        lemma_decimal_digits((-i) as nat);
        lemma_decimal_len((-i) as nat);
    } else {
        lemma_decimal_digits(i as nat);
        lemma_decimal_len(i as nat);
    }
}

/// The text of a date is ASCII.
pub proof fn lemma_date_text_ascii(year: int, month: nat, day: nat)
    ensures
        is_ascii_bytes(date_text(year, month, day)),
{
    lemma_signed_decimal_ascii(year);
    lemma_zero_padded(month, 2);
    lemma_zero_padded(day, 2);
}

/// The text of a clock reading is ASCII.
pub proof fn lemma_clock_text_ascii(hour: nat, minute: nat, second: nat)
    ensures
        is_ascii_bytes(clock_text(hour, minute, second)),
{
    lemma_zero_padded(hour, 2);
    lemma_zero_padded(minute, 2);
    lemma_zero_padded(second, 2);
}

/// The text of a fraction is ASCII.
pub proof fn lemma_fraction_text_ascii(microsecond: nat, opts: Opt)
    ensures
        is_ascii_bytes(fraction_text(microsecond, opts)),
{
    lemma_zero_padded(microsecond, 6);
}

/// The two errors of formatting can be told apart by their messages.
pub proof fn lemma_messages_differ(time: TimeError, datetime: DateTimeError)
    ensures
        time.spec_message() != datetime.spec_message(),
{
    reveal_strlit("a time of day must not carry a timezone");
    reveal_strlit("the timezone of the datetime offers no known way to its UTC offset");
    assert(time.spec_message().len() != datetime.spec_message().len());
}

/// A datetime without a timezone ends after its time unless it is taken as
/// UTC. Taken as UTC it ends with `Z` where that is asked for, and with
/// `+00:00` where it is not.
pub proof fn lemma_naive_suffix(datetime: DateTime)
    requires
        datetime@.tzinfo is None,
    ensures
        !datetime.unsupported(),
        !enabled(datetime@.opts, NAIVE_UTC) ==> datetime.suffix() == Seq::<u8>::empty(),
        enabled(datetime@.opts, NAIVE_UTC) && enabled(datetime@.opts, UTC_Z) ==> datetime.suffix()
            == seq![Z],
        enabled(datetime@.opts, NAIVE_UTC) && !enabled(datetime@.opts, UTC_Z) ==> datetime.suffix()
            == zero_offset_text(),
{
}

/// An offset is written to the nearest minute: thirty seconds or more past
/// a whole minute make the minutes one more, fewer leave them, and what is
/// written is never more than thirty seconds from the offset.
pub proof fn lemma_offset_rounds_to_minute(offset: UtcOffset)
    requires
        offset.normalized(),
    ensures
        offset.magnitude() % 60 >= 30 ==> offset.minutes() == (offset.magnitude() / 60) % 60 + 1,
        offset.magnitude() % 60 < 30 ==> offset.minutes() == (offset.magnitude() / 60) % 60,
        -30 <= offset.magnitude() - (offset.hours() * 3600 + offset.minutes() * 60) <= 29,
{
    let distance = offset.magnitude();
    assert((distance / 60) / 60 == distance / 3600);
}

/// An offset west of Greenwich is written as the offset of the same
/// distance east of it, with a hyphen for the plus.
pub proof fn lemma_west_mirrors_east(west: UtcOffset, east: UtcOffset, opts: Opt)
    requires
        west.normalized(),
        east.normalized(),
        west.days == -1,
        east.days == 0,
        west.seconds != 0,
        east.seconds == DAY_SECONDS - west.seconds,
    ensures
        west.text(opts) == seq![HYPHEN] + east.text(opts).subrange(1, 6),
        east.text(opts)[0] == PLUS,
{
    lemma_offset_text(east, opts);
    lemma_offset_text(west, opts);
    assert(west.text(opts) =~= seq![HYPHEN] + east.text(opts).subrange(1, 6));
}

/// The text of an offset is ASCII, and one byte long for `Z`, six else.
pub proof fn lemma_offset_text(offset: UtcOffset, opts: Opt)
    requires
        offset.normalized(),
    ensures
        is_ascii_bytes(offset.text(opts)),
        offset.text(opts).len() == if offset.seconds == 0 && enabled(opts, UTC_Z) {
            1nat
        } else {
            6nat
        },
        offset.seconds != 0 ==> 0 <= offset.hours() <= 23 && 0 <= offset.minutes() <= 60,
{
    lemma_zero_padded(offset.hours() as nat, 2);
    lemma_zero_padded(offset.minutes() as nat, 2);
    lemma_decimal_len(offset.hours() as nat);
    lemma_decimal_len(offset.minutes() as nat);
}

/// The text of a datetime with a normalized offset is ASCII.
pub proof fn lemma_datetime_text_ascii(datetime: DateTime)
    requires
        datetime.offset().normalized(),
    ensures
        is_ascii_bytes(datetime.text()),
{
    lemma_date_text_ascii(datetime@.year, datetime@.month, datetime@.day);
    lemma_clock_text_ascii(datetime@.hour, datetime@.minute, datetime@.second);
    lemma_fraction_text_ascii(datetime@.microsecond, datetime@.opts);
    lemma_offset_text(datetime.offset(), datetime@.opts);
}

/// A datetime of calendar and clock takes at most thirty-two bytes, so it
/// fits an empty buffer.
pub proof fn lemma_valid_datetime_fits(datetime: DateTime)
    requires
        datetime.valid(),
    ensures
        datetime.printable(),
        datetime.text().len() <= CAPACITY,
{
    lemma_decimal_len(datetime@.year as nat);
    lemma_decimal_len(datetime@.month);
    lemma_decimal_len(datetime@.day);
    lemma_decimal_len(datetime@.hour);
    lemma_decimal_len(datetime@.minute);
    lemma_decimal_len(datetime@.second);
    lemma_decimal_len(datetime@.microsecond);
    lemma_offset_text(datetime.offset(), datetime@.opts);
}

/// A time of the clock takes at most fifteen bytes, so it fits an empty
/// buffer.
pub proof fn lemma_valid_time_fits(time: Time)
    requires
        time.valid(),
    ensures
        time.printable(),
        time.text().len() <= 15,
{
    lemma_decimal_len(time@.hour);
    lemma_decimal_len(time@.minute);
    lemma_decimal_len(time@.second);
    lemma_decimal_len(time@.microsecond);
}

/// A date of the calendar takes at most ten bytes, so it fits an empty
/// buffer.
pub proof fn lemma_valid_date_fits(date: Date)
    requires
        date.valid(),
    ensures
        date.text().len() <= 10,
{
    lemma_decimal_len(date@.year as nat);
    lemma_decimal_len(date@.month);
    lemma_decimal_len(date@.day);
}

} // verus!
