//! Object keys, one directory per UTC hour and one name per writer and segment:
//!
//! ```text
//! {prefix}/YYYY/MM/DD/HH/{instance}-{startup}-{seq:06}.jsonl.gz
//! ```

use crate::text;
use crate::text::{to_zero_padded, to_zero_padded_signed, trim, TrimSet};
use chrono::{Datelike, Timelike};
use vstd::prelude::*;

verus! {

/// The first second that [`ObjectTime::at`] places in the calendar.
pub const FIRST_SECOND: i64 = -8334601228800;

/// The last second that [`ObjectTime::at`] places in the calendar.
pub const LAST_SECOND: i64 = 8210266876799;

/// Whether `year` has a 29th of February.
pub open spec fn is_leap_year(year: int) -> bool {
    year % 4 == 0 && (year % 100 != 0 || year % 400 == 0)
}

/// The days of `year` that lie before its month `month`.
pub open spec fn days_before_month(year: int, month: int) -> int {
    let common = seq![0int, 31, 59, 90, 120, 151, 181, 212, 243, 273, 304, 334, 365];
    common[month - 1] + if month > 2 && is_leap_year(year) {
        1int
    } else {
        0
    }
}

/// The days from the 1st of January of year 1 to the 1st of January of `year`.
pub open spec fn days_before_year(year: int) -> int {
    365 * (year - 1) + (year - 1) / 4 - (year - 1) / 100 + (year - 1) / 400
}

/// The calendar hour, in UTC, that an object is filed under.
#[derive(Clone, Copy, Debug, PartialEq, Eq, Structural)]
pub struct ObjectTime {
    pub year: i32,
    pub month: u32,
    pub day: u32,
    pub hour: u32,
}

impl ObjectTime {
    /// Whether the fields name an hour of the calendar.
    pub open spec fn is_calendar_hour(self) -> bool {
        &&& 1 <= self.month <= 12
        &&& 1 <= self.day <= days_before_month(self.year as int, self.month + 1)
            - days_before_month(self.year as int, self.month as int)
        &&& self.hour < 24
    }

    /// The days from the 1st of January 1970 to this day.
    pub open spec fn epoch_day(self) -> int {
        days_before_year(self.year as int) + days_before_month(
            self.year as int,
            self.month as int,
        ) + self.day - 1 - 719162
    }

    /// Whether the second `secs`, counted from the start of 1970 in UTC, lies in
    /// this hour.
    pub open spec fn holds_second(self, secs: int) -> bool {
        &&& self.is_calendar_hour()
        &&& self.epoch_day() == secs / 86400
        &&& self.hour == secs % 86400 / 3600
    }

    /// Whether a clock that is not set before 1970 can show this hour.
    pub open spec fn can_be_now(self) -> bool {
        exists|secs: int| 0 <= secs <= LAST_SECOND && #[trigger] self.holds_second(secs)
    }

    /// The hour of the second `secs`, counted from the start of 1970 in UTC;
    /// `None` outside the years that a calendar date is kept for.
    pub fn at(secs: i64) -> (r: Option<ObjectTime>)
        ensures
            r is Some <==> FIRST_SECOND <= secs <= LAST_SECOND,
            r matches Some(t) ==> t.holds_second(secs as int),
    {
        calendar_hour(secs)
    }

    /// Whether this is the hour of a second that the clock showed when it was read.
    pub open spec fn was_shown(self) -> bool {
        exists|secs: i64| clock_showed(secs) && #[trigger] self.holds_second(secs as int)
    }

    /// The current hour: the one that holds the second that the clock shows.
    pub fn now() -> (r: ObjectTime)
        ensures
            r.can_be_now(),
            r.was_shown(),
    {
        let mut clock = Clock::new();
        clock.hour()
    }
}

/// `chrono::Utc::now`, as the whole seconds that `DateTime::timestamp` counts
/// from the start of 1970. The clock decides the result; it is claimed only that
/// the second is not before 1970 and not after the last date that chrono holds.
/// `Utc::now` panics where the system clock is set outside those bounds.
#[verifier::external_body]
fn utc_now() -> (secs: i64)
    ensures
        0 <= secs <= LAST_SECOND,
{
    chrono::Utc::now().timestamp()
}

/// Whether `secs` is a second that the clock showed when [`utc_now`] read it. No
/// other second can be passed off as one.
pub closed spec fn clock_showed(secs: i64) -> bool {
    call_ensures(utc_now, (), secs)
}

/// The system clock, together with what it showed, reading by reading. Only the
/// proofs see that record. A clock can be set back, so nothing is said of how two
/// readings compare.
pub struct Clock {
    shown: Ghost<Seq<i64>>,
}

impl View for Clock {
    type V = Seq<i64>;

    closed spec fn view(&self) -> Seq<i64> {
        self.shown@
    }
}

impl Clock {
    /// A clock that was not read yet.
    pub fn new() -> (r: Clock)
        ensures
            r@ == Seq::<i64>::empty(),
    {
        Clock { shown: Ghost(Seq::empty()) }
    }

    /// Reads the clock, in whole seconds from the start of 1970.
    pub fn read(&mut self) -> (secs: i64)
        ensures
            final(self)@ == old(self)@.push(secs),
            clock_showed(secs),
            0 <= secs <= LAST_SECOND,
    {
        let secs: i64 = utc_now();
        self.shown = Ghost(self.shown@.push(secs));
        secs
    }

    /// Reads the clock and gives the hour that it shows.
    pub fn hour(&mut self) -> (t: ObjectTime)
        ensures
            final(self)@.len() == old(self)@.len() + 1,
            final(self)@.drop_last() == old(self)@,
            clock_showed(final(self)@.last()),
            t.holds_second(final(self)@.last() as int),
            t.can_be_now(),
            t.was_shown(),
    {
        let secs: i64 = self.read();
        assert(self@.drop_last() =~= old(self)@);
        ObjectTime::at(secs).unwrap()
    }
}

/// `chrono::DateTime::from_timestamp` with the `Datelike` and `Timelike` fields
/// of the `DateTime<Utc>` it gives. Claimed: there is a date exactly for the
/// seconds of the years that chrono holds, and its fields are the proleptic
/// Gregorian date, and the hour of the day, of the given second.
#[verifier::external_body]
fn calendar_hour(secs: i64) -> (r: Option<ObjectTime>)
    ensures
        r is Some <==> FIRST_SECOND <= secs <= LAST_SECOND,
        r matches Some(t) ==> t.holds_second(secs as int),
{
    let t = chrono::DateTime::from_timestamp(secs, 0)?;
    Some(ObjectTime { year: t.year(), month: t.month(), day: t.day(), hour: t.hour() })
}

/// Between `y - 1` and `y`, the quotient by `d` grows exactly where `d` divides `y`.
proof fn lemma_quotient_step(y: int, d: int)
    requires
        d > 1,
    ensures
        y / d - (y - 1) / d == if y % d == 0 {
            1int
        } else {
            0
        },
{
    vstd::arithmetic::div_mod::lemma_fundamental_div_mod(y, d);
    vstd::arithmetic::div_mod::lemma_mod_bound(y, d);
    let q = y / d;
    let r = y % d;
    if r == 0 {
        assert(y - 1 == (q - 1) * d + (d - 1)) by (nonlinear_arith)
            requires
                y == d * q + r,
                r == 0,
        ;
        vstd::arithmetic::div_mod::lemma_fundamental_div_mod_converse(y - 1, d, q - 1, d - 1);
    } else {
        assert(y - 1 == q * d + (r - 1)) by (nonlinear_arith)
            requires
                y == d * q + r,
        ;
        vstd::arithmetic::div_mod::lemma_fundamental_div_mod_converse(y - 1, d, q, r - 1);
    }
}

#[verifier::spinoff_prover]
proof fn lemma_century_is_divisible(year: int)
    ensures
        year % 400 == 0 ==> year % 100 == 0,
        year % 100 == 0 ==> year % 4 == 0,
{
}

#[verifier::spinoff_prover]
proof fn lemma_next_year(year: int)
    ensures
        days_before_year(year + 1) == days_before_year(year) + 365 + if is_leap_year(year) {
            1int
        } else {
            0
        },
{
    lemma_quotient_step(year, 4);
    lemma_quotient_step(year, 100);
    lemma_quotient_step(year, 400);
    lemma_century_is_divisible(year);
}

proof fn lemma_years_apart(a: int, b: int)
    requires
        a < b,
    ensures
        days_before_year(a) + 365 + if is_leap_year(a) {
            1int
        } else {
            0
        } <= days_before_year(b),
    decreases b - a,
{
    lemma_next_year(b - 1);
    if a < b - 1 {
        lemma_years_apart(a, b - 1);
    }
}

proof fn lemma_day_in_year(t: ObjectTime)
    requires
        t.is_calendar_hour(),
    ensures
        0 <= t.epoch_day() + 719162 - days_before_year(t.year as int) < 365 + if is_leap_year(
            t.year as int,
        ) {
            1int
        } else {
            0
        },
{
}

/// A second lies in one calendar hour only, and all the seconds of an hour lie in
/// the same one: objects are filed by the hour.
pub proof fn law_objects_are_filed_by_the_hour(
    secs1: int,
    secs2: int,
    t1: ObjectTime,
    t2: ObjectTime,
)
    requires
        t1.holds_second(secs1),
        t2.holds_second(secs2),
    ensures
        t1 == t2 <==> secs1 / 3600 == secs2 / 3600,
{
    assert(secs1 / 3600 == 24 * (secs1 / 86400) + secs1 % 86400 / 3600);
    assert(secs2 / 3600 == 24 * (secs2 / 86400) + secs2 % 86400 / 3600);
    if secs1 / 3600 == secs2 / 3600 {
        lemma_day_in_year(t1);
        lemma_day_in_year(t2);
        if t1.year < t2.year {
            lemma_years_apart(t1.year as int, t2.year as int);
        }
        if t2.year < t1.year {
            lemma_years_apart(t2.year as int, t1.year as int);
        }
        assert(t1.year == t2.year);
        assert(t1.month == t2.month);
    }
}

/// The directory of the hour `t`: `{prefix}/YYYY/MM/DD/HH/`.
pub open spec fn hour_directory(prefix: Seq<char>, t: ObjectTime) -> Seq<char> {
    text::trimmed(prefix, TrimSet::Slash) + "/"@ + text::zero_padded_signed(t.year as int, 4) + "/"@
        + text::zero_padded(t.month as nat, 2) + "/"@ + text::zero_padded(t.day as nat, 2) + "/"@ + text::zero_padded(
        t.hour as nat,
        2,
    ) + "/"@
}

/// The name of a writer's segment: `{instance}-{startup}-{seq:06}.jsonl.gz`.
pub open spec fn object_name(instance: Seq<char>, startup: Seq<char>, seq: u64) -> Seq<char> {
    instance + "-"@ + startup + "-"@ + text::zero_padded(seq as nat, 6) + ".jsonl.gz"@
}

/// The key of a segment that is closed in the hour `t`.
pub open spec fn object_key(
    prefix: Seq<char>,
    t: ObjectTime,
    instance: Seq<char>,
    startup: Seq<char>,
    seq: u64,
) -> Seq<char> {
    hour_directory(prefix, t) + object_name(instance, startup, seq)
}

/// The key of a segment that is closed in the hour `now`.
pub fn format_object_key(
    prefix: &str,
    now: ObjectTime,
    instance: &str,
    startup: &str,
    seq: u64,
) -> (key: String)
    ensures
        key@ == object_key(prefix@, now, instance@, startup@, seq),
{
    let mut key = trim(prefix, TrimSet::Slash).to_owned();
    key.append("/");
    key.append(to_zero_padded_signed(now.year, 4).as_str());
    key.append("/");
    key.append(to_zero_padded(now.month as u64, 2).as_str());
    key.append("/");
    key.append(to_zero_padded(now.day as u64, 2).as_str());
    key.append("/");
    key.append(to_zero_padded(now.hour as u64, 2).as_str());
    key.append("/");
    let mut name = instance.to_owned();
    name.append("-");
    name.append(startup);
    name.append("-");
    name.append(to_zero_padded(seq, 6).as_str());
    name.append(".jsonl.gz");
    key.append(name.as_str());
    key
}

/// A key says when its segment was closed and whose it is: after the prefix and a
/// slash come the year, the month, the day and the hour as decimal numbers, each
/// with a slash behind it, and then the instance, the startup and the segment number
/// with a `-` between them.
pub proof fn law_a_key_tells_hour_and_writer(
    prefix: Seq<char>,
    t: ObjectTime,
    instance: Seq<char>,
    startup: Seq<char>,
    seq: u64,
) -> (parts: (Seq<char>, Seq<char>, Seq<char>, Seq<char>, Seq<char>))
    ensures
        ({
            let (year, month, day, hour, number) = parts;
            let slash = seq!['/'];
            let dash = seq!['-'];
            &&& text::writes_signed_number(year, t.year as int, 4)
            &&& text::writes_number(month, t.month as int, 2)
            &&& text::writes_number(day, t.day as int, 2)
            &&& text::writes_number(hour, t.hour as int, 2)
            &&& text::writes_number(number, seq as int, 6)
            &&& object_key(prefix, t, instance, startup, seq) == text::trimmed(
                prefix,
                TrimSet::Slash,
            ) + slash + year + slash + month + slash + day + slash + hour + slash + (instance + dash
                + startup + dash + number + seq!['.', 'j', 's', 'o', 'n', 'l', '.', 'g', 'z'])
        }),
{
    reveal_strlit("/");
    reveal_strlit("-");
    reveal_strlit(".jsonl.gz");
    assert("/"@ =~= seq!['/']);
    assert("-"@ =~= seq!['-']);
    assert(".jsonl.gz"@ =~= seq!['.', 'j', 's', 'o', 'n', 'l', '.', 'g', 'z']);
    text::law_signed_numbers_are_written_in_full(t.year as int, 4);
    text::law_numbers_are_written_in_full(t.month as nat, 2);
    text::law_numbers_are_written_in_full(t.day as nat, 2);
    text::law_numbers_are_written_in_full(t.hour as nat, 2);
    text::law_numbers_are_written_in_full(seq as nat, 6);
    (
        text::zero_padded_signed(t.year as int, 4),
        text::zero_padded(t.month as nat, 2),
        text::zero_padded(t.day as nat, 2),
        text::zero_padded(t.hour as nat, 2),
        text::zero_padded(seq as nat, 6),
    )
}

proof fn lemma_split_at_first(a: Seq<char>, x: Seq<char>, b: Seq<char>, y: Seq<char>, sep: char)
    requires
        !a.contains(sep),
        !b.contains(sep),
        a + seq![sep] + x == b + seq![sep] + y,
    ensures
        a == b,
        x == y,
{
    let s = a + seq![sep] + x;
    let t = b + seq![sep] + y;
    assert(s[a.len() as int] == sep);
    assert(t[b.len() as int] == sep);
    if a.len() < b.len() {
        assert(t[a.len() as int] == b[a.len() as int]);
        assert(b.contains(b[a.len() as int]));
    }
    if b.len() < a.len() {
        assert(s[b.len() as int] == a[b.len() as int]);
        assert(a.contains(a[b.len() as int]));
    }
    assert(s.take(a.len() as int) =~= a);
    assert(t.take(b.len() as int) =~= b);
    assert(s.skip(a.len() as int + 1) =~= x);
    assert(t.skip(b.len() as int + 1) =~= y);
}

proof fn lemma_split_at_last(x: Seq<char>, a: Seq<char>, y: Seq<char>, b: Seq<char>, sep: char)
    requires
        !a.contains(sep),
        !b.contains(sep),
        x + seq![sep] + a == y + seq![sep] + b,
    ensures
        a == b,
        x == y,
{
    let s = x + seq![sep] + a;
    let t = y + seq![sep] + b;
    assert(s[x.len() as int] == sep);
    assert(t[y.len() as int] == sep);
    assert(s.len() == x.len() + 1 + a.len());
    assert(t.len() == y.len() + 1 + b.len());
    if x.len() < y.len() {
        assert(s[y.len() as int] == a[y.len() - x.len() - 1]);
        assert(a.contains(a[y.len() - x.len() - 1]));
    }
    if y.len() < x.len() {
        assert(t[x.len() as int] == b[x.len() - y.len() - 1]);
        assert(b.contains(b[x.len() - y.len() - 1]));
    }
    assert(s.take(x.len() as int) =~= x);
    assert(t.take(y.len() as int) =~= y);
    assert(s.skip(x.len() as int + 1) =~= a);
    assert(t.skip(y.len() as int + 1) =~= b);
}

proof fn lemma_names_do_not_collide(
    instance1: Seq<char>,
    startup1: Seq<char>,
    seq1: u64,
    instance2: Seq<char>,
    startup2: Seq<char>,
    seq2: u64,
)
    requires
        startup1.len() == startup2.len(),
        object_name(instance1, startup1, seq1) == object_name(instance2, startup2, seq2),
    ensures
        instance1 == instance2,
        startup1 == startup2,
        seq1 == seq2,
{
    reveal_strlit("-");
    let q1 = text::zero_padded(seq1 as nat, 6);
    let q2 = text::zero_padded(seq2 as nat, 6);
    text::lemma_zero_padded(seq1 as nat, 6);
    text::lemma_zero_padded(seq2 as nat, 6);
    let n1 = object_name(instance1, startup1, seq1);
    let n2 = object_name(instance2, startup2, seq2);
    let w1 = instance1 + "-"@ + startup1;
    let w2 = instance2 + "-"@ + startup2;
    let ext = ".jsonl.gz"@;
    assert(n1.take(n1.len() - ext.len()) =~= w1 + seq!['-'] + q1);
    assert(n2.take(n2.len() - ext.len()) =~= w2 + seq!['-'] + q2);
    lemma_split_at_last(w1, q1, w2, q2, '-');
    assert(w1.skip(w1.len() - startup1.len()) =~= startup1);
    assert(w2.skip(w2.len() - startup2.len()) =~= startup2);
    assert(w1.take(w1.len() - startup1.len() - 1) =~= instance1);
    assert(w2.take(w2.len() - startup2.len() - 1) =~= instance2);
}

/// What follows the prefix and its slash in the key of an object called `name`.
spec fn key_tail(t: ObjectTime, name: Seq<char>) -> Seq<char> {
    let slash = seq!['/'];
    text::zero_padded_signed(t.year as int, 4) + slash + (text::zero_padded(t.month as nat, 2)
        + slash + (text::zero_padded(t.day as nat, 2) + slash + (text::zero_padded(t.hour as nat, 2)
        + slash + name)))
}

/// In a concatenation of four, the last three can be grouped.
proof fn lemma_regroup(a: Seq<char>, b: Seq<char>, c: Seq<char>, d: Seq<char>)
    ensures
        a + b + c + d == a + (b + c + d),
{
    assert(a + b + c + d =~= a + (b + c + d));
}

#[verifier::spinoff_prover]
proof fn lemma_key_tail(prefix: Seq<char>, t: ObjectTime, name: Seq<char>)
    ensures
        (hour_directory(prefix, t) + name).skip(
            text::trimmed(prefix, TrimSet::Slash).len() as int + 1,
        ) == key_tail(t, name),
{
    reveal_strlit("/");
    let slash = seq!['/'];
    assert("/"@ =~= slash);
    let start = text::trimmed(prefix, TrimSet::Slash) + slash;
    let year = text::zero_padded_signed(t.year as int, 4);
    let month = text::zero_padded(t.month as nat, 2);
    let day = text::zero_padded(t.day as nat, 2);
    let hour = text::zero_padded(t.hour as nat, 2);
    let to_month = start + year + slash;
    let to_day = to_month + month + slash;
    let to_hour = to_day + day + slash;
    let below_day = hour + slash + name;
    let below_month = day + slash + below_day;
    let below_year = month + slash + below_month;
    lemma_regroup(to_hour, hour, slash, name);
    lemma_regroup(to_day, day, slash, below_day);
    lemma_regroup(to_month, month, slash, below_month);
    lemma_regroup(start, year, slash, below_year);
    assert(hour_directory(prefix, t) + name == start + key_tail(t, name));
    assert((start + key_tail(t, name)).skip(start.len() as int) =~= key_tail(t, name));
}

proof fn lemma_no_slash(n: int, width: nat)
    ensures
        !text::zero_padded_signed(n, width).contains('/'),
{
    text::lemma_zero_padded_signed(n, width);
}

proof fn lemma_tails_do_not_collide(
    t1: ObjectTime,
    n1: Seq<char>,
    t2: ObjectTime,
    n2: Seq<char>,
)
    requires
        key_tail(t1, n1) == key_tail(t2, n2),
    ensures
        t1 == t2,
        n1 == n2,
{
    let sl = seq!['/'];
    let y1 = text::zero_padded_signed(t1.year as int, 4);
    let y2 = text::zero_padded_signed(t2.year as int, 4);
    let m1 = text::zero_padded_signed(t1.month as int, 2);
    let m2 = text::zero_padded_signed(t2.month as int, 2);
    let d1 = text::zero_padded_signed(t1.day as int, 2);
    let d2 = text::zero_padded_signed(t2.day as int, 2);
    let h1 = text::zero_padded_signed(t1.hour as int, 2);
    let h2 = text::zero_padded_signed(t2.hour as int, 2);
    lemma_no_slash(t1.year as int, 4);
    lemma_no_slash(t2.year as int, 4);
    lemma_no_slash(t1.month as int, 2);
    lemma_no_slash(t2.month as int, 2);
    lemma_no_slash(t1.day as int, 2);
    lemma_no_slash(t2.day as int, 2);
    lemma_no_slash(t1.hour as int, 2);
    lemma_no_slash(t2.hour as int, 2);
    lemma_split_at_first(
        y1,
        m1 + sl + (d1 + sl + (h1 + sl + n1)),
        y2,
        m2 + sl + (d2 + sl + (h2 + sl + n2)),
        '/',
    );
    lemma_split_at_first(m1, d1 + sl + (h1 + sl + n1), m2, d2 + sl + (h2 + sl + n2), '/');
    lemma_split_at_first(d1, h1 + sl + n1, d2, h2 + sl + n2, '/');
    lemma_split_at_first(h1, n1, h2, n2, '/');
    text::lemma_zero_padded_signed_injective(t1.year as int, t2.year as int, 4);
    text::lemma_zero_padded_signed_injective(t1.month as int, t2.month as int, 2);
    text::lemma_zero_padded_signed_injective(t1.day as int, t2.day as int, 2);
    text::lemma_zero_padded_signed_injective(t1.hour as int, t2.hour as int, 2);
}

/// Writers do not overwrite each other's segments: under one prefix, two objects
/// have the same key only if they belong to the same instance, the same startup
/// and the same segment, and were closed in the same hour. It is enough that
/// startup tokens have a fixed length.
pub proof fn law_object_keys_do_not_collide(
    prefix: Seq<char>,
    t1: ObjectTime,
    instance1: Seq<char>,
    startup1: Seq<char>,
    seq1: u64,
    t2: ObjectTime,
    instance2: Seq<char>,
    startup2: Seq<char>,
    seq2: u64,
)
    requires
        startup1.len() == startup2.len(),
        object_key(prefix, t1, instance1, startup1, seq1) == object_key(
            prefix,
            t2,
            instance2,
            startup2,
            seq2,
        ),
    ensures
        t1 == t2,
        instance1 == instance2,
        startup1 == startup2,
        seq1 == seq2,
{
    let n1 = object_name(instance1, startup1, seq1);
    let n2 = object_name(instance2, startup2, seq2);
    lemma_key_tail(prefix, t1, n1);
    lemma_key_tail(prefix, t2, n2);
    lemma_tails_do_not_collide(t1, n1, t2, n2);
    lemma_names_do_not_collide(instance1, startup1, seq1, instance2, startup2, seq2);
}

/// Whatever their prefixes, instances and hours, two objects of different startups
/// never share a key, and neither do two segments of one startup: equal keys mean
/// the same startup and the same segment number. It is enough that startup tokens
/// hold no `-`.
pub proof fn law_startup_and_number_are_in_the_key(
    prefix1: Seq<char>,
    t1: ObjectTime,
    instance1: Seq<char>,
    startup1: Seq<char>,
    seq1: u64,
    prefix2: Seq<char>,
    t2: ObjectTime,
    instance2: Seq<char>,
    startup2: Seq<char>,
    seq2: u64,
)
    requires
        !startup1.contains('-'),
        !startup2.contains('-'),
        object_key(prefix1, t1, instance1, startup1, seq1) == object_key(
            prefix2,
            t2,
            instance2,
            startup2,
            seq2,
        ),
    ensures
        startup1 == startup2,
        seq1 == seq2,
{
    let h1 = hour_directory(prefix1, t1) + instance1;
    let h2 = hour_directory(prefix2, t2) + instance2;
    let q1 = text::zero_padded(seq1 as nat, 6);
    let q2 = text::zero_padded(seq2 as nat, 6);
    text::lemma_zero_padded(seq1 as nat, 6);
    text::lemma_zero_padded(seq2 as nat, 6);
    lemma_key_without_extension(prefix1, t1, instance1, startup1, seq1);
    lemma_key_without_extension(prefix2, t2, instance2, startup2, seq2);
    lemma_split_at_last(h1 + seq!['-'] + startup1, q1, h2 + seq!['-'] + startup2, q2, '-');
    lemma_split_at_last(h1, startup1, h2, startup2, '-');
}

proof fn lemma_key_without_extension(
    prefix: Seq<char>,
    t: ObjectTime,
    instance: Seq<char>,
    startup: Seq<char>,
    seq: u64,
)
    ensures
        ({
            let key = object_key(prefix, t, instance, startup, seq);
            &&& key.len() >= ".jsonl.gz"@.len()
            &&& key.take(key.len() - ".jsonl.gz"@.len()) == hour_directory(prefix, t) + instance
                + seq!['-'] + startup + seq!['-'] + text::zero_padded(seq as nat, 6)
        }),
{
    reveal_strlit("-");
    let key = object_key(prefix, t, instance, startup, seq);
    assert(key.take(key.len() - ".jsonl.gz"@.len()) =~= hour_directory(prefix, t) + instance
        + seq!['-'] + startup + seq!['-'] + text::zero_padded(seq as nat, 6));
}

/// Slashes around a prefix never reach the key.
pub proof fn law_padded_prefix_gives_the_same_key(
    before: Seq<char>,
    prefix: Seq<char>,
    after: Seq<char>,
    t: ObjectTime,
    instance: Seq<char>,
    startup: Seq<char>,
    seq: u64,
)
    requires
        forall|i: int| 0 <= i < before.len() ==> #[trigger] before[i] == '/',
        forall|i: int| 0 <= i < after.len() ==> #[trigger] after[i] == '/',
    ensures
        object_key(before + prefix + after, t, instance, startup, seq) == object_key(
            prefix,
            t,
            instance,
            startup,
            seq,
        ),
{
    text::lemma_trimmed_padding(before, prefix, after, TrimSet::Slash);
}

/// A prefix is joined to the year by exactly one slash: what stands before that
/// slash neither begins nor ends with one.
pub proof fn law_prefix_is_joined_by_one_slash(
    prefix: Seq<char>,
    t: ObjectTime,
    instance: Seq<char>,
    startup: Seq<char>,
    seq: u64,
)
    ensures
        ({
            let key = object_key(prefix, t, instance, startup, seq);
            let n = text::trimmed(prefix, TrimSet::Slash).len() as int;
            &&& n < key.len()
            &&& key.take(n) == text::trimmed(prefix, TrimSet::Slash)
            &&& key[n] == '/'
            &&& key[n + 1] != '/'
            &&& n > 0 ==> key[0] != '/' && key[n - 1] != '/'
        }),
{
    reveal_strlit("/");
    text::lemma_trimmed(prefix, TrimSet::Slash);
    text::lemma_zero_padded_signed(t.year as int, 4);
    let key = object_key(prefix, t, instance, startup, seq);
    let p = text::trimmed(prefix, TrimSet::Slash);
    let y = text::zero_padded_signed(t.year as int, 4);
    assert(key.take(p.len() as int) =~= p);
    assert(key[p.len() as int + 1] == y[0]);
}

} // verus!
