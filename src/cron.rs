use vstd::prelude::*;

verus! {

/// One field of a schedule, as written: `*`, `n`, `a,b,c` or `a-b`.
#[derive(Debug)]
pub enum CronValue {
    /// `*`: every value.
    Every,
    /// A single number.
    Value(u32),
    /// Comma-separated numbers, held in increasing order without repeats.
    List(Vec<u32>),
    /// An inclusive range (start, stop); a start above the stop matches
    /// nothing.
    Range((u32, u32)),
}

/// What a field stands for: the values it accepts.
pub enum Field {
    Any,
    One(u32),
    Among(Set<u32>),
    Between(u32, u32),
}

/// Whether the field `f` accepts the value `n`.
pub open spec fn field_matches(f: Field, n: u32) -> bool {
    match f {
        Field::Any => true,
        Field::One(v) => n == v,
        Field::Among(s) => s.contains(n),
        Field::Between(lo, hi) => lo <= n && n <= hi,
    }
}

/// Every member of `s` lies within `lo..=hi`.
pub open spec fn set_within(s: Set<u32>, lo: u32, hi: u32) -> bool {
    forall|v: u32| s.contains(v) ==> lo <= v && v <= hi
}

/// Every value that the field `f` names lies within `lo..=hi`.
pub open spec fn field_within(f: Field, lo: u32, hi: u32) -> bool {
    match f {
        Field::Any => true,
        Field::One(v) => lo <= v && v <= hi,
        Field::Among(s) => set_within(s, lo, hi),
        Field::Between(a, b) => lo <= a && a <= hi && lo <= b && b <= hi,
    }
}

/// The sequence is in strictly increasing order.
pub open spec fn strictly_increasing(s: Seq<u32>) -> bool {
    forall|i: int, j: int| 0 <= i < j < s.len() ==> s[i] < s[j]
}

impl View for CronValue {
    type V = Field;

    open spec fn view(&self) -> Field {
        match self {
            CronValue::Every => Field::Any,
            CronValue::Value(n) => Field::One(*n),
            CronValue::List(v) => Field::Among(v@.to_set()),
            CronValue::Range((a, b)) => Field::Between(*a, *b),
        }
    }
}

impl CronValue {
    /// A set field holds its numbers in increasing order without repeats.
    pub open spec fn wf(&self) -> bool {
        match self {
            CronValue::List(v) => strictly_increasing(v@),
            _ => true,
        }
    }

    /// Whether this field accepts `value`.
    pub fn compare(&self, value: u32) -> (r: bool)
        requires
            self.wf(),
        ensures
            r == field_matches(self@, value),
    {
        match self {
            CronValue::Every => true,
            CronValue::Value(n) => value == *n,
            CronValue::List(set) => sorted_contains(set, value),
            CronValue::Range((start, end)) => value >= *start && value <= *end,
        }
    }

    /// A copy of this field.
    pub fn duplicate(&self) -> (r: CronValue)
        ensures
            r@ == self@,
            r.wf() == self.wf(),
    {
        match self {
            CronValue::Every => CronValue::Every,
            CronValue::Value(n) => CronValue::Value(*n),
            CronValue::List(set) => {
                let mut copy: Vec<u32> = Vec::new();
                let mut i: usize = 0;
                while i < set.len()
                    invariant
                        i <= set.len(),
                        copy@ == set@.take(i as int),
                    decreases set.len() - i,
                {
                    copy.push(set[i]);
                    i += 1;
                    assert(copy@ =~= set@.take(i as int));
                }
                assert(set@.take(set.len() as int) =~= set@);
                CronValue::List(copy)
            },
            CronValue::Range((a, b)) => CronValue::Range((*a, *b)),
        }
    }
}

/// Whether `value` occurs in the increasing sequence `set`, by bisection.
fn sorted_contains(set: &Vec<u32>, value: u32) -> (r: bool)
    requires
        strictly_increasing(set@),
    ensures
        r == set@.contains(value),
{
    let mut lo: usize = 0;
    let mut hi: usize = set.len();
    while lo < hi
        invariant
            lo <= hi <= set.len(),
            strictly_increasing(set@),
            forall|k: int| 0 <= k < lo ==> set@[k] < value,
            forall|k: int| hi <= k < set.len() ==> set@[k] > value,
        decreases hi - lo,
    {
        let mid = lo + (hi - lo) / 2;
        if set[mid] == value {
            assert(set@[mid as int] == value);
            return true;
        } else if set[mid] < value {
            lo = mid + 1;
        } else {
            hi = mid;
        }
    }
    assert forall|k: int| 0 <= k < set@.len() implies set@[k] != value by {}
    false
}

/// A list of numbers keeps to `lo..=hi` when each of its entries does.
pub proof fn lemma_among_within(q: Seq<u32>, lo: u32, hi: u32)
    ensures
        field_within(Field::Among(q.to_set()), lo, hi) <==> forall|k: int|
            0 <= k < q.len() ==> lo <= #[trigger] q[k] <= hi,
{
    if forall|k: int| 0 <= k < q.len() ==> lo <= #[trigger] q[k] <= hi {
        assert forall|x: u32| q.to_set().contains(x) implies lo <= x && x <= hi by {
            let k = choose|k: int| 0 <= k < q.len() && #[trigger] q[k] == x;
        }
    } else {
        let k = choose|k: int| 0 <= k < q.len() && !(lo <= #[trigger] q[k] <= hi);
        let x = q[k];
        assert(q.to_set().contains(x));
    }
}

/// The bounds `lo..=hi` that the values of one field must keep to.
#[derive(Debug, Clone, Copy)]
pub struct CronRange(pub u32, pub u32);

impl CronRange {
    /// Accepts `v` when each value it names lies within this range;
    /// otherwise reports `v` and the range.
    pub fn validate(&self, v: &CronValue) -> (r: Result<(), CronParseError>)
        ensures
            r is Ok <==> field_within(v@, self.0, self.1),
            r matches Err(e) ==> e@ == CronErrorView::OutOfRange(v@, self.0, self.1),
    {
        let ok = match v {
            CronValue::Every => true,
            CronValue::Value(n) => *n >= self.0 && *n <= self.1,
            CronValue::Range((n1, n2)) => *n1 >= self.0 && *n1 <= self.1 && *n2 >= self.0 && *n2
                <= self.1,
            CronValue::List(s) => {
                let mut all = true;
                let mut i: usize = 0;
                while i < s.len()
                    invariant
                        i <= s.len(),
                        all <==> forall|k: int| 0 <= k < i ==> self.0 <= #[trigger] s@[k] <= self.1,
                    decreases s.len() - i,
                {
                    if s[i] < self.0 || s[i] > self.1 {
                        all = false;
                    }
                    i += 1;
                }
                proof {
                    lemma_among_within(s@, self.0, self.1);
                }
                all
            },
        };
        if ok {
            Ok(())
        } else {
            Err(CronParseError::OutOfRange(Box::new(v.duplicate()), Box::new(*self)))
        }
    }
}

/// Why a number did not parse, as `u32::from_str` reports it.
#[derive(Debug, Clone, Copy, PartialEq, Eq, Structural)]
pub enum IntErrorKind {
    /// The text is empty.
    Empty,
    /// A character is not a decimal digit, or a sign stands alone.
    InvalidDigit,
    /// The value does not fit in a `u32`.
    PosOverflow,
}

/// Why a schedule did not parse.
#[derive(Debug)]
pub enum CronParseError {
    MalformedTokens(String),
    ParseIntError(IntErrorKind),
    OutOfRange(Box<CronValue>, Box<CronRange>),
    SyntaxError(String),
}

/// A schedule error, over plain values.
pub enum CronErrorView {
    MalformedTokens(Seq<char>),
    ParseInt(IntErrorKind),
    OutOfRange(Field, u32, u32),
    Syntax(Seq<char>),
}

impl View for CronParseError {
    type V = CronErrorView;

    open spec fn view(&self) -> CronErrorView {
        match self {
            CronParseError::MalformedTokens(m) => CronErrorView::MalformedTokens(m@),
            CronParseError::ParseIntError(k) => CronErrorView::ParseInt(*k),
            CronParseError::OutOfRange(v, r) => CronErrorView::OutOfRange((**v)@, r.0, r.1),
            CronParseError::SyntaxError(m) => CronErrorView::Syntax(m@),
        }
    }
}

/// A point in local time, as far as a schedule reads it.
#[derive(Debug, Clone, Copy, PartialEq, Eq, Structural)]
pub struct Moment {
    /// 0 to 59.
    pub minute: u32,
    /// 0 to 23.
    pub hour: u32,
    /// Day of the month, 1 to 31.
    pub day: u32,
    /// 1 to 12.
    pub month: u32,
    /// Day of the week counted from Monday: 1 for Monday to 7 for Sunday.
    pub weekday: u32,
}

impl Moment {
    pub open spec fn wf(&self) -> bool {
        self.minute < 60 && self.hour < 24 && 1 <= self.day <= 31 && 1 <= self.month <= 12 && 1
            <= self.weekday <= 7
    }
}

/// What a schedule stands for.
pub struct IntervalView {
    pub minute: Field,
    pub hour: Field,
    pub day: Field,
    pub month: Field,
    pub weekday: Field,
    pub startup: bool,
}

/// Whether the weekday field `f` accepts the day `weekday` (1 for Monday to
/// 7 for Sunday): Sunday is accepted as 0 and as 7.
pub open spec fn weekday_matches(f: Field, weekday: u32) -> bool {
    field_matches(f, (weekday % 7) as u32) || field_matches(f, weekday)
}

/// Whether a schedule is due at `m`. Minute, hour and month must each match.
/// Where the day of the month or the weekday is `*`, both must match;
/// where both are given, either one is enough.
pub open spec fn interval_matches(iv: IntervalView, m: Moment) -> bool {
    &&& field_matches(iv.minute, m.minute)
    &&& field_matches(iv.hour, m.hour)
    &&& field_matches(iv.month, m.month)
    &&& if iv.day is Any || iv.weekday is Any {
        field_matches(iv.day, m.day) && weekday_matches(iv.weekday, m.weekday)
    } else {
        field_matches(iv.day, m.day) || weekday_matches(iv.weekday, m.weekday)
    }
}

/// A five-field schedule with a flag to run at start-up.
#[derive(Debug)]
pub struct CronInterval {
    pub minute: CronValue,
    pub hour: CronValue,
    /// Day of the month.
    pub day: CronValue,
    pub month: CronValue,
    pub weekday: CronValue,
    /// Whether the event also runs once when the scheduler starts.
    pub startup: bool,
}

impl View for CronInterval {
    type V = IntervalView;

    open spec fn view(&self) -> IntervalView {
        IntervalView {
            minute: self.minute@,
            hour: self.hour@,
            day: self.day@,
            month: self.month@,
            weekday: self.weekday@,
            startup: self.startup,
        }
    }
}

/// Every field keeps to its bounds: minute 0-59, hour 0-23, day 1-31,
/// month 1-12, weekday 0-7.
pub open spec fn interval_within(iv: IntervalView) -> bool {
    &&& field_within(iv.minute, 0, 59)
    &&& field_within(iv.hour, 0, 23)
    &&& field_within(iv.day, 1, 31)
    &&& field_within(iv.month, 1, 12)
    &&& field_within(iv.weekday, 0, 7)
}

impl CronInterval {
    /// Sets are in order and every field keeps to its bounds.
    pub open spec fn wf(&self) -> bool {
        &&& self.minute.wf()
        &&& self.hour.wf()
        &&& self.day.wf()
        &&& self.month.wf()
        &&& self.weekday.wf()
        &&& interval_within(self@)
    }

    /// Whether this schedule is due at `now`.
    pub fn match_time(&self, now: &Moment) -> (r: bool)
        requires
            self.minute.wf(),
            self.hour.wf(),
            self.day.wf(),
            self.month.wf(),
            self.weekday.wf(),
        ensures
            r == interval_matches(self@, *now),
    {
        let weekday = self.weekday.compare(now.weekday % 7) || self.weekday.compare(now.weekday);
        let either_every = matches!(self.day, CronValue::Every) || matches!(
            self.weekday,
            CronValue::Every
        );
        let days = if either_every {
            self.day.compare(now.day) && weekday
        } else {
            self.day.compare(now.day) || weekday
        };
        self.minute.compare(now.minute) && self.hour.compare(now.hour) && self.month.compare(
            now.month,
        ) && days
    }

    pub fn minute_range() -> (r: CronRange)
        ensures
            r.0 == 0 && r.1 == 59,
    {
        CronRange(0, 59)
    }

    pub fn hour_range() -> (r: CronRange)
        ensures
            r.0 == 0 && r.1 == 23,
    {
        CronRange(0, 23)
    }

    pub fn day_range() -> (r: CronRange)
        ensures
            r.0 == 1 && r.1 == 31,
    {
        CronRange(1, 31)
    }

    pub fn month_range() -> (r: CronRange)
        ensures
            r.0 == 1 && r.1 == 12,
    {
        CronRange(1, 12)
    }

    pub fn weekday_range() -> (r: CronRange)
        ensures
            r.0 == 0 && r.1 == 7,
    {
        CronRange(0, 7)
    }
}

/// Sunday may be written 0 or 7: on a weekday counted from Monday (1 to
/// 7), each of the two fields accepts Sunday and no other day.
pub proof fn lemma_sunday_both_ways(weekday: u32)
    requires
        1 <= weekday <= 7,
    ensures
        weekday_matches(Field::One(0), weekday) <==> weekday == 7,
        weekday_matches(Field::One(7), weekday) <==> weekday == 7,
{
}

} // verus!
