use vstd::prelude::*;

use crate::cron::{
    field_within, strictly_increasing, CronErrorView, CronInterval, CronParseError, CronRange,
    CronValue, Field, IntErrorKind, IntervalView, Moment, interval_matches, field_matches,
};
use crate::text::{
    chars_of, has_char, push_str, same_chars, split_chars, split_spec, string_from_chars, trim_chars,
    trim_spec, views,
};

verus! {

pub open spec fn is_digit(c: char) -> bool {
    '0' <= c && c <= '9'
}

pub open spec fn digit_value(c: char) -> int {
    (c as u32) - ('0' as u32)
}

/// The value of a run of decimal digits, read from the left: the first
/// character that is no digit, or the first step past `u32::MAX`, ends it.
pub open spec fn digits_spec(s: Seq<char>) -> Result<u32, IntErrorKind>
    decreases s.len(),
{
    if s.len() == 0 {
        Ok(0)
    } else {
        match digits_spec(s.drop_last()) {
            Err(e) => Err(e),
            Ok(v) => {
                let c = s.last();
                if !is_digit(c) {
                    Err(IntErrorKind::InvalidDigit)
                } else if v * 10 + digit_value(c) > u32::MAX {
                    Err(IntErrorKind::PosOverflow)
                } else {
                    Ok((v * 10 + digit_value(c)) as u32)
                }
            },
        }
    }
}

/// A decimal `u32` with an optional leading `+`, as `u32::from_str` reads it.
pub open spec fn parse_u32_spec(s: Seq<char>) -> Result<u32, IntErrorKind> {
    if s.len() == 0 {
        Err(IntErrorKind::Empty)
    } else if s.len() == 1 && (s[0] == '+' || s[0] == '-') {
        Err(IntErrorKind::InvalidDigit)
    } else if s[0] == '+' {
        digits_spec(s.drop_first())
    } else {
        digits_spec(s)
    }
}

/// Each piece read as a number, in order; the first piece that fails decides
/// the error.
pub open spec fn parse_all_spec(ps: Seq<Seq<char>>) -> Result<Seq<u32>, IntErrorKind>
    decreases ps.len(),
{
    if ps.len() == 0 {
        Ok(Seq::empty())
    } else {
        match parse_all_spec(ps.drop_last()) {
            Err(e) => Err(e),
            Ok(ns) => match parse_u32_spec(ps.last()) {
                Err(e) => Err(e),
                Ok(n) => Ok(ns.push(n)),
            },
        }
    }
}

/// What one schedule field reads as: `*`; a list, when the text holds a
/// comma; a range of exactly two numbers, when it holds a dash; or else one
/// number.
pub open spec fn field_spec(s: Seq<char>) -> Result<Field, CronErrorView> {
    if s == seq!['*'] {
        Ok(Field::Any)
    } else if s.contains(',') {
        match parse_all_spec(split_spec(s, ',', None)) {
            Ok(ns) => Ok(Field::Among(ns.to_set())),
            Err(k) => Err(CronErrorView::ParseInt(k)),
        }
    } else if s.contains('-') {
        let ps = split_spec(s, '-', None);
        if ps.len() != 2 {
            Err(CronErrorView::MalformedTokens("Invalid cron range"@))
        } else {
            match parse_u32_spec(ps[0]) {
                Err(k) => Err(CronErrorView::ParseInt(k)),
                Ok(a) => match parse_u32_spec(ps[1]) {
                    Err(k) => Err(CronErrorView::ParseInt(k)),
                    Ok(b) => Ok(Field::Between(a, b)),
                },
            }
        }
    } else {
        match parse_u32_spec(s) {
            Ok(n) => Ok(Field::One(n)),
            Err(k) => Err(CronErrorView::ParseInt(k)),
        }
    }
}

/// A field read and held to the bounds `lo..=hi`.
pub open spec fn checked_field_spec(s: Seq<char>, lo: u32, hi: u32) -> Result<
    Field,
    CronErrorView,
> {
    match field_spec(s) {
        Err(e) => Err(e),
        Ok(f) => if field_within(f, lo, hi) {
            Ok(f)
        } else {
            Err(CronErrorView::OutOfRange(f, lo, hi))
        },
    }
}

pub open spec fn digit_char(n: nat) -> char {
    if n == 0 {
        '0'
    } else if n == 1 {
        '1'
    } else if n == 2 {
        '2'
    } else if n == 3 {
        '3'
    } else {
        '4'
    }
}

/// The message for a schedule `s` of `n` fields, fewer than five.
pub open spec fn count_message(s: Seq<char>, n: nat) -> Seq<char> {
    s + " - unexpected number of cron values (expected 5, received "@ + seq![digit_char(n)]
        + ")"@
}

/// The message for a schedule `s` whose text after the five fields is
/// neither blank nor `@startup`.
pub open spec fn trailing_message(s: Seq<char>) -> Seq<char> {
    s + " - unexpected text after the cron values (expected @startup)"@
}

/// What a schedule text reads as: five fields split on single spaces, read
/// and checked from minute to weekday, the first failure deciding the error;
/// what follows the fifth field is either blank, or `@startup` with white
/// space around it, which sets the start-up flag; anything else there is an
/// error.
pub open spec fn interval_spec(s: Seq<char>) -> Result<IntervalView, CronErrorView> {
    let ps = split_spec(s, ' ', Some(6));
    if ps.len() < 5 {
        Err(CronErrorView::Syntax(count_message(s, ps.len())))
    } else {
        match checked_field_spec(ps[0], 0, 59) {
            Err(e) => Err(e),
            Ok(minute) => match checked_field_spec(ps[1], 0, 23) {
                Err(e) => Err(e),
                Ok(hour) => match checked_field_spec(ps[2], 1, 31) {
                    Err(e) => Err(e),
                    Ok(day) => match checked_field_spec(ps[3], 1, 12) {
                        Err(e) => Err(e),
                        Ok(month) => match checked_field_spec(ps[4], 0, 7) {
                            Err(e) => Err(e),
                            Ok(weekday) => if ps.len() == 6 && trim_spec(ps[5]).len() > 0
                                && trim_spec(ps[5]) != "@startup"@ {
                                Err(CronErrorView::Syntax(trailing_message(s)))
                            } else {
                                Ok(
                                    IntervalView {
                                        minute,
                                        hour,
                                        day,
                                        month,
                                        weekday,
                                        startup: ps.len() == 6 && trim_spec(ps[5]) == "@startup"@,
                                    },
                                )
                            },
                        },
                    },
                },
            },
        }
    }
}

/// Reads `s` as a decimal `u32`, as `u32::from_str` does.
pub fn parse_u32(s: &Vec<char>) -> (r: Result<u32, IntErrorKind>)
    ensures
        r == parse_u32_spec(s@),
{
    if s.len() == 0 {
        return Err(IntErrorKind::Empty);
    }
    if s.len() == 1 && (s[0] == '+' || s[0] == '-') {
        return Err(IntErrorKind::InvalidDigit);
    }
    let start: usize = if s[0] == '+' {
        1
    } else {
        0
    };
    let ghost digits = s@.skip(start as int);
    assert(start == 1 ==> digits =~= s@.drop_first());
    assert(start == 0 ==> digits =~= s@);
    assert(parse_u32_spec(s@) == digits_spec(digits));
    let mut acc: u32 = 0;
    let mut i: usize = start;
    assert(digits.take(0) =~= Seq::<char>::empty());
    while i < s.len()
        invariant
            start <= i <= s.len(),
            digits == s@.skip(start as int),
            parse_u32_spec(s@) == digits_spec(digits),
            digits_spec(digits.take(i - start)) == Ok::<u32, IntErrorKind>(acc),
        decreases s.len() - i,
    {
        let c = s[i];
        assert(digits.take(i - start + 1).drop_last() =~= digits.take(i - start));
        assert(digits.take(i - start + 1).last() == c);
        if !('0' <= c && c <= '9') {
            proof {
                lemma_digits_error_stays(digits, (i - start + 1) as nat);
            }
            return Err(IntErrorKind::InvalidDigit);
        }
        let d: u32 = (c as u32) - ('0' as u32);
        if (acc as u64) * 10 + (d as u64) > u32::MAX as u64 {
            proof {
                lemma_digits_error_stays(digits, (i - start + 1) as nat);
            }
            return Err(IntErrorKind::PosOverflow);
        }
        acc = acc * 10 + d;
        i += 1;
    }
    assert(digits.take(i - start) =~= digits);
    Ok(acc)
}

/// Once a prefix of the digits fails, the whole run fails the same way.
proof fn lemma_digits_error_stays(s: Seq<char>, n: nat)
    requires
        n <= s.len(),
        digits_spec(s.take(n as int)) is Err,
    ensures
        digits_spec(s) == digits_spec(s.take(n as int)),
    decreases s.len() - n,
{
    if n < s.len() {
        assert(s.take(n + 1 as int).drop_last() =~= s.take(n as int));
        lemma_digits_error_stays(s, n + 1);
    } else {
        assert(s.take(n as int) =~= s);
    }
}

/// Once a prefix of the pieces fails, the whole list fails the same way.
proof fn lemma_parse_all_error_stays(ps: Seq<Seq<char>>, n: nat)
    requires
        n <= ps.len(),
        parse_all_spec(ps.take(n as int)) is Err,
    ensures
        parse_all_spec(ps) == parse_all_spec(ps.take(n as int)),
    decreases ps.len() - n,
{
    if n < ps.len() {
        assert(ps.take(n + 1 as int).drop_last() =~= ps.take(n as int));
        lemma_parse_all_error_stays(ps, n + 1);
    } else {
        assert(ps.take(n as int) =~= ps);
    }
}

/// Reads each piece as a number, stopping at the first that fails.
fn parse_list(pieces: &Vec<Vec<char>>) -> (r: Result<Vec<u32>, IntErrorKind>)
    ensures
        match r {
            Ok(v) => parse_all_spec(views(pieces@)) == Ok::<Seq<u32>, IntErrorKind>(v@),
            Err(k) => parse_all_spec(views(pieces@)) == Err::<Seq<u32>, IntErrorKind>(k),
        },
{
    let ghost ps = views(pieces@);
    let mut out: Vec<u32> = Vec::new();
    let mut i: usize = 0;
    assert(ps.take(0) =~= Seq::<Seq<char>>::empty());
    while i < pieces.len()
        invariant
            i <= pieces.len(),
            ps == views(pieces@),
            ps.len() == pieces@.len(),
            parse_all_spec(ps.take(i as int)) == Ok::<Seq<u32>, IntErrorKind>(out@),
        decreases pieces.len() - i,
    {
        assert(ps.take(i + 1).drop_last() =~= ps.take(i as int));
        assert(ps.take(i + 1).last() == pieces@[i as int]@);
        match parse_u32(&pieces[i]) {
            Ok(n) => {
                out.push(n);
            },
            Err(k) => {
                proof {
                    lemma_parse_all_error_stays(ps, (i + 1) as nat);
                }
                return Err(k);
            },
        }
        i += 1;
    }
    assert(ps.take(pieces.len() as int) =~= ps);
    Ok(out)
}

/// Adds `x` to an increasing list, keeping it increasing and free of repeats.
fn insert_sorted(v: &mut Vec<u32>, x: u32)
    requires
        strictly_increasing(old(v)@),
    ensures
        strictly_increasing(final(v)@),
        final(v)@.to_set() == old(v)@.to_set().insert(x),
{
    let mut i: usize = 0;
    while i < v.len() && v[i] < x
        invariant
            i <= v.len(),
            forall|k: int| 0 <= k < i ==> v@[k] < x,
        decreases v.len() - i,
    {
        i += 1;
    }
    if i < v.len() && v[i] == x {
        assert(v@.to_set() =~= v@.to_set().insert(x)) by {
            assert(v@.contains(v@[i as int]));
        }
        return;
    }
    let ghost before = v@;
    v.insert(i, x);
    proof {
        before.insert_ensures(i as int, x);
        assert forall|y: u32| v@.contains(y) implies before.contains(y) || y == x by {
            let k = choose|k: int| 0 <= k < v@.len() && v@[k] == y;
            if k < i {
                assert(before[k] == y);
            } else if k > i {
                assert(before[k - 1] == y);
            }
        }
        assert forall|y: u32| before.contains(y) implies v@.contains(y) by {
            let k = choose|k: int| 0 <= k < before.len() && before[k] == y;
            if k < i {
                assert(v@[k] == y);
            } else {
                assert(v@[k + 1] == y);
            }
        }
        assert(v@[i as int] == x);
        assert(v@.contains(x));
        assert(v@.to_set() =~= before.to_set().insert(x));
    }
}

/// The numbers of `ns` in increasing order, each once.
fn sorted_unique(ns: &Vec<u32>) -> (r: Vec<u32>)
    ensures
        strictly_increasing(r@),
        r@.to_set() == ns@.to_set(),
{
    let mut r: Vec<u32> = Vec::new();
    let mut i: usize = 0;
    assert(ns@.take(0).to_set() =~= Set::<u32>::empty());
    assert(r@.to_set() =~= Set::<u32>::empty());
    while i < ns.len()
        invariant
            i <= ns.len(),
            strictly_increasing(r@),
            r@.to_set() == ns@.take(i as int).to_set(),
        decreases ns.len() - i,
    {
        insert_sorted(&mut r, ns[i]);
        assert(ns@.take(i + 1) =~= ns@.take(i as int).push(ns@[i as int]));
        proof {
            ns@.take(i as int).lemma_push_to_set_commute(ns@[i as int]);
        }
        i += 1;
    }
    assert(ns@.take(ns.len() as int) =~= ns@);
    r
}

impl CronValue {
    /// Reads one schedule field.
    pub fn from_str(s: &str) -> (r: Result<CronValue, CronParseError>)
        ensures
            match r {
                Ok(v) => v.wf() && field_spec(s@) == Ok::<Field, CronErrorView>(v@),
                Err(e) => field_spec(s@) == Err::<Field, CronErrorView>(e@),
            },
    {
        parse_value(&chars_of(s))
    }
}

/// Reads one schedule field from its characters.
pub fn parse_value(s: &Vec<char>) -> (r: Result<CronValue, CronParseError>)
    ensures
        match r {
            Ok(v) => v.wf() && field_spec(s@) == Ok::<Field, CronErrorView>(v@),
            Err(e) => field_spec(s@) == Err::<Field, CronErrorView>(e@),
        },
{
    if s.len() == 1 && s[0] == '*' {
        assert(s@ =~= seq!['*']);
        return Ok(CronValue::Every);
    }
    assert(s@ != seq!['*']);
    if has_char(s, ',') {
        let pieces = split_chars(s, ',', None);
        match parse_list(&pieces) {
            Ok(ns) => Ok(CronValue::List(sorted_unique(&ns))),
            Err(k) => Err(CronParseError::ParseIntError(k)),
        }
    } else if has_char(s, '-') {
        let pieces = split_chars(s, '-', None);
        if pieces.len() != 2 {
            return Err(CronParseError::MalformedTokens("Invalid cron range".to_owned()));
        }
        assert(views(pieces@)[0] == pieces@[0]@);
        assert(views(pieces@)[1] == pieces@[1]@);
        match parse_u32(&pieces[0]) {
            Err(k) => Err(CronParseError::ParseIntError(k)),
            Ok(a) => match parse_u32(&pieces[1]) {
                Err(k) => Err(CronParseError::ParseIntError(k)),
                Ok(b) => Ok(CronValue::Range((a, b))),
            },
        }
    } else {
        match parse_u32(s) {
            Ok(n) => Ok(CronValue::Value(n)),
            Err(k) => Err(CronParseError::ParseIntError(k)),
        }
    }
}

/// Reads one field and holds it to `range`.
fn parse_checked(s: &Vec<char>, range: CronRange) -> (r: Result<CronValue, CronParseError>)
    ensures
        match r {
            Ok(v) => v.wf() && checked_field_spec(s@, range.0, range.1) == Ok::<
                Field,
                CronErrorView,
            >(v@),
            Err(e) => checked_field_spec(s@, range.0, range.1) == Err::<Field, CronErrorView>(
                e@,
            ),
        },
{
    let v = parse_value(s)?;
    range.validate(&v)?;
    Ok(v)
}

fn digit_char_exec(n: usize) -> (c: char)
    requires
        n < 5,
    ensures
        c == digit_char(n as nat),
{
    if n == 0 {
        '0'
    } else if n == 1 {
        '1'
    } else if n == 2 {
        '2'
    } else if n == 3 {
        '3'
    } else {
        '4'
    }
}

impl CronInterval {
    /// Reads a schedule: five fields split on single spaces, each held to
    /// its bounds, and an optional `@startup` after them, white space around
    /// it allowed.
    pub fn from_str(s: &str) -> (r: Result<CronInterval, CronParseError>)
        ensures
            match r {
                Ok(iv) => iv.wf() && interval_spec(s@) == Ok::<IntervalView, CronErrorView>(iv@),
                Err(e) => interval_spec(s@) == Err::<IntervalView, CronErrorView>(e@),
            },
    {
        parse_interval(&chars_of(s))
    }
}

/// Reads a schedule from its characters.
pub fn parse_interval(s: &Vec<char>) -> (r: Result<CronInterval, CronParseError>)
    ensures
        match r {
            Ok(iv) => iv.wf() && interval_spec(s@) == Ok::<IntervalView, CronErrorView>(iv@),
            Err(e) => interval_spec(s@) == Err::<IntervalView, CronErrorView>(e@),
        },
{
    let values = split_chars(s, ' ', Some(6));
    let ghost ps = views(values@);
    if values.len() < 5 {
        proof {
            crate::text::lemma_split_nonempty(s@, ' ', Some(6nat));
        }
        let mut msg = s.clone();
        assert(msg@ == s@);
        let tail = chars_of(" - unexpected number of cron values (expected 5, received ");
        let mut k: usize = 0;
        while k < tail.len()
            invariant
                k <= tail.len(),
                msg@ == s@ + tail@.take(k as int),
            decreases tail.len() - k,
        {
            msg.push(tail[k]);
            k += 1;
            assert(msg@ =~= s@ + tail@.take(k as int));
        }
        assert(tail@.take(tail.len() as int) =~= tail@);
        msg.push(digit_char_exec(values.len()));
        msg.push(')');
        proof {
            reveal_strlit(")");
        }
        assert(msg@ =~= count_message(s@, values@.len() as nat));
        return Err(CronParseError::SyntaxError(string_from_chars(&msg)));
    }
    assert(ps[0] == values@[0]@ && ps[1] == values@[1]@ && ps[2] == values@[2]@ && ps[3]
        == values@[3]@ && ps[4] == values@[4]@);
    let minute = parse_checked(&values[0], CronInterval::minute_range())?;
    let hour = parse_checked(&values[1], CronInterval::hour_range())?;
    let day = parse_checked(&values[2], CronInterval::day_range())?;
    let month = parse_checked(&values[3], CronInterval::month_range())?;
    let weekday = parse_checked(&values[4], CronInterval::weekday_range())?;
    let startup = if values.len() == 6 {
        assert(ps[5] == values@[5]@);
        let token = trim_chars(&values[5]);
        assert(token@ == trim_spec(ps[5]));
        if token.len() == 0 {
            assert(trim_spec(ps[5]).len() == 0);
            assert(trim_spec(ps[5]) != "@startup"@) by {
                reveal_strlit("@startup");
            }
            false
        } else if same_chars(&token, &chars_of("@startup")) {
            true
        } else {
            let mut msg = s.clone();
            push_str(&mut msg, " - unexpected text after the cron values (expected @startup)");
            return Err(CronParseError::SyntaxError(string_from_chars(&msg)));
        }
    } else {
        false
    };
    Ok(CronInterval { minute, hour, day, month, weekday, startup })
}

} // verus!

verus! {

/// A text without `sep` is one piece.
pub proof fn lemma_split_whole(s: Seq<char>, sep: char, limit: Option<nat>)
    requires
        !s.contains(sep),
    ensures
        split_spec(s, sep, limit) == seq![s],
    decreases s.len(),
{
    if s.len() > 0 {
        assert(!s.drop_last().contains(sep)) by {
            if s.drop_last().contains(sep) {
                let k = choose|k: int| 0 <= k < s.drop_last().len() && s.drop_last()[k] == sep;
                assert(s[k] == sep);
            }
        }
        lemma_split_whole(s.drop_last(), sep, limit);
        assert(s.last() != sep) by {
            assert(s[s.len() - 1] == s.last());
        }
        assert(s.drop_last().push(s.last()) =~= s);
        assert(seq![s.drop_last()].drop_last().push(s.drop_last().push(s.last())) =~= seq![s]);
    } else {
        assert(s =~= Seq::<char>::empty());
    }
}

/// The schedule `* * * * *` is due at every moment.
pub proof fn lemma_every_minute_always_due(m: Moment)
    ensures
        interval_spec("* * * * *"@) matches Ok(iv) && interval_matches(iv, m),
{
    reveal_strlit("* * * * *");
    let s = "* * * * *"@;
    let star = seq!['*'];
    assert(s =~= star + seq![' '] + star + seq![' '] + star + seq![' '] + star + seq![' '] + star);
    reveal_with_fuel(split_spec, 10);
    assert(split_spec(s, ' ', Some(6)) =~= seq![star, star, star, star, star]);
}

/// A lone digit reads as its value.
proof fn lemma_digit_field(c: char)
    requires
        '0' <= c <= '9',
    ensures
        field_spec(seq![c]) == Ok::<Field, CronErrorView>(Field::One(((c as u32) - ('0' as u32)) as u32)),
{
    let s = seq![c];
    assert(!s.contains(',')) by {
        if s.contains(',') {
            let k = choose|k: int| 0 <= k < s.len() && s[k] == ',';
        }
    }
    assert(!s.contains('-')) by {
        if s.contains('-') {
            let k = choose|k: int| 0 <= k < s.len() && s[k] == '-';
        }
    }
    assert(s.drop_last() =~= Seq::<char>::empty());
    assert(s != seq!['*']) by {
        assert(s[0] != '*');
    }
    assert(s.last() == c);
    reveal_with_fuel(digits_spec, 2);
    assert(digits_spec(s) == Ok::<u32, IntErrorKind>(((c as u32) - ('0' as u32)) as u32));
}

/// The schedule `0 0 1 1 *` is due exactly at midnight on the first of
/// January, whatever the weekday.
pub proof fn lemma_new_year_midnight(m: Moment)
    ensures
        interval_spec("0 0 1 1 *"@) matches Ok(iv) && (interval_matches(iv, m) <==> (m.minute == 0
            && m.hour == 0 && m.day == 1 && m.month == 1)),
{
    reveal_strlit("0 0 1 1 *");
    let s = "0 0 1 1 *"@;
    let zero = seq!['0'];
    let one = seq!['1'];
    let star = seq!['*'];
    assert(s =~= zero + seq![' '] + zero + seq![' '] + one + seq![' '] + one + seq![' '] + star);
    reveal_with_fuel(split_spec, 10);
    assert(split_spec(s, ' ', Some(6)) =~= seq![zero, zero, one, one, star]);
    lemma_digit_field('0');
    lemma_digit_field('1');
}

/// A range whose start lies above its stop accepts no value.
pub proof fn lemma_inverted_range_never_matches(a: u32, b: u32, n: u32)
    requires
        a > b,
    ensures
        !field_matches(Field::Between(a, b), n),
{
}

/// The field `10-5` is accepted, as a range, within the minute bounds, and
/// accepts no minute.
pub proof fn lemma_ten_to_five(n: u32)
    ensures
        checked_field_spec("10-5"@, 0, 59) == Ok::<Field, CronErrorView>(Field::Between(10, 5)),
        !field_matches(Field::Between(10, 5), n),
{
    reveal_strlit("10-5");
    let s = "10-5"@;
    let ten = seq!['1', '0'];
    let five = seq!['5'];
    assert(s =~= ten + seq!['-'] + five);
    assert(s != seq!['*']) by {
        assert(s.len() != 1);
    }
    assert(!s.contains(',')) by {
        if s.contains(',') {
            let k = choose|k: int| 0 <= k < s.len() && s[k] == ',';
        }
    }
    assert(s.contains('-')) by {
        assert(s[2] == '-');
    }
    assert(s.drop_last() =~= seq!['1', '0', '-']);
    assert(s.drop_last().drop_last() =~= seq!['1', '0']);
    assert(s.drop_last().drop_last().drop_last() =~= seq!['1']);
    assert(seq!['1'].drop_last() =~= Seq::<char>::empty());
    reveal_with_fuel(split_spec, 6);
    assert(!ten.contains('-')) by {
        if ten.contains('-') {
            let k = choose|k: int| 0 <= k < ten.len() && ten[k] == '-';
        }
    }
    lemma_split_whole(ten, '-', None);
    assert(split_spec(seq!['1', '0', '-'], '-', None) =~= seq![ten, Seq::<char>::empty()]);
    assert(split_spec(s, '-', None) =~= seq![ten, five]);
    reveal_with_fuel(digits_spec, 3);
    assert(ten.drop_last() =~= seq!['1']);
    assert(seq!['1'].drop_last() =~= Seq::<char>::empty());
    assert(five.drop_last() =~= Seq::<char>::empty());
    assert(parse_u32_spec(ten) == Ok::<u32, IntErrorKind>(10));
    assert(parse_u32_spec(five) == Ok::<u32, IntErrorKind>(5));
}

} // verus!
