use vstd::prelude::*;

use crate::cron::{CronErrorView, CronInterval, CronParseError, IntervalView};
use crate::cron_parse::{interval_spec, lemma_split_whole, parse_interval};
use crate::text::{
    chars_of, extend, remove_char, remove_spec, split_chars, split_spec, string_from_chars,
    string_views, trim_chars, trim_spec, views,
};

verus! {

/// Why an event file did not load.
#[derive(Debug)]
pub enum EventParseError {
    /// An event's schedule did not parse.
    CronParseError(CronParseError),
    /// The file ended inside an event that lacks its schedule or its body.
    SyntaxError(String),
    /// The database rejected a statement when asked to prepare it.
    SQLError { statement: String, reason: String },
}

/// An event file error, over plain values.
pub enum EventErrorView {
    Cron(CronErrorView),
    Syntax(Seq<char>),
    Sql(Seq<char>, Seq<char>),
}

impl View for EventParseError {
    type V = EventErrorView;

    open spec fn view(&self) -> EventErrorView {
        match self {
            EventParseError::CronParseError(e) => EventErrorView::Cron(e@),
            EventParseError::SyntaxError(m) => EventErrorView::Syntax(m@),
            EventParseError::SQLError { statement, reason } => EventErrorView::Sql(
                statement@,
                reason@,
            ),
        }
    }
}

/// A database event: a label, a schedule, and the statements to run in one
/// transaction, in file order.
#[derive(Debug)]
pub struct Event {
    pub label: String,
    pub interval: CronInterval,
    pub body: Vec<String>,
}

/// An event, over plain values.
pub struct EventView {
    pub label: Seq<char>,
    pub interval: IntervalView,
    pub body: Seq<Seq<char>>,
}

impl View for Event {
    type V = EventView;

    open spec fn view(&self) -> EventView {
        EventView { label: self.label@, interval: self.interval@, body: string_views(self.body@) }
    }
}

impl Event {
    pub open spec fn wf(&self) -> bool {
        self.interval.wf()
    }

    /// The statements, in the order in which they run.
    pub fn statements(&self) -> (r: &Vec<String>)
        ensures
            string_views(r@) == self@.body,
    {
        &self.body
    }
}

/// What the line parser has gathered of the event in progress.
pub enum Slots {
    Empty,
    Label(Seq<char>),
    Schedule(Seq<char>, Seq<char>),
    Body(Seq<char>, Seq<char>, Seq<char>),
}

/// The line without its comment: what stands before the first `#`.
pub open spec fn uncommented(line: Seq<char>) -> Seq<char> {
    split_spec(line, '#', Some(2))[0]
}

/// A line that begins with a tab or two spaces.
pub open spec fn indented(l: Seq<char>) -> bool {
    (l.len() >= 1 && l[0] == '\t') || (l.len() >= 2 && l[0] == ' ' && l[1] == ' ')
}

/// One line read into the gathered slots; a line that is not indented,
/// after a body, hands back the finished (label, schedule, body).
#[verifier::opaque]
pub open spec fn step_spec(acc: Slots, line: Seq<char>) -> (Slots, Option<
    (Seq<char>, Seq<char>, Seq<char>),
>) {
    let l = uncommented(line);
    match acc {
        Slots::Empty => {
            let ps = split_spec(l, ':', Some(2));
            if ps.len() == 2 {
                (Slots::Schedule(ps[0], ps[1]), None)
            } else {
                (Slots::Label(ps[0]), None)
            }
        },
        Slots::Label(label) => {
            let ps = split_spec(l, ':', Some(2));
            let longer = label.push(' ') + ps[0];
            if ps.len() == 2 {
                (Slots::Schedule(longer, ps[1]), None)
            } else {
                (Slots::Label(longer), None)
            }
        },
        Slots::Schedule(label, schedule) => {
            if indented(l) {
                (Slots::Body(label, schedule, l), None)
            } else {
                (Slots::Schedule(label, schedule + l), None)
            }
        },
        Slots::Body(label, schedule, body) => {
            if indented(l) {
                (Slots::Body(label, schedule, body.push(' ') + l), None)
            } else {
                (Slots::Empty, Some((label, schedule, body)))
            }
        },
    }
}

/// The statements of a body's pieces: each trimmed, its tabs taken out, and
/// the empty ones dropped.
pub open spec fn clean_statements(ps: Seq<Seq<char>>) -> Seq<Seq<char>>
    decreases ps.len(),
{
    if ps.len() == 0 {
        Seq::empty()
    } else {
        let rest = clean_statements(ps.drop_last());
        let st = remove_spec(trim_spec(ps.last()), '\t');
        if st.len() > 0 {
            rest.push(st)
        } else {
            rest
        }
    }
}

/// The statements of a body: its text split on `;` and cleaned.
pub open spec fn statements_spec(body: Seq<char>) -> Seq<Seq<char>> {
    clean_statements(split_spec(body, ';', None))
}

/// An event made of its gathered label, schedule text and body.
#[verifier::opaque]
pub open spec fn finalize_spec(label: Seq<char>, schedule: Seq<char>, body: Seq<char>) -> Result<
    EventView,
    EventErrorView,
> {
    match interval_spec(trim_spec(schedule)) {
        Err(e) => Err(EventErrorView::Cron(e)),
        Ok(iv) => Ok(
            EventView { label: trim_spec(label), interval: iv, body: statements_spec(body) },
        ),
    }
}

pub open spec fn count_char(n: nat) -> char {
    if n == 1 {
        '1'
    } else {
        '2'
    }
}

/// The message for an event that ended with `n` of its three parts.
pub open spec fn incomplete_message(label: Seq<char>, n: nat) -> Seq<char> {
    trim_spec(label) + " unexpected number of event tokens (expected 3, received "@ + seq![
        count_char(n),
    ] + ")"@
}

/// What the end of the file makes of the slots: a body ends its event; a
/// label with no schedule, or a schedule with no body, is an error, except
/// a label that is only white space (blank or comment lines).
#[verifier::opaque]
pub open spec fn end_spec(acc: Slots) -> Result<Option<EventView>, EventErrorView> {
    match acc {
        Slots::Empty => Ok(None),
        Slots::Label(label) => if trim_spec(label).len() == 0 {
            Ok(None)
        } else {
            Err(EventErrorView::Syntax(incomplete_message(label, 1)))
        },
        Slots::Schedule(label, _) => Err(EventErrorView::Syntax(incomplete_message(label, 2))),
        Slots::Body(label, schedule, body) => match finalize_spec(label, schedule, body) {
            Err(e) => Err(e),
            Ok(ev) => Ok(Some(ev)),
        },
    }
}

/// The events of the remaining lines, given the slots gathered so far; the
/// first error, in file order, decides the result.
pub open spec fn parse_from(acc: Slots, lines: Seq<Seq<char>>) -> Result<
    Seq<EventView>,
    EventErrorView,
>
    decreases lines.len(),
{
    if lines.len() == 0 {
        match end_spec(acc) {
            Err(e) => Err(e),
            Ok(None) => Ok(Seq::empty()),
            Ok(Some(ev)) => Ok(seq![ev]),
        }
    } else {
        let (next, done) = step_spec(acc, lines[0]);
        match done {
            None => parse_from(next, lines.drop_first()),
            Some((label, schedule, body)) => match finalize_spec(label, schedule, body) {
                Err(e) => Err(e),
                Ok(ev) => match parse_from(next, lines.drop_first()) {
                    Err(e) => Err(e),
                    Ok(evs) => Ok(seq![ev] + evs),
                },
            },
        }
    }
}

/// A line without its trailing carriage return.
pub open spec fn strip_cr(l: Seq<char>) -> Seq<char> {
    if l.len() > 0 && l.last() == '\r' {
        l.drop_last()
    } else {
        l
    }
}

/// The lines of a text, split on `\n`, each without a trailing `\r`.
pub open spec fn lines_spec(text: Seq<char>) -> Seq<Seq<char>> {
    split_spec(text, '\n', None).map_values(|l: Seq<char>| strip_cr(l))
}

/// The events of an event file.
pub open spec fn events_spec(text: Seq<char>) -> Result<Seq<EventView>, EventErrorView> {
    parse_from(Slots::Empty, lines_spec(text))
}

/// Events found before the rest of the file: those, then what the rest
/// gives, or the rest's error.
pub open spec fn after(found: Seq<EventView>, rest: Result<Seq<EventView>, EventErrorView>) -> Result<
    Seq<EventView>,
    EventErrorView,
> {
    match rest {
        Err(e) => Err(e),
        Ok(evs) => Ok(found + evs),
    }
}

/// The gathered slots, held by the line parser.
enum Accumulator {
    Empty,
    Label(Vec<char>),
    Schedule(Vec<char>, Vec<char>),
    Body(Vec<char>, Vec<char>, Vec<char>),
}

impl View for Accumulator {
    type V = Slots;

    closed spec fn view(&self) -> Slots {
        match self {
            Accumulator::Empty => Slots::Empty,
            Accumulator::Label(l) => Slots::Label(l@),
            Accumulator::Schedule(l, s) => Slots::Schedule(l@, s@),
            Accumulator::Body(l, s, b) => Slots::Body(l@, s@, b@),
        }
    }
}

fn is_indented(l: &Vec<char>) -> (r: bool)
    ensures
        r == indented(l@),
{
    (l.len() >= 1 && l[0] == '\t') || (l.len() >= 2 && l[0] == ' ' && l[1] == ' ')
}

/// Reads one line into the slots.
fn step(acc: Accumulator, line: &Vec<char>) -> (r: (
    Accumulator,
    Option<(Vec<char>, Vec<char>, Vec<char>)>,
))
    ensures
        ({
            let (next, done) = step_spec(acc@, line@);
            &&& r.0@ == next
            &&& match r.1 {
                None => done is None,
                Some((l, s, b)) => done == Some((l@, s@, b@)),
            }
        }),
{
    let parts = split_chars(line, '#', Some(2));
    proof {
        reveal(step_spec);
        crate::text::lemma_split_nonempty(line@, '#', Some(2nat));
    }
    let l = &parts[0];
    assert(l@ == uncommented(line@));
    match acc {
        Accumulator::Empty => {
            let ps = split_chars(l, ':', Some(2));
            proof {
                crate::text::lemma_split_nonempty(l@, ':', Some(2nat));
            }
            assert(views(ps@)[0] == ps@[0]@);
            if ps.len() == 2 {
                assert(views(ps@)[1] == ps@[1]@);
                (Accumulator::Schedule(ps[0].clone(), ps[1].clone()), None)
            } else {
                (Accumulator::Label(ps[0].clone()), None)
            }
        },
        Accumulator::Label(label) => {
            let ps = split_chars(l, ':', Some(2));
            proof {
                crate::text::lemma_split_nonempty(l@, ':', Some(2nat));
            }
            assert(views(ps@)[0] == ps@[0]@);
            let mut longer = label;
            longer.push(' ');
            extend(&mut longer, &ps[0]);
            if ps.len() == 2 {
                assert(views(ps@)[1] == ps@[1]@);
                (Accumulator::Schedule(longer, ps[1].clone()), None)
            } else {
                (Accumulator::Label(longer), None)
            }
        },
        Accumulator::Schedule(label, schedule) => {
            if is_indented(l) {
                (Accumulator::Body(label, schedule, l.clone()), None)
            } else {
                let mut longer = schedule;
                extend(&mut longer, l);
                (Accumulator::Schedule(label, longer), None)
            }
        },
        Accumulator::Body(label, schedule, body) => {
            if is_indented(l) {
                let mut longer = body;
                longer.push(' ');
                extend(&mut longer, l);
                (Accumulator::Body(label, schedule, longer), None)
            } else {
                (Accumulator::Empty, Some((label, schedule, body)))
            }
        },
    }
}

/// The statements of a body: split on `;`, each trimmed, tabs taken out,
/// empty ones dropped.
pub fn statements_of(body: &Vec<char>) -> (r: Vec<String>)
    ensures
        string_views(r@) == statements_spec(body@),
{
    let pieces = split_chars(body, ';', None);
    let ghost ps = views(pieces@);
    let mut out: Vec<String> = Vec::new();
    let mut i: usize = 0;
    assert(ps.take(0) =~= Seq::<Seq<char>>::empty());
    assert(string_views(out@) =~= Seq::<Seq<char>>::empty());
    while i < pieces.len()
        invariant
            i <= pieces.len(),
            ps == views(pieces@),
            ps.len() == pieces@.len(),
            string_views(out@) == clean_statements(ps.take(i as int)),
        decreases pieces.len() - i,
    {
        assert(ps.take(i + 1).drop_last() =~= ps.take(i as int));
        assert(ps.take(i + 1).last() == pieces@[i as int]@);
        let st = remove_char(&trim_chars(&pieces[i]), '\t');
        if st.len() > 0 {
            let ghost before = out@;
            out.push(string_from_chars(&st));
            assert(string_views(out@) =~= string_views(before).push(st@));
        }
        i += 1;
    }
    assert(ps.take(pieces.len() as int) =~= ps);
    out
}

/// Builds the event from its gathered label, schedule text and body.
fn finalize(label: &Vec<char>, schedule: &Vec<char>, body: &Vec<char>) -> (r: Result<
    Event,
    EventParseError,
>)
    ensures
        match r {
            Ok(ev) => ev.wf() && finalize_spec(label@, schedule@, body@) == Ok::<
                EventView,
                EventErrorView,
            >(ev@),
            Err(e) => finalize_spec(label@, schedule@, body@) == Err::<EventView, EventErrorView>(
                e@,
            ),
        },
{
    proof {
        reveal(finalize_spec);
    }
    let interval = match parse_interval(&trim_chars(schedule)) {
        Ok(iv) => iv,
        Err(e) => {
            return Err(EventParseError::CronParseError(e));
        },
    };
    let label = string_from_chars(&trim_chars(label));
    let body = statements_of(body);
    Ok(Event { label, interval, body })
}

/// The error for an event that ended with `n` of its three parts.
fn incomplete(label: &Vec<char>, n: usize) -> (r: EventParseError)
    requires
        n == 1 || n == 2,
    ensures
        r@ == EventErrorView::Syntax(incomplete_message(label@, n as nat)),
{
    let mut msg = trim_chars(label);
    extend(&mut msg, &chars_of(" unexpected number of event tokens (expected 3, received "));
    msg.push(if n == 1 {
        '1'
    } else {
        '2'
    });
    msg.push(')');
    proof {
        reveal_strlit(")");
    }
    assert(msg@ =~= incomplete_message(label@, n as nat));
    EventParseError::SyntaxError(string_from_chars(&msg))
}

/// What the end of the file makes of the slots.
fn finish(acc: Accumulator) -> (r: Result<Option<Event>, EventParseError>)
    ensures
        match r {
            Ok(None) => end_spec(acc@) == Ok::<Option<EventView>, EventErrorView>(None),
            Ok(Some(ev)) => ev.wf() && end_spec(acc@) == Ok::<Option<EventView>, EventErrorView>(
                Some(ev@),
            ),
            Err(e) => end_spec(acc@) == Err::<Option<EventView>, EventErrorView>(e@),
        },
{
    proof {
        reveal(end_spec);
    }
    match acc {
        Accumulator::Empty => Ok(None),
        Accumulator::Label(label) => {
            if trim_chars(&label).len() == 0 {
                Ok(None)
            } else {
                Err(incomplete(&label, 1))
            }
        },
        Accumulator::Schedule(label, _) => Err(incomplete(&label, 2)),
        Accumulator::Body(label, schedule, body) => {
            let ev = finalize(&label, &schedule, &body)?;
            Ok(Some(ev))
        },
    }
}

/// The lines of a text: split on `\n`, each without a trailing `\r`.
pub fn lines_of(text: &Vec<char>) -> (r: Vec<Vec<char>>)
    ensures
        views(r@) == lines_spec(text@),
{
    let pieces = split_chars(text, '\n', None);
    let ghost ps = views(pieces@);
    let mut out: Vec<Vec<char>> = Vec::new();
    let mut i: usize = 0;
    while i < pieces.len()
        invariant
            i <= pieces.len(),
            ps == views(pieces@),
            ps.len() == pieces@.len(),
            views(out@) == ps.take(i as int).map_values(|l: Seq<char>| strip_cr(l)),
        decreases pieces.len() - i,
    {
        let p = &pieces[i];
        let line = if p.len() > 0 && p[p.len() - 1] == '\r' {
            crate::text::slice_chars(p, 0, p.len() - 1)
        } else {
            p.clone()
        };
        assert(line@ == strip_cr(ps[i as int]));
        let ghost prev = out@;
        out.push(line);
        assert(views(out@) =~= views(prev).push(line@));
        assert(ps.take(i + 1) =~= ps.take(i as int).push(ps[i as int]));
        assert(views(out@) =~= ps.take(i + 1).map_values(|l: Seq<char>| strip_cr(l)));
        i += 1;
    }
    assert(ps.take(pieces.len() as int) =~= ps);
    out
}

/// Reads the events of an event file, in file order. Each event is a label
/// and a schedule (`LABEL: MIN HOUR DAY MONTH WEEKDAY [@startup]`), either of
/// which may run over several lines, followed by indented lines of
/// statements ended by `;`. Text from `#` to the end of a line is a comment.
/// The first error, in file order, ends the reading.
pub fn parse(text: &str) -> (r: Result<Vec<Event>, EventParseError>)
    ensures
        match r {
            Ok(evs) => (forall|i: int| 0 <= i < evs@.len() ==> (#[trigger] evs@[i]).wf())
                && events_spec(text@) == Ok::<Seq<EventView>, EventErrorView>(
                evs@.map_values(|e: Event| e@),
            ),
            Err(e) => events_spec(text@) == Err::<Seq<EventView>, EventErrorView>(e@),
        },
{
    let lines = lines_of(&chars_of(text));
    let ghost ls = views(lines@);
    let mut events: Vec<Event> = Vec::new();
    let mut acc = Accumulator::Empty;
    let mut i: usize = 0;
    assert(ls.skip(0) =~= ls);
    assert(events@.map_values(|e: Event| e@) =~= Seq::<EventView>::empty());
    while i < lines.len()
        invariant
            i <= lines.len(),
            ls == views(lines@),
            ls.len() == lines@.len(),
            ls == lines_spec(text@),
            forall|k: int| 0 <= k < events@.len() ==> (#[trigger] events@[k]).wf(),
            events_spec(text@) == after(
                events@.map_values(|e: Event| e@),
                parse_from(acc@, ls.skip(i as int)),
            ),
        decreases lines.len() - i,
    {
        let ghost rest = ls.skip(i as int);
        assert(rest[0] == lines@[i as int]@);
        assert(rest.drop_first() =~= ls.skip(i + 1));
        let ghost before = events@.map_values(|e: Event| e@);
        let (next, done) = step(acc, &lines[i]);
        acc = next;
        match done {
            None => {},
            Some((label, schedule, body)) => {
                let ev = finalize(&label, &schedule, &body)?;
                events.push(ev);
                proof {
                    let now = events@.map_values(|e: Event| e@);
                    assert(now =~= before.push(ev@));
                    match parse_from(acc@, ls.skip(i + 1)) {
                        Err(_) => {},
                        Ok(evs) => {
                            assert(before + (seq![ev@] + evs) =~= now + evs);
                        },
                    }
                }
            },
        }
        i += 1;
    }
    let ghost before = events@.map_values(|e: Event| e@);
    assert(ls.skip(i as int).len() == 0);
    match finish(acc)? {
        None => {
            assert(before + Seq::<EventView>::empty() =~= before);
        },
        Some(ev) => {
            events.push(ev);
            assert(events@.map_values(|e: Event| e@) =~= before + seq![ev@]);
        },
    }
    Ok(events)
}

/// Every statement of the events, in file order.
pub open spec fn all_statements(evs: Seq<EventView>) -> Seq<Seq<char>>
    decreases evs.len(),
{
    if evs.len() == 0 {
        Seq::empty()
    } else {
        all_statements(evs.drop_last()) + evs.last().body
    }
}

/// The statements that the database must accept, by preparing each one,
/// before the events are put to work: every statement of every event, in
/// file order.
pub fn statements_to_validate(events: &Vec<Event>) -> (r: Vec<String>)
    ensures
        string_views(r@) == all_statements(events@.map_values(|e: Event| e@)),
{
    let ghost evs = events@.map_values(|e: Event| e@);
    let mut out: Vec<String> = Vec::new();
    let mut i: usize = 0;
    assert(evs.take(0) =~= Seq::<EventView>::empty());
    assert(string_views(out@) =~= Seq::<Seq<char>>::empty());
    while i < events.len()
        invariant
            i <= events.len(),
            evs == events@.map_values(|e: Event| e@),
            evs.len() == events@.len(),
            string_views(out@) == all_statements(evs.take(i as int)),
        decreases events.len() - i,
    {
        assert(evs.take(i + 1).drop_last() =~= evs.take(i as int));
        assert(evs.take(i + 1).last() == events@[i as int]@);
        let body = &events[i].body;
        let ghost start = string_views(out@);
        let mut j: usize = 0;
        while j < body.len()
            invariant
                j <= body.len(),
                string_views(out@) == start + string_views(body@).take(j as int),
            decreases body.len() - j,
        {
            let ghost prev = out@;
            out.push(body[j].clone());
            assert(string_views(out@) =~= string_views(prev).push(body@[j as int]@));
            j += 1;
            assert(string_views(out@) =~= start + string_views(body@).take(j as int));
        }
        assert(string_views(body@).take(body.len() as int) =~= string_views(body@));
        i += 1;
    }
    assert(evs.take(events.len() as int) =~= evs);
    out
}

/// The position of the first statement that the database rejected.
pub open spec fn first_rejection(outcomes: Seq<Result<(), String>>) -> Option<int>
    decreases outcomes.len(),
{
    if outcomes.len() == 0 {
        None
    } else {
        match first_rejection(outcomes.drop_last()) {
            Some(k) => Some(k),
            None => if outcomes.last() is Err {
                Some(outcomes.len() - 1)
            } else {
                None
            },
        }
    }
}

proof fn lemma_first_rejection(outcomes: Seq<Result<(), String>>)
    ensures
        first_rejection(outcomes) matches Some(k) ==> 0 <= k < outcomes.len() && outcomes[k] is Err
            && forall|j: int| 0 <= j < k ==> (#[trigger] outcomes[j]) is Ok,
        first_rejection(outcomes) is None ==> forall|j: int|
            0 <= j < outcomes.len() ==> (#[trigger] outcomes[j]) is Ok,
    decreases outcomes.len(),
{
    if outcomes.len() > 0 {
        let init = outcomes.drop_last();
        lemma_first_rejection(init);
        assert forall|j: int| 0 <= j < init.len() implies init[j] == outcomes[j] by {}
    }
}

/// The first rejection among the answers, by scanning them in order.
fn find_rejection(outcomes: &Vec<Result<(), String>>) -> (r: Option<usize>)
    ensures
        match r {
            Some(k) => first_rejection(outcomes@) == Some(k as int),
            None => first_rejection(outcomes@) is None,
        },
{
    let mut i: usize = 0;
    assert(outcomes@.take(0) =~= Seq::<Result<(), String>>::empty());
    while i < outcomes.len()
        invariant
            i <= outcomes.len(),
            first_rejection(outcomes@.take(i as int)) is None,
        decreases outcomes.len() - i,
    {
        assert(outcomes@.take(i + 1).drop_last() =~= outcomes@.take(i as int));
        if outcomes[i].is_err() {
            proof {
                lemma_rejection_stays(outcomes@, (i + 1) as nat);
            }
            return Some(i);
        }
        i += 1;
    }
    assert(outcomes@.take(outcomes.len() as int) =~= outcomes@);
    None
}

/// A rejection among the first answers stays the first one.
proof fn lemma_rejection_stays(outcomes: Seq<Result<(), String>>, n: nat)
    requires
        n <= outcomes.len(),
        first_rejection(outcomes.take(n as int)) is Some,
    ensures
        first_rejection(outcomes) == first_rejection(outcomes.take(n as int)),
    decreases outcomes.len() - n,
{
    if n < outcomes.len() {
        assert(outcomes.take(n + 1 as int).drop_last() =~= outcomes.take(n as int));
        lemma_rejection_stays(outcomes, n + 1);
    } else {
        assert(outcomes.take(n as int) =~= outcomes);
    }
}

/// Which of `total` statements to put to the database next, given its
/// answers so far, in order: the next one while every answer accepted;
/// none after the first rejection, or once all were answered.
pub fn next_to_prepare(total: usize, outcomes: &Vec<Result<(), String>>) -> (r: Option<usize>)
    ensures
        r == (if first_rejection(outcomes@) is Some || outcomes@.len() >= total {
            None::<usize>
        } else {
            Some(outcomes@.len() as usize)
        }),
{
    if find_rejection(outcomes).is_some() || outcomes.len() >= total {
        None
    } else {
        Some(outcomes.len())
    }
}

/// The end of a load, given the database's answers to `statements`, put to
/// it in order up to the first rejection: the events, when it accepted
/// every statement; otherwise the first rejected statement with the
/// database's reason, and no event.
pub fn accept_validated(
    events: Vec<Event>,
    statements: &Vec<String>,
    outcomes: &Vec<Result<(), String>>,
) -> (r: Result<Vec<Event>, EventParseError>)
    requires
        outcomes@.len() <= statements@.len(),
        first_rejection(outcomes@) is Some || outcomes@.len() == statements@.len(),
    ensures
        first_rejection(outcomes@) is None ==> r == Ok::<Vec<Event>, EventParseError>(events),
        first_rejection(outcomes@) matches Some(k) ==> r matches Err(e) && outcomes@[k] matches Err(
            reason,
        ) && e@ == EventErrorView::Sql(statements@[k]@, reason@),
{
    proof {
        lemma_first_rejection(outcomes@);
    }
    match find_rejection(outcomes) {
        None => Ok(events),
        Some(k) => {
            let reason = match &outcomes[k] {
                Err(reason) => reason.clone(),
                Ok(()) => String::new(),
            };
            Err(EventParseError::SQLError { statement: statements[k].clone(), reason })
        },
    }
}

/// A text holding `sep`, split into at most two pieces, gives two.
proof fn lemma_split_in_two(s: Seq<char>, sep: char)
    requires
        s.contains(sep),
    ensures
        split_spec(s, sep, Some(2)).len() == 2,
    decreases s.len(),
{
    let init = s.drop_last();
    assert(s =~= init.push(s.last()));
    if init.contains(sep) {
        lemma_split_in_two(init, sep);
    } else {
        lemma_split_whole(init, sep, Some(2));
        let k = choose|k: int| 0 <= k < s.len() && s[k] == sep;
        if k < s.len() - 1 {
            assert(init[k] == sep);
        }
    }
}

/// A body followed by further indented lines, each added after a space.
pub open spec fn joined_body(body: Seq<char>, more: Seq<Seq<char>>) -> Seq<char>
    decreases more.len(),
{
    if more.len() == 0 {
        body
    } else {
        joined_body(body.push(' ') + more[0], more.drop_first())
    }
}

/// Lines that may continue a body: indented, with no comment.
pub open spec fn body_lines(more: Seq<Seq<char>>) -> bool {
    forall|i: int| 0 <= i < more.len() ==> indented(#[trigger] more[i]) && !more[i].contains('#')
}

/// Indented lines after a body join it, whatever follows them.
proof fn lemma_body_continues(
    label: Seq<char>,
    schedule: Seq<char>,
    body: Seq<char>,
    more: Seq<Seq<char>>,
    tail: Seq<Seq<char>>,
)
    requires
        body_lines(more),
    ensures
        parse_from(Slots::Body(label, schedule, body), more + tail) == parse_from(
            Slots::Body(label, schedule, joined_body(body, more)),
            tail,
        ),
    decreases more.len(),
{
    if more.len() == 0 {
        assert(more + tail =~= tail);
    } else {
        reveal(step_spec);
        let line = more[0];
        assert(indented(line) && !line.contains('#'));
        lemma_split_whole(line, '#', Some(2));
        assert((more + tail)[0] == line);
        assert((more + tail).drop_first() =~= more.drop_first() + tail);
        let rest = more.drop_first();
        assert(body_lines(rest)) by {
            assert forall|i: int| 0 <= i < rest.len() implies indented(#[trigger] rest[i])
                && !rest[i].contains('#') by {
                assert(rest[i] == more[i + 1]);
            }
        }
        lemma_body_continues(label, schedule, body.push(' ') + line, rest, tail);
    }
}

/// An event written as one line `label: schedule` followed by indented
/// lines of statements, the file ending with or without a line break, is
/// read as one event, whose statements are those of all its body lines
/// joined by spaces and split on `;`.
pub proof fn lemma_indented_lines_make_one_event(
    head: Seq<char>,
    first: Seq<char>,
    more: Seq<Seq<char>>,
    final_newline: bool,
)
    requires
        !head.contains('#'),
        head.contains(':'),
        !first.contains('#'),
        indented(first),
        body_lines(more),
        interval_spec(trim_spec(split_spec(head, ':', Some(2))[1])) is Ok,
    ensures
        ({
            let ps = split_spec(head, ':', Some(2));
            let tail = if final_newline {
                seq![Seq::<char>::empty()]
            } else {
                Seq::<Seq<char>>::empty()
            };
            parse_from(Slots::Empty, seq![head, first] + more + tail) == Ok::<
                Seq<EventView>,
                EventErrorView,
            >(
                seq![
                    EventView {
                        label: trim_spec(ps[0]),
                        interval: interval_spec(trim_spec(ps[1]))->Ok_0,
                        body: statements_spec(joined_body(first, more)),
                    },
                ],
            )
        }),
{
    lemma_split_whole(head, '#', Some(2));
    lemma_split_whole(first, '#', Some(2));
    lemma_split_in_two(head, ':');
    reveal(step_spec);
    reveal(end_spec);
    reveal(finalize_spec);
    let ps = split_spec(head, ':', Some(2));
    let tail = if final_newline {
        seq![Seq::<char>::empty()]
    } else {
        Seq::<Seq<char>>::empty()
    };
    let lines = seq![head, first] + more + tail;
    let body = joined_body(first, more);
    let ev = EventView {
        label: trim_spec(ps[0]),
        interval: interval_spec(trim_spec(ps[1]))->Ok_0,
        body: statements_spec(body),
    };
    assert(lines[0] == head);
    assert(lines.drop_first() =~= seq![first] + (more + tail));
    assert((seq![first] + (more + tail))[0] == first);
    assert((seq![first] + (more + tail)).drop_first() =~= more + tail);
    lemma_body_continues(ps[0], ps[1], first, more, tail);
    if final_newline {
        let blank = Seq::<char>::empty();
        assert(split_spec(blank, '#', Some(2)) == seq![blank]);
        assert(tail[0] == blank);
        assert(tail.drop_first() =~= Seq::<Seq<char>>::empty());
        assert(parse_from(Slots::Empty, Seq::<Seq<char>>::empty()) == Ok::<
            Seq<EventView>,
            EventErrorView,
        >(Seq::empty()));
        assert(seq![ev] + Seq::<EventView>::empty() =~= seq![ev]);
        assert(parse_from(Slots::Body(ps[0], ps[1], body), tail) == Ok::<
            Seq<EventView>,
            EventErrorView,
        >(seq![ev]));
    } else {
        assert(parse_from(Slots::Body(ps[0], ps[1], body), tail) == Ok::<
            Seq<EventView>,
            EventErrorView,
        >(seq![ev]));
    }
    assert(parse_from(Slots::Schedule(ps[0], ps[1]), seq![first] + (more + tail)) == parse_from(
        Slots::Body(ps[0], ps[1], first),
        more + tail,
    ));
    assert(parse_from(Slots::Empty, lines) == parse_from(
        Slots::Schedule(ps[0], ps[1]),
        lines.drop_first(),
    ));
}

/// Lines joined by line breaks, as a file holds them.
pub open spec fn join_lines(ls: Seq<Seq<char>>) -> Seq<char>
    decreases ls.len(),
{
    if ls.len() == 0 {
        Seq::empty()
    } else if ls.len() == 1 {
        ls[0]
    } else {
        join_lines(ls.drop_last()).push('\n') + ls.last()
    }
}

/// A line as a file holds it: no line break in it, and no carriage return
/// at its end.
pub open spec fn plain_line(l: Seq<char>) -> bool {
    !l.contains('\n') && !(l.len() > 0 && l.last() == '\r')
}

/// Reading lines that were joined by line breaks gives them back.
pub proof fn lemma_lines_of_joined(ls: Seq<Seq<char>>)
    requires
        ls.len() >= 1,
        forall|i: int| 0 <= i < ls.len() ==> plain_line(#[trigger] ls[i]),
    ensures
        lines_spec(join_lines(ls)) == ls,
{
    lemma_split_of_joined(ls);
    assert(split_spec(join_lines(ls), '\n', None).map_values(|l: Seq<char>| strip_cr(l)) =~= ls);
}

proof fn lemma_split_of_joined(ls: Seq<Seq<char>>)
    requires
        ls.len() >= 1,
        forall|i: int| 0 <= i < ls.len() ==> plain_line(#[trigger] ls[i]),
    ensures
        split_spec(join_lines(ls), '\n', None) == ls,
    decreases ls.len(),
{
    let last = ls.last();
    assert(plain_line(ls[ls.len() - 1]));
    lemma_split_whole(last, '\n', None);
    if ls.len() == 1 {
        assert(seq![ls[0]] =~= ls);
    } else {
        let init = ls.drop_last();
        assert forall|i: int| 0 <= i < init.len() implies plain_line(#[trigger] init[i]) by {
            assert(init[i] == ls[i]);
        }
        lemma_split_of_joined(init);
        crate::text::lemma_split_concat(join_lines(init), '\n', last);
        assert(init + seq![last] =~= ls);
    }
}

/// An event file of one line `label: schedule` followed by indented lines
/// of statements, ending with or without a line break, is read as one
/// event, whose statements are those of all its body lines joined by spaces
/// and split on `;`.
pub proof fn lemma_event_file_with_indented_lines(
    head: Seq<char>,
    first: Seq<char>,
    more: Seq<Seq<char>>,
    final_newline: bool,
)
    requires
        !head.contains('#'),
        head.contains(':'),
        !first.contains('#'),
        indented(first),
        body_lines(more),
        plain_line(head),
        plain_line(first),
        forall|i: int| 0 <= i < more.len() ==> plain_line(#[trigger] more[i]),
        interval_spec(trim_spec(split_spec(head, ':', Some(2))[1])) is Ok,
    ensures
        ({
            let ps = split_spec(head, ':', Some(2));
            let tail = if final_newline {
                seq![Seq::<char>::empty()]
            } else {
                Seq::<Seq<char>>::empty()
            };
            events_spec(join_lines(seq![head, first] + more + tail)) == Ok::<
                Seq<EventView>,
                EventErrorView,
            >(
                seq![
                    EventView {
                        label: trim_spec(ps[0]),
                        interval: interval_spec(trim_spec(ps[1]))->Ok_0,
                        body: statements_spec(joined_body(first, more)),
                    },
                ],
            )
        }),
{
    let tail = if final_newline {
        seq![Seq::<char>::empty()]
    } else {
        Seq::<Seq<char>>::empty()
    };
    let lines = seq![head, first] + more + tail;
    assert forall|i: int| 0 <= i < lines.len() implies plain_line(#[trigger] lines[i]) by {
        if i == 0 {
            assert(lines[i] == head);
        } else if i == 1 {
            assert(lines[i] == first);
        } else if i < 2 + more.len() {
            assert(lines[i] == more[i - 2]);
        } else {
            assert(lines[i] == Seq::<char>::empty());
            assert(!Seq::<char>::empty().contains('\n'));
        }
    }
    lemma_lines_of_joined(lines);
    lemma_indented_lines_make_one_event(head, first, more, final_newline);
}

} // verus!
