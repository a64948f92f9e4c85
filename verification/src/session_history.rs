//! Bounded journal of finished game sessions.
//!
//! Measured values stay in their written form, a decimal fraction, so that
//! the journal neither rounds them nor depends on how they were measured.
use crate::text;
use vstd::prelude::*;

verus! {

/// The first line of a journal.
pub const SESSION_HISTORY_HEADER: &'static str = "redunar-session-history-v1";

/// How many sessions the journal keeps.
pub const MAX_RECORDS: usize = 64;

pub const MAX_TIMELINE_SAMPLES: usize = 7_200;

/// How many frame intervals are read back of a session.
pub const MAX_FRAME_INTERVALS: usize = 240;

/// One observation in a session.
#[derive(Clone, Debug, PartialEq, Eq)]
pub struct SessionTelemetrySample {
    pub elapsed_seconds: u32,
    pub fps: Option<String>,
    pub frame_time_ms: Option<String>,
    pub cpu_temperature_celsius: Option<String>,
    pub gpu_temperature_celsius: Option<String>,
    pub cpu_utilization_percent: Option<String>,
    pub gpu_utilization_percent: Option<String>,
}

#[derive(Clone, Debug, PartialEq, Eq)]
pub struct SessionRecord {
    pub id: u64,
    pub game: String,
    pub started_unix: u64,
    pub duration_seconds: u32,
    pub average_fps: Option<String>,
    pub one_percent_low_fps: Option<String>,
    pub point_one_percent_low_fps: Option<String>,
    pub frame_intervals_ns: Vec<u64>,
    pub timeline: Vec<SessionTelemetrySample>,
}

/// What a [`SessionTelemetrySample`] holds.
#[verifier::ext_equal]
pub ghost struct SampleView {
    pub elapsed_seconds: u32,
    pub fps: Option<Seq<char>>,
    pub frame_time_ms: Option<Seq<char>>,
    pub cpu_temperature_celsius: Option<Seq<char>>,
    pub gpu_temperature_celsius: Option<Seq<char>>,
    pub cpu_utilization_percent: Option<Seq<char>>,
    pub gpu_utilization_percent: Option<Seq<char>>,
}

/// What a [`SessionRecord`] holds.
#[verifier::ext_equal]
pub ghost struct RecordView {
    pub id: u64,
    pub game: Seq<char>,
    pub started_unix: u64,
    pub duration_seconds: u32,
    pub average_fps: Option<Seq<char>>,
    pub one_percent_low_fps: Option<Seq<char>>,
    pub point_one_percent_low_fps: Option<Seq<char>>,
    pub frame_intervals_ns: Seq<u64>,
    pub timeline: Seq<SampleView>,
}

pub open spec fn reading_view(reading: Option<String>) -> Option<Seq<char>> {
    match reading {
        Some(text) => Some(text@),
        None => None,
    }
}

impl View for SessionTelemetrySample {
    type V = SampleView;

    open spec fn view(&self) -> SampleView {
        SampleView {
            elapsed_seconds: self.elapsed_seconds,
            fps: reading_view(self.fps),
            frame_time_ms: reading_view(self.frame_time_ms),
            cpu_temperature_celsius: reading_view(self.cpu_temperature_celsius),
            gpu_temperature_celsius: reading_view(self.gpu_temperature_celsius),
            cpu_utilization_percent: reading_view(self.cpu_utilization_percent),
            gpu_utilization_percent: reading_view(self.gpu_utilization_percent),
        }
    }
}

pub open spec fn sample_views(samples: Seq<SessionTelemetrySample>) -> Seq<SampleView> {
    samples.map_values(|sample: SessionTelemetrySample| sample@)
}

impl View for SessionRecord {
    type V = RecordView;

    open spec fn view(&self) -> RecordView {
        RecordView {
            id: self.id,
            game: self.game@,
            started_unix: self.started_unix,
            duration_seconds: self.duration_seconds,
            average_fps: reading_view(self.average_fps),
            one_percent_low_fps: reading_view(self.one_percent_low_fps),
            point_one_percent_low_fps: reading_view(self.point_one_percent_low_fps),
            frame_intervals_ns: self.frame_intervals_ns@,
            timeline: sample_views(self.timeline@),
        }
    }
}

pub open spec fn record_views(records: Seq<SessionRecord>) -> Seq<RecordView> {
    records.map_values(|record: SessionRecord| record@)
}

/// The first items, at most `count`.
pub open spec fn first_of<T>(items: Seq<T>, count: int) -> Seq<T> {
    if items.len() <= count {
        items
    } else {
        items.take(count)
    }
}

/// A value in the journal; a dash stands for none.
pub open spec fn reading_text(reading: Option<Seq<char>>) -> Seq<char> {
    match reading {
        Some(text) => text,
        None => seq!['-'],
    }
}

/// A text without the sign that it may begin with.
pub open spec fn unsigned(text: Seq<char>) -> Seq<char> {
    if text.len() > 0 && (text[0] == '+' || text[0] == '-') {
        text.skip(1)
    } else {
        text
    }
}

/// How many digits a text begins with.
pub open spec fn leading_digits(text: Seq<char>) -> nat
    decreases text.len(),
{
    if text.len() == 0 || !text::is_digit(text[0]) {
        0
    } else {
        1 + leading_digits(text.skip(1))
    }
}

/// Whether a text is nothing, or a power of ten.
pub open spec fn is_exponent(text: Seq<char>) -> bool {
    text.len() == 0 || (text[0] == 'e' || text[0] == 'E') && text::all_digits(
        unsigned(text.skip(1)),
    )
}

/// Whether a text is a decimal fraction without a sign: digits, a point among
/// them or beside them at most, and a power of ten behind them at most.
pub open spec fn is_fraction(text: Seq<char>) -> bool {
    let whole = leading_digits(text);
    let rest = text.skip(whole as int);
    if rest.len() > 0 && rest[0] == '.' {
        let part = leading_digits(rest.skip(1));
        whole + part > 0 && is_exponent(rest.skip(1).skip(part as int))
    } else {
        whole > 0 && is_exponent(rest)
    }
}

/// Whether a text is that of a measured value: a decimal fraction, or the word
/// for an infinite or an undefined value, with or without a sign.
pub open spec fn is_number(text: Seq<char>) -> bool {
    let body = unsigned(text);
    is_fraction(body) || text::alike(body, "inf"@) || text::alike(body, "infinity"@)
        || text::alike(body, "nan"@)
}

/// The value that a field of the journal stands for. A field that is not a
/// number's text, such as a dash, stands for none.
pub open spec fn parsed_reading(text: Seq<char>) -> Option<Seq<char>> {
    if is_number(text) {
        Some(text)
    } else {
        None
    }
}

/// A name without the characters that structure the journal.
pub open spec fn escaped(name: Seq<char>) -> Seq<char>
    decreases name.len(),
{
    if name.len() == 0 {
        Seq::empty()
    } else {
        (if name[0] == '\\' {
            seq!['\\', '\\']
        } else if name[0] == '\t' {
            seq!['\\', 't']
        } else if name[0] == '\n' {
            seq!['\\', 'n']
        } else {
            seq![name[0]]
        }) + escaped(name.skip(1))
    }
}

/// A text in which each backslash with `letter` behind it is replaced.
pub open spec fn replaced(chars: Seq<char>, letter: char, with: char) -> Seq<char>
    decreases chars.len(),
{
    if chars.len() < 2 {
        chars
    } else if chars[0] == '\\' && chars[1] == letter {
        seq![with] + replaced(chars.skip(2), letter, with)
    } else {
        seq![chars[0]] + replaced(chars.skip(1), letter, with)
    }
}

/// The name that a field of the journal stands for.
pub open spec fn unescaped(field: Seq<char>) -> Seq<char> {
    replaced(replaced(field, 't', '\t'), 'n', '\n')
}

pub open spec fn sample_fields(sample: SampleView) -> Seq<Seq<char>> {
    seq![
        text::decimal(sample.elapsed_seconds as nat),
        reading_text(sample.fps),
        reading_text(sample.frame_time_ms),
        reading_text(sample.cpu_temperature_celsius),
        reading_text(sample.gpu_temperature_celsius),
        reading_text(sample.cpu_utilization_percent),
        reading_text(sample.gpu_utilization_percent),
    ]
}

pub open spec fn sample_texts(samples: Seq<SampleView>) -> Seq<Seq<char>> {
    samples.map_values(|sample: SampleView| text::joined_fields(sample_fields(sample), ','))
}

pub open spec fn interval_texts(intervals: Seq<u64>) -> Seq<Seq<char>> {
    intervals.map_values(|interval: u64| text::decimal(interval as nat))
}

pub open spec fn record_fields(record: RecordView) -> Seq<Seq<char>> {
    seq![
        text::decimal(record.id as nat),
        escaped(record.game),
        text::decimal(record.started_unix as nat),
        text::decimal(record.duration_seconds as nat),
        reading_text(record.average_fps),
        reading_text(record.one_percent_low_fps),
        reading_text(record.point_one_percent_low_fps),
        text::joined_fields(interval_texts(record.frame_intervals_ns), ','),
        text::joined_fields(
            sample_texts(first_of(record.timeline, MAX_TIMELINE_SAMPLES as int)),
            ';',
        ),
    ]
}

/// The line of a session.
pub open spec fn record_line(record: RecordView) -> Seq<char> {
    text::joined_fields(record_fields(record), '\t')
}

pub open spec fn record_lines(records: Seq<RecordView>) -> Seq<Seq<char>> {
    records.map_values(|record: RecordView| record_line(record))
}

/// The journal of some sessions.
pub open spec fn history_text(records: Seq<RecordView>) -> Seq<char> {
    text::joined_lines(seq![SESSION_HISTORY_HEADER@] + record_lines(records))
}

pub open spec fn parsed_sample(sample: Seq<char>) -> Option<SampleView> {
    let fields = text::fields_of(sample, ',');
    if fields.len() != 7 {
        None
    } else {
        match text::parsed_decimal(fields[0], u32::MAX as nat) {
            None => None,
            Some(elapsed) => Some(
                SampleView {
                    elapsed_seconds: elapsed as u32,
                    fps: parsed_reading(fields[1]),
                    frame_time_ms: parsed_reading(fields[2]),
                    cpu_temperature_celsius: parsed_reading(fields[3]),
                    gpu_temperature_celsius: parsed_reading(fields[4]),
                    cpu_utilization_percent: parsed_reading(fields[5]),
                    gpu_utilization_percent: parsed_reading(fields[6]),
                },
            ),
        }
    }
}

/// The samples among some texts.
pub open spec fn parsed_samples(parts: Seq<Seq<char>>) -> Seq<SampleView>
    decreases parts.len(),
{
    if parts.len() == 0 {
        Seq::empty()
    } else {
        let before = parsed_samples(parts.drop_last());
        match parsed_sample(parts.last()) {
            Some(sample) => before.push(sample),
            None => before,
        }
    }
}

/// The numbers among some texts.
pub open spec fn parsed_intervals(parts: Seq<Seq<char>>) -> Seq<u64>
    decreases parts.len(),
{
    if parts.len() == 0 {
        Seq::empty()
    } else {
        let before = parsed_intervals(parts.drop_last());
        match text::parsed_decimal(parts.last(), u64::MAX as nat) {
            Some(interval) => before.push(interval as u64),
            None => before,
        }
    }
}

/// A field, or an empty text where the line ends before it.
pub open spec fn field_or_empty(fields: Seq<Seq<char>>, index: int) -> Seq<char> {
    if index < fields.len() {
        fields[index]
    } else {
        Seq::empty()
    }
}

/// The session of a line. Its intervals and its timeline may be left out.
pub open spec fn parsed_record(line: Seq<char>) -> Option<RecordView> {
    let fields = text::fields_of(line, '\t');
    if fields.len() < 7 {
        None
    } else {
        match (
            text::parsed_decimal(fields[0], u64::MAX as nat),
            text::parsed_decimal(fields[2], u64::MAX as nat),
            text::parsed_decimal(fields[3], u32::MAX as nat),
        ) {
            (Some(id), Some(started), Some(duration)) => Some(
                RecordView {
                    id: id as u64,
                    game: unescaped(fields[1]),
                    started_unix: started as u64,
                    duration_seconds: duration as u32,
                    average_fps: parsed_reading(fields[4]),
                    one_percent_low_fps: parsed_reading(fields[5]),
                    point_one_percent_low_fps: parsed_reading(fields[6]),
                    frame_intervals_ns: first_of(
                        parsed_intervals(text::fields_of(field_or_empty(fields, 7), ',')),
                        MAX_FRAME_INTERVALS as int,
                    ),
                    timeline: first_of(
                        parsed_samples(text::fields_of(field_or_empty(fields, 8), ';')),
                        MAX_TIMELINE_SAMPLES as int,
                    ),
                },
            ),
            _ => None,
        }
    }
}

/// The sessions among some lines.
pub open spec fn parsed_records(lines: Seq<Seq<char>>) -> Seq<RecordView>
    decreases lines.len(),
{
    if lines.len() == 0 {
        Seq::empty()
    } else {
        let before = parsed_records(lines.drop_last());
        match parsed_record(lines.last()) {
            Some(record) => before.push(record),
            None => before,
        }
    }
}

/// The sessions of a journal; none where it has another header.
pub open spec fn parsed_history(journal: Seq<char>) -> Option<Seq<RecordView>> {
    let lines = text::lines_of(journal);
    if lines.len() == 0 || lines[0] != SESSION_HISTORY_HEADER@ {
        None
    } else {
        Some(parsed_records(lines.skip(1)))
    }
}

/// The place behind a sign at a place, where there is one.
fn skip_sign(chars: &[char], start: usize) -> (end: usize)
    requires
        start <= chars@.len(),
    ensures
        start <= end <= chars@.len(),
        chars@.skip(end as int) == unsigned(chars@.skip(start as int)),
{
    if start < chars.len() && (chars[start] == '+' || chars[start] == '-') {
        assert(chars@.skip(start as int).skip(1) =~= chars@.skip(start + 1));
        start + 1
    } else {
        start
    }
}

/// The place behind the digits at a place.
fn skip_digits(chars: &[char], start: usize) -> (end: usize)
    requires
        start <= chars@.len(),
    ensures
        start <= end <= chars@.len(),
        end - start == leading_digits(chars@.skip(start as int)),
        forall|i: int| start <= i < end ==> text::is_digit(#[trigger] chars@[i]),
        end < chars@.len() ==> !text::is_digit(chars@[end as int]),
{
    let mut end: usize = start;
    while end < chars.len() && '0' <= chars[end] && chars[end] <= '9'
        invariant
            start <= end <= chars@.len(),
            leading_digits(chars@.skip(start as int)) == end - start + leading_digits(
                chars@.skip(end as int),
            ),
            forall|i: int| start <= i < end ==> text::is_digit(#[trigger] chars@[i]),
        decreases chars@.len() - end,
    {
        assert(chars@.skip(end as int).skip(1) =~= chars@.skip(end + 1));
        end = end + 1;
    }
    end
}

fn reads_exponent(chars: &[char], start: usize) -> (result: bool)
    requires
        start <= chars@.len(),
    ensures
        result == is_exponent(chars@.skip(start as int)),
{
    let ghost tail = chars@.skip(start as int);
    if start == chars.len() {
        return true;
    }
    if chars[start] != 'e' && chars[start] != 'E' {
        return false;
    }
    assert(tail.skip(1) =~= chars@.skip(start + 1));
    let first: usize = skip_sign(chars, start + 1);
    let end: usize = skip_digits(chars, first);
    proof {
        let power = chars@.skip(first as int);
        assert(power == unsigned(tail.skip(1)));
        if first < end && end == chars@.len() {
            assert forall|i: int| 0 <= i < power.len() implies text::is_digit(
                #[trigger] power[i],
            ) by {
                assert(power[i] == chars@[first + i]);
            }
        } else if end < chars@.len() {
            assert(power[end - first] == chars@[end as int]);
        }
    }
    first < end && end == chars.len()
}

fn reads_fraction(chars: &[char], start: usize) -> (result: bool)
    requires
        start <= chars@.len(),
    ensures
        result == is_fraction(chars@.skip(start as int)),
{
    let ghost body = chars@.skip(start as int);
    let whole: usize = skip_digits(chars, start);
    assert(body.skip(whole - start) =~= chars@.skip(whole as int));
    if whole < chars.len() && chars[whole] == '.' {
        let end: usize = skip_digits(chars, whole + 1);
        assert(chars@.skip(whole as int).skip(1) =~= chars@.skip(whole + 1));
        assert(chars@.skip(whole + 1).skip(end - whole - 1) =~= chars@.skip(end as int));
        (whole > start || end > whole + 1) && reads_exponent(chars, end)
    } else {
        whole > start && reads_exponent(chars, whole)
    }
}

fn reads_number(chars: &[char]) -> (result: bool)
    ensures
        result == is_number(chars@),
{
    assert(chars@.skip(0) =~= chars@);
    let start: usize = skip_sign(chars, 0);
    if reads_fraction(chars, start) {
        return true;
    }
    let word = vstd::slice::slice_subrange(chars, start, chars.len());
    assert(word@ =~= chars@.skip(start as int));
    text::eq_ignore_ascii_case(word, "inf") || text::eq_ignore_ascii_case(word, "infinity")
        || text::eq_ignore_ascii_case(word, "nan")
}

fn read_reading(chars: &[char]) -> (result: Option<String>)
    ensures
        reading_view(result) == parsed_reading(chars@),
{
    if reads_number(chars) {
        Some(text::string_of(chars))
    } else {
        None
    }
}

fn replace_escape(chars: &[char], letter: char, with: char) -> (result: Vec<char>)
    ensures
        result@ == replaced(chars@, letter, with),
{
    let mut result: Vec<char> = Vec::new();
    let mut index: usize = 0;
    assert(chars@.skip(0) =~= chars@);
    assert(result@ + replaced(chars@, letter, with) =~= replaced(chars@, letter, with));
    while index < chars.len()
        invariant
            index <= chars@.len(),
            result@ + replaced(chars@.skip(index as int), letter, with) == replaced(
                chars@,
                letter,
                with,
            ),
        decreases chars@.len() - index,
    {
        let ghost before = result@;
        let ghost rest = chars@.skip(index as int);
        if chars.len() - index >= 2 && chars[index] == '\\' && chars[index + 1] == letter {
            assert(rest.skip(2) =~= chars@.skip(index + 2));
            result.push(with);
            index = index + 2;
        } else {
            assert(rest.skip(1) =~= chars@.skip(index + 1));
            proof {
                if rest.len() == 1 {
                    assert(rest =~= seq![rest[0]] + replaced(rest.skip(1), letter, with));
                }
            }
            result.push(chars[index]);
            index = index + 1;
        }
        assert(result@ + replaced(chars@.skip(index as int), letter, with) =~= before + replaced(
            rest,
            letter,
            with,
        ));
    }
    assert(result@ + replaced(chars@.skip(index as int), letter, with) =~= result@);
    result
}

fn read_sample(chars: &[char]) -> (result: Option<SessionTelemetrySample>)
    ensures
        match result {
            Some(sample) => parsed_sample(chars@) == Some(sample@),
            None => parsed_sample(chars@) is None,
        },
{
    let fields = text::split_fields(chars, ',');
    let ghost parts = text::views(fields@);
    if fields.len() != 7 {
        return None;
    }
    assert(forall|i: int| 0 <= i < 7 ==> parts[i] == #[trigger] fields@[i]@);
    match text::parse_decimal(fields[0].as_slice(), u32::MAX as u64) {
        None => None,
        Some(elapsed) => Some(
            SessionTelemetrySample {
                elapsed_seconds: elapsed as u32,
                fps: read_reading(fields[1].as_slice()),
                frame_time_ms: read_reading(fields[2].as_slice()),
                cpu_temperature_celsius: read_reading(fields[3].as_slice()),
                gpu_temperature_celsius: read_reading(fields[4].as_slice()),
                cpu_utilization_percent: read_reading(fields[5].as_slice()),
                gpu_utilization_percent: read_reading(fields[6].as_slice()),
            },
        ),
    }
}

/// Reads the samples of a session, at most as many as are kept.
fn read_timeline(chars: &[char]) -> (result: Vec<SessionTelemetrySample>)
    ensures
        sample_views(result@) == first_of(
            parsed_samples(text::fields_of(chars@, ';')),
            MAX_TIMELINE_SAMPLES as int,
        ),
{
    let fields = text::split_fields(chars, ';');
    let ghost parts = text::views(fields@);
    let mut samples: Vec<SessionTelemetrySample> = Vec::new();
    let mut index: usize = 0;
    assert(sample_views(samples@) =~= parsed_samples(parts.take(0)));
    while index < fields.len()
        invariant
            index <= fields@.len(),
            parts == text::views(fields@),
            sample_views(samples@) == parsed_samples(parts.take(index as int)),
        decreases fields@.len() - index,
    {
        assert(parts.take(index + 1).drop_last() =~= parts.take(index as int));
        assert(parts.take(index + 1).last() == fields@[index as int]@);
        if let Some(sample) = read_sample(fields[index].as_slice()) {
            let ghost before = sample_views(samples@);
            samples.push(sample);
            assert(sample_views(samples@) =~= before.push(sample@));
        }
        index = index + 1;
    }
    assert(parts.take(index as int) =~= parts);
    let ghost all = sample_views(samples@);
    samples.truncate(MAX_TIMELINE_SAMPLES);
    assert(sample_views(samples@) =~= first_of(all, MAX_TIMELINE_SAMPLES as int));
    samples
}

fn read_intervals(chars: &[char]) -> (result: Vec<u64>)
    ensures
        result@ == first_of(
            parsed_intervals(text::fields_of(chars@, ',')),
            MAX_FRAME_INTERVALS as int,
        ),
{
    let fields = text::split_fields(chars, ',');
    let ghost parts = text::views(fields@);
    let mut intervals: Vec<u64> = Vec::new();
    let mut index: usize = 0;
    assert(intervals@ =~= parsed_intervals(parts.take(0)));
    while index < fields.len()
        invariant
            index <= fields@.len(),
            parts == text::views(fields@),
            intervals@ == parsed_intervals(parts.take(index as int)),
        decreases fields@.len() - index,
    {
        assert(parts.take(index + 1).drop_last() =~= parts.take(index as int));
        assert(parts.take(index + 1).last() == fields@[index as int]@);
        if let Some(interval) = text::parse_decimal(fields[index].as_slice(), u64::MAX) {
            intervals.push(interval);
        }
        index = index + 1;
    }
    assert(parts.take(index as int) =~= parts);
    let ghost all = intervals@;
    intervals.truncate(MAX_FRAME_INTERVALS);
    assert(intervals@ =~= first_of(all, MAX_FRAME_INTERVALS as int));
    intervals
}

fn read_record(line: &[char]) -> (result: Option<SessionRecord>)
    ensures
        match result {
            Some(record) => parsed_record(line@) == Some(record@),
            None => parsed_record(line@) is None,
        },
{
    let fields = text::split_fields(line, '\t');
    let ghost parts = text::views(fields@);
    if fields.len() < 7 {
        return None;
    }
    assert(forall|i: int| 0 <= i < parts.len() ==> parts[i] == #[trigger] fields@[i]@);
    let id: u64 = match text::parse_decimal(fields[0].as_slice(), u64::MAX) {
        Some(id) => id,
        None => {
            return None;
        },
    };
    let started: u64 = match text::parse_decimal(fields[2].as_slice(), u64::MAX) {
        Some(started) => started,
        None => {
            return None;
        },
    };
    let duration: u64 = match text::parse_decimal(fields[3].as_slice(), u32::MAX as u64) {
        Some(duration) => duration,
        None => {
            return None;
        },
    };
    let empty: Vec<char> = Vec::new();
    assert(empty@ =~= Seq::<char>::empty());
    let intervals = if fields.len() > 7 {
        read_intervals(fields[7].as_slice())
    } else {
        read_intervals(empty.as_slice())
    };
    let timeline = if fields.len() > 8 {
        read_timeline(fields[8].as_slice())
    } else {
        read_timeline(empty.as_slice())
    };
    let tabs = replace_escape(fields[1].as_slice(), 't', '\t');
    let game = replace_escape(tabs.as_slice(), 'n', '\n');
    Some(
        SessionRecord {
            id,
            game: text::string_of(game.as_slice()),
            started_unix: started,
            duration_seconds: duration as u32,
            average_fps: read_reading(fields[4].as_slice()),
            one_percent_low_fps: read_reading(fields[5].as_slice()),
            point_one_percent_low_fps: read_reading(fields[6].as_slice()),
            frame_intervals_ns: intervals,
            timeline,
        },
    )
}

/// A text that is no journal.
#[derive(Clone, Copy, Debug, PartialEq, Eq, Structural)]
pub struct InvalidHistoryHeader;

impl InvalidHistoryHeader {
    pub fn message(&self) -> (result: &'static str)
        ensures
            result@ == "session history header is invalid"@,
    {
        "session history header is invalid"
    }
}

/// Reads a journal. Lines that are no session are passed over.
pub fn load(journal: &str) -> (result: Result<Vec<SessionRecord>, InvalidHistoryHeader>)
    ensures
        match result {
            Ok(records) => parsed_history(journal@) == Some(record_views(records@)),
            Err(_) => parsed_history(journal@) is None,
        },
{
    let chars = text::chars_of(journal);
    let lines = text::split_lines(chars.as_slice());
    let ghost parts = text::views(lines@);
    if lines.len() == 0 {
        return Err(InvalidHistoryHeader);
    }
    assert(parts[0] == lines@[0]@);
    if !text::spells(lines[0].as_slice(), SESSION_HISTORY_HEADER) {
        return Err(InvalidHistoryHeader);
    }
    let ghost rest = parts.skip(1);
    let mut records: Vec<SessionRecord> = Vec::new();
    let mut index: usize = 1;
    assert(record_views(records@) =~= parsed_records(rest.take(0)));
    while index < lines.len()
        invariant
            1 <= index <= lines@.len(),
            parts == text::views(lines@),
            rest == parts.skip(1),
            record_views(records@) == parsed_records(rest.take(index - 1)),
        decreases lines@.len() - index,
    {
        assert(rest.take(index as int).drop_last() =~= rest.take(index - 1));
        assert(rest.take(index as int).last() == lines@[index as int]@);
        if let Some(record) = read_record(lines[index].as_slice()) {
            let ghost before = record_views(records@);
            records.push(record);
            assert(record_views(records@) =~= before.push(record@));
        }
        index = index + 1;
    }
    assert(rest.take(index - 1) =~= rest);
    Ok(records)
}

/// The number of the next session.
pub open spec fn next_id(records: Seq<RecordView>) -> u64 {
    if records.len() == 0 {
        1
    } else if records.last().id == u64::MAX {
        u64::MAX
    } else {
        (records.last().id + 1) as u64
    }
}

/// Sessions with one more under the next number; the oldest make room.
pub open spec fn appended(records: Seq<RecordView>, record: RecordView) -> Seq<RecordView> {
    let all = records.push(RecordView { id: next_id(records), ..record });
    if all.len() > MAX_RECORDS {
        all.skip(all.len() - MAX_RECORDS)
    } else {
        all
    }
}

/// Adds a session under the next number.
pub fn append(records: Vec<SessionRecord>, record: SessionRecord) -> (result: Vec<SessionRecord>)
    ensures
        record_views(result@) == appended(record_views(records@), record@),
{
    let mut records = records;
    let mut record = record;
    let ghost before = record_views(records@);
    let ghost given = record@;
    let id: u64 = if records.len() == 0 {
        1
    } else {
        records[records.len() - 1].id.saturating_add(1)
    };
    assert(records@.len() > 0 ==> before.last() == records@.last()@);
    record.id = id;
    let ghost numbered = record@;
    records.push(record);
    let ghost all = before.push(numbered);
    assert(record_views(records@) =~= all);
    assert(all.skip(0) =~= all);
    let ghost mut dropped: int = 0;
    while records.len() > MAX_RECORDS
        invariant
            0 <= dropped <= all.len(),
            all.len() == records@.len() + dropped,
            dropped > 0 ==> records@.len() >= MAX_RECORDS,
            record_views(records@) == all.skip(dropped),
        decreases records@.len(),
    {
        let ghost held = record_views(records@);
        let _ = records.remove(0);
        assert(record_views(records@) =~= held.skip(1));
        assert(all.skip(dropped).skip(1) =~= all.skip(dropped + 1));
        proof {
            dropped = dropped + 1;
        }
    }
    records
}

proof fn lemma_joined_one_more(parts: Seq<Seq<char>>, separator: char, part: Seq<char>)
    ensures
        text::joined_fields(parts.push(part), separator) == (if parts.len() == 0 {
            part
        } else {
            text::joined_fields(parts, separator).push(separator) + part
        }),
{
    assert(parts.push(part).drop_last() =~= parts);
}

/// Appends one more of the parts that a line joins.
fn add_field(
    line: &mut Vec<char>,
    Ghost(parts): Ghost<Seq<Seq<char>>>,
    separator: char,
    field: &[char],
)
    requires
        parts.len() > 0,
        old(line)@ == text::joined_fields(parts, separator),
    ensures
        final(line)@ == text::joined_fields(parts.push(field@), separator),
{
    proof {
        lemma_joined_one_more(parts, separator, field@);
    }
    line.push(separator);
    line.extend_from_slice(field);
}

fn write_reading(reading: &Option<String>) -> (result: Vec<char>)
    ensures
        result@ == reading_text(reading_view(*reading)),
{
    match reading {
        Some(written) => text::chars_of(written.as_str()),
        None => {
            let dash = vec!['-'];
            assert(dash@ =~= seq!['-']);
            dash
        },
    }
}

fn escape_name(name: &[char]) -> (result: Vec<char>)
    ensures
        result@ == escaped(name@),
{
    let mut result: Vec<char> = Vec::new();
    let mut index: usize = 0;
    assert(name@.skip(0) =~= name@);
    assert(result@ + escaped(name@) =~= escaped(name@));
    while index < name.len()
        invariant
            index <= name@.len(),
            result@ + escaped(name@.skip(index as int)) == escaped(name@),
        decreases name@.len() - index,
    {
        let ghost before = result@;
        let ghost rest = name@.skip(index as int);
        assert(rest.skip(1) =~= name@.skip(index + 1));
        let character = name[index];
        if character == '\\' {
            result.push('\\');
            result.push('\\');
        } else if character == '\t' {
            result.push('\\');
            result.push('t');
        } else if character == '\n' {
            result.push('\\');
            result.push('n');
        } else {
            result.push(character);
        }
        index = index + 1;
        assert(result@ + escaped(name@.skip(index as int)) =~= before + escaped(rest));
    }
    assert(result@ + escaped(name@.skip(index as int)) =~= result@);
    result
}

fn write_sample(sample: &SessionTelemetrySample) -> (result: Vec<char>)
    ensures
        result@ == text::joined_fields(sample_fields(sample@), ','),
{
    let mut line = text::decimal_chars(sample.elapsed_seconds as u64);
    let ghost p1 = seq![line@];
    let fps = write_reading(&sample.fps);
    add_field(&mut line, Ghost(p1), ',', fps.as_slice());
    let ghost p2 = p1.push(fps@);
    let frame_time = write_reading(&sample.frame_time_ms);
    add_field(&mut line, Ghost(p2), ',', frame_time.as_slice());
    let ghost p3 = p2.push(frame_time@);
    let cpu_temperature = write_reading(&sample.cpu_temperature_celsius);
    add_field(&mut line, Ghost(p3), ',', cpu_temperature.as_slice());
    let ghost p4 = p3.push(cpu_temperature@);
    let gpu_temperature = write_reading(&sample.gpu_temperature_celsius);
    add_field(&mut line, Ghost(p4), ',', gpu_temperature.as_slice());
    let ghost p5 = p4.push(gpu_temperature@);
    let cpu_utilization = write_reading(&sample.cpu_utilization_percent);
    add_field(&mut line, Ghost(p5), ',', cpu_utilization.as_slice());
    let ghost p6 = p5.push(cpu_utilization@);
    let gpu_utilization = write_reading(&sample.gpu_utilization_percent);
    add_field(&mut line, Ghost(p6), ',', gpu_utilization.as_slice());
    assert(p6.push(gpu_utilization@) =~= sample_fields(sample@));
    line
}

fn write_timeline(samples: &[SessionTelemetrySample]) -> (result: Vec<char>)
    ensures
        result@ == text::joined_fields(
            sample_texts(first_of(sample_views(samples@), MAX_TIMELINE_SAMPLES as int)),
            ';',
        ),
{
    let count: usize = if samples.len() > MAX_TIMELINE_SAMPLES {
        MAX_TIMELINE_SAMPLES
    } else {
        samples.len()
    };
    let ghost texts = sample_texts(first_of(sample_views(samples@), MAX_TIMELINE_SAMPLES as int));
    let mut line: Vec<char> = Vec::new();
    let mut index: usize = 0;
    assert(line@ =~= text::joined_fields(texts.take(0), ';'));
    while index < count
        invariant
            index <= count <= samples@.len(),
            count == texts.len(),
            texts == sample_texts(
                first_of(sample_views(samples@), MAX_TIMELINE_SAMPLES as int),
            ),
            line@ == text::joined_fields(texts.take(index as int), ';'),
        decreases count - index,
    {
        let sample = write_sample(&samples[index]);
        assert(texts[index as int] == sample@);
        assert(texts.take(index as int).push(sample@) =~= texts.take(index + 1));
        if index == 0 {
            line = sample;
            proof {
                lemma_joined_one_more(texts.take(0), ';', sample@);
            }
        } else {
            add_field(&mut line, Ghost(texts.take(index as int)), ';', sample.as_slice());
        }
        index = index + 1;
    }
    assert(texts.take(index as int) =~= texts);
    line
}

fn write_intervals(intervals: &[u64]) -> (result: Vec<char>)
    ensures
        result@ == text::joined_fields(interval_texts(intervals@), ','),
{
    let ghost texts = interval_texts(intervals@);
    let mut line: Vec<char> = Vec::new();
    let mut index: usize = 0;
    assert(line@ =~= text::joined_fields(texts.take(0), ','));
    while index < intervals.len()
        invariant
            index <= intervals@.len(),
            texts == interval_texts(intervals@),
            line@ == text::joined_fields(texts.take(index as int), ','),
        decreases intervals@.len() - index,
    {
        let digits = text::decimal_chars(intervals[index]);
        assert(texts[index as int] == digits@);
        assert(texts.take(index as int).push(digits@) =~= texts.take(index + 1));
        if index == 0 {
            line = digits;
            proof {
                lemma_joined_one_more(texts.take(0), ',', digits@);
            }
        } else {
            add_field(&mut line, Ghost(texts.take(index as int)), ',', digits.as_slice());
        }
        index = index + 1;
    }
    assert(texts.take(index as int) =~= texts);
    line
}

fn write_record(record: &SessionRecord) -> (result: Vec<char>)
    ensures
        result@ == record_line(record@),
{
    let mut line = text::decimal_chars(record.id);
    let ghost p1 = seq![line@];
    let name = text::chars_of(record.game.as_str());
    let game = escape_name(name.as_slice());
    add_field(&mut line, Ghost(p1), '\t', game.as_slice());
    let ghost p2 = p1.push(game@);
    let started = text::decimal_chars(record.started_unix);
    add_field(&mut line, Ghost(p2), '\t', started.as_slice());
    let ghost p3 = p2.push(started@);
    let duration = text::decimal_chars(record.duration_seconds as u64);
    add_field(&mut line, Ghost(p3), '\t', duration.as_slice());
    let ghost p4 = p3.push(duration@);
    let average = write_reading(&record.average_fps);
    add_field(&mut line, Ghost(p4), '\t', average.as_slice());
    let ghost p5 = p4.push(average@);
    let low = write_reading(&record.one_percent_low_fps);
    add_field(&mut line, Ghost(p5), '\t', low.as_slice());
    let ghost p6 = p5.push(low@);
    let lowest = write_reading(&record.point_one_percent_low_fps);
    add_field(&mut line, Ghost(p6), '\t', lowest.as_slice());
    let ghost p7 = p6.push(lowest@);
    let intervals = write_intervals(record.frame_intervals_ns.as_slice());
    add_field(&mut line, Ghost(p7), '\t', intervals.as_slice());
    let ghost p8 = p7.push(intervals@);
    let timeline = write_timeline(record.timeline.as_slice());
    add_field(&mut line, Ghost(p8), '\t', timeline.as_slice());
    assert(p8.push(timeline@) =~= record_fields(record@));
    line
}

/// Writes a journal.
pub fn save(records: &[SessionRecord]) -> (result: String)
    ensures
        result@ == history_text(record_views(records@)),
{
    let ghost header = seq![SESSION_HISTORY_HEADER@];
    let ghost lines = record_lines(record_views(records@));
    let mut journal = text::chars_of(SESSION_HISTORY_HEADER);
    journal.push('\n');
    proof {
        text::lemma_joined_push(Seq::empty(), SESSION_HISTORY_HEADER@);
        assert(Seq::<Seq<char>>::empty().push(SESSION_HISTORY_HEADER@) =~= header);
        assert(header + lines.take(0) =~= header);
        assert(journal@ =~= text::joined_lines(header));
    }
    let mut index: usize = 0;
    while index < records.len()
        invariant
            index <= records@.len(),
            header == seq![SESSION_HISTORY_HEADER@],
            lines == record_lines(record_views(records@)),
            journal@ == text::joined_lines(header + lines.take(index as int)),
        decreases records@.len() - index,
    {
        let ghost before = journal@;
        let line = write_record(&records[index]);
        assert(lines[index as int] == line@);
        journal.extend_from_slice(line.as_slice());
        journal.push('\n');
        proof {
            text::lemma_joined_push(header + lines.take(index as int), line@);
            assert((header + lines.take(index as int)).push(line@) =~= header + lines.take(
                index + 1,
            ));
            assert(journal@ =~= before + line@ + seq!['\n']);
        }
        index = index + 1;
    }
    assert(lines.take(index as int) =~= lines);
    text::string_of(journal.as_slice())
}

/// Whether a value, where there is one, is that of a number.
pub open spec fn is_plain_reading(reading: Option<Seq<char>>) -> bool {
    reading matches Some(written) ==> is_number(written)
}

pub open spec fn is_plain_sample(sample: SampleView) -> bool {
    &&& is_plain_reading(sample.fps)
    &&& is_plain_reading(sample.frame_time_ms)
    &&& is_plain_reading(sample.cpu_temperature_celsius)
    &&& is_plain_reading(sample.gpu_temperature_celsius)
    &&& is_plain_reading(sample.cpu_utilization_percent)
    &&& is_plain_reading(sample.gpu_utilization_percent)
}

/// Whether a session has numbers for values and a name without a backslash.
pub open spec fn is_plain_record(record: RecordView) -> bool {
    &&& !record.game.contains('\\')
    &&& is_plain_reading(record.average_fps)
    &&& is_plain_reading(record.one_percent_low_fps)
    &&& is_plain_reading(record.point_one_percent_low_fps)
    &&& forall|i: int|
        0 <= i < record.timeline.len() ==> is_plain_sample(#[trigger] record.timeline[i])
}

/// A session as the journal keeps it: with bounded intervals and samples.
pub open spec fn bounded(record: RecordView) -> RecordView {
    RecordView {
        frame_intervals_ns: first_of(record.frame_intervals_ns, MAX_FRAME_INTERVALS as int),
        timeline: first_of(record.timeline, MAX_TIMELINE_SAMPLES as int),
        ..record
    }
}

/// A name in which only line feeds are escaped.
spec fn lines_escaped(name: Seq<char>) -> Seq<char>
    decreases name.len(),
{
    if name.len() == 0 {
        Seq::empty()
    } else {
        (if name[0] == '\n' {
            seq!['\\', 'n']
        } else {
            seq![name[0]]
        }) + lines_escaped(name.skip(1))
    }
}

proof fn lemma_replaced_ahead(character: char, rest: Seq<char>, letter: char, with: char)
    requires
        character != '\\' || rest.len() == 0 || rest[0] != letter,
    ensures
        replaced(seq![character] + rest, letter, with) == seq![character] + replaced(
            rest,
            letter,
            with,
        ),
{
    let whole = seq![character] + rest;
    assert(whole.skip(1) =~= rest);
    if rest.len() > 0 {
        assert(whole[1] == rest[0]);
    }
    assert(replaced(whole, letter, with) =~= seq![character] + replaced(rest, letter, with));
}

proof fn lemma_replaced_escape(rest: Seq<char>, letter: char, with: char)
    ensures
        replaced(seq!['\\', letter] + rest, letter, with) == seq![with] + replaced(
            rest,
            letter,
            with,
        ),
{
    let whole = seq!['\\', letter] + rest;
    assert(whole.skip(2) =~= rest);
    assert(whole[0] == '\\' && whole[1] == letter);
}

proof fn lemma_unescaped(name: Seq<char>)
    requires
        !name.contains('\\'),
    ensures
        unescaped(escaped(name)) == name,
    decreases name.len(),
{
    lemma_tabs(name);
    lemma_line_feeds(name);
}

proof fn lemma_rest_is_plain(name: Seq<char>)
    requires
        name.len() > 0,
        !name.contains('\\'),
    ensures
        name[0] != '\\',
        !name.skip(1).contains('\\'),
        name =~= seq![name[0]] + name.skip(1),
{
    assert(name.contains(name[0]));
    if name.skip(1).contains('\\') {
        let i = choose|i: int| 0 <= i < name.skip(1).len() && name.skip(1)[i] == '\\';
        assert(name[i + 1] == '\\');
    }
}

proof fn lemma_tabs(name: Seq<char>)
    requires
        !name.contains('\\'),
    ensures
        replaced(escaped(name), 't', '\t') == lines_escaped(name),
    decreases name.len(),
{
    if name.len() > 0 {
        lemma_rest_is_plain(name);
        let rest = name.skip(1);
        lemma_tabs(rest);
        if name[0] == '\t' {
            lemma_replaced_escape(escaped(rest), 't', '\t');
        } else if name[0] == '\n' {
            lemma_replaced_ahead('n', escaped(rest), 't', '\t');
            let inner = seq!['n'] + escaped(rest);
            lemma_replaced_ahead('\\', inner, 't', '\t');
            assert(seq!['\\', 'n'] + escaped(rest) =~= seq!['\\'] + inner);
            assert(seq!['\\', 'n'] + lines_escaped(rest) =~= seq!['\\'] + (seq!['n']
                + lines_escaped(rest)));
        } else {
            lemma_replaced_ahead(name[0], escaped(rest), 't', '\t');
        }
    }
}

proof fn lemma_line_feeds(name: Seq<char>)
    requires
        !name.contains('\\'),
    ensures
        replaced(lines_escaped(name), 'n', '\n') == name,
    decreases name.len(),
{
    if name.len() == 0 {
        assert(replaced(lines_escaped(name), 'n', '\n') =~= name);
    } else {
        lemma_rest_is_plain(name);
        let rest = name.skip(1);
        lemma_line_feeds(rest);
        if name[0] == '\n' {
            lemma_replaced_escape(lines_escaped(rest), 'n', '\n');
        } else {
            lemma_replaced_ahead(name[0], lines_escaped(rest), 'n', '\n');
        }
        assert(replaced(lines_escaped(name), 'n', '\n') =~= name);
    }
}

proof fn lemma_escaped_is_one_field(name: Seq<char>)
    ensures
        !escaped(name).contains('\t'),
        !escaped(name).contains('\n'),
    decreases name.len(),
{
    if name.len() > 0 {
        let rest = escaped(name.skip(1));
        lemma_escaped_is_one_field(name.skip(1));
        let whole = escaped(name);
        let head = whole.len() - rest.len();
        assert(head == 1 || head == 2);
        assert forall|i: int| 0 <= i < whole.len() implies whole[i] != '\t' && whole[i] != '\n' by {
            if i >= head {
                assert(whole[i] == rest[i - head]);
                assert(rest.contains(rest[i - head]));
            }
        }
    }
}

proof fn lemma_decimal_is_plain(value: nat, character: char)
    requires
        !text::is_digit(character),
    ensures
        !text::decimal(value).contains(character),
{
    text::decimal_round_trip(value);
    if text::decimal(value).contains(character) {
        let digits = text::decimal(value);
        let i = choose|i: int| 0 <= i < digits.len() && digits[i] == character;
        assert(text::is_digit(digits[i]));
    }
}

/// Whether a character can stand in a number: none of those can that
/// structure the journal.
spec fn is_number_char(character: char) -> bool {
    character != '\t' && character != '\n' && character != '\r' && character != ',' && character
        != ';'
}

spec fn all_number_chars(text: Seq<char>) -> bool {
    forall|i: int| 0 <= i < text.len() ==> is_number_char(#[trigger] text[i])
}

proof fn lemma_unsigned_is_plain(text: Seq<char>)
    requires
        all_number_chars(unsigned(text)),
    ensures
        all_number_chars(text),
{
    assert forall|i: int| 0 <= i < text.len() implies is_number_char(#[trigger] text[i]) by {
        if unsigned(text) != text {
            if i > 0 {
                assert(is_number_char(unsigned(text)[i - 1]));
            }
        } else {
            assert(is_number_char(unsigned(text)[i]));
        }
    }
}

proof fn lemma_digits_are_plain(text: Seq<char>)
    requires
        all_number_chars(text.skip(leading_digits(text) as int)),
    ensures
        leading_digits(text) <= text.len(),
        all_number_chars(text),
    decreases text.len(),
{
    if text.len() > 0 && text::is_digit(text[0]) {
        let rest = text.skip(1);
        lemma_digit_count(rest);
        assert(rest.skip(leading_digits(rest) as int) =~= text.skip(leading_digits(text) as int));
        lemma_digits_are_plain(rest);
        assert forall|i: int| 0 <= i < text.len() implies is_number_char(#[trigger] text[i]) by {
            if i > 0 {
                assert(is_number_char(rest[i - 1]));
            }
        }
    } else {
        assert(text.skip(0) =~= text);
    }
}

proof fn lemma_digit_count(text: Seq<char>)
    ensures
        leading_digits(text) <= text.len(),
    decreases text.len(),
{
    if text.len() > 0 && text::is_digit(text[0]) {
        lemma_digit_count(text.skip(1));
    }
}

proof fn lemma_exponent_is_plain(text: Seq<char>)
    requires
        is_exponent(text),
    ensures
        all_number_chars(text),
{
    if text.len() > 0 {
        let power = unsigned(text.skip(1));
        assert forall|i: int| 0 <= i < power.len() implies is_number_char(#[trigger] power[i]) by {
            assert(text::is_digit(power[i]));
        }
        lemma_unsigned_is_plain(text.skip(1));
        assert forall|i: int| 0 <= i < text.len() implies is_number_char(#[trigger] text[i]) by {
            if i > 0 {
                assert(is_number_char(text.skip(1)[i - 1]));
            }
        }
    }
}

proof fn lemma_fraction_is_plain(text: Seq<char>)
    requires
        is_fraction(text),
    ensures
        all_number_chars(text),
{
    lemma_digit_count(text);
    let rest = text.skip(leading_digits(text) as int);
    if rest.len() > 0 && rest[0] == '.' {
        let part = rest.skip(1);
        lemma_digit_count(part);
        lemma_exponent_is_plain(part.skip(leading_digits(part) as int));
        lemma_digits_are_plain(part);
        assert forall|i: int| 0 <= i < rest.len() implies is_number_char(#[trigger] rest[i]) by {
            if i > 0 {
                assert(is_number_char(part[i - 1]));
            }
        }
    } else {
        lemma_exponent_is_plain(rest);
    }
    lemma_digits_are_plain(text);
}

proof fn lemma_word_is_plain(text: Seq<char>, word: Seq<char>)
    requires
        text::alike(text, word),
        forall|i: int| 0 <= i < word.len() ==> 'a' <= #[trigger] word[i] <= 'z',
    ensures
        all_number_chars(text),
{
    let left = text.map_values(|c: char| text::lower_char(c));
    let right = word.map_values(|c: char| text::lower_char(c));
    assert(left.len() == right.len());
    assert forall|i: int| 0 <= i < text.len() implies is_number_char(#[trigger] text[i]) by {
        assert(left[i] == right[i]);
        assert('a' <= word[i] <= 'z');
    }
}

proof fn lemma_number_is_plain(text: Seq<char>)
    requires
        is_number(text),
    ensures
        all_number_chars(text),
{
    reveal_strlit("inf");
    reveal_strlit("infinity");
    reveal_strlit("nan");
    let body = unsigned(text);
    if is_fraction(body) {
        lemma_fraction_is_plain(body);
    } else if text::alike(body, "inf"@) {
        lemma_word_is_plain(body, "inf"@);
    } else if text::alike(body, "infinity"@) {
        lemma_word_is_plain(body, "infinity"@);
    } else {
        lemma_word_is_plain(body, "nan"@);
    }
    lemma_unsigned_is_plain(text);
}

/// A dash alone is no number.
proof fn lemma_dash_is_none()
    ensures
        !is_number(seq!['-']),
{
    reveal_strlit("inf");
    reveal_strlit("infinity");
    reveal_strlit("nan");
    let body = unsigned(seq!['-']);
    assert(body =~= Seq::<char>::empty());
    let lowered = body.map_values(|c: char| text::lower_char(c));
    assert(lowered.len() == 0);
    assert("inf"@.map_values(|c: char| text::lower_char(c)).len() == 3);
    assert("infinity"@.map_values(|c: char| text::lower_char(c)).len() == 8);
    assert("nan"@.map_values(|c: char| text::lower_char(c)).len() == 3);
}

proof fn lemma_reading_is_plain(reading: Option<Seq<char>>)
    requires
        is_plain_reading(reading),
    ensures
        parsed_reading(reading_text(reading)) == reading,
        !reading_text(reading).contains('\t'),
        !reading_text(reading).contains('\n'),
        !reading_text(reading).contains('\r'),
        !reading_text(reading).contains(','),
        !reading_text(reading).contains(';'),
{
    lemma_dash_is_none();
    if let Some(written) = reading {
        lemma_number_is_plain(written);
    }
}

proof fn lemma_sample_reads_back(sample: SampleView)
    requires
        is_plain_sample(sample),
    ensures
        ({
            let written = text::joined_fields(sample_fields(sample), ',');
            &&& parsed_sample(written) == Some(sample)
            &&& !written.contains('\t')
            &&& !written.contains('\n')
            &&& !written.contains('\r')
            &&& !written.contains(';')
        }),
{
    let fields = sample_fields(sample);
    lemma_reading_is_plain(sample.fps);
    lemma_reading_is_plain(sample.frame_time_ms);
    lemma_reading_is_plain(sample.cpu_temperature_celsius);
    lemma_reading_is_plain(sample.gpu_temperature_celsius);
    lemma_reading_is_plain(sample.cpu_utilization_percent);
    lemma_reading_is_plain(sample.gpu_utilization_percent);
    lemma_decimal_is_plain(sample.elapsed_seconds as nat, ',');
    lemma_decimal_is_plain(sample.elapsed_seconds as nat, '\t');
    lemma_decimal_is_plain(sample.elapsed_seconds as nat, '\n');
    lemma_decimal_is_plain(sample.elapsed_seconds as nat, '\r');
    lemma_decimal_is_plain(sample.elapsed_seconds as nat, ';');
    text::joined_fields_round_trip(fields, ',');
    text::lemma_joined_contains(fields, ',', '\t');
    text::lemma_joined_contains(fields, ',', '\n');
    text::lemma_joined_contains(fields, ',', '\r');
    text::lemma_joined_contains(fields, ',', ';');
    text::decimal_round_trip(sample.elapsed_seconds as nat);
}

proof fn lemma_samples_read_back(samples: Seq<SampleView>)
    requires
        forall|i: int| 0 <= i < samples.len() ==> is_plain_sample(#[trigger] samples[i]),
    ensures
        parsed_samples(sample_texts(samples)) == samples,
    decreases samples.len(),
{
    let texts = sample_texts(samples);
    if samples.len() == 0 {
        assert(parsed_samples(texts) =~= samples);
    } else {
        let shorter = samples.drop_last();
        assert forall|i: int| 0 <= i < shorter.len() implies is_plain_sample(
            #[trigger] shorter[i],
        ) by {
            assert(shorter[i] == samples[i]);
        }
        lemma_samples_read_back(shorter);
        assert(texts.drop_last() =~= sample_texts(shorter));
        assert(is_plain_sample(samples[samples.len() - 1]));
        lemma_sample_reads_back(samples.last());
        assert(shorter.push(samples.last()) =~= samples);
    }
}

proof fn lemma_empty_field(separator: char)
    ensures
        text::fields_of(Seq::<char>::empty(), separator) == seq![Seq::<char>::empty()],
{
    text::lemma_first_index(Seq::<char>::empty(), separator);
}

proof fn lemma_timeline_reads_back(samples: Seq<SampleView>)
    requires
        forall|i: int| 0 <= i < samples.len() ==> is_plain_sample(#[trigger] samples[i]),
    ensures
        ({
            let written = text::joined_fields(sample_texts(samples), ';');
            &&& parsed_samples(text::fields_of(written, ';')) == samples
            &&& !written.contains('\t')
            &&& !written.contains('\n')
            &&& !written.contains('\r')
        }),
{
    let texts = sample_texts(samples);
    assert forall|i: int| 0 <= i < texts.len() implies !(#[trigger] texts[i]).contains(';')
        && !texts[i].contains('\t') && !texts[i].contains('\n') && !texts[i].contains('\r') by {
        assert(is_plain_sample(samples[i]));
        lemma_sample_reads_back(samples[i]);
    }
    text::lemma_joined_contains(texts, ';', '\t');
    text::lemma_joined_contains(texts, ';', '\n');
    text::lemma_joined_contains(texts, ';', '\r');
    lemma_samples_read_back(samples);
    if samples.len() == 0 {
        lemma_empty_field(';');
        lemma_empty_field(',');
        let parts = seq![Seq::<char>::empty()];
        assert(parts.drop_last() =~= Seq::<Seq<char>>::empty());
        assert(parsed_sample(parts.last()) is None);
        assert(parsed_samples(parts.drop_last()) =~= Seq::<SampleView>::empty());
        assert(parsed_samples(parts) =~= samples);
    } else {
        text::joined_fields_round_trip(texts, ';');
    }
}

proof fn lemma_numbers_read_back(intervals: Seq<u64>)
    ensures
        parsed_intervals(interval_texts(intervals)) == intervals,
    decreases intervals.len(),
{
    let texts = interval_texts(intervals);
    if intervals.len() == 0 {
        assert(parsed_intervals(texts) =~= intervals);
    } else {
        let shorter = intervals.drop_last();
        lemma_numbers_read_back(shorter);
        assert(texts.drop_last() =~= interval_texts(shorter));
        text::decimal_round_trip(intervals.last() as nat);
        assert(shorter.push(intervals.last()) =~= intervals);
    }
}

proof fn lemma_intervals_read_back(intervals: Seq<u64>)
    ensures
        ({
            let written = text::joined_fields(interval_texts(intervals), ',');
            &&& parsed_intervals(text::fields_of(written, ',')) == intervals
            &&& !written.contains('\t')
            &&& !written.contains('\n')
        }),
{
    let texts = interval_texts(intervals);
    assert forall|i: int| 0 <= i < texts.len() implies !(#[trigger] texts[i]).contains(',')
        && !texts[i].contains('\t') && !texts[i].contains('\n') by {
        lemma_decimal_is_plain(intervals[i] as nat, ',');
        lemma_decimal_is_plain(intervals[i] as nat, '\t');
        lemma_decimal_is_plain(intervals[i] as nat, '\n');
    }
    text::lemma_joined_contains(texts, ',', '\t');
    text::lemma_joined_contains(texts, ',', '\n');
    lemma_numbers_read_back(intervals);
    if intervals.len() == 0 {
        lemma_empty_field(',');
        let parts = seq![Seq::<char>::empty()];
        assert(parts.drop_last() =~= Seq::<Seq<char>>::empty());
        assert(text::parsed_decimal(parts.last(), u64::MAX as nat) is None);
        assert(parsed_intervals(parts.drop_last()) =~= Seq::<u64>::empty());
        assert(parsed_intervals(parts) =~= intervals);
    } else {
        text::joined_fields_round_trip(texts, ',');
    }
}

proof fn lemma_record_fields(record: RecordView)
    requires
        is_plain_record(record),
    ensures
        forall|i: int|
            0 <= i < record_fields(record).len() ==> !(#[trigger] record_fields(
                record,
            )[i]).contains('\t') && !record_fields(record)[i].contains('\n'),
        !record_fields(record)[8].contains('\r'),
{
    let kept = first_of(record.timeline, MAX_TIMELINE_SAMPLES as int);
    assert forall|i: int| 0 <= i < kept.len() implies is_plain_sample(#[trigger] kept[i]) by {
        assert(kept[i] == record.timeline[i]);
    }
    lemma_timeline_reads_back(kept);
    lemma_intervals_read_back(record.frame_intervals_ns);
    lemma_escaped_is_one_field(record.game);
    lemma_reading_is_plain(record.average_fps);
    lemma_reading_is_plain(record.one_percent_low_fps);
    lemma_reading_is_plain(record.point_one_percent_low_fps);
    lemma_decimal_is_plain(record.id as nat, '\t');
    lemma_decimal_is_plain(record.id as nat, '\n');
    lemma_decimal_is_plain(record.started_unix as nat, '\t');
    lemma_decimal_is_plain(record.started_unix as nat, '\n');
    lemma_decimal_is_plain(record.duration_seconds as nat, '\t');
    lemma_decimal_is_plain(record.duration_seconds as nat, '\n');
}

proof fn lemma_record_reads_back(record: RecordView)
    requires
        is_plain_record(record),
    ensures
        parsed_record(record_line(record)) == Some(bounded(record)),
        text::is_clean_line(record_line(record)),
{
    let fields = record_fields(record);
    let line = record_line(record);
    lemma_record_fields(record);
    text::joined_fields_round_trip(fields, '\t');
    text::lemma_joined_contains(fields, '\t', '\n');
    assert forall|i: int| 0 <= i < line.len() implies #[trigger] line[i] != '\n' by {
        assert(line.contains(line[i]));
    }
    assert(line == text::joined_fields(fields.drop_last(), '\t').push('\t') + fields.last());
    if fields.last().len() > 0 {
        assert(line.last() == fields.last().last());
        assert(fields[8].contains(fields[8].last()));
    } else {
        assert(line.last() == '\t');
    }
    let kept = first_of(record.timeline, MAX_TIMELINE_SAMPLES as int);
    assert forall|i: int| 0 <= i < kept.len() implies is_plain_sample(#[trigger] kept[i]) by {
        assert(kept[i] == record.timeline[i]);
    }
    lemma_timeline_reads_back(kept);
    lemma_intervals_read_back(record.frame_intervals_ns);
    lemma_unescaped(record.game);
    lemma_reading_is_plain(record.average_fps);
    lemma_reading_is_plain(record.one_percent_low_fps);
    lemma_reading_is_plain(record.point_one_percent_low_fps);
    text::decimal_round_trip(record.id as nat);
    text::decimal_round_trip(record.started_unix as nat);
    text::decimal_round_trip(record.duration_seconds as nat);
}

proof fn lemma_records_read_back(records: Seq<RecordView>)
    requires
        forall|i: int| 0 <= i < records.len() ==> is_plain_record(#[trigger] records[i]),
    ensures
        parsed_records(record_lines(records)) == records.map_values(
            |record: RecordView| bounded(record),
        ),
    decreases records.len(),
{
    let lines = record_lines(records);
    let kept = records.map_values(|record: RecordView| bounded(record));
    if records.len() == 0 {
        assert(parsed_records(lines) =~= kept);
    } else {
        let shorter = records.drop_last();
        assert forall|i: int| 0 <= i < shorter.len() implies is_plain_record(
            #[trigger] shorter[i],
        ) by {
            assert(shorter[i] == records[i]);
        }
        lemma_records_read_back(shorter);
        assert(lines.drop_last() =~= record_lines(shorter));
        assert(is_plain_record(records[records.len() - 1]));
        lemma_record_reads_back(records.last());
        assert(shorter.map_values(|record: RecordView| bounded(record)).push(
            bounded(records.last()),
        ) =~= kept);
    }
}

/// A journal reads back as the sessions that it was written from, with their
/// intervals and samples bounded. Names with a backslash are left out: the
/// backslash comes back doubled.
pub proof fn history_round_trip(records: Seq<RecordView>)
    requires
        forall|i: int| 0 <= i < records.len() ==> is_plain_record(#[trigger] records[i]),
    ensures
        parsed_history(history_text(records)) == Some(
            records.map_values(|record: RecordView| bounded(record)),
        ),
{
    reveal_strlit("redunar-session-history-v1");
    let lines = record_lines(records);
    let all = seq![SESSION_HISTORY_HEADER@] + lines;
    assert(text::is_clean_line(SESSION_HISTORY_HEADER@));
    assert forall|i: int| 0 <= i < all.len() implies text::is_clean_line(#[trigger] all[i]) by {
        if i > 0 {
            assert(all[i] == record_line(records[i - 1]));
            lemma_record_reads_back(records[i - 1]);
        }
    }
    text::joined_lines_round_trip(all);
    assert(all.skip(1) =~= lines);
    lemma_records_read_back(records);
}

/// The journal never grows beyond its bound, its newest entry is the session
/// that was added, and that session's number is larger than the one before
/// until the numbers run out.
pub proof fn appended_is_bounded(records: Seq<RecordView>, record: RecordView)
    ensures
        0 < appended(records, record).len() <= MAX_RECORDS,
        appended(records, record).last() == (RecordView { id: next_id(records), ..record }),
        records.len() > 0 && records.last().id < u64::MAX ==> appended(records, record).last().id
            > records.last().id,
{
}

/// The history keeps the 64 newest sessions in their order, and a new session
/// gets the number behind the last one's.
pub proof fn newest_sessions_are_kept(records: Seq<RecordView>, record: RecordView)
    requires
        records.len() <= 64,
    ensures
        ({
            let after = appended(records, record);
            &&& after.len() == if records.len() < 64 { records.len() + 1 } else { 64 }
            &&& after.drop_last() == records.skip(records.len() - (after.len() - 1))
            &&& after.last() == RecordView { id: after.last().id, ..record }
            &&& records.len() == 0 ==> after.last().id == 1
            &&& records.len() > 0 && records.last().id < u64::MAX ==> after.last().id
                == records.last().id + 1
        }),
{
    let after = appended(records, record);
    assert(after.drop_last() =~= records.skip(records.len() - (after.len() - 1)));
}

/// A session is stored with its first 240 frame intervals and its first 7200
/// samples, two hours of them, and otherwise whole.
pub proof fn sessions_are_stored_to_two_hours(record: RecordView)
    ensures
        ({
            let stored = bounded(record);
            &&& stored == RecordView {
                frame_intervals_ns: stored.frame_intervals_ns,
                timeline: stored.timeline,
                ..record
            }
            &&& stored.frame_intervals_ns == record.frame_intervals_ns.take(
                if record.frame_intervals_ns.len() < 240 {
                    record.frame_intervals_ns.len() as int
                } else {
                    240
                },
            )
            &&& stored.timeline == record.timeline.take(
                if record.timeline.len() < 7_200 {
                    record.timeline.len() as int
                } else {
                    7_200
                },
            )
        }),
{
    assert(record.frame_intervals_ns.take(record.frame_intervals_ns.len() as int)
        =~= record.frame_intervals_ns);
    assert(record.timeline.take(record.timeline.len() as int) =~= record.timeline);
}

/// A stored session is a line of columns: its number, the game, when it started
/// and how long it lasted, then the average and the two lows.
pub proof fn sessions_have_their_columns(
    id: u64,
    game: Seq<char>,
    started: u64,
    duration: u32,
    average: Seq<char>,
    low: Seq<char>,
    lowest: Seq<char>,
)
    requires
        !game.contains('\t'),
        !game.contains('\\'),
        !average.contains('\t') && !low.contains('\t') && !lowest.contains('\t'),
    ensures
        parsed_record(
            text::joined_fields(
                seq![
                    text::decimal(id as nat),
                    game,
                    text::decimal(started as nat),
                    text::decimal(duration as nat),
                    average,
                    low,
                    lowest,
                ],
                '\t',
            ),
        ) matches Some(record) && record.id == id && record.game == game && record.started_unix
            == started && record.duration_seconds == duration && record.average_fps
            == parsed_reading(average) && record.one_percent_low_fps == parsed_reading(low)
            && record.point_one_percent_low_fps == parsed_reading(lowest),
{
    let fields = seq![
        text::decimal(id as nat),
        game,
        text::decimal(started as nat),
        text::decimal(duration as nat),
        average,
        low,
        lowest,
    ];
    text::decimal_round_trip(id as nat);
    text::decimal_round_trip(started as nat);
    text::decimal_round_trip(duration as nat);
    lemma_no_tab(id as nat);
    lemma_no_tab(started as nat);
    lemma_no_tab(duration as nat);
    assert forall|i: int| 0 <= i < fields.len() implies !(#[trigger] fields[i]).contains('\t') by {
        assert(i == 0 || i == 1 || i == 2 || i == 3 || i == 4 || i == 5 || i == 6);
    }
    text::joined_fields_round_trip(fields, '\t');
    lemma_nothing_replaced(game, 't', '\t');
    lemma_nothing_replaced(game, 'n', '\n');
}

proof fn lemma_no_tab(value: nat)
    ensures
        !text::decimal(value).contains('\t'),
{
    text::decimal_round_trip(value);
    let digits = text::decimal(value);
    assert forall|i: int| 0 <= i < digits.len() implies digits[i] != '\t' by {
        assert(text::is_digit(digits[i]));
    }
}

proof fn lemma_nothing_replaced(chars: Seq<char>, letter: char, with: char)
    requires
        !chars.contains('\\'),
    ensures
        replaced(chars, letter, with) == chars,
    decreases chars.len(),
{
    if chars.len() >= 2 {
        assert(chars[0] != '\\') by {
            assert(chars.contains(chars[0]));
        }
        let rest = chars.skip(1);
        assert forall|i: int| 0 <= i < rest.len() implies rest[i] != '\\' by {
            assert(chars.contains(chars[i + 1]));
        }
        lemma_nothing_replaced(rest, letter, with);
        assert(seq![chars[0]] + rest =~= chars);
    }
}

proof fn lemma_leading_run(digits: Seq<char>, rest: Seq<char>)
    requires
        forall|i: int| 0 <= i < digits.len() ==> text::is_digit(#[trigger] digits[i]),
        rest.len() > 0 ==> !text::is_digit(rest[0]),
    ensures
        leading_digits(digits + rest) == digits.len(),
    decreases digits.len(),
{
    let all = digits + rest;
    if digits.len() == 0 {
        assert(all =~= rest);
    } else {
        assert(text::is_digit(digits[0]));
        assert(all[0] == digits[0]);
        let later = digits.skip(1);
        assert forall|i: int| 0 <= i < later.len() implies text::is_digit(#[trigger] later[i]) by {
            assert(later[i] == digits[i + 1]);
        }
        lemma_leading_run(later, rest);
        assert(all.skip(1) =~= later + rest);
    }
}

/// A reading is a number with or without a fraction, above or below zero. The
/// mark for a missing one is none.
pub proof fn readings_are_numbers(whole: nat, fraction: nat)
    ensures
        ({
            let plain = text::decimal(whole);
            let fractional = text::decimal(whole) + seq!['.'] + text::decimal(fraction);
            &&& parsed_reading(plain) == Some(plain)
            &&& parsed_reading(fractional) == Some(fractional)
            &&& parsed_reading(seq!['-'] + fractional) == Some(seq!['-'] + fractional)
            &&& parsed_reading(seq!['-']) is None
        }),
{
    let plain = text::decimal(whole);
    let part = text::decimal(fraction);
    let none = Seq::<char>::empty();
    let fractional = plain + seq!['.'] + part;
    let below = seq!['-'] + fractional;
    text::decimal_round_trip(whole);
    text::decimal_round_trip(fraction);
    assert(text::is_digit(plain[0]) && text::is_digit(part[0]));
    lemma_leading_run(plain, none);
    assert(plain + none =~= plain);
    assert(plain.skip(plain.len() as int) =~= none);
    assert(unsigned(plain) == plain);
    assert(is_fraction(plain));
    let rest = seq!['.'] + part;
    assert(fractional =~= plain + rest);
    lemma_leading_run(plain, rest);
    assert(fractional.skip(plain.len() as int) =~= rest);
    assert(rest.skip(1) =~= part);
    lemma_leading_run(part, none);
    assert(part + none =~= part);
    assert(part.skip(part.len() as int) =~= none);
    assert(fractional[0] == plain[0]);
    assert(unsigned(fractional) == fractional);
    assert(is_fraction(fractional));
    assert(below[0] == '-');
    assert(below.skip(1) =~= fractional);
    let mark = seq!['-'];
    assert(mark.skip(1) =~= none);
    assert(unsigned(mark) =~= none);
    reveal_strlit("inf");
    reveal_strlit("infinity");
    reveal_strlit("nan");
    text::lemma_alike_length(none, "inf"@);
    text::lemma_alike_length(none, "infinity"@);
    text::lemma_alike_length(none, "nan"@);
    assert(leading_digits(none) == 0);
    assert(!is_fraction(none));
}

/// A history starts with the line of its version, and has a line for each
/// session. A text with another first line is no history.
pub proof fn histories_start_with_their_version(records: Seq<RecordView>, journal: Seq<char>)
    ensures
        history_text(records) == text::joined_lines(
            seq!["redunar-session-history-v1"@] + record_lines(records),
        ),
        text::lines_of(journal).len() > 0 && text::lines_of(journal)[0]
            != "redunar-session-history-v1"@ ==> parsed_history(journal) is None,
        text::lines_of(journal).len() == 0 ==> parsed_history(journal) is None,
{
}

} // verus!
