//! Memory usage from the kernel's report.
//!
//! A report without what is available is no reading: free pages alone would
//! be a guess.
use crate::text;
use vstd::prelude::*;

verus! {

/// How many bytes a report may have.
pub const MAX_MEMORY_BYTES: usize = 65_536;

#[derive(Clone, Copy, Debug, PartialEq, Eq, Structural)]
pub struct MemorySnapshot {
    pub total_bytes: u64,
    pub used_bytes: u64,
}

/// The bytes that a line of the report states: a number of kibibytes behind
/// the line's name.
pub open spec fn stated_bytes(words: Seq<Seq<char>>) -> Option<u64> {
    if words.len() != 3 || words[2] != "kB"@ {
        None
    } else {
        match text::parsed_decimal(words[1], u64::MAX as nat) {
            Some(kibibytes) => if kibibytes * 1024 <= u64::MAX {
                Some((kibibytes * 1024) as u64)
            } else {
                None
            },
            None => None,
        }
    }
}

/// What is known of the total and the available memory after some lines, or
/// none where a line is empty, repeated or malformed.
pub open spec fn stated(lines: Seq<Seq<char>>) -> Option<(Option<u64>, Option<u64>)>
    decreases lines.len(),
{
    if lines.len() == 0 {
        Some((None, None))
    } else {
        let words = text::words_of(lines.last());
        match stated(lines.drop_last()) {
            None => None,
            Some((total, available)) => if words.len() == 0 {
                None
            } else if words[0] == "MemTotal:"@ {
                if total is None && stated_bytes(words) is Some {
                    Some((stated_bytes(words), available))
                } else {
                    None
                }
            } else if words[0] == "MemAvailable:"@ {
                if available is None && stated_bytes(words) is Some {
                    Some((total, stated_bytes(words)))
                } else {
                    None
                }
            } else {
                Some((total, available))
            },
        }
    }
}

/// The memory that a report states.
pub open spec fn reported(report: Seq<char>) -> Option<MemorySnapshot> {
    match stated(text::lines_of(report)) {
        Some((Some(total), Some(available))) => if 0 < total && available <= total {
            Some(
                MemorySnapshot { total_bytes: total, used_bytes: (total - available) as u64 },
            )
        } else {
            None
        },
        _ => None,
    }
}

fn read_bytes(words: &Vec<Vec<char>>) -> (result: Option<u64>)
    ensures
        result == stated_bytes(text::views(words@)),
{
    let ghost views = text::views(words@);
    if words.len() != 3 {
        return None;
    }
    assert(views[1] == words@[1]@ && views[2] == words@[2]@);
    if !text::spells(words[2].as_slice(), "kB") {
        return None;
    }
    match text::parse_decimal(words[1].as_slice(), u64::MAX) {
        Some(kibibytes) => kibibytes.checked_mul(1024),
        None => None,
    }
}

proof fn lemma_no_more(lines: Seq<Seq<char>>, count: int)
    requires
        0 <= count <= lines.len(),
        stated(lines.take(count)) is None,
    ensures
        stated(lines) is None,
    decreases lines.len() - count,
{
    if count == lines.len() {
        assert(lines.take(count) =~= lines);
    } else {
        assert(lines.take(count + 1).drop_last() =~= lines.take(count));
        lemma_no_more(lines, count + 1);
    }
}

/// Reads the memory that a report states.
pub fn parse_memory(report: &str) -> (result: Option<MemorySnapshot>)
    ensures
        result == reported(report@),
{
    let chars = text::chars_of(report);
    let lines = text::split_lines(chars.as_slice());
    let ghost all = text::views(lines@);
    let mut total: Option<u64> = None;
    let mut available: Option<u64> = None;
    let mut index: usize = 0;
    assert(all.take(0) =~= Seq::<Seq<char>>::empty());
    while index < lines.len()
        invariant
            index <= lines@.len(),
            all == text::views(lines@),
            all == text::lines_of(report@),
            stated(all.take(index as int)) == Some((total, available)),
        decreases lines@.len() - index,
    {
        let words = text::split_words(lines[index].as_slice());
        let ghost views = text::views(words@);
        proof {
            assert(all.take(index + 1).drop_last() =~= all.take(index as int));
            assert(all.take(index + 1).last() == lines@[index as int]@);
            if stated(all.take(index + 1)) is None {
                lemma_no_more(all, index + 1);
            }
        }
        if words.len() == 0 {
            return None;
        }
        assert(views[0] == words@[0]@);
        let is_total = text::spells(words[0].as_slice(), "MemTotal:");
        let is_available = text::spells(words[0].as_slice(), "MemAvailable:");
        if is_total || is_available {
            let known = if is_total {
                total
            } else {
                available
            };
            if known.is_some() {
                return None;
            }
            let value = read_bytes(&words);
            if value.is_none() {
                return None;
            }
            if is_total {
                total = value;
            } else {
                available = value;
            }
        }
        index = index + 1;
    }
    assert(all.take(index as int) =~= all);
    match (total, available) {
        (Some(total), Some(available)) => if 0 < total && available <= total {
            Some(MemorySnapshot { total_bytes: total, used_bytes: total - available })
        } else {
            None
        },
        _ => None,
    }
}

/// Reads a report of bounded size.
pub fn read_memory(report: &[u8]) -> (result: Option<MemorySnapshot>)
    ensures
        result == (if report@.len() <= MAX_MEMORY_BYTES && vstd::utf8::valid_utf8(report@) {
            reported(vstd::utf8::decode_utf8(report@))
        } else {
            None
        }),
{
    if report.len() > MAX_MEMORY_BYTES {
        return None;
    }
    match text::decode(report) {
        Some(decoded) => parse_memory(decoded.as_str()),
        None => None,
    }
}

/// No report states more used memory than there is.
pub proof fn used_is_at_most_total(report: Seq<char>)
    requires
        reported(report) is Some,
    ensures
        0 < reported(report)->0.total_bytes,
        reported(report)->0.used_bytes <= reported(report)->0.total_bytes,
{
}

/// Whether a line is a name, a number of kibibytes and their unit.
pub open spec fn is_statement(line: Seq<char>, name: Seq<char>, kibibytes: nat) -> bool {
    text::words_of(line) == seq![name, text::decimal(kibibytes), "kB"@]
}

/// A report that states the total and the available memory once each, among
/// any other lines, gives both in bytes: 1024 to each kibibyte, and in use is
/// what is not available.
pub proof fn kibibytes_are_shown_as_bytes(
    report: Seq<char>,
    at_total: int,
    total: nat,
    at_available: int,
    available: nat,
)
    requires
        0 <= at_total < text::lines_of(report).len(),
        0 <= at_available < text::lines_of(report).len(),
        is_statement(text::lines_of(report)[at_total], "MemTotal:"@, total),
        is_statement(text::lines_of(report)[at_available], "MemAvailable:"@, available),
        forall|i: int|
            0 <= i < text::lines_of(report).len() && i != at_total && i != at_available ==> {
                let words = text::words_of(#[trigger] text::lines_of(report)[i]);
                words.len() > 0 && words[0] != "MemTotal:"@ && words[0] != "MemAvailable:"@
            },
        0 < total,
        available <= total,
        total * 1024 <= u64::MAX,
    ensures
        reported(report) matches Some(snapshot) && snapshot.total_bytes == total * 1024
            && snapshot.used_bytes == (total - available) * 1024,
{
    reveal_strlit("MemTotal:");
    reveal_strlit("MemAvailable:");
    let lines = text::lines_of(report);
    assert("MemTotal:"@[3] != "MemAvailable:"@[3]);
    assert(text::words_of(lines[at_total])[0] == "MemTotal:"@);
    assert(text::words_of(lines[at_available])[0] == "MemAvailable:"@);
    lemma_stated_so_far(lines, at_total, total, at_available, available, lines.len() as int);
    assert(lines.take(lines.len() as int) =~= lines);
}

proof fn lemma_stated_so_far(
    lines: Seq<Seq<char>>,
    at_total: int,
    total: nat,
    at_available: int,
    available: nat,
    count: int,
)
    requires
        0 <= count <= lines.len(),
        0 <= at_total < lines.len(),
        0 <= at_available < lines.len(),
        at_total != at_available,
        is_statement(lines[at_total], "MemTotal:"@, total),
        is_statement(lines[at_available], "MemAvailable:"@, available),
        "MemTotal:"@ != "MemAvailable:"@,
        forall|i: int|
            0 <= i < lines.len() && i != at_total && i != at_available ==> {
                let words = text::words_of(#[trigger] lines[i]);
                words.len() > 0 && words[0] != "MemTotal:"@ && words[0] != "MemAvailable:"@
            },
        available <= total,
        total * 1024 <= u64::MAX,
    ensures
        stated(lines.take(count)) == Some(
            (
                if at_total < count {
                    Some((total * 1024) as u64)
                } else {
                    None
                },
                if at_available < count {
                    Some((available * 1024) as u64)
                } else {
                    None
                },
            ),
        ),
    decreases count,
{
    if count > 0 {
        lemma_stated_so_far(lines, at_total, total, at_available, available, count - 1);
        assert(lines.take(count).drop_last() =~= lines.take(count - 1));
        assert(lines.take(count).last() == lines[count - 1]);
        text::decimal_round_trip(total);
        text::decimal_round_trip(available);
        let words = text::words_of(lines[count - 1]);
        if count - 1 == at_total {
            assert(words[1] == text::decimal(total) && words[2] == "kB"@);
        } else if count - 1 == at_available {
            assert(words[1] == text::decimal(available) && words[2] == "kB"@);
        }
    }
}

/// A report of up to 64 kibibytes is read.
pub proof fn reports_are_short()
    ensures
        MAX_MEMORY_BYTES == 64 * 1_024,
{
}

} // verus!
