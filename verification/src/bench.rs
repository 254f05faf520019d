//! Events on a bench, one to a line: the name of an event and, for a duck, its beacon id.

use vstd::prelude::*;

use crate::daemon::kind_named;
use crate::proto::{EventKind, RobotEvent};

verus! {

/// What stands between two words.
pub open spec fn is_blank(c: char) -> bool {
    c == ' ' || c == '\t' || c == '\n' || c == '\r'
}

/// The first place from `from` on that is blank, or is not; the end of the line if there is none.
pub open spec fn place_of(line: Seq<char>, from: nat, blank: bool) -> nat
    decreases line.len() - from,
{
    if from >= line.len() || is_blank(line[from as int]) == blank {
        from
    } else {
        place_of(line, from + 1, blank)
    }
}

/// Where the first word from `from` on starts and ends.
pub open spec fn word_from(line: Seq<char>, from: nat) -> (nat, nat) {
    let start = place_of(line, from, false);
    (start, place_of(line, start, true))
}

pub open spec fn is_digit(c: char) -> bool {
    '0' <= c <= '9'
}

/// The number that digits write.
pub open spec fn number_of(digits: Seq<char>) -> nat
    decreases digits.len(),
{
    if digits.len() == 0 {
        0
    } else {
        number_of(digits.drop_last()) * 10 + (digits.last() as nat - '0' as nat) as nat
    }
}

/// The beacon id a word writes, if it writes one.
pub open spec fn id_of(word: Seq<char>) -> Option<u16> {
    if word.len() > 0 && (forall|i: int| 0 <= i < word.len() ==> is_digit(#[trigger] word[i]))
        && number_of(word) <= u16::MAX {
        Some(number_of(word) as u16)
    } else {
        None
    }
}

/// The event on a line: its first word names it, and its second is the beacon id.
pub open spec fn event_on(line: Seq<char>) -> Option<RobotEvent> {
    let name = word_from(line, 0);
    let id = word_from(line, name.1);
    match kind_named(line.subrange(name.0 as int, name.1 as int)) {
        Some(kind) => Some(
            RobotEvent { kind, id: id_of(line.subrange(id.0 as int, id.1 as int)) },
        ),
        None => None,
    }
}

fn blank(c: char) -> (r: bool)
    ensures
        r == is_blank(c),
{
    c == ' ' || c == '\t' || c == '\n' || c == '\r'
}

fn seek(line: &str, from: usize, wanted: bool) -> (to: usize)
    requires
        from <= line@.len(),
    ensures
        to == place_of(line@, from as nat, wanted),
        from <= to <= line@.len(),
{
    let n: usize = line.unicode_len();
    let mut i: usize = from;
    while i < n && blank(line.get_char(i)) != wanted
        invariant
            n == line@.len(),
            from <= i <= n,
            place_of(line@, from as nat, wanted) == place_of(line@, i as nat, wanted),
        decreases n - i,
    {
        i += 1;
    }
    i
}

fn parse_id(word: &str) -> (id: Option<u16>)
    ensures
        id == id_of(word@),
{
    let n: usize = word.unicode_len();
    if n == 0 {
        return None;
    }
    let mut v: u32 = 0;
    let mut i: usize = 0;
    while i < n
        invariant
            n == word@.len(),
            i <= n,
            forall|j: int| 0 <= j < i ==> is_digit(#[trigger] word@[j]),
            v <= 65_536,
            v < 65_536 ==> v == number_of(word@.take(i as int)),
            v == 65_536 ==> number_of(word@.take(i as int)) > u16::MAX,
        decreases n - i,
    {
        let c = word.get_char(i);
        if !('0' <= c && c <= '9') {
            return None;
        }
        proof {
            let now = word@.take(i as int + 1);
            assert(now.drop_last() =~= word@.take(i as int));
            assert(now.last() == c);
        }
        v = v * 10 + (c as u32 - '0' as u32);
        if v > 65_535 {
            v = 65_536;
        }
        i += 1;
    }
    assert(word@.take(n as int) =~= word@);
    if v <= 65_535 {
        Some(v as u16)
    } else {
        None
    }
}

impl RobotEvent {
    /// The event on a line of a bench file.
    pub fn from_line(line: &str) -> (e: Option<RobotEvent>)
        ensures
            e == event_on(line@),
    {
        let start: usize = seek(line, 0, false);
        let end: usize = seek(line, start, true);
        let from: usize = seek(line, end, false);
        let to: usize = seek(line, from, true);
        match EventKind::named(line.substring_char(start, end)) {
            Some(kind) => Some(RobotEvent { kind, id: parse_id(line.substring_char(from, to)) }),
            None => None,
        }
    }
}

} // verus!
