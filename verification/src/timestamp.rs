//! Timestamp text handling for ingestion: a timestamp cell uses the
//! pattern `YYYY/MM/DD HH:MM:SS` with trailing time components optional;
//! missing components are padded with zeros before parsing, so a bare
//! date means midnight and a date with hours and minutes means zero
//! seconds.

use vstd::prelude::*;
use chrono::TimeZone;

verus! {

/// Number of `:` characters in the text.
pub open spec fn colon_count(s: Seq<char>) -> nat
    decreases s.len(),
{
    if s.len() == 0 {
        0
    } else {
        colon_count(s.drop_last()) + if s.last() == ':' {
            1nat
        } else {
            0nat
        }
    }
}

/// Some character of the text is a blank, which in a timestamp cell
/// separates the date from the time-of-day part.
pub open spec fn has_blank(s: Seq<char>) -> bool {
    exists|i: int| 0 <= i < s.len() && s[i] == ' '
}

/// The text completed with zeros for the missing trailing time
/// components: a full timestamp has a blank between date and time and
/// two colons (between hours, minutes and seconds). A cell with one
/// colon lacks seconds; one with no colon but a blank lacks minutes and
/// seconds; a bare date (no colon, no blank) means midnight.
pub open spec fn normalized(s: Seq<char>) -> Seq<char> {
    if colon_count(s) >= 2 {
        s
    } else if colon_count(s) == 1 {
        s + ":00"@
    } else if has_blank(s) {
        s + ":00"@ + ":00"@
    } else {
        s + " 00:00:00"@
    }
}

/// Completes a timestamp cell with zeros for its missing trailing time
/// components, so the text carries a full `YYYY/MM/DD HH:MM:SS` shape.
pub fn normalize_timestamp(s: &str) -> (r: String)
    ensures
        r@ == normalized(s@),
{
    let n = s.unicode_len();
    let mut count: usize = 0;
    let mut blank: bool = false;
    let mut i: usize = 0;
    while i < n
        invariant
            i <= n,
            n == s@.len(),
            count <= i,
            count as nat == colon_count(s@.take(i as int)),
            blank == has_blank(s@.take(i as int)),
        decreases n - i,
    {
        let c = s.get_char(i);
        proof {
            assert(s@.take(i as int + 1).drop_last() =~= s@.take(i as int));
            assert(s@.take(i as int + 1).last() == s@[i as int]);
            assert(has_blank(s@.take(i as int + 1)) <==> (has_blank(s@.take(i as int)) || s@[i
                as int] == ' ')) by {
                if has_blank(s@.take(i as int + 1)) {
                    let j = choose|j: int|
                        0 <= j < s@.take(i as int + 1).len() && #[trigger] s@.take(
                            i as int + 1,
                        )[j] == ' ';
                    if j < i as int {
                        assert(s@.take(i as int)[j] == ' ');
                    }
                }
                if has_blank(s@.take(i as int)) {
                    let j = choose|j: int|
                        0 <= j < s@.take(i as int).len() && #[trigger] s@.take(i as int)[j] == ' ';
                    assert(s@.take(i as int + 1)[j] == ' ');
                }
                if s@[i as int] == ' ' {
                    assert(s@.take(i as int + 1)[i as int] == ' ');
                }
            }
        }
        if c == ':' {
            count += 1;
        }
        if c == ' ' {
            blank = true;
        }
        i += 1;
    }
    proof {
        assert(s@.take(n as int) =~= s@);
    }
    let mut out = s.to_owned();
    if count == 0 {
        if blank {
            out.append(":00");
            out.append(":00");
        } else {
            out.append(" 00:00:00");
        }
    } else if count == 1 {
        out.append(":00");
    }
    out
}

/// Whether a text matches the fixed pattern `%Y/%m/%d %H:%M:%S` as
/// chrono's parser reads it: a function of the text alone, machine and
/// time zone independent.
pub uninterp spec fn matches_timestamp_pattern(s: Seq<char>) -> bool;

/// Relies on chrono's `NaiveDateTime::parse_from_str` with the fixed
/// pattern `%Y/%m/%d %H:%M:%S` to read a wall-clock time, and on
/// `TimeZone::from_local_datetime` for `Local` with
/// `MappedLocalTime::single` to resolve that wall-clock time in the
/// machine's local time zone. Returns the resolved moment in seconds
/// since the Unix epoch, or `None` when the text does not match the
/// pattern or the wall-clock time has no single local meaning. Which
/// moment comes back depends on the machine's time zone, so no value is
/// promised; but parsing itself reads the text alone, so a result can
/// only come back for text that matches the pattern.
#[verifier::external_body]
fn parse_local_seconds(text: &str) -> (r: Option<i64>)
    ensures
        r is Some ==> matches_timestamp_pattern(text@),
{
    match chrono::NaiveDateTime::parse_from_str(text, "%Y/%m/%d %H:%M:%S") {
        Ok(dt) => match chrono::Local.from_local_datetime(&dt).single() {
            Some(local) => Some(local.timestamp()),
            None => None,
        },
        Err(_) => None,
    }
}

/// Reads a `create_timestamp` cell: pads missing trailing time
/// components with zeros, then resolves the text in the machine's local
/// time zone. The moment returned depends on that time zone, so nothing
/// is promised of its value; `PlayLog::new` takes it as a plain number.
/// A moment comes back only for a cell whose padded text matches the
/// timestamp pattern.
pub fn parse_create_timestamp(text: &str) -> (r: Option<i64>)
    ensures
        r is Some ==> matches_timestamp_pattern(normalized(text@)),
{
    let padded = normalize_timestamp(text);
    parse_local_seconds(padded.as_str())
}

} // verus!
