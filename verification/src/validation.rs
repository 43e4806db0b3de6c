//! Parsers for caller-supplied argument strings: a comma-separated tag list
//! and a strict `year-month-day` calendar date.

use vstd::prelude::*;
use crate::filter::{trim, trim_spec};
use crate::rfc2822::days_in_month;

verus! {

/// The raw pieces of `s` split on commas, with `acc` the piece read so far.
pub open spec fn split_commas(s: Seq<char>, acc: Seq<char>) -> Seq<Seq<char>>
    decreases s.len(),
{
    if s.len() == 0 {
        seq![acc]
    } else if s[0] == ',' {
        seq![acc] + split_commas(s.drop_first(), Seq::empty())
    } else {
        split_commas(s.drop_first(), acc.push(s[0]))
    }
}

/// The pieces trimmed, empty ones dropped, case and order kept.
pub open spec fn clean_tags(pieces: Seq<Seq<char>>) -> Seq<Seq<char>>
    decreases pieces.len(),
{
    if pieces.len() == 0 {
        seq![]
    } else {
        let rest = clean_tags(pieces.drop_last());
        let t = trim_spec(pieces.last());
        if t.len() == 0 {
            rest
        } else {
            rest.push(t)
        }
    }
}

/// What parsing a tag list yields: split on commas, each piece trimmed,
/// empty pieces dropped.
pub open spec fn parse_tags_spec(s: Seq<char>) -> Seq<Seq<char>> {
    clean_tags(split_commas(s, Seq::empty()))
}

/// Concatenation of piece sequences is associative.
proof fn lemma_passoc(a: Seq<Seq<char>>, b: Seq<Seq<char>>, c: Seq<Seq<char>>)
    ensures
        (a + b) + c == a + (b + c),
{
    assert((a + b) + c =~= a + (b + c));
}

/// Parses a comma-separated tag list: splits on commas, trims each entry,
/// drops empty entries, and keeps case and order. Never fails; the `Result`
/// form suits callers that feed it argument strings.
pub fn parse_tags(raw: &str) -> (r: Result<Vec<String>, String>)
    ensures
        r matches Ok(tags) && tags.deep_view() == parse_tags_spec(raw@),
{
    let n = raw.unicode_len();
    let mut out: Vec<String> = Vec::new();
    let mut cur = String::new();
    let mut i: usize = 0;
    let ghost mut pieces: Seq<Seq<char>> = seq![];
    proof {
        assert(raw@.skip(0) =~= raw@);
        assert(seq![] + split_commas(raw@, Seq::empty()) =~= split_commas(raw@, Seq::empty()));
        assert(clean_tags(pieces) =~= Seq::<Seq<char>>::empty());
        assert(out.deep_view() =~= Seq::<Seq<char>>::empty());
    }
    while i < n
        invariant
            i <= n,
            n == raw@.len(),
            split_commas(raw@, Seq::empty()) == pieces + split_commas(raw@.skip(i as int), cur@),
            out.deep_view() == clean_tags(pieces),
        decreases n - i,
    {
        let c = raw.get_char(i);
        proof {
            assert(raw@.skip(i as int)[0] == c);
            assert(raw@.skip(i as int).drop_first() =~= raw@.skip(i as int + 1));
        }
        if c == ',' {
            let ghost prev_pieces = pieces;
            let t = trim(cur.as_str());
            if t.as_str().unicode_len() > 0 {
                let ghost dv = out.deep_view();
                out.push(t);
                proof {
                    assert(out.deep_view() =~= dv.push(trim_spec(cur@)));
                }
            }
            proof {
                pieces = pieces + seq![cur@];
                lemma_passoc(prev_pieces, seq![cur@], split_commas(raw@.skip(i as int + 1), Seq::empty()));
                assert(pieces.drop_last() =~= prev_pieces);
                assert(pieces.last() == cur@);
            }
            cur = String::new();
        } else {
            let ghost prev_cur = cur@;
            crate::filter::push_char(&mut cur, c);
            proof {
                assert(cur@ =~= prev_cur.push(c));
            }
        }
        i = i + 1;
    }
    proof {
        assert(raw@.skip(n as int) =~= Seq::<char>::empty());
    }
    let ghost prev_pieces = pieces;
    let t = trim(cur.as_str());
    if t.as_str().unicode_len() > 0 {
        let ghost dv = out.deep_view();
        out.push(t);
        proof {
            assert(out.deep_view() =~= dv.push(trim_spec(cur@)));
        }
    }
    proof {
        pieces = pieces + seq![cur@];
        assert(pieces.drop_last() =~= prev_pieces);
        assert(pieces.last() == cur@);
        assert(prev_pieces + split_commas(raw@.skip(n as int), cur@) =~= pieces);
    }
    Ok(out)
}

/// A calendar date: the part of a timestamp that a date argument supplies.
#[derive(Clone, Copy, PartialEq, Eq, Structural, Debug)]
pub struct Date {
    pub year: i32,
    pub month: i32,
    pub day: i32,
}

/// An ASCII decimal digit.
pub open spec fn is_digit(c: char) -> bool {
    48 <= c as int <= 57
}

/// The value of an ASCII decimal digit.
pub open spec fn digit_val(c: char) -> int {
    c as int - 48
}

/// The year spelled by the four digits at the front of a trimmed date string.
pub open spec fn year_of(t: Seq<char>) -> int {
    digit_val(t[0]) * 1000 + digit_val(t[1]) * 100 + digit_val(t[2]) * 10 + digit_val(t[3])
}

/// The month spelled at positions 5 and 6.
pub open spec fn month_of(t: Seq<char>) -> int {
    digit_val(t[5]) * 10 + digit_val(t[6])
}

/// The day spelled at positions 8 and 9.
pub open spec fn day_of(t: Seq<char>) -> int {
    digit_val(t[8]) * 10 + digit_val(t[9])
}

/// The trimmed input spells a zero-padded `year-month-day` naming a real
/// calendar date.
pub open spec fn date_str_valid(s: Seq<char>) -> bool {
    let t = trim_spec(s);
    &&& t.len() == 10
    &&& is_digit(t[0]) && is_digit(t[1]) && is_digit(t[2]) && is_digit(t[3])
    &&& t[4] == '-'
    &&& is_digit(t[5]) && is_digit(t[6])
    &&& t[7] == '-'
    &&& is_digit(t[8]) && is_digit(t[9])
    &&& 1 <= month_of(t) <= 12
    &&& 1 <= day_of(t) <= days_in_month(year_of(t), month_of(t))
}

/// Reads the ASCII digit at `t[i]` when there is one.
fn digit_at(t: &str, i: usize) -> (r: Option<i32>)
    requires
        i < t@.len(),
    ensures
        match r {
            Some(v) => is_digit(t@[i as int]) && v == digit_val(t@[i as int]),
            None => !is_digit(t@[i as int]),
        },
{
    let c = t.get_char(i);
    let u = c as u32;
    if 48 <= u && u <= 57 {
        Some((u - 48) as i32)
    } else {
        None
    }
}

/// Strictly parses a calendar date written `year-month-day`, zero-padded,
/// surrounding whitespace ignored. Fails, with a short message, exactly on
/// inputs that do not spell a real calendar date that way.
pub fn parse_date(s: &str) -> (r: Result<Date, String>)
    ensures
        match r {
            Ok(d) => {
                &&& date_str_valid(s@)
                &&& d.year as int == year_of(trim_spec(s@))
                &&& d.month as int == month_of(trim_spec(s@))
                &&& d.day as int == day_of(trim_spec(s@))
            },
            Err(_) => !date_str_valid(s@),
        },
{
    let t = trim(s);
    let ts = t.as_str();
    if ts.unicode_len() != 10 {
        return Err(String::from_str("expected a zero-padded year-month-day date"));
    }
    if !(ts.get_char(4) == '-' && ts.get_char(7) == '-') {
        return Err(String::from_str("expected a zero-padded year-month-day date"));
    }
    let d0 = match digit_at(ts, 0) {
        Some(v) => v,
        None => {
            return Err(String::from_str("expected a zero-padded year-month-day date"));
        },
    };
    let d1 = match digit_at(ts, 1) {
        Some(v) => v,
        None => {
            return Err(String::from_str("expected a zero-padded year-month-day date"));
        },
    };
    let d2 = match digit_at(ts, 2) {
        Some(v) => v,
        None => {
            return Err(String::from_str("expected a zero-padded year-month-day date"));
        },
    };
    let d3 = match digit_at(ts, 3) {
        Some(v) => v,
        None => {
            return Err(String::from_str("expected a zero-padded year-month-day date"));
        },
    };
    let m0 = match digit_at(ts, 5) {
        Some(v) => v,
        None => {
            return Err(String::from_str("expected a zero-padded year-month-day date"));
        },
    };
    let m1 = match digit_at(ts, 6) {
        Some(v) => v,
        None => {
            return Err(String::from_str("expected a zero-padded year-month-day date"));
        },
    };
    let a0 = match digit_at(ts, 8) {
        Some(v) => v,
        None => {
            return Err(String::from_str("expected a zero-padded year-month-day date"));
        },
    };
    let a1 = match digit_at(ts, 9) {
        Some(v) => v,
        None => {
            return Err(String::from_str("expected a zero-padded year-month-day date"));
        },
    };
    let year = d0 * 1000 + d1 * 100 + d2 * 10 + d3;
    let month = m0 * 10 + m1;
    let day = a0 * 10 + a1;
    if !(1 <= month && month <= 12) {
        return Err(String::from_str("the month is out of range"));
    }
    let days = crate::rfc2822::days_in_month_exec(year, month);
    if !(1 <= day && day <= days) {
        return Err(String::from_str("the day is out of range for that month"));
    }
    Ok(Date { year, month, day })
}

} // verus!
