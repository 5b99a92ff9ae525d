//! Wall-clock durations as schedulers write them.

use crate::text::{
    all_digits, cat2, cat7, chars_of, decimal, decimal_of, decimal_reads_back, find, index_of, is_digit, is_number,
    lemma_index_of_is, number_of, parse_number, pieces, pieces_of, string_of, unsigned_part, views,
};
use vstd::prelude::*;

verus! {

/// A duration in whole seconds.
#[derive(Debug, Clone, Copy, PartialEq, Eq, PartialOrd, Ord, Structural)]
pub struct Walltime(pub u64);

/// The largest number that one field of a written walltime may hold.
pub const FIELD_MAX: u64 = 4294967295;

/// `n` in decimal, at least two digits wide.
pub open spec fn two_digits(n: nat) -> Seq<char> {
    if n < 10 {
        "0"@ + decimal_of(n)
    } else {
        decimal_of(n)
    }
}

/// `n` in decimal, at least two digits wide.
fn pad2(n: u64) -> (r: String)
    ensures
        r@ == two_digits(n as nat),
{
    if n < 10 {
        cat2("0", &decimal(n))
    } else {
        decimal(n)
    }
}

/// The days of a written walltime: what stands before a dash.
pub open spec fn days_part(s: Seq<char>) -> Seq<char> {
    if index_of(s, '-') < s.len() {
        s.take(index_of(s, '-'))
    } else {
        "0"@
    }
}

/// The fields after the days: hours, minutes and seconds.
pub open spec fn clock_parts(s: Seq<char>) -> Seq<Seq<char>> {
    if index_of(s, '-') < s.len() {
        pieces_of(s.skip(index_of(s, '-') + 1), ':')
    } else {
        pieces_of(s, ':')
    }
}

/// Whether `s` writes a walltime: `[DAYS-]HOURS:MINUTES:SECONDS`, minutes and seconds below
/// sixty.
pub open spec fn is_walltime(s: Seq<char>) -> bool {
    let clock = clock_parts(s);
    &&& is_number(days_part(s), FIELD_MAX as nat)
    &&& clock.len() == 3
    &&& is_number(clock[0], FIELD_MAX as nat)
    &&& is_number(clock[1], 59)
    &&& is_number(clock[2], 59)
}

/// The seconds that a written walltime stands for.
pub open spec fn walltime_seconds(s: Seq<char>) -> nat {
    let clock = clock_parts(s);
    number_of(unsigned_part(days_part(s))) * 86400 + number_of(unsigned_part(clock[0])) * 3600 + number_of(
        unsigned_part(clock[1]),
    ) * 60 + number_of(unsigned_part(clock[2]))
}

impl Walltime {
    /// Reads `[DAYS-]HOURS:MINUTES:SECONDS`.
    pub fn parse(s: &str) -> (r: Option<Walltime>)
        ensures
            r is Some <==> is_walltime(s@),
            r is Some ==> (r->0).0 == walltime_seconds(s@),
    {
        let cs = chars_of(s);
        let dash: usize = find(&cs, 0, '-');
        assert(cs@.skip(0) == cs@);
        let (days, clock) = if dash < cs.len() {
            let rest = string_of(&cs, dash + 1, cs.len());
            let head = string_of(&cs, 0, dash);
            proof {
                assert(rest@ == s@.skip(dash + 1));
                assert(head@ == s@.take(dash as int));
            }
            (head, pieces(&rest, ':'))
        } else {
            ("0".to_owned(), pieces(s, ':'))
        };
        assert(views(clock@) == clock_parts(s@));
        assert(clock@.len() == clock_parts(s@).len());
        if clock.len() != 3 {
            return None;
        }
        proof {
            assert(views(clock@)[0] == clock@[0]@);
            assert(views(clock@)[1] == clock@[1]@);
            assert(views(clock@)[2] == clock@[2]@);
        }
        match (
            parse_number(&days, FIELD_MAX),
            parse_number(&clock[0], FIELD_MAX),
            parse_number(&clock[1], 59),
            parse_number(&clock[2], 59),
        ) {
            (Some(d), Some(h), Some(m), Some(sec)) => Some(Walltime(d * 86400 + h * 3600 + m * 60 + sec)),
            _ => None,
        }
    }

    /// The canonical form, `DD-HH:MM:SS`, as text.
    pub open spec fn written(self) -> Seq<char> {
        two_digits((self.0 / 86400) as nat) + "-"@ + two_digits((self.0 / 3600 % 24) as nat) + ":"@ + two_digits(
            (self.0 / 60 % 60) as nat,
        ) + ":"@ + two_digits((self.0 % 60) as nat)
    }

    /// The canonical form, `DD-HH:MM:SS`.
    pub fn canonical(&self) -> (r: String)
        ensures
            r@ == self.written(),
    {
        cat7(
            &pad2(self.0 / 86400),
            "-",
            &pad2(self.0 / 3600 % 24),
            ":",
            &pad2(self.0 / 60 % 60),
            ":",
            &pad2(self.0 % 60),
        )
    }

    /// The hours of the clock, days folded in, at least two digits wide.
    pub fn component_hours(&self) -> (r: String)
        ensures
            r@ == two_digits((self.0 / 3600) as nat),
    {
        pad2(self.0 / 3600)
    }

    /// The minutes of the clock, at least two digits wide.
    pub fn component_minutes(&self) -> (r: String)
        ensures
            r@ == two_digits((self.0 / 60 % 60) as nat),
    {
        pad2(self.0 / 60 % 60)
    }

    /// The seconds of the clock, at least two digits wide.
    pub fn component_seconds(&self) -> (r: String)
        ensures
            r@ == two_digits((self.0 % 60) as nat),
    {
        pad2(self.0 % 60)
    }

    /// The whole duration in seconds.
    pub fn total_seconds(&self) -> (r: u64)
        ensures
            r == self.0,
    {
        self.0
    }

    /// The whole duration in full minutes.
    pub fn total_minutes(&self) -> (r: u64)
        ensures
            r == self.0 / 60,
    {
        self.0 / 60
    }

    /// The whole duration in full hours.
    pub fn total_hours(&self) -> (r: u64)
        ensures
            r == self.0 / 3600,
    {
        self.0 / 3600
    }
}

/// A number that is at least two digits wide reads back.
proof fn lemma_two_digits(n: nat)
    ensures
        two_digits(n).len() > 0,
        all_digits(two_digits(n)),
        number_of(two_digits(n)) == n,
{
    decimal_reads_back(n);
    reveal_strlit("0");
    if n < 10 {
        let s = two_digits(n);
        assert(decimal_of(n).len() == 1);
        assert(s.drop_last() =~= seq!['0']);
        assert(seq!['0'].drop_last() =~= Seq::<char>::empty());
        assert(number_of(seq!['0']) == 0) by {
            reveal_with_fuel(number_of, 2);
        }
        assert(decimal_of(n).drop_last() =~= Seq::<char>::empty());
        assert(number_of(decimal_of(n)) == decimal_of(n).last() as nat - '0' as nat) by {
            reveal_with_fuel(number_of, 2);
        }
        assert(s.last() == decimal_of(n).last());
    }
}

/// A row of digits in front of another character ends there.
proof fn lemma_digits_end(digits: Seq<char>, c: char, rest: Seq<char>)
    requires
        all_digits(digits),
        !is_digit(c),
    ensures
        index_of(digits + seq![c] + rest, c) == digits.len(),
        (digits + seq![c] + rest).take(digits.len() as int) == digits,
        (digits + seq![c] + rest).skip(digits.len() as int + 1) == rest,
{
    let s = digits + seq![c] + rest;
    assert forall|j: int| 0 <= j < digits.len() implies s[j] != c by {
        assert(s[j] == digits[j]);
        assert(is_digit(digits[j]));
    }
    lemma_index_of_is(s, c, digits.len() as int);
    assert(s.take(digits.len() as int) =~= digits);
    assert(s.skip(digits.len() as int + 1) =~= rest);
}

/// A row of digits in front of another character is the first piece.
proof fn lemma_first_piece(digits: Seq<char>, c: char, rest: Seq<char>)
    requires
        all_digits(digits),
        !is_digit(c),
    ensures
        pieces_of(digits + seq![c] + rest, c) == seq![digits] + pieces_of(rest, c),
{
    lemma_digits_end(digits, c, rest);
}

/// A row of digits is one piece.
proof fn lemma_one_piece(digits: Seq<char>, c: char)
    requires
        all_digits(digits),
        !is_digit(c),
    ensures
        pieces_of(digits, c) == seq![digits],
{
    assert forall|j: int| 0 <= j < digits.len() implies digits[j] != c by {
        assert(is_digit(digits[j]));
    }
    lemma_index_of_is(digits, c, digits.len() as int);
}

/// Rows of digits that are written as a walltime are its fields.
proof fn lemma_fields(d: Seq<char>, h: Seq<char>, m: Seq<char>, sec: Seq<char>)
    requires
        all_digits(d),
        all_digits(h),
        all_digits(m),
        all_digits(sec),
    ensures
        days_part(d + seq!['-'] + (h + seq![':'] + (m + seq![':'] + sec))) == d,
        clock_parts(d + seq!['-'] + (h + seq![':'] + (m + seq![':'] + sec))) == seq![h, m, sec],
{
    let tail = m + seq![':'] + sec;
    let clock = h + seq![':'] + tail;
    lemma_one_piece(sec, ':');
    lemma_first_piece(m, ':', sec);
    lemma_first_piece(h, ':', tail);
    assert(seq![h] + (seq![m] + seq![sec]) =~= seq![h, m, sec]);
    lemma_digits_end(d, '-', clock);
}

/// A number of seconds is the sum of its days, hours, minutes and seconds.
proof fn lemma_parts(n: nat)
    ensures
        n == n / 86400 * 86400 + n / 3600 % 24 * 3600 + n / 60 % 60 * 60 + n % 60,
        n / 3600 % 24 < 24,
{
    let (hours, minutes) = (n / 3600, n / 60);
    assert(minutes / 60 == hours);
    assert(hours / 24 == n / 86400);
    assert(n == minutes * 60 + n % 60);
    assert(minutes == hours * 60 + minutes % 60);
    assert(hours == n / 86400 * 24 + hours % 24);
}

/// A walltime that is written down reads back as itself, as far as its days fit into a field.
pub proof fn written_walltimes_read_back(w: Walltime)
    requires
        w.0 / 86400 <= FIELD_MAX,
    ensures
        is_walltime(w.written()),
        walltime_seconds(w.written()) == w.0,
{
    let n = w.0 as nat;
    let (days, hours, minutes, seconds) = (n / 86400, n / 3600 % 24, n / 60 % 60, n % 60);
    let (d, h, m, sec) = (two_digits(days), two_digits(hours), two_digits(minutes), two_digits(seconds));
    lemma_two_digits(days);
    lemma_two_digits(hours);
    lemma_two_digits(minutes);
    lemma_two_digits(seconds);
    lemma_fields(d, h, m, sec);
    assert(w.written() == d + seq!['-'] + (h + seq![':'] + (m + seq![':'] + sec))) by {
        reveal_strlit("-");
        reveal_strlit(":");
        assert("-"@ =~= seq!['-']);
        assert(":"@ =~= seq![':']);
        assert(w.written() =~= d + seq!['-'] + (h + seq![':'] + (m + seq![':'] + sec)));
    }
    assert(is_digit(d[0]) && is_digit(h[0]) && is_digit(m[0]) && is_digit(sec[0]));
    lemma_parts(n);
}

/// A walltime is read field by field: days of 24 hours before a dash, where there is one, then hours of
/// 60 minutes, and minutes of 60 seconds. Minutes and seconds stay below 60; hours need not stay below
/// 24.
pub proof fn walltimes_are_read_field_by_field(d: Seq<char>, h: Seq<char>, m: Seq<char>, sec: Seq<char>)
    requires
        d.len() > 0 && h.len() > 0 && m.len() > 0 && sec.len() > 0,
        all_digits(d) && all_digits(h) && all_digits(m) && all_digits(sec),
        number_of(d) <= FIELD_MAX,
        number_of(h) <= FIELD_MAX,
    ensures
        ({
            let clock = h + seq![':'] + (m + seq![':'] + sec);
            let text = d + seq!['-'] + clock;
            &&& is_walltime(text) <==> number_of(m) < 60 && number_of(sec) < 60
            &&& walltime_seconds(text) == ((number_of(d) * 24 + number_of(h)) * 60 + number_of(m)) * 60 + number_of(sec)
            &&& is_walltime(clock) <==> number_of(m) < 60 && number_of(sec) < 60
            &&& walltime_seconds(clock) == (number_of(h) * 60 + number_of(m)) * 60 + number_of(sec)
        }),
{
    let tail = m + seq![':'] + sec;
    let clock = h + seq![':'] + tail;
    let text = d + seq!['-'] + clock;
    lemma_fields(d, h, m, sec);
    assert(is_digit(d[0]) && is_digit(h[0]) && is_digit(m[0]) && is_digit(sec[0]));
    assert forall|j: int| 0 <= j < clock.len() implies clock[j] != '-' by {
        if j < h.len() {
            assert(clock[j] == h[j] && is_digit(h[j]));
        } else if j == h.len() {
        } else if j - h.len() - 1 < m.len() {
            assert(clock[j] == m[j - h.len() - 1] && is_digit(m[j - h.len() - 1]));
        } else if j - h.len() - 1 == m.len() {
        } else {
            let i = j - h.len() - 1 - m.len() - 1;
            assert(clock[j] == sec[i] && is_digit(sec[i]));
        }
    }
    lemma_index_of_is(clock, '-', clock.len() as int);
    lemma_one_piece(sec, ':');
    lemma_first_piece(m, ':', sec);
    lemma_first_piece(h, ':', tail);
    assert(seq![h] + (seq![m] + seq![sec]) =~= seq![h, m, sec]);
    reveal_strlit("0");
    assert("0"@ =~= seq!['0']);
    assert(seq!['0'].drop_last() =~= Seq::<char>::empty());
    assert(number_of(seq!['0']) == 0) by {
        reveal_with_fuel(number_of, 2);
    }
    assert(is_digit("0"@[0]));
}

/// A walltime is written as days, hours below 24, and minutes and seconds below 60, each two digits
/// wide or more.
pub proof fn walltimes_are_written_field_by_field(w: Walltime, d: nat, h: nat, m: nat, sec: nat)
    requires
        h < 24,
        m < 60,
        sec < 60,
        w.0 == ((d * 24 + h) * 60 + m) * 60 + sec,
    ensures
        w.written() == two_digits(d) + seq!['-'] + two_digits(h) + seq![':'] + two_digits(m) + seq![':'] + two_digits(
            sec,
        ),
        forall|n: nat| n < 10 ==> #[trigger] two_digits(n) == seq!['0'] + decimal_of(n),
        forall|n: nat| n >= 10 ==> #[trigger] two_digits(n) == decimal_of(n),
{
    reveal_strlit("-");
    reveal_strlit(":");
    reveal_strlit("0");
    assert("-"@ =~= seq!['-']);
    assert(":"@ =~= seq![':']);
    assert("0"@ =~= seq!['0']);
    let n = w.0 as nat;
    assert(n / 60 == (d * 24 + h) * 60 + m);
    assert(n % 60 == sec);
    assert(n / 3600 == d * 24 + h);
    assert(n / 60 % 60 == m);
    assert(n / 86400 == d);
    assert(n / 3600 % 24 == h);
}

} // verus!
