//! Text primitives: the scanning, splitting and rendering that every other module is written
//! in, each stated over sequences of characters.

use vstd::prelude::*;

verus! {

/// `String::push`: appends one character to the end of the string.
pub assume_specification [String::push](s: &mut String, c: char)
    ensures
        final(s)@ == old(s)@.push(c),
;

/// The characters of `s`, in order.
pub fn chars_of(s: &str) -> (r: Vec<char>)
    ensures
        r@ == s@,
{
    let mut out: Vec<char> = Vec::new();
    for c in it: s.chars()
        invariant
            out@ == it.seq().take(it.index() as int),
            it.seq() == s@,
    {
        out.push(c);
        assert(out@ == it.seq().take(it.index() as int + 1));
    }
    assert(s@.take(s@.len() as int) == s@);
    out
}

/// The string made of `cs[from..to]`.
pub fn string_of(cs: &Vec<char>, from: usize, to: usize) -> (r: String)
    requires
        from <= to <= cs@.len(),
    ensures
        r@ == cs@.subrange(from as int, to as int),
{
    let mut out = String::new();
    let mut i: usize = from;
    while i < to
        invariant
            from <= i <= to <= cs@.len(),
            out@ == cs@.subrange(from as int, i as int),
        decreases to - i,
    {
        out.push(cs[i]);
        i += 1;
        assert(cs@.subrange(from as int, i as int) == cs@.subrange(from as int, i - 1).push(cs@[i - 1]));
    }
    out
}

/// Whether two strings hold the same characters.
pub fn same(a: &str, b: &str) -> (r: bool)
    ensures
        r == (a@ == b@),
{
    a.to_owned() == b.to_owned()
}

/// `a` followed by `b`.
pub fn cat2(a: &str, b: &str) -> (r: String)
    ensures
        r@ == a@ + b@,
{
    a.to_owned().concat(b)
}

/// `a`, `b` and `c` in a row.
pub fn cat3(a: &str, b: &str, c: &str) -> (r: String)
    ensures
        r@ == a@ + b@ + c@,
{
    a.to_owned().concat(b).concat(c)
}

/// Four texts in a row.
pub fn cat4(a: &str, b: &str, c: &str, d: &str) -> (r: String)
    ensures
        r@ == a@ + b@ + c@ + d@,
{
    a.to_owned().concat(b).concat(c).concat(d)
}

/// Five texts in a row.
pub fn cat5(a: &str, b: &str, c: &str, d: &str, e: &str) -> (r: String)
    ensures
        r@ == a@ + b@ + c@ + d@ + e@,
{
    a.to_owned().concat(b).concat(c).concat(d).concat(e)
}

/// Seven texts in a row.
pub fn cat7(a: &str, b: &str, c: &str, d: &str, e: &str, f: &str, g: &str) -> (r: String)
    ensures
        r@ == a@ + b@ + c@ + d@ + e@ + f@ + g@,
{
    a.to_owned().concat(b).concat(c).concat(d).concat(e).concat(f).concat(g)
}

/// The Unicode `White_Space` characters.
pub open spec fn is_space(c: char) -> bool {
    ||| '\t' <= c <= '\r'
    ||| c == ' '
    ||| c == '\u{85}'
    ||| c == '\u{a0}'
    ||| c == '\u{1680}'
    ||| '\u{2000}' <= c <= '\u{200a}'
    ||| c == '\u{2028}'
    ||| c == '\u{2029}'
    ||| c == '\u{202f}'
    ||| c == '\u{205f}'
    ||| c == '\u{3000}'
}

/// Whether `c` is white space.
pub fn space(c: char) -> (r: bool)
    ensures
        r == is_space(c),
{
    ('\t' <= c && c <= '\r') || c == ' ' || c == '\u{85}' || c == '\u{a0}' || c == '\u{1680}'
        || ('\u{2000}' <= c && c <= '\u{200a}') || c == '\u{2028}' || c == '\u{2029}'
        || c == '\u{202f}' || c == '\u{205f}' || c == '\u{3000}'
}

/// `s` without its leading white space.
pub open spec fn trimmed_start(s: Seq<char>) -> Seq<char>
    decreases s.len(),
{
    if s.len() > 0 && is_space(s[0]) {
        trimmed_start(s.skip(1))
    } else {
        s
    }
}

/// `s` without its trailing white space.
pub open spec fn trimmed_end(s: Seq<char>) -> Seq<char>
    decreases s.len(),
{
    if s.len() > 0 && is_space(s.last()) {
        trimmed_end(s.drop_last())
    } else {
        s
    }
}

/// `s` without the white space on either side.
pub open spec fn trimmed(s: Seq<char>) -> Seq<char> {
    trimmed_end(trimmed_start(s))
}

/// The leading white space of `s` ends at `k`.
pub proof fn lemma_trimmed_start(s: Seq<char>, k: int)
    requires
        0 <= k <= s.len(),
        forall|j: int| 0 <= j < k ==> is_space(s[j]),
        k < s.len() ==> !is_space(s[k]),
    ensures
        trimmed_start(s) == s.skip(k),
    decreases k,
{
    if k > 0 {
        lemma_trimmed_start(s.skip(1), k - 1);
        assert(s.skip(1).skip(k - 1) == s.skip(k));
    } else {
        assert(s.skip(0) == s);
    }
}

/// The trailing white space of `s` starts at `k`.
pub proof fn lemma_trimmed_end(s: Seq<char>, k: int)
    requires
        0 <= k <= s.len(),
        forall|j: int| k <= j < s.len() ==> is_space(s[j]),
        k > 0 ==> !is_space(s[k - 1]),
    ensures
        trimmed_end(s) == s.take(k),
    decreases s.len() - k,
{
    if k < s.len() {
        lemma_trimmed_end(s.drop_last(), k);
        assert(s.drop_last().take(k) == s.take(k));
    } else {
        assert(s.take(k) == s);
    }
}

/// Where the leading white space of `cs[from..]` ends.
pub fn skip_space(cs: &Vec<char>, from: usize) -> (k: usize)
    requires
        from <= cs@.len(),
    ensures
        from <= k <= cs@.len(),
        trimmed_start(cs@.skip(from as int)) == cs@.skip(k as int),
        k < cs@.len() ==> !is_space(cs@[k as int]),
{
    let mut k: usize = from;
    while k < cs.len() && space(cs[k])
        invariant
            from <= k <= cs@.len(),
            forall|j: int| from <= j < k ==> is_space(cs@[j]),
        decreases cs@.len() - k,
    {
        k += 1;
    }
    proof {
        lemma_trimmed_start(cs@.skip(from as int), k - from);
        assert(cs@.skip(from as int).skip(k - from) == cs@.skip(k as int));
    }
    k
}

/// `s` without the white space on either side.
pub fn trim(s: &str) -> (r: String)
    ensures
        r@ == trimmed(s@),
{
    let cs = chars_of(s);
    let from: usize = skip_space(&cs, 0);
    let mut to: usize = cs.len();
    while to > from && space(cs[to - 1])
        invariant
            from <= to <= cs@.len(),
            forall|j: int| to <= j < cs@.len() ==> is_space(cs@[j]),
        decreases to,
    {
        to -= 1;
    }
    proof {
        assert(cs@.skip(0) == cs@);
        lemma_trimmed_end(cs@.skip(from as int), to - from);
        assert(cs@.skip(from as int).take(to - from) == cs@.subrange(from as int, to as int));
    }
    string_of(&cs, from, to)
}

/// The characters of each string of a list.
pub open spec fn views(list: Seq<String>) -> Seq<Seq<char>> {
    list.map_values(|s: String| s@)
}

/// Adding a string to a list adds its characters to the list's views.
pub proof fn lemma_views_push(list: Seq<String>, s: String)
    ensures
        views(list.push(s)) == views(list).push(s@),
{
    assert(views(list.push(s)) =~= views(list).push(s@));
}

/// The position of the first `c` in `s`; the length of `s` where there is none.
pub open spec fn index_of(s: Seq<char>, c: char) -> int
    decreases s.len(),
{
    if s.len() == 0 || s[0] == c {
        0
    } else {
        1 + index_of(s.skip(1), c)
    }
}

/// `index_of` lies within the text, and is where the first match stands.
pub proof fn lemma_index_of(s: Seq<char>, c: char)
    ensures
        0 <= index_of(s, c) <= s.len(),
        index_of(s, c) < s.len() ==> s[index_of(s, c)] == c,
        forall|j: int| 0 <= j < index_of(s, c) ==> s[j] != c,
    decreases s.len(),
{
    if s.len() > 0 && s[0] != c {
        let rest = s.skip(1);
        lemma_index_of(rest, c);
        assert forall|j: int| 0 <= j < index_of(s, c) implies s[j] != c by {
            if j > 0 {
                assert(rest[j - 1] == s[j]);
            }
        }
    }
}

/// The first match is the only position with no match before it.
pub proof fn lemma_index_of_is(s: Seq<char>, c: char, k: int)
    requires
        0 <= k <= s.len(),
        forall|j: int| 0 <= j < k ==> s[j] != c,
        k < s.len() ==> s[k] == c,
    ensures
        index_of(s, c) == k,
{
    lemma_index_of(s, c);
}

/// The position of the first `c` in `cs[from..]`, as a position in `cs`.
pub fn find(cs: &Vec<char>, from: usize, c: char) -> (k: usize)
    requires
        from <= cs@.len(),
    ensures
        from <= k <= cs@.len(),
        k == from + index_of(cs@.skip(from as int), c),
        k < cs@.len() ==> cs@[k as int] == c,
        forall|j: int| from <= j < k ==> cs@[j] != c,
{
    let mut k: usize = from;
    while k < cs.len() && cs[k] != c
        invariant
            from <= k <= cs@.len(),
            forall|j: int| from <= j < k ==> cs@[j] != c,
        decreases cs@.len() - k,
    {
        k += 1;
    }
    proof {
        lemma_index_of_is(cs@.skip(from as int), c, k - from);
    }
    k
}

/// A line without the carriage return that ends it.
pub open spec fn without_cr(line: Seq<char>) -> Seq<char> {
    if line.len() > 0 && line.last() == '\r' {
        line.drop_last()
    } else {
        line
    }
}

/// The lines of `s`: every newline ends one, with the carriage return before it; what follows
/// the last newline is a line only where it is not empty.
pub open spec fn lines_of(s: Seq<char>) -> Seq<Seq<char>>
    decreases s.len(),
{
    if s.len() == 0 {
        Seq::empty()
    } else {
        let n = index_of(s, '\n');
        if 0 <= n < s.len() {
            seq![without_cr(s.take(n))] + lines_of(s.skip(n + 1))
        } else {
            seq![s]
        }
    }
}

/// The lines of `s`.
pub fn lines(s: &str) -> (r: Vec<String>)
    ensures
        views(r@) == lines_of(s@),
{
    let cs = chars_of(s);
    let mut out: Vec<String> = Vec::new();
    let mut start: usize = 0;
    proof {
        assert(cs@.skip(0) == cs@);
        assert(views(out@) =~= Seq::empty());
        assert(Seq::<Seq<char>>::empty() + lines_of(cs@) == lines_of(cs@));
    }
    while start < cs.len()
        invariant
            start <= cs@.len(),
            views(out@) + lines_of(cs@.skip(start as int)) == lines_of(cs@),
        decreases cs@.len() - start,
    {
        let end: usize = find(&cs, start, '\n');
        let ghost rest = cs@.skip(start as int);
        let ghost before = out@;
        let cut: usize = if end < cs.len() && end > start && cs[end - 1] == '\r' { end - 1 } else { end };
        let line = string_of(&cs, start, cut);
        out.push(line);
        proof {
            lemma_views_push(before, line);
            assert(rest.take(end - start) == cs@.subrange(start as int, end as int));
            if end < cs@.len() {
                assert(line@ == without_cr(rest.take(end - start)));
                assert(rest.skip(end - start + 1) == cs@.skip(end + 1));
                assert(views(before) + (seq![line@] + lines_of(cs@.skip(end + 1)))
                    == views(out@) + lines_of(cs@.skip(end + 1)));
            } else {
                assert(line@ == rest);
                assert(cs@.skip(end as int) == Seq::<char>::empty());
                assert(views(before) + seq![line@] == views(out@) + Seq::<Seq<char>>::empty());
            }
        }
        start = if end < cs.len() { end + 1 } else { end };
    }
    proof {
        assert(cs@.skip(start as int) == Seq::<char>::empty());
        assert(views(out@) + Seq::<Seq<char>>::empty() == views(out@));
    }
    out
}

/// The length of the leading run of `s` that holds no white space.
pub open spec fn word_len(s: Seq<char>) -> int
    decreases s.len(),
{
    if s.len() == 0 || is_space(s[0]) {
        0
    } else {
        1 + word_len(s.skip(1))
    }
}

/// The leading run without white space ends at `k`.
pub proof fn lemma_word_len(s: Seq<char>, k: int)
    requires
        0 <= k <= s.len(),
        forall|j: int| 0 <= j < k ==> !is_space(s[j]),
        k < s.len() ==> is_space(s[k]),
    ensures
        word_len(s) == k,
    decreases k,
{
    if k > 0 {
        lemma_word_len(s.skip(1), k - 1);
    }
}

/// The bounds of `word_len`.
pub proof fn lemma_word_len_bounds(s: Seq<char>)
    ensures
        0 <= word_len(s) <= s.len(),
        s.len() > 0 && !is_space(s[0]) ==> word_len(s) > 0,
    decreases s.len(),
{
    if s.len() > 0 && !is_space(s[0]) {
        lemma_word_len_bounds(s.skip(1));
    }
}

/// Leading white space cannot make a text longer.
pub proof fn lemma_trimmed_start_len(s: Seq<char>)
    ensures
        trimmed_start(s).len() <= s.len(),
        trimmed_start(s).len() > 0 ==> !is_space(trimmed_start(s)[0]),
    decreases s.len(),
{
    if s.len() > 0 && is_space(s[0]) {
        lemma_trimmed_start_len(s.skip(1));
    }
}

/// The words of `s`: its maximal runs without white space.
pub open spec fn words_of(s: Seq<char>) -> Seq<Seq<char>>
    decreases s.len(),
    via words_of_decreases
{
    let t = trimmed_start(s);
    if t.len() == 0 {
        Seq::empty()
    } else {
        seq![t.take(word_len(t))] + words_of(t.skip(word_len(t)))
    }
}

#[via_fn]
proof fn words_of_decreases(s: Seq<char>) {
    lemma_trimmed_start_len(s);
    lemma_word_len_bounds(trimmed_start(s));
}

/// The words of `s`.
pub fn words(s: &str) -> (r: Vec<String>)
    ensures
        views(r@) == words_of(s@),
{
    let cs = chars_of(s);
    let mut out: Vec<String> = Vec::new();
    let mut at: usize = 0;
    proof {
        assert(cs@.skip(0) == cs@);
        assert(views(out@) =~= Seq::empty());
        assert(Seq::<Seq<char>>::empty() + words_of(cs@) == words_of(cs@));
    }
    loop
        invariant
            at <= cs@.len(),
            views(out@) + words_of(cs@.skip(at as int)) == words_of(cs@),
        ensures
            views(out@) == words_of(cs@),
        decreases cs@.len() - at,
    {
        let from: usize = skip_space(&cs, at);
        if from == cs.len() {
            assert(cs@.skip(from as int).len() == 0);
            assert(words_of(cs@.skip(at as int)) == Seq::<Seq<char>>::empty());
            assert(views(out@) + Seq::<Seq<char>>::empty() == views(out@));
            break;
        }
        let mut to: usize = from;
        while to < cs.len() && !space(cs[to])
            invariant
                from <= to <= cs@.len(),
                forall|j: int| from <= j < to ==> !is_space(cs@[j]),
            decreases cs@.len() - to,
        {
            to += 1;
        }
        let word = string_of(&cs, from, to);
        let ghost before = out@;
        let ghost t = cs@.skip(from as int);
        out.push(word);
        proof {
            lemma_word_len(t, to - from);
            lemma_views_push(before, word);
            assert(t.take(to - from) == word@);
            assert(t.skip(to - from) == cs@.skip(to as int));
            assert(views(before) + (seq![word@] + words_of(cs@.skip(to as int)))
                == views(out@) + words_of(cs@.skip(to as int)));
        }
        at = to;
    }
    out
}

/// The decimal digit of `d`, for `d` below ten.
pub open spec fn digit_char(d: int) -> char {
    if d == 0 {
        '0'
    } else if d == 1 {
        '1'
    } else if d == 2 {
        '2'
    } else if d == 3 {
        '3'
    } else if d == 4 {
        '4'
    } else if d == 5 {
        '5'
    } else if d == 6 {
        '6'
    } else if d == 7 {
        '7'
    } else if d == 8 {
        '8'
    } else {
        '9'
    }
}

/// `n` in decimal, without leading zeros.
pub open spec fn decimal_of(n: nat) -> Seq<char>
    decreases n,
{
    if n < 10 {
        seq![digit_char(n as int)]
    } else {
        decimal_of(n / 10).push(digit_char((n % 10) as int))
    }
}

fn digit(d: u64) -> (r: char)
    requires
        d < 10,
    ensures
        r == digit_char(d as int),
{
    match d {
        0 => '0',
        1 => '1',
        2 => '2',
        3 => '3',
        4 => '4',
        5 => '5',
        6 => '6',
        7 => '7',
        8 => '8',
        _ => '9',
    }
}

/// `n` in decimal.
pub fn decimal(n: u64) -> (r: String)
    ensures
        r@ == decimal_of(n as nat),
    decreases n,
{
    if n < 10 {
        let mut out = String::new();
        out.push(digit(n));
        assert(out@ == seq![digit_char(n as int)]);
        out
    } else {
        let mut out = decimal(n / 10);
        out.push(digit(n % 10));
        out
    }
}

/// `n` in decimal, with a minus sign where it is negative.
pub open spec fn signed_decimal_of(n: int) -> Seq<char> {
    if n < 0 {
        "-"@ + decimal_of((-n) as nat)
    } else {
        decimal_of(n as nat)
    }
}

/// `n` in decimal, with a minus sign where it is negative.
pub fn signed_decimal(n: i64) -> (r: String)
    ensures
        r@ == signed_decimal_of(n as int),
{
    if n < 0 {
        let magnitude: u64 = if n == i64::MIN { 9223372036854775808u64 } else { (-n) as u64 };
        cat2("-", &decimal(magnitude))
    } else {
        decimal(n as u64)
    }
}

/// Whether `c` is a decimal digit.
pub open spec fn is_digit(c: char) -> bool {
    '0' <= c <= '9'
}

/// Whether `s` holds nothing but decimal digits.
pub open spec fn all_digits(s: Seq<char>) -> bool {
    forall|i: int| 0 <= i < s.len() ==> is_digit(#[trigger] s[i])
}

/// The number that a row of decimal digits writes down.
pub open spec fn number_of(s: Seq<char>) -> nat
    decreases s.len(),
{
    if s.len() == 0 {
        0
    } else {
        number_of(s.drop_last()) * 10 + (s.last() as nat - '0' as nat) as nat
    }
}

/// The digits of a number written with an optional plus sign.
pub open spec fn unsigned_part(s: Seq<char>) -> Seq<char> {
    if s.len() > 0 && s[0] == '+' {
        s.skip(1)
    } else {
        s
    }
}

/// Whether `s` writes down an unsigned number of at most `max`: one or more digits, after an
/// optional plus sign.
pub open spec fn is_number(s: Seq<char>, max: nat) -> bool {
    let digits = unsigned_part(s);
    digits.len() > 0 && all_digits(digits) && number_of(digits) <= max
}

/// A longer row of digits writes down no smaller number.
proof fn lemma_number_of_take(s: Seq<char>, k: int)
    requires
        0 <= k <= s.len(),
        all_digits(s),
    ensures
        number_of(s.take(k)) <= number_of(s),
    decreases s.len() - k,
{
    if k < s.len() {
        lemma_number_of_take(s, k + 1);
        assert(s.take(k + 1).drop_last() == s.take(k));
    } else {
        assert(s.take(k) == s);
    }
}

/// Reads an unsigned number of at most `max`.
pub fn parse_number(s: &str, max: u64) -> (r: Option<u64>)
    ensures
        r is Some <==> is_number(s@, max as nat),
        r is Some ==> r->0 == number_of(unsigned_part(s@)),
{
    let cs = chars_of(s);
    let from: usize = if cs.len() > 0 && cs[0] == '+' { 1 } else { 0 };
    let ghost digits = unsigned_part(s@);
    proof {
        assert(digits =~= cs@.skip(from as int));
    }
    if from == cs.len() {
        return None;
    }
    let mut value: u64 = 0;
    let mut i: usize = from;
    assert(digits.take(0) == Seq::<char>::empty());
    while i < cs.len()
        invariant
            from <= i <= cs@.len(),
            digits == cs@.skip(from as int),
            digits.len() > 0,
            digits == unsigned_part(s@),
            all_digits(digits.take(i - from)),
            value == number_of(digits.take(i - from)),
            value <= max,
        decreases cs@.len() - i,
    {
        let c: char = cs[i];
        assert(digits[i - from] == c);
        if !('0' <= c && c <= '9') {
            assert(!is_digit(digits[i - from]));
            return None;
        }
        let d: u64 = (c as u32 - '0' as u32) as u64;
        proof {
            assert(digits.take(i + 1 - from).drop_last() == digits.take(i - from));
            assert(number_of(digits.take(i + 1 - from)) == value * 10 + d);
            if all_digits(digits) {
                lemma_number_of_take(digits, i + 1 - from);
            }
        }
        if value > max / 10 || d > max - value * 10 {
            return None;
        }
        value = value * 10 + d;
        i += 1;
        assert(all_digits(digits.take(i - from)));
    }
    assert(digits.take(digits.len() as int) == digits);
    Some(value)
}

/// Reading back a number's decimal digits gives the number: `decimal_of` writes one or more
/// digits, and `number_of` undoes it.
pub proof fn decimal_reads_back(n: nat)
    ensures
        decimal_of(n).len() > 0,
        all_digits(decimal_of(n)),
        number_of(decimal_of(n)) == n,
    decreases n,
{
    if n < 10 {
        let s = decimal_of(n);
        assert(s.drop_last() == Seq::<char>::empty());
        assert(number_of(s.drop_last()) == 0);
    } else {
        decimal_reads_back(n / 10);
        let s = decimal_of(n);
        assert(s.drop_last() == decimal_of(n / 10));
        assert(number_of(s) == (n / 10) * 10 + n % 10);
    }
}

/// The texts of a list with `sep` between each two.
pub open spec fn joined(list: Seq<Seq<char>>, sep: Seq<char>) -> Seq<char>
    decreases list.len(),
{
    if list.len() == 0 {
        Seq::empty()
    } else if list.len() == 1 {
        list[0]
    } else {
        joined(list.drop_last(), sep) + sep + list.last()
    }
}

/// The strings of a list with `sep` between each two.
pub fn join(list: &Vec<String>, sep: &str) -> (r: String)
    ensures
        r@ == joined(views(list@), sep@),
{
    let mut out = String::new();
    let mut i: usize = 0;
    while i < list.len()
        invariant
            i <= list@.len(),
            out@ == joined(views(list@).take(i as int), sep@),
        decreases list@.len() - i,
    {
        if i > 0 {
            out.append(sep);
        }
        out.append(&list[i]);
        i += 1;
        proof {
            let whole = views(list@).take(i as int);
            assert(whole.drop_last() == views(list@).take(i - 1));
            assert(whole.last() == list@[i - 1]@);
            if i == 1 {
                assert(out@ == whole[0]);
            }
        }
    }
    assert(views(list@).take(i as int) == views(list@));
    out
}

/// Whether `s` begins with `prefix`.
pub open spec fn begins_with(s: Seq<char>, prefix: Seq<char>) -> bool {
    prefix.len() <= s.len() && s.take(prefix.len() as int) == prefix
}

/// Whether `s` ends with `suffix`.
pub open spec fn ends_with(s: Seq<char>, suffix: Seq<char>) -> bool {
    suffix.len() <= s.len() && s.skip(s.len() - suffix.len()) == suffix
}

/// Whether `part` stands in `s` at position `at`.
pub open spec fn stands_at(s: Seq<char>, part: Seq<char>, at: int) -> bool {
    0 <= at && at + part.len() <= s.len() && s.subrange(at, at + part.len()) == part
}

/// Whether `part` stands somewhere in `s`.
pub open spec fn holds(s: Seq<char>, part: Seq<char>) -> bool {
    exists|at: int| stands_at(s, part, at)
}

/// Whether `part` stands in `cs` at position `at`.
pub fn matches_at(cs: &Vec<char>, part: &Vec<char>, at: usize) -> (r: bool)
    requires
        at <= cs@.len(),
    ensures
        r == stands_at(cs@, part@, at as int),
{
    if cs.len() - at < part.len() {
        return false;
    }
    let mut i: usize = 0;
    while i < part.len()
        invariant
            i <= part.len(),
            at + part.len() <= cs.len(),
            forall|j: int| 0 <= j < i ==> cs@[at + j] == part@[j],
        decreases part@.len() - i,
    {
        if cs[at + i] != part[i] {
            proof {
                if stands_at(cs@, part@, at as int) {
                    assert(cs@.subrange(at as int, at + part@.len())[i as int] == part@[i as int]);
                }
            }
            return false;
        }
        i += 1;
    }
    assert(cs@.subrange(at as int, at + part@.len()) =~= part@);
    true
}

/// Whether `s` begins with `prefix`.
pub fn starts(s: &str, prefix: &str) -> (r: bool)
    ensures
        r == begins_with(s@, prefix@),
{
    let cs = chars_of(s);
    let part = chars_of(prefix);
    assert(cs@.len() >= part@.len() ==> cs@.take(part@.len() as int) == cs@.subrange(0, part@.len() as int));
    matches_at(&cs, &part, 0)
}

/// Whether `s` ends with `suffix`.
pub fn ends(s: &str, suffix: &str) -> (r: bool)
    ensures
        r == ends_with(s@, suffix@),
{
    let cs = chars_of(s);
    let part = chars_of(suffix);
    if part.len() > cs.len() {
        return false;
    }
    let at: usize = cs.len() - part.len();
    assert(cs@.skip(at as int) == cs@.subrange(at as int, at + part@.len()));
    matches_at(&cs, &part, at)
}

/// Whether `part` stands somewhere in `s`.
pub fn contains(s: &str, part: &str) -> (r: bool)
    ensures
        r == holds(s@, part@),
{
    let cs = chars_of(s);
    let want = chars_of(part);
    let mut at: usize = 0;
    loop
        invariant
            at <= cs@.len(),
            forall|j: int| 0 <= j < at ==> !stands_at(cs@, want@, j),
            cs@ == s@,
            want@ == part@,
        decreases cs@.len() - at,
    {
        if matches_at(&cs, &want, at) {
            return true;
        }
        if at == cs.len() {
            return false;
        }
        at += 1;
    }
}

/// Whether `part` stands in `s` at two different positions.
pub open spec fn repeats(s: Seq<char>, part: Seq<char>) -> bool {
    exists|i: int, j: int| i < j && #[trigger] stands_at(s, part, i) && #[trigger] stands_at(s, part, j)
}

/// Whether `part` stands in `s` at two different positions.
pub fn is_repeated(s: &str, part: &str) -> (r: bool)
    ensures
        r == repeats(s@, part@),
{
    let cs = chars_of(s);
    let want = chars_of(part);
    let mut at: usize = 0;
    let mut first: Option<usize> = None;
    loop
        invariant
            at <= cs@.len(),
            match first {
                Some(k) => k < at && stands_at(cs@, want@, k as int) && forall|j: int|
                    0 <= j < at && j != k ==> !stands_at(cs@, want@, j),
                None => forall|j: int| 0 <= j < at ==> !stands_at(cs@, want@, j),
            },
            cs@ == s@,
            want@ == part@,
        decreases cs@.len() - at,
    {
        if matches_at(&cs, &want, at) {
            if first.is_some() {
                return true;
            }
            first = Some(at);
        }
        if at == cs.len() {
            return false;
        }
        at += 1;
    }
}

/// Whether `name` is one of the strings of `list`.
pub open spec fn listed(list: Seq<String>, name: Seq<char>) -> bool {
    exists|i: int| 0 <= i < list.len() && (#[trigger] list[i])@ == name
}

/// Whether `name` is one of the strings of `list`.
pub fn is_listed(list: &Vec<String>, name: &str) -> (r: bool)
    ensures
        r == listed(list@, name@),
{
    let mut i: usize = 0;
    while i < list.len()
        invariant
            i <= list@.len(),
            forall|j: int| 0 <= j < i ==> (#[trigger] list@[j])@ != name@,
        decreases list@.len() - i,
    {
        if same(&list[i], name) {
            return true;
        }
        i += 1;
    }
    false
}

/// A name is listed where the texts of the list hold it.
pub proof fn lemma_listed(list: Seq<String>, name: Seq<char>)
    ensures
        listed(list, name) == views(list).contains(name),
{
    if listed(list, name) {
        let i = choose|i: int| 0 <= i < list.len() && (#[trigger] list[i])@ == name;
        assert(views(list)[i] == name);
    }
    if views(list).contains(name) {
        let i = choose|i: int| 0 <= i < list.len() && views(list)[i] == name;
        assert(list[i]@ == name);
    }
}

/// A path below `dir`: `name` itself where it is absolute.
pub open spec fn path_of(dir: Seq<char>, name: Seq<char>) -> Seq<char> {
    if dir.len() == 0 || begins_with(name, "/"@) {
        name
    } else if dir.last() == '/' {
        dir + name
    } else {
        dir + "/"@ + name
    }
}

/// A path below `dir`: `name` itself where it is absolute.
pub fn path_join(dir: &str, name: &str) -> (r: String)
    ensures
        r@ == path_of(dir@, name@),
{
    let cs = chars_of(dir);
    if cs.len() == 0 || starts(name, "/") {
        name.to_owned()
    } else if cs[cs.len() - 1] == '/' {
        cat2(dir, name)
    } else {
        cat3(dir, "/", name)
    }
}

/// The pieces of `s` between its occurrences of `c`; one more than there are occurrences.
pub open spec fn pieces_of(s: Seq<char>, c: char) -> Seq<Seq<char>>
    decreases s.len(),
{
    let n = index_of(s, c);
    if 0 <= n < s.len() {
        seq![s.take(n)] + pieces_of(s.skip(n + 1), c)
    } else {
        seq![s]
    }
}

/// The pieces of `s` between its occurrences of `c`.
pub fn pieces(s: &str, c: char) -> (r: Vec<String>)
    ensures
        views(r@) == pieces_of(s@, c),
{
    let cs = chars_of(s);
    let mut out: Vec<String> = Vec::new();
    let mut start: usize = 0;
    proof {
        assert(cs@.skip(0) == cs@);
        assert(views(out@) =~= Seq::empty());
        assert(Seq::<Seq<char>>::empty() + pieces_of(cs@, c) == pieces_of(cs@, c));
    }
    loop
        invariant_except_break
            views(out@) + pieces_of(cs@.skip(start as int), c) == pieces_of(cs@, c),
        invariant
            start <= cs@.len(),
        ensures
            views(out@) == pieces_of(cs@, c),
        decreases cs@.len() - start,
    {
        let end: usize = find(&cs, start, c);
        let piece = string_of(&cs, start, end);
        let ghost before = out@;
        let ghost rest = cs@.skip(start as int);
        out.push(piece);
        proof {
            lemma_views_push(before, piece);
            assert(rest.take(end - start) == piece@);
        }
        if end == cs.len() {
            assert(rest == piece@);
            assert(views(before) + seq![piece@] == views(out@));
            break;
        }
        proof {
            assert(rest.skip(end - start + 1) == cs@.skip(end + 1));
            assert(views(before) + (seq![piece@] + pieces_of(cs@.skip(end + 1), c))
                == views(out@) + pieces_of(cs@.skip(end + 1), c));
        }
        start = end + 1;
    }
    out
}

/// The parts of a path that count, given its pieces between slashes: those that are not empty, and of
/// those that are `.` only one at the very beginning.
pub open spec fn counting_parts(pieces: Seq<Seq<char>>) -> Seq<Seq<char>>
    decreases pieces.len(),
{
    if pieces.len() == 0 {
        Seq::empty()
    } else if pieces.last().len() == 0 || pieces.last() == "."@ && pieces.len() > 1 {
        counting_parts(pieces.drop_last())
    } else {
        counting_parts(pieces.drop_last()).push(pieces.last())
    }
}

/// The parts of a path that count.
pub open spec fn parts_of(path: Seq<char>) -> Seq<Seq<char>> {
    counting_parts(pieces_of(path, '/'))
}

fn parts(path: &str) -> (r: Vec<String>)
    ensures
        views(r@) == parts_of(path@),
{
    let all = pieces(path, '/');
    let ghost list = pieces_of(path@, '/');
    let mut out: Vec<String> = Vec::new();
    let mut i: usize = 0;
    assert(list.take(0) =~= Seq::empty());
    assert(views(out@) =~= Seq::empty());
    while i < all.len()
        invariant
            i <= all@.len(),
            list == views(all@),
            views(out@) == counting_parts(list.take(i as int)),
        decreases all@.len() - i,
    {
        let piece = all[i].as_str();
        proof {
            assert(list.take(i + 1).drop_last() =~= list.take(i as int));
            assert(list.take(i + 1).last() == piece@);
        }
        if !(piece.is_empty() || same(piece, ".") && i > 0) {
            let ghost before = out@;
            let kept = piece.to_owned();
            out.push(kept);
            proof {
                lemma_views_push(before, kept);
            }
        }
        i += 1;
    }
    assert(list.take(i as int) =~= list);
    out
}

/// Whether two paths are the same, part by part.
pub open spec fn is_same_path(a: Seq<char>, b: Seq<char>) -> bool {
    begins_with(a, "/"@) == begins_with(b, "/"@) && parts_of(a) == parts_of(b)
}

/// Whether two paths are the same, part by part.
pub fn same_path(a: &str, b: &str) -> (r: bool)
    ensures
        r == is_same_path(a@, b@),
{
    let ours = parts(a);
    let theirs = parts(b);
    let ghost x = views(ours@);
    let ghost y = views(theirs@);
    if starts(a, "/") != starts(b, "/") || ours.len() != theirs.len() {
        assert(x.len() == ours@.len() && y.len() == theirs@.len());
        return false;
    }
    let mut i: usize = 0;
    while i < ours.len()
        invariant
            i <= ours@.len(),
            ours@.len() == theirs@.len(),
            x == views(ours@),
            y == views(theirs@),
            x == parts_of(a@),
            y == parts_of(b@),
            begins_with(a@, "/"@) == begins_with(b@, "/"@),
            forall|j: int| 0 <= j < i ==> x[j] == y[j],
        decreases ours@.len() - i,
    {
        if !same(&ours[i], &theirs[i]) {
            assert(x[i as int] != y[i as int]);
            return false;
        }
        i += 1;
    }
    assert(x =~= y);
    true
}

/// The name of what a path leads to: its last part, unless that only says to stay or to go up.
pub open spec fn file_name_of(path: Seq<char>) -> Option<Seq<char>> {
    let parts = parts_of(path);
    if parts.len() == 0 || parts.last() == "."@ || parts.last() == ".."@ {
        None
    } else {
        Some(parts.last())
    }
}

/// The name of what a path leads to.
pub fn file_name(path: &str) -> (r: Option<String>)
    ensures
        match file_name_of(path@) {
            Some(name) => r is Some && r->0@ == name,
            None => r is None,
        },
{
    let all = parts(path);
    assert(all@.len() == views(all@).len());
    if all.len() == 0 {
        return None;
    }
    let last = all[all.len() - 1].as_str();
    assert(views(all@).last() == last@);
    if same(last, ".") || same(last, "..") {
        None
    } else {
        Some(last.to_owned())
    }
}

/// `s` with every `from` in it replaced by `to`, found from left to right.
pub open spec fn replaced(s: Seq<char>, from: Seq<char>, to: Seq<char>) -> Seq<char>
    decreases s.len(),
{
    if from.len() == 0 || s.len() == 0 {
        s
    } else if begins_with(s, from) {
        to + replaced(s.skip(from.len() as int), from, to)
    } else {
        s.take(1) + replaced(s.skip(1), from, to)
    }
}

/// `s` with every `from` in it replaced by `to`.
pub fn replace(s: &str, from: &str, to: &str) -> (r: String)
    requires
        from@.len() > 0,
    ensures
        r@ == replaced(s@, from@, to@),
{
    let cs = chars_of(s);
    let want = chars_of(from);
    let mut out = String::new();
    let mut i: usize = 0;
    let ghost whole = replaced(s@, from@, to@);
    proof {
        assert(cs@.skip(0) == cs@);
        assert(Seq::<char>::empty() + whole == whole);
    }
    while i < cs.len()
        invariant
            i <= cs@.len(),
            want@ == from@,
            want@.len() > 0,
            whole == replaced(s@, from@, to@),
            whole == out@ + replaced(cs@.skip(i as int), from@, to@),
        decreases cs@.len() - i,
    {
        let ghost rest = cs@.skip(i as int);
        let ghost before = out@;
        proof {
            if rest.len() >= want@.len() {
                assert(rest.take(want@.len() as int) == cs@.subrange(i as int, i + want@.len()));
            }
        }
        if matches_at(&cs, &want, i) {
            out.append(to);
            i += want.len();
            proof {
                assert(rest.skip(want@.len() as int) == cs@.skip(i as int));
                assert(before + (to@ + replaced(cs@.skip(i as int), from@, to@)) == out@ + replaced(
                    cs@.skip(i as int),
                    from@,
                    to@,
                ));
            }
        } else {
            let c: char = cs[i];
            out.push(c);
            i += 1;
            proof {
                assert(rest.skip(1) == cs@.skip(i as int));
                assert(rest.take(1) == seq![c]);
                assert(out@ =~= before + seq![c]);
                assert(before + (seq![c] + replaced(cs@.skip(i as int), from@, to@)) == out@ + replaced(
                    cs@.skip(i as int),
                    from@,
                    to@,
                ));
            }
        }
    }
    assert(cs@.skip(i as int).len() == 0);
    assert(cs@.skip(i as int) == Seq::<char>::empty());
    assert(out@ + Seq::<char>::empty() == out@);
    out
}

/// Trimming takes away white space at either end, all of it, and nothing else.
pub proof fn trimming_takes_white_space_only(s: Seq<char>)
    ensures
        ({
            let t = trimmed(s);
            &&& t.len() > 0 ==> !is_space(t[0]) && !is_space(t.last())
            &&& exists|k: int|
                #![trigger s.skip(k)]
                {
                    &&& 0 <= k <= s.len() - t.len()
                    &&& s.skip(k).take(t.len() as int) == t
                    &&& forall|j: int| 0 <= j < k || k + t.len() <= j < s.len() ==> is_space(#[trigger] s[j])
                }
        }),
{
    let front = trimmed_start(s);
    lemma_starts_after_white_space(s);
    lemma_ends_before_white_space(front);
    lemma_trimmed_start_len(s);
    let k = s.len() - front.len();
    let t = trimmed(s);
    assert(s.skip(k) == front);
    assert forall|j: int| 0 <= j < k || k + t.len() <= j < s.len() implies is_space(#[trigger] s[j]) by {
        if j >= k {
            assert(front[j - k] == s[j]);
        }
    }
}

proof fn lemma_starts_after_white_space(s: Seq<char>)
    ensures
        trimmed_start(s).len() <= s.len(),
        trimmed_start(s) == s.skip(s.len() - trimmed_start(s).len()),
        forall|j: int| 0 <= j < s.len() - trimmed_start(s).len() ==> is_space(#[trigger] s[j]),
    decreases s.len(),
{
    if s.len() > 0 && is_space(s[0]) {
        let rest = s.skip(1);
        let t = trimmed_start(rest);
        lemma_starts_after_white_space(rest);
        assert(rest.skip(rest.len() - t.len()) =~= s.skip(s.len() - t.len()));
        assert forall|j: int| 0 <= j < s.len() - t.len() implies is_space(#[trigger] s[j]) by {
            if j > 0 {
                assert(rest[j - 1] == s[j]);
            }
        }
    } else {
        assert(s.skip(0) =~= s);
    }
}

proof fn lemma_ends_before_white_space(s: Seq<char>)
    ensures
        trimmed_end(s).len() <= s.len(),
        trimmed_end(s) == s.take(trimmed_end(s).len() as int),
        trimmed_end(s).len() > 0 ==> !is_space(trimmed_end(s).last()),
        forall|j: int| trimmed_end(s).len() <= j < s.len() ==> is_space(#[trigger] s[j]),
    decreases s.len(),
{
    if s.len() > 0 && is_space(s.last()) {
        let rest = s.drop_last();
        lemma_ends_before_white_space(rest);
        let t = trimmed_end(rest);
        assert(rest.take(t.len() as int) =~= s.take(t.len() as int));
        assert forall|j: int| t.len() <= j < s.len() implies is_space(#[trigger] s[j]) by {
            if j < rest.len() {
                assert(rest[j] == s[j]);
            }
        }
    } else {
        assert(s.take(s.len() as int) =~= s);
    }
}

/// Every newline ends a line, with a carriage return before it where there is one; what comes after
/// the last newline is a line only where it is not empty.
pub proof fn newlines_end_lines(line: Seq<char>, rest: Seq<char>)
    requires
        forall|i: int| 0 <= i < line.len() ==> line[i] != '\n',
    ensures
        line.len() == 0 || line.last() != '\r' ==> lines_of(line + seq!['\n'] + rest) == seq![line] + lines_of(rest),
        lines_of(line + seq!['\r', '\n'] + rest) == seq![line] + lines_of(rest),
        line.len() > 0 ==> lines_of(line) == seq![line],
        lines_of(Seq::empty()) == Seq::<Seq<char>>::empty(),
{
    let n = line.len() as int;
    let s = line + seq!['\n'] + rest;
    assert(s[n] == '\n');
    lemma_index_of_is(s, '\n', n);
    assert(s.take(n) =~= line);
    assert(s.skip(n + 1) =~= rest);
    let r = line + seq!['\r', '\n'] + rest;
    assert(r[n + 1] == '\n');
    lemma_index_of_is(r, '\n', n + 1);
    assert(r.take(n + 1).drop_last() =~= line);
    assert(r.take(n + 1).last() == '\r');
    assert(r.skip(n + 2) =~= rest);
    lemma_index_of_is(line, '\n', n);
}

/// White space in front of a word does not matter, and a word ends where white space begins again.
pub proof fn white_space_parts_words(gap: Seq<char>, word: Seq<char>, rest: Seq<char>)
    requires
        forall|i: int| 0 <= i < gap.len() ==> is_space(gap[i]),
        forall|i: int| 0 <= i < word.len() ==> !is_space(word[i]),
        word.len() > 0,
        rest.len() > 0 ==> is_space(rest[0]),
    ensures
        words_of(gap + word + rest) == seq![word] + words_of(rest),
        words_of(gap) == Seq::<Seq<char>>::empty(),
{
    let s = gap + word + rest;
    let n = gap.len() as int;
    assert(s[n] == word[0]);
    lemma_trimmed_start(s, n);
    let t = s.skip(n);
    assert(t =~= word + rest);
    assert forall|j: int| 0 <= j < word.len() implies !is_space(t[j]) by {
        assert(t[j] == word[j]);
    }
    if rest.len() > 0 {
        assert(t[word.len() as int] == rest[0]);
    }
    lemma_word_len(t, word.len() as int);
    assert(t.take(word.len() as int) =~= word);
    assert(t.skip(word.len() as int) =~= rest);
    lemma_trimmed_start(gap, n);
    assert(gap.skip(n).len() == 0);
}

/// What is replaced gives way wherever it stands, and everything else stays.
pub proof fn replacements_stand_in_place(front: Seq<char>, from: Seq<char>, to: Seq<char>, rest: Seq<char>)
    requires
        from.len() > 0,
        forall|i: int| 0 <= i < front.len() ==> !stands_at(front + from + rest, from, i),
    ensures
        replaced(front + from + rest, from, to) == front + to + replaced(rest, from, to),
    decreases front.len(),
{
    let s = front + from + rest;
    if front.len() == 0 {
        assert(s.take(from.len() as int) =~= from);
        assert(s.skip(from.len() as int) =~= rest);
        assert(front + to =~= to);
    } else {
        if begins_with(s, from) {
            assert(s.subrange(0, from.len() as int) =~= s.take(from.len() as int));
            assert(stands_at(s, from, 0));
        }
        let fewer = front.skip(1);
        let t = fewer + from + rest;
        assert(s.skip(1) =~= t);
        assert forall|i: int| 0 <= i < fewer.len() implies !stands_at(t, from, i) by {
            if stands_at(t, from, i) {
                assert(s.subrange(i + 1, i + 1 + from.len()) =~= t.subrange(i, i + from.len()));
                assert(stands_at(s, from, i + 1));
            }
        }
        replacements_stand_in_place(fewer, from, to, rest);
        assert(s.take(1) =~= front.take(1));
        assert(front.take(1) + (fewer + to + replaced(rest, from, to)) =~= front + to + replaced(rest, from, to));
    }
}

/// A text without what is to be replaced stays as it is.
pub proof fn other_texts_are_not_replaced(s: Seq<char>, from: Seq<char>, to: Seq<char>)
    requires
        !holds(s, from),
    ensures
        replaced(s, from, to) == s,
    decreases s.len(),
{
    if from.len() > 0 && s.len() > 0 {
        if begins_with(s, from) {
            assert(s.subrange(0, from.len() as int) =~= s.take(from.len() as int));
            assert(stands_at(s, from, 0));
        }
        let rest = s.skip(1);
        if holds(rest, from) {
            let at = choose|at: int| stands_at(rest, from, at);
            assert(s.subrange(at + 1, at + 1 + from.len()) =~= rest.subrange(at, at + from.len()));
            assert(stands_at(s, from, at + 1));
        }
        other_texts_are_not_replaced(rest, from, to);
        assert(s.take(1) + rest =~= s);
    }
}

/// The pieces of a text, with what they are cut at between each two, are the text; none holds it.
pub proof fn pieces_make_up_the_text(s: Seq<char>, c: char)
    ensures
        pieces_of(s, c).len() > 0,
        joined(pieces_of(s, c), seq![c]) == s,
        forall|i: int, j: int|
            0 <= i < pieces_of(s, c).len() && 0 <= j < pieces_of(s, c)[i].len() ==> #[trigger] pieces_of(s, c)[i][j]
                != c,
    decreases s.len(),
{
    lemma_index_of(s, c);
    let n = index_of(s, c);
    let all = pieces_of(s, c);
    if 0 <= n < s.len() {
        let rest = pieces_of(s.skip(n + 1), c);
        pieces_make_up_the_text(s.skip(n + 1), c);
        assert(all == seq![s.take(n)] + rest);
        lemma_joined_front(s.take(n), rest, seq![c]);
        assert(s.take(n) + seq![c] + s.skip(n + 1) =~= s);
        assert forall|i: int, j: int| 0 <= i < all.len() && 0 <= j < all[i].len() implies #[trigger] all[i][j] != c by {
            if i == 0 {
                assert(all[i] == s.take(n));
            } else {
                assert(all[i] == rest[i - 1]);
            }
        }
    } else {
        assert(all == seq![s]);
        assert forall|i: int, j: int| 0 <= i < all.len() && 0 <= j < all[i].len() implies #[trigger] all[i][j] != c by {
            assert(all[i] == s);
        }
    }
}

proof fn lemma_joined_front(first: Seq<char>, rest: Seq<Seq<char>>, sep: Seq<char>)
    requires
        rest.len() > 0,
    ensures
        joined(seq![first] + rest, sep) == first + sep + joined(rest, sep),
    decreases rest.len(),
{
    let all = seq![first] + rest;
    if rest.len() == 1 {
        assert(all.drop_last() =~= seq![first]);
        assert(joined(all.drop_last(), sep) == first);
        assert(all.last() == rest[0]);
    } else {
        lemma_joined_front(first, rest.drop_last(), sep);
        assert(all.drop_last() =~= seq![first] + rest.drop_last());
        assert(all.last() == rest.last());
        assert(first + sep + joined(rest.drop_last(), sep) + sep + rest.last() =~= first + sep + (joined(
            rest.drop_last(),
            sep,
        ) + sep + rest.last()));
    }
}

/// A name below a directory is behind the directory and one slash; an absolute name, or one below
/// nothing, is itself.
pub proof fn paths_are_joined_by_one_slash(dir: Seq<char>, name: Seq<char>)
    ensures
        name.len() > 0 && name[0] == '/' ==> path_of(dir, name) == name,
        dir.len() == 0 ==> path_of(dir, name) == name,
        dir.len() > 0 && !(name.len() > 0 && name[0] == '/') ==> {
            let path = path_of(dir, name);
            let at = path.len() - name.len();
            &&& at >= 1
            &&& path.skip(at) == name
            &&& path[at - 1] == '/'
            &&& dir.last() == '/' ==> path.take(at) == dir
            &&& dir.last() != '/' ==> path.take(at - 1) == dir
        },
{
    reveal_strlit("/");
    if begins_with(name, "/"@) {
        assert(name.take(1)[0] == '/');
    }
    if name.len() > 0 && name[0] == '/' {
        assert(name.take(1) =~= "/"@);
    }
    let path = path_of(dir, name);
    if dir.len() > 0 && !begins_with(name, "/"@) {
        let at = path.len() - name.len();
        assert(path.skip(at) =~= name);
        if dir.last() == '/' {
            assert(path.take(at) =~= dir);
        } else {
            assert(path.take(at - 1) =~= dir);
        }
    }
}

/// How a text is shown in quotes, with escapes for what cannot be shown as it is.
pub uninterp spec fn shown_text(s: Seq<char>) -> Seq<char>;

/// `format!` with `{:?}` on a `&str` of the standard library: the text in quotes, with escapes.
/// What is escaped is not stated: the result is named.
#[verifier::external_body]
pub(crate) fn show_text(s: &str) -> (r: String)
    ensures
        r@ == shown_text(s@),
{
    format!("{s:?}")
}

/// Cutting a text at a character after which it goes on cuts off what follows.
proof fn lemma_pieces_add(a: Seq<char>, c: char, b: Seq<char>)
    ensures
        pieces_of(a + seq![c] + b, c) == pieces_of(a, c) + pieces_of(b, c),
    decreases a.len(),
{
    let s = a + seq![c] + b;
    lemma_index_of(a, c);
    let n = index_of(a, c);
    if 0 <= n < a.len() {
        lemma_index_of_is(s, c, n);
        lemma_pieces_add(a.skip(n + 1), c, b);
        assert(s.take(n) =~= a.take(n));
        assert(s.skip(n + 1) =~= a.skip(n + 1) + seq![c] + b);
        assert(seq![a.take(n)] + (pieces_of(a.skip(n + 1), c) + pieces_of(b, c)) =~= pieces_of(a, c) + pieces_of(b, c));
    } else {
        lemma_index_of_is(s, c, a.len() as int);
        assert(s.take(a.len() as int) =~= a);
        assert(s.skip(a.len() as int + 1) =~= b);
    }
}

/// A text without the character is one piece.
proof fn lemma_one_piece(s: Seq<char>, c: char)
    requires
        forall|i: int| 0 <= i < s.len() ==> s[i] != c,
    ensures
        pieces_of(s, c) == seq![s],
{
    lemma_index_of_is(s, c, s.len() as int);
}

/// A path leads to what stands behind its last slash; slashes at its end do not count; and one that only
/// says to stay or to go up leads to nothing of a name.
pub proof fn paths_lead_to_their_last_part(dir: Seq<char>, name: Seq<char>)
    requires
        name.len() > 0,
        forall|i: int| 0 <= i < name.len() ==> name[i] != '/',
    ensures
        name != seq!['.'] && name != seq!['.', '.'] ==> {
            &&& file_name_of(name) == Some(name)
            &&& file_name_of(dir + seq!['/'] + name) == Some(name)
            &&& file_name_of(dir + seq!['/'] + name + seq!['/']) == Some(name)
        },
        file_name_of(dir + seq!['/'] + seq!['.', '.']) is None,
        file_name_of(Seq::empty()) is None,
        name != seq!['.'] ==> parts_of(dir + seq!['/'] + name) == parts_of(dir).push(name),
        parts_of(dir + seq!['/']) == parts_of(dir),
        parts_of(dir + seq!['/'] + seq!['.']) == parts_of(dir),
{
    reveal_strlit(".");
    reveal_strlit("..");
    assert("."@ =~= seq!['.']);
    assert(".."@ =~= seq!['.', '.']);
    let none = Seq::<char>::empty();
    lemma_one_piece(none, '/');
    lemma_one_piece(name, '/');
    lemma_one_piece(seq!['.'], '/');
    lemma_one_piece(seq!['.', '.'], '/');
    lemma_counting(dir, name);
    lemma_counting(dir, none);
    lemma_counting(dir, seq!['.']);
    lemma_counting(dir, seq!['.', '.']);
    assert(dir + seq!['/'] + none =~= dir + seq!['/']);
    lemma_counting(dir + seq!['/'] + name, none);
    assert(dir + seq!['/'] + name + seq!['/'] + none =~= dir + seq!['/'] + name + seq!['/']);
    assert(seq![name].drop_last() =~= Seq::<Seq<char>>::empty());
    assert(seq![none].drop_last() =~= Seq::<Seq<char>>::empty());
    assert(counting_parts(Seq::empty()) =~= Seq::<Seq<char>>::empty());
    assert(seq![name].last() == name);
    assert(seq![none].last() == none);
}

proof fn lemma_counting(dir: Seq<char>, last: Seq<char>)
    requires
        forall|i: int| 0 <= i < last.len() ==> last[i] != '/',
    ensures
        parts_of(dir + seq!['/'] + last) == (if last.len() == 0 || last == "."@ {
            parts_of(dir)
        } else {
            parts_of(dir).push(last)
        }),
{
    lemma_pieces_add(dir, '/', last);
    lemma_one_piece(last, '/');
    pieces_make_up_the_text(dir, '/');
    let all = pieces_of(dir, '/') + seq![last];
    assert(all.drop_last() =~= pieces_of(dir, '/'));
    assert(all.last() == last);
}

/// Two paths are the same where they have the same parts and either both begin at the root or neither
/// does: a slash too many, or one at the end, makes no other path.
pub proof fn slashes_make_no_other_path(dir: Seq<char>, name: Seq<char>, other: Seq<char>)
    requires
        dir.len() > 0,
        name.len() > 0,
        other.len() > 0,
        forall|i: int| 0 <= i < name.len() ==> name[i] != '/',
        forall|i: int| 0 <= i < other.len() ==> other[i] != '/',
    ensures
        is_same_path(dir + seq!['/'] + name, dir + seq!['/'] + name + seq!['/']),
        is_same_path(dir + seq!['/'] + name, dir + seq!['/', '/'] + name),
        is_same_path(dir, dir),
        !is_same_path(name, seq!['/'] + name),
        is_same_path(name, other) ==> name == other,
{
    reveal_strlit("/");
    reveal_strlit(".");
    assert("/"@ =~= seq!['/']);
    assert("."@ =~= seq!['.']);
    let none = Seq::<char>::empty();
    let path = dir + seq!['/'] + name;
    let longer = path + seq!['/'];
    let doubled = dir + seq!['/', '/'] + name;
    lemma_counting(path, none);
    assert(path + seq!['/'] + none =~= longer);
    lemma_counting(dir, name);
    lemma_counting(dir, none);
    assert(dir + seq!['/'] + none =~= dir + seq!['/']);
    lemma_counting(dir + seq!['/'], name);
    assert(dir + seq!['/'] + seq!['/'] + name =~= doubled);
    assert(path.take(1) =~= dir.take(1));
    assert(longer.take(1) =~= dir.take(1));
    assert(doubled.take(1) =~= dir.take(1));
    assert((seq!['/'] + name).take(1) =~= "/"@);
    assert(name.take(1)[0] == name[0]);
    lemma_one_piece(name, '/');
    assert(seq![name].drop_last() =~= Seq::<Seq<char>>::empty());
    assert(counting_parts(Seq::empty()) =~= Seq::<Seq<char>>::empty());
    assert(seq![name].last() == name);
    lemma_one_piece(other, '/');
    assert(seq![other].drop_last() =~= Seq::<Seq<char>>::empty());
    assert(seq![other].last() == other);
    assert(parts_of(name)[0] == name);
    assert(parts_of(other)[0] == other);
}

/// A number below zero is written with a minus sign in front of its digits, and any other without.
pub proof fn signs_stand_in_front(n: int)
    ensures
        n >= 0 ==> all_digits(signed_decimal_of(n)) && number_of(signed_decimal_of(n)) == n,
        n < 0 ==> signed_decimal_of(n)[0] == '-' && number_of(signed_decimal_of(n).skip(1)) == -n,
{
    reveal_strlit("-");
    assert("-"@ =~= seq!['-']);
    decimal_reads_back((if n < 0 {
        -n
    } else {
        n
    }) as nat);
    if n < 0 {
        assert(signed_decimal_of(n).skip(1) =~= decimal_of((-n) as nat));
    }
}

} // verus!
