//! Character-level string helpers shared by the rest of the crate.

use vstd::prelude::*;

verus! {

/// `String::push` appends the character to the end of the string, as its
/// documentation says.
pub assume_specification[ std::string::String::push ](s: &mut std::string::String, c: char)
    ensures
        final(s)@ == old(s)@.push(c),
;

/// The characters of `s`, in order.
pub fn chars_of(s: &str) -> (out: Vec<char>)
    ensures
        out@ == s@,
{
    let mut out: Vec<char> = Vec::new();
    for c in it: s.chars()
        invariant
            out@ == it.seq().take(it.index() as int),
            it.seq() == s@,
    {
        out.push(c);
    }
    out
}

/// The string made of the characters `chars[from..to]`.
pub fn string_of_range(chars: &Vec<char>, from: usize, to: usize) -> (out: String)
    requires
        from <= to <= chars.len(),
    ensures
        out@ == chars@.subrange(from as int, to as int),
{
    let mut out = String::new();
    let mut i: usize = from;
    while i < to
        invariant
            from <= i <= to <= chars.len(),
            out@ == chars@.subrange(from as int, i as int),
        decreases to - i,
    {
        out.push(chars[i]);
        i += 1;
    }
    out
}

/// Whether two strings hold the same characters.
pub fn same_text(a: &str, b: &str) -> (same: bool)
    ensures
        same == (a@ == b@),
{
    let x = chars_of(a);
    let y = chars_of(b);
    if x.len() != y.len() {
        return false;
    }
    let mut i: usize = 0;
    while i < x.len()
        invariant
            x.len() == y.len(),
            i <= x.len(),
            x@ == a@,
            y@ == b@,
            x@.take(i as int) == y@.take(i as int),
        decreases x.len() - i,
    {
        if x[i] != y[i] {
            return false;
        }
        assert(x@.take(i + 1) =~= x@.take(i as int).push(x@[i as int]));
        assert(y@.take(i + 1) =~= y@.take(i as int).push(y@[i as int]));
        i += 1;
    }
    assert(x@ =~= x@.take(x.len() as int));
    assert(y@ =~= y@.take(y.len() as int));
    true
}

/// Whether `c` has the Unicode property White_Space.
pub open spec fn is_space(c: char) -> bool {
    let u = c as u32;
    ||| 0x09 <= u <= 0x0D
    ||| u == 0x20
    ||| u == 0x85
    ||| u == 0xA0
    ||| u == 0x1680
    ||| 0x2000 <= u <= 0x200A
    ||| u == 0x2028
    ||| u == 0x2029
    ||| u == 0x202F
    ||| u == 0x205F
    ||| u == 0x3000
}

/// Decides `is_space`.
pub fn is_space_char(c: char) -> (space: bool)
    ensures
        space == is_space(c),
{
    let u: u32 = c as u32;
    (0x09 <= u && u <= 0x0D) || u == 0x20 || u == 0x85 || u == 0xA0 || u == 0x1680 || (0x2000 <= u
        && u <= 0x200A) || u == 0x2028 || u == 0x2029 || u == 0x202F || u == 0x205F || u
        == 0x3000
}

/// The word in progress, as a list of none or one.
pub open spec fn flush(cur: Seq<char>) -> Seq<Seq<char>> {
    if cur.len() > 0 {
        seq![cur]
    } else {
        Seq::empty()
    }
}

/// The whitespace-separated words of `s[i..]`, given that `cur` is the part
/// already read of the word in progress.
pub open spec fn words_from(s: Seq<char>, i: int, cur: Seq<char>) -> Seq<Seq<char>>
    decreases s.len() - i,
{
    if i < 0 || i >= s.len() {
        flush(cur)
    } else if is_space(s[i]) {
        flush(cur) + words_from(s, i + 1, Seq::empty())
    } else {
        words_from(s, i + 1, cur.push(s[i]))
    }
}

/// The maximal runs of non-whitespace characters of `s`, in order.
pub open spec fn words(s: Seq<char>) -> Seq<Seq<char>> {
    words_from(s, 0, Seq::empty())
}

/// Splits `s` at whitespace into its words; none of them is empty.
pub fn split_whitespace(s: &str) -> (out: Vec<String>)
    ensures
        out.deep_view() == words(s@),
{
    let chars = chars_of(s);
    let mut out: Vec<String> = Vec::new();
    let mut cur = String::new();
    let mut i: usize = 0;
    while i < chars.len()
        invariant
            i <= chars.len(),
            chars@ == s@,
            words(s@) == out.deep_view() + words_from(s@, i as int, cur@),
        decreases chars.len() - i,
    {
        let c = chars[i];
        let ghost before = out.deep_view();
        let ghost rest = words_from(s@, i + 1, Seq::empty());
        if is_space_char(c) {
            assert(words_from(s@, i as int, cur@) == flush(cur@) + rest);
            assert(before + (flush(cur@) + rest) =~= (before + flush(cur@)) + rest);
            if !cur.as_str().is_empty() {
                out.push(cur);
                assert(out.deep_view() =~= before + flush(cur@));
                cur = String::new();
            } else {
                assert(before + flush(cur@) =~= before);
                assert(cur@ =~= Seq::<char>::empty());
            }
        } else {
            assert(words_from(s@, i as int, cur@) == words_from(s@, i + 1, cur@.push(c)));
            cur.push(c);
        }
        i += 1;
    }
    if !cur.as_str().is_empty() {
        let ghost before = out.deep_view();
        out.push(cur);
        assert(out.deep_view() =~= before + flush(cur@));
    }
    out
}

/// Whether `needle` stands in `hay` at index `i`.
pub open spec fn occurs_at(hay: Seq<char>, needle: Seq<char>, i: int) -> bool {
    0 <= i && i + needle.len() <= hay.len() && hay.subrange(i, i + needle.len()) == needle
}

/// Whether `needle` stands somewhere in `hay`.
pub open spec fn contains_text(hay: Seq<char>, needle: Seq<char>) -> bool {
    exists|i: int| occurs_at(hay, needle, i)
}

/// Decides `occurs_at` on character vectors.
pub fn occurs_at_index(hay: &Vec<char>, needle: &Vec<char>, i: usize) -> (found: bool)
    ensures
        found == occurs_at(hay@, needle@, i as int),
{
    if needle.len() > hay.len() || i > hay.len() - needle.len() {
        return false;
    }
    let mut k: usize = 0;
    while k < needle.len()
        invariant
            k <= needle.len(),
            i + needle.len() <= hay.len(),
            hay@.subrange(i as int, i + k) == needle@.take(k as int),
        decreases needle.len() - k,
    {
        if hay[i + k] != needle[k] {
            assert(hay@.subrange(i as int, i + needle.len())[k as int] != needle@[k as int]);
            return false;
        }
        assert(hay@.subrange(i as int, i + k + 1) =~= hay@.subrange(i as int, i + k).push(
            hay@[i + k],
        ));
        assert(needle@.take(k + 1) =~= needle@.take(k as int).push(needle@[k as int]));
        k += 1;
    }
    assert(needle@.take(needle.len() as int) =~= needle@);
    true
}

/// Whether `needle` stands somewhere in `hay`.
pub fn contains(hay: &str, needle: &str) -> (found: bool)
    ensures
        found == contains_text(hay@, needle@),
{
    let h = chars_of(hay);
    let n = chars_of(needle);
    if n.len() > h.len() {
        return false;
    }
    let last: usize = h.len() - n.len();
    let mut i: usize = 0;
    while i < last
        invariant
            i <= last,
            last == h.len() - n.len(),
            n.len() <= h.len(),
            h@ == hay@,
            n@ == needle@,
            forall|j: int| 0 <= j < i ==> !occurs_at(hay@, needle@, j),
        decreases last - i,
    {
        if occurs_at_index(&h, &n, i) {
            return true;
        }
        i += 1;
    }
    occurs_at_index(&h, &n, last)
}

/// Whether `s` begins with `prefix`.
pub fn starts_with(s: &str, prefix: &str) -> (found: bool)
    ensures
        found == occurs_at(s@, prefix@, 0),
{
    let h = chars_of(s);
    let n = chars_of(prefix);
    occurs_at_index(&h, &n, 0)
}

/// `s[i..]` with every occurrence of `from` replaced by `to`, found from the
/// left and not overlapping. An empty `from` occurs before every character
/// and at the end.
pub open spec fn replaced_from(s: Seq<char>, from: Seq<char>, to: Seq<char>, i: int) -> Seq<char>
    decreases s.len() - i,
{
    if i < 0 || i > s.len() {
        Seq::empty()
    } else if from.len() == 0 {
        if i == s.len() {
            to
        } else {
            to + seq![s[i]] + replaced_from(s, from, to, i + 1)
        }
    } else if occurs_at(s, from, i) {
        to + replaced_from(s, from, to, i + from.len())
    } else if i < s.len() {
        seq![s[i]] + replaced_from(s, from, to, i + 1)
    } else {
        Seq::empty()
    }
}

/// `s` with every occurrence of `from` replaced by `to`.
pub open spec fn replaced(s: Seq<char>, from: Seq<char>, to: Seq<char>) -> Seq<char> {
    replaced_from(s, from, to, 0)
}

/// Appends the characters of `part` to `out`.
fn push_all(out: &mut String, part: &Vec<char>)
    ensures
        final(out)@ == old(out)@ + part@,
{
    let mut k: usize = 0;
    while k < part.len()
        invariant
            k <= part.len(),
            out@ == old(out)@ + part@.take(k as int),
        decreases part.len() - k,
    {
        out.push(part[k]);
        assert(part@.take(k + 1) =~= part@.take(k as int).push(part@[k as int]));
        assert(out@ =~= old(out)@ + part@.take(k + 1));
        k += 1;
    }
    assert(part@.take(part.len() as int) =~= part@);
}

/// Replaces every occurrence of `from` in `s` by `to`.
pub fn replace_text(s: &str, from: &str, to: &str) -> (out: String)
    ensures
        out@ == replaced(s@, from@, to@),
{
    let h = chars_of(s);
    let f = chars_of(from);
    let t = chars_of(to);
    let mut out = String::new();
    let mut i: usize = 0;
    while i < h.len()
        invariant
            i <= h.len(),
            h@ == s@,
            f@ == from@,
            t@ == to@,
            replaced(s@, from@, to@) == out@ + replaced_from(s@, from@, to@, i as int),
        decreases h.len() - i,
    {
        let ghost before = out@;
        if f.len() == 0 {
            push_all(&mut out, &t);
            out.push(h[i]);
            assert(before + (to@ + seq![s@[i as int]] + replaced_from(s@, from@, to@, i + 1))
                =~= out@ + replaced_from(s@, from@, to@, i + 1));
            i += 1;
        } else if occurs_at_index(&h, &f, i) {
            push_all(&mut out, &t);
            assert(before + (to@ + replaced_from(s@, from@, to@, i + from@.len())) =~= out@
                + replaced_from(s@, from@, to@, i + from@.len()));
            i += f.len();
        } else {
            out.push(h[i]);
            assert(before + (seq![s@[i as int]] + replaced_from(s@, from@, to@, i + 1)) =~= out@
                + replaced_from(s@, from@, to@, i + 1));
            i += 1;
        }
    }
    let ghost before = out@;
    if f.len() == 0 {
        push_all(&mut out, &t);
    } else {
        assert(!occurs_at(s@, from@, i as int));
        assert(before + Seq::<char>::empty() =~= before);
    }
    out
}

/// `\r` at the end of `line` is not part of it.
pub open spec fn without_cr(line: Seq<char>) -> Seq<char> {
    if line.len() > 0 && line.last() == '\r' {
        line.drop_last()
    } else {
        line
    }
}

/// The lines of `s[i..]`, given that `cur` is the part already read of the
/// line in progress.
pub open spec fn lines_from(s: Seq<char>, i: int, cur: Seq<char>) -> Seq<Seq<char>>
    decreases s.len() - i,
{
    if i < 0 || i >= s.len() {
        flush(cur)
    } else if s[i] == '\n' {
        seq![without_cr(cur)] + lines_from(s, i + 1, Seq::empty())
    } else {
        lines_from(s, i + 1, cur.push(s[i]))
    }
}

/// The lines of `s`: each ends at a line feed, which is not part of it, nor is
/// a carriage return just before that line feed; what follows the last line
/// feed is a line too, unless it is empty.
pub open spec fn lines_of(s: Seq<char>) -> Seq<Seq<char>> {
    lines_from(s, 0, Seq::empty())
}

/// Splits `s` into its lines.
pub fn split_lines(s: &str) -> (out: Vec<String>)
    ensures
        out.deep_view() == lines_of(s@),
{
    let chars = chars_of(s);
    let mut out: Vec<String> = Vec::new();
    let mut start: usize = 0;
    let mut i: usize = 0;
    assert(s@.subrange(0, 0) =~= Seq::<char>::empty());
    assert(out.deep_view() + lines_of(s@) =~= lines_of(s@));
    while i < chars.len()
        invariant
            start <= i <= chars.len(),
            chars@ == s@,
            lines_of(s@) == out.deep_view() + lines_from(
                s@,
                i as int,
                s@.subrange(start as int, i as int),
            ),
        decreases chars.len() - i,
    {
        let ghost before = out.deep_view();
        let ghost cur = s@.subrange(start as int, i as int);
        let ghost rest = lines_from(s@, i + 1, Seq::empty());
        if chars[i] == '\n' {
            let end: usize = if i > start && chars[i - 1] == '\r' {
                i - 1
            } else {
                i
            };
            let line = string_of_range(&chars, start, end);
            assert(line@ =~= without_cr(cur));
            out.push(line);
            assert(out.deep_view() =~= before + seq![without_cr(cur)]);
            assert(before + (seq![without_cr(cur)] + rest) =~= out.deep_view() + rest);
            start = i + 1;
            assert(s@.subrange(start as int, i + 1) =~= Seq::<char>::empty());
        } else {
            assert(s@.subrange(start as int, i + 1) =~= cur.push(s@[i as int]));
        }
        i += 1;
    }
    if start < i {
        let ghost before = out.deep_view();
        let line = string_of_range(&chars, start, i);
        out.push(line);
        assert(out.deep_view() =~= before + flush(s@.subrange(start as int, i as int)));
    } else {
        assert(out.deep_view() + flush(s@.subrange(start as int, i as int)) =~= out.deep_view());
    }
    out
}

/// The parts of `parts` in one string, with `sep` between each two neighbours.
pub open spec fn joined(parts: Seq<Seq<char>>, sep: Seq<char>) -> Seq<char>
    decreases parts.len(),
{
    if parts.len() == 0 {
        Seq::empty()
    } else if parts.len() == 1 {
        parts[0]
    } else {
        joined(parts.drop_last(), sep) + sep + parts.last()
    }
}

/// Joins `parts` with `sep` between each two neighbours.
pub fn join(parts: &Vec<String>, sep: &str) -> (out: String)
    ensures
        out@ == joined(parts.deep_view(), sep@),
{
    let separator = chars_of(sep);
    let mut out = String::new();
    let mut i: usize = 0;
    while i < parts.len()
        invariant
            i <= parts.len(),
            separator@ == sep@,
            out@ == joined(parts.deep_view().take(i as int), sep@),
        decreases parts.len() - i,
    {
        let ghost done = parts.deep_view().take(i as int);
        let ghost next = parts.deep_view().take(i + 1);
        assert(next.drop_last() =~= done);
        assert(next.last() == parts@[i as int]@);
        if i > 0 {
            push_all(&mut out, &separator);
        }
        let part = chars_of(parts[i].as_str());
        push_all(&mut out, &part);
        assert(out@ =~= joined(next, sep@)) by {
            if i == 0 {
                assert(done.len() == 0);
                assert(joined(done, sep@) =~= Seq::<char>::empty());
            }
        }
        i += 1;
    }
    assert(parts.deep_view().take(parts.len() as int) =~= parts.deep_view());
    out
}

/// The character that writes the digit `d`.
pub open spec fn digit_char(d: int) -> char {
    if d == 0 {
        '0'
    } else if d == 1 {
        '1'
    } else if d == 2 {
        '2'
    } else if d == 3 {
        '3'
    } else if d == 4 {
        '4'
    } else if d == 5 {
        '5'
    } else if d == 6 {
        '6'
    } else if d == 7 {
        '7'
    } else if d == 8 {
        '8'
    } else {
        '9'
    }
}

/// The digit that `c` writes, for the ten ASCII digits.
pub open spec fn digit_value(c: char) -> Option<int> {
    if c == '0' {
        Some(0)
    } else if c == '1' {
        Some(1)
    } else if c == '2' {
        Some(2)
    } else if c == '3' {
        Some(3)
    } else if c == '4' {
        Some(4)
    } else if c == '5' {
        Some(5)
    } else if c == '6' {
        Some(6)
    } else if c == '7' {
        Some(7)
    } else if c == '8' {
        Some(8)
    } else if c == '9' {
        Some(9)
    } else {
        None
    }
}

/// The decimal numeral of `n`, without leading zeros.
pub open spec fn decimal_of(n: nat) -> Seq<char>
    decreases n,
{
    if n < 10 {
        seq![digit_char(n as int)]
    } else {
        decimal_of(n / 10).push(digit_char((n % 10) as int))
    }
}

fn digit_to_char(d: usize) -> (c: char)
    requires
        d < 10,
    ensures
        c == digit_char(d as int),
{
    if d == 0 {
        '0'
    } else if d == 1 {
        '1'
    } else if d == 2 {
        '2'
    } else if d == 3 {
        '3'
    } else if d == 4 {
        '4'
    } else if d == 5 {
        '5'
    } else if d == 6 {
        '6'
    } else if d == 7 {
        '7'
    } else if d == 8 {
        '8'
    } else {
        '9'
    }
}

fn char_to_digit(c: char) -> (d: Option<usize>)
    ensures
        match d {
            Some(v) => digit_value(c) == Some(v as int) && v < 10,
            None => digit_value(c) is None,
        },
{
    if c == '0' {
        Some(0)
    } else if c == '1' {
        Some(1)
    } else if c == '2' {
        Some(2)
    } else if c == '3' {
        Some(3)
    } else if c == '4' {
        Some(4)
    } else if c == '5' {
        Some(5)
    } else if c == '6' {
        Some(6)
    } else if c == '7' {
        Some(7)
    } else if c == '8' {
        Some(8)
    } else if c == '9' {
        Some(9)
    } else {
        None
    }
}

/// Writes `n` as a decimal numeral.
pub fn format_decimal(n: usize) -> (out: String)
    ensures
        out@ == decimal_of(n as nat),
{
    let mut low: Vec<char> = Vec::new();
    let mut rest: usize = n;
    while rest >= 10
        invariant
            decimal_of(n as nat) == decimal_of(rest as nat) + low@.reverse(),
        decreases rest,
    {
        let c = digit_to_char(rest % 10);
        let ghost before = low@;
        low.push(c);
        assert(low@.reverse() =~= seq![c] + before.reverse());
        assert(decimal_of(rest as nat) == decimal_of((rest / 10) as nat).push(c));
        assert(decimal_of((rest / 10) as nat).push(c) + before.reverse() =~= decimal_of(
            (rest / 10) as nat,
        ) + low@.reverse());
        rest = rest / 10;
    }
    let mut out = String::new();
    out.push(digit_to_char(rest));
    let mut k: usize = low.len();
    while k > 0
        invariant
            k <= low.len(),
            out@ == decimal_of(rest as nat) + low@.reverse().take(low.len() - k),
        decreases k,
    {
        k -= 1;
        out.push(low[k]);
        assert(low@.reverse().take(low.len() - k) =~= low@.reverse().take(low.len() - k - 1).push(
            low@[k as int],
        ));
    }
    assert(low@.reverse().take(low.len() as int) =~= low@.reverse());
    out
}

/// The number that the digits `s` write; the digits are taken as they come,
/// and a character that is no digit counts as zero.
pub open spec fn decimal_value(s: Seq<char>) -> nat
    decreases s.len(),
{
    if s.len() == 0 {
        0
    } else {
        let d = match digit_value(s.last()) {
            Some(d) => d,
            None => 0,
        };
        (decimal_value(s.drop_last()) * 10 + d) as nat
    }
}

/// All of `s` are ASCII digits.
pub open spec fn all_digits(s: Seq<char>) -> bool {
    forall|i: int| 0 <= i < s.len() ==> digit_value(#[trigger] s[i]) is Some
}

/// The digits of a numeral: what follows one leading `+`, if there is one.
pub open spec fn numeral_digits(s: Seq<char>) -> Seq<char> {
    if s.len() > 0 && s[0] == '+' {
        s.skip(1)
    } else {
        s
    }
}

/// The number that `s` writes in decimal, where it writes one that fits:
/// one or more ASCII digits, after a `+` or not, and nothing else.
pub open spec fn parsed_decimal(s: Seq<char>) -> Option<usize> {
    let digits = numeral_digits(s);
    if digits.len() > 0 && all_digits(digits) && decimal_value(digits) <= usize::MAX {
        Some(decimal_value(digits) as usize)
    } else {
        None
    }
}

/// More digits never write a smaller number.
proof fn lemma_decimal_value_grows(s: Seq<char>, n: int)
    requires
        0 <= n <= s.len(),
    ensures
        decimal_value(s.take(n)) <= decimal_value(s),
    decreases s.len() - n,
{
    if n < s.len() {
        lemma_decimal_value_grows(s, n + 1);
        assert(s.take(n + 1).drop_last() =~= s.take(n));
    } else {
        assert(s.take(n) =~= s);
    }
}

/// Reads a decimal numeral.
pub fn parse_decimal(s: &str) -> (out: Option<usize>)
    ensures
        out == parsed_decimal(s@),
{
    let chars = chars_of(s);
    let start: usize = if chars.len() > 0 && chars[0] == '+' {
        1
    } else {
        0
    };
    let ghost digits = numeral_digits(s@);
    assert(digits =~= s@.skip(start as int));
    if start >= chars.len() {
        return None;
    }
    let mut value: usize = 0;
    let mut i: usize = start;
    assert(digits.take(0) =~= Seq::<char>::empty());
    while i < chars.len()
        invariant
            start <= i <= chars.len(),
            chars@ == s@,
            digits == s@.skip(start as int),
            digits == numeral_digits(s@),
            all_digits(digits.take(i - start)),
            value == decimal_value(digits.take(i - start)),
        decreases chars.len() - i,
    {
        let ghost next = digits.take(i - start + 1);
        assert(next.drop_last() =~= digits.take(i - start));
        assert(next.last() == chars@[i as int]);
        match char_to_digit(chars[i]) {
            None => {
                assert(digit_value(digits[i - start]) is None);
                return None;
            },
            Some(d) => {
                assert(decimal_value(next) == value * 10 + d);
                if value > (usize::MAX - d) / 10 {
                    proof {
                        lemma_decimal_value_grows(digits, i - start + 1);
                    }
                    return None;
                }
                value = value * 10 + d;
                assert forall|j: int| 0 <= j < next.len() implies digit_value(
                    #[trigger] next[j],
                ) is Some by {
                    if j < next.len() - 1 {
                        assert(next[j] == digits.take(i - start)[j]);
                    }
                }
            },
        }
        i += 1;
    }
    assert(digits.take(digits.len() as int) =~= digits);
    Some(value)
}

/// The index of the first character of `s` at or after `i` that is no whitespace.
pub open spec fn trim_start_index(s: Seq<char>, i: int) -> int
    decreases s.len() - i,
{
    if 0 <= i < s.len() && is_space(s[i]) {
        trim_start_index(s, i + 1)
    } else {
        i
    }
}

/// The index just after the last character of `s` before `j` that is no whitespace.
pub open spec fn trim_end_index(s: Seq<char>, j: int) -> int
    decreases j,
{
    if 0 < j <= s.len() && is_space(s[j - 1]) {
        trim_end_index(s, j - 1)
    } else {
        j
    }
}

/// `s` without the whitespace at its start and at its end.
pub open spec fn trimmed(s: Seq<char>) -> Seq<char> {
    let a = trim_start_index(s, 0);
    let b = trim_end_index(s, s.len() as int);
    if a < b {
        s.subrange(a, b)
    } else {
        Seq::empty()
    }
}

/// Removes the whitespace at the start and at the end of `s`.
pub fn trim(s: &str) -> (out: String)
    ensures
        out@ == trimmed(s@),
{
    let chars = chars_of(s);
    let mut a: usize = 0;
    while a < chars.len() && is_space_char(chars[a])
        invariant
            a <= chars.len(),
            chars@ == s@,
            trim_start_index(s@, 0) == trim_start_index(s@, a as int),
        decreases chars.len() - a,
    {
        a += 1;
    }
    let mut b: usize = chars.len();
    while b > 0 && is_space_char(chars[b - 1])
        invariant
            b <= chars.len(),
            chars@ == s@,
            trim_end_index(s@, s@.len() as int) == trim_end_index(s@, b as int),
        decreases b,
    {
        b -= 1;
    }
    if a < b {
        string_of_range(&chars, a, b)
    } else {
        String::new()
    }
}

/// A list with the same strings.
pub fn copy_strings(items: &Vec<String>) -> (out: Vec<String>)
    ensures
        out.deep_view() == items.deep_view(),
{
    let mut out: Vec<String> = Vec::new();
    let mut i: usize = 0;
    while i < items.len()
        invariant
            i <= items.len(),
            out.len() == i,
            forall|j: int| 0 <= j < i ==> (#[trigger] out@[j])@ == items@[j]@,
        decreases items.len() - i,
    {
        out.push(items[i].clone());
        i += 1;
    }
    assert(out.deep_view() =~= items.deep_view());
    out
}

/// `text` in lower case, as Unicode defines it.
pub uninterp spec fn lowercase(text: Seq<char>) -> Seq<char>;

/// Calls `str::to_lowercase`. Nothing is proved of the text that comes back:
/// the contract gives it a name that depends on the argument alone.
#[verifier::external_body]
pub(crate) fn to_lowercase(text: &str) -> (out: String)
    ensures
        out@ == lowercase(text@),
{
    text.to_lowercase()
}

/// The decimal numeral of a number holds digits only, at least one, and
/// writes that number.
pub proof fn lemma_decimal_of_writes(n: nat)
    ensures
        decimal_of(n).len() > 0,
        all_digits(decimal_of(n)),
        decimal_value(decimal_of(n)) == n,
    decreases n,
{
    if n < 10 {
        let s = decimal_of(n);
        assert(s.drop_last() =~= Seq::<char>::empty());
        assert(s.last() == digit_char(n as int));
        assert(digit_value(digit_char(n as int)) == Some(n as int));
        assert(decimal_value(s.drop_last()) == 0);
        assert(decimal_value(s) == decimal_value(s.drop_last()) * 10 + n);
    } else {
        lemma_decimal_of_writes(n / 10);
        let head = decimal_of(n / 10);
        let s = decimal_of(n);
        assert(s.drop_last() =~= head);
        assert(s.last() == digit_char((n % 10) as int));
        assert(digit_value(digit_char((n % 10) as int)) == Some((n % 10) as int));
        assert(decimal_value(s) == decimal_value(head) * 10 + n % 10);
        assert forall|i: int| 0 <= i < s.len() implies digit_value(#[trigger] s[i]) is Some by {
            if i < head.len() {
                assert(s[i] == head[i]);
            }
        }
    }
}

/// A digit is no whitespace, no line feed and no sign.
pub proof fn lemma_digit_is_plain(c: char)
    requires
        digit_value(c) is Some,
    ensures
        !is_space(c),
        c != '\n',
        c != '+',
{
}

/// Text without a line feed is one line, unless it is empty.
pub proof fn lemma_lines_of_one_line(s: Seq<char>, i: int)
    requires
        0 <= i <= s.len(),
        forall|j: int| 0 <= j < s.len() ==> s[j] != '\n',
    ensures
        lines_from(s, i, s.take(i)) == flush(s),
    decreases s.len() - i,
{
    if i < s.len() {
        assert(s.take(i + 1) =~= s.take(i).push(s[i]));
        lemma_lines_of_one_line(s, i + 1);
    } else {
        assert(s.take(i) =~= s);
    }
}

/// The decimal numeral of a number that fits is read back as that number,
/// also as the only line of a text and with nothing to trim.
pub proof fn lemma_decimal_round_trip(n: usize)
    ensures
        lines_of(decimal_of(n as nat)) == seq![decimal_of(n as nat)],
        trimmed(decimal_of(n as nat)) == decimal_of(n as nat),
        parsed_decimal(decimal_of(n as nat)) == Some(n),
{
    let s = decimal_of(n as nat);
    lemma_decimal_of_writes(n as nat);
    assert forall|j: int| 0 <= j < s.len() implies s[j] != '\n' && !is_space(s[j]) && s[j]
        != '+' by {
        lemma_digit_is_plain(s[j]);
    }
    assert(s.take(0) =~= Seq::<char>::empty());
    lemma_lines_of_one_line(s, 0);
    assert(!is_space(s[0]));
    assert(!is_space(s[s.len() - 1]));
    assert(s.subrange(0, s.len() as int) =~= s);
    assert(numeral_digits(s) == s);
}

/// The character `c` stands nowhere in `s`.
pub open spec fn free_of(s: Seq<char>, c: char) -> bool {
    forall|j: int| 0 <= j < s.len() ==> s[j] != c
}

/// Whether the character `c` stands somewhere in `s`.
pub fn has_char(s: &str, c: char) -> (found: bool)
    ensures
        found == !free_of(s@, c),
{
    let chars = chars_of(s);
    let mut i: usize = 0;
    while i < chars.len()
        invariant
            i <= chars.len(),
            chars@ == s@,
            forall|j: int| 0 <= j < i ==> s@[j] != c,
        decreases chars.len() - i,
    {
        if chars[i] == c {
            return true;
        }
        i += 1;
    }
    false
}

/// A part of a text that is free of a character is free of it too.
pub proof fn lemma_part_is_free_of(hay: Seq<char>, needle: Seq<char>, c: char)
    requires
        contains_text(hay, needle),
        free_of(hay, c),
    ensures
        free_of(needle, c),
{
    let i = choose|i: int| occurs_at(hay, needle, i);
    assert forall|j: int| 0 <= j < needle.len() implies needle[j] != c by {
        assert(hay.subrange(i, i + needle.len())[j] == hay[i + j]);
    }
}

/// Replacing in a text that is free of a character, by a text that is free
/// of it, gives a text that is free of it.
pub proof fn lemma_replaced_is_free_of(
    s: Seq<char>,
    from: Seq<char>,
    to: Seq<char>,
    c: char,
    i: int,
)
    requires
        free_of(s, c),
        free_of(to, c),
    ensures
        free_of(replaced_from(s, from, to, i), c),
    decreases s.len() - i,
{
    if i < 0 || i > s.len() {
    } else if from.len() == 0 {
        if i < s.len() {
            lemma_replaced_is_free_of(s, from, to, c, i + 1);
        }
    } else if occurs_at(s, from, i) {
        lemma_replaced_is_free_of(s, from, to, c, i + from.len());
    } else if i < s.len() {
        lemma_replaced_is_free_of(s, from, to, c, i + 1);
    }
}

/// A part of a text that holds no occurrence of a word holds none either.
pub proof fn lemma_part_holds_no_text(hay: Seq<char>, part: Seq<char>, word: Seq<char>)
    requires
        contains_text(hay, part),
        !contains_text(hay, word),
    ensures
        !contains_text(part, word),
{
    let i = choose|i: int| occurs_at(hay, part, i);
    if contains_text(part, word) {
        let j = choose|j: int| occurs_at(part, word, j);
        assert(hay.subrange(i + j, i + j + word.len()) =~= part.subrange(j, j + word.len()));
        assert(occurs_at(hay, word, i + j));
    }
}

/// No line of a text holds a line feed, and each line is a part of the text.
pub proof fn lemma_lines_are_parts(s: Seq<char>, k: int)
    requires
        0 <= k < lines_of(s).len(),
    ensures
        free_of(lines_of(s)[k], '\n'),
        contains_text(s, lines_of(s)[k]),
{
    assert(s.subrange(0, 0) =~= Seq::<char>::empty());
    lemma_lines_from_are_parts(s, 0, 0, k);
}

/// The lines read from `i` on, with the line in progress begun at `start`,
/// hold no line feed and are parts of the text.
proof fn lemma_lines_from_are_parts(s: Seq<char>, start: int, i: int, k: int)
    requires
        0 <= start <= i <= s.len(),
        free_of(s.subrange(start, i), '\n'),
        0 <= k < lines_from(s, i, s.subrange(start, i)).len(),
    ensures
        free_of(lines_from(s, i, s.subrange(start, i))[k], '\n'),
        contains_text(s, lines_from(s, i, s.subrange(start, i))[k]),
    decreases s.len() - i,
{
    let cur = s.subrange(start, i);
    if i >= s.len() {
        assert(occurs_at(s, cur, start));
    } else if s[i] == '\n' {
        let line = without_cr(cur);
        if k == 0 {
            if cur.len() > 0 && cur.last() == '\r' {
                assert(line =~= s.subrange(start, i - 1));
                assert(occurs_at(s, line, start));
            } else {
                assert(occurs_at(s, line, start));
            }
            assert forall|j: int| 0 <= j < line.len() implies line[j] != '\n' by {
                assert(line[j] == cur[j]);
            }
        } else {
            assert(s.subrange(i + 1, i + 1) =~= Seq::<char>::empty());
            lemma_lines_from_are_parts(s, i + 1, i + 1, k - 1);
        }
    } else {
        assert(s.subrange(start, i + 1) =~= cur.push(s[i]));
        lemma_lines_from_are_parts(s, start, i + 1, k);
    }
}

} // verus!
