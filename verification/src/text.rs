//! Text: numbers, trimming, splitting and searching.

use vstd::prelude::*;

verus! {

/// The decimal digits of `n`, most significant first.
pub open spec fn decimal(n: nat) -> Seq<u8>
    decreases n,
{
    if n < 10 {
        seq![(0x30 + n) as u8]
    } else {
        decimal(n / 10).push((0x30 + n % 10) as u8)
    }
}

/// The decimal form of an integer, with a leading `-` where it is negative.
pub open spec fn signed_decimal(n: int) -> Seq<u8> {
    if n < 0 {
        seq![0x2du8] + decimal((-n) as nat)
    } else {
        decimal(n as nat)
    }
}

/// Appends the decimal digits of `n` to `out`.
pub fn push_decimal(out: &mut Vec<u8>, n: u64)
    ensures
        final(out)@ == old(out)@ + decimal(n as nat),
    decreases n,
{
    if n < 10 {
        out.push(0x30 + n as u8);
        assert(out@ =~= old(out)@ + decimal(n as nat));
    } else {
        push_decimal(out, n / 10);
        out.push(0x30 + (n % 10) as u8);
        assert(out@ =~= old(out)@ + decimal(n as nat));
    }
}

/// Appends the decimal form of `n` to `out`.
pub fn push_signed_decimal(out: &mut Vec<u8>, n: i32)
    ensures
        final(out)@ == old(out)@ + signed_decimal(n as int),
{
    if n < 0 {
        out.push(0x2d);
        let magnitude: i64 = -(n as i64);
        push_decimal(out, magnitude as u64);
        assert(out@ =~= old(out)@ + signed_decimal(n as int));
    } else {
        push_decimal(out, n as u64);
    }
}

/// The number that decimal digits stand for.
pub open spec fn decimal_value(s: Seq<u8>) -> int
    decreases s.len(),
{
    if s.len() == 0 {
        0
    } else {
        10 * decimal_value(s.drop_last()) + (s.last() - 0x30)
    }
}

/// The decimal form of a number holds digits alone, stands for that number, and
/// begins with a zero only where the number is zero.
pub proof fn law_decimal_digits_stand_for_the_number(n: nat)
    ensures
        decimal(n).len() > 0,
        forall|i: int| 0 <= i < decimal(n).len() ==> 0x30 <= #[trigger] decimal(n)[i] <= 0x39,
        decimal_value(decimal(n)) == n,
        decimal(n)[0] == 0x30 <==> n == 0,
    decreases n,
{
    if n < 10 {
        assert(decimal(n).drop_last() =~= Seq::<u8>::empty());
        assert(decimal_value(decimal(n).drop_last()) == 0);
    } else {
        law_decimal_digits_stand_for_the_number(n / 10);
        assert(decimal(n).drop_last() =~= decimal(n / 10));
    }
}

/// What the decimal form of an integer holds.
pub proof fn lemma_signed_decimal(n: int)
    ensures
        signed_decimal(n).len() > 0,
        forall|i: int|
            0 <= i < signed_decimal(n).len() ==> (#[trigger] signed_decimal(n)[i] == 0x2d || 0x30
                <= signed_decimal(n)[i] <= 0x39),
        signed_decimal(n)[0] == 0x2d <==> n < 0,
{
    if n < 0 {
        law_decimal_digits_stand_for_the_number((-n) as nat);
    } else {
        law_decimal_digits_stand_for_the_number(n as nat);
    }
}

/// Integers are told apart by their decimal forms.
pub proof fn lemma_signed_decimal_is_injective(a: int, b: int)
    requires
        signed_decimal(a) == signed_decimal(b),
    ensures
        a == b,
{
    lemma_signed_decimal(a);
    lemma_signed_decimal(b);
    if a < 0 {
        law_decimal_digits_stand_for_the_number((-a) as nat);
        law_decimal_digits_stand_for_the_number((-b) as nat);
        assert(signed_decimal(a).drop_first() =~= decimal((-a) as nat));
        assert(signed_decimal(b).drop_first() =~= decimal((-b) as nat));
    } else {
        law_decimal_digits_stand_for_the_number(a as nat);
        law_decimal_digits_stand_for_the_number(b as nat);
    }
}

// ── Characters ──────────────────────────────────────────────────────────

/// `String::push`: the character is appended.
pub assume_specification[ String::push ](s: &mut String, c: char)
    ensures
        final(s)@ == old(s)@.push(c),
;

/// The characters of a string.
pub fn chars_of(s: &str) -> (r: Vec<char>)
    ensures
        r@ == s@,
{
    let mut out: Vec<char> = Vec::new();
    for c in it: s.chars()
        invariant
            it.seq() == s@,
            out@ == s@.subrange(0, it.index()),
    {
        out.push(c);
        assert(s@.subrange(0, it.index() + 1) =~= s@.subrange(0, it.index()).push(c));
    }
    assert(s@.subrange(0, s@.len() as int) =~= s@);
    out
}

/// The string with these characters.
pub fn string_of(cs: &[char]) -> (r: String)
    ensures
        r@ == cs@,
{
    let mut out = String::new();
    let mut i: usize = 0;
    while i < cs.len()
        invariant
            i <= cs@.len(),
            out@ == cs@.subrange(0, i as int),
        decreases cs@.len() - i,
    {
        out.push(cs[i]);
        assert(cs@.subrange(0, i + 1) =~= cs@.subrange(0, i as int).push(cs@[i as int]));
        i = i + 1;
    }
    assert(cs@.subrange(0, cs@.len() as int) =~= cs@);
    out
}

/// The characters from `from` up to `to`.
pub fn sub_chars(cs: &[char], from: usize, to: usize) -> (r: Vec<char>)
    requires
        from <= to <= cs@.len(),
    ensures
        r@ == cs@.subrange(from as int, to as int),
{
    let mut out: Vec<char> = Vec::new();
    let mut i: usize = from;
    while i < to
        invariant
            from <= i <= to <= cs@.len(),
            out@ == cs@.subrange(from as int, i as int),
        decreases to - i,
    {
        out.push(cs[i]);
        assert(cs@.subrange(from as int, i + 1) =~= cs@.subrange(from as int, i as int).push(
            cs@[i as int],
        ));
        i = i + 1;
    }
    out
}

/// Whether two texts are the same.
pub fn chars_eq(a: &[char], b: &[char]) -> (r: bool)
    ensures
        r == (a@ == b@),
{
    if a.len() != b.len() {
        return false;
    }
    let mut i: usize = 0;
    while i < a.len()
        invariant
            a@.len() == b@.len(),
            i <= a@.len(),
            a@.subrange(0, i as int) == b@.subrange(0, i as int),
        decreases a@.len() - i,
    {
        if a[i] != b[i] {
            assert(a@[i as int] != b@[i as int]);
            return false;
        }
        assert(a@.subrange(0, i + 1) =~= a@.subrange(0, i as int).push(a@[i as int]));
        assert(b@.subrange(0, i + 1) =~= b@.subrange(0, i as int).push(b@[i as int]));
        i = i + 1;
    }
    assert(a@.subrange(0, a@.len() as int) =~= a@);
    assert(b@.subrange(0, b@.len() as int) =~= b@);
    true
}

/// Whether `needle` begins at `at`.
pub open spec fn stands_at(s: Seq<char>, needle: Seq<char>, at: int) -> bool {
    0 <= at && at + needle.len() <= s.len() && s.subrange(at, at + needle.len()) == needle
}

/// Whether `needle` begins at `at`.
pub fn text_at(s: &[char], needle: &[char], at: usize) -> (r: bool)
    ensures
        r == stands_at(s@, needle@, at as int),
{
    let total: usize = s.len();
    let length: usize = needle.len();
    if at > total || length > total - at {
        return false;
    }
    let part = sub_chars(s, at, at + length);
    chars_eq(part.as_slice(), needle)
}

/// Whether `needle` occurs in `s`.
pub open spec fn mentions(s: Seq<char>, needle: Seq<char>) -> bool {
    exists|at: int| stands_at(s, needle, at)
}

/// Where `needle` first occurs at `from` or later; the length of `s` where it
/// does not.
pub fn find_text(s: &[char], needle: &[char], from: usize) -> (r: usize)
    requires
        from <= s@.len(),
        needle@.len() > 0,
    ensures
        from <= r <= s@.len(),
        r < s@.len() ==> stands_at(s@, needle@, r as int),
        forall|at: int| from <= at < r ==> !stands_at(s@, needle@, at),
        r == s@.len() ==> forall|at: int| from <= at ==> !stands_at(s@, needle@, at),
{
    let mut i: usize = from;
    while i < s.len()
        invariant
            from <= i <= s@.len(),
            forall|at: int| from <= at < i ==> !stands_at(s@, needle@, at),
        decreases s@.len() - i,
    {
        if text_at(s, needle, i) {
            return i;
        }
        i = i + 1;
    }
    assert forall|at: int| from <= at implies !stands_at(s@, needle@, at) by {
        if at >= i {
            assert(at + needle@.len() > s@.len());
        }
    }
    i
}

/// Whether `needle` occurs in `s`.
pub fn contains_text(s: &[char], needle: &[char]) -> (r: bool)
    requires
        needle@.len() > 0,
    ensures
        r == mentions(s@, needle@),
{
    let at: usize = find_text(s, needle, 0);
    if at < s.len() {
        assert(stands_at(s@, needle@, at as int));
        true
    } else {
        false
    }
}

/// Where `needle` first occurs at `from` or later; the length of `s` where it
/// does not.
pub open spec fn first_at(s: Seq<char>, needle: Seq<char>, from: int) -> int
    decreases s.len() - from,
{
    if from >= s.len() || stands_at(s, needle, from) {
        from
    } else {
        first_at(s, needle, from + 1)
    }
}

/// The search finds the first occurrence.
pub proof fn lemma_first_at(s: Seq<char>, needle: Seq<char>, from: int, found: int)
    requires
        0 <= from <= found <= s.len(),
        found < s.len() ==> stands_at(s, needle, found),
        forall|at: int| from <= at < found ==> !stands_at(s, needle, at),
    ensures
        first_at(s, needle, from) == found,
    decreases found - from,
{
    if from < found {
        lemma_first_at(s, needle, from + 1, found);
    }
}

/// The position of the last `c`; -1 where there is none.
pub open spec fn last_index(s: Seq<char>, c: char) -> int
    decreases s.len(),
{
    if s.len() == 0 {
        -1
    } else if s.last() == c {
        s.len() - 1
    } else {
        last_index(s.drop_last(), c)
    }
}

/// The position of the last `c`.
pub fn find_last(s: &[char], c: char) -> (r: Option<usize>)
    ensures
        match r {
            Some(i) => last_index(s@, c) == i && i < s@.len(),
            None => last_index(s@, c) == -1,
        },
{
    let mut end: usize = s.len();
    assert(s@.subrange(0, s@.len() as int) =~= s@);
    while end > 0
        invariant
            end <= s@.len(),
            last_index(s@, c) == last_index(s@.subrange(0, end as int), c),
        decreases end,
    {
        assert(s@.subrange(0, end as int).last() == s@[end - 1]);
        if s[end - 1] == c {
            return Some(end - 1);
        }
        assert(s@.subrange(0, end as int).drop_last() =~= s@.subrange(0, end - 1));
        end = end - 1;
    }
    None
}

// ── White space ─────────────────────────────────────────────────────────

/// The characters with Unicode's `White_Space` property.
pub open spec fn white_space(c: char) -> bool {
    ||| 0x9 <= c as int <= 0xd
    ||| c as int == 0x20
    ||| c as int == 0x85
    ||| c as int == 0xa0
    ||| c as int == 0x1680
    ||| 0x2000 <= c as int <= 0x200a
    ||| c as int == 0x2028
    ||| c as int == 0x2029
    ||| c as int == 0x202f
    ||| c as int == 0x205f
    ||| c as int == 0x3000
}

/// Whether a character is white space.
pub fn is_white_space(c: char) -> (r: bool)
    ensures
        r == white_space(c),
{
    let n: u32 = c as u32;
    (0x9 <= n && n <= 0xd) || n == 0x20 || n == 0x85 || n == 0xa0 || n == 0x1680 || (0x2000 <= n
        && n <= 0x200a) || n == 0x2028 || n == 0x2029 || n == 0x202f || n == 0x205f || n == 0x3000
}

/// `s` without the white space it begins with.
pub open spec fn start_trimmed(s: Seq<char>) -> Seq<char>
    decreases s.len(),
{
    if s.len() > 0 && white_space(s[0]) {
        start_trimmed(s.drop_first())
    } else {
        s
    }
}

/// `s` without the white space it ends with.
pub open spec fn end_trimmed(s: Seq<char>) -> Seq<char>
    decreases s.len(),
{
    if s.len() > 0 && white_space(s.last()) {
        end_trimmed(s.drop_last())
    } else {
        s
    }
}

/// `s` without the white space around it.
pub open spec fn trimmed(s: Seq<char>) -> Seq<char> {
    end_trimmed(start_trimmed(s))
}

/// `s` without the white space around it.
pub fn trim(s: &[char]) -> (r: Vec<char>)
    ensures
        r@ == trimmed(s@),
{
    let mut from: usize = 0;
    assert(s@.subrange(0, s@.len() as int) =~= s@);
    while from < s.len() && is_white_space(s[from])
        invariant
            from <= s@.len(),
            start_trimmed(s@) == start_trimmed(s@.subrange(from as int, s@.len() as int)),
        decreases s@.len() - from,
    {
        assert(s@.subrange(from as int, s@.len() as int).drop_first() =~= s@.subrange(
            from + 1,
            s@.len() as int,
        ));
        from = from + 1;
    }
    let ghost rest = s@.subrange(from as int, s@.len() as int);
    assert(start_trimmed(s@) == rest);
    let mut to: usize = s.len();
    while to > from && is_white_space(s[to - 1])
        invariant
            from <= to <= s@.len(),
            rest == s@.subrange(from as int, s@.len() as int),
            end_trimmed(rest) == end_trimmed(s@.subrange(from as int, to as int)),
        decreases to,
    {
        assert(s@.subrange(from as int, to as int).drop_last() =~= s@.subrange(
            from as int,
            to - 1,
        ));
        to = to - 1;
    }
    sub_chars(s, from, to)
}

/// What is left without the white space around it has none around it.
pub proof fn lemma_trimmed(s: Seq<char>)
    ensures
        trimmed(trimmed(s)) == trimmed(s),
        trimmed(s).len() > 0 ==> !white_space(trimmed(s)[0]) && !white_space(trimmed(s).last()),
{
    lemma_start_trimmed(s);
    let front = start_trimmed(s);
    lemma_end_trimmed(front);
    let kept = end_trimmed(front);
    lemma_start_trimmed(kept);
    lemma_end_trimmed(kept);
}

proof fn lemma_start_trimmed(s: Seq<char>)
    ensures
        start_trimmed(s).len() > 0 ==> !white_space(start_trimmed(s)[0]),
        s.len() > 0 && !white_space(s[0]) ==> start_trimmed(s) == s,
    decreases s.len(),
{
    if s.len() > 0 && white_space(s[0]) {
        lemma_start_trimmed(s.drop_first());
    }
}

proof fn lemma_end_trimmed(s: Seq<char>)
    ensures
        end_trimmed(s).len() <= s.len(),
        end_trimmed(s).len() > 0 ==> !white_space(end_trimmed(s).last()) && end_trimmed(s)[0]
            == s[0],
        s.len() > 0 && !white_space(s.last()) ==> end_trimmed(s) == s,
    decreases s.len(),
{
    if s.len() > 0 && white_space(s.last()) {
        lemma_end_trimmed(s.drop_last());
    }
}

/// `s` without the white space around it, where anything is left.
pub open spec fn non_blank(s: Seq<char>) -> Option<Seq<char>> {
    if trimmed(s).len() == 0 {
        None
    } else {
        Some(trimmed(s))
    }
}

/// What stands before the first white space.
pub open spec fn word(s: Seq<char>) -> Seq<char>
    decreases s.len(),
{
    if s.len() == 0 || white_space(s[0]) {
        Seq::empty()
    } else {
        seq![s[0]] + word(s.drop_first())
    }
}

/// `s` from its first white space on.
pub open spec fn after_word(s: Seq<char>) -> Seq<char>
    decreases s.len(),
{
    if s.len() == 0 || white_space(s[0]) {
        s
    } else {
        after_word(s.drop_first())
    }
}

/// The word at the start of a text, and what follows it. White space before
/// the word is skipped.
pub fn next_word(s: &[char]) -> (r: (Vec<char>, Vec<char>))
    ensures
        r.0@ == word(start_trimmed(s@)),
        r.1@ == after_word(start_trimmed(s@)),
        r.0@.len() + r.1@.len() <= s@.len(),
{
    let mut from: usize = 0;
    assert(s@.subrange(0, s@.len() as int) =~= s@);
    while from < s.len() && is_white_space(s[from])
        invariant
            from <= s@.len(),
            start_trimmed(s@) == start_trimmed(s@.subrange(from as int, s@.len() as int)),
        decreases s@.len() - from,
    {
        assert(s@.subrange(from as int, s@.len() as int).drop_first() =~= s@.subrange(
            from + 1,
            s@.len() as int,
        ));
        from = from + 1;
    }
    let ghost rest = s@.subrange(from as int, s@.len() as int);
    assert(start_trimmed(s@) == rest);
    let mut to: usize = from;
    assert(s@.subrange(from as int, from as int) + word(rest) =~= word(rest));
    while to < s.len() && !is_white_space(s[to])
        invariant
            from <= to <= s@.len(),
            rest == s@.subrange(from as int, s@.len() as int),
            word(rest) == s@.subrange(from as int, to as int) + word(
                s@.subrange(to as int, s@.len() as int),
            ),
            after_word(rest) == after_word(s@.subrange(to as int, s@.len() as int)),
        decreases s@.len() - to,
    {
        let ghost tail = s@.subrange(to as int, s@.len() as int);
        assert(tail.drop_first() =~= s@.subrange(to + 1, s@.len() as int));
        assert(s@.subrange(from as int, to as int) + (seq![tail[0]] + word(tail.drop_first()))
            =~= s@.subrange(from as int, to + 1) + word(tail.drop_first()));
        to = to + 1;
    }
    assert(word(s@.subrange(to as int, s@.len() as int)) =~= Seq::<char>::empty());
    assert(word(rest) =~= s@.subrange(from as int, to as int));
    (sub_chars(s, from, to), sub_chars(s, to, s.len()))
}

/// An optional string, as optional characters.
pub open spec fn opt_text(s: Option<String>) -> Option<Seq<char>> {
    match s {
        Some(t) => Some(t@),
        None => None,
    }
}

/// An optional string slice, as optional characters.
pub open spec fn opt_str(s: Option<&str>) -> Option<Seq<char>> {
    match s {
        Some(t) => Some(t@),
        None => None,
    }
}

/// Removes the white space around a value, and the value where nothing is left.
pub fn trim_non_empty(value: &str) -> (r: Option<String>)
    ensures
        opt_text(r) == non_blank(value@),
{
    let all = chars_of(value);
    let kept = trim(all.as_slice());
    if kept.len() == 0 {
        None
    } else {
        Some(string_of(kept.as_slice()))
    }
}

// ── Numbers ─────────────────────────────────────────────────────────────

/// The decimal digits of `n`, most significant first.
pub open spec fn digits(n: nat) -> Seq<char>
    decreases n,
{
    if n < 10 {
        seq![(0x30 + n) as char]
    } else {
        digits(n / 10).push((0x30 + n % 10) as char)
    }
}

/// The character of a digit.
fn digit_char(d: u64) -> (r: char)
    requires
        d < 10,
    ensures
        r == (0x30 + d) as char,
{
    match d {
        0 => '0',
        1 => '1',
        2 => '2',
        3 => '3',
        4 => '4',
        5 => '5',
        6 => '6',
        7 => '7',
        8 => '8',
        _ => '9',
    }
}

/// Appends the decimal digits of `n`.
pub fn push_digits(out: &mut String, n: u64)
    ensures
        final(out)@ == old(out)@ + digits(n as nat),
    decreases n,
{
    if n < 10 {
        out.push(digit_char(n));
        assert(out@ =~= old(out)@ + digits(n as nat));
    } else {
        push_digits(out, n / 10);
        out.push(digit_char(n % 10));
        assert(out@ =~= old(out)@ + digits(n as nat));
    }
}

/// Whether a character is a decimal digit.
pub open spec fn is_digit(c: char) -> bool {
    0x30 <= c as int <= 0x39
}

/// The number that decimal digits stand for.
pub open spec fn digits_value(s: Seq<char>) -> nat
    decreases s.len(),
{
    if s.len() == 0 {
        0
    } else {
        (10 * digits_value(s.drop_last()) + (s.last() as int - 0x30)) as nat
    }
}

/// The digits of a number, without the sign that may stand before them.
pub open spec fn unsigned_digits(s: Seq<char>) -> Seq<char> {
    if s.len() > 1 && s[0] == '+' {
        s.drop_first()
    } else {
        s
    }
}

/// The number that `s` stands for: decimal digits, perhaps after a `+`, that
/// amount to no more than `max`.
pub open spec fn parsed(s: Seq<char>, max: nat) -> Option<nat> {
    let ds = unsigned_digits(s);
    if ds.len() > 0 && (forall|i: int| 0 <= i < ds.len() ==> is_digit(#[trigger] ds[i]))
        && digits_value(ds) <= max {
        Some(digits_value(ds))
    } else {
        None
    }
}

/// The value of a digit sequence does not shrink as it grows.
proof fn lemma_digits_value_grows(s: Seq<char>, n: int)
    requires
        0 <= n <= s.len(),
        forall|i: int| 0 <= i < s.len() ==> is_digit(#[trigger] s[i]),
    ensures
        digits_value(s.subrange(0, n)) <= digits_value(s),
    decreases s.len(),
{
    if n == s.len() {
        assert(s.subrange(0, n) =~= s);
    } else {
        let shorter = s.drop_last();
        assert forall|i: int| 0 <= i < shorter.len() implies is_digit(#[trigger] shorter[i]) by {
            assert(shorter[i] == s[i]);
        }
        lemma_digits_value_grows(shorter, n);
        assert(shorter.subrange(0, n) =~= s.subrange(0, n));
        assert(is_digit(s[s.len() - 1]));
    }
}

/// The value of a digit.
fn digit_of(c: char) -> (r: Option<u64>)
    ensures
        match r {
            Some(d) => is_digit(c) && d == c as int - 0x30,
            None => !is_digit(c),
        },
{
    let n: u32 = c as u32;
    if 0x30 <= n && n <= 0x39 {
        Some((n - 0x30) as u64)
    } else {
        None
    }
}

/// Parses a number of at most `max`.
pub fn parse_number(s: &[char], max: u64) -> (r: Option<u64>)
    ensures
        match r {
            Some(n) => parsed(s@, max as nat) == Some(n as nat),
            None => parsed(s@, max as nat) is None,
        },
{
    let from: usize = if s.len() > 1 && s[0] == '+' {
        1
    } else {
        0
    };
    let ds = sub_chars(s, from, s.len());
    assert(ds@ =~= unsigned_digits(s@));
    if ds.len() == 0 {
        return None;
    }
    let mut value: u64 = 0;
    let mut i: usize = 0;
    while i < ds.len()
        invariant
            i <= ds@.len(),
            ds@ == unsigned_digits(s@),
            forall|j: int| 0 <= j < i ==> is_digit(#[trigger] ds@[j]),
            value == digits_value(ds@.subrange(0, i as int)),
            value <= max,
        decreases ds@.len() - i,
    {
        let digit: u64 = match digit_of(ds[i]) {
            Some(digit) => digit,
            None => {
                assert(!is_digit(ds@[i as int]));
                return None;
            },
        };
        assert(ds@.subrange(0, i + 1).drop_last() =~= ds@.subrange(0, i as int));
        assert(ds@.subrange(0, i + 1).last() == ds@[i as int]);
        assert(digits_value(ds@.subrange(0, i + 1)) == 10 * value + digit);
        if value > max / 10 || digit > max - 10 * value {
            proof {
                if forall|j: int| 0 <= j < ds@.len() ==> is_digit(#[trigger] ds@[j]) {
                    lemma_digits_value_grows(ds@, i + 1);
                }
            }
            return None;
        }
        value = 10 * value + digit;
        i = i + 1;
    }
    assert(ds@.subrange(0, ds@.len() as int) =~= ds@);
    Some(value)
}

/// Parses what is left of a text when the white space around it is gone.
pub fn parse_trimmed(text: &str, max: u64) -> (r: Option<u64>)
    ensures
        match r {
            Some(n) => parsed(trimmed(text@), max as nat) == Some(n as nat),
            None => parsed(trimmed(text@), max as nat) is None,
        },
{
    let all = chars_of(text);
    let kept = trim(all.as_slice());
    parse_number(kept.as_slice(), max)
}

/// What is rendered is parsed back.
pub proof fn law_rendered_numbers_parse_back(n: nat, max: nat)
    requires
        n <= max,
    ensures
        parsed(digits(n), max) == Some(n),
{
    lemma_digits(n);
    let ds = digits(n);
    assert(is_digit(ds[0]));
    assert(unsigned_digits(ds) == ds);
}

proof fn lemma_digits(n: nat)
    ensures
        digits(n).len() > 0,
        forall|i: int| 0 <= i < digits(n).len() ==> is_digit(#[trigger] digits(n)[i]),
        digits_value(digits(n)) == n,
    decreases n,
{
    if n < 10 {
        let ds = digits(n);
        assert(ds.drop_last() =~= Seq::<char>::empty());
        assert(digits_value(ds.drop_last()) == 0);
        assert(ds.last() as int == 0x30 + n);
    } else {
        lemma_digits(n / 10);
        let ds = digits(n);
        assert(ds.drop_last() =~= digits(n / 10));
        assert(ds.last() as int == 0x30 + n % 10);
        assert forall|i: int| 0 <= i < ds.len() implies is_digit(#[trigger] ds[i]) by {
            if i < ds.len() - 1 {
                assert(ds[i] == digits(n / 10)[i]);
            }
        }
    }
}

// ── Lines and words ─────────────────────────────────────────────────────

/// The texts of a list of strings.
pub open spec fn texts(list: Seq<String>) -> Seq<Seq<char>> {
    Seq::new(list.len(), |i: int| list[i]@)
}

/// Where the first `c` is; the length of `s` where there is none.
pub open spec fn first_index(s: Seq<char>, c: char) -> int
    decreases s.len(),
{
    if s.len() == 0 || s[0] == c {
        0
    } else {
        1 + first_index(s.drop_first(), c)
    }
}

/// The first `c` is in `s`, or nowhere.
pub proof fn lemma_first_index(s: Seq<char>, c: char)
    ensures
        0 <= first_index(s, c) <= s.len(),
    decreases s.len(),
{
    if s.len() > 0 && s[0] != c {
        lemma_first_index(s.drop_first(), c);
    }
}

/// Where the first `c` is.
pub fn find_char(s: &[char], c: char) -> (r: usize)
    ensures
        r == first_index(s@, c),
        r <= s@.len(),
{
    let mut i: usize = 0;
    assert(s@.subrange(0, s@.len() as int) =~= s@);
    while i < s.len() && s[i] != c
        invariant
            i <= s@.len(),
            first_index(s@, c) == i + first_index(s@.subrange(i as int, s@.len() as int), c),
        decreases s@.len() - i,
    {
        assert(s@.subrange(i as int, s@.len() as int).drop_first() =~= s@.subrange(
            i + 1,
            s@.len() as int,
        ));
        i = i + 1;
    }
    i
}

/// A line without the carriage return that belongs to its end.
pub open spec fn without_return(s: Seq<char>) -> Seq<char> {
    if s.len() > 0 && s.last() == '\r' {
        s.drop_last()
    } else {
        s
    }
}

/// The lines of a text, without their ends. The end of the last line is
/// optional.
pub open spec fn lines(s: Seq<char>) -> Seq<Seq<char>>
    decreases s.len(),
{
    proof {
        lemma_first_index(s, '\n');
    }
    let cut = first_index(s, '\n');
    if s.len() == 0 {
        Seq::empty()
    } else if cut >= s.len() {
        seq![s]
    } else {
        seq![without_return(s.subrange(0, cut))] + lines(s.subrange(cut + 1, s.len() as int))
    }
}

/// The lines of a text.
pub fn split_lines(s: &str) -> (r: Vec<String>)
    ensures
        texts(r@) == lines(s@),
{
    let all = chars_of(s);
    let mut out: Vec<String> = Vec::new();
    let mut from: usize = 0;
    assert(all@.subrange(0, all@.len() as int) =~= all@);
    assert(texts(out@) + lines(all@) =~= lines(all@));
    while from < all.len()
        invariant
            from <= all@.len(),
            all@ == s@,
            lines(s@) == texts(out@) + lines(all@.subrange(from as int, all@.len() as int)),
        decreases all@.len() - from,
    {
        let rest = sub_chars(all.as_slice(), from, all.len());
        let cut: usize = find_char(rest.as_slice(), '\n');
        let ghost before = texts(out@);
        if cut >= rest.len() {
            out.push(string_of(rest.as_slice()));
            assert(texts(out@) =~= before + seq![rest@]);
            assert(lines(all@.subrange(all@.len() as int, all@.len() as int)) =~= Seq::<
                Seq<char>,
            >::empty());
            assert(texts(out@) + lines(all@.subrange(all@.len() as int, all@.len() as int))
                =~= before + lines(rest@));
            from = all.len();
        } else {
            let end: usize = if cut > 0 && rest[cut - 1] == '\r' {
                cut - 1
            } else {
                cut
            };
            let line = sub_chars(rest.as_slice(), 0, end);
            assert(line@ =~= without_return(rest@.subrange(0, cut as int)));
            out.push(string_of(line.as_slice()));
            assert(texts(out@) =~= before + seq![line@]);
            assert(rest@.subrange(cut + 1, rest@.len() as int) =~= all@.subrange(
                from + cut + 1,
                all@.len() as int,
            ));
            assert(before + (seq![line@] + lines(
                all@.subrange(from + cut + 1, all@.len() as int),
            )) =~= texts(out@) + lines(all@.subrange(from + cut + 1, all@.len() as int)));
            from = from + cut + 1;
        }
    }
    assert(lines(all@.subrange(from as int, all@.len() as int)) =~= Seq::<Seq<char>>::empty());
    assert(texts(out@) =~= lines(s@));
    out
}

/// What is left after the first word is shorter.
pub proof fn lemma_after_word(s: Seq<char>)
    ensures
        start_trimmed(s).len() <= s.len(),
        after_word(s).len() <= s.len(),
        s.len() > 0 && !white_space(s[0]) ==> after_word(s).len() < s.len() && word(s).len() > 0,
        start_trimmed(s).len() > 0 ==> !white_space(start_trimmed(s)[0]),
    decreases s.len(),
{
    if s.len() > 0 {
        lemma_after_word(s.drop_first());
    }
}

/// The words of a text: what white space separates.
pub open spec fn words(s: Seq<char>) -> Seq<Seq<char>>
    decreases s.len(),
{
    proof {
        lemma_after_word(s);
        lemma_after_word(start_trimmed(s));
    }
    let t = start_trimmed(s);
    if t.len() == 0 {
        Seq::empty()
    } else {
        seq![word(t)] + words(after_word(t))
    }
}

/// The words of a text.
pub fn split_words(s: &[char]) -> (r: Vec<String>)
    ensures
        texts(r@) == words(s@),
{
    let mut out: Vec<String> = Vec::new();
    let mut rest = sub_chars(s, 0, s.len());
    assert(rest@ =~= s@);
    assert(texts(out@) + words(s@) =~= words(s@));
    loop
        invariant
            words(s@) == texts(out@) + words(rest@),
        decreases rest@.len(),
    {
        let (first, after) = next_word(rest.as_slice());
        proof {
            lemma_after_word(rest@);
            lemma_after_word(start_trimmed(rest@));
        }
        let ghost before = texts(out@);
        if first.len() == 0 {
            assert(words(rest@) =~= Seq::<Seq<char>>::empty());
            assert(texts(out@) =~= words(s@));
            return out;
        }
        out.push(string_of(first.as_slice()));
        assert(texts(out@) =~= before + seq![first@]);
        assert(before + (seq![first@] + words(after@)) =~= texts(out@) + words(after@));
        rest = after;
    }
}

/// Where `needle` last occurs before `end`; -1 where it does not.
pub open spec fn last_at(s: Seq<char>, needle: Seq<char>, end: int) -> int
    decreases end,
{
    if end <= 0 {
        -1
    } else if stands_at(s, needle, end - 1) {
        end - 1
    } else {
        last_at(s, needle, end - 1)
    }
}

/// Where `needle` last occurs.
pub fn find_last_text(s: &[char], needle: &[char]) -> (r: Option<usize>)
    ensures
        match r {
            Some(i) => last_at(s@, needle@, s@.len() as int) == i && i < s@.len(),
            None => last_at(s@, needle@, s@.len() as int) == -1,
        },
{
    let mut end: usize = s.len();
    while end > 0
        invariant
            end <= s@.len(),
            last_at(s@, needle@, s@.len() as int) == last_at(s@, needle@, end as int),
        decreases end,
    {
        if text_at(s, needle, end - 1) {
            return Some(end - 1);
        }
        end = end - 1;
    }
    None
}

// ── Bytes as text ───────────────────────────────────────────────────────

/// The text that bytes are read as, with a replacement for each malformed
/// sequence.
pub uninterp spec fn lossy_text(raw: Seq<u8>) -> Seq<char>;

/// `String::from_utf8_lossy`: a function of the bytes, which decodes well-formed
/// UTF-8 as it stands.
#[verifier::external_body]
pub(crate) fn decode_lossy(raw: &[u8]) -> (r: String)
    ensures
        r@ == lossy_text(raw@),
        vstd::utf8::valid_utf8(raw@) ==> r@ == vstd::utf8::decode_utf8(raw@),
{
    String::from_utf8_lossy(raw).into_owned()
}

// ── Laws of words and lines ─────────────────────────────────────────────

/// A rendered number is made of digits alone.
pub proof fn law_rendered_numbers_are_digits(n: nat)
    ensures
        digits(n).len() > 0,
        forall|i: int| 0 <= i < digits(n).len() ==> is_digit(#[trigger] digits(n)[i]),
        digits_value(digits(n)) == n,
{
    lemma_digits(n);
}

/// White space around a text is taken off, and nothing else.
pub proof fn law_only_surrounding_white_space_is_trimmed(
    before: Seq<char>,
    s: Seq<char>,
    after: Seq<char>,
)
    requires
        s.len() > 0,
        !white_space(s[0]),
        !white_space(s.last()),
        forall|i: int| 0 <= i < before.len() ==> white_space(#[trigger] before[i]),
        forall|i: int| 0 <= i < after.len() ==> white_space(#[trigger] after[i]),
    ensures
        trimmed(before + s + after) == s,
        trimmed(s) == s,
        non_blank(before + s + after) == Some(s),
        trimmed(before) == Seq::<char>::empty(),
        non_blank(before) is None,
{
    lemma_start_skips(before, s + after);
    assert(before + s + after =~= before + (s + after));
    lemma_end_skips(s, after);
    lemma_start_skips(Seq::empty(), s);
    assert(Seq::<char>::empty() + s =~= s);
    lemma_end_skips(s, Seq::empty());
    assert(s + Seq::<char>::empty() =~= s);
    lemma_start_blank(before);
}

proof fn lemma_start_skips(before: Seq<char>, s: Seq<char>)
    requires
        s.len() > 0,
        !white_space(s[0]),
        forall|i: int| 0 <= i < before.len() ==> white_space(#[trigger] before[i]),
    ensures
        start_trimmed(before + s) == s,
    decreases before.len(),
{
    if before.len() == 0 {
        assert(before + s =~= s);
    } else {
        assert(white_space(before[0]));
        assert((before + s).drop_first() =~= before.drop_first() + s);
        assert forall|i: int| 0 <= i < before.drop_first().len() implies white_space(
            #[trigger] before.drop_first()[i],
        ) by {
            assert(white_space(before[i + 1]));
        }
        lemma_start_skips(before.drop_first(), s);
    }
}

proof fn lemma_end_skips(s: Seq<char>, after: Seq<char>)
    requires
        s.len() > 0,
        !white_space(s.last()),
        forall|i: int| 0 <= i < after.len() ==> white_space(#[trigger] after[i]),
    ensures
        end_trimmed(s + after) == s,
    decreases after.len(),
{
    if after.len() == 0 {
        assert(s + after =~= s);
    } else {
        assert(white_space(after[after.len() - 1]));
        assert((s + after).drop_last() =~= s + after.drop_last());
        lemma_end_skips(s, after.drop_last());
    }
}

proof fn lemma_start_blank(s: Seq<char>)
    requires
        forall|i: int| 0 <= i < s.len() ==> white_space(#[trigger] s[i]),
    ensures
        start_trimmed(s).len() == 0,
    decreases s.len(),
{
    if s.len() > 0 {
        assert(white_space(s[0]));
        assert forall|i: int| 0 <= i < s.drop_first().len() implies white_space(
            #[trigger] s.drop_first()[i],
        ) by {
            assert(white_space(s[i + 1]));
        }
        lemma_start_blank(s.drop_first());
    }
}

/// A word ends where white space begins, and what follows it begins there.
pub proof fn law_a_word_ends_at_white_space(w: Seq<char>, rest: Seq<char>)
    requires
        forall|i: int| 0 <= i < w.len() ==> !white_space(#[trigger] w[i]),
        rest.len() > 0 ==> white_space(rest[0]),
    ensures
        word(w + rest) == w,
        after_word(w + rest) == rest,
    decreases w.len(),
{
    if w.len() == 0 {
        assert(w + rest =~= rest);
    } else {
        assert(!white_space(w[0]));
        assert((w + rest).drop_first() =~= w.drop_first() + rest);
        assert forall|i: int| 0 <= i < w.drop_first().len() implies !white_space(
            #[trigger] w.drop_first()[i],
        ) by {
            assert(!white_space(w[i + 1]));
        }
        law_a_word_ends_at_white_space(w.drop_first(), rest);
        assert(seq![w[0]] + w.drop_first() =~= w);
    }
}

/// The words of a text are what white space separates: a word before others
/// comes first, however much white space stands around it.
pub proof fn law_words_are_separated_by_white_space(
    before: Seq<char>,
    w: Seq<char>,
    rest: Seq<char>,
)
    requires
        w.len() > 0,
        forall|i: int| 0 <= i < w.len() ==> !white_space(#[trigger] w[i]),
        forall|i: int| 0 <= i < before.len() ==> white_space(#[trigger] before[i]),
        rest.len() > 0 ==> white_space(rest[0]),
    ensures
        words(before + w + rest) == seq![w] + words(rest),
{
    assert(!white_space(w[0]));
    assert(before + w + rest =~= before + (w + rest));
    lemma_start_skips(before, w + rest);
    law_a_word_ends_at_white_space(w, rest);
}

/// The lines of a text are what line ends separate: a line before others comes
/// first, without its end, whether that is a line feed alone or one behind a
/// carriage return.
pub proof fn law_lines_are_separated_by_line_feeds(line: Seq<char>, rest: Seq<char>)
    requires
        !line.contains('\n'),
    ensures
        !line.contains('\r') ==> lines(line + seq!['\n'] + rest) == seq![line] + lines(rest),
        !line.contains('\r') ==> lines(line + seq!['\r', '\n'] + rest) == seq![line] + lines(rest),
        line.len() > 0 ==> lines(line) == seq![line],
        lines(Seq::empty()) == Seq::<Seq<char>>::empty(),
{
    let one = line + seq!['\n'] + rest;
    lemma_first_index_is(one, '\n', line.len() as int);
    assert(one.subrange(0, line.len() as int) =~= line);
    assert(one.subrange(line.len() as int + 1, one.len() as int) =~= rest);
    let two = line + seq!['\r', '\n'] + rest;
    let cut = line.len() as int + 1;
    assert forall|i: int| 0 <= i < cut implies two[i] != '\n' by {
        if i < line.len() {
            assert(two[i] == line[i]);
        }
    }
    lemma_first_index_is(two, '\n', cut);
    assert(two.subrange(0, cut).drop_last() =~= line);
    assert(two.subrange(0, cut).last() == '\r');
    assert(two.subrange(cut + 1, two.len() as int) =~= rest);
    if line.len() > 0 {
        if !line.contains('\r') {
            assert(line.contains(line.last()));
        }
        lemma_first_index_is(line, '\n', line.len() as int);
    }
}

/// The search finds the first such character.
pub proof fn lemma_first_index_is(s: Seq<char>, c: char, found: int)
    requires
        0 <= found <= s.len(),
        found < s.len() ==> s[found] == c,
        forall|i: int| 0 <= i < found ==> s[i] != c,
    ensures
        first_index(s, c) == found,
    decreases s.len(),
{
    if s.len() > 0 && s[0] != c {
        assert forall|i: int| 0 <= i < found - 1 implies s.drop_first()[i] != c by {
            assert(s[i + 1] != c);
        }
        lemma_first_index_is(s.drop_first(), c, found - 1);
    }
}

/// The search finds the last such character.
pub proof fn lemma_last_index_is(s: Seq<char>, c: char, found: int)
    requires
        -1 <= found < s.len(),
        found >= 0 ==> s[found] == c,
        forall|i: int| found < i < s.len() && 0 <= i ==> s[i] != c,
    ensures
        last_index(s, c) == found,
    decreases s.len(),
{
    if s.len() > 0 && s.last() != c {
        assert forall|i: int| found < i < s.drop_last().len() && 0 <= i implies s.drop_last()[i]
            != c by {
            assert(s[i] != c);
        }
        lemma_last_index_is(s.drop_last(), c, found);
    }
}

/// White space is these characters: the controls from tab to carriage return,
/// the space, the next line, the spaces of Unicode from the no-break space to
/// the ideographic one, and its line and paragraph separators.
pub proof fn law_these_are_white_space(c: char)
    ensures
        white_space(c) <==> seq![
            9int, 10, 11, 12, 13, 32, 133, 160, 5760, 8192, 8193, 8194, 8195, 8196, 8197, 8198,
            8199, 8200, 8201, 8202, 8232, 8233, 8239, 8287, 12288,
        ].contains(c as int),
{
    let all = seq![
        9int, 10, 11, 12, 13, 32, 133, 160, 5760, 8192, 8193, 8194, 8195, 8196, 8197, 8198, 8199,
        8200, 8201, 8202, 8232, 8233, 8239, 8287, 12288,
    ];
    if white_space(c) {
        let n = c as int;
        let i: int = if 9 <= n <= 13 {
            n - 9
        } else if n == 32 {
            5
        } else if n == 133 {
            6
        } else if n == 160 {
            7
        } else if n == 5760 {
            8
        } else if 8192 <= n <= 8202 {
            n - 8192 + 9
        } else if n == 8232 {
            20
        } else if n == 8233 {
            21
        } else if n == 8239 {
            22
        } else if n == 8287 {
            23
        } else {
            24
        };
        assert(all[i] == n);
    }
}

/// A number is no more than what is allowed, and is made of digits, perhaps
/// behind a plus sign; what holds anything else is no number.
pub proof fn law_only_digits_are_a_number(s: Seq<char>, n: nat, max: nat, i: int)
    requires
        n > max,
    ensures
        parsed(digits(n), max) is None,
        0 < i < s.len() && !is_digit(s[i]) ==> parsed(s, max) is None,
        s.len() == 0 ==> parsed(s, max) is None,
        s.len() > 0 && !is_digit(s[0]) && s[0] != '+' ==> parsed(s, max) is None,
        parsed(seq!['+'], max) is None,
        n <= u64::MAX ==> parsed(seq!['+'] + digits(n), u64::MAX as nat) == Some(n),
{
    lemma_digits(n);
    let ds = digits(n);
    assert(is_digit(ds[0]));
    let signed = seq!['+'] + ds;
    assert(signed.drop_first() =~= ds);
    let us = unsigned_digits(s);
    if 0 < i < s.len() && !is_digit(s[i]) {
        if s[0] == '+' {
            assert(us[i - 1] == s[i]);
        } else {
            assert(us[i] == s[i]);
        }
    }
    if s.len() > 0 && !is_digit(s[0]) && s[0] != '+' {
        assert(us[0] == s[0]);
    }
    assert(unsigned_digits(seq!['+'])[0] == '+');
}

/// A needle is found wherever it stands in a text, and not in one that is too
/// short for it.
pub proof fn law_a_text_mentions_what_stands_in_it(a: Seq<char>, needle: Seq<char>, b: Seq<char>)
    ensures
        mentions(a + needle + b, needle),
        a.len() < needle.len() ==> !mentions(a, needle),
{
    let all = a + needle + b;
    let n = a.len() as int;
    assert(all.subrange(n, n + needle.len()) =~= needle);
    assert(stands_at(all, needle, n));
}

} // verus!
