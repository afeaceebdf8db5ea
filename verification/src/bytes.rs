//! Byte sequences: the alphabet of Unix paths.
//!
//! Paths here are bytes, never text: a repository may hold names that are not
//! valid UTF-8, and every one of them must survive unchanged.

use vstd::prelude::*;

verus! {

/// `/`
pub const SLASH: u8 = 0x2f;

/// `.`
pub const DOT: u8 = 0x2e;

/// `\`
pub const BACKSLASH: u8 = 0x5c;

/// `:`
pub const COLON: u8 = 0x3a;

/// The bytes of a string of ASCII characters.
pub open spec fn ascii(s: Seq<char>) -> Seq<u8> {
    Seq::new(s.len(), |i: int| s[i] as u8)
}

/// The byte sequences that a vector of byte vectors holds.
pub open spec fn views(v: Seq<Vec<u8>>) -> Seq<Seq<u8>> {
    Seq::new(v.len(), |i: int| v[i]@)
}

/// Whether `needle` occurs in `s` at position `i`.
pub open spec fn occurs_at(s: Seq<u8>, needle: Seq<u8>, i: int) -> bool {
    &&& 0 <= i
    &&& i + needle.len() <= s.len()
    &&& s.subrange(i, i + needle.len()) == needle
}

/// Whether `needle` occurs anywhere in `s`.
pub open spec fn occurs(s: Seq<u8>, needle: Seq<u8>) -> bool {
    exists|i: int| occurs_at(s, needle, i)
}

/// The position of the first `b` in `s`, or the length of `s`.
pub open spec fn first_of(s: Seq<u8>, b: u8) -> int
    decreases s.len(),
{
    if s.len() == 0 || s[0] == b {
        0
    } else {
        1 + first_of(s.drop_first(), b)
    }
}

/// The fields of `s` that `sep` separates; always at least one.
pub open spec fn split(s: Seq<u8>, sep: u8) -> Seq<Seq<u8>>
    decreases s.len(),
{
    let i = first_of(s, sep);
    if 0 <= i < s.len() {
        seq![s.subrange(0, i)] + split(s.subrange(i + 1, s.len() as int), sep)
    } else {
        seq![s]
    }
}

/// What `first_of` finds.
pub proof fn lemma_first_of(s: Seq<u8>, b: u8)
    ensures
        0 <= first_of(s, b) <= s.len(),
        forall|i: int| 0 <= i < first_of(s, b) ==> s[i] != b,
        first_of(s, b) < s.len() ==> s[first_of(s, b)] == b,
    decreases s.len(),
{
    if s.len() > 0 && s[0] != b {
        let t = s.drop_first();
        lemma_first_of(t, b);
        assert forall|i: int| 0 <= i < first_of(s, b) implies s[i] != b by {
            if i > 0 {
                assert(t[i - 1] == s[i]);
            }
        }
    }
}

/// A position with these properties is the one that `first_of` gives.
pub proof fn lemma_first_of_is(s: Seq<u8>, b: u8, n: int)
    requires
        0 <= n <= s.len(),
        forall|i: int| 0 <= i < n ==> s[i] != b,
        n < s.len() ==> s[n] == b,
    ensures
        first_of(s, b) == n,
{
    lemma_first_of(s, b);
    if first_of(s, b) < n {
        assert(s[first_of(s, b)] != b);
    } else if first_of(s, b) > n {
        assert(s[n] != b);
    }
}

/// Byte-for-byte equality.
pub fn bytes_eq(a: &[u8], b: &[u8]) -> (r: bool)
    ensures
        r == (a@ == b@),
{
    if a.len() != b.len() {
        return false;
    }
    let mut i: usize = 0;
    while i < a.len()
        invariant
            0 <= i <= a@.len(),
            a@.len() == b@.len(),
            forall|j: int| 0 <= j < i ==> a@[j] == b@[j],
        decreases a@.len() - i,
    {
        if a[i] != b[i] {
            return false;
        }
        i = i + 1;
    }
    assert(a@ =~= b@);
    true
}

/// Whether `s` begins with `prefix`.
pub fn starts_with(s: &[u8], prefix: &[u8]) -> (r: bool)
    ensures
        r == prefix@.is_prefix_of(s@),
{
    if s.len() < prefix.len() {
        return false;
    }
    bytes_eq(vstd::slice::slice_subrange(s, 0, prefix.len()), prefix)
}

/// Whether `s` ends with `suffix`.
pub fn ends_with(s: &[u8], suffix: &[u8]) -> (r: bool)
    ensures
        r == suffix@.is_suffix_of(s@),
{
    if s.len() < suffix.len() {
        return false;
    }
    bytes_eq(vstd::slice::slice_subrange(s, s.len() - suffix.len(), s.len()), suffix)
}

/// Whether `s` holds the byte `b`.
pub fn contains_byte(s: &[u8], b: u8) -> (r: bool)
    ensures
        r == s@.contains(b),
{
    let mut i: usize = 0;
    while i < s.len()
        invariant
            0 <= i <= s@.len(),
            forall|j: int| 0 <= j < i ==> s@[j] != b,
        decreases s@.len() - i,
    {
        if s[i] == b {
            assert(s@[i as int] == b);
            return true;
        }
        i = i + 1;
    }
    false
}

/// Whether `needle` occurs in `s`.
pub fn contains_slice(s: &[u8], needle: &[u8]) -> (r: bool)
    ensures
        r == occurs(s@, needle@),
{
    if s.len() < needle.len() {
        return false;
    }
    let last: usize = s.len() - needle.len();
    let mut i: usize = 0;
    loop
        invariant
            0 <= i <= last,
            last + needle.len() == s.len(),
            forall|j: int| 0 <= j < i ==> !occurs_at(s@, needle@, j),
        decreases last - i,
    {
        if bytes_eq(vstd::slice::slice_subrange(s, i, i + needle.len()), needle) {
            assert(occurs_at(s@, needle@, i as int));
            return true;
        }
        assert(!occurs_at(s@, needle@, i as int));
        if i == last {
            return false;
        }
        i = i + 1;
    }
}

/// The position of the first `b` at or after `from`, if any.
pub fn find_byte(s: &[u8], b: u8, from: usize) -> (r: Option<usize>)
    requires
        from <= s@.len(),
    ensures
        match r {
            Some(i) => from <= i < s@.len() && s@[i as int] == b && forall|j: int|
                from <= j < i ==> s@[j] != b,
            None => forall|j: int| from <= j < s@.len() ==> s@[j] != b,
        },
{
    let mut i: usize = from;
    while i < s.len()
        invariant
            from <= i <= s@.len(),
            forall|j: int| from <= j < i ==> s@[j] != b,
        decreases s@.len() - i,
    {
        if s[i] == b {
            return Some(i);
        }
        i = i + 1;
    }
    None
}

/// The position of the last `b` before `end`, if any.
pub fn rfind_byte(s: &[u8], b: u8, end: usize) -> (r: Option<usize>)
    requires
        end <= s@.len(),
    ensures
        match r {
            Some(i) => i < end && s@[i as int] == b && forall|j: int| i < j < end ==> s@[j] != b,
            None => forall|j: int| 0 <= j < end ==> s@[j] != b,
        },
{
    let mut i: usize = end;
    while i > 0
        invariant
            i <= end <= s@.len(),
            forall|j: int| i <= j < end ==> s@[j] != b,
        decreases i,
    {
        if s[i - 1] == b {
            return Some(i - 1);
        }
        i = i - 1;
    }
    None
}

/// Appends `tail` to `out`.
pub fn push_bytes(out: &mut Vec<u8>, tail: &[u8])
    ensures
        final(out)@ == old(out)@ + tail@,
{
    out.extend_from_slice(tail);
    assert(out@ =~= old(out)@ + tail@);
}

/// An owned copy of `s`.
pub fn to_vec(s: &[u8]) -> (r: Vec<u8>)
    ensures
        r@ == s@,
{
    vstd::slice::slice_to_vec(s)
}

/// An owned copy of `s[from..to]`.
pub fn sub_vec(s: &[u8], from: usize, to: usize) -> (r: Vec<u8>)
    requires
        from <= to <= s@.len(),
    ensures
        r@ == s@.subrange(from as int, to as int),
{
    vstd::slice::slice_to_vec(vstd::slice::slice_subrange(s, from, to))
}

/// The fields of `s` that `sep` separates.
pub fn split_bytes(s: &[u8], sep: u8) -> (r: Vec<Vec<u8>>)
    ensures
        views(r@) == split(s@, sep),
{
    let mut out: Vec<Vec<u8>> = Vec::new();
    let mut start: usize = 0;
    assert(s@.subrange(0, s@.len() as int) =~= s@);
    assert(views(out@) + split(s@, sep) =~= split(s@, sep));
    loop
        invariant
            start <= s@.len(),
            views(out@) + split(s@.subrange(start as int, s@.len() as int), sep) == split(s@, sep),
        decreases s@.len() - start,
    {
        let ghost rest = s@.subrange(start as int, s@.len() as int);
        let ghost before = views(out@);
        match find_byte(s, sep, start) {
            Some(i) => {
                let field = sub_vec(s, start, i);
                proof {
                    assert forall|j: int| 0 <= j < i - start implies rest[j] != sep by {
                        assert(rest[j] == s@[start + j]);
                    }
                    assert(rest[i - start] == s@[i as int]);
                    lemma_first_of_is(rest, sep, i - start);
                    assert(rest.subrange(0, i - start) =~= field@);
                    assert(rest.subrange(i - start + 1, rest.len() as int) =~= s@.subrange(
                        i + 1,
                        s@.len() as int,
                    ));
                }
                out.push(field);
                assert(i < s.len());
                start = i + 1;
                assert(views(out@) =~= before.push(field@));
                assert(views(out@) + split(s@.subrange(start as int, s@.len() as int), sep) =~= before
                    + split(rest, sep));
            },
            None => {
                let field = sub_vec(s, start, s.len());
                proof {
                    assert forall|j: int| 0 <= j < rest.len() implies rest[j] != sep by {
                        assert(rest[j] == s@[start + j]);
                    }
                    lemma_first_of_is(rest, sep, rest.len() as int);
                }
                out.push(field);
                assert(views(out@) =~= before + seq![rest]);
                return out;
            },
        }
    }
}

// ── Laws ────────────────────────────────────────────────────────────────

/// A needle is found wherever it stands, and not in what is too short or differs
/// from it at every place.
pub proof fn law_a_needle_is_found_where_it_stands(a: Seq<u8>, needle: Seq<u8>, b: Seq<u8>)
    ensures
        occurs(a + needle + b, needle),
        a.len() < needle.len() ==> !occurs(a, needle),
        needle.len() > 0 && !a.contains(needle[0]) ==> !occurs(a, needle),
{
    let all = a + needle + b;
    let n = a.len() as int;
    assert(all.subrange(n, n + needle.len()) =~= needle);
    assert(occurs_at(all, needle, n));
    if needle.len() > 0 && occurs(a, needle) {
        let i = choose|i: int| occurs_at(a, needle, i);
        assert(a.subrange(i, i + needle.len())[0] == a[i]);
    }
}

/// The fields of a text are what its separators separate: a separator behind a
/// field without one ends that field, and the rest is split as it stands.
pub proof fn law_fields_end_at_their_separator(field: Seq<u8>, rest: Seq<u8>, sep: u8)
    requires
        !field.contains(sep),
    ensures
        split(field + seq![sep] + rest, sep) == seq![field] + split(rest, sep),
        split(field, sep) == seq![field],
{
    let all = field + seq![sep] + rest;
    let n = field.len() as int;
    assert forall|i: int| 0 <= i < n implies all[i] != sep by {
        assert(all[i] == field[i]);
    }
    lemma_first_of_is(all, sep, n);
    assert(all.subrange(0, n) =~= field);
    assert(all.subrange(n + 1, all.len() as int) =~= rest);
    assert forall|i: int| 0 <= i < n implies field[i] != sep by {}
    lemma_first_of_is(field, sep, n);
}

} // verus!
