//! Path bytes: splitting, joining, containment and lexical normalization.

use vstd::prelude::*;

use crate::bytes;
use crate::bytes::{
    contains_slice, push_bytes, split_bytes, starts_with, to_vec, DOT, SLASH,
};
use crate::text;
use crate::text::push_signed_decimal;

verus! {

// ── Components ──────────────────────────────────────────────────────────

/// The component `.`.
pub open spec fn dot() -> Seq<u8> {
    seq![DOT]
}

/// The component `..`.
pub open spec fn dot_dot() -> Seq<u8> {
    seq![DOT, DOT]
}

/// A component that names nothing: empty, or `.`.
pub open spec fn is_noise(c: Seq<u8>) -> bool {
    c.len() == 0 || c == dot()
}

/// A component that names an entry in its directory.
pub open spec fn is_name(c: Seq<u8>) -> bool {
    &&& !is_noise(c)
    &&& c != dot_dot()
    &&& !c.contains(SLASH)
    &&& !c.contains(0)
}

/// `components` with a separator between each two.
pub open spec fn join(components: Seq<Seq<u8>>) -> Seq<u8>
    decreases components.len(),
{
    if components.len() == 0 {
        Seq::empty()
    } else if components.len() == 1 {
        components[0]
    } else {
        join(components.drop_last()) + seq![SLASH] + components.last()
    }
}

/// `components` with a separator before each.
pub open spec fn rooted(components: Seq<Seq<u8>>) -> Seq<u8>
    decreases components.len(),
{
    if components.len() == 0 {
        Seq::empty()
    } else {
        rooted(components.drop_last()) + seq![SLASH] + components.last()
    }
}

/// No component holds a separator.
pub open spec fn slash_free(components: Seq<Seq<u8>>) -> bool {
    forall|i: int| 0 <= i < components.len() ==> !(#[trigger] components[i]).contains(SLASH)
}

/// Every component names an entry.
pub open spec fn all_names(components: Seq<Seq<u8>>) -> bool {
    forall|i: int| 0 <= i < components.len() ==> is_name(#[trigger] components[i])
}

/// Splitting a text at a separator splits both sides.
pub proof fn lemma_split_at(a: Seq<u8>, b: Seq<u8>, sep: u8)
    ensures
        bytes::split(a + seq![sep] + b, sep) == bytes::split(a, sep) + bytes::split(b, sep),
    decreases a.len(),
{
    let whole = a + seq![sep] + b;
    bytes::lemma_first_of(a, sep);
    let i = bytes::first_of(a, sep);
    if i < a.len() {
        assert forall|j: int| 0 <= j < i implies whole[j] != sep by {
            assert(whole[j] == a[j]);
        }
        bytes::lemma_first_of_is(whole, sep, i);
        let rest = a.subrange(i + 1, a.len() as int);
        assert(whole.subrange(0, i) =~= a.subrange(0, i));
        assert(whole.subrange(i + 1, whole.len() as int) =~= rest + seq![sep] + b);
        lemma_split_at(rest, b, sep);
        assert(bytes::split(whole, sep) =~= bytes::split(a, sep) + bytes::split(b, sep));
    } else {
        assert forall|j: int| 0 <= j < a.len() implies whole[j] != sep by {
            assert(whole[j] == a[j]);
        }
        bytes::lemma_first_of_is(whole, sep, a.len() as int);
        assert(whole.subrange(0, a.len() as int) =~= a);
        assert(whole.subrange(a.len() as int + 1, whole.len() as int) =~= b);
    }
}

/// A text without separators is its own only field.
pub proof fn lemma_split_none(s: Seq<u8>, sep: u8)
    requires
        !s.contains(sep),
    ensures
        bytes::split(s, sep) == seq![s],
{
    bytes::lemma_first_of_is(s, sep, s.len() as int);
}

/// No field holds the separator, and there is at least one field.
pub proof fn lemma_split_fields(s: Seq<u8>, sep: u8)
    ensures
        bytes::split(s, sep).len() > 0,
        forall|i: int|
            0 <= i < bytes::split(s, sep).len() ==> !(#[trigger] bytes::split(s, sep)[i]).contains(
                sep,
            ),
    decreases s.len(),
{
    bytes::lemma_first_of(s, sep);
    let n = bytes::first_of(s, sep);
    if n < s.len() {
        let rest = s.subrange(n + 1, s.len() as int);
        lemma_split_fields(rest, sep);
        let fields = bytes::split(s, sep);
        assert forall|i: int| 0 <= i < fields.len() implies !(#[trigger] fields[i]).contains(sep) by {
            if i == 0 {
                assert(fields[0] == s.subrange(0, n));
                assert forall|j: int| 0 <= j < n implies s.subrange(0, n)[j] != sep by {
                    assert(s.subrange(0, n)[j] == s[j]);
                }
            } else {
                assert(fields[i] == bytes::split(rest, sep)[i - 1]);
            }
        }
    } else {
        assert(bytes::split(s, sep) == seq![s]);
        assert(bytes::split(s, sep)[0] == s);
        assert(!s.contains(sep));
    }
}

/// Splitting a join gives the components back.
pub proof fn lemma_split_join(cs: Seq<Seq<u8>>)
    requires
        cs.len() > 0,
        slash_free(cs),
    ensures
        bytes::split(join(cs), SLASH) == cs,
    decreases cs.len(),
{
    if cs.len() == 1 {
        lemma_split_none(cs[0], SLASH);
        assert(cs =~= seq![cs[0]]);
    } else {
        let front = cs.drop_last();
        assert(slash_free(front)) by {
            assert forall|i: int| 0 <= i < front.len() implies !(#[trigger] front[i]).contains(SLASH) by {
                assert(front[i] == cs[i]);
            }
        }
        lemma_split_join(front);
        lemma_split_at(join(front), cs.last(), SLASH);
        assert(!cs[cs.len() - 1].contains(SLASH));
        lemma_split_none(cs.last(), SLASH);
        assert(front + seq![cs.last()] =~= cs);
    }
}

/// Joining the fields of a text gives the text back.
pub proof fn lemma_join_split(s: Seq<u8>)
    ensures
        join(bytes::split(s, SLASH)) == s,
    decreases s.len(),
{
    bytes::lemma_first_of(s, SLASH);
    let n = bytes::first_of(s, SLASH);
    if n < s.len() {
        let head = s.subrange(0, n);
        let rest = s.subrange(n + 1, s.len() as int);
        lemma_join_split(rest);
        lemma_split_fields(rest, SLASH);
        lemma_join_cons(head, bytes::split(rest, SLASH));
        assert(head + seq![SLASH] + rest =~= s);
    }
}

/// Joining one more component in front.
pub proof fn lemma_join_cons(head: Seq<u8>, tail: Seq<Seq<u8>>)
    requires
        tail.len() > 0,
    ensures
        join(seq![head] + tail) == head + seq![SLASH] + join(tail),
    decreases tail.len(),
{
    let all = seq![head] + tail;
    if tail.len() == 1 {
        assert(all.drop_last() =~= seq![head]);
        assert(join(seq![head]) == head);
        assert(join(tail) == tail[0]);
        assert(all.last() == tail[0]);
    } else {
        lemma_join_cons(head, tail.drop_last());
        assert(all.drop_last() =~= seq![head] + tail.drop_last());
        assert(all.last() == tail.last());
        assert(join(all) =~= head + seq![SLASH] + join(tail));
    }
}

/// Joining one more component behind.
pub proof fn lemma_join_push(cs: Seq<Seq<u8>>, last: Seq<u8>)
    ensures
        join(cs.push(last)) == if cs.len() == 0 {
            last
        } else {
            join(cs) + seq![SLASH] + last
        },
{
    assert(cs.push(last).drop_last() =~= cs);
    assert(cs.push(last).last() == last);
}

/// A non-empty rooted path is a separator followed by the join.
pub proof fn lemma_rooted(cs: Seq<Seq<u8>>)
    requires
        cs.len() > 0,
    ensures
        rooted(cs) == seq![SLASH] + join(cs),
    decreases cs.len(),
{
    if cs.len() == 1 {
        assert(cs.drop_last() =~= Seq::<Seq<u8>>::empty());
        assert(rooted(cs.drop_last()) =~= Seq::<u8>::empty());
        assert(rooted(cs) =~= seq![SLASH] + join(cs));
    } else {
        lemma_rooted(cs.drop_last());
        assert(rooted(cs) =~= seq![SLASH] + join(cs));
    }
}

/// Whether `c` is `.` or empty.
pub fn noise(c: &[u8]) -> (r: bool)
    ensures
        r == is_noise(c@),
{
    if c.len() == 1 && c[0] == DOT {
        assert(c@ =~= dot());
        true
    } else {
        assert(c@ == dot() ==> c@[0] == dot()[0]);
        c.len() == 0
    }
}

/// Whether `c` is `..`.
pub fn parent_dir(c: &[u8]) -> (r: bool)
    ensures
        r == (c@ == dot_dot()),
{
    if c.len() == 2 && c[0] == DOT && c[1] == DOT {
        assert(c@ =~= dot_dot());
        true
    } else {
        assert(c@ == dot_dot() ==> c@[0] == dot_dot()[0] && c@[1] == dot_dot()[1]);
        false
    }
}

// ── Containment and joining ─────────────────────────────────────────────

/// Whether `path` is `root` or lies below it. The separator guard keeps a
/// sibling that merely shares the prefix outside.
pub open spec fn within_root(path: Seq<u8>, root: Seq<u8>) -> bool {
    root.is_prefix_of(path) && (path.len() == root.len() || path[root.len() as int] == SLASH)
}

/// Whether `path` is `root` or lies below it.
pub fn path_within_root(path: &[u8], root: &[u8]) -> (r: bool)
    ensures
        r == within_root(path@, root@),
{
    starts_with(path, root) && (path.len() == root.len() || path[root.len()] == SLASH)
}

/// What follows the root's bytes lies in the workspace exactly when it begins
/// with a separator: a sibling that merely shares the prefix stays outside.
pub proof fn law_a_sibling_lies_outside(root: Seq<u8>, next: u8, rest: Seq<u8>)
    ensures
        within_root(root, root),
        within_root(root + seq![next] + rest, root) <==> next == SLASH,
{
    let path = root + seq![next] + rest;
    assert(root.is_prefix_of(path)) by {
        assert(path.subrange(0, root.len() as int) =~= root);
    }
    assert(path[root.len() as int] == next);
    assert(root.is_prefix_of(root)) by {
        assert(root.subrange(0, root.len() as int) =~= root);
    }
}

/// Whether a path starts at the root of the host filesystem.
pub open spec fn absolute(path: Seq<u8>) -> bool {
    path.len() > 0 && path[0] == SLASH
}

/// Whether a path starts at the root of the host filesystem.
pub fn is_absolute(path: &[u8]) -> (r: bool)
    ensures
        r == absolute(path@),
{
    path.len() > 0 && path[0] == SLASH
}

/// `rel` taken from the directory `base`: an absolute `rel` stands for itself.
pub open spec fn joined_at(base: Seq<u8>, rel: Seq<u8>) -> Seq<u8> {
    if absolute(rel) {
        rel
    } else if base.len() == 0 || base.last() == SLASH {
        base + rel
    } else {
        base + seq![SLASH] + rel
    }
}

/// Resolves `rel` against the directory `base`.
pub fn join_at_path(base: &[u8], rel: &[u8]) -> (r: Vec<u8>)
    ensures
        r@ == joined_at(base@, rel@),
        !absolute(rel@) ==> base@.is_prefix_of(r@) && rel@.is_suffix_of(r@),
{
    if is_absolute(rel) {
        return to_vec(rel);
    }
    let mut out = to_vec(base);
    if base.len() > 0 && base[base.len() - 1] != SLASH {
        out.push(SLASH);
    }
    push_bytes(&mut out, rel);
    assert(base@ =~= out@.subrange(0, base@.len() as int));
    assert(rel@ =~= out@.subrange(out@.len() - rel@.len(), out@.len() as int));
    assert(out@ =~= joined_at(base@, rel@));
    out
}

// ── Materialization temporaries ─────────────────────────────────────────

/// The marker that every materialization temporary carries.
pub open spec fn temp_marker() -> Seq<u8> {
    bytes::ascii(".kin_tmp_"@)
}

/// The temporary into which graph truth is written before `target` is replaced.
pub open spec fn temp_path_of(target: Seq<u8>, pid: int) -> Seq<u8> {
    target + temp_marker() + text::signed_decimal(pid)
}

/// The marker's bytes.
fn marker() -> (r: Vec<u8>)
    ensures
        r@ == temp_marker(),
{
    proof {
        reveal_strlit(".kin_tmp_");
    }
    let s = ".kin_tmp_";
    let r = to_vec(s.as_bytes());
    assert(s.is_ascii());
    assert(r@ =~= temp_marker());
    r
}

/// What the name of every temporary of a target begins with.
pub fn temp_prefix(target: &[u8]) -> (r: Vec<u8>)
    ensures
        r@ == target@ + temp_marker(),
{
    let mut out = to_vec(target);
    push_bytes(&mut out, marker().as_slice());
    out
}

/// The temporary for an atomic write to `target` by the process `pid`.
pub fn atomic_temp_path(target: &[u8], pid: i32) -> (r: Vec<u8>)
    ensures
        r@ == temp_path_of(target@, pid as int),
{
    let mut out = temp_prefix(target);
    push_signed_decimal(&mut out, pid);
    out
}

/// Whether `path` is a materialization temporary, and so never intercepted.
pub fn is_interpose_temp_artifact(path: &[u8]) -> (r: bool)
    ensures
        r == bytes::occurs(path@, temp_marker()),
{
    contains_slice(path, marker().as_slice())
}

/// Every temporary that an atomic write makes is recognized as one.
pub proof fn law_atomic_temp_is_artifact(target: Seq<u8>, pid: int)
    ensures
        bytes::occurs(temp_path_of(target, pid), temp_marker()),
{
    let path = temp_path_of(target, pid);
    assert(path.subrange(target.len() as int, (target.len() + temp_marker().len()) as int) =~= temp_marker());
    assert(bytes::occurs_at(path, temp_marker(), target.len() as int));
}

// ── Lexical normalization ───────────────────────────────────────────────

/// The components that remain when `.` and `..` are applied from left to
/// right; a `..` with nothing before it stays at the root.
pub open spec fn clamped(cs: Seq<Seq<u8>>) -> Seq<Seq<u8>>
    decreases cs.len(),
{
    if cs.len() == 0 {
        Seq::empty()
    } else {
        let before = clamped(cs.drop_last());
        let c = cs.last();
        if is_noise(c) {
            before
        } else if c == dot_dot() {
            if before.len() == 0 {
                before
            } else {
                before.drop_last()
            }
        } else {
            before.push(c)
        }
    }
}

/// As `clamped`, but a `..` with nothing before it is an escape: `None`.
pub open spec fn contained(cs: Seq<Seq<u8>>) -> Option<Seq<Seq<u8>>>
    decreases cs.len(),
{
    if cs.len() == 0 {
        Some(Seq::empty())
    } else {
        let c = cs.last();
        match contained(cs.drop_last()) {
            None => None,
            Some(before) => if is_noise(c) {
                Some(before)
            } else if c == dot_dot() {
                if before.len() == 0 {
                    None
                } else {
                    Some(before.drop_last())
                }
            } else {
                Some(before.push(c))
            },
        }
    }
}

/// The absolute path made of `cs`: `/` where there are none.
pub open spec fn absolute_of(cs: Seq<Seq<u8>>) -> Seq<u8> {
    if cs.len() == 0 {
        seq![SLASH]
    } else {
        rooted(cs)
    }
}

/// What `normalize_kernel_path` gives.
pub open spec fn kernel_normal(path: Seq<u8>) -> Option<Seq<u8>> {
    if absolute(path) {
        Some(absolute_of(clamped(bytes::split(path, SLASH))))
    } else {
        None
    }
}

/// What `normalize_graph_path` gives.
pub open spec fn graph_normal(path: Seq<u8>) -> Option<Seq<u8>> {
    if absolute(path) {
        match contained(bytes::split(path, SLASH)) {
            Some(cs) => Some(absolute_of(cs)),
            None => None,
        }
    } else {
        None
    }
}

/// An optional byte vector as an optional byte sequence.
pub open spec fn opt_bytes(v: Option<Vec<u8>>) -> Option<Seq<u8>> {
    match v {
        Some(b) => Some(b@),
        None => None,
    }
}

/// The path made of `cs`.
fn render(cs: &Vec<Vec<u8>>) -> (r: Vec<u8>)
    ensures
        r@ == absolute_of(bytes::views(cs@)),
{
    let mut out: Vec<u8> = Vec::new();
    let mut i: usize = 0;
    assert(bytes::views(cs@).take(0) =~= Seq::<Seq<u8>>::empty());
    while i < cs.len()
        invariant
            0 <= i <= cs@.len(),
            out@ == rooted(bytes::views(cs@).take(i as int)),
            i > 0 ==> out@.len() > 0,
        decreases cs@.len() - i,
    {
        let ghost before = bytes::views(cs@).take(i as int);
        out.push(SLASH);
        push_bytes(&mut out, cs[i].as_slice());
        i = i + 1;
        proof {
            let now = bytes::views(cs@).take(i as int);
            assert(now.drop_last() =~= before);
            assert(now.last() == cs@[i - 1]@);
            assert(out@ =~= rooted(now));
        }
    }
    assert(bytes::views(cs@).take(i as int) =~= bytes::views(cs@));
    if out.len() == 0 {
        out.push(SLASH);
        assert(out@ =~= seq![SLASH]);
    }
    out
}

/// Normalizes `.` and `..` lexically the way the kernel treats them at the
/// root: a parent of the root is the root.
///
/// `None` for a relative path.
pub fn normalize_kernel_path(path: &[u8]) -> (r: Option<Vec<u8>>)
    ensures
        opt_bytes(r) == kernel_normal(path@),
{
    if !is_absolute(path) {
        return None;
    }
    let parts = split_bytes(path, SLASH);
    let ghost all = bytes::split(path@, SLASH);
    let mut kept: Vec<Vec<u8>> = Vec::new();
    let mut i: usize = 0;
    assert(all.take(0) =~= Seq::<Seq<u8>>::empty());
    assert(bytes::views(kept@) =~= Seq::<Seq<u8>>::empty());
    while i < parts.len()
        invariant
            0 <= i <= parts@.len(),
            bytes::views(parts@) == all,
            bytes::views(kept@) == clamped(all.take(i as int)),
        decreases parts@.len() - i,
    {
        let ghost before = bytes::views(kept@);
        proof {
            assert(all.take(i + 1).drop_last() =~= all.take(i as int));
            assert(all.take(i + 1).last() == parts@[i as int]@);
        }
        let c = parts[i].as_slice();
        if noise(c) {
        } else if parent_dir(c) {
            if kept.len() > 0 {
                kept.pop();
                assert(bytes::views(kept@) =~= before.drop_last());
            }
        } else {
            kept.push(to_vec(c));
            assert(bytes::views(kept@) =~= before.push(c@));
        }
        i = i + 1;
    }
    assert(all.take(i as int) =~= all);
    Some(render(&kept))
}

/// Normalizes `.` and `..` lexically, without asking the host filesystem.
///
/// `None` for a relative path, and where `..` escapes above the root: both
/// must fail closed rather than resolve to something outside the workspace.
pub fn normalize_graph_path(path: &[u8]) -> (r: Option<Vec<u8>>)
    ensures
        opt_bytes(r) == graph_normal(path@),
{
    if !is_absolute(path) {
        return None;
    }
    let parts = split_bytes(path, SLASH);
    let ghost all = bytes::split(path@, SLASH);
    let mut kept: Vec<Vec<u8>> = Vec::new();
    let mut i: usize = 0;
    assert(all.take(0) =~= Seq::<Seq<u8>>::empty());
    assert(bytes::views(kept@) =~= Seq::<Seq<u8>>::empty());
    while i < parts.len()
        invariant
            0 <= i <= parts@.len(),
            absolute(path@),
            bytes::views(parts@) == all,
            all == bytes::split(path@, SLASH),
            contained(all.take(i as int)) == Some(bytes::views(kept@)),
        decreases parts@.len() - i,
    {
        let ghost before = bytes::views(kept@);
        proof {
            assert(all.take(i + 1).drop_last() =~= all.take(i as int));
            assert(all.take(i + 1).last() == parts@[i as int]@);
        }
        let c = parts[i].as_slice();
        if noise(c) {
        } else if parent_dir(c) {
            if kept.len() == 0 {
                proof {
                    lemma_contained_none(all, i + 1);
                }
                return None;
            }
            kept.pop();
            assert(bytes::views(kept@) =~= before.drop_last());
        } else {
            kept.push(to_vec(c));
            assert(bytes::views(kept@) =~= before.push(c@));
        }
        i = i + 1;
    }
    assert(all.take(i as int) =~= all);
    Some(render(&kept))
}

/// An escape in a prefix is an escape of the whole.
proof fn lemma_contained_none(cs: Seq<Seq<u8>>, n: int)
    requires
        0 <= n <= cs.len(),
        contained(cs.take(n)) is None,
    ensures
        contained(cs) is None,
    decreases cs.len() - n,
{
    if n < cs.len() {
        assert(cs.take(n + 1).drop_last() =~= cs.take(n));
        lemma_contained_none(cs, n + 1);
    } else {
        assert(cs.take(n) =~= cs);
    }
}

/// What is left after `.` and `..` are applied holds neither.
pub proof fn lemma_clamped_names(cs: Seq<Seq<u8>>)
    ensures
        forall|i: int|
            0 <= i < clamped(cs).len() ==> !is_noise(#[trigger] clamped(cs)[i]) && clamped(cs)[i]
                != dot_dot(),
        slash_free(cs) ==> slash_free(clamped(cs)),
    decreases cs.len(),
{
    if cs.len() > 0 {
        lemma_clamped_names(cs.drop_last());
        if slash_free(cs) {
            assert(slash_free(cs.drop_last())) by {
                assert forall|i: int| 0 <= i < cs.drop_last().len() implies !(
                #[trigger] cs.drop_last()[i]).contains(SLASH) by {
                    assert(cs.drop_last()[i] == cs[i]);
                }
            }
            assert(!cs[cs.len() - 1].contains(SLASH));
        }
    }
}

/// Components that name entries are left as they are.
pub proof fn lemma_clamped_of_names(cs: Seq<Seq<u8>>)
    requires
        forall|i: int| 0 <= i < cs.len() ==> !is_noise(#[trigger] cs[i]) && cs[i] != dot_dot(),
    ensures
        clamped(cs) == cs,
        contained(cs) == Some(cs),
    decreases cs.len(),
{
    if cs.len() > 0 {
        let front = cs.drop_last();
        assert forall|i: int| 0 <= i < front.len() implies !is_noise(#[trigger] front[i]) && front[i]
            != dot_dot() by {
            assert(front[i] == cs[i]);
        }
        lemma_clamped_of_names(front);
        assert(cs[cs.len() - 1] == cs.last());
        assert(front.push(cs.last()) =~= cs);
    } else {
        assert(cs =~= Seq::<Seq<u8>>::empty());
    }
}

/// A leading empty component changes nothing.
proof fn lemma_clamped_leading(cs: Seq<Seq<u8>>)
    ensures
        clamped(seq![Seq::<u8>::empty()] + cs) == clamped(cs),
        contained(seq![Seq::<u8>::empty()] + cs) == contained(cs),
    decreases cs.len(),
{
    let all = seq![Seq::<u8>::empty()] + cs;
    if cs.len() == 0 {
        assert(all.drop_last() =~= Seq::<Seq<u8>>::empty());
        assert(clamped(all.drop_last()) =~= Seq::<Seq<u8>>::empty());
        assert(contained(all.drop_last()) == Some(Seq::<Seq<u8>>::empty()));
        assert(cs =~= Seq::<Seq<u8>>::empty());
        assert(all.last() == Seq::<u8>::empty());
    } else {
        lemma_clamped_leading(cs.drop_last());
        assert(all.drop_last() =~= seq![Seq::<u8>::empty()] + cs.drop_last());
        assert(all.last() == cs.last());
    }
}

/// The components of a path made of names.
proof fn lemma_split_absolute_of(cs: Seq<Seq<u8>>)
    requires
        slash_free(cs),
        cs.len() > 0,
    ensures
        bytes::split(absolute_of(cs), SLASH) == seq![Seq::<u8>::empty()] + cs,
{
    lemma_rooted(cs);
    let empty = Seq::<u8>::empty();
    assert(absolute_of(cs) =~= empty + seq![SLASH] + join(cs));
    lemma_split_at(empty, join(cs), SLASH);
    lemma_split_none(empty, SLASH);
    lemma_split_join(cs);
}

/// Normalizing twice is normalizing once.
pub proof fn law_kernel_normalization_is_idempotent(path: Seq<u8>)
    requires
        absolute(path),
    ensures
        kernel_normal(path) is Some,
        absolute(kernel_normal(path)->0),
        kernel_normal(kernel_normal(path)->0) == kernel_normal(path),
{
    let cs = clamped(bytes::split(path, SLASH));
    lemma_split_fields(path, SLASH);
    lemma_clamped_names(bytes::split(path, SLASH));
    if cs.len() == 0 {
        let root = seq![SLASH];
        let empty = Seq::<u8>::empty();
        assert(root =~= empty + seq![SLASH] + empty);
        lemma_split_at(empty, empty, SLASH);
        lemma_split_none(empty, SLASH);
        let parts = bytes::split(root, SLASH);
        assert(parts =~= seq![empty, empty]);
        assert(parts.drop_last() =~= seq![empty]);
        assert(parts.drop_last().drop_last() =~= Seq::<Seq<u8>>::empty());
        assert(clamped(parts.drop_last().drop_last()) =~= Seq::<Seq<u8>>::empty());
        assert(parts.drop_last().last() == empty);
        assert(clamped(parts.drop_last()) =~= Seq::<Seq<u8>>::empty());
        assert(parts.last() == empty);
        assert(clamped(parts) =~= Seq::<Seq<u8>>::empty());
    } else {
        lemma_rooted(cs);
        lemma_split_absolute_of(cs);
        lemma_clamped_leading(cs);
        lemma_clamped_of_names(cs);
    }
}

/// Where nothing escapes, graph and kernel normalization agree; where a `..`
/// escapes, only the kernel has an answer.
pub proof fn law_graph_normalization_is_kernel_normalization(path: Seq<u8>)
    ensures
        graph_normal(path) is Some ==> graph_normal(path) == kernel_normal(path),
{
    if absolute(path) {
        lemma_contained_is_clamped(bytes::split(path, SLASH));
    }
}

proof fn lemma_contained_is_clamped(cs: Seq<Seq<u8>>)
    ensures
        contained(cs) is Some ==> contained(cs) == Some(clamped(cs)),
    decreases cs.len(),
{
    if cs.len() > 0 {
        lemma_contained_is_clamped(cs.drop_last());
    }
}

// ── Paths made of names ─────────────────────────────────────────────────

/// The names of one path and then of another are the names of a longer one.
pub proof fn lemma_rooted_append(a: Seq<Seq<u8>>, b: Seq<Seq<u8>>)
    ensures
        rooted(a + b) == rooted(a) + rooted(b),
    decreases b.len(),
{
    if b.len() == 0 {
        assert(a + b =~= a);
        assert(rooted(a) + rooted(b) =~= rooted(a));
    } else {
        lemma_rooted_append(a, b.drop_last());
        assert((a + b).drop_last() =~= a + b.drop_last());
        assert((a + b).last() == b.last());
        assert(rooted(a + b) =~= rooted(a) + rooted(b));
    }
}

/// A path made of names is absolute and does not end in a separator.
pub proof fn lemma_rooted_ends(cs: Seq<Seq<u8>>)
    requires
        cs.len() > 0,
        all_names(cs),
    ensures
        absolute(rooted(cs)),
        rooted(cs).last() != SLASH,
        slash_free(cs),
{
    lemma_rooted(cs);
    let last = cs[cs.len() - 1];
    assert(is_name(last));
    assert(rooted(cs).last() == last.last());
    assert(last.contains(last.last()));
    assert forall|i: int| 0 <= i < cs.len() implies !(#[trigger] cs[i]).contains(SLASH) by {
        assert(is_name(cs[i]));
    }
}

/// A name taken from a directory is one name more.
pub proof fn lemma_joined_name(cs: Seq<Seq<u8>>, name: Seq<u8>)
    requires
        cs.len() > 0,
        all_names(cs),
        is_name(name),
    ensures
        joined_at(rooted(cs), name) == rooted(cs.push(name)),
{
    lemma_rooted_ends(cs);
    if absolute(name) {
        assert(name.contains(name[0]));
    }
    assert(cs.push(name).drop_last() =~= cs);
}

/// Names taken from a directory are as many names more.
pub proof fn lemma_joined_names(cs: Seq<Seq<u8>>, names: Seq<Seq<u8>>)
    requires
        cs.len() > 0,
        all_names(cs),
        names.len() > 0,
        all_names(names),
    ensures
        joined_at(rooted(cs), join(names)) == rooted(cs + names),
{
    lemma_rooted_ends(cs);
    lemma_rooted(names);
    lemma_rooted_append(cs, names);
    lemma_join_first(names);
    assert(rooted(cs) + seq![SLASH] + join(names) =~= rooted(cs) + rooted(names));
}

/// A join of names begins with the first byte of the first name.
pub proof fn lemma_join_first(cs: Seq<Seq<u8>>)
    requires
        cs.len() > 0,
        cs[0].len() > 0,
        !cs[0].contains(SLASH),
    ensures
        join(cs).len() > 0,
        join(cs)[0] == cs[0][0],
        !absolute(join(cs)),
    decreases cs.len(),
{
    assert(cs[0].contains(cs[0][0]));
    if cs.len() > 1 {
        assert(cs.drop_last()[0] == cs[0]);
        lemma_join_first(cs.drop_last());
    }
}

/// A join of components without NULs holds none.
pub proof fn lemma_join_without(cs: Seq<Seq<u8>>, b: u8)
    requires
        b != SLASH,
        forall|i: int| 0 <= i < cs.len() ==> !(#[trigger] cs[i]).contains(b),
    ensures
        !join(cs).contains(b),
    decreases cs.len(),
{
    if cs.len() == 1 {
        assert(!cs[0].contains(b));
    } else if cs.len() > 1 {
        let front = cs.drop_last();
        assert forall|i: int| 0 <= i < front.len() implies !(#[trigger] front[i]).contains(b) by {
            assert(front[i] == cs[i]);
        }
        lemma_join_without(front, b);
        let all = join(cs);
        let n = join(front).len() as int;
        if all.contains(b) {
            let i = choose|i: int| 0 <= i < all.len() && all[i] == b;
            if i < n {
                assert(join(front)[i] == b);
            } else if i > n {
                let last = cs[cs.len() - 1];
                assert(last[i - n - 1] == b);
                assert(last.contains(b));
            }
        }
    }
}

/// As many `..` as there are names to spare take that many off.
pub proof fn lemma_contained_ups(names: Seq<Seq<u8>>, ups: nat)
    requires
        all_names(names),
        ups <= names.len(),
    ensures
        contained(names + Seq::new(ups, |i: int| dot_dot())) == Some(
            names.take(names.len() - ups),
        ),
    decreases ups,
{
    let all = names + Seq::new(ups, |i: int| dot_dot());
    if ups == 0 {
        assert(all =~= names);
        assert forall|i: int| 0 <= i < names.len() implies !is_noise(#[trigger] names[i]) && names[i]
            != dot_dot() by {
            assert(is_name(names[i]));
        }
        lemma_clamped_of_names(names);
        assert(names.take(names.len() as int) =~= names);
    } else {
        let fewer = (ups - 1) as nat;
        lemma_contained_ups(names, fewer);
        assert(all.drop_last() =~= names + Seq::new(fewer, |i: int| dot_dot()));
        assert(all.last() == dot_dot());
        assert(dot_dot().len() == 2 && dot().len() == 1);
        assert(names.take(names.len() - fewer).drop_last() =~= names.take(names.len() - ups));
    }
}

/// The fields of a path made of components: an empty one, then those.
pub proof fn lemma_split_rooted(cs: Seq<Seq<u8>>)
    requires
        slash_free(cs),
        cs.len() > 0,
    ensures
        bytes::split(rooted(cs), SLASH) == seq![Seq::<u8>::empty()] + cs,
{
    lemma_split_absolute_of(cs);
}

/// A leading empty component changes nothing.
pub proof fn lemma_contained_leading(cs: Seq<Seq<u8>>)
    ensures
        contained(seq![Seq::<u8>::empty()] + cs) == contained(cs),
{
    lemma_clamped_leading(cs);
}

/// Names behind components that stay within are appended.
pub proof fn lemma_contained_names(cs: Seq<Seq<u8>>, names: Seq<Seq<u8>>)
    requires
        contained(cs) is Some,
        all_names(names),
    ensures
        contained(cs + names) == Some(contained(cs)->0 + names),
    decreases names.len(),
{
    if names.len() == 0 {
        assert(cs + names =~= cs);
        assert(contained(cs)->0 + names =~= contained(cs)->0);
    } else {
        let front = names.drop_last();
        assert forall|i: int| 0 <= i < front.len() implies is_name(#[trigger] front[i]) by {
            assert(front[i] == names[i]);
        }
        lemma_contained_names(cs, front);
        assert((cs + names).drop_last() =~= cs + front);
        assert((cs + names).last() == names.last());
        assert(is_name(names[names.len() - 1]));
        assert((contained(cs)->0 + front).push(names.last()) =~= contained(cs)->0 + names);
    }
}

// ── Laws of normalization and containment ───────────────────────────────

/// Normalization goes component by component: behind a path, an empty component
/// and `.` change nothing, `..` takes the last name off and stays at the root,
/// and a name comes behind the names before it.
pub proof fn law_kernel_normalization_goes_component_by_component(
    path: Seq<u8>,
    names: Seq<Seq<u8>>,
    c: Seq<u8>,
)
    requires
        absolute(path),
        all_names(names),
        kernel_normal(path) == Some(absolute_of(names)),
        !c.contains(SLASH),
        !c.contains(0),
    ensures
        c.len() == 0 || c == seq![DOT] ==> kernel_normal(path + seq![SLASH] + c) == Some(
            absolute_of(names),
        ),
        c == seq![DOT, DOT] ==> kernel_normal(path + seq![SLASH] + c) == Some(
            if names.len() == 0 {
                seq![SLASH]
            } else {
                absolute_of(names.drop_last())
            },
        ),
        is_name(c) ==> kernel_normal(path + seq![SLASH] + c) == Some(
            if names.len() == 0 {
                seq![SLASH] + c
            } else {
                absolute_of(names) + seq![SLASH] + c
            },
        ),
{
    let whole = path + seq![SLASH] + c;
    lemma_split_at(path, c, SLASH);
    lemma_split_none(c, SLASH);
    let cs = bytes::split(path, SLASH);
    let kept = clamped(cs);
    lemma_split_fields(path, SLASH);
    lemma_clamped_names(cs);
    assert(bytes::split(whole, SLASH) =~= cs.push(c));
    assert(cs.push(c).drop_last() =~= cs);
    lemma_absolute_of_is_injective(kept, names);
    assert(kept == names);
    assert(dot_dot().len() == 2 && dot().len() == 1);
    if is_name(c) {
        assert(names.push(c).drop_last() =~= names);
        assert(rooted(Seq::<Seq<u8>>::empty()) =~= Seq::<u8>::empty());
        if names.len() == 0 {
            assert(names =~= Seq::<Seq<u8>>::empty());
            assert(rooted(names.push(c)) =~= seq![SLASH] + c);
        }
    }
}

/// Names are told from the path that is made of them.
pub proof fn lemma_absolute_of_is_injective(a: Seq<Seq<u8>>, b: Seq<Seq<u8>>)
    requires
        slash_free(a),
        slash_free(b),
        forall|i: int| 0 <= i < a.len() ==> !is_noise(#[trigger] a[i]),
        forall|i: int| 0 <= i < b.len() ==> !is_noise(#[trigger] b[i]),
        absolute_of(a) == absolute_of(b),
    ensures
        a == b,
{
    let empty = Seq::<u8>::empty();
    let root = seq![SLASH];
    assert(root =~= empty + seq![SLASH] + empty);
    lemma_split_at(empty, empty, SLASH);
    lemma_split_none(empty, SLASH);
    let nothing = bytes::split(root, SLASH);
    assert(nothing =~= seq![empty, empty]);
    if a.len() > 0 {
        lemma_split_absolute_of(a);
        assert((seq![empty] + a)[1] == a[0]);
        assert(!is_noise(a[0]));
    }
    if b.len() > 0 {
        lemma_split_absolute_of(b);
        assert((seq![empty] + b)[1] == b[0]);
        assert(!is_noise(b[0]));
    }
    if a.len() > 0 && b.len() > 0 {
        assert(a =~= (seq![empty] + a).drop_first());
        assert(b =~= (seq![empty] + b).drop_first());
    } else {
        assert(a =~= b);
    }
}

/// Graph normalization gives what the kernel's gives, except that it gives
/// nothing where a `..` stands at the root.
pub proof fn law_graph_normalization_refuses_exactly_an_escape(path: Seq<u8>, c: Seq<u8>)
    requires
        absolute(path),
        !c.contains(SLASH),
    ensures
        graph_normal(path + seq![SLASH] + c) is None <==> graph_normal(path) is None || (c == seq![
            DOT,
            DOT,
        ] && graph_normal(path) == Some(seq![SLASH])),
        graph_normal(path + seq![SLASH] + c) is Some ==> graph_normal(path + seq![SLASH] + c)
            == kernel_normal(path + seq![SLASH] + c),
        c.len() == 0 ==> graph_normal(c) is None && kernel_normal(c) is None,
{
    let whole = path + seq![SLASH] + c;
    lemma_split_at(path, c, SLASH);
    lemma_split_none(c, SLASH);
    let cs = bytes::split(path, SLASH);
    assert(bytes::split(whole, SLASH) =~= cs.push(c));
    assert(cs.push(c).drop_last() =~= cs);
    assert(dot_dot().len() == 2 && dot().len() == 1);
    lemma_contained_is_clamped(cs);
    lemma_contained_is_clamped(bytes::split(whole, SLASH));
    lemma_split_fields(path, SLASH);
    lemma_clamped_names(cs);
    match contained(cs) {
        Some(kept) => {
            if kept.len() > 0 && absolute_of(kept) == seq![SLASH] {
                lemma_absolute_of_is_injective(kept, Seq::empty());
            }
        },
        None => {},
    }
}

/// One path lies in another exactly where its names begin with the other's.
pub proof fn law_containment_is_by_whole_names(path: Seq<Seq<u8>>, root: Seq<Seq<u8>>)
    requires
        all_names(path),
        all_names(root),
        root.len() > 0,
    ensures
        within_root(rooted(path), rooted(root)) <==> root.is_prefix_of(path),
{
    let p = rooted(path);
    let r = rooted(root);
    lemma_rooted_ends(root);
    if root.is_prefix_of(path) {
        let rest = path.subrange(root.len() as int, path.len() as int);
        assert(path =~= root + rest);
        lemma_rooted_append(root, rest);
        assert(p.subrange(0, r.len() as int) =~= r);
        assert(r.is_prefix_of(p));
        if rest.len() > 0 {
            lemma_rooted(rest);
            assert(p[r.len() as int] == rooted(rest)[0]);
        }
    }
    if within_root(p, r) {
        let empty = Seq::<u8>::empty();
        if path.len() == 0 {
            assert(p =~= empty);
            assert(r.len() <= p.len());
        } else {
            lemma_rooted_ends(path);
            lemma_split_absolute_of(path);
            lemma_split_absolute_of(root);
            if p.len() == r.len() {
                assert(p =~= r);
                lemma_absolute_of_is_injective(path, root);
                assert(root.is_prefix_of(path));
            } else {
                let tail = p.subrange(r.len() as int + 1, p.len() as int);
                assert(p =~= r + seq![SLASH] + tail);
                lemma_split_at(r, tail, SLASH);
                let all = seq![empty] + path;
                let first = seq![empty] + root;
                assert(all == first + bytes::split(tail, SLASH));
                assert forall|i: int| 0 <= i < root.len() implies root[i] == path[i] by {
                    assert(first[i + 1] == root[i]);
                    assert(all[i + 1] == path[i]);
                }
                assert(root =~= path.subrange(0, root.len() as int));
            }
        }
    }
}

/// The temporary of a write lies beside its target: it is the target's own path
/// with the marker and the process number behind it, so that it is a name in
/// the same directory, never the target, and never that of another process.
pub proof fn law_a_temporary_lies_beside_its_target(
    directory: Seq<u8>,
    name: Seq<u8>,
    pid: i32,
    other: i32,
)
    requires
        is_name(name),
    ensures
        ({
            let target = directory + seq![SLASH] + name;
            let temp = temp_path_of(target, pid as int);
            let suffix = temp.subrange(target.len() as int, temp.len() as int);
            &&& target.is_prefix_of(temp)
            &&& suffix.len() > 9
            &&& suffix.subrange(0, 9) == bytes::ascii(".kin_tmp_"@)
            &&& !suffix.contains(SLASH)
            &&& pid != other ==> temp != temp_path_of(target, other as int)
        }),
{
    let target = directory + seq![SLASH] + name;
    let temp = temp_path_of(target, pid as int);
    let number = text::signed_decimal(pid as int);
    reveal_strlit(".kin_tmp_");
    assert(temp.subrange(0, target.len() as int) =~= target);
    let suffix = temp.subrange(target.len() as int, temp.len() as int);
    assert(suffix =~= temp_marker() + number);
    assert(suffix.subrange(0, 9) =~= temp_marker());
    text::lemma_signed_decimal(pid as int);
    text::lemma_signed_decimal(other as int);
    if suffix.contains(SLASH) {
        let i = choose|i: int| 0 <= i < suffix.len() && suffix[i] == SLASH;
        if i >= 9 {
            assert(number[i - 9] == SLASH);
        }
    }
    if pid != other && temp == temp_path_of(target, other as int) {
        let further = text::signed_decimal(other as int);
        assert(number =~= temp.subrange(target.len() as int + 9, temp.len() as int));
        assert(further =~= temp_path_of(target, other as int).subrange(
            target.len() as int + 9,
            temp.len() as int,
        ));
        text::lemma_signed_decimal_is_injective(pid as int, other as int);
    }
}

} // verus!
