//! Graph keys: repository-relative paths as exact bytes.

use vstd::prelude::*;

use crate::bytes;
use crate::bytes::{contains_byte, push_bytes, rfind_byte, split_bytes, sub_vec, to_vec, SLASH};
use crate::pathmap;
use crate::pathmap::{noise, parent_dir, path_within_root};

verus! {

/// The components of a key; the root has none.
pub open spec fn key_components(key: Seq<u8>) -> Seq<Seq<u8>> {
    if key.len() == 0 {
        Seq::empty()
    } else {
        bytes::split(key, SLASH)
    }
}

/// A key is the root, or names separated by single separators.
pub open spec fn is_key(key: Seq<u8>) -> bool {
    pathmap::all_names(key_components(key))
}

/// Why bytes are not a key or not a name.
#[derive(Debug, Clone, Copy, PartialEq, Eq, Structural)]
pub enum VfsPathError {
    /// A component is empty, `.`, `..`, or holds a separator or a NUL.
    InvalidComponent,
}

/// One entry name inside a directory.
#[derive(Debug)]
pub struct VfsName {
    bytes: Vec<u8>,
}

/// A repository-relative path. The root is the empty key.
#[derive(Debug)]
pub struct VfsPath {
    bytes: Vec<u8>,
}

/// Whether `c` names an entry in a directory.
pub fn is_valid_name(c: &[u8]) -> (r: bool)
    ensures
        r == pathmap::is_name(c@),
{
    !noise(c) && !parent_dir(c) && !contains_byte(c, SLASH) && !contains_byte(c, 0)
}

impl View for VfsName {
    type V = Seq<u8>;

    closed spec fn view(&self) -> Seq<u8> {
        self.bytes@
    }
}

impl View for VfsPath {
    type V = Seq<u8>;

    closed spec fn view(&self) -> Seq<u8> {
        self.bytes@
    }
}

impl VfsName {
    #[verifier::type_invariant]
    closed spec fn well_formed(self) -> bool {
        pathmap::is_name(self.bytes@)
    }

    /// A name from exact bytes.
    pub fn from_bytes(name: &[u8]) -> (r: Result<VfsName, VfsPathError>)
        ensures
            match r {
                Ok(n) => pathmap::is_name(name@) && n@ == name@,
                Err(e) => !pathmap::is_name(name@) && e == VfsPathError::InvalidComponent,
            },
    {
        if is_valid_name(name) {
            Ok(VfsName { bytes: to_vec(name) })
        } else {
            Err(VfsPathError::InvalidComponent)
        }
    }

    /// The exact bytes of the name.
    pub fn as_bytes(&self) -> (r: &[u8])
        ensures
            r@ == self@,
            pathmap::is_name(r@),
    {
        proof {
            use_type_invariant(self);
        }
        self.bytes.as_slice()
    }
}

impl Clone for VfsName {
    fn clone(&self) -> (r: Self)
        ensures
            r@ == self@,
    {
        proof {
            use_type_invariant(self);
        }
        VfsName { bytes: to_vec(self.bytes.as_slice()) }
    }
}

impl Clone for VfsPath {
    fn clone(&self) -> (r: Self)
        ensures
            r@ == self@,
    {
        proof {
            use_type_invariant(self);
        }
        VfsPath { bytes: to_vec(self.bytes.as_slice()) }
    }
}

/// A name below a key is a key, and its components are those of the key and
/// the name.
pub proof fn lemma_child_key(key: Seq<u8>, name: Seq<u8>)
    requires
        is_key(key),
        pathmap::is_name(name),
    ensures
        is_key(child_key(key, name)),
        key_components(child_key(key, name)) == key_components(key).push(name),
{
    pathmap::lemma_split_none(name, SLASH);
    if key.len() > 0 {
        pathmap::lemma_split_at(key, name, SLASH);
        assert(key_components(key) + seq![name] =~= key_components(key).push(name));
    } else {
        assert(seq![name] =~= key_components(key).push(name));
    }
}

/// The key of the entry `name` in the directory `key`.
pub open spec fn child_key(key: Seq<u8>, name: Seq<u8>) -> Seq<u8> {
    if key.len() == 0 {
        name
    } else {
        key + seq![SLASH] + name
    }
}

/// The key of the directory that holds `key`; the root has none.
pub open spec fn parent_key(key: Seq<u8>) -> Option<Seq<u8>> {
    if key.len() == 0 {
        None
    } else {
        Some(pathmap::join(key_components(key).drop_last()))
    }
}

/// The parent of a key is a key with one component less.
pub proof fn lemma_parent_key(key: Seq<u8>)
    requires
        is_key(key),
        key.len() > 0,
    ensures
        is_key(parent_key(key)->0),
        key_components(parent_key(key)->0) == key_components(key).drop_last(),
        parent_key(key)->0.len() < key.len(),
        key == child_key(parent_key(key)->0, key_components(key).last()),
{
    let cs = key_components(key);
    let front = cs.drop_last();
    pathmap::lemma_split_fields(key, SLASH);
    pathmap::lemma_join_split(key);
    assert(pathmap::slash_free(front)) by {
        assert forall|i: int| 0 <= i < front.len() implies !(#[trigger] front[i]).contains(SLASH) by {
            assert(front[i] == cs[i]);
        }
    }
    assert(pathmap::is_name(cs[cs.len() - 1]));
    if front.len() > 0 {
        pathmap::lemma_split_join(front);
        assert(pathmap::is_name(cs[0]));
        assert(front[0] == cs[0]);
        lemma_join_nonempty(front);
        assert(key_components(pathmap::join(front)) == front);
        assert(pathmap::all_names(front)) by {
            assert forall|i: int| 0 <= i < front.len() implies pathmap::is_name(
                #[trigger] front[i],
            ) by {
                assert(front[i] == cs[i]);
            }
        }
        assert(cs.len() > 1);
    } else {
        assert(pathmap::join(front) =~= Seq::<u8>::empty());
        assert(front =~= Seq::<Seq<u8>>::empty());
    }
}

proof fn lemma_join_nonempty(cs: Seq<Seq<u8>>)
    requires
        cs.len() > 0,
        cs[0].len() > 0,
    ensures
        pathmap::join(cs).len() > 0,
    decreases cs.len(),
{
    if cs.len() > 1 {
        assert(cs.drop_last()[0] == cs[0]);
        lemma_join_nonempty(cs.drop_last());
    }
}

/// What stands before a separator of a key is a key.
pub proof fn lemma_prefix_key(key: Seq<u8>, cut: int)
    requires
        is_key(key),
        0 <= cut < key.len(),
        key[cut] == SLASH,
    ensures
        is_key(key.subrange(0, cut)),
        cut > 0,
        key_components(key.subrange(0, cut)).is_prefix_of(key_components(key)),
{
    let front = key.subrange(0, cut);
    let back = key.subrange(cut + 1, key.len() as int);
    assert(key =~= front + seq![SLASH] + back);
    pathmap::lemma_split_at(front, back, SLASH);
    pathmap::lemma_split_fields(front, SLASH);
    let cs = key_components(key);
    let fs = bytes::split(front, SLASH);
    assert forall|i: int| 0 <= i < fs.len() implies pathmap::is_name(#[trigger] fs[i]) by {
        assert(fs[i] == cs[i]);
    }
    if cut == 0 {
        pathmap::lemma_split_none(front, SLASH);
        assert(fs[0].len() == 0);
    }
    assert(fs =~= cs.subrange(0, fs.len() as int));
}

impl VfsPath {
    #[verifier::type_invariant]
    closed spec fn well_formed(self) -> bool {
        is_key(self.bytes@)
    }

    /// The root of the repository.
    pub fn root() -> (r: VfsPath)
        ensures
            r@ == Seq::<u8>::empty(),
    {
        VfsPath { bytes: Vec::new() }
    }

    /// A key from exact bytes.
    pub fn from_bytes(key: &[u8]) -> (r: Result<VfsPath, VfsPathError>)
        ensures
            match r {
                Ok(p) => is_key(key@) && p@ == key@,
                Err(e) => !is_key(key@) && e == VfsPathError::InvalidComponent,
            },
    {
        if key.len() > 0 {
            let parts = split_bytes(key, SLASH);
            let mut i: usize = 0;
            while i < parts.len()
                invariant
                    0 <= i <= parts@.len(),
                    key@.len() > 0,
                    bytes::views(parts@) == key_components(key@),
                    forall|j: int|
                        0 <= j < i ==> pathmap::is_name(#[trigger] key_components(key@)[j]),
                decreases parts@.len() - i,
            {
                assert(key_components(key@)[i as int] == parts@[i as int]@);
                if !is_valid_name(parts[i].as_slice()) {
                    return Err(VfsPathError::InvalidComponent);
                }
                i = i + 1;
            }
        }
        Ok(VfsPath { bytes: to_vec(key) })
    }

    /// The exact bytes of the key.
    pub fn as_bytes(&self) -> (r: &[u8])
        ensures
            r@ == self@,
            is_key(r@),
    {
        proof {
            use_type_invariant(self);
        }
        self.bytes.as_slice()
    }

    /// Whether this is the root.
    pub fn is_root(&self) -> (r: bool)
        ensures
            r == (self@.len() == 0),
    {
        self.bytes.len() == 0
    }

    /// The components, from the root down.
    pub fn components(&self) -> (r: Vec<Vec<u8>>)
        ensures
            bytes::views(r@) == key_components(self@),
            pathmap::all_names(bytes::views(r@)),
    {
        proof {
            use_type_invariant(self);
        }
        if self.bytes.len() == 0 {
            let r: Vec<Vec<u8>> = Vec::new();
            assert(bytes::views(r@) =~= Seq::<Seq<u8>>::empty());
            r
        } else {
            split_bytes(self.bytes.as_slice(), SLASH)
        }
    }

    /// The directory that holds this entry; `None` for the root.
    pub fn parent(&self) -> (r: Option<VfsPath>)
        ensures
            match r {
                Some(p) => parent_key(self@) == Some(p@),
                None => parent_key(self@) is None,
            },
    {
        proof {
            use_type_invariant(self);
        }
        let n: usize = self.bytes.len();
        if n == 0 {
            return None;
        }
        proof {
            lemma_parent_key(self.bytes@);
        }
        match rfind_byte(self.bytes.as_slice(), SLASH, n) {
            Some(i) => {
                let front = sub_vec(self.bytes.as_slice(), 0, i);
                proof {
                    let key = self.bytes@;
                    let last = key.subrange(i + 1, n as int);
                    assert(key =~= front@ + seq![SLASH] + last);
                    pathmap::lemma_split_at(front@, last, SLASH);
                    assert(!last.contains(SLASH)) by {
                        assert forall|j: int| 0 <= j < last.len() implies last[j] != SLASH by {
                            assert(last[j] == key[i + 1 + j]);
                        }
                    }
                    pathmap::lemma_split_none(last, SLASH);
                    pathmap::lemma_join_split(front@);
                    assert(key_components(key).drop_last() =~= bytes::split(front@, SLASH));
                }
                Some(VfsPath { bytes: front })
            },
            None => {
                proof {
                    assert(!self.bytes@.contains(SLASH));
                    pathmap::lemma_split_none(self.bytes@, SLASH);
                    assert(key_components(self.bytes@).drop_last() =~= Seq::<Seq<u8>>::empty());
                }
                Some(VfsPath::root())
            },
        }
    }

    /// The ancestor that ends before the separator at `cut`.
    pub fn prefix(&self, cut: usize) -> (r: VfsPath)
        requires
            cut < self@.len(),
            self@[cut as int] == SLASH,
        ensures
            r@ == self@.subrange(0, cut as int),
    {
        proof {
            use_type_invariant(self);
            lemma_prefix_key(self.bytes@, cut as int);
        }
        VfsPath { bytes: sub_vec(self.bytes.as_slice(), 0, cut) }
    }

    /// The entry `name` in this directory.
    pub fn join(&self, name: &VfsName) -> (r: VfsPath)
        ensures
            r@ == child_key(self@, name@),
    {
        proof {
            use_type_invariant(self);
            use_type_invariant(name);
            lemma_child_key(self.bytes@, name.bytes@);
        }
        let mut out = to_vec(self.bytes.as_slice());
        if out.len() > 0 {
            out.push(SLASH);
        }
        push_bytes(&mut out, name.bytes.as_slice());
        assert(out@ =~= child_key(self@, name@));
        VfsPath { bytes: out }
    }
}

// ── Host paths to graph keys ────────────────────────────────────────────

/// Why a host path has no graph key.
#[derive(Debug, Clone, Copy, PartialEq, Eq, Structural)]
pub enum WorkspacePathError {
    /// The path does not lie in the workspace.
    OutsideRoot,
    /// A `..` component: the path may leave the workspace.
    ParentTraversal,
    /// A component holds a NUL.
    InvalidComponent,
}

/// The components without the empty ones and the `.`s.
pub open spec fn significant(cs: Seq<Seq<u8>>) -> Seq<Seq<u8>>
    decreases cs.len(),
{
    if cs.len() == 0 {
        Seq::empty()
    } else {
        let before = significant(cs.drop_last());
        if pathmap::is_noise(cs.last()) {
            before
        } else {
            before.push(cs.last())
        }
    }
}

/// The components of `path` below `root`.
pub open spec fn below_root(path: Seq<u8>, root: Seq<u8>) -> Seq<Seq<u8>> {
    significant(bytes::split(path.subrange(root.len() as int, path.len() as int), SLASH))
}

/// The graph key of a host path, or why it has none.
pub open spec fn graph_key(path: Seq<u8>, root: Seq<u8>) -> Result<Seq<u8>, WorkspacePathError> {
    if !pathmap::within_root(path, root) {
        Err(WorkspacePathError::OutsideRoot)
    } else if below_root(path, root).contains(pathmap::dot_dot()) {
        Err(WorkspacePathError::ParentTraversal)
    } else if path.subrange(root.len() as int, path.len() as int).contains(0) {
        Err(WorkspacePathError::InvalidComponent)
    } else {
        Ok(pathmap::join(below_root(path, root)))
    }
}

/// A field holds only bytes of the text it was split from.
pub proof fn lemma_field_bytes(s: Seq<u8>, sep: u8, i: int, b: u8)
    requires
        0 <= i < bytes::split(s, sep).len(),
        bytes::split(s, sep)[i].contains(b),
    ensures
        s.contains(b),
    decreases s.len(),
{
    bytes::lemma_first_of(s, sep);
    let n = bytes::first_of(s, sep);
    if n < s.len() {
        let rest = s.subrange(n + 1, s.len() as int);
        if i == 0 {
            let k = choose|k: int| 0 <= k < s.subrange(0, n).len() && s.subrange(0, n)[k] == b;
            assert(s[k] == b);
        } else {
            assert(bytes::split(s, sep)[i] == bytes::split(rest, sep)[i - 1]);
            lemma_field_bytes(rest, sep, i - 1, b);
            let k = choose|k: int| 0 <= k < rest.len() && rest[k] == b;
            assert(s[n + 1 + k] == b);
        }
    } else {
        assert(bytes::split(s, sep)[0] == s);
    }
}

/// What `significant` keeps are components that were there and are not noise.
pub proof fn lemma_significant(cs: Seq<Seq<u8>>)
    ensures
        forall|i: int|
            0 <= i < significant(cs).len() ==> cs.contains(#[trigger] significant(cs)[i])
                && !pathmap::is_noise(significant(cs)[i]),
    decreases cs.len(),
{
    if cs.len() > 0 {
        let front = cs.drop_last();
        lemma_significant(front);
        assert forall|i: int| 0 <= i < significant(cs).len() implies cs.contains(
            #[trigger] significant(cs)[i],
        ) && !pathmap::is_noise(significant(cs)[i]) by {
            if i < significant(front).len() {
                let c = significant(front)[i];
                assert(front.contains(c));
                let k = choose|k: int| 0 <= k < front.len() && front[k] == c;
                assert(cs[k] == c);
            } else {
                assert(cs[cs.len() - 1] == cs.last());
            }
        }
    }
}

/// Names are all significant.
pub proof fn lemma_significant_names(cs: Seq<Seq<u8>>)
    requires
        pathmap::all_names(cs),
    ensures
        significant(cs) == cs,
        significant(seq![Seq::<u8>::empty()] + cs) == cs,
    decreases cs.len(),
{
    let all = seq![Seq::<u8>::empty()] + cs;
    if cs.len() == 0 {
        assert(all.drop_last() =~= Seq::<Seq<u8>>::empty());
        assert(significant(all.drop_last()) =~= Seq::<Seq<u8>>::empty());
        assert(all.last() == Seq::<u8>::empty());
        assert(cs =~= Seq::<Seq<u8>>::empty());
    } else {
        let front = cs.drop_last();
        assert(pathmap::all_names(front)) by {
            assert forall|i: int| 0 <= i < front.len() implies pathmap::is_name(
                #[trigger] front[i],
            ) by {
                assert(front[i] == cs[i]);
            }
        }
        lemma_significant_names(front);
        assert(pathmap::is_name(cs[cs.len() - 1]));
        assert(all.drop_last() =~= seq![Seq::<u8>::empty()] + front);
        assert(all.last() == cs.last());
        assert(front.push(cs.last()) =~= cs);
    }
}

/// A host path that has a graph key lies in the workspace, and its key is a
/// key made of the components below the root.
pub proof fn lemma_graph_key(path: Seq<u8>, root: Seq<u8>)
    requires
        graph_key(path, root) is Ok,
    ensures
        pathmap::within_root(path, root),
        is_key(graph_key(path, root)->Ok_0),
        key_components(graph_key(path, root)->Ok_0) == below_root(path, root),
{
    let rest = path.subrange(root.len() as int, path.len() as int);
    let fields = bytes::split(rest, SLASH);
    let cs = below_root(path, root);
    pathmap::lemma_split_fields(rest, SLASH);
    lemma_significant(fields);
    assert forall|i: int| 0 <= i < cs.len() implies pathmap::is_name(#[trigger] cs[i]) by {
        assert(fields.contains(cs[i]));
        let k = choose|k: int| 0 <= k < fields.len() && fields[k] == cs[i];
        if cs[i].contains(0) {
            lemma_field_bytes(rest, SLASH, k, 0);
        }
        if cs[i] == pathmap::dot_dot() {
            assert(cs.contains(pathmap::dot_dot()));
        }
    }
    if cs.len() > 0 {
        assert(pathmap::slash_free(cs)) by {
            assert forall|i: int| 0 <= i < cs.len() implies !(#[trigger] cs[i]).contains(SLASH) by {
                assert(pathmap::is_name(cs[i]));
            }
        }
        pathmap::lemma_split_join(cs);
        assert(pathmap::is_name(cs[0]));
        lemma_join_nonempty(cs);
    } else {
        assert(cs =~= Seq::<Seq<u8>>::empty());
    }
}

/// The result of `workspace_graph_key` over views.
pub open spec fn key_result(r: Result<VfsPath, WorkspacePathError>) -> Result<
    Seq<u8>,
    WorkspacePathError,
> {
    match r {
        Ok(p) => Ok(p@),
        Err(e) => Err(e),
    }
}

/// Translates a host path into the repository-relative key that the graph
/// speaks.
pub fn workspace_graph_key(path: &[u8], root: &[u8]) -> (r: Result<VfsPath, WorkspacePathError>)
    ensures
        key_result(r) == graph_key(path@, root@),
{
    if !path_within_root(path, root) {
        return Err(WorkspacePathError::OutsideRoot);
    }
    let rest = sub_vec(path, root.len(), path.len());
    let fields = split_bytes(rest.as_slice(), SLASH);
    let ghost all = bytes::split(rest@, SLASH);
    let ghost cs = below_root(path@, root@);
    let mut key: Vec<u8> = Vec::new();
    let mut traverses: bool = false;
    let mut i: usize = 0;
    let ghost mut kept: Seq<Seq<u8>> = Seq::empty();
    assert(all.take(0) =~= Seq::<Seq<u8>>::empty());
    proof {
        pathmap::lemma_split_fields(rest@, SLASH);
    }
    while i < fields.len()
        invariant
            0 <= i <= fields@.len(),
            bytes::views(fields@) == all,
            kept == significant(all.take(i as int)),
            traverses == kept.contains(pathmap::dot_dot()),
            key@ == pathmap::join(kept),
            kept.len() > 0 ==> key@.len() > 0,
        decreases fields@.len() - i,
    {
        let ghost before = kept;
        proof {
            assert(all.take(i + 1).drop_last() =~= all.take(i as int));
            assert(all.take(i + 1).last() == fields@[i as int]@);
        }
        let c = fields[i].as_slice();
        if !noise(c) {
            if parent_dir(c) {
                traverses = true;
            }
            if key.len() > 0 {
                key.push(SLASH);
            }
            push_bytes(&mut key, c);
            proof {
                kept = before.push(c@);
                pathmap::lemma_join_push(before, c@);
                if before.len() == 0 {
                    assert(before =~= Seq::<Seq<u8>>::empty());
                }
                assert(key@ =~= pathmap::join(kept));
                assert(kept.last() == c@);
                assert forall|x: Seq<u8>| before.contains(x) implies kept.contains(x) by {
                    let k = choose|k: int| 0 <= k < before.len() && before[k] == x;
                    assert(kept[k] == x);
                }
                if kept.contains(pathmap::dot_dot()) && !before.contains(pathmap::dot_dot()) {
                    let k = choose|k: int| 0 <= k < kept.len() && kept[k] == pathmap::dot_dot();
                    if k < before.len() {
                        assert(before[k] == kept[k]);
                    }
                }
                assert(kept[before.len() as int] == c@);
            }
        }
        i = i + 1;
    }
    assert(all.take(i as int) =~= all);
    if traverses {
        return Err(WorkspacePathError::ParentTraversal);
    }
    if contains_byte(rest.as_slice(), 0) {
        return Err(WorkspacePathError::InvalidComponent);
    }
    proof {
        lemma_graph_key(path@, root@);
    }
    Ok(VfsPath { bytes: key })
}

/// A key taken below the workspace root is the key of the resulting host path.
pub proof fn law_key_round_trips_through_the_host(root: Seq<u8>, key: Seq<u8>)
    requires
        is_key(key),
        root.len() > 0,
        root.last() != SLASH,
    ensures
        graph_key(pathmap::joined_at(root, key), root) == Ok::<Seq<u8>, WorkspacePathError>(key),
{
    let cs = key_components(key);
    let empty = Seq::<u8>::empty();
    if key.len() > 0 {
        pathmap::lemma_split_fields(key, SLASH);
        assert(pathmap::is_name(cs[0]));
        if key[0] == SLASH {
            bytes::lemma_first_of_is(key, SLASH, 0);
            assert(cs[0] =~= empty);
        }
    }
    assert(!pathmap::absolute(key));
    let path = pathmap::joined_at(root, key);
    assert(path =~= root + seq![SLASH] + key);
    let rest = path.subrange(root.len() as int, path.len() as int);
    assert(root =~= path.subrange(0, root.len() as int));
    assert(rest =~= empty + seq![SLASH] + key);
    pathmap::lemma_split_at(empty, key, SLASH);
    pathmap::lemma_split_none(empty, SLASH);
    if key.len() > 0 {
        lemma_significant_names(cs);
        pathmap::lemma_join_split(key);
        if cs.contains(pathmap::dot_dot()) {
            let k = choose|k: int| 0 <= k < cs.len() && cs[k] == pathmap::dot_dot();
            assert(pathmap::is_name(cs[k]));
        }
        if rest.contains(0) {
            let k = choose|k: int| 0 <= k < rest.len() && rest[k] == 0;
            assert(key[k - 1] == 0);
            lemma_byte_in_field(key, SLASH, 0);
        }
    } else {
        assert(key =~= empty);
        pathmap::lemma_split_none(key, SLASH);
        assert(bytes::split(rest, SLASH) =~= seq![empty, empty]);
        assert(seq![empty, empty].drop_last() =~= seq![empty]);
        assert(seq![empty].drop_last() =~= Seq::<Seq<u8>>::empty());
        assert(significant(seq![empty].drop_last()) =~= Seq::<Seq<u8>>::empty());
        assert(seq![empty].last() == empty);
        assert(significant(seq![empty]) =~= Seq::<Seq<u8>>::empty());
        assert(seq![empty, empty].last() == empty);
        assert(below_root(path, root) =~= Seq::<Seq<u8>>::empty());
    }
}

/// A byte of a text other than the separator is in one of its fields.
proof fn lemma_byte_in_field(s: Seq<u8>, sep: u8, b: u8)
    requires
        s.contains(b),
        b != sep,
    ensures
        exists|i: int|
            0 <= i < bytes::split(s, sep).len() && (#[trigger] bytes::split(s, sep)[i]).contains(b),
    decreases s.len(),
{
    bytes::lemma_first_of(s, sep);
    let n = bytes::first_of(s, sep);
    let fields = bytes::split(s, sep);
    let k = choose|k: int| 0 <= k < s.len() && s[k] == b;
    if n < s.len() {
        let rest = s.subrange(n + 1, s.len() as int);
        if k < n {
            assert(s.subrange(0, n)[k] == b);
            assert(fields[0].contains(b));
        } else {
            assert(rest[k - n - 1] == b);
            lemma_byte_in_field(rest, sep, b);
            let i = choose|i: int|
                0 <= i < bytes::split(rest, sep).len() && (#[trigger] bytes::split(
                    rest,
                    sep,
                )[i]).contains(b);
            assert(fields[i + 1] == bytes::split(rest, sep)[i]);
        }
    } else {
        assert(fields[0] == s);
    }
}

/// An entry lies in the directory that it was named in: its key is the
/// directory's with the name behind it, the directory is its parent, and its
/// components are one more. The root lies in nothing.
pub proof fn law_a_child_lies_in_its_directory(key: Seq<u8>, name: Seq<u8>, other: Seq<u8>)
    requires
        is_key(key),
        pathmap::is_name(name),
        pathmap::is_name(other),
    ensures
        is_key(child_key(key, name)),
        child_key(key, name) == if key.len() == 0 {
            name
        } else {
            key + seq![47u8] + name
        },
        parent_key(child_key(key, name)) == Some(key),
        key_components(child_key(key, name)) == key_components(key).push(name),
        parent_key(Seq::empty()) is None,
        child_key(key, name) == child_key(key, other) ==> name == other,
{
    lemma_child_key(key, name);
    lemma_child_key(key, other);
    let child = child_key(key, name);
    assert(key_components(child).drop_last() =~= key_components(key));
    if key.len() > 0 {
        pathmap::lemma_join_split(key);
    } else {
        assert(key =~= Seq::<u8>::empty());
    }
    assert(key_components(key).push(name).last() == name);
    assert(key_components(key).push(other).last() == other);
}

/// A separator behind a path, and a `.` behind it, change nothing of its key.
/// A `..` below the root has no key, nor has what holds a zero byte, nor what
/// does not lie below the root.
pub proof fn law_only_names_below_the_root_make_a_key(path: Seq<u8>, root: Seq<u8>, c: Seq<u8>)
    requires
        root.len() > 0,
        root.last() != SLASH,
        !c.contains(SLASH),
    ensures
        !pathmap::within_root(path, root) ==> graph_key(path, root) == Err::<
            Seq<u8>,
            WorkspacePathError,
        >(WorkspacePathError::OutsideRoot),
        pathmap::within_root(path, root) && (c.len() == 0 || c == seq![46u8]) ==> graph_key(
            path + seq![47u8] + c,
            root,
        ) == graph_key(path, root),
        pathmap::within_root(path, root) && c == seq![46u8, 46u8] ==> graph_key(
            path + seq![47u8] + c,
            root,
        ) == Err::<Seq<u8>, WorkspacePathError>(WorkspacePathError::ParentTraversal),
        pathmap::within_root(path, root) && c.contains(0) ==> graph_key(
            path + seq![47u8] + c,
            root,
        ) is Err,
        pathmap::within_root(path, root) && pathmap::is_name(c) && graph_key(path, root) is Ok
            ==> graph_key(path + seq![47u8] + c, root) == Ok::<Seq<u8>, WorkspacePathError>(
            child_key(graph_key(path, root)->Ok_0, c),
        ),
{
    if pathmap::within_root(path, root) {
        let whole = path + seq![SLASH] + c;
        let n = root.len() as int;
        let rest = path.subrange(n, path.len() as int);
        let more = whole.subrange(n, whole.len() as int);
        assert(more =~= rest + seq![SLASH] + c);
        assert(whole.subrange(0, n) =~= path.subrange(0, n));
        assert(pathmap::within_root(whole, root));
        pathmap::lemma_split_at(rest, c, SLASH);
        pathmap::lemma_split_none(c, SLASH);
        let cs = bytes::split(rest, SLASH);
        assert(bytes::split(more, SLASH) =~= cs.push(c));
        assert(cs.push(c).drop_last() =~= cs);
        let kept = significant(cs);
        assert(pathmap::dot() =~= seq![46u8]);
        assert(pathmap::dot_dot() =~= seq![46u8, 46u8]);
        assert(pathmap::dot_dot().len() == 2);
        assert(more.contains(0) <==> rest.contains(0) || c.contains(0)) by {
            if rest.contains(0) {
                let i = choose|i: int| 0 <= i < rest.len() && rest[i] == 0;
                assert(more[i] == 0);
            }
            if c.contains(0) {
                let i = choose|i: int| 0 <= i < c.len() && c[i] == 0;
                assert(more[rest.len() + 1 + i] == 0);
            }
            if more.contains(0) {
                let i = choose|i: int| 0 <= i < more.len() && more[i] == 0;
                if i < rest.len() {
                    assert(rest[i] == 0);
                } else {
                    assert(c[i - rest.len() - 1] == 0);
                }
            }
        }
        if !pathmap::is_noise(c) {
            assert(significant(cs.push(c)) == kept.push(c));
            if c == pathmap::dot_dot() {
                assert(kept.push(c)[kept.len() as int] == c);
            }
            if kept.contains(pathmap::dot_dot()) {
                let i = choose|i: int| 0 <= i < kept.len() && kept[i] == pathmap::dot_dot();
                assert(kept.push(c)[i] == pathmap::dot_dot());
            }
            if pathmap::is_name(c) && graph_key(path, root) is Ok {
                assert(!kept.push(c).contains(pathmap::dot_dot())) by {
                    if kept.push(c).contains(pathmap::dot_dot()) {
                        let i = choose|i: int|
                            0 <= i < kept.push(c).len() && kept.push(c)[i] == pathmap::dot_dot();
                        if i < kept.len() {
                            assert(kept[i] == pathmap::dot_dot());
                        }
                    }
                }
                lemma_graph_key(path, root);
                if kept.len() > 0 {
                    pathmap::lemma_join_push(kept, c);
                    lemma_significant(cs);
                    assert(!pathmap::is_noise(kept[0]));
                    lemma_join_nonempty(kept);
                } else {
                    assert(kept.push(c).drop_last() =~= Seq::<Seq<u8>>::empty());
                    assert(pathmap::join(kept) =~= Seq::<u8>::empty());
                    assert(pathmap::join(kept.push(c)) =~= c);
                }
            }
        }
    }
}

} // verus!
