//! Adaptive radix tree: the tier-0 in-memory index.
//!
//! A leaf holds a full key with its value and transaction id; an inner node
//! holds a compressed path prefix, the entry whose key ends right after that
//! prefix (if any), and children keyed by the next key byte. Lookups follow
//! the key byte by byte. Inserting where a key parts from an inner node's
//! compressed prefix splits that node at the common part; a key that ends
//! at a node, or inside its prefix, is held by the node itself, so every
//! inserted key can be looked up again.

use vstd::prelude::*;

use crate::codec::copy_range;
use crate::format::obe::value::bytes_equal;

verus! {

// ── Model ─────────────────────────────────────────────────────────────────

/// An ART node.
#[derive(Debug)]
pub enum ArtNode {
    /// A full key with its value and transaction id.
    Leaf { key: Vec<u8>, value: Vec<u8>, txid: u64 },
    /// A compressed prefix, the entry (key, value, transaction id) whose key
    /// ends right after it, and the children, keyed by the next key byte.
    Inner {
        prefix: Vec<u8>,
        terminal: Option<(Vec<u8>, Vec<u8>, u64)>,
        children: Vec<(u8, Box<ArtNode>)>,
    },
}

/// What a node denotes.
pub enum ArtModel {
    Leaf(Seq<u8>, Seq<u8>, u64),
    Inner(Seq<u8>, Option<(Seq<u8>, Seq<u8>, u64)>, Seq<(u8, ArtModel)>),
}

/// The model of an inner node's own entry.
pub open spec fn term_model(t: Option<(Vec<u8>, Vec<u8>, u64)>) -> Option<(Seq<u8>, Seq<u8>, u64)> {
    match t {
        Some((k, v, x)) => Some((k@, v@, x)),
        None => None,
    }
}

/// The value and transaction id an inner node's own entry gives for `key`.
pub open spec fn term_get(t: Option<(Seq<u8>, Seq<u8>, u64)>, key: Seq<u8>) -> Option<(Seq<u8>, u64)> {
    match t {
        Some((k, v, x)) => if k == key {
            Some((v, x))
        } else {
            None
        },
        None => None,
    }
}

/// The model of a node.
pub open spec fn art_model(n: ArtNode) -> ArtModel
    decreases n,
{
    match n {
        ArtNode::Leaf { key, value, txid } => ArtModel::Leaf(key@, value@, txid),
        ArtNode::Inner { prefix, terminal, children } => ArtModel::Inner(
            prefix@,
            term_model(terminal),
            children_model(children@),
        ),
    }
}

/// The models of a list of children, in order.
pub open spec fn children_model(s: Seq<(u8, Box<ArtNode>)>) -> Seq<(u8, ArtModel)>
    decreases s,
{
    if s.len() == 0 {
        Seq::empty()
    } else {
        children_model(s.drop_last()).push((s.last().0, art_model(*s.last().1)))
    }
}

/// `children_model` works child by child.
pub proof fn lemma_children_model(s: Seq<(u8, Box<ArtNode>)>)
    ensures
        children_model(s).len() == s.len(),
        forall|i: int|
            0 <= i < s.len() ==> #[trigger] children_model(s)[i] == (s[i].0, art_model(*s[i].1)),
    decreases s.len(),
{
    if s.len() > 0 {
        lemma_children_model(s.drop_last());
    }
}

/// Index of the first child keyed `b`, searching from `i`.
pub open spec fn find_child(cs: Seq<(u8, ArtModel)>, b: u8, i: nat) -> Option<nat>
    decreases cs.len() - i,
{
    if i >= cs.len() {
        None
    } else if cs[i as int].0 == b {
        Some(i)
    } else {
        find_child(cs, b, i + 1)
    }
}

/// The length of the longest common prefix of two byte strings.
pub open spec fn common_len(a: Seq<u8>, b: Seq<u8>) -> nat
    decreases a.len(),
{
    if a.len() == 0 || b.len() == 0 || a[0] != b[0] {
        0
    } else {
        1 + common_len(a.drop_first(), b.drop_first())
    }
}

/// No two children share a byte.
pub open spec fn bytes_distinct(cs: Seq<(u8, ArtModel)>) -> bool {
    forall|i: int, j: int| 0 <= i < j < cs.len() ==> (#[trigger] cs[i]).0 != (#[trigger] cs[j]).0
}

/// Well-formed at `depth`: every leaf's key reaches the depth at which the
/// leaf stands, and no two children of a node share a byte.
pub open spec fn model_wf(m: ArtModel, depth: nat) -> bool
    decreases m,
{
    match m {
        ArtModel::Leaf(k, _, _) => k.len() >= depth,
        ArtModel::Inner(p, _, cs) => bytes_distinct(cs) && children_wf(cs, depth + p.len() + 1),
    }
}

/// Every child is well-formed at `depth`.
pub open spec fn children_wf(cs: Seq<(u8, ArtModel)>, depth: nat) -> bool
    decreases cs,
{
    if cs.len() == 0 {
        true
    } else {
        children_wf(cs.drop_last(), depth) && model_wf(cs.last().1, depth)
    }
}

/// `children_wf` holds child by child.
pub proof fn lemma_children_wf(cs: Seq<(u8, ArtModel)>, depth: nat)
    ensures
        children_wf(cs, depth) <==> forall|i: int| 0 <= i < cs.len() ==> model_wf(#[trigger] cs[i].1, depth),
    decreases cs.len(),
{
    if cs.len() > 0 {
        lemma_children_wf(cs.drop_last(), depth);
        if forall|i: int| 0 <= i < cs.len() ==> model_wf(#[trigger] cs[i].1, depth) {
            assert forall|i: int| 0 <= i < cs.drop_last().len() implies model_wf(
                #[trigger] cs.drop_last()[i].1,
                depth,
            ) by {
                assert(cs.drop_last()[i] == cs[i]);
            }
        }
        if children_wf(cs, depth) {
            assert forall|i: int| 0 <= i < cs.len() implies model_wf(#[trigger] cs[i].1, depth) by {
                if i < cs.len() - 1 {
                    assert(cs.drop_last()[i] == cs[i]);
                }
            }
        }
    }
}

/// The value and transaction id stored under `key`, looking from `depth`.
pub open spec fn model_get(m: ArtModel, key: Seq<u8>, depth: nat) -> Option<(Seq<u8>, u64)>
    decreases m,
{
    match m {
        ArtModel::Leaf(k, v, t) => if k == key {
            Some((v, t))
        } else {
            None
        },
        ArtModel::Inner(p, t, cs) => {
            let pe = depth + p.len();
            if key.len() < pe || key.subrange(depth as int, pe as int) != p {
                None
            } else if key.len() == pe {
                term_get(t, key)
            } else {
                match find_child(cs, key[pe as int], 0) {
                    Some(i) => if i < cs.len() {
                        model_get(cs[i as int].1, key, pe + 1)
                    } else {
                        None
                    },
                    None => None,
                }
            }
        },
    }
}

/// An inner node with prefix `p`, own entry `t` and children `cs` at
/// `depth`, split where `key` parts from `p` after `c` bytes: a node with the
/// common part, whose children are the old node (its prefix shortened past
/// the parting byte) and, when `key` goes on, a leaf for it; when `key` ends
/// there, the new node holds it as its own entry.
pub open spec fn split_inner(
    p: Seq<u8>,
    t: Option<(Seq<u8>, Seq<u8>, u64)>,
    cs: Seq<(u8, ArtModel)>,
    c: nat,
    key: Seq<u8>,
    value: Seq<u8>,
    txid: u64,
    depth: nat,
) -> ArtModel {
    let d2 = depth + c;
    let old: Seq<(u8, ArtModel)> = seq![(p[c as int], ArtModel::Inner(p.skip((c + 1) as int), t, cs))];
    if key.len() == d2 {
        ArtModel::Inner(p.take(c as int), Some((key, value, txid)), old)
    } else {
        ArtModel::Inner(p.take(c as int), None, old.push((key[d2 as int], ArtModel::Leaf(key, value, txid))))
    }
}

/// A leaf holding `ek` at `depth`, split to make room for `key`: a node with
/// the common part of the two keys, holding the key that ends there (if
/// any) as its own entry and a leaf for each key that goes on.
pub open spec fn split_leaf(
    ek: Seq<u8>,
    ev: Seq<u8>,
    et: u64,
    key: Seq<u8>,
    value: Seq<u8>,
    txid: u64,
    depth: nat,
) -> ArtModel {
    let c = common_len(ek.skip(depth as int), key.skip(depth as int));
    let d2 = depth + c;
    let term = if key.len() == d2 {
        Some((key, value, txid))
    } else if ek.len() == d2 {
        Some((ek, ev, et))
    } else {
        None
    };
    let old_child: Seq<(u8, ArtModel)> = if ek.len() > d2 {
        seq![(ek[d2 as int], ArtModel::Leaf(ek, ev, et))]
    } else {
        Seq::empty()
    };
    let new_child: Seq<(u8, ArtModel)> = if key.len() > d2 {
        seq![(key[d2 as int], ArtModel::Leaf(key, value, txid))]
    } else {
        Seq::empty()
    };
    ArtModel::Inner(key.subrange(depth as int, d2 as int), term, old_child + new_child)
}

/// The tree after inserting `key` at `depth`, and whether the key is new
/// (it replaced no entry).
pub open spec fn model_insert(m: ArtModel, key: Seq<u8>, value: Seq<u8>, txid: u64, depth: nat) -> (
    ArtModel,
    bool,
)
    decreases m,
{
    match m {
        ArtModel::Leaf(ek, ev, et) => if ek == key {
            (ArtModel::Leaf(ek, value, txid), false)
        } else {
            (split_leaf(ek, ev, et, key, value, txid, depth), true)
        },
        ArtModel::Inner(p, t, cs) => {
            let c = common_len(p, key.skip(depth as int));
            let pe = depth + p.len();
            if c < p.len() {
                (split_inner(p, t, cs, c, key, value, txid, depth), true)
            } else if key.len() == pe {
                (ArtModel::Inner(p, Some((key, value, txid)), cs), t is None)
            } else {
                let b = key[pe as int];
                match find_child(cs, b, 0) {
                    Some(i) => if i < cs.len() {
                        let r = model_insert(cs[i as int].1, key, value, txid, pe + 1);
                        (ArtModel::Inner(p, t, cs.update(i as int, (b, r.0))), r.1)
                    } else {
                        (m, false)
                    },
                    None => (ArtModel::Inner(p, t, cs.push((b, ArtModel::Leaf(key, value, txid)))), true),
                }
            }
        },
    }
}

/// The tree after removing `key` at `depth`, and the value removed. An
/// inner node's own entry that matches is dropped; a leaf that matches
/// reports its value and is pruned by its parent (the index detaches a
/// matching root leaf, see `root_remove`).
pub open spec fn model_remove(m: ArtModel, key: Seq<u8>, depth: nat) -> (ArtModel, Option<Seq<u8>>)
    decreases m,
{
    match m {
        ArtModel::Leaf(k, v, _) => if k == key {
            (m, Some(v))
        } else {
            (m, None)
        },
        ArtModel::Inner(p, t, cs) => {
            let pe = depth + p.len();
            if key.len() < pe || key.subrange(depth as int, pe as int) != p {
                (m, None)
            } else if key.len() == pe {
                match t {
                    Some((k, v, _)) => if k == key {
                        (ArtModel::Inner(p, None, cs), Some(v))
                    } else {
                        (m, None)
                    },
                    None => (m, None),
                }
            } else {
                match find_child(cs, key[pe as int], 0) {
                    Some(i) => if i < cs.len() {
                        let r = model_remove(cs[i as int].1, key, pe + 1);
                        if r.1 is Some && r.0 is Leaf {
                            (ArtModel::Inner(p, t, cs.remove(i as int)), r.1)
                        } else {
                            (ArtModel::Inner(p, t, cs.update(i as int, (cs[i as int].0, r.0))), r.1)
                        }
                    } else {
                        (m, None)
                    },
                    None => (m, None),
                }
            }
        },
    }
}

/// The entries of a tree, children in order.
pub open spec fn model_entries(m: ArtModel) -> Seq<(Seq<u8>, Seq<u8>, u64)>
    decreases m,
{
    match m {
        ArtModel::Leaf(k, v, t) => seq![(k, v, t)],
        ArtModel::Inner(_, t, cs) => term_entries(t) + children_entries(cs),
    }
}

/// The own entry of an inner node, as a list.
pub open spec fn term_entries(t: Option<(Seq<u8>, Seq<u8>, u64)>) -> Seq<(Seq<u8>, Seq<u8>, u64)> {
    match t {
        Some(e) => seq![e],
        None => Seq::empty(),
    }
}

/// The entries of a list of children, in order.
pub open spec fn children_entries(cs: Seq<(u8, ArtModel)>) -> Seq<(Seq<u8>, Seq<u8>, u64)>
    decreases cs,
{
    if cs.len() == 0 {
        Seq::empty()
    } else {
        children_entries(cs.drop_last()) + model_entries(cs.last().1)
    }
}

// ── Executable nodes ──────────────────────────────────────────────────────

/// Length of the common prefix of `a[from..]` and `b[from..]`.
pub fn common_prefix(a: &[u8], b: &[u8]) -> (n: usize)
    ensures
        n == common_len(a@, b@),
{
    let mut i: usize = 0;
    while i < a.len() && i < b.len() && a[i] == b[i]
        invariant
            i <= a@.len(),
            i <= b@.len(),
            a@.take(i as int) == b@.take(i as int),
        decreases a@.len() - i,
    {
        assert(a@.take(i + 1) =~= a@.take(i as int).push(a@[i as int]));
        assert(b@.take(i + 1) =~= b@.take(i as int).push(b@[i as int]));
        i = i + 1;
    }
    proof {
        lemma_common_len(a@, b@, i as nat);
    }
    i
}

/// The common-prefix length is the `n` at which the strings first differ.
proof fn lemma_common_len(a: Seq<u8>, b: Seq<u8>, n: nat)
    requires
        n <= a.len(),
        n <= b.len(),
        a.take(n as int) == b.take(n as int),
        n < a.len() && n < b.len() ==> a[n as int] != b[n as int],
    ensures
        common_len(a, b) == n,
    decreases n,
{
    if n > 0 {
        assert(a[0] == a.take(n as int)[0]);
        assert(b[0] == b.take(n as int)[0]);
        assert(a.drop_first().take(n - 1) =~= a.take(n as int).drop_first());
        assert(b.drop_first().take(n - 1) =~= b.take(n as int).drop_first());
        lemma_common_len(a.drop_first(), b.drop_first(), (n - 1) as nat);
    }
}


/// The common-prefix length is at most either length, the strings agree
/// before it and differ at it when both go on.
proof fn lemma_common_len_props(a: Seq<u8>, b: Seq<u8>)
    ensures
        common_len(a, b) <= a.len(),
        common_len(a, b) <= b.len(),
        a.take(common_len(a, b) as int) == b.take(common_len(a, b) as int),
        common_len(a, b) < a.len() && common_len(a, b) < b.len() ==> a[common_len(a, b) as int] != b[common_len(
            a,
            b,
        ) as int],
    decreases a.len(),
{
    if a.len() == 0 || b.len() == 0 || a[0] != b[0] {
        assert(a.take(0) =~= b.take(0));
    } else {
        lemma_common_len_props(a.drop_first(), b.drop_first());
        let n = common_len(a, b);
        assert(a.take(n as int) =~= seq![a[0]] + a.drop_first().take(n - 1));
        assert(b.take(n as int) =~= seq![b[0]] + b.drop_first().take(n - 1));
    }
}

/// No child keyed `b` when the search finds none.
proof fn lemma_find_child_none(cs: Seq<(u8, ArtModel)>, b: u8, i: nat)
    requires
        find_child(cs, b, i) is None,
    ensures
        forall|j: int| i <= j < cs.len() ==> cs[j].0 != b,
    decreases cs.len() - i,
{
    if i < cs.len() {
        lemma_find_child_none(cs, b, i + 1);
    }
}

/// The search finds a child keyed `b`, the first one.
proof fn lemma_find_child_some(cs: Seq<(u8, ArtModel)>, b: u8, i: nat)
    requires
        find_child(cs, b, i) is Some,
    ensures
        ({
            let k = find_child(cs, b, i)->0;
            &&& i <= k < cs.len()
            &&& cs[k as int].0 == b
            &&& forall|j: int| i <= j < k ==> cs[j].0 != b
        }),
    decreases cs.len() - i,
{
    if i < cs.len() && cs[i as int].0 != b {
        lemma_find_child_some(cs, b, i + 1);
    }
}

/// The models of children after replacing one.
proof fn lemma_children_update(s: Seq<(u8, Box<ArtNode>)>, i: int, x: (u8, Box<ArtNode>))
    requires
        0 <= i < s.len(),
    ensures
        children_model(s.update(i, x)) == children_model(s).update(i, (x.0, art_model(*x.1))),
{
    lemma_children_model(s);
    lemma_children_model(s.update(i, x));
    assert(children_model(s.update(i, x)) =~= children_model(s).update(i, (x.0, art_model(*x.1))));
}

/// The models of children after appending one.
proof fn lemma_children_push(s: Seq<(u8, Box<ArtNode>)>, x: (u8, Box<ArtNode>))
    ensures
        children_model(s.push(x)) == children_model(s).push((x.0, art_model(*x.1))),
{
    assert(s.push(x).drop_last() =~= s);
}

/// The models of children after removing one.
proof fn lemma_children_remove(s: Seq<(u8, Box<ArtNode>)>, i: int)
    requires
        0 <= i < s.len(),
    ensures
        children_model(s.remove(i)) == children_model(s).remove(i),
{
    lemma_children_model(s);
    lemma_children_model(s.remove(i));
    assert(children_model(s.remove(i)) =~= children_model(s).remove(i));
}


/// What well-formedness says of an inner node.
proof fn lemma_wf_inner(p: Seq<u8>, t: Option<(Seq<u8>, Seq<u8>, u64)>, cs: Seq<(u8, ArtModel)>, depth: nat)
    requires
        model_wf(ArtModel::Inner(p, t, cs), depth),
    ensures
        forall|i: int, j: int| 0 <= i < j < cs.len() ==> (#[trigger] cs[i]).0 != (#[trigger] cs[j]).0,
        forall|i: int| 0 <= i < cs.len() ==> model_wf(#[trigger] cs[i].1, depth + p.len() + 1),
{
    lemma_children_wf(cs, depth + p.len() + 1);
}

/// Whether `key[from .. from + p.len()]` equals `p`.
fn range_equals(key: &[u8], from: usize, p: &[u8]) -> (r: bool)
    requires
        from + p@.len() <= key@.len(),
    ensures
        r == (key@.subrange(from as int, from + p@.len()) == p@),
{
    let klen = key.len();
    let mut i: usize = 0;
    while i < p.len()
        invariant
            klen == key@.len(),
            from + p@.len() <= key@.len(),
            i <= p@.len(),
            key@.subrange(from as int, from + i) == p@.take(i as int),
        decreases p@.len() - i,
    {
        if key[from + i] != p[i] {
            assert(key@.subrange(from as int, from + p@.len())[i as int] != p@[i as int]);
            return false;
        }
        assert(key@.subrange(from as int, from + i + 1) =~= key@.subrange(from as int, from + i).push(
            key@[from + i],
        ));
        assert(p@.take(i + 1) =~= p@.take(i as int).push(p@[i as int]));
        i = i + 1;
    }
    assert(p@.take(i as int) =~= p@);
    true
}

/// Index of the first child keyed `b`.
fn child_position(children: &Vec<(u8, Box<ArtNode>)>, b: u8) -> (r: Option<usize>)
    ensures
        r matches Some(j) ==> find_child(children_model(children@), b, 0) == Some(j as nat) && j < children@.len(),
        r is None ==> find_child(children_model(children@), b, 0) is None,
{
    proof {
        lemma_children_model(children@);
    }
    let ghost cs = children_model(children@);
    let mut i: usize = 0;
    while i < children.len()
        invariant
            cs == children_model(children@),
            cs.len() == children@.len(),
            forall|j: int| 0 <= j < cs.len() ==> #[trigger] cs[j].0 == children@[j].0,
            i <= children@.len(),
            find_child(cs, b, 0) == find_child(cs, b, i as nat),
        decreases children@.len() - i,
    {
        if children[i].0 == b {
            return Some(i);
        }
        i = i + 1;
    }
    None
}

impl ArtNode {
    /// A leaf.
    pub fn new_leaf(key: Vec<u8>, value: Vec<u8>, txid: u64) -> (n: Box<ArtNode>)
        ensures
            art_model(*n) == ArtModel::Leaf(key@, value@, txid),
    {
        Box::new(ArtNode::Leaf { key, value, txid })
    }

    /// An inner node without an own entry or children.
    pub fn new_inner(prefix: Vec<u8>) -> (n: Box<ArtNode>)
        ensures
            art_model(*n) == ArtModel::Inner(prefix@, None, Seq::empty()),
    {
        let n = Box::new(ArtNode::Inner { prefix, terminal: None, children: Vec::new() });
        assert(children_model(Seq::<(u8, Box<ArtNode>)>::empty()) =~= Seq::<(u8, ArtModel)>::empty());
        n
    }

    /// The value and transaction id stored under `key`, looking from
    /// `depth`.
    pub fn get(&self, key: &[u8], depth: usize) -> (r: Option<(&[u8], u64)>)
        ensures
            match model_get(art_model(*self), key@, depth as nat) {
                Some((v, t)) => r matches Some((x, u)) && x@ == v && u == t,
                None => r is None,
            },
        decreases self,
    {
        match self {
            ArtNode::Leaf { key: k, value, txid } => {
                assert(art_model(*self) == ArtModel::Leaf(k@, value@, *txid));
                if bytes_equal(k.as_slice(), key) {
                    assert(model_get(art_model(*self), key@, depth as nat) == Some((value@, *txid)));
                    let r = Some((value.as_slice(), *txid));
                    assert(r matches Some((x, u)) && x@ == value@ && u == *txid);
                    r
                } else {
                    assert(model_get(art_model(*self), key@, depth as nat) is None);
                    None
                }
            },
            ArtNode::Inner { prefix, terminal, children } => {
                if key.len() < prefix.len() || depth > key.len() - prefix.len() {
                    return None;
                }
                let pe = depth + prefix.len();
                if !range_equals(key, depth, prefix.as_slice()) {
                    return None;
                }
                if pe == key.len() {
                    return match terminal {
                        Some((k, v, x)) => if bytes_equal(k.as_slice(), key) {
                            Some((v.as_slice(), *x))
                        } else {
                            None
                        },
                        None => None,
                    };
                }
                match child_position(children, key[pe]) {
                    Some(i) => {
                        proof {
                            lemma_children_model(children@);
                            assert(decreases_to!(*self => *children));
                            assert(decreases_to!(*children => children@));
                            assert(decreases_to!(children@ => children@[i as int]));
                            assert(decreases_to!(children@[i as int] => children@[i as int].1));
                        }
                        let ghost cs = children_model(children@);
                        assert(art_model(*self) == ArtModel::Inner(prefix@, term_model(*terminal), cs));
                        assert(cs[i as int].1 == art_model(*children@[i as int].1));
                        assert(key@.len() > pe);
                        assert(key@.subrange(depth as int, pe as int) == prefix@);
                        assert(find_child(cs, key@[pe as int], 0) == Some(i as nat));
                        assert(i < cs.len());
                        let r = children[i].1.get(key, pe + 1);
                        assert(model_get(art_model(*self), key@, depth as nat) == model_get(
                            cs[i as int].1,
                            key@,
                            (pe + 1) as nat,
                        ));
                        r
                    },
                    None => {
                        assert(model_get(art_model(*self), key@, depth as nat) is None);
                        None
                    },
                }
            },
        }
    }

    /// The tree after inserting `key` at `depth`, and whether the key is
    /// new.
    fn inserted(node: ArtNode, key: Vec<u8>, value: Vec<u8>, txid: u64, depth: usize) -> (r: (ArtNode, bool))
        requires
            model_wf(art_model(node), depth as nat),
            depth <= key@.len(),
        ensures
            (art_model(r.0), r.1) == model_insert(art_model(node), key@, value@, txid, depth as nat),
            model_wf(art_model(r.0), depth as nat),
        decreases node,
    {
        let ghost gnode = node;
        let ghost gkey = key@;
        let ghost gvalue = value@;
        match node {
            ArtNode::Leaf { key: ek, value: ev, txid: et } => {
                if bytes_equal(ek.as_slice(), key.as_slice()) {
                    return (ArtNode::Leaf { key: ek, value, txid }, false);
                }
                let ghost gek = ek@;
                let ghost gev = ev@;
                let a = vstd::slice::slice_subrange(ek.as_slice(), depth, ek.len());
                let b = vstd::slice::slice_subrange(key.as_slice(), depth, key.len());
                assert(a@ =~= gek.skip(depth as int));
                assert(b@ =~= gkey.skip(depth as int));
                let c = common_prefix(a, b);
                proof {
                    lemma_common_len_props(a@, b@);
                }
                let d2 = depth + c;
                let prefix = copy_range(key.as_slice(), depth, d2);
                let klen = key.len();
                let eklen = ek.len();
                let mut children: Vec<(u8, Box<ArtNode>)> = Vec::new();
                let ghost mut olds: Seq<(u8, ArtModel)> = Seq::empty();
                let mut ek_term: Option<(Vec<u8>, Vec<u8>, u64)> = None;
                if eklen > d2 {
                    let byte = ek[d2];
                    let leaf = ArtNode::new_leaf(ek, ev, et);
                    proof {
                        lemma_children_push(children@, (byte, leaf));
                        olds = seq![(byte, ArtModel::Leaf(gek, gev, et))];
                    }
                    children.push((byte, leaf));
                } else {
                    ek_term = Some((ek, ev, et));
                }
                assert(children_model(children@) == olds);
                let mut term: Option<(Vec<u8>, Vec<u8>, u64)> = None;
                if klen > d2 {
                    let byte = key[d2];
                    proof {
                        if gek.len() > d2 {
                            assert(a@[c as int] == gek[d2 as int]);
                            assert(b@[c as int] == gkey[d2 as int]);
                        }
                    }
                    let leaf = ArtNode::new_leaf(key, value, txid);
                    proof {
                        lemma_children_push(children@, (byte, leaf));
                    }
                    children.push((byte, leaf));
                    assert(children_model(children@) =~= olds + seq![(byte, ArtModel::Leaf(gkey, gvalue, txid))]);
                    term = ek_term;
                } else {
                    assert(children_model(children@) =~= olds + Seq::<(u8, ArtModel)>::empty());
                    term = Some((key, value, txid));
                }
                proof {
                    let ncs = children_model(children@);
                    lemma_children_model(children@);
                    assert(prefix@.len() == c);
                    assert forall|x: int| 0 <= x < ncs.len() implies model_wf(#[trigger] ncs[x].1, (depth + c + 1) as nat) by {
                    }
                    lemma_children_wf(ncs, (depth + c + 1) as nat);
                    assert(bytes_distinct(ncs));
                    assert(term_model(term) == if gkey.len() == d2 {
                        Some((gkey, gvalue, txid))
                    } else if gek.len() == d2 {
                        Some((gek, gev, et))
                    } else {
                        None
                    });
                }
                let r = ArtNode::Inner { prefix, terminal: term, children };
                (r, true)
            },
            ArtNode::Inner { prefix, terminal, children } => {
                let mut children = children;
                let rest_key = vstd::slice::slice_subrange(key.as_slice(), depth, key.len());
                assert(rest_key@ =~= gkey.skip(depth as int));
                let c = common_prefix(prefix.as_slice(), rest_key);
                proof {
                    lemma_common_len_props(prefix@, rest_key@);
                }
                if c < prefix.len() {
                    proof {
                        assert(gkey.subrange(depth as int, (depth + c) as int) =~= rest_key@.take(c as int));
                        if depth + c < gkey.len() {
                            assert(rest_key@[c as int] == gkey[depth + c]);
                        }
                    }
                    let r = Self::split(prefix, terminal, children, c, key, value, txid, depth);
                    return (r, true);
                }
                let pe = depth + prefix.len();
                proof {
                    assert(gkey.subrange(depth as int, pe as int) =~= rest_key@.take(c as int));
                    assert(prefix@.take(c as int) =~= prefix@);
                }
                let ghost cs = children_model(children@);
                proof {
                    lemma_children_model(children@);
                    assert(art_model(gnode) == ArtModel::Inner(prefix@, term_model(terminal), cs));
                    lemma_wf_inner(prefix@, term_model(terminal), cs, depth as nat);
                }
                if pe == key.len() {
                    let fresh = terminal.is_none();
                    return (ArtNode::Inner { prefix, terminal: Some((key, value, txid)), children }, fresh);
                }
                let byte = key[pe];
                match child_position(&children, byte) {
                    Some(i) => {
                        proof {
                            lemma_find_child_some(cs, byte, 0);
                        }
                        let ghost old_children = children@;
                        let (cb, child) = children.remove(i);
                        proof {
                            assert(decreases_to!(gnode => gnode->children));
                            assert(decreases_to!(gnode->children => gnode->children@));
                            assert(decreases_to!(gnode->children@ => gnode->children@[i as int]));
                            assert(decreases_to!(gnode->children@[i as int] => gnode->children@[i as int].1));
                            assert(model_wf(cs[i as int].1, (pe + 1) as nat));
                        }
                        let (c2, added) = Self::inserted(*child, key, value, txid, pe + 1);
                        let boxed = Box::new(c2);
                        children.insert(i, (cb, boxed));
                        proof {
                            assert(children@ =~= old_children.update(i as int, (cb, boxed)));
                            lemma_children_update(old_children, i as int, (cb, boxed));
                            let ncs = children_model(children@);
                            assert(ncs == cs.update(i as int, (byte, art_model(c2))));
                            assert forall|x: int, y: int| 0 <= x < y < ncs.len() implies (#[trigger] ncs[x]).0 != (
                            #[trigger] ncs[y]).0 by {
                                assert(cs[x].0 != cs[y].0);
                            }
                            assert forall|x: int| 0 <= x < ncs.len() implies model_wf(
                                #[trigger] ncs[x].1,
                                (depth + prefix@.len() + 1) as nat,
                            ) by {
                                if x != i {
                                    assert(ncs[x] == cs[x]);
                                }
                            }
                            lemma_children_wf(ncs, (depth + prefix@.len() + 1) as nat);
                        }
                        (ArtNode::Inner { prefix, terminal, children }, added)
                    },
                    None => {
                        proof {
                            lemma_find_child_none(cs, byte, 0);
                        }
                        let leaf = ArtNode::new_leaf(key, value, txid);
                        proof {
                            lemma_children_push(children@, (byte, leaf));
                        }
                        children.push((byte, leaf));
                        proof {
                            let ncs = children_model(children@);
                            assert(ncs == cs.push((byte, ArtModel::Leaf(gkey, gvalue, txid))));
                            assert forall|x: int, y: int| 0 <= x < y < ncs.len() implies (#[trigger] ncs[x]).0 != (
                            #[trigger] ncs[y]).0 by {
                                if y == ncs.len() - 1 {
                                    assert(cs[x].0 != byte);
                                } else {
                                    assert(cs[x].0 != cs[y].0);
                                }
                            }
                            assert forall|x: int| 0 <= x < ncs.len() implies model_wf(
                                #[trigger] ncs[x].1,
                                (depth + prefix@.len() + 1) as nat,
                            ) by {
                                if x < cs.len() {
                                    assert(ncs[x] == cs[x]);
                                }
                            }
                            lemma_children_wf(ncs, (depth + prefix@.len() + 1) as nat);
                        }
                        (ArtNode::Inner { prefix, terminal, children }, true)
                    },
                }
            },
        }
    }

    /// Split the inner node (`prefix`, `terminal`, `children`) at `depth`
    /// where `key` parts from its prefix after `c` bytes (see
    /// `split_inner`).
    fn split(
        prefix: Vec<u8>,
        terminal: Option<(Vec<u8>, Vec<u8>, u64)>,
        children: Vec<(u8, Box<ArtNode>)>,
        c: usize,
        key: Vec<u8>,
        value: Vec<u8>,
        txid: u64,
        depth: usize,
    ) -> (r: ArtNode)
        requires
            model_wf(ArtModel::Inner(prefix@, term_model(terminal), children_model(children@)), depth as nat),
            c < prefix@.len(),
            depth + c <= key@.len(),
            prefix@.take(c as int) == key@.subrange(depth as int, depth + c),
            depth + c < key@.len() ==> prefix@[c as int] != key@[depth + c],
        ensures
            art_model(r) == split_inner(
                prefix@,
                term_model(terminal),
                children_model(children@),
                c as nat,
                key@,
                value@,
                txid,
                depth as nat,
            ),
            model_wf(art_model(r), depth as nat),
    {
        let ghost cs = children_model(children@);
        let ghost t = term_model(terminal);
        let ghost gkey = key@;
        let plen = prefix.len();
        let klen = key.len();
        let top = copy_range(prefix.as_slice(), 0, c);
        let rest = copy_range(prefix.as_slice(), c + 1, plen);
        let pb = prefix[c];
        let old_node = Box::new(ArtNode::Inner { prefix: rest, terminal, children });
        let mut ch: Vec<(u8, Box<ArtNode>)> = Vec::new();
        proof {
            assert(children_model(ch@) =~= Seq::<(u8, ArtModel)>::empty());
            lemma_children_push(ch@, (pb, old_node));
        }
        ch.push((pb, old_node));
        proof {
            assert(art_model(*old_node) == ArtModel::Inner(rest@, t, cs));
            assert(rest@ =~= prefix@.skip(c + 1));
            assert(top@ =~= prefix@.take(c as int));
            lemma_wf_inner(prefix@, t, cs, depth as nat);
            lemma_children_wf(cs, (depth + prefix@.len() + 1) as nat);
        }
        if depth + c == klen {
            proof {
                let ncs = children_model(ch@);
                assert(ncs =~= seq![(pb, ArtModel::Inner(rest@, t, cs))]);
                assert(model_wf(ncs[0].1, (depth + c + 1) as nat));
                lemma_children_wf(ncs, (depth + c + 1) as nat);
            }
            ArtNode::Inner { prefix: top, terminal: Some((key, value, txid)), children: ch }
        } else {
            let kb = key[depth + c];
            let leaf = ArtNode::new_leaf(key, value, txid);
            proof {
                lemma_children_push(ch@, (kb, leaf));
            }
            ch.push((kb, leaf));
            proof {
                let ncs = children_model(ch@);
                assert(ncs =~= seq![(pb, ArtModel::Inner(rest@, t, cs))].push((kb, ArtModel::Leaf(gkey, value@, txid))));
                assert(bytes_distinct(ncs));
                assert(model_wf(ncs[0].1, (depth + c + 1) as nat));
                assert(model_wf(ncs[1].1, (depth + c + 1) as nat));
                lemma_children_wf(ncs, (depth + c + 1) as nat);
            }
            ArtNode::Inner { prefix: top, terminal: None, children: ch }
        }
    }

    /// Insert `key` into this subtree at `depth`; `true` when the key is new
    /// (see `model_insert`).
    pub fn insert(&mut self, key: Vec<u8>, value: Vec<u8>, txid: u64, depth: usize) -> (added: bool)
        requires
            model_wf(art_model(*old(self)), depth as nat),
            depth <= key@.len(),
        ensures
            (art_model(*final(self)), added) == model_insert(art_model(*old(self)), key@, value@, txid, depth as nat),
            model_wf(art_model(*final(self)), depth as nat),
    {
        let mut node = ArtNode::Leaf { key: Vec::new(), value: Vec::new(), txid: 0 };
        std::mem::swap(self, &mut node);
        let (n, added) = Self::inserted(node, key, value, txid, depth);
        *self = n;
        added
    }

    /// The tree after removing `key` at `depth`, and the value removed.
    fn removed(node: ArtNode, key: &[u8], depth: usize) -> (r: (ArtNode, Option<Vec<u8>>))
        requires
            model_wf(art_model(node), depth as nat),
        ensures
            art_model(r.0) == model_remove(art_model(node), key@, depth as nat).0,
            match model_remove(art_model(node), key@, depth as nat).1 {
                Some(v) => r.1 matches Some(x) && x@ == v,
                None => r.1 is None,
            },
            model_wf(art_model(r.0), depth as nat),
        decreases node,
    {
        let ghost gnode = node;
        match node {
            ArtNode::Leaf { key: k, value, txid } => {
                if bytes_equal(k.as_slice(), key) {
                    let v = copy_range(value.as_slice(), 0, value.len());
                    assert(value@.subrange(0, value@.len() as int) =~= value@);
                    (ArtNode::Leaf { key: k, value, txid }, Some(v))
                } else {
                    (ArtNode::Leaf { key: k, value, txid }, None)
                }
            },
            ArtNode::Inner { prefix, terminal, children } => {
                let mut children = children;
                if key.len() < prefix.len() || depth > key.len() - prefix.len() {
                    return (ArtNode::Inner { prefix, terminal, children }, None);
                }
                let pe = depth + prefix.len();
                if !range_equals(key, depth, prefix.as_slice()) {
                    return (ArtNode::Inner { prefix, terminal, children }, None);
                }
                let ghost cs = children_model(children@);
                proof {
                    lemma_children_model(children@);
                    assert(art_model(gnode) == ArtModel::Inner(prefix@, term_model(terminal), cs));
                    lemma_wf_inner(prefix@, term_model(terminal), cs, depth as nat);
                }
                if pe == key.len() {
                    let hit = match &terminal {
                        Some((k, _, _)) => bytes_equal(k.as_slice(), key),
                        None => false,
                    };
                    if hit {
                        let v = match terminal {
                            Some((_, v, _)) => v,
                            None => Vec::new(),
                        };
                        return (ArtNode::Inner { prefix, terminal: None, children }, Some(v));
                    }
                    return (ArtNode::Inner { prefix, terminal, children }, None);
                }
                let byte = key[pe];
                match child_position(&children, byte) {
                    Some(i) => {
                        proof {
                            lemma_find_child_some(cs, byte, 0);
                        }
                        let ghost old_children = children@;
                        let (cb, child) = children.remove(i);
                        proof {
                            assert(decreases_to!(gnode => gnode->children));
                            assert(decreases_to!(gnode->children => gnode->children@));
                            assert(decreases_to!(gnode->children@ => gnode->children@[i as int]));
                            assert(decreases_to!(gnode->children@[i as int] => gnode->children@[i as int].1));
                        }
                        let (c2, res) = Self::removed(*child, key, pe + 1);
                        let is_leaf = match &c2 {
                            ArtNode::Leaf { .. } => true,
                            ArtNode::Inner { .. } => false,
                        };
                        if res.is_some() && is_leaf {
                            proof {
                                lemma_children_remove(old_children, i as int);
                                assert(children@ =~= old_children.remove(i as int));
                                let ncs = children_model(children@);
                                assert(ncs == cs.remove(i as int));
                                assert forall|x: int, y: int| 0 <= x < y < ncs.len() implies (#[trigger] ncs[x]).0
                                    != (#[trigger] ncs[y]).0 by {
                                    let xo = if x < i { x } else { x + 1 };
                                    let yo = if y < i { y } else { y + 1 };
                                    assert(ncs[x] == cs[xo]);
                                    assert(ncs[y] == cs[yo]);
                                }
                                assert forall|x: int| 0 <= x < ncs.len() implies model_wf(
                                    #[trigger] ncs[x].1,
                                    (depth + prefix@.len() + 1) as nat,
                                ) by {
                                    let xo = if x < i { x } else { x + 1 };
                                    assert(ncs[x] == cs[xo]);
                                }
                                lemma_children_wf(ncs, (depth + prefix@.len() + 1) as nat);
                            }
                            (ArtNode::Inner { prefix, terminal, children }, res)
                        } else {
                            let boxed = Box::new(c2);
                            children.insert(i, (cb, boxed));
                            proof {
                                assert(children@ =~= old_children.update(i as int, (cb, boxed)));
                                lemma_children_update(old_children, i as int, (cb, boxed));
                                let ncs = children_model(children@);
                                assert(ncs == cs.update(i as int, (cs[i as int].0, art_model(c2))));
                                assert forall|x: int, y: int| 0 <= x < y < ncs.len() implies (#[trigger] ncs[x]).0
                                    != (#[trigger] ncs[y]).0 by {
                                    assert(cs[x].0 != cs[y].0);
                                }
                                assert forall|x: int| 0 <= x < ncs.len() implies model_wf(
                                    #[trigger] ncs[x].1,
                                    (depth + prefix@.len() + 1) as nat,
                                ) by {
                                    if x != i {
                                        assert(ncs[x] == cs[x]);
                                    }
                                }
                                lemma_children_wf(ncs, (depth + prefix@.len() + 1) as nat);
                            }
                            (ArtNode::Inner { prefix, terminal, children }, res)
                        }
                    },
                    None => (ArtNode::Inner { prefix, terminal, children }, None),
                }
            },
        }
    }

    /// Remove `key` from this subtree at `depth`, returning its value (see
    /// `model_remove`).
    pub fn remove(&mut self, key: &[u8], depth: usize) -> (r: Option<Vec<u8>>)
        requires
            model_wf(art_model(*old(self)), depth as nat),
        ensures
            art_model(*final(self)) == model_remove(art_model(*old(self)), key@, depth as nat).0,
            match model_remove(art_model(*old(self)), key@, depth as nat).1 {
                Some(v) => r matches Some(x) && x@ == v,
                None => r is None,
            },
            model_wf(art_model(*final(self)), depth as nat),
    {
        let mut node = ArtNode::Leaf { key: Vec::new(), value: Vec::new(), txid: 0 };
        std::mem::swap(self, &mut node);
        let (n, r) = Self::removed(node, key, depth);
        *self = n;
        r
    }

    /// Append every entry of this subtree to `out`, children in order.
    pub fn collect_all(&self, out: &mut Vec<(Vec<u8>, Vec<u8>, u64)>)
        ensures
            entries_view(final(out)@) == entries_view(old(out)@) + model_entries(art_model(*self)),
        decreases self,
    {
        match self {
            ArtNode::Leaf { key, value, txid } => {
                let k = copy_range(key.as_slice(), 0, key.len());
                let v = copy_range(value.as_slice(), 0, value.len());
                assert(key@.subrange(0, key@.len() as int) =~= key@);
                assert(value@.subrange(0, value@.len() as int) =~= value@);
                let ghost before = out@;
                out.push((k, v, *txid));
                assert(entries_view(out@) =~= entries_view(before) + model_entries(art_model(*self)));
            },
            ArtNode::Inner { prefix, terminal, children } => {
                let ghost cs = children_model(children@);
                let ghost before = entries_view(out@);
                match terminal {
                    Some((k, v, x)) => {
                        let kc = copy_range(k.as_slice(), 0, k.len());
                        let vc = copy_range(v.as_slice(), 0, v.len());
                        assert(k@.subrange(0, k@.len() as int) =~= k@);
                        assert(v@.subrange(0, v@.len() as int) =~= v@);
                        out.push((kc, vc, *x));
                    },
                    None => {},
                }
                let ghost start = entries_view(out@);
                assert(start =~= before + term_entries(term_model(*terminal)));
                proof {
                    lemma_children_model(children@);
                    assert(cs.take(0) =~= Seq::<(u8, ArtModel)>::empty());
                }
                let mut i: usize = 0;
                while i < children.len()
                    invariant
                        i <= children@.len(),
                        *self is Inner,
                        self->children == *children,
                        cs == children_model(children@),
                        cs.len() == children@.len(),
                        forall|j: int| 0 <= j < cs.len() ==> #[trigger] cs[j] == (children@[j].0, art_model(*children@[j].1)),
                        entries_view(out@) == start + children_entries(cs.take(i as int)),
                    decreases children@.len() - i,
                {
                    proof {
                        assert(decreases_to!(*self => self->children));
                        assert(decreases_to!(self->children => self->children@));
                        assert(decreases_to!(self->children@ => self->children@[i as int]));
                        assert(decreases_to!(self->children@[i as int] => self->children@[i as int].1));
                    }
                    children[i].1.collect_all(out);
                    proof {
                        assert(cs.take(i + 1).drop_last() =~= cs.take(i as int));
                        assert(cs.take(i + 1).last() == cs[i as int]);
                    }
                    i = i + 1;
                }
                assert(cs.take(i as int) =~= cs);
                assert(entries_view(out@) =~= before + model_entries(art_model(*self)));
            },
        }
    }
}

/// What a list of collected entries denotes.
pub open spec fn entries_view(s: Seq<(Vec<u8>, Vec<u8>, u64)>) -> Seq<(Seq<u8>, Seq<u8>, u64)> {
    s.map_values(|e: (Vec<u8>, Vec<u8>, u64)| (e.0@, e.1@, e.2))
}

impl ArtNode {
    /// The number of entries.
    pub fn count(&self) -> (n: usize)
        requires
            model_entries(art_model(*self)).len() <= usize::MAX,
        ensures
            n == model_entries(art_model(*self)).len(),
        decreases self,
    {
        match self {
            ArtNode::Leaf { .. } => 1,
            ArtNode::Inner { prefix, terminal, children } => {
                let ghost cs = children_model(children@);
                proof {
                    lemma_children_model(children@);
                    assert(cs.take(0) =~= Seq::<(u8, ArtModel)>::empty());
                }
                let own: usize = match terminal {
                    Some(_) => 1,
                    None => 0,
                };
                let mut total: usize = 0;
                let mut i: usize = 0;
                while i < children.len()
                    invariant
                        i <= children@.len(),
                        *self is Inner,
                        self->children == *children,
                        cs == children_model(children@),
                        cs.len() == children@.len(),
                        forall|j: int| 0 <= j < cs.len() ==> #[trigger] cs[j] == (children@[j].0, art_model(*children@[j].1)),
                        children_entries(cs).len() + own <= usize::MAX,
                        own == term_entries(term_model(*terminal)).len(),
                        *terminal == self->terminal,
                        total == children_entries(cs.take(i as int)).len(),
                    decreases children@.len() - i,
                {
                    proof {
                        assert(decreases_to!(*self => self->children));
                        assert(decreases_to!(self->children => self->children@));
                        assert(decreases_to!(self->children@ => self->children@[i as int]));
                        assert(decreases_to!(self->children@[i as int] => self->children@[i as int].1));
                        assert(cs.take(i + 1).drop_last() =~= cs.take(i as int));
                        assert(cs.take(i + 1).last() == cs[i as int]);
                        lemma_children_entries_prefix(cs, i as int + 1);
                    }
                    let c = children[i].1.count();
                    total = total + c;
                    i = i + 1;
                }
                assert(cs.take(i as int) =~= cs);
                total + own
            },
        }
    }
}

/// A prefix of the children has no more entries than all of them.
proof fn lemma_children_entries_prefix(cs: Seq<(u8, ArtModel)>, n: int)
    requires
        0 <= n <= cs.len(),
    ensures
        children_entries(cs.take(n)).len() <= children_entries(cs).len(),
    decreases cs.len() - n,
{
    if n < cs.len() {
        lemma_children_entries_prefix(cs, n + 1);
        assert(cs.take(n + 1).drop_last() =~= cs.take(n));
    } else {
        assert(cs.take(n) =~= cs);
    }
}


// ── Index ─────────────────────────────────────────────────────────────────

/// The root after inserting into an index whose root is `root`: a first key
/// becomes a leaf; otherwise as `model_insert` at depth 0.
pub open spec fn root_insert(root: Option<ArtModel>, key: Seq<u8>, value: Seq<u8>, txid: u64) -> (ArtModel, bool) {
    match root {
        None => (ArtModel::Leaf(key, value, txid), true),
        Some(m) => model_insert(m, key, value, txid, 0),
    }
}

/// The root after removing `key` from an index whose root is `root`, and
/// the value removed: as `model_remove` at depth 0, except that a root leaf
/// holding the key is detached, leaving the index without a tree.
pub open spec fn root_remove(root: Option<ArtModel>, key: Seq<u8>) -> (Option<ArtModel>, Option<Seq<u8>>) {
    match root {
        None => (None, None),
        Some(m) => {
            let r = model_remove(m, key, 0);
            if r.1 is Some && r.0 is Leaf {
                (None, r.1)
            } else {
                (Some(r.0), r.1)
            }
        },
    }
}

/// The value and transaction id an index whose root is `root` holds under
/// `key`.
pub open spec fn root_get(root: Option<ArtModel>, key: Seq<u8>) -> Option<(Seq<u8>, u64)> {
    match root {
        Some(m) => model_get(m, key, 0),
        None => None,
    }
}

/// The approximate bytes an entry takes: key, value and 16 bytes overhead.
pub open spec fn entry_size(key: Seq<u8>, value: Seq<u8>) -> nat {
    key.len() + value.len() + 16
}

/// An ART index (tier 0), bounded by an approximate byte size: when the
/// size reaches `max_size` the tier counts as full.
pub struct ArtIndex {
    root: Option<Box<ArtNode>>,
    byte_size: usize,
    max_size: usize,
    count: usize,
    /// Index name.
    pub name: String,
}

impl ArtIndex {
    /// The tree, if any key was ever inserted.
    pub closed spec fn spec_root(&self) -> Option<ArtModel> {
        match self.root {
            Some(n) => Some(art_model(*n)),
            None => None,
        }
    }

    /// Approximate byte size of what was inserted.
    pub closed spec fn spec_byte_size(&self) -> usize {
        self.byte_size
    }

    /// The index name.
    pub closed spec fn spec_name(&self) -> Seq<char> {
        self.name@
    }

    /// Byte size at which the tier is full.
    pub closed spec fn spec_max_size(&self) -> usize {
        self.max_size
    }

    /// Number of keys counted as inserted and not removed.
    pub closed spec fn spec_count(&self) -> usize {
        self.count
    }

    /// The tree is well-formed.
    pub closed spec fn wf(&self) -> bool {
        match self.spec_root() {
            Some(m) => model_wf(m, 0),
            None => true,
        }
    }

    /// An empty index.
    pub fn new(name: String, max_size: usize) -> (r: Self)
        ensures
            r.wf(),
            r.spec_root() is None,
            r.spec_byte_size() == 0,
            r.spec_count() == 0,
            r.spec_max_size() == max_size,
            r.spec_name() == name@,
    {
        ArtIndex { root: None, byte_size: 0, max_size, count: 0, name }
    }

    /// Insert `key` with `value` and `txid`; `true` when the key is new, in
    /// which case the count grows by one and the byte size by `entry_size`.
    pub fn insert(&mut self, key: Vec<u8>, value: Vec<u8>, txid: u64) -> (added: bool)
        requires
            old(self).wf(),
            old(self).spec_byte_size() + entry_size(key@, value@) <= usize::MAX,
            old(self).spec_count() < usize::MAX,
        ensures
            final(self).wf(),
            (final(self).spec_root(), added) == ({
                let r = root_insert(old(self).spec_root(), key@, value@, txid);
                (Some(r.0), r.1)
            }),
            final(self).spec_count() == old(self).spec_count() + if added { 1int } else { 0int },
            final(self).spec_byte_size() == old(self).spec_byte_size() + if added {
                entry_size(key@, value@) as int
            } else {
                0int
            },
            final(self).spec_max_size() == old(self).spec_max_size(),
    {
        let size_delta = key.len() + value.len() + 16;
        let added = match self.root.take() {
            None => {
                self.root = Some(ArtNode::new_leaf(key, value, txid));
                true
            },
            Some(mut node) => {
                let a = node.insert(key, value, txid, 0);
                self.root = Some(node);
                a
            },
        };
        if added {
            self.byte_size = self.byte_size + size_delta;
            self.count = self.count + 1;
        }
        added
    }

    /// The value and transaction id stored under `key`.
    pub fn get(&self, key: &[u8]) -> (r: Option<(Vec<u8>, u64)>)
        ensures
            match self.spec_root() {
                Some(m) => match model_get(m, key@, 0) {
                    Some((v, t)) => r matches Some((x, u)) && x@ == v && u == t,
                    None => r is None,
                },
                None => r is None,
            },
    {
        match &self.root {
            None => None,
            Some(node) => match node.get(key, 0) {
                Some((v, t)) => {
                    let c = copy_range(v, 0, v.len());
                    assert(v@.subrange(0, v@.len() as int) =~= v@);
                    Some((c, t))
                },
                None => None,
            },
        }
    }

    /// Remove `key`, returning its value (see `root_remove`); the count and
    /// byte size shrink (saturating at zero) when a value is returned.
    pub fn remove(&mut self, key: &[u8]) -> (r: Option<Vec<u8>>)
        requires
            old(self).wf(),
        ensures
            final(self).wf(),
            final(self).spec_root() == root_remove(old(self).spec_root(), key@).0,
            match root_remove(old(self).spec_root(), key@).1 {
                Some(v) => r matches Some(x) && x@ == v,
                None => r is None,
            },
            r is Some ==> final(self).spec_count() == if old(self).spec_count() > 0 {
                old(self).spec_count() - 1
            } else {
                0
            },
            r is None ==> final(self).spec_count() == old(self).spec_count(),
            r is None ==> final(self).spec_byte_size() == old(self).spec_byte_size(),
            final(self).spec_max_size() == old(self).spec_max_size(),
    {
        let val = match self.root.take() {
            None => None,
            Some(mut node) => {
                let v = node.remove(key, 0);
                let is_leaf = match &*node {
                    ArtNode::Leaf { .. } => true,
                    ArtNode::Inner { .. } => false,
                };
                if !(v.is_some() && is_leaf) {
                    self.root = Some(node);
                }
                v
            },
        };
        match &val {
            Some(v) => {
                let delta = key.len().saturating_add(v.len()).saturating_add(16);
                self.byte_size = self.byte_size.saturating_sub(delta);
                self.count = self.count.saturating_sub(1);
            },
            None => {},
        }
        val
    }

    /// Number of keys counted as inserted and not removed.
    pub fn len(&self) -> (n: usize)
        ensures
            n == self.spec_count(),
    {
        self.count
    }

    /// Whether the count is zero.
    pub fn is_empty(&self) -> (b: bool)
        ensures
            b == (self.spec_count() == 0),
    {
        self.len() == 0
    }

    /// Whether the tier is full: its byte size has reached the maximum.
    pub fn is_full(&self) -> (b: bool)
        ensures
            b == (self.spec_byte_size() >= self.spec_max_size()),
    {
        self.byte_size >= self.max_size
    }

    /// Approximate byte size.
    pub fn byte_size(&self) -> (n: usize)
        ensures
            n == self.spec_byte_size(),
    {
        self.byte_size
    }

    /// Every entry (key, value, transaction id), children in order.
    pub fn scan_all(&self) -> (r: Vec<(Vec<u8>, Vec<u8>, u64)>)
        ensures
            entries_view(r@) == match self.spec_root() {
                Some(m) => model_entries(m),
                None => Seq::empty(),
            },
    {
        let mut out: Vec<(Vec<u8>, Vec<u8>, u64)> = Vec::new();
        assert(entries_view(out@) =~= Seq::<(Seq<u8>, Seq<u8>, u64)>::empty());
        match &self.root {
            Some(node) => {
                node.collect_all(&mut out);
                assert(entries_view(out@) =~= model_entries(art_model(**node)));
            },
            None => {},
        }
        out
    }

    /// Take every entry out (for eviction to the next tier), leaving the
    /// index empty.
    pub fn drain(&mut self) -> (r: Vec<(Vec<u8>, Vec<u8>, u64)>)
        ensures
            entries_view(r@) == match old(self).spec_root() {
                Some(m) => model_entries(m),
                None => Seq::empty(),
            },
            final(self).wf(),
            final(self).spec_root() is None,
            final(self).spec_byte_size() == 0,
            final(self).spec_count() == 0,
            final(self).spec_max_size() == old(self).spec_max_size(),
    {
        let entries = self.scan_all();
        self.root = None;
        self.byte_size = 0;
        self.count = 0;
        entries
    }
}


// ── Laws ──────────────────────────────────────────────────────────────────

/// A search from `i` finds the first child keyed `b` at or after `i`.
proof fn lemma_find_child_first(cs: Seq<(u8, ArtModel)>, b: u8, i: nat, k: nat)
    requires
        i <= k < cs.len(),
        cs[k as int].0 == b,
        forall|j: int| i <= j < k ==> cs[j].0 != b,
    ensures
        find_child(cs, b, i) == Some(k),
    decreases k - i,
{
    if i < k {
        lemma_find_child_first(cs, b, i + 1, k);
    }
}

/// A removal that removes nothing leaves the tree as it was.
pub proof fn lemma_remove_absent_unchanged(m: ArtModel, key: Seq<u8>, depth: nat)
    ensures
        model_remove(m, key, depth).1 is None ==> model_remove(m, key, depth).0 == m,
    decreases m,
{
    match m {
        ArtModel::Leaf(_, _, _) => {},
        ArtModel::Inner(p, t, cs) => {
            let pe = depth + p.len();
            if key.len() > pe && key.subrange(depth as int, pe as int) == p {
                match find_child(cs, key[pe as int], 0) {
                    Some(i) => if i < cs.len() {
                        lemma_remove_absent_unchanged(cs[i as int].1, key, pe + 1);
                        assert(cs.update(i as int, (cs[i as int].0, cs[i as int].1)) =~= cs);
                    },
                    None => {},
                }
            }
        },
    }
}

/// Removing a key returns exactly the value a lookup of it gives.
pub proof fn lemma_remove_returns_lookup(m: ArtModel, key: Seq<u8>, depth: nat)
    ensures
        model_remove(m, key, depth).1 == match model_get(m, key, depth) {
            Some((v, _)) => Some(v),
            None => None::<Seq<u8>>,
        },
    decreases m,
{
    match m {
        ArtModel::Leaf(_, _, _) => {},
        ArtModel::Inner(p, t, cs) => {
            let pe = depth + p.len();
            if key.len() > pe && key.subrange(depth as int, pe as int) == p {
                match find_child(cs, key[pe as int], 0) {
                    Some(i) => if i < cs.len() {
                        lemma_remove_returns_lookup(cs[i as int].1, key, pe + 1);
                    },
                    None => {},
                }
            }
        },
    }
}

/// After a key is removed below an inner node, looking it up finds
/// nothing: the entry that held it has been dropped or its leaf pruned.
pub proof fn lemma_lookup_after_remove(m: ArtModel, key: Seq<u8>, depth: nat)
    requires
        m is Inner,
        model_wf(m, depth),
    ensures
        model_get(model_remove(m, key, depth).0, key, depth) is None,
    decreases m,
{
    match m {
        ArtModel::Leaf(_, _, _) => {},
        ArtModel::Inner(p, t, cs) => {
            let pe = depth + p.len();
            if key.len() > pe && key.subrange(depth as int, pe as int) == p {
                let b = key[pe as int];
                match find_child(cs, b, 0) {
                    Some(i) => if i < cs.len() {
                        lemma_find_child_some(cs, b, 0);
                        lemma_wf_inner(p, t, cs, depth);
                        let c = cs[i as int].1;
                        let r = model_remove(c, key, pe + 1);
                        lemma_remove_returns_lookup(c, key, pe + 1);
                        lemma_remove_absent_unchanged(c, key, pe + 1);
                        if r.1 is Some && r.0 is Leaf {
                            let ncs = cs.remove(i as int);
                            assert forall|j: int| 0 <= j < ncs.len() implies ncs[j].0 != b by {
                                let jo = if j < i { j } else { j + 1 };
                                assert(ncs[j] == cs[jo]);
                                if jo != i {
                                    assert(cs[jo].0 != cs[i as int].0);
                                }
                            }
                            if find_child(ncs, b, 0) is Some {
                                lemma_find_child_some(ncs, b, 0);
                            }
                        } else {
                            let ncs = cs.update(i as int, (cs[i as int].0, r.0));
                            lemma_find_child_first(ncs, b, 0, i);
                            if r.1 is Some {
                                match c {
                                    ArtModel::Leaf(_, _, _) => {},
                                    ArtModel::Inner(_, _, _) => {
                                        lemma_lookup_after_remove(c, key, pe + 1);
                                    },
                                }
                            }
                        }
                    },
                    None => {},
                }
            }
        },
    }
}

/// Two keys that agree before `depth`, agree with `p` from `depth` on and
/// have the same length `depth + p.len()` are the same key.
proof fn lemma_same_path(a: Seq<u8>, b: Seq<u8>, p: Seq<u8>, depth: nat)
    requires
        a.len() == depth + p.len(),
        b.len() == depth + p.len(),
        a.take(depth as int) == b.take(depth as int),
        a.subrange(depth as int, a.len() as int) == p,
        b.subrange(depth as int, b.len() as int) == p,
    ensures
        a == b,
{
    assert(a =~= a.take(depth as int) + a.subrange(depth as int, a.len() as int));
    assert(b =~= b.take(depth as int) + b.subrange(depth as int, b.len() as int));
}

/// After inserting `key` at `depth`, looking it up gives the inserted value
/// and transaction id.
pub proof fn lemma_lookup_after_insert(m: ArtModel, key: Seq<u8>, value: Seq<u8>, txid: u64, depth: nat)
    requires
        model_wf(m, depth),
        depth <= key.len(),
    ensures
        model_get(model_insert(m, key, value, txid, depth).0, key, depth) == Some((value, txid)),
    decreases m,
{
    match m {
        ArtModel::Leaf(ek, ev, et) => {
            if ek != key {
                let a = ek.skip(depth as int);
                let bb = key.skip(depth as int);
                lemma_common_len_props(a, bb);
                let c = common_len(a, bb);
                let d2 = depth + c;
                let p2 = key.subrange(depth as int, d2 as int);
                assert(p2 =~= bb.take(c as int));
                let nc: Seq<(u8, ArtModel)> = if key.len() > d2 {
                    seq![(key[d2 as int], ArtModel::Leaf(key, value, txid))]
                } else {
                    Seq::empty()
                };
                let oc: Seq<(u8, ArtModel)> = if ek.len() > d2 {
                    seq![(ek[d2 as int], ArtModel::Leaf(ek, ev, et))]
                } else {
                    Seq::empty()
                };
                let cs2 = oc + nc;
                let term = if key.len() == d2 {
                    Some((key, value, txid))
                } else if ek.len() == d2 {
                    Some((ek, ev, et))
                } else {
                    None
                };
                assert(model_insert(m, key, value, txid, depth).0 == ArtModel::Inner(p2, term, cs2));
                assert(p2.len() == c);
                assert(key.subrange(depth as int, (depth + p2.len()) as int) == p2);
                if key.len() > d2 {
                    if ek.len() > d2 {
                        assert(a[c as int] == ek[d2 as int]);
                        assert(bb[c as int] == key[d2 as int]);
                        assert(cs2[0].0 != key[d2 as int]);
                        assert(cs2[1] == nc[0]);
                        lemma_find_child_first(cs2, key[d2 as int], 0, 1);
                    } else {
                        assert(cs2 =~= nc);
                        lemma_find_child_first(cs2, key[d2 as int], 0, 0);
                    }
                    let k = find_child(cs2, key[d2 as int], 0)->0;
                    assert(cs2[k as int].1 == ArtModel::Leaf(key, value, txid));
                    assert(model_get(cs2[k as int].1, key, d2 + 1) == Some((value, txid)));
                    assert(model_get(ArtModel::Inner(p2, term, cs2), key, depth) == Some((value, txid)));
                } else {
                    assert(model_get(ArtModel::Inner(p2, term, cs2), key, depth) == term_get(term, key));
                }
            } else {
                assert(model_insert(m, key, value, txid, depth).0 == ArtModel::Leaf(ek, value, txid));
            }
        },
        ArtModel::Inner(p, t, cs) => {
            let kd = key.skip(depth as int);
            lemma_common_len_props(p, kd);
            let c = common_len(p, kd);
            if c < p.len() {
                let d2 = depth + c;
                let top = p.take(c as int);
                let old: Seq<(u8, ArtModel)> = seq![(p[c as int], ArtModel::Inner(p.skip((c + 1) as int), t, cs))];
                assert(key.subrange(depth as int, d2 as int) =~= kd.take(c as int));
                assert(top.len() == c);
                if key.len() == d2 {
                    assert(model_insert(m, key, value, txid, depth).0 == ArtModel::Inner(top, Some((key, value, txid)), old));
                } else {
                    let cs2 = old.push((key[d2 as int], ArtModel::Leaf(key, value, txid)));
                    assert(model_insert(m, key, value, txid, depth).0 == ArtModel::Inner(top, None, cs2));
                    assert(kd[c as int] == key[d2 as int]);
                    lemma_find_child_first(cs2, key[d2 as int], 0, 1);
                    assert(model_get(cs2[1].1, key, d2 + 1) == Some((value, txid)));
                    assert(model_get(ArtModel::Inner(top, None, cs2), key, depth) == Some((value, txid)));
                }
            } else {
                let pe = depth + p.len();
                assert(key.subrange(depth as int, pe as int) =~= kd.take(c as int));
                assert(p.take(c as int) =~= p);
                if key.len() == pe {
                    assert(model_insert(m, key, value, txid, depth).0 == ArtModel::Inner(p, Some((key, value, txid)), cs));
                } else {
                    let b = key[pe as int];
                    lemma_wf_inner(p, t, cs, depth);
                    match find_child(cs, b, 0) {
                        Some(i) => {
                            lemma_find_child_some(cs, b, 0);
                            let r = model_insert(cs[i as int].1, key, value, txid, pe + 1);
                            lemma_lookup_after_insert(cs[i as int].1, key, value, txid, pe + 1);
                            let ncs = cs.update(i as int, (b, r.0));
                            lemma_find_child_first(ncs, b, 0, i);
                            assert(model_insert(m, key, value, txid, depth).0 == ArtModel::Inner(p, t, ncs));
                            assert(ncs[i as int].1 == r.0);
                            assert(model_get(ArtModel::Inner(p, t, ncs), key, depth) == model_get(r.0, key, pe + 1));
                        },
                        None => {
                            lemma_find_child_none(cs, b, 0);
                            let ncs = cs.push((b, ArtModel::Leaf(key, value, txid)));
                            lemma_find_child_first(ncs, b, 0, cs.len());
                            assert(model_insert(m, key, value, txid, depth).0 == ArtModel::Inner(p, t, ncs));
                            assert(ncs[cs.len() as int] == (b, ArtModel::Leaf(key, value, txid)));
                            assert(model_get(ArtModel::Leaf(key, value, txid), key, pe + 1) == Some((value, txid)));
                            assert(model_get(ArtModel::Inner(p, t, ncs), key, depth) == Some((value, txid)));
                        },
                    }
                }
            }
        },
    }
}

/// Among distinct children, the search finds the one keyed `b`.
proof fn lemma_find_child_at(cs: Seq<(u8, ArtModel)>, b: u8, k: int)
    requires
        bytes_distinct(cs),
        0 <= k < cs.len(),
        cs[k].0 == b,
    ensures
        find_child(cs, b, 0) == Some(k as nat),
{
    assert forall|j: int| 0 <= j < k implies cs[j].0 != b by {
        assert(cs[j].0 != cs[k].0);
    }
    lemma_find_child_first(cs, b, 0, k as nat);
}

/// The search depends on the children's bytes only.
proof fn lemma_find_child_same_keys(cs: Seq<(u8, ArtModel)>, ds: Seq<(u8, ArtModel)>, b: u8, i: nat)
    requires
        cs.len() == ds.len(),
        forall|j: int| 0 <= j < cs.len() ==> (#[trigger] cs[j]).0 == ds[j].0,
    ensures
        find_child(cs, b, i) == find_child(ds, b, i),
    decreases cs.len() - i,
{
    if i < cs.len() {
        assert(cs[i as int].0 == ds[i as int].0);
        lemma_find_child_same_keys(cs, ds, b, i + 1);
    }
}

/// Removing a key leaves the lookup of every other key as it was.
pub proof fn lemma_remove_keeps_others(m: ArtModel, key: Seq<u8>, other: Seq<u8>, depth: nat)
    requires
        model_wf(m, depth),
        other != key,
    ensures
        model_get(model_remove(m, key, depth).0, other, depth) == model_get(m, other, depth),
    decreases m,
{
    match m {
        ArtModel::Leaf(_, _, _) => {},
        ArtModel::Inner(p, t, cs) => {
            let pe = depth + p.len();
            if key.len() > pe && key.subrange(depth as int, pe as int) == p {
                let b = key[pe as int];
                match find_child(cs, b, 0) {
                    Some(i) => if i < cs.len() {
                        lemma_find_child_some(cs, b, 0);
                        lemma_wf_inner(p, t, cs, depth);
                        let c = cs[i as int].1;
                        let r = model_remove(c, key, pe + 1);
                        if other.len() > pe && other.subrange(depth as int, pe as int) == p {
                            let b2 = other[pe as int];
                            if r.1 is Some && r.0 is Leaf {
                                let ncs = cs.remove(i as int);
                                assert(c is Leaf);
                                if b2 == b {
                                    assert forall|j: int| 0 <= j < ncs.len() implies ncs[j].0 != b by {
                                        let jo = if j < i { j } else { j + 1 };
                                        assert(ncs[j] == cs[jo]);
                                        assert(cs[jo].0 != cs[i as int].0);
                                    }
                                    if find_child(ncs, b, 0) is Some {
                                        lemma_find_child_some(ncs, b, 0);
                                    }
                                } else {
                                    assert(bytes_distinct(ncs)) by {
                                        assert forall|x: int, y: int| 0 <= x < y < ncs.len() implies (
                                        #[trigger] ncs[x]).0 != (#[trigger] ncs[y]).0 by {
                                            let xo = if x < i { x } else { x + 1 };
                                            let yo = if y < i { y } else { y + 1 };
                                            assert(ncs[x] == cs[xo] && ncs[y] == cs[yo]);
                                        }
                                    }
                                    match find_child(cs, b2, 0) {
                                        Some(j) => {
                                            lemma_find_child_some(cs, b2, 0);
                                            let jn: int = if j < i { j as int } else { j - 1 };
                                            assert(ncs[jn] == cs[j as int]);
                                            lemma_find_child_at(ncs, b2, jn);
                                        },
                                        None => {
                                            lemma_find_child_none(cs, b2, 0);
                                            assert forall|j: int| 0 <= j < ncs.len() implies ncs[j].0 != b2 by {
                                                let jo = if j < i { j } else { j + 1 };
                                                assert(ncs[j] == cs[jo]);
                                            }
                                            if find_child(ncs, b2, 0) is Some {
                                                lemma_find_child_some(ncs, b2, 0);
                                            }
                                        },
                                    }
                                }
                            } else {
                                let ncs = cs.update(i as int, (cs[i as int].0, r.0));
                                lemma_find_child_same_keys(ncs, cs, b2, 0);
                                match find_child(cs, b2, 0) {
                                    Some(j) => {
                                        lemma_find_child_some(cs, b2, 0);
                                        if j == i {
                                            lemma_remove_keeps_others(c, key, other, pe + 1);
                                        }
                                    },
                                    None => {},
                                }
                            }
                        }
                    },
                    None => {},
                }
            }
        },
    }
}

/// Splitting an inner node leaves the lookup of every key but the new one
/// as it was.
proof fn lemma_split_keeps_lookups(
    p: Seq<u8>,
    t: Option<(Seq<u8>, Seq<u8>, u64)>,
    cs: Seq<(u8, ArtModel)>,
    c: nat,
    key: Seq<u8>,
    value: Seq<u8>,
    txid: u64,
    depth: nat,
    other: Seq<u8>,
)
    requires
        c < p.len(),
        depth + c <= key.len(),
        p.take(c as int) == key.subrange(depth as int, (depth + c) as int),
        depth + c < key.len() ==> p[c as int] != key[(depth + c) as int],
        other != key,
    ensures
        model_get(split_inner(p, t, cs, c, key, value, txid, depth), other, depth) == model_get(
            ArtModel::Inner(p, t, cs),
            other,
            depth,
        ),
{
    let d2 = depth + c;
    let pe = depth + p.len();
    let top = p.take(c as int);
    let rest = p.skip((c + 1) as int);
    let inner2 = ArtModel::Inner(rest, t, cs);
    let old: Seq<(u8, ArtModel)> = seq![(p[c as int], inner2)];
    let m = ArtModel::Inner(p, t, cs);
    let nt = if key.len() == d2 { Some((key, value, txid)) } else { None };
    let cs2 = if key.len() == d2 { old } else { old.push((key[d2 as int], ArtModel::Leaf(key, value, txid))) };
    assert(split_inner(p, t, cs, c, key, value, txid, depth) == ArtModel::Inner(top, nt, cs2));
    assert(p =~= top + seq![p[c as int]] + rest);
    assert(top.len() == c);
    assert(d2 + 1 + rest.len() == pe);
    assert(cs2[0].1 == inner2);
    if other.len() >= pe && other.subrange(depth as int, pe as int) == p {
        assert(other.subrange(depth as int, d2 as int) =~= top);
        assert(other[d2 as int] == p[c as int]);
        assert(other.subrange((d2 + 1) as int, pe as int) =~= rest);
        lemma_find_child_first(cs2, p[c as int], 0, 0);
        assert(model_get(inner2, other, d2 + 1) == model_get(m, other, depth));
        assert(model_get(ArtModel::Inner(top, nt, cs2), other, depth) == model_get(inner2, other, d2 + 1));
    } else {
        assert(model_get(m, other, depth) is None);
        if other.len() > d2 && other.subrange(depth as int, d2 as int) == top {
            let ob = other[d2 as int];
            if ob == p[c as int] {
                lemma_find_child_first(cs2, ob, 0, 0);
                if other.len() >= pe && other.subrange((d2 + 1) as int, pe as int) == rest {
                    assert(other.subrange(depth as int, pe as int) =~= top + seq![ob] + rest);
                }
                assert(model_get(inner2, other, d2 + 1) is None);
                assert(model_get(ArtModel::Inner(top, nt, cs2), other, depth) is None);
            } else if key.len() > d2 && ob == key[d2 as int] {
                lemma_find_child_first(cs2, ob, 0, 1);
                assert(model_get(ArtModel::Leaf(key, value, txid), other, d2 + 1) is None);
                assert(model_get(ArtModel::Inner(top, nt, cs2), other, depth) is None);
            } else {
                if find_child(cs2, ob, 0) is Some {
                    lemma_find_child_some(cs2, ob, 0);
                }
                assert(model_get(ArtModel::Inner(top, nt, cs2), other, depth) is None);
            }
        } else if other.len() == d2 && other.subrange(depth as int, d2 as int) == top {
            assert(model_get(ArtModel::Inner(top, nt, cs2), other, depth) == term_get(nt, other));
        }
        assert(model_get(ArtModel::Inner(top, nt, cs2), other, depth) is None);
    }
}

/// `lemma_insert_keeps_others` at a leaf.
proof fn lemma_insert_keeps_others_leaf(
    m: ArtModel,
    key: Seq<u8>,
    value: Seq<u8>,
    txid: u64,
    other: Seq<u8>,
    depth: nat,
)
    requires
        m is Leaf,
        model_wf(m, depth),
        depth <= key.len(),
        other != key,
        other.take(depth as int) == key.take(depth as int),
    ensures
        model_get(model_insert(m, key, value, txid, depth).0, other, depth) == model_get(m, other, depth),
{
    match m {
        ArtModel::Leaf(ek, ev, et) => {
            if ek != key {
                let a = ek.skip(depth as int);
                let bb = key.skip(depth as int);
                lemma_common_len_props(a, bb);
                let c = common_len(a, bb);
                let d2 = depth + c;
                let p2 = key.subrange(depth as int, d2 as int);
                let oc: Seq<(u8, ArtModel)> = if ek.len() > d2 {
                    seq![(ek[d2 as int], ArtModel::Leaf(ek, ev, et))]
                } else {
                    Seq::empty()
                };
                let nc: Seq<(u8, ArtModel)> = if key.len() > d2 {
                    seq![(key[d2 as int], ArtModel::Leaf(key, value, txid))]
                } else {
                    Seq::empty()
                };
                let cs2 = oc + nc;
                let term = if key.len() == d2 {
                    Some((key, value, txid))
                } else if ek.len() == d2 {
                    Some((ek, ev, et))
                } else {
                    None
                };
                let r = ArtModel::Inner(p2, term, cs2);
                assert(model_insert(m, key, value, txid, depth).0 == r);
                assert(p2 =~= bb.take(c as int));
                assert(ek.subrange(depth as int, d2 as int) =~= a.take(c as int));
                assert(p2.len() == c);
                if other == ek {
                    assert(other.subrange(depth as int, (depth + p2.len()) as int) == p2);
                    assert(model_get(m, other, depth) == Some((ev, et)));
                    if ek.len() > d2 {
                        lemma_find_child_first(cs2, ek[d2 as int], 0, 0);
                        assert(cs2[0].1 == ArtModel::Leaf(ek, ev, et));
                        assert(model_get(r, other, depth) == model_get(cs2[0].1, other, d2 + 1));
                    } else {
                        if key.len() == d2 {
                            lemma_same_path(ek, key, p2, depth);
                        }
                        assert(model_get(r, other, depth) == term_get(term, other));
                    }
                } else {
                    assert(model_get(m, other, depth) is None);
                    if other.len() > d2 && other.subrange(depth as int, d2 as int) == p2 {
                        match find_child(cs2, other[d2 as int], 0) {
                            Some(j) => {
                                lemma_find_child_some(cs2, other[d2 as int], 0);
                                if j == 0 && ek.len() > d2 {
                                    assert(cs2[0].1 == ArtModel::Leaf(ek, ev, et));
                                } else if ek.len() > d2 {
                                    assert(cs2[j as int] == nc[j - 1]);
                                } else {
                                    assert(cs2[j as int] == nc[j as int]);
                                }
                                assert(model_get(cs2[j as int].1, other, d2 + 1) is None);
                            },
                            None => {},
                        }
                    } else if other.len() == d2 && other.subrange(depth as int, d2 as int) == p2 {
                        assert(model_get(r, other, depth) == term_get(term, other));
                    }
                    assert(model_get(r, other, depth) is None);
                }
            } else {
                assert(model_insert(m, key, value, txid, depth).0 == ArtModel::Leaf(ek, value, txid));
            }
        },
        ArtModel::Inner(_, _, _) => {},
    }
}

/// Inserting `key` leaves the lookup of every other key that agrees with
/// it before `depth` as it was.
pub proof fn lemma_insert_keeps_others(
    m: ArtModel,
    key: Seq<u8>,
    value: Seq<u8>,
    txid: u64,
    other: Seq<u8>,
    depth: nat,
)
    requires
        model_wf(m, depth),
        depth <= key.len(),
        other != key,
        other.take(depth as int) == key.take(depth as int),
    ensures
        model_get(model_insert(m, key, value, txid, depth).0, other, depth) == model_get(m, other, depth),
    decreases m,
{
    match m {
        ArtModel::Leaf(_, _, _) => {
            lemma_insert_keeps_others_leaf(m, key, value, txid, other, depth);
        },
        ArtModel::Inner(p, t, cs) => {
            let pe = depth + p.len();
            let kd = key.skip(depth as int);
            lemma_common_len_props(p, kd);
            let c = common_len(p, kd);
            if c < p.len() {
                assert(key.subrange(depth as int, (depth + c) as int) =~= kd.take(c as int));
                if key.len() > depth + c {
                    assert(kd[c as int] == key[(depth + c) as int]);
                }
                lemma_split_keeps_lookups(p, t, cs, c, key, value, txid, depth, other);
            } else {
                assert(key.len() >= pe);
                assert(key.subrange(depth as int, pe as int) =~= kd.take(c as int));
                assert(p.take(c as int) =~= p);
                if key.len() == pe {
                    let r = ArtModel::Inner(p, Some((key, value, txid)), cs);
                    assert(model_insert(m, key, value, txid, depth).0 == r);
                    if other.len() == pe && other.subrange(depth as int, pe as int) == p {
                        match t {
                            Some((k, _, _)) => {
                                if k == other {
                                    lemma_same_path(other, key, p, depth);
                                }
                            },
                            None => {},
                        }
                        assert(model_get(m, other, depth) is None);
                    }
                } else {
                    let b = key[pe as int];
                    lemma_wf_inner(p, t, cs, depth);
                    if other.len() > pe && other.subrange(depth as int, pe as int) == p {
                        let b2 = other[pe as int];
                        match find_child(cs, b, 0) {
                            Some(i) => {
                                lemma_find_child_some(cs, b, 0);
                                let r = model_insert(cs[i as int].1, key, value, txid, pe + 1);
                                let ncs = cs.update(i as int, (b, r.0));
                                lemma_find_child_same_keys(ncs, cs, b2, 0);
                                match find_child(cs, b2, 0) {
                                    Some(j) => {
                                        lemma_find_child_some(cs, b2, 0);
                                        if j == i {
                                            assert(other.take((pe + 1) as int) =~= other.take(depth as int)
                                                + other.subrange(depth as int, pe as int) + seq![b2]);
                                            assert(key.take((pe + 1) as int) =~= key.take(depth as int)
                                                + key.subrange(depth as int, pe as int) + seq![b]);
                                            lemma_insert_keeps_others(cs[i as int].1, key, value, txid, other, pe + 1);
                                        }
                                    },
                                    None => {},
                                }
                            },
                            None => {
                                lemma_find_child_none(cs, b, 0);
                                let ncs = cs.push((b, ArtModel::Leaf(key, value, txid)));
                                assert(model_insert(m, key, value, txid, depth).0 == ArtModel::Inner(p, t, ncs));
                                match find_child(cs, b2, 0) {
                                    Some(j) => {
                                        lemma_find_child_some(cs, b2, 0);
                                        assert(ncs[j as int] == cs[j as int]);
                                        assert forall|x: int| 0 <= x < j implies ncs[x].0 != b2 by {
                                            assert(ncs[x] == cs[x]);
                                        }
                                        lemma_find_child_first(ncs, b2, 0, j);
                                    },
                                    None => {
                                        lemma_find_child_none(cs, b2, 0);
                                        if b2 == b {
                                            assert forall|x: int| 0 <= x < cs.len() implies ncs[x].0 != b2 by {
                                                assert(ncs[x] == cs[x]);
                                            }
                                            lemma_find_child_first(ncs, b2, 0, cs.len());
                                            assert(ncs[cs.len() as int].1 == ArtModel::Leaf(key, value, txid));
                                            assert(model_get(ArtModel::Leaf(key, value, txid), other, pe + 1) is None);
                                            assert(model_get(ArtModel::Inner(p, t, ncs), other, depth) is None);
                                        } else {
                                            assert forall|x: int| 0 <= x < ncs.len() implies ncs[x].0 != b2 by {
                                                if x < cs.len() {
                                                    assert(ncs[x] == cs[x]);
                                                }
                                            }
                                            if find_child(ncs, b2, 0) is Some {
                                                lemma_find_child_some(ncs, b2, 0);
                                            }
                                        }
                                    },
                                }
                            },
                        }
                    }
                }
            }
        },
    }
}

/// A well-formed index holds a well-formed tree, so the index-level laws
/// below apply to it.
pub proof fn lemma_index_wf(a: &ArtIndex)
    requires
        a.wf(),
    ensures
        a.spec_root() matches Some(m) ==> model_wf(m, 0),
{
}

/// Index-level laws. After `key` is removed from a well-formed index, a
/// lookup of it finds nothing, and the lookup of every other key is as it
/// was.
pub proof fn lemma_index_remove(root: Option<ArtModel>, key: Seq<u8>, other: Seq<u8>)
    requires
        root matches Some(m) ==> model_wf(m, 0),
        other != key,
    ensures
        root_get(root_remove(root, key).0, key) is None,
        root_get(root_remove(root, key).0, other) == root_get(root, other),
        root_remove(root, key).1 == match root_get(root, key) {
            Some((v, _)) => Some(v),
            None => None::<Seq<u8>>,
        },
{
    match root {
        None => {},
        Some(m) => {
            lemma_remove_returns_lookup(m, key, 0);
            lemma_remove_absent_unchanged(m, key, 0);
            lemma_remove_keeps_others(m, key, other, 0);
            match m {
                ArtModel::Leaf(_, _, _) => {},
                ArtModel::Inner(_, _, _) => {
                    lemma_lookup_after_remove(m, key, 0);
                },
            }
        },
    }
}

/// After `key` is inserted into a well-formed index, a lookup of it gives
/// the inserted value and transaction id, and every other key keeps its
/// lookup.
pub proof fn lemma_index_insert(
    root: Option<ArtModel>,
    key: Seq<u8>,
    value: Seq<u8>,
    txid: u64,
    other: Seq<u8>,
)
    requires
        root matches Some(m) ==> model_wf(m, 0),
        other != key,
    ensures
        root_get(Some(root_insert(root, key, value, txid).0), key) == Some((value, txid)),
        root_get(Some(root_insert(root, key, value, txid).0), other) == root_get(root, other),
{
    match root {
        None => {},
        Some(m) => {
            lemma_lookup_after_insert(m, key, value, txid, 0);
            assert(other.take(0) =~= key.take(0));
            lemma_insert_keeps_others(m, key, value, txid, other, 0);
        },
    }
}

} // verus!
