//! A frequency-weighted prefix tree over characters.
//!
//! The tree is modelled by the frequency it assigns to every word
//! ([`Trie::frequency`], zero for a word that was never inserted) and by the
//! order in which a depth-first walk meets the words under a prefix
//! ([`Trie::completions`]). Children are kept in the order in which their
//! branches were first created, so the walk, and with it the choice among
//! words of equal frequency, is the same on every run.

use crate::text::{char_at, from_chars, subvec, to_chars};
use vstd::prelude::*;

verus! {

/// A word together with its frequency.
pub type Entry = (Seq<char>, u32);

#[derive(Debug)]
struct Child {
    ch: char,
    node: Node,
}

#[derive(Debug)]
struct Node {
    children: Vec<Child>,
    terminal_freq: u32,
}

/// The prefix tree.
#[derive(Debug)]
pub struct Trie {
    root: Node,
}

// ---------------------------------------------------------------------------
// Choosing the best of a sequence of entries
// ---------------------------------------------------------------------------

/// The better of the best entry so far and a new one: the new one wins only
/// with a strictly greater frequency.
pub open spec fn better_of(best: Option<Entry>, e: Entry) -> Option<Entry> {
    match best {
        None => Some(e),
        Some(b) => if e.1 > b.1 {
            Some(e)
        } else {
            best
        },
    }
}

/// The best entry after `entries` were met one by one, starting from `best`.
pub open spec fn pick_best(best: Option<Entry>, entries: Seq<Entry>) -> Option<Entry>
    decreases entries.len(),
{
    if entries.len() == 0 {
        best
    } else {
        better_of(pick_best(best, entries.drop_last()), entries.last())
    }
}

/// The first entry of greatest frequency, if there is any entry.
pub open spec fn first_best(entries: Seq<Entry>) -> Option<Entry> {
    pick_best(None, entries)
}

/// Every entry with `p` put in front of its word.
pub open spec fn with_prefix(p: Seq<char>, entries: Seq<Entry>) -> Seq<Entry> {
    Seq::new(entries.len(), |i: int| (p + entries[i].0, entries[i].1))
}

/// The view of an optional completion.
pub open spec fn completion_view(r: Option<(String, u32)>) -> Option<Entry> {
    match r {
        Some((w, f)) => Some((w@, f)),
        None => None,
    }
}

/// The terminal frequency after `add` was inserted on top of `cur`: at least
/// one is added, and the sum stops at the largest `u32`.
pub open spec fn bumped_freq(cur: u32, add: u32) -> u32 {
    let a: int = if add < 1 {
        1
    } else {
        add as int
    };
    if cur + a > u32::MAX {
        u32::MAX
    } else {
        (cur + a) as u32
    }
}

/// Meeting `a` and then `b` is meeting `a + b`.
pub proof fn lemma_pick_best_concat(best: Option<Entry>, a: Seq<Entry>, b: Seq<Entry>)
    ensures
        pick_best(best, a + b) == pick_best(pick_best(best, a), b),
    decreases b.len(),
{
    if b.len() == 0 {
        assert(a + b =~= a);
    } else {
        assert((a + b).drop_last() =~= a + b.drop_last());
        assert((a + b).last() == b.last());
        lemma_pick_best_concat(best, a, b.drop_last());
    }
}

/// What `pick_best` returns is the start value or one of the entries, no
/// entry has a greater frequency, and if an entry was chosen no earlier one
/// has a frequency as great.
pub proof fn lemma_pick_best(best: Option<Entry>, entries: Seq<Entry>)
    ensures
        match pick_best(best, entries) {
            None => best is None && entries.len() == 0,
            Some(e) => {
                &&& forall|j: int| 0 <= j < entries.len() ==> (#[trigger] entries[j]).1 <= e.1
                &&& best is Some ==> (best->0).1 <= e.1
                &&& (best == Some(e) || exists|k: int|
                    {
                        &&& 0 <= k < entries.len()
                        &&& #[trigger] entries[k] == e
                        &&& forall|j: int| 0 <= j < k ==> (#[trigger] entries[j]).1 < e.1
                        &&& best is Some ==> (best->0).1 < e.1
                    })
            },
        },
    decreases entries.len(),
{
    if entries.len() > 0 {
        let init = entries.drop_last();
        let last = entries.last();
        lemma_pick_best(best, init);
        let mid = pick_best(best, init);
        assert forall|j: int| 0 <= j < init.len() implies init[j] == entries[j] by {}
        match mid {
            None => {
                assert(entries[entries.len() - 1] == last);
            },
            Some(m) => {
                let e = pick_best(best, entries)->0;
                assert forall|j: int| 0 <= j < entries.len() implies (#[trigger] entries[j]).1
                    <= e.1 by {
                    if j < init.len() {
                        assert(init[j].1 <= m.1);
                    }
                }
                if last.1 > m.1 {
                    let k = entries.len() - 1;
                    assert(entries[k] == e);
                    assert forall|j: int| 0 <= j < k implies (#[trigger] entries[j]).1 < e.1 by {
                        assert(init[j].1 <= m.1);
                    }
                } else if best != Some(m) {
                    let k = choose|k: int|
                        {
                            &&& 0 <= k < init.len()
                            &&& #[trigger] init[k] == m
                            &&& forall|j: int| 0 <= j < k ==> (#[trigger] init[j]).1 < m.1
                            &&& best is Some ==> (best->0).1 < m.1
                        };
                    assert(entries[k] == e);
                    assert forall|j: int| 0 <= j < k implies (#[trigger] entries[j]).1 < e.1 by {
                        assert(init[j].1 < m.1);
                    }
                }
            },
        }
    }
}

/// `with_prefix` goes through concatenation.
proof fn lemma_with_prefix_concat(p: Seq<char>, a: Seq<Entry>, b: Seq<Entry>)
    ensures
        with_prefix(p, a + b) =~= with_prefix(p, a) + with_prefix(p, b),
{
}

/// Putting `c` and then `p` in front is putting `p.push(c)` in front.
proof fn lemma_with_prefix_push(p: Seq<char>, c: char, t: Seq<Entry>)
    ensures
        with_prefix(p.push(c), t) =~= with_prefix(p, with_prefix(seq![c], t)),
{
    assert forall|i: int| 0 <= i < t.len() implies with_prefix(p.push(c), t)[i] == with_prefix(
        p,
        with_prefix(seq![c], t),
    )[i] by {
        assert(p.push(c) + t[i].0 =~= p + (seq![c] + t[i].0));
    }
}

// ---------------------------------------------------------------------------
// Nodes
// ---------------------------------------------------------------------------

/// The index of the first child labelled `c`, or the number of children
/// where there is none.
spec fn child_index(children: Seq<Child>, c: char) -> nat
    decreases children.len(),
{
    if children.len() == 0 || children[0].ch == c {
        0
    } else {
        1 + child_index(children.drop_first(), c)
    }
}

proof fn lemma_child_index(children: Seq<Child>, c: char)
    ensures
        child_index(children, c) <= children.len(),
        forall|k: int| 0 <= k < child_index(children, c) ==> (#[trigger] children[k]).ch != c,
        child_index(children, c) < children.len() ==> children[child_index(children, c) as int].ch
            == c,
    decreases children.len(),
{
    if children.len() == 0 || children[0].ch == c {
    } else {
        let t = children.drop_first();
        lemma_child_index(t, c);
        assert forall|k: int| 0 <= k < child_index(children, c) implies (
        #[trigger] children[k]).ch != c by {
            if k > 0 {
                assert(children[k] == t[k - 1]);
            }
        }
        if child_index(children, c) < children.len() {
            assert(children[child_index(children, c) as int] == t[child_index(t, c) as int]);
        }
    }
}

proof fn lemma_child_index_is(children: Seq<Child>, c: char, n: nat)
    requires
        n <= children.len(),
        forall|k: int| 0 <= k < n ==> (#[trigger] children[k]).ch != c,
        n < children.len() ==> children[n as int].ch == c,
    ensures
        child_index(children, c) == n,
    decreases children.len(),
{
    if n > 0 {
        let t = children.drop_first();
        assert(children[0].ch != c);
        assert forall|k: int| 0 <= k < n - 1 implies (#[trigger] t[k]).ch != c by {
            assert(t[k] == children[k + 1]);
        }
        if n - 1 < t.len() {
            assert(t[n - 1] == children[n as int]);
        }
        lemma_child_index_is(t, c, (n - 1) as nat);
    }
}

/// No two children carry the same label.
spec fn distinct_labels(children: Seq<Child>) -> bool {
    forall|i: int, j: int|
        0 <= i < j < children.len() ==> (#[trigger] children[i]).ch != (#[trigger] children[j]).ch
}

/// Under every node the children carry distinct labels.
spec fn node_wf(node: Node) -> bool
    decreases node,
{
    &&& distinct_labels(node.children@)
    &&& forall|i: int|
        0 <= i < node.children@.len() ==> node_wf((#[trigger] node.children@[i]).node)
}

/// The frequency with which `word` ends at the node reached from `node`
/// along `word`; zero where the path does not exist.
spec fn freq_of(node: Node, word: Seq<char>) -> u32
    decreases word.len(),
{
    if word.len() == 0 {
        node.terminal_freq
    } else {
        let i = child_index(node.children@, word[0]);
        if i < node.children@.len() {
            freq_of(node.children@[i as int].node, word.drop_first())
        } else {
            0
        }
    }
}

/// The node reached from `node` along `path`.
spec fn subnode(node: Node, path: Seq<char>) -> Option<Node>
    decreases path.len(),
{
    if path.len() == 0 {
        Some(node)
    } else {
        let i = child_index(node.children@, path[0]);
        if i < node.children@.len() {
            subnode(node.children@[i as int].node, path.drop_first())
        } else {
            None
        }
    }
}

/// The word that ends at the node itself, if one does.
spec fn own_terminal(node: Node) -> Seq<Entry> {
    if node.terminal_freq > 0 {
        seq![(Seq::<char>::empty(), node.terminal_freq)]
    } else {
        Seq::<Entry>::empty()
    }
}

/// The words that end at or below `node`, in the order of a depth-first
/// walk that visits a node before its children and the children in order.
spec fn terminals(node: Node) -> Seq<Entry>
    decreases node, 0nat,
{
    own_terminal(node) + kids_terminals(node.children@, node.children@.len())
}

/// The words below the first `n` children.
spec fn kids_terminals(children: Seq<Child>, n: nat) -> Seq<Entry>
    decreases children, n,
{
    if n == 0 || n > children.len() {
        Seq::<Entry>::empty()
    } else {
        kids_terminals(children, (n - 1) as nat) + with_prefix(
            seq![children[n - 1].ch],
            terminals(children[n - 1].node),
        )
    }
}

/// An entry below the first `n` children lies below one of them.
proof fn lemma_kids_member(children: Seq<Child>, n: nat, w: Seq<char>, f: u32) -> (k: int)
    requires
        n <= children.len(),
        kids_terminals(children, n).contains((w, f)),
    ensures
        0 <= k < n,
        w.len() > 0,
        w[0] == children[k].ch,
        terminals(children[k].node).contains((w.drop_first(), f)),
    decreases n,
{
    let all = kids_terminals(children, n);
    let i = choose|i: int| 0 <= i < all.len() && all[i] == (w, f);
    assert(n > 0);
    let init = kids_terminals(children, (n - 1) as nat);
    let t = terminals(children[n - 1].node);
    let last = with_prefix(seq![children[n - 1].ch], t);
    if i < init.len() {
        assert(init[i] == (w, f));
        lemma_kids_member(children, (n - 1) as nat, w, f)
    } else {
        let m = i - init.len();
        assert(last[m] == (w, f));
        assert(w == seq![children[n - 1].ch] + t[m].0);
        assert(w.drop_first() =~= t[m].0);
        assert(t[m] == (w.drop_first(), f));
        n - 1
    }
}

/// An entry below the child `k` lies below the first `n` children, for `n`
/// beyond `k`.
proof fn lemma_kids_contains(children: Seq<Child>, n: nat, k: int, w: Seq<char>, f: u32)
    requires
        0 <= k < n <= children.len(),
        terminals(children[k].node).contains((w, f)),
    ensures
        kids_terminals(children, n).contains((seq![children[k].ch] + w, f)),
    decreases n,
{
    let init = kids_terminals(children, (n - 1) as nat);
    let t = terminals(children[n - 1].node);
    let last = with_prefix(seq![children[n - 1].ch], t);
    let all = kids_terminals(children, n);
    let e = (seq![children[k].ch] + w, f);
    if k == n - 1 {
        let m = choose|m: int| 0 <= m < t.len() && t[m] == (w, f);
        assert(last[m] == e);
        assert(all[init.len() + m] == e);
    } else {
        lemma_kids_contains(children, (n - 1) as nat, k, w, f);
        let m = choose|m: int| 0 <= m < init.len() && init[m] == e;
        assert(all[m] == e);
    }
}

/// Every entry of the walk is a word with its frequency.
proof fn lemma_terminals_sound(node: Node, w: Seq<char>, f: u32)
    requires
        node_wf(node),
        terminals(node).contains((w, f)),
    ensures
        freq_of(node, w) == f,
        f > 0,
    decreases w.len(),
{
    let own = own_terminal(node);
    let kids = kids_terminals(node.children@, node.children@.len());
    let all = terminals(node);
    let i = choose|i: int| 0 <= i < all.len() && all[i] == (w, f);
    if i < own.len() {
        assert(own[i] == (w, f));
    } else {
        assert(kids[i - own.len()] == (w, f));
        let k = lemma_kids_member(node.children@, node.children@.len(), w, f);
        lemma_terminals_sound(node.children@[k].node, w.drop_first(), f);
        lemma_child_index_is(node.children@, w[0], k as nat);
    }
}

/// Every word of positive frequency is an entry of the walk.
proof fn lemma_terminals_complete(node: Node, w: Seq<char>)
    requires
        node_wf(node),
        freq_of(node, w) > 0,
    ensures
        terminals(node).contains((w, freq_of(node, w))),
    decreases w.len(),
{
    let own = own_terminal(node);
    let kids = kids_terminals(node.children@, node.children@.len());
    let all = terminals(node);
    let f = freq_of(node, w);
    if w.len() == 0 {
        assert(w =~= Seq::<char>::empty());
        assert(own[0] == (w, f));
        assert(all[0] == (w, f));
    } else {
        let k = child_index(node.children@, w[0]) as int;
        lemma_child_index(node.children@, w[0]);
        lemma_terminals_complete(node.children@[k].node, w.drop_first());
        lemma_kids_contains(node.children@, node.children@.len(), k, w.drop_first(), f);
        assert(seq![w[0]] + w.drop_first() =~= w);
        let m = choose|m: int| 0 <= m < kids.len() && kids[m] == (w, f);
        assert(all[own.len() + m] == (w, f));
    }
}

/// Whether `a` is the beginning of the longer text `b`.
pub open spec fn proper_prefix(a: Seq<char>, b: Seq<char>) -> bool {
    a.len() < b.len() && a == b.take(a.len() as int)
}

/// The entries below the first `k` children open those below the first `n`.
proof fn lemma_kids_grow(children: Seq<Child>, k: nat, n: nat)
    requires
        k <= n <= children.len(),
    ensures
        kids_terminals(children, k).len() <= kids_terminals(children, n).len(),
        forall|m: int|
            0 <= m < kids_terminals(children, k).len() ==> #[trigger] kids_terminals(children, n)[m]
                == kids_terminals(children, k)[m],
    decreases n - k,
{
    if k < n {
        lemma_kids_grow(children, k, (n - 1) as nat);
    }
}

/// Every entry below the children stands in the block of one child.
proof fn lemma_kids_locate(children: Seq<Child>, n: nat, m: int) -> (k: int)
    requires
        n <= children.len(),
        0 <= m < kids_terminals(children, n).len(),
    ensures
        0 <= k < n,
        kids_terminals(children, k as nat).len() <= m < kids_terminals(
            children,
            (k + 1) as nat,
        ).len(),
        m - kids_terminals(children, k as nat).len() < terminals(children[k].node).len(),
        kids_terminals(children, n)[m] == with_prefix(
            seq![children[k].ch],
            terminals(children[k].node),
        )[m - kids_terminals(children, k as nat).len()],
    decreases n,
{
    let init = kids_terminals(children, (n - 1) as nat);
    if m < init.len() {
        let k = lemma_kids_locate(children, (n - 1) as nat, m);
        k
    } else {
        n - 1
    }
}

/// The walk meets a word before every word that begins with it.
proof fn lemma_walk_order(node: Node, i: int, j: int)
    requires
        node_wf(node),
        0 <= i < terminals(node).len(),
        0 <= j < terminals(node).len(),
        proper_prefix(terminals(node)[i].0, terminals(node)[j].0),
    ensures
        i < j,
    decreases node,
{
    let own = own_terminal(node);
    let n = node.children@.len();
    let kids = kids_terminals(node.children@, n);
    let all = terminals(node);
    if i < own.len() {
        if j < own.len() {
            assert(all[i] == all[j]);
        }
    } else if j < own.len() {
        assert(all[j] == own[j]);
    } else {
        let mi = i - own.len();
        let mj = j - own.len();
        assert(all[i] == kids[mi]);
        assert(all[j] == kids[mj]);
        let ki = lemma_kids_locate(node.children@, n, mi);
        let kj = lemma_kids_locate(node.children@, n, mj);
        let ti = terminals(node.children@[ki].node);
        let tj = terminals(node.children@[kj].node);
        let si = kids_terminals(node.children@, ki as nat).len();
        let sj = kids_terminals(node.children@, kj as nat).len();
        let wi = seq![node.children@[ki].ch] + ti[mi - si].0;
        let wj = seq![node.children@[kj].ch] + tj[mj - sj].0;
        assert(all[i].0 == wi);
        assert(all[j].0 == wj);
        assert(wi[0] == wj.take(wi.len() as int)[0]);
        assert(node.children@[ki].ch == node.children@[kj].ch);
        if ki != kj {
            if ki < kj {
                assert(node.children@[ki].ch != node.children@[kj].ch);
            } else {
                assert(node.children@[kj].ch != node.children@[ki].ch);
            }
        }
        assert(ti[mi - si].0 =~= wi.drop_first());
        assert(tj[mj - sj].0 =~= wj.drop_first());
        assert(wi.drop_first() =~= wj.drop_first().take(wi.len() - 1));
        lemma_walk_order(node.children@[ki].node, mi - si, mj - sj);
    }
}

/// Walking down `path` and then `w` is walking down `path + w`.
proof fn lemma_subnode(node: Node, path: Seq<char>, w: Seq<char>)
    requires
        node_wf(node),
    ensures
        match subnode(node, path) {
            Some(m) => node_wf(m) && freq_of(node, path + w) == freq_of(m, w),
            None => freq_of(node, path + w) == 0,
        },
    decreases path.len(),
{
    if path.len() == 0 {
        assert(path + w =~= w);
    } else {
        assert((path + w)[0] == path[0]);
        assert((path + w).drop_first() =~= path.drop_first() + w);
        let i = child_index(node.children@, path[0]);
        if i < node.children@.len() {
            lemma_subnode(node.children@[i as int].node, path.drop_first(), w);
        }
    }
}

/// A node without children and without a word has frequency zero everywhere.
proof fn lemma_empty_node(node: Node, w: Seq<char>)
    requires
        node.children@.len() == 0,
        node.terminal_freq == 0,
    ensures
        freq_of(node, w) == 0,
{
}

/// A fresh, empty child under a new label changes no frequency.
proof fn lemma_push_child(before: Node, after: Node, c: char)
    requires
        node_wf(before),
        child_index(before.children@, c) == before.children@.len(),
        after.terminal_freq == before.terminal_freq,
        after.children@.len() == before.children@.len() + 1,
        forall|k: int|
            0 <= k < before.children@.len() ==> after.children@[k] == before.children@[k],
        after.children@[before.children@.len() as int].ch == c,
        after.children@[before.children@.len() as int].node.children@.len() == 0,
        after.children@[before.children@.len() as int].node.terminal_freq == 0,
    ensures
        node_wf(after),
        child_index(after.children@, c) == before.children@.len(),
        forall|w: Seq<char>| #[trigger] freq_of(after, w) == freq_of(before, w),
{
    let n = before.children@.len() as int;
    lemma_child_index(before.children@, c);
    assert forall|k: int| 0 <= k < n implies (#[trigger] after.children@[k]).ch != c by {
        assert(before.children@[k].ch != c);
    }
    lemma_child_index_is(after.children@, c, n as nat);
    assert forall|a: int, b: int| 0 <= a < b < after.children@.len() implies (
    #[trigger] after.children@[a]).ch != (#[trigger] after.children@[b]).ch by {
        if b < n {
            assert(before.children@[a].ch != before.children@[b].ch);
        }
    }
    assert forall|k: int| 0 <= k < after.children@.len() implies node_wf(
        (#[trigger] after.children@[k]).node,
    ) by {
        if k < n {
            assert(node_wf(before.children@[k].node));
        }
    }
    assert forall|w: Seq<char>| #[trigger] freq_of(after, w) == freq_of(before, w) by {
        if w.len() > 0 {
            let d = w[0];
            let i = child_index(before.children@, d) as int;
            lemma_child_index(before.children@, d);
            assert forall|k: int| 0 <= k < i implies (#[trigger] after.children@[k]).ch != d by {
                assert(before.children@[k].ch != d);
            }
            if d == c {
                lemma_empty_node(after.children@[n].node, w.drop_first());
            } else if i < n {
                assert(after.children@[i] == before.children@[i]);
                lemma_child_index_is(after.children@, d, i as nat);
            } else {
                lemma_child_index_is(after.children@, d, (n + 1) as nat);
            }
        }
    }
}

/// Replacing the node under the child `j` changes the frequencies of the
/// words through that child as the replacement says, and no others.
proof fn lemma_replace_child(before: Node, after: Node, j: int, tail: Seq<char>, add: u32)
    requires
        node_wf(before),
        0 <= j < before.children@.len(),
        after.terminal_freq == before.terminal_freq,
        after.children@.len() == before.children@.len(),
        forall|k: int|
            0 <= k < before.children@.len() && k != j ==> after.children@[k]
                == before.children@[k],
        after.children@[j].ch == before.children@[j].ch,
        node_wf(after.children@[j].node),
        forall|w: Seq<char>| #[trigger]
            freq_of(after.children@[j].node, w) == (if w == tail {
                bumped_freq(freq_of(before.children@[j].node, w), add)
            } else {
                freq_of(before.children@[j].node, w)
            }),
    ensures
        node_wf(after),
        forall|w: Seq<char>| #[trigger]
            freq_of(after, w) == (if w == seq![before.children@[j].ch] + tail {
                bumped_freq(freq_of(before, w), add)
            } else {
                freq_of(before, w)
            }),
{
    let c = before.children@[j].ch;
    let n = before.children@.len() as int;
    assert forall|k: int| 0 <= k < n implies (#[trigger] after.children@[k]).ch
        == before.children@[k].ch by {}
    assert forall|a: int, b: int| 0 <= a < b < n implies (#[trigger] after.children@[a]).ch != (
    #[trigger] after.children@[b]).ch by {
        assert(before.children@[a].ch != before.children@[b].ch);
    }
    assert forall|k: int| 0 <= k < n implies node_wf((#[trigger] after.children@[k]).node) by {
        if k != j {
            assert(node_wf(before.children@[k].node));
        }
    }
    assert forall|k: int| 0 <= k < j implies (#[trigger] before.children@[k]).ch != c by {
        assert(before.children@[k].ch != before.children@[j].ch);
    }
    lemma_child_index_is(before.children@, c, j as nat);
    assert forall|w: Seq<char>| #[trigger]
        freq_of(after, w) == (if w == seq![c] + tail {
            bumped_freq(freq_of(before, w), add)
        } else {
            freq_of(before, w)
        }) by {
        if w.len() > 0 {
            let d = w[0];
            let i = child_index(before.children@, d);
            lemma_child_index(before.children@, d);
            assert forall|k: int| 0 <= k < i implies (#[trigger] after.children@[k]).ch != d by {
                assert(before.children@[k].ch != d);
            }
            lemma_child_index_is(after.children@, d, i);
            assert((seq![c] + tail)[0] == c);
            assert((seq![c] + tail).drop_first() =~= tail);
            if w.drop_first() == tail && d == c {
                assert(w =~= seq![c] + tail);
            }
            if i == j {
                assert(freq_of(after, w) == freq_of(after.children@[j].node, w.drop_first()));
            } else if i < n {
                assert(after.children@[i as int] == before.children@[i as int]);
            }
        } else {
            assert((seq![c] + tail).len() > 0);
        }
    }
}

impl Node {
    fn empty() -> (n: Node)
        ensures
            n.children@.len() == 0,
            n.terminal_freq == 0,
    {
        Node { children: Vec::new(), terminal_freq: 0 }
    }

    /// The position of the child labelled `c`.
    fn find_child(&self, c: char) -> (r: Option<usize>)
        ensures
            match r {
                Some(i) => i < self.children@.len() && i == child_index(self.children@, c),
                None => child_index(self.children@, c) == self.children@.len(),
            },
    {
        let mut i: usize = 0;
        while i < self.children.len()
            invariant
                i <= self.children@.len(),
                forall|k: int| 0 <= k < i ==> (#[trigger] self.children@[k]).ch != c,
            decreases self.children@.len() - i,
        {
            if self.children[i].ch == c {
                proof {
                    lemma_child_index_is(self.children@, c, i as nat);
                }
                return Some(i);
            }
            i += 1;
        }
        proof {
            lemma_child_index_is(self.children@, c, i as nat);
        }
        None
    }

    /// Adds `freq` to the word `word[i..]` under this node.
    fn insert_at(&mut self, word: &Vec<char>, i: usize, freq: u32)
        requires
            node_wf(*old(self)),
            i <= word@.len(),
        ensures
            node_wf(*final(self)),
            forall|w: Seq<char>| #[trigger]
                freq_of(*final(self), w) == (if w == word@.skip(i as int) {
                    bumped_freq(freq_of(*old(self), w), freq)
                } else {
                    freq_of(*old(self), w)
                }),
        decreases word@.len() - i,
    {
        let ghost before = *self;
        if i == word.len() {
            let add: u32 = if freq < 1 {
                1
            } else {
                freq
            };
            self.terminal_freq = self.terminal_freq.saturating_add(add);
            proof {
                assert(word@.skip(i as int) =~= Seq::<char>::empty());
                assert forall|w: Seq<char>| #[trigger]
                    freq_of(*self, w) == (if w == word@.skip(i as int) {
                        bumped_freq(freq_of(before, w), freq)
                    } else {
                        freq_of(before, w)
                    }) by {
                    if w.len() == 0 {
                        assert(w =~= Seq::<char>::empty());
                    }
                }
            }
        } else {
            let c = char_at(word, i);
            let j: usize = match self.find_child(c) {
                Some(j) => j,
                None => {
                    let fresh = Child { ch: c, node: Node::empty() };
                    self.children.push(fresh);
                    proof {
                        lemma_push_child(before, *self, c);
                    }
                    self.children.len() - 1
                },
            };
            let ghost mid = *self;
            proof {
                lemma_child_index(mid.children@, c);
            }
            let child = &mut self.children[j];
            child.node.insert_at(word, i + 1, freq);
            proof {
                let tail = word@.skip(i + 1);
                lemma_replace_child(mid, *self, j as int, tail, freq);
                assert(seq![c] + tail =~= word@.skip(i as int));
            }
        }
    }
}

/// The view of the best completion so far.
spec fn best_view(best: Option<(Vec<char>, u32)>) -> Option<Entry> {
    match best {
        Some((w, f)) => Some((w@, f)),
        None => None,
    }
}

/// Walks the subtree of `node` depth first, `buf` holding the word that
/// leads to `node`, and keeps in `best` the first word of greatest frequency.
fn dfs_best(node: &Node, buf: &mut Vec<char>, best: &mut Option<(Vec<char>, u32)>)
    ensures
        final(buf)@ == old(buf)@,
        best_view(*final(best)) == pick_best(
            best_view(*old(best)),
            with_prefix(old(buf)@, terminals(*node)),
        ),
    decreases node,
{
    let ghost start = best_view(*best);
    let ghost word = buf@;
    if node.terminal_freq > 0 {
        let better = match best {
            None => true,
            Some(pair) => node.terminal_freq > pair.1,
        };
        if better {
            *best = Some((subvec(buf, 0, buf.len()), node.terminal_freq));
        }
    }
    proof {
        let own = with_prefix(word, own_terminal(*node));
        assert(pick_best(start, Seq::<Entry>::empty()) == start);
        if node.terminal_freq > 0 {
            assert(own.drop_last() =~= Seq::<Entry>::empty());
            assert(word + Seq::<char>::empty() =~= word);
            assert(own.last() == (word, node.terminal_freq));
            assert(buf@.subrange(0, buf@.len() as int) =~= word);
            assert(pick_best(start, own) == better_of(start, (word, node.terminal_freq)));
        } else {
            assert(own =~= Seq::<Entry>::empty());
        }
        assert(own_terminal(*node) + kids_terminals(node.children@, 0) =~= own_terminal(*node));
        assert(best_view(*best) == pick_best(start, own));
    }
    let mut i: usize = 0;
    while i < node.children.len()
        invariant
            i <= node.children@.len(),
            buf@ == word,
            best_view(*best) == pick_best(
                start,
                with_prefix(word, own_terminal(*node) + kids_terminals(node.children@, i as nat)),
            ),
        decreases node.children@.len() - i,
    {
        let child = &node.children[i];
        let ghost prev = best_view(*best);
        buf.push(child.ch);
        dfs_best(&child.node, buf, best);
        buf.pop();
        proof {
            let done = own_terminal(*node) + kids_terminals(node.children@, i as nat);
            let t = terminals(child.node);
            let step = with_prefix(seq![child.ch], t);
            assert(buf@ =~= word);
            assert(own_terminal(*node) + kids_terminals(node.children@, (i + 1) as nat) =~= done
                + step);
            lemma_with_prefix_concat(word, done, step);
            lemma_with_prefix_push(word, child.ch, t);
            lemma_pick_best_concat(start, with_prefix(word, done), with_prefix(word, step));
        }
        i += 1;
    }
}

// ---------------------------------------------------------------------------
// The tree
// ---------------------------------------------------------------------------

impl Trie {
    /// Under every node of the tree the children carry distinct labels.
    #[verifier::type_invariant]
    pub closed spec fn wf(self) -> bool {
        node_wf(self.root)
    }

    /// The frequency of `word`: the saturated sum of what was inserted for
    /// it, zero if it was never inserted.
    pub closed spec fn frequency(self, word: Seq<char>) -> u32 {
        freq_of(self.root, word)
    }

    /// The words of positive frequency that begin with `prefix`, each with
    /// its frequency, in the order of the depth-first walk.
    pub closed spec fn completions(self, prefix: Seq<char>) -> Seq<Entry> {
        match subnode(self.root, prefix) {
            Some(m) => with_prefix(prefix, terminals(m)),
            None => Seq::<Entry>::empty(),
        }
    }

    /// The completions of a prefix are exactly the words of positive
    /// frequency that begin with it, each with its frequency.
    pub proof fn lemma_completions(self, prefix: Seq<char>, w: Seq<char>, f: u32)
        requires
            self.wf(),
        ensures
            self.completions(prefix).contains((w, f)) <==> (prefix.is_prefix_of(w)
                && self.frequency(w) == f && f > 0),
    {
        let all = self.completions(prefix);
        if all.contains((w, f)) {
            let i = choose|i: int| 0 <= i < all.len() && all[i] == (w, f);
            let m = subnode(self.root, prefix)->0;
            let t = terminals(m);
            assert(w == prefix + t[i].0);
            assert(w.subrange(0, prefix.len() as int) =~= prefix);
            lemma_subnode(self.root, prefix, t[i].0);
            assert(t.contains(t[i]));
            lemma_terminals_sound(m, t[i].0, f);
        }
        if prefix.is_prefix_of(w) && self.frequency(w) == f && f > 0 {
            let rest = w.skip(prefix.len() as int);
            assert(prefix + rest =~= w);
            lemma_subnode(self.root, prefix, rest);
            let m = subnode(self.root, prefix)->0;
            lemma_terminals_complete(m, rest);
            let t = terminals(m);
            let k = choose|k: int| 0 <= k < t.len() && t[k] == (rest, f);
            assert(all[k] == (w, f));
        }
    }

    /// Among the completions of a prefix, a word comes before every word
    /// that begins with it.
    pub proof fn lemma_completions_order(self, prefix: Seq<char>, i: int, j: int)
        requires
            self.wf(),
            0 <= i < self.completions(prefix).len(),
            0 <= j < self.completions(prefix).len(),
            proper_prefix(self.completions(prefix)[i].0, self.completions(prefix)[j].0),
        ensures
            i < j,
    {
        let m = subnode(self.root, prefix)->0;
        let t = terminals(m);
        lemma_subnode(self.root, prefix, Seq::<char>::empty());
        let a = prefix + t[i].0;
        let b = prefix + t[j].0;
        assert(self.completions(prefix)[i].0 == a);
        assert(self.completions(prefix)[j].0 == b);
        assert(t[i].0 =~= a.skip(prefix.len() as int));
        assert(t[j].0 =~= b.skip(prefix.len() as int));
        assert(t[i].0 =~= t[j].0.take(t[i].0.len() as int)) by {
            assert(a == b.take(a.len() as int));
            assert forall|k: int| 0 <= k < t[i].0.len() implies t[i].0[k] == t[j].0[k] by {
                assert(a[prefix.len() + k] == b.take(a.len() as int)[prefix.len() + k]);
            }
        }
        lemma_walk_order(m, i, j);
    }

    /// The empty tree.
    pub fn new() -> (t: Trie)
        ensures
            t.wf(),
            forall|w: Seq<char>| #[trigger] t.frequency(w) == 0,
    {
        let t = Trie { root: Node::empty() };
        proof {
            assert forall|w: Seq<char>| #[trigger] t.frequency(w) == 0 by {
                lemma_empty_node(t.root, w);
            }
        }
        t
    }

    /// Adds `max(freq, 1)` to the frequency of `word`; the sum stops at the
    /// largest `u32`. No other word changes.
    pub fn insert(&mut self, word: &str, freq: u32)
        ensures
            final(self).wf(),
            forall|w: Seq<char>| #[trigger]
                final(self).frequency(w) == (if w == word@ {
                    bumped_freq(old(self).frequency(w), freq)
                } else {
                    old(self).frequency(w)
                }),
    {
        let chars = to_chars(word);
        assert(chars@.skip(0) =~= word@);
        let mut taken = Trie::new();
        std::mem::swap(self, &mut taken);
        proof {
            use_type_invariant(&taken);
        }
        let mut root = taken.root;
        root.insert_at(&chars, 0, freq);
        *self = Trie { root };
    }

    /// The first word of greatest frequency among the words that begin with
    /// `prefix`, with its frequency; nothing where no word begins with it.
    ///
    /// Among words of equal frequency the one that the depth-first walk
    /// meets first is returned: a word before its extensions, and branches
    /// in the order in which they were first inserted.
    pub fn best_completion(&self, prefix: &str) -> (r: Option<(String, u32)>)
        ensures
            completion_view(r) == first_best(self.completions(prefix@)),
            match r {
                Some((w, f)) => {
                    &&& prefix@.is_prefix_of(w@)
                    &&& f > 0
                    &&& self.frequency(w@) == f
                    &&& forall|v: Seq<char>|
                        prefix@.is_prefix_of(v) ==> #[trigger] self.frequency(v) <= f
                    &&& forall|v: Seq<char>|
                        prefix@.is_prefix_of(v) && proper_prefix(v, w@) ==> #[trigger]
                            self.frequency(v) < f
                },
                None => forall|v: Seq<char>|
                    prefix@.is_prefix_of(v) ==> #[trigger] self.frequency(v) == 0,
            },
    {
        proof {
            use_type_invariant(self);
        }
        let path = to_chars(prefix);
        let mut node = &self.root;
        let mut i: usize = 0;
        assert(path@.skip(0) =~= path@);
        while i < path.len()
            invariant
                i <= path@.len(),
                path@ == prefix@,
                self.wf(),
                subnode(self.root, path@) == subnode(*node, path@.skip(i as int)),
            decreases path@.len() - i,
        {
            proof {
                assert(path@.skip(i as int)[0] == path@[i as int]);
                assert(path@.skip(i as int).drop_first() =~= path@.skip(i + 1));
            }
            match node.find_child(path[i]) {
                Some(j) => {
                    node = &node.children[j].node;
                },
                None => {
                    proof {
                        self.lemma_best(prefix@);
                    }
                    return None;
                },
            }
            i += 1;
        }
        assert(path@.skip(i as int) =~= Seq::<char>::empty());
        let mut best: Option<(Vec<char>, u32)> = None;
        let mut buf = path;
        dfs_best(node, &mut buf, &mut best);
        proof {
            self.lemma_best(prefix@);
        }
        match best {
            Some((w, f)) => Some((from_chars(&w), f)),
            None => None,
        }
    }

    /// The first best completion is a word with the prefix whose frequency
    /// no word with the prefix exceeds; there is none exactly when no word
    /// begins with the prefix.
    pub proof fn lemma_best(self, prefix: Seq<char>)
        requires
            self.wf(),
        ensures
            match first_best(self.completions(prefix)) {
                Some((w, f)) => {
                    &&& prefix.is_prefix_of(w)
                    &&& f > 0
                    &&& self.frequency(w) == f
                    &&& forall|v: Seq<char>|
                        prefix.is_prefix_of(v) ==> #[trigger] self.frequency(v) <= f
                    &&& forall|v: Seq<char>|
                        prefix.is_prefix_of(v) && proper_prefix(v, w) ==> #[trigger]
                            self.frequency(v) < f
                },
                None => forall|v: Seq<char>|
                    prefix.is_prefix_of(v) ==> #[trigger] self.frequency(v) == 0,
            },
    {
        let all = self.completions(prefix);
        lemma_pick_best(None, all);
        match first_best(all) {
            Some((w, f)) => {
                assert(all.contains((w, f)));
                self.lemma_completions(prefix, w, f);
                assert forall|v: Seq<char>| prefix.is_prefix_of(v) implies #[trigger]
                    self.frequency(v) <= f by {
                    let g = self.frequency(v);
                    if g > 0 {
                        self.lemma_completions(prefix, v, g);
                        let m = choose|m: int| 0 <= m < all.len() && all[m] == (v, g);
                        assert(all[m].1 <= f);
                    }
                }
                assert forall|v: Seq<char>|
                    prefix.is_prefix_of(v) && proper_prefix(v, w) implies #[trigger]
                    self.frequency(v) < f by {
                    let g = self.frequency(v);
                    if g > 0 {
                        self.lemma_completions(prefix, v, g);
                        let m = choose|m: int| 0 <= m < all.len() && all[m] == (v, g);
                        let k = choose|k: int|
                            {
                                &&& 0 <= k < all.len()
                                &&& #[trigger] all[k] == (w, f)
                                &&& forall|j: int| 0 <= j < k ==> (#[trigger] all[j]).1 < f
                            };
                        self.lemma_completions_order(prefix, m, k);
                        assert(all[m].1 < f);
                    }
                }
            },
            None => {
                assert forall|v: Seq<char>| prefix.is_prefix_of(v) implies #[trigger]
                    self.frequency(v) == 0 by {
                    let g = self.frequency(v);
                    if g > 0 {
                        self.lemma_completions(prefix, v, g);
                    }
                }
            },
        }
    }
}

impl Default for Trie {
    /// The empty tree.
    fn default() -> (t: Trie)
        ensures
            t.wf(),
            forall|w: Seq<char>| #[trigger] t.frequency(w) == 0,
    {
        Trie::new()
    }
}

} // verus!
