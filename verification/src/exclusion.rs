//! That the check of active states never lets through two states of which
//! the declaration says that they exclude each other.

use vstd::prelude::*;
use crate::check_list::{
    fits_from, fits_in, index_of, indexed_from, indexed_in, labels_from, labels_in, labels_of,
    CheckType, PathView,
};
use crate::check_proofs::{
    acceptable, consistent, label_touches, lemma_contains_concat, touches,
};
use crate::meta_state::StateTree;

verus! {

/// Whether two children of `cs` hold the labels `x` and `y`, one each.
pub open spec fn apart(cs: Seq<StateTree>, x: Seq<char>, y: Seq<char>) -> bool {
    exists|i: int, j: int|
        0 <= i < cs.len() && 0 <= j < cs.len() && i != j && #[trigger] labels_in(cs[i]).contains(x)
            && #[trigger] labels_in(cs[j]).contains(y)
}

/// Whether the labels `x` and `y` exclude each other by what `t` declares:
/// somewhere in `t` they stand below two alternatives of one `Mutex`.
pub open spec fn excluding_in(t: StateTree, x: Seq<char>, y: Seq<char>) -> bool
    decreases t, 0int,
{
    match t {
        StateTree::Normal(_) => false,
        StateTree::Parent(_, cs) => excluding_among(cs, x, y),
        StateTree::Mutex(cs) => apart(cs, x, y) || excluding_among(cs, x, y),
    }
}

/// Whether the labels `x` and `y` exclude each other by what one of `ts`
/// declares.
pub open spec fn excluding_among(ts: Seq<StateTree>, x: Seq<char>, y: Seq<char>) -> bool
    decreases ts, 1int,
{
    exists|k: int| 0 <= k < ts.len() && excluding_in(#[trigger] ts[k], x, y)
}

/// The point that stands for the node `t` with the number `id`.
pub open spec fn point_of(t: StateTree, id: int) -> CheckType {
    match t {
        StateTree::Normal(_) => CheckType::Normal(id as u16),
        StateTree::Parent(_, _) => CheckType::Parent(id as u16),
        StateTree::Mutex(_) => CheckType::Mutex(id as u16),
    }
}

/// The number of a point.
pub open spec fn number_of(c: CheckType) -> u16 {
    match c {
        CheckType::Normal(id) => id,
        CheckType::Parent(id) => id,
        CheckType::Mutex(id) => id,
    }
}

/// The chain of the label `n`, found by going down from the node `t`,
/// which has the number `id` and stands below `path`.
pub open spec fn chain_in(t: StateTree, id: int, path: PathView, n: Seq<char>) -> PathView
    decreases t, 0int,
{
    match t {
        StateTree::Normal(_) => path.with(point_of(t, id), false),
        StateTree::Parent(_, cs) => chain_among(cs, 0, id, path.with(point_of(t, id), false), n),
        StateTree::Mutex(cs) => chain_among(cs, 0, id, path.with(point_of(t, id), true), n),
    }
}

/// The chain of the label `n`, found by going down from the first of the
/// nodes `ss[i..]` that holds it; the node at `i` has the number `id + 1`.
pub open spec fn chain_among(
    ss: Seq<StateTree>,
    i: int,
    id: int,
    path: PathView,
    n: Seq<char>,
) -> PathView
    decreases ss, ss.len() - i,
{
    if i < 0 || i >= ss.len() {
        path
    } else if labels_in(ss[i]).contains(n) {
        chain_in(ss[i], id + 1, path, n)
    } else {
        chain_among(ss, i + 1, id + 1, path, n)
    }
}

/// Where nothing occurs twice in two lists put together, nothing occurs
/// twice in either, and nothing in both.
pub proof fn lemma_concat_no_duplicates<A>(a: Seq<A>, b: Seq<A>)
    requires
        (a + b).no_duplicates(),
    ensures
        a.no_duplicates(),
        b.no_duplicates(),
        forall|x: A| !(a.contains(x) && b.contains(x)),
{
    let c = a + b;
    assert forall|i: int, j: int| 0 <= i < a.len() && 0 <= j < a.len() && i != j implies a[i]
        != a[j] by {
        assert(c[i] == a[i] && c[j] == a[j]);
    }
    assert forall|i: int, j: int| 0 <= i < b.len() && 0 <= j < b.len() && i != j implies b[i]
        != b[j] by {
        assert(c[a.len() + i] == b[i] && c[a.len() + j] == b[j]);
    }
    assert forall|x: A| !(a.contains(x) && b.contains(x)) by {
        if a.contains(x) && b.contains(x) {
            let i = choose|i: int| 0 <= i < a.len() && a[i] == x;
            let j = choose|j: int| 0 <= j < b.len() && b[j] == x;
            assert(c[i] == x && c[a.len() + j] == x);
        }
    }
}

/// What is added for the nodes `ss[i..]` leaves the chains of all other
/// names as they are.
proof fn lemma_index_frame(
    ss: Seq<StateTree>,
    i: int,
    id: int,
    path: PathView,
    m: Map<Seq<char>, PathView>,
    n: Seq<char>,
)
    requires
        0 <= i <= ss.len(),
        !labels_from(ss, i).contains(n),
    ensures
        indexed_from(ss, i, id, path, m)[n] == m[n],
    decreases ss, ss.len() - i,
{
    if i < ss.len() {
        lemma_contains_concat(labels_in(ss[i]), labels_from(ss, i + 1), n);
        assert(labels_from(ss, i) == labels_in(ss[i]) + labels_from(ss, i + 1));
        let first = indexed_in(ss[i], id + 1, path, m);
        lemma_index_frame_in(ss[i], id + 1, path, m, n);
        lemma_index_frame(ss, i + 1, id + 1, path, first, n);
        assert(indexed_from(ss, i, id, path, m) == indexed_from(ss, i + 1, id + 1, path, first));
    }
}

proof fn lemma_index_frame_in(
    t: StateTree,
    id: int,
    path: PathView,
    m: Map<Seq<char>, PathView>,
    n: Seq<char>,
)
    requires
        !labels_in(t).contains(n),
    ensures
        indexed_in(t, id, path, m)[n] == m[n],
    decreases t, 0int,
{
    match t {
        StateTree::Normal(name) => {
            assert(seq![name][0] == name);
            assert(name != n);
        },
        StateTree::Parent(_, cs) => {
            lemma_index_frame(cs, 0, id, path.with(CheckType::Parent(id as u16), false), m, n);
        },
        StateTree::Mutex(cs) => {
            lemma_index_frame(cs, 0, id, path.with(CheckType::Mutex(id as u16), true), m, n);
        },
    }
}

/// In a declaration where no label name occurs twice, the chain that is
/// kept for a label is the one found by going down to it.
proof fn lemma_index_chain(
    ss: Seq<StateTree>,
    i: int,
    id: int,
    path: PathView,
    m: Map<Seq<char>, PathView>,
    n: Seq<char>,
)
    requires
        0 <= i <= ss.len(),
        labels_from(ss, i).no_duplicates(),
        labels_from(ss, i).contains(n),
    ensures
        indexed_from(ss, i, id, path, m)[n] == chain_among(ss, i, id, path, n),
    decreases ss, ss.len() - i,
{
    if i < ss.len() {
        let a = labels_in(ss[i]);
        let rest = labels_from(ss, i + 1);
        assert(labels_from(ss, i) == a + rest);
        lemma_concat_no_duplicates(a, rest);
        lemma_contains_concat(a, rest, n);
        let first = indexed_in(ss[i], id + 1, path, m);
        assert(indexed_from(ss, i, id, path, m) == indexed_from(ss, i + 1, id + 1, path, first));
        if a.contains(n) {
            lemma_index_chain_in(ss[i], id + 1, path, m, n);
            lemma_index_frame(ss, i + 1, id + 1, path, first, n);
        } else {
            lemma_index_chain(ss, i + 1, id + 1, path, first, n);
        }
    }
}

proof fn lemma_index_chain_in(
    t: StateTree,
    id: int,
    path: PathView,
    m: Map<Seq<char>, PathView>,
    n: Seq<char>,
)
    requires
        labels_in(t).no_duplicates(),
        labels_in(t).contains(n),
    ensures
        indexed_in(t, id, path, m)[n] == chain_in(t, id, path, n),
    decreases t, 0int,
{
    match t {
        StateTree::Normal(name) => {
            let k = choose|k: int| 0 <= k < seq![name].len() && seq![name][k] == n;
            assert(name == n);
        },
        StateTree::Parent(_, cs) => {
            lemma_index_chain(cs, 0, id, path.with(CheckType::Parent(id as u16), false), m, n);
        },
        StateTree::Mutex(cs) => {
            lemma_index_chain(cs, 0, id, path.with(CheckType::Mutex(id as u16), true), m, n);
        },
    }
}

/// Where no label name occurs twice among `ss[i..]`, the chain of a label
/// below `ss[k]` is found by going down from `ss[k]`, which has the number
/// `id + (k - i) + 1`.
proof fn lemma_chain_among_at(
    ss: Seq<StateTree>,
    i: int,
    id: int,
    path: PathView,
    n: Seq<char>,
    k: int,
)
    requires
        0 <= i <= k < ss.len(),
        labels_from(ss, i).no_duplicates(),
        labels_in(ss[k]).contains(n),
    ensures
        chain_among(ss, i, id, path, n) == chain_in(ss[k], id + (k - i) + 1, path, n),
        labels_in(ss[k]).no_duplicates(),
    decreases k - i,
{
    let a = labels_in(ss[i]);
    let rest = labels_from(ss, i + 1);
    assert(labels_from(ss, i) == a + rest);
    lemma_concat_no_duplicates(a, rest);
    if i < k {
        lemma_labels_from_holds(ss, i + 1, k, n);
        lemma_chain_among_at(ss, i + 1, id + 1, path, n, k);
    }
}

/// What a node holds is among what it and the nodes behind it hold.
proof fn lemma_labels_from_holds(ss: Seq<StateTree>, i: int, k: int, n: Seq<char>)
    requires
        0 <= i <= k < ss.len(),
        labels_in(ss[k]).contains(n),
    ensures
        labels_from(ss, i).contains(n),
    decreases k - i,
{
    lemma_contains_concat(labels_in(ss[i]), labels_from(ss, i + 1), n);
    assert(labels_from(ss, i) == labels_in(ss[i]) + labels_from(ss, i + 1));
    if i < k {
        lemma_labels_from_holds(ss, i + 1, k, n);
    }
}

/// Where the numbers of `ss[i..]` fit, the number of `ss[k]` fits and so
/// do the numbers below it.
proof fn lemma_fits_at(ss: Seq<StateTree>, i: int, id: int, k: int)
    requires
        0 <= i <= k < ss.len(),
        fits_from(ss, i, id),
    ensures
        id + (k - i) + 1 <= u16::MAX,
        fits_in(ss[k], id + (k - i) + 1),
    decreases k - i,
{
    if i < k {
        lemma_fits_at(ss, i + 1, id + 1, k);
    }
}

/// The number of the last of `points` from `k` on, or `last` if there is
/// none.
pub open spec fn last_number(points: Seq<CheckType>, k: int, last: u16) -> u16
    decreases points.len() - k,
{
    if k < 0 || k >= points.len() {
        last
    } else {
        last_number(points, k + 1, number_of(points[k]))
    }
}

proof fn lemma_last_number(points: Seq<CheckType>, k: int, last: u16)
    requires
        0 <= k < points.len(),
    ensures
        last_number(points, k, last) == number_of(points.last()),
    decreases points.len() - k,
{
    if k + 1 < points.len() {
        lemma_last_number(points, k + 1, number_of(points[k]));
    } else {
        assert(last_number(points, k + 1, number_of(points[k])) == number_of(points[k]));
    }
}

/// Following two chains put together takes what the first takes and then
/// what the second takes, begun with the number that the first ends with.
proof fn lemma_touches_concat(a: Seq<CheckType>, b: Seq<CheckType>, k: int, last: u16)
    requires
        0 <= k <= a.len(),
    ensures
        touches(a + b, k, last) == touches(a, k, last) + touches(b, 0, last_number(a, k, last)),
    decreases a.len() - k,
{
    let c = a + b;
    if k == a.len() {
        assert(touches(a, k, last) =~= Seq::empty());
        lemma_touches_shift(a, b, 0, last);
        assert(Seq::<(u16, u16)>::empty() + touches(b, 0, last) =~= touches(b, 0, last));
    } else {
        assert(c[k] == a[k]);
        lemma_touches_concat(a, b, k + 1, number_of(a[k]));
        match a[k] {
            CheckType::Mutex(id) => {
                assert(seq![(id, last)] + (touches(a, k + 1, id) + touches(
                    b,
                    0,
                    last_number(a, k + 1, id),
                )) =~= (seq![(id, last)] + touches(a, k + 1, id)) + touches(
                    b,
                    0,
                    last_number(a, k + 1, id),
                ));
            },
            _ => {},
        }
    }
}

/// Following the second of two chains put together is following it alone.
proof fn lemma_touches_shift(a: Seq<CheckType>, b: Seq<CheckType>, k: int, last: u16)
    requires
        0 <= k <= b.len(),
    ensures
        touches(a + b, a.len() + k, last) == touches(b, k, last),
    decreases b.len() - k,
{
    let c = a + b;
    if k < b.len() {
        assert(c[a.len() + k] == b[k]);
        lemma_touches_shift(a, b, k + 1, number_of(b[k]));
    }
}

/// What stands in the chain of a label in front of the node `t`, below
/// which the label is.
pub open spec fn front_in(t: StateTree, id: int, n: Seq<char>) -> Seq<CheckType>
    decreases t, 0int,
{
    match t {
        StateTree::Normal(_) => Seq::empty(),
        StateTree::Parent(_, cs) => front_among(cs, 0, id, n),
        StateTree::Mutex(cs) => front_among(cs, 0, id, n),
    }
}

/// What stands in the chain of a label in front of the node above
/// `ss[i..]`, below one of which the label is.
pub open spec fn front_among(ss: Seq<StateTree>, i: int, id: int, n: Seq<char>) -> Seq<CheckType>
    decreases ss, ss.len() - i,
{
    if i < 0 || i >= ss.len() {
        Seq::empty()
    } else if labels_in(ss[i]).contains(n) {
        front_in(ss[i], id + 1, n).push(point_of(ss[i], id + 1))
    } else {
        front_among(ss, i + 1, id + 1, n)
    }
}

/// The chain of a label below `t` is what stands in front of `t`, then
/// `t`, then the chain above `t`; it is marked where `t` is a `Mutex` or
/// the chain above is marked.
proof fn lemma_chain_in_parts(t: StateTree, id: int, path: PathView, n: Seq<char>)
    requires
        labels_in(t).contains(n),
    ensures
        chain_in(t, id, path, n).desc_seq == front_in(t, id, n).push(point_of(t, id))
            + path.desc_seq,
        path.is_mutex || t is Mutex ==> chain_in(t, id, path, n).is_mutex,
    decreases t, 0int,
{
    let p = point_of(t, id);
    match t {
        StateTree::Normal(_) => {
            assert(Seq::<CheckType>::empty().push(p) + path.desc_seq =~= seq![p] + path.desc_seq);
        },
        StateTree::Parent(_, cs) => {
            let longer = path.with(p, false);
            lemma_chain_among_parts(cs, 0, id, longer, n);
            assert(front_among(cs, 0, id, n) + longer.desc_seq =~= front_among(cs, 0, id, n).push(
                p,
            ) + path.desc_seq);
        },
        StateTree::Mutex(cs) => {
            let longer = path.with(p, true);
            lemma_chain_among_parts(cs, 0, id, longer, n);
            assert(front_among(cs, 0, id, n) + longer.desc_seq =~= front_among(cs, 0, id, n).push(
                p,
            ) + path.desc_seq);
        },
    }
}

proof fn lemma_chain_among_parts(
    ss: Seq<StateTree>,
    i: int,
    id: int,
    path: PathView,
    n: Seq<char>,
)
    requires
        0 <= i <= ss.len(),
        labels_from(ss, i).contains(n),
    ensures
        chain_among(ss, i, id, path, n).desc_seq == front_among(ss, i, id, n) + path.desc_seq,
        front_among(ss, i, id, n).len() > 0,
        path.is_mutex ==> chain_among(ss, i, id, path, n).is_mutex,
    decreases ss, ss.len() - i,
{
    if i < ss.len() {
        lemma_contains_concat(labels_in(ss[i]), labels_from(ss, i + 1), n);
        assert(labels_from(ss, i) == labels_in(ss[i]) + labels_from(ss, i + 1));
        if labels_in(ss[i]).contains(n) {
            lemma_chain_in_parts(ss[i], id + 1, path, n);
        } else {
            lemma_chain_among_parts(ss, i + 1, id + 1, path, n);
        }
    } else {
        assert(labels_from(ss, i) =~= Seq::empty());
        let k = choose|k: int| 0 <= k < labels_from(ss, i).len() && labels_from(ss, i)[k] == n;
    }
}

/// A label below the alternative `cs[i]` of a `Mutex` with the number `id`
/// takes of that `Mutex` the alternative with the number of `cs[i]`.
proof fn lemma_alternative_taken(
    cs: Seq<StateTree>,
    id: int,
    path: PathView,
    n: Seq<char>,
    i: int,
)
    requires
        0 <= i < cs.len(),
        labels_from(cs, 0).no_duplicates(),
        labels_in(cs[i]).contains(n),
    ensures
        chain_among(cs, 0, id, path.with(CheckType::Mutex(id as u16), true), n).is_mutex,
        touches(
            chain_among(cs, 0, id, path.with(CheckType::Mutex(id as u16), true), n).desc_seq,
            0,
            0,
        ).contains((id as u16, (id + i + 1) as u16)),
{
    let m = CheckType::Mutex(id as u16);
    let longer = path.with(m, true);
    lemma_chain_among_at(cs, 0, id, longer, n, i);
    let chain = chain_in(cs[i], id + i + 1, longer, n);
    lemma_chain_in_parts(cs[i], id + i + 1, longer, n);
    let a = front_in(cs[i], id + i + 1, n).push(point_of(cs[i], id + i + 1));
    let b = longer.desc_seq;
    assert(chain.desc_seq == a + b);
    lemma_touches_concat(a, b, 0, 0);
    lemma_last_number(a, 0, 0);
    assert(number_of(a.last()) == (id + i + 1) as u16);
    let tb = touches(b, 0, (id + i + 1) as u16);
    assert(b[0] == m);
    assert(tb[0] == (id as u16, (id + i + 1) as u16));
    let ta = touches(a, 0, 0);
    assert((ta + tb)[ta.len() as int] == tb[0]);
}

/// The labels that exclude each other by what `t` declares are labels of
/// `t`.
proof fn lemma_excluding_are_labels(t: StateTree, x: Seq<char>, y: Seq<char>)
    requires
        excluding_in(t, x, y),
    ensures
        labels_in(t).contains(x),
        labels_in(t).contains(y),
    decreases t, 0int,
{
    match t {
        StateTree::Normal(_) => {},
        StateTree::Parent(_, cs) => {
            let k = choose|k: int| 0 <= k < cs.len() && excluding_in(#[trigger] cs[k], x, y);
            lemma_excluding_are_labels(cs[k], x, y);
            lemma_labels_from_holds(cs, 0, k, x);
            lemma_labels_from_holds(cs, 0, k, y);
        },
        StateTree::Mutex(cs) => {
            if apart(cs, x, y) {
                let (i, j) = choose|i: int, j: int|
                    0 <= i < cs.len() && 0 <= j < cs.len() && i != j && #[trigger] labels_in(
                        cs[i],
                    ).contains(x) && #[trigger] labels_in(cs[j]).contains(y);
                lemma_labels_from_holds(cs, 0, i, x);
                lemma_labels_from_holds(cs, 0, j, y);
            } else {
                let k = choose|k: int| 0 <= k < cs.len() && excluding_in(#[trigger] cs[k], x, y);
                lemma_excluding_are_labels(cs[k], x, y);
                lemma_labels_from_holds(cs, 0, k, x);
                lemma_labels_from_holds(cs, 0, k, y);
            }
        },
    }
}

proof fn lemma_excluding_in(t: StateTree, id: int, path: PathView, x: Seq<char>, y: Seq<char>)
    requires
        0 <= id <= u16::MAX,
        fits_in(t, id),
        labels_in(t).no_duplicates(),
        excluding_in(t, x, y),
    ensures
        chain_in(t, id, path, x).is_mutex,
        chain_in(t, id, path, y).is_mutex,
        !consistent(
            touches(chain_in(t, id, path, x).desc_seq, 0, 0),
            touches(chain_in(t, id, path, y).desc_seq, 0, 0),
        ),
    decreases t, 0int,
{
    match t {
        StateTree::Normal(_) => {},
        StateTree::Parent(_, cs) => {
            lemma_excluding_among(cs, id, path.with(point_of(t, id), false), x, y);
        },
        StateTree::Mutex(cs) => {
            let longer = path.with(point_of(t, id), true);
            if apart(cs, x, y) {
                let (i, j) = choose|i: int, j: int|
                    0 <= i < cs.len() && 0 <= j < cs.len() && i != j && #[trigger] labels_in(
                        cs[i],
                    ).contains(x) && #[trigger] labels_in(cs[j]).contains(y);
                lemma_alternative_taken(cs, id, path, x, i);
                lemma_alternative_taken(cs, id, path, y, j);
                lemma_fits_at(cs, 0, id, i);
                lemma_fits_at(cs, 0, id, j);
                let tx = touches(chain_in(t, id, path, x).desc_seq, 0, 0);
                let ty = touches(chain_in(t, id, path, y).desc_seq, 0, 0);
                let px = (id as u16, (id + i + 1) as u16);
                let py = (id as u16, (id + j + 1) as u16);
                let a = choose|a: int| 0 <= a < tx.len() && tx[a] == px;
                let b = choose|b: int| 0 <= b < ty.len() && ty[b] == py;
                assert(tx[a].0 == ty[b].0 && tx[a].1 != ty[b].1);
            } else {
                lemma_excluding_among(cs, id, longer, x, y);
            }
        },
    }
}

proof fn lemma_excluding_among(
    cs: Seq<StateTree>,
    id: int,
    path: PathView,
    x: Seq<char>,
    y: Seq<char>,
)
    requires
        0 <= id <= u16::MAX,
        fits_from(cs, 0, id),
        labels_from(cs, 0).no_duplicates(),
        excluding_among(cs, x, y),
    ensures
        chain_among(cs, 0, id, path, x).is_mutex,
        chain_among(cs, 0, id, path, y).is_mutex,
        !consistent(
            touches(chain_among(cs, 0, id, path, x).desc_seq, 0, 0),
            touches(chain_among(cs, 0, id, path, y).desc_seq, 0, 0),
        ),
    decreases cs, 1int,
{
    let k = choose|k: int| 0 <= k < cs.len() && excluding_in(#[trigger] cs[k], x, y);
    lemma_excluding_are_labels(cs[k], x, y);
    lemma_chain_among_at(cs, 0, id, path, x, k);
    lemma_chain_among_at(cs, 0, id, path, y, k);
    lemma_fits_at(cs, 0, id, k);
    lemma_excluding_in(cs[k], id + k + 1, path, x, y);
}

/// In a declaration in which no label name occurs twice, the chain kept
/// for a label is the one found by going down to the label from the top.
pub proof fn lemma_index_is_the_chain(ss: Seq<StateTree>, n: Seq<char>)
    requires
        labels_of(ss).no_duplicates(),
        labels_of(ss).contains(n),
    ensures
        index_of(ss)[n] == chain_among(ss, 0, 0, PathView::root(), n),
{
    lemma_index_chain(ss, 0, 0, PathView::root(), Map::empty(), n);
}

/// Two labels that stand below two alternatives of one `Mutex` are never
/// accepted together: in a declaration `ss` in which no label name occurs
/// twice and whose nodes can be numbered, a set of states that holds two
/// such labels cannot be active.
pub proof fn lemma_excluding_states_are_refused(
    ss: Seq<StateTree>,
    names: Set<Seq<char>>,
    x: Seq<char>,
    y: Seq<char>,
)
    requires
        labels_of(ss).no_duplicates(),
        fits_from(ss, 0, 0),
        excluding_among(ss, x, y),
        names.contains(x),
        names.contains(y),
    ensures
        !acceptable(index_of(ss), names),
{
    let index = index_of(ss);
    let k = choose|k: int| 0 <= k < ss.len() && excluding_in(#[trigger] ss[k], x, y);
    lemma_excluding_are_labels(ss[k], x, y);
    lemma_labels_from_holds(ss, 0, k, x);
    lemma_labels_from_holds(ss, 0, k, y);
    lemma_index_chain(ss, 0, 0, PathView::root(), Map::empty(), x);
    lemma_index_chain(ss, 0, 0, PathView::root(), Map::empty(), y);
    lemma_excluding_among(ss, 0, PathView::root(), x, y);
    crate::check_proofs::lemma_index_holds_the_labels(ss);
    assert(index.contains_key(x) && index.contains_key(y));
    assert(!consistent(label_touches(index, x), label_touches(index, y)));
}

} // verus!
