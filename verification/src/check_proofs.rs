//! What holds of the chains of a declaration and of the check of active
//! states, whatever the declaration and the states are.

use vstd::prelude::*;
use crate::check_list::{
    first_undefined, index_of, indexed_from, indexed_in, judged, labels_from, labels_in, labels_of,
    lemma_first_undefined, verdict_of, walked, CheckType, PathView, Verdict,
};
use crate::meta_state::StateTree;

verus! {

/// What is in one of two lists put together is in one of them.
pub proof fn lemma_contains_concat<A>(a: Seq<A>, b: Seq<A>, x: A)
    ensures
        (a + b).contains(x) <==> a.contains(x) || b.contains(x),
{
    let c = a + b;
    if c.contains(x) {
        let k = choose|k: int| 0 <= k < c.len() && c[k] == x;
        if k < a.len() {
            assert(a[k] == x);
        } else {
            assert(b[k - a.len()] == x);
        }
    }
    if a.contains(x) {
        let k = choose|k: int| 0 <= k < a.len() && a[k] == x;
        assert(c[k] == x);
    }
    if b.contains(x) {
        let k = choose|k: int| 0 <= k < b.len() && b[k] == x;
        assert(c[a.len() + k] == x);
    }
}

/// Whether a `Mutex` is among `points`.
pub open spec fn has_mutex(points: Seq<CheckType>) -> bool {
    exists|k: int| 0 <= k < points.len() && #[trigger] points[k] is Mutex
}

/// Whether `p` is the chain of a label: it begins with the label, and it is
/// marked exactly when a `Mutex` is on it.
pub open spec fn is_label_chain(p: PathView) -> bool {
    &&& p.desc_seq.len() > 0
    &&& p.desc_seq[0] is Normal
    &&& p.is_mutex == has_mutex(p.desc_seq)
}

proof fn lemma_with_keeps_mark(path: PathView, c: CheckType)
    requires
        path.is_mutex == has_mutex(path.desc_seq),
    ensures
        path.with(c, c is Mutex).is_mutex == has_mutex(path.with(c, c is Mutex).desc_seq),
{
    let longer = path.with(c, c is Mutex);
    if has_mutex(path.desc_seq) {
        let k = choose|k: int| 0 <= k < path.desc_seq.len() && #[trigger] path.desc_seq[k] is Mutex;
        assert(longer.desc_seq[k + 1] is Mutex);
    }
    if c is Mutex {
        assert(longer.desc_seq[0] is Mutex);
    }
    if has_mutex(longer.desc_seq) {
        let k = choose|k: int| 0 <= k < longer.desc_seq.len() && #[trigger] longer.desc_seq[k]
            is Mutex;
        if k > 0 {
            assert(path.desc_seq[k - 1] is Mutex);
        }
    }
}

proof fn lemma_indexed_from(
    ss: Seq<StateTree>,
    i: int,
    id: int,
    path: PathView,
    m: Map<Seq<char>, PathView>,
)
    requires
        0 <= i <= ss.len(),
        path.is_mutex == has_mutex(path.desc_seq),
        forall|n: Seq<char>| m.contains_key(n) ==> is_label_chain(#[trigger] m[n]),
    ensures
        forall|n: Seq<char>| #[trigger]
            indexed_from(ss, i, id, path, m).contains_key(n) <==> m.contains_key(n)
                || labels_from(ss, i).contains(n),
        forall|n: Seq<char>|
            indexed_from(ss, i, id, path, m).contains_key(n) ==> is_label_chain(
                #[trigger] indexed_from(ss, i, id, path, m)[n],
            ),
    decreases ss, ss.len() - i,
{
    if i < ss.len() {
        let first = indexed_in(ss[i], id + 1, path, m);
        lemma_indexed_in(ss[i], id + 1, path, m);
        lemma_indexed_from(ss, i + 1, id + 1, path, first);
        let all = indexed_from(ss, i, id, path, m);
        assert(all == indexed_from(ss, i + 1, id + 1, path, first));
        assert(labels_from(ss, i) == labels_in(ss[i]) + labels_from(ss, i + 1));
        assert forall|n: Seq<char>| #[trigger]
            all.contains_key(n) <==> m.contains_key(n) || labels_from(ss, i).contains(n) by {
            lemma_contains_concat(labels_in(ss[i]), labels_from(ss, i + 1), n);
            assert(first.contains_key(n) <==> m.contains_key(n) || labels_in(ss[i]).contains(n));
            assert(all.contains_key(n) <==> first.contains_key(n) || labels_from(
                ss,
                i + 1,
            ).contains(n));
        }
        assert forall|n: Seq<char>| all.contains_key(n) implies is_label_chain(
            #[trigger] all[n],
        ) by {}
    }
}

proof fn lemma_indexed_in(t: StateTree, id: int, path: PathView, m: Map<Seq<char>, PathView>)
    requires
        path.is_mutex == has_mutex(path.desc_seq),
        forall|n: Seq<char>| m.contains_key(n) ==> is_label_chain(#[trigger] m[n]),
    ensures
        forall|n: Seq<char>| #[trigger]
            indexed_in(t, id, path, m).contains_key(n) <==> m.contains_key(n) || labels_in(
                t,
            ).contains(n),
        forall|n: Seq<char>|
            indexed_in(t, id, path, m).contains_key(n) ==> is_label_chain(
                #[trigger] indexed_in(t, id, path, m)[n],
            ),
    decreases t, 0int,
{
    match t {
        StateTree::Normal(name) => {
            let c = CheckType::Normal(id as u16);
            lemma_with_keeps_mark(path, c);
            let longer = path.with(c, false);
            assert(longer.desc_seq[0] == c);
            let all = indexed_in(t, id, path, m);
            assert(all == m.insert(name, longer));
            assert(labels_in(t) == seq![name]);
            assert forall|n: Seq<char>| #[trigger]
                all.contains_key(n) <==> m.contains_key(n) || labels_in(t).contains(n) by {
                assert(seq![name][0] == name);
                if seq![name].contains(n) {
                    let k = choose|k: int| 0 <= k < seq![name].len() && seq![name][k] == n;
                    assert(k == 0);
                }
            }
            assert forall|n: Seq<char>| all.contains_key(n) implies is_label_chain(
                #[trigger] all[n],
            ) by {
                if n != name {
                    assert(m.contains_key(n));
                }
            }
        },
        StateTree::Parent(_, cs) => {
            let c = CheckType::Parent(id as u16);
            lemma_with_keeps_mark(path, c);
            lemma_indexed_from(cs, 0, id, path.with(c, false), m);
            assert(indexed_in(t, id, path, m) == indexed_from(cs, 0, id, path.with(c, false), m));
            assert(labels_in(t) == labels_from(cs, 0));
        },
        StateTree::Mutex(cs) => {
            let c = CheckType::Mutex(id as u16);
            lemma_with_keeps_mark(path, c);
            lemma_indexed_from(cs, 0, id, path.with(c, true), m);
            assert(indexed_in(t, id, path, m) == indexed_from(cs, 0, id, path.with(c, true), m));
            assert(labels_in(t) == labels_from(cs, 0));
        },
    }
}

/// The names that can be active are the names of the labels: a name has a
/// chain exactly when the declaration has a label of that name, so the
/// name of a group has none. Every chain begins with its label and is
/// marked exactly when a `Mutex` is on it.
pub proof fn lemma_index_holds_the_labels(ss: Seq<StateTree>)
    ensures
        forall|n: Seq<char>| #[trigger] index_of(ss).contains_key(n) <==> labels_of(ss).contains(n),
        forall|n: Seq<char>|
            index_of(ss).contains_key(n) ==> is_label_chain(#[trigger] index_of(ss)[n]),
{
    lemma_indexed_from(ss, 0, 0, PathView::root(), Map::empty());
}

/// The alternatives that following `points` from position `k` on takes:
/// for every `Mutex` on the way its number and the number of the node
/// passed before it.
pub open spec fn touches(points: Seq<CheckType>, k: int, last: u16) -> Seq<(u16, u16)>
    decreases points.len() - k,
{
    if k < 0 || k >= points.len() {
        Seq::empty()
    } else {
        match points[k] {
            CheckType::Normal(id) => touches(points, k + 1, id),
            CheckType::Parent(id) => touches(points, k + 1, id),
            CheckType::Mutex(id) => seq![(id, last)] + touches(points, k + 1, id),
        }
    }
}

/// The alternatives that the state `name` takes; none if it is not
/// declared or has no `Mutex` on its chain.
pub open spec fn label_touches(index: Map<Seq<char>, PathView>, name: Seq<char>) -> Seq<
    (u16, u16),
> {
    if index.contains_key(name) && index[name].is_mutex {
        touches(index[name].desc_seq, 0, 0)
    } else {
        Seq::empty()
    }
}

/// Whether `a` and `b` take the same alternative of every `Mutex` that
/// both pass.
pub open spec fn consistent(a: Seq<(u16, u16)>, b: Seq<(u16, u16)>) -> bool {
    forall|x: int, y: int|
        0 <= x < a.len() && 0 <= y < b.len() && (#[trigger] a[x]).0 == (#[trigger] b[y]).0
            ==> a[x].1 == b[y].1
}

/// Whether `pairs` takes of every `Mutex` the alternative that `chosen`
/// holds for it, where it holds one.
pub open spec fn compatible(chosen: Map<u16, u16>, pairs: Seq<(u16, u16)>) -> bool {
    forall|x: int|
        0 <= x < pairs.len() && chosen.contains_key((#[trigger] pairs[x]).0) ==> chosen[pairs[x].0]
            == pairs[x].1
}

/// `chosen` with the alternatives `pairs` recorded one after the other, or
/// `None` where one of them is another than the one recorded before.
pub open spec fn recorded(chosen: Map<u16, u16>, pairs: Seq<(u16, u16)>) -> Option<Map<u16, u16>>
    decreases pairs.len(),
{
    if pairs.len() == 0 {
        Some(chosen)
    } else if chosen.contains_key(pairs[0].0) && chosen[pairs[0].0] != pairs[0].1 {
        None
    } else {
        recorded(chosen.insert(pairs[0].0, pairs[0].1), pairs.drop_first())
    }
}

proof fn lemma_walked_records(points: Seq<CheckType>, k: int, last: u16, chosen: Map<u16, u16>)
    requires
        0 <= k <= points.len(),
    ensures
        walked(points, k, last, chosen) == recorded(chosen, touches(points, k, last)),
    decreases points.len() - k,
{
    if k < points.len() {
        match points[k] {
            CheckType::Normal(id) => {
                lemma_walked_records(points, k + 1, id, chosen);
            },
            CheckType::Parent(id) => {
                lemma_walked_records(points, k + 1, id, chosen);
            },
            CheckType::Mutex(id) => {
                let rest = touches(points, k + 1, id);
                let all = seq![(id, last)] + rest;
                assert(all[0] == (id, last));
                assert(all.drop_first() =~= rest);
                lemma_walked_records(points, k + 1, id, chosen.insert(id, last));
            },
        }
    }
}

proof fn lemma_recorded(chosen: Map<u16, u16>, pairs: Seq<(u16, u16)>, other: Seq<(u16, u16)>)
    ensures
        recorded(chosen, pairs) is Some <==> compatible(chosen, pairs) && consistent(pairs, pairs),
        recorded(chosen, pairs) matches Some(c) ==> (compatible(c, other) <==> compatible(
            chosen,
            other,
        ) && consistent(pairs, other)),
    decreases pairs.len(),
{
    if pairs.len() == 0 {
    } else {
        let e = pairs[0].0;
        let v = pairs[0].1;
        let rest = pairs.drop_first();
        assert forall|x: int| 0 <= x < rest.len() implies #[trigger] rest[x] == pairs[x + 1] by {}
        if chosen.contains_key(e) && chosen[e] != v {
            assert(!compatible(chosen, pairs));
        } else {
            let c1 = chosen.insert(e, v);
            lemma_recorded(c1, rest, other);
            // the first pair against the rest
            let head_ok = forall|x: int|
                0 <= x < rest.len() && (#[trigger] rest[x]).0 == e ==> rest[x].1 == v;
            assert(compatible(c1, rest) <==> compatible(chosen, rest) && head_ok) by {
                if compatible(c1, rest) {
                    assert forall|x: int|
                        0 <= x < rest.len() && chosen.contains_key(
                            (#[trigger] rest[x]).0,
                        ) implies chosen[rest[x].0] == rest[x].1 by {
                        assert(c1.contains_key(rest[x].0));
                    }
                    assert forall|x: int| 0 <= x < rest.len() && (#[trigger] rest[x]).0
                        == e implies rest[x].1 == v by {
                        assert(c1.contains_key(rest[x].0));
                    }
                }
                if compatible(chosen, rest) && head_ok {
                    assert forall|x: int|
                        0 <= x < rest.len() && c1.contains_key(
                            (#[trigger] rest[x]).0,
                        ) implies c1[rest[x].0] == rest[x].1 by {
                        if rest[x].0 != e {
                            assert(chosen.contains_key(rest[x].0));
                        }
                    }
                }
            }
            assert(compatible(chosen, pairs) <==> compatible(chosen, rest)) by {
                if compatible(chosen, pairs) {
                    assert forall|x: int|
                        0 <= x < rest.len() && chosen.contains_key(
                            (#[trigger] rest[x]).0,
                        ) implies chosen[rest[x].0] == rest[x].1 by {
                        assert(pairs[x + 1] == rest[x]);
                    }
                }
                if compatible(chosen, rest) {
                    assert forall|x: int|
                        0 <= x < pairs.len() && chosen.contains_key(
                            (#[trigger] pairs[x]).0,
                        ) implies chosen[pairs[x].0] == pairs[x].1 by {
                        if x > 0 {
                            assert(rest[x - 1] == pairs[x]);
                        }
                    }
                }
            }
            assert(consistent(pairs, pairs) <==> consistent(rest, rest) && head_ok) by {
                if consistent(pairs, pairs) {
                    assert forall|x: int, y: int|
                        0 <= x < rest.len() && 0 <= y < rest.len() && (#[trigger] rest[x]).0 == (
                        #[trigger] rest[y]).0 implies rest[x].1 == rest[y].1 by {
                        assert(pairs[x + 1] == rest[x] && pairs[y + 1] == rest[y]);
                    }
                    assert forall|x: int| 0 <= x < rest.len() && (#[trigger] rest[x]).0
                        == e implies rest[x].1 == v by {
                        assert(pairs[x + 1] == rest[x] && pairs[0].0 == e);
                    }
                }
                if consistent(rest, rest) && head_ok {
                    assert forall|x: int, y: int|
                        0 <= x < pairs.len() && 0 <= y < pairs.len() && (#[trigger] pairs[x]).0
                            == (#[trigger] pairs[y]).0 implies pairs[x].1 == pairs[y].1 by {
                        if x > 0 {
                            assert(rest[x - 1] == pairs[x]);
                        }
                        if y > 0 {
                            assert(rest[y - 1] == pairs[y]);
                        }
                    }
                }
            }
            if recorded(chosen, pairs) is Some {
                let c = recorded(chosen, pairs)->0;
                let head_other = forall|y: int|
                    0 <= y < other.len() && (#[trigger] other[y]).0 == e ==> other[y].1 == v;
                assert(compatible(c1, other) <==> compatible(chosen, other) && head_other) by {
                    if compatible(c1, other) {
                        assert forall|y: int|
                            0 <= y < other.len() && chosen.contains_key(
                                (#[trigger] other[y]).0,
                            ) implies chosen[other[y].0] == other[y].1 by {
                            assert(c1.contains_key(other[y].0));
                        }
                        assert forall|y: int| 0 <= y < other.len() && (#[trigger] other[y]).0
                            == e implies other[y].1 == v by {
                            assert(c1.contains_key(other[y].0));
                        }
                    }
                    if compatible(chosen, other) && head_other {
                        assert forall|y: int|
                            0 <= y < other.len() && c1.contains_key(
                                (#[trigger] other[y]).0,
                            ) implies c1[other[y].0] == other[y].1 by {
                            if other[y].0 != e {
                                assert(chosen.contains_key(other[y].0));
                            }
                        }
                    }
                }
                assert(consistent(pairs, other) <==> consistent(rest, other) && head_other) by {
                    if consistent(pairs, other) {
                        assert forall|x: int, y: int|
                            0 <= x < rest.len() && 0 <= y < other.len() && (#[trigger] rest[x]).0
                                == (#[trigger] other[y]).0 implies rest[x].1 == other[y].1 by {
                            assert(pairs[x + 1] == rest[x]);
                        }
                        assert forall|y: int| 0 <= y < other.len() && (#[trigger] other[y]).0
                            == e implies other[y].1 == v by {
                            assert(pairs[0].0 == e);
                        }
                    }
                    if consistent(rest, other) && head_other {
                        assert forall|x: int, y: int|
                            0 <= x < pairs.len() && 0 <= y < other.len() && (
                            #[trigger] pairs[x]).0 == (#[trigger] other[y]).0 implies pairs[x].1
                            == other[y].1 by {
                            if x > 0 {
                                assert(rest[x - 1] == pairs[x]);
                            }
                        }
                    }
                }
            }
        }
    }
}

/// Whether the states `names` can be active together: each of them is a
/// declared label, and no two of them, nor one on its own chain, take
/// different alternatives of a `Mutex` with one number.
pub open spec fn acceptable(index: Map<Seq<char>, PathView>, names: Set<Seq<char>>) -> bool {
    &&& forall|n: Seq<char>| names.contains(n) ==> #[trigger] index.contains_key(n)
    &&& forall|n: Seq<char>, m: Seq<char>|
        names.contains(n) && names.contains(m) ==> consistent(
            #[trigger] label_touches(index, n),
            #[trigger] label_touches(index, m),
        )
}

/// Whether the states of `labels` from position `i` on take the same
/// alternative of every `Mutex`, among themselves and beside the
/// alternatives `chosen`.
pub open spec fn agreeing_from(
    index: Map<Seq<char>, PathView>,
    labels: Seq<Seq<char>>,
    i: int,
    chosen: Map<u16, u16>,
) -> bool {
    &&& forall|j: int|
        i <= j < labels.len() ==> compatible(chosen, label_touches(index, #[trigger] labels[j]))
    &&& forall|j: int, k: int|
        i <= j < labels.len() && i <= k < labels.len() ==> consistent(
            label_touches(index, #[trigger] labels[j]),
            label_touches(index, #[trigger] labels[k]),
        )
}

proof fn lemma_judged_accepts(
    index: Map<Seq<char>, PathView>,
    labels: Seq<Seq<char>>,
    i: int,
    chosen: Map<u16, u16>,
)
    requires
        0 <= i <= labels.len(),
    ensures
        judged(index, labels, i, chosen) == Verdict::Accept <==> agreeing_from(
            index,
            labels,
            i,
            chosen,
        ),
    decreases labels.len() - i,
{
    if i < labels.len() {
        let name = labels[i];
        let t = label_touches(index, name);
        if index.contains_key(name) && index[name].is_mutex {
            lemma_walked_records(index[name].desc_seq, 0, 0, chosen);
        }
        assert(recorded(chosen, Seq::empty()) == Some(chosen));
        lemma_recorded(chosen, t, t);
        match recorded(chosen, t) {
            None => {
                if agreeing_from(index, labels, i, chosen) {
                    assert(compatible(chosen, label_touches(index, labels[i])));
                    assert(consistent(
                        label_touches(index, labels[i]),
                        label_touches(index, labels[i]),
                    ));
                }
            },
            Some(c) => {
                lemma_judged_accepts(index, labels, i + 1, c);
                assert(judged(index, labels, i, chosen) == judged(index, labels, i + 1, c));
                if agreeing_from(index, labels, i, chosen) {
                    assert forall|j: int| i + 1 <= j < labels.len() implies compatible(
                        c,
                        label_touches(index, #[trigger] labels[j]),
                    ) by {
                        lemma_recorded(chosen, t, label_touches(index, labels[j]));
                        assert(consistent(
                            label_touches(index, labels[i]),
                            label_touches(index, labels[j]),
                        ));
                    }
                }
                if agreeing_from(index, labels, i + 1, c) {
                    assert forall|j: int| i <= j < labels.len() implies compatible(
                        chosen,
                        label_touches(index, #[trigger] labels[j]),
                    ) by {
                        lemma_recorded(chosen, t, label_touches(index, labels[j]));
                    }
                    assert forall|j: int, k: int|
                        i <= j < labels.len() && i <= k < labels.len() implies consistent(
                        label_touches(index, #[trigger] labels[j]),
                        label_touches(index, #[trigger] labels[k]),
                    ) by {
                        lemma_recorded(chosen, t, label_touches(index, labels[j]));
                        lemma_recorded(chosen, t, label_touches(index, labels[k]));
                        if j == i && k > i {
                        } else if k == i && j > i {
                            lemma_consistent_turns(
                                label_touches(index, labels[k]),
                                label_touches(index, labels[j]),
                            );
                        }
                    }
                }
            },
        }
    }
}

proof fn lemma_consistent_turns(a: Seq<(u16, u16)>, b: Seq<(u16, u16)>)
    requires
        consistent(a, b),
    ensures
        consistent(b, a),
{
    assert forall|x: int, y: int|
        0 <= x < b.len() && 0 <= y < a.len() && (#[trigger] b[x]).0 == (#[trigger] a[y]).0 implies b[x].1
        == a[y].1 by {
        assert(a[y].0 == b[x].0);
    }
}

/// Whether a list of active states is accepted depends on the set of its
/// states alone, not on their order nor on how often one is named: it is
/// accepted exactly when its states can be active together.
pub proof fn lemma_accepted_by_set(index: Map<Seq<char>, PathView>, labels: Seq<Seq<char>>)
    ensures
        verdict_of(index, labels) == Verdict::Accept <==> acceptable(index, labels.to_set()),
{
    lemma_judged_accepts(index, labels, 0, Map::empty());
    lemma_first_undefined(index, labels, 0);
    let names = labels.to_set();
    if verdict_of(index, labels) == Verdict::Accept {
        assert(first_undefined(index, labels, 0) is None);
        assert(agreeing_from(index, labels, 0, Map::empty()));
        assert forall|n: Seq<char>| names.contains(n) implies #[trigger] index.contains_key(n) by {
            let j = choose|j: int| 0 <= j < labels.len() && labels[j] == n;
            assert(index.contains_key(labels[j]));
        }
        assert forall|n: Seq<char>, m: Seq<char>|
            names.contains(n) && names.contains(m) implies consistent(
            #[trigger] label_touches(index, n),
            #[trigger] label_touches(index, m),
        ) by {
            let j = choose|j: int| 0 <= j < labels.len() && labels[j] == n;
            let k = choose|k: int| 0 <= k < labels.len() && labels[k] == m;
            assert(consistent(
                label_touches(index, labels[j]),
                label_touches(index, labels[k]),
            ));
        }
    }
    if acceptable(index, names) {
        assert forall|j: int| 0 <= j < labels.len() implies names.contains(#[trigger] labels[j]) by {}
        assert forall|j: int| 0 <= j < labels.len() implies index.contains_key(
            #[trigger] labels[j],
        ) by {
            assert(names.contains(labels[j]));
        }
        assert(first_undefined(index, labels, 0) is None);
        assert forall|j: int| 0 <= j < labels.len() implies compatible(
            Map::<u16, u16>::empty(),
            label_touches(index, #[trigger] labels[j]),
        ) by {}
        assert forall|j: int, k: int|
            0 <= j < labels.len() && 0 <= k < labels.len() implies consistent(
            label_touches(index, #[trigger] labels[j]),
            label_touches(index, #[trigger] labels[k]),
        ) by {
            assert(names.contains(labels[j]) && names.contains(labels[k]));
        }
        assert(agreeing_from(index, labels, 0, Map::empty()));
    }
}

/// Two lists with the same states are accepted or refused together.
pub proof fn lemma_order_does_not_decide(
    index: Map<Seq<char>, PathView>,
    a: Seq<Seq<char>>,
    b: Seq<Seq<char>>,
)
    requires
        a.to_set() == b.to_set(),
    ensures
        verdict_of(index, a) == Verdict::Accept <==> verdict_of(index, b) == Verdict::Accept,
{
    lemma_accepted_by_set(index, a);
    lemma_accepted_by_set(index, b);
}

} // verus!
