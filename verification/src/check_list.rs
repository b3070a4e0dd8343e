//! What is worked out once from a state declaration so that a set of active
//! states can be checked quickly: the names of its labels, and for each
//! label the chain of nodes that lead to it.

use vstd::prelude::*;
use vstd::hash_set::StringHashSet;
use std::collections::HashMap;
use crate::meta_state::{tree_of, trees_of, State, StateTree};
use crate::text::texts_of;
use crate::text_map::TextMap;

verus! {

broadcast use vstd::std_specs::hash::group_hash_axioms;

/// One node on the way from a label up to the top of the declaration, with
/// the number it was given. Numbers are counted per level and are only
/// meaningful within one chain.
#[derive(Debug, Clone, Copy, PartialEq, Eq, Structural)]
pub enum CheckType {
    Normal(u16),
    Parent(u16),
    Mutex(u16),
}

/// The chain of nodes from a label, nearest first, up to the top of the
/// declaration.
#[derive(Debug, Clone, PartialEq, Eq)]
pub struct StatePath {
    pub desc_seq: Vec<CheckType>,
    /// Whether a `Mutex` is on the chain.
    pub is_mutex: bool,
}

/// A [`StatePath`] as plain values.
pub struct PathView {
    pub desc_seq: Seq<CheckType>,
    pub is_mutex: bool,
}

impl PathView {
    /// The chain of the top of a declaration.
    pub open spec fn root() -> PathView {
        PathView { desc_seq: Seq::empty(), is_mutex: false }
    }

    /// This chain with `c` put in front; `mutex` says whether `c` is a
    /// `Mutex`.
    pub open spec fn with(self, c: CheckType, mutex: bool) -> PathView {
        PathView { desc_seq: seq![c] + self.desc_seq, is_mutex: self.is_mutex || mutex }
    }
}

impl View for StatePath {
    type V = PathView;

    open spec fn view(&self) -> PathView {
        PathView { desc_seq: self.desc_seq@, is_mutex: self.is_mutex }
    }
}

impl Default for StatePath {
    fn default() -> (r: Self)
        ensures
            r@ == PathView::root(),
    {
        StatePath { desc_seq: Vec::new(), is_mutex: false }
    }
}

impl StatePath {
    /// A copy of this chain with `c` put in front.
    pub fn extended(&self, c: CheckType, mutex: bool) -> (r: StatePath)
        ensures
            r@ == self@.with(c, mutex),
    {
        let mut desc_seq: Vec<CheckType> = Vec::new();
        desc_seq.push(c);
        let mut i: usize = 0;
        while i < self.desc_seq.len()
            invariant
                i <= self.desc_seq.len(),
                desc_seq@ == seq![c] + self.desc_seq@.take(i as int),
            decreases self.desc_seq.len() - i,
        {
            desc_seq.push(self.desc_seq[i]);
            assert(self.desc_seq@.take(i + 1) =~= self.desc_seq@.take(i as int).push(
                self.desc_seq@[i as int],
            ));
            i += 1;
        }
        assert(self.desc_seq@.take(i as int) =~= self.desc_seq@);
        StatePath { desc_seq, is_mutex: self.is_mutex || mutex }
    }
}

/// The names of the labels in `ss` from position `i` on, in the order of
/// the declaration, groups and alternatives included.
pub open spec fn labels_from(ss: Seq<StateTree>, i: int) -> Seq<Seq<char>>
    decreases ss, ss.len() - i,
{
    if i < 0 || i >= ss.len() {
        Seq::empty()
    } else {
        labels_in(ss[i]) + labels_from(ss, i + 1)
    }
}

/// The names of the labels in `t`, in the order of the declaration.
pub open spec fn labels_in(t: StateTree) -> Seq<Seq<char>>
    decreases t, 0int,
{
    match t {
        StateTree::Normal(n) => seq![n],
        StateTree::Parent(_, cs) => labels_from(cs, 0),
        StateTree::Mutex(cs) => labels_from(cs, 0),
    }
}

/// The names of all labels of the declaration `ss`.
pub open spec fn labels_of(ss: Seq<StateTree>) -> Seq<Seq<char>> {
    labels_from(ss, 0)
}

/// The first of `names` that is in `seen` or occurs earlier in `names`.
pub open spec fn first_repeat(names: Seq<Seq<char>>, seen: Set<Seq<char>>) -> Option<Seq<char>>
    decreases names.len(),
{
    if names.len() == 0 {
        None
    } else if seen.contains(names[0]) {
        Some(names[0])
    } else {
        first_repeat(names.drop_first(), seen.insert(names[0]))
    }
}

/// `seen` with all of `names` added.
pub open spec fn seen_after(names: Seq<Seq<char>>, seen: Set<Seq<char>>) -> Set<Seq<char>>
    decreases names.len(),
{
    if names.len() == 0 {
        seen
    } else {
        seen_after(names.drop_first(), seen.insert(names[0]))
    }
}

proof fn lemma_repeat_concat(a: Seq<Seq<char>>, b: Seq<Seq<char>>, seen: Set<Seq<char>>)
    ensures
        first_repeat(a + b, seen) == match first_repeat(a, seen) {
            Some(n) => Some(n),
            None => first_repeat(b, seen_after(a, seen)),
        },
        seen_after(a + b, seen) == seen_after(b, seen_after(a, seen)),
    decreases a.len(),
{
    if a.len() == 0 {
        assert(a + b =~= b);
    } else {
        assert((a + b).drop_first() =~= a.drop_first() + b);
        lemma_repeat_concat(a.drop_first(), b, seen.insert(a[0]));
    }
}

/// Nothing repeats exactly when no name is in `seen` and no two are equal.
pub proof fn lemma_repeat_means_duplicate(names: Seq<Seq<char>>, seen: Set<Seq<char>>)
    ensures
        first_repeat(names, seen) is None <==> names.no_duplicates() && forall|i: int|
            0 <= i < names.len() ==> !seen.contains(#[trigger] names[i]),
        first_repeat(names, seen) matches Some(n) ==> names.contains(n),
    decreases names.len(),
{
    if names.len() > 0 {
        let rest = names.drop_first();
        let more = seen.insert(names[0]);
        lemma_repeat_means_duplicate(rest, more);
        assert forall|i: int| 0 <= i < rest.len() implies rest[i] == names[i + 1] by {}
        if seen.contains(names[0]) {
        } else if first_repeat(rest, more) is None {
            assert forall|i: int, j: int|
                0 <= i < names.len() && 0 <= j < names.len() && i != j implies names[i]
                != names[j] by {
                if i > 0 && j > 0 {
                    assert(rest[i - 1] != rest[j - 1]);
                } else if i == 0 {
                    assert(!more.contains(rest[j - 1]));
                } else {
                    assert(!more.contains(rest[i - 1]));
                }
            }
            assert forall|i: int| 0 <= i < names.len() implies !seen.contains(
                #[trigger] names[i],
            ) by {
                if i > 0 {
                    assert(!more.contains(rest[i - 1]));
                }
            }
        } else {
            let n = first_repeat(rest, more)->0;
            let k = choose|k: int| 0 <= k < rest.len() && rest[k] == n;
            assert(names[k + 1] == n);
            if names.no_duplicates() && forall|i: int|
                0 <= i < names.len() ==> !seen.contains(#[trigger] names[i]) {
                assert forall|i: int, j: int|
                    0 <= i < rest.len() && 0 <= j < rest.len() && i != j implies rest[i]
                    != rest[j] by {
                    assert(names[i + 1] != names[j + 1]);
                }
                assert forall|i: int| 0 <= i < rest.len() implies !more.contains(
                    #[trigger] rest[i],
                ) by {
                    assert(names[i + 1] != names[0]);
                    assert(!seen.contains(names[i + 1]));
                }
                assert(false);
            }
        }
    }
}

/// Looks for the first label of `ss` whose name is in `seen` or was met
/// before, and adds the names it passes to `seen`.
pub fn find_repeat(ss: &Vec<State>, seen: &mut StringHashSet) -> (r: Option<String>)
    ensures
        match first_repeat(labels_of(trees_of(ss@)), old(seen)@) {
            Some(n) => r matches Some(x) && x@ == n,
            None => r is None && final(seen)@ == seen_after(
                labels_of(trees_of(ss@)),
                old(seen)@,
            ),
        },
    decreases ss,
{
    let ghost trees = trees_of(ss@);
    let ghost before = seen@;
    let mut i: usize = 0;
    while i < ss.len()
        invariant
            i <= ss.len(),
            trees == trees_of(ss@),
            before == old(seen)@,
            first_repeat(labels_from(trees, 0), before) == first_repeat(
                labels_from(trees, i as int),
                seen@,
            ),
            seen_after(labels_from(trees, 0), before) == seen_after(
                labels_from(trees, i as int),
                seen@,
            ),
        decreases ss.len() - i,
    {
        let ghost here = seen@;
        let ghost rest = labels_from(trees, i + 1);
        proof {
            lemma_repeat_concat(labels_in(trees[i as int]), rest, here);
            assert(labels_from(trees, i as int) == labels_in(trees[i as int]) + rest);
            assert(trees[i as int] == tree_of(ss@[i as int]));
        }
        match &ss[i] {
            State::Normal(name) => {
                assert(labels_in(trees[i as int]) =~= seq![name@]);
                assert(seq![name@].drop_first() =~= Seq::<Seq<char>>::empty());
                assert(first_repeat(Seq::empty(), here.insert(name@)) is None);
                assert(seen_after(Seq::empty(), here.insert(name@)) == here.insert(name@));
                if !seen.insert(name.clone()) {
                    return Some(name.clone());
                }
            },
            State::Parent(_, nss) => {
                assert(labels_in(trees[i as int]) == labels_of(trees_of(nss@)));
                match find_repeat(nss, seen) {
                    Some(n) => {
                        return Some(n);
                    },
                    None => {},
                }
            },
            State::Mutex(nss) => {
                assert(labels_in(trees[i as int]) == labels_of(trees_of(nss@)));
                match find_repeat(nss, seen) {
                    Some(n) => {
                        return Some(n);
                    },
                    None => {},
                }
            },
        }
        i += 1;
    }
    None
}

/// For each label of a declaration, its chain.
pub type CheckList = TextMap<StatePath>;

/// Whether every node of `ss` from position `i` on, and every node below
/// them, gets a number that fits in sixteen bits when the node at `i` gets
/// `id + 1`.
pub open spec fn fits_from(ss: Seq<StateTree>, i: int, id: int) -> bool
    decreases ss, ss.len() - i,
{
    if i < 0 || i >= ss.len() {
        true
    } else {
        id + 1 <= u16::MAX && fits_in(ss[i], id + 1) && fits_from(ss, i + 1, id + 1)
    }
}

/// Whether every node below `t` gets a number that fits in sixteen bits
/// when `t` has the number `id`.
pub open spec fn fits_in(t: StateTree, id: int) -> bool
    decreases t, 0int,
{
    match t {
        StateTree::Normal(_) => true,
        StateTree::Parent(_, cs) => fits_from(cs, 0, id),
        StateTree::Mutex(cs) => fits_from(cs, 0, id),
    }
}

/// The chains of the labels of `ss` from position `i` on, added to `m`.
/// The node at `i` gets the number `id + 1`, the next one `id + 2` and so
/// on; the nodes inside a group or a `Mutex` are numbered from the number
/// of that node on. Every chain begins with the label and ends with `path`.
pub open spec fn indexed_from(
    ss: Seq<StateTree>,
    i: int,
    id: int,
    path: PathView,
    m: Map<Seq<char>, PathView>,
) -> Map<Seq<char>, PathView>
    decreases ss, ss.len() - i,
{
    if i < 0 || i >= ss.len() {
        m
    } else {
        indexed_from(ss, i + 1, id + 1, path, indexed_in(ss[i], id + 1, path, m))
    }
}

/// The chains of the labels of `t`, which has the number `id`, added to
/// `m`.
pub open spec fn indexed_in(
    t: StateTree,
    id: int,
    path: PathView,
    m: Map<Seq<char>, PathView>,
) -> Map<Seq<char>, PathView>
    decreases t, 0int,
{
    match t {
        StateTree::Normal(n) => m.insert(n, path.with(CheckType::Normal(id as u16), false)),
        StateTree::Parent(_, cs) => indexed_from(
            cs,
            0,
            id,
            path.with(CheckType::Parent(id as u16), false),
            m,
        ),
        StateTree::Mutex(cs) => indexed_from(
            cs,
            0,
            id,
            path.with(CheckType::Mutex(id as u16), true),
            m,
        ),
    }
}

/// The chains of all labels of the declaration `ss`.
pub open spec fn index_of(ss: Seq<StateTree>) -> Map<Seq<char>, PathView> {
    indexed_from(ss, 0, 0, PathView::root(), Map::empty())
}

/// Whether the numbers of `ss` and of everything below fit in sixteen
/// bits, counted from `id`.
pub fn ids_fit(ss: &Vec<State>, id: u16) -> (r: bool)
    ensures
        r == fits_from(trees_of(ss@), 0, id as int),
    decreases ss,
{
    let ghost trees = trees_of(ss@);
    let mut i: usize = 0;
    let mut cur: u16 = id;
    while i < ss.len()
        invariant
            i <= ss.len(),
            trees == trees_of(ss@),
            fits_from(trees, 0, id as int) == fits_from(trees, i as int, cur as int),
        decreases ss.len() - i,
    {
        assert(fits_from(trees, i as int, cur as int) == (cur + 1 <= u16::MAX && fits_in(
            trees[i as int],
            cur + 1,
        ) && fits_from(trees, i + 1, cur + 1)));
        if cur == u16::MAX {
            return false;
        }
        cur = cur + 1;
        assert(trees[i as int] == tree_of(ss@[i as int]));
        let inner = match &ss[i] {
            State::Normal(_) => true,
            State::Parent(_, nss) => {
                assert(fits_in(trees[i as int], cur as int) == fits_from(
                    trees_of(nss@),
                    0,
                    cur as int,
                ));
                ids_fit(nss, cur)
            },
            State::Mutex(nss) => {
                assert(fits_in(trees[i as int], cur as int) == fits_from(
                    trees_of(nss@),
                    0,
                    cur as int,
                ));
                ids_fit(nss, cur)
            },
        };
        if !inner {
            return false;
        }
        i += 1;
    }
    true
}

/// Adds the chains of the labels of `ss` to `list`, numbering from `id`
/// and ending every chain with `path`.
pub fn index_states(list: &mut CheckList, ss: &Vec<State>, id: u16, path: &StatePath)
    requires
        fits_from(trees_of(ss@), 0, id as int),
    ensures
        final(list)@ == indexed_from(trees_of(ss@), 0, id as int, path@, old(list)@),
    decreases ss,
{
    let ghost trees = trees_of(ss@);
    let ghost before = list@;
    let mut i: usize = 0;
    let mut cur: u16 = id;
    while i < ss.len()
        invariant
            i <= ss.len(),
            trees == trees_of(ss@),
            fits_from(trees, i as int, cur as int),
            indexed_from(trees, 0, id as int, path@, before) == indexed_from(
                trees,
                i as int,
                cur as int,
                path@,
                list@,
            ),
        decreases ss.len() - i,
    {
        let ghost here = list@;
        assert(fits_from(trees, i as int, cur as int) == (cur + 1 <= u16::MAX && fits_in(
            trees[i as int],
            cur + 1,
        ) && fits_from(trees, i + 1, cur + 1)));
        assert(indexed_from(trees, i as int, cur as int, path@, here) == indexed_from(
            trees,
            i + 1,
            cur + 1,
            path@,
            indexed_in(trees[i as int], cur + 1, path@, here),
        ));
        cur = cur + 1;
        assert(trees[i as int] == tree_of(ss@[i as int]));
        match &ss[i] {
            State::Normal(name) => {
                list.insert(name.clone(), path.extended(CheckType::Normal(cur), false));
            },
            State::Parent(_, nss) => {
                let longer = path.extended(CheckType::Parent(cur), false);
                assert(fits_in(trees[i as int], cur as int) == fits_from(
                    trees_of(nss@),
                    0,
                    cur as int,
                ));
                assert(indexed_in(trees[i as int], cur as int, path@, here) == indexed_from(
                    trees_of(nss@),
                    0,
                    cur as int,
                    longer@,
                    here,
                ));
                index_states(list, nss, cur, &longer);
            },
            State::Mutex(nss) => {
                let longer = path.extended(CheckType::Mutex(cur), true);
                assert(fits_in(trees[i as int], cur as int) == fits_from(
                    trees_of(nss@),
                    0,
                    cur as int,
                ));
                assert(indexed_in(trees[i as int], cur as int, path@, here) == indexed_from(
                    trees_of(nss@),
                    0,
                    cur as int,
                    longer@,
                    here,
                ));
                index_states(list, nss, cur, &longer);
            },
        }
        i += 1;
    }
}

/// What checking a set of active states against a declaration finds.
#[derive(Debug, Clone, Copy, PartialEq, Eq, Structural)]
pub enum Verdict {
    /// Every state is declared and no two exclude each other.
    Accept,
    /// The state at this position is not a label of the declaration.
    Undefined(usize),
    /// The state at this position excludes one that comes before it.
    Conflict(usize),
}

/// Follows the chain `points` from position `k` on. `last` is the number of
/// the node passed last and `chosen` holds, for each `Mutex` met so far, the
/// number of the alternative that was taken. Gives the updated choices, or
/// `None` if the chain takes another alternative of a `Mutex` than the one
/// chosen before.
pub open spec fn walked(points: Seq<CheckType>, k: int, last: u16, chosen: Map<u16, u16>) -> Option<
    Map<u16, u16>,
>
    decreases points.len() - k,
{
    if k < 0 || k >= points.len() {
        Some(chosen)
    } else {
        match points[k] {
            CheckType::Normal(id) => walked(points, k + 1, id, chosen),
            CheckType::Parent(id) => walked(points, k + 1, id, chosen),
            CheckType::Mutex(id) => if chosen.contains_key(id) && chosen[id] != last {
                None
            } else {
                walked(points, k + 1, id, chosen.insert(id, last))
            },
        }
    }
}

/// The first position from `i` on whose state is not a label of the
/// declaration.
pub open spec fn first_undefined(
    index: Map<Seq<char>, PathView>,
    labels: Seq<Seq<char>>,
    i: int,
) -> Option<int>
    decreases labels.len() - i,
{
    if i < 0 || i >= labels.len() {
        None
    } else if !index.contains_key(labels[i]) {
        Some(i)
    } else {
        first_undefined(index, labels, i + 1)
    }
}

/// Follows the chains of the states `labels` from position `i` on, in
/// order, with the choices `chosen` made so far. The first state that
/// excludes an earlier one ends the walk. A state without a `Mutex` on its
/// chain is not followed.
pub open spec fn judged(
    index: Map<Seq<char>, PathView>,
    labels: Seq<Seq<char>>,
    i: int,
    chosen: Map<u16, u16>,
) -> Verdict
    decreases labels.len() - i,
{
    if i < 0 || i >= labels.len() {
        Verdict::Accept
    } else if !index.contains_key(labels[i]) || !index[labels[i]].is_mutex {
        judged(index, labels, i + 1, chosen)
    } else {
        match walked(index[labels[i]].desc_seq, 0, 0, chosen) {
            None => Verdict::Conflict(i as usize),
            Some(c) => judged(index, labels, i + 1, c),
        }
    }
}

/// What checking the states `labels` against `index` finds. Every state
/// is looked up before any chain is followed: where a state is not
/// declared, the first such state in the order given is the verdict,
/// whatever the others are. Only where all are declared are the chains
/// followed, and the first state that excludes an earlier one is the
/// verdict.
pub open spec fn verdict_of(index: Map<Seq<char>, PathView>, labels: Seq<Seq<char>>) -> Verdict {
    match first_undefined(index, labels, 0) {
        Some(j) => Verdict::Undefined(j as usize),
        None => judged(index, labels, 0, Map::empty()),
    }
}

/// The first state that is not declared is not declared, and all before
/// it are; where there is none, all are declared.
pub proof fn lemma_first_undefined(
    index: Map<Seq<char>, PathView>,
    labels: Seq<Seq<char>>,
    i: int,
)
    requires
        0 <= i <= labels.len(),
    ensures
        match first_undefined(index, labels, i) {
            Some(j) => i <= j < labels.len() && !index.contains_key(labels[j]) && forall|k: int|
                i <= k < j ==> index.contains_key(#[trigger] labels[k]),
            None => forall|k: int| i <= k < labels.len() ==> index.contains_key(#[trigger] labels[k]),
        },
    decreases labels.len() - i,
{
    if i < labels.len() && index.contains_key(labels[i]) {
        lemma_first_undefined(index, labels, i + 1);
    }
}

/// A list with a state that is not declared is refused on that account,
/// whatever else it holds: the verdict names the first state of the list
/// that is not declared.
pub proof fn lemma_undefined_rejected(
    index: Map<Seq<char>, PathView>,
    labels: Seq<Seq<char>>,
    j: int,
)
    requires
        0 <= j < labels.len(),
        !index.contains_key(labels[j]),
    ensures
        first_undefined(index, labels, 0) matches Some(k) && k <= j && !index.contains_key(
            labels[k],
        ) && (forall|i: int| 0 <= i < k ==> index.contains_key(#[trigger] labels[i]))
            && verdict_of(index, labels) == Verdict::Undefined(k as usize),
{
    lemma_first_undefined(index, labels, 0);
}

/// Follows one chain and records the alternatives it takes.
fn walk(points: &Vec<CheckType>, chosen: &mut HashMap<u16, u16>) -> (ok: bool)
    ensures
        match walked(points@, 0, 0, old(chosen)@) {
            Some(m) => ok && final(chosen)@ == m,
            None => !ok,
        },
{
    let ghost before = chosen@;
    let mut last: u16 = 0;
    let mut k: usize = 0;
    while k < points.len()
        invariant
            k <= points.len(),
            before == old(chosen)@,
            walked(points@, 0, 0, before) == walked(points@, k as int, last, chosen@),
        decreases points.len() - k,
    {
        match points[k] {
            CheckType::Normal(id) => {
                last = id;
            },
            CheckType::Parent(id) => {
                last = id;
            },
            CheckType::Mutex(id) => {
                match chosen.get(&id) {
                    Some(e) => {
                        if *e != last {
                            return false;
                        }
                        assert(chosen@.insert(id, last) =~= chosen@);
                    },
                    None => {
                        chosen.insert(id, last);
                    },
                }
                last = id;
            },
        }
        k += 1;
    }
    true
}

impl TextMap<StatePath> {
    /// Checks the active states `labels` against the declaration that this
    /// list was made from. Every state is looked up first; the chains are
    /// followed only where all are declared.
    pub fn judge(&self, labels: &Vec<String>) -> (r: Verdict)
        ensures
            r == verdict_of(self@, texts_of(labels@)),
            match r {
                Verdict::Accept => true,
                Verdict::Undefined(k) => k < labels.len(),
                Verdict::Conflict(k) => k < labels.len(),
            },
    {
        let ghost names = texts_of(labels@);
        let mut paths: Vec<&StatePath> = Vec::new();
        let mut i: usize = 0;
        while i < labels.len()
            invariant
                i <= labels.len(),
                names == texts_of(labels@),
                first_undefined(self@, names, 0) == first_undefined(self@, names, i as int),
                paths@.len() == i,
                forall|k: int|
                    0 <= k < i ==> self@.contains_key(#[trigger] names[k]) && paths@[k]@
                        == self@[names[k]],
            decreases labels.len() - i,
        {
            assert(names[i as int] == labels@[i as int]@);
            match self.get(labels[i].as_str()) {
                None => {
                    return Verdict::Undefined(i);
                },
                Some(path) => {
                    paths.push(path);
                },
            }
            i += 1;
        }
        let mut chosen: HashMap<u16, u16> = HashMap::new();
        let mut i: usize = 0;
        while i < labels.len()
            invariant
                i <= labels.len(),
                names == texts_of(labels@),
                first_undefined(self@, names, 0) is None,
                paths@.len() == labels.len(),
                forall|k: int|
                    0 <= k < labels.len() ==> self@.contains_key(#[trigger] names[k]) && paths@[k]@
                        == self@[names[k]],
                judged(self@, names, 0, Map::empty()) == judged(self@, names, i as int, chosen@),
            decreases labels.len() - i,
        {
            assert(self@.contains_key(names[i as int]));
            let path = paths[i];
            if path.is_mutex {
                if !walk(&path.desc_seq, &mut chosen) {
                    return Verdict::Conflict(i);
                }
            }
            i += 1;
        }
        Verdict::Accept
    }
}

} // verus!
