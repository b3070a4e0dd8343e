//! The states a metadata may declare: labels, named groups of states and
//! sets of mutually exclusive alternatives, with their textual form.

use vstd::prelude::*;
use vstd::string::*;
use crate::error::{ErrorText, NatureError};
use crate::text::{
    has_at, lemma_has_at_one, lemma_has_at_split, lemma_pieces_len, lemma_pieces_whole, pieces, split,
    texts_of, to_chars,
};

verus! {

/// A state declaration: its nodes in order.
pub type States = Vec<State>;

/// One node of a state declaration.
#[derive(Debug, PartialEq)]
pub enum State {
    /// Alternatives of which at most one may be active.
    Mutex(Vec<State>),
    /// A label that can be active on its own.
    Normal(String),
    /// A named group; only the states inside it can be active.
    Parent(String, Vec<State>),
}

/// A declaration node as a mathematical tree.
pub enum StateTree {
    Mutex(Seq<StateTree>),
    Normal(Seq<char>),
    Parent(Seq<char>, Seq<StateTree>),
}

/// The tree that `s` stands for.
pub open spec fn tree_of(s: State) -> StateTree
    decreases s, 0int,
{
    match s {
        State::Mutex(v) => StateTree::Mutex(trees_of(v@)),
        State::Normal(n) => StateTree::Normal(n@),
        State::Parent(n, v) => StateTree::Parent(n@, trees_of(v@)),
    }
}

/// The trees that the elements of `v` stand for, in order.
pub open spec fn trees_of(v: Seq<State>) -> Seq<StateTree>
    decreases v, 1int,
{
    Seq::new(
        v.len(),
        |i: int|
            if 0 <= i < v.len() {
                tree_of(v[i])
            } else {
                StateTree::Mutex(Seq::empty())
            },
    )
}

impl View for State {
    type V = StateTree;

    open spec fn view(&self) -> StateTree {
        tree_of(*self)
    }
}

/// The canonical text of one node: a label is its name, a group is its name
/// followed by its children in square brackets, and alternatives are joined
/// by `|`.
pub open spec fn text_of(t: StateTree) -> Seq<char>
    decreases t, 0int,
{
    match t {
        StateTree::Normal(n) => n,
        StateTree::Parent(n, cs) => n + seq!['['] + joined(cs, seq![',']) + seq![']'],
        StateTree::Mutex(cs) => joined(cs, seq!['|']),
    }
}

/// The canonical texts of `ts`, with `sep` between neighbours.
pub open spec fn joined(ts: Seq<StateTree>, sep: Seq<char>) -> Seq<char>
    decreases ts, 1int,
{
    if ts.len() == 0 {
        Seq::empty()
    } else if ts.len() == 1 {
        text_of(ts[0])
    } else {
        joined(ts.drop_last(), sep) + sep + text_of(ts.last())
    }
}

/// What a left-to-right reading of a declaration holds between two
/// characters.
pub struct Scan {
    /// The nodes that are complete.
    pub done: Seq<StateTree>,
    /// The characters of the name being read.
    pub name: Seq<char>,
    /// The alternatives collected since the last `|` run began.
    pub alternatives: Seq<StateTree>,
    /// Whether a `|` has been seen since the last `,`.
    pub exclusive: bool,
    /// The group whose closing bracket was read and that is not placed yet.
    pub group: Option<StateTree>,
}

impl Scan {
    /// Nothing read yet.
    pub open spec fn start() -> Scan {
        Scan {
            done: Seq::empty(),
            name: Seq::empty(),
            alternatives: Seq::empty(),
            exclusive: false,
            group: None,
        }
    }

    /// The node that waits to be placed: the label being read if its name
    /// is not empty, else the group that was just closed, if any.
    pub open spec fn atom(self) -> Option<StateTree> {
        if self.name.len() > 0 {
            Some(StateTree::Normal(self.name))
        } else {
            self.group
        }
    }

    /// This reading once the waiting node has been placed.
    pub open spec fn without_atom(self) -> Scan {
        if self.name.len() > 0 {
            Scan { name: Seq::empty(), ..self }
        } else {
            Scan { group: None, ..self }
        }
    }

    /// The alternatives with the waiting node added.
    pub open spec fn all_alternatives(self) -> Seq<StateTree> {
        match self.atom() {
            Some(a) => self.alternatives.push(a),
            None => self.alternatives,
        }
    }

    /// The complete nodes once everything that waits is placed: inside a `|`
    /// run the alternatives form one `Mutex`, unless there is none;
    /// otherwise the waiting node is added as it is.
    pub open spec fn sealed(self) -> Seq<StateTree> {
        if self.exclusive {
            if self.all_alternatives().len() > 0 {
                self.done.push(StateTree::Mutex(self.all_alternatives()))
            } else {
                self.done
            }
        } else {
            match self.atom() {
                Some(a) => self.done.push(a),
                None => self.done,
            }
        }
    }

    /// After an ordinary character.
    pub open spec fn letter(self, c: char) -> Scan {
        Scan { name: self.name.push(c), ..self }
    }

    /// After a `,`.
    pub open spec fn comma(self) -> Scan {
        Scan {
            done: self.sealed(),
            alternatives: Seq::empty(),
            exclusive: false,
            ..self.without_atom()
        }
    }

    /// After a `|`.
    pub open spec fn bar(self) -> Scan {
        Scan {
            alternatives: self.all_alternatives(),
            exclusive: true,
            ..self.without_atom()
        }
    }

    /// After a bracketed list with the given children: the name read so far
    /// becomes the name of the group.
    pub open spec fn open(self, children: Seq<StateTree>) -> Scan {
        Scan {
            group: Some(StateTree::Parent(self.name, children)),
            name: Seq::empty(),
            ..self
        }
    }
}

/// The nodes read from `s` from position `pos` on, starting in state `st`,
/// and the position after the last character read. Reading ends behind the
/// first `]` that closes the list begun at `pos`, or at the end of `s`.
pub open spec fn scan(s: Seq<char>, pos: int, st: Scan) -> (Seq<StateTree>, int)
    decreases s.len() - pos,
{
    if pos < 0 || pos >= s.len() {
        (st.sealed(), s.len() as int)
    } else if s[pos] == ',' {
        scan(s, pos + 1, st.comma())
    } else if s[pos] == '|' {
        scan(s, pos + 1, st.bar())
    } else if s[pos] == '[' {
        let inner = scan(s, pos + 1, Scan::start());
        if pos < inner.1 <= s.len() {
            scan(s, inner.1, st.open(inner.0))
        } else {
            (st.sealed(), s.len() as int)
        }
    } else if s[pos] == ']' {
        (st.sealed(), pos + 1)
    } else {
        scan(s, pos + 1, st.letter(s[pos]))
    }
}

/// The declaration that the text `s` stands for, and how many characters of
/// `s` belong to it.
pub open spec fn parsed(s: Seq<char>) -> (Seq<StateTree>, int) {
    scan(s, 0, Scan::start())
}

/// Reading never moves backwards and never leaves the text.
pub proof fn lemma_scan_bounds(s: Seq<char>, pos: int, st: Scan)
    requires
        0 <= pos <= s.len(),
    ensures
        pos <= scan(s, pos, st).1 <= s.len(),
        pos < s.len() ==> pos < scan(s, pos, st).1,
    decreases s.len() - pos,
{
    if pos >= s.len() {
    } else if s[pos] == ',' {
        lemma_scan_bounds(s, pos + 1, st.comma());
    } else if s[pos] == '|' {
        lemma_scan_bounds(s, pos + 1, st.bar());
    } else if s[pos] == '[' {
        lemma_scan_bounds(s, pos + 1, Scan::start());
        let inner = scan(s, pos + 1, Scan::start());
        lemma_scan_bounds(s, inner.1, st.open(inner.0));
    } else if s[pos] == ']' {
    } else {
        lemma_scan_bounds(s, pos + 1, st.letter(s[pos]));
    }
}

/// Adding one more node to a non-empty list extends its text by the
/// separator and the text of that node.
pub proof fn lemma_joined_push(ts: Seq<StateTree>, t: StateTree, sep: Seq<char>)
    requires
        ts.len() > 0,
    ensures
        joined(ts.push(t), sep) == joined(ts, sep) + sep + text_of(t),
{
    assert(ts.push(t).drop_last() == ts);
}

/// The trees of a prefix are the prefix of the trees.
pub proof fn lemma_trees_take(v: Seq<State>, n: int)
    requires
        0 <= n <= v.len(),
    ensures
        trees_of(v.take(n)) == trees_of(v).take(n),
        n < v.len() ==> trees_of(v.take(n + 1)) == trees_of(v.take(n)).push(tree_of(v[n])),
{
    assert(trees_of(v.take(n)) =~= trees_of(v).take(n));
    if n < v.len() {
        assert(trees_of(v.take(n + 1)) =~= trees_of(v.take(n)).push(tree_of(v[n])));
    }
}

/// Whether `c` is one of the four characters that give a declaration its
/// structure.
pub open spec fn is_mark(c: char) -> bool {
    c == ',' || c == '|' || c == '[' || c == ']'
}

/// Whether `n` holds none of the structural characters.
pub open spec fn plain(n: Seq<char>) -> bool {
    forall|i: int| 0 <= i < n.len() ==> !is_mark(#[trigger] n[i])
}

/// Whether `t` has the shape of a node that was read from a text: labels
/// have a non-empty name, no name holds a structural character, and every
/// `Mutex` has at least `least` alternatives, none of them a `Mutex` itself.
pub open spec fn shaped(t: StateTree, least: int) -> bool
    decreases t,
{
    match t {
        StateTree::Normal(n) => n.len() > 0 && plain(n),
        StateTree::Parent(n, cs) => plain(n) && forall|i: int|
            0 <= i < cs.len() ==> shaped(#[trigger] cs[i], least),
        StateTree::Mutex(cs) => cs.len() >= least && forall|i: int|
            0 <= i < cs.len() ==> !(#[trigger] cs[i] is Mutex) && shaped(cs[i], least),
    }
}

/// Whether `t` is in the form that the canonical text can express: it has
/// the shape of a node that was read, and every `Mutex` in it has at least
/// two alternatives.
pub open spec fn canonical(t: StateTree) -> bool {
    shaped(t, 2)
}

/// Whether every node of `ts` is canonical.
pub open spec fn all_canonical(ts: Seq<StateTree>) -> bool {
    forall|i: int| 0 <= i < ts.len() ==> canonical(#[trigger] ts[i])
}

/// The reading `st` right behind the text of the label or group `t`.
pub open spec fn holding(st: Scan, t: StateTree) -> Scan {
    match t {
        StateTree::Normal(n) => Scan { name: n, ..st },
        _ => Scan { group: Some(t), name: Seq::empty(), ..st },
    }
}

/// The reading with the complete nodes `d` and nothing waiting.
pub open spec fn clean(d: Seq<StateTree>) -> Scan {
    Scan { done: d, ..Scan::start() }
}

/// The reading right behind the text of `t`, begun with the complete nodes
/// `d` and nothing waiting.
pub open spec fn waiting(d: Seq<StateTree>, t: StateTree) -> Scan {
    match t {
        StateTree::Mutex(cs) => holding(
            Scan { alternatives: cs.drop_last(), exclusive: cs.len() > 1, ..clean(d) },
            cs.last(),
        ),
        _ => holding(clean(d), t),
    }
}

proof fn lemma_scan_letters(s: Seq<char>, pos: int, st: Scan, n: Seq<char>)
    requires
        plain(n),
        has_at(s, pos, n),
    ensures
        scan(s, pos, st) == scan(s, pos + n.len(), Scan { name: st.name + n, ..st }),
    decreases n.len(),
{
    if n.len() == 0 {
        assert(st.name + n =~= st.name);
    } else {
        let rest = n.drop_first();
        assert(!is_mark(n[0]));
        assert(s[pos] == n[0]);
        assert forall|i: int| 0 <= i < rest.len() implies s[pos + 1 + i] == #[trigger] rest[i] by {
            assert(rest[i] == n[i + 1]);
        }
        assert forall|i: int| 0 <= i < rest.len() implies !is_mark(#[trigger] rest[i]) by {
            assert(rest[i] == n[i + 1]);
        }
        lemma_scan_letters(s, pos + 1, st.letter(n[0]), rest);
        assert(st.letter(n[0]).name + rest =~= st.name + n);
    }
}

proof fn lemma_waiting_placed(d: Seq<StateTree>, t: StateTree)
    requires
        canonical(t),
    ensures
        waiting(d, t).sealed() == d.push(t),
        waiting(d, t).comma() == clean(d.push(t)),
{
    match t {
        StateTree::Mutex(cs) => {
            let w = waiting(d, t);
            assert(canonical(cs.last()));
            assert(w.atom() == Some(cs.last()));
            assert(w.all_alternatives() =~= cs);
        },
        _ => {},
    }
}

proof fn lemma_scan_atom(t: StateTree, s: Seq<char>, pos: int, st: Scan)
    requires
        canonical(t),
        !(t is Mutex),
        has_at(s, pos, text_of(t)),
        st.name.len() == 0,
    ensures
        scan(s, pos, st) == scan(s, pos + text_of(t).len(), holding(st, t)),
    decreases t, 0int,
{
    match t {
        StateTree::Normal(n) => {
            lemma_scan_letters(s, pos, st, n);
            assert(st.name + n =~= n);
        },
        StateTree::Parent(n, cs) => {
            let j = joined(cs, seq![',']);
            lemma_has_at_split(s, pos, n + seq!['['] + j, seq![']']);
            lemma_has_at_split(s, pos, n + seq!['['], j);
            lemma_has_at_split(s, pos, n, seq!['[']);
            let a = pos + n.len();
            lemma_has_at_one(s, a, '[');
            lemma_has_at_one(s, a + 1 + j.len(), ']');
            lemma_scan_letters(s, pos, st, n);
            assert(st.name + n =~= n);
            let named = Scan { name: n, ..st };
            if cs.len() == 0 {
                assert(cs =~= Seq::empty());
                assert(scan(s, a + 1, Scan::start()) == (Seq::<StateTree>::empty(), a + 2));
            } else {
                assert(all_canonical(cs));
                lemma_scan_list(cs, s, a + 1, Seq::empty());
                assert(Seq::<StateTree>::empty() + cs.drop_last() =~= cs.drop_last());
                lemma_waiting_placed(cs.drop_last(), cs.last());
                assert(cs.drop_last().push(cs.last()) =~= cs);
                assert(clean(Seq::empty()) == Scan::start());
                assert(scan(s, a + 1, Scan::start()) == (cs, a + 2 + j.len()));
            }
            assert(scan(s, a, named) == scan(s, a + 2 + j.len(), named.open(cs)));
        },
        StateTree::Mutex(_) => {},
    }
}

proof fn lemma_scan_alternatives(cs: Seq<StateTree>, s: Seq<char>, pos: int, d: Seq<StateTree>)
    requires
        cs.len() >= 1,
        forall|i: int| 0 <= i < cs.len() ==> !(#[trigger] cs[i] is Mutex) && canonical(cs[i]),
        has_at(s, pos, joined(cs, seq!['|'])),
    ensures
        scan(s, pos, clean(d)) == scan(
            s,
            pos + joined(cs, seq!['|']).len(),
            holding(
                Scan { alternatives: cs.drop_last(), exclusive: cs.len() > 1, ..clean(d) },
                cs.last(),
            ),
        ),
    decreases cs, 2int,
{
    if cs.len() == 1 {
        assert(cs.drop_last() =~= Seq::empty());
        lemma_scan_atom(cs[0], s, pos, clean(d));
    } else {
        let init = cs.drop_last();
        let last = cs.last();
        let j = joined(init, seq!['|']);
        lemma_has_at_split(s, pos, j + seq!['|'], text_of(last));
        lemma_has_at_split(s, pos, j, seq!['|']);
        lemma_has_at_one(s, pos + j.len(), '|');
        assert forall|i: int| 0 <= i < init.len() implies !(#[trigger] init[i] is Mutex)
            && canonical(init[i]) by {
            assert(init[i] == cs[i]);
        }
        lemma_scan_alternatives(init, s, pos, d);
        let h = holding(
            Scan { alternatives: init.drop_last(), exclusive: init.len() > 1, ..clean(d) },
            init.last(),
        );
        assert(canonical(init.last()));
        assert(h.atom() == Some(init.last()));
        assert(h.all_alternatives() =~= init);
        assert(scan(s, pos + j.len(), h) == scan(s, pos + j.len() + 1, h.bar()));
        lemma_scan_atom(last, s, pos + j.len() + 1, h.bar());
    }
}

proof fn lemma_scan_node(t: StateTree, s: Seq<char>, pos: int, d: Seq<StateTree>)
    requires
        canonical(t),
        has_at(s, pos, text_of(t)),
    ensures
        scan(s, pos, clean(d)) == scan(s, pos + text_of(t).len(), waiting(d, t)),
    decreases t, 3int,
{
    match t {
        StateTree::Mutex(cs) => {
            lemma_scan_alternatives(cs, s, pos, d);
        },
        _ => {
            lemma_scan_atom(t, s, pos, clean(d));
        },
    }
}

proof fn lemma_scan_list(ts: Seq<StateTree>, s: Seq<char>, pos: int, d: Seq<StateTree>)
    requires
        ts.len() >= 1,
        all_canonical(ts),
        has_at(s, pos, joined(ts, seq![','])),
    ensures
        scan(s, pos, clean(d)) == scan(
            s,
            pos + joined(ts, seq![',']).len(),
            waiting(d + ts.drop_last(), ts.last()),
        ),
    decreases ts, 4int,
{
    if ts.len() == 1 {
        assert(d + ts.drop_last() =~= d);
        lemma_scan_node(ts[0], s, pos, d);
    } else {
        let init = ts.drop_last();
        let last = ts.last();
        let j = joined(init, seq![',']);
        lemma_has_at_split(s, pos, j + seq![','], text_of(last));
        lemma_has_at_split(s, pos, j, seq![',']);
        lemma_has_at_one(s, pos + j.len(), ',');
        assert forall|i: int| 0 <= i < init.len() implies canonical(#[trigger] init[i]) by {
            assert(init[i] == ts[i]);
        }
        lemma_scan_list(init, s, pos, d);
        let w = waiting(d + init.drop_last(), init.last());
        lemma_waiting_placed(d + init.drop_last(), init.last());
        assert((d + init.drop_last()).push(init.last()) =~= d + init);
        assert(scan(s, pos + j.len(), w) == scan(s, pos + j.len() + 1, w.comma()));
        lemma_scan_node(last, s, pos + j.len() + 1, d + init);
    }
}

/// Reading the canonical text of a declaration gives the declaration back:
/// for every non-empty list of canonical nodes, the text made by joining
/// their texts with `,` is read as exactly these nodes, to its last
/// character.
pub proof fn lemma_round_trip(ts: Seq<StateTree>)
    requires
        ts.len() > 0,
        all_canonical(ts),
    ensures
        parsed(joined(ts, seq![','])) == (ts, joined(ts, seq![',']).len() as int),
{
    let s = joined(ts, seq![',']);
    lemma_scan_list(ts, s, 0, Seq::empty());
    assert(Seq::<StateTree>::empty() + ts.drop_last() =~= ts.drop_last());
    lemma_waiting_placed(ts.drop_last(), ts.last());
    assert(ts.drop_last().push(ts.last()) =~= ts);
    assert(clean(Seq::empty()) == Scan::start());
}

/// Whether everything that the reading `st` holds has the shape of what is
/// read from a text.
pub open spec fn scan_shaped(st: Scan) -> bool {
    &&& forall|i: int| 0 <= i < st.done.len() ==> shaped(#[trigger] st.done[i], 1)
    &&& forall|i: int|
        0 <= i < st.alternatives.len() ==> !(#[trigger] st.alternatives[i] is Mutex) && shaped(
            st.alternatives[i],
            1,
        )
    &&& plain(st.name)
    &&& match st.group {
        Some(g) => g is Parent && shaped(g, 1),
        None => true,
    }
}

proof fn lemma_sealed_shaped(st: Scan)
    requires
        scan_shaped(st),
    ensures
        forall|i: int| 0 <= i < st.sealed().len() ==> shaped(#[trigger] st.sealed()[i], 1),
        forall|i: int|
            0 <= i < st.all_alternatives().len() ==> !(#[trigger] st.all_alternatives()[i] is Mutex)
                && shaped(st.all_alternatives()[i], 1),
        scan_shaped(st.without_atom()),
{
    let alts = st.all_alternatives();
    assert forall|i: int| 0 <= i < alts.len() implies !(#[trigger] alts[i] is Mutex) && shaped(
        alts[i],
        1,
    ) by {
        if i < st.alternatives.len() {
            assert(alts[i] == st.alternatives[i]);
        }
    }
    let out = st.sealed();
    assert forall|i: int| 0 <= i < out.len() implies shaped(#[trigger] out[i], 1) by {
        if i < st.done.len() {
            assert(out[i] == st.done[i]);
        }
    }
}

proof fn lemma_scan_shaped(s: Seq<char>, pos: int, st: Scan)
    requires
        0 <= pos <= s.len(),
        scan_shaped(st),
    ensures
        forall|i: int|
            0 <= i < scan(s, pos, st).0.len() ==> shaped(#[trigger] scan(s, pos, st).0[i], 1),
    decreases s.len() - pos,
{
    lemma_sealed_shaped(st);
    if pos >= s.len() {
        assert(scan(s, pos, st).0 == st.sealed());
    } else if s[pos] == ',' {
        assert(scan_shaped(st.comma()));
        lemma_scan_shaped(s, pos + 1, st.comma());
        assert(scan(s, pos, st) == scan(s, pos + 1, st.comma()));
    } else if s[pos] == '|' {
        assert(scan_shaped(st.bar()));
        lemma_scan_shaped(s, pos + 1, st.bar());
        assert(scan(s, pos, st) == scan(s, pos + 1, st.bar()));
    } else if s[pos] == '[' {
        lemma_scan_shaped(s, pos + 1, Scan::start());
        lemma_scan_bounds(s, pos + 1, Scan::start());
        let inner = scan(s, pos + 1, Scan::start());
        assert(scan_shaped(st.open(inner.0)));
        lemma_scan_shaped(s, inner.1, st.open(inner.0));
        assert(scan(s, pos, st) == scan(s, inner.1, st.open(inner.0)));
    } else if s[pos] == ']' {
        assert(scan(s, pos, st).0 == st.sealed());
    } else {
        let c = s[pos];
        let next = st.letter(c);
        assert forall|i: int| 0 <= i < next.name.len() implies !is_mark(#[trigger] next.name[i]) by {
            if i < st.name.len() {
                assert(next.name[i] == st.name[i]);
            }
        }
        lemma_scan_shaped(s, pos + 1, next);
        assert(scan(s, pos, st) == scan(s, pos + 1, next));
    }
}

/// Every node read from a text has the shape of a read node: what is
/// missing for the canonical form is at most a second alternative in a
/// `Mutex`.
pub proof fn lemma_parsed_shaped(s: Seq<char>)
    ensures
        forall|i: int| 0 <= i < parsed(s).0.len() ==> shaped(#[trigger] parsed(s).0[i], 1),
{
    lemma_scan_shaped(s, 0, Scan::start());
}

/// The labels with the names `parts`, in order.
pub open spec fn labels_named(parts: Seq<Seq<char>>) -> Seq<StateTree> {
    Seq::new(parts.len(), |i: int| StateTree::Normal(parts[i]))
}

/// The one state that a text without brackets stands for: a label, or,
/// where the text holds `|`, the alternatives between the `|`, each of them
/// a label. The empty text and an alternative without a name stand for
/// nothing.
pub open spec fn flat_state(s: Seq<char>) -> Option<StateTree> {
    if s.len() == 0 {
        None
    } else if !s.contains('|') {
        Some(StateTree::Normal(s))
    } else if exists|i: int| 0 <= i < pieces(s, '|').len() && #[trigger] pieces(s, '|')[i].len() == 0 {
        None
    } else {
        Some(StateTree::Mutex(labels_named(pieces(s, '|'))))
    }
}

/// Whether every `Mutex` in `t` has at least two alternatives.
pub open spec fn paired(t: StateTree) -> bool
    decreases t,
{
    match t {
        StateTree::Normal(_) => true,
        StateTree::Parent(_, cs) => forall|i: int| 0 <= i < cs.len() ==> paired(#[trigger] cs[i]),
        StateTree::Mutex(cs) => cs.len() >= 2 && forall|i: int|
            0 <= i < cs.len() ==> paired(#[trigger] cs[i]),
    }
}

proof fn lemma_paired_is_canonical(t: StateTree)
    requires
        shaped(t, 1),
        paired(t),
    ensures
        canonical(t),
    decreases t,
{
    match t {
        StateTree::Normal(_) => {},
        StateTree::Parent(_, cs) => {
            assert forall|i: int| 0 <= i < cs.len() implies shaped(#[trigger] cs[i], 2) by {
                lemma_paired_is_canonical(cs[i]);
            }
        },
        StateTree::Mutex(cs) => {
            assert forall|i: int| 0 <= i < cs.len() implies !(#[trigger] cs[i] is Mutex) && shaped(
                cs[i],
                2,
            ) by {
                lemma_paired_is_canonical(cs[i]);
            }
        },
    }
}

/// What was read from a text is read again from its own canonical text,
/// where it is not empty and every `Mutex` in it has at least two
/// alternatives.
pub proof fn lemma_round_trip_of_parsed(s: Seq<char>)
    requires
        parsed(s).0.len() > 0,
        forall|i: int| 0 <= i < parsed(s).0.len() ==> paired(#[trigger] parsed(s).0[i]),
    ensures
        parsed(joined(parsed(s).0, seq![','])).0 == parsed(s).0,
{
    let ts = parsed(s).0;
    lemma_parsed_shaped(s);
    assert forall|i: int| 0 <= i < ts.len() implies canonical(#[trigger] ts[i]) by {
        lemma_paired_is_canonical(ts[i]);
    }
    lemma_round_trip(ts);
}

/// The reader's working state.
struct Scanner {
    rtn: Vec<State>,
    normal: String,
    mutex: Vec<State>,
    is_mutex: bool,
    parent: Option<State>,
}

impl Scanner {
    spec fn model(&self) -> Scan {
        Scan {
            done: trees_of(self.rtn@),
            name: self.normal@,
            alternatives: trees_of(self.mutex@),
            exclusive: self.is_mutex,
            group: match self.parent {
                Some(p) => Some(tree_of(p)),
                None => None,
            },
        }
    }

    fn new() -> (r: Scanner)
        ensures
            r.model() == Scan::start(),
    {
        let r = Scanner {
            rtn: Vec::new(),
            normal: String::new(),
            mutex: Vec::new(),
            is_mutex: false,
            parent: None,
        };
        assert(trees_of(r.rtn@) =~= Seq::empty());
        r
    }

    /// Hands out the node that waits to be placed.
    fn take_atom(&mut self) -> (r: Option<State>)
        ensures
            match r {
                Some(a) => old(self).model().atom() == Some(tree_of(a)),
                None => old(self).model().atom() is None,
            },
            final(self).model() == old(self).model().without_atom(),
    {
        if !self.normal.as_str().is_empty() {
            let mut name = String::new();
            core::mem::swap(&mut name, &mut self.normal);
            Some(State::Normal(name))
        } else {
            self.parent.take()
        }
    }

    /// Moves the waiting node to the alternatives.
    fn collect(&mut self)
        ensures
            final(self).model() == (Scan {
                alternatives: old(self).model().all_alternatives(),
                ..old(self).model().without_atom()
            }),
    {
        let ghost before = self.mutex@;
        match self.take_atom() {
            Some(a) => {
                self.mutex.push(a);
                assert(trees_of(self.mutex@) =~= trees_of(before).push(tree_of(a)));
            },
            None => {},
        }
    }

    /// Places everything that waits.
    fn seal(&mut self)
        ensures
            final(self).model() == (Scan {
                done: old(self).model().sealed(),
                alternatives: Seq::empty(),
                exclusive: false,
                ..old(self).model().without_atom()
            }),
    {
        let ghost before = self.rtn@;
        if self.is_mutex {
            self.collect();
            let mut group: Vec<State> = Vec::new();
            core::mem::swap(&mut group, &mut self.mutex);
            assert(trees_of(self.mutex@) =~= Seq::empty());
            if group.len() > 0 {
                let node = State::Mutex(group);
                self.rtn.push(node);
                assert(trees_of(self.rtn@) =~= trees_of(before).push(tree_of(node)));
            }
            self.is_mutex = false;
        } else {
            match self.take_atom() {
                Some(a) => {
                    self.rtn.push(a);
                    assert(trees_of(self.rtn@) =~= trees_of(before).push(tree_of(a)));
                },
                None => {},
            }
            let mut group: Vec<State> = Vec::new();
            core::mem::swap(&mut group, &mut self.mutex);
            assert(trees_of(self.mutex@) =~= Seq::empty());
        }
    }
}

/// Reads the list that begins at `start` in `chars`.
fn scan_from(chars: &Vec<char>, start: usize) -> (r: (Vec<State>, usize))
    requires
        start <= chars.len(),
    ensures
        trees_of(r.0@) == scan(chars@, start as int, Scan::start()).0,
        r.1 == scan(chars@, start as int, Scan::start()).1,
        start <= r.1 <= chars.len(),
    decreases chars.len() - start,
{
    let mut st = Scanner::new();
    let mut x: usize = start;
    while x < chars.len()
        invariant
            start <= x <= chars.len(),
            scan(chars@, start as int, Scan::start()) == scan(chars@, x as int, st.model()),
        decreases chars.len() - x,
    {
        let c = chars[x];
        if c == ',' {
            st.seal();
            x = x + 1;
        } else if c == '|' {
            st.collect();
            st.is_mutex = true;
            x = x + 1;
        } else if c == '[' {
            let inner = scan_from(chars, x + 1);
            let mut name = String::new();
            core::mem::swap(&mut name, &mut st.normal);
            st.parent = Some(State::Parent(name, inner.0));
            x = inner.1;
        } else if c == ']' {
            st.seal();
            return (st.rtn, x + 1);
        } else {
            st.normal.push(c);
            x = x + 1;
        }
    }
    st.seal();
    (st.rtn, x)
}

/// A copy of `v`, node by node.
pub fn clone_states(v: &Vec<State>) -> (r: Vec<State>)
    ensures
        trees_of(r@) == trees_of(v@),
    decreases v, 1int,
{
    let mut r: Vec<State> = Vec::new();
    let mut i: usize = 0;
    while i < v.len()
        invariant
            i <= v.len(),
            trees_of(r@) == trees_of(v@).take(i as int),
        decreases v.len() - i,
    {
        let ghost before = r@;
        let one = v[i].clone();
        r.push(one);
        assert(trees_of(r@) =~= trees_of(before).push(tree_of(one)));
        assert(trees_of(v@).take(i + 1) =~= trees_of(v@).take(i as int).push(tree_of(v@[i as int])));
        i += 1;
    }
    assert(trees_of(v@).take(i as int) =~= trees_of(v@));
    r
}

impl Clone for State {
    fn clone(&self) -> (r: Self)
        ensures
            r@ == self@,
        decreases self, 0int,
    {
        match self {
            State::Mutex(v) => State::Mutex(clone_states(v)),
            State::Normal(n) => State::Normal(n.clone()),
            State::Parent(n, v) => State::Parent(n.clone(), clone_states(v)),
        }
    }
}

impl State {
    /// The canonical text of this node.
    pub fn to_string(&self) -> (r: String)
        ensures
            r@ == text_of(self@),
        decreases self, 0int,
    {
        match self {
            State::Normal(s) => s.clone(),
            State::Parent(name, list) => {
                let mut r = name.clone();
                r.push('[');
                let inner = Self::states_to_string(list, ",");
                r.append(inner.as_str());
                r.push(']');
                proof {
                    reveal_strlit(",");
                    assert(","@ =~= seq![',']);
                    assert(r@ =~= text_of(self@));
                }
                r
            },
            State::Mutex(list) => {
                let r = Self::states_to_string(list, "|");
                proof {
                    reveal_strlit("|");
                    assert("|"@ =~= seq!['|']);
                }
                r
            },
        }
    }

    /// The canonical texts of `states` in order, with `separator` between
    /// neighbours; the empty text for no states.
    pub fn states_to_string(states: &States, separator: &str) -> (r: String)
        ensures
            r@ == joined(trees_of(states@), separator@),
        decreases states, 1int,
    {
        if states.len() < 1 {
            return String::new();
        }
        let mut rtn = states[0].to_string();
        let mut x: usize = 1;
        proof {
            lemma_trees_take(states@, 0);
            assert(trees_of(states@.take(1)) =~= seq![tree_of(states@[0])]);
        }
        while x < states.len()
            invariant
                1 <= x <= states.len(),
                rtn@ == joined(trees_of(states@.take(x as int)), separator@),
            decreases states.len() - x,
        {
            let one = states[x].to_string();
            proof {
                lemma_trees_take(states@, x as int);
                lemma_joined_push(
                    trees_of(states@.take(x as int)),
                    tree_of(states@[x as int]),
                    separator@,
                );
            }
            rtn.append(separator);
            rtn.append(one.as_str());
            x += 1;
        }
        assert(states@.take(x as int) =~= states@);
        rtn
    }

    /// Reads a declaration from its text. Names are separated by `,`;
    /// names joined by `|` form one `Mutex`; a name followed by a list in
    /// square brackets is a `Parent`. A missing `]` at the end and commas
    /// with nothing between them are tolerated. Returns the nodes and the
    /// number of characters read; only the empty text is refused.
    pub fn string_to_states_v2(states: &str) -> (r: Result<(States, usize), NatureError>)
        ensures
            match r {
                Ok(p) => states@.len() > 0 && trees_of(p.0@) == parsed(states@).0 && p.1
                    == parsed(states@).1,
                Err(e) => states@.len() == 0 && e@ == ErrorText::VerifyError(
                    "states string should not be empty"@,
                ),
            },
    {
        if states.is_empty() {
            return Err(NatureError::VerifyError("states string should not be empty".to_owned()));
        }
        let chars = to_chars(states);
        Ok(scan_from(&chars, 0))
    }

    /// Reads one state from a text without brackets: a label, or
    /// alternatives joined by `|`. The text must not hold `[`.
    pub fn from_str(s: &str) -> (r: Result<State, NatureError>)
        requires
            !s@.contains('['),
        ensures
            match r {
                Ok(t) => flat_state(s@) == Some(t@),
                Err(e) => flat_state(s@) is None && e@ == ErrorText::VerifyError(
                    "state string can't be empty"@,
                ),
            },
    {
        if s.is_empty() {
            return Err(NatureError::VerifyError("state string can't be empty".to_owned()));
        }
        let parts = split(s, '|');
        proof {
            lemma_pieces_whole(s@, '|');
            lemma_pieces_len(s@, '|');
        }
        let ghost names = pieces(s@, '|');
        assert(parts@.len() == names.len());
        if parts.len() == 1 {
            return Ok(State::Normal(s.to_owned()));
        }
        let mut r_v: Vec<State> = Vec::new();
        let mut i: usize = 0;
        assert(trees_of(r_v@) =~= labels_named(names.take(0)));
        while i < parts.len()
            invariant
                i <= parts.len(),
                s@.len() > 0,
                s@.contains('|'),
                names == pieces(s@, '|'),
                names == texts_of(parts@),
                trees_of(r_v@) == labels_named(names.take(i as int)),
                forall|j: int| 0 <= j < i ==> (#[trigger] names[j]).len() > 0,
            decreases parts.len() - i,
        {
            assert(names[i as int] == parts@[i as int]@);
            if parts[i].as_str().is_empty() {
                return Err(NatureError::VerifyError("state string can't be empty".to_owned()));
            }
            let ghost before = r_v@;
            let one = State::Normal(parts[i].clone());
            r_v.push(one);
            assert(trees_of(r_v@) =~= trees_of(before).push(tree_of(one)));
            assert(labels_named(names.take(i + 1)) =~= labels_named(names.take(i as int)).push(
                StateTree::Normal(names[i as int]),
            ));
            i += 1;
        }
        assert(names.take(i as int) =~= names);
        Ok(State::Mutex(r_v))
    }

    /// Reads a declaration from its text, as [`State::string_to_states_v2`]
    /// does.
    pub fn string_to_states(states: &str) -> (r: Result<(States, usize), NatureError>)
        ensures
            match r {
                Ok(p) => states@.len() > 0 && trees_of(p.0@) == parsed(states@).0 && p.1
                    == parsed(states@).1,
                Err(e) => states@.len() == 0 && e@ == ErrorText::VerifyError(
                    "states string should not be empty"@,
                ),
            },
    {
        Self::string_to_states_v2(states)
    }
}

} // verus!
