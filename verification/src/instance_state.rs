//! The states of an instance as a tree of names, with its textual form.

use std::str::FromStr;
use vstd::prelude::*;
use vstd::string::*;
use crate::error::{ErrorText, NatureError};
use crate::text::{from_chars, pieces, split, texts_of, to_chars};

verus! {

/// The states below a state, in order.
pub type InstanceStates = Vec<InstanceState>;

/// A state with the states below it.
#[derive(PartialEq, Debug)]
pub struct InstanceState {
    pub name: String,
    pub sub_state: InstanceStates,
}

/// An [`InstanceState`] as a mathematical tree.
pub struct InstanceTree {
    pub name: Seq<char>,
    pub sub_state: Seq<InstanceTree>,
}

/// The tree that `s` stands for.
pub open spec fn instance_tree_of(s: InstanceState) -> InstanceTree
    decreases s, 0int,
{
    InstanceTree { name: s.name@, sub_state: instance_trees_of(s.sub_state@) }
}

/// The trees that the elements of `v` stand for, in order.
pub open spec fn instance_trees_of(v: Seq<InstanceState>) -> Seq<InstanceTree>
    decreases v, 1int,
{
    Seq::new(
        v.len(),
        |i: int|
            if 0 <= i < v.len() {
                instance_tree_of(v[i])
            } else {
                InstanceTree { name: Seq::empty(), sub_state: Seq::empty() }
            },
    )
}

impl View for InstanceState {
    type V = InstanceTree;

    open spec fn view(&self) -> InstanceTree {
        instance_tree_of(*self)
    }
}

/// The text of a state: its name, and behind it the states below it in
/// square brackets, if there are any.
pub open spec fn instance_text(t: InstanceTree) -> Seq<char>
    decreases t, 0int,
{
    if t.sub_state.len() == 0 {
        t.name
    } else {
        t.name + seq!['['] + instance_texts(t.sub_state) + seq![']']
    }
}

/// The text of a list of states: the name of the first, and the texts of
/// the others, with `,` between them.
pub open spec fn instance_texts(ts: Seq<InstanceTree>) -> Seq<char>
    decreases ts, 1int,
{
    if ts.len() == 0 {
        Seq::empty()
    } else if ts.len() == 1 {
        ts[0].name
    } else {
        instance_texts(ts.drop_last()) + seq![','] + instance_text(ts.last())
    }
}

/// The position of the first `c` in `s` from `from` on.
pub open spec fn first_at(s: Seq<char>, c: char, from: int) -> Option<int>
    decreases s.len() - from,
{
    if from < 0 || from >= s.len() {
        None
    } else if s[from] == c {
        Some(from)
    } else {
        first_at(s, c, from + 1)
    }
}

/// The state that the text `s` stands for. The empty text stands for
/// none. A text without `[` is the name of a state with nothing below it.
/// Otherwise the name ends before the first `[`; what stands between that
/// bracket and the last character is taken apart at every `,`, and each
/// part must stand for a state of its own.
pub open spec fn read_instance_state(s: Seq<char>) -> Option<InstanceTree>
    decreases s.len(), 1int, 0int,
{
    if s.len() == 0 {
        None
    } else {
        match first_at(s, '[', 0) {
            None => Some(InstanceTree { name: s, sub_state: Seq::empty() }),
            Some(index) => {
                match read_all(pieces(inside(s, index), ','), s.len() as int) {
                    Some(subs) => Some(InstanceTree { name: s.take(index), sub_state: subs }),
                    None => None,
                }
            },
        }
    }
}

/// What stands in `s` between the bracket at `index` and the last
/// character.
pub open spec fn inside(s: Seq<char>, index: int) -> Seq<char> {
    if index + 1 < s.len() - 1 {
        s.subrange(index + 1, s.len() - 1)
    } else {
        Seq::empty()
    }
}

/// The states that the texts `parts` stand for, if each of them stands for
/// one and is shorter than `bound`.
pub open spec fn read_all(parts: Seq<Seq<char>>, bound: int) -> Option<Seq<InstanceTree>>
    decreases bound, 0int, parts.len(),
{
    if parts.len() == 0 {
        Some(Seq::empty())
    } else {
        match read_all(parts.drop_last(), bound) {
            None => None,
            Some(front) => if parts.last().len() < bound {
                match read_instance_state(parts.last()) {
                    Some(t) => Some(front.push(t)),
                    None => None,
                }
            } else {
                None
            },
        }
    }
}

/// No part is longer than the whole.
pub proof fn lemma_piece_len(s: Seq<char>, sep: char, i: int)
    requires
        0 <= i < pieces(s, sep).len(),
    ensures
        pieces(s, sep)[i].len() <= s.len(),
    decreases s.len(),
{
    if s.len() > 0 {
        let before = pieces(s.drop_last(), sep);
        crate::text::lemma_pieces_len(s.drop_last(), sep);
        if s.last() == sep {
            if i < before.len() {
                lemma_piece_len(s.drop_last(), sep, i);
            }
        } else {
            if i < before.len() - 1 {
                lemma_piece_len(s.drop_last(), sep, i);
            } else {
                lemma_piece_len(s.drop_last(), sep, before.len() - 1);
            }
        }
    }
}

/// The message for a text that stands for no state.
pub open spec fn empty_state_message() -> Seq<char> {
    "state string can't be empty"@
}

fn find_bracket(chars: &Vec<char>) -> (r: Option<usize>)
    ensures
        match r {
            Some(i) => first_at(chars@, '[', 0) == Some(i as int) && i < chars.len(),
            None => first_at(chars@, '[', 0) is None,
        },
{
    let mut i: usize = 0;
    while i < chars.len()
        invariant
            i <= chars.len(),
            first_at(chars@, '[', 0) == first_at(chars@, '[', i as int),
        decreases chars.len() - i,
    {
        if chars[i] == '[' {
            return Some(i);
        }
        i += 1;
    }
    None
}

impl InstanceState {
    /// The text of this state.
    pub fn to_string(&self) -> (r: String)
        ensures
            r@ == instance_text(self@),
        decreases self, 0int,
    {
        let mut rtn = self.name.clone();
        if self.sub_state.len() == 0 {
            return rtn;
        }
        rtn.push('[');
        rtn.append(Self::states_to_string(&self.sub_state).as_str());
        rtn.push(']');
        assert(rtn@ =~= instance_text(self@));
        rtn
    }

    /// The text of a list of states: the name of the first, and the texts
    /// of the others, with `,` between them.
    pub fn states_to_string(states: &InstanceStates) -> (r: String)
        ensures
            r@ == instance_texts(instance_trees_of(states@)),
        decreases states, 1int,
    {
        if states.len() < 1 {
            return String::new();
        }
        let ghost trees = instance_trees_of(states@);
        let mut rtn = states[0].name.clone();
        let mut x: usize = 1;
        assert(trees.take(1) =~= seq![trees[0]]);
        while x < states.len()
            invariant
                1 <= x <= states.len(),
                trees == instance_trees_of(states@),
                rtn@ == instance_texts(trees.take(x as int)),
            decreases states.len() - x,
        {
            let one = states[x].to_string();
            assert(trees.take(x + 1).drop_last() =~= trees.take(x as int));
            assert(trees.take(x + 1).last() == instance_tree_of(states@[x as int]));
            rtn.push(',');
            rtn.append(one.as_str());
            assert(rtn@ =~= instance_texts(trees.take(x + 1)));
            x += 1;
        }
        assert(trees.take(x as int) =~= trees);
        rtn
    }

    /// Reads a state from its text.
    pub fn parse(s: &str) -> (r: Result<InstanceState, NatureError>)
        ensures
            match r {
                Ok(t) => read_instance_state(s@) == Some(t@),
                Err(e) => read_instance_state(s@) is None && e@ == ErrorText::VerifyError(
                    empty_state_message(),
                ),
            },
        decreases s@.len(),
    {
        let chars = to_chars(s);
        let n = chars.len();
        if n < 1 {
            return Err(NatureError::VerifyError("state string can't be empty".to_owned()));
        }
        match find_bracket(&chars) {
            None => {
                let sub_state: Vec<InstanceState> = Vec::new();
                assert(instance_trees_of(sub_state@) =~= Seq::empty());
                Ok(InstanceState { name: s.to_owned(), sub_state })
            },
            Some(index) => {
                let end = if index + 1 < n - 1 {
                    n - 1
                } else {
                    index + 1
                };
                let subs = from_chars(&chars, index + 1, end);
                assert(subs@ =~= inside(s@, index as int));
                let parts = split(subs.as_str(), ',');
                let ghost texts = pieces(subs@, ',');
                let mut vec1: Vec<InstanceState> = Vec::new();
                let mut i: usize = 0;
                assert(texts.take(0) =~= Seq::empty());
                assert(instance_trees_of(vec1@) =~= Seq::empty());
                while i < parts.len()
                    invariant
                        i <= parts.len(),
                        n == s@.len(),
                        subs@.len() < n,
                        texts == pieces(subs@, ','),
                        texts == texts_of(parts@),
                        read_all(texts.take(i as int), n as int) == Some(
                            instance_trees_of(vec1@),
                        ),
                        read_all(texts, n as int) is None ==> read_instance_state(s@) is None,
                        read_all(texts, n as int) is Some ==> read_instance_state(s@) == Some(
                            InstanceTree {
                                name: s@.take(index as int),
                                sub_state: read_all(texts, n as int)->0,
                            },
                        ),
                    decreases parts.len() - i,
                {
                    proof {
                        lemma_piece_len(subs@, ',', i as int);
                    }
                    assert(texts.take(i + 1).drop_last() =~= texts.take(i as int));
                    assert(texts.take(i + 1).last() == parts@[i as int]@);
                    match Self::parse(parts[i].as_str()) {
                        Ok(one) => {
                            let ghost before = vec1@;
                            vec1.push(one);
                            assert(instance_trees_of(vec1@) =~= instance_trees_of(before).push(
                                instance_tree_of(one),
                            ));
                        },
                        Err(e) => {
                            proof {
                                lemma_read_all_fails(texts, n as int, i + 1);
                            }
                            return Err(e);
                        },
                    }
                    i += 1;
                }
                assert(texts.take(i as int) =~= texts);
                let name = from_chars(&chars, 0, index);
                assert(name@ =~= s@.take(index as int));
                Ok(InstanceState { name, sub_state: vec1 })
            },
        }
    }
}

/// Where the first texts stand for no list of states, the whole list does
/// not either.
pub proof fn lemma_read_all_fails(parts: Seq<Seq<char>>, bound: int, k: int)
    requires
        0 <= k <= parts.len(),
        read_all(parts.take(k), bound) is None,
    ensures
        read_all(parts, bound) is None,
    decreases parts.len() - k,
{
    if k == parts.len() {
        assert(parts.take(k) =~= parts);
    } else {
        assert(parts.take(k + 1).drop_last() =~= parts.take(k));
        lemma_read_all_fails(parts, bound, k + 1);
    }
}

impl FromStr for InstanceState {
    type Err = NatureError;

    /// The state that the text `s` stands for, as [`InstanceState::parse`]
    /// reads it.
    fn from_str(s: &str) -> (r: Result<Self, Self::Err>)
        ensures
            match r {
                Ok(t) => read_instance_state(s@) == Some(t@),
                Err(e) => read_instance_state(s@) is None && e@ == ErrorText::VerifyError(
                    empty_state_message(),
                ),
            },
    {
        InstanceState::parse(s)
    }
}

} // verus!
