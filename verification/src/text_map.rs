//! Sets of texts and values by text, kept in the order of the texts so that
//! looking one up takes few steps and equal contents compare equal.

use vstd::prelude::*;
use vstd::string::*;
use vstd::utf8::{encode_utf8, encode_utf8_decode_utf8, decode_utf8};
use crate::text::texts_of;

verus! {

/// Whether `a` comes before `b`: at the first place where they differ, `a`
/// has the smaller byte or has ended.
pub open spec fn bytes_less(a: Seq<u8>, b: Seq<u8>) -> bool
    decreases a.len(),
{
    if b.len() == 0 {
        false
    } else if a.len() == 0 {
        true
    } else if a[0] != b[0] {
        a[0] < b[0]
    } else {
        bytes_less(a.drop_first(), b.drop_first())
    }
}

/// Whether the text `a` comes before the text `b`, by their bytes in
/// UTF-8.
pub open spec fn text_less(a: Seq<char>, b: Seq<char>) -> bool {
    bytes_less(encode_utf8(a), encode_utf8(b))
}

/// Whether each of `names` comes before the next, so that none occurs
/// twice.
pub open spec fn ascending(names: Seq<Seq<char>>) -> bool {
    forall|i: int, j: int| 0 <= i < j < names.len() ==> text_less(names[i], names[j])
}

/// Nothing comes before itself.
pub proof fn lemma_bytes_less_irreflexive(a: Seq<u8>)
    ensures
        !bytes_less(a, a),
    decreases a.len(),
{
    if a.len() > 0 {
        lemma_bytes_less_irreflexive(a.drop_first());
    }
}

/// What comes before something comes before all that follows it.
pub proof fn lemma_bytes_less_transitive(a: Seq<u8>, b: Seq<u8>, c: Seq<u8>)
    requires
        bytes_less(a, b),
        bytes_less(b, c),
    ensures
        bytes_less(a, c),
    decreases a.len(),
{
    if a.len() > 0 && a[0] == b[0] && b[0] == c[0] {
        lemma_bytes_less_transitive(a.drop_first(), b.drop_first(), c.drop_first());
    }
}

/// Where two byte sequences agree up to `i`, what follows decides which
/// comes first.
pub proof fn lemma_bytes_less_skip(a: Seq<u8>, b: Seq<u8>, i: int)
    requires
        0 <= i <= a.len(),
        i <= b.len(),
        a.take(i) == b.take(i),
    ensures
        bytes_less(a, b) == bytes_less(a.skip(i), b.skip(i)),
    decreases i,
{
    if i == 0 {
        assert(a.skip(0) =~= a);
        assert(b.skip(0) =~= b);
    } else {
        assert(a[0] == a.take(i)[0]);
        assert(b[0] == b.take(i)[0]);
        assert(a.drop_first().take(i - 1) =~= a.take(i).drop_first());
        assert(b.drop_first().take(i - 1) =~= b.take(i).drop_first());
        lemma_bytes_less_skip(a.drop_first(), b.drop_first(), i - 1);
        assert(a.drop_first().skip(i - 1) =~= a.skip(i));
        assert(b.drop_first().skip(i - 1) =~= b.skip(i));
    }
}

/// No text comes before itself, and what comes before a text comes before
/// all that follow it.
pub proof fn lemma_text_order(a: Seq<char>, b: Seq<char>, c: Seq<char>)
    ensures
        !text_less(a, a),
        text_less(a, b) && text_less(b, c) ==> text_less(a, c),
        text_less(a, b) ==> a != b && !text_less(b, a),
{
    lemma_bytes_less_irreflexive(encode_utf8(a));
    if text_less(a, b) && text_less(b, c) {
        lemma_bytes_less_transitive(encode_utf8(a), encode_utf8(b), encode_utf8(c));
    }
    if text_less(a, b) && text_less(b, a) {
        lemma_bytes_less_transitive(encode_utf8(a), encode_utf8(b), encode_utf8(a));
    }
}

/// Where a text stands beside another in the order of the texts.
#[derive(Debug, Clone, Copy, PartialEq, Eq, Structural)]
pub enum Place {
    Before,
    Same,
    After,
}

/// Where `a` stands beside `b`.
pub fn place_of(a: &str, b: &str) -> (r: Place)
    ensures
        match r {
            Place::Before => text_less(a@, b@),
            Place::Same => a@ == b@,
            Place::After => text_less(b@, a@),
        },
{
    let x = a.as_bytes();
    let y = b.as_bytes();
    let mut i: usize = 0;
    assert(x@.take(0) =~= y@.take(0));
    while i < x.len() && i < y.len()
        invariant
            i <= x.len(),
            i <= y.len(),
            x@ == encode_utf8(a@),
            y@ == encode_utf8(b@),
            x@.take(i as int) == y@.take(i as int),
        decreases x.len() - i,
    {
        if x[i] != y[i] {
            proof {
                lemma_bytes_less_skip(x@, y@, i as int);
                lemma_bytes_less_skip(y@, x@, i as int);
                assert(x@.skip(i as int)[0] == x@[i as int]);
                assert(y@.skip(i as int)[0] == y@[i as int]);
            }
            if x[i] < y[i] {
                return Place::Before;
            } else {
                return Place::After;
            }
        }
        assert(x@.take(i + 1) =~= x@.take(i as int).push(x@[i as int]));
        assert(y@.take(i + 1) =~= y@.take(i as int).push(y@[i as int]));
        i += 1;
    }
    proof {
        lemma_bytes_less_skip(x@, y@, i as int);
        lemma_bytes_less_skip(y@, x@, i as int);
    }
    if i < y.len() {
        Place::Before
    } else if i < x.len() {
        Place::After
    } else {
        proof {
            assert(x@.take(i as int) =~= x@);
            assert(y@.take(i as int) =~= y@);
            encode_utf8_decode_utf8(a@);
            encode_utf8_decode_utf8(b@);
            assert(decode_utf8(x@) == a@);
            assert(decode_utf8(y@) == b@);
        }
        Place::Same
    }
}

/// Something that is kept under a name.
pub trait Named {
    /// The name.
    spec fn name_of(&self) -> Seq<char>;

    /// The name.
    fn name(&self) -> (r: &str)
        ensures
            r@ == self.name_of(),
    ;
}

impl Named for String {
    open spec fn name_of(&self) -> Seq<char> {
        self@
    }

    fn name(&self) -> (r: &str) {
        self.as_str()
    }
}

/// The names of the elements of `v`, in order.
pub open spec fn names_of<T: Named>(v: Seq<T>) -> Seq<Seq<char>> {
    Seq::new(v.len(), |i: int| v[i].name_of())
}

/// Looks for `key` among the elements of `v`, which stand in the order of
/// their names. Gives whether it is there, and the position where it
/// stands or would have to.
pub fn search<T: Named>(v: &Vec<T>, key: &str) -> (r: (bool, usize))
    requires
        ascending(names_of(v@)),
    ensures
        r.1 <= v.len(),
        r.0 ==> r.1 < v.len() && v@[r.1 as int].name_of() == key@,
        !r.0 ==> !names_of(v@).contains(key@),
        !r.0 ==> forall|i: int| 0 <= i < r.1 ==> text_less(#[trigger] names_of(v@)[i], key@),
        !r.0 ==> forall|i: int|
            r.1 <= i < v.len() ==> text_less(key@, #[trigger] names_of(v@)[i]),
{
    let ghost names = names_of(v@);
    let mut lo: usize = 0;
    let mut hi: usize = v.len();
    while lo < hi
        invariant
            lo <= hi <= v.len(),
            names == names_of(v@),
            ascending(names),
            forall|i: int| 0 <= i < lo ==> text_less(#[trigger] names[i], key@),
            forall|i: int| hi <= i < v.len() ==> text_less(key@, #[trigger] names[i]),
        decreases hi - lo,
    {
        let mid = lo + (hi - lo) / 2;
        assert(names[mid as int] == v@[mid as int].name_of());
        match place_of(v[mid].name(), key) {
            Place::Same => {
                return (true, mid);
            },
            Place::Before => {
                assert forall|i: int| 0 <= i < mid + 1 implies text_less(
                    #[trigger] names[i],
                    key@,
                ) by {
                    if i < mid {
                        lemma_text_order(names[i], names[mid as int], key@);
                    }
                }
                lo = mid + 1;
            },
            Place::After => {
                assert forall|i: int| mid <= i < v.len() implies text_less(
                    key@,
                    #[trigger] names[i],
                ) by {
                    if i > mid {
                        lemma_text_order(key@, names[mid as int], names[i]);
                    }
                }
                hi = mid;
            },
        }
    }
    proof {
        if names.contains(key@) {
            let k = choose|k: int| 0 <= k < names.len() && names[k] == key@;
            lemma_text_order(key@, key@, key@);
            if k < lo {
                assert(text_less(names[k], key@));
            } else {
                assert(text_less(key@, names[k]));
            }
        }
    }
    (false, lo)
}

/// In an ascending list a name stands at one place only.
pub proof fn lemma_ascending_unique(names: Seq<Seq<char>>, i: int, j: int)
    requires
        ascending(names),
        0 <= i < names.len(),
        0 <= j < names.len(),
        names[i] == names[j],
    ensures
        i == j,
{
    lemma_text_order(names[i], names[j], names[i]);
    if i < j {
        assert(text_less(names[i], names[j]));
    } else if j < i {
        assert(text_less(names[j], names[i]));
    }
}

/// The texts of the set `s`, each once, in the order of the texts.
pub open spec fn in_ascending_order(s: Set<Seq<char>>) -> Seq<Seq<char>> {
    choose|q: Seq<Seq<char>>| ascending(q) && q.to_set() == s
}

/// There is one way only to put the texts of a set in order.
pub proof fn lemma_one_ascending_order(a: Seq<Seq<char>>, b: Seq<Seq<char>>)
    requires
        ascending(a),
        ascending(b),
        a.to_set() == b.to_set(),
    ensures
        a == b,
    decreases a.len(),
{
    if a.len() == 0 {
        if b.len() > 0 {
            assert(b.to_set().contains(b[0]));
            assert(a.contains(b[0]));
        }
        assert(a =~= b);
    } else {
        assert(a.to_set().contains(a[0]));
        assert(b.contains(a[0]));
        let k = choose|k: int| 0 <= k < b.len() && b[k] == a[0];
        assert(b.to_set().contains(b[0]));
        assert(a.contains(b[0]));
        let m = choose|m: int| 0 <= m < a.len() && a[m] == b[0];
        if k > 0 {
            assert(text_less(b[0], b[k]));
            if m > 0 {
                assert(text_less(a[0], a[m]));
                lemma_text_order(b[0], a[0], b[0]);
            } else {
                lemma_text_order(b[0], b[0], b[0]);
            }
        }
        let ra = a.drop_first();
        let rb = b.drop_first();
        assert forall|x: Seq<char>| ra.to_set().contains(x) <==> rb.to_set().contains(x) by {
            if ra.contains(x) {
                let i = choose|i: int| 0 <= i < ra.len() && ra[i] == x;
                assert(a[i + 1] == x);
                assert(text_less(a[0], a[i + 1]));
                lemma_text_order(a[0], x, x);
                assert(a.to_set().contains(x));
                assert(b.contains(x));
                let j = choose|j: int| 0 <= j < b.len() && b[j] == x;
                assert(rb[j - 1] == x);
            }
            if rb.contains(x) {
                let i = choose|i: int| 0 <= i < rb.len() && rb[i] == x;
                assert(b[i + 1] == x);
                assert(text_less(b[0], b[i + 1]));
                lemma_text_order(b[0], x, x);
                assert(b.to_set().contains(x));
                assert(a.contains(x));
                let j = choose|j: int| 0 <= j < a.len() && a[j] == x;
                assert(ra[j - 1] == x);
            }
        }
        assert(ra.to_set() =~= rb.to_set());
        assert forall|i: int, j: int| 0 <= i < j < ra.len() implies text_less(ra[i], ra[j]) by {
            assert(text_less(a[i + 1], a[j + 1]));
        }
        assert forall|i: int, j: int| 0 <= i < j < rb.len() implies text_less(rb[i], rb[j]) by {
            assert(text_less(b[i + 1], b[j + 1]));
        }
        lemma_one_ascending_order(ra, rb);
        assert(a =~= seq![a[0]] + ra);
        assert(b =~= seq![b[0]] + rb);
    }
}

/// A set of texts.
#[derive(Debug, PartialEq, Eq, PartialOrd, Ord, Hash)]
pub struct TextSet {
    items: Vec<String>,
}

impl View for TextSet {
    type V = Set<Seq<char>>;

    closed spec fn view(&self) -> Set<Seq<char>> {
        texts_of(self.items@).to_set()
    }
}

impl TextSet {
    #[verifier::type_invariant]
    spec fn ordered(self) -> bool {
        ascending(texts_of(self.items@))
    }

    /// The empty set.
    pub fn new() -> (r: TextSet)
        ensures
            r@ == Set::<Seq<char>>::empty(),
    {
        let items: Vec<String> = Vec::new();
        assert(texts_of(items@) =~= Seq::empty());
        assert(texts_of(items@).to_set() =~= Set::empty());
        TextSet { items }
    }

    /// How many texts the set holds.
    pub fn len(&self) -> (r: usize)
        ensures
            r == in_ascending_order(self@).len(),
    {
        let items = self.as_vec();
        assert(texts_of(items@).len() == items@.len());
        items.len()
    }

    /// Whether the set holds nothing.
    pub fn is_empty(&self) -> (r: bool)
        ensures
            r == (self@ == Set::<Seq<char>>::empty()),
    {
        let r = self.items.len() == 0;
        proof {
            let names = texts_of(self.items@);
            if r {
                assert(names.to_set() =~= Set::empty());
            } else {
                assert(names.to_set().contains(names[0]));
            }
        }
        r
    }

    /// The texts of the set, each once, in the order of the texts.
    pub fn as_vec(&self) -> (r: &Vec<String>)
        ensures
            texts_of(r@) == in_ascending_order(self@),
            ascending(texts_of(r@)),
            texts_of(r@).to_set() == self@,
    {
        proof {
            use_type_invariant(self);
            let mine = texts_of(self.items@);
            let chosen = in_ascending_order(self@);
            assert(ascending(mine) && mine.to_set() == self@);
            lemma_one_ascending_order(mine, chosen);
        }
        &self.items
    }

    /// Whether `text` is in the set.
    pub fn contains(&self, text: &str) -> (r: bool)
        ensures
            r == self@.contains(text@),
    {
        proof {
            use_type_invariant(self);
            assert(names_of(self.items@) =~= texts_of(self.items@));
        }
        let found = search(&self.items, text);
        proof {
            if found.0 {
                assert(texts_of(self.items@)[found.1 as int] == text@);
            }
        }
        found.0
    }

    /// Puts `text` into the set; says whether it was not there before.
    pub fn insert(&mut self, text: String) -> (r: bool)
        ensures
            final(self)@ == old(self)@.insert(text@),
            r == !old(self)@.contains(text@),
    {
        proof {
            use_type_invariant(&*self);
            assert(names_of(self.items@) =~= texts_of(self.items@));
        }
        let ghost before = texts_of(self.items@);
        let found = search(&self.items, text.as_str());
        if found.0 {
            proof {
                assert(before[found.1 as int] == text@);
                assert(before.to_set().insert(text@) =~= before.to_set());
            }
            false
        } else {
            let ghost key = text@;
            let mut items: Vec<String> = Vec::new();
            core::mem::swap(&mut items, &mut self.items);
            items.insert(found.1, text);
            proof {
                let after = texts_of(items@);
                assert(after =~= before.insert(found.1 as int, key));
                assert forall|i: int, j: int| 0 <= i < j < after.len() implies text_less(
                    after[i],
                    after[j],
                ) by {
                    let p = found.1 as int;
                    if i < p && j < p {
                        assert(text_less(before[i], before[j]));
                    } else if i < p && j == p {
                        assert(text_less(before[i], key));
                    } else if i < p && j > p {
                        assert(text_less(before[i], before[j - 1]));
                    } else if i == p {
                        assert(text_less(key, before[j - 1]));
                    } else {
                        assert(text_less(before[i - 1], before[j - 1]));
                    }
                }
                assert forall|x: Seq<char>| after.to_set().contains(x) <==> before.to_set().insert(
                    key,
                ).contains(x) by {
                    let p = found.1 as int;
                    if after.contains(x) {
                        let k = choose|k: int| 0 <= k < after.len() && after[k] == x;
                        if k < p {
                            assert(before[k] == x);
                        } else if k > p {
                            assert(before[k - 1] == x);
                        }
                    }
                    if before.contains(x) {
                        let k = choose|k: int| 0 <= k < before.len() && before[k] == x;
                        if k < p {
                            assert(after[k] == x);
                        } else {
                            assert(after[k + 1] == x);
                        }
                    }
                    if x == key {
                        assert(after[p] == x);
                    }
                }
                assert(after.to_set() =~= before.to_set().insert(key));
            }
            self.items = items;
            true
        }
    }

    /// Takes `text` out of the set; says whether it was there.
    pub fn remove(&mut self, text: &str) -> (r: bool)
        ensures
            final(self)@ == old(self)@.remove(text@),
            r == old(self)@.contains(text@),
    {
        proof {
            use_type_invariant(&*self);
            assert(names_of(self.items@) =~= texts_of(self.items@));
        }
        let ghost before = texts_of(self.items@);
        let found = search(&self.items, text);
        if found.0 {
            let mut items: Vec<String> = Vec::new();
            core::mem::swap(&mut items, &mut self.items);
            let _ = items.remove(found.1);
            proof {
                let p = found.1 as int;
                let after = texts_of(items@);
                assert(before[p] == text@);
                assert(after =~= before.remove(p));
                assert forall|i: int, j: int| 0 <= i < j < after.len() implies text_less(
                    after[i],
                    after[j],
                ) by {
                    let a = if i < p { i } else { i + 1 };
                    let b = if j < p { j } else { j + 1 };
                    assert(text_less(before[a], before[b]));
                }
                assert forall|x: Seq<char>| after.to_set().contains(x) <==> before.to_set().remove(
                    text@,
                ).contains(x) by {
                    if after.contains(x) {
                        let k = choose|k: int| 0 <= k < after.len() && after[k] == x;
                        let a = if k < p { k } else { k + 1 };
                        assert(before[a] == x);
                        if x == text@ {
                            lemma_ascending_unique(before, a, p);
                        }
                    }
                    if before.contains(x) && x != text@ {
                        let k = choose|k: int| 0 <= k < before.len() && before[k] == x;
                        if k < p {
                            assert(after[k] == x);
                        } else {
                            assert(after[k - 1] == x);
                        }
                    }
                }
                assert(after.to_set() =~= before.to_set().remove(text@));
            }
            self.items = items;
            true
        } else {
            proof {
                assert(before.to_set().remove(text@) =~= before.to_set());
            }
            false
        }
    }

    /// Takes everything out of the set.
    pub fn clear(&mut self)
        ensures
            final(self)@ == Set::<Seq<char>>::empty(),
    {
        let items: Vec<String> = Vec::new();
        assert(texts_of(items@) =~= Seq::empty());
        assert(texts_of(items@).to_set() =~= Set::empty());
        self.items = items;
    }

    /// A copy of this set.
    pub fn copy(&self) -> (r: TextSet)
        ensures
            r@ == self@,
    {
        proof {
            use_type_invariant(self);
        }
        let mut items: Vec<String> = Vec::new();
        let mut i: usize = 0;
        while i < self.items.len()
            invariant
                i <= self.items.len(),
                texts_of(items@) == texts_of(self.items@).take(i as int),
            decreases self.items.len() - i,
        {
            let ghost before = items@;
            items.push(self.items[i].clone());
            assert(texts_of(items@) =~= texts_of(before).push(self.items@[i as int]@));
            assert(texts_of(self.items@).take(i + 1) =~= texts_of(self.items@).take(
                i as int,
            ).push(self.items@[i as int]@));
            i += 1;
        }
        assert(texts_of(self.items@).take(i as int) =~= texts_of(self.items@));
        TextSet { items }
    }
}

impl Clone for TextSet {
    fn clone(&self) -> (r: Self)
        ensures
            r@ == self@,
    {
        self.copy()
    }
}

impl Default for TextSet {
    fn default() -> (r: Self)
        ensures
            r@ == Set::<Seq<char>>::empty(),
    {
        TextSet::new()
    }
}

/// A name with the value kept under it.
#[derive(Debug, PartialEq, Eq)]
pub struct TextEntry<V> {
    pub name: String,
    pub value: V,
}

impl<V> Named for TextEntry<V> {
    open spec fn name_of(&self) -> Seq<char> {
        self.name@
    }

    fn name(&self) -> (r: &str) {
        self.name.as_str()
    }
}

/// The place of `k` among `names`.
pub open spec fn place(names: Seq<Seq<char>>, k: Seq<char>) -> int {
    choose|i: int| 0 <= i < names.len() && names[i] == k
}

/// The values of the entries by name.
pub open spec fn mapped<V: View>(entries: Seq<TextEntry<V>>) -> Map<Seq<char>, V::V> {
    Map::new(
        |k: Seq<char>| names_of(entries).contains(k),
        |k: Seq<char>| entries[place(names_of(entries), k)].value@,
    )
}

/// Values by name.
#[derive(Debug, PartialEq, Eq)]
pub struct TextMap<V> {
    entries: Vec<TextEntry<V>>,
}

impl<V: View> View for TextMap<V> {
    type V = Map<Seq<char>, V::V>;

    closed spec fn view(&self) -> Map<Seq<char>, V::V> {
        mapped(self.entries@)
    }
}

/// In an ascending list of entries, what stands at `i` is the value of
/// its name.
proof fn lemma_mapped_at<V: View>(entries: Seq<TextEntry<V>>, i: int)
    requires
        ascending(names_of(entries)),
        0 <= i < entries.len(),
    ensures
        mapped(entries).contains_key(entries[i].name@),
        mapped(entries)[entries[i].name@] == entries[i].value@,
{
    let names = names_of(entries);
    assert(names[i] == entries[i].name@);
    let p = place(names, entries[i].name@);
    lemma_ascending_unique(names, i, p);
}

impl<V> TextMap<V> {
    #[verifier::type_invariant]
    spec fn ordered(self) -> bool {
        ascending(names_of(self.entries@))
    }
}

impl<V: View> TextMap<V> {
    /// No values.
    pub fn new() -> (r: TextMap<V>)
        ensures
            r@ == Map::<Seq<char>, V::V>::empty(),
    {
        let entries: Vec<TextEntry<V>> = Vec::new();
        assert(mapped(entries@) =~= Map::empty());
        TextMap { entries }
    }

    /// How many names have a value.
    pub fn len(&self) -> (r: usize)
        ensures
            r == self@.dom().len(),
            self@.dom().finite(),
    {
        proof {
            use_type_invariant(self);
            lemma_mapped_len(self.entries@);
        }
        self.entries.len()
    }

    /// Whether no name has a value.
    pub fn is_empty(&self) -> (r: bool)
        ensures
            r == (self@ == Map::<Seq<char>, V::V>::empty()),
    {
        let r = self.entries.len() == 0;
        proof {
            use_type_invariant(self);
            if r {
                assert(mapped(self.entries@) =~= Map::empty());
            } else {
                lemma_mapped_at(self.entries@, 0);
            }
        }
        r
    }

    /// The value kept under `name`.
    pub fn get(&self, name: &str) -> (r: Option<&V>)
        ensures
            match r {
                Some(v) => self@.contains_key(name@) && v@ == self@[name@],
                None => !self@.contains_key(name@),
            },
    {
        proof {
            use_type_invariant(self);
        }
        let found = search(&self.entries, name);
        if found.0 {
            proof {
                lemma_mapped_at(self.entries@, found.1 as int);
            }
            Some(&self.entries[found.1].value)
        } else {
            None
        }
    }

    /// The names with their values, in the order of the names.
    pub fn entries(&self) -> (r: &Vec<TextEntry<V>>)
        ensures
            ascending(names_of(r@)),
            mapped(r@) == self@,
    {
        proof {
            use_type_invariant(self);
        }
        &self.entries
    }

    /// Whether a value is kept under `name`.
    pub fn contains_key(&self, name: &str) -> (r: bool)
        ensures
            r == self@.contains_key(name@),
    {
        self.get(name).is_some()
    }

    /// Keeps `value` under `name`, in place of what was kept there.
    pub fn insert(&mut self, name: String, value: V)
        ensures
            final(self)@ == old(self)@.insert(name@, value@),
    {
        proof {
            use_type_invariant(&*self);
        }
        let ghost before = self.entries@;
        let ghost key = name@;
        let ghost val = value@;
        let found = search(&self.entries, name.as_str());
        let p = found.1;
        let mut entries: Vec<TextEntry<V>> = Vec::new();
        core::mem::swap(&mut entries, &mut self.entries);
        if found.0 {
            entries.set(p, TextEntry { name, value });
            proof {
                let after = entries@;
                assert(names_of(after) =~= names_of(before));
                assert forall|k: Seq<char>| #[trigger]
                    mapped(after).contains_key(k) implies mapped(after)[k] == mapped(
                    before,
                ).insert(key, val)[k] by {
                    let i = place(names_of(after), k);
                    assert(names_of(after)[i] == k);
                    lemma_mapped_at(after, i);
                    lemma_mapped_at(before, i);
                    if i != p as int && k == key {
                        lemma_ascending_unique(names_of(before), i, p as int);
                    }
                }
                lemma_mapped_at(before, p as int);
                assert(mapped(after) =~= mapped(before).insert(key, val));
            }
        } else {
            entries.insert(p, TextEntry { name, value });
            proof {
                let after = entries@;
                let old_names = names_of(before);
                let names = names_of(after);
                assert(names =~= old_names.insert(p as int, key));
                assert forall|i: int, j: int| 0 <= i < j < names.len() implies text_less(
                    names[i],
                    names[j],
                ) by {
                    let q = p as int;
                    if i < q && j < q {
                        assert(text_less(old_names[i], old_names[j]));
                    } else if i < q && j == q {
                        assert(text_less(old_names[i], key));
                    } else if i < q && j > q {
                        assert(text_less(old_names[i], old_names[j - 1]));
                    } else if i == q {
                        assert(text_less(key, old_names[j - 1]));
                    } else {
                        assert(text_less(old_names[i - 1], old_names[j - 1]));
                    }
                }
                assert forall|k: Seq<char>|
                    mapped(after).contains_key(k) <==> mapped(before).insert(
                        key,
                        val,
                    ).contains_key(k) by {
                    let q = p as int;
                    if names.contains(k) {
                        let i = choose|i: int| 0 <= i < names.len() && names[i] == k;
                        if i < q {
                            assert(old_names[i] == k);
                        } else if i > q {
                            assert(old_names[i - 1] == k);
                        }
                    }
                    if old_names.contains(k) {
                        let i = choose|i: int| 0 <= i < old_names.len() && old_names[i] == k;
                        if i < q {
                            assert(names[i] == k);
                        } else {
                            assert(names[i + 1] == k);
                        }
                    }
                    if k == key {
                        assert(names[q] == k);
                    }
                }
                assert forall|k: Seq<char>| #[trigger]
                    mapped(after).contains_key(k) implies mapped(after)[k] == mapped(
                    before,
                ).insert(key, val)[k] by {
                    let q = p as int;
                    let i = place(names, k);
                    assert(names[i] == k);
                    lemma_mapped_at(after, i);
                    if i < q {
                        lemma_mapped_at(before, i);
                    } else if i > q {
                        lemma_mapped_at(before, i - 1);
                    }
                }
                assert(mapped(after) =~= mapped(before).insert(key, val));
            }
        }
        self.entries = entries;
    }
}

/// An ascending list of entries holds as many names as it has entries.
proof fn lemma_mapped_len<V: View>(entries: Seq<TextEntry<V>>)
    requires
        ascending(names_of(entries)),
    ensures
        mapped(entries).dom().finite(),
        mapped(entries).dom().len() == entries.len(),
{
    let names = names_of(entries);
    assert forall|i: int, j: int|
        0 <= i < names.len() && 0 <= j < names.len() && i != j implies names[i] != names[j] by {
        if names[i] == names[j] {
            lemma_ascending_unique(names, i, j);
        }
    }
    names.unique_seq_to_set();
    assert(mapped(entries).dom() =~= names.to_set());
}

impl TextMap<String> {
    /// A copy of these values.
    pub fn copy(&self) -> (r: TextMap<String>)
        ensures
            r@ == self@,
    {
        proof {
            use_type_invariant(self);
        }
        let mut entries: Vec<TextEntry<String>> = Vec::new();
        let mut i: usize = 0;
        while i < self.entries.len()
            invariant
                i <= self.entries.len(),
                entries@.len() == i,
                forall|j: int|
                    0 <= j < i ==> (#[trigger] entries@[j]).name@ == self.entries@[j].name@
                        && entries@[j].value@ == self.entries@[j].value@,
            decreases self.entries.len() - i,
        {
            let e = &self.entries[i];
            entries.push(TextEntry { name: e.name.clone(), value: e.value.clone() });
            i += 1;
        }
        proof {
            assert(names_of(entries@) =~= names_of(self.entries@));
            assert forall|k: Seq<char>| #[trigger]
                mapped(entries@).contains_key(k) implies mapped(entries@)[k] == mapped(
                self.entries@,
            )[k] by {
                let p = place(names_of(entries@), k);
                assert(names_of(entries@)[p] == k);
                lemma_mapped_at(entries@, p);
                lemma_mapped_at(self.entries@, p);
            }
            assert(mapped(entries@) =~= mapped(self.entries@));
        }
        TextMap { entries }
    }
}

impl<V: View + Clone> Clone for TextMap<V> {
    /// A map with the same names; of the values only what `V` says of its
    /// copies is known.
    fn clone(&self) -> (r: Self)
        ensures
            r@.dom() == self@.dom(),
    {
        proof {
            use_type_invariant(self);
        }
        let mut entries: Vec<TextEntry<V>> = Vec::new();
        let mut i: usize = 0;
        while i < self.entries.len()
            invariant
                i <= self.entries.len(),
                entries@.len() == i,
                forall|j: int|
                    0 <= j < i ==> (#[trigger] entries@[j]).name@ == self.entries@[j].name@,
            decreases self.entries.len() - i,
        {
            let e = &self.entries[i];
            entries.push(TextEntry { name: e.name.clone(), value: e.value.clone() });
            i += 1;
        }
        proof {
            assert(names_of(entries@) =~= names_of(self.entries@));
            assert(mapped(entries@).dom() =~= mapped(self.entries@).dom());
        }
        TextMap { entries }
    }
}

impl<V: View> Default for TextMap<V> {
    fn default() -> (r: Self)
        ensures
            r@ == Map::<Seq<char>, V::V>::empty(),
    {
        TextMap::new()
    }
}

} // verus!
