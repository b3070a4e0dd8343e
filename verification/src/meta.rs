//! Business metadata: a key, a version and a type, and optionally the
//! states that its instances may carry.

use vstd::prelude::*;
use vstd::string::*;
use vstd::hash_set::StringHashSet;
use crate::check_list::{
    find_repeat, first_repeat, fits_from, ids_fit, index_of, index_states, indexed_from, labels_of,
    lemma_repeat_means_duplicate, verdict_of, CheckList, PathView, StatePath, Verdict,
};
use crate::check_proofs::{acceptable, lemma_accepted_by_set};
use crate::text_map::{in_ascending_order, TextMap, TextSet};
use crate::error::{quoted, quoted_text, ErrorText, NatureError};
use crate::meta_setting::{MetaSetting, MetaSettingView};
use crate::meta_state::{clone_states, trees_of, StateTree, States};
use crate::meta_string::{tuple_of, MetaString};
use crate::meta_type::{prefix_of, type_named, unknown_prefix_message, MetaType};
use crate::text::{decimal_of, from_chars, push_i32, same_text, texts_of, to_chars};

verus! {

/// The character that separates the parts of a `Meta`'s key.
pub const PATH_SEPARATOR: char = '/';

/// The character between a `Meta`'s full key and its version.
pub const META_AND_VERSION_SEPARATOR: char = ':';

/// Business metadata.
#[derive(Debug, Clone, PartialEq)]
pub struct Meta {
    /// The name of the metadata, a path that begins with `/`.
    key: String,
    /// The key with the letter of the type in front, as in `/B/shop/order`.
    full_key: String,
    /// A `Meta` can change over time; each change gets a new version.
    pub version: i32,
    meta_type: MetaType,
    state: Option<States>,
    is_state: bool,
    setting: Option<MetaSetting>,
    check_list: CheckList,
}

/// A [`Meta`] as plain values.
pub struct MetaView {
    pub key: Seq<char>,
    pub full_key: Seq<char>,
    pub version: i32,
    pub meta_type: MetaType,
    /// The declared states.
    pub state: Option<Seq<StateTree>>,
    pub is_state: bool,
    pub setting: Option<MetaSettingView>,
    /// The chain of every label that the states declare.
    pub check_list: Map<Seq<char>, PathView>,
}

impl View for Meta {
    type V = MetaView;

    closed spec fn view(&self) -> MetaView {
        MetaView {
            key: self.key@,
            full_key: self.full_key@,
            version: self.version,
            meta_type: self.meta_type,
            state: match self.state {
                Some(ss) => Some(trees_of(ss@)),
                None => None,
            },
            is_state: self.is_state,
            setting: match self.setting {
                Some(s) => Some(s@),
                None => None,
            },
            check_list: self.check_list@,
        }
    }
}

/// The key in its standard form: one `/` at the end is dropped, and a `/`
/// is put in front unless there is one. `None` if nothing is left.
pub open spec fn standard_key(k: Seq<char>) -> Option<Seq<char>> {
    let t = if k.len() > 0 && k.last() == PATH_SEPARATOR {
        k.drop_last()
    } else {
        k
    };
    if t.len() == 0 {
        None
    } else if t[0] == PATH_SEPARATOR {
        Some(t)
    } else {
        Some(seq![PATH_SEPARATOR] + t)
    }
}

/// The full key of a metadata of type `t` with the standard key `key`.
pub open spec fn full_key_of(t: MetaType, key: Seq<char>) -> Seq<char> {
    seq![PATH_SEPARATOR] + prefix_of(t) + key
}

/// The text of a metadata: its full key, `:` and its version.
pub open spec fn meta_text(full_key: Seq<char>, version: i32) -> Seq<char> {
    full_key + seq![META_AND_VERSION_SEPARATOR] + decimal_of(version as int)
}

/// A metadata without states and settings.
pub open spec fn fresh(key: Seq<char>, version: i32, t: MetaType) -> MetaView {
    MetaView {
        key,
        full_key: full_key_of(t, key),
        version,
        meta_type: t,
        state: None,
        is_state: false,
        setting: None,
        check_list: Map::empty(),
    }
}

/// The metadata that `new` makes: the key is brought to its standard form,
/// except for the type `Null`, which has no key.
pub open spec fn made(key: Seq<char>, version: i32, t: MetaType) -> Option<MetaView> {
    if t == MetaType::Null {
        Some(fresh(Seq::empty(), version, t))
    } else {
        match standard_key(key) {
            Some(k) => Some(fresh(k, version, t)),
            None => None,
        }
    }
}

/// Whether the parts of a metadata fit together: the full key is made of
/// the type and the key, and the chains are those of the declared states,
/// in which no label name occurs twice.
pub open spec fn well_formed(v: MetaView) -> bool {
    &&& v.full_key == full_key_of(v.meta_type, v.key)
    &&& match v.state {
        Some(ss) => v.is_state && labels_of(ss).no_duplicates() && fits_from(ss, 0, 0)
            && v.check_list == index_of(ss),
        None => v.check_list == Map::<Seq<char>, PathView>::empty(),
    }
}

/// The message for a key of which nothing is left.
pub open spec fn empty_key_message() -> Seq<char> {
    "key length can't be zero"@
}

/// The message for a full key that does not have the form `/X/...`.
pub open spec fn illegal_full_key_message(full_key: Seq<char>) -> Seq<char> {
    "illegal format for `full_key` : "@ + full_key
}

/// The metadata that the full key `fk` stands for, or the message that says
/// why it stands for none. `/N` alone is the metadata of type `Null` in
/// version 1; otherwise the third character is `/`, the first two are `/`
/// and the letter of a type, and the rest is the key.
pub open spec fn read_full_key(fk: Seq<char>, version: i32) -> Result<MetaView, Seq<char>> {
    if fk == seq!['/', 'N'] {
        Ok(fresh(Seq::empty(), 1, MetaType::Null))
    } else if fk.len() < 3 || fk[2] != PATH_SEPARATOR {
        Err(illegal_full_key_message(fk))
    } else if fk[0] != PATH_SEPARATOR || type_named(fk.subrange(1, 2)) is None {
        Err(unknown_prefix_message(fk.take(2)))
    } else {
        match made(fk.skip(3), version, type_named(fk.subrange(1, 2))->0) {
            Some(v) => Ok(v),
            None => Err(empty_key_message()),
        }
    }
}

/// The metadata that the text `s` stands for, or the message that says why
/// it stands for none.
pub open spec fn read_meta_text(s: Seq<char>) -> Result<MetaView, Seq<char>> {
    match tuple_of(s) {
        Some(t) => read_full_key(t.0, t.1),
        None => Err(crate::meta_string::illegal_meta_message(s)),
    }
}

/// What a function that makes a `Meta` returned, as plain values.
pub open spec fn outcome(r: Result<Meta, NatureError>) -> Result<MetaView, ErrorText> {
    match r {
        Ok(m) => Ok(m@),
        Err(e) => Err(e@),
    }
}

/// A result with its message as a `VerifyError`.
pub open spec fn as_verify_error(r: Result<MetaView, Seq<char>>) -> Result<MetaView, ErrorText> {
    match r {
        Ok(v) => Ok(v),
        Err(m) => Err(ErrorText::VerifyError(m)),
    }
}

/// The message for a label name that occurs twice in a declaration.
pub open spec fn repeated_name_message(name: Seq<char>, meta: Seq<char>) -> Seq<char> {
    "repeated state name: "@ + quoted_text(name) + ", for `Meta`: "@ + quoted_text(meta)
}

/// The message for a declaration with more nodes than can be numbered.
pub open spec fn too_many_states_message(meta: Seq<char>) -> Seq<char> {
    "too many states, for `Meta`: "@ + quoted_text(meta)
}

/// The message for a `Meta` that has no states.
pub open spec fn not_state_message(meta: Seq<char>) -> Seq<char> {
    "["@ + meta + "] is not a state meta"@
}

/// The message for a state that the `Meta` does not declare.
pub open spec fn undefined_state_message(name: Seq<char>, meta: Seq<char>) -> Seq<char> {
    "["@ + name + "] does not defined in meta: "@ + meta
}

/// The message for a state that excludes another one.
pub open spec fn conflict_message(name: Seq<char>, meta: Seq<char>) -> Seq<char> {
    "["@ + name + "] mutex conflict for meta: "@ + meta
}

/// Why the states `names` are refused by the metadata `v`, or `None` if
/// they are accepted: `v` must have states, every name must be a declared
/// label, and no two may exclude each other. Every name is looked up
/// before any chain is followed: the first name, in the order given, that
/// is not declared decides the message; where all are declared, the first
/// that excludes an earlier one does.
pub open spec fn refusal(v: MetaView, names: Seq<Seq<char>>) -> Option<Seq<char>> {
    let meta = meta_text(v.full_key, v.version);
    if !v.is_state {
        Some(not_state_message(meta))
    } else {
        match verdict_of(v.check_list, names) {
            Verdict::Accept => None,
            Verdict::Undefined(i) => Some(undefined_state_message(names[i as int], meta)),
            Verdict::Conflict(i) => Some(conflict_message(names[i as int], meta)),
        }
    }
}

/// What `set_states` does to the metadata `v`, or the message that says
/// why it refuses. Without states the declaration and its chains are
/// removed. With states, no label name may occur twice and the nodes must
/// be few enough to be numbered; then the declaration and its chains take
/// the place of the old ones.
pub open spec fn with_states(v: MetaView, states: Option<Seq<StateTree>>) -> Result<
    MetaView,
    Seq<char>,
> {
    let meta = meta_text(v.full_key, v.version);
    match states {
        None => Ok(MetaView { state: None, check_list: Map::empty(), ..v }),
        Some(ss) => match first_repeat(labels_of(ss), Set::empty()) {
            Some(n) => Err(repeated_name_message(n, meta)),
            None => if !fits_from(ss, 0, 0) {
                Err(too_many_states_message(meta))
            } else {
                Ok(MetaView { state: Some(ss), is_state: true, check_list: index_of(ss), ..v })
            },
        },
    }
}

impl Default for Meta {
    fn default() -> (r: Self)
        ensures
            r@ == fresh(Seq::empty(), 1, MetaType::Business),
            well_formed(r@),
    {
        let key = String::new();
        let full_key = Meta::make_full_key(MetaType::Business, &key);
        Meta {
            key,
            full_key,
            version: 1,
            meta_type: MetaType::Business,
            state: None,
            is_state: false,
            setting: None,
            check_list: TextMap::new(),
        }
    }
}

impl Meta {
    /// The full key of a metadata of the given type and key.
    fn make_full_key(meta_type: MetaType, key: &String) -> (r: String)
        ensures
            r@ == full_key_of(meta_type, key@),
    {
        let mut r = String::new();
        r.push(PATH_SEPARATOR);
        r.append(meta_type.get_prefix().as_str());
        r.append(key.as_str());
        assert(r@ =~= full_key_of(meta_type, key@));
        r
    }

    /// Brings a key to its standard form: it begins with `/` and does not
    /// end with one.
    pub fn key_standardize(biz: &str) -> (r: Result<String, NatureError>)
        ensures
            match r {
                Ok(k) => standard_key(biz@) == Some(k@),
                Err(e) => standard_key(biz@) is None && e@ == ErrorText::VerifyError(
                    empty_key_message(),
                ),
            },
    {
        let chars = to_chars(biz);
        let n = chars.len();
        let end = if n > 0 && chars[n - 1] == PATH_SEPARATOR {
            n - 1
        } else {
            n
        };
        assert(chars@.subrange(0, end as int) =~= if n > 0 && chars@.last() == PATH_SEPARATOR {
            chars@.drop_last()
        } else {
            chars@
        });
        if end == 0 {
            return Err(NatureError::VerifyError("key length can't be zero".to_owned()));
        }
        let body = from_chars(&chars, 0, end);
        if chars[0] == PATH_SEPARATOR {
            Ok(body)
        } else {
            let mut r = String::new();
            r.push(PATH_SEPARATOR);
            r.append(body.as_str());
            assert(r@ =~= seq![PATH_SEPARATOR] + body@);
            Ok(r)
        }
    }

    /// A metadata without states. The key is brought to its standard form;
    /// a metadata of type `Null` has no key, whatever is given.
    pub fn new(key: &str, version: i32, meta_type: MetaType) -> (r: Result<Meta, NatureError>)
        ensures
            match r {
                Ok(m) => made(key@, version, meta_type) == Some(m@) && well_formed(m@),
                Err(e) => made(key@, version, meta_type) is None && e@ == ErrorText::VerifyError(
                    empty_key_message(),
                ),
            },
    {
        let key = if meta_type == MetaType::Null {
            String::new()
        } else {
            match Self::key_standardize(key) {
                Ok(k) => k,
                Err(e) => {
                    return Err(e);
                },
            }
        };
        let full_key = Self::make_full_key(meta_type, &key);
        Ok(
            Meta {
                key,
                full_key,
                version,
                meta_type,
                state: None,
                is_state: false,
                setting: None,
                check_list: TextMap::new(),
            },
        )
    }

    /// The key in its standard form.
    pub fn get_key(&self) -> (r: String)
        ensures
            r@ == self@.key,
    {
        self.key.clone()
    }

    /// The key with the letter of the type in front.
    pub fn get_full_key(&self) -> (r: String)
        ensures
            r@ == self@.full_key,
    {
        self.full_key.clone()
    }

    /// The version.
    pub fn get_version(&self) -> (r: i32)
        ensures
            r == self@.version,
    {
        self.version
    }

    /// The chains of the labels that the states declare.
    pub fn get_check_list(&self) -> (r: &CheckList)
        ensures
            r@ == self@.check_list,
    {
        &self.check_list
    }

    /// The type.
    pub fn get_meta_type(&self) -> (r: MetaType)
        ensures
            r == self@.meta_type,
    {
        self.meta_type
    }

    /// Changes the type; the full key follows.
    pub fn set_meta_type(&mut self, meta_type: MetaType)
        ensures
            final(self)@ == (MetaView {
                meta_type,
                full_key: full_key_of(meta_type, old(self)@.key),
                ..old(self)@
            }),
            well_formed(old(self)@) ==> well_formed(final(self)@),
    {
        self.meta_type = meta_type;
        self.full_key = Self::make_full_key(meta_type, &self.key);
    }

    /// The text of this metadata: the full key, `:` and the version.
    pub fn get_string(&self) -> (r: String)
        ensures
            r@ == meta_text(self@.full_key, self@.version),
    {
        let mut r = self.full_key.clone();
        r.push(META_AND_VERSION_SEPARATOR);
        push_i32(self.version, &mut r);
        assert(r@ =~= meta_text(self@.full_key, self@.version));
        r
    }

    /// The metadata that a full key of the form `/X/key` stands for.
    pub fn from_full_key(full_key: &str, version: i32) -> (r: Result<Meta, NatureError>)
        ensures
            outcome(r) == as_verify_error(read_full_key(full_key@, version)),
            r matches Ok(m) ==> well_formed(m@),
    {
        proof {
            reveal_strlit("/N");
            assert("/N"@ =~= seq!['/', 'N']);
        }
        if same_text(full_key, "/N") {
            return Meta::new(full_key, 1, MetaType::Null);
        }
        let chars = to_chars(full_key);
        let n = chars.len();
        if n < 3 || chars[2] != PATH_SEPARATOR {
            let mut msg = "illegal format for `full_key` : ".to_owned();
            msg.append(full_key);
            return Err(NatureError::VerifyError(msg));
        }
        let head = from_chars(&chars, 0, 2);
        let letter = from_chars(&chars, 1, 2);
        assert(letter@ =~= full_key@.subrange(1, 2));
        assert(head@ =~= full_key@.take(2));
        let found = if chars[0] == PATH_SEPARATOR {
            match MetaType::from_prefix(letter.as_str()) {
                Ok(t) => Some(t),
                Err(_) => None,
            }
        } else {
            None
        };
        match found {
            None => {
                let mut msg = "unknow prefix : [".to_owned();
                msg.append(head.as_str());
                msg.append("]");
                Err(NatureError::VerifyError(msg))
            },
            Some(meta_type) => {
                let rest = from_chars(&chars, 3, n);
                assert(rest@ =~= full_key@.skip(3));
                Meta::new(rest.as_str(), version, meta_type)
            },
        }
    }

    /// The metadata that a text of the form `/X/key:version` stands for.
    pub fn from_string(meta_str: &str) -> (r: Result<Meta, NatureError>)
        ensures
            outcome(r) == as_verify_error(read_meta_text(meta_str@)),
            r matches Ok(m) ==> well_formed(m@),
    {
        match MetaString::make_tuple_from_str(meta_str) {
            Ok(t) => Self::from_full_key(t.0.as_str(), t.1),
            Err(e) => Err(e),
        }
    }

    /// Asks `meta_cache_getter` for the metadata with the text `meta_str`
    /// and hands on what it answers.
    pub fn get<T, W, G, F>(meta_str: &str, meta_cache_getter: F, meta_getter: G) -> (r: Result<
        W,
        NatureError,
    >) where G: Fn(&str) -> Result<T, NatureError>, F: Fn(&str, G) -> Result<W, NatureError>
        requires
            call_requires(meta_cache_getter, (meta_str, meta_getter)),
        ensures
            call_ensures(meta_cache_getter, (meta_str, meta_getter), r),
    {
        meta_cache_getter(meta_str, meta_getter)
    }

    /// Whether the declared states have a label with this name.
    pub fn has_state_name(&self, name: &str) -> (r: bool)
        ensures
            r == self@.check_list.contains_key(name@),
    {
        self.check_list.get(name).is_some()
    }

    /// The text of this metadata: the full key, `:` and the version.
    pub fn meta_string(&self) -> (r: String)
        ensures
            r@ == meta_text(self@.full_key, self@.version),
    {
        self.get_string()
    }

    /// Declares the states of this metadata, or removes them. The
    /// declaration and the chains of its labels are replaced together;
    /// where the declaration is refused, nothing changes.
    pub fn set_states(&mut self, states: Option<States>) -> (r: Result<(), NatureError>)
        ensures
            match r {
                Ok(_) => with_states(
                    old(self)@,
                    match states {
                        Some(ss) => Some(trees_of(ss@)),
                        None => None,
                    },
                ) == Ok::<MetaView, Seq<char>>(final(self)@),
                Err(e) => final(self)@ == old(self)@ && with_states(
                    old(self)@,
                    match states {
                        Some(ss) => Some(trees_of(ss@)),
                        None => None,
                    },
                ) == Err::<MetaView, Seq<char>>(e@->VerifyError_0) && e@ is VerifyError,
            },
            well_formed(old(self)@) ==> well_formed(final(self)@),
    {
        match states {
            Some(ss) => {
                let text = self.get_string();
                match Self::avoid_same_name(&ss, text.as_str()) {
                    Err(e) => {
                        return Err(e);
                    },
                    Ok(_) => {},
                }
                if !ids_fit(&ss, 0) {
                    let mut msg = "too many states, for `Meta`: ".to_owned();
                    msg.append(quoted(text.as_str()).as_str());
                    return Err(NatureError::VerifyError(msg));
                }
                self.check_list = TextMap::new();
                self.init_check_list(&ss, 0, &mut StatePath::default());
                self.state = Some(ss);
                self.is_state = true;
            },
            None => {
                self.state = None;
                self.check_list = TextMap::new();
            },
        }
        Ok(())
    }

    /// Adds the chains of the labels of `ss` to the chains of this
    /// metadata. The first node of `ss` gets the number `id + 1`, and
    /// every chain ends with `path`.
    fn init_check_list(&mut self, ss: &States, id: u16, path: &mut StatePath)
        requires
            fits_from(trees_of(ss@), 0, id as int),
        ensures
            *final(path) == *old(path),
            final(self)@ == (MetaView {
                check_list: indexed_from(
                    trees_of(ss@),
                    0,
                    id as int,
                    old(path)@,
                    old(self)@.check_list,
                ),
                ..old(self)@
            }),
    {
        index_states(&mut self.check_list, ss, id, path);
    }

    /// Checks a set of active states against the declared states. The set
    /// is accepted where this metadata has states, every state of the set
    /// is a declared label, and no two of them exclude each other. Every
    /// state is looked up before any chain is followed: a set with a state
    /// that is not declared is refused with the first such state, in the
    /// order of the texts, in the message; otherwise the first state that
    /// excludes an earlier one is named.
    pub fn verify_state(&self, input: &TextSet) -> (r: Result<(), NatureError>)
        ensures
            r is Ok <==> self@.is_state && acceptable(self@.check_list, input@),
            match r {
                Ok(_) => refusal(self@, in_ascending_order(input@)) is None,
                Err(e) => refusal(self@, in_ascending_order(input@)) == Some(e@->VerifyError_0)
                    && e@ is VerifyError,
            },
    {
        let text = self.get_string();
        if !self.is_state {
            let mut msg = "[".to_owned();
            msg.append(text.as_str());
            msg.append("] is not a state meta");
            return Err(NatureError::VerifyError(msg));
        }
        let names = input.as_vec();
        proof {
            lemma_accepted_by_set(self@.check_list, texts_of(names@));
        }
        match self.check_list.judge(names) {
            Verdict::Accept => Ok(()),
            Verdict::Undefined(i) => {
                assert(texts_of(names@)[i as int] == names@[i as int]@);
                let mut msg = "[".to_owned();
                msg.append(names[i].as_str());
                msg.append("] does not defined in meta: ");
                msg.append(text.as_str());
                Err(NatureError::VerifyError(msg))
            },
            Verdict::Conflict(i) => {
                assert(texts_of(names@)[i as int] == names@[i as int]@);
                let mut msg = "[".to_owned();
                msg.append(names[i].as_str());
                msg.append("] mutex conflict for meta: ");
                msg.append(text.as_str());
                Err(NatureError::VerifyError(msg))
            },
        }
    }

    /// A copy of the declared states.
    pub fn get_states(&self) -> (r: Option<States>)
        ensures
            match r {
                Some(ss) => self@.state == Some(trees_of(ss@)),
                None => self@.state is None,
            },
    {
        match &self.state {
            Some(ss) => Some(clone_states(ss)),
            None => None,
        }
    }

    /// Whether instances of this metadata carry states.
    pub fn is_state(&self) -> (r: bool)
        ensures
            r == self@.is_state,
    {
        self.is_state
    }

    /// Checks that no two labels of the declaration `s` have the same
    /// name, wherever in the declaration they stand. `string_meta` names
    /// the metadata in the message.
    pub fn avoid_same_name(s: &States, string_meta: &str) -> (r: Result<(), NatureError>)
        ensures
            r is Ok <==> labels_of(trees_of(s@)).no_duplicates(),
            match r {
                Ok(_) => first_repeat(labels_of(trees_of(s@)), Set::empty()) is None,
                Err(e) => first_repeat(labels_of(trees_of(s@)), Set::empty()) is Some && e@
                    == ErrorText::VerifyError(
                    repeated_name_message(
                        first_repeat(labels_of(trees_of(s@)), Set::empty())->0,
                        string_meta@,
                    ),
                ),
            },
    {
        proof {
            lemma_repeat_means_duplicate(labels_of(trees_of(s@)), Set::empty());
        }
        let mut seen = StringHashSet::new();
        match find_repeat(s, &mut seen) {
            Some(name) => {
                let mut msg = "repeated state name: ".to_owned();
                msg.append(quoted(name.as_str()).as_str());
                msg.append(", for `Meta`: ");
                msg.append(quoted(string_meta).as_str());
                Err(NatureError::VerifyError(msg))
            },
            None => Ok(()),
        }
    }

    /// Replaces the settings. Settings that say so make this a metadata
    /// with states.
    pub fn set_setting(&mut self, setting: Option<MetaSetting>)
        ensures
            final(self)@ == (MetaView {
                setting: match setting {
                    Some(s) => Some(s@),
                    None => None,
                },
                is_state: old(self)@.is_state || (setting matches Some(s) && s.is_state),
                ..old(self)@
            }),
            well_formed(old(self)@) ==> well_formed(final(self)@),
    {
        match setting {
            Some(s) => {
                if s.is_state {
                    self.is_state = true;
                }
                self.setting = Some(s);
            },
            None => {
                self.setting = None;
            },
        }
    }

    /// A copy of the settings.
    pub fn get_setting(&self) -> (r: Option<MetaSetting>)
        ensures
            match r {
                Some(s) => self@.setting == Some(s@),
                None => self@.setting is None,
            },
    {
        match &self.setting {
            Some(s) => Some(s.copy()),
            None => None,
        }
    }
}

} // verus!
