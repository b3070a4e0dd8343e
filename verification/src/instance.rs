//! Instances: the snapshots of a metadata that flow through the system,
//! with the states they carry.

use std::ops::{Deref, DerefMut};
use vstd::prelude::*;
use vstd::string::*;
use crate::converter::DynamicConverter;
use crate::error::{ErrorText, NatureError};
use crate::from_instance::{FromInstance, FromInstanceView};
use crate::id_tool::{generate_id, is_native_value, parse_u128, u128_parsed, uuid_v3_dns};
use crate::check_proofs::acceptable;
use crate::meta::{empty_key_message, refusal, standard_key, Meta};
use crate::meta_type::{prefix_of, MetaType, PART_SEPARATOR};
use crate::query::{condition_of, KeyCondition};
use crate::target_state::TargetState;
use crate::text::{
    decimal_digits, decimal_of, from_chars, push_decimal, push_i32, same_text, texts_of, to_chars,
};
use crate::text_map::{in_ascending_order, TextMap, TextSet};

verus! {

/// The name under which the id of the target instance stands in the system
/// context.
pub const CONTEXT_TARGET_INSTANCE_ID: &'static str = "target.id";

/// Values by name, as an instance carries them along.
pub type Context = TextMap<String>;

/// What an instance holds for its metadata.
#[derive(Debug, Clone, PartialEq, Eq)]
pub struct BizObject {
    /// The metadata that this is an instance of.
    pub meta: String,
    /// What the instance holds.
    pub content: String,
    /// Values that the next step may use.
    pub context: Context,
    /// Like `context`, with names that the system gives.
    pub sys_context: Context,
    /// The active states.
    pub states: TextSet,
    pub state_version: i32,
    pub from: Option<FromInstance>,
    pub para: String,
}

/// A [`BizObject`] as plain values.
pub struct BizObjectView {
    pub meta: Seq<char>,
    pub content: Seq<char>,
    pub context: Map<Seq<char>, Seq<char>>,
    pub sys_context: Map<Seq<char>, Seq<char>>,
    pub states: Set<Seq<char>>,
    pub state_version: i32,
    pub from: Option<FromInstanceView>,
    pub para: Seq<char>,
}

impl View for BizObject {
    type V = BizObjectView;

    open spec fn view(&self) -> BizObjectView {
        BizObjectView {
            meta: self.meta@,
            content: self.content@,
            context: self.context@,
            sys_context: self.sys_context@,
            states: self.states@,
            state_version: self.state_version,
            from: match self.from {
                Some(f) => Some(f@),
                None => None,
            },
            para: self.para@,
        }
    }
}

impl Default for BizObject {
    fn default() -> (r: Self)
        ensures
            r@ == (BizObjectView {
                meta: Seq::empty(),
                content: Seq::empty(),
                context: Map::empty(),
                sys_context: Map::empty(),
                states: Set::empty(),
                state_version: 0,
                from: None,
                para: Seq::empty(),
            }),
    {
        BizObject {
            meta: String::new(),
            content: String::new(),
            context: TextMap::new(),
            sys_context: TextMap::new(),
            states: TextSet::new(),
            state_version: 0,
            from: None,
            para: String::new(),
        }
    }
}

/// The set of the texts in `v`; the empty set where there is no list.
pub open spec fn texts_in(v: Option<Vec<String>>) -> Set<Seq<char>> {
    match v {
        Some(x) => texts_of(x@).to_set(),
        None => Set::empty(),
    }
}

/// The states that an instance with the states `states` is to have after
/// a change: first the states of `remove` leave, then those of `add`
/// come.
pub open spec fn candidate(
    states: Set<Seq<char>>,
    remove: Set<Seq<char>>,
    add: Set<Seq<char>>,
) -> Set<Seq<char>> {
    states.difference(remove).union(add)
}

fn without(states: &TextSet, remove: &Vec<String>) -> (r: TextSet)
    ensures
        r@ == states@.difference(texts_of(remove@).to_set()),
{
    let ghost names = texts_of(remove@);
    let mut r = states.copy();
    let mut i: usize = 0;
    assert(names.take(0).to_set() =~= Set::empty());
    assert(r@ =~= states@.difference(names.take(0).to_set()));
    while i < remove.len()
        invariant
            i <= remove.len(),
            names == texts_of(remove@),
            r@ == states@.difference(names.take(i as int).to_set()),
        decreases remove.len() - i,
    {
        let ghost before = names.take(i as int);
        let ghost one = remove@[i as int]@;
        let _ = r.remove(remove[i].as_str());
        proof {
            assert(names.take(i + 1) =~= before.push(one));
            lemma_to_set_push(before, one);
            assert(r@ =~= states@.difference(names.take(i + 1).to_set()));
        }
        i += 1;
    }
    assert(names.take(i as int) =~= names);
    r
}

fn with(base: TextSet, add: &Vec<String>) -> (r: TextSet)
    ensures
        r@ == base@.union(texts_of(add@).to_set()),
{
    let ghost names = texts_of(add@);
    let ghost first = base@;
    let mut r = base;
    let mut i: usize = 0;
    assert(names.take(0).to_set() =~= Set::empty());
    assert(r@ =~= first.union(names.take(0).to_set()));
    while i < add.len()
        invariant
            i <= add.len(),
            names == texts_of(add@),
            r@ == first.union(names.take(i as int).to_set()),
        decreases add.len() - i,
    {
        let ghost before = names.take(i as int);
        let ghost one = add@[i as int]@;
        let _ = r.insert(add[i].clone());
        proof {
            assert(names.take(i + 1) =~= before.push(one));
            lemma_to_set_push(before, one);
            assert(r@ =~= first.union(names.take(i + 1).to_set()));
        }
        i += 1;
    }
    assert(names.take(i as int) =~= names);
    r
}

/// The set of a list with one more element is the set of the list with
/// that element.
pub proof fn lemma_to_set_push<A>(s: Seq<A>, x: A)
    ensures
        s.push(x).to_set() == s.to_set().insert(x),
{
    let t = s.push(x);
    assert forall|y: A| t.to_set().contains(y) <==> s.to_set().insert(x).contains(y) by {
        if t.contains(y) {
            let k = choose|k: int| 0 <= k < t.len() && t[k] == y;
            if k < s.len() {
                assert(s[k] == y);
            }
        }
        if s.contains(y) {
            let k = choose|k: int| 0 <= k < s.len() && s[k] == y;
            assert(t[k] == y);
        }
        if y == x {
            assert(t[s.len() as int] == y);
        }
    }
    assert(t.to_set() =~= s.to_set().insert(x));
}

impl BizObject {
    /// Changes the active states: first the states to remove leave, then
    /// the states to add come. Where the metadata has states, the new set
    /// must pass its check; a set that does not is refused and the states
    /// stay as they are.
    pub fn modify_state(&mut self, add_and_delete: &TargetState, meta: &Meta) -> (r: Result<
        (),
        NatureError,
    >)
        ensures
            match r {
                Ok(_) => final(self)@ == (BizObjectView {
                    states: candidate(
                        old(self)@.states,
                        texts_in(add_and_delete.remove),
                        texts_in(add_and_delete.add),
                    ),
                    ..old(self)@
                }) && (meta@.is_state ==> acceptable(meta@.check_list, final(self)@.states)),
                Err(e) => final(self)@ == old(self)@ && meta@.is_state && !acceptable(
                    meta@.check_list,
                    candidate(
                        old(self)@.states,
                        texts_in(add_and_delete.remove),
                        texts_in(add_and_delete.add),
                    ),
                ) && e@ is VerifyError && refusal(
                    meta@,
                    in_ascending_order(
                        candidate(
                            old(self)@.states,
                            texts_in(add_and_delete.remove),
                            texts_in(add_and_delete.add),
                        ),
                    ),
                ) == Some(e@->VerifyError_0),
            },
    {
        let rest = match &add_and_delete.remove {
            Some(x) => without(&self.states, x),
            None => self.states.copy(),
        };
        let next = match &add_and_delete.add {
            Some(ss) => with(rest, ss),
            None => rest,
        };
        assert(next@ =~= candidate(
            self@.states,
            texts_in(add_and_delete.remove),
            texts_in(add_and_delete.add),
        ));
        if meta.is_state() {
            match meta.verify_state(&next) {
                Err(e) => {
                    return Err(e);
                },
                Ok(_) => {},
            }
        }
        self.states = next;
        Ok(())
    }

    /// A copy of this value.
    pub fn copy(&self) -> (r: BizObject)
        ensures
            r@ == self@,
    {
        BizObject {
            meta: self.meta.clone(),
            content: self.content.clone(),
            context: self.context.copy(),
            sys_context: self.sys_context.copy(),
            states: self.states.copy(),
            state_version: self.state_version,
            from: match &self.from {
                Some(f) => Some(f.copy()),
                None => None,
            },
            para: self.para.clone(),
        }
    }
}

/// A snapshot of a metadata.
#[derive(Debug, Clone, PartialEq, Eq)]
pub struct Instance {
    /// What tells this instance from the others of its metadata.
    pub id: u128,
    pub data: BizObject,
    /// When the instance is to flow on, in milliseconds.
    pub execute_time: i64,
    /// When the instance was stored, in milliseconds.
    pub create_time: i64,
}

/// An [`Instance`] as plain values.
pub struct InstanceView {
    pub id: u128,
    pub data: BizObjectView,
    pub execute_time: i64,
    pub create_time: i64,
}

impl View for Instance {
    type V = InstanceView;

    open spec fn view(&self) -> InstanceView {
        InstanceView {
            id: self.id,
            data: self.data@,
            execute_time: self.execute_time,
            create_time: self.create_time,
        }
    }
}

impl Default for Instance {
    fn default() -> (r: Self)
        ensures
            r.id == 0,
            r.execute_time == 0,
            r.create_time == 0,
            r.data@.meta.len() == 0,
            r.data@.states == Set::<Seq<char>>::empty(),
    {
        Instance { id: 0, data: BizObject::default(), execute_time: 0, create_time: 0 }
    }
}

/// The text of the business metadata with the key `key` in version 1, as
/// instances name it: the letter of the type, the key without the `/` in
/// front, and the version, with `:` between them.
pub open spec fn instance_meta_text(key: Seq<char>) -> Seq<char> {
    prefix_of(MetaType::Business) + seq![PART_SEPARATOR] + key.skip(1) + seq![PART_SEPARATOR, '1']
}

/// A new instance of the business metadata `key`.
pub open spec fn new_instance(key: Seq<char>) -> InstanceView {
    InstanceView {
        id: 0,
        data: BizObjectView {
            meta: instance_meta_text(key),
            content: Seq::empty(),
            context: Map::empty(),
            sys_context: Map::empty(),
            states: Set::empty(),
            state_version: 0,
            from: None,
            para: Seq::empty(),
        },
        execute_time: 0,
        create_time: 0,
    }
}

/// The message for an instance without a key.
pub open spec fn no_key_message() -> Seq<char> {
    "key can not be empty"@
}

/// The message for instances of more than one metadata.
pub open spec fn mixed_meta_message() -> Seq<char> {
    "instances's meta must be same!"@
}

/// The instance `v` brought in order at the time `now`: times that are not
/// set become `now`, and an instance without para and id gets the id
/// `id`.
pub open spec fn revised(v: InstanceView, now: i64, id: u128) -> InstanceView {
    InstanceView {
        create_time: if v.create_time == 0 {
            now
        } else {
            v.create_time
        },
        execute_time: if v.execute_time == 0 {
            now
        } else {
            v.execute_time
        },
        id: if v.data.para.len() == 0 && v.id == 0 {
            id
        } else {
            v.id
        },
        ..v
    }
}

/// The time now, in milliseconds since 1970
/// (`chrono::Local::now().timestamp_millis()`). Nothing is known of it.
#[verifier::external_body]
fn now_millis() -> i64 {
    chrono::Local::now().timestamp_millis()
}

impl Instance {
    /// A new instance of the business metadata `key` in version 1.
    pub fn new(key: &str) -> (r: Result<Instance, NatureError>)
        ensures
            match r {
                Ok(i) => standard_key(key@) matches Some(k) && i@ == new_instance(k),
                Err(e) => standard_key(key@) is None && e@ == ErrorText::VerifyError(
                    if key@.len() == 0 {
                        no_key_message()
                    } else {
                        empty_key_message()
                    },
                ),
            },
    {
        if key.is_empty() {
            return Err(NatureError::VerifyError("key can not be empty".to_owned()));
        }
        let key = match Meta::key_standardize(key) {
            Ok(k) => k,
            Err(e) => {
                return Err(e);
            },
        };
        let chars = to_chars(key.as_str());
        let bare = from_chars(&chars, 1, chars.len());
        let mut meta = MetaType::Business.get_prefix();
        meta.push(PART_SEPARATOR);
        meta.append(bare.as_str());
        meta.push(PART_SEPARATOR);
        meta.push('1');
        assert(meta@ =~= instance_meta_text(key@));
        let states = TextSet::new();
        Ok(
            Instance {
                id: 0,
                data: BizObject {
                    meta,
                    content: String::new(),
                    context: TextMap::new(),
                    sys_context: TextMap::new(),
                    states,
                    state_version: 0,
                    from: None,
                    para: String::new(),
                },
                execute_time: 0,
                create_time: 0,
            },
        )
    }

    /// Looks the metadata of this instance up and, where it is found,
    /// brings the instance in order as [`Instance::revise`] does.
    /// `data_bytes` is the serialized form of `data`.
    pub fn check_and_revise<T, W, G, F>(
        &mut self,
        meta_cache_getter: F,
        meta_getter: G,
        data_bytes: &Vec<u8>,
    ) -> (r: Result<(), NatureError>) where
        G: Fn(&str) -> Result<T, NatureError>,
        F: Fn(&str, G) -> Result<W, NatureError>,

        requires
            forall|m: &str|
                m@ == old(self).data.meta@ ==> call_requires(meta_cache_getter, (m, meta_getter)),
        ensures
            match r {
                Ok(_) => exists|now: i64, id: u128, m: &str, w: W|
                    m@ == old(self).data.meta@ && call_ensures(
                        meta_cache_getter,
                        (m, meta_getter),
                        Ok::<W, NatureError>(w),
                    ) && is_native_value(uuid_v3_dns(data_bytes@), id) && final(self)@ == revised(
                        old(self)@,
                        now,
                        id,
                    ),
                Err(e) => final(self)@ == old(self)@ && exists|m: &str|
                    m@ == old(self).data.meta@ && call_ensures(
                        meta_cache_getter,
                        (m, meta_getter),
                        Err::<W, NatureError>(e),
                    ),
            },
    {
        match Meta::get(self.data.meta.as_str(), meta_cache_getter, meta_getter) {
            Err(e) => Err(e),
            Ok(_) => {
                self.revise(data_bytes);
                Ok(())
            },
        }
    }

    /// Brings this instance in order at the time `now`: times that are
    /// not set become `now`, and an instance without para and id gets the
    /// id made from `data_bytes`, the serialized form of `data`.
    pub fn revise_at(&mut self, now: i64, data_bytes: &Vec<u8>)
        ensures
            exists|id: u128|
                is_native_value(uuid_v3_dns(data_bytes@), id) && final(self)@ == revised(
                    old(self)@,
                    now,
                    id,
                ),
    {
        if self.create_time == 0 {
            self.create_time = now;
        }
        if self.execute_time == 0 {
            self.execute_time = now;
        }
        let id = generate_id(data_bytes);
        if self.data.para.as_str().is_empty() && self.id == 0 {
            self.id = id;
        }
        assert(final(self)@ == revised(old(self)@, now, id));
    }

    /// Brings this instance in order at the present time, as
    /// [`Instance::revise_at`] does.
    pub fn revise(&mut self, data_bytes: &Vec<u8>)
        ensures
            exists|now: i64, id: u128|
                is_native_value(uuid_v3_dns(data_bytes@), id) && final(self)@ == revised(
                    old(self)@,
                    now,
                    id,
                ),
    {
        let now = now_millis();
        self.revise_at(now, data_bytes);
    }

    /// Checks that all instances are of one metadata.
    pub fn meta_must_same(is: &Vec<Self>) -> (r: Result<(), NatureError>)
        ensures
            match r {
                Ok(_) => forall|i: int| 0 <= i < is.len() ==> (#[trigger] is[i]).data.meta@
                    == is[0].data.meta@,
                Err(e) => (exists|i: int| 0 <= i < is.len() && (#[trigger] is[i]).data.meta@
                    != is[0].data.meta@) && e@ == ErrorText::VerifyError(mixed_meta_message()),
            },
    {
        if is.len() < 2 {
            return Ok(());
        }
        let mut i: usize = 1;
        while i < is.len()
            invariant
                1 <= i <= is.len(),
                forall|j: int| 0 <= j < i ==> (#[trigger] is[j]).data.meta@ == is[0].data.meta@,
            decreases is.len() - i,
        {
            if !same_text(is[i].data.meta.as_str(), is[0].data.meta.as_str()) {
                return Err(
                    NatureError::VerifyError("instances's meta must be same!".to_owned()),
                );
            }
            i += 1;
        }
        Ok(())
    }

    /// What is to be looked up to find the last instance of the target:
    /// `found` is what the system context holds under
    /// [`CONTEXT_TARGET_INSTANCE_ID`]. Nothing is to be looked up where
    /// nothing is found; what is found must be a number.
    pub fn last_target_query(found: Option<&String>, target_meta: &str) -> (r: Result<
        Option<KeyCondition>,
        NatureError,
    >)
        ensures
            match found {
                None => r matches Ok(None),
                Some(text) => match u128_parsed(text@) {
                    Ok(id) => r matches Ok(Some(q)) && q@ == condition_of(
                        id,
                        target_meta@,
                        Seq::empty(),
                        0,
                    ),
                    Err(m) => r matches Err(e) && e@ == ErrorText::VerifyError(m),
                },
            },
    {
        proof {
            reveal_strlit("");
            assert(""@ =~= Seq::empty());
        }
        match found {
            Some(state_id) => {
                match parse_u128(state_id.as_str()) {
                    Ok(id) => Ok(Some(KeyCondition::new(id, target_meta, "", 0))),
                    Err(m) => Err(NatureError::VerifyError(m)),
                }
            },
            None => Ok(None),
        }
    }

    /// The last instance of the target metadata, where the system context
    /// names one: `dao` looks it up.
    pub fn get_last_taget<DAO>(&self, target_meta: &str, dao: DAO) -> (r: Result<
        Option<Instance>,
        NatureError,
    >) where DAO: Fn(&KeyCondition) -> Result<Option<Instance>, NatureError>
        requires
            forall|q: KeyCondition| call_requires(dao, (&q,)),
        ensures
            match self.data.sys_context@.get(CONTEXT_TARGET_INSTANCE_ID@) {
                None => r matches Ok(None),
                Some(text) => match u128_parsed(text) {
                    Ok(id) => exists|q: KeyCondition|
                        q@ == condition_of(id, target_meta@, Seq::empty(), 0) && call_ensures(
                            dao,
                            (&q,),
                            r,
                        ),
                    Err(m) => r matches Err(e) && e@ == ErrorText::VerifyError(m),
                },
            },
    {
        let found = self.data.sys_context.get(CONTEXT_TARGET_INSTANCE_ID);
        match Self::last_target_query(found, target_meta) {
            Err(e) => Err(e),
            Ok(None) => Ok(None),
            Ok(Some(q)) => dao(&q),
        }
    }

    /// The master instance of this one, where the settings of its metadata
    /// name a master: `dao` looks it up.
    pub fn get_master<ID>(&self, self_meta: &Meta, dao: ID) -> (r: Result<
        Option<Instance>,
        NatureError,
    >) where ID: Fn(&KeyCondition) -> Result<Option<Instance>, NatureError>
        requires
            forall|q: KeyCondition| call_requires(dao, (&q,)),
        ensures
            match self_meta@.setting {
                Some(s) => match s.master {
                    Some(master) => exists|q: KeyCondition|
                        q@ == condition_of(self.id, master, self.data.para@, 0) && call_ensures(
                            dao,
                            (&q,),
                            r,
                        ),
                    None => r matches Ok(None),
                },
                None => r matches Ok(None),
            },
    {
        match self_meta.get_setting() {
            None => Ok(None),
            Some(setting) => match setting.master {
                None => Ok(None),
                Some(master) => {
                    let q = KeyCondition::new(self.id, master.as_str(), self.data.para.as_str(), 0);
                    dao(&q)
                },
            },
        }
    }

    /// The metadata, the id and the para, one behind the other.
    pub fn get_unique(&self) -> (r: String)
        ensures
            r@ == self.data.meta@ + decimal_digits(self.id as nat) + self.data.para@,
    {
        let mut r = self.data.meta.clone();
        push_decimal(self.id, &mut r);
        r.append(self.data.para.as_str());
        r
    }

    /// The metadata, the id, the para and the version of the states, with
    /// `|` between them.
    pub fn get_key(&self) -> (r: String)
        ensures
            r@ == key_text(self@),
    {
        let mut r = self.data.meta.clone();
        r.push('|');
        push_decimal(self.id, &mut r);
        r.push('|');
        r.append(self.data.para.as_str());
        r.push('|');
        push_i32(self.data.state_version, &mut r);
        assert(r@ =~= key_text(self@));
        r
    }

    /// A copy of this instance, every time it is asked for.
    pub fn next(&mut self) -> (r: Option<Instance>)
        ensures
            *final(self) == *old(self),
            r matches Some(i) && i@ == old(self)@,
    {
        Some(self.copy())
    }

    /// A copy of this instance.
    pub fn copy(&self) -> (r: Instance)
        ensures
            r@ == self@,
    {
        Instance {
            id: self.id,
            data: self.data.copy(),
            execute_time: self.execute_time,
            create_time: self.create_time,
        }
    }
}

/// The key of an instance as a text.
pub open spec fn key_text(v: InstanceView) -> Seq<char> {
    v.data.meta + seq!['|'] + decimal_digits(v.id as nat) + seq!['|'] + v.data.para + seq!['|']
        + decimal_of(v.data.state_version as int)
}

impl Deref for Instance {
    type Target = BizObject;

    fn deref(&self) -> (r: &BizObject)
        ensures
            *r == self.data,
    {
        &self.data
    }
}

impl DerefMut for Instance {
    fn deref_mut(&mut self) -> (r: &mut BizObject)
        ensures
            *r == old(self).data,
            *final(self) == (Instance { data: *final(r), ..*old(self) }),
    {
        &mut self.data
    }
}

/// An instance that brings its converters along.
#[derive(Debug, Clone, PartialEq)]
pub struct SelfRouteInstance {
    pub instance: Instance,
    pub converter: Vec<DynamicConverter>,
}

/// The message for an instance that brings no converter.
pub open spec fn no_executor_message() -> Seq<char> {
    "executor must not empty for dynamic convert!"@
}

impl SelfRouteInstance {
    /// Checks that there is a converter.
    pub fn verify(&self) -> (r: Result<(), NatureError>)
        ensures
            match r {
                Ok(_) => self.converter@.len() > 0,
                Err(e) => self.converter@.len() == 0 && e@ == ErrorText::VerifyError(
                    no_executor_message(),
                ),
            },
    {
        if self.converter.len() == 0 {
            return Err(
                NatureError::VerifyError(
                    "executor must not empty for dynamic convert!".to_owned(),
                ),
            );
        }
        Ok(())
    }

    /// The instance that is carried, as one that is not stored yet.
    pub fn to_instance(&self) -> (r: Instance)
        ensures
            r@ == (InstanceView {
                id: 0,
                data: self.instance.data@,
                execute_time: 0,
                create_time: 0,
            }),
    {
        Instance { id: 0, data: self.instance.data.copy(), execute_time: 0, create_time: 0 }
    }

    /// The key of the instance that is carried.
    pub fn get_key(&self) -> (r: String)
        ensures
            r@ == key_text(self.instance@),
    {
        self.instance.get_key()
    }
}

} // verus!
