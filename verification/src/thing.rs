//! A thing: a key, a version and a type.

use vstd::prelude::*;
use vstd::string::*;
use crate::error::{ErrorText, NatureError};
use crate::meta::{empty_key_message, illegal_full_key_message, standard_key, Meta};
use crate::meta_type::unknown_prefix_message;
use crate::text::{from_chars, same_text, to_chars};
use crate::thing_type::{thing_prefix_of, thing_type_named, ThingType};

verus! {

/// A `Thing`'s basic information.
#[derive(PartialEq, Eq, Hash, Debug, Clone, Ord, PartialOrd)]
pub struct Thing {
    /// The name of the thing, a path that begins with `/`.
    key: String,
    /// The key with the prefix of the type in front, as in `/B/shop/order`.
    full_key: String,
    /// A `Thing` can change over time; each change gets a new version.
    pub version: i32,
    thing_type: ThingType,
}

/// A [`Thing`] as plain values.
pub struct ThingView {
    pub key: Seq<char>,
    pub full_key: Seq<char>,
    pub version: i32,
    pub thing_type: ThingType,
}

impl View for Thing {
    type V = ThingView;

    closed spec fn view(&self) -> ThingView {
        ThingView {
            key: self.key@,
            full_key: self.full_key@,
            version: self.version,
            thing_type: self.thing_type,
        }
    }
}

/// Whether the full key of a thing is made of its type and its key.
pub open spec fn well_formed_thing(v: ThingView) -> bool {
    v.full_key == thing_prefix_of(v.thing_type) + v.key
}

/// The thing of type `Null`: no key, version 1.
pub open spec fn null_thing() -> ThingView {
    ThingView {
        key: Seq::empty(),
        full_key: thing_prefix_of(ThingType::Null),
        version: 1,
        thing_type: ThingType::Null,
    }
}

/// The thing that `new_with_version_and_type` makes: for the type `Null`
/// the `Null` thing, whatever else is given; otherwise the key is brought
/// to its standard form.
pub open spec fn made_thing(key: Seq<char>, version: i32, t: ThingType) -> Option<ThingView> {
    if t == ThingType::Null {
        Some(null_thing())
    } else {
        match standard_key(key) {
            Some(k) => Some(
                ThingView { key: k, full_key: thing_prefix_of(t) + k, version, thing_type: t },
            ),
            None => None,
        }
    }
}

/// The thing that the full key `fk` stands for, or the message that says
/// why it stands for none.
pub open spec fn read_thing_key(fk: Seq<char>, version: i32) -> Result<ThingView, Seq<char>> {
    if fk == thing_prefix_of(ThingType::Null) {
        Ok(null_thing())
    } else if fk.len() < 3 || fk[2] != '/' {
        Err(illegal_full_key_message(fk))
    } else if thing_type_named(fk.take(2)) is None {
        Err(unknown_prefix_message(fk.take(2)))
    } else {
        match made_thing(fk.skip(3), version, thing_type_named(fk.take(2))->0) {
            Some(v) => Ok(v),
            None => Err(empty_key_message()),
        }
    }
}

impl Default for Thing {
    fn default() -> (r: Self)
        ensures
            r@ == (ThingView {
                key: Seq::empty(),
                full_key: thing_prefix_of(ThingType::Business),
                version: 1,
                thing_type: ThingType::Business,
            }),
    {
        Thing {
            key: String::new(),
            full_key: ThingType::Business.get_prefix(),
            version: 1,
            thing_type: ThingType::Business,
        }
    }
}

impl Thing {
    /// Brings a key to its standard form: it begins with `/` and does not
    /// end with one. A key of which nothing is left is refused and left
    /// empty.
    pub fn key_standardize(biz: &mut String) -> (r: Result<(), NatureError>)
        ensures
            match r {
                Ok(_) => standard_key(old(biz)@) == Some(final(biz)@),
                Err(e) => standard_key(old(biz)@) is None && final(biz)@.len() == 0 && e@
                    == ErrorText::VerifyError(empty_key_message()),
            },
    {
        match Meta::key_standardize(biz.as_str()) {
            Ok(k) => {
                *biz = k;
                Ok(())
            },
            Err(e) => {
                *biz = String::new();
                Err(e)
            },
        }
    }

    /// The business thing `key` in version 1.
    pub fn new(key: &str) -> (r: Result<Thing, NatureError>)
        ensures
            match r {
                Ok(t) => made_thing(key@, 1, ThingType::Business) == Some(t@),
                Err(e) => made_thing(key@, 1, ThingType::Business) is None && e@
                    == ErrorText::VerifyError(empty_key_message()),
            },
    {
        Self::new_with_version_and_type(key, 1, ThingType::Business)
    }

    /// The thing `key` of the given type in version 1.
    pub fn new_with_type(key: &str, thing_type: ThingType) -> (r: Result<Thing, NatureError>)
        ensures
            match r {
                Ok(t) => made_thing(key@, 1, thing_type) == Some(t@),
                Err(e) => made_thing(key@, 1, thing_type) is None && e@
                    == ErrorText::VerifyError(empty_key_message()),
            },
    {
        Self::new_with_version_and_type(key, 1, thing_type)
    }

    /// The thing `key` of the given type and version.
    pub fn new_with_version_and_type(key: &str, version: i32, thing_type: ThingType) -> (r: Result<
        Thing,
        NatureError,
    >)
        ensures
            match r {
                Ok(t) => made_thing(key@, version, thing_type) == Some(t@) && well_formed_thing(
                    t@,
                ),
                Err(e) => made_thing(key@, version, thing_type) is None && e@
                    == ErrorText::VerifyError(empty_key_message()),
            },
    {
        if thing_type == ThingType::Null {
            return Ok(Self::new_null());
        }
        let mut key = key.to_owned();
        match Self::key_standardize(&mut key) {
            Err(e) => Err(e),
            Ok(_) => {
                let mut full_key = thing_type.get_prefix();
                full_key.append(key.as_str());
                Ok(Thing { key, full_key, version, thing_type })
            },
        }
    }

    /// The thing of type `Null`.
    pub fn new_null() -> (r: Thing)
        ensures
            r@ == null_thing(),
            well_formed_thing(r@),
    {
        let thing_type = ThingType::Null;
        Thing { key: String::new(), full_key: thing_type.get_prefix(), version: 1, thing_type }
    }

    /// The key in its standard form.
    pub fn get_key(&self) -> (r: String)
        ensures
            r@ == self@.key,
    {
        self.key.clone()
    }

    /// The key with the prefix of the type in front.
    pub fn get_full_key(&self) -> (r: String)
        ensures
            r@ == self@.full_key,
    {
        self.full_key.clone()
    }

    /// The version.
    pub fn get_version(&self) -> (r: i32)
        ensures
            r == self@.version,
    {
        self.version
    }

    /// The type.
    pub fn get_thing_type(&self) -> (r: ThingType)
        ensures
            r == self@.thing_type,
    {
        self.thing_type
    }

    /// Changes the type; the full key follows.
    pub fn set_thing_type(&mut self, thing_type: ThingType)
        ensures
            final(self)@ == (ThingView {
                thing_type,
                full_key: thing_prefix_of(thing_type) + old(self)@.key,
                ..old(self)@
            }),
            well_formed_thing(final(self)@),
    {
        self.thing_type = thing_type;
        let mut full_key = thing_type.get_prefix();
        full_key.append(self.key.as_str());
        self.full_key = full_key;
    }

    /// The thing that a full key of the form `/X/key` stands for.
    pub fn from_full_key(fk: &str, version: i32) -> (r: Result<Thing, NatureError>)
        ensures
            match r {
                Ok(t) => read_thing_key(fk@, version) == Ok::<ThingView, Seq<char>>(t@),
                Err(e) => read_thing_key(fk@, version) == Err::<ThingView, Seq<char>>(
                    e@->VerifyError_0,
                ) && e@ is VerifyError,
            },
    {
        proof {
            reveal_strlit("/N");
            assert("/N"@ =~= thing_prefix_of(ThingType::Null));
        }
        if same_text(fk, "/N") {
            return Thing::new_with_type(fk, ThingType::Null);
        }
        let chars = to_chars(fk);
        let n = chars.len();
        if n < 3 || chars[2] != '/' {
            let mut msg = "illegal format for `full_key` : ".to_owned();
            msg.append(fk);
            return Err(NatureError::VerifyError(msg));
        }
        let head = from_chars(&chars, 0, 2);
        assert(head@ =~= fk@.take(2));
        match ThingType::from_prefix(head.as_str()) {
            Err(e) => Err(e),
            Ok(thing_type) => {
                let rest = from_chars(&chars, 3, n);
                assert(rest@ =~= fk@.skip(3));
                Thing::new_with_version_and_type(rest.as_str(), version, thing_type)
            },
        }
    }

    /// Lets `inspect` look at this thing; only whether it found fault is
    /// kept.
    pub fn check<T, F>(&self, inspect: F) -> (r: Result<(), NatureError>) where
        F: Fn(&Thing) -> Result<T, NatureError>,

        requires
            call_requires(inspect, (self,)),
        ensures
            match r {
                Ok(_) => exists|t: T| call_ensures(inspect, (self,), Ok::<T, NatureError>(t)),
                Err(e) => call_ensures(inspect, (self,), Err::<T, NatureError>(e)),
            },
    {
        match inspect(self) {
            Ok(_) => Ok(()),
            Err(e) => Err(e),
        }
    }
}

} // verus!
