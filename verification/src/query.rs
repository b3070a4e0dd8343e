//! The conditions by which stored instances are looked up.

use vstd::prelude::*;
use vstd::string::*;
use vstd::std_specs::convert::FromSpecImpl;
use crate::from_instance::FromInstance;
use crate::instance::Instance;
use crate::settings::SEPARATOR_INS_KEY;
use crate::text::{hex_digits, push_hex};

verus! {

/// Looks an instance up by its key.
#[derive(Debug, Clone, PartialEq)]
pub struct KeyCondition {
    /// The id of the instance, in hexadecimal.
    pub id: String,
    pub meta: String,
    pub gt_key: String,
    pub para: String,
    pub state_version: i32,
    pub limit: i32,
}

/// Another name of [`KeyCondition`].
pub type ParaForQueryByID = KeyCondition;

/// A [`KeyCondition`] as plain values.
pub struct KeyConditionView {
    pub id: Seq<char>,
    pub meta: Seq<char>,
    pub gt_key: Seq<char>,
    pub para: Seq<char>,
    pub state_version: i32,
    pub limit: i32,
}

impl View for KeyCondition {
    type V = KeyConditionView;

    open spec fn view(&self) -> KeyConditionView {
        KeyConditionView {
            id: self.id@,
            meta: self.meta@,
            gt_key: self.gt_key@,
            para: self.para@,
            state_version: self.state_version,
            limit: self.limit,
        }
    }
}

/// The condition that finds the one instance with the given id, metadata,
/// para and version of states.
pub open spec fn condition_of(
    id: u128,
    meta: Seq<char>,
    para: Seq<char>,
    state_version: i32,
) -> KeyConditionView {
    KeyConditionView {
        id: hex_digits(id as nat),
        meta,
        gt_key: Seq::empty(),
        para,
        state_version,
        limit: 1,
    }
}

impl KeyCondition {
    /// The condition that finds the one instance with the given id, metadata,
    /// para and version of states.
    pub fn new(id: u128, meta: &str, para: &str, state_version: i32) -> (r: KeyCondition)
        ensures
            r@ == condition_of(id, meta@, para@, state_version),
    {
        let mut text = String::new();
        push_hex(id, &mut text);
        assert(text@ =~= hex_digits(id as nat));
        KeyCondition {
            id: text,
            meta: meta.to_owned(),
            gt_key: String::new(),
            para: para.to_owned(),
            state_version,
            limit: 1,
        }
    }

    /// The pattern for the keys of all instances of the metadata.
    pub fn id_like(&self) -> (r: String)
        ensures
            r@ == self.meta@ + seq![SEPARATOR_INS_KEY, '%'],
    {
        let mut r = self.meta.clone();
        r.push(SEPARATOR_INS_KEY);
        r.push('%');
        assert(r@ =~= self.meta@ + seq![SEPARATOR_INS_KEY, '%']);
        r
    }

    /// The pattern for the keys of all instances of the metadata with this
    /// id.
    pub fn para_like(&self) -> (r: String)
        ensures
            r@ == self.meta@ + seq![SEPARATOR_INS_KEY] + self.id@ + seq![SEPARATOR_INS_KEY, '%'],
    {
        let mut r = self.meta.clone();
        r.push(SEPARATOR_INS_KEY);
        r.append(self.id.as_str());
        r.push(SEPARATOR_INS_KEY);
        r.push('%');
        assert(r@ =~= self.meta@ + seq![SEPARATOR_INS_KEY] + self.id@ + seq![
            SEPARATOR_INS_KEY,
            '%',
        ]);
        r
    }

    /// The key of the instance: metadata, id and para.
    pub fn get_key(&self) -> (r: String)
        ensures
            r@ == self.meta@ + seq![SEPARATOR_INS_KEY] + self.id@ + seq![SEPARATOR_INS_KEY]
                + self.para@,
    {
        let mut r = self.meta.clone();
        r.push(SEPARATOR_INS_KEY);
        r.append(self.id.as_str());
        r.push(SEPARATOR_INS_KEY);
        r.append(self.para.as_str());
        r
    }
}

impl From<&Instance> for KeyCondition {
    /// The condition that finds the instance `input`.
    fn from(input: &Instance) -> (r: Self)
        ensures
            r@ == condition_of(
                input.id,
                input.data.meta@,
                input.data.para@,
                input.data.state_version,
            ),
    {
        KeyCondition::new(
            input.id,
            input.data.meta.as_str(),
            input.data.para.as_str(),
            input.data.state_version,
        )
    }
}

impl FromSpecImpl<&Instance> for KeyCondition {
    open spec fn obeys_from_spec() -> bool {
        false
    }

    open spec fn from_spec(input: &Instance) -> Self {
        arbitrary()
    }
}

impl From<&FromInstance> for KeyCondition {
    /// The condition that finds the instance that `input` names.
    fn from(input: &FromInstance) -> (r: Self)
        ensures
            r@ == condition_of(input.id, input.meta@, input.para@, input.state_version),
    {
        KeyCondition::new(input.id, input.meta.as_str(), input.para.as_str(), input.state_version)
    }
}

impl FromSpecImpl<&FromInstance> for KeyCondition {
    open spec fn obeys_from_spec() -> bool {
        false
    }

    open spec fn from_spec(input: &FromInstance) -> Self {
        arbitrary()
    }
}

/// Looks instances up by the instance they came from.
#[derive(Debug, Clone, PartialEq)]
pub struct IDAndFrom {
    pub id: u128,
    pub meta: String,
    pub from_key: String,
}

impl IDAndFrom {
    /// The pattern for the keys of all instances of the metadata with this
    /// id.
    pub fn para_like(&self) -> (r: String)
        ensures
            r@ == self.meta@ + seq!['|'] + hex_digits(self.id as nat) + seq!['|', '%'],
    {
        let mut r = self.meta.clone();
        r.push('|');
        push_hex(self.id, &mut r);
        r.push('|');
        r.push('%');
        assert(r@ =~= self.meta@ + seq!['|'] + hex_digits(self.id as nat) + seq!['|', '%']);
        r
    }
}

/// Looks instances up by their metadata.
#[derive(Debug, Clone, PartialEq)]
pub struct QueryByMeta {
    pub meta: String,
    pub para_like: Option<String>,
    pub create_time_gt: Option<i64>,
    pub create_time_ge: Option<i64>,
    pub create_time_desc: bool,
}

} // verus!
