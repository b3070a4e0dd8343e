//! Where an instance came from.

use vstd::prelude::*;
use vstd::string::*;
use vstd::std_specs::convert::FromSpecImpl;
use crate::instance::Instance;
use crate::text::{decimal_digits, decimal_of, push_decimal, push_i32};

verus! {

/// The instance that another one was made from.
#[derive(Debug, Clone, PartialEq, Eq)]
pub struct FromInstance {
    pub id: u128,
    pub meta: String,
    pub para: String,
    pub state_version: i32,
}

/// A [`FromInstance`] as plain values.
pub struct FromInstanceView {
    pub id: u128,
    pub meta: Seq<char>,
    pub para: Seq<char>,
    pub state_version: i32,
}

impl View for FromInstance {
    type V = FromInstanceView;

    open spec fn view(&self) -> FromInstanceView {
        FromInstanceView {
            id: self.id,
            meta: self.meta@,
            para: self.para@,
            state_version: self.state_version,
        }
    }
}

impl Default for FromInstance {
    fn default() -> (r: Self)
        ensures
            r@ == (FromInstanceView {
                id: 0,
                meta: Seq::empty(),
                para: Seq::empty(),
                state_version: 0,
            }),
    {
        FromInstance { id: 0, meta: String::new(), para: String::new(), state_version: 0 }
    }
}

/// What names the instance `from` as an upstream.
pub open spec fn upstream_of(from: &Instance) -> FromInstanceView {
    FromInstanceView {
        id: from.id,
        meta: from.data.meta@,
        para: from.data.para@,
        state_version: from.data.state_version,
    }
}

impl From<&Instance> for FromInstance {
    fn from(from: &Instance) -> (r: Self)
        ensures
            r@ == upstream_of(from),
    {
        FromInstance {
            id: from.id,
            meta: from.data.meta.clone(),
            para: from.data.para.clone(),
            state_version: from.data.state_version,
        }
    }
}

impl FromSpecImpl<&Instance> for FromInstance {
    open spec fn obeys_from_spec() -> bool {
        true
    }

    open spec fn from_spec(from: &Instance) -> Self {
        FromInstance {
            id: from.id,
            meta: from.data.meta,
            para: from.data.para,
            state_version: from.data.state_version,
        }
    }
}

/// The text that names the upstream: the metadata, the id and the version
/// of the states, with `:` between them.
pub open spec fn upstream_text(v: FromInstanceView) -> Seq<char> {
    v.meta + seq![':'] + decimal_digits(v.id as nat) + seq![':'] + decimal_of(
        v.state_version as int,
    )
}

impl FromInstance {
    /// The text that names the upstream instance.
    pub fn get_upstream(&self) -> (r: String)
        ensures
            r@ == upstream_text(self@),
    {
        let mut r = self.meta.clone();
        r.push(':');
        push_decimal(self.id, &mut r);
        r.push(':');
        push_i32(self.state_version, &mut r);
        assert(r@ =~= upstream_text(self@));
        r
    }

    /// A copy of this value.
    pub fn copy(&self) -> (r: FromInstance)
        ensures
            r@ == self@,
    {
        FromInstance {
            id: self.id,
            meta: self.meta.clone(),
            para: self.para.clone(),
            state_version: self.state_version,
        }
    }
}

} // verus!
