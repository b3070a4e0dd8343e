//! Settings that a metadata may carry beside its key and type.

use vstd::prelude::*;
use vstd::string::*;
use crate::error::{ErrorText, NatureError};
use crate::instance::Instance;
use crate::text_map::TextSet;

verus! {

/// The settings of a `Meta`.
#[derive(Debug, Clone, PartialEq, Eq, PartialOrd, Ord)]
pub struct MetaSetting {
    /// Whether instances of the metadata carry states.
    pub is_state: bool,
    /// The metadata whose instance gives this one its id.
    pub master: Option<String>,
    /// The metadata texts that a multi-metadata may produce.
    pub multi_meta: TextSet,
    /// Whether saved instances are remembered for a while.
    pub cache_saved: bool,
}

/// A [`MetaSetting`] as plain values.
pub struct MetaSettingView {
    pub is_state: bool,
    pub master: Option<Seq<char>>,
    pub multi_meta: Set<Seq<char>>,
    pub cache_saved: bool,
}

impl View for MetaSetting {
    type V = MetaSettingView;

    open spec fn view(&self) -> MetaSettingView {
        MetaSettingView {
            is_state: self.is_state,
            master: match self.master {
                Some(m) => Some(m@),
                None => None,
            },
            multi_meta: self.multi_meta@,
            cache_saved: self.cache_saved,
        }
    }
}

impl Default for MetaSetting {
    fn default() -> (r: Self)
        ensures
            r@ == (MetaSettingView {
                is_state: false,
                master: None,
                multi_meta: Set::empty(),
                cache_saved: false,
            }),
    {
        MetaSetting { is_state: false, master: None, multi_meta: TextSet::new(), cache_saved: false }
    }
}

/// The message for an instance of a metadata that is not listed.
pub open spec fn undefined_meta_message(meta: Seq<char>) -> Seq<char> {
    "undefined meta:"@ + meta + " "@
}

/// The position of the first of `metas` that is not among `allowed`.
pub open spec fn first_unlisted(metas: Seq<Seq<char>>, allowed: Set<Seq<char>>, from: int) -> Option<
    int,
>
    decreases metas.len() - from,
{
    if from < 0 || from >= metas.len() {
        None
    } else if !allowed.contains(metas[from]) {
        Some(from)
    } else {
        first_unlisted(metas, allowed, from + 1)
    }
}

/// The metadata texts of the instances, in order.
pub open spec fn metas_of(instances: Seq<Instance>) -> Seq<Seq<char>> {
    Seq::new(instances.len(), |i: int| instances[i].data.meta@)
}

impl MetaSetting {
    /// Checks that every instance is of one of the metadata in
    /// `multi_meta`; the first that is not is named in the message.
    pub fn check_multi_meta(&self, instances: &mut Vec<Instance>) -> (r: Result<(), NatureError>)
        ensures
            *final(instances) == *old(instances),
            match r {
                Ok(_) => first_unlisted(metas_of(old(instances)@), self@.multi_meta, 0) is None,
                Err(e) => first_unlisted(metas_of(old(instances)@), self@.multi_meta, 0)
                    matches Some(i) && e@ == ErrorText::VerifyError(
                    undefined_meta_message(metas_of(old(instances)@)[i]),
                ),
            },
    {
        let ghost metas = metas_of(instances@);
        let mut i: usize = 0;
        while i < instances.len()
            invariant
                i <= instances.len(),
                *instances == *old(instances),
                metas == metas_of(instances@),
                first_unlisted(metas, self@.multi_meta, 0) == first_unlisted(
                    metas,
                    self@.multi_meta,
                    i as int,
                ),
            decreases instances.len() - i,
        {
            assert(metas[i as int] == instances@[i as int].data.meta@);
            if !self.multi_meta.contains(instances[i].data.meta.as_str()) {
                let mut msg = "undefined meta:".to_owned();
                msg.append(instances[i].data.meta.as_str());
                msg.append(" ");
                return Err(NatureError::VerifyError(msg));
            }
            i += 1;
        }
        Ok(())
    }

    /// A copy of these settings.
    pub fn copy(&self) -> (r: MetaSetting)
        ensures
            r@ == self@,
    {
        MetaSetting {
            is_state: self.is_state,
            master: match &self.master {
                Some(m) => Some(m.clone()),
                None => None,
            },
            multi_meta: self.multi_meta.copy(),
            cache_saved: self.cache_saved,
        }
    }
}

} // verus!
