//! The texts that name a metadata, made without making the metadata.

use vstd::prelude::*;
use vstd::string::*;
use crate::error::{ErrorText, NatureError};
use crate::meta::{empty_key_message, full_key_of, meta_text, standard_key, Meta};
use crate::meta_type::MetaType;
use crate::text::{i32_of, lemma_pieces_len, pieces, push_i32, read_i32, split, texts_of};

verus! {

/// Makes the texts that name a metadata.
pub struct MetaString;

/// The full key and the version that the text `s` holds: the two parts of
/// `s` around its one `:`, the second read as a number.
pub open spec fn tuple_of(s: Seq<char>) -> Option<(Seq<char>, i32)> {
    let parts = pieces(s, ':');
    if parts.len() == 2 && i32_of(parts[1]) is Some {
        Some((parts[0], i32_of(parts[1])->0))
    } else {
        None
    }
}

/// The message for a text that is not a full key, `:` and a version.
pub open spec fn illegal_meta_message(s: Seq<char>) -> Seq<char> {
    "illegal format for meta string : "@ + s
}

/// The text that `with_version_and_type` makes.
pub open spec fn meta_string_of(key: Seq<char>, version: i32, t: MetaType) -> Option<Seq<char>> {
    if t == MetaType::Null {
        Some(full_key_of(t, Seq::empty()))
    } else {
        match standard_key(key) {
            Some(k) => Some(meta_text(full_key_of(t, k), version)),
            None => None,
        }
    }
}

impl MetaString {
    /// The text of the metadata of type `Null`.
    pub fn null() -> (r: String)
        ensures
            r@ == full_key_of(MetaType::Null, Seq::empty()),
    {
        proof {
            reveal_strlit("/N");
        }
        let r = "/N".to_owned();
        assert(r@ =~= full_key_of(MetaType::Null, Seq::empty()));
        r
    }

    /// The text of the business metadata `key` in version 1.
    pub fn new(key: &str) -> (r: Result<String, NatureError>)
        ensures
            match r {
                Ok(s) => meta_string_of(key@, 1, MetaType::Business) == Some(s@),
                Err(e) => meta_string_of(key@, 1, MetaType::Business) is None && e@
                    == ErrorText::VerifyError(empty_key_message()),
            },
    {
        Self::with_version_and_type(key, 1, MetaType::Business)
    }

    /// The text of the metadata `key` of the given type in version 1.
    pub fn with_type(key: &str, meta_type: MetaType) -> (r: Result<String, NatureError>)
        ensures
            match r {
                Ok(s) => meta_string_of(key@, 1, meta_type) == Some(s@),
                Err(e) => meta_string_of(key@, 1, meta_type) is None && e@
                    == ErrorText::VerifyError(empty_key_message()),
            },
    {
        Self::with_version_and_type(key, 1, meta_type)
    }

    /// The text of the metadata `key` of the given type and version; for
    /// the type `Null` the text is `/N`, whatever else is given.
    pub fn with_version_and_type(key: &str, version: i32, meta_type: MetaType) -> (r: Result<
        String,
        NatureError,
    >)
        ensures
            match r {
                Ok(s) => meta_string_of(key@, version, meta_type) == Some(s@),
                Err(e) => meta_string_of(key@, version, meta_type) is None && e@
                    == ErrorText::VerifyError(empty_key_message()),
            },
    {
        let mut rtn = String::new();
        rtn.push('/');
        rtn.append(meta_type.get_prefix().as_str());
        if meta_type == MetaType::Null {
            assert(rtn@ =~= full_key_of(meta_type, Seq::empty()));
            return Ok(rtn);
        }
        match Meta::key_standardize(key) {
            Err(e) => Err(e),
            Ok(key) => {
                rtn.append(key.as_str());
                rtn.push(':');
                push_i32(version, &mut rtn);
                assert(rtn@ =~= meta_text(full_key_of(meta_type, key@), version));
                Ok(rtn)
            },
        }
    }

    /// The text made of a full key, `:` and a version.
    pub fn make_meta_string(full_key: &str, version: i32) -> (r: String)
        ensures
            r@ == meta_text(full_key@, version),
    {
        let mut rtn = full_key.to_owned();
        rtn.push(':');
        push_i32(version, &mut rtn);
        assert(rtn@ =~= meta_text(full_key@, version));
        rtn
    }

    /// The full key of the business metadata `key`.
    pub fn full_key(key: &str) -> (r: Result<String, NatureError>)
        ensures
            match r {
                Ok(s) => standard_key(key@) matches Some(k) && s@ == full_key_of(
                    MetaType::Business,
                    k,
                ),
                Err(e) => standard_key(key@) is None && e@ == ErrorText::VerifyError(
                    empty_key_message(),
                ),
            },
    {
        match Meta::key_standardize(key) {
            Err(e) => Err(e),
            Ok(key) => {
                let mut rtn = String::new();
                rtn.push('/');
                rtn.append(MetaType::Business.get_prefix().as_str());
                rtn.append(key.as_str());
                assert(rtn@ =~= full_key_of(MetaType::Business, key@));
                Ok(rtn)
            },
        }
    }

    /// Takes a text of the form `full_key:version` apart.
    pub fn make_tuple_from_str(meta_str: &str) -> (r: Result<(String, i32), NatureError>)
        ensures
            match r {
                Ok(t) => tuple_of(meta_str@) == Some((t.0@, t.1)),
                Err(e) => tuple_of(meta_str@) is None && e@ == ErrorText::VerifyError(
                    illegal_meta_message(meta_str@),
                ),
            },
    {
        let parts = split(meta_str, ':');
        proof {
            lemma_pieces_len(meta_str@, ':');
        }
        assert(parts@.len() == texts_of(parts@).len());
        let version = if parts.len() == 2 {
            assert(texts_of(parts@)[1] == parts@[1]@);
            read_i32(parts[1].as_str())
        } else {
            None
        };
        match version {
            Some(v) => {
                assert(texts_of(parts@)[0] == parts@[0]@);
                Ok((parts[0].clone(), v))
            },
            None => {
                let mut msg = "illegal format for meta string : ".to_owned();
                msg.append(meta_str);
                Err(NatureError::VerifyError(msg))
            },
        }
    }
}

} // verus!
