//! The kinds of metadata and their one-letter prefixes.

use vstd::prelude::*;
use vstd::string::*;
use crate::error::{ErrorText, NatureError};
use crate::text::{pieces, same_text, split, texts_of};

verus! {

/// The character that separates the parts of a metadata's text.
pub const PART_SEPARATOR: char = ':';

/// Every `Meta` must have a type.
#[derive(PartialEq, Eq, Structural, Hash, Debug, Clone, Copy, Ord, PartialOrd)]
pub enum MetaType {
    Business,
    System,
    Dynamic,
    Null,
    Multi,
}

impl Default for MetaType {
    fn default() -> (r: Self)
        ensures
            r == MetaType::Business,
    {
        MetaType::Business
    }
}

/// The letter that stands for the type `t`.
pub open spec fn prefix_of(t: MetaType) -> Seq<char> {
    match t {
        MetaType::Business => seq!['B'],
        MetaType::System => seq!['S'],
        MetaType::Dynamic => seq!['D'],
        MetaType::Null => seq!['N'],
        MetaType::Multi => seq!['M'],
    }
}

/// The type that the letter `p` stands for.
pub open spec fn type_named(p: Seq<char>) -> Option<MetaType> {
    if p == prefix_of(MetaType::Business) {
        Some(MetaType::Business)
    } else if p == prefix_of(MetaType::System) {
        Some(MetaType::System)
    } else if p == prefix_of(MetaType::Dynamic) {
        Some(MetaType::Dynamic)
    } else if p == prefix_of(MetaType::Null) {
        Some(MetaType::Null)
    } else if p == prefix_of(MetaType::Multi) {
        Some(MetaType::Multi)
    } else {
        None
    }
}

/// The letter of a type stands for that type.
pub proof fn lemma_prefix_names_type(t: MetaType)
    ensures
        type_named(prefix_of(t)) == Some(t),
{
    assert(seq!['B'][0] == 'B');
    assert(seq!['S'][0] == 'S');
    assert(seq!['D'][0] == 'D');
    assert(seq!['N'][0] == 'N');
    assert(seq!['M'][0] == 'M');
}

/// The message for a prefix that stands for no type.
pub open spec fn unknown_prefix_message(prefix: Seq<char>) -> Seq<char> {
    "unknow prefix : ["@ + prefix + "]"@
}

/// The message for a text whose first part is not the expected prefix.
pub open spec fn undefined_type_message(meta: Seq<char>) -> Seq<char> {
    "["@ + meta + "]'s MetaType undefined"@
}

impl MetaType {
    /// The letter that stands for this type.
    pub fn get_prefix(&self) -> (r: String)
        ensures
            r@ == prefix_of(*self),
    {
        proof {
            reveal_strlit("B");
            reveal_strlit("S");
            reveal_strlit("D");
            reveal_strlit("N");
            reveal_strlit("M");
        }
        let r = match self {
            MetaType::Business => "B".to_owned(),
            MetaType::System => "S".to_owned(),
            MetaType::Dynamic => "D".to_owned(),
            MetaType::Null => "N".to_owned(),
            MetaType::Multi => "M".to_owned(),
        };
        assert(r@ =~= prefix_of(*self));
        r
    }

    /// The type that the letter `prefix` stands for; an error for any other
    /// text.
    pub fn from_prefix(prefix: &str) -> (r: Result<MetaType, NatureError>)
        ensures
            match r {
                Ok(t) => type_named(prefix@) == Some(t),
                Err(e) => type_named(prefix@) is None && e@ == ErrorText::VerifyError(
                    unknown_prefix_message(prefix@),
                ),
            },
    {
        proof {
            reveal_strlit("B");
            reveal_strlit("S");
            reveal_strlit("D");
            reveal_strlit("N");
            reveal_strlit("M");
            assert("B"@ =~= seq!['B']);
            assert("S"@ =~= seq!['S']);
            assert("D"@ =~= seq!['D']);
            assert("N"@ =~= seq!['N']);
            assert("M"@ =~= seq!['M']);
            lemma_prefix_names_type(MetaType::Business);
            lemma_prefix_names_type(MetaType::System);
            lemma_prefix_names_type(MetaType::Dynamic);
            lemma_prefix_names_type(MetaType::Null);
            lemma_prefix_names_type(MetaType::Multi);
        }
        if same_text(prefix, "B") {
            Ok(MetaType::Business)
        } else if same_text(prefix, "S") {
            Ok(MetaType::System)
        } else if same_text(prefix, "D") {
            Ok(MetaType::Dynamic)
        } else if same_text(prefix, "N") {
            Ok(MetaType::Null)
        } else if same_text(prefix, "M") {
            Ok(MetaType::Multi)
        } else {
            let mut msg = "unknow prefix : [".to_owned();
            msg.append(prefix);
            msg.append("]");
            Err(NatureError::VerifyError(msg))
        }
    }

    /// Checks that the first part of `meta`, up to the first `:`, is the
    /// letter of `m_type`.
    pub fn check_type(meta: &str, m_type: MetaType) -> (r: Result<(), NatureError>)
        ensures
            match r {
                Ok(_) => pieces(meta@, PART_SEPARATOR)[0] == prefix_of(m_type),
                Err(e) => pieces(meta@, PART_SEPARATOR)[0] != prefix_of(m_type) && e@
                    == ErrorText::VerifyError(undefined_type_message(meta@)),
            },
    {
        let prefix = m_type.get_prefix();
        let parts = split(meta, PART_SEPARATOR);
        proof {
            crate::text::lemma_pieces_len(meta@, PART_SEPARATOR);
        }
        assert(texts_of(parts@)[0] == parts@[0]@);
        if !same_text(parts[0].as_str(), prefix.as_str()) {
            let mut msg = "[".to_owned();
            msg.append(meta);
            msg.append("]'s MetaType undefined");
            return Err(NatureError::VerifyError(msg));
        }
        Ok(())
    }
}

} // verus!
