//! The kinds of things and the prefixes of their keys.

use vstd::prelude::*;
use vstd::string::*;
use crate::error::{ErrorText, NatureError};
use crate::meta_type::unknown_prefix_message;
use crate::text::same_text;

verus! {

/// Every `Thing` must have a type.
#[derive(PartialEq, Eq, Structural, Hash, Debug, Clone, Copy, Ord, PartialOrd)]
pub enum ThingType {
    Business,
    System,
    Dynamic,
    Null,
}

/// The key prefix that stands for the type `t`.
pub open spec fn thing_prefix_of(t: ThingType) -> Seq<char> {
    match t {
        ThingType::Business => seq!['/', 'B'],
        ThingType::System => seq!['/', 'S'],
        ThingType::Dynamic => seq!['/', 'D'],
        ThingType::Null => seq!['/', 'N'],
    }
}

/// The type whose prefix is `p`.
pub open spec fn thing_type_named(p: Seq<char>) -> Option<ThingType> {
    if p == thing_prefix_of(ThingType::Business) {
        Some(ThingType::Business)
    } else if p == thing_prefix_of(ThingType::System) {
        Some(ThingType::System)
    } else if p == thing_prefix_of(ThingType::Dynamic) {
        Some(ThingType::Dynamic)
    } else if p == thing_prefix_of(ThingType::Null) {
        Some(ThingType::Null)
    } else {
        None
    }
}

/// The prefix of a type stands for that type.
pub proof fn lemma_prefix_names_thing_type(t: ThingType)
    ensures
        thing_type_named(thing_prefix_of(t)) == Some(t),
{
    assert(seq!['/', 'B'][1] == 'B');
    assert(seq!['/', 'S'][1] == 'S');
    assert(seq!['/', 'D'][1] == 'D');
    assert(seq!['/', 'N'][1] == 'N');
}

impl ThingType {
    /// The key prefix that stands for this type.
    pub fn get_prefix(&self) -> (r: String)
        ensures
            r@ == thing_prefix_of(*self),
    {
        proof {
            reveal_strlit("/B");
            reveal_strlit("/S");
            reveal_strlit("/D");
            reveal_strlit("/N");
        }
        let r = match self {
            ThingType::Business => "/B".to_owned(),
            ThingType::System => "/S".to_owned(),
            ThingType::Dynamic => "/D".to_owned(),
            ThingType::Null => "/N".to_owned(),
        };
        assert(r@ =~= thing_prefix_of(*self));
        r
    }

    /// The type that `prefix` stands for; an error for any other text.
    pub fn from_prefix(prefix: &str) -> (r: Result<ThingType, NatureError>)
        ensures
            match r {
                Ok(t) => thing_type_named(prefix@) == Some(t),
                Err(e) => thing_type_named(prefix@) is None && e@ == ErrorText::VerifyError(
                    unknown_prefix_message(prefix@),
                ),
            },
    {
        proof {
            reveal_strlit("/B");
            reveal_strlit("/S");
            reveal_strlit("/D");
            reveal_strlit("/N");
            assert("/B"@ =~= seq!['/', 'B']);
            assert("/S"@ =~= seq!['/', 'S']);
            assert("/D"@ =~= seq!['/', 'D']);
            assert("/N"@ =~= seq!['/', 'N']);
            lemma_prefix_names_thing_type(ThingType::Business);
            lemma_prefix_names_thing_type(ThingType::System);
            lemma_prefix_names_thing_type(ThingType::Dynamic);
            lemma_prefix_names_thing_type(ThingType::Null);
        }
        if same_text(prefix, "/B") {
            Ok(ThingType::Business)
        } else if same_text(prefix, "/S") {
            Ok(ThingType::System)
        } else if same_text(prefix, "/D") {
            Ok(ThingType::Dynamic)
        } else if same_text(prefix, "/N") {
            Ok(ThingType::Null)
        } else {
            let mut msg = "unknow prefix : [".to_owned();
            msg.append(prefix);
            msg.append("]");
            Err(NatureError::VerifyError(msg))
        }
    }
}

} // verus!
