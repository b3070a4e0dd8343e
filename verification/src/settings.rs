//! The separators used in the texts of instances.

use vstd::prelude::*;
use vstd::string::*;
use crate::text::same_text;

verus! {

/// The character between the parts of an instance's key.
pub const SEPARATOR_INS_KEY: char = '|';

/// The character between the parts of an instance's para.
pub const SEPARATOR_INS_PARA: char = '/';

/// The separator that is used where none is configured.
pub open spec fn standard_para_separator() -> Seq<char> {
    seq!['/']
}

/// The para separator in force: the configured one, or `/` where none is
/// configured.
pub fn default_para_separator(configured: Option<&str>) -> (r: String)
    ensures
        r@ == match configured {
            Some(c) => c@,
            None => standard_para_separator(),
        },
{
    match configured {
        Some(c) => c.to_owned(),
        None => {
            proof {
                reveal_strlit("/");
            }
            let r = "/".to_owned();
            assert(r@ =~= standard_para_separator());
            r
        },
    }
}

/// Whether `sep` is the para separator in force.
pub fn is_default_para_separator(sep: &str, configured: Option<&str>) -> (r: bool)
    ensures
        r == (sep@ == match configured {
            Some(c) => c@,
            None => standard_para_separator(),
        }),
{
    let d = default_para_separator(configured);
    same_text(sep, d.as_str())
}

} // verus!
