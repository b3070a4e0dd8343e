//! How a converter is reached and what it hands back.

use std::str::FromStr;
use vstd::prelude::*;
use vstd::string::*;
use vstd::std_specs::convert::FromSpecImpl;
use crate::error::{ErrorText, NatureError};
use crate::instance::{Instance, SelfRouteInstance};
use crate::text::same_text;

verus! {

/// What a converter hands back.
#[derive(Debug, Clone, PartialEq)]
pub enum ConverterReturned {
    /// This breaks the process for ever.
    LogicalError(String),
    /// This ends the process quickly; it is tried again later.
    EnvError(String),
    /// No instance is returned.
    Nothing,
    /// The task is done asynchronously: the converter calls back within
    /// the given number of seconds.
    Delay(u32),
    /// The instances made.
    Instances(Vec<Instance>),
    /// Instances that carry their own route.
    SelfRoute(Vec<SelfRouteInstance>),
}

impl Default for ConverterReturned {
    fn default() -> (r: Self)
        ensures
            r is Nothing,
    {
        ConverterReturned::Nothing
    }
}

/// What a converter is given.
pub struct ConverterParameter {
    pub from: Instance,
    pub last_state: Option<Instance>,
    /// This is used for the callback.
    pub task_id: Vec<u8>,
    pub master: Option<Instance>,
    /// Settings with which the converter changes its behaviour.
    pub cfg: Option<String>,
}

/// What a converter is given when it is called out to.
pub struct CallOutParameter {
    pub from: Instance,
    pub last_status: Option<Instance>,
    /// This is used for the callback.
    pub carrier_id: Vec<u8>,
}

/// What a converter in this process implements.
pub trait ConverterTrait {
    fn convert(para: CallOutParameter) -> ConverterReturned;
}

/// How a converter is reached.
#[derive(Debug, Clone, Copy, PartialEq, Eq, Structural, PartialOrd, Ord, Hash)]
pub enum Protocol {
    LocalRust,
    Http,
    Https,
    /// The converter is made automatically; users cannot ask for it.
    Auto,
    BuiltIn,
}

impl Default for Protocol {
    fn default() -> (r: Self)
        ensures
            r == Protocol::LocalRust,
    {
        Protocol::LocalRust
    }
}

/// The text `s` in upper case, as `str::to_uppercase` gives it.
pub uninterp spec fn uppercase_of(s: Seq<char>) -> Seq<char>;

/// `s` with every character replaced by its upper case form
/// (`str::to_uppercase`). The result depends on the characters of `s`
/// alone.
#[verifier::external_body]
fn uppercase(s: &str) -> (r: String)
    ensures
        r@ == uppercase_of(s@),
{
    s.to_uppercase()
}

/// The protocol with the name `upper`, which is in upper case.
pub open spec fn protocol_named(upper: Seq<char>) -> Option<Protocol> {
    if upper == "LOCALRUST"@ {
        Some(Protocol::LocalRust)
    } else if upper == "HTTP"@ {
        Some(Protocol::Http)
    } else if upper == "HTTPS"@ {
        Some(Protocol::Https)
    } else if upper == "BUILTIN"@ {
        Some(Protocol::BuiltIn)
    } else {
        None
    }
}

/// The message for a name that is not a protocol's.
pub open spec fn unknown_protocol_message(s: Seq<char>) -> Seq<char> {
    "unknown protocol : "@ + s
}

impl Protocol {
    /// The protocol whose name in upper case is `upper`; `given` is the
    /// name as it was written, for the message.
    pub fn from_upper(upper: &str, given: &str) -> (r: Result<Protocol, NatureError>)
        ensures
            match r {
                Ok(p) => protocol_named(upper@) == Some(p),
                Err(e) => protocol_named(upper@) is None && e@ == ErrorText::VerifyError(
                    unknown_protocol_message(given@),
                ),
            },
    {
        if same_text(upper, "LOCALRUST") {
            Ok(Protocol::LocalRust)
        } else if same_text(upper, "HTTP") {
            Ok(Protocol::Http)
        } else if same_text(upper, "HTTPS") {
            Ok(Protocol::Https)
        } else if same_text(upper, "BUILTIN") {
            Ok(Protocol::BuiltIn)
        } else {
            let mut msg = "unknown protocol : ".to_owned();
            msg.append(given);
            Err(NatureError::VerifyError(msg))
        }
    }

    /// The protocol with the name `s`, in whatever case it is written.
    /// `Auto` cannot be asked for.
    pub fn parse(s: &str) -> (r: Result<Protocol, NatureError>)
        ensures
            match r {
                Ok(p) => protocol_named(uppercase_of(s@)) == Some(p),
                Err(e) => protocol_named(uppercase_of(s@)) is None && e@
                    == ErrorText::VerifyError(unknown_protocol_message(s@)),
            },
    {
        let cmp = uppercase(s);
        Self::from_upper(cmp.as_str(), s)
    }
}

impl FromStr for Protocol {
    type Err = NatureError;

    /// The protocol with the name `s`, in whatever case it is written, as
    /// [`Protocol::parse`] reads it.
    fn from_str(s: &str) -> (r: Result<Self, Self::Err>)
        ensures
            match r {
                Ok(p) => protocol_named(uppercase_of(s@)) == Some(p),
                Err(e) => protocol_named(uppercase_of(s@)) is None && e@
                    == ErrorText::VerifyError(unknown_protocol_message(s@)),
            },
    {
        Protocol::parse(s)
    }
}

/// Where a converter runs and how much of the work it gets.
#[derive(Debug, Clone, PartialEq, Eq, PartialOrd, Ord, Hash)]
pub struct Executor {
    pub protocol: Protocol,
    pub url: String,
    /// Executors of one group share the work by their weights.
    pub group: String,
    pub weight: u32,
}

/// An [`Executor`] as plain values.
pub struct ExecutorView {
    pub protocol: Protocol,
    pub url: Seq<char>,
    pub group: Seq<char>,
    pub weight: u32,
}

impl View for Executor {
    type V = ExecutorView;

    open spec fn view(&self) -> ExecutorView {
        ExecutorView {
            protocol: self.protocol,
            url: self.url@,
            group: self.group@,
            weight: self.weight,
        }
    }
}

impl Default for Executor {
    fn default() -> (r: Self)
        ensures
            r@ == (ExecutorView {
                protocol: Protocol::LocalRust,
                url: Seq::empty(),
                group: Seq::empty(),
                weight: 0,
            }),
    {
        Executor {
            protocol: Protocol::LocalRust,
            url: String::new(),
            group: String::new(),
            weight: 0,
        }
    }
}

impl Executor {
    /// An executor in this process, at `path`.
    pub fn for_local(path: &str) -> (r: Executor)
        ensures
            r@ == (ExecutorView {
                protocol: Protocol::LocalRust,
                url: path@,
                group: Seq::empty(),
                weight: 1,
            }),
    {
        Executor {
            protocol: Protocol::LocalRust,
            url: path.to_owned(),
            group: String::new(),
            weight: 1,
        }
    }

    /// The executor of a converter that is made automatically.
    pub fn new_auto() -> (r: Executor)
        ensures
            r@ == (ExecutorView {
                protocol: Protocol::Auto,
                url: Seq::empty(),
                group: Seq::empty(),
                weight: 1,
            }),
    {
        Executor {
            protocol: Protocol::Auto,
            url: String::new(),
            group: String::new(),
            weight: 1,
        }
    }
}

/// The share of the work within a group.
#[derive(Debug, Clone, PartialEq, Eq, PartialOrd, Ord)]
pub struct Weight {
    /// The weight is shared within this group.
    pub group: String,
    /// The share of the whole, which is the sum of the shares in the
    /// group.
    pub proportion: u32,
}

/// A share of the work whose group may be left open.
#[derive(Debug, Clone, PartialEq, Eq, PartialOrd, Ord)]
pub struct WeightWithOptionGroup {
    pub group: Option<String>,
    pub proportion: u32,
}

/// An executor as it is written down, with its weight left open.
#[derive(Debug, Clone, PartialEq, Eq, PartialOrd, Ord)]
pub struct ExecutorWithOptionWeight {
    pub protocol: Protocol,
    pub url: String,
    pub weight: Option<WeightWithOptionGroup>,
}

impl From<(ExecutorWithOptionWeight, String)> for Executor {
    /// The executor for what was written down: without a weight it gets
    /// the share 1 in the group given beside it; a weight without a group
    /// counts in that group too.
    fn from(e: (ExecutorWithOptionWeight, String)) -> (r: Self) {
        let group: String;
        let proportion: u32;
        match e.0.weight {
            None => {
                group = e.1;
                proportion = 1;
            },
            Some(se) => {
                match se.group {
                    None => group = e.1,
                    Some(g) => group = g,
                }
                proportion = se.proportion;
            },
        }
        Executor { protocol: e.0.protocol, url: e.0.url, group, weight: proportion }
    }
}

impl FromSpecImpl<(ExecutorWithOptionWeight, String)> for Executor {
    open spec fn obeys_from_spec() -> bool {
        true
    }

    open spec fn from_spec(e: (ExecutorWithOptionWeight, String)) -> Self {
        Executor {
            protocol: e.0.protocol,
            url: e.0.url,
            group: match e.0.weight {
                None => e.1,
                Some(se) => match se.group {
                    None => e.1,
                    Some(g) => g,
                },
            },
            weight: match e.0.weight {
                None => 1,
                Some(se) => se.proportion,
            },
        }
    }
}

/// A converter that an instance brings along.
#[derive(Debug, Clone, PartialEq)]
pub struct DynamicConverter {
    /// The target; only `Dynamic` and `Null` targets are supported.
    pub to: Option<String>,
    /// Where the converter runs.
    pub fun: Executor,
    /// Whether the downstream instance takes the id of the upstream one.
    pub use_upstream_id: bool,
    pub delay: i32,
}

impl Default for DynamicConverter {
    fn default() -> (r: Self)
        ensures
            r.to is None,
            r.fun@ == (ExecutorView {
                protocol: Protocol::LocalRust,
                url: Seq::empty(),
                group: Seq::empty(),
                weight: 0,
            }),
            !r.use_upstream_id,
            r.delay == 0,
    {
        DynamicConverter { to: None, fun: Executor::default(), use_upstream_id: false, delay: 0 }
    }
}

} // verus!
