//! Shared definitions for describing business metadata and the states that
//! the instances of a metadata may carry.

pub mod callback;
pub mod check_list;
pub mod check_proofs;
pub mod converter;
pub mod error;
pub mod exclusion;
pub mod fetch_condition;
pub mod from_instance;
pub mod id_tool;
pub mod instance;
pub mod instance_para;
pub mod instance_state;
pub mod loop_context;
pub mod meta;
pub mod meta_setting;
pub mod meta_state;
pub mod meta_string;
pub mod meta_type;
pub mod parallel_batch_instance;
pub mod query;
pub mod serde_tool;
pub mod serial_batch_instance;
pub mod settings;
pub mod target_state;
pub mod text;
pub mod text_map;
pub mod thing;
pub mod thing_type;

pub use crate::callback::DelayedInstances;
pub use crate::check_list::{CheckList, CheckType, StatePath, Verdict};
pub use crate::converter::{
    CallOutParameter, ConverterParameter, ConverterReturned, ConverterTrait, DynamicConverter,
    Executor, ExecutorWithOptionWeight, Protocol, Weight, WeightWithOptionGroup,
};
pub use crate::error::NatureError;
pub use crate::fetch_condition::FetchCondition;
pub use crate::from_instance::FromInstance;
pub use crate::id_tool::{
    generate_id, id_from_hex_str, u128_to_vec_u8, vec_to_hex_string, vec_to_u128,
};
pub use crate::instance::{
    BizObject, Context, Instance, SelfRouteInstance, CONTEXT_TARGET_INSTANCE_ID,
};
pub use crate::instance_para::{get_para_and_key_from_para, make_key_and_para};
pub use crate::instance_state::{InstanceState, InstanceStates};
pub use crate::loop_context::LoopContext;
pub use crate::meta::{Meta, META_AND_VERSION_SEPARATOR, PATH_SEPARATOR};
pub use crate::meta_setting::MetaSetting;
pub use crate::meta_state::{State, States};
pub use crate::meta_string::MetaString;
pub use crate::meta_type::{MetaType, PART_SEPARATOR};
pub use crate::parallel_batch_instance::TaskForParallel;
pub use crate::query::{IDAndFrom, KeyCondition, ParaForQueryByID, QueryByMeta};
pub use crate::serde_tool::{
    is_default_meta, is_false, is_one, is_one_u32, is_zero, one, one_u32,
};
pub use crate::serial_batch_instance::TaskForSerial;
pub use crate::settings::{
    default_para_separator, is_default_para_separator, SEPARATOR_INS_KEY, SEPARATOR_INS_PARA,
};
pub use crate::target_state::TargetState;
pub use crate::text_map::{TextEntry, TextMap, TextSet};
pub use crate::thing::Thing;
pub use crate::thing_type::ThingType;
