//! Compiles declarative traffic-filtering rules into the match conditions of a
//! packet-filtering engine and keeps track of the filters that were installed.

pub mod text;
pub mod addr;
pub mod network;
pub mod rule;
pub mod layer;
pub mod condition;
pub mod backend;
pub mod engine;
pub mod hops;
pub mod utils;

pub use addr::{IpAddr, Ipv4Addr, Ipv6Addr};
pub use backend::{Backend, SessionHandle, SimBackend, SubmitFailed};
pub use condition::{to_wide_string, Condition, ConditionField, ConditionValue, EnforcementUnit};
pub use engine::{EngineError, EngineState, WfpController};
pub use layer::{get_layer_name, Layer, GUID};
pub use network::{CidrError, IpNetwork};
pub use rule::{Direction, FilterAction, FilterRule, Protocol};
