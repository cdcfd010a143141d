//! Control-flow graphs of functions and the ownership dataflow analysis
//! over them.

pub mod state;
pub mod dataflow;
pub mod engine;
pub mod builder;
pub mod borrow_laws;

pub use self::dataflow::{BlockId, Cfg, CfgBlock, CfgInstruction, FunctionCfg, OwnershipTransfer};
pub use self::engine::{DataflowEngine, DataflowResult};
pub use self::builder::build_cfgs_from_semantic_program;
