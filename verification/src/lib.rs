//! Machine-code generation core: declarative instruction selection over a
//! pool of DAG nodes, and register liveness with queryable live ranges.

pub mod dce;
pub mod fx;
pub mod ir;
pub mod isel;
pub mod live_range;
pub mod live_reg_matrix;
pub mod liveness;
pub mod liveness_info;
pub mod machine;
pub mod mc_convert;
pub mod node;
pub mod pat_build;
pub mod pat_match;
pub mod program_point;
pub mod range_builder;
pub mod range_laws;
pub mod register;
pub mod select;
pub mod token;
pub mod types;
