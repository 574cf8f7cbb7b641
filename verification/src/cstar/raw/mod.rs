//! Native assembly and firmware backends.

pub mod alloc_laws;
pub mod arm;
pub mod arm_calls;
pub mod arm_flow;
pub mod arm_laws;
pub mod arm_model;
pub mod arm_run;
pub mod common;
pub mod debuginfo;
pub mod driver;
pub mod emitter;
pub mod emitter_laws;
pub mod firmware;
pub mod flow;
pub mod frames;
pub mod limits;
pub mod lines;
pub mod model;
pub mod regalloc;
pub mod support;
pub mod thumb;
pub mod thumb_run;
pub mod toolchain;
pub mod x86;
pub mod x86_calls;
pub mod x86_flow;
pub mod x86_laws;
pub mod x86_model;
pub mod x86_run;
