//! Verified core of a real-time guitar-rig audio engine: looper transport,
//! loop editing, metronome state, endpoint resolution and route sizing.
pub mod looper;
pub mod audio_frame;
pub mod queue;
pub mod looper_op;
pub mod looper_status;
pub mod looper_bank;
pub mod loop_edit;
pub mod beat_position;
pub mod metronome_state;
pub mod route_cushion;
pub mod elastic;
pub mod chain;
pub mod endpoints;
pub mod segments;
pub mod block_toggle;
pub mod block_nodes;
pub mod callback_plan;
pub mod rig;
pub mod offline;
pub mod runtime_assembly;
pub mod port_groups;
pub mod rig_projection;
