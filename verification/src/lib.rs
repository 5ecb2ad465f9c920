//! Playback engine for combo charts: chart model, key bindings, schedule
//! planning and the semi-automatic segment machine.

pub mod chart;
pub mod input;
pub mod listener;
pub mod scheduler;
pub mod semi;
pub mod store;
pub mod text;
