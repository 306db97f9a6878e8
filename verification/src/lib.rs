//! LaunchCast: wire format, GPS sentence handling and the ground
//! station's decision logic for a model-rocket telemetry link.
use vstd::prelude::*;

pub mod buttons;
pub mod civil;
pub mod control;
pub mod cmdlog;
pub mod epoch;
pub mod flight_index;
pub mod flight_screen;
pub mod frame;
pub mod glyph;
pub mod ground_nmea;
pub mod hold_tracker;
pub mod icons;
pub mod link;
pub mod link_state;
pub mod nmea;
pub mod nogo;
pub mod packet;
pub mod radio_frame;
pub mod screen;
pub mod screen_text;
pub mod sessions;
pub mod sharp_display;
pub mod summary_request;
pub mod units;
pub mod window;

verus! {

} // verus!
