//! Core logic of a small UI toolkit: image buffers and their cache,
//! HTTP request/response records, the state and event routing of views,
//! caption-bar buttons, dock drag and drop, and the example click counter.

pub mod image;
pub mod live_id;
pub mod network;
pub mod widget;
pub mod view;
pub mod desktop_button;
pub mod dock;
pub mod counter;
