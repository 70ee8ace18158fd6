//! A terminal user-interface core: panes with borders and padding are laid
//! out by a master/stack tiler, composited into a single character grid by a
//! first-writer-wins frame buffer, and emitted as one escape-code stream.

pub mod ansi;
pub mod border;
pub mod editor;
pub mod frame;
pub mod layout;
pub mod logmsg;
pub mod manager;
pub mod motions;
pub mod pane;
pub mod rows;
pub mod text;
