//! What the command line shows and does: lists, forms, the editor and the views.

pub mod catalog;
pub mod connect_wizard;
pub mod console;
pub mod display;
pub mod editor;
pub mod fields;
pub mod grid;
pub mod keys;
pub mod lists;
pub mod load_form;
pub mod ovpn_picker;
pub mod preview;
pub mod search_panel;
pub mod server_panel;
pub mod sheet;
pub mod startup_form;
pub mod state;
