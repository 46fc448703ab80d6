//! The logic of a start menu: which applications it shows, in what order and under which category,
//! what it starts, how it opens and closes, and the dialog that it asks for confirmation with.
//!
//! - [`text`]: operations on characters and strings.
//! - [`category`]: the categories, and the one that an application goes to.
//! - [`desktop`]: desktop files and the applications that they describe.
//! - [`listing`]: the order of the applications, and the removal of repeats.
//! - [`sequence`]: lists in another order, and what a rule keeps of a list.
//! - [`launch`]: command lines.
//! - [`menu`]: the rows of the menu, its flyouts and its window.
//! - [`confirm`]: the dialog with its countdown.
//! - [`toggle`]: the arguments of the program, and what a call does to the menu.

pub mod category;
pub mod confirm;
pub mod desktop;
pub mod launch;
pub mod listing;
pub mod menu;
pub mod sequence;
pub mod text;
pub mod toggle;
