//! The core of a terminal process viewer: the process tree, the table that is
//! drawn from it, the search over that table, and the state machine that turns
//! key presses and fresh measurements into the next screen.

// Numbers, texts and orders.
pub mod number;
pub mod order;
pub mod text;

// The processes and their tree.
pub mod tree;
pub mod process;
pub mod lineage;
pub mod rows;
pub mod system;

// The state and its steps.
pub mod search;
pub mod table;
pub mod effect;
pub mod state;
pub mod transition;
pub mod event;
pub mod laws;
pub mod outcomes;

// The screen and the program around it.
pub mod style;
pub mod layout;
pub mod cpu;
pub mod view;
pub mod drawing;
pub mod app;
