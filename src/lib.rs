//! Reactive row models, the repeater that materializes one component per
//! row (all rows, or the window of a scrolling list view), the expression
//! grammar of the markup language, the names and errors of the interpreter
//! interface, and the plain data types that describe embedded resources.

pub mod embedded_resources;
pub mod model;
pub mod parser;
pub mod expressions;
pub mod interpreter;
pub mod listview;
pub mod repeater;
