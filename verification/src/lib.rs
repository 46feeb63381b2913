//! Link-time stack placement.
//!
//! The stack of an embedded image is moved so that an overflow runs into a
//! page with other permissions, or into the data sections, and is never
//! silent. Nothing is added to the image for it: the image is linked once,
//! the sizes of its sections are read, and it is linked again with the
//! symbols of the stack defined.
//!
//! - `grammar` and `extract` read the section report of the first link.
//! - `align` and `placement` compute where the stack begins.
//! - `decimal` and `defsym` write the arguments that define the symbols.
//! - `orchestrator` decides which tool runs next, and with which arguments.
//! - `error` names what can go wrong, and `report` holds what was read.

pub mod align;
pub mod decimal;
pub mod defsym;
pub mod error;
pub mod extract;
pub mod grammar;
pub mod orchestrator;
pub mod placement;
pub mod report;
