//! Part lookup for LCSC/JLCPCB components: resolving free-form input to a
//! canonical part code and flattening the vendor's JSON description of a part
//! into an ordered table of labelled values.
//!
//! - `extract` resolves a part code or the address of a part's page.
//! - `lookup` says what to ask the vendor for and what its reply comes to.
//! - `normalize` builds the table of a part from the vendor's JSON, and
//!   `layout` proves what holds of every such table.
//! - `table` is the ordered table itself; `json` is the JSON it is read from.
//! - `state` is the state of the application that shows the table.
//! - `text` holds the string operations that the others share.

pub mod error;
pub mod extract;
pub mod json;
pub mod layout;
pub mod lookup;
pub mod normalize;
pub mod state;
pub mod table;
pub mod text;
