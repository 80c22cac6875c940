//! Reads dice rolls out of chat messages.
//!
//! A roll is shown in a message as a small table drawn with box characters and
//! wrapped in a code fence. [`parse_roll`] turns the text of one message into
//! the rolls it shows, or into `None` when the message is anything else.
//!
//! Every function comes with a contract over a model of the text as a
//! sequence of characters. The modules, from the single character up to the
//! whole message:
//!
//! - [`glyph`], [`scan`], [`number`]: characters, runs of them, and decimal
//!   numbers;
//! - [`roll`]: what is read out of a table and a message;
//! - [`table`]: the grammar of one table;
//! - [`fence`]: the fences that set the tables of a message apart;
//! - [`parser`]: the whole message;
//! - [`render`], [`reading`], [`laws`]: how a table is drawn, the proof that
//!   what is drawn is read back, and what follows for every message;
//! - [`record`], [`history`]: the record that is kept of a message, and the
//!   walk through a channel that gathers the messages.

pub mod glyph;
pub mod scan;
pub mod number;
pub mod roll;
pub mod table;
pub mod fence;
pub mod parser;
pub mod render;
pub mod reading;
pub mod laws;
pub mod record;
pub mod history;

pub use parser::parse_roll;
pub use record::{MessageRecord, RecordError};
pub use roll::{DiceExpression, DiceRollInstance, DiceRollRequest};
