//! The core of a credential picker: it turns the fields of a vault record into
//! an aligned text menu, and the line that the picker hands back into the
//! value to copy.
//!
//! Nothing here starts a process or touches the clipboard. The caller runs the
//! vault manager, the picker and the clipboard tool, and hands what they
//! produce to the functions of this library:
//!
//! * [`item`] says which fields of a record are shown, in what order, and
//!   what stands in the menu for each; [`item_description`] does the same for
//!   the list of records.
//! * [`table`] pads and joins the cells of a table; [`wofi`] and
//!   [`wofi_select`] write its rows as menu lines that carry their row number,
//!   and read the row number back off a line.
//! * [`picker`] orders the steps of one run of the picker and says what each
//!   outcome means.
//! * [`session`] finds the session token in the environment of the user's
//!   session.
//! * [`text`] holds what they share: trimming, padding, decimal numbers,
//!   searching.
//! * [`error`] lists the failures.
//!
//! Every function states what it returns over sequences of characters, and the
//! laws that tie the functions together are proved next to them: a menu line
//! always reads back as the row it was written for, the cells of a column
//! stand at the same place in every line, and a choice gives back the true
//! value of a field, never the mask shown for it.

pub mod error;
pub mod item;
pub mod item_description;
pub mod picker;
pub mod session;
pub mod table;
pub mod text;
pub mod wofi;
pub mod wofi_select;
