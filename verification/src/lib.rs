//! Bookkeeping for a student's daily expenses: expense records with a date,
//! description, amount and category; listing them by period; monthly
//! summaries by category; automatic monthly settlement; and the plain-text
//! data files that keep them between runs.
//!
//! Amounts are IEEE-754 doubles. The library carries them as bit patterns and
//! does no arithmetic on them: reading, adding and printing amounts is left to
//! the caller, which the summaries tell which records to add up.

pub mod dialog;
pub mod expense;
pub mod fixed_str;
pub mod number;
pub mod report;
pub mod settlement;
pub mod store;
pub mod text;
pub mod tracker;

pub use fixed_str::FixedStr;
pub use report::{write_expense_header, write_expense_header_with_index};
pub use text::{read_int_from, read_line_from};
