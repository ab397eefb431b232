//! One expense record.

use vstd::prelude::*;

use crate::fixed_str::{cuts_cleanly, keep_bytes, FixedStr};

verus! {

/// Most expense records the tracker holds.
pub const MAX_EXPENSES: usize = 1000;

/// Most categories a monthly summary lists.
pub const MAX_UNIQUE_CATEGORIES_PER_MONTH: usize = 20;

/// Most bytes of a description as entered or loaded.
pub const MAX_DESCRIPTION_LENGTH: usize = 100;

/// Most bytes of a category as entered or loaded.
pub const MAX_CATEGORY_LENGTH: usize = 50;

/// Byte capacity of a record's description.
pub const DESC_BUF_CAP: usize = 104;

/// Byte capacity of a record's category.
pub const CAT_BUF_CAP: usize = 54;

/// What a record holds. The amount is the bit pattern of an IEEE-754 double;
/// the library carries it unchanged and does no arithmetic on it.
pub struct ExpenseView {
    pub year: i16,
    pub month: i8,
    pub day: i8,
    pub description: Seq<char>,
    pub amount: u64,
    pub category: Seq<char>,
}

/// One expense: its date, description, amount and category.
pub struct Expense {
    /// Bit pattern of the amount (an IEEE-754 double).
    pub amount: u64,
    pub description: FixedStr<DESC_BUF_CAP>,
    pub category: FixedStr<CAT_BUF_CAP>,
    pub year: i16,
    pub month: i8,
    pub day: i8,
}

/// The record `set_data` makes of its arguments: the date fields narrowed
/// to their widths (wrapping), of the texts the first bytes that fit the
/// field capacities.
pub open spec fn record_of(
    y: i32,
    m: i32,
    d: i32,
    desc: Seq<char>,
    amount: u64,
    cat: Seq<char>,
) -> ExpenseView {
    ExpenseView {
        year: y as i16,
        month: m as i8,
        day: d as i8,
        description: keep_bytes(desc, DESC_BUF_CAP as int),
        amount,
        category: keep_bytes(cat, CAT_BUF_CAP as int),
    }
}

impl Expense {
    pub open spec fn view(&self) -> ExpenseView {
        ExpenseView {
            year: self.year,
            month: self.month,
            day: self.day,
            description: self.description@,
            amount: self.amount,
            category: self.category@,
        }
    }

    /// An empty record: zero date and amount bits, empty texts.
    pub fn new() -> (e: Self)
        ensures
            e@ == (ExpenseView {
                year: 0,
                month: 0,
                day: 0,
                description: Seq::empty(),
                amount: 0,
                category: Seq::empty(),
            }),
    {
        Expense {
            year: 0,
            month: 0,
            day: 0,
            description: FixedStr::new(),
            amount: 0,
            category: FixedStr::new(),
        }
    }

    /// Overwrites every field. Of the texts, the bytes that fit the field
    /// capacities are kept; they must be whole characters.
    pub fn set_data(&mut self, y: i32, m: i32, d: i32, desc: &str, amt: u64, cat: &str)
        requires
            cuts_cleanly(desc@, DESC_BUF_CAP as int),
            cuts_cleanly(cat@, CAT_BUF_CAP as int),
        ensures
            final(self)@ == record_of(y, m, d, desc@, amt, cat@),
    {
        self.year = y as i16;
        self.month = m as i8;
        self.day = d as i8;
        self.description = FixedStr::from_str(desc);
        self.amount = amt;
        self.category = FixedStr::from_str(cat);
    }

    /// A copy of the record.
    pub fn clone(&self) -> (e: Self)
        ensures
            e@ == self@,
    {
        Expense {
            year: self.year,
            month: self.month,
            day: self.day,
            description: self.description.clone(),
            amount: self.amount,
            category: self.category.clone(),
        }
    }
}

/// A category of a monthly summary with the records that fall in it.
/// The amounts are doubles the library does not add: its members are the
/// indices of the records whose amounts make up its total.
pub struct CategorySum {
    pub name: FixedStr<CAT_BUF_CAP>,
    pub members: Vec<usize>,
}

/// What a category of a summary holds.
pub struct CategoryGroup {
    pub name: Seq<char>,
    pub members: Seq<usize>,
}

impl CategorySum {
    pub open spec fn view(&self) -> CategoryGroup {
        CategoryGroup { name: self.name@, members: self.members@ }
    }

    /// A category with an empty name and no records.
    pub fn new() -> (c: Self)
        ensures
            c@ == (CategoryGroup { name: Seq::empty(), members: Seq::empty() }),
    {
        CategorySum { name: FixedStr::new(), members: Vec::new() }
    }
}

} // verus!
