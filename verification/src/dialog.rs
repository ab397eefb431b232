//! The decisions of the interactive dialogs. Each dialog is a state that
//! takes one input line at a time and says what to do next; reading and
//! printing are left to the caller.

use vstd::prelude::*;

use crate::expense::{
    record_of, ExpenseView, CAT_BUF_CAP, DESC_BUF_CAP, MAX_CATEGORY_LENGTH, MAX_DESCRIPTION_LENGTH,
    MAX_EXPENSES,
};
use crate::fixed_str::lemma_keep_bytes_fits;
use crate::number::{int_text, lemma_parse_int_text, parse_i32, parse_i32_spec};
use crate::text::{
    fit_chars, input_int, lemma_fit_chars, input_line, is_yes, read_int_from, read_line_from, same_text,
    starts_with_yes, trim, trim_chars, trim_end_chars, trim_start_chars, truncate_text, utf8,
};
use crate::tracker::{ExpenseTracker, Period};

verus! {

/// An entry of the main menu.
#[derive(PartialEq, Eq, Structural, Clone, Copy)]
pub enum MenuChoice {
    AddExpense,
    DisplayAll,
    MonthlySummary,
    ListByPeriod,
    DeleteExpense,
    SaveAndExit,
    Invalid,
}

/// The entry a main-menu answer picks: the line read as an integer, 0 when
/// it is not one; 1 to 6 pick the entries in order, anything else is
/// invalid.
pub open spec fn menu_choice_of(answer: Option<i32>) -> MenuChoice {
    let c = match answer {
        Some(v) => v,
        None => 0i32,
    };
    if c == 1 {
        MenuChoice::AddExpense
    } else if c == 2 {
        MenuChoice::DisplayAll
    } else if c == 3 {
        MenuChoice::MonthlySummary
    } else if c == 4 {
        MenuChoice::ListByPeriod
    } else if c == 5 {
        MenuChoice::DeleteExpense
    } else if c == 6 {
        MenuChoice::SaveAndExit
    } else {
        MenuChoice::Invalid
    }
}

/// The main menu: answers 1 to 6 pick adding, showing all, the monthly
/// summary, listing by period, deleting, and saving and leaving, in that
/// order; any other number, and an answer that is no number, is invalid.
pub proof fn lemma_menu_answers(answer: Option<i32>)
    ensures
        menu_choice_of(Some(1i32)) == MenuChoice::AddExpense,
        menu_choice_of(Some(2i32)) == MenuChoice::DisplayAll,
        menu_choice_of(Some(3i32)) == MenuChoice::MonthlySummary,
        menu_choice_of(Some(4i32)) == MenuChoice::ListByPeriod,
        menu_choice_of(Some(5i32)) == MenuChoice::DeleteExpense,
        menu_choice_of(Some(6i32)) == MenuChoice::SaveAndExit,
        match answer {
            Some(v) => (v < 1 || v > 6) ==> menu_choice_of(answer) == MenuChoice::Invalid,
            None => menu_choice_of(answer) == MenuChoice::Invalid,
        },
{
}

/// The main-menu entry an input line picks.
pub fn main_menu_choice(raw: &str) -> (c: MenuChoice)
    ensures
        c == menu_choice_of(input_int(raw@)),
{
    let c = match read_int_from(raw) {
        Some(v) => v,
        None => 0,
    };
    if c == 1 {
        MenuChoice::AddExpense
    } else if c == 2 {
        MenuChoice::DisplayAll
    } else if c == 3 {
        MenuChoice::MonthlySummary
    } else if c == 4 {
        MenuChoice::ListByPeriod
    } else if c == 5 {
        MenuChoice::DeleteExpense
    } else if c == 6 {
        MenuChoice::SaveAndExit
    } else {
        MenuChoice::Invalid
    }
}

/// Where the monthly-summary dialog stands.
#[derive(PartialEq, Eq, Structural, Clone, Copy)]
pub enum SummaryStage {
    Year,
    Month(i32),
    Finished,
}

/// What the monthly-summary dialog does after an answer.
#[derive(PartialEq, Eq, Structural, Clone, Copy)]
pub enum SummaryStep {
    /// The answer was not accepted: ask the same question again.
    AskAgain,
    Cancelled,
    AskMonth,
    /// Show the summary of this year and month.
    Report(i32, i32),
}

/// The monthly-summary dialog: the year (`-1` cancels), then the month
/// (`-1` cancels, otherwise 1 to 12).
pub open spec fn summary_transition(stage: SummaryStage, answer: Option<i32>) -> (
    SummaryStage,
    SummaryStep,
) {
    match stage {
        SummaryStage::Year => match answer {
            Some(v) => if v == -1 {
                (SummaryStage::Finished, SummaryStep::Cancelled)
            } else {
                (SummaryStage::Month(v), SummaryStep::AskMonth)
            },
            None => (SummaryStage::Year, SummaryStep::AskAgain),
        },
        SummaryStage::Month(y) => match answer {
            Some(v) => if v == -1 {
                (SummaryStage::Finished, SummaryStep::Cancelled)
            } else if 1 <= v <= 12 {
                (SummaryStage::Finished, SummaryStep::Report(y, v))
            } else {
                (SummaryStage::Month(y), SummaryStep::AskAgain)
            },
            None => (SummaryStage::Month(y), SummaryStep::AskAgain),
        },
        SummaryStage::Finished => (SummaryStage::Finished, SummaryStep::Cancelled),
    }
}

/// The monthly-summary dialog.
pub struct SummaryDialog {
    pub stage: SummaryStage,
}

impl SummaryDialog {
    /// The dialog, asking for the year.
    pub fn new() -> (d: Self)
        ensures
            d.stage == SummaryStage::Year,
    {
        SummaryDialog { stage: SummaryStage::Year }
    }

    /// Takes an answer (an input line).
    pub fn step(&mut self, raw: &str) -> (r: SummaryStep)
        requires
            old(self).stage != SummaryStage::Finished,
        ensures
            (final(self).stage, r) == summary_transition(old(self).stage, input_int(raw@)),
    {
        let answer = read_int_from(raw);
        match self.stage {
            SummaryStage::Year => match answer {
                Some(v) => {
                    if v == -1 {
                        self.stage = SummaryStage::Finished;
                        SummaryStep::Cancelled
                    } else {
                        self.stage = SummaryStage::Month(v);
                        SummaryStep::AskMonth
                    }
                },
                None => SummaryStep::AskAgain,
            },
            SummaryStage::Month(y) => match answer {
                Some(v) => {
                    if v == -1 {
                        self.stage = SummaryStage::Finished;
                        SummaryStep::Cancelled
                    } else if 1 <= v && v <= 12 {
                        self.stage = SummaryStage::Finished;
                        SummaryStep::Report(y, v)
                    } else {
                        SummaryStep::AskAgain
                    }
                },
                None => SummaryStep::AskAgain,
            },
            SummaryStage::Finished => SummaryStep::Cancelled,
        }
    }
}

/// What to list records by.
#[derive(PartialEq, Eq, Structural, Clone, Copy)]
pub enum PeriodKind {
    ByYear,
    ByMonth,
    ByDay,
}

/// Where the list-by-period dialog stands.
#[derive(PartialEq, Eq, Structural, Clone, Copy)]
pub enum PeriodStage {
    Menu,
    Year(PeriodKind),
    Month(PeriodKind, i32),
    Day(i32, i32),
    Finished,
}

/// Running the monthly-summary dialog: at the year question `-1` cancels,
/// any other number is taken as the year, and an answer that is no number
/// is asked again; at the month question of year `y`, every month from 1 to
/// 12 finishes with the report of `y` and that month, `-1` cancels, and any
/// other answer is asked again.
pub proof fn lemma_summary_answers(y: i32, answer: Option<i32>)
    ensures
        match answer {
            Some(v) => (1 <= v <= 12 ==> summary_transition(SummaryStage::Month(y), answer) == (
                SummaryStage::Finished,
                SummaryStep::Report(y, v),
            )) && (v == -1 ==> summary_transition(SummaryStage::Month(y), answer) == (
                SummaryStage::Finished,
                SummaryStep::Cancelled,
            )) && (v != -1 && (v < 1 || v > 12) ==> summary_transition(
                SummaryStage::Month(y),
                answer,
            ) == (SummaryStage::Month(y), SummaryStep::AskAgain)) && (v == -1
                ==> summary_transition(SummaryStage::Year, answer) == (
                SummaryStage::Finished,
                SummaryStep::Cancelled,
            )) && (v != -1 ==> summary_transition(SummaryStage::Year, answer) == (
                SummaryStage::Month(v),
                SummaryStep::AskMonth,
            )),
            None => summary_transition(SummaryStage::Month(y), answer) == (
                SummaryStage::Month(y),
                SummaryStep::AskAgain,
            ) && summary_transition(SummaryStage::Year, answer) == (
                SummaryStage::Year,
                SummaryStep::AskAgain,
            ),
        },
{
}

/// Two answers that read as a year other than `-1` and a month from 1 to 12
/// take the summary dialog to the report of that year and month.
pub proof fn lemma_summary_run(first: Seq<char>, second: Seq<char>, y: i32, m: i32)
    requires
        input_int(first) == Some(y),
        y != -1,
        input_int(second) == Some(m),
        1 <= m <= 12,
    ensures
        summary_transition(SummaryStage::Year, input_int(first)) == (
            SummaryStage::Month(y),
            SummaryStep::AskMonth,
        ),
        summary_transition(SummaryStage::Month(y), input_int(second)) == (
            SummaryStage::Finished,
            SummaryStep::Report(y, m),
        ),
{
    lemma_summary_answers(y, input_int(first));
    lemma_summary_answers(y, input_int(second));
}

/// What the list-by-period dialog does after an answer.
#[derive(PartialEq, Eq, Structural, Clone, Copy)]
pub enum PeriodStep {
    /// The menu answer was not an entry: show the menu again.
    InvalidChoice,
    /// The answer was not accepted: ask the same question again.
    AskAgain,
    AskYear,
    AskMonth,
    AskDay,
    /// A 0 was answered: back to the menu.
    Back,
    /// List the records of the period, then show the menu again.
    List(Period),
    /// Leave to the main menu.
    Exit,
}

/// The list-by-period dialog: a menu (1 by year, 2 by month, 3 by day,
/// 0 back; an answer that is not a number counts as -1), then the year,
/// month and day as the choice needs them; a 0 goes back to the menu, a
/// month must be 1 to 12 and a day 1 to 31.
pub open spec fn period_transition(stage: PeriodStage, answer: Option<i32>) -> (
    PeriodStage,
    PeriodStep,
) {
    match stage {
        PeriodStage::Menu => {
            let c = match answer {
                Some(v) => v,
                None => -1i32,
            };
            if c == 1 {
                (PeriodStage::Year(PeriodKind::ByYear), PeriodStep::AskYear)
            } else if c == 2 {
                (PeriodStage::Year(PeriodKind::ByMonth), PeriodStep::AskYear)
            } else if c == 3 {
                (PeriodStage::Year(PeriodKind::ByDay), PeriodStep::AskYear)
            } else if c == 0 {
                (PeriodStage::Finished, PeriodStep::Exit)
            } else {
                (PeriodStage::Menu, PeriodStep::InvalidChoice)
            }
        },
        PeriodStage::Year(k) => match answer {
            None => (PeriodStage::Year(k), PeriodStep::AskAgain),
            Some(y) => if y == 0 {
                (PeriodStage::Menu, PeriodStep::Back)
            } else if k == PeriodKind::ByYear {
                (PeriodStage::Menu, PeriodStep::List(Period::Year(y)))
            } else {
                (PeriodStage::Month(k, y), PeriodStep::AskMonth)
            },
        },
        PeriodStage::Month(k, y) => match answer {
            Some(m) => if m == 0 {
                (PeriodStage::Menu, PeriodStep::Back)
            } else if 1 <= m <= 12 {
                if k == PeriodKind::ByDay {
                    (PeriodStage::Day(y, m), PeriodStep::AskDay)
                } else {
                    (PeriodStage::Menu, PeriodStep::List(Period::Month(y, m)))
                }
            } else {
                (PeriodStage::Month(k, y), PeriodStep::AskAgain)
            },
            None => (PeriodStage::Month(k, y), PeriodStep::AskAgain),
        },
        PeriodStage::Day(y, m) => match answer {
            Some(d) => if d == 0 {
                (PeriodStage::Menu, PeriodStep::Back)
            } else if 1 <= d <= 31 {
                (PeriodStage::Menu, PeriodStep::List(Period::Day(y, m, d)))
            } else {
                (PeriodStage::Day(y, m), PeriodStep::AskAgain)
            },
            None => (PeriodStage::Day(y, m), PeriodStep::AskAgain),
        },
        PeriodStage::Finished => (PeriodStage::Finished, PeriodStep::Exit),
    }
}

/// The list-by-period dialog.
pub struct PeriodDialog {
    pub stage: PeriodStage,
}

impl PeriodDialog {
    /// The dialog, showing its menu.
    pub fn new() -> (d: Self)
        ensures
            d.stage == PeriodStage::Menu,
    {
        PeriodDialog { stage: PeriodStage::Menu }
    }

    /// Takes an answer (an input line).
    pub fn step(&mut self, raw: &str) -> (r: PeriodStep)
        requires
            old(self).stage != PeriodStage::Finished,
        ensures
            (final(self).stage, r) == period_transition(old(self).stage, input_int(raw@)),
    {
        let answer = read_int_from(raw);
        match self.stage {
            PeriodStage::Menu => {
                let c = match answer {
                    Some(v) => v,
                    None => -1,
                };
                if c == 1 {
                    self.stage = PeriodStage::Year(PeriodKind::ByYear);
                    PeriodStep::AskYear
                } else if c == 2 {
                    self.stage = PeriodStage::Year(PeriodKind::ByMonth);
                    PeriodStep::AskYear
                } else if c == 3 {
                    self.stage = PeriodStage::Year(PeriodKind::ByDay);
                    PeriodStep::AskYear
                } else if c == 0 {
                    self.stage = PeriodStage::Finished;
                    PeriodStep::Exit
                } else {
                    PeriodStep::InvalidChoice
                }
            },
            PeriodStage::Year(k) => match answer {
                None => PeriodStep::AskAgain,
                Some(y) => {
                    if y == 0 {
                        self.stage = PeriodStage::Menu;
                        PeriodStep::Back
                    } else if k == PeriodKind::ByYear {
                        self.stage = PeriodStage::Menu;
                        PeriodStep::List(Period::Year(y))
                    } else {
                        self.stage = PeriodStage::Month(k, y);
                        PeriodStep::AskMonth
                    }
                },
            },
            PeriodStage::Month(k, y) => match answer {
                Some(m) => {
                    if m == 0 {
                        self.stage = PeriodStage::Menu;
                        PeriodStep::Back
                    } else if 1 <= m && m <= 12 {
                        if k == PeriodKind::ByDay {
                            self.stage = PeriodStage::Day(y, m);
                            PeriodStep::AskDay
                        } else {
                            self.stage = PeriodStage::Menu;
                            PeriodStep::List(Period::Month(y, m))
                        }
                    } else {
                        PeriodStep::AskAgain
                    }
                },
                None => PeriodStep::AskAgain,
            },
            PeriodStage::Day(y, m) => match answer {
                Some(d) => {
                    if d == 0 {
                        self.stage = PeriodStage::Menu;
                        PeriodStep::Back
                    } else if 1 <= d && d <= 31 {
                        self.stage = PeriodStage::Menu;
                        PeriodStep::List(Period::Day(y, m, d))
                    } else {
                        PeriodStep::AskAgain
                    }
                },
                None => PeriodStep::AskAgain,
            },
            PeriodStage::Finished => PeriodStep::Exit,
        }
    }
}

/// Answers of the list-by-period dialog: at the year question a 0 goes
/// back, any other year lists that year for a listing by year and asks for
/// the month otherwise; at the month question a 0 goes back, every month
/// from 1 to 12 lists that month (or asks for the day, for a listing by
/// day) and any other answer is asked again; at the day question a 0 goes
/// back, every day from 1 to 31 lists that day and any other answer is
/// asked again.
pub proof fn lemma_period_answers(k: PeriodKind, y: i32, m: i32, answer: Option<i32>)
    ensures
        match answer {
            Some(v) => (v == 0 ==> period_transition(PeriodStage::Year(k), answer) == (
                PeriodStage::Menu,
                PeriodStep::Back,
            ) && period_transition(PeriodStage::Month(k, y), answer) == (
                PeriodStage::Menu,
                PeriodStep::Back,
            ) && period_transition(PeriodStage::Day(y, m), answer) == (
                PeriodStage::Menu,
                PeriodStep::Back,
            )) && (v != 0 && k == PeriodKind::ByYear ==> period_transition(
                PeriodStage::Year(k),
                answer,
            ) == (PeriodStage::Menu, PeriodStep::List(Period::Year(v)))) && (v != 0 && k
                != PeriodKind::ByYear ==> period_transition(PeriodStage::Year(k), answer) == (
                PeriodStage::Month(k, v),
                PeriodStep::AskMonth,
            )) && (1 <= v <= 12 && k == PeriodKind::ByDay ==> period_transition(
                PeriodStage::Month(k, y),
                answer,
            ) == (PeriodStage::Day(y, v), PeriodStep::AskDay)) && (1 <= v <= 12 && k
                != PeriodKind::ByDay ==> period_transition(PeriodStage::Month(k, y), answer) == (
                PeriodStage::Menu,
                PeriodStep::List(Period::Month(y, v)),
            )) && ((v < 0 || v > 12) ==> period_transition(PeriodStage::Month(k, y), answer) == (
                PeriodStage::Month(k, y),
                PeriodStep::AskAgain,
            )) && (1 <= v <= 31 ==> period_transition(PeriodStage::Day(y, m), answer) == (
                PeriodStage::Menu,
                PeriodStep::List(Period::Day(y, m, v)),
            )) && ((v < 0 || v > 31) ==> period_transition(PeriodStage::Day(y, m), answer) == (
                PeriodStage::Day(y, m),
                PeriodStep::AskAgain,
            )),
            None => period_transition(PeriodStage::Year(k), answer) == (
                PeriodStage::Year(k),
                PeriodStep::AskAgain,
            ) && period_transition(PeriodStage::Month(k, y), answer) == (
                PeriodStage::Month(k, y),
                PeriodStep::AskAgain,
            ) && period_transition(PeriodStage::Day(y, m), answer) == (
                PeriodStage::Day(y, m),
                PeriodStep::AskAgain,
            ),
        },
{
}

/// Where the delete dialog stands.
#[derive(PartialEq, Eq, Structural, Clone, Copy)]
pub enum DeleteStage {
    ChooseRecord,
    FirstConfirm(usize),
    SecondConfirm(usize),
    Finished,
}

/// What the delete dialog does after an answer.
#[derive(PartialEq, Eq, Structural, Clone, Copy)]
pub enum DeleteStep {
    /// The number was not accepted: ask again.
    AskAgain,
    /// Cancelled before the second confirmation.
    Cancelled,
    /// Show the record at this index and ask to confirm.
    ConfirmFirst(usize),
    /// Warn that deleting cannot be undone and ask once more.
    ConfirmSecond,
    /// Not confirmed the second time.
    CancelledAtSecond,
    /// The record was deleted; the data file is to be saved.
    Deleted,
}

/// The delete dialog over `count` records: a record number (0 cancels,
/// otherwise 1 to `count`), then two answers starting with `y` or `Y`.
pub open spec fn delete_transition(stage: DeleteStage, count: nat, raw: Seq<char>) -> (
    DeleteStage,
    DeleteStep,
) {
    match stage {
        DeleteStage::ChooseRecord => match input_int(raw) {
            Some(n) => if 0 <= n <= count {
                if n == 0 {
                    (DeleteStage::Finished, DeleteStep::Cancelled)
                } else {
                    (
                        DeleteStage::FirstConfirm((n - 1) as usize),
                        DeleteStep::ConfirmFirst((n - 1) as usize),
                    )
                }
            } else {
                (DeleteStage::ChooseRecord, DeleteStep::AskAgain)
            },
            None => (DeleteStage::ChooseRecord, DeleteStep::AskAgain),
        },
        DeleteStage::FirstConfirm(i) => if is_yes(utf8(input_line(raw))) {
            (DeleteStage::SecondConfirm(i), DeleteStep::ConfirmSecond)
        } else {
            (DeleteStage::Finished, DeleteStep::Cancelled)
        },
        DeleteStage::SecondConfirm(i) => if is_yes(utf8(input_line(raw))) {
            (DeleteStage::Finished, DeleteStep::Deleted)
        } else {
            (DeleteStage::Finished, DeleteStep::CancelledAtSecond)
        },
        DeleteStage::Finished => (DeleteStage::Finished, DeleteStep::Cancelled),
    }
}

/// The record index a delete stage holds onto lies within `count` records.
pub open spec fn delete_stage_within(stage: DeleteStage, count: nat) -> bool {
    match stage {
        DeleteStage::FirstConfirm(i) => i < count,
        DeleteStage::SecondConfirm(i) => i < count,
        _ => true,
    }
}

/// The record-number question of the delete dialog over `count` records:
/// every number `n` from 1 to `count` picks the record at index `n - 1` and
/// asks for the first confirmation, 0 cancels, and a negative number, one
/// above `count` or an answer that is no number is asked again.
pub proof fn lemma_delete_choice(count: nat, raw: Seq<char>)
    ensures
        match input_int(raw) {
            Some(n) => (1 <= n <= count ==> delete_transition(
                DeleteStage::ChooseRecord,
                count,
                raw,
            ) == (
                DeleteStage::FirstConfirm((n - 1) as usize),
                DeleteStep::ConfirmFirst((n - 1) as usize),
            )) && (n == 0 ==> delete_transition(DeleteStage::ChooseRecord, count, raw) == (
                DeleteStage::Finished,
                DeleteStep::Cancelled,
            )) && (n < 0 || n > count ==> delete_transition(
                DeleteStage::ChooseRecord,
                count,
                raw,
            ) == (DeleteStage::ChooseRecord, DeleteStep::AskAgain)),
            None => delete_transition(DeleteStage::ChooseRecord, count, raw) == (
                DeleteStage::ChooseRecord,
                DeleteStep::AskAgain,
            ),
        },
{
}

/// A record number from 1 to `count` followed by two answers starting with
/// `y` or `Y` deletes the record with that number (index `n - 1`); the
/// index held in between stays within the records.
pub proof fn lemma_delete_run(
    count: nat,
    first: Seq<char>,
    second: Seq<char>,
    third: Seq<char>,
    n: i32,
)
    requires
        input_int(first) == Some(n),
        1 <= n <= count,
        is_yes(utf8(input_line(second))),
        is_yes(utf8(input_line(third))),
    ensures
        delete_transition(DeleteStage::ChooseRecord, count, first) == (
            DeleteStage::FirstConfirm((n - 1) as usize),
            DeleteStep::ConfirmFirst((n - 1) as usize),
        ),
        delete_stage_within(DeleteStage::FirstConfirm((n - 1) as usize), count),
        delete_transition(DeleteStage::FirstConfirm((n - 1) as usize), count, second) == (
            DeleteStage::SecondConfirm((n - 1) as usize),
            DeleteStep::ConfirmSecond,
        ),
        delete_transition(DeleteStage::SecondConfirm((n - 1) as usize), count, third) == (
            DeleteStage::Finished,
            DeleteStep::Deleted,
        ),
{
    lemma_delete_choice(count, first);
}

/// The delete dialog.
pub struct DeleteDialog {
    pub stage: DeleteStage,
}

impl DeleteDialog {
    /// The dialog asking for a record number; `None` when there is no record
    /// to delete.
    pub fn start(tracker: &ExpenseTracker) -> (d: Option<Self>)
        ensures
            d is None <==> tracker@.len() == 0,
            d matches Some(d) ==> d.stage == DeleteStage::ChooseRecord,
    {
        if tracker.expense_count() == 0 {
            None
        } else {
            Some(DeleteDialog { stage: DeleteStage::ChooseRecord })
        }
    }

    /// Takes an answer (an input line); on the second confirmation the
    /// record is deleted from the tracker.
    pub fn step(&mut self, tracker: &mut ExpenseTracker, raw: &str) -> (r: DeleteStep)
        requires
            old(self).stage != DeleteStage::Finished,
            delete_stage_within(old(self).stage, old(tracker)@.len()),
        ensures
            (final(self).stage, r) == delete_transition(
                old(self).stage,
                old(tracker)@.len(),
                raw@,
            ),
            final(tracker)@ == match (old(self).stage, r) {
                (DeleteStage::SecondConfirm(i), DeleteStep::Deleted) => old(tracker)@.remove(
                    i as int,
                ),
                _ => old(tracker)@,
            },
            delete_stage_within(final(self).stage, final(tracker)@.len()),
    {
        match self.stage {
            DeleteStage::ChooseRecord => {
                let count = tracker.expense_count();
                match read_int_from(raw) {
                    Some(n) => {
                        if n >= 0 && (n as usize) <= count {
                            if n == 0 {
                                self.stage = DeleteStage::Finished;
                                DeleteStep::Cancelled
                            } else {
                                let i = (n - 1) as usize;
                                self.stage = DeleteStage::FirstConfirm(i);
                                DeleteStep::ConfirmFirst(i)
                            }
                        } else {
                            DeleteStep::AskAgain
                        }
                    },
                    None => DeleteStep::AskAgain,
                }
            },
            DeleteStage::FirstConfirm(i) => {
                let line = read_line_from(raw);
                if starts_with_yes(line) {
                    self.stage = DeleteStage::SecondConfirm(i);
                    DeleteStep::ConfirmSecond
                } else {
                    self.stage = DeleteStage::Finished;
                    DeleteStep::Cancelled
                }
            },
            DeleteStage::SecondConfirm(i) => {
                let line = read_line_from(raw);
                if starts_with_yes(line) {
                    tracker.delete(i);
                    self.stage = DeleteStage::Finished;
                    DeleteStep::Deleted
                } else {
                    self.stage = DeleteStage::Finished;
                    DeleteStep::CancelledAtSecond
                }
            },
            DeleteStage::Finished => DeleteStep::Cancelled,
        }
    }
}

/// What is said about an answer of the add dialog.
#[derive(PartialEq, Eq, Structural, Clone, Copy)]
pub enum AddNotice {
    /// Nothing.
    Plain,
    /// The year was not a number: today's year is used.
    YearDefaulted,
    /// The month was not a number from 1 to 12: today's month is used.
    MonthDefaulted,
    /// The day was not a number from 1 to 31: today's day is used.
    DayDefaulted,
    /// The description was cut to `MAX_DESCRIPTION_LENGTH` bytes.
    DescriptionTruncated,
    /// The category was cut to `MAX_CATEGORY_LENGTH` bytes.
    CategoryTruncated,
}

/// What the add dialog does after an answer.
#[derive(PartialEq, Eq, Structural, Clone, Copy)]
pub enum AddStep {
    /// Say the notice, then ask the next question.
    Next(AddNotice),
    /// The amount was not accepted: ask for it again.
    AskAmountAgain,
    Cancelled,
    /// Say the notice; the date is not valid and nothing is added.
    DateRejected(AddNotice),
    /// Say the notice; the record was added.
    Added(AddNotice),
    /// No more records fit; nothing is added.
    Full,
}

/// Where the add dialog stands, with what was accepted so far.
pub enum AddStage {
    Year,
    Month { year: i32 },
    Day { year: i32, month: i32 },
    Description { year: i32, month: i32, day: i32 },
    Amount { year: i32, month: i32, day: i32, description: String },
    Category { year: i32, month: i32, day: i32, description: String, amount: u64 },
    Finished,
}

/// What an `AddStage` holds.
pub enum AddState {
    Year,
    Month { year: i32 },
    Day { year: i32, month: i32 },
    Description { year: i32, month: i32, day: i32 },
    Amount { year: i32, month: i32, day: i32, description: Seq<char> },
    Category { year: i32, month: i32, day: i32, description: Seq<char>, amount: u64 },
    Finished,
}

impl AddStage {
    pub open spec fn view(&self) -> AddState {
        match self {
            AddStage::Year => AddState::Year,
            AddStage::Month { year } => AddState::Month { year: *year },
            AddStage::Day { year, month } => AddState::Day { year: *year, month: *month },
            AddStage::Description { year, month, day } => AddState::Description {
                year: *year,
                month: *month,
                day: *day,
            },
            AddStage::Amount { year, month, day, description } => AddState::Amount {
                year: *year,
                month: *month,
                day: *day,
                description: description@,
            },
            AddStage::Category { year, month, day, description, amount } => AddState::Category {
                year: *year,
                month: *month,
                day: *day,
                description: description@,
                amount: *amount,
            },
            AddStage::Finished => AddState::Finished,
        }
    }
}

/// A description an add stage holds was cut to `MAX_DESCRIPTION_LENGTH`
/// bytes, so a record keeps it whole.
pub open spec fn add_stage_fits(stage: AddState) -> bool {
    match stage {
        AddState::Amount { description, .. } => utf8(description).len()
            <= MAX_DESCRIPTION_LENGTH,
        AddState::Category { description, .. } => utf8(description).len()
            <= MAX_DESCRIPTION_LENGTH,
        _ => true,
    }
}

/// A date field as entered: the default when the line is empty; otherwise
/// the trimmed line read as an integer when it is one from `lo` to `hi`,
/// and else the default with a notice (the `bool`).
pub open spec fn date_field(line: Seq<char>, default: i32, lo: int, hi: int) -> (i32, bool) {
    if line.len() == 0 {
        (default, false)
    } else {
        match parse_i32_spec(utf8(trim_chars(line))) {
            Some(v) => if lo <= v <= hi {
                (v, false)
            } else {
                (default, true)
            },
            None => (default, true),
        }
    }
}

/// The category a record gets from the text entered: cut to
/// `MAX_CATEGORY_LENGTH` bytes, and "未分类" when that leaves nothing.
pub open spec fn category_of(line: Seq<char>) -> Seq<char> {
    let c = fit_chars(line, MAX_CATEGORY_LENGTH as int);
    if c.len() == 0 {
        "未分类"@
    } else {
        c
    }
}

/// The add dialog. Each answer is an input line; `-1` cancels the date and
/// amount questions and `!cancel` the text questions. An empty date answer
/// takes today's value, and an answer that is not acceptable takes it with a
/// notice. `amount` is the answer to the amount question read as a double
/// that is not negative (its bit pattern), `None` when it is not one. `full`
/// says whether the tracker has room left when the record is to be added.
pub open spec fn add_transition(
    stage: AddState,
    today: (i32, i32, i32),
    raw: Seq<char>,
    amount: Option<u64>,
    full: bool,
) -> (AddState, AddStep) {
    let line = input_line(raw);
    match stage {
        AddState::Year => if line == "-1"@ {
            (AddState::Finished, AddStep::Cancelled)
        } else {
            let (y, dflt) = date_field(line, today.0, i32::MIN as int, i32::MAX as int);
            (
                AddState::Month { year: y },
                AddStep::Next(
                    if dflt {
                        AddNotice::YearDefaulted
                    } else {
                        AddNotice::Plain
                    },
                ),
            )
        },
        AddState::Month { year } => if line == "-1"@ {
            (AddState::Finished, AddStep::Cancelled)
        } else {
            let (m, dflt) = date_field(line, today.1, 1, 12);
            (
                AddState::Day { year, month: m },
                AddStep::Next(
                    if dflt {
                        AddNotice::MonthDefaulted
                    } else {
                        AddNotice::Plain
                    },
                ),
            )
        },
        AddState::Day { year, month } => if line == "-1"@ {
            (AddState::Finished, AddStep::Cancelled)
        } else {
            let (d, dflt) = date_field(line, today.2, 1, 31);
            let notice = if dflt {
                AddNotice::DayDefaulted
            } else {
                AddNotice::Plain
            };
            if month < 1 || month > 12 || d < 1 || d > 31 {
                (AddState::Finished, AddStep::DateRejected(notice))
            } else {
                (AddState::Description { year, month, day: d }, AddStep::Next(notice))
            }
        },
        AddState::Description { year, month, day } => if line == "!cancel"@ {
            (AddState::Finished, AddStep::Cancelled)
        } else {
            (
                AddState::Amount {
                    year,
                    month,
                    day,
                    description: fit_chars(line, MAX_DESCRIPTION_LENGTH as int),
                },
                AddStep::Next(
                    if utf8(line).len() > MAX_DESCRIPTION_LENGTH {
                        AddNotice::DescriptionTruncated
                    } else {
                        AddNotice::Plain
                    },
                ),
            )
        },
        AddState::Amount { year, month, day, description } => if line == "-1"@ {
            (AddState::Finished, AddStep::Cancelled)
        } else {
            match amount {
                Some(a) => (
                    AddState::Category { year, month, day, description, amount: a },
                    AddStep::Next(AddNotice::Plain),
                ),
                None => (stage, AddStep::AskAmountAgain),
            }
        },
        AddState::Category { .. } => if line == "!cancel"@ {
            (AddState::Finished, AddStep::Cancelled)
        } else if full {
            (AddState::Finished, AddStep::Full)
        } else {
            (
                AddState::Finished,
                AddStep::Added(
                    if utf8(line).len() > MAX_CATEGORY_LENGTH {
                        AddNotice::CategoryTruncated
                    } else {
                        AddNotice::Plain
                    },
                ),
            )
        },
        AddState::Finished => (AddState::Finished, AddStep::Cancelled),
    }
}

/// The cancelling answer `-1` reads as the number -1, and an empty answer
/// reads as no number.
proof fn lemma_cancel_and_empty_read(raw: Seq<char>)
    ensures
        input_line(raw) == "-1"@ ==> input_int(raw) == Some(-1i32),
        input_line(raw).len() == 0 ==> input_int(raw) is None,
{
    reveal_strlit("-1");
    let c: Seq<char> = "-1"@;
    assert(c =~= seq!['-', '1']);
    assert(trim_start_chars(c) == c);
    assert(trim_end_chars(c) == c);
    assert(int_text(-1) =~= c);
    lemma_parse_int_text(-1i32);
    let e: Seq<char> = Seq::empty();
    assert(trim_chars(e) == e);
    assert(utf8(e) =~= Seq::<u8>::empty());
    if input_line(raw).len() == 0 {
        assert(input_line(raw) =~= e);
    }
}

/// The year question of the add dialog: `-1` cancels; an empty answer takes
/// today's year; any other answer that reads as a number is taken as the
/// year with no notice; one that does not takes today's year with a notice.
pub proof fn lemma_add_year_answer(
    today: (i32, i32, i32),
    raw: Seq<char>,
    amount: Option<u64>,
    full: bool,
)
    ensures
        input_line(raw) == "-1"@ ==> add_transition(AddState::Year, today, raw, amount, full) == (
            AddState::Finished,
            AddStep::Cancelled,
        ),
        input_line(raw).len() == 0 ==> add_transition(AddState::Year, today, raw, amount, full)
            == (AddState::Month { year: today.0 }, AddStep::Next(AddNotice::Plain)),
        match input_int(raw) {
            Some(y) => input_line(raw) != "-1"@ ==> add_transition(
                AddState::Year,
                today,
                raw,
                amount,
                full,
            ) == (AddState::Month { year: y }, AddStep::Next(AddNotice::Plain)),
            None => input_line(raw).len() > 0 ==> add_transition(
                AddState::Year,
                today,
                raw,
                amount,
                full,
            ) == (AddState::Month { year: today.0 }, AddStep::Next(AddNotice::YearDefaulted)),
        },
{
    lemma_cancel_and_empty_read(raw);
}

/// The month question of the add dialog: every answer that reads as a month
/// from 1 to 12 is taken with no notice; `-1` cancels; an empty answer takes
/// today's month; any other answer (no number, or a number outside 1 to 12)
/// takes today's month with a notice.
pub proof fn lemma_add_month_answer(
    year: i32,
    today: (i32, i32, i32),
    raw: Seq<char>,
    amount: Option<u64>,
    full: bool,
)
    ensures
        input_line(raw) == "-1"@ ==> add_transition(
            AddState::Month { year },
            today,
            raw,
            amount,
            full,
        ) == (AddState::Finished, AddStep::Cancelled),
        input_line(raw).len() == 0 ==> add_transition(
            AddState::Month { year },
            today,
            raw,
            amount,
            full,
        ) == (AddState::Day { year, month: today.1 }, AddStep::Next(AddNotice::Plain)),
        match input_int(raw) {
            Some(m) => (1 <= m <= 12 ==> add_transition(
                AddState::Month { year },
                today,
                raw,
                amount,
                full,
            ) == (AddState::Day { year, month: m }, AddStep::Next(AddNotice::Plain))) && ((m < 1
                || m > 12) && input_line(raw) != "-1"@ ==> add_transition(
                AddState::Month { year },
                today,
                raw,
                amount,
                full,
            ) == (
                AddState::Day { year, month: today.1 },
                AddStep::Next(AddNotice::MonthDefaulted),
            )),
            None => input_line(raw).len() > 0 ==> add_transition(
                AddState::Month { year },
                today,
                raw,
                amount,
                full,
            ) == (
                AddState::Day { year, month: today.1 },
                AddStep::Next(AddNotice::MonthDefaulted),
            ),
        },
{
    lemma_cancel_and_empty_read(raw);
}

/// The day question of the add dialog, after a month from 1 to 12: every
/// answer that reads as a day from 1 to 31 is taken with no notice; `-1`
/// cancels; an empty answer takes today's day; any other answer takes
/// today's day with a notice, and the date is refused when today's day is
/// not from 1 to 31. After a month outside 1 to 12 the date is refused
/// whatever the day.
pub proof fn lemma_add_day_answer(
    year: i32,
    month: i32,
    today: (i32, i32, i32),
    raw: Seq<char>,
    amount: Option<u64>,
    full: bool,
)
    ensures
        input_line(raw) == "-1"@ ==> add_transition(
            AddState::Day { year, month },
            today,
            raw,
            amount,
            full,
        ) == (AddState::Finished, AddStep::Cancelled),
        1 <= month <= 12 && 1 <= today.2 <= 31 && input_line(raw).len() == 0 ==> add_transition(
            AddState::Day { year, month },
            today,
            raw,
            amount,
            full,
        ) == (AddState::Description { year, month, day: today.2 }, AddStep::Next(AddNotice::Plain)),
        (month < 1 || month > 12) && input_line(raw) != "-1"@ ==> add_transition(
            AddState::Day { year, month },
            today,
            raw,
            amount,
            full,
        ).0 == AddState::Finished && add_transition(
            AddState::Day { year, month },
            today,
            raw,
            amount,
            full,
        ).1 is DateRejected,
        match input_int(raw) {
            Some(d) => (1 <= month <= 12 && 1 <= d <= 31 ==> add_transition(
                AddState::Day { year, month },
                today,
                raw,
                amount,
                full,
            ) == (AddState::Description { year, month, day: d }, AddStep::Next(AddNotice::Plain)))
                && (1 <= month <= 12 && (d < 1 || d > 31) && input_line(raw) != "-1"@ ==> add_transition(
                AddState::Day { year, month },
                today,
                raw,
                amount,
                full,
            ) == if 1 <= today.2 <= 31 {
                (
                    AddState::Description { year, month, day: today.2 },
                    AddStep::Next(AddNotice::DayDefaulted),
                )
            } else {
                (AddState::Finished, AddStep::DateRejected(AddNotice::DayDefaulted))
            }),
            None => 1 <= month <= 12 && input_line(raw).len() > 0 ==> add_transition(
                AddState::Day { year, month },
                today,
                raw,
                amount,
                full,
            ) == if 1 <= today.2 <= 31 {
                (
                    AddState::Description { year, month, day: today.2 },
                    AddStep::Next(AddNotice::DayDefaulted),
                )
            } else {
                (AddState::Finished, AddStep::DateRejected(AddNotice::DayDefaulted))
            },
        },
{
    lemma_cancel_and_empty_read(raw);
}

/// The description question of the add dialog: `!cancel` cancels; any other
/// answer keeps the date and takes as description a prefix of the answer
/// that fits in `MAX_DESCRIPTION_LENGTH` bytes, the whole answer when it
/// fits, with a notice exactly when it does not.
pub proof fn lemma_add_description_answer(
    year: i32,
    month: i32,
    day: i32,
    today: (i32, i32, i32),
    raw: Seq<char>,
    amount: Option<u64>,
    full: bool,
)
    ensures
        input_line(raw) == "!cancel"@ ==> add_transition(
            AddState::Description { year, month, day },
            today,
            raw,
            amount,
            full,
        ) == (AddState::Finished, AddStep::Cancelled),
        input_line(raw) != "!cancel"@ ==> match add_transition(
            AddState::Description { year, month, day },
            today,
            raw,
            amount,
            full,
        ).0 {
            AddState::Amount { year: y, month: m, day: d, description } => y == year && m == month
                && d == day && description == input_line(raw).take(description.len() as int)
                && utf8(description).len() <= MAX_DESCRIPTION_LENGTH && (utf8(input_line(raw)).len()
                <= MAX_DESCRIPTION_LENGTH ==> description == input_line(raw)),
            _ => false,
        },
        input_line(raw) != "!cancel"@ ==> add_transition(
            AddState::Description { year, month, day },
            today,
            raw,
            amount,
            full,
        ).1 == AddStep::Next(
            if utf8(input_line(raw)).len() > MAX_DESCRIPTION_LENGTH {
                AddNotice::DescriptionTruncated
            } else {
                AddNotice::Plain
            },
        ),
{
    lemma_fit_chars(input_line(raw), MAX_DESCRIPTION_LENGTH as int);
}

/// The amount question of the add dialog: `-1` cancels; otherwise an answer
/// read as an amount is taken with everything entered before it, and one
/// that is not asks again with nothing changed.
pub proof fn lemma_add_amount_answer(
    year: i32,
    month: i32,
    day: i32,
    description: Seq<char>,
    today: (i32, i32, i32),
    raw: Seq<char>,
    amount: Option<u64>,
    full: bool,
)
    ensures
        input_line(raw) == "-1"@ ==> add_transition(
            AddState::Amount { year, month, day, description },
            today,
            raw,
            amount,
            full,
        ) == (AddState::Finished, AddStep::Cancelled),
        match amount {
            Some(a) => input_line(raw) != "-1"@ ==> add_transition(
                AddState::Amount { year, month, day, description },
                today,
                raw,
                amount,
                full,
            ) == (
                AddState::Category { year, month, day, description, amount: a },
                AddStep::Next(AddNotice::Plain),
            ),
            None => input_line(raw) != "-1"@ ==> add_transition(
                AddState::Amount { year, month, day, description },
                today,
                raw,
                amount,
                full,
            ) == (AddState::Amount { year, month, day, description }, AddStep::AskAmountAgain),
        },
{
}

/// The category question of the add dialog: `!cancel` cancels; otherwise
/// the dialog ends, with nothing added when no more records fit, and else
/// with the record added and a notice exactly when the category was longer
/// than `MAX_CATEGORY_LENGTH` bytes. An empty category becomes "未分类", and
/// one that fits is kept whole.
pub proof fn lemma_add_category_answer(
    year: i32,
    month: i32,
    day: i32,
    description: Seq<char>,
    amount: u64,
    today: (i32, i32, i32),
    raw: Seq<char>,
    answer: Option<u64>,
    full: bool,
)
    ensures
        input_line(raw) == "!cancel"@ ==> add_transition(
            AddState::Category { year, month, day, description, amount },
            today,
            raw,
            answer,
            full,
        ) == (AddState::Finished, AddStep::Cancelled),
        input_line(raw) != "!cancel"@ && full ==> add_transition(
            AddState::Category { year, month, day, description, amount },
            today,
            raw,
            answer,
            full,
        ) == (AddState::Finished, AddStep::Full),
        input_line(raw) != "!cancel"@ && !full ==> add_transition(
            AddState::Category { year, month, day, description, amount },
            today,
            raw,
            answer,
            full,
        ) == (
            AddState::Finished,
            AddStep::Added(
                if utf8(input_line(raw)).len() > MAX_CATEGORY_LENGTH {
                    AddNotice::CategoryTruncated
                } else {
                    AddNotice::Plain
                },
            ),
        ),
        input_line(raw).len() == 0 ==> category_of(input_line(raw)) == "未分类"@,
        input_line(raw).len() > 0 && utf8(input_line(raw)).len() <= MAX_CATEGORY_LENGTH
            ==> category_of(input_line(raw)) == input_line(raw),
{
    let line = input_line(raw);
    lemma_fit_chars(line, MAX_CATEGORY_LENGTH as int);
    if line.len() == 0 {
        assert(fit_chars(line, MAX_CATEGORY_LENGTH as int).len() == 0);
    }
}

/// A whole run of the add dialog: a year, a month from 1 to 12, a day from
/// 1 to 31, a description that fits, an amount and a category that fits and
/// is not empty, with room left in the tracker, add the record with exactly
/// that date (narrowed to the record's field widths), description, amount
/// and category, each answer with no notice.
pub proof fn lemma_add_run(
    today: (i32, i32, i32),
    answers: Seq<Seq<char>>,
    y: i32,
    m: i32,
    d: i32,
    a: u64,
)
    requires
        answers.len() == 6,
        input_int(answers[0]) == Some(y),
        input_line(answers[0]) != "-1"@,
        input_int(answers[1]) == Some(m),
        1 <= m <= 12,
        input_int(answers[2]) == Some(d),
        1 <= d <= 31,
        input_line(answers[3]) != "!cancel"@,
        utf8(input_line(answers[3])).len() <= MAX_DESCRIPTION_LENGTH,
        input_line(answers[4]) != "-1"@,
        input_line(answers[5]) != "!cancel"@,
        input_line(answers[5]).len() > 0,
        utf8(input_line(answers[5])).len() <= MAX_CATEGORY_LENGTH,
    ensures
        add_transition(AddState::Year, today, answers[0], None, false) == (
            AddState::Month { year: y },
            AddStep::Next(AddNotice::Plain),
        ),
        add_transition(AddState::Month { year: y }, today, answers[1], None, false) == (
            AddState::Day { year: y, month: m },
            AddStep::Next(AddNotice::Plain),
        ),
        add_transition(AddState::Day { year: y, month: m }, today, answers[2], None, false) == (
            AddState::Description { year: y, month: m, day: d },
            AddStep::Next(AddNotice::Plain),
        ),
        add_transition(
            AddState::Description { year: y, month: m, day: d },
            today,
            answers[3],
            None,
            false,
        ) == (
            AddState::Amount { year: y, month: m, day: d, description: input_line(answers[3]) },
            AddStep::Next(AddNotice::Plain),
        ),
        add_transition(
            AddState::Amount { year: y, month: m, day: d, description: input_line(answers[3]) },
            today,
            answers[4],
            Some(a),
            false,
        ) == (
            AddState::Category {
                year: y,
                month: m,
                day: d,
                description: input_line(answers[3]),
                amount: a,
            },
            AddStep::Next(AddNotice::Plain),
        ),
        add_transition(
            AddState::Category {
                year: y,
                month: m,
                day: d,
                description: input_line(answers[3]),
                amount: a,
            },
            today,
            answers[5],
            None,
            false,
        ) == (AddState::Finished, AddStep::Added(AddNotice::Plain)),
        record_of(y, m, d, input_line(answers[3]), a, category_of(input_line(answers[5])))
            == (ExpenseView {
            year: y as i16,
            month: m as i8,
            day: d as i8,
            description: input_line(answers[3]),
            amount: a,
            category: input_line(answers[5]),
        }),
{
    lemma_cancel_and_empty_read(answers[1]);
    lemma_cancel_and_empty_read(answers[2]);
    lemma_add_year_answer(today, answers[0], None, false);
    lemma_add_month_answer(y, today, answers[1], None, false);
    lemma_add_day_answer(y, m, today, answers[2], None, false);
    lemma_add_description_answer(y, m, d, today, answers[3], None, false);
    lemma_add_category_answer(y, m, d, input_line(answers[3]), a, today, answers[5], None, false);
    lemma_keep_bytes_fits(input_line(answers[3]), DESC_BUF_CAP as int);
    lemma_keep_bytes_fits(input_line(answers[5]), CAT_BUF_CAP as int);
}

/// Reads a date field; see `date_field`.
fn read_date_field(line: &str, default: i32, lo: i32, hi: i32) -> (r: (i32, bool))
    ensures
        r == date_field(line@, default, lo as int, hi as int),
{
    if line.is_empty() {
        (default, false)
    } else {
        match parse_i32(trim(line).as_bytes()) {
            Some(v) => {
                if lo <= v && v <= hi {
                    (v, false)
                } else {
                    (default, true)
                }
            },
            None => (default, true),
        }
    }
}

/// The add dialog, with today's date for the defaults.
pub struct AddExpenseDialog {
    pub today_year: i32,
    pub today_month: i32,
    pub today_day: i32,
    pub stage: AddStage,
}

impl AddExpenseDialog {
    /// The dialog asking for the year; `None` when no more records fit.
    pub fn start(tracker: &ExpenseTracker, today_year: i32, today_month: i32, today_day: i32) -> (d:
        Option<Self>)
        ensures
            d is None <==> tracker@.len() >= MAX_EXPENSES,
            d matches Some(d) ==> d.stage@ == AddState::Year && d.today_year == today_year
                && d.today_month == today_month && d.today_day == today_day,
    {
        if tracker.is_full() {
            None
        } else {
            Some(AddExpenseDialog { today_year, today_month, today_day, stage: AddStage::Year })
        }
    }

    /// Takes an answer (an input line) and, at the amount question, the
    /// answer read as a double that is not negative. The last answer adds
    /// the record to the tracker.
    pub fn step(&mut self, tracker: &mut ExpenseTracker, raw: &str, amount: Option<u64>) -> (r:
        AddStep)
        requires
            !(old(self).stage@ is Finished),
            add_stage_fits(old(self).stage@),
        ensures
            add_stage_fits(final(self).stage@),
            (final(self).stage@, r) == add_transition(
                old(self).stage@,
                (old(self).today_year, old(self).today_month, old(self).today_day),
                raw@,
                amount,
                old(tracker)@.len() >= MAX_EXPENSES,
            ),
            final(self).today_year == old(self).today_year,
            final(self).today_month == old(self).today_month,
            final(self).today_day == old(self).today_day,
            final(tracker)@ == match (old(self).stage@, r) {
                (AddState::Category { year, month, day, description, amount }, AddStep::Added(_)) =>
                    old(tracker)@.push(
                    record_of(year, month, day, description, amount, category_of(input_line(raw@))),
                ),
                _ => old(tracker)@,
            },
    {
        proof {
            reveal_strlit("-1");
            reveal_strlit("!cancel");
        }
        let line = read_line_from(raw);
        let mut stage = AddStage::Finished;
        std::mem::swap(&mut stage, &mut self.stage);
        match stage {
            AddStage::Year => {
                if same_text(line, "-1") {
                    return AddStep::Cancelled;
                }
                let (y, dflt) = read_date_field(line, self.today_year, i32::MIN, i32::MAX);
                self.stage = AddStage::Month { year: y };
                AddStep::Next(
                    if dflt {
                        AddNotice::YearDefaulted
                    } else {
                        AddNotice::Plain
                    },
                )
            },
            AddStage::Month { year } => {
                if same_text(line, "-1") {
                    return AddStep::Cancelled;
                }
                let (m, dflt) = read_date_field(line, self.today_month, 1, 12);
                self.stage = AddStage::Day { year, month: m };
                AddStep::Next(
                    if dflt {
                        AddNotice::MonthDefaulted
                    } else {
                        AddNotice::Plain
                    },
                )
            },
            AddStage::Day { year, month } => {
                if same_text(line, "-1") {
                    return AddStep::Cancelled;
                }
                let (d, dflt) = read_date_field(line, self.today_day, 1, 31);
                let notice = if dflt {
                    AddNotice::DayDefaulted
                } else {
                    AddNotice::Plain
                };
                if month < 1 || month > 12 || d < 1 || d > 31 {
                    return AddStep::DateRejected(notice);
                }
                self.stage = AddStage::Description { year, month, day: d };
                AddStep::Next(notice)
            },
            AddStage::Description { year, month, day } => {
                if same_text(line, "!cancel") {
                    return AddStep::Cancelled;
                }
                let truncated = line.as_bytes().len() > MAX_DESCRIPTION_LENGTH;
                let description = truncate_text(line, MAX_DESCRIPTION_LENGTH).to_owned();
                self.stage = AddStage::Amount { year, month, day, description };
                AddStep::Next(
                    if truncated {
                        AddNotice::DescriptionTruncated
                    } else {
                        AddNotice::Plain
                    },
                )
            },
            AddStage::Amount { year, month, day, description } => {
                if same_text(line, "-1") {
                    return AddStep::Cancelled;
                }
                match amount {
                    Some(a) => {
                        self.stage = AddStage::Category { year, month, day, description, amount: a };
                        AddStep::Next(AddNotice::Plain)
                    },
                    None => {
                        self.stage = AddStage::Amount { year, month, day, description };
                        AddStep::AskAmountAgain
                    },
                }
            },
            AddStage::Category { year, month, day, description, amount } => {
                if same_text(line, "!cancel") {
                    return AddStep::Cancelled;
                }
                let truncated = line.as_bytes().len() > MAX_CATEGORY_LENGTH;
                let cut = truncate_text(line, MAX_CATEGORY_LENGTH);
                let category: &str = if cut.is_empty() {
                    proof {
                        reveal_strlit("未分类");
                        reveal_with_fuel(vstd::utf8::encode_utf8, 4);
                        assert(utf8("未分类"@).len() == 9);
                    }
                    "未分类"
                } else {
                    cut
                };
                if tracker.add_record(year, month, day, description.as_str(), amount, category) {
                    AddStep::Added(
                        if truncated {
                            AddNotice::CategoryTruncated
                        } else {
                            AddNotice::Plain
                        },
                    )
                } else {
                    AddStep::Full
                }
            },
            AddStage::Finished => AddStep::Cancelled,
        }
    }
}

} // verus!
