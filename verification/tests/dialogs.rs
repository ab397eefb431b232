use expense_tracker::dialog::{
    main_menu_choice, AddExpenseDialog, AddNotice, AddStep, DeleteDialog, DeleteStep, MenuChoice,
    PeriodDialog, PeriodStep, SummaryDialog, SummaryStep,
};
use expense_tracker::tracker::{ExpenseTracker, Period};

#[test]
fn main_menu_entries() {
    assert!(main_menu_choice("1\n") == MenuChoice::AddExpense);
    assert!(main_menu_choice(" 2 \n") == MenuChoice::DisplayAll);
    assert!(main_menu_choice("3\n") == MenuChoice::MonthlySummary);
    assert!(main_menu_choice("4\n") == MenuChoice::ListByPeriod);
    assert!(main_menu_choice("5\n") == MenuChoice::DeleteExpense);
    assert!(main_menu_choice("6\n") == MenuChoice::SaveAndExit);
    assert!(main_menu_choice("7\n") == MenuChoice::Invalid);
    assert!(main_menu_choice("x\n") == MenuChoice::Invalid);
    assert!(main_menu_choice("0\n") == MenuChoice::Invalid);
}

#[test]
fn summary_dialog_asks_year_then_month() {
    let mut d = SummaryDialog::new();
    assert!(d.step("abc\n") == SummaryStep::AskAgain);
    assert!(d.step("2024\n") == SummaryStep::AskMonth);
    assert!(d.step("13\n") == SummaryStep::AskAgain);
    assert!(d.step("x\n") == SummaryStep::AskAgain);
    assert!(d.step("5\n") == SummaryStep::Report(2024, 5));
    let mut e = SummaryDialog::new();
    assert!(e.step("-1\n") == SummaryStep::Cancelled);
    let mut f = SummaryDialog::new();
    f.step("2024\n");
    assert!(f.step("-1\n") == SummaryStep::Cancelled);
}

#[test]
fn period_dialog_lists_by_year_month_and_day() {
    let mut d = PeriodDialog::new();
    assert!(d.step("9\n") == PeriodStep::InvalidChoice);
    assert!(d.step("oops\n") == PeriodStep::InvalidChoice);
    assert!(d.step("1\n") == PeriodStep::AskYear);
    assert!(d.step("x\n") == PeriodStep::AskAgain);
    assert!(d.step("2024\n") == PeriodStep::List(Period::Year(2024)));
    assert!(d.step("2\n") == PeriodStep::AskYear);
    assert!(d.step("2024\n") == PeriodStep::AskMonth);
    assert!(d.step("13\n") == PeriodStep::AskAgain);
    assert!(d.step("5\n") == PeriodStep::List(Period::Month(2024, 5)));
    assert!(d.step("3\n") == PeriodStep::AskYear);
    assert!(d.step("2024\n") == PeriodStep::AskMonth);
    assert!(d.step("5\n") == PeriodStep::AskDay);
    assert!(d.step("32\n") == PeriodStep::AskAgain);
    assert!(d.step("0\n") == PeriodStep::Back);
    assert!(d.step("3\n") == PeriodStep::AskYear);
    assert!(d.step("0\n") == PeriodStep::Back);
    assert!(d.step("3\n") == PeriodStep::AskYear);
    assert!(d.step("2024\n") == PeriodStep::AskMonth);
    assert!(d.step("5\n") == PeriodStep::AskDay);
    assert!(d.step("31\n") == PeriodStep::List(Period::Day(2024, 5, 31)));
    assert!(d.step("0\n") == PeriodStep::Exit);
}

fn tracker_with(n: usize) -> ExpenseTracker {
    let mut t = ExpenseTracker::new();
    for i in 0..n {
        t.add_record(2024, 1, 1, &format!("r{}", i), 1.0f64.to_bits(), "c");
    }
    t
}

#[test]
fn delete_dialog_needs_a_record() {
    assert!(DeleteDialog::start(&ExpenseTracker::new()).is_none());
}

#[test]
fn delete_dialog_deletes_after_two_confirmations() {
    let mut t = tracker_with(3);
    let mut d = DeleteDialog::start(&t).unwrap();
    assert!(d.step(&mut t, "4\n") == DeleteStep::AskAgain);
    assert!(d.step(&mut t, "-1\n") == DeleteStep::AskAgain);
    assert!(d.step(&mut t, "x\n") == DeleteStep::AskAgain);
    assert!(d.step(&mut t, "2\n") == DeleteStep::ConfirmFirst(1));
    assert!(d.step(&mut t, "yes\n") == DeleteStep::ConfirmSecond);
    assert!(d.step(&mut t, "Y\n") == DeleteStep::Deleted);
    assert_eq!(t.expense_count(), 2);
    assert_eq!(t.get(1).description.as_str(), "r2");
}

#[test]
fn delete_dialog_cancels() {
    let mut t = tracker_with(2);
    let mut d = DeleteDialog::start(&t).unwrap();
    assert!(d.step(&mut t, "0\n") == DeleteStep::Cancelled);
    let mut d = DeleteDialog::start(&t).unwrap();
    d.step(&mut t, "1\n");
    assert!(d.step(&mut t, "n\n") == DeleteStep::Cancelled);
    let mut d = DeleteDialog::start(&t).unwrap();
    d.step(&mut t, "1\n");
    d.step(&mut t, "y\n");
    assert!(d.step(&mut t, " y\n") == DeleteStep::CancelledAtSecond);
    assert_eq!(t.expense_count(), 2);
}

fn add_answers(t: &mut ExpenseTracker, answers: &[(&str, Option<f64>)]) -> Vec<AddStep> {
    let mut d = AddExpenseDialog::start(t, 2024, 6, 15).unwrap();
    answers
        .iter()
        .map(|(line, amount)| d.step(t, line, amount.map(f64::to_bits)))
        .collect()
}

#[test]
fn add_dialog_adds_a_record() {
    let mut t = ExpenseTracker::new();
    let steps = add_answers(
        &mut t,
        &[("2023\n", None), ("3\n", None), ("9\n", None), ("午饭\n", None), ("abc\n", None), ("12.5\n", Some(12.5)), ("餐饮\n", None)],
    );
    assert!(steps[0] == AddStep::Next(AddNotice::Plain));
    assert!(steps[4] == AddStep::AskAmountAgain);
    assert!(steps[6] == AddStep::Added(AddNotice::Plain));
    assert_eq!(t.expense_count(), 1);
    let e = t.get(0);
    assert_eq!((e.year, e.month, e.day), (2023, 3, 9));
    assert_eq!(e.description.as_str(), "午饭");
    assert_eq!(e.category.as_str(), "餐饮");
    assert_eq!(f64::from_bits(e.amount), 12.5);
}

#[test]
fn add_dialog_defaults_to_today() {
    let mut t = ExpenseTracker::new();
    let steps = add_answers(
        &mut t,
        &[("\n", None), ("13\n", None), ("x\n", None), ("d\n", None), ("1\n", Some(1.0)), ("\n", None)],
    );
    assert!(steps[0] == AddStep::Next(AddNotice::Plain));
    assert!(steps[1] == AddStep::Next(AddNotice::MonthDefaulted));
    assert!(steps[2] == AddStep::Next(AddNotice::DayDefaulted));
    assert!(steps[5] == AddStep::Added(AddNotice::Plain));
    let e = t.get(0);
    assert_eq!((e.year, e.month, e.day), (2024, 6, 15));
    assert_eq!(e.category.as_str(), "未分类");
}

#[test]
fn add_dialog_year_that_is_not_a_number() {
    let mut t = ExpenseTracker::new();
    let steps = add_answers(&mut t, &[(" \n", None)]);
    assert!(steps[0] == AddStep::Next(AddNotice::YearDefaulted));
}

#[test]
fn add_dialog_truncates_long_texts() {
    let mut t = ExpenseTracker::new();
    let desc = "描".repeat(40);
    let cat = "类".repeat(20);
    let steps = add_answers(
        &mut t,
        &[("2024\n", None), ("1\n", None), ("1\n", None), (&(desc + "\n"), None), ("2\n", Some(2.0)), (&(cat + "\n"), None)],
    );
    assert!(steps[3] == AddStep::Next(AddNotice::DescriptionTruncated));
    assert!(steps[5] == AddStep::Added(AddNotice::CategoryTruncated));
    assert_eq!(t.get(0).description.as_str(), "描".repeat(33));
    assert_eq!(t.get(0).category.as_str(), "类".repeat(16));
}

#[test]
fn add_dialog_cancels_at_each_question() {
    let mut t = ExpenseTracker::new();
    assert!(add_answers(&mut t, &[("-1\n", None)])[0] == AddStep::Cancelled);
    assert!(add_answers(&mut t, &[("\n", None), ("-1\n", None)])[1] == AddStep::Cancelled);
    assert!(add_answers(&mut t, &[("\n", None), ("\n", None), ("-1\n", None)])[2] == AddStep::Cancelled);
    assert!(add_answers(&mut t, &[("\n", None), ("\n", None), ("\n", None), ("!cancel\n", None)])[3] == AddStep::Cancelled);
    assert!(
        add_answers(&mut t, &[("\n", None), ("\n", None), ("\n", None), ("d\n", None), ("-1\n", None)])[4]
            == AddStep::Cancelled
    );
    assert!(
        add_answers(&mut t, &[("\n", None), ("\n", None), ("\n", None), ("d\n", None), ("1\n", Some(1.0)), ("!cancel\n", None)])[5]
            == AddStep::Cancelled
    );
    assert_eq!(t.expense_count(), 0);
}

#[test]
fn add_dialog_rejects_a_bad_default_date() {
    let mut t = ExpenseTracker::new();
    let mut d = AddExpenseDialog::start(&t, 2024, 6, 40).unwrap();
    d.step(&mut t, "\n", None);
    d.step(&mut t, "\n", None);
    assert!(d.step(&mut t, "\n", None) == AddStep::DateRejected(AddNotice::Plain));
}

#[test]
fn add_dialog_needs_room() {
    let mut t = ExpenseTracker::new();
    for _ in 0..expense_tracker::expense::MAX_EXPENSES {
        t.add_record(2024, 1, 1, "r", 0, "c");
    }
    assert!(AddExpenseDialog::start(&t, 2024, 1, 1).is_none());
}

#[test]
fn add_dialog_reports_a_full_tracker_at_the_last_answer() {
    let mut t = ExpenseTracker::new();
    for _ in 0..expense_tracker::expense::MAX_EXPENSES - 1 {
        t.add_record(2024, 1, 1, "r", 0, "c");
    }
    let mut d = AddExpenseDialog::start(&t, 2024, 1, 1).unwrap();
    for line in ["\n", "\n", "\n", "d\n"] {
        d.step(&mut t, line, None);
    }
    d.step(&mut t, "1\n", Some(1.0f64.to_bits()));
    t.add_record(2024, 1, 2, "other", 0, "c");
    assert!(d.step(&mut t, "c\n", None) == AddStep::Full);
    assert_eq!(t.expense_count(), expense_tracker::expense::MAX_EXPENSES);
}
