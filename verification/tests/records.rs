use expense_tracker::expense::{CategorySum, Expense, MAX_EXPENSES};
use expense_tracker::report::{write_expense_row, write_expense_row_with_index, DASH_30, DASH_72, DASH_77};
use expense_tracker::tracker::{ExpenseTracker, Period};
use expense_tracker::{write_expense_header, write_expense_header_with_index, FixedStr};

fn bits(a: f64) -> u64 {
    a.to_bits()
}

fn add(t: &mut ExpenseTracker, y: i32, m: i32, d: i32, desc: &str, amount: f64, cat: &str) -> bool {
    t.add_record(y, m, d, desc, bits(amount), cat)
}

#[test]
fn fixed_str_new_is_empty() {
    let s: FixedStr<4> = FixedStr::new();
    assert!(s.is_empty());
    assert_eq!(s.as_str(), "");
}

#[test]
fn fixed_str_keeps_the_first_bytes_up_to_its_capacity() {
    let s: FixedStr<3> = FixedStr::from_str("日本");
    assert_eq!(s.as_str(), "日");
    let u: FixedStr<5> = FixedStr::from_str("ab日");
    assert_eq!(u.as_str(), "ab日");
    let v: FixedStr<2> = FixedStr::from_str("ab日");
    assert_eq!(v.as_str(), "ab");
    let t: FixedStr<4> = FixedStr::from_str("abcd");
    assert_eq!(t.as_str(), "abcd");
    assert!(!t.is_empty());
    assert!(t.eq(&FixedStr::from_str("abcdef")));
    assert!(t.eq_str("abcd"));
    assert!(!t.eq_str("abc"));
    assert_eq!(t.clone().as_str(), "abcd");
}

#[test]
fn set_data_narrows_the_date_fields() {
    let mut e = Expense::new();
    assert_eq!((e.year, e.month, e.day, e.amount), (0, 0, 0, 0));
    e.set_data(70000, 300, -1, "lunch", bits(12.5), "food");
    assert_eq!(e.year, 70000i32 as i16);
    assert_eq!(e.year, 4464);
    assert_eq!(e.month, 44);
    assert_eq!(e.day, -1);
    assert_eq!(e.description.as_str(), "lunch");
    assert_eq!(e.category.as_str(), "food");
    assert_eq!(f64::from_bits(e.amount), 12.5);
    assert_eq!(e.clone().description.as_str(), "lunch");
}

#[test]
fn category_sum_new_is_empty() {
    let c = CategorySum::new();
    assert!(c.name.is_empty());
    assert!(c.members.is_empty());
}

#[test]
fn add_and_delete_records() {
    let mut t = ExpenseTracker::new();
    assert_eq!(t.expense_count(), 0);
    assert!(add(&mut t, 2024, 5, 1, "a", 1.0, "x"));
    assert!(add(&mut t, 2024, 5, 2, "b", 2.0, "y"));
    assert!(add(&mut t, 2024, 6, 3, "c", 3.0, "x"));
    assert_eq!(t.expense_count(), 3);
    t.delete(1);
    assert_eq!(t.expense_count(), 2);
    assert_eq!(t.get(0).description.as_str(), "a");
    assert_eq!(t.get(1).description.as_str(), "c");
}

#[test]
fn delete_undoes_add() {
    let mut t = ExpenseTracker::new();
    add(&mut t, 2024, 1, 1, "keep", 1.0, "k");
    add(&mut t, 2024, 1, 2, "new", 2.0, "n");
    t.delete(t.expense_count() - 1);
    assert_eq!(t.expense_count(), 1);
    assert_eq!(t.get(0).description.as_str(), "keep");
}

#[test]
fn the_tracker_holds_at_most_max_expenses() {
    let mut t = ExpenseTracker::new();
    for i in 0..MAX_EXPENSES {
        assert!(add(&mut t, 2024, 1, 1, "r", i as f64, "c"));
    }
    assert!(t.is_full());
    assert!(!add(&mut t, 2024, 1, 1, "over", 1.0, "c"));
    assert_eq!(t.expense_count(), MAX_EXPENSES);
}

#[test]
fn records_in_period_filters_by_date() {
    let mut t = ExpenseTracker::new();
    add(&mut t, 2024, 5, 1, "a", 1.0, "x");
    add(&mut t, 2023, 5, 1, "b", 1.0, "x");
    add(&mut t, 2024, 6, 1, "c", 1.0, "x");
    add(&mut t, 2024, 5, 2, "d", 1.0, "x");
    assert_eq!(t.records_in_period(Period::Year(2024)), vec![0, 2, 3]);
    assert_eq!(t.records_in_period(Period::Month(2024, 5)), vec![0, 3]);
    assert_eq!(t.records_in_period(Period::Day(2024, 5, 2)), vec![3]);
    assert_eq!(t.records_in_period(Period::Year(1999)), Vec::<usize>::new());
    // the period's year is narrowed to 16 bits as the records' years are
    assert_eq!(t.records_in_period(Period::Year(2024 + 65536)), vec![0, 2, 3]);
}

#[test]
fn monthly_summary_groups_by_category_in_order_of_first_appearance() {
    let mut t = ExpenseTracker::new();
    add(&mut t, 2024, 5, 1, "a", 1.0, "food");
    add(&mut t, 2024, 4, 1, "b", 2.0, "food");
    add(&mut t, 2024, 5, 2, "c", 3.0, "bus");
    add(&mut t, 2024, 5, 3, "d", 4.0, "food");
    let s = t.monthly_summary(2024, 5);
    assert_eq!(s.records, vec![0, 2, 3]);
    assert_eq!(s.categories.len(), 2);
    assert_eq!(s.categories[0].name.as_str(), "food");
    assert_eq!(s.categories[0].members, vec![0, 3]);
    assert_eq!(s.categories[1].name.as_str(), "bus");
    assert_eq!(s.categories[1].members, vec![2]);
    let total: f64 = s.records.iter().map(|&i| f64::from_bits(t.get(i).amount)).sum();
    assert_eq!(total, 8.0);
}

#[test]
fn monthly_summary_lists_at_most_twenty_categories() {
    let mut t = ExpenseTracker::new();
    for i in 0..25 {
        add(&mut t, 2024, 5, 1, "r", 1.0, &format!("c{}", i));
    }
    add(&mut t, 2024, 5, 2, "again", 1.0, "c3");
    add(&mut t, 2024, 5, 2, "late", 1.0, "c24");
    let s = t.monthly_summary(2024, 5);
    assert_eq!(s.records.len(), 27);
    assert_eq!(s.categories.len(), 20);
    assert_eq!(s.categories[3].members, vec![3, 25]);
    assert_eq!(s.categories[19].name.as_str(), "c19");
    assert!(s.categories.iter().all(|c| c.name.as_str() != "c24"));
}

#[test]
fn monthly_summary_of_an_empty_month() {
    let mut t = ExpenseTracker::new();
    add(&mut t, 2024, 5, 1, "a", 1.0, "food");
    let s = t.monthly_summary(2025, 5);
    assert!(s.records.is_empty());
    assert!(s.categories.is_empty());
}

#[test]
fn expense_headers() {
    let mut out = String::new();
    write_expense_header(&mut out);
    let expected = format!("{:<12}{:<30}{:<20}{:>10}\n{}\n", "日期", "描述", "类别", "金额", "-".repeat(72));
    assert_eq!(out, expected);
    let mut out = String::new();
    write_expense_header_with_index(&mut out);
    let expected = format!(
        "{:<5}{:<12}{:<30}{:<20}{:>10}\n{}\n",
        "序号", "日期", "描述", "类别", "金额", "-".repeat(77)
    );
    assert_eq!(out, expected);
    assert_eq!(DASH_72.len(), 72);
    assert_eq!(DASH_77.len(), 77);
    assert_eq!(DASH_30.len(), 30);
}

#[test]
fn expense_rows() {
    let mut e = Expense::new();
    e.set_data(2024, 3, 7, "午饭", bits(12.5), "餐饮");
    let amount = format!("{:>10.2}", 12.5f64);
    let mut out = String::new();
    write_expense_row(&mut out, &e, &amount);
    assert_eq!(out, "2024-03-07  午饭餐饮     12.50\n");
    let mut out = String::new();
    write_expense_row_with_index(&mut out, 12, &e, &amount);
    assert_eq!(out, "12   2024-03-07  午饭餐饮     12.50\n");
    let mut f = Expense::new();
    f.set_data(5, -3, 11, "d", bits(0.0), "c");
    let mut out = String::new();
    write_expense_row(&mut out, &f, "0");
    assert_eq!(out, format!("{:<4}-{:02}-{:02}  dc0\n", 5, -3, 11));
}

#[test]
fn monthly_summary_lists_the_records_of_the_month() {
    let mut t = ExpenseTracker::new();
    add(&mut t, 2024, 5, 1, "a", 1.0, "x");
    add(&mut t, 2024, 6, 1, "b", 1.0, "y");
    add(&mut t, 2024 + 65536, 5, 9, "c", 1.0, "x");
    assert_eq!(t.monthly_summary(2024, 5).records, t.records_in_period(Period::Month(2024, 5)));
    assert_eq!(t.monthly_summary(2024, 5).records, vec![0, 2]);
}
