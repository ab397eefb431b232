use expense_tracker::settlement::{
    last_settlement_text, next_month_to_settle, read_last_settlement, settlement_baseline,
    settlement_start, SettlementStart,
};
use expense_tracker::store::{parse_data_file, parse_record_line, RecordFields, RecordLine};
use expense_tracker::tracker::ExpenseTracker;

fn fields(line: &RecordLine) -> &RecordFields {
    match line {
        RecordLine::Record(f) => f,
        _ => panic!("not a record"),
    }
}

#[test]
fn record_line_fields() {
    let r = parse_record_line("2024,5,17,午饭,12.5,餐饮");
    let f = fields(&r);
    assert_eq!((f.year, f.month, f.day), (2024, 5, 17));
    assert_eq!(f.description, "午饭");
    assert_eq!(f.amount_text, "12.5");
    assert_eq!(f.category, "餐饮");
}

#[test]
fn record_line_category_keeps_commas_and_may_be_missing() {
    let f = fields(&parse_record_line("2024,5,17,d,1,a,b,c")).category.clone();
    assert_eq!(f, "a,b,c");
    let g = parse_record_line("2024,5,17,d,1");
    assert_eq!(fields(&g).category, "");
    let h = parse_record_line("2024,13,40,,,");
    let h = fields(&h);
    assert_eq!((h.month, h.day), (13, 40));
    assert_eq!(h.description, "");
    assert_eq!(h.amount_text, "");
}

#[test]
fn record_line_skips() {
    assert!(matches!(parse_record_line("x,5,17,d,1,c"), RecordLine::BadYear(s) if s == "x"));
    assert!(matches!(parse_record_line(""), RecordLine::BadYear(s) if s.is_empty()));
    assert!(matches!(parse_record_line("2024"), RecordLine::NoMonth));
    assert!(matches!(parse_record_line("2024, 5,1,d,1,c"), RecordLine::BadMonth(s) if s == " 5"));
    assert!(matches!(parse_record_line("2024,5"), RecordLine::NoDay));
    assert!(matches!(parse_record_line("2024,5,1x,d"), RecordLine::BadDay(s) if s == "1x"));
    assert!(matches!(parse_record_line("2024,5,1"), RecordLine::NoDescription));
    assert!(matches!(parse_record_line("2024,5,1,d"), RecordLine::NoAmount));
}

#[test]
fn record_line_texts_are_cut_to_their_limits() {
    let desc = "描".repeat(40);
    let cat = "类".repeat(20);
    let line = format!("2024,1,1,{},3,{}", desc, cat);
    let r = parse_record_line(&line);
    let f = fields(&r);
    assert_eq!(f.description, "描".repeat(33));
    assert_eq!(f.category, "类".repeat(16));
}

#[test]
fn data_file_needs_a_count_line() {
    assert!(parse_data_file("").is_none());
    assert!(parse_data_file("x\n2024,1,1,d,1,c\n").is_none());
    assert!(parse_data_file("1001\n").is_none());
    assert!(parse_data_file("-1\n").is_none());
    assert_eq!(parse_data_file("0\n2024,1,1,d,1,c\n").unwrap().len(), 0);
    assert_eq!(parse_data_file(" 1000 \r\n").unwrap().len(), 0);
}

#[test]
fn data_file_reads_as_many_lines_as_announced() {
    let v = parse_data_file("2\r\n2024,1,1,a,1,c\r\nbad\n2024,1,3,c,3,c\n").unwrap();
    assert_eq!(v.len(), 2);
    assert_eq!(fields(&v[0]).category, "c");
    assert!(matches!(&v[1], RecordLine::BadYear(s) if s == "bad"));
    let w = parse_data_file("5\n2024,1,1,a,1,c").unwrap();
    assert_eq!(w.len(), 1);
    assert_eq!(fields(&w[0]).category, "c");
}

#[test]
fn load_keeps_records_whose_amount_reads() {
    let v = parse_data_file("3\n2024,1,1,a,1.5,x\n2024,1,2,b,oops,y\nbad\n").unwrap();
    let amounts: Vec<Option<u64>> = v
        .iter()
        .map(|l| match l {
            RecordLine::Record(f) => f.amount_text.parse::<f64>().ok().map(f64::to_bits),
            _ => None,
        })
        .collect();
    let mut t = ExpenseTracker::new();
    t.load_expenses(&v, &amounts);
    assert_eq!(t.expense_count(), 1);
    assert_eq!(t.get(0).description.as_str(), "a");
    assert_eq!(f64::from_bits(t.get(0).amount), 1.5);
}

#[test]
fn save_expenses_writes_the_data_file() {
    let mut t = ExpenseTracker::new();
    t.add_record(2024, 5, 7, "午饭", 12.5f64.to_bits(), "餐饮");
    t.add_record(-3, 12, 31, "", 0.0f64.to_bits(), "c,d");
    let texts = vec!["12.5".to_string(), "0".to_string()];
    assert_eq!(t.save_expenses(&texts), "2\n2024,5,7,午饭,12.5,餐饮\n-3,12,31,,0,c,d\n");
    assert_eq!(ExpenseTracker::new().save_expenses(&Vec::new()), "0\n");
}

#[test]
fn save_then_load_gives_back_the_records() {
    let mut t = ExpenseTracker::new();
    t.add_record(2024, 5, 7, "午饭", 12.5f64.to_bits(), "餐饮");
    t.add_record(1999, 1, 31, "bus ride", 3.25f64.to_bits(), "交通, 城市");
    t.add_record(2025, 12, 1, "", 0.1f64.to_bits(), "");
    let texts: Vec<String> = (0..t.expense_count())
        .map(|i| format!("{}", f64::from_bits(t.get(i).amount)))
        .collect();
    let content = t.save_expenses(&texts);
    let lines = parse_data_file(&content).unwrap();
    let amounts: Vec<Option<u64>> = lines
        .iter()
        .map(|l| match l {
            RecordLine::Record(f) => f.amount_text.parse::<f64>().ok().map(f64::to_bits),
            _ => None,
        })
        .collect();
    let mut back = ExpenseTracker::new();
    back.load_expenses(&lines, &amounts);
    assert_eq!(back.expense_count(), t.expense_count());
    for i in 0..t.expense_count() {
        let (a, b) = (t.get(i), back.get(i));
        assert_eq!((a.year, a.month, a.day, a.amount), (b.year, b.month, b.day, b.amount));
        assert_eq!(a.description.as_str(), b.description.as_str());
        assert_eq!(a.category.as_str(), b.category.as_str());
    }
}

#[test]
fn last_settlement_reads_two_words() {
    assert_eq!(read_last_settlement(None), (0, 0));
    assert_eq!(read_last_settlement(Some("2024 5\n")), (2024, 5));
    assert_eq!(read_last_settlement(Some("\u{3000} 2023\t12 \n")), (2023, 12));
    assert_eq!(read_last_settlement(Some("abc 3")), (0, 3));
    assert_eq!(read_last_settlement(Some("2022")), (2022, 0));
    assert_eq!(read_last_settlement(Some("")), (0, 0));
    assert_eq!(read_last_settlement(Some("1 2 3")), (1, 2));
}

#[test]
fn last_settlement_text_reads_back() {
    assert_eq!(last_settlement_text(2024, 5), "2024 5\n");
    for (y, m) in [(2024, 12), (-1, 1), (i32::MAX, i32::MIN), (0, 0)] {
        assert_eq!(read_last_settlement(Some(&last_settlement_text(y, m))), (y, m));
    }
}

#[test]
fn baseline_is_the_previous_month() {
    assert_eq!(settlement_baseline(2024, 1), (2023, 12));
    assert_eq!(settlement_baseline(2024, 7), (2024, 6));
}

#[test]
fn settlement_walks_month_by_month_up_to_the_current_month() {
    let mut cursor = (2023, 11);
    let mut settled = Vec::new();
    while let Some(m) = next_month_to_settle(cursor, (2024, 3)) {
        settled.push(m);
        cursor = m;
    }
    assert_eq!(settled, vec![(2023, 12), (2024, 1), (2024, 2)]);
    assert_eq!(next_month_to_settle((2024, 2), (2024, 3)), None);
    assert_eq!(next_month_to_settle((2030, 1), (2024, 3)), None);
    assert_eq!(next_month_to_settle((2023, 40), (2024, 3)), Some((2024, 1)));
}

#[test]
fn settlement_starts_from_a_baseline_or_the_last_month() {
    assert!(settlement_start((0, 0), (2024, 1)) == SettlementStart::Baseline(2023, 12));
    assert!(settlement_start((0, 7), (2024, 5)) == SettlementStart::Baseline(2024, 4));
    assert!(settlement_start((2023, 11), (2024, 5)) == SettlementStart::ResumeAfter(2023, 11));
}

/// The same reading done with the standard library's `lines`, `splitn` and
/// `parse`, for comparison.
fn std_reading(content: &str) -> Option<Vec<String>> {
    let mut lines = content.lines();
    let count = match lines.next()?.trim().parse::<usize>() {
        Ok(c) if c <= 1000 => c,
        _ => return None,
    };
    let cut = |s: &str, max: usize| {
        let mut end = if s.len() > max { max } else { s.len() };
        while end > 0 && !s.is_char_boundary(end) {
            end -= 1;
        }
        s[..end].to_string()
    };
    let mut out = Vec::new();
    for (i, line) in lines.enumerate() {
        if i >= count {
            break;
        }
        let seg: Vec<&str> = line.splitn(6, ',').collect();
        let y = seg[0].parse::<i32>();
        let r = if y.is_err() {
            format!("BadYear({})", seg[0])
        } else if seg.len() < 2 {
            "NoMonth".to_string()
        } else if seg[1].parse::<i32>().is_err() {
            format!("BadMonth({})", seg[1])
        } else if seg.len() < 3 {
            "NoDay".to_string()
        } else if seg[2].parse::<i32>().is_err() {
            format!("BadDay({})", seg[2])
        } else if seg.len() < 4 {
            "NoDescription".to_string()
        } else if seg.len() < 5 {
            "NoAmount".to_string()
        } else {
            format!(
                "{}|{}|{}|{}|{}|{}",
                y.unwrap(),
                seg[1].parse::<i32>().unwrap(),
                seg[2].parse::<i32>().unwrap(),
                cut(seg[3], 100),
                seg[4],
                seg.get(5).map(|c| cut(c, 50)).unwrap_or_default()
            )
        };
        out.push(r);
    }
    Some(out)
}

fn library_reading(content: &str) -> Option<Vec<String>> {
    Some(
        parse_data_file(content)?
            .iter()
            .map(|l| match l {
                RecordLine::Record(f) => format!(
                    "{}|{}|{}|{}|{}|{}",
                    f.year, f.month, f.day, f.description, f.amount_text, f.category
                ),
                RecordLine::BadYear(s) => format!("BadYear({})", s),
                RecordLine::NoMonth => "NoMonth".to_string(),
                RecordLine::BadMonth(s) => format!("BadMonth({})", s),
                RecordLine::NoDay => "NoDay".to_string(),
                RecordLine::BadDay(s) => format!("BadDay({})", s),
                RecordLine::NoDescription => "NoDescription".to_string(),
                RecordLine::NoAmount => "NoAmount".to_string(),
            })
            .collect(),
    )
}

#[test]
fn data_file_reading_matches_the_standard_library() {
    let long = "长".repeat(60);
    let cases = [
        "".to_string(),
        "\n".to_string(),
        "3".to_string(),
        "3\r".to_string(),
        "2\n2024,1,1,a,1,c\r".to_string(),
        "4\r\n2024,1,1,a,1,c\r\n\r\n+7,-0,1,,x,\n\u{3000}".to_string(),
        "\u{2003}2\u{a0}\n1,2,3,4,5,6,7,8\n9\n".to_string(),
        format!("1\n2024,1,1,{},1,{}\n", long, long),
        "2\n2024,1,1,a\rb,1,c\r\r\n2024,2\n".to_string(),
        "1001\n".to_string(),
        "01\n x,1\n".to_string(),
    ];
    for c in cases.iter() {
        assert_eq!(library_reading(c), std_reading(c), "{:?}", c);
    }
}

/// One start-up settlement over a settlement file's text: the months it
/// reports and the file's text afterwards.
fn run_settlement(file: Option<String>, today: (i32, i32)) -> (Vec<(i32, i32)>, Option<String>) {
    let last = read_last_settlement(file.as_deref());
    match settlement_start(last, today) {
        SettlementStart::Baseline(y, m) => (Vec::new(), Some(last_settlement_text(y, m))),
        SettlementStart::ResumeAfter(y, m) => {
            let mut cursor = (y, m);
            let mut months = Vec::new();
            let mut text = file;
            while let Some(n) = next_month_to_settle(cursor, today) {
                months.push(n);
                text = Some(last_settlement_text(n.0, n.1));
                cursor = n;
            }
            (months, text)
        }
    }
}

#[test]
fn settlement_is_idempotent_within_a_month() {
    for file in [None, Some("2023 11\n".to_string()), Some("2024 2\n".to_string()), Some("2025 1\n".to_string())] {
        let (_, after) = run_settlement(file, (2024, 3));
        let (months, again) = run_settlement(after.clone(), (2024, 3));
        assert!(months.is_empty());
        assert_eq!(again, after);
    }
    let (months, after) = run_settlement(Some("2023 11\n".to_string()), (2024, 3));
    assert_eq!(months, vec![(2023, 12), (2024, 1), (2024, 2)]);
    assert_eq!(after, Some("2024 2\n".to_string()));
}
