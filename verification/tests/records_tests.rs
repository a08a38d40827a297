use rust_days::records::{
    department_totals_fit, highest_paid, is_header_row, median_pair, parse_record, parse_records,
    ranked_department_totals, salary_by_department, salary_total, usage, Record,
};

fn rec(name: &str, dept: &str, salary: u32) -> Record {
    Record { name: name.to_string(), department: dept.to_string(), salary }
}

#[test]
fn parse_record_fields() {
    let r = parse_record(" Ann , Eng , 100 ").expect("valid");
    assert_eq!(r.name, "Ann");
    assert_eq!(r.department, "Eng");
    assert_eq!(r.salary, 100);
    assert!(parse_record("Ann,Eng").is_none());
    assert!(parse_record("Ann,Eng,100,extra").is_none());
    assert!(parse_record(",Eng,100").is_none());
    assert!(parse_record("Ann,,100").is_none());
    assert!(parse_record("Ann,Eng,-1").is_none());
}

#[test]
fn header_rows() {
    assert!(is_header_row("name,department,salary"));
    assert!(is_header_row(" NAME , Department ,SALARY"));
    assert!(!is_header_row("name,department"));
    assert!(!is_header_row("name,dept,salary"));
}

#[test]
fn parse_records_skips_headers_and_bad_lines() {
    let text = "name,department,salary\n\n Ann,Eng,100\r\nbad line\nBob,Ops,50\nname,department,salary\n";
    let rs = parse_records(text);
    assert_eq!(rs.len(), 2);
    assert_eq!(rs[0].name, "Ann");
    assert_eq!(rs[1].name, "Bob");
    assert!(parse_records("").is_empty());
}

#[test]
fn statistics() {
    let rs = vec![rec("a", "Eng", 100), rec("b", "Ops", 300), rec("c", "Eng", 300)];
    let top = highest_paid(&rs).expect("non-empty");
    assert_eq!(top.name, "c");
    assert!(highest_paid(&[]).is_none());
    assert_eq!(median_pair(&rs), Some((300, 300)));
    assert_eq!(median_pair(&rs[..2]), Some((100, 300)));
    assert_eq!(median_pair(&[]), None);
    let totals = salary_by_department(&rs);
    let ranked = ranked_department_totals(totals);
    assert_eq!(ranked, vec![("Eng".to_string(), 400), ("Ops".to_string(), 300)]);
    let tie = vec![rec("a", "B", 5), rec("b", "A", 5)];
    assert_eq!(
        ranked_department_totals(salary_by_department(&tie)),
        vec![("A".to_string(), 5), ("B".to_string(), 5)]
    );
    assert!(usage("salaries").starts_with("Usage:\n  salaries [path]\n"));
}

#[test]
fn salary_total_sums_all_rows() {
    let rs = vec![rec("a", "Eng", 100), rec("b", "Ops", 300), rec("c", "Eng", u32::MAX)];
    assert_eq!(salary_total(&rs), 400 + u32::MAX as u64);
    assert_eq!(salary_total(&[]), 0);
}

#[test]
fn department_totals_fit_detects_overflow() {
    let rs = vec![rec("a", "Eng", u32::MAX), rec("b", "Ops", u32::MAX), rec("c", "Eng", 0)];
    assert!(department_totals_fit(&rs));
    let over = vec![rec("a", "Eng", u32::MAX), rec("b", "Ops", 1), rec("c", "Eng", 1)];
    assert!(!department_totals_fit(&over));
    assert!(department_totals_fit(&[]));
}
