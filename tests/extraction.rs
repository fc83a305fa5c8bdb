use job_hunter::listing::{format_comma_separated, format_location, opt_str_from_db, total_pages};
use job_hunter::money::{get_pay_i64, get_pay_str, parse_salary, salary_range};
use job_hunter::yoe::find_yoe_naive;

#[test]
fn salary_range_first_is_max_second_is_min() {
    let text = "$85,000.00/yr - $60,000.00/yr";
    let found = parse_salary(text);
    assert_eq!(found, vec![(8_500_000, "yr".to_string()), (6_000_000, "yr".to_string())]);
    assert_eq!(salary_range(text), (Some(6_000_000), Some(8_500_000)));
}

#[test]
fn salary_single_figure_fills_max_only() {
    assert_eq!(salary_range("Base pay: $42.50/hr"), (None, Some(4250)));
    assert_eq!(parse_salary("Base pay: $42.50/hr"), vec![(4250, "hr".to_string())]);
}

#[test]
fn salary_none_found() {
    assert_eq!(salary_range("Competitive pay"), (None, None));
    assert!(parse_salary("$85000/yr").is_empty());
    // Arabic-Indic digits join the figure, which then is no number.
    assert!(parse_salary("$\u{668}\u{665},000.00/yr").is_empty());
    // With no non-digit before it, the figure starts at the comma.
    assert_eq!(parse_salary("85,000.00/yr"), vec![(0, "yr".to_string())]);
}

#[test]
fn salary_inside_larger_text() {
    let text = "<span>$120,000.00/yr - $95,500.25/yr</span> plus equity";
    assert_eq!(
        parse_salary(text),
        vec![(12_000_000, "yr".to_string()), (9_550_025, "yr".to_string())]
    );
    assert_eq!(salary_range(text), (Some(9_550_025), Some(12_000_000)));
}

#[test]
fn yoe_global_envelope() {
    let text = "Requires 3-5 years of experience, prefer 7+ years in the specific stack";
    assert_eq!(find_yoe_naive(text), (Some(3), Some(7)));
}

#[test]
fn yoe_single_value() {
    assert_eq!(find_yoe_naive("5 years"), (Some(5), None));
    assert_eq!(find_yoe_naive("Must have 5 years of experience"), (Some(5), None));
}

#[test]
fn yoe_plus_and_plural_forms() {
    assert_eq!(find_yoe_naive("at least 10+ years"), (Some(10), None));
    assert_eq!(find_yoe_naive("2 year minimum, ideally 4 years"), (Some(2), Some(4)));
}

#[test]
fn yoe_single_count_at_text_start() {
    assert_eq!(find_yoe_naive("15 years"), (Some(15), None));
    assert_eq!(find_yoe_naive("10+ years of experience"), (Some(10), None));
    assert_eq!(find_yoe_naive("Requires 15 years"), (Some(15), None));
}

#[test]
fn yoe_digits_of_other_scripts_match_but_give_no_count() {
    // An Arabic-Indic three joins the run of digits, which then is no i64.
    assert_eq!(find_yoe_naive("Requires 1\u{663}5 years"), (None, None));
    assert_eq!(find_yoe_naive("\u{663}-5 years"), (Some(5), None));
}

#[test]
fn digit_class_is_the_regex_class() {
    let re = regex::Regex::new(r"^\d$").unwrap();
    for u in 0..=0x10FFFFu32 {
        if let Some(c) = char::from_u32(u) {
            assert_eq!(job_hunter::text::is_decimal_digit(c), re.is_match(&c.to_string()), "{u:x}");
        }
    }
}

#[test]
fn yoe_nothing_found() {
    assert_eq!(find_yoe_naive("no experience needed"), (None, None));
    assert_eq!(find_yoe_naive(""), (None, None));
    assert_eq!(find_yoe_naive("5years"), (None, None));
}

#[test]
fn money_parses_plain_decimals() {
    assert_eq!(get_pay_i64("85000"), Ok(8_500_000));
    assert_eq!(get_pay_i64("85000.5"), Ok(8_500_050));
    assert_eq!(get_pay_i64("85000.50"), Ok(8_500_050));
    assert_eq!(get_pay_i64(".75"), Ok(75));
    assert_eq!(get_pay_i64("5."), Ok(500));
    assert_eq!(get_pay_i64("+3"), Ok(300));
    assert_eq!(get_pay_i64("0"), Ok(0));
}

#[test]
fn money_parses_exponents() {
    assert_eq!(get_pay_i64("1e2"), Ok(10_000));
    assert_eq!(get_pay_i64("2.5E3"), Ok(250_000));
    assert_eq!(get_pay_i64("1e-1"), Ok(10));
    assert_eq!(get_pay_i64("1.5e-2"), Ok(2));
    assert_eq!(get_pay_i64("-1e-3"), Ok(0));
    assert_eq!(get_pay_i64("8.5e+4"), Ok(8_500_000));
    assert_eq!(get_pay_i64("5.e1"), Ok(5000));
    assert_eq!(get_pay_i64("0e99999999999999999999999999999999999"), Ok(0));
    assert_eq!(get_pay_i64("5e-99999999999999999999999999999999999"), Ok(0));
    assert_eq!(get_pay_i64("123456789e-12"), Ok(0));
    assert_eq!(get_pay_i64("123456789e-9"), Ok(12));
}

#[test]
fn money_rejects_bad_exponents_and_words() {
    let err = Err("Invalid input string".to_string());
    assert_eq!(get_pay_i64("1e"), err);
    assert_eq!(get_pay_i64("e5"), err);
    assert_eq!(get_pay_i64("1e+"), err);
    assert_eq!(get_pay_i64("1e2.5"), err);
    assert_eq!(get_pay_i64("inf"), err);
    assert_eq!(get_pay_i64("NaN"), err);
    assert_eq!(get_pay_i64("1e17"), err);
    assert_eq!(get_pay_i64("1e99999999999999999999999999999999999"), err);
}

#[test]
fn money_rounds_half_away_from_zero() {
    assert_eq!(get_pay_i64("0.125"), Ok(13));
    assert_eq!(get_pay_i64("0.124999"), Ok(12));
    assert_eq!(get_pay_i64("-12.345"), Ok(-1235));
    assert_eq!(get_pay_i64("19.999"), Ok(2000));
}

#[test]
fn money_rejects_other_text() {
    let err = Err("Invalid input string".to_string());
    assert_eq!(get_pay_i64("85,000"), err);
    assert_eq!(get_pay_i64("abc"), err);
    assert_eq!(get_pay_i64(""), err);
    assert_eq!(get_pay_i64("."), err);
    assert_eq!(get_pay_i64("-"), err);
    assert_eq!(get_pay_i64(" 5"), err);
    assert_eq!(get_pay_i64("99999999999999999999"), err);
}

#[test]
fn no_digit_text_gives_nothing() {
    let text = "Salary: competitive, years: several";
    assert!(get_pay_i64(text).is_err());
    assert_eq!(find_yoe_naive(text), (None, None));
    assert!(parse_salary(text).is_empty());
}

#[test]
fn pay_shown_with_two_decimals() {
    assert_eq!(get_pay_str(Some(8_500_000)), "85000.00");
    assert_eq!(get_pay_str(Some(4250)), "42.50");
    assert_eq!(get_pay_str(Some(-5)), "-0.05");
    assert_eq!(get_pay_str(Some(0)), "0.00");
    assert_eq!(get_pay_str(None), "");
    assert_eq!(get_pay_str(Some(i64::MIN)), "-92233720368547758.08");
}

#[test]
fn list_normalized() {
    assert_eq!(format_comma_separated("  python, sql,Go ".to_string()), "Python, Sql, Go");
    assert_eq!(format_comma_separated("rust".to_string()), "Rust");
    assert_eq!(format_comma_separated("".to_string()), "");
}

#[test]
fn list_keeps_empty_entries() {
    assert_eq!(format_comma_separated("a,,b,".to_string()), "A, , B, ");
}

#[test]
fn list_upper_cases_non_ascii_first_letter() {
    assert_eq!(format_comma_separated("élan, straße".to_string()), "Élan, Straße");
}

#[test]
fn list_normalizing_twice_changes_nothing() {
    for s in ["  python, sql,Go ", "a,,b,", "", " x ,y", "already, Fine"] {
        let once = format_comma_separated(s.to_string());
        let twice = format_comma_separated(once.clone());
        assert_eq!(once, twice);
    }
}

#[test]
fn location_skips_blank_parts() {
    assert_eq!(format_location("", "Remote", "USA"), "Remote, USA");
    assert_eq!(format_location(" Austin ", " ", "USA "), "Austin, USA");
    assert_eq!(format_location("Paris", "Île-de-France", "France"), "Paris, Île-de-France, France");
    assert_eq!(format_location("  ", "", "\t"), "");
    assert_eq!(format_location("Berlin", "", ""), "Berlin");
}

#[test]
fn location_never_has_stray_separators() {
    let parts = ["", " ", "Lyon", "FR"];
    for a in parts {
        for b in parts {
            for c in parts {
                let r = format_location(a, b, c);
                assert!(!r.starts_with(", "), "{r:?}");
                assert!(!r.ends_with(", "), "{r:?}");
                assert!(!r.contains(", , "), "{r:?}");
                assert!(!r.starts_with(' ') && !r.ends_with(' '), "{r:?}");
            }
        }
    }
}

#[test]
fn empty_store_text_is_no_value() {
    assert_eq!(opt_str_from_db(Some(String::new())), None);
    assert_eq!(opt_str_from_db(Some("x".to_string())), Some("x".to_string()));
    assert_eq!(opt_str_from_db(None), None);
}

#[test]
fn pages_round_up() {
    assert_eq!(total_pages(0, 10), 0);
    assert_eq!(total_pages(10, 10), 1);
    assert_eq!(total_pages(11, 10), 2);
    assert_eq!(total_pages(1, 25), 1);
    assert_eq!(total_pages(-5, 10), 0);
    assert_eq!(total_pages(5, -2), -1);
    assert_eq!(total_pages(-20, 3), -6);
    assert_eq!(total_pages(i64::MAX, 1), i64::MAX);
}
