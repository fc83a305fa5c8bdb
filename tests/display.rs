use job_hunter::api::capitalize_words;
use job_hunter::display::{optional_pay, page_in_range, page_offset, pay_text, yoe_text};

#[test]
fn experience_as_listed() {
    assert_eq!(yoe_text(Some(3), Some(5)), "3 - 5 years");
    assert_eq!(yoe_text(Some(3), None), "3+ years");
    assert_eq!(yoe_text(Some(0), None), "0+ years");
    assert_eq!(yoe_text(None, Some(5)), "No YOE found");
    assert_eq!(yoe_text(None, None), "No YOE found");
}

#[test]
fn pay_as_listed() {
    assert_eq!(pay_text(Some(6_000_000), Some(8_500_000)), "$60000.00 - $85000.00");
    assert_eq!(pay_text(Some(6_000_000), None), "$60000.00+");
    assert_eq!(pay_text(None, Some(4250)), "$42.50");
    assert_eq!(pay_text(None, None), "No salary specified");
}

#[test]
fn pay_fields_of_the_form() {
    assert_eq!(optional_pay(""), Ok(None));
    assert_eq!(optional_pay("12.5"), Ok(Some(1250)));
    assert_eq!(optional_pay("twelve"), Err("Invalid input string".to_string()));
}

#[test]
fn pages() {
    assert!(!page_in_range(1, 0, 10));
    assert!(page_in_range(1, 5, 10));
    assert!(page_in_range(2, 11, 10));
    assert!(!page_in_range(3, 11, 10));
    assert!(!page_in_range(0, 11, 10));
    assert_eq!(page_offset(1, 20), 0);
    assert_eq!(page_offset(3, 20), 40);
}

#[test]
fn countries_capitalized() {
    assert_eq!(capitalize_words("  united   states "), "United States");
    assert_eq!(capitalize_words("germany"), "Germany");
    assert_eq!(capitalize_words("éire"), "Éire");
    assert_eq!(capitalize_words(""), "");
    assert_eq!(capitalize_words("   "), "");
}
