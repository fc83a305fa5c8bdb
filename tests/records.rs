use job_hunter::api::{location_type_from_workplace, workplace_filter_param, years_from_months, ApiJob};
use job_hunter::dates::{NullableSqliteDateTime, SqliteDateTime};
use job_hunter::filters::QueryStep;
use job_hunter::models::{JobApplication, JobApplicationStatus, JobPost, JobPostLocationType, SqliteBoolean};
use job_hunter::scrape::{is_job_view_url, job_post_from_page, location_type_from_description};

fn sql(s: &str) -> String {
    format!("S:{s}")
}

fn render(steps: &[QueryStep]) -> Vec<String> {
    steps
        .iter()
        .map(|s| match s {
            QueryStep::Sql(t) => sql(t),
            QueryStep::Text(t) => format!("T:{t}"),
            QueryStep::Int(n) => format!("I:{n}"),
        })
        .collect()
}

#[test]
fn filters_all_set() {
    let q = JobPost::add_filters(
        vec![QueryStep::Sql("company.hidden = 0".to_string())],
        "rust".to_string(),
        "Berlin".to_string(),
        2,
        5,
        true,
        false,
        true,
        "Acme".to_string(),
    );
    assert_eq!(
        render(&q),
        vec![
            sql("company.hidden = 0"),
            sql(" AND company.name LIKE "),
            "T:%Acme%".to_string(),
            sql(" AND min_yoe = "),
            "I:2".to_string(),
            sql(" AND max_yoe <= "),
            "I:5".to_string(),
            sql(" AND job_title LIKE "),
            "T:%rust%".to_string(),
            sql(" AND location LIKE "),
            "T:%Berlin%".to_string(),
            sql(" AND location_type IN ("),
            "T:Onsite".to_string(),
            sql(", "),
            "T:Remote".to_string(),
            sql(")"),
        ]
    );
}

#[test]
fn filters_none_set() {
    let q = JobPost::add_filters(
        Vec::new(),
        String::new(),
        String::new(),
        0,
        0,
        false,
        false,
        false,
        String::new(),
    );
    assert!(q.is_empty());
}

#[test]
fn filters_minimum_only() {
    let q = JobPost::add_filters(
        Vec::new(),
        String::new(),
        String::new(),
        3,
        3,
        false,
        true,
        false,
        String::new(),
    );
    assert_eq!(
        render(&q),
        vec![
            sql(" AND min_yoe = "),
            "I:3".to_string(),
            sql(" AND location_type IN ("),
            "T:Hybrid".to_string(),
            sql(")"),
        ]
    );
}

#[test]
fn description_location_type_ignores_case() {
    assert_eq!(location_type_from_description("<p>Fully REMOTE role</p>"), JobPostLocationType::Remote);
    assert_eq!(location_type_from_description("Hybrid: 2 days in office"), JobPostLocationType::Hybrid);
    assert_eq!(location_type_from_description("Remote or hybrid"), JobPostLocationType::Remote);
    assert_eq!(location_type_from_description("In the office"), JobPostLocationType::Onsite);
}

#[test]
fn job_view_urls() {
    assert!(is_job_view_url("https://www.linkedin.com/jobs/view/12345"));
    assert!(!is_job_view_url("https://www.linkedin.com/jobs/search"));
    assert!(!is_job_view_url(""));
}

#[test]
fn post_from_scraped_page() {
    let now = SqliteDateTime(1_718_000_000);
    let p = job_post_from_page(
        "https://www.linkedin.com/jobs/view/1".to_string(),
        "Backend Engineer".to_string(),
        "Austin, TX".to_string(),
        "<div>Requires 3-5 years. Remote friendly.</div>",
        "2 days ago",
        "$150,000.00/yr - $120,000.00/yr",
        now,
    );
    assert_eq!(p.id, -1);
    assert_eq!(p.company_id, -1);
    assert_eq!(p.location_type, JobPostLocationType::Remote);
    assert_eq!((p.min_yoe, p.max_yoe), (Some(3), Some(5)));
    assert_eq!(p.max_pay_cents, Some(15_000_000));
    assert_eq!(p.min_pay_cents, Some(12_000_000));
    assert_eq!(p.date_posted, NullableSqliteDateTime(Some((1_718_000_000 - 2 * 86_400) / 86_400)));
    assert_eq!(p.date_retrieved, now);
    assert_eq!(p.job_title, "Backend Engineer");
    assert_eq!(p.location, "Austin, TX");
    assert_eq!(p.skills, None);
}

#[test]
fn months_to_years() {
    assert_eq!(years_from_months(18), 2);
    assert_eq!(years_from_months(17), 1);
    assert_eq!(years_from_months(24), 2);
    assert_eq!(years_from_months(0), 0);
    assert_eq!(years_from_months(-18), -2);
    assert_eq!(years_from_months(i64::MIN), -768614336404564651);
}

#[test]
fn workplace_types() {
    assert_eq!(location_type_from_workplace(&Some("on-site".to_string())), Some(JobPostLocationType::Onsite));
    assert_eq!(location_type_from_workplace(&Some("hybrid".to_string())), Some(JobPostLocationType::Hybrid));
    assert_eq!(location_type_from_workplace(&Some("Remote".to_string())), Some(JobPostLocationType::Remote));
    assert_eq!(location_type_from_workplace(&None), Some(JobPostLocationType::Unknown));
    assert_eq!(location_type_from_workplace(&Some("full-time".to_string())), None);
    assert_eq!(location_type_from_workplace(&Some(String::new())), None);
    assert_eq!(workplace_filter_param(true, false, true), "on-site,remote");
    assert_eq!(workplace_filter_param(false, false, false), "");
}

fn listing(workplace: Option<&str>, published_at: &str) -> ApiJob {
    ApiJob {
        id: "abc".to_string(),
        title: "Data Engineer".to_string(),
        employment_type: None,
        workplace_type: workplace.map(|s| s.to_string()),
        hiring_organization_name: "Acme".to_string(),
        country: "USA".to_string(),
        region: Some("Texas".to_string()),
        city: None,
        base_salary_currency: Some("USD".to_string()),
        base_salary_min_cents: Some(9_000_000),
        base_salary_max_cents: None,
        base_salary_unit: Some("year".to_string()),
        experience_requirements_months: Some(30),
        skills_requirements: Some(vec!["sql".to_string(), "python".to_string()]),
        website: "https://acme.example".to_string(),
        url: "https://jobs.example/abc".to_string(),
        published_at: published_at.to_string(),
    }
}

#[test]
fn listing_into_post() {
    let now = SqliteDateTime(1_718_000_000);
    let p = listing(Some("on-site"), "2024-06-10T08:00:00Z").into_job_post(7, now).unwrap();
    assert_eq!(p.company_id, 7);
    assert_eq!(p.location, "Texas, USA");
    assert_eq!(p.location_type, JobPostLocationType::Onsite);
    assert_eq!(p.min_yoe, Some(3));
    assert_eq!(p.max_yoe, None);
    assert_eq!(p.min_pay_cents, Some(9_000_000));
    assert_eq!(p.skills, Some("sql,python".to_string()));
    assert_eq!(p.date_posted.format("%Y-%m-%d"), "2024-06-10");
    assert_eq!(p.apijobs_id, Some("abc".to_string()));
    assert_eq!(p.pay_unit, Some("year".to_string()));
}

#[test]
fn listing_unreadable() {
    let now = SqliteDateTime(0);
    assert!(listing(Some("office"), "2024-06-10T08:00:00Z").into_job_post(1, now).is_none());
    assert!(listing(Some("remote"), "yesterday").into_job_post(1, now).is_none());
}

#[test]
fn new_application() {
    let a = JobApplication::new(4, 9, JobApplicationStatus::Applied, Some(19884), None, true);
    assert_eq!(a.id, 4);
    assert_eq!(a.job_post_id, 9);
    assert_eq!(a.status, JobApplicationStatus::Applied);
    assert_eq!(a.date_applied, NullableSqliteDateTime(Some(19884)));
    assert_eq!(a.date_responded, NullableSqliteDateTime(None));
    assert_eq!(a.interviewed, SqliteBoolean(true));
}
