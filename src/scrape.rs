use vstd::prelude::*;

use crate::dates::{parse_relative_date, relative_day, NullableSqliteDateTime, SqliteDateTime};
use crate::models::{JobPost, JobPostLocationType};
use crate::money::{salaries, salary_range};
use crate::text::{chars_of, contains_seq, find_seq};
use crate::yoe::{find_yoe_naive, yoe_range};

verus! {

/// What `str::to_lowercase` yields for `s`.
pub uninterp spec fn lower_of(s: Seq<char>) -> Seq<char>;

/// Relies on `str::to_lowercase`: the lower-case form of a text depends on the text
/// alone.
#[verifier::external_body]
fn lowercase(s: &str) -> (r: String)
    ensures
        r@ == lower_of(s@),
{
    s.to_lowercase()
}

pub open spec fn remote_word() -> Seq<char> {
    seq!['r', 'e', 'm', 'o', 't', 'e']
}

pub open spec fn hybrid_word() -> Seq<char> {
    seq!['h', 'y', 'b', 'r', 'i', 'd']
}

pub open spec fn job_view_path() -> Seq<char> {
    seq![
        'l', 'i', 'n', 'k', 'e', 'd', 'i', 'n', '.', 'c', 'o', 'm', '/', 'j', 'o', 'b', 's', '/',
        'v', 'i', 'e', 'w',
    ]
}

/// The location type that a lower-case job description implies: remote if it says
/// `remote`, else hybrid if it says `hybrid`, else on-site.
pub open spec fn location_type_of(lowered: Seq<char>) -> JobPostLocationType {
    if contains_seq(lowered, remote_word()) {
        JobPostLocationType::Remote
    } else if contains_seq(lowered, hybrid_word()) {
        JobPostLocationType::Hybrid
    } else {
        JobPostLocationType::Onsite
    }
}

/// The location type that a job description, already in lower case, implies.
pub fn location_type_from_lowered(lowered: &str) -> (r: JobPostLocationType)
    ensures
        r == location_type_of(lowered@),
{
    let v = chars_of(lowered);
    let remote = vec!['r', 'e', 'm', 'o', 't', 'e'];
    let hybrid = vec!['h', 'y', 'b', 'r', 'i', 'd'];
    proof {
        assert(remote@ =~= remote_word());
        assert(hybrid@ =~= hybrid_word());
    }
    if find_seq(&v, &remote) {
        JobPostLocationType::Remote
    } else if find_seq(&v, &hybrid) {
        JobPostLocationType::Hybrid
    } else {
        JobPostLocationType::Onsite
    }
}

/// The location type that a job description implies, whatever its letter case.
pub fn location_type_from_description(description: &str) -> (r: JobPostLocationType)
    ensures
        r == location_type_of(lower_of(description@)),
{
    let lowered = lowercase(description);
    location_type_from_lowered(lowered.as_str())
}

/// Whether `url` is the page of a single job posting that the scraper reads.
pub fn is_job_view_url(url: &str) -> (r: bool)
    ensures
        r == contains_seq(url@, job_view_path()),
{
    let v = chars_of(url);
    let path = vec![
        'l', 'i', 'n', 'k', 'e', 'd', 'i', 'n', '.', 'c', 'o', 'm', '/', 'j', 'o', 'b', 's', '/',
        'v', 'i', 'e', 'w',
    ];
    proof {
        assert(path@ =~= job_view_path());
    }
    find_seq(&v, &path)
}

/// The job post that a posting page describes, from the texts read off the page: its
/// title, its location, its description (as markup), its "posted ... ago" phrase and its
/// salary text (empty where the page shows none), read at the instant `now`.
///
/// The location type comes from the description, the experience range from the
/// description, the pay range from the salary text (first figure the maximum, second
/// the minimum) and the posting date from the phrase, counted back from `now`. The post
/// is not stored yet: its id and its company's id are -1.
pub fn job_post_from_page(
    url: String,
    title: String,
    location: String,
    description: &str,
    posted: &str,
    salary: &str,
    now: SqliteDateTime,
) -> (r: JobPost)
    ensures
        r.id == -1,
        r.company_id == -1,
        r.url == url,
        r.job_title == title,
        r.location == location,
        r.location_type == location_type_of(lower_of(description@)),
        (r.min_yoe, r.max_yoe) == yoe_range(description@),
        r.max_pay_cents == (if salaries(salary@).len() >= 1 {
            Some(salaries(salary@)[0].0 as i64)
        } else {
            None::<i64>
        }),
        r.min_pay_cents == (if salaries(salary@).len() >= 2 {
            Some(salaries(salary@)[1].0 as i64)
        } else {
            None::<i64>
        }),
        match relative_day(posted@, now.0 as int) {
            Some(d) => r.date_posted.0 == Some(d as i64),
            None => r.date_posted.0 is None,
        },
        r.date_retrieved == now,
        r.benefits is None,
        r.skills is None,
        r.pay_unit is None,
        r.currency is None,
        r.apijobs_id is None,
{
    let location_type = location_type_from_description(description);
    let (min_yoe, max_yoe) = find_yoe_naive(description);
    let (min_pay, max_pay) = salary_range(salary);
    let date_posted = NullableSqliteDateTime(parse_relative_date(posted, now));
    JobPost {
        id: -1,
        company_id: -1,
        location,
        location_type,
        url,
        min_yoe,
        max_yoe,
        min_pay_cents: min_pay,
        max_pay_cents: max_pay,
        date_posted,
        date_retrieved: now,
        job_title: title,
        benefits: None,
        skills: None,
        pay_unit: None,
        currency: None,
        apijobs_id: None,
    }
}

} // verus!
