use vstd::prelude::*;

use crate::dates::{day_in_range, parse_iso_date, rfc3339_seconds, SqliteDateTime};
use crate::listing::{format_location, list_sep, location_parts, to_upper, upper_of};
use crate::models::{
    lemma_location_type_names_distinct, location_type_name, JobPost, JobPostLocationType,
};
use crate::text::{
    append_chars, chars_of, is_whitespace, is_ws, join, join_strings, lemma_join_push, string_of,
    without_char,
};

verus! {

/// A job as the job-search service lists it. Pay is in cents.
pub struct ApiJob {
    pub id: String,
    pub title: String,
    pub employment_type: Option<String>,
    pub workplace_type: Option<String>,
    pub hiring_organization_name: String,
    pub country: String,
    pub region: Option<String>,
    pub city: Option<String>,
    pub base_salary_currency: Option<String>,
    pub base_salary_min_cents: Option<i64>,
    pub base_salary_max_cents: Option<i64>,
    pub base_salary_unit: Option<String>,
    pub experience_requirements_months: Option<i64>,
    pub skills_requirements: Option<Vec<String>>,
    pub website: String,
    pub url: String,
    pub published_at: String,
}

/// A number of months in whole years, rounded half away from zero.
pub open spec fn years_of_months(m: int) -> int {
    if m >= 0 {
        (m + 6) / 12
    } else {
        -((6 - m) / 12)
    }
}

/// Rounds a number of months to whole years, halves away from zero.
pub fn years_from_months(months: i64) -> (r: i64)
    ensures
        r as int == years_of_months(months as int),
{
    let m = months as i128;
    let y = if m >= 0 {
        (m + 6) / 12
    } else {
        -((6 - m) / 12)
    };
    y as i64
}

/// `s` with an ASCII lower-case first letter put in upper case.
pub open spec fn upper_first_ascii(s: Seq<char>) -> Seq<char> {
    if s.len() > 0 && 97 <= s[0] as u32 <= 122 {
        s.update(0, (((s[0] as u32) - 32) as u8) as char)
    } else {
        s
    }
}

/// The location type that the service's workplace type names (`on-site`, `hybrid`,
/// `remote`): without its dashes and with its first letter in upper case, it is the
/// type's name. No workplace type is `Unknown`; one of any other form is none.
pub open spec fn workplace_location_type(w: Option<Seq<char>>) -> Option<JobPostLocationType> {
    match w {
        None => Some(JobPostLocationType::Unknown),
        Some(w) => {
            let n = upper_first_ascii(without_char(w, '-'));
            if location_type_name(JobPostLocationType::Onsite) == n {
                Some(JobPostLocationType::Onsite)
            } else if location_type_name(JobPostLocationType::Hybrid) == n {
                Some(JobPostLocationType::Hybrid)
            } else if location_type_name(JobPostLocationType::Remote) == n {
                Some(JobPostLocationType::Remote)
            } else if location_type_name(JobPostLocationType::Unknown) == n {
                Some(JobPostLocationType::Unknown)
            } else {
                None
            }
        },
    }
}

proof fn lemma_without_char_push(s: Seq<char>, c: char, x: char)
    ensures
        without_char(s.push(x), c) == (if x == c {
            without_char(s, c)
        } else {
            without_char(s, c).push(x)
        }),
{
    assert(s.push(x).drop_last() =~= s);
}

/// The location type for the service's workplace type; see `workplace_location_type`.
pub fn location_type_from_workplace(workplace_type: &Option<String>) -> (r: Option<JobPostLocationType>)
    ensures
        r == workplace_location_type(
            match workplace_type {
                Some(w) => Some(w@),
                None => None,
            },
        ),
{
    let w = match workplace_type {
        Some(w) => w,
        None => {
            return Some(JobPostLocationType::Unknown);
        },
    };
    let v = chars_of(w.as_str());
    let mut n: Vec<char> = Vec::new();
    let mut k: usize = 0;
    while k < v.len()
        invariant
            k <= v.len(),
            n@ == without_char(v@.subrange(0, k as int), '-'),
        decreases v.len() - k,
    {
        proof {
            assert(v@.subrange(0, k + 1) =~= v@.subrange(0, k as int).push(v@[k as int]));
            lemma_without_char_push(v@.subrange(0, k as int), '-', v@[k as int]);
        }
        if v[k] != '-' {
            n.push(v[k]);
        }
        k = k + 1;
    }
    proof {
        assert(v@.subrange(0, k as int) =~= v@);
    }
    let ghost plain = n@;
    if n.len() > 0 && 97 <= n[0] as u32 && n[0] as u32 <= 122 {
        let c = (((n[0] as u32) - 32) as u8) as char;
        n.set(0, c);
        proof {
            assert(97 <= plain[0] as u32 <= 122);
            assert(n@ =~= plain.update(0, c));
        }
    }
    proof {
        assert(n@ =~= upper_first_ascii(plain));
    }
    let name = string_of(n);
    let r = JobPostLocationType::from_name(name.as_str());
    proof {
        if let Some(t) = r {
            lemma_location_type_names_distinct(t, JobPostLocationType::Onsite);
            lemma_location_type_names_distinct(t, JobPostLocationType::Hybrid);
            lemma_location_type_names_distinct(t, JobPostLocationType::Remote);
            lemma_location_type_names_distinct(t, JobPostLocationType::Unknown);
        }
    }
    r
}

/// The skills listed one after the other, separated by commas.
pub open spec fn skills_text(skills: Option<Seq<Seq<char>>>) -> Option<Seq<char>> {
    match skills {
        Some(s) => Some(join(s, seq![','])),
        None => None,
    }
}

impl ApiJob {
    /// The skills as one view per skill.
    pub open spec fn skills_view(&self) -> Option<Seq<Seq<char>>> {
        match self.skills_requirements {
            Some(v) => Some(v@.map_values(|s: String| s@)),
            None => None,
        }
    }

    pub open spec fn place_view(o: Option<String>) -> Seq<char> {
        match o {
            Some(s) => s@,
            None => Seq::empty(),
        }
    }

    /// The job post that this listing describes, for the company `company_id`, read at
    /// `now`. Nothing where its workplace type or its publication date cannot be read.
    ///
    /// The post takes the listing's title, url, id, pay and pay unit and currency; its
    /// minimum experience is the required months in whole years; its location joins the
    /// city, region and country; its skills are joined with commas; its posting date is
    /// the UTC date of the publication time.
    pub fn into_job_post(self, company_id: i64, now: SqliteDateTime) -> (r: Option<JobPost>)
        ensures
            r is Some <==> (workplace_location_type(
                match self.workplace_type {
                    Some(w) => Some(w@),
                    None => None,
                },
            ) is Some && rfc3339_seconds(self.published_at@) is Some && day_in_range(
                rfc3339_seconds(self.published_at@)->0,
            ) is Some),
            r matches Some(p) ==> {
                &&& p.id == 0
                &&& p.company_id == company_id
                &&& p.location@ == join(
                    location_parts(
                        Self::place_view(self.city),
                        Self::place_view(self.region),
                        self.country@,
                    ),
                    list_sep(),
                )
                &&& Some(p.location_type) == workplace_location_type(
                    match self.workplace_type {
                        Some(w) => Some(w@),
                        None => None,
                    },
                )
                &&& p.url == self.url
                &&& p.min_yoe == match self.experience_requirements_months {
                    Some(m) => Some(years_of_months(m as int) as i64),
                    None => None::<i64>,
                }
                &&& p.max_yoe is None
                &&& p.min_pay_cents == self.base_salary_min_cents
                &&& p.max_pay_cents == self.base_salary_max_cents
                &&& p.date_posted.0 == Some(
                    day_in_range(rfc3339_seconds(self.published_at@)->0)->0 as i64,
                )
                &&& p.date_retrieved == now
                &&& p.job_title == self.title
                &&& p.benefits is None
                &&& match p.skills {
                    Some(s) => skills_text(self.skills_view()) == Some(s@),
                    None => skills_text(self.skills_view()) is None,
                }
                &&& p.pay_unit == self.base_salary_unit
                &&& p.currency == self.base_salary_currency
                &&& p.apijobs_id == Some(self.id)
            },
    {
        let location_type = match location_type_from_workplace(&self.workplace_type) {
            Some(t) => t,
            None => {
                return None;
            },
        };
        let date_posted = match parse_iso_date(self.published_at.as_str()) {
            Some(d) => d,
            None => {
                return None;
            },
        };
        let min_yoe = match self.experience_requirements_months {
            Some(m) => Some(years_from_months(m)),
            None => None,
        };
        let skills = match &self.skills_requirements {
            Some(v) => Some(join_strings(v, ",")),
            None => None,
        };
        proof {
            reveal_strlit(",");
            assert(",".view() =~= seq![',']);
        }
        let empty = string_of(Vec::new());
        let city = match &self.city {
            Some(c) => c.as_str(),
            None => empty.as_str(),
        };
        let region = match &self.region {
            Some(c) => c.as_str(),
            None => empty.as_str(),
        };
        let location = format_location(city, region, self.country.as_str());
        Some(
            JobPost {
                id: 0,
                company_id,
                location,
                location_type,
                url: self.url,
                min_yoe,
                max_yoe: None,
                min_pay_cents: self.base_salary_min_cents,
                max_pay_cents: self.base_salary_max_cents,
                date_posted,
                date_retrieved: now,
                job_title: self.title,
                benefits: None,
                skills,
                pay_unit: self.base_salary_unit,
                currency: self.base_salary_currency,
                apijobs_id: Some(self.id),
            },
        )
    }
}

/// The service's names for the checked location types, comma-separated, in the order
/// on-site, hybrid, remote.
pub open spec fn workplace_filter(onsite: bool, hybrid: bool, remote: bool) -> Seq<char> {
    join(
        (if onsite {
            seq![seq!['o', 'n', '-', 's', 'i', 't', 'e']]
        } else {
            Seq::empty()
        }) + (if hybrid {
            seq![seq!['h', 'y', 'b', 'r', 'i', 'd']]
        } else {
            Seq::empty()
        }) + (if remote {
            seq![seq!['r', 'e', 'm', 'o', 't', 'e']]
        } else {
            Seq::empty()
        }),
        seq![','],
    )
}

/// The workplace types to ask the job-search service for.
pub fn workplace_filter_param(onsite: bool, hybrid: bool, remote: bool) -> (r: String)
    ensures
        r@ == workplace_filter(onsite, hybrid, remote),
{
    let mut parts: Vec<String> = Vec::new();
    if onsite {
        parts.push(string_of(vec!['o', 'n', '-', 's', 'i', 't', 'e']));
    }
    if hybrid {
        parts.push(string_of(vec!['h', 'y', 'b', 'r', 'i', 'd']));
    }
    if remote {
        parts.push(string_of(vec!['r', 'e', 'm', 'o', 't', 'e']));
    }
    let r = join_strings(&parts, ",");
    proof {
        reveal_strlit(",");
        assert(",".view() =~= seq![',']);
        let expected = (if onsite {
            seq![seq!['o', 'n', '-', 's', 'i', 't', 'e']]
        } else {
            Seq::empty()
        }) + (if hybrid {
            seq![seq!['h', 'y', 'b', 'r', 'i', 'd']]
        } else {
            Seq::empty()
        }) + (if remote {
            seq![seq!['r', 'e', 'm', 'o', 't', 'e']]
        } else {
            Seq::empty()
        });
        assert(parts@.map_values(|s: String| s@) =~~= expected);
    }
    r
}

/// The words of `s`: its runs of non-whitespace characters, as `str::split_whitespace`
/// gives them.
pub open spec fn words(s: Seq<char>) -> Seq<Seq<char>>
    decreases s.len(),
{
    if s.len() == 0 {
        Seq::empty()
    } else {
        let w = words(s.drop_last());
        if is_ws(s.last()) {
            w
        } else if s.len() >= 2 && !is_ws(s[s.len() - 2]) {
            w.update(w.len() - 1, w.last().push(s.last()))
        } else {
            w.push(seq![s.last()])
        }
    }
}

/// A word with its first character in upper case.
pub open spec fn cap_word(w: Seq<char>) -> Seq<char> {
    if w.len() == 0 {
        w
    } else {
        upper_of(w[0]) + w.subrange(1, w.len() as int)
    }
}

/// `s` with each word capitalised, the words joined by single spaces.
pub open spec fn capitalized_words(s: Seq<char>) -> Seq<char> {
    join(words(s).map_values(|w: Seq<char>| cap_word(w)), seq![' '])
}

proof fn lemma_words_end(s: Seq<char>)
    requires
        s.len() > 0,
        !is_ws(s.last()),
    ensures
        words(s).len() > 0,
        words(s).last().len() > 0,
    decreases s.len(),
{
    if s.len() >= 2 && !is_ws(s[s.len() - 2]) {
        let t = s.drop_last();
        assert(t.last() == s[s.len() - 2]);
        lemma_words_end(t);
    }
}

/// Each word of `location` capitalised, the words joined by single spaces; the
/// job-search service matches countries only when capitalised.
pub fn capitalize_words(location: &str) -> (r: String)
    ensures
        r@ == capitalized_words(location@),
{
    let v = chars_of(location);
    let ghost f = |w: Seq<char>| cap_word(w);
    let mut out: Vec<char> = Vec::new();
    let mut count: usize = 0;
    let mut k: usize = 0;
    while k < v.len()
        invariant
            k <= v.len(),
            f == (|w: Seq<char>| cap_word(w)),
            count == words(v@.subrange(0, k as int)).len(),
            count <= k,
            out@ == join(words(v@.subrange(0, k as int)).map_values(f), seq![' ']),
            k > 0 && !is_ws(v@[k - 1]) ==> count > 0 && words(v@.subrange(0, k as int)).last().len() > 0,
        decreases v.len() - k,
    {
        let c = v[k];
        let ghost pre = v@.subrange(0, k as int);
        let ghost s = v@.subrange(0, k + 1);
        let ghost w = words(pre);
        proof {
            assert(s.drop_last() =~= pre);
            assert(s.last() == c);
            if k > 0 {
                assert(s[s.len() - 2] == v@[k - 1]);
            }
        }
        if is_whitespace(c) {
        } else if k > 0 && !is_whitespace(v[k - 1]) {
            out.push(c);
            proof {
                let last = w.last();
                let w2 = w.update(w.len() - 1, last.push(c));
                assert(w2.map_values(f) =~~= w.map_values(f).drop_last().push(f(last.push(c))));
                assert(w.map_values(f) =~~= w.map_values(f).drop_last().push(f(last)));
                assert(f(last.push(c)) =~= f(last).push(c));
                lemma_join_push(w.map_values(f).drop_last(), f(last), seq![' ']);
                lemma_join_push(w.map_values(f).drop_last(), f(last).push(c), seq![' ']);
                assert(out@ =~= join(w2.map_values(f), seq![' ']));
            }
        } else {
            if count > 0 {
                out.push(' ');
            }
            let up = to_upper(c);
            append_chars(&mut out, &up);
            proof {
                let w2 = w.push(seq![c]);
                assert(w2.map_values(f) =~~= w.map_values(f).push(f(seq![c])));
                assert(f(seq![c]) =~= upper_of(c));
                lemma_join_push(w.map_values(f), f(seq![c]), seq![' ']);
                assert(out@ =~= join(w2.map_values(f), seq![' ']));
            }
            count = count + 1;
        }
        k = k + 1;
        proof {
            if !is_ws(c) {
                lemma_words_end(s);
            }
        }
    }
    proof {
        assert(v@.subrange(0, k as int) =~= v@);
    }
    string_of(out)
}

} // verus!
