use vstd::prelude::*;

use crate::dates::{NullableSqliteDateTime, SqliteDateTime};
use crate::text::{chars_of, same_chars, string_of};

verus! {

broadcast use vstd::string::group_string_axioms;

/// Where the work of a job post takes place.
#[derive(Clone, Copy, Debug, PartialEq, Eq, Hash, Structural)]
pub enum JobPostLocationType {
    Onsite,
    Hybrid,
    Remote,
    Unknown,
}

pub open spec fn location_type_name(t: JobPostLocationType) -> Seq<char> {
    match t {
        JobPostLocationType::Onsite => seq!['O', 'n', 's', 'i', 't', 'e'],
        JobPostLocationType::Hybrid => seq!['H', 'y', 'b', 'r', 'i', 'd'],
        JobPostLocationType::Remote => seq!['R', 'e', 'm', 'o', 't', 'e'],
        JobPostLocationType::Unknown => seq!['U', 'n', 'k', 'n', 'o', 'w', 'n'],
    }
}

/// Each location type has a name of its own.
pub proof fn lemma_location_type_names_distinct(a: JobPostLocationType, b: JobPostLocationType)
    ensures
        location_type_name(a) == location_type_name(b) ==> a == b,
{
    if location_type_name(a) == location_type_name(b) {
        assert(location_type_name(a)[0] == location_type_name(b)[0]);
    }
}

pub open spec fn location_type_label(t: JobPostLocationType) -> Seq<char> {
    match t {
        JobPostLocationType::Onsite => seq!['O', 'n', '-', 's', 'i', 't', 'e'],
        _ => location_type_name(t),
    }
}

impl JobPostLocationType {
    /// The name under which the store keeps this location type.
    pub fn name(&self) -> (r: String)
        ensures
            r@ == location_type_name(*self),
    {
        let v = match self {
            JobPostLocationType::Onsite => vec!['O', 'n', 's', 'i', 't', 'e'],
            JobPostLocationType::Hybrid => vec!['H', 'y', 'b', 'r', 'i', 'd'],
            JobPostLocationType::Remote => vec!['R', 'e', 'm', 'o', 't', 'e'],
            JobPostLocationType::Unknown => vec!['U', 'n', 'k', 'n', 'o', 'w', 'n'],
        };
        proof {
            assert(v@ =~= location_type_name(*self));
        }
        string_of(v)
    }

    /// The text shown to the user for this location type (`On-site`).
    pub fn label(&self) -> (r: String)
        ensures
            r@ == location_type_label(*self),
    {
        match self {
            JobPostLocationType::Onsite => {
                let v = vec!['O', 'n', '-', 's', 'i', 't', 'e'];
                proof {
                    assert(v@ =~= location_type_label(*self));
                }
                string_of(v)
            },
            _ => self.name(),
        }
    }

    /// The text shown to the user for this location type.
    pub fn to_string(&self) -> (r: String)
        ensures
            r@ == location_type_label(*self),
    {
        self.label()
    }

    /// The location type that the store keeps under `s`, if any.
    pub fn from_name(s: &str) -> (r: Option<Self>)
        ensures
            match r {
                Some(t) => location_type_name(t) == s@,
                None => forall|t: JobPostLocationType| location_type_name(t) != s@,
            },
    {
        let v = chars_of(s);
        let all = [
            JobPostLocationType::Onsite,
            JobPostLocationType::Hybrid,
            JobPostLocationType::Remote,
            JobPostLocationType::Unknown,
        ];
        let mut k: usize = 0;
        while k < 4
            invariant
                k <= 4,
                v@ == s@,
                all@ == seq![
                    JobPostLocationType::Onsite,
                    JobPostLocationType::Hybrid,
                    JobPostLocationType::Remote,
                    JobPostLocationType::Unknown,
                ],
                forall|m: int| 0 <= m < k ==> location_type_name(#[trigger] all@[m]) != s@,
            decreases 4 - k,
        {
            let t = all[k];
            let name = chars_of(t.name().as_str());
            if same_chars(&name, &v) {
                return Some(t);
            }
            k = k + 1;
        }
        proof {
            assert forall|t: JobPostLocationType| location_type_name(t) != s@ by {
                match t {
                    JobPostLocationType::Onsite => assert(all@[0] == t),
                    JobPostLocationType::Hybrid => assert(all@[1] == t),
                    JobPostLocationType::Remote => assert(all@[2] == t),
                    JobPostLocationType::Unknown => assert(all@[3] == t),
                }
            }
        }
        None
    }
}

/// Where an application stands.
#[derive(Clone, Copy, Debug, PartialEq, Eq, Hash, Structural)]
pub enum JobApplicationStatus {
    New,
    Applied,
    Interview,
    Offer,
    Closed,
    Rejected,
    Withdrawn,
}

pub open spec fn status_name(s: JobApplicationStatus) -> Seq<char> {
    match s {
        JobApplicationStatus::New => seq!['N', 'e', 'w'],
        JobApplicationStatus::Applied => seq!['A', 'p', 'p', 'l', 'i', 'e', 'd'],
        JobApplicationStatus::Interview => seq!['I', 'n', 't', 'e', 'r', 'v', 'i', 'e', 'w'],
        JobApplicationStatus::Offer => seq!['O', 'f', 'f', 'e', 'r'],
        JobApplicationStatus::Closed => seq!['C', 'l', 'o', 's', 'e', 'd'],
        JobApplicationStatus::Rejected => seq!['R', 'e', 'j', 'e', 'c', 't', 'e', 'd'],
        JobApplicationStatus::Withdrawn => seq!['W', 'i', 't', 'h', 'd', 'r', 'a', 'w', 'n'],
    }
}

impl JobApplicationStatus {
    /// The name under which the store keeps this status, also shown to the user.
    pub fn name(&self) -> (r: &'static str)
        ensures
            r@ == status_name(*self),
    {
        match self {
            JobApplicationStatus::New => {
                proof {
                    reveal_strlit("New");
                }
                "New"
            },
            JobApplicationStatus::Applied => {
                proof {
                    reveal_strlit("Applied");
                }
                "Applied"
            },
            JobApplicationStatus::Interview => {
                proof {
                    reveal_strlit("Interview");
                }
                "Interview"
            },
            JobApplicationStatus::Offer => {
                proof {
                    reveal_strlit("Offer");
                }
                "Offer"
            },
            JobApplicationStatus::Closed => {
                proof {
                    reveal_strlit("Closed");
                }
                "Closed"
            },
            JobApplicationStatus::Rejected => {
                proof {
                    reveal_strlit("Rejected");
                }
                "Rejected"
            },
            JobApplicationStatus::Withdrawn => {
                proof {
                    reveal_strlit("Withdrawn");
                }
                "Withdrawn"
            },
        }
    }

    /// The text shown to the user for this status: its name.
    pub fn to_string(&self) -> (r: String)
        ensures
            r@ == status_name(*self),
    {
        self.name().to_string()
    }

    /// The status that the store keeps under `s`, if any.
    pub fn from_name(s: &str) -> (r: Option<Self>)
        ensures
            match r {
                Some(t) => status_name(t) == s@,
                None => forall|t: JobApplicationStatus| status_name(t) != s@,
            },
    {
        let v = chars_of(s);
        let all = [
            JobApplicationStatus::New,
            JobApplicationStatus::Applied,
            JobApplicationStatus::Interview,
            JobApplicationStatus::Offer,
            JobApplicationStatus::Closed,
            JobApplicationStatus::Rejected,
            JobApplicationStatus::Withdrawn,
        ];
        let mut k: usize = 0;
        while k < 7
            invariant
                k <= 7,
                v@ == s@,
                all@ == seq![
                    JobApplicationStatus::New,
                    JobApplicationStatus::Applied,
                    JobApplicationStatus::Interview,
                    JobApplicationStatus::Offer,
                    JobApplicationStatus::Closed,
                    JobApplicationStatus::Rejected,
                    JobApplicationStatus::Withdrawn,
                ],
                forall|m: int| 0 <= m < k ==> status_name(#[trigger] all@[m]) != s@,
            decreases 7 - k,
        {
            let t = all[k];
            let name = chars_of(t.name());
            if same_chars(&name, &v) {
                return Some(t);
            }
            k = k + 1;
        }
        proof {
            assert forall|t: JobApplicationStatus| status_name(t) != s@ by {
                match t {
                    JobApplicationStatus::New => assert(all@[0] == t),
                    JobApplicationStatus::Applied => assert(all@[1] == t),
                    JobApplicationStatus::Interview => assert(all@[2] == t),
                    JobApplicationStatus::Offer => assert(all@[3] == t),
                    JobApplicationStatus::Closed => assert(all@[4] == t),
                    JobApplicationStatus::Rejected => assert(all@[5] == t),
                    JobApplicationStatus::Withdrawn => assert(all@[6] == t),
                }
            }
        }
        None
    }
}

/// A flag as the store keeps it: the integer 1 for true and 0 for false.
#[derive(Clone, Copy, Debug, PartialEq, Eq, Hash, Structural)]
pub struct SqliteBoolean(pub bool);

impl SqliteBoolean {
    /// The flag that a stored integer stands for: 1 is true and 0 is false; the store
    /// holds no other value.
    pub fn from(value: i64) -> (r: Self)
        requires
            value == 0 || value == 1,
        ensures
            r == SqliteBoolean(value == 1),
    {
        SqliteBoolean(value == 1)
    }

    /// The integer under which the store keeps the flag.
    pub fn to_int(&self) -> (r: i64)
        ensures
            r == (if self.0 {
                1i64
            } else {
                0i64
            }),
    {
        if self.0 {
            1
        } else {
            0
        }
    }
}

/// A company that job posts belong to.
#[derive(Clone, Debug)]
pub struct Company {
    pub id: i64,
    pub name: String,
    pub careers_url: Option<String>,
    pub hidden: SqliteBoolean,
}

impl Company {
    /// The text shown to the user for this company: its name.
    pub fn to_string(&self) -> (r: String)
        ensures
            r@ == self.name@,
    {
        self.name.clone()
    }
}

/// Another name under which a company is known.
#[derive(Clone, Debug)]
pub struct CompanyAltName {
    pub id: i32,
    pub company_id: i32,
    pub name: String,
}

/// A job post, as the store keeps it. Pay is in cents; dates are day numbers.
#[derive(Clone, Debug)]
pub struct JobPost {
    pub id: i64,
    pub company_id: i64,
    pub location: String,
    pub location_type: JobPostLocationType,
    pub url: String,
    pub min_yoe: Option<i64>,
    pub max_yoe: Option<i64>,
    pub min_pay_cents: Option<i64>,
    pub max_pay_cents: Option<i64>,
    pub date_posted: NullableSqliteDateTime,
    pub date_retrieved: SqliteDateTime,
    pub job_title: String,
    pub benefits: Option<String>,
    pub skills: Option<String>,
    pub pay_unit: Option<String>,
    pub currency: Option<String>,
    pub apijobs_id: Option<String>,
}

/// An application to a job post.
#[derive(Clone, Debug)]
pub struct JobApplication {
    pub id: i64,
    pub job_post_id: i64,
    pub status: JobApplicationStatus,
    pub date_applied: NullableSqliteDateTime,
    pub date_responded: NullableSqliteDateTime,
    pub interviewed: SqliteBoolean,
}

impl JobApplication {
    /// An application with the given fields; dates are day numbers.
    pub fn new(
        app_id: i64,
        job_post_id: i64,
        status: JobApplicationStatus,
        date_applied: Option<i64>,
        date_responded: Option<i64>,
        interviewed: bool,
    ) -> (r: Self)
        ensures
            r.id == app_id,
            r.job_post_id == job_post_id,
            r.status == status,
            r.date_applied == NullableSqliteDateTime(date_applied),
            r.date_responded == NullableSqliteDateTime(date_responded),
            r.interviewed == SqliteBoolean(interviewed),
    {
        JobApplication {
            id: app_id,
            job_post_id,
            status,
            date_applied: NullableSqliteDateTime(date_applied),
            date_responded: NullableSqliteDateTime(date_responded),
            interviewed: SqliteBoolean(interviewed),
        }
    }
}

} // verus!
