use vstd::prelude::*;

use crate::models::{location_type_name, JobPost, JobPostLocationType};

verus! {

broadcast use vstd::string::group_string_axioms;

/// One piece of a query under construction: SQL text, or a value bound to the next
/// placeholder.
#[derive(Clone, Debug)]
pub enum QueryStep {
    Sql(String),
    Text(String),
    Int(i64),
}

/// A step as (kind, text, number): kind 0 is SQL text, 1 a bound text, 2 a bound integer.
pub open spec fn step_view(s: QueryStep) -> (u8, Seq<char>, int) {
    match s {
        QueryStep::Sql(t) => (0u8, t@, 0int),
        QueryStep::Text(t) => (1u8, t@, 0int),
        QueryStep::Int(n) => (2u8, Seq::empty(), n as int),
    }
}

pub open spec fn steps_view(v: Seq<QueryStep>) -> Seq<(u8, Seq<char>, int)> {
    v.map_values(|s: QueryStep| step_view(s))
}

pub open spec fn sql(t: Seq<char>) -> (u8, Seq<char>, int) {
    (0u8, t, 0int)
}

pub open spec fn text(t: Seq<char>) -> (u8, Seq<char>, int) {
    (1u8, t, 0int)
}

pub open spec fn bound_int(n: int) -> (u8, Seq<char>, int) {
    (2u8, Seq::empty(), n)
}

/// `s` as a LIKE pattern that matches any text containing it.
pub open spec fn like_pattern(s: Seq<char>) -> Seq<char> {
    seq!['%'] + s + seq!['%']
}

/// The location types that the three flags select, in the order on-site, hybrid,
/// remote.
pub open spec fn selected_types(onsite: bool, hybrid: bool, remote: bool) -> Seq<Seq<char>> {
    (if onsite {
        seq![location_type_name(JobPostLocationType::Onsite)]
    } else {
        Seq::empty()
    }) + (if hybrid {
        seq![location_type_name(JobPostLocationType::Hybrid)]
    } else {
        Seq::empty()
    }) + (if remote {
        seq![location_type_name(JobPostLocationType::Remote)]
    } else {
        Seq::empty()
    })
}

/// The names bound one after the other, with `, ` between each two.
pub open spec fn bound_list(names: Seq<Seq<char>>) -> Seq<(u8, Seq<char>, int)>
    decreases names.len(),
{
    if names.len() == 0 {
        Seq::empty()
    } else if names.len() == 1 {
        seq![text(names[0])]
    } else {
        bound_list(names.drop_last()) + seq![sql(", "@), text(names.last())]
    }
}

/// A condition that `value` occurs in a column, where `value` is not empty.
pub open spec fn like_steps(clause: Seq<char>, value: Seq<char>) -> Seq<(u8, Seq<char>, int)> {
    if value.len() > 0 {
        seq![sql(clause), text(like_pattern(value))]
    } else {
        Seq::empty()
    }
}

/// The years-of-experience condition: none for (0, 0); else that minimum, and at most
/// the maximum where it is positive and above the minimum.
pub open spec fn yoe_steps(min_yoe: int, max_yoe: int) -> Seq<(u8, Seq<char>, int)> {
    if !(min_yoe == max_yoe && max_yoe == 0) {
        seq![sql(" AND min_yoe = "@), bound_int(min_yoe)] + if max_yoe > 0 && max_yoe > min_yoe {
            seq![sql(" AND max_yoe <= "@), bound_int(max_yoe)]
        } else {
            Seq::empty()
        }
    } else {
        Seq::empty()
    }
}

/// The condition that the location type is one of those checked, where any is.
pub open spec fn type_steps(onsite: bool, hybrid: bool, remote: bool) -> Seq<(u8, Seq<char>, int)> {
    let types = selected_types(onsite, hybrid, remote);
    if types.len() > 0 {
        seq![sql(" AND location_type IN ("@)] + bound_list(types) + seq![sql(")"@)]
    } else {
        Seq::empty()
    }
}

/// The steps that the job-post filters add to a query whose WHERE clause is open: one
/// `AND` condition for each filter that is set, in the order company name, years of
/// experience, title, location, location types.
pub open spec fn filter_steps(
    title: Seq<char>,
    location: Seq<char>,
    min_yoe: int,
    max_yoe: int,
    onsite: bool,
    hybrid: bool,
    remote: bool,
    company_name: Seq<char>,
) -> Seq<(u8, Seq<char>, int)> {
    like_steps(" AND company.name LIKE "@, company_name) + yoe_steps(min_yoe, max_yoe) + like_steps(
        " AND job_title LIKE "@,
        title,
    ) + like_steps(" AND location LIKE "@, location) + type_steps(onsite, hybrid, remote)
}

fn push_step(q: &mut Vec<QueryStep>, s: QueryStep)
    ensures
        steps_view(final(q)@) == steps_view(old(q)@).push(step_view(s)),
{
    q.push(s);
    proof {
        assert(steps_view(final(q)@) =~= steps_view(old(q)@).push(step_view(s)));
    }
}

fn push_sql(q: &mut Vec<QueryStep>, t: &str)
    ensures
        steps_view(final(q)@) == steps_view(old(q)@).push(sql(t@)),
{
    push_step(q, QueryStep::Sql(t.to_string()));
}

fn like(s: &String) -> (r: String)
    ensures
        r@ == like_pattern(s@),
{
    let mut r = "%".to_string();
    r.append(s.as_str());
    r.append("%");
    proof {
        reveal_strlit("%");
        assert(r@ =~= like_pattern(s@));
    }
    r
}

fn add_like(q: &mut Vec<QueryStep>, clause: &str, value: &String)
    ensures
        steps_view(final(q)@) == steps_view(old(q)@) + like_steps(clause@, value@),
{
    if !value.as_str().is_empty() {
        push_sql(q, clause);
        push_step(q, QueryStep::Text(like(value)));
    }
    proof {
        assert(steps_view(q@) =~= steps_view(old(q)@) + like_steps(clause@, value@));
    }
}

fn add_yoe(q: &mut Vec<QueryStep>, min_yoe: i64, max_yoe: i64)
    ensures
        steps_view(final(q)@) == steps_view(old(q)@) + yoe_steps(min_yoe as int, max_yoe as int),
{
    if !(min_yoe == max_yoe && max_yoe == 0) {
        push_sql(q, " AND min_yoe = ");
        push_step(q, QueryStep::Int(min_yoe));
        if max_yoe > 0 && max_yoe > min_yoe {
            push_sql(q, " AND max_yoe <= ");
            push_step(q, QueryStep::Int(max_yoe));
        }
    }
    proof {
        assert(steps_view(q@) =~= steps_view(old(q)@) + yoe_steps(min_yoe as int, max_yoe as int));
    }
}

fn add_types(q: &mut Vec<QueryStep>, onsite: bool, hybrid: bool, remote: bool)
    ensures
        steps_view(final(q)@) == steps_view(old(q)@) + type_steps(onsite, hybrid, remote),
{
    let mut names: Vec<String> = Vec::new();
    if onsite {
        names.push(JobPostLocationType::Onsite.name());
    }
    if hybrid {
        names.push(JobPostLocationType::Hybrid.name());
    }
    if remote {
        names.push(JobPostLocationType::Remote.name());
    }
    let ghost types = selected_types(onsite, hybrid, remote);
    proof {
        assert(names@.map_values(|s: String| s@) =~~= types);
    }
    if names.len() > 0 {
        push_sql(q, " AND location_type IN (");
        let ghost q5 = steps_view(q@);
        let mut i: usize = 0;
        while i < names.len()
            invariant
                i <= names.len(),
                names@.map_values(|s: String| s@) == types,
                steps_view(q@) == q5 + bound_list(types.subrange(0, i as int)),
            decreases names.len() - i,
        {
            if i > 0 {
                push_sql(q, ", ");
            }
            push_step(q, QueryStep::Text(names[i].clone()));
            proof {
                let sub = types.subrange(0, i + 1);
                assert(sub.drop_last() =~= types.subrange(0, i as int));
                assert(types[i as int] == names@[i as int]@);
                if i == 0 {
                    assert(bound_list(types.subrange(0, 0)) =~= Seq::empty());
                }
                assert(steps_view(q@) =~= q5 + bound_list(sub));
            }
            i = i + 1;
        }
        push_sql(q, ")");
        proof {
            assert(types.subrange(0, types.len() as int) =~= types);
        }
    }
    proof {
        assert(steps_view(q@) =~= steps_view(old(q)@) + type_steps(onsite, hybrid, remote));
    }
}

impl JobPost {
    /// Adds the job-post filters to `query`, a query whose WHERE clause is open: one
    /// `AND` condition for each filter that is set (see `filter_steps`).
    pub fn add_filters(
        query: Vec<QueryStep>,
        title: String,
        location: String,
        min_yoe: i64,
        max_yoe: i64,
        onsite: bool,
        hybrid: bool,
        remote: bool,
        company_name: String,
    ) -> (r: Vec<QueryStep>)
        ensures
            steps_view(r@) == steps_view(query@) + filter_steps(
                title@,
                location@,
                min_yoe as int,
                max_yoe as int,
                onsite,
                hybrid,
                remote,
                company_name@,
            ),
    {
        let mut q = query;
        add_like(&mut q, " AND company.name LIKE ", &company_name);
        add_yoe(&mut q, min_yoe, max_yoe);
        add_like(&mut q, " AND job_title LIKE ", &title);
        add_like(&mut q, " AND location LIKE ", &location);
        add_types(&mut q, onsite, hybrid, remote);
        proof {
            assert(steps_view(q@) =~= steps_view(query@) + filter_steps(
                title@,
                location@,
                min_yoe as int,
                max_yoe as int,
                onsite,
                hybrid,
                remote,
                company_name@,
            ));
        }
        q
    }
}

} // verus!
