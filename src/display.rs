use vstd::prelude::*;

use crate::listing::total_pages;
use crate::money::{cents_text, get_pay_i64, get_pay_str, invalid_money_message, money_cents, nat_text, push_nat_text};
use crate::text::{append_chars, chars_of, string_of};

verus! {

broadcast use vstd::string::group_string_axioms;

/// How a post's experience range reads in the list: `3 - 5 years`, `3+ years` where
/// only the minimum is known, and `No YOE found` otherwise.
pub open spec fn yoe_text_of(min_yoe: Option<i64>, max_yoe: Option<i64>) -> Seq<char> {
    let mn: int = match min_yoe {
        Some(n) => n as int,
        None => -1,
    };
    let mx: int = match max_yoe {
        Some(n) => n as int,
        None => -1,
    };
    if mx > -1 && mn > -1 {
        nat_text(mn as nat) + " - "@ + nat_text(mx as nat) + " years"@
    } else if mn > -1 {
        nat_text(mn as nat) + "+ years"@
    } else {
        "No YOE found"@
    }
}

/// How a post's pay range reads in the list: `$60000.00 - $85000.00`, `$60000.00+`
/// with only a minimum, `$85000.00` with only a maximum, and `No salary specified`
/// otherwise.
pub open spec fn pay_text_of(min_pay: Option<i64>, max_pay: Option<i64>) -> Seq<char> {
    let mn: int = match min_pay {
        Some(n) => n as int,
        None => -1,
    };
    let mx: int = match max_pay {
        Some(n) => n as int,
        None => -1,
    };
    if mx > -1 && mn > -1 {
        "$"@ + cents_text(mn) + " - $"@ + cents_text(mx)
    } else if mn > -1 {
        "$"@ + cents_text(mn) + "+"@
    } else if mx > -1 {
        "$"@ + cents_text(mx)
    } else {
        "No salary specified"@
    }
}

fn push_str(out: &mut Vec<char>, s: &str)
    ensures
        final(out)@ == old(out)@ + s@,
{
    let v = chars_of(s);
    append_chars(out, &v);
}

/// The experience range of a post as the list shows it.
pub fn yoe_text(min_yoe: Option<i64>, max_yoe: Option<i64>) -> (r: String)
    ensures
        r@ == yoe_text_of(min_yoe, max_yoe),
{
    let mn: i64 = match min_yoe {
        Some(n) => n,
        None => -1,
    };
    let mx: i64 = match max_yoe {
        Some(n) => n,
        None => -1,
    };
    let mut out: Vec<char> = Vec::new();
    if mx > -1 && mn > -1 {
        push_nat_text(&mut out, mn as u64);
        push_str(&mut out, " - ");
        push_nat_text(&mut out, mx as u64);
        push_str(&mut out, " years");
    } else if mn > -1 {
        push_nat_text(&mut out, mn as u64);
        push_str(&mut out, "+ years");
    } else {
        push_str(&mut out, "No YOE found");
    }
    proof {
        assert(out@ =~= yoe_text_of(min_yoe, max_yoe));
    }
    string_of(out)
}

/// The pay range of a post as the list shows it.
pub fn pay_text(min_pay: Option<i64>, max_pay: Option<i64>) -> (r: String)
    ensures
        r@ == pay_text_of(min_pay, max_pay),
{
    let mn: i64 = match min_pay {
        Some(n) => n,
        None => -1,
    };
    let mx: i64 = match max_pay {
        Some(n) => n,
        None => -1,
    };
    let mut out: Vec<char> = Vec::new();
    if mx > -1 && mn > -1 {
        push_str(&mut out, "$");
        push_str(&mut out, get_pay_str(Some(mn)).as_str());
        push_str(&mut out, " - $");
        push_str(&mut out, get_pay_str(Some(mx)).as_str());
    } else if mn > -1 {
        push_str(&mut out, "$");
        push_str(&mut out, get_pay_str(Some(mn)).as_str());
        push_str(&mut out, "+");
    } else if mx > -1 {
        push_str(&mut out, "$");
        push_str(&mut out, get_pay_str(Some(mx)).as_str());
    } else {
        push_str(&mut out, "No salary specified");
    }
    proof {
        assert(out@ =~= pay_text_of(min_pay, max_pay));
    }
    string_of(out)
}

/// A pay field of the job-post form: empty means no amount; anything else must be an
/// amount (see `get_pay_i64`), else the form is not submitted.
pub fn optional_pay(field: &str) -> (r: Result<Option<i64>, String>)
    ensures
        field@.len() == 0 ==> r == Ok::<Option<i64>, String>(None),
        field@.len() > 0 ==> match money_cents(field@) {
            Some(c) if -i64::MAX <= c <= i64::MAX => r == Ok::<Option<i64>, String>(Some(c as i64)),
            _ => r is Err && r->Err_0@ == invalid_money_message(),
        },
{
    if field.is_empty() {
        return Ok(None);
    }
    match get_pay_i64(field) {
        Ok(c) => Ok(Some(c)),
        Err(e) => Err(e),
    }
}

/// Whether `page` is one of the pages that `total_items` items fill, `page_size` per page.
pub fn page_in_range(page: i64, total_items: i64, page_size: i64) -> (r: bool)
    requires
        page_size > 0,
        total_items >= 0,
        total_items + page_size - 1 <= i64::MAX,
    ensures
        r == (page > 0 && page as int <= (total_items + page_size - 1) / (page_size as int)),
{
    page > 0 && page <= total_pages(total_items, page_size)
}

/// Where the rows of `page` start, `page_size` per page.
pub fn page_offset(page: i64, page_size: i64) -> (r: i64)
    requires
        page >= 1,
        page_size >= 0,
        (page - 1) * page_size <= i64::MAX,
    ensures
        r as int == (page - 1) * page_size,
{
    (page - 1) * page_size
}

} // verus!
