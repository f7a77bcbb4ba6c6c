//! The holiday calendar's local cache: where the data of a year is kept.
use vstd::prelude::*;
use crate::text::{push_signed, signed_decimal};

verus! {

/// One day of the holiday calendar.
#[derive(Debug, Clone)]
pub struct HolidayInfo {
    pub date: String,
    pub name: String,
    pub is_off_day: bool,
}

/// The cache file of `year` under the per-user data directory `data_dir`.
pub open spec fn cache_path_text(data_dir: Seq<char>, year: int) -> Seq<char> {
    data_dir + "/mini-todo/holidays/"@ + signed_decimal(year) + ".json"@
}

/// The cache file of `year` under the per-user data directory `data_dir`.
pub fn get_cache_path(data_dir: &str, year: i32) -> (r: String)
    ensures
        r@ == cache_path_text(data_dir@, year as int),
{
    let mut s = String::from_str(data_dir);
    s.append("/mini-todo/holidays/");
    push_signed(&mut s, year as i64);
    s.append(".json");
    proof {
        assert(s@ =~= cache_path_text(data_dir@, year as int));
    }
    s
}

} // verus!
