//! The version of the server and where it comes from.

use vstd::prelude::*;

use crate::digits::{number, parse_number, two_digits, two_digits_of};
use crate::outside::{time_fields, TIME_MAX};
use crate::supports::calendar::{date, four_digits, four_digits_of};

verus! {

/// The version of the server.
pub const VERSION: &'static str = "0.1.0";

/// Where the project is at home, if anywhere.
pub const OFFICIAL_SITE: &'static str = "";

/// The commit that the server was built from.
pub const COMMIT_ID: &'static str = "N/A";

/// When the server was built, in seconds since 1970.
pub const BUILD_EPOCH: &'static str = "0";

/// A moment in seconds since 1970, written as RFC 3339 has it in UTC.
pub open spec fn utc(t: int) -> Seq<char> {
    let d = date(t / 86400);
    let s = t % 86400;
    four_digits(d.0) + "-"@ + two_digits(d.1) + "-"@ + two_digits(d.2) + "T"@ + two_digits(
        s / 3600,
    ) + ":"@ + two_digits(s / 60 % 60) + ":"@ + two_digits(s % 60) + "Z"@
}

/// The date that an epoch stands for: `N/A` where it is no positive number of
/// seconds up to the end of the year 9999.
pub open spec fn date_of_epoch(epoch: Seq<char>) -> Seq<char> {
    match number(epoch, 10, 0x7fff_ffff_ffff_ffff) {
        Some(t) => if 0 < t <= TIME_MAX {
            utc(t)
        } else {
            "N/A"@
        },
        None => "N/A"@,
    }
}

/// The date that an epoch stands for.
pub fn epoch_date(epoch: &str) -> (r: String)
    ensures
        r@ == date_of_epoch(epoch@),
{
    match parse_number(epoch, 10, 0x7fff_ffff_ffff_ffff) {
        Some(t) => if t == 0 {
            "N/A".to_owned()
        } else {
            match time_fields(t as i64) {
                Some(f) => {
                    let mut out = four_digits_of(f.0);
                    out.append("-");
                    out.append(two_digits_of(f.1).as_str());
                    out.append("-");
                    out.append(two_digits_of(f.2).as_str());
                    out.append("T");
                    out.append(two_digits_of(f.3).as_str());
                    out.append(":");
                    out.append(two_digits_of(f.4).as_str());
                    out.append(":");
                    out.append(two_digits_of(f.5).as_str());
                    out.append("Z");
                    out
                },
                None => "N/A".to_owned(),
            }
        },
        None => "N/A".to_owned(),
    }
}

/// When the server was built.
pub fn build_date() -> (r: String)
    ensures
        r@ == date_of_epoch(BUILD_EPOCH@),
{
    epoch_date(BUILD_EPOCH)
}

} // verus!
