//! What a table row shows: the callsign, the aircraft label chosen from the
//! flight plan's fields, and the experience statistics rounded to whole hours
//! and grouped with commas. The renderer draws these strings as-is.

use num_format::ToFormattedString;
use vstd::prelude::*;

use crate::models::{FlightPlan, RankedPilot};

verus! {

/// What `grouped_en` returns for `n`: num_format's English grouping.
pub uninterp spec fn en_grouped(n: u64) -> Seq<char>;

/// Relies on num_format's `ToFormattedString::to_formatted_string` with the
/// built-in `en` locale: the decimal digits of `n`, grouped with commas. A
/// pure function of `n`; the locale is a constant of that crate, not read
/// from the system.
#[verifier::external_body]
fn grouped_en(n: u64) -> (r: String)
    ensures
        r@ == en_grouped(n),
{
    n.to_formatted_string(&num_format::Locale::en)
}

/// The aircraft label of a flight plan: its FAA aircraft code when one is
/// filed, else its short code, else a placeholder; pilots without a flight
/// plan get the placeholder too.
pub open spec fn aircraft_label_spec(flight_plan: Option<FlightPlan>) -> Seq<char> {
    match flight_plan {
        None => "???"@,
        Some(fp) => if fp.aircraft_faa@.len() > 0 {
            fp.aircraft_faa@
        } else if fp.aircraft_short@.len() > 0 {
            fp.aircraft_short@
        } else {
            "???"@
        },
    }
}

/// The aircraft cell of a row, per `aircraft_label_spec`.
pub fn aircraft_label(flight_plan: &Option<FlightPlan>) -> (r: String)
    ensures
        r@ == aircraft_label_spec(*flight_plan),
{
    match flight_plan {
        None => "???".to_owned(),
        Some(fp) => {
            if !fp.aircraft_faa.as_str().is_empty() {
                fp.aircraft_faa.clone()
            } else if !fp.aircraft_short.as_str().is_empty() {
                fp.aircraft_short.clone()
            } else {
                "???".to_owned()
            }
        },
    }
}

/// A statistic in hundredths of an hour, rounded to whole hours, halves up.
pub open spec fn rounded_hours_spec(centi: u64) -> u64 {
    ((centi / 100) + if centi % 100 >= 50 {
        1u64
    } else {
        0u64
    }) as u64
}

/// Round a statistic in hundredths of an hour to whole hours, halves up.
pub fn rounded_hours(centi: u64) -> (h: u64)
    ensures
        h == rounded_hours_spec(centi),
{
    let whole = centi / 100;
    if centi % 100 >= 50 {
        proof {
            assert(centi / 100 <= centi) by (nonlinear_arith);
        }
        whole + 1
    } else {
        whole
    }
}

/// One hours cell: the statistic rounded to whole hours, grouped with
/// commas.
pub fn hours_cell(centi: u64) -> (s: String)
    ensures
        s@ == en_grouped(rounded_hours_spec(centi)),
{
    grouped_en(rounded_hours(centi))
}

/// The four cells of one displayed row: callsign, aircraft label, hours
/// flown, hours controlling.
pub fn table_row(row: &RankedPilot) -> (r: (String, String, String, String))
    ensures
        r.0@ == row.pilot.callsign@,
        r.1@ == aircraft_label_spec(row.pilot.flight_plan),
        r.2@ == en_grouped(rounded_hours_spec(row.stat.pilot)),
        r.3@ == en_grouped(rounded_hours_spec(row.stat.atc)),
{
    (
        row.pilot.callsign.clone(),
        aircraft_label(&row.pilot.flight_plan),
        hours_cell(row.stat.pilot),
        hours_cell(row.stat.atc),
    )
}

} // verus!
