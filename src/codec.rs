//! The storage form of a report: its key fields beside the full record.
use vstd::prelude::*;
use crate::calendar::UtcTime;
use crate::report::{Metar, MetarView};

verus! {

/// One stored observation: station, observation time and report line as
/// keys, and the structured record.
#[derive(Clone, Debug)]
pub struct MetarRow {
    pub icao: String,
    pub observation_time: UtcTime,
    pub raw_text: String,
    pub data: Metar,
}

impl Metar {
    /// The row that stores this report.
    pub fn to_db(&self) -> (r: MetarRow)
        ensures
            r.icao@ == self.station_id@,
            r.observation_time == self.observation_time,
            r.raw_text@ == self.raw_text@,
            r.data@ == self@,
    {
        MetarRow {
            icao: self.station_id.clone(),
            observation_time: self.observation_time,
            raw_text: self.raw_text.clone(),
            data: self.copy(),
        }
    }

    /// The report a row stores.
    pub fn from_db(row: &MetarRow) -> (r: Metar)
        ensures
            r@ == row.data@,
    {
        row.data.copy()
    }
}

/// Storing a report and reading its row back gives a report equal to it in
/// every field: `to_db` keeps the record, `from_db` returns it.
pub proof fn lemma_row_round_trip(m: MetarView, row: MetarRow, back: MetarView)
    requires
        row.data@ == m,
        back == row.data@,
    ensures
        back == m,
{
}

} // verus!
