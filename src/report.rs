//! The structured weather report and its mathematical model.
use vstd::prelude::*;
use crate::calendar::UtcTime;

verus! {

/// Coarse ceiling and visibility category.
#[derive(Clone, Copy, Debug, PartialEq, Eq, Structural)]
pub enum FlightCategory {
    VFR,
    MVFR,
    LIFR,
    IFR,
    UNKN,
}

/// Peak wind since the last report: direction, speed in knots, and the time
/// it was observed (the hour is given only when it differs from the report's).
#[derive(Clone, Copy, Debug, PartialEq, Eq, Structural)]
pub struct PeakWind {
    pub degrees: i32,
    pub speed: i32,
    pub hour: Option<i32>,
    pub minutes: i32,
}

/// One runway visual range group: a fixed range, or a low/high pair, in feet,
/// with the `P`/`M` (more/less than) prefixes kept.
#[derive(Clone, Debug)]
pub struct RunwayVisualRange {
    pub runway: String,
    pub visibility_ft: Option<String>,
    pub variable_visibility_high_ft: Option<String>,
    pub variable_visibility_low_ft: Option<String>,
}

/// One cloud layer: cover code, base in feet above ground level, and the
/// convective cloud code (`CB`, `TCU`) when one is given.
#[derive(Clone, Debug)]
pub struct SkyCondition {
    pub sky_cover: String,
    pub cloud_base_ft_agl: Option<i32>,
    pub significant_convective_clouds: Option<String>,
}

/// Report modifiers and the coded remarks.
#[derive(Clone, Debug)]
pub struct Remarks {
    pub peak_wind: Option<PeakWind>,
    pub auto: Option<bool>,
    pub auto_station_without_precipication: Option<bool>,
    pub auto_station_with_precipication: Option<bool>,
    pub maintenance_indicator_on: Option<bool>,
    pub corrected: Option<bool>,
    pub no_significant_change: Option<bool>,
    pub temporary_change: Option<bool>,
    pub rvr_missing: Option<bool>,
    pub precipication_identifier_information_not_available: Option<bool>,
    pub precipication_information_not_available: Option<bool>,
    pub freezing_rain_information_not_available: Option<bool>,
    pub thunderstorm_information_not_available: Option<bool>,
    pub visibility_at_secondary_location_not_available: Option<String>,
    pub sky_condition_at_secondary_location_not_available: Option<String>,
}

/// A parsed weather report. Quantities are fixed-point integers:
/// temperatures in tenths of a degree Celsius, wind in hundred-thousandths
/// of a knot, the altimeter in hundredths of an inch of mercury, pressure in
/// tenths of a millibar and humidity in tenths of a percent.
#[derive(Clone, Debug)]
pub struct Metar {
    pub station_id: String,
    pub raw_text: String,
    pub observation_time: UtcTime,
    pub temp_c_tenths: Option<i32>,
    pub dewpoint_c_tenths: Option<i32>,
    pub wind_dir_degrees: Option<String>,
    pub wind_speed_kt_e5: Option<u32>,
    pub wind_gust_kt_e5: Option<u32>,
    pub variable_wind_dir_degrees: Option<String>,
    pub visibility_statute_mi: Option<String>,
    pub runway_visual_range: Vec<RunwayVisualRange>,
    pub altim_in_hg_hundredths: Option<u32>,
    pub sea_level_pressure_mb_tenths: Option<u32>,
    pub remarks: Remarks,
    pub weather_phenomena: Vec<String>,
    pub sky_condition: Vec<SkyCondition>,
    pub flight_category: FlightCategory,
    pub humidity_pct_tenths: Option<i32>,
}

pub open spec fn opt_view(o: Option<String>) -> Option<Seq<char>> {
    match o {
        Some(s) => Some(s@),
        None => None,
    }
}

pub struct RunwayVisualRangeView {
    pub runway: Seq<char>,
    pub visibility_ft: Option<Seq<char>>,
    pub high_ft: Option<Seq<char>>,
    pub low_ft: Option<Seq<char>>,
}

pub struct SkyConditionView {
    pub sky_cover: Seq<char>,
    pub cloud_base_ft_agl: Option<i32>,
    pub convective: Option<Seq<char>>,
}

pub struct RemarksView {
    pub peak_wind: Option<PeakWind>,
    pub auto: Option<bool>,
    pub ao1: Option<bool>,
    pub ao2: Option<bool>,
    pub maintenance: Option<bool>,
    pub corrected: Option<bool>,
    pub no_significant_change: Option<bool>,
    pub temporary_change: Option<bool>,
    pub rvr_missing: Option<bool>,
    pub pwino: Option<bool>,
    pub pno: Option<bool>,
    pub fzrano: Option<bool>,
    pub tsno: Option<bool>,
    pub visno: Option<Seq<char>>,
    pub chino: Option<Seq<char>>,
}

pub struct MetarView {
    pub station_id: Seq<char>,
    pub raw_text: Seq<char>,
    pub observation_time: UtcTime,
    pub temp: Option<i32>,
    pub dewpoint: Option<i32>,
    pub wind_dir: Option<Seq<char>>,
    pub wind_speed: Option<u32>,
    pub wind_gust: Option<u32>,
    pub variable_wind_dir: Option<Seq<char>>,
    pub visibility: Option<Seq<char>>,
    pub rvr: Seq<RunwayVisualRangeView>,
    pub altim: Option<u32>,
    pub pressure: Option<u32>,
    pub remarks: RemarksView,
    pub weather: Seq<Seq<char>>,
    pub sky: Seq<SkyConditionView>,
    pub flight_category: FlightCategory,
    pub humidity: Option<i32>,
}

impl View for RunwayVisualRange {
    type V = RunwayVisualRangeView;

    open spec fn view(&self) -> RunwayVisualRangeView {
        RunwayVisualRangeView {
            runway: self.runway@,
            visibility_ft: opt_view(self.visibility_ft),
            high_ft: opt_view(self.variable_visibility_high_ft),
            low_ft: opt_view(self.variable_visibility_low_ft),
        }
    }
}

impl View for SkyCondition {
    type V = SkyConditionView;

    open spec fn view(&self) -> SkyConditionView {
        SkyConditionView {
            sky_cover: self.sky_cover@,
            cloud_base_ft_agl: self.cloud_base_ft_agl,
            convective: opt_view(self.significant_convective_clouds),
        }
    }
}

impl View for Remarks {
    type V = RemarksView;

    open spec fn view(&self) -> RemarksView {
        RemarksView {
            peak_wind: self.peak_wind,
            auto: self.auto,
            ao1: self.auto_station_without_precipication,
            ao2: self.auto_station_with_precipication,
            maintenance: self.maintenance_indicator_on,
            corrected: self.corrected,
            no_significant_change: self.no_significant_change,
            temporary_change: self.temporary_change,
            rvr_missing: self.rvr_missing,
            pwino: self.precipication_identifier_information_not_available,
            pno: self.precipication_information_not_available,
            fzrano: self.freezing_rain_information_not_available,
            tsno: self.thunderstorm_information_not_available,
            visno: opt_view(self.visibility_at_secondary_location_not_available),
            chino: opt_view(self.sky_condition_at_secondary_location_not_available),
        }
    }
}

pub open spec fn strings_view(v: Seq<String>) -> Seq<Seq<char>> {
    v.map_values(|s: String| s@)
}

pub open spec fn rvrs_view(v: Seq<RunwayVisualRange>) -> Seq<RunwayVisualRangeView> {
    v.map_values(|r: RunwayVisualRange| r@)
}

pub open spec fn skies_view(v: Seq<SkyCondition>) -> Seq<SkyConditionView> {
    v.map_values(|s: SkyCondition| s@)
}

impl View for Metar {
    type V = MetarView;

    open spec fn view(&self) -> MetarView {
        MetarView {
            station_id: self.station_id@,
            raw_text: self.raw_text@,
            observation_time: self.observation_time,
            temp: self.temp_c_tenths,
            dewpoint: self.dewpoint_c_tenths,
            wind_dir: opt_view(self.wind_dir_degrees),
            wind_speed: self.wind_speed_kt_e5,
            wind_gust: self.wind_gust_kt_e5,
            variable_wind_dir: opt_view(self.variable_wind_dir_degrees),
            visibility: opt_view(self.visibility_statute_mi),
            rvr: rvrs_view(self.runway_visual_range@),
            altim: self.altim_in_hg_hundredths,
            pressure: self.sea_level_pressure_mb_tenths,
            remarks: self.remarks@,
            weather: strings_view(self.weather_phenomena@),
            sky: skies_view(self.sky_condition@),
            flight_category: self.flight_category,
            humidity: self.humidity_pct_tenths,
        }
    }
}

/// Remarks with nothing recorded.
pub open spec fn empty_remarks() -> RemarksView {
    RemarksView {
        peak_wind: None,
        auto: None,
        ao1: None,
        ao2: None,
        maintenance: None,
        corrected: None,
        no_significant_change: None,
        temporary_change: None,
        rvr_missing: None,
        pwino: None,
        pno: None,
        fzrano: None,
        tsno: None,
        visno: None,
        chino: None,
    }
}

impl Remarks {
    pub fn new() -> (r: Remarks)
        ensures
            r@ == empty_remarks(),
    {
        Remarks {
            peak_wind: None,
            auto: None,
            auto_station_without_precipication: None,
            auto_station_with_precipication: None,
            maintenance_indicator_on: None,
            corrected: None,
            no_significant_change: None,
            temporary_change: None,
            rvr_missing: None,
            precipication_identifier_information_not_available: None,
            precipication_information_not_available: None,
            freezing_rain_information_not_available: None,
            thunderstorm_information_not_available: None,
            visibility_at_secondary_location_not_available: None,
            sky_condition_at_secondary_location_not_available: None,
        }
    }
}

// ---- copies ----

fn copy_opt_string(o: &Option<String>) -> (r: Option<String>)
    ensures
        opt_view(r) == opt_view(*o),
{
    match o {
        Some(s) => Some(s.clone()),
        None => None,
    }
}

fn copy_strings(v: &Vec<String>) -> (r: Vec<String>)
    ensures
        strings_view(r@) == strings_view(v@),
{
    let mut out: Vec<String> = Vec::new();
    let mut i: usize = 0;
    while i < v.len()
        invariant
            i <= v@.len(),
            strings_view(out@) == strings_view(v@).subrange(0, i as int),
        decreases v@.len() - i,
    {
        let ghost before = strings_view(out@);
        out.push(v[i].clone());
        proof {
            assert(strings_view(out@) =~= before.push(v@[i as int]@));
            assert(strings_view(v@).subrange(0, i + 1) =~= strings_view(v@).subrange(0, i as int).push(
                v@[i as int]@,
            ));
        }
        i += 1;
    }
    proof {
        assert(strings_view(v@).subrange(0, i as int) =~= strings_view(v@));
    }
    out
}

impl RunwayVisualRange {
    pub fn copy(&self) -> (r: RunwayVisualRange)
        ensures
            r@ == self@,
    {
        RunwayVisualRange {
            runway: self.runway.clone(),
            visibility_ft: copy_opt_string(&self.visibility_ft),
            variable_visibility_high_ft: copy_opt_string(&self.variable_visibility_high_ft),
            variable_visibility_low_ft: copy_opt_string(&self.variable_visibility_low_ft),
        }
    }
}

impl SkyCondition {
    pub fn copy(&self) -> (r: SkyCondition)
        ensures
            r@ == self@,
    {
        SkyCondition {
            sky_cover: self.sky_cover.clone(),
            cloud_base_ft_agl: self.cloud_base_ft_agl,
            significant_convective_clouds: copy_opt_string(&self.significant_convective_clouds),
        }
    }
}

impl Remarks {
    pub fn copy(&self) -> (r: Remarks)
        ensures
            r@ == self@,
    {
        Remarks {
            peak_wind: self.peak_wind,
            auto: self.auto,
            auto_station_without_precipication: self.auto_station_without_precipication,
            auto_station_with_precipication: self.auto_station_with_precipication,
            maintenance_indicator_on: self.maintenance_indicator_on,
            corrected: self.corrected,
            no_significant_change: self.no_significant_change,
            temporary_change: self.temporary_change,
            rvr_missing: self.rvr_missing,
            precipication_identifier_information_not_available: self.precipication_identifier_information_not_available,
            precipication_information_not_available: self.precipication_information_not_available,
            freezing_rain_information_not_available: self.freezing_rain_information_not_available,
            thunderstorm_information_not_available: self.thunderstorm_information_not_available,
            visibility_at_secondary_location_not_available: copy_opt_string(
                &self.visibility_at_secondary_location_not_available,
            ),
            sky_condition_at_secondary_location_not_available: copy_opt_string(
                &self.sky_condition_at_secondary_location_not_available,
            ),
        }
    }
}

fn copy_rvrs(v: &Vec<RunwayVisualRange>) -> (r: Vec<RunwayVisualRange>)
    ensures
        rvrs_view(r@) == rvrs_view(v@),
{
    let mut out: Vec<RunwayVisualRange> = Vec::new();
    let mut i: usize = 0;
    while i < v.len()
        invariant
            i <= v@.len(),
            rvrs_view(out@) == rvrs_view(v@).subrange(0, i as int),
        decreases v@.len() - i,
    {
        let e = v[i].copy();
        let ghost before = rvrs_view(out@);
        out.push(e);
        proof {
            assert(rvrs_view(out@) =~= before.push(v@[i as int]@));
            assert(rvrs_view(v@).subrange(0, i + 1) =~= rvrs_view(v@).subrange(0, i as int).push(
                v@[i as int]@,
            ));
        }
        i += 1;
    }
    proof {
        assert(rvrs_view(v@).subrange(0, i as int) =~= rvrs_view(v@));
    }
    out
}

fn copy_skies(v: &Vec<SkyCondition>) -> (r: Vec<SkyCondition>)
    ensures
        skies_view(r@) == skies_view(v@),
{
    let mut out: Vec<SkyCondition> = Vec::new();
    let mut i: usize = 0;
    while i < v.len()
        invariant
            i <= v@.len(),
            skies_view(out@) == skies_view(v@).subrange(0, i as int),
        decreases v@.len() - i,
    {
        let e = v[i].copy();
        let ghost before = skies_view(out@);
        out.push(e);
        proof {
            assert(skies_view(out@) =~= before.push(v@[i as int]@));
            assert(skies_view(v@).subrange(0, i + 1) =~= skies_view(v@).subrange(0, i as int).push(
                v@[i as int]@,
            ));
        }
        i += 1;
    }
    proof {
        assert(skies_view(v@).subrange(0, i as int) =~= skies_view(v@));
    }
    out
}

impl Metar {
    /// A copy equal in every field.
    pub fn copy(&self) -> (r: Metar)
        ensures
            r@ == self@,
    {
        Metar {
            station_id: self.station_id.clone(),
            raw_text: self.raw_text.clone(),
            observation_time: self.observation_time,
            temp_c_tenths: self.temp_c_tenths,
            dewpoint_c_tenths: self.dewpoint_c_tenths,
            wind_dir_degrees: copy_opt_string(&self.wind_dir_degrees),
            wind_speed_kt_e5: self.wind_speed_kt_e5,
            wind_gust_kt_e5: self.wind_gust_kt_e5,
            variable_wind_dir_degrees: copy_opt_string(&self.variable_wind_dir_degrees),
            visibility_statute_mi: copy_opt_string(&self.visibility_statute_mi),
            runway_visual_range: copy_rvrs(&self.runway_visual_range),
            altim_in_hg_hundredths: self.altim_in_hg_hundredths,
            sea_level_pressure_mb_tenths: self.sea_level_pressure_mb_tenths,
            remarks: self.remarks.copy(),
            weather_phenomena: copy_strings(&self.weather_phenomena),
            sky_condition: copy_skies(&self.sky_condition),
            flight_category: self.flight_category,
            humidity_pct_tenths: self.humidity_pct_tenths,
        }
    }
}

} // verus!
