//! Records, labels and summaries shared by the aggregation and search code.
use vstd::prelude::*;

verus! {

/// One hourly observation.
///
/// Sensor readings are held as fixed-point integers so that the
/// classification thresholds are exact: temperatures and dew points in
/// tenths of a degree Celsius, humidity in tenths of a percent, wind speed
/// in tenths of a metre per second, visibility in metres, solar radiation
/// in hundredths of a MJ/m2, rainfall in tenths of a millimetre and
/// snowfall in millimetres.
#[derive(Debug, Clone)]
pub struct RawRecord {
    /// The calendar date, `DD/MM/YYYY`.
    pub date: String,
    pub rented_bike_count: i32,
    pub hour: u32,
    pub temperature_tenths: i32,
    pub humidity_tenths: i32,
    pub wind_speed_tenths: i32,
    pub visibility_m: i32,
    pub dew_point_tenths: i32,
    pub solar_radiation_hundredths: i32,
    pub rainfall_tenths: i32,
    pub snowfall_mm: i32,
    pub seasons: String,
    pub holiday: String,
    pub functioning_day: String,
    /// The month taken from the date's second `/`-separated component.
    pub month: u32,
}

/// The weather label of a day.
#[derive(Debug, Clone, Copy, PartialEq, Eq, Structural)]
pub enum Weather {
    Sunny,
    Rainy,
    Snowy,
    Foggy,
}

impl Weather {
    /// The label's name.
    pub fn label(&self) -> (r: &'static str)
        ensures
            r@ == weather_name(*self),
    {
        match self {
            Weather::Sunny => "Sunny",
            Weather::Rainy => "Rainy",
            Weather::Snowy => "Snowy",
            Weather::Foggy => "Foggy",
        }
    }
}

pub open spec fn weather_name(w: Weather) -> Seq<char> {
    match w {
        Weather::Sunny => "Sunny"@,
        Weather::Rainy => "Rainy"@,
        Weather::Snowy => "Snowy"@,
        Weather::Foggy => "Foggy"@,
    }
}

/// The temperature band of a day.
#[derive(Debug, Clone, Copy, PartialEq, Eq, Structural)]
pub enum TemperatureCategory {
    Hot,
    Moderate,
    Cold,
}

impl TemperatureCategory {
    /// The band's name.
    pub fn label(&self) -> (r: &'static str)
        ensures
            r@ == temperature_name(*self),
    {
        match self {
            TemperatureCategory::Hot => "Hot",
            TemperatureCategory::Moderate => "Moderate",
            TemperatureCategory::Cold => "Cold",
        }
    }
}

pub open spec fn temperature_name(t: TemperatureCategory) -> Seq<char> {
    match t {
        TemperatureCategory::Hot => "Hot"@,
        TemperatureCategory::Moderate => "Moderate"@,
        TemperatureCategory::Cold => "Cold"@,
    }
}

/// How heavy the snowfall of a day was.
#[derive(Debug, Clone, Copy, PartialEq, Eq, Structural)]
pub enum PrecipitationIntensity {
    Light,
    Heavy,
    Absent,
}

impl PrecipitationIntensity {
    /// The intensity's name.
    pub fn label(&self) -> (r: &'static str)
        ensures
            r@ == precipitation_name(*self),
    {
        match self {
            PrecipitationIntensity::Light => "Light",
            PrecipitationIntensity::Heavy => "Heavy",
            PrecipitationIntensity::Absent => "None",
        }
    }
}

pub open spec fn precipitation_name(p: PrecipitationIntensity) -> Seq<char> {
    match p {
        PrecipitationIntensity::Light => "Light"@,
        PrecipitationIntensity::Heavy => "Heavy"@,
        PrecipitationIntensity::Absent => "None"@,
    }
}

/// A query: the conditions of the day to forecast. A month of 0 stands for
/// an unset month and matches no day.
#[derive(Debug, Clone, Copy, PartialEq, Eq, Structural)]
pub struct Conditions {
    pub month: u32,
    pub weather: Weather,
    pub temperature: TemperatureCategory,
    pub precipitation: PrecipitationIntensity,
}

/// The aggregate of one calendar day.
#[derive(Debug)]
pub struct DaySummary {
    pub date: String,
    pub month: u32,
    pub total_rentals: i32,
    pub weather: Weather,
    pub temperature_category: TemperatureCategory,
    pub precipitation: PrecipitationIntensity,
}

/// A day summary as a mathematical value.
pub struct DayView {
    pub date: Seq<char>,
    pub month: u32,
    pub total_rentals: i32,
    pub weather: Weather,
    pub temperature_category: TemperatureCategory,
    pub precipitation: PrecipitationIntensity,
}

impl View for DaySummary {
    type V = DayView;

    open spec fn view(&self) -> DayView {
        DayView {
            date: self.date@,
            month: self.month,
            total_rentals: self.total_rentals,
            weather: self.weather,
            temperature_category: self.temperature_category,
            precipitation: self.precipitation,
        }
    }
}

impl Clone for DaySummary {
    fn clone(&self) -> (r: Self)
        ensures
            r@ == self@,
    {
        DaySummary {
            date: self.date.clone(),
            month: self.month,
            total_rentals: self.total_rentals,
            weather: self.weather,
            temperature_category: self.temperature_category,
            precipitation: self.precipitation,
        }
    }
}

} // verus!
