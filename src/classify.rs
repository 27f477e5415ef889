//! Labels derived from an hour's sensor readings.
use vstd::prelude::*;
use crate::common::{PrecipitationIntensity, RawRecord, TemperatureCategory, Weather};

verus! {

/// Below this visibility, in metres, a dry hour counts as foggy.
pub const FOG_VISIBILITY_M: i32 = 5000;

/// From this snowfall on, in millimetres, the snow counts as heavy.
pub const HEAVY_SNOW_MM: i32 = 10;

/// Above this temperature, in tenths of a degree, an hour counts as hot.
pub const HOT_ABOVE_TENTHS: i32 = 250;

/// Below this temperature, in tenths of a degree, an hour counts as cold.
pub const COLD_BELOW_TENTHS: i32 = 100;

/// Snow wins over rain, rain over fog; otherwise the hour is sunny.
pub open spec fn weather_of(snowfall_mm: i32, rainfall_tenths: i32, visibility_m: i32) -> Weather {
    if snowfall_mm > 0 {
        Weather::Snowy
    } else if rainfall_tenths > 0 {
        Weather::Rainy
    } else if visibility_m < FOG_VISIBILITY_M {
        Weather::Foggy
    } else {
        Weather::Sunny
    }
}

/// Only snowfall decides the intensity; rain is not looked at.
pub open spec fn precipitation_of(snowfall_mm: i32) -> PrecipitationIntensity {
    if snowfall_mm <= 0 {
        PrecipitationIntensity::Absent
    } else if snowfall_mm < HEAVY_SNOW_MM {
        PrecipitationIntensity::Light
    } else {
        PrecipitationIntensity::Heavy
    }
}

/// The two bounds themselves fall in the moderate band.
pub open spec fn temperature_of(temperature_tenths: i32) -> TemperatureCategory {
    if temperature_tenths > HOT_ABOVE_TENTHS {
        TemperatureCategory::Hot
    } else if temperature_tenths < COLD_BELOW_TENTHS {
        TemperatureCategory::Cold
    } else {
        TemperatureCategory::Moderate
    }
}

/// The weather label of an hour.
pub fn classify_weather(snowfall_mm: i32, rainfall_tenths: i32, visibility_m: i32) -> (w: Weather)
    ensures
        w == weather_of(snowfall_mm, rainfall_tenths, visibility_m),
        snowfall_mm > 0 ==> w == Weather::Snowy,
{
    if snowfall_mm > 0 {
        Weather::Snowy
    } else if rainfall_tenths > 0 {
        Weather::Rainy
    } else if visibility_m < FOG_VISIBILITY_M {
        Weather::Foggy
    } else {
        Weather::Sunny
    }
}

/// The precipitation intensity of an hour.
pub fn classify_precipitation(snowfall_mm: i32) -> (p: PrecipitationIntensity)
    ensures
        p == precipitation_of(snowfall_mm),
{
    if snowfall_mm <= 0 {
        PrecipitationIntensity::Absent
    } else if snowfall_mm < HEAVY_SNOW_MM {
        PrecipitationIntensity::Light
    } else {
        PrecipitationIntensity::Heavy
    }
}

/// The temperature band of an hour.
pub fn classify_temperature(temperature_tenths: i32) -> (t: TemperatureCategory)
    ensures
        t == temperature_of(temperature_tenths),
{
    if temperature_tenths > HOT_ABOVE_TENTHS {
        TemperatureCategory::Hot
    } else if temperature_tenths < COLD_BELOW_TENTHS {
        TemperatureCategory::Cold
    } else {
        TemperatureCategory::Moderate
    }
}

/// The weather label of a record.
pub open spec fn record_weather(r: RawRecord) -> Weather {
    weather_of(r.snowfall_mm, r.rainfall_tenths, r.visibility_m)
}

/// The temperature band of a record.
pub open spec fn record_temperature(r: RawRecord) -> TemperatureCategory {
    temperature_of(r.temperature_tenths)
}

/// The precipitation intensity of a record.
pub open spec fn record_precipitation(r: RawRecord) -> PrecipitationIntensity {
    precipitation_of(r.snowfall_mm)
}

} // verus!
