//! The weather part of the report.
//!
//! The weather of today comes as it is, that of the next days as a short
//! forecast, and that of past days from what was kept at the time.

use vstd::prelude::*;

use crate::cache::{
    cached, called_through, kept, latest_response, law_given_is_asked_for_or_kept,
    law_other_entries_are_untouched, law_reads_back_what_was_stored, Cache, Reason,
};
use crate::date::{
    earlier, format_date, is_earlier, iso_text, law_date_texts_tell_dates_apart, read_clock, reads,
    Date, Stamp,
};
use crate::text::{
    chars_of, contains_text, decimal, lemma_contains_more, lemma_decimal, lemma_occurs_between,
    lemma_parsed_unsigned, pad_left, pad_right, padded_left, padded_right, parse_unsigned,
    parsed_unsigned, push_all, push_decimal, push_str, same_str, string_of, text_of, trim, trimmed,
};
use crate::transport::{gives, plain_replies, takes_any};

verus! {

/// The forecast of the service.
#[derive(Debug)]
pub struct WttrForecast {
    /// The days.
    pub weather: Vec<ForecastDay>,
}

/// One day of the forecast.
#[derive(Debug)]
pub struct ForecastDay {
    /// The local date as `YYYY-MM-DD`.
    pub date: String,
    /// The highest temperature.
    pub max_temp_c: String,
    /// The lowest temperature.
    pub min_temp_c: String,
    /// The day in slots of three hours.
    pub hourly: Vec<ForecastHour>,
}

/// One slot of a day.
#[derive(Debug)]
pub struct ForecastHour {
    /// When it begins, such as `0`, `900` or `1200`.
    pub time: String,
    /// The temperature.
    pub temp_c: String,
    /// What the weather is like.
    pub weather_desc: Vec<ForecastDesc>,
    /// The speed of the wind.
    pub windspeed_kmph: String,
    /// How likely rain is, in per cent.
    pub chanceofrain: String,
}

/// What the weather is like.
#[derive(Debug)]
pub struct ForecastDesc {
    /// In words.
    pub value: String,
}

// --- Models ------------------------------------------------------------------

/// The index, from `from` on, of the first slot that begins at `time`.
pub open spec fn slot_index(hourly: Seq<ForecastHour>, time: Seq<char>, from: int) -> Option<int>
    decreases hourly.len() - from,
{
    if from < 0 || from >= hourly.len() {
        None
    } else if hourly[from].time@ == time {
        Some(from)
    } else {
        slot_index(hourly, time, from + 1)
    }
}

/// The slot that begins at `time`.
pub open spec fn slot(day: ForecastDay, time: Seq<char>) -> Option<ForecastHour> {
    match slot_index(day.hourly@, time, 0) {
        Some(i) => Some(day.hourly@[i]),
        None => None,
    }
}

/// What the weather is like in a slot.
pub open spec fn description(hour: ForecastHour) -> Seq<char> {
    if hour.weather_desc@.len() > 0 {
        trimmed(hour.weather_desc@[0].value@)
    } else {
        Seq::empty()
    }
}

/// The line of a slot, if there is one.
pub open spec fn slot_line(day: ForecastDay, label: Seq<char>, time: Seq<char>) -> Seq<char> {
    match slot(day, time) {
        Some(hour) => padded_right(label, 8) + " "@ + padded_left(hour.temp_c@, 3) + " C  "@
            + description(hour) + "\n"@,
        None => Seq::empty(),
    }
}

/// A number, or zero where there is none.
pub open spec fn number_or_zero(s: Seq<char>) -> int {
    match parsed_unsigned(s, 10, 0xffff_ffff) {
        Some(n) => n,
        None => 0,
    }
}

/// The wind of a slot, or zero where there is none.
pub open spec fn slot_wind(day: ForecastDay, time: Seq<char>) -> int {
    match slot(day, time) {
        Some(hour) => number_or_zero(hour.windspeed_kmph@),
        None => 0,
    }
}

/// The chance of rain of a slot, or zero where there is none.
pub open spec fn slot_rain(day: ForecastDay, time: Seq<char>) -> int {
    match slot(day, time) {
        Some(hour) => number_or_zero(hour.chanceofrain@),
        None => 0,
    }
}

/// The larger of two numbers.
pub open spec fn larger(a: int, b: int) -> int {
    if a >= b {
        a
    } else {
        b
    }
}

/// The strongest wind of the four slots.
pub open spec fn strongest_wind(day: ForecastDay) -> int {
    larger(
        larger(larger(slot_wind(day, "900"@), slot_wind(day, "1200"@)), slot_wind(day, "1800"@)),
        slot_wind(day, "2100"@),
    )
}

/// The highest chance of rain of the four slots.
pub open spec fn likeliest_rain(day: ForecastDay) -> int {
    larger(
        larger(larger(slot_rain(day, "900"@), slot_rain(day, "1200"@)), slot_rain(day, "1800"@)),
        slot_rain(day, "2100"@),
    )
}

/// One day of forecast as a narrow block.
pub open spec fn forecast_text(location: Seq<char>, day: ForecastDay) -> Seq<char> {
    "Weather forecast: "@ + location + "\n\nHigh "@ + day.max_temp_c@ + " C  /  Low "@
        + day.min_temp_c@ + " C\n\n"@ + slot_line(day, "Morning"@, "900"@) + slot_line(
        day,
        "Midday"@,
        "1200"@,
    ) + slot_line(day, "Evening"@, "1800"@) + slot_line(day, "Night"@, "2100"@) + "\nWind up to "@
        + decimal(strongest_wind(day) as nat) + " km/h.  Rain "@ + decimal(
        likeliest_rain(day) as nat,
    ) + "%.\n"@
}

/// The key under which the weather of today is kept.
pub open spec fn current_key(location: Seq<char>, days: nat, date: Date) -> Seq<char> {
    "current|"@ + location + "|"@ + decimal(days) + "|"@ + iso_text(date)
}

/// The key under which a forecast is kept.
pub open spec fn forecast_key(location: Seq<char>, date: Date) -> Seq<char> {
    "forecast|"@ + location + "|"@ + iso_text(date)
}

/// The address at which the weather of today is asked for.
pub open spec fn weather_url(location: Seq<char>, days: nat) -> Seq<char> {
    "https://wttr.in/"@ + location + "?"@ + decimal(days) + "T"@
}

/// The address at which the forecast is asked for.
pub open spec fn forecast_url(location: Seq<char>) -> Seq<char> {
    "https://wttr.in/"@ + location + "?format=j1"@
}

/// The index, from `from` on, of the first day with this date.
pub open spec fn day_index(days: Seq<ForecastDay>, date: Seq<char>, from: int) -> Option<int>
    decreases days.len() - from,
{
    if from < 0 || from >= days.len() {
        None
    } else if days[from].date@ == date {
        Some(from)
    } else {
        day_index(days, date, from + 1)
    }
}

/// The forecast for a date, where the service has one.
pub open spec fn forecast_for(data: WttrForecast, location: Seq<char>, target: Date) -> Option<
    Seq<char>,
> {
    match day_index(data.weather@, iso_text(target), 0) {
        Some(i) => Some(forecast_text(location, data.weather@[i])),
        None => None,
    }
}

/// What is said where there is no forecast.
pub open spec fn no_forecast() -> Seq<char> {
    "No weather available for this date.\n(wttr.in only forecasts the next few days.)"@
}

/// What is said where nothing was kept.
pub open spec fn no_history() -> Seq<char> {
    "No weather stored for this past date."@
}

/// What was kept of the weather of a past day: the forecast, or else the weather
/// of the day itself.
pub open spec fn history(cache: Option<Cache>, location: Seq<char>, days: nat, target: Date) -> Seq<
    char,
> {
    match cache {
        None => no_history(),
        Some(c) => match latest_response(c.rows@, "forecast"@, forecast_key(location, target)) {
            Some(hit) => hit,
            None => match latest_response(
                c.rows@,
                "weather"@,
                current_key(location, days, target),
            ) {
                Some(hit) => hit,
                None => no_history(),
            },
        },
    }
}

/// What was fetched, with its text as a sequence.
pub open spec fn viewed<E>(r: Result<Option<String>, E>) -> Result<Option<Seq<char>>, E> {
    match r {
        Ok(s) => Ok(text_of(s)),
        Err(e) => Err(e),
    }
}

/// A forecast was asked for and read.
pub open spec fn forecast_fetched<
    E,
    G: Fn(&str) -> Result<String, E>,
    R: Fn(&str) -> Result<WttrForecast, E>,
>(
    location: Seq<char>,
    target: Date,
    get: G,
    read: R,
    r: Result<Option<Seq<char>>, E>,
) -> bool {
    exists|reply: Result<String, E>| #[trigger]
        gives(get, forecast_url(location), reply) && (match reply {
            Err(e) => r == Err::<Option<Seq<char>>, E>(e),
            Ok(body) => exists|data: Result<WttrForecast, E>| #[trigger]
                gives(read, body@, data) && (match data {
                    Err(e) => r == Err::<Option<Seq<char>>, E>(e),
                    Ok(d) => r == Ok::<Option<Seq<char>>, E>(forecast_for(d, location, target)),
                }),
        })
}

/// The forecast was recorded at the time `at`, where there is a cache.
pub open spec fn kept_at(
    before: Option<Cache>,
    cache: Option<Cache>,
    key: Seq<char>,
    target: Date,
    text: Seq<char>,
    at: Stamp,
) -> bool {
    match (before, cache) {
        (Some(b), Some(c)) => c.recorded(b, "forecast"@, key, Some(target), at.text@, text),
        (None, None) => true,
        _ => false,
    }
}

/// The forecast was recorded, where there is a cache.
pub open spec fn forecast_kept(
    before: Option<Cache>,
    cache: Option<Cache>,
    key: Seq<char>,
    target: Date,
    text: Seq<char>,
) -> bool {
    exists|at: Stamp| reads(at) && at.wf() && #[trigger] kept_at(before, cache, key, target, text, at)
}

/// A request for a forecast that failed was answered with the newest one that is
/// kept under the key, or was passed on where none is.
pub open spec fn forecast_failed<E: Reason>(
    before: Option<Cache>,
    cache: Option<Cache>,
    key: Seq<char>,
    error: E,
    r: Result<Option<String>, E>,
) -> bool {
    match (before, cache) {
        (Some(b), Some(c)) => match latest_response(b.rows@, "forecast"@, key) {
            Some(old_text) => {
                &&& r matches Ok(Some(s)) && s@ == old_text
                &&& c.fell_back(b, "forecast"@, error)
            },
            None => r == Err::<Option<String>, E>(error) && c.unchanged(b),
        },
        (None, None) => r == Err::<Option<String>, E>(error),
        _ => false,
    }
}

/// What a forecast that was asked for comes to and leaves behind: one that there
/// is is recorded, and a failure is answered with the newest one that is kept.
pub open spec fn forecast_settled<E: Reason>(
    before: Option<Cache>,
    cache: Option<Cache>,
    location: Seq<char>,
    target: Date,
    fetched: Result<Option<Seq<char>>, E>,
    r: Result<Option<String>, E>,
) -> bool {
    match fetched {
        Err(e) => forecast_failed(before, cache, forecast_key(location, target), e, r),
        Ok(None) => r == Ok::<Option<String>, E>(None) && cache == before,
        Ok(Some(text)) => {
            &&& r matches Ok(Some(s)) && s@ == text
            &&& forecast_kept(before, cache, forecast_key(location, target), target, text)
        },
    }
}

/// A forecast was served from the cache at the time `at`.
pub open spec fn forecast_served<E>(
    before: Option<Cache>,
    cache: Option<Cache>,
    location: Seq<char>,
    target: Date,
    at: Stamp,
    r: Result<Option<String>, E>,
) -> bool {
    &&& cache == before
    &&& reads(at) && at.wf()
    &&& before matches Some(b) && (r matches Ok(Some(s)) && b.fresh(
        "forecast"@,
        forecast_key(location, target),
        Some(target),
        false,
        at,
    ) == Some(s@))
}

/// The forecast for a date: a fresh one that was kept, or one that is asked for,
/// or the newest one that was kept where asking fails.
pub open spec fn forecast_given<
    E: Reason,
    G: Fn(&str) -> Result<String, E>,
    R: Fn(&str) -> Result<WttrForecast, E>,
>(
    before: Option<Cache>,
    cache: Option<Cache>,
    location: Seq<char>,
    target: Date,
    get: G,
    read: R,
    r: Result<Option<String>, E>,
) -> bool {
    ||| exists|at: Stamp| #[trigger] forecast_served(before, cache, location, target, at, r)
    ||| exists|fetched: Result<Option<Seq<char>>, E>|
        forecast_fetched(location, target, get, read, fetched) && #[trigger] forecast_settled(
            before,
            cache,
            location,
            target,
            fetched,
            r,
        ) && stale(before, location, target)
}

/// Nothing fresh was kept for the date, at some time.
pub open spec fn stale(before: Option<Cache>, location: Seq<char>, target: Date) -> bool {
    before matches Some(b) ==> exists|at: Stamp|
        reads(at) && at.wf() && #[trigger] b.fresh(
            "forecast"@,
            forecast_key(location, target),
            Some(target),
            false,
            at,
        ) is None
}

// --- Laws ---------------------------------------------------------------------

/// The hourly entry `i` is the one for a time of day: it is the first that carries
/// the time.
pub open spec fn hour_for(day: ForecastDay, i: int, time: Seq<char>) -> bool {
    &&& 0 <= i < day.hourly@.len()
    &&& day.hourly@[i].time@ == time
    &&& forall|j: int| 0 <= j < i ==> (#[trigger] day.hourly@[j]).time@ != time
}

/// One of the four times of day that a forecast names.
pub open spec fn named_time(time: Seq<char>) -> bool {
    ||| time == "900"@
    ||| time == "1200"@
    ||| time == "1800"@
    ||| time == "2100"@
}

proof fn lemma_hour_for(hourly: Seq<ForecastHour>, time: Seq<char>, from: int, i: int)
    requires
        0 <= from <= i < hourly.len(),
        hourly[i].time@ == time,
        forall|j: int| from <= j < i ==> (#[trigger] hourly[j]).time@ != time,
    ensures
        slot_index(hourly, time, from) == Some(i),
    decreases i - from,
{
    if from < i {
        assert(hourly[from].time@ != time);
        lemma_hour_for(hourly, time, from + 1, i);
    }
}

proof fn lemma_no_hour(hourly: Seq<ForecastHour>, time: Seq<char>, from: int)
    requires
        0 <= from,
    ensures
        match slot_index(hourly, time, from) {
            Some(i) => from <= i < hourly.len() && hourly[i].time@ == time && forall|j: int|
                from <= j < i ==> (#[trigger] hourly[j]).time@ != time,
            None => true,
        },
    decreases hourly.len() - from,
{
    if from < hourly.len() && hourly[from].time@ != time {
        lemma_no_hour(hourly, time, from + 1);
    }
}

proof fn lemma_slot_numbers(day: ForecastDay, time: Seq<char>)
    ensures
        slot_wind(day, time) >= 0,
        slot_rain(day, time) >= 0,
{
    if let Some(hour) = slot(day, time) {
        lemma_parsed_unsigned(hour.windspeed_kmph@, 10, 0xffff_ffff);
        lemma_parsed_unsigned(hour.chanceofrain@, 10, 0xffff_ffff);
    }
}

/// The wind and the rain that a forecast names are upper bounds that are reached.
/// The number after `Wind up to` is at least the wind speed of each of the four
/// times of day that the day has an entry for, the number after `Rain` at least
/// the chance of rain of each; and each number is that of one of these entries, or
/// zero.
pub proof fn law_wind_and_rain_are_reached_bounds(
    location: &str,
    forecast: &ForecastDay,
    r: String,
    day: ForecastDay,
)
    requires
        call_ensures(format_forecast, (location, forecast), r),
        day == *forecast,
    ensures
        exists|head: Seq<char>, wind: nat, rain: nat|
            {
                &&& r@ == #[trigger] (head + "\nWind up to "@ + decimal(wind)
                    + " km/h.  Rain "@ + decimal(rain) + "%.\n"@)
                &&& forall|i: int, time: Seq<char>|
                    named_time(time) && #[trigger] hour_for(day, i, time) ==> (parsed_unsigned(
                        day.hourly@[i].windspeed_kmph@,
                        10,
                        0xffff_ffff,
                    ) matches Some(n) ==> n <= wind) && (parsed_unsigned(
                        day.hourly@[i].chanceofrain@,
                        10,
                        0xffff_ffff,
                    ) matches Some(n) ==> n <= rain)
                &&& wind == 0 || exists|i: int, time: Seq<char>|
                    named_time(time) && #[trigger] hour_for(day, i, time) && parsed_unsigned(
                        day.hourly@[i].windspeed_kmph@,
                        10,
                        0xffff_ffff,
                    ) == Some(wind as int)
                &&& rain == 0 || exists|i: int, time: Seq<char>|
                    named_time(time) && #[trigger] hour_for(day, i, time) && parsed_unsigned(
                        day.hourly@[i].chanceofrain@,
                        10,
                        0xffff_ffff,
                    ) == Some(rain as int)
            },
{
    let head = "Weather forecast: "@ + location@ + "\n\nHigh "@ + day.max_temp_c@ + " C  /  Low "@
        + day.min_temp_c@ + " C\n\n"@ + slot_line(day, "Morning"@, "900"@) + slot_line(
        day,
        "Midday"@,
        "1200"@,
    ) + slot_line(day, "Evening"@, "1800"@) + slot_line(day, "Night"@, "2100"@);
    let wind = strongest_wind(day) as nat;
    let rain = likeliest_rain(day) as nat;
    let hourly = day.hourly@;
    assert(r@ == head + "\nWind up to "@ + decimal(wind)
        + " km/h.  Rain "@ + decimal(rain) + "%.\n"@);
    lemma_no_hour(hourly, "900"@, 0);
    lemma_no_hour(hourly, "1200"@, 0);
    lemma_no_hour(hourly, "1800"@, 0);
    lemma_no_hour(hourly, "2100"@, 0);
    assert forall|i: int, time: Seq<char>|
        named_time(time) && #[trigger] hour_for(day, i, time) implies (parsed_unsigned(
        day.hourly@[i].windspeed_kmph@,
        10,
        0xffff_ffff,
    ) matches Some(n) ==> n <= wind) && (parsed_unsigned(
        day.hourly@[i].chanceofrain@,
        10,
        0xffff_ffff,
    ) matches Some(n) ==> n <= rain) by {
        lemma_hour_for(hourly, time, 0, i);
    }
    let times = seq!["900"@, "1200"@, "1800"@, "2100"@];
    lemma_slot_numbers(day, "900"@);
    lemma_slot_numbers(day, "1200"@);
    lemma_slot_numbers(day, "1800"@);
    lemma_slot_numbers(day, "2100"@);
    if wind > 0 {
        assert(exists|k: int| 0 <= k < 4 && slot_wind(day, #[trigger] times[k]) == wind) by {
            assert(slot_wind(day, times[0]) == wind || slot_wind(day, times[1]) == wind
                || slot_wind(day, times[2]) == wind || slot_wind(day, times[3]) == wind);
        }
        let k = choose|k: int| 0 <= k < 4 && slot_wind(day, #[trigger] times[k]) == wind;
        let i = slot_index(hourly, times[k], 0)->0;
        assert(hour_for(day, i, times[k]));
        assert(named_time(times[k]));
    }
    if rain > 0 {
        assert(exists|k: int| 0 <= k < 4 && slot_rain(day, #[trigger] times[k]) == rain) by {
            assert(slot_rain(day, times[0]) == rain || slot_rain(day, times[1]) == rain
                || slot_rain(day, times[2]) == rain || slot_rain(day, times[3]) == rain);
        }
        let k = choose|k: int| 0 <= k < 4 && slot_rain(day, #[trigger] times[k]) == rain;
        let i = slot_index(hourly, times[k], 0)->0;
        assert(hour_for(day, i, times[k]));
        assert(named_time(times[k]));
    }
}

/// The label under which a forecast shows a time of day.
pub open spec fn named_label(label: Seq<char>, time: Seq<char>) -> bool {
    ||| label == "Morning"@ && time == "900"@
    ||| label == "Midday"@ && time == "1200"@
    ||| label == "Evening"@ && time == "1800"@
    ||| label == "Night"@ && time == "2100"@
}

/// A forecast has a line for each of the four times of day that the day has an
/// entry for, with its temperature and what the weather is like; and it names the
/// place and the highest and lowest temperatures of the day.
pub proof fn law_a_forecast_shows_every_time_of_day(
    location: &str,
    forecast: &ForecastDay,
    r: String,
    day: ForecastDay,
    label: Seq<char>,
    time: Seq<char>,
    i: int,
)
    requires
        call_ensures(format_forecast, (location, forecast), r),
        day == *forecast,
        named_label(label, time),
        hour_for(day, i, time),
    ensures
        contains_text(
            r@,
            padded_right(label, 8) + " "@ + padded_left(day.hourly@[i].temp_c@, 3) + " C  "@ + (
            if day.hourly@[i].weather_desc@.len() > 0 {
                trimmed(day.hourly@[i].weather_desc@[0].value@)
            } else {
                Seq::empty()
            }) + "\n"@,
        ),
        contains_text(r@, "Weather forecast: "@ + location@ + "\n"@),
        contains_text(
            r@,
            "High "@ + day.max_temp_c@ + " C  /  Low "@ + day.min_temp_c@ + " C\n"@,
        ),
{
    lemma_hour_for(day.hourly@, time, 0, i);
    lemma_forecast_parts(location@, day);
    let line = slot_line(day, label, time);
    assert(line == padded_right(label, 8) + " "@ + padded_left(day.hourly@[i].temp_c@, 3) + " C  "@
        + (if day.hourly@[i].weather_desc@.len() > 0 {
        trimmed(day.hourly@[i].weather_desc@[0].value@)
    } else {
        Seq::empty()
    }) + "\n"@);
}

/// What stands at the head of a forecast.
spec fn forecast_head(location: Seq<char>, day: ForecastDay) -> Seq<char> {
    "Weather forecast: "@ + location + "\n\nHigh "@ + day.max_temp_c@ + " C  /  Low "@
        + day.min_temp_c@ + " C\n\n"@
}

proof fn lemma_forecast_head(location: Seq<char>, day: ForecastDay)
    ensures
        contains_text(
            forecast_head(location, day),
            "Weather forecast: "@ + location + "\n"@,
        ),
        contains_text(
            forecast_head(location, day),
            "High "@ + day.max_temp_c@ + " C  /  Low "@ + day.min_temp_c@ + " C\n"@,
        ),
{
    reveal_strlit("\n");
    reveal_strlit("\n\nHigh ");
    reveal_strlit("High ");
    reveal_strlit(" C\n\n");
    reveal_strlit(" C\n");
    let place = "Weather forecast: "@ + location + "\n"@;
    let temps = "High "@ + day.max_temp_c@ + " C  /  Low "@ + day.min_temp_c@ + " C\n"@;
    assert("\n\nHigh "@ =~= "\n"@ + "\n"@ + "High "@);
    assert(" C\n\n"@ =~= " C\n"@ + "\n"@);
    assert(forecast_head(location, day) =~= Seq::empty() + place + ("\n"@ + temps + "\n"@));
    lemma_occurs_between(Seq::empty(), place, "\n"@ + temps + "\n"@);
    assert(forecast_head(location, day) =~= (place + "\n"@) + temps + "\n"@);
    lemma_occurs_between(place + "\n"@, temps, "\n"@);
}

/// What is in a text is in it with more behind it.
proof fn lemma_in_all(t: Seq<char>, a: Seq<char>, b: Seq<char>, c: Seq<char>, part: Seq<char>)
    requires
        contains_text(t, part),
    ensures
        contains_text(t + a, part),
        contains_text(t + a + b, part),
        contains_text(t + a + b + c, part),
{
    lemma_contains_more(t, a, part);
    lemma_contains_more(t + a, b, part);
    lemma_contains_more(t + a + b, c, part);
}

proof fn lemma_forecast_parts(location: Seq<char>, day: ForecastDay)
    ensures
        contains_text(
            forecast_text(location, day),
            "Weather forecast: "@ + location + "\n"@,
        ),
        contains_text(
            forecast_text(location, day),
            "High "@ + day.max_temp_c@ + " C  /  Low "@ + day.min_temp_c@ + " C\n"@,
        ),
        contains_text(forecast_text(location, day), slot_line(day, "Morning"@, "900"@)),
        contains_text(forecast_text(location, day), slot_line(day, "Midday"@, "1200"@)),
        contains_text(forecast_text(location, day), slot_line(day, "Evening"@, "1800"@)),
        contains_text(forecast_text(location, day), slot_line(day, "Night"@, "2100"@)),
{
    let head = forecast_head(location, day);
    let l1 = slot_line(day, "Morning"@, "900"@);
    let l2 = slot_line(day, "Midday"@, "1200"@);
    let l3 = slot_line(day, "Evening"@, "1800"@);
    let l4 = slot_line(day, "Night"@, "2100"@);
    let w = "\nWind up to "@;
    let n = decimal(strongest_wind(day) as nat);
    let k = " km/h.  Rain "@;
    let r = decimal(likeliest_rain(day) as nat);
    let e = "%.\n"@;
    let lines = head + l1 + l2 + l3 + l4;
    let none = Seq::<char>::empty();
    let t = forecast_text(location, day);
    assert(t == lines + w + n + k + r + e);
    lemma_forecast_head(location, day);
    let place = "Weather forecast: "@ + location + "\n"@;
    let temps = "High "@ + day.max_temp_c@ + " C  /  Low "@ + day.min_temp_c@ + " C\n"@;
    lemma_in_all(head, l1, l2, l3, place);
    lemma_in_all(head, l1, l2, l3, temps);
    lemma_contains_more(head + l1 + l2 + l3, l4, place);
    lemma_contains_more(head + l1 + l2 + l3, l4, temps);
    lemma_occurs_between(head, l1, none);
    assert(head + l1 + none =~= head + l1);
    lemma_in_all(head + l1, l2, l3, l4, l1);
    lemma_occurs_between(head + l1, l2, none);
    assert(head + l1 + l2 + none =~= head + l1 + l2);
    lemma_contains_more(head + l1 + l2, l3, l2);
    lemma_contains_more(head + l1 + l2 + l3, l4, l2);
    lemma_occurs_between(head + l1 + l2, l3, none);
    assert(head + l1 + l2 + l3 + none =~= head + l1 + l2 + l3);
    lemma_contains_more(head + l1 + l2 + l3, l4, l3);
    lemma_occurs_between(head + l1 + l2 + l3, l4, none);
    assert(lines + none =~= lines);
    lemma_tail(lines, w, n, k, r, e, place);
    lemma_tail(lines, w, n, k, r, e, temps);
    lemma_tail(lines, w, n, k, r, e, l1);
    lemma_tail(lines, w, n, k, r, e, l2);
    lemma_tail(lines, w, n, k, r, e, l3);
    lemma_tail(lines, w, n, k, r, e, l4);
}

proof fn lemma_tail(
    t: Seq<char>,
    a: Seq<char>,
    b: Seq<char>,
    c: Seq<char>,
    d: Seq<char>,
    e: Seq<char>,
    part: Seq<char>,
)
    requires
        contains_text(t, part),
    ensures
        contains_text(t + a + b + c + d + e, part),
{
    lemma_in_all(t, a, b, c, part);
    lemma_contains_more(t + a + b + c, d, part);
    lemma_contains_more(t + a + b + c + d, e, part);
}

proof fn lemma_day_index(days: Seq<ForecastDay>, date: Seq<char>, from: int)
    requires
        0 <= from,
    ensures
        match day_index(days, date, from) {
            Some(i) => from <= i < days.len() && days[i].date@ == date && forall|j: int|
                from <= j < i ==> (#[trigger] days[j]).date@ != date,
            None => forall|j: int| from <= j < days.len() ==> (#[trigger] days[j]).date@ != date,
        },
    decreases days.len() - from,
{
    if from < days.len() && days[from].date@ != date {
        lemma_day_index(days, date, from + 1);
    }
}

/// The forecast for a date is that of the first day of the answer that carries the
/// date, and there is none exactly when no day does.
pub proof fn law_the_forecast_is_that_of_the_date(
    data: &WttrForecast,
    location: &str,
    target: Date,
    r: Option<String>,
    i: int,
    day: &ForecastDay,
    text: String,
)
    requires
        target.wf(),
        call_ensures(pick_forecast, (data, location, target), r),
        call_ensures(format_forecast, (location, day), text),
        *day == data.weather@[i],
    ensures
        0 <= i < data.weather@.len() && data.weather@[i].date@ == iso_text(target) && (forall|j: int|
            0 <= j < i ==> (#[trigger] data.weather@[j]).date@ != iso_text(target)) ==> r is Some
            && r->0@ == text@,
        r is None <==> forall|j: int|
            0 <= j < data.weather@.len() ==> (#[trigger] data.weather@[j]).date@ != iso_text(target),
{
    lemma_day_index(data.weather@, iso_text(target), 0);
    if r is None {
        assert(text_of(r) is None);
    } else {
        assert(text_of(r) is Some);
    }
}

/// What is kept of the weather is kept for one day and, of the day itself, for so
/// many days ahead.
pub proof fn law_days_of_weather_are_kept_apart(
    location: Seq<char>,
    days: nat,
    more: nat,
    a: Date,
    b: Date,
)
    requires
        a.wf(),
        b.wf(),
    ensures
        forecast_key(location, a) == forecast_key(location, b) ==> a == b,
        current_key(location, days, a) == current_key(location, days, b) ==> a == b,
        current_key(location, days, a) == current_key(location, more, a) ==> days == more,
{
    let head = "forecast|"@ + location + "|"@;
    let h = head.len() as int;
    assert(forecast_key(location, a).skip(h) =~= iso_text(a));
    assert(forecast_key(location, b).skip(h) =~= iso_text(b));
    let start = "current|"@ + location + "|"@ + decimal(days) + "|"@;
    let n = start.len() as int;
    assert(current_key(location, days, a).skip(n) =~= iso_text(a));
    assert(current_key(location, days, b).skip(n) =~= iso_text(b));
    law_date_texts_tell_dates_apart(a, b);
    if current_key(location, days, a) == current_key(location, more, a) {
        let x = current_key(location, days, a);
        let y = current_key(location, more, a);
        let front = "current|"@ + location + "|"@;
        let f = front.len() as int;
        assert(x.len() == f + decimal(days).len() + "|"@.len() + iso_text(a).len());
        assert(y.len() == f + decimal(more).len() + "|"@.len() + iso_text(a).len());
        let e = f + decimal(days).len();
        assert(x.subrange(f, e) =~= decimal(days));
        assert(y.subrange(f, e) =~= decimal(more));
        lemma_decimal(days);
        lemma_decimal(more);
    }
}

/// The weather is asked for at its place, and for so many days as are wanted.
pub proof fn law_weather_is_asked_for_at_its_place(location: Seq<char>, days: nat)
    ensures
        contains_text(forecast_url(location), "wttr.in/"@ + location + "?format=j1"@),
        contains_text(weather_url(location, days), "wttr.in/"@ + location + "?"@ + decimal(days)),
{
    reveal_strlit("https://wttr.in/");
    reveal_strlit("https://");
    reveal_strlit("wttr.in/");
    assert("https://wttr.in/"@ =~= "https://"@ + "wttr.in/"@);
    let none = Seq::<char>::empty();
    let f = "wttr.in/"@ + location + "?format=j1"@;
    assert(forecast_url(location) =~= "https://"@ + f + none);
    lemma_occurs_between("https://"@, f, none);
    let w = "wttr.in/"@ + location + "?"@ + decimal(days);
    assert(weather_url(location, days) =~= "https://"@ + w + "T"@);
    lemma_occurs_between("https://"@, w, "T"@);
}

/// A forecast that was kept for a date is what is shown once the date has passed.
pub proof fn law_a_kept_forecast_is_history(
    before: Cache,
    cache: Cache,
    location: Seq<char>,
    days: nat,
    target: Date,
    at: Seq<char>,
    text: Seq<char>,
)
    requires
        cache.recorded(
            before,
            "forecast"@,
            forecast_key(location, target),
            Some(target),
            at,
            text,
        ),
    ensures
        history(Some(cache), location, days, target) == text,
{
    law_reads_back_what_was_stored(
        before,
        cache,
        "forecast"@,
        forecast_key(location, target),
        Some(target),
        at,
        text,
    );
}

/// A forecast that was kept for a date stands in for one that cannot be had,
/// whatever its age.
pub proof fn law_a_kept_forecast_stands_in<E: Reason>(
    before: Cache,
    cache: Cache,
    location: Seq<char>,
    target: Date,
    error: E,
    r: Result<Option<String>, E>,
)
    requires
        forecast_settled(Some(before), Some(cache), location, target, Err(error), r),
    ensures
        r is Ok <==> latest_response(before.rows@, "forecast"@, forecast_key(location, target))
            is Some,
        r matches Ok(text) ==> text_of(text) == latest_response(
            before.rows@,
            "forecast"@,
            forecast_key(location, target),
        ),
        r is Err ==> r == Err::<Option<String>, E>(error),
        cache.rows@ == before.rows@,
{
}

/// The weather of a day that was kept on the day is what is shown once the day has
/// passed, unless a forecast had been kept for it.
pub proof fn law_kept_weather_is_history(
    before: Cache,
    cache: Cache,
    location: Seq<char>,
    days: nat,
    target: Date,
    at: Seq<char>,
    text: Seq<char>,
)
    requires
        cache.recorded(
            before,
            "weather"@,
            current_key(location, days, target),
            Some(target),
            at,
            text,
        ),
        latest_response(before.rows@, "forecast"@, forecast_key(location, target)) is None,
    ensures
        history(Some(cache), location, days, target) == text,
{
    reveal_strlit("weather");
    reveal_strlit("forecast");
    assert("weather"@.len() != "forecast"@.len());
    law_reads_back_what_was_stored(
        before,
        cache,
        "weather"@,
        current_key(location, days, target),
        Some(target),
        at,
        text,
    );
    law_other_entries_are_untouched(
        before,
        cache,
        "weather"@,
        current_key(location, days, target),
        Some(target),
        at,
        text,
        "forecast"@,
        forecast_key(location, target),
    );
}

// --- Functions ----------------------------------------------------------------

/// The key under which the weather of today is kept.
pub fn weather_key_current(location: &str, days: u8, date: Date) -> (r: String)
    requires
        date.wf(),
    ensures
        r@ == current_key(location@, days as nat, date),
{
    let mut out: Vec<char> = chars_of("current|");
    push_str(&mut out, location);
    push_str(&mut out, "|");
    push_decimal(&mut out, days as u64);
    push_str(&mut out, "|");
    push_str(&mut out, format_date(date, "%Y-%m-%d").as_str());
    string_of(out.as_slice())
}

/// The key under which a forecast is kept.
pub fn weather_key_forecast(location: &str, date: Date) -> (r: String)
    requires
        date.wf(),
    ensures
        r@ == forecast_key(location@, date),
{
    let mut out: Vec<char> = chars_of("forecast|");
    push_str(&mut out, location);
    push_str(&mut out, "|");
    push_str(&mut out, format_date(date, "%Y-%m-%d").as_str());
    string_of(out.as_slice())
}

/// The slot that begins at `time`.
fn find_slot<'a>(day: &'a ForecastDay, time: &str) -> (r: Option<&'a ForecastHour>)
    ensures
        match r {
            Some(h) => slot(*day, time@) == Some(*h),
            None => slot(*day, time@) is None,
        },
{
    let mut i: usize = 0;
    while i < day.hourly.len()
        invariant
            i <= day.hourly@.len(),
            slot_index(day.hourly@, time@, i as int) == slot_index(day.hourly@, time@, 0),
        decreases day.hourly@.len() - i,
    {
        if same_str(day.hourly[i].time.as_str(), time) {
            return Some(&day.hourly[i]);
        }
        i = i + 1;
    }
    None
}

fn number_of(s: &str) -> (r: u64)
    ensures
        r == number_or_zero(s@),
        r <= 0xffff_ffff,
{
    let v: Vec<char> = chars_of(s);
    match parse_unsigned(v.as_slice(), 10, 0xffff_ffff) {
        Some(n) => n,
        None => 0,
    }
}

/// Appends the line of a slot and gives its wind and chance of rain.
fn push_slot(out: &mut Vec<char>, day: &ForecastDay, label: &str, time: &str) -> (r: (u64, u64))
    ensures
        final(out)@ == old(out)@ + slot_line(*day, label@, time@),
        r.0 == slot_wind(*day, time@),
        r.1 == slot_rain(*day, time@),
{
    match find_slot(day, time) {
        None => {
            assert(old(out)@ + Seq::<char>::empty() =~= old(out)@);
            (0, 0)
        },
        Some(hour) => {
            let name: Vec<char> = chars_of(label);
            let temp: Vec<char> = chars_of(hour.temp_c.as_str());
            let mut line: Vec<char> = pad_right(name.as_slice(), 8);
            push_str(&mut line, " ");
            push_all(&mut line, pad_left(temp.as_slice(), 3).as_slice());
            push_str(&mut line, " C  ");
            if hour.weather_desc.len() > 0 {
                let words: Vec<char> = chars_of(hour.weather_desc[0].value.as_str());
                push_all(&mut line, trim(words.as_slice()));
            } else {
                assert(line@ + Seq::<char>::empty() =~= line@);
            }
            push_str(&mut line, "\n");
            push_all(out, line.as_slice());
            (number_of(hour.windspeed_kmph.as_str()), number_of(hour.chanceofrain.as_str()))
        },
    }
}

fn max_of(a: u64, b: u64) -> (r: u64)
    ensures
        r == larger(a as int, b as int),
{
    if a >= b {
        a
    } else {
        b
    }
}

/// One day of forecast as a narrow block: the extremes, four slots, and the
/// strongest wind and likeliest rain among those slots.
pub fn format_forecast(location: &str, day: &ForecastDay) -> (r: String)
    ensures
        r@ == forecast_text(location@, *day),
{
    let mut out: Vec<char> = chars_of("Weather forecast: ");
    push_str(&mut out, location);
    push_str(&mut out, "\n\nHigh ");
    push_str(&mut out, day.max_temp_c.as_str());
    push_str(&mut out, " C  /  Low ");
    push_str(&mut out, day.min_temp_c.as_str());
    push_str(&mut out, " C\n\n");
    let a: (u64, u64) = push_slot(&mut out, day, "Morning", "900");
    let b: (u64, u64) = push_slot(&mut out, day, "Midday", "1200");
    let c: (u64, u64) = push_slot(&mut out, day, "Evening", "1800");
    let d: (u64, u64) = push_slot(&mut out, day, "Night", "2100");
    push_str(&mut out, "\nWind up to ");
    push_decimal(&mut out, max_of(max_of(max_of(a.0, b.0), c.0), d.0));
    push_str(&mut out, " km/h.  Rain ");
    push_decimal(&mut out, max_of(max_of(max_of(a.1, b.1), c.1), d.1));
    push_str(&mut out, "%.\n");
    string_of(out.as_slice())
}

/// The forecast for a date, where the service has one.
pub fn pick_forecast(data: &WttrForecast, location: &str, target: Date) -> (r: Option<String>)
    requires
        target.wf(),
    ensures
        text_of(r) == forecast_for(*data, location@, target),
{
    let wanted: String = format_date(target, "%Y-%m-%d");
    let mut i: usize = 0;
    while i < data.weather.len()
        invariant
            i <= data.weather@.len(),
            wanted@ == iso_text(target),
            day_index(data.weather@, wanted@, i as int) == day_index(data.weather@, wanted@, 0),
        decreases data.weather@.len() - i,
    {
        if same_str(data.weather[i].date.as_str(), wanted.as_str()) {
            return Some(format_forecast(location, &data.weather[i]));
        }
        i = i + 1;
    }
    None
}

/// Asks for the forecast of a date. The service only looks a few days ahead.
pub fn fetch_forecast<
    E,
    G: Fn(&str) -> Result<String, E>,
    R: Fn(&str) -> Result<WttrForecast, E>,
>(location: &str, target: Date, get: &G, read: &R) -> (r: Result<Option<String>, E>)
    requires
        target.wf(),
        takes_any(*get),
        takes_any(*read),
    ensures
        forecast_fetched(location@, target, *get, *read, viewed(r)),
{
    let mut url: Vec<char> = chars_of("https://wttr.in/");
    push_str(&mut url, location);
    push_str(&mut url, "?format=j1");
    let url_text: String = string_of(url.as_slice());
    let reply: Result<String, E> = get(url_text.as_str());
    assert(gives(*get, forecast_url(location@), reply));
    match reply {
        Err(e) => Err(e),
        Ok(body) => {
            let data: Result<WttrForecast, E> = read(body.as_str());
            assert(gives(*read, body@, data));
            match data {
                Err(e) => Err(e),
                Ok(d) => Ok(pick_forecast(&d, location, target)),
            }
        },
    }
}

/// Records a forecast, where there is a cache.
fn keep_forecast(cache: &mut Option<Cache>, key: &str, target: Date, text: &str)
    ensures
        forecast_kept(*old(cache), *final(cache), key@, target, text@),
{
    let at: Stamp = read_clock();
    match cache {
        Some(c) => c.store_at("forecast", key, Some(target), text, &at),
        None => {},
    }
    assert(kept_at(*old(cache), *cache, key@, target, text@, at));
}

/// Answers a failed request for a forecast with the newest one that is kept.
fn fall_back<E: Reason>(cache: &mut Option<Cache>, key: &str, error: E) -> (r: Result<Option<String>, E>)
    ensures
        forecast_failed(*old(cache), *final(cache), key@, error, r),
{
    match cache {
        None => Err(error),
        Some(c) => {
            let at: Stamp = read_clock();
            match c.settle("forecast", key, None, Err(error), &at) {
                Ok(text) => Ok(Some(text)),
                Err(e) => Err(e),
            }
        },
    }
}

/// The forecast for a date, fresh from the cache or asked for, or the newest one
/// that is kept where asking fails; nothing where the date is too far ahead.
pub fn forecast_report<
    E: Reason,
    G: Fn(&str) -> Result<String, E>,
    R: Fn(&str) -> Result<WttrForecast, E>,
>(cache: &mut Option<Cache>, location: &str, target: Date, get: &G, read: &R) -> (r: Result<
    Option<String>,
    E,
>)
    requires
        target.wf(),
        takes_any(*get),
        takes_any(*read),
    ensures
        forecast_given(*old(cache), *final(cache), location@, target, *get, *read, r),
{
    let key: String = weather_key_forecast(location, target);
    let at: Stamp = read_clock();
    let hit: Option<String> = match &*cache {
        Some(c) => c.get_fresh_at("forecast", key.as_str(), Some(target), false, &at),
        None => None,
    };
    if let Some(s) = hit {
        let r: Result<Option<String>, E> = Ok(Some(s));
        assert(forecast_served(*old(cache), *cache, location@, target, at, r));
        return r;
    }
    assert(stale(*old(cache), location@, target));
    let fetched: Result<Option<String>, E> = fetch_forecast(location, target, get, read);
    let ghost came = viewed(fetched);
    let r: Result<Option<String>, E> = match fetched {
        Err(e) => fall_back(cache, key.as_str(), e),
        Ok(None) => Ok(None),
        Ok(Some(text)) => {
            keep_forecast(cache, key.as_str(), target, text.as_str());
            Ok(Some(text))
        },
    };
    assert(forecast_settled(*old(cache), *cache, location@, target, came, r));
    r
}

/// What the weather of a day comes to.
pub open spec fn weather_given<
    E: Reason,
    G: Fn(&str) -> Result<String, E>,
    R: Fn(&str) -> Result<WttrForecast, E>,
>(
    before: Option<Cache>,
    cache: Option<Cache>,
    location: Seq<char>,
    days: nat,
    target: Date,
    today: Date,
    get: G,
    read: R,
    r: Result<String, E>,
) -> bool {
    if earlier(target, today) {
        cache == before && (r matches Ok(s) && s@ == history(before, location, days, target))
    } else if earlier(today, target) {
        exists|forecast: Result<Option<String>, E>| #[trigger]
            forecast_given(before, cache, location, target, get, read, forecast) && (
            match forecast {
                Err(e) => r == Err::<String, E>(e),
                Ok(None) => r matches Ok(s) && s@ == no_forecast(),
                Ok(Some(text)) => r == Ok::<String, E>(text),
            })
    } else {
        called_through(
            before,
            cache,
            "weather"@,
            current_key(location, days, target),
            Some(target),
            false,
            plain_replies(get, weather_url(location, days)),
            r,
        )
    }
}

/// What was kept of the weather of a past day.
fn past_weather(cache: &Option<Cache>, location: &str, days: u8, target: Date) -> (r: String)
    requires
        target.wf(),
    ensures
        r@ == history(*cache, location@, days as nat, target),
{
    if let Some(c) = cache {
        let key: String = weather_key_forecast(location, target);
        if let Some(hit) = c.lookup("forecast", key.as_str()) {
            return hit;
        }
        let other: String = weather_key_current(location, days, target);
        if let Some(hit) = c.lookup("weather", other.as_str()) {
            return hit;
        }
    }
    "No weather stored for this past date.".to_string()
}

/// The weather of a day: that of today as the service shows it, that of a later
/// day as a forecast, and that of a past day from what was kept.
pub fn weather_report<
    E: Reason,
    G: Fn(&str) -> Result<String, E>,
    R: Fn(&str) -> Result<WttrForecast, E>,
>(
    cache: &mut Option<Cache>,
    location: &str,
    days: u8,
    target: Date,
    today: Date,
    get: &G,
    read: &R,
) -> (r: Result<String, E>)
    requires
        target.wf(),
        takes_any(*get),
        takes_any(*read),
    ensures
        weather_given(
            *old(cache),
            *final(cache),
            location@,
            days as nat,
            target,
            today,
            *get,
            *read,
            r,
        ),
{
    if is_earlier(target, today) {
        return Ok(past_weather(cache, location, days, target));
    }
    if is_earlier(today, target) {
        let forecast: Result<Option<String>, E> = forecast_report(
            cache,
            location,
            target,
            get,
            read,
        );
        assert(forecast_given(*old(cache), *cache, location@, target, *get, *read, forecast));
        return match forecast {
            Err(e) => Err(e),
            Ok(None) => Ok(
                "No weather available for this date.\n(wttr.in only forecasts the next few days.)".to_string(),
            ),
            Ok(Some(text)) => Ok(text),
        };
    }
    let key: String = weather_key_current(location, days, target);
    let mut text: Vec<char> = chars_of("https://wttr.in/");
    push_str(&mut text, location);
    push_str(&mut text, "?");
    push_decimal(&mut text, days as u64);
    push_str(&mut text, "T");
    let address: String = string_of(text.as_slice());
    let url: &str = address.as_str();
    let call = || -> (outcome: Result<String, E>)
        requires
            takes_any(*get),
        ensures
            gives(*get, url@, outcome),
    { get(url) };
    cached(cache, "weather", key.as_str(), Some(target), false, call)
}

/// The weather of a past day is what was kept of it, and nothing is asked for; that
/// of today is what asking for it gives, or an answer of the same day; and that of a
/// day to come is its forecast, or that there is none.
pub proof fn law_the_weather_of_a_day<
    E: Reason,
    G: Fn(&str) -> Result<String, E>,
    R: Fn(&str) -> Result<WttrForecast, E>,
>(
    before: Option<Cache>,
    cache: Option<Cache>,
    location: Seq<char>,
    days: nat,
    target: Date,
    today: Date,
    get: G,
    read: R,
    r: Result<String, E>,
)
    requires
        target.wf(),
        today.wf(),
        weather_given(before, cache, location, days, target, today, get, read, r),
    ensures
        target.number() < today.number() ==> cache == before && r is Ok && r->Ok_0@ == history(
            before,
            location,
            days,
            target,
        ),
        target.number() == today.number() ==> gives(
            get,
            "https://wttr.in/"@ + location + "?"@ + decimal(days) + "T"@,
            r,
        ) || kept(before, "weather"@, current_key(location, days, today), r),
        target.number() > today.number() ==> exists|forecast: Result<Option<String>, E>| #[trigger]
            forecast_given(before, cache, location, target, get, read, forecast) && (forecast is Err
                ==> r is Err && r->Err_0 == forecast->Err_0) && (forecast is Ok
                && forecast->Ok_0 is Some ==> r is Ok && r->Ok_0 == (forecast->Ok_0)->0) && (
            forecast is Ok && forecast->Ok_0 is None ==> r is Ok && r->Ok_0@
                == "No weather available for this date.\n(wttr.in only forecasts the next few days.)"@),
{
    crate::date::lemma_date_order(target, today);
    crate::date::lemma_date_order(today, target);
    if target.number() == today.number() {
        law_given_is_asked_for_or_kept(
            before,
            cache,
            "weather"@,
            current_key(location, days, target),
            Some(target),
            false,
            plain_replies(get, weather_url(location, days)),
            r,
        );
    }
}

/// A forecast that could be had is given as it is and kept for the date, so that it
/// is what is read there next; where the service has none for the date, none is
/// given and nothing is kept.
pub proof fn law_a_fetched_forecast_is_given_and_kept<E: Reason>(
    before: Option<Cache>,
    cache: Option<Cache>,
    location: Seq<char>,
    target: Date,
    fetched: Result<Option<Seq<char>>, E>,
    r: Result<Option<String>, E>,
)
    requires
        forecast_settled(before, cache, location, target, fetched, r),
        fetched is Ok,
    ensures
        r is Ok,
        fetched->Ok_0 is None ==> r->Ok_0 is None && cache == before,
        fetched->Ok_0 matches Some(text) ==> r->Ok_0 is Some && (r->Ok_0)->0@ == text && (
        cache is Some ==> latest_response(
            (cache->0).rows@,
            "forecast"@,
            forecast_key(location, target),
        ) == Some(text)),
{
}

} // verus!
