use vstd::prelude::*;
use vstd::string::*;
use crate::resolver::ResolveError;

verus! {

/// Address of the geocoding request for `city`. The name goes in as given.
pub open spec fn geocoding_url_of(city: Seq<char>) -> Seq<char> {
    "https://geocoding-api.open-meteo.com/v1/search?name="@ + city
        + "&count=1&language=en&format=json"@
}

/// Address of the hourly-temperature forecast request for a coordinate pair,
/// each coordinate given in its decimal text form.
pub open spec fn forecast_url_of(latitude: Seq<char>, longitude: Seq<char>) -> Seq<char> {
    "https://api.open-meteo.com/v1/forecast?latitude="@ + latitude + "&longitude="@ + longitude
        + "&hourly=temperature_2m"@
}

pub fn geocoding_url(city: &str) -> (r: String)
    ensures
        r@ == geocoding_url_of(city@),
{
    let mut r = String::from_str("https://geocoding-api.open-meteo.com/v1/search?name=");
    r.append(city);
    r.append("&count=1&language=en&format=json");
    r
}

pub fn forecast_url(latitude: &str, longitude: &str) -> (r: String)
    ensures
        r@ == forecast_url_of(latitude@, longitude@),
{
    let mut r = String::from_str("https://api.open-meteo.com/v1/forecast?latitude=");
    r.append(latitude);
    r.append("&longitude=");
    r.append(longitude);
    r.append("&hourly=temperature_2m");
    r
}

/// An hourly forecast for a location. Floats are held as their IEEE-754 bit
/// patterns; `time[i]` is the hour of `temperature_2m_bits[i]`.
pub struct ForecastRecord {
    latitude_bits: u64,
    longitude_bits: u64,
    timezone: String,
    time: Vec<String>,
    temperature_2m_bits: Vec<u64>,
}

impl ForecastRecord {
    /// The hourly series are index-aligned.
    pub open spec fn wf(&self) -> bool {
        self.times().len() == self.temperatures().len()
    }

    pub closed spec fn latitude(&self) -> u64 {
        self.latitude_bits
    }

    pub closed spec fn longitude(&self) -> u64 {
        self.longitude_bits
    }

    pub closed spec fn zone(&self) -> Seq<char> {
        self.timezone@
    }

    pub closed spec fn times(&self) -> Seq<String> {
        self.time@
    }

    pub closed spec fn temperatures(&self) -> Seq<u64> {
        self.temperature_2m_bits@
    }

    /// Builds a forecast from the parts of a forecast response. Series of
    /// different lengths are a malformed response.
    pub fn from_parts(
        latitude_bits: u64,
        longitude_bits: u64,
        timezone: String,
        time: Vec<String>,
        temperature_2m_bits: Vec<u64>,
    ) -> (r: Result<ForecastRecord, ResolveError>)
        ensures
            time@.len() == temperature_2m_bits@.len() <==> r is Ok,
            r is Ok ==> {
                let f = r->Ok_0;
                &&& f.wf()
                &&& f.latitude() == latitude_bits
                &&& f.longitude() == longitude_bits
                &&& f.zone() == timezone@
                &&& f.times() == time@
                &&& f.temperatures() == temperature_2m_bits@
            },
            r is Err ==> r->Err_0 is Upstream,
    {
        if time.len() != temperature_2m_bits.len() {
            return Err(
                ResolveError::Upstream(
                    String::from_str("forecast hourly series differ in length"),
                ),
            );
        }
        Ok(ForecastRecord { latitude_bits, longitude_bits, timezone, time, temperature_2m_bits })
    }

    pub fn latitude_bits(&self) -> (r: u64)
        ensures
            r == self.latitude(),
    {
        self.latitude_bits
    }

    pub fn longitude_bits(&self) -> (r: u64)
        ensures
            r == self.longitude(),
    {
        self.longitude_bits
    }

    pub fn timezone(&self) -> (r: &String)
        ensures
            r@ == self.zone(),
    {
        &self.timezone
    }

    /// Number of hours in the forecast.
    pub fn hours(&self) -> (n: usize)
        ensures
            n == self.times().len(),
    {
        self.time.len()
    }

    /// The hour at position `i` and its temperature bits.
    pub fn hour(&self, i: usize) -> (r: (&String, u64))
        requires
            self.wf(),
            i < self.times().len(),
        ensures
            *r.0 == self.times()[i as int],
            r.1 == self.temperatures()[i as int],
    {
        (&self.time[i], self.temperature_2m_bits[i])
    }
}

} // verus!
