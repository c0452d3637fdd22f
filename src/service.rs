//! Types the web service around the library exchanges: errors with an HTTP
//! status, paging envelopes, query and update payloads, and the upstream
//! provider's address.
use vstd::prelude::*;
use crate::text::{chars_of, string_from, joined};

verus! {

/// An error carrying an HTTP status and a message.
#[derive(Clone, Debug)]
pub struct Error {
    pub status: u16,
    pub details: String,
}

impl Error {
    pub fn new(status: u16, message: String) -> (r: Error)
        ensures
            r.status == status,
            r.details@ == message@,
    {
        Error { status, details: message }
    }
}

/// An error carrying an HTTP status and a message.
#[derive(Clone, Debug)]
pub struct ApiError {
    pub status: u16,
    pub message: String,
}

impl ApiError {
    pub fn new(status: u16, message: String) -> (r: ApiError)
        ensures
            r.status == status,
            r.message@ == message@,
    {
        ApiError { status, message }
    }
}

/// An error carrying an HTTP status and a message.
#[derive(Clone, Debug)]
pub struct ServiceError {
    pub status: u16,
    pub message: String,
}

impl ServiceError {
    pub fn new(status: u16, message: String) -> (r: ServiceError)
        ensures
            r.status == status,
            r.message@ == message@,
    {
        ServiceError { status, message }
    }
}

/// A failure of the upstream weather provider.
#[derive(Clone, Debug)]
pub struct WeatherError(pub String);

/// One page of results.
#[derive(Clone, Debug)]
pub struct Paged<T> {
    pub data: T,
    pub page: u32,
    pub limit: u32,
    pub total: i64,
}

/// Paging information of a response.
#[derive(Clone, Copy, Debug, PartialEq, Eq, Structural)]
pub struct Metadata {
    pub page: i32,
    pub limit: i32,
    pub pages: i64,
    pub total: i64,
}

/// A response body with optional paging information.
#[derive(Clone, Debug)]
pub struct Response<T> {
    pub data: T,
    pub meta: Option<Metadata>,
}

/// Filters and paging of an airport listing.
#[derive(Clone, Debug)]
pub struct AirportQuery {
    pub page: Option<u32>,
    pub limit: Option<u32>,
    pub icaos: Option<String>,
    pub iatas: Option<String>,
    pub locals: Option<String>,
    pub names: Option<String>,
    pub categories: Option<String>,
    pub iso_countries: Option<String>,
    pub iso_regions: Option<String>,
    pub municipalities: Option<String>,
    pub metars: Option<bool>,
}

impl Default for AirportQuery {
    /// The first page of up to 1000 airports, unfiltered.
    fn default() -> (r: AirportQuery)
        ensures
            r.page == Some(1u32),
            r.limit == Some(1000u32),
            r.icaos.is_none() && r.iatas.is_none() && r.locals.is_none() && r.names.is_none(),
            r.categories.is_none() && r.iso_countries.is_none() && r.iso_regions.is_none(),
            r.municipalities.is_none() && r.metars.is_none(),
    {
        AirportQuery {
            page: Some(1),
            limit: Some(1000),
            icaos: None,
            iatas: None,
            locals: None,
            names: None,
            categories: None,
            iso_countries: None,
            iso_regions: None,
            municipalities: None,
            metars: None,
        }
    }
}

/// The fields of a user to change; absent ones stay as they are.
#[derive(Clone, Debug)]
pub struct UpdateUser {
    pub email: Option<String>,
    pub password: Option<String>,
    pub role: Option<String>,
    pub first_name: Option<String>,
    pub last_name: Option<String>,
}

/// The database type that stores a `UserType`.
#[derive(Clone, Copy, Debug)]
pub struct PgUserType;

/// The role of a user.
#[derive(Clone, Copy, Debug, PartialEq, Eq, Structural)]
pub enum UserType {
    Admin,
    User,
}

pub open spec fn user_type_text(t: UserType) -> Seq<char> {
    match t {
        UserType::Admin => "admin"@,
        UserType::User => "user"@,
    }
}

impl UserType {
    /// The text that stores the role.
    pub fn as_text(&self) -> (r: String)
        ensures
            r@ == user_type_text(*self),
    {
        match self {
            UserType::Admin => String::from_str("admin"),
            UserType::User => String::from_str("user"),
        }
    }

    /// The role that a stored text names, if any.
    pub fn from_text(s: &str) -> (r: Option<UserType>)
        ensures
            match r {
                Some(t) => user_type_text(t) == s@,
                None => s@ != "admin"@ && s@ != "user"@,
            },
    {
        let cs = chars_of(s);
        if crate::text::is_word(&cs, "admin") {
            Some(UserType::Admin)
        } else if crate::text::is_word(&cs, "user") {
            Some(UserType::User)
        } else {
            None
        }
    }
}

/// The upstream weather provider.
#[derive(Clone, Debug)]
pub struct Weather {
    pub base_url: String,
}

impl Weather {
    /// The address that asks the provider for the reports of a batch of
    /// stations (identifiers separated by commas), ordered by station.
    pub fn batch_url(&self, station_query: &String) -> (r: String)
        ensures
            r@ == self.base_url@ + "/metar?ids="@ + station_query@ + "&order=id"@,
    {
        let a = joined(&chars_of(self.base_url.as_str()), &chars_of("/metar?ids="));
        let b = joined(&a, &chars_of(station_query.as_str()));
        let c = joined(&b, &chars_of("&order=id"));
        string_from(&c)
    }
}

} // verus!
