//! Error taxonomy of the service core.
//!
//! Validation problems are absorbed into normal responses by the query
//! engine; fetch and store failures are retried on the next scheduled tick;
//! connect/initialization failures and a broken cancellation channel are
//! fatal to the owning unit. Each error can render a human-readable
//! explanation distinct from its kind.

use vstd::prelude::*;
use vstd::string::StringExecFns;

verus! {

/// A provider fetch failed: either the transport/request itself, or the
/// decoding of the returned payload.
#[derive(Clone, Copy, PartialEq, Eq, Structural, Debug)]
pub enum FetchError {
    Transport,
    Decode,
}

impl FetchError {
    /// Human-readable explanation of the failure kind.
    pub fn message(&self) -> (r: String)
        ensures
            *self is Transport ==> r@ == "Failed to query the data provider."@,
            *self is Decode ==> r@ == "Failed to decode the data provider payload."@,
    {
        match self {
            FetchError::Transport => String::from_str("Failed to query the data provider."),
            FetchError::Decode => String::from_str("Failed to decode the data provider payload."),
        }
    }
}

/// Failure of one pass of the recurring ingestion task.
#[derive(Clone, Copy, PartialEq, Eq, Structural, Debug)]
pub enum GetRawDataError {
    Initialization,
    DatabaseConnect,
    DatabaseInit,
    AlphaVantageQuery,
    DatavaseUpsert,
}

impl GetRawDataError {
    /// Human-readable explanation of the failure kind.
    pub fn message(&self) -> (r: String)
        ensures
            *self is AlphaVantageQuery ==> r@ == "Failed to query Alpha Vantage."@,
            *self is DatavaseUpsert ==> r@ == "Failed to upsert values into database."@,
            *self is Initialization ==> r@ == "Failed during initialization."@,
            *self is DatabaseConnect ==> r@ == "Failed to connect to database."@,
            *self is DatabaseInit ==> r@ == "Failed to initialize database."@,
    {
        match self {
            GetRawDataError::Initialization => String::from_str("Failed during initialization."),
            GetRawDataError::DatabaseConnect => String::from_str("Failed to connect to database."),
            GetRawDataError::DatabaseInit => String::from_str("Failed to initialize database."),
            GetRawDataError::AlphaVantageQuery => String::from_str("Failed to query Alpha Vantage."),
            GetRawDataError::DatavaseUpsert => String::from_str(
                "Failed to upsert values into database.",
            ),
        }
    }
}

/// The hosting process failed to run the serving unit.
#[derive(Clone, Copy, PartialEq, Eq, Structural, Debug)]
pub struct ServerError;

impl ServerError {
    /// Human-readable explanation.
    pub fn message(&self) -> (r: String)
        ensures
            r@ == "Failed to run Axum server."@,
    {
        String::from_str("Failed to run Axum server.")
    }
}

/// The storage layer could not be reached at startup.
#[derive(Clone, Copy, PartialEq, Eq, Structural, Debug)]
pub struct DatabaseConnectError;

impl DatabaseConnectError {
    /// Human-readable explanation.
    pub fn message(&self) -> (r: String)
        ensures
            r@ == "Connection to Postgres database has failed."@,
    {
        String::from_str("Connection to Postgres database has failed.")
    }
}

/// Schema setup failed at startup.
#[derive(Clone, Copy, PartialEq, Eq, Structural, Debug)]
pub struct DatabaseInitializationError;

impl DatabaseInitializationError {
    /// Human-readable explanation.
    pub fn message(&self) -> (r: String)
        ensures
            r@ == "Failed to initialize database."@,
    {
        String::from_str("Failed to initialize database.")
    }
}

/// A transactional batch write to the store failed; the tick is retried at
/// the next due time.
#[derive(Clone, Copy, PartialEq, Eq, Structural, Debug)]
pub struct DatabaseUpsertError;

impl DatabaseUpsertError {
    /// Human-readable explanation.
    pub fn message(&self) -> (r: String)
        ensures
            r@ == "Failed to upsert values into database."@,
    {
        String::from_str("Failed to upsert values into database.")
    }
}

/// A read endpoint failed while serving a request; carries the route name.
#[derive(Clone, Copy, Debug)]
pub struct RouteError(pub &'static str);

impl RouteError {
    /// Human-readable explanation, naming the failing route.
    pub fn message(&self) -> (r: String)
        ensures
            r@ == "The `"@ + self.0@ + "` route has failed while processing request."@,
    {
        let mut msg = String::from_str("The `");
        msg.append(self.0);
        msg.append("` route has failed while processing request.");
        msg
    }
}

/// The serving unit failed while setting up.
#[derive(Clone, Copy, PartialEq, Eq, Structural, Debug)]
pub struct ServerStartupError;

impl ServerStartupError {
    /// Human-readable explanation.
    pub fn message(&self) -> (r: String)
        ensures
            r@ == "Axum server has encountered error while setting up."@,
    {
        String::from_str("Axum server has encountered error while setting up.")
    }
}

} // verus!
