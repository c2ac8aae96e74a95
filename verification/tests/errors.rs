//! Human-readable explanations attached to each error kind.

use financial_data::error::{DatabaseConnectError, DatabaseInitializationError,
    DatabaseUpsertError, FetchError, GetRawDataError, RouteError, ServerError,
    ServerStartupError};

#[test]
fn fetch_error_messages() {
    assert_eq!(FetchError::Transport.message(), "Failed to query the data provider.");
    assert_eq!(FetchError::Decode.message(), "Failed to decode the data provider payload.");
}

#[test]
fn get_raw_data_error_messages() {
    assert_eq!(GetRawDataError::Initialization.message(), "Failed during initialization.");
    assert_eq!(GetRawDataError::DatabaseConnect.message(), "Failed to connect to database.");
    assert_eq!(GetRawDataError::DatabaseInit.message(), "Failed to initialize database.");
    assert_eq!(GetRawDataError::AlphaVantageQuery.message(), "Failed to query Alpha Vantage.");
    assert_eq!(
        GetRawDataError::DatavaseUpsert.message(),
        "Failed to upsert values into database."
    );
}

#[test]
fn startup_and_store_error_messages() {
    assert_eq!(ServerError.message(), "Failed to run Axum server.");
    assert_eq!(DatabaseConnectError.message(), "Connection to Postgres database has failed.");
    assert_eq!(DatabaseInitializationError.message(), "Failed to initialize database.");
    assert_eq!(DatabaseUpsertError.message(), "Failed to upsert values into database.");
    assert_eq!(
        ServerStartupError.message(),
        "Axum server has encountered error while setting up."
    );
}

#[test]
fn route_error_names_the_route() {
    assert_eq!(
        RouteError("financial_data").message(),
        "The `financial_data` route has failed while processing request."
    );
    assert_eq!(
        RouteError("statistics").message(),
        "The `statistics` route has failed while processing request."
    );
}
