//! What the storage layer reports, and the order in which a database is
//! brought up to date.

use vstd::prelude::*;

verus! {

/// Why a migration cannot be run.
#[derive(Debug, Clone, Copy, PartialEq, Eq, Structural)]
pub enum MigrationError {
    /// The database is newer than the version asked for.
    CannotDowngrade,
}

/// A failure of the variable store.
#[derive(Debug, Clone, PartialEq, Eq)]
pub enum DataError {
    /// Nothing is stored under this key.
    KeyDoesNotExist(String),
    /// The store itself failed; the text is its own account of why.
    InternalError(String),
    /// The database could not be brought up to date.
    MigrationError(MigrationError),
}

/// [`DataError`] with its texts as sequences of characters.
pub enum DataFailure {
    KeyDoesNotExist(Seq<char>),
    InternalError(Seq<char>),
    MigrationError(MigrationError),
}

impl View for DataError {
    type V = DataFailure;

    open spec fn view(&self) -> DataFailure {
        match self {
            DataError::KeyDoesNotExist(key) => DataFailure::KeyDoesNotExist(key@),
            DataError::InternalError(reason) => DataFailure::InternalError(reason@),
            DataError::MigrationError(inner) => DataFailure::MigrationError(*inner),
        }
    }
}

/// The sentence for each migration failure.
pub open spec fn migration_error_text(e: MigrationError) -> Seq<char> {
    match e {
        MigrationError::CannotDowngrade => "cannot downgrade to an older database version"@,
    }
}

/// The sentence for each storage failure.
pub open spec fn data_error_text(e: DataFailure) -> Seq<char> {
    match e {
        DataFailure::KeyDoesNotExist(key) => "value does not exist for key: "@ + key,
        DataFailure::InternalError(reason) => "internal database error: "@ + reason,
        DataFailure::MigrationError(inner) => "data migration error: "@ + migration_error_text(
            inner,
        ),
    }
}

impl MigrationError {
    /// The sentence for this failure.
    pub fn message(&self) -> (text: &'static str)
        ensures
            text@ == migration_error_text(*self),
    {
        match self {
            MigrationError::CannotDowngrade => "cannot downgrade to an older database version",
        }
    }
}

impl DataError {
    /// The sentence for this failure.
    pub fn message(&self) -> (text: String)
        ensures
            text@ == data_error_text(self@),
    {
        match self {
            DataError::KeyDoesNotExist(key) => {
                let mut text = "value does not exist for key: ".to_owned();
                text.append(key.as_str());
                text
            },
            DataError::InternalError(reason) => {
                let mut text = "internal database error: ".to_owned();
                text.append(reason.as_str());
                text
            },
            DataError::MigrationError(inner) => {
                let mut text = "data migration error: ".to_owned();
                text.append(inner.message());
                text
            },
        }
    }
}

/// The versions `from + 1 ..= to`, in rising order.
pub open spec fn versions_between(from: u32, to: u32) -> Seq<u32> {
    Seq::new((to - from) as nat, |k: int| (from + 1 + k) as u32)
}

/// The migrations to run, in order, to bring a database at `db_version` to
/// `to_version`: every version after the database's own up to the one asked
/// for, none when they are the same. A database cannot be taken back to an
/// older version.
pub fn migration_plan(db_version: u32, to_version: u32) -> (r: Result<Vec<u32>, MigrationError>)
    ensures
        match r {
            Ok(versions) => db_version <= to_version && versions@ == versions_between(
                db_version,
                to_version,
            ),
            Err(e) => db_version > to_version && e == MigrationError::CannotDowngrade,
        },
{
    if db_version > to_version {
        return Err(MigrationError::CannotDowngrade);
    }
    let mut versions: Vec<u32> = Vec::new();
    let mut version: u32 = db_version;
    while version < to_version
        invariant
            db_version <= version <= to_version,
            versions@ == versions_between(db_version, version),
        decreases to_version - version,
    {
        version = version + 1;
        versions.push(version);
    }
    Ok(versions)
}

} // verus!
