use std::string::FromUtf8Error;
use toml::de::Error as TomlError;
use toml::ser::Error as TomlSerError;
use vstd::string::to_string_from_display_ensures;
use vstd::prelude::*;

verus! {

/// The errors of the lyrics and playlists store.
#[derive(Debug)]
pub enum Error {
    /// A file system operation failed.
    Io(String),
    /// Stored bytes are not valid UTF-8.
    Utf8(String),
    /// A TOML document could not be read.
    Toml(String),
    /// A document does not have the expected shape.
    Parse,
    /// Something looked for is not there.
    NotFound(String),
}

/// `std::string::FromUtf8Error`, the error of `String::from_utf8`.
#[verifier::external_type_specification]
#[verifier::external_body]
pub struct ExFromUtf8Error(FromUtf8Error);

/// `toml::de::Error`, the error of reading a TOML document.
#[verifier::external_type_specification]
#[verifier::external_body]
pub struct ExTomlDeError(TomlError);

/// `toml::ser::Error`, the error of writing a TOML document.
#[verifier::external_type_specification]
#[verifier::external_body]
pub struct ExTomlSerError(TomlSerError);

/// Turns the error of a result into an [`Error`] of the store.
pub trait ErrInto<T> {
    /// The result with its error turned into an [`Error`].
    fn err_into(self) -> Result<T, Error>;
}

impl<T> ErrInto<T> for Result<T, FromUtf8Error> {
    /// A value stays; a UTF-8 error becomes [`Error::Utf8`] with its message.
    fn err_into(self) -> (r: Result<T, Error>)
        ensures
            match self {
                Ok(v) => r matches Ok(w) && w == v,
                Err(e) => r matches Err(Error::Utf8(m)) && to_string_from_display_ensures::<
                    FromUtf8Error,
                >(&e, m),
            },
    {
        match self {
            Ok(v) => Ok(v),
            Err(e) => Err(Error::Utf8(e.to_string())),
        }
    }
}

impl<T> ErrInto<T> for Result<T, TomlError> {
    /// A value stays; a TOML error becomes [`Error::Toml`] with its message.
    fn err_into(self) -> (r: Result<T, Error>)
        ensures
            match self {
                Ok(v) => r matches Ok(w) && w == v,
                Err(e) => r matches Err(Error::Toml(m)) && to_string_from_display_ensures::<
                    TomlError,
                >(&e, m),
            },
    {
        match self {
            Ok(v) => Ok(v),
            Err(e) => Err(Error::Toml(e.to_string())),
        }
    }
}

} // verus!
