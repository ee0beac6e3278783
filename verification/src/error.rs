//! Error types of the library.

use vstd::prelude::*;

verus! {

/// `std::io::Error`, carried by the I/O variant of the errors.
#[verifier::external_type_specification]
#[verifier::external_body]
pub struct ExIoError(std::io::Error);

/// Errors of the input method core.
#[derive(Debug)]
pub enum NukoError {
    /// A dictionary error.
    Dictionary(String),
    /// A conversion error.
    Conversion(String),
    /// An error of the learning data.
    Learning(String),
    /// An I/O error.
    Io(std::io::Error),
    /// A database error.
    Database(String),
    /// A configuration error.
    Config(String),
    /// A morphological analysis error.
    Morphological(String),
    /// Invalid input.
    InvalidInput(String),
}

/// Results of the library.
pub type Result<T> = std::result::Result<T, NukoError>;

/// Errors of the platform layer.
#[derive(Debug)]
pub enum PlatformError {
    /// Initialization failed.
    Initialization(String),
    /// Registration of the input method failed.
    Registration(String),
    /// A configuration error.
    Config(String),
    /// An error of the core.
    Core(NukoError),
    /// An I/O error.
    Io(std::io::Error),
    /// A platform-specific error.
    Platform(String),
    /// An unsupported feature.
    Unsupported(String),
}

} // verus!
