use vstd::prelude::*;

verus! {

#[verifier::external_type_specification]
#[verifier::external_body]
pub struct ExIoError(std::io::Error);

/// The error type for any errors encountered with the engine.
#[derive(Debug)]
pub enum EngineError {
    /// Wrapper around any io errors encountered while trying to communicate with the engine.
    Io(std::io::Error),
    /// The engine executable could not be started.
    Spawn(std::io::Error),
    /// Engine doesn't recognize the specified option.
    UnknownOption(String),
    /// An expected pattern (such as a `cp` score) is missing from the engine's reply.
    NotFound,
}

/// A Result type which uses [`EngineError`] for representing errors.
pub type Result<T> = core::result::Result<T, EngineError>;

/// Relies on `ToString::to_string` for `std::io::Error`: the text of an io error.
/// That text depends on the operating system, so nothing is stated of it.
#[verifier::external_body]
fn io_error_text(err: &std::io::Error) -> String {
    err.to_string()
}

/// Relies on `std::error::Error::description` for `std::io::Error`: a short description
/// of the io error. Nothing is stated of that text.
#[verifier::external_body]
#[allow(deprecated)]
fn io_error_description(err: &std::io::Error) -> &str {
    std::error::Error::description(err)
}

impl EngineError {
    /// The human-readable message of this error.
    pub fn message(&self) -> (r: String)
        ensures
            self is UnknownOption ==> r@ == "No such option: '"@ + self->UnknownOption_0@ + "'"@,
            self is NotFound ==> r@ == "Pattern not found"@,
            self is Io ==> r@.len() >= 10 && r@.subrange(0, 10) == "IO error: "@,
            self is Spawn ==> r@.len() >= 22 && r@.subrange(0, 22) == "Unable to run engine: "@,
    {
        match self {
            EngineError::Io(err) => {
                let text = io_error_text(err);
                let r = String::from_str("IO error: ").concat(text.as_str());
                proof {
                    reveal_strlit("IO error: ");
                    assert(r@.subrange(0, 10) =~= "IO error: "@);
                }
                r
            },
            EngineError::Spawn(err) => {
                let text = io_error_text(err);
                let r = String::from_str("Unable to run engine: ").concat(text.as_str());
                proof {
                    reveal_strlit("Unable to run engine: ");
                    assert(r@.subrange(0, 22) =~= "Unable to run engine: "@);
                }
                r
            },
            EngineError::UnknownOption(option) => {
                String::from_str("No such option: '").concat(option.as_str()).concat("'")
            },
            EngineError::NotFound => String::from_str("Pattern not found"),
        }
    }

    /// A short description of this error: that of the io error it wraps, if any.
    pub fn description(&self) -> (r: &str)
        ensures
            self is UnknownOption ==> r@ == "Unknown option"@,
            self is NotFound ==> r@ == "Pattern not found"@,
    {
        match self {
            EngineError::Io(err) => io_error_description(err),
            EngineError::Spawn(err) => io_error_description(err),
            EngineError::UnknownOption(_) => "Unknown option",
            EngineError::NotFound => "Pattern not found",
        }
    }

    /// The underlying io error, if this error wraps one.
    pub fn cause(&self) -> (r: Option<&std::io::Error>)
        ensures
            (self is Io || self is Spawn) <==> r is Some,
            self is Io ==> r->0 == &self->Io_0,
            self is Spawn ==> r->0 == &self->Spawn_0,
    {
        match self {
            EngineError::Io(err) => Some(err),
            EngineError::Spawn(err) => Some(err),
            _ => None,
        }
    }
}

impl From<std::io::Error> for EngineError {
    fn from(err: std::io::Error) -> (r: EngineError)
        ensures
            r == EngineError::Io(err),
    {
        EngineError::Io(err)
    }
}

impl vstd::std_specs::convert::FromSpecImpl<std::io::Error> for EngineError {
    open spec fn obeys_from_spec() -> bool {
        true
    }

    open spec fn from_spec(err: std::io::Error) -> EngineError {
        EngineError::Io(err)
    }
}

} // verus!
