//! Errors of inference operations.
use vstd::prelude::*;
use vstd::string::to_string_from_display_ensures;

verus! {

#[verifier::external_type_specification]
#[verifier::external_body]
pub struct ExIoError(std::io::Error);

/// Errors that can occur during inference operations.
#[derive(Debug)]
pub enum Error {
    /// Failed to initialize an ONNX Runtime session.
    SessionInit(String),
    /// Failed during model inference.
    Inference(String),
    /// Failed to batch inputs together.
    Batching(String),
    /// Failed during input preprocessing.
    Preprocessing(String),
    /// Failed during output postprocessing.
    Postprocessing(String),
    /// Communication channel was closed unexpectedly.
    ChannelClosed,
    /// Server was shut down.
    ServerShutdown,
    /// I/O error occurred.
    Io(std::io::Error),
    /// Failed to download model from URL.
    Download(String),
}

impl Error {
    /// The text of every variant but `Io`, whose text depends on the I/O error.
    pub open spec fn spec_message(&self) -> Seq<char>
        recommends
            !(self is Io),
    {
        match self {
            Error::SessionInit(s) => "Session initialization failed: "@ + s@,
            Error::Inference(s) => "Inference failed: "@ + s@,
            Error::Batching(s) => "Batching failed: "@ + s@,
            Error::Preprocessing(s) => "Preprocessing failed: "@ + s@,
            Error::Postprocessing(s) => "Postprocessing failed: "@ + s@,
            Error::ChannelClosed => "Channel closed"@,
            Error::ServerShutdown => "Server shutdown"@,
            Error::Io(_) => "IO error: "@,
            Error::Download(s) => "Download failed: "@ + s@,
        }
    }

    /// The text of the error.
    ///
    /// For `Io` it is `IO error: ` followed by the I/O error's own text.
    pub fn message(&self) -> (m: String)
        ensures
            !(self is Io) ==> m@ == self.spec_message(),
            self matches Error::Io(e) ==> exists|s: String|
                to_string_from_display_ensures::<std::io::Error>(&e, s) && m@ == "IO error: "@
                    + s@,
    {
        match self {
            Error::SessionInit(s) => String::from_str("Session initialization failed: ").concat(s.as_str()),
            Error::Inference(s) => String::from_str("Inference failed: ").concat(s.as_str()),
            Error::Batching(s) => String::from_str("Batching failed: ").concat(s.as_str()),
            Error::Preprocessing(s) => String::from_str("Preprocessing failed: ").concat(s.as_str()),
            Error::Postprocessing(s) => String::from_str("Postprocessing failed: ").concat(s.as_str()),
            Error::ChannelClosed => String::from_str("Channel closed"),
            Error::ServerShutdown => String::from_str("Server shutdown"),
            Error::Io(e) => {
                let text = e.to_string();
                String::from_str("IO error: ").concat(text.as_str())
            },
            Error::Download(s) => String::from_str("Download failed: ").concat(s.as_str()),
        }
    }
}

impl From<std::io::Error> for Error {
    fn from(err: std::io::Error) -> (e: Error) {
        Error::Io(err)
    }
}

impl vstd::std_specs::convert::FromSpecImpl<std::io::Error> for Error {
    open spec fn obeys_from_spec() -> bool {
        true
    }

    open spec fn from_spec(err: std::io::Error) -> Error {
        Error::Io(err)
    }
}

} // verus!
