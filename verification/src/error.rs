use vstd::prelude::*;

verus! {

/// The error kinds the library reports to its callers.
#[derive(Debug)]
pub enum LogError {
    /// `flush`/`exit` called before any `init_*` installed a pipeline.
    NotInitialized,
    /// A second `init_*` call after the logger was already registered.
    AlreadyInitialized,
    /// `init_custom_log` called with no appenders.
    EmptyAppenders,
    /// A file open, create or write failed; carries the path concerned.
    IoError(String),
    /// A packer failed after its retries were exhausted.
    PackerError(String),
    /// A queue send failed, which can only happen once a stage has terminated.
    SendFailed,
}

impl LogError {
    /// A short description, usable by callers that print errors.
    pub fn message(&self) -> (r: String)
        ensures
            r@.len() > 0,
    {
        let s = match self {
            LogError::NotInitialized => "logger is not initialized",
            LogError::AlreadyInitialized => "logger is already initialized",
            LogError::EmptyAppenders => "appenders can not be empty",
            LogError::IoError(_) => "io error",
            LogError::PackerError(_) => "packer error",
            LogError::SendFailed => "send failed",
        };
        proof {
            reveal_strlit("logger is not initialized");
            reveal_strlit("logger is already initialized");
            reveal_strlit("appenders can not be empty");
            reveal_strlit("io error");
            reveal_strlit("packer error");
            reveal_strlit("send failed");
        }
        s.to_owned()
    }
}

} // verus!
