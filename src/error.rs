use vstd::prelude::*;

verus! {

/// The failures that the library itself can report.
///
/// Connection failures belong to the caller that drives the sockets.
#[derive(Debug, PartialEq, Eq)]
pub enum HyprError {
    /// The instance signature of the compositor is not known.
    MissingInstance,
    /// A workspace declaration of the configuration could not be read; holds the line.
    ConfigLine(String),
    /// A socket delivered bytes that are not UTF-8.
    InvalidUtf8,
    /// A segment of a batch response is not valid JSON; holds the parser's message.
    InvalidJson(String),
    /// A batch response held fewer documents than were asked for.
    MissingDocument,
    /// A document of a batch response that must be an array is not one.
    NotAnArray,
    /// A monitor lacks a field that is needed.
    MonitorFields,
    /// A workspace lacks its id or its name.
    WorkspaceFields,
}

impl HyprError {
    /// A human readable description of the failure.
    pub fn message(&self) -> (r: String)
        ensures
            match self {
                HyprError::MissingInstance => r@
                    == "couldn't find instance signature, is hyprland running?"@,
                HyprError::ConfigLine(line) => r@ == "malformed workspace declaration: "@ + line@,
                HyprError::InvalidUtf8 => r@ == "the socket did not return valid utf-8"@,
                HyprError::InvalidJson(msg) => r@ == "socket 1 did not return valid json: "@ + msg@,
                HyprError::MissingDocument => r@
                    == "socket 1 returned fewer documents than requested"@,
                HyprError::NotAnArray => r@ == "socket 1 returned a document that is not an array"@,
                HyprError::MonitorFields => r@ == "failure whilst reading monitors"@,
                HyprError::WorkspaceFields => r@
                    == "failure whilst reading id and name of workspace"@,
            },
    {
        let mut m = String::new();
        assert(m@ =~= Seq::<char>::empty());
        match self {
            HyprError::MissingInstance => {
                m.append("couldn't find instance signature, is hyprland running?");
            },
            HyprError::ConfigLine(line) => {
                m.append("malformed workspace declaration: ");
                m.append(line.as_str());
            },
            HyprError::InvalidUtf8 => {
                m.append("the socket did not return valid utf-8");
            },
            HyprError::InvalidJson(msg) => {
                m.append("socket 1 did not return valid json: ");
                m.append(msg.as_str());
            },
            HyprError::MissingDocument => {
                m.append("socket 1 returned fewer documents than requested");
            },
            HyprError::NotAnArray => {
                m.append("socket 1 returned a document that is not an array");
            },
            HyprError::MonitorFields => {
                m.append("failure whilst reading monitors");
            },
            HyprError::WorkspaceFields => {
                m.append("failure whilst reading id and name of workspace");
            },
        }
        m
    }
}

} // verus!
