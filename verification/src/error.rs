//! What can go wrong in the interception layer.

use vstd::prelude::*;
use vstd::string::StringExecFns;

verus! {

/// An error of the interception layer.
#[derive(Debug, PartialEq, Eq)]
pub enum InterceptError {
    /// The device could not be opened or configured; the system's reason.
    DeviceOpen(String),
}

impl InterceptError {
    /// The error in words.
    pub fn message(&self) -> (r: String)
        ensures
            match self {
                InterceptError::DeviceOpen(why) => r@ == "failed to open the tun device: "@ + why@,
            },
    {
        match self {
            InterceptError::DeviceOpen(why) => {
                let mut out: String = "failed to open the tun device: ".to_owned();
                out.append(why.as_str());
                out
            },
        }
    }
}

} // verus!
