//! Error taxonomy of the library and the reading of native status codes.
use vstd::prelude::*;

verus! {

/// What went wrong, so that callers can tell a configuration problem from an
/// environmental one.
#[derive(Clone, Copy, Debug, PartialEq, Eq, Structural)]
pub enum ErrorKind {
    /// A native call reported failure; the description is the engine's own message.
    Native,
    /// A missing or invalid training parameter, or a malformed dataset description.
    Configuration,
    /// A matrix that is empty, ragged, or too large for the engine's integer width.
    Dimension,
    /// The native engine reported counts that contradict each other.
    Protocol,
    /// An evaluation lookup by a dataset index that does not exist.
    Range,
    /// A name returned by the native engine is not valid UTF-8 text.
    Encoding,
}

/// An error of the library: its kind and a human-readable description.
#[derive(Debug)]
pub struct LgbmError {
    pub kind: ErrorKind,
    pub desc: String,
}

impl PartialEq for LgbmError {
    fn eq(&self, other: &LgbmError) -> (r: bool) {
        self.kind == other.kind && self.desc == other.desc
    }
}

impl vstd::std_specs::cmp::PartialEqSpecImpl for LgbmError {
    open spec fn obeys_eq_spec() -> bool {
        true
    }

    open spec fn eq_spec(&self, other: &LgbmError) -> bool {
        self.kind == other.kind && self.desc@ == other.desc@
    }
}

impl Eq for LgbmError {}

/// The prefix that `LgbmError::message` puts before the description.
pub open spec fn message_prefix() -> Seq<char> {
    seq!['L', 'i', 'g', 'h', 't', 'G', 'B', 'M', ' ', 'e', 'r', 'r', 'o', 'r', ':', ' ']
}

impl LgbmError {
    /// An error of the given kind with the given description.
    pub fn new(kind: ErrorKind, desc: String) -> (r: LgbmError)
        ensures
            r.kind == kind,
            r.desc@ == desc@,
    {
        LgbmError { kind, desc }
    }

    /// A failure reported by the native engine, carrying its last diagnostic message.
    pub fn from_lightgbm(last_error: String) -> (r: LgbmError)
        ensures
            r.kind == ErrorKind::Native,
            r.desc@ == last_error@,
    {
        LgbmError { kind: ErrorKind::Native, desc: last_error }
    }

    /// Reads the status code of a native call: `0` is success, `-1` is failure, which
    /// carries `last_error`, the engine's last diagnostic message. Any other status is a
    /// defect of the engine and is not accepted.
    pub fn check_return_value(ret_val: i32, last_error: String) -> (r: Result<(), LgbmError>)
        requires
            ret_val == 0 || ret_val == -1,
        ensures
            r is Ok <==> ret_val == 0,
            r matches Err(e) ==> e.kind == ErrorKind::Native && e.desc@ == last_error@,
    {
        if ret_val == 0 {
            Ok(())
        } else {
            Err(LgbmError::from_lightgbm(last_error))
        }
    }

    /// The kind of the error.
    pub fn kind(&self) -> (r: ErrorKind)
        ensures
            r == self.kind,
    {
        self.kind
    }

    /// The error as it is shown to a user: `LightGBM error: ` and the description.
    pub fn message(&self) -> (r: String)
        ensures
            r@ == message_prefix() + self.desc@,
    {
        let mut s = String::from_str("LightGBM error: ");
        proof {
            reveal_strlit("LightGBM error: ");
        }
        s.append(self.desc.as_str());
        s
    }
}

} // verus!
