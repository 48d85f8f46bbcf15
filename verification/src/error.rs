//! The error type of the viewer, and the text shown for each error.
use grib::GribError;
use vstd::prelude::*;

verus! {

/// `grib::GribError`: the error that the GRIB2 reader reports. Opaque here;
/// it is carried through, and shown through its `Display` implementation.
#[verifier::external_type_specification]
#[verifier::external_body]
pub struct ExGribError(GribError);

/// What can go wrong when the viewer reads or queries a GRIB2 file.
#[derive(Debug)]
pub enum GribViewerError {
    /// The GRIB2 reader failed.
    Grib(GribError),
    /// No message matches the request.
    MessageNotFound(String),
    /// A parameter or surface key is malformed.
    InvalidKey(String),
    /// Anything else, with its message.
    Other(String),
}

/// `Display` of `grib::GribError`, as text. Nothing is stated of the text:
/// it depends on the contents of the opaque error.
#[verifier::external_body]
fn grib_error_text(err: &GribError) -> String {
    format!("{}", err)
}

impl GribViewerError {
    /// The text of the error, as its `Display` form reads, for the variants
    /// that hold their own text.
    pub open spec fn text_of(self) -> Option<Seq<char>> {
        match self {
            GribViewerError::Grib(_) => None,
            GribViewerError::MessageNotFound(s) => Some("Message not found: "@ + s@),
            GribViewerError::InvalidKey(s) => Some("Invalid key: "@ + s@),
            GribViewerError::Other(s) => Some(s@),
        }
    }

    /// The text of the error: "Grib error: ", "Message not found: " or
    /// "Invalid key: " followed by the details, or the bare message of `Other`.
    pub fn message(&self) -> (r: String)
        ensures
            self.text_of() matches Some(t) ==> r@ == t,
            self is Grib ==> r@.len() >= "Grib error: "@.len() && r@.subrange(
                0,
                "Grib error: "@.len() as int,
            ) == "Grib error: "@,
    {
        match self {
            GribViewerError::Grib(e) => {
                let detail = grib_error_text(e);
                let r = String::from_str("Grib error: ").concat(detail.as_str());
                assert(r@.subrange(0, "Grib error: "@.len() as int) =~= "Grib error: "@);
                r
            },
            GribViewerError::MessageNotFound(s) => String::from_str("Message not found: ").concat(
                s.as_str(),
            ),
            GribViewerError::InvalidKey(s) => String::from_str("Invalid key: ").concat(s.as_str()),
            GribViewerError::Other(s) => s.clone(),
        }
    }
}

impl From<GribError> for GribViewerError {
    fn from(err: GribError) -> (r: Self) {
        GribViewerError::Grib(err)
    }
}

impl vstd::std_specs::convert::FromSpecImpl<GribError> for GribViewerError {
    open spec fn obeys_from_spec() -> bool {
        true
    }

    open spec fn from_spec(v: GribError) -> Self {
        GribViewerError::Grib(v)
    }
}

} // verus!
