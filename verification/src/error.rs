//! The errors of the decoders.
use vstd::string::*;
use vstd::prelude::*;

verus! {

/// The standard library's I/O error, carried through unopened.
#[verifier::external_type_specification]
#[verifier::external_body]
pub struct ExIoError(std::io::Error);

/// Why a decoder could not go on.
#[derive(Debug)]
pub enum DecoderError {
    Io(std::io::Error),
    Decode(String),
    EndOfStream,
    SeekError(String),
    UnsupportedFormat(String),
}

/// An error as contracts see it: its kind and its message.
pub enum ErrorView {
    Io,
    Decode(Seq<char>),
    EndOfStream,
    SeekError(Seq<char>),
    UnsupportedFormat(Seq<char>),
}

impl View for DecoderError {
    type V = ErrorView;

    open spec fn view(&self) -> ErrorView {
        match self {
            DecoderError::Io(_) => ErrorView::Io,
            DecoderError::Decode(m) => ErrorView::Decode(m@),
            DecoderError::EndOfStream => ErrorView::EndOfStream,
            DecoderError::SeekError(m) => ErrorView::SeekError(m@),
            DecoderError::UnsupportedFormat(m) => ErrorView::UnsupportedFormat(m@),
        }
    }
}

/// The text of an I/O error, as std's `Display` writes it; it depends on the
/// platform, so nothing is stated of it.
#[verifier::external_body]
fn io_error_text(e: &std::io::Error) -> String {
    e.to_string()
}

impl DecoderError {
    /// The message of the error, as shown to the user: a prefix that names the kind,
    /// then the detail.
    pub fn describe(&self) -> (text: String)
        ensures
            match self {
                DecoderError::Io(_) => exists|detail: Seq<char>| text@ == "IO error: "@ + detail,
                DecoderError::Decode(m) => text@ == "Decode error: "@ + m@,
                DecoderError::EndOfStream => text@ == "End of stream"@,
                DecoderError::SeekError(m) => text@ == "Seek error: "@ + m@,
                DecoderError::UnsupportedFormat(m) => text@ == "Unsupported format: "@ + m@,
            },
    {
        match self {
            DecoderError::Io(e) => {
                let detail = io_error_text(e);
                let text = String::from_str("IO error: ").concat(detail.as_str());
                assert(text@ == "IO error: "@ + detail@);
                text
            },
            DecoderError::Decode(m) => String::from_str("Decode error: ").concat(m.as_str()),
            DecoderError::EndOfStream => String::from_str("End of stream"),
            DecoderError::SeekError(m) => String::from_str("Seek error: ").concat(m.as_str()),
            DecoderError::UnsupportedFormat(m) => String::from_str("Unsupported format: ").concat(
                m.as_str(),
            ),
        }
    }
}

impl From<std::io::Error> for DecoderError {
    fn from(e: std::io::Error) -> (err: DecoderError) {
        DecoderError::Io(e)
    }
}

impl vstd::std_specs::convert::FromSpecImpl<std::io::Error> for DecoderError {
    open spec fn obeys_from_spec() -> bool {
        true
    }

    open spec fn from_spec(v: std::io::Error) -> DecoderError {
        DecoderError::Io(v)
    }
}

} // verus!
