//! The payload of a write: given inline, read from a file, or empty.

use vstd::prelude::*;
use vstd::string::*;
use crate::error::{CommandError, CommandErrorView};

verus! {

/// Where the payload of a write comes from.
#[derive(Clone, Debug, PartialEq, Eq)]
pub enum PayloadSource {
    /// These bytes.
    Bytes(Vec<u8>),
    /// The whole contents of the file at this path.
    File(String),
}

/// A [`PayloadSource`] as mathematical values.
pub enum PayloadSourceView {
    Bytes(Seq<u8>),
    File(Seq<char>),
}

impl View for PayloadSource {
    type V = PayloadSourceView;

    open spec fn view(&self) -> PayloadSourceView {
        match self {
            PayloadSource::Bytes(bytes) => PayloadSourceView::Bytes(bytes@),
            PayloadSource::File(file) => PayloadSourceView::File(file@),
        }
    }
}

/// The source that the two payload arguments name: the bytes of the inline
/// text as they are, the file, or the empty payload when neither is given.
/// Both together name none.
pub open spec fn source_of(data: Option<&str>, file: Option<&str>) -> Option<PayloadSourceView> {
    match (data, file) {
        (Some(text), None) => Some(PayloadSourceView::Bytes(text.spec_bytes())),
        (None, Some(name)) => Some(PayloadSourceView::File(name@)),
        (Some(_), Some(_)) => None,
        (None, None) => Some(PayloadSourceView::Bytes(Seq::empty())),
    }
}

/// Decides where the payload comes from. Giving both arguments is a usage
/// error; giving neither means the empty payload.
pub fn get_data_from_input(data: Option<&str>, file: Option<&str>) -> (result: Result<
    PayloadSource,
    CommandError,
>)
    ensures
        match source_of(data, file) {
            Some(source) => result matches Ok(found) && found@ == source,
            None => result matches Err(error) && error@ == CommandErrorView::ConflictingInput,
        },
{
    match (data, file) {
        (Some(text), None) => Ok(PayloadSource::Bytes(text.as_bytes_vec())),
        (None, Some(name)) => Ok(PayloadSource::File(name.to_owned())),
        (Some(_), Some(_)) => Err(CommandError::ConflictingInput),
        (None, None) => Ok(PayloadSource::Bytes(Vec::new())),
    }
}

/// The view of the outcome of reading a file.
pub open spec fn read_view(read: Result<Vec<u8>, String>) -> Result<Seq<u8>, Seq<char>> {
    match read {
        Ok(bytes) => Ok(bytes@),
        Err(cause) => Err(cause@),
    }
}

/// The payload after the file `file` was read, or the error that names the
/// file when reading failed.
pub fn file_payload(file: &str, read: Result<Vec<u8>, String>) -> (result: Result<
    Vec<u8>,
    CommandError,
>)
    ensures
        match read_view(read) {
            Ok(bytes) => result matches Ok(payload) && payload@ == bytes,
            Err(cause) => result matches Err(error) && error@ == (CommandErrorView::FileRead {
                file: file@,
                cause,
            }),
        },
{
    match read {
        Ok(bytes) => Ok(bytes),
        Err(cause) => Err(CommandError::FileRead { file: file.to_owned(), cause }),
    }
}

} // verus!
