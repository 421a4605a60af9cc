//! Errors of the BACnet/IP driver.

use vstd::prelude::*;
use vstd::string::*;

use crate::driver::{DriverError, FaultKind};
use crate::text::{decimal, push_decimal, text, text_decimal, text_decimal_tail};

verus! {

/// Errors specific to the BACnet/IP driver.
///
/// These complement [`DriverError`], which every one of them converts into.
#[derive(Debug, PartialEq, Eq)]
pub enum BacnetError {
    /// A frame that breaks the encoding rules, with the rule it breaks.
    MalformedFrame(String),
    /// An encoding this driver does not handle.
    UnsupportedEncoding(String),
    /// The device does not have the property.
    PropertyNotFound,
    /// No device of that instance number is known.
    DeviceNotFound(u32),
    /// No answer came, after that many retries.
    Timeout(u32),
    /// The device answered with an error.
    RemoteError { class: u32, code: u32 },
    /// A socket operation failed, with the system's description.
    Io(String),
}

/// What a [`BacnetError`] says.
pub enum BacnetErrorView {
    MalformedFrame(Seq<char>),
    UnsupportedEncoding(Seq<char>),
    PropertyNotFound,
    DeviceNotFound(u32),
    Timeout(u32),
    RemoteError { class: u32, code: u32 },
    Io(Seq<char>),
}

impl View for BacnetError {
    type V = BacnetErrorView;

    open spec fn view(&self) -> BacnetErrorView {
        match *self {
            BacnetError::MalformedFrame(msg) => BacnetErrorView::MalformedFrame(msg@),
            BacnetError::UnsupportedEncoding(msg) => BacnetErrorView::UnsupportedEncoding(msg@),
            BacnetError::PropertyNotFound => BacnetErrorView::PropertyNotFound,
            BacnetError::DeviceNotFound(id) => BacnetErrorView::DeviceNotFound(id),
            BacnetError::Timeout(n) => BacnetErrorView::Timeout(n),
            BacnetError::RemoteError { class, code } => BacnetErrorView::RemoteError { class, code },
            BacnetError::Io(msg) => BacnetErrorView::Io(msg@),
        }
    }
}

/// The text that an error is shown as.
pub open spec fn error_text(e: BacnetErrorView) -> Seq<char> {
    match e {
        BacnetErrorView::MalformedFrame(msg) => "malformed frame: "@ + msg,
        BacnetErrorView::UnsupportedEncoding(msg) => "unsupported encoding: "@ + msg,
        BacnetErrorView::PropertyNotFound => "property not found"@,
        BacnetErrorView::DeviceNotFound(id) => "device not in registry: "@ + decimal(id as nat),
        BacnetErrorView::Timeout(n) => "transaction timeout after "@ + decimal(n as nat)
            + " retries"@,
        BacnetErrorView::RemoteError { class, code } => "remote error class="@ + decimal(
            class as nat,
        ) + " code="@ + decimal(code as nat),
        BacnetErrorView::Io(msg) => "io error: "@ + msg,
    }
}

/// `head` followed by the class and code of a remote error.
pub open spec fn class_code_text(head: Seq<char>, class: u32, code: u32) -> Seq<char> {
    head + decimal(class as nat) + " code="@ + decimal(code as nat)
}

/// Build the text of a remote error: `head`, the class, ` code=`, the code.
pub fn class_code(head: &str, class: u32, code: u32) -> (out: String)
    ensures
        out@ == class_code_text(head@, class, code),
{
    let mut out: String = text_decimal_tail(head, class as u128, " code=");
    push_decimal(&mut out, code as u128);
    out
}

impl BacnetError {
    /// The error as text, for example `transaction timeout after 3 retries`.
    pub fn to_string(&self) -> (out: String)
        ensures
            out@ == error_text(self@),
    {
        match self {
            BacnetError::MalformedFrame(msg) => {
                let mut out: String = text("malformed frame: ");
                out.append(msg.as_str());
                out
            },
            BacnetError::UnsupportedEncoding(msg) => {
                let mut out: String = text("unsupported encoding: ");
                out.append(msg.as_str());
                out
            },
            BacnetError::PropertyNotFound => text("property not found"),
            BacnetError::DeviceNotFound(id) => text_decimal("device not in registry: ", *id as u128),
            BacnetError::Timeout(n) => text_decimal_tail(
                "transaction timeout after ",
                *n as u128,
                " retries",
            ),
            BacnetError::RemoteError { class, code } => class_code(
                "remote error class=",
                *class,
                *code,
            ),
            BacnetError::Io(msg) => {
                let mut out: String = text("io error: ");
                out.append(msg.as_str());
                out
            },
        }
    }
}

impl From<BacnetError> for DriverError {
    fn from(e: BacnetError) -> (res: DriverError)
        ensures
            res@ == (FaultKind::CommFault, error_text(e@)),
    {
        DriverError::CommFault(e.to_string())
    }
}

impl vstd::std_specs::convert::FromSpecImpl<BacnetError> for DriverError {
    open spec fn obeys_from_spec() -> bool {
        false
    }

    open spec fn from_spec(e: BacnetError) -> DriverError {
        arbitrary()
    }
}

/// The error for a frame that breaks the rule named by `msg`.
pub open spec fn malformed(msg: Seq<char>) -> BacnetErrorView {
    BacnetErrorView::MalformedFrame(msg)
}

/// A [`BacnetError::MalformedFrame`] with the given message.
pub fn malformed_frame(msg: &str) -> (e: BacnetError)
    ensures
        e@ == malformed(msg@),
{
    BacnetError::MalformedFrame(text(msg))
}

/// What a result says, with the error by its view.
pub open spec fn result_view<T>(r: Result<T, BacnetError>) -> Result<T, BacnetErrorView> {
    match r {
        Ok(v) => Ok(v),
        Err(e) => Err(e@),
    }
}

} // verus!
