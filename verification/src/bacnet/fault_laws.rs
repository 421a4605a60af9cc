//! What each failure says.

use vstd::prelude::*;

use super::error::{error_text, BacnetErrorView};
use super::exchange::{bacnet_fault_of, driver_fault_of, Outcome};
use super::frame::types::ApduView;
use super::plan::{
    after_registration, unconfigured_fault, unknown_device_fault, RegistrationStepView,
};
use super::reply::{numeric, present_value, remote_fault, ReplyFaultView};
use super::value::{number_of, ValueView};
use crate::driver::FaultKind;
use crate::text::{decimal, hex2};

verus! {

/// The text of an error names its kind and all that it carries.
pub proof fn error_text_tells_everything(msg: Seq<char>, id: u32, class: u32, code: u32)
    ensures
        error_text(BacnetErrorView::MalformedFrame(msg)) == "malformed frame: "@ + msg,
        error_text(BacnetErrorView::UnsupportedEncoding(msg)) == "unsupported encoding: "@ + msg,
        error_text(BacnetErrorView::PropertyNotFound) == "property not found"@,
        error_text(BacnetErrorView::DeviceNotFound(id)) == "device not in registry: "@ + decimal(
            id as nat,
        ),
        error_text(BacnetErrorView::Timeout(id)) == "transaction timeout after "@ + decimal(
            id as nat,
        ) + " retries"@,
        error_text(BacnetErrorView::RemoteError { class, code }) == "remote error class="@
            + decimal(class as nat) + " code="@ + decimal(code as nat),
        error_text(BacnetErrorView::Io(msg)) == "io error: "@ + msg,
{
}

/// An exchange without a reply is a communication fault that says what went
/// wrong; one with a reply is no fault.
pub proof fn exchange_without_reply_is_a_fault(outcome: Outcome)
    ensures
        match outcome {
            Outcome::Reply(_) => driver_fault_of(outcome) is None && bacnet_fault_of(outcome)
                is None,
            Outcome::SendFailed(e) => driver_fault_of(outcome) == Some(
                (FaultKind::CommFault, "bacnet send: "@ + e@),
            ) && bacnet_fault_of(outcome) == Some(BacnetErrorView::Io(e@)),
            Outcome::ReceiveFailed(e) => driver_fault_of(outcome) == Some(
                (FaultKind::CommFault, "bacnet recv: "@ + e@),
            ) && bacnet_fault_of(outcome) == Some(BacnetErrorView::Io(e@)),
            Outcome::TimedOut(n) => driver_fault_of(outcome) == Some(
                (
                    FaultKind::CommFault,
                    "bacnet: timeout after "@ + decimal(n as nat) + " retries"@,
                ),
            ) && bacnet_fault_of(outcome) == Some(BacnetErrorView::Timeout(n)),
        },
{
}

/// A fault of the remote side tells its class and then its code.
pub proof fn remote_fault_tells_class_and_code(
    head: Seq<char>,
    class: u32,
    code: u32,
    invoke_id: u8,
    service_choice: u8,
)
    ensures
        remote_fault(head, class, code) == (
            FaultKind::RemoteStatus,
            head + decimal(class as nat) + " code="@ + decimal(code as nat),
        ),
        present_value(
            ApduView::Error { invoke_id, service_choice, error_class: class, error_code: code },
        ) matches Err(ReplyFaultView::Fault(f)) && f == (
            FaultKind::RemoteStatus,
            "BACnet error class="@ + decimal(class as nat) + " code="@ + decimal(code as nat),
        ),
{
}

/// A value is read as the number that it stands for, and complained about if it
/// stands for none.
pub proof fn value_without_number_is_complained_about(v: ValueView, complaint: Seq<char>)
    ensures
        number_of(v) matches Some(n) ==> (numeric(v, complaint) matches Ok(m) && m == n),
        number_of(v) is None ==> (numeric(v, complaint) matches Err(e) && e == (
            FaultKind::CommFault,
            complaint,
        )),
{
}

/// A point without an object and a device that was not discovered are named.
pub proof fn missing_parts_are_named(point_id: u32, device_id: u32)
    ensures
        unconfigured_fault(point_id) == (
            FaultKind::ConfigFault,
            "no BACnet object configured for point "@ + decimal(point_id as nat),
        ),
        unknown_device_fault(device_id) == (
            FaultKind::CommFault,
            "BACnet device "@ + decimal(device_id as nat) + " not in registry"@,
        ),
{
}

/// A foreign device is registered exactly by a BVLC result of zero; any other
/// result ends the registration and is named. Silence and other datagrams are
/// waited out twice, and the third time is the last.
pub proof fn registration_ends_with_its_result(attempt: u32, s: Seq<u8>)
    ensures
        after_registration(attempt, Some(s)) is Registered <==> s.len() >= 6 && s[0] == 0x81
            && s[1] == 0 && s[4] == 0 && s[5] == 0,
        s.len() >= 6 && s[0] == 0x81 && s[1] == 0 && (s[4] != 0 || s[5] != 0)
            ==> after_registration(attempt, Some(s)) == RegistrationStepView::Failed(
            BacnetErrorView::MalformedFrame(
                "BBMD registration NAK: result code 0x"@ + (hex2(s[4]) + hex2(s[5])),
            ),
        ),
        s.len() < 6 || s[0] != 0x81 || s[1] != 0 ==> after_registration(attempt, Some(s))
            == after_registration(attempt, None),
        attempt < 2 ==> after_registration(attempt, None) is Retry,
        attempt >= 2 ==> after_registration(attempt, None) == RegistrationStepView::Failed(
            BacnetErrorView::Timeout(3),
        ),
{
    super::frame::layout_laws::bvlc_result_is_its_code(s);
    if s.len() >= 6 {
        crate::text::hex_digits_tell_their_word(s[4], s[5]);
    }
}

} // verus!
