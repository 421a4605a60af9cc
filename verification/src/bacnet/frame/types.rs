//! Constants and data types of the codec.

use vstd::prelude::*;

use crate::bacnet::value::{BacnetValue, ValueView};

verus! {

// ── Constants ───────────────────────────────────────────────

/// BACnet/IP magic byte (always 0x81).
pub const BVLL_BACNET_IP: u8 = 0x81;

/// BVLL type: BVLC-Result.
pub const BVLL_RESULT: u8 = 0x00;

/// BVLL type: Register-Foreign-Device.
pub const BVLL_REGISTER_FOREIGN_DEVICE: u8 = 0x05;

/// BVLL type: Distribute-Broadcast-To-Network.
pub const BVLL_DISTRIBUTE_BROADCAST: u8 = 0x09;

/// BVLL type: Original-Unicast-NPDU.
pub const BVLL_UNICAST: u8 = 0x0A;

/// BVLL type: Original-Broadcast-NPDU.
pub const BVLL_BROADCAST: u8 = 0x0B;

/// NPDU version (always 1).
pub const NPDU_VERSION: u8 = 0x01;

/// NPDU control byte: local network, data (no routing).
pub const NPDU_CONTROL_NORMAL: u8 = 0x00;

/// Unconfirmed service: I-Am.
pub const SVC_UNCONFIRMED_IAM: u8 = 0x00;

/// Unconfirmed service: Who-Is.
pub const SVC_UNCONFIRMED_WHOIS: u8 = 0x08;

/// Confirmed service: ReadProperty.
pub const SVC_CONFIRMED_READ_PROPERTY: u8 = 0x0C;

/// Confirmed service: ReadPropertyMultiple.
pub const SVC_CONFIRMED_READ_PROPERTY_MULTIPLE: u8 = 0x0E;

/// Confirmed service: WriteProperty.
pub const SVC_CONFIRMED_WRITE_PROPERTY: u8 = 0x0F;

/// Confirmed service: SubscribeCOV.
pub const SVC_CONFIRMED_SUBSCRIBE_COV: u8 = 0x05;

// ── ReadPropertyMultiple ────────────────────────────────────

/// A single property specification within a ReadPropertyMultiple request.
#[derive(Debug, Clone, Copy, PartialEq, Eq, Structural)]
pub struct RpmRequestSpec {
    /// BACnet object type (0=AI, 1=AO, 2=AV, 8=Device, ...).
    pub object_type: u16,
    /// BACnet object instance number (22-bit).
    pub instance: u32,
    /// Property identifier (e.g. 85 = Present_Value).
    pub property_id: u32,
    /// Optional array index for array properties.
    pub array_index: Option<u32>,
}

/// A single result within a ReadPropertyMultiple-ACK response.
///
/// `value` is `Err((class, code))` when the device reports an error for this
/// specific property.
#[derive(Debug, PartialEq, Eq)]
pub struct RpmResult {
    pub object_type: u16,
    pub instance: u32,
    pub property_id: u32,
    pub array_index: Option<u32>,
    pub value: Result<BacnetValue, (u32, u32)>,
}

/// What an [`RpmResult`] says.
pub struct RpmResultView {
    pub object_type: u16,
    pub instance: u32,
    pub property_id: u32,
    pub array_index: Option<u32>,
    pub value: Result<ValueView, (u32, u32)>,
}

impl View for RpmResult {
    type V = RpmResultView;

    open spec fn view(&self) -> RpmResultView {
        RpmResultView {
            object_type: self.object_type,
            instance: self.instance,
            property_id: self.property_id,
            array_index: self.array_index,
            value: match self.value {
                Ok(v) => Ok(v@),
                Err(e) => Err(e),
            },
        }
    }
}

impl Clone for RpmResult {
    fn clone(&self) -> (res: Self)
        ensures
            res@ == self@,
    {
        RpmResult {
            object_type: self.object_type,
            instance: self.instance,
            property_id: self.property_id,
            array_index: self.array_index,
            value: match &self.value {
                Ok(v) => Ok(v.clone()),
                Err(e) => Err(*e),
            },
        }
    }
}

/// The views of a list of results.
pub open spec fn results_view(results: Seq<RpmResult>) -> Seq<RpmResultView> {
    Seq::new(results.len(), |i: int| results[i]@)
}

// ── Headers ─────────────────────────────────────────────────

/// Decoded BVLL (BACnet Virtual Link Layer) header.
#[derive(Debug, Clone, Copy, PartialEq, Eq, Structural)]
pub struct BvllHeader {
    /// 0x0A = unicast, 0x0B = broadcast.
    pub bvll_type: u8,
    /// Total packet length including these 4 header bytes.
    pub length: u16,
}

/// Decoded NPDU (Network Protocol Data Unit) header.
#[derive(Debug, Clone, Copy, PartialEq, Eq, Structural)]
pub struct NpduHeader {
    /// Always 0x01.
    pub version: u8,
    /// 0x00 = local network, data (no routing information present).
    pub control: u8,
}

// ── Change-of-value notifications ───────────────────────────

/// One property reported by a change-of-value notification.
#[derive(Debug, PartialEq, Eq)]
pub struct CovPropertyValue {
    pub property_id: u32,
    pub array_index: Option<u32>,
    pub value: BacnetValue,
}

/// What a [`CovPropertyValue`] says.
pub struct CovPropertyView {
    pub property_id: u32,
    pub array_index: Option<u32>,
    pub value: ValueView,
}

impl View for CovPropertyValue {
    type V = CovPropertyView;

    open spec fn view(&self) -> CovPropertyView {
        CovPropertyView {
            property_id: self.property_id,
            array_index: self.array_index,
            value: self.value@,
        }
    }
}

/// A change-of-value notification: the new values of one monitored object.
#[derive(Debug, PartialEq, Eq)]
pub struct CovNotification {
    /// The subscription that this notification answers.
    pub subscriber_process_id: u32,
    /// The device that sent it.
    pub initiating_device_instance: u32,
    /// The object that changed.
    pub monitored_object_type: u16,
    pub monitored_object_instance: u32,
    /// Seconds until the subscription ends.
    pub time_remaining: Option<u32>,
    /// The reported properties.
    pub values: Vec<CovPropertyValue>,
}

/// What a [`CovNotification`] says.
pub struct CovNotificationView {
    pub subscriber_process_id: u32,
    pub initiating_device_instance: u32,
    pub monitored_object_type: u16,
    pub monitored_object_instance: u32,
    pub time_remaining: Option<u32>,
    pub values: Seq<CovPropertyView>,
}

impl View for CovNotification {
    type V = CovNotificationView;

    open spec fn view(&self) -> CovNotificationView {
        CovNotificationView {
            subscriber_process_id: self.subscriber_process_id,
            initiating_device_instance: self.initiating_device_instance,
            monitored_object_type: self.monitored_object_type,
            monitored_object_instance: self.monitored_object_instance,
            time_remaining: self.time_remaining,
            values: Seq::new(self.values@.len(), |i: int| self.values@[i]@),
        }
    }
}

// ── APDU ────────────────────────────────────────────────────

/// Decoded APDU types.
///
/// Fully-decoded variants cover the services needed for discovery and
/// polling. Everything else falls through to [`Apdu::Other`].
#[derive(Debug, PartialEq, Eq)]
pub enum Apdu {
    /// Unconfirmed Who-Is broadcast discovery request.
    WhoIs { low_limit: Option<u32>, high_limit: Option<u32> },
    /// Unconfirmed I-Am device advertisement.
    IAm { device_instance: u32, max_apdu: u16, segmentation: u8, vendor_id: u16 },
    /// Confirmed ReadProperty request.
    ReadPropertyRequest {
        invoke_id: u8,
        object_type: u16,
        instance: u32,
        property_id: u32,
        array_index: Option<u32>,
    },
    /// Complex-ACK ReadProperty response.
    ReadPropertyAck {
        invoke_id: u8,
        object_type: u16,
        instance: u32,
        property_id: u32,
        value: BacnetValue,
    },
    /// Error PDU.
    Error { invoke_id: u8, service_choice: u8, error_class: u32, error_code: u32 },
    /// Confirmed WriteProperty request.
    WritePropertyRequest {
        invoke_id: u8,
        object_type: u16,
        instance: u32,
        property_id: u32,
        array_index: Option<u32>,
        value: BacnetValue,
        priority: Option<u8>,
    },
    /// Simple-ACK PDU: acknowledges a confirmed service that returns no data.
    SimpleAck { invoke_id: u8, service_choice: u8 },
    /// Confirmed ReadPropertyMultiple request.
    ReadPropertyMultipleRequest { invoke_id: u8, specs: Vec<RpmRequestSpec> },
    /// Complex-ACK ReadPropertyMultiple response.
    ReadPropertyMultipleAck { invoke_id: u8, results: Vec<RpmResult> },
    /// Unconfirmed change-of-value notification.
    UnconfirmedCovNotification { notification: CovNotification },
    /// Confirmed change-of-value notification.
    ConfirmedCovNotification { invoke_id: u8, notification: CovNotification },
    /// Catch-all for PDU types / services not explicitly handled above.
    Other { pdu_type: u8, invoke_id: u8, data: Vec<u8> },
}

/// What an [`Apdu`] says.
pub enum ApduView {
    WhoIs { low_limit: Option<u32>, high_limit: Option<u32> },
    IAm { device_instance: u32, max_apdu: u16, segmentation: u8, vendor_id: u16 },
    ReadPropertyRequest {
        invoke_id: u8,
        object_type: u16,
        instance: u32,
        property_id: u32,
        array_index: Option<u32>,
    },
    ReadPropertyAck {
        invoke_id: u8,
        object_type: u16,
        instance: u32,
        property_id: u32,
        value: ValueView,
    },
    Error { invoke_id: u8, service_choice: u8, error_class: u32, error_code: u32 },
    WritePropertyRequest {
        invoke_id: u8,
        object_type: u16,
        instance: u32,
        property_id: u32,
        array_index: Option<u32>,
        value: ValueView,
        priority: Option<u8>,
    },
    SimpleAck { invoke_id: u8, service_choice: u8 },
    ReadPropertyMultipleRequest { invoke_id: u8, specs: Seq<RpmRequestSpec> },
    ReadPropertyMultipleAck { invoke_id: u8, results: Seq<RpmResultView> },
    UnconfirmedCovNotification { notification: CovNotificationView },
    ConfirmedCovNotification { invoke_id: u8, notification: CovNotificationView },
    Other { pdu_type: u8, invoke_id: u8, data: Seq<u8> },
}

impl View for Apdu {
    type V = ApduView;

    open spec fn view(&self) -> ApduView {
        match *self {
            Apdu::WhoIs { low_limit, high_limit } => ApduView::WhoIs { low_limit, high_limit },
            Apdu::IAm { device_instance, max_apdu, segmentation, vendor_id } => ApduView::IAm {
                device_instance,
                max_apdu,
                segmentation,
                vendor_id,
            },
            Apdu::ReadPropertyRequest {
                invoke_id,
                object_type,
                instance,
                property_id,
                array_index,
            } => ApduView::ReadPropertyRequest {
                invoke_id,
                object_type,
                instance,
                property_id,
                array_index,
            },
            Apdu::ReadPropertyAck { invoke_id, object_type, instance, property_id, value } =>
                ApduView::ReadPropertyAck {
                invoke_id,
                object_type,
                instance,
                property_id,
                value: value@,
            },
            Apdu::Error { invoke_id, service_choice, error_class, error_code } => ApduView::Error {
                invoke_id,
                service_choice,
                error_class,
                error_code,
            },
            Apdu::WritePropertyRequest {
                invoke_id,
                object_type,
                instance,
                property_id,
                array_index,
                value,
                priority,
            } => ApduView::WritePropertyRequest {
                invoke_id,
                object_type,
                instance,
                property_id,
                array_index,
                value: value@,
                priority,
            },
            Apdu::SimpleAck { invoke_id, service_choice } => ApduView::SimpleAck {
                invoke_id,
                service_choice,
            },
            Apdu::ReadPropertyMultipleRequest { invoke_id, specs } =>
                ApduView::ReadPropertyMultipleRequest { invoke_id, specs: specs@ },
            Apdu::ReadPropertyMultipleAck { invoke_id, results } =>
                ApduView::ReadPropertyMultipleAck { invoke_id, results: results_view(results@) },
            Apdu::UnconfirmedCovNotification { notification } =>
                ApduView::UnconfirmedCovNotification { notification: notification@ },
            Apdu::ConfirmedCovNotification { invoke_id, notification } =>
                ApduView::ConfirmedCovNotification { invoke_id, notification: notification@ },
            Apdu::Other { pdu_type, invoke_id, data } => ApduView::Other {
                pdu_type,
                invoke_id,
                data: data@,
            },
        }
    }
}

} // verus!
