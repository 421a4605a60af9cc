//! BACnet/IP byte-level codec: BVLL, NPDU, APDU.
//!
//! # Wire layout
//!
//! ```text
//! BVLL header (4 bytes)
//!   0x81          BACnet/IP magic
//!   type          0x0A unicast / 0x0B broadcast
//!   length        total packet length, two bytes, big-endian
//! NPDU (2+ bytes)
//!   0x01          version
//!   control       0x00 = local data
//!   [router fields when control bit 5 is set]
//!   [source fields when control bit 3 is set]
//! APDU (variable)
//! ```
//!
//! PDU types and services that are not decoded here become [`Apdu::Other`].

pub mod decode;
pub mod encode;
pub mod layout_laws;
pub mod laws;
pub mod rpm_laws;
pub mod types;

pub use decode::{
    decode_apdu, decode_bvll_header, decode_bvll_result, decode_enumerated_at, decode_npdu,
    decode_packet, read_context_unsigned, received_apdu,
};
pub use encode::{
    build_packet, encode_bacnet_value, encode_context_unsigned,
    encode_distribute_broadcast_to_network, encode_error_pdu, encode_read_property,
    encode_read_property_ack, encode_read_property_ack_multi, encode_read_property_multiple,
    encode_read_property_multiple_ack, encode_register_foreign_device, encode_simple_ack,
    encode_subscribe_cov, encode_who_is, encode_write_property,
};
pub use types::{
    Apdu, BvllHeader, CovNotification, CovPropertyValue, NpduHeader, RpmRequestSpec, RpmResult,
    BVLL_BACNET_IP, BVLL_BROADCAST, BVLL_DISTRIBUTE_BROADCAST, BVLL_REGISTER_FOREIGN_DEVICE,
    BVLL_RESULT, BVLL_UNICAST, NPDU_CONTROL_NORMAL, NPDU_VERSION, SVC_CONFIRMED_READ_PROPERTY,
    SVC_CONFIRMED_READ_PROPERTY_MULTIPLE, SVC_CONFIRMED_SUBSCRIBE_COV,
    SVC_CONFIRMED_WRITE_PROPERTY, SVC_UNCONFIRMED_IAM, SVC_UNCONFIRMED_WHOIS,
};
