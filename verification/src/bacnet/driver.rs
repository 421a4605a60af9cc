//! State and rules of the BACnet/IP driver: configuration, discovery results,
//! subscriptions, and what to ask which device.
//!
//! The caller owns the socket and the clock. Times are nanoseconds on the
//! caller's monotonic clock.

use std::collections::HashMap;

use vstd::prelude::*;
use vstd::std_specs::hash::*;
use vstd::string::*;

use super::config::{all_configured, BacnetConfig, DEFAULT_BACNET_PORT};
use super::cov::{cache_noted, CovCache, CovEntryView};
use super::discovery::{all_inserted, DeviceInfo, DeviceRegistry, SocketAddress};
use super::error::{BacnetError, BacnetErrorView};
use super::exchange::{
    answers, cache_after, next_attempt, settled, table_after, Exchange, ExchangeView, Outcome,
    Step,
};
use super::frame::decode::received;
use super::frame::{
    encode_distribute_broadcast_to_network, CovNotification, SVC_UNCONFIRMED_WHOIS,
};
use super::object::BacnetObject;
use super::transaction::{first_free, id_after, TransactionTable, TransactionView};
use crate::driver::{
    distinct_keys, tags_view, DriverError, DriverMeta, DriverStatus, FaultKind, PollMode,
    StatusView,
};
use crate::maps::keys_of;
use crate::text::{decimal, push_decimal, text, text_decimal, text_decimal_tail};

verus! {

/// Nanoseconds in a second.
pub const SECOND: u128 = 1_000_000_000;

/// The lifetime, in seconds, that subscriptions are requested with.
pub const COV_LIFETIME: u32 = 300;

// ── Subscriptions ───────────────────────────────────────────

/// State of a single change-of-value subscription.
#[derive(Debug, Clone, Copy, PartialEq, Eq, Structural)]
pub struct CovSubscription {
    /// Point this subscription covers.
    pub point_id: u32,
    /// The subscriber-process-identifier it was issued with.
    pub process_id: u32,
    /// The monitored object.
    pub object_type: u16,
    pub object_instance: u32,
    /// Device instance the subscription is with.
    pub device_id: u32,
    /// Lifetime in seconds that was requested. `None` = indefinite.
    pub lifetime: Option<u32>,
    /// When the subscription was last established or renewed.
    pub subscribed_at: u128,
}

/// A subscription that is to be requested.
#[derive(Debug, Clone, Copy, PartialEq, Eq, Structural)]
pub struct WatchRequest {
    pub point_id: u32,
    pub process_id: u32,
    pub object_type: u16,
    pub object_instance: u32,
    pub device_id: u32,
    /// Where the request goes.
    pub addr: SocketAddress,
    pub lifetime: Option<u32>,
}

/// A subscription that is to be renewed.
#[derive(Debug, Clone, Copy, PartialEq, Eq, Structural)]
pub struct Renewal {
    pub process_id: u32,
    /// Where the request goes.
    pub addr: SocketAddress,
    pub object_type: u16,
    pub object_instance: u32,
    pub lifetime: Option<u32>,
}

/// What ending the watch of a point takes.
#[derive(Debug, Clone, Copy, PartialEq, Eq, Structural)]
pub enum UnwatchPlan {
    /// The point is not watched.
    NotWatched,
    /// The device is no longer known: the subscription has been dropped.
    Dropped,
    /// The device is to be asked to cancel; the subscription is dropped
    /// whatever it answers.
    Cancel { addr: SocketAddress, process_id: u32, object_type: u16, object_instance: u32 },
}

// ── BacnetDriver ────────────────────────────────────────────

/// BACnet/IP driver state.
///
/// Keeps a registry of discovered devices and the BACnet objects that map to
/// point IDs.
pub struct BacnetDriver {
    id: String,
    status: DriverStatus,
    port: u16,
    broadcast_addr: String,
    connected: bool,
    device_registry: DeviceRegistry,
    objects: HashMap<u32, BacnetObject>,
    transactions: TransactionTable,
    discovery_timeout: u128,
    broadcast_port: u16,
    cov_subscriptions: HashMap<u32, CovSubscription>,
    next_process_id: u32,
    cov_cache: CovCache,
    bbmd_addr: Option<SocketAddress>,
    is_foreign_device: bool,
    renewal_interval: u128,
}

/// What a [`BacnetDriver`] knows.
pub struct BacnetDriverView {
    pub id: Seq<char>,
    pub status: StatusView,
    /// The port to bind; 0 lets the system choose.
    pub port: u16,
    pub broadcast_addr: Seq<char>,
    /// Whether the socket is open.
    pub connected: bool,
    pub devices: Map<u32, DeviceInfo>,
    /// The object of each point.
    pub objects: Map<u32, BacnetObject>,
    /// The requests in flight.
    pub transactions: TransactionView,
    /// How long to wait for I-Am responses after sending Who-Is.
    pub discovery_timeout: u128,
    /// The port that the Who-Is broadcast goes to.
    pub broadcast_port: u16,
    /// Active subscriptions by subscriber-process-identifier.
    pub subscriptions: Map<u32, CovSubscription>,
    /// The identifier of the next subscription.
    pub next_process_id: u32,
    pub cache: Map<(u16, u32), CovEntryView>,
    /// BBMD to register with. `None` = local broadcast only.
    pub bbmd_addr: Option<SocketAddress>,
    /// Whether the driver is registered as a foreign device.
    pub is_foreign_device: bool,
    /// How long after a subscription was made to renew it.
    pub renewal_interval: u128,
}

impl View for BacnetDriver {
    type V = BacnetDriverView;

    closed spec fn view(&self) -> BacnetDriverView {
        BacnetDriverView {
            id: self.id@,
            status: self.status@,
            port: self.port,
            broadcast_addr: self.broadcast_addr@,
            connected: self.connected,
            devices: self.device_registry@,
            objects: self.objects@,
            transactions: self.transactions@,
            discovery_timeout: self.discovery_timeout,
            broadcast_port: self.broadcast_port,
            subscriptions: self.cov_subscriptions@,
            next_process_id: self.next_process_id,
            cache: self.cov_cache@,
            bbmd_addr: self.bbmd_addr,
            is_foreign_device: self.is_foreign_device,
            renewal_interval: self.renewal_interval,
        }
    }
}

/// A driver that has just been made.
pub open spec fn fresh_driver(id: Seq<char>, broadcast: Seq<char>, port: u16) -> BacnetDriverView {
    BacnetDriverView {
        id,
        status: StatusView::Pending,
        port,
        broadcast_addr: broadcast,
        connected: false,
        devices: Map::empty(),
        objects: Map::empty(),
        transactions: TransactionView { in_flight: Set::empty(), next_id: 0 },
        discovery_timeout: 2_000_000_000,
        broadcast_port: port,
        subscriptions: Map::empty(),
        next_process_id: 1,
        cache: Map::empty(),
        bbmd_addr: None,
        is_foreign_device: false,
        renewal_interval: 240_000_000_000,
    }
}

/// What holds of every driver: identifier 0 is never issued, every subscription
/// stands under its own identifier, and no point is subscribed twice.
pub open spec fn well_formed(d: BacnetDriverView) -> bool {
    &&& d.next_process_id != 0
    &&& forall|k: u32| #[trigger]
        d.subscriptions.contains_key(k) ==> k != 0 && d.subscriptions[k].process_id == k
    &&& forall|a: u32, b: u32|
        #![trigger d.subscriptions[a], d.subscriptions[b]]
        d.subscriptions.contains_key(a) && d.subscriptions.contains_key(b)
            && d.subscriptions[a].point_id == d.subscriptions[b].point_id ==> a == b
}

/// Whether a point is subscribed.
pub open spec fn watched(d: BacnetDriverView, point_id: u32) -> bool {
    exists|k: u32| #[trigger]
        d.subscriptions.contains_key(k) && d.subscriptions[k].point_id == point_id
}

/// The identifier after `id`: counting up, around from the largest to 1.
pub open spec fn process_id_after(id: u32) -> u32 {
    if id == u32::MAX {
        1
    } else {
        (id + 1) as u32
    }
}

impl BacnetDriver {
    // ── Construction ────────────────────────────────────────

    /// Create a new driver with an explicit broadcast address and port.
    ///
    /// The driver starts pending and not connected.
    pub fn new(id: String, broadcast: String, port: u16) -> (res: Self)
        ensures
            res@ == fresh_driver(id@, broadcast@, port),
            well_formed(res@),
    {
        broadcast use group_hash_axioms;

        let res: BacnetDriver = BacnetDriver {
            id,
            status: DriverStatus::Pending,
            broadcast_port: port,
            port,
            broadcast_addr: broadcast,
            connected: false,
            device_registry: DeviceRegistry::new(),
            objects: HashMap::new(),
            transactions: TransactionTable::new(),
            discovery_timeout: 2 * SECOND,
            cov_subscriptions: HashMap::new(),
            next_process_id: 1,
            cov_cache: CovCache::new(),
            bbmd_addr: None,
            is_foreign_device: false,
            renewal_interval: 240 * SECOND,
        };
        res
    }

    /// Override the subscription renewal interval.
    ///
    /// Default: 240 s (80% of the 300 s lifetime that is requested).
    pub fn with_renewal_interval(self, interval: u128) -> (res: Self)
        ensures
            res@ == (BacnetDriverView { renewal_interval: interval, ..self@ }),
    {
        let mut driver: BacnetDriver = self;
        driver.renewal_interval = interval;
        driver
    }

    /// Start the subscriber-process-identifiers at `id`. Default: 1.
    pub fn with_first_process_id(self, id: u32) -> (res: Self)
        requires
            id != 0,
        ensures
            res@ == (BacnetDriverView { next_process_id: id, ..self@ }),
    {
        let mut driver: BacnetDriver = self;
        driver.next_process_id = id;
        driver
    }

    /// Override the discovery timeout.
    pub fn with_discovery_timeout(self, t: u128) -> (res: Self)
        ensures
            res@ == (BacnetDriverView { discovery_timeout: t, ..self@ }),
    {
        let mut driver: BacnetDriver = self;
        driver.discovery_timeout = t;
        driver
    }

    /// Override the port that the Who-Is broadcast goes to.
    pub fn with_broadcast_port(self, port: u16) -> (res: Self)
        ensures
            res@ == (BacnetDriverView { broadcast_port: port, ..self@ }),
    {
        let mut driver: BacnetDriver = self;
        driver.broadcast_port = port;
        driver
    }

    /// Set the BBMD address.
    pub fn with_bbmd_addr(self, addr: SocketAddress) -> (res: Self)
        ensures
            res@ == (BacnetDriverView { bbmd_addr: Some(addr), ..self@ }),
    {
        let mut driver: BacnetDriver = self;
        driver.bbmd_addr = Some(addr);
        driver
    }

    /// Register a BACnet object that should be polled for a given point ID.
    pub fn add_object(&mut self, point_id: u32, obj: BacnetObject)
        ensures
            final(self)@ == (BacnetDriverView {
                objects: old(self)@.objects.insert(point_id, obj),
                ..old(self)@
            }),
    {
        broadcast use group_hash_axioms;

        self.objects.insert(point_id, obj);
    }

    /// Construct a driver from a configuration.
    ///
    /// `bbmd` is the endpoint that the configuration's `bbmd` text stands for,
    /// `None` if the text is not an endpoint; it is not looked at if the
    /// configuration has no such text.
    pub fn from_config(config: BacnetConfig, bbmd: Option<SocketAddress>) -> (res: Self)
        ensures
            res@ == ({
                let port = match config.port {
                    Some(p) => p,
                    None => DEFAULT_BACNET_PORT,
                };
                let broadcast = match config.broadcast {
                    Some(b) => b@,
                    None => "255.255.255.255"@,
                };
                BacnetDriverView {
                    bbmd_addr: if config.bbmd is Some {
                        bbmd
                    } else {
                        None
                    },
                    objects: all_configured(Map::empty(), config.objects@),
                    ..fresh_driver(config.id@, broadcast, port)
                }
            }),
            well_formed(res@),
    {
        let port: u16 = match config.port {
            Some(p) => p,
            None => DEFAULT_BACNET_PORT,
        };
        let broadcast: String = match config.broadcast {
            Some(b) => b,
            None => text("255.255.255.255"),
        };
        let mut driver: BacnetDriver = BacnetDriver::new(config.id, broadcast, port);
        if let Some(_) = config.bbmd {
            driver.bbmd_addr = bbmd;
        }
        let ghost start = driver@;
        let mut i: usize = 0;
        assert(config.objects@.subrange(0, 0) =~= Seq::empty());
        while i < config.objects.len()
            invariant
                i <= config.objects@.len(),
                start.objects == Map::<u32, BacnetObject>::empty(),
                driver@ == (BacnetDriverView {
                    objects: all_configured(
                        Map::empty(),
                        config.objects@.subrange(0, i as int),
                    ),
                    ..start
                }),
            decreases config.objects@.len() - i,
        {
            driver.add_object(config.objects[i].point_id, config.objects[i].to_object());
            i += 1;
            assert(config.objects@.subrange(0, i as int).drop_last() =~= config.objects@.subrange(
                0,
                i - 1,
            ));
        }
        assert(config.objects@.subrange(0, i as int) =~= config.objects@);
        driver
    }

    // ── Reading the state ───────────────────────────────────

    /// The driver type.
    pub fn driver_type(&self) -> (res: &'static str)
        ensures
            res@ == "bacnet"@,
    {
        "bacnet"
    }

    /// The instance identifier.
    pub fn id(&self) -> (res: &str)
        ensures
            res@ == self@.id,
    {
        self.id.as_str()
    }

    /// The operational status.
    pub fn status(&self) -> (res: &DriverStatus)
        ensures
            res@ == self@.status,
    {
        &self.status
    }

    /// Points are polled in buckets.
    pub fn poll_mode(&self) -> (res: PollMode)
        ensures
            res == PollMode::Buckets,
    {
        PollMode::Buckets
    }

    /// The port to bind.
    pub fn port(&self) -> (res: u16)
        ensures
            res == self@.port,
    {
        self.port
    }

    /// The broadcast address.
    pub fn broadcast_addr(&self) -> (res: &str)
        ensures
            res@ == self@.broadcast_addr,
    {
        self.broadcast_addr.as_str()
    }

    /// The BBMD to register with.
    pub fn bbmd_addr(&self) -> (res: Option<SocketAddress>)
        ensures
            res == self@.bbmd_addr,
    {
        self.bbmd_addr
    }

    /// Whether the driver is registered as a foreign device.
    pub fn is_foreign_device(&self) -> (res: bool)
        ensures
            res == self@.is_foreign_device,
    {
        self.is_foreign_device
    }

    /// The age at which subscriptions are renewed.
    pub fn renewal_interval(&self) -> (res: u128)
        ensures
            res == self@.renewal_interval,
    {
        self.renewal_interval
    }

    /// How long to wait for I-Am responses.
    pub fn discovery_timeout(&self) -> (res: u128)
        ensures
            res == self@.discovery_timeout,
    {
        self.discovery_timeout
    }

    /// Return a reference to the object map.
    pub fn objects(&self) -> (res: &HashMap<u32, BacnetObject>)
        ensures
            res@ == self@.objects,
    {
        &self.objects
    }

    /// Return a reference to the device registry.
    pub fn device_registry(&self) -> (res: &DeviceRegistry)
        ensures
            res@ == self@.devices,
    {
        &self.device_registry
    }

    /// Return a reference to the change-of-value cache.
    pub fn cov_cache(&self) -> (res: &CovCache)
        ensures
            res@ == self@.cache,
    {
        &self.cov_cache
    }

    /// The active subscriptions by subscriber-process-identifier.
    pub fn subscriptions(&self) -> (res: &HashMap<u32, CovSubscription>)
        ensures
            res@ == self@.subscriptions,
    {
        &self.cov_subscriptions
    }

    // ── Opening and closing ─────────────────────────────────

    /// The address to bind: all interfaces, the configured port.
    pub fn bind_address(&self) -> (res: String)
        ensures
            res@ == "0.0.0.0:"@ + decimal(self@.port as nat),
    {
        text_decimal("0.0.0.0:", self.port as u128)
    }

    /// The endpoint that the Who-Is broadcast goes to, as text.
    pub fn broadcast_target(&self) -> (res: String)
        ensures
            res@ == self@.broadcast_addr + ":"@ + decimal(self@.broadcast_port as nat),
    {
        let mut out: String = self.broadcast_addr.clone();
        out.append(":");
        push_decimal(&mut out, self.broadcast_port as u128);
        out
    }

    /// Note that the BBMD accepted the registration.
    pub fn registered_with_bbmd(&mut self)
        ensures
            final(self)@ == (BacnetDriverView { is_foreign_device: true, ..old(self)@ }),
    {
        self.is_foreign_device = true;
    }

    /// The frame that has the BBMD distribute a Who-Is to its subnets, and the
    /// BBMD it goes to; `None` unless registered with one.
    pub fn distributed_who_is(&self) -> (res: Option<(SocketAddress, Vec<u8>)>)
        ensures
            match res {
                Some((addr, pkt)) => self@.is_foreign_device && self@.bbmd_addr == Some(addr)
                    && pkt@ == seq![0x81u8, 0x09, 0x00, 0x08, 0x01, 0x00, 0x10, 0x08],
                None => !self@.is_foreign_device || self@.bbmd_addr is None,
            },
    {
        if !self.is_foreign_device {
            return None;
        }
        match self.bbmd_addr {
            None => None,
            Some(addr) => {
                let npdu: Vec<u8> = vec![0x01, 0x00, 0x10, SVC_UNCONFIRMED_WHOIS];
                let pkt: Vec<u8> = encode_distribute_broadcast_to_network(npdu.as_slice());
                proof {
                    super::wire::lemma_be_bytes_unfold(8);
                    assert(pkt@ =~= seq![0x81u8, 0x09, 0x00, 0x08, 0x01, 0x00, 0x10, 0x08]);
                }
                Some((addr, pkt))
            },
        }
    }

    /// Discovery is complete: register the devices that answered. The driver
    /// is connected and running even if none did.
    pub fn opened(&mut self, devices: Vec<DeviceInfo>) -> (meta: DriverMeta)
        ensures
            final(self)@ == (BacnetDriverView {
                devices: all_inserted(old(self)@.devices, devices@),
                connected: true,
                status: StatusView::Running,
                ..old(self)@
            }),
            meta.firmware_version is None,
            meta.extra@.len() == 0,
            distinct_keys(tags_view(meta.extra@)),
            meta.model matches Some(m) && m@ == "BACnet/IP port="@ + decimal(
                old(self)@.port as nat,
            ) + " ("@ + decimal(devices@.len()) + (if devices@.len() == 1 {
                " device)"@
            } else {
                " devices)"@
            }),
    {
        let n: usize = devices.len();
        self.device_registry.bulk_insert(devices);
        self.connected = true;
        self.status = DriverStatus::Running;
        let mut model: String = text_decimal_tail("BACnet/IP port=", self.port as u128, " (");
        push_decimal(&mut model, n as u128);
        model.append(if n == 1 { " device)" } else { " devices)" });
        DriverMeta { firmware_version: None, model: Some(model), extra: Vec::new() }
    }

    /// The socket has been closed.
    pub fn close(&mut self)
        ensures
            final(self)@ == (BacnetDriverView {
                connected: false,
                status: StatusView::Down,
                ..old(self)@
            }),
    {
        self.connected = false;
        self.status = DriverStatus::Down;
    }

    /// Return `Ok` if the socket is open, an error otherwise.
    pub fn ping(&self) -> (res: Result<DriverMeta, DriverError>)
        ensures
            match res {
                Ok(meta) => self@.connected && meta.firmware_version is None && meta.extra@.len()
                    == 0 && distinct_keys(tags_view(meta.extra@)) && (meta.model matches Some(m) && m@ == "BACnet/IP port="@ + decimal(
                    self@.port as nat,
                )),
                Err(e) => !self@.connected && e@ == (FaultKind::CommFault, "not connected"@),
            },
    {
        if self.connected {
            Ok(
                DriverMeta {
                    firmware_version: None,
                    model: Some(text_decimal("BACnet/IP port=", self.port as u128)),
                    extra: Vec::new(),
                },
            )
        } else {
            Err(DriverError::CommFault(text("not connected")))
        }
    }

    /// The precondition of reads, writes and subscriptions: an open socket.
    pub fn require_connected(&self) -> (res: Result<(), DriverError>)
        ensures
            match res {
                Ok(_) => self@.connected,
                Err(e) => !self@.connected && e@ == (
                    FaultKind::CommFault,
                    "bacnet: not connected"@,
                ),
            },
    {
        if self.connected {
            Ok(())
        } else {
            Err(DriverError::CommFault(text("bacnet: not connected")))
        }
    }

    /// The precondition of property reads: an open socket.
    pub fn require_socket(&self) -> (res: Result<(), BacnetError>)
        ensures
            match res {
                Ok(_) => self@.connected,
                Err(e) => !self@.connected && e@ == BacnetErrorView::Io("not connected"@),
            },
    {
        if self.connected {
            Ok(())
        } else {
            Err(BacnetError::Io(text("not connected")))
        }
    }

    // ── Exchanges ───────────────────────────────────────────

    /// Start an exchange with up to `max_retries` retries. `None` if all invoke
    /// IDs are in flight.
    pub fn begin_exchange(&mut self, max_retries: u32) -> (res: Option<Exchange>)
        ensures
            match res {
                Some(x) => x@ == (ExchangeView {
                    invoke_id: x@.invoke_id,
                    attempt: 0,
                    max_retries,
                    receive_errors_retry: false,
                }) && first_free(
                    old(self)@.transactions.in_flight,
                    old(self)@.transactions.next_id,
                    x@.invoke_id,
                ) && final(self)@ == (BacnetDriverView {
                    transactions: TransactionView {
                        in_flight: old(self)@.transactions.in_flight.insert(x@.invoke_id),
                        next_id: id_after(x@.invoke_id, 1),
                    },
                    ..old(self)@
                }),
                None => final(self)@ == old(self)@ && forall|id: u8|
                    old(self)@.transactions.in_flight.contains(id),
            },
    {
        Exchange::begin(&mut self.transactions, max_retries, false)
    }

    /// The time of an attempt is up: send again, or give up after the last.
    pub fn exchange_timed_out(&mut self, x: &mut Exchange) -> (res: Step)
        ensures
            match next_attempt(old(x)@) {
                Some(next) => res == Step::Send && final(x)@ == next && final(self)@ == old(self)@,
                None => res == Step::Finished(Outcome::TimedOut(old(x)@.max_retries)) && final(x)@
                    == old(x)@ && final(self)@ == (BacnetDriverView {
                    transactions: settled(old(self)@.transactions, old(x)@.invoke_id),
                    ..old(self)@
                }),
            },
    {
        x.timed_out(&mut self.transactions)
    }

    /// The socket failed while waiting: the exchange ends, unless it takes socket
    /// errors for lost time.
    pub fn exchange_receive_failed(&mut self, x: &mut Exchange, description: String) -> (res: Step)
        ensures
            if old(x)@.receive_errors_retry {
                match next_attempt(old(x)@) {
                    Some(next) => res == Step::Send && final(x)@ == next && final(self)@
                        == old(self)@,
                    None => res == Step::Finished(Outcome::TimedOut(old(x)@.max_retries))
                        && final(x)@ == old(x)@ && final(self)@ == (BacnetDriverView {
                        transactions: settled(old(self)@.transactions, old(x)@.invoke_id),
                        ..old(self)@
                    }),
                }
            } else {
                res == Step::Finished(Outcome::ReceiveFailed(description)) && final(x)@
                    == old(x)@ && final(self)@ == old(self)@
            },
    {
        x.receive_failed(&mut self.transactions, description)
    }

    /// A datagram arrived at time `now`: note a notification, settle the
    /// request that it answers, and end the exchange if it is its own.
    pub fn exchange_packet(&mut self, x: &Exchange, data: &[u8], now: u128) -> (res: Step)
        ensures
            final(self)@ == (BacnetDriverView {
                transactions: table_after(old(self)@.transactions, data@),
                cache: cache_after(old(self)@.cache, data@, now),
                ..old(self)@
            }),
            if answers(data@, x@.invoke_id) {
                res matches Step::Finished(Outcome::Reply(apdu)) && Some(apdu@) == received(data@)
            } else {
                res == Step::Receive
            },
    {
        x.packet(&mut self.transactions, &mut self.cov_cache, data, now)
    }

    // ── Notifications ───────────────────────────────────────

    /// Process a notification received at time `now`: update the cache.
    pub fn handle_cov_notification(&mut self, notification: &CovNotification, now: u128)
        ensures
            final(self)@ == (BacnetDriverView {
                cache: cache_noted(old(self)@.cache, notification@, now),
                ..old(self)@
            }),
    {
        self.cov_cache.update(notification, now);
    }

    // ── Watching ────────────────────────────────────────────

    /// Allocate a new subscriber-process-identifier for a subscription.
    ///
    /// Wraps on overflow and skips 0 (reserved).
    pub fn allocate_process_id(&mut self) -> (id: u32)
        ensures
            id == old(self)@.next_process_id,
            final(self)@ == (BacnetDriverView {
                next_process_id: process_id_after(old(self)@.next_process_id),
                ..old(self)@
            }),
    {
        let id: u32 = self.next_process_id;
        self.next_process_id = self.next_process_id.wrapping_add(1);
        if self.next_process_id == 0 {
            self.next_process_id = 1;
        }
        id
    }

    /// Find the subscription of a point.
    fn find_subscription(&self, point_id: u32) -> (res: Option<CovSubscription>)
        requires
            well_formed(self@),
        ensures
            match res {
                Some(sub) => self@.subscriptions.contains_key(sub.process_id)
                    && self@.subscriptions[sub.process_id] == sub && sub.point_id == point_id,
                None => !watched(self@, point_id),
            },
    {
        broadcast use group_hash_axioms;

        let keys: Vec<u32> = keys_of(&self.cov_subscriptions);
        let mut i: usize = 0;
        while i < keys.len()
            invariant
                i <= keys@.len(),
                well_formed(self@),
                keys@.to_set() == self@.subscriptions.dom(),
                forall|k: int|
                    0 <= k < i ==> self@.subscriptions[#[trigger] keys@[k]].point_id != point_id,
            decreases keys@.len() - i,
        {
            assert(keys@.to_set().contains(keys@[i as int]));
            if let Some(sub) = self.cov_subscriptions.get(&keys[i]) {
                if sub.point_id == point_id {
                    assert(self@.subscriptions.contains_key(keys@[i as int]));
                    return Some(*sub);
                }
            }
            i += 1;
        }
        assert forall|k: u32| #[trigger]
            self@.subscriptions.contains_key(k) implies self@.subscriptions[k].point_id
            != point_id by {
            assert(keys@.to_set().contains(k));
            let j = choose|j: int| 0 <= j < keys@.len() && keys@[j] == k;
            assert(self@.subscriptions[keys@[j]].point_id != point_id);
        }
        None
    }

    /// Whether a point is subscribed.
    pub fn is_watched(&self, point_id: u32) -> (res: bool)
        requires
            well_formed(self@),
        ensures
            res == watched(self@, point_id),
    {
        match self.find_subscription(point_id) {
            Some(sub) => {
                assert(self@.subscriptions.contains_key(sub.process_id));
                true
            },
            None => false,
        }
    }

    /// Plan the subscription of a point: `None` if it is subscribed already,
    /// has no object, or its device is not known. A planned subscription takes
    /// up an identifier.
    pub fn plan_watch(&mut self, point_id: u32) -> (res: Option<WatchRequest>)
        requires
            well_formed(old(self)@),
        ensures
            well_formed(final(self)@),
            ({
                let d = old(self)@;
                let wanted = !watched(d, point_id) && d.objects.contains_key(point_id)
                    && d.devices.contains_key(d.objects[point_id].device_id);
                match res {
                    None => !wanted && final(self)@ == d,
                    Some(req) => wanted && final(self)@ == (BacnetDriverView {
                        next_process_id: process_id_after(d.next_process_id),
                        ..d
                    }) && req == (WatchRequest {
                        point_id,
                        process_id: d.next_process_id,
                        object_type: d.objects[point_id].object_type,
                        object_instance: d.objects[point_id].instance,
                        device_id: d.objects[point_id].device_id,
                        addr: d.devices[d.objects[point_id].device_id].addr,
                        lifetime: Some(COV_LIFETIME),
                    }),
                }
            }),
            res is Some == watch_wanted(old(self)@, point_id),
            res matches Some(req) ==> req == watch_asked(old(self)@, point_id),
    {
        broadcast use group_hash_axioms;

        if self.is_watched(point_id) {
            return None;
        }
        let (device_id, object_type, instance): (u32, u16, u32) = match self.objects.get(
            &point_id,
        ) {
            None => return None,
            Some(obj) => (obj.device_id, obj.object_type, obj.instance),
        };
        let addr: SocketAddress = match self.device_registry.get(device_id) {
            None => return None,
            Some(d) => d.addr,
        };
        let process_id: u32 = self.allocate_process_id();
        Some(
            WatchRequest {
                point_id,
                process_id,
                object_type,
                object_instance: instance,
                device_id,
                addr,
                lifetime: Some(COV_LIFETIME),
            },
        )
    }

    /// The device accepted a planned subscription at time `now`.
    ///
    /// An older subscription under the same identifier is replaced.
    pub fn watch_accepted(&mut self, req: WatchRequest, now: u128)
        requires
            well_formed(old(self)@),
            req.process_id != 0,
            !watched(old(self)@, req.point_id),
        ensures
            well_formed(final(self)@),
            final(self)@ == (BacnetDriverView {
                subscriptions: old(self)@.subscriptions.insert(
                    req.process_id,
                    CovSubscription {
                        point_id: req.point_id,
                        process_id: req.process_id,
                        object_type: req.object_type,
                        object_instance: req.object_instance,
                        device_id: req.device_id,
                        lifetime: req.lifetime,
                        subscribed_at: now,
                    },
                ),
                ..old(self)@
            }),
            final(self)@ == watch_made(old(self)@, req, now),
    {
        broadcast use group_hash_axioms;

        self.cov_subscriptions.insert(
            req.process_id,
            CovSubscription {
                point_id: req.point_id,
                process_id: req.process_id,
                object_type: req.object_type,
                object_instance: req.object_instance,
                device_id: req.device_id,
                lifetime: req.lifetime,
                subscribed_at: now,
            },
        );
    }

    /// Plan the end of a point's subscription. If its device is no longer
    /// known, the subscription and the cached value are dropped at once.
    pub fn plan_unwatch(&mut self, point_id: u32) -> (res: UnwatchPlan)
        requires
            well_formed(old(self)@),
        ensures
            well_formed(final(self)@),
            match res {
                UnwatchPlan::NotWatched => !watched(old(self)@, point_id) && final(self)@
                    == old(self)@,
                UnwatchPlan::Dropped => exists|k: u32|
                    is_subscription(old(self)@, k, point_id) && !old(self)@.devices.contains_key(
                        old(self)@.subscriptions[k].device_id,
                    ) && final(self)@ == #[trigger] subscription_dropped(old(self)@, k),
                UnwatchPlan::Cancel { addr, process_id, object_type, object_instance } => {
                    let d = old(self)@;
                    &&& is_subscription(d, process_id, point_id)
                    &&& d.devices.contains_key(d.subscriptions[process_id].device_id)
                    &&& addr == d.devices[d.subscriptions[process_id].device_id].addr
                    &&& object_type == d.subscriptions[process_id].object_type
                    &&& object_instance == d.subscriptions[process_id].object_instance
                    &&& final(self)@ == d
                },
            },
    {
        let sub: CovSubscription = match self.find_subscription(point_id) {
            None => return UnwatchPlan::NotWatched,
            Some(s) => s,
        };
        match self.device_registry.get(sub.device_id) {
            Some(d) => UnwatchPlan::Cancel {
                addr: d.addr,
                process_id: sub.process_id,
                object_type: sub.object_type,
                object_instance: sub.object_instance,
            },
            None => {
                self.drop_subscription(sub.process_id);
                UnwatchPlan::Dropped
            },
        }
    }

    /// Drop a subscription and the cached value of its object. To be called
    /// once the device has been asked to cancel, whatever it answered.
    pub fn drop_subscription(&mut self, process_id: u32)
        requires
            well_formed(old(self)@),
            old(self)@.subscriptions.contains_key(process_id),
        ensures
            well_formed(final(self)@),
            final(self)@ == subscription_dropped(old(self)@, process_id),
    {
        broadcast use group_hash_axioms;

        if let Some(sub) = self.cov_subscriptions.remove(&process_id) {
            self.cov_cache.remove(sub.object_type, sub.object_instance);
        }
    }

    /// The subscriptions that are due for renewal at time `now`: those at least
    /// the renewal interval old whose device is known, in no particular order.
    pub fn due_renewals(&self, now: u128) -> (due: Vec<Renewal>)
        requires
            well_formed(self@),
        ensures
            forall|i: int|
                0 <= i < due@.len() ==> renewal_due(self@, (#[trigger] due@[i]).process_id, now)
                    && due@[i] == renewal_of(self@, due@[i].process_id),
            forall|k: u32|
                #[trigger] renewal_due(self@, k, now) ==> exists|i: int|
                    0 <= i < due@.len() && (#[trigger] due@[i]).process_id == k,
            forall|i: int, j: int|
                0 <= i < j < due@.len() ==> (#[trigger] due@[i]).process_id != (
                #[trigger] due@[j]).process_id,
    {
        broadcast use group_hash_axioms;

        let keys: Vec<u32> = keys_of(&self.cov_subscriptions);
        let mut due: Vec<Renewal> = Vec::new();
        let mut i: usize = 0;
        while i < keys.len()
            invariant
                i <= keys@.len(),
                well_formed(self@),
                keys@.no_duplicates(),
                keys@.to_set() == self@.subscriptions.dom(),
                forall|j: int|
                    0 <= j < due@.len() ==> renewal_due(self@, (#[trigger] due@[j]).process_id, now)
                        && due@[j] == renewal_of(self@, due@[j].process_id) && exists|k: int|
                        0 <= k < i && #[trigger] keys@[k] == due@[j].process_id,
                forall|k: int|
                    0 <= k < i && renewal_due(self@, #[trigger] keys@[k], now) ==> exists|j: int|
                        0 <= j < due@.len() && (#[trigger] due@[j]).process_id == keys@[k],
                forall|a: int, b: int|
                    0 <= a < b < due@.len() ==> (#[trigger] due@[a]).process_id != (
                    #[trigger] due@[b]).process_id,
            decreases keys@.len() - i,
        {
            let ghost before = due@;
            let key: u32 = keys[i];
            assert(keys@.to_set().contains(key));
            assert(self@.subscriptions.contains_key(key));
            if let Some(sub) = self.cov_subscriptions.get(&key) {
                let age: u128 = if now >= sub.subscribed_at {
                    now - sub.subscribed_at
                } else {
                    0
                };
                if age >= self.renewal_interval {
                    if let Some(device) = self.device_registry.get(sub.device_id) {
                        assert forall|j: int| 0 <= j < due@.len() implies (
                        #[trigger] due@[j]).process_id != key by {
                            let k = choose|k: int|
                                0 <= k < i && #[trigger] keys@[k] == due@[j].process_id;
                            assert(keys@[k] != keys@[i as int]);
                        }
                        due.push(
                            Renewal {
                                process_id: key,
                                addr: device.addr,
                                object_type: sub.object_type,
                                object_instance: sub.object_instance,
                                lifetime: sub.lifetime,
                            },
                        );
                        assert(due@[before.len() as int].process_id == keys@[i as int]);
                    }
                }
            }
            i += 1;
            proof {
                assert forall|k: int|
                    0 <= k < i && renewal_due(self@, #[trigger] keys@[k], now) implies exists|
                    j: int,
                |
                    0 <= j < due@.len() && (#[trigger] due@[j]).process_id == keys@[k] by {
                    if k < i - 1 {
                        let j = choose|j: int|
                            0 <= j < before.len() && (#[trigger] before[j]).process_id == keys@[k];
                        assert(due@[j].process_id == keys@[k]);
                    } else {
                        assert(due@.len() == before.len() + 1);
                        assert(due@[before.len() as int].process_id == keys@[k]);
                    }
                }
                assert forall|j: int| 0 <= j < due@.len() implies renewal_due(
                    self@,
                    (#[trigger] due@[j]).process_id,
                    now,
                ) && due@[j] == renewal_of(self@, due@[j].process_id) && exists|k: int|
                    0 <= k < i && #[trigger] keys@[k] == due@[j].process_id by {
                    if j < before.len() {
                        assert(due@[j] == before[j]);
                        let k = choose|k: int|
                            0 <= k < i - 1 && #[trigger] keys@[k] == before[j].process_id;
                        assert(keys@[k] == due@[j].process_id);
                    } else {
                        assert(keys@[i - 1] == due@[j].process_id);
                    }
                }
            }
        }
        proof {
            assert forall|k: u32| #[trigger] renewal_due(self@, k, now) implies exists|j: int|
                0 <= j < due@.len() && (#[trigger] due@[j]).process_id == k by {
                assert(keys@.to_set().contains(k));
                let n = choose|n: int| 0 <= n < keys@.len() && keys@[n] == k;
                assert(renewal_due(self@, keys@[n], now));
            }
        }
        due
    }

    /// The device accepted the renewal of a subscription at time `now`. A
    /// subscription that has gone meanwhile stays gone.
    pub fn renewed(&mut self, process_id: u32, now: u128)
        requires
            well_formed(old(self)@),
        ensures
            well_formed(final(self)@),
            final(self)@ == if old(self)@.subscriptions.contains_key(process_id) {
                BacnetDriverView {
                    subscriptions: old(self)@.subscriptions.insert(
                        process_id,
                        CovSubscription {
                            subscribed_at: now,
                            ..old(self)@.subscriptions[process_id]
                        },
                    ),
                    ..old(self)@
                }
            } else {
                old(self)@
            },
            final(self)@ == watch_renewed(old(self)@, process_id, now),
    {
        broadcast use group_hash_axioms;

        let found: Option<CovSubscription> = match self.cov_subscriptions.get(&process_id) {
            Some(sub) => Some(*sub),
            None => None,
        };
        if let Some(sub) = found {
            self.cov_subscriptions.insert(
                process_id,
                CovSubscription { subscribed_at: now, ..sub },
            );
        }
    }
}

/// Whether a point is to be subscribed: it has an object of a known device and
/// no subscription.
pub open spec fn watch_wanted(d: BacnetDriverView, point_id: u32) -> bool {
    !watched(d, point_id) && d.objects.contains_key(point_id) && d.devices.contains_key(
        d.objects[point_id].device_id,
    )
}

/// The subscription that is requested for a point.
pub open spec fn watch_asked(d: BacnetDriverView, point_id: u32) -> WatchRequest {
    let obj = d.objects[point_id];
    WatchRequest {
        point_id,
        process_id: d.next_process_id,
        object_type: obj.object_type,
        object_instance: obj.instance,
        device_id: obj.device_id,
        addr: d.devices[obj.device_id].addr,
        lifetime: Some(COV_LIFETIME),
    }
}

/// A driver whose requested subscription was accepted at time `now`.
pub open spec fn watch_made(d: BacnetDriverView, req: WatchRequest, now: u128) -> BacnetDriverView {
    BacnetDriverView {
        subscriptions: d.subscriptions.insert(
            req.process_id,
            CovSubscription {
                point_id: req.point_id,
                process_id: req.process_id,
                object_type: req.object_type,
                object_instance: req.object_instance,
                device_id: req.device_id,
                lifetime: req.lifetime,
                subscribed_at: now,
            },
        ),
        ..d
    }
}

/// A driver whose subscription was renewed at time `now`.
pub open spec fn watch_renewed(
    d: BacnetDriverView,
    process_id: u32,
    now: u128,
) -> BacnetDriverView {
    if d.subscriptions.contains_key(process_id) {
        BacnetDriverView {
            subscriptions: d.subscriptions.insert(
                process_id,
                CovSubscription { subscribed_at: now, ..d.subscriptions[process_id] },
            ),
            ..d
        }
    } else {
        d
    }
}

/// Whether the subscription under `process_id` is that of a point.
pub open spec fn is_subscription(d: BacnetDriverView, process_id: u32, point_id: u32) -> bool {
    d.subscriptions.contains_key(process_id) && d.subscriptions[process_id].point_id == point_id
}

/// A driver without one of its subscriptions and the cached value of its object.
pub open spec fn subscription_dropped(d: BacnetDriverView, process_id: u32) -> BacnetDriverView {
    let sub = d.subscriptions[process_id];
    BacnetDriverView {
        subscriptions: d.subscriptions.remove(process_id),
        cache: d.cache.remove((sub.object_type, sub.object_instance)),
        ..d
    }
}

/// Whether the subscription under `process_id` is to be renewed at time `now`.
pub open spec fn renewal_due(d: BacnetDriverView, process_id: u32, now: u128) -> bool {
    let sub = d.subscriptions[process_id];
    &&& d.subscriptions.contains_key(process_id)
    &&& (if now >= sub.subscribed_at {
        now - sub.subscribed_at
    } else {
        0
    }) >= d.renewal_interval
    &&& d.devices.contains_key(sub.device_id)
}

/// The request that renews a subscription.
pub open spec fn renewal_of(d: BacnetDriverView, process_id: u32) -> Renewal {
    let sub = d.subscriptions[process_id];
    Renewal {
        process_id,
        addr: d.devices[sub.device_id].addr,
        object_type: sub.object_type,
        object_instance: sub.object_instance,
        lifetime: sub.lifetime,
    }
}

/// No identifier that is issued is 0, and two issued one after the other differ.
pub proof fn process_ids_are_never_zero(id: u32)
    ensures
        process_id_after(id) != 0,
        process_id_after(id) != id,
{
}

/// A point that was watched and then unwatched is not watched, and what is
/// known of the other points has not changed.
pub proof fn unwatch_undoes_watch(d: BacnetDriverView, sub: CovSubscription, other: u32)
    requires
        well_formed(d),
        !watched(d, sub.point_id),
        !d.subscriptions.contains_key(sub.process_id),
        other != sub.point_id,
    ensures
        ({
            let with = BacnetDriverView {
                subscriptions: d.subscriptions.insert(sub.process_id, sub),
                ..d
            };
            let without = subscription_dropped(with, sub.process_id);
            &&& watched(with, sub.point_id)
            &&& !watched(without, sub.point_id)
            &&& watched(with, other) == watched(d, other)
            &&& without.subscriptions == d.subscriptions
        }),
{
    let with = BacnetDriverView { subscriptions: d.subscriptions.insert(sub.process_id, sub), ..d };
    let without = subscription_dropped(with, sub.process_id);
    assert(with.subscriptions.contains_key(sub.process_id));
    assert(without.subscriptions =~= d.subscriptions);
    if watched(d, other) {
        let k = choose|k: u32| #[trigger]
            d.subscriptions.contains_key(k) && d.subscriptions[k].point_id == other;
        assert(with.subscriptions.contains_key(k));
    }
    if watched(with, other) {
        let k = choose|k: u32| #[trigger]
            with.subscriptions.contains_key(k) && with.subscriptions[k].point_id == other;
        assert(d.subscriptions.contains_key(k));
    }
}

/// A subscription that was renewed is not due again before the renewal
/// interval has passed.
pub proof fn renewed_is_not_due(d: BacnetDriverView, process_id: u32, now: u128, later: u128)
    requires
        d.subscriptions.contains_key(process_id),
        d.subscriptions[process_id].subscribed_at == now,
        now <= later,
        later - now < d.renewal_interval,
    ensures
        !renewal_due(d, process_id, later),
{
}

} // verus!
