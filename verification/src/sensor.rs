//! Reading every DS18B20 on a 1-Wire bus, as a state machine.
//!
//! One scan fires a simultaneous temperature conversion on every device,
//! waits for the 12-bit conversion time, then walks the bus with the ROM
//! search: each device whose family code is the DS18B20's is read, others are
//! skipped, and the scan ends when the search finds no further device. Any bus
//! error aborts the whole scan. The caller drives the bus and reports each
//! outcome; the scan decides what to do next and keeps the addresses read.

use vstd::prelude::*;

verus! {

/// Family code of a 1-Wire ROM address: its lowest byte.
///
/// Trusted: calls `one_wire_bus::Address::family_code`, whose source returns
/// the first little-endian byte of the 64-bit address.
#[verifier::external_body]
fn family_code(address: u64) -> (code: u8)
    ensures
        code == address % 256,
{
    one_wire_bus::Address(address).family_code()
}

/// The DS18B20's family code.
///
/// Trusted: reads `ds18b20::FAMILY_CODE`, which the crate defines as `0x28`.
#[verifier::external_body]
fn ds18b20_family_code() -> (code: u8)
    ensures
        code == 0x28,
{
    ds18b20::FAMILY_CODE
}

/// The device at `address` is a DS18B20: its family code is `0x28`.
pub open spec fn is_ds18b20(address: u64) -> bool {
    address % 256 == 0x28
}

/// The DS18B20 addresses among `found`, in order.
pub open spec fn ds18b20_only(found: Seq<u64>) -> Seq<u64>
    decreases found.len(),
{
    if found.len() == 0 {
        Seq::empty()
    } else if is_ds18b20(found.last()) {
        ds18b20_only(found.drop_last()).push(found.last())
    } else {
        ds18b20_only(found.drop_last())
    }
}

/// Whether the device at `address` is a DS18B20.
pub fn is_ds18b20_address(address: u64) -> (res: bool)
    ensures
        res == is_ds18b20(address),
        res == (address % 256 == 0x28),
{
    family_code(address) == ds18b20_family_code()
}

/// Where a scan stands.
#[derive(Debug, Clone, Copy, PartialEq, Eq)]
pub enum ScanPhase {
    /// Starting a simultaneous conversion on every device.
    Converting,
    /// Waiting for the conversion to finish.
    Measuring,
    /// Looking for the next device.
    Searching,
    /// Reading the DS18B20 at this address.
    Reading(u64),
    /// Done: every device was visited.
    Done,
    /// Done: a bus error aborted the scan.
    Failed,
}

/// The outcome of the last bus operation.
#[derive(Debug, Clone, Copy, PartialEq, Eq)]
pub enum ScanEvent {
    /// The conversion command went out.
    ConversionStarted,
    /// The 12-bit conversion time has passed.
    MeasurementTimeElapsed,
    /// The search found the device at this address.
    DeviceFound(u64),
    /// The search found no further device.
    SearchExhausted,
    /// The device being read returned its data.
    DeviceRead,
    /// A bus operation failed.
    BusError,
}

/// What the caller does next.
#[derive(Debug, Clone, Copy, PartialEq, Eq)]
pub enum ScanAction {
    /// Wait for the 12-bit conversion time.
    WaitForMeasurement,
    /// Continue the ROM search.
    SearchNext,
    /// Read the DS18B20 at this address.
    ReadDevice(u64),
    /// Return the readings gathered.
    Finish,
    /// Give up and report the bus error.
    Abort,
}

/// The events that the action taken in `phase` can produce.
pub open spec fn scan_expects(phase: ScanPhase, event: ScanEvent) -> bool {
    match phase {
        ScanPhase::Converting => event is ConversionStarted || event is BusError,
        ScanPhase::Measuring => event is MeasurementTimeElapsed,
        ScanPhase::Searching => event is DeviceFound || event is SearchExhausted || event is BusError,
        ScanPhase::Reading(_) => event is DeviceRead || event is BusError,
        _ => false,
    }
}

/// One scan of the bus. The first action is to start the simultaneous
/// conversion.
pub struct BusScan {
    phase: ScanPhase,
    read: Vec<u64>,
    found: Ghost<Seq<u64>>,
}

impl BusScan {
    /// Where the scan stands.
    pub closed spec fn phase(&self) -> ScanPhase {
        self.phase
    }

    /// The addresses of the devices read so far, in order.
    pub closed spec fn read_so_far(&self) -> Seq<u64> {
        self.read@
    }

    /// The addresses the search has found so far, in order.
    pub closed spec fn found_so_far(&self) -> Seq<u64> {
        self.found@
    }

    /// The devices read are exactly the DS18B20s found, in order (the one
    /// being read is not counted until its data arrives). An aborted scan
    /// keeps whatever it had.
    pub open spec fn wf(&self) -> bool {
        match self.phase() {
            ScanPhase::Reading(a) => {
                &&& self.found_so_far().len() > 0
                &&& self.found_so_far().last() == a
                &&& is_ds18b20(a)
                &&& self.read_so_far() == ds18b20_only(self.found_so_far().drop_last())
            },
            ScanPhase::Failed => true,
            _ => self.read_so_far() == ds18b20_only(self.found_so_far()),
        }
    }

    /// A scan that has not touched the bus yet.
    pub fn new() -> (scan: BusScan)
        ensures
            scan.wf(),
            scan.phase() == ScanPhase::Converting,
            scan.read_so_far() == Seq::<u64>::empty(),
            scan.found_so_far() == Seq::<u64>::empty(),
    {
        BusScan { phase: ScanPhase::Converting, read: Vec::new(), found: Ghost(Seq::empty()) }
    }

    /// The addresses of the devices read so far, in order.
    pub fn addresses_read(&self) -> (r: &Vec<u64>)
        ensures
            r@ == self.read_so_far(),
    {
        &self.read
    }

    /// Advances the scan by one reported outcome and says what to do next.
    pub fn step(&mut self, event: ScanEvent) -> (action: ScanAction)
        requires
            old(self).wf(),
            scan_expects(old(self).phase(), event),
        ensures
            final(self).wf(),
            match (old(self).phase(), event) {
                (_, ScanEvent::BusError) => final(self).phase() == ScanPhase::Failed && action
                    == ScanAction::Abort && final(self).read_so_far() == old(self).read_so_far()
                    && final(self).found_so_far() == old(self).found_so_far(),
                (ScanPhase::Converting, ScanEvent::ConversionStarted) => final(self).phase()
                    == ScanPhase::Measuring && action == ScanAction::WaitForMeasurement
                    && final(self).read_so_far() == old(self).read_so_far()
                    && final(self).found_so_far() == old(self).found_so_far(),
                (ScanPhase::Measuring, ScanEvent::MeasurementTimeElapsed) => final(self).phase()
                    == ScanPhase::Searching && action == ScanAction::SearchNext
                    && final(self).read_so_far() == old(self).read_so_far()
                    && final(self).found_so_far() == old(self).found_so_far(),
                (ScanPhase::Searching, ScanEvent::DeviceFound(a)) => {
                    &&& final(self).found_so_far() == old(self).found_so_far().push(a)
                    &&& final(self).read_so_far() == old(self).read_so_far()
                    &&& if a % 256 == 0x28 {
                        final(self).phase() == ScanPhase::Reading(a) && action
                            == ScanAction::ReadDevice(a)
                    } else {
                        final(self).phase() == ScanPhase::Searching && action
                            == ScanAction::SearchNext
                    }
                },
                (ScanPhase::Searching, ScanEvent::SearchExhausted) => final(self).phase()
                    == ScanPhase::Done && action == ScanAction::Finish && final(self).read_so_far()
                    == old(self).read_so_far() && final(self).found_so_far()
                    == old(self).found_so_far(),
                (ScanPhase::Reading(a), ScanEvent::DeviceRead) => final(self).phase()
                    == ScanPhase::Searching && action == ScanAction::SearchNext
                    && final(self).read_so_far() == old(self).read_so_far().push(a)
                    && final(self).found_so_far() == old(self).found_so_far(),
                _ => false,
            },
    {
        match event {
            ScanEvent::BusError => {
                self.phase = ScanPhase::Failed;
                ScanAction::Abort
            },
            ScanEvent::ConversionStarted => {
                self.phase = ScanPhase::Measuring;
                ScanAction::WaitForMeasurement
            },
            ScanEvent::MeasurementTimeElapsed => {
                self.phase = ScanPhase::Searching;
                ScanAction::SearchNext
            },
            ScanEvent::DeviceFound(a) => {
                let ghost before = self.found@;
                self.found = Ghost(self.found@.push(a));
                assert(self.found@.drop_last() =~= before);
                if is_ds18b20_address(a) {
                    self.phase = ScanPhase::Reading(a);
                    ScanAction::ReadDevice(a)
                } else {
                    ScanAction::SearchNext
                }
            },
            ScanEvent::SearchExhausted => {
                self.phase = ScanPhase::Done;
                ScanAction::Finish
            },
            ScanEvent::DeviceRead => {
                let a = match self.phase {
                    ScanPhase::Reading(a) => a,
                    _ => 0,
                };
                self.read.push(a);
                self.phase = ScanPhase::Searching;
                ScanAction::SearchNext
            },
        }
    }
}

/// Only family code `0x28` marks a DS18B20: an address is taken for one
/// exactly when its lowest byte is `0x28`, so any other device (a DS1825 at
/// `0x3B`, a DS2413 at `0x3A`, ...) is skipped.
pub proof fn lemma_ds18b20_family(address: u64)
    ensures
        is_ds18b20(address) <==> (address & 0xFF) == 0x28,
        is_ds18b20(address) <==> address % 256 == 0x28,
{
    assert(address & 0xFF == address % 256) by (bit_vector);
}

/// The devices kept for reading are exactly the found ones whose family code
/// is `0x28`: every found address with low byte `0x28` is kept, and every kept
/// address has low byte `0x28` and was found.
pub proof fn lemma_ds18b20_only_exact(found: Seq<u64>)
    ensures
        forall|k: int|
            0 <= k < found.len() && #[trigger] found[k] % 256 == 0x28 ==> ds18b20_only(
                found,
            ).contains(found[k]),
        forall|k: int|
            0 <= k < ds18b20_only(found).len() ==> #[trigger] ds18b20_only(found)[k] % 256 == 0x28
                && found.contains(ds18b20_only(found)[k]),
    decreases found.len(),
{
    lemma_ds18b20_only_members(found);
    if found.len() > 0 {
        let rest = found.drop_last();
        lemma_ds18b20_only_exact(rest);
        assert forall|k: int|
            0 <= k < found.len() && #[trigger] found[k] % 256 == 0x28 implies ds18b20_only(
                found,
            ).contains(found[k]) by {
            if k == found.len() - 1 {
                let kept = ds18b20_only(found);
                assert(kept[kept.len() - 1] == found.last());
            } else {
                assert(found[k] == rest[k]);
                let j = choose|j: int|
                    0 <= j < ds18b20_only(rest).len() && ds18b20_only(rest)[j] == rest[k];
                assert(ds18b20_only(found)[j] == rest[k]);
            }
        }
    }
}

/// A finished scan has read exactly the DS18B20s on the bus, each once, in
/// the order the search found them; other devices are skipped.
pub proof fn lemma_scan_reads_exactly_ds18b20(scan: BusScan)
    requires
        scan.wf(),
        scan.phase() == ScanPhase::Done,
    ensures
        scan.read_so_far() == ds18b20_only(scan.found_so_far()),
        forall|k: int|
            0 <= k < scan.read_so_far().len() ==> is_ds18b20(#[trigger] scan.read_so_far()[k]),
{
    lemma_ds18b20_only_members(scan.found_so_far());
}

/// Every address kept by `ds18b20_only` is a DS18B20 address found in `found`.
pub proof fn lemma_ds18b20_only_members(found: Seq<u64>)
    ensures
        ds18b20_only(found).len() <= found.len(),
        forall|k: int|
            0 <= k < ds18b20_only(found).len() ==> is_ds18b20(#[trigger] ds18b20_only(found)[k])
                && found.contains(ds18b20_only(found)[k]),
    decreases found.len(),
{
    if found.len() > 0 {
        let rest = found.drop_last();
        lemma_ds18b20_only_members(rest);
        assert forall|k: int| 0 <= k < ds18b20_only(found).len() implies is_ds18b20(
            #[trigger] ds18b20_only(found)[k],
        ) && found.contains(ds18b20_only(found)[k]) by {
            if k < ds18b20_only(rest).len() {
                let j = choose|j: int| 0 <= j < rest.len() && rest[j] == ds18b20_only(rest)[k];
                assert(found[j] == rest[j]);
            } else {
                assert(found[found.len() - 1] == found.last());
            }
        }
    }
}

} // verus!
