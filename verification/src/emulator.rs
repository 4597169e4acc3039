//! The emulated devices and the replies they give.
//!
//! Everything the link learns from an emulated device goes through the trusted items of this
//! file: each states only what the emulator's source shows.
use vstd::prelude::*;

use autd3_driver::firmware::cpu::RxMessage;
use autd3_driver::firmware::fpga::Segment as FpgaSegment;
use autd3_driver::geometry::{Device, Geometry, Transducer};
use autd3_firmware_emulator::CPUEmulator;

verus! {

/// One of the two memory segments of a device; each holds its own modulation and drive data.
#[derive(Clone, Copy, Debug, PartialEq, Eq, Structural)]
pub enum Segment {
    S0,
    S1,
}

/// What one transducer is told to emit: a phase and an intensity, each one byte.
#[derive(Clone, Copy, Debug, PartialEq, Eq, Structural)]
pub struct Drive {
    pub phase: u8,
    pub intensity: u8,
}

/// The number of drive words in each segment of a device's drive memory.
pub const DRIVE_MEMORY_WORDS: usize = 262144;

/// The number of drive words one pattern of a sequence of gains takes in the drive memory.
pub const PATTERN_STRIDE: usize = 256;

/// The number of bytes each segment of a device's modulation memory holds.
pub const MODULATION_MEMORY_BYTES: usize = 32768;

/// How many drives a device with `n` transducers reads for pattern `idx` of a sequence of
/// gains: the pattern starts `256 * idx` words into the drive memory and takes one word per
/// transducer, as far as the memory goes.
pub open spec fn gain_drive_count(n: int, idx: int) -> int {
    let begin = PATTERN_STRIDE * idx;
    if begin >= DRIVE_MEMORY_WORDS {
        0
    } else if n <= DRIVE_MEMORY_WORDS - begin {
        n
    } else {
        DRIVE_MEMORY_WORDS - begin
    }
}

/// `n` drives that emit nothing: phase 0, intensity 0.
pub open spec fn silent_drives(n: int) -> Seq<Drive> {
    Seq::new(n as nat, |j: int| Drive { phase: 0, intensity: 0 })
}

/// A device as it comes up: both segments hold a sequence of gains whose memory is all zero,
/// so every pattern it can read is silent, and both hold a modulation of two steps at full
/// intensity.
pub open spec fn fresh_device(cpu: CPUEmulator) -> bool {
    &&& forall|segment: Segment| #[trigger] emulator_gain_mode(cpu, segment)
    &&& forall|segment: Segment| #[trigger] emulator_modulation_cycle(cpu, segment) == 2
    &&& forall|segment: Segment| #[trigger] emulator_modulation(cpu, segment) == seq![255u8, 255u8]
    &&& forall|segment: Segment, idx: usize|
        PATTERN_STRIDE * idx <= usize::MAX ==> #[trigger] emulator_drives(cpu, segment, idx)
            == silent_drives(gain_drive_count(emulator_transducer_count(cpu) as int, idx as int))
}

/// The emulator of one device (its CPU and FPGA).
#[verifier::external_type_specification]
#[verifier::external_body]
pub struct ExCPUEmulator(CPUEmulator);

/// The reply of one device: an acknowledgement and one byte of data.
#[verifier::external_type_specification]
#[verifier::external_body]
pub struct ExRxMessage(RxMessage);

/// The arrangement of devices and their transducers.
#[verifier::external_type_specification]
#[verifier::external_body]
pub struct ExGeometry(Geometry);

/// One device of a [`Geometry`]. Verus needs it declared because a geometry dereferences to
/// a list of them.
#[verifier::external_type_specification]
#[verifier::external_body]
pub struct ExDevice(Device);

/// One transducer of a [`Device`]. Verus needs it declared because a device dereferences to
/// a list of them.
#[verifier::external_type_specification]
#[verifier::external_body]
pub struct ExTransducer(Transducer);

/// What `CPUEmulator::idx` returns: the index the emulator was created with.
pub uninterp spec fn emulator_index(cpu: CPUEmulator) -> usize;

/// What `CPUEmulator::num_transducers` returns.
pub uninterp spec fn emulator_transducer_count(cpu: CPUEmulator) -> usize;

/// What `CPUEmulator::rx` returns: the device's reply, made of the acknowledgement of the
/// last message it handled and the data byte it reports.
pub uninterp spec fn emulator_reply(cpu: CPUEmulator) -> RxMessage;

/// What `FPGAEmulator::is_stm_gain_mode` returns for the emulator's FPGA: whether `segment`
/// holds a sequence of gains (and not one of foci).
pub uninterp spec fn emulator_gain_mode(cpu: CPUEmulator, segment: Segment) -> bool;

/// What `FPGAEmulator::drives` returns for the emulator's FPGA, each drive taken as its phase
/// and intensity bytes.
pub uninterp spec fn emulator_drives(cpu: CPUEmulator, segment: Segment, idx: usize) -> Seq<Drive>;

/// What `FPGAEmulator::modulation_cycle` returns for the emulator's FPGA: the length of the
/// modulation stored in `segment`.
pub uninterp spec fn emulator_modulation_cycle(cpu: CPUEmulator, segment: Segment) -> usize;

/// What `FPGAEmulator::modulation` returns for the emulator's FPGA.
pub uninterp spec fn emulator_modulation(cpu: CPUEmulator, segment: Segment) -> Seq<u8>;

/// What the devices of a geometry hold, each taken as its number of transducers
/// (`Device::num_transducers`), in the order `Geometry` iterates them.
pub uninterp spec fn geometry_transducer_counts(geometry: Geometry) -> Seq<usize>;

/// `CPUEmulator::new(id, num_transducers)`: the source stores both arguments, and `idx` and
/// `num_transducers` give them back. It then clears the emulated memory: the mode of both
/// segments is set to a sequence of gains, both drive memories start all zero (fresh
/// vectors, with the first pattern zeroed again by the clear), and both modulations are set
/// to a cycle of two steps held in one word `0xFFFF`.
#[verifier::external_body]
pub(crate) fn new_emulator(id: usize, num_transducers: usize) -> (cpu: CPUEmulator)
    ensures
        emulator_index(cpu) == id,
        emulator_transducer_count(cpu) == num_transducers,
        fresh_device(cpu),
{
    CPUEmulator::new(id, num_transducers)
}

/// `CPUEmulator::idx`.
#[verifier::external_body]
pub(crate) fn index_of(cpu: &CPUEmulator) -> (r: usize)
    ensures
        r == emulator_index(*cpu),
{
    cpu.idx()
}

/// `CPUEmulator::rx`.
#[verifier::external_body]
pub(crate) fn reply_of(cpu: &CPUEmulator) -> (r: RxMessage)
    ensures
        r == emulator_reply(*cpu),
{
    cpu.rx()
}

/// `FPGAEmulator::is_stm_gain_mode` of the emulator's FPGA.
#[verifier::external_body]
pub(crate) fn gain_mode_of(cpu: &CPUEmulator, segment: Segment) -> (r: bool)
    ensures
        r == emulator_gain_mode(*cpu, segment),
{
    let seg = match segment {
        Segment::S0 => FpgaSegment::S0,
        Segment::S1 => FpgaSegment::S1,
    };
    cpu.fpga().is_stm_gain_mode(seg)
}

/// `FPGAEmulator::drives` of the emulator's FPGA on a segment that holds a sequence of gains,
/// each drive converted to its two bytes. There the emulator reads `num_transducers` words
/// from `256 * idx` on in the drive memory (262144 words a segment), as far as the memory
/// goes; computing `256 * idx` must not overflow. (On a sequence of foci the emulator computes
/// the drives from stored focus data and can panic on what it stored; that path is not
/// admitted here.)
#[verifier::external_body]
pub(crate) fn drives_of(cpu: &CPUEmulator, segment: Segment, idx: usize) -> (r: Vec<Drive>)
    requires
        emulator_gain_mode(*cpu, segment),
        PATTERN_STRIDE * idx <= usize::MAX,
    ensures
        r@ == emulator_drives(*cpu, segment, idx),
        r@.len() == gain_drive_count(emulator_transducer_count(*cpu) as int, idx as int),
{
    let seg = match segment {
        Segment::S0 => FpgaSegment::S0,
        Segment::S1 => FpgaSegment::S1,
    };
    let mut r = Vec::new();
    for d in cpu.fpga().drives(seg, idx) {
        r.push(Drive { phase: d.phase().value(), intensity: d.intensity().value() });
    }
    r
}

/// `FPGAEmulator::modulation_cycle` of the emulator's FPGA.
#[verifier::external_body]
pub(crate) fn modulation_cycle_of(cpu: &CPUEmulator, segment: Segment) -> (r: usize)
    ensures
        r == emulator_modulation_cycle(*cpu, segment),
{
    let seg = match segment {
        Segment::S0 => FpgaSegment::S0,
        Segment::S1 => FpgaSegment::S1,
    };
    cpu.fpga().modulation_cycle(seg)
}

/// `FPGAEmulator::modulation` of the emulator's FPGA: one byte per step of the stored cycle,
/// read from the modulation memory (32768 bytes a segment), so the cycle must not be longer
/// than the memory.
#[verifier::external_body]
pub(crate) fn modulation_of(cpu: &CPUEmulator, segment: Segment) -> (r: Vec<u8>)
    requires
        emulator_modulation_cycle(*cpu, segment) <= MODULATION_MEMORY_BYTES,
    ensures
        r@ == emulator_modulation(*cpu, segment),
        r@.len() == emulator_modulation_cycle(*cpu, segment),
{
    let seg = match segment {
        Segment::S0 => FpgaSegment::S0,
        Segment::S1 => FpgaSegment::S1,
    };
    cpu.fpga().modulation(seg)
}

/// The devices of a geometry, each converted to its `Device::num_transducers`, in the order
/// `Geometry` iterates them.
#[verifier::external_body]
pub(crate) fn transducer_counts(geometry: &Geometry) -> (r: Vec<usize>)
    ensures
        r@ == geometry_transducer_counts(*geometry),
{
    let mut r = Vec::new();
    for dev in geometry.iter() {
        r.push(dev.num_transducers());
    }
    r
}

} // verus!
