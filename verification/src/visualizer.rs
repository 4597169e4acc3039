//! The link itself: a set of emulated devices that report back what they were told to output.
use vstd::prelude::*;

use autd3_driver::firmware::cpu::RxMessage;
use autd3_driver::geometry::Geometry;
use autd3_firmware_emulator::CPUEmulator;

use crate::backend::{Backend, NullBackend};
use crate::emulator::{
    drives_of, emulator_drives, emulator_gain_mode, emulator_index, emulator_modulation,
    emulator_modulation_cycle, emulator_reply, emulator_transducer_count, fresh_device,
    gain_drive_count, silent_drives, DRIVE_MEMORY_WORDS,
    gain_mode_of, geometry_transducer_counts, index_of, modulation_cycle_of, modulation_of,
    new_emulator, reply_of, transducer_counts, Drive, Segment, MODULATION_MEMORY_BYTES,
    PATTERN_STRIDE,
};
use crate::error::VisualizerError;

verus! {

/// Link that monitors the state of emulated AUTD devices.
///
/// Device `k` of the link is emulated by an emulator created with index `k`.
pub struct Visualizer {
    is_open: bool,
    timeout_ns: u64,
    cpus: Vec<CPUEmulator>,
}

/// Everything needed to open a [`Visualizer`].
pub struct VisualizerBuilder<B: Backend> {
    backend: B,
    timeout_ns: u64,
}

/// The drives of each device in turn, laid end to end.
pub open spec fn concat_drives(cpus: Seq<CPUEmulator>, segment: Segment, idx: usize) -> Seq<Drive>
    decreases cpus.len(),
{
    if cpus.len() == 0 {
        Seq::empty()
    } else {
        concat_drives(cpus.drop_last(), segment, idx) + emulator_drives(cpus.last(), segment, idx)
    }
}

/// The phase byte of each drive.
pub open spec fn phases_of(drives: Seq<Drive>) -> Seq<u8> {
    drives.map_values(|d: Drive| d.phase)
}

/// The intensity byte of each drive.
pub open spec fn intensities_of(drives: Seq<Drive>) -> Seq<u8> {
    drives.map_values(|d: Drive| d.intensity)
}

/// Emulator `k` has index `k`.
pub open spec fn indexed_in_order(cpus: Seq<CPUEmulator>) -> bool {
    forall|k: int| 0 <= k < cpus.len() ==> emulator_index(#[trigger] cpus[k]) == k
}

/// The emulators hold the given transducer counts, emulator `k` with index `k`.
pub open spec fn emulates(cpus: Seq<CPUEmulator>, counts: Seq<usize>) -> bool {
    &&& cpus.len() == counts.len()
    &&& indexed_in_order(cpus)
    &&& forall|k: int| 0 <= k < cpus.len() ==> emulator_transducer_count(#[trigger] cpus[k]) == counts[k]
}

/// The replies of the emulators, reply `k` at position `k`, then the untouched rest.
pub open spec fn replies_written(
    cpus: Seq<CPUEmulator>,
    before: Seq<RxMessage>,
    after: Seq<RxMessage>,
) -> bool {
    &&& after.len() == before.len()
    &&& forall|k: int| 0 <= k < cpus.len() ==> #[trigger] after[k] == emulator_reply(cpus[k])
    &&& forall|k: int| cpus.len() <= k < after.len() ==> #[trigger] after[k] == before[k]
}

/// The drives of pattern `idx` of `segment` can be read from every device: each device holds
/// a sequence of gains there, and the pattern's offset in the drive memory is a machine word.
pub open spec fn drives_in_reach(cpus: Seq<CPUEmulator>, segment: Segment, idx: usize) -> bool {
    &&& PATTERN_STRIDE * idx <= usize::MAX
    &&& forall|k: int| 0 <= k < cpus.len() ==> emulator_gain_mode(#[trigger] cpus[k], segment)
}

/// The modulation of `segment` can be read from the first device: there is one, and its
/// stored cycle fits in the modulation memory.
pub open spec fn modulation_in_reach(cpus: Seq<CPUEmulator>, segment: Segment) -> bool {
    &&& cpus.len() > 0
    &&& emulator_modulation_cycle(cpus[0], segment) <= MODULATION_MEMORY_BYTES
}

/// Every device is as it comes up (see [`fresh_device`]).
pub open spec fn all_fresh(cpus: Seq<CPUEmulator>) -> bool {
    forall|k: int| 0 <= k < cpus.len() ==> fresh_device(#[trigger] cpus[k])
}

/// How many drives the devices read for pattern `idx` of a sequence of gains, all together.
pub open spec fn drive_total(cpus: Seq<CPUEmulator>, idx: usize) -> int
    decreases cpus.len(),
{
    if cpus.len() == 0 {
        0
    } else {
        drive_total(cpus.drop_last(), idx) + gain_drive_count(
            emulator_transducer_count(cpus.last()) as int,
            idx as int,
        )
    }
}

/// The number of transducers of all devices together.
pub open spec fn transducer_total(cpus: Seq<CPUEmulator>) -> int
    decreases cpus.len(),
{
    if cpus.len() == 0 {
        0
    } else {
        transducer_total(cpus.drop_last()) + emulator_transducer_count(cpus.last())
    }
}

/// What a read needs, and nothing else: the drives of a pattern can be read exactly when its
/// offset `256 * idx` is a machine word and every device holds a sequence of gains in the
/// segment (whatever modulation is stored); the modulation can be read exactly when there is
/// a device and the first device's stored cycle fits in the modulation memory.
pub proof fn lemma_read_conditions(cpus: Seq<CPUEmulator>, segment: Segment, idx: usize)
    ensures
        drives_in_reach(cpus, segment, idx) <==> (PATTERN_STRIDE * idx <= usize::MAX && forall|
            k: int,
        | 0 <= k < cpus.len() ==> emulator_gain_mode(#[trigger] cpus[k], segment)),
        modulation_in_reach(cpus, segment) <==> (cpus.len() > 0 && emulator_modulation_cycle(
            cpus[0],
            segment,
        ) <= MODULATION_MEMORY_BYTES),
{
}

/// A step that leaves the link as open or closed as it was, with the same timeout.
pub open spec fn keeps_link(before: Visualizer, after: Visualizer) -> bool {
    &&& after.open_state() == before.open_state()
    &&& after.timeout_spec() == before.timeout_spec()
}

/// A step that closes the link and keeps its timeout.
pub open spec fn closes_link(before: Visualizer, after: Visualizer) -> bool {
    &&& !after.open_state()
    &&& after.timeout_spec() == before.timeout_spec()
}

impl Visualizer {
    #[verifier::type_invariant]
    spec fn well_formed(self) -> bool {
        indexed_in_order(self.cpus@)
    }

    /// The emulated devices, in order.
    pub closed spec fn devices(self) -> Seq<CPUEmulator> {
        self.cpus@
    }

    /// Whether the link is open.
    pub closed spec fn open_state(self) -> bool {
        self.is_open
    }

    /// The timeout of the link, in nanoseconds.
    pub closed spec fn timeout_spec(self) -> u64 {
        self.timeout_ns
    }

    /// A builder whose backend is a fresh `B` and whose timeout is zero.
    pub fn builder<B: Backend>() -> (r: VisualizerBuilder<B>)
        ensures
            r.timeout_spec() == 0,
            call_ensures(B::new, (), r.backend_spec()),
    {
        VisualizerBuilder { backend: B::new(), timeout_ns: 0 }
    }

    /// A builder with the backend that draws nothing, and a timeout of zero.
    pub fn null() -> (r: VisualizerBuilder<NullBackend>)
        ensures
            r.timeout_spec() == 0,
            call_ensures(NullBackend::new, (), r.backend_spec()),
    {
        VisualizerBuilder { backend: NullBackend::new(), timeout_ns: 0 }
    }

    /// An open link with one emulated device per entry of `transducer_counts`: device `k` is
    /// emulated with index `k` and `transducer_counts[k]` transducers.
    pub fn new(transducer_counts: &Vec<usize>, timeout_ns: u64) -> (r: Visualizer)
        ensures
            r.open_state(),
            r.timeout_spec() == timeout_ns,
            emulates(r.devices(), transducer_counts@),
            all_fresh(r.devices()),
            r.devices().len() == transducer_counts@.len(),
            forall|k: int|
                0 <= k < r.devices().len() ==> {
                    &&& emulator_index(#[trigger] r.devices()[k]) == k
                    &&& emulator_transducer_count(r.devices()[k]) == transducer_counts@[k]
                    &&& fresh_device(r.devices()[k])
                },
    {
        let n = transducer_counts.len();
        let mut cpus: Vec<CPUEmulator> = Vec::new();
        let mut i: usize = 0;
        while i < n
            invariant
                n == transducer_counts@.len(),
                i <= n,
                emulates(cpus@, transducer_counts@.take(i as int)),
                all_fresh(cpus@),
            decreases n - i,
        {
            cpus.push(new_emulator(i, transducer_counts[i]));
            i = i + 1;
        }
        assert(transducer_counts@.take(n as int) =~= transducer_counts@);
        Visualizer { is_open: true, timeout_ns, cpus }
    }

    /// Opens the link on `geometry` once the backend has been initialized: a failed
    /// initialization is passed on; otherwise the link emulates one device per device of the
    /// geometry, with its number of transducers, and has the given timeout.
    pub fn after_initialize(
        initialized: Result<(), VisualizerError>,
        geometry: &Geometry,
        timeout_ns: u64,
    ) -> (r: Result<Visualizer, VisualizerError>)
        ensures
            initialized matches Err(e) ==> r == Err::<Visualizer, VisualizerError>(e),
            initialized is Ok ==> (r matches Ok(v) && {
                &&& v.open_state()
                &&& v.timeout_spec() == timeout_ns
                &&& emulates(v.devices(), geometry_transducer_counts(*geometry))
                &&& all_fresh(v.devices())
            }),
    {
        match initialized {
            Ok(()) => {},
            Err(e) => {
                return Err(e);
            },
        }
        let counts = transducer_counts(geometry);
        Ok(Visualizer::new(&counts, timeout_ns))
    }

    /// Whether the link is open.
    pub fn is_open(&self) -> (r: bool)
        ensures
            r == self.open_state(),
    {
        self.is_open
    }

    /// The timeout of the link, in nanoseconds.
    pub fn timeout(&self) -> (r: u64)
        ensures
            r == self.timeout_spec(),
    {
        self.timeout_ns
    }

    /// The number of emulated devices; device `k` is always emulated with index `k`.
    pub fn num_devices(&self) -> (r: usize)
        ensures
            r == self.devices().len(),
            indexed_in_order(self.devices()),
    {
        proof {
            use_type_invariant(self);
        }
        self.cpus.len()
    }

    /// The emulated devices, in order, to be read.
    pub fn emulators(&self) -> (r: &Vec<CPUEmulator>)
        ensures
            r@ == self.devices(),
            indexed_in_order(r@),
    {
        proof {
            use_type_invariant(self);
        }
        &self.cpus
    }

    /// Closes the link. The devices are kept; closing twice is the same as once.
    pub fn close(&mut self)
        ensures
            closes_link(*old(self), *final(self)),
            !final(self).open_state(),
            final(self).timeout_spec() == old(self).timeout_spec(),
            !old(self).open_state() ==> *final(self) == *old(self),
            final(self).devices() == old(self).devices(),
    {
        proof {
            use_type_invariant(&*self);
        }
        if !self.is_open {
            return ;
        }
        self.is_open = false;
    }

    /// Hands the emulated devices out, in order, so that each can handle what the host sends
    /// or advance its clock; the link holds none until they are given back.
    pub fn take_devices(&mut self) -> (r: Vec<CPUEmulator>)
        ensures
            r@ == old(self).devices(),
            indexed_in_order(r@),
            final(self).devices() == Seq::<CPUEmulator>::empty(),
            keeps_link(*old(self), *final(self)),
    {
        proof {
            use_type_invariant(&*self);
        }
        let mut cpus: Vec<CPUEmulator> = Vec::new();
        std::mem::swap(&mut cpus, &mut self.cpus);
        cpus
    }

    /// Takes `cpus` as the link's devices if emulator `k` of them has index `k` for every `k`;
    /// otherwise hands them back and leaves the link as it was.
    pub fn restore_devices(&mut self, cpus: Vec<CPUEmulator>) -> (r: Result<(), Vec<CPUEmulator>>)
        ensures
            keeps_link(*old(self), *final(self)),
            r is Ok <==> indexed_in_order(cpus@),
            r is Ok ==> final(self).devices() == cpus@,
            r matches Err(back) ==> back@ == cpus@ && *final(self) == *old(self),
    {
        let n = cpus.len();
        let mut k: usize = 0;
        while k < n
            invariant
                n == cpus@.len(),
                k <= n,
                forall|j: int| 0 <= j < k ==> emulator_index(#[trigger] cpus@[j]) == j,
            decreases n - k,
        {
            if index_of(&cpus[k]) != k {
                return Err(cpus);
            }
            k = k + 1;
        }
        self.cpus = cpus;
        Ok(())
    }

    /// Writes the reply of every device to `rx` at the device's position, leaving the rest of
    /// `rx` as it was, and answers `true`; on a closed link writes nothing and answers `false`.
    /// The replies are what the devices report now; letting them refresh their state first is
    /// up to the caller (see [`Visualizer::take_devices`]).
    pub fn receive(&self, rx: &mut Vec<RxMessage>) -> (r: bool)
        requires
            self.open_state() ==> self.devices().len() <= old(rx)@.len(),
        ensures
            r == self.open_state(),
            !r ==> final(rx)@ == old(rx)@,
            r ==> replies_written(self.devices(), old(rx)@, final(rx)@),
            final(rx)@.len() == old(rx)@.len(),
            r ==> forall|k: int|
                0 <= k < self.devices().len() ==> #[trigger] final(rx)@[k] == emulator_reply(
                    self.devices()[k],
                ),
            forall|k: int|
                self.devices().len() <= k < old(rx)@.len() ==> #[trigger] final(rx)@[k] == old(
                    rx,
                )@[k],
    {
        proof {
            use_type_invariant(self);
        }
        if !self.is_open {
            return false;
        }
        let ghost rx_before = rx@;
        let n = self.cpus.len();
        let mut k: usize = 0;
        while k < n
            invariant
                n == self.cpus@.len(),
                k <= n,
                n <= rx@.len(),
                rx@.len() == rx_before.len(),
                indexed_in_order(self.cpus@),
                forall|j: int| 0 <= j < k ==> #[trigger] rx@[j] == emulator_reply(self.cpus@[j]),
                forall|j: int| k <= j < rx@.len() ==> #[trigger] rx@[j] == rx_before[j],
            decreases n - k,
        {
            let idx = index_of(&self.cpus[k]);
            let msg = reply_of(&self.cpus[k]);
            rx.set(idx, msg);
            k = k + 1;
        }
        true
    }

    /// Whether every device holds a sequence of gains in `segment`.
    fn gain_mode_everywhere(&self, segment: Segment) -> (r: bool)
        ensures
            r == forall|k: int|
                0 <= k < self.devices().len() ==> emulator_gain_mode(#[trigger] self.devices()[k], segment),
    {
        let n = self.cpus.len();
        let mut k: usize = 0;
        while k < n
            invariant
                n == self.cpus@.len(),
                k <= n,
                forall|j: int| 0 <= j < k ==> emulator_gain_mode(#[trigger] self.cpus@[j], segment),
            decreases n - k,
        {
            if !gain_mode_of(&self.cpus[k], segment) {
                assert(!emulator_gain_mode(self.devices()[k as int], segment));
                return false;
            }
            k = k + 1;
        }
        true
    }

    /// Whether the drives of pattern `idx` of `segment` can be read from every device.
    fn drives_readable(&self, segment: Segment, idx: usize) -> (r: bool)
        ensures
            r == drives_in_reach(self.devices(), segment, idx),
    {
        idx <= usize::MAX / PATTERN_STRIDE && self.gain_mode_everywhere(segment)
    }

    /// The drives that each device holds for `segment` at pattern `idx` of its sequence of
    /// gains (0 for a single gain), one list per device.
    pub fn drives(&self, segment: Segment, idx: usize) -> (r: Vec<Vec<Drive>>)
        requires
            drives_in_reach(self.devices(), segment, idx),
        ensures
            r@.len() == self.devices().len(),
            forall|k: int|
                0 <= k < r@.len() ==> {
                    &&& (#[trigger] r@[k])@ == emulator_drives(self.devices()[k], segment, idx)
                    &&& r@[k]@.len() == gain_drive_count(
                        emulator_transducer_count(self.devices()[k]) as int,
                        idx as int,
                    )
                },
    {
        let n = self.cpus.len();
        let mut r: Vec<Vec<Drive>> = Vec::new();
        let mut k: usize = 0;
        while k < n
            invariant
                n == self.cpus@.len(),
                k <= n,
                drives_in_reach(self.cpus@, segment, idx),
                r@.len() == k,
                forall|j: int|
                    0 <= j < k ==> {
                        &&& (#[trigger] r@[j])@ == emulator_drives(self.cpus@[j], segment, idx)
                        &&& r@[j]@.len() == gain_drive_count(
                            emulator_transducer_count(self.cpus@[j]) as int,
                            idx as int,
                        )
                    },
            decreases n - k,
        {
            r.push(drives_of(&self.cpus[k], segment, idx));
            k = k + 1;
        }
        r
    }

    /// The phases of all transducers of all devices, device after device.
    pub fn phases(&self, segment: Segment, idx: usize) -> (r: Vec<u8>)
        requires
            drives_in_reach(self.devices(), segment, idx),
        ensures
            r@ == phases_of(concat_drives(self.devices(), segment, idx)),
    {
        let lists = self.drives(segment, idx);
        proof {
            lemma_per_device_drives(self.devices(), list_views(lists@), segment, idx);
        }
        concat_phases(&lists)
    }

    /// The intensities of all transducers of all devices, device after device.
    pub fn intensities(&self, segment: Segment, idx: usize) -> (r: Vec<u8>)
        requires
            drives_in_reach(self.devices(), segment, idx),
        ensures
            r@ == intensities_of(concat_drives(self.devices(), segment, idx)),
    {
        let lists = self.drives(segment, idx);
        proof {
            lemma_per_device_drives(self.devices(), list_views(lists@), segment, idx);
        }
        concat_intensities(&lists)
    }

    /// The raw modulation data of `segment`, as held by the first device.
    pub fn modulation(&self, segment: Segment) -> (r: Vec<u8>)
        requires
            modulation_in_reach(self.devices(), segment),
        ensures
            r@ == emulator_modulation(self.devices()[0], segment),
            r@.len() == emulator_modulation_cycle(self.devices()[0], segment),
    {
        modulation_of(&self.cpus[0], segment)
    }

    /// [`Visualizer::drives`] where the drives can be read from every device, `None` where
    /// they cannot.
    pub fn try_drives(&self, segment: Segment, idx: usize) -> (r: Option<Vec<Vec<Drive>>>)
        ensures
            r is Some <==> drives_in_reach(self.devices(), segment, idx),
            r is Some <==> (PATTERN_STRIDE * idx <= usize::MAX && forall|k: int|
                0 <= k < self.devices().len() ==> emulator_gain_mode(
                    #[trigger] self.devices()[k],
                    segment,
                )),
            r matches Some(v) ==> {
                &&& v@.len() == self.devices().len()
                &&& forall|k: int|
                    0 <= k < v@.len() ==> (#[trigger] v@[k])@ == emulator_drives(
                        self.devices()[k],
                        segment,
                        idx,
                    )
            },
    {
        if self.drives_readable(segment, idx) {
            Some(self.drives(segment, idx))
        } else {
            None
        }
    }

    /// [`Visualizer::phases`] where the drives can be read from every device, `None` where
    /// they cannot.
    pub fn try_phases(&self, segment: Segment, idx: usize) -> (r: Option<Vec<u8>>)
        ensures
            r is Some <==> drives_in_reach(self.devices(), segment, idx),
            r is Some <==> (PATTERN_STRIDE * idx <= usize::MAX && forall|k: int|
                0 <= k < self.devices().len() ==> emulator_gain_mode(
                    #[trigger] self.devices()[k],
                    segment,
                )),
            r matches Some(v) ==> v@ == phases_of(concat_drives(self.devices(), segment, idx)),
    {
        if self.drives_readable(segment, idx) {
            Some(self.phases(segment, idx))
        } else {
            None
        }
    }

    /// [`Visualizer::intensities`] where the drives can be read from every device, `None`
    /// where they cannot.
    pub fn try_intensities(&self, segment: Segment, idx: usize) -> (r: Option<Vec<u8>>)
        ensures
            r is Some <==> drives_in_reach(self.devices(), segment, idx),
            r is Some <==> (PATTERN_STRIDE * idx <= usize::MAX && forall|k: int|
                0 <= k < self.devices().len() ==> emulator_gain_mode(
                    #[trigger] self.devices()[k],
                    segment,
                )),
            r matches Some(v) ==> v@ == intensities_of(concat_drives(self.devices(), segment, idx)),
    {
        if self.drives_readable(segment, idx) {
            Some(self.intensities(segment, idx))
        } else {
            None
        }
    }

    /// [`Visualizer::modulation`] where the first device's modulation can be read, `None`
    /// where it cannot.
    pub fn try_modulation(&self, segment: Segment) -> (r: Option<Vec<u8>>)
        ensures
            r is Some <==> modulation_in_reach(self.devices(), segment),
            r is Some <==> (self.devices().len() > 0 && emulator_modulation_cycle(
                self.devices()[0],
                segment,
            ) <= MODULATION_MEMORY_BYTES),
            r matches Some(v) ==> v@ == emulator_modulation(self.devices()[0], segment),
    {
        if self.cpus.len() > 0 && modulation_cycle_of(&self.cpus[0], segment)
            <= MODULATION_MEMORY_BYTES {
            Some(self.modulation(segment))
        } else {
            None
        }
    }
}

/// Per-device lists of drives, laid end to end.
pub open spec fn concat_lists(lists: Seq<Seq<Drive>>) -> Seq<Drive>
    decreases lists.len(),
{
    if lists.len() == 0 {
        Seq::empty()
    } else {
        concat_lists(lists.drop_last()) + lists.last()
    }
}

/// The contents of each list.
pub open spec fn list_views(lists: Seq<Vec<Drive>>) -> Seq<Seq<Drive>> {
    lists.map_values(|l: Vec<Drive>| l@)
}

/// Per-device lists of drives laid end to end, device after device.
pub fn concat_drive_lists(lists: &Vec<Vec<Drive>>) -> (r: Vec<Drive>)
    ensures
        r@ == concat_lists(list_views(lists@)),
{
    let n = lists.len();
    let mut r: Vec<Drive> = Vec::new();
    let mut k: usize = 0;
    while k < n
        invariant
            n == lists@.len(),
            k <= n,
            r@ == concat_lists(list_views(lists@).take(k as int)),
        decreases n - k,
    {
        let ghost before = r@;
        let m = lists[k].len();
        let mut j: usize = 0;
        while j < m
            invariant
                n == lists@.len(),
                k < n,
                m == lists@[k as int]@.len(),
                j <= m,
                r@ == before + lists@[k as int]@.take(j as int),
            decreases m - j,
        {
            r.push(lists[k][j]);
            j = j + 1;
            proof {
                assert(lists@[k as int]@.take(j as int) =~= lists@[k as int]@.take(j - 1).push(
                    lists@[k as int]@[j - 1],
                ));
            }
        }
        proof {
            assert(lists@[k as int]@.take(m as int) =~= lists@[k as int]@);
            assert(list_views(lists@).take(k + 1).drop_last() =~= list_views(lists@).take(k as int));
        }
        k = k + 1;
    }
    proof {
        assert(list_views(lists@).take(n as int) =~= list_views(lists@));
    }
    r
}

/// The phases of per-device lists of drives, device after device: entry `j` is the phase of
/// drive `j` of the lists laid end to end.
pub fn concat_phases(lists: &Vec<Vec<Drive>>) -> (r: Vec<u8>)
    ensures
        r@ == phases_of(concat_lists(list_views(lists@))),
{
    let d = concat_drive_lists(lists);
    let m = d.len();
    let mut r: Vec<u8> = Vec::new();
    let mut j: usize = 0;
    while j < m
        invariant
            m == d@.len(),
            j <= m,
            r@ =~= phases_of(d@.take(j as int)),
        decreases m - j,
    {
        r.push(d[j].phase);
        j = j + 1;
    }
    assert(d@.take(m as int) =~= d@);
    r
}

/// The intensities of per-device lists of drives, device after device: entry `j` is the
/// intensity of drive `j` of the lists laid end to end.
pub fn concat_intensities(lists: &Vec<Vec<Drive>>) -> (r: Vec<u8>)
    ensures
        r@ == intensities_of(concat_lists(list_views(lists@))),
{
    let d = concat_drive_lists(lists);
    let m = d.len();
    let mut r: Vec<u8> = Vec::new();
    let mut j: usize = 0;
    while j < m
        invariant
            m == d@.len(),
            j <= m,
            r@ =~= intensities_of(d@.take(j as int)),
        decreases m - j,
    {
        r.push(d[j].intensity);
        j = j + 1;
    }
    assert(d@.take(m as int) =~= d@);
    r
}

/// Phases and intensities describe the same transducers in the same order: entry `j` of the
/// phases and entry `j` of the intensities are the phase and the intensity of drive `j`.
pub proof fn lemma_phases_intensities_align(cpus: Seq<CPUEmulator>, segment: Segment, idx: usize)
    ensures
        ({
            let drives = concat_drives(cpus, segment, idx);
            &&& phases_of(drives).len() == drives.len()
            &&& intensities_of(drives).len() == drives.len()
            &&& forall|j: int|
                0 <= j < drives.len() ==> (Drive {
                    phase: #[trigger] phases_of(drives)[j],
                    intensity: intensities_of(drives)[j],
                }) == drives[j]
        }),
{
}

/// The per-device drives, laid end to end, are the drives that the phases and intensities
/// list: device after device, each in its own order.
pub proof fn lemma_per_device_drives(cpus: Seq<CPUEmulator>, lists: Seq<Seq<Drive>>, segment: Segment, idx: usize)
    requires
        lists.len() == cpus.len(),
        forall|k: int| 0 <= k < cpus.len() ==> #[trigger] lists[k] == emulator_drives(cpus[k], segment, idx),
    ensures
        concat_lists(lists) == concat_drives(cpus, segment, idx),
    decreases cpus.len(),
{
    if cpus.len() > 0 {
        lemma_per_device_drives(cpus.drop_last(), lists.drop_last(), segment, idx);
        assert(lists.last() == emulator_drives(cpus.last(), segment, idx));
    }
}

/// A freshly opened link reads silence: on every segment and every pattern whose offset is
/// a machine word, the drives of all devices can be read, and laid end to end they are
/// `drive_total` drives of phase 0 and intensity 0. For the first pattern, on devices that
/// fit in the drive memory, that is one drive per transducer.
pub proof fn lemma_fresh_link_reads_silence(cpus: Seq<CPUEmulator>, segment: Segment, idx: usize)
    requires
        all_fresh(cpus),
        PATTERN_STRIDE * idx <= usize::MAX,
    ensures
        drives_in_reach(cpus, segment, idx),
        concat_drives(cpus, segment, idx) == silent_drives(drive_total(cpus, idx)),
        idx == 0 && (forall|k: int|
            0 <= k < cpus.len() ==> emulator_transducer_count(#[trigger] cpus[k])
                <= DRIVE_MEMORY_WORDS) ==> drive_total(cpus, idx) == transducer_total(cpus),
    decreases cpus.len(),
{
    if cpus.len() > 0 {
        let prev = cpus.drop_last();
        assert forall|k: int| 0 <= k < prev.len() implies fresh_device(#[trigger] prev[k]) by {
            assert(prev[k] == cpus[k]);
        }
        lemma_fresh_link_reads_silence(prev, segment, idx);
        let last = cpus.last();
        assert(fresh_device(cpus[cpus.len() - 1]));
        assert(emulator_drives(last, segment, idx) == silent_drives(
            gain_drive_count(emulator_transducer_count(last) as int, idx as int),
        ));
        let a = drive_total(prev, idx);
        let b = gain_drive_count(emulator_transducer_count(last) as int, idx as int);
        assert(a >= 0 && b >= 0) by {
            lemma_drive_total_nonnegative(prev, idx);
        }
        assert(silent_drives(a) + silent_drives(b) =~= silent_drives(a + b));
        assert(emulator_gain_mode(last, segment));
        if idx == 0 && (forall|k: int|
            0 <= k < cpus.len() ==> emulator_transducer_count(#[trigger] cpus[k])
                <= DRIVE_MEMORY_WORDS) {
            assert forall|k: int| 0 <= k < prev.len() implies emulator_transducer_count(
                #[trigger] prev[k],
            ) <= DRIVE_MEMORY_WORDS by {
                assert(prev[k] == cpus[k]);
            }
            assert(emulator_transducer_count(cpus[cpus.len() - 1]) <= DRIVE_MEMORY_WORDS);
        }
    }
}

/// A total of drive counts is never negative.
proof fn lemma_drive_total_nonnegative(cpus: Seq<CPUEmulator>, idx: usize)
    ensures
        drive_total(cpus, idx) >= 0,
    decreases cpus.len(),
{
    if cpus.len() > 0 {
        lemma_drive_total_nonnegative(cpus.drop_last(), idx);
    }
}

/// The drives of a run of devices are those of all but the last, then those of the last:
/// device after device, each in its own order, and nothing for no device.
pub proof fn lemma_concat_device_after_device(
    cpus: Seq<CPUEmulator>,
    cpu: CPUEmulator,
    segment: Segment,
    idx: usize,
)
    ensures
        concat_drives(Seq::<CPUEmulator>::empty(), segment, idx) == Seq::<Drive>::empty(),
        concat_drives(cpus.push(cpu), segment, idx) == concat_drives(cpus, segment, idx)
            + emulator_drives(cpu, segment, idx),
        concat_lists(Seq::<Seq<Drive>>::empty()) == Seq::<Drive>::empty(),
        forall|l: Seq<Seq<Drive>>, d: Seq<Drive>| #[trigger] concat_lists(l.push(d)) == concat_lists(l) + d,
{
    assert(cpus.push(cpu).drop_last() =~= cpus);
    assert forall|l: Seq<Seq<Drive>>, d: Seq<Drive>| #[trigger] concat_lists(l.push(d))
        == concat_lists(l) + d by {
        assert(l.push(d).drop_last() =~= l);
    }
}

/// What the link's relations on devices, replies and steps mean, spelled out.
pub proof fn lemma_link_relations(
    cpus: Seq<CPUEmulator>,
    counts: Seq<usize>,
    before: Seq<RxMessage>,
    after: Seq<RxMessage>,
    a: Visualizer,
    b: Visualizer,
)
    ensures
        indexed_in_order(cpus) <==> forall|k: int| 0 <= k < cpus.len() ==> emulator_index(#[trigger] cpus[k]) == k,
        emulates(cpus, counts) <==> (cpus.len() == counts.len() && forall|k: int|
            0 <= k < cpus.len() ==> emulator_index(#[trigger] cpus[k]) == k
                && emulator_transducer_count(cpus[k]) == counts[k]),
        replies_written(cpus, before, after) <==> (after.len() == before.len() && (forall|k: int|
            0 <= k < cpus.len() ==> #[trigger] after[k] == emulator_reply(cpus[k])) && (forall|
            k: int,
        | cpus.len() <= k < after.len() ==> #[trigger] after[k] == before[k])),
        keeps_link(a, b) <==> (b.open_state() == a.open_state() && b.timeout_spec()
            == a.timeout_spec()),
        closes_link(a, b) <==> (!b.open_state() && b.timeout_spec() == a.timeout_spec()),
{
}

/// A link is open until it is closed, and keeps its timeout whatever happens to it: after a
/// run of steps that each either keep the link (`closes[i]` false) or close it (`closes[i]`
/// true), the link is open exactly when it was open at the start and no step closed it, and
/// its timeout is the one it started with.
pub proof fn lemma_open_until_closed(states: Seq<Visualizer>, closes: Seq<bool>)
    requires
        states.len() == closes.len() + 1,
        forall|i: int|
            0 <= i < closes.len() ==> if #[trigger] closes[i] {
                closes_link(states[i], states[i + 1])
            } else {
                keeps_link(states[i], states[i + 1])
            },
    ensures
        states.last().open_state() == (states[0].open_state() && forall|i: int|
            0 <= i < closes.len() ==> !#[trigger] closes[i]),
        states.last().timeout_spec() == states[0].timeout_spec(),
    decreases closes.len(),
{
    if closes.len() > 0 {
        let n = closes.len() - 1;
        let prev = states.drop_last();
        let prev_closes = closes.drop_last();
        assert forall|i: int| 0 <= i < prev_closes.len() implies if #[trigger] prev_closes[i] {
            closes_link(prev[i], prev[i + 1])
        } else {
            keeps_link(prev[i], prev[i + 1])
        } by {
            assert(prev_closes[i] == closes[i]);
        }
        lemma_open_until_closed(prev, prev_closes);
        assert(prev.last() == states[n]);
        assert(prev[0] == states[0]);
        if !closes[n] {
            if forall|i: int| 0 <= i < prev_closes.len() ==> !#[trigger] prev_closes[i] {
                assert forall|i: int| 0 <= i < closes.len() implies !#[trigger] closes[i] by {
                    if i < n {
                        assert(prev_closes[i] == closes[i]);
                    }
                }
            }
            if forall|i: int| 0 <= i < closes.len() ==> !#[trigger] closes[i] {
                assert forall|i: int| 0 <= i < prev_closes.len() implies !#[trigger] prev_closes[i] by {
                    assert(prev_closes[i] == closes[i]);
                }
            }
        }
    }
}

impl<B: Backend> VisualizerBuilder<B> {
    /// The timeout the link will have, in nanoseconds.
    pub closed spec fn timeout_spec(self) -> u64 {
        self.timeout_ns
    }

    /// The backend the link will prepare when it opens.
    pub closed spec fn backend_spec(self) -> B {
        self.backend
    }

    /// The same builder with a fresh backend of another kind, not yet prepared (the old one
    /// is dropped unprepared).
    pub fn with_backend<U: Backend>(self) -> (r: VisualizerBuilder<U>)
        ensures
            r.timeout_spec() == self.timeout_spec(),
            call_ensures(U::new, (), r.backend_spec()),
    {
        VisualizerBuilder { backend: U::new(), timeout_ns: self.timeout_ns }
    }

    /// Opens the link on `geometry`: initializes the backend, whose error is passed on, then
    /// emulates one device per device of the geometry, with its number of transducers.
    pub fn open(self, geometry: &Geometry) -> (r: Result<Visualizer, VisualizerError>)
        ensures
            B::initializes_infallibly() ==> r is Ok,
            exists|prepared: Result<(), VisualizerError>|
                {
                    &&& #[trigger] B::may_prepare(self.backend_spec(), prepared)
                    &&& prepared matches Err(e) ==> r == Err::<Visualizer, VisualizerError>(e)
                    &&& prepared is Ok ==> r is Ok
                },
            r matches Ok(v) ==> {
                &&& v.open_state()
                &&& v.timeout_spec() == self.timeout_spec()
                &&& emulates(v.devices(), geometry_transducer_counts(*geometry))
                &&& all_fresh(v.devices())
            },
    {
        let ghost spec_backend = self.backend_spec();
        let VisualizerBuilder { mut backend, timeout_ns } = self;
        assert(backend == spec_backend);
        let initialized = backend.initialize();
        let r = Visualizer::after_initialize(initialized, geometry, timeout_ns);
        assert(B::may_prepare(spec_backend, initialized));
        assert(initialized matches Err(e) ==> r == Err::<Visualizer, VisualizerError>(e));
        assert(initialized is Ok ==> r is Ok);
        r
    }
}

} // verus!
