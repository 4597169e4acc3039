use autd3_driver::autd3_device::AUTD3;
use autd3_driver::datagram::{
    Datagram as DriverDatagram, FociSTM, Gain, GainCalcResult, GainSTM, ReadsFPGAState,
};
use autd3_driver::defined::Hz;
use autd3_driver::firmware::cpu::{RxMessage, TxDatagram};
use autd3_driver::firmware::fpga::{Drive as FpgaDrive, EmitIntensity, Phase};
use autd3_driver::firmware::operation::OperationHandler;
use autd3_driver::geometry::{Geometry, IntoDevice, Transducer, Vector3};
use autd3_firmware_emulator::CPUEmulator;
use autd3_link_visualizer::{Backend, Drive, NullBackend, Segment, Visualizer, VisualizerError};

fn geometry(n: usize) -> Geometry {
    Geometry::new(
        (0..n)
            .map(|i| AUTD3::new(Vector3::new(192.0 * i as f32, 0.0, 0.0)).into_device(i))
            .collect(),
    )
}

fn frames(geometry: &Geometry, d: impl DriverDatagram) -> Vec<TxDatagram> {
    let generator = d.operation_generator(geometry).unwrap();
    let mut ops = OperationHandler::generate(generator, geometry);
    let mut tx = TxDatagram::new(geometry.num_devices());
    let mut out = Vec::new();
    while !OperationHandler::is_done(&ops) {
        OperationHandler::pack(&mut ops, geometry, &mut tx, usize::MAX).unwrap();
        out.push(tx.clone());
    }
    out
}

fn reference(geometry: &Geometry) -> Vec<CPUEmulator> {
    geometry
        .iter()
        .enumerate()
        .map(|(i, dev)| CPUEmulator::new(i, dev.num_transducers()))
        .collect()
}

/// Hands `tx` to every device of an open link, as the application layer does.
fn send(vis: &mut Visualizer, tx: &TxDatagram) -> bool {
    if !vis.is_open() {
        return false;
    }
    let mut cpus = vis.take_devices();
    cpus.iter_mut().for_each(|cpu| cpu.send(tx));
    assert!(vis.restore_devices(cpus).is_ok());
    true
}

/// Lets every device of an open link advance its clock, as the application layer does.
fn refresh(vis: &mut Visualizer) {
    if !vis.is_open() {
        return;
    }
    let mut cpus = vis.take_devices();
    cpus.iter_mut().for_each(|cpu| cpu.update());
    assert!(vis.restore_devices(cpus).is_ok());
}

/// Phase `base + device + transducer`, intensity `level`, on every transducer.
#[derive(Clone)]
struct Ramp {
    base: u8,
    level: u8,
}

impl Gain for Ramp {
    fn calc<'a>(&'a self, _geometry: &Geometry) -> GainCalcResult<'a> {
        let base = self.base;
        let level = self.level;
        Ok(Self::transform(move |dev| {
            let offset = dev.idx() as u8;
            move |tr: &Transducer| {
                FpgaDrive::new(
                    Phase::new(base.wrapping_add(offset).wrapping_add(tr.idx() as u8)),
                    EmitIntensity::new(level),
                )
            }
        }))
    }
}

fn ramp_frames(geometry: &Geometry, base: u8, level: u8) -> Vec<TxDatagram> {
    let g: Box<dyn Gain + Send + Sync> = Box::new(Ramp { base, level });
    frames(geometry, g)
}

fn focus_frames(geometry: &Geometry) -> Vec<TxDatagram> {
    let stm = FociSTM::<1>::new(
        1.0 * Hz,
        [Vector3::new(90.0, 70.0, 150.0), Vector3::new(100.0, 60.0, 120.0)],
    )
    .unwrap();
    frames(geometry, stm)
}

fn expected_drives(cpus: &[CPUEmulator], idx: usize) -> Vec<Drive> {
    cpus.iter()
        .flat_map(|cpu| {
            cpu.fpga()
                .drives(autd3_driver::firmware::fpga::Segment::S0, idx)
                .into_iter()
                .map(|d| Drive { phase: d.phase().value(), intensity: d.intensity().value() })
                .collect::<Vec<_>>()
        })
        .collect()
}

#[test]
fn null_builder_has_zero_timeout_and_opens() {
    let g = geometry(2);
    let vis = Visualizer::null().open(&g).unwrap();
    assert!(vis.is_open());
    assert_eq!(vis.timeout(), 0);
    assert_eq!(vis.num_devices(), 2);
}

#[test]
fn generic_builder_opens_with_backend() {
    let g = geometry(1);
    let vis = Visualizer::builder::<NullBackend>().with_backend::<NullBackend>().open(&g).unwrap();
    assert!(vis.is_open());
    assert_eq!(vis.timeout(), 0);
    assert_eq!(vis.num_devices(), 1);
}

#[test]
fn null_backend_initializes() {
    let mut b = NullBackend::new();
    assert_eq!(b.initialize(), Ok(()));
}

struct FailingBackend;

impl Backend for FailingBackend {
    fn new() -> Self {
        FailingBackend
    }
    fn initialize(&mut self) -> Result<(), VisualizerError> {
        Err(VisualizerError::NotSupported)
    }
}

#[test]
fn open_passes_backend_error_on() {
    let g = geometry(1);
    let r = Visualizer::builder::<FailingBackend>().open(&g);
    assert!(matches!(r, Err(VisualizerError::NotSupported)));
}

#[test]
fn new_emulates_each_count() {
    let vis = Visualizer::new(&vec![249, 100, 3], 7);
    assert!(vis.is_open());
    assert_eq!(vis.timeout(), 7);
    assert_eq!(vis.num_devices(), 3);
    let d = vis.drives(Segment::S0, 0);
    assert_eq!(d.len(), 3);
    assert_eq!(d[0].len(), 249);
    assert_eq!(d[1].len(), 100);
    assert_eq!(d[2].len(), 3);
}

#[test]
fn patterns_stop_at_the_end_of_the_drive_memory() {
    let vis = Visualizer::new(&vec![300, 10], 0);
    let last = vis.drives(Segment::S1, 1023);
    assert_eq!(last[0].len(), 256);
    assert_eq!(last[1].len(), 10);
    let past = vis.drives(Segment::S1, 1024);
    assert!(past.iter().all(|d| d.is_empty()));
    assert!(vis.phases(Segment::S1, 5000).is_empty());
}

#[test]
fn new_with_no_devices() {
    let vis = Visualizer::new(&Vec::new(), 0);
    assert_eq!(vis.num_devices(), 0);
    assert!(vis.phases(Segment::S0, 0).is_empty());
    assert_eq!(vis.try_modulation(Segment::S0), None);
    let mut rx = vec![RxMessage::new(1, 2)];
    assert!(vis.receive(&mut rx));
    assert_eq!(rx, vec![RxMessage::new(1, 2)]);
}

#[test]
fn fresh_devices_are_silent() {
    let g = geometry(2);
    let vis = Visualizer::null().open(&g).unwrap();
    let phases = vis.phases(Segment::S0, 0);
    let intensities = vis.intensities(Segment::S0, 0);
    assert_eq!(phases.len(), 2 * 249);
    assert_eq!(intensities.len(), 2 * 249);
    assert!(phases.iter().all(|&p| p == 0));
    assert!(intensities.iter().all(|&p| p == 0));
}

#[test]
fn fresh_modulation_is_full_intensity() {
    let g = geometry(1);
    let vis = Visualizer::null().open(&g).unwrap();
    assert_eq!(vis.modulation(Segment::S0), vec![255, 255]);
    assert_eq!(vis.modulation(Segment::S1), vec![255, 255]);
    assert_eq!(vis.try_modulation(Segment::S0), Some(vec![255, 255]));
}

#[test]
fn close_is_idempotent_and_keeps_devices() {
    let g = geometry(2);
    let mut vis = Visualizer::null().open(&g).unwrap();
    vis.close();
    assert!(!vis.is_open());
    assert_eq!(vis.num_devices(), 2);
    vis.close();
    assert!(!vis.is_open());
    assert_eq!(vis.num_devices(), 2);
}

#[test]
fn closed_link_receives_nothing() {
    let g = geometry(1);
    let mut vis = Visualizer::null().open(&g).unwrap();
    vis.close();
    for tx in ramp_frames(&g, 10, 200) {
        assert!(!send(&mut vis, &tx));
    }
    assert!(vis.intensities(Segment::S0, 0).iter().all(|&p| p == 0));
    let mut rx = vec![RxMessage::new(9, 9)];
    assert!(!vis.receive(&mut rx));
    assert_eq!(rx, vec![RxMessage::new(9, 9)]);
}

#[test]
fn sent_gain_is_read_back() {
    let g = geometry(2);
    let mut vis = Visualizer::null().open(&g).unwrap();
    let mut cpus = reference(&g);
    for tx in ramp_frames(&g, 10, 200) {
        assert!(send(&mut vis, &tx));
        cpus.iter_mut().for_each(|cpu| cpu.send(&tx));
    }
    let expected = expected_drives(&cpus, 0);
    let phases = vis.phases(Segment::S0, 0);
    let intensities = vis.intensities(Segment::S0, 0);
    assert_eq!(phases.len(), 2 * 249);
    assert_eq!(phases, expected.iter().map(|d| d.phase).collect::<Vec<_>>());
    assert_eq!(intensities, expected.iter().map(|d| d.intensity).collect::<Vec<_>>());
    assert_eq!(phases[0], 10);
    assert_eq!(phases[5], 15);
    assert_eq!(phases[249], 11);
    assert!(intensities.iter().all(|&i| i == 200));
    let per_device: Vec<Drive> = vis.drives(Segment::S0, 0).into_iter().flatten().collect();
    assert_eq!(per_device, expected);
}

#[test]
fn gain_sequence_patterns_are_read_back() {
    let g = geometry(1);
    let mut vis = Visualizer::null().open(&g).unwrap();
    let mut cpus = reference(&g);
    let stm = GainSTM::new(1.0 * Hz, [Ramp { base: 0, level: 50 }, Ramp { base: 100, level: 150 }])
        .unwrap();
    for tx in frames(&g, stm) {
        assert!(send(&mut vis, &tx));
        cpus.iter_mut().for_each(|cpu| cpu.send(&tx));
    }
    for idx in 0..2 {
        let expected = expected_drives(&cpus, idx);
        assert_eq!(vis.phases(Segment::S0, idx), expected.iter().map(|d| d.phase).collect::<Vec<_>>());
        assert_eq!(
            vis.intensities(Segment::S0, idx),
            expected.iter().map(|d| d.intensity).collect::<Vec<_>>()
        );
    }
    assert_eq!(vis.phases(Segment::S0, 1)[3], 103);
    assert!(vis.intensities(Segment::S0, 0).iter().all(|&i| i == 50));
    assert!(vis.intensities(Segment::S0, 1).iter().all(|&i| i == 150));
}

#[test]
fn phases_and_intensities_line_up() {
    let g = geometry(2);
    let mut vis = Visualizer::null().open(&g).unwrap();
    for tx in ramp_frames(&g, 7, 99) {
        send(&mut vis, &tx);
    }
    let drives: Vec<Drive> = vis.drives(Segment::S0, 0).into_iter().flatten().collect();
    let phases = vis.phases(Segment::S0, 0);
    let intensities = vis.intensities(Segment::S0, 0);
    assert_eq!(phases.len(), drives.len());
    assert_eq!(intensities.len(), drives.len());
    for j in 0..drives.len() {
        assert_eq!(Drive { phase: phases[j], intensity: intensities[j] }, drives[j]);
    }
}

#[test]
fn focus_sequence_is_not_read_through_the_gain_path() {
    let g = geometry(1);
    let mut vis = Visualizer::null().open(&g).unwrap();
    assert!(vis.try_phases(Segment::S0, 0).is_some());
    for tx in focus_frames(&g) {
        assert!(send(&mut vis, &tx));
    }
    assert_eq!(vis.try_phases(Segment::S0, 0), None);
    assert_eq!(vis.try_intensities(Segment::S0, 1), None);
    assert!(vis.try_drives(Segment::S0, 0).is_none());
    assert_eq!(vis.try_intensities(Segment::S1, 0), Some(vec![0; 249]));
}

#[test]
fn try_reads_agree_with_reads() {
    let g = geometry(2);
    let mut vis = Visualizer::null().open(&g).unwrap();
    for tx in ramp_frames(&g, 3, 4) {
        send(&mut vis, &tx);
    }
    assert_eq!(vis.try_phases(Segment::S0, 0), Some(vis.phases(Segment::S0, 0)));
    assert_eq!(vis.try_intensities(Segment::S0, 0), Some(vis.intensities(Segment::S0, 0)));
    assert_eq!(vis.try_drives(Segment::S0, 0), Some(vis.drives(Segment::S0, 0)));
    assert_eq!(vis.try_phases(Segment::S0, usize::MAX), None);
}

#[test]
fn receive_writes_each_reply_at_its_position() {
    let g = geometry(2);
    let mut vis = Visualizer::null().open(&g).unwrap();
    let mut cpus = reference(&g);
    let frames = frames(&g, ReadsFPGAState::new(|_| true));
    for tx in &frames {
        assert!(send(&mut vis, tx));
        cpus.iter_mut().for_each(|cpu| cpu.send(tx));
    }
    refresh(&mut vis);
    let mut rx = vec![RxMessage::new(0, 0), RxMessage::new(0, 0), RxMessage::new(42, 43)];
    assert!(vis.receive(&mut rx));
    assert_eq!(rx[0].ack(), frames.last().unwrap()[0].header.msg_id);
    assert_eq!(rx[1].ack(), frames.last().unwrap()[1].header.msg_id);
    for (k, cpu) in cpus.iter_mut().enumerate() {
        cpu.update();
        assert_eq!(rx[k].ack(), cpu.rx().ack());
    }
    assert_ne!(rx[0].data() & 0x80, 0);
    assert_eq!(rx[2], RxMessage::new(42, 43));
}

#[test]
fn restore_refuses_devices_out_of_order() {
    let mut vis = Visualizer::new(&vec![5, 6], 4);
    let mut cpus = vis.take_devices();
    assert_eq!(vis.num_devices(), 0);
    assert!(vis.is_open());
    cpus.swap(0, 1);
    let back = vis.restore_devices(cpus).unwrap_err();
    assert_eq!(vis.num_devices(), 0);
    assert_eq!(back[0].idx(), 1);
    let mut back = back;
    back.swap(0, 1);
    assert!(vis.restore_devices(back).is_ok());
    assert_eq!(vis.num_devices(), 2);
    assert_eq!(vis.drives(Segment::S0, 0)[1].len(), 6);
    assert_eq!(vis.timeout(), 4);
    assert!(vis.is_open());
}

#[test]
fn link_is_open_until_closed_and_keeps_its_timeout() {
    let g = geometry(1);
    let mut vis = Visualizer::null().open(&g).unwrap();
    let mut rx = vec![RxMessage::new(0, 0)];
    for tx in ramp_frames(&g, 1, 2) {
        assert!(send(&mut vis, &tx));
        assert!(vis.is_open());
    }
    refresh(&mut vis);
    assert!(vis.receive(&mut rx));
    assert!(vis.is_open());
    assert_eq!(vis.timeout(), 0);
    vis.close();
    assert!(!vis.is_open());
    let cpus = vis.take_devices();
    assert!(vis.restore_devices(cpus).is_ok());
    assert!(!vis.receive(&mut rx));
    assert!(!vis.is_open());
    assert_eq!(vis.timeout(), 0);
}

#[test]
fn after_initialize_passes_failure_on() {
    let g = geometry(1);
    let r = Visualizer::after_initialize(Err(VisualizerError::InvalidPlotRange), &g, 3);
    assert!(matches!(r, Err(VisualizerError::InvalidPlotRange)));
}

#[test]
fn after_initialize_opens_on_geometry() {
    let g = geometry(3);
    let vis = Visualizer::after_initialize(Ok(()), &g, 3).unwrap();
    assert!(vis.is_open());
    assert_eq!(vis.timeout(), 3);
    assert_eq!(vis.num_devices(), 3);
    let d = vis.drives(Segment::S1, 0);
    assert!(d.iter().all(|dev| dev.len() == 249));
}

#[test]
fn null_link_opens_on_no_devices() {
    let g = Geometry::new(vec![]);
    let vis = Visualizer::null().open(&g).unwrap();
    assert!(vis.is_open());
    assert_eq!(vis.timeout(), 0);
    assert!(vis.phases(Segment::S0, 0).is_empty());
}

#[test]
fn lists_concatenate_device_after_device() {
    let d = |phase, intensity| Drive { phase, intensity };
    let lists = vec![vec![d(1, 10), d(2, 20)], vec![], vec![d(3, 30)]];
    assert_eq!(
        autd3_link_visualizer::concat_drive_lists(&lists),
        vec![d(1, 10), d(2, 20), d(3, 30)]
    );
    assert_eq!(autd3_link_visualizer::concat_phases(&lists), vec![1, 2, 3]);
    assert_eq!(autd3_link_visualizer::concat_intensities(&lists), vec![10, 20, 30]);
    assert!(autd3_link_visualizer::concat_phases(&Vec::new()).is_empty());
}

#[test]
fn focus_sequence_lists_give_phases_and_intensities() {
    let g = geometry(2);
    let mut vis = Visualizer::null().open(&g).unwrap();
    let mut cpus = reference(&g);
    for tx in focus_frames(&g) {
        assert!(send(&mut vis, &tx));
        cpus.iter_mut().for_each(|cpu| cpu.send(&tx));
    }
    let lists: Vec<Vec<Drive>> = vis
        .emulators()
        .iter()
        .map(|cpu| {
            cpu.fpga()
                .drives(autd3_driver::firmware::fpga::Segment::S0, 1)
                .into_iter()
                .map(|d| Drive { phase: d.phase().value(), intensity: d.intensity().value() })
                .collect()
        })
        .collect();
    let expected = expected_drives(&cpus, 1);
    let phases = autd3_link_visualizer::concat_phases(&lists);
    let intensities = autd3_link_visualizer::concat_intensities(&lists);
    assert_eq!(phases, expected.iter().map(|d| d.phase).collect::<Vec<_>>());
    assert_eq!(intensities, expected.iter().map(|d| d.intensity).collect::<Vec<_>>());
    assert!(intensities.iter().any(|&i| i != 0));
}
