use pi_u2f::adapter::{Packet, PiU2fAdapter, SimplifiedServer};
use pi_u2f::key::ApplicationKey;
use pi_u2f::relay::{RelayAction, RelayEvent, RelayState, Stage};
use pi_u2f::store::FileSecretStore;

/// A device that hands out the reports it was given, first in first out, and
/// keeps what is written to it.
struct MockHidDevice {
    read_data: Vec<Vec<u8>>,
    write_data: Vec<Vec<u8>>,
}

impl MockHidDevice {
    fn new() -> Self {
        Self { read_data: Vec::new(), write_data: Vec::new() }
    }

    fn add_read_data(&mut self, data: Vec<u8>) {
        self.read_data.push(data);
    }

    fn read_report(&mut self, buf: &mut [u8]) -> usize {
        if self.read_data.is_empty() {
            return 0;
        }
        let data = self.read_data.remove(0);
        let len = std::cmp::min(data.len(), buf.len());
        buf[..len].copy_from_slice(&data[..len]);
        len
    }

    fn write_report(&mut self, data: &[u8]) -> usize {
        self.write_data.push(data.to_vec());
        data.len()
    }
}

/// A stand-in for the decoder: a report whose first byte is 0xff does not
/// decode.
fn decode(report: &[u8]) -> Option<Packet> {
    if report[0] == 0xff {
        None
    } else {
        Some(Packet { bytes: report.to_vec() })
    }
}

/// One cycle of the loop. Returns how often the engine was invoked.
fn cycle(adapter: &mut PiU2fAdapter, device: &mut MockHidDevice) -> usize {
    let mut buf = [0u8; 64];
    let read_size = device.read_report(&mut buf);
    let mut dispatched = 0;
    let mut action = adapter.on_report(read_size);
    loop {
        match action {
            RelayAction::Read | RelayAction::Discard => return dispatched,
            RelayAction::Decode => match decode(&buf) {
                Some(packet) => {
                    dispatched += 1;
                    action = adapter.on_packet(packet);
                }
                None => action = adapter.on_decode_failed(),
            },
            RelayAction::Write(index) => {
                let bytes = adapter.response(index).unwrap().bytes.clone();
                device.write_report(&bytes);
                action = adapter.on_written();
            }
            RelayAction::Dispatch | RelayAction::Abort => panic!("unexpected {:?}", action),
        }
    }
}

#[test]
fn test_process_packet() {
    let mut mock_device = MockHidDevice::new();

    let test_packet_data = vec![0x01, 0x02, 0x03, 0x04];
    mock_device.add_read_data(test_packet_data);

    let server = SimplifiedServer::new();
    let mut adapter = PiU2fAdapter::new(server);

    assert_eq!(cycle(&mut adapter, &mut mock_device), 1);
    assert_eq!(adapter.state(), RelayState::Idle);
    let mut expected = vec![0u8; 64];
    expected[..4].copy_from_slice(&[0x01, 0x02, 0x03, 0x04]);
    assert_eq!(mock_device.write_data, vec![expected]);
    println!("PiU2fAdapter test structure in place");
}

#[test]
fn server_answers_with_the_packet() {
    let mut server = SimplifiedServer::new();
    let out = server.process_packet(Packet { bytes: vec![1, 2, 3] });
    assert_eq!(out.len(), 1);
    assert_eq!(out[0].bytes, vec![1, 2, 3]);
}

#[test]
fn empty_read_stays_idle() {
    let mut adapter = PiU2fAdapter::new(SimplifiedServer::new());
    assert_eq!(adapter.on_report(0), RelayAction::Read);
    assert_eq!(adapter.state(), RelayState::Idle);
    assert_eq!(adapter.on_report(64), RelayAction::Decode);
    assert_eq!(adapter.state(), RelayState::Processing(Stage::Decoding));
}

#[test]
fn malformed_report_between_two_packets() {
    let mut device = MockHidDevice::new();
    device.add_read_data(vec![0x01; 64]);
    device.add_read_data(vec![0xff; 64]);
    device.add_read_data(vec![0x02; 64]);
    let mut adapter = PiU2fAdapter::new(SimplifiedServer::new());

    let mut dispatched = 0;
    dispatched += cycle(&mut adapter, &mut device);
    assert_eq!(adapter.state(), RelayState::Idle);
    dispatched += cycle(&mut adapter, &mut device);
    assert_eq!(adapter.state(), RelayState::Idle);
    assert_eq!(dispatched, 1);
    dispatched += cycle(&mut adapter, &mut device);
    assert_eq!(adapter.state(), RelayState::Idle);

    assert_eq!(dispatched, 2);
    assert_eq!(device.write_data, vec![vec![0x01; 64], vec![0x02; 64]]);
    // The loop is alive: the next read is taken.
    assert_eq!(adapter.on_report(0), RelayAction::Read);
}

#[test]
fn registration_report_is_answered_once_and_key_is_stored() {
    let application = [0u8; 32];
    let mut device = MockHidDevice::new();
    let mut report = vec![0u8; 64];
    report[0] = 0x83;
    report[1] = 0x01;
    device.add_read_data(report.clone());
    let mut adapter = PiU2fAdapter::new(SimplifiedServer::new());
    let mut store = FileSecretStore::new(String::from("/tmp/pi-u2f"));

    assert_eq!(cycle(&mut adapter, &mut device), 1);
    // What the engine does on a registration: it stores the new key.
    let handle = vec![0x5a; 64];
    store.add_application_key(ApplicationKey::new(application, handle.clone(), vec![1, 2, 3]));

    assert_eq!(device.write_data.len(), 1);
    assert_eq!(device.write_data[0], report);
    let found = store.retrieve_application_key(&application, &handle).unwrap();
    assert_eq!(found.application, application);
    assert_eq!(found.handle, handle);
    assert_eq!(found.key, vec![1, 2, 3]);
}

#[test]
fn responses_are_written_in_order() {
    let mut state = RelayState::Processing(Stage::Dispatching);
    assert_eq!(state.step(RelayEvent::Responses(3)), RelayAction::Write(0));
    assert_eq!(state, RelayState::Processing(Stage::Writing { next: 0, total: 3 }));
    assert_eq!(state.step(RelayEvent::Written), RelayAction::Write(1));
    assert_eq!(state.step(RelayEvent::Written), RelayAction::Write(2));
    assert_eq!(state.step(RelayEvent::Written), RelayAction::Read);
    assert_eq!(state, RelayState::Idle);
}

#[test]
fn continuation_fragment_gives_no_write() {
    let mut state = RelayState::Processing(Stage::Dispatching);
    assert_eq!(state.step(RelayEvent::Responses(0)), RelayAction::Read);
    assert_eq!(state, RelayState::Idle);
}

#[test]
fn engine_failure_is_survived() {
    let mut state = RelayState::Processing(Stage::Dispatching);
    assert_eq!(state.step(RelayEvent::EngineFailed), RelayAction::Discard);
    assert_eq!(state, RelayState::Idle);
}

#[test]
fn device_failure_is_fatal_in_every_state() {
    let states = [
        RelayState::Idle,
        RelayState::Processing(Stage::Decoding),
        RelayState::Processing(Stage::Dispatching),
        RelayState::Processing(Stage::Writing { next: 1, total: 2 }),
    ];
    for start in states {
        let mut state = start;
        assert!(state.accepts(&RelayEvent::IoFailed));
        assert_eq!(state.step(RelayEvent::IoFailed), RelayAction::Abort);
    }
    let mut adapter = PiU2fAdapter::new(SimplifiedServer::new());
    assert_eq!(adapter.on_io_failed(), RelayAction::Abort);
}

#[test]
fn event_out_of_turn_is_refused() {
    let mut state = RelayState::new();
    assert!(!state.accepts(&RelayEvent::Written));
    assert_eq!(state.step(RelayEvent::Written), RelayAction::Abort);
    assert_eq!(state, RelayState::Idle);
    let mut adapter = PiU2fAdapter::new(SimplifiedServer::new());
    assert_eq!(adapter.on_packet(Packet { bytes: vec![1] }), RelayAction::Abort);
    assert!(adapter.response(0).is_none());
}
