use bxr::devices::{Device, DeviceError, DeviceId, DeviceSnapshot, SerialDevice};

#[test]
fn serial_snapshots_output_and_input() {
    let mut serial = SerialDevice::default();
    serial.write_byte(b'O');
    serial.queue_input(b'I');

    let snapshot = serial.snapshot();
    serial.reset();
    serial.restore(&snapshot).unwrap();

    assert_eq!(serial.output(), b"O");
    assert_eq!(serial.read_input(), Some(b'I'));
}

#[test]
fn serial_payload_is_output_zero_input() {
    let mut serial = SerialDevice::default();
    serial.write_byte(b'A');
    serial.write_byte(b'B');
    serial.queue_input(b'x');
    let snapshot = serial.snapshot();
    assert_eq!(snapshot.device_id, DeviceId("serial0"));
    assert_eq!(snapshot.payload, vec![b'A', b'B', 0, b'x']);
    assert_eq!(serial.id(), SerialDevice::device_id());
}

#[test]
fn restore_rejects_other_devices() {
    let mut serial = SerialDevice::default();
    serial.write_byte(b'k');
    let snapshot = DeviceSnapshot {
        device_id: DeviceId("disk0"),
        payload: vec![1, 0, 2],
    };
    assert_eq!(
        serial.restore(&snapshot),
        Err(DeviceError::WrongDevice {
            expected: DeviceId("serial0"),
            actual: DeviceId("disk0"),
        })
    );
    assert_eq!(serial.output(), b"k");
}

#[test]
fn restore_without_separator_keeps_everything_as_output() {
    let mut serial = SerialDevice::default();
    let snapshot = DeviceSnapshot {
        device_id: DeviceId("serial0"),
        payload: vec![b'h', b'i'],
    };
    serial.restore(&snapshot).unwrap();
    assert_eq!(serial.output(), b"hi");
    assert_eq!(serial.read_input(), None);
}

#[test]
fn take_output_empties_the_buffer() {
    let mut serial = SerialDevice::default();
    serial.write_byte(1);
    serial.write_byte(2);
    assert_eq!(serial.take_output(), vec![1, 2]);
    assert_eq!(serial.output(), b"");
}
