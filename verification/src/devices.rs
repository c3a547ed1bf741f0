use vstd::prelude::*;
use std::collections::VecDeque;

verus! {

/// The name of a device.
#[derive(Clone, Copy, Debug, PartialEq, Eq)]
pub struct DeviceId(pub &'static str);

/// A device's state as an opaque payload, tagged with the device it came from.
#[derive(Clone, Debug, PartialEq, Eq)]
pub struct DeviceSnapshot {
    pub device_id: DeviceId,
    pub payload: Vec<u8>,
}

#[derive(Clone, Copy, Debug, PartialEq, Eq)]
pub enum DeviceError {
    WrongDevice { expected: DeviceId, actual: DeviceId },
}

/// A device that can be reset, snapshotted and restored.
pub trait Device {
    fn id(&self) -> DeviceId;

    fn reset(&mut self);

    fn snapshot(&self) -> DeviceSnapshot;

    fn restore(&mut self, snapshot: &DeviceSnapshot) -> Result<(), DeviceError>;
}

/// Whether two device names are the same text.
pub fn device_id_eq(a: &DeviceId, b: &DeviceId) -> (r: bool)
    ensures
        r == (a.0@ == b.0@),
{
    let n = a.0.unicode_len();
    if n != b.0.unicode_len() {
        return false;
    }
    let mut i: usize = 0;
    while i < n
        invariant
            n == a.0@.len(),
            n == b.0@.len(),
            i <= n,
            forall|j: int| 0 <= j < i ==> a.0@[j] == b.0@[j],
        decreases n - i,
    {
        if a.0.get_char(i) != b.0.get_char(i) {
            return false;
        }
        i += 1;
    }
    assert(a.0@ =~= b.0@);
    true
}

/// The serial device's name.
pub open spec fn serial_device_id() -> DeviceId {
    DeviceId("serial0")
}

/// The serial snapshot payload: the output bytes, a zero separator, the queued input.
pub open spec fn serial_payload(output: Seq<u8>, input: Seq<u8>) -> Seq<u8> {
    output + seq![0u8] + input
}

/// Index of the first zero byte of `payload`, or its length when there is none.
pub open spec fn first_zero(payload: Seq<u8>) -> nat
    decreases payload.len(),
{
    if payload.len() == 0 {
        0
    } else if payload[0] == 0 {
        0
    } else {
        1 + first_zero(payload.skip(1))
    }
}

/// The output bytes a payload restores: everything before the first zero byte.
pub open spec fn restored_output(payload: Seq<u8>) -> Seq<u8> {
    payload.take(first_zero(payload) as int)
}

/// The input bytes a payload restores: everything after the first zero byte, or nothing.
pub open spec fn restored_input(payload: Seq<u8>) -> Seq<u8> {
    if first_zero(payload) < payload.len() {
        payload.skip(first_zero(payload) as int + 1)
    } else {
        Seq::empty()
    }
}

/// Serial console: bytes the guest wrote and bytes queued for it to read.
#[derive(Clone, Debug, PartialEq, Eq)]
pub struct SerialDevice {
    output: Vec<u8>,
    input: VecDeque<u8>,
}

impl Default for SerialDevice {
    fn default() -> (r: SerialDevice)
        ensures
            r.spec_output() == Seq::<u8>::empty(),
            r.spec_input() == Seq::<u8>::empty(),
    {
        SerialDevice { output: Vec::new(), input: VecDeque::new() }
    }
}

impl SerialDevice {
    pub const DEBUG_CONSOLE_PORT: u16 = 0x00e9;
    pub const COM1_DATA_PORT: u16 = 0x03f8;

    /// The serial device's name, `serial0`.
    pub fn device_id() -> (r: DeviceId)
        ensures
            r == serial_device_id(),
    {
        DeviceId("serial0")
    }

    /// The bytes written so far.
    pub closed spec fn spec_output(&self) -> Seq<u8> {
        self.output@
    }

    /// The bytes queued for the guest, oldest first.
    pub closed spec fn spec_input(&self) -> Seq<u8> {
        self.input@
    }

    /// A copy of the device.
    pub fn duplicate(&self) -> (r: SerialDevice)
        ensures
            r.spec_output() == self.spec_output(),
            r.spec_input() == self.spec_input(),
    {
        let output = self.output.clone();
        let input = self.input.clone();
        assert(output@ =~= self.output@);
        assert(input@ =~= self.input@);
        SerialDevice { output, input }
    }

    pub fn write_byte(&mut self, byte: u8)
        ensures
            final(self).spec_output() == old(self).spec_output().push(byte),
            final(self).spec_input() == old(self).spec_input(),
    {
        self.output.push(byte);
    }

    pub fn queue_input(&mut self, byte: u8)
        ensures
            final(self).spec_input() == old(self).spec_input().push(byte),
            final(self).spec_output() == old(self).spec_output(),
    {
        self.input.push_back(byte);
    }

    pub fn read_input(&mut self) -> (r: Option<u8>)
        ensures
            old(self).spec_input().len() == 0 ==> r is None && final(self).spec_input() == old(
                self,
            ).spec_input(),
            old(self).spec_input().len() > 0 ==> r == Some(old(self).spec_input()[0])
                && final(self).spec_input() == old(self).spec_input().drop_first(),
            final(self).spec_output() == old(self).spec_output(),
    {
        self.input.pop_front()
    }

    pub fn output(&self) -> (r: &[u8])
        ensures
            r@ == self.spec_output(),
    {
        self.output.as_slice()
    }

    pub fn take_output(&mut self) -> (r: Vec<u8>)
        ensures
            r@ == old(self).spec_output(),
            final(self).spec_output() == Seq::<u8>::empty(),
            final(self).spec_input() == old(self).spec_input(),
    {
        let mut taken: Vec<u8> = Vec::new();
        std::mem::swap(&mut taken, &mut self.output);
        taken
    }
}

impl Device for SerialDevice {
    fn id(&self) -> (r: DeviceId)
        ensures
            r == serial_device_id(),
    {
        SerialDevice::device_id()
    }

    fn reset(&mut self)
        ensures
            final(self).spec_output() == Seq::<u8>::empty(),
            final(self).spec_input() == Seq::<u8>::empty(),
    {
        self.output.clear();
        self.input.clear();
    }

    fn snapshot(&self) -> (r: DeviceSnapshot)
        ensures
            r.device_id == serial_device_id(),
            r.payload@ == serial_payload(self.spec_output(), self.spec_input()),
    {
        let mut payload: Vec<u8> = Vec::new();
        let mut i: usize = 0;
        while i < self.output.len()
            invariant
                i <= self.output@.len(),
                payload@ == self.output@.take(i as int),
            decreases self.output@.len() - i,
        {
            payload.push(self.output[i]);
            i += 1;
            assert(payload@ =~= self.output@.take(i as int));
        }
        payload.push(0);
        let ghost head = payload@;
        assert(head =~= self.output@ + seq![0u8]);
        let mut j: usize = 0;
        while j < self.input.len()
            invariant
                j <= self.input@.len(),
                payload@ == head + self.input@.take(j as int),
            decreases self.input@.len() - j,
        {
            payload.push(self.input[j]);
            j += 1;
            assert(payload@ =~= head + self.input@.take(j as int));
        }
        assert(self.input@.take(self.input@.len() as int) =~= self.input@);
        DeviceSnapshot { device_id: SerialDevice::device_id(), payload }
    }

    fn restore(&mut self, snapshot: &DeviceSnapshot) -> (r: Result<(), DeviceError>)
        ensures
            snapshot.device_id.0@ != serial_device_id().0@ ==> {
                &&& r == Err::<(), DeviceError>(
                    DeviceError::WrongDevice {
                        expected: serial_device_id(),
                        actual: snapshot.device_id,
                    },
                )
                &&& final(self).spec_output() == old(self).spec_output()
                &&& final(self).spec_input() == old(self).spec_input()
            },
            snapshot.device_id.0@ == serial_device_id().0@ ==> {
                &&& r is Ok
                &&& final(self).spec_output() == restored_output(snapshot.payload@)
                &&& final(self).spec_input() == restored_input(snapshot.payload@)
            },
    {
        let own_id = SerialDevice::device_id();
        if !device_id_eq(&snapshot.device_id, &own_id) {
            return Err(
                DeviceError::WrongDevice {
                    expected: SerialDevice::device_id(),
                    actual: snapshot.device_id,
                },
            );
        }
        let payload = &snapshot.payload;
        let n = payload.len();
        let mut split: usize = 0;
        while split < n && payload[split] != 0
            invariant
                n == payload@.len(),
                split <= n,
                forall|j: int| 0 <= j < split ==> payload@[j] != 0,
            decreases n - split,
        {
            split += 1;
        }
        proof {
            lemma_first_zero(payload@, split as nat);
        }
        let mut output: Vec<u8> = Vec::new();
        let mut i: usize = 0;
        while i < split
            invariant
                split <= n,
                n == payload@.len(),
                i <= split,
                output@ == payload@.take(i as int),
            decreases split - i,
        {
            output.push(payload[i]);
            i += 1;
            assert(output@ =~= payload@.take(i as int));
        }
        let mut input: VecDeque<u8> = VecDeque::new();
        if split < n {
            let mut k: usize = split + 1;
            while k < n
                invariant
                    split < n,
                    n == payload@.len(),
                    split + 1 <= k <= n,
                    input@ == payload@.subrange(split + 1, k as int),
                decreases n - k,
            {
                input.push_back(payload[k]);
                k += 1;
                assert(input@ =~= payload@.subrange(split + 1, k as int));
            }
            assert(input@ =~= payload@.skip(split + 1));
        } else {
            assert(input@ =~= Seq::<u8>::empty());
        }
        self.output = output;
        self.input = input;
        Ok(())
    }
}

/// `first_zero` is the index of the first zero byte, or the length when none is zero.
pub proof fn lemma_first_zero(payload: Seq<u8>, split: nat)
    requires
        split <= payload.len(),
        forall|j: int| 0 <= j < split ==> payload[j] != 0,
        split == payload.len() || payload[split as int] == 0,
    ensures
        first_zero(payload) == split,
    decreases split,
{
    if split > 0 {
        let rest = payload.skip(1);
        assert forall|j: int| 0 <= j < split - 1 implies rest[j] != 0 by {
            assert(rest[j] == payload[j + 1]);
        }
        if split < payload.len() {
            assert(rest[split - 1] == payload[split as int]);
        }
        lemma_first_zero(rest, (split - 1) as nat);
    }
}

/// Restoring a serial snapshot gives back the output and input it was taken from,
/// when the output holds no zero byte (the zero byte separates the two parts).
pub proof fn lemma_serial_snapshot_round_trip(output: Seq<u8>, input: Seq<u8>)
    requires
        forall|i: int| 0 <= i < output.len() ==> output[i] != 0,
    ensures
        restored_output(serial_payload(output, input)) == output,
        restored_input(serial_payload(output, input)) == input,
{
    let p = serial_payload(output, input);
    assert forall|j: int| 0 <= j < output.len() implies p[j] != 0 by {
        assert(p[j] == output[j]);
    }
    assert(p[output.len() as int] == 0);
    lemma_first_zero(p, output.len());
    assert(p.take(output.len() as int) =~= output);
    assert(p.skip(output.len() as int + 1) =~= input);
}

} // verus!
