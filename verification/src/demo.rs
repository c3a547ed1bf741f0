use vstd::prelude::*;
use crate::machine::{
    cache_key_for, fetch_bytes, fetch_ensures, is_minimal_x64_v1, machine_translate,
    machine_translate_result, minimal_x64_v1, run_ensures, same_but_run_state, resumed,
    step_ensures, CacheView, Machine, MachineRunState,
};
use crate::memory::MemoryView;
use crate::mmu::AccessType;
use crate::memory::{splice, PAGE_SIZE};
use crate::registers::Gpr;
use crate::system::ControlRegisters;
use crate::decode::{decoded_from, spec_decode, prefix_stop, prefixes_of, Instruction, Operation, le_u32, le_u64};
use crate::width::Width;
use crate::execute::{execute_with_bus_ensures, ExecuteOutcome};

verus! {

/// The text the built-in demo program writes to the serial port.
pub open spec fn demo_text() -> Seq<u8> {
    seq![0x57u8, 0x41u8, 0x53u8, 0x4du8, 0x0au8]
}

/// The twelve bytes that write `byte` to the debug port: `mov rax, byte` and
/// `out 0xe9, al`.
pub open spec fn demo_chunk(byte: u8) -> Seq<u8> {
    seq![0x48u8, 0xb8u8, byte, 0u8, 0u8, 0u8, 0u8, 0u8, 0u8, 0u8, 0xe6u8, 0xe9u8]
}

/// The program body for `text`: one chunk per byte.
pub open spec fn demo_body(text: Seq<u8>) -> Seq<u8>
    decreases text.len(),
{
    if text.len() == 0 {
        Seq::empty()
    } else {
        demo_body(text.drop_last()) + demo_chunk(text.last())
    }
}

/// The demo program for `text`: its chunks, then `hlt`.
pub open spec fn demo_program(text: Seq<u8>) -> Seq<u8> {
    demo_body(text) + seq![0xf4u8]
}

/// The program that writes `text` to the debug console port and halts.
pub fn demo_program_bytes(text: &[u8]) -> (r: Vec<u8>)
    requires
        text@.len() * 12 + 1 <= usize::MAX,
    ensures
        r@ == demo_program(text@),
{
    let mut program: Vec<u8> = Vec::new();
    let mut i: usize = 0;
    while i < text.len()
        invariant
            i <= text@.len(),
            program@ == demo_body(text@.take(i as int)),
        decreases text@.len() - i,
    {
        let byte = text[i];
        let ghost before = program@;
        program.push(0x48);
        program.push(0xb8);
        program.push(byte);
        program.push(0);
        program.push(0);
        program.push(0);
        program.push(0);
        program.push(0);
        program.push(0);
        program.push(0);
        program.push(0xe6);
        program.push(0xe9);
        assert(program@ =~= before + demo_chunk(byte));
        i += 1;
        proof {
            assert(text@.take(i as int).drop_last() =~= text@.take(i as int - 1));
        }
    }
    program.push(0xf4);
    assert(text@.take(text@.len() as int) =~= text@);
    program
}

/// The demo program body has twelve bytes per text byte.
pub proof fn lemma_demo_body_len(text: Seq<u8>)
    ensures
        demo_body(text).len() == 12 * text.len(),
    decreases text.len(),
{
    if text.len() > 0 {
        lemma_demo_body_len(text.drop_last());
    }
}

/// The name of the machine profile the demo runs on.
pub fn minimal_profile_id() -> (r: &'static str)
    ensures
        r@ == "bxr-minimal-x64-v1"@,
{
    minimal_x64_v1().id
}

/// The general-purpose register with encoding number `index`, if there is one.
pub fn gpr_from_index(index: u32) -> (r: Option<Gpr>)
    ensures
        index < 16 ==> r == Some(Gpr::spec_from_number(index as int)),
        index >= 16 ==> r is None,
{
    match index {
        0 => Some(Gpr::Rax),
        1 => Some(Gpr::Rcx),
        2 => Some(Gpr::Rdx),
        3 => Some(Gpr::Rbx),
        4 => Some(Gpr::Rsp),
        5 => Some(Gpr::Rbp),
        6 => Some(Gpr::Rsi),
        7 => Some(Gpr::Rdi),
        8 => Some(Gpr::R8),
        9 => Some(Gpr::R9),
        10 => Some(Gpr::R10),
        11 => Some(Gpr::R11),
        12 => Some(Gpr::R12),
        13 => Some(Gpr::R13),
        14 => Some(Gpr::R14),
        15 => Some(Gpr::R15),
        _ => None,
    }
}

/// Whether `m` is the demo machine: a fresh one-page minimal machine with the demo
/// program at 0x100 and RIP pointing at it.
pub open spec fn is_demo_machine(m: Machine) -> bool {
    &&& m.wf()
    &&& is_minimal_x64_v1(m.profile)
    &&& m.run_state == MachineRunState::Paused
    &&& m.cpu.registers.rip_value() == 0x100
    &&& (forall|i: int| 0 <= i < 16 ==> #[trigger] m.cpu@.0.0[i] == 0)
    &&& m.cpu@.1 == crate::flags::RESERVED_ALWAYS_ONE
    &&& m.cpu@.2 == crate::system::ControlRegisters::spec_zero()
    &&& !m.cpu@.3
    &&& m.memory@.bytes == splice(
        Seq::new(PAGE_SIZE as nat, |i: int| 0u8),
        0x100,
        demo_program(demo_text()),
    )
    &&& m.serial.spec_output() == Seq::<u8>::empty()
    &&& m.serial.spec_input() == Seq::<u8>::empty()
    &&& m.virtual_clock@ == 0
    &&& m.trace@.events == Seq::<crate::machine::TraceEvent>::empty()
    &&& m.cache() == CacheView::empty()
}

/// Builds the demo machine.
pub fn create_demo_machine() -> (r: Option<Machine>)
    ensures
        r matches Some(m) && is_demo_machine(m),
{
    let mut machine = match Machine::new_minimal(PAGE_SIZE) {
        Ok(m) => m,
        Err(_) => return None,
    };
    machine.cpu.registers.set_rip(0x100);
    let text: [u8; 5] = [0x57, 0x41, 0x53, 0x4d, 0x0a];
    assert(text@ =~= demo_text());
    let program = demo_program_bytes(&text);
    proof {
        lemma_demo_body_len(demo_text());
    }
    match machine.load_program(0x100, program.as_slice()) {
        Ok(()) => {},
        Err(_) => return None,
    }
    Some(machine)
}

/// What running the demo machine reports.
#[derive(Clone, Debug, PartialEq, Eq)]
pub struct DemoResult {
    pub steps: usize,
    pub halted: bool,
    pub rax: u64,
    pub serial: Vec<u8>,
    pub serial_len: usize,
}

/// Whether `result` describes the machine `end` after a run of `result.steps` steps.
pub open spec fn reports(result: DemoResult, end: Machine) -> bool {
    &&& result.halted == (end.run_state == MachineRunState::Halted)
    &&& result.rax == end.cpu.registers.value(Gpr::Rax)
    &&& result.serial@ == end.serial.spec_output()
    &&& result.serial_len == result.serial@.len()
}

/// Whether `result` is what a run of at most 64 steps of the demo machine reports.
pub open spec fn demo_run_reported(result: DemoResult) -> bool {
    exists|demo: Machine, start: Machine, end: Machine|
        #![trigger is_demo_machine(demo), run_ensures(start, end, 0, 64, Ok::<usize, crate::machine::MachineError>(result.steps))]
        is_demo_machine(demo) && same_but_run_state(&start, &demo) && start.run_state
            == MachineRunState::Running && run_ensures(
            start,
            end,
            0,
            64,
            Ok::<usize, crate::machine::MachineError>(result.steps),
        ) && reports(result, end)
}

/// Runs the demo machine for at most 64 steps: it takes eleven, halts with the
/// newline in RAX, and writes `WASM` and a newline to the serial port.
pub fn run_demo() -> (r: Option<DemoResult>)
    ensures
        r matches Some(result) && result.steps == 11 && result.halted && result.rax == 0x0a
            && result.serial@ == demo_text() && result.serial_len == 5,
        r is Some ==> demo_run_reported(r->Some_0),
{
    let mut machine = match create_demo_machine() {
        Some(m) => m,
        None => return None,
    };
    let ghost demo = machine;
    let run = machine.run_until_halt(64);
    proof {
        let start = choose|start: Machine|
            #![trigger run_ensures(start, machine, 0, 64, run)]
            same_but_run_state(&start, &demo) && start.run_state == resumed(demo.run_state)
                && run_ensures(start, machine, 0, 64, run);
        lemma_demo_start(demo, start);
        lemma_demo_run(start, machine, 0, run);
    }
    let steps = match run {
        Ok(n) => n,
        Err(_) => return None,
    };
    let ghost end = machine;
    let serial = machine.serial.take_output();
    let serial_len = serial.len();
    let result = DemoResult {
        steps,
        halted: machine.run_state == MachineRunState::Halted,
        rax: machine.cpu.registers.read(Gpr::Rax),
        serial,
        serial_len,
    };
    proof {
        let start = choose|start: Machine|
            #![trigger run_ensures(start, end, 0, 64, Ok::<usize, crate::machine::MachineError>(steps))]
            same_but_run_state(&start, &demo) && start.run_state == resumed(demo.run_state)
                && run_ensures(start, end, 0, 64, Ok::<usize, crate::machine::MachineError>(steps));
        assert(is_demo_machine(demo));
        assert(start.run_state == MachineRunState::Running);
        assert(reports(result, end));
        assert(run_ensures(start, end, 0, 64, Ok::<usize, crate::machine::MachineError>(result.steps)));
        assert(is_demo_machine(demo) && same_but_run_state(&start, &demo) && start.run_state
            == MachineRunState::Running && run_ensures(
            start,
            end,
            0,
            64,
            Ok::<usize, crate::machine::MachineError>(result.steps),
        ) && reports(result, end));
        assert(demo_run_reported(result));
    }
    Some(result)
}

/// The number by which the browser interface reports a run state.
pub open spec fn spec_run_state_code(state: MachineRunState) -> u32 {
    match state {
        MachineRunState::Paused => 1,
        MachineRunState::Running => 2,
        MachineRunState::Halted => 3,
        MachineRunState::Faulted => 4,
    }
}

/// The number of a run state at the browser interface.
pub fn run_state_code(state: MachineRunState) -> (r: u32)
    ensures
        r == spec_run_state_code(state),
{
    match state {
        MachineRunState::Paused => 1,
        MachineRunState::Running => 2,
        MachineRunState::Halted => 3,
        MachineRunState::Faulted => 4,
    }
}

/// The control register that the browser interface reads under `index`: CR0, CR2,
/// CR3 and CR4 by their numbers, EFER under 0x0efe, zero for any other index.
pub open spec fn spec_control_register(controls: ControlRegisters, index: u32) -> u64 {
    if index == 0 {
        controls.cr0
    } else if index == 2 {
        controls.cr2
    } else if index == 3 {
        controls.cr3
    } else if index == 4 {
        controls.cr4
    } else if index == 0x0efe {
        controls.efer
    } else {
        0
    }
}

/// Reads a control register by its number at the browser interface.
pub fn control_register(controls: &ControlRegisters, index: u32) -> (r: u64)
    ensures
        r == spec_control_register(*controls, index),
{
    match index {
        0 => controls.cr0,
        2 => controls.cr2,
        3 => controls.cr3,
        4 => controls.cr4,
        0x0efe => controls.efer,
        _ => 0,
    }
}

/// Byte `index` of the first `len` bytes of `bytes`, widened; zero past them.
pub open spec fn spec_byte_within(bytes: Seq<u8>, len: u8, index: u32) -> u32 {
    if index < len {
        bytes[index as int] as u32
    } else {
        0
    }
}

/// Byte `index` of an instruction's encoding, or zero past its length.
pub fn byte_within(bytes: &[u8; 15], len: u8, index: u32) -> (r: u32)
    requires
        index < len ==> index < 15,
    ensures
        r == spec_byte_within(bytes@, len, index),
{
    if index >= len as u32 {
        return 0;
    }
    bytes[index as usize] as u32
}

// ---------------------------------------------------------------------------
// What the demo program does, step by step
// ---------------------------------------------------------------------------

/// Decoding `mov rax, imm64` with a one-byte immediate `c`.
proof fn lemma_decode_mov_rax(w: Seq<u8>, c: u8)
    requires
        w.len() == 15,
        w[0] == 0x48u8,
        w[1] == 0xb8u8,
        w[2] == c,
        forall|i: int| 3 <= i < 10 ==> w[i] == 0u8,
    ensures
        spec_decode(w) matches Ok((len, _p, _opcode, op)) && len == 10 && op
            == (Operation::MovImm { dst: Gpr::Rax, width: Width::U64, imm: c as u64 }),
{
    assert(prefix_stop(w, 1) == 1);
    assert(prefix_stop(w, 0) == 1);
    let p = prefixes_of(w, 1);
    assert(0x48u8 & 0b1000u8 != 0 && 0x48u8 & 0b0001u8 == 0 && 0xb8u8 & 0b111u8 == 0u8 && (0u8
        | 0u8) == 0u8) by (bit_vector);
    assert(p.rex == Some(crate::decode::Rex::spec_from_byte(0x48)));
    assert(w[3] == 0 && w[4] == 0 && w[5] == 0 && w[6] == 0 && w[7] == 0 && w[8] == 0
        && w[9] == 0);
    assert(le_u32(w, 2) == c as u32);
    assert(le_u32(w, 6) == 0);
    assert(le_u64(w, 2) == c as u64);
}

/// Decoding `out imm8, al`.
proof fn lemma_decode_out(w: Seq<u8>)
    requires
        w.len() == 15,
        w[0] == 0xe6u8,
        w[1] == 0xe9u8,
    ensures
        spec_decode(w) matches Ok((len, _p, _opcode, op)) && len == 2 && op
            == (Operation::OutImm8Al { port: 0xe9 }),
{
    assert(prefix_stop(w, 0) == 0);
}

/// Decoding `hlt`.
proof fn lemma_decode_hlt(w: Seq<u8>)
    requires
        w.len() == 15,
        w[0] == 0xf4u8,
    ensures
        spec_decode(w) matches Ok((len, _p, _opcode, op)) && len == 1 && op == Operation::Hlt,
{
    assert(prefix_stop(w, 0) == 0);
}

/// The bytes of the demo machine's RAM: the demo program at 0x100 in a zeroed page.
pub open spec fn demo_image() -> Seq<u8> {
    splice(Seq::new(PAGE_SIZE as nat, |i: int| 0u8), 0x100, demo_program(demo_text()))
}

proof fn lemma_demo_body_index(text: Seq<u8>, j: int, m: int)
    requires
        0 <= j < text.len(),
        0 <= m < 12,
    ensures
        demo_body(text)[12 * j + m] == demo_chunk(text[j])[m],
    decreases text.len(),
{
    lemma_demo_body_len(text.drop_last());
    if j < text.len() - 1 {
        lemma_demo_body_index(text.drop_last(), j, m);
    }
}

/// Byte `i` of the demo image: the program's bytes from 0x100 on, zero elsewhere.
proof fn lemma_demo_image_index(i: int)
    requires
        0 <= i < PAGE_SIZE,
    ensures
        demo_image().len() == PAGE_SIZE,
        0x100 <= i < 0x100 + 60 ==> demo_image()[i] == demo_chunk(demo_text()[(i - 0x100) / 12])[(i
            - 0x100) % 12],
        i == 0x100 + 60 ==> demo_image()[i] == 0xf4u8,
        0x100 + 60 < i ==> demo_image()[i] == 0u8,
{
    lemma_demo_body_len(demo_text());
    let prog = demo_program(demo_text());
    assert(prog.len() == 61);
    if 0x100 <= i < 0x100 + 61 {
        assert(demo_image()[i] == prog[i - 0x100]);
        if i < 0x100 + 60 {
            let j = (i - 0x100) / 12;
            let m = (i - 0x100) % 12;
            lemma_demo_body_index(demo_text(), j, m);
            assert(12 * j + m == i - 0x100);
        }
    }
}

/// RIP before instruction `k` of the demo run: each text byte takes a ten-byte `mov`
/// and a two-byte `out`, and `hlt` follows the last.
pub open spec fn demo_rip(k: nat) -> u64 {
    if k % 2 == 0 {
        (0x100 + 12 * (k / 2)) as u64
    } else {
        (0x100 + 12 * (k / 2) + 10) as u64
    }
}

/// The operation of instruction `k` of the demo run.
pub open spec fn demo_op(k: nat) -> Operation {
    if k == 10 {
        Operation::Hlt
    } else if k % 2 == 0 {
        Operation::MovImm { dst: Gpr::Rax, width: Width::U64, imm: demo_text()[(k / 2) as int] as u64 }
    } else {
        Operation::OutImm8Al { port: 0xe9 }
    }
}

/// The length of instruction `k` of the demo run.
pub open spec fn demo_len(k: nat) -> nat {
    if k == 10 {
        1
    } else if k % 2 == 0 {
        10
    } else {
        2
    }
}

/// The fifteen bytes fetched for instruction `k`.
pub open spec fn demo_window(k: nat) -> Seq<u8> {
    demo_image().subrange(demo_rip(k) as int, demo_rip(k) + 15)
}

proof fn lemma_div12(j: int, m: int)
    requires
        0 <= j,
        0 <= m < 12,
    ensures
        (12 * j + m) / 12 == j,
        (12 * j + m) % 12 == m,
{
    assert((12 * j + m) / 12 == j && (12 * j + m) % 12 == m) by (nonlinear_arith)
        requires
            0 <= m < 12,
            0 <= j,
    ;
}

proof fn lemma_demo_decode(k: nat)
    requires
        k <= 10,
    ensures
        spec_decode(demo_window(k)) matches Ok((len, _p, _opcode, op)) && len == demo_len(k) && op
            == demo_op(k),
        demo_rip(k) + 15 <= PAGE_SIZE,
{
    let j = (k / 2) as int;
    let rip = demo_rip(k) as int;
    let w = demo_window(k);
    lemma_demo_image_index(0);
    assert(w.len() == 15);
    if k == 10 {
        lemma_demo_image_index(rip);
        lemma_decode_hlt(w);
    } else {
        if k % 2 == 0 {
            assert forall|m: int| 0 <= m < 10 implies w[m] == demo_chunk(demo_text()[j])[m] by {
                lemma_demo_image_index(rip + m);
                lemma_div12(j, m);
                assert(rip + m - 0x100 == 12 * j + m);
            }
            lemma_decode_mov_rax(w, demo_text()[j]);
        } else {
            assert forall|m: int| 0 <= m < 2 implies w[m] == demo_chunk(demo_text()[j])[m + 10] by {
                lemma_demo_image_index(rip + m);
                lemma_div12(j, m + 10);
                assert(rip + m - 0x100 == 12 * j + m + 10);
            }
            lemma_decode_out(w);
        }
    }
}

/// The state of the demo machine before instruction `k` of its run: RAM as loaded,
/// paging off, still running, RIP at the instruction, RAX holding the last byte moved
/// into it, the serial output holding the bytes written so far, and no cached decode
/// at or past RIP.
pub open spec fn demo_at(m: Machine, k: nat) -> bool {
    &&& m.wf()
    &&& m.memory@.bytes == demo_image()
    &&& m.cpu@.2.cr0 == 0
    &&& !m.cpu@.3
    &&& m.run_state == MachineRunState::Running
    &&& m.cpu@.0.1 == demo_rip(k)
    &&& m.cpu@.0.0[0] == (if k == 0 {
        0u64
    } else {
        demo_text()[((k - 1) / 2) as int] as u64
    })
    &&& m.serial.spec_output() == demo_text().take((k / 2) as int)
    &&& forall|i: int|
        0 <= i < m.cache().slots.len() ==> (#[trigger] m.cache().slots[i] matches Some(e)
            ==> e.physical_rip < demo_rip(k))
}

proof fn lemma_no_paging_identity(controls: ControlRegisters, memory: MemoryView, va: u64, access: AccessType)
    requires
        controls.cr0 == 0,
    ensures
        machine_translate(controls, memory, va, access) == Ok::<u64, crate::mmu::MmuError>(va),
{
    reveal(machine_translate);
    let cr0 = controls.cr0;
    assert(cr0 & 0x8000_0000u64 == 0) by (bit_vector)
        requires
            cr0 == 0,
    ;
}

proof fn lemma_demo_fetch_bytes(m: &Machine, rip: u64, n: nat)
    requires
        m.cpu@.2.cr0 == 0,
        m.memory@.bytes == demo_image(),
        rip + 15 <= PAGE_SIZE,
        n <= 15,
    ensures
        fetch_bytes(m, rip, n) == Ok::<Seq<u8>, crate::machine::MachineError>(
            demo_image().subrange(rip as int, rip + n),
        ),
    decreases n,
{
    lemma_demo_image_index(0);
    if n > 0 {
        lemma_demo_fetch_bytes(m, rip, (n - 1) as nat);
        let va = crate::arith::add_mod64(rip as int, n - 1);
        assert(va == rip + n - 1);
        lemma_no_paging_identity(m.cpu.controls, m.memory@, va, AccessType::Execute);
        assert(demo_image().subrange(rip as int, rip + n) =~= demo_image().subrange(
            rip as int,
            rip + n - 1,
        ).push(demo_image()[rip + n - 1]));
        assert(crate::memory::in_bounds(va, 1, m.memory@.bytes.len() as int));
        assert(machine_translate_result(m, va, AccessType::Execute) == Ok::<
            u64,
            crate::machine::MachineError,
        >(va));
    } else {
        assert(demo_image().subrange(rip as int, rip as int) =~= Seq::<u8>::empty());
    }
}

/// Fetching instruction `k` of the demo run misses the cache, reads the instruction
/// from RAM and decodes it; the cache then holds decodes only up to RIP.
proof fn lemma_demo_fetch(
    m: &Machine,
    k: nat,
    c2: CacheView,
    x: u64,
    r: Result<Instruction, crate::machine::MachineError>,
)
    requires
        demo_at(*m, k),
        k <= 10,
        fetch_ensures(m, c2, x, r),
    ensures
        r is Ok,
        r->Ok_0.operation == demo_op(k),
        r->Ok_0.len == demo_len(k),
        x == m.cpu.controls.cr2,
        forall|i: int|
            0 <= i < c2.slots.len() ==> (#[trigger] c2.slots[i] matches Some(e) ==> e.physical_rip
                <= demo_rip(k)),
{
    let rip = m.cpu.registers.rip_value();
    let c = m.cache();
    lemma_demo_decode(k);
    lemma_demo_image_index(0);
    lemma_no_paging_identity(m.cpu.controls, m.memory@, rip, AccessType::Execute);
    assert(machine_translate_result(m, rip, AccessType::Execute) == Ok::<
        u64,
        crate::machine::MachineError,
    >(rip));
    lemma_demo_fetch_bytes(m, rip, 15);
    let key = cache_key_for(m.memory@, rip);
    let i = crate::machine::slot_of(rip);
    assert(0 <= i < c.slots.len());
    let (c1, hit) = match key {
        Some((p, page, generation)) => c.lookup(p, page, generation),
        None => (c, None),
    };
    if key is Some {
        assert(key->Some_0.0 == rip);
        if c.slots[i] is Some {
            assert(c.slots[i]->Some_0.physical_rip < demo_rip(k));
        }
    }
    assert(hit is None);
    assert(c1 == c);
}

/// The demo machine after its `hlt`: halted, RAX holding the newline, the whole text
/// written to the serial port.
pub open spec fn demo_halted(m: Machine) -> bool {
    &&& m.run_state == MachineRunState::Halted
    &&& m.cpu@.0.0[0] == 0x0a
    &&& m.serial.spec_output() == demo_text()
}

/// Instruction `k` of the demo run succeeds and leads to the state before instruction
/// `k + 1`, or, after `hlt`, to the halted machine.
#[verifier::spinoff_prover]
#[verifier::rlimit(40)]
proof fn lemma_demo_step(
    b: &Machine,
    a: &Machine,
    sr: Result<crate::machine::StepReport, crate::machine::MachineError>,
    k: nat,
)
    requires
        demo_at(*b, k),
        k <= 10,
        step_ensures(b, a, sr),
        a.wf(),
    ensures
        sr is Ok,
        k < 10 ==> demo_at(*a, k + 1),
        k == 10 ==> demo_halted(*a),
{
    broadcast use crate::registers::RegisterFile::lemma_shape;

    let controls = b.cpu.controls;
    let bb = crate::machine::bus_of(b, controls);
    let ba = crate::machine::bus_of(a, controls);
    let t = demo_text();
    let j = (k / 2) as int;
    match sr {
        Ok(report) => {
            lemma_demo_fetch(b, k, a.cache(), controls.cr2, Ok(report.instruction));
            let inst = report.instruction;
            assert(execute_with_bus_ensures(b.cpu@, inst, bb, a.cpu@, ba, Ok(report.outcome)));
            if k < 10 && k % 2 == 1 {
                let x = t[j];
                assert((x as u64 & 0xffu64) as u8 == x) by (bit_vector);
                assert(b.cpu@.0.0[0] == x as u64);
                assert(crate::machine::is_serial_port(0xe9u16));
                assert(a.serial.spec_output() =~= t.take(j + 1));
            }
            if k < 10 && k % 2 == 0 {
                assert(a.cpu@.0.0 =~= b.cpu@.0.0.update(0, t[j] as u64));
            }
            if k == 10 {
                assert(report.outcome == ExecuteOutcome::Halted);
                assert(t.take(5) =~= t);
                assert(t[4] == 0x0a);
                assert(a.cpu@.0.0 == b.cpu@.0.0);
            }
            assert forall|i: int| 0 <= i < a.cache().slots.len() implies (#[trigger] a.cache().slots[i] matches Some(e)
                ==> e.physical_rip < demo_rip(k + 1)) by {}
        },
        Err(e) => {
            if fetch_ensures(b, a.cache(), crate::machine::fault_cr2(controls.cr2, e), Err(e)) {
                lemma_demo_fetch(b, k, a.cache(), crate::machine::fault_cr2(controls.cr2, e), Err(e));
            } else {
                let inst = choose|inst: Instruction|
                    #![trigger fetch_ensures(b, a.cache(), controls.cr2, Ok(inst))]
                    fetch_ensures(b, a.cache(), controls.cr2, Ok(inst)) && (
                    e matches crate::machine::MachineError::Execute(ee) && execute_with_bus_ensures(
                        b.cpu@,
                        inst,
                        bb,
                        b.cpu@,
                        ba,
                        Err(ee),
                    ));
                lemma_demo_fetch(b, k, a.cache(), controls.cr2, Ok(inst));
                assert(crate::machine::is_serial_port(0xe9u16));
            }
        },
    }
}

/// From the state before instruction `k`, a run of at most 64 steps that has taken
/// `k` steps ends after eleven steps, halted.
proof fn lemma_demo_run(
    start: Machine,
    end: Machine,
    k: nat,
    r: Result<usize, crate::machine::MachineError>,
)
    requires
        demo_at(start, k),
        k <= 10,
        run_ensures(start, end, k, 64, r),
    ensures
        r == Ok::<usize, crate::machine::MachineError>(11),
        demo_halted(end),
    decreases 10 - k,
{
    let (mid, sr) = choose|mid: Machine, sr: Result<crate::machine::StepReport, crate::machine::MachineError>|
        #[trigger] step_ensures(&start, &mid, sr) && mid.wf() && match sr {
            Err(e) => r == Err::<usize, crate::machine::MachineError>(e)
                && crate::machine::same_machine(&end, &mid),
            Ok(_) => run_ensures(mid, end, k + 1, 64, r),
        };
    lemma_demo_step(&start, &mid, sr, k);
    if k < 10 {
        lemma_demo_run(mid, end, k + 1, r);
    }
}

/// The demo machine, resumed, is the state before the first instruction.
proof fn lemma_demo_start(demo: Machine, start: Machine)
    requires
        is_demo_machine(demo),
        same_but_run_state(&start, &demo),
        start.run_state == MachineRunState::Running,
    ensures
        demo_at(start, 0),
{
    assert(demo_text().take(0) =~= Seq::<u8>::empty());
    assert(demo.cpu@.0.0[0] == 0);
}

} // verus!
