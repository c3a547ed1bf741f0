use vstd::prelude::*;
use crate::arith::{add_mod64, pow64};
use crate::decode::Instruction;
use crate::flags::{add_flags, flag_value, sub_flags, Flag};
use crate::width::Width;
use crate::decode::{decode_operation, prefix_stop, prefixes_of, spec_decode, DecodeError, Operation, Prefixes};
use crate::memory::{next_generation, touches_page, MemoryView};
use crate::execute::{execute_with_bus_ensures, CpuView, ExecuteError, ExecuteOutcome};
use crate::machine::{
    cache_key_for, entry_overlaps, fetch_bytes, fetch_ensures, is_capture_of, is_restore_of, paused, resumed,
    run_ensures,
    step_ensures, CacheView, Machine, MachineBus, MachineError, MachineRunState, MachineSnapshot,
    StepReport, DECODE_CACHE_CAPACITY, TRACE_CAPACITY,
};

verus! {

/// Restoring a captured snapshot gives back the machine's profile, CPU, RAM, serial
/// device, virtual clock, run state and trace, with an empty decode cache; a
/// well-formed machine restores to a well-formed machine.
pub proof fn lemma_snapshot_round_trip(
    m: &Machine,
    created_by: Seq<char>,
    snap: MachineSnapshot,
    restored: &Machine,
)
    requires
        is_capture_of(m, created_by, snap),
        is_restore_of(snap, restored),
    ensures
        restored.profile == m.profile,
        restored.cpu == m.cpu,
        restored.memory@ == m.memory@,
        restored.serial.spec_output() == m.serial.spec_output(),
        restored.serial.spec_input() == m.serial.spec_input(),
        restored.virtual_clock == m.virtual_clock,
        restored.run_state == m.run_state,
        restored.trace@ == m.trace@,
        restored.cache() == CacheView::empty(),
        m.wf() ==> restored.wf(),
{
    if m.wf() {
        crate::machine::lemma_empty_cache_wf();
    }
}

/// A run that ends without an error took between `done` and `max` steps, leaves the
/// machine not running, and advanced the virtual clock by exactly one tick per step.
pub proof fn lemma_run_counts_ticks(start: Machine, end: Machine, done: nat, max: nat, n: usize)
    requires
        run_ensures(start, end, done, max, Ok::<usize, MachineError>(n)),
        done <= max,
        max <= usize::MAX,
    ensures
        done <= n <= max,
        end.run_state != MachineRunState::Running,
        end.virtual_clock@ == add_mod64(start.virtual_clock@ as int, n - done),
    decreases max - done,
{
    if start.run_state != MachineRunState::Running || done >= max {
        assert((start.virtual_clock@ as int + 0) % pow64() == start.virtual_clock@);
    } else {
        let (mid, sr) = choose|mid: Machine, sr: Result<crate::machine::StepReport, MachineError>|
            #[trigger] step_ensures(&start, &mid, sr) && mid.wf() && match sr {
                Err(e) => Ok::<usize, MachineError>(n) == Err::<usize, MachineError>(e)
                    && crate::machine::same_machine(&end, &mid),
                Ok(_) => run_ensures(mid, end, done + 1, max, Ok::<usize, MachineError>(n)),
            };
        lemma_run_counts_ticks(mid, end, done + 1, max, n);
        let a = start.virtual_clock@ as int;
        let k = n - (done + 1);
        assert(mid.virtual_clock@ as int == (a + 1) % pow64());
        vstd::arithmetic::div_mod::lemma_add_mod_noop(a + 1, k, pow64());
        vstd::arithmetic::div_mod::lemma_mod_twice(k, pow64());
        vstd::arithmetic::div_mod::lemma_small_mod(k as nat, pow64() as nat);
        assert(((a + 1) % pow64() + k) % pow64() == (a + 1 + k) % pow64()) by {
            vstd::arithmetic::div_mod::lemma_add_mod_noop((a + 1), k, pow64());
            vstd::arithmetic::div_mod::lemma_mod_twice(a + 1, pow64());
            vstd::arithmetic::div_mod::lemma_add_mod_noop((a + 1) % pow64(), k, pow64());
        }
    }
}

/// A decode stored under a key is what a lookup of that key then finds.
pub proof fn lemma_cache_insert_then_lookup(
    c: CacheView,
    physical_rip: u64,
    page_index: usize,
    page_generation: u32,
    instruction: Instruction,
)
    requires
        c.wf(),
    ensures
        c.insert(physical_rip, page_index, page_generation, instruction).lookup(
            physical_rip,
            page_index,
            page_generation,
        ).1 == Some(instruction),
{
}

/// After an invalidation of a non-empty range, every kept entry was there before and
/// does not overlap the range; when the range fits a `usize`, every entry that does
/// not overlap it is kept (a range past the end of the address space drops
/// everything).
pub proof fn lemma_invalidate_range_drops_overlaps(c: CacheView, start_addr: u64, len: usize)
    requires
        c.wf(),
        len > 0,
    ensures
        forall|i: int|
            0 <= i < DECODE_CACHE_CAPACITY ==> (#[trigger] c.invalidate_range(
                start_addr,
                len,
            ).slots[i] matches Some(e) ==> !entry_overlaps(e, start_addr as int, start_addr + len)
                && c.slots[i] == Some(e)),
        start_addr + len <= usize::MAX ==> forall|i: int|
            0 <= i < DECODE_CACHE_CAPACITY ==> (c.slots[i] is Some && !entry_overlaps(
                c.slots[i]->Some_0,
                start_addr as int,
                start_addr + len,
            ) ==> #[trigger] c.invalidate_range(start_addr, len).slots[i] == c.slots[i]),
{
    if c.entries == 0 {
        crate::machine::lemma_count_some_zero(c.slots);
    }
}

/// Whether two machines agree on everything a step reads: profile, CPU, RAM, serial
/// device, virtual clock, run state, trace and decode cache, each by its value.
pub open spec fn same_state(a: &Machine, b: &Machine) -> bool {
    &&& a.profile == b.profile
    &&& a.cpu@ == b.cpu@
    &&& a.memory@ == b.memory@
    &&& a.serial.spec_output() == b.serial.spec_output()
    &&& a.serial.spec_input() == b.serial.spec_input()
    &&& a.virtual_clock@ == b.virtual_clock@
    &&& a.run_state == b.run_state
    &&& a.trace@ == b.trace@
    &&& a.cache() == b.cache()
}

proof fn lemma_fetch_bytes_same(m1: &Machine, m2: &Machine, rip: u64, k: nat)
    requires
        m1.cpu@ == m2.cpu@,
        m1.memory@ == m2.memory@,
    ensures
        fetch_bytes(m1, rip, k) == fetch_bytes(m2, rip, k),
    decreases k,
{
    if k > 0 {
        lemma_fetch_bytes_same(m1, m2, rip, (k - 1) as nat);
    }
}

proof fn lemma_fetch_functional(
    m1: &Machine,
    m2: &Machine,
    c1: CacheView,
    c2: CacheView,
    x1: u64,
    x2: u64,
    r1: Result<Instruction, MachineError>,
    r2: Result<Instruction, MachineError>,
)
    requires
        m1.cpu@ == m2.cpu@,
        m1.memory@ == m2.memory@,
        m1.cache() == m2.cache(),
        fetch_ensures(m1, c1, x1, r1),
        fetch_ensures(m2, c2, x2, r2),
    ensures
        r1 == r2,
        c1 == c2,
        x1 == x2,
{
    lemma_fetch_bytes_same(m1, m2, m1.cpu.registers.rip_value(), 15);
    if r1 is Ok && r2 is Ok {
        let i1 = r1->Ok_0;
        let i2 = r2->Ok_0;
        assert(i1.bytes =~= i2.bytes) by {
            assert(i1.bytes@ =~= i2.bytes@);
        }
    }
}

/// Whether two buses hold the same RAM, serial device and control registers, by value.
pub open spec fn same_bus(a: MachineBus, b: MachineBus) -> bool {
    &&& a.memory@ == b.memory@
    &&& a.serial.spec_output() == b.serial.spec_output()
    &&& a.serial.spec_input() == b.serial.spec_input()
    &&& a.controls == b.controls
}

proof fn lemma_bus_execute_functional(
    s: CpuView,
    inst: Instruction,
    bus1: MachineBus,
    bus2: MachineBus,
    s21: CpuView,
    s22: CpuView,
    after1: MachineBus,
    after2: MachineBus,
    r1: Result<ExecuteOutcome, ExecuteError>,
    r2: Result<ExecuteOutcome, ExecuteError>,
)
    requires
        same_bus(bus1, bus2),
        execute_with_bus_ensures(s, inst, bus1, s21, after1, r1),
        execute_with_bus_ensures(s, inst, bus2, s22, after2, r2),
    ensures
        s21 == s22,
        r1 == r2,
        same_bus(after1, after2),
{
    match inst.operation {
        Operation::Push { .. } => {},
        Operation::Pop { .. } => {},
        Operation::Ret => {},
        Operation::OutImm8Al { .. } => {},
        _ => {},
    }
}

/// A step is a function of the state it reads: two machines that agree on it step to
/// the same result and to machines that agree on it again.
pub proof fn lemma_step_deterministic(
    b1: &Machine,
    b2: &Machine,
    a1: &Machine,
    a2: &Machine,
    r1: Result<StepReport, MachineError>,
    r2: Result<StepReport, MachineError>,
)
    requires
        same_state(b1, b2),
        step_ensures(b1, a1, r1),
        step_ensures(b2, a2, r2),
    ensures
        r1 == r2,
        same_state(a1, a2),
{
    if b1.run_state == MachineRunState::Halted || b1.cpu.halted {
    } else {
        let controls = b1.cpu.controls;
        let bb1 = crate::machine::bus_of(b1, controls);
        let bb2 = crate::machine::bus_of(b2, controls);
        assert(same_bus(bb1, bb2));
        match r1 {
            Ok(rep1) => lemma_step_ok_vs_any(b1, b2, a1, a2, rep1, r2),
            Err(e1) => match r2 {
                Ok(rep2) => lemma_step_ok_vs_any(b2, b1, a2, a1, rep2, r1),
                Err(e2) => lemma_step_err_vs_err(b1, b2, a1, a2, e1, e2),
            },
        }
    }
}

proof fn lemma_step_ok_vs_any(
    b1: &Machine,
    b2: &Machine,
    a1: &Machine,
    a2: &Machine,
    rep1: StepReport,
    r2: Result<StepReport, MachineError>,
)
    requires
        same_state(b1, b2),
        !(b1.run_state == MachineRunState::Halted || b1.cpu.halted),
        step_ensures(b1, a1, Ok(rep1)),
        step_ensures(b2, a2, r2),
    ensures
        r2 == Ok::<StepReport, MachineError>(rep1),
        same_state(a1, a2),
{
    let controls = b1.cpu.controls;
    let bb1 = crate::machine::bus_of(b1, controls);
    let bb2 = crate::machine::bus_of(b2, controls);
    assert(same_bus(bb1, bb2));
    match r2 {
        Ok(rep2) => {
            lemma_fetch_functional(
                b1,
                b2,
                a1.cache(),
                a2.cache(),
                controls.cr2,
                controls.cr2,
                Ok(rep1.instruction),
                Ok(rep2.instruction),
            );
            lemma_bus_execute_functional(
                b1.cpu@,
                rep1.instruction,
                bb1,
                bb2,
                a1.cpu@,
                a2.cpu@,
                crate::machine::bus_of(a1, controls),
                crate::machine::bus_of(a2, controls),
                Ok(rep1.outcome),
                Ok(rep2.outcome),
            );
            assert(rep1 == rep2);
            assert(a1.trace@ == a2.trace@);
        },
        Err(e2) => {
            if fetch_ensures(b2, a2.cache(), crate::machine::fault_cr2(controls.cr2, e2), Err(e2)) {
                lemma_fetch_functional(
                    b1,
                    b2,
                    a1.cache(),
                    a2.cache(),
                    controls.cr2,
                    crate::machine::fault_cr2(controls.cr2, e2),
                    Ok(rep1.instruction),
                    Err(e2),
                );
            } else {
                let inst = choose|inst: Instruction|
                    #![trigger fetch_ensures(b2, a2.cache(), controls.cr2, Ok(inst))]
                    fetch_ensures(b2, a2.cache(), controls.cr2, Ok(inst)) && (
                    e2 matches MachineError::Execute(ee) && execute_with_bus_ensures(
                        b2.cpu@,
                        inst,
                        bb2,
                        b2.cpu@,
                        crate::machine::bus_of(a2, controls),
                        Err(ee),
                    ));
                lemma_fetch_functional(
                    b1,
                    b2,
                    a1.cache(),
                    a2.cache(),
                    controls.cr2,
                    controls.cr2,
                    Ok(rep1.instruction),
                    Ok(inst),
                );
                let ee = e2->Execute_0;
                lemma_bus_execute_functional(
                    b1.cpu@,
                    inst,
                    bb1,
                    bb2,
                    a1.cpu@,
                    b2.cpu@,
                    crate::machine::bus_of(a1, controls),
                    crate::machine::bus_of(a2, controls),
                    Ok(rep1.outcome),
                    Err(ee),
                );
            }
        },
    }
}

proof fn lemma_step_err_vs_err(
    b1: &Machine,
    b2: &Machine,
    a1: &Machine,
    a2: &Machine,
    e1: MachineError,
    e2: MachineError,
)
    requires
        same_state(b1, b2),
        !(b1.run_state == MachineRunState::Halted || b1.cpu.halted),
        step_ensures(b1, a1, Err(e1)),
        step_ensures(b2, a2, Err(e2)),
    ensures
        e1 == e2,
        same_state(a1, a2),
{
    let controls = b1.cpu.controls;
    let bb1 = crate::machine::bus_of(b1, controls);
    let bb2 = crate::machine::bus_of(b2, controls);
    assert(same_bus(bb1, bb2));
    let f1 = fetch_ensures(b1, a1.cache(), crate::machine::fault_cr2(controls.cr2, e1), Err(e1));
    let f2 = fetch_ensures(b2, a2.cache(), crate::machine::fault_cr2(controls.cr2, e2), Err(e2));
    if f1 && f2 {
        lemma_fetch_functional(
            b1,
            b2,
            a1.cache(),
            a2.cache(),
            crate::machine::fault_cr2(controls.cr2, e1),
            crate::machine::fault_cr2(controls.cr2, e2),
            Err(e1),
            Err(e2),
        );
    } else if f1 {
        let inst2 = choose|inst: Instruction|
            #![trigger fetch_ensures(b2, a2.cache(), controls.cr2, Ok(inst))]
            fetch_ensures(b2, a2.cache(), controls.cr2, Ok(inst)) && (
            e2 matches MachineError::Execute(ee) && execute_with_bus_ensures(
                b2.cpu@,
                inst,
                bb2,
                b2.cpu@,
                crate::machine::bus_of(a2, controls),
                Err(ee),
            ));
        lemma_fetch_functional(
            b1,
            b2,
            a1.cache(),
            a2.cache(),
            crate::machine::fault_cr2(controls.cr2, e1),
            controls.cr2,
            Err(e1),
            Ok(inst2),
        );
    } else if f2 {
        let inst1 = choose|inst: Instruction|
            #![trigger fetch_ensures(b1, a1.cache(), controls.cr2, Ok(inst))]
            fetch_ensures(b1, a1.cache(), controls.cr2, Ok(inst)) && (
            e1 matches MachineError::Execute(ee) && execute_with_bus_ensures(
                b1.cpu@,
                inst,
                bb1,
                b1.cpu@,
                crate::machine::bus_of(a1, controls),
                Err(ee),
            ));
        lemma_fetch_functional(
            b1,
            b2,
            a1.cache(),
            a2.cache(),
            controls.cr2,
            crate::machine::fault_cr2(controls.cr2, e2),
            Ok(inst1),
            Err(e2),
        );
    } else {
        let inst1 = choose|inst: Instruction|
            #![trigger fetch_ensures(b1, a1.cache(), controls.cr2, Ok(inst))]
            fetch_ensures(b1, a1.cache(), controls.cr2, Ok(inst)) && (
            e1 matches MachineError::Execute(ee) && execute_with_bus_ensures(
                b1.cpu@,
                inst,
                bb1,
                b1.cpu@,
                crate::machine::bus_of(a1, controls),
                Err(ee),
            ));
        let inst2 = choose|inst: Instruction|
            #![trigger fetch_ensures(b2, a2.cache(), controls.cr2, Ok(inst))]
            fetch_ensures(b2, a2.cache(), controls.cr2, Ok(inst)) && (
            e2 matches MachineError::Execute(ee) && execute_with_bus_ensures(
                b2.cpu@,
                inst,
                bb2,
                b2.cpu@,
                crate::machine::bus_of(a2, controls),
                Err(ee),
            ));
        lemma_fetch_functional(
            b1,
            b2,
            a1.cache(),
            a2.cache(),
            controls.cr2,
            controls.cr2,
            Ok(inst1),
            Ok(inst2),
        );
        lemma_bus_execute_functional(
            b1.cpu@,
            inst1,
            bb1,
            bb2,
            b1.cpu@,
            b2.cpu@,
            crate::machine::bus_of(a1, controls),
            crate::machine::bus_of(a2, controls),
            Err(e1->Execute_0),
            Err(e2->Execute_0),
        );
    }
}
/// A run is a function of the state it starts from: two machines that agree on what a
/// step reads, run for the same number of steps, end with the same result and agree
/// again.
pub proof fn lemma_run_deterministic(
    start1: Machine,
    start2: Machine,
    end1: Machine,
    end2: Machine,
    done: nat,
    max: nat,
    r1: Result<usize, MachineError>,
    r2: Result<usize, MachineError>,
)
    requires
        same_state(&start1, &start2),
        run_ensures(start1, end1, done, max, r1),
        run_ensures(start2, end2, done, max, r2),
    ensures
        r1 == r2,
        same_state(&end1, &end2),
    decreases max - done,
{
    if start1.run_state != MachineRunState::Running || done >= max {
    } else {
        let (mid1, sr1) = choose|mid: Machine, sr: Result<StepReport, MachineError>|
            #[trigger] step_ensures(&start1, &mid, sr) && mid.wf() && match sr {
                Err(e) => r1 == Err::<usize, MachineError>(e) && crate::machine::same_machine(
                    &end1,
                    &mid,
                ),
                Ok(_) => run_ensures(mid, end1, done + 1, max, r1),
            };
        let (mid2, sr2) = choose|mid: Machine, sr: Result<StepReport, MachineError>|
            #[trigger] step_ensures(&start2, &mid, sr) && mid.wf() && match sr {
                Err(e) => r2 == Err::<usize, MachineError>(e) && crate::machine::same_machine(
                    &end2,
                    &mid,
                ),
                Ok(_) => run_ensures(mid, end2, done + 1, max, r2),
            };
        lemma_step_deterministic(&start1, &start2, &mid1, &mid2, sr1, sr2);
        if sr1 is Ok {
            lemma_run_deterministic(mid1, mid2, end1, end2, done + 1, max, r1, r2);
        }
    }
}

/// A write that touches a page marked executable moves that page to another
/// generation, so a decode cached under the old generation is no longer found; a
/// write marks every page it touches dirty.
pub proof fn lemma_write_advances_touched_pages(m: MemoryView, start: int, input: Seq<u8>, page: int)
    requires
        m.wf(),
        0 <= page < m.pages(),
        touches_page(start, input.len() as int, page),
    ensures
        m.write(start, input).dirty[page],
        m.executable[page] ==> m.write(start, input).generations[page] != m.generations[page],
        m.executable[page] ==> m.write(start, input).generations[page] == next_generation(
            m.generations[page],
        ),
{
}

/// Pausing undoes resuming and resuming undoes pausing; neither moves a halted or
/// faulted machine.
pub proof fn lemma_pause_resume_undo(s: MachineRunState)
    ensures
        s == MachineRunState::Paused ==> paused(resumed(s)) == s,
        s == MachineRunState::Running ==> resumed(paused(s)) == s,
        (s == MachineRunState::Halted || s == MachineRunState::Faulted) ==> paused(s) == s
            && resumed(s) == s,
{
}

/// Whether the kept events are numbered consecutively in the order they were
/// recorded, the newest one just below the next sequence number.
pub open spec fn consecutively_numbered(t: crate::machine::TraceView) -> bool {
    forall|i: int|
        0 <= i < t.events.len() ==> (#[trigger] t.events[i]).sequence == add_mod64(
            t.next_sequence as int,
            i - t.events.len(),
        )
}

/// Recording an event keeps the log within its capacity and its events numbered
/// consecutively, oldest first.
pub proof fn lemma_trace_push_keeps_numbering(t: crate::machine::TraceView, event: crate::machine::TraceEvent)
    requires
        t.events.len() <= TRACE_CAPACITY,
        consecutively_numbered(t),
    ensures
        t.push(event).events.len() <= TRACE_CAPACITY,
        consecutively_numbered(t.push(event)),
        t.push(event).events.last().sequence == t.next_sequence,
{
    let u = t.push(event);
    let n = t.next_sequence as int;
    let k = u.events.len() as int;
    let m = t.events.len() as int;
    assert forall|i: int| 0 <= i < k implies (#[trigger] u.events[i]).sequence == add_mod64(
        u.next_sequence as int,
        i - k,
    ) by {
        assert(add_mod64(u.next_sequence as int, i - k) == add_mod64(n, i - k + 1)) by {
            vstd::arithmetic::div_mod::lemma_add_mod_noop(n + 1, i - k, pow64());
            vstd::arithmetic::div_mod::lemma_mod_twice(n + 1, pow64());
            vstd::arithmetic::div_mod::lemma_add_mod_noop((n + 1) % pow64(), i - k, pow64());
            vstd::arithmetic::div_mod::lemma_mod_twice(i - k, pow64());
        }
        if i == k - 1 {
            assert(add_mod64(n, 0) == n) by {
                vstd::arithmetic::div_mod::lemma_small_mod(n as nat, pow64() as nat);
            }
        } else {
            let j = if m >= TRACE_CAPACITY { i + 1 } else { i };
            assert(u.events[i] == t.events[j]);
            assert(j - m == i - k + 1);
        }
    }
}

proof fn lemma_prefix_stop_agree(a: Seq<u8>, b: Seq<u8>, o: nat)
    requires
        o <= prefix_stop(a, o) < a.len(),
        prefix_stop(a, o) < b.len(),
        forall|i: int| o <= i <= prefix_stop(a, o) ==> a[i] == b[i],
    ensures
        prefix_stop(b, o) == prefix_stop(a, o),
    decreases 15 - o,
{
    if o < a.len() && o < 15 && crate::decode::is_prefix_byte(a[o as int]) {
        lemma_prefix_stop_bounds(a, o + 1);
        lemma_prefix_stop_agree(a, b, o + 1);
    }
}

proof fn lemma_prefix_stop_bounds(a: Seq<u8>, o: nat)
    ensures
        o <= prefix_stop(a, o),
        prefix_stop(a, o) < a.len() && prefix_stop(a, o) < 15 ==> !crate::decode::is_prefix_byte(
            a[prefix_stop(a, o) as int],
        ),
        forall|i: int| o <= i < prefix_stop(a, o) ==> crate::decode::is_prefix_byte(#[trigger] a[i]),
        o <= 15 ==> prefix_stop(a, o) <= 15,
        o <= a.len() ==> prefix_stop(a, o) <= a.len(),
    decreases 15 - o,
{
    if o < a.len() && o < 15 && crate::decode::is_prefix_byte(a[o as int]) {
        lemma_prefix_stop_bounds(a, o + 1);
    }
}

proof fn lemma_prefix_stop_truncated(a: Seq<u8>, k: nat, o: nat)
    requires
        o <= k <= prefix_stop(a, o),
        k < 15,
        k <= a.len(),
    ensures
        prefix_stop(a.take(k as int), o) == k,
    decreases k - o,
{
    lemma_prefix_stop_bounds(a, o);
    if o < k {
        assert(crate::decode::is_prefix_byte(a[o as int]));
        lemma_prefix_stop_bounds(a, o + 1);
        lemma_prefix_stop_truncated(a, k, o + 1);
    }
}

proof fn lemma_prefixes_of_agree(a: Seq<u8>, b: Seq<u8>, n: nat)
    requires
        n <= a.len(),
        n <= b.len(),
        forall|i: int| 0 <= i < n ==> a[i] == b[i],
    ensures
        prefixes_of(a, n) == prefixes_of(b, n),
    decreases n,
{
    if n > 0 {
        lemma_prefixes_of_agree(a, b, (n - 1) as nat);
    }
}

/// Decoding reads only the bytes of the instruction: an empty input is refused as
/// empty, every strict prefix of a decoded instruction is refused as incomplete, and
/// any extension of a decoded instruction decodes to the same instruction.
pub proof fn lemma_decode_reads_only_the_instruction(input: Seq<u8>, ext: Seq<u8>, k: nat)
    ensures
        spec_decode(Seq::<u8>::empty()) == Err::<(nat, Prefixes, u8, Operation), DecodeError>(
            DecodeError::EmptyInput,
        ),
        spec_decode(input) matches Ok((len, _p, _opcode, _op)) ==> (0 < k < len ==> spec_decode(
            input.take(k as int),
        ) == Err::<(nat, Prefixes, u8, Operation), DecodeError>(DecodeError::Incomplete)),
        spec_decode(input) is Ok ==> spec_decode(input + ext) == spec_decode(input),
{
    if spec_decode(input) is Ok {
        let stop = prefix_stop(input, 0);
        lemma_prefix_stop_bounds(input, 0);
        let p = prefixes_of(input, stop);
        let len = spec_decode(input)->Ok_0.0;
        let b = input + ext;
        assert forall|i: int| 0 <= i < input.len() implies b[i] == input[i] by {}
        lemma_prefix_stop_agree(input, b, 0);
        lemma_prefixes_of_agree(input, b, stop);
        assert(decode_operation(b, stop, p) == decode_operation(input, stop, p));
        if 0 < k < len {
            let t = input.take(k as int);
            if k <= stop {
                lemma_prefix_stop_truncated(input, k, 0);
            } else {
                lemma_prefix_stop_agree(input, t, 0);
                lemma_prefixes_of_agree(input, t, stop);
                assert(decode_operation(t, stop, p) == Err::<(nat, Operation), DecodeError>(
                    DecodeError::Incomplete,
                ));
            }
        }
    }
}

/// A well-formed decode cache holds at most its capacity of entries.
pub proof fn lemma_cache_entries_bounded(c: CacheView)
    requires
        c.wf(),
    ensures
        c.entries <= DECODE_CACHE_CAPACITY,
{
    crate::machine::lemma_count_some_le(c.slots);
}

/// How a fetch moves the hit and miss counters: when RIP translates, exactly one of
/// them advances by one (wrapping); when it does not, neither moves.
pub open spec fn fetch_counted(before: CacheView, after: CacheView, translated: bool) -> bool {
    if translated {
        ||| after.hits == add_mod64(before.hits as int, 1) && after.misses == before.misses
        ||| after.misses == add_mod64(before.misses as int, 1) && after.hits == before.hits
    } else {
        after.hits == before.hits && after.misses == before.misses
    }
}

/// Every fetch counts once as a hit or a miss when RIP translates, and not at all when
/// it does not.
pub proof fn lemma_fetch_counts_once(
    m: &Machine,
    c2: CacheView,
    x: u64,
    r: Result<Instruction, MachineError>,
)
    requires
        fetch_ensures(m, c2, x, r),
    ensures
        fetch_counted(
            m.cache(),
            c2,
            crate::machine::machine_translate_result(
                m,
                m.cpu.registers.rip_value(),
                crate::mmu::AccessType::Execute,
            ) is Ok,
        ),
{
}

/// A step counts its fetch: once when RIP translates, not at all when it does not or
/// when the machine is halted.
pub proof fn lemma_step_counts_fetch(b: &Machine, a: &Machine, r: Result<StepReport, MachineError>)
    requires
        step_ensures(b, a, r),
    ensures
        fetch_counted(
            b.cache(),
            a.cache(),
            !(b.run_state == MachineRunState::Halted || b.cpu.halted)
                && crate::machine::machine_translate_result(
                b,
                b.cpu.registers.rip_value(),
                crate::mmu::AccessType::Execute,
            ) is Ok,
        ),
{
    if b.run_state == MachineRunState::Halted || b.cpu.halted {
    } else {
        let controls = b.cpu.controls;
        match r {
            Ok(rep) => lemma_fetch_counts_once(b, a.cache(), controls.cr2, Ok(rep.instruction)),
            Err(e) => {
                if fetch_ensures(b, a.cache(), crate::machine::fault_cr2(controls.cr2, e), Err(e)) {
                    lemma_fetch_counts_once(
                        b,
                        a.cache(),
                        crate::machine::fault_cr2(controls.cr2, e),
                        Err(e),
                    );
                } else {
                    let inst = choose|inst: Instruction|
                        #![trigger fetch_ensures(b, a.cache(), controls.cr2, Ok(inst))]
                        fetch_ensures(b, a.cache(), controls.cr2, Ok(inst)) && (
                        e matches MachineError::Execute(ee) && execute_with_bus_ensures(
                            b.cpu@,
                            inst,
                            crate::machine::bus_of(b, controls),
                            b.cpu@,
                            crate::machine::bus_of(a, controls),
                            Err(ee),
                        ));
                    lemma_fetch_counts_once(b, a.cache(), controls.cr2, Ok(inst));
                }
            },
        }
    }
}

/// The virtual clock counts successful steps: a step that succeeds adds one tick
/// (wrapping), a step that fails or meets a halted machine adds none.
pub proof fn lemma_step_ticks(b: &Machine, a: &Machine, r: Result<StepReport, MachineError>)
    requires
        step_ensures(b, a, r),
    ensures
        r is Ok ==> a.virtual_clock@ == add_mod64(b.virtual_clock@ as int, 1),
        r is Err ==> a.virtual_clock@ == b.virtual_clock@,
{
}

/// Whether the trace agrees with the clock: the next sequence number is the tick
/// count, and each event was taken one tick after its own number.
pub open spec fn trace_follows_clock(m: &Machine) -> bool {
    &&& m.trace@.next_sequence == m.virtual_clock@
    &&& forall|i: int|
        0 <= i < m.trace@.events.len() ==> (#[trigger] m.trace@.events[i]).virtual_ticks_after
            == add_mod64(m.trace@.events[i].sequence as int, 1)
}

/// A step keeps the trace in agreement with the clock and its events numbered
/// consecutively.
pub proof fn lemma_step_keeps_trace(b: &Machine, a: &Machine, r: Result<StepReport, MachineError>)
    requires
        step_ensures(b, a, r),
        b.wf(),
        trace_follows_clock(b),
        consecutively_numbered(b.trace@),
    ensures
        trace_follows_clock(a),
        consecutively_numbered(a.trace@),
        r is Ok ==> a.trace@.events.len() == if b.trace@.events.len() < TRACE_CAPACITY {
            b.trace@.events.len() + 1
        } else {
            TRACE_CAPACITY as nat
        },
        r is Err ==> a.trace@ == b.trace@,
{
    if r is Ok && !(b.run_state == MachineRunState::Halted || b.cpu.halted) {
        let rep = r->Ok_0;
        let ev = crate::machine::trace_event(rep, a);
        lemma_trace_push_keeps_numbering(b.trace@, ev);
        let t = b.trace@;
        let u = a.trace@;
        assert forall|i: int| 0 <= i < u.events.len() implies (#[trigger] u.events[i]).virtual_ticks_after
            == add_mod64(u.events[i].sequence as int, 1) by {
            if i < u.events.len() - 1 {
                let j = if t.events.len() >= TRACE_CAPACITY { i + 1 } else { i };
                assert(u.events[i] == t.events[j]);
            }
        }
    }
}

/// `t` after recording each of `events` in turn.
pub open spec fn push_all(t: crate::machine::TraceView, events: Seq<crate::machine::TraceEvent>) -> crate::machine::TraceView
    decreases events.len(),
{
    if events.len() == 0 {
        t
    } else {
        push_all(t, events.drop_last()).push(events.last())
    }
}

/// After `k` events are recorded into an empty log, it holds the newest `min(k, 256)`
/// of them, numbered consecutively up to `k - 1`.
pub proof fn lemma_trace_after_pushes(events: Seq<crate::machine::TraceEvent>)
    requires
        events.len() < pow64(),
    ensures
        ({
            let t = push_all(
                crate::machine::TraceView { next_sequence: 0, events: Seq::empty() },
                events,
            );
            let k = events.len();
            let n = if k < TRACE_CAPACITY { k } else { TRACE_CAPACITY as nat };
            &&& t.next_sequence == k
            &&& t.events.len() == n
            &&& forall|i: int| 0 <= i < n ==> (#[trigger] t.events[i]).sequence == k - n + i
        }),
    decreases events.len(),
{
    let t0 = crate::machine::TraceView { next_sequence: 0, events: Seq::empty() };
    let t = push_all(t0, events);
    let k = events.len();
    if k > 0 {
        lemma_trace_after_pushes(events.drop_last());
        let before = push_all(t0, events.drop_last());
        assert(consecutively_numbered(before)) by {
            assert forall|i: int| 0 <= i < before.events.len() implies (#[trigger] before.events[i]).sequence
                == add_mod64(before.next_sequence as int, i - before.events.len()) by {
                vstd::arithmetic::div_mod::lemma_small_mod(
                    (before.next_sequence + i - before.events.len()) as nat,
                    pow64() as nat,
                );
            }
        }
        lemma_trace_push_keeps_numbering(before, events.last());
        assert(t.next_sequence == k) by {
            vstd::arithmetic::div_mod::lemma_small_mod(k as nat, pow64() as nat);
        }
        let n = t.events.len();
        assert forall|i: int| 0 <= i < n implies (#[trigger] t.events[i]).sequence == k - n + i by {
            assert(t.events[i].sequence == add_mod64(k as int, i - n));
            vstd::arithmetic::div_mod::lemma_small_mod((k + i - n) as nat, pow64() as nat);
        }
    }
}

/// `m` after each write of `writes` in turn, each a start address and the bytes.
pub open spec fn write_all(m: MemoryView, writes: Seq<(int, Seq<u8>)>) -> MemoryView
    decreases writes.len(),
{
    if writes.len() == 0 {
        m
    } else {
        write_all(m, writes.drop_last()).write(writes.last().0, writes.last().1)
    }
}

/// After a sequence of writes, a page is dirty exactly when it was dirty before or
/// one of the writes touched it; so from a memory with no dirty page, `dirty_pages`
/// then lists exactly the touched pages, in increasing order.
pub proof fn lemma_dirty_after_writes(m: MemoryView, writes: Seq<(int, Seq<u8>)>, page: int)
    requires
        0 <= page < m.dirty.len(),
    ensures
        write_all(m, writes).dirty.len() == m.dirty.len(),
        write_all(m, writes).dirty[page] <==> (m.dirty[page] || exists|i: int|
            0 <= i < writes.len() && #[trigger] touches_page(
                writes[i].0,
                writes[i].1.len() as int,
                page,
            )),
    decreases writes.len(),
{
    if writes.len() > 0 {
        let init = writes.drop_last();
        lemma_dirty_after_writes(m, init, page);
        let w = writes.last();
        if write_all(m, init).dirty[page] && !m.dirty[page] {
            let i = choose|i: int|
                0 <= i < init.len() && #[trigger] touches_page(init[i].0, init[i].1.len() as int, page);
            assert(writes[i] == init[i]);
        }
        if touches_page(w.0, w.1.len() as int, page) {
            assert(writes[writes.len() - 1] == w);
        }
        if exists|i: int|
            0 <= i < writes.len() && #[trigger] touches_page(writes[i].0, writes[i].1.len() as int, page) {
            let i = choose|i: int|
                0 <= i < writes.len() && #[trigger] touches_page(
                    writes[i].0,
                    writes[i].1.len() as int,
                    page,
                );
            if i < writes.len() - 1 {
                assert(init[i] == writes[i]);
            }
        }
    }
}

proof fn lemma_gpr_bytes_layout(regs: Seq<u64>, n: nat)
    ensures
        crate::machine::gpr_bytes(regs, n).len() == 8 * n,
        forall|i: int|
            0 <= i < n ==> #[trigger] crate::machine::gpr_bytes(regs, n).subrange(8 * i, 8 * i + 8)
                == crate::arith::le_bytes_u64(regs[i]),
    decreases n,
{
    if n > 0 {
        let m = (n - 1) as nat;
        lemma_gpr_bytes_layout(regs, m);
        let g = crate::machine::gpr_bytes(regs, n);
        let h = crate::machine::gpr_bytes(regs, m);
        assert forall|i: int| 0 <= i < n implies #[trigger] g.subrange(8 * i, 8 * i + 8)
            == crate::arith::le_bytes_u64(regs[i]) by {
            if i < m {
                assert(g.subrange(8 * i, 8 * i + 8) =~= h.subrange(8 * i, 8 * i + 8));
            } else {
                assert(g.subrange(8 * i, 8 * i + 8) =~= crate::arith::le_bytes_u64(regs[i]));
            }
        }
    }
}

/// The CPU chunk of a snapshot is 185 bytes: the sixteen registers in encoding order,
/// then RIP, RFLAGS, CR0, CR2, CR3, CR4 and EFER, each as eight little-endian bytes,
/// then the halt flag as one byte.
pub proof fn lemma_cpu_chunk_layout(cpu: CpuView)
    requires
        cpu.0.0.len() == 16,
    ensures
        ({
            let c = crate::machine::cpu_chunk(cpu);
            &&& c.len() == 185
            &&& forall|i: int|
                0 <= i < 16 ==> #[trigger] c.subrange(8 * i, 8 * i + 8) == crate::arith::le_bytes_u64(
                    cpu.0.0[i],
                )
            &&& c.subrange(128, 136) == crate::arith::le_bytes_u64(cpu.0.1)
            &&& c.subrange(136, 144) == crate::arith::le_bytes_u64(cpu.1)
            &&& c.subrange(144, 152) == crate::arith::le_bytes_u64(cpu.2.cr0)
            &&& c.subrange(152, 160) == crate::arith::le_bytes_u64(cpu.2.cr2)
            &&& c.subrange(160, 168) == crate::arith::le_bytes_u64(cpu.2.cr3)
            &&& c.subrange(168, 176) == crate::arith::le_bytes_u64(cpu.2.cr4)
            &&& c.subrange(176, 184) == crate::arith::le_bytes_u64(cpu.2.efer)
            &&& c[184] == if cpu.3 {
                1u8
            } else {
                0u8
            }
        }),
{
    let c = crate::machine::cpu_chunk(cpu);
    let g = crate::machine::gpr_bytes(cpu.0.0, 16);
    lemma_gpr_bytes_layout(cpu.0.0, 16);
    assert forall|i: int| 0 <= i < 16 implies #[trigger] c.subrange(8 * i, 8 * i + 8)
        == crate::arith::le_bytes_u64(cpu.0.0[i]) by {
        assert(c.subrange(8 * i, 8 * i + 8) =~= g.subrange(8 * i, 8 * i + 8));
    }
    assert(c.subrange(128, 136) =~= crate::arith::le_bytes_u64(cpu.0.1));
    assert(c.subrange(136, 144) =~= crate::arith::le_bytes_u64(cpu.1));
    assert(c.subrange(144, 152) =~= crate::arith::le_bytes_u64(cpu.2.cr0));
    assert(c.subrange(152, 160) =~= crate::arith::le_bytes_u64(cpu.2.cr2));
    assert(c.subrange(160, 168) =~= crate::arith::le_bytes_u64(cpu.2.cr3));
    assert(c.subrange(168, 176) =~= crate::arith::le_bytes_u64(cpu.2.cr4));
    assert(c.subrange(176, 184) =~= crate::arith::le_bytes_u64(cpu.2.efer));
}

/// The number of filled slots whose entry overlaps `[start, end)`.
pub open spec fn count_overlapping(
    s: Seq<Option<crate::machine::DecodeCacheEntry>>,
    start: int,
    end: int,
) -> nat
    decreases s.len(),
{
    if s.len() == 0 {
        0
    } else {
        count_overlapping(s.drop_last(), start, end) + if s.last() matches Some(e)
            && entry_overlaps(e, start, end) {
            1nat
        } else {
            0nat
        }
    }
}

/// The slots with every entry that overlaps `[start, end)` emptied.
pub open spec fn kept_slots(
    s: Seq<Option<crate::machine::DecodeCacheEntry>>,
    start: int,
    end: int,
) -> Seq<Option<crate::machine::DecodeCacheEntry>> {
    Seq::new(
        s.len(),
        |i: int|
            match s[i] {
                Some(e) => if entry_overlaps(e, start, end) {
                    None
                } else {
                    Some(e)
                },
                None => None,
            },
    )
}

proof fn lemma_count_split(s: Seq<Option<crate::machine::DecodeCacheEntry>>, start: int, end: int)
    ensures
        crate::machine::count_some(s) == crate::machine::count_some(kept_slots(s, start, end))
            + count_overlapping(s, start, end),
    decreases s.len(),
{
    if s.len() > 0 {
        lemma_count_split(s.drop_last(), start, end);
        assert(kept_slots(s, start, end).drop_last() =~= kept_slots(s.drop_last(), start, end));
    }
}

/// An invalidation of a non-empty range that fits a `usize` empties exactly the
/// slots whose entries overlap it: the entry count drops and the invalidation count
/// rises (wrapping) by their number, and hits and misses stay.
pub proof fn lemma_invalidate_range_counts(c: CacheView, start_addr: u64, len: usize)
    requires
        c.wf(),
        len > 0,
        start_addr + len <= usize::MAX,
    ensures
        ({
            let d = c.invalidate_range(start_addr, len);
            let start = start_addr as int;
            let end = start_addr + len;
            let removed = count_overlapping(c.slots, start, end);
            &&& d.slots == kept_slots(c.slots, start, end)
            &&& d.entries == c.entries - removed
            &&& d.invalidations == add_mod64(c.invalidations as int, removed as int)
            &&& d.hits == c.hits
            &&& d.misses == c.misses
        }),
{
    let start = start_addr as int;
    let end = start_addr + len;
    lemma_count_split(c.slots, start, end);
    if c.entries == 0 {
        crate::machine::lemma_count_some_zero(c.slots);
        assert(kept_slots(c.slots, start, end) =~= c.slots);
        assert(c.invalidations < pow64());
        vstd::arithmetic::div_mod::lemma_small_mod(c.invalidations as nat, pow64() as nat);
    } else {
        assert(c.invalidate_range(start_addr, len).slots =~= kept_slots(c.slots, start, end));
    }
}

proof fn lemma_same_page_bits(va: u64, w: u64, i: u64, b: u64)
    requires
        (va & 0xfff) + i < 0x1000,
        w == (va + i) as u64,
    ensures
        va + i <= 0xffff_ffff_ffff_ffff,
        ((b & 0x000f_ffff_c000_0000) | (va & 0x3fff_ffff)) & 0xfff == va & 0xfff,
        ((b & 0x000f_ffff_ffe0_0000) | (va & 0x1f_ffff)) & 0xfff == va & 0xfff,
        ((b & 0x000f_ffff_ffff_f000) | (va & 0xfff)) & 0xfff == va & 0xfff,
        (w >> 39u64) & 0x1ff == (va >> 39u64) & 0x1ff,
        (w >> 30u64) & 0x1ff == (va >> 30u64) & 0x1ff,
        (w >> 21u64) & 0x1ff == (va >> 21u64) & 0x1ff,
        (w >> 12u64) & 0x1ff == (va >> 12u64) & 0x1ff,
        (b & 0x000f_ffff_c000_0000) | (w & 0x3fff_ffff) == ((b & 0x000f_ffff_c000_0000) | (va
            & 0x3fff_ffff)) + i,
        (b & 0x000f_ffff_ffe0_0000) | (w & 0x1f_ffff) == ((b & 0x000f_ffff_ffe0_0000) | (va
            & 0x1f_ffff)) + i,
        (b & 0x000f_ffff_ffff_f000) | (w & 0xfff) == ((b & 0x000f_ffff_ffff_f000) | (va & 0xfff))
            + i,
        (w < 0x0000_8000_0000_0000 || w >= 0xffff_8000_0000_0000) == (va < 0x0000_8000_0000_0000
            || va >= 0xffff_8000_0000_0000),
{
    assert(
        va + i <= 0xffff_ffff_ffff_ffff
        && (w >> 39u64) & 0x1ff == (va >> 39u64) & 0x1ff
        && (w >> 30u64) & 0x1ff == (va >> 30u64) & 0x1ff
        && (w >> 21u64) & 0x1ff == (va >> 21u64) & 0x1ff
        && (w >> 12u64) & 0x1ff == (va >> 12u64) & 0x1ff
        && (w < 0x0000_8000_0000_0000 || w >= 0xffff_8000_0000_0000) == (va < 0x0000_8000_0000_0000
            || va >= 0xffff_8000_0000_0000)
    ) by (bit_vector)
        requires
            (va & 0xfff) + i < 0x1000,
            w == (va + i) as u64,
    ;
    assert(
        ((b & 0x000f_ffff_c000_0000) | (va & 0x3fff_ffff)) & 0xfff == va & 0xfff
        && ((b & 0x000f_ffff_ffe0_0000) | (va & 0x1f_ffff)) & 0xfff == va & 0xfff
        && ((b & 0x000f_ffff_ffff_f000) | (va & 0xfff)) & 0xfff == va & 0xfff
        && (b & 0x000f_ffff_c000_0000) | (w & 0x3fff_ffff) == ((b & 0x000f_ffff_c000_0000) | (va
            & 0x3fff_ffff)) + i
        && (b & 0x000f_ffff_ffe0_0000) | (w & 0x1f_ffff) == ((b & 0x000f_ffff_ffe0_0000) | (va
            & 0x1f_ffff)) + i
        && (b & 0x000f_ffff_ffff_f000) | (w & 0xfff) == ((b & 0x000f_ffff_ffff_f000) | (va & 0xfff))
            + i
    ) by (bit_vector)
        requires
            (va & 0xfff) + i < 0x1000,
            w == (va + i) as u64,
    ;
}

/// A translation that succeeds for `va` succeeds for every later address of the same
/// 4 KiB page, `i` bytes further in physical memory.
proof fn lemma_translate_contiguous(
    controls: crate::system::ControlRegisters,
    read: spec_fn(u64) -> Result<u64, crate::mmu::MmuError>,
    va: u64,
    i: u64,
    access: crate::mmu::AccessType,
)
    requires
        (va & 0xfff) + i < 0x1000,
        crate::mmu::translate_with(controls, read, crate::machine::supervisor_request(va, access))
            is Ok,
    ensures
        va + i <= u64::MAX,
        crate::mmu::translate_with(
            controls,
            read,
            crate::machine::supervisor_request((va + i) as u64, access),
        ) is Ok,
        crate::mmu::translate_with(
            controls,
            read,
            crate::machine::supervisor_request((va + i) as u64, access),
        )->Ok_0.physical_addr == crate::mmu::translate_with(
            controls,
            read,
            crate::machine::supervisor_request(va, access),
        )->Ok_0.physical_addr + i,
        crate::mmu::translate_with(controls, read, crate::machine::supervisor_request(va, access))->Ok_0.physical_addr
            & 0xfff == va & 0xfff,
{
    let w = (va + i) as u64;
    let r1 = crate::machine::supervisor_request(va, access);
    let r2 = crate::machine::supervisor_request(w, access);
    let t = crate::mmu::translate_with(controls, read, r1);
    if controls.spec_paging_enabled() && controls.spec_pae_enabled() && controls.spec_long_mode_enabled() {
        let pml4e = crate::mmu::walk_entry(read, r1, controls.spec_cr3_base(), crate::mmu::table_index(va, 39))->Ok_0;
        let pdpte = crate::mmu::walk_entry(read, r1, crate::mmu::spec_entry_addr_4k(pml4e), crate::mmu::table_index(va, 30))->Ok_0;
        let pde = crate::mmu::walk_entry(read, r1, crate::mmu::spec_entry_addr_4k(pdpte), crate::mmu::table_index(va, 21))->Ok_0;
        let pte = crate::mmu::walk_entry(read, r1, crate::mmu::spec_entry_addr_4k(pde), crate::mmu::table_index(va, 12))->Ok_0;
        lemma_same_page_bits(va, w, i, pdpte);
        lemma_same_page_bits(va, w, i, pde);
        lemma_same_page_bits(va, w, i, pte);
    } else {
        lemma_same_page_bits(va, w, i, 0);
    }
}

proof fn lemma_low_bits_are_page_offset(x: u64)
    ensures
        x & 0xfff == x % 4096,
{
    assert(x & 0xfff == x % 4096) by (bit_vector);
}

/// The fifteen bytes of RAM from physical `phys`.
pub open spec fn ram_window(memory: MemoryView, phys: u64) -> Seq<u8> {
    memory.bytes.subrange(phys as int, phys + 15)
}

proof fn lemma_key_fits(memory: MemoryView, phys: u64)
    requires
        memory.wf(),
        cache_key_for(memory, phys) is Some,
    ensures
        phys + 15 <= memory.bytes.len(),
        (phys & 0xfff) + 15 <= 0x1000,
        cache_key_for(memory, phys)->Some_0.1 == phys / 4096,
{
    lemma_low_bits_are_page_offset(phys);
    let len = memory.bytes.len();
    assert(phys + 15 <= len) by (nonlinear_arith)
        requires
            phys < len,
            len % 4096 == 0,
            phys % 4096 + 15 <= 4096,
    {
        assert(phys == 4096 * (phys / 4096) + phys % 4096);
        assert(len == 4096 * (len / 4096));
        assert(phys / 4096 < len / 4096);
    }
}

/// When RIP translates to a physical address that has a cache key, the fetched bytes
/// are the fifteen bytes of RAM from that address.
proof fn lemma_fetch_reads_window(m: &Machine, rip: u64, phys: u64, n: nat)
    requires
        m.memory@.wf(),
        crate::machine::machine_translate_result(m, rip, crate::mmu::AccessType::Execute)
            == Ok::<u64, MachineError>(phys),
        cache_key_for(m.memory@, phys) is Some,
        n <= 15,
    ensures
        fetch_bytes(m, rip, n) == Ok::<Seq<u8>, MachineError>(
            m.memory@.bytes.subrange(phys as int, phys + n),
        ),
    decreases n,
{
    lemma_key_fits(m.memory@, phys);
    reveal(crate::machine::machine_translate);
    let read = crate::machine::phys_reader(m.memory@.bytes);
    lemma_low_bits_are_page_offset(rip);
    lemma_translate_contiguous(m.cpu.controls, read, rip, 0, crate::mmu::AccessType::Execute);
    if n > 0 {
        lemma_fetch_reads_window(m, rip, phys, (n - 1) as nat);
        let i = (n - 1) as u64;
        lemma_translate_contiguous(m.cpu.controls, read, rip, i, crate::mmu::AccessType::Execute);
        let va = add_mod64(rip as int, n - 1);
        assert(va == rip + i) by {
            vstd::arithmetic::div_mod::lemma_small_mod((rip + i) as nat, pow64() as nat);
        }
        assert(crate::machine::machine_translate_result(m, va, crate::mmu::AccessType::Execute)
            == Ok::<u64, MachineError>((phys + i) as u64));
        assert(m.memory@.bytes.subrange(phys as int, phys + n) =~= m.memory@.bytes.subrange(
            phys as int,
            phys + n - 1,
        ).push(m.memory@.bytes[phys + n - 1]));
    } else {
        assert(m.memory@.bytes.subrange(phys as int, phys as int) =~= Seq::<u8>::empty());
    }
}

/// Two inputs that agree on the bytes of an instruction decoded from one of them
/// decode alike.
pub proof fn lemma_decode_agrees(a: Seq<u8>, b: Seq<u8>)
    requires
        spec_decode(a) is Ok,
        b.len() >= spec_decode(a)->Ok_0.0,
        forall|i: int| 0 <= i < spec_decode(a)->Ok_0.0 ==> a[i] == b[i],
    ensures
        spec_decode(b) == spec_decode(a),
{
    let stop = prefix_stop(a, 0);
    lemma_prefix_stop_bounds(a, 0);
    let p = prefixes_of(a, stop);
    let len = spec_decode(a)->Ok_0.0;
    assert(stop < len);
    lemma_prefix_stop_agree(a, b, 0);
    lemma_prefixes_of_agree(a, b, stop);
    let opcode = a[stop as int];
    let o: int = stop as int + 1;
    if opcode == 0x0f {
        assert(b[o] == a[o]);
    } else if opcode == 0x05 || opcode == 0xe9 {
        assert(b[o] == a[o] && b[o + 1] == a[o + 1] && b[o + 2] == a[o + 2] && b[o
            + 3] == a[o + 3]);
    } else if 0xb8 <= opcode && opcode <= 0xbf {
        assert(b[o] == a[o] && b[o + 1] == a[o + 1] && b[o + 2] == a[o + 2] && b[o
            + 3] == a[o + 3]);
        if crate::decode::spec_accumulator_width(p) == crate::width::Width::U64 {
            assert(b[o + 4] == a[o + 4] && b[o + 5] == a[o + 5] && b[o + 6] == a[o + 6] && b[o
                + 7] == a[o + 7]);
        }
    } else if opcode == 0xe6 {
        assert(b[o] == a[o]);
    }
    assert(decode_operation(b, stop, p) == decode_operation(a, stop, p));
}

/// Whether a cached entry's recorded generation is its page's generation now.
pub open spec fn entry_current(memory: MemoryView, e: crate::machine::DecodeCacheEntry) -> bool {
    e.page_index < memory.generations.len() && e.page_generation
        == memory.generations[e.page_index as int]
}

/// Whether a cached entry agrees with RAM: its generation is not ahead of its page's,
/// and while it is the page's generation (so a lookup can find the entry), the entry
/// sits under the key of its address and holds what decoding RAM there gives.
pub open spec fn entry_coherent(memory: MemoryView, e: crate::machine::DecodeCacheEntry) -> bool {
    &&& e.page_index < memory.generations.len()
    &&& e.page_generation <= memory.generations[e.page_index as int]
    &&& entry_current(memory, e) ==> {
        &&& cache_key_for(memory, e.physical_rip) == Some(
            (e.physical_rip, e.page_index, e.page_generation),
        )
        &&& crate::decode::decoded_from(e.instruction, ram_window(memory, e.physical_rip))
    }
}

/// Whether every cached decode agrees with RAM.
pub open spec fn cache_coherent(memory: MemoryView, c: CacheView) -> bool {
    forall|i: int|
        0 <= i < c.slots.len() ==> (#[trigger] c.slots[i] matches Some(e) ==> entry_coherent(
            memory,
            e,
        ))
}

/// What a fetch with nothing cached gives: the execute translation of RIP, the
/// fifteen bytes fetched from RIP, and their decode, the first failure ending it.
pub open spec fn cold_fetch(m: &Machine, r: Result<Instruction, MachineError>) -> bool {
    let rip = m.cpu.registers.rip_value();
    match crate::machine::machine_translate_result(m, rip, crate::mmu::AccessType::Execute) {
        Err(e) => r == Err::<Instruction, MachineError>(e),
        Ok(_) => match fetch_bytes(m, rip, 15) {
            Err(e) => r == Err::<Instruction, MachineError>(e),
            Ok(bytes) => match spec_decode(bytes) {
                Err(d) => r == Err::<Instruction, MachineError>(MachineError::Decode(d)),
                Ok(_) => r is Ok && crate::decode::decoded_from(r->Ok_0, bytes),
            },
        },
    }
}

/// An empty decode cache agrees with any RAM; so does the cache of a new or restored
/// machine.
pub proof fn lemma_empty_cache_coherent(memory: MemoryView)
    ensures
        cache_coherent(memory, CacheView::empty()),
{
}

/// With a cache that agrees with RAM, a fetch gives what a fetch with nothing cached
/// gives, hit or miss, and leaves a cache that still agrees with RAM.
pub proof fn lemma_coherent_fetch_is_cold(
    m: &Machine,
    c2: CacheView,
    x: u64,
    r: Result<Instruction, MachineError>,
)
    requires
        m.wf(),
        cache_coherent(m.memory@, m.cache()),
        fetch_ensures(m, c2, x, r),
    ensures
        cold_fetch(m, r),
        cache_coherent(m.memory@, c2),
{
    let rip = m.cpu.registers.rip_value();
    let c = m.cache();
    match crate::machine::machine_translate_result(m, rip, crate::mmu::AccessType::Execute) {
        Err(_) => {},
        Ok(phys) => {
            let key = cache_key_for(m.memory@, phys);
            if key is Some {
                lemma_fetch_reads_window(m, rip, phys, 15);
                let i = crate::machine::slot_of(phys);
                let (p, page, generation) = key->Some_0;
                assert(p == phys);
                if c.slots[i] is Some {
                    let e = c.slots[i]->Some_0;
                    if e.physical_rip == phys && e.page_index == page && e.page_generation
                        == generation {
                        assert(entry_coherent(m.memory@, e));
                        assert(entry_current(m.memory@, e));
                    }
                }
            }
            assert forall|j: int| 0 <= j < c2.slots.len() implies (#[trigger] c2.slots[j] matches Some(e)
                ==> entry_coherent(m.memory@, e)) by {
                if c2.slots[j] is Some && j < c.slots.len() && c.slots[j] == c2.slots[j] {
                    assert(c.slots[j] matches Some(e) ==> entry_coherent(m.memory@, e));
                }
            }
        },
    }
}

/// Whether a write of `len` bytes at `start` keeps to the discipline that keeps the
/// decode cache true: a page it touches that is marked executable and holds a cached
/// entry has not reached the last generation, and it changes no byte of a decode a
/// lookup can still find unless that decode's page is marked executable.
pub open spec fn write_respects_cache(memory: MemoryView, c: CacheView, start: int, len: int) -> bool {
    forall|i: int|
        0 <= i < c.slots.len() ==> (#[trigger] c.slots[i] matches Some(e) ==> {
            &&& (touches_page(start, len, e.page_index as int) && e.page_index
                < memory.executable.len() && memory.executable[e.page_index as int])
                ==> memory.generations[e.page_index as int] < u32::MAX
            &&& (len > 0 && entry_current(memory, e) && crate::machine::spec_ranges_overlap(
                start,
                start + len,
                e.physical_rip as int,
                e.physical_rip + e.instruction.len,
            )) ==> memory.executable[e.page_index as int]
        })
}

proof fn lemma_write_keeps_entry(memory: MemoryView, e: crate::machine::DecodeCacheEntry, start: int, input: Seq<u8>)
    requires
        memory.wf(),
        entry_coherent(memory, e),
        0 <= start,
        start + input.len() <= memory.bytes.len(),
        (touches_page(start, input.len() as int, e.page_index as int) && memory.executable[e.page_index as int])
            ==> memory.generations[e.page_index as int] < u32::MAX,
        (input.len() > 0 && entry_current(memory, e) && crate::machine::spec_ranges_overlap(
            start,
            start + input.len(),
            e.physical_rip as int,
            e.physical_rip + e.instruction.len,
        )) ==> memory.executable[e.page_index as int],
    ensures
        entry_coherent(memory.write(start, input), e),
{
    let after = memory.write(start, input);
    let p = e.page_index as int;
    let len = input.len() as int;
    let touched_exec = touches_page(start, len, p) && memory.executable[p];
    if !touched_exec && entry_current(memory, e) {
        let phys = e.physical_rip;
        lemma_key_fits(memory, phys);
        lemma_low_bits_are_page_offset(phys);
        let n = e.instruction.len as int;
        let w = ram_window(memory, phys);
        assert(spec_decode(w) is Ok && n == spec_decode(w)->Ok_0.0 && n <= 15);
        if len > 0 && crate::machine::spec_ranges_overlap(start, start + len, phys as int, phys + n) {
            let x = if start > phys { start } else { phys as int };
            assert(x / 4096 == p) by (nonlinear_arith)
                requires
                    phys <= x < phys + 15,
                    phys % 4096 + 15 <= 4096,
                    p == phys / 4096,
            {
                assert(phys == 4096 * p + phys % 4096);
            }
            vstd::arithmetic::div_mod::lemma_div_is_ordered(start, x, 4096);
            vstd::arithmetic::div_mod::lemma_div_is_ordered(x, start + len - 1, 4096);
            assert(touches_page(start, len, p));
        } else {
            let w2 = ram_window(after, phys);
            assert forall|j: int| 0 <= j < n implies w[j] == w2[j] by {
                let k = phys + j;
                assert(w[j] == memory.bytes[k]);
                assert(w2[j] == after.bytes[k]);
                if k < start {
                    assert(after.bytes[k] == memory.bytes.subrange(0, start)[k]);
                } else {
                    assert(k >= start + len);
                    assert(after.bytes[k] == memory.bytes.subrange(
                        start + len,
                        memory.bytes.len() as int,
                    )[k - start - len]);
                }
            }
            lemma_decode_agrees(w, w2);
            assert(e.instruction.bytes@ =~= w2.take(n) + Seq::new((15 - n) as nat, |j: int| 0u8)) by {
                assert(w.take(n) =~= w2.take(n));
            }
        }
    }
}

/// A write that keeps to the discipline keeps the decode cache agreeing with RAM.
pub proof fn lemma_write_keeps_coherence(memory: MemoryView, c: CacheView, start: int, input: Seq<u8>)
    requires
        memory.wf(),
        cache_coherent(memory, c),
        0 <= start,
        start + input.len() <= memory.bytes.len(),
        write_respects_cache(memory, c, start, input.len() as int),
    ensures
        cache_coherent(memory.write(start, input), c),
{
    assert forall|i: int| 0 <= i < c.slots.len() implies (#[trigger] c.slots[i] matches Some(e)
        ==> entry_coherent(memory.write(start, input), e)) by {
        if c.slots[i] is Some {
            lemma_write_keeps_entry(memory, c.slots[i]->Some_0, start, input);
        }
    }
}

/// The RAM that `load_program` leaves: `bytes` written at `addr`, and every page the
/// write touched marked executable.
pub open spec fn loaded(memory: MemoryView, addr: u64, bytes: Seq<u8>) -> MemoryView {
    MemoryView {
        executable: Seq::new(
            memory.pages(),
            |p: int| memory.executable[p] || touches_page(addr as int, bytes.len() as int, p),
        ),
        ..memory.write(addr as int, bytes)
    }
}

/// Loading a program keeps the decode cache agreeing with RAM, when no page the load
/// touches that is already executable has reached the last generation.
pub proof fn lemma_load_keeps_coherence(memory: MemoryView, c: CacheView, addr: u64, bytes: Seq<u8>)
    requires
        memory.wf(),
        c.wf(),
        cache_coherent(memory, c),
        addr + bytes.len() <= memory.bytes.len(),
        addr + bytes.len() <= usize::MAX,
        forall|p: int|
            0 <= p < memory.pages() && touches_page(addr as int, bytes.len() as int, p)
                && memory.executable[p] ==> memory.generations[p] < u32::MAX,
    ensures
        cache_coherent(loaded(memory, addr, bytes), c.invalidate_range(addr, bytes.len() as usize)),
{
    let d = c.invalidate_range(addr, bytes.len() as usize);
    let after = loaded(memory, addr, bytes);
    let start = addr as int;
    let end = addr + bytes.len();
    if c.entries == 0 {
        crate::machine::lemma_count_some_zero(c.slots);
    }
    assert forall|i: int| 0 <= i < d.slots.len() implies (#[trigger] d.slots[i] matches Some(e)
        ==> entry_coherent(after, e)) by {
        if d.slots[i] is Some {
            let e = d.slots[i]->Some_0;
            assert(c.slots[i] == d.slots[i]);
            assert(entry_coherent(memory, e));
            if bytes.len() > 0 {
                assert(!entry_overlaps(e, start, end));
            }
            lemma_write_keeps_entry(memory, e, start, bytes);
        }
    }
}

/// Whether each byte of a bus write of the first `k` bytes of `data` at virtual
/// `addr` keeps to the discipline of `write_respects_cache`, in the RAM as the earlier
/// bytes left it.
pub open spec fn bus_write_respects(
    memory: MemoryView,
    controls: crate::system::ControlRegisters,
    addr: u64,
    data: Seq<u8>,
    k: nat,
    c: CacheView,
) -> bool
    decreases k,
{
    if k == 0 {
        true
    } else {
        &&& bus_write_respects(memory, controls, addr, data, (k - 1) as nat, c)
        &&& {
            let (m, r) = crate::machine::bus_write_bytes(memory, controls, addr, data, (k - 1) as nat);
            let va = add_mod64(addr as int, k - 1);
            match r {
                Err(_) => true,
                Ok(_) => match crate::machine::machine_translate(
                    controls,
                    m,
                    va,
                    crate::mmu::AccessType::Write,
                ) {
                    Err(_) => true,
                    Ok(pa) => write_respects_cache(m, c, pa as int, 1),
                },
            }
        }
    }
}

/// A bus write whose every byte keeps to the discipline keeps the decode cache
/// agreeing with RAM.
pub proof fn lemma_bus_write_keeps_coherence(
    memory: MemoryView,
    controls: crate::system::ControlRegisters,
    addr: u64,
    data: Seq<u8>,
    k: nat,
    c: CacheView,
)
    requires
        memory.wf(),
        cache_coherent(memory, c),
        k <= data.len(),
        bus_write_respects(memory, controls, addr, data, k, c),
    ensures
        crate::machine::bus_write_bytes(memory, controls, addr, data, k).0.wf(),
        cache_coherent(crate::machine::bus_write_bytes(memory, controls, addr, data, k).0, c),
    decreases k,
{
    if k > 0 {
        lemma_bus_write_keeps_coherence(memory, controls, addr, data, (k - 1) as nat, c);
        let (m, r) = crate::machine::bus_write_bytes(memory, controls, addr, data, (k - 1) as nat);
        let va = add_mod64(addr as int, k - 1);
        if r is Ok {
            if let Ok(pa) = crate::machine::machine_translate(controls, m, va, crate::mmu::AccessType::Write) {
                if crate::memory::in_bounds(pa, 1, m.bytes.len() as int) {
                    lemma_write_keeps_coherence(m, c, pa as int, seq![data[k - 1]]);
                }
            }
        }
    }
}

/// A step keeps the decode cache agreeing with RAM when its stack write, if the
/// instruction is a `push`, keeps to the discipline byte by byte.
pub proof fn lemma_step_keeps_coherence(b: &Machine, a: &Machine, r: Result<StepReport, MachineError>)
    requires
        b.wf(),
        cache_coherent(b.memory@, b.cache()),
        step_ensures(b, a, r),
        forall|src: crate::registers::Gpr|
            #![trigger crate::execute::regs_value(b.cpu@.0, src)]
            bus_write_respects(
                b.memory@,
                b.cpu.controls,
                add_mod64(crate::execute::regs_value(b.cpu@.0, crate::registers::Gpr::Rsp) as int, -8),
                crate::arith::le_bytes_u64(crate::execute::regs_value(b.cpu@.0, src)),
                8,
                a.cache(),
            ),
    ensures
        cache_coherent(a.memory@, a.cache()),
{
    if b.run_state == MachineRunState::Halted || b.cpu.halted {
    } else {
        let controls = b.cpu.controls;
        let bb = crate::machine::bus_of(b, controls);
        let ba = crate::machine::bus_of(a, controls);
        let fetched: Option<Instruction> = match r {
            Ok(rep) => {
                lemma_coherent_fetch_is_cold(b, a.cache(), controls.cr2, Ok(rep.instruction));
                Some(rep.instruction)
            },
            Err(e) => {
                if fetch_ensures(b, a.cache(), crate::machine::fault_cr2(controls.cr2, e), Err(e)) {
                    lemma_coherent_fetch_is_cold(
                        b,
                        a.cache(),
                        crate::machine::fault_cr2(controls.cr2, e),
                        Err(e),
                    );
                    None
                } else {
                    let inst = choose|inst: Instruction|
                        #![trigger fetch_ensures(b, a.cache(), controls.cr2, Ok(inst))]
                        fetch_ensures(b, a.cache(), controls.cr2, Ok(inst)) && (
                        e matches MachineError::Execute(ee) && execute_with_bus_ensures(
                            b.cpu@,
                            inst,
                            bb,
                            b.cpu@,
                            ba,
                            Err(ee),
                        ));
                    lemma_coherent_fetch_is_cold(b, a.cache(), controls.cr2, Ok(inst));
                    Some(inst)
                }
            },
        };
        if fetched is Some && fetched->Some_0.operation is Push {
            let src = fetched->Some_0.operation->Push_src;
            let _ = crate::execute::regs_value(b.cpu@.0, src);
            lemma_bus_write_keeps_coherence(
                b.memory@,
                controls,
                add_mod64(crate::execute::regs_value(b.cpu@.0, crate::registers::Gpr::Rsp) as int, -8),
                crate::arith::le_bytes_u64(crate::execute::regs_value(b.cpu@.0, src)),
                8,
                a.cache(),
            );
        }
    }
}

// ---------------------------------------------------------------------------
// What the arithmetic flags, the decoder, the page walk and `add` mean
// ---------------------------------------------------------------------------

/// The two's-complement value of `x`, read at the width whose sign bit is `sign`.
pub open spec fn signed_at(x: u64, sign: u64) -> int {
    if x >= sign {
        x - 2 * sign
    } else {
        x as int
    }
}

proof fn lemma_overflow_bits(l: u64, r: u64, s: u64, sign: u64)
    requires
        (sign == 0x80 && l <= 0xff && r <= 0xff && s <= 0xff) || (sign == 0x8000 && l <= 0xffff
            && r <= 0xffff && s <= 0xffff) || (sign == 0x8000_0000 && l <= 0xffff_ffff && r
            <= 0xffff_ffff && s <= 0xffff_ffff) || sign == 0x8000_0000_0000_0000,
    ensures
        (((!(l ^ r) & (l ^ s)) & sign) != 0) == ((l >= sign) == (r >= sign) && (s >= sign) != (l
            >= sign)),
        ((((l ^ r) & (l ^ s)) & sign) != 0) == ((l >= sign) != (r >= sign) && (s >= sign) != (l
            >= sign)),
        (s & sign != 0) == (s >= sign),
{
    assert((((!(l ^ r) & (l ^ s)) & sign) != 0) == ((l >= sign) == (r >= sign) && (s >= sign) != (l
        >= sign)) && ((((l ^ r) & (l ^ s)) & sign) != 0) == ((l >= sign) != (r >= sign) && (s
        >= sign) != (l >= sign)) && (s & sign != 0) == (s >= sign)) by (bit_vector)
        requires
            (sign == 0x80 && l <= 0xff && r <= 0xff && s <= 0xff) || (sign == 0x8000 && l <= 0xffff
                && r <= 0xffff && s <= 0xffff) || (sign == 0x8000_0000 && l <= 0xffff_ffff && r
                <= 0xffff_ffff && s <= 0xffff_ffff) || sign == 0x8000_0000_0000_0000,
    ;
}

/// OF after an addition or a subtraction is signed overflow. After `lhs + rhs` it is
/// set exactly when both operands, cut to the width, have the same sign and the
/// result's sign differs (so operands of opposite signs never set it); after
/// `lhs - rhs`, exactly when the operands' signs differ and the result's sign differs
/// from `lhs`'s. When the result is the wrapped sum or difference, OF is set exactly
/// when the two's-complement sum or difference of the operands differs from the
/// two's-complement result, that is, falls outside the width's signed range.
pub proof fn lemma_overflow_is_signed_overflow(bits: u64, width: Width, lhs: u64, rhs: u64, result: u64)
    ensures
        ({
            let l = width.spec_truncate(lhs);
            let r = width.spec_truncate(rhs);
            let s = width.spec_truncate(result);
            let sign = width.spec_sign_bit();
            let m = width.modulus();
            let add_of = flag_value(add_flags(bits, width, lhs, rhs, result), Flag::Overflow);
            let sub_of = flag_value(sub_flags(bits, width, lhs, rhs, result), Flag::Overflow);
            &&& add_of == ((l >= sign) == (r >= sign) && (s >= sign) != (l >= sign))
            &&& sub_of == ((l >= sign) != (r >= sign) && (s >= sign) != (l >= sign))
            &&& s as int == (l + r) % m ==> (add_of <==> signed_at(l, sign) + signed_at(r, sign)
                != signed_at(s, sign))
            &&& s as int == (l - r) % m ==> (sub_of <==> signed_at(l, sign) - signed_at(r, sign)
                != signed_at(s, sign))
        }),
{
    let l = width.spec_truncate(lhs);
    let r = width.spec_truncate(rhs);
    let s = width.spec_truncate(result);
    let sign = width.spec_sign_bit();
    crate::flags::lemma_add_flags(bits, width, lhs, rhs, result);
    crate::flags::lemma_sub_flags(bits, width, lhs, rhs, result);
    crate::width::lemma_truncate_is_mod(width, lhs);
    crate::width::lemma_truncate_is_mod(width, rhs);
    crate::width::lemma_truncate_is_mod(width, result);
    lemma_overflow_bits(l, r, s, sign);
    let m = width.modulus();
    assert(m == 2 * sign);
    assert(l < m && r < m && s < m);
    let sum = l + r;
    let diff = l - r;
    if sum >= m {
        assert(sum % m == sum - m) by (nonlinear_arith)
            requires
                m <= sum < 2 * m,
        ;
    } else {
        vstd::arithmetic::div_mod::lemma_small_mod(sum as nat, m as nat);
    }
    if diff >= 0 {
        vstd::arithmetic::div_mod::lemma_small_mod(diff as nat, m as nat);
    } else {
        assert(diff % m == diff + m) by (nonlinear_arith)
            requires
                -m < diff < 0,
        ;
    }
}

/// Whether decoded prefixes carry REX.B.
pub open spec fn has_rex_b(p: Prefixes) -> bool {
    p.rex matches Some(rex) && rex.b
}

proof fn lemma_gpr_number(n: int)
    requires
        0 <= n < 16,
    ensures
        crate::registers::Gpr::spec_from_number(n).spec_index() == n,
{
}

/// `push` and `pop` name their register by the low three opcode bits, extended by
/// REX.B: a decoded `push` or `pop` with opcode `0x50 + k` or `0x58 + k` uses the
/// register numbered `k`, or `k + 8` (R8 to R15) when a REX prefix sets B.
pub proof fn lemma_push_pop_register(input: Seq<u8>)
    ensures
        spec_decode(input) matches Ok((_len, p, opcode, op)) ==> (op matches Operation::Push { src }
            ==> 0x50 <= opcode <= 0x57 && src.spec_index() == opcode - 0x50 + if has_rex_b(p) {
            8int
        } else {
            0int
        }),
        spec_decode(input) matches Ok((_len, p, opcode, op)) ==> (op matches Operation::Pop { dst }
            ==> 0x58 <= opcode <= 0x5f && dst.spec_index() == opcode - 0x58 + if has_rex_b(p) {
            8int
        } else {
            0int
        }),
{
    if spec_decode(input) is Ok {
        let (len, p, opcode, op) = spec_decode(input)->Ok_0;
        crate::registers::lemma_low3_bits(opcode);
        let low = opcode & 7u8;
        crate::registers::lemma_low3_bits(low);
        let n = crate::registers::Gpr::spec_low3_number(low, crate::decode::spec_rex_b(p));
        if 0x50 <= opcode <= 0x5f {
            assert(n == opcode % 8 + if has_rex_b(p) { 8int } else { 0int });
            lemma_gpr_number(n as int);
        }
    }
}

/// Whether an entry lets writes through: its R/W bit.
pub open spec fn entry_allows_write(e: u64) -> bool {
    e & 2 != 0
}

/// Whether an entry lets user accesses through: its U/S bit.
pub open spec fn entry_allows_user(e: u64) -> bool {
    e & 4 != 0
}

/// Whether an entry lets instruction fetches through: always without EFER.NXE
/// (bit 11 of EFER), else when its bit 63 is clear.
pub open spec fn entry_allows_fetch(controls: crate::system::ControlRegisters, e: u64) -> bool {
    controls.efer & 0x800 == 0 || e & 0x8000_0000_0000_0000 == 0
}

/// A translation's rights are those of every entry of its walk, the leaf included:
/// writable, user and executable exactly when each entry read on the way (PML4E,
/// PDPTE, and for 2 MiB and 4 KiB pages the PDE, and for 4 KiB pages the PTE) allows
/// it. So a leaf that forbids writes makes every write through it fault. Without
/// paging the translation is the identity and allows everything.
pub proof fn lemma_translation_rights_are_the_walk(
    controls: crate::system::ControlRegisters,
    read: spec_fn(u64) -> Result<u64, crate::mmu::MmuError>,
    request: crate::mmu::TranslateRequest,
)
    requires
        crate::mmu::translate_with(controls, read, request) is Ok,
    ensures
        ({
            let t = crate::mmu::translate_with(controls, read, request)->Ok_0;
            let va = request.virtual_addr;
            let e4 = crate::mmu::walk_entry(read, request, controls.spec_cr3_base(), crate::mmu::table_index(va, 39))->Ok_0;
            let e3 = crate::mmu::walk_entry(read, request, crate::mmu::spec_entry_addr_4k(e4), crate::mmu::table_index(va, 30))->Ok_0;
            let e2 = crate::mmu::walk_entry(read, request, crate::mmu::spec_entry_addr_4k(e3), crate::mmu::table_index(va, 21))->Ok_0;
            let e1 = crate::mmu::walk_entry(read, request, crate::mmu::spec_entry_addr_4k(e2), crate::mmu::table_index(va, 12))->Ok_0;
            &&& !controls.spec_paging_enabled() ==> t.physical_addr == va && t.writable && t.user
                && t.executable
            &&& controls.spec_paging_enabled() && t.page_size == crate::mmu::PageSize::Size1G ==> {
                &&& t.writable == (entry_allows_write(e4) && entry_allows_write(e3))
                &&& t.user == (entry_allows_user(e4) && entry_allows_user(e3))
                &&& t.executable == (entry_allows_fetch(controls, e4) && entry_allows_fetch(controls, e3))
            }
            &&& controls.spec_paging_enabled() && t.page_size == crate::mmu::PageSize::Size2M ==> {
                &&& t.writable == (entry_allows_write(e4) && entry_allows_write(e3)
                    && entry_allows_write(e2))
                &&& t.user == (entry_allows_user(e4) && entry_allows_user(e3) && entry_allows_user(e2))
                &&& t.executable == (entry_allows_fetch(controls, e4) && entry_allows_fetch(controls, e3)
                    && entry_allows_fetch(controls, e2))
            }
            &&& controls.spec_paging_enabled() && t.page_size == crate::mmu::PageSize::Size4K ==> {
                &&& t.writable == (entry_allows_write(e4) && entry_allows_write(e3)
                    && entry_allows_write(e2) && entry_allows_write(e1))
                &&& t.user == (entry_allows_user(e4) && entry_allows_user(e3) && entry_allows_user(e2)
                    && entry_allows_user(e1))
                &&& t.executable == (entry_allows_fetch(controls, e4) && entry_allows_fetch(controls, e3)
                    && entry_allows_fetch(controls, e2) && entry_allows_fetch(controls, e1))
            }
            &&& request.access == crate::mmu::AccessType::Write ==> t.writable
            &&& request.privilege == crate::mmu::PrivilegeLevel::User ==> t.user
            &&& request.access == crate::mmu::AccessType::Execute ==> t.executable
        }),
{
}

/// The value of a 32-bit immediate sign-extended to 64 bits, as an integer.
pub open spec fn imm32_signed(imm32: u32) -> int {
    if imm32 >= 0x8000_0000 {
        imm32 - 0x1_0000_0000
    } else {
        imm32 as int
    }
}

/// `add eax, imm32` leaves in RAX the 32-bit sum of EAX and the immediate with bits
/// 32 to 63 clear; `add rax, imm32` leaves the 64-bit sum of RAX and the
/// sign-extended immediate. Every other register keeps its value, and RIP moves past
/// the instruction.
pub proof fn lemma_add_accumulator_result(s: crate::execute::CpuView, inst: Instruction)
    requires
        s.0.0.len() == 16,
        inst.operation matches Operation::AddAccumulatorImm { width, .. } && (width == Width::U32
            || width == Width::U64),
    ensures
        ({
            let after = crate::execute::spec_execute(s, inst).0;
            let rax = s.0.0[0] as int;
            let imm32 = inst.operation->imm32;
            &&& inst.operation->AddAccumulatorImm_width == Width::U32 ==> after.0.0[0] == (rax
                % 0x1_0000_0000 + imm32) % 0x1_0000_0000
            &&& inst.operation->AddAccumulatorImm_width == Width::U64 ==> after.0.0[0] == (rax
                + imm32_signed(imm32)) % 0x1_0000_0000_0000_0000
            &&& after.0.0.len() == 16
            &&& forall|i: int| 1 <= i < 16 ==> #[trigger] after.0.0[i] == s.0.0[i]
            &&& after.0.1 == (s.0.1 + inst.len) % 0x1_0000_0000_0000_0000
        }),
{
    let rax = s.0.0[0];
    let width = inst.operation->AddAccumulatorImm_width;
    let imm32 = inst.operation->imm32;
    let lhs = width.spec_truncate(rax);
    let rhs = crate::execute::spec_add_immediate_operand(width, imm32);
    let result = add_mod64(lhs as int, rhs as int);
    crate::width::lemma_truncate_is_mod(width, rax);
    crate::width::lemma_truncate_is_mod(width, result);
    assert(crate::registers::Gpr::Rax.spec_index() == 0);
    if width == Width::U32 {
        assert(lhs + imm32 < pow64());
        vstd::arithmetic::div_mod::lemma_small_mod((lhs + imm32) as nat, pow64() as nat);
        assert(crate::registers::merge_width(rax, width, result) == width.spec_truncate(result));
    } else {
        vstd::arithmetic::div_mod::lemma_small_mod(rax as nat, pow64() as nat);
        assert(lhs == rax);
        if imm32 >= 0x8000_0000 {
            assert(imm32 as int + 0xffff_ffff_0000_0000 < pow64());
            assert(rhs == imm32 + 0xffff_ffff_0000_0000);
            assert(lhs + rhs == (rax + imm32_signed(imm32)) + pow64());
            vstd::arithmetic::div_mod::lemma_mod_add_multiples_vanish(
                rax + imm32_signed(imm32),
                pow64(),
            );
        }
        assert(crate::registers::merge_width(rax, width, result) == result);
    }
    let after = crate::execute::spec_execute(s, inst).0;
    assert(after.0.0[0] == crate::registers::merge_width(rax, width, result));
}

/// The number of one bits among bits 0 to 7 of `v`.
pub open spec fn low_byte_ones(v: int) -> int {
    v % 2 + (v / 2) % 2 + (v / 4) % 2 + (v / 8) % 2 + (v / 16) % 2 + (v / 32) % 2 + (v / 64) % 2
        + (v / 128) % 2
}

proof fn lemma_div_div(v: int, a: int, b: int)
    requires
        v >= 0,
        a > 0,
        b > 0,
    ensures
        (v / a) / b == v / (a * b),
{
    vstd::arithmetic::div_mod::lemma_div_denominator(v, a, b);
}

proof fn lemma_low_bits_of_low_byte(v: int, d: int)
    requires
        v >= 0,
        d == 1 || d == 2 || d == 4 || d == 8 || d == 16 || d == 32 || d == 64 || d == 128,
    ensures
        ((v % 256) / d) % 2 == (v / d) % 2,
{
    let q = v / 256;
    let x = v % 256;
    vstd::arithmetic::div_mod::lemma_fundamental_div_mod(v, 256);
    vstd::arithmetic::div_mod::lemma_fundamental_div_mod(x, d);
    let k: int = 256int / d;
    assert(0 <= x % d < d);
    let h: int = k / 2;
    assert(v == d * (2 * h * q + x / d) + x % d) by (nonlinear_arith)
        requires
            d == 1 || d == 2 || d == 4 || d == 8 || d == 16 || d == 32 || d == 64 || d == 128,
            k == 256int / d,
            h == k / 2,
            v == 256 * q + x,
            x == d * (x / d) + x % d,
    ;
    vstd::arithmetic::div_mod::lemma_div_multiples_vanish_fancy(2 * h * q + x / d, x % d, d);
    assert(v / d == 2 * (h * q) + x / d) by (nonlinear_arith)
        requires
            v / d == 2 * h * q + x / d,
    ;
    vstd::arithmetic::div_mod::lemma_mod_multiples_vanish(h * q, x / d, 2);
}

proof fn lemma_popcount_step(y: u8)
    ensures
        crate::flags::popcount8(y) == (y % 2) as nat + crate::flags::popcount8(y / 2),
{
}

proof fn lemma_even_parity_counts(v: u64)
    ensures
        crate::flags::even_parity(v) == (low_byte_ones(v as int) % 2 == 0),
{
    let x = (v % 256) as u8;
    let x1 = x / 2;
    let x2 = x1 / 2;
    let x3 = x2 / 2;
    let x4 = x3 / 2;
    let x5 = x4 / 2;
    let x6 = x5 / 2;
    let x7 = x6 / 2;
    lemma_popcount_step(x);
    lemma_popcount_step(x1);
    lemma_popcount_step(x2);
    lemma_popcount_step(x3);
    lemma_popcount_step(x4);
    lemma_popcount_step(x5);
    lemma_popcount_step(x6);
    lemma_popcount_step(x7);
    let xi = x as int;
    lemma_div_div(xi, 2, 2);
    lemma_div_div(xi, 4, 2);
    lemma_div_div(xi, 8, 2);
    lemma_div_div(xi, 16, 2);
    lemma_div_div(xi, 32, 2);
    lemma_div_div(xi, 64, 2);
    lemma_div_div(xi, 128, 2);
    assert(x2 == xi / 4 && x3 == xi / 8 && x4 == xi / 16 && x5 == xi / 32 && x6 == xi / 64 && x7
        == xi / 128);
    assert(x7 / 2 == 0);
    let vi = v as int;
    assert(xi == vi % 256);
    lemma_low_bits_of_low_byte(vi, 1);
    lemma_low_bits_of_low_byte(vi, 2);
    lemma_low_bits_of_low_byte(vi, 4);
    lemma_low_bits_of_low_byte(vi, 8);
    lemma_low_bits_of_low_byte(vi, 16);
    lemma_low_bits_of_low_byte(vi, 32);
    lemma_low_bits_of_low_byte(vi, 64);
    lemma_low_bits_of_low_byte(vi, 128);
}

/// PF is the parity of the low byte of the result: `even_parity` holds exactly when
/// bits 0 to 7 of the value hold an even number of ones (a zero byte, for one), and so
/// after an addition, a subtraction or a logic operation PF is set exactly then.
pub proof fn lemma_parity_counts_low_byte_ones(bits: u64, width: Width, lhs: u64, rhs: u64, result: u64)
    ensures
        crate::flags::even_parity(result) == (low_byte_ones(result as int) % 2 == 0),
        ({
            let s = width.spec_truncate(result);
            &&& flag_value(add_flags(bits, width, lhs, rhs, result), Flag::Parity) == (low_byte_ones(
                s as int,
            ) % 2 == 0)
            &&& flag_value(sub_flags(bits, width, lhs, rhs, result), Flag::Parity) == (low_byte_ones(
                s as int,
            ) % 2 == 0)
            &&& flag_value(crate::flags::logic_flags(bits, width, result), Flag::Parity) == (
            low_byte_ones(s as int) % 2 == 0)
        }),
{
    lemma_even_parity_counts(result);
    let s = width.spec_truncate(result);
    lemma_even_parity_counts(s);
    crate::flags::lemma_add_flags(bits, width, lhs, rhs, result);
    crate::flags::lemma_sub_flags(bits, width, lhs, rhs, result);
    crate::flags::lemma_logic_flags(bits, width, result);
}

/// CF, SF and ZF after an addition or a subtraction, as numbers: an addition carries
/// exactly when the operands, cut to the width, sum to `2^bits` or more; a subtraction
/// borrows exactly when `lhs` is below `rhs`; SF is set exactly when the result, cut to
/// the width, is negative as a two's-complement number; ZF exactly when it is zero.
pub proof fn lemma_carry_sign_zero(bits: u64, width: Width, lhs: u64, rhs: u64, result: u64)
    ensures
        ({
            let l = width.spec_truncate(lhs);
            let r = width.spec_truncate(rhs);
            let s = width.spec_truncate(result);
            let sign = width.spec_sign_bit();
            let add = add_flags(bits, width, lhs, rhs, result);
            let sub = sub_flags(bits, width, lhs, rhs, result);
            &&& flag_value(add, Flag::Carry) == (l + r >= width.modulus())
            &&& flag_value(sub, Flag::Carry) == (l - r < 0)
            &&& flag_value(add, Flag::Sign) == (signed_at(s, sign) < 0)
            &&& flag_value(sub, Flag::Sign) == (signed_at(s, sign) < 0)
            &&& flag_value(add, Flag::Zero) == (s as int % width.modulus() == 0)
            &&& flag_value(sub, Flag::Zero) == (s as int % width.modulus() == 0)
        }),
{
    let l = width.spec_truncate(lhs);
    let r = width.spec_truncate(rhs);
    let s = width.spec_truncate(result);
    crate::flags::lemma_add_flags(bits, width, lhs, rhs, result);
    crate::flags::lemma_sub_flags(bits, width, lhs, rhs, result);
    crate::width::lemma_truncate_is_mod(width, lhs);
    crate::width::lemma_truncate_is_mod(width, rhs);
    crate::width::lemma_truncate_is_mod(width, result);
    lemma_overflow_bits(l, r, s, width.spec_sign_bit());
    vstd::arithmetic::div_mod::lemma_small_mod(s as nat, width.modulus() as nat);
}

/// `mov r, imm` writes the immediate into the named register: the whole value at 64
/// bits, its low 32 bits with bits 32 to 63 clear at 32 bits; every other register
/// keeps its value and RIP moves past the instruction. `jmp rel32` moves RIP to the
/// address after the instruction plus the sign-extended displacement, modulo `2^64`,
/// and changes no register. `hlt` halts the CPU and moves RIP past it.
pub proof fn lemma_mov_jmp_hlt_results(s: crate::execute::CpuView, inst: Instruction)
    requires
        s.0.0.len() == 16,
    ensures
        ({
            let after = crate::execute::spec_execute(s, inst).0;
            &&& inst.operation matches Operation::MovImm { dst, width, imm } ==> {
                &&& (width == Width::U64 ==> after.0.0[dst.spec_index() as int] == imm)
                &&& (width == Width::U32 ==> after.0.0[dst.spec_index() as int] == imm as int
                    % 0x1_0000_0000)
                &&& forall|i: int| 0 <= i < 16 && i != dst.spec_index() ==> #[trigger] after.0.0[i]
                    == s.0.0[i]
                &&& after.0.1 == (s.0.1 + inst.len) % 0x1_0000_0000_0000_0000
            }
            &&& inst.operation matches Operation::JmpRel32 { rel } ==> {
                &&& after.0.0 == s.0.0
                &&& after.0.1 == (s.0.1 + inst.len + rel) % 0x1_0000_0000_0000_0000
            }
            &&& inst.operation matches Operation::Hlt ==> {
                &&& after.3
                &&& after.0.0 == s.0.0
                &&& after.0.1 == (s.0.1 + inst.len) % 0x1_0000_0000_0000_0000
            }
        }),
{
    match inst.operation {
        Operation::MovImm { dst, width, imm } => {
            crate::width::lemma_truncate_is_mod(Width::U32, imm);
            assert(crate::registers::merge_width(s.0.0[dst.spec_index() as int], Width::U32, imm)
                == Width::U32.spec_truncate(imm));
        },
        Operation::JmpRel32 { rel } => {
            let a = add_mod64(s.0.1 as int, inst.len as int);
            vstd::arithmetic::div_mod::lemma_add_mod_noop(s.0.1 + inst.len, rel as int, pow64());
            vstd::arithmetic::div_mod::lemma_mod_twice(s.0.1 + inst.len, pow64());
            vstd::arithmetic::div_mod::lemma_add_mod_noop(a as int, rel as int, pow64());
            vstd::arithmetic::div_mod::lemma_mod_twice(rel as int, pow64());
        },
        _ => {},
    }
}

/// `mov r, imm` names its register like `push` and `pop`: opcode `0xb8 + k` writes the
/// register numbered `k`, or `k + 8` when a REX prefix sets B; it moves 64 bits
/// exactly when REX.W is set, and its 64-bit immediate is the eight bytes after the
/// opcode read little-endian.
pub proof fn lemma_mov_register_and_immediate(input: Seq<u8>)
    ensures
        spec_decode(input) matches Ok((len, p, opcode, op)) ==> (op matches Operation::MovImm {
            dst,
            width,
            imm,
        } ==> {
            &&& 0xb8 <= opcode <= 0xbf
            &&& dst.spec_index() == opcode - 0xb8 + if has_rex_b(p) {
                8int
            } else {
                0int
            }
            &&& (width == Width::U64) == (p.rex matches Some(rex) && rex.w)
            &&& width == Width::U64 ==> {
                let o = len - 8;
                imm == input[o] + input[o + 1] * 0x100 + input[o + 2] * 0x1_0000 + input[o + 3]
                    * 0x100_0000 + input[o + 4] * 0x1_0000_0000 + input[o + 5] * 0x100_0000_0000
                    + input[o + 6] * 0x1_0000_0000_0000 + input[o + 7] * 0x100_0000_0000_0000
            }
        }),
{
    if spec_decode(input) is Ok {
        let (len, p, opcode, op) = spec_decode(input)->Ok_0;
        crate::registers::lemma_low3_bits(opcode);
        let low = opcode & 7u8;
        crate::registers::lemma_low3_bits(low);
        let n = crate::registers::Gpr::spec_low3_number(low, crate::decode::spec_rex_b(p));
        if 0xb8 <= opcode <= 0xbf {
            assert(n == opcode % 8 + if has_rex_b(p) { 8int } else { 0int });
            lemma_gpr_number(n as int);
        }
    }
}

} // verus!
