use vstd::prelude::*;
use crate::arith::{add_mod64, pow64};
use crate::decode::Instruction;
use crate::laws::{
    bus_write_respects, cache_coherent, cold_fetch, consecutively_numbered, fetch_counted,
    lemma_coherent_fetch_is_cold, lemma_fetch_counts_once, lemma_load_keeps_coherence,
    lemma_step_counts_fetch, lemma_step_keeps_coherence, lemma_step_keeps_trace, lemma_step_ticks,
    lemma_write_keeps_coherence, loaded, trace_follows_clock, write_respects_cache,
};
use crate::machine::{
    fetch_ensures, machine_translate_result, paused, resumed, run_ensures, same_but_run_state,
    same_machine, step_ensures, with_cr2, CacheView, Machine, MachineError, MachineRunState,
    StepReport, TRACE_CAPACITY,
};
use crate::memory::{in_bounds, touches_page, MemoryError};
use crate::mmu::AccessType;

verus! {

/// One call on a machine, with its result: the public mutators of `Machine`, and a
/// write straight into its RAM.
pub enum MachineOp {
    /// `Machine::step`.
    Step(Result<StepReport, MachineError>),
    /// `Machine::pause`.
    Pause,
    /// `Machine::resume`.
    Resume,
    /// `Machine::load_program` of the bytes at the address.
    LoadProgram(u64, Seq<u8>, Result<(), MachineError>),
    /// `PhysicalMemory::write` on the machine's RAM.
    WriteRam(u64, Seq<u8>, Result<(), MemoryError>),
    /// `Machine::fetch_instruction`.
    Fetch(Result<Instruction, MachineError>),
    /// `Machine::translate_address` of the address for the access.
    Translate(u64, AccessType, Result<u64, MachineError>),
}

/// Whether `a` is the machine after `op` on `b`: each clause is what the call's own
/// contract states.
pub open spec fn op_ensures(b: Machine, op: MachineOp, a: Machine) -> bool {
    match op {
        MachineOp::Step(r) => step_ensures(&b, &a, r) && a.wf(),
        MachineOp::Pause => same_but_run_state(&a, &b) && a.run_state == paused(b.run_state),
        MachineOp::Resume => same_but_run_state(&a, &b) && a.run_state == resumed(b.run_state),
        MachineOp::LoadProgram(addr, bytes, r) => {
            &&& a.wf()
            &&& in_bounds(addr, bytes.len() as int, b.memory@.bytes.len() as int) ==> {
                &&& r is Ok
                &&& a.memory@ == loaded(b.memory@, addr, bytes)
                &&& a.cache() == b.cache().invalidate_range(addr, bytes.len() as usize)
            }
            &&& !in_bounds(addr, bytes.len() as int, b.memory@.bytes.len() as int) ==> {
                &&& r is Err
                &&& a.memory == b.memory
                &&& a.cache() == b.cache()
            }
            &&& a.profile == b.profile
            &&& a.cpu == b.cpu
            &&& a.serial == b.serial
            &&& a.virtual_clock == b.virtual_clock
            &&& a.run_state == b.run_state
            &&& a.trace == b.trace
        },
        MachineOp::WriteRam(addr, bytes, r) => {
            &&& a.memory.wf()
            &&& in_bounds(addr, bytes.len() as int, b.memory@.bytes.len() as int) ==> {
                &&& r is Ok
                &&& a.memory@ == b.memory@.write(addr as int, bytes)
            }
            &&& !in_bounds(addr, bytes.len() as int, b.memory@.bytes.len() as int) ==> {
                &&& r is Err
                &&& a.memory == b.memory
            }
            &&& a.profile == b.profile
            &&& a.cpu == b.cpu
            &&& a.serial == b.serial
            &&& a.virtual_clock == b.virtual_clock
            &&& a.run_state == b.run_state
            &&& a.trace == b.trace
            &&& a.cache() == b.cache()
        },
        MachineOp::Fetch(r) => {
            &&& a.wf()
            &&& fetch_ensures(&b, a.cache(), a.cpu.controls.cr2, r)
            &&& a.cpu@ == with_cr2(b.cpu@, a.cpu.controls.cr2)
            &&& a.profile == b.profile
            &&& a.memory == b.memory
            &&& a.serial == b.serial
            &&& a.virtual_clock == b.virtual_clock
            &&& a.run_state == b.run_state
            &&& a.trace == b.trace
        },
        MachineOp::Translate(va, access, r) => {
            &&& r == machine_translate_result(&b, va, access)
            &&& a.cpu.registers == b.cpu.registers
            &&& a.cpu.rflags == b.cpu.rflags
            &&& a.cpu.halted == b.cpu.halted
            &&& a.profile == b.profile
            &&& a.memory == b.memory
            &&& a.serial == b.serial
            &&& a.virtual_clock == b.virtual_clock
            &&& a.run_state == b.run_state
            &&& a.trace == b.trace
            &&& a.cache() == b.cache()
        },
    }
}

/// Whether `states` is a history of `ops`: each machine is the one before it after the
/// call between them.
pub open spec fn history(states: Seq<Machine>, ops: Seq<MachineOp>) -> bool {
    &&& states.len() == ops.len() + 1
    &&& forall|i: int| 0 <= i < ops.len() ==> #[trigger] op_ensures(states[i], ops[i], states[i + 1])
}

/// The number of steps among `ops` that succeeded.
pub open spec fn count_ok_steps(ops: Seq<MachineOp>) -> nat
    decreases ops.len(),
{
    if ops.len() == 0 {
        0
    } else {
        count_ok_steps(ops.drop_last()) + if ops.last() matches MachineOp::Step(Ok(_)) {
            1nat
        } else {
            0nat
        }
    }
}

proof fn lemma_history_prefix(states: Seq<Machine>, ops: Seq<MachineOp>, j: int)
    requires
        history(states, ops),
        0 <= j <= ops.len(),
    ensures
        history(states.take(j + 1), ops.take(j)),
{
    assert forall|i: int| 0 <= i < j implies #[trigger] op_ensures(
        states.take(j + 1)[i],
        ops.take(j)[i],
        states.take(j + 1)[i + 1],
    ) by {
        assert(op_ensures(states[i], ops[i], states[i + 1]));
    }
}

proof fn lemma_add_mod64_step(c: u64, k: int)
    ensures
        add_mod64(add_mod64(c as int, k) as int, 1) == add_mod64(c as int, k + 1),
{
    vstd::arithmetic::div_mod::lemma_add_mod_noop(c + k, 1, pow64());
    vstd::arithmetic::div_mod::lemma_mod_twice(c + k, pow64());
    vstd::arithmetic::div_mod::lemma_small_mod(1, pow64() as nat);
    vstd::arithmetic::div_mod::lemma_add_mod_noop((c + k) % pow64(), 1, pow64());
}

/// The virtual clock counts the successful steps of any history: it ends that many
/// ticks (wrapping) after where it started, whatever other calls came between.
pub proof fn lemma_history_ticks(states: Seq<Machine>, ops: Seq<MachineOp>)
    requires
        history(states, ops),
    ensures
        states.last().virtual_clock@ == add_mod64(
            states[0].virtual_clock@ as int,
            count_ok_steps(ops) as int,
        ),
    decreases ops.len(),
{
    let n = ops.len() as int;
    if n == 0 {
        vstd::arithmetic::div_mod::lemma_small_mod(states[0].virtual_clock@ as nat, pow64() as nat);
    } else {
        lemma_history_prefix(states, ops, n - 1);
        lemma_history_ticks(states.take(n), ops.take(n - 1));
        assert(ops.take(n - 1) =~= ops.drop_last());
        assert(states.take(n).last() == states[n - 1]);
        assert(op_ensures(states[n - 1], ops[n - 1], states[n]));
        if let MachineOp::Step(r) = ops[n - 1] {
            lemma_step_ticks(&states[n - 1], &states[n], r);
            lemma_add_mod64_step(states[0].virtual_clock@, count_ok_steps(ops.drop_last()) as int);
        }
    }
}

/// The trace of a machine whose clock and trace started together at zero, after `k`
/// successful steps: the newest `min(k, 256)` events, numbered consecutively up to
/// `k - 1`, each taken one tick after its number.
pub open spec fn trace_after(m: Machine, k: nat) -> bool {
    let n = if k < TRACE_CAPACITY { k } else { TRACE_CAPACITY as nat };
    &&& m.virtual_clock@ == k
    &&& m.trace@.next_sequence == k
    &&& m.trace@.events.len() == n
    &&& forall|i: int|
        0 <= i < n ==> (#[trigger] m.trace@.events[i]).sequence == k - n + i
            && m.trace@.events[i].virtual_ticks_after == k - n + i + 1
}

/// From a machine with its clock at zero and an empty trace numbered from zero (a new
/// machine), any history with `k` successful steps ends with the clock at `k` and the
/// trace holding the newest `min(k, 256)` events in order, numbered `k - min(k, 256)`
/// to `k - 1`, each taken one tick after its number.
pub proof fn lemma_history_trace(states: Seq<Machine>, ops: Seq<MachineOp>)
    requires
        history(states, ops),
        states[0].wf(),
        states[0].virtual_clock@ == 0,
        states[0].trace@.next_sequence == 0,
        states[0].trace@.events.len() == 0,
        count_ok_steps(ops) < pow64(),
    ensures
        trace_after(states.last(), count_ok_steps(ops)),
        trace_follows_clock(&states.last()),
        consecutively_numbered(states.last().trace@),
        states.last().wf(),
    decreases ops.len(),
{
    let n = ops.len() as int;
    if n > 0 {
        lemma_history_prefix(states, ops, n - 1);
        assert(ops.take(n - 1) =~= ops.drop_last());
        assert(states.take(n)[0] == states[0]);
        lemma_history_trace(states.take(n), ops.take(n - 1));
        let b = states[n - 1];
        let a = states[n];
        assert(states.take(n).last() == b);
        assert(op_ensures(b, ops[n - 1], a));
        let k = count_ok_steps(ops.drop_last());
        if let MachineOp::Step(r) = ops[n - 1] {
            lemma_step_keeps_trace(&b, &a, r);
            lemma_step_ticks(&b, &a, r);
            if r is Ok {
                vstd::arithmetic::div_mod::lemma_small_mod((k + 1) as nat, pow64() as nat);
                let m = a.trace@.events.len();
                assert forall|i: int| 0 <= i < m implies (#[trigger] a.trace@.events[i]).sequence == (k
                    + 1) - m + i && a.trace@.events[i].virtual_ticks_after == (k + 1) - m + i + 1 by {
                    vstd::arithmetic::div_mod::lemma_small_mod(((k + 1) - m + i) as nat, pow64() as nat);
                    vstd::arithmetic::div_mod::lemma_small_mod(((k + 1) - m + i + 1) as nat, pow64() as nat);
                }
            }
        }
    } else {
        assert(states.last() == states[0]);
    }
}

/// Whether the call `op` on `m` fetches an instruction whose RIP translates: a fetch,
/// or a step of a machine that is not halted.
pub open spec fn counts_a_fetch(m: Machine, op: MachineOp) -> bool {
    let translated = machine_translate_result(&m, m.cpu.registers.rip_value(), AccessType::Execute)
        is Ok;
    match op {
        MachineOp::Fetch(_) => translated,
        MachineOp::Step(_) => !(m.run_state == MachineRunState::Halted || m.cpu.halted) && translated,
        _ => false,
    }
}

/// The number of calls of a history that fetch an instruction whose RIP translates.
pub open spec fn count_fetches(states: Seq<Machine>, ops: Seq<MachineOp>) -> nat
    decreases ops.len(),
{
    if ops.len() == 0 || states.len() < ops.len() {
        0
    } else {
        count_fetches(states, ops.drop_last()) + if counts_a_fetch(
            states[ops.len() - 1],
            ops.last(),
        ) {
            1nat
        } else {
            0nat
        }
    }
}

proof fn lemma_count_fetches_prefix(states: Seq<Machine>, ops: Seq<MachineOp>, j: int)
    requires
        states.len() == ops.len() + 1,
        0 <= j <= ops.len(),
    ensures
        count_fetches(states.take(j + 1), ops.take(j)) == count_fetches(states, ops.take(j)),
    decreases j,
{
    if j > 0 {
        assert(ops.take(j).drop_last() =~= ops.take(j - 1));
        lemma_count_fetches_prefix(states, ops, j - 1);
        let t = states.take(j + 1);
        assert(t.take(j) =~= states.take(j));
        lemma_count_fetches_states(states.take(j), t, ops.take(j - 1));
    }
}

proof fn lemma_count_fetches_states(s1: Seq<Machine>, s2: Seq<Machine>, ops: Seq<MachineOp>)
    requires
        s1.len() >= ops.len() + 1,
        s2.len() >= ops.len() + 1,
        forall|i: int| 0 <= i <= ops.len() ==> s1[i] == s2[i],
    ensures
        count_fetches(s1, ops) == count_fetches(s2, ops),
    decreases ops.len(),
{
    if ops.len() > 0 {
        lemma_count_fetches_states(s1, s2, ops.drop_last());
    }
}

proof fn lemma_count_fetches_le(states: Seq<Machine>, ops: Seq<MachineOp>)
    ensures
        count_fetches(states, ops) <= ops.len(),
    decreases ops.len(),
{
    if ops.len() > 0 {
        lemma_count_fetches_le(states, ops.drop_last());
    }
}

proof fn lemma_fetch_keeps_entries_le_misses(
    m: &Machine,
    c2: CacheView,
    x: u64,
    r: Result<Instruction, MachineError>,
)
    requires
        m.cache().wf(),
        m.cache().entries <= m.cache().misses,
        m.cache().misses < u64::MAX,
        fetch_ensures(m, c2, x, r),
    ensures
        c2.entries <= c2.misses,
{
    vstd::arithmetic::div_mod::lemma_small_mod((m.cache().misses + 1) as nat, pow64() as nat);
}

proof fn lemma_invalidate_keeps_counters(c: CacheView, addr: u64, len: usize)
    requires
        c.wf(),
    ensures
        c.invalidate_range(addr, len).entries <= c.entries,
        c.invalidate_range(addr, len).hits == c.hits,
        c.invalidate_range(addr, len).misses == c.misses,
{
    if len > 0 && c.entries > 0 && addr + len <= usize::MAX {
        let d = c.invalidate_range(addr, len);
        crate::machine::lemma_count_some_kept(c.slots, d.slots);
    }
}

/// Over any history from a machine whose cache holds no more entries than it has
/// missed, the cache never holds more entries than its capacity or than it has
/// missed, and its hits and misses together grow by exactly the number of calls that
/// fetched an instruction whose RIP translates; the start's counters and the number of
/// calls fit below `u64::MAX` together, so no counter wraps.
pub proof fn lemma_history_cache_counts(states: Seq<Machine>, ops: Seq<MachineOp>)
    requires
        history(states, ops),
        states[0].wf(),
        states[0].cache().entries <= states[0].cache().misses,
        states[0].cache().hits + states[0].cache().misses + ops.len() < u64::MAX,
    ensures
        states.last().wf(),
        states.last().cache().entries <= crate::machine::DECODE_CACHE_CAPACITY,
        states.last().cache().entries <= states.last().cache().misses,
        states.last().cache().hits + states.last().cache().misses == states[0].cache().hits
            + states[0].cache().misses + count_fetches(states, ops),
    decreases ops.len(),
{
    let n = ops.len() as int;
    if n > 0 {
        lemma_history_prefix(states, ops, n - 1);
        assert(ops.take(n - 1) =~= ops.drop_last());
        assert(states.take(n)[0] == states[0]);
        lemma_history_cache_counts(states.take(n), ops.take(n - 1));
        lemma_count_fetches_prefix(states, ops, n - 1);
        let b = states[n - 1];
        let a = states[n];
        assert(states.take(n).last() == b);
        assert(op_ensures(b, ops[n - 1], a));
        let c = b.cache();
        let d = a.cache();
        lemma_count_fetches_le(states, ops.take(n - 1));
        assert(c.hits + c.misses < u64::MAX);
        vstd::arithmetic::div_mod::lemma_small_mod((c.hits + 1) as nat, pow64() as nat);
        vstd::arithmetic::div_mod::lemma_small_mod((c.misses + 1) as nat, pow64() as nat);
        match ops[n - 1] {
            MachineOp::Step(r) => {
                lemma_step_counts_fetch(&b, &a, r);
                if !(b.run_state == MachineRunState::Halted || b.cpu.halted) {
                    let controls = b.cpu.controls;
                    match r {
                        Ok(rep) => lemma_fetch_keeps_entries_le_misses(&b, d, controls.cr2, Ok(rep.instruction)),
                        Err(e) => {
                            if fetch_ensures(&b, d, crate::machine::fault_cr2(controls.cr2, e), Err(e)) {
                                lemma_fetch_keeps_entries_le_misses(
                                    &b,
                                    d,
                                    crate::machine::fault_cr2(controls.cr2, e),
                                    Err(e),
                                );
                            } else {
                                let inst = choose|inst: Instruction|
                                    #![trigger fetch_ensures(&b, d, controls.cr2, Ok(inst))]
                                    fetch_ensures(&b, d, controls.cr2, Ok(inst)) && (
                                    e matches MachineError::Execute(ee)
                                        && crate::execute::execute_with_bus_ensures(
                                        b.cpu@,
                                        inst,
                                        crate::machine::bus_of(&b, controls),
                                        b.cpu@,
                                        crate::machine::bus_of(&a, controls),
                                        Err(ee),
                                    ));
                                lemma_fetch_keeps_entries_le_misses(&b, d, controls.cr2, Ok(inst));
                            }
                        },
                    }
                }
            },
            MachineOp::Fetch(r) => {
                lemma_fetch_counts_once(&b, d, a.cpu.controls.cr2, r);
                lemma_fetch_keeps_entries_le_misses(&b, d, a.cpu.controls.cr2, r);
            },
            MachineOp::LoadProgram(addr, bytes, _) => {
                lemma_invalidate_keeps_counters(c, addr, bytes.len() as usize);
            },
            _ => {},
        }
        crate::laws::lemma_cache_entries_bounded(d);
    } else {
        assert(states.last() == states[0]);
        crate::laws::lemma_cache_entries_bounded(states[0].cache());
    }
}

/// Whether the call `op` from `b` to `a` keeps to the discipline under which the
/// decode cache stays true: a step's stack write keeps to it byte by byte, a program
/// load touches no executable page that has reached the last generation, and a write
/// into RAM keeps to `write_respects_cache`.
pub open spec fn op_respects_cache(b: Machine, op: MachineOp, a: Machine) -> bool {
    match op {
        MachineOp::Step(_) => forall|src: crate::registers::Gpr|
            #![trigger crate::execute::regs_value(b.cpu@.0, src)]
            bus_write_respects(
                b.memory@,
                b.cpu.controls,
                add_mod64(crate::execute::regs_value(b.cpu@.0, crate::registers::Gpr::Rsp) as int, -8),
                crate::arith::le_bytes_u64(crate::execute::regs_value(b.cpu@.0, src)),
                8,
                a.cache(),
            ),
        MachineOp::LoadProgram(addr, bytes, _) => {
            &&& addr + bytes.len() <= usize::MAX
            &&& forall|p: int|
                0 <= p < b.memory@.pages() && #[trigger] touches_page(addr as int, bytes.len() as int, p)
                    && b.memory@.executable[p] ==> b.memory@.generations[p] < u32::MAX
        },
        MachineOp::WriteRam(addr, bytes, _) => write_respects_cache(
            b.memory@,
            b.cache(),
            addr as int,
            bytes.len() as int,
        ),
        _ => true,
    }
}

/// The decode cache never serves a stale decode: over any history from a machine whose
/// cache agrees with RAM (a new or restored machine, whose cache is empty), in which
/// every call keeps to the discipline, the cache keeps agreeing with RAM, and every
/// fetch, on its own or inside a step, gives what a fetch with nothing cached would.
pub proof fn lemma_history_coherent(states: Seq<Machine>, ops: Seq<MachineOp>)
    requires
        history(states, ops),
        states[0].wf(),
        cache_coherent(states[0].memory@, states[0].cache()),
        forall|i: int|
            0 <= i < ops.len() ==> #[trigger] op_respects_cache(states[i], ops[i], states[i + 1]),
    ensures
        states.last().wf(),
        cache_coherent(states.last().memory@, states.last().cache()),
        forall|i: int|
            0 <= i < ops.len() ==> (#[trigger] ops[i] matches MachineOp::Fetch(r) ==> cold_fetch(
                &states[i],
                r,
            )),
        forall|i: int|
            0 <= i < ops.len() ==> (#[trigger] ops[i] matches MachineOp::Step(Ok(rep)) ==> cold_fetch(
                &states[i],
                Ok(rep.instruction),
            )),
    decreases ops.len(),
{
    let n = ops.len() as int;
    if n > 0 {
        lemma_history_prefix(states, ops, n - 1);
        let s0 = states.take(n);
        let o0 = ops.take(n - 1);
        assert(s0[0] == states[0]);
        assert forall|i: int| 0 <= i < o0.len() implies #[trigger] op_respects_cache(s0[i], o0[i], s0[i + 1]) by {
            assert(op_respects_cache(states[i], ops[i], states[i + 1]));
        }
        lemma_history_coherent(s0, o0);
        let b = states[n - 1];
        let a = states[n];
        assert(s0.last() == b);
        assert(op_ensures(b, ops[n - 1], a));
        assert(op_respects_cache(b, ops[n - 1], a));
        match ops[n - 1] {
            MachineOp::Step(r) => {
                lemma_step_keeps_coherence(&b, &a, r);
                if let Ok(rep) = r {
                    if !(b.run_state == MachineRunState::Halted || b.cpu.halted) {
                        lemma_coherent_fetch_is_cold(&b, a.cache(), b.cpu.controls.cr2, Ok(rep.instruction));
                    }
                }
            },
            MachineOp::Fetch(r) => {
                lemma_coherent_fetch_is_cold(&b, a.cache(), a.cpu.controls.cr2, r);
            },
            MachineOp::LoadProgram(addr, bytes, _) => {
                if in_bounds(addr, bytes.len() as int, b.memory@.bytes.len() as int) {
                    lemma_load_keeps_coherence(b.memory@, b.cache(), addr, bytes);
                }
            },
            MachineOp::WriteRam(addr, bytes, _) => {
                if in_bounds(addr, bytes.len() as int, b.memory@.bytes.len() as int) {
                    lemma_write_keeps_coherence(b.memory@, b.cache(), addr as int, bytes);
                }
            },
            _ => {},
        }
        assert forall|i: int| 0 <= i < ops.len() implies (#[trigger] ops[i] matches MachineOp::Fetch(r)
            ==> cold_fetch(&states[i], r)) by {
            if i < n - 1 {
                assert(o0[i] == ops[i] && s0[i] == states[i]);
            }
        }
        assert forall|i: int| 0 <= i < ops.len() implies (#[trigger] ops[i] matches MachineOp::Step(Ok(rep))
            ==> cold_fetch(&states[i], Ok(rep.instruction))) by {
            if i < n - 1 {
                assert(o0[i] == ops[i] && s0[i] == states[i]);
            }
        }
    } else {
        assert(states.last() == states[0]);
    }
}

/// A run is a history: the steps it takes, each to the machine the next starts from,
/// then a pause when it stops without an error. A run that returns `Ok(n)` after
/// `done` steps succeeded in `n - done` more.
pub proof fn lemma_run_is_history(
    start: Machine,
    end: Machine,
    done: nat,
    max: nat,
    r: Result<usize, MachineError>,
) -> (h: (Seq<Machine>, Seq<MachineOp>))
    requires
        run_ensures(start, end, done, max, r),
        done <= max,
        max <= usize::MAX,
    ensures
        history(h.0, h.1),
        h.0[0] == start,
        h.0.last() == end,
        r matches Ok(n) ==> count_ok_steps(h.1) == n - done,
    decreases max - done,
{
    if start.run_state != MachineRunState::Running || done >= max {
        let states = seq![start, end];
        let ops = seq![MachineOp::Pause];
        assert(op_ensures(states[0], ops[0], states[1]));
        assert(ops.drop_last() =~= Seq::<MachineOp>::empty());
        assert(count_ok_steps(Seq::<MachineOp>::empty()) == 0);
        assert(count_ok_steps(ops) == 0);
        (states, ops)
    } else {
        let (mid, sr) = choose|mid: Machine, sr: Result<StepReport, MachineError>|
            #[trigger] step_ensures(&start, &mid, sr) && mid.wf() && match sr {
                Err(e) => r == Err::<usize, MachineError>(e) && same_machine(&end, &mid),
                Ok(_) => run_ensures(mid, end, done + 1, max, r),
            };
        match sr {
            Err(e) => {
                assert(step_ensures(&start, &end, sr));
                let states = seq![start, end];
                let ops = seq![MachineOp::Step(sr)];
                assert(op_ensures(states[0], ops[0], states[1]));
                (states, ops)
            },
            Ok(_) => {
                let (s1, o1) = lemma_run_is_history(mid, end, done + 1, max, r);
                let states = seq![start] + s1;
                let ops = seq![MachineOp::Step(sr)] + o1;
                assert forall|i: int| 0 <= i < ops.len() implies #[trigger] op_ensures(
                    states[i],
                    ops[i],
                    states[i + 1],
                ) by {
                    if i > 0 {
                        let j = i - 1;
                        assert(states[i] == s1[j] && states[i + 1] == s1[j + 1] && ops[i] == o1[j]);
                        assert(op_ensures(s1[j], o1[j], s1[j + 1]));
                    }
                }
                lemma_count_ok_steps_prepend(MachineOp::Step(sr), o1);
                assert(count_ok_steps(ops) == count_ok_steps(o1) + 1);
                (states, ops)
            },
        }
    }
}

proof fn lemma_count_ok_steps_prepend(op: MachineOp, ops: Seq<MachineOp>)
    ensures
        count_ok_steps(seq![op] + ops) == count_ok_steps(ops) + if op matches MachineOp::Step(Ok(_)) {
            1nat
        } else {
            0nat
        },
    decreases ops.len(),
{
    let s = seq![op] + ops;
    if ops.len() == 0 {
        assert(s.drop_last() =~= Seq::<MachineOp>::empty());
        assert(s.last() == op);
        assert(count_ok_steps(Seq::<MachineOp>::empty()) == 0);
    } else {
        lemma_count_ok_steps_prepend(op, ops.drop_last());
        assert(s.drop_last() =~= seq![op] + ops.drop_last());
        assert(s.last() == ops.last());
    }
}

/// A call of `run_until_halt` is a history: the resume it starts with, then the run.
pub proof fn lemma_run_until_halt_is_history(
    before: Machine,
    after: Machine,
    max: nat,
    r: Result<usize, MachineError>,
) -> (h: (Seq<Machine>, Seq<MachineOp>))
    requires
        max <= usize::MAX,
        exists|start: Machine|
            #![trigger run_ensures(start, after, 0, max, r)]
            same_but_run_state(&start, &before) && start.run_state == resumed(before.run_state)
                && run_ensures(start, after, 0, max, r),
    ensures
        history(h.0, h.1),
        h.0[0] == before,
        h.0.last() == after,
        r matches Ok(n) ==> count_ok_steps(h.1) == n,
{
    let start = choose|start: Machine|
        #![trigger run_ensures(start, after, 0, max, r)]
        same_but_run_state(&start, &before) && start.run_state == resumed(before.run_state)
            && run_ensures(start, after, 0, max, r);
    let (s1, o1) = lemma_run_is_history(start, after, 0, max, r);
    let states = seq![before] + s1;
    let ops = seq![MachineOp::Resume] + o1;
    assert(op_ensures(before, MachineOp::Resume, start));
    assert forall|i: int| 0 <= i < ops.len() implies #[trigger] op_ensures(
        states[i],
        ops[i],
        states[i + 1],
    ) by {
        if i > 0 {
            let j = i - 1;
            assert(states[i] == s1[j] && states[i + 1] == s1[j + 1] && ops[i] == o1[j]);
            assert(op_ensures(s1[j], o1[j], s1[j + 1]));
        }
    }
    lemma_count_ok_steps_prepend(MachineOp::Resume, o1);
    (states, ops)
}

/// Whether `m` is where a history of a new machine starts: well formed, the clock at
/// zero, an empty trace numbered from zero, and an empty decode cache.
pub open spec fn fresh(m: Machine) -> bool {
    &&& m.wf()
    &&& m.virtual_clock@ == 0
    &&& m.trace@.next_sequence == 0
    &&& m.trace@.events.len() == 0
    &&& m.cache() == CacheView::empty()
}

/// A new machine meets what the history laws ask of their start: its cache agrees with
/// RAM and has no entries, hits or misses, and its clock and trace start at zero; a
/// restored well-formed machine meets the cache part.
pub proof fn lemma_fresh_starts_histories(m: Machine)
    requires
        m.wf(),
        m.cache() == CacheView::empty(),
    ensures
        cache_coherent(m.memory@, m.cache()),
        m.cache().entries <= m.cache().misses,
        m.cache().hits + m.cache().misses == 0,
{
    crate::laws::lemma_empty_cache_coherent(m.memory@);
}

} // verus!
