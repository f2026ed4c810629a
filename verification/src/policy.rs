//! The policy of one pass over the board: which slots to click, and in which
//! order.
//!
//! A pass dismisses the I/O marker, takes every process that is done off its
//! CPU, starts the most urgent idle processes on the CPUs that are free, and
//! brings the pages that are needed from disk into RAM, moving a page that
//! nobody needs out of RAM for each one that finds no free slot.

use vstd::prelude::*;
use crate::layout::{
    avalible_pages_in_ram, ram_capacity, Layout, Point, DISK_CAPACITY, IDLE_CAPACITY, MAX_RAM_ROWS,
};
use crate::page::{DiskPage, RamPage};
use crate::process::{CpuProcess, IdleProcess};
use crate::queue::{by_urgency, sort_idle};
use crate::queue::urgency_order;
use crate::screen::Snapshot;
use crate::state::{get_state, lemma_ascending_len, state_shown, GameState, GameStateView};

verus! {

/// One click on the board.
#[derive(Debug, PartialEq, Eq, Structural, Clone, Copy)]
pub enum Action {
    /// Dismiss the I/O marker.
    ClearIo,
    /// Take this process off its CPU.
    StopProcess(CpuProcess),
    /// Start this process of the idle queue.
    RunProcess(IdleProcess),
    /// Move this page out of RAM.
    SwapOutPage(RamPage),
    /// Bring this page in from disk.
    SwapInPage(DiskPage),
}

/// Whether a CPU holds a process that is done with it.
pub open spec fn is_evictable(cpu: Option<CpuProcess>) -> bool {
    cpu matches Some(p) && p.state.is_done_with_cpu()
}

/// The stop clicks of a pass: one for each CPU whose process is done with
/// it, in the order of the CPUs.
pub open spec fn stops(cpus: Seq<Option<CpuProcess>>) -> Seq<Action>
    decreases cpus.len(),
{
    if cpus.len() == 0 {
        Seq::empty()
    } else if is_evictable(cpus.last()) {
        stops(cpus.drop_last()).push(Action::StopProcess(cpus.last().unwrap()))
    } else {
        stops(cpus.drop_last())
    }
}

/// The CPUs after the stop clicks: empty where the process was done.
pub open spec fn vacated(cpus: Seq<Option<CpuProcess>>) -> Seq<Option<CpuProcess>> {
    Seq::new(
        cpus.len(),
        |i: int|
            if is_evictable(cpus[i]) {
                None
            } else {
                cpus[i]
            },
    )
}

/// How many CPUs are empty.
pub open spec fn open_slots(cpus: Seq<Option<CpuProcess>>) -> nat
    decreases cpus.len(),
{
    if cpus.len() == 0 {
        0
    } else if cpus.last().is_none() {
        open_slots(cpus.drop_last()) + 1
    } else {
        open_slots(cpus.drop_last())
    }
}

/// The run clicks for a queue that stands in scheduling order: one for each
/// of its first `open` processes, or for all where it holds fewer.
pub open spec fn launches(queue: Seq<IdleProcess>, open: nat) -> Seq<Action> {
    Seq::new(
        if open <= queue.len() {
            open
        } else {
            queue.len()
        },
        |i: int| Action::RunProcess(queue[i]),
    )
}

/// The first page of RAM at or after `from` that nobody needs, as its place
/// in the list.
pub open spec fn next_evictable(ram: Seq<RamPage>, from: nat) -> Option<nat>
    decreases ram.len() - from,
{
    if from >= ram.len() {
        None
    } else if !ram[from as int].needed {
        Some(from)
    } else {
        next_evictable(ram, from + 1)
    }
}

/// The swap clicks for the disk pages from place `at` on, with `free` slots
/// of RAM still unused and the pages of RAM before `cursor` already looked
/// at. A needed disk page takes a free slot where there is one; where there
/// is none, the next page of RAM that nobody needs moves out first; where
/// there is no such page either, this and all later disk pages stay.
pub open spec fn paging(
    ram: Seq<RamPage>,
    disk: Seq<DiskPage>,
    at: nat,
    free: nat,
    cursor: nat,
) -> Seq<Action>
    decreases disk.len() - at,
{
    if at >= disk.len() {
        Seq::empty()
    } else if !disk[at as int].needed {
        paging(ram, disk, at + 1, free, cursor)
    } else if free > 0 {
        seq![Action::SwapInPage(disk[at as int])] + paging(
            ram,
            disk,
            at + 1,
            (free - 1) as nat,
            cursor,
        )
    } else {
        match next_evictable(ram, cursor) {
            Some(out) => seq![
                Action::SwapOutPage(ram[out as int]),
                Action::SwapInPage(disk[at as int]),
            ] + paging(ram, disk, at + 1, free, out + 1),
            None => Seq::empty(),
        }
    }
}

/// The swap clicks of a pass over a RAM of `capacity` slots.
pub open spec fn swaps(ram: Seq<RamPage>, disk: Seq<DiskPage>, capacity: nat) -> Seq<Action> {
    paging(ram, disk, 0, (capacity - ram.len()) as nat, 0)
}

/// The clicks of one pass, in order.
pub open spec fn iteration_plan(state: GameStateView, capacity: nat) -> Seq<Action> {
    seq![Action::ClearIo] + stops(state.cpus) + launches(
        by_urgency(state.idle),
        open_slots(vacated(state.cpus)),
    ) + swaps(state.ram, state.disk, capacity)
}

/// The state as the pass leaves it in memory: the CPUs vacated and the idle
/// queue in scheduling order.
pub open spec fn state_after(state: GameStateView) -> GameStateView {
    GameStateView {
        cpus: vacated(state.cpus),
        idle: by_urgency(state.idle),
        ram: state.ram,
        disk: state.disk,
    }
}

/// Empties every CPU whose process is done with it, and returns the stop
/// clicks for them.
pub fn apply_evictions(cpus: &mut Vec<Option<CpuProcess>>) -> (actions: Vec<Action>)
    ensures
        actions@ == stops(old(cpus)@),
        final(cpus)@ == vacated(old(cpus)@),
{
    let mut actions: Vec<Action> = Vec::new();
    let mut i: usize = 0;
    while i < cpus.len()
        invariant
            i <= cpus.len(),
            cpus@.len() == old(cpus)@.len(),
            actions@ == stops(old(cpus)@.take(i as int)),
            forall|k: int| 0 <= k < i ==> cpus@[k] == vacated(old(cpus)@)[k],
            forall|k: int| i <= k < cpus@.len() ==> cpus@[k] == old(cpus)@[k],
        decreases cpus.len() - i,
    {
        assert(old(cpus)@.take(i + 1).drop_last() == old(cpus)@.take(i as int));
        if let Some(process) = cpus[i] {
            if !process.state.should_be_on_cpu() {
                actions.push(Action::StopProcess(process));
                cpus[i] = None;
            }
        }
        i += 1;
    }
    assert(old(cpus)@.take(i as int) == old(cpus)@);
    assert(cpus@ =~= vacated(old(cpus)@));
    actions
}

/// Counts the empty CPUs.
pub fn count_open(cpus: &Vec<Option<CpuProcess>>) -> (open: usize)
    ensures
        open == open_slots(cpus@),
        open <= cpus@.len(),
{
    let mut open: usize = 0;
    let mut i: usize = 0;
    while i < cpus.len()
        invariant
            i <= cpus.len(),
            open <= i,
            open == open_slots(cpus@.take(i as int)),
        decreases cpus.len() - i,
    {
        assert(cpus@.take(i + 1).drop_last() == cpus@.take(i as int));
        if cpus[i].is_none() {
            open += 1;
        }
        i += 1;
    }
    assert(cpus@.take(i as int) == cpus@);
    open
}

/// The run clicks for the first `open` processes of a queue.
pub fn launch(queue: &Vec<IdleProcess>, open: usize) -> (actions: Vec<Action>)
    ensures
        actions@ == launches(queue@, open as nat),
{
    let mut actions: Vec<Action> = Vec::new();
    let mut i: usize = 0;
    while i < open && i < queue.len()
        invariant
            i <= open,
            i <= queue.len(),
            actions@ == launches(queue@, i as nat),
        decreases queue.len() - i,
    {
        actions.push(Action::RunProcess(queue[i]));
        i += 1;
        assert(actions@ =~= launches(queue@, i as nat));
    }
    assert(actions@ =~= launches(queue@, open as nat));
    actions
}

/// Finds the first page of RAM at or after `from` that nobody needs.
pub fn find_evictable(ram: &Vec<RamPage>, from: usize) -> (found: Option<usize>)
    ensures
        found.is_some() == next_evictable(ram@, from as nat).is_some(),
        found matches Some(out) ==> next_evictable(ram@, from as nat) == Some(out as nat),
        found matches Some(out) ==> from <= out < ram@.len() && !ram@[out as int].needed,
{
    let mut i: usize = from;
    while i < ram.len()
        invariant
            from <= i,
            next_evictable(ram@, i as nat) == next_evictable(ram@, from as nat),
        decreases ram.len() - i,
    {
        if !ram[i].needed {
            return Some(i);
        }
        i += 1;
    }
    None
}

/// The swap clicks of a pass over a RAM of `capacity` slots, of which the
/// pages in `ram` are taken.
pub fn page_in(ram: &Vec<RamPage>, disk: &Vec<DiskPage>, capacity: u32) -> (actions: Vec<Action>)
    requires
        ram@.len() <= capacity,
    ensures
        actions@ == swaps(ram@, disk@, capacity as nat),
{
    let mut actions: Vec<Action> = Vec::new();
    let mut free: usize = capacity as usize - ram.len();
    let mut cursor: usize = 0;
    let mut at: usize = 0;
    let ghost whole = swaps(ram@, disk@, capacity as nat);
    while at < disk.len()
        invariant
            at <= disk.len(),
            cursor <= ram.len(),
            whole == swaps(ram@, disk@, capacity as nat),
            actions@ + paging(ram@, disk@, at as nat, free as nat, cursor as nat) == whole,
        decreases disk.len() - at,
    {
        let ghost rest = paging(ram@, disk@, at as nat, free as nat, cursor as nat);
        let page = disk[at];
        if page.needed {
            if free > 0 {
                let ghost later = paging(
                    ram@,
                    disk@,
                    (at + 1) as nat,
                    (free - 1) as nat,
                    cursor as nat,
                );
                assert(rest == seq![Action::SwapInPage(page)] + later);
                assert(actions@.push(Action::SwapInPage(page)) + later =~= actions@
                    + rest);
                actions.push(Action::SwapInPage(page));
                free -= 1;
            } else {
                match find_evictable(ram, cursor) {
                    Some(out) => {
                        let ghost later = paging(
                            ram@,
                            disk@,
                            (at + 1) as nat,
                            free as nat,
                            (out + 1) as nat,
                        );
                        assert(rest == seq![
                            Action::SwapOutPage(ram@[out as int]),
                            Action::SwapInPage(page),
                        ] + later);
                        assert(actions@.push(Action::SwapOutPage(ram@[out as int])).push(
                            Action::SwapInPage(page),
                        ) + later =~= actions@ + rest);
                        actions.push(Action::SwapOutPage(ram[out]));
                        actions.push(Action::SwapInPage(page));
                        cursor = out + 1;
                    },
                    None => {
                        assert(rest == Seq::<Action>::empty());
                        assert(actions@ + rest =~= actions@);
                        return actions;
                    },
                }
            }
        }
        at += 1;
    }
    assert(actions@ + Seq::<Action>::empty() =~= actions@);
    actions
}

/// Plans one pass over a board whose RAM has `capacity` slots: returns the
/// clicks in order, and leaves the state with the CPUs vacated and the idle
/// queue in scheduling order.
pub fn plan_iteration(state: &mut GameState, capacity: u32) -> (actions: Vec<Action>)
    requires
        old(state).ram@.len() <= capacity,
    ensures
        actions@ == iteration_plan(old(state)@, capacity as nat),
        final(state)@ == state_after(old(state)@),
{
    let mut actions: Vec<Action> = Vec::new();
    actions.push(Action::ClearIo);
    let mut stop_clicks = apply_evictions(&mut state.cpus);
    actions.append(&mut stop_clicks);
    let open = count_open(&state.cpus);
    sort_idle(&mut state.idle);
    let mut run_clicks = launch(&state.idle, open);
    actions.append(&mut run_clicks);
    let mut swap_clicks = page_in(&state.ram, &state.disk, capacity);
    actions.append(&mut swap_clicks);
    assert(actions@ =~= iteration_plan(old(state)@, capacity as nat));
    actions
}

/// Whether a click stops the process of one of the CPUs that are done.
pub open spec fn is_stop_of(cpus: Seq<Option<CpuProcess>>, action: Action) -> bool {
    exists|i: int|
        0 <= i < cpus.len() && is_evictable(#[trigger] cpus[i]) && action
            == (Action::StopProcess(cpus[i].unwrap()))
}

/// Whether a click moves out a page of RAM, at or after place `cursor`,
/// that nobody needs.
pub open spec fn is_swap_out_of(ram: Seq<RamPage>, cursor: nat, action: Action) -> bool {
    exists|j: int|
        cursor <= j < ram.len() && !(#[trigger] ram[j]).needed && action
            == (Action::SwapOutPage(ram[j]))
}

/// Whether a click brings in a page from disk, at or after place `at`,
/// that is needed.
pub open spec fn is_swap_in_of(disk: Seq<DiskPage>, at: nat, action: Action) -> bool {
    exists|d: int|
        at <= d < disk.len() && (#[trigger] disk[d]).needed && action
            == (Action::SwapInPage(disk[d]))
}

/// Every stop click is for a CPU whose process is done with it; the CPUs
/// that the clicks leave hold no such process; and each click frees one
/// CPU more.
pub proof fn lemma_stops(cpus: Seq<Option<CpuProcess>>)
    ensures
        forall|k: int| 0 <= k < stops(cpus).len() ==> is_stop_of(cpus, #[trigger] stops(cpus)[k]),
        forall|i: int| 0 <= i < cpus.len() ==> !is_evictable(#[trigger] vacated(cpus)[i]),
        open_slots(vacated(cpus)) == open_slots(cpus) + stops(cpus).len(),
    decreases cpus.len(),
{
    if cpus.len() > 0 {
        let front = cpus.drop_last();
        lemma_stops(front);
        assert(vacated(cpus).drop_last() == vacated(front));
        assert forall|k: int| 0 <= k < stops(cpus).len() implies is_stop_of(
            cpus,
            #[trigger] stops(cpus)[k],
        ) by {
            if k < stops(front).len() {
                assert(is_stop_of(front, stops(front)[k]));
                let i = choose|i: int|
                    0 <= i < front.len() && is_evictable(#[trigger] front[i]) && stops(front)[k]
                        == (Action::StopProcess(front[i].unwrap()));
                assert(cpus[i] == front[i]);
            } else {
                assert(is_evictable(cpus[cpus.len() - 1]));
            }
        }
    }
}

/// Every swap click moves a page out of RAM that nobody needs, or brings in
/// a page from disk that is needed.
pub proof fn lemma_paging(
    ram: Seq<RamPage>,
    disk: Seq<DiskPage>,
    at: nat,
    free: nat,
    cursor: nat,
)
    ensures
        forall|k: int|
            0 <= k < paging(ram, disk, at, free, cursor).len() ==> is_swap_out_of(
                ram,
                cursor,
                #[trigger] paging(ram, disk, at, free, cursor)[k],
            ) || is_swap_in_of(disk, at, paging(ram, disk, at, free, cursor)[k]),
    decreases disk.len() - at,
{
    let plan = paging(ram, disk, at, free, cursor);
    if at >= disk.len() {
    } else if !disk[at as int].needed {
        lemma_paging(ram, disk, at + 1, free, cursor);
        lemma_swap_later(ram, disk, cursor, cursor, at, paging(ram, disk, at + 1, free, cursor));
    } else if free > 0 {
        lemma_paging(ram, disk, at + 1, (free - 1) as nat, cursor);
        let later = paging(ram, disk, at + 1, (free - 1) as nat, cursor);
        lemma_swap_later(ram, disk, cursor, cursor, at, later);
        assert forall|k: int| 0 <= k < plan.len() implies is_swap_out_of(
            ram,
            cursor,
            #[trigger] plan[k],
        ) || is_swap_in_of(disk, at, plan[k]) by {
            if k == 0 {
                assert(disk[at as int].needed);
            } else {
                assert(plan[k] == later[k - 1]);
            }
        }
    } else {
        match next_evictable(ram, cursor) {
            Some(out) => {
                lemma_next_evictable(ram, cursor);
                lemma_paging(ram, disk, at + 1, free, out + 1);
                let later = paging(ram, disk, at + 1, free, out + 1);
                lemma_swap_later(ram, disk, cursor, out + 1, at, later);
                assert forall|k: int| 0 <= k < plan.len() implies is_swap_out_of(
                    ram,
                    cursor,
                    #[trigger] plan[k],
                ) || is_swap_in_of(disk, at, plan[k]) by {
                    if k == 0 {
                        assert(!ram[out as int].needed);
                    } else if k == 1 {
                        assert(disk[at as int].needed);
                    } else {
                        assert(plan[k] == later[k - 2]);
                    }
                }
            },
            None => {},
        }
    }
}

/// Swap clicks for the pages after a place are swap clicks for the pages
/// from any earlier place on.
proof fn lemma_swap_later(
    ram: Seq<RamPage>,
    disk: Seq<DiskPage>,
    cursor: nat,
    later_cursor: nat,
    at: nat,
    plan: Seq<Action>,
)
    requires
        cursor <= later_cursor,
        forall|k: int|
            0 <= k < plan.len() ==> is_swap_out_of(ram, later_cursor, #[trigger] plan[k])
                || is_swap_in_of(disk, at + 1, plan[k]),
    ensures
        forall|k: int|
            0 <= k < plan.len() ==> is_swap_out_of(ram, cursor, #[trigger] plan[k])
                || is_swap_in_of(disk, at, plan[k]),
{
    assert forall|k: int| 0 <= k < plan.len() implies is_swap_out_of(
        ram,
        cursor,
        #[trigger] plan[k],
    ) || is_swap_in_of(disk, at, plan[k]) by {
        if is_swap_out_of(ram, later_cursor, plan[k]) {
            let j = choose|j: int|
                later_cursor <= j < ram.len() && !(#[trigger] ram[j]).needed && plan[k]
                    == (Action::SwapOutPage(ram[j]));
            assert(cursor <= j);
        } else {
            let d = choose|d: int|
                at + 1 <= d < disk.len() && (#[trigger] disk[d]).needed && plan[k]
                    == (Action::SwapInPage(disk[d]));
            assert(at <= d);
        }
    }
}

/// A page leaves RAM only to make room: every swap-out click is followed
/// at once by a swap-in click, and while free slots remain nothing leaves.
pub proof fn lemma_paging_pairs(
    ram: Seq<RamPage>,
    disk: Seq<DiskPage>,
    at: nat,
    free: nat,
    cursor: nat,
)
    ensures
        forall|k: int|
            0 <= k < paging(ram, disk, at, free, cursor).len() && (#[trigger] paging(
                ram,
                disk,
                at,
                free,
                cursor,
            )[k]) is SwapOutPage ==> k + 1 < paging(ram, disk, at, free, cursor).len() && paging(
                ram,
                disk,
                at,
                free,
                cursor,
            )[k + 1] is SwapInPage,
        forall|k: int|
            0 <= k < paging(ram, disk, at, free, cursor).len() && k < free ==> (#[trigger] paging(
                ram,
                disk,
                at,
                free,
                cursor,
            )[k]) is SwapInPage,
    decreases disk.len() - at,
{
    let plan = paging(ram, disk, at, free, cursor);
    if at >= disk.len() {
    } else if !disk[at as int].needed {
        lemma_paging_pairs(ram, disk, at + 1, free, cursor);
    } else if free > 0 {
        lemma_paging_pairs(ram, disk, at + 1, (free - 1) as nat, cursor);
        let later = paging(ram, disk, at + 1, (free - 1) as nat, cursor);
        assert forall|k: int| 0 <= k < plan.len() && (#[trigger] plan[k]) is SwapOutPage implies k
            + 1 < plan.len() && plan[k + 1] is SwapInPage by {
            assert(plan[k] == later[k - 1]);
            assert(plan[k + 1] == later[k]);
        }
        assert forall|k: int| 0 <= k < plan.len() && k < free implies (
        #[trigger] plan[k]) is SwapInPage by {
            if k > 0 {
                assert(plan[k] == later[k - 1]);
            }
        }
    } else {
        match next_evictable(ram, cursor) {
            Some(out) => {
                lemma_paging_pairs(ram, disk, at + 1, free, out + 1);
                let later = paging(ram, disk, at + 1, free, out + 1);
                assert forall|k: int|
                    0 <= k < plan.len() && (#[trigger] plan[k]) is SwapOutPage implies k + 1
                    < plan.len() && plan[k + 1] is SwapInPage by {
                    if k >= 2 {
                        assert(plan[k] == later[k - 2]);
                        assert(plan[k + 1] == later[k - 1]);
                    }
                }
            },
            None => {},
        }
    }
}

/// The page that [`next_evictable`] finds is the first at or after `from`
/// that nobody needs; it finds none only where all of them are needed.
pub proof fn lemma_next_evictable(ram: Seq<RamPage>, from: nat)
    ensures
        match next_evictable(ram, from) {
            Some(out) => from <= out < ram.len() && !ram[out as int].needed && forall|j: int|
                from <= j < out ==> (#[trigger] ram[j]).needed,
            None => forall|j: int| from <= j < ram.len() ==> (#[trigger] ram[j]).needed,
        },
    decreases ram.len() - from,
{
    if from < ram.len() && ram[from as int].needed {
        lemma_next_evictable(ram, from + 1);
    }
}

/// A pass dismisses the I/O marker exactly once, and before anything else.
pub proof fn lemma_clear_io_once(state: GameStateView, capacity: nat)
    ensures
        iteration_plan(state, capacity).len() >= 1,
        iteration_plan(state, capacity)[0] == Action::ClearIo,
        forall|k: int|
            1 <= k < iteration_plan(state, capacity).len() ==> iteration_plan(state, capacity)[k]
                != Action::ClearIo,
{
    let plan = iteration_plan(state, capacity);
    let a = stops(state.cpus);
    let b = launches(by_urgency(state.idle), open_slots(vacated(state.cpus)));
    let c = swaps(state.ram, state.disk, capacity);
    lemma_stops(state.cpus);
    lemma_paging(state.ram, state.disk, 0, (capacity - state.ram.len()) as nat, 0);
    assert forall|k: int| 1 <= k < plan.len() implies plan[k] != Action::ClearIo by {
        if k < 1 + a.len() {
            assert(plan[k] == a[k - 1]);
            assert(is_stop_of(state.cpus, a[k - 1]));
        } else if k < 1 + a.len() + b.len() {
            assert(plan[k] == b[k - 1 - a.len()]);
        } else {
            let i = k - 1 - a.len() - b.len();
            assert(plan[k] == c[i]);
            assert(is_swap_out_of(state.ram, 0, c[i]) || is_swap_in_of(state.disk, 0, c[i]));
        }
    }
}

/// Whether a click goes to a slot of a board with the given numbers of CPUs
/// and rows of RAM.
pub open spec fn on_board(action: Action, num_cpus: nat, num_ram_rows: nat) -> bool {
    match action {
        Action::ClearIo => true,
        Action::StopProcess(process) => process.pos < num_cpus,
        Action::RunProcess(process) => process.pos < IDLE_CAPACITY,
        Action::SwapOutPage(page) => page.pos < ram_capacity(num_ram_rows),
        Action::SwapInPage(page) => page.pos < DISK_CAPACITY,
    }
}

/// The clicks planned for a state that fits a board all go to slots of that
/// board.
pub proof fn lemma_plan_on_board(
    state: GameStateView,
    capacity: nat,
    num_cpus: nat,
    num_ram_rows: nat,
)
    requires
        state.fits_board(num_cpus, num_ram_rows),
    ensures
        forall|k: int|
            0 <= k < iteration_plan(state, capacity).len() ==> on_board(
                #[trigger] iteration_plan(state, capacity)[k],
                num_cpus,
                num_ram_rows,
            ),
{
    let plan = iteration_plan(state, capacity);
    let a = stops(state.cpus);
    let queue = by_urgency(state.idle);
    let b = launches(queue, open_slots(vacated(state.cpus)));
    let c = swaps(state.ram, state.disk, capacity);
    lemma_stops(state.cpus);
    lemma_paging(state.ram, state.disk, 0, (capacity - state.ram.len()) as nat, 0);
    crate::queue::lemma_urgency_order_total();
    state.idle.lemma_sort_by_ensures(urgency_order());
    assert forall|k: int| 0 <= k < plan.len() implies on_board(
        #[trigger] plan[k],
        num_cpus,
        num_ram_rows,
    ) by {
        if k < 1 {
        } else if k < 1 + a.len() {
            assert(plan[k] == a[k - 1]);
            assert(is_stop_of(state.cpus, a[k - 1]));
            let i = choose|i: int|
                0 <= i < state.cpus.len() && is_evictable(#[trigger] state.cpus[i]) && a[k - 1]
                    == (Action::StopProcess(state.cpus[i].unwrap()));
            assert(state.cpus[i].unwrap().pos == i);
        } else if k < 1 + a.len() + b.len() {
            let i = k - 1 - a.len();
            assert(plan[k] == b[i]);
            assert(queue.contains(queue[i]));
            assert(state.idle.contains(queue[i]));
            let at = choose|at: int| 0 <= at < state.idle.len() && state.idle[at] == queue[i];
            assert(state.idle_slots()[at] == queue[i].pos);
        } else {
            let i = k - 1 - a.len() - b.len();
            assert(plan[k] == c[i]);
            assert(is_swap_out_of(state.ram, 0, c[i]) || is_swap_in_of(state.disk, 0, c[i]));
            if is_swap_out_of(state.ram, 0, c[i]) {
                let j = choose|j: int|
                    0 <= j < state.ram.len() && !(#[trigger] state.ram[j]).needed && c[i]
                        == (Action::SwapOutPage(state.ram[j]));
                assert(state.ram_slots()[j] == state.ram[j].pos);
            } else {
                let d = choose|d: int|
                    0 <= d < state.disk.len() && (#[trigger] state.disk[d]).needed && c[i]
                        == (Action::SwapInPage(state.disk[d]));
                assert(state.disk_slots()[d] == state.disk[d].pos);
            }
        }
    }
}

/// The pixel of a slot of a region, where the region has that slot.
pub open spec fn slot_pixel(points: Seq<Point>, slot: u32) -> Option<Point> {
    if slot < points.len() {
        Some(points[slot as int])
    } else {
        None
    }
}

/// The pixel at which a click lands, where the layout has one for its slot.
pub open spec fn target_of(layout: Layout, action: Action) -> Option<Point> {
    match action {
        Action::ClearIo => Some(layout.io),
        Action::StopProcess(process) => slot_pixel(layout.cpus@, process.pos),
        Action::RunProcess(process) => slot_pixel(layout.idle@, process.pos),
        Action::SwapOutPage(page) => slot_pixel(layout.ram@, page.pos),
        Action::SwapInPage(page) => slot_pixel(layout.disk@, page.pos),
    }
}

/// The pixels at which the clicks of a plan land, in order.
pub open spec fn targets_of(layout: Layout, plan: Seq<Action>) -> Seq<Option<Point>> {
    plan.map_values(|action: Action| target_of(layout, action))
}

/// A layout made for a board has a pixel for exactly the clicks that go to
/// slots of that board.
pub proof fn lemma_target_on_board(
    layout: Layout,
    action: Action,
    num_cpus: nat,
    num_ram_rows: nat,
)
    requires
        layout.shaped(num_cpus, num_ram_rows),
    ensures
        target_of(layout, action).is_some() <==> on_board(action, num_cpus, num_ram_rows),
{
}

/// The pixel of one slot of a region.
fn slot_point(points: &Vec<Point>, slot: u32) -> (r: Option<Point>)
    ensures
        r == slot_pixel(points@, slot),
{
    if (slot as usize) < points.len() {
        Some(points[slot as usize])
    } else {
        None
    }
}

/// Where to click to take a process off its CPU.
pub fn stop_process(process: &CpuProcess, layout: &Layout) -> (r: Option<Point>)
    ensures
        r == slot_pixel(layout.cpus@, process.pos),
{
    slot_point(&layout.cpus, process.pos)
}

/// Where to click to start a process of the idle queue.
pub fn run_process(process: &IdleProcess, layout: &Layout) -> (r: Option<Point>)
    ensures
        r == slot_pixel(layout.idle@, process.pos),
{
    slot_point(&layout.idle, process.pos)
}

/// Where to click to move a page out of RAM.
pub fn swap_out_page(page: &RamPage, layout: &Layout) -> (r: Option<Point>)
    ensures
        r == slot_pixel(layout.ram@, page.pos),
{
    slot_point(&layout.ram, page.pos)
}

/// Where to click to bring a page in from disk.
pub fn swap_in_page(page: &DiskPage, layout: &Layout) -> (r: Option<Point>)
    ensures
        r == slot_pixel(layout.disk@, page.pos),
{
    slot_point(&layout.disk, page.pos)
}

/// Where to click to dismiss the I/O marker.
pub fn clear_io(layout: &Layout) -> (r: Point)
    ensures
        r == layout.io,
{
    layout.io
}

/// The pixel at which a click lands, where the layout has one for its slot.
pub fn click_target(layout: &Layout, action: Action) -> (r: Option<Point>)
    ensures
        r == target_of(*layout, action),
{
    match action {
        Action::ClearIo => Some(clear_io(layout)),
        Action::StopProcess(process) => stop_process(&process, layout),
        Action::RunProcess(process) => run_process(&process, layout),
        Action::SwapOutPage(page) => swap_out_page(&page, layout),
        Action::SwapInPage(page) => swap_in_page(&page, layout),
    }
}

/// The pixels at which the clicks of a plan land, in order; none where the
/// layout lacks the slot of one of them.
pub fn click_targets(layout: &Layout, plan: &Vec<Action>) -> (r: Option<Vec<Point>>)
    ensures
        r.is_some() <==> forall|k: int|
            0 <= k < plan@.len() ==> target_of(*layout, #[trigger] plan@[k]).is_some(),
        r matches Some(points) ==> points@.map_values(|p: Point| Some(p)) == targets_of(
            *layout,
            plan@,
        ),
{
    let mut points: Vec<Point> = Vec::new();
    let mut i: usize = 0;
    while i < plan.len()
        invariant
            i <= plan.len(),
            points@.len() == i,
            forall|k: int|
                0 <= k < i ==> target_of(*layout, #[trigger] plan@[k]) == Some(points@[k]),
        decreases plan.len() - i,
    {
        match click_target(layout, plan[i]) {
            Some(p) => {
                points.push(p);
            },
            None => {
                return None;
            },
        }
        i += 1;
    }
    assert(points@.map_values(|p: Point| Some(p)) =~= targets_of(*layout, plan@));
    Some(points)
}

/// One pass: reads the board off a snapshot at the pixels of `seen`, and
/// returns the pixels of `clicked` to click, in order. The two tables are
/// the same where the snapshot has the size of the screen that the pointer
/// moves on.
pub fn run_iteration(
    snapshot: &Snapshot,
    seen: &Layout,
    clicked: &Layout,
    num_cpus: u32,
    num_ram_rows: u32,
) -> (clicks: Vec<Point>)
    requires
        seen.shaped(num_cpus as nat, num_ram_rows as nat),
        clicked.shaped(num_cpus as nat, num_ram_rows as nat),
        num_ram_rows <= MAX_RAM_ROWS,
        seen.clear_of_border(snapshot.spec_width(), snapshot.spec_height(), 0),
    ensures
        clicks@.map_values(|p: Point| Some(p)) == targets_of(
            *clicked,
            iteration_plan(state_shown(*snapshot, *seen), ram_capacity(num_ram_rows as nat)),
        ),
{
    let mut state = get_state(snapshot, seen, num_cpus, num_ram_rows);
    let capacity = avalible_pages_in_ram(num_ram_rows);
    proof {
        lemma_ascending_len(state@.ram_slots(), ram_capacity(num_ram_rows as nat));
        lemma_plan_on_board(state@, capacity as nat, num_cpus as nat, num_ram_rows as nat);
    }
    let plan = plan_iteration(&mut state, capacity);
    proof {
        assert forall|k: int| 0 <= k < plan@.len() implies target_of(
            *clicked,
            #[trigger] plan@[k],
        ).is_some() by {
            lemma_target_on_board(*clicked, plan@[k], num_cpus as nat, num_ram_rows as nat);
        }
    }
    match click_targets(clicked, &plan) {
        Some(clicks) => clicks,
        None => Vec::new(),
    }
}

} // verus!
