//! Reading the board: from the colours at the slots of each region to the
//! processes and pages that the game shows.

use vstd::prelude::*;
use crate::color::{classify_page, classify_process, page_shown, process_shown, Color};
use crate::layout::{
    all_clear_of_border, ram_capacity, Layout, Point, DISK_CAPACITY, IDLE_CAPACITY, MAX_RAM_ROWS,
};
use crate::page::{DiskPage, RamPage};
use crate::process::{CpuProcess, IdleProcess, ProcessState};
use crate::screen::Snapshot;

verus! {

/// What the game shows at one moment.
#[derive(Debug, Clone)]
pub struct GameState {
    /// One entry per CPU, empty where no process runs.
    pub cpus: Vec<Option<CpuProcess>>,
    /// The occupied cells of the idle queue.
    pub idle: Vec<IdleProcess>,
    /// The occupied slots of RAM.
    pub ram: Vec<RamPage>,
    /// The occupied slots of the disk.
    pub disk: Vec<DiskPage>,
}

/// The occupied slots of a region, in the order of the slots: each with its
/// index and with what it shows. Slots that show nothing are left out.
pub open spec fn occupied<T>(shown: Seq<Option<T>>) -> Seq<(nat, T)>
    decreases shown.len(),
{
    if shown.len() == 0 {
        Seq::empty()
    } else {
        let before = occupied(shown.drop_last());
        match shown.last() {
            Some(t) => before.push(((shown.len() - 1) as nat, t)),
            None => before,
        }
    }
}

/// One more slot adds one entry where it shows something, none where not.
pub proof fn lemma_occupied_push<T>(shown: Seq<Option<T>>, next: Option<T>)
    ensures
        occupied(shown.push(next)) == match next {
            Some(t) => occupied(shown).push((shown.len(), t)),
            None => occupied(shown),
        },
{
    assert(shown.push(next).drop_last() == shown);
}

/// The entries of [`occupied`] are exactly the slots that show something:
/// the indices ascend, each entry holds what its slot shows, and no slot
/// that shows something is missing.
pub proof fn lemma_occupied<T>(shown: Seq<Option<T>>)
    ensures
        occupied(shown).len() <= shown.len(),
        forall|k: int|
            0 <= k < occupied(shown).len() ==> (#[trigger] occupied(shown)[k]).0 < shown.len()
                && shown[occupied(shown)[k].0 as int] == Some(occupied(shown)[k].1),
        forall|j: int, k: int|
            0 <= j < k < occupied(shown).len() ==> (#[trigger] occupied(shown)[j]).0 < (
            #[trigger] occupied(shown)[k]).0,
        forall|i: int|
            0 <= i < shown.len() && (#[trigger] shown[i]).is_some() ==> exists|k: int|
                0 <= k < occupied(shown).len() && (#[trigger] occupied(shown)[k]).0 == i,
    decreases shown.len(),
{
    if shown.len() > 0 {
        let front = shown.drop_last();
        lemma_occupied(front);
        let out = occupied(shown);
        let before = occupied(front);
        assert forall|i: int|
            0 <= i < shown.len() && (#[trigger] shown[i]).is_some() implies exists|k: int|
            0 <= k < out.len() && (#[trigger] out[k]).0 == i by {
            if i < front.len() {
                assert(front[i].is_some());
                let k = choose|k: int| 0 <= k < before.len() && (#[trigger] before[k]).0 == i;
                assert(out[k].0 == i);
            } else {
                assert(out[out.len() - 1].0 == i);
            }
        }
    }
}

/// What the process cells of the given colours show, cell by cell.
pub open spec fn processes_shown(colors: Seq<Color>) -> Seq<Option<ProcessState>> {
    colors.map_values(|c: Color| process_shown(c))
}

/// What the page cells of the given colours show, cell by cell.
pub open spec fn pages_shown(colors: Seq<Color>) -> Seq<Option<bool>> {
    colors.map_values(|c: Color| page_shown(c))
}

/// The CPUs that cells of the given colours show: one entry per cell, empty
/// where the colour is no process colour.
pub open spec fn cpus_shown(colors: Seq<Color>) -> Seq<Option<CpuProcess>> {
    Seq::new(
        colors.len(),
        |i: int|
            match process_shown(colors[i]) {
                Some(state) => Some(CpuProcess { state, pos: i as u32 }),
                None => None,
            },
    )
}

/// The idle processes that cells of the given colours show.
pub open spec fn idle_shown(colors: Seq<Color>) -> Seq<IdleProcess> {
    occupied(processes_shown(colors)).map_values(
        |e: (nat, ProcessState)| IdleProcess { state: e.1, pos: e.0 as u32 },
    )
}

/// The pages of RAM that cells of the given colours show.
pub open spec fn ram_shown(colors: Seq<Color>) -> Seq<RamPage> {
    occupied(pages_shown(colors)).map_values(
        |e: (nat, bool)| RamPage { needed: e.1, pos: e.0 as u32 },
    )
}

/// The pages of the disk that cells of the given colours show.
pub open spec fn disk_shown(colors: Seq<Color>) -> Seq<DiskPage> {
    occupied(pages_shown(colors)).map_values(
        |e: (nat, bool)| DiskPage { needed: e.1, pos: e.0 as u32 },
    )
}

/// The colours of a snapshot at the given pixels.
pub open spec fn colors_at(snapshot: Snapshot, points: Seq<Point>) -> Seq<Color> {
    Seq::new(points.len(), |i: int| snapshot.color_at(points[i].x as int, points[i].y as int))
}

/// The state that a snapshot shows at the pixels of a layout.
pub open spec fn state_shown(snapshot: Snapshot, layout: Layout) -> GameStateView {
    GameStateView {
        cpus: cpus_shown(colors_at(snapshot, layout.cpus@)),
        idle: idle_shown(colors_at(snapshot, layout.idle@)),
        ram: ram_shown(colors_at(snapshot, layout.ram@)),
        disk: disk_shown(colors_at(snapshot, layout.disk@)),
    }
}

/// A game state as four sequences.
pub struct GameStateView {
    pub cpus: Seq<Option<CpuProcess>>,
    pub idle: Seq<IdleProcess>,
    pub ram: Seq<RamPage>,
    pub disk: Seq<DiskPage>,
}

impl View for GameState {
    type V = GameStateView;

    open spec fn view(&self) -> GameStateView {
        GameStateView { cpus: self.cpus@, idle: self.idle@, ram: self.ram@, disk: self.disk@ }
    }
}

/// Whether the indices ascend strictly and stay below `bound`.
pub open spec fn ascending_below(slots: Seq<u32>, bound: nat) -> bool {
    &&& forall|k: int| 0 <= k < slots.len() ==> #[trigger] slots[k] < bound
    &&& forall|j: int, k: int|
        0 <= j < k < slots.len() ==> #[trigger] slots[j] < #[trigger] slots[k]
}

/// Indices that ascend strictly below a bound are at most as many as the
/// bound.
pub proof fn lemma_ascending_len(slots: Seq<u32>, bound: nat)
    requires
        ascending_below(slots, bound),
    ensures
        slots.len() <= bound,
        forall|k: int| 0 <= k < slots.len() ==> k <= #[trigger] slots[k],
    decreases slots.len(),
{
    if slots.len() > 0 {
        let front = slots.drop_last();
        assert forall|k: int| 0 <= k < front.len() implies #[trigger] front[k] < bound by {
            assert(front[k] == slots[k]);
        }
        assert forall|j: int, k: int| 0 <= j < k < front.len() implies #[trigger] front[j]
            < #[trigger] front[k] by {
            assert(front[j] == slots[j] && front[k] == slots[k]);
        }
        lemma_ascending_len(front, bound);
        assert forall|k: int| 0 <= k < slots.len() implies k <= #[trigger] slots[k] by {
            if k < front.len() {
                assert(front[k] == slots[k]);
            } else if k > 0 {
                assert(front[k - 1] == slots[k - 1]);
                assert(slots[k - 1] < slots[k]);
            }
        }
        assert(slots.len() - 1 <= slots[slots.len() - 1]);
    }
}

impl GameStateView {
    /// The slot indices of the idle processes.
    pub open spec fn idle_slots(self) -> Seq<u32> {
        self.idle.map_values(|p: IdleProcess| p.pos)
    }

    /// The slot indices of the pages in RAM.
    pub open spec fn ram_slots(self) -> Seq<u32> {
        self.ram.map_values(|p: RamPage| p.pos)
    }

    /// The slot indices of the pages on disk.
    pub open spec fn disk_slots(self) -> Seq<u32> {
        self.disk.map_values(|p: DiskPage| p.pos)
    }

    /// Whether the state can be that of a board with the given numbers of
    /// CPUs and rows of RAM: one entry per CPU, each process on the CPU
    /// that it names, and in every other region the slots in ascending
    /// order and within the region.
    pub open spec fn fits_board(self, num_cpus: nat, num_ram_rows: nat) -> bool {
        &&& self.cpus.len() == num_cpus
        &&& forall|i: int|
            0 <= i < self.cpus.len() ==> ((#[trigger] self.cpus[i]) matches Some(p) ==> p.pos
                == i)
        &&& ascending_below(self.idle_slots(), IDLE_CAPACITY as nat)
        &&& ascending_below(self.ram_slots(), ram_capacity(num_ram_rows))
        &&& ascending_below(self.disk_slots(), DISK_CAPACITY as nat)
    }
}

/// Samples a snapshot at each of the given pixels.
pub fn sample(snapshot: &Snapshot, points: &Vec<Point>) -> (colors: Vec<Color>)
    requires
        all_clear_of_border(points@, snapshot.spec_width(), snapshot.spec_height(), 0),
    ensures
        colors@ == colors_at(*snapshot, points@),
{
    let mut colors: Vec<Color> = Vec::new();
    let mut i: usize = 0;
    while i < points.len()
        invariant
            i <= points.len(),
            all_clear_of_border(points@, snapshot.spec_width(), snapshot.spec_height(), 0),
            colors@ == colors_at(*snapshot, points@.take(i as int)),
        decreases points.len() - i,
    {
        let p = points[i];
        assert(points@[i as int].clear_of_border(
            snapshot.spec_width(),
            snapshot.spec_height(),
            0,
        ));
        match snapshot.get(p.x, p.y) {
            Some(c) => {
                colors.push(c);
            },
            None => {
                assert(false);
            },
        }
        i += 1;
        assert(colors@ =~= colors_at(*snapshot, points@.take(i as int)));
    }
    assert(points@.take(i as int) == points@);
    colors
}

/// Reads the CPUs off the colours of their cells.
pub fn read_cpus(colors: &Vec<Color>) -> (cpus: Vec<Option<CpuProcess>>)
    requires
        colors@.len() <= u32::MAX,
    ensures
        cpus@ == cpus_shown(colors@),
{
    let mut cpus: Vec<Option<CpuProcess>> = Vec::new();
    let mut i: u32 = 0;
    while (i as usize) < colors.len()
        invariant
            i <= colors@.len() <= u32::MAX,
            cpus@ == cpus_shown(colors@.take(i as int)),
        decreases colors@.len() - i,
    {
        let entry = match classify_process(colors[i as usize]) {
            Some(state) => Some(CpuProcess { state, pos: i }),
            None => None,
        };
        cpus.push(entry);
        i += 1;
        assert(cpus@ =~= cpus_shown(colors@.take(i as int)));
    }
    assert(colors@.take(i as int) == colors@);
    cpus
}

/// Reads the idle queue off the colours of its cells.
pub fn read_idle(colors: &Vec<Color>) -> (idle: Vec<IdleProcess>)
    requires
        colors@.len() <= u32::MAX,
    ensures
        idle@ == idle_shown(colors@),
{
    let mut idle: Vec<IdleProcess> = Vec::new();
    let mut i: u32 = 0;
    while (i as usize) < colors.len()
        invariant
            i <= colors@.len() <= u32::MAX,
            idle@ == idle_shown(colors@.take(i as int)),
        decreases colors@.len() - i,
    {
        let shown = classify_process(colors[i as usize]);
        proof {
            let front = processes_shown(colors@.take(i as int));
            lemma_occupied_push(front, shown);
            assert(processes_shown(colors@.take(i + 1)) =~= front.push(shown));
        }
        if let Some(state) = shown {
            idle.push(IdleProcess { state, pos: i });
        }
        i += 1;
        assert(idle@ =~= idle_shown(colors@.take(i as int)));
    }
    assert(colors@.take(i as int) == colors@);
    idle
}

/// Reads the pages in RAM off the colours of its slots.
pub fn read_ram(colors: &Vec<Color>) -> (ram: Vec<RamPage>)
    requires
        colors@.len() <= u32::MAX,
    ensures
        ram@ == ram_shown(colors@),
{
    let mut ram: Vec<RamPage> = Vec::new();
    let mut i: u32 = 0;
    while (i as usize) < colors.len()
        invariant
            i <= colors@.len() <= u32::MAX,
            ram@ == ram_shown(colors@.take(i as int)),
        decreases colors@.len() - i,
    {
        let shown = classify_page(colors[i as usize]);
        proof {
            let front = pages_shown(colors@.take(i as int));
            lemma_occupied_push(front, shown);
            assert(pages_shown(colors@.take(i + 1)) =~= front.push(shown));
        }
        if let Some(needed) = shown {
            ram.push(RamPage { needed, pos: i });
        }
        i += 1;
        assert(ram@ =~= ram_shown(colors@.take(i as int)));
    }
    assert(colors@.take(i as int) == colors@);
    ram
}

/// Reads the pages on disk off the colours of its slots.
pub fn read_disk(colors: &Vec<Color>) -> (disk: Vec<DiskPage>)
    requires
        colors@.len() <= u32::MAX,
    ensures
        disk@ == disk_shown(colors@),
{
    let mut disk: Vec<DiskPage> = Vec::new();
    let mut i: u32 = 0;
    while (i as usize) < colors.len()
        invariant
            i <= colors@.len() <= u32::MAX,
            disk@ == disk_shown(colors@.take(i as int)),
        decreases colors@.len() - i,
    {
        let shown = classify_page(colors[i as usize]);
        proof {
            let front = pages_shown(colors@.take(i as int));
            lemma_occupied_push(front, shown);
            assert(pages_shown(colors@.take(i + 1)) =~= front.push(shown));
        }
        if let Some(needed) = shown {
            disk.push(DiskPage { needed, pos: i });
        }
        i += 1;
        assert(disk@ =~= disk_shown(colors@.take(i as int)));
    }
    assert(colors@.take(i as int) == colors@);
    disk
}

/// The idle queue that is read off a row of cells holds exactly the cells
/// that show a process: in ascending order, each with the state that its
/// colour shows, and none left out.
pub proof fn lemma_idle_shown(colors: Seq<Color>)
    requires
        colors.len() <= u32::MAX,
    ensures
        idle_shown(colors).len() <= colors.len(),
        forall|k: int|
            0 <= k < idle_shown(colors).len() ==> (#[trigger] idle_shown(colors)[k]).pos
                < colors.len() && process_shown(colors[idle_shown(colors)[k].pos as int])
                == Some(idle_shown(colors)[k].state),
        forall|j: int, k: int|
            0 <= j < k < idle_shown(colors).len() ==> (#[trigger] idle_shown(colors)[j]).pos < (
            #[trigger] idle_shown(colors)[k]).pos,
        forall|i: int|
            0 <= i < colors.len() && process_shown(#[trigger] colors[i]).is_some() ==> exists|
                k: int,
            |
                0 <= k < idle_shown(colors).len() && (#[trigger] idle_shown(colors)[k]).pos == i,
{
    let shown = processes_shown(colors);
    let slots = occupied(shown);
    let idle = idle_shown(colors);
    lemma_occupied(shown);
    assert forall|k: int| 0 <= k < idle.len() implies (#[trigger] idle[k]).pos < colors.len()
        && process_shown(colors[idle[k].pos as int]) == Some(idle[k].state) by {
        assert(slots[k].0 < shown.len());
        assert(shown[slots[k].0 as int] == Some(slots[k].1));
    }
    assert forall|j: int, k: int| 0 <= j < k < idle.len() implies (#[trigger] idle[j]).pos < (
    #[trigger] idle[k]).pos by {
        assert(slots[j].0 < slots[k].0 < shown.len());
    }
    assert forall|i: int|
        0 <= i < colors.len() && process_shown(#[trigger] colors[i]).is_some() implies exists|
        k: int,
    |
        0 <= k < idle.len() && (#[trigger] idle[k]).pos == i by {
        assert(shown[i].is_some());
        let k = choose|k: int| 0 <= k < slots.len() && (#[trigger] slots[k]).0 == i;
        assert(idle[k].pos == i);
    }
}

/// The pages that are read off a row of slots hold exactly the slots that
/// show a page: in ascending order, each with the flag that its colour
/// shows, and none left out. RAM and disk are read alike.
pub proof fn lemma_pages_shown(colors: Seq<Color>)
    requires
        colors.len() <= u32::MAX,
    ensures
        ram_shown(colors).len() == disk_shown(colors).len() <= colors.len(),
        forall|k: int|
            0 <= k < ram_shown(colors).len() ==> (#[trigger] ram_shown(colors)[k]).pos
                < colors.len() && page_shown(colors[ram_shown(colors)[k].pos as int]) == Some(
                ram_shown(colors)[k].needed,
            ),
        forall|k: int|
            0 <= k < disk_shown(colors).len() ==> (#[trigger] disk_shown(colors)[k]).pos
                == ram_shown(colors)[k].pos && disk_shown(colors)[k].needed == ram_shown(
                colors,
            )[k].needed,
        forall|j: int, k: int|
            0 <= j < k < ram_shown(colors).len() ==> (#[trigger] ram_shown(colors)[j]).pos < (
            #[trigger] ram_shown(colors)[k]).pos,
        forall|i: int|
            0 <= i < colors.len() && page_shown(#[trigger] colors[i]).is_some() ==> exists|
                k: int,
            |
                0 <= k < ram_shown(colors).len() && (#[trigger] ram_shown(colors)[k]).pos == i,
{
    let shown = pages_shown(colors);
    let slots = occupied(shown);
    let ram = ram_shown(colors);
    lemma_occupied(shown);
    assert forall|k: int| 0 <= k < ram.len() implies (#[trigger] ram[k]).pos < colors.len()
        && page_shown(colors[ram[k].pos as int]) == Some(ram[k].needed) by {
        assert(slots[k].0 < shown.len());
        assert(shown[slots[k].0 as int] == Some(slots[k].1));
    }
    assert forall|j: int, k: int| 0 <= j < k < ram.len() implies (#[trigger] ram[j]).pos < (
    #[trigger] ram[k]).pos by {
        assert(slots[j].0 < slots[k].0 < shown.len());
    }
    assert forall|i: int|
        0 <= i < colors.len() && page_shown(#[trigger] colors[i]).is_some() implies exists|
        k: int,
    |
        0 <= k < ram.len() && (#[trigger] ram[k]).pos == i by {
        assert(shown[i].is_some());
        let k = choose|k: int| 0 <= k < slots.len() && (#[trigger] slots[k]).0 == i;
        assert(ram[k].pos == i);
    }
}

/// Whatever a snapshot holds, the state read at the pixels of a layout fits
/// the board that the layout was made for.
pub proof fn lemma_state_shown_fits_board(
    snapshot: Snapshot,
    layout: Layout,
    num_cpus: nat,
    num_ram_rows: nat,
)
    requires
        layout.shaped(num_cpus, num_ram_rows),
        num_cpus <= u32::MAX,
        num_ram_rows <= MAX_RAM_ROWS,
    ensures
        state_shown(snapshot, layout).fits_board(num_cpus, num_ram_rows),
{
    let state = state_shown(snapshot, layout);
    lemma_idle_shown(colors_at(snapshot, layout.idle@));
    lemma_pages_shown(colors_at(snapshot, layout.ram@));
    lemma_pages_shown(colors_at(snapshot, layout.disk@));
    let ram = ram_shown(colors_at(snapshot, layout.disk@));
    let slots = state.disk_slots();
    assert forall|k: int| 0 <= k < slots.len() implies #[trigger] slots[k] < DISK_CAPACITY by {
        assert(state.disk[k].pos == ram[k].pos);
    }
    assert forall|j: int, k: int| 0 <= j < k < slots.len() implies #[trigger] slots[j]
        < #[trigger] slots[k] by {
        assert(state.disk[j].pos == ram[j].pos);
        assert(state.disk[k].pos == ram[k].pos);
    }
}

/// Reads the state of the board off a snapshot, at the pixels of a layout
/// made for a board with `num_cpus` CPUs and `num_ram_rows` rows of RAM.
pub fn get_state(snapshot: &Snapshot, layout: &Layout, num_cpus: u32, num_ram_rows: u32) -> (state:
    GameState)
    requires
        layout.shaped(num_cpus as nat, num_ram_rows as nat),
        num_ram_rows <= MAX_RAM_ROWS,
        layout.clear_of_border(snapshot.spec_width(), snapshot.spec_height(), 0),
    ensures
        state@ == state_shown(*snapshot, *layout),
        state@.fits_board(num_cpus as nat, num_ram_rows as nat),
{
    proof {
        layout.lemma_clear_by_region(snapshot.spec_width(), snapshot.spec_height(), 0);
        lemma_state_shown_fits_board(*snapshot, *layout, num_cpus as nat, num_ram_rows as nat);
    }
    let cpus = read_cpus(&sample(snapshot, &layout.cpus));
    let idle = read_idle(&sample(snapshot, &layout.idle));
    let ram = read_ram(&sample(snapshot, &layout.ram));
    let disk = read_disk(&sample(snapshot, &layout.disk));
    GameState { cpus, idle, ram, disk }
}

} // verus!
