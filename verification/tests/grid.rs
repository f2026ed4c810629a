use scheduler_bot::layout::{
    are_clear_of_border, avalible_pages_in_ram, cpu_cell, disk_cell, disk_shift, grid_cell,
    idle_cell, ram_cell, Cell, Layout, Point, DISK_CAPACITY, DISK_ROWS, DISK_ROW_WIDTH,
    IDLE_CAPACITY, IDLE_ROWS, IDLE_ROW_WIDTH, MAX_RAM_ROWS, RAM_ROW_WIDTH,
};

fn table(num_cpus: u32, num_ram_rows: u32) -> Layout {
    let at = |k: u32| Point { x: 10 + k % 50, y: 10 + k / 50 };
    let mut next = 0u32;
    let mut take = |n: u32| {
        let v: Vec<Point> = (next..next + n).map(at).collect();
        next += n;
        v
    };
    Layout {
        cpus: take(num_cpus),
        idle: take(42),
        ram: take(16 * num_ram_rows),
        disk: take(160),
        io: Point { x: 5, y: 5 },
    }
}

#[test]
fn region_sizes() {
    assert_eq!(IDLE_ROW_WIDTH, 7);
    assert_eq!(IDLE_ROWS, 6);
    assert_eq!(IDLE_CAPACITY, IDLE_ROW_WIDTH * IDLE_ROWS);
    assert_eq!(RAM_ROW_WIDTH, 16);
    assert_eq!(DISK_ROW_WIDTH, 16);
    assert_eq!(DISK_ROWS, 10);
    assert_eq!(DISK_CAPACITY, DISK_ROW_WIDTH * DISK_ROWS);
}

#[test]
fn idle_cells_wrap_after_seven() {
    assert_eq!(idle_cell(0), Cell { column: 0, row: 0 });
    assert_eq!(idle_cell(6), Cell { column: 6, row: 0 });
    assert_eq!(idle_cell(7), Cell { column: 0, row: 1 });
    assert_eq!(idle_cell(23), Cell { column: 2, row: 3 });
    assert_eq!(idle_cell(41), Cell { column: 6, row: 5 });
}

#[test]
fn ram_and_disk_cells_wrap_after_sixteen() {
    assert_eq!(ram_cell(0), Cell { column: 0, row: 0 });
    assert_eq!(ram_cell(15), Cell { column: 15, row: 0 });
    assert_eq!(ram_cell(16), Cell { column: 0, row: 1 });
    assert_eq!(ram_cell(37), Cell { column: 5, row: 2 });
    assert_eq!(disk_cell(159), Cell { column: 15, row: 9 });
    assert_eq!(disk_cell(100), Cell { column: 4, row: 6 });
}

#[test]
fn cpus_stand_in_one_row() {
    assert_eq!(cpu_cell(0), Cell { column: 0, row: 0 });
    assert_eq!(cpu_cell(5), Cell { column: 5, row: 0 });
    assert_eq!(cpu_cell(400), Cell { column: 400, row: 0 });
}

#[test]
fn cell_leads_back_to_index() {
    for width in [1u32, 2, 7, 16, 100] {
        for i in (0u32..500).chain([u32::MAX - 1, u32::MAX]) {
            let c = grid_cell(i, width);
            assert_eq!(c.column, i % width);
            assert_eq!(c.row, i / width);
            assert!(c.column < width);
            assert_eq!(c.row as u64 * width as u64 + c.column as u64, i as u64);
        }
    }
}

#[test]
fn cells_are_the_same_on_every_call() {
    for i in 0u32..200 {
        assert_eq!(idle_cell(i), idle_cell(i));
        assert_eq!(ram_cell(i), ram_cell(i));
        assert_eq!(disk_cell(i), disk_cell(i));
        assert_eq!(cpu_cell(i), cpu_cell(i));
    }
}

#[test]
fn distinct_slots_have_distinct_cells() {
    for i in 0u32..42 {
        for j in 0u32..42 {
            assert_eq!(idle_cell(i) == idle_cell(j), i == j);
        }
    }
}

#[test]
fn disk_moves_down_with_each_further_ram_row() {
    assert_eq!(disk_shift(1), 0);
    assert_eq!(disk_shift(2), 1);
    assert_eq!(disk_shift(9), 8);
}

#[test]
fn ram_holds_sixteen_pages_per_row() {
    assert_eq!(avalible_pages_in_ram(0), 0);
    assert_eq!(avalible_pages_in_ram(1), 16);
    assert_eq!(avalible_pages_in_ram(3), 48);
    assert_eq!(avalible_pages_in_ram(MAX_RAM_ROWS), 4294967280);
}

#[test]
fn point_keeps_its_margin() {
    let p = Point { x: 5, y: 7 };
    assert!(p.is_clear_of_border(6, 8, 0));
    assert!(!p.is_clear_of_border(5, 8, 0));
    assert!(!p.is_clear_of_border(6, 7, 0));
    assert!(p.is_clear_of_border(11, 13, 5));
    assert!(!p.is_clear_of_border(10, 13, 5));
    assert!(!p.is_clear_of_border(11, 12, 5));
    assert!(!p.is_clear_of_border(100, 100, 6));
    assert!(!Point { x: u32::MAX, y: 0 }.is_clear_of_border(u32::MAX, 10, 0));
    assert!(!Point { x: 0, y: 0 }.is_clear_of_border(0, 0, 0));
}

#[test]
fn lists_of_points_keep_their_margin() {
    let points = vec![Point { x: 5, y: 5 }, Point { x: 20, y: 9 }];
    assert!(are_clear_of_border(&points, 21, 10, 0));
    assert!(!are_clear_of_border(&points, 20, 10, 0));
    assert!(are_clear_of_border(&points, 26, 15, 5));
    assert!(!are_clear_of_border(&points, 26, 15, 6));
    assert!(are_clear_of_border(&Vec::new(), 0, 0, 9));
}

#[test]
fn layout_shape_must_match_the_board() {
    let layout = table(3, 2);
    assert!(layout.has_shape(3, 2));
    assert!(!layout.has_shape(4, 2));
    assert!(!layout.has_shape(3, 1));
    assert!(!layout.has_shape(3, 3));
    let mut short = table(3, 2);
    short.idle.pop();
    assert!(!short.has_shape(3, 2));
    let mut ragged = table(3, 2);
    ragged.ram.pop();
    assert!(!ragged.has_shape(3, 2));
    assert!(!ragged.has_shape(3, 1));
    let mut long = table(3, 2);
    long.disk.push(Point { x: 0, y: 0 });
    assert!(!long.has_shape(3, 2));
    assert!(table(0, 0).has_shape(0, 0));
}

#[test]
fn layout_points_come_region_by_region() {
    let layout = table(2, 1);
    let all = layout.all_points();
    assert_eq!(all.len(), 2 + 42 + 16 + 160 + 1);
    assert_eq!(all[0], layout.cpus[0]);
    assert_eq!(all[1], layout.cpus[1]);
    assert_eq!(all[2], layout.idle[0]);
    assert_eq!(all[43], layout.idle[41]);
    assert_eq!(all[44], layout.ram[0]);
    assert_eq!(all[59], layout.ram[15]);
    assert_eq!(all[60], layout.disk[0]);
    assert_eq!(all[219], layout.disk[159]);
    assert_eq!(all[220], layout.io);
}

#[test]
fn layout_margin_looks_at_every_region() {
    let layout = table(2, 1);
    assert!(layout.is_clear_of_border(60, 15, 0));
    assert!(layout.is_clear_of_border(65, 20, 5));
    assert!(!layout.is_clear_of_border(65, 20, 6));
    assert!(!layout.is_clear_of_border(59, 15, 0));
    let mut off = table(2, 1);
    off.disk[7] = Point { x: 500, y: 1 };
    assert!(!off.is_clear_of_border(60, 15, 0));
    let mut off = table(2, 1);
    off.io = Point { x: 1, y: 500 };
    assert!(!off.is_clear_of_border(60, 15, 0));
    let mut off = table(2, 1);
    off.cpus[1] = Point { x: 60, y: 1 };
    assert!(!off.is_clear_of_border(60, 15, 0));
}
