use scheduler_bot::color::{classify_page, classify_process, Color};
use scheduler_bot::process::{CpuProcess, IdleProcess, ProcessState};
use scheduler_bot::queue::sort_idle;

fn all_states() -> Vec<ProcessState> {
    vec![
        ProcessState::NeedRam,
        ProcessState::Dying,
        ProcessState::Crying,
        ProcessState::Angry,
        ProcessState::Annoyed,
        ProcessState::Satisfied,
        ProcessState::Happy,
        ProcessState::Finished,
        ProcessState::Waiting,
    ]
}

fn rgb(r: u8, g: u8, b: u8) -> Color {
    Color { r, g, b, a: 255 }
}

fn palette() -> Vec<(Color, ProcessState)> {
    vec![
        (rgb(0, 0, 255), ProcessState::NeedRam),
        (rgb(80, 0, 0), ProcessState::Dying),
        (rgb(139, 0, 0), ProcessState::Crying),
        (rgb(255, 0, 0), ProcessState::Angry),
        (rgb(255, 165, 0), ProcessState::Annoyed),
        (rgb(255, 255, 0), ProcessState::Satisfied),
        (rgb(0, 255, 0), ProcessState::Happy),
        (rgb(176, 216, 230), ProcessState::Finished),
        (rgb(155, 155, 154), ProcessState::Waiting),
    ]
}

#[test]
fn done_states_leave_the_cpu() {
    assert!(!ProcessState::Finished.should_be_on_cpu());
    assert!(!ProcessState::Happy.should_be_on_cpu());
    assert!(!ProcessState::Waiting.should_be_on_cpu());
}

#[test]
fn other_states_stay_on_the_cpu() {
    assert!(ProcessState::NeedRam.should_be_on_cpu());
    assert!(ProcessState::Dying.should_be_on_cpu());
    assert!(ProcessState::Crying.should_be_on_cpu());
    assert!(ProcessState::Angry.should_be_on_cpu());
    assert!(ProcessState::Annoyed.should_be_on_cpu());
    assert!(ProcessState::Satisfied.should_be_on_cpu());
    let staying = all_states().into_iter().filter(|s| s.should_be_on_cpu()).count();
    assert_eq!(staying, 6);
}

#[test]
fn urgency_follows_declaration_order() {
    let states = all_states();
    for (i, s) in states.iter().enumerate() {
        assert_eq!(s.urgency() as usize, i);
    }
    for a in &states {
        for b in &states {
            assert_eq!(a < b, a.urgency() < b.urgency());
        }
    }
}

#[test]
fn comes_before_agrees_with_derived_order() {
    let states = all_states();
    for a in &states {
        for b in &states {
            for pa in 0u32..3 {
                for pb in 0u32..3 {
                    let x = IdleProcess { state: *a, pos: pa };
                    let y = IdleProcess { state: *b, pos: pb };
                    assert_eq!(x.comes_before(&y), x <= y);
                }
            }
        }
    }
}

#[test]
fn comes_before_is_total_and_antisymmetric() {
    let states = all_states();
    for a in &states {
        for b in &states {
            for pa in 0u32..2 {
                for pb in 0u32..2 {
                    let x = IdleProcess { state: *a, pos: pa };
                    let y = IdleProcess { state: *b, pos: pb };
                    assert!(x.comes_before(&y) || y.comes_before(&x));
                    if x.comes_before(&y) && y.comes_before(&x) {
                        assert_eq!(x, y);
                    }
                }
            }
        }
    }
}

#[test]
fn sort_puts_most_urgent_first() {
    let mut queue = vec![
        IdleProcess { state: ProcessState::Happy, pos: 2 },
        IdleProcess { state: ProcessState::NeedRam, pos: 0 },
        IdleProcess { state: ProcessState::Angry, pos: 1 },
    ];
    sort_idle(&mut queue);
    assert_eq!(
        queue,
        vec![
            IdleProcess { state: ProcessState::NeedRam, pos: 0 },
            IdleProcess { state: ProcessState::Angry, pos: 1 },
            IdleProcess { state: ProcessState::Happy, pos: 2 },
        ]
    );
}

#[test]
fn sort_breaks_ties_by_position() {
    let mut queue = vec![
        IdleProcess { state: ProcessState::Angry, pos: 9 },
        IdleProcess { state: ProcessState::Waiting, pos: 0 },
        IdleProcess { state: ProcessState::Angry, pos: 3 },
        IdleProcess { state: ProcessState::Dying, pos: 40 },
        IdleProcess { state: ProcessState::Angry, pos: 5 },
    ];
    sort_idle(&mut queue);
    assert_eq!(
        queue,
        vec![
            IdleProcess { state: ProcessState::Dying, pos: 40 },
            IdleProcess { state: ProcessState::Angry, pos: 3 },
            IdleProcess { state: ProcessState::Angry, pos: 5 },
            IdleProcess { state: ProcessState::Angry, pos: 9 },
            IdleProcess { state: ProcessState::Waiting, pos: 0 },
        ]
    );
}

#[test]
fn sort_matches_std_sort() {
    let states = all_states();
    let mut queue = Vec::new();
    let mut seed: u32 = 12345;
    for _ in 0..60 {
        seed = seed.wrapping_mul(1103515245).wrapping_add(12345);
        let state = states[((seed >> 16) % 9) as usize];
        seed = seed.wrapping_mul(1103515245).wrapping_add(12345);
        queue.push(IdleProcess { state, pos: (seed >> 16) % 42 });
    }
    let mut expected = queue.clone();
    expected.sort();
    sort_idle(&mut queue);
    assert_eq!(queue, expected);
}

#[test]
fn sort_keeps_empty_and_single() {
    let mut empty: Vec<IdleProcess> = Vec::new();
    sort_idle(&mut empty);
    assert!(empty.is_empty());
    let mut one = vec![IdleProcess { state: ProcessState::Crying, pos: 7 }];
    sort_idle(&mut one);
    assert_eq!(one, vec![IdleProcess { state: ProcessState::Crying, pos: 7 }]);
}

#[test]
fn cpu_processes_compare_by_state_and_position() {
    let a = CpuProcess { state: ProcessState::Angry, pos: 1 };
    assert_eq!(a, CpuProcess { state: ProcessState::Angry, pos: 1 });
    assert_ne!(a, CpuProcess { state: ProcessState::Angry, pos: 2 });
    assert_ne!(a, CpuProcess { state: ProcessState::Happy, pos: 1 });
}

#[test]
fn every_palette_color_shows_its_state() {
    for (color, state) in palette() {
        assert_eq!(classify_process(color), Some(state));
    }
}

#[test]
fn palette_colors_are_distinct() {
    let p = palette();
    for i in 0..p.len() {
        for j in 0..p.len() {
            assert_eq!(p[i].0 == p[j].0, i == j);
        }
    }
}

#[test]
fn other_colors_show_no_process() {
    assert_eq!(classify_process(rgb(0, 0, 0)), None);
    assert_eq!(classify_process(rgb(255, 255, 255)), None);
    assert_eq!(classify_process(rgb(99, 102, 106)), None);
    assert_eq!(classify_process(rgb(155, 155, 155)), None);
    assert_eq!(classify_process(rgb(254, 0, 0)), None);
    assert_eq!(classify_process(rgb(0, 255, 1)), None);
}

#[test]
fn transparent_palette_color_shows_nothing() {
    for (color, _) in palette() {
        let faded = Color { a: 254, ..color };
        assert_eq!(classify_process(faded), None);
        let clear = Color { a: 0, ..color };
        assert_eq!(classify_process(clear), None);
    }
    assert_eq!(classify_page(Color { r: 255, g: 255, b: 255, a: 0 }), None);
    assert_eq!(classify_page(Color { r: 99, g: 102, b: 106, a: 128 }), None);
}

#[test]
fn page_colors_show_needed_or_not() {
    assert_eq!(classify_page(rgb(99, 102, 106)), Some(false));
    assert_eq!(classify_page(rgb(255, 255, 255)), Some(true));
    assert_eq!(classify_page(rgb(0, 0, 255)), Some(true));
}

#[test]
fn other_colors_show_no_page() {
    assert_eq!(classify_page(rgb(0, 0, 0)), None);
    assert_eq!(classify_page(rgb(255, 0, 0)), None);
    assert_eq!(classify_page(rgb(99, 102, 107)), None);
    assert_eq!(classify_page(rgb(0, 0, 254)), None);
    assert_eq!(classify_page(rgb(255, 255, 254)), None);
}

#[test]
fn classification_scans_a_color_cube_slice() {
    let known = palette();
    let mut matches = 0;
    for r in [0u8, 80, 139, 155, 176, 255] {
        for g in [0u8, 155, 165, 216, 255] {
            for b in [0u8, 154, 230, 255] {
                let c = rgb(r, g, b);
                let expected = known.iter().find(|(k, _)| *k == c).map(|(_, s)| *s);
                assert_eq!(classify_process(c), expected);
                if expected.is_some() {
                    matches += 1;
                }
            }
        }
    }
    assert_eq!(matches, 9);
}
