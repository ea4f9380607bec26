use chip8::memory::Memory;
use chip8::periph::{Keypad, Timer, VPU};

#[test]
fn timer_counts_down_to_zero_and_stops() {
    let mut t = Timer::default();
    t.reload(3);
    assert!(t.is_active());
    for expected in [2u8, 1, 0, 0, 0] {
        t.tick();
        assert_eq!(t.value(), expected);
    }
    assert!(!t.is_active());
}

#[test]
fn timer_after_n_ticks_is_saturating_difference() {
    for (v, n) in [(10u8, 4u32), (4, 10), (255, 255), (0, 1)] {
        let mut t = Timer::default();
        t.reload(v);
        for _ in 0..n {
            t.tick();
        }
        assert_eq!(t.value() as u32, (v as u32).saturating_sub(n));
    }
}

#[test]
fn keypad_change_flag_is_edge_triggered() {
    let mut k = Keypad::default();
    assert!(!k.has_changed());
    k.set_state(5, true);
    assert!(k.get_state(5));
    assert!(k.has_changed());
    assert!(!k.has_changed());
    k.set_state(5, true);
    assert!(!k.has_changed());
    k.set_state(5, false);
    assert!(!k.get_state(5));
    assert!(k.has_changed());
}

#[test]
fn keypad_repeat_press_for_every_key() {
    for key in 0u8..16 {
        let mut k = Keypad::default();
        k.set_state(key, true);
        assert!(k.has_changed());
        k.set_state(key, true);
        assert!(!k.has_changed());
    }
}

#[test]
fn vpu_write_xors_and_reports_collision() {
    let mut v = VPU::new(64, 32);
    assert_eq!(v.size(), (64, 32));
    assert!(!v.write((3, 4), true));
    assert!(v.read((3, 4)));
    assert!(!v.write((3, 4), false));
    assert!(v.read((3, 4)));
    assert!(v.write((3, 4), true));
    assert!(!v.read((3, 4)));
}

#[test]
fn vpu_coordinates_wrap() {
    let mut v = VPU::new(64, 32);
    assert!(!v.write((64 + 2, 32 + 1), true));
    assert!(v.read((2, 1)));
    assert!(v.get_data()[64 + 2]);
    assert_eq!(v.get_data().iter().filter(|b| **b).count(), 1);
    v.clear();
    assert!(v.get_data().iter().all(|b| !*b));
    assert_eq!(v.get_data().len(), 64 * 32);
}

#[test]
fn memory_load_read_write() {
    let mut m = Memory::new(16);
    m.load(4, &[1, 2, 3]);
    assert_eq!(m.read(3), 0);
    assert_eq!(m.read(4), 1);
    assert_eq!(m.read(6), 3);
    assert_eq!(m.read(7), 0);
    m.write(15, 9);
    assert_eq!(m.read(15), 9);
}

#[test]
fn vpu_of_zero_size_is_empty() {
    for (w, h) in [(0usize, 0usize), (0, 32), (64, 0)] {
        let mut v = VPU::new(w, h);
        assert_eq!(v.size(), (w, h));
        assert!(v.get_data().is_empty());
        v.clear();
        assert!(v.get_data().is_empty());
    }
}
