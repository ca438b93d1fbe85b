use chip8::display::rgba_frame;
use chip8::keypad::{chip8_key, KEY_LAYOUT};
use chip8::schedule::{Event, Schedule};
use chip8::PIXELS;

#[test]
fn keypad_layout_maps_host_keys() {
    assert_eq!(chip8_key('x'), Some(0));
    assert_eq!(chip8_key('1'), Some(1));
    assert_eq!(chip8_key('q'), Some(4));
    assert_eq!(chip8_key('z'), Some(0xA));
    assert_eq!(chip8_key('4'), Some(0xC));
    assert_eq!(chip8_key('v'), Some(0xF));
    assert_eq!(chip8_key('y'), None);
    assert_eq!(chip8_key('5'), None);
}

#[test]
fn keypad_layout_is_one_to_one() {
    for (i, &label) in KEY_LAYOUT.iter().enumerate() {
        assert_eq!(chip8_key(label), Some(i));
    }
}

#[test]
fn rgba_frame_paints_lit_pixels_white() {
    let mut screen = vec![0u8; PIXELS];
    screen[0] = 1;
    screen[65] = 1;
    screen[2] = 2;
    let frame = rgba_frame(&screen);
    assert_eq!(frame.len(), 4 * PIXELS);
    assert_eq!(&frame[0..4], &[255, 255, 255, 255]);
    assert_eq!(&frame[4..8], &[0, 0, 0, 0]);
    assert_eq!(&frame[8..12], &[0, 0, 0, 0]);
    assert_eq!(&frame[260..264], &[255, 255, 255, 255]);
    assert_eq!(frame.iter().filter(|&&b| b == 255).count(), 8);
}

#[test]
fn schedule_starts_one_period_ahead() {
    let s = Schedule::new(1000, 10, 100, 50);
    assert_eq!(s.next_cpu, 1010);
    assert_eq!(s.next_timer, 1100);
    assert_eq!(s.next_frame, 1050);
}

#[test]
fn due_events_interleave_by_time_tick_first_on_tie() {
    let mut s = Schedule::new(0, 10, 25, 1000);
    // cpu at 10, 20, 30, 40, 50; timer at 25, 50
    let events = s.due_events(50);
    assert_eq!(
        events,
        vec![
            Event::Cpu,
            Event::Cpu,
            Event::Tick,
            Event::Cpu,
            Event::Cpu,
            Event::Tick,
            Event::Cpu,
        ]
    );
    assert_eq!(s.next_cpu, 60);
    assert_eq!(s.next_timer, 75);
    assert_eq!(s.due_events(50), vec![]);
}

#[test]
fn due_events_count_matches_rates() {
    let mut s = Schedule::new(0, 1_666_666, 16_666_666, 16_666_666);
    let events = s.due_events(1_000_000_000);
    let ticks = events.iter().filter(|&&e| e == Event::Tick).count();
    let steps = events.iter().filter(|&&e| e == Event::Cpu).count();
    assert_eq!(ticks, 60);
    assert_eq!(steps, 600);
    assert!(s.next_timer > 1_000_000_000 && s.next_cpu > 1_000_000_000);
}

#[test]
fn frame_due_skips_missed_frames() {
    let mut s = Schedule::new(0, 10, 10, 100);
    assert!(!s.frame_due(99));
    assert_eq!(s.next_frame, 100);
    assert!(s.frame_due(350));
    assert_eq!(s.next_frame, 400);
    assert!(s.frame_due(400));
    assert_eq!(s.next_frame, 500);
}

#[test]
fn next_wakeup_is_earliest_due_time() {
    let s = Schedule::new(0, 30, 20, 40);
    assert_eq!(s.next_wakeup(), 20);
    let s = Schedule::new(0, 5, 20, 40);
    assert_eq!(s.next_wakeup(), 5);
    let s = Schedule::new(0, 50, 60, 40);
    assert_eq!(s.next_wakeup(), 40);
}
