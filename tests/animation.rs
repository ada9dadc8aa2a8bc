use engine::animation::{Animation, AnimationCursor, Keyframe};
use engine::sprite_map::SpriteMapAnimation;

fn abc() -> Animation<char> {
    Animation::new(vec![
        Keyframe::new(100, 'a'),
        Keyframe::new(50, 'b'),
        Keyframe::new(200, 'c'),
    ])
}

#[test]
fn cumulative_durations_are_prefix_sums() {
    let a = abc();
    assert_eq!(a.len(), 3);
    assert_eq!(a.keyframe(0).cumulative_duration_ms, 100);
    assert_eq!(a.keyframe(1).cumulative_duration_ms, 150);
    assert_eq!(a.keyframe(2).cumulative_duration_ms, 350);
    assert_eq!(a.keyframe(2).duration_ms, 200);
}

#[test]
fn cursor_walks_keyframes_by_time() {
    let a = abc();
    let mut c = AnimationCursor::new();
    assert!(!c.playing);
    assert_eq!(c.update(10, &a), None);
    assert_eq!(*c.start(1000, &a), 'a');
    assert_eq!(c.update(1000, &a), Some(&'a'));
    assert_eq!(c.update(1099, &a), Some(&'a'));
    assert_eq!(c.update(1100, &a), Some(&'a'));
    assert_eq!(c.update(1101, &a), Some(&'b'));
    assert_eq!(c.update(1200, &a), Some(&'c'));
    assert_eq!(c.current_frame, 2);
    assert_eq!(c.update(1350, &a), Some(&'c'));
    assert_eq!(c.update(1351, &a), None);
    assert!(!c.playing);
    assert_eq!(c.update(5000, &a), None);
}

#[test]
fn cursor_never_moves_back() {
    let a = abc();
    let mut c = AnimationCursor::new();
    c.start(0, &a);
    assert_eq!(c.update(160, &a), Some(&'c'));
    assert_eq!(c.update(20, &a), Some(&'c'));
    assert_eq!(c.current_frame, 2);
}

#[test]
fn cursor_skips_several_keyframes_at_once() {
    let a = abc();
    let mut c = AnimationCursor::new();
    c.start(0, &a);
    assert_eq!(c.update(151, &a), Some(&'c'));
}

#[test]
fn looping_restarts_after_the_end() {
    let anim = SpriteMapAnimation {
        keyframes: Animation::new(vec![Keyframe::new(50, vec![1u16]), Keyframe::new(50, vec![2u16, 3])]),
    };
    let mut c = AnimationCursor::new();
    assert_eq!(anim.update_cursor(&mut c, 0), None);
    assert_eq!(anim.update_cursor_loop(&mut c, 0), &[1u16][..]);
    assert_eq!(anim.update_cursor_loop(&mut c, 25), &[1u16][..]);
    assert_eq!(anim.update_cursor_loop(&mut c, 75), &[2u16, 3][..]);
    assert_eq!(anim.update_cursor_loop(&mut c, 100), &[2u16, 3][..]);
    assert_eq!(anim.update_cursor_loop(&mut c, 101), &[1u16][..]);
    assert_eq!(c.start_ms, 101);
    assert_eq!(anim.update_cursor_loop(&mut c, 126), &[1u16][..]);
    assert_eq!(anim.update_cursor_loop(&mut c, 176), &[2u16, 3][..]);
}

#[test]
fn looping_cycles_repeat_shifted_by_restart_time() {
    let anim = SpriteMapAnimation {
        keyframes: Animation::new(vec![Keyframe::new(30, vec![7u16]), Keyframe::new(30, vec![8u16])]),
    };
    let mut c = AnimationCursor::new();
    let offsets = [0u64, 10, 29, 31, 45, 60];
    let mut first = Vec::new();
    for o in offsets {
        first.push(anim.update_cursor_loop(&mut c, o).to_vec());
    }
    // the cycle ended at 60; the next call restarts it
    assert_eq!(anim.update_cursor_loop(&mut c, 61), &[7u16][..]);
    let restart = c.start_ms;
    let mut second = Vec::new();
    for o in offsets {
        second.push(anim.update_cursor_loop(&mut c, restart + o).to_vec());
    }
    assert_eq!(first, second);
}
