use formation_timeline::lookup::Lookup;
use formation_timeline::model::{Dancer, Formation, Timeline, TimelineError};
use formation_timeline::timeline::UpdateOutcome;

#[derive(Clone, Copy, Debug, PartialEq)]
struct Pos {
    x: f64,
    y: f64,
}

fn pos(x: f64, y: f64) -> Pos {
    Pos { x, y }
}

fn dancer(id: i32, name: &str, p: Pos) -> Dancer<Pos> {
    Dancer { id, name: name.to_string(), position: p }
}

fn keyframe(id: i32, start: i32, end: i32, entities: Vec<Dancer<Pos>>) -> Formation<Pos> {
    Formation { id, audio_track: format!("track{}", id), start_time: start, end_time: end, entities }
}

fn timeline(formations: Vec<Formation<Pos>>) -> Timeline<Pos> {
    Timeline { next_id_counter: 0, formations }
}

fn lerp(a: Pos, b: Pos, elapsed: i64, gap: i64) -> Pos {
    let progress = elapsed as f64 / gap as f64;
    Pos { x: a.x + (b.x - a.x) * progress, y: a.y + (b.y - a.y) * progress }
}

fn ranges(t: &Timeline<Pos>) -> Vec<(i32, i32)> {
    t.formations.iter().map(|f| (f.start_time, f.end_time)).collect()
}

fn ordered(t: &Timeline<Pos>) -> bool {
    let r = ranges(t);
    r.iter().all(|(s, e)| s < e) && r.windows(2).all(|w| w[0].1 <= w[1].0)
}

fn two_keyframes() -> Timeline<Pos> {
    timeline(vec![
        keyframe(3, 0, 100, vec![dancer(1, "a", pos(0.0, 0.0)), dancer(2, "b", pos(4.0, 8.0))]),
        keyframe(9, 200, 300, vec![dancer(1, "a", pos(10.0, 10.0)), dancer(5, "e", pos(1.0, 1.0))]),
    ])
}

#[test]
fn seeded_timeline_has_bootstrap_keyframe() {
    let t: Timeline<Pos> = Timeline::seeded();
    assert_eq!(t.next_id_counter, 0);
    assert_eq!(t.formations.len(), 1);
    let f = &t.formations[0];
    assert_eq!((f.id, f.start_time, f.end_time), (0, 0, 500));
    assert_eq!(f.audio_track, "");
    assert!(f.entities.is_empty());
}

#[test]
fn lookup_exact_match_returns_enclosing_keyframe() {
    let t = two_keyframes();
    match t.get_current_formation_by_timestamp(0) {
        Lookup::Exact(f) => {
            assert_eq!(f.id, 3);
            assert_eq!(f.entities.len(), 2);
        }
        other => panic!("expected an exact match, got {:?}", other),
    }
    match t.get_current_formation_by_timestamp(299) {
        Lookup::Exact(f) => assert_eq!(f.id, 9),
        other => panic!("expected an exact match, got {:?}", other),
    }
}

#[test]
fn lookup_first_of_overlapping_keyframes_wins() {
    let t = timeline(vec![keyframe(1, 0, 100, vec![]), keyframe(2, 50, 150, vec![])]);
    match t.get_current_formation_by_timestamp(60) {
        Lookup::Exact(f) => assert_eq!(f.id, 1),
        other => panic!("expected an exact match, got {:?}", other),
    }
}

#[test]
fn lookup_interpolates_halfway() {
    let t = two_keyframes();
    match t.get_current_formation_by_timestamp(150) {
        Lookup::Between(b) => {
            assert_eq!(b.elapsed, 50);
            assert_eq!(b.gap, 100);
            assert_eq!((b.base.id, b.base.start_time, b.base.end_time), (3, 0, 300));
            assert_eq!(b.base.audio_track, "track3");
            let f = b.resolve(lerp);
            assert_eq!(f.entities.len(), 2);
            assert_eq!(f.entities[0].id, 1);
            assert_eq!(f.entities[0].name, "a");
            assert_eq!(f.entities[0].position, pos(5.0, 5.0));
            // no partner in the successor: unchanged
            assert_eq!(f.entities[1].id, 2);
            assert_eq!(f.entities[1].position, pos(4.0, 8.0));
        }
        other => panic!("expected a blend, got {:?}", other),
    }
}

#[test]
fn lookup_leaves_out_successor_only_entities() {
    let t = two_keyframes();
    match t.get_current_formation_by_timestamp(120) {
        Lookup::Between(b) => {
            assert_eq!(b.targets, vec![Some(pos(10.0, 10.0)), None]);
            let f = b.resolve(lerp);
            assert!(f.entities.iter().all(|e| e.id != 5));
            assert_eq!(f.entities[0].position, pos(2.0, 2.0));
        }
        other => panic!("expected a blend, got {:?}", other),
    }
}

#[test]
fn lookup_outside_the_timeline_is_absent() {
    let t = timeline(vec![keyframe(1, 100, 200, vec![]), keyframe(2, 300, 400, vec![])]);
    assert!(matches!(t.get_current_formation_by_timestamp(50), Lookup::Absent));
    assert!(matches!(t.get_current_formation_by_timestamp(400), Lookup::Absent));
    assert!(matches!(t.get_current_formation_by_timestamp(i32::MAX), Lookup::Absent));
    let empty = timeline(vec![]);
    assert!(matches!(empty.get_current_formation_by_timestamp(0), Lookup::Absent));
}

#[test]
fn lookup_adjacent_keyframes_need_no_blend() {
    let t = timeline(vec![keyframe(1, 0, 100, vec![]), keyframe(2, 100, 200, vec![])]);
    match t.get_current_formation_by_timestamp(100) {
        Lookup::Exact(f) => assert_eq!(f.id, 2),
        other => panic!("expected an exact match, got {:?}", other),
    }
    match t.get_current_formation_by_timestamp(99) {
        Lookup::Exact(f) => assert_eq!(f.id, 1),
        other => panic!("expected an exact match, got {:?}", other),
    }
}

#[test]
fn lookup_narrowest_gap_has_finite_progress() {
    let t = timeline(vec![
        keyframe(1, 0, 100, vec![dancer(0, "0", pos(0.0, 0.0))]),
        keyframe(2, 102, 200, vec![dancer(0, "0", pos(2.0, 4.0))]),
    ]);
    match t.get_current_formation_by_timestamp(101) {
        Lookup::Between(b) => {
            assert_eq!((b.elapsed, b.gap), (1, 2));
            let f = b.resolve(lerp);
            assert!(f.entities[0].position.x.is_finite());
            assert_eq!(f.entities[0].position, pos(1.0, 2.0));
        }
        other => panic!("expected a blend, got {:?}", other),
    }
}

#[test]
fn lookup_gap_wider_than_i32_is_exact() {
    let t = timeline(vec![keyframe(1, i32::MIN, i32::MIN + 1, vec![]), keyframe(2, i32::MAX - 1, i32::MAX, vec![])]);
    match t.get_current_formation_by_timestamp(0) {
        Lookup::Between(b) => {
            assert_eq!(b.elapsed, 0 - (i32::MIN as i64 + 1));
            assert_eq!(b.gap, (i32::MAX as i64 - 1) - (i32::MIN as i64 + 1));
        }
        other => panic!("expected a blend, got {:?}", other),
    }
}

#[test]
fn lookup_is_repeatable() {
    let t = two_keyframes();
    for ts in [-5, 0, 50, 100, 150, 250, 300, 1000] {
        let a = format!("{:?}", t.get_current_formation_by_timestamp(ts));
        let b = format!("{:?}", t.get_current_formation_by_timestamp(ts));
        assert_eq!(a, b);
    }
}

#[test]
fn add_new_dancer_on_empty_roster() {
    let mut t: Timeline<Pos> = Timeline::seeded();
    assert!(t.add_new_dancer(0, pos(0.0, 0.0)).is_ok());
    let e = &t.formations[0].entities;
    assert_eq!(e.len(), 1);
    assert_eq!(e[0].id, 0);
    assert_eq!(e[0].name, "0");
    assert_eq!(e[0].position, pos(0.0, 0.0));
}

#[test]
fn add_new_dancer_follows_last_id() {
    let mut t = timeline(vec![keyframe(4, 0, 100, vec![dancer(7, "x", pos(1.0, 1.0))])]);
    t.add_new_dancer(4, pos(0.0, 0.0)).unwrap();
    t.add_new_dancer(4, pos(0.0, 0.0)).unwrap();
    let e = &t.formations[0].entities;
    assert_eq!(e.len(), 3);
    assert_eq!((e[1].id, e[1].name.as_str()), (8, "8"));
    assert_eq!((e[2].id, e[2].name.as_str()), (9, "9"));
}

#[test]
fn add_new_dancer_names_negative_and_large_ids() {
    let mut t = timeline(vec![
        keyframe(1, 0, 100, vec![dancer(-12, "n", pos(1.0, 1.0))]),
        keyframe(2, 100, 200, vec![dancer(1233, "m", pos(1.0, 1.0))]),
    ]);
    t.add_new_dancer(1, pos(0.0, 0.0)).unwrap();
    t.add_new_dancer(2, pos(0.0, 0.0)).unwrap();
    assert_eq!(t.formations[0].entities[1].name, "-11");
    assert_eq!(t.formations[1].entities[1].name, "1234");
}

#[test]
fn add_new_dancer_unknown_formation() {
    let mut t: Timeline<Pos> = Timeline::seeded();
    let r = t.add_new_dancer(42, pos(0.0, 0.0));
    assert!(matches!(r, Err(TimelineError::NotFound(42))));
    assert!(t.formations[0].entities.is_empty());
}

#[test]
fn update_formation_inserts_keyframe_of_default_width() {
    let mut t: Timeline<Pos> = Timeline::seeded();
    let payload = keyframe(77, 5, 6, vec![dancer(1, "a", pos(3.0, 3.0))]);
    let r = t.update_formation(1000, payload);
    assert_eq!(r, UpdateOutcome::Inserted(1));
    assert_eq!(t.next_id_counter, 1);
    let f = &t.formations[1];
    assert_eq!((f.id, f.start_time, f.end_time), (1, 1000, 1500));
    assert_eq!(f.end_time - f.start_time, 500);
    assert_eq!(f.audio_track, "track77");
    assert_eq!(f.entities.len(), 1);
    assert_eq!(f.entities[0].position, pos(3.0, 3.0));
    assert!(ordered(&t));
}

#[test]
fn update_formation_inserts_before_everything() {
    let mut t = timeline(vec![keyframe(1, 1000, 1500, vec![])]);
    let r = t.update_formation(100, keyframe(5, 0, 0, vec![]));
    assert_eq!(r, UpdateOutcome::Inserted(0));
    assert_eq!(ranges(&t), vec![(100, 600), (1000, 1500)]);
    assert_eq!(t.formations[0].id, 1);
    assert!(ordered(&t));
}

#[test]
fn update_formation_inserts_after_predecessor() {
    let mut t = timeline(vec![keyframe(1, 0, 100, vec![]), keyframe(2, 2000, 2100, vec![])]);
    t.next_id_counter = 10;
    let r = t.update_formation(500, keyframe(5, 0, 0, vec![]));
    assert_eq!(r, UpdateOutcome::Inserted(1));
    assert_eq!(ranges(&t), vec![(0, 100), (500, 1000), (2000, 2100)]);
    assert_eq!(t.formations[1].id, 11);
    assert_eq!(t.next_id_counter, 11);
    assert!(ordered(&t));
}

#[test]
fn update_formation_overwrites_enclosing_keyframe() {
    let mut t = two_keyframes();
    let r = t.update_formation(250, keyframe(40, 150, 320, vec![]));
    assert_eq!(r, UpdateOutcome::Replaced(1));
    assert_eq!(t.next_id_counter, 0);
    let f = &t.formations[1];
    assert_eq!((f.id, f.start_time, f.end_time), (40, 150, 320));
    assert_eq!(f.audio_track, "track40");
    assert!(f.entities.is_empty());
    assert_eq!(t.formations[0].id, 3);
}

#[test]
fn add_formation_appends_after_last() {
    let mut t = two_keyframes();
    t.add_formation();
    assert_eq!(t.formations.len(), 3);
    let f = &t.formations[2];
    assert_eq!((f.id, f.start_time, f.end_time), (10, 300, 800));
    assert_eq!(f.audio_track, "track9");
    assert_eq!(f.entities.len(), 2);
    assert_eq!(f.entities[1].id, 5);
    assert_eq!(t.next_id_counter, 0);
    assert!(ordered(&t));
}

#[test]
fn add_formation_on_empty_timeline_bootstraps() {
    let mut t = timeline(vec![]);
    t.add_formation();
    assert_eq!(t.formations.len(), 1);
    let f = &t.formations[0];
    assert_eq!((f.id, f.start_time, f.end_time), (0, 0, 500));
    assert_eq!(f.audio_track, "");
    assert!(f.entities.is_empty());
}

#[test]
fn add_dancer_appends_as_given() {
    let mut t = two_keyframes();
    t.add_dancer(9, dancer(1, "dup", pos(7.0, 7.0))).unwrap();
    let e = &t.formations[1].entities;
    assert_eq!(e.len(), 3);
    assert_eq!((e[2].id, e[2].name.as_str()), (1, "dup"));
    assert_eq!(e[2].position, pos(7.0, 7.0));
    assert_eq!(t.formations[0].entities.len(), 2);
}

#[test]
fn add_dancer_unknown_formation_leaves_timeline_unchanged() {
    let mut t = two_keyframes();
    let before = format!("{:?}", t);
    let r = t.add_dancer(1234, dancer(1, "a", pos(0.0, 0.0)));
    assert!(matches!(r, Err(TimelineError::NotFound(1234))));
    assert_eq!(format!("{:?}", t), before);
}

#[test]
fn get_count_id_counts_up() {
    let mut t: Timeline<Pos> = Timeline::seeded();
    assert_eq!(t.get_count_id(), 1);
    assert_eq!(t.get_count_id(), 2);
    assert_eq!(t.next_id_counter, 2);
    assert_eq!(t.formations.len(), 1);
}

#[test]
fn mutations_keep_keyframes_in_order() {
    let mut t: Timeline<Pos> = Timeline::seeded();
    t.add_formation();
    t.update_formation(2000, keyframe(0, 0, 0, vec![]));
    t.add_new_dancer(1, pos(0.0, 0.0)).unwrap();
    t.update_formation(1200, keyframe(0, 0, 0, vec![]));
    t.add_formation();
    assert!(ordered(&t));
    assert_eq!(ranges(&t), vec![(0, 500), (500, 1000), (1200, 1700), (2000, 2500), (2500, 3000)]);
}
