use engine::aseprite::{cel_name_is_valid, split_cel_name, AsepriteAnim, AsepriteAnimDirection, AsepriteCel};
use engine::export::{attach_cel_tags, find_tilesets, lookup_tag, split_bytes, AsepriteLayerTag, AsepriteLayerTagCel};
use engine::sprite_map::{Rect, SpriteMapAnimation};

fn cel(name: &str, duration: u16, tags: &[&str]) -> AsepriteCel {
    let r = Rect { x: 0, y: 0, w: 1, h: 1 };
    AsepriteCel {
        name: name.to_string(),
        duration,
        sprite_tex_rect: r,
        source_rect: r,
        tags: tags.iter().map(|t| t.as_bytes().to_vec()).collect(),
    }
}

fn frames(a: &SpriteMapAnimation) -> Vec<(u16, Vec<u16>)> {
    (0..a.keyframes.len())
        .map(|i| (a.keyframes.keyframe(i).duration_ms, a.keyframes.keyframe(i).value.clone()))
        .collect()
}

#[test]
fn cel_names_split_in_three() {
    let (anim, frame, layer) = split_cel_name(b"walk#12#body#left");
    assert_eq!(anim, b"walk");
    assert_eq!(frame, 12);
    assert_eq!(layer, b"body#left");
    let (anim, frame, layer) = split_cel_name(b"#+007#");
    assert_eq!(anim, b"");
    assert_eq!(frame, 7);
    assert_eq!(layer, b"");
}

fn sheet() -> Vec<AsepriteCel> {
    vec![
        cel("walk#1#body", 10, &[]),
        cel("walk#0#body", 20, &[]),
        cel("idle#0#body", 99, &[]),
        cel("walk#0#face", 25, &[]),
        cel("walk#2#body", 30, &["no-export"]),
        cel("walk#2#face", 35, &["shiny"]),
        cel("walk#3#body", 40, &[]),
    ]
}

#[test]
fn cels_group_by_frame_in_order() {
    let anim = AsepriteAnim { name: "walk".to_string(), direction: AsepriteAnimDirection::Forward };
    let a = SpriteMapAnimation::from_aseprite(&anim, &sheet()).unwrap();
    assert_eq!(frames(&a), vec![(25, vec![1, 3]), (10, vec![0]), (35, vec![5]), (40, vec![6])]);
    assert_eq!(a.keyframes.keyframe(3).cumulative_duration_ms, 110);
}

#[test]
fn backward_reverses_frames() {
    let anim = AsepriteAnim { name: "walk".to_string(), direction: AsepriteAnimDirection::Backward };
    let a = SpriteMapAnimation::from_aseprite(&anim, &sheet()).unwrap();
    assert_eq!(frames(&a), vec![(40, vec![6]), (35, vec![5]), (10, vec![0]), (25, vec![1, 3])]);
}

#[test]
fn ping_pong_returns_through_the_inner_frames() {
    let anim = AsepriteAnim { name: "walk".to_string(), direction: AsepriteAnimDirection::PingPong };
    let a = SpriteMapAnimation::from_aseprite(&anim, &sheet()).unwrap();
    assert_eq!(
        frames(&a),
        vec![(25, vec![1, 3]), (10, vec![0]), (35, vec![5]), (40, vec![6]), (35, vec![5]), (10, vec![0])]
    );
    let idle = AsepriteAnim { name: "idle".to_string(), direction: AsepriteAnimDirection::PingPong };
    assert_eq!(frames(&SpriteMapAnimation::from_aseprite(&idle, &sheet()).unwrap()), vec![(99, vec![2])]);
}

#[test]
fn animation_without_cels_is_none() {
    let anim = AsepriteAnim { name: "run".to_string(), direction: AsepriteAnimDirection::Forward };
    assert!(SpriteMapAnimation::from_aseprite(&anim, &sheet()).is_none());
}

#[test]
fn animation_too_long_is_none() {
    let cels = vec![cel("a#0#l", 40000, &[]), cel("a#1#l", 30000, &[])];
    let anim = AsepriteAnim { name: "a".to_string(), direction: AsepriteAnimDirection::Forward };
    assert!(SpriteMapAnimation::from_aseprite(&anim, &cels).is_none());
    let short = vec![cel("a#0#l", 40000, &[]), cel("a#1#l", 25535, &[])];
    assert!(SpriteMapAnimation::from_aseprite(&anim, &short).is_some());
}

#[test]
fn cel_name_validation() {
    assert!(cel_name_is_valid(b"walk#3#body"));
    assert!(cel_name_is_valid(b"walk#255#body"));
    assert!(cel_name_is_valid(b"walk#+1#"));
    assert!(!cel_name_is_valid(b"walk#256#body"));
    assert!(!cel_name_is_valid(b"walk#3"));
    assert!(!cel_name_is_valid(b"walk##body"));
    assert!(!cel_name_is_valid(b"walk#+#body"));
    assert!(!cel_name_is_valid(b"walk#-1#body"));
    assert!(!cel_name_is_valid(b"walk"));
}

#[test]
fn split_bytes_keeps_empty_pieces() {
    assert_eq!(split_bytes(b"a b  c", b' '), vec![b"a".to_vec(), b"b".to_vec(), vec![], b"c".to_vec()]);
    assert_eq!(split_bytes(b"", b','), vec![Vec::<u8>::new()]);
}

#[test]
fn tag_values_take_the_last_entry() {
    assert_eq!(lookup_tag("tileset,tile-size=8", "tile-size"), Some(b"8".to_vec()));
    assert_eq!(lookup_tag("tileset,tile-size=8", "tileset"), Some(vec![]));
    assert_eq!(lookup_tag("a=1,a=2", "a"), Some(b"2".to_vec()));
    assert_eq!(lookup_tag("k=v=w", "k"), Some(b"v=w".to_vec()));
    assert_eq!(lookup_tag("a=1", "b"), None);
}

fn layer(name: &str, data: &str, cels: &[(u8, &str)]) -> AsepriteLayerTag {
    AsepriteLayerTag {
        name: name.to_string(),
        data: data.to_string(),
        cels: cels.iter().map(|(f, d)| AsepriteLayerTagCel { frame: *f, data: d.to_string() }).collect(),
    }
}

#[test]
fn tags_attach_by_index_within_layer() {
    let mut cels = vec![
        cel("walk#0#body", 10, &[]),
        cel("walk#0#face", 10, &[]),
        cel("walk#1#body", 10, &[]),
        cel("walk#2#body", 10, &["old"]),
    ];
    let layers = vec![layer("body", "", &[(1, "no-export shiny"), (2, "x"), (2, "y")])];
    attach_cel_tags(&mut cels, &layers);
    assert!(cels[0].tags.is_empty());
    assert!(cels[1].tags.is_empty());
    assert_eq!(cels[2].tags, vec![b"no-export".to_vec(), b"shiny".to_vec()]);
    assert_eq!(cels[3].tags, vec![b"y".to_vec()]);
    let anim = AsepriteAnim { name: "walk".to_string(), direction: AsepriteAnimDirection::Forward };
    let a = SpriteMapAnimation::from_aseprite(&anim, &cels).unwrap();
    assert_eq!(frames(&a), vec![(10, vec![0, 1]), (10, vec![3])]);
}

#[test]
fn tilesets_come_from_tagged_layers() {
    let mut mask = cel("mask#0#ground", 100, &[]);
    mask.source_rect = engine::sprite_map::Rect { x: 0, y: 0, w: 96, h: 32 };
    let cels = vec![cel("walk#0#body", 10, &[]), mask];
    let layers = vec![
        layer("body", "", &[]),
        layer("ground", "tileset,tile-size=8", &[]),
    ];
    let t = find_tilesets(&cels, &layers);
    assert_eq!(t.len(), 1);
    assert_eq!(t[0].0, "ground");
    assert_eq!(t[0].1.grid_size, 8);
    assert_eq!(t[0].1.cel, 1);
}
