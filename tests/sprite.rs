use game_ecs::aseprite::{AsepriteJSON, FrameInfo, MetaInfo, SpriteRect, SpriteSheetSize, Tags};
use game_ecs::components::{InputState, SpriteHandle};
use game_ecs::sprite::{ManagerError, SpriteError, SpriteManager, SpriteState, StateMachine};

fn frame(i: i32, duration: u64) -> FrameInfo {
    FrameInfo {
        filename: format!("f{}", i),
        frame: SpriteRect { x: 18 * i, y: 0, w: 18, h: 18 },
        duration,
        source_size: SpriteSheetSize { w: 18, h: 20 },
    }
}

fn tag(name: &str, from: usize, to: usize) -> Tags {
    Tags { name: name.to_string(), from, to, direction: "forward".to_string() }
}

fn sheet(tags: Vec<Tags>) -> AsepriteJSON {
    AsepriteJSON {
        frames: vec![frame(0, 100), frame(1, 100), frame(2, 100), frame(3, 100), frame(4, 50)],
        meta: MetaInfo { size: SpriteSheetSize { w: 90, h: 20 }, frame_tags: tags },
    }
}

fn chicken() -> AsepriteJSON {
    sheet(vec![tag("still", 0, 2), tag("run", 2, 5)])
}

#[test]
fn state_machine_picks_tag_by_signal() {
    let sm = StateMachine { tags: vec![tag("run", 2, 5), tag("still", 0, 2), tag("run", 0, 1)] };
    assert_eq!(sm.run(InputState::Running), Ok(0));
    assert_eq!(sm.run(InputState::Idle), Ok(1));
    let none = StateMachine { tags: vec![tag("peck", 0, 1)] };
    assert_eq!(none.run(InputState::Idle), Err(SpriteError::TagNotFound));
}

#[test]
fn sheet_validity() {
    assert!(chicken().is_valid());
    assert!(!sheet(vec![tag("run", 3, 6)]).is_valid());
    assert!(sheet(vec![tag("run", 2, 2)]).is_valid());
    assert!(!sheet(vec![tag("run", 5, 5)]).is_valid());
    assert!(!sheet(vec![tag("run", 3, 2)]).is_valid());
    let empty = AsepriteJSON {
        frames: vec![],
        meta: MetaInfo { size: SpriteSheetSize { w: 0, h: 0 }, frame_tags: vec![] },
    };
    assert!(!empty.is_valid());
}

#[test]
fn ack_switches_tag_once_per_change() {
    let sheet = chicken();
    let mut st = SpriteState::from_sheet(0, &sheet);
    assert_eq!(st.frame_i, 0);
    assert!(st.tag.is_none());
    assert_eq!(st.ack(InputState::Idle), Ok(()));
    assert!(st.tag.is_none());
    assert_eq!(st.ack(InputState::Running), Ok(()));
    assert_eq!(st.tag, Some(1));
    assert_eq!(st.frame_i, 2);
    assert_eq!(st.state, InputState::Running);
    assert_eq!(st.ack(InputState::Idle), Ok(()));
    assert_eq!(st.tag, Some(0));
    assert_eq!(st.frame_i, 0);
}

#[test]
fn ack_without_tags_reports_it() {
    let plain = sheet(vec![]);
    let mut st = SpriteState::from_sheet(0, &plain);
    assert!(st.state_machine.is_none());
    assert_eq!(st.ack(InputState::Running), Err(SpriteError::NoStateMachine));
    assert_eq!(st.state, InputState::Running);
    let mut other = SpriteState::from_sheet(0, &sheet(vec![tag("peck", 0, 1)]));
    assert_eq!(other.ack(InputState::Running), Err(SpriteError::TagNotFound));
    assert_eq!(other.frame_i, 0);
}

#[test]
fn frames_advance_after_their_duration_and_wrap_in_the_tag() {
    let sheet = chicken();
    let mut st = SpriteState::from_sheet(0, &sheet);
    st.ack(InputState::Running).unwrap();
    assert_eq!(st.next_frame(&sheet, 60_000), 2);
    assert_eq!(st.time, 60_000);
    assert_eq!(st.next_frame(&sheet, 60_000), 3);
    assert_eq!(st.time, 20_000);
    assert_eq!(st.next_frame(&sheet, 100_000), 4);
    assert_eq!(st.time, 20_000);
    assert_eq!(st.next_frame(&sheet, 31_000), 2);
    assert_eq!(st.time, 1_000);
}

#[test]
fn without_a_tag_frames_cycle_the_whole_sheet() {
    let sheet = sheet(vec![]);
    let mut st = SpriteState::from_sheet(0, &sheet);
    let mut seen = vec![];
    for _ in 0..6 {
        seen.push(st.next_frame(&sheet, 100_001));
    }
    assert_eq!(seen, vec![1, 2, 3, 4, 0, 1]);
}

#[test]
fn one_frame_tag_holds_its_frame() {
    let sheet = sheet(vec![tag("still", 3, 3)]);
    let mut st = SpriteState::from_sheet(0, &sheet);
    assert_eq!(st.ack(InputState::Running), Err(SpriteError::TagNotFound));
    assert_eq!(st.ack(InputState::Idle), Ok(()));
    assert_eq!(st.frame_i, 3);
    assert_eq!(st.next_frame(&sheet, 100_001), 3);
    assert_eq!(st.next_frame(&sheet, 100_001), 3);
}

#[test]
fn exact_duration_does_not_advance() {
    let sheet = chicken();
    let mut st = SpriteState::from_sheet(0, &sheet);
    assert_eq!(st.next_frame(&sheet, 100_000), 0);
    assert_eq!(st.next_frame(&sheet, 1), 1);
    assert_eq!(st.time, 1);
}

#[test]
fn manager_creates_and_drives_instances() {
    let mut m = SpriteManager::new();
    assert_eq!(m.add("tile".to_string(), sheet(vec![])), Ok(0));
    assert_eq!(m.add("chicken".to_string(), chicken()), Ok(1));
    assert_eq!(m.add("bad".to_string(), sheet(vec![tag("run", 4, 9)])), Err(ManagerError::InvalidSheet));
    assert_eq!(m.find(&"chicken".to_string()), Some(1));
    assert_eq!(m.find(&"bad".to_string()), None);
    let h = m.init(&"chicken".to_string()).unwrap();
    assert_eq!(h, SpriteHandle { index: 0, width: 18, height: 20, scale: 2 });
    assert_eq!(m.init(&"mushroom".to_string()), Err(ManagerError::UnknownSprite));
    assert_eq!(m.signal(&h, Some(InputState::Running)), Ok(()));
    assert_eq!(m.signal(&h, None), Ok(()));
    assert_eq!(m.next_frame(&h, 1_000), Ok((1, 2)));
    assert_eq!(m.next_frame(&h, 100_000), Ok((1, 3)));
    let missing = SpriteHandle { index: 4, width: 0, height: 0, scale: 2 };
    assert_eq!(m.signal(&missing, Some(InputState::Idle)), Err(ManagerError::UnknownHandle));
    assert_eq!(m.next_frame(&missing, 1), Err(ManagerError::UnknownHandle));
}

#[test]
fn manager_reports_signal_failures() {
    let mut m = SpriteManager::new();
    m.add("tile".to_string(), sheet(vec![])).unwrap();
    let h = m.init(&"tile".to_string()).unwrap();
    assert_eq!(
        m.signal(&h, Some(InputState::Running)),
        Err(ManagerError::Signal(SpriteError::NoStateMachine))
    );
}

#[test]
fn later_sheet_shadows_earlier_one_of_same_name() {
    let mut m = SpriteManager::new();
    m.add("a".to_string(), sheet(vec![])).unwrap();
    m.add("a".to_string(), chicken()).unwrap();
    assert_eq!(m.find(&"a".to_string()), Some(1));
    let batch = vec![("b".to_string(), chicken()), ("c".to_string(), sheet(vec![tag("x", 9, 10)]))];
    assert_eq!(m.add_sprites(batch), Err(ManagerError::InvalidSheet));
    assert_eq!(m.find(&"b".to_string()), Some(2));
    assert_eq!(m.find(&"c".to_string()), None);
}
