use propdump::discovery::{
    discovery_line, discovery_lines, Destination, DiscoveryError, TeleportAppender,
    TELEPORT_PATTERN,
};
use propdump::propdump::Object;

fn object_with_action(action: &[u8]) -> Object {
    Object {
        id: 1,
        timestamp: 2,
        x: b"0".to_vec(),
        y: b"0".to_vec(),
        z: b"0".to_vec(),
        yaw: b"0".to_vec(),
        tilt: b"0".to_vec(),
        roll: b"0".to_vec(),
        kind: 0,
        name: b"door".to_vec(),
        description: Vec::new(),
        action: action.to_vec(),
        payload: Vec::new(),
    }
}

fn destination(world: Option<&str>, ns: Option<&str>, ew: Option<&str>) -> Destination {
    Destination {
        world: world.map(|s| s.to_string()),
        ns: ns.map(|s| s.to_string()),
        ew: ew.map(|s| s.to_string()),
    }
}

#[test]
fn teleport_without_a_world_is_recorded_for_the_own_world() {
    let finder = TeleportAppender::for_world("ALPHA").unwrap();
    let object = object_with_action(b"activate teleport 12n 34w, noise off");
    assert_eq!(
        finder.check_to_append(&object),
        Ok(vec!["ALPHA 12n 34w: ZZZFound\n".to_string()])
    );
}

#[test]
fn teleport_to_another_world_is_not_recorded() {
    let finder = TeleportAppender::for_world("ALPHA").unwrap();
    let object = object_with_action(b"activate teleport beta 12n 34w");
    assert_eq!(finder.check_to_append(&object), Ok(Vec::new()));
}

#[test]
fn the_world_is_compared_without_regard_to_case() {
    let finder = TeleportAppender::for_world("alpha").unwrap();
    assert_eq!(finder.world_name(), "ALPHA");
    let object = object_with_action(b"bump teleport Alpha 1.5N 2.5E");
    assert_eq!(
        finder.check_to_append(&object),
        Ok(vec!["ALPHA 1.5N 2.5E: ZZZFound\n".to_string()])
    );
}

#[test]
fn every_command_of_an_action_is_recorded() {
    let finder = TeleportAppender::for_world("Alpha").unwrap();
    let object = object_with_action(
        b"bump warp 1n 2e; activate teleportx beta 3s 4w; adone TELEPORT alpha 5S 6W; warp 1n 2e",
    );
    assert_eq!(
        finder.check_to_append(&object),
        Ok(vec![
            "ALPHA 1n 2e: ZZZFound\n".to_string(),
            "ALPHA 5S 6W: ZZZFound\n".to_string(),
            "ALPHA 1n 2e: ZZZFound\n".to_string(),
        ])
    );
}

#[test]
fn an_action_without_commands_gives_no_lines() {
    let finder = TeleportAppender::for_world("ALPHA").unwrap();
    assert_eq!(finder.check_to_append(&object_with_action(b"")), Ok(Vec::new()));
    assert_eq!(
        finder.check_to_append(&object_with_action(b"create sign; activate url x")),
        Ok(Vec::new())
    );
    // The command word must not be the end of a longer word.
    assert_eq!(
        finder.check_to_append(&object_with_action(b"xteleport 1n 2w")),
        Ok(Vec::new())
    );
}

#[test]
fn find_gives_the_commands_as_they_stand() {
    let finder = TeleportAppender::for_world("ALPHA").unwrap();
    let found = finder.find(b"bump teleport straBe 10.5n 3W, warp 7S 8e");
    assert_eq!(
        found,
        vec![
            destination(Some("STRABE"), Some("10.5n"), Some("3W")),
            destination(None, Some("7S"), Some("8e")),
        ]
    );
}

#[test]
fn bytes_that_are_no_text_do_not_hide_a_command() {
    let finder = TeleportAppender::for_world("ALPHA").unwrap();
    let mut action = vec![0xFF, 0xFE, b' '];
    action.extend_from_slice(b"teleport 12n 34w");
    action.push(0x80);
    assert_eq!(
        finder.check_to_append(&object_with_action(&action)),
        Ok(vec!["ALPHA 12n 34w: ZZZFound\n".to_string()])
    );
}

#[test]
fn the_name_of_a_world_is_kept_in_upper_case() {
    assert_eq!(TeleportAppender::for_world("alpha").unwrap().world_name(), "ALPHA");
    assert_eq!(TeleportAppender::for_world("Stra\u{df}e").unwrap().world_name(), "STRASSE");
    assert_eq!(TeleportAppender::for_world("").unwrap().world_name(), "");
}

#[test]
fn a_line_names_world_and_coordinates() {
    assert_eq!(discovery_line("ALPHA", "12n", "34w"), "ALPHA 12n 34w: ZZZFound\n");
    assert_eq!(discovery_line("", "", ""), "  : ZZZFound\n");
}

#[test]
fn lines_are_made_for_the_own_world_only() {
    let found = vec![
        destination(None, Some("1n"), Some("2w")),
        destination(Some("BETA"), Some("3n"), Some("4w")),
        destination(Some("ALPHA"), Some("5n"), Some("6w")),
        destination(Some("alpha"), Some("7n"), Some("8w")),
    ];
    assert_eq!(
        discovery_lines("ALPHA", &found),
        Ok(vec!["ALPHA 1n 2w: ZZZFound\n".to_string(), "ALPHA 5n 6w: ZZZFound\n".to_string()])
    );
    assert_eq!(discovery_lines("ALPHA", &Vec::new()), Ok(Vec::new()));
}

#[test]
fn a_command_of_the_own_world_without_a_coordinate_is_an_error() {
    let found = vec![
        destination(None, Some("1n"), Some("2w")),
        destination(Some("ALPHA"), None, Some("6w")),
    ];
    assert_eq!(discovery_lines("ALPHA", &found), Err(DiscoveryError::MissingCoordinate));
    let found = vec![destination(None, Some("1n"), None)];
    assert_eq!(discovery_lines("ALPHA", &found), Err(DiscoveryError::MissingCoordinate));
    // One of another world is passed over before its coordinates are looked at.
    let found = vec![destination(Some("BETA"), None, None)];
    assert_eq!(discovery_lines("ALPHA", &found), Ok(Vec::new()));
}

#[test]
fn a_pattern_that_cannot_be_compiled_is_an_error() {
    assert!(matches!(
        TeleportAppender::with_pattern("ALPHA", "(teleport"),
        Err(DiscoveryError::Pattern)
    ));
    assert!(matches!(
        TeleportAppender::with_pattern("ALPHA", "\\w{100000}"),
        Err(DiscoveryError::Pattern)
    ));
}

#[test]
fn a_finder_keeps_its_pattern() {
    assert_eq!(TeleportAppender::for_world("ALPHA").unwrap().pattern(), TELEPORT_PATTERN);
    let finder = TeleportAppender::with_pattern("alpha", "go (?P<ns>\\d+n) (?P<ew>\\d+w)").unwrap();
    assert_eq!(finder.pattern(), "go (?P<ns>\\d+n) (?P<ew>\\d+w)");
    assert_eq!(
        finder.check_to_append(&object_with_action(b"go 1n 2w or go 3n 4w")),
        Ok(vec!["ALPHA 1n 2w: ZZZFound\n".to_string(), "ALPHA 3n 4w: ZZZFound\n".to_string()])
    );
}

#[test]
fn a_pattern_without_a_coordinate_group_finds_commands_it_cannot_record() {
    let finder = TeleportAppender::with_pattern("ALPHA", "go (?P<ns>\\d+n)").unwrap();
    assert_eq!(
        finder.check_to_append(&object_with_action(b"go 1n")),
        Err(DiscoveryError::MissingCoordinate)
    );
    assert_eq!(finder.check_to_append(&object_with_action(b"stay")), Ok(Vec::new()));
}

#[test]
fn a_command_that_opens_the_action_is_found() {
    let finder = TeleportAppender::for_world("ALPHA").unwrap();
    assert_eq!(
        finder.check_to_append(&object_with_action(b"teleport 12n 34w")),
        Ok(vec!["ALPHA 12n 34w: ZZZFound\n".to_string()])
    );
    assert_eq!(
        finder.check_to_append(&object_with_action(b"Warp beta 1n 2w")),
        Ok(Vec::new())
    );
    assert_eq!(
        finder.check_to_append(&object_with_action(b"teleportx alpha 5.5S 6E\nteleport 7n 8w")),
        Ok(vec![
            "ALPHA 5.5S 6E: ZZZFound\n".to_string(),
            "ALPHA 7n 8w: ZZZFound\n".to_string(),
        ])
    );
    assert_eq!(finder.check_to_append(&object_with_action(b"_teleport 1n 2w")), Ok(Vec::new()));
    assert_eq!(finder.check_to_append(&object_with_action(b"9warp 1n 2w")), Ok(Vec::new()));
}
