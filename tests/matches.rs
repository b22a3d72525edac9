use pasoqa3::event::{Event, WORLD_ID};
use pasoqa3::parser::{LogMessageParser, MessageKind, ParseError, ParseFailure};
use pasoqa3::summary::{MatchSummary, SummaryProcessor};

fn feed(parser: &mut LogMessageParser, lines: &[&str]) -> Vec<Event> {
    let mut events = Vec::new();
    for line in lines {
        if let Some(e) = parser.parse_line(line).expect("line parses") {
            events.push(e);
        }
    }
    events
}

fn failure_of(line: &str, setup: &[&str]) -> ParseError {
    let mut parser = LogMessageParser::new();
    feed(&mut parser, setup);
    parser.parse_line(line).expect_err("line fails")
}

#[test]
fn join_takes_connect_name_and_begin() {
    let mut parser = LogMessageParser::new();
    assert_eq!(parser.parse_line(" 0:01 ClientConnect: 5"), Ok(None));
    assert_eq!(
        parser.parse_line(r" 0:01 ClientUserinfoChanged: 5 n\Foo\t\0\model\x"),
        Ok(None)
    );
    assert_eq!(
        parser.parse_line(" 0:02 ClientBegin: 5"),
        Ok(Some(Event::PlayerJoined { id: 5, name: "Foo".to_string() }))
    );
    // A repeated begin is ignored.
    assert_eq!(parser.parse_line(" 0:03 ClientBegin: 5"), Ok(None));
}

#[test]
fn begin_without_named_connect_fails() {
    let err = failure_of(" 0:02 ClientBegin: 5", &[]);
    assert_eq!(err.kind, MessageKind::ClientBegin);
    assert_eq!(err.failure, ParseFailure::JoinedWithoutName(5));
    assert_eq!(err.contents, "5");

    let err = failure_of(" 0:02 ClientBegin: 5", &[" 0:01 ClientConnect: 5"]);
    assert_eq!(err.failure, ParseFailure::JoinedWithoutName(5));
}

#[test]
fn duplicate_connect_changes_nothing() {
    let once = [
        " 0:01 ClientConnect: 5",
        r" 0:01 ClientUserinfoChanged: 5 n\Foo\t\0",
        " 0:02 ClientBegin: 5",
        r" 0:03 ClientUserinfoChanged: 5 n\Bar\t\0",
    ];
    let twice = [
        " 0:01 ClientConnect: 5",
        " 0:01 ClientConnect: 5",
        r" 0:01 ClientUserinfoChanged: 5 n\Foo\t\0",
        " 0:02 ClientBegin: 5",
        r" 0:03 ClientUserinfoChanged: 5 n\Bar\t\0",
    ];
    let mut a = LogMessageParser::new();
    let mut b = LogMessageParser::new();
    let events = feed(&mut a, &once);
    assert_eq!(events, feed(&mut b, &twice));
    assert_eq!(
        events,
        vec![
            Event::PlayerJoined { id: 5, name: "Foo".to_string() },
            Event::PlayerNameUpdate { id: 5, new_name: "Bar".to_string() },
        ]
    );
}

#[test]
fn disconnect_always_gives_player_left() {
    let mut parser = LogMessageParser::new();
    assert_eq!(
        parser.parse_line(" 9:00 ClientDisconnect: 4"),
        Ok(Some(Event::PlayerLeft { id: 4 }))
    );
    feed(&mut parser, &[" 9:01 ClientConnect: 4", r" 9:01 ClientUserinfoChanged: 4 n\X\t"]);
    assert_eq!(
        parser.parse_line(" 9:02 ClientDisconnect: 4"),
        Ok(Some(Event::PlayerLeft { id: 4 }))
    );
    // The pending connection is gone with it.
    let err = parser.parse_line(" 9:03 ClientBegin: 4").unwrap_err();
    assert_eq!(err.failure, ParseFailure::JoinedWithoutName(4));
}

#[test]
fn init_game_clears_connections() {
    let mut parser = LogMessageParser::new();
    feed(
        &mut parser,
        &[" 0:01 ClientConnect: 5", r" 0:01 ClientUserinfoChanged: 5 n\Foo\t"],
    );
    assert_eq!(parser.parse_line("  0:00 InitGame: \\sv_hostname\\x"), Ok(Some(Event::ResetMatch)));
    let err = parser.parse_line(" 0:02 ClientBegin: 5").unwrap_err();
    assert_eq!(err.failure, ParseFailure::JoinedWithoutName(5));
}

#[test]
fn kill_message_gives_ids_and_cause() {
    let mut parser = LogMessageParser::new();
    assert_eq!(
        parser.parse_line(" 20:54 Kill: 1022 2 22: <world> killed Isgalamido by MOD_TRIGGER_HURT"),
        Ok(Some(Event::Kill {
            killer: WORLD_ID,
            victim: 2,
            death_cause: "MOD_TRIGGER_HURT".to_string(),
        }))
    );
    // The cause starts at the last marker.
    assert_eq!(
        parser.parse_line(" 1:00 Kill: 3 4 7: MOD_man killed x by MOD_ROCKET"),
        Ok(Some(Event::Kill { killer: 3, victim: 4, death_cause: "MOD_ROCKET".to_string() }))
    );
}

#[test]
fn unknown_lines_give_nothing() {
    let mut parser = LogMessageParser::new();
    assert_eq!(parser.parse_line("  0:00 ------------------------------------"), Ok(None));
    assert_eq!(parser.parse_line(" 1:47 Item: 5 weapon_rocketlauncher"), Ok(None));
    assert_eq!(parser.parse_line(" 1:47 ShutdownGame:"), Ok(None));
    assert_eq!(parser.parse_line(""), Ok(None));
}

#[test]
fn each_failure_has_its_input() {
    let err = failure_of(" 1:00 ClientConnect: x", &[]);
    assert_eq!((err.kind, err.failure), (MessageKind::ClientConnect, ParseFailure::MissingId));
    assert_eq!(err.contents, "x");

    let err = failure_of(" 1:00 ClientDisconnect:", &[]);
    assert_eq!((err.kind, err.failure), (MessageKind::ClientDisconnect, ParseFailure::MissingId));

    let err = failure_of(" 1:00 Kill: 1 2 3: a killed b", &[]);
    assert_eq!((err.kind, err.failure), (MessageKind::Kill, ParseFailure::MissingDeathCause));

    let err = failure_of(" 1:00 Kill: 1 : MOD_X", &[]);
    assert_eq!((err.kind, err.failure), (MessageKind::Kill, ParseFailure::MissingKillIds));
    assert_eq!(err.contents, "1 : MOD_X");

    let err = failure_of(" 1:00 ClientUserinfoChanged: 2 name\\Bob", &[]);
    assert_eq!(
        (err.kind, err.failure),
        (MessageKind::ClientUserinfoChanged, ParseFailure::MissingName)
    );

    let err = failure_of(" 1:00 ClientBegin: z", &[]);
    assert_eq!((err.kind, err.failure), (MessageKind::ClientBegin, ParseFailure::MissingId));
}

#[test]
fn message_kinds_have_their_tags() {
    assert_eq!(MessageKind::ClientBegin.tag(), "ClientBegin:");
    assert_eq!(MessageKind::ClientUserinfoChanged.tag(), "ClientUserinfoChanged:");
    assert_eq!(MessageKind::InitGame.tag(), "InitGame:");
}

fn score_of(s: &MatchSummary, name: &str) -> Option<i32> {
    s.scores.iter().find(|(_, n, _)| n == name).map(|(_, _, v)| *v)
}

fn cause_of(s: &MatchSummary, cause: &str) -> Option<u32> {
    s.death_causes.iter().find(|(c, _)| c == cause).map(|(_, v)| *v)
}

fn kill(killer: u16, victim: u16, cause: &str) -> Event {
    Event::Kill { killer, victim, death_cause: cause.to_string() }
}

fn joined(id: u16, name: &str) -> Event {
    Event::PlayerJoined { id, name: name.to_string() }
}

#[test]
fn scoring_by_players_and_by_the_world() {
    let mut summary = SummaryProcessor::new(None);
    assert!(summary.process(Event::ResetMatch).is_none());
    summary.process(joined(3, "Victim"));
    summary.process(joined(7, "Killer"));
    summary.process(kill(7, 3, "MOD_ROCKET"));
    summary.process(kill(WORLD_ID, 3, "MOD_FALLING"));
    summary.process(kill(WORLD_ID, 3, "MOD_FALLING"));
    let s = summary.output().expect("match one is shown");
    assert_eq!(s.match_number, 1);
    assert_eq!(s.total_kills, 3);
    assert_eq!(score_of(&s, "Killer"), Some(1));
    assert_eq!(score_of(&s, "Victim"), Some(-2));
    assert_eq!(cause_of(&s, "MOD_ROCKET"), Some(1));
    assert_eq!(cause_of(&s, "MOD_FALLING"), Some(2));
    assert_eq!(s.death_causes.len(), 2);
}

#[test]
fn boundary_flushes_and_resets() {
    let mut summary = SummaryProcessor::new(None);
    // Match zero, before the first boundary, is never shown.
    summary.process(kill(1, 2, "MOD_X"));
    assert!(summary.process(Event::ResetMatch).is_none());
    summary.process(joined(2, "Bob"));
    summary.process(joined(1, "Al"));
    summary.process(kill(1, 2, "MOD_SHOTGUN"));
    let s = summary.process(Event::ResetMatch).expect("match one is shown");
    assert_eq!(s.match_number, 1);
    assert_eq!(s.total_kills, 1);
    assert_eq!(s.players, vec![(1, "Al".to_string()), (2, "Bob".to_string())]);
    assert_eq!(s.scores, vec![(1, "Al".to_string(), 1), (2, "Bob".to_string(), 0)]);
    assert_eq!(s.death_causes, vec![("MOD_SHOTGUN".to_string(), 1)]);
    let s = summary.output().expect("match two is shown");
    assert_eq!(s.match_number, 2);
    assert_eq!(s.total_kills, 0);
    assert!(s.players.is_empty());
    assert!(s.scores.is_empty());
    assert!(s.death_causes.is_empty());
}

#[test]
fn chosen_game_alone_is_shown() {
    let mut summary = SummaryProcessor::new(Some(2));
    summary.process(Event::ResetMatch);
    assert!(summary.process(Event::ResetMatch).is_none());
    let s = summary.process(Event::ResetMatch).expect("match two is shown");
    assert_eq!(s.match_number, 2);
    assert!(summary.output().is_none());
}

#[test]
fn leaving_and_renaming() {
    let mut summary = SummaryProcessor::new(None);
    summary.process(Event::ResetMatch);
    summary.process(joined(1, "A"));
    summary.process(joined(2, "B"));
    summary.process(kill(1, 2, "MOD_X"));
    summary.process(Event::PlayerLeft { id: 1 });
    summary.process(Event::PlayerNameUpdate { id: 2, new_name: "C".to_string() });
    summary.process(Event::PlayerNameUpdate { id: 9, new_name: "Ghost".to_string() });
    let s = summary.output().unwrap();
    assert_eq!(s.total_kills, 1);
    assert_eq!(s.players, vec![(2, "C".to_string()), (9, "Ghost".to_string())]);
    // Ghost was only named by a rename, and has no score to list.
    assert_eq!(s.scores, vec![(2, "C".to_string(), 0)]);
}

#[test]
fn room_for_counts() {
    let summary = SummaryProcessor::new(None);
    assert!(summary.has_room_for(&kill(1, 2, "MOD_X")));
    assert!(summary.has_room_for(&Event::ResetMatch));
}

#[test]
fn end_to_end_single_match() {
    let lines = [
        "  0:00 InitGame: \\sv_floodProtect\\1",
        " 0:01 ClientConnect: 2",
        r" 0:01 ClientUserinfoChanged: 2 n\Alice\t\0\model\uriel",
        " 0:02 ClientBegin: 2",
        " 0:10 Kill: 1022 2 19: <world> killed Alice by MOD_FALLING",
        " 0:20 ShutdownGame:",
    ];
    let mut parser = LogMessageParser::new();
    let mut summary = SummaryProcessor::new(None);
    let mut shown = Vec::new();
    for line in lines {
        if let Some(event) = parser.parse_line(line).unwrap() {
            assert!(summary.has_room_for(&event));
            if let Some(s) = summary.process(event) {
                shown.push(s);
            }
        }
    }
    shown.extend(summary.output());
    assert_eq!(shown.len(), 1);
    let s = &shown[0];
    assert_eq!(s.match_number, 1);
    assert_eq!(s.players, vec![(2, "Alice".to_string())]);
    assert_eq!(s.total_kills, 1);
    assert_eq!(s.scores, vec![(2, "Alice".to_string(), -1)]);
    assert_eq!(s.death_causes, vec![("MOD_FALLING".to_string(), 1)]);
}

#[test]
fn failed_begin_keeps_the_pending_connection() {
    let mut parser = LogMessageParser::new();
    assert_eq!(parser.parse_line(" 0:01 ClientConnect: 5"), Ok(None));
    let err = parser.parse_line(" 0:02 ClientBegin: 5").unwrap_err();
    assert_eq!(err.failure, ParseFailure::JoinedWithoutName(5));
    // Still connecting: the name goes to the pending entry, and begin joins.
    assert_eq!(parser.parse_line(r" 0:03 ClientUserinfoChanged: 5 n\Foo\t"), Ok(None));
    assert_eq!(
        parser.parse_line(" 0:04 ClientBegin: 5"),
        Ok(Some(Event::PlayerJoined { id: 5, name: "Foo".to_string() }))
    );
}

#[test]
fn reconnect_of_a_joined_client_starts_over() {
    let mut parser = LogMessageParser::new();
    feed(
        &mut parser,
        &[
            " 0:01 ClientConnect: 3",
            r" 0:01 ClientUserinfoChanged: 3 n\Old\t",
            " 0:02 ClientBegin: 3",
        ],
    );
    assert_eq!(parser.parse_line(" 0:05 ClientConnect: 3"), Ok(None));
    // Connecting again: a name is pending, not a rename.
    assert_eq!(parser.parse_line(r" 0:05 ClientUserinfoChanged: 3 n\New\t"), Ok(None));
    assert_eq!(
        parser.parse_line(" 0:06 ClientBegin: 3"),
        Ok(Some(Event::PlayerJoined { id: 3, name: "New".to_string() }))
    );
}

#[test]
fn scores_of_unnamed_players_are_not_listed() {
    let mut summary = SummaryProcessor::new(None);
    summary.process(Event::ResetMatch);
    summary.process(joined(4, "D"));
    summary.process(kill(8, 4, "MOD_X"));
    summary.process(kill(WORLD_ID, 4, "MOD_LAVA"));
    let s = summary.output().unwrap();
    assert_eq!(s.total_kills, 2);
    assert_eq!(s.players, vec![(4, "D".to_string())]);
    assert_eq!(s.scores, vec![(4, "D".to_string(), -1)]);
}
