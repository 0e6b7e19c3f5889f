use uci::Engine;

fn strings(items: &[&str]) -> Vec<String> {
    items.iter().map(|s| s.to_string()).collect()
}

#[test]
fn new_session_has_default_limits() {
    let engine = Engine::new();
    assert_eq!(engine.movetime, 100);
    assert_eq!(engine.depth, None);
}

#[test]
fn builders_change_limits() {
    let engine = Engine::new().movetime(50).depth(Some(1));
    assert_eq!(engine.movetime, 50);
    assert_eq!(engine.depth, Some(1));
    let engine = engine.depth(None).movetime(5000);
    assert_eq!(engine.movetime, 5000);
    assert_eq!(engine.depth, None);
}

#[test]
fn go_command_without_depth() {
    assert_eq!(Engine::new().do_move(), "go movetime 100\n");
    assert_eq!(Engine::new().movetime(0).do_move(), "go movetime 0\n");
    assert_eq!(
        Engine::new().movetime(u32::MAX).do_move(),
        "go movetime 4294967295\n"
    );
}

#[test]
fn go_command_with_depth() {
    let engine = Engine::new().movetime(50).depth(Some(1));
    assert_eq!(engine.do_move(), "go movetime 50 depth 1\n");
    let engine = Engine::new().movetime(5000).depth(Some(40));
    assert_eq!(engine.do_move(), "go movetime 5000 depth 40\n");
}

#[test]
fn make_moves_from_start() {
    let engine = Engine::new();
    let moves = strings(&["e2e4", "e7e5"]);
    assert_eq!(engine.make_moves(&moves), "position startpos moves e2e4 e7e5\n");
    assert_eq!(engine.make_moves(&strings(&["d2d4"])), "position startpos moves d2d4\n");
}

#[test]
fn set_position_keeps_empty_moves_clause() {
    let engine = Engine::new();
    let fen = "6b1/8/1k5P/8/1P3B2/5pp1/8/4K3 b - - 0 1";
    let line = engine.set_position(fen);
    assert_eq!(line, "position fen 6b1/8/1k5P/8/1P3B2/5pp1/8/4K3 b - - 0 1 moves \n");
    assert!(line.ends_with(" moves \n"));
    assert_eq!(line, engine.make_moves_from_position(fen, &Vec::new()));
}

#[test]
fn make_moves_from_fen_position() {
    let engine = Engine::new();
    let moves = strings(&["c8b7", "h8h7"]);
    assert_eq!(
        engine.make_moves_from_position("2k4R/8/3K4/8/8/8/8/8 b - - 0 1", &moves),
        "position fen 2k4R/8/3K4/8/8/8/8/8 b - - 0 1 moves c8b7 h8h7\n"
    );
}

#[test]
fn set_option_command() {
    let engine = Engine::new();
    assert_eq!(
        engine.set_option("Skill Level", "15"),
        "setoption name Skill Level value 15\n"
    );
}

#[test]
fn raw_command_is_trimmed() {
    let engine = Engine::new();
    assert_eq!(engine.command("  go depth 10 \n"), "go depth 10\n");
    assert_eq!(engine.command("uci"), "uci\n");
    assert_eq!(engine.ready_command(), "isready\n");
}
