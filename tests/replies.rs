use uci::{bestmove_reply, option_result, score_of, EngineError, EvaluationReply, ReadyReply};

fn first_best_move(lines: &[&str]) -> Option<uci::Result<String>> {
    for line in lines {
        if let Some(r) = bestmove_reply(line) {
            return Some(r);
        }
    }
    None
}

#[test]
fn bestmove_line_gives_second_field() {
    assert_eq!(bestmove_reply("bestmove e2e4 ponder e7e5\n").unwrap().unwrap(), "e2e4");
    assert_eq!(bestmove_reply("bestmove f3f2\n").unwrap().unwrap(), "f3f2");
}

#[test]
fn other_lines_do_not_end_the_search() {
    assert!(bestmove_reply("info depth 1 score cp 10\n").is_none());
    assert!(bestmove_reply("readyok\n").is_none());
    assert!(bestmove_reply(" bestmove e2e4\n").is_none());
}

#[test]
fn bestmove_without_move_is_not_found() {
    assert!(matches!(bestmove_reply("bestmove\n"), Some(Err(EngineError::NotFound))));
}

#[test]
fn first_bestmove_line_wins() {
    let lines = [
        "info depth 1 seldepth 1 score cp 20 pv e2e4\n",
        "bestmove e2e4 ponder e7e5\n",
        "bestmove d2d4\n",
    ];
    assert_eq!(first_best_move(&lines).unwrap().unwrap(), "e2e4");
}

#[test]
fn score_of_cp_field() {
    let info = "info depth 25 seldepth 34 multipv 1 score cp -1933 nodes 18521596 nps 853018 hashfull 990 tbhits 0 time 21713 pv d2d3";
    assert_eq!(score_of(info).unwrap(), -1933);
}

#[test]
fn score_without_cp_is_not_found() {
    assert!(matches!(score_of("info depth 3 nodes 100\n"), Err(EngineError::NotFound)));
    assert!(matches!(score_of("info score mate 3 pv a1a2\n"), Err(EngineError::NotFound)));
    assert!(matches!(score_of(""), Err(EngineError::NotFound)));
    assert!(matches!(score_of("info score cp\n"), Err(EngineError::NotFound)));
    assert!(matches!(score_of("info score cp x12 nodes 3"), Err(EngineError::NotFound)));
}

#[test]
fn score_uses_last_cp_field() {
    assert_eq!(score_of("info cp 5 score cp 7 nodes 1").unwrap(), 7);
}

#[test]
fn score_limits_of_i32() {
    assert_eq!(score_of("info score cp 2147483647 nodes 1").unwrap(), i32::MAX);
    assert_eq!(score_of("info score cp -2147483648 nodes 1").unwrap(), i32::MIN);
    assert_eq!(score_of("info score cp +12 nodes 1").unwrap(), 12);
    assert!(matches!(score_of("info score cp 2147483648 nodes 1"), Err(EngineError::NotFound)));
    assert!(matches!(score_of("info score cp - nodes 1"), Err(EngineError::NotFound)));
    assert!(matches!(score_of("info score cp 12\n"), Err(EngineError::NotFound)));
}

#[test]
fn evaluation_reads_until_bestmove() {
    let mut reply = EvaluationReply::new();
    assert!(!reply.feed("info depth 25 seldepth 34 multipv 1 score cp -1933 nodes 18521596 pv d2d3\n"));
    assert!(reply.feed("bestmove d2d3 ponder a1a2\n"));
    assert_eq!(reply.result().unwrap(), -1933);
}

#[test]
fn evaluation_uses_last_info_line() {
    let mut reply = EvaluationReply::new();
    assert!(!reply.feed("info depth 1 score cp 15 nodes 20 pv e2e4\n"));
    assert!(!reply.feed("info depth 2 score cp 42 nodes 80 pv d2d4\n"));
    assert!(!reply.feed("some other line\n"));
    assert!(reply.feed("bestmove d2d4\n"));
    assert_eq!(reply.result().unwrap(), 42);
}

#[test]
fn evaluation_without_info_is_not_found() {
    let mut reply = EvaluationReply::new();
    assert!(reply.feed("bestmove e2e4\n"));
    assert!(matches!(reply.result(), Err(EngineError::NotFound)));
}

#[test]
fn ready_reply_with_no_output() {
    let mut reply = ReadyReply::new();
    assert!(reply.feed("readyok\n"));
    assert_eq!(reply.output(), "");
    assert!(option_result("Skill Level", &reply).is_ok());
}

#[test]
fn ready_reply_keeps_lines_as_written() {
    let mut reply = ReadyReply::new();
    assert!(!reply.feed("id name Engine\n"));
    assert!(!reply.feed("  uciok \n"));
    assert!(!reply.feed("x \r\n"));
    assert!(reply.feed(" readyok\r\n"));
    assert_eq!(reply.output(), "id name Engine\n  uciok \nx ");
}

#[test]
fn option_rejected_when_engine_writes() {
    let mut reply = ReadyReply::new();
    assert!(!reply.feed("No such option: Skill Level\n"));
    assert!(reply.feed("readyok\n"));
    match option_result("Skill Level", &reply) {
        Err(EngineError::UnknownOption(name)) => assert_eq!(name, "Skill Level"),
        _ => panic!("expected an unknown option"),
    }
}

#[test]
fn option_rejected_on_blank_lines() {
    let mut reply = ReadyReply::new();
    assert!(!reply.feed("\n"));
    assert!(!reply.feed("\n"));
    assert!(reply.feed("readyok\n"));
    assert_eq!(reply.output(), "\n");
    match option_result("Skill Level", &reply) {
        Err(EngineError::UnknownOption(name)) => assert_eq!(name, "Skill Level"),
        _ => panic!("expected an unknown option"),
    }
}

#[test]
fn option_accepted_on_one_blank_line() {
    let mut reply = ReadyReply::new();
    assert!(!reply.feed("\n"));
    assert!(reply.feed("readyok\n"));
    assert_eq!(reply.output(), "");
    assert!(option_result("Skill Level", &reply).is_ok());

    let mut reply = ReadyReply::new();
    assert!(!reply.feed("\r\n"));
    assert!(reply.feed("readyok\r\n"));
    assert!(option_result("Skill Level", &reply).is_ok());
}
