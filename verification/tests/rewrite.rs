use far::dir_iter::DirIterator;
use far::file::{gen_temp_filename, publish_plan, stage_step, CreateOutcome, FileOp, StageStep};
use far::pattern::Pattern;
use far::replace::{
    check_printable_chunk, check_size, conv_result, rewrite_whole, string_is_printable,
    transform_line, ReplaceError, MAX_FILE_SIZE,
};

#[test]
fn whole_file_mode_rewrites_all_matches() {
    let p = Pattern::new("abc").unwrap();
    let out = rewrite_whole("abc def abc", &p, "def").unwrap();

    assert_eq!(out, "def def def");
}

#[test]
fn substitution_is_idempotent_once_matches_are_gone() {
    let p = Pattern::new("abc").unwrap();
    let once = rewrite_whole("abc def abc", &p, "def").unwrap();
    let twice = rewrite_whole(&once, &p, "def").unwrap();

    assert_eq!(once, twice);
}

#[test]
fn scenario_line_mode_tree() {
    // A tree holding `1` = "xabcyabcz" and `a/2` = "abc", rewritten with
    // "abc" -> "def" line by line: the walk yields exactly the two files,
    // and each line comes back substituted.
    let entries = vec![
        far::dir_iter::RawEntry::File { name: "1".to_string() },
        far::dir_iter::RawEntry::Dir {
            name: "a".to_string(),
            entries: vec![far::dir_iter::RawEntry::File { name: "2".to_string() }],
        },
    ];
    let mut d = DirIterator::new("r", Ok(entries)).unwrap();
    let mut paths = Vec::new();
    loop {
        match d.next() {
            Some(item) => paths.push(item.unwrap()),
            None => break,
        }
    }
    paths.sort();
    assert_eq!(paths, vec!["r/1", "r/a/2"]);

    let p = Pattern::new("abc").unwrap();
    assert_eq!(transform_line("xabcyabcz", &p, "def").unwrap(), "xdefydefz");
    assert_eq!(transform_line("abc", &p, "def").unwrap(), "def");
}

#[test]
fn scenario_empty_root() {
    let mut d = DirIterator::new("r", Ok(vec![])).unwrap();

    assert!(d.next().is_none());
}

#[test]
fn size_gate_accepts_up_to_the_ceiling() {
    assert!(check_size(0).is_ok());
    assert!(check_size(MAX_FILE_SIZE).is_ok());
}

#[test]
fn size_gate_refuses_above_the_ceiling() {
    match check_size(MAX_FILE_SIZE + 1) {
        Err(ReplaceError::FileTooBig) => {},
        _ => panic!("An oversized file should be refused as too big."),
    }
}

#[test]
fn printable_gate_refuses_control_characters() {
    assert!(string_is_printable("abc def ~!"));
    assert!(!string_is_printable("line one\nline two"));
    assert!(!string_is_printable("tab\there"));
}

#[test]
fn chunk_gate_reports_not_printable() {
    assert!(check_printable_chunk("plain text").is_ok());
    match check_printable_chunk("broken\u{7}bell") {
        Err(ReplaceError::FileNotPrintable) => {},
        _ => panic!("An unprintable chunk should be refused."),
    }
}

#[test]
fn whole_file_gate_refuses_unprintable_content() {
    let p = Pattern::new("abc").unwrap();
    match rewrite_whole("abc\nabc", &p, "def") {
        Err(ReplaceError::FileNotPrintable) => {},
        _ => panic!("Content with a line feed should be refused as not printable."),
    }
}

#[test]
fn conv_result_wraps_error_text() {
    assert_eq!(conv_result(Ok(7u32)).unwrap(), 7);
    match conv_result::<u32>(Err("disk gone".to_string())) {
        Err(ReplaceError::IOError(m)) => assert_eq!(m, "disk gone"),
        _ => panic!("An error's text should come back as an IOError."),
    }
}

#[test]
fn temp_names_follow_the_candidate_scheme() {
    assert_eq!(gen_temp_filename("notes.txt", ".new", 1), "notes.txt.new1");
    assert_eq!(gen_temp_filename("notes.txt", ".old", 12), "notes.txt.old12");
    assert_eq!(gen_temp_filename("n", ".new", 305), "n.new305");
}

#[test]
fn staging_keeps_a_created_candidate() {
    match stage_step("f", ".new", 1, CreateOutcome::Created) {
        StageStep::Use { name } => assert_eq!(name, "f.new1"),
        _ => panic!("A created candidate should be kept."),
    }
}

#[test]
fn staging_retries_on_a_taken_name() {
    match stage_step("f", ".new", 1, CreateOutcome::NameTaken) {
        StageStep::Retry { next_index } => assert_eq!(next_index, 2),
        _ => panic!("A taken name should move to the next candidate."),
    }
}

#[test]
fn staging_gives_up_on_other_failures() {
    match stage_step("f", ".new", 1, CreateOutcome::Failed { err: "full".to_string() }) {
        StageStep::Fail { err: ReplaceError::IOError(m) } => assert_eq!(m, "full"),
        _ => panic!("Any other creation failure should give the file up."),
    }
}

#[test]
fn publish_plan_saves_swaps_then_cleans() {
    let plan = publish_plan("f", "f.new1", "f.old1");

    assert_eq!(plan.len(), 3);
    match &plan[0] {
        FileOp::Move { from, to } => {
            assert_eq!(from, "f");
            assert_eq!(to, "f.old1");
        },
        _ => panic!("The first step should save the target."),
    }
    match &plan[1] {
        FileOp::Move { from, to } => {
            assert_eq!(from, "f.new1");
            assert_eq!(to, "f");
        },
        _ => panic!("The second step should swap the staged file in."),
    }
    match &plan[2] {
        FileOp::Remove { name } => assert_eq!(name, "f.old1"),
        _ => panic!("The last step should remove the backup."),
    }
}

#[test]
fn replacement_engine_failure_is_reported_per_file() {
    // A backreference forces the fancy engine with its backtracking limit;
    // a hostile input overruns that limit, and the failure is reported as
    // this file's own error, not a panic.
    let p = Pattern::new(r"(x+)\1y").unwrap();
    let mut hostile = String::new();
    for _ in 0..400 {
        hostile.push('x');
    }
    match rewrite_whole(&hostile, &p, "z") {
        Err(ReplaceError::IOError(_)) => {},
        Ok(out) => assert_eq!(out, hostile),
        Err(_) => panic!("Only an engine failure is acceptable here."),
    }
}

#[test]
fn publish_never_shows_a_partial_target() {
    // Replay the publish plan against a directory model: at every instant
    // the target path, where present, holds wholly the original or wholly
    // the new content, and the original survives while the backup exists.
    let mut fs = std::collections::HashMap::new();
    fs.insert("f".to_string(), "original".to_string());
    fs.insert("f.new1".to_string(), "rewritten".to_string());

    for op in publish_plan("f", "f.new1", "f.old1") {
        match op {
            FileOp::Move { from, to } => {
                let content = fs.remove(&from).expect("the plan moves only existing files");
                fs.insert(to, content);
            }
            FileOp::Remove { name } => {
                fs.remove(&name).expect("the plan removes only existing files");
            }
        }
        if let Some(c) = fs.get("f") {
            assert!(c == "original" || c == "rewritten");
        }
        if fs.contains_key("f.old1") {
            assert_eq!(fs["f.old1"], "original");
        }
    }

    assert_eq!(fs["f"], "rewritten");
    assert!(!fs.contains_key("f.old1"));
    assert!(!fs.contains_key("f.new1"));
}
