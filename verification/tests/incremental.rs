use knob::compileutils::compile;
use knob::incremental::{needs_rebuild, since, tracked_objects};
use knob::types::{CompileCommand, CompileCommands};

fn record(file: &str, output: &str) -> CompileCommand {
    CompileCommand {
        directory: "/p".to_string(),
        arguments: vec![
            "/usr/bin/clang".to_string(),
            "-c".to_string(),
            file.to_string(),
            "-o".to_string(),
            output.to_string(),
        ],
        file: file.to_string(),
        output: output.to_string(),
    }
}

#[test]
fn a_newer_object_is_kept() {
    assert!(!needs_rebuild(Some(100), Some(101)));
    assert!(!needs_rebuild(Some(0), Some(u64::MAX)));
}

#[test]
fn an_object_as_old_as_its_source_is_made_again() {
    assert!(needs_rebuild(Some(100), Some(100)));
}

#[test]
fn an_older_object_is_made_again() {
    assert!(needs_rebuild(Some(101), Some(100)));
}

#[test]
fn a_missing_object_is_always_made_again() {
    assert!(needs_rebuild(Some(0), None));
    assert!(needs_rebuild(Some(u64::MAX), None));
    assert!(needs_rebuild(None, None));
}

#[test]
fn a_missing_source_makes_the_run_again() {
    assert!(needs_rebuild(None, Some(100)));
}

#[test]
fn replay_runs_the_first_argument_with_the_others() {
    let command = record("/p/s/a.c", "/p/out/a.o").replay();
    assert_eq!(command.binary, "/usr/bin/clang");
    assert_eq!(
        command.args,
        vec![
            "-c".to_string(),
            "/p/s/a.c".to_string(),
            "-o".to_string(),
            "/p/out/a.o".to_string(),
        ]
    );
    assert_eq!(command.directory, None);
    assert!(!command.echo);
    assert!(command.stream);
}

#[test]
fn replay_of_a_bare_program() {
    let bare = CompileCommand {
        directory: "/p".to_string(),
        arguments: vec!["true".to_string()],
        file: "a.c".to_string(),
        output: "a.o".to_string(),
    };
    let command = bare.replay();
    assert_eq!(command.binary, "true");
    assert!(command.args.is_empty());
}

#[test]
fn rebuild_runs_nothing_for_a_fresh_object() {
    assert!(record("/p/s/a.c", "/p/out/a.o").rebuild(Some(10), Some(11)).is_none());
}

#[test]
fn rebuild_replays_the_record_for_a_stale_object() {
    let command = record("/p/s/a.c", "/p/out/a.o").rebuild(Some(11), Some(10)).unwrap();
    assert_eq!(command.binary, "/usr/bin/clang");
    assert_eq!(command.args.len(), 4);
    assert!(record("/p/s/a.c", "/p/out/a.o").rebuild(Some(10), Some(10)).is_some());
}

#[test]
fn rebuild_replays_the_record_for_a_missing_object() {
    assert!(record("/p/s/a.c", "/p/out/a.o").rebuild(Some(1), None).is_some());
    assert!(record("/p/s/a.c", "/p/out/a.o").rebuild(None, None).is_some());
    assert!(record("/p/s/a.c", "/p/out/a.o").rebuild(None, Some(5)).is_some());
}

#[test]
fn tracked_objects_end_with_the_entrypoint() {
    let records = CompileCommands(vec![
        record("/p/s/b.c", "/p/out/b.o"),
        record("/p/s/a.c", "/p/out/a.o"),
    ]);
    let entry = compile("clang", "/p/main.c", "/p/out", &Vec::new());
    assert_eq!(
        tracked_objects(&records, &entry),
        vec![
            "/p/out/b.o".to_string(),
            "/p/out/a.o".to_string(),
            "/p/out/.p.main.c.o".to_string(),
        ]
    );
    assert_eq!(
        tracked_objects(&CompileCommands(Vec::new()), &entry),
        vec!["/p/out/.p.main.c.o".to_string()]
    );
}

#[test]
fn since_is_the_distance_of_two_times() {
    assert_eq!(since(10, 4), 6);
    assert_eq!(since(4, 10), 6);
    assert_eq!(since(7, 7), 0);
    assert_eq!(since(0, u64::MAX), u64::MAX);
    assert_eq!(since(u64::MAX, 0), u64::MAX);
}
