use rustex::config::{Config, FileConfig};
use rustex::supervisor::Supervisor;
use rustex::tailer::{Action, Event, FileIdentity, FileStatus, Phase};

fn status(inode: u64, size: u64) -> FileStatus {
    FileStatus { identity: FileIdentity { device: 1, inode }, size }
}

fn two_files() -> Config {
    Config::new(
        "https://example.com/webhook",
        vec![FileConfig::new("a.log", "ERROR.*"), FileConfig::new("b.log", "WARN.*")],
    )
}

/// Opens the tailer at `index` on an empty file, appends `line` and a
/// newline, and returns the (source, line) pairs reported.
fn append_to(supervisor: &mut Supervisor, index: usize, inode: u64, line: &str) -> Vec<(String, String)> {
    let mut data = line.as_bytes().to_vec();
    data.push(b'\n');
    let mut events = Vec::new();
    if supervisor.tailer(index).phase() == Phase::Opening {
        events.extend(supervisor.handle(index, Event::Opened(status(inode, 0))));
    }
    let offset = supervisor.tailer(index).read_offset();
    events.extend(supervisor.handle(index, Event::Status(status(inode, offset + data.len() as u64))));
    assert_eq!(
        supervisor.tailer(index).next_action(),
        Action::Read { offset, len: data.len() as u64 }
    );
    events.extend(supervisor.handle(index, Event::Data(data)));
    events.into_iter().map(|event| (event.source_path, event.line_text)).collect()
}

#[test]
fn one_tailer_per_file() {
    let config = two_files();
    let supervisor = Supervisor::start(&config.files);
    assert_eq!(supervisor.len(), 2);
    assert!(supervisor.rejected().is_empty());
    assert_eq!(supervisor.tailer(0).path(), "a.log");
    assert_eq!(supervisor.tailer(0).pattern(), "ERROR.*");
    assert_eq!(supervisor.tailer(1).path(), "b.log");
    assert_eq!(supervisor.tailer(1).pattern(), "WARN.*");
    assert_eq!(supervisor.tailer(0).phase(), Phase::Opening);
    assert_eq!(supervisor.tailer(1).phase(), Phase::Opening);
}

#[test]
fn each_file_reports_under_its_own_name() {
    let config = two_files();
    let mut supervisor = Supervisor::start(&config.files);

    let from_a = append_to(&mut supervisor, 0, 1, "ERROR: x");
    assert_eq!(from_a, vec![("a.log".to_string(), "ERROR: x".to_string())]);
    assert_eq!(supervisor.tailer(1).phase(), Phase::Opening);

    let from_b = append_to(&mut supervisor, 1, 2, "WARN: y");
    assert_eq!(from_b, vec![("b.log".to_string(), "WARN: y".to_string())]);
    assert_eq!(supervisor.tailer(0).read_offset(), 9);
}

#[test]
fn a_line_for_the_other_pattern_is_not_reported() {
    let config = two_files();
    let mut supervisor = Supervisor::start(&config.files);
    assert!(append_to(&mut supervisor, 0, 1, "WARN: y").is_empty());
    assert!(append_to(&mut supervisor, 1, 2, "ERROR: x").is_empty());
    assert_eq!(
        append_to(&mut supervisor, 0, 1, "ERROR: x"),
        vec![("a.log".to_string(), "ERROR: x".to_string())]
    );
    assert_eq!(
        append_to(&mut supervisor, 1, 2, "WARN: y"),
        vec![("b.log".to_string(), "WARN: y".to_string())]
    );
}

#[test]
fn malformed_pattern_stops_only_its_own_file() {
    let files = vec![
        FileConfig::new("a.log", "ERROR.*"),
        FileConfig::new("broken.log", "(unclosed"),
        FileConfig::new("b.log", "WARN.*"),
        FileConfig::new("worse.log", "[z-a]"),
    ];
    let mut supervisor = Supervisor::start(&files);
    assert_eq!(supervisor.len(), 2);
    assert_eq!(supervisor.tailer(0).path(), "a.log");
    assert_eq!(supervisor.tailer(1).path(), "b.log");
    assert_eq!(supervisor.rejected().len(), 2);
    assert_eq!(supervisor.rejected()[0].filename, "broken.log");
    assert_eq!(supervisor.rejected()[0].error.pattern, "(unclosed");
    assert!(!supervisor.rejected()[0].error.reason.is_empty());
    assert_eq!(supervisor.rejected()[1].filename, "worse.log");
    assert_eq!(supervisor.rejected()[1].error.pattern, "[z-a]");

    assert_eq!(
        append_to(&mut supervisor, 0, 1, "ERROR: x"),
        vec![("a.log".to_string(), "ERROR: x".to_string())]
    );
    assert_eq!(
        append_to(&mut supervisor, 1, 2, "WARN: y"),
        vec![("b.log".to_string(), "WARN: y".to_string())]
    );
}

#[test]
fn no_file_no_tailer() {
    let mut supervisor = Supervisor::start(&Vec::new());
    assert_eq!(supervisor.len(), 0);
    assert!(supervisor.rejected().is_empty());
    assert!(supervisor.all_stopped());
    supervisor.shutdown();
    assert!(supervisor.all_stopped());
}

#[test]
fn shutdown_stops_every_tailer() {
    let config = two_files();
    let mut supervisor = Supervisor::start(&config.files);
    supervisor.handle(0, Event::Opened(status(1, 0)));
    assert!(!supervisor.all_stopped());
    supervisor.handle(1, Event::Shutdown);
    assert!(!supervisor.all_stopped());
    supervisor.shutdown();
    assert!(supervisor.all_stopped());
    assert_eq!(supervisor.tailer(0).phase(), Phase::Stopped);
    assert_eq!(supervisor.tailer(1).phase(), Phase::Stopped);
    assert_eq!(supervisor.tailer(0).next_action(), Action::Halt);
    assert!(supervisor.handle(0, Event::Data(b"ERROR: x\n".to_vec())).is_empty());
}

#[test]
fn parts_are_handed_over_in_order() {
    let files = vec![
        FileConfig::new("bad.log", "*"),
        FileConfig::new("a.log", "ERROR.*"),
        FileConfig::new("b.log", "WARN.*"),
    ];
    let (tailers, rejected) = Supervisor::start(&files).into_parts();
    assert_eq!(tailers.len(), 2);
    assert_eq!(tailers[0].path(), "a.log");
    assert_eq!(tailers[1].path(), "b.log");
    assert_eq!(rejected.len(), 1);
    assert_eq!(rejected[0].filename, "bad.log");
}
