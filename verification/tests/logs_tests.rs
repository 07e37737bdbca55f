use std::sync::Arc;

use expert_kb::logs::{LogSeverity, Logs};
use expert_kb::shell::{Error, FileExplorer, Tabs};

#[test]
fn debug_stashes_an_informational_message() {
    let mut logs = Logs::default();
    logs.debug("loaded");
    assert_eq!(logs.stash.len(), 1);
    assert!(matches!(logs.stash[0].severity, LogSeverity::Info));
    assert_eq!(logs.stash[0].message, "loaded");
}

#[test]
fn errors_are_rendered_with_their_kind_prefix() {
    let mut logs = Logs::default();
    logs.error(Error::DialogClosed);
    logs.error(Error::IO("permission denied".to_string()));
    logs.error(Error::Parse(
        Arc::new("expected a declaration".to_string()),
        (3, 7),
    ));
    logs.error(Error::Query(Arc::new("nothing matched".to_string())));
    assert_eq!(logs.stash.len(), 4);
    assert!(matches!(logs.stash[0].severity, LogSeverity::Info));
    assert_eq!(logs.stash[0].message, "Dialog closed");
    assert!(matches!(logs.stash[1].severity, LogSeverity::Error));
    assert_eq!(logs.stash[1].message, "IO: permission denied");
    assert!(matches!(logs.stash[2].severity, LogSeverity::Error));
    assert_eq!(logs.stash[2].message, "Parser: expected a declaration");
    assert!(matches!(logs.stash[3].severity, LogSeverity::Info));
    assert_eq!(logs.stash[3].message, "Search: nothing matched");
}

#[test]
fn messages_accumulate_in_order() {
    let mut logs = Logs::default();
    logs.debug("first");
    logs.debug("second");
    assert_eq!(logs.stash.len(), 2);
    assert_eq!(logs.stash[0].message, "first");
    assert_eq!(logs.stash[1].message, "second");
}

#[test]
fn clear_cache_empties_the_stash() {
    let mut logs = Logs::default();
    logs.debug("one");
    logs.error(Error::DialogClosed);
    logs.clear_cache();
    assert!(logs.stash.is_empty());
}

#[test]
fn shell_state_defaults() {
    assert_eq!(Tabs::default(), Tabs::Questions);
    let explorer = FileExplorer::default();
    assert!(explorer.db.entries.is_empty());
    assert!(explorer.db.categories.is_empty());
}
