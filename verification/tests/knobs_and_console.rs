use bevy_yoleck::console::{trim_quotes, LogEntry, LogFilters, LogLevel, YoleckConsoleLogHistory};
use bevy_yoleck::editor::YoleckPassedData;
use bevy_yoleck::knobs::{YoleckKnobHandle, YoleckKnobsCache};

fn entry(message: &str) -> LogEntry {
    LogEntry { level: LogLevel::Info, message: message.to_string(), target: "t".to_string() }
}

fn messages(history: &YoleckConsoleLogHistory) -> Vec<String> {
    history.logs.iter().map(|l| l.message.clone()).collect()
}

#[test]
fn knob_is_found_again_after_it_was_added() {
    let mut cache = YoleckKnobsCache::new();
    assert_eq!(cache.access(0, "a"), None);
    cache.add_new(0, "a", 100);
    assert_eq!(cache.access(0, "a"), Some(100));
    assert_eq!(cache.access(0, "b"), None);
}

#[test]
fn knob_keys_of_different_types_never_match() {
    let mut cache = YoleckKnobsCache::new();
    cache.add_new(0, "a", 100);
    assert_eq!(cache.access(1, "a"), None);
    cache.add_new(1, "a", 200);
    assert_eq!(cache.access(0, "a"), Some(100));
    assert_eq!(cache.access(1, "a"), Some(200));
}

#[test]
fn untouched_knobs_are_cleaned() {
    let mut cache = YoleckKnobsCache::new();
    cache.add_new(0, "a", 100);
    cache.add_new(0, "b", 200);
    assert!(cache.clean_untouched().is_empty());
    assert_eq!(cache.access(0, "b"), Some(200));
    assert_eq!(cache.clean_untouched(), vec![100]);
    assert_eq!(cache.access(0, "a"), None);
    assert_eq!(cache.clean_untouched(), vec![200]);
}

#[test]
fn changing_the_edited_entity_drains_the_knobs() {
    let mut cache = YoleckKnobsCache::new();
    let mut previously = Some(1);
    cache.add_new(0, "a", 100);
    cache.add_new(0, "b", 200);
    assert!(cache.finish_frame(&mut previously, Some(1)).is_empty());
    cache.access(0, "a");
    let mut despawned = cache.finish_frame(&mut previously, Some(2));
    despawned.sort();
    assert_eq!(despawned, vec![100, 200]);
    assert_eq!(previously, Some(2));
    assert_eq!(cache.access(0, "a"), None);
}

#[test]
fn drain_returns_every_knob() {
    let mut cache = YoleckKnobsCache::new();
    cache.add_new(0, "a", 1);
    cache.add_new(0, "b", 2);
    assert_eq!(cache.drain(), vec![1, 2]);
    assert!(cache.drain().is_empty());
}

#[test]
fn log_levels() {
    assert_eq!(LogLevel::Debug.label(), "DEBUG");
    assert_eq!(LogLevel::Error.label(), "ERROR");
    assert_eq!(LogLevel::Warn.prefix(), "[WARN]");
    assert_eq!(LogLevel::Info.color_rgb(), (255, 255, 255));
    assert_eq!(LogLevel::Warn.color_rgb(), (255, 200, 0));
}

#[test]
fn history_keeps_the_latest_messages() {
    let mut history = YoleckConsoleLogHistory::new(2);
    history.add_log(entry("a"));
    history.add_log(entry("b"));
    history.add_log(entry("c"));
    assert_eq!(messages(&history), vec!["b", "c"]);
    history.clear();
    assert!(history.logs.is_empty());
}

#[test]
fn history_with_no_room_keeps_one_message() {
    let mut history = YoleckConsoleLogHistory::new(0);
    history.add_log(entry("a"));
    history.add_log(entry("b"));
    assert_eq!(messages(&history), vec!["b"]);
}

#[test]
fn default_history_holds_a_thousand_messages() {
    let mut history = YoleckConsoleLogHistory::default();
    assert_eq!(history.max_logs, 1000);
    for i in 0..1005 {
        history.add_log(entry(&i.to_string()));
    }
    assert_eq!(history.logs.len(), 1000);
    assert_eq!(history.logs[0].message, "5");
}

#[test]
fn filters() {
    let filters = LogFilters::default();
    assert!(!filters.should_show(LogLevel::Debug));
    assert!(filters.should_show(LogLevel::Info));
    assert!(filters.should_show(LogLevel::Warn));
    assert!(filters.should_show(LogLevel::Error));
    let mut history = YoleckConsoleLogHistory::new(10);
    history.add_log(LogEntry { level: LogLevel::Debug, message: "d".into(), target: "t".into() });
    history.add_log(entry("i"));
    assert_eq!(history.visible_logs(&filters), vec![1]);
}

#[test]
fn quotes_are_trimmed() {
    assert_eq!(trim_quotes("\"hello\""), "hello");
    assert_eq!(trim_quotes("\"\"a\"b\"\""), "a\"b");
    assert_eq!(trim_quotes("plain"), "plain");
    assert_eq!(trim_quotes("\"\"\""), "");
    assert_eq!(trim_quotes(""), "");
}

#[test]
fn storing_captured_messages_keeps_the_latest() {
    let mut history = YoleckConsoleLogHistory::new(2);
    history.store_log_messages(vec![entry("a"), entry("b"), entry("c")]);
    assert_eq!(messages(&history), vec!["b", "c"]);
}

#[test]
fn knob_passed_data() {
    let mut passed: YoleckPassedData<&str> = YoleckPassedData::new();
    passed.insert(100, 1, "clicked");
    let knob = YoleckKnobHandle { entity: 100, is_new: false };
    assert_eq!(knob.get_passed_data(&passed, 1), Some(&"clicked"));
    assert_eq!(knob.get_passed_data(&passed, 2), None);
    let other = YoleckKnobHandle { entity: 101, is_new: true };
    assert_eq!(other.get_passed_data(&passed, 1), None);
}
