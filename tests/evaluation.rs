use ftrace::filter::{compare, FieldFilter, FilterMode};
use ftrace::parser::parse;
use ftrace::{EventMetadata, FieldSet, Level, SpanMetadata};

fn span(name: &str, level: Level) -> SpanMetadata {
    SpanMetadata::new(name, level, "src/lib.rs", 1)
}

#[test]
fn threshold_admits_levels_at_or_above() {
    let all = [Level::Trace, Level::Debug, Level::Info, Level::Warn, Level::Error];
    for (i, low) in all.iter().enumerate() {
        for (j, item) in all.iter().enumerate() {
            assert_eq!(low.admits(*item), j >= i);
        }
    }
    assert!(Level::Debug.admits(Level::Warn));
    assert!(!Level::Warn.admits(Level::Debug));
    assert!(Level::Trace < Level::Error);
}

#[test]
fn field_directive_enables_matching_span() {
    let f = parse("backend=warn,backend::db[name=\"x\"]=trace").unwrap();
    let s = span("backend::db::query", Level::Trace).with_field("name", "x");
    assert!(f.span_enabled(&s));
    let quoted = span("backend::db::query", Level::Trace).with_field("name", "\"x\"");
    assert!(f.span_enabled(&quoted));
    let debug = span("backend::db::query", Level::Debug);
    assert!(!f.span_enabled(&debug));
    let warn = span("backend::db::query", Level::Warn);
    assert!(f.span_enabled(&warn));
}

#[test]
fn default_filter_errors_only() {
    let f = parse("").unwrap();
    assert!(!f.span_enabled(&span("a", Level::Info)));
    assert!(f.span_enabled(&span("a", Level::Error)));
}

#[test]
fn contains_filter_matches_substring() {
    let filter = FieldFilter { key: "host".to_string(), value: "dev".to_string(), mode: FilterMode::Contains };
    let mut dev = FieldSet::new();
    dev.add("host", "backend-dev-2");
    assert!(filter.matches(&dev));
    let mut prod = FieldSet::new();
    prod.add("host", "prod-1");
    assert!(!filter.matches(&prod));
    let other = FieldSet::new();
    assert!(!filter.matches(&other));
}

#[test]
fn first_duplicate_key_decides() {
    let filter = FieldFilter { key: "k".to_string(), value: "a".to_string(), mode: FilterMode::Equal };
    let mut fs = FieldSet::new();
    fs.add("k", "a");
    fs.add("k", "b");
    assert!(filter.matches(&fs));
    let mut rev = FieldSet::new();
    rev.add("k", "b");
    rev.add("k", "a");
    assert!(!filter.matches(&rev));
    assert_eq!(rev.find("k"), Some("b"));
    assert_eq!(rev.find("z"), None);
}

#[test]
fn comparison_modes() {
    let c = |s: &str| s.chars().collect::<Vec<char>>();
    assert!(compare(FilterMode::Equal, &c("abc"), &c("abc")));
    assert!(!compare(FilterMode::Equal, &c("abc"), &c("ab")));
    assert!(compare(FilterMode::StartsWith, &c("abc"), &c("ab")));
    assert!(!compare(FilterMode::StartsWith, &c("abc"), &c("bc")));
    assert!(compare(FilterMode::EndsWith, &c("abc"), &c("bc")));
    assert!(!compare(FilterMode::EndsWith, &c("bc"), &c("abc")));
    assert!(compare(FilterMode::Contains, &c("abc"), &c("b")));
    assert!(compare(FilterMode::Contains, &c("abc"), &c("")));
    assert!(!compare(FilterMode::Contains, &c("abc"), &c("ac")));
}

#[test]
fn event_inherits_parent_target() {
    let f = parse("error,db[user~=adm]=debug").unwrap();
    let parent = span("db::query", Level::Info).with_field("user", "root-admin");
    let bare_parent = span("db::query", Level::Info);
    assert!(!f.event_enabled(&EventMetadata::new("x", Level::Debug, "a.rs", 1).with_field("user", "admin"), Some(&bare_parent)));
    let ev = EventMetadata::new("hello", Level::Debug, "src/lib.rs", 3).with_field("user", "\"admin\"");
    assert!(f.event_enabled(&ev, Some(&parent)));
    assert!(!f.event_enabled(&ev, None));
    let other = span("net", Level::Info);
    assert!(!f.event_enabled(&ev, Some(&other)));
    let plain = EventMetadata::new("hello", Level::Debug, "src/lib.rs", 3);
    assert!(!f.event_enabled(&plain, Some(&parent)));
    let err = EventMetadata::new("bad", Level::Error, "src/lib.rs", 4);
    assert!(f.event_enabled(&err, None));
}

#[test]
fn no_default_and_no_directive_disables() {
    let f = parse("db=trace").unwrap();
    assert!(!f.span_enabled(&span("net", Level::Error)));
    assert!(f.span_enabled(&span("db::x", Level::Trace)));
}
