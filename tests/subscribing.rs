use ftrace::parser::parse;
use ftrace::render::render_record;
use ftrace::{with_level_styling, EventMetadata, Level, Location, SpanMetadata, Subscriber};

#[test]
fn disabled_span_leaves_state_alone() {
    let mut s = Subscriber::new();
    s.set_filter(parse("error").unwrap());
    let outer = s.enter_span(SpanMetadata::new("outer", Level::Error, "a.rs", 1)).expect("enabled");
    assert_eq!(s.depth(), 1);
    let inner = s.enter_span(SpanMetadata::new("inner", Level::Info, "a.rs", 2));
    assert!(inner.is_none());
    assert_eq!(s.depth(), 1);
    assert_eq!(s.current_span().map(|m| m.name.clone()), Some("outer".to_string()));
    s.event(EventMetadata::new("inside", Level::Error, "a.rs", 3));
    let out = s.take_output();
    assert_eq!(out.len(), 2);
    assert!(out[1].contains("inside"));
    assert!(out[1].starts_with("  "));
    s.exit_span(outer);
    assert_eq!(s.depth(), 0);
}

#[test]
fn nested_spans_unwind_to_idle() {
    let mut s = Subscriber::new();
    let a = s.enter_span(SpanMetadata::new("a", Level::Info, "a.rs", 1)).unwrap();
    let b = s.enter_span(SpanMetadata::new("b", Level::Info, "a.rs", 2)).unwrap();
    let c = s.enter_span(SpanMetadata::new("c", Level::Info, "a.rs", 3)).unwrap();
    assert_eq!(s.depth(), 3);
    assert_eq!(c.depth(), 3);
    assert_eq!(s.current_span().unwrap().name, "c");
    s.exit_span(c);
    s.exit_span(b);
    assert_eq!(s.current_span().unwrap().name, "a");
    s.exit_span(a);
    assert_eq!(s.depth(), 0);
    assert!(s.current_span().is_none());
    let out = s.take_output();
    assert_eq!(out.len(), 3);
    assert!(!out[0].starts_with(' '));
    assert!(out[1].starts_with("  ") && !out[1].starts_with("   "));
    assert!(out[2].starts_with("    ") && !out[2].starts_with("     "));
    assert!(s.take_output().is_empty());
}

#[test]
fn filtered_event_is_not_recorded() {
    let mut s = Subscriber::default();
    s.set_filter(parse("warn").unwrap());
    s.event(EventMetadata::new("quiet", Level::Info, "a.rs", 1));
    assert!(s.take_output().is_empty());
    s.event(EventMetadata::new("loud", Level::Warn, "a.rs", 1));
    assert_eq!(s.take_output().len(), 1);
}

#[test]
fn level_styling_colours() {
    assert_eq!(with_level_styling(Level::Trace, "t"), "\u{1b}[36mt\u{1b}[0m");
    assert_eq!(with_level_styling(Level::Debug, "d"), "\u{1b}[34md\u{1b}[0m");
    assert_eq!(with_level_styling(Level::Info, "i"), "\u{1b}[32mi\u{1b}[0m");
    assert_eq!(with_level_styling(Level::Warn, "w"), "\u{1b}[33mw\u{1b}[0m");
    assert_eq!(with_level_styling(Level::Error, "e"), "\u{1b}[31me\u{1b}[0m");
}

#[test]
fn record_layout_is_exact() {
    let span = SpanMetadata::new("f", Level::Info, "src/x.rs", 42).with_field("k", "v");
    let text = span.render(1, "T");
    let expected = "  \u{1b}[2mT\u{1b}[0m \u{1b}[32mINFO\u{1b}[0m  f\n\
        \u{20}     \u{1b}[2mwith\u{1b}[0m \u{1b}[32mk: v\u{1b}[0m\n\
        \u{20}     \u{1b}[2mat\u{1b}[0m src/x.rs:42\n\n";
    assert_eq!(text, expected);
}

#[test]
fn record_without_fields_has_no_field_line() {
    let ev = EventMetadata::new("msg", Level::Error, "m.rs", 7);
    let text = ev.render(0, "now");
    let expected = "\u{1b}[2mnow\u{1b}[0m \u{1b}[31mERROR\u{1b}[0m  msg\n\
        \u{20}   \u{1b}[2mat\u{1b}[0m m.rs:7\n\n";
    assert_eq!(text, expected);
    let loc = Location { file: "z.rs".to_string(), line: 0 };
    let fields = ftrace::FieldSet::new();
    let r = render_record(0, "", Level::Debug, "x", &fields, &loc);
    assert!(r.ends_with("z.rs:0\n\n"));
    assert!(r.contains("\u{1b}[34mDEBUG\u{1b}[0m"));
}

#[test]
fn fields_render_in_insertion_order() {
    let span = SpanMetadata::new("f", Level::Warn, "a.rs", 1234567890)
        .with_field("a", "1")
        .with_field("b", "2")
        .with_field("a", "3");
    let text = span.render(0, "T");
    let first = text.find("\u{1b}[33ma: 1\u{1b}[0m").unwrap();
    let second = text.find("\u{1b}[33mb: 2\u{1b}[0m").unwrap();
    let third = text.find("\u{1b}[33ma: 3\u{1b}[0m").unwrap();
    assert!(first < second && second < third);
    assert!(text.contains("\u{1b}[33ma: 1\u{1b}[0m\u{1b}[2m, \u{1b}[0m\u{1b}[33mb: 2\u{1b}[0m"));
    assert!(text.contains("a.rs:1234567890\n"));
    assert_eq!(span.fields.len(), 3);
    assert_eq!(span.fields.key(2), "a");
    assert_eq!(span.fields.value(2), "3");
}

#[test]
fn entered_span_record_is_stamped_in_utc() {
    let mut s = Subscriber::new();
    let g = s.enter_span(SpanMetadata::new("stamped", Level::Warn, "t.rs", 9)).unwrap();
    let out = s.take_output();
    assert_eq!(out.len(), 1);
    let rest = out[0].strip_prefix("\u{1b}[2m").unwrap();
    let end = rest.find("\u{1b}[0m").unwrap();
    let stamp = &rest[..end];
    assert!(stamp.len() >= 20);
    assert!(stamp.ends_with('Z'));
    assert_eq!(&stamp[4..5], "-");
    assert_eq!(&stamp[10..11], "T");
    assert!(rest[end..].starts_with("\u{1b}[0m \u{1b}[33mWARN\u{1b}[0m  stamped\n"));
    s.exit_span(g);
}

#[test]
fn many_nested_spans_unwind_to_idle() {
    let mut s = Subscriber::new();
    s.set_filter(parse("debug").unwrap());
    let mut guards = Vec::new();
    for i in 0..50u32 {
        let level = if i % 2 == 0 { Level::Info } else { Level::Trace };
        match s.enter_span(SpanMetadata::new("nested", level, "n.rs", i)) {
            Some(g) => guards.push(g),
            None => assert_eq!(level, Level::Trace),
        }
    }
    assert_eq!(guards.len(), 25);
    assert_eq!(s.depth(), 25);
    while let Some(g) = guards.pop() {
        assert_eq!(g.depth(), s.depth());
        s.exit_span(g);
    }
    assert_eq!(s.depth(), 0);
    assert!(s.current_span().is_none());
    assert_eq!(s.take_output().len(), 25);
}
