use ftrace::filter::{Directive, EnvFilter, FilterMode};
use ftrace::parser::{parse, ParseError, Parser};
use ftrace::Level;

fn target(d: &Directive) -> Option<&str> {
    d.module.as_deref()
}

#[test]
fn bare_level_becomes_default_level() {
    let f = parse("info").unwrap();
    assert_eq!(f.default_level(), Some(Level::Info));
    assert!(f.directives().is_empty());
}

#[test]
fn level_names_ignore_case() {
    let f = parse("WaRn").unwrap();
    assert_eq!(f.default_level(), Some(Level::Warn));
    assert_eq!(Level::from_name("TRACE"), Some(Level::Trace));
    assert_eq!(Level::from_name("Error"), Some(Level::Error));
    assert_eq!(Level::from_name("verbose"), None);
    assert_eq!(Level::from_name(""), None);
}

#[test]
fn targeted_and_field_directives() {
    let f = parse("backend=warn,backend::db[name=\"x\"]=trace").unwrap();
    assert_eq!(f.default_level(), None);
    let ds = f.directives();
    assert_eq!(ds.len(), 2);
    assert_eq!(target(&ds[0]), Some("backend"));
    assert!(ds[0].fields.is_empty());
    assert_eq!(ds[0].level, Level::Warn);
    assert_eq!(target(&ds[1]), Some("backend::db"));
    assert_eq!(ds[1].fields.len(), 1);
    assert_eq!(ds[1].fields[0].key, "name");
    assert_eq!(ds[1].fields[0].mode, FilterMode::Equal);
    assert_eq!(ds[1].fields[0].value, "x");
    assert_eq!(ds[1].level, Level::Trace);
}

#[test]
fn empty_spec_gives_default_filter() {
    let f = parse("").unwrap();
    assert_eq!(f.default_level(), Some(Level::Error));
    assert!(f.directives().is_empty());
    let d = EnvFilter::default();
    assert_eq!(d.default_level(), Some(Level::Error));
    assert!(d.directives().is_empty());
}

#[test]
fn all_comparison_modes() {
    let f = parse("app[a=x,b~=y,c^=z,d$=\"w v\"]=debug").unwrap();
    let ds = f.directives();
    assert_eq!(ds.len(), 1);
    let modes: Vec<FilterMode> = ds[0].fields.iter().map(|x| x.mode).collect();
    assert_eq!(
        modes,
        vec![FilterMode::Equal, FilterMode::Contains, FilterMode::StartsWith, FilterMode::EndsWith]
    );
    assert_eq!(ds[0].fields[3].value, "w v");
    assert_eq!(ds[0].level, Level::Debug);
}

#[test]
fn first_catch_all_is_extracted_only() {
    let f = parse("warn,db=trace,info").unwrap();
    assert_eq!(f.default_level(), Some(Level::Warn));
    let ds = f.directives();
    assert_eq!(ds.len(), 2);
    assert_eq!(target(&ds[0]), Some("db"));
    assert_eq!(target(&ds[1]), None);
    assert_eq!(ds[1].level, Level::Info);
}

#[test]
fn field_filters_without_target() {
    let f = parse("[user=bob]=trace").unwrap();
    let ds = f.directives();
    assert_eq!(ds.len(), 1);
    assert_eq!(target(&ds[0]), None);
    assert_eq!(ds[0].fields[0].value, "bob");
    assert_eq!(f.default_level(), None);
}

#[test]
fn trailing_text_stops_parsing() {
    let f = parse("db=info;rest=trace").unwrap();
    assert_eq!(f.directives().len(), 1);
    assert_eq!(target(&f.directives()[0]), Some("db"));
}

#[test]
fn single_char_last_directive_is_read() {
    let f = parse("a=info,b").unwrap_err();
    assert_eq!(f, ParseError::InvalidLevel("b".to_string()));
}

#[test]
fn missing_level_error() {
    assert_eq!(parse("db=").unwrap_err(), ParseError::MissingLevel);
    assert_eq!(parse("db=,x").unwrap_err(), ParseError::MissingLevel);
}

#[test]
fn invalid_level_errors() {
    assert_eq!(parse("db=loud").unwrap_err(), ParseError::InvalidLevel("loud".to_string()));
    assert_eq!(parse("backend").unwrap_err(), ParseError::InvalidLevel("backend".to_string()));
}

#[test]
fn malformed_field_list_ends_the_directive() {
    assert_eq!(parse("db[=x]=info").unwrap_err(), ParseError::InvalidLevel("db".to_string()));
    assert_eq!(parse("db[a!x]=info").unwrap_err(), ParseError::InvalidLevel("db".to_string()));
    assert_eq!(parse("db[a=\"open]=info").unwrap_err(), ParseError::InvalidLevel("db".to_string()));
    let f = parse("warn[a=]=info,db=trace").unwrap();
    assert_eq!(f.default_level(), Some(Level::Warn));
    assert!(f.directives().is_empty());
}

#[test]
fn field_filters_keep_target_without_level() {
    let f = parse("backend[x=1]").unwrap();
    let ds = f.directives();
    assert_eq!(ds.len(), 1);
    assert_eq!(target(&ds[0]), Some("backend"));
    assert_eq!(ds[0].fields.len(), 1);
    assert_eq!(ds[0].fields[0].key, "x");
    assert_eq!(ds[0].fields[0].mode, FilterMode::Equal);
    assert_eq!(ds[0].fields[0].value, "1");
    assert_eq!(ds[0].level, Level::Info);
    let g = parse("info[x=1]").unwrap();
    assert_eq!(target(&g.directives()[0]), Some("info"));
    assert_eq!(g.default_level(), None);
}

#[test]
fn parser_cursor_steps() {
    let mut p = Parser::new("ab1:c[k~=\"v\"]");
    assert!(!p.eof());
    assert_eq!(p.peek(), Some('a'));
    assert_eq!(p.identifier(), Some("ab"));
    assert_eq!(p.module_name(), Some("1:c"));
    assert!(!p.check(']'));
    assert!(p.check('['));
    let f = p.parse_filter().unwrap();
    assert_eq!(f.key, "k");
    assert_eq!(f.mode, FilterMode::Contains);
    assert_eq!(f.value, "v");
    assert!(p.check(']'));
    assert!(p.eof());
    assert_eq!(p.peek(), None);
    assert_eq!(p.value(), None);
    let mut q = Parser::new("=1");
    assert!(q.parse_filter().is_none());
}

#[test]
fn parse_directive_reads_one_clause() {
    let mut p = Parser::new("net::tcp[port=80]=debug,rest");
    let d = p.parse_directive().unwrap();
    assert_eq!(target(&d), Some("net::tcp"));
    assert_eq!(d.fields[0].key, "port");
    assert_eq!(d.fields[0].value, "80");
    assert_eq!(d.level, Level::Debug);
    assert!(p.check(','));
}
