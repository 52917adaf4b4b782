//! Directives, the filter built from them, and the decision of which spans
//! and events pass it.
use vstd::prelude::*;

use crate::chars::{chars_of, contains, occurs, occurs_at, unquote, unquoted};
use crate::level::Level;
use crate::metadata::{EventMetadata, FieldSet, FieldView, SpanMetadata, first_value};

verus! {

/// How a field filter compares a field's value with its own.
#[derive(Debug, Clone, Copy, PartialEq, Eq, Structural)]
pub enum FilterMode {
    /// `=`: the value is equal.
    Equal,
    /// `~=`: the value contains it.
    Contains,
    /// `^=`: the value starts with it.
    StartsWith,
    /// `$=`: the value ends with it.
    EndsWith,
}

/// A field filter as it is reasoned about.
pub struct FieldFilterView {
    pub key: Seq<char>,
    pub mode: FilterMode,
    pub value: Seq<char>,
}

/// One condition of a directive on a field: the field `key` must be there and
/// its value must compare with `value` as `mode` says.
#[derive(Debug)]
pub struct FieldFilter {
    pub key: String,
    pub value: String,
    pub mode: FilterMode,
}

impl View for FieldFilter {
    type V = FieldFilterView;

    open spec fn view(&self) -> FieldFilterView {
        FieldFilterView { key: self.key@, mode: self.mode, value: self.value@ }
    }
}

/// The views of a sequence of field filters.
pub open spec fn filter_views(fs: Seq<FieldFilter>) -> Seq<FieldFilterView> {
    fs.map_values(|f: FieldFilter| f@)
}

/// A directive as it is reasoned about.
pub struct DirectiveView {
    pub target: Option<Seq<char>>,
    pub fields: Seq<FieldFilterView>,
    pub level: Level,
}

/// One clause of a filter: which items it applies to (a prefix of their
/// target and conditions on their fields) and the least level it lets through.
#[derive(Debug)]
pub struct Directive {
    pub module: Option<String>,
    pub fields: Vec<FieldFilter>,
    pub level: Level,
}

impl View for Directive {
    type V = DirectiveView;

    open spec fn view(&self) -> DirectiveView {
        DirectiveView {
            target: match self.module {
                Some(m) => Some(m@),
                None => None,
            },
            fields: filter_views(self.fields@),
            level: self.level,
        }
    }
}

/// The views of a sequence of directives.
pub open spec fn directive_views(ds: Seq<Directive>) -> Seq<DirectiveView> {
    ds.map_values(|d: Directive| d@)
}

/// A directive with neither a target nor field filters: it applies to
/// everything.
pub open spec fn is_catch_all(d: DirectiveView) -> bool {
    d.target is None && d.fields.len() == 0
}

/// The index of the first catch-all directive of `ds` at `from` or after, or
/// the length of `ds` if there is none.
pub open spec fn first_catch_all(ds: Seq<DirectiveView>, from: int) -> int
    decreases ds.len() - from,
{
    if from < 0 || from >= ds.len() {
        ds.len() as int
    } else if is_catch_all(ds[from]) {
        from
    } else {
        first_catch_all(ds, from + 1)
    }
}

/// A filter as it is reasoned about.
pub struct EnvFilterView {
    pub directives: Seq<DirectiveView>,
    pub default_level: Option<Level>,
}

/// The filter made of `ds`: the first catch-all directive, if any, is taken
/// out of the list and its level becomes the default level.
pub open spec fn filter_of(ds: Seq<DirectiveView>) -> EnvFilterView {
    let k = first_catch_all(ds, 0);
    if k < ds.len() {
        EnvFilterView { directives: ds.remove(k), default_level: Some(ds[k].level) }
    } else {
        EnvFilterView { directives: ds, default_level: None }
    }
}

/// The filter used when no specification is given: errors only.
pub open spec fn default_filter() -> EnvFilterView {
    EnvFilterView { directives: Seq::empty(), default_level: Some(Level::Error) }
}

/// A filter for spans and events: an ordered list of targeted directives and
/// an optional default level for items that no directive applies to.
#[derive(Debug)]
pub struct EnvFilter {
    directives: Vec<Directive>,
    default_level: Option<Level>,
}

impl View for EnvFilter {
    type V = EnvFilterView;

    closed spec fn view(&self) -> EnvFilterView {
        EnvFilterView {
            directives: directive_views(self.directives@),
            default_level: self.default_level,
        }
    }
}

/// If no directive in `from..k` is a catch-all and the one at `k` is (or `k`
/// is the end), the first catch-all from `from` on is at `k`.
proof fn lemma_first_catch_all(ds: Seq<DirectiveView>, from: int, k: int)
    requires
        0 <= from <= k <= ds.len(),
        forall|j: int| from <= j < k ==> !is_catch_all(#[trigger] ds[j]),
        k == ds.len() || is_catch_all(ds[k]),
    ensures
        first_catch_all(ds, from) == k,
    decreases k - from,
{
    if from < k {
        lemma_first_catch_all(ds, from + 1, k);
    }
}

impl EnvFilter {
    /// The filter made of the given directives: the first one that has
    /// neither a target nor field filters becomes the default level.
    pub fn from_directives(mut directives: Vec<Directive>) -> (r: EnvFilter)
        ensures
            r@ == filter_of(directive_views(directives@)),
    {
        let ghost ds = directive_views(directives@);
        let mut i: usize = 0;
        while i < directives.len() && !(directives[i].module.is_none() && directives[i].fields.len()
            == 0)
            invariant
                i <= directives@.len(),
                ds == directive_views(directives@),
                forall|j: int| 0 <= j < i ==> !is_catch_all(#[trigger] ds[j]),
            decreases directives@.len() - i,
        {
            assert(!is_catch_all(ds[i as int]));
            i += 1;
        }
        proof {
            lemma_first_catch_all(ds, 0, i as int);
        }
        if i < directives.len() {
            let d = directives.remove(i);
            let r = EnvFilter { directives, default_level: Some(d.level) };
            assert(r@.directives =~= ds.remove(i as int));
            r
        } else {
            EnvFilter { directives, default_level: None }
        }
    }

    /// The directives, without the catch-all one.
    pub fn directives(&self) -> (r: &Vec<Directive>)
        ensures
            directive_views(r@) == self@.directives,
    {
        &self.directives
    }

    /// The level for items that no directive applies to.
    pub fn default_level(&self) -> (r: Option<Level>)
        ensures
            r == self@.default_level,
    {
        self.default_level
    }
}

impl Default for EnvFilter {
    /// The filter used when no specification is given: errors only.
    fn default() -> (r: EnvFilter)
        ensures
            r@ == default_filter(),
    {
        let mut ds: Vec<Directive> = Vec::new();
        ds.push(Directive { module: None, fields: Vec::new(), level: Level::Error });
        let r = EnvFilter::from_directives(ds);
        proof {
            let dv = directive_views(ds@);
            assert(dv[0].fields =~= Seq::<FieldFilterView>::empty());
            assert(first_catch_all(dv, 0) == 0);
            assert(dv.remove(0) =~= Seq::<DirectiveView>::empty());
        }
        r
    }
}

/// A field's value `actual` compares with a filter's `expected` as `mode`
/// says.
pub open spec fn compares(mode: FilterMode, actual: Seq<char>, expected: Seq<char>) -> bool {
    match mode {
        FilterMode::Equal => actual == expected,
        FilterMode::Contains => exists|k: int| occurs_at(actual, expected, k),
        FilterMode::StartsWith => occurs_at(actual, expected, 0),
        FilterMode::EndsWith => occurs_at(actual, expected, actual.len() - expected.len()),
    }
}

/// The field filter `f` holds of `fields`: the first field with its key is
/// there, and that field's value, without one pair of surrounding double
/// quotes, compares as the filter says.
pub open spec fn filter_holds(f: FieldFilterView, fields: Seq<FieldView>) -> bool {
    match first_value(fields, f.key) {
        None => false,
        Some(v) => compares(f.mode, unquoted(v), f.value),
    }
}

/// Every field filter of `d` holds of `fields`.
pub open spec fn fields_hold(d: DirectiveView, fields: Seq<FieldView>) -> bool {
    forall|i: int| 0 <= i < d.fields.len() ==> filter_holds(#[trigger] d.fields[i], fields)
}

/// The target of `d`, if it has one, is a prefix of `name`.
pub open spec fn target_covers(d: DirectiveView, name: Seq<char>) -> bool {
    match d.target {
        None => true,
        Some(t) => occurs_at(name, t, 0),
    }
}

/// `d` applies to a span named `name` with fields `fields`.
pub open spec fn applies_to_span(d: DirectiveView, name: Seq<char>, fields: Seq<FieldView>) -> bool {
    target_covers(d, name) && fields_hold(d, fields)
}

/// `d` applies to an event with fields `fields` whose enclosing span, if
/// any, is `parent` (its name and fields).
pub open spec fn applies_to_event(
    d: DirectiveView,
    fields: Seq<FieldView>,
    parent: Option<(Seq<char>, Seq<FieldView>)>,
) -> bool {
    match parent {
        None => false,
        Some((name, pfields)) => applies_to_span(d, name, pfields) && fields_hold(d, fields),
    }
}

/// The default level, if any, lets an item of `level` through.
pub open spec fn default_lets_through(default_level: Option<Level>, level: Level) -> bool {
    match default_level {
        None => false,
        Some(l) => l.lets_through(level),
    }
}

/// Whether `f` lets through a span named `name`, with fields `fields`, of
/// level `level`: if some directive applies to it, one of those that apply
/// must let its level through; else the default level decides, and without
/// one it is left out.
pub open spec fn span_allowed(
    f: EnvFilterView,
    name: Seq<char>,
    fields: Seq<FieldView>,
    level: Level,
) -> bool {
    let ds = f.directives;
    if exists|i: int| 0 <= i < ds.len() && applies_to_span(#[trigger] ds[i], name, fields) {
        exists|i: int|
            0 <= i < ds.len() && applies_to_span(#[trigger] ds[i], name, fields)
                && ds[i].level.lets_through(level)
    } else {
        default_lets_through(f.default_level, level)
    }
}

/// Whether `f` lets through an event with fields `fields`, of level `level`,
/// inside the span `parent` (if any), as for spans but with the directives
/// that apply to the event.
pub open spec fn event_allowed(
    f: EnvFilterView,
    fields: Seq<FieldView>,
    level: Level,
    parent: Option<(Seq<char>, Seq<FieldView>)>,
) -> bool {
    let ds = f.directives;
    if exists|i: int| 0 <= i < ds.len() && applies_to_event(#[trigger] ds[i], fields, parent) {
        exists|i: int|
            0 <= i < ds.len() && applies_to_event(#[trigger] ds[i], fields, parent)
                && ds[i].level.lets_through(level)
    } else {
        default_lets_through(f.default_level, level)
    }
}

/// The name and fields of a span, if there is one.
pub open spec fn span_view(span: Option<&SpanMetadata>) -> Option<(Seq<char>, Seq<FieldView>)> {
    match span {
        None => None,
        Some(s) => Some((s.name@, s.fields@)),
    }
}

/// Whether a field's value `actual` compares with `expected` as `mode` says.
pub fn compare(mode: FilterMode, actual: &[char], expected: &[char]) -> (r: bool)
    ensures
        r == compares(mode, actual@, expected@),
{
    match mode {
        FilterMode::Equal => {
            if actual.len() != expected.len() {
                return false;
            }
            let r = occurs(actual, expected, 0);
            assert(r ==> actual@.subrange(0, actual@.len() as int) =~= actual@);
            assert(actual@ == expected@ ==> actual@.subrange(0, actual@.len() as int) =~= actual@);
            r
        },
        FilterMode::Contains => contains(actual, expected),
        FilterMode::StartsWith => occurs(actual, expected, 0),
        FilterMode::EndsWith => {
            if expected.len() > actual.len() {
                return false;
            }
            occurs(actual, expected, actual.len() - expected.len())
        },
    }
}

impl FieldFilter {
    /// Whether the filter holds of `fields`.
    pub fn matches(&self, fields: &FieldSet) -> (r: bool)
        ensures
            r == filter_holds(self@, fields@),
    {
        match fields.find(self.key.as_str()) {
            None => false,
            Some(v) => {
                let actual = unquote(chars_of(v));
                let expected = chars_of(self.value.as_str());
                compare(self.mode, actual.as_slice(), expected.as_slice())
            },
        }
    }
}

impl Directive {
    /// Whether every field filter of the directive holds of `field_set`.
    pub fn handles_field_set(&self, field_set: &FieldSet) -> (r: bool)
        ensures
            r == fields_hold(self@, field_set@),
    {
        let mut i: usize = 0;
        while i < self.fields.len()
            invariant
                i <= self.fields@.len(),
                forall|j: int| 0 <= j < i ==> filter_holds(#[trigger] self@.fields[j], field_set@),
            decreases self.fields@.len() - i,
        {
            if !self.fields[i].matches(field_set) {
                assert(!filter_holds(self@.fields[i as int], field_set@));
                return false;
            }
            i += 1;
        }
        true
    }

    /// Whether the directive applies to `span`: its target, if any, is a
    /// prefix of the span's name, and its field filters hold of the span's
    /// fields.
    pub fn handles_span(&self, span: &SpanMetadata) -> (r: bool)
        ensures
            r == applies_to_span(self@, span.name@, span.fields@),
    {
        match &self.module {
            Some(m) => {
                let name = chars_of(span.name.as_str());
                let prefix = chars_of(m.as_str());
                if !occurs(name.as_slice(), prefix.as_slice(), 0) {
                    return false;
                }
            },
            None => {},
        }
        self.handles_field_set(&span.fields)
    }

    /// Whether the directive applies to `event` inside `parent_span`: there
    /// is such a span, the directive applies to it, and its field filters
    /// hold of the event's fields.
    pub fn handles_event(&self, event: &EventMetadata, parent_span: Option<&SpanMetadata>) -> (r:
        bool)
        ensures
            r == applies_to_event(self@, event.fields@, span_view(parent_span)),
    {
        match parent_span {
            None => false,
            Some(span) => self.handles_span(span) && self.handles_field_set(&event.fields),
        }
    }
}

impl EnvFilter {
    /// Whether `span` should be emitted.
    pub fn span_enabled(&self, span: &SpanMetadata) -> (r: bool)
        ensures
            r == span_allowed(self@, span.name@, span.fields@, span.level),
    {
        let ghost ds = self@.directives;
        let mut any_applies = false;
        let mut any_admits = false;
        let mut i: usize = 0;
        while i < self.directives.len()
            invariant
                ds == self@.directives,
                ds.len() == self.directives@.len(),
                i <= ds.len(),
                any_applies == exists|j: int|
                    0 <= j < i && applies_to_span(#[trigger] ds[j], span.name@, span.fields@),
                any_admits == exists|j: int|
                    0 <= j < i && applies_to_span(#[trigger] ds[j], span.name@, span.fields@)
                        && ds[j].level.lets_through(span.level),
            decreases ds.len() - i,
        {
            let d = &self.directives[i];
            assert(d@ == ds[i as int]);
            if d.handles_span(span) {
                any_applies = true;
                if d.level.admits(span.level) {
                    any_admits = true;
                }
            }
            i += 1;
        }
        if !any_applies {
            match self.default_level {
                Some(l) => l.admits(span.level),
                None => false,
            }
        } else {
            any_admits
        }
    }

    /// Whether `event` should be emitted, inside `parent_span` if there is
    /// one. With no enclosing span, no directive applies to an event and the
    /// default level decides.
    pub fn event_enabled(&self, event: &EventMetadata, parent_span: Option<&SpanMetadata>) -> (r:
        bool)
        ensures
            r == event_allowed(self@, event.fields@, event.level, span_view(parent_span)),
    {
        let ghost ds = self@.directives;
        let ghost parent = span_view(parent_span);
        let mut any_applies = false;
        let mut any_admits = false;
        let mut i: usize = 0;
        while i < self.directives.len()
            invariant
                ds == self@.directives,
                parent == span_view(parent_span),
                ds.len() == self.directives@.len(),
                i <= ds.len(),
                any_applies == exists|j: int|
                    0 <= j < i && applies_to_event(#[trigger] ds[j], event.fields@, parent),
                any_admits == exists|j: int|
                    0 <= j < i && applies_to_event(#[trigger] ds[j], event.fields@, parent)
                        && ds[j].level.lets_through(event.level),
            decreases ds.len() - i,
        {
            let d = &self.directives[i];
            assert(d@ == ds[i as int]);
            if d.handles_event(event, parent_span) {
                any_applies = true;
                if d.level.admits(event.level) {
                    any_admits = true;
                }
            }
            i += 1;
        }
        if !any_applies {
            match self.default_level {
                Some(l) => l.admits(event.level),
                None => false,
            }
        } else {
            any_admits
        }
    }
}

} // verus!
