//! The directive language: its grammar, stated over character positions, and
//! a parser that is proved to follow it.
//!
//! ```text
//! spec          := directive (',' directive)*
//! directive     := target? field_filters? ('=' level)?
//! target        := (ASCII letter | digit | ':' | '-' | '_')+
//! field_filters := '[' (field_filter (',' field_filter)*)? ']'
//! field_filter  := key ('=' | '~=' | '^=' | '$=') value
//! key           := ASCII letter+
//! value         := '"' (any character but '"')* '"' | (ASCII letter | digit)+
//! level         := ASCII letter+   (a level name, in any case)
//! ```
//!
//! A target with neither field filters nor `=level` is read as a level. A `[`
//! that does not open a list of well-formed field filters is not read, so the
//! directive ends before it.
use vstd::prelude::*;

use crate::chars::{char_is_alnum, char_is_alpha, chars_of, is_alnum, is_alpha};
use crate::filter::{
    Directive, DirectiveView, EnvFilter, EnvFilterView, FieldFilter, FieldFilterView, FilterMode,
    default_filter, directive_views, filter_of, filter_views,
};
use crate::level::{Level, level_named};

verus! {

/// An error in a filter specification.
#[derive(Debug, Clone, PartialEq, Eq)]
pub enum ParseError {
    /// A directive has `=` with no level after it.
    MissingLevel,
    /// A level was given but is no level name; it holds the text.
    InvalidLevel(String),
}

/// A parse error as it is reasoned about.
pub enum ParseErrorView {
    MissingLevel,
    InvalidLevel(Seq<char>),
}

impl View for ParseError {
    type V = ParseErrorView;

    open spec fn view(&self) -> ParseErrorView {
        match self {
            ParseError::MissingLevel => ParseErrorView::MissingLevel,
            ParseError::InvalidLevel(t) => ParseErrorView::InvalidLevel(t@),
        }
    }
}

/// A class of characters that the parser reads runs of.
#[derive(Clone, Copy)]
pub enum CharClass {
    /// ASCII letters: keys and level names.
    Alpha,
    /// ASCII letters and digits: unquoted values.
    Alnum,
    /// ASCII letters, digits, `:`, `-` and `_`: targets.
    Target,
    /// Anything but `"`: the inside of a quoted value.
    Unquoted,
}

/// `c` belongs to `class`.
pub open spec fn in_class(class: CharClass, c: char) -> bool {
    match class {
        CharClass::Alpha => is_alpha(c),
        CharClass::Alnum => is_alnum(c),
        CharClass::Target => is_alnum(c) || c == ':' || c == '-' || c == '_',
        CharClass::Unquoted => c != '"',
    }
}

/// Whether `c` belongs to `class`.
fn class_has(class: CharClass, c: char) -> (r: bool)
    ensures
        r == in_class(class, c),
{
    match class {
        CharClass::Alpha => char_is_alpha(c),
        CharClass::Alnum => char_is_alnum(c),
        CharClass::Target => char_is_alnum(c) || c == ':' || c == '-' || c == '_',
        CharClass::Unquoted => c != '"',
    }
}

/// `s` holds `c` at `i`.
pub open spec fn at(s: Seq<char>, i: int, c: char) -> bool {
    0 <= i < s.len() && s[i] == c
}

/// The end of the longest run of characters of `class` that starts at `i`.
pub open spec fn run_end(s: Seq<char>, i: int, class: CharClass) -> int
    decreases s.len() - i,
{
    if 0 <= i < s.len() && in_class(class, s[i]) {
        run_end(s, i + 1, class)
    } else {
        i
    }
}

/// A value at `i`, and the position after it.
pub open spec fn value_at(s: Seq<char>, i: int) -> Option<(Seq<char>, int)> {
    if at(s, i, '"') {
        let j = run_end(s, i + 1, CharClass::Unquoted);
        if j < s.len() {
            Some((s.subrange(i + 1, j), j + 1))
        } else {
            None
        }
    } else {
        let j = run_end(s, i, CharClass::Alnum);
        if j == i {
            None
        } else {
            Some((s.subrange(i, j), j))
        }
    }
}

/// A comparison operator at `i`, and the position after it.
pub open spec fn mode_at(s: Seq<char>, i: int) -> Option<(FilterMode, int)> {
    if at(s, i, '=') {
        Some((FilterMode::Equal, i + 1))
    } else if at(s, i, '~') && at(s, i + 1, '=') {
        Some((FilterMode::Contains, i + 2))
    } else if at(s, i, '^') && at(s, i + 1, '=') {
        Some((FilterMode::StartsWith, i + 2))
    } else if at(s, i, '$') && at(s, i + 1, '=') {
        Some((FilterMode::EndsWith, i + 2))
    } else {
        None
    }
}

/// A field filter at `i`, and the position after it; `None` if what stands
/// there lacks a key, a comparison or a value.
pub open spec fn field_filter_at(s: Seq<char>, i: int) -> Option<(FieldFilterView, int)> {
    let k = run_end(s, i, CharClass::Alpha);
    if k == i {
        None
    } else {
        match mode_at(s, k) {
            None => None,
            Some((mode, j)) => match value_at(s, j) {
                None => None,
                Some((value, e)) => Some(
                    (FieldFilterView { key: s.subrange(i, k), mode, value }, e),
                ),
            },
        }
    }
}

/// The field filters that follow a `[` which ends just before `i`, and the
/// position after them and their closing `]` (which may be missing); `None`
/// if one of them is not a well-formed field filter.
pub open spec fn field_list_at(s: Seq<char>, i: int) -> Option<(Seq<FieldFilterView>, int)>
    decreases s.len() - i,
{
    if at(s, i, ']') {
        Some((Seq::empty(), i + 1))
    } else {
        match field_filter_at(s, i) {
            None => None,
            Some((f, j)) => if at(s, j, ',') {
                proof {
                    lemma_field_filter_advances(s, i);
                }
                match field_list_at(s, j + 1) {
                    None => None,
                    Some((fs, k)) => Some((seq![f] + fs, k)),
                }
            } else if at(s, j, ']') {
                Some((seq![f], j + 1))
            } else {
                Some((seq![f], j))
            },
        }
    }
}

/// The level of a directive whose target ends at `m`, whose field filters
/// are `fields` and end at `p`, and the position after it.
pub open spec fn directive_rest(
    s: Seq<char>,
    target: Option<Seq<char>>,
    fields: Seq<FieldFilterView>,
    p: int,
) -> Result<(DirectiveView, int), ParseErrorView> {
    if at(s, p, '=') {
        let q = run_end(s, p + 1, CharClass::Alpha);
        if q == p + 1 {
            Err(ParseErrorView::MissingLevel)
        } else {
            let t = s.subrange(p + 1, q);
            match level_named(t) {
                None => Err(ParseErrorView::InvalidLevel(t)),
                Some(level) => Ok((DirectiveView { target, fields, level }, q)),
            }
        }
    } else {
        match target {
            // A bare word, with neither field filters nor `=level`, is a
            // level and not a target.
            Some(t) => if fields.len() == 0 {
                match level_named(t) {
                    None => Err(ParseErrorView::InvalidLevel(t)),
                    Some(level) => Ok((DirectiveView { target: None, fields, level }, p)),
                }
            } else {
                Ok((DirectiveView { target, fields, level: Level::Info }, p))
            },
            None => Ok((DirectiveView { target: None, fields, level: Level::Info }, p)),
        }
    }
}

/// A directive at `i`, and the position after it. A `[` that does not open
/// a list of well-formed field filters is not read: the directive ends
/// before it.
pub open spec fn directive_at(s: Seq<char>, i: int) -> Result<(DirectiveView, int), ParseErrorView> {
    let m = run_end(s, i, CharClass::Target);
    let target = if m == i {
        None
    } else {
        Some(s.subrange(i, m))
    };
    if at(s, m, '[') {
        match field_list_at(s, m + 1) {
            None => directive_rest(s, target, Seq::empty(), m),
            Some((fields, p)) => directive_rest(s, target, fields, p),
        }
    } else {
        directive_rest(s, target, Seq::empty(), m)
    }
}

/// The comma-separated directives from `i` on. Reading stops, without an
/// error, at the first directive that no comma follows.
pub open spec fn directives_at(s: Seq<char>, i: int) -> Result<Seq<DirectiveView>, ParseErrorView>
    decreases s.len() - i,
{
    if i < 0 || i >= s.len() {
        Ok(Seq::empty())
    } else {
        match directive_at(s, i) {
            Err(e) => Err(e),
            Ok((d, j)) => if at(s, j, ',') {
                proof {
                    lemma_directive_advances(s, i);
                }
                match directives_at(s, j + 1) {
                    Err(e) => Err(e),
                    Ok(ds) => Ok(seq![d] + ds),
                }
            } else {
                Ok(seq![d])
            },
        }
    }
}

/// The filter that the specification `s` describes: the default filter for
/// an empty one.
pub open spec fn parsed(s: Seq<char>) -> Result<EnvFilterView, ParseErrorView> {
    if s.len() == 0 {
        Ok(default_filter())
    } else {
        match directives_at(s, 0) {
            Err(e) => Err(e),
            Ok(ds) => Ok(filter_of(ds)),
        }
    }
}

/// A run ends within the text, holds only characters of its class, and
/// stops at the end or at a character outside the class.
pub proof fn lemma_run_end(s: Seq<char>, i: int, class: CharClass)
    requires
        0 <= i <= s.len(),
    ensures
        i <= run_end(s, i, class) <= s.len(),
        forall|k: int| i <= k < run_end(s, i, class) ==> in_class(class, #[trigger] s[k]),
        run_end(s, i, class) == s.len() || !in_class(class, s[run_end(s, i, class)]),
    decreases s.len() - i,
{
    if i < s.len() && in_class(class, s[i]) {
        lemma_run_end(s, i + 1, class);
    }
}

/// A field filter that is read takes at least one character.
pub proof fn lemma_field_filter_advances(s: Seq<char>, i: int)
    requires
        0 <= i <= s.len(),
    ensures
        field_filter_at(s, i) matches Some((_, e)) ==> i < e <= s.len(),
{
    lemma_run_end(s, i, CharClass::Alpha);
    let k = run_end(s, i, CharClass::Alpha);
    if let Some((_, j)) = mode_at(s, k) {
        if at(s, j, '"') {
            lemma_run_end(s, j + 1, CharClass::Unquoted);
        } else {
            if 0 <= j <= s.len() {
                lemma_run_end(s, j, CharClass::Alnum);
            }
        }
    }
}

/// A list of field filters that is read ends within the text.
pub proof fn lemma_field_list_advances(s: Seq<char>, i: int)
    requires
        0 <= i <= s.len(),
    ensures
        field_list_at(s, i) matches Some((_, e)) ==> i <= e <= s.len(),
    decreases s.len() - i,
{
    if !at(s, i, ']') {
        lemma_field_filter_advances(s, i);
        if let Some((_, j)) = field_filter_at(s, i) {
            if at(s, j, ',') {
                lemma_field_list_advances(s, j + 1);
            }
        }
    }
}

/// A directive that is read ends within the text, at or after its start.
pub proof fn lemma_directive_advances(s: Seq<char>, i: int)
    requires
        0 <= i <= s.len(),
    ensures
        directive_at(s, i) matches Ok((_, e)) ==> i <= e <= s.len(),
{
    lemma_run_end(s, i, CharClass::Target);
    let m = run_end(s, i, CharClass::Target);
    let p = if at(s, m, '[') {
        lemma_field_list_advances(s, m + 1);
        match field_list_at(s, m + 1) {
            Some((_, p)) => p,
            None => m,
        }
    } else {
        m
    };
    if at(s, p, '=') {
        lemma_run_end(s, p + 1, CharClass::Alpha);
    }
}

/// `r` with `pre` put before the field filters it holds, if it holds any.
pub open spec fn prepend_filters(
    pre: Seq<FieldFilterView>,
    r: Option<(Seq<FieldFilterView>, int)>,
) -> Option<(Seq<FieldFilterView>, int)> {
    match r {
        Some((fs, e)) => Some((pre + fs, e)),
        None => None,
    }
}

/// `r` with `pre` put before the directives it holds, if it holds any.
pub open spec fn prepend_directives(
    pre: Seq<DirectiveView>,
    r: Result<Seq<DirectiveView>, ParseErrorView>,
) -> Result<Seq<DirectiveView>, ParseErrorView> {
    match r {
        Ok(ds) => Ok(pre + ds),
        Err(x) => Err(x),
    }
}

/// A cursor over a filter specification.
pub struct Parser<'src> {
    slice: &'src str,
    chars: Vec<char>,
    idx: usize,
}

impl<'src> Parser<'src> {
    /// The characters of the specification.
    pub closed spec fn text(&self) -> Seq<char> {
        self.chars@
    }

    /// The position of the cursor, in characters.
    pub closed spec fn pos(&self) -> int {
        self.idx as int
    }

    /// The cursor reads the characters of its text and stands within them.
    pub closed spec fn wf(&self) -> bool {
        &&& self.chars@ == self.slice@
        &&& self.idx <= self.chars@.len()
    }

    /// The cursor stands within its text, or just after its end.
    pub open spec fn in_bounds(&self) -> bool {
        0 <= self.pos() <= self.text().len()
    }

    /// A cursor at the start of `slice`.
    pub fn new(slice: &'src str) -> (r: Parser<'src>)
        ensures
            r.wf(),
            r.in_bounds(),
            r.text() == slice@,
            r.pos() == 0,
    {
        Parser { slice, chars: chars_of(slice), idx: 0 }
    }

    /// Whether the whole specification has been read.
    pub fn eof(&self) -> (r: bool)
        requires
            self.wf(),
        ensures
            self.in_bounds(),
            r == (self.pos() >= self.text().len()),
    {
        self.idx >= self.chars.len()
    }

    /// The character at the cursor, if any.
    pub fn peek(&self) -> (r: Option<char>)
        requires
            self.wf(),
        ensures
            self.in_bounds(),
            r == (if self.pos() < self.text().len() {
                Some(self.text()[self.pos()])
            } else {
                None
            }),
    {
        if self.idx < self.chars.len() {
            Some(self.chars[self.idx])
        } else {
            None
        }
    }

    /// Steps over `c` if it is at the cursor, and says whether it was.
    pub fn check(&mut self, c: char) -> (r: bool)
        requires
            old(self).wf(),
        ensures
            final(self).wf(),
            final(self).in_bounds(),
            final(self).text() == old(self).text(),
            r == at(old(self).text(), old(self).pos(), c),
            final(self).pos() == old(self).pos() + if r {
                1int
            } else {
                0int
            },
    {
        if self.idx < self.chars.len() && self.chars[self.idx] == c {
            self.idx += 1;
            true
        } else {
            false
        }
    }

    /// Steps over `a` followed by `b` if they are at the cursor, and says
    /// whether they were.
    fn check_pair(&mut self, a: char, b: char) -> (r: bool)
        requires
            old(self).wf(),
        ensures
            final(self).wf(),
            final(self).in_bounds(),
            final(self).text() == old(self).text(),
            r == (at(old(self).text(), old(self).pos(), a) && at(
                old(self).text(),
                old(self).pos() + 1,
                b,
            )),
            final(self).pos() == old(self).pos() + if r {
                2int
            } else {
                0int
            },
    {
        if self.idx < self.chars.len() && self.chars.len() - self.idx >= 2 && self.chars[self.idx]
            == a && self.chars[self.idx + 1] == b {
            self.idx += 2;
            true
        } else {
            false
        }
    }

    /// Reads the longest run of characters of `class` at the cursor; `None`
    /// if it is empty.
    pub fn take_while(&mut self, class: CharClass) -> (r: Option<&'src str>)
        requires
            old(self).wf(),
        ensures
            final(self).wf(),
            final(self).in_bounds(),
            final(self).text() == old(self).text(),
            final(self).pos() == run_end(old(self).text(), old(self).pos(), class),
            r is None <==> final(self).pos() == old(self).pos(),
            r matches Some(t) ==> t@ == old(self).text().subrange(
                old(self).pos(),
                final(self).pos(),
            ),
    {
        let start = self.idx;
        proof {
            lemma_run_end(self.text(), start as int, class);
        }
        while self.idx < self.chars.len() && class_has(class, self.chars[self.idx])
            invariant
                self.wf(),
                self.slice == old(self).slice,
                self.chars == old(self).chars,
                start == old(self).idx,
                start <= self.idx,
                run_end(self.text(), start as int, class) == run_end(
                    self.text(),
                    self.idx as int,
                    class,
                ),
            decreases self.chars@.len() - self.idx,
        {
            self.idx += 1;
        }
        if start == self.idx {
            None
        } else {
            Some(self.slice.substring_char(start, self.idx))
        }
    }

    /// Reads a key or a level name: a run of ASCII letters.
    pub fn identifier(&mut self) -> (r: Option<&'src str>)
        requires
            old(self).wf(),
        ensures
            final(self).wf(),
            final(self).in_bounds(),
            final(self).text() == old(self).text(),
            final(self).pos() == run_end(old(self).text(), old(self).pos(), CharClass::Alpha),
            r is None <==> final(self).pos() == old(self).pos(),
            r matches Some(t) ==> t@ == old(self).text().subrange(
                old(self).pos(),
                final(self).pos(),
            ),
    {
        self.take_while(CharClass::Alpha)
    }

    /// Reads a target: a run of ASCII letters, digits, `:`, `-` and `_`.
    pub fn module_name(&mut self) -> (r: Option<&'src str>)
        requires
            old(self).wf(),
        ensures
            final(self).wf(),
            final(self).in_bounds(),
            final(self).text() == old(self).text(),
            final(self).pos() == run_end(old(self).text(), old(self).pos(), CharClass::Target),
            r is None <==> final(self).pos() == old(self).pos(),
            r matches Some(t) ==> t@ == old(self).text().subrange(
                old(self).pos(),
                final(self).pos(),
            ),
    {
        self.take_while(CharClass::Target)
    }

    /// Reads a field filter's value: what stands between two double quotes,
    /// or a run of ASCII letters and digits.
    pub fn value(&mut self) -> (r: Option<&'src str>)
        requires
            old(self).wf(),
        ensures
            final(self).wf(),
            final(self).in_bounds(),
            final(self).text() == old(self).text(),
            value_at(old(self).text(), old(self).pos()) is None ==> r is None,
            value_at(old(self).text(), old(self).pos()) matches Some((v, e)) ==> r matches Some(t)
                && t@ == v && final(self).pos() == e,
    {
        if self.check('"') {
            let start = self.idx;
            let _ = self.take_while(CharClass::Unquoted);
            proof {
                lemma_run_end(self.text(), start as int, CharClass::Unquoted);
            }
            if self.idx < self.chars.len() {
                let v = self.slice.substring_char(start, self.idx);
                self.idx += 1;
                Some(v)
            } else {
                None
            }
        } else {
            self.take_while(CharClass::Alnum)
        }
    }

    /// Reads a field filter: a key, a comparison and a value; `None` if one
    /// of them is missing.
    pub fn parse_filter(&mut self) -> (r: Option<FieldFilter>)
        requires
            old(self).wf(),
        ensures
            final(self).wf(),
            final(self).in_bounds(),
            final(self).text() == old(self).text(),
            field_filter_at(old(self).text(), old(self).pos()) is None ==> r is None,
            field_filter_at(old(self).text(), old(self).pos()) matches Some((f, e)) ==> r matches Some(
                x,
            ) && x@ == f && final(self).pos() == e,
    {
        let key = match self.identifier() {
            Some(k) => k,
            None => return None,
        };
        let mode = if self.check('=') {
            FilterMode::Equal
        } else if self.check_pair('~', '=') {
            FilterMode::Contains
        } else if self.check_pair('^', '=') {
            FilterMode::StartsWith
        } else if self.check_pair('$', '=') {
            FilterMode::EndsWith
        } else {
            return None;
        };
        match self.value() {
            Some(v) => Some(FieldFilter { key: key.to_owned(), value: v.to_owned(), mode }),
            None => None,
        }
    }

    /// Reads the field filters after a `[`, up to and including the closing
    /// `]` if there is one; `None` if one of them is not well formed.
    fn parse_field_list(&mut self) -> (r: Option<Vec<FieldFilter>>)
        requires
            old(self).wf(),
        ensures
            final(self).wf(),
            final(self).text() == old(self).text(),
            field_list_at(old(self).text(), old(self).pos()) is None ==> r is None,
            field_list_at(old(self).text(), old(self).pos()) matches Some((fs, e)) ==> r matches Some(
                x,
            ) && filter_views(x@) == fs && final(self).pos() == e,
    {
        let ghost s = self.text();
        let mut fields: Vec<FieldFilter> = Vec::new();
        assert(prepend_filters(filter_views(fields@), field_list_at(s, self.pos()))
            =~= field_list_at(s, self.pos())) by {
            assert(filter_views(fields@) =~= Seq::<FieldFilterView>::empty());
            if let Some((fs, e)) = field_list_at(s, self.pos()) {
                assert(Seq::<FieldFilterView>::empty() + fs =~= fs);
            }
        }
        loop
            invariant_except_break
                self.wf(),
                self.text() == s,
                s == old(self).text(),
                field_list_at(s, old(self).pos()) == prepend_filters(
                    filter_views(fields@),
                    field_list_at(s, self.pos()),
                ),
            ensures
                self.wf(),
                self.text() == s,
                field_list_at(s, old(self).pos()) == Some((filter_views(fields@), self.pos())),
            decreases s.len() - self.pos(),
        {
            let ghost p = self.pos();
            if self.check(']') {
                assert(filter_views(fields@) + Seq::<FieldFilterView>::empty() =~= filter_views(
                    fields@,
                ));
                break;
            }
            proof {
                lemma_field_filter_advances(s, p);
            }
            let f = match self.parse_filter() {
                Some(f) => f,
                None => return None,
            };
            let ghost fv = f@;
            let ghost pre = filter_views(fields@);
            fields.push(f);
            assert(filter_views(fields@) =~= pre.push(fv));
            if !self.check(',') {
                self.check(']');
                assert(pre + seq![fv] =~= pre.push(fv));
                break;
            }
            proof {
                if let Some((fs, e)) = field_list_at(s, self.pos()) {
                    assert(pre + (seq![fv] + fs) =~= pre.push(fv) + fs);
                }
            }
        }
        Some(fields)
    }

    /// Reads the level that ends a directive whose target is `target` and
    /// whose field filters are `fields`.
    fn parse_level(&mut self, target: Option<String>, fields: Vec<FieldFilter>) -> (r: Result<
        Directive,
        ParseError,
    >)
        requires
            old(self).wf(),
        ensures
            final(self).wf(),
            final(self).in_bounds(),
            final(self).text() == old(self).text(),
            ({
                let t = match target {
                    Some(m) => Some(m@),
                    None => None,
                };
                &&& directive_rest(old(self).text(), t, filter_views(fields@), old(self).pos())
                    matches Ok((d, e)) ==> r matches Ok(x) && x@ == d && final(self).pos() == e
                &&& directive_rest(old(self).text(), t, filter_views(fields@), old(self).pos())
                    matches Err(v) ==> r matches Err(x) && x@ == v
            }),
    {
        if self.check('=') {
            match self.identifier() {
                None => Err(ParseError::MissingLevel),
                Some(t) => match Level::from_name(t) {
                    None => Err(ParseError::InvalidLevel(t.to_owned())),
                    Some(level) => Ok(Directive { module: target, fields, level }),
                },
            }
        } else {
            match target {
                Some(t) => if fields.len() == 0 {
                    match Level::from_name(t.as_str()) {
                        None => Err(ParseError::InvalidLevel(t)),
                        Some(level) => Ok(Directive { module: None, fields, level }),
                    }
                } else {
                    Ok(Directive { module: Some(t), fields, level: Level::Info })
                },
                None => Ok(Directive { module: None, fields, level: Level::Info }),
            }
        }
    }

    /// Reads one directive: an optional target, optional field filters in
    /// brackets, and an optional `=level`. A bare word with neither field
    /// filters nor `=level` is read as a level. A `[` that does not open a
    /// list of well-formed field filters ends the directive.
    pub fn parse_directive(&mut self) -> (r: Result<Directive, ParseError>)
        requires
            old(self).wf(),
        ensures
            final(self).wf(),
            final(self).in_bounds(),
            final(self).text() == old(self).text(),
            directive_at(old(self).text(), old(self).pos()) matches Ok((d, e)) ==> r matches Ok(x)
                && x@ == d && final(self).pos() == e,
            directive_at(old(self).text(), old(self).pos()) matches Err(v) ==> r matches Err(x)
                && x@ == v,
    {
        let module = self.module_name();
        let target: Option<String> = match module {
            Some(m) => Some(m.to_owned()),
            None => None,
        };
        let bracket = self.idx;
        let fields = if self.check('[') {
            match self.parse_field_list() {
                Some(fields) => fields,
                None => {
                    self.idx = bracket;
                    let v: Vec<FieldFilter> = Vec::new();
                    assert(filter_views(v@) =~= Seq::<FieldFilterView>::empty());
                    v
                },
            }
        } else {
            let v: Vec<FieldFilter> = Vec::new();
            assert(filter_views(v@) =~= Seq::<FieldFilterView>::empty());
            v
        };
        self.parse_level(target, fields)
    }
}

/// Parses a filter specification: comma-separated directives, read until the
/// end or up to the first directive that no comma follows. The first
/// directive with neither a target nor field filters gives the default
/// level. An empty specification gives the default filter, which lets
/// errors through only.
pub fn parse(from: &str) -> (r: Result<EnvFilter, ParseError>)
    ensures
        parsed(from@) matches Ok(f) ==> r matches Ok(x) && x@ == f,
        parsed(from@) matches Err(v) ==> r matches Err(x) && x@ == v,
{
    let mut parser = Parser::new(from);
    if parser.eof() {
        return Ok(EnvFilter::default());
    }
    let ghost s = parser.text();
    let mut directives: Vec<Directive> = Vec::new();
    assert(prepend_directives(directive_views(directives@), directives_at(s, 0)) =~= directives_at(
        s,
        0,
    )) by {
        assert(directive_views(directives@) =~= Seq::<DirectiveView>::empty());
        if let Ok(ds) = directives_at(s, 0) {
            assert(Seq::<DirectiveView>::empty() + ds =~= ds);
        }
    }
    loop
        invariant_except_break
            parser.wf(),
            parser.text() == s,
            s == from@,
            directives_at(s, 0) == prepend_directives(
                directive_views(directives@),
                directives_at(s, parser.pos()),
            ),
        ensures
            directives_at(s, 0) == Ok::<_, ParseErrorView>(directive_views(directives@)),
        decreases s.len() - parser.pos(),
    {
        let ghost p = parser.pos();
        if parser.eof() {
            assert(directive_views(directives@) + Seq::<DirectiveView>::empty() =~= directive_views(
                directives@,
            ));
            break;
        }
        proof {
            lemma_directive_advances(s, p);
        }
        let d = match parser.parse_directive() {
            Ok(d) => d,
            Err(e) => return Err(e),
        };
        let ghost dv = d@;
        let ghost pre = directive_views(directives@);
        directives.push(d);
        assert(directive_views(directives@) =~= pre.push(dv));
        if !parser.check(',') {
            assert(pre + seq![dv] =~= pre.push(dv));
            break;
        }
        proof {
            if let Ok(ds) = directives_at(s, parser.pos()) {
                assert(pre + (seq![dv] + ds) =~= pre.push(dv) + ds);
            }
        }
    }
    Ok(EnvFilter::from_directives(directives))
}

} // verus!
