//! The text of a rendered span or event: indentation by nesting depth, a
//! timestamp, a coloured level tag, the name or message, the fields and the
//! place in the source.
use vstd::prelude::*;

use owo_colors::{OwoColorize, Style};

use crate::chars::occurs_at;
use crate::level::Level;
use crate::metadata::{EventMetadata, FieldSet, FieldView, Location, SpanMetadata};

verus! {

/// The terminal escape sequence that selects the graphic rendition `code`.
pub open spec fn sgr(code: Seq<char>) -> Seq<char> {
    seq!['\u{1b}', '['] + code + seq!['m']
}

/// `text` in the rendition `code`, followed by the reset sequence.
pub open spec fn styled(code: Seq<char>, text: Seq<char>) -> Seq<char> {
    sgr(code) + text + sgr(seq!['0'])
}

/// `text`, dimmed.
pub open spec fn dim(text: Seq<char>) -> Seq<char> {
    styled(seq!['2'], text)
}

/// The colour code of a level: cyan, blue, green, yellow and red.
pub open spec fn level_color(level: Level) -> Seq<char> {
    match level {
        Level::Trace => seq!['3', '6'],
        Level::Debug => seq!['3', '4'],
        Level::Info => seq!['3', '2'],
        Level::Warn => seq!['3', '3'],
        Level::Error => seq!['3', '1'],
    }
}

/// `text` in the colour of `level`.
pub open spec fn level_styled(level: Level, text: Seq<char>) -> Seq<char> {
    styled(level_color(level), text)
}

/// The tag that names a level in a record.
pub open spec fn level_label(level: Level) -> Seq<char> {
    match level {
        Level::Trace => seq!['T', 'R', 'A', 'C', 'E'],
        Level::Debug => seq!['D', 'E', 'B', 'U', 'G'],
        Level::Info => seq!['I', 'N', 'F', 'O'],
        Level::Warn => seq!['W', 'A', 'R', 'N'],
        Level::Error => seq!['E', 'R', 'R', 'O', 'R'],
    }
}

/// `n` spaces.
pub open spec fn spaces(n: nat) -> Seq<char> {
    Seq::new(n, |_i: int| ' ')
}

/// The indentation of a record at nesting depth `depth`.
pub open spec fn indentation(depth: nat) -> Seq<char> {
    spaces(2 * depth)
}

/// The indentation of the lines below a record's first line.
pub open spec fn gutter(depth: nat) -> Seq<char> {
    indentation(depth) + spaces(4)
}

/// The decimal digit for `d`.
pub open spec fn digit(d: nat) -> char {
    if d == 0 {
        '0'
    } else if d == 1 {
        '1'
    } else if d == 2 {
        '2'
    } else if d == 3 {
        '3'
    } else if d == 4 {
        '4'
    } else if d == 5 {
        '5'
    } else if d == 6 {
        '6'
    } else if d == 7 {
        '7'
    } else if d == 8 {
        '8'
    } else {
        '9'
    }
}

/// `n` in decimal, without leading zeros.
pub open spec fn decimal(n: nat) -> Seq<char>
    decreases n,
{
    if n < 10 {
        seq![digit(n)]
    } else {
        decimal(n / 10).push(digit(n % 10))
    }
}

/// One field as a record shows it: `key: value`, in the level's colour.
pub open spec fn field_entry(f: FieldView, level: Level) -> Seq<char> {
    level_styled(level, f.0 + seq![':', ' '] + f.1)
}

/// The fields, each as `field_entry` shows it, in order, separated by dimmed
/// commas.
pub open spec fn fields_text(fs: Seq<FieldView>, level: Level) -> Seq<char>
    decreases fs.len(),
{
    if fs.len() == 0 {
        Seq::empty()
    } else if fs.len() == 1 {
        field_entry(fs[0], level)
    } else {
        fields_text(fs.drop_last(), level) + dim(seq![',', ' ']) + field_entry(fs.last(), level)
    }
}

/// The line that lists the fields; none if there are no fields.
pub open spec fn fields_line(depth: nat, fs: Seq<FieldView>, level: Level) -> Seq<char> {
    if fs.len() == 0 {
        Seq::empty()
    } else {
        gutter(depth) + dim(seq!['w', 'i', 't', 'h']) + seq![' '] + fields_text(fs, level) + seq![
            '\n',
        ]
    }
}

/// The first line of a record.
pub open spec fn header_line(depth: nat, timestamp: Seq<char>, level: Level, title: Seq<char>) -> Seq<
    char,
> {
    indentation(depth) + dim(timestamp) + seq![' '] + level_styled(level, level_label(level)) + seq![
        ' ',
        ' ',
    ] + title + seq!['\n']
}

/// The line that gives the place in the source, and the blank line that ends
/// a record.
pub open spec fn location_line(depth: nat, file: Seq<char>, line: nat) -> Seq<char> {
    gutter(depth) + dim(seq!['a', 't']) + seq![' '] + file + seq![':'] + decimal(line) + seq![
        '\n',
        '\n',
    ]
}

/// A whole record.
pub open spec fn record_text(
    depth: nat,
    timestamp: Seq<char>,
    level: Level,
    title: Seq<char>,
    fs: Seq<FieldView>,
    file: Seq<char>,
    line: nat,
) -> Seq<char> {
    header_line(depth, timestamp, level, title) + fields_line(depth, fs, level) + location_line(
        depth,
        file,
        line,
    )
}

/// The record of a span at nesting depth `depth`, stamped `timestamp`.
pub open spec fn span_text(span: &SpanMetadata, depth: nat, timestamp: Seq<char>) -> Seq<char> {
    record_text(
        depth,
        timestamp,
        span.level,
        span.name@,
        span.fields@,
        span.location.file@,
        span.location.line as nat,
    )
}

/// The record of an event at nesting depth `depth`, stamped `timestamp`.
pub open spec fn event_text(event: &EventMetadata, depth: nat, timestamp: Seq<char>) -> Seq<char> {
    record_text(
        depth,
        timestamp,
        event.level,
        event.message@,
        event.fields@,
        event.location.file@,
        event.location.line as nat,
    )
}

/// Relies on owo_colors's `Style::style` with `Style::new().cyan()`, whose
/// `Display` writes `ESC[36m`, the text, then `ESC[0m`.
#[verifier::external_body]
fn paint_cyan(text: &str) -> (r: String)
    ensures
        r@ == styled(seq!['3', '6'], text@),
{
    format!("{}", Style::new().cyan().style(text))
}

/// Relies on owo_colors's `Style::style` with `Style::new().blue()`, whose
/// `Display` writes `ESC[34m`, the text, then `ESC[0m`.
#[verifier::external_body]
fn paint_blue(text: &str) -> (r: String)
    ensures
        r@ == styled(seq!['3', '4'], text@),
{
    format!("{}", Style::new().blue().style(text))
}

/// Relies on owo_colors's `Style::style` with `Style::new().green()`, whose
/// `Display` writes `ESC[32m`, the text, then `ESC[0m`.
#[verifier::external_body]
fn paint_green(text: &str) -> (r: String)
    ensures
        r@ == styled(seq!['3', '2'], text@),
{
    format!("{}", Style::new().green().style(text))
}

/// Relies on owo_colors's `Style::style` with `Style::new().yellow()`, whose
/// `Display` writes `ESC[33m`, the text, then `ESC[0m`.
#[verifier::external_body]
fn paint_yellow(text: &str) -> (r: String)
    ensures
        r@ == styled(seq!['3', '3'], text@),
{
    format!("{}", Style::new().yellow().style(text))
}

/// Relies on owo_colors's `Style::style` with `Style::new().red()`, whose
/// `Display` writes `ESC[31m`, the text, then `ESC[0m`.
#[verifier::external_body]
fn paint_red(text: &str) -> (r: String)
    ensures
        r@ == styled(seq!['3', '1'], text@),
{
    format!("{}", Style::new().red().style(text))
}

/// Relies on owo_colors's `OwoColorize::dimmed`, whose `Display` writes
/// `ESC[2m`, the text, then `ESC[0m`.
#[verifier::external_body]
fn dimmed(text: &str) -> (r: String)
    ensures
        r@ == dim(text@),
{
    format!("{}", text.dimmed())
}

/// `value` in the colour of `level`: cyan for trace, blue for debug, green
/// for info, yellow for warn and red for error.
pub fn with_level_styling(level: Level, value: &str) -> (r: String)
    ensures
        r@ == level_styled(level, value@),
{
    match level {
        Level::Trace => paint_cyan(value),
        Level::Debug => paint_blue(value),
        Level::Info => paint_green(value),
        Level::Warn => paint_yellow(value),
        Level::Error => paint_red(value),
    }
}

/// The tag of `level`.
fn level_tag(level: Level) -> (r: &'static str)
    ensures
        r@ == level_label(level),
{
    match level {
        Level::Trace => {
            proof {
                reveal_strlit("TRACE");
            }
            "TRACE"
        },
        Level::Debug => {
            proof {
                reveal_strlit("DEBUG");
            }
            "DEBUG"
        },
        Level::Info => {
            proof {
                reveal_strlit("INFO");
            }
            "INFO"
        },
        Level::Warn => {
            proof {
                reveal_strlit("WARN");
            }
            "WARN"
        },
        Level::Error => {
            proof {
                reveal_strlit("ERROR");
            }
            "ERROR"
        },
    }
}

/// The decimal digit for `d`.
fn digit_text(d: u32) -> (r: &'static str)
    requires
        d < 10,
    ensures
        r@ == seq![digit(d as nat)],
{
    proof {
        reveal_strlit("0");
        reveal_strlit("1");
        reveal_strlit("2");
        reveal_strlit("3");
        reveal_strlit("4");
        reveal_strlit("5");
        reveal_strlit("6");
        reveal_strlit("7");
        reveal_strlit("8");
        reveal_strlit("9");
    }
    if d == 0 {
        "0"
    } else if d == 1 {
        "1"
    } else if d == 2 {
        "2"
    } else if d == 3 {
        "3"
    } else if d == 4 {
        "4"
    } else if d == 5 {
        "5"
    } else if d == 6 {
        "6"
    } else if d == 7 {
        "7"
    } else if d == 8 {
        "8"
    } else {
        "9"
    }
}

/// Appends `n` in decimal.
fn push_decimal(out: &mut String, n: u32)
    ensures
        final(out)@ == old(out)@ + decimal(n as nat),
    decreases n,
{
    if n >= 10 {
        push_decimal(out, n / 10);
    }
    out.append(digit_text(n % 10));
    assert(decimal(n as nat) == if n < 10 {
        seq![digit(n as nat)]
    } else {
        decimal((n / 10) as nat).push(digit((n % 10) as nat))
    });
    if n < 10 {
        assert(n % 10 == n);
    }
}

/// Appends the indentation of nesting depth `depth`.
fn push_indentation(out: &mut String, depth: usize)
    ensures
        final(out)@ == old(out)@ + indentation(depth as nat),
{
    proof {
        reveal_strlit("  ");
        assert("  "@ =~= seq![' ', ' ']);
    }
    let mut i: usize = 0;
    while i < depth
        invariant
            i <= depth,
            out@ == old(out)@ + spaces(2 * (i as nat)),
            "  "@ == seq![' ', ' '],
        decreases depth - i,
    {
        out.append("  ");
        assert(spaces(2 * (i as nat)) + seq![' ', ' '] =~= spaces(2 * ((i + 1) as nat)));
        assert(old(out)@ + spaces(2 * (i as nat)) + seq![' ', ' '] =~= old(out)@ + spaces(
            2 * ((i + 1) as nat),
        ));
        i += 1;
    }
}

/// Appends the indentation of the lines below a record's first line.
fn push_gutter(out: &mut String, depth: usize)
    ensures
        final(out)@ == old(out)@ + gutter(depth as nat),
{
    push_indentation(out, depth);
    proof {
        reveal_strlit("    ");
        assert("    "@ =~= seq![' ', ' ', ' ', ' ']);
    }
    out.append("    ");
    assert(spaces(4) =~= seq![' ', ' ', ' ', ' ']);
    assert(old(out)@ + indentation(depth as nat) + spaces(4) =~= old(out)@ + gutter(depth as nat));
}

/// The list of the fields, as `fields_text` gives it.
pub fn render_fields(fields: &FieldSet, level: Level) -> (r: String)
    ensures
        r@ == fields_text(fields@, level),
{
    proof {
        reveal_strlit(", ");
        reveal_strlit(": ");
        assert(", "@ =~= seq![',', ' ']);
        assert(": "@ =~= seq![':', ' ']);
    }
    let ghost fs = fields@;
    let mut out = String::new();
    let n = fields.len();
    let mut i: usize = 0;
    assert(fs.subrange(0, 0) =~= Seq::<FieldView>::empty());
    while i < n
        invariant
            fs == fields@,
            n == fs.len(),
            i <= n,
            out@ == fields_text(fs.subrange(0, i as int), level),
            ", "@ == seq![',', ' '],
            ": "@ == seq![':', ' '],
        decreases n - i,
    {
        let ghost before = out@;
        if i > 0 {
            let sep = dimmed(", ");
            out.append(sep.as_str());
        }
        let mut entry = String::new();
        entry.append(fields.key(i));
        entry.append(": ");
        entry.append(fields.value(i));
        let painted = with_level_styling(level, entry.as_str());
        out.append(painted.as_str());
        proof {
            let sub = fs.subrange(0, i + 1);
            assert(sub.drop_last() =~= fs.subrange(0, i as int));
            assert(sub.last() == fs[i as int]);
            assert(entry@ =~= fs[i as int].0 + seq![':', ' '] + fs[i as int].1);
            if i > 0 {
                assert(out@ =~= before + dim(seq![',', ' ']) + field_entry(fs[i as int], level));
            } else {
                assert(fs.subrange(0, 0) =~= Seq::<FieldView>::empty());
                assert(out@ =~= field_entry(fs[i as int], level));
            }
        }
        i += 1;
    }
    assert(fs.subrange(0, n as int) =~= fs);
    out
}

/// A whole record: its first line, its fields and the place in the source.
pub fn render_record(
    depth: usize,
    timestamp: &str,
    level: Level,
    title: &str,
    fields: &FieldSet,
    location: &Location,
) -> (r: String)
    ensures
        r@ == record_text(
            depth as nat,
            timestamp@,
            level,
            title@,
            fields@,
            location.file@,
            location.line as nat,
        ),
{
    proof {
        reveal_strlit(" ");
        reveal_strlit("  ");
        reveal_strlit("\n");
        reveal_strlit("with");
        reveal_strlit("at");
        reveal_strlit(":");
        reveal_strlit("\n\n");
        assert(" "@ =~= seq![' ']);
        assert("  "@ =~= seq![' ', ' ']);
        assert("\n"@ =~= seq!['\n']);
        assert("with"@ =~= seq!['w', 'i', 't', 'h']);
        assert("at"@ =~= seq!['a', 't']);
        assert(":"@ =~= seq![':']);
        assert("\n\n"@ =~= seq!['\n', '\n']);
    }
    let mut out = String::new();
    push_indentation(&mut out, depth);
    out.append(dimmed(timestamp).as_str());
    out.append(" ");
    out.append(with_level_styling(level, level_tag(level)).as_str());
    out.append("  ");
    out.append(title);
    out.append("\n");
    let ghost header = out@;
    assert(header =~= header_line(depth as nat, timestamp@, level, title@));
    if !fields.is_empty() {
        push_gutter(&mut out, depth);
        out.append(dimmed("with").as_str());
        out.append(" ");
        out.append(render_fields(fields, level).as_str());
        out.append("\n");
    }
    let ghost with_fields = out@;
    assert(with_fields =~= header + fields_line(depth as nat, fields@, level));
    push_gutter(&mut out, depth);
    out.append(dimmed("at").as_str());
    out.append(" ");
    out.append(location.file.as_str());
    out.append(":");
    push_decimal(&mut out, location.line);
    out.append("\n\n");
    assert(out@ =~= with_fields + location_line(
        depth as nat,
        location.file@,
        location.line as nat,
    ));
    out
}

impl SpanMetadata {
    /// The span's record at nesting depth `depth`, stamped `timestamp`.
    pub fn render(&self, depth: usize, timestamp: &str) -> (r: String)
        ensures
            r@ == span_text(self, depth as nat, timestamp@),
    {
        render_record(depth, timestamp, self.level, self.name.as_str(), &self.fields, &self.location)
    }
}

impl EventMetadata {
    /// The event's record at nesting depth `depth`, stamped `timestamp`.
    pub fn render(&self, depth: usize, timestamp: &str) -> (r: String)
        ensures
            r@ == event_text(self, depth as nat, timestamp@),
    {
        render_record(
            depth,
            timestamp,
            self.level,
            self.message.as_str(),
            &self.fields,
            &self.location,
        )
    }
}

/// Where the entry of field `i` starts in `fields_text(fs, level)`.
pub open spec fn entry_offset(fs: Seq<FieldView>, level: Level, i: int) -> int
    decreases i,
{
    if i <= 0 {
        0
    } else {
        entry_offset(fs, level, i - 1) + field_entry(fs[i - 1], level).len() + dim(
            seq![',', ' '],
        ).len()
    }
}

proof fn lemma_entry_offset_prefix(fs: Seq<FieldView>, level: Level, i: int)
    requires
        0 <= i < fs.len(),
    ensures
        entry_offset(fs.drop_last(), level, i) == entry_offset(fs, level, i),
    decreases i,
{
    if i > 0 {
        lemma_entry_offset_prefix(fs, level, i - 1);
    }
}

proof fn lemma_entry_offset_grows(fs: Seq<FieldView>, level: Level, i: int, j: int)
    requires
        0 <= i < j,
    ensures
        entry_offset(fs, level, i) + field_entry(fs[i], level).len() <= entry_offset(fs, level, j),
    decreases j - i,
{
    if j > i + 1 {
        lemma_entry_offset_grows(fs, level, i, j - 1);
    }
}

proof fn lemma_fields_text_len(fs: Seq<FieldView>, level: Level)
    requires
        fs.len() >= 1,
    ensures
        fields_text(fs, level).len() + dim(seq![',', ' ']).len() == entry_offset(
            fs,
            level,
            fs.len() as int,
        ),
    decreases fs.len(),
{
    let n = fs.len() as int;
    assert(entry_offset(fs, level, 0) == 0);
    assert(entry_offset(fs, level, n) == entry_offset(fs, level, n - 1) + field_entry(
        fs[n - 1],
        level,
    ).len() + dim(seq![',', ' ']).len());
    if fs.len() > 1 {
        lemma_fields_text_len(fs.drop_last(), level);
        lemma_entry_offset_prefix(fs, level, n - 1);
        assert(fs.drop_last().len() == n - 1);
    }
}

/// Each field's entry stands in the list of fields at its offset.
proof fn lemma_fields_text_entries(fs: Seq<FieldView>, level: Level)
    ensures
        forall|i: int|
            0 <= i < fs.len() ==> occurs_at(
                fields_text(fs, level),
                #[trigger] field_entry(fs[i], level),
                entry_offset(fs, level, i),
            ),
    decreases fs.len(),
{
    if fs.len() == 1 {
        assert(fields_text(fs, level).subrange(0, field_entry(fs[0], level).len() as int)
            =~= field_entry(fs[0], level));
    } else if fs.len() > 1 {
        let rest = fs.drop_last();
        let head = fields_text(rest, level);
        let sep = dim(seq![',', ' ']);
        let whole = fields_text(fs, level);
        lemma_fields_text_entries(rest, level);
        lemma_fields_text_len(rest, level);
        assert(whole == head + sep + field_entry(fs.last(), level));
        assert forall|i: int| 0 <= i < fs.len() implies occurs_at(
            whole,
            #[trigger] field_entry(fs[i], level),
            entry_offset(fs, level, i),
        ) by {
            let e = field_entry(fs[i], level);
            let k = entry_offset(fs, level, i);
            if i < fs.len() - 1 {
                lemma_entry_offset_prefix(fs, level, i);
                assert(rest[i] == fs[i]);
                assert(occurs_at(head, e, k));
                assert(whole.subrange(k, k + e.len()) =~= head.subrange(k, k + e.len()));
            } else {
                lemma_entry_offset_prefix(fs, level, fs.len() - 1);
                assert(k == head.len() + sep.len());
                assert(whole.subrange(k, k + e.len()) =~= e);
            }
        }
    }
}

/// Where the entry of field `i` of `span` starts in its record.
pub open spec fn field_position(span: &SpanMetadata, depth: nat, timestamp: Seq<char>, i: int) -> int {
    header_line(depth, timestamp, span.level, span.name@).len() + gutter(depth).len() + dim(
        seq!['w', 'i', 't', 'h'],
    ).len() + 1 + entry_offset(span.fields@, span.level, i)
}

/// Every field of a span, as added, stands in the span's record as
/// `key: value`, in the order in which the fields were added; a key added
/// twice gives two entries.
pub proof fn lemma_record_lists_fields_in_order(
    span: &SpanMetadata,
    depth: nat,
    timestamp: Seq<char>,
)
    ensures
        forall|i: int|
            0 <= i < span.fields@.len() ==> occurs_at(
                span_text(span, depth, timestamp),
                #[trigger] field_entry(span.fields@[i], span.level),
                field_position(span, depth, timestamp, i),
            ),
        forall|i: int, j: int|
            #![trigger field_position(span, depth, timestamp, i), field_position(span, depth, timestamp, j)]
            0 <= i < j < span.fields@.len() ==> field_position(span, depth, timestamp, i)
                + field_entry(span.fields@[i], span.level).len() <= field_position(
                span,
                depth,
                timestamp,
                j,
            ),
{
    let fs = span.fields@;
    let level = span.level;
    if fs.len() > 0 {
        lemma_fields_text_entries(fs, level);
        let header = header_line(depth, timestamp, level, span.name@);
        let lead = gutter(depth) + dim(seq!['w', 'i', 't', 'h']) + seq![' '];
        let list = fields_text(fs, level);
        let text = span_text(span, depth, timestamp);
        let tail = seq!['\n'] + location_line(depth, span.location.file@, span.location.line as nat);
        assert(text =~= header + lead + list + tail);
        assert forall|i: int| 0 <= i < fs.len() implies occurs_at(
            text,
            #[trigger] field_entry(fs[i], level),
            field_position(span, depth, timestamp, i),
        ) by {
            let e = field_entry(fs[i], level);
            let k = entry_offset(fs, level, i);
            assert(occurs_at(list, e, k));
            let p = field_position(span, depth, timestamp, i);
            assert(p == header.len() + lead.len() + k);
            assert(text.subrange(p, p + e.len()) =~= list.subrange(k, k + e.len()));
        }
    }
    assert forall|i: int, j: int|
        #![trigger field_position(span, depth, timestamp, i), field_position(span, depth, timestamp, j)]
        0 <= i < j < fs.len() implies field_position(span, depth, timestamp, i) + field_entry(
            fs[i],
            level,
        ).len() <= field_position(span, depth, timestamp, j) by {
        lemma_entry_offset_grows(fs, level, i, j);
    }
}

} // verus!
