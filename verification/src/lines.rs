//! The line mapper: a best-effort pass that gives violations the line of the
//! source text on which their field is named.
//!
//! The pass is no parser. It reads each line for the key that it seems to
//! declare and gives a violation the first line that declares the last field of
//! its path. A field name that occurs at several depths gets the line of its
//! first occurrence, which may be the wrong one.

use crate::config::ConfigFormat;
use crate::text::chars_of;
use crate::validation::{views, ErrorView, ValidationError};
use vstd::prelude::*;

verus! {

/// The characters that count as white space: those with the Unicode property
/// `White_Space`.
pub open spec fn is_space(c: char) -> bool {
    let code = c as u32;
    ||| 0x09 <= code <= 0x0D
    ||| code == 0x20
    ||| code == 0x85
    ||| code == 0xA0
    ||| code == 0x1680
    ||| 0x2000 <= code <= 0x200A
    ||| code == 0x2028
    ||| code == 0x2029
    ||| code == 0x202F
    ||| code == 0x205F
    ||| code == 0x3000
}

/// What is stripped from the ends of a text.
#[derive(Debug, Clone, Copy, PartialEq, Eq, Structural)]
pub enum Strip {
    /// White space.
    Spaces,
    /// Double quotes.
    Quotes,
}

/// Whether a character is one that is stripped.
pub open spec fn strips(kind: Strip, c: char) -> bool {
    match kind {
        Strip::Spaces => is_space(c),
        Strip::Quotes => c == '"',
    }
}

/// The first position at or after `from` that holds a character that is not
/// stripped, or the length.
pub open spec fn leading(kind: Strip, s: Seq<char>, from: nat) -> nat
    decreases s.len() - from,
{
    if from < s.len() && strips(kind, s[from as int]) {
        leading(kind, s, from + 1)
    } else {
        from
    }
}

/// The end of the text between `low` and `to` once the stripped characters at
/// its end are gone.
pub open spec fn trailing(kind: Strip, s: Seq<char>, low: nat, to: nat) -> nat
    decreases to,
{
    if low < to <= s.len() && strips(kind, s[to - 1]) {
        trailing(kind, s, low, (to - 1) as nat)
    } else {
        to
    }
}

/// The text without the stripped characters at its two ends.
pub open spec fn stripped(kind: Strip, s: Seq<char>) -> Seq<char> {
    let from = leading(kind, s, 0);
    s.subrange(from as int, trailing(kind, s, from, s.len()) as int)
}

/// The first position at or after `from` that holds `c`, or the length.
pub open spec fn position_of(s: Seq<char>, c: char, from: nat) -> nat
    decreases s.len() - from,
{
    if from < s.len() && s[from as int] != c {
        position_of(s, c, from + 1)
    } else {
        from
    }
}

/// Whether the text holds the character.
pub open spec fn holds(s: Seq<char>, c: char) -> bool {
    position_of(s, c, 0) < s.len()
}

/// The text before the first `c`; the whole text where it holds none.
pub open spec fn before(s: Seq<char>, c: char) -> Seq<char> {
    s.subrange(0, position_of(s, c, 0) as int)
}

/// The position behind the last `c` before `to`, or 0 where there is none.
pub open spec fn behind_last(s: Seq<char>, c: char, to: nat) -> nat
    decreases to,
{
    if 0 < to <= s.len() && s[to - 1] != c {
        behind_last(s, c, (to - 1) as nat)
    } else {
        to
    }
}

/// The text behind the last `c`; the whole text where it holds none.
pub open spec fn after_last(s: Seq<char>, c: char) -> Seq<char> {
    s.subrange(behind_last(s, c, s.len()) as int, s.len() as int)
}

/// The lines of a text from a position on: the pieces between line feeds.
pub open spec fn lines_from(s: Seq<char>, from: nat) -> Seq<Seq<char>>
    decreases s.len() - from,
{
    let end = position_of(s, '\n', from);
    if from > s.len() || end < from {
        Seq::empty()
    } else if end >= s.len() {
        seq![s.subrange(from as int, s.len() as int)]
    } else {
        seq![s.subrange(from as int, end as int)] + lines_from(s, end + 1)
    }
}

/// Whether a line of a document seems to declare the key `name`.
///
/// In YAML the key is the text before the first colon, without the white space
/// around it; it counts unless it is empty or starts a comment. A key that ends
/// in `]` also declares the text before its first `[`. In JSON a line counts
/// only if it holds a double quote and a colon; the key is the text before the
/// first colon without the white space and the double quotes around it.
pub open spec fn declares(line: Seq<char>, format: ConfigFormat, name: Seq<char>) -> bool {
    let text = stripped(Strip::Spaces, line);
    match format {
        ConfigFormat::Yaml => {
            let key = stripped(Strip::Spaces, before(text, ':'));
            key.len() > 0 && key[0] != '#' && (name == key || (key.last() == ']' && name
                == before(key, '[')))
        },
        ConfigFormat::Json => {
            let key = stripped(Strip::Quotes, stripped(Strip::Spaces, before(text, ':')));
            holds(text, '"') && holds(text, ':') && key.len() > 0 && name == key
        },
    }
}

/// The position of the first line at or after `from` that declares `name`, or
/// the number of lines.
pub open spec fn first_declaring(
    lines: Seq<Seq<char>>,
    format: ConfigFormat,
    name: Seq<char>,
    from: nat,
) -> nat
    decreases lines.len() - from,
{
    if from < lines.len() && !declares(lines[from as int], format, name) {
        first_declaring(lines, format, name, from + 1)
    } else {
        from
    }
}

/// The name by which a violation is looked up: the last field of its path,
/// without an index behind it.
pub open spec fn component(path: Seq<char>) -> Seq<char> {
    before(after_last(path, '.'), '[')
}

/// The number, counted from 1, of the first line of the text that declares the
/// last field of the path.
pub open spec fn line_of(content: Seq<char>, format: ConfigFormat, path: Seq<char>) -> Option<
    usize,
> {
    let lines = lines_from(content, 0);
    let at = first_declaring(lines, format, component(path), 0);
    if at < lines.len() {
        Some((at + 1) as usize)
    } else {
        None
    }
}

/// A violation with the line that the text gives it; unchanged where the text
/// gives none.
pub open spec fn annotated(e: ErrorView, content: Seq<char>, format: ConfigFormat) -> ErrorView {
    match line_of(content, format, e.path) {
        Some(line) => ErrorView { line: Some(line), ..e },
        None => e,
    }
}

/// Whether a character is white space.
pub fn char_is_space(c: char) -> (r: bool)
    ensures
        r == is_space(c),
{
    let code = c as u32;
    (0x09 <= code && code <= 0x0D) || code == 0x20 || code == 0x85 || code == 0xA0 || code
        == 0x1680 || (0x2000 <= code && code <= 0x200A) || code == 0x2028 || code == 0x2029
        || code == 0x202F || code == 0x205F || code == 0x3000
}

/// Whether a character is one that is stripped.
fn is_stripped(kind: Strip, c: char) -> (r: bool)
    ensures
        r == strips(kind, c),
{
    match kind {
        Strip::Spaces => char_is_space(c),
        Strip::Quotes => c == '"',
    }
}

/// The characters between two positions.
fn piece(s: &Vec<char>, from: usize, to: usize) -> (r: Vec<char>)
    requires
        from <= to <= s.len(),
    ensures
        r@ == s@.subrange(from as int, to as int),
{
    let mut r: Vec<char> = Vec::new();
    let mut i = from;
    while i < to
        invariant
            from <= i <= to <= s.len(),
            r@ == s@.subrange(from as int, i as int),
        decreases to - i,
    {
        r.push(s[i]);
        i = i + 1;
        assert(r@ =~= s@.subrange(from as int, i as int));
    }
    r
}

/// The text without the stripped characters at its two ends.
pub fn strip(kind: Strip, s: &Vec<char>) -> (r: Vec<char>)
    ensures
        r@ == stripped(kind, s@),
{
    let mut from: usize = 0;
    while from < s.len() && is_stripped(kind, s[from])
        invariant
            from <= s.len(),
            leading(kind, s@, 0) == leading(kind, s@, from as nat),
        decreases s.len() - from,
    {
        from = from + 1;
    }
    let mut to: usize = s.len();
    while from < to && is_stripped(kind, s[to - 1])
        invariant
            from <= to <= s.len(),
            trailing(kind, s@, from as nat, s@.len()) == trailing(kind, s@, from as nat, to as nat),
        decreases to,
    {
        to = to - 1;
    }
    piece(s, from, to)
}

/// The first position at or after `from` that holds `c`, or the length.
pub fn find_char(s: &Vec<char>, c: char, from: usize) -> (r: usize)
    requires
        from <= s.len(),
    ensures
        r == position_of(s@, c, from as nat),
        from <= r <= s.len(),
{
    let mut i = from;
    while i < s.len() && s[i] != c
        invariant
            from <= i <= s.len(),
            position_of(s@, c, from as nat) == position_of(s@, c, i as nat),
        decreases s.len() - i,
    {
        i = i + 1;
    }
    i
}

/// The text before the first `c`.
pub fn text_before(s: &Vec<char>, c: char) -> (r: Vec<char>)
    ensures
        r@ == before(s@, c),
{
    let end = find_char(s, c, 0);
    piece(s, 0, end)
}

/// The text behind the last `c`.
pub fn text_after_last(s: &Vec<char>, c: char) -> (r: Vec<char>)
    ensures
        r@ == after_last(s@, c),
{
    let mut from: usize = s.len();
    while from > 0 && s[from - 1] != c
        invariant
            from <= s.len(),
            behind_last(s@, c, s@.len()) == behind_last(s@, c, from as nat),
        decreases from,
    {
        from = from - 1;
    }
    piece(s, from, s.len())
}

/// Whether two texts hold the same characters.
pub fn same_chars(a: &Vec<char>, b: &Vec<char>) -> (r: bool)
    ensures
        r == (a@ == b@),
{
    if a.len() != b.len() {
        return false;
    }
    let mut i: usize = 0;
    while i < a.len()
        invariant
            i <= a.len(),
            a.len() == b.len(),
            forall|j: int| 0 <= j < i ==> a@[j] == b@[j],
        decreases a.len() - i,
    {
        if a[i] != b[i] {
            return false;
        }
        i = i + 1;
    }
    assert(a@ =~= b@);
    true
}

/// Whether a line seems to declare the key `name`.
pub fn line_declares(line: &Vec<char>, format: ConfigFormat, name: &Vec<char>) -> (r: bool)
    ensures
        r == declares(line@, format, name@),
{
    let text = strip(Strip::Spaces, line);
    let head = text_before(&text, ':');
    let key = strip(Strip::Spaces, &head);
    match format {
        ConfigFormat::Yaml => {
            if key.len() == 0 || key[0] == '#' {
                return false;
            }
            if same_chars(name, &key) {
                return true;
            }
            if key[key.len() - 1] == ']' {
                let base = text_before(&key, '[');
                same_chars(name, &base)
            } else {
                false
            }
        },
        ConfigFormat::Json => {
            let quote = find_char(&text, '"', 0);
            let colon = find_char(&text, ':', 0);
            if quote >= text.len() || colon >= text.len() {
                return false;
            }
            let bare = strip(Strip::Quotes, &key);
            bare.len() > 0 && same_chars(name, &bare)
        },
    }
}

/// The lines of a text.
pub fn split_lines(s: &Vec<char>) -> (lines: Vec<Vec<char>>)
    ensures
        lines@.len() == lines_from(s@, 0).len(),
        forall|i: int| 0 <= i < lines@.len() ==> (#[trigger] lines@[i])@ == lines_from(s@, 0)[i],
{
    let mut lines: Vec<Vec<char>> = Vec::new();
    let mut from: usize = 0;
    let ghost mut built: Seq<Seq<char>> = Seq::empty();
    loop
        invariant_except_break
            lines_from(s@, 0) == built + lines_from(s@, from as nat),
        invariant
            from <= s.len(),
            lines@.len() == built.len(),
            forall|i: int| 0 <= i < lines@.len() ==> (#[trigger] lines@[i])@ == built[i],
        ensures
            lines_from(s@, 0) == built,
        decreases s.len() - from,
    {
        let end = find_char(s, '\n', from);
        let line = piece(s, from, end);
        lines.push(line);
        if end >= s.len() {
            proof {
                built = built.push(s@.subrange(from as int, s@.len() as int));
                assert(lines_from(s@, 0) =~= built);
            }
            break ;
        }
        proof {
            let next = built.push(s@.subrange(from as int, end as int));
            assert(built + lines_from(s@, from as nat) =~= next + lines_from(s@, (end + 1) as nat));
            built = next;
        }
        from = end + 1;
    }
    lines
}

/// The number, counted from 1, of the first line that declares the last field
/// of a path.
pub fn find_line(lines: &Vec<Vec<char>>, format: ConfigFormat, path: &str) -> (r: Option<usize>)
    ensures
        ({
            let texts = lines@.map_values(|l: Vec<char>| l@);
            let at = first_declaring(texts, format, component(path@), 0);
            r == if at < texts.len() {
                Some((at + 1) as usize)
            } else {
                None
            }
        }),
{
    let whole = chars_of(path);
    let last = text_after_last(&whole, '.');
    let name = text_before(&last, '[');
    let ghost texts = lines@.map_values(|l: Vec<char>| l@);
    let mut i: usize = 0;
    while i < lines.len()
        invariant
            i <= lines.len(),
            texts == lines@.map_values(|l: Vec<char>| l@),
            name@ == component(path@),
            first_declaring(texts, format, name@, 0) == first_declaring(
                texts,
                format,
                name@,
                i as nat,
            ),
        decreases lines.len() - i,
    {
        if line_declares(&lines[i], format, &name) {
            return Some(i + 1);
        }
        i = i + 1;
    }
    None
}

/// The violations with the lines that the text gives them.
pub open spec fn annotated_all(
    errors: Seq<ErrorView>,
    content: Seq<char>,
    format: ConfigFormat,
) -> Seq<ErrorView> {
    errors.map_values(|e: ErrorView| annotated(e, content, format))
}

/// Gives every violation the line of the source text that declares the last
/// field of its path, where there is one. A violation for which the text names
/// no line keeps what it had.
pub fn find_line_numbers(content: &str, errors: &mut Vec<ValidationError>, format: ConfigFormat)
    ensures
        views(final(errors)@) == annotated_all(views(old(errors)@), content@, format),
{
    let chars = chars_of(content);
    let lines = split_lines(&chars);
    assert(lines@.map_values(|l: Vec<char>| l@) =~= lines_from(content@, 0));
    let mut done: Vec<ValidationError> = Vec::new();
    let mut i: usize = 0;
    while i < errors.len()
        invariant
            i <= errors.len(),
            errors@ == old(errors)@,
            done@.len() == i,
            lines@.map_values(|l: Vec<char>| l@) == lines_from(content@, 0),
            forall|j: int|
                0 <= j < i ==> (#[trigger] done@[j])@ == annotated(
                    errors@[j]@,
                    content@,
                    format,
                ),
        decreases errors.len() - i,
    {
        let e = &errors[i];
        let line = match find_line(&lines, format, e.path.as_str()) {
            Some(n) => Some(n),
            None => e.line,
        };
        let mut updated = e.duplicate();
        updated.line = line;
        done.push(updated);
        i = i + 1;
    }
    *errors = done;
    assert(views(errors@) =~= annotated_all(views(old(errors)@), content@, format));
}

} // verus!
