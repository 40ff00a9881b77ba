//! The decisions of the interactive terminal screen: which field has focus,
//! how keys edit the form, how the screens follow one another, and the texts
//! and areas that the screen shows. Drawing and the terminal stay outside.
use vstd::prelude::*;
use crate::text;
use crate::session::{SessionConfig, SessionStarted};
use crate::report::MappingReport;
use crate::metrics::RelatorioMetricas;
use crate::warning::{self, ScanWarning, WarningView};

verus! {

// ---------------------------------------------------------------------------
// Fields and screens
// ---------------------------------------------------------------------------

/// The fields of the form, in focus order.
#[derive(Clone, Copy, Debug, PartialEq, Eq, Structural)]
pub enum FormField {
    Input,
    Port,
    Open,
    Start,
}

/// The field after `f` in focus order, wrapping around.
pub open spec fn field_after(f: FormField) -> FormField {
    match f {
        FormField::Input => FormField::Port,
        FormField::Port => FormField::Open,
        FormField::Open => FormField::Start,
        FormField::Start => FormField::Input,
    }
}

/// The field before `f` in focus order, wrapping around.
pub open spec fn field_before(f: FormField) -> FormField {
    match f {
        FormField::Input => FormField::Start,
        FormField::Port => FormField::Input,
        FormField::Open => FormField::Port,
        FormField::Start => FormField::Open,
    }
}

impl FormField {
    /// The next field in focus order.
    pub fn next(self) -> (r: Self)
        ensures
            r == field_after(self),
    {
        match self {
            FormField::Input => FormField::Port,
            FormField::Port => FormField::Open,
            FormField::Open => FormField::Start,
            FormField::Start => FormField::Input,
        }
    }

    /// The previous field in focus order.
    pub fn previous(self) -> (r: Self)
        ensures
            r == field_before(self),
    {
        match self {
            FormField::Input => FormField::Start,
            FormField::Port => FormField::Input,
            FormField::Open => FormField::Port,
            FormField::Start => FormField::Open,
        }
    }
}

/// The screens of the interactive tool.
#[derive(Clone, Copy, Debug, PartialEq, Eq, Structural)]
pub enum Screen {
    Splash,
    Form,
    Loading,
    Result,
    Error,
}

/// A key press, as far as the screens tell keys apart.
#[derive(Clone, Copy, Debug, PartialEq, Eq, Structural)]
pub enum Key {
    Tab,
    BackTab,
    Up,
    Down,
    Left,
    Right,
    Home,
    End,
    Enter,
    Backspace,
    Delete,
    Char(char),
    Esc,
    Other,
}

// ---------------------------------------------------------------------------
// Editing text by character position
// ---------------------------------------------------------------------------

/// The number of bytes of the UTF-8 encoding of `c`.
pub open spec fn utf8_width(c: char) -> nat {
    vstd::utf8::encode_scalar(c as u32).len()
}

/// The UTF-8 length of a text.
pub open spec fn utf8_len(s: Seq<char>) -> nat {
    vstd::utf8::encode_utf8(s).len()
}

/// The encoding of a concatenation is the concatenation of the encodings.
proof fn lemma_encode_concat(a: Seq<char>, b: Seq<char>)
    ensures
        vstd::utf8::encode_utf8(a + b) == vstd::utf8::encode_utf8(a) + vstd::utf8::encode_utf8(b),
    decreases a.len(),
{
    if a.len() == 0 {
        assert(a + b =~= b);
        assert(vstd::utf8::encode_utf8(a) =~= Seq::<u8>::empty());
        assert(Seq::<u8>::empty() + vstd::utf8::encode_utf8(b) =~= vstd::utf8::encode_utf8(b));
    } else {
        assert((a + b).drop_first() =~= a.drop_first() + b);
        lemma_encode_concat(a.drop_first(), b);
        assert((a + b)[0] == a[0]);
        assert(vstd::utf8::encode_utf8(a + b) =~= vstd::utf8::encode_scalar(a[0] as u32) + (vstd::utf8::encode_utf8(a.drop_first()) + vstd::utf8::encode_utf8(b)));
    }
}

/// The UTF-8 length of a prefix grows by the width of the next character.
proof fn lemma_prefix_utf8_len(s: Seq<char>, k: int)
    requires
        0 <= k < s.len(),
    ensures
        utf8_len(s.take(k + 1)) == utf8_len(s.take(k)) + utf8_width(s[k]),
{
    assert(s.take(k + 1) =~= s.take(k) + seq![s[k]]);
    lemma_encode_concat(s.take(k), seq![s[k]]);
    let x = seq![s[k]];
    assert(x.drop_first() =~= Seq::<char>::empty());
    assert(vstd::utf8::encode_utf8(x.drop_first()) =~= Seq::<u8>::empty());
    assert(x[0] == s[k]);
    assert(vstd::utf8::encode_utf8(x) == vstd::utf8::encode_scalar(x[0] as u32) + vstd::utf8::encode_utf8(x.drop_first()));
    assert(vstd::utf8::encode_utf8(x) =~= vstd::utf8::encode_scalar(s[k] as u32));
}

/// The UTF-8 width of a character.
fn char_width(c: char) -> (w: usize)
    ensures
        w == utf8_width(c),
        1 <= w <= 4,
{
    proof {
        vstd::utf8::char_is_scalar(c);
    }
    let v: u32 = c as u32;
    if v <= 0x7F {
        1
    } else if v <= 0x7FF {
        2
    } else if v <= 0xFFFF {
        3
    } else {
        4
    }
}

/// The byte offset in `value` of the character at `char_index`, or the byte
/// length of `value` when the index is past its end.
pub fn char_to_byte_index(value: &str, char_index: usize) -> (r: usize)
    requires
        utf8_len(value@) <= usize::MAX,
    ensures
        r == utf8_len(value@.take(if char_index < value@.len() { char_index as int } else { value@.len() as int })),
{
    let v = text::chars_of(value);
    let end: usize = if char_index < v.len() { char_index } else { v.len() };
    let mut i: usize = 0;
    let mut bytes: usize = 0;
    assert(value@.take(0) =~= Seq::<char>::empty());
    assert(vstd::utf8::encode_utf8(Seq::<char>::empty()) =~= Seq::<u8>::empty());
    while i < end
        invariant
            v@ == value@,
            end <= v.len(),
            i <= end,
            utf8_len(value@) <= usize::MAX,
            bytes == utf8_len(value@.take(i as int)),
        decreases end - i,
    {
        proof {
            lemma_prefix_utf8_len(value@, i as int);
            lemma_prefix_len_bound(value@, i + 1);
        }
        bytes = bytes + char_width(v[i]);
        i = i + 1;
    }
    bytes
}

/// A prefix is no longer in UTF-8 than the whole text.
proof fn lemma_prefix_len_bound(s: Seq<char>, k: int)
    requires
        0 <= k <= s.len(),
    ensures
        utf8_len(s.take(k)) <= utf8_len(s),
{
    assert(s =~= s.take(k) + s.skip(k));
    lemma_encode_concat(s.take(k), s.skip(k));
}

/// The position where an insertion at character index `index` lands: the
/// index itself, or the end of the text when the index is past it.
pub open spec fn clamp_index(s: Seq<char>, index: int) -> int {
    if index < s.len() {
        index
    } else {
        s.len() as int
    }
}

/// The text with `c` inserted at character position `index` (at the end
/// when the position is past it).
pub open spec fn inserted(s: Seq<char>, index: int, c: char) -> Seq<char> {
    s.insert(clamp_index(s, index), c)
}

/// The text without the character at position `index` (unchanged when the
/// position is past its end).
pub open spec fn removed(s: Seq<char>, index: int) -> Seq<char> {
    if 0 <= index < s.len() {
        s.remove(index)
    } else {
        s
    }
}

/// Inserts `character` at character position `index` of `value`.
pub fn insert_char_at(value: &mut String, index: usize, character: char)
    ensures
        final(value)@ == inserted(old(value)@, index as int, character),
{
    let v = text::chars_of(value.as_str());
    let at: usize = if index < v.len() { index } else { v.len() };
    let mut r = String::new();
    let mut i: usize = 0;
    while i < at
        invariant
            v@ == old(value)@,
            at <= v.len(),
            i <= at,
            r@ == v@.take(i as int),
        decreases at - i,
    {
        text::push_char(&mut r, v[i]);
        i = i + 1;
        assert(r@ =~= v@.take(i as int));
    }
    text::push_char(&mut r, character);
    while i < v.len()
        invariant
            v@ == old(value)@,
            at <= i <= v.len(),
            r@ == v@.take(at as int).push(character) + v@.subrange(at as int, i as int),
        decreases v.len() - i,
    {
        text::push_char(&mut r, v[i]);
        i = i + 1;
        assert(r@ =~= v@.take(at as int).push(character) + v@.subrange(at as int, i as int));
    }
    assert(r@ =~= inserted(old(value)@, index as int, character));
    *value = r;
}

/// Removes the character at character position `index` of `value`, if there
/// is one.
pub fn remove_char_at(value: &mut String, index: usize)
    requires
        index < usize::MAX,
    ensures
        final(value)@ == removed(old(value)@, index as int),
{
    let v = text::chars_of(value.as_str());
    if index >= v.len() {
        return;
    }
    let mut r = String::new();
    let mut i: usize = 0;
    while i < v.len()
        invariant
            v@ == old(value)@,
            index < v.len(),
            i <= v.len(),
            r@ == (if i <= index { v@.take(i as int) } else { v@.take(index as int) + v@.subrange(index + 1, i as int) }),
        decreases v.len() - i,
    {
        if i != index {
            text::push_char(&mut r, v[i]);
        }
        i = i + 1;
        assert(r@ =~= (if i <= index { v@.take(i as int) } else { v@.take(index as int) + v@.subrange(index + 1, i as int) }));
    }
    assert(r@ =~= old(value)@.remove(index as int));
    *value = r;
}

}

verus! {

// ---------------------------------------------------------------------------
// Reading the form: trimming the path and parsing the port
// ---------------------------------------------------------------------------

/// Whether `c` has the Unicode `White_Space` property (`char::is_whitespace`).
pub open spec fn is_white_space(c: char) -> bool {
    ||| ('\u{9}' <= c && c <= '\u{d}')
    ||| c == ' '
    ||| c == '\u{85}'
    ||| c == '\u{a0}'
    ||| c == '\u{1680}'
    ||| ('\u{2000}' <= c && c <= '\u{200a}')
    ||| c == '\u{2028}'
    ||| c == '\u{2029}'
    ||| c == '\u{202f}'
    ||| c == '\u{205f}'
    ||| c == '\u{3000}'
}

/// Whether `c` has the `White_Space` property (exec form).
fn white_space(c: char) -> (r: bool)
    ensures
        r == is_white_space(c),
{
    ('\u{9}' <= c && c <= '\u{d}') || c == ' ' || c == '\u{85}' || c == '\u{a0}' || c == '\u{1680}'
        || ('\u{2000}' <= c && c <= '\u{200a}') || c == '\u{2028}' || c == '\u{2029}'
        || c == '\u{202f}' || c == '\u{205f}' || c == '\u{3000}'
}

/// `s` without leading white space.
pub open spec fn trim_start(s: Seq<char>) -> Seq<char>
    decreases s.len(),
{
    if s.len() > 0 && is_white_space(s[0]) {
        trim_start(s.drop_first())
    } else {
        s
    }
}

/// `s` without trailing white space.
pub open spec fn trim_end(s: Seq<char>) -> Seq<char>
    decreases s.len(),
{
    if s.len() > 0 && is_white_space(s.last()) {
        trim_end(s.drop_last())
    } else {
        s
    }
}

/// `s` without leading and trailing white space (`str::trim`).
pub open spec fn trimmed(s: Seq<char>) -> Seq<char> {
    trim_end(trim_start(s))
}

/// `s` without leading and trailing white space.
pub fn trim_text(s: &str) -> (r: String)
    ensures
        r@ == trimmed(s@),
{
    let v = text::chars_of(s);
    let mut a: usize = 0;
    assert(s@.skip(0) =~= s@);
    while a < v.len() && white_space(v[a])
        invariant
            v@ == s@,
            a <= v.len(),
            trim_start(s@) == trim_start(s@.skip(a as int)),
        decreases v.len() - a,
    {
        assert(s@.skip(a as int).drop_first() =~= s@.skip(a + 1));
        a = a + 1;
    }
    let ghost front = s@.skip(a as int);
    assert(trim_start(s@) == front);
    let mut b: usize = v.len();
    assert(front =~= s@.subrange(a as int, b as int));
    while b > a && white_space(v[b - 1])
        invariant
            v@ == s@,
            a <= b <= v.len(),
            trim_end(front) == trim_end(s@.subrange(a as int, b as int)),
        decreases b - a,
    {
        assert(s@.subrange(a as int, b as int).drop_last() =~= s@.subrange(a as int, b - 1));
        b = b - 1;
    }
    let mut r = String::new();
    let mut i: usize = a;
    assert(r@ =~= s@.subrange(a as int, a as int));
    while i < b
        invariant
            v@ == s@,
            a <= i <= b,
            b <= v.len(),
            r@ == s@.subrange(a as int, i as int),
        decreases b - i,
    {
        text::push_char(&mut r, v[i]);
        i = i + 1;
        assert(r@ =~= s@.subrange(a as int, i as int));
    }
    r
}

/// Whether every character of `d` is an ASCII digit.
pub open spec fn all_ascii_digits(d: Seq<char>) -> bool {
    forall|i: int| 0 <= i < d.len() ==> '0' <= #[trigger] d[i] && d[i] <= '9'
}

/// The number that a sequence of ASCII digits writes in decimal.
pub open spec fn digits_value(d: Seq<char>) -> nat
    decreases d.len(),
{
    if d.len() == 0 {
        0
    } else {
        digits_value(d.drop_last()) * 10 + ((d.last() as u32) - 48) as nat
    }
}

/// What `u16::from_str` gives for `s`: an optional `+`, then one or more
/// ASCII digits whose value fits in a `u16`; anything else is an error.
pub open spec fn parsed_u16(s: Seq<char>) -> Option<u16> {
    let d = if s.len() > 0 && s[0] == '+' { s.skip(1) } else { s };
    if d.len() == 0 || !all_ascii_digits(d) || digits_value(d) > 65535 {
        None
    } else {
        Some(digits_value(d) as u16)
    }
}

/// Parses a port number as `u16::from_str` does.
pub fn parse_port(s: &str) -> (r: Option<u16>)
    ensures
        r == parsed_u16(s@),
{
    let v = text::chars_of(s);
    let start: usize = if v.len() > 0 && v[0] == '+' { 1 } else { 0 };
    let ghost d = if s@.len() > 0 && s@[0] == '+' { s@.skip(1) } else { s@ };
    assert(d =~= s@.skip(start as int));
    if start >= v.len() {
        return None;
    }
    let mut acc: u32 = 0;
    let mut i: usize = start;
    assert(d.take(0) =~= Seq::<char>::empty());
    while i < v.len()
        invariant
            v@ == s@,
            start <= i <= v.len(),
            d == s@.skip(start as int),
            d == (if s@.len() > 0 && s@[0] == '+' { s@.skip(1) } else { s@ }),
            all_ascii_digits(d.take(i - start)),
            digits_value(d.take(i - start)) <= 65535 ==> acc == digits_value(d.take(i - start)),
            digits_value(d.take(i - start)) > 65535 ==> acc == 65536,
        decreases v.len() - i,
    {
        let c = v[i];
        if !('0' <= c && c <= '9') {
            assert(d.len() == v.len() - start);
            assert(d[i - start] == c);
            assert(!all_ascii_digits(d));
            return None;
        }
        let dg: u32 = (c as u32) - 48;
        proof {
            let k = i - start;
            assert(d.take(k + 1).drop_last() =~= d.take(k));
            assert(d.take(k + 1).last() == c);
        }
        if acc > 65535 {
            acc = 65536;
        } else {
            let n: u32 = acc * 10 + dg;
            acc = if n > 65535 { 65536 } else { n };
        }
        i = i + 1;
        assert(all_ascii_digits(d.take(i - start))) by {
            assert forall|j: int| 0 <= j < d.take(i - start).len() implies '0' <= #[trigger] d.take(i - start)[j] && d.take(i - start)[j] <= '9' by {
                if j < i - 1 - start {
                    assert(d.take(i - start)[j] == d.take(i - 1 - start)[j]);
                }
            }
        }
    }
    assert(d.take(i - start) =~= d);
    if acc > 65535 {
        None
    } else {
        Some(acc as u16)
    }
}

// ---------------------------------------------------------------------------
// The form
// ---------------------------------------------------------------------------

/// What a key does to the form beyond editing it.
#[derive(Clone, Copy, Debug, PartialEq, Eq, Structural)]
pub enum FormOutcome {
    Stay,
    Start,
    Exit,
}

/// The editable form: focused field, directory path and port texts with
/// their cursors (character positions), and whether to open the browser.
pub struct FormState {
    pub field: FormField,
    pub input: String,
    pub input_cursor: usize,
    pub port: String,
    pub port_cursor: usize,
    pub open_browser: bool,
}

/// The mathematical value of a [`FormState`].
pub struct FormView {
    pub field: FormField,
    pub input: Seq<char>,
    pub input_cursor: usize,
    pub port: Seq<char>,
    pub port_cursor: usize,
    pub open_browser: bool,
}

impl View for FormState {
    type V = FormView;

    open spec fn view(&self) -> FormView {
        FormView {
            field: self.field,
            input: self.input@,
            input_cursor: self.input_cursor,
            port: self.port@,
            port_cursor: self.port_cursor,
            open_browser: self.open_browser,
        }
    }
}

/// One less, but not below zero.
pub open spec fn back_one(n: usize) -> usize {
    if n > 0 { (n - 1) as usize } else { 0 }
}

/// One more, but not past `len`.
pub open spec fn forward_one(n: usize, len: nat) -> usize {
    if n + 1 <= len { (n + 1) as usize } else { len as usize }
}

/// A text with its cursor after one editing key: Left, Right, Home, End,
/// Backspace, Delete, or a character to insert.
pub open spec fn edit_step(t: Seq<char>, cursor: usize, key: Key) -> (Seq<char>, usize) {
    match key {
        Key::Left => (t, back_one(cursor)),
        Key::Right => (t, forward_one(cursor, t.len())),
        Key::Home => (t, 0),
        Key::End => (t, t.len() as usize),
        Key::Backspace => if cursor > 0 { (removed(t, cursor - 1), (cursor - 1) as usize) } else { (t, cursor) },
        Key::Delete => if cursor < t.len() { (removed(t, cursor as int), cursor) } else { (t, cursor) },
        Key::Char(c) => (inserted(t, cursor as int, c), (cursor + 1) as usize),
        _ => (t, cursor),
    }
}

/// Whether `key` edits the focused text (given the field).
pub open spec fn is_edit_key(f: FormField, key: Key) -> bool {
    match key {
        Key::Left | Key::Right | Key::Home | Key::End | Key::Backspace | Key::Delete => true,
        Key::Char(c) => match f {
            FormField::Input => true,
            FormField::Port => '0' <= c && c <= '9',
            _ => false,
        },
        _ => false,
    }
}

/// The form with its focused text edited by `key`.
pub open spec fn edit_focused(f: FormView, key: Key) -> FormView {
    match f.field {
        FormField::Input => {
            let (t, c) = edit_step(f.input, f.input_cursor, key);
            FormView { input: t, input_cursor: c, ..f }
        },
        FormField::Port => {
            let (t, c) = edit_step(f.port, f.port_cursor, key);
            FormView { port: t, port_cursor: c, ..f }
        },
        _ => f,
    }
}

/// The form after a key, and what else the key asks for: focus moves with
/// Tab/Down and BackTab/Up; Enter starts from the Start field, toggles the
/// browser option on the Open field and moves on elsewhere; Space also
/// toggles the option; the path takes any character, the port only digits;
/// Esc asks to leave.
pub open spec fn form_step(f: FormView, key: Key) -> (FormView, FormOutcome) {
    match key {
        Key::Tab | Key::Down => (FormView { field: field_after(f.field), ..f }, FormOutcome::Stay),
        Key::BackTab | Key::Up => (FormView { field: field_before(f.field), ..f }, FormOutcome::Stay),
        Key::Enter => if f.field == FormField::Start {
            (f, FormOutcome::Start)
        } else if f.field == FormField::Open {
            (FormView { open_browser: !f.open_browser, ..f }, FormOutcome::Stay)
        } else {
            (FormView { field: field_after(f.field), ..f }, FormOutcome::Stay)
        },
        Key::Char(c) => if c == ' ' && f.field == FormField::Open {
            (FormView { open_browser: !f.open_browser, ..f }, FormOutcome::Stay)
        } else if is_edit_key(f.field, key) {
            (edit_focused(f, key), FormOutcome::Stay)
        } else {
            (f, FormOutcome::Stay)
        },
        Key::Esc => (f, FormOutcome::Exit),
        Key::Other => (f, FormOutcome::Stay),
        _ => (edit_focused(f, key), FormOutcome::Stay),
    }
}

/// The number of characters of a text.
fn char_count(s: &str) -> (r: usize)
    ensures
        r == s@.len(),
{
    text::chars_of(s).len()
}

/// Applies an editing key to a text and its cursor.
fn edit_text(t: &mut String, cursor: &mut usize, key: Key)
    requires
        *old(cursor) < usize::MAX,
    ensures
        (final(t)@, *final(cursor)) == edit_step(old(t)@, *old(cursor), key),
{
    match key {
        Key::Left => {
            if *cursor > 0 {
                *cursor = *cursor - 1;
            }
        },
        Key::Right => {
            let n = char_count(t.as_str());
            let next = *cursor + 1;
            *cursor = if next <= n { next } else { n };
        },
        Key::Home => {
            *cursor = 0;
        },
        Key::End => {
            *cursor = char_count(t.as_str());
        },
        Key::Backspace => {
            if *cursor > 0 {
                remove_char_at(t, *cursor - 1);
                *cursor = *cursor - 1;
            }
        },
        Key::Delete => {
            if *cursor < char_count(t.as_str()) {
                remove_char_at(t, *cursor);
            }
        },
        Key::Char(c) => {
            insert_char_at(t, *cursor, c);
            *cursor = *cursor + 1;
        },
        _ => {},
    }
}

impl FormState {
    /// Handles a key on the form.
    pub fn handle_form_key(&mut self, key: Key) -> (r: FormOutcome)
        requires
            old(self).input_cursor < usize::MAX,
            old(self).port_cursor < usize::MAX,
        ensures
            (final(self)@, r) == form_step(old(self)@, key),
    {
        match key {
            Key::Tab | Key::Down => {
                self.field = self.field.next();
                FormOutcome::Stay
            },
            Key::BackTab | Key::Up => {
                self.field = self.field.previous();
                FormOutcome::Stay
            },
            Key::Enter => {
                if self.field == FormField::Start {
                    FormOutcome::Start
                } else if self.field == FormField::Open {
                    self.open_browser = !self.open_browser;
                    FormOutcome::Stay
                } else {
                    self.field = self.field.next();
                    FormOutcome::Stay
                }
            },
            Key::Esc => FormOutcome::Exit,
            Key::Other => FormOutcome::Stay,
            _ => {
                let is_space = match key {
                    Key::Char(c) => c == ' ',
                    _ => false,
                };
                if is_space && self.field == FormField::Open {
                    self.open_browser = !self.open_browser;
                    return FormOutcome::Stay;
                }
                match self.field {
                    FormField::Input => {
                        edit_text(&mut self.input, &mut self.input_cursor, key);
                    },
                    FormField::Port => {
                        let accepted = match key {
                            Key::Char(c) => '0' <= c && c <= '9',
                            _ => true,
                        };
                        if accepted {
                            edit_text(&mut self.port, &mut self.port_cursor, key);
                        }
                    },
                    _ => {},
                }
                FormOutcome::Stay
            },
        }
    }
}

}

verus! {

// ---------------------------------------------------------------------------
// The screens
// ---------------------------------------------------------------------------

/// The status line shown while waiting for a mapping to start.
pub open spec fn waiting_line() -> Seq<char> {
    "Aguardando inicio do mapeamento..."@
}

/// The status line shown when a mapping starts.
pub open spec fn starting_line() -> Seq<char> {
    "Iniciando fluxo do Atlas..."@
}

/// The error shown when the port cannot be read.
pub open spec fn port_error() -> Seq<char> {
    "porta invalida. informe um numero entre 1 e 65535"@
}

/// The error shown when the browser cannot be opened, with the system's message.
pub open spec fn browser_error_text(error: Seq<char>) -> Seq<char> {
    "falha ao abrir o navegador automaticamente: "@ + error
}

/// What the screen asks the program around it to do.
pub enum TuiAction {
    /// Nothing.
    Nothing,
    /// Start mapping and serving with this configuration.
    StartSession(SessionConfig),
    /// Open the browser at this URL.
    OpenBrowser(String),
}

/// The mathematical value of a [`TuiAction`].
pub enum ActionView {
    Nothing,
    StartSession { input: Seq<char>, port: u16, open_browser: bool },
    OpenBrowser(Seq<char>),
}

/// The view of an action.
pub open spec fn action_view(a: TuiAction) -> ActionView {
    match a {
        TuiAction::Nothing => ActionView::Nothing,
        TuiAction::StartSession(c) => ActionView::StartSession {
            input: c.input@,
            port: c.port,
            open_browser: c.open_browser,
        },
        TuiAction::OpenBrowser(u) => ActionView::OpenBrowser(u@),
    }
}

/// What the mapping worker reports.
pub enum WorkerMessage {
    /// A line of progress.
    Status(String),
    /// The mapping ended: a started session, or why it failed.
    Finished(Result<SessionStarted, String>),
}

/// The state of the interactive screen, apart from drawing.
pub struct TuiState {
    pub screen: Screen,
    pub form: FormState,
    pub status_lines: Vec<String>,
    pub spinner_index: usize,
    pub session: Option<SessionStarted>,
    pub error_message: Option<String>,
    pub should_exit: bool,
}

/// The mathematical value of a [`TuiState`].
pub struct TuiView {
    pub screen: Screen,
    pub form: FormView,
    pub status_lines: Seq<Seq<char>>,
    pub spinner_index: usize,
    pub session: Option<SessionStarted>,
    pub error_message: Option<Seq<char>>,
    pub should_exit: bool,
}

/// The views of a sequence of strings.
pub open spec fn lines_view(s: Seq<String>) -> Seq<Seq<char>> {
    s.map_values(|l: String| l@)
}

impl View for TuiState {
    type V = TuiView;

    open spec fn view(&self) -> TuiView {
        TuiView {
            screen: self.screen,
            form: self.form@,
            status_lines: lines_view(self.status_lines@),
            spinner_index: self.spinner_index,
            session: self.session,
            error_message: crate::node::opt_text(self.error_message),
            should_exit: self.should_exit,
        }
    }
}

/// Whether `key` is Esc or `q`.
pub open spec fn is_quit(key: Key) -> bool {
    key == Key::Esc || key == Key::Char('q')
}

/// Starting a mapping from the form: a port that cannot be read shows the
/// error screen; otherwise the loading screen shows and the session starts
/// with the trimmed path.
pub open spec fn start_step(s: TuiView) -> (TuiView, ActionView) {
    match parsed_u16(s.form.port) {
        None => (TuiView { error_message: Some(port_error()), screen: Screen::Error, ..s }, ActionView::Nothing),
        Some(port) => (
            TuiView { status_lines: seq![starting_line()], screen: Screen::Loading, ..s },
            ActionView::StartSession { input: trimmed(s.form.input), port, open_browser: s.form.open_browser },
        ),
    }
}

/// The state after a key, and what the key asks the program to do.
pub open spec fn key_step(s: TuiView, key: Key) -> (TuiView, ActionView) {
    match s.screen {
        Screen::Splash => if key == Key::Enter {
            (TuiView { screen: Screen::Form, ..s }, ActionView::Nothing)
        } else if is_quit(key) {
            (TuiView { should_exit: true, ..s }, ActionView::Nothing)
        } else {
            (s, ActionView::Nothing)
        },
        Screen::Form => {
            let (f, o) = form_step(s.form, key);
            let t = TuiView { form: f, ..s };
            match o {
                FormOutcome::Stay => (t, ActionView::Nothing),
                FormOutcome::Exit => (TuiView { should_exit: true, ..t }, ActionView::Nothing),
                FormOutcome::Start => start_step(t),
            }
        },
        Screen::Loading => if is_quit(key) {
            (TuiView { should_exit: true, ..s }, ActionView::Nothing)
        } else {
            (s, ActionView::Nothing)
        },
        Screen::Result => if is_quit(key) {
            (TuiView { should_exit: true, ..s }, ActionView::Nothing)
        } else if key == Key::Char('o') {
            match s.session {
                Some(session) => (s, ActionView::OpenBrowser(session.local_url@)),
                None => (s, ActionView::Nothing),
            }
        } else if key == Key::Char('n') {
            (
                TuiView {
                    session: None,
                    error_message: None,
                    status_lines: seq![waiting_line()],
                    form: FormView {
                        input_cursor: s.form.input.len() as usize,
                        port_cursor: s.form.port.len() as usize,
                        ..s.form
                    },
                    screen: Screen::Form,
                    ..s
                },
                ActionView::Nothing,
            )
        } else {
            (s, ActionView::Nothing)
        },
        Screen::Error => if is_quit(key) {
            (TuiView { should_exit: true, ..s }, ActionView::Nothing)
        } else if key == Key::Enter {
            (
                TuiView { error_message: None, status_lines: seq![waiting_line()], screen: Screen::Form, ..s },
                ActionView::Nothing,
            )
        } else {
            (s, ActionView::Nothing)
        },
    }
}

/// The state after a message of the worker, and whether the mapping ended.
pub open spec fn message_step(s: TuiView, m: WorkerMessage) -> (TuiView, bool) {
    match m {
        WorkerMessage::Status(line) => (TuiView { status_lines: s.status_lines.push(line@), ..s }, false),
        WorkerMessage::Finished(Ok(session)) => (TuiView { session: Some(session), screen: Screen::Result, ..s }, true),
        WorkerMessage::Finished(Err(error)) => (TuiView { error_message: Some(error@), screen: Screen::Error, ..s }, true),
    }
}

/// One status line as a vector.
fn single_line(line: &str) -> (r: Vec<String>)
    ensures
        lines_view(r@) == seq![line@],
{
    let mut v: Vec<String> = Vec::new();
    v.push(text::owned(line));
    assert(lines_view(v@) =~= seq![line@]);
    v
}

impl TuiState {
    /// The state when the tool opens: the splash screen, the form on the
    /// path field with `current_dir` filled in, the default port, and the
    /// browser option on.
    pub fn new(current_dir: String) -> (r: Self)
        ensures
            r@.screen == Screen::Splash,
            r@.form == (FormView {
                field: FormField::Input,
                input: current_dir@,
                input_cursor: current_dir@.len() as usize,
                port: "8787"@,
                port_cursor: 4,
                open_browser: true,
            }),
            r@.status_lines == seq![waiting_line()],
            r@.spinner_index == 0,
            r@.session is None,
            r@.error_message is None,
            !r@.should_exit,
    {
        proof {
            reveal_strlit("8787");
        }
        let cursor = char_count(current_dir.as_str());
        TuiState {
            screen: Screen::Splash,
            form: FormState {
                field: FormField::Input,
                input: current_dir,
                input_cursor: cursor,
                port: text::owned("8787"),
                port_cursor: 4,
                open_browser: true,
            },
            status_lines: single_line("Aguardando inicio do mapeamento..."),
            spinner_index: 0,
            session: None,
            error_message: None,
            should_exit: false,
        }
    }

    /// Starts a mapping from the form.
    fn start_loading(&mut self) -> (r: TuiAction)
        ensures
            (final(self)@, action_view(r)) == start_step(old(self)@),
    {
        match parse_port(self.form.port.as_str()) {
            None => {
                self.error_message = Some(text::owned("porta invalida. informe um numero entre 1 e 65535"));
                self.screen = Screen::Error;
                TuiAction::Nothing
            },
            Some(port) => {
                let config = SessionConfig {
                    input: trim_text(self.form.input.as_str()),
                    port,
                    open_browser: self.form.open_browser,
                };
                self.status_lines = single_line("Iniciando fluxo do Atlas...");
                self.screen = Screen::Loading;
                TuiAction::StartSession(config)
            },
        }
    }

    /// Handles a key on the current screen.
    pub fn handle_key(&mut self, key: Key) -> (r: TuiAction)
        requires
            old(self).form.input_cursor < usize::MAX,
            old(self).form.port_cursor < usize::MAX,
        ensures
            (final(self)@, action_view(r)) == key_step(old(self)@, key),
    {
        let quit = key == Key::Esc || key == Key::Char('q');
        match self.screen {
            Screen::Splash => {
                if key == Key::Enter {
                    self.screen = Screen::Form;
                } else if quit {
                    self.should_exit = true;
                }
                TuiAction::Nothing
            },
            Screen::Form => {
                match self.form.handle_form_key(key) {
                    FormOutcome::Stay => TuiAction::Nothing,
                    FormOutcome::Exit => {
                        self.should_exit = true;
                        TuiAction::Nothing
                    },
                    FormOutcome::Start => self.start_loading(),
                }
            },
            Screen::Loading => {
                if quit {
                    self.should_exit = true;
                }
                TuiAction::Nothing
            },
            Screen::Result => {
                if quit {
                    self.should_exit = true;
                    TuiAction::Nothing
                } else if key == Key::Char('o') {
                    match &self.session {
                        Some(session) => TuiAction::OpenBrowser(text::owned(session.local_url.as_str())),
                        None => TuiAction::Nothing,
                    }
                } else if key == Key::Char('n') {
                    self.session = None;
                    self.error_message = None;
                    self.status_lines = single_line("Aguardando inicio do mapeamento...");
                    self.form.input_cursor = char_count(self.form.input.as_str());
                    self.form.port_cursor = char_count(self.form.port.as_str());
                    self.screen = Screen::Form;
                    TuiAction::Nothing
                } else {
                    TuiAction::Nothing
                }
            },
            Screen::Error => {
                if quit {
                    self.should_exit = true;
                } else if key == Key::Enter {
                    self.error_message = None;
                    self.status_lines = single_line("Aguardando inicio do mapeamento...");
                    self.screen = Screen::Form;
                }
                TuiAction::Nothing
            },
        }
    }

    /// Takes in a message of the mapping worker; tells whether the mapping
    /// ended.
    pub fn receive(&mut self, message: WorkerMessage) -> (finished: bool)
        ensures
            (final(self)@, finished) == message_step(old(self)@, message),
    {
        match message {
            WorkerMessage::Status(line) => {
                self.status_lines.push(line);
                assert(lines_view(self.status_lines@) =~= lines_view(old(self).status_lines@).push(line@));
                false
            },
            WorkerMessage::Finished(Ok(session)) => {
                self.session = Some(session);
                self.screen = Screen::Result;
                true
            },
            WorkerMessage::Finished(Err(error)) => {
                self.error_message = Some(error);
                self.screen = Screen::Error;
                true
            },
        }
    }

    /// The browser could not be opened: show why on the error screen.
    pub fn browser_failed(&mut self, error: &str)
        ensures
            final(self)@ == (TuiView {
                error_message: Some(browser_error_text(error@)),
                screen: Screen::Error,
                ..old(self)@
            }),
    {
        let mut msg = text::owned("falha ao abrir o navegador automaticamente: ");
        text::push_text(&mut msg, error);
        self.error_message = Some(msg);
        self.screen = Screen::Error;
    }

    /// Moves the loading spinner to its next frame.
    pub fn advance_spinner(&mut self)
        requires
            old(self).spinner_index < usize::MAX,
        ensures
            final(self)@ == (TuiView { spinner_index: ((old(self).spinner_index + 1) % 8) as usize, ..old(self)@ }),
    {
        self.spinner_index = (self.spinner_index + 1) % 8;
    }
}

}

verus! {

// ---------------------------------------------------------------------------
// Texts of the screens
// ---------------------------------------------------------------------------

/// The spinner frame at `index`.
pub open spec fn spinner_frame_text(index: int) -> Seq<char> {
    if index % 4 == 0 {
        "-"@
    } else if index % 4 == 1 {
        "\\"@
    } else if index % 4 == 2 {
        "|"@
    } else {
        "/"@
    }
}

/// How many frames the spinner has.
pub const SPINNER_FRAME_COUNT: usize = 8;

/// The spinner frame at `index` (there are eight frames).
pub fn spinner_frame(index: usize) -> (r: &'static str)
    requires
        index < 8,
    ensures
        r@ == spinner_frame_text(index as int),
{
    let k = index % 4;
    if k == 0 {
        "-"
    } else if k == 1 {
        "\\"
    } else if k == 2 {
        "|"
    } else {
        "/"
    }
}

/// The line shown while mapping, with the spinner frame in front.
pub fn loading_line(spinner_index: usize) -> (r: String)
    requires
        spinner_index < 8,
    ensures
        r@ == spinner_frame_text(spinner_index as int) + " Executando mapeamento e subida do live server..."@,
{
    let mut r = text::owned(spinner_frame(spinner_index));
    text::push_text(&mut r, " Executando mapeamento e subida do live server...");
    r
}

/// How many status lines the loading screen shows.
pub const RECENT_STATUS_LINES: usize = 12;

/// The last (at most twelve) status lines, oldest first.
pub open spec fn recent_lines(lines: Seq<Seq<char>>) -> Seq<Seq<char>> {
    if lines.len() > 12 {
        lines.skip(lines.len() - 12)
    } else {
        lines
    }
}

/// The status lines that the loading screen shows.
pub fn recent_status_lines(lines: &Vec<String>) -> (r: Vec<String>)
    ensures
        lines_view(r@) == recent_lines(lines_view(lines@)),
{
    let start: usize = if lines.len() > RECENT_STATUS_LINES { lines.len() - RECENT_STATUS_LINES } else { 0 };
    let mut r: Vec<String> = Vec::new();
    let mut i: usize = start;
    while i < lines.len()
        invariant
            start <= i <= lines.len(),
            start == (if lines.len() > 12 { lines.len() - 12 } else { 0 }),
            lines_view(r@) == lines_view(lines@).subrange(start as int, i as int),
        decreases lines.len() - i,
    {
        let ghost before = lines_view(r@);
        let line = text::owned(lines[i].as_str());
        r.push(line);
        assert(lines_view(r@) =~= before.push(line@));
        assert(line@ == lines_view(lines@)[i as int]);
        i = i + 1;
        assert(lines_view(r@) =~= lines_view(lines@).subrange(start as int, i as int));
    }
    assert(lines_view(lines@).subrange(start as int, i as int) =~= recent_lines(lines_view(lines@)));
    r
}

/// The live-server panel of the result screen.
pub fn live_server_text(local_url: &str) -> (r: String)
    ensures
        r@ == "Servidor local iniciado com sucesso.\nURL: "@ + local_url@,
{
    let mut r = text::owned("Servidor local iniciado com sucesso.\nURL: ");
    text::push_text(&mut r, local_url);
    r
}

/// What the result screen says of the browser: it failed, it was opened, or
/// it was not asked for.
pub open spec fn browser_label(failed: bool, open_browser: bool) -> Seq<char> {
    if failed {
        "falhou"@
    } else if open_browser {
        "sim"@
    } else {
        "nao"@
    }
}

/// The session panel of the result screen.
pub fn session_text(report: &MappingReport, browser_failed: bool, open_browser: bool) -> (r: String)
    ensures
        r@ == "Origem: "@ + report.source@ + "\nGerado em: "@ + report.generated_at@ + "\nAbrir navegador: "@
            + browser_label(browser_failed, open_browser),
{
    let mut r = text::owned("Origem: ");
    text::push_text(&mut r, report.source.as_str());
    text::push_text(&mut r, "\nGerado em: ");
    text::push_text(&mut r, report.generated_at.as_str());
    text::push_text(&mut r, "\nAbrir navegador: ");
    let label: &str = if browser_failed {
        "falhou"
    } else if open_browser {
        "sim"
    } else {
        "nao"
    };
    text::push_text(&mut r, label);
    r
}

/// The summary panel of the result screen.
pub fn summary_text(summary: &RelatorioMetricas) -> (r: String)
    ensures
        r@ == "Diretorios: "@ + text::decimal_digits(summary.total_directories as nat)
            + "\nArquivos: "@ + text::decimal_digits(summary.total_files as nat)
            + "\nItens ignorados: "@ + text::decimal_digits(summary.ignored_items as nat)
            + "\nAvisos: "@ + text::decimal_digits(summary.warning_count as nat),
{
    let mut r = text::owned("Diretorios: ");
    text::push_decimal(&mut r, summary.total_directories);
    text::push_text(&mut r, "\nArquivos: ");
    text::push_decimal(&mut r, summary.total_files);
    text::push_text(&mut r, "\nItens ignorados: ");
    text::push_decimal(&mut r, summary.ignored_items);
    text::push_text(&mut r, "\nAvisos: ");
    text::push_decimal(&mut r, summary.warning_count);
    r
}

/// One warning as a line: kind, path and message.
pub open spec fn warning_line(w: WarningView) -> Seq<char> {
    w.kind + " | "@ + w.path + " | "@ + w.message
}

/// How many warnings the result screen lists.
pub const LISTED_WARNINGS: usize = 8;

/// The warning lines of the result screen: the first (at most eight)
/// warnings, or a line saying there were none; then the browser's failure,
/// if any.
pub open spec fn warning_lines(ws: Seq<WarningView>, browser_error: Option<Seq<char>>) -> Seq<Seq<char>> {
    let listed = if ws.len() == 0 {
        seq!["Nenhum aviso registrado durante o mapeamento."@]
    } else {
        ws.take(if ws.len() > 8 { 8 } else { ws.len() as int }).map_values(|w: WarningView| warning_line(w))
    };
    match browser_error {
        Some(e) => listed.push("Falha ao abrir navegador: "@ + e),
        None => listed,
    }
}

/// The lines of the warnings panel of the result screen.
pub fn warning_panel_lines(warnings: &Vec<ScanWarning>, browser_error: Option<&str>) -> (r: Vec<String>)
    ensures
        lines_view(r@) == warning_lines(warning::warnings_view(warnings@), match browser_error {
            Some(e) => Some(e@),
            None => None,
        }),
{
    let ghost ws = warning::warnings_view(warnings@);
    let mut r: Vec<String> = Vec::new();
    if warnings.len() == 0 {
        r.push(text::owned("Nenhum aviso registrado durante o mapeamento."));
    } else {
        let n: usize = if warnings.len() > LISTED_WARNINGS { LISTED_WARNINGS } else { warnings.len() };
        let mut i: usize = 0;
        while i < n
            invariant
                n <= warnings.len(),
                n == (if warnings.len() > 8 { 8 } else { warnings.len() }),
                i <= n,
                ws == warning::warnings_view(warnings@),
                lines_view(r@) == ws.take(i as int).map_values(|w: WarningView| warning_line(w)),
            decreases n - i,
        {
            let w = &warnings[i];
            let mut line = text::owned(w.kind.as_str());
            text::push_text(&mut line, " | ");
            text::push_text(&mut line, w.path.as_str());
            text::push_text(&mut line, " | ");
            text::push_text(&mut line, w.message.as_str());
            let ghost before = lines_view(r@);
            r.push(line);
            assert(lines_view(r@) =~= before.push(line@));
            assert(line@ == warning_line(ws[i as int]));
            i = i + 1;
            assert(lines_view(r@) =~= ws.take(i as int).map_values(|w: WarningView| warning_line(w)));
        }
    }
    let ghost listed = lines_view(r@);
    match browser_error {
        Some(e) => {
            let mut line = text::owned("Falha ao abrir navegador: ");
            text::push_text(&mut line, e);
            r.push(line);
            assert(lines_view(r@) =~= listed.push("Falha ao abrir navegador: "@ + e@));
        },
        None => {},
    }
    assert(lines_view(r@) =~= warning_lines(ws, match browser_error {
        Some(e) => Some(e@),
        None => None,
    }));
    r
}

/// The text of the error screen.
pub fn error_screen_text(message: Option<&str>) -> (r: String)
    ensures
        r@ == (match message {
            Some(m) => m@,
            None => "Ocorreu um erro inesperado."@,
        }) + "\n\nPressione Enter para voltar ou Q para sair."@,
{
    let mut r = match message {
        Some(m) => text::owned(m),
        None => text::owned("Ocorreu um erro inesperado."),
    };
    text::push_text(&mut r, "\n\nPressione Enter para voltar ou Q para sair.");
    r
}

/// The title of an input box: marked with `> ` when it has focus.
pub fn input_block_title(title: &str, focused: bool) -> (r: String)
    ensures
        r@ == (if focused { "> "@ + title@ } else { title@ }),
{
    if focused {
        let mut r = text::owned("> ");
        text::push_text(&mut r, title);
        r
    } else {
        text::owned(title)
    }
}

/// The content of an input box: the value, then the help line.
pub fn input_block_body(value: &str, help: &str) -> (r: String)
    ensures
        r@ == value@ + "\n"@ + help@,
{
    let mut r = text::owned(value);
    text::push_text(&mut r, "\n");
    text::push_text(&mut r, help);
    r
}

/// The label of the browser option, checked or not.
pub fn browser_toggle_label(open_browser: bool) -> (r: &'static str)
    ensures
        r@ == (if open_browser {
            "[x] Abrir navegador automaticamente"@
        } else {
            "[ ] Abrir navegador automaticamente"@
        }),
{
    if open_browser {
        "[x] Abrir navegador automaticamente"
    } else {
        "[ ] Abrir navegador automaticamente"
    }
}

// ---------------------------------------------------------------------------
// Areas of the screen
// ---------------------------------------------------------------------------

/// A rectangle of terminal cells.
#[derive(Clone, Copy, Debug, PartialEq, Eq, Structural)]
pub struct Area {
    pub x: u16,
    pub y: u16,
    pub width: u16,
    pub height: u16,
}

/// `a - b`, or zero when `b` is larger.
pub open spec fn sat_sub(a: u16, b: u16) -> u16 {
    if a >= b { (a - b) as u16 } else { 0 }
}

/// `a + b`, or `u16::MAX` when the sum is larger.
pub open spec fn sat_add(a: u16, b: u16) -> u16 {
    if a + b <= u16::MAX { (a + b) as u16 } else { u16::MAX }
}

/// The smaller of two numbers.
pub open spec fn min16(a: u16, b: u16) -> u16 {
    if a <= b { a } else { b }
}

/// The larger of two numbers.
pub open spec fn max16(a: u16, b: u16) -> u16 {
    if a >= b { a } else { b }
}

/// The extent of a content of size `wanted` inside `available` cells: no
/// more than available, and at least one.
pub open spec fn fitted(wanted: u16, available: u16) -> u16 {
    max16(min16(wanted, available), 1)
}

/// An area of `width` by `height` (fitted into `area`) centred in `area`.
pub open spec fn centered(area: Area, width: u16, height: u16) -> Area {
    let w = fitted(width, area.width);
    let h = fitted(height, area.height);
    Area {
        x: (area.x + sat_sub(area.width, w) / 2) as u16,
        y: (area.y + sat_sub(area.height, h) / 2) as u16,
        width: w,
        height: h,
    }
}

/// Centres content of the given size in an area (an area lies within the
/// screen, so its end does not pass `u16::MAX`).
pub fn centered_area_for_size(area: Area, width: u16, height: u16) -> (r: Area)
    requires
        area.x + area.width <= u16::MAX,
        area.y + area.height <= u16::MAX,
    ensures
        r == centered(area, width, height),
{
    let mw = if width <= area.width { width } else { area.width };
    let tw = if mw >= 1 { mw } else { 1 };
    let mh = if height <= area.height { height } else { area.height };
    let th = if mh >= 1 { mh } else { 1 };
    let sw = if area.width >= tw { area.width - tw } else { 0 };
    let sh = if area.height >= th { area.height - th } else { 0 };
    Area { x: area.x + sw / 2, y: area.y + sh / 2, width: tw, height: th }
}

/// Where the cursor of an input box stands: one cell inside the box, moved
/// right by the cursor index (taken modulo 2^16), but not past the box's
/// last inner column.
pub open spec fn cursor_cell(area: Area, cursor_index: usize) -> (u16, u16) {
    let text_x = sat_add(area.x, 1);
    let text_y = sat_add(area.y, 1);
    let max_x = sat_sub(sat_add(area.x, area.width), 2);
    (min16(sat_add(text_x, (cursor_index % 65536) as u16), max16(max_x, text_x)), text_y)
}

/// `a + b` saturating at `u16::MAX`.
fn add_sat(a: u16, b: u16) -> (r: u16)
    ensures
        r == sat_add(a, b),
{
    if a <= u16::MAX - b { a + b } else { u16::MAX }
}

/// The cell of the cursor of an input box.
pub fn input_cursor_position(area: Area, cursor_index: usize) -> (r: (u16, u16))
    ensures
        r == cursor_cell(area, cursor_index),
{
    let text_x = add_sat(area.x, 1);
    let text_y = add_sat(area.y, 1);
    let right = add_sat(area.x, area.width);
    let max_x = if right >= 2 { right - 2 } else { 0 };
    let shift: u16 = (cursor_index % 65536) as u16;
    let moved = add_sat(text_x, shift);
    let limit = if max_x >= text_x { max_x } else { text_x };
    let x = if moved <= limit { moved } else { limit };
    (x, text_y)
}

/// Where the terminal cursor stands on the form: in the focused text box at
/// its cursor, or nowhere when the focus is on the option or the button.
pub open spec fn form_cursor(f: FormView, input_area: Area, port_area: Area) -> Option<(u16, u16)> {
    match f.field {
        FormField::Input => Some(cursor_cell(input_area, f.input_cursor)),
        FormField::Port => Some(cursor_cell(port_area, f.port_cursor)),
        _ => None,
    }
}

/// The cell of the terminal cursor on the form, given the areas of the
/// directory box and of the port box.
pub fn form_cursor_position(form: &FormState, input_area: Area, port_area: Area) -> (r: Option<(u16, u16)>)
    ensures
        r == form_cursor(form@, input_area, port_area),
{
    match form.field {
        FormField::Input => Some(input_cursor_position(input_area, form.input_cursor)),
        FormField::Port => Some(input_cursor_position(port_area, form.port_cursor)),
        _ => None,
    }
}

/// Whether the splash image must be prepared again for an area of
/// `width` by `height` cells: the area is not empty and differs from the one
/// the current image was prepared for (`prepared`, if there is one).
pub fn splash_needs_new_image(width: u16, height: u16, prepared: Option<(u16, u16)>) -> (r: bool)
    ensures
        r == (width > 0 && height > 0 && prepared != Some((width, height))),
{
    if width == 0 || height == 0 {
        return false;
    }
    match prepared {
        Some((w, h)) => w != width || h != height,
        None => true,
    }
}

}
